use nn_trainer::snapshot::generate_id;

#[test]
fn link_id_joins_with_arrow() {
    assert_eq!(generate_id(&"a".to_string(), &"m1".to_string()), "a->m1");
}

#[test]
fn link_id_of_empty_ids() {
    assert_eq!(generate_id(&String::new(), &String::new()), "->");
}
