use nn_trainer::topology::{
    inputs_of, readers_of, ActivationFunction, BackwardStep, Edge, LayerShape, LinkShape, NetworkShape, NeuronShape,
    WiringError,
};

fn link(id: &str) -> LinkShape {
    LinkShape::new(id.to_string())
}

fn inputs() -> [LinkShape; 4] {
    [link("k"), link("x"), link("b"), LinkShape::new_dummy()]
}

fn three_layers() -> NetworkShape {
    let input = LayerShape {
        neurons: [
            NeuronShape::new_input("k".to_string()),
            NeuronShape::new_input("x".to_string()),
            NeuronShape::new_input("b".to_string()),
            NeuronShape::new_dummy(),
        ],
    };
    let middle = LayerShape {
        neurons: [
            NeuronShape::new_middle("m1".to_string(), ActivationFunction::Linear, inputs()),
            NeuronShape::new_middle("m2".to_string(), ActivationFunction::Square, inputs()),
            NeuronShape::new_middle("m3".to_string(), ActivationFunction::Linear, inputs()),
            NeuronShape::new_middle("m4".to_string(), ActivationFunction::Relu, inputs()),
        ],
    };
    let y = NeuronShape::new_middle(
        "y".to_string(),
        ActivationFunction::Linear,
        [link("m1"), link("m2"), link("m3"), link("m4")],
    );
    let output = LayerShape {
        neurons: [y, NeuronShape::new_dummy(), NeuronShape::new_dummy(), NeuronShape::new_dummy()],
    };
    NetworkShape {
        layers: [
            input,
            middle,
            output,
            LayerShape::new_dummy(),
            LayerShape::new_dummy(),
            LayerShape::new_dummy(),
            LayerShape::new_dummy(),
        ],
        layers_count: 3,
    }
}

#[test]
fn dummies_are_empty_ids() {
    assert!(LinkShape::new_dummy().is_dummy());
    assert!(!link("a").is_dummy());
    assert!(NeuronShape::new_dummy().is_dummy());
    assert!(!NeuronShape::new_input("a".to_string()).is_dummy());
    assert_eq!(NeuronShape::new_input("a".to_string()).function_name, ActivationFunction::Identity);
}

#[test]
fn position_of_finds_real_neurons_only() {
    let nn = three_layers();
    assert_eq!(nn.layers[0].position_of(&"x".to_string()), Some(1));
    assert_eq!(nn.layers[0].position_of(&"b".to_string()), Some(2));
    assert_eq!(nn.layers[0].position_of(&"q".to_string()), None);
    assert_eq!(nn.layers[0].position_of(&String::new()), None);
}

#[test]
fn live_slots_skip_dummies() {
    let nn = three_layers();
    assert_eq!(nn.layers[0].live_slots(), vec![0, 1, 2]);
    assert_eq!(nn.layers[1].live_slots(), vec![0, 1, 2, 3]);
    assert_eq!(nn.layers[2].live_slots(), vec![0]);
    assert!(nn.layers[3].live_slots().is_empty());
}

#[test]
fn last_is_output_layer() {
    let nn = three_layers();
    assert_eq!(nn.last().neurons[0].id, "y");
}

#[test]
fn wiring_resolves_every_live_link_in_order() {
    let edges = three_layers().wiring().unwrap();
    assert_eq!(edges.len(), 16);
    assert_eq!(edges[0], Edge { layer: 1, neuron: 0, link: 0, source: 0 });
    assert_eq!(edges[2], Edge { layer: 1, neuron: 0, link: 2, source: 2 });
    assert_eq!(edges[3], Edge { layer: 1, neuron: 1, link: 0, source: 0 });
    assert_eq!(edges[11], Edge { layer: 1, neuron: 3, link: 2, source: 2 });
    assert_eq!(edges[12], Edge { layer: 2, neuron: 0, link: 0, source: 0 });
    assert_eq!(edges[15], Edge { layer: 2, neuron: 0, link: 3, source: 3 });
}

#[test]
fn wiring_refuses_unknown_source() {
    let mut nn = three_layers();
    nn.layers[2].neurons[0].input_links[1] = link("zz");
    assert_eq!(
        nn.wiring(),
        Err(WiringError::UnresolvedLink { layer: 2, neuron: 0, link: 1 })
    );
}

#[test]
fn wiring_refuses_source_two_layers_back() {
    let mut nn = three_layers();
    nn.layers[2].neurons[0].input_links[0] = link("k");
    assert_eq!(
        nn.wiring(),
        Err(WiringError::UnresolvedLink { layer: 2, neuron: 0, link: 0 })
    );
}

#[test]
fn wiring_refuses_bad_layer_count() {
    let mut nn = three_layers();
    nn.layers_count = 0;
    assert_eq!(nn.wiring(), Err(WiringError::LayerCountOutOfRange));
    nn.layers_count = 8;
    assert_eq!(nn.wiring(), Err(WiringError::LayerCountOutOfRange));
}

#[test]
fn padding_content_does_not_change_wiring() {
    let plain = three_layers().wiring().unwrap();
    let mut padded = three_layers();
    padded.layers[0].neurons[3].input_links[0] = link("nowhere");
    padded.layers[2].neurons[2].input_links = [link("m1"), link("bad"), link("x"), link("y")];
    padded.layers[2].neurons[2].function_name = ActivationFunction::Sigmoid;
    padded.layers[4].neurons[1].input_links[2] = link("ghost");
    assert_eq!(padded.wiring().unwrap(), plain);
}

#[test]
fn single_layer_has_no_links() {
    let mut nn = three_layers();
    nn.layers_count = 1;
    assert!(nn.wiring().unwrap().is_empty());
}

#[test]
fn inputs_of_selects_links_into_one_neuron() {
    let edges = three_layers().wiring().unwrap();
    let into_m2 = inputs_of(&edges, 1, 1);
    assert_eq!(
        into_m2,
        vec![
            Edge { layer: 1, neuron: 1, link: 0, source: 0 },
            Edge { layer: 1, neuron: 1, link: 1, source: 1 },
            Edge { layer: 1, neuron: 1, link: 2, source: 2 },
        ]
    );
    assert!(inputs_of(&edges, 2, 1).is_empty());
}

#[test]
fn readers_of_selects_links_from_one_source() {
    let edges = three_layers().wiring().unwrap();
    let from_x = readers_of(&edges, 1, 1);
    assert_eq!(from_x.len(), 4);
    assert!(from_x.iter().all(|e| e.layer == 1 && e.source == 1 && e.link == 1));
    assert_eq!(from_x.iter().map(|e| e.neuron).collect::<Vec<_>>(), vec![0, 1, 2, 3]);
    assert_eq!(readers_of(&edges, 2, 3), vec![Edge { layer: 2, neuron: 0, link: 3, source: 3 }]);
    assert!(readers_of(&edges, 1, 3).is_empty());
}

#[test]
fn backward_plan_sets_errors_before_weights() {
    let nn = three_layers();
    let edges = nn.wiring().unwrap();
    let plan = nn.backward_plan(&edges);
    assert_eq!(plan.len(), 4 + 3 + 16);
    assert_eq!(plan[0], BackwardStep::Propagate { layer: 2, slot: 0 });
    assert_eq!(plan[3], BackwardStep::Propagate { layer: 2, slot: 3 });
    assert_eq!(plan[4], BackwardStep::Propagate { layer: 1, slot: 0 });
    assert_eq!(plan[6], BackwardStep::Propagate { layer: 1, slot: 2 });
    assert_eq!(plan[7], BackwardStep::Update { edge: edges[0] });
    assert_eq!(plan[22], BackwardStep::Update { edge: edges[15] });
    let first_update = plan.iter().position(|s| matches!(s, BackwardStep::Update { .. })).unwrap();
    assert!(plan[first_update..].iter().all(|s| matches!(s, BackwardStep::Update { .. })));
}

#[test]
fn backward_plan_of_input_only_network_is_empty() {
    let mut nn = three_layers();
    nn.layers_count = 1;
    let edges = nn.wiring().unwrap();
    assert!(nn.backward_plan(&edges).is_empty());
}
