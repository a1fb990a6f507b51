use vstd::prelude::*;

verus! {

/// The id under which a link appears in a snapshot: `"{from}->{to}"`.
pub open spec fn link_id(from: Seq<char>, to: Seq<char>) -> Seq<char> {
    from + seq!['-', '>'] + to
}

/// Builds the snapshot id of the link from neuron `from` to neuron `to`.
pub fn generate_id(from: &String, to: &String) -> (r: String)
    ensures
        r@ == link_id(from@, to@),
{
    let arrow = "->";
    proof {
        reveal_strlit("->");
    }
    let mut r = from.clone();
    r.append(arrow);
    r.append(to.as_str());
    assert(arrow@ =~= seq!['-', '>']);
    r
}

} // verus!
