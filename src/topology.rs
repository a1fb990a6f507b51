use vstd::prelude::*;

verus! {

/// Most input links a neuron can have.
pub const MAX_LINKS: usize = 4;

/// Most neurons a layer can hold.
pub const MAX_NEURONS_PER_LAYER: usize = 4;

/// Most layers a network can hold.
pub const MAX_LAYERS_COUNT: usize = 7;

/// Number of link slots in a network: one per layer, neuron and link.
pub const LINK_SLOTS: usize = 112;

/// The scalar nonlinearity that a neuron applies to its weighted input sum.
#[derive(PartialEq, Eq, Structural, Copy, Clone, Debug)]
pub enum ActivationFunction {
    Identity,
    Sigmoid,
    Square,
    Sqrt,
    Linear,
    Relu,
}

/// A link slot: the id of the neuron it reads from, empty for a dummy.
#[derive(Clone, Debug)]
pub struct LinkShape {
    pub source_id: String,
}

/// A neuron slot: its id (empty for a dummy), its activation and its input links.
#[derive(Clone, Debug)]
pub struct NeuronShape {
    pub id: String,
    pub function_name: ActivationFunction,
    pub input_links: [LinkShape; MAX_LINKS],
}

/// A layer: a fixed number of neuron slots.
#[derive(Clone, Debug)]
pub struct LayerShape {
    pub neurons: [NeuronShape; MAX_NEURONS_PER_LAYER],
}

/// The wiring of a network: its layers, of which the first `layers_count` are in use.
#[derive(Clone, Debug)]
pub struct NetworkShape {
    pub layers: [LayerShape; MAX_LAYERS_COUNT],
    pub layers_count: usize,
}

/// A live link resolved: in layer `layer`, link `link` of neuron `neuron` reads
/// neuron `source` of the layer before.
#[derive(PartialEq, Eq, Structural, Copy, Clone, Debug)]
pub struct Edge {
    pub layer: usize,
    pub neuron: usize,
    pub link: usize,
    pub source: usize,
}

/// Why a network's wiring was refused.
#[derive(PartialEq, Eq, Structural, Copy, Clone, Debug)]
pub enum WiringError {
    /// The count of layers in use is zero or above the capacity.
    LayerCountOutOfRange,
    /// A live link names no neuron of the layer before.
    UnresolvedLink { layer: usize, neuron: usize, link: usize },
}

pub open spec fn holds_id(layer: LayerShape, i: int, id: Seq<char>) -> bool {
    layer.neurons@[i].id@.len() > 0 && layer.neurons@[i].id@ == id
}

/// The first slot at or after `i` that holds a real neuron with id `id`.
pub open spec fn find_from(layer: LayerShape, id: Seq<char>, i: int) -> Option<int>
    decreases MAX_NEURONS_PER_LAYER - i,
{
    if i < 0 || i >= MAX_NEURONS_PER_LAYER {
        None
    } else if holds_id(layer, i, id) {
        Some(i)
    } else {
        find_from(layer, id, i + 1)
    }
}

/// The slot of the real neuron with id `id` in `layer`, the first if several.
pub open spec fn position_in(layer: LayerShape, id: Seq<char>) -> Option<int> {
    find_from(layer, id, 0)
}

/// The slots of the real neurons among the first `i` slots, in order.
pub open spec fn live_upto(layer: LayerShape, i: int) -> Seq<usize>
    decreases i,
{
    if i <= 0 {
        Seq::empty()
    } else if layer.neurons@[i - 1].id@.len() > 0 {
        live_upto(layer, i - 1).push((i - 1) as usize)
    } else {
        live_upto(layer, i - 1)
    }
}

pub open spec fn slot_layer(p: int) -> int {
    p / 16
}

pub open spec fn slot_neuron(p: int) -> int {
    (p / 4) % 4
}

pub open spec fn slot_link(p: int) -> int {
    p % 4
}

pub open spec fn neuron_at(t: NetworkShape, l: int, n: int) -> NeuronShape {
    t.layers@[l].neurons@[n]
}

pub open spec fn link_source_at(t: NetworkShape, l: int, n: int, k: int) -> Seq<char> {
    neuron_at(t, l, n).input_links@[k].source_id@
}

/// A link that training reads: in a layer after the input one and in use, of a
/// real neuron, and not a dummy.
pub open spec fn link_is_live(t: NetworkShape, l: int, n: int, k: int) -> bool {
    &&& 1 <= l < t.layers_count
    &&& neuron_at(t, l, n).id@.len() > 0
    &&& link_source_at(t, l, n, k).len() > 0
}

pub open spec fn slot_is_live(t: NetworkShape, p: int) -> bool {
    link_is_live(t, slot_layer(p), slot_neuron(p), slot_link(p))
}

pub open spec fn slot_source(t: NetworkShape, p: int) -> Option<int> {
    position_in(
        t.layers@[slot_layer(p) - 1],
        link_source_at(t, slot_layer(p), slot_neuron(p), slot_link(p)),
    )
}

/// A live link whose source id names no real neuron of the layer before.
pub open spec fn slot_is_unresolved(t: NetworkShape, p: int) -> bool {
    slot_is_live(t, p) && slot_source(t, p) is None
}

pub open spec fn slot_edge(t: NetworkShape, p: int) -> Edge {
    Edge {
        layer: slot_layer(p) as usize,
        neuron: slot_neuron(p) as usize,
        link: slot_link(p) as usize,
        source: match slot_source(t, p) {
            Some(s) => s as usize,
            None => 0,
        },
    }
}

/// The resolved live links among the first `p` link slots, in slot order.
pub open spec fn edges_upto(t: NetworkShape, p: int) -> Seq<Edge>
    decreases p,
{
    if p <= 0 {
        Seq::empty()
    } else if slot_is_live(t, p - 1) {
        edges_upto(t, p - 1).push(slot_edge(t, p - 1))
    } else {
        edges_upto(t, p - 1)
    }
}

pub open spec fn layer_count_ok(t: NetworkShape) -> bool {
    1 <= t.layers_count <= MAX_LAYERS_COUNT
}

pub open spec fn all_resolved_upto(t: NetworkShape, p: int) -> bool {
    forall|q: int| 0 <= q < p ==> !#[trigger] slot_is_unresolved(t, q)
}

impl LinkShape {
    pub fn new(source_id: String) -> (r: Self)
        ensures
            r.source_id@ == source_id@,
    {
        LinkShape { source_id }
    }

    pub fn new_dummy() -> (r: Self)
        ensures
            r.source_id@.len() == 0,
    {
        LinkShape { source_id: String::new() }
    }

    pub fn is_dummy(&self) -> (r: bool)
        ensures
            r == (self.source_id@.len() == 0),
    {
        self.source_id.as_str().is_empty()
    }
}

pub open spec fn all_links_dummy(links: [LinkShape; MAX_LINKS]) -> bool {
    forall|k: int| 0 <= k < MAX_LINKS ==> (#[trigger] links@[k]).source_id@.len() == 0
}

fn dummy_links() -> (r: [LinkShape; MAX_LINKS])
    ensures
        all_links_dummy(r),
{
    [LinkShape::new_dummy(), LinkShape::new_dummy(), LinkShape::new_dummy(), LinkShape::new_dummy()]
}

impl NeuronShape {
    /// An input neuron: identity activation and no input links.
    pub fn new_input(id: String) -> (r: Self)
        ensures
            r.id@ == id@,
            r.function_name == ActivationFunction::Identity,
            all_links_dummy(r.input_links),
    {
        NeuronShape { id, function_name: ActivationFunction::Identity, input_links: dummy_links() }
    }

    pub fn new_middle(id: String, function: ActivationFunction, links: [LinkShape; MAX_LINKS]) -> (r: Self)
        ensures
            r.id@ == id@,
            r.function_name == function,
            r.input_links == links,
    {
        NeuronShape { id, function_name: function, input_links: links }
    }

    pub fn new_dummy() -> (r: Self)
        ensures
            r.id@.len() == 0,
            r.function_name == ActivationFunction::Identity,
            all_links_dummy(r.input_links),
    {
        NeuronShape {
            id: String::new(),
            function_name: ActivationFunction::Identity,
            input_links: dummy_links(),
        }
    }

    pub fn is_dummy(&self) -> (r: bool)
        ensures
            r == (self.id@.len() == 0),
    {
        self.id.as_str().is_empty()
    }
}

impl LayerShape {
    pub fn new_dummy() -> (r: Self)
        ensures
            forall|n: int| 0 <= n < MAX_NEURONS_PER_LAYER ==> (#[trigger] r.neurons@[n]).id@.len() == 0,
    {
        LayerShape {
            neurons: [
                NeuronShape::new_dummy(),
                NeuronShape::new_dummy(),
                NeuronShape::new_dummy(),
                NeuronShape::new_dummy(),
            ],
        }
    }

    /// The slot of the real neuron with id `neuron_id`, the first if several;
    /// `None` if there is none (a dummy never matches).
    pub fn position_of(&self, neuron_id: &String) -> (r: Option<usize>)
        ensures
            match r {
                Some(i) => position_in(*self, neuron_id@) == Some(i as int),
                None => position_in(*self, neuron_id@) is None,
            },
    {
        let mut i: usize = 0;
        while i < MAX_NEURONS_PER_LAYER
            invariant
                0 <= i <= MAX_NEURONS_PER_LAYER,
                find_from(*self, neuron_id@, 0) == find_from(*self, neuron_id@, i as int),
            decreases MAX_NEURONS_PER_LAYER - i,
        {
            let n = &self.neurons[i];
            if !n.id.as_str().is_empty() && n.id == *neuron_id {
                return Some(i);
            }
            i = i + 1;
        }
        None
    }

    /// The slots of the real neurons, in order.
    pub fn live_slots(&self) -> (r: Vec<usize>)
        ensures
            r@ == live_upto(*self, MAX_NEURONS_PER_LAYER as int),
    {
        let mut r: Vec<usize> = Vec::new();
        let mut i: usize = 0;
        while i < MAX_NEURONS_PER_LAYER
            invariant
                0 <= i <= MAX_NEURONS_PER_LAYER,
                r@ == live_upto(*self, i as int),
            decreases MAX_NEURONS_PER_LAYER - i,
        {
            if !self.neurons[i].id.as_str().is_empty() {
                r.push(i);
            }
            i = i + 1;
        }
        r
    }
}

impl NetworkShape {
    /// The output layer: the last one in use.
    pub fn last(&self) -> (r: &LayerShape)
        requires
            layer_count_ok(*self),
        ensures
            *r == self.layers@[self.layers_count - 1],
    {
        &self.layers[self.layers_count - 1]
    }

    /// Whether link slot `p` is live, and if so the slot of its source.
    fn resolve_slot(&self, p: usize) -> (r: (bool, Option<usize>))
        requires
            p < LINK_SLOTS,
            layer_count_ok(*self),
        ensures
            r.0 == slot_is_live(*self, p as int),
            r.0 ==> match r.1 {
                Some(s) => slot_source(*self, p as int) == Some(s as int),
                None => slot_source(*self, p as int) is None,
            },
    {
        let l = p / 16;
        let n = (p / 4) % 4;
        let k = p % 4;
        assert(l as int == slot_layer(p as int) && n as int == slot_neuron(p as int) && k as int
            == slot_link(p as int));
        if l >= 1 && l < self.layers_count {
            let neuron = &self.layers[l].neurons[n];
            let link = &neuron.input_links[k];
            if !neuron.id.as_str().is_empty() && !link.source_id.as_str().is_empty() {
                return (true, self.layers[l - 1].position_of(&link.source_id));
            }
        }
        (false, None)
    }

    /// Resolves every live link to the slot of its source in the layer before,
    /// in slot order (layer, then neuron, then link). Dummy neurons and dummy
    /// links are left out; a link that names no real neuron refuses the network.
    pub fn wiring(&self) -> (r: Result<Vec<Edge>, WiringError>)
        ensures
            r == Err::<Vec<Edge>, WiringError>(WiringError::LayerCountOutOfRange) <==> !layer_count_ok(*self),
            r is Ok <==> layer_count_ok(*self) && all_resolved_upto(*self, LINK_SLOTS as int),
            r is Ok ==> r->Ok_0@ == edges_upto(*self, LINK_SLOTS as int),
            match r {
                Err(WiringError::UnresolvedLink { layer, neuron, link }) => {
                    let p = layer * 16 + neuron * 4 + link;
                    &&& layer_count_ok(*self)
                    &&& neuron < MAX_NEURONS_PER_LAYER && link < MAX_LINKS
                    &&& slot_is_unresolved(*self, p)
                    &&& all_resolved_upto(*self, p)
                },
                _ => true,
            },
    {
        if self.layers_count < 1 || self.layers_count > MAX_LAYERS_COUNT {
            return Err(WiringError::LayerCountOutOfRange);
        }
        let mut edges: Vec<Edge> = Vec::new();
        let mut p: usize = 0;
        while p < LINK_SLOTS
            invariant
                0 <= p <= LINK_SLOTS,
                layer_count_ok(*self),
                edges@ == edges_upto(*self, p as int),
                all_resolved_upto(*self, p as int),
            decreases LINK_SLOTS - p,
        {
            let l = p / 16;
            let n = (p / 4) % 4;
            let k = p % 4;
            assert(l as int == slot_layer(p as int) && n as int == slot_neuron(p as int) && k as int
                == slot_link(p as int));
            let (live, source) = self.resolve_slot(p);
            if live {
                match source {
                    Some(s) => {
                        edges.push(Edge { layer: l, neuron: n, link: k, source: s });
                        assert(edges@ =~= edges_upto(*self, (p + 1) as int));
                    },
                    None => {
                        assert(slot_is_unresolved(*self, p as int));
                        return Err(WiringError::UnresolvedLink { layer: l, neuron: n, link: k });
                    },
                }
            }
            p = p + 1;
        }
        Ok(edges)
    }
}

pub open spec fn same_ids(a: LayerShape, b: LayerShape) -> bool {
    forall|n: int| 0 <= n < MAX_NEURONS_PER_LAYER ==> (#[trigger] a.neurons@[n]).id@ == b.neurons@[n].id@
}

/// Two networks that differ only inside padding: the same layers in use, the
/// same neuron ids in every slot, and the same link source ids on every real
/// neuron of a layer in use. What a dummy slot holds is left free.
pub open spec fn same_but_padding(t1: NetworkShape, t2: NetworkShape) -> bool {
    &&& t1.layers_count == t2.layers_count
    &&& forall|l: int| 0 <= l < MAX_LAYERS_COUNT ==> same_ids(#[trigger] t1.layers@[l], t2.layers@[l])
    &&& forall|l: int, n: int, k: int|
        1 <= l < t1.layers_count && 0 <= n < MAX_NEURONS_PER_LAYER && 0 <= k < MAX_LINKS
            && neuron_at(t1, l, n).id@.len() > 0 ==> #[trigger] link_source_at(t1, l, n, k)
            == link_source_at(t2, l, n, k)
}

proof fn find_from_same_ids(a: LayerShape, b: LayerShape, id: Seq<char>, i: int)
    requires
        same_ids(a, b),
    ensures
        find_from(a, id, i) == find_from(b, id, i),
    decreases MAX_NEURONS_PER_LAYER - i,
{
    if 0 <= i < MAX_NEURONS_PER_LAYER {
        assert(a.neurons@[i].id@ == b.neurons@[i].id@);
        find_from_same_ids(a, b, id, i + 1);
    }
}

proof fn slots_agree(t1: NetworkShape, t2: NetworkShape, p: int)
    requires
        same_but_padding(t1, t2),
        0 <= p < LINK_SLOTS,
    ensures
        slot_is_live(t1, p) == slot_is_live(t2, p),
        slot_is_live(t1, p) ==> slot_source(t1, p) == slot_source(t2, p),
{
    let l = slot_layer(p);
    let n = slot_neuron(p);
    let k = slot_link(p);
    assert(0 <= l < MAX_LAYERS_COUNT);
    assert(same_ids(t1.layers@[l], t2.layers@[l]));
    assert(neuron_at(t1, l, n).id@ == neuron_at(t2, l, n).id@);
    if 1 <= l < t1.layers_count && neuron_at(t1, l, n).id@.len() > 0 {
        assert(link_source_at(t1, l, n, k) == link_source_at(t2, l, n, k));
        assert(same_ids(t1.layers@[l - 1], t2.layers@[l - 1]));
        find_from_same_ids(t1.layers@[l - 1], t2.layers@[l - 1], link_source_at(t1, l, n, k), 0);
    }
}

proof fn edges_agree(t1: NetworkShape, t2: NetworkShape, p: int)
    requires
        same_but_padding(t1, t2),
        0 <= p <= LINK_SLOTS,
    ensures
        edges_upto(t1, p) == edges_upto(t2, p),
    decreases p,
{
    if p > 0 {
        edges_agree(t1, t2, p - 1);
        slots_agree(t1, t2, p - 1);
    }
}

/// Padding is transparent to the wiring: two networks that differ only inside
/// dummy slots resolve to the same links, and refuse the same links.
pub proof fn wiring_ignores_padding(t1: NetworkShape, t2: NetworkShape)
    requires
        same_but_padding(t1, t2),
    ensures
        layer_count_ok(t1) == layer_count_ok(t2),
        edges_upto(t1, LINK_SLOTS as int) == edges_upto(t2, LINK_SLOTS as int),
        forall|p: int| 0 <= p < LINK_SLOTS ==> #[trigger] slot_is_unresolved(t1, p) == slot_is_unresolved(t2, p),
{
    edges_agree(t1, t2, LINK_SLOTS as int);
    assert forall|p: int| 0 <= p < LINK_SLOTS implies #[trigger] slot_is_unresolved(t1, p)
        == slot_is_unresolved(t2, p) by {
        slots_agree(t1, t2, p);
    }
}

/// Every resolved link is a live one, of a real neuron, and reads a real neuron
/// of the layer before whose id is the link's source id.
pub proof fn wiring_skips_dummies(t: NetworkShape, p: int)
    requires
        0 <= p <= LINK_SLOTS,
        all_resolved_upto(t, p),
    ensures
        forall|i: int| 0 <= i < edges_upto(t, p).len() ==> {
            let e = #[trigger] edges_upto(t, p)[i];
            &&& link_is_live(t, e.layer as int, e.neuron as int, e.link as int)
            &&& e.neuron < MAX_NEURONS_PER_LAYER && e.link < MAX_LINKS
            &&& e.source < MAX_NEURONS_PER_LAYER
            &&& holds_id(
                t.layers@[e.layer - 1],
                e.source as int,
                link_source_at(t, e.layer as int, e.neuron as int, e.link as int),
            )
        },
    decreases p,
{
    if p > 0 {
        wiring_skips_dummies(t, p - 1);
        if slot_is_live(t, p - 1) {
            assert(!slot_is_unresolved(t, p - 1));
            let l = slot_layer(p - 1);
            let src = link_source_at(t, l, slot_neuron(p - 1), slot_link(p - 1));
            find_from_found(t.layers@[l - 1], src, 0);
            let e = slot_edge(t, p - 1);
            assert(e.layer as int == l && e.neuron as int == slot_neuron(p - 1) && e.link as int
                == slot_link(p - 1));
            let prev = edges_upto(t, p - 1);
            assert(edges_upto(t, p) == prev.push(e));
            assert forall|i: int| 0 <= i < prev.len() implies #[trigger] edges_upto(t, p)[i]
                == prev[i] by {}
        } else {
            assert(edges_upto(t, p) == edges_upto(t, p - 1));
        }
    }
}

proof fn find_from_found(a: LayerShape, id: Seq<char>, i: int)
    requires
        0 <= i,
    ensures
        match find_from(a, id, i) {
            Some(s) => i <= s < MAX_NEURONS_PER_LAYER && holds_id(a, s, id),
            None => true,
        },
    decreases MAX_NEURONS_PER_LAYER - i,
{
    if i < MAX_NEURONS_PER_LAYER && !holds_id(a, i, id) {
        find_from_found(a, id, i + 1);
    }
}

pub open spec fn feeds(e: Edge, layer: usize, neuron: usize) -> bool {
    e.layer == layer && e.neuron == neuron
}

pub open spec fn reads(e: Edge, layer: usize, source: usize) -> bool {
    e.layer == layer && e.source == source
}

/// The resolved links into neuron slot `neuron` of layer `layer`, in order:
/// what the forward pass sums for that neuron.
pub fn inputs_of(edges: &Vec<Edge>, layer: usize, neuron: usize) -> (r: Vec<Edge>)
    ensures
        r@ == edges@.filter(|e: Edge| feeds(e, layer, neuron)),
{
    let mut r: Vec<Edge> = Vec::new();
    let mut i: usize = 0;
    while i < edges.len()
        invariant
            0 <= i <= edges@.len(),
            r@ == edges@.take(i as int).filter(|e: Edge| feeds(e, layer, neuron)),
        decreases edges@.len() - i,
    {
        let e = edges[i];
        if e.layer == layer && e.neuron == neuron {
            r.push(e);
        }
        proof {
            assert(edges@.take(i + 1).drop_last() =~= edges@.take(i as int));
            reveal(Seq::filter);
        }
        i = i + 1;
    }
    assert(edges@.take(edges@.len() as int) =~= edges@);
    r
}

/// The resolved links of layer `layer` that read neuron slot `source` of the
/// layer before, in order: what the backward pass sums into that neuron's error.
pub fn readers_of(edges: &Vec<Edge>, layer: usize, source: usize) -> (r: Vec<Edge>)
    ensures
        r@ == edges@.filter(|e: Edge| reads(e, layer, source)),
{
    let mut r: Vec<Edge> = Vec::new();
    let mut i: usize = 0;
    while i < edges.len()
        invariant
            0 <= i <= edges@.len(),
            r@ == edges@.take(i as int).filter(|e: Edge| reads(e, layer, source)),
        decreases edges@.len() - i,
    {
        let e = edges[i];
        if e.layer == layer && e.source == source {
            r.push(e);
        }
        proof {
            assert(edges@.take(i + 1).drop_last() =~= edges@.take(i as int));
            reveal(Seq::filter);
        }
        i = i + 1;
    }
    assert(edges@.take(edges@.len() as int) =~= edges@);
    r
}

/// One step of the backward pass.
#[derive(PartialEq, Eq, Structural, Copy, Clone, Debug)]
pub enum BackwardStep {
    /// Set the error of neuron slot `slot` of layer `layer - 1` to the sum, over
    /// `readers_of(edges, layer, slot)`, of each link's weight times its
    /// neuron's error.
    Propagate { layer: usize, slot: usize },
    /// Add to the edge's weight its neuron's error, times its activation's
    /// derivative at its input sum, times the source's output, times the rate.
    Update { edge: Edge },
}

/// The error steps into the layer before layer `l`: one per real neuron there.
pub open spec fn propagate_steps(t: NetworkShape, l: int) -> Seq<BackwardStep> {
    live_upto(t.layers@[l - 1], 4).map(
        |i: int, p: usize| BackwardStep::Propagate { layer: l as usize, slot: p },
    )
}

/// The error steps of the first `j` layers visited, from the last in use down.
pub open spec fn propagation_upto(t: NetworkShape, j: int) -> Seq<BackwardStep>
    decreases j,
{
    if j <= 0 {
        Seq::empty()
    } else {
        propagation_upto(t, j - 1) + propagate_steps(t, t.layers_count - j)
    }
}

pub open spec fn update_steps(edges: Seq<Edge>) -> Seq<BackwardStep> {
    edges.map(|i: int, e: Edge| BackwardStep::Update { edge: e })
}

/// The backward pass: every error, layer by layer from the last in use down to
/// the first after the input one; then every weight, in slot order.
pub open spec fn backward_steps(t: NetworkShape, edges: Seq<Edge>) -> Seq<BackwardStep> {
    propagation_upto(t, t.layers_count - 1) + update_steps(edges)
}

impl NetworkShape {
    /// The steps of a backward pass over the resolved links `edges`.
    pub fn backward_plan(&self, edges: &Vec<Edge>) -> (r: Vec<BackwardStep>)
        requires
            layer_count_ok(*self),
        ensures
            r@ == backward_steps(*self, edges@),
    {
        let mut r: Vec<BackwardStep> = Vec::new();
        let mut j: usize = 1;
        while j < self.layers_count
            invariant
                1 <= j <= self.layers_count,
                layer_count_ok(*self),
                r@ == propagation_upto(*self, j - 1),
            decreases self.layers_count - j,
        {
            let l = self.layers_count - j;
            let live = self.layers[l - 1].live_slots();
            let ghost base = r@;
            let mut i: usize = 0;
            while i < live.len()
                invariant
                    0 <= i <= live@.len(),
                    1 <= l < MAX_LAYERS_COUNT,
                    live@ == live_upto(self.layers@[l - 1], 4),
                    r@ == base + propagate_steps(*self, l as int).take(i as int),
                decreases live@.len() - i,
            {
                r.push(BackwardStep::Propagate { layer: l, slot: live[i] });
                assert(propagate_steps(*self, l as int).take(i + 1) =~= propagate_steps(
                    *self,
                    l as int,
                ).take(i as int).push(BackwardStep::Propagate { layer: l, slot: live@[i as int] }));
                i = i + 1;
            }
            assert(propagate_steps(*self, l as int).take(live@.len() as int) =~= propagate_steps(
                *self,
                l as int,
            ));
            j = j + 1;
        }
        let ghost head = r@;
        let mut k: usize = 0;
        while k < edges.len()
            invariant
                0 <= k <= edges@.len(),
                r@ == head + update_steps(edges@).take(k as int),
            decreases edges@.len() - k,
        {
            r.push(BackwardStep::Update { edge: edges[k] });
            assert(update_steps(edges@).take(k + 1) =~= update_steps(edges@).take(k as int).push(
                BackwardStep::Update { edge: edges@[k as int] },
            ));
            k = k + 1;
        }
        assert(update_steps(edges@).take(edges@.len() as int) =~= update_steps(edges@));
        r
    }
}

proof fn propagation_only(t: NetworkShape, j: int)
    ensures
        forall|i: int|
            0 <= i < propagation_upto(t, j).len() ==> #[trigger] propagation_upto(t, j)[i] is Propagate,
    decreases j,
{
    if j > 0 {
        propagation_only(t, j - 1);
        let a = propagation_upto(t, j - 1);
        let b = propagate_steps(t, t.layers_count - j);
        assert forall|i: int| 0 <= i < (a + b).len() implies #[trigger] (a + b)[i] is Propagate by {
            if i >= a.len() {
                assert((a + b)[i] == b[i - a.len()]);
            }
        }
    }
}

/// In a backward pass every error is set before any weight changes, so that
/// errors flow back through the weights as they were before the pass.
pub proof fn errors_before_weights(t: NetworkShape, edges: Seq<Edge>, i: int, j: int)
    requires
        0 <= i < j < backward_steps(t, edges).len(),
        backward_steps(t, edges)[i] is Update,
    ensures
        backward_steps(t, edges)[j] is Update,
{
    let a = propagation_upto(t, t.layers_count - 1);
    propagation_only(t, t.layers_count - 1);
    assert(i >= a.len()) by {
        if i < a.len() {
            assert(backward_steps(t, edges)[i] == a[i]);
        }
    }
    assert(backward_steps(t, edges)[j] == update_steps(edges)[j - a.len()]);
}

} // verus!
