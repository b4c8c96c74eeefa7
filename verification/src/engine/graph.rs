//! Computation graphs: operator nodes, their wiring by identifier, the
//! execution order found by Kahn's algorithm, and a builder.

use vstd::prelude::*;
use crate::text::{join2, join3, owned};

verus! {

/// Errors of graph construction and ordering.
#[derive(Debug)]
pub enum GraphError {
    /// No node has the given identifier.
    NodeNotFound(String),
    /// The nodes admit no execution order.
    CycleDetected,
    /// A node names as input an identifier that no node has.
    InvalidEdge { from: String, to: String },
    /// The graph is incomplete or a node could not be added.
    BuildFailed(String),
}

/// The text of a graph error, as its `Display` renders it.
pub open spec fn graph_error_text(e: GraphError) -> Seq<char> {
    match e {
        GraphError::NodeNotFound(m) => "节点未找到: "@ + m@,
        GraphError::CycleDetected => "循环依赖检测到"@,
        GraphError::InvalidEdge { from, to } => "无效的边连接: 从 "@ + from@ + " 到 "@ + to@,
        GraphError::BuildFailed(m) => "图构建失败: "@ + m@,
    }
}

impl GraphError {
    /// The text of the error, as its `Display` renders it.
    pub fn describe(&self) -> (r: String)
        ensures
            r@ == graph_error_text(*self),
    {
        match self {
            GraphError::NodeNotFound(m) => join2("节点未找到: ", m.as_str()),
            GraphError::CycleDetected => owned("循环依赖检测到"),
            GraphError::InvalidEdge { from, to } => {
                let head = join3("无效的边连接: 从 ", from.as_str(), " 到 ");
                join2(head.as_str(), to.as_str())
            },
            GraphError::BuildFailed(m) => join2("图构建失败: ", m.as_str()),
        }
    }
}

/// The kind of operation a node performs, with its settings.
///
/// Floating-point settings are carried as the IEEE-754 bit pattern of the
/// `f64` value (`f64::to_bits`), so that the graph holds plain integers.
#[derive(Debug)]
pub enum NodeType {
    /// A graph input.
    Input { name: String, dtype: String, shape: Vec<usize> },
    /// A graph output.
    Output { name: String },
    /// A fully connected layer `y = x @ W^T + b`.
    Dense { name: String, in_features: usize, out_features: usize, has_bias: bool },
    /// A two-dimensional convolution.
    Conv2D {
        name: String,
        in_channels: usize,
        out_channels: usize,
        kernel_size: (usize, usize),
        stride: (usize, usize),
        padding: (usize, usize),
    },
    /// Rectified linear unit.
    ReLU,
    /// Softmax along `axis`; negative values count from the last axis.
    Softmax { axis: i32 },
    /// Layer normalisation; `epsilon_bits` is the bit pattern of the `f64` epsilon.
    LayerNorm { normalized_shape: Vec<usize>, epsilon_bits: u64 },
    /// Matrix product of two inputs.
    MatMul,
    /// Element-wise sum of two inputs.
    Add,
    /// A change of shape; `-1` marks the extent to infer.
    Reshape { target_shape: Vec<i64> },
    /// Gaussian error linear unit.
    GELU,
    /// Embedding lookup.
    Embedding { vocab_size: usize, embed_dim: usize },
    /// Multi-head attention.
    MultiHeadAttention { num_heads: usize, head_dim: usize },
    /// Dropout; `rate_bits` is the bit pattern of the `f64` rate.
    Dropout { rate_bits: u64 },
}

/// The characters of each string of `v`.
pub open spec fn str_views(v: Seq<String>) -> Seq<Seq<char>> {
    v.map_values(|s: String| s@)
}

/// The short label of a node type, as shown in messages.
pub open spec fn type_label(t: NodeType) -> Seq<char> {
    match t {
        NodeType::Input { name, .. } => "Input("@ + name@ + ")"@,
        NodeType::Output { name } => "Output("@ + name@ + ")"@,
        NodeType::Dense { name, .. } => "Dense("@ + name@ + ")"@,
        NodeType::Conv2D { name, .. } => "Conv2D("@ + name@ + ")"@,
        NodeType::ReLU => "ReLU"@,
        NodeType::Softmax { .. } => "Softmax"@,
        NodeType::LayerNorm { .. } => "LayerNorm"@,
        NodeType::MatMul => "MatMul"@,
        NodeType::Add => "Add"@,
        NodeType::Reshape { .. } => "Reshape"@,
        NodeType::GELU => "GELU"@,
        NodeType::Embedding { .. } => "Embedding"@,
        NodeType::MultiHeadAttention { .. } => "MultiHeadAttention"@,
        NodeType::Dropout { .. } => "Dropout"@,
    }
}

impl NodeType {
    /// The short label of the node type: the kind, with the layer name for
    /// the kinds that carry one.
    pub fn label(&self) -> (r: String)
        ensures
            r@ == type_label(*self),
    {
        match self {
            NodeType::Input { name, .. } => join3("Input(", name.as_str(), ")"),
            NodeType::Output { name } => join3("Output(", name.as_str(), ")"),
            NodeType::Dense { name, .. } => join3("Dense(", name.as_str(), ")"),
            NodeType::Conv2D { name, .. } => join3("Conv2D(", name.as_str(), ")"),
            NodeType::ReLU => owned("ReLU"),
            NodeType::Softmax { .. } => owned("Softmax"),
            NodeType::LayerNorm { .. } => owned("LayerNorm"),
            NodeType::MatMul => owned("MatMul"),
            NodeType::Add => owned("Add"),
            NodeType::Reshape { .. } => owned("Reshape"),
            NodeType::GELU => owned("GELU"),
            NodeType::Embedding { .. } => owned("Embedding"),
            NodeType::MultiHeadAttention { .. } => owned("MultiHeadAttention"),
            NodeType::Dropout { .. } => owned("Dropout"),
        }
    }
}

/// A copy of a list of extents.
pub fn copy_usizes(v: &Vec<usize>) -> (r: Vec<usize>)
    ensures
        r@ == v@,
{
    vstd::slice::slice_to_vec(v.as_slice())
}

/// A copy of a list of signed extents.
pub fn copy_i64s(v: &Vec<i64>) -> (r: Vec<i64>)
    ensures
        r@ == v@,
{
    vstd::slice::slice_to_vec(v.as_slice())
}

/// A copy of a list of strings, element by element.
pub fn copy_strings(v: &Vec<String>) -> (r: Vec<String>)
    ensures
        r@ == v@,
{
    let mut r: Vec<String> = Vec::new();
    let mut i: usize = 0;
    while i < v.len()
        invariant
            i <= v@.len(),
            r@ == v@.take(i as int),
        decreases v@.len() - i,
    {
        r.push(v[i].clone());
        proof {
            assert(v@.take(i as int + 1) =~= v@.take(i as int).push(v@[i as int]));
        }
        i = i + 1;
    }
    proof {
        assert(v@.take(v@.len() as int) =~= v@);
    }
    r
}

/// A node of a computation graph.
#[derive(Debug)]
pub struct Node {
    /// Identifier, unique within a graph.
    pub id: String,
    /// The operation.
    pub node_type: NodeType,
    /// Identifiers of the nodes whose results this node consumes, in order.
    pub inputs: Vec<String>,
    /// Identifiers of consuming nodes (informational).
    pub outputs: Vec<String>,
    /// Names of the parameters (weights, biases) the operation uses.
    pub param_names: Vec<String>,
}

impl Node {
    /// The identifiers this node consumes.
    pub open spec fn inputs_view(&self) -> Seq<Seq<char>> {
        str_views(self.inputs@)
    }

    /// The parameter names of this node.
    pub open spec fn params_view(&self) -> Seq<Seq<char>> {
        str_views(self.param_names@)
    }

    /// A node with identifier `id` performing `node_type`, without inputs or parameters.
    pub fn new(id: &str, node_type: NodeType) -> (r: Node)
        ensures
            r.id@ == id@,
            r.node_type == node_type,
            r.inputs@.len() == 0,
            r.outputs@.len() == 0,
            r.param_names@.len() == 0,
    {
        Node {
            id: owned(id),
            node_type,
            inputs: Vec::new(),
            outputs: Vec::new(),
            param_names: Vec::new(),
        }
    }

    /// The same node consuming, in addition, the result of node `input_id`.
    pub fn with_input(self, input_id: &str) -> (r: Node)
        ensures
            r.id == self.id,
            r.node_type == self.node_type,
            r.inputs_view() == self.inputs_view().push(input_id@),
            r.outputs == self.outputs,
            r.param_names == self.param_names,
    {
        let mut node = self;
        node.inputs.push(owned(input_id));
        proof {
            assert(str_views(node.inputs@) =~= str_views(self.inputs@).push(input_id@));
        }
        node
    }

    /// The same node using, in addition, the parameter `name`.
    pub fn with_param(self, name: &str) -> (r: Node)
        ensures
            r.id == self.id,
            r.node_type == self.node_type,
            r.inputs == self.inputs,
            r.outputs == self.outputs,
            r.params_view() == self.params_view().push(name@),
    {
        let mut node = self;
        node.param_names.push(owned(name));
        proof {
            assert(str_views(node.param_names@) =~= str_views(self.param_names@).push(name@));
        }
        node
    }
}

/// The identifiers of `nodes`, in order.
pub open spec fn node_ids(nodes: Seq<Node>) -> Seq<Seq<char>> {
    nodes.map_values(|n: Node| n.id@)
}

/// No two nodes share an identifier.
pub open spec fn unique_ids(nodes: Seq<Node>) -> bool {
    forall|i: int, j: int|
        0 <= i < nodes.len() && 0 <= j < nodes.len() && i != j ==> #[trigger] nodes[i].id@
            != #[trigger] nodes[j].id@
}

/// The identifiers of the input nodes among `nodes`, in order.
pub open spec fn input_node_ids(nodes: Seq<Node>) -> Seq<Seq<char>>
    decreases nodes.len(),
{
    if nodes.len() == 0 {
        Seq::empty()
    } else {
        let rest = input_node_ids(nodes.drop_last());
        if nodes.last().node_type is Input {
            rest.push(nodes.last().id@)
        } else {
            rest
        }
    }
}

/// The identifiers of the output nodes among `nodes`, in order.
pub open spec fn output_node_ids(nodes: Seq<Node>) -> Seq<Seq<char>>
    decreases nodes.len(),
{
    if nodes.len() == 0 {
        Seq::empty()
    } else {
        let rest = output_node_ids(nodes.drop_last());
        if nodes.last().node_type is Output {
            rest.push(nodes.last().id@)
        } else {
            rest
        }
    }
}

/// Whether `order` lists every node exactly once, each after all the nodes
/// whose identifiers it names as inputs.
pub open spec fn is_execution_order(nodes: Seq<Node>, order: Seq<usize>) -> bool {
    &&& order.len() == nodes.len()
    &&& order.no_duplicates()
    &&& forall|p: int| 0 <= p < order.len() ==> #[trigger] order[p] < nodes.len()
    &&& forall|p: int, k: int|
        0 <= p < order.len() && 0 <= k < nodes[order[p] as int].inputs_view().len()
            ==> #[trigger] placed_before(nodes, order, p, input_of(nodes, order[p] as int, k))
}

/// Whether a node listed in `order` before position `p` has identifier `x`.
pub open spec fn placed_before(nodes: Seq<Node>, order: Seq<usize>, p: int, x: Seq<char>) -> bool {
    exists|q: int| 0 <= q < p && #[trigger] id_of(nodes, order[q] as int) == x
}

/// The identifier of node `j`.
pub open spec fn id_of(nodes: Seq<Node>, j: int) -> Seq<char> {
    nodes[j].id@
}

/// The identifier that node `j` names as its input number `k`.
pub open spec fn input_of(nodes: Seq<Node>, j: int, k: int) -> Seq<char> {
    nodes[j].inputs_view()[k]
}

/// Whether Kahn's ordering succeeds on `nodes`: some execution order exists.
pub open spec fn has_execution_order(nodes: Seq<Node>) -> bool {
    exists|order: Seq<usize>| is_execution_order(nodes, order)
}

/// Whether every input identifier of every node names a node.
pub open spec fn edges_resolve(nodes: Seq<Node>) -> bool {
    forall|j: int, k: int|
        0 <= j < nodes.len() && 0 <= k < nodes[j].inputs_view().len() ==> node_ids(
            nodes,
        ).contains(#[trigger] nodes[j].inputs_view()[k])
}

/// Whether the input at position `k` of node `j` is the first unresolved one
/// when nodes and then inputs are scanned in order.
pub open spec fn first_dangling_edge(nodes: Seq<Node>, j: int, k: int) -> bool {
    &&& 0 <= j < nodes.len()
    &&& 0 <= k < nodes[j].inputs_view().len()
    &&& !node_ids(nodes).contains(nodes[j].inputs_view()[k])
    &&& forall|jj: int, kk: int|
        0 <= jj < nodes.len() && 0 <= kk < nodes[jj].inputs_view().len() && (jj < j || (jj
            == j && kk < k)) ==> node_ids(nodes).contains(#[trigger] nodes[jj].inputs_view()[kk])
}

/// The identifiers of the nodes at positions `done`.
pub open spec fn ids_at(nodes: Seq<Node>, done: Seq<usize>) -> Seq<Seq<char>> {
    done.map_values(|k: usize| nodes[k as int].id@)
}

/// How many identifiers of `done` occur among `req`.
pub open spec fn met_count(done: Seq<Seq<char>>, req: Seq<Seq<char>>) -> nat
    decreases done.len(),
{
    if done.len() == 0 {
        0
    } else {
        met_count(done.drop_last(), req) + if req.contains(done.last()) {
            1nat
        } else {
            0nat
        }
    }
}

/// Every node in `lo..hi` has a pending count equal to the number of its
/// distinct inputs not yet met by the identifiers of the nodes at positions
/// `done`.
pub open spec fn counts_ok(nodes: Seq<Node>, deg: Seq<usize>, done: Seq<usize>, lo: int, hi: int) -> bool {
    forall|i: int|
        lo <= i < hi ==> #[trigger] deg[i] + met_count(ids_at(nodes, done), nodes[i].inputs_view())
            == nodes[i].inputs_view().to_set().len()
}

/// A node's pending count is zero exactly when the node has been queued.
pub open spec fn zero_iff_queued(deg: Seq<usize>, queue: Seq<usize>, n: int) -> bool {
    forall|i: int| 0 <= i < n ==> (#[trigger] deg[i] == 0 <==> queue.contains(i as usize))
}

/// The queue holds distinct positions of nodes.
pub open spec fn queue_ok(queue: Seq<usize>, n: int) -> bool {
    &&& queue.no_duplicates()
    &&& forall|p: int| 0 <= p < queue.len() ==> #[trigger] queue[p] < n
}

/// Each node of `done` names as inputs only identifiers of nodes listed
/// before it in `done`.
pub open spec fn prefix_sound(nodes: Seq<Node>, done: Seq<usize>) -> bool {
    forall|p: int, k: int|
        0 <= p < done.len() && 0 <= k < nodes[done[p] as int].inputs_view().len()
            ==> #[trigger] placed_before(nodes, done, p, input_of(nodes, done[p] as int, k))
}

/// Whether position `r` of `order` releases the node at position `p`: it is
/// the last position before `p` whose node that node reads, or `-1` when it
/// reads none of the nodes before it.
pub open spec fn released_at(nodes: Seq<Node>, order: Seq<usize>, p: int, r: int) -> bool {
    &&& -1 <= r < p
    &&& r >= 0 ==> nodes[order[p] as int].inputs_view().contains(id_of(nodes, order[r] as int))
    &&& forall|q: int|
        r < q < p ==> !nodes[order[p] as int].inputs_view().contains(#[trigger] id_of(nodes, order[q] as int))
}

/// Whether `order` is the first-come, first-served order of Kahn's
/// algorithm: nodes come in the order of the positions that release them,
/// and nodes released by the same position come in insertion order.
pub open spec fn first_come_order(nodes: Seq<Node>, order: Seq<usize>) -> bool {
    forall|p: int, q: int, rp: int, rq: int|
        0 <= p < q < order.len() && #[trigger] released_at(nodes, order, p, rp) && #[trigger] released_at(
            nodes,
            order,
            q,
            rq,
        ) ==> rp < rq || (rp == rq && order[p] < order[q])
}

proof fn lemma_released_unique(nodes: Seq<Node>, order: Seq<usize>, p: int, r1: int, r2: int)
    requires
        released_at(nodes, order, p, r1),
        released_at(nodes, order, p, r2),
    ensures
        r1 == r2,
{
    if r1 < r2 {
        assert(!nodes[order[p] as int].inputs_view().contains(id_of(nodes, order[r2] as int)));
    } else if r2 < r1 {
        assert(!nodes[order[p] as int].inputs_view().contains(id_of(nodes, order[r1] as int)));
    }
}

proof fn lemma_released_push(nodes: Seq<Node>, order: Seq<usize>, x: usize, p: int, r: int)
    requires
        released_at(nodes, order, p, r),
        0 <= p < order.len(),
    ensures
        released_at(nodes, order.push(x), p, r),
{
    let o = order.push(x);
    assert(o[p] == order[p]);
    if r >= 0 {
        assert(o[r] == order[r]);
    }
    assert forall|q: int| r < q < p implies !nodes[o[p] as int].inputs_view().contains(
        #[trigger] id_of(nodes, o[q] as int),
    ) by {
        assert(o[q] == order[q]);
        assert(!nodes[order[p] as int].inputs_view().contains(id_of(nodes, order[q] as int)));
    }
}

/// Whether `rel` gives, for each position of `order`, the position that
/// releases its node.
spec fn releases_ok(nodes: Seq<Node>, order: Seq<usize>, rel: Seq<int>) -> bool {
    &&& rel.len() == order.len()
    &&& forall|p: int| 0 <= p < order.len() ==> #[trigger] released_at(nodes, order, p, rel[p])
}

/// Whether the nodes of `order` come by their release positions `rel`, ties
/// broken by insertion order.
spec fn fifo_by(order: Seq<usize>, rel: Seq<int>) -> bool {
    forall|p: int, q: int|
        0 <= p < q < order.len() ==> #[trigger] rel[p] < #[trigger] rel[q] || (rel[p] == rel[q] && order[p]
            < order[q])
}

proof fn lemma_releases_push(nodes: Seq<Node>, order: Seq<usize>, rel: Seq<int>, x: usize, r: int)
    requires
        releases_ok(nodes, order, rel),
        released_at(nodes, order.push(x), order.len() as int, r),
    ensures
        releases_ok(nodes, order.push(x), rel.push(r)),
{
    assert forall|p: int| 0 <= p < order.len() + 1 implies #[trigger] released_at(
        nodes,
        order.push(x),
        p,
        rel.push(r)[p],
    ) by {
        if p < order.len() {
            assert(released_at(nodes, order, p, rel[p]));
            lemma_released_push(nodes, order, x, p, rel[p]);
        }
    }
}

proof fn lemma_fifo_push(order: Seq<usize>, rel: Seq<int>, x: usize, r: int)
    requires
        rel.len() == order.len(),
        fifo_by(order, rel),
        forall|p: int| 0 <= p < order.len() ==> rel[p] < r || (rel[p] == r && order[p] < x),
    ensures
        fifo_by(order.push(x), rel.push(r)),
{
    let o = order.push(x);
    let e = rel.push(r);
    assert forall|p: int, q: int| 0 <= p < q < o.len() implies #[trigger] e[p] < #[trigger] e[q] || (e[p]
        == e[q] && o[p] < o[q]) by {
        if q < order.len() {
            assert(rel[p] < rel[q] || (rel[p] == rel[q] && order[p] < order[q]));
        } else {
            assert(rel[p] < r || (rel[p] == r && order[p] < x));
        }
    }
}

proof fn lemma_first_come(nodes: Seq<Node>, order: Seq<usize>, rel: Seq<int>)
    requires
        releases_ok(nodes, order, rel),
        fifo_by(order, rel),
    ensures
        first_come_order(nodes, order),
{
    assert forall|p: int, q: int, rp: int, rq: int|
        0 <= p < q < order.len() && #[trigger] released_at(nodes, order, p, rp) && #[trigger] released_at(
            nodes,
            order,
            q,
            rq,
        ) implies rp < rq || (rp == rq && order[p] < order[q]) by {
        assert(released_at(nodes, order, p, rel[p]));
        assert(released_at(nodes, order, q, rel[q]));
        lemma_released_unique(nodes, order, p, rp, rel[p]);
        lemma_released_unique(nodes, order, q, rq, rel[q]);
        assert(rel[p] < rel[q] || (rel[p] == rel[q] && order[p] < order[q]));
    }
}

/// A node whose distinct inputs are all met by the nodes placed at `done`,
/// the first `h + 1` positions of `before`, and which reads the node at
/// position `h`, is released by position `h` when it is queued next.
proof fn lemma_push_released(nodes: Seq<Node>, before: Seq<usize>, done: Seq<usize>, h: int, i: usize)
    requires
        unique_ids(nodes),
        queue_ok(before, nodes.len() as int),
        i < nodes.len(),
        0 <= h < before.len(),
        done == before.take(h + 1),
        ids_at(nodes, done).no_duplicates(),
        nodes[i as int].inputs_view().contains(nodes[before[h] as int].id@),
        met_count(ids_at(nodes, done), nodes[i as int].inputs_view()) == nodes[i as int].inputs_view().to_set().len(),
    ensures
        released_at(nodes, before.push(i), before.len() as int, h),
{
    let o = before.push(i);
    let req = nodes[i as int].inputs_view();
    let big_p = before.len() as int;
    lemma_met_full(ids_at(nodes, done), req);
    assert(o[big_p] == i);
    assert(o[h] == before[h]);
    assert forall|q: int| h < q < big_p implies !nodes[o[big_p] as int].inputs_view().contains(
        #[trigger] id_of(nodes, o[q] as int),
    ) by {
        assert(o[q] == before[q]);
        let x = id_of(nodes, o[q] as int);
        if req.contains(x) {
            let k = choose|k: int| 0 <= k < req.len() && req[k] == x;
            assert(ids_at(nodes, done).contains(req[k]));
            let r = choose|r: int| 0 <= r < ids_at(nodes, done).len() && ids_at(nodes, done)[r] == req[k];
            assert(done[r] == before[r]);
            assert(nodes[before[r] as int].id@ == nodes[before[q] as int].id@);
            assert(before[r] == before[q]);
        }
    }
}

/// A list with no distinct values has no element.
proof fn lemma_empty_set_seq(s: Seq<Seq<char>>, x: Seq<char>)
    requires
        s.to_set().len() == 0,
    ensures
        !s.contains(x),
{
    broadcast use vstd::seq_lib::seq_to_set_is_finite;

    if s.contains(x) {
        assert(s.to_set().contains(x));
        assert(s.to_set().remove(x).len() + 1 == s.to_set().len());
    }
}

/// The positions `0..n`.
pub open spec fn positions(n: nat) -> Seq<usize> {
    Seq::new(n, |i: int| i as usize)
}

proof fn lemma_met_card(done: Seq<Seq<char>>, req: Seq<Seq<char>>)
    requires
        done.no_duplicates(),
    ensures
        done.to_set().intersect(req.to_set()).finite(),
        met_count(done, req) == done.to_set().intersect(req.to_set()).len(),
    decreases done.len(),
{
    broadcast use vstd::set::group_set_axioms;
    broadcast use vstd::seq_lib::seq_to_set_is_finite;

    if done.len() == 0 {
        assert(done.to_set().intersect(req.to_set()) =~= Set::<Seq<char>>::empty());
    } else {
        let d = done.drop_last();
        let x = done.last();
        assert(d.no_duplicates()) by {
            assert forall|i: int, j: int| 0 <= i < d.len() && 0 <= j < d.len() && i != j implies d[i]
                != d[j] by {
                assert(d[i] == done[i]);
                assert(d[j] == done[j]);
            }
        }
        lemma_met_card(d, req);
        assert(done =~= d.push(x));
        d.lemma_push_to_set_commute(x);
        assert(!d.to_set().contains(x)) by {
            if d.contains(x) {
                let i = choose|i: int| 0 <= i < d.len() && d[i] == x;
                assert(done[i] == done[done.len() - 1]);
            }
        }
        let r = req.to_set();
        if req.contains(x) {
            assert(done.to_set().intersect(r) =~= d.to_set().intersect(r).insert(x));
        } else {
            assert(done.to_set().intersect(r) =~= d.to_set().intersect(r));
        }
    }
}

proof fn lemma_met_bound(done: Seq<Seq<char>>, req: Seq<Seq<char>>)
    requires
        done.no_duplicates(),
    ensures
        met_count(done, req) <= req.to_set().len(),
        req.to_set().len() <= req.len(),
{
    broadcast use vstd::seq_lib::seq_to_set_is_finite;

    lemma_met_card(done, req);
    vstd::set_lib::lemma_len_subset(done.to_set().intersect(req.to_set()), req.to_set());
    req.lemma_cardinality_of_set();
}

proof fn lemma_met_full(done: Seq<Seq<char>>, req: Seq<Seq<char>>)
    requires
        done.no_duplicates(),
        met_count(done, req) == req.to_set().len(),
    ensures
        forall|k: int| 0 <= k < req.len() ==> done.contains(#[trigger] req[k]),
{
    broadcast use vstd::seq_lib::seq_to_set_is_finite;

    lemma_met_bound(done, req);
    lemma_met_card(done, req);
    let inter = done.to_set().intersect(req.to_set());
    vstd::set_lib::lemma_subset_equality(inter, req.to_set());
    assert forall|k: int| 0 <= k < req.len() implies done.contains(#[trigger] req[k]) by {
        assert(req.to_set().contains(req[k]));
        assert(inter.contains(req[k]));
    }
}

proof fn lemma_met_all(done: Seq<Seq<char>>, req: Seq<Seq<char>>)
    requires
        done.no_duplicates(),
        forall|k: int| 0 <= k < req.len() ==> done.contains(#[trigger] req[k]),
    ensures
        met_count(done, req) == req.to_set().len(),
{
    broadcast use vstd::seq_lib::seq_to_set_is_finite;

    lemma_met_card(done, req);
    assert(done.to_set().intersect(req.to_set()) =~= req.to_set()) by {
        assert forall|x: Seq<char>| req.to_set().contains(x) implies done.to_set().contains(x) by {
            let k = choose|k: int| 0 <= k < req.len() && req[k] == x;
            assert(done.contains(req[k]));
        }
    }
}

proof fn lemma_met_push(done: Seq<Seq<char>>, x: Seq<char>, req: Seq<Seq<char>>)
    ensures
        met_count(done.push(x), req) == met_count(done, req) + if req.contains(x) {
            1nat
        } else {
            0nat
        },
{
    assert(done.push(x).drop_last() =~= done);
}

proof fn lemma_distinct_within<A>(xs: Seq<A>, ys: Seq<A>)
    requires
        xs.no_duplicates(),
        forall|i: int| 0 <= i < xs.len() ==> ys.contains(#[trigger] xs[i]),
    ensures
        xs.len() <= ys.len(),
{
    broadcast use vstd::seq_lib::seq_to_set_is_finite;

    assert(xs.to_set().subset_of(ys.to_set())) by {
        assert forall|x: A| xs.to_set().contains(x) implies ys.to_set().contains(x) by {
            let i = choose|i: int| 0 <= i < xs.len() && xs[i] == x;
            assert(ys.contains(xs[i]));
        }
    }
    xs.unique_seq_to_set();
    ys.lemma_cardinality_of_set();
    vstd::set_lib::lemma_len_subset(xs.to_set(), ys.to_set());
}

proof fn lemma_distinct_fill<A>(xs: Seq<A>, ys: Seq<A>)
    requires
        xs.no_duplicates(),
        ys.no_duplicates(),
        xs.len() == ys.len(),
        forall|i: int| 0 <= i < xs.len() ==> ys.contains(#[trigger] xs[i]),
    ensures
        forall|i: int| 0 <= i < ys.len() ==> xs.contains(#[trigger] ys[i]),
{
    broadcast use vstd::seq_lib::seq_to_set_is_finite;

    assert(xs.to_set().subset_of(ys.to_set())) by {
        assert forall|x: A| xs.to_set().contains(x) implies ys.to_set().contains(x) by {
            let i = choose|i: int| 0 <= i < xs.len() && xs[i] == x;
            assert(ys.contains(xs[i]));
        }
    }
    xs.unique_seq_to_set();
    ys.unique_seq_to_set();
    vstd::set_lib::lemma_subset_equality(xs.to_set(), ys.to_set());
    assert forall|i: int| 0 <= i < ys.len() implies xs.contains(#[trigger] ys[i]) by {
        assert(ys.to_set().contains(ys[i]));
        assert(xs.to_set().contains(ys[i]));
    }
}

proof fn lemma_queue_short(queue: Seq<usize>, n: nat)
    requires
        queue_ok(queue, n as int),
    ensures
        queue.len() <= n,
{
    assert forall|i: int| 0 <= i < queue.len() implies positions(n).contains(#[trigger] queue[i]) by {
        assert(positions(n)[queue[i] as int] == queue[i]);
    }
    lemma_distinct_within(queue, positions(n));
}

proof fn lemma_positions_distinct(n: nat)
    requires
        n <= usize::MAX,
    ensures
        positions(n).no_duplicates(),
        forall|i: int| 0 <= i < n ==> #[trigger] positions(n)[i] == i,
{
}

proof fn lemma_push_contains<A>(s: Seq<A>, x: A, y: A)
    ensures
        s.push(x).contains(y) <==> (s.contains(y) || y == x),
{
    if s.contains(y) {
        let p = choose|p: int| 0 <= p < s.len() && s[p] == y;
        assert(s.push(x)[p] == y);
    }
    if y == x {
        assert(s.push(x)[s.len() as int] == y);
    }
    if s.push(x).contains(y) {
        let p = choose|p: int| 0 <= p < s.push(x).len() && s.push(x)[p] == y;
        if p < s.len() {
            assert(s[p] == y);
        }
    }
}

proof fn lemma_ids_distinct(nodes: Seq<Node>, done: Seq<usize>)
    requires
        unique_ids(nodes),
        queue_ok(done, nodes.len() as int),
    ensures
        ids_at(nodes, done).no_duplicates(),
{
    let ids = ids_at(nodes, done);
    assert forall|i: int, j: int| 0 <= i < ids.len() && 0 <= j < ids.len() && i != j implies ids[i]
        != ids[j] by {
        assert(done[i] != done[j]);
        assert(nodes[done[i] as int].id@ != nodes[done[j] as int].id@);
    }
}

proof fn lemma_order_prefix_queued(
    nodes: Seq<Node>,
    deg: Seq<usize>,
    queue: Seq<usize>,
    order: Seq<usize>,
    p: int,
)
    requires
        unique_ids(nodes),
        deg.len() == nodes.len(),
        queue_ok(queue, nodes.len() as int),
        zero_iff_queued(deg, queue, nodes.len() as int),
        counts_ok(nodes, deg, queue, 0, nodes.len() as int),
        is_execution_order(nodes, order),
        0 <= p <= nodes.len(),
    ensures
        forall|q: int| 0 <= q < p ==> queue.contains(#[trigger] order[q]),
    decreases p,
{
    if p > 0 {
        lemma_order_prefix_queued(nodes, deg, queue, order, p - 1);
        let j = order[p - 1] as int;
        let req = nodes[j].inputs_view();
        let ids = ids_at(nodes, queue);
        lemma_ids_distinct(nodes, queue);
        assert forall|k: int| 0 <= k < req.len() implies ids.contains(#[trigger] req[k]) by {
            assert(input_of(nodes, order[p - 1] as int, k) == req[k]);
            assert(placed_before(nodes, order, p - 1, input_of(nodes, order[p - 1] as int, k)));
            let q = choose|q: int| 0 <= q < p - 1 && #[trigger] id_of(nodes, order[q] as int) == req[k];
            assert(queue.contains(order[q]));
            let r = choose|r: int| 0 <= r < queue.len() && queue[r] == order[q];
            assert(ids[r] == nodes[order[q] as int].id@);
        }
        lemma_met_all(ids, req);
        assert(deg[j] + met_count(ids, req) == req.to_set().len());
        assert(deg[j] == 0);
        assert(queue.contains(j as usize));
        assert forall|q: int| 0 <= q < p implies queue.contains(#[trigger] order[q]) by {
            if q == p - 1 {
                assert(order[q] == j as usize);
            }
        }
    }
}

proof fn lemma_extend_sound(nodes: Seq<Node>, prev: Seq<usize>, cur: usize)
    requires
        prefix_sound(nodes, prev),
        forall|k: int|
            0 <= k < nodes[cur as int].inputs_view().len() ==> ids_at(nodes, prev).contains(
                #[trigger] nodes[cur as int].inputs_view()[k],
            ),
    ensures
        prefix_sound(nodes, prev.push(cur)),
{
    let done = prev.push(cur);
    let req = nodes[cur as int].inputs_view();
    assert forall|p: int, k: int|
        0 <= p < done.len() && 0 <= k < nodes[done[p] as int].inputs_view().len()
        implies #[trigger] placed_before(nodes, done, p, input_of(nodes, done[p] as int, k)) by {
        let x = input_of(nodes, done[p] as int, k);
        if p < prev.len() {
            assert(done[p] == prev[p]);
            assert(placed_before(nodes, prev, p, input_of(nodes, prev[p] as int, k)));
            let q = choose|q: int| 0 <= q < p && #[trigger] id_of(nodes, prev[q] as int) == x;
            assert(done[q] == prev[q]);
            assert(id_of(nodes, done[q] as int) == x);
        } else {
            assert(done[p] == cur);
            assert(x == req[k]);
            assert(ids_at(nodes, prev).contains(req[k]));
            let q = choose|q: int| 0 <= q < ids_at(nodes, prev).len() && ids_at(nodes, prev)[q] == req[k];
            assert(q < prev.len());
            assert(done[q] == prev[q]);
            assert(id_of(nodes, done[q] as int) == x);
        }
    }
}

proof fn lemma_sound_order(nodes: Seq<Node>, order: Seq<usize>)
    requires
        prefix_sound(nodes, order),
        queue_ok(order, nodes.len() as int),
        order.len() == nodes.len(),
    ensures
        is_execution_order(nodes, order),
{
}

proof fn lemma_kahn_complete(
    nodes: Seq<Node>,
    deg: Seq<usize>,
    queue: Seq<usize>,
    order: Seq<usize>,
)
    requires
        unique_ids(nodes),
        deg.len() == nodes.len(),
        queue_ok(queue, nodes.len() as int),
        zero_iff_queued(deg, queue, nodes.len() as int),
        counts_ok(nodes, deg, queue, 0, nodes.len() as int),
        is_execution_order(nodes, order),
    ensures
        queue.len() == nodes.len(),
{
    lemma_order_prefix_queued(nodes, deg, queue, order, nodes.len() as int);
    lemma_distinct_within(order, queue);
    lemma_queue_short(queue, nodes.len());
}

/// The message for a node identifier that is taken.
pub open spec fn duplicate_id_text(id: Seq<char>) -> Seq<char> {
    "节点 ID '"@ + id + "' 已存在"@
}

/// Whether `s` and `t` hold the same characters.
pub fn same_text(s: &String, t: &String) -> (r: bool)
    ensures
        r == (s@ == t@),
{
    s.eq(t)
}

/// Whether one of the strings of `v` holds the characters of `s`.
pub fn contains_text(v: &Vec<String>, s: &String) -> (r: bool)
    ensures
        r == str_views(v@).contains(s@),
{
    let mut i: usize = 0;
    while i < v.len()
        invariant
            i <= v@.len(),
            forall|k: int| 0 <= k < i ==> v@[k]@ != s@,
        decreases v@.len() - i,
    {
        if same_text(&v[i], s) {
            proof {
                assert(str_views(v@)[i as int] == s@);
            }
            return true;
        }
        i = i + 1;
    }
    proof {
        if str_views(v@).contains(s@) {
            let k = choose|k: int| 0 <= k < str_views(v@).len() && str_views(v@)[k] == s@;
            assert(v@[k]@ == s@);
        }
    }
    false
}

/// The number of distinct strings of `v`.
fn distinct_count(v: &Vec<String>) -> (r: usize)
    ensures
        r == str_views(v@).to_set().len(),
{
    broadcast use vstd::seq_lib::seq_to_set_is_finite;

    let ghost s = str_views(v@);
    let mut count: usize = 0;
    let mut q: usize = 0;
    proof {
        assert(s.take(0).to_set() =~= Set::<Seq<char>>::empty());
    }
    while q < v.len()
        invariant
            s == str_views(v@),
            q <= v@.len(),
            count == s.take(q as int).to_set().len(),
            count <= q,
        decreases v@.len() - q,
    {
        let mut seen = false;
        let mut k: usize = 0;
        while k < q
            invariant
                s == str_views(v@),
                q < v@.len(),
                k <= q,
                seen <==> exists|p: int| 0 <= p < k && s[p] == s[q as int],
            decreases q - k,
        {
            if same_text(&v[k], &v[q]) {
                proof {
                    assert(s[k as int] == s[q as int]);
                }
                seen = true;
            }
            k = k + 1;
        }
        proof {
            let t = s.take(q as int);
            assert(s.take(q + 1) =~= t.push(s[q as int]));
            t.lemma_push_to_set_commute(s[q as int]);
            if seen {
                let p = choose|p: int| 0 <= p < q && s[p] == s[q as int];
                assert(t[p] == s[q as int]);
                assert(t.to_set().contains(s[q as int]));
                assert(t.to_set().insert(s[q as int]) =~= t.to_set());
            } else {
                assert(!t.to_set().contains(s[q as int])) by {
                    if t.contains(s[q as int]) {
                        let p = choose|p: int| 0 <= p < t.len() && t[p] == s[q as int];
                        assert(s[p] == s[q as int]);
                    }
                }
            }
        }
        if !seen {
            count = count + 1;
        }
        q = q + 1;
    }
    proof {
        assert(s.take(v@.len() as int) =~= s);
    }
    count
}

/// A computation graph: nodes in insertion order, the identifiers of its
/// input and output nodes, and an execution order once one has been found.
#[derive(Debug)]
pub struct Graph {
    nodes: Vec<Node>,
    execution_order: Vec<usize>,
    input_ids: Vec<String>,
    output_ids: Vec<String>,
}

impl Graph {
    /// The nodes in insertion order.
    pub closed spec fn nodes_view(&self) -> Seq<Node> {
        self.nodes@
    }

    /// The execution order: positions into the nodes.
    pub closed spec fn order_view(&self) -> Seq<usize> {
        self.execution_order@
    }

    /// The identifiers of the input nodes.
    pub closed spec fn input_ids_view(&self) -> Seq<Seq<char>> {
        str_views(self.input_ids@)
    }

    /// The identifiers of the output nodes.
    pub closed spec fn output_ids_view(&self) -> Seq<Seq<char>> {
        str_views(self.output_ids@)
    }

    /// Identifiers are unique, the input and output lists follow the nodes,
    /// and the execution order points at distinct nodes.
    #[verifier::type_invariant]
    spec fn well_formed(&self) -> bool {
        &&& unique_ids(self.nodes@)
        &&& str_views(self.input_ids@) == input_node_ids(self.nodes@)
        &&& str_views(self.output_ids@) == output_node_ids(self.nodes@)
        &&& forall|p: int|
            0 <= p < self.execution_order@.len() ==> #[trigger] self.execution_order@[p]
                < self.nodes@.len()
        &&& self.execution_order@.no_duplicates()
    }

    /// The graph invariant, for callers: identifiers are unique, the input and
    /// output lists follow the nodes, and the execution order points at
    /// distinct nodes.
    pub open spec fn valid(&self) -> bool {
        &&& unique_ids(self.nodes_view())
        &&& self.input_ids_view() == input_node_ids(self.nodes_view())
        &&& self.output_ids_view() == output_node_ids(self.nodes_view())
        &&& forall|p: int|
            0 <= p < self.order_view().len() ==> #[trigger] self.order_view()[p]
                < self.nodes_view().len()
        &&& self.order_view().no_duplicates()
    }

    /// Every graph satisfies its invariant.
    pub fn check_valid(&self)
        ensures
            self.valid(),
    {
        proof {
            use_type_invariant(self);
        }
    }

    /// An empty graph.
    pub fn new() -> (r: Graph)
        ensures
            r.nodes_view().len() == 0,
            r.order_view().len() == 0,
            r.input_ids_view().len() == 0,
            r.output_ids_view().len() == 0,
    {
        let input_ids: Vec<String> = Vec::new();
        let output_ids: Vec<String> = Vec::new();
        proof {
            assert(str_views(input_ids@) =~= Seq::<Seq<char>>::empty());
            assert(str_views(output_ids@) =~= Seq::<Seq<char>>::empty());
        }
        Graph { nodes: Vec::new(), execution_order: Vec::new(), input_ids, output_ids }
    }

    /// The position of the node with identifier `id`, if there is one.
    pub fn find(&self, id: &String) -> (r: Option<usize>)
        ensures
            match r {
                Some(i) => i < self.nodes_view().len() && self.nodes_view()[i as int].id@ == id@,
                None => !node_ids(self.nodes_view()).contains(id@),
            },
    {
        let mut i: usize = 0;
        while i < self.nodes.len()
            invariant
                i <= self.nodes@.len(),
                forall|k: int| 0 <= k < i ==> self.nodes@[k].id@ != id@,
            decreases self.nodes@.len() - i,
        {
            if same_text(&self.nodes[i].id, id) {
                return Some(i);
            }
            i = i + 1;
        }
        proof {
            if node_ids(self.nodes@).contains(id@) {
                let k = choose|k: int|
                    0 <= k < node_ids(self.nodes@).len() && node_ids(self.nodes@)[k] == id@;
                assert(self.nodes@[k].id@ == id@);
            }
        }
        None
    }

    /// Adds `node` at the end. A node whose identifier is taken is refused
    /// and the graph is left as it was.
    pub fn add_node(&mut self, node: Node) -> (r: Result<(), GraphError>)
        ensures
            r is Ok <==> !node_ids(old(self).nodes_view()).contains(node.id@),
            r is Ok ==> final(self).nodes_view() == old(self).nodes_view().push(node),
            r is Ok ==> final(self).order_view() == old(self).order_view(),
            r is Err ==> *final(self) == *old(self),
            r matches Err(e) ==> e matches GraphError::BuildFailed(m) && m@ == duplicate_id_text(
                node.id@,
            ),
    {
        proof {
            use_type_invariant(&*self);
        }
        if let Some(i) = self.find(&node.id) {
            proof {
                assert(node_ids(self.nodes@)[i as int] == node.id@);
            }
            let msg = join3("节点 ID '", node.id.as_str(), "' 已存在");
            return Err(GraphError::BuildFailed(msg));
        }
        let ghost old_nodes = self.nodes@;
        let is_input = matches!(node.node_type, NodeType::Input { .. });
        let is_output = matches!(node.node_type, NodeType::Output { .. });
        let id_copy = node.id.clone();
        let mut inputs = copy_strings(&self.input_ids);
        let mut outputs = copy_strings(&self.output_ids);
        if is_input {
            inputs.push(id_copy.clone());
        }
        if is_output {
            outputs.push(id_copy);
        }
        let mut taken = Graph::new();
        std::mem::swap(self, &mut taken);
        let Graph { nodes: mut nodes, execution_order: order, .. } = taken;
        nodes.push(node);
        proof {
            let ns = nodes@;
            assert(ns.drop_last() =~= old_nodes);
            assert(str_views(inputs@) =~= input_node_ids(ns));
            assert(str_views(outputs@) =~= output_node_ids(ns));
            assert forall|i: int, j: int|
                0 <= i < ns.len() && 0 <= j < ns.len() && i != j implies #[trigger] ns[i].id@
                != #[trigger] ns[j].id@ by {
                if i == ns.len() - 1 {
                    assert(node_ids(old_nodes)[j] == old_nodes[j].id@);
                } else if j == ns.len() - 1 {
                    assert(node_ids(old_nodes)[i] == old_nodes[i].id@);
                } else {
                    assert(ns[i] == old_nodes[i]);
                    assert(ns[j] == old_nodes[j]);
                }
            }
        }
        *self = Graph { nodes, execution_order: order, input_ids: inputs, output_ids: outputs };
        Ok(())
    }

    /// The nodes in insertion order.
    pub fn nodes(&self) -> (r: &[Node])
        ensures
            r@ == self.nodes_view(),
    {
        self.nodes.as_slice()
    }

    /// The node with identifier `id`, if there is one.
    pub fn get_node(&self, id: &str) -> (r: Option<&Node>)
        ensures
            match r {
                Some(n) => exists|i: int|
                    0 <= i < self.nodes_view().len() && self.nodes_view()[i] == *n && n.id@
                        == id@,
                None => !node_ids(self.nodes_view()).contains(id@),
            },
    {
        let key = owned(id);
        match self.find(&key) {
            Some(i) => Some(&self.nodes[i]),
            None => None,
        }
    }

    /// The execution order, as positions into the nodes.
    pub fn execution_order(&self) -> (r: &[usize])
        ensures
            r@ == self.order_view(),
    {
        self.execution_order.as_slice()
    }

    /// The identifiers of the input nodes, in insertion order.
    pub fn input_ids(&self) -> (r: &[String])
        ensures
            str_views(r@) == self.input_ids_view(),
    {
        self.input_ids.as_slice()
    }

    /// The identifiers of the output nodes, in insertion order.
    pub fn output_ids(&self) -> (r: &[String])
        ensures
            str_views(r@) == self.output_ids_view(),
    {
        self.output_ids.as_slice()
    }

    /// The number of nodes.
    pub fn node_count(&self) -> (r: usize)
        ensures
            r == self.nodes_view().len(),
    {
        self.nodes.len()
    }

    /// Orders the nodes by Kahn's algorithm: a node becomes ready once every
    /// node its inputs name has been placed (an input named twice counts
    /// once), and ready nodes are placed first come, first served: by the
    /// position that made them ready, then in insertion order. The
    /// ordering fails with `CycleDetected` when some node never becomes ready
    /// (a cycle, or an input naming no node); the previous order is then kept.
    pub fn topological_sort(&mut self) -> (r: Result<(), GraphError>)
        ensures
            r is Ok <==> has_execution_order(old(self).nodes_view()),
            final(self).nodes_view() == old(self).nodes_view(),
            final(self).input_ids_view() == old(self).input_ids_view(),
            final(self).output_ids_view() == old(self).output_ids_view(),
            r is Ok ==> is_execution_order(final(self).nodes_view(), final(self).order_view()),
            r is Ok ==> first_come_order(final(self).nodes_view(), final(self).order_view()),
            r is Err ==> final(self).order_view() == old(self).order_view(),
            r matches Err(e) ==> e is CycleDetected,
    {
        proof {
            use_type_invariant(&*self);
        }
        let n = self.nodes.len();
        let ghost nodes = self.nodes@;
        let mut deg: Vec<usize> = Vec::new();
        let mut i: usize = 0;
        while i < n
            invariant
                n == nodes.len(),
                nodes == self.nodes@,
                i <= n,
                deg@.len() == i,
                forall|k: int| 0 <= k < i ==> #[trigger] deg@[k] == nodes[k].inputs_view().to_set().len(),
            decreases n - i,
        {
            deg.push(distinct_count(&self.nodes[i].inputs));
            i = i + 1;
        }
        let mut queue: Vec<usize> = Vec::new();
        let ghost mut rel: Seq<int> = Seq::empty();
        let mut i: usize = 0;
        while i < n
            invariant
                n == nodes.len(),
                nodes == self.nodes@,
                i <= n,
                deg@.len() == n,
                forall|k: int| 0 <= k < n ==> #[trigger] deg@[k] == nodes[k].inputs_view().to_set().len(),
                queue_ok(queue@, n as int),
                releases_ok(nodes, queue@, rel),
                fifo_by(queue@, rel),
                forall|p: int| 0 <= p < rel.len() ==> #[trigger] rel[p] == -1,
                forall|p: int| 0 <= p < queue@.len() ==> #[trigger] queue@[p] < i,
                forall|k: int| 0 <= k < i ==> (#[trigger] deg@[k] == 0 <==> queue@.contains(k as usize)),
            decreases n - i,
        {
            if deg[i] == 0 {
                proof {
                    assert(!queue@.contains(i)) by {
                        if queue@.contains(i) {
                            let p = choose|p: int| 0 <= p < queue@.len() && queue@[p] == i;
                            assert(queue@[p] < i);
                        }
                    }
                }
                let ghost before = queue@;
                queue.push(i);
                proof {
                    assert(queue@ =~= before.push(i));
                    let o = before.push(i);
                    assert(o[before.len() as int] == i);
                    assert forall|q: int| -1 < q < before.len() implies !nodes[o[before.len() as int] as int].inputs_view().contains(
                        #[trigger] id_of(nodes, o[q] as int),
                    ) by {
                        lemma_empty_set_seq(nodes[i as int].inputs_view(), id_of(nodes, o[q] as int));
                    }
                    assert(released_at(nodes, o, before.len() as int, -1));
                    lemma_releases_push(nodes, before, rel, i, -1);
                    lemma_fifo_push(before, rel, i, -1);
                    rel = rel.push(-1);
                    assert forall|k: int| 0 <= k < i + 1 implies (#[trigger] deg@[k] == 0
                        <==> queue@.contains(k as usize)) by {
                        lemma_push_contains(before, i, k as usize);
                    }
                    assert forall|a: int, b: int|
                        0 <= a < queue@.len() && 0 <= b < queue@.len() && a != b implies queue@[a]
                        != queue@[b] by {
                        if a < before.len() && b < before.len() {
                        } else if a < before.len() {
                            assert(before.contains(before[a]));
                        } else if b < before.len() {
                            assert(before.contains(before[b]));
                        }
                    }
                }
            } else {
                proof {
                    assert(!queue@.contains(i)) by {
                        if queue@.contains(i) {
                            let p = choose|p: int| 0 <= p < queue@.len() && queue@[p] == i;
                            assert(queue@[p] < i);
                        }
                    }
                }
            }
            i = i + 1;
        }
        proof {
            lemma_queue_short(queue@, n as nat);
            assert forall|k: int| 0 <= k < n implies #[trigger] deg@[k] + met_count(
                ids_at(nodes, queue@.take(0)),
                nodes[k].inputs_view(),
            ) == nodes[k].inputs_view().to_set().len() by {
                assert(ids_at(nodes, queue@.take(0)).len() == 0);
            }
        }
        let mut head: usize = 0;
        while head < queue.len()
            invariant
                n == nodes.len(),
                nodes == self.nodes@,
                unique_ids(nodes),
                deg@.len() == n,
                queue_ok(queue@, n as int),
                queue@.len() <= n,
                head <= queue@.len(),
                zero_iff_queued(deg@, queue@, n as int),
                counts_ok(nodes, deg@, queue@.take(head as int), 0, n as int),
                prefix_sound(nodes, queue@.take(head as int)),
                releases_ok(nodes, queue@, rel),
                fifo_by(queue@, rel),
                forall|p: int| 0 <= p < rel.len() ==> #[trigger] rel[p] < head,
            decreases n - head,
        {
            let cur = queue[head];
            let ghost prev = queue@.take(head as int);
            let ghost done = queue@.take(head as int + 1);
            proof {
                assert(done =~= prev.push(cur));
                assert(queue@.contains(cur));
                let req = nodes[cur as int].inputs_view();
                assert(deg@[cur as int] == 0);
                assert(queue_ok(prev, n as int)) by {
                    assert forall|p: int| 0 <= p < prev.len() implies #[trigger] prev[p] < n by {
                        assert(prev[p] == queue@[p]);
                    }
                }
                lemma_ids_distinct(nodes, prev);
                lemma_met_full(ids_at(nodes, prev), req);
                lemma_extend_sound(nodes, prev, cur);
                assert(queue_ok(done, n as int)) by {
                    assert forall|p: int| 0 <= p < done.len() implies #[trigger] done[p] < n by {
                        assert(done[p] == queue@[p]);
                    }
                }
                lemma_ids_distinct(nodes, done);
            }
            head = head + 1;
            let cur_id = self.nodes[cur].id.clone();
            let ghost q0 = queue@;
            let mut i: usize = 0;
            while i < n
                invariant
                    n == nodes.len(),
                    nodes == self.nodes@,
                    unique_ids(nodes),
                    deg@.len() == n,
                    queue_ok(queue@, n as int),
                    queue@.len() <= n,
                    1 <= head <= q0.len(),
                    q0.len() <= queue@.len(),
                    queue@.take(q0.len() as int) == q0,
                    done == q0.take(head as int),
                    prev == q0.take(head as int - 1),
                    done == prev.push(cur),
                    cur_id@ == nodes[cur as int].id@,
                    cur < n,
                    ids_at(nodes, done).no_duplicates(),
                    zero_iff_queued(deg@, queue@, n as int),
                    counts_ok(nodes, deg@, done, 0, i as int),
                    counts_ok(nodes, deg@, prev, i as int, n as int),
                    prefix_sound(nodes, done),
                    i <= n,
                    queue@[head - 1] == cur,
                    releases_ok(nodes, queue@, rel),
                    fifo_by(queue@, rel),
                    forall|p: int| 0 <= p < q0.len() ==> #[trigger] rel[p] < head - 1,
                    forall|p: int| q0.len() <= p < queue@.len() ==> #[trigger] rel[p] == head - 1,
                    forall|p: int| q0.len() <= p < queue@.len() ==> #[trigger] queue@[p] < i,
                decreases n - i,
            {
                proof {
                    assert(ids_at(nodes, done) =~= ids_at(nodes, prev).push(nodes[cur as int].id@));
                    lemma_met_push(ids_at(nodes, prev), nodes[cur as int].id@, nodes[i as int].inputs_view());
                }
                if contains_text(&self.nodes[i].inputs, &cur_id) {
                    proof {
                        lemma_met_bound(ids_at(nodes, done), nodes[i as int].inputs_view());
                        assert(deg@[i as int] >= 1);
                        assert(!queue@.contains(i));
                    }
                    let d = deg[i] - 1;
                    deg.set(i, d);
                    if d == 0 {
                        let ghost before = queue@;
                        proof {
                            let h = head - 1;
                            assert(before.take(head as int) =~= done) by {
                                assert(before.take(q0.len() as int) == q0);
                                assert forall|x: int| 0 <= x < head implies before[x] == done[x] by {
                                    assert(before.take(q0.len() as int)[x] == before[x]);
                                }
                            }
                            assert(met_count(ids_at(nodes, done), nodes[i as int].inputs_view())
                                == nodes[i as int].inputs_view().to_set().len());
                            lemma_push_released(nodes, before, done, h as int, i);
                            lemma_releases_push(nodes, before, rel, i, h as int);
                            lemma_fifo_push(before, rel, i, h as int);
                        }
                        queue.push(i);
                        proof {
                            let old_rel = rel;
                            rel = rel.push(head - 1);
                            assert forall|p: int| q0.len() <= p < queue@.len() implies #[trigger] rel[p] == head - 1 by {
                                if p < before.len() {
                                    assert(rel[p] == old_rel[p]);
                                }
                            }
                            assert forall|p: int| q0.len() <= p < queue@.len() implies #[trigger] queue@[p] < i + 1 by {
                                if p < before.len() {
                                    assert(queue@[p] == before[p]);
                                }
                            }
                            assert(queue@.take(q0.len() as int) =~= before.take(q0.len() as int));
                            assert(queue_ok(queue@, n as int)) by {
                                assert forall|a: int, b: int| 0 <= a < queue@.len() && 0 <= b < queue@.len() && a != b implies queue@[a] != queue@[b] by {
                                    if a < before.len() && b < before.len() {
                                        assert(queue@[a] == before[a]);
                                        assert(queue@[b] == before[b]);
                                    } else if a < before.len() {
                                        assert(before.contains(before[a]));
                                    } else if b < before.len() {
                                        assert(before.contains(before[b]));
                                    }
                                }
                            }
                            lemma_queue_short(queue@, n as nat);
                            assert forall|k: int| 0 <= k < n implies (#[trigger] deg@[k] == 0
                                <==> queue@.contains(k as usize)) by {
                                if k == i {
                                    assert(queue@[queue@.len() - 1] == i);
                                } else {
                                    if queue@.contains(k as usize) {
                                        let p = choose|p: int| 0 <= p < queue@.len() && queue@[p] == k as usize;
                                        if p < before.len() {
                                            assert(before[p] == k as usize);
                                        }
                                    }
                                    if before.contains(k as usize) {
                                        let p = choose|p: int| 0 <= p < before.len() && before[p] == k as usize;
                                        assert(queue@[p] == k as usize);
                                    }
                                }
                            }
                        }
                    } else {
                        proof {
                            assert forall|k: int| 0 <= k < n implies (#[trigger] deg@[k] == 0
                                <==> queue@.contains(k as usize)) by {
                                if k == i {
                                    assert(deg@[k] == d);
                                }
                            }
                        }
                    }
                }
                i = i + 1;
            }
            proof {
                assert(queue@.take(head as int) =~= queue@.take(q0.len() as int).take(head as int));
                assert(queue@.take(head as int) == done);
            }
        }
        proof {
            assert(queue@.take(head as int) =~= queue@);
        }
        if queue.len() != n {
            proof {
                if has_execution_order(nodes) {
                    let order = choose|order: Seq<usize>| is_execution_order(nodes, order);
                    lemma_kahn_complete(nodes, deg@, queue@, order);
                }
            }
            return Err(GraphError::CycleDetected);
        }
        proof {
            lemma_sound_order(nodes, queue@);
            lemma_first_come(nodes, queue@, rel);
        }
        self.execution_order = queue;
        Ok(())
    }

    /// Checks that every input identifier names a node and that the graph
    /// has at least one input node and one output node.
    pub fn validate(&self) -> (r: Result<(), GraphError>)
        ensures
            r is Ok <==> edges_resolve(self.nodes_view()) && self.input_ids_view().len() > 0
                && self.output_ids_view().len() > 0,
            r matches Err(e) ==> match e {
                GraphError::InvalidEdge { from, to } => exists|j: int, k: int|
                    first_dangling_edge(self.nodes_view(), j, k) && from@
                        == self.nodes_view()[j].inputs_view()[k] && to@
                        == self.nodes_view()[j].id@,
                GraphError::BuildFailed(m) => edges_resolve(self.nodes_view()) && if self.input_ids_view().len()
                    == 0 {
                    m@ == "计算图缺少输入节点"@
                } else {
                    self.output_ids_view().len() == 0 && m@ == "计算图缺少输出节点"@
                },
                _ => false,
            },
    {
        let n = self.nodes.len();
        let mut j: usize = 0;
        while j < n
            invariant
                n == self.nodes@.len(),
                j <= n,
                forall|jj: int, kk: int|
                    0 <= jj < j && 0 <= kk < self.nodes@[jj].inputs_view().len() ==> node_ids(
                        self.nodes@,
                    ).contains(#[trigger] self.nodes@[jj].inputs_view()[kk]),
            decreases n - j,
        {
            let node = &self.nodes[j];
            let mut k: usize = 0;
            while k < node.inputs.len()
                invariant
                    n == self.nodes@.len(),
                    j < n,
                    *node == self.nodes@[j as int],
                    k <= node.inputs@.len(),
                    forall|jj: int, kk: int|
                        0 <= jj < j && 0 <= kk < self.nodes@[jj].inputs_view().len() ==> node_ids(
                            self.nodes@,
                        ).contains(#[trigger] self.nodes@[jj].inputs_view()[kk]),
                    forall|kk: int|
                        0 <= kk < k ==> node_ids(self.nodes@).contains(
                            #[trigger] self.nodes@[j as int].inputs_view()[kk],
                        ),
                decreases node.inputs@.len() - k,
            {
                match self.find(&node.inputs[k]) {
                    Some(_) => {
                        proof {
                            let i = choose|i: int| 0 <= i < self.nodes@.len() && self.nodes@[i].id@ == node.inputs@[k as int]@;
                            assert(node_ids(self.nodes@)[i] == node.inputs_view()[k as int]);
                        }
                    },
                    None => {
                        proof {
                            assert(first_dangling_edge(self.nodes@, j as int, k as int));
                        }
                        return Err(
                            GraphError::InvalidEdge {
                                from: node.inputs[k].clone(),
                                to: node.id.clone(),
                            },
                        );
                    },
                }
                k = k + 1;
            }
            j = j + 1;
        }
        if self.input_ids.len() == 0 {
            return Err(GraphError::BuildFailed(owned("计算图缺少输入节点")));
        }
        if self.output_ids.len() == 0 {
            return Err(GraphError::BuildFailed(owned("计算图缺少输出节点")));
        }
        Ok(())
    }
}

impl Default for Graph {
    fn default() -> (r: Graph)
        ensures
            r.nodes_view().len() == 0,
            r.order_view().len() == 0,
    {
        Graph::new()
    }
}

} // verus!

verus! {

/// Whether some node listed before position `j` has identifier `x`.
pub open spec fn listed_before(nodes: Seq<Node>, j: int, x: Seq<char>) -> bool {
    exists|i: int| 0 <= i < j && #[trigger] nodes[i].id@ == x
}

/// Whether every node reads only nodes listed before it.
pub open spec fn reads_earlier(nodes: Seq<Node>) -> bool {
    forall|j: int, k: int|
        0 <= j < nodes.len() && 0 <= k < nodes[j].inputs_view().len() ==> listed_before(
            nodes,
            j,
            #[trigger] nodes[j].inputs_view()[k],
        )
}

/// Nodes that each read only nodes listed before them have their edges
/// resolved and an execution order: their own order.
pub proof fn lemma_reads_earlier_orders(nodes: Seq<Node>)
    requires
        reads_earlier(nodes),
        nodes.len() <= usize::MAX,
    ensures
        edges_resolve(nodes),
        has_execution_order(nodes),
        is_execution_order(nodes, positions(nodes.len())),
{
    let n = nodes.len();
    let order = positions(n);
    lemma_positions_distinct(n);
    assert forall|j: int, k: int| 0 <= j < n && 0 <= k < nodes[j].inputs_view().len() implies node_ids(
        nodes,
    ).contains(#[trigger] nodes[j].inputs_view()[k]) by {
        assert(listed_before(nodes, j, nodes[j].inputs_view()[k]));
        let i = choose|i: int| 0 <= i < j && #[trigger] nodes[i].id@ == nodes[j].inputs_view()[k];
        assert(node_ids(nodes)[i] == nodes[i].id@);
    }
    assert forall|p: int, k: int|
        0 <= p < order.len() && 0 <= k < nodes[order[p] as int].inputs_view().len()
            implies #[trigger] placed_before(nodes, order, p, input_of(nodes, order[p] as int, k)) by {
        assert(order[p] as int == p);
        let x = nodes[p].inputs_view()[k];
        assert(listed_before(nodes, p, x));
        let i = choose|i: int| 0 <= i < p && #[trigger] nodes[i].id@ == x;
        assert(order[i] as int == i);
        assert(id_of(nodes, order[i] as int) == x);
    }
    assert(is_execution_order(nodes, order));
}

/// A list of nodes with an input node among them has an input identifier.
pub proof fn lemma_input_listed(nodes: Seq<Node>, j: int)
    requires
        0 <= j < nodes.len(),
        nodes[j].node_type is Input,
    ensures
        input_node_ids(nodes).len() > 0,
    decreases nodes.len(),
{
    if j < nodes.len() - 1 {
        assert(nodes.drop_last()[j] == nodes[j]);
        lemma_input_listed(nodes.drop_last(), j);
    }
}

/// An execution order lists every node.
pub proof fn lemma_order_covers(nodes: Seq<Node>, order: Seq<usize>)
    requires
        is_execution_order(nodes, order),
        nodes.len() <= usize::MAX,
    ensures
        forall|j: int| 0 <= j < nodes.len() ==> #[trigger] order.contains(j as usize),
{
    let n = nodes.len();
    lemma_positions_distinct(n);
    assert forall|p: int| 0 <= p < order.len() implies positions(n).contains(#[trigger] order[p]) by {
        assert(positions(n)[order[p] as int] == order[p]);
    }
    lemma_distinct_fill(order, positions(n));
    assert forall|j: int| 0 <= j < n implies #[trigger] order.contains(j as usize) by {
        assert(positions(n)[j] == j as usize);
    }
}

/// The identifier of an input node is among the input identifiers.
pub proof fn lemma_input_node_listed(nodes: Seq<Node>, j: int)
    requires
        0 <= j < nodes.len(),
        nodes[j].node_type is Input,
    ensures
        input_node_ids(nodes).contains(nodes[j].id@),
    decreases nodes.len(),
{
    let d = nodes.drop_last();
    if j == nodes.len() - 1 {
        let s = input_node_ids(d);
        assert(s.push(nodes[j].id@)[s.len() as int] == nodes[j].id@);
    } else {
        assert(d[j] == nodes[j]);
        lemma_input_node_listed(d, j);
        let s = input_node_ids(d);
        let i = choose|i: int| 0 <= i < s.len() && s[i] == nodes[j].id@;
        if nodes.last().node_type is Input {
            assert(s.push(nodes.last().id@)[i] == s[i]);
        }
    }
}

/// Every output identifier is the identifier of an output node.
pub proof fn lemma_output_id_is_output(nodes: Seq<Node>, x: Seq<char>)
    requires
        output_node_ids(nodes).contains(x),
    ensures
        exists|j: int| 0 <= j < nodes.len() && nodes[j].id@ == x && nodes[j].node_type is Output,
    decreases nodes.len(),
{
    let d = nodes.drop_last();
    if nodes.last().node_type is Output && x == nodes.last().id@ {
        assert(nodes[nodes.len() - 1] == nodes.last());
    } else {
        if nodes.last().node_type is Output {
            let s = output_node_ids(d);
            let i = choose|i: int| 0 <= i < s.push(nodes.last().id@).len() && s.push(nodes.last().id@)[i] == x;
            assert(s[i] == x);
        }
        assert(output_node_ids(d).contains(x));
        lemma_output_id_is_output(d, x);
        let j = choose|j: int| 0 <= j < d.len() && d[j].id@ == x && d[j].node_type is Output;
        assert(nodes[j] == d[j]);
    }
}

/// Whether `build` finishes a graph of `nodes`: every edge resolves, there
/// is an input and an output node, and an execution order exists.
pub open spec fn build_succeeds(nodes: Seq<Node>) -> bool {
    &&& edges_resolve(nodes)
    &&& input_node_ids(nodes).len() > 0
    &&& output_node_ids(nodes).len() > 0
    &&& has_execution_order(nodes)
}

/// Whether `e` is the error `build` answers for `nodes`: the first dangling
/// edge, then a missing input node, then a missing output node, then a cycle.
pub open spec fn build_error(nodes: Seq<Node>, e: GraphError) -> bool {
    match e {
        GraphError::InvalidEdge { from, to } => exists|j: int, k: int|
            first_dangling_edge(nodes, j, k) && from@ == nodes[j].inputs_view()[k] && to@
                == nodes[j].id@,
        GraphError::BuildFailed(m) => edges_resolve(nodes) && if input_node_ids(nodes).len() == 0 {
            m@ == "计算图缺少输入节点"@
        } else {
            output_node_ids(nodes).len() == 0 && m@ == "计算图缺少输出节点"@
        },
        GraphError::CycleDetected => edges_resolve(nodes) && input_node_ids(nodes).len() > 0
            && output_node_ids(nodes).len() > 0 && !has_execution_order(nodes),
        _ => false,
    }
}

/// Whether `new` is `old` with one node appended whose identifier, inputs
/// and parameter names are `id`, `inputs` and `params`, and which lists no
/// consumers.
pub open spec fn appended(
    old: Seq<Node>,
    new: Seq<Node>,
    id: Seq<char>,
    inputs: Seq<Seq<char>>,
    params: Seq<Seq<char>>,
) -> bool {
    &&& new.len() == old.len() + 1
    &&& new.drop_last() == old
    &&& new.last().id@ == id
    &&& new.last().inputs_view() == inputs
    &&& new.last().params_view() == params
    &&& new.last().outputs@.len() == 0
}

/// The outcome of adding a node with identifier `id`: it succeeds, returning
/// `id`, exactly when no node has that identifier yet.
pub open spec fn add_outcome(old: Seq<Node>, r: Result<String, GraphError>, id: Seq<char>) -> bool {
    &&& r is Ok <==> !node_ids(old).contains(id)
    &&& r matches Ok(x) ==> x@ == id
    &&& r matches Err(e) ==> e matches GraphError::BuildFailed(m) && m@ == duplicate_id_text(id)
}

/// A graph under construction, grown one node at a time.
#[derive(Debug)]
pub struct GraphBuilder {
    graph: Graph,
}

impl GraphBuilder {
    /// The nodes added so far.
    pub closed spec fn nodes_view(&self) -> Seq<Node> {
        self.graph.nodes_view()
    }

    /// A builder holding an empty graph.
    pub fn new() -> (r: GraphBuilder)
        ensures
            r.nodes_view().len() == 0,
    {
        GraphBuilder { graph: Graph::new() }
    }

    /// The nodes added so far have distinct identifiers, and fit a `Vec`.
    pub fn check_unique(&self)
        ensures
            unique_ids(self.nodes_view()),
            self.nodes_view().len() <= usize::MAX,
    {
        self.graph.check_valid();
        let _count = self.graph.node_count();
    }

    /// Adds a node built by the caller; a taken identifier is refused and the
    /// graph is left as it was.
    pub fn graph_add_node(&mut self, node: Node) -> (r: Result<(), GraphError>)
        ensures
            r is Ok <==> !node_ids(old(self).nodes_view()).contains(node.id@),
            r is Ok ==> final(self).nodes_view() == old(self).nodes_view().push(node),
            r is Err ==> *final(self) == *old(self),
            r matches Err(e) ==> e matches GraphError::BuildFailed(m) && m@ == duplicate_id_text(
                node.id@,
            ),
    {
        self.graph.add_node(node)
    }

    fn push_node(&mut self, node: Node) -> (r: Result<String, GraphError>)
        ensures
            add_outcome(old(self).nodes_view(), r, node.id@),
            r is Ok ==> final(self).nodes_view() == old(self).nodes_view().push(node),
            r is Ok ==> final(self).nodes_view().drop_last() == old(self).nodes_view(),
            r is Ok ==> final(self).nodes_view().last() == node,
            r is Ok ==> final(self).nodes_view().len() == old(self).nodes_view().len() + 1,
            r is Err ==> *final(self) == *old(self),
    {
        let id = node.id.clone();
        let ghost before = self.nodes_view();
        proof {
            assert(before.push(node).drop_last() =~= before);
        }
        match self.graph.add_node(node) {
            Ok(()) => Ok(id),
            Err(e) => Err(e),
        }
    }

    /// Adds an input node `name` with element type `dtype` and shape `shape`.
    pub fn input(&mut self, name: &str, dtype: &str, shape: Vec<usize>) -> (r: Result<String, GraphError>)
        ensures
            add_outcome(old(self).nodes_view(), r, name@),
            r is Err ==> *final(self) == *old(self),
            r is Ok ==> appended(old(self).nodes_view(), final(self).nodes_view(), name@, seq![], seq![]),
            r is Ok ==> (final(self).nodes_view().last().node_type matches NodeType::Input { name: n, dtype: d, shape: s }
                && n@ == name@ && d@ == dtype@ && s@ == shape@),
    {
        let node = Node::new(name, NodeType::Input { name: owned(name), dtype: owned(dtype), shape });
        proof {
            assert(node.inputs_view() =~= seq![]);
            assert(node.params_view() =~= seq![]);
        }
        self.push_node(node)
    }

    /// Adds an output node `name` forwarding the result of `input`.
    pub fn output(&mut self, name: &str, input: &str) -> (r: Result<String, GraphError>)
        ensures
            add_outcome(old(self).nodes_view(), r, name@),
            r is Err ==> *final(self) == *old(self),
            r is Ok ==> appended(old(self).nodes_view(), final(self).nodes_view(), name@, seq![input@], seq![]),
            r is Ok ==> (final(self).nodes_view().last().node_type matches NodeType::Output { name: n }
                && n@ == name@),
    {
        let node = Node::new(name, NodeType::Output { name: owned(name) }).with_input(input);
        proof {
            assert(node.inputs_view() =~= seq![input@]);
            assert(node.params_view() =~= seq![]);
        }
        self.push_node(node)
    }

    /// Adds a fully connected layer `name` over `input`, with the parameter
    /// `name.weight` and, when `has_bias`, `name.bias`.
    pub fn dense(
        &mut self,
        name: &str,
        in_features: usize,
        out_features: usize,
        input: &str,
        has_bias: bool,
    ) -> (r: Result<String, GraphError>)
        ensures
            add_outcome(old(self).nodes_view(), r, name@),
            r is Err ==> *final(self) == *old(self),
            r is Ok ==> appended(
                old(self).nodes_view(),
                final(self).nodes_view(),
                name@,
                seq![input@],
                if has_bias {
                    seq![name@ + ".weight"@, name@ + ".bias"@]
                } else {
                    seq![name@ + ".weight"@]
                },
            ),
            r is Ok ==> (final(self).nodes_view().last().node_type matches NodeType::Dense {
                name: n,
                in_features: i,
                out_features: o,
                has_bias: b,
            } && n@ == name@ && i == in_features && o == out_features && b == has_bias),
    {
        let weight = join2(name, ".weight");
        let mut node = Node::new(
            name,
            NodeType::Dense { name: owned(name), in_features, out_features, has_bias },
        ).with_input(input).with_param(weight.as_str());
        if has_bias {
            let bias = join2(name, ".bias");
            node = node.with_param(bias.as_str());
        }
        proof {
            assert(node.inputs_view() =~= seq![input@]);
            if has_bias {
                assert(node.params_view() =~= seq![name@ + ".weight"@, name@ + ".bias"@]);
            } else {
                assert(node.params_view() =~= seq![name@ + ".weight"@]);
            }
        }
        self.push_node(node)
    }

    /// Adds a rectified linear unit `name` over `input`.
    pub fn relu(&mut self, name: &str, input: &str) -> (r: Result<String, GraphError>)
        ensures
            add_outcome(old(self).nodes_view(), r, name@),
            r is Err ==> *final(self) == *old(self),
            r is Ok ==> appended(old(self).nodes_view(), final(self).nodes_view(), name@, seq![input@], seq![]),
            r is Ok ==> final(self).nodes_view().last().node_type is ReLU,
    {
        let node = Node::new(name, NodeType::ReLU).with_input(input);
        proof {
            assert(node.inputs_view() =~= seq![input@]);
            assert(node.params_view() =~= seq![]);
        }
        self.push_node(node)
    }

    /// Adds a softmax `name` over `input` along `axis`.
    pub fn softmax(&mut self, name: &str, input: &str, axis: i32) -> (r: Result<String, GraphError>)
        ensures
            add_outcome(old(self).nodes_view(), r, name@),
            r is Err ==> *final(self) == *old(self),
            r is Ok ==> appended(old(self).nodes_view(), final(self).nodes_view(), name@, seq![input@], seq![]),
            r is Ok ==> final(self).nodes_view().last().node_type == (NodeType::Softmax { axis }),
    {
        let node = Node::new(name, NodeType::Softmax { axis }).with_input(input);
        proof {
            assert(node.inputs_view() =~= seq![input@]);
            assert(node.params_view() =~= seq![]);
        }
        self.push_node(node)
    }

    /// Adds the matrix product `name` of `input_a` and `input_b`.
    pub fn matmul(&mut self, name: &str, input_a: &str, input_b: &str) -> (r: Result<String, GraphError>)
        ensures
            add_outcome(old(self).nodes_view(), r, name@),
            r is Err ==> *final(self) == *old(self),
            r is Ok ==> appended(
                old(self).nodes_view(),
                final(self).nodes_view(),
                name@,
                seq![input_a@, input_b@],
                seq![],
            ),
            r is Ok ==> final(self).nodes_view().last().node_type is MatMul,
    {
        let node = Node::new(name, NodeType::MatMul).with_input(input_a).with_input(input_b);
        proof {
            assert(node.inputs_view() =~= seq![input_a@, input_b@]);
            assert(node.params_view() =~= seq![]);
        }
        self.push_node(node)
    }

    /// Adds the element-wise sum `name` of `input_a` and `input_b`.
    pub fn add(&mut self, name: &str, input_a: &str, input_b: &str) -> (r: Result<String, GraphError>)
        ensures
            add_outcome(old(self).nodes_view(), r, name@),
            r is Err ==> *final(self) == *old(self),
            r is Ok ==> appended(
                old(self).nodes_view(),
                final(self).nodes_view(),
                name@,
                seq![input_a@, input_b@],
                seq![],
            ),
            r is Ok ==> final(self).nodes_view().last().node_type is Add,
    {
        let node = Node::new(name, NodeType::Add).with_input(input_a).with_input(input_b);
        proof {
            assert(node.inputs_view() =~= seq![input_a@, input_b@]);
            assert(node.params_view() =~= seq![]);
        }
        self.push_node(node)
    }

    /// Adds a layer normalisation `name` over `input`, with the parameters
    /// `name.weight` and `name.bias`; `epsilon_bits` is the bit pattern of the
    /// `f64` epsilon.
    pub fn layer_norm(
        &mut self,
        name: &str,
        input: &str,
        normalized_shape: Vec<usize>,
        epsilon_bits: u64,
    ) -> (r: Result<String, GraphError>)
        ensures
            add_outcome(old(self).nodes_view(), r, name@),
            r is Err ==> *final(self) == *old(self),
            r is Ok ==> appended(
                old(self).nodes_view(),
                final(self).nodes_view(),
                name@,
                seq![input@],
                seq![name@ + ".weight"@, name@ + ".bias"@],
            ),
            r is Ok ==> (final(self).nodes_view().last().node_type matches NodeType::LayerNorm {
                normalized_shape: s,
                epsilon_bits: e,
            } && s@ == normalized_shape@ && e == epsilon_bits),
    {
        let weight = join2(name, ".weight");
        let bias = join2(name, ".bias");
        let node = Node::new(name, NodeType::LayerNorm { normalized_shape, epsilon_bits })
            .with_input(input)
            .with_param(weight.as_str())
            .with_param(bias.as_str());
        proof {
            assert(node.inputs_view() =~= seq![input@]);
            assert(node.params_view() =~= seq![name@ + ".weight"@, name@ + ".bias"@]);
        }
        self.push_node(node)
    }

    /// Adds a change of shape `name` of `input` to `target_shape`.
    pub fn reshape(&mut self, name: &str, input: &str, target_shape: Vec<i64>) -> (r: Result<String, GraphError>)
        ensures
            add_outcome(old(self).nodes_view(), r, name@),
            r is Err ==> *final(self) == *old(self),
            r is Ok ==> appended(old(self).nodes_view(), final(self).nodes_view(), name@, seq![input@], seq![]),
            r is Ok ==> (final(self).nodes_view().last().node_type matches NodeType::Reshape {
                target_shape: t,
            } && t@ == target_shape@),
    {
        let node = Node::new(name, NodeType::Reshape { target_shape }).with_input(input);
        proof {
            assert(node.inputs_view() =~= seq![input@]);
            assert(node.params_view() =~= seq![]);
        }
        self.push_node(node)
    }

    /// Adds a convolution `name` over `input`, with the parameters
    /// `name.weight` and `name.bias`.
    pub fn conv2d(
        &mut self,
        name: &str,
        input: &str,
        in_channels: usize,
        out_channels: usize,
        kernel_size: (usize, usize),
        stride: (usize, usize),
        padding: (usize, usize),
    ) -> (r: Result<String, GraphError>)
        ensures
            add_outcome(old(self).nodes_view(), r, name@),
            r is Err ==> *final(self) == *old(self),
            r is Ok ==> appended(
                old(self).nodes_view(),
                final(self).nodes_view(),
                name@,
                seq![input@],
                seq![name@ + ".weight"@, name@ + ".bias"@],
            ),
            r is Ok ==> (final(self).nodes_view().last().node_type matches NodeType::Conv2D {
                name: n,
                in_channels: i,
                out_channels: o,
                kernel_size: k,
                stride: s,
                padding: p,
            } && n@ == name@ && i == in_channels && o == out_channels && k == kernel_size && s
                == stride && p == padding),
    {
        let weight = join2(name, ".weight");
        let bias = join2(name, ".bias");
        let node = Node::new(
            name,
            NodeType::Conv2D {
                name: owned(name),
                in_channels,
                out_channels,
                kernel_size,
                stride,
                padding,
            },
        ).with_input(input).with_param(weight.as_str()).with_param(bias.as_str());
        proof {
            assert(node.inputs_view() =~= seq![input@]);
            assert(node.params_view() =~= seq![name@ + ".weight"@, name@ + ".bias"@]);
        }
        self.push_node(node)
    }

    /// Adds a Gaussian error linear unit `name` over `input`.
    pub fn gelu(&mut self, name: &str, input: &str) -> (r: Result<String, GraphError>)
        ensures
            add_outcome(old(self).nodes_view(), r, name@),
            r is Err ==> *final(self) == *old(self),
            r is Ok ==> appended(old(self).nodes_view(), final(self).nodes_view(), name@, seq![input@], seq![]),
            r is Ok ==> final(self).nodes_view().last().node_type is GELU,
    {
        let node = Node::new(name, NodeType::GELU).with_input(input);
        proof {
            assert(node.inputs_view() =~= seq![input@]);
            assert(node.params_view() =~= seq![]);
        }
        self.push_node(node)
    }

    /// Finishes the graph: checks it with `Graph::validate`, then orders it
    /// with `Graph::topological_sort`.
    pub fn build(self) -> (r: Result<Graph, GraphError>)
        ensures
            r is Ok <==> build_succeeds(self.nodes_view()),
            r matches Ok(g) ==> g.nodes_view() == self.nodes_view() && is_execution_order(
                g.nodes_view(),
                g.order_view(),
            ),
            r matches Ok(g) ==> first_come_order(g.nodes_view(), g.order_view()),
            r matches Err(e) ==> build_error(self.nodes_view(), e),
    {
        let mut graph = self.graph;
        graph.check_valid();
        match graph.validate() {
            Ok(()) => {},
            Err(e) => {
                return Err(e);
            },
        }
        match graph.topological_sort() {
            Ok(()) => Ok(graph),
            Err(e) => Err(e),
        }
    }
}

impl Default for GraphBuilder {
    fn default() -> (r: GraphBuilder)
        ensures
            r.nodes_view().len() == 0,
    {
        GraphBuilder::new()
    }
}

} // verus!
