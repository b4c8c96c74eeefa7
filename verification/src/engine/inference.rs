//! The inference engine: it holds a graph, a backend and named tensors, and
//! runs the graph's nodes in execution order through the backend.

use vstd::prelude::*;
use crate::assoc::{as_map, find_key, keys_of, keys_unique, lemma_as_map_at, lemma_as_map_domain, put};
use crate::backend::cpu::{CpuBackend, CpuCompute, CpuKernels};
use crate::backend::{Backend, BackendType};
use crate::engine::graph::{
    id_of, input_node_ids, input_of, is_execution_order, lemma_input_node_listed, lemma_order_covers,
    lemma_output_id_is_output, output_node_ids, placed_before, str_views, unique_ids, Graph, Node, NodeType,
};
use crate::engine::tensor::{same_tensor, tensor_error_text, Tensor, TensorError};
use crate::text::{decimal, join2, join3, owned, usize_text};

verus! {

/// Errors of the inference engine.
#[derive(Debug)]
pub enum InferenceError {
    /// No graph has been loaded.
    GraphNotLoaded,
    /// The graph has no input of that name, or the input has not been set.
    InputNotFound(String),
    /// The run produced no output of that name.
    OutputNotFound(String),
    /// A tensor operation failed.
    TensorError(TensorError),
    /// A node could not be executed.
    ExecutionFailed(String),
    /// The CUDA backend was asked for and is not available.
    CudaUnavailable,
    /// The backend reported a failure.
    BackendError(String),
}

/// The text of an engine error, as its `Display` renders it.
pub open spec fn inference_error_text(e: InferenceError) -> Seq<char> {
    match e {
        InferenceError::GraphNotLoaded => "计算图未加载"@,
        InferenceError::InputNotFound(m) => "输入名称未找到: "@ + m@,
        InferenceError::OutputNotFound(m) => "输出名称未找到: "@ + m@,
        InferenceError::TensorError(t) => "张量错误: "@ + tensor_error_text(t),
        InferenceError::ExecutionFailed(m) => "推理执行失败: "@ + m@,
        InferenceError::CudaUnavailable => "CUDA 后端不可用"@,
        InferenceError::BackendError(m) => "后端错误: "@ + m@,
    }
}

impl InferenceError {
    /// The text of the error, as its `Display` renders it.
    pub fn describe(&self) -> (r: String)
        ensures
            r@ == inference_error_text(*self),
    {
        match self {
            InferenceError::GraphNotLoaded => owned("计算图未加载"),
            InferenceError::InputNotFound(m) => join2("输入名称未找到: ", m.as_str()),
            InferenceError::OutputNotFound(m) => join2("输出名称未找到: ", m.as_str()),
            InferenceError::TensorError(t) => {
                let d = t.describe();
                join2("张量错误: ", d.as_str())
            },
            InferenceError::ExecutionFailed(m) => join2("推理执行失败: ", m.as_str()),
            InferenceError::CudaUnavailable => owned("CUDA 后端不可用"),
            InferenceError::BackendError(m) => join2("后端错误: ", m.as_str()),
        }
    }
}

/// An instant of the monotonic clock.
#[verifier::external_type_specification]
#[verifier::external_body]
pub struct ExInstant(std::time::Instant);

/// `Instant::now`: the current instant of the monotonic clock. Nothing is
/// stated of the value, which depends on the time of the call.
#[verifier::external_body]
fn clock_now() -> std::time::Instant {
    std::time::Instant::now()
}

/// `Instant::elapsed`: the time passed since `start`. Nothing is stated of
/// the value, which depends on the time of the call.
#[verifier::external_body]
fn clock_elapsed(start: &std::time::Instant) -> std::time::Duration {
    start.elapsed()
}

/// `Duration::as_nanos`: the whole number of nanoseconds of `d`. Nothing is
/// stated, since the duration it reads is opaque here.
#[verifier::external_body]
fn duration_nanos(d: &std::time::Duration) -> u128 {
    d.as_nanos()
}

/// Statistics of the latest run.
#[derive(Debug)]
pub struct InferenceStats {
    /// Duration of the whole run, in nanoseconds.
    pub total_time_ns: u128,
    /// Duration of each executed node, in nanoseconds, in execution order.
    pub operator_times_ns: Vec<(String, u128)>,
    /// The number of nodes in the execution order.
    pub nodes_executed: usize,
    /// The name of the backend.
    pub backend_name: String,
}

impl Default for InferenceStats {
    fn default() -> (r: InferenceStats)
        ensures
            r.total_time_ns == 0,
            r.operator_times_ns@.len() == 0,
            r.nodes_executed == 0,
            r.backend_name@.len() == 0,
    {
        InferenceStats {
            total_time_ns: 0,
            operator_times_ns: Vec::new(),
            nodes_executed: 0,
            backend_name: String::new(),
        }
    }
}

/// A summary of the engine.
#[derive(Debug)]
pub struct EngineInfo {
    /// The engine version.
    pub version: String,
    /// The backend name.
    pub backend: String,
    /// The device description.
    pub device_info: String,
    /// Whether a graph is loaded.
    pub graph_loaded: bool,
    /// The number of nodes of the loaded graph, or zero.
    pub node_count: usize,
    /// The number of input nodes of the loaded graph, or zero.
    pub input_count: usize,
    /// The number of output nodes of the loaded graph, or zero.
    pub output_count: usize,
}

/// The engine version.
pub open spec fn version_text() -> Seq<char> {
    "0.1.0"@
}

/// The message for a node that did not receive all of its inputs.
pub open spec fn incomplete_inputs_text(id: Seq<char>, expected: nat, actual: nat) -> Seq<char> {
    "节点 '"@ + id + "' 的输入不完整: 期望 "@ + decimal(expected) + " 个，实际 "@ + decimal(actual)
        + " 个"@
}

/// The message for a node whose operator failed.
pub open spec fn node_failed_text(id: Seq<char>, t: NodeType, e: TensorError) -> Seq<char> {
    "节点 '"@ + id + "' ("@ + crate::engine::graph::type_label(t) + ") 执行失败: "@
        + tensor_error_text(e)
}

/// Whether `m` is the message for node `j` of `nodes` having received only
/// `found` of its inputs.
pub open spec fn m_is_incomplete(m: Seq<char>, nodes: Seq<crate::engine::graph::Node>, j: int, found: nat) -> bool {
    found < nodes[j].inputs_view().len() && m == incomplete_inputs_text(
        nodes[j].id@,
        nodes[j].inputs_view().len(),
        found,
    )
}

/// Whether `ids[k]` is the first identifier of `ids` with no entry in `m`.
pub open spec fn first_missing<V>(ids: Seq<Seq<char>>, m: Map<Seq<char>, V>, k: int) -> bool {
    &&& 0 <= k < ids.len()
    &&& !m.contains_key(ids[k])
    &&& forall|q: int| 0 <= q < k ==> m.contains_key(#[trigger] ids[q])
}

/// Whether `forward`, run by `backend` for node `n` on the tensors `ins`
/// and the parameter names `ps`, may give the value `vals` holds for `n`:
/// `ins` are copies of the values of `n`'s inputs, in order, and `ps` are
/// `n`'s parameter names.
pub open spec fn forward_gave<T, B: Backend<T>>(
    backend: B,
    n: Node,
    vals: Map<Seq<char>, Tensor<T>>,
    ins: &[Tensor<T>],
    ps: &[String],
) -> bool {
    &&& ins@.len() == n.inputs_view().len()
    &&& forall|q: int| 0 <= q < ins@.len() ==> same_tensor(#[trigger] ins@[q], vals[n.inputs_view()[q]])
    &&& ps@ == n.param_names@
    &&& call_ensures(B::forward, (&backend, &n.node_type, ins, ps), Ok::<Tensor<T>, TensorError>(vals[n.id@]))
}

/// Whether the values `vals` record node `n` as run by `backend`: they hold
/// a value for each of its inputs and for `n`, and the latter is a result
/// of `forward` on the former.
pub open spec fn node_ran<T, B: Backend<T>>(backend: B, n: Node, vals: Map<Seq<char>, Tensor<T>>) -> bool {
    &&& vals.contains_key(n.id@)
    &&& forall|q: int| 0 <= q < n.inputs_view().len() ==> vals.contains_key(#[trigger] n.inputs_view()[q])
    &&& exists|ins: &[Tensor<T>], ps: &[String]| #[trigger] forward_gave(backend, n, vals, ins, ps)
}

/// Whether the values `vals`, by node identifier, record a run of `g` by
/// `backend` on the set inputs `inputs` up to position `upto` of the
/// execution order: every input node holds its set input, and every other
/// node placed before `upto` ran.
pub open spec fn ran_until<T, B: Backend<T>>(
    backend: B,
    g: Graph,
    inputs: Map<Seq<char>, Tensor<T>>,
    vals: Map<Seq<char>, Tensor<T>>,
    upto: int,
) -> bool {
    &&& forall|q: int|
        0 <= q < g.input_ids_view().len() ==> vals.contains_key(#[trigger] g.input_ids_view()[q])
            && same_tensor(vals[g.input_ids_view()[q]], inputs[g.input_ids_view()[q]])
    &&& forall|p: int|
        0 <= p < upto && !(g.nodes_view()[g.order_view()[p] as int].node_type is Input)
            ==> node_ran(backend, #[trigger] g.nodes_view()[g.order_view()[p] as int], vals)
}

/// Whether the values `vals`, by node identifier, record a whole run of `g`
/// by `backend` on the set inputs `inputs`.
pub open spec fn graph_ran<T, B: Backend<T>>(
    backend: B,
    g: Graph,
    inputs: Map<Seq<char>, Tensor<T>>,
    vals: Map<Seq<char>, Tensor<T>>,
) -> bool {
    ran_until(backend, g, inputs, vals, g.order_view().len() as int)
}

/// Whether `forward`, run by `backend` for node `n` on copies `ins` of the
/// values of its inputs and on its parameter names `ps`, may fail with `e`.
pub open spec fn forward_failed<T, B: Backend<T>>(
    backend: B,
    n: Node,
    vals: Map<Seq<char>, Tensor<T>>,
    ins: &[Tensor<T>],
    ps: &[String],
    e: TensorError,
) -> bool {
    &&& ins@.len() == n.inputs_view().len()
    &&& forall|q: int| 0 <= q < ins@.len() ==> same_tensor(#[trigger] ins@[q], vals[n.inputs_view()[q]])
    &&& ps@ == n.param_names@
    &&& call_ensures(B::forward, (&backend, &n.node_type, ins, ps), Err::<Tensor<T>, TensorError>(e))
}

/// Whether a run of `g` by `backend` on `inputs` stops at position `p` of
/// the execution order with the message `m` because `forward` failed there:
/// the values `vals` were recorded before it, the node there is no input
/// node, every one of its inputs has a value, and `forward` failed on them.
pub open spec fn forward_error_at<T, B: Backend<T>>(
    backend: B,
    g: Graph,
    inputs: Map<Seq<char>, Tensor<T>>,
    vals: Map<Seq<char>, Tensor<T>>,
    p: int,
    m: Seq<char>,
) -> bool {
    let n = g.nodes_view()[g.order_view()[p] as int];
    &&& 0 <= p < g.order_view().len()
    &&& !(n.node_type is Input)
    &&& ran_until(backend, g, inputs, vals, p)
    &&& forall|k: int| 0 <= k < n.inputs_view().len() ==> vals.contains_key(#[trigger] n.inputs_view()[k])
    &&& exists|ins: &[Tensor<T>], ps: &[String], e: TensorError|
        #[trigger] forward_failed(backend, n, vals, ins, ps, e) && m == node_failed_text(n.id@, n.node_type, e)
}

/// Whether a run of `g` by `backend` on `inputs` stops with the message `m`
/// at position `p` of the execution order, the values `vals` having been
/// recorded before it: the node there is no input node, and either one of
/// its inputs has no value, or `forward` failed on the values of its inputs.
pub open spec fn failed_at<T, B: Backend<T>>(
    backend: B,
    g: Graph,
    inputs: Map<Seq<char>, Tensor<T>>,
    vals: Map<Seq<char>, Tensor<T>>,
    p: int,
    m: Seq<char>,
) -> bool {
    let j = g.order_view()[p] as int;
    let n = g.nodes_view()[j];
    ||| {
        &&& 0 <= p < g.order_view().len()
        &&& !(n.node_type is Input)
        &&& ran_until(backend, g, inputs, vals, p)
        &&& exists|k: int| 0 <= k < n.inputs_view().len() && !vals.contains_key(#[trigger] n.inputs_view()[k])
        &&& exists|found: nat| #[trigger] m_is_incomplete(m, g.nodes_view(), j, found)
    }
    ||| forward_error_at(backend, g, inputs, vals, p, m)
}

/// Whether `outputs` holds, for each of the output identifiers `ids`, a
/// copy of the value `vals` holds for it.
pub open spec fn outputs_from<T>(
    outputs: Map<Seq<char>, Tensor<T>>,
    ids: Seq<Seq<char>>,
    vals: Map<Seq<char>, Tensor<T>>,
) -> bool {
    forall|t: int|
        0 <= t < ids.len() ==> vals.contains_key(#[trigger] ids[t]) && outputs.contains_key(ids[t])
            && same_tensor(outputs[ids[t]], vals[ids[t]])
}

proof fn lemma_node_ran_grow<T, B: Backend<T>>(
    backend: B,
    n: Node,
    vals: Map<Seq<char>, Tensor<T>>,
    key: Seq<char>,
    v: Tensor<T>,
)
    requires
        node_ran(backend, n, vals),
        !vals.contains_key(key),
    ensures
        node_ran(backend, n, vals.insert(key, v)),
{
    let w = vals.insert(key, v);
    let (ins, ps) = choose|ins: &[Tensor<T>], ps: &[String]| #[trigger] forward_gave(backend, n, vals, ins, ps);
    assert(w[n.id@] == vals[n.id@]);
    assert forall|q: int| 0 <= q < ins@.len() implies same_tensor(#[trigger] ins@[q], w[n.inputs_view()[q]]) by {
        assert(vals.contains_key(n.inputs_view()[q]));
    }
    assert(forward_gave(backend, n, w, ins, ps));
}

proof fn lemma_input_id_is_input(nodes: Seq<Node>, x: Seq<char>)
    requires
        input_node_ids(nodes).contains(x),
    ensures
        exists|j: int| 0 <= j < nodes.len() && nodes[j].id@ == x && nodes[j].node_type is Input,
    decreases nodes.len(),
{
    let d = nodes.drop_last();
    if nodes.last().node_type is Input && x == nodes.last().id@ {
        assert(nodes[nodes.len() - 1] == nodes.last());
    } else {
        if nodes.last().node_type is Input {
            let s = input_node_ids(d);
            let i = choose|i: int| 0 <= i < s.push(nodes.last().id@).len() && s.push(nodes.last().id@)[i] == x;
            assert(s[i] == x);
        }
        assert(input_node_ids(d).contains(x));
        lemma_input_id_is_input(d, x);
        let j = choose|j: int| 0 <= j < d.len() && d[j].id@ == x && d[j].node_type is Input;
        assert(nodes[j] == d[j]);
    }
}

proof fn lemma_inputs_only_no_outputs(nodes: Seq<Node>)
    requires
        forall|j: int| 0 <= j < nodes.len() ==> #[trigger] nodes[j].node_type is Input,
    ensures
        output_node_ids(nodes).len() == 0,
    decreases nodes.len(),
{
    if nodes.len() > 0 {
        let d = nodes.drop_last();
        assert forall|j: int| 0 <= j < d.len() implies #[trigger] d[j].node_type is Input by {
            assert(d[j] == nodes[j]);
        }
        lemma_inputs_only_no_outputs(d);
        assert(nodes[nodes.len() - 1].node_type is Input);
    }
}

/// Whether `run` may fail with `e` on an engine in the state `before`, as
/// its contract describes: no graph, the first input not set, a node that
/// could not be executed (on a correctly ordered graph, only a failure of
/// `forward`), or an output the run did not produce (only on a graph that is
/// not correctly ordered).
pub open spec fn run_may_fail<T, B: Backend<T>>(before: InferenceEngine<T, B>, e: InferenceError) -> bool {
    match e {
        InferenceError::GraphNotLoaded => before.graph_view() is None,
        InferenceError::InputNotFound(m) => before.graph_view() matches Some(g) && exists|k: int|
            first_missing(g.input_ids_view(), before.inputs_view(), k) && g.input_ids_view()[k] == m@,
        InferenceError::ExecutionFailed(m) => before.graph_view() matches Some(g) && (forall|k: int|
            !first_missing(g.input_ids_view(), before.inputs_view(), k)) && (exists|
            p: int,
            vals: Map<Seq<char>, Tensor<T>>,
        | #[trigger] failed_at(before.backend_view(), g, before.inputs_view(), vals, p, m@)) && (
        is_execution_order(g.nodes_view(), g.order_view()) ==> exists|
            p: int,
            vals: Map<Seq<char>, Tensor<T>>,
        | #[trigger] forward_error_at(before.backend_view(), g, before.inputs_view(), vals, p, m@)),
        InferenceError::OutputNotFound(m) => before.graph_view() matches Some(g) && (forall|k: int|
            !first_missing(g.input_ids_view(), before.inputs_view(), k)) && g.output_ids_view().contains(
            m@,
        ) && !is_execution_order(g.nodes_view(), g.order_view()),
        _ => false,
    }
}

/// Whether `after` is the state of an engine in the state `before` after a
/// successful `run`: the graph, inputs and backend are kept, the outputs are
/// copies of the values of a whole run of the graph by the backend, and the
/// statistics count the execution order and name the backend.
pub open spec fn run_succeeded<T, B: Backend<T>>(before: InferenceEngine<T, B>, after: InferenceEngine<T, B>) -> bool {
    &&& before.graph_view() is Some
    &&& after.wf()
    &&& after.graph_view() == before.graph_view()
    &&& after.inputs_view() == before.inputs_view()
    &&& after.backend_view() == before.backend_view()
    &&& after.outputs_view().dom() == before.graph_view()->0.output_ids_view().to_set()
    &&& after.stats_view() matches Some(st)
    &&& st.nodes_executed == before.graph_view()->0.order_view().len()
    &&& exists|x: &str| call_ensures(B::name, (&before.backend_view(),), x) && st.backend_name@ == x@
    &&& exists|vals: Map<Seq<char>, Tensor<T>>|
        #[trigger] graph_ran(before.backend_view(), before.graph_view()->0, before.inputs_view(), vals)
            && outputs_from(after.outputs_view(), before.graph_view()->0.output_ids_view(), vals)
}

/// The inference engine over elements of type `T` and a backend `B`.
pub struct InferenceEngine<T, B> {
    graph: Option<Graph>,
    backend: B,
    inputs: Vec<(String, Tensor<T>)>,
    outputs: Vec<(String, Tensor<T>)>,
    last_stats: Option<InferenceStats>,
}

impl<T, B> InferenceEngine<T, B> {
    /// The loaded graph, if any.
    pub closed spec fn graph_view(&self) -> Option<Graph> {
        self.graph
    }

    /// The backend.
    pub closed spec fn backend_view(&self) -> B {
        self.backend
    }

    /// The input tensors that have been set, by name.
    pub closed spec fn inputs_view(&self) -> Map<Seq<char>, Tensor<T>> {
        as_map(self.inputs@)
    }

    /// The output tensors of the latest run, by name.
    pub closed spec fn outputs_view(&self) -> Map<Seq<char>, Tensor<T>> {
        as_map(self.outputs@)
    }

    /// The output tensors of the latest run, in the order of the graph's outputs.
    pub closed spec fn output_list(&self) -> Seq<(String, Tensor<T>)> {
        self.outputs@
    }

    /// The statistics of the latest successful run, if any.
    pub closed spec fn stats_view(&self) -> Option<InferenceStats> {
        self.last_stats
    }

    /// Input and output names are unique.
    pub closed spec fn wf(&self) -> bool {
        &&& keys_unique(self.inputs@)
        &&& keys_unique(self.outputs@)
    }
}

impl<T: Copy + Send + Sync, K: CpuKernels<T>> InferenceEngine<T, CpuCompute<T, K>> {
    /// An engine on the CPU backend, without graph or parameters, whose
    /// planned steps `kernels` computes; its backend is named
    /// `CPU (ndarray)`.
    pub fn new_cpu(kernels: K) -> (r: Self)
        ensures
            r.wf(),
            r.graph_view() is None,
            r.backend_view().cpu.params_view() == Map::<Seq<char>, Tensor<T>>::empty(),
            r.backend_view().kernels == kernels,
            r.inputs_view() == Map::<Seq<char>, Tensor<T>>::empty(),
            r.outputs_view() == Map::<Seq<char>, Tensor<T>>::empty(),
            r.output_list().len() == 0,
            r.stats_view() is None,
            forall|x: &str| #[trigger] call_ensures(
                <CpuCompute<T, K> as Backend<T>>::name,
                (&r.backend_view(),),
                x,
            ) ==> x@ == "CPU (ndarray)"@,
    {
        Self::with_backend(CpuCompute { cpu: CpuBackend::new(), kernels })
    }
}

impl<T: Copy, B: Backend<T>> InferenceEngine<T, B> {
    /// An engine on `backend`, with no graph.
    pub fn with_backend(backend: B) -> (r: Self)
        ensures
            r.graph_view() is None,
            r.backend_view() == backend,
            r.inputs_view() == Map::<Seq<char>, Tensor<T>>::empty(),
            r.outputs_view() == Map::<Seq<char>, Tensor<T>>::empty(),
            r.stats_view() is None,
            r.output_list().len() == 0,
            r.wf(),
    {
        let e = InferenceEngine {
            graph: None,
            backend,
            inputs: Vec::new(),
            outputs: Vec::new(),
            last_stats: None,
        };
        proof {
            assert(as_map(e.inputs@) =~= Map::<Seq<char>, Tensor<T>>::empty());
            assert(as_map(e.outputs@) =~= Map::<Seq<char>, Tensor<T>>::empty());
        }
        e
    }

    /// An engine of the kind `backend_type`, running on `backend`. The CUDA
    /// backend is not available and is refused.
    pub fn new(backend_type: BackendType, backend: B) -> (r: Result<Self, InferenceError>)
        ensures
            r is Ok <==> backend_type == BackendType::Cpu,
            r matches Err(e) ==> e is CudaUnavailable,
            r matches Ok(eng) ==> eng.wf() && eng.graph_view() is None && eng.backend_view() == backend
                && eng.inputs_view() == Map::<Seq<char>, Tensor<T>>::empty()
                && eng.outputs_view() == Map::<Seq<char>, Tensor<T>>::empty()
                && eng.output_list().len() == 0 && eng.stats_view() is None,
    {
        match backend_type {
            BackendType::Cpu => Ok(Self::with_backend(backend)),
            BackendType::Cuda => Err(InferenceError::CudaUnavailable),
        }
    }

    /// Loads `graph`, replacing any previous one; the outputs of earlier runs
    /// are dropped, the inputs are kept.
    pub fn load_graph(&mut self, graph: Graph)
        requires
            old(self).wf(),
        ensures
            final(self).wf(),
            final(self).graph_view() == Some(graph),
            final(self).backend_view() == old(self).backend_view(),
            final(self).inputs_view() == old(self).inputs_view(),
            final(self).outputs_view() == Map::<Seq<char>, Tensor<T>>::empty(),
            final(self).output_list().len() == 0,
            final(self).stats_view() == old(self).stats_view(),
    {
        self.graph = Some(graph);
        self.outputs = Vec::new();
        proof {
            assert(as_map(self.outputs@) =~= Map::<Seq<char>, Tensor<T>>::empty());
        }
    }

    /// The loaded graph, if any.
    pub fn graph(&self) -> (r: Option<&Graph>)
        ensures
            match r {
                Some(g) => self.graph_view() == Some(*g),
                None => self.graph_view() is None,
            },
    {
        match &self.graph {
            Some(g) => Some(g),
            None => None,
        }
    }

    /// Sets the input `name` to `tensor`. When a graph is loaded, `name` must
    /// be one of its input nodes.
    pub fn set_input(&mut self, name: &str, tensor: Tensor<T>) -> (r: Result<(), InferenceError>)
        requires
            old(self).wf(),
        ensures
            final(self).wf(),
            r is Err <==> (old(self).graph_view() matches Some(g) && !g.input_ids_view().contains(
                name@,
            )),
            r matches Err(e) ==> e matches InferenceError::InputNotFound(m) && m@ == name@,
            r is Ok ==> final(self).inputs_view() == old(self).inputs_view().insert(name@, tensor),
            r is Err ==> final(self).inputs_view() == old(self).inputs_view(),
            final(self).graph_view() == old(self).graph_view(),
            final(self).backend_view() == old(self).backend_view(),
            final(self).outputs_view() == old(self).outputs_view(),
            final(self).stats_view() == old(self).stats_view(),
    {
        let key = owned(name);
        if let Some(g) = &self.graph {
            let ids = g.input_ids();
            let mut i: usize = 0;
            let mut found = false;
            while i < ids.len()
                invariant
                    key@ == name@,
                    i <= ids@.len(),
                    found ==> str_views(ids@).contains(name@),
                    !found ==> forall|k: int| 0 <= k < i ==> ids@[k]@ != name@,
                decreases ids@.len() - i,
            {
                if crate::engine::graph::same_text(&ids[i], &key) {
                    proof {
                        assert(str_views(ids@)[i as int] == name@);
                    }
                    found = true;
                }
                i = i + 1;
            }
            if !found {
                proof {
                    if str_views(ids@).contains(name@) {
                        let k = choose|k: int| 0 <= k < str_views(ids@).len() && str_views(ids@)[k] == name@;
                        assert(ids@[k]@ == name@);
                    }
                }
                return Err(InferenceError::InputNotFound(key));
            }
        }
        put(&mut self.inputs, key, tensor);
        Ok(())
    }

    /// Runs the loaded graph: the set inputs are read for the graph's input
    /// nodes, every other node is executed by the backend in execution order
    /// on the results of the nodes its inputs name, and the results of the
    /// output nodes become the outputs. Timing statistics are recorded.
    #[verifier::loop_isolation(false)]
    #[verifier::rlimit(60)]
    pub fn run(&mut self) -> (r: Result<(), InferenceError>)
        requires
            old(self).wf(),
        ensures
            final(self).wf(),
            final(self).graph_view() == old(self).graph_view(),
            final(self).inputs_view() == old(self).inputs_view(),
            final(self).backend_view() == old(self).backend_view(),
            (r matches Err(e) && e is GraphNotLoaded) <==> old(self).graph_view() is None,
            (r matches Err(e) && e is InputNotFound) <==> (old(self).graph_view() matches Some(g)
                && exists|k: int| first_missing(g.input_ids_view(), old(self).inputs_view(), k)),
            r matches Err(InferenceError::InputNotFound(m)) ==> (old(self).graph_view() matches Some(g)
                && exists|k: int|
                first_missing(g.input_ids_view(), old(self).inputs_view(), k)
                    && g.input_ids_view()[k] == m@),
            r matches Err(e) ==> e is GraphNotLoaded || e is InputNotFound || e is ExecutionFailed
                || e is OutputNotFound,
            r matches Err(InferenceError::ExecutionFailed(m)) ==> (old(self).graph_view() matches Some(g)
                && exists|p: int, vals: Map<Seq<char>, Tensor<T>>|
                #[trigger] failed_at(old(self).backend_view(), g, old(self).inputs_view(), vals, p, m@)),
            r matches Err(InferenceError::ExecutionFailed(m)) ==> (old(self).graph_view() matches Some(g)
                && (is_execution_order(g.nodes_view(), g.order_view()) ==> exists|p: int, vals: Map<Seq<char>, Tensor<T>>|
                #[trigger] forward_error_at(old(self).backend_view(), g, old(self).inputs_view(), vals, p, m@))),
            r matches Err(InferenceError::OutputNotFound(m)) ==> (old(self).graph_view() matches Some(g)
                && g.output_ids_view().contains(m@) && !is_execution_order(g.nodes_view(), g.order_view())),
            r matches Err(e) && !(e is OutputNotFound) ==> final(self).outputs_view()
                == old(self).outputs_view() && final(self).output_list() == old(self).output_list(),
            r is Err ==> final(self).stats_view() == old(self).stats_view(),
            (old(self).graph_view() matches Some(g) && (forall|k: int|
                !first_missing(g.input_ids_view(), old(self).inputs_view(), k)) && (forall|j: int|
                0 <= j < g.nodes_view().len() ==> #[trigger] g.nodes_view()[j].node_type is Input))
                ==> r is Ok,
            r is Ok ==> (old(self).graph_view() matches Some(g) && final(self).outputs_view().dom()
                == g.output_ids_view().to_set() && (final(self).stats_view() matches Some(st)
                && st.nodes_executed == g.order_view().len() && exists|x: &str|
                call_ensures(B::name, (&old(self).backend_view(),), x) && st.backend_name@ == x@)),
            r is Ok ==> (old(self).graph_view() matches Some(g) && exists|vals: Map<Seq<char>, Tensor<T>>|
                #[trigger] graph_ran(old(self).backend_view(), g, old(self).inputs_view(), vals)
                    && outputs_from(final(self).outputs_view(), g.output_ids_view(), vals)),
    {
        let graph = match &self.graph {
            Some(g) => g,
            None => {
                return Err(InferenceError::GraphNotLoaded);
            },
        };
        graph.check_valid();
        let start = clock_now();
        let mut node_outputs: Vec<(String, Tensor<T>)> = Vec::new();
        let mut operator_times: Vec<(String, u128)> = Vec::new();
        let input_ids = graph.input_ids();
        let ghost in_map = as_map(self.inputs@);
        let ghost iids = str_views(input_ids@);
        proof {
            assert(as_map(node_outputs@) =~= Map::<Seq<char>, Tensor<T>>::empty());
        }
        let mut i: usize = 0;
        while i < input_ids.len()
            invariant
                i <= input_ids@.len(),
                keys_unique(self.inputs@),
                in_map == as_map(self.inputs@),
                iids == str_views(input_ids@),
                keys_unique(node_outputs@),
                forall|q: int| 0 <= q < i ==> in_map.contains_key(#[trigger] str_views(input_ids@)[q]),
                forall|q: int|
                    0 <= q < i ==> as_map(node_outputs@).contains_key(#[trigger] iids[q]) && same_tensor(
                        as_map(node_outputs@)[iids[q]],
                        in_map[iids[q]],
                    ),
                forall|x: Seq<char>| as_map(node_outputs@).contains_key(x) ==> iids.contains(x),
            decreases input_ids@.len() - i,
        {
            proof {
                lemma_as_map_domain(self.inputs@);
            }
            match find_key(&self.inputs, &input_ids[i]) {
                None => {
                    proof {
                        assert(str_views(input_ids@)[i as int] == input_ids@[i as int]@);
                        assert(first_missing(str_views(input_ids@), in_map, i as int));
                        assert(first_missing(graph.input_ids_view(), old(self).inputs_view(), i as int));
                    }
                    return Err(InferenceError::InputNotFound(input_ids[i].clone()));
                },
                Some(j) => {
                    proof {
                        assert(keys_of(self.inputs@)[j as int] == input_ids@[i as int]@);
                        assert(str_views(input_ids@)[i as int] == input_ids@[i as int]@);
                        lemma_as_map_at(self.inputs@, j as int);
                    }
                    let t = self.inputs[j].1.duplicate();
                    let ghost before = as_map(node_outputs@);
                    put(&mut node_outputs, input_ids[i].clone(), t);
                    proof {
                        let key = iids[i as int];
                        assert(as_map(node_outputs@) == before.insert(key, t));
                        assert forall|q: int| 0 <= q < i + 1 implies as_map(node_outputs@).contains_key(
                            #[trigger] iids[q],
                        ) && same_tensor(as_map(node_outputs@)[iids[q]], in_map[iids[q]]) by {
                            if iids[q] != key {
                                assert(q < i);
                            }
                        }
                        assert forall|x: Seq<char>| as_map(node_outputs@).contains_key(x) implies iids.contains(x) by {
                            if x == key {
                                assert(iids[i as int] == x);
                            }
                        }
                    }
                },
            }
            i = i + 1;
        }
        proof {
            assert forall|k: int| !first_missing(graph.input_ids_view(), in_map, k) by {
                if 0 <= k < graph.input_ids_view().len() {
                    assert(in_map.contains_key(str_views(input_ids@)[k]));
                }
            }
        }
        let order = graph.execution_order();
        let nodes = graph.nodes();
        let ghost bk = self.backend;
        let mut k: usize = 0;
        while k < order.len()
            invariant
                k <= order@.len(),
                order@ == graph.order_view(),
                nodes@ == graph.nodes_view(),
                graph.valid(),
                forall|p: int| 0 <= p < order@.len() ==> #[trigger] order@[p] < nodes@.len(),
                keys_unique(node_outputs@),
                *self == *old(self),
                bk == self.backend,
                iids == graph.input_ids_view(),
                forall|q: int|
                    0 <= q < iids.len() ==> as_map(node_outputs@).contains_key(#[trigger] iids[q]) && same_tensor(
                        as_map(node_outputs@)[iids[q]],
                        in_map[iids[q]],
                    ),
                forall|x: Seq<char>|
                    as_map(node_outputs@).contains_key(x) ==> iids.contains(x) || placed_before(
                        nodes@,
                        order@,
                        k as int,
                        x,
                    ),
                forall|p: int|
                    0 <= p < k && !(nodes@[order@[p] as int].node_type is Input) ==> node_ran(
                        bk,
                        #[trigger] nodes@[order@[p] as int],
                        as_map(node_outputs@),
                    ),
            decreases order@.len() - k,
        {
            let node = &nodes[order[k]];
            if !matches!(node.node_type, NodeType::Input { .. }) {
                let node_start = clock_now();
                let mut input_tensors: Vec<Tensor<T>> = Vec::new();
                let mut q: usize = 0;
                while q < node.inputs.len()
                    invariant
                        q <= node.inputs@.len(),
                        input_tensors@.len() <= q,
                        keys_unique(node_outputs@),
                        input_tensors@.len() == q ==> forall|t: int|
                            0 <= t < q ==> as_map(node_outputs@).contains_key(
                                #[trigger] node.inputs_view()[t],
                            ) && same_tensor(input_tensors@[t], as_map(node_outputs@)[node.inputs_view()[t]]),
                        input_tensors@.len() < q ==> exists|t: int|
                            0 <= t < q && !as_map(node_outputs@).contains_key(#[trigger] node.inputs_view()[t]),
                    decreases node.inputs@.len() - q,
                {
                    match find_key(&node_outputs, &node.inputs[q]) {
                        Some(j) => {
                            proof {
                                lemma_as_map_at(node_outputs@, j as int);
                                assert(node.inputs_view()[q as int] == node.inputs@[q as int]@);
                            }
                            let ghost before = input_tensors@;
                            input_tensors.push(node_outputs[j].1.duplicate());
                            proof {
                                if before.len() == q {
                                    assert forall|t: int| 0 <= t < q + 1 implies as_map(node_outputs@).contains_key(
                                        #[trigger] node.inputs_view()[t],
                                    ) && same_tensor(input_tensors@[t], as_map(node_outputs@)[node.inputs_view()[t]]) by {
                                        if t < q {
                                            assert(input_tensors@[t] == before[t]);
                                        }
                                    }
                                }
                            }
                        },
                        None => {
                            proof {
                                lemma_as_map_domain(node_outputs@);
                                assert(node.inputs_view()[q as int] == node.inputs@[q as int]@);
                                assert(!as_map(node_outputs@).contains_key(node.inputs_view()[q as int]));
                            }
                        },
                    }
                    q = q + 1;
                }
                if input_tensors.len() != node.inputs.len() {
                    let a = usize_text(node.inputs.len());
                    let b = usize_text(input_tensors.len());
                    let head = join3("节点 '", node.id.as_str(), "' 的输入不完整: 期望 ");
                    let mid = join3(head.as_str(), a.as_str(), " 个，实际 ");
                    let msg = join3(mid.as_str(), b.as_str(), " 个");
                    proof {
                        let j = order@[k as int] as int;
                        assert(nodes@[j] == *node);
                        assert(!(graph.nodes_view()[j].node_type is Input));
                        assert(node.inputs_view().len() == node.inputs@.len());
                        assert(m_is_incomplete(msg@, graph.nodes_view(), j, input_tensors@.len()));
                        assert(failed_at(bk, *graph, in_map, as_map(node_outputs@), k as int, msg@));
                        if is_execution_order(nodes@, order@) {
                            let vals = as_map(node_outputs@);
                            let t = choose|t: int|
                                0 <= t < node.inputs@.len() && !vals.contains_key(#[trigger] node.inputs_view()[t]);
                            let x = node.inputs_view()[t];
                            assert(input_of(nodes@, order@[k as int] as int, t) == x);
                            assert(placed_before(nodes@, order@, k as int, input_of(nodes@, order@[k as int] as int, t)));
                            let qq = choose|qq: int| 0 <= qq < k && #[trigger] id_of(nodes@, order@[qq] as int) == x;
                            let jq = order@[qq] as int;
                            if nodes@[jq].node_type is Input {
                                lemma_input_node_listed(nodes@, jq);
                                let idx = choose|idx: int| 0 <= idx < iids.len() && iids[idx] == x;
                                assert(vals.contains_key(iids[idx]));
                            } else {
                                assert(node_ran(bk, nodes@[order@[qq] as int], vals));
                            }
                            assert(false);
                        }
                        assert(old(self).backend_view() == bk);
                        assert(old(self).inputs_view() == in_map);
                        assert(failed_at(old(self).backend_view(), old(self).graph_view()->0, old(self).inputs_view(), as_map(node_outputs@), k as int, msg@));
                        let rr = Err::<(), InferenceError>(InferenceError::ExecutionFailed(msg));
                        assert(rr matches Err(InferenceError::ExecutionFailed(x)) && x@ == msg@);
                        assert(rr matches Err(InferenceError::ExecutionFailed(mm)) ==> (old(self).graph_view() matches Some(g)
                            && exists|p: int, vals: Map<Seq<char>, Tensor<T>>|
                            #[trigger] failed_at(old(self).backend_view(), g, old(self).inputs_view(), vals, p, mm@)));
                        assert(rr matches Err(InferenceError::ExecutionFailed(mm)) ==> (old(self).graph_view() matches Some(g)
                            && (is_execution_order(g.nodes_view(), g.order_view()) ==> exists|p: int, vals: Map<Seq<char>, Tensor<T>>|
                            #[trigger] forward_error_at(old(self).backend_view(), g, old(self).inputs_view(), vals, p, mm@))));
                    }
                    return Err(InferenceError::ExecutionFailed(msg));
                }
                let ins_slice = input_tensors.as_slice();
                let ps_slice = node.param_names.as_slice();
                let res = self.backend.forward(&node.node_type, ins_slice, ps_slice);
                match res {
                    Ok(out) => {
                        let ghost vals = as_map(node_outputs@);
                        let ghost j = order@[k as int] as int;
                        proof {
                            assert(nodes@[j] == *node);
                            assert(!vals.contains_key(node.id@)) by {
                                if vals.contains_key(node.id@) {
                                    if iids.contains(node.id@) {
                                        assert(graph.input_ids_view() == input_node_ids(nodes@));
                                        lemma_input_id_is_input(nodes@, node.id@);
                                        let jj = choose|jj: int|
                                            0 <= jj < nodes@.len() && nodes@[jj].id@ == node.id@
                                                && nodes@[jj].node_type is Input;
                                        assert(unique_ids(nodes@));
                                        assert(jj == j);
                                    } else {
                                        assert(placed_before(nodes@, order@, k as int, node.id@));
                                        let pp = choose|pp: int|
                                            0 <= pp < k && #[trigger] id_of(nodes@, order@[pp] as int) == node.id@;
                                        assert(nodes@[order@[pp] as int].id@ == nodes@[j].id@);
                                        assert(order@[pp] as int == j);
                                        assert(order@[pp] == order@[k as int]);
                                    }
                                }
                            }
                        }
                        let id = node.id.clone();
                        put(&mut node_outputs, id, out);
                        proof {
                            let w = as_map(node_outputs@);
                            assert(w == vals.insert(node.id@, out));
                            assert forall|p: int|
                                0 <= p < k + 1 && !(nodes@[order@[p] as int].node_type is Input) implies node_ran(
                                bk,
                                #[trigger] nodes@[order@[p] as int],
                                w,
                            ) by {
                                if p < k {
                                    lemma_node_ran_grow(bk, nodes@[order@[p] as int], vals, node.id@, out);
                                } else {
                                    assert(nodes@[order@[p] as int] == *node);
                                    assert forall|t: int| 0 <= t < node.inputs_view().len() implies w.contains_key(
                                        #[trigger] node.inputs_view()[t],
                                    ) by {
                                        assert(vals.contains_key(node.inputs_view()[t]));
                                    }
                                    assert forall|t: int| 0 <= t < ins_slice@.len() implies same_tensor(
                                        #[trigger] ins_slice@[t],
                                        w[node.inputs_view()[t]],
                                    ) by {
                                        assert(vals.contains_key(node.inputs_view()[t]));
                                        assert(same_tensor(input_tensors@[t], vals[node.inputs_view()[t]]));
                                    }
                                    assert(w[node.id@] == out);
                                    assert(forward_gave(bk, *node, w, ins_slice, ps_slice));
                                }
                            }
                            assert forall|x: Seq<char>| w.contains_key(x) implies iids.contains(x)
                                || placed_before(nodes@, order@, k + 1, x) by {
                                if x == node.id@ {
                                    assert(id_of(nodes@, order@[k as int] as int) == x);
                                } else {
                                    assert(vals.contains_key(x));
                                    if placed_before(nodes@, order@, k as int, x) {
                                        let pp = choose|pp: int|
                                            0 <= pp < k && #[trigger] id_of(nodes@, order@[pp] as int) == x;
                                        assert(id_of(nodes@, order@[pp] as int) == x);
                                    }
                                }
                            }
                            assert forall|q: int| 0 <= q < iids.len() implies w.contains_key(#[trigger] iids[q])
                                && same_tensor(w[iids[q]], in_map[iids[q]]) by {
                                assert(vals.contains_key(iids[q]));
                            }
                        }
                    },
                    Err(e) => {
                        let label = node.node_type.label();
                        let detail = e.describe();
                        let head = join3("节点 '", node.id.as_str(), "' (");
                        let mid = join3(head.as_str(), label.as_str(), ") 执行失败: ");
                        let msg = join2(mid.as_str(), detail.as_str());
                        proof {
                            let j = order@[k as int] as int;
                            assert(nodes@[j] == *node);
                            assert(!(graph.nodes_view()[j].node_type is Input));
                            assert(msg@ == node_failed_text(node.id@, node.node_type, e));
                            assert(forward_failed(bk, *node, as_map(node_outputs@), ins_slice, ps_slice, e));
                            assert(old(self).backend_view() == bk);
                            assert(old(self).inputs_view() == in_map);
                            assert(forward_error_at(old(self).backend_view(), old(self).graph_view()->0, old(self).inputs_view(), as_map(node_outputs@), k as int, msg@));
                            assert(failed_at(old(self).backend_view(), old(self).graph_view()->0, old(self).inputs_view(), as_map(node_outputs@), k as int, msg@));
                            let rr = Err::<(), InferenceError>(InferenceError::ExecutionFailed(msg));
                            assert(rr matches Err(InferenceError::ExecutionFailed(x)) && x@ == msg@);
                            assert(rr matches Err(InferenceError::ExecutionFailed(mm)) ==> (old(self).graph_view() matches Some(g)
                                && exists|p: int, vals: Map<Seq<char>, Tensor<T>>|
                                #[trigger] failed_at(old(self).backend_view(), g, old(self).inputs_view(), vals, p, mm@)));
                            assert(rr matches Err(InferenceError::ExecutionFailed(mm)) ==> (old(self).graph_view() matches Some(g)
                                && (is_execution_order(g.nodes_view(), g.order_view()) ==> exists|p: int, vals: Map<Seq<char>, Tensor<T>>|
                                #[trigger] forward_error_at(old(self).backend_view(), g, old(self).inputs_view(), vals, p, mm@))));
                        }
                        return Err(InferenceError::ExecutionFailed(msg));
                    },
                }
                let spent = clock_elapsed(&node_start);
                operator_times.push((node.id.clone(), duration_nanos(&spent)));
            } else {
                proof {
                    assert forall|x: Seq<char>| as_map(node_outputs@).contains_key(x) implies iids.contains(x)
                        || placed_before(nodes@, order@, k + 1, x) by {
                        if placed_before(nodes@, order@, k as int, x) {
                            let pp = choose|pp: int|
                                0 <= pp < k && #[trigger] id_of(nodes@, order@[pp] as int) == x;
                            assert(id_of(nodes@, order@[pp] as int) == x);
                        }
                    }
                }
            }
            k = k + 1;
        }
        let ghost vals = as_map(node_outputs@);
        proof {
            assert(ran_until(bk, *graph, in_map, vals, order@.len() as int));
        }
        let output_ids = graph.output_ids();
        let mut outputs: Vec<(String, Tensor<T>)> = Vec::new();
        proof {
            assert(as_map(outputs@).dom() =~= str_views(output_ids@).take(0).to_set());
        }
        let mut o: usize = 0;
        while o < output_ids.len()
            invariant
                o <= output_ids@.len(),
                keys_unique(node_outputs@),
                keys_unique(outputs@),
                *self == *old(self),
                vals == as_map(node_outputs@),
                as_map(outputs@).dom() == str_views(output_ids@).take(o as int).to_set(),
                forall|t: int|
                    0 <= t < o ==> vals.contains_key(#[trigger] str_views(output_ids@)[t]) && same_tensor(
                        as_map(outputs@)[str_views(output_ids@)[t]],
                        vals[str_views(output_ids@)[t]],
                    ),
            decreases output_ids@.len() - o,
        {
            match find_key(&node_outputs, &output_ids[o]) {
                Some(j) => {
                    proof {
                        lemma_as_map_at(node_outputs@, j as int);
                    }
                    let t = node_outputs[j].1.duplicate();
                    let ghost before = outputs@;
                    put(&mut outputs, output_ids[o].clone(), t);
                    proof {
                        let ids = str_views(output_ids@);
                        assert(ids.take(o as int + 1) =~= ids.take(o as int).push(ids[o as int]));
                        ids.take(o as int).lemma_push_to_set_commute(ids[o as int]);
                        assert(as_map(outputs@).dom() =~= as_map(before).dom().insert(ids[o as int]));
                        assert(ids[o as int] == output_ids@[o as int]@);
                        assert forall|tt: int| 0 <= tt < o + 1 implies vals.contains_key(#[trigger] ids[tt])
                            && same_tensor(as_map(outputs@)[ids[tt]], vals[ids[tt]]) by {
                            if ids[tt] != ids[o as int] {
                                assert(tt < o);
                            }
                        }
                    }
                },
                None => {
                    self.outputs = outputs;
                    proof {
                        assert(str_views(output_ids@)[o as int] == output_ids@[o as int]@);
                        if forall|j: int| 0 <= j < graph.nodes_view().len() ==> #[trigger] graph.nodes_view()[j].node_type is Input {
                            lemma_inputs_only_no_outputs(graph.nodes_view());
                        }
                        if is_execution_order(nodes@, order@) {
                            let x = str_views(output_ids@)[o as int];
                            assert(graph.output_ids_view()[o as int] == x);
                            assert(output_node_ids(nodes@).contains(x));
                            lemma_output_id_is_output(nodes@, x);
                            let j = choose|j: int| 0 <= j < nodes@.len() && nodes@[j].id@ == x && nodes@[j].node_type is Output;
                            lemma_order_covers(nodes@, order@);
                            assert(order@.contains(j as usize));
                            let pp = choose|pp: int| 0 <= pp < order@.len() && order@[pp] == j as usize;
                            assert(node_ran(bk, nodes@[order@[pp] as int], vals));
                            lemma_as_map_domain(node_outputs@);
                            assert(keys_of(node_outputs@).to_set().contains(x));
                            assert(false);
                        }
                    }
                    return Err(InferenceError::OutputNotFound(output_ids[o].clone()));
                },
            }
            o = o + 1;
        }
        proof {
            assert(str_views(output_ids@).take(o as int) =~= str_views(output_ids@));
        }
        let total = clock_elapsed(&start);
        let name = self.backend.name();
        let backend_name = owned(name);
        proof {
            assert(call_ensures(B::name, (&old(self).backend_view(),), name) && backend_name@ == name@);
            assert(graph_ran(bk, *graph, in_map, vals));
            assert(outputs_from(as_map(outputs@), graph.output_ids_view(), vals));
        }
        let stats = InferenceStats {
            total_time_ns: duration_nanos(&total),
            operator_times_ns: operator_times,
            nodes_executed: order.len(),
            backend_name,
        };
        self.outputs = outputs;
        self.last_stats = Some(stats);
        Ok(())
    }

    /// The output `name` of the latest run, or, without a name, the first
    /// output.
    pub fn get_output(&self, name: Option<&str>) -> (r: Result<&Tensor<T>, InferenceError>)
        requires
            self.wf(),
        ensures
            name matches Some(n) ==> (r is Ok <==> self.outputs_view().contains_key(n@)),
            name matches Some(n) ==> (r matches Ok(t) ==> *t == self.outputs_view()[n@]),
            name matches Some(n) ==> (r matches Err(e) ==> e matches InferenceError::OutputNotFound(m)
                && m@ == n@),
            name is None ==> (r is Ok <==> self.output_list().len() > 0),
            name is None ==> (r matches Ok(t) ==> *t == self.output_list()[0].1
                && self.outputs_view()[self.output_list()[0].0@] == *t),
            name is None ==> (r matches Err(e) ==> e matches InferenceError::ExecutionFailed(m)
                && m@ == "没有可用的输出"@),
    {
        proof {
            lemma_as_map_domain(self.outputs@);
        }
        match name {
            Some(n) => {
                let key = owned(n);
                match find_key(&self.outputs, &key) {
                    Some(j) => {
                        proof {
                            lemma_as_map_at(self.outputs@, j as int);
                        }
                        Ok(&self.outputs[j].1)
                    },
                    None => Err(InferenceError::OutputNotFound(key)),
                }
            },
            None => {
                if self.outputs.len() == 0 {
                    return Err(InferenceError::ExecutionFailed(owned("没有可用的输出")));
                }
                proof {
                    lemma_as_map_at(self.outputs@, 0);
                }
                Ok(&self.outputs[0].1)
            },
        }
    }

    /// The outputs of the latest run, in the order of the graph's outputs.
    pub fn get_outputs(&self) -> (r: &[(String, Tensor<T>)])
        ensures
            r@ == self.output_list(),
    {
        self.outputs.as_slice()
    }

    /// The statistics of the latest successful run, if any.
    pub fn last_stats(&self) -> (r: Option<&InferenceStats>)
        ensures
            match r {
                Some(s) => self.stats_view() == Some(*s),
                None => self.stats_view() is None,
            },
    {
        match &self.last_stats {
            Some(s) => Some(s),
            None => None,
        }
    }

    /// The backend's description of its device.
    pub fn backend_info(&self) -> (r: String)
        ensures
            call_ensures(B::device_info, (&self.backend_view(),), r),
    {
        self.backend.device_info()
    }

    /// The backend's name.
    pub fn backend_name(&self) -> (r: &str)
        ensures
            call_ensures(B::name, (&self.backend_view(),), r),
    {
        self.backend.name()
    }

    /// A summary of the engine: version, backend, and the sizes of the loaded graph.
    pub fn engine_info(&self) -> (r: EngineInfo)
        ensures
            r.version@ == version_text(),
            exists|x: &str| call_ensures(B::name, (&self.backend_view(),), x) && r.backend@ == x@,
            call_ensures(B::device_info, (&self.backend_view(),), r.device_info),
            r.graph_loaded == self.graph_view() is Some,
            r.node_count == match self.graph_view() {
                Some(g) => g.nodes_view().len(),
                None => 0,
            },
            r.input_count == match self.graph_view() {
                Some(g) => g.input_ids_view().len(),
                None => 0,
            },
            r.output_count == match self.graph_view() {
                Some(g) => g.output_ids_view().len(),
                None => 0,
            },
    {
        let (node_count, input_count, output_count) = match &self.graph {
            Some(g) => {
                let ins = g.input_ids();
                let outs = g.output_ids();
                (g.node_count(), ins.len(), outs.len())
            },
            None => (0, 0, 0),
        };
        let name = self.backend.name();
        let device_info = self.backend.device_info();
        let backend = owned(name);
        proof {
            assert(call_ensures(B::name, (&self.backend_view(),), name) && backend@ == name@);
        }
        EngineInfo {
            version: owned("0.1.0"),
            backend,
            device_info,
            graph_loaded: self.graph.is_some(),
            node_count,
            input_count,
            output_count,
        }
    }
}

} // verus!
