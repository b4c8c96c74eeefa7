//! What the HTTP service answers: model information, inference on a
//! request's tensor, and errors. The transport (routing, JSON, the lock
//! around the shared engine) is the caller's.

use vstd::prelude::*;
use crate::backend::Backend;
use crate::engine::inference::{
    first_missing, inference_error_text, run_may_fail, run_succeeded, EngineInfo, InferenceEngine,
    InferenceError, InferenceStats,
};
use crate::engine::graph::{
    build_succeeds, edges_resolve, has_execution_order, id_of, input_node_ids, input_of,
    is_execution_order, node_ids, output_node_ids, placed_before, Graph, GraphBuilder, Node, NodeType,
};
use crate::engine::tensor::{shape_product, Tensor};
use crate::text::{decimal, join3, owned, usize_text};

verus! {

/// The answer to a model information request.
#[derive(Debug)]
pub struct ModelInfoResponse {
    /// Whether a graph is loaded.
    pub model_loaded: bool,
    /// The number of nodes.
    pub node_count: usize,
    /// The number of graph inputs.
    pub input_count: usize,
    /// The number of graph outputs.
    pub output_count: usize,
    /// The backend name.
    pub backend: String,
    /// The device description.
    pub device_info: String,
}

impl ModelInfoResponse {
    /// The answer built from an engine summary.
    pub fn from_engine_info(info: EngineInfo) -> (r: ModelInfoResponse)
        ensures
            r.model_loaded == info.graph_loaded,
            r.node_count == info.node_count,
            r.input_count == info.input_count,
            r.output_count == info.output_count,
            r.backend == info.backend,
            r.device_info == info.device_info,
    {
        ModelInfoResponse {
            model_loaded: info.graph_loaded,
            node_count: info.node_count,
            input_count: info.input_count,
            output_count: info.output_count,
            backend: info.backend,
            device_info: info.device_info,
        }
    }
}

/// The answer to a failed request: what failed, and why.
#[derive(Debug)]
pub struct ErrorResponse {
    /// What failed.
    pub error: String,
    /// The cause, when there is one.
    pub detail: Option<String>,
}

/// An inference request: the elements of the input tensor in row-major
/// order, its shape, and optionally the names of the input to set and of
/// the output to return.
#[derive(Debug)]
pub struct InferenceRequest<T> {
    /// The elements of the input tensor.
    pub input_data: Vec<T>,
    /// The shape of the input tensor.
    pub input_shape: Vec<usize>,
    /// The input to set; `input` when absent.
    pub input_name: Option<String>,
    /// The output to return; the first output when absent.
    pub output_name: Option<String>,
}

/// The answer to a successful inference request.
#[derive(Debug)]
pub struct InferenceResponse<T> {
    /// The elements of the output tensor in row-major order.
    pub output_data: Vec<T>,
    /// The shape of the output tensor.
    pub output_shape: Vec<usize>,
    /// The duration of the run, in nanoseconds.
    pub inference_time_ns: u128,
    /// The backend name.
    pub backend: String,
}

/// The detail of a request whose data length does not fit its shape.
pub open spec fn length_detail_text(expected: nat, actual: nat) -> Seq<char> {
    "期望 "@ + decimal(expected) + " 个元素，实际 "@ + decimal(actual) + " 个"@
}

/// Whether `r` is the error answer `error`, with the detail `detail`.
pub open spec fn is_error_response<V>(r: Result<V, ErrorResponse>, error: Seq<char>, detail: Seq<char>) -> bool {
    r matches Err(er) && er.error@ == error && (er.detail matches Some(d) && d@ == detail)
}

/// The name of the input a request sets.
pub open spec fn request_input_name<T>(req: InferenceRequest<T>) -> Seq<char> {
    match req.input_name {
        Some(n) => n@,
        None => "input"@,
    }
}

/// Whether the output a request asks for exists: the named output, or,
/// without a name, a first output.
pub open spec fn output_present<T, B>(engine: InferenceEngine<T, B>, output_name: Option<String>) -> bool {
    match output_name {
        Some(n) => engine.outputs_view().contains_key(n@),
        None => engine.output_list().len() > 0,
    }
}

/// The output a request asks for: the named output, or the first one.
pub open spec fn requested_output<T, B>(engine: InferenceEngine<T, B>, output_name: Option<String>) -> Tensor<T> {
    match output_name {
        Some(n) => engine.outputs_view()[n@],
        None => engine.output_list()[0].1,
    }
}

/// The detail of a request whose output does not exist.
pub open spec fn missing_output_text(output_name: Option<String>) -> Seq<char> {
    match output_name {
        Some(n) => inference_error_text(InferenceError::OutputNotFound(n)),
        None => "推理执行失败: 没有可用的输出"@,
    }
}

/// Whether `r` answers a request for `output_name` after a run whose outcome
/// was `ran`, the engine then being in the state `engine`: a failed run is
/// answered with its description; after a successful run the answer is the
/// requested output, with the run's duration and backend from the
/// statistics, or, when that output does not exist, the retrieval error.
pub open spec fn responds<T, B>(
    engine: InferenceEngine<T, B>,
    ran: Result<(), InferenceError>,
    output_name: Option<String>,
    r: Result<InferenceResponse<T>, ErrorResponse>,
) -> bool {
    &&& ran matches Err(e) ==> is_error_response(r, "推理执行失败"@, inference_error_text(e))
    &&& ran is Ok ==> (r is Ok <==> output_present(engine, output_name))
    &&& ran is Ok && !output_present(engine, output_name) ==> is_error_response(
        r,
        "获取输出失败"@,
        missing_output_text(output_name),
    )
    &&& r matches Ok(resp) ==> {
        let out = requested_output(engine, output_name);
        &&& resp.output_data@ == out.data_view()
        &&& resp.output_shape@ == out.shape_view()
        &&& match engine.stats_view() {
            Some(st) => resp.inference_time_ns == st.total_time_ns && resp.backend@ == st.backend_name@,
            None => resp.inference_time_ns == 0 && resp.backend@.len() == 0,
        }
    }
}

/// Whether `r` is the answer to a request for `output_name` when `run`, on
/// the engine in the state `before`, had the outcome `ran` and left it in
/// the state `after`.
pub open spec fn ran_then_responded<T, B: Backend<T>>(
    before: InferenceEngine<T, B>,
    ran: Result<(), InferenceError>,
    after: InferenceEngine<T, B>,
    output_name: Option<String>,
    r: Result<InferenceResponse<T>, ErrorResponse>,
) -> bool {
    &&& ran matches Err(e) ==> run_may_fail(before, e)
    &&& ran is Ok ==> run_succeeded(before, after)
    &&& responds(after, ran, output_name, r)
}

/// The answer to an inference request after the graph has run with the
/// outcome `ran`: a failed run is answered with `推理执行失败` and its
/// description; otherwise the requested output (by name, or the first one)
/// is answered with the run's duration and backend, or `获取输出失败` when
/// it does not exist.
pub fn respond<T: Copy, B: Backend<T>>(
    engine: &InferenceEngine<T, B>,
    ran: Result<(), InferenceError>,
    output_name: Option<String>,
) -> (r: Result<InferenceResponse<T>, ErrorResponse>)
    requires
        engine.wf(),
    ensures
        responds(*engine, ran, output_name, r),
{
    match ran {
        Ok(()) => {},
        Err(e) => {
            return Err(ErrorResponse { error: owned("推理执行失败"), detail: Some(e.describe()) });
        },
    }
    let output = match &output_name {
        Some(n) => engine.get_output(Some(n.as_str())),
        None => engine.get_output(None),
    };
    let output = match output {
        Ok(t) => t,
        Err(e) => {
            let detail = e.describe();
            proof {
                reveal_strlit("推理执行失败: ");
                reveal_strlit("没有可用的输出");
                reveal_strlit("推理执行失败: 没有可用的输出");
                assert("推理执行失败: "@ + "没有可用的输出"@ =~= "推理执行失败: 没有可用的输出"@);
            }
            return Err(ErrorResponse { error: owned("获取输出失败"), detail: Some(detail) });
        },
    };
    let output_data = output.to_vec();
    let output_shape = vstd::slice::slice_to_vec(output.shape());
    let (inference_time_ns, backend) = match engine.last_stats() {
        Some(st) => (st.total_time_ns, owned(st.backend_name.as_str())),
        None => (0, String::new()),
    };
    Ok(InferenceResponse { output_data, output_shape, inference_time_ns, backend })
}

/// Answers an inference request on `engine`: the request's data must fit
/// its shape; the tensor is set as the named input (by default `input`),
/// the graph is run, and `respond` answers for the run's outcome.
pub fn handle_inference<T: Copy, B: Backend<T>>(
    engine: &mut InferenceEngine<T, B>,
    req: InferenceRequest<T>,
) -> (r: Result<InferenceResponse<T>, ErrorResponse>)
    requires
        old(engine).wf(),
        shape_product(req.input_shape@) <= usize::MAX,
    ensures
        final(engine).wf(),
        final(engine).graph_view() == old(engine).graph_view(),
        final(engine).backend_view() == old(engine).backend_view(),
        req.input_data@.len() != shape_product(req.input_shape@) ==> is_error_response(
            r,
            "输入数据长度与形状不匹配"@,
            length_detail_text(shape_product(req.input_shape@), req.input_data@.len()),
        ) && *final(engine) == *old(engine),
        req.input_data@.len() == shape_product(req.input_shape@) ==> {
            let name = request_input_name(req);
            match old(engine).graph_view() {
                None => is_error_response(r, "推理执行失败"@, "计算图未加载"@),
                Some(g) => if !g.input_ids_view().contains(name) {
                    is_error_response(r, "设置输入失败"@, "输入名称未找到: "@ + name)
                        && final(engine).inputs_view() == old(engine).inputs_view()
                } else {
                    &&& final(engine).inputs_view().dom() == old(engine).inputs_view().dom().insert(name)
                    &&& final(engine).inputs_view()[name].shape_view() == req.input_shape@
                    &&& final(engine).inputs_view()[name].data_view() == req.input_data@
                    &&& forall|x: Seq<char>| x != name && old(engine).inputs_view().contains_key(x)
                        ==> final(engine).inputs_view()[x] == old(engine).inputs_view()[x]
                    &&& exists|mid: InferenceEngine<T, B>, ran: Result<(), InferenceError>|
                        mid.graph_view() == old(engine).graph_view() && mid.backend_view() == old(
                            engine,
                        ).backend_view() && mid.inputs_view() == final(engine).inputs_view()
                            && #[trigger] ran_then_responded(mid, ran, *final(engine), req.output_name, r)
                },
            }
        },
{
    let expected = match crate::engine::tensor::checked_product(req.input_shape.as_slice()) {
        Some(p) => p,
        None => 0,
    };
    if req.input_data.len() != expected {
        let a = usize_text(expected);
        let b = usize_text(req.input_data.len());
        let head = join3("期望 ", a.as_str(), " 个元素，实际 ");
        let detail = join3(head.as_str(), b.as_str(), " 个");
        return Err(ErrorResponse { error: owned("输入数据长度与形状不匹配"), detail: Some(detail) });
    }
    let tensor = match Tensor::from_vec(req.input_data, req.input_shape.as_slice()) {
        Ok(t) => t,
        Err(e) => {
            return Err(ErrorResponse { error: owned("创建输入张量失败"), detail: Some(e.describe()) });
        },
    };
    let name = match &req.input_name {
        Some(n) => owned(n.as_str()),
        None => owned("input"),
    };
    match engine.set_input(name.as_str(), tensor) {
        Ok(()) => {},
        Err(e) => {
            return Err(ErrorResponse { error: owned("设置输入失败"), detail: Some(e.describe()) });
        },
    }
    let ghost mid = *engine;
    let ran = engine.run();
    proof {
        if ran is Err {
            assert(run_may_fail(mid, ran->Err_0));
        } else {
            assert(run_succeeded(mid, *engine));
        }
    }
    let r = respond(engine, ran, req.output_name);
    proof {
        assert(ran_then_responded(mid, ran, *engine, req.output_name, r));
    }
    r
}

/// Whether `nodes` are those of the demonstration graph: an input `input` of
/// shape `[1, 4]`, a dense layer `fc1` from 4 to 3 features with a bias, a
/// ReLU `relu1` and an output `output`, each reading the one before.
pub open spec fn is_sample_graph(nodes: Seq<Node>) -> bool {
    &&& nodes.len() == 4
    &&& nodes[0].id@ == "input"@ && nodes[0].inputs_view() == Seq::<Seq<char>>::empty()
    &&& nodes[0].node_type matches NodeType::Input { name, dtype, shape } && name@ == "input"@
        && dtype@ == "f32"@ && shape@ == seq![1usize, 4]
    &&& nodes[1].id@ == "fc1"@ && nodes[1].inputs_view() == seq!["input"@]
    &&& nodes[1].params_view() == seq!["fc1"@ + ".weight"@, "fc1"@ + ".bias"@]
    &&& nodes[1].node_type matches NodeType::Dense { in_features, out_features, has_bias, .. }
        && in_features == 4 && out_features == 3 && has_bias
    &&& nodes[2].id@ == "relu1"@ && nodes[2].inputs_view() == seq!["fc1"@] && nodes[2].node_type is ReLU
    &&& nodes[3].id@ == "output"@ && nodes[3].inputs_view() == seq!["relu1"@]
        && nodes[3].node_type is Output
}

/// The demonstration graph the service can start with: `input` (shape
/// `[1, 4]`), a dense layer `fc1` (4 to 3 features, with bias), a ReLU
/// `relu1` and the output `output`, in execution order.
pub fn sample_graph() -> (r: Graph)
    ensures
        is_sample_graph(r.nodes_view()),
        is_execution_order(r.nodes_view(), r.order_view()),
{
    proof {
        reveal_strlit("input");
        reveal_strlit("fc1");
        reveal_strlit("relu1");
        reveal_strlit("output");
    }
    let mut builder = GraphBuilder::new();
    let mut shape: Vec<usize> = Vec::new();
    shape.push(1);
    shape.push(4);
    proof {
        assert(shape@ =~= seq![1usize, 4]);
        assert(node_ids(builder.nodes_view()) =~= Seq::<Seq<char>>::empty());
    }
    let a = builder.input("input", "f32", shape);
    let ghost n1 = builder.nodes_view();
    proof {
        assert(a is Ok);
        assert(node_ids(n1) =~= seq!["input"@]);
        assert("fc1"@[0] != "input"@[0]);
        assert("fc1"@ != "input"@);
    }
    let b = builder.dense("fc1", 4, 3, "input", true);
    let ghost n2 = builder.nodes_view();
    proof {
        assert(b is Ok);
        assert(n2.drop_last() == n1);
        assert(n2[0] == n1[0]);
        assert(node_ids(n2) =~= seq!["input"@, "fc1"@]);
        assert("relu1"@[0] != "input"@[0] && "relu1"@[0] != "fc1"@[0]);
        assert("relu1"@ != "input"@ && "relu1"@ != "fc1"@);
    }
    let c = builder.relu("relu1", "fc1");
    let ghost n3 = builder.nodes_view();
    proof {
        assert(c is Ok);
        assert(n3.drop_last() == n2);
        assert(n3[0] == n2[0] && n3[1] == n2[1]);
        assert(node_ids(n3) =~= seq!["input"@, "fc1"@, "relu1"@]);
        assert("output"@[0] != "input"@[0] && "output"@[0] != "fc1"@[0] && "output"@[0] != "relu1"@[0]);
        assert("output"@ != "input"@ && "output"@ != "fc1"@ && "output"@ != "relu1"@);
    }
    let d = builder.output("output", "relu1");
    let ghost nodes = builder.nodes_view();
    proof {
        assert(d is Ok);
        assert(nodes.drop_last() == n3);
        assert(nodes[0] == n3[0] && nodes[1] == n3[1] && nodes[2] == n3[2]);
        assert(is_sample_graph(nodes));
        assert(node_ids(nodes) =~= seq!["input"@, "fc1"@, "relu1"@, "output"@]);
        assert(edges_resolve(nodes)) by {
            assert(node_ids(nodes)[0] == "input"@);
            assert(node_ids(nodes)[1] == "fc1"@);
            assert(node_ids(nodes)[2] == "relu1"@);
        }
        reveal_with_fuel(input_node_ids, 5);
        reveal_with_fuel(output_node_ids, 5);
        assert(nodes.drop_last().drop_last().drop_last().drop_last() =~= Seq::<Node>::empty());
        assert(input_node_ids(nodes).len() > 0);
        assert(output_node_ids(nodes).len() > 0);
        let order = seq![0usize, 1, 2, 3];
        assert(id_of(nodes, order[0] as int) == "input"@);
        assert(id_of(nodes, order[1] as int) == "fc1"@);
        assert(id_of(nodes, order[2] as int) == "relu1"@);
        assert(is_execution_order(nodes, order)) by {
            assert forall|p: int, k: int|
                0 <= p < order.len() && 0 <= k < nodes[order[p] as int].inputs_view().len()
                    implies #[trigger] placed_before(nodes, order, p, input_of(nodes, order[p] as int, k)) by {
                if p == 1 {
                    assert(input_of(nodes, 1, k) == "input"@);
                    assert(id_of(nodes, order[0] as int) == "input"@);
                } else if p == 2 {
                    assert(input_of(nodes, 2, k) == "fc1"@);
                    assert(id_of(nodes, order[1] as int) == "fc1"@);
                } else if p == 3 {
                    assert(input_of(nodes, 3, k) == "relu1"@);
                    assert(id_of(nodes, order[2] as int) == "relu1"@);
                }
            }
        }
        assert(has_execution_order(nodes));
        assert(build_succeeds(nodes));
    }
    match builder.build() {
        Ok(g) => g,
        Err(_) => {
            proof {
                assert(false);
            }
            Graph::new()
        },
    }
}

} // verus!
