use rust_ai_inference_engine::api::server::{
    handle_inference, respond, sample_graph, InferenceRequest, ModelInfoResponse,
};
use rust_ai_inference_engine::backend::cpu::{CpuBackend, CpuCompute, CpuKernels, CpuStep};
use rust_ai_inference_engine::backend::{Backend, BackendType};
use rust_ai_inference_engine::engine::graph::{GraphBuilder, NodeType};
use rust_ai_inference_engine::engine::inference::{InferenceEngine, InferenceError};
use rust_ai_inference_engine::engine::tensor::{Tensor, TensorError};

/// The element arithmetic over `f32` that the tests use.
struct TestKernels;

impl CpuKernels<f32> for TestKernels {
    fn compute(&self, _node_type: &NodeType, step: CpuStep<'_, f32>) -> Result<Tensor<f32>, TensorError> {
        match step {
            CpuStep::Ready(t) => Ok(t),
            CpuStep::Zeros(shape) => {
                let n: usize = shape.iter().product();
                Tensor::from_vec(vec![0.0; n], &shape)
            }
            CpuStep::Relu(x) => {
                let v: Vec<f32> = x.to_vec().iter().map(|&a| if a < 0.0 { 0.0 } else { a }).collect();
                Tensor::from_vec(v, x.shape())
            }
            CpuStep::Add(a, b) => {
                let v: Vec<f32> = a.to_vec().iter().zip(b.to_vec()).map(|(x, y)| x + y).collect();
                Tensor::from_vec(v, a.shape())
            }
            _ => Err(TensorError::OperationFailed("not used by the tests".to_string())),
        }
    }
}

fn engine() -> InferenceEngine<f32, CpuCompute<f32, TestKernels>> {
    InferenceEngine::new_cpu(TestKernels)
}

fn mismatched_graph() -> rust_ai_inference_engine::engine::graph::Graph {
    let mut builder = GraphBuilder::new();
    builder.input("a", "f32", vec![1, 2]).unwrap();
    builder.input("b", "f32", vec![1, 3]).unwrap();
    builder.add("s", "a", "b").unwrap();
    builder.output("y", "s").unwrap();
    builder.build().unwrap()
}

fn relu_graph() -> rust_ai_inference_engine::engine::graph::Graph {
    let mut builder = GraphBuilder::new();
    builder.input("x", "f32", vec![1, 4]).unwrap();
    builder.relu("relu1", "x").unwrap();
    builder.output("y", "relu1").unwrap();
    builder.build().unwrap()
}

#[test]
fn test_engine_creation() {
    let engine = engine();
    assert_eq!(engine.backend_name(), "CPU (ndarray)");
}

#[test]
fn test_engine_load_graph() {
    let mut engine = engine();
    engine.load_graph(sample_graph());
    assert!(engine.graph().is_some());
    assert_eq!(engine.graph().unwrap().node_count(), 4);
}

#[test]
fn test_engine_creation_and_info() {
    let engine = engine();
    let info = engine.engine_info();
    assert_eq!(info.version, "0.1.0");
    assert!(!info.backend.is_empty());
}

#[test]
fn cuda_engine_is_refused() {
    assert!(matches!(
        InferenceEngine::new(BackendType::Cuda, CpuCompute { cpu: CpuBackend::<f32>::new(), kernels: TestKernels }),
        Err(InferenceError::CudaUnavailable)
    ));
}

#[test]
fn run_executes_in_order() {
    let mut engine = engine();
    engine.load_graph(relu_graph());
    let input = Tensor::from_vec(vec![-1.0, 0.0, 1.0, 2.0], &[1, 4]).unwrap();
    engine.set_input("x", input).unwrap();
    engine.run().unwrap();
    let out = engine.get_output(Some("y")).unwrap();
    assert_eq!(out.shape(), &[1, 4]);
    assert_eq!(out.to_vec(), vec![0.0, 0.0, 1.0, 2.0]);
    assert_eq!(engine.get_output(None).unwrap().to_vec(), vec![0.0, 0.0, 1.0, 2.0]);
    let stats = engine.last_stats().unwrap();
    assert_eq!(stats.nodes_executed, 3);
    assert_eq!(stats.backend_name, "CPU (ndarray)");
    assert_eq!(engine.get_outputs().len(), 1);
}

#[test]
fn run_errors() {
    let mut engine = engine();
    assert!(matches!(engine.run(), Err(InferenceError::GraphNotLoaded)));
    engine.load_graph(relu_graph());
    match engine.run() {
        Err(InferenceError::InputNotFound(m)) => assert_eq!(m, "x"),
        _ => panic!("an unset input must be reported"),
    }
    match engine.set_input("z", Tensor::from_vec(vec![1.0], &[1]).unwrap()) {
        Err(InferenceError::InputNotFound(m)) => assert_eq!(m, "z"),
        _ => panic!("only inputs of the graph can be set"),
    }
    let mut engine = self::engine();
    engine.load_graph(mismatched_graph());
    engine.set_input("a", Tensor::from_vec(vec![1.0, 2.0], &[1, 2]).unwrap()).unwrap();
    engine.set_input("b", Tensor::from_vec(vec![1.0, 2.0, 3.0], &[1, 3]).unwrap()).unwrap();
    match engine.run() {
        Err(e) => assert_eq!(
            e.describe(),
            "推理执行失败: 节点 's' (Add) 执行失败: 形状不匹配: 期望 [1, 2], 实际 [1, 3]"
        ),
        Ok(()) => panic!("tensors of different shapes do not add"),
    }
    match engine.get_output(Some("nothing")) {
        Err(InferenceError::OutputNotFound(m)) => assert_eq!(m, "nothing"),
        _ => panic!("no such output"),
    }
}

#[test]
fn inference_requests() {
    let mut engine = engine();
    engine.load_graph(relu_graph());
    let req = InferenceRequest {
        input_data: vec![-3.0, 1.0, -1.0, 5.0],
        input_shape: vec![1, 4],
        input_name: Some("x".to_string()),
        output_name: None,
    };
    let resp = handle_inference(&mut engine, req).unwrap();
    assert_eq!(resp.output_data, vec![0.0, 1.0, 0.0, 5.0]);
    assert_eq!(resp.output_shape, vec![1, 4]);
    assert_eq!(resp.backend, "CPU (ndarray)");

    let bad = InferenceRequest {
        input_data: vec![1.0, 2.0],
        input_shape: vec![1, 4],
        input_name: None,
        output_name: None,
    };
    let err = handle_inference(&mut engine, bad).unwrap_err();
    assert_eq!(err.error, "输入数据长度与形状不匹配");
    assert_eq!(err.detail.as_deref(), Some("期望 4 个元素，实际 2 个"));

    let unnamed = InferenceRequest {
        input_data: vec![1.0, 2.0, 3.0, 4.0],
        input_shape: vec![1, 4],
        input_name: None,
        output_name: None,
    };
    let err = handle_inference(&mut engine, unnamed).unwrap_err();
    assert_eq!(err.error, "设置输入失败");
    assert_eq!(err.detail.as_deref(), Some("输入名称未找到: input"));

    let wrong_output = InferenceRequest {
        input_data: vec![1.0, 2.0, 3.0, 4.0],
        input_shape: vec![1, 4],
        input_name: Some("x".to_string()),
        output_name: Some("q".to_string()),
    };
    let err = handle_inference(&mut engine, wrong_output).unwrap_err();
    assert_eq!(err.error, "获取输出失败");
    assert_eq!(err.detail.as_deref(), Some("输出名称未找到: q"));

    let mut empty = self::engine();
    let req = InferenceRequest {
        input_data: vec![1.0],
        input_shape: vec![1],
        input_name: None,
        output_name: None,
    };
    let err = handle_inference(&mut empty, req).unwrap_err();
    assert_eq!(err.error, "推理执行失败");
    assert_eq!(err.detail.as_deref(), Some("计算图未加载"));
}

#[test]
fn model_info_from_engine() {
    let mut engine = engine();
    engine.load_graph(sample_graph());
    let info = ModelInfoResponse::from_engine_info(engine.engine_info());
    assert!(info.model_loaded);
    assert_eq!(info.node_count, 4);
    assert_eq!(info.input_count, 1);
    assert_eq!(info.output_count, 1);
    assert_eq!(info.backend, "CPU (ndarray)");
}

#[test]
fn engine_error_texts() {
    assert_eq!(InferenceError::GraphNotLoaded.describe(), "计算图未加载");
    assert_eq!(InferenceError::CudaUnavailable.describe(), "CUDA 后端不可用");
    assert_eq!(
        InferenceError::TensorError(TensorError::InvalidCast).describe(),
        "张量错误: 不支持的类型转换"
    );
}

#[test]
fn a_graph_of_inputs_only_runs() {
    let mut graph = rust_ai_inference_engine::engine::graph::Graph::new();
    graph
        .add_node(rust_ai_inference_engine::engine::graph::Node::new(
            "x",
            NodeType::Input { name: "x".into(), dtype: "f32".into(), shape: vec![2] },
        ))
        .unwrap();
    graph.topological_sort().unwrap();
    let mut engine = engine();
    engine.load_graph(graph);
    engine.set_input("x", Tensor::from_vec(vec![1.0, 2.0], &[2]).unwrap()).unwrap();
    assert!(engine.run().is_ok());
    assert_eq!(engine.get_outputs().len(), 0);
    assert_eq!(engine.last_stats().unwrap().nodes_executed, 1);
}

#[test]
fn a_node_reading_one_value_twice_gets_it_twice() {
    let mut builder = GraphBuilder::new();
    builder.input("a", "f32", vec![2]).unwrap();
    builder.add("s", "a", "a").unwrap();
    builder.output("y", "s").unwrap();
    let mut engine = engine();
    engine.load_graph(builder.build().unwrap());
    engine.set_input("a", Tensor::from_vec(vec![1.0, 3.0], &[2]).unwrap()).unwrap();
    engine.run().unwrap();
    assert_eq!(engine.get_output(Some("y")).unwrap().to_vec(), vec![2.0, 6.0]);
}

#[test]
fn a_failed_run_keeps_the_earlier_outputs() {
    let mut engine = engine();
    engine.load_graph(relu_graph());
    engine.set_input("x", Tensor::from_vec(vec![-1.0, 0.0, 1.0, 2.0], &[1, 4]).unwrap()).unwrap();
    engine.run().unwrap();
    engine.load_graph(mismatched_graph());
    engine.set_input("a", Tensor::from_vec(vec![1.0, 2.0], &[1, 2]).unwrap()).unwrap();
    engine.set_input("b", Tensor::from_vec(vec![1.0, 2.0, 3.0], &[1, 3]).unwrap()).unwrap();
    assert!(matches!(engine.run(), Err(InferenceError::ExecutionFailed(_))));
    assert!(engine.get_outputs().is_empty());
    assert_eq!(engine.last_stats().unwrap().nodes_executed, 3);
}

#[test]
fn engine_starts_without_outputs_or_statistics() {
    let engine = engine();
    assert!(engine.get_outputs().is_empty());
    assert!(engine.last_stats().is_none());
    assert_eq!(engine.engine_info().backend, engine.backend_name());
}

#[test]
fn test_engine_with_sample_graph() {
    let mut engine = engine();

    let mut builder = GraphBuilder::new();
    let input_id = builder.input("x", "f32", vec![1, 4]).unwrap();
    let dense_id = builder.dense("fc1", 4, 2, &input_id, true).unwrap();
    let relu_id = builder.relu("relu1", &dense_id).unwrap();
    let _output = builder.output("y", &relu_id).unwrap();

    let graph = builder.build().unwrap();
    engine.load_graph(graph);

    let input = Tensor::from_vec(vec![1.0, 2.0, 3.0, 4.0], &[1, 4]).unwrap();
    engine.set_input("x", input).unwrap();

    engine.run().unwrap();

    let output = engine.get_output(Some("y")).unwrap();
    assert_eq!(output.shape(), &[1, 2]);

    let stats = engine.last_stats().unwrap();
    assert!(stats.total_time_ns > 0);
    assert_eq!(stats.nodes_executed, 4);
}

#[test]
fn responses_follow_the_outcome_of_the_run() {
    let mut engine = engine();
    engine.load_graph(relu_graph());
    let err = respond(&engine, Err(InferenceError::GraphNotLoaded), None).unwrap_err();
    assert_eq!(err.error, "推理执行失败");
    assert_eq!(err.detail.as_deref(), Some("计算图未加载"));
    let err = respond(&engine, Ok(()), None).unwrap_err();
    assert_eq!(err.error, "获取输出失败");
    assert_eq!(err.detail.as_deref(), Some("推理执行失败: 没有可用的输出"));
    engine.set_input("x", Tensor::from_vec(vec![-2.0, 3.0], &[1, 2]).unwrap()).unwrap();
    engine.run().unwrap();
    let resp = respond(&engine, Ok(()), Some("y".to_string())).unwrap();
    assert_eq!(resp.output_data, vec![0.0, 3.0]);
    assert_eq!(resp.output_shape, vec![1, 2]);
    assert_eq!(resp.backend, "CPU (ndarray)");
    assert_eq!(resp.inference_time_ns, engine.last_stats().unwrap().total_time_ns);
    let err = respond(&engine, Ok(()), Some("z".to_string())).unwrap_err();
    assert_eq!(err.error, "获取输出失败");
    assert_eq!(err.detail.as_deref(), Some("输出名称未找到: z"));
}

#[test]
fn the_cpu_backend_refuses_shapes_out_of_range() {
    let backend = CpuCompute { cpu: CpuBackend::<f32>::new(), kernels: TestKernels };
    let scalar = Tensor::from_vec(vec![1.0], &[]).unwrap();
    match backend.forward(&NodeType::Softmax { axis: -1 }, &[scalar], &[]) {
        Err(TensorError::OperationFailed(m)) => assert_eq!(m, "形状超出可计算范围"),
        _ => panic!("a softmax over a scalar is out of range"),
    }
    assert_eq!(backend.name(), "CPU (ndarray)");
}
