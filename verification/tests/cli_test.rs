use rust_ai_inference_engine::text::usize_text;
use rust_ai_inference_engine::cli::{benchmark_graph, parse_log_level, LogLevel};
use rust_ai_inference_engine::engine::graph::NodeType;
use rust_ai_inference_engine::engine::tensor::Tensor;
use rust_ai_inference_engine::backend::BackendType;

#[test]
fn log_levels() {
    assert_eq!(parse_log_level("trace"), LogLevel::Trace);
    assert_eq!(parse_log_level("DEBUG"), LogLevel::Debug);
    assert_eq!(parse_log_level("Warn"), LogLevel::Warn);
    assert_eq!(parse_log_level("error"), LogLevel::Error);
    assert_eq!(parse_log_level("info"), LogLevel::Info);
    assert_eq!(parse_log_level("verbose"), LogLevel::Info);
}

#[test]
fn benchmark_graph_is_a_chain() {
    let graph = benchmark_graph(32);
    let ids: Vec<&str> = graph.nodes().iter().map(|n| n.id.as_str()).collect();
    assert_eq!(
        ids,
        vec![
            "input", "layer_0", "relu_0", "layer_1", "relu_1", "layer_2", "relu_2", "layer_3",
            "relu_3", "output"
        ]
    );
    assert_eq!(graph.execution_order(), &[0, 1, 2, 3, 4, 5, 6, 7, 8, 9]);
    match &graph.nodes()[1].node_type {
        NodeType::Dense { in_features, out_features, has_bias, .. } => {
            assert_eq!((*in_features, *out_features, *has_bias), (32, 32, true));
        }
        _ => panic!("layer_0 is dense"),
    }
    assert_eq!(graph.nodes()[2].inputs, vec!["layer_0".to_string()]);
}

#[test]
fn transposing_twice_restores_the_matrix() {
    let t = Tensor::from_vec(vec![1, 2, 3, 4, 5, 6], &[3, 2]).unwrap();
    let back = t.transpose().unwrap().transpose().unwrap();
    assert_eq!(back.shape(), t.shape());
    assert_eq!(back.to_vec(), t.to_vec());
}

#[test]
fn backend_text_parses_back() {
    for b in [BackendType::Cpu, BackendType::Cuda] {
        assert_eq!(BackendType::parse(&b.as_text()), Ok(b));
    }
}

#[test]
fn benchmark_graph_node_types() {
    let graph = benchmark_graph(16);
    match &graph.nodes()[0].node_type {
        NodeType::Input { name, dtype, shape } => {
            assert_eq!(name, "input");
            assert_eq!(dtype, "f32");
            assert_eq!(shape, &vec![1, 16]);
        }
        _ => panic!("the first node is the input"),
    }
    for k in 0..4 {
        assert!(matches!(graph.nodes()[2 * k + 1].node_type, NodeType::Dense { .. }));
        assert_eq!(
            graph.nodes()[2 * k + 1].param_names,
            vec![format!("layer_{}.weight", k), format!("layer_{}.bias", k)]
        );
        assert!(matches!(graph.nodes()[2 * k + 2].node_type, NodeType::ReLU));
    }
    assert!(matches!(graph.nodes()[9].node_type, NodeType::Output { .. }));
}

#[test]
fn decimal_text_of_integers() {
    assert_eq!(usize_text(0), "0");
    assert_eq!(usize_text(7), "7");
    assert_eq!(usize_text(10), "10");
    assert_eq!(usize_text(1234), "1234");
    assert_eq!(usize_text(usize::MAX), usize::MAX.to_string());
}
