use rust_ai_inference_engine::api::server::sample_graph;
use rust_ai_inference_engine::engine::graph::{Graph, GraphBuilder, GraphError, Node, NodeType};

#[test]
fn test_build_simple_graph() {
    let mut builder = GraphBuilder::new();
    let input_id = builder.input("input", "f32", vec![1, 10]).unwrap();
    let dense_id = builder.dense("fc1", 10, 5, &input_id, true).unwrap();
    let relu_id = builder.relu("relu1", &dense_id).unwrap();
    let _output_id = builder.output("output", &relu_id).unwrap();

    let graph = builder.build().unwrap();
    assert_eq!(graph.node_count(), 4);
    assert_eq!(graph.execution_order().len(), 4);
}

#[test]
fn test_topological_order() {
    let mut builder = GraphBuilder::new();
    let a = builder.input("a", "f32", vec![1, 4]).unwrap();
    let b = builder.input("b", "f32", vec![1, 4]).unwrap();
    let add_id = builder.add("add1", &a, &b).unwrap();
    let _output = builder.output("out", &add_id).unwrap();

    let graph = builder.build().unwrap();
    let order = graph.execution_order();
    let a_idx = order.iter().position(|&i| graph.nodes()[i].id == "a").unwrap();
    let b_idx = order.iter().position(|&i| graph.nodes()[i].id == "b").unwrap();
    let add_idx = order.iter().position(|&i| graph.nodes()[i].id == "add1").unwrap();
    assert!(a_idx < add_idx);
    assert!(b_idx < add_idx);
}

#[test]
fn test_cycle_detection() {
    let mut graph = Graph::new();
    graph.add_node(Node::new("a", NodeType::ReLU).with_input("b")).unwrap();
    graph.add_node(Node::new("b", NodeType::ReLU).with_input("a")).unwrap();

    let result = graph.topological_sort();
    assert!(result.is_err());
}

#[test]
fn test_simple_dense_graph() {
    let mut builder = GraphBuilder::new();
    let input_id = builder.input("input", "f32", vec![1, 4]).unwrap();
    let dense_id = builder.dense("fc1", 4, 3, &input_id, true).unwrap();
    let relu_id = builder.relu("relu1", &dense_id).unwrap();
    let _output = builder.output("output", &relu_id).unwrap();

    let graph = builder.build().unwrap();
    assert_eq!(graph.node_count(), 4);
    assert_eq!(graph.input_ids().len(), 1);
    assert_eq!(graph.output_ids().len(), 1);
}

#[test]
fn layered_graph_counts_every_node() {
    let mut builder = GraphBuilder::new();
    let input_id = builder.input("x", "f32", vec![1, 8]).unwrap();
    let mut current = input_id;
    for i in 0..3 {
        let dense = builder.dense(&format!("fc{}", i), 8, 8, &current, true).unwrap();
        let relu = builder.relu(&format!("relu{}", i), &dense).unwrap();
        current = relu;
    }
    let _output = builder.output("y", &current).unwrap();
    let graph = builder.build().unwrap();
    // one input, three dense and three ReLU layers, one output
    assert_eq!(graph.node_count(), 1 + 3 * 2 + 1);
}

#[test]
fn test_graph_with_matmul_and_add() {
    let mut builder = GraphBuilder::new();
    let a_id = builder.input("a", "f32", vec![1, 4]).unwrap();
    let b_id = builder.input("b", "f32", vec![1, 4]).unwrap();

    let matmul_id = builder.matmul("mm", &a_id, &b_id).unwrap();
    let add_id = builder.add("add", &matmul_id, &a_id).unwrap();
    let _output = builder.output("out", &add_id).unwrap();

    let graph = builder.build().unwrap();
    assert_eq!(graph.node_count(), 5);
}

#[test]
fn test_empty_graph_rejection() {
    let builder = GraphBuilder::new();
    let result = builder.build();
    assert!(result.is_err());
}

#[test]
fn duplicate_identifier_is_refused() {
    let mut builder = GraphBuilder::new();
    builder.input("x", "f32", vec![2]).unwrap();
    match builder.relu("x", "x") {
        Err(GraphError::BuildFailed(m)) => assert_eq!(m, "节点 ID 'x' 已存在"),
        _ => panic!("a taken identifier must be refused"),
    }
}

#[test]
fn dangling_edge_is_reported() {
    let mut builder = GraphBuilder::new();
    builder.input("x", "f32", vec![2]).unwrap();
    builder.relu("r", "missing").unwrap();
    builder.output("y", "r").unwrap();
    match builder.build() {
        Err(GraphError::InvalidEdge { from, to }) => {
            assert_eq!(from, "missing");
            assert_eq!(to, "r");
        }
        _ => panic!("the unresolved input must be reported"),
    }
}

#[test]
fn missing_input_and_output_nodes_are_reported() {
    let mut builder = GraphBuilder::new();
    builder.relu("r", "r0").unwrap();
    builder.relu("r0", "r").unwrap();
    match builder.build() {
        Err(GraphError::BuildFailed(m)) => assert_eq!(m, "计算图缺少输入节点"),
        _ => panic!("a graph without input must be refused"),
    }
    let mut builder = GraphBuilder::new();
    builder.input("x", "f32", vec![2]).unwrap();
    match builder.build() {
        Err(GraphError::BuildFailed(m)) => assert_eq!(m, "计算图缺少输出节点"),
        _ => panic!("a graph without output must be refused"),
    }
}

#[test]
fn cycle_behind_valid_edges_is_detected_by_build() {
    let mut builder = GraphBuilder::new();
    builder.input("x", "f32", vec![2]).unwrap();
    builder.add("a", "x", "b").unwrap();
    builder.relu("b", "a").unwrap();
    builder.output("y", "b").unwrap();
    assert!(matches!(builder.build(), Err(GraphError::CycleDetected)));
}

#[test]
fn execution_order_respects_every_edge() {
    let mut builder = GraphBuilder::new();
    builder.output("y", "c").unwrap();
    builder.relu("c", "b").unwrap();
    builder.relu("b", "a").unwrap();
    builder.input("a", "f32", vec![3]).unwrap();
    let graph = builder.build().unwrap();
    let order = graph.execution_order();
    let ids: Vec<&str> = order.iter().map(|&i| graph.nodes()[i].id.as_str()).collect();
    assert_eq!(ids, vec!["a", "b", "c", "y"]);
}

#[test]
fn node_type_labels() {
    assert_eq!(NodeType::ReLU.label(), "ReLU");
    assert_eq!(NodeType::Output { name: "o".to_string() }.label(), "Output(o)");
    assert_eq!(NodeType::Softmax { axis: -1 }.label(), "Softmax");
}

#[test]
fn graph_error_texts() {
    assert_eq!(GraphError::CycleDetected.describe(), "循环依赖检测到");
    assert_eq!(GraphError::NodeNotFound("n".to_string()).describe(), "节点未找到: n");
    assert_eq!(
        GraphError::InvalidEdge { from: "a".to_string(), to: "b".to_string() }.describe(),
        "无效的边连接: 从 a 到 b"
    );
    assert_eq!(GraphError::BuildFailed("m".to_string()).describe(), "图构建失败: m");
}

#[test]
fn dense_layer_names_its_parameters() {
    let mut builder = GraphBuilder::new();
    builder.input("x", "f32", vec![1, 2]).unwrap();
    builder.dense("fc", 2, 3, "x", true).unwrap();
    builder.dense("fc_nb", 3, 3, "fc", false).unwrap();
    builder.output("y", "fc_nb").unwrap();
    let graph = builder.build().unwrap();
    let fc = graph.get_node("fc").unwrap();
    assert_eq!(fc.param_names, vec!["fc.weight".to_string(), "fc.bias".to_string()]);
    let nb = graph.get_node("fc_nb").unwrap();
    assert_eq!(nb.param_names, vec!["fc_nb.weight".to_string()]);
    assert!(graph.get_node("absent").is_none());
}

#[test]
fn sample_graph_is_ordered() {
    let graph = sample_graph();
    let ids: Vec<&str> = graph.nodes().iter().map(|n| n.id.as_str()).collect();
    assert_eq!(ids, vec!["input", "fc1", "relu1", "output"]);
    assert_eq!(graph.execution_order(), &[0, 1, 2, 3]);
    assert_eq!(graph.input_ids(), &["input".to_string()]);
    assert_eq!(graph.output_ids(), &["output".to_string()]);
}

#[test]
fn a_node_reading_one_input_twice_is_ordered() {
    let mut g = Graph::new();
    g.add_node(Node::new("a", NodeType::Input { name: "a".into(), dtype: "f32".into(), shape: vec![1, 4] }))
        .unwrap();
    g.add_node(Node::new("s", NodeType::Add).with_input("a").with_input("a")).unwrap();
    assert!(g.topological_sort().is_ok());
    assert_eq!(g.execution_order(), &[0, 1]);
}

#[test]
fn ready_nodes_are_placed_first_come_first_served() {
    let mut g = Graph::new();
    let input = |name: &str| Node::new(name, NodeType::Input { name: name.into(), dtype: "f32".into(), shape: vec![1] });
    g.add_node(input("a")).unwrap();
    g.add_node(input("b")).unwrap();
    g.add_node(Node::new("c", NodeType::ReLU).with_input("b")).unwrap();
    g.add_node(Node::new("d", NodeType::ReLU).with_input("a")).unwrap();
    g.topological_sort().unwrap();
    assert_eq!(g.execution_order(), &[0, 1, 3, 2]);
}
