use rust_ai_inference_engine::engine::graph::{GraphError, NodeType};
use rust_ai_inference_engine::model::onnx_loader::{
    supported_onnx_ops, JsonField, JsonNode, JsonScalar, OnnxAttribute, OnnxLoadError, OnnxLoader,
    OnnxNode,
};

fn scalar(v: &serde_json::Value) -> JsonScalar {
    match v {
        serde_json::Value::Null => JsonScalar::Null,
        serde_json::Value::Bool(b) => JsonScalar::Bool(*b),
        serde_json::Value::Number(n) => JsonScalar::Number((n.as_f64().unwrap() as f32 as f64).to_bits()),
        serde_json::Value::String(s) => JsonScalar::Str(s.clone()),
        serde_json::Value::Array(_) => JsonScalar::Array,
        serde_json::Value::Object(_) => JsonScalar::Object,
    }
}

fn field(v: &serde_json::Value) -> JsonField {
    match v {
        serde_json::Value::Array(a) => JsonField::Array(a.iter().map(scalar).collect()),
        serde_json::Value::Object(o) => {
            JsonField::Object(o.iter().map(|(k, x)| (k.clone(), scalar(x))).collect())
        }
        other => JsonField::Scalar(scalar(other)),
    }
}

fn parse_nodes(json: &str) -> Vec<JsonNode> {
    let values: Vec<serde_json::Value> = serde_json::from_str(json).unwrap();
    values
        .iter()
        .map(|v| JsonNode {
            members: match v {
                serde_json::Value::Object(o) => o.iter().map(|(k, x)| (k.clone(), field(x))).collect(),
                _ => Vec::new(),
            },
        })
        .collect()
}

fn node(op: &str, name: &str, inputs: &[&str], outputs: &[&str]) -> OnnxNode {
    OnnxNode {
        op_type: op.to_string(),
        name: name.to_string(),
        inputs: inputs.iter().map(|s| s.to_string()).collect(),
        outputs: outputs.iter().map(|s| s.to_string()).collect(),
        attributes: Vec::new(),
    }
}

#[test]
fn test_supported_ops() {
    let ops = supported_onnx_ops();
    assert!(ops.contains(&"MatMul"));
    assert!(ops.contains(&"Relu"));
    assert!(ops.contains(&"Softmax"));
}

#[test]
fn test_onnx_loader_creation() {
    let loader = OnnxLoader::new();
    assert!(loader.nodes().is_empty());
}

#[test]
fn test_op_type_conversion() {
    let loader = OnnxLoader::new();
    assert!(matches!(loader.convert_op_type("MatMul", "test", &Vec::new()), Ok(NodeType::MatMul)));
    assert!(matches!(loader.convert_op_type("Relu", "test", &Vec::new()), Ok(NodeType::ReLU)));
    assert!(matches!(loader.convert_op_type("Add", "test", &Vec::new()), Ok(NodeType::Add)));
}

#[test]
fn test_unsupported_op() {
    let loader = OnnxLoader::new();
    let result = loader.convert_op_type("CustomOp", "test", &Vec::new());
    assert!(result.is_err());
}

#[test]
fn test_load_from_json() {
    let json = r#"
    [
        {"op_type": "MatMul", "name": "mm1", "inputs": ["a", "b"], "outputs": ["c"], "attributes": {}},
        {"op_type": "Add", "name": "add1", "inputs": ["c", "d"], "outputs": ["e"], "attributes": {}},
        {"op_type": "Relu", "name": "relu1", "inputs": ["e"], "outputs": ["f"], "attributes": {}}
    ]
    "#;
    let loader = OnnxLoader::load_from_json_nodes(parse_nodes(json));
    assert_eq!(loader.nodes().len(), 3);
    assert_eq!(loader.model_info().node_count, 3);
}

#[test]
fn test_onnx_loader_basic() {
    let mut loader = OnnxLoader::new();
    loader.add_input("input", "f32", vec![1, 10]);
    loader.add_output("output");
    loader.add_node(node("MatMul", "mm1", &["input", "w1"], &["hidden"]));
    loader.add_node(node("Add", "add1", &["hidden", "b1"], &["output"]));
    assert_eq!(loader.nodes().len(), 2);
    assert_eq!(loader.inputs().len(), 1);
    assert_eq!(loader.outputs().len(), 1);
}

#[test]
fn test_onnx_load_from_json() {
    let json = r#"
    [
        {"op_type": "Relu", "name": "relu1", "inputs": ["x"], "outputs": ["y"], "attributes": {}}
    ]
    "#;
    let loader = OnnxLoader::load_from_json_nodes(parse_nodes(json));
    assert_eq!(loader.nodes().len(), 1);
    assert_eq!(loader.nodes()[0].op_type, "Relu");
}

#[test]
fn test_graph_cycle_detection() {
    let mut loader = OnnxLoader::new();
    loader.add_input("a", "f32", vec![1, 4]);
    loader.add_output("a");
    loader.add_node(node("Add", "cycle", &["a"], &["a"]));
    // the output name `a` is already taken by the graph input
    match loader.into_graph() {
        Err(OnnxLoadError::GraphBuildFailed(GraphError::BuildFailed(m))) => {
            assert_eq!(m, "节点 ID 'a' 已存在")
        }
        _ => panic!("the output may not reuse the input's identifier"),
    }
}

#[test]
fn into_graph_wires_producers_and_skips_initialisers() {
    let mut loader = OnnxLoader::new();
    loader.add_input("input", "f32", vec![1, 10]);
    loader.add_output("output");
    loader.add_node(node("MatMul", "mm1", &["input", "w1"], &["hidden"]));
    loader.add_node(node("Add", "add1", &["hidden", "b1"], &["output"]));
    let graph = loader.into_graph().unwrap();
    let ids: Vec<&str> = graph.nodes().iter().map(|n| n.id.as_str()).collect();
    assert_eq!(ids, vec!["input", "mm1", "add1", "output"]);
    assert_eq!(graph.get_node("mm1").unwrap().inputs, vec!["input".to_string()]);
    assert_eq!(graph.get_node("add1").unwrap().inputs, vec!["mm1".to_string()]);
    assert_eq!(graph.get_node("output").unwrap().inputs, vec!["add1".to_string()]);
    assert_eq!(graph.execution_order(), &[0, 1, 2, 3]);
}

#[test]
fn into_graph_reports_first_unsupported_operator() {
    let mut loader = OnnxLoader::new();
    loader.add_input("x", "f32", vec![2]);
    loader.add_node(node("Relu", "r", &["x"], &["y"]));
    loader.add_node(node("Mystery", "m", &["y"], &["z"]));
    loader.add_output("z");
    match loader.into_graph() {
        Err(OnnxLoadError::UnsupportedOpType(op)) => assert_eq!(op, "Mystery"),
        _ => panic!("an unknown operator must be refused"),
    }
}

#[test]
fn into_graph_output_without_producer_reads_nothing() {
    let mut loader = OnnxLoader::new();
    loader.add_input("x", "f32", vec![2]);
    loader.add_node(node("Relu", "r", &["x"], &["y"]));
    loader.add_output("nowhere");
    match loader.into_graph() {
        Err(OnnxLoadError::GraphBuildFailed(GraphError::InvalidEdge { from, to })) => {
            assert_eq!(from, "");
            assert_eq!(to, "nowhere");
        }
        _ => panic!("an output without producer names the empty identifier"),
    }
}

#[test]
fn conversion_reads_attributes() {
    let loader = OnnxLoader::new();
    let attrs = vec![
        ("kernel_shape".to_string(), OnnxAttribute::Ints(vec![5, 7])),
        ("strides".to_string(), OnnxAttribute::Ints(vec![2])),
    ];
    match loader.convert_op_type("Conv", "c1", &attrs).unwrap() {
        NodeType::Conv2D { name, kernel_size, stride, padding, in_channels, out_channels } => {
            assert_eq!(name, "c1");
            assert_eq!(kernel_size, (5, 7));
            assert_eq!(stride, (1, 1));
            assert_eq!(padding, (0, 0));
            assert_eq!((in_channels, out_channels), (0, 0));
        }
        _ => panic!("Conv maps onto a convolution"),
    }
    let attrs = vec![("axis".to_string(), OnnxAttribute::Int(1))];
    assert!(matches!(loader.convert_op_type("Softmax", "s", &attrs), Ok(NodeType::Softmax { axis: 1 })));
    assert!(matches!(loader.convert_op_type("Softmax", "s", &Vec::new()), Ok(NodeType::Softmax { axis: -1 })));
    match loader.convert_op_type("LayerNormalization", "ln", &attrs).unwrap() {
        NodeType::LayerNorm { normalized_shape, epsilon_bits } => {
            assert_eq!(normalized_shape, vec![1]);
            assert_eq!(f64::from_bits(epsilon_bits), 1e-5);
        }
        _ => panic!("LayerNormalization maps onto a layer normalisation"),
    }
    let eps = vec![("epsilon".to_string(), OnnxAttribute::Float((1e-3f32 as f64).to_bits()))];
    match loader.convert_op_type("LayerNormalization", "ln", &eps).unwrap() {
        NodeType::LayerNorm { normalized_shape, epsilon_bits } => {
            assert!(normalized_shape.is_empty());
            assert_eq!(f64::from_bits(epsilon_bits), 1e-3f32 as f64);
        }
        _ => panic!("LayerNormalization maps onto a layer normalisation"),
    }
    let heads = vec![("num_heads".to_string(), OnnxAttribute::Int(12))];
    assert!(matches!(
        loader.convert_op_type("Attention", "a", &heads),
        Ok(NodeType::MultiHeadAttention { num_heads: 12, head_dim: 0 })
    ));
    match loader.convert_op_type("Dropout", "d", &Vec::new()).unwrap() {
        NodeType::Dropout { rate_bits } => assert_eq!(f64::from_bits(rate_bits), 0.1),
        _ => panic!("Dropout maps onto dropout"),
    }
    match loader.convert_op_type("Transpose", "t", &Vec::new()).unwrap() {
        NodeType::Reshape { target_shape } => assert_eq!(target_shape, vec![-1]),
        _ => panic!("Transpose maps onto a reshape"),
    }
    match loader.convert_op_type("Mystery", "m", &Vec::new()) {
        Err(OnnxLoadError::UnsupportedOpType(op)) => assert_eq!(op, "Mystery"),
        _ => panic!("an unknown operator must be refused"),
    }
    // a later attribute of the same name takes precedence
    let twice = vec![
        ("axis".to_string(), OnnxAttribute::Int(0)),
        ("axis".to_string(), OnnxAttribute::Int(2)),
    ];
    assert!(matches!(loader.convert_op_type("Softmax", "s", &twice), Ok(NodeType::Softmax { axis: 2 })));
}

#[test]
fn every_listed_operator_converts() {
    let loader = OnnxLoader::new();
    for op in supported_onnx_ops() {
        assert!(loader.convert_op_type(op, "n", &Vec::new()).is_ok(), "{}", op);
    }
    assert_eq!(supported_onnx_ops().len(), 18);
}

#[test]
fn json_nodes_take_defaults_and_attributes() {
    let json = r#"
    [
        {"inputs": ["a", 3, "b"], "attributes": {"epsilon": 0.001, "mode": "x", "flag": true}},
        5
    ]
    "#;
    let loader = OnnxLoader::load_from_json_nodes(parse_nodes(json));
    let nodes = loader.nodes();
    assert_eq!(nodes.len(), 2);
    assert_eq!(nodes[0].op_type, "Unknown");
    assert_eq!(nodes[0].name, "unnamed");
    assert_eq!(nodes[0].inputs, vec!["a".to_string(), "b".to_string()]);
    assert!(nodes[0].outputs.is_empty());
    assert_eq!(nodes[0].attributes.len(), 2);
    for (k, v) in &nodes[0].attributes {
        match (k.as_str(), v) {
            ("epsilon", OnnxAttribute::Float(b)) => assert_eq!(f64::from_bits(*b), 0.001f32 as f64),
            ("mode", OnnxAttribute::String(s)) => assert_eq!(s, "x"),
            _ => panic!("unexpected attribute {}", k),
        }
    }
    assert_eq!(nodes[1].name, "unnamed");
    assert_eq!(loader.model_info().node_count, 2);
}

#[test]
fn load_from_bytes_checks_size() {
    match OnnxLoader::load_from_bytes(&[1, 2, 3], Some("m".to_string())) {
        Err(OnnxLoadError::ParseError(m)) => assert_eq!(m, "文件太小，不是有效的 ONNX 模型"),
        _ => panic!("a file under four bytes must be refused"),
    }
    let loader = OnnxLoader::load_from_bytes(&[1, 2, 3, 4], Some("model".to_string())).unwrap();
    assert_eq!(loader.model_info().graph_name.as_deref(), Some("model"));
    assert_eq!(loader.model_info().node_count, 0);
    assert!(loader.nodes().is_empty());
}

#[test]
fn initialisers_are_kept_by_name() {
    let mut loader = OnnxLoader::default();
    loader.add_initializer("w", vec![1.0f32.to_bits()]);
    loader.add_initializer("w", vec![2.0f32.to_bits()]);
    assert!(loader.nodes().is_empty());
}

#[test]
fn onnx_error_texts() {
    assert_eq!(OnnxLoadError::UnsupportedOpType("X".to_string()).describe(), "不支持的 ONNX 算子: X");
    assert_eq!(
        OnnxLoadError::GraphBuildFailed(GraphError::CycleDetected).describe(),
        "计算图构建失败: 循环依赖检测到"
    );
    assert_eq!(OnnxLoadError::IoError("e".to_string()).describe(), "I/O 错误: e");
}
