use rust_ai_inference_engine::engine::graph::{GraphBuilder, NodeType};
use rust_ai_inference_engine::model::transformer::{
    compute_model_stats, Attention, Embedding, FeedForward, TransformerConfig, TransformerEncoder,
};

#[test]
fn transformer_test_transformer_config() {
    let config = TransformerConfig::small();
    assert_eq!(config.d_model, 64);
    assert_eq!(config.head_dim(), 16);
    assert!(config.validate().is_ok());
}

#[test]
fn test_transformer_config_validation() {
    let mut config = TransformerConfig::default();
    config.n_heads = 3;
    config.d_model = 10;
    assert!(config.validate().is_err());
}

#[test]
fn test_attention_creation() {
    let attn = Attention::new(64, 4).unwrap();
    assert_eq!(attn.num_heads(), 4);
    assert_eq!(attn.head_dim(), 16);
}

#[test]
fn test_model_stats() {
    let config = TransformerConfig::small();
    let stats = compute_model_stats(&config);
    assert!(stats.total_params > 0);
    assert_eq!(stats.total_params, stats.trainable_params);
}

#[test]
fn transformer_test_transformer_encoder_creation() {
    let config = TransformerConfig::small();
    let encoder = TransformerEncoder::new(config).unwrap();
    assert_eq!(encoder.blocks().len(), 2);
}

#[test]
fn integration_test_test_transformer_config() {
    let config = TransformerConfig::small();
    assert!(config.validate().is_ok());
    assert_eq!(config.head_dim(), 16);
}

#[test]
fn integration_test_test_transformer_encoder_creation() {
    let config = TransformerConfig::small();
    let encoder = TransformerEncoder::new(config).unwrap();
    assert_eq!(encoder.config().n_layers, 2);
}

#[test]
fn test_model_stats_calculation() {
    let config = TransformerConfig::small();
    let stats = compute_model_stats(&config);
    assert!(stats.total_params > 0);
    assert_eq!(stats.total_params, stats.trainable_params);
    assert!(!stats.layer_stats.is_empty());
}

#[test]
fn model_stats_exact_counts() {
    let config = TransformerConfig::small();
    let stats = compute_model_stats(&config);
    // 2 embeddings, 16 tensors per block, a final norm of 2
    assert_eq!(stats.layer_stats.len(), 2 + 16 * 2 + 2);
    // embeddings: 1000*64 + 32*64; per block: 4*(64*64+64) + 2*(64+64) + (64*128+128) + (128*64+64); final: 128
    let block = 4 * (64 * 64 + 64) + 2 * (64 + 64) + (64 * 128 + 128) + (128 * 64 + 64);
    assert_eq!(stats.total_params, 1000 * 64 + 32 * 64 + 2 * block + 128);
    let sum: usize = stats.layer_stats.iter().map(|l| l.params).sum();
    assert_eq!(sum, stats.total_params);
    assert_eq!(stats.layer_stats[0].name, "token_embedding");
    assert_eq!(stats.layer_stats[0].shape, vec![1000, 64]);
}

#[test]
fn config_validation_messages() {
    let mut c = TransformerConfig::small();
    c.d_model = 10;
    c.n_heads = 3;
    assert_eq!(c.validate().unwrap_err(), "d_model (10) 必须能被 n_heads (3) 整除");
    let mut c = TransformerConfig::small();
    c.n_layers = 0;
    assert_eq!(c.validate().unwrap_err(), "n_layers 不能为 0");
    let mut c = TransformerConfig::small();
    c.d_model = 0;
    assert_eq!(c.validate().unwrap_err(), "d_model 不能为 0");
}

#[test]
fn attention_rejects_indivisible_heads() {
    assert!(Attention::new(10, 3).is_err());
}

#[test]
fn feed_forward_and_embedding() {
    let _ffn = FeedForward::new(64, 128, true);
    let e = Embedding::new(100, 32);
    assert_eq!(e.vocab_size(), 100);
    assert_eq!(e.embed_dim(), 32);
}

#[test]
fn encoder_graph_builds() {
    let encoder = TransformerEncoder::new(TransformerConfig::small()).unwrap();
    let mut builder = GraphBuilder::new();
    encoder.build_graph(&mut builder, "tokens", "hidden").unwrap();
    let graph = builder.build().unwrap();
    // input, token embedding, position input, position embedding, sum,
    // 12 per block, final norm, output
    assert_eq!(graph.node_count(), 5 + 12 * 2 + 2);
    assert_eq!(graph.execution_order().len(), graph.node_count());
}

#[test]
fn attention_graph_builds() {
    let mut config = TransformerConfig::small();
    config.d_model = 8;
    config.n_heads = 2;
    let mut builder = GraphBuilder::new();
    builder.input("x", "f32", vec![1, 4, 8]).unwrap();
    let ids = Attention::build_graph(&mut builder, "attn", "x", &config).unwrap();
    assert_eq!(ids.len(), 5);
    builder.output("y", ids.last().unwrap()).unwrap();
    let graph = builder.build().unwrap();
    assert!(graph.node_count() > 3);
}

#[test]
fn initial_parameters_follow_the_counts() {
    let encoder = TransformerEncoder::new(TransformerConfig::small()).unwrap();
    let params = encoder.init_params(0i32, 1, 7, 9);
    let stats = compute_model_stats(encoder.config());
    assert_eq!(params.len(), stats.layer_stats.len());
    assert_eq!(params[0].0, "token_embedding.weight");
    assert_eq!(params[1].0, "pos_embedding.weight");
    assert!(params[0].1.to_vec().iter().all(|&v| v == 7));
    assert!(params[1].1.to_vec().iter().all(|&v| v == 9));
    for (i, (name, t)) in params.iter().enumerate() {
        assert_eq!(t.shape(), stats.layer_stats[i].shape.as_slice());
        let one = name.ends_with("norm1.weight") || name.ends_with("norm2.weight") || name == "final_norm.weight";
        if i >= 2 {
            assert_eq!(name, &stats.layer_stats[i].name);
            let expected = if one { 1 } else { 0 };
            assert!(t.to_vec().iter().all(|&v| v == expected), "{}", name);
        }
    }
    assert_eq!(params[10].0, "block_0.norm1.weight");
}

#[test]
fn embedding_table_is_filled() {
    let table = Embedding::new(100, 32).init_weights(0.5f32);
    assert_eq!(table.shape(), &[100, 32]);
    assert!(table.to_vec().iter().all(|&v| v == 0.5));
}

#[test]
fn encoder_graph_refuses_a_taken_name() {
    let encoder = TransformerEncoder::new(TransformerConfig::small()).unwrap();
    let mut builder = GraphBuilder::new();
    assert!(encoder.build_graph(&mut builder, "tokens", "final_norm").is_err());
    let mut builder = GraphBuilder::new();
    builder.input("embed_sum", "f32", vec![1]).unwrap();
    assert!(encoder.build_graph(&mut builder, "tokens", "hidden").is_err());
}

#[test]
fn test_embedding_weights() {
    let embed = Embedding::new(100, 32);
    let weights = embed.init_weights(0.0f32);
    assert_eq!(weights.shape(), &[100, 32]);
}

#[test]
fn initial_parameters_have_distinct_names_and_the_counted_size() {
    let encoder = TransformerEncoder::new(TransformerConfig::small()).unwrap();
    let params = encoder.init_params(0i32, 1, 7, 9);
    let mut names: Vec<&str> = params.iter().map(|(n, _)| n.as_str()).collect();
    names.sort();
    names.dedup();
    assert_eq!(names.len(), params.len());
    let total: usize = params.iter().map(|(_, t)| t.len()).sum();
    assert_eq!(total, compute_model_stats(encoder.config()).total_params);
}

#[test]
fn encoder_graph_node_types() {
    let mut config = TransformerConfig::small();
    config.use_gelu = false;
    let encoder = TransformerEncoder::new(config).unwrap();
    let mut builder = GraphBuilder::new();
    encoder.build_graph(&mut builder, "tokens", "hidden").unwrap();
    let graph = builder.build().unwrap();
    let nodes = graph.nodes();
    match &nodes[2].node_type {
        NodeType::Input { name, dtype, shape } => {
            assert_eq!(name, "_position_ids");
            assert_eq!(dtype, "i32");
            assert_eq!(shape, &vec![1, encoder.config().max_seq_len]);
        }
        _ => panic!("the position input"),
    }
    assert_eq!(nodes[4].id, "embed_sum");
    assert_eq!(nodes[5].id, "block_0.norm1");
    assert!(matches!(nodes[5].node_type, NodeType::LayerNorm { .. }));
    assert_eq!(nodes[5].inputs, vec!["embed_sum".to_string()]);
    assert_eq!(nodes[5 + 9].id, "block_0.ffn.act");
    assert!(matches!(nodes[5 + 9].node_type, NodeType::ReLU));
    assert_eq!(nodes[5 + 11].inputs, vec!["block_0.residual1".to_string(), "block_0.ffn.fc2".to_string()]);
    assert_eq!(nodes[5 + 12].inputs, vec!["block_0.residual2".to_string()]);
    let last = nodes.len() - 1;
    assert_eq!(nodes[last - 1].id, "final_norm");
    assert_eq!(nodes[last].inputs, vec!["final_norm".to_string()]);
}

#[test]
fn initial_norm_weights_are_ones_and_biases_zeros_by_name() {
    let encoder = TransformerEncoder::new(TransformerConfig::small()).unwrap();
    let params = encoder.init_params(0i32, 1, 7, 9);
    for (name, t) in params.iter() {
        if name.ends_with(".bias") {
            assert!(t.to_vec().iter().all(|&v| v == 0), "{}", name);
        }
        if name.ends_with("norm1.weight") || name.ends_with("norm2.weight") || name == "final_norm.weight" {
            assert!(t.to_vec().iter().all(|&v| v == 1), "{}", name);
        }
    }
}
