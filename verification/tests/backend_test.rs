use rust_ai_inference_engine::backend::cpu::{infer_shape, CpuBackend, CpuStep};
use rust_ai_inference_engine::backend::cuda::{cuda_unavailable_message, CudaBackend, CudaError};
use rust_ai_inference_engine::backend::BackendType;
use rust_ai_inference_engine::engine::graph::NodeType;
use rust_ai_inference_engine::engine::tensor::{Tensor, TensorError};

fn dense(in_f: usize, out_f: usize) -> NodeType {
    NodeType::Dense { name: "fc".to_string(), in_features: in_f, out_features: out_f, has_bias: true }
}

fn names() -> Vec<String> {
    vec!["fc.weight".to_string(), "fc.bias".to_string()]
}

#[test]
fn test_cpu_backend_dense() {
    let mut backend = CpuBackend::new();
    let weight = Tensor::<f32>::from_vec(vec![1.0, 2.0, 3.0, 4.0, 5.0, 6.0], &[3, 2]).unwrap();
    let bias = Tensor::<f32>::from_vec(vec![0.1, 0.2, 0.3], &[3]).unwrap();
    backend.load_param("fc.weight".to_string(), weight);
    backend.load_param("fc.bias".to_string(), bias);
    let input = Tensor::<f32>::from_vec(vec![1.0, 2.0], &[1, 2]).unwrap();
    let inputs = [input];
    match backend.plan_forward(&dense(2, 3), &inputs, &names()).unwrap() {
        CpuStep::Dense { input, weight_t, bias } => {
            assert_eq!(input.matmul_shape(&weight_t).unwrap(), vec![1, 3]);
            assert_eq!(bias.unwrap().shape(), &[1, 3]);
        }
        _ => panic!("a dense layer plans a dense step"),
    }
}

#[test]
fn test_cpu_backend_forward() {
    let mut backend = CpuBackend::new();
    let weight = Tensor::<f32>::from_vec(vec![1.0, 0.0, 0.0, 1.0], &[2, 2]).unwrap();
    let bias = Tensor::<f32>::from_vec(vec![1.0, 2.0], &[2]).unwrap();
    backend.load_param("fc.weight".to_string(), weight);
    backend.load_param("fc.bias".to_string(), bias);
    let input = Tensor::<f32>::from_vec(vec![3.0, 4.0], &[1, 2]).unwrap();
    let inputs = [input];
    match backend.plan_forward(&dense(2, 2), &inputs, &names()).unwrap() {
        CpuStep::Dense { input, weight_t, bias } => {
            // x @ W^T + b, computed from the planned operands
            let x = input.to_vec();
            let w = weight_t.to_vec();
            let b = bias.unwrap().to_vec();
            let vals: Vec<f32> =
                (0..2).map(|j| x[0] * w[j] + x[1] * w[2 + j] + b[j]).collect();
            assert!((vals[0] - 4.0).abs() < 1e-5);
            assert!((vals[1] - 6.0).abs() < 1e-5);
        }
        _ => panic!("a dense layer plans a dense step"),
    }
}

#[test]
fn dense_bias_is_added_to_every_row() {
    let mut backend = CpuBackend::new();
    let weight = Tensor::<i32>::from_vec(vec![1, 0, 0, 1, 1, 1], &[3, 2]).unwrap();
    let bias = Tensor::<i32>::from_vec(vec![10, 20, 30], &[3]).unwrap();
    backend.load_param("fc.weight".to_string(), weight);
    backend.load_param("fc.bias".to_string(), bias);
    let input = Tensor::<i32>::from_vec(vec![1, 2, 3, 4], &[2, 2]).unwrap();
    let inputs = [input];
    match backend.plan_forward(&dense(2, 3), &inputs, &names()).unwrap() {
        CpuStep::Dense { input, weight_t, bias } => {
            assert_eq!(input.matmul_shape(&weight_t).unwrap(), vec![2, 3]);
            let b = bias.unwrap();
            assert_eq!(b.shape(), &[2, 3]);
            assert_eq!(b.to_vec(), vec![10, 20, 30, 10, 20, 30]);
        }
        _ => panic!("a dense layer plans a dense step"),
    }
}

#[test]
fn dense_bias_of_the_wrong_shape_is_refused() {
    let mut backend = CpuBackend::new();
    let weight = Tensor::<i32>::from_vec(vec![1, 2, 3, 4, 5, 6], &[3, 2]).unwrap();
    let bias = Tensor::<i32>::from_vec(vec![1, 2], &[2]).unwrap();
    backend.load_param("fc.weight".to_string(), weight);
    backend.load_param("fc.bias".to_string(), bias);
    let input = Tensor::<i32>::from_vec(vec![1, 2], &[1, 2]).unwrap();
    let inputs = [input];
    match backend.plan_forward(&dense(2, 3), &inputs, &names()) {
        Err(TensorError::ShapeMismatch { expected, actual }) => {
            assert_eq!(expected, vec![1, 3]);
            assert_eq!(actual, vec![2]);
        }
        _ => panic!("a bias of two elements does not fit three output features"),
    }
}

#[test]
fn dense_errors() {
    let backend = CpuBackend::<f32>::new();
    let x = Tensor::<f32>::from_vec(vec![1.0, 2.0], &[1, 2]).unwrap();
    let inputs = [x];
    match backend.plan_forward(&dense(2, 3), &inputs, &names()) {
        Ok(CpuStep::Zeros(shape)) => assert_eq!(shape, vec![1, 3]),
        _ => panic!("a dense layer without its weight gives zeros of the output shape"),
    }
    match backend.plan_forward(&dense(2, 2), &inputs, &[]) {
        Ok(CpuStep::Zeros(shape)) => assert_eq!(shape, vec![1, 2]),
        _ => panic!("a dense layer without weight names gives zeros of the output shape"),
    }
    let v = Tensor::<f32>::from_vec(vec![1.0, 2.0], &[2]).unwrap();
    match backend.plan_forward(&dense(2, 2), &[v], &names()) {
        Err(TensorError::OperationFailed(m)) => assert_eq!(m, "不支持的 matmul 维度组合: 1D x 2D"),
        _ => panic!("a dense layer takes a matrix"),
    }
    match backend.plan_forward(&dense(2, 2), &[], &names()) {
        Err(TensorError::OperationFailed(m)) => assert_eq!(m, "Dense 层缺少输入张量"),
        _ => panic!("a missing input must be reported"),
    }
}

#[test]
fn pass_through_and_errors_of_simple_operators() {
    let backend = CpuBackend::<i32>::new();
    let t = Tensor::from_vec(vec![1, 2, 3, 4], &[2, 2]).unwrap();
    let inputs = [t];
    match backend.plan_forward(&NodeType::Input { name: "x".into(), dtype: "f32".into(), shape: vec![2, 2] }, &inputs, &[]).unwrap() {
        CpuStep::Ready(r) => assert_eq!(r.to_vec(), vec![1, 2, 3, 4]),
        _ => panic!("an input passes its tensor on"),
    }
    assert!(matches!(backend.plan_forward(&NodeType::ReLU, &inputs, &[]), Ok(CpuStep::Relu(_))));
    match backend.plan_forward(&NodeType::ReLU, &[], &[]) {
        Err(TensorError::OperationFailed(m)) => assert_eq!(m, "ReLU 缺少输入张量"),
        _ => panic!("a missing input must be reported"),
    }
    match backend.plan_forward(&NodeType::MatMul, &inputs, &[]) {
        Err(TensorError::OperationFailed(m)) => assert_eq!(m, "MatMul 需要两个输入张量"),
        _ => panic!("a product needs two inputs"),
    }
    assert!(matches!(
        backend.plan_forward(&NodeType::Dropout { rate_bits: 0 }, &[], &[]),
        Ok(CpuStep::MissingInput)
    ));
    match backend.plan_forward(&NodeType::Conv2D {
        name: "c".into(), in_channels: 1, out_channels: 1, kernel_size: (3, 3), stride: (1, 1), padding: (0, 0),
    }, &inputs, &[]) {
        Err(TensorError::OperationFailed(m)) => assert_eq!(m, "Conv2D 权重未找到"),
        _ => panic!("a convolution needs its weight"),
    }
}

#[test]
fn softmax_only_on_the_last_axis() {
    let backend = CpuBackend::<i32>::new();
    let t = Tensor::from_vec(vec![1, 2, 3, 4, 5, 6], &[2, 3]).unwrap();
    let inputs = [t];
    assert!(matches!(backend.plan_forward(&NodeType::Softmax { axis: -1 }, &inputs, &[]), Ok(CpuStep::Softmax(_))));
    assert!(matches!(backend.plan_forward(&NodeType::Softmax { axis: 1 }, &inputs, &[]), Ok(CpuStep::Softmax(_))));
    for axis in [0, -2, 2, -3] {
        match backend.plan_forward(&NodeType::Softmax { axis }, &inputs, &[]) {
            Err(TensorError::OperationFailed(m)) => assert_eq!(m, "CPU 后端当前仅支持最后一个轴的 Softmax"),
            _ => panic!("axis {} is not the last one", axis),
        }
    }
}

#[test]
fn reshape_resolves_the_wildcard() {
    assert_eq!(infer_shape(12, &[3, -1]).unwrap(), vec![3, 4]);
    assert_eq!(infer_shape(12, &[-1]).unwrap(), vec![12]);
    assert_eq!(infer_shape(12, &[2, 6]).unwrap(), vec![2, 6]);
    match infer_shape(12, &[0, -1]) {
        Err(TensorError::OperationFailed(m)) => assert_eq!(m, "无法推断形状：已知维度的乘积为 0"),
        _ => panic!("a zero product cannot be divided"),
    }
    match infer_shape(12, &[-1, -1]) {
        Err(TensorError::OperationFailed(m)) => assert_eq!(m, "形状中只能有一个 -1"),
        _ => panic!("two wildcards are refused"),
    }
    match infer_shape(12, &[-2, -1]) {
        Err(TensorError::OperationFailed(m)) => assert_eq!(m, "形状中只能有一个 -1"),
        _ => panic!("a negative extent is refused"),
    }
    let backend = CpuBackend::<i32>::new();
    let t = Tensor::from_vec(vec![1, 2, 3, 4, 5, 6], &[2, 3]).unwrap();
    let inputs = [t];
    match backend.plan_forward(&NodeType::Reshape { target_shape: vec![-1, 2] }, &inputs, &[]).unwrap() {
        CpuStep::Ready(r) => {
            assert_eq!(r.shape(), &[3, 2]);
            assert_eq!(r.to_vec(), vec![1, 2, 3, 4, 5, 6]);
        }
        _ => panic!("a reshape is done by the plan"),
    }
    match backend.plan_forward(&NodeType::Reshape { target_shape: vec![4, -1] }, &inputs, &[]) {
        Err(TensorError::ShapeMismatch { expected, actual }) => {
            assert_eq!(expected, vec![4, 1]);
            assert_eq!(actual, vec![6]);
        }
        _ => panic!("an inexact division leaves a mismatch"),
    }
}

#[test]
fn layer_norm_and_embedding_shapes() {
    let mut backend = CpuBackend::<i32>::new();
    backend.load_param("emb".to_string(), Tensor::from_vec(vec![0; 10 * 4], &[10, 4]).unwrap());
    backend.load_param("ln.w".to_string(), Tensor::from_vec(vec![1, 1, 1], &[3]).unwrap());
    let x = Tensor::from_vec(vec![1, 2, 3, 4, 5, 6], &[2, 3]).unwrap();
    let inputs = [x];
    match backend.plan_forward(&NodeType::Embedding { vocab_size: 10, embed_dim: 4 }, &inputs, &["emb".to_string()]).unwrap() {
        CpuStep::Zeros(s) => assert_eq!(s, vec![2, 3, 4]),
        _ => panic!("an embedding with a table gives zeros"),
    }
    match backend.plan_forward(&NodeType::LayerNorm { normalized_shape: vec![3], epsilon_bits: 7 }, &inputs, &["ln.w".to_string()]) {
        Err(TensorError::ShapeMismatch { expected, actual }) => {
            assert_eq!(expected, vec![2, 3]);
            assert_eq!(actual, vec![3]);
        }
        _ => panic!("a weight of another shape is refused"),
    }
    match backend.plan_forward(&NodeType::LayerNorm { normalized_shape: vec![3], epsilon_bits: 7 }, &inputs, &[]).unwrap() {
        CpuStep::LayerNorm { weight, bias, epsilon_bits, .. } => {
            assert!(weight.is_none() && bias.is_none());
            assert_eq!(epsilon_bits, 7);
        }
        _ => panic!("a layer normalisation without parameters"),
    }
    let empty = [Tensor::from_vec(Vec::<i32>::new(), &[2, 0]).unwrap()];
    match backend.plan_forward(&NodeType::LayerNorm { normalized_shape: vec![0], epsilon_bits: 7 }, &empty, &[]) {
        Err(TensorError::OperationFailed(m)) => assert_eq!(m, "计算均值失败"),
        _ => panic!("an empty last axis has no mean"),
    }
}

#[test]
fn parameters_are_replaced_by_name() {
    let mut backend = CpuBackend::<i32>::new();
    backend.load_param("p".to_string(), Tensor::from_vec(vec![1], &[1]).unwrap());
    backend.load_params(vec![
        ("p".to_string(), Tensor::from_vec(vec![2], &[1]).unwrap()),
        ("q".to_string(), Tensor::from_vec(vec![3], &[1]).unwrap()),
    ]);
    assert_eq!(backend.get_param("p").unwrap().to_vec(), vec![2]);
    assert_eq!(backend.get_param("q").unwrap().to_vec(), vec![3]);
    assert!(backend.get_param("r").is_none());
    assert_eq!(backend.name(), "CPU (ndarray)");
    assert!(backend.device_info().starts_with("CPU 后端 | 可用核心数: "));
    assert!(backend.device_info().ends_with(" | 并行支持: rayon"));
}

#[test]
fn cuda_is_unavailable() {
    assert!(matches!(CudaBackend::new(0), Err(CudaError::NotImplemented)));
    assert!(!CudaBackend::is_available());
    assert_eq!(CudaBackend::device_count(), 0);
    assert!(cuda_unavailable_message().starts_with("CUDA 后端尚未实现。\n"));
    assert_eq!(CudaError::NotImplemented.describe(), "CUDA 后端尚未实现，请使用 CPU 后端（--backend cpu）");
    assert_eq!(CudaError::DeviceNotFound(3).describe(), "CUDA 设备未找到: 设备 ID 3");
    assert_eq!(CudaError::OutOfMemory(64).describe(), "CUDA 内存分配失败: 需要 64 字节");
}

#[test]
fn backend_type_parsing() {
    assert_eq!(BackendType::parse("CPU"), Ok(BackendType::Cpu));
    assert_eq!(BackendType::parse("gpu"), Ok(BackendType::Cuda));
    assert_eq!(BackendType::parse("Cuda"), Ok(BackendType::Cuda));
    assert_eq!(BackendType::parse("tpu"), Err("不支持的后端类型: 'tpu'。可选: cpu, cuda".to_string()));
    assert_eq!("cpu".parse::<BackendType>(), Ok(BackendType::Cpu));
    assert_eq!(BackendType::Cuda.as_text(), "cuda");
    assert_eq!(BackendType::default(), BackendType::Cpu);
}

#[test]
fn batched_matrix_products_are_planned() {
    let backend = CpuBackend::<i32>::new();
    let a = Tensor::from_vec((0..12).collect::<Vec<i32>>(), &[2, 2, 3]).unwrap();
    let b = Tensor::from_vec((0..24).collect::<Vec<i32>>(), &[2, 3, 4]).unwrap();
    let inputs = [a, b];
    match backend.plan_forward(&NodeType::MatMul, &inputs, &[]).unwrap() {
        CpuStep::MatMul(x, y) => assert_eq!(x.matmul_shape(y).unwrap(), vec![2, 2, 4]),
        _ => panic!("a batched product is planned as a product"),
    }
}

#[test]
fn attention_without_input_is_refused_with_its_debug_text() {
    let backend = CpuBackend::<i32>::new();
    match backend.plan_forward(&NodeType::MultiHeadAttention { num_heads: 8, head_dim: 64 }, &[], &[]) {
        Err(TensorError::OperationFailed(m)) => {
            assert_eq!(m, "MultiHeadAttention { num_heads: 8, head_dim: 64 } 缺少输入张量")
        }
        _ => panic!("an attention node needs its input"),
    }
}
