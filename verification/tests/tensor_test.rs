use rust_ai_inference_engine::engine::tensor::{Tensor, TensorError};

#[test]
fn test_tensor_creation() {
    let t = Tensor::<f32>::from_vec(vec![1.0, 2.0, 3.0, 4.0], &[2, 2]).unwrap();
    assert_eq!(t.shape(), &[2, 2]);
    assert_eq!(t.len(), 4);
}

#[test]
fn test_tensor_reshape() {
    let t = Tensor::<f32>::from_vec(vec![1.0, 2.0, 3.0, 4.0, 5.0, 6.0], &[2, 3]).unwrap();
    let reshaped = t.reshape(&[3, 2]).unwrap();
    assert_eq!(reshaped.shape(), &[3, 2]);
}

#[test]
fn test_invalid_tensor_shape() {
    let result = Tensor::<f32>::from_vec(vec![1.0, 2.0], &[4]);
    assert!(result.is_err());
}

#[test]
fn from_vec_mismatch_reports_both_sizes() {
    match Tensor::<i32>::from_vec(vec![1, 2], &[4]) {
        Err(TensorError::ShapeMismatch { expected, actual }) => {
            assert_eq!(expected, vec![4]);
            assert_eq!(actual, vec![2]);
        }
        _ => panic!("a wrong length must be refused"),
    }
}

#[test]
fn reshape_keeps_elements_and_name() {
    let t = Tensor::from_vec(vec![1, 2, 3, 4, 5, 6], &[2, 3]).unwrap().with_name("t".to_string());
    let r = t.reshape(&[6]).unwrap();
    assert_eq!(r.to_vec(), vec![1, 2, 3, 4, 5, 6]);
    assert_eq!(r.name(), Some("t"));
    match t.reshape(&[4]) {
        Err(TensorError::ShapeMismatch { expected, actual }) => {
            assert_eq!(expected, vec![4]);
            assert_eq!(actual, vec![6]);
        }
        _ => panic!("a reshape to another size must be refused"),
    }
}

#[test]
fn transpose_swaps_rows_and_columns() {
    let t = Tensor::from_vec(vec![1, 2, 3, 4, 5, 6], &[2, 3]).unwrap();
    let tt = t.transpose().unwrap();
    assert_eq!(tt.shape(), &[3, 2]);
    assert_eq!(tt.to_vec(), vec![1, 4, 2, 5, 3, 6]);
    assert_eq!(tt.transpose().unwrap().to_vec(), t.to_vec());
    let v = Tensor::from_vec(vec![1, 2], &[2]).unwrap();
    match v.transpose() {
        Err(TensorError::OperationFailed(m)) => assert_eq!(m, "转置仅支持 2D 张量"),
        _ => panic!("only matrices can be transposed"),
    }
}

#[test]
fn get_reads_row_major() {
    let t = Tensor::from_vec(vec![1, 2, 3, 4, 5, 6], &[2, 3]).unwrap();
    assert_eq!(t.get(&[1, 2]).unwrap(), 6);
    assert_eq!(t.get(&[0, 1]).unwrap(), 2);
    match t.get(&[2, 0]) {
        Err(TensorError::IndexOutOfBounds(m)) => assert_eq!(m, "无效索引: [2, 0]"),
        _ => panic!("an index past the shape must be refused"),
    }
    match t.get(&[0]) {
        Err(TensorError::IndexOutOfBounds(m)) => assert_eq!(m, "索引维度 1 与张量维度 2 不匹配"),
        _ => panic!("an index of the wrong rank must be refused"),
    }
}

#[test]
fn shape_rules_of_operators() {
    let a = Tensor::from_vec(vec![1, 2, 3, 4], &[2, 2]).unwrap();
    let b = Tensor::from_vec(vec![1, 2, 3, 4, 5, 6], &[2, 3]).unwrap();
    assert_eq!(a.matmul_shape(&b).unwrap(), vec![2, 3]);
    match b.matmul_shape(&a) {
        Err(TensorError::ShapeMismatch { expected, actual }) => {
            assert_eq!(expected, vec![2, 3]);
            assert_eq!(actual, vec![2, 2]);
        }
        _ => panic!("unequal inner extents must be refused"),
    }
    let x = Tensor::from_vec((0..12).collect::<Vec<i32>>(), &[2, 2, 3]).unwrap();
    let y = Tensor::from_vec((0..24).collect::<Vec<i32>>(), &[2, 3, 4]).unwrap();
    assert_eq!(x.matmul_shape(&y).unwrap(), vec![2, 2, 4]);
    match y.matmul_shape(&x) {
        Err(TensorError::ShapeMismatch { expected, actual }) => {
            assert_eq!(expected, vec![2, 3, 4]);
            assert_eq!(actual, vec![2, 2, 3]);
        }
        _ => panic!("a batched product needs fitting extents"),
    }
    let z = Tensor::from_vec((0..12).collect::<Vec<i32>>(), &[3, 1, 4]).unwrap();
    assert!(matches!(z.matmul_shape(&y), Err(TensorError::ShapeMismatch { .. })));
    match x.matmul_shape(&a) {
        Err(TensorError::OperationFailed(m)) => assert_eq!(m, "不支持的 matmul 维度组合: 3D x 2D"),
        _ => panic!("a batch does not multiply a matrix"),
    }
    let v = Tensor::from_vec(vec![1, 2], &[2]).unwrap();
    match v.matmul_shape(&a) {
        Err(TensorError::OperationFailed(m)) => assert_eq!(m, "不支持的 matmul 维度组合: 1D x 2D"),
        _ => panic!("only matrices multiply"),
    }
    assert!(a.check_same_shape(&a).is_ok());
    assert!(a.check_same_shape(&b).is_err());
    assert_eq!(b.sum_axis_shape(1).unwrap(), vec![2]);
    match b.sum_axis_shape(2) {
        Err(TensorError::IndexOutOfBounds(m)) => assert_eq!(m, "轴 2 超出范围 [0, 2)"),
        _ => panic!("an axis past the rank must be refused"),
    }
    assert_eq!(b.softmax_axis().unwrap(), 1);
    assert_eq!(b.layer_norm_axis().unwrap(), 1);
    let s = Tensor::from_vec(vec![7], &[]).unwrap();
    assert!(s.softmax_axis().is_err());
    assert!(s.layer_norm_axis().is_err());
}

#[test]
fn scalar_tensor_shape_and_element() {
    let t = Tensor::<f32>::from_vec(vec![42.0], &[1]).unwrap();
    assert_eq!(t.shape(), &[1]);
    assert!((t.get(&[0]).unwrap() - 42.0).abs() < 1e-6);
}

#[test]
fn full_and_duplicate() {
    let z = Tensor::full(&[2, 2], 0u8);
    assert_eq!(z.to_vec(), vec![0, 0, 0, 0]);
    assert!(!z.is_empty());
    assert_eq!(z.ndim(), 2);
    let d = z.duplicate();
    assert_eq!(d.shape(), z.shape());
    let e = Tensor::full(&[0, 3], 1u8);
    assert!(e.is_empty());
}

#[test]
fn tensor_error_texts() {
    let e = TensorError::ShapeMismatch { expected: vec![2, 2], actual: vec![3] };
    assert_eq!(e.describe(), "形状不匹配: 期望 [2, 2], 实际 [3]");
    assert_eq!(TensorError::InvalidCast.describe(), "不支持的类型转换");
    assert_eq!(TensorError::OperationFailed("x".to_string()).describe(), "张量操作失败: x");
    assert_eq!(TensorError::IndexOutOfBounds("i".to_string()).describe(), "索引越界: i");
}
