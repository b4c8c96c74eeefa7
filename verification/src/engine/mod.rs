//! Tensors, computation graphs and the inference executor.

pub mod tensor;
pub mod graph;
pub mod inference;

pub use tensor::{Tensor, TensorError};
pub use graph::{Graph, GraphBuilder, GraphError, Node, NodeType};
pub use inference::{EngineInfo, InferenceEngine, InferenceError, InferenceStats};
