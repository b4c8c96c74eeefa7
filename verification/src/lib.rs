//! An inference engine core: tensors with row-major storage, computation
//! graphs with Kahn ordering, a graph-driven executor, Transformer graph
//! construction and an ONNX-style operator mapping.

pub mod text;
pub mod assoc;
pub mod engine;
pub mod backend;
pub mod model;
pub mod api;
pub mod cli;

pub use engine::{
    EngineInfo, Graph, GraphBuilder, GraphError, InferenceEngine, InferenceError, InferenceStats,
    Node, NodeType, Tensor, TensorError,
};
pub use backend::{Backend, BackendType};
pub use model::onnx_loader::{OnnxLoadError, OnnxLoader};
pub use model::transformer::{TransformerConfig, TransformerEncoder};
