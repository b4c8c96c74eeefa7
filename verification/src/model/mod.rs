//! Model components: Transformer graph construction and an ONNX-style
//! operator mapping.

pub mod onnx_loader;
pub mod transformer;

pub use transformer::TransformerConfig;
