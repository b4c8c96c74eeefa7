//! Mapping of ONNX-style operator descriptions onto computation graphs.
//!
//! A loader collects operator nodes, graph inputs and outputs; `into_graph`
//! maps each operator onto a node type, wires each node to the producers of
//! the values it reads, and builds the graph.

use vstd::prelude::*;
use crate::assoc::{as_map, keys_unique, lookup, put};
use crate::engine::graph::{
    build_error, build_succeeds, copy_usizes, duplicate_id_text, graph_error_text, is_execution_order,
    node_ids, str_views,
    Graph, GraphBuilder, GraphError, Node, NodeType,
};
use crate::model::transformer::DEFAULT_DROPOUT_BITS;
use crate::model::transformer::SMALL_EPSILON_BITS;
use crate::text::{join2, owned, text_eq};

verus! {

/// Errors of loading a model and of turning it into a graph.
#[derive(Debug)]
pub enum OnnxLoadError {
    /// The model file could not be read.
    FileReadFailed(String),
    /// The model text is malformed.
    ParseError(String),
    /// An operator type that has no counterpart among the node types.
    UnsupportedOpType(String),
    /// A node could not be converted.
    NodeConversionFailed(String),
    /// The graph could not be built.
    GraphBuildFailed(GraphError),
    /// A read failed; the message of the I/O error.
    IoError(String),
}

/// The text of a loading error, as its `Display` renders it.
pub open spec fn onnx_error_text(e: OnnxLoadError) -> Seq<char> {
    match e {
        OnnxLoadError::FileReadFailed(m) => "文件读取失败: "@ + m@,
        OnnxLoadError::ParseError(m) => "ONNX 格式解析失败: "@ + m@,
        OnnxLoadError::UnsupportedOpType(m) => "不支持的 ONNX 算子: "@ + m@,
        OnnxLoadError::NodeConversionFailed(m) => "节点转换失败: "@ + m@,
        OnnxLoadError::GraphBuildFailed(g) => "计算图构建失败: "@ + graph_error_text(g),
        OnnxLoadError::IoError(m) => "I/O 错误: "@ + m@,
    }
}

impl OnnxLoadError {
    /// The text of the error, as its `Display` renders it.
    pub fn describe(&self) -> (r: String)
        ensures
            r@ == onnx_error_text(*self),
    {
        match self {
            OnnxLoadError::FileReadFailed(m) => join2("文件读取失败: ", m.as_str()),
            OnnxLoadError::ParseError(m) => join2("ONNX 格式解析失败: ", m.as_str()),
            OnnxLoadError::UnsupportedOpType(m) => join2("不支持的 ONNX 算子: ", m.as_str()),
            OnnxLoadError::NodeConversionFailed(m) => join2("节点转换失败: ", m.as_str()),
            OnnxLoadError::GraphBuildFailed(g) => {
                let d = g.describe();
                join2("计算图构建失败: ", d.as_str())
            },
            OnnxLoadError::IoError(m) => join2("I/O 错误: ", m.as_str()),
        }
    }
}

/// Descriptive information about a loaded model.
#[derive(Debug, Clone)]
pub struct OnnxModelInfo {
    /// The producer of the model.
    pub producer_name: Option<String>,
    /// The model version.
    pub model_version: Option<String>,
    /// The ONNX IR version.
    pub ir_version: Option<String>,
    /// The operator domain.
    pub domain: Option<String>,
    /// The name of the graph.
    pub graph_name: Option<String>,
    /// The number of operator nodes.
    pub node_count: usize,
    /// The number of graph inputs.
    pub input_count: usize,
    /// The number of graph outputs.
    pub output_count: usize,
}

/// Whether `i` holds no description and zero counts.
pub open spec fn is_blank_info(i: OnnxModelInfo) -> bool {
    &&& i.producer_name is None
    &&& i.model_version is None
    &&& i.ir_version is None
    &&& i.domain is None
    &&& i.graph_name is None
    &&& i.node_count == 0
    &&& i.input_count == 0
    &&& i.output_count == 0
}

impl Default for OnnxModelInfo {
    fn default() -> (r: OnnxModelInfo)
        ensures
            is_blank_info(r),
    {
        OnnxModelInfo {
            producer_name: None,
            model_version: None,
            ir_version: None,
            domain: None,
            graph_name: None,
            node_count: 0,
            input_count: 0,
            output_count: 0,
        }
    }
}

/// An attribute value of an operator node.
///
/// Single-precision values are carried as the bit pattern of the value
/// widened to `f64` (`(x as f64).to_bits()`); the widening is exact.
#[derive(Debug, Clone)]
pub enum OnnxAttribute {
    /// A single-precision number.
    Float(u64),
    /// An integer.
    Int(i64),
    /// A string.
    String(String),
    /// A list of single-precision numbers.
    Floats(Vec<u64>),
    /// A list of integers.
    Ints(Vec<i64>),
}

/// An operator node as the model describes it.
#[derive(Debug, Clone)]
pub struct OnnxNode {
    /// The operator type, such as `MatMul` or `Relu`.
    pub op_type: String,
    /// The node name.
    pub name: String,
    /// The names of the values the node reads, in order.
    pub inputs: Vec<String>,
    /// The names of the values the node produces.
    pub outputs: Vec<String>,
    /// The attributes, by name; a later entry for a name takes precedence.
    pub attributes: Vec<(String, OnnxAttribute)>,
}

/// The attribute of `attrs` named `key`, if there is one.
pub open spec fn attr_at(attrs: Map<Seq<char>, OnnxAttribute>, key: Seq<char>) -> Option<OnnxAttribute> {
    if attrs.contains_key(key) {
        Some(attrs[key])
    } else {
        None
    }
}

/// A float attribute's bit pattern, or `default` when it is absent or not a float.
pub open spec fn float_or(attrs: Map<Seq<char>, OnnxAttribute>, key: Seq<char>, default: u64) -> u64 {
    match attr_at(attrs, key) {
        Some(OnnxAttribute::Float(b)) => b,
        _ => default,
    }
}

/// A pair read from the first two entries of an integer-list attribute, each
/// converted with `as usize`, or `default` when the attribute is absent, not
/// an integer list or shorter than two.
pub open spec fn pair_or(attrs: Map<Seq<char>, OnnxAttribute>, key: Seq<char>, default: (usize, usize)) -> (usize, usize) {
    match attr_at(attrs, key) {
        Some(OnnxAttribute::Ints(v)) => if v@.len() >= 2 {
            (v@[0] as usize, v@[1] as usize)
        } else {
            default
        },
        _ => default,
    }
}

/// The normalised shape of a layer normalisation: empty without an `axis`
/// attribute, the axis converted with `as usize` for an integer, `[1]` otherwise.
pub open spec fn norm_shape(attrs: Map<Seq<char>, OnnxAttribute>) -> Seq<usize> {
    match attr_at(attrs, "axis"@) {
        None => seq![],
        Some(OnnxAttribute::Int(i)) => seq![i as usize],
        Some(_) => seq![1usize],
    }
}

/// The softmax axis: an integer `axis` attribute converted with `as i32`, else `-1`.
pub open spec fn softmax_axis_attr(attrs: Map<Seq<char>, OnnxAttribute>) -> i32 {
    match attr_at(attrs, "axis"@) {
        Some(OnnxAttribute::Int(i)) => i as i32,
        _ => -1i32,
    }
}

/// The target shape of a reshape: an integer-list `shape` attribute, else `[-1]`.
pub open spec fn reshape_target(attrs: Map<Seq<char>, OnnxAttribute>) -> Seq<i64> {
    match attr_at(attrs, "shape"@) {
        Some(OnnxAttribute::Ints(v)) => v@,
        _ => seq![-1i64],
    }
}

/// The head count of an attention node: an integer `num_heads` attribute
/// converted with `as usize`, else `8`.
pub open spec fn head_count(attrs: Map<Seq<char>, OnnxAttribute>) -> usize {
    match attr_at(attrs, "num_heads"@) {
        Some(OnnxAttribute::Int(i)) => i as usize,
        _ => 8usize,
    }
}

/// Whether `op` names an operator type that maps onto a node type.
pub open spec fn convertible(op: Seq<char>) -> bool {
    ||| op == "MatMul"@ ||| op == "Gemm"@
    ||| op == "Add"@ ||| op == "Sub"@ ||| op == "Mul"@
    ||| op == "Relu"@ ||| op == "Gelu"@ ||| op == "Sigmoid"@ ||| op == "Tanh"@
    ||| op == "LayerNormalization"@ ||| op == "BatchNormalization"@
    ||| op == "Softmax"@ ||| op == "Conv"@
    ||| op == "Reshape"@ ||| op == "Transpose"@ ||| op == "Squeeze"@ ||| op == "Unsqueeze"@
    ||| op == "Attention"@ ||| op == "Gather"@ ||| op == "Dropout"@
}

/// Whether `t` is the node type that operator type `op`, on a node named
/// `name` with attributes `attrs`, maps onto.
///
/// Some operators map onto an approximation: `Gemm` onto a matrix product,
/// `Sub` and `Mul` onto a sum, `Sigmoid` and `Tanh` onto GELU, batch
/// normalisation onto layer normalisation, and `Transpose`, `Squeeze` and
/// `Unsqueeze` onto a reshape to `[-1]`.
pub open spec fn converts_to(op: Seq<char>, name: Seq<char>, attrs: Map<Seq<char>, OnnxAttribute>, t: NodeType) -> bool {
    if op == "MatMul"@ || op == "Gemm"@ {
        t is MatMul
    } else if op == "Add"@ || op == "Sub"@ || op == "Mul"@ {
        t is Add
    } else if op == "Relu"@ {
        t is ReLU
    } else if op == "Gelu"@ || op == "Sigmoid"@ || op == "Tanh"@ {
        t is GELU
    } else if op == "LayerNormalization"@ {
        t matches NodeType::LayerNorm { normalized_shape, epsilon_bits }
            && normalized_shape@ == norm_shape(attrs)
            && epsilon_bits == float_or(attrs, "epsilon"@, SMALL_EPSILON_BITS)
    } else if op == "BatchNormalization"@ {
        t matches NodeType::LayerNorm { normalized_shape, epsilon_bits }
            && normalized_shape@ == seq![1usize] && epsilon_bits == SMALL_EPSILON_BITS
    } else if op == "Softmax"@ {
        t == NodeType::Softmax { axis: softmax_axis_attr(attrs) }
    } else if op == "Conv"@ {
        t matches NodeType::Conv2D { name: n, in_channels, out_channels, kernel_size, stride, padding }
            && n@ == name && in_channels == 0 && out_channels == 0
            && kernel_size == pair_or(attrs, "kernel_shape"@, (3usize, 3usize))
            && stride == pair_or(attrs, "strides"@, (1usize, 1usize))
            && padding == pair_or(attrs, "pads"@, (0usize, 0usize))
    } else if op == "Reshape"@ {
        t matches NodeType::Reshape { target_shape } && target_shape@ == reshape_target(attrs)
    } else if op == "Transpose"@ || op == "Squeeze"@ || op == "Unsqueeze"@ {
        t matches NodeType::Reshape { target_shape } && target_shape@ == seq![-1i64]
    } else if op == "Attention"@ {
        t == NodeType::MultiHeadAttention { num_heads: head_count(attrs), head_dim: 0 }
    } else if op == "Gather"@ {
        t == NodeType::Embedding { vocab_size: 0, embed_dim: 0 }
    } else if op == "Dropout"@ {
        t == NodeType::Dropout { rate_bits: float_or(attrs, "ratio"@, DEFAULT_DROPOUT_BITS) }
    } else {
        false
    }
}

/// The operator types listed as supported.
pub open spec fn supported_ops_spec() -> Seq<Seq<char>> {
    seq![
        "MatMul"@, "Gemm"@, "Add"@, "Relu"@, "Gelu"@, "Sigmoid"@, "Tanh"@,
        "LayerNormalization"@, "BatchNormalization"@, "Softmax"@, "Conv"@, "Reshape"@,
        "Transpose"@, "Squeeze"@, "Unsqueeze"@, "Attention"@, "Gather"@, "Dropout"@,
    ]
}

/// The operator types that map onto node types (`Sub` and `Mul` map too,
/// without being listed).
pub fn supported_onnx_ops() -> (r: Vec<&'static str>)
    ensures
        r@.map_values(|s: &str| s@) == supported_ops_spec(),
{
    let r = vec![
        "MatMul", "Gemm", "Add", "Relu", "Gelu", "Sigmoid", "Tanh", "LayerNormalization",
        "BatchNormalization", "Softmax", "Conv", "Reshape", "Transpose", "Squeeze", "Unsqueeze",
        "Attention", "Gather", "Dropout",
    ];
    proof {
        assert(r@.map_values(|s: &str| s@) =~= supported_ops_spec());
    }
    r
}

/// Every listed operator type maps onto a node type.
pub proof fn lemma_supported_ops_convert(i: int)
    requires
        0 <= i < supported_ops_spec().len(),
    ensures
        convertible(supported_ops_spec()[i]),
{
}

/// The operator types listed as supported are pairwise distinct: no type is
/// listed twice.
pub proof fn lemma_supported_ops_distinct()
    ensures
        supported_ops_spec().no_duplicates(),
{
    reveal_strlit("MatMul");
    reveal_strlit("Gemm");
    reveal_strlit("Add");
    reveal_strlit("Relu");
    reveal_strlit("Gelu");
    reveal_strlit("Sigmoid");
    reveal_strlit("Tanh");
    reveal_strlit("LayerNormalization");
    reveal_strlit("BatchNormalization");
    reveal_strlit("Softmax");
    reveal_strlit("Conv");
    reveal_strlit("Reshape");
    reveal_strlit("Transpose");
    reveal_strlit("Squeeze");
    reveal_strlit("Unsqueeze");
    reveal_strlit("Attention");
    reveal_strlit("Gather");
    reveal_strlit("Dropout");
    let s = supported_ops_spec();
    assert forall|i: int, j: int| 0 <= i < s.len() && 0 <= j < s.len() && i != j implies s[i] != s[j] by {
        if s[i] == s[j] {
            assert(s[i].len() == s[j].len());
            assert(s[i][0] == s[j][0]);
            assert(s[i][1] == s[j][1]);
            assert(s[i][2] == s[j][2]);
        }
    }
}

/// The length and first three letters of each operator name, which tell
/// any two of them apart.
proof fn lemma_op_name_letters()
    ensures
        "MatMul"@.len() == 6 && "MatMul"@[0] == 'M' && "MatMul"@[1] == 'a' && "MatMul"@[2] == 't',
        "Gemm"@.len() == 4 && "Gemm"@[0] == 'G' && "Gemm"@[1] == 'e' && "Gemm"@[2] == 'm',
        "Add"@.len() == 3 && "Add"@[0] == 'A' && "Add"@[1] == 'd' && "Add"@[2] == 'd',
        "Sub"@.len() == 3 && "Sub"@[0] == 'S' && "Sub"@[1] == 'u' && "Sub"@[2] == 'b',
        "Mul"@.len() == 3 && "Mul"@[0] == 'M' && "Mul"@[1] == 'u' && "Mul"@[2] == 'l',
        "Relu"@.len() == 4 && "Relu"@[0] == 'R' && "Relu"@[1] == 'e' && "Relu"@[2] == 'l',
        "Gelu"@.len() == 4 && "Gelu"@[0] == 'G' && "Gelu"@[1] == 'e' && "Gelu"@[2] == 'l',
        "Sigmoid"@.len() == 7 && "Sigmoid"@[0] == 'S' && "Sigmoid"@[1] == 'i' && "Sigmoid"@[2] == 'g',
        "Tanh"@.len() == 4 && "Tanh"@[0] == 'T' && "Tanh"@[1] == 'a' && "Tanh"@[2] == 'n',
        "LayerNormalization"@.len() == 18 && "LayerNormalization"@[0] == 'L' && "LayerNormalization"@[1] == 'a' && "LayerNormalization"@[2] == 'y',
        "BatchNormalization"@.len() == 18 && "BatchNormalization"@[0] == 'B' && "BatchNormalization"@[1] == 'a' && "BatchNormalization"@[2] == 't',
        "Softmax"@.len() == 7 && "Softmax"@[0] == 'S' && "Softmax"@[1] == 'o' && "Softmax"@[2] == 'f',
        "Conv"@.len() == 4 && "Conv"@[0] == 'C' && "Conv"@[1] == 'o' && "Conv"@[2] == 'n',
        "Reshape"@.len() == 7 && "Reshape"@[0] == 'R' && "Reshape"@[1] == 'e' && "Reshape"@[2] == 's',
        "Transpose"@.len() == 9 && "Transpose"@[0] == 'T' && "Transpose"@[1] == 'r' && "Transpose"@[2] == 'a',
        "Squeeze"@.len() == 7 && "Squeeze"@[0] == 'S' && "Squeeze"@[1] == 'q' && "Squeeze"@[2] == 'u',
        "Unsqueeze"@.len() == 9 && "Unsqueeze"@[0] == 'U' && "Unsqueeze"@[1] == 'n' && "Unsqueeze"@[2] == 's',
        "Attention"@.len() == 9 && "Attention"@[0] == 'A' && "Attention"@[1] == 't' && "Attention"@[2] == 't',
        "Gather"@.len() == 6 && "Gather"@[0] == 'G' && "Gather"@[1] == 'a' && "Gather"@[2] == 't',
        "Dropout"@.len() == 7 && "Dropout"@[0] == 'D' && "Dropout"@[1] == 'r' && "Dropout"@[2] == 'o',
{
    reveal_strlit("MatMul");
    reveal_strlit("Gemm");
    reveal_strlit("Add");
    reveal_strlit("Sub");
    reveal_strlit("Mul");
    reveal_strlit("Relu");
    reveal_strlit("Gelu");
    reveal_strlit("Sigmoid");
    reveal_strlit("Tanh");
    reveal_strlit("LayerNormalization");
    reveal_strlit("BatchNormalization");
    reveal_strlit("Softmax");
    reveal_strlit("Conv");
    reveal_strlit("Reshape");
    reveal_strlit("Transpose");
    reveal_strlit("Squeeze");
    reveal_strlit("Unsqueeze");
    reveal_strlit("Attention");
    reveal_strlit("Gather");
    reveal_strlit("Dropout");
}

/// Every operator type the loader knows is accepted: those listed as
/// supported, and `Sub` and `Mul` besides.
pub proof fn lemma_accepted_ops()
    ensures
        convertible("MatMul"@),
        convertible("Gemm"@),
        convertible("Add"@),
        convertible("Sub"@),
        convertible("Mul"@),
        convertible("Relu"@),
        convertible("Gelu"@),
        convertible("Sigmoid"@),
        convertible("Tanh"@),
        convertible("LayerNormalization"@),
        convertible("BatchNormalization"@),
        convertible("Softmax"@),
        convertible("Conv"@),
        convertible("Reshape"@),
        convertible("Transpose"@),
        convertible("Squeeze"@),
        convertible("Unsqueeze"@),
        convertible("Attention"@),
        convertible("Gather"@),
        convertible("Dropout"@),
{
}

/// What each operator type maps onto, read from the attributes it names:
/// `MatMul` and `Gemm` onto a matrix product; `Add`, `Sub` and `Mul` onto a
/// sum; `Relu` onto ReLU; `Gelu`, `Sigmoid` and `Tanh` onto GELU; a layer
/// normalisation takes its epsilon from the float `epsilon` (else the small
/// default) and normalises over `[axis]` for an integer `axis` (nothing
/// without one, `[1]` for any other value); a batch normalisation becomes a
/// layer normalisation over `[1]` with the small epsilon; a softmax takes the
/// integer `axis` (else `-1`); `Transpose`, `Squeeze` and `Unsqueeze` flatten;
/// an attention node takes the integer `num_heads` (else `8`); `Gather` is an
/// embedding lookup of unknown size; a dropout takes the float `ratio` (else
/// the default rate).
pub proof fn lemma_op_mapping(op: Seq<char>, name: Seq<char>, attrs: Map<Seq<char>, OnnxAttribute>, t: NodeType)
    requires
        converts_to(op, name, attrs, t),
    ensures
        op == "MatMul"@ || op == "Gemm"@ ==> t is MatMul,
        op == "Add"@ || op == "Sub"@ || op == "Mul"@ ==> t is Add,
        op == "Relu"@ ==> t is ReLU,
        op == "Gelu"@ || op == "Sigmoid"@ || op == "Tanh"@ ==> t is GELU,
        op == "LayerNormalization"@ ==> t is LayerNorm,
        forall|b: u64|
            op == "LayerNormalization"@ && attrs.contains_key("epsilon"@) && attrs["epsilon"@] == OnnxAttribute::Float(b)
                ==> t->LayerNorm_epsilon_bits == b,
        op == "LayerNormalization"@ && (!attrs.contains_key("epsilon"@) || !(attrs["epsilon"@] is Float))
            ==> t->LayerNorm_epsilon_bits == SMALL_EPSILON_BITS,
        op == "LayerNormalization"@ && !attrs.contains_key("axis"@) ==> t->LayerNorm_normalized_shape@ == Seq::<usize>::empty(),
        forall|i: i64|
            op == "LayerNormalization"@ && attrs.contains_key("axis"@) && attrs["axis"@] == OnnxAttribute::Int(i)
                ==> t->LayerNorm_normalized_shape@ == seq![i as usize],
        op == "LayerNormalization"@ && attrs.contains_key("axis"@) && !(attrs["axis"@] is Int) ==> t->LayerNorm_normalized_shape@
            == seq![1usize],
        op == "BatchNormalization"@ ==> t is LayerNorm && t->LayerNorm_normalized_shape@ == seq![1usize]
            && t->LayerNorm_epsilon_bits == SMALL_EPSILON_BITS,
        op == "Softmax"@ ==> t is Softmax,
        forall|i: i64|
            op == "Softmax"@ && attrs.contains_key("axis"@) && attrs["axis"@] == OnnxAttribute::Int(i)
                ==> t->Softmax_axis == i as i32,
        op == "Softmax"@ && (!attrs.contains_key("axis"@) || !(attrs["axis"@] is Int)) ==> t->Softmax_axis == -1i32,
        op == "Transpose"@ || op == "Squeeze"@ || op == "Unsqueeze"@ ==> t is Reshape
            && t->Reshape_target_shape@ == seq![-1i64],
        op == "Attention"@ ==> t is MultiHeadAttention && t->MultiHeadAttention_head_dim == 0,
        forall|i: i64|
            op == "Attention"@ && attrs.contains_key("num_heads"@) && attrs["num_heads"@] == OnnxAttribute::Int(i)
                ==> t->MultiHeadAttention_num_heads == i as usize,
        op == "Attention"@ && (!attrs.contains_key("num_heads"@) || !(attrs["num_heads"@] is Int))
            ==> t->MultiHeadAttention_num_heads == 8usize,
        op == "Gather"@ ==> t == (NodeType::Embedding { vocab_size: 0, embed_dim: 0 }),
        op == "Dropout"@ ==> t is Dropout,
        forall|b: u64|
            op == "Dropout"@ && attrs.contains_key("ratio"@) && attrs["ratio"@] == OnnxAttribute::Float(b)
                ==> t->Dropout_rate_bits == b,
        op == "Dropout"@ && (!attrs.contains_key("ratio"@) || !(attrs["ratio"@] is Float))
            ==> t->Dropout_rate_bits == DEFAULT_DROPOUT_BITS,
{
    lemma_op_name_letters();
}

/// A convolution node reads each of its geometry fields from one attribute
/// alone: its padding is the first two entries of the integer list `pads`
/// (`(0, 0)` where there is no such list of length two or more), its stride
/// those of `strides` (else `(1, 1)`) and its kernel size those of
/// `kernel_shape` (else `(3, 3)`); it carries the node's name and no channel
/// counts.
pub proof fn lemma_conv_attributes(name: Seq<char>, attrs: Map<Seq<char>, OnnxAttribute>, t: NodeType)
    requires
        converts_to("Conv"@, name, attrs, t),
    ensures
        t is Conv2D,
        t->Conv2D_name@ == name,
        t->Conv2D_in_channels == 0 && t->Conv2D_out_channels == 0,
        forall|v: Vec<i64>|
            attrs.contains_key("pads"@) && attrs["pads"@] == OnnxAttribute::Ints(v) && v@.len() >= 2
                ==> t->Conv2D_padding == (v@[0] as usize, v@[1] as usize),
        !attrs.contains_key("pads"@) || !(attrs["pads"@] is Ints) || attrs["pads"@]->Ints_0@.len() < 2
            ==> t->Conv2D_padding == (0usize, 0usize),
        forall|v: Vec<i64>|
            attrs.contains_key("strides"@) && attrs["strides"@] == OnnxAttribute::Ints(v) && v@.len() >= 2
                ==> t->Conv2D_stride == (v@[0] as usize, v@[1] as usize),
        !attrs.contains_key("strides"@) || !(attrs["strides"@] is Ints) || attrs["strides"@]->Ints_0@.len() < 2
            ==> t->Conv2D_stride == (1usize, 1usize),
        forall|v: Vec<i64>|
            attrs.contains_key("kernel_shape"@) && attrs["kernel_shape"@] == OnnxAttribute::Ints(v) && v@.len()
                >= 2 ==> t->Conv2D_kernel_size == (v@[0] as usize, v@[1] as usize),
        !attrs.contains_key("kernel_shape"@) || !(attrs["kernel_shape"@] is Ints)
            || attrs["kernel_shape"@]->Ints_0@.len() < 2 ==> t->Conv2D_kernel_size == (3usize, 3usize),
{
    lemma_op_name_letters();
}

/// A reshape node's target shape is its integer-list `shape` attribute,
/// entry for entry, and `[-1]` (flatten) where there is no such attribute.
pub proof fn lemma_reshape_attribute(name: Seq<char>, attrs: Map<Seq<char>, OnnxAttribute>, t: NodeType)
    requires
        converts_to("Reshape"@, name, attrs, t),
    ensures
        t is Reshape,
        forall|v: Vec<i64>|
            attrs.contains_key("shape"@) && attrs["shape"@] == OnnxAttribute::Ints(v)
                ==> t->Reshape_target_shape@ == v@,
        !(attrs.contains_key("shape"@) && attrs["shape"@] is Ints) ==> t->Reshape_target_shape@
            == seq![-1i64],
{
    lemma_op_name_letters();
}

/// The bit pattern of a float attribute, or `default`.
fn float_attr(attrs: &Vec<(String, OnnxAttribute)>, key: &str, default: u64) -> (r: u64)
    ensures
        r == float_or(as_map(attrs@), key@, default),
{
    match lookup(attrs, key) {
        Some(OnnxAttribute::Float(b)) => *b,
        _ => default,
    }
}

/// A pair from an integer-list attribute, or `default`.
fn pair_attr(attrs: &Vec<(String, OnnxAttribute)>, key: &str, default: (usize, usize)) -> (r: (usize, usize))
    ensures
        r == pair_or(as_map(attrs@), key@, default),
{
    match lookup(attrs, key) {
        Some(OnnxAttribute::Ints(v)) => if v.len() >= 2 {
            (v[0] as usize, v[1] as usize)
        } else {
            default
        },
        _ => default,
    }
}

/// Maps an operator type onto a node type (see `OnnxLoader::convert_op_type`).
fn map_op_type(op_type: &str, name: &str, attributes: &Vec<(String, OnnxAttribute)>) -> (r: Result<NodeType, OnnxLoadError>)
    ensures
        r is Ok <==> convertible(op_type@),
        r matches Ok(t) ==> converts_to(op_type@, name@, as_map(attributes@), t),
        r matches Err(e) ==> e matches OnnxLoadError::UnsupportedOpType(s) && s@ == op_type@,
{
    let ghost attrs = as_map(attributes@);
    if text_eq(op_type, "MatMul") || text_eq(op_type, "Gemm") {
        Ok(NodeType::MatMul)
    } else if text_eq(op_type, "Add") || text_eq(op_type, "Sub") || text_eq(op_type, "Mul") {
        Ok(NodeType::Add)
    } else if text_eq(op_type, "Relu") {
        Ok(NodeType::ReLU)
    } else if text_eq(op_type, "Gelu") || text_eq(op_type, "Sigmoid") || text_eq(op_type, "Tanh") {
        Ok(NodeType::GELU)
    } else if text_eq(op_type, "LayerNormalization") {
        let epsilon_bits = float_attr(attributes, "epsilon", SMALL_EPSILON_BITS);
        let normalized_shape: Vec<usize> = match lookup(attributes, "axis") {
            None => Vec::new(),
            Some(OnnxAttribute::Int(i)) => vec![*i as usize],
            Some(_) => vec![1usize],
        };
        proof {
            assert(normalized_shape@ =~= norm_shape(attrs));
        }
        Ok(NodeType::LayerNorm { normalized_shape, epsilon_bits })
    } else if text_eq(op_type, "BatchNormalization") {
        let normalized_shape: Vec<usize> = vec![1usize];
        proof {
            assert(normalized_shape@ =~= seq![1usize]);
        }
        Ok(NodeType::LayerNorm { normalized_shape, epsilon_bits: SMALL_EPSILON_BITS })
    } else if text_eq(op_type, "Softmax") {
        let axis: i32 = match lookup(attributes, "axis") {
            Some(OnnxAttribute::Int(i)) => *i as i32,
            _ => -1,
        };
        Ok(NodeType::Softmax { axis })
    } else if text_eq(op_type, "Conv") {
        let kernel_size = pair_attr(attributes, "kernel_shape", (3, 3));
        let stride = pair_attr(attributes, "strides", (1, 1));
        let padding = pair_attr(attributes, "pads", (0, 0));
        Ok(NodeType::Conv2D {
            name: owned(name),
            in_channels: 0,
            out_channels: 0,
            kernel_size,
            stride,
            padding,
        })
    } else if text_eq(op_type, "Reshape") {
        let target_shape: Vec<i64> = match lookup(attributes, "shape") {
            Some(OnnxAttribute::Ints(v)) => v.clone(),
            _ => vec![-1i64],
        };
        proof {
            assert(target_shape@ =~= reshape_target(attrs));
        }
        Ok(NodeType::Reshape { target_shape })
    } else if text_eq(op_type, "Transpose") || text_eq(op_type, "Squeeze") || text_eq(
        op_type,
        "Unsqueeze",
    ) {
        let target_shape: Vec<i64> = vec![-1i64];
        proof {
            assert(target_shape@ =~= seq![-1i64]);
        }
        Ok(NodeType::Reshape { target_shape })
    } else if text_eq(op_type, "Attention") {
        let num_heads: usize = match lookup(attributes, "num_heads") {
            Some(OnnxAttribute::Int(i)) => *i as usize,
            _ => 8,
        };
        Ok(NodeType::MultiHeadAttention { num_heads, head_dim: 0 })
    } else if text_eq(op_type, "Gather") {
        Ok(NodeType::Embedding { vocab_size: 0, embed_dim: 0 })
    } else if text_eq(op_type, "Dropout") {
        Ok(NodeType::Dropout { rate_bits: float_attr(attributes, "ratio", DEFAULT_DROPOUT_BITS) })
    } else {
        Err(OnnxLoadError::UnsupportedOpType(owned(op_type)))
    }
}

/// A JSON value as the node reader sees it: scalars in full, and of an array
/// or an object only that it is one.
#[derive(Debug, Clone)]
pub enum JsonScalar {
    /// `null`.
    Null,
    /// `true` or `false`.
    Bool(bool),
    /// A number, rounded to the nearest `f32` and carried as the bit pattern
    /// of that value widened to `f64`.
    Number(u64),
    /// A string.
    Str(String),
    /// An array.
    Array,
    /// An object.
    Object,
}

/// A member of a node object: a scalar, or an array or an object whose
/// entries are kept as scalars.
#[derive(Debug, Clone)]
pub enum JsonField {
    /// A scalar value.
    Scalar(JsonScalar),
    /// An array, with its elements.
    Array(Vec<JsonScalar>),
    /// An object, with its members in order.
    Object(Vec<(String, JsonScalar)>),
}

/// One entry of a model's node list: the members of the object, or none
/// when the entry is not an object.
#[derive(Debug, Clone)]
pub struct JsonNode {
    /// The members, in order.
    pub members: Vec<(String, JsonField)>,
}

/// The member `key` of an object, if there is one.
pub open spec fn member_at(members: Seq<(String, JsonField)>, key: Seq<char>) -> Option<JsonField> {
    if as_map(members).contains_key(key) {
        Some(as_map(members)[key])
    } else {
        None
    }
}

/// The string member `key`, or `default` when it is absent or not a string.
pub open spec fn text_member_or(members: Seq<(String, JsonField)>, key: Seq<char>, default: Seq<char>) -> Seq<char> {
    match member_at(members, key) {
        Some(JsonField::Scalar(JsonScalar::Str(s))) => s@,
        _ => default,
    }
}

/// The strings among `items`, in order.
pub open spec fn text_items(items: Seq<JsonScalar>) -> Seq<Seq<char>>
    decreases items.len(),
{
    if items.len() == 0 {
        seq![]
    } else {
        match items.last() {
            JsonScalar::Str(s) => text_items(items.drop_last()).push(s@),
            _ => text_items(items.drop_last()),
        }
    }
}

/// The strings of the array member `key`; none when it is absent or not an array.
pub open spec fn text_list_member(members: Seq<(String, JsonField)>, key: Seq<char>) -> Seq<Seq<char>> {
    match member_at(members, key) {
        Some(JsonField::Array(v)) => text_items(v@),
        _ => seq![],
    }
}

/// The attribute values read from the members of an attribute object, in
/// order: numbers and strings are kept, a later one replacing an earlier one
/// of the same name; other values are skipped.
pub open spec fn attr_fold(obj: Seq<(String, JsonScalar)>) -> Map<Seq<char>, JsonScalar>
    decreases obj.len(),
{
    if obj.len() == 0 {
        Map::empty()
    } else {
        let m = attr_fold(obj.drop_last());
        match obj.last().1 {
            JsonScalar::Number(_) => m.insert(obj.last().0@, obj.last().1),
            JsonScalar::Str(_) => m.insert(obj.last().0@, obj.last().1),
            _ => m,
        }
    }
}

/// The attribute values of a node entry: those of its object member
/// `attributes`, if it has one.
pub open spec fn entry_attrs(members: Seq<(String, JsonField)>) -> Map<Seq<char>, JsonScalar> {
    match member_at(members, "attributes"@) {
        Some(JsonField::Object(o)) => attr_fold(o@),
        _ => Map::empty(),
    }
}

/// Whether the attributes `m` hold the values `f`: a number as a float, a
/// string as a string.
pub open spec fn attrs_match(m: Map<Seq<char>, OnnxAttribute>, f: Map<Seq<char>, JsonScalar>) -> bool {
    &&& m.dom() == f.dom()
    &&& forall|k: Seq<char>| #[trigger] f.contains_key(k) ==> match f[k] {
        JsonScalar::Number(b) => m[k] == OnnxAttribute::Float(b),
        JsonScalar::Str(s) => m[k] matches OnnxAttribute::String(t) && t@ == s@,
        _ => false,
    }
}

/// Whether `n` is the operator node read from the node entry `members`:
/// `op_type` defaults to `Unknown` and `name` to `unnamed`; the inputs and
/// outputs are the strings of the array members of those names.
pub open spec fn node_from_entry(members: Seq<(String, JsonField)>, n: OnnxNode) -> bool {
    &&& n.op_type@ == text_member_or(members, "op_type"@, "Unknown"@)
    &&& n.name@ == text_member_or(members, "name"@, "unnamed"@)
    &&& str_views(n.inputs@) == text_list_member(members, "inputs"@)
    &&& str_views(n.outputs@) == text_list_member(members, "outputs"@)
    &&& keys_unique(n.attributes@)
    &&& attrs_match(as_map(n.attributes@), entry_attrs(members))
}

/// The string member `key` of an entry, or `default`.
fn text_member(members: &Vec<(String, JsonField)>, key: &str, default: &str) -> (r: String)
    ensures
        r@ == text_member_or(members@, key@, default@),
{
    match lookup(members, key) {
        Some(JsonField::Scalar(JsonScalar::Str(s))) => owned(s.as_str()),
        _ => owned(default),
    }
}

/// The strings of the array member `key` of an entry.
fn text_list(members: &Vec<(String, JsonField)>, key: &str) -> (r: Vec<String>)
    ensures
        str_views(r@) == text_list_member(members@, key@),
{
    let mut r: Vec<String> = Vec::new();
    match lookup(members, key) {
        Some(JsonField::Array(items)) => {
            let mut i: usize = 0;
            proof {
                assert(items@.take(0).len() == 0);
                assert(str_views(r@) =~= text_items(items@.take(0)));
            }
            while i < items.len()
                invariant
                    i <= items@.len(),
                    str_views(r@) == text_items(items@.take(i as int)),
                decreases items@.len() - i,
            {
                let ghost prev = r@;
                proof {
                    assert(items@.take(i + 1).drop_last() =~= items@.take(i as int));
                    assert(items@.take(i + 1).last() == items@[i as int]);
                }
                match &items[i] {
                    JsonScalar::Str(s) => {
                        r.push(owned(s.as_str()));
                        proof {
                            assert(str_views(r@) =~= str_views(prev).push(s@));
                        }
                    },
                    _ => {},
                }
                i = i + 1;
            }
            proof {
                assert(items@.take(items@.len() as int) =~= items@);
            }
        },
        _ => {
            proof {
                assert(str_views(r@) =~= seq![]);
            }
        },
    }
    r
}

/// The attributes of a node entry.
fn entry_attributes(members: &Vec<(String, JsonField)>) -> (r: Vec<(String, OnnxAttribute)>)
    ensures
        keys_unique(r@),
        attrs_match(as_map(r@), entry_attrs(members@)),
{
    let mut r: Vec<(String, OnnxAttribute)> = Vec::new();
    match lookup(members, "attributes") {
        Some(JsonField::Object(obj)) => {
            let mut i: usize = 0;
            proof {
                assert(obj@.take(0).len() == 0);
                assert(as_map(r@).dom() =~= attr_fold(obj@.take(0)).dom());
            }
            while i < obj.len()
                invariant
                    i <= obj@.len(),
                    keys_unique(r@),
                    attrs_match(as_map(r@), attr_fold(obj@.take(i as int))),
                decreases obj@.len() - i,
            {
                let ghost prev = as_map(r@);
                let ghost f = attr_fold(obj@.take(i as int));
                proof {
                    assert(obj@.take(i + 1).drop_last() =~= obj@.take(i as int));
                    assert(obj@.take(i + 1).last() == obj@[i as int]);
                }
                let entry = &obj[i];
                match &entry.1 {
                    JsonScalar::Number(b) => {
                        put(&mut r, owned(entry.0.as_str()), OnnxAttribute::Float(*b));
                        proof {
                            let g = f.insert(entry.0@, entry.1);
                            assert(as_map(r@).dom() =~= g.dom());
                            assert forall|k: Seq<char>| #[trigger] g.contains_key(k) implies match g[k] {
                                JsonScalar::Number(b) => as_map(r@)[k] == OnnxAttribute::Float(b),
                                JsonScalar::Str(s) => as_map(r@)[k] matches OnnxAttribute::String(t) && t@ == s@,
                                _ => false,
                            } by {
                                if k != entry.0@ {
                                    assert(f.contains_key(k));
                                }
                            }
                        }
                    },
                    JsonScalar::Str(t) => {
                        put(&mut r, owned(entry.0.as_str()), OnnxAttribute::String(owned(t.as_str())));
                        proof {
                            let g = f.insert(entry.0@, entry.1);
                            assert(as_map(r@).dom() =~= g.dom());
                            assert forall|k: Seq<char>| #[trigger] g.contains_key(k) implies match g[k] {
                                JsonScalar::Number(b) => as_map(r@)[k] == OnnxAttribute::Float(b),
                                JsonScalar::Str(s) => as_map(r@)[k] matches OnnxAttribute::String(t) && t@ == s@,
                                _ => false,
                            } by {
                                if k != entry.0@ {
                                    assert(f.contains_key(k));
                                }
                            }
                        }
                    },
                    _ => {},
                }
                i = i + 1;
            }
            proof {
                assert(obj@.take(obj@.len() as int) =~= obj@);
            }
        },
        _ => {
            proof {
                assert(as_map(r@).dom() =~= Map::<Seq<char>, JsonScalar>::empty().dom());
            }
        },
    }
    r
}

/// The operator node read from a node entry.
fn node_of_entry(entry: &JsonNode) -> (r: OnnxNode)
    ensures
        node_from_entry(entry.members@, r),
{
    OnnxNode {
        op_type: text_member(&entry.members, "op_type", "Unknown"),
        name: text_member(&entry.members, "name", "unnamed"),
        inputs: text_list(&entry.members, "inputs"),
        outputs: text_list(&entry.members, "outputs"),
        attributes: entry_attributes(&entry.members),
    }
}

/// The names of the graph inputs.
pub open spec fn input_names(ins: Seq<(String, String, Vec<usize>)>) -> Seq<Seq<char>> {
    ins.map_values(|t: (String, String, Vec<usize>)| t.0@)
}

/// The names of the operator nodes.
pub open spec fn op_names(nodes: Seq<OnnxNode>) -> Seq<Seq<char>> {
    nodes.map_values(|n: OnnxNode| n.name@)
}

/// The identifiers of the graph nodes in the order `into_graph` adds them:
/// the inputs, the operator nodes, then the outputs.
pub open spec fn planned_ids(
    ins: Seq<(String, String, Vec<usize>)>,
    nodes: Seq<OnnxNode>,
    outs: Seq<Seq<char>>,
) -> Seq<Seq<char>> {
    input_names(ins) + op_names(nodes) + outs
}

/// `m` with each of `names` bound to `id`.
pub open spec fn bind_all(m: Map<Seq<char>, Seq<char>>, names: Seq<Seq<char>>, id: Seq<char>) -> Map<Seq<char>, Seq<char>>
    decreases names.len(),
{
    if names.len() == 0 {
        m
    } else {
        bind_all(m, names.drop_last(), id).insert(names.last(), id)
    }
}

/// Which node produces each value name once `nodes` have been added: a graph
/// input produces itself, and a node produces each of its outputs, a later
/// producer of a name replacing an earlier one.
pub open spec fn producers(ins: Seq<(String, String, Vec<usize>)>, nodes: Seq<OnnxNode>) -> Map<Seq<char>, Seq<char>>
    decreases nodes.len(),
{
    if nodes.len() == 0 {
        Map::new(|k: Seq<char>| input_names(ins).contains(k), |k: Seq<char>| k)
    } else {
        bind_all(
            producers(ins, nodes.drop_last()),
            str_views(nodes.last().outputs@),
            nodes.last().name@,
        )
    }
}

/// The producers of the value names `names` that have one, in order; names
/// without a producer are left out.
pub open spec fn wired(names: Seq<Seq<char>>, m: Map<Seq<char>, Seq<char>>) -> Seq<Seq<char>>
    decreases names.len(),
{
    if names.len() == 0 {
        seq![]
    } else if m.contains_key(names.last()) {
        wired(names.drop_last(), m).push(m[names.last()])
    } else {
        wired(names.drop_last(), m)
    }
}

/// Wiring keeps the order of the value names: it is the producer of each
/// name that has one, in the order the names come, and nothing for a name
/// without one.
pub proof fn lemma_wired_in_order(names: Seq<Seq<char>>, m: Map<Seq<char>, Seq<char>>)
    ensures
        wired(names, m) == names.filter(|x: Seq<char>| m.contains_key(x)).map_values(|x: Seq<char>| m[x]),
    decreases names.len(),
{
    reveal(Seq::filter);
    if names.len() > 0 {
        lemma_wired_in_order(names.drop_last(), m);
        let p = |x: Seq<char>| m.contains_key(x);
        let f = |x: Seq<char>| m[x];
        let rest = names.drop_last().filter(p);
        if m.contains_key(names.last()) {
            assert(names.filter(p) == rest.push(names.last()));
            assert(rest.push(names.last()).map_values(f) =~= rest.map_values(f).push(m[names.last()]));
        } else {
            assert(names.filter(p) == rest);
        }
    } else {
        assert(names.filter(|x: Seq<char>| m.contains_key(x)) =~= names);
        assert(wired(names, m) =~= names.filter(|x: Seq<char>| m.contains_key(x)).map_values(|x: Seq<char>| m[x]));
    }
}

/// Binding names to `id`: a bound name maps to `id`, any other keeps what
/// it had in `m`.
proof fn lemma_bind_all(m: Map<Seq<char>, Seq<char>>, names: Seq<Seq<char>>, id: Seq<char>, x: Seq<char>)
    ensures
        bind_all(m, names, id).contains_key(x) <==> (m.contains_key(x) || names.contains(x)),
        names.contains(x) ==> bind_all(m, names, id)[x] == id,
        !names.contains(x) && m.contains_key(x) ==> bind_all(m, names, id)[x] == m[x],
    decreases names.len(),
{
    if names.len() > 0 {
        lemma_bind_all(m, names.drop_last(), id, x);
        if names.contains(x) && x != names.last() {
            let j = choose|j: int| 0 <= j < names.len() && names[j] == x;
            assert(names.drop_last()[j] == x);
        }
        if names.drop_last().contains(x) {
            let j = choose|j: int| 0 <= j < names.drop_last().len() && names.drop_last()[j] == x;
            assert(names[j] == x);
        }
        if x == names.last() {
            assert(names[names.len() - 1] == x);
        }
    }
}

/// Whether the value `x` is among the outputs of operator node `k`.
pub open spec fn writes(nodes: Seq<OnnxNode>, k: int, x: Seq<char>) -> bool {
    str_views(nodes[k].outputs@).contains(x)
}

/// The producer of a value that an operator node writes is the last
/// operator node that writes it.
pub proof fn lemma_producer_is_last_writer(
    ins: Seq<(String, String, Vec<usize>)>,
    nodes: Seq<OnnxNode>,
    x: Seq<char>,
    k: int,
)
    requires
        0 <= k < nodes.len(),
        writes(nodes, k, x),
        forall|j: int| k < j < nodes.len() ==> !#[trigger] writes(nodes, j, x),
    ensures
        producers(ins, nodes).contains_key(x),
        producers(ins, nodes)[x] == nodes[k].name@,
    decreases nodes.len(),
{
    let d = nodes.drop_last();
    let l = nodes.len() - 1;
    lemma_bind_all(producers(ins, d), str_views(nodes.last().outputs@), nodes.last().name@, x);
    if k < l {
        assert(!writes(nodes, l, x));
        assert(writes(d, k, x));
        assert forall|j: int| k < j < d.len() implies !#[trigger] writes(d, j, x) by {
            assert(!writes(nodes, j, x));
        }
        lemma_producer_is_last_writer(ins, d, x, k);
    }
}

/// A value that no operator node writes has a producer only if it is a
/// graph input, and the producer of a graph input is the input itself.
pub proof fn lemma_producer_of_unwritten(ins: Seq<(String, String, Vec<usize>)>, nodes: Seq<OnnxNode>, x: Seq<char>)
    requires
        forall|k: int| 0 <= k < nodes.len() ==> !#[trigger] writes(nodes, k, x),
    ensures
        producers(ins, nodes).contains_key(x) <==> input_names(ins).contains(x),
        input_names(ins).contains(x) ==> producers(ins, nodes)[x] == x,
    decreases nodes.len(),
{
    if nodes.len() > 0 {
        let d = nodes.drop_last();
        let l = nodes.len() - 1;
        assert(!writes(nodes, l, x));
        assert forall|k: int| 0 <= k < d.len() implies !#[trigger] writes(d, k, x) by {
            assert(!writes(nodes, k, x));
        }
        lemma_producer_of_unwritten(ins, d, x);
        lemma_bind_all(producers(ins, d), str_views(nodes.last().outputs@), nodes.last().name@, x);
    }
}

/// The producer of output `o`, or the empty identifier when it has none.
pub open spec fn output_source(m: Map<Seq<char>, Seq<char>>, o: Seq<char>) -> Seq<char> {
    if m.contains_key(o) {
        m[o]
    } else {
        seq![]
    }
}

/// Whether `n` is the input node made for the graph input `t`.
pub open spec fn input_node_for(t: (String, String, Vec<usize>), n: Node) -> bool {
    &&& n.id@ == t.0@
    &&& n.node_type matches NodeType::Input { name, dtype, shape } && name@ == t.0@ && dtype@
        == t.1@ && shape@ == t.2@
    &&& n.inputs_view().len() == 0
    &&& n.params_view().len() == 0
    &&& n.outputs@.len() == 0
}

/// Whether `n` is the node made for operator node `k` of `nodes`.
pub open spec fn op_node_for(
    ins: Seq<(String, String, Vec<usize>)>,
    nodes: Seq<OnnxNode>,
    k: int,
    n: Node,
) -> bool {
    &&& n.id@ == nodes[k].name@
    &&& converts_to(nodes[k].op_type@, nodes[k].name@, as_map(nodes[k].attributes@), n.node_type)
    &&& n.inputs_view() == wired(str_views(nodes[k].inputs@), producers(ins, nodes.take(k)))
    &&& n.params_view().len() == 0
    &&& n.outputs@.len() == 0
}

/// Whether `n` is the output node made for the graph output `o`.
pub open spec fn output_node_for(m: Map<Seq<char>, Seq<char>>, o: Seq<char>, n: Node) -> bool {
    &&& n.id@ == o
    &&& n.node_type matches NodeType::Output { name } && name@ == o
    &&& n.inputs_view() == seq![output_source(m, o)]
    &&& n.params_view().len() == 0
    &&& n.outputs@.len() == 0
}

/// Whether `g` is the node list `into_graph` hands to the builder.
pub open spec fn planned_graph(
    ins: Seq<(String, String, Vec<usize>)>,
    nodes: Seq<OnnxNode>,
    outs: Seq<Seq<char>>,
    g: Seq<Node>,
) -> bool {
    let a = ins.len() as int;
    let b = nodes.len() as int;
    &&& g.len() == a + b + outs.len()
    &&& forall|p: int| 0 <= p < a ==> input_node_for(ins[p], #[trigger] g[p])
    &&& forall|p: int| a <= p < a + b ==> op_node_for(ins, nodes, p - a, #[trigger] g[p])
    &&& forall|p: int|
        a + b <= p < g.len() ==> output_node_for(producers(ins, nodes), outs[p - a - b], #[trigger] g[p])
}

/// In the graph planned from a model, the node made for a `Reshape` operator
/// node whose `shape` attribute is the integer list `v` has that node's name
/// and reshapes to `v`, entry for entry.
pub proof fn lemma_planned_reshape(
    ins: Seq<(String, String, Vec<usize>)>,
    nodes: Seq<OnnxNode>,
    outs: Seq<Seq<char>>,
    g: Seq<Node>,
    k: int,
    v: Vec<i64>,
)
    requires
        planned_graph(ins, nodes, outs, g),
        0 <= k < nodes.len(),
        nodes[k].op_type@ == "Reshape"@,
        as_map(nodes[k].attributes@).contains_key("shape"@),
        as_map(nodes[k].attributes@)["shape"@] == OnnxAttribute::Ints(v),
    ensures
        g[ins.len() + k].id@ == nodes[k].name@,
        g[ins.len() + k].node_type is Reshape,
        g[ins.len() + k].node_type->Reshape_target_shape@ == v@,
{
    let p = ins.len() + k;
    assert(op_node_for(ins, nodes, p - ins.len(), g[p]));
    lemma_reshape_attribute(nodes[k].name@, as_map(nodes[k].attributes@), g[p].node_type);
}

/// In the graph planned from a model, the graph inputs come first, each an
/// input node of the input's name, element type and shape that reads
/// nothing; the graph outputs come last, each an output node of the output's
/// name that reads the output's producer, or the empty identifier where the
/// output has none.
pub proof fn lemma_planned_ends(
    ins: Seq<(String, String, Vec<usize>)>,
    nodes: Seq<OnnxNode>,
    outs: Seq<Seq<char>>,
    g: Seq<Node>,
)
    requires
        planned_graph(ins, nodes, outs, g),
    ensures
        forall|p: int|
            0 <= p < ins.len() ==> (#[trigger] g[p]).id@ == ins[p].0@ && g[p].node_type is Input
                && g[p].node_type->Input_name@ == ins[p].0@ && g[p].node_type->Input_dtype@ == ins[p].1@
                && g[p].node_type->Input_shape@ == ins[p].2@ && g[p].inputs_view().len() == 0,
        forall|o: int|
            0 <= o < outs.len() ==> (#[trigger] g[ins.len() + nodes.len() + o]).id@ == outs[o]
                && g[ins.len() + nodes.len() + o].node_type is Output
                && g[ins.len() + nodes.len() + o].node_type->Output_name@ == outs[o],
        forall|o: int|
            0 <= o < outs.len() && producers(ins, nodes).contains_key(outs[o])
                ==> (#[trigger] g[ins.len() + nodes.len() + o]).inputs_view() == seq![producers(ins, nodes)[outs[o]]],
        forall|o: int|
            0 <= o < outs.len() && !producers(ins, nodes).contains_key(outs[o])
                ==> (#[trigger] g[ins.len() + nodes.len() + o]).inputs_view() == seq![Seq::<char>::empty()],
{
    let a = ins.len() as int;
    let b = nodes.len() as int;
    assert forall|o: int| 0 <= o < outs.len() implies output_node_for(
        producers(ins, nodes),
        outs[o],
        #[trigger] g[ins.len() + nodes.len() + o],
    ) by {
        assert(output_node_for(producers(ins, nodes), outs[a + b + o - a - b], g[a + b + o]));
    }
}

/// Whether the operator node added at position `p` has an unsupported type.
pub open spec fn unsupported_at(ins: Seq<(String, String, Vec<usize>)>, nodes: Seq<OnnxNode>, p: int) -> bool {
    ins.len() <= p < ins.len() + nodes.len() && !convertible(nodes[p - ins.len()].op_type@)
}

/// Whether adding the node at position `p` fails: its operator type is
/// unsupported, or its identifier is taken.
pub open spec fn fails_at(
    ins: Seq<(String, String, Vec<usize>)>,
    nodes: Seq<OnnxNode>,
    outs: Seq<Seq<char>>,
    p: int,
) -> bool {
    let ids = planned_ids(ins, nodes, outs);
    unsupported_at(ins, nodes, p) || ids.take(p).contains(ids[p])
}

/// Whether adding nodes fails first at position `p`.
pub open spec fn first_failure(
    ins: Seq<(String, String, Vec<usize>)>,
    nodes: Seq<OnnxNode>,
    outs: Seq<Seq<char>>,
    p: int,
) -> bool {
    &&& 0 <= p < planned_ids(ins, nodes, outs).len()
    &&& fails_at(ins, nodes, outs, p)
    &&& forall|q: int| 0 <= q < p ==> !#[trigger] fails_at(ins, nodes, outs, q)
}

/// Whether every node can be added.
pub open spec fn no_failure(ins: Seq<(String, String, Vec<usize>)>, nodes: Seq<OnnxNode>, outs: Seq<Seq<char>>) -> bool {
    forall|p: int| 0 <= p < planned_ids(ins, nodes, outs).len() ==> !#[trigger] fails_at(ins, nodes, outs, p)
}

/// The error `into_graph` answers when adding fails first at position `p`.
pub open spec fn failure_error(
    ins: Seq<(String, String, Vec<usize>)>,
    nodes: Seq<OnnxNode>,
    outs: Seq<Seq<char>>,
    p: int,
    e: OnnxLoadError,
) -> bool {
    if unsupported_at(ins, nodes, p) {
        e matches OnnxLoadError::UnsupportedOpType(s) && s@ == nodes[p - ins.len()].op_type@
    } else {
        e matches OnnxLoadError::GraphBuildFailed(GraphError::BuildFailed(m)) && m@ == duplicate_id_text(
            planned_ids(ins, nodes, outs)[p],
        )
    }
}

/// The map that a list of `(name, identifier)` pairs describes, read as text.
pub open spec fn text_map(v: Seq<(String, String)>) -> Map<Seq<char>, Seq<char>> {
    as_map(v).map_values(|s: String| s@)
}

/// A failure at `i`, after none before it, is the first failure, and the only one.
proof fn lemma_first_failure_at(
    ins: Seq<(String, String, Vec<usize>)>,
    nodes: Seq<OnnxNode>,
    outs: Seq<Seq<char>>,
    i: int,
)
    requires
        0 <= i < planned_ids(ins, nodes, outs).len(),
        fails_at(ins, nodes, outs, i),
        forall|q: int| 0 <= q < i ==> !#[trigger] fails_at(ins, nodes, outs, q),
    ensures
        forall|p: int| #[trigger] first_failure(ins, nodes, outs, p) <==> p == i,
        !no_failure(ins, nodes, outs),
{
    assert forall|p: int| #[trigger] first_failure(ins, nodes, outs, p) implies p == i by {
        if p > i {
            assert(!fails_at(ins, nodes, outs, i));
        }
    }
}

/// A model collected for conversion: operator nodes, graph inputs as
/// `(name, dtype, shape)`, graph outputs, initialisers and descriptive
/// information.
#[derive(Debug)]
pub struct OnnxLoader {
    nodes: Vec<OnnxNode>,
    inputs: Vec<(String, String, Vec<usize>)>,
    outputs: Vec<String>,
    initializers: Vec<(String, Vec<u32>)>,
    model_info: OnnxModelInfo,
}

impl OnnxLoader {
    /// The operator nodes, in the order they were added.
    pub closed spec fn nodes_view(&self) -> Seq<OnnxNode> {
        self.nodes@
    }

    /// The graph inputs `(name, dtype, shape)`, in the order they were added.
    pub closed spec fn inputs_view(&self) -> Seq<(String, String, Vec<usize>)> {
        self.inputs@
    }

    /// The names of the graph outputs, in the order they were added.
    pub closed spec fn outputs_view(&self) -> Seq<Seq<char>> {
        str_views(self.outputs@)
    }

    /// The initialisers: each name to the bit patterns of its `f32` values; a
    /// later entry for a name replaces an earlier one.
    pub closed spec fn initializers_view(&self) -> Map<Seq<char>, Seq<u32>> {
        as_map(self.initializers@).map_values(|v: Vec<u32>| v@)
    }

    /// The descriptive information.
    pub closed spec fn info_view(&self) -> OnnxModelInfo {
        self.model_info
    }

    /// An empty loader.
    pub fn new() -> (r: OnnxLoader)
        ensures
            r.nodes_view().len() == 0,
            r.inputs_view().len() == 0,
            r.outputs_view().len() == 0,
            r.initializers_view() == Map::<Seq<char>, Seq<u32>>::empty(),
            is_blank_info(r.info_view()),
    {
        let r = OnnxLoader {
            nodes: Vec::new(),
            inputs: Vec::new(),
            outputs: Vec::new(),
            initializers: Vec::new(),
            model_info: OnnxModelInfo::default(),
        };
        proof {
            assert(r.initializers_view() =~= Map::<Seq<char>, Seq<u32>>::empty());
        }
        r
    }

    /// A loader for a model file with contents `bytes`, whose graph is named
    /// `graph_name` (the file name without extension): a file shorter than
    /// four bytes is refused; otherwise the loader is empty.
    pub fn load_from_bytes(bytes: &[u8], graph_name: Option<String>) -> (r: Result<OnnxLoader, OnnxLoadError>)
        ensures
            r is Err <==> bytes@.len() < 4,
            r matches Err(e) ==> e matches OnnxLoadError::ParseError(m) && m@
                == "文件太小，不是有效的 ONNX 模型"@,
            r matches Ok(l) ==> l.nodes_view().len() == 0 && l.inputs_view().len() == 0
                && l.outputs_view().len() == 0 && l.initializers_view() == Map::<
                Seq<char>,
                Seq<u32>,
            >::empty() && l.info_view() == (OnnxModelInfo { graph_name, ..l.info_view() })
                && is_blank_info(OnnxModelInfo { graph_name: None, ..l.info_view() }),
    {
        if bytes.len() < 4 {
            return Err(OnnxLoadError::ParseError(owned("文件太小，不是有效的 ONNX 模型")));
        }
        let mut loader = OnnxLoader::new();
        loader.model_info = OnnxModelInfo { graph_name, ..OnnxModelInfo::default() };
        Ok(loader)
    }

    /// Adds an operator node.
    pub fn add_node(&mut self, node: OnnxNode)
        ensures
            final(self).nodes_view() == old(self).nodes_view().push(node),
            final(self).inputs_view() == old(self).inputs_view(),
            final(self).outputs_view() == old(self).outputs_view(),
            final(self).initializers_view() == old(self).initializers_view(),
            final(self).info_view() == old(self).info_view(),
    {
        self.nodes.push(node);
    }

    /// Adds a graph input `name` with element type `dtype` and shape `shape`.
    pub fn add_input(&mut self, name: &str, dtype: &str, shape: Vec<usize>)
        ensures
            final(self).inputs_view().len() == old(self).inputs_view().len() + 1,
            final(self).inputs_view().drop_last() == old(self).inputs_view(),
            final(self).inputs_view().last().0@ == name@,
            final(self).inputs_view().last().1@ == dtype@,
            final(self).inputs_view().last().2@ == shape@,
            final(self).nodes_view() == old(self).nodes_view(),
            final(self).outputs_view() == old(self).outputs_view(),
            final(self).initializers_view() == old(self).initializers_view(),
            final(self).info_view() == old(self).info_view(),
    {
        let ghost before = self.inputs@;
        self.inputs.push((owned(name), owned(dtype), shape));
        proof {
            assert(self.inputs@.drop_last() =~= before);
        }
    }

    /// Adds a graph output `name`.
    pub fn add_output(&mut self, name: &str)
        ensures
            final(self).outputs_view() == old(self).outputs_view().push(name@),
            final(self).nodes_view() == old(self).nodes_view(),
            final(self).inputs_view() == old(self).inputs_view(),
            final(self).initializers_view() == old(self).initializers_view(),
            final(self).info_view() == old(self).info_view(),
    {
        let ghost before = self.outputs@;
        self.outputs.push(owned(name));
        proof {
            assert(str_views(self.outputs@) =~= str_views(before).push(name@));
        }
    }

    /// Sets the initialiser `name` to `data`, the bit patterns of its `f32`
    /// values, replacing an earlier one of that name.
    pub fn add_initializer(&mut self, name: &str, data: Vec<u32>)
        ensures
            final(self).initializers_view() == old(self).initializers_view().insert(name@, data@),
            final(self).nodes_view() == old(self).nodes_view(),
            final(self).inputs_view() == old(self).inputs_view(),
            final(self).outputs_view() == old(self).outputs_view(),
            final(self).info_view() == old(self).info_view(),
    {
        let ghost before = self.initializers@;
        let ghost d = data@;
        self.initializers.push((owned(name), data));
        proof {
            assert(self.initializers@.drop_last() =~= before);
            assert(as_map(self.initializers@).map_values(|v: Vec<u32>| v@) =~= as_map(before).map_values(
                |v: Vec<u32>| v@,
            ).insert(name@, d));
        }
    }

    /// The descriptive information.
    pub fn model_info(&self) -> (r: &OnnxModelInfo)
        ensures
            *r == self.info_view(),
    {
        &self.model_info
    }

    /// The operator nodes, in the order they were added.
    pub fn nodes(&self) -> (r: &[OnnxNode])
        ensures
            r@ == self.nodes_view(),
    {
        self.nodes.as_slice()
    }

    /// The graph inputs `(name, dtype, shape)`, in the order they were added.
    pub fn inputs(&self) -> (r: &[(String, String, Vec<usize>)])
        ensures
            r@ == self.inputs_view(),
    {
        self.inputs.as_slice()
    }

    /// The names of the graph outputs, in the order they were added.
    pub fn outputs(&self) -> (r: &[String])
        ensures
            str_views(r@) == self.outputs_view(),
    {
        self.outputs.as_slice()
    }

    /// Maps the operator type `op_type` of the node `name` with attributes
    /// `attributes` onto a node type.
    pub fn convert_op_type(&self, op_type: &str, name: &str, attributes: &Vec<(String, OnnxAttribute)>) -> (r: Result<NodeType, OnnxLoadError>)
        ensures
            r is Ok <==> convertible(op_type@),
            r matches Ok(t) ==> converts_to(op_type@, name@, as_map(attributes@), t),
            r matches Err(e) ==> e matches OnnxLoadError::UnsupportedOpType(s) && s@ == op_type@,
            forall|v: Vec<i64>|
                op_type@ == "Conv"@ && as_map(attributes@).contains_key("pads"@) && as_map(attributes@)["pads"@]
                    == OnnxAttribute::Ints(v) && v@.len() >= 2 ==> r is Ok && r->Ok_0 is Conv2D
                    && r->Ok_0->Conv2D_padding == (v@[0] as usize, v@[1] as usize),
            forall|v: Vec<i64>|
                op_type@ == "Reshape"@ && as_map(attributes@).contains_key("shape"@) && as_map(attributes@)["shape"@]
                    == OnnxAttribute::Ints(v) ==> r is Ok && r->Ok_0 is Reshape && r->Ok_0->Reshape_target_shape@
                    == v@,
    {
        let r = map_op_type(op_type, name, attributes);
        proof {
            if op_type@ == "Conv"@ {
                lemma_conv_attributes(name@, as_map(attributes@), r->Ok_0);
            }
            if op_type@ == "Reshape"@ {
                lemma_reshape_attribute(name@, as_map(attributes@), r->Ok_0);
            }
        }
        r
    }
    /// Turns the model into a graph: an input node for each graph input, a
    /// node for each operator node, wired to the producers of the values it
    /// reads (a value without a producer, such as an initialiser, is left
    /// out), and an output node for each graph output, reading its producer
    /// or the empty identifier. The graph is then checked and ordered by
    /// `GraphBuilder::build`.
    pub fn into_graph(self) -> (r: Result<Graph, OnnxLoadError>)
        ensures
            forall|p: int|
                #[trigger] first_failure(self.inputs_view(), self.nodes_view(), self.outputs_view(), p)
                    ==> (r matches Err(e) && failure_error(
                    self.inputs_view(),
                    self.nodes_view(),
                    self.outputs_view(),
                    p,
                    e,
                )),
            no_failure(self.inputs_view(), self.nodes_view(), self.outputs_view()) ==> exists|
                g: Seq<Node>,
            |
                #[trigger] planned_graph(self.inputs_view(), self.nodes_view(), self.outputs_view(), g)
                    && (r is Ok <==> build_succeeds(g)) && (r matches Ok(graph) ==> graph.nodes_view()
                    == g && is_execution_order(graph.nodes_view(), graph.order_view())) && (r matches Err(
                    e,
                ) ==> e matches OnnxLoadError::GraphBuildFailed(ge) && build_error(g, ge)),
    {
        let ghost ins = self.inputs@;
        let ghost nodes = self.nodes@;
        let ghost outs = str_views(self.outputs@);
        let ghost ids = planned_ids(ins, nodes, outs);
        let ghost a = ins.len() as int;
        let ghost b = nodes.len() as int;
        let mut builder = GraphBuilder::new();
        proof {
            assert(node_ids(builder.nodes_view()) =~= ids.take(0));
        }
        let mut i: usize = 0;
        while i < self.inputs.len()
            invariant
                ins == self.inputs@,
                nodes == self.nodes@,
                outs == str_views(self.outputs@),
                ids == planned_ids(ins, nodes, outs),
                a == ins.len(),
                b == nodes.len(),
                i <= a,
                builder.nodes_view().len() == i,
                node_ids(builder.nodes_view()) == ids.take(i as int),
                forall|p: int| 0 <= p < i ==> input_node_for(ins[p], #[trigger] builder.nodes_view()[p]),
                forall|q: int| 0 <= q < i ==> !#[trigger] fails_at(ins, nodes, outs, q),
            decreases a - i,
        {
            let t = &self.inputs[i];
            let ghost before = builder.nodes_view();
            match builder.input(t.0.as_str(), t.1.as_str(), copy_usizes(&t.2)) {
                Ok(_) => {},
                Err(e) => {
                    proof {
                        assert(ids[i as int] == t.0@);
                        assert(fails_at(ins, nodes, outs, i as int));
                        lemma_first_failure_at(ins, nodes, outs, i as int);
                    }
                    return Err(OnnxLoadError::GraphBuildFailed(e));
                },
            }
            proof {
                let now = builder.nodes_view();
                assert(ids[i as int] == t.0@);
                assert(node_ids(now) =~= node_ids(before).push(t.0@));
                assert(ids.take(i + 1) =~= ids.take(i as int).push(ids[i as int]));
                assert(!fails_at(ins, nodes, outs, i as int));
                assert forall|p: int| 0 <= p <= i implies input_node_for(ins[p], #[trigger] now[p]) by {
                    if p < i {
                        assert(now[p] == before[p]);
                    }
                }
            }
            i = i + 1;
        }
        let mut names: Vec<(String, String)> = Vec::new();
        let mut i: usize = 0;
        proof {
            assert(text_map(names@) =~= Map::new(
                |k: Seq<char>| input_names(ins.take(0)).contains(k),
                |k: Seq<char>| k,
            ));
        }
        while i < self.inputs.len()
            invariant
                ins == self.inputs@,
                i <= ins.len(),
                keys_unique(names@),
                text_map(names@) == Map::new(
                    |k: Seq<char>| input_names(ins.take(i as int)).contains(k),
                    |k: Seq<char>| k,
                ),
            decreases ins.len() - i,
        {
            let name = &self.inputs[i].0;
            let ghost prev = names@;
            put(&mut names, owned(name.as_str()), owned(name.as_str()));
            proof {
                assert(text_map(names@) =~= text_map(prev).insert(name@, name@));
                let ghost before_names = input_names(ins.take(i as int));
                assert(input_names(ins.take(i + 1)) =~= before_names.push(name@));
                assert forall|x: Seq<char>| #[trigger] before_names.push(name@).contains(x) <==> (
                before_names.contains(x) || x == name@) by {
                    if before_names.push(name@).contains(x) {
                        let w = choose|w: int| 0 <= w < before_names.len() + 1 && before_names.push(name@)[w] == x;
                        if w < before_names.len() {
                            assert(before_names[w] == x);
                        }
                    }
                    if before_names.contains(x) {
                        let w = choose|w: int| 0 <= w < before_names.len() && before_names[w] == x;
                        assert(before_names.push(name@)[w] == x);
                    }
                    if x == name@ {
                        assert(before_names.push(name@)[before_names.len() as int] == x);
                    }
                }
                assert(text_map(names@) =~= Map::new(
                    |k: Seq<char>| input_names(ins.take(i + 1)).contains(k),
                    |k: Seq<char>| k,
                ));
            }
            i = i + 1;
        }
        proof {
            assert(ins.take(a) =~= ins);
            assert(nodes.take(0).len() == 0);
            assert(text_map(names@) =~= producers(ins, nodes.take(0)));
        }
        let mut k: usize = 0;
        while k < self.nodes.len()
            invariant
                ins == self.inputs@,
                nodes == self.nodes@,
                outs == str_views(self.outputs@),
                ids == planned_ids(ins, nodes, outs),
                a == ins.len(),
                b == nodes.len(),
                k <= b,
                builder.nodes_view().len() == a + k,
                node_ids(builder.nodes_view()) == ids.take(a + k),
                forall|p: int| 0 <= p < a ==> input_node_for(ins[p], #[trigger] builder.nodes_view()[p]),
                forall|p: int|
                    a <= p < a + k ==> op_node_for(ins, nodes, p - a, #[trigger] builder.nodes_view()[p]),
                forall|q: int| 0 <= q < a + k ==> !#[trigger] fails_at(ins, nodes, outs, q),
                keys_unique(names@),
                text_map(names@) == producers(ins, nodes.take(k as int)),
            decreases b - k,
        {
            let o = &self.nodes[k];
            let ghost m = producers(ins, nodes.take(k as int));
            let node_type = match map_op_type(o.op_type.as_str(), o.name.as_str(), &o.attributes) {
                Ok(t) => t,
                Err(e) => {
                    proof {
                        assert(unsupported_at(ins, nodes, a + k));
                        assert(fails_at(ins, nodes, outs, a + k));
                        lemma_first_failure_at(ins, nodes, outs, a + k);
                    }
                    return Err(e);
                },
            };
            let ghost nt = node_type;
            let mut node = Node::new(o.name.as_str(), node_type);
            let ghost reads = str_views(o.inputs@);
            let mut j: usize = 0;
            proof {
                assert(reads.take(0).len() == 0);
            }
            while j < o.inputs.len()
                invariant
                    reads == str_views(o.inputs@),
                    j <= reads.len(),
                    text_map(names@) == m,
                    node.id@ == o.name@,
                    node.node_type == nt,
                    node.inputs_view() == wired(reads.take(j as int), m),
                    node.params_view().len() == 0,
                    node.outputs@.len() == 0,
                decreases reads.len() - j,
            {
                let read = &o.inputs[j];
                proof {
                    assert(reads.take(j + 1).drop_last() =~= reads.take(j as int));
                    assert(reads.take(j + 1).last() == read@);
                }
                match lookup(&names, read.as_str()) {
                    Some(src) => {
                        node = node.with_input(src.as_str());
                    },
                    None => {},
                }
                j = j + 1;
            }
            proof {
                assert(reads.take(reads.len() as int) =~= reads);
            }
            let ghost made = node;
            let ghost before = builder.nodes_view();
            match builder.graph_add_node(node) {
                Ok(()) => {},
                Err(e) => {
                    proof {
                        assert(ids[a + k] == o.name@);
                        assert(!unsupported_at(ins, nodes, a + k));
                        assert(fails_at(ins, nodes, outs, a + k));
                        lemma_first_failure_at(ins, nodes, outs, a + k);
                    }
                    return Err(OnnxLoadError::GraphBuildFailed(e));
                },
            }
            let writes = &o.outputs;
            let ghost wv = str_views(writes@);
            let mut j: usize = 0;
            proof {
                assert(wv.take(0).len() == 0);
            }
            while j < writes.len()
                invariant
                    wv == str_views(writes@),
                    j <= wv.len(),
                    keys_unique(names@),
                    text_map(names@) == bind_all(m, wv.take(j as int), o.name@),
                decreases wv.len() - j,
            {
                let ghost prev = names@;
                put(&mut names, owned(writes[j].as_str()), owned(o.name.as_str()));
                proof {
                    assert(text_map(names@) =~= text_map(prev).insert(writes@[j as int]@, o.name@));
                    assert(wv.take(j + 1).drop_last() =~= wv.take(j as int));
                    assert(wv.take(j + 1).last() == writes@[j as int]@);
                }
                j = j + 1;
            }
            proof {
                let now = builder.nodes_view();
                assert(wv.take(wv.len() as int) =~= wv);
                assert(nodes.take(k + 1).drop_last() =~= nodes.take(k as int));
                assert(nodes.take(k + 1).last() == nodes[k as int]);
                assert(ids[a + k] == o.name@);
                assert(node_ids(now) =~= node_ids(before).push(made.id@));
                assert(ids.take(a + k + 1) =~= ids.take(a + k).push(ids[a + k]));
                assert(!fails_at(ins, nodes, outs, a + k));
                assert(op_node_for(ins, nodes, k as int, made));
                assert forall|p: int| 0 <= p < a implies input_node_for(ins[p], #[trigger] now[p]) by {
                    assert(now[p] == before[p]);
                }
                assert forall|p: int| a <= p < a + k + 1 implies op_node_for(
                    ins,
                    nodes,
                    p - a,
                    #[trigger] now[p],
                ) by {
                    if p < a + k {
                        assert(now[p] == before[p]);
                    }
                }
            }
            k = k + 1;
        }
        proof {
            assert(nodes.take(b) =~= nodes);
        }
        let ghost m = producers(ins, nodes);
        let mut j: usize = 0;
        while j < self.outputs.len()
            invariant
                ins == self.inputs@,
                nodes == self.nodes@,
                outs == str_views(self.outputs@),
                ids == planned_ids(ins, nodes, outs),
                a == ins.len(),
                b == nodes.len(),
                m == producers(ins, nodes),
                j <= outs.len(),
                builder.nodes_view().len() == a + b + j,
                node_ids(builder.nodes_view()) == ids.take(a + b + j),
                forall|p: int| 0 <= p < a ==> input_node_for(ins[p], #[trigger] builder.nodes_view()[p]),
                forall|p: int|
                    a <= p < a + b ==> op_node_for(ins, nodes, p - a, #[trigger] builder.nodes_view()[p]),
                forall|p: int|
                    a + b <= p < a + b + j ==> output_node_for(m, outs[p - a - b], #[trigger] builder.nodes_view()[p]),
                forall|q: int| 0 <= q < a + b + j ==> !#[trigger] fails_at(ins, nodes, outs, q),
                text_map(names@) == m,
            decreases outs.len() - j,
        {
            let out = &self.outputs[j];
            let src: &str = match lookup(&names, out.as_str()) {
                Some(s) => s.as_str(),
                None => "",
            };
            proof {
                reveal_strlit("");
                assert(src@ == output_source(m, out@));
            }
            let ghost before = builder.nodes_view();
            match builder.output(out.as_str(), src) {
                Ok(_) => {},
                Err(e) => {
                    proof {
                        assert(ids[a + b + j] == out@);
                        assert(!unsupported_at(ins, nodes, a + b + j));
                        assert(fails_at(ins, nodes, outs, a + b + j));
                        lemma_first_failure_at(ins, nodes, outs, a + b + j);
                    }
                    return Err(OnnxLoadError::GraphBuildFailed(e));
                },
            }
            proof {
                let now = builder.nodes_view();
                assert(ids[a + b + j] == out@);
                assert(now.drop_last() == before);
                assert(node_ids(now) =~= node_ids(before).push(out@));
                assert(ids.take(a + b + j + 1) =~= ids.take(a + b + j).push(ids[a + b + j]));
                assert(!unsupported_at(ins, nodes, a + b + j));
                assert(!fails_at(ins, nodes, outs, a + b + j));
                assert forall|p: int| 0 <= p < a + b + j implies now[p] == before[p] by {
                    assert(now.drop_last()[p] == before[p]);
                }
                assert(output_node_for(m, outs[j as int], now[a + b + j]));
                assert forall|p: int| 0 <= p < a implies input_node_for(ins[p], #[trigger] now[p]) by {
                    assert(now[p] == before[p]);
                }
                assert forall|p: int| a <= p < a + b implies op_node_for(ins, nodes, p - a, #[trigger] now[p]) by {
                    assert(now[p] == before[p]);
                }
                assert forall|p: int| a + b <= p < a + b + j + 1 implies output_node_for(
                    m,
                    outs[p - a - b],
                    #[trigger] now[p],
                ) by {
                    if p < a + b + j {
                        assert(now[p] == before[p]);
                    }
                }
            }
            j = j + 1;
        }
        let ghost g = builder.nodes_view();
        proof {
            assert(planned_graph(ins, nodes, outs, g));
            assert forall|p: int| #[trigger] first_failure(ins, nodes, outs, p) implies false by {
                assert(!fails_at(ins, nodes, outs, p));
            }
        }
        match builder.build() {
            Ok(graph) => Ok(graph),
            Err(e) => Err(OnnxLoadError::GraphBuildFailed(e)),
        }
    }
    /// A loader holding the operator nodes read from `entries`, the node
    /// list of a model text, in order; the node count of the model
    /// information is their number.
    pub fn load_from_json_nodes(entries: Vec<JsonNode>) -> (r: OnnxLoader)
        ensures
            r.nodes_view().len() == entries@.len(),
            forall|i: int| 0 <= i < entries@.len() ==> node_from_entry(entries@[i].members@, #[trigger] r.nodes_view()[i]),
            r.inputs_view().len() == 0,
            r.outputs_view().len() == 0,
            r.initializers_view() == Map::<Seq<char>, Seq<u32>>::empty(),
            r.info_view().node_count == entries@.len(),
            is_blank_info(OnnxModelInfo { node_count: 0, ..r.info_view() }),
    {
        let mut loader = OnnxLoader::new();
        let mut i: usize = 0;
        while i < entries.len()
            invariant
                i <= entries@.len(),
                loader.nodes_view().len() == i,
                forall|p: int| 0 <= p < i ==> node_from_entry(entries@[p].members@, #[trigger] loader.nodes_view()[p]),
                loader.inputs_view().len() == 0,
                loader.outputs_view().len() == 0,
                loader.initializers_view() == Map::<Seq<char>, Seq<u32>>::empty(),
                is_blank_info(loader.info_view()),
            decreases entries@.len() - i,
        {
            let node = node_of_entry(&entries[i]);
            loader.add_node(node);
            i = i + 1;
        }
        loader.model_info.node_count = loader.nodes.len();
        loader
    }
}

impl Default for OnnxLoader {
    fn default() -> (r: OnnxLoader)
        ensures
            r.nodes_view().len() == 0,
            r.inputs_view().len() == 0,
            r.outputs_view().len() == 0,
            r.initializers_view() == Map::<Seq<char>, Seq<u32>>::empty(),
            is_blank_info(r.info_view()),
    {
        OnnxLoader::new()
    }
}

} // verus!
