//! Transformer components: configuration, attention and feed-forward
//! layers, their construction as graph nodes, and parameter accounting.

use vstd::prelude::*;
use crate::engine::graph::{
    build_succeeds, duplicate_id_text, lemma_input_listed, lemma_reads_earlier_orders, listed_before, node_ids,
    reads_earlier, unique_ids, GraphBuilder, GraphError, Node, NodeType,
};
use crate::engine::tensor::{lemma_product_one, lemma_product_two, shape_product, Tensor, TensorError};
use crate::text::{decimal, is_digit, join2, join3, lemma_decimal_digits, lemma_decimal_injective, owned, usize_text};

verus! {

/// The configuration of a Transformer encoder.
///
/// Floating-point settings are carried as the IEEE-754 bit pattern of the
/// `f64` value (`f64::to_bits`).
#[derive(Debug, Clone, Copy, PartialEq, Eq, Structural)]
pub struct TransformerConfig {
    /// Hidden size.
    pub d_model: usize,
    /// Number of attention heads.
    pub n_heads: usize,
    /// Number of Transformer blocks.
    pub n_layers: usize,
    /// Inner size of the feed-forward network.
    pub d_ff: usize,
    /// Vocabulary size.
    pub vocab_size: usize,
    /// Maximum sequence length.
    pub max_seq_len: usize,
    /// Bit pattern of the `f64` dropout rate.
    pub dropout_rate_bits: u64,
    /// Bit pattern of the `f64` layer-norm epsilon.
    pub layer_norm_epsilon_bits: u64,
    /// Whether the feed-forward activation is GELU (otherwise ReLU).
    pub use_gelu: bool,
}

/// Bit pattern of `0.1_f64`, the default dropout rate.
pub const DEFAULT_DROPOUT_BITS: u64 = 0x3fb999999999999a;

/// Bit pattern of `1e-6_f64`, the default layer-norm epsilon.
pub const DEFAULT_EPSILON_BITS: u64 = 0x3eb0c6f7a0b5ed8d;

/// Bit pattern of `1e-5_f64`, the layer-norm epsilon of the small configuration.
pub const SMALL_EPSILON_BITS: u64 = 0x3ee4f8b588e368f1;

impl Default for TransformerConfig {
    fn default() -> (r: TransformerConfig)
        ensures
            r == (TransformerConfig {
                d_model: 512,
                n_heads: 8,
                n_layers: 6,
                d_ff: 2048,
                vocab_size: 30000,
                max_seq_len: 512,
                dropout_rate_bits: DEFAULT_DROPOUT_BITS,
                layer_norm_epsilon_bits: DEFAULT_EPSILON_BITS,
                use_gelu: true,
            }),
    {
        TransformerConfig {
            d_model: 512,
            n_heads: 8,
            n_layers: 6,
            d_ff: 2048,
            vocab_size: 30000,
            max_seq_len: 512,
            dropout_rate_bits: DEFAULT_DROPOUT_BITS,
            layer_norm_epsilon_bits: DEFAULT_EPSILON_BITS,
            use_gelu: true,
        }
    }
}

/// What `validate` answers for `c`: `None` when the configuration is usable,
/// otherwise the message of the first failed check.
pub open spec fn config_problem(c: TransformerConfig) -> Option<Seq<char>> {
    if c.d_model == 0 {
        Some("d_model 不能为 0"@)
    } else if c.n_heads == 0 {
        Some("n_heads 不能为 0"@)
    } else if c.d_model % c.n_heads != 0 {
        Some(
            "d_model ("@ + decimal(c.d_model as nat) + ") 必须能被 n_heads ("@ + decimal(
                c.n_heads as nat,
            ) + ") 整除"@,
        )
    } else if c.n_layers == 0 {
        Some("n_layers 不能为 0"@)
    } else if c.d_ff == 0 {
        Some("d_ff 不能为 0"@)
    } else if c.vocab_size == 0 {
        Some("vocab_size 不能为 0"@)
    } else if c.max_seq_len == 0 {
        Some("max_seq_len 不能为 0"@)
    } else {
        None
    }
}

impl TransformerConfig {
    /// A small configuration for tests.
    pub fn small() -> (r: TransformerConfig)
        ensures
            r == (TransformerConfig {
                d_model: 64,
                n_heads: 4,
                n_layers: 2,
                d_ff: 128,
                vocab_size: 1000,
                max_seq_len: 32,
                dropout_rate_bits: 0,
                layer_norm_epsilon_bits: SMALL_EPSILON_BITS,
                use_gelu: true,
            }),
    {
        TransformerConfig {
            d_model: 64,
            n_heads: 4,
            n_layers: 2,
            d_ff: 128,
            vocab_size: 1000,
            max_seq_len: 32,
            dropout_rate_bits: 0,
            layer_norm_epsilon_bits: SMALL_EPSILON_BITS,
            use_gelu: true,
        }
    }

    /// The size of each attention head: `d_model / n_heads`, for a head count
    /// that divides the hidden size.
    pub fn head_dim(&self) -> (r: usize)
        requires
            self.n_heads > 0,
            self.d_model % self.n_heads == 0,
        ensures
            r == self.d_model / self.n_heads,
            r * self.n_heads == self.d_model,
    {
        proof {
            vstd::arithmetic::div_mod::lemma_fundamental_div_mod(
                self.d_model as int,
                self.n_heads as int,
            );
            assert((self.d_model / self.n_heads) * self.n_heads == self.n_heads * (self.d_model
                / self.n_heads)) by (nonlinear_arith);
        }
        self.d_model / self.n_heads
    }

    /// Checks that every size is positive and that the heads divide the
    /// hidden size; the first failed check is reported.
    pub fn validate(&self) -> (r: Result<(), String>)
        ensures
            r is Ok <==> config_problem(*self) is None,
            r is Ok <==> (self.d_model > 0 && self.n_heads > 0 && self.d_model % self.n_heads == 0
                && self.n_layers > 0 && self.d_ff > 0 && self.vocab_size > 0 && self.max_seq_len > 0),
            r matches Err(m) ==> config_problem(*self) == Some(m@),
    {
        if self.d_model == 0 {
            return Err(owned("d_model 不能为 0"));
        }
        if self.n_heads == 0 {
            return Err(owned("n_heads 不能为 0"));
        }
        if self.d_model % self.n_heads != 0 {
            let a = usize_text(self.d_model);
            let b = usize_text(self.n_heads);
            let head = join3("d_model (", a.as_str(), ") 必须能被 n_heads (");
            return Err(join3(head.as_str(), b.as_str(), ") 整除"));
        }
        if self.n_layers == 0 {
            return Err(owned("n_layers 不能为 0"));
        }
        if self.d_ff == 0 {
            return Err(owned("d_ff 不能为 0"));
        }
        if self.vocab_size == 0 {
            return Err(owned("vocab_size 不能为 0"));
        }
        if self.max_seq_len == 0 {
            return Err(owned("max_seq_len 不能为 0"));
        }
        Ok(())
    }
}

/// A configuration is usable exactly when every size is positive and the
/// heads divide the hidden size: a zero size, or heads that do not divide
/// the hidden size, is always reported.
pub proof fn lemma_config_usable(c: TransformerConfig)
    ensures
        config_problem(c) is None <==> (c.d_model > 0 && c.n_heads > 0 && c.d_model % c.n_heads == 0
            && c.n_layers > 0 && c.d_ff > 0 && c.vocab_size > 0 && c.max_seq_len > 0),
{
}

/// The checks run in a fixed order (hidden size, head count, divisibility,
/// layer count, feed-forward width, vocabulary size, sequence length), and
/// the message names the first one that fails, whatever the later fields hold.
pub proof fn lemma_config_first_problem(c: TransformerConfig)
    ensures
        c.d_model == 0 ==> config_problem(c) == Some("d_model 不能为 0"@),
        c.d_model > 0 && c.n_heads == 0 ==> config_problem(c) == Some("n_heads 不能为 0"@),
        c.d_model > 0 && c.n_heads > 0 && c.d_model % c.n_heads != 0 ==> config_problem(c) == Some(
            "d_model ("@ + decimal(c.d_model as nat) + ") 必须能被 n_heads ("@ + decimal(c.n_heads as nat)
                + ") 整除"@,
        ),
        c.d_model > 0 && c.n_heads > 0 && c.d_model % c.n_heads == 0 && c.n_layers == 0 ==> config_problem(c)
            == Some("n_layers 不能为 0"@),
        c.d_model > 0 && c.n_heads > 0 && c.d_model % c.n_heads == 0 && c.n_layers > 0 && c.d_ff == 0
            ==> config_problem(c) == Some("d_ff 不能为 0"@),
        c.d_model > 0 && c.n_heads > 0 && c.d_model % c.n_heads == 0 && c.n_layers > 0 && c.d_ff > 0
            && c.vocab_size == 0 ==> config_problem(c) == Some("vocab_size 不能为 0"@),
        c.d_model > 0 && c.n_heads > 0 && c.d_model % c.n_heads == 0 && c.n_layers > 0 && c.d_ff > 0
            && c.vocab_size > 0 && c.max_seq_len == 0 ==> config_problem(c) == Some("max_seq_len 不能为 0"@),
{
}

/// Whether `n` is a fully connected layer `id` over `input`, from `fin` to
/// `fout` features, with the parameters `id.weight` and `id.bias`.
pub open spec fn is_dense_node(n: Node, id: Seq<char>, input: Seq<char>, fin: usize, fout: usize) -> bool {
    &&& n.id@ == id
    &&& n.inputs_view() == seq![input]
    &&& n.params_view() == seq![id + ".weight"@, id + ".bias"@]
    &&& n.outputs@.len() == 0
    &&& n.node_type matches NodeType::Dense { name, in_features, out_features, has_bias }
    &&& name@ == id
    &&& in_features == fin
    &&& out_features == fout
    &&& has_bias
}

/// The identifiers of the nodes an attention layer named `l` adds, in order.
pub open spec fn attention_ids(l: Seq<char>) -> Seq<Seq<char>> {
    seq![l + ".q_proj"@, l + ".k_proj"@, l + ".v_proj"@, l + ".attention"@, l + ".out_proj"@]
}

/// Whether `nodes` holds, from position `at`, the five nodes of an attention
/// layer named `l` over `input` as configured by `c`.
pub open spec fn attention_nodes(
    nodes: Seq<Node>,
    at: int,
    l: Seq<char>,
    input: Seq<char>,
    c: TransformerConfig,
) -> bool {
    let ids = attention_ids(l);
    let d = c.d_model;
    &&& nodes.len() >= at + 5
    &&& is_dense_node(nodes[at], ids[0], input, d, d)
    &&& is_dense_node(nodes[at + 1], ids[1], input, d, d)
    &&& is_dense_node(nodes[at + 2], ids[2], input, d, d)
    &&& nodes[at + 3].id@ == ids[3]
    &&& nodes[at + 3].inputs_view() == seq![ids[0], ids[1], ids[2]]
    &&& nodes[at + 3].params_view() == seq![
        ids[0] + ".weight"@,
        ids[0] + ".bias"@,
        ids[1] + ".weight"@,
        ids[1] + ".bias"@,
        ids[2] + ".weight"@,
        ids[2] + ".bias"@,
    ]
    &&& nodes[at + 3].outputs@.len() == 0
    &&& nodes[at + 3].node_type == (NodeType::MultiHeadAttention {
        num_heads: c.n_heads,
        head_dim: (c.d_model / c.n_heads) as usize,
    })
    &&& is_dense_node(nodes[at + 4], ids[4], ids[3], d, d)
}

/// Multi-head self-attention: `softmax(Q K^T / sqrt(d_k)) V` over several heads.
#[derive(Debug)]
pub struct Attention {
    num_heads: usize,
    head_dim: usize,
    d_model: usize,
}

impl Attention {
    /// The number of heads.
    pub closed spec fn heads_view(&self) -> usize {
        self.num_heads
    }

    /// The size of each head.
    pub closed spec fn head_dim_view(&self) -> usize {
        self.head_dim
    }

    /// The hidden size.
    pub closed spec fn d_model_view(&self) -> usize {
        self.d_model
    }

    /// An attention layer of hidden size `d_model` split into `num_heads`
    /// heads; the heads must divide the hidden size.
    pub fn new(d_model: usize, num_heads: usize) -> (r: Result<Attention, TensorError>)
        requires
            num_heads > 0,
        ensures
            r is Ok <==> d_model % num_heads == 0,
            r matches Ok(a) ==> a.heads_view() == num_heads && a.head_dim_view() == d_model
                / num_heads && a.d_model_view() == d_model,
            r matches Err(e) ==> e matches TensorError::OperationFailed(m) && m@ == "d_model ("@
                + decimal(d_model as nat) + ") 必须能被 num_heads ("@ + decimal(num_heads as nat)
                + ") 整除"@,
    {
        if d_model % num_heads != 0 {
            let a = usize_text(d_model);
            let b = usize_text(num_heads);
            let head = join3("d_model (", a.as_str(), ") 必须能被 num_heads (");
            return Err(TensorError::OperationFailed(join3(head.as_str(), b.as_str(), ") 整除")));
        }
        Ok(Attention { num_heads, head_dim: d_model / num_heads, d_model })
    }

    /// The number of heads.
    pub fn num_heads(&self) -> (r: usize)
        ensures
            r == self.heads_view(),
    {
        self.num_heads
    }

    /// The size of each head.
    pub fn head_dim(&self) -> (r: usize)
        ensures
            r == self.head_dim_view(),
    {
        self.head_dim
    }

    /// Adds to `builder` the nodes of an attention layer named `layer_name`
    /// over `input_id`: the query, key and value projections, the attention
    /// node, and the output projection. Returns their identifiers in order.
    pub fn build_graph(
        builder: &mut GraphBuilder,
        layer_name: &str,
        input_id: &str,
        config: &TransformerConfig,
    ) -> (r: Result<Vec<String>, GraphError>)
        requires
            config.n_heads > 0,
            config.d_model % config.n_heads == 0,
        ensures
            r is Ok <==> forall|k: int|
                0 <= k < 5 ==> !node_ids(old(builder).nodes_view()).contains(
                    #[trigger] attention_ids(layer_name@)[k],
                ),
            r matches Ok(ids) ==> crate::engine::graph::str_views(ids@) == attention_ids(layer_name@),
            r is Ok ==> final(builder).nodes_view().len() == old(builder).nodes_view().len() + 5,
            final(builder).nodes_view().take(old(builder).nodes_view().len() as int)
                == old(builder).nodes_view(),
            r is Ok ==> attention_nodes(
                final(builder).nodes_view(),
                old(builder).nodes_view().len() as int,
                layer_name@,
                input_id@,
                *config,
            ),
            r matches Err(e) ==> exists|k: int|
                0 <= k < 5 && (e matches GraphError::BuildFailed(m) && m@ == duplicate_id_text(
                    #[trigger] attention_ids(layer_name@)[k],
                )),
    {
        let ghost old_nodes = builder.nodes_view();
        let ghost ids = attention_ids(layer_name@);
        proof {
            assert(old_nodes.take(old_nodes.len() as int) =~= old_nodes);
            lemma_attention_ids_distinct(layer_name@);
        }
        let mut out: Vec<String> = Vec::new();
        let q_name = join2(layer_name, ".q_proj");
        proof {
            lemma_grown_contains(old_nodes, old_nodes, ids[0]);
        }
        let q = match builder.dense(q_name.as_str(), config.d_model, config.d_model, input_id, true) {
            Ok(x) => x,
            Err(e) => {
                return Err(e);
            },
        };
        out.push(q.clone());
        let ghost n1 = builder.nodes_view();
        proof {
            lemma_take_chain(old_nodes, old_nodes, n1);
        }
        proof {
            lemma_grown_contains(old_nodes, n1, ids[1]);
        }
        let k_name = join2(layer_name, ".k_proj");
        let k = match builder.dense(k_name.as_str(), config.d_model, config.d_model, input_id, true) {
            Ok(x) => x,
            Err(e) => {
                proof {
                    lemma_grown_contains(old_nodes, n1, ids[1]);
                }
                return Err(e);
            },
        };
        out.push(k.clone());
        let ghost n2 = builder.nodes_view();
        proof {
            lemma_take_chain(old_nodes, n1, n2);
        }
        proof {
            lemma_grown_contains(old_nodes, n2, ids[2]);
        }
        let v_name = join2(layer_name, ".v_proj");
        let v = match builder.dense(v_name.as_str(), config.d_model, config.d_model, input_id, true) {
            Ok(x) => x,
            Err(e) => {
                proof {
                    lemma_grown_contains(old_nodes, n2, ids[2]);
                }
                return Err(e);
            },
        };
        out.push(v.clone());
        let ghost n3 = builder.nodes_view();
        proof {
            lemma_take_chain(old_nodes, n2, n3);
        }
        proof {
            lemma_grown_contains(old_nodes, n3, ids[3]);
        }
        let attn_name = join2(layer_name, ".attention");
        let node = Node::new(
            attn_name.as_str(),
            NodeType::MultiHeadAttention { num_heads: config.n_heads, head_dim: config.head_dim() },
        ).with_input(q.as_str()).with_input(k.as_str()).with_input(v.as_str()).with_param(
            join2(q_name.as_str(), ".weight").as_str(),
        ).with_param(join2(q_name.as_str(), ".bias").as_str()).with_param(
            join2(k_name.as_str(), ".weight").as_str(),
        ).with_param(join2(k_name.as_str(), ".bias").as_str()).with_param(
            join2(v_name.as_str(), ".weight").as_str(),
        ).with_param(join2(v_name.as_str(), ".bias").as_str());
        match builder.graph_add_node(node) {
            Ok(()) => {},
            Err(e) => {
                proof {
                    lemma_grown_contains(old_nodes, n3, ids[3]);
                }
                return Err(e);
            },
        }
        out.push(attn_name.clone());
        let ghost n4 = builder.nodes_view();
        proof {
            assert(n4.drop_last() =~= n3);
            lemma_take_chain(old_nodes, n3, n4);
        }
        proof {
            lemma_grown_contains(old_nodes, n4, ids[4]);
        }
        let o = match builder.dense(
            join2(layer_name, ".out_proj").as_str(),
            config.d_model,
            config.d_model,
            attn_name.as_str(),
            true,
        ) {
            Ok(x) => x,
            Err(e) => {
                proof {
                    lemma_grown_contains(old_nodes, n4, ids[4]);
                }
                return Err(e);
            },
        };
        out.push(o);
        proof {
            assert(crate::engine::graph::str_views(out@) =~= ids);
            let n5 = builder.nodes_view();
            let at = old_nodes.len() as int;
            assert(n5[at + 4] == n5.last());
            assert(n5.drop_last()[at + 3] == n5[at + 3]);
            assert(n4[at + 3] == n4.last());
            assert(n5.drop_last()[at + 2] == n5[at + 2]);
            assert(n4.drop_last()[at + 2] == n4[at + 2]);
            assert(n3[at + 2] == n3.last());
            assert(n5.drop_last()[at + 1] == n5[at + 1]);
            assert(n4.drop_last()[at + 1] == n4[at + 1]);
            assert(n3.drop_last()[at + 1] == n3[at + 1]);
            assert(n2[at + 1] == n2.last());
            assert(n5.drop_last()[at] == n5[at]);
            assert(n4.drop_last()[at] == n4[at]);
            assert(n3.drop_last()[at] == n3[at]);
            assert(n2.drop_last()[at] == n2[at]);
            assert(n1[at] == n1.last());
            assert(n4.last().params_view() =~= seq![
                ids[0] + ".weight"@,
                ids[0] + ".bias"@,
                ids[1] + ".weight"@,
                ids[1] + ".bias"@,
                ids[2] + ".weight"@,
                ids[2] + ".bias"@,
            ]);
            assert(n4.last().inputs_view() =~= seq![ids[0], ids[1], ids[2]]);
        }
        Ok(out)
    }
}

proof fn lemma_take_chain(old: Seq<Node>, mid: Seq<Node>, now: Seq<Node>)
    requires
        old.len() <= mid.len(),
        mid.take(old.len() as int) == old,
        now.len() == mid.len() + 1,
        now.drop_last() == mid,
    ensures
        now.take(old.len() as int) == old,
{
    assert forall|i: int| 0 <= i < old.len() implies now[i] == old[i] by {
        assert(now.drop_last()[i] == now[i]);
        assert(mid.take(old.len() as int)[i] == mid[i]);
    }
    assert(now.take(old.len() as int) =~= old);
}

/// A list of nodes that starts with `old` names `x` exactly when `old` does
/// or one of the nodes after it has identifier `x`.
proof fn lemma_grown_contains(old: Seq<Node>, now: Seq<Node>, x: Seq<char>)
    requires
        old.len() <= now.len(),
        now.take(old.len() as int) == old,
    ensures
        node_ids(now).contains(x) <==> (node_ids(old).contains(x) || exists|i: int|
            old.len() <= i < now.len() && #[trigger] now[i].id@ == x),
{
    if node_ids(now).contains(x) {
        let i = choose|i: int| 0 <= i < node_ids(now).len() && node_ids(now)[i] == x;
        if i < old.len() {
            assert(now[i] == old[i]);
            assert(node_ids(old)[i] == x);
        }
    }
    if node_ids(old).contains(x) {
        let i = choose|i: int| 0 <= i < node_ids(old).len() && node_ids(old)[i] == x;
        assert(now[i] == old[i]);
        assert(node_ids(now)[i] == x);
    }
    if exists|i: int| old.len() <= i < now.len() && #[trigger] now[i].id@ == x {
        let i = choose|i: int| old.len() <= i < now.len() && #[trigger] now[i].id@ == x;
        assert(node_ids(now)[i] == x);
    }
}

proof fn lemma_suffix_ne(l: Seq<char>, a: Seq<char>, b: Seq<char>)
    requires
        a != b,
    ensures
        l + a != l + b,
{
    assert((l + a).skip(l.len() as int) =~= a);
    assert((l + b).skip(l.len() as int) =~= b);
}

proof fn lemma_attention_ids_distinct(l: Seq<char>)
    ensures
        forall|i: int, j: int|
            0 <= i < 5 && 0 <= j < 5 && i != j ==> #[trigger] attention_ids(l)[i]
                != #[trigger] attention_ids(l)[j],
{
    reveal_strlit(".q_proj");
    reveal_strlit(".k_proj");
    reveal_strlit(".v_proj");
    reveal_strlit(".attention");
    reveal_strlit(".out_proj");
    let s = seq![".q_proj"@, ".k_proj"@, ".v_proj"@, ".attention"@, ".out_proj"@];
    assert(".q_proj"@[1] != ".k_proj"@[1]);
    assert(".q_proj"@[1] != ".v_proj"@[1]);
    assert(".k_proj"@[1] != ".v_proj"@[1]);
    assert(".q_proj"@.len() != ".attention"@.len());
    assert(".q_proj"@.len() != ".out_proj"@.len());
    assert(".k_proj"@.len() != ".attention"@.len());
    assert(".k_proj"@.len() != ".out_proj"@.len());
    assert(".v_proj"@.len() != ".attention"@.len());
    assert(".v_proj"@.len() != ".out_proj"@.len());
    assert(".attention"@.len() != ".out_proj"@.len());
    assert forall|i: int, j: int|
        0 <= i < 5 && 0 <= j < 5 && i != j implies #[trigger] attention_ids(l)[i]
            != #[trigger] attention_ids(l)[j] by {
        assert(attention_ids(l)[i] == l + s[i]);
        assert(attention_ids(l)[j] == l + s[j]);
        lemma_suffix_ne(l, s[i], s[j]);
    }
}

/// The identifiers of the nodes a Transformer block named `l` adds, in order.
pub open spec fn block_ids(l: Seq<char>) -> Seq<Seq<char>> {
    seq![l + ".norm1"@] + attention_ids(l) + seq![
        l + ".residual1"@,
        l + ".norm2"@,
        l + ".ffn.fc1"@,
        l + ".ffn.act"@,
        l + ".ffn.fc2"@,
        l + ".residual2"@,
    ]
}

/// Length, second character and last character of `s`.
spec fn signature(s: Seq<char>) -> (nat, char, char) {
    (s.len(), s[1], s[s.len() - 1])
}

proof fn lemma_block_ids_distinct(l: Seq<char>)
    ensures
        block_ids(l).len() == 12,
        forall|i: int, j: int|
            0 <= i < 12 && 0 <= j < 12 && i != j ==> #[trigger] block_ids(l)[i]
                != #[trigger] block_ids(l)[j],
{
    reveal_strlit(".norm1");
    reveal_strlit(".q_proj");
    reveal_strlit(".k_proj");
    reveal_strlit(".v_proj");
    reveal_strlit(".attention");
    reveal_strlit(".out_proj");
    reveal_strlit(".residual1");
    reveal_strlit(".norm2");
    reveal_strlit(".ffn.fc1");
    reveal_strlit(".ffn.act");
    reveal_strlit(".ffn.fc2");
    reveal_strlit(".residual2");
    let s = seq![
        ".norm1"@,
        ".q_proj"@,
        ".k_proj"@,
        ".v_proj"@,
        ".attention"@,
        ".out_proj"@,
        ".residual1"@,
        ".norm2"@,
        ".ffn.fc1"@,
        ".ffn.act"@,
        ".ffn.fc2"@,
        ".residual2"@,
    ];
    assert(block_ids(l) =~= s.map_values(|x: Seq<char>| l + x));
    assert forall|i: int, j: int| 0 <= i < 12 && 0 <= j < 12 && i != j implies s[i] != s[j] by {
        assert(signature(s[i]) != signature(s[j]));
    }
    assert forall|i: int, j: int|
        0 <= i < 12 && 0 <= j < 12 && i != j implies #[trigger] block_ids(l)[i]
            != #[trigger] block_ids(l)[j] by {
        lemma_suffix_ne(l, s[i], s[j]);
    }
}

/// `ids` holds no identifier twice.
pub open spec fn distinct_ids(ids: Seq<Seq<char>>) -> bool {
    forall|i: int, j: int| 0 <= i < ids.len() && 0 <= j < ids.len() && i != j ==> #[trigger] ids[i] != #[trigger] ids[j]
}

/// Whether `now` is `old` followed by nodes whose identifiers are the first
/// `j` of `ids`.
pub open spec fn grown_by(old: Seq<Node>, now: Seq<Node>, ids: Seq<Seq<char>>, j: int) -> bool {
    &&& now.len() == old.len() + j
    &&& now.take(old.len() as int) == old
    &&& node_ids(now) == node_ids(old) + ids.take(j)
}

/// Whether each of `ids`, in turn, is new: neither among `taken` nor among
/// the identifiers before it.
pub open spec fn fresh_ids(taken: Seq<Seq<char>>, ids: Seq<Seq<char>>) -> bool {
    forall|k: int| 0 <= k < ids.len() ==> !(taken + ids.take(k)).contains(#[trigger] ids[k])
}

proof fn lemma_unique_fresh(old: Seq<Node>, now: Seq<Node>, ids: Seq<Seq<char>>)
    requires
        grown_by(old, now, ids, ids.len() as int),
        unique_ids(now),
    ensures
        fresh_ids(node_ids(old), ids),
{
    let a = node_ids(old);
    assert(ids.take(ids.len() as int) =~= ids);
    assert forall|k: int| 0 <= k < ids.len() implies !(a + ids.take(k)).contains(#[trigger] ids[k]) by {
        if (a + ids.take(k)).contains(ids[k]) {
            let p = choose|p: int| 0 <= p < (a + ids.take(k)).len() && (a + ids.take(k))[p] == ids[k];
            let q = a.len() + k;
            assert(node_ids(now)[q] == ids[k]);
            if p < a.len() {
                assert((a + ids.take(k))[p] == a[p]);
                assert(node_ids(now)[p] == a[p]);
            } else {
                assert((a + ids.take(k))[p] == ids[p - a.len()]);
                assert(node_ids(now)[p] == ids[p - a.len()]);
            }
            assert(now[p].id@ == node_ids(now)[p]);
            assert(now[q].id@ == node_ids(now)[q]);
        }
    }
}

proof fn lemma_taken_not_fresh(old: Seq<Node>, prev: Seq<Node>, ids: Seq<Seq<char>>, j: int, k: int)
    requires
        grown_by(old, prev, ids, j),
        0 <= j <= k < ids.len(),
        node_ids(prev).contains(ids[k]),
    ensures
        !fresh_ids(node_ids(old), ids),
{
    let a = node_ids(old);
    let p = choose|p: int| 0 <= p < node_ids(prev).len() && node_ids(prev)[p] == ids[k];
    if p < a.len() {
        assert((a + ids.take(j))[p] == a[p]);
        assert((a + ids.take(k))[p] == a[p]);
    } else {
        assert((a + ids.take(j))[p] == ids[p - a.len()]);
        assert((a + ids.take(k))[p] == ids[p - a.len()]);
    }
    assert((a + ids.take(k)).contains(ids[k]));
}

proof fn lemma_grown_start(old: Seq<Node>, ids: Seq<Seq<char>>)
    ensures
        grown_by(old, old, ids, 0),
{
    assert(old.take(old.len() as int) =~= old);
    assert(node_ids(old) + ids.take(0) =~= node_ids(old));
}

proof fn lemma_grown_push(old: Seq<Node>, prev: Seq<Node>, now: Seq<Node>, ids: Seq<Seq<char>>, j: int)
    requires
        grown_by(old, prev, ids, j),
        0 <= j < ids.len(),
        now.len() == prev.len() + 1,
        now.drop_last() == prev,
        now.last().id@ == ids[j],
    ensures
        grown_by(old, now, ids, j + 1),
{
    assert(now.take(old.len() as int) =~= old) by {
        assert forall|i: int| 0 <= i < old.len() implies now[i] == old[i] by {
            assert(now.drop_last()[i] == now[i]);
            assert(prev.take(old.len() as int)[i] == prev[i]);
        }
    }
    assert(node_ids(now) =~= node_ids(old) + ids.take(j + 1)) by {
        assert(now =~= prev.push(now.last()));
        assert(node_ids(now) =~= node_ids(prev).push(ids[j]));
    }
}

proof fn lemma_grown_fresh(old: Seq<Node>, prev: Seq<Node>, ids: Seq<Seq<char>>, j: int, m: int)
    requires
        grown_by(old, prev, ids, j),
        distinct_ids(ids),
        0 <= j <= m < ids.len(),
    ensures
        node_ids(prev).contains(ids[m]) <==> node_ids(old).contains(ids[m]),
{
    let a = node_ids(old);
    let b = ids.take(j);
    if node_ids(prev).contains(ids[m]) {
        let i = choose|i: int| 0 <= i < node_ids(prev).len() && node_ids(prev)[i] == ids[m];
        if i >= a.len() {
            assert((a + b)[i] == b[i - a.len()]);
            assert(b[i - a.len()] == ids[i - a.len()]);
        } else {
            assert((a + b)[i] == a[i]);
        }
    }
    if a.contains(ids[m]) {
        let i = choose|i: int| 0 <= i < a.len() && a[i] == ids[m];
        assert((a + b)[i] == a[i]);
    }
}

proof fn lemma_grown_attention(
    old: Seq<Node>,
    prev: Seq<Node>,
    now: Seq<Node>,
    ids: Seq<Seq<char>>,
    j: int,
    l: Seq<char>,
    input: Seq<char>,
    c: TransformerConfig,
)
    requires
        grown_by(old, prev, ids, j),
        0 <= j,
        j + 5 <= ids.len(),
        ids.subrange(j, j + 5) == attention_ids(l),
        now.len() == prev.len() + 5,
        now.take(prev.len() as int) == prev,
        attention_nodes(now, prev.len() as int, l, input, c),
    ensures
        grown_by(old, now, ids, j + 5),
{
    assert(now.take(old.len() as int) =~= old) by {
        assert forall|i: int| 0 <= i < old.len() implies now[i] == old[i] by {
            assert(now.take(prev.len() as int)[i] == now[i]);
            assert(prev.take(old.len() as int)[i] == prev[i]);
        }
    }
    assert(node_ids(now) =~= node_ids(old) + ids.take(j + 5)) by {
        assert forall|i: int| 0 <= i < now.len() implies node_ids(now)[i] == (node_ids(old) + ids.take(j + 5))[i] by {
            if i < prev.len() {
                assert(now.take(prev.len() as int)[i] == now[i]);
                assert(node_ids(prev)[i] == node_ids(now)[i]);
            } else {
                let t = i - prev.len();
                assert(ids.subrange(j, j + 5)[t] == ids[j + t]);
                assert(attention_ids(l)[t] == now[prev.len() + t].id@);
            }
        }
    }
}

/// Whether `n` is a layer normalisation `id` over `input` across the last
/// axis of width `d`, with epsilon bit pattern `eps` and the parameters
/// `id.weight` and `id.bias`.
pub open spec fn is_norm_node(n: Node, id: Seq<char>, input: Seq<char>, d: usize, eps: u64) -> bool {
    &&& n.id@ == id
    &&& n.inputs_view() == seq![input]
    &&& n.params_view() == seq![id + ".weight"@, id + ".bias"@]
    &&& n.outputs@.len() == 0
    &&& n.node_type matches NodeType::LayerNorm { normalized_shape, epsilon_bits }
    &&& normalized_shape@ == seq![d]
    &&& epsilon_bits == eps
}

/// Whether `n` is a node `id` of type `t` over `inputs`, without parameters.
pub open spec fn is_plain_node(n: Node, id: Seq<char>, inputs: Seq<Seq<char>>, t: NodeType) -> bool {
    &&& n.id@ == id
    &&& n.inputs_view() == inputs
    &&& n.params_view() == Seq::<Seq<char>>::empty()
    &&& n.outputs@.len() == 0
    &&& n.node_type == t
}

/// Whether `nodes` holds, from position `at`, the twelve nodes of a
/// Transformer block named `l` over `input` as configured by `c`: a layer
/// normalisation, the attention layer over it, the residual sum with
/// `input`, a second normalisation, the feed-forward network (`d_model` to
/// `d_ff` features, GELU when `c.use_gelu` and ReLU otherwise, `d_ff` back to
/// `d_model`), and the residual sum with the first sum.
pub open spec fn block_nodes(nodes: Seq<Node>, at: int, l: Seq<char>, input: Seq<char>, c: TransformerConfig) -> bool {
    let ids = block_ids(l);
    let d = c.d_model;
    let eps = c.layer_norm_epsilon_bits;
    &&& nodes.len() >= at + 12
    &&& is_norm_node(nodes[at], ids[0], input, d, eps)
    &&& attention_nodes(nodes, at + 1, l, ids[0], c)
    &&& is_plain_node(nodes[at + 6], ids[6], seq![input, ids[5]], NodeType::Add)
    &&& is_norm_node(nodes[at + 7], ids[7], ids[6], d, eps)
    &&& is_dense_node(nodes[at + 8], ids[8], ids[7], d, c.d_ff)
    &&& is_plain_node(
        nodes[at + 9],
        ids[9],
        seq![ids[8]],
        if c.use_gelu {
            NodeType::GELU
        } else {
            NodeType::ReLU
        },
    )
    &&& is_dense_node(nodes[at + 10], ids[10], ids[9], c.d_ff, d)
    &&& is_plain_node(nodes[at + 11], ids[11], seq![ids[6], ids[10]], NodeType::Add)
}

/// Whether `t` is a fully connected layer with a bias from `fin` to `fout` features.
pub open spec fn dense_dims(t: NodeType, fin: usize, fout: usize) -> bool {
    t matches NodeType::Dense { in_features, out_features, has_bias, .. } && in_features == fin
        && out_features == fout && has_bias
}

/// The wiring of a Transformer block named `l` over `input`: `input` goes
/// through a layer normalisation, the query, key and value projections of
/// its result, the attention over those three and the output projection;
/// the first residual sum adds the block's own `input` to the output
/// projection; a second normalisation, the feed-forward network (`d_model`
/// to `d_ff` features, the activation, `d_ff` back to `d_model`), and the
/// second residual sum adds the first sum to the network's output. Both
/// normalisations run over `[d_model]` with the configured epsilon, and the
/// attention node reads the weights and biases of the three projections.
pub proof fn lemma_block_wiring(nodes: Seq<Node>, at: int, l: Seq<char>, input: Seq<char>, c: TransformerConfig)
    requires
        block_nodes(nodes, at, l, input, c),
    ensures
        nodes[at].id@ == l + ".norm1"@ && nodes[at].inputs_view() == seq![input]
            && nodes[at].node_type is LayerNorm,
        forall|k: int|
            k == 0 || k == 7 ==> #[trigger] nodes[at + k].node_type->LayerNorm_normalized_shape@ == seq![c.d_model]
                && nodes[at + k].node_type->LayerNorm_epsilon_bits == c.layer_norm_epsilon_bits,
        nodes[at + 4].params_view() == seq![
            l + ".q_proj.weight"@,
            l + ".q_proj.bias"@,
            l + ".k_proj.weight"@,
            l + ".k_proj.bias"@,
            l + ".v_proj.weight"@,
            l + ".v_proj.bias"@,
        ],
        forall|k: int|
            1 <= k <= 3 ==> #[trigger] nodes[at + k].inputs_view() == seq![l + ".norm1"@]
                && dense_dims(nodes[at + k].node_type, c.d_model, c.d_model),
        nodes[at + 1].id@ == l + ".q_proj"@,
        nodes[at + 2].id@ == l + ".k_proj"@,
        nodes[at + 3].id@ == l + ".v_proj"@,
        nodes[at + 4].id@ == l + ".attention"@ && nodes[at + 4].inputs_view() == seq![
            l + ".q_proj"@,
            l + ".k_proj"@,
            l + ".v_proj"@,
        ] && nodes[at + 4].node_type == (NodeType::MultiHeadAttention {
            num_heads: c.n_heads,
            head_dim: (c.d_model / c.n_heads) as usize,
        }),
        nodes[at + 5].id@ == l + ".out_proj"@ && nodes[at + 5].inputs_view() == seq![l + ".attention"@]
            && dense_dims(nodes[at + 5].node_type, c.d_model, c.d_model),
        nodes[at + 6].id@ == l + ".residual1"@ && nodes[at + 6].inputs_view() == seq![input, l + ".out_proj"@]
            && nodes[at + 6].node_type is Add,
        nodes[at + 7].id@ == l + ".norm2"@ && nodes[at + 7].inputs_view() == seq![l + ".residual1"@]
            && nodes[at + 7].node_type is LayerNorm,
        nodes[at + 8].id@ == l + ".ffn.fc1"@ && nodes[at + 8].inputs_view() == seq![l + ".norm2"@]
            && dense_dims(nodes[at + 8].node_type, c.d_model, c.d_ff),
        nodes[at + 9].id@ == l + ".ffn.act"@ && nodes[at + 9].inputs_view() == seq![l + ".ffn.fc1"@]
            && (c.use_gelu ==> nodes[at + 9].node_type is GELU) && (!c.use_gelu ==> nodes[at
            + 9].node_type is ReLU),
        nodes[at + 10].id@ == l + ".ffn.fc2"@ && nodes[at + 10].inputs_view() == seq![l + ".ffn.act"@]
            && dense_dims(nodes[at + 10].node_type, c.d_ff, c.d_model),
        nodes[at + 11].id@ == l + ".residual2"@ && nodes[at + 11].inputs_view() == seq![
            l + ".residual1"@,
            l + ".ffn.fc2"@,
        ] && nodes[at + 11].node_type is Add,
{
    let ids = block_ids(l);
    let a = attention_ids(l);
    assert(ids[1] == a[0] && ids[2] == a[1] && ids[3] == a[2] && ids[4] == a[3] && ids[5] == a[4]);
    lemma_node_param_literals();
    assert(nodes[at + 4].params_view() =~= seq![
        l + ".q_proj.weight"@,
        l + ".q_proj.bias"@,
        l + ".k_proj.weight"@,
        l + ".k_proj.bias"@,
        l + ".v_proj.weight"@,
        l + ".v_proj.bias"@,
    ]) by {
        assert((l + ".q_proj"@) + ".weight"@ =~= l + (".q_proj"@ + ".weight"@));
        assert((l + ".q_proj"@) + ".bias"@ =~= l + (".q_proj"@ + ".bias"@));
        assert((l + ".k_proj"@) + ".weight"@ =~= l + (".k_proj"@ + ".weight"@));
        assert((l + ".k_proj"@) + ".bias"@ =~= l + (".k_proj"@ + ".bias"@));
        assert((l + ".v_proj"@) + ".weight"@ =~= l + (".v_proj"@ + ".weight"@));
        assert((l + ".v_proj"@) + ".bias"@ =~= l + (".v_proj"@ + ".bias"@));
    }
    assert forall|k: int|
        1 <= k <= 3 implies #[trigger] nodes[at + k].inputs_view() == seq![l + ".norm1"@]
            && dense_dims(nodes[at + k].node_type, c.d_model, c.d_model) by {
        if k == 1 {
            assert(is_dense_node(nodes[at + 1], a[0], ids[0], c.d_model, c.d_model));
        } else if k == 2 {
            assert(is_dense_node(nodes[at + 2], a[1], ids[0], c.d_model, c.d_model));
        } else {
            assert(is_dense_node(nodes[at + 3], a[2], ids[0], c.d_model, c.d_model));
        }
    }
}

proof fn lemma_drop_keeps(a: Seq<Node>, b: Seq<Node>)
    requires
        b.len() == a.len() + 1,
        b.drop_last() == a,
    ensures
        b.take(a.len() as int) == a,
{
    assert(b.take(a.len() as int) =~= b.drop_last());
}

proof fn lemma_take_trans(a: Seq<Node>, b: Seq<Node>, c: Seq<Node>)
    requires
        a.len() <= b.len() <= c.len(),
        b.take(a.len() as int) == a,
        c.take(b.len() as int) == b,
    ensures
        c.take(a.len() as int) == a,
        forall|i: int| 0 <= i < a.len() ==> c[i] == #[trigger] a[i],
{
    assert forall|i: int| 0 <= i < a.len() implies c[i] == #[trigger] a[i] by {
        assert(c.take(b.len() as int)[i] == c[i]);
        assert(b.take(a.len() as int)[i] == b[i]);
    }
    assert(c.take(a.len() as int) =~= a);
}

/// A Transformer block: attention and feed-forward sub-layers, each behind
/// a layer normalisation and wrapped in a residual connection.
#[derive(Debug)]
pub struct TransformerBlock {
    attention: Attention,
    feed_forward: FeedForward,
    layer_norm_epsilon_bits: u64,
}

impl TransformerBlock {
    /// The attention layer.
    pub closed spec fn attention_view(&self) -> Attention {
        self.attention
    }

    /// The feed-forward layer.
    pub closed spec fn feed_forward_view(&self) -> FeedForward {
        self.feed_forward
    }

    /// The bit pattern of the layer-norm epsilon.
    pub closed spec fn epsilon_view(&self) -> u64 {
        self.layer_norm_epsilon_bits
    }

    /// A block configured by `config`; the heads must divide the hidden size.
    pub fn new(config: &TransformerConfig) -> (r: Result<TransformerBlock, TensorError>)
        requires
            config.n_heads > 0,
        ensures
            r is Ok <==> config.d_model % config.n_heads == 0,
            r matches Ok(b) ==> b.attention_view().heads_view() == config.n_heads
                && b.attention_view().head_dim_view() == config.d_model / config.n_heads
                && b.feed_forward_view().d_model_view() == config.d_model
                && b.feed_forward_view().d_ff_view() == config.d_ff
                && b.feed_forward_view().use_gelu_view() == config.use_gelu
                && b.epsilon_view() == config.layer_norm_epsilon_bits,
            r matches Err(e) ==> e matches TensorError::OperationFailed(m) && m@ == "d_model ("@
                + decimal(config.d_model as nat) + ") 必须能被 num_heads ("@ + decimal(
                config.n_heads as nat,
            ) + ") 整除"@,
    {
        let attention = Attention::new(config.d_model, config.n_heads)?;
        let feed_forward = FeedForward::new(config.d_model, config.d_ff, config.use_gelu);
        Ok(TransformerBlock {
            attention,
            feed_forward,
            layer_norm_epsilon_bits: config.layer_norm_epsilon_bits,
        })
    }

    /// Adds to `builder` the nodes of a block named `layer_name` over
    /// `input_id`: `x -> LayerNorm -> Attention -> Add(x) -> LayerNorm -> FFN
    /// -> Add`. Returns the identifier of the final sum.
    pub fn build_graph(
        builder: &mut GraphBuilder,
        layer_name: &str,
        input_id: &str,
        config: &TransformerConfig,
    ) -> (r: Result<String, GraphError>)
        requires
            config.n_heads > 0,
            config.d_model % config.n_heads == 0,
        ensures
            r is Ok <==> forall|k: int|
                0 <= k < 12 ==> !node_ids(old(builder).nodes_view()).contains(
                    #[trigger] block_ids(layer_name@)[k],
                ),
            r matches Ok(id) ==> id@ == layer_name@ + ".residual2"@,
            r is Ok ==> grown_by(
                old(builder).nodes_view(),
                final(builder).nodes_view(),
                block_ids(layer_name@),
                12,
            ),
            r is Ok ==> block_nodes(
                final(builder).nodes_view(),
                old(builder).nodes_view().len() as int,
                layer_name@,
                input_id@,
                *config,
            ),
            r is Ok ==> final(builder).nodes_view()[old(builder).nodes_view().len() as int].inputs_view()
                == seq![input_id@],
            r is Ok ==> final(builder).nodes_view()[old(builder).nodes_view().len() as int + 6].inputs_view()
                == seq![input_id@, layer_name@ + ".out_proj"@],
            r is Ok ==> final(builder).nodes_view()[old(builder).nodes_view().len() as int + 11].inputs_view()
                == seq![layer_name@ + ".residual1"@, layer_name@ + ".ffn.fc2"@],
            r matches Err(e) ==> exists|k: int|
                0 <= k < 12 && (e matches GraphError::BuildFailed(m) && m@ == duplicate_id_text(
                    #[trigger] block_ids(layer_name@)[k],
                )),
    {
        let ghost old = builder.nodes_view();
        let ghost ids = block_ids(layer_name@);
        proof {
            lemma_block_ids_distinct(layer_name@);
            lemma_grown_start(old, ids);
            assert(ids.subrange(1, 6) =~= attention_ids(layer_name@));
        }
        let d = config.d_model;
        let eps = config.layer_norm_epsilon_bits;
        let mut shape1 = Vec::new();
        shape1.push(d);
        proof {
            lemma_grown_fresh(old, old, ids, 0, 0);
            assert(ids[0] == layer_name@ + ".norm1"@);
            assert(shape1@ =~= seq![d]);
        }
        let norm1 = match builder.layer_norm(join2(layer_name, ".norm1").as_str(), input_id, shape1, eps) {
            Ok(x) => x,
            Err(e) => {
                return Err(e);
            },
        };
        let ghost n1 = builder.nodes_view();
        proof {
            lemma_grown_push(old, old, n1, ids, 0);
            assert forall|k: int| 1 <= k < 6 implies (node_ids(n1).contains(ids[k])
                <==> node_ids(old).contains(ids[k])) by {
                lemma_grown_fresh(old, n1, ids, 1, k);
            }
        }
        let attn = match Attention::build_graph(builder, layer_name, norm1.as_str(), config) {
            Ok(x) => x,
            Err(e) => {
                proof {
                    let k = choose|k: int|
                        0 <= k < 5 && (e matches GraphError::BuildFailed(m) && m@ == duplicate_id_text(
                            #[trigger] attention_ids(layer_name@)[k],
                        ));
                    assert(ids[k + 1] == attention_ids(layer_name@)[k]);
                }
                return Err(e);
            },
        };
        let ghost n6 = builder.nodes_view();
        proof {
            lemma_grown_attention(old, n1, n6, ids, 1, layer_name@, norm1@, *config);
            assert(attn@.len() == 5);
            assert(attn@[4]@ == ids[5]);
            lemma_grown_fresh(old, n6, ids, 6, 6);
        }
        let residual1 = match builder.add(
            join2(layer_name, ".residual1").as_str(),
            input_id,
            attn[4].as_str(),
        ) {
            Ok(x) => x,
            Err(e) => {
                return Err(e);
            },
        };
        let ghost n7 = builder.nodes_view();
        let mut shape2 = Vec::new();
        shape2.push(d);
        proof {
            lemma_grown_push(old, n6, n7, ids, 6);
            lemma_grown_fresh(old, n7, ids, 7, 7);
            assert(shape2@ =~= seq![d]);
        }
        let norm2 = match builder.layer_norm(
            join2(layer_name, ".norm2").as_str(),
            residual1.as_str(),
            shape2,
            eps,
        ) {
            Ok(x) => x,
            Err(e) => {
                return Err(e);
            },
        };
        let ghost n8 = builder.nodes_view();
        proof {
            lemma_grown_push(old, n7, n8, ids, 7);
            lemma_grown_fresh(old, n8, ids, 8, 8);
        }
        let fc1 = match builder.dense(
            join2(layer_name, ".ffn.fc1").as_str(),
            d,
            config.d_ff,
            norm2.as_str(),
            true,
        ) {
            Ok(x) => x,
            Err(e) => {
                return Err(e);
            },
        };
        let ghost n9 = builder.nodes_view();
        proof {
            lemma_grown_push(old, n8, n9, ids, 8);
            lemma_grown_fresh(old, n9, ids, 9, 9);
        }
        let act_name = join2(layer_name, ".ffn.act");
        let act_r = if config.use_gelu {
            builder.gelu(act_name.as_str(), fc1.as_str())
        } else {
            builder.relu(act_name.as_str(), fc1.as_str())
        };
        let act = match act_r {
            Ok(x) => x,
            Err(e) => {
                return Err(e);
            },
        };
        let ghost n10 = builder.nodes_view();
        proof {
            lemma_grown_push(old, n9, n10, ids, 9);
            lemma_grown_fresh(old, n10, ids, 10, 10);
        }
        let fc2 = match builder.dense(
            join2(layer_name, ".ffn.fc2").as_str(),
            config.d_ff,
            d,
            act.as_str(),
            true,
        ) {
            Ok(x) => x,
            Err(e) => {
                return Err(e);
            },
        };
        let ghost n11 = builder.nodes_view();
        proof {
            lemma_grown_push(old, n10, n11, ids, 10);
            lemma_grown_fresh(old, n11, ids, 11, 11);
        }
        let residual2 = match builder.add(
            join2(layer_name, ".residual2").as_str(),
            residual1.as_str(),
            fc2.as_str(),
        ) {
            Ok(x) => x,
            Err(e) => {
                return Err(e);
            },
        };
        proof {
            let f = builder.nodes_view();
            let at = old.len() as int;
            lemma_grown_push(old, n11, f, ids, 11);
            assert(ids.take(12) =~= ids);
            lemma_drop_keeps(n11, f);
            lemma_drop_keeps(n10, n11);
            lemma_drop_keeps(n9, n10);
            lemma_drop_keeps(n8, n9);
            lemma_drop_keeps(n7, n8);
            lemma_drop_keeps(n6, n7);
            lemma_drop_keeps(old, n1);
            lemma_take_trans(n10, n11, f);
            lemma_take_trans(n9, n10, f);
            lemma_take_trans(n8, n9, f);
            lemma_take_trans(n7, n8, f);
            lemma_take_trans(n6, n7, f);
            lemma_take_trans(n1, n6, f);
            assert(f[at] == n1[at]);
            assert(n1[at] == n1.last());
            assert(f[at + 6] == n7[at + 6] && n7[at + 6] == n7.last());
            assert(f[at + 7] == n8[at + 7] && n8[at + 7] == n8.last());
            assert(f[at + 8] == n9[at + 8] && n9[at + 8] == n9.last());
            assert(f[at + 9] == n10[at + 9] && n10[at + 9] == n10.last());
            assert(f[at + 10] == n11[at + 10] && n11[at + 10] == n11.last());
            assert(f[at + 11] == f.last());
            assert(f[at + 1] == n6[at + 1]);
            assert(f[at + 2] == n6[at + 2]);
            assert(f[at + 3] == n6[at + 3]);
            assert(f[at + 4] == n6[at + 4]);
            assert(f[at + 5] == n6[at + 5]);
            assert(ids[5] == layer_name@ + ".out_proj"@);
            assert(attention_nodes(f, at + 1, layer_name@, ids[0], *config));
            assert(n7.last().inputs_view() == seq![input_id@, ids[5]]);
            assert(n7.last().params_view() =~= Seq::<Seq<char>>::empty());
            assert(n10.last().params_view() =~= Seq::<Seq<char>>::empty());
            assert(f.last().params_view() =~= Seq::<Seq<char>>::empty());
            lemma_block_wiring(f, at, layer_name@, input_id@, *config);
        }
        Ok(residual2)
    }
}

/// The position-wise feed-forward network `activation(x W1 + b1) W2 + b2`.
#[derive(Debug)]
pub struct FeedForward {
    d_model: usize,
    d_ff: usize,
    use_gelu: bool,
}

impl FeedForward {
    /// The hidden size.
    pub closed spec fn d_model_view(&self) -> usize {
        self.d_model
    }

    /// The inner size.
    pub closed spec fn d_ff_view(&self) -> usize {
        self.d_ff
    }

    /// Whether the activation is GELU.
    pub closed spec fn use_gelu_view(&self) -> bool {
        self.use_gelu
    }

    /// A feed-forward layer from `d_model` through `d_ff` features.
    pub fn new(d_model: usize, d_ff: usize, use_gelu: bool) -> (r: FeedForward)
        ensures
            r.d_model_view() == d_model,
            r.d_ff_view() == d_ff,
            r.use_gelu_view() == use_gelu,
    {
        FeedForward { d_model, d_ff, use_gelu }
    }
}

/// An embedding table mapping token identifiers to vectors.
#[derive(Debug)]
pub struct Embedding {
    vocab_size: usize,
    embed_dim: usize,
}

impl Embedding {
    /// The number of rows of the table.
    pub closed spec fn vocab_view(&self) -> usize {
        self.vocab_size
    }

    /// The length of each vector.
    pub closed spec fn dim_view(&self) -> usize {
        self.embed_dim
    }

    /// A table of `vocab_size` vectors of length `embed_dim`.
    pub fn new(vocab_size: usize, embed_dim: usize) -> (r: Embedding)
        ensures
            r.vocab_view() == vocab_size,
            r.dim_view() == embed_dim,
    {
        Embedding { vocab_size, embed_dim }
    }

    /// The number of rows of the table.
    pub fn vocab_size(&self) -> (r: usize)
        ensures
            r == self.vocab_view(),
    {
        self.vocab_size
    }

    /// The length of each vector.
    pub fn embed_dim(&self) -> (r: usize)
        ensures
            r == self.dim_view(),
    {
        self.embed_dim
    }

    /// Adds to `builder` an embedding lookup `name` over `input_id`, with
    /// the parameter `name.weight`.
    pub fn build_graph(&self, builder: &mut GraphBuilder, name: &str, input_id: &str) -> (r: Result<
        String,
        GraphError,
    >)
        ensures
            crate::engine::graph::add_outcome(old(builder).nodes_view(), r, name@),
            r is Err ==> *final(builder) == *old(builder),
            r is Ok ==> crate::engine::graph::appended(
                old(builder).nodes_view(),
                final(builder).nodes_view(),
                name@,
                seq![input_id@],
                seq![name@ + ".weight"@],
            ),
            r is Ok ==> final(builder).nodes_view().last().node_type == (NodeType::Embedding {
                vocab_size: self.vocab_view(),
                embed_dim: self.dim_view(),
            }),
    {
        let node = Node::new(
            name,
            NodeType::Embedding { vocab_size: self.vocab_size, embed_dim: self.embed_dim },
        ).with_input(input_id).with_param(join2(name, ".weight").as_str());
        let ghost before = builder.nodes_view();
        proof {
            assert(node.inputs_view() =~= seq![input_id@]);
            assert(node.params_view() =~= seq![name@ + ".weight"@]);
            assert(before.push(node).drop_last() =~= before);
        }
        match builder.graph_add_node(node) {
            Ok(()) => Ok(crate::text::owned(name)),
            Err(e) => Err(e),
        }
    }
}

/// The identifiers of the nodes of blocks `0..n`, in order.
pub open spec fn blocks_ids(n: nat) -> Seq<Seq<char>>
    decreases n,
{
    if n == 0 {
        Seq::empty()
    } else {
        blocks_ids((n - 1) as nat) + block_ids(block_prefix((n - 1) as nat))
    }
}

/// The identifiers of the nodes an encoder adds, in order.
pub open spec fn encoder_ids(n_layers: nat, input: Seq<char>, output: Seq<char>) -> Seq<Seq<char>> {
    seq![input, "token_embedding"@, "_position_ids"@, "pos_embedding"@, "embed_sum"@]
        + blocks_ids(n_layers) + seq!["final_norm"@, output]
}

proof fn lemma_blocks_ids_len(n: nat)
    ensures
        blocks_ids(n).len() == 12 * n,
    decreases n,
{
    if n > 0 {
        lemma_blocks_ids_len((n - 1) as nat);
        lemma_block_ids_distinct(block_prefix((n - 1) as nat));
    }
}

proof fn lemma_blocks_ids_at(n: nat, i: nat)
    requires
        i < n,
    ensures
        blocks_ids(n).len() == 12 * n,
        blocks_ids(n).subrange(12 * i as int, 12 * i as int + 12) == block_ids(block_prefix(i)),
    decreases n,
{
    lemma_blocks_ids_len(n);
    lemma_blocks_ids_len((n - 1) as nat);
    lemma_block_ids_distinct(block_prefix((n - 1) as nat));
    if i < n - 1 {
        lemma_blocks_ids_at((n - 1) as nat, i);
        assert(blocks_ids(n).subrange(12 * i as int, 12 * i as int + 12) =~= blocks_ids((n - 1) as nat).subrange(
            12 * i as int,
            12 * i as int + 12,
        ));
    } else {
        assert(blocks_ids(n).subrange(12 * i as int, 12 * i as int + 12) =~= block_ids(block_prefix(i)));
    }
}

proof fn lemma_grown_compose(
    old: Seq<Node>,
    mid: Seq<Node>,
    now: Seq<Node>,
    ids: Seq<Seq<char>>,
    j: int,
    part: Seq<Seq<char>>,
    k: int,
)
    requires
        grown_by(old, mid, ids, j),
        grown_by(mid, now, part, k),
        0 <= j,
        0 <= k <= part.len(),
        j + k <= ids.len(),
        ids.subrange(j, j + k) == part.take(k),
    ensures
        grown_by(old, now, ids, j + k),
{
    assert(now.take(old.len() as int) =~= old) by {
        assert forall|i: int| 0 <= i < old.len() implies now[i] == old[i] by {
            assert(now.take(mid.len() as int)[i] == now[i]);
            assert(mid.take(old.len() as int)[i] == mid[i]);
        }
    }
    assert(node_ids(now) =~= node_ids(old) + ids.take(j + k)) by {
        assert forall|i: int| 0 <= i < node_ids(now).len() implies node_ids(now)[i] == (node_ids(
            old,
        ) + ids.take(j + k))[i] by {
            if i < mid.len() {
                assert((node_ids(mid) + part.take(k))[i] == node_ids(mid)[i]);
            } else {
                let t = i - mid.len();
                assert((node_ids(mid) + part.take(k))[i] == part[t]);
                assert(ids.subrange(j, j + k)[t] == ids[j + t]);
            }
        }
    }
}

/// The identifier block `i` of an encoder reads: the embedding sum for the
/// first block, the second residual sum of the block before otherwise.
pub open spec fn block_input(i: nat) -> Seq<char> {
    if i == 0 {
        "embed_sum"@
    } else {
        block_prefix((i - 1) as nat) + ".residual2"@
    }
}

/// Whether `n` is an input node `id` of element type `i32` and shape `[1, len]`.
pub open spec fn is_i32_input(n: Node, id: Seq<char>, len: usize) -> bool {
    &&& n.id@ == id
    &&& n.inputs_view() == Seq::<Seq<char>>::empty()
    &&& n.params_view() == Seq::<Seq<char>>::empty()
    &&& n.node_type matches NodeType::Input { name, dtype, shape }
    &&& name@ == id
    &&& dtype@ == "i32"@
    &&& shape@ == seq![1usize, len]
}

/// Whether `n` is an embedding lookup `id` over `input` in a table of
/// `rows` rows of `dim` elements, with the parameter `id.weight`.
pub open spec fn is_embedding_node(n: Node, id: Seq<char>, input: Seq<char>, rows: usize, dim: usize) -> bool {
    &&& n.id@ == id
    &&& n.inputs_view() == seq![input]
    &&& n.params_view() == seq![id + ".weight"@]
    &&& n.node_type == (NodeType::Embedding { vocab_size: rows, embed_dim: dim })
}

/// Whether `nodes` holds, from position `at`, the first five nodes of an
/// encoder configured by `c` that reads `input`.
pub open spec fn encoder_head(nodes: Seq<Node>, at: int, c: TransformerConfig, input: Seq<char>) -> bool {
    &&& is_i32_input(nodes[at], input, c.max_seq_len)
    &&& is_embedding_node(nodes[at + 1], "token_embedding"@, input, c.vocab_size, c.d_model)
    &&& is_i32_input(nodes[at + 2], "_position_ids"@, c.max_seq_len)
    &&& is_embedding_node(nodes[at + 3], "pos_embedding"@, "_position_ids"@, c.max_seq_len, c.d_model)
    &&& is_plain_node(nodes[at + 4], "embed_sum"@, seq!["token_embedding"@, "pos_embedding"@], NodeType::Add)
}

/// Whether `nodes` holds, from position `at`, the nodes of an encoder
/// configured by `c` that reads `input` and writes `output`: the token
/// input and its embedding, the position input `_position_ids` (both `i32`
/// of shape `[1, max_seq_len]`) and its embedding, their sum `embed_sum`,
/// the blocks `block_0`, `block_1`, ... each over the one before, the final
/// layer normalisation `final_norm`, and the output node.
pub open spec fn encoder_nodes(
    nodes: Seq<Node>,
    at: int,
    c: TransformerConfig,
    input: Seq<char>,
    output: Seq<char>,
) -> bool {
    let n = c.n_layers as int;
    &&& nodes.len() >= at + 7 + 12 * n
    &&& encoder_head(nodes, at, c, input)
    &&& forall|i: int|
        0 <= i < n ==> #[trigger] block_nodes(nodes, at + 5 + 12 * i, block_prefix(i as nat), block_input(i as nat), c)
    &&& is_norm_node(
        nodes[at + 5 + 12 * n],
        "final_norm"@,
        block_input(n as nat),
        c.d_model,
        c.layer_norm_epsilon_bits,
    )
    &&& nodes[at + 6 + 12 * n].id@ == output
    &&& nodes[at + 6 + 12 * n].inputs_view() == seq!["final_norm"@]
    &&& nodes[at + 6 + 12 * n].params_view() == Seq::<Seq<char>>::empty()
    &&& nodes[at + 6 + 12 * n].node_type matches NodeType::Output { name }
    &&& name@ == output
}

/// The wiring of an encoder: the token embedding reads the input, the
/// position embedding reads `_position_ids`, `embed_sum` adds the two; then
/// the stack is a chain, each block's first node reading the node just
/// before it (block `0` reads `embed_sum`, every later block the second
/// residual sum of the block before), the final normalisation reading the
/// last node before it in the same way, and the output node reading the
/// final normalisation. The two embedding tables are `vocab_size` and
/// `max_seq_len` rows of `d_model`, and the final normalisation runs over
/// `[d_model]` with the configured epsilon.
pub proof fn lemma_encoder_wiring(
    nodes: Seq<Node>,
    at: int,
    c: TransformerConfig,
    input: Seq<char>,
    output: Seq<char>,
)
    requires
        encoder_nodes(nodes, at, c, input, output),
    ensures
        nodes[at + 1].inputs_view() == seq![input],
        nodes[at + 1].id@ == "token_embedding"@ && nodes[at + 1].params_view() == seq!["token_embedding"@ + ".weight"@]
            && nodes[at + 1].node_type == (NodeType::Embedding { vocab_size: c.vocab_size, embed_dim: c.d_model }),
        nodes[at + 3].inputs_view() == seq!["_position_ids"@],
        nodes[at + 3].id@ == "pos_embedding"@ && nodes[at + 3].params_view() == seq!["pos_embedding"@ + ".weight"@]
            && nodes[at + 3].node_type == (NodeType::Embedding { vocab_size: c.max_seq_len, embed_dim: c.d_model }),
        nodes[at + 4].id@ == "embed_sum"@ && nodes[at + 4].inputs_view() == seq![
            "token_embedding"@,
            "pos_embedding"@,
        ] && nodes[at + 4].node_type is Add,
        forall|i: int|
            0 <= i < c.n_layers ==> (#[trigger] nodes[at + 5 + 12 * i]).inputs_view() == seq![
                nodes[at + 4 + 12 * i].id@,
            ] && nodes[at + 5 + 12 * i].id@ == block_prefix(i as nat) + ".norm1"@
                && nodes[at + 5 + 12 * i + 11].id@ == block_prefix(i as nat) + ".residual2"@,
        c.n_layers > 0 ==> nodes[at + 5].inputs_view() == seq!["embed_sum"@],
        nodes[at + 5 + 12 * c.n_layers].id@ == "final_norm"@ && nodes[at + 5 + 12
            * c.n_layers].inputs_view() == seq![nodes[at + 4 + 12 * c.n_layers].id@],
        nodes[at + 5 + 12 * c.n_layers].node_type is LayerNorm && nodes[at + 5 + 12
            * c.n_layers].node_type->LayerNorm_normalized_shape@ == seq![c.d_model] && nodes[at + 5 + 12
            * c.n_layers].node_type->LayerNorm_epsilon_bits == c.layer_norm_epsilon_bits,
        nodes[at + 6 + 12 * c.n_layers].id@ == output && nodes[at + 6 + 12 * c.n_layers].inputs_view()
            == seq!["final_norm"@] && nodes[at + 6 + 12 * c.n_layers].node_type is Output,
{
    let n = c.n_layers as int;
    assert forall|i: int| 0 <= i < n implies (#[trigger] nodes[at + 5 + 12 * i]).inputs_view() == seq![
        nodes[at + 4 + 12 * i].id@,
    ] && nodes[at + 5 + 12 * i].id@ == block_prefix(i as nat) + ".norm1"@ && nodes[at + 5 + 12 * i
        + 11].id@ == block_prefix(i as nat) + ".residual2"@ by {
        assert(block_nodes(nodes, at + 5 + 12 * i, block_prefix(i as nat), block_input(i as nat), c));
        lemma_block_wiring(nodes, at + 5 + 12 * i, block_prefix(i as nat), block_input(i as nat), c);
        if i > 0 {
            let j = i - 1;
            assert(block_nodes(nodes, at + 5 + 12 * j, block_prefix(j as nat), block_input(j as nat), c));
            lemma_block_wiring(nodes, at + 5 + 12 * j, block_prefix(j as nat), block_input(j as nat), c);
            assert(at + 5 + 12 * j + 11 == at + 4 + 12 * i);
        }
    }
    if n > 0 {
        let j = n - 1;
        assert(block_nodes(nodes, at + 5 + 12 * j, block_prefix(j as nat), block_input(j as nat), c));
        lemma_block_wiring(nodes, at + 5 + 12 * j, block_prefix(j as nat), block_input(j as nat), c);
        assert(at + 5 + 12 * j + 11 == at + 4 + 12 * n);
        assert(nodes[at + 5 + 12 * 0].inputs_view() == seq![nodes[at + 4 + 12 * 0].id@]);
    }
}

proof fn lemma_block_nodes_kept(a: Seq<Node>, b: Seq<Node>, p: int, l: Seq<char>, input: Seq<char>, c: TransformerConfig)
    requires
        block_nodes(a, p, l, input, c),
        0 <= p,
        a.len() <= b.len(),
        b.take(a.len() as int) == a,
    ensures
        block_nodes(b, p, l, input, c),
{
    assert forall|m: int| 0 <= m < 12 implies b[p + m] == #[trigger] a[p + m] by {
        assert(b.take(a.len() as int)[p + m] == b[p + m]);
    }
    assert(b[p] == a[p + 0]);
}

proof fn lemma_listed(nodes: Seq<Node>, j: int, i: int, x: Seq<char>)
    requires
        0 <= i < j,
        nodes[i].id@ == x,
    ensures
        listed_before(nodes, j, x),
{
    assert(nodes[i].id@ == x);
}

proof fn lemma_listed_later(nodes: Seq<Node>, j: int, j2: int, x: Seq<char>)
    requires
        listed_before(nodes, j, x),
        j <= j2,
    ensures
        listed_before(nodes, j2, x),
{
    let i = choose|i: int| 0 <= i < j && #[trigger] nodes[i].id@ == x;
    lemma_listed(nodes, j2, i, x);
}

proof fn lemma_block_reads_earlier(nodes: Seq<Node>, p: int, l: Seq<char>, input: Seq<char>, c: TransformerConfig)
    requires
        block_nodes(nodes, p, l, input, c),
        0 <= p,
        listed_before(nodes, p, input),
    ensures
        forall|j: int, k: int|
            p <= j < p + 12 && 0 <= k < nodes[j].inputs_view().len() ==> listed_before(
                nodes,
                j,
                #[trigger] nodes[j].inputs_view()[k],
            ),
        nodes[p + 11].id@ == l + ".residual2"@,
{
    let ids = block_ids(l);
    let a = attention_ids(l);
    assert(ids[5] == a[4]);
    assert forall|j: int, k: int|
        p <= j < p + 12 && 0 <= k < nodes[j].inputs_view().len() implies listed_before(
            nodes,
            j,
            #[trigger] nodes[j].inputs_view()[k],
        ) by {
        let x = nodes[j].inputs_view()[k];
        if j == p || (j == p + 6 && k == 0) {
            lemma_listed_later(nodes, p, j, input);
        } else if j <= p + 3 {
            lemma_listed(nodes, j, p, x);
        } else if j == p + 4 {
            lemma_listed(nodes, j, p + 1 + k, x);
        } else if j == p + 5 {
            lemma_listed(nodes, j, p + 4, x);
        } else if j == p + 11 && k == 0 {
            lemma_listed(nodes, j, p + 6, x);
        } else {
            lemma_listed(nodes, j, j - 1, x);
        }
    }
}

proof fn lemma_encoder_builds(nodes: Seq<Node>, c: TransformerConfig, input: Seq<char>, output: Seq<char>)
    requires
        encoder_nodes(nodes, 0, c, input, output),
        nodes.len() == 7 + 12 * (c.n_layers as int),
        nodes.len() <= usize::MAX,
    ensures
        build_succeeds(nodes),
{
    let n = c.n_layers as int;
    assert forall|i: int| 0 <= i <= n implies listed_before(nodes, 5 + 12 * i, #[trigger] block_input(i as nat)) by {
        if i == 0 {
            lemma_listed(nodes, 5, 4, block_input(0));
        } else {
            assert(block_nodes(nodes, 5 + 12 * (i - 1), block_prefix((i - 1) as nat), block_input((i - 1) as nat), c));
            assert(nodes[5 + 12 * (i - 1) + 11].id@ == block_ids(block_prefix((i - 1) as nat))[11]);
            lemma_listed(nodes, 5 + 12 * i, 5 + 12 * (i - 1) + 11, block_input(i as nat));
        }
    }
    assert forall|j: int, k: int|
        0 <= j < nodes.len() && 0 <= k < nodes[j].inputs_view().len() implies listed_before(
            nodes,
            j,
            #[trigger] nodes[j].inputs_view()[k],
        ) by {
        let x = nodes[j].inputs_view()[k];
        if j == 1 {
            lemma_listed(nodes, j, 0, x);
        } else if j == 3 {
            lemma_listed(nodes, j, 2, x);
        } else if j == 4 {
            lemma_listed(nodes, j, 1 + 2 * k, x);
        } else if j < 5 + 12 * n {
            let i = (j - 5) / 12;
            assert(0 <= i < n && 5 + 12 * i <= j < 5 + 12 * i + 12) by (nonlinear_arith)
                requires
                    5 <= j < 5 + 12 * n,
                    i == (j - 5) / 12,
            ;
            assert(listed_before(nodes, 5 + 12 * i, block_input(i as nat)));
            assert(block_nodes(nodes, 5 + 12 * i, block_prefix(i as nat), block_input(i as nat), c));
            lemma_block_reads_earlier(nodes, 5 + 12 * i, block_prefix(i as nat), block_input(i as nat), c);
        } else if j == 5 + 12 * n {
            assert(listed_before(nodes, 5 + 12 * n, block_input(n as nat)));
        } else {
            lemma_listed(nodes, j, 5 + 12 * n, x);
        }
    }
    assert(reads_earlier(nodes));
    lemma_reads_earlier_orders(nodes);
    lemma_input_listed(nodes, 0);
    assert(nodes.last() == nodes[6 + 12 * n]);
}

/// A Transformer encoder: token and position embeddings followed by a
/// stack of blocks and a final layer normalisation.
#[derive(Debug)]
pub struct TransformerEncoder {
    config: TransformerConfig,
    embedding: Embedding,
    blocks: Vec<TransformerBlock>,
}

impl TransformerEncoder {
    /// The configuration.
    pub closed spec fn config_view(&self) -> TransformerConfig {
        self.config
    }

    /// The number of blocks.
    pub closed spec fn block_count(&self) -> nat {
        self.blocks@.len()
    }

    /// The configuration is valid, and there is one block per layer.
    #[verifier::type_invariant]
    spec fn well_formed(&self) -> bool {
        &&& config_problem(self.config) is None
        &&& self.blocks@.len() == self.config.n_layers
        &&& self.embedding.vocab_size == self.config.vocab_size
        &&& self.embedding.embed_dim == self.config.d_model
    }

    /// An encoder configured by `config`, which must pass `validate`; its
    /// message is reported otherwise.
    pub fn new(config: TransformerConfig) -> (r: Result<TransformerEncoder, TensorError>)
        ensures
            r is Ok <==> config_problem(config) is None,
            r matches Ok(enc) ==> enc.config_view() == config && enc.block_count()
                == config.n_layers,
            r matches Err(e) ==> e matches TensorError::OperationFailed(m) && config_problem(config)
                == Some(m@),
    {
        match config.validate() {
            Ok(()) => {},
            Err(m) => {
                return Err(TensorError::OperationFailed(m));
            },
        }
        let embedding = Embedding::new(config.vocab_size, config.d_model);
        let mut blocks: Vec<TransformerBlock> = Vec::new();
        let mut i: usize = 0;
        while i < config.n_layers
            invariant
                config_problem(config) is None,
                i <= config.n_layers,
                blocks@.len() == i,
            decreases config.n_layers - i,
        {
            let block = match TransformerBlock::new(&config) {
                Ok(b) => b,
                Err(e) => {
                    return Err(e);
                },
            };
            blocks.push(block);
            i = i + 1;
        }
        Ok(TransformerEncoder { config, embedding, blocks })
    }

    /// The configuration.
    pub fn config(&self) -> (r: &TransformerConfig)
        ensures
            *r == self.config_view(),
    {
        &self.config
    }

    /// The blocks, one per layer.
    pub fn blocks(&self) -> (r: &[TransformerBlock])
        ensures
            r@.len() == self.block_count(),
    {
        self.blocks.as_slice()
    }

    /// Adds to `builder` the whole encoder: the input `input_name`, token
    /// and position embeddings and their sum, the blocks `block_0`,
    /// `block_1`, ..., a final layer normalisation and the output
    /// `output_name`.
    #[verifier::spinoff_prover]
    #[verifier::rlimit(40)]
    pub fn build_graph(&self, builder: &mut GraphBuilder, input_name: &str, output_name: &str) -> (r:
        Result<(), GraphError>)
        ensures
            r is Ok <==> fresh_ids(
                node_ids(old(builder).nodes_view()),
                encoder_ids(self.config_view().n_layers as nat, input_name@, output_name@),
            ),
            r is Ok ==> grown_by(
                old(builder).nodes_view(),
                final(builder).nodes_view(),
                encoder_ids(self.config_view().n_layers as nat, input_name@, output_name@),
                7 + 12 * self.config_view().n_layers,
            ),
            r is Ok ==> encoder_nodes(
                final(builder).nodes_view(),
                old(builder).nodes_view().len() as int,
                self.config_view(),
                input_name@,
                output_name@,
            ),
            r is Ok && old(builder).nodes_view().len() == 0 ==> build_succeeds(final(builder).nodes_view()),
            r matches Err(e) ==> exists|k: int|
                0 <= k < 7 + 12 * self.config_view().n_layers && (e matches GraphError::BuildFailed(
                    m,
                ) && m@ == duplicate_id_text(
                    #[trigger] encoder_ids(
                        self.config_view().n_layers as nat,
                        input_name@,
                        output_name@,
                    )[k],
                )),
    {
        proof {
            use_type_invariant(self);
        }
        let ghost start = builder.nodes_view();
        let ghost n = self.config.n_layers as nat;
        let ghost ids = encoder_ids(n, input_name@, output_name@);
        proof {
            lemma_blocks_ids_len(n);
            lemma_grown_start(start, ids);
            assert(ids == encoder_ids(self.config_view().n_layers as nat, input_name@, output_name@));
        }
        let seq_len = self.config.max_seq_len;
        let shape_a = seq_shape(seq_len);
        let shape_b = seq_shape(seq_len);
        let input_id = match builder.input(input_name, "i32", shape_a) {
            Ok(x) => x,
            Err(e) => {
                proof {
                    assert(encoder_ids(self.config_view().n_layers as nat, input_name@, output_name@)[0] == input_name@);
                    lemma_taken_not_fresh(start, start, ids, 0, 0);
                }
                return Err(e);
            },
        };
        let ghost s1 = builder.nodes_view();
        proof {
            assert(ids[0] == input_name@);
            lemma_grown_push(start, start, s1, ids, 0);
        }
        let token_embed_id = match self.embedding.build_graph(builder, "token_embedding", input_id.as_str()) {
            Ok(x) => x,
            Err(e) => {
                proof {
                    assert(encoder_ids(self.config_view().n_layers as nat, input_name@, output_name@)[1] == "token_embedding"@);
                    lemma_taken_not_fresh(start, s1, ids, 1, 1);
                }
                return Err(e);
            },
        };
        let ghost s2 = builder.nodes_view();
        proof {
            assert(ids[1] == "token_embedding"@);
            lemma_grown_push(start, s1, s2, ids, 1);
        }
        let pos_node = Node::new(
            "pos_embedding",
            NodeType::Embedding { vocab_size: self.config.max_seq_len, embed_dim: self.config.d_model },
        ).with_input("_position_ids").with_param("pos_embedding.weight");
        match builder.input("_position_ids", "i32", shape_b) {
            Ok(_) => {},
            Err(e) => {
                proof {
                    assert(ids[2] == "_position_ids"@);
                    lemma_taken_not_fresh(start, s2, ids, 2, 2);
                }
                return Err(e);
            },
        }
        let ghost s3 = builder.nodes_view();
        proof {
            assert(ids[2] == "_position_ids"@);
            lemma_grown_push(start, s2, s3, ids, 2);
        }
        match builder.graph_add_node(pos_node) {
            Ok(()) => {},
            Err(e) => {
                proof {
                    assert(ids[3] == "pos_embedding"@);
                    lemma_taken_not_fresh(start, s3, ids, 3, 3);
                }
                return Err(e);
            },
        }
        let ghost s4 = builder.nodes_view();
        proof {
            assert(ids[3] == "pos_embedding"@);
            assert(s4.drop_last() =~= s3);
            lemma_grown_push(start, s3, s4, ids, 3);
        }
        let embed_sum = match builder.add("embed_sum", token_embed_id.as_str(), "pos_embedding") {
            Ok(x) => x,
            Err(e) => {
                proof {
                    assert(ids[4] == "embed_sum"@);
                    lemma_taken_not_fresh(start, s4, ids, 4, 4);
                }
                return Err(e);
            },
        };
        let ghost head = builder.nodes_view();
        proof {
            assert(ids[4] == "embed_sum"@);
            lemma_grown_push(start, s4, head, ids, 4);
            let at = start.len() as int;
            reveal_strlit("pos_embedding.weight");
            reveal_strlit("pos_embedding");
            reveal_strlit(".weight");
            assert("pos_embedding.weight"@ =~= "pos_embedding"@ + ".weight"@);
            lemma_drop_keeps(s4, head);
            lemma_drop_keeps(s3, s4);
            lemma_drop_keeps(s2, s3);
            lemma_drop_keeps(s1, s2);
            lemma_take_trans(s3, s4, head);
            lemma_take_trans(s2, s3, head);
            lemma_take_trans(s1, s2, head);
            assert(head[at] == s1[at] && s1[at] == s1.last());
            assert(head[at + 1] == s2[at + 1] && s2[at + 1] == s2.last());
            assert(head[at + 2] == s3[at + 2] && s3[at + 2] == s3.last());
            assert(head[at + 3] == s4[at + 3] && s4[at + 3] == s4.last());
            assert(head[at + 4] == head.last());
            assert(head.last().params_view() =~= Seq::<Seq<char>>::empty());
            assert(s1.last().params_view() =~= Seq::<Seq<char>>::empty());
            assert(s1.last().inputs_view() =~= Seq::<Seq<char>>::empty());
            assert(s3.last().params_view() =~= Seq::<Seq<char>>::empty());
            assert(s3.last().inputs_view() =~= Seq::<Seq<char>>::empty());
            assert(is_i32_input(head[at], input_name@, self.config.max_seq_len));
            assert(is_embedding_node(head[at + 1], "token_embedding"@, input_name@, self.config.vocab_size, self.config.d_model));
            assert(is_i32_input(head[at + 2], "_position_ids"@, self.config.max_seq_len));
            assert(head[at + 3].id@ == "pos_embedding"@);
            assert(head[at + 3].inputs_view() == seq!["_position_ids"@]);
            assert(head[at + 3].params_view() == seq!["pos_embedding"@ + ".weight"@]);
            assert(is_embedding_node(head[at + 3], "pos_embedding"@, "_position_ids"@, self.config.max_seq_len, self.config.d_model));
            assert(is_plain_node(head[at + 4], "embed_sum"@, seq!["token_embedding"@, "pos_embedding"@], NodeType::Add));
            assert(encoder_head(head, at, self.config, input_name@));
            assert(head.take(head.len() as int) =~= head);
        }
        let mut current = embed_sum;
        let mut i: usize = 0;
        while i < self.config.n_layers
            invariant
                config_problem(self.config) is None,
                n == self.config.n_layers,
                ids == encoder_ids(n, input_name@, output_name@),
                ids.len() == 7 + 12 * n,
                i <= n,
                grown_by(start, builder.nodes_view(), ids, 5 + 12 * i),
                start == old(builder).nodes_view(),
                current@ == block_input(i as nat),
                head.len() == start.len() + 5,
                builder.nodes_view().take(head.len() as int) == head,
                encoder_head(head, start.len() as int, self.config, input_name@),
                forall|ii: int|
                    0 <= ii < i ==> #[trigger] block_nodes(
                        builder.nodes_view(),
                        start.len() + 5 + 12 * ii,
                        block_prefix(ii as nat),
                        block_input(ii as nat),
                        self.config,
                    ),
            decreases self.config.n_layers - i,
        {
            let ghost before = builder.nodes_view();
            let block_name = join2("block_", usize_text(i).as_str());
            proof {
                lemma_blocks_ids_at(n, i as nat);
                assert(ids.subrange(5 + 12 * i, 5 + 12 * i + 12) =~= blocks_ids(n).subrange(
                    12 * i,
                    12 * i + 12,
                ));
                lemma_block_ids_distinct(block_name@);
            }
            current = match TransformerBlock::build_graph(
                builder,
                block_name.as_str(),
                current.as_str(),
                &self.config,
            ) {
                Ok(x) => x,
                Err(e) => {
                    proof {
                        let k = choose|k: int|
                            0 <= k < 12 && (e matches GraphError::BuildFailed(m) && m@
                                == duplicate_id_text(#[trigger] block_ids(block_name@)[k]));
                        assert(ids.subrange(5 + 12 * i, 5 + 12 * i + 12)[k] == ids[5 + 12 * i
                            + k]);
                        assert(ids[5 + 12 * i + k] == block_ids(block_name@)[k]);
                        assert(encoder_ids(self.config_view().n_layers as nat, input_name@, output_name@)[5 + 12 * i + k] == block_ids(block_name@)[k]);
                        let kk = choose|kk: int|
                            0 <= kk < 12 && node_ids(before).contains(#[trigger] block_ids(block_name@)[kk]);
                        assert(ids.subrange(5 + 12 * i, 5 + 12 * i + 12)[kk] == ids[5 + 12 * i + kk]);
                        lemma_taken_not_fresh(start, before, ids, 5 + 12 * i, 5 + 12 * i + kk);
                    }
                    return Err(e);
                },
            };
            proof {
                let now = builder.nodes_view();
                assert(block_ids(block_name@).take(12) =~= block_ids(block_name@));
                lemma_grown_compose(
                    start,
                    before,
                    now,
                    ids,
                    5 + 12 * i,
                    block_ids(block_name@),
                    12,
                );
                assert(block_name@ == block_prefix(i as nat));
                lemma_take_trans(head, before, now);
                assert forall|ii: int| 0 <= ii < i + 1 implies #[trigger] block_nodes(
                    now,
                    start.len() + 5 + 12 * ii,
                    block_prefix(ii as nat),
                    block_input(ii as nat),
                    self.config,
                ) by {
                    if ii < i {
                        lemma_block_nodes_kept(
                            before,
                            now,
                            start.len() + 5 + 12 * ii,
                            block_prefix(ii as nat),
                            block_input(ii as nat),
                            self.config,
                        );
                    }
                }
                assert(current@ == block_input((i + 1) as nat));
            }
            i = i + 1;
        }
        let ghost s5 = builder.nodes_view();
        let mut shape = Vec::new();
        shape.push(self.config.d_model);
        proof {
            assert(shape@ =~= seq![self.config.d_model]);
        }
        let final_norm = match builder.layer_norm(
            "final_norm",
            current.as_str(),
            shape,
            self.config.layer_norm_epsilon_bits,
        ) {
            Ok(x) => x,
            Err(e) => {
                proof {
                    assert(ids[5 + 12 * n as int] == "final_norm"@);
                    lemma_taken_not_fresh(start, s5, ids, 5 + 12 * n as int, 5 + 12 * n as int);
                }
                return Err(e);
            },
        };
        let ghost s6 = builder.nodes_view();
        proof {
            assert(ids[5 + 12 * n as int] == "final_norm"@);
            lemma_grown_push(start, s5, s6, ids, 5 + 12 * n as int);
        }
        match builder.output(output_name, final_norm.as_str()) {
            Ok(_) => {},
            Err(e) => {
                proof {
                    assert(ids[6 + 12 * n as int] == output_name@);
                    lemma_taken_not_fresh(start, s6, ids, 6 + 12 * n as int, 6 + 12 * n as int);
                }
                return Err(e);
            },
        }
        proof {
            assert(ids[6 + 12 * n as int] == output_name@);
            lemma_grown_push(start, s6, builder.nodes_view(), ids, 6 + 12 * n as int);
        }
        builder.check_unique();
        proof {
            let f = builder.nodes_view();
            let at = start.len() as int;
            lemma_unique_fresh(start, f, ids);
            lemma_drop_keeps(s6, f);
            lemma_drop_keeps(s5, s6);
            lemma_take_trans(s5, s6, f);
            lemma_take_trans(head, s5, f);
            assert(f[at] == head[at]);
            assert(f[at + 1] == head[at + 1]);
            assert(f[at + 2] == head[at + 2]);
            assert(f[at + 3] == head[at + 3]);
            assert(f[at + 4] == head[at + 4]);
            assert forall|ii: int| 0 <= ii < n implies #[trigger] block_nodes(
                f,
                at + 5 + 12 * ii,
                block_prefix(ii as nat),
                block_input(ii as nat),
                self.config,
            ) by {
                lemma_block_nodes_kept(s5, f, at + 5 + 12 * ii, block_prefix(ii as nat), block_input(ii as nat), self.config);
            }
            assert(f[at + 5 + 12 * n] == s6[at + 5 + 12 * n] && s6[at + 5 + 12 * n] == s6.last());
            assert(f[at + 6 + 12 * n] == f.last());
            assert(f.last().params_view() =~= Seq::<Seq<char>>::empty());
            assert(encoder_nodes(f, at, self.config, input_name@, output_name@));
            if at == 0 {
                lemma_encoder_builds(f, self.config, input_name@, output_name@);
            }
        }
        Ok(())
    }
}

fn seq_shape(len: usize) -> (r: Vec<usize>)
    ensures
        r@ == seq![1usize, len],
{
    let mut v = Vec::new();
    v.push(1);
    v.push(len);
    proof {
        assert(v@ =~= seq![1usize, len]);
    }
    v
}

/// The parameter count of one layer.
#[derive(Debug)]
pub struct LayerParamStats {
    /// The parameter name.
    pub name: String,
    /// The number of scalars, the product of the shape.
    pub params: usize,
    /// The shape of the parameter tensor.
    pub shape: Vec<usize>,
}

/// Parameter counts of a model.
#[derive(Debug)]
pub struct ModelStats {
    /// The number of scalars over all parameters.
    pub total_params: usize,
    /// The number of trainable scalars (all of them).
    pub trainable_params: usize,
    /// One entry per parameter tensor.
    pub layer_stats: Vec<LayerParamStats>,
}

/// A parameter entry as plain values: name, count and shape.
pub type ParamEntry = (Seq<char>, nat, Seq<usize>);

/// The plain values of a parameter entry.
pub open spec fn entry_of(l: LayerParamStats) -> ParamEntry {
    (l.name@, l.params as nat, l.shape@)
}

/// The plain values of a list of parameter entries.
pub open spec fn entries_of(v: Seq<LayerParamStats>) -> Seq<ParamEntry> {
    v.map_values(|l: LayerParamStats| entry_of(l))
}

/// The weight and bias of a square projection `prefix.proj` of width `d`.
pub open spec fn proj_entries(prefix: Seq<char>, proj: Seq<char>, d: nat) -> Seq<ParamEntry> {
    seq![
        (prefix + "."@ + proj + ".weight"@, d * d, seq![d as usize, d as usize]),
        (prefix + "."@ + proj + ".bias"@, d, seq![d as usize]),
    ]
}

/// The weight and bias of the layer normalisation `prefix.ln` of width `d`.
pub open spec fn norm_entries(prefix: Seq<char>, ln: Seq<char>, d: nat) -> Seq<ParamEntry> {
    seq![
        (prefix + "."@ + ln + ".weight"@, d, seq![d as usize]),
        (prefix + "."@ + ln + ".bias"@, d, seq![d as usize]),
    ]
}

/// The parameters of the feed-forward network under `prefix`.
pub open spec fn ffn_entries(prefix: Seq<char>, d: nat, f: nat) -> Seq<ParamEntry> {
    seq![
        (prefix + ".fc1.weight"@, f * d, seq![f as usize, d as usize]),
        (prefix + ".fc1.bias"@, f, seq![f as usize]),
        (prefix + ".fc2.weight"@, d * f, seq![d as usize, f as usize]),
        (prefix + ".fc2.bias"@, d, seq![d as usize]),
    ]
}

/// The name prefix of block `i`.
pub open spec fn block_prefix(i: nat) -> Seq<char> {
    "block_"@ + decimal(i)
}

/// The parameters of block `i`.
pub open spec fn block_entries(c: TransformerConfig, i: nat) -> Seq<ParamEntry> {
    let p = block_prefix(i);
    let d = c.d_model as nat;
    proj_entries(p, "q_proj"@, d) + proj_entries(p, "k_proj"@, d) + proj_entries(p, "v_proj"@, d)
        + proj_entries(p, "out_proj"@, d) + norm_entries(p, "norm1"@, d) + norm_entries(
        p,
        "norm2"@,
        d,
    ) + ffn_entries(p + ".ffn"@, d, c.d_ff as nat)
}

/// The parameters of blocks `0..n`.
pub open spec fn blocks_entries(c: TransformerConfig, n: nat) -> Seq<ParamEntry>
    decreases n,
{
    if n == 0 {
        Seq::empty()
    } else {
        blocks_entries(c, (n - 1) as nat) + block_entries(c, (n - 1) as nat)
    }
}

/// The parameters of the embeddings, listed first.
pub open spec fn embedding_entries(c: TransformerConfig) -> Seq<ParamEntry> {
    seq![
        ("token_embedding"@, (c.vocab_size as nat) * (c.d_model as nat), seq![c.vocab_size, c.d_model]),
        ("pos_embedding"@, (c.max_seq_len as nat) * (c.d_model as nat), seq![c.max_seq_len, c.d_model]),
    ]
}

/// The parameters of the final normalisation, listed last.
pub open spec fn final_entries(c: TransformerConfig) -> Seq<ParamEntry> {
    seq![
        ("final_norm.weight"@, c.d_model as nat, seq![c.d_model]),
        ("final_norm.bias"@, c.d_model as nat, seq![c.d_model]),
    ]
}

/// Every parameter of the encoder described by `c`, in order.
pub open spec fn model_entries(c: TransformerConfig) -> Seq<ParamEntry> {
    embedding_entries(c) + blocks_entries(c, c.n_layers as nat) + final_entries(c)
}

/// The number of scalars in one block.
pub open spec fn block_params(c: TransformerConfig) -> nat {
    let d = c.d_model as nat;
    let f = c.d_ff as nat;
    4 * (d * d + d) + 4 * d + (f * d + f + d * f + d)
}

/// The number of scalars in the encoder described by `c`.
pub open spec fn total_params(c: TransformerConfig) -> nat {
    (c.vocab_size as nat) * (c.d_model as nat) + (c.max_seq_len as nat) * (c.d_model as nat) + (
    c.n_layers as nat) * block_params(c) + 2 * (c.d_model as nat)
}

/// The sum of the counts of `s`.
pub open spec fn sum_params(s: Seq<ParamEntry>) -> nat
    decreases s.len(),
{
    if s.len() == 0 {
        0
    } else {
        sum_params(s.drop_last()) + s.last().1
    }
}

proof fn lemma_sum_concat(a: Seq<ParamEntry>, b: Seq<ParamEntry>)
    ensures
        sum_params(a + b) == sum_params(a) + sum_params(b),
    decreases b.len(),
{
    if b.len() > 0 {
        lemma_sum_concat(a, b.drop_last());
        assert((a + b).drop_last() =~= a + b.drop_last());
    } else {
        assert(a + b =~= a);
    }
}

proof fn lemma_sum_two(x: ParamEntry, y: ParamEntry)
    ensures
        sum_params(seq![x, y]) == x.1 + y.1,
{
    assert(seq![x, y].drop_last() =~= seq![x]);
    assert(seq![x].drop_last() =~= Seq::<ParamEntry>::empty());
    assert(sum_params(Seq::<ParamEntry>::empty()) == 0);
    assert(seq![x].last() == x);
    assert(seq![x, y].last() == y);
    assert(sum_params(seq![x]) == sum_params(Seq::<ParamEntry>::empty()) + x.1);
    assert(sum_params(seq![x, y]) == sum_params(seq![x]) + y.1);
}

proof fn lemma_block_sum(c: TransformerConfig, i: nat)
    ensures
        sum_params(block_entries(c, i)) == block_params(c),
{
    let p = block_prefix(i);
    let d = c.d_model as nat;
    let f = c.d_ff as nat;
    let a = proj_entries(p, "q_proj"@, d);
    let b = proj_entries(p, "k_proj"@, d);
    let cc = proj_entries(p, "v_proj"@, d);
    let dd = proj_entries(p, "out_proj"@, d);
    let e = norm_entries(p, "norm1"@, d);
    let g = norm_entries(p, "norm2"@, d);
    let h = ffn_entries(p + ".ffn"@, d, f);
    lemma_sum_two(a[0], a[1]);
    assert(a =~= seq![a[0], a[1]]);
    lemma_sum_two(b[0], b[1]);
    assert(b =~= seq![b[0], b[1]]);
    lemma_sum_two(cc[0], cc[1]);
    assert(cc =~= seq![cc[0], cc[1]]);
    lemma_sum_two(dd[0], dd[1]);
    assert(dd =~= seq![dd[0], dd[1]]);
    lemma_sum_two(e[0], e[1]);
    assert(e =~= seq![e[0], e[1]]);
    lemma_sum_two(g[0], g[1]);
    assert(g =~= seq![g[0], g[1]]);
    lemma_sum_two(h[0], h[1]);
    lemma_sum_two(h[2], h[3]);
    assert(h =~= seq![h[0], h[1]] + seq![h[2], h[3]]);
    lemma_sum_concat(seq![h[0], h[1]], seq![h[2], h[3]]);
    lemma_sum_concat(a, b);
    lemma_sum_concat(a + b, cc);
    lemma_sum_concat(a + b + cc, dd);
    lemma_sum_concat(a + b + cc + dd, e);
    lemma_sum_concat(a + b + cc + dd + e, g);
    lemma_sum_concat(a + b + cc + dd + e + g, h);
}

proof fn lemma_blocks_sum(c: TransformerConfig, n: nat)
    ensures
        sum_params(blocks_entries(c, n)) == n * block_params(c),
        blocks_entries(c, n).len() == 16 * n,
    decreases n,
{
    if n > 0 {
        lemma_blocks_sum(c, (n - 1) as nat);
        lemma_sum_concat(blocks_entries(c, (n - 1) as nat), block_entries(c, (n - 1) as nat));
        lemma_block_sum(c, (n - 1) as nat);
        let m = (n - 1) as nat;
        let b = block_params(c);
        assert(m * b + b == (m + 1) * b) by (nonlinear_arith);
        assert(m + 1 == n);
    }
}

/// The parameter list of the encoder adds up to its total, and holds
/// `16` entries per block plus four.
pub proof fn lemma_model_entries_sum(c: TransformerConfig)
    ensures
        sum_params(model_entries(c)) == total_params(c),
        model_entries(c).len() == 16 * (c.n_layers as nat) + 4,
{
    lemma_blocks_sum(c, c.n_layers as nat);
    let e = embedding_entries(c);
    let b = blocks_entries(c, c.n_layers as nat);
    let f = final_entries(c);
    lemma_sum_two(e[0], e[1]);
    assert(e =~= seq![e[0], e[1]]);
    lemma_sum_two(f[0], f[1]);
    assert(f =~= seq![f[0], f[1]]);
    lemma_sum_concat(e, b);
    lemma_sum_concat(e + b, f);
}

fn push_entry(stats: &mut Vec<LayerParamStats>, name: String, params: usize, shape: Vec<usize>)
    ensures
        entries_of(final(stats)@) == entries_of(old(stats)@).push((name@, params as nat, shape@)),
{
    let ghost before = stats@;
    stats.push(LayerParamStats { name, params, shape });
    proof {
        assert(entries_of(stats@) =~= entries_of(before).push(entry_of(stats@.last())));
    }
}

fn one(a: usize) -> (r: Vec<usize>)
    ensures
        r@ == seq![a],
{
    let mut v = Vec::new();
    v.push(a);
    proof {
        assert(v@ =~= seq![a]);
    }
    v
}

fn two(a: usize, b: usize) -> (r: Vec<usize>)
    ensures
        r@ == seq![a, b],
{
    let mut v = Vec::new();
    v.push(a);
    v.push(b);
    proof {
        assert(v@ =~= seq![a, b]);
    }
    v
}

fn push_proj(stats: &mut Vec<LayerParamStats>, prefix: &str, proj: &str, d: usize)
    requires
        (d as nat) * (d as nat) <= usize::MAX,
    ensures
        entries_of(final(stats)@) == entries_of(old(stats)@) + proj_entries(prefix@, proj@, d as nat),
{
    let base = join3(prefix, ".", proj);
    let ghost before = entries_of(stats@);
    push_entry(stats, join2(base.as_str(), ".weight"), d * d, two(d, d));
    push_entry(stats, join2(base.as_str(), ".bias"), d, one(d));
    proof {
        assert(entries_of(stats@) =~= before + proj_entries(prefix@, proj@, d as nat));
    }
}

fn push_norm(stats: &mut Vec<LayerParamStats>, prefix: &str, ln: &str, d: usize)
    ensures
        entries_of(final(stats)@) == entries_of(old(stats)@) + norm_entries(prefix@, ln@, d as nat),
{
    let base = join3(prefix, ".", ln);
    let ghost before = entries_of(stats@);
    push_entry(stats, join2(base.as_str(), ".weight"), d, one(d));
    push_entry(stats, join2(base.as_str(), ".bias"), d, one(d));
    proof {
        assert(entries_of(stats@) =~= before + norm_entries(prefix@, ln@, d as nat));
    }
}

fn push_ffn(stats: &mut Vec<LayerParamStats>, prefix: &str, d: usize, f: usize)
    requires
        (d as nat) * (f as nat) <= usize::MAX,
    ensures
        entries_of(final(stats)@) == entries_of(old(stats)@) + ffn_entries(prefix@, d as nat, f as nat),
{
    let ghost before = entries_of(stats@);
    proof {
        assert((f as nat) * (d as nat) == (d as nat) * (f as nat)) by (nonlinear_arith);
    }
    push_entry(stats, join2(prefix, ".fc1.weight"), f * d, two(f, d));
    push_entry(stats, join2(prefix, ".fc1.bias"), f, one(f));
    push_entry(stats, join2(prefix, ".fc2.weight"), d * f, two(d, f));
    push_entry(stats, join2(prefix, ".fc2.bias"), d, one(d));
    proof {
        assert(entries_of(stats@) =~= before + ffn_entries(prefix@, d as nat, f as nat));
    }
}

proof fn lemma_block_bounds(c: TransformerConfig, i: nat)
    requires
        i < c.n_layers,
        total_params(c) <= usize::MAX,
    ensures
        (c.d_model as nat) * (c.d_model as nat) <= block_params(c),
        (c.d_model as nat) * (c.d_ff as nat) <= block_params(c),
        (c.d_ff as nat) * (c.d_model as nat) <= block_params(c),
        (i + 1) * block_params(c) <= (c.n_layers as nat) * block_params(c),
        (c.n_layers as nat) * block_params(c) <= total_params(c),
{
    let d = c.d_model as nat;
    let f = c.d_ff as nat;
    assert(d * f == f * d) by (nonlinear_arith);
    assert((i + 1) * block_params(c) <= (c.n_layers as nat) * block_params(c)) by (nonlinear_arith)
        requires
            i + 1 <= c.n_layers,
    ;
}

/// The feed-forward weights of each block, as a list of parameter entries
/// that matches the encoder's shows them.
proof fn lemma_listed_ffn_shapes(c: TransformerConfig, v: Seq<LayerParamStats>)
    requires
        entries_of(v) == model_entries(c),
    ensures
        forall|l: int|
            0 <= l < c.n_layers ==> (#[trigger] v[2 + 16 * l + 12]).name@ == block_prefix(l as nat) + ".ffn.fc1.weight"@
                && v[2 + 16 * l + 12].shape@ == seq![c.d_ff, c.d_model],
        forall|l: int|
            0 <= l < c.n_layers ==> (#[trigger] v[2 + 16 * l + 14]).name@ == block_prefix(l as nat) + ".ffn.fc2.weight"@
                && v[2 + 16 * l + 14].shape@ == seq![c.d_model, c.d_ff],
{
    assert forall|l: int| 0 <= l < c.n_layers implies (#[trigger] v[2 + 16 * l + 12]).name@ == block_prefix(
        l as nat,
    ) + ".ffn.fc1.weight"@ && v[2 + 16 * l + 12].shape@ == seq![c.d_ff, c.d_model] by {
        lemma_block_parameter_layout(c, l as nat);
        assert(entry_of(v[2 + 16 * l + 12]) == model_entries(c)[2 + 16 * l + 12]);
    }
    assert forall|l: int| 0 <= l < c.n_layers implies (#[trigger] v[2 + 16 * l + 14]).name@ == block_prefix(
        l as nat,
    ) + ".ffn.fc2.weight"@ && v[2 + 16 * l + 14].shape@ == seq![c.d_model, c.d_ff] by {
        lemma_block_parameter_layout(c, l as nat);
        assert(entry_of(v[2 + 16 * l + 14]) == model_entries(c)[2 + 16 * l + 14]);
    }
}

/// Counts the parameters of the encoder described by `config`, layer by
/// layer, in the order the encoder creates them.
pub fn compute_model_stats(config: &TransformerConfig) -> (r: ModelStats)
    requires
        total_params(*config) <= usize::MAX,
    ensures
        entries_of(r.layer_stats@) == model_entries(*config),
        r.total_params == total_params(*config),
        r.trainable_params == r.total_params,
        forall|l: int|
            0 <= l < config.n_layers ==> (#[trigger] r.layer_stats@[2 + 16 * l + 12]).name@ == block_prefix(l as nat) + ".ffn.fc1.weight"@
                && r.layer_stats@[2 + 16 * l + 12].shape@ == seq![config.d_ff, config.d_model],
        forall|l: int|
            0 <= l < config.n_layers ==> (#[trigger] r.layer_stats@[2 + 16 * l + 14]).name@ == block_prefix(l as nat) + ".ffn.fc2.weight"@
                && r.layer_stats@[2 + 16 * l + 14].shape@ == seq![config.d_model, config.d_ff],
{
    let ghost c = *config;
    let d = config.d_model;
    let f = config.d_ff;
    proof {
        assert((c.vocab_size as nat) * (d as nat) <= total_params(c));
        assert((c.max_seq_len as nat) * (d as nat) <= total_params(c));
    }
    let mut layer_stats: Vec<LayerParamStats> = Vec::new();
    let embed_params = config.vocab_size * d;
    push_entry(&mut layer_stats, owned("token_embedding"), embed_params, two(config.vocab_size, d));
    let mut total: usize = embed_params;
    let pos_params = config.max_seq_len * d;
    push_entry(&mut layer_stats, owned("pos_embedding"), pos_params, two(config.max_seq_len, d));
    total = total + pos_params;
    proof {
        assert(entries_of(layer_stats@) =~= embedding_entries(c) + blocks_entries(c, 0));
    }
    let mut i: usize = 0;
    while i < config.n_layers
        invariant
            c == *config,
            d == c.d_model,
            f == c.d_ff,
            total_params(c) <= usize::MAX,
            i <= c.n_layers,
            entries_of(layer_stats@) == embedding_entries(c) + blocks_entries(c, i as nat),
            total as nat == (c.vocab_size as nat) * (d as nat) + (c.max_seq_len as nat) * (d as nat)
                + (i as nat) * block_params(c),
        decreases c.n_layers - i,
    {
        proof {
            lemma_block_bounds(c, i as nat);
            assert((i as nat + 1) * block_params(c) == (i as nat) * block_params(c) + block_params(c))
                by (nonlinear_arith);
        }
        let ghost before = entries_of(layer_stats@);
        let prefix = join2("block_", usize_text(i).as_str());
        push_proj(&mut layer_stats, prefix.as_str(), "q_proj", d);
        push_proj(&mut layer_stats, prefix.as_str(), "k_proj", d);
        push_proj(&mut layer_stats, prefix.as_str(), "v_proj", d);
        push_proj(&mut layer_stats, prefix.as_str(), "out_proj", d);
        push_norm(&mut layer_stats, prefix.as_str(), "norm1", d);
        push_norm(&mut layer_stats, prefix.as_str(), "norm2", d);
        let ffn_prefix = join2(prefix.as_str(), ".ffn");
        push_ffn(&mut layer_stats, ffn_prefix.as_str(), d, f);
        let w = d * d;
        total = total + 4 * (w + d) + 4 * d + (f * d + f + d * f + d);
        proof {
            assert(entries_of(layer_stats@) =~= before + block_entries(c, i as nat));
            assert(blocks_entries(c, (i + 1) as nat) == blocks_entries(c, i as nat) + block_entries(
                c,
                i as nat,
            ));
            assert(entries_of(layer_stats@) =~= embedding_entries(c) + blocks_entries(
                c,
                (i + 1) as nat,
            ));
        }
        i = i + 1;
    }
    push_entry(&mut layer_stats, owned("final_norm.weight"), d, one(d));
    push_entry(&mut layer_stats, owned("final_norm.bias"), d, one(d));
    total = total + 2 * d;
    proof {
        assert(entries_of(layer_stats@) =~= model_entries(c));
    }
    let r = ModelStats { total_params: total, trainable_params: total, layer_stats };
    proof {
        lemma_listed_ffn_shapes(*config, r.layer_stats@);
    }
    r
}

/// Whether the count of every entry of `s` is the product of its shape.
pub open spec fn counts_match(s: Seq<ParamEntry>) -> bool {
    forall|i: int| 0 <= i < s.len() ==> shape_product(#[trigger] s[i].2) == s[i].1
}

proof fn lemma_counts_concat(a: Seq<ParamEntry>, b: Seq<ParamEntry>)
    requires
        counts_match(a),
        counts_match(b),
    ensures
        counts_match(a + b),
{
    assert forall|i: int| 0 <= i < (a + b).len() implies shape_product(#[trigger] (a + b)[i].2) == (a
        + b)[i].1 by {
        if i >= a.len() {
            assert((a + b)[i] == b[i - a.len()]);
        }
    }
}

proof fn lemma_block_counts(c: TransformerConfig, i: nat)
    ensures
        counts_match(block_entries(c, i)),
{
    let d = c.d_model;
    let f = c.d_ff;
    lemma_product_one(d);
    lemma_product_one(f);
    lemma_product_two(d, d);
    lemma_product_two(f, d);
    lemma_product_two(d, f);
    let p = block_prefix(i);
    let dn = d as nat;
    let a = proj_entries(p, "q_proj"@, dn);
    let b = proj_entries(p, "k_proj"@, dn);
    let cc = proj_entries(p, "v_proj"@, dn);
    let dd = proj_entries(p, "out_proj"@, dn);
    let e = norm_entries(p, "norm1"@, dn);
    let g = norm_entries(p, "norm2"@, dn);
    let h = ffn_entries(p + ".ffn"@, dn, f as nat);
    lemma_counts_concat(a, b);
    lemma_counts_concat(a + b, cc);
    lemma_counts_concat(a + b + cc, dd);
    lemma_counts_concat(a + b + cc + dd, e);
    lemma_counts_concat(a + b + cc + dd + e, g);
    lemma_counts_concat(a + b + cc + dd + e + g, h);
}

proof fn lemma_blocks_counts(c: TransformerConfig, n: nat)
    ensures
        counts_match(blocks_entries(c, n)),
    decreases n,
{
    if n > 0 {
        lemma_blocks_counts(c, (n - 1) as nat);
        lemma_block_counts(c, (n - 1) as nat);
        lemma_counts_concat(blocks_entries(c, (n - 1) as nat), block_entries(c, (n - 1) as nat));
    }
}

/// The count of every parameter of the encoder is the product of its shape.
pub proof fn lemma_model_counts(c: TransformerConfig)
    ensures
        counts_match(model_entries(c)),
{
    lemma_product_two(c.vocab_size, c.d_model);
    lemma_product_two(c.max_seq_len, c.d_model);
    lemma_product_one(c.d_model);
    lemma_blocks_counts(c, c.n_layers as nat);
    lemma_counts_concat(embedding_entries(c), blocks_entries(c, c.n_layers as nat));
    lemma_counts_concat(embedding_entries(c) + blocks_entries(c, c.n_layers as nat), final_entries(c));
}

proof fn lemma_entry_within_sum(s: Seq<ParamEntry>, i: int)
    requires
        0 <= i < s.len(),
    ensures
        s[i].1 <= sum_params(s),
    decreases s.len(),
{
    if i < s.len() - 1 {
        lemma_entry_within_sum(s.drop_last(), i);
        assert(s.drop_last()[i] == s[i]);
    }
}

/// The name under which parameter `i` of the encoder is initialised: the
/// two embedding tables take the suffix `.weight`, the others keep the name
/// they are counted under.
pub open spec fn init_name_at(c: TransformerConfig, i: int) -> Seq<char> {
    if i < 2 {
        model_entries(c)[i].0 + ".weight"@
    } else {
        model_entries(c)[i].0
    }
}

/// The initial value of every element of parameter `i` of the encoder: the
/// token and position tables are filled with `token_fill` and `pos_fill`,
/// the normalisation weights (positions 8 and 10 of each block's 16, and the
/// final one) with `one`, and everything else with `zero`.
pub open spec fn init_value_at<T>(c: TransformerConfig, i: int, zero: T, one: T, token_fill: T, pos_fill: T) -> T {
    let n = c.n_layers as int;
    if i == 0 {
        token_fill
    } else if i == 1 {
        pos_fill
    } else if i < 2 + 16 * n {
        if (i - 2) % 16 == 8 || (i - 2) % 16 == 10 {
            one
        } else {
            zero
        }
    } else if i == 2 + 16 * n {
        one
    } else {
        zero
    }
}

/// The name suffixes of the sixteen parameters of a block, in order.
spec fn block_suffixes() -> Seq<Seq<char>> {
    seq![
        "."@ + "q_proj"@ + ".weight"@,
        "."@ + "q_proj"@ + ".bias"@,
        "."@ + "k_proj"@ + ".weight"@,
        "."@ + "k_proj"@ + ".bias"@,
        "."@ + "v_proj"@ + ".weight"@,
        "."@ + "v_proj"@ + ".bias"@,
        "."@ + "out_proj"@ + ".weight"@,
        "."@ + "out_proj"@ + ".bias"@,
        "."@ + "norm1"@ + ".weight"@,
        "."@ + "norm1"@ + ".bias"@,
        "."@ + "norm2"@ + ".weight"@,
        "."@ + "norm2"@ + ".bias"@,
        ".ffn"@ + ".fc1.weight"@,
        ".ffn"@ + ".fc1.bias"@,
        ".ffn"@ + ".fc2.weight"@,
        ".ffn"@ + ".fc2.bias"@,
    ]
}

/// Length and the characters at positions one, five and seven of `s`.
spec fn suffix_signature(s: Seq<char>) -> (nat, char, char, char) {
    (s.len(), s[1], s[5], s[7])
}

proof fn lemma_block_names(c: TransformerConfig, i: nat)
    ensures
        block_entries(c, i).len() == 16,
        forall|m: int| 0 <= m < 16 ==> #[trigger] block_entries(c, i)[m].0 == block_prefix(i) + block_suffixes()[m],
{
    let p = block_prefix(i);
    let e = block_entries(c, i);
    let f = block_suffixes();
    assert forall|m: int| 0 <= m < 16 implies #[trigger] e[m].0 == p + f[m] by {
        if m < 12 {
            assert(e[m].0 =~= p + f[m]);
        } else {
            assert(e[m].0 =~= p + f[m]);
        }
    }
}

proof fn lemma_suffixes_distinct()
    ensures
        forall|m: int| 0 <= m < 16 ==> (#[trigger] block_suffixes()[m]).len() >= 11 && block_suffixes()[m][0] == '.',
        forall|a: int, b: int|
            0 <= a < 16 && 0 <= b < 16 && a != b ==> #[trigger] block_suffixes()[a] != #[trigger] block_suffixes()[b],
{
    reveal_strlit(".");
    reveal_strlit("q_proj");
    reveal_strlit("k_proj");
    reveal_strlit("v_proj");
    reveal_strlit("out_proj");
    reveal_strlit("norm1");
    reveal_strlit("norm2");
    reveal_strlit(".weight");
    reveal_strlit(".bias");
    reveal_strlit(".ffn");
    reveal_strlit(".fc1.weight");
    reveal_strlit(".fc1.bias");
    reveal_strlit(".fc2.weight");
    reveal_strlit(".fc2.bias");
    let f = block_suffixes();
    assert forall|m: int| 0 <= m < 16 implies (#[trigger] f[m]).len() >= 11 && f[m][0] == '.' by {
    }
    assert forall|a: int, b: int| 0 <= a < 16 && 0 <= b < 16 && a != b implies #[trigger] f[a] != #[trigger] f[b] by {
        assert(suffix_signature(f[a]) != suffix_signature(f[b]));
    }
}

proof fn lemma_block_name_split(i: nat, j: nat, x: Seq<char>, y: Seq<char>)
    requires
        block_prefix(i) + x == block_prefix(j) + y,
        x.len() >= 1,
        y.len() >= 1,
        x[0] == '.',
        y[0] == '.',
    ensures
        i == j,
        x == y,
{
    reveal_strlit("block_");
    lemma_decimal_digits(i);
    lemma_decimal_digits(j);
    let di = decimal(i);
    let dj = decimal(j);
    let u = block_prefix(i) + x;
    let v = block_prefix(j) + y;
    assert(block_prefix(i).len() == 6 + di.len());
    assert(block_prefix(j).len() == 6 + dj.len());
    if di.len() < dj.len() {
        let k = 6 + di.len() as int;
        assert(u[k] == x[0]);
        assert(v[k] == dj[di.len() as int]);
        assert(is_digit(dj[di.len() as int]));
        assert(false);
    } else if dj.len() < di.len() {
        let k = 6 + dj.len() as int;
        assert(v[k] == y[0]);
        assert(u[k] == di[dj.len() as int]);
        assert(is_digit(di[dj.len() as int]));
        assert(false);
    } else {
        assert(di =~= u.subrange(6, 6 + di.len() as int));
        assert(dj =~= v.subrange(6, 6 + dj.len() as int));
        lemma_decimal_injective(i, j);
        assert(x =~= u.subrange(6 + di.len() as int, u.len() as int));
        assert(y =~= v.subrange(6 + dj.len() as int, v.len() as int));
    }
}

proof fn lemma_blocks_entries_at(c: TransformerConfig, n: nat, i: nat, m: int)
    requires
        i < n,
        0 <= m < 16,
    ensures
        blocks_entries(c, n).len() == 16 * n,
        blocks_entries(c, n)[16 * i + m] == block_entries(c, i)[m],
    decreases n,
{
    lemma_blocks_sum(c, n);
    lemma_blocks_sum(c, (n - 1) as nat);
    lemma_block_names(c, (n - 1) as nat);
    let prev = blocks_entries(c, (n - 1) as nat);
    if i < n - 1 {
        lemma_blocks_entries_at(c, (n - 1) as nat, i, m);
        assert(16 * i + m < prev.len());
    } else {
        assert(16 * i + m - prev.len() == m);
    }
}

/// The name suffixes of a block's parameters, written as one literal each.
proof fn lemma_block_suffix_literals()
    ensures
        "."@ + "q_proj"@ + ".weight"@ == ".q_proj.weight"@,
        "."@ + "q_proj"@ + ".bias"@ == ".q_proj.bias"@,
        "."@ + "k_proj"@ + ".weight"@ == ".k_proj.weight"@,
        "."@ + "k_proj"@ + ".bias"@ == ".k_proj.bias"@,
        "."@ + "v_proj"@ + ".weight"@ == ".v_proj.weight"@,
        "."@ + "v_proj"@ + ".bias"@ == ".v_proj.bias"@,
        "."@ + "out_proj"@ + ".weight"@ == ".out_proj.weight"@,
        "."@ + "out_proj"@ + ".bias"@ == ".out_proj.bias"@,
        "."@ + "norm1"@ + ".weight"@ == ".norm1.weight"@,
        "."@ + "norm1"@ + ".bias"@ == ".norm1.bias"@,
        "."@ + "norm2"@ + ".weight"@ == ".norm2.weight"@,
        "."@ + "norm2"@ + ".bias"@ == ".norm2.bias"@,
        ".ffn"@ + ".fc1.weight"@ == ".ffn.fc1.weight"@,
        ".ffn"@ + ".fc1.bias"@ == ".ffn.fc1.bias"@,
        ".ffn"@ + ".fc2.weight"@ == ".ffn.fc2.weight"@,
        ".ffn"@ + ".fc2.bias"@ == ".ffn.fc2.bias"@,
{
    reveal_strlit(".");
    reveal_strlit("q_proj");
    reveal_strlit("k_proj");
    reveal_strlit("v_proj");
    reveal_strlit("out_proj");
    reveal_strlit("norm1");
    reveal_strlit("norm2");
    reveal_strlit(".weight");
    reveal_strlit(".bias");
    reveal_strlit(".ffn");
    reveal_strlit(".fc1.weight");
    reveal_strlit(".fc1.bias");
    reveal_strlit(".fc2.weight");
    reveal_strlit(".fc2.bias");
    reveal_strlit(".q_proj.weight");
    reveal_strlit(".q_proj.bias");
    reveal_strlit(".k_proj.weight");
    reveal_strlit(".k_proj.bias");
    reveal_strlit(".v_proj.weight");
    reveal_strlit(".v_proj.bias");
    reveal_strlit(".out_proj.weight");
    reveal_strlit(".out_proj.bias");
    reveal_strlit(".norm1.weight");
    reveal_strlit(".norm1.bias");
    reveal_strlit(".norm2.weight");
    reveal_strlit(".norm2.bias");
    reveal_strlit(".ffn.fc1.weight");
    reveal_strlit(".ffn.fc1.bias");
    reveal_strlit(".ffn.fc2.weight");
    reveal_strlit(".ffn.fc2.bias");
    assert("."@ + "q_proj"@ + ".weight"@ =~= ".q_proj.weight"@);
    assert("."@ + "q_proj"@ + ".bias"@ =~= ".q_proj.bias"@);
    assert("."@ + "k_proj"@ + ".weight"@ =~= ".k_proj.weight"@);
    assert("."@ + "k_proj"@ + ".bias"@ =~= ".k_proj.bias"@);
    assert("."@ + "v_proj"@ + ".weight"@ =~= ".v_proj.weight"@);
    assert("."@ + "v_proj"@ + ".bias"@ =~= ".v_proj.bias"@);
    assert("."@ + "out_proj"@ + ".weight"@ =~= ".out_proj.weight"@);
    assert("."@ + "out_proj"@ + ".bias"@ =~= ".out_proj.bias"@);
    assert("."@ + "norm1"@ + ".weight"@ =~= ".norm1.weight"@);
    assert("."@ + "norm1"@ + ".bias"@ =~= ".norm1.bias"@);
    assert("."@ + "norm2"@ + ".weight"@ =~= ".norm2.weight"@);
    assert("."@ + "norm2"@ + ".bias"@ =~= ".norm2.bias"@);
    assert(".ffn"@ + ".fc1.weight"@ =~= ".ffn.fc1.weight"@);
    assert(".ffn"@ + ".fc1.bias"@ =~= ".ffn.fc1.bias"@);
    assert(".ffn"@ + ".fc2.weight"@ =~= ".ffn.fc2.weight"@);
    assert(".ffn"@ + ".fc2.bias"@ =~= ".ffn.fc2.bias"@);
}

/// Entry `m` of block `i` stands at position `2 + 16 * i + m` of the
/// encoder's parameters.
proof fn lemma_block_entry_at(c: TransformerConfig, i: nat, m: int)
    requires
        i < c.n_layers,
        0 <= m < 16,
    ensures
        model_entries(c).len() == 16 * (c.n_layers as nat) + 4,
        model_entries(c)[2 + 16 * (i as int) + m] == block_entries(c, i)[m],
{
    let n = c.n_layers as nat;
    lemma_model_entries_sum(c);
    lemma_blocks_sum(c, n);
    lemma_blocks_entries_at(c, n, i, m);
    let b = blocks_entries(c, n);
    assert(model_entries(c) == embedding_entries(c) + b + final_entries(c));
}

/// The parameters of block `i` of an encoder, listed from position
/// `2 + 16 * i` on: the weight and bias of the query, key, value and output
/// projections (`d_model` by `d_model`, and `d_model`), the weight and bias of
/// the two normalisations (`d_model` each), then the feed-forward network, whose
/// first weight is `d_ff` by `d_model` (out by in features, as the first dense
/// layer reads it) with a bias of `d_ff`, and whose second weight is `d_model`
/// by `d_ff` with a bias of `d_model`. Each count is the product of its shape.
pub proof fn lemma_block_parameter_layout(c: TransformerConfig, i: nat)
    requires
        i < c.n_layers,
    ensures
        model_entries(c).len() == 16 * (c.n_layers as nat) + 4,
        model_entries(c)[2 + 16 * (i as int) + 0] == (
            block_prefix(i) + ".q_proj.weight"@, (c.d_model as nat) * (c.d_model as nat), seq![c.d_model, c.d_model]),
        model_entries(c)[2 + 16 * (i as int) + 1] == (
            block_prefix(i) + ".q_proj.bias"@, (c.d_model as nat), seq![c.d_model]),
        model_entries(c)[2 + 16 * (i as int) + 2] == (
            block_prefix(i) + ".k_proj.weight"@, (c.d_model as nat) * (c.d_model as nat), seq![c.d_model, c.d_model]),
        model_entries(c)[2 + 16 * (i as int) + 3] == (
            block_prefix(i) + ".k_proj.bias"@, (c.d_model as nat), seq![c.d_model]),
        model_entries(c)[2 + 16 * (i as int) + 4] == (
            block_prefix(i) + ".v_proj.weight"@, (c.d_model as nat) * (c.d_model as nat), seq![c.d_model, c.d_model]),
        model_entries(c)[2 + 16 * (i as int) + 5] == (
            block_prefix(i) + ".v_proj.bias"@, (c.d_model as nat), seq![c.d_model]),
        model_entries(c)[2 + 16 * (i as int) + 6] == (
            block_prefix(i) + ".out_proj.weight"@, (c.d_model as nat) * (c.d_model as nat), seq![c.d_model, c.d_model]),
        model_entries(c)[2 + 16 * (i as int) + 7] == (
            block_prefix(i) + ".out_proj.bias"@, (c.d_model as nat), seq![c.d_model]),
        model_entries(c)[2 + 16 * (i as int) + 8] == (
            block_prefix(i) + ".norm1.weight"@, (c.d_model as nat), seq![c.d_model]),
        model_entries(c)[2 + 16 * (i as int) + 9] == (
            block_prefix(i) + ".norm1.bias"@, (c.d_model as nat), seq![c.d_model]),
        model_entries(c)[2 + 16 * (i as int) + 10] == (
            block_prefix(i) + ".norm2.weight"@, (c.d_model as nat), seq![c.d_model]),
        model_entries(c)[2 + 16 * (i as int) + 11] == (
            block_prefix(i) + ".norm2.bias"@, (c.d_model as nat), seq![c.d_model]),
        model_entries(c)[2 + 16 * (i as int) + 12] == (
            block_prefix(i) + ".ffn.fc1.weight"@, (c.d_ff as nat) * (c.d_model as nat), seq![c.d_ff, c.d_model]),
        model_entries(c)[2 + 16 * (i as int) + 13] == (
            block_prefix(i) + ".ffn.fc1.bias"@, (c.d_ff as nat), seq![c.d_ff]),
        model_entries(c)[2 + 16 * (i as int) + 14] == (
            block_prefix(i) + ".ffn.fc2.weight"@, (c.d_model as nat) * (c.d_ff as nat), seq![c.d_model, c.d_ff]),
        model_entries(c)[2 + 16 * (i as int) + 15] == (
            block_prefix(i) + ".ffn.fc2.bias"@, (c.d_model as nat), seq![c.d_model]),
{
    lemma_block_suffix_literals();
    lemma_block_entry_at(c, i, 0);
    let p = block_prefix(i);
    let e = block_entries(c, i);
    assert(model_entries(c)[2 + 16 * (i as int) + 0] == (
        block_prefix(i) + ".q_proj.weight"@, (c.d_model as nat) * (c.d_model as nat), seq![c.d_model, c.d_model])) by {
        lemma_block_entry_at(c, i, 0);
        assert(e[0].0 =~= p + ".q_proj.weight"@);
    }
    assert(model_entries(c)[2 + 16 * (i as int) + 1] == (
        block_prefix(i) + ".q_proj.bias"@, (c.d_model as nat), seq![c.d_model])) by {
        lemma_block_entry_at(c, i, 1);
        assert(e[1].0 =~= p + ".q_proj.bias"@);
    }
    assert(model_entries(c)[2 + 16 * (i as int) + 2] == (
        block_prefix(i) + ".k_proj.weight"@, (c.d_model as nat) * (c.d_model as nat), seq![c.d_model, c.d_model])) by {
        lemma_block_entry_at(c, i, 2);
        assert(e[2].0 =~= p + ".k_proj.weight"@);
    }
    assert(model_entries(c)[2 + 16 * (i as int) + 3] == (
        block_prefix(i) + ".k_proj.bias"@, (c.d_model as nat), seq![c.d_model])) by {
        lemma_block_entry_at(c, i, 3);
        assert(e[3].0 =~= p + ".k_proj.bias"@);
    }
    assert(model_entries(c)[2 + 16 * (i as int) + 4] == (
        block_prefix(i) + ".v_proj.weight"@, (c.d_model as nat) * (c.d_model as nat), seq![c.d_model, c.d_model])) by {
        lemma_block_entry_at(c, i, 4);
        assert(e[4].0 =~= p + ".v_proj.weight"@);
    }
    assert(model_entries(c)[2 + 16 * (i as int) + 5] == (
        block_prefix(i) + ".v_proj.bias"@, (c.d_model as nat), seq![c.d_model])) by {
        lemma_block_entry_at(c, i, 5);
        assert(e[5].0 =~= p + ".v_proj.bias"@);
    }
    assert(model_entries(c)[2 + 16 * (i as int) + 6] == (
        block_prefix(i) + ".out_proj.weight"@, (c.d_model as nat) * (c.d_model as nat), seq![c.d_model, c.d_model])) by {
        lemma_block_entry_at(c, i, 6);
        assert(e[6].0 =~= p + ".out_proj.weight"@);
    }
    assert(model_entries(c)[2 + 16 * (i as int) + 7] == (
        block_prefix(i) + ".out_proj.bias"@, (c.d_model as nat), seq![c.d_model])) by {
        lemma_block_entry_at(c, i, 7);
        assert(e[7].0 =~= p + ".out_proj.bias"@);
    }
    assert(model_entries(c)[2 + 16 * (i as int) + 8] == (
        block_prefix(i) + ".norm1.weight"@, (c.d_model as nat), seq![c.d_model])) by {
        lemma_block_entry_at(c, i, 8);
        assert(e[8].0 =~= p + ".norm1.weight"@);
    }
    assert(model_entries(c)[2 + 16 * (i as int) + 9] == (
        block_prefix(i) + ".norm1.bias"@, (c.d_model as nat), seq![c.d_model])) by {
        lemma_block_entry_at(c, i, 9);
        assert(e[9].0 =~= p + ".norm1.bias"@);
    }
    assert(model_entries(c)[2 + 16 * (i as int) + 10] == (
        block_prefix(i) + ".norm2.weight"@, (c.d_model as nat), seq![c.d_model])) by {
        lemma_block_entry_at(c, i, 10);
        assert(e[10].0 =~= p + ".norm2.weight"@);
    }
    assert(model_entries(c)[2 + 16 * (i as int) + 11] == (
        block_prefix(i) + ".norm2.bias"@, (c.d_model as nat), seq![c.d_model])) by {
        lemma_block_entry_at(c, i, 11);
        assert(e[11].0 =~= p + ".norm2.bias"@);
    }
    assert(model_entries(c)[2 + 16 * (i as int) + 12] == (
        block_prefix(i) + ".ffn.fc1.weight"@, (c.d_ff as nat) * (c.d_model as nat), seq![c.d_ff, c.d_model])) by {
        lemma_block_entry_at(c, i, 12);
        assert(e[12].0 =~= p + ".ffn.fc1.weight"@);
    }
    assert(model_entries(c)[2 + 16 * (i as int) + 13] == (
        block_prefix(i) + ".ffn.fc1.bias"@, (c.d_ff as nat), seq![c.d_ff])) by {
        lemma_block_entry_at(c, i, 13);
        assert(e[13].0 =~= p + ".ffn.fc1.bias"@);
    }
    assert(model_entries(c)[2 + 16 * (i as int) + 14] == (
        block_prefix(i) + ".ffn.fc2.weight"@, (c.d_model as nat) * (c.d_ff as nat), seq![c.d_model, c.d_ff])) by {
        lemma_block_entry_at(c, i, 14);
        assert(e[14].0 =~= p + ".ffn.fc2.weight"@);
    }
    assert(model_entries(c)[2 + 16 * (i as int) + 15] == (
        block_prefix(i) + ".ffn.fc2.bias"@, (c.d_model as nat), seq![c.d_model])) by {
        lemma_block_entry_at(c, i, 15);
        assert(e[15].0 =~= p + ".ffn.fc2.bias"@);
    }
}

/// The encoder's parameters begin with the token embedding table
/// (`vocab_size` by `d_model`) and the position embedding table
/// (`max_seq_len` by `d_model`), and end with the weight and bias of the final
/// normalisation (`d_model` each).
pub proof fn lemma_model_parameter_ends(c: TransformerConfig)
    ensures
        model_entries(c).len() == 16 * (c.n_layers as nat) + 4,
        model_entries(c)[0] == ("token_embedding"@, (c.vocab_size as nat) * (c.d_model as nat), seq![c.vocab_size, c.d_model]),
        model_entries(c)[1] == ("pos_embedding"@, (c.max_seq_len as nat) * (c.d_model as nat), seq![c.max_seq_len, c.d_model]),
        model_entries(c)[16 * (c.n_layers as int) + 2] == ("final_norm.weight"@, (c.d_model as nat), seq![c.d_model]),
        model_entries(c)[16 * (c.n_layers as int) + 3] == ("final_norm.bias"@, (c.d_model as nat), seq![c.d_model]),
{
    let n = c.n_layers as nat;
    lemma_model_entries_sum(c);
    lemma_blocks_sum(c, n);
    let b = blocks_entries(c, n);
    assert(model_entries(c) == embedding_entries(c) + b + final_entries(c));
    assert(b.len() == 16 * n);
}

/// Whether node `n` is a fully connected layer whose parameters are the
/// weight `w` and the bias `b`: it names exactly those two, the weight is
/// out-features by in-features (as `y = x W^T + b` reads it) with that many
/// elements, and the bias has out-features elements.
pub open spec fn dense_params_fit(n: Node, w: ParamEntry, b: ParamEntry) -> bool {
    &&& n.node_type matches NodeType::Dense { in_features, out_features, .. }
    &&& n.params_view() == seq![w.0, b.0]
    &&& w.2 == seq![out_features, in_features]
    &&& w.1 == (out_features as nat) * (in_features as nat)
    &&& b.2 == seq![out_features]
}

/// Whether node `n` is a layer normalisation whose parameters are the
/// weight `w` and the bias `b`: it names exactly those two, and both have
/// the normalised shape.
pub open spec fn norm_params_fit(n: Node, w: ParamEntry, b: ParamEntry) -> bool {
    &&& n.node_type matches NodeType::LayerNorm { normalized_shape, .. }
    &&& n.params_view() == seq![w.0, b.0]
    &&& w.2 == normalized_shape@
    &&& b.2 == normalized_shape@
}

/// The parameter names a block's nodes read, each written as one literal.
proof fn lemma_node_param_literals()
    ensures
        ".q_proj"@ + ".weight"@ == ".q_proj.weight"@,
        ".q_proj"@ + ".bias"@ == ".q_proj.bias"@,
        ".k_proj"@ + ".weight"@ == ".k_proj.weight"@,
        ".k_proj"@ + ".bias"@ == ".k_proj.bias"@,
        ".v_proj"@ + ".weight"@ == ".v_proj.weight"@,
        ".v_proj"@ + ".bias"@ == ".v_proj.bias"@,
        ".out_proj"@ + ".weight"@ == ".out_proj.weight"@,
        ".out_proj"@ + ".bias"@ == ".out_proj.bias"@,
        ".norm1"@ + ".weight"@ == ".norm1.weight"@,
        ".norm1"@ + ".bias"@ == ".norm1.bias"@,
        ".norm2"@ + ".weight"@ == ".norm2.weight"@,
        ".norm2"@ + ".bias"@ == ".norm2.bias"@,
        ".ffn.fc1"@ + ".weight"@ == ".ffn.fc1.weight"@,
        ".ffn.fc1"@ + ".bias"@ == ".ffn.fc1.bias"@,
        ".ffn.fc2"@ + ".weight"@ == ".ffn.fc2.weight"@,
        ".ffn.fc2"@ + ".bias"@ == ".ffn.fc2.bias"@,
{
    reveal_strlit(".q_proj");
    reveal_strlit(".k_proj");
    reveal_strlit(".v_proj");
    reveal_strlit(".out_proj");
    reveal_strlit(".norm1");
    reveal_strlit(".norm2");
    reveal_strlit(".ffn.fc1");
    reveal_strlit(".ffn.fc2");
    reveal_strlit(".weight");
    reveal_strlit(".bias");
    reveal_strlit(".q_proj.weight");
    reveal_strlit(".k_proj.weight");
    reveal_strlit(".v_proj.weight");
    reveal_strlit(".out_proj.weight");
    reveal_strlit(".norm1.weight");
    reveal_strlit(".norm2.weight");
    reveal_strlit(".ffn.fc1.weight");
    reveal_strlit(".ffn.fc2.weight");
    reveal_strlit(".q_proj.bias");
    reveal_strlit(".k_proj.bias");
    reveal_strlit(".v_proj.bias");
    reveal_strlit(".out_proj.bias");
    reveal_strlit(".norm1.bias");
    reveal_strlit(".norm2.bias");
    reveal_strlit(".ffn.fc1.bias");
    reveal_strlit(".ffn.fc2.bias");
    assert(".q_proj"@ + ".weight"@ =~= ".q_proj.weight"@);
    assert(".q_proj"@ + ".bias"@ =~= ".q_proj.bias"@);
    assert(".k_proj"@ + ".weight"@ =~= ".k_proj.weight"@);
    assert(".k_proj"@ + ".bias"@ =~= ".k_proj.bias"@);
    assert(".v_proj"@ + ".weight"@ =~= ".v_proj.weight"@);
    assert(".v_proj"@ + ".bias"@ =~= ".v_proj.bias"@);
    assert(".out_proj"@ + ".weight"@ =~= ".out_proj.weight"@);
    assert(".out_proj"@ + ".bias"@ =~= ".out_proj.bias"@);
    assert(".norm1"@ + ".weight"@ =~= ".norm1.weight"@);
    assert(".norm1"@ + ".bias"@ =~= ".norm1.bias"@);
    assert(".norm2"@ + ".weight"@ =~= ".norm2.weight"@);
    assert(".norm2"@ + ".bias"@ =~= ".norm2.bias"@);
    assert(".ffn.fc1"@ + ".weight"@ =~= ".ffn.fc1.weight"@);
    assert(".ffn.fc1"@ + ".bias"@ =~= ".ffn.fc1.bias"@);
    assert(".ffn.fc2"@ + ".weight"@ =~= ".ffn.fc2.weight"@);
    assert(".ffn.fc2"@ + ".bias"@ =~= ".ffn.fc2.bias"@);
}

/// The parameters each node of a block named `l` reads, and the types of
/// the nodes that read them.
proof fn lemma_block_node_params(nodes: Seq<Node>, q: int, l: Seq<char>, input: Seq<char>, c: TransformerConfig)
    requires
        block_nodes(nodes, q, l, input, c),
    ensures
        nodes[q + 0].params_view() == seq![l + ".norm1.weight"@, l + ".norm1.bias"@],
        nodes[q + 1].params_view() == seq![l + ".q_proj.weight"@, l + ".q_proj.bias"@],
        nodes[q + 2].params_view() == seq![l + ".k_proj.weight"@, l + ".k_proj.bias"@],
        nodes[q + 3].params_view() == seq![l + ".v_proj.weight"@, l + ".v_proj.bias"@],
        nodes[q + 5].params_view() == seq![l + ".out_proj.weight"@, l + ".out_proj.bias"@],
        nodes[q + 7].params_view() == seq![l + ".norm2.weight"@, l + ".norm2.bias"@],
        nodes[q + 8].params_view() == seq![l + ".ffn.fc1.weight"@, l + ".ffn.fc1.bias"@],
        nodes[q + 10].params_view() == seq![l + ".ffn.fc2.weight"@, l + ".ffn.fc2.bias"@],
        nodes[q + 0].node_type is LayerNorm && nodes[q + 0].node_type->LayerNorm_normalized_shape@ == seq![c.d_model],
        nodes[q + 7].node_type is LayerNorm && nodes[q + 7].node_type->LayerNorm_normalized_shape@ == seq![c.d_model],
        dense_dims(nodes[q + 1].node_type, c.d_model, c.d_model),
        dense_dims(nodes[q + 2].node_type, c.d_model, c.d_model),
        dense_dims(nodes[q + 3].node_type, c.d_model, c.d_model),
        dense_dims(nodes[q + 5].node_type, c.d_model, c.d_model),
        dense_dims(nodes[q + 8].node_type, c.d_model, c.d_ff),
        dense_dims(nodes[q + 10].node_type, c.d_ff, c.d_model),
{
    let ids = block_ids(l);
    let a = attention_ids(l);
    lemma_node_param_literals();
    assert(ids[1] == a[0] && ids[2] == a[1] && ids[3] == a[2] && ids[5] == a[4]);
    assert(is_dense_node(nodes[q + 1], a[0], ids[0], c.d_model, c.d_model));
    assert(is_dense_node(nodes[q + 2], a[1], ids[0], c.d_model, c.d_model));
    assert(is_dense_node(nodes[q + 3], a[2], ids[0], c.d_model, c.d_model));
    assert(nodes[q + 0].params_view() =~= seq![l + ".norm1.weight"@, l + ".norm1.bias"@]) by {
        assert((l + ".norm1"@) + ".weight"@ =~= l + (".norm1"@ + ".weight"@));
        assert((l + ".norm1"@) + ".bias"@ =~= l + (".norm1"@ + ".bias"@));
    }
    assert(nodes[q + 1].params_view() =~= seq![l + ".q_proj.weight"@, l + ".q_proj.bias"@]) by {
        assert((l + ".q_proj"@) + ".weight"@ =~= l + (".q_proj"@ + ".weight"@));
        assert((l + ".q_proj"@) + ".bias"@ =~= l + (".q_proj"@ + ".bias"@));
    }
    assert(nodes[q + 2].params_view() =~= seq![l + ".k_proj.weight"@, l + ".k_proj.bias"@]) by {
        assert((l + ".k_proj"@) + ".weight"@ =~= l + (".k_proj"@ + ".weight"@));
        assert((l + ".k_proj"@) + ".bias"@ =~= l + (".k_proj"@ + ".bias"@));
    }
    assert(nodes[q + 3].params_view() =~= seq![l + ".v_proj.weight"@, l + ".v_proj.bias"@]) by {
        assert((l + ".v_proj"@) + ".weight"@ =~= l + (".v_proj"@ + ".weight"@));
        assert((l + ".v_proj"@) + ".bias"@ =~= l + (".v_proj"@ + ".bias"@));
    }
    assert(nodes[q + 5].params_view() =~= seq![l + ".out_proj.weight"@, l + ".out_proj.bias"@]) by {
        assert((l + ".out_proj"@) + ".weight"@ =~= l + (".out_proj"@ + ".weight"@));
        assert((l + ".out_proj"@) + ".bias"@ =~= l + (".out_proj"@ + ".bias"@));
    }
    assert(nodes[q + 7].params_view() =~= seq![l + ".norm2.weight"@, l + ".norm2.bias"@]) by {
        assert((l + ".norm2"@) + ".weight"@ =~= l + (".norm2"@ + ".weight"@));
        assert((l + ".norm2"@) + ".bias"@ =~= l + (".norm2"@ + ".bias"@));
    }
    assert(nodes[q + 8].params_view() =~= seq![l + ".ffn.fc1.weight"@, l + ".ffn.fc1.bias"@]) by {
        assert((l + ".ffn.fc1"@) + ".weight"@ =~= l + (".ffn.fc1"@ + ".weight"@));
        assert((l + ".ffn.fc1"@) + ".bias"@ =~= l + (".ffn.fc1"@ + ".bias"@));
    }
    assert(nodes[q + 10].params_view() =~= seq![l + ".ffn.fc2.weight"@, l + ".ffn.fc2.bias"@]) by {
        assert((l + ".ffn.fc2"@) + ".weight"@ =~= l + (".ffn.fc2"@ + ".weight"@));
        assert((l + ".ffn.fc2"@) + ".bias"@ =~= l + (".ffn.fc2"@ + ".bias"@));
    }
}

/// The graph of an encoder and its parameter list agree: each normalisation
/// and each fully connected layer of block `i` reads, by name, the weight and
/// bias that the list holds for it, and each listed weight has the shape the
/// node needs (out-features by in-features for a fully connected layer).
pub proof fn lemma_block_params_listed(
    nodes: Seq<Node>,
    at: int,
    c: TransformerConfig,
    input: Seq<char>,
    output: Seq<char>,
    i: int,
)
    requires
        encoder_nodes(nodes, at, c, input, output),
        0 <= i < c.n_layers,
    ensures
        norm_params_fit(nodes[at + 5 + 12 * i + 0], model_entries(c)[2 + 16 * i + 8], model_entries(c)[2 + 16 * i + 9]),
        norm_params_fit(nodes[at + 5 + 12 * i + 7], model_entries(c)[2 + 16 * i + 10], model_entries(c)[2 + 16 * i + 11]),
        dense_params_fit(nodes[at + 5 + 12 * i + 1], model_entries(c)[2 + 16 * i + 0], model_entries(c)[2 + 16 * i + 1]),
        dense_params_fit(nodes[at + 5 + 12 * i + 2], model_entries(c)[2 + 16 * i + 2], model_entries(c)[2 + 16 * i + 3]),
        dense_params_fit(nodes[at + 5 + 12 * i + 3], model_entries(c)[2 + 16 * i + 4], model_entries(c)[2 + 16 * i + 5]),
        dense_params_fit(nodes[at + 5 + 12 * i + 5], model_entries(c)[2 + 16 * i + 6], model_entries(c)[2 + 16 * i + 7]),
        dense_params_fit(nodes[at + 5 + 12 * i + 8], model_entries(c)[2 + 16 * i + 12], model_entries(c)[2 + 16 * i + 13]),
        dense_params_fit(nodes[at + 5 + 12 * i + 10], model_entries(c)[2 + 16 * i + 14], model_entries(c)[2 + 16 * i + 15]),
{
    assert(block_nodes(nodes, at + 5 + 12 * i, block_prefix(i as nat), block_input(i as nat), c));
    lemma_block_node_params(nodes, at + 5 + 12 * i, block_prefix(i as nat), block_input(i as nat), c);
    lemma_block_parameter_layout(c, i as nat);
}

/// The name and first character of parameter `a` of the encoder: the two
/// embedding tables, the parameters of the blocks, then the final
/// normalisation.
proof fn lemma_init_name_at(c: TransformerConfig, a: int)
    requires
        0 <= a < model_entries(c).len(),
    ensures
        model_entries(c).len() == 16 * (c.n_layers as int) + 4,
        a == 0 ==> init_name_at(c, a) == "token_embedding"@ + ".weight"@,
        a == 1 ==> init_name_at(c, a) == "pos_embedding"@ + ".weight"@,
        2 <= a < 2 + 16 * (c.n_layers as int) ==> init_name_at(c, a) == block_prefix(((a - 2) / 16) as nat)
            + block_suffixes()[(a - 2) % 16],
        a == 2 + 16 * (c.n_layers as int) ==> init_name_at(c, a) == "final_norm.weight"@,
        a == 3 + 16 * (c.n_layers as int) ==> init_name_at(c, a) == "final_norm.bias"@,
{
    let n = c.n_layers as nat;
    lemma_model_entries_sum(c);
    lemma_blocks_sum(c, n);
    let e = embedding_entries(c);
    let b = blocks_entries(c, n);
    let f = final_entries(c);
    assert(model_entries(c) == e + b + f);
    if 2 <= a < 2 + 16 * n {
        let i = ((a - 2) / 16) as nat;
        let m = (a - 2) % 16;
        assert(0 <= m < 16 && i < n && a - 2 == 16 * i + m);
        lemma_blocks_entries_at(c, n, i, m);
        lemma_block_names(c, i);
        assert(model_entries(c)[a] == b[a - 2]);
    } else if a >= 2 + 16 * n {
        assert(model_entries(c)[a] == f[a - 2 - 16 * n]);
    } else {
        assert(model_entries(c)[a] == e[a]);
    }
}

/// The initial parameters of an encoder are named distinctly: no name is
/// given to two of them.
pub proof fn lemma_init_names_distinct(c: TransformerConfig)
    ensures
        forall|a: int, b: int|
            0 <= a < model_entries(c).len() && 0 <= b < model_entries(c).len() && a != b
                ==> #[trigger] init_name_at(c, a) != #[trigger] init_name_at(c, b),
{
    reveal_strlit("token_embedding");
    reveal_strlit("pos_embedding");
    reveal_strlit(".weight");
    reveal_strlit("final_norm.weight");
    reveal_strlit("final_norm.bias");
    reveal_strlit("block_");
    lemma_suffixes_distinct();
    let n = c.n_layers as int;
    assert forall|a: int, b: int|
        0 <= a < model_entries(c).len() && 0 <= b < model_entries(c).len() && a != b
            implies #[trigger] init_name_at(c, a) != #[trigger] init_name_at(c, b) by {
        lemma_init_name_at(c, a);
        lemma_init_name_at(c, b);
        let x = init_name_at(c, a);
        let y = init_name_at(c, b);
        if x == y {
            let ba = 2 <= a < 2 + 16 * n;
            let bb = 2 <= b < 2 + 16 * n;
            if ba && bb {
                let ia = ((a - 2) / 16) as nat;
                let ib = ((b - 2) / 16) as nat;
                let ma = (a - 2) % 16;
                let mb = (b - 2) % 16;
                lemma_block_name_split(ia, ib, block_suffixes()[ma], block_suffixes()[mb]);
                assert(ma == mb);
                assert(a == b);
            } else if ba {
                assert(x[0] == 'b');
                assert(y[0] != 'b');
            } else if bb {
                assert(y[0] == 'b');
                assert(x[0] != 'b');
            } else {
                assert(x.len() != y.len() || x[0] != y[0]);
            }
        }
    }
}

/// Whether `s` ends with `suffix`.
pub open spec fn ends_with(s: Seq<char>, suffix: Seq<char>) -> bool {
    s.len() >= suffix.len() && s.subrange(s.len() - suffix.len(), s.len() as int) == suffix
}

/// Whether `name` names the weight of a layer normalisation: it ends with
/// `norm1.weight` or `norm2.weight`, or it is `final_norm.weight`.
pub open spec fn is_norm_weight_name(name: Seq<char>) -> bool {
    ends_with(name, "norm1.weight"@) || ends_with(name, "norm2.weight"@) || name == "final_norm.weight"@
}

proof fn lemma_not_ends_with(s: Seq<char>, t: Seq<char>, j: int)
    requires
        0 <= j < t.len(),
        s.len() >= t.len() ==> s[s.len() - t.len() + j] != t[j],
    ensures
        !ends_with(s, t),
{
    if ends_with(s, t) {
        assert(s.subrange(s.len() - t.len(), s.len() as int)[j] == t[j]);
    }
}

proof fn lemma_ends_with_concat(p: Seq<char>, x: Seq<char>, t: Seq<char>)
    requires
        x.len() >= t.len(),
    ensures
        ends_with(p + x, t) == ends_with(x, t),
{
    let s = p + x;
    assert(s.subrange(s.len() - t.len(), s.len() as int) =~= x.subrange(x.len() - t.len(), x.len() as int));
}

proof fn lemma_suffix_kinds()
    ensures
        forall|m: int| 0 <= m < 16 ==> (#[trigger] block_suffixes()[m]).len() >= 11,
        forall|m: int| 0 <= m < 16 && m % 2 == 0 ==> (#[trigger] block_suffixes()[m]).len() >= 12,
        forall|m: int|
            0 <= m < 16 && m % 2 == 1 ==> (#[trigger] block_suffixes()[m])[block_suffixes()[m].len() - 1] == 's',
        forall|m: int| 0 <= m < 16 && ends_with(#[trigger] block_suffixes()[m], ".bias"@) ==> m % 2 == 1,
        forall|m: int|
            0 <= m < 16 && (ends_with(#[trigger] block_suffixes()[m], "norm1.weight"@) || ends_with(
                block_suffixes()[m],
                "norm2.weight"@,
            )) ==> m == 8 || m == 10,
{
    reveal_strlit(".");
    reveal_strlit("q_proj");
    reveal_strlit("k_proj");
    reveal_strlit("v_proj");
    reveal_strlit("out_proj");
    reveal_strlit("norm1");
    reveal_strlit("norm2");
    reveal_strlit(".weight");
    reveal_strlit(".bias");
    reveal_strlit(".ffn");
    reveal_strlit(".fc1.weight");
    reveal_strlit(".fc1.bias");
    reveal_strlit(".fc2.weight");
    reveal_strlit(".fc2.bias");
    reveal_strlit("norm1.weight");
    reveal_strlit("norm2.weight");
    let f = block_suffixes();
    assert forall|m: int| 0 <= m < 16 implies (#[trigger] f[m]).len() >= 11 by {}
    assert forall|m: int| 0 <= m < 16 && m % 2 == 0 implies (#[trigger] f[m]).len() >= 12 by {}
    assert forall|m: int| 0 <= m < 16 && m % 2 == 1 implies (#[trigger] f[m])[f[m].len() - 1] == 's' by {}
    assert forall|m: int| 0 <= m < 16 && ends_with(#[trigger] f[m], ".bias"@) implies m % 2 == 1 by {
        if m % 2 == 0 {
            lemma_not_ends_with(f[m], ".bias"@, 4);
        }
    }
    assert forall|m: int|
        0 <= m < 16 && (ends_with(#[trigger] f[m], "norm1.weight"@) || ends_with(f[m], "norm2.weight"@))
        implies m == 8 || m == 10 by {
        if m % 2 == 1 {
            lemma_not_ends_with(f[m], "norm1.weight"@, 11);
            lemma_not_ends_with(f[m], "norm2.weight"@, 11);
        } else if m < 8 {
            lemma_not_ends_with(f[m], "norm1.weight"@, 4);
            lemma_not_ends_with(f[m], "norm2.weight"@, 4);
        } else if m >= 12 {
            lemma_not_ends_with(f[m], "norm1.weight"@, 3);
            lemma_not_ends_with(f[m], "norm2.weight"@, 3);
        }
    }
}

/// What the name of parameter `i` of the encoder says of its position: a
/// name ending with `.bias` is a bias of a block or of the final
/// normalisation, and a norm weight name is a block's `norm1` or `norm2`
/// weight or the final one.
proof fn lemma_init_name_kind(c: TransformerConfig, i: int)
    requires
        0 <= i < model_entries(c).len(),
    ensures
        ends_with(init_name_at(c, i), ".bias"@) ==> (i == 3 + 16 * (c.n_layers as int) || (2 <= i < 2 + 16
            * (c.n_layers as int) && ((i - 2) % 16) % 2 == 1)),
        is_norm_weight_name(init_name_at(c, i)) ==> (i == 2 + 16 * (c.n_layers as int) || (2 <= i < 2
            + 16 * (c.n_layers as int) && ((i - 2) % 16 == 8 || (i - 2) % 16 == 10))),
{
    reveal_strlit("token_embedding");
    reveal_strlit("pos_embedding");
    reveal_strlit(".weight");
    reveal_strlit(".bias");
    reveal_strlit("final_norm.weight");
    reveal_strlit("final_norm.bias");
    reveal_strlit("norm1.weight");
    reveal_strlit("norm2.weight");
    reveal_strlit("block_");
    lemma_init_name_at(c, i);
    lemma_suffix_kinds();
    let n = c.n_layers as int;
    let x = init_name_at(c, i);
    if 2 <= i < 2 + 16 * n {
        let m = (i - 2) % 16;
        let p = block_prefix(((i - 2) / 16) as nat);
        let f = block_suffixes()[m];
        lemma_ends_with_concat(p, f, ".bias"@);
        if m % 2 == 0 {
            lemma_ends_with_concat(p, f, "norm1.weight"@);
            lemma_ends_with_concat(p, f, "norm2.weight"@);
        } else {
            assert(x[x.len() - 1] == f[f.len() - 1]);
            lemma_not_ends_with(x, "norm1.weight"@, 11);
            lemma_not_ends_with(x, "norm2.weight"@, 11);
        }
        assert(x[0] == 'b');
    } else if i < 2 {
        lemma_not_ends_with(x, ".bias"@, 4);
        lemma_not_ends_with(x, "norm1.weight"@, 4);
        lemma_not_ends_with(x, "norm2.weight"@, 4);
    } else if i == 2 + 16 * n {
        lemma_not_ends_with(x, ".bias"@, 4);
    } else {
        lemma_not_ends_with(x, "norm1.weight"@, 11);
        lemma_not_ends_with(x, "norm2.weight"@, 11);
    }
}

/// The weights that the encoder fills with ones are named as
/// normalisation weights.
proof fn lemma_norm_weight_named(c: TransformerConfig, i: int)
    requires
        0 <= i < model_entries(c).len(),
        (2 <= i < 2 + 16 * (c.n_layers as int) && ((i - 2) % 16 == 8 || (i - 2) % 16 == 10)) || i == 2 + 16
            * (c.n_layers as int),
    ensures
        is_norm_weight_name(init_name_at(c, i)),
{
    reveal_strlit(".");
    reveal_strlit("norm1");
    reveal_strlit("norm2");
    reveal_strlit(".weight");
    reveal_strlit("norm1.weight");
    reveal_strlit("norm2.weight");
    lemma_init_name_at(c, i);
    let n = c.n_layers as int;
    if i < 2 + 16 * n {
        let m = (i - 2) % 16;
        let p = block_prefix(((i - 2) / 16) as nat);
        let f = block_suffixes()[m];
        if m == 8 {
            assert(f.subrange(f.len() - 12, f.len() as int) =~= "norm1.weight"@);
            lemma_ends_with_concat(p, f, "norm1.weight"@);
        } else {
            assert(f.subrange(f.len() - 12, f.len() as int) =~= "norm2.weight"@);
            lemma_ends_with_concat(p, f, "norm2.weight"@);
        }
    }
}

/// The number of elements of the tensors of `v`, all together.
pub open spec fn data_total<T>(v: Seq<(String, Tensor<T>)>) -> nat
    decreases v.len(),
{
    if v.len() == 0 {
        0
    } else {
        data_total(v.drop_last()) + v.last().1.data_view().len()
    }
}

proof fn lemma_data_total<T>(v: Seq<(String, Tensor<T>)>, s: Seq<ParamEntry>)
    requires
        v.len() == s.len(),
        forall|i: int| 0 <= i < v.len() ==> (#[trigger] v[i]).1.data_view().len() == s[i].1,
    ensures
        data_total(v) == sum_params(s),
    decreases v.len(),
{
    if v.len() > 0 {
        let dv = v.drop_last();
        let ds = s.drop_last();
        assert forall|i: int| 0 <= i < dv.len() implies (#[trigger] dv[i]).1.data_view().len() == ds[i].1 by {
            assert(dv[i] == v[i]);
        }
        lemma_data_total(dv, ds);
        assert(v.last() == v[v.len() - 1]);
    }
}

impl TransformerEncoder {
    /// The initial parameters of the encoder, one per counted parameter and
    /// in the same order: each a tensor of the counted shape, filled as
    /// `init_value_at` describes (the caller gives the values, which depend
    /// on the element type): the token and position tables hold `token_fill`
    /// and `pos_fill`, the normalisation weights `one`, and every other
    /// weight and every bias `zero`.
    pub fn init_params<T: Copy>(&self, zero: T, one: T, token_fill: T, pos_fill: T) -> (r: Vec<(String, Tensor<T>)>)
        requires
            total_params(self.config_view()) <= usize::MAX,
        ensures
            r@.len() == model_entries(self.config_view()).len(),
            forall|i: int| 0 <= i < r@.len() ==> {
                &&& (#[trigger] r@[i]).0@ == init_name_at(self.config_view(), i)
                &&& r@[i].1.shape_view() == model_entries(self.config_view())[i].2
                &&& r@[i].1.data_view().len() == model_entries(self.config_view())[i].1
                &&& forall|k: int| 0 <= k < r@[i].1.data_view().len() ==> r@[i].1.data_view()[k]
                    == init_value_at(self.config_view(), i, zero, one, token_fill, pos_fill)
            },
            data_total(r@) == total_params(self.config_view()),
            forall|a: int, b: int|
                0 <= a < r@.len() && 0 <= b < r@.len() && a != b ==> #[trigger] r@[a].0@ != #[trigger] r@[b].0@,
            forall|i: int, k: int|
                0 <= i < r@.len() && ends_with(r@[i].0@, ".bias"@) && 0 <= k < r@[i].1.data_view().len()
                    ==> #[trigger] r@[i].1.data_view()[k] == zero,
            forall|i: int, k: int|
                0 <= i < r@.len() && is_norm_weight_name(r@[i].0@) && 0 <= k < r@[i].1.data_view().len()
                    ==> #[trigger] r@[i].1.data_view()[k] == one,
            forall|i: int, k: int|
                2 <= i < r@.len() && !is_norm_weight_name(r@[i].0@) && 0 <= k < r@[i].1.data_view().len()
                    ==> #[trigger] r@[i].1.data_view()[k] == zero,
            r@[0].1.shape_view() == seq![self.config_view().vocab_size, self.config_view().d_model],
            forall|k: int| 0 <= k < r@[0].1.data_view().len() ==> #[trigger] r@[0].1.data_view()[k] == token_fill,
            r@[1].1.shape_view() == seq![self.config_view().max_seq_len, self.config_view().d_model],
            forall|k: int| 0 <= k < r@[1].1.data_view().len() ==> #[trigger] r@[1].1.data_view()[k] == pos_fill,
            forall|l: int|
                0 <= l < self.config_view().n_layers ==> (#[trigger] r@[2 + 16 * l + 12]).0@ == block_prefix(
                    l as nat,
                ) + ".ffn.fc1.weight"@ && r@[2 + 16 * l + 12].1.shape_view() == seq![
                    self.config_view().d_ff,
                    self.config_view().d_model,
                ],
            forall|l: int|
                0 <= l < self.config_view().n_layers ==> (#[trigger] r@[2 + 16 * l + 14]).0@ == block_prefix(
                    l as nat,
                ) + ".ffn.fc2.weight"@ && r@[2 + 16 * l + 14].1.shape_view() == seq![
                    self.config_view().d_model,
                    self.config_view().d_ff,
                ],
    {
        proof {
            use_type_invariant(self);
        }
        let ghost c = self.config;
        let stats = compute_model_stats(&self.config);
        let n = self.config.n_layers;
        proof {
            lemma_model_counts(c);
            lemma_model_entries_sum(c);
            let d = c.d_model as nat;
            let f = c.d_ff as nat;
            assert(d >= 1 && f >= 1);
            assert(block_params(c) >= 16) by (nonlinear_arith)
                requires
                    d >= 1,
                    f >= 1,
                    block_params(c) == 4 * (d * d + d) + 4 * d + (f * d + f + d * f + d),
            ;
            assert((n as nat) * block_params(c) >= 16 * (n as nat)) by (nonlinear_arith)
                requires
                    block_params(c) >= 16,
            ;
        }
        let blocks_end = 2 + 16 * n;
        let ghost entries = model_entries(c);
        let mut out: Vec<(String, Tensor<T>)> = Vec::new();
        let mut i: usize = 0;
        while i < stats.layer_stats.len()
            invariant
                entries == model_entries(c),
                entries_of(stats.layer_stats@) == entries,
                counts_match(entries),
                sum_params(entries) == total_params(c),
                total_params(c) <= usize::MAX,
                c.n_layers == n,
                blocks_end == 2 + 16 * n,
                i <= entries.len(),
                out@.len() == i,
                forall|q: int| 0 <= q < i ==> {
                    &&& (#[trigger] out@[q]).0@ == init_name_at(c, q)
                    &&& out@[q].1.shape_view() == entries[q].2
                    &&& out@[q].1.data_view().len() == entries[q].1
                    &&& forall|k: int| 0 <= k < out@[q].1.data_view().len() ==> out@[q].1.data_view()[k]
                        == init_value_at(c, q, zero, one, token_fill, pos_fill)
                },
            decreases entries.len() - i,
        {
            let e = &stats.layer_stats[i];
            proof {
                assert(entry_of(stats.layer_stats@[i as int]) == entries[i as int]);
                lemma_entry_within_sum(entries, i as int);
                assert(shape_product(entries[i as int].2) == entries[i as int].1);
            }
            let name = if i < 2 {
                join2(e.name.as_str(), ".weight")
            } else {
                owned(e.name.as_str())
            };
            let value = if i == 0 {
                token_fill
            } else if i == 1 {
                pos_fill
            } else if i < blocks_end {
                let pos = (i - 2) % 16;
                if pos == 8 || pos == 10 {
                    one
                } else {
                    zero
                }
            } else if i == blocks_end {
                one
            } else {
                zero
            };
            let tensor = Tensor::full(e.shape.as_slice(), value);
            let ghost before = out@;
            out.push((name, tensor));
            proof {
                assert forall|q: int| 0 <= q < i + 1 implies {
                    &&& (#[trigger] out@[q]).0@ == init_name_at(c, q)
                    &&& out@[q].1.shape_view() == entries[q].2
                    &&& out@[q].1.data_view().len() == entries[q].1
                    &&& forall|k: int| 0 <= k < out@[q].1.data_view().len() ==> out@[q].1.data_view()[k]
                        == init_value_at(c, q, zero, one, token_fill, pos_fill)
                } by {
                    if q < i {
                        assert(out@[q] == before[q]);
                    }
                }
            }
            i = i + 1;
        }
        proof {
            lemma_data_total(out@, entries);
            lemma_init_names_distinct(c);
            assert forall|a: int, b: int|
                0 <= a < out@.len() && 0 <= b < out@.len() && a != b implies #[trigger] out@[a].0@
                != #[trigger] out@[b].0@ by {
                assert(init_name_at(c, a) != init_name_at(c, b));
            }
            assert forall|i: int| 0 <= i < out@.len() implies (ends_with((#[trigger] out@[i]).0@, ".bias"@)
                ==> init_value_at(c, i, zero, one, token_fill, pos_fill) == zero) && (is_norm_weight_name(
                out@[i].0@,
            ) ==> init_value_at(c, i, zero, one, token_fill, pos_fill) == one) by {
                lemma_init_name_kind(c, i);
            }
            assert forall|i: int| 2 <= i < out@.len() && !is_norm_weight_name((#[trigger] out@[i]).0@) implies init_value_at(
                c,
                i,
                zero,
                one,
                token_fill,
                pos_fill,
            ) == zero by {
                let m = c.n_layers as int;
                if (2 <= i < 2 + 16 * m && ((i - 2) % 16 == 8 || (i - 2) % 16 == 10)) || i == 2 + 16 * m {
                    lemma_norm_weight_named(c, i);
                }
            }
            lemma_model_parameter_ends(c);
            assert forall|l: int| 0 <= l < c.n_layers implies (#[trigger] out@[2 + 16 * l + 12]).0@
                == block_prefix(l as nat) + ".ffn.fc1.weight"@ && out@[2 + 16 * l + 12].1.shape_view() == seq![
                c.d_ff,
                c.d_model,
            ] by {
                lemma_block_parameter_layout(c, l as nat);
            }
            assert forall|l: int| 0 <= l < c.n_layers implies (#[trigger] out@[2 + 16 * l + 14]).0@
                == block_prefix(l as nat) + ".ffn.fc2.weight"@ && out@[2 + 16 * l + 14].1.shape_view() == seq![
                c.d_model,
                c.d_ff,
            ] by {
                lemma_block_parameter_layout(c, l as nat);
            }
        }
        out
    }
}

impl Embedding {
    /// The table with every element `fill`: `vocab_size` rows of `embed_dim`.
    pub fn init_weights<T: Copy>(&self, fill: T) -> (r: Tensor<T>)
        requires
            (self.vocab_view() as nat) * (self.dim_view() as nat) <= usize::MAX,
        ensures
            r.shape_view() == seq![self.vocab_view(), self.dim_view()],
            forall|k: int| 0 <= k < r.data_view().len() ==> #[trigger] r.data_view()[k] == fill,
            r.data_view().len() == (self.vocab_view() as nat) * (self.dim_view() as nat),
    {
        let mut shape: Vec<usize> = Vec::new();
        shape.push(self.vocab_size);
        shape.push(self.embed_dim);
        proof {
            assert(shape@ =~= seq![self.vocab_size, self.embed_dim]);
            lemma_product_two(self.vocab_size, self.embed_dim);
        }
        Tensor::full(shape.as_slice(), fill)
    }
}

} // verus!
