//! The CPU backend: its parameter store, and its decisions on each operator
//! (which inputs and parameters it uses, which shapes it accepts, what a
//! reshape resolves to). The element arithmetic of the chosen step is done
//! by kernels the program supplies (`CpuKernels`); `CpuCompute` joins the
//! two into a backend.

use vstd::prelude::*;
use crate::assoc::{as_map, lookup};
use crate::backend::Backend;
use crate::engine::graph::{str_views, NodeType};
use crate::engine::tensor::{
    is_operation_failed, is_shape_mismatch, is_transpose_of, lemma_product_one, lemma_product_two,
    matmul_rank_text, matmul_ranks_ok, matmul_result, same_tensor, shape_product, Tensor, TensorError,
};
use crate::text::{decimal, join3, owned, usize_text};

verus! {

/// The product of the extents of `s` other than the wildcard `-1`.
pub open spec fn known_product(s: Seq<i64>) -> int
    decreases s.len(),
{
    if s.len() == 0 {
        1
    } else if s.last() == -1 {
        known_product(s.drop_last())
    } else {
        known_product(s.drop_last()) * (s.last() as int)
    }
}

/// Whether the running product of the known extents of `s`, taken from the
/// first extent on, stays within `i64`.
pub open spec fn products_fit(s: Seq<i64>) -> bool {
    forall|k: int| 0 <= k <= s.len() ==> i64::MIN <= #[trigger] known_product(s.take(k)) <= i64::MAX
}

/// The quotient of `t` by `d`, rounded toward zero, as Rust's `/` on `i64`
/// computes it.
pub open spec fn quotient_toward_zero(t: nat, d: int) -> int {
    if d > 0 {
        t as int / d
    } else {
        -(t as int / (-d))
    }
}

/// The position of the first wildcard `-1` of `s`, or `-1` when it has none.
pub open spec fn wildcard_pos(s: Seq<i64>) -> int
    decreases s.len(),
{
    if s.len() == 0 {
        -1
    } else if wildcard_pos(s.drop_last()) >= 0 {
        wildcard_pos(s.drop_last())
    } else if s.last() == -1 {
        s.len() - 1
    } else {
        -1
    }
}

/// Whether some extent of `s` is negative.
pub open spec fn has_negative(s: Seq<i64>) -> bool {
    exists|j: int| 0 <= j < s.len() && s[j] < 0
}

/// The shape that the target `s` resolves to for a tensor of `total`
/// elements, or the message of its refusal: the first wildcard `-1` becomes
/// `total` divided by the product of the known extents (refused when that
/// product is zero); then any negative extent is refused, and each extent
/// is converted with `as usize`.
pub open spec fn resolved_shape(total: nat, s: Seq<i64>) -> Result<Seq<usize>, Seq<char>> {
    let w = wildcard_pos(s);
    if w >= 0 && known_product(s) == 0 {
        Err("无法推断形状：已知维度的乘积为 0"@)
    } else {
        let t = if w >= 0 {
            s.update(w, quotient_toward_zero(total, known_product(s)) as i64)
        } else {
            s
        };
        if has_negative(t) {
            Err("形状中只能有一个 -1"@)
        } else {
            Ok(t.map_values(|x: i64| x as usize))
        }
    }
}

/// Whether `r` answers as `resolved_shape(total, s)` describes.
pub open spec fn resolves_to(total: nat, s: Seq<i64>, r: Result<Vec<usize>, TensorError>) -> bool {
    match resolved_shape(total, s) {
        Ok(v) => r matches Ok(u) && u@ == v,
        Err(m) => r matches Err(e) && is_operation_failed(e, m),
    }
}

/// Whether `r` answers for the extents `s`: a negative extent is refused,
/// otherwise each extent is converted with `as usize`.
pub open spec fn extents_outcome(s: Seq<i64>, r: Result<Vec<usize>, TensorError>) -> bool {
    if has_negative(s) {
        r matches Err(e) && is_operation_failed(e, "形状中只能有一个 -1"@)
    } else {
        r matches Ok(v) && v@ == s.map_values(|x: i64| x as usize)
    }
}

proof fn lemma_wildcard_pos(s: Seq<i64>)
    ensures
        -1 <= wildcard_pos(s) < s.len(),
        wildcard_pos(s) >= 0 ==> s[wildcard_pos(s)] == -1,
    decreases s.len(),
{
    if s.len() > 0 {
        lemma_wildcard_pos(s.drop_last());
    }
}

proof fn lemma_product_without_wildcard(s: Seq<i64>)
    requires
        forall|j: int| 0 <= j < s.len() ==> 0 <= #[trigger] s[j] <= usize::MAX,
    ensures
        shape_product(s.map_values(|x: i64| x as usize)) == known_product(s),
    decreases s.len(),
{
    if s.len() > 0 {
        let d = s.drop_last();
        lemma_product_without_wildcard(d);
        assert(s.map_values(|x: i64| x as usize).drop_last() =~= d.map_values(|x: i64| x as usize));
        assert(s.last() == s[s.len() - 1]);
    }
}

proof fn lemma_product_with_wildcard(s: Seq<i64>, w: int, x: i64)
    requires
        0 <= w < s.len(),
        s[w] == -1,
        0 <= x <= usize::MAX,
        forall|j: int| 0 <= j < s.len() && j != w ==> 0 <= #[trigger] s[j] <= usize::MAX,
    ensures
        shape_product(s.update(w, x).map_values(|v: i64| v as usize)) == known_product(s) * (x as int),
    decreases s.len(),
{
    let t = s.update(w, x);
    let d = s.drop_last();
    assert(t.map_values(|v: i64| v as usize).drop_last() =~= t.drop_last().map_values(|v: i64| v as usize));
    if w == s.len() - 1 {
        assert(t.drop_last() =~= d);
        assert forall|j: int| 0 <= j < d.len() implies 0 <= #[trigger] d[j] <= usize::MAX by {
            assert(d[j] == s[j]);
        }
        lemma_product_without_wildcard(d);
        assert(s.last() == -1);
    } else {
        assert(t.drop_last() =~= d.update(w, x));
        assert forall|j: int| 0 <= j < d.len() && j != w implies 0 <= #[trigger] d[j] <= usize::MAX by {
            assert(d[j] == s[j]);
        }
        lemma_product_with_wildcard(d, w, x);
        let l = s[s.len() - 1];
        assert(s.last() == l && l != -1 && l >= 0);
        assert(t.last() == l);
        let kd = known_product(d);
        assert((kd * (x as int)) * (l as int) == (kd * (l as int)) * (x as int)) by (nonlinear_arith);
    }
}

/// A reshape target with a wildcard keeps the element count when the known
/// extents divide it: the shape it resolves to describes exactly `total`
/// elements (extents taken to fit `usize`).
pub proof fn lemma_wildcard_keeps_count(total: nat, s: Seq<i64>)
    requires
        total <= usize::MAX,
        total <= i64::MAX,
        wildcard_pos(s) >= 0,
        known_product(s) > 0,
        total as int % known_product(s) == 0,
        resolved_shape(total, s) is Ok,
        forall|j: int| 0 <= j < s.len() ==> #[trigger] s[j] <= usize::MAX,
    ensures
        resolved_shape(total, s) matches Ok(v) && shape_product(v) == total,
{
    lemma_wildcard_pos(s);
    let w = wildcard_pos(s);
    let k = known_product(s);
    let q = total as int / k;
    vstd::arithmetic::div_mod::lemma_fundamental_div_mod(total as int, k);
    assert(0 <= q <= total) by {
        vstd::arithmetic::div_mod::lemma_div_pos_is_pos(total as int, k);
        vstd::arithmetic::div_mod::lemma_div_is_ordered_by_denominator(total as int, 1, k);
    }
    assert(quotient_toward_zero(total, k) == q);
    let t = s.update(w, q as i64);
    assert(!has_negative(t));
    assert(resolved_shape(total, s) == Ok::<Seq<usize>, Seq<char>>(t.map_values(|x: i64| x as usize)));
    assert forall|j: int| 0 <= j < s.len() && j != w implies 0 <= #[trigger] s[j] <= usize::MAX by {
        assert(t[j] == s[j]);
    }
    lemma_product_with_wildcard(s, w, q as i64);
    assert(k * q == total) by (nonlinear_arith)
        requires
            total as int == k * q + (total as int % k),
            total as int % k == 0,
    ;
}

/// Converts resolved extents, refusing a negative one.
fn to_extents(s: &Vec<i64>) -> (r: Result<Vec<usize>, TensorError>)
    ensures
        extents_outcome(s@, r),
{
    let mut out: Vec<usize> = Vec::new();
    let mut i: usize = 0;
    while i < s.len()
        invariant
            i <= s@.len(),
            forall|j: int| 0 <= j < i ==> s@[j] >= 0,
            out@ == s@.take(i as int).map_values(|x: i64| x as usize),
        decreases s@.len() - i,
    {
        if s[i] < 0 {
            return Err(TensorError::OperationFailed(owned("形状中只能有一个 -1")));
        }
        out.push(s[i] as usize);
        proof {
            assert(s@.take(i + 1).map_values(|x: i64| x as usize) =~= s@.take(i as int).map_values(
                |x: i64| x as usize,
            ).push(s@[i as int] as usize));
        }
        i = i + 1;
    }
    proof {
        assert(s@.take(s@.len() as int) =~= s@);
    }
    Ok(out)
}

/// The shape that `target` resolves to for a tensor of `total` elements,
/// where one extent may be the wildcard `-1`.
pub fn infer_shape(total: usize, target: &[i64]) -> (r: Result<Vec<usize>, TensorError>)
    requires
        total <= i64::MAX,
        products_fit(target@),
    ensures
        resolves_to(total as nat, target@, r),
{
    let ghost s = target@;
    let mut idx: Option<usize> = None;
    let mut product: i64 = 1;
    let mut i: usize = 0;
    proof {
        assert(s.take(0).len() == 0);
    }
    while i < target.len()
        invariant
            s == target@,
            i <= s.len(),
            products_fit(s),
            product == known_product(s.take(i as int)),
            match idx {
                Some(w) => wildcard_pos(s.take(i as int)) == w as int && w < i,
                None => wildcard_pos(s.take(i as int)) == -1,
            },
        decreases s.len() - i,
    {
        proof {
            assert(s.take(i + 1).drop_last() =~= s.take(i as int));
            assert(s.take(i + 1).last() == s[i as int]);
            assert(i64::MIN <= known_product(s.take(i + 1)) <= i64::MAX);
        }
        if target[i] == -1 {
            if idx.is_none() {
                idx = Some(i);
            }
        } else {
            product = product * target[i];
        }
        i = i + 1;
    }
    proof {
        assert(s.take(s.len() as int) =~= s);
    }
    let mut shape: Vec<i64> = vstd::slice::slice_to_vec(target);
    match idx {
        Some(w) => {
            if product == 0 {
                return Err(TensorError::OperationFailed(owned("无法推断形状：已知维度的乘积为 0")));
            }
            let t = total as u64;
            let q: i64 = if product > 0 {
                (t / (product as u64)) as i64
            } else {
                let m: u64 = if product == i64::MIN {
                    0x8000_0000_0000_0000u64
                } else {
                    (-product) as u64
                };
                proof {
                    assert(m as int == -(product as int));
                    assert(t / m <= t) by (nonlinear_arith)
                        requires
                            m >= 1,
                    ;
                }
                -((t / m) as i64)
            };
            proof {
                if product > 0 {
                    assert(t / (product as u64) <= t) by (nonlinear_arith)
                        requires
                            product >= 1,
                    ;
                }
                assert(q == quotient_toward_zero(total as nat, product as int));
            }
            shape.set(w, q);
            proof {
                assert(shape@ == s.update(w as int, q));
            }
            to_extents(&shape)
        },
        None => to_extents(&shape),
    }
}

/// The parameter named by entry `i` of `names`, if the store holds it.
pub open spec fn param_at<T>(store: Map<Seq<char>, Tensor<T>>, names: Seq<Seq<char>>, i: int) -> Option<Tensor<T>> {
    if 0 <= i < names.len() && store.contains_key(names[i]) {
        Some(store[names[i]])
    } else {
        None
    }
}

/// The work that one operator asks of the CPU backend once its inputs and
/// parameters have been found and its shapes accepted; each step succeeds
/// on the element arithmetic alone.
#[derive(Debug)]
pub enum CpuStep<'a, T> {
    /// The result, already complete.
    Ready(Tensor<T>),
    /// A tensor of zeros of this shape.
    Zeros(Vec<usize>),
    /// `input @ weight_t`, plus `bias` (already shaped like the product) when present.
    Dense { input: &'a Tensor<T>, weight_t: Tensor<T>, bias: Option<Tensor<T>> },
    /// ReLU of each element.
    Relu(&'a Tensor<T>),
    /// GELU of each element.
    Gelu(&'a Tensor<T>),
    /// Softmax along the last axis.
    Softmax(&'a Tensor<T>),
    /// Layer normalisation along the last axis with the `f64` epsilon of bit
    /// pattern `epsilon_bits`, then multiplied by `weight` and added to
    /// `bias` (each shaped like the input) when present.
    LayerNorm {
        input: &'a Tensor<T>,
        weight: Option<&'a Tensor<T>>,
        bias: Option<&'a Tensor<T>>,
        epsilon_bits: u64,
    },
    /// The matrix product of two matrices, or of two batches of matrices,
    /// whose extents fit.
    MatMul(&'a Tensor<T>, &'a Tensor<T>),
    /// The element-wise sum of two tensors of one shape.
    Add(&'a Tensor<T>, &'a Tensor<T>),
    /// A dropout lacks its input: it fails with the operator's debug text
    /// (which shows its rate as a float) followed by ` 缺少输入张量`.
    MissingInput,
}

/// The message for an attention node without its input: the node type's
/// debug text followed by ` 缺少输入张量`.
pub open spec fn attention_missing_text(heads: nat, head_dim: nat) -> Seq<char> {
    "MultiHeadAttention { num_heads: "@ + decimal(heads) + ", head_dim: "@ + decimal(head_dim)
        + " } 缺少输入张量"@
}

/// Whether `r` is the refusal with message `msg`.
pub open spec fn refused<'a, T>(r: Result<CpuStep<'a, T>, TensorError>, msg: Seq<char>) -> bool {
    r matches Err(e) && is_operation_failed(e, msg)
}

/// Whether `b2` is the bias `b` of `n` elements repeated over `rows` rows:
/// shape `[rows, n]`, and `b[j]` at every row `i`, column `j`.
pub open spec fn rows_of<T>(b2: Tensor<T>, b: Tensor<T>, rows: usize, n: usize) -> bool {
    &&& b2.shape_view() == seq![rows, n]
    &&& b2.data_view().len() == rows * n
    &&& forall|i: int, j: int|
        0 <= i < rows && 0 <= j < n ==> #[trigger] b2.data_view()[i * n + j] == b.data_view()[j]
}

/// What a dense layer `y = x W^T + b` over `x` with weight `w` and optional
/// bias `b` asks for: the weight is transposed and its product with `x` is
/// checked; a bias of one extent, the output features of `w`, is added to
/// every row of the product, and a bias of any other shape is refused.
pub open spec fn dense_planned<'a, T>(x: Tensor<T>, w: Tensor<T>, b: Option<Tensor<T>>, r: Result<CpuStep<'a, T>, TensorError>) -> bool {
    if w.shape_view().len() != 2 {
        refused(r, "转置仅支持 2D 张量"@)
    } else if x.shape_view().len() != 2 {
        refused(r, matmul_rank_text(x.shape_view().len(), 2))
    } else if x.shape_view()[1] != w.shape_view()[1] {
        r matches Err(e) && is_shape_mismatch(e, x.shape_view(), seq![w.shape_view()[1], w.shape_view()[0]])
    } else {
        match b {
            None => r matches Ok(CpuStep::Dense { input, weight_t, bias: None }) && *input == x
                && is_transpose_of(weight_t, w),
            Some(bt) => {
                let rows = x.shape_view()[0];
                let n = w.shape_view()[0];
                if bt.shape_view() == seq![n] {
                    r matches Ok(CpuStep::Dense { input, weight_t, bias: Some(b2) }) && *input == x
                        && is_transpose_of(weight_t, w) && rows_of(b2, bt, rows, n)
                } else {
                    r matches Err(e) && is_shape_mismatch(e, seq![rows, n], bt.shape_view())
                }
            },
        }
    }
}

/// What a dense layer over `x` whose weight is not loaded asks for: its
/// output of `[rows of x, out_features]` is all zeros; an input that is not
/// a matrix is refused as the product with a weight would refuse it.
pub open spec fn weightless_planned<'a, T>(x: Tensor<T>, out_features: usize, r: Result<CpuStep<'a, T>, TensorError>) -> bool {
    if x.shape_view().len() != 2 {
        refused(r, matmul_rank_text(x.shape_view().len(), 2))
    } else {
        r matches Ok(CpuStep::Zeros(v)) && v@ == seq![x.shape_view()[0], out_features]
    }
}

/// What a layer normalisation over `x` with optional weight and bias asks for.
pub open spec fn norm_planned<'a, T>(
    x: Tensor<T>,
    w: Option<Tensor<T>>,
    b: Option<Tensor<T>>,
    eps: u64,
    r: Result<CpuStep<'a, T>, TensorError>,
) -> bool {
    if x.shape_view().len() == 0 {
        refused(r, "LayerNorm 不支持标量张量"@)
    } else if x.shape_view().last() == 0 {
        refused(r, "计算均值失败"@)
    } else if w is Some && w->0.shape_view() != x.shape_view() {
        r matches Err(e) && is_shape_mismatch(e, x.shape_view(), w->0.shape_view())
    } else if b is Some && b->0.shape_view() != x.shape_view() {
        r matches Err(e) && is_shape_mismatch(e, x.shape_view(), b->0.shape_view())
    } else {
        r matches Ok(CpuStep::LayerNorm { input, weight, bias, epsilon_bits }) && *input == x
            && epsilon_bits == eps && match weight {
            Some(wt) => w == Some(*wt),
            None => w is None,
        } && match bias {
            Some(bt) => b == Some(*bt),
            None => b is None,
        }
    }
}

/// What the CPU backend asks for to run the operator `nt` on the inputs
/// `ins`, with the parameters named `names` looked up in `store`.
pub open spec fn planned<'a, T>(
    nt: NodeType,
    ins: Seq<Tensor<T>>,
    store: Map<Seq<char>, Tensor<T>>,
    names: Seq<Seq<char>>,
    r: Result<CpuStep<'a, T>, TensorError>,
) -> bool {
    match nt {
        NodeType::Input { .. } => if ins.len() == 0 {
            refused(r, "输入节点缺少输入张量"@)
        } else {
            r matches Ok(CpuStep::Ready(t)) && same_tensor(t, ins[0])
        },
        NodeType::Output { .. } => if ins.len() == 0 {
            refused(r, "输出节点缺少输入张量"@)
        } else {
            r matches Ok(CpuStep::Ready(t)) && same_tensor(t, ins[0])
        },
        NodeType::Dense { has_bias, out_features, .. } => if ins.len() == 0 {
            refused(r, "Dense 层缺少输入张量"@)
        } else {
            match param_at(store, names, 0) {
                None => weightless_planned(ins[0], out_features, r),
                Some(w) => dense_planned(
                    ins[0],
                    w,
                    if has_bias {
                        param_at(store, names, 1)
                    } else {
                        None
                    },
                    r,
                ),
            }
        },
        NodeType::Conv2D { .. } => if ins.len() == 0 {
            refused(r, "Conv2D 缺少输入张量"@)
        } else if param_at(store, names, 0) is None {
            refused(r, "Conv2D 权重未找到"@)
        } else {
            r matches Ok(CpuStep::Zeros(v)) && v@ == seq![1usize, 1, 1, 1]
        },
        NodeType::ReLU => if ins.len() == 0 {
            refused(r, "ReLU 缺少输入张量"@)
        } else {
            r matches Ok(CpuStep::Relu(x)) && *x == ins[0]
        },
        NodeType::GELU => if ins.len() == 0 {
            refused(r, "GELU 缺少输入张量"@)
        } else {
            r matches Ok(CpuStep::Gelu(x)) && *x == ins[0]
        },
        NodeType::Softmax { axis } => if ins.len() == 0 {
            refused(r, "Softmax 缺少输入张量"@)
        } else if axis == -1 || axis == ins[0].shape_view().len() - 1 {
            r matches Ok(CpuStep::Softmax(x)) && *x == ins[0]
        } else {
            refused(r, "CPU 后端当前仅支持最后一个轴的 Softmax"@)
        },
        NodeType::LayerNorm { epsilon_bits, .. } => if ins.len() == 0 {
            refused(r, "LayerNorm 缺少输入张量"@)
        } else {
            norm_planned(ins[0], param_at(store, names, 0), param_at(store, names, 1), epsilon_bits, r)
        },
        NodeType::MatMul => if ins.len() < 2 {
            refused(r, "MatMul 需要两个输入张量"@)
        } else if !matmul_ranks_ok(ins[0].shape_view(), ins[1].shape_view()) {
            refused(r, matmul_rank_text(ins[0].shape_view().len(), ins[1].shape_view().len()))
        } else if matmul_result(ins[0].shape_view(), ins[1].shape_view()) is None {
            r matches Err(e) && is_shape_mismatch(e, ins[0].shape_view(), ins[1].shape_view())
        } else {
            r matches Ok(CpuStep::MatMul(a, b)) && *a == ins[0] && *b == ins[1]
        },
        NodeType::Add => if ins.len() < 2 {
            refused(r, "Add 需要两个输入张量"@)
        } else if ins[0].shape_view() != ins[1].shape_view() {
            r matches Err(e) && is_shape_mismatch(e, ins[0].shape_view(), ins[1].shape_view())
        } else {
            r matches Ok(CpuStep::Add(a, b)) && *a == ins[0] && *b == ins[1]
        },
        NodeType::Reshape { target_shape } => if ins.len() == 0 {
            refused(r, "Reshape 缺少输入张量"@)
        } else {
            let total = shape_product(ins[0].shape_view());
            match resolved_shape(total, target_shape@) {
                Err(m) => refused(r, m),
                Ok(v) => if shape_product(v) == total {
                    r matches Ok(CpuStep::Ready(t)) && t.shape_view() == v && t.data_view()
                        == ins[0].data_view() && t.name_view() == ins[0].name_view()
                } else {
                    r matches Err(e) && is_shape_mismatch(e, v, seq![total as usize])
                },
            }
        },
        NodeType::Embedding { .. } => if ins.len() == 0 {
            refused(r, "Embedding 缺少输入张量"@)
        } else {
            match param_at(store, names, 0) {
                Some(table) => r matches Ok(CpuStep::Zeros(v)) && v@ == ins[0].shape_view().push(
                    if table.shape_view().len() > 1 {
                        table.shape_view()[1]
                    } else {
                        1usize
                    },
                ),
                None => r matches Ok(CpuStep::Ready(t)) && same_tensor(t, ins[0]),
            }
        },
        NodeType::MultiHeadAttention { num_heads, head_dim } => if ins.len() == 0 {
            refused(r, attention_missing_text(num_heads as nat, head_dim as nat))
        } else {
            r matches Ok(CpuStep::Ready(t)) && same_tensor(t, ins[0])
        },
        NodeType::Dropout { .. } => if ins.len() == 0 {
            r matches Ok(CpuStep::MissingInput)
        } else {
            r matches Ok(CpuStep::Ready(t)) && same_tensor(t, ins[0])
        },
    }
}

/// The inputs on which running an operator is defined: a softmax input has
/// between one and `i32::MAX` axes; a reshape input has at most `i64::MAX`
/// elements and a target whose running product of known extents fits `i64`;
/// a dense layer's bias, when it is reached (after the weight is found and
/// its product with the input is accepted) and has the right shape, is
/// repeated over a number of rows whose elements fit `usize`.
pub open spec fn plan_defined<T>(
    nt: NodeType,
    ins: Seq<Tensor<T>>,
    store: Map<Seq<char>, Tensor<T>>,
    names: Seq<Seq<char>>,
) -> bool {
    match nt {
        NodeType::Softmax { .. } => ins.len() > 0 ==> 0 < ins[0].shape_view().len() <= i32::MAX,
        NodeType::Reshape { target_shape } => ins.len() > 0 ==> shape_product(ins[0].shape_view())
            <= i64::MAX && products_fit(target_shape@),
        NodeType::Dense { has_bias, .. } => (ins.len() > 0 && has_bias && param_at(store, names, 0) is Some
            && param_at(store, names, 0)->0.shape_view().len() == 2 && ins[0].shape_view().len() == 2
            && ins[0].shape_view()[1] == param_at(store, names, 0)->0.shape_view()[1] && param_at(
            store,
            names,
            1,
        ) is Some) ==> (ins[0].shape_view()[0] as nat) * (param_at(store, names, 0)->0.shape_view()[0] as nat)
            <= usize::MAX,
        _ => true,
    }
}

/// The bias `b`, of `n` elements, repeated over `rows` rows.
fn repeat_rows<T: Copy>(b: &Tensor<T>, rows: usize, n: usize) -> (r: Tensor<T>)
    requires
        b.shape_view() == seq![n],
        (rows as nat) * (n as nat) <= usize::MAX,
    ensures
        rows_of(r, *b, rows, n),
{
    let src = b.to_vec();
    let count = b.len();
    proof {
        lemma_product_one(n);
        assert(count == n);
    }
    let mut data: Vec<T> = Vec::new();
    let mut i: usize = 0;
    while i < rows
        invariant
            src@ == b.data_view(),
            src@.len() == n,
            i <= rows,
            (rows as nat) * (n as nat) <= usize::MAX,
            data@.len() == i * n,
            forall|p: int, j: int| 0 <= p < i && 0 <= j < n ==> #[trigger] data@[p * n + j] == src@[j],
        decreases rows - i,
    {
        proof {
            assert((i + 1) * n <= rows * n) by (nonlinear_arith)
                requires
                    i < rows,
            ;
        }
        let ghost base = data@;
        let mut j: usize = 0;
        while j < n
            invariant
                src@.len() == n,
                i < rows,
                j <= n,
                (i + 1) * n <= usize::MAX,
                base.len() == i * n,
                data@.len() == i * n + j,
                data@.take((i * n) as int) == base,
                forall|q: int| 0 <= q < j ==> #[trigger] data@[i * n + q] == src@[q],
            decreases n - j,
        {
            let ghost before = data@;
            data.push(src[j]);
            proof {
                assert(data@.take((i * n) as int) =~= before.take((i * n) as int));
            }
            j = j + 1;
        }
        proof {
            assert forall|p: int, q: int| 0 <= p < i + 1 && 0 <= q < n implies #[trigger] data@[p * n + q]
                == src@[q] by {
                if p < i {
                    assert(p * n + q < i * n) by (nonlinear_arith)
                        requires
                            p < i,
                            q < n,
                    ;
                    assert(0 <= p * n) by (nonlinear_arith)
                        requires
                            0 <= p,
                            0 <= n,
                    ;
                    assert(data@[p * n + q] == data@.take((i * n) as int)[p * n + q]);
                } else {
                    assert(p * n == i * n);
                }
            }
            assert(data@.len() == (i + 1) * n) by (nonlinear_arith)
                requires
                    data@.len() == i * n + n,
            ;
        }
        i = i + 1;
    }
    let mut shape: Vec<usize> = Vec::new();
    shape.push(rows);
    shape.push(n);
    proof {
        assert(shape@ =~= seq![rows, n]);
        lemma_product_two(rows, n);
    }
    match Tensor::from_vec(data, shape.as_slice()) {
        Ok(t) => t,
        Err(_) => {
            proof {
                assert(false);
            }
            Tensor::full(shape.as_slice(), src[0])
        },
    }
}

/// The description of a CPU with `cpus` logical cores.
pub open spec fn cpu_info_text(cpus: nat) -> Seq<char> {
    "CPU 后端 | 可用核心数: "@ + decimal(cpus) + " | 并行支持: rayon"@
}

/// `num_cpus::get`: the number of logical cores available to this process,
/// which the crate documents to be at least one; the value depends on the
/// machine, so nothing more is stated.
#[verifier::external_body]
fn available_cpus() -> (r: usize)
    ensures
        r >= 1,
{
    num_cpus::get()
}

/// The description of a CPU with `cpus` logical cores.
pub fn cpu_info(cpus: usize) -> (r: String)
    ensures
        r@ == cpu_info_text(cpus as nat),
{
    let n = usize_text(cpus);
    join3("CPU 后端 | 可用核心数: ", n.as_str(), " | 并行支持: rayon")
}

/// The CPU backend's decisions and its parameter store (weights, biases),
/// in which a later parameter of a name replaces an earlier one.
#[derive(Debug)]
pub struct CpuBackend<T> {
    params: Vec<(String, Tensor<T>)>,
}

impl<T: Copy> CpuBackend<T> {
    /// The parameters, by name.
    pub closed spec fn params_view(&self) -> Map<Seq<char>, Tensor<T>> {
        as_map(self.params@)
    }

    /// A backend without parameters.
    pub fn new() -> (r: Self)
        ensures
            r.params_view() == Map::<Seq<char>, Tensor<T>>::empty(),
    {
        CpuBackend { params: Vec::new() }
    }

    /// Stores the parameter `tensor` under `name`.
    pub fn load_param(&mut self, name: String, tensor: Tensor<T>)
        ensures
            final(self).params_view() == old(self).params_view().insert(name@, tensor),
    {
        let ghost before = self.params@;
        self.params.push((name, tensor));
        proof {
            assert(self.params@.drop_last() =~= before);
        }
    }

    /// Stores each of `params` under its name.
    pub fn load_params(&mut self, params: Vec<(String, Tensor<T>)>)
        ensures
            final(self).params_view() == old(self).params_view().union_prefer_right(as_map(params@)),
    {
        let ghost start = as_map(self.params@);
        let ghost given = params@;
        let mut rest = params;
        let mut i: usize = 0;
        assert(given.len() == rest.len());
        proof {
            assert(given.take(0).len() == 0);
            assert(start.union_prefer_right(as_map(given.take(0))) =~= start);
            assert(rest@ =~= given.skip(0));
        }
        while rest.len() > 0
            invariant
                i <= given.len(),
                given.len() <= usize::MAX,
                rest@ == given.skip(i as int),
                as_map(self.params@) == start.union_prefer_right(as_map(given.take(i as int))),
            decreases rest@.len(),
        {
            proof {
                assert(rest@.len() == given.len() - i);
            }
            let entry = rest.remove(0);
            proof {
                assert(entry == given[i as int]);
                assert(given.take(i + 1).drop_last() =~= given.take(i as int));
                assert(given.take(i + 1).last() == given[i as int]);
            }
            let ghost before = self.params@;
            self.params.push(entry);
            proof {
                assert(self.params@.drop_last() =~= before);
                assert(as_map(self.params@) =~= start.union_prefer_right(as_map(given.take(i + 1))));
                assert(rest@ =~= given.skip(i + 1));
            }
            i = i + 1;
        }
        proof {
            assert(i == given.len());
            assert(given.take(given.len() as int) =~= given);
        }
    }

    /// The parameter named `name`, if there is one.
    pub fn get_param(&self, name: &str) -> (r: Option<&Tensor<T>>)
        ensures
            match r {
                Some(t) => self.params_view().contains_key(name@) && self.params_view()[name@] == *t,
                None => !self.params_view().contains_key(name@),
            },
    {
        lookup(&self.params, name)
    }

    /// The name of the backend.
    pub fn name(&self) -> (r: &'static str)
        ensures
            r@ == "CPU (ndarray)"@,
    {
        "CPU (ndarray)"
    }

    /// A description of the CPU, with the number of logical cores available.
    pub fn device_info(&self) -> (r: String)
        ensures
            exists|n: nat| n >= 1 && r@ == cpu_info_text(n),
    {
        let n = available_cpus();
        cpu_info(n)
    }

    /// Decides how to run the operator `node_type` on `inputs`, with the
    /// parameters named `param_names`: it finds the inputs and parameters,
    /// checks the shapes, resolves a reshape, and returns the step that is
    /// left, or the error the operator fails with.
    pub fn plan_forward<'a>(&'a self, node_type: &NodeType, inputs: &'a [Tensor<T>], param_names: &[String]) -> (r: Result<CpuStep<'a, T>, TensorError>)
        requires
            plan_defined(*node_type, inputs@, self.params_view(), str_views(param_names@)),
        ensures
            planned(*node_type, inputs@, self.params_view(), str_views(param_names@), r),
    {
        let ghost names = str_views(param_names@);
        match node_type {
            NodeType::Input { .. } => {
                if inputs.len() == 0 {
                    return Err(TensorError::OperationFailed(owned("输入节点缺少输入张量")));
                }
                Ok(CpuStep::Ready(inputs[0].duplicate()))
            },
            NodeType::Output { .. } => {
                if inputs.len() == 0 {
                    return Err(TensorError::OperationFailed(owned("输出节点缺少输入张量")));
                }
                Ok(CpuStep::Ready(inputs[0].duplicate()))
            },
            NodeType::Dense { has_bias, out_features, .. } => {
                if inputs.len() == 0 {
                    return Err(TensorError::OperationFailed(owned("Dense 层缺少输入张量")));
                }
                let x = &inputs[0];
                let w = match self.param(param_names, 0) {
                    Some(w) => w,
                    None => {
                        let xs = x.shape();
                        if xs.len() != 2 {
                            let a = usize_text(xs.len());
                            let two = usize_text(2);
                            let head = join3("不支持的 matmul 维度组合: ", a.as_str(), "D x ");
                            return Err(TensorError::OperationFailed(join3(head.as_str(), two.as_str(), "D")));
                        }
                        let mut shape: Vec<usize> = Vec::new();
                        shape.push(xs[0]);
                        shape.push(*out_features);
                        proof {
                            assert(shape@ =~= seq![x.shape_view()[0], *out_features]);
                        }
                        return Ok(CpuStep::Zeros(shape));
                    },
                };
                let bias = if *has_bias {
                    self.param(param_names, 1)
                } else {
                    None
                };
                let weight_t = match w.transpose() {
                    Ok(t) => t,
                    Err(e) => {
                        return Err(e);
                    },
                };
                let out_shape = match x.matmul_shape(&weight_t) {
                    Ok(s) => s,
                    Err(e) => {
                        return Err(e);
                    },
                };
                match bias {
                    None => Ok(CpuStep::Dense { input: x, weight_t, bias: None }),
                    Some(b) => {
                        let rows = out_shape[0];
                        let n = w.shape()[0];
                        let b_shape = b.shape();
                        if b_shape.len() == 1 && b_shape[0] == n {
                            proof {
                                assert(b.shape_view() =~= seq![n]);
                            }
                            let b2 = repeat_rows(b, rows, n);
                            Ok(CpuStep::Dense { input: x, weight_t, bias: Some(b2) })
                        } else {
                            let mut expected: Vec<usize> = Vec::new();
                            expected.push(rows);
                            expected.push(n);
                            proof {
                                assert(expected@ =~= seq![rows, n]);
                                assert(b.shape_view() != seq![n]);
                            }
                            Err(TensorError::ShapeMismatch {
                                expected,
                                actual: vstd::slice::slice_to_vec(b_shape),
                            })
                        }
                    },
                }
            },
            NodeType::Conv2D { .. } => {
                if inputs.len() == 0 {
                    return Err(TensorError::OperationFailed(owned("Conv2D 缺少输入张量")));
                }
                if self.param(param_names, 0).is_none() {
                    return Err(TensorError::OperationFailed(owned("Conv2D 权重未找到")));
                }
                let mut shape: Vec<usize> = Vec::new();
                shape.push(1);
                shape.push(1);
                shape.push(1);
                shape.push(1);
                proof {
                    assert(shape@ =~= seq![1usize, 1, 1, 1]);
                }
                Ok(CpuStep::Zeros(shape))
            },
            NodeType::ReLU => {
                if inputs.len() == 0 {
                    return Err(TensorError::OperationFailed(owned("ReLU 缺少输入张量")));
                }
                Ok(CpuStep::Relu(&inputs[0]))
            },
            NodeType::GELU => {
                if inputs.len() == 0 {
                    return Err(TensorError::OperationFailed(owned("GELU 缺少输入张量")));
                }
                Ok(CpuStep::Gelu(&inputs[0]))
            },
            NodeType::Softmax { axis } => {
                if inputs.len() == 0 {
                    return Err(TensorError::OperationFailed(owned("Softmax 缺少输入张量")));
                }
                let rank = inputs[0].ndim();
                let last = if *axis < 0 {
                    *axis == -1
                } else {
                    *axis as usize == rank - 1
                };
                if !last {
                    return Err(TensorError::OperationFailed(owned("CPU 后端当前仅支持最后一个轴的 Softmax")));
                }
                Ok(CpuStep::Softmax(&inputs[0]))
            },
            NodeType::LayerNorm { epsilon_bits, .. } => {
                if inputs.len() == 0 {
                    return Err(TensorError::OperationFailed(owned("LayerNorm 缺少输入张量")));
                }
                let x = &inputs[0];
                let weight = self.param(param_names, 0);
                let bias = self.param(param_names, 1);
                let axis = match x.layer_norm_axis() {
                    Ok(a) => a,
                    Err(e) => {
                        return Err(e);
                    },
                };
                if x.shape()[axis] == 0 {
                    return Err(TensorError::OperationFailed(owned("计算均值失败")));
                }
                match weight {
                    Some(wt) => match x.check_same_shape(wt) {
                        Ok(()) => {},
                        Err(e) => {
                            return Err(e);
                        },
                    },
                    None => {},
                }
                match bias {
                    Some(bt) => match x.check_same_shape(bt) {
                        Ok(()) => {},
                        Err(e) => {
                            return Err(e);
                        },
                    },
                    None => {},
                }
                Ok(CpuStep::LayerNorm { input: x, weight, bias, epsilon_bits: *epsilon_bits })
            },
            NodeType::MatMul => {
                if inputs.len() < 2 {
                    return Err(TensorError::OperationFailed(owned("MatMul 需要两个输入张量")));
                }
                match inputs[0].matmul_shape(&inputs[1]) {
                    Ok(_) => Ok(CpuStep::MatMul(&inputs[0], &inputs[1])),
                    Err(e) => Err(e),
                }
            },
            NodeType::Add => {
                if inputs.len() < 2 {
                    return Err(TensorError::OperationFailed(owned("Add 需要两个输入张量")));
                }
                match inputs[0].check_same_shape(&inputs[1]) {
                    Ok(()) => Ok(CpuStep::Add(&inputs[0], &inputs[1])),
                    Err(e) => Err(e),
                }
            },
            NodeType::Reshape { target_shape } => {
                if inputs.len() == 0 {
                    return Err(TensorError::OperationFailed(owned("Reshape 缺少输入张量")));
                }
                let x = &inputs[0];
                let shape = match infer_shape(x.len(), target_shape.as_slice()) {
                    Ok(s) => s,
                    Err(e) => {
                        return Err(e);
                    },
                };
                match x.reshape(shape.as_slice()) {
                    Ok(t) => Ok(CpuStep::Ready(t)),
                    Err(e) => Err(e),
                }
            },
            NodeType::Embedding { .. } => {
                if inputs.len() == 0 {
                    return Err(TensorError::OperationFailed(owned("Embedding 缺少输入张量")));
                }
                let x = &inputs[0];
                match self.param(param_names, 0) {
                    Some(table) => {
                        let ts = table.shape();
                        let embed_dim: usize = if ts.len() > 1 {
                            ts[1]
                        } else {
                            1
                        };
                        let mut shape = vstd::slice::slice_to_vec(x.shape());
                        shape.push(embed_dim);
                        Ok(CpuStep::Zeros(shape))
                    },
                    None => Ok(CpuStep::Ready(x.duplicate())),
                }
            },
            NodeType::MultiHeadAttention { num_heads, head_dim } => {
                if inputs.len() == 0 {
                    let h = usize_text(*num_heads);
                    let d = usize_text(*head_dim);
                    let head = join3("MultiHeadAttention { num_heads: ", h.as_str(), ", head_dim: ");
                    return Err(TensorError::OperationFailed(join3(head.as_str(), d.as_str(), " } 缺少输入张量")));
                }
                Ok(CpuStep::Ready(inputs[0].duplicate()))
            },
            NodeType::Dropout { .. } => {
                if inputs.len() == 0 {
                    return Ok(CpuStep::MissingInput);
                }
                Ok(CpuStep::Ready(inputs[0].duplicate()))
            },
        }
    }

    fn param(&self, names: &[String], i: usize) -> (r: Option<&Tensor<T>>)
        ensures
            match r {
                Some(t) => param_at(self.params_view(), str_views(names@), i as int) == Some(*t),
                None => param_at(self.params_view(), str_views(names@), i as int) is None,
            },
    {
        if i < names.len() {
            lookup(&self.params, names[i].as_str())
        } else {
            None
        }
    }
}

/// Whether the running products of the known extents of `target` stay
/// within `i64`.
fn known_products_fit(target: &[i64]) -> (r: bool)
    ensures
        r == products_fit(target@),
{
    let ghost s = target@;
    let mut product: i64 = 1;
    let mut i: usize = 0;
    proof {
        assert(s.take(0).len() == 0);
    }
    while i < target.len()
        invariant
            s == target@,
            i <= s.len(),
            product == known_product(s.take(i as int)),
            forall|k: int| 0 <= k <= i ==> i64::MIN <= #[trigger] known_product(s.take(k)) <= i64::MAX,
        decreases s.len() - i,
    {
        proof {
            assert(s.take(i + 1).drop_last() =~= s.take(i as int));
            assert(s.take(i + 1).last() == s[i as int]);
        }
        if target[i] != -1 {
            match product.checked_mul(target[i]) {
                Some(p) => {
                    product = p;
                },
                None => {
                    proof {
                        assert(!(i64::MIN <= known_product(s.take(i + 1)) <= i64::MAX));
                    }
                    return false;
                },
            }
        }
        i = i + 1;
    }
    proof {
        assert(s.take(s.len() as int) =~= s);
    }
    true
}

/// The message for an operator whose shapes lie outside what the CPU
/// backend can compute: a reshape or dense layer whose element counts
/// overflow, or a softmax over a scalar or over more than `i32::MAX` axes.
pub open spec fn out_of_range_text() -> Seq<char> {
    "形状超出可计算范围"@
}

impl<T: Copy> CpuBackend<T> {
    /// Whether running `node_type` on `inputs` with the parameters named
    /// `param_names` is defined (see `plan_defined`).
    pub fn plan_is_defined(&self, node_type: &NodeType, inputs: &[Tensor<T>], param_names: &[String]) -> (r: bool)
        ensures
            r == plan_defined(*node_type, inputs@, self.params_view(), str_views(param_names@)),
    {
        match node_type {
            NodeType::Softmax { .. } => inputs.len() == 0 || (inputs[0].ndim() > 0 && inputs[0].ndim()
                <= 2147483647),
            NodeType::Reshape { target_shape } => {
                if inputs.len() == 0 {
                    return true;
                }
                (inputs[0].len() as u64) <= 9223372036854775807u64 && known_products_fit(
                    target_shape.as_slice(),
                )
            },
            NodeType::Dense { has_bias, .. } => {
                if inputs.len() == 0 || !*has_bias {
                    return true;
                }
                let w = match self.param(param_names, 0) {
                    Some(w) => w,
                    None => {
                        return true;
                    },
                };
                if self.param(param_names, 1).is_none() {
                    return true;
                }
                let x = &inputs[0];
                if w.ndim() != 2 || x.ndim() != 2 || x.shape()[1] != w.shape()[1] {
                    return true;
                }
                x.shape()[0].checked_mul(w.shape()[0]).is_some()
            },
            _ => true,
        }
    }
}

/// The element arithmetic that carries out the steps the CPU backend plans;
/// the program supplies it for its element type.
pub trait CpuKernels<T>: Send + Sync {
    /// Carries out `step`, planned for the operator `node_type`.
    fn compute(&self, node_type: &NodeType, step: CpuStep<'_, T>) -> Result<Tensor<T>, TensorError>;
}

/// The CPU backend with the arithmetic that carries out its plans: the
/// library plans each operator, `kernels` computes the planned step.
pub struct CpuCompute<T, K> {
    /// The parameter store and planner.
    pub cpu: CpuBackend<T>,
    /// The element arithmetic.
    pub kernels: K,
}

impl<T: Copy + Send + Sync, K: CpuKernels<T>> Backend<T> for CpuCompute<T, K> {
    fn name(&self) -> (r: &str)
        ensures
            r@ == "CPU (ndarray)"@,
    {
        self.cpu.name()
    }

    fn device_info(&self) -> (r: String)
        ensures
            exists|n: nat| n >= 1 && r@ == cpu_info_text(n),
    {
        self.cpu.device_info()
    }

    fn forward(&self, node_type: &NodeType, inputs: &[Tensor<T>], param_names: &[String]) -> (r: Result<
        Tensor<T>,
        TensorError,
    >)
        ensures
            !plan_defined(*node_type, inputs@, self.cpu.params_view(), str_views(param_names@)) ==> (r matches Err(
                e,
            ) && is_operation_failed(e, out_of_range_text())),
            plan_defined(*node_type, inputs@, self.cpu.params_view(), str_views(param_names@)) ==> exists|
                p: Result<CpuStep<T>, TensorError>,
            |
                #[trigger] planned(*node_type, inputs@, self.cpu.params_view(), str_views(param_names@), p)
                    && match p {
                    Err(e) => r == Err::<Tensor<T>, TensorError>(e),
                    Ok(step) => call_ensures(K::compute, (&self.kernels, node_type, step), r),
                },
    {
        if !self.cpu.plan_is_defined(node_type, inputs, param_names) {
            return Err(TensorError::OperationFailed(owned("形状超出可计算范围")));
        }
        match self.cpu.plan_forward(node_type, inputs, param_names) {
            Ok(step) => self.kernels.compute(node_type, step),
            Err(e) => Err(e),
        }
    }
}

} // verus!
