//! Dense tensors stored in row-major order.
//!
//! A tensor is a shape and a flat sequence of elements whose length is the
//! product of the shape. The layout logic (construction, reshaping,
//! transposition, indexing) and the shape rules of every operator live here;
//! the element arithmetic of a concrete element type is done by the caller.

use vstd::prelude::*;
use crate::text::{decimal, join2, join3, list_text, usize_list_text, usize_text};

verus! {

/// Errors of tensor operations.
#[derive(Debug)]
pub enum TensorError {
    /// The shape that was asked for does not fit the data.
    ShapeMismatch { expected: Vec<usize>, actual: Vec<usize> },
    /// An index or an axis lies outside the tensor.
    IndexOutOfBounds(String),
    /// An element type conversion that is not supported.
    InvalidCast,
    /// An operation that the tensor's shape does not admit.
    OperationFailed(String),
}

/// The text of an error, as its `Display` renders it.
pub open spec fn tensor_error_text(e: TensorError) -> Seq<char> {
    match e {
        TensorError::ShapeMismatch { expected, actual } => "形状不匹配: 期望 "@ + list_text(expected@)
            + ", 实际 "@ + list_text(actual@),
        TensorError::IndexOutOfBounds(m) => "索引越界: "@ + m@,
        TensorError::InvalidCast => "不支持的类型转换"@,
        TensorError::OperationFailed(m) => "张量操作失败: "@ + m@,
    }
}

impl TensorError {
    /// The text of the error, as its `Display` renders it.
    pub fn describe(&self) -> (r: String)
        ensures
            r@ == tensor_error_text(*self),
    {
        match self {
            TensorError::ShapeMismatch { expected, actual } => {
                let a = usize_list_text(expected.as_slice());
                let b = usize_list_text(actual.as_slice());
                let head = join3("形状不匹配: 期望 ", a.as_str(), ", 实际 ");
                join2(head.as_str(), b.as_str())
            },
            TensorError::IndexOutOfBounds(m) => join2("索引越界: ", m.as_str()),
            TensorError::InvalidCast => crate::text::owned("不支持的类型转换"),
            TensorError::OperationFailed(m) => join2("张量操作失败: ", m.as_str()),
        }
    }
}

/// The number of elements of a tensor of shape `s`.
pub open spec fn shape_product(s: Seq<usize>) -> nat
    decreases s.len(),
{
    if s.len() == 0 {
        1
    } else {
        shape_product(s.drop_last()) * (s.last() as nat)
    }
}

/// The product of a one-axis shape is its extent.
pub proof fn lemma_product_one(a: usize)
    ensures
        shape_product(seq![a]) == a as nat,
{
    assert(seq![a].drop_last() =~= Seq::<usize>::empty());
    assert(shape_product(Seq::<usize>::empty()) == 1);
    assert(seq![a].last() == a);
    assert(shape_product(seq![a]) == shape_product(seq![a].drop_last()) * (a as nat));
}

/// The product of a two-axis shape is the product of its extents.
pub proof fn lemma_product_two(a: usize, b: usize)
    ensures
        shape_product(seq![a, b]) == (a as nat) * (b as nat),
{
    lemma_product_one(a);
    assert(seq![a, b].drop_last() =~= seq![a]);
    assert(seq![a, b].last() == b);
}

/// Whether `a` and `b` hold the same shape, elements and name.
pub open spec fn same_tensor<T>(a: Tensor<T>, b: Tensor<T>) -> bool {
    &&& a.shape_view() == b.shape_view()
    &&& a.data_view() == b.data_view()
    &&& a.name_view() == b.name_view()
}

/// Whether every coordinate of `idx` lies below the matching extent of `shape`.
pub open spec fn in_bounds(shape: Seq<usize>, idx: Seq<usize>) -> bool {
    &&& idx.len() == shape.len()
    &&& forall|i: int| 0 <= i < shape.len() ==> #[trigger] idx[i] < shape[i]
}

/// The row-major position of the element at `idx` in a tensor of shape `shape`.
pub open spec fn flat_offset(shape: Seq<usize>, idx: Seq<usize>) -> nat
    decreases shape.len(),
{
    if shape.len() == 0 {
        0
    } else {
        flat_offset(shape.drop_last(), idx.drop_last()) * (shape.last() as nat) + (idx.last() as nat)
    }
}

/// A tensor's error value for a shape that does not fit: `expected` and `actual` as given.
pub open spec fn is_shape_mismatch(e: TensorError, expected: Seq<usize>, actual: Seq<usize>) -> bool {
    e matches TensorError::ShapeMismatch { expected: x, actual: y } && x@ == expected && y@ == actual
}

/// A tensor's error value for an operation refused with the message `msg`.
pub open spec fn is_operation_failed(e: TensorError, msg: Seq<char>) -> bool {
    e matches TensorError::OperationFailed(m) && m@ == msg
}

/// A tensor's error value for an index refused with the message `msg`.
pub open spec fn is_index_out_of_bounds(e: TensorError, msg: Seq<char>) -> bool {
    e matches TensorError::IndexOutOfBounds(m) && m@ == msg
}

/// The message for a list of indices whose length differs from the tensor's rank.
pub open spec fn index_rank_text(given: nat, rank: nat) -> Seq<char> {
    "索引维度 "@ + decimal(given) + " 与张量维度 "@ + decimal(rank) + " 不匹配"@
}

/// The message for indices that lie outside the tensor.
pub open spec fn invalid_index_text(idx: Seq<usize>) -> Seq<char> {
    "无效索引: "@ + list_text(idx)
}

/// The message for an axis at or past the rank.
pub open spec fn axis_range_text(axis: nat, rank: nat) -> Seq<char> {
    "轴 "@ + decimal(axis) + " 超出范围 [0, "@ + decimal(rank) + ")"@
}

/// The message for a matrix product of unsupported ranks.
pub open spec fn matmul_rank_text(a: nat, b: nat) -> Seq<char> {
    "不支持的 matmul 维度组合: "@ + decimal(a) + "D x "@ + decimal(b) + "D"@
}

/// Whether a matrix product takes operands of these ranks: two matrices,
/// or two batches of matrices.
pub open spec fn matmul_ranks_ok(a: Seq<usize>, b: Seq<usize>) -> bool {
    (a.len() == 2 && b.len() == 2) || (a.len() == 3 && b.len() == 3)
}

/// The shape of the matrix product of operands of shapes `a` and `b`:
/// `[m, k] x [k, n]` gives `[m, n]`, and `[b, m, k] x [b, k, n]` gives
/// `[b, m, n]` (one product per batch entry); `None` for any other pair.
pub open spec fn matmul_result(a: Seq<usize>, b: Seq<usize>) -> Option<Seq<usize>> {
    if a.len() == 2 && b.len() == 2 && a[1] == b[0] {
        Some(seq![a[0], b[1]])
    } else if a.len() == 3 && b.len() == 3 && a[0] == b[0] && a[2] == b[1] {
        Some(seq![a[0], a[1], b[2]])
    } else {
        None
    }
}

/// `shape` with the extent at `axis` taken out.
pub open spec fn remove_axis(shape: Seq<usize>, axis: int) -> Seq<usize> {
    shape.take(axis) + shape.skip(axis + 1)
}

proof fn lemma_product_positive_or_zero(s: Seq<usize>)
    ensures
        (forall|i: int| 0 <= i < s.len() ==> s[i] != 0) ==> shape_product(s) >= 1,
        (exists|i: int| 0 <= i < s.len() && s[i] == 0) ==> shape_product(s) == 0,
    decreases s.len(),
{
    if s.len() > 0 {
        let p = s.drop_last();
        lemma_product_positive_or_zero(p);
        if forall|i: int| 0 <= i < s.len() ==> s[i] != 0 {
            assert forall|i: int| 0 <= i < p.len() implies p[i] != 0 by {
                assert(p[i] == s[i]);
            }
            assert(s.last() >= 1);
            assert(shape_product(p) * (s.last() as nat) >= 1) by (nonlinear_arith)
                requires
                    shape_product(p) >= 1,
                    s.last() >= 1,
            ;
        }
        if exists|i: int| 0 <= i < s.len() && s[i] == 0 {
            let i = choose|i: int| 0 <= i < s.len() && s[i] == 0;
            if i == s.len() - 1 {
                assert(shape_product(p) * 0 == 0) by (nonlinear_arith);
            } else {
                assert(p[i] == 0);
                assert(shape_product(p) == 0);
                assert(0 * (s.last() as nat) == 0) by (nonlinear_arith);
            }
        }
    }
}

proof fn lemma_prefix_product_bounded(s: Seq<usize>, k: int)
    requires
        0 <= k <= s.len(),
        forall|i: int| 0 <= i < s.len() ==> s[i] != 0,
    ensures
        shape_product(s.take(k)) <= shape_product(s),
    decreases s.len(),
{
    if k < s.len() {
        let p = s.drop_last();
        assert(p.take(k) =~= s.take(k));
        lemma_prefix_product_bounded(p, k);
        assert forall|i: int| 0 <= i < p.len() implies p[i] != 0 by {
            assert(p[i] == s[i]);
        }
        lemma_product_positive_or_zero(p);
        let a = shape_product(p);
        let d = s.last() as nat;
        assert(a <= a * d) by (nonlinear_arith)
            requires
                d >= 1,
        ;
    } else {
        assert(s.take(k) =~= s);
    }
}

/// Computes the number of elements of `shape`, or `None` when it exceeds `usize::MAX`.
pub fn checked_product(shape: &[usize]) -> (r: Option<usize>)
    ensures
        r matches Some(p) ==> p as nat == shape_product(shape@),
        r is None ==> shape_product(shape@) > usize::MAX,
{
    let mut i: usize = 0;
    while i < shape.len()
        invariant
            i <= shape@.len(),
            forall|j: int| 0 <= j < i ==> shape@[j] != 0,
        decreases shape@.len() - i,
    {
        if shape[i] == 0 {
            proof {
                lemma_product_positive_or_zero(shape@);
            }
            return Some(0);
        }
        i = i + 1;
    }
    let mut p: usize = 1;
    let mut j: usize = 0;
    while j < shape.len()
        invariant
            j <= shape@.len(),
            forall|k: int| 0 <= k < shape@.len() ==> shape@[k] != 0,
            p as nat == shape_product(shape@.take(j as int)),
        decreases shape@.len() - j,
    {
        proof {
            assert(shape@.take(j as int + 1).drop_last() =~= shape@.take(j as int));
        }
        match p.checked_mul(shape[j]) {
            Some(q) => {
                p = q;
            },
            None => {
                proof {
                    lemma_prefix_product_bounded(shape@, j as int + 1);
                }
                return None;
            },
        }
        j = j + 1;
    }
    proof {
        assert(shape@.take(shape@.len() as int) =~= shape@);
    }
    Some(p)
}

/// A dense tensor: a shape, its elements in row-major order and an optional name.
#[derive(Debug)]
pub struct Tensor<T> {
    shape: Vec<usize>,
    data: Vec<T>,
    name: Option<String>,
}

impl<T> Tensor<T> {
    /// The extents of the tensor, one per axis.
    pub closed spec fn shape_view(&self) -> Seq<usize> {
        self.shape@
    }

    /// The elements of the tensor in row-major order.
    pub closed spec fn data_view(&self) -> Seq<T> {
        self.data@
    }

    /// The name of the tensor, if it has one.
    pub closed spec fn name_view(&self) -> Option<Seq<char>> {
        match self.name {
            Some(n) => Some(n@),
            None => None,
        }
    }

    /// The element at `idx`, for indices within the shape.
    pub open spec fn at(&self, idx: Seq<usize>) -> T {
        self.data_view()[flat_offset(self.shape_view(), idx) as int]
    }

    /// The element at row `i`, column `j` of a tensor of rank two.
    pub open spec fn at2(&self, i: int, j: int) -> T {
        self.data_view()[i * self.shape_view()[1] + j]
    }

    /// The number of elements always matches the shape.
    #[verifier::type_invariant]
    spec fn well_formed(&self) -> bool {
        self.data@.len() == shape_product(self.shape@)
    }
}

/// The element at row `r`, column `c` of a row-major matrix with `w` columns.
pub open spec fn cell<T>(s: Seq<T>, w: int, r: int, c: int) -> T {
    s[r * w + c]
}

pub proof fn lemma_offset_in_range(shape: Seq<usize>, idx: Seq<usize>)
    requires
        in_bounds(shape, idx),
    ensures
        flat_offset(shape, idx) < shape_product(shape),
    decreases shape.len(),
{
    if shape.len() > 0 {
        let s = shape.drop_last();
        let x = idx.drop_last();
        assert(in_bounds(s, x)) by {
            assert forall|i: int| 0 <= i < s.len() implies #[trigger] x[i] < s[i] by {
                assert(idx[i] < shape[i]);
            }
        }
        lemma_offset_in_range(s, x);
        let a = flat_offset(s, x);
        let p = shape_product(s);
        let d = shape.last() as nat;
        let l = idx.last() as nat;
        assert(idx[idx.len() - 1] < shape[shape.len() - 1]);
        assert(a * d + l < p * d) by (nonlinear_arith)
            requires
                a < p,
                l < d,
        ;
    }
}

proof fn lemma_offset_two(m: usize, n: usize, i: usize, j: usize)
    ensures
        flat_offset(seq![m, n], seq![i, j]) == (i as nat) * (n as nat) + (j as nat),
        shape_product(seq![m, n]) == (m as nat) * (n as nat),
{
    let s = seq![m, n];
    let x = seq![i, j];
    assert(s.drop_last() =~= seq![m]);
    assert(x.drop_last() =~= seq![i]);
    assert(seq![m].drop_last() =~= Seq::<usize>::empty());
    assert(seq![i].drop_last() =~= Seq::<usize>::empty());
    let e = Seq::<usize>::empty();
    assert(flat_offset(e, e) == 0);
    assert(shape_product(e) == 1);
    assert(seq![m].last() == m);
    assert(seq![i].last() == i);
    assert(flat_offset(seq![m], seq![i]) == flat_offset(e, e) * (m as nat) + (i as nat));
    assert(shape_product(seq![m]) == shape_product(e) * (m as nat));
    assert(0 * (m as nat) + (i as nat) == i as nat) by (nonlinear_arith);
    assert(1 * (m as nat) == m as nat) by (nonlinear_arith);
}

impl<T: Copy> Tensor<T> {
    /// Builds a tensor of shape `shape` over `data`, which must hold exactly
    /// as many elements as the shape describes.
    pub fn from_vec(data: Vec<T>, shape: &[usize]) -> (r: Result<Self, TensorError>)
        ensures
            r is Ok <==> data@.len() == shape_product(shape@),
            r matches Ok(t) ==> t.shape_view() == shape@ && t.data_view() == data@
                && t.name_view() is None,
            r matches Err(e) ==> is_shape_mismatch(e, shape@, seq![data@.len() as usize]),
    {
        let fits = match checked_product(shape) {
            Some(p) => p == data.len(),
            None => false,
        };
        if !fits {
            let mut actual = Vec::new();
            actual.push(data.len());
            return Err(TensorError::ShapeMismatch { expected: vstd::slice::slice_to_vec(shape), actual });
        }
        Ok(Tensor { shape: vstd::slice::slice_to_vec(shape), data, name: None })
    }

    /// A tensor of shape `shape` whose every element is `value`.
    pub fn full(shape: &[usize], value: T) -> (r: Self)
        requires
            shape_product(shape@) <= usize::MAX,
        ensures
            r.shape_view() == shape@,
            r.data_view().len() == shape_product(shape@),
            forall|i: int| 0 <= i < r.data_view().len() ==> #[trigger] r.data_view()[i] == value,
            r.name_view() is None,
    {
        let n = match checked_product(shape) {
            Some(p) => p,
            None => 0,
        };
        let mut data: Vec<T> = Vec::new();
        let mut i: usize = 0;
        while i < n
            invariant
                i <= n,
                n as nat == shape_product(shape@),
                data@.len() == i,
                forall|k: int| 0 <= k < i ==> #[trigger] data@[k] == value,
            decreases n - i,
        {
            data.push(value);
            i = i + 1;
        }
        Tensor { shape: vstd::slice::slice_to_vec(shape), data, name: None }
    }

    /// The same tensor under the name `name`.
    pub fn with_name(self, name: String) -> (r: Self)
        ensures
            r.shape_view() == self.shape_view(),
            r.data_view() == self.data_view(),
            r.name_view() == Some(name@),
    {
        proof {
            use_type_invariant(&self);
        }
        Tensor { shape: self.shape, data: self.data, name: Some(name) }
    }

    /// The name of the tensor, if it has one.
    pub fn name(&self) -> (r: Option<&str>)
        ensures
            match r {
                Some(s) => self.name_view() == Some(s@),
                None => self.name_view() is None,
            },
    {
        match &self.name {
            Some(n) => Some(n.as_str()),
            None => None,
        }
    }

    /// The extents of the tensor.
    pub fn shape(&self) -> (r: &[usize])
        ensures
            r@ == self.shape_view(),
    {
        self.shape.as_slice()
    }

    /// The number of axes.
    pub fn ndim(&self) -> (r: usize)
        ensures
            r == self.shape_view().len(),
    {
        self.shape.len()
    }

    /// The number of elements, which is the product of the extents.
    pub fn len(&self) -> (r: usize)
        ensures
            r == self.data_view().len(),
            r == shape_product(self.shape_view()),
    {
        proof {
            use_type_invariant(self);
        }
        self.data.len()
    }

    /// Whether the tensor holds no element.
    pub fn is_empty(&self) -> (r: bool)
        ensures
            r == (shape_product(self.shape_view()) == 0),
    {
        proof {
            use_type_invariant(self);
        }
        self.data.len() == 0
    }

    /// The elements in row-major order.
    pub fn to_vec(&self) -> (r: Vec<T>)
        ensures
            r@ == self.data_view(),
    {
        let mut out: Vec<T> = Vec::new();
        let mut i: usize = 0;
        while i < self.data.len()
            invariant
                i <= self.data@.len(),
                out@ == self.data@.take(i as int),
            decreases self.data@.len() - i,
        {
            out.push(self.data[i]);
            proof {
                assert(self.data@.take(i as int + 1) =~= self.data@.take(i as int).push(
                    self.data@[i as int],
                ));
            }
            i = i + 1;
        }
        proof {
            assert(self.data@.take(self.data@.len() as int) =~= self.data@);
        }
        out
    }

    /// An identical copy of the tensor.
    pub fn duplicate(&self) -> (r: Self)
        ensures
            r.shape_view() == self.shape_view(),
            r.data_view() == self.data_view(),
            r.name_view() == self.name_view(),
    {
        proof {
            use_type_invariant(self);
        }
        let name = match &self.name {
            Some(n) => Some(n.clone()),
            None => None,
        };
        Tensor { shape: self.shape.clone(), data: self.to_vec(), name }
    }

    /// The same elements under the shape `new_shape`, which must describe as
    /// many elements as the tensor holds. The name is kept.
    pub fn reshape(&self, new_shape: &[usize]) -> (r: Result<Self, TensorError>)
        ensures
            r is Ok <==> shape_product(new_shape@) == shape_product(self.shape_view()),
            r matches Ok(t) ==> t.shape_view() == new_shape@ && t.data_view()
                == self.data_view() && t.name_view() == self.name_view(),
            r matches Err(e) ==> is_shape_mismatch(
                e,
                new_shape@,
                seq![shape_product(self.shape_view()) as usize],
            ),
    {
        proof {
            use_type_invariant(self);
        }
        let total = self.data.len();
        let fits = match checked_product(new_shape) {
            Some(p) => p == total,
            None => false,
        };
        if !fits {
            let mut actual = Vec::new();
            actual.push(total);
            return Err(TensorError::ShapeMismatch { expected: vstd::slice::slice_to_vec(new_shape), actual });
        }
        let name = match &self.name {
            Some(n) => Some(n.clone()),
            None => None,
        };
        Ok(Tensor { shape: vstd::slice::slice_to_vec(new_shape), data: self.to_vec(), name })
    }

    /// The transpose of a matrix: the element at `[i, j]` moves to `[j, i]`.
    /// Only tensors of rank two are accepted.
    pub fn transpose(&self) -> (r: Result<Self, TensorError>)
        ensures
            r is Ok <==> self.shape_view().len() == 2,
            r matches Ok(t) ==> {
                &&& t.shape_view() == seq![self.shape_view()[1], self.shape_view()[0]]
                &&& t.name_view() is None
                &&& forall|i: int, j: int|
                    0 <= i < self.shape_view()[0] && 0 <= j < self.shape_view()[1]
                        ==> #[trigger] t.at2(j, i) == self.at2(i, j)
            },
            r matches Err(e) ==> is_operation_failed(e, "转置仅支持 2D 张量"@),
    {
        proof {
            use_type_invariant(self);
        }
        if self.shape.len() != 2 {
            return Err(TensorError::OperationFailed(crate::text::owned("转置仅支持 2D 张量")));
        }
        let m = self.shape[0];
        let n = self.shape[1];
        let total = self.data.len();
        proof {
            assert(self.shape@ =~= seq![m, n]);
            lemma_offset_two(m, n, 0, 0);
        }
        let mut data: Vec<T> = Vec::new();
        let mut j: usize = 0;
        while j < n
            invariant
                self.shape@ == seq![m, n],
                self.data@.len() == (m as nat) * (n as nat),
                total == self.data@.len(),
                j <= n,
                data@.len() == (j as nat) * (m as nat),
                forall|jj: int, ii: int|
                    0 <= jj < j && 0 <= ii < m ==> #[trigger] cell(data@, m as int, jj, ii)
                        == cell(self.data@, n as int, ii, jj),
            decreases n - j,
        {
            let mut i: usize = 0;
            while i < m
                invariant
                    self.shape@ == seq![m, n],
                    self.data@.len() == (m as nat) * (n as nat),
                    total == self.data@.len(),
                    j < n,
                    i <= m,
                    data@.len() == (j as nat) * (m as nat) + i,
                    forall|jj: int, ii: int|
                        0 <= jj < j && 0 <= ii < m ==> #[trigger] cell(data@, m as int, jj, ii)
                            == cell(self.data@, n as int, ii, jj),
                    forall|ii: int|
                        0 <= ii < i ==> #[trigger] cell(data@, m as int, j as int, ii) == cell(
                            self.data@,
                            n as int,
                            ii,
                            j as int,
                        ),
                decreases m - i,
            {
                proof {
                    assert((i as int) * (n as int) + (j as int) < (m as int) * (n as int))
                        by (nonlinear_arith)
                        requires
                            i < m,
                            j < n,
                    ;
                }
                let v = self.data[i * n + j];
                let ghost before = data@;
                data.push(v);
                proof {
                    assert forall|jj: int, ii: int|
                        0 <= jj < j && 0 <= ii < m implies #[trigger] cell(data@, m as int, jj, ii)
                        == cell(self.data@, n as int, ii, jj) by {
                        assert(jj * m + ii < (j as int) * (m as int)) by (nonlinear_arith)
                            requires
                                jj < j,
                                ii < m,
                        ;
                        assert(cell(data@, m as int, jj, ii) == cell(before, m as int, jj, ii));
                    }
                    assert forall|ii: int| 0 <= ii < i + 1 implies #[trigger] cell(
                        data@,
                        m as int,
                        j as int,
                        ii,
                    ) == cell(self.data@, n as int, ii, j as int) by {
                        if ii < i {
                            assert(cell(data@, m as int, j as int, ii) == cell(
                                before,
                                m as int,
                                j as int,
                                ii,
                            ));
                        }
                    }
                }
                i = i + 1;
            }
            proof {
                assert((j as nat) * (m as nat) + (m as nat) == ((j + 1) as nat) * (m as nat))
                    by (nonlinear_arith);
            }
            j = j + 1;
        }
        proof {
            assert((n as nat) * (m as nat) == (m as nat) * (n as nat)) by (nonlinear_arith);
            assert(shape_product(seq![n, m]) == (n as nat) * (m as nat)) by {
                lemma_offset_two(n, m, 0, 0);
            }
        }
        let mut shape = Vec::new();
        shape.push(n);
        shape.push(m);
        proof {
            assert(shape@ =~= seq![n, m]);
        }
        let t = Tensor { shape, data, name: None };
        proof {
            assert forall|i: int, j: int| 0 <= i < m && 0 <= j < n implies #[trigger] t.at2(j, i)
                == self.at2(i, j) by {
                assert(cell(data@, m as int, j, i) == cell(self.data@, n as int, i, j));
            }
        }
        Ok(t)
    }

    /// The element at `indices`. The number of indices must equal the rank,
    /// and each index must lie below its extent.
    pub fn get(&self, indices: &[usize]) -> (r: Result<T, TensorError>)
        ensures
            r is Ok <==> in_bounds(self.shape_view(), indices@),
            r matches Ok(v) ==> v == self.at(indices@),
            r matches Err(e) ==> if indices@.len() != self.shape_view().len() {
                is_index_out_of_bounds(
                    e,
                    index_rank_text(indices@.len(), self.shape_view().len()),
                )
            } else {
                is_index_out_of_bounds(e, invalid_index_text(indices@))
            },
    {
        proof {
            use_type_invariant(self);
        }
        if indices.len() != self.shape.len() {
            let a = usize_text(indices.len());
            let b = usize_text(self.shape.len());
            let head = join3("索引维度 ", a.as_str(), " 与张量维度 ");
            let msg = join3(head.as_str(), b.as_str(), " 不匹配");
            return Err(TensorError::IndexOutOfBounds(msg));
        }
        let mut c: usize = 0;
        while c < indices.len()
            invariant
                indices@.len() == self.shape@.len(),
                c <= indices@.len(),
                forall|q: int| 0 <= q < c ==> #[trigger] indices@[q] < self.shape@[q],
            decreases indices@.len() - c,
        {
            if indices[c] >= self.shape[c] {
                let listed = usize_list_text(indices);
                let msg = join2("无效索引: ", listed.as_str());
                return Err(TensorError::IndexOutOfBounds(msg));
            }
            c = c + 1;
        }
        proof {
            assert(in_bounds(self.shape@, indices@));
            assert forall|q: int| 0 <= q < self.shape@.len() implies self.shape@[q] != 0 by {
                assert(indices@[q] < self.shape@[q]);
            }
        }
        let total = self.data.len();
        let mut off: usize = 0;
        let mut k: usize = 0;
        while k < indices.len()
            invariant
                total == self.data@.len(),
                indices@.len() == self.shape@.len(),
                self.data@.len() == shape_product(self.shape@),
                in_bounds(self.shape@, indices@),
                forall|q: int| 0 <= q < self.shape@.len() ==> self.shape@[q] != 0,
                k <= indices@.len(),
                off as nat == flat_offset(self.shape@.take(k as int), indices@.take(k as int)),
            decreases indices@.len() - k,
        {
            let ghost s1 = self.shape@.take(k as int + 1);
            let ghost x1 = indices@.take(k as int + 1);
            proof {
                assert(s1.drop_last() =~= self.shape@.take(k as int));
                assert(x1.drop_last() =~= indices@.take(k as int));
                assert(in_bounds(s1, x1)) by {
                    assert forall|q: int| 0 <= q < s1.len() implies #[trigger] x1[q] < s1[q] by {
                        assert(x1[q] == indices@[q]);
                        assert(s1[q] == self.shape@[q]);
                    }
                }
                lemma_offset_in_range(s1, x1);
                lemma_prefix_product_bounded(self.shape@, k as int + 1);
            }
            off = off * self.shape[k] + indices[k];
            k = k + 1;
        }
        proof {
            assert(self.shape@.take(k as int) =~= self.shape@);
            assert(indices@.take(k as int) =~= indices@);
            lemma_offset_in_range(self.shape@, indices@);
        }
        Ok(self.data[off])
    }

    /// Refuses, for an element-wise operation, an operand whose shape differs from this one.
    pub fn check_same_shape(&self, other: &Self) -> (r: Result<(), TensorError>)
        ensures
            r is Ok <==> self.shape_view() == other.shape_view(),
            r matches Err(e) ==> is_shape_mismatch(e, self.shape_view(), other.shape_view()),
    {
        if !usize_slices_equal(self.shape.as_slice(), other.shape.as_slice()) {
            return Err(
                TensorError::ShapeMismatch {
                    expected: self.shape.clone(),
                    actual: other.shape.clone(),
                },
            );
        }
        Ok(())
    }

    /// The shape of the matrix product of `self` and `other`: `[m, k] x [k, n]`
    /// gives `[m, n]`, and the batched product `[b, m, k] x [b, k, n]` gives
    /// `[b, m, n]`; operands of those ranks whose extents do not fit are
    /// refused with both shapes, and other ranks are refused.
    pub fn matmul_shape(&self, other: &Self) -> (r: Result<Vec<usize>, TensorError>)
        ensures
            r is Ok <==> matmul_result(self.shape_view(), other.shape_view()) is Some,
            r matches Ok(s) ==> Some(s@) == matmul_result(self.shape_view(), other.shape_view()),
            r matches Err(e) ==> if matmul_ranks_ok(self.shape_view(), other.shape_view()) {
                is_shape_mismatch(e, self.shape_view(), other.shape_view())
            } else {
                is_operation_failed(
                    e,
                    matmul_rank_text(self.shape_view().len(), other.shape_view().len()),
                )
            },
    {
        let ra = self.shape.len();
        let rb = other.shape.len();
        if (ra == 2 && rb == 2) || (ra == 3 && rb == 3) {
            let fits = if ra == 2 {
                self.shape[1] == other.shape[0]
            } else {
                self.shape[0] == other.shape[0] && self.shape[2] == other.shape[1]
            };
            if !fits {
                return Err(
                    TensorError::ShapeMismatch {
                        expected: self.shape.clone(),
                        actual: other.shape.clone(),
                    },
                );
            }
            let mut out = Vec::new();
            if ra == 2 {
                out.push(self.shape[0]);
                out.push(other.shape[1]);
                proof {
                    assert(out@ =~= seq![self.shape@[0], other.shape@[1]]);
                }
            } else {
                out.push(self.shape[0]);
                out.push(self.shape[1]);
                out.push(other.shape[2]);
                proof {
                    assert(out@ =~= seq![self.shape@[0], self.shape@[1], other.shape@[2]]);
                }
            }
            return Ok(out);
        }
        let a = usize_text(ra);
        let b = usize_text(rb);
        let head = join3("不支持的 matmul 维度组合: ", a.as_str(), "D x ");
        let msg = join3(head.as_str(), b.as_str(), "D");
        Err(TensorError::OperationFailed(msg))
    }

    /// The shape left after summing along `axis`, which must be below the rank.
    pub fn sum_axis_shape(&self, axis: usize) -> (r: Result<Vec<usize>, TensorError>)
        ensures
            r is Ok <==> axis < self.shape_view().len(),
            r matches Ok(s) ==> s@ == remove_axis(self.shape_view(), axis as int),
            r matches Err(e) ==> is_index_out_of_bounds(
                e,
                axis_range_text(axis as nat, self.shape_view().len()),
            ),
    {
        if axis >= self.shape.len() {
            let a = usize_text(axis);
            let b = usize_text(self.shape.len());
            let head = join3("轴 ", a.as_str(), " 超出范围 [0, ");
            let msg = join3(head.as_str(), b.as_str(), ")");
            return Err(TensorError::IndexOutOfBounds(msg));
        }
        let mut out: Vec<usize> = Vec::new();
        let mut i: usize = 0;
        while i < axis
            invariant
                axis < self.shape@.len(),
                i <= axis,
                out@ == self.shape@.take(i as int),
            decreases axis - i,
        {
            out.push(self.shape[i]);
            proof {
                assert(self.shape@.take(i as int + 1) =~= self.shape@.take(i as int).push(
                    self.shape@[i as int],
                ));
            }
            i = i + 1;
        }
        let mut j: usize = axis + 1;
        while j < self.shape.len()
            invariant
                axis < self.shape@.len(),
                axis + 1 <= j <= self.shape@.len(),
                out@ == self.shape@.take(axis as int) + self.shape@.subrange(axis + 1, j as int),
            decreases self.shape@.len() - j,
        {
            out.push(self.shape[j]);
            proof {
                assert(self.shape@.subrange(axis + 1, j as int + 1) =~= self.shape@.subrange(
                    axis + 1,
                    j as int,
                ).push(self.shape@[j as int]));
            }
            j = j + 1;
        }
        proof {
            assert(out@ =~= remove_axis(self.shape@, axis as int));
        }
        Ok(out)
    }

    /// The last axis, along which softmax normalises; a tensor of rank zero is refused.
    pub fn softmax_axis(&self) -> (r: Result<usize, TensorError>)
        ensures
            r is Ok <==> self.shape_view().len() > 0,
            r matches Ok(a) ==> a == self.shape_view().len() - 1,
            r matches Err(e) ==> is_operation_failed(e, "Softmax 不支持标量张量"@),
    {
        if self.shape.len() == 0 {
            return Err(TensorError::OperationFailed(crate::text::owned("Softmax 不支持标量张量")));
        }
        Ok(self.shape.len() - 1)
    }

    /// The last axis, along which layer normalisation works; a tensor of rank zero is refused.
    pub fn layer_norm_axis(&self) -> (r: Result<usize, TensorError>)
        ensures
            r is Ok <==> self.shape_view().len() > 0,
            r matches Ok(a) ==> a == self.shape_view().len() - 1,
            r matches Err(e) ==> is_operation_failed(e, "LayerNorm 不支持标量张量"@),
    {
        if self.shape.len() == 0 {
            return Err(
                TensorError::OperationFailed(crate::text::owned("LayerNorm 不支持标量张量")),
            );
        }
        Ok(self.shape.len() - 1)
    }
}

/// Whether `t` is the transpose of the matrix `m`: its extents swapped, the
/// element at `[i, j]` of `m` at `[j, i]` of `t`.
pub open spec fn is_transpose_of<T>(t: Tensor<T>, m: Tensor<T>) -> bool {
    &&& m.shape_view().len() == 2
    &&& t.shape_view() == seq![m.shape_view()[1], m.shape_view()[0]]
    &&& forall|i: int, j: int|
        0 <= i < m.shape_view()[0] && 0 <= j < m.shape_view()[1] ==> #[trigger] t.at2(j, i) == m.at2(i, j)
}

/// Transposing twice gives back the elements and the shape: if `t1` is the
/// transpose of `t0` and `t2` the transpose of `t1`, then `t2` holds what
/// `t0` holds.
pub proof fn lemma_transpose_twice<T>(t0: Tensor<T>, t1: Tensor<T>, t2: Tensor<T>)
    requires
        t0.data_view().len() == shape_product(t0.shape_view()),
        t2.data_view().len() == shape_product(t2.shape_view()),
        is_transpose_of(t1, t0),
        is_transpose_of(t2, t1),
    ensures
        t2.shape_view() == t0.shape_view(),
        t2.data_view() == t0.data_view(),
{
    let m = t0.shape_view()[0];
    let n = t0.shape_view()[1];
    assert(t2.shape_view() =~= t0.shape_view());
    lemma_offset_two(m, n, 0, 0);
    assert(t0.shape_view() =~= seq![m, n]);
    assert forall|k: int| 0 <= k < t0.data_view().len() implies t2.data_view()[k] == t0.data_view()[k] by {
        let i = k / (n as int);
        let j = k % (n as int);
        assert(n > 0) by {
            if n == 0 {
                assert((m as nat) * 0 == 0) by (nonlinear_arith);
            }
        }
        vstd::arithmetic::div_mod::lemma_fundamental_div_mod(k, n as int);
        assert(0 <= j < n);
        assert(0 <= i < m) by {
            assert(k < (m as nat) * (n as nat));
            vstd::arithmetic::div_mod::lemma_div_pos_is_pos(k, n as int);
            assert(i < m) by (nonlinear_arith)
                requires
                    k == (n as int) * i + j,
                    0 <= j,
                    k < (m as int) * (n as int),
                    n > 0,
            ;
        }
        assert(t1.at2(j, i) == t0.at2(i, j));
        assert(t2.at2(i, j) == t1.at2(j, i));
        assert(i * n + j == k) by (nonlinear_arith)
            requires
                k == (n as int) * i + j,
        ;
    }
    assert(t2.data_view() =~= t0.data_view());
}

/// Whether two lists of extents are equal.
pub fn usize_slices_equal(a: &[usize], b: &[usize]) -> (r: bool)
    ensures
        r == (a@ == b@),
{
    if a.len() != b.len() {
        return false;
    }
    let mut i: usize = 0;
    while i < a.len()
        invariant
            a@.len() == b@.len(),
            i <= a@.len(),
            forall|k: int| 0 <= k < i ==> a@[k] == b@[k],
        decreases a@.len() - i,
    {
        if a[i] != b[i] {
            return false;
        }
        i = i + 1;
    }
    proof {
        assert(a@ =~= b@);
    }
    true
}

} // verus!
