//! Compute backends: the interface the executor drives, and the choice of
//! device.

pub mod cpu;
pub mod cuda;

use vstd::prelude::*;
use crate::engine::graph::NodeType;
use crate::engine::tensor::{Tensor, TensorError};
use crate::text::{join3, owned};

verus! {

/// A compute backend: it runs one operator on input tensors, looking up the
/// named parameters in its own store.
pub trait Backend<T>: Send + Sync {
    /// The name of the backend.
    fn name(&self) -> &str;

    /// A description of the device.
    fn device_info(&self) -> String;

    /// Runs the operator `node_type` on `inputs`, with the parameters named
    /// `param_names`.
    fn forward(
        &self,
        node_type: &NodeType,
        inputs: &[Tensor<T>],
        param_names: &[String],
    ) -> Result<Tensor<T>, TensorError>;
}

/// The kind of compute backend.
#[derive(Debug, Clone, Copy, PartialEq, Eq, Structural)]
pub enum BackendType {
    /// The CPU backend, the default.
    Cpu,
    /// A CUDA GPU backend.
    Cuda,
}

impl Default for BackendType {
    fn default() -> (r: BackendType)
        ensures
            r == BackendType::Cpu,
    {
        BackendType::Cpu
    }
}

/// The code point of `c`, with ASCII capitals moved to lower case.
pub open spec fn lower_code(c: char) -> u32 {
    if 65 <= (c as u32) && (c as u32) <= 90 {
        ((c as u32) + 32) as u32
    } else {
        c as u32
    }
}

/// The code points of `s`, with ASCII capitals moved to lower case.
pub open spec fn lower_codes(s: Seq<char>) -> Seq<u32> {
    s.map_values(|c: char| lower_code(c))
}

/// The code points of `s`.
pub open spec fn codes(s: Seq<char>) -> Seq<u32> {
    s.map_values(|c: char| c as u32)
}

/// Whether `s` spells `w` when ASCII capitals are read as lower case.
pub fn eq_ignore_ascii_case(s: &str, w: &str) -> (r: bool)
    ensures
        r == (lower_codes(s@) == codes(w@)),
{
    let n = s.unicode_len();
    let m = w.unicode_len();
    if n != m {
        return false;
    }
    let mut i: usize = 0;
    while i < n
        invariant
            n == s@.len(),
            m == w@.len(),
            n == m,
            i <= n,
            forall|k: int| 0 <= k < i ==> lower_code(s@[k]) == w@[k] as u32,
        decreases n - i,
    {
        let a = s.get_char(i) as u32;
        let la = if 65 <= a && a <= 90 {
            a + 32
        } else {
            a
        };
        let b = w.get_char(i) as u32;
        if la != b {
            proof {
                assert(lower_codes(s@)[i as int] != codes(w@)[i as int]);
            }
            return false;
        }
        i = i + 1;
    }
    proof {
        assert(lower_codes(s@) =~= codes(w@));
    }
    true
}

/// The text of a backend type, as its `Display` renders it.
pub open spec fn backend_text(b: BackendType) -> Seq<char> {
    match b {
        BackendType::Cpu => "cpu"@,
        BackendType::Cuda => "cuda"@,
    }
}

/// The message for a backend name that is not recognised.
pub open spec fn unknown_backend_text(s: Seq<char>) -> Seq<char> {
    "不支持的后端类型: '"@ + s + "'。可选: cpu, cuda"@
}

/// What `as_text` writes, `parse` reads back: the text of a backend type
/// meets exactly the condition under which `parse` returns that type.
pub proof fn lemma_text_parses_back(b: BackendType)
    ensures
        (b == BackendType::Cpu) <==> lower_codes(backend_text(b)) == codes("cpu"@),
        (b == BackendType::Cuda) <==> (lower_codes(backend_text(b)) == codes("cuda"@)
            || lower_codes(backend_text(b)) == codes("gpu"@)),
{
    reveal_strlit("cpu");
    reveal_strlit("cuda");
    reveal_strlit("gpu");
    let t = backend_text(b);
    assert(lower_codes(t) =~= codes(t)) by {
        assert forall|i: int| 0 <= i < t.len() implies lower_codes(t)[i] == codes(t)[i] by {
            assert(t[i] as u32 >= 97);
        }
    }
    match b {
        BackendType::Cpu => {
            assert(codes(t) != codes("cuda"@)) by {
                assert(codes(t).len() != codes("cuda"@).len());
            }
            assert(codes(t) != codes("gpu"@)) by {
                assert(codes(t)[0] != codes("gpu"@)[0]);
            }
        },
        BackendType::Cuda => {
            assert(codes(t) != codes("cpu"@)) by {
                assert(codes(t).len() != codes("cpu"@).len());
            }
        },
    }
}

impl BackendType {
    /// The text of the backend type: `cpu` or `cuda`.
    pub fn as_text(&self) -> (r: String)
        ensures
            r@ == backend_text(*self),
    {
        match self {
            BackendType::Cpu => owned("cpu"),
            BackendType::Cuda => owned("cuda"),
        }
    }

    /// Reads a backend type, ignoring ASCII case: `cpu`, or `cuda` or `gpu`.
    pub fn parse(s: &str) -> (r: Result<BackendType, String>)
        ensures
            r == Ok::<BackendType, String>(BackendType::Cpu) <==> lower_codes(s@) == codes("cpu"@),
            r == Ok::<BackendType, String>(BackendType::Cuda) <==> lower_codes(s@) == codes("cuda"@)
                || lower_codes(s@) == codes("gpu"@),
            r matches Err(m) ==> m@ == unknown_backend_text(s@),
    {
        if eq_ignore_ascii_case(s, "cpu") {
            proof {
                if lower_codes(s@) == codes("cuda"@) || lower_codes(s@) == codes("gpu"@) {
                    reveal_strlit("cpu");
                    reveal_strlit("cuda");
                    reveal_strlit("gpu");
                    assert(codes("cpu"@)[1] != codes("cuda"@)[1]);
                    assert(codes("cpu"@)[0] != codes("gpu"@)[0]);
                }
            }
            Ok(BackendType::Cpu)
        } else if eq_ignore_ascii_case(s, "cuda") || eq_ignore_ascii_case(s, "gpu") {
            Ok(BackendType::Cuda)
        } else {
            Err(join3("不支持的后端类型: '", s, "'。可选: cpu, cuda"))
        }
    }
}

impl std::str::FromStr for BackendType {
    type Err = String;

    fn from_str(s: &str) -> (r: Result<Self, Self::Err>)
        ensures
            r == Ok::<BackendType, String>(BackendType::Cpu) <==> lower_codes(s@) == codes("cpu"@),
            r == Ok::<BackendType, String>(BackendType::Cuda) <==> lower_codes(s@) == codes("cuda"@)
                || lower_codes(s@) == codes("gpu"@),
            r matches Err(m) ==> m@ == unknown_backend_text(s@),
    {
        BackendType::parse(s)
    }
}

} // verus!
