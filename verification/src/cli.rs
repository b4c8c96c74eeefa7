//! Decisions of the command-line program: the log level it is asked for,
//! and the graph its benchmark runs.

use vstd::prelude::*;
use crate::backend::{codes, eq_ignore_ascii_case, lower_codes};
use crate::engine::graph::{
    build_succeeds, edges_resolve, has_execution_order, id_of, input_of, lemma_input_listed,
    is_execution_order, node_ids, output_node_ids, placed_before, Graph, GraphBuilder, GraphError,
    Node, NodeType,
};
use crate::text::{decimal, digit_char, join2, usize_text};

verus! {

/// The verbosity of the log.
#[derive(Debug, Clone, Copy, PartialEq, Eq, Structural)]
pub enum LogLevel {
    /// Everything.
    Trace,
    /// Debugging detail and above.
    Debug,
    /// Information and above.
    Info,
    /// Warnings and errors.
    Warn,
    /// Errors only.
    Error,
}

/// The log level named by `s` (read with ASCII capitals as lower case);
/// an unknown name gives `Info`.
pub open spec fn log_level_of(s: Seq<char>) -> LogLevel {
    let l = lower_codes(s);
    if l == codes("trace"@) {
        LogLevel::Trace
    } else if l == codes("debug"@) {
        LogLevel::Debug
    } else if l == codes("info"@) {
        LogLevel::Info
    } else if l == codes("warn"@) {
        LogLevel::Warn
    } else if l == codes("error"@) {
        LogLevel::Error
    } else {
        LogLevel::Info
    }
}

/// The log level named by `level`: `trace`, `debug`, `info`, `warn` or
/// `error` in any ASCII case; anything else gives `Info`.
pub fn parse_log_level(level: &str) -> (r: LogLevel)
    ensures
        r == log_level_of(level@),
{
    if eq_ignore_ascii_case(level, "trace") {
        LogLevel::Trace
    } else if eq_ignore_ascii_case(level, "debug") {
        LogLevel::Debug
    } else if eq_ignore_ascii_case(level, "info") {
        LogLevel::Info
    } else if eq_ignore_ascii_case(level, "warn") {
        LogLevel::Warn
    } else if eq_ignore_ascii_case(level, "error") {
        LogLevel::Error
    } else {
        LogLevel::Info
    }
}

/// The name of dense layer `i` of the benchmark graph.
pub open spec fn layer_name(i: nat) -> Seq<char> {
    "layer_"@ + decimal(i)
}

/// The name of activation `i` of the benchmark graph.
pub open spec fn relu_name(i: nat) -> Seq<char> {
    "relu_"@ + decimal(i)
}

/// The identifiers of the benchmark graph once `k` layers are added: the
/// input, then a dense layer and its activation per layer.
pub open spec fn bench_ids(k: nat) -> Seq<Seq<char>>
    decreases k,
{
    if k == 0 {
        seq!["input"@]
    } else {
        bench_ids((k - 1) as nat).push(layer_name((k - 1) as nat)).push(relu_name((k - 1) as nat))
    }
}

/// Whether `nodes` form a chain: the first node reads nothing, and each
/// other node reads exactly the node before it.
pub open spec fn is_chain(nodes: Seq<Node>) -> bool {
    &&& nodes.len() > 0
    &&& nodes[0].inputs_view() == Seq::<Seq<char>>::empty()
    &&& forall|j: int| 1 <= j < nodes.len() ==> #[trigger] nodes[j].inputs_view() == seq![nodes[j - 1].id@]
}

proof fn lemma_bench_ids(k: nat)
    requires
        k <= 4,
    ensures
        bench_ids(k).len() == 1 + 2 * k,
        bench_ids(k)[0] == "input"@,
        forall|p: int|
            1 <= p < 1 + 2 * k ==> #[trigger] bench_ids(k)[p] == if p % 2 == 1 {
                layer_name(((p - 1) / 2) as nat)
            } else {
                relu_name(((p - 2) / 2) as nat)
            },
    decreases k,
{
    if k > 0 {
        lemma_bench_ids((k - 1) as nat);
        let prev = bench_ids((k - 1) as nat);
        assert forall|p: int| 1 <= p < 1 + 2 * k implies #[trigger] bench_ids(k)[p] == if p % 2 == 1 {
            layer_name(((p - 1) / 2) as nat)
        } else {
            relu_name(((p - 2) / 2) as nat)
        } by {
            if p < 2 * k - 1 {
                assert(bench_ids(k)[p] == prev[p]);
            }
        }
    }
}

proof fn lemma_fresh_names(k: nat)
    requires
        k < 4,
    ensures
        !bench_ids(k).contains(layer_name(k)),
        !bench_ids(k).push(layer_name(k)).contains(relu_name(k)),
{
    reveal_strlit("input");
    reveal_strlit("layer_");
    reveal_strlit("relu_");
    lemma_bench_ids(k);
    let ids = bench_ids(k);
    assert(decimal(k) == seq![digit_char(k)]);
    assert forall|p: int| 0 <= p < ids.len() implies ids[p] != layer_name(k) && ids[p] != relu_name(k) by {
        if p == 0 {
            assert(ids[p][0] != layer_name(k)[0]);
            assert(ids[p][0] != relu_name(k)[0]);
        } else {
            let q = (if p % 2 == 1 { (p - 1) / 2 } else { (p - 2) / 2 }) as nat;
            assert(q < k);
            assert(decimal(q) == seq![digit_char(q)]);
            if p % 2 == 1 {
                assert(ids[p] == layer_name(q));
                assert(ids[p][6] != layer_name(k)[6]);
                assert(ids[p][0] != relu_name(k)[0]);
            } else {
                assert(ids[p] == relu_name(q));
                assert(ids[p][0] != layer_name(k)[0]);
                assert(ids[p][5] != relu_name(k)[5]);
            }
        }
    }
    assert(layer_name(k)[0] != relu_name(k)[0]);
    assert forall|p: int| 0 <= p < ids.len() + 1 implies ids.push(layer_name(k))[p] != relu_name(k) by {
        if p < ids.len() {
            assert(ids.push(layer_name(k))[p] == ids[p]);
        }
    }
}

/// A chain whose first node is an input and whose last node is an output
/// builds: its edges resolve and its positions are an execution order.
proof fn lemma_chain_builds(nodes: Seq<Node>)
    requires
        is_chain(nodes),
        nodes.len() <= usize::MAX,
        nodes[0].node_type is Input,
        nodes.last().node_type is Output,
    ensures
        build_succeeds(nodes),
{
    let n = nodes.len();
    assert(edges_resolve(nodes)) by {
        assert forall|j: int, k: int| 0 <= j < n && 0 <= k < nodes[j].inputs_view().len() implies node_ids(
            nodes,
        ).contains(#[trigger] nodes[j].inputs_view()[k]) by {
            assert(j >= 1);
            assert(nodes[j].inputs_view()[k] == nodes[j - 1].id@);
            assert(node_ids(nodes)[j - 1] == nodes[j - 1].id@);
        }
    }
    lemma_input_listed(nodes, 0);
    assert(output_node_ids(nodes).len() > 0);
    let order = Seq::new(n, |p: int| p as usize);
    assert(is_execution_order(nodes, order)) by {
        assert forall|p: int, k: int|
            0 <= p < order.len() && 0 <= k < nodes[order[p] as int].inputs_view().len()
                implies #[trigger] placed_before(nodes, order, p, input_of(nodes, order[p] as int, k)) by {
            assert(p >= 1);
            assert(order[p] as int == p);
            assert(order[p - 1] as int == p - 1);
            assert(input_of(nodes, p, k) == nodes[p - 1].id@);
            assert(id_of(nodes, order[p - 1] as int) == nodes[p - 1].id@);
        }
    }
    assert(has_execution_order(nodes));
}

/// Node `2k+1` of `nodes` is dense layer `k`, `width` to `width` features
/// with bias, using the parameters `layer_k.weight` and `layer_k.bias`, and
/// node `2k+2` is its ReLU.
pub open spec fn bench_layer(nodes: Seq<Node>, k: int, width: usize) -> bool {
    &&& nodes[2 * k + 1].node_type matches NodeType::Dense {
        name: n,
        in_features: a,
        out_features: b,
        has_bias: hb,
    } && n@ == layer_name(k as nat) && a == width && b == width && hb
    &&& nodes[2 * k + 1].params_view() == seq![
        layer_name(k as nat) + ".weight"@,
        layer_name(k as nat) + ".bias"@,
    ]
    &&& nodes[2 * k + 2].node_type is ReLU
}

/// The node types of the benchmark graph: the input `input` of `f32`
/// elements and shape `[1, width]`, the four layers, and the output `output`.
pub open spec fn bench_types(nodes: Seq<Node>, width: usize) -> bool {
    &&& nodes.len() == 10
    &&& nodes[0].node_type matches NodeType::Input { name: n, dtype: d, shape: s } && n@ == "input"@
        && d@ == "f32"@ && s@ == seq![1usize, width]
    &&& forall|k: int| 0 <= k < 4 ==> #[trigger] bench_layer(nodes, k, width)
    &&& nodes[9].node_type matches NodeType::Output { name: n } && n@ == "output"@
}

/// Adds dense layer `k` (`width` to `width` features, with bias) over
/// `current` and its ReLU.
fn add_layer(builder: &mut GraphBuilder, k: usize, width: usize, current: &str) -> (r: Result<String, GraphError>)
    requires
        k < 4,
        node_ids(old(builder).nodes_view()) == bench_ids(k as nat),
    ensures
        r matches Ok(id) && id@ == relu_name(k as nat),
        node_ids(final(builder).nodes_view()) == bench_ids((k + 1) as nat),
        final(builder).nodes_view().len() == old(builder).nodes_view().len() + 2,
        final(builder).nodes_view().take(old(builder).nodes_view().len() as int) == old(builder).nodes_view(),
        final(builder).nodes_view()[old(builder).nodes_view().len() as int].inputs_view() == seq![current@],
        final(builder).nodes_view().last().inputs_view() == seq![layer_name(k as nat)],
        final(builder).nodes_view().last().node_type is ReLU,
        final(builder).nodes_view()[old(builder).nodes_view().len() as int].node_type matches NodeType::Dense {
            name: n,
            in_features: a,
            out_features: b,
            has_bias: hb,
        } && n@ == layer_name(k as nat) && a == width && b == width && hb,
        final(builder).nodes_view()[old(builder).nodes_view().len() as int].params_view() == seq![
            layer_name(k as nat) + ".weight"@,
            layer_name(k as nat) + ".bias"@,
        ],
{
    let ghost start = builder.nodes_view();
    proof {
        lemma_fresh_names(k as nat);
    }
    let digits = usize_text(k);
    let layer = join2("layer_", digits.as_str());
    let relu = join2("relu_", digits.as_str());
    let d = builder.dense(layer.as_str(), width, width, current, true);
    let ghost mid = builder.nodes_view();
    proof {
        assert(d is Ok);
        assert(node_ids(mid) =~= node_ids(start).push(layer_name(k as nat)));
    }
    let dense_id = match d {
        Ok(x) => x,
        Err(e) => {
            return Err(e);
        },
    };
    let r = builder.relu(relu.as_str(), dense_id.as_str());
    proof {
        let now = builder.nodes_view();
        assert(r is Ok);
        assert(node_ids(now) =~= node_ids(mid).push(relu_name(k as nat)));
        assert(now.drop_last() == mid);
        assert(now.take(start.len() as int) =~= start);
        assert(now[start.len() as int] == mid[start.len() as int]);
    }
    r
}

/// The graph the benchmark runs: an input `input` of shape `[1, width]`,
/// four dense layers `layer_0` to `layer_3` of `width` features with bias,
/// each followed by a ReLU `relu_0` to `relu_3`, and the output `output`.
pub fn benchmark_graph(width: usize) -> (r: Graph)
    ensures
        node_ids(r.nodes_view()) == bench_ids(4).push("output"@),
        is_chain(r.nodes_view()),
        is_execution_order(r.nodes_view(), r.order_view()),
        bench_types(r.nodes_view(), width),
{
    proof {
        reveal_strlit("input");
        reveal_strlit("f32");
        reveal_strlit("output");
        reveal_strlit("layer_");
        reveal_strlit("relu_");
    }
    let mut builder = GraphBuilder::new();
    let mut shape: Vec<usize> = Vec::new();
    shape.push(1);
    shape.push(width);
    proof {
        assert(node_ids(builder.nodes_view()) =~= Seq::<Seq<char>>::empty());
    }
    let a = builder.input("input", "f32", shape);
    proof {
        assert(a is Ok);
        assert(node_ids(builder.nodes_view()) =~= bench_ids(0));
    }
    let mut current = match a {
        Ok(x) => x,
        Err(_) => {
            proof {
                assert(false);
            }
            return Graph::new();
        },
    };
    let mut i: usize = 0;
    while i < 4
        invariant
            i <= 4,
            node_ids(builder.nodes_view()) == bench_ids(i as nat),
            builder.nodes_view().len() == 1 + 2 * i,
            is_chain(builder.nodes_view()),
            builder.nodes_view()[0].node_type matches NodeType::Input { name: n, dtype: d, shape: s }
                && n@ == "input"@ && d@ == "f32"@ && s@ == seq![1usize, width],
            forall|k: int| 0 <= k < i ==> #[trigger] bench_layer(builder.nodes_view(), k, width),
            current@ == builder.nodes_view().last().id@,
        decreases 4 - i,
    {
        let ghost before = builder.nodes_view();
        let r = add_layer(&mut builder, i, width, current.as_str());
        proof {
            let now = builder.nodes_view();
            let n = before.len() as int;
            assert forall|j: int| 1 <= j < now.len() implies #[trigger] now[j].inputs_view() == seq![
                now[j - 1].id@,
            ] by {
                if j < n {
                    assert(now[j] == now.take(n)[j]);
                    assert(now[j - 1] == now.take(n)[j - 1]);
                } else if j == n {
                    assert(now[j - 1] == now.take(n)[j - 1]);
                } else {
                    assert(j == n + 1);
                    assert(node_ids(now)[n] == now[n].id@);
                    lemma_bench_ids((i + 1) as nat);
                }
            }
            assert(now[0] == now.take(n)[0]);
            assert forall|kk: int| 0 <= kk < i + 1 implies #[trigger] bench_layer(now, kk, width) by {
                if kk < i {
                    assert(bench_layer(before, kk, width));
                    assert(now[2 * kk + 1] == now.take(n)[2 * kk + 1]);
                    assert(now[2 * kk + 2] == now.take(n)[2 * kk + 2]);
                } else {
                    assert(2 * kk + 1 == n);
                }
            }
            lemma_bench_ids((i + 1) as nat);
            assert(node_ids(now)[now.len() - 1] == now.last().id@);
        }
        current = match r {
            Ok(x) => x,
            Err(_) => {
                proof {
                    assert(false);
                }
                return Graph::new();
            },
        };
        i = i + 1;
    }
    let ghost before = builder.nodes_view();
    proof {
        lemma_bench_ids(4);
        assert forall|p: int| 0 <= p < bench_ids(4).len() implies bench_ids(4)[p] != "output"@ by {
            if p == 0 {
                assert(bench_ids(4)[p][0] != "output"@[0]);
            } else if p % 2 == 1 {
                assert(bench_ids(4)[p][0] != "output"@[0]);
            } else {
                assert(bench_ids(4)[p][0] != "output"@[0]);
            }
        }
    }
    let o = builder.output("output", current.as_str());
    let ghost nodes = builder.nodes_view();
    proof {
        assert(o is Ok);
        assert(nodes.drop_last() == before);
        assert(node_ids(nodes) =~= node_ids(before).push("output"@));
        assert forall|j: int| 1 <= j < nodes.len() implies #[trigger] nodes[j].inputs_view() == seq![
            nodes[j - 1].id@,
        ] by {
            if j < before.len() {
                assert(nodes[j] == before[j]);
                assert(nodes[j - 1] == before[j - 1]);
            } else {
                assert(nodes[j - 1] == before[j - 1]);
            }
        }
        assert(nodes[0] == before[0]);
        assert forall|k: int| 0 <= k < 4 implies #[trigger] bench_layer(nodes, k, width) by {
            assert(bench_layer(before, k, width));
            assert(nodes[2 * k + 1] == before[2 * k + 1]);
            assert(nodes[2 * k + 2] == before[2 * k + 2]);
        }
        assert(bench_types(nodes, width));
        assert(is_chain(nodes));
        lemma_chain_builds(nodes);
    }
    match builder.build() {
        Ok(g) => g,
        Err(_) => {
            proof {
                assert(false);
            }
            Graph::new()
        },
    }
}

} // verus!
