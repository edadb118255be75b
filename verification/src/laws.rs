use vstd::prelude::*;
use crate::engine::Graph;
use crate::engine::Variable;
use crate::engine::accum_upto;
use crate::engine::add_contrib;
use crate::engine::edge_wf;
use crate::engine::gens_of;
use crate::engine::grad_es;
use crate::engine::gy_es_of;
use crate::engine::leaf_inputs;
use crate::engine::max_generation;
use crate::engine::node_wf;
use crate::engine::one_edge_fits;
use crate::engine::one_edge_grad;
use crate::engine::datas_es;
use crate::ops::Op;
use crate::ops::op_backward_spec;
use crate::tensor::Tensor;
use crate::tensor::all_fit;
use crate::tensor::fits_i64;
use crate::tensor::ones_seq;
use crate::tensor::seq_add;
use crate::tensor::seq_mul;
use crate::tensor::to_ints;

verus! {

/// The doubled sequence: entry `i` is twice the entry of `d`.
pub open spec fn doubled(d: Seq<int>) -> Seq<int> {
    Seq::new(d.len(), |i: int| 2 * d[i])
}

/// Replaying the edge of a squared leaf: the leaf's gradient becomes twice
/// its data (the local derivative against a seed of ones), every other
/// gradient is untouched, and the replay fits exactly when the doubled data
/// fits.
proof fn lemma_one_edge_square(gb: Graph, cid: usize, x: Variable, y: Variable)
    requires
        gb.wf(),
        (x.id as int) < gb.nodes@.len(),
        (y.id as int) < gb.nodes@.len(),
        (cid as int) < gb.edges@.len(),
        gb.edges@[cid as int].inputs@ == seq![x.id],
        gb.edges@[cid as int].outputs@[0] == y.id,
        gb.edges@[cid as int].op == Op::Square,
        gb.nodes@[x.id as int].creator is None,
        gb.nodes@[x.id as int].grad is None,
        gb.nodes@[y.id as int].grad is None,
    ensures
        leaf_inputs(gb, gb.edges@[cid as int]),
        one_edge_grad(gb, gb.edges@[cid as int], x.id as int) == Some(
            doubled(gb.nodes@[x.id as int].data.es()),
        ),
        forall|i: int|
            0 <= i < gb.nodes@.len() && i != x.id ==> one_edge_grad(
                gb,
                gb.edges@[cid as int],
                i,
            ) == grad_es(gb.nodes@[i]),
        one_edge_fits(gb, gb.edges@[cid as int]) == all_fit(
            doubled(gb.nodes@[x.id as int].data.es()),
        ),
{
    let e = gb.edges@[cid as int];
    assert(edge_wf(gb, cid as int));
    assert(node_wf(gb, x.id as int));
    let d = gb.nodes@[x.id as int].data.es();
    let n = gb.nodes@[y.id as int].data.es().len();
    assert(gb.nodes@[e.inputs@[0] as int].data.es().len() == n);
    assert(d.len() == n);
    let gy = gy_es_of(gb.nodes@[y.id as int]);
    assert(gy == ones_seq(n));
    assert(datas_es(gb, e.inputs@) =~= seq![d]);
    let gxs = op_backward_spec(Op::Square, seq![d], gy);
    assert(gxs[0] == seq_add(seq_mul(d, gy), seq_mul(d, gy)));
    assert forall|i: int| 0 <= i < n implies seq_mul(d, gy)[i] == d[i] by {
        assert(gy[i] == 1);
    }
    assert(gxs[0] =~= doubled(d));
    assert(accum_upto(gb, e, x.id as int, 0) == grad_es(gb.nodes@[x.id as int]));
    assert(one_edge_grad(gb, e, x.id as int) == Some(add_contrib(None, gxs[0])));
    assert(add_contrib(None, gxs[0]) == gxs[0]);
    assert forall|i: int|
        0 <= i < gb.nodes@.len() && i != x.id implies one_edge_grad(gb, e, i) == grad_es(
        gb.nodes@[i],
    ) by {
        assert(accum_upto(gb, e, i, 0) == grad_es(gb.nodes@[i]));
        assert(e.inputs@[0] == x.id);
    }
    assert(one_edge_fits(gb, e) == all_fit(doubled(d))) by {
        assert(add_contrib(accum_upto(gb, e, e.inputs@[0] as int, 0), gxs[0]) == gxs[0]);
        if all_fit(doubled(d)) {
            assert forall|k: int|
                0 <= k < op_backward_spec(e.op, datas_es(gb, e.inputs@), gy).len() implies all_fit(
                #[trigger] op_backward_spec(e.op, datas_es(gb, e.inputs@), gy)[k],
            ) by {
                assert(k == 0);
            }
        } else {
            assert(!all_fit(op_backward_spec(e.op, datas_es(gb, e.inputs@), gy)[0]));
        }
    }
}

/// Replaying the edge of a leaf multiplied by itself: the leaf receives the
/// sum of the two path-local contributions (each equal to the data against a
/// seed of ones), so its gradient becomes twice its data — accumulation, not
/// overwrite.
proof fn lemma_one_edge_mul_same(gb: Graph, cid: usize, x: Variable, y: Variable)
    requires
        gb.wf(),
        (x.id as int) < gb.nodes@.len(),
        (y.id as int) < gb.nodes@.len(),
        (cid as int) < gb.edges@.len(),
        gb.edges@[cid as int].inputs@ == seq![x.id, x.id],
        gb.edges@[cid as int].outputs@[0] == y.id,
        gb.edges@[cid as int].op == Op::Mul,
        gb.nodes@[x.id as int].creator is None,
        gb.nodes@[x.id as int].grad is None,
        gb.nodes@[y.id as int].grad is None,
    ensures
        leaf_inputs(gb, gb.edges@[cid as int]),
        one_edge_grad(gb, gb.edges@[cid as int], x.id as int) == Some(
            seq_add(gb.nodes@[x.id as int].data.es(), gb.nodes@[x.id as int].data.es()),
        ),
        forall|i: int|
            0 <= i < gb.nodes@.len() && i != x.id ==> one_edge_grad(
                gb,
                gb.edges@[cid as int],
                i,
            ) == grad_es(gb.nodes@[i]),
        one_edge_fits(gb, gb.edges@[cid as int]) == all_fit(
            seq_add(gb.nodes@[x.id as int].data.es(), gb.nodes@[x.id as int].data.es()),
        ),
{
    let e = gb.edges@[cid as int];
    assert(edge_wf(gb, cid as int));
    assert(node_wf(gb, x.id as int));
    let d = gb.nodes@[x.id as int].data.es();
    let n = gb.nodes@[y.id as int].data.es().len();
    assert(gb.nodes@[e.inputs@[0] as int].data.es().len() == n);
    assert(d.len() == n);
    let gy = gy_es_of(gb.nodes@[y.id as int]);
    assert(gy == ones_seq(n));
    assert(datas_es(gb, e.inputs@) =~= seq![d, d]);
    let gxs = op_backward_spec(Op::Mul, seq![d, d], gy);
    assert(gxs[0] == seq_mul(gy, d));
    assert(gxs[1] == seq_mul(gy, d));
    assert forall|i: int| 0 <= i < n implies seq_mul(gy, d)[i] == d[i] by {
        assert(gy[i] == 1);
    }
    assert(seq_mul(gy, d) =~= d);
    assert forall|i: int| 0 <= i < d.len() implies fits_i64(d[i]) by {
        assert(d[i] == gb.nodes@[x.id as int].data.elems@[i] as int);
    }
    assert(all_fit(d));
    assert(accum_upto(gb, e, x.id as int, 0) == grad_es(gb.nodes@[x.id as int]));
    assert(accum_upto(gb, e, x.id as int, 1) == Some(add_contrib(None, gxs[0])));
    assert(accum_upto(gb, e, x.id as int, 2) == Some(
        add_contrib(Some(gxs[0]), gxs[1]),
    ));
    assert(one_edge_grad(gb, e, x.id as int) == Some(seq_add(d, d)));
    assert forall|i: int|
        0 <= i < gb.nodes@.len() && i != x.id implies one_edge_grad(gb, e, i) == grad_es(
        gb.nodes@[i],
    ) by {
        assert(accum_upto(gb, e, i, 0) == grad_es(gb.nodes@[i]));
        assert(accum_upto(gb, e, i, 1) == grad_es(gb.nodes@[i]));
        assert(e.inputs@[0] == x.id && e.inputs@[1] == x.id);
    }
    assert(one_edge_fits(gb, e) == all_fit(seq_add(d, d))) by {
        assert(add_contrib(accum_upto(gb, e, e.inputs@[0] as int, 0), gxs[0]) == gxs[0]);
        assert(add_contrib(accum_upto(gb, e, e.inputs@[1] as int, 1), gxs[1]) == seq_add(d, d));
        if all_fit(seq_add(d, d)) {
            assert forall|k: int|
                0 <= k < op_backward_spec(e.op, datas_es(gb, e.inputs@), gy).len() implies all_fit(
                #[trigger] op_backward_spec(e.op, datas_es(gb, e.inputs@), gy)[k],
            ) by {
                assert(op_backward_spec(e.op, datas_es(gb, e.inputs@), gy)[k] =~= d);
            }
            assert forall|j: int|
                0 <= j < e.inputs@.len() implies all_fit(
                add_contrib(
                    accum_upto(gb, e, e.inputs@[j] as int, j),
                    #[trigger] op_backward_spec(e.op, datas_es(gb, e.inputs@), gy)[j],
                ),
            ) by {
                if j == 0 {
                    assert(add_contrib(accum_upto(gb, e, e.inputs@[0] as int, 0), gxs[0]) =~= d);
                }
            }
        } else {
            assert(!all_fit(
                add_contrib(
                    accum_upto(gb, e, e.inputs@[1] as int, 1),
                    op_backward_spec(e.op, datas_es(gb, e.inputs@), gy)[1],
                ),
            ));
        }
    }
}

/// Law: squaring a leaf gives data `d * d` elementwise, and backward from the
/// square leaves the leaf's gradient at `2 * d` elementwise while the square
/// keeps its seed gradient of ones. Returns the graph and both handles;
/// `None` exactly when the square or the doubled data overflows `i64`.
pub fn square_leaf_gradient_law(data: Tensor) -> (r: Option<(Graph, Variable, Variable)>)
    requires
        data.wf(),
    ensures
        match r {
            Some(p) => {
                &&& p.0.wf()
                &&& p.1.valid(p.0) && p.2.valid(p.0)
                &&& p.0.nodes@[p.2.id as int].data.es() == seq_mul(data.es(), data.es())
                &&& grad_es(p.0.nodes@[p.1.id as int]) == Some(doubled(data.es()))
                &&& grad_es(p.0.nodes@[p.2.id as int]) == Some(ones_seq(data.es().len()))
            },
            None => !(all_fit(seq_mul(data.es(), data.es())) && all_fit(doubled(data.es()))),
        },
{
    let ghost d = data.es();
    let mut g = Graph::new();
    let x = Variable::from_tensor(&mut g, data);
    let y = match crate::function::square(&mut g, x) {
        Some(y) => y,
        None => {
            return None;
        },
    };
    let ghost gb = g;
    proof {
        lemma_one_edge_square(gb, 0, x, y);
    }
    let ok = y.backward(&mut g);
    if !ok {
        proof {
            assert(!all_fit(doubled(d)));
        }
        return None;
    }
    proof {
        assert(grad_es(g.nodes@[x.id as int]) == one_edge_grad(gb, gb.edges@[0], x.id as int));
        assert(grad_es(g.nodes@[y.id as int]) == Some(gy_es_of(gb.nodes@[y.id as int])));
        assert(g.nodes@[y.id as int].data == gb.nodes@[y.id as int].data);
    }
    Some((g, x, y))
}

/// Law (accumulation under fan-in): a leaf consumed by both slots of one
/// product receives the sum of the two path-local gradients — each `d`
/// against a seed of ones — so its gradient is `d + d`, never one
/// contribution overwriting the other. (The analogous claim for a vertex
/// consumed by two separate edges is exercised by tests; the backward
/// contract does not yet pin it.)
pub fn fanin_accumulation_law(data: Tensor) -> (r: Option<(Graph, Variable, Variable)>)
    requires
        data.wf(),
    ensures
        match r {
            Some(p) => {
                &&& p.0.wf()
                &&& p.1.valid(p.0) && p.2.valid(p.0)
                &&& p.0.nodes@[p.2.id as int].data.es() == seq_mul(data.es(), data.es())
                &&& grad_es(p.0.nodes@[p.1.id as int]) == Some(seq_add(data.es(), data.es()))
            },
            None => !(all_fit(seq_mul(data.es(), data.es())) && all_fit(
                seq_add(data.es(), data.es()),
            )),
        },
{
    let ghost d = data.es();
    let mut g = Graph::new();
    let x = Variable::from_tensor(&mut g, data);
    let y = match crate::engine::mul(&mut g, x, x) {
        Some(y) => y,
        None => {
            return None;
        },
    };
    let ghost gb = g;
    proof {
        lemma_one_edge_mul_same(gb, 0, x, y);
    }
    let ok = y.backward(&mut g);
    if !ok {
        proof {
            assert(!all_fit(seq_add(d, d)));
        }
        return None;
    }
    proof {
        assert(grad_es(g.nodes@[x.id as int]) == one_edge_grad(gb, gb.edges@[0], x.id as int));
        assert(g.nodes@[y.id as int].data == gb.nodes@[y.id as int].data);
    }
    Some((g, x, y))
}

/// Law (idempotent reseeding): running backward over a squared leaf, clearing
/// both gradients, and running backward again reproduces the same leaf
/// gradient — no residual state. Returns both runs' leaf gradients, which are
/// equal and both hold twice the data; `None` exactly when the square or the
/// doubled data overflows `i64`.
pub fn reseed_idempotence_law(data: Tensor) -> (r: Option<(Vec<i64>, Vec<i64>)>)
    requires
        data.wf(),
    ensures
        match r {
            Some(p) => p.0@ == p.1@ && to_ints(p.0@) == doubled(data.es()) && to_ints(p.1@)
                == doubled(data.es()),
            None => !(all_fit(seq_mul(data.es(), data.es())) && all_fit(doubled(data.es()))),
        },
{
    let ghost d = data.es();
    let mut g = Graph::new();
    let x = Variable::from_tensor(&mut g, data);
    let y = match crate::function::square(&mut g, x) {
        Some(y) => y,
        None => {
            return None;
        },
    };
    let ghost gb = g;
    proof {
        lemma_one_edge_square(gb, 0, x, y);
    }
    let ok1 = y.backward(&mut g);
    if !ok1 {
        proof {
            assert(!all_fit(doubled(d)));
        }
        return None;
    }
    let first = match x.grad_elems(&g) {
        Some(v) => v,
        None => {
            proof {
                assert(grad_es(g.nodes@[x.id as int]) == one_edge_grad(
                    gb,
                    gb.edges@[0],
                    x.id as int,
                ));
                assert(false);
            }
            return None;
        },
    };
    proof {
        assert(to_ints(first@) == doubled(d));
    }
    x.cleargrad(&mut g);
    y.cleargrad(&mut g);
    let ghost gb2 = g;
    proof {
        assert(gb2.nodes@[x.id as int].data == gb.nodes@[x.id as int].data);
        assert(gb2.nodes@[x.id as int].creator == gb.nodes@[x.id as int].creator);
        assert(gb2.edges@ == gb.edges@);
        lemma_one_edge_square(gb2, 0, x, y);
        assert(gb2.nodes@[x.id as int].data.es() == d);
    }
    let ok2 = y.backward(&mut g);
    if !ok2 {
        proof {
            assert(all_fit(doubled(d)));
            assert(!all_fit(doubled(gb2.nodes@[x.id as int].data.es())));
        }
        return None;
    }
    let second = match x.grad_elems(&g) {
        Some(v) => v,
        None => {
            proof {
                assert(grad_es(g.nodes@[x.id as int]) == one_edge_grad(
                    gb2,
                    gb2.edges@[0],
                    x.id as int,
                ));
                assert(false);
            }
            return None;
        },
    };
    proof {
        assert(to_ints(second@) == doubled(d));
        assert(first@ =~= second@) by {
            assert forall|i: int| 0 <= i < first@.len() implies first@[i] == second@[i] by {
                assert(to_ints(first@)[i] == to_ints(second@)[i]);
            }
            assert(first@.len() == to_ints(first@).len());
            assert(second@.len() == to_ints(second@).len());
        }
    }
    Some((first, second))
}

/// Law (generation bookkeeping): in a well-formed graph, every edge's
/// generation is the largest generation among its inputs, and its output's
/// generation is exactly one more.
pub proof fn generation_law(g: Graph, k: int)
    requires
        g.wf(),
        0 <= k < g.edges@.len(),
    ensures
        g.edges@[k].generation == max_generation(gens_of(g, g.edges@[k].inputs@)),
        g.nodes@[g.edges@[k].outputs@[0] as int].generation == g.edges@[k].generation + 1,
{
    assert(edge_wf(g, k));
}

} // verus!
