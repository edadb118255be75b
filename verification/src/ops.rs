use vstd::prelude::*;
use crate::tensor::Tensor;
use crate::tensor::all_fit;
use crate::tensor::fits_i64;
use crate::tensor::seq_add;
use crate::tensor::seq_mul;
use crate::tensor::seq_neg;
use crate::tensor::seq_sub;
use crate::tensor::to_ints;
use crate::tensor::checked_add;
use crate::tensor::checked_mul;
use crate::tensor::checked_neg;

verus! {

/// One differentiable elementwise operation. Each variant implements the
/// operation contract: a forward value rule (`op_forward_spec`, computed by
/// `op_forward`) and a local-derivative rule (`op_backward_spec`, computed by
/// `op_backward`).
///
/// The operation set is closed: dispatch through a type-erased handle cannot
/// be verified, so a new operation is added here as a variant together with
/// its two rules, not as an outside implementation of an open trait. Every
/// operation takes inputs of one shared shape (no broadcasting) and produces
/// a single output of that shape.
#[derive(Clone, Copy, Debug)]
pub enum Op {
    Add,
    Sub,
    Mul,
    Neg,
    Square,
}

impl Op {
    /// Number of input tensors the operation consumes; it produces one output.
    pub open spec fn arity(self) -> nat {
        match self {
            Op::Add => 2,
            Op::Sub => 2,
            Op::Mul => 2,
            Op::Neg => 1,
            Op::Square => 1,
        }
    }

    /// Runtime arity.
    pub fn arity_exec(self) -> (n: usize)
        ensures
            n == self.arity(),
    {
        match self {
            Op::Add => 2,
            Op::Sub => 2,
            Op::Mul => 2,
            Op::Neg => 1,
            Op::Square => 1,
        }
    }
}

/// The element sequences of a sequence of tensors.
pub open spec fn es_of(xs: Seq<Tensor>) -> Seq<Seq<int>> {
    xs.map_values(|t: Tensor| t.es())
}

/// Forward value rule: the elements of the single output, as exact integers.
pub open spec fn op_forward_spec(op: Op, xs: Seq<Seq<int>>) -> Seq<int> {
    match op {
        Op::Add => seq_add(xs[0], xs[1]),
        Op::Sub => seq_sub(xs[0], xs[1]),
        Op::Mul => seq_mul(xs[0], xs[1]),
        Op::Neg => seq_neg(xs[0]),
        Op::Square => seq_mul(xs[0], xs[0]),
    }
}

/// Local derivative rule (Jacobian-vector product): the gradient handed to
/// each input, given the inputs and the upstream gradient `gy` of the output.
pub open spec fn op_backward_spec(op: Op, xs: Seq<Seq<int>>, gy: Seq<int>) -> Seq<Seq<int>> {
    match op {
        Op::Add => seq![gy, gy],
        Op::Sub => seq![gy, seq_neg(gy)],
        Op::Mul => seq![seq_mul(gy, xs[1]), seq_mul(gy, xs[0])],
        Op::Neg => seq![seq_neg(gy)],
        Op::Square => seq![seq_add(seq_mul(xs[0], gy), seq_mul(xs[0], gy))],
    }
}

/// Whether every gradient the local derivative rule produces fits in `i64`.
pub open spec fn backward_fits(op: Op, xs: Seq<Seq<int>>, gy: Seq<int>) -> bool {
    forall|k: int|
        0 <= k < op_backward_spec(op, xs, gy).len() ==> all_fit(
            #[trigger] op_backward_spec(op, xs, gy)[k],
        )
}

/// Every `i64` value fits, so a sequence read off a tensor always fits.
proof fn lemma_ints_fit(s: Seq<i64>)
    ensures
        all_fit(to_ints(s)),
{
    assert forall|i: int| 0 <= i < to_ints(s).len() implies fits_i64(to_ints(s)[i]) by {
        assert(to_ints(s)[i] == s[i] as int);
    }
}

/// If the doubled sequence fits, so does the sequence itself.
proof fn lemma_double_fit(m: Seq<int>)
    ensures
        all_fit(seq_add(m, m)) ==> all_fit(m),
{
    if all_fit(seq_add(m, m)) {
        assert forall|i: int| 0 <= i < m.len() implies fits_i64(m[i]) by {
            assert(fits_i64(seq_add(m, m)[i]));
            assert(seq_add(m, m)[i] == m[i] + m[i]);
        }
    }
}

/// Compute the forward value; `None` exactly when some output entry overflows
/// `i64`. Pure: no graph side effects.
pub fn op_forward(op: Op, xs: &Vec<Tensor>) -> (r: Option<Tensor>)
    requires
        xs@.len() == op.arity(),
        forall|j: int| 0 <= j < xs@.len() ==> (#[trigger] xs@[j]).shape@ == xs@[0].shape@,
        forall|j: int| 0 <= j < xs@.len() ==> (#[trigger] xs@[j]).es().len() == xs@[0].es().len(),
    ensures
        match r {
            Some(t) => all_fit(op_forward_spec(op, es_of(xs@))) && t.shape@ == xs@[0].shape@
                && t.es() == op_forward_spec(op, es_of(xs@)) && t.es().len() == xs@[0].es().len(),
            None => !all_fit(op_forward_spec(op, es_of(xs@))),
        },
{
    proof {
        assert(es_of(xs@)[0] == xs@[0].es());
        if xs@.len() > 1 {
            assert(es_of(xs@)[1] == xs@[1].es());
        }
    }
    match op {
        Op::Add => checked_add(&xs[0], &xs[1]),
        Op::Sub => crate::tensor::checked_sub(&xs[0], &xs[1]),
        Op::Mul => checked_mul(&xs[0], &xs[1]),
        Op::Neg => checked_neg(&xs[0]),
        Op::Square => checked_mul(&xs[0], &xs[0]),
    }
}

/// Compute the local gradients; `None` exactly when some gradient entry
/// overflows `i64`. Output `j` has the shape of input `j`.
pub fn op_backward(op: Op, xs: &Vec<Tensor>, gy: &Tensor) -> (r: Option<Vec<Tensor>>)
    requires
        xs@.len() == op.arity(),
        forall|j: int| 0 <= j < xs@.len() ==> (#[trigger] xs@[j]).shape@ == gy.shape@,
        forall|j: int| 0 <= j < xs@.len() ==> (#[trigger] xs@[j]).es().len() == gy.es().len(),
    ensures
        match r {
            Some(gxs) => {
                &&& backward_fits(op, es_of(xs@), gy.es())
                &&& gxs@.len() == xs@.len()
                &&& forall|j: int|
                    0 <= j < gxs@.len() ==> (#[trigger] gxs@[j]).es() == op_backward_spec(
                        op,
                        es_of(xs@),
                        gy.es(),
                    )[j] && gxs@[j].shape@ == xs@[j].shape@ && gxs@[j].es().len()
                        == gy.es().len()
            },
            None => !backward_fits(op, es_of(xs@), gy.es()),
        },
{
    proof {
        assert(es_of(xs@)[0] == xs@[0].es());
        if xs@.len() > 1 {
            assert(es_of(xs@)[1] == xs@[1].es());
        }
        lemma_ints_fit(gy.elems@);
    }
    match op {
        Op::Add => {
            let mut gxs: Vec<Tensor> = Vec::new();
            gxs.push(gy.dup());
            gxs.push(gy.dup());
            Some(gxs)
        },
        Op::Sub => {
            let g0 = gy.dup();
            match checked_neg(gy) {
                Some(g1) => {
                    let mut gxs: Vec<Tensor> = Vec::new();
                    gxs.push(g0);
                    gxs.push(g1);
                    Some(gxs)
                },
                None => {
                    proof {
                        assert(!all_fit(op_backward_spec(op, es_of(xs@), gy.es())[1]));
                    }
                    None
                },
            }
        },
        Op::Mul => {
            match checked_mul(gy, &xs[1]) {
                Some(g0) => {
                    match checked_mul(gy, &xs[0]) {
                        Some(g1) => {
                            let mut gxs: Vec<Tensor> = Vec::new();
                            gxs.push(g0);
                            gxs.push(g1);
                            proof {
                                assert(gxs@[0].shape@ == xs@[0].shape@);
                            }
                            Some(gxs)
                        },
                        None => {
                            proof {
                                assert(!all_fit(op_backward_spec(op, es_of(xs@), gy.es())[1]));
                            }
                            None
                        },
                    }
                },
                None => {
                    proof {
                        assert(!all_fit(op_backward_spec(op, es_of(xs@), gy.es())[0]));
                    }
                    None
                },
            }
        },
        Op::Neg => {
            match checked_neg(gy) {
                Some(g0) => {
                    let mut gxs: Vec<Tensor> = Vec::new();
                    gxs.push(g0);
                    Some(gxs)
                },
                None => {
                    proof {
                        assert(!all_fit(op_backward_spec(op, es_of(xs@), gy.es())[0]));
                    }
                    None
                },
            }
        },
        Op::Square => {
            proof {
                lemma_double_fit(seq_mul(xs@[0].es(), gy.es()));
            }
            match checked_mul(&xs[0], gy) {
                Some(m) => {
                    match checked_add(&m, &m) {
                        Some(s) => {
                            let mut gxs: Vec<Tensor> = Vec::new();
                            gxs.push(s);
                            proof {
                                assert(gxs@[0].shape@ == xs@[0].shape@);
                            }
                            Some(gxs)
                        },
                        None => {
                            proof {
                                assert(!all_fit(op_backward_spec(op, es_of(xs@), gy.es())[0]));
                            }
                            None
                        },
                    }
                },
                None => {
                    proof {
                        assert(!all_fit(seq_mul(xs@[0].es(), gy.es())));
                        assert(!all_fit(op_backward_spec(op, es_of(xs@), gy.es())[0]));
                    }
                    None
                },
            }
        },
    }
}

} // verus!
