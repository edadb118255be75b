use vstd::prelude::*;
use crate::engine::Graph;
use crate::engine::Variable;
use crate::engine::apply_single;
use crate::engine::single_applied;
use crate::ops::Op;
use crate::tensor::all_fit;
use crate::tensor::seq_mul;

verus! {

/// Elementwise square, an implementation of the operation contract.
pub struct Square;

impl Square {
    /// Apply the square operation to a vertex through the graph.
    pub fn call(&self, g: &mut Graph, x: Variable) -> (r: Option<Variable>)
        requires
            old(g).wf(),
            x.valid(*old(g)),
        ensures
            match r {
                None => final(g).nodes@ == old(g).nodes@ && final(g).edges@ == old(g).edges@
                    && !all_fit(
                    seq_mul(old(g).nodes@[x.id as int].data.es(), old(g).nodes@[x.id as int].data.es()),
                ),
                Some(v) => single_applied(*old(g), *final(g), Op::Square, x, v)
                    && final(g).nodes@[v.id as int].data.es() == seq_mul(
                    old(g).nodes@[x.id as int].data.es(),
                    old(g).nodes@[x.id as int].data.es(),
                ),
            },
    {
        square(g, x)
    }
}

/// Square a vertex elementwise, wired into the graph.
pub fn square(g: &mut Graph, x: Variable) -> (r: Option<Variable>)
    requires
        old(g).wf(),
        x.valid(*old(g)),
    ensures
        match r {
            None => final(g).nodes@ == old(g).nodes@ && final(g).edges@ == old(g).edges@
                && !all_fit(
                seq_mul(old(g).nodes@[x.id as int].data.es(), old(g).nodes@[x.id as int].data.es()),
            ),
            Some(v) => single_applied(*old(g), *final(g), Op::Square, x, v) && final(g).nodes@[v.id
                as int].data.es() == seq_mul(
                old(g).nodes@[x.id as int].data.es(),
                old(g).nodes@[x.id as int].data.es(),
            ),
        },
{
    apply_single(g, Op::Square, x)
}

} // verus!
