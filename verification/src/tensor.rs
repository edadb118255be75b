use vstd::prelude::*;

verus! {

/// Number of elements that a shape (a sequence of axis lengths) describes:
/// the product of the axis lengths, 1 for the empty (scalar) shape.
pub open spec fn shape_product(s: Seq<usize>) -> nat
    decreases s.len(),
{
    if s.len() == 0 {
        1
    } else {
        shape_product(s.drop_last()) * (s.last() as nat)
    }
}

/// Product of the non-zero axis lengths of a shape. A zero axis makes the
/// array empty, but the dense-array library still bounds the product of the
/// remaining axes, so this — not `shape_product` — is the size that must stay
/// within the library's limit.
pub open spec fn nz_product(s: Seq<usize>) -> nat
    decreases s.len(),
{
    if s.len() == 0 {
        1
    } else {
        nz_product(s.drop_last()) * (if s.last() == 0 {
            1nat
        } else {
            s.last() as nat
        })
    }
}

/// Whether a mathematical integer is representable as an `i64`.
pub open spec fn fits_i64(x: int) -> bool {
    i64::MIN <= x <= i64::MAX
}

/// Whether every entry of a sequence is representable as an `i64`.
pub open spec fn all_fit(s: Seq<int>) -> bool {
    forall|i: int| 0 <= i < s.len() ==> fits_i64(s[i])
}

/// Elementwise sum of two equally long sequences.
pub open spec fn seq_add(a: Seq<int>, b: Seq<int>) -> Seq<int> {
    Seq::new(a.len(), |i: int| a[i] + b[i])
}

/// Elementwise difference of two equally long sequences.
pub open spec fn seq_sub(a: Seq<int>, b: Seq<int>) -> Seq<int> {
    Seq::new(a.len(), |i: int| a[i] - b[i])
}

/// Elementwise product of two equally long sequences.
pub open spec fn seq_mul(a: Seq<int>, b: Seq<int>) -> Seq<int> {
    Seq::new(a.len(), |i: int| a[i] * b[i])
}

/// Elementwise negation of a sequence.
pub open spec fn seq_neg(a: Seq<int>) -> Seq<int> {
    Seq::new(a.len(), |i: int| -a[i])
}

/// A sequence of `n` ones, the seed gradient `d(y)/d(y) = 1`.
pub open spec fn ones_seq(n: nat) -> Seq<int> {
    Seq::new(n, |i: int| 1)
}

/// The entries of an `i64` sequence as mathematical integers.
pub open spec fn to_ints(s: Seq<i64>) -> Seq<int> {
    s.map_values(|x: i64| x as int)
}

/// A dense tensor: axis lengths and the elements in standard (row-major) order.
pub struct Tensor {
    pub shape: Vec<usize>,
    pub elems: Vec<i64>,
}

impl Tensor {
    /// The axis lengths.
    pub open spec fn sh(&self) -> Seq<usize> {
        self.shape@
    }

    /// The elements, as mathematical integers.
    pub open spec fn es(&self) -> Seq<int> {
        to_ints(self.elems@)
    }

    /// Shape invariant: the element count matches the shape, and the shape
    /// stays within the dense-array library's size limit.
    pub open spec fn wf(&self) -> bool {
        &&& self.elems@.len() == shape_product(self.shape@)
        &&& nz_product(self.shape@) <= isize::MAX as int
    }

    /// A one-dimensional tensor holding the given elements.
    pub fn from_vec(elems: Vec<i64>) -> (t: Tensor)
        requires
            elems@.len() <= isize::MAX as int,
        ensures
            t.wf(),
            t.sh() == seq![elems@.len() as usize],
            t.es() == to_ints(elems@),
    {
        let n: usize = elems.len();
        let mut shape: Vec<usize> = Vec::new();
        shape.push(n);
        let t = Tensor { shape, elems };
        proof {
            assert(t.shape@ =~= seq![n]);
            assert(seq![n].drop_last() =~= Seq::<usize>::empty());
            assert(shape_product(Seq::<usize>::empty()) == 1);
            assert(nz_product(Seq::<usize>::empty()) == 1);
            assert(seq![n].last() == n);
            assert(shape_product(seq![n]) == shape_product(seq![n].drop_last()) * (seq![n].last()
                as nat));
            assert(nz_product(seq![n]) == nz_product(seq![n].drop_last()) * (if seq![n].last()
                == 0 {
                1nat
            } else {
                seq![n].last() as nat
            }));
            assert(t.sh() =~= seq![n]);
        }
        t
    }

    /// An independent copy.
    pub fn dup(&self) -> (r: Tensor)
        ensures
            r.shape@ == self.shape@,
            r.elems@ == self.elems@,
            r.sh() == self.sh(),
            r.es() == self.es(),
            r.wf() == self.wf(),
    {
        Tensor { shape: copy_usizes(&self.shape), elems: copy_i64s(&self.elems) }
    }

    /// A tensor of ones with the same shape: the seed gradient for this tensor.
    pub fn ones_like(&self) -> (r: Tensor)
        ensures
            r.shape@ == self.shape@,
            r.es() == ones_seq(self.es().len()),
            r.es().len() == self.es().len(),
            r.wf() == self.wf(),
    {
        let n: usize = self.elems.len();
        let mut out: Vec<i64> = Vec::new();
        let mut i: usize = 0;
        while i < n
            invariant
                i <= n,
                out@.len() == i,
                forall|k: int| 0 <= k < i ==> out@[k] == 1i64,
            decreases n - i,
        {
            out.push(1i64);
            i = i + 1;
        }
        let r = Tensor { shape: copy_usizes(&self.shape), elems: out };
        proof {
            assert(r.es() =~= ones_seq(self.es().len()));
        }
        r
    }
}

/// Copy of a `usize` vector.
fn copy_usizes(v: &Vec<usize>) -> (r: Vec<usize>)
    ensures
        r@ == v@,
{
    let mut r: Vec<usize> = Vec::new();
    let mut i: usize = 0;
    while i < v.len()
        invariant
            i <= v@.len(),
            r@ =~= v@.take(i as int),
        decreases v@.len() - i,
    {
        r.push(v[i]);
        i = i + 1;
    }
    proof {
        assert(r@ =~= v@);
    }
    r
}

/// Copy of an `i64` vector.
pub(crate) fn copy_i64s(v: &Vec<i64>) -> (r: Vec<i64>)
    ensures
        r@ == v@,
{
    let mut r: Vec<i64> = Vec::new();
    let mut i: usize = 0;
    while i < v.len()
        invariant
            i <= v@.len(),
            r@ =~= v@.take(i as int),
        decreases v@.len() - i,
    {
        r.push(v[i]);
        i = i + 1;
    }
    proof {
        assert(r@ =~= v@);
    }
    r
}

/// Elementwise checked sum; `None` exactly when some entry overflows `i64`.
pub fn checked_add(a: &Tensor, b: &Tensor) -> (r: Option<Tensor>)
    requires
        a.es().len() == b.es().len(),
    ensures
        match r {
            Some(t) => all_fit(seq_add(a.es(), b.es())) && t.shape@ == a.shape@ && t.es()
                == seq_add(a.es(), b.es()),
            None => !all_fit(seq_add(a.es(), b.es())),
        },
{
    let n: usize = a.elems.len();
    let mut out: Vec<i64> = Vec::new();
    let mut i: usize = 0;
    while i < n
        invariant
            n == a.elems@.len(),
            a.es().len() == b.es().len(),
            i <= n,
            out@.len() == i,
            forall|k: int| 0 <= k < i ==> out@[k] as int == seq_add(a.es(), b.es())[k],
        decreases n - i,
    {
        let s: i128 = a.elems[i] as i128 + b.elems[i] as i128;
        if s < i64::MIN as i128 || s > i64::MAX as i128 {
            proof {
                assert(!fits_i64(seq_add(a.es(), b.es())[i as int]));
            }
            return None;
        }
        out.push(s as i64);
        i = i + 1;
    }
    let t = Tensor { shape: copy_usizes(&a.shape), elems: out };
    proof {
        assert(t.es() =~= seq_add(a.es(), b.es()));
    }
    Some(t)
}

/// Elementwise checked difference; `None` exactly when some entry overflows `i64`.
pub fn checked_sub(a: &Tensor, b: &Tensor) -> (r: Option<Tensor>)
    requires
        a.es().len() == b.es().len(),
    ensures
        match r {
            Some(t) => all_fit(seq_sub(a.es(), b.es())) && t.shape@ == a.shape@ && t.es()
                == seq_sub(a.es(), b.es()),
            None => !all_fit(seq_sub(a.es(), b.es())),
        },
{
    let n: usize = a.elems.len();
    let mut out: Vec<i64> = Vec::new();
    let mut i: usize = 0;
    while i < n
        invariant
            n == a.elems@.len(),
            a.es().len() == b.es().len(),
            i <= n,
            out@.len() == i,
            forall|k: int| 0 <= k < i ==> out@[k] as int == seq_sub(a.es(), b.es())[k],
        decreases n - i,
    {
        let s: i128 = a.elems[i] as i128 - b.elems[i] as i128;
        if s < i64::MIN as i128 || s > i64::MAX as i128 {
            proof {
                assert(!fits_i64(seq_sub(a.es(), b.es())[i as int]));
            }
            return None;
        }
        out.push(s as i64);
        i = i + 1;
    }
    let t = Tensor { shape: copy_usizes(&a.shape), elems: out };
    proof {
        assert(t.es() =~= seq_sub(a.es(), b.es()));
    }
    Some(t)
}

/// Elementwise checked product; `None` exactly when some entry overflows `i64`.
pub fn checked_mul(a: &Tensor, b: &Tensor) -> (r: Option<Tensor>)
    requires
        a.es().len() == b.es().len(),
    ensures
        match r {
            Some(t) => all_fit(seq_mul(a.es(), b.es())) && t.shape@ == a.shape@ && t.es()
                == seq_mul(a.es(), b.es()),
            None => !all_fit(seq_mul(a.es(), b.es())),
        },
{
    let n: usize = a.elems.len();
    let mut out: Vec<i64> = Vec::new();
    let mut i: usize = 0;
    while i < n
        invariant
            n == a.elems@.len(),
            a.es().len() == b.es().len(),
            i <= n,
            out@.len() == i,
            forall|k: int| 0 <= k < i ==> out@[k] as int == seq_mul(a.es(), b.es())[k],
        decreases n - i,
    {
        let x: i64 = a.elems[i];
        let y: i64 = b.elems[i];
        proof {
            let xi: int = x as int;
            let yi: int = y as int;
            assert(-0x40000000000000000000000000000000 <= xi * yi <= 0x40000000000000000000000000000000)
                by (nonlinear_arith)
                requires
                    -0x8000000000000000 <= xi <= 0x8000000000000000,
                    -0x8000000000000000 <= yi <= 0x8000000000000000,
            ;
        }
        let s: i128 = x as i128 * y as i128;
        if s < i64::MIN as i128 || s > i64::MAX as i128 {
            proof {
                assert(!fits_i64(seq_mul(a.es(), b.es())[i as int]));
            }
            return None;
        }
        out.push(s as i64);
        i = i + 1;
    }
    let t = Tensor { shape: copy_usizes(&a.shape), elems: out };
    proof {
        assert(t.es() =~= seq_mul(a.es(), b.es()));
    }
    Some(t)
}

/// Elementwise checked negation; `None` exactly when some entry overflows `i64`.
pub fn checked_neg(a: &Tensor) -> (r: Option<Tensor>)
    ensures
        match r {
            Some(t) => all_fit(seq_neg(a.es())) && t.shape@ == a.shape@ && t.es() == seq_neg(
                a.es(),
            ),
            None => !all_fit(seq_neg(a.es())),
        },
{
    let n: usize = a.elems.len();
    let mut out: Vec<i64> = Vec::new();
    let mut i: usize = 0;
    while i < n
        invariant
            n == a.elems@.len(),
            i <= n,
            out@.len() == i,
            forall|k: int| 0 <= k < i ==> out@[k] as int == seq_neg(a.es())[k],
        decreases n - i,
    {
        let s: i128 = -(a.elems[i] as i128);
        if s < i64::MIN as i128 || s > i64::MAX as i128 {
            proof {
                assert(!fits_i64(seq_neg(a.es())[i as int]));
            }
            return None;
        }
        out.push(s as i64);
        i = i + 1;
    }
    let t = Tensor { shape: copy_usizes(&a.shape), elems: out };
    proof {
        assert(t.es() =~= seq_neg(a.es()));
    }
    Some(t)
}

} // verus!
