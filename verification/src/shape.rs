//! Symbolic shape and view metadata for a tensor.
//!
//! A `ShapeTracker` describes how logical indices of a tensor view map
//! onto an underlying linear buffer, without moving data.  Per logical
//! axis it records the symbolic dimension, whether the axis is a
//! broadcast (`fake`) axis without storage, a slice window (`mask`) and
//! a zero padding.  `indexes` remembers, for every logical axis, which
//! physical slot of the buffer it occupies; the view is contiguous
//! exactly when that permutation is the identity and no mask or
//! padding differs from the default.

use vstd::prelude::*;

use crate::expr::Expr;

verus! {

/// Everything the tracker knows about one logical axis.
pub struct AxisView {
    /// Symbolic size of the axis.
    pub dim: Expr,
    /// A fake axis repeats the same elements instead of reading new ones.
    pub fake: bool,
    /// Slice window `(lower, upper)`; reads outside it are invalid.
    pub mask: (Expr, Expr),
    /// Zero padding `(before, after)`; reads inside it yield zero.
    pub padding: (Expr, Expr),
}

/// The axis a freshly created tracker has for dimension `d`.
pub open spec fn default_axis(d: Expr) -> AxisView {
    AxisView { dim: d, fake: false, mask: (Expr::Num(0), d), padding: (Expr::Num(0), Expr::Num(0)) }
}

/// The axis inserted by `expand`: fake, with default mask and padding.
pub open spec fn fake_axis(d: Expr) -> AxisView {
    AxisView { dim: d, fake: true, mask: (Expr::Num(0), d), padding: (Expr::Num(0), Expr::Num(0)) }
}

/// The logical extent of an axis: its dimension narrowed to the slice
/// window and widened by the padding.  Default mask and padding leave
/// the dimension untouched.
pub open spec fn ext_expr(a: AxisView) -> Expr {
    if a.mask == (Expr::Num(0), a.dim) && a.padding == (Expr::Num(0), Expr::Num(0)) {
        a.dim
    } else {
        Expr::Add(
            Box::new(Expr::Add(Box::new(a.padding.0), Box::new(a.padding.1))),
            Box::new(
                Expr::Sub(
                    Box::new(Expr::Min(Box::new(a.mask.1), Box::new(a.dim))),
                    Box::new(a.mask.0),
                ),
            ),
        )
    }
}

/// Whether some entry of `s` equals `p`.
pub open spec fn contains_slot(s: Seq<usize>, p: int) -> bool {
    exists|i: int| 0 <= i < s.len() && #[trigger] s[i] == p
}

/// Symbolic shape and view metadata of one tensor view.
///
/// The five vectors all have one entry per logical axis, in logical
/// (post-permute) order; `indexes[k]` is the physical slot of logical
/// axis `k` and is a permutation of `0..rank`.
pub struct ShapeTracker {
    /// Symbolic dimension of each logical axis.
    pub dims: Vec<Expr>,
    /// Physical slot of each logical axis.
    pub indexes: Vec<usize>,
    /// Broadcast flag of each logical axis.
    pub fake: Vec<bool>,
    /// Slice window of each logical axis.
    pub mask: Vec<(Expr, Expr)>,
    /// Zero padding of each logical axis.
    pub padding: Vec<(Expr, Expr)>,
}

impl ShapeTracker {
    /// Number of logical axes.
    pub open spec fn rank(self) -> nat {
        self.dims@.len()
    }

    /// The view's record for logical axis `k`.
    pub open spec fn axis(self, k: int) -> AxisView {
        AxisView {
            dim: self.dims@[k],
            fake: self.fake@[k],
            mask: self.mask@[k],
            padding: self.padding@[k],
        }
    }

    /// The per-axis records in logical order.
    pub open spec fn lview(self) -> Seq<AxisView> {
        Seq::new(self.rank(), |k: int| self.axis(k))
    }

    /// Well-formedness: the five vectors agree in length and `indexes`
    /// is a permutation of the physical slots.
    pub open spec fn wf(self) -> bool {
        &&& self.indexes@.len() == self.dims@.len()
        &&& self.fake@.len() == self.dims@.len()
        &&& self.mask@.len() == self.dims@.len()
        &&& self.padding@.len() == self.dims@.len()
        &&& forall|i: int|
            0 <= i < self.indexes@.len() ==> #[trigger] self.indexes@[i] < self.indexes@.len()
        &&& forall|i: int, j: int|
            0 <= i < j < self.indexes@.len() ==> #[trigger] self.indexes@[i]
                != #[trigger] self.indexes@[j]
        &&& forall|p: int|
            0 <= p < self.indexes@.len() ==> #[trigger] contains_slot(self.indexes@, p)
    }

    /// Some axis is sliced: its mask differs from the full window.
    pub open spec fn is_sliced_spec(self) -> bool {
        exists|k: int|
            0 <= k < self.rank() && #[trigger] self.mask@[k] != (Expr::Num(0), self.dims@[k])
    }

    /// Some axis is padded: its padding is nonzero on a side.
    pub open spec fn is_padded_spec(self) -> bool {
        exists|k: int|
            0 <= k < self.rank() && #[trigger] self.padding@[k] != (
                Expr::Num(0),
                Expr::Num(0),
            )
    }

    /// Contiguous: identity permutation, no slice, no padding.
    pub open spec fn is_contiguous_spec(self) -> bool {
        &&& forall|i: int| 0 <= i < self.indexes@.len() ==> #[trigger] self.indexes@[i] == i
        &&& !self.is_sliced_spec()
        &&& !self.is_padded_spec()
    }

    /// A fresh tracker over `dims`: identity permutation, nothing
    /// fake, default mask and padding everywhere.
    pub fn new(dims: Vec<Expr>) -> (r: ShapeTracker)
        ensures
            r.wf(),
            r.rank() == dims@.len(),
            forall|k: int| 0 <= k < dims@.len() ==> #[trigger] r.lview()[k] == default_axis(
                dims@[k],
            ),
            forall|i: int| 0 <= i < dims@.len() ==> #[trigger] r.indexes@[i] == i,
            r.is_contiguous_spec(),
    {
        let n = dims.len();
        let mut indexes: Vec<usize> = Vec::new();
        let mut fake: Vec<bool> = Vec::new();
        let mut mask: Vec<(Expr, Expr)> = Vec::new();
        let mut padding: Vec<(Expr, Expr)> = Vec::new();
        let mut i: usize = 0;
        while i < n
            invariant
                i <= n,
                n == dims@.len(),
                indexes@.len() == i,
                fake@.len() == i,
                mask@.len() == i,
                padding@.len() == i,
                forall|j: int| 0 <= j < i ==> #[trigger] indexes@[j] == j,
                forall|j: int| 0 <= j < i ==> #[trigger] fake@[j] == false,
                forall|j: int| 0 <= j < i ==> #[trigger] mask@[j] == (Expr::Num(0), dims@[j]),
                forall|j: int| 0 <= j < i ==> #[trigger] padding@[j] == (
                    Expr::Num(0),
                    Expr::Num(0),
                ),
            decreases n - i,
        {
            indexes.push(i);
            fake.push(false);
            mask.push((Expr::Num(0), dims[i].clone()));
            padding.push((Expr::Num(0), Expr::Num(0)));
            i = i + 1;
        }
        let r = ShapeTracker { dims, indexes, fake, mask, padding };
        proof {
            assert forall|p: int| 0 <= p < r.indexes@.len() implies #[trigger] contains_slot(
                r.indexes@,
                p,
            ) by {
                assert(r.indexes@[p] == p);
            }
        }
        r
    }

    /// Number of logical axes.
    pub fn len(&self) -> (r: usize)
        ensures
            r == self.rank(),
    {
        self.dims.len()
    }

    /// The logical extent of every axis, as symbolic expressions.
    pub fn shape(&self) -> (r: Vec<Expr>)
        requires
            self.wf(),
        ensures
            r@.len() == self.rank(),
            forall|k: int| 0 <= k < self.rank() ==> #[trigger] r@[k] == ext_expr(
                self.lview()[k],
            ),
    {
        let n = self.dims.len();
        let mut out: Vec<Expr> = Vec::new();
        let mut k: usize = 0;
        while k < n
            invariant
                k <= n,
                self.wf(),
                n == self.dims@.len(),
                out@.len() == k,
                forall|j: int| 0 <= j < k ==> #[trigger] out@[j] == ext_expr(self.lview()[j]),
            decreases n - k,
        {
            let zero = Expr::Num(0);
            let default_mask = self.mask[k].0.eq_expr(&zero) && self.mask[k].1.eq_expr(
                &self.dims[k],
            );
            let default_pad = self.padding[k].0.eq_expr(&zero) && self.padding[k].1.eq_expr(&zero);
            if default_mask && default_pad {
                out.push(self.dims[k].clone());
            } else {
                let e = Expr::Add(
                    Box::new(
                        Expr::Add(
                            Box::new(self.padding[k].0.clone()),
                            Box::new(self.padding[k].1.clone()),
                        ),
                    ),
                    Box::new(
                        Expr::Sub(
                            Box::new(
                                Expr::Min(
                                    Box::new(self.mask[k].1.clone()),
                                    Box::new(self.dims[k].clone()),
                                ),
                            ),
                            Box::new(self.mask[k].0.clone()),
                        ),
                    ),
                );
                out.push(e);
            }
            k = k + 1;
        }
        out
    }

    /// Whether any axis is sliced.
    pub fn is_sliced(&self) -> (r: bool)
        requires
            self.wf(),
        ensures
            r == self.is_sliced_spec(),
    {
        let n = self.dims.len();
        let mut k: usize = 0;
        while k < n
            invariant
                k <= n,
                self.wf(),
                n == self.dims@.len(),
                forall|j: int| 0 <= j < k ==> #[trigger] self.mask@[j] == (
                    Expr::Num(0),
                    self.dims@[j],
                ),
            decreases n - k,
        {
            let zero = Expr::Num(0);
            if !(self.mask[k].0.eq_expr(&zero) && self.mask[k].1.eq_expr(&self.dims[k])) {
                return true;
            }
            k = k + 1;
        }
        false
    }

    /// Whether any axis is padded.
    pub fn is_padded(&self) -> (r: bool)
        requires
            self.wf(),
        ensures
            r == self.is_padded_spec(),
    {
        let n = self.dims.len();
        let mut k: usize = 0;
        while k < n
            invariant
                k <= n,
                self.wf(),
                n == self.dims@.len(),
                forall|j: int| 0 <= j < k ==> #[trigger] self.padding@[j] == (
                    Expr::Num(0),
                    Expr::Num(0),
                ),
            decreases n - k,
        {
            let zero = Expr::Num(0);
            if !(self.padding[k].0.eq_expr(&zero) && self.padding[k].1.eq_expr(&zero)) {
                return true;
            }
            k = k + 1;
        }
        false
    }

    /// Whether the view reads the buffer in plain row-major order.
    pub fn is_contiguous(&self) -> (r: bool)
        requires
            self.wf(),
        ensures
            r == self.is_contiguous_spec(),
    {
        let n = self.indexes.len();
        let mut k: usize = 0;
        while k < n
            invariant
                k <= n,
                self.wf(),
                n == self.indexes@.len(),
                forall|j: int| 0 <= j < k ==> #[trigger] self.indexes@[j] == j,
            decreases n - k,
        {
            if self.indexes[k] != k {
                return false;
            }
            k = k + 1;
        }
        !self.is_sliced() && !self.is_padded()
    }

    /// Reorders the logical axes by `axes`, which must be a permutation
    /// of `0..rank`; every axis keeps its mask, padding, flag and
    /// physical slot.
    pub fn permute(&mut self, axes: &Vec<usize>)
        requires
            old(self).wf(),
            axes@.len() == old(self).rank(),
            forall|i: int| 0 <= i < axes@.len() ==> #[trigger] axes@[i] < axes@.len(),
            forall|i: int, j: int|
                0 <= i < j < axes@.len() ==> #[trigger] axes@[i] != #[trigger] axes@[j],
            forall|p: int| 0 <= p < axes@.len() ==> #[trigger] contains_slot(axes@, p),
        ensures
            final(self).wf(),
            final(self).rank() == old(self).rank(),
            forall|k: int| 0 <= k < axes@.len() ==> #[trigger] final(self).lview()[k] == old(self).lview()[axes@[k] as int],
            forall|k: int| 0 <= k < axes@.len() ==> #[trigger] final(self).indexes@[k] == old(self).indexes@[axes@[k] as int],
    {
        let n = axes.len();
        let mut dims: Vec<Expr> = Vec::new();
        let mut indexes: Vec<usize> = Vec::new();
        let mut fake: Vec<bool> = Vec::new();
        let mut mask: Vec<(Expr, Expr)> = Vec::new();
        let mut padding: Vec<(Expr, Expr)> = Vec::new();
        let mut i: usize = 0;
        while i < n
            invariant
                i <= n,
                self.wf(),
                n == axes@.len(),
                n == self.dims@.len(),
                forall|t: int| 0 <= t < n ==> #[trigger] axes@[t] < n,
                dims@.len() == i,
                indexes@.len() == i,
                fake@.len() == i,
                mask@.len() == i,
                padding@.len() == i,
                forall|j: int| 0 <= j < i ==> #[trigger] dims@[j] == self.dims@[axes@[j] as int],
                forall|j: int| 0 <= j < i ==> #[trigger] indexes@[j] == self.indexes@[
                    axes@[j] as int
                ],
                forall|j: int| 0 <= j < i ==> #[trigger] fake@[j] == self.fake@[axes@[j] as int],
                forall|j: int| 0 <= j < i ==> #[trigger] mask@[j] == self.mask@[axes@[j] as int],
                forall|j: int| 0 <= j < i ==> #[trigger] padding@[j] == self.padding@[
                    axes@[j] as int
                ],
            decreases n - i,
        {
            let a = axes[i];
            dims.push(self.dims[a].clone());
            indexes.push(self.indexes[a]);
            fake.push(self.fake[a]);
            mask.push((self.mask[a].0.clone(), self.mask[a].1.clone()));
            padding.push((self.padding[a].0.clone(), self.padding[a].1.clone()));
            i = i + 1;
        }
        proof {
            assert forall|x: int, y: int| 0 <= x < y < n implies #[trigger] indexes@[x]
                != #[trigger] indexes@[y] by {
                assert(axes@[x] != axes@[y]);
            }
            assert forall|p: int| 0 <= p < n implies #[trigger] contains_slot(indexes@, p) by {
                assert(contains_slot(self.indexes@, p));
                let j0 = choose|j0: int| 0 <= j0 < n && #[trigger] self.indexes@[j0] == p;
                assert(contains_slot(axes@, j0));
                let t0 = choose|t0: int| 0 <= t0 < n && #[trigger] axes@[t0] == j0;
                assert(indexes@[t0] == p);
            }
        }
        self.dims = dims;
        self.indexes = indexes;
        self.fake = fake;
        self.mask = mask;
        self.padding = padding;
        proof {
            assert forall|k: int| 0 <= k < axes@.len() implies #[trigger] self.lview()[k] == old(self).lview()[axes@[k] as int] by {
                assert(self.axis(k) == old(self).axis(axes@[k] as int));
            }
        }
    }

    /// Drops logical axis `i`.  Succeeds only when the axis is fake or
    /// a unit axis, as a rewrite pass uses it to undo a broadcast;
    /// otherwise the tracker is left untouched.
    pub fn remove_dim(&mut self, i: usize) -> (ok: bool)
        requires
            old(self).wf(),
            i < old(self).rank(),
        ensures
            ok == (old(self).lview()[i as int].fake || old(self).lview()[i as int].dim
                == Expr::Num(1)),
            ok ==> final(self).wf() && final(self).lview() =~= old(self).lview().remove(i as int),
            ok ==> final(self).rank() == old(self).rank() - 1,
            !ok ==> *final(self) == *old(self),
    {
        let one = Expr::Num(1);
        let ok = self.fake[i] || self.dims[i].eq_expr(&one);
        if !ok {
            return false;
        }
        let p = self.indexes[i];
        self.dims.remove(i);
        self.fake.remove(i);
        self.mask.remove(i);
        self.padding.remove(i);
        self.indexes.remove(i);
        let ghost mid = self.indexes@;
        let n = self.indexes.len();
        let mut j: usize = 0;
        while j < n
            invariant
                j <= n,
                n == self.indexes@.len(),
                mid.len() == n,
                forall|q: int| 0 <= q < mid.len() ==> #[trigger] mid[q] != p && mid[q] < n + 1,
                forall|q: int| 0 <= q < j ==> #[trigger] self.indexes@[q] == (if mid[q] > p {
                    mid[q] - 1
                } else {
                    mid[q] as int
                }),
                forall|q: int| j <= q < n ==> #[trigger] self.indexes@[q] == mid[q],
                self.dims@ == old(self).dims@.remove(i as int),
                self.fake@ == old(self).fake@.remove(i as int),
                self.mask@ == old(self).mask@.remove(i as int),
                self.padding@ == old(self).padding@.remove(i as int),
            decreases n - j,
        {
            let v = self.indexes[j];
            if v > p {
                self.indexes.set(j, v - 1);
            }
            j = j + 1;
        }
        proof {
            let oix = old(self).indexes@;
            assert forall|q: int| 0 <= q < n implies #[trigger] self.indexes@[q] < n by {}
            assert forall|x: int, y: int| 0 <= x < y < n implies #[trigger] self.indexes@[x]
                != #[trigger] self.indexes@[y] by {
                assert(mid[x] != mid[y]);
            }
            assert forall|q: int| 0 <= q < n implies #[trigger] contains_slot(
                self.indexes@,
                q,
            ) by {
                if q < p {
                    assert(contains_slot(oix, q));
                    let t0 = choose|t0: int| 0 <= t0 < n + 1 && #[trigger] oix[t0] == q;
                    let t1 = if t0 < i { t0 } else { t0 - 1 };
                    assert(mid[t1] == q);
                    assert(self.indexes@[t1] == q);
                } else {
                    assert(contains_slot(oix, q + 1));
                    let t0 = choose|t0: int| 0 <= t0 < n + 1 && #[trigger] oix[t0] == q + 1;
                    let t1 = if t0 < i { t0 } else { t0 - 1 };
                    assert(mid[t1] == q + 1);
                    assert(self.indexes@[t1] == q);
                }
            }
            assert(self.lview() =~= old(self).lview().remove(i as int));
        }
        true
    }

    /// Inserts a fake broadcast axis of size `d` at logical position
    /// `i`; it occupies a fresh physical slot past all existing ones.
    pub fn expand(&mut self, i: usize, d: Expr)
        requires
            old(self).wf(),
            i <= old(self).rank(),
        ensures
            final(self).wf(),
            final(self).rank() == old(self).rank() + 1,
            final(self).lview() =~= old(self).lview().insert(i as int, fake_axis(d)),
    {
        let n = self.dims.len();
        self.indexes.insert(i, n);
        self.fake.insert(i, true);
        self.mask.insert(i, (Expr::Num(0), d.clone()));
        self.padding.insert(i, (Expr::Num(0), Expr::Num(0)));
        self.dims.insert(i, d);
        proof {
            let oix = old(self).indexes@;
            assert forall|x: int, y: int| 0 <= x < y < n + 1 implies #[trigger] self.indexes@[x]
                != #[trigger] self.indexes@[y] by {}
            assert forall|p: int| 0 <= p < n + 1 implies #[trigger] contains_slot(
                self.indexes@,
                p,
            ) by {
                if p == n {
                    assert(self.indexes@[i as int] == p);
                } else {
                    assert(contains_slot(oix, p));
                    let t0 = choose|t0: int| 0 <= t0 < n && #[trigger] oix[t0] == p;
                    let t1 = if t0 < i { t0 } else { t0 + 1 };
                    assert(self.indexes@[t1] == p);
                }
            }
            assert(self.lview() =~= old(self).lview().insert(i as int, fake_axis(d)));
        }
    }

    /// Installs the slice window `ranges[k]` on every logical axis `k`.
    pub fn slice(&mut self, ranges: &Vec<(Expr, Expr)>)
        requires
            old(self).wf(),
            ranges@.len() == old(self).rank(),
        ensures
            final(self).wf(),
            final(self).rank() == old(self).rank(),
            final(self).indexes@ == old(self).indexes@,
            forall|k: int| 0 <= k < old(self).rank() ==> #[trigger] final(self).lview()[k]
                == (AxisView { mask: ranges@[k], ..old(self).lview()[k] }),
    {
        let n = self.mask.len();
        let mut k: usize = 0;
        while k < n
            invariant
                k <= n,
                n == self.mask@.len(),
                n == ranges@.len(),
                self.dims@ == old(self).dims@,
                self.indexes@ == old(self).indexes@,
                self.fake@ == old(self).fake@,
                self.padding@ == old(self).padding@,
                self.mask@.len() == old(self).mask@.len(),
                forall|q: int| 0 <= q < k ==> #[trigger] self.mask@[q] == ranges@[q],
                forall|q: int| k <= q < n ==> #[trigger] self.mask@[q] == old(self).mask@[q],
            decreases n - k,
        {
            self.mask.set(k, (ranges[k].0.clone(), ranges[k].1.clone()));
            k = k + 1;
        }
    }

    /// Installs the padding `pads[k]` on every logical axis `k`.
    pub fn pad(&mut self, pads: &Vec<(Expr, Expr)>)
        requires
            old(self).wf(),
            pads@.len() == old(self).rank(),
        ensures
            final(self).wf(),
            final(self).rank() == old(self).rank(),
            final(self).indexes@ == old(self).indexes@,
            forall|k: int| 0 <= k < old(self).rank() ==> #[trigger] final(self).lview()[k]
                == (AxisView { padding: pads@[k], ..old(self).lview()[k] }),
    {
        let n = self.padding.len();
        let mut k: usize = 0;
        while k < n
            invariant
                k <= n,
                n == self.padding@.len(),
                n == pads@.len(),
                self.dims@ == old(self).dims@,
                self.indexes@ == old(self).indexes@,
                self.fake@ == old(self).fake@,
                self.mask@ == old(self).mask@,
                self.padding@.len() == old(self).padding@.len(),
                forall|q: int| 0 <= q < k ==> #[trigger] self.padding@[q] == pads@[q],
                forall|q: int| k <= q < n ==> #[trigger] self.padding@[q] == old(self).padding@[q],
            decreases n - k,
        {
            self.padding.set(k, (pads[k].0.clone(), pads[k].1.clone()));
            k = k + 1;
        }
    }

    /// Replaces the view by a fresh one over `new_dims`.  Legal only on
    /// a contiguous tracker: a caller holding a permuted, sliced or
    /// padded view must materialise it first.
    pub fn reshape(&mut self, new_dims: Vec<Expr>)
        requires
            old(self).wf(),
            old(self).is_contiguous_spec(),
        ensures
            final(self).wf(),
            final(self).rank() == new_dims@.len(),
            forall|k: int| 0 <= k < new_dims@.len() ==> #[trigger] final(self).lview()[k]
                == default_axis(new_dims@[k]),
            final(self).is_contiguous_spec(),
    {
        *self = ShapeTracker::new(new_dims);
    }

    /// A fresh contiguous tracker over this view's logical extents:
    /// what the view looks like after its data is materialised.
    pub fn contiguous(&self) -> (r: ShapeTracker)
        requires
            self.wf(),
        ensures
            r.wf(),
            r.rank() == self.rank(),
            forall|k: int| 0 <= k < self.rank() ==> #[trigger] r.lview()[k] == default_axis(
                ext_expr(self.lview()[k]),
            ),
            r.is_contiguous_spec(),
    {
        ShapeTracker::new(self.shape())
    }
}

impl Clone for ShapeTracker {
    /// A clone has the same view data as the original.
    fn clone(&self) -> (r: ShapeTracker)
        ensures
            r.dims@ == self.dims@,
            r.indexes@ == self.indexes@,
            r.fake@ == self.fake@,
            r.mask@ == self.mask@,
            r.padding@ == self.padding@,
            r.lview() == self.lview(),
    {
        let mut mask: Vec<(Expr, Expr)> = Vec::new();
        let mut padding: Vec<(Expr, Expr)> = Vec::new();
        let n = self.mask.len();
        let mut k: usize = 0;
        while k < n
            invariant
                k <= n,
                n == self.mask@.len(),
                mask@.len() == k,
                forall|q: int| 0 <= q < k ==> #[trigger] mask@[q] == self.mask@[q],
            decreases n - k,
        {
            mask.push((self.mask[k].0.clone(), self.mask[k].1.clone()));
            k = k + 1;
        }
        let m = self.padding.len();
        let mut k2: usize = 0;
        while k2 < m
            invariant
                k2 <= m,
                m == self.padding@.len(),
                padding@.len() == k2,
                forall|q: int| 0 <= q < k2 ==> #[trigger] padding@[q] == self.padding@[q],
            decreases m - k2,
        {
            padding.push((self.padding[k2].0.clone(), self.padding[k2].1.clone()));
            k2 = k2 + 1;
        }
        let r = ShapeTracker {
            dims: self.dims.clone(),
            indexes: self.indexes.clone(),
            fake: self.fake.clone(),
            mask,
            padding,
        };
        proof {
            assert(r.mask@ =~= self.mask@);
            assert(r.padding@ =~= self.padding@);
            assert forall|q: int| 0 <= q < self.dims@.len() implies r.dims@[q] == self.dims@[q] by {}
            assert(r.dims@ =~= self.dims@);
            assert forall|q: int| 0 <= q < self.indexes@.len() implies r.indexes@[q]
                == self.indexes@[q] by {}
            assert(r.indexes@ =~= self.indexes@);
            assert forall|q: int| 0 <= q < self.fake@.len() implies r.fake@[q] == self.fake@[q] by {}
            assert(r.fake@ =~= self.fake@);
            assert(r.lview() =~= self.lview());
        }
        r
    }
}

} // verus!
