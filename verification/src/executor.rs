//! A reference executor: walks the compiled graph in dependency order
//! and evaluates each node over integer data.
//!
//! The read semantics of a view — which buffer element a logical index
//! maps to, when a read is masked out, when padding yields zero — is
//! given by spec functions over a resolved (all symbols bound) view,
//! and the executable readers are proved against them.  The purity of
//! materialisation is proved here too: reading a buffer through a view
//! and reading the materialised copy through the fresh contiguous view
//! yield the same elements.

use vstd::prelude::*;

use crate::expr::Expr;
use crate::graph::{Edge, FunctionKind, Graph, Op};
use crate::shape::ShapeTracker;

verus! {

/// Why execution stopped.
#[derive(Clone, Copy, Debug, PartialEq, Eq, Structural)]
pub enum ExecError {
    /// A dimension expression could not be evaluated under the symbol
    /// table.
    SymbolUnbound,
    /// The graph holds an operator this backend cannot evaluate.
    Unsupported,
    /// An intermediate value left the machine range.
    Overflow,
    /// A node's input was not available: missing data or a cycle.
    MissingInput,
    /// An operand had an unexpected rank or arity.
    ShapeMismatch,
}

/// One logical axis of a view with every symbol resolved.
pub struct RAxis {
    /// Size of the underlying storage axis.
    pub dim: usize,
    /// A fake axis repeats elements instead of advancing.
    pub fake: bool,
    /// Lower edge of the slice window.
    pub mask_lo: usize,
    /// Width of the slice window.
    pub win: usize,
    /// Zeros prepended by padding.
    pub pad_lo: usize,
    /// Zeros appended by padding.
    pub pad_hi: usize,
    /// Physical slot of this logical axis.
    pub slot: usize,
}

/// Product of the storage sizes of the non-fake axes whose physical
/// slot lies above `s`, over positions `j..`.
pub open spec fn prod_above(axes: Seq<RAxis>, s: int, j: int) -> int
    decreases axes.len() - j,
{
    if j < 0 || j >= axes.len() {
        1
    } else {
        (if axes[j].slot > s && !axes[j].fake {
            axes[j].dim as int
        } else {
            1
        }) * prod_above(axes, s, j + 1)
    }
}

/// The storage stride of logical axis `k`.
pub open spec fn stride_of(axes: Seq<RAxis>, k: int) -> int {
    prod_above(axes, axes[k].slot as int, 0)
}

/// The storage offset a logical index addresses: the sum over the
/// non-fake axes of the window-adjusted coordinate times the stride.
pub open spec fn offset_sum(axes: Seq<RAxis>, idx: Seq<int>, k: int) -> int
    decreases axes.len() - k,
{
    if k < 0 || k >= axes.len() {
        0
    } else {
        (if axes[k].fake {
            0
        } else {
            (idx[k] - axes[k].pad_lo + axes[k].mask_lo) * stride_of(axes, k)
        }) + offset_sum(axes, idx, k + 1)
    }
}

/// Whether the index lies inside every axis's data window (outside it,
/// padding reads zero).
pub open spec fn in_window(axes: Seq<RAxis>, idx: Seq<int>) -> bool {
    &&& idx.len() == axes.len()
    &&& forall|k: int|
        0 <= k < axes.len() ==> (#[trigger] axes[k]).pad_lo <= idx[k] && idx[k] < axes[k].pad_lo
            + axes[k].win
}

/// The element a logical index yields: the addressed buffer element
/// inside the window, zero in the padding or out of the buffer.
pub open spec fn read_spec(axes: Seq<RAxis>, buf: Seq<i64>, idx: Seq<int>) -> i64 {
    if in_window(axes, idx) && 0 <= offset_sum(axes, idx, 0) < buf.len() {
        buf[offset_sum(axes, idx, 0)]
    } else {
        0
    }
}

/// The logical extent of one resolved axis.
pub open spec fn ext_of(a: RAxis) -> int {
    a.pad_lo + a.win + a.pad_hi
}

/// The logical extents of a resolved view.
pub open spec fn ext_seq(axes: Seq<RAxis>) -> Seq<int> {
    Seq::new(axes.len(), |k: int| ext_of(axes[k]))
}

/// A sequence of machine sizes as mathematical integers.
pub open spec fn ints_of(s: Seq<usize>) -> Seq<int> {
    Seq::new(s.len(), |k: int| s[k] as int)
}

/// Product of a sequence of extents.
pub open spec fn prod_of(exts: Seq<int>) -> int
    decreases exts.len(),
{
    if exts.len() == 0 {
        1
    } else {
        prod_of(exts.drop_last()) * exts.last()
    }
}

/// The logical index that the row-major position `j` denotes.
pub open spec fn unflatten(exts: Seq<int>, j: int) -> Seq<int>
    decreases exts.len(),
{
    if exts.len() == 0 {
        Seq::empty()
    } else {
        unflatten(exts.drop_last(), j / exts.last()).push(j % exts.last())
    }
}

/// The row-major position of a logical index.
pub open spec fn flatten(exts: Seq<int>, idx: Seq<int>) -> int
    decreases exts.len(),
{
    if exts.len() == 0 {
        0
    } else {
        flatten(exts.drop_last(), idx.drop_last()) * exts.last() + idx.last()
    }
}

/// All elements of the view in row-major logical order.
pub open spec fn elements_spec(axes: Seq<RAxis>, buf: Seq<i64>) -> Seq<i64> {
    Seq::new(
        (if prod_of(ext_seq(axes)) >= 0 {
            prod_of(ext_seq(axes))
        } else {
            0
        }) as nat,
        |j: int| read_spec(axes, buf, unflatten(ext_seq(axes), j)),
    )
}

/// Sum of the first `v` elements along axis `d`, read at the output
/// index `base` with the axis coordinate running over `0..v`.
pub open spec fn axis_sum(
    axes: Seq<RAxis>,
    buf: Seq<i64>,
    base: Seq<int>,
    d: int,
    v: int,
) -> int
    decreases v,
{
    if v <= 0 {
        0
    } else {
        axis_sum(axes, buf, base, d, v - 1) + read_spec(axes, buf, base.insert(d, v - 1))
    }
}

/// The dot product of the first `m` entries of a vector operand with
/// column `col` of a matrix operand, both read through their views.
pub open spec fn dot_to(
    aaxes: Seq<RAxis>,
    adata: Seq<i64>,
    baxes: Seq<RAxis>,
    bdata: Seq<i64>,
    col: int,
    m: int,
) -> int
    decreases m,
{
    if m <= 0 {
        0
    } else {
        dot_to(aaxes, adata, baxes, bdata, col, m - 1) + read_spec(aaxes, adata, seq![m - 1])
            * read_spec(baxes, bdata, seq![m - 1, col])
    }
}

/// The fresh contiguous view over the given extents: identity layout,
/// full windows, no padding, nothing fake.
pub open spec fn fresh_axes(exts: Seq<int>) -> Seq<RAxis> {
    Seq::new(
        exts.len(),
        |k: int| RAxis {
            dim: exts[k] as usize,
            fake: false,
            mask_lo: 0,
            win: exts[k] as usize,
            pad_lo: 0,
            pad_hi: 0,
            slot: k as usize,
        },
    )
}

/// A positive product has only positive factors.
proof fn lemma_prod_pos(exts: Seq<int>, k: int)
    requires
        prod_of(exts) > 0,
        forall|i: int| 0 <= i < exts.len() ==> #[trigger] exts[i] >= 0,
        0 <= k < exts.len(),
    ensures
        exts[k] > 0,
    decreases exts.len(),
{
    if exts.len() > 0 {
        assert(prod_of(exts) == prod_of(exts.drop_last()) * exts.last());
        if k == exts.len() - 1 {
            if exts.last() <= 0 {
                lemma_prod_nonneg(exts.drop_last());
                assert(prod_of(exts) <= 0) by (nonlinear_arith)
                    requires
                        prod_of(exts) == prod_of(exts.drop_last()) * exts.last(),
                        prod_of(exts.drop_last()) >= 0,
                        exts.last() <= 0,
                ;
            }
        } else {
            if prod_of(exts.drop_last()) <= 0 {
                lemma_prod_nonneg(exts.drop_last());
                assert(prod_of(exts.drop_last()) == 0);
                assert(prod_of(exts) == 0);
            }
            assert(forall|i: int|
                0 <= i < exts.drop_last().len() ==> #[trigger] exts.drop_last()[i] >= 0);
            lemma_prod_pos(exts.drop_last(), k);
            assert(exts.drop_last()[k] == exts[k]);
        }
    }
}

/// A product of nonnegative extents is nonnegative.
proof fn lemma_prod_nonneg(exts: Seq<int>)
    requires
        forall|i: int| 0 <= i < exts.len() ==> #[trigger] exts[i] >= 0,
    ensures
        prod_of(exts) >= 0,
    decreases exts.len(),
{
    if exts.len() > 0 {
        assert(forall|i: int|
            0 <= i < exts.drop_last().len() ==> #[trigger] exts.drop_last()[i] >= 0);
        lemma_prod_nonneg(exts.drop_last());
        assert(prod_of(exts) == prod_of(exts.drop_last()) * exts.last());
        assert(prod_of(exts) >= 0) by (nonlinear_arith)
            requires
                prod_of(exts) == prod_of(exts.drop_last()) * exts.last(),
                prod_of(exts.drop_last()) >= 0,
                exts.last() >= 0,
        ;
    }
}

/// The row-major decoding of a valid position is a valid index.
proof fn lemma_unflatten_in_range(exts: Seq<int>, j: int)
    requires
        forall|i: int| 0 <= i < exts.len() ==> #[trigger] exts[i] > 0,
        0 <= j < prod_of(exts),
    ensures
        unflatten(exts, j).len() == exts.len(),
        forall|k: int|
            0 <= k < exts.len() ==> 0 <= #[trigger] unflatten(exts, j)[k] && unflatten(exts, j)[k]
                < exts[k],
    decreases exts.len(),
{
    if exts.len() > 0 {
        let e = exts.last();
        let front = exts.drop_last();
        assert(prod_of(exts) == prod_of(front) * e);
        assert(0 <= j / e && j / e < prod_of(front)) by (nonlinear_arith)
            requires
                0 <= j < prod_of(front) * e,
                e > 0,
        ;
        assert(forall|i: int| 0 <= i < front.len() ==> #[trigger] front[i] > 0);
        lemma_unflatten_in_range(front, j / e);
        assert(0 <= j % e < e) by (nonlinear_arith)
            requires
                e > 0,
                j >= 0,
        ;
        let u = unflatten(exts, j);
        let uf = unflatten(front, j / e);
        assert(u == uf.push(j % e));
        assert forall|k: int| 0 <= k < exts.len() implies 0 <= #[trigger] u[k] && u[k]
            < exts[k] by {
            if k < exts.len() - 1 {
                assert(u[k] == uf[k]);
                assert(front[k] == exts[k]);
            } else {
                assert(u[k] == j % e);
            }
        }
    }
}

/// Encoding after decoding restores the position.
proof fn lemma_flatten_unflatten(exts: Seq<int>, j: int)
    requires
        forall|i: int| 0 <= i < exts.len() ==> #[trigger] exts[i] > 0,
        0 <= j < prod_of(exts),
    ensures
        flatten(exts, unflatten(exts, j)) == j,
    decreases exts.len(),
{
    if exts.len() == 0 {
        assert(prod_of(exts) == 1);
    } else {
        let e = exts.last();
        let front = exts.drop_last();
        assert(prod_of(exts) == prod_of(front) * e);
        assert(0 <= j / e && j / e < prod_of(front)) by (nonlinear_arith)
            requires
                0 <= j < prod_of(front) * e,
                e > 0,
        ;
        assert(forall|i: int| 0 <= i < front.len() ==> #[trigger] front[i] > 0);
        lemma_flatten_unflatten(front, j / e);
        let u = unflatten(exts, j);
        let uf = unflatten(front, j / e);
        assert(u == uf.push(j % e));
        assert(u.drop_last() =~= uf);
        assert(u.last() == j % e);
        assert(flatten(exts, u) == flatten(front, uf) * e + j % e);
        assert(flatten(front, uf) == j / e);
        assert(j / e * e + j % e == j) by {
            vstd::arithmetic::div_mod::lemma_fundamental_div_mod(j, e);
        }
    }
}

/// Over a fresh contiguous view, the storage offset of an index is its
/// row-major position.
proof fn lemma_fresh_offset(exts: Seq<int>, idx: Seq<int>)
    requires
        exts.len() <= usize::MAX,
        forall|i: int| 0 <= i < exts.len() ==> 0 <= #[trigger] exts[i] <= usize::MAX,
        idx.len() == exts.len(),
    ensures
        offset_sum(fresh_axes(exts), idx, 0) == flatten(exts, idx),
    decreases exts.len(),
{
    let axes = fresh_axes(exts);
    if exts.len() == 0 {
    } else {
        let e = exts.last();
        let front = exts.drop_last();
        let fidx = idx.drop_last();
        assert(forall|i: int| 0 <= i < front.len() ==> 0 <= #[trigger] front[i] <= usize::MAX);
        lemma_fresh_offset(front, fidx);
        lemma_fresh_offset_step(exts, idx, 0);
        assert(flatten(exts, idx) == flatten(front, fidx) * e + idx.last());
    }
}

/// One step of the fresh-offset argument: from position `k` on, the
/// offset over the extended view factors through the front view.
proof fn lemma_fresh_offset_step(exts: Seq<int>, idx: Seq<int>, k: int)
    requires
        exts.len() <= usize::MAX,
        forall|i: int| 0 <= i < exts.len() ==> 0 <= #[trigger] exts[i] <= usize::MAX,
        idx.len() == exts.len(),
        exts.len() > 0,
        0 <= k <= exts.len(),
    ensures
        offset_sum(fresh_axes(exts), idx, k) == (if k < exts.len() - 1 {
            offset_sum(fresh_axes(exts.drop_last()), idx.drop_last(), k) * exts.last()
        } else {
            0
        }) + (if k <= exts.len() - 1 {
            idx.last()
        } else {
            0
        }),
    decreases exts.len() - k,
{
    let axes = fresh_axes(exts);
    let front = exts.drop_last();
    let faxes = fresh_axes(front);
    let fidx = idx.drop_last();
    let n = exts.len() as int;
    let e = exts.last();
    if k >= n {
    } else if k == n - 1 {
        assert(offset_sum(axes, idx, n) == 0);
        assert(axes[n - 1].slot == (n - 1) as usize);
        assert(axes[n - 1].slot as int == n - 1);
        assert(stride_of(axes, n - 1) == 1) by {
            assert(axes[n - 1].slot as int == n - 1);
            lemma_fresh_stride_top(exts, n - 1, 0);
        }
        assert(axes[n - 1].pad_lo == 0 && axes[n - 1].mask_lo == 0);
        assert(offset_sum(axes, idx, k) == idx[n - 1] * 1);
        assert(idx[n - 1] == idx.last());
    } else {
        lemma_fresh_offset_step(exts, idx, k + 1);
        assert(stride_of(axes, k) == stride_of(faxes, k) * e) by {
            lemma_fresh_stride_factor(exts, k, 0);
        }
        assert(axes[k] == RAxis {
            dim: exts[k] as usize,
            fake: false,
            mask_lo: 0,
            win: exts[k] as usize,
            pad_lo: 0,
            pad_hi: 0,
            slot: k as usize,
        });
        assert(faxes[k].pad_lo == 0 && faxes[k].mask_lo == 0 && !faxes[k].fake);
        assert(stride_of(axes, k) == prod_above(axes, axes[k].slot as int, 0));
        assert(axes[k].slot as int == k && faxes[k].slot as int == k);
        assert(fidx[k] == idx[k]);
        assert(offset_sum(axes, idx, k) == idx[k] * (stride_of(faxes, k) * e) + offset_sum(
            axes,
            idx,
            k + 1,
        ));
        assert(offset_sum(faxes, fidx, k) == idx[k] * stride_of(faxes, k) + offset_sum(
            faxes,
            fidx,
            k + 1,
        ));
        assert(idx[k] * (stride_of(faxes, k) * e) == (idx[k] * stride_of(faxes, k)) * e)
            by (nonlinear_arith);
        assert((idx[k] * stride_of(faxes, k) + offset_sum(faxes, fidx, k + 1)) * e == (idx[k]
            * stride_of(faxes, k)) * e + offset_sum(faxes, fidx, k + 1) * e) by (nonlinear_arith);
    }
}

/// In a fresh view the stride of the last axis, counted from any
/// position at or past it, is one.
proof fn lemma_fresh_stride_top(exts: Seq<int>, s: int, j: int)
    requires
        s >= exts.len() - 1,
        0 <= j <= exts.len(),
        exts.len() <= usize::MAX,
        forall|i: int| 0 <= i < exts.len() ==> 0 <= #[trigger] exts[i] <= usize::MAX,
    ensures
        prod_above(fresh_axes(exts), s, j) == 1,
    decreases exts.len() - j,
{
    let axes = fresh_axes(exts);
    if j < exts.len() {
        assert(axes[j].slot == j as usize);
        lemma_fresh_stride_top(exts, s, j + 1);
    }
}

/// In a fresh view, the stride of an inner axis over the full extent
/// list factors as its stride over the front list times the last
/// extent.
proof fn lemma_fresh_stride_factor(exts: Seq<int>, s: int, j: int)
    requires
        exts.len() > 0,
        0 <= s < exts.len() - 1,
        0 <= j <= exts.len(),
        exts.len() <= usize::MAX,
        forall|i: int| 0 <= i < exts.len() ==> 0 <= #[trigger] exts[i] <= usize::MAX,
    ensures
        prod_above(fresh_axes(exts), s, j) == (if j <= exts.len() - 1 {
            prod_above(fresh_axes(exts.drop_last()), s, j) * exts.last()
        } else {
            1
        }),
    decreases exts.len() - j,
{
    let axes = fresh_axes(exts);
    let faxes = fresh_axes(exts.drop_last());
    let n = exts.len() as int;
    if j >= n {
    } else if j == n - 1 {
        assert(prod_above(axes, s, n) == 1);
        assert(axes[n - 1].slot == (n - 1) as usize && !axes[n - 1].fake);
        assert(axes[n - 1].slot as int == n - 1);
        assert(axes[n - 1].dim == exts[n - 1] as usize);
        assert(axes[n - 1].dim as int == exts[n - 1]);
        assert(exts[n - 1] == exts.last());
        assert(prod_above(axes, s, j) == (axes[j].dim as int) * prod_above(axes, s, j + 1));
        assert(prod_above(axes, s, j) == exts.last()) by {
            assert(j + 1 == n);
            assert(prod_above(axes, s, n) == 1);
            assert(prod_above(axes, s, j) == (axes[j].dim as int) * prod_above(axes, s, j + 1));
            assert(axes[j].dim as int == exts.last());
            assert((axes[j].dim as int) * 1 == axes[j].dim as int) by (nonlinear_arith);
        }
        assert(faxes.len() == n - 1);
        assert(prod_above(faxes, s, j) == 1);
    } else {
        lemma_fresh_stride_factor(exts, s, j + 1);
        assert(axes[j].slot == j as usize && faxes[j].slot == j as usize);
        assert(axes[j].slot as int == j && faxes[j].slot as int == j);
        assert(axes[j].dim == exts[j] as usize && faxes[j].dim == exts[j] as usize);
        assert(axes[j].dim as int == exts[j] && faxes[j].dim as int == exts[j]);
        let c = if j > s {
            exts[j]
        } else {
            1
        };
        assert(prod_above(axes, s, j) == c * prod_above(axes, s, j + 1));
        assert(prod_above(faxes, s, j) == c * prod_above(faxes, s, j + 1));
        assert(c * (prod_above(faxes, s, j + 1) * exts.last()) == (c * prod_above(
            faxes,
            s,
            j + 1,
        )) * exts.last()) by (nonlinear_arith);
    }
}

/// Materialisation is pure: reading the materialised elements of a
/// view through the fresh contiguous view over the same extents yields
/// the same element sequence as reading the original view.
pub proof fn lemma_contiguous_read_pure(axes: Seq<RAxis>, buf: Seq<i64>)
    requires
        axes.len() <= usize::MAX,
        forall|k: int| 0 <= k < axes.len() ==> #[trigger] ext_of(axes[k]) <= usize::MAX,
    ensures
        elements_spec(fresh_axes(ext_seq(axes)), elements_spec(axes, buf)) =~= elements_spec(
            axes,
            buf,
        ),
{
    let exts = ext_seq(axes);
    let mat = elements_spec(axes, buf);
    let fr = fresh_axes(exts);
    assert(forall|i: int| 0 <= i < exts.len() ==> 0 <= #[trigger] exts[i] <= usize::MAX);
    assert(ext_seq(fr) =~= exts);
    lemma_prod_nonneg(exts);
    let total = prod_of(exts);
    assert(elements_spec(fr, mat).len() == elements_spec(axes, buf).len());
    if total > 0 {
        assert forall|j: int| 0 <= j < total implies elements_spec(fr, mat)[j] == elements_spec(
            axes,
            buf,
        )[j] by {
            assert forall|i: int| 0 <= i < exts.len() implies #[trigger] exts[i] > 0 by {
                lemma_prod_pos(exts, i);
            }
            let u = unflatten(exts, j);
            lemma_unflatten_in_range(exts, j);
            assert(in_window(fr, u));
            lemma_fresh_offset(exts, u);
            lemma_flatten_unflatten(exts, j);
            assert(offset_sum(fr, u, 0) == j);
            assert(elements_spec(fr, mat)[j] == read_spec(fr, mat, u));
            assert(read_spec(fr, mat, u) == mat[j]);
        }
    }
}


/// Largest dimension the reference backend handles.
pub const MAX_DIM: usize = 4096;

/// Largest rank the reference backend handles.
pub const MAX_RANK: usize = 4;

/// The resolved view is within the backend's limits: few axes, small
/// dimensions, window inside the storage, small paddings.
pub open spec fn axes_small(axes: Seq<RAxis>) -> bool {
    &&& axes.len() <= MAX_RANK
    &&& forall|k: int|
        0 <= k < axes.len() ==> {
            &&& (#[trigger] axes[k]).dim <= MAX_DIM
            &&& axes[k].mask_lo + axes[k].win <= axes[k].dim
            &&& axes[k].pad_lo <= MAX_DIM
            &&& axes[k].pad_hi <= MAX_DIM
        }
}

/// Powers of the dimension limit.
pub open spec fn pow_dim(n: int) -> int
    decreases (if n > 0 { n } else { 0 }),
{
    if n <= 0 {
        1
    } else {
        4096 * pow_dim(n - 1)
    }
}

/// Powers of the limit are at least one.
proof fn lemma_pow_dim_pos(n: int)
    ensures
        pow_dim(n) >= 1,
    decreases (if n > 0 { n } else { 0 }),
{
    if n > 0 {
        lemma_pow_dim_pos(n - 1);
        assert(4096 * pow_dim(n - 1) >= pow_dim(n - 1)) by (nonlinear_arith)
            requires
                pow_dim(n - 1) >= 1,
        ;
    }
}

/// Up to the fourth power, powers of the limit stay below `4096^4`.
proof fn lemma_pow_dim_le4(n: int)
    requires
        n <= 4,
    ensures
        pow_dim(n) <= 0x1_0000_0000_0000,
{
    lemma_pow_dim_pos(n);
    if n <= 0 {
    } else {
        assert(pow_dim(1) == 4096 * pow_dim(0));
        assert(pow_dim(2) == 4096 * pow_dim(1));
        assert(pow_dim(3) == 4096 * pow_dim(2));
        assert(pow_dim(4) == 4096 * pow_dim(3));
        assert(pow_dim(0) == 1);
    }
}

/// Strides of a small view are bounded by a power of the dimension
/// limit.
proof fn lemma_prod_above_bound(axes: Seq<RAxis>, s: int, j: int)
    requires
        axes_small(axes),
        0 <= j <= axes.len(),
    ensures
        0 <= prod_above(axes, s, j) <= pow_dim(axes.len() - j),
    decreases axes.len() - j,
{
    lemma_pow_dim_pos(axes.len() - j);
    if j < axes.len() {
        lemma_prod_above_bound(axes, s, j + 1);
        lemma_pow_dim_pos(axes.len() - j - 1);
        let f = if axes[j].slot > s && !axes[j].fake {
            axes[j].dim as int
        } else {
            1
        };
        assert(0 <= f <= 4096);
        assert(prod_above(axes, s, j) == f * prod_above(axes, s, j + 1));
        assert(0 <= f * prod_above(axes, s, j + 1) <= 4096 * pow_dim(axes.len() - j - 1))
            by (nonlinear_arith)
            requires
                0 <= f <= 4096,
                0 <= prod_above(axes, s, j + 1) <= pow_dim(axes.len() - j - 1),
                pow_dim(axes.len() - j - 1) >= 1,
        ;
        assert(pow_dim(axes.len() - j) == 4096 * pow_dim(axes.len() - j - 1));
    }
}

/// The storage stride of logical axis `k`, executable.
pub fn stride_exec(axes: &Vec<RAxis>, k: usize) -> (r: u64)
    requires
        axes_small(axes@),
        k < axes@.len(),
    ensures
        r as int == stride_of(axes@, k as int),
{
    let s = axes[k].slot;
    let n = axes.len();
    let mut r: u64 = 1;
    let mut j: usize = n;
    proof {
        lemma_prod_above_bound_all(axes@, s as int);
    }
    while j > 0
        invariant
            j <= n,
            n == axes@.len(),
            axes_small(axes@),
            s == axes@[k as int].slot || k >= axes@.len(),
            k < axes@.len(),
            s == axes@[k as int].slot,
            r as int == prod_above(axes@, s as int, j as int),
            forall|t: int| 0 <= t <= axes@.len() ==> 0 <= #[trigger] prod_above(
                axes@,
                s as int,
                t,
            ) <= 0x1_0000_0000_0000,
        decreases j,
    {
        let jj = j - 1;
        let f: u64 = if axes[jj].slot > s && !axes[jj].fake {
            axes[jj].dim as u64
        } else {
            1
        };
        proof {
            assert(prod_above(axes@, s as int, jj as int) == (if axes@[jj as int].slot > s
                && !axes@[jj as int].fake {
                axes@[jj as int].dim as int
            } else {
                1
            }) * prod_above(axes@, s as int, jj as int + 1));
            assert((f as int) * (r as int) == prod_above(axes@, s as int, jj as int));
            assert(prod_above(axes@, s as int, jj as int) <= 0x1_0000_0000_0000);
        }
        r = f * r;
        j = jj;
    }
    r
}

/// All stride suffixes of a small view are bounded.
proof fn lemma_prod_above_bound_all(axes: Seq<RAxis>, s: int)
    requires
        axes_small(axes),
    ensures
        forall|t: int|
            0 <= t <= axes.len() ==> 0 <= #[trigger] prod_above(axes, s, t)
                <= 0x1_0000_0000_0000,
{
    assert forall|t: int|
        0 <= t <= axes.len() implies 0 <= #[trigger] prod_above(axes, s, t)
        <= 0x1_0000_0000_0000 by {
        lemma_prod_above_bound(axes, s, t);
        lemma_pow_dim_le4(axes.len() - t);
    }
}

/// The addressed offsets of in-window indices of a small view are
/// bounded.
proof fn lemma_offset_bound(axes: Seq<RAxis>, idx: Seq<int>, k: int)
    requires
        axes_small(axes),
        in_window(axes, idx),
        0 <= k <= axes.len(),
    ensures
        0 <= offset_sum(axes, idx, k) <= (axes.len() - k) * 0x1000_0000_0000_0000,
    decreases axes.len() - k,
{
    if k < axes.len() {
        lemma_offset_bound(axes, idx, k + 1);
        if !axes[k].fake {
            let c = idx[k] - axes[k].pad_lo + axes[k].mask_lo;
            assert(0 <= c <= 4096);
            lemma_prod_above_bound(axes, axes[k].slot as int, 0);
            lemma_pow_dim_le4(axes.len() - 0);
            assert(0 <= c * stride_of(axes, k) <= 0x1000_0000_0000_0000) by (nonlinear_arith)
                requires
                    0 <= c <= 4096,
                    0 <= stride_of(axes, k) <= 0x1_0000_0000_0000,
            ;
        }
    }
}

/// Reads the element a logical index denotes, following the proved
/// read semantics: window-checked, padding reads zero, out-of-buffer
/// reads zero.
pub fn read_at(axes: &Vec<RAxis>, buf: &Vec<i64>, idx: &Vec<usize>) -> (r: i64)
    requires
        axes_small(axes@),
        idx@.len() == axes@.len(),
    ensures
        r == read_spec(axes@, buf@, Seq::new(idx@.len(), |k: int| idx@[k] as int)),
{
    let ghost idxi = Seq::new(idx@.len(), |k: int| idx@[k] as int);
    let n = axes.len();
    let mut k: usize = 0;
    while k < n
        invariant
            k <= n,
            n == axes@.len(),
            n == idx@.len(),
            axes_small(axes@),
            idxi == Seq::new(idx@.len(), |t: int| idx@[t] as int),
            forall|t: int|
                0 <= t < k ==> (#[trigger] axes@[t]).pad_lo <= idxi[t] && idxi[t] < axes@[t].pad_lo
                    + axes@[t].win,
        decreases n - k,
    {
        if !(axes[k].pad_lo <= idx[k] && idx[k] < axes[k].pad_lo + axes[k].win) {
            proof {
                assert(idxi[k as int] == idx@[k as int] as int);
                assert(!in_window(axes@, idxi));
            }
            return 0;
        }
        k = k + 1;
    }
    proof {
        assert(in_window(axes@, idxi));
        lemma_offset_bound(axes@, idxi, 0);
        assert(offset_sum(axes@, idxi, 0) <= 4 * 0x1000_0000_0000_0000);
    }
    let mut off: u64 = 0;
    let mut k2: usize = 0;
    while k2 < n
        invariant
            k2 <= n,
            n == axes@.len(),
            n == idx@.len(),
            axes_small(axes@),
            in_window(axes@, idxi),
            idxi == Seq::new(idx@.len(), |t: int| idx@[t] as int),
            off as int + offset_sum(axes@, idxi, k2 as int) == offset_sum(axes@, idxi, 0),
            offset_sum(axes@, idxi, 0) <= 4 * 0x1000_0000_0000_0000,
            off as int <= offset_sum(axes@, idxi, 0),
        decreases n - k2,
    {
        if !axes[k2].fake {
            let stride = stride_exec(axes, k2);
            let c: u64 = (idx[k2] - axes[k2].pad_lo + axes[k2].mask_lo) as u64;
            proof {
                assert(idxi[k2 as int] == idx@[k2 as int] as int);
                assert(c as int == idxi[k2 as int] - axes@[k2 as int].pad_lo + axes@[
                    k2 as int].mask_lo);
                assert(0 <= c <= 4096);
                lemma_prod_above_bound(axes@, axes@[k2 as int].slot as int, 0);
                lemma_pow_dim_le4(axes@.len() - 0);
                assert(0 <= stride_of(axes@, k2 as int) <= 0x1_0000_0000_0000);
                assert(0 <= c * stride <= 0x1000_0000_0000_0000) by (nonlinear_arith)
                    requires
                        0 <= c <= 4096,
                        0 <= stride <= 0x1_0000_0000_0000,
                ;
                lemma_offset_bound(axes@, idxi, k2 as int + 1);
                assert(offset_sum(axes@, idxi, k2 as int) == c * stride + offset_sum(
                    axes@,
                    idxi,
                    k2 as int + 1,
                ));
            }
            proof {
                assert(off as int + c as int * stride as int <= offset_sum(axes@, idxi, 0)) by {
                    assert(off as int + offset_sum(axes@, idxi, k2 as int) == offset_sum(
                        axes@,
                        idxi,
                        0,
                    ));
                    assert(offset_sum(axes@, idxi, k2 as int + 1) >= 0);
                }
            }
            off = off + c * stride;
        } else {
            proof {
                assert(offset_sum(axes@, idxi, k2 as int) == offset_sum(
                    axes@,
                    idxi,
                    k2 as int + 1,
                ));
            }
        }
        k2 = k2 + 1;
    }
    proof {
        assert(off as int == offset_sum(axes@, idxi, 0));
    }
    if off < buf.len() as u64 {
        buf[off as usize]
    } else {
        0
    }
}


/// What resolving a view against a symbol table yields: per logical
/// axis, the numeric dimension, window and padding that its symbolic
/// expressions evaluate to, the broadcast flag, and the physical slot.
pub open spec fn resolved(t: ShapeTracker, env: Seq<(char, usize)>, axes: Seq<RAxis>) -> bool {
    &&& axes_small(axes)
    &&& axes.len() == t.rank()
    &&& forall|k: int|
        0 <= k < axes.len() ==> {
            let a = #[trigger] axes[k];
            let v = t.lview()[k];
            &&& a.fake == v.fake
            &&& a.slot == t.indexes@[k]
            &&& crate::expr::eval_spec(v.dim, env) == Some(a.dim)
            &&& crate::expr::eval_spec(v.mask.0, env) == Some(a.mask_lo)
            &&& crate::expr::eval_spec(v.padding.0, env) == Some(a.pad_lo)
            &&& crate::expr::eval_spec(v.padding.1, env) == Some(a.pad_hi)
            &&& match crate::expr::eval_spec(v.mask.1, env) {
                Some(hv) => a.mask_lo + a.win == (if hv < a.dim {
                    hv as int
                } else {
                    a.dim as int
                }),
                None => false,
            }
        }
}

/// One axis can be resolved: its expressions evaluate, the values are
/// within the backend's limits, and the window is well formed.
pub open spec fn resolvable_axis(v: crate::shape::AxisView, env: Seq<(char, usize)>) -> bool {
    match (
        crate::expr::eval_spec(v.dim, env),
        crate::expr::eval_spec(v.mask.0, env),
        crate::expr::eval_spec(v.mask.1, env),
        crate::expr::eval_spec(v.padding.0, env),
        crate::expr::eval_spec(v.padding.1, env),
    ) {
        (Some(dv), Some(lo), Some(hi), Some(pl), Some(ph)) => dv <= MAX_DIM && pl <= MAX_DIM && ph
            <= MAX_DIM && lo <= (if hi < dv {
            hi
        } else {
            dv
        }),
        _ => false,
    }
}

/// The whole view can be resolved under the symbol table.
pub open spec fn resolvable(t: ShapeTracker, env: Seq<(char, usize)>) -> bool {
    &&& t.rank() <= MAX_RANK
    &&& forall|k: int| 0 <= k < t.rank() ==> resolvable_axis(#[trigger] t.lview()[k], env)
}

/// Resolves a view against the symbol table: every dimension, window
/// and padding expression becomes a number.  Succeeds exactly when the
/// view is resolvable: it fails on an unbound symbol, an ill-formed
/// window, or a view beyond the backend's limits, and on nothing else.
pub fn resolve(t: &ShapeTracker, env: &Vec<(char, usize)>) -> (r: Result<Vec<RAxis>, ExecError>)
    requires
        t.wf(),
    ensures
        r matches Ok(axes) ==> resolved(*t, env@, axes@),
        r is Ok <==> resolvable(*t, env@),
{
    let n = t.len();
    if n > MAX_RANK {
        return Err(ExecError::Unsupported);
    }
    let mut axes: Vec<RAxis> = Vec::new();
    let mut k: usize = 0;
    while k < n
        invariant
            k <= n,
            t.wf(),
            n == t.rank(),
            n <= MAX_RANK,
            axes@.len() == k,
            forall|q: int|
                0 <= q < k ==> {
                    let a = #[trigger] axes@[q];
                    let v = t.lview()[q];
                    &&& a.dim <= MAX_DIM
                    &&& a.mask_lo + a.win <= a.dim
                    &&& a.pad_lo <= MAX_DIM
                    &&& a.pad_hi <= MAX_DIM
                    &&& a.fake == v.fake
                    &&& a.slot == t.indexes@[q]
                    &&& crate::expr::eval_spec(v.dim, env@) == Some(a.dim)
                    &&& crate::expr::eval_spec(v.mask.0, env@) == Some(a.mask_lo)
                    &&& crate::expr::eval_spec(v.padding.0, env@) == Some(a.pad_lo)
                    &&& crate::expr::eval_spec(v.padding.1, env@) == Some(a.pad_hi)
                    &&& match crate::expr::eval_spec(v.mask.1, env@) {
                        Some(hv) => a.mask_lo + a.win == (if hv < a.dim {
                            hv as int
                        } else {
                            a.dim as int
                        }),
                        None => false,
                    }
                },
        decreases n - k,
    {
        proof {
            assert((t.lview()[k as int]).dim == t.dims@[k as int]);
            assert((t.lview()[k as int]).mask == t.mask@[k as int]);
            assert((t.lview()[k as int]).padding == t.padding@[k as int]);
        }
        let dim = match t.dims[k].eval(env) {
            Some(v) => v,
            None => {
                proof {
                    assert(!resolvable_axis(t.lview()[k as int], env@));
                }
                return Err(ExecError::SymbolUnbound);
            },
        };
        if dim > MAX_DIM {
            proof {
                assert(!resolvable_axis(t.lview()[k as int], env@));
            }
            return Err(ExecError::Unsupported);
        }
        let lo = match t.mask[k].0.eval(env) {
            Some(v) => v,
            None => {
                proof {
                    assert(!resolvable_axis(t.lview()[k as int], env@));
                }
                return Err(ExecError::SymbolUnbound);
            },
        };
        let hi = match t.mask[k].1.eval(env) {
            Some(v) => v,
            None => {
                proof {
                    assert(!resolvable_axis(t.lview()[k as int], env@));
                }
                return Err(ExecError::SymbolUnbound);
            },
        };
        let pl = match t.padding[k].0.eval(env) {
            Some(v) => v,
            None => {
                proof {
                    assert(!resolvable_axis(t.lview()[k as int], env@));
                }
                return Err(ExecError::SymbolUnbound);
            },
        };
        let ph = match t.padding[k].1.eval(env) {
            Some(v) => v,
            None => {
                proof {
                    assert(!resolvable_axis(t.lview()[k as int], env@));
                }
                return Err(ExecError::SymbolUnbound);
            },
        };
        if pl > MAX_DIM || ph > MAX_DIM {
            proof {
                assert(!resolvable_axis(t.lview()[k as int], env@));
            }
            return Err(ExecError::Unsupported);
        }
        let top = if hi < dim {
            hi
        } else {
            dim
        };
        if lo > top {
            proof {
                assert(!resolvable_axis(t.lview()[k as int], env@));
            }
            return Err(ExecError::ShapeMismatch);
        }
        let win = top - lo;
        axes.push(
            RAxis {
                dim,
                fake: t.fake[k],
                mask_lo: lo,
                win,
                pad_lo: pl,
                pad_hi: ph,
                slot: t.indexes[k],
            },
        );
        k = k + 1;
    }
    proof {
        assert forall|q: int| 0 <= q < t.rank() implies resolvable_axis(
            #[trigger] t.lview()[q],
            env@,
        ) by {
            let a = axes@[q];
            assert((t.lview()[q]).dim == t.dims@[q]);
        }
    }
    Ok(axes)
}

/// The logical extents of a resolved view.
pub fn exts_of(axes: &Vec<RAxis>) -> (r: Vec<usize>)
    requires
        axes_small(axes@),
    ensures
        r@.len() == axes@.len(),
        forall|k: int| 0 <= k < r@.len() ==> #[trigger] r@[k] as int == ext_of(axes@[k]),
{
    let n = axes.len();
    let mut r: Vec<usize> = Vec::new();
    let mut k: usize = 0;
    while k < n
        invariant
            k <= n,
            n == axes@.len(),
            axes_small(axes@),
            r@.len() == k,
            forall|q: int| 0 <= q < k ==> #[trigger] r@[q] as int == ext_of(axes@[q]),
        decreases n - k,
    {
        let e = axes[k].pad_lo + axes[k].win + axes[k].pad_hi;
        r.push(e);
        k = k + 1;
    }
    r
}

/// A zero factor makes the whole product zero.
proof fn lemma_prod_zero(exts: Seq<int>, i: int)
    requires
        0 <= i < exts.len(),
        exts[i] == 0,
    ensures
        prod_of(exts) == 0,
    decreases exts.len(),
{
    if i == exts.len() - 1 {
        assert(prod_of(exts) == prod_of(exts.drop_last()) * 0);
        assert(prod_of(exts.drop_last()) * 0 == 0) by (nonlinear_arith);
    } else {
        lemma_prod_zero(exts.drop_last(), i);
        assert(prod_of(exts) == 0 * exts.last());
        assert(0 * exts.last() == 0) by (nonlinear_arith);
    }
}

/// A product of factors that are each at least one is at least one.
proof fn lemma_prod_ge_one(exts: Seq<int>)
    requires
        forall|i: int| 0 <= i < exts.len() ==> #[trigger] exts[i] >= 1,
    ensures
        prod_of(exts) >= 1,
    decreases exts.len(),
{
    if exts.len() > 0 {
        assert(forall|i: int|
            0 <= i < exts.drop_last().len() ==> #[trigger] exts.drop_last()[i] >= 1);
        lemma_prod_ge_one(exts.drop_last());
        assert(prod_of(exts.drop_last()) * exts.last() >= 1) by (nonlinear_arith)
            requires
                prod_of(exts.drop_last()) >= 1,
                exts.last() >= 1,
        ;
    }
}

/// The element count of a shape, exactly when it fits the machine.
pub fn total_of(exts: &Vec<usize>) -> (r: Option<usize>)
    ensures
        r matches Some(t) ==> t as int == prod_of(ints_of(exts@)),
        r is Some <==> prod_of(ints_of(exts@)) <= usize::MAX,
{
    let n = exts.len();
    let mut z: usize = 0;
    while z < n
        invariant
            z <= n,
            n == exts@.len(),
            forall|i: int| 0 <= i < z ==> #[trigger] exts@[i] > 0,
        decreases n - z,
    {
        if exts[z] == 0 {
            proof {
                assert(ints_of(exts@)[z as int] == 0);
                lemma_prod_zero(ints_of(exts@), z as int);
            }
            return Some(0);
        }
        z = z + 1;
    }
    let mut t: usize = 1;
    let mut k: usize = n;
    proof {
        assert(ints_of(exts@).take(n as int) =~= ints_of(exts@));
        assert(forall|i: int|
            0 <= i < ints_of(exts@).len() ==> #[trigger] ints_of(exts@)[i] >= 1);
        lemma_prod_ge_one(ints_of(exts@));
        assert(prod_of(ints_of(exts@).take(0)) == 1);
    }
    while k > 0
        invariant
            k <= n,
            n == exts@.len(),
            forall|i: int| 0 <= i < n ==> #[trigger] exts@[i] > 0,
            t as int * prod_of(ints_of(exts@).take(k as int)) == prod_of(ints_of(exts@)),
            prod_of(ints_of(exts@).take(k as int)) >= 1,
        decreases k,
    {
        let kk = k - 1;
        proof {
            let ints = ints_of(exts@);
            assert(ints.take(k as int).drop_last() =~= ints.take(kk as int));
            assert(ints.take(k as int).last() == exts@[kk as int] as int);
            assert(prod_of(ints.take(k as int)) == prod_of(ints.take(kk as int)) * (exts@[
                kk as int] as int));
            assert(forall|i: int| 0 <= i < ints.take(kk as int).len() ==> #[trigger] ints.take(
                kk as int,
            )[i] >= 1);
            lemma_prod_ge_one(ints.take(kk as int));
        }
        let ghost t0 = t as int;
        let e = exts[kk];
        t = match t.checked_mul(e) {
            Some(v) => v,
            None => {
                proof {
                    let ints = ints_of(exts@);
                    assert(t0 * (e as int) > usize::MAX);
                    assert(prod_of(ints) == t0 * prod_of(ints.take(k as int)));
                    assert(prod_of(ints) == (t0 * (e as int)) * prod_of(ints.take(kk as int)))
                        by (nonlinear_arith)
                        requires
                            prod_of(ints) == t0 * prod_of(ints.take(k as int)),
                            prod_of(ints.take(k as int)) == prod_of(ints.take(kk as int)) * (
                            e as int),
                    ;
                    assert(prod_of(ints) >= t0 * (e as int)) by (nonlinear_arith)
                        requires
                            prod_of(ints) == (t0 * (e as int)) * prod_of(ints.take(kk as int)),
                            prod_of(ints.take(kk as int)) >= 1,
                            t0 * (e as int) > usize::MAX,
                    ;
                }
                return None;
            },
        };
        proof {
            let ints = ints_of(exts@);
            assert(t as int == t0 * (e as int));
            assert(t as int * prod_of(ints.take(kk as int)) == t0 * prod_of(ints.take(k as int)))
                by (nonlinear_arith)
                requires
                    t as int == t0 * (e as int),
                    prod_of(ints.take(k as int)) == prod_of(ints.take(kk as int)) * (e as int),
            ;
        }
        k = kk;
    }
    proof {
        assert(ints_of(exts@).take(0) =~= Seq::<int>::empty());
        assert(prod_of(Seq::<int>::empty()) == 1);
    }
    Some(t)
}

/// The logical index that the row-major position `j` denotes; exact
/// whenever every extent is positive.
pub fn unflat(exts: &Vec<usize>, j: usize) -> (r: Vec<usize>)
    ensures
        r@.len() == exts@.len(),
        (forall|i: int| 0 <= i < exts@.len() ==> #[trigger] exts@[i] > 0) ==> ints_of(r@)
            == unflatten(ints_of(exts@), j as int),
{
    let n = exts.len();
    let mut r: Vec<usize> = Vec::new();
    let mut k: usize = 0;
    while k < n
        invariant
            k <= n,
            n == exts@.len(),
            r@.len() == k,
        decreases n - k,
    {
        r.push(0);
        k = k + 1;
    }
    let ghost allpos = forall|i: int| 0 <= i < exts@.len() ==> #[trigger] exts@[i] > 0;
    let mut rest = j;
    let mut k2: usize = n;
    proof {
        assert(ints_of(exts@).take(n as int) =~= ints_of(exts@));
        if allpos {
            assert(unflatten(ints_of(exts@).take(n as int), rest as int).add(
                ints_of(r@).skip(n as int),
            ) =~= unflatten(ints_of(exts@), j as int));
        }
    }
    while k2 > 0
        invariant
            k2 <= n,
            n == exts@.len(),
            r@.len() == n,
            allpos == (forall|i: int| 0 <= i < exts@.len() ==> #[trigger] exts@[i] > 0),
            allpos ==> unflatten(ints_of(exts@).take(k2 as int), rest as int).add(
                ints_of(r@).skip(k2 as int),
            ) == unflatten(ints_of(exts@), j as int),
        decreases k2,
    {
        let kk = k2 - 1;
        let ghost pre = r@;
        let ghost prerest = rest as int;
        let e = exts[kk];
        if e == 0 {
            r.set(kk, 0);
        } else {
            r.set(kk, rest % e);
            rest = rest / e;
        }
        proof {
            if allpos {
                let ints = ints_of(exts@);
                assert(e > 0);
                assert(ints.take(k2 as int).drop_last() =~= ints.take(kk as int));
                assert(ints.take(k2 as int).last() == e as int);
                assert(unflatten(ints.take(k2 as int), prerest) == unflatten(
                    ints.take(kk as int),
                    prerest / (e as int),
                ).push(prerest % (e as int)));
                assert(rest as int == prerest / (e as int));
                assert(r@[kk as int] as int == prerest % (e as int));
                assert(unflatten(ints.take(kk as int), rest as int).add(
                    ints_of(r@).skip(kk as int),
                ) =~= unflatten(ints.take(k2 as int), prerest).add(ints_of(pre).skip(k2 as int)));
            }
        }
        k2 = kk;
    }
    proof {
        if allpos {
            assert(ints_of(exts@).take(0) =~= Seq::<int>::empty());
            assert(unflatten(Seq::<int>::empty(), rest as int) =~= Seq::<int>::empty());
            assert(ints_of(r@).skip(0) =~= ints_of(r@));
            assert(Seq::<int>::empty().add(ints_of(r@)) =~= ints_of(r@));
        }
    }
    r
}

/// The data of the first table entry stored under `id`, if any.
pub open spec fn lookup_val(data: Seq<(usize, Vec<i64>)>, id: usize) -> Option<Seq<i64>>
    decreases data.len(),
{
    if data.len() == 0 {
        None
    } else if data[0].0 == id {
        Some(data[0].1@)
    } else {
        lookup_val(data.skip(1), id)
    }
}

/// The data the user attached to the node, if any: the first entry,
/// as a newer `set` shadows an older one.
pub open spec fn attached(g: Graph, id: usize) -> Option<Seq<i64>> {
    lookup_val(g.tensors@, id)
}

/// Appending entries does not change an id that is already found.
proof fn lemma_lookup_push(data: Seq<(usize, Vec<i64>)>, x: (usize, Vec<i64>), id: usize)
    requires
        lookup_val(data, id) is Some,
    ensures
        lookup_val(data.push(x), id) == lookup_val(data, id),
    decreases data.len(),
{
    assert(data.len() > 0);
    if data[0].0 == id {
        assert(data.push(x)[0] == data[0]);
    } else {
        lemma_lookup_push(data.skip(1), x, id);
        assert(data.push(x).skip(1) =~= data.skip(1).push(x));
    }
}

/// An entry under a fresh id is found after the push.
proof fn lemma_lookup_push_fresh(data: Seq<(usize, Vec<i64>)>, x: (usize, Vec<i64>))
    requires
        lookup_val(data, x.0) is None,
    ensures
        lookup_val(data.push(x), x.0) == Some(x.1@),
    decreases data.len(),
{
    if data.len() > 0 {
        assert(data[0].0 != x.0);
        lemma_lookup_push_fresh(data.skip(1), x);
        assert(data.push(x).skip(1) =~= data.skip(1).push(x));
        assert(data.push(x)[0] == data[0]);
    } else {
        assert(data.push(x)[0] == x);
    }
}

/// In a table without duplicate ids, any entry under an id is the one
/// the lookup finds.
proof fn lemma_lookup_at(data: Seq<(usize, Vec<i64>)>, i: int)
    requires
        forall|a: int, b: int|
            0 <= a < b < data.len() ==> (#[trigger] data[a]).0 != (#[trigger] data[b]).0,
        0 <= i < data.len(),
    ensures
        lookup_val(data, data[i].0) == Some(data[i].1@),
    decreases data.len(),
{
    if i == 0 {
    } else {
        assert(data[0].0 != data[i].0);
        assert forall|a: int, b: int|
            0 <= a < b < data.skip(1).len() implies (#[trigger] data.skip(1)[a]).0 != (
        #[trigger] data.skip(1)[b]).0 by {
            assert(data.skip(1)[a] == data[a + 1]);
            assert(data.skip(1)[b] == data[b + 1]);
        }
        lemma_lookup_at(data.skip(1), i - 1);
        assert(data.skip(1)[i - 1] == data[i]);
    }
}

/// A found id names some entry.
proof fn lemma_lookup_some_exists(data: Seq<(usize, Vec<i64>)>, id: usize)
    requires
        lookup_val(data, id) is Some,
    ensures
        exists|j: int| 0 <= j < data.len() && (#[trigger] data[j]).0 == id,
    decreases data.len(),
{
    if data.len() > 0 && data[0].0 != id {
        lemma_lookup_some_exists(data.skip(1), id);
        let j = choose|j: int|
            0 <= j < data.skip(1).len() && (#[trigger] data.skip(1)[j]).0 == id;
        assert(data[j + 1].0 == id);
    }
}

/// An id absent from every entry is not found.
proof fn lemma_lookup_absent(data: Seq<(usize, Vec<i64>)>, id: usize)
    requires
        forall|i: int| 0 <= i < data.len() ==> (#[trigger] data[i]).0 != id,
    ensures
        lookup_val(data, id) is None,
    decreases data.len(),
{
    if data.len() > 0 {
        assert forall|i: int| 0 <= i < data.skip(1).len() implies (#[trigger] data.skip(1)[i]).0
            != id by {
            assert(data.skip(1)[i] == data[i + 1]);
        }
        lemma_lookup_absent(data.skip(1), id);
    }
}

/// A missing id is found nowhere in the table.
proof fn lemma_lookup_none(data: Seq<(usize, Vec<i64>)>, id: usize)
    requires
        lookup_val(data, id) is None,
    ensures
        forall|i: int| 0 <= i < data.len() ==> (#[trigger] data[i]).0 != id,
    decreases data.len(),
{
    if data.len() > 0 {
        lemma_lookup_none(data.skip(1), id);
        assert forall|i: int| 0 <= i < data.len() implies (#[trigger] data[i]).0 != id by {
            if i > 0 {
                assert(data.skip(1)[i - 1] == data[i]);
            }
        }
    }
}

/// One input of a node, as the value table sees it: an edge into the
/// slot whose view resolves, whose producer's buffer is in the table.
pub open spec fn input_edge_val(
    g: Graph,
    data: Seq<(usize, Vec<i64>)>,
    id: usize,
    slot: usize,
    e: Edge,
    axes: Seq<RAxis>,
    sv: Seq<i64>,
) -> bool {
    &&& g.edges().contains(e)
    &&& e.dst == id
    &&& e.input_idx == slot
    &&& resolved(e.shape, g.dyn_map@, axes)
    &&& lookup_val(data, e.src) == Some(sv)
}

/// What a buffer in the value table holds for its node: attached data
/// wins; otherwise the operator's value semantics relate the buffer to
/// the producers' buffers in the same table.  The batched
/// matrix-matrix kernel, the maximum reduction and the transcendental
/// primitives are not constrained here.
pub open spec fn node_entry_ok(g: Graph, data: Seq<(usize, Vec<i64>)>, id: usize, v: Seq<i64>) -> bool {
    &&& g.nodes().dom().contains(id)
    &&& match attached(g, id) {
        Some(d) => v == d,
        None => match g.nodes()[id] {
            Op::Function(FunctionKind::Load) => false,
            Op::Function(FunctionKind::Arange(e)) => {
                &&& crate::expr::eval_spec(e, g.dyn_map@) == Some(v.len() as usize)
                &&& forall|q: int| 0 <= q < v.len() ==> #[trigger] v[q] == q as i64
            },
            Op::Function(FunctionKind::SymValue(c)) => {
                match crate::expr::lookup_sym(g.dyn_map@, c) {
                    Some(sv) => sv <= 0x7fff_ffff && v =~= seq![sv as i64],
                    None => false,
                }
            },
            Op::Contiguous => exists|e: Edge, axes: Seq<RAxis>, sv: Seq<i64>|
                {
                    &&& #[trigger] input_edge_val(g, data, id, 0, e, axes, sv)
                    &&& v == elements_spec(axes, sv)
                },
            Op::Mul | Op::Add => exists|
                e0: Edge,
                a0: Seq<RAxis>,
                s0: Seq<i64>,
                e1: Edge,
                a1: Seq<RAxis>,
                s1: Seq<i64>,
            |
                {
                    &&& #[trigger] input_edge_val(g, data, id, 0, e0, a0, s0)
                    &&& #[trigger] input_edge_val(g, data, id, 1, e1, a1, s1)
                    &&& a0.len() == a1.len()
                    &&& v.len() == prod_of(ext_seq(a0))
                    &&& forall|q: int|
                        0 <= q < v.len() ==> #[trigger] v[q] as int == (if g.nodes()[id] is Mul {
                            read_spec(a0, s0, unflatten(ext_seq(a0), q)) * read_spec(
                                a1,
                                s1,
                                unflatten(ext_seq(a0), q),
                            )
                        } else {
                            read_spec(a0, s0, unflatten(ext_seq(a0), q)) + read_spec(
                                a1,
                                s1,
                                unflatten(ext_seq(a0), q),
                            )
                        })
                },
            Op::SumReduce(d) => exists|e0: Edge, a0: Seq<RAxis>, s0: Seq<i64>|
                {
                    &&& #[trigger] input_edge_val(g, data, id, 0, e0, a0, s0)
                    &&& (d as int) < a0.len()
                    &&& v.len() == prod_of(ext_seq(a0).remove(d as int))
                    &&& forall|q: int|
                        0 <= q < v.len() ==> #[trigger] v[q] as int == axis_sum(
                            a0,
                            s0,
                            unflatten(ext_seq(a0).remove(d as int), q),
                            d as int,
                            ext_of(a0[d as int]),
                        )
                },
            Op::MatVec(_) | Op::MatVec1Row(_) => exists|
                e0: Edge,
                a0: Seq<RAxis>,
                s0: Seq<i64>,
                e1: Edge,
                a1: Seq<RAxis>,
                s1: Seq<i64>,
            |
                {
                    &&& #[trigger] input_edge_val(g, data, id, 0, e0, a0, s0)
                    &&& #[trigger] input_edge_val(g, data, id, 1, e1, a1, s1)
                    &&& a0.len() == 1
                    &&& a1.len() == 2
                    &&& v.len() == ext_of(a1[1])
                    &&& forall|col: int|
                        0 <= col < v.len() ==> #[trigger] v[col] as int == dot_to(
                            a0,
                            s0,
                            a1,
                            s1,
                            col,
                            ext_of(a1[0]),
                        )
                },
            _ => true,
        },
    }
}

/// Consistency of an entry survives appending another entry.
proof fn lemma_entry_ok_push(
    g: Graph,
    data: Seq<(usize, Vec<i64>)>,
    x: (usize, Vec<i64>),
    id: usize,
    v: Seq<i64>,
)
    requires
        node_entry_ok(g, data, id, v),
    ensures
        node_entry_ok(g, data.push(x), id, v),
{
    match attached(g, id) {
        Some(_) => {
        },
        None => {
            match g.nodes()[id] {
                Op::Contiguous => {
                    let (e, axes, sv) = choose|e: Edge, axes: Seq<RAxis>, sv: Seq<i64>|
                        {
                            &&& #[trigger] input_edge_val(g, data, id, 0, e, axes, sv)
                            &&& v == elements_spec(axes, sv)
                        };
                    lemma_lookup_push(data, x, e.src);
                    assert(input_edge_val(g, data.push(x), id, 0, e, axes, sv));
                },
                Op::Mul | Op::Add => {
                    let (e0, a0, s0, e1, a1, s1) = choose|
                        e0: Edge,
                        a0: Seq<RAxis>,
                        s0: Seq<i64>,
                        e1: Edge,
                        a1: Seq<RAxis>,
                        s1: Seq<i64>,
                    |
                        {
                            &&& #[trigger] input_edge_val(g, data, id, 0, e0, a0, s0)
                            &&& #[trigger] input_edge_val(g, data, id, 1, e1, a1, s1)
                            &&& a0.len() == a1.len()
                            &&& v.len() == prod_of(ext_seq(a0))
                            &&& forall|q: int|
                                0 <= q < v.len() ==> #[trigger] v[q] as int == (if g.nodes()[id] is Mul {
                                    read_spec(a0, s0, unflatten(ext_seq(a0), q)) * read_spec(
                                        a1,
                                        s1,
                                        unflatten(ext_seq(a0), q),
                                    )
                                } else {
                                    read_spec(a0, s0, unflatten(ext_seq(a0), q)) + read_spec(
                                        a1,
                                        s1,
                                        unflatten(ext_seq(a0), q),
                                    )
                                })
                        };
                    lemma_lookup_push(data, x, e0.src);
                    lemma_lookup_push(data, x, e1.src);
                    assert(input_edge_val(g, data.push(x), id, 0, e0, a0, s0));
                    assert(input_edge_val(g, data.push(x), id, 1, e1, a1, s1));
                },
                Op::SumReduce(d) => {
                    let (e0, a0, s0) = choose|e0: Edge, a0: Seq<RAxis>, s0: Seq<i64>|
                        {
                            &&& #[trigger] input_edge_val(g, data, id, 0, e0, a0, s0)
                            &&& (d as int) < a0.len()
                            &&& v.len() == prod_of(ext_seq(a0).remove(d as int))
                            &&& forall|q: int|
                                0 <= q < v.len() ==> #[trigger] v[q] as int == axis_sum(
                                    a0,
                                    s0,
                                    unflatten(ext_seq(a0).remove(d as int), q),
                                    d as int,
                                    ext_of(a0[d as int]),
                                )
                        };
                    lemma_lookup_push(data, x, e0.src);
                    assert(input_edge_val(g, data.push(x), id, 0, e0, a0, s0));
                },
                Op::MatVec(_) | Op::MatVec1Row(_) => {
                    let (e0, a0, s0, e1, a1, s1) = choose|
                        e0: Edge,
                        a0: Seq<RAxis>,
                        s0: Seq<i64>,
                        e1: Edge,
                        a1: Seq<RAxis>,
                        s1: Seq<i64>,
                    |
                        {
                            &&& #[trigger] input_edge_val(g, data, id, 0, e0, a0, s0)
                            &&& #[trigger] input_edge_val(g, data, id, 1, e1, a1, s1)
                            &&& a0.len() == 1
                            &&& a1.len() == 2
                            &&& v.len() == ext_of(a1[1])
                            &&& forall|col: int|
                                0 <= col < v.len() ==> #[trigger] v[col] as int == dot_to(
                                    a0,
                                    s0,
                                    a1,
                                    s1,
                                    col,
                                    ext_of(a1[0]),
                                )
                        };
                    lemma_lookup_push(data, x, e0.src);
                    lemma_lookup_push(data, x, e1.src);
                    assert(input_edge_val(g, data.push(x), id, 0, e0, a0, s0));
                    assert(input_edge_val(g, data.push(x), id, 1, e1, a1, s1));
                },
                _ => {
                },
            }
        },
    }
}

/// One operand, ready to read: its data and its resolved view.
struct Operand {
    data: Vec<i64>,
    axes: Vec<RAxis>,
}

impl Operand {
    /// The resolved view is within the backend's limits.
    spec fn small(self) -> bool {
        axes_small(self.axes@)
    }
}

/// Reads one element of an operand.
fn rd(a: &Operand, idx: &Vec<usize>) -> (r: i64)
    requires
        a.small(),
        idx@.len() == a.axes@.len(),
    ensures
        r == read_spec(a.axes@, a.data@, Seq::new(idx@.len(), |k: int| idx@[k] as int)),
{
    read_at(&a.axes, &a.data, idx)
}

/// Evaluates one operator over its operands.  The transcendental
/// operators have no integer meaning and report `Unsupported`.
fn run_node(
    op: &Op,
    data: Option<Vec<i64>>,
    inputs: Vec<Operand>,
    env: &Vec<(char, usize)>,
) -> (r: Result<Vec<i64>, ExecError>)
    requires
        forall|i: int| 0 <= i < inputs@.len() ==> (#[trigger] inputs@[i]).small(),
    ensures
        (data is None && *op is Contiguous && r is Ok) ==> inputs@.len() >= 1 && (r matches Ok(v)
            && v@ == elements_spec(inputs@[0].axes@, inputs@[0].data@)),
        (data is None && *op matches Op::Function(FunctionKind::Load)) ==> r is Err,
        (match *op {
            Op::Function(FunctionKind::SymValue(c)) => (data is None && r is Ok) ==> (r matches Ok(
                v,
            ) && (match crate::expr::lookup_sym(env@, c) {
                Some(sv) => sv <= 0x7fff_ffff && v@ =~= seq![sv as i64],
                None => false,
            })),
            _ => true,
        }),
        (data is None && (*op is Mul || *op is Add) && r is Ok) ==> inputs@.len() >= 2 && (
        r matches Ok(v) && inputs@[0].axes@.len() == inputs@[1].axes@.len() && v@.len() == prod_of(
            ext_seq(inputs@[0].axes@),
        ) && forall|q: int|
            0 <= q < v@.len() ==> #[trigger] v@[q] as int == (if *op is Mul {
                read_spec(
                    inputs@[0].axes@,
                    inputs@[0].data@,
                    unflatten(ext_seq(inputs@[0].axes@), q),
                ) * read_spec(
                    inputs@[1].axes@,
                    inputs@[1].data@,
                    unflatten(ext_seq(inputs@[0].axes@), q),
                )
            } else {
                read_spec(
                    inputs@[0].axes@,
                    inputs@[0].data@,
                    unflatten(ext_seq(inputs@[0].axes@), q),
                ) + read_spec(
                    inputs@[1].axes@,
                    inputs@[1].data@,
                    unflatten(ext_seq(inputs@[0].axes@), q),
                )
            })),
        (data is None && (*op is MatVec || *op is MatVec1Row) && r is Ok) ==> inputs@.len() >= 2
            && (r matches Ok(v) && inputs@[0].axes@.len() == 1 && inputs@[1].axes@.len() == 2
            && v@.len() == ext_of(inputs@[1].axes@[1]) && forall|col: int|
            0 <= col < v@.len() ==> #[trigger] v@[col] as int == dot_to(
                inputs@[0].axes@,
                inputs@[0].data@,
                inputs@[1].axes@,
                inputs@[1].data@,
                col,
                ext_of(inputs@[1].axes@[0]),
            )),
        (match *op {
            Op::SumReduce(d) => (data is None && r is Ok) ==> inputs@.len() >= 1 && (r matches Ok(
                v,
            ) && (d as int) < inputs@[0].axes@.len() && v@.len() == prod_of(
                ext_seq(inputs@[0].axes@).remove(d as int),
            ) && forall|q: int|
                0 <= q < v@.len() ==> #[trigger] v@[q] as int == axis_sum(
                    inputs@[0].axes@,
                    inputs@[0].data@,
                    unflatten(ext_seq(inputs@[0].axes@).remove(d as int), q),
                    d as int,
                    ext_of(inputs@[0].axes@[d as int]),
                )),
            Op::Function(FunctionKind::Arange(e)) => (data is None && r is Ok) ==> (r matches Ok(
                v,
            ) && crate::expr::eval_spec(e, env@) == Some(v@.len() as usize) && forall|q: int|
                0 <= q < v@.len() ==> #[trigger] v@[q] == q as i64),
            _ => true,
        }),
{
    match data {
        Some(d) => {
            return Ok(d);
        },
        None => {},
    }
    match op {
        Op::Function(FunctionKind::Load) => Err(ExecError::MissingInput),
        Op::Function(FunctionKind::Arange(e)) => {
            let n = match e.eval(env) {
                Some(v) => v,
                None => {
                    return Err(ExecError::SymbolUnbound);
                },
            };
            if n > 0x7fff_ffff {
                return Err(ExecError::Overflow);
            }
            let mut out: Vec<i64> = Vec::new();
            let mut j: usize = 0;
            while j < n
                invariant
                    j <= n,
                    n <= 0x7fff_ffff,
                    out@.len() == j,
                    forall|q: int| 0 <= q < j ==> #[trigger] out@[q] == q as i64,
                decreases n - j,
            {
                out.push(j as i64);
                j = j + 1;
            }
            Ok(out)
        },
        Op::Function(FunctionKind::SymValue(c)) => {
            let v = match crate::expr::lookup_env(env, *c) {
                Some(v) => v,
                None => {
                    return Err(ExecError::SymbolUnbound);
                },
            };
            if v > 0x7fff_ffff {
                return Err(ExecError::Overflow);
            }
            let mut out: Vec<i64> = Vec::new();
            out.push(v as i64);
            Ok(out)
        },
        Op::Mul | Op::Add => {
            if inputs.len() < 2 {
                return Err(ExecError::ShapeMismatch);
            }
            let a = &inputs[0];
            let b = &inputs[1];
            if a.axes.len() != b.axes.len() {
                return Err(ExecError::ShapeMismatch);
            }
            let exts = exts_of(&a.axes);
            let total = match total_of(&exts) {
                Some(t) => t,
                None => {
                    return Err(ExecError::Overflow);
                },
            };
            proof {
                assert(ints_of(exts@) =~= ext_seq(a.axes@));
                assert(total as int == prod_of(ext_seq(a.axes@)));
                if total > 0 {
                    assert forall|i: int| 0 <= i < exts@.len() implies #[trigger] exts@[i]
                        > 0 by {
                        lemma_prod_pos(ints_of(exts@), i);
                        assert(ints_of(exts@)[i] == exts@[i] as int);
                    }
                }
            }
            let is_mul = matches!(op, Op::Mul);
            let mut out: Vec<i64> = Vec::new();
            let mut j: usize = 0;
            while j < total
                invariant
                    j <= total,
                    a.small(),
                    b.small(),
                    exts@.len() == a.axes@.len(),
                    a.axes@.len() == b.axes@.len(),
                    is_mul == *op is Mul,
                    ints_of(exts@) == ext_seq(a.axes@),
                    total as int == prod_of(ext_seq(a.axes@)),
                    total > 0 ==> forall|i: int| 0 <= i < exts@.len() ==> #[trigger] exts@[i] > 0,
                    out@.len() == j,
                    forall|q: int|
                        0 <= q < j ==> #[trigger] out@[q] as int == (if is_mul {
                            read_spec(a.axes@, a.data@, unflatten(ext_seq(a.axes@), q))
                                * read_spec(b.axes@, b.data@, unflatten(ext_seq(a.axes@), q))
                        } else {
                            read_spec(a.axes@, a.data@, unflatten(ext_seq(a.axes@), q))
                                + read_spec(b.axes@, b.data@, unflatten(ext_seq(a.axes@), q))
                        }),
                decreases total - j,
            {
                let idx = unflat(&exts, j);
                let x = rd(a, &idx);
                let y = rd(b, &idx);
                proof {
                    assert(ints_of(idx@) == unflatten(ints_of(exts@), j as int));
                    assert(Seq::new(idx@.len(), |k: int| idx@[k] as int) =~= ints_of(idx@));
                }
                let v = if is_mul {
                    x.checked_mul(y)
                } else {
                    x.checked_add(y)
                };
                match v {
                    Some(v) => out.push(v),
                    None => {
                        return Err(ExecError::Overflow);
                    },
                }
                j = j + 1;
            }
            Ok(out)
        },
        Op::SumReduce(d) | Op::MaxReduce(d) => {
            if inputs.len() < 1 {
                return Err(ExecError::ShapeMismatch);
            }
            let a = &inputs[0];
            let exts = exts_of(&a.axes);
            if *d >= exts.len() {
                return Err(ExecError::ShapeMismatch);
            }
            let red = exts[*d];
            let mut out_exts = clone_usizes(&exts);
            out_exts.remove(*d);
            let total = match total_of(&out_exts) {
                Some(t) => t,
                None => {
                    return Err(ExecError::Overflow);
                },
            };
            proof {
                assert(ints_of(exts@) =~= ext_seq(a.axes@));
                assert(ints_of(out_exts@) =~= ext_seq(a.axes@).remove(*d as int));
                assert(total as int == prod_of(ext_seq(a.axes@).remove(*d as int)));
                if total > 0 {
                    assert forall|i: int| 0 <= i < out_exts@.len() implies #[trigger] out_exts@[i]
                        > 0 by {
                        lemma_prod_pos(ints_of(out_exts@), i);
                        assert(ints_of(out_exts@)[i] == out_exts@[i] as int);
                    }
                }
            }
            let is_sum = matches!(op, Op::SumReduce(_));
            let mut out: Vec<i64> = Vec::new();
            let mut j: usize = 0;
            while j < total
                invariant
                    j <= total,
                    a.small(),
                    out_exts@.len() + 1 == a.axes@.len(),
                    *d < a.axes@.len(),
                    red as int == ext_seq(a.axes@)[*d as int],
                    is_sum == *op is SumReduce,
                    ints_of(out_exts@) == ext_seq(a.axes@).remove(*d as int),
                    total as int == prod_of(ext_seq(a.axes@).remove(*d as int)),
                    total > 0 ==> forall|i: int|
                        0 <= i < out_exts@.len() ==> #[trigger] out_exts@[i] > 0,
                    out@.len() == j,
                    is_sum ==> forall|q: int|
                        0 <= q < j ==> #[trigger] out@[q] as int == axis_sum(
                            a.axes@,
                            a.data@,
                            unflatten(ext_seq(a.axes@).remove(*d as int), q),
                            *d as int,
                            ext_of(a.axes@[*d as int]),
                        ),
                decreases total - j,
            {
                let base = unflat(&out_exts, j);
                proof {
                    assert(ints_of(base@) == unflatten(ints_of(out_exts@), j as int));
                }
                let mut acc: i64 = if is_sum {
                    0
                } else {
                    i64::MIN
                };
                let mut v: usize = 0;
                let mut started = false;
                while v < red
                    invariant
                        v <= red,
                        a.small(),
                        base@.len() + 1 == a.axes@.len(),
                        *d < a.axes@.len(),
                        is_sum == *op is SumReduce,
                        is_sum ==> acc as int == axis_sum(
                            a.axes@,
                            a.data@,
                            ints_of(base@),
                            *d as int,
                            v as int,
                        ),
                    decreases red - v,
                {
                    let mut idx = clone_usizes(&base);
                    idx.insert(*d, v);
                    proof {
                        assert(ints_of(idx@) =~= ints_of(base@).insert(*d as int, v as int));
                        assert(Seq::new(idx@.len(), |k: int| idx@[k] as int) =~= ints_of(idx@));
                    }
                    let x = rd(a, &idx);
                    if is_sum {
                        match acc.checked_add(x) {
                            Some(s) => {
                                acc = s;
                            },
                            None => {
                                return Err(ExecError::Overflow);
                            },
                        }
                    } else {
                        if !started || x > acc {
                            acc = x;
                        }
                    }
                    started = true;
                    v = v + 1;
                }
                proof {
                    if is_sum {
                        assert(red as int == ext_of(a.axes@[*d as int]));
                    }
                }
                out.push(acc);
                j = j + 1;
            }
            Ok(out)
        },
                Op::Contiguous => {
            if inputs.len() < 1 {
                return Err(ExecError::ShapeMismatch);
            }
            let a = &inputs[0];
            let exts = exts_of(&a.axes);
            let total = match total_of(&exts) {
                Some(t) => t,
                None => {
                    return Err(ExecError::Overflow);
                },
            };
            proof {
                assert(ints_of(exts@) =~= ext_seq(a.axes@));
                assert(total as int == prod_of(ext_seq(a.axes@)));
                if total > 0 {
                    assert forall|i: int| 0 <= i < exts@.len() implies #[trigger] exts@[i]
                        > 0 by {
                        lemma_prod_pos(ints_of(exts@), i);
                        assert(ints_of(exts@)[i] == exts@[i] as int);
                    }
                }
            }
            let mut out: Vec<i64> = Vec::new();
            let mut j: usize = 0;
            while j < total
                invariant
                    j <= total,
                    a.small(),
                    exts@.len() == a.axes@.len(),
                    ints_of(exts@) == ext_seq(a.axes@),
                    total as int == prod_of(ext_seq(a.axes@)),
                    total > 0 ==> forall|i: int| 0 <= i < exts@.len() ==> #[trigger] exts@[i] > 0,
                    out@.len() == j,
                    forall|q: int| 0 <= q < j ==> #[trigger] out@[q] == elements_spec(
                        a.axes@,
                        a.data@,
                    )[q],
                decreases total - j,
            {
                let idx = unflat(&exts, j);
                let x = rd(a, &idx);
                proof {
                    assert(ints_of(idx@) == unflatten(ints_of(exts@), j as int));
                    assert(Seq::new(idx@.len(), |k: int| idx@[k] as int) =~= ints_of(idx@));
                    assert(x == read_spec(a.axes@, a.data@, unflatten(ext_seq(a.axes@), j as int)));
                    assert(elements_spec(a.axes@, a.data@)[j as int] == x);
                }
                out.push(x);
                j = j + 1;
            }
            proof {
                assert(out@ =~= elements_spec(inputs@[0].axes@, inputs@[0].data@));
            }
            Ok(out)
        },
        Op::MatVec1Row(_) | Op::MatVec(_) => {
            if inputs.len() < 2 {
                return Err(ExecError::ShapeMismatch);
            }
            let a = &inputs[0];
            let b = &inputs[1];
            if a.axes.len() != 1 || b.axes.len() != 2 {
                return Err(ExecError::ShapeMismatch);
            }
            let bexts = exts_of(&b.axes);
            let m = bexts[0];
            let n = bexts[1];
            let mut out: Vec<i64> = Vec::new();
            let mut col: usize = 0;
            while col < n
                invariant
                    col <= n,
                    a.small(),
                    b.small(),
                    a.axes@.len() == 1,
                    b.axes@.len() == 2,
                    m as int == ext_of(b.axes@[0]),
                    n as int == ext_of(b.axes@[1]),
                    out@.len() == col,
                    forall|q: int|
                        0 <= q < col ==> #[trigger] out@[q] as int == dot_to(
                            a.axes@,
                            a.data@,
                            b.axes@,
                            b.data@,
                            q,
                            ext_of(b.axes@[0]),
                        ),
                decreases n - col,
            {
                let mut acc: i64 = 0;
                let mut row: usize = 0;
                while row < m
                    invariant
                        row <= m,
                        a.small(),
                        b.small(),
                        a.axes@.len() == 1,
                        b.axes@.len() == 2,
                        m as int == ext_of(b.axes@[0]),
                        acc as int == dot_to(a.axes@, a.data@, b.axes@, b.data@, col as int, row as int),
                    decreases m - row,
                {
                    let mut ia: Vec<usize> = Vec::new();
                    ia.push(row);
                    let mut ib: Vec<usize> = Vec::new();
                    ib.push(row);
                    ib.push(col);
                    proof {
                        assert(Seq::new(ia@.len(), |k: int| ia@[k] as int) =~= seq![row as int]);
                        assert(Seq::new(ib@.len(), |k: int| ib@[k] as int) =~= seq![
                            row as int,
                            col as int,
                        ]);
                    }
                    let x = rd(a, &ia);
                    let y = rd(b, &ib);
                    let p = match x.checked_mul(y) {
                        Some(p) => p,
                        None => {
                            return Err(ExecError::Overflow);
                        },
                    };
                    match acc.checked_add(p) {
                        Some(sm) => {
                            acc = sm;
                        },
                        None => {
                            return Err(ExecError::Overflow);
                        },
                    }
                    row = row + 1;
                }
                out.push(acc);
                col = col + 1;
            }
            Ok(out)
        },
                Op::Matmul(_) => {
            if inputs.len() < 2 {
                return Err(ExecError::ShapeMismatch);
            }
            let a = &inputs[0];
            let b = &inputs[1];
            if b.axes.len() != 2 || (a.axes.len() != 2 && a.axes.len() != 3) {
                return Err(ExecError::ShapeMismatch);
            }
            let aexts = exts_of(&a.axes);
            let bexts = exts_of(&b.axes);
            let batched = a.axes.len() == 3;
            let batch = if batched {
                aexts[0]
            } else {
                1
            };
            let m = if batched {
                aexts[1]
            } else {
                aexts[0]
            };
            let kk = bexts[0];
            let n = bexts[1];
            let mut out: Vec<i64> = Vec::new();
            let mut bi: usize = 0;
            while bi < batch
                invariant
                    bi <= batch,
                    a.small(),
                    b.small(),
                    b.axes@.len() == 2,
                    a.axes@.len() == 2 || a.axes@.len() == 3,
                    batched == (a.axes@.len() == 3),
                decreases batch - bi,
            {
                let mut row: usize = 0;
                while row < m
                    invariant
                        row <= m,
                        a.small(),
                        b.small(),
                        b.axes@.len() == 2,
                        a.axes@.len() == 2 || a.axes@.len() == 3,
                        batched == (a.axes@.len() == 3),
                    decreases m - row,
                {
                    let mut col: usize = 0;
                    while col < n
                        invariant
                            col <= n,
                            a.small(),
                            b.small(),
                            b.axes@.len() == 2,
                            a.axes@.len() == 2 || a.axes@.len() == 3,
                            batched == (a.axes@.len() == 3),
                        decreases n - col,
                    {
                        let mut acc: i64 = 0;
                        let mut t: usize = 0;
                        while t < kk
                            invariant
                                t <= kk,
                                a.small(),
                                b.small(),
                                b.axes@.len() == 2,
                                a.axes@.len() == 2 || a.axes@.len() == 3,
                                batched == (a.axes@.len() == 3),
                            decreases kk - t,
                        {
                            let mut ia: Vec<usize> = Vec::new();
                            if batched {
                                ia.push(bi);
                            }
                            ia.push(row);
                            ia.push(t);
                            let mut ib: Vec<usize> = Vec::new();
                            ib.push(t);
                            ib.push(col);
                            let x = rd(a, &ia);
                            let y = rd(b, &ib);
                            let p = match x.checked_mul(y) {
                                Some(p) => p,
                                None => {
                                    return Err(ExecError::Overflow);
                                },
                            };
                            match acc.checked_add(p) {
                                Some(s) => {
                                    acc = s;
                                },
                                None => {
                                    return Err(ExecError::Overflow);
                                },
                            }
                            t = t + 1;
                        }
                        out.push(acc);
                        col = col + 1;
                    }
                    row = row + 1;
                }
                bi = bi + 1;
            }
            Ok(out)
        },
        _ => Err(ExecError::Unsupported),
    }
}

/// A copy of a vector of indices.
fn clone_usizes(v: &Vec<usize>) -> (r: Vec<usize>)
    ensures
        r@ == v@,
{
    let n = v.len();
    let mut r: Vec<usize> = Vec::new();
    let mut i: usize = 0;
    while i < n
        invariant
            i <= n,
            n == v@.len(),
            r@.len() == i,
            forall|q: int| 0 <= q < i ==> #[trigger] r@[q] == v@[q],
        decreases n - i,
    {
        r.push(v[i]);
        i = i + 1;
    }
    proof {
        assert(r@ =~= v@);
    }
    r
}

/// A copy of a data buffer.
fn clone_data(v: &Vec<i64>) -> (r: Vec<i64>)
    ensures
        r@ == v@,
{
    let n = v.len();
    let mut r: Vec<i64> = Vec::new();
    let mut i: usize = 0;
    while i < n
        invariant
            i <= n,
            n == v@.len(),
            r@.len() == i,
            forall|q: int| 0 <= q < i ==> #[trigger] r@[q] == v@[q],
        decreases n - i,
    {
        r.push(v[i]);
        i = i + 1;
    }
    proof {
        assert(r@ =~= v@);
    }
    r
}

/// The buffers execution produced, keyed by node id.
pub struct Outputs {
    /// Node id and its output buffer.
    pub data: Vec<(usize, Vec<i64>)>,
}

/// Whether the outputs hold a buffer for the node.
pub open spec fn outputs_have(o: Outputs, id: usize) -> bool {
    exists|j: int| 0 <= j < o.data@.len() && (#[trigger] o.data@[j]).0 == id
}

impl Outputs {
    /// The buffer computed for the node, if any: the first entry
    /// stored under the id.
    pub fn get(&self, id: usize) -> (r: Option<&Vec<i64>>)
        ensures
            r matches Some(v) ==> exists|j: int|
                {
                    &&& 0 <= j < self.data@.len()
                    &&& (#[trigger] self.data@[j]).0 == id
                    &&& self.data@[j].1 == *v
                    &&& forall|q: int| 0 <= q < j ==> (#[trigger] self.data@[q]).0 != id
                },
            r is None ==> !outputs_have(*self, id),
    {
        let n = self.data.len();
        let mut i: usize = 0;
        while i < n
            invariant
                i <= n,
                n == self.data@.len(),
                forall|q: int| 0 <= q < i ==> (#[trigger] self.data@[q]).0 != id,
            decreases n - i,
        {
            if self.data[i].0 == id {
                proof {
                    assert((self.data@[i as int]).0 == id);
                }
                return Some(&self.data[i].1);
            }
            i = i + 1;
        }
        proof {
            if outputs_have(*self, id) {
                let j = choose|j: int|
                    0 <= j < self.data@.len() && (#[trigger] self.data@[j]).0 == id;
                assert(false);
            }
        }
        None
    }
}

/// The index of a node's entry in the value table, if present.
fn find_val(vals: &Vec<(usize, Vec<i64>)>, id: usize) -> (r: Option<usize>)
    ensures
        r matches Some(i) ==> i < vals@.len() && vals@[i as int].0 == id,
        r is Some <==> exists|j: int| 0 <= j < vals@.len() && (#[trigger] vals@[j]).0 == id,
{
    let n = vals.len();
    let mut i: usize = 0;
    while i < n
        invariant
            i <= n,
            n == vals@.len(),
            forall|q: int| 0 <= q < i ==> (#[trigger] vals@[q]).0 != id,
        decreases n - i,
    {
        if vals[i].0 == id {
            return Some(i);
        }
        i = i + 1;
    }
    proof {
        if exists|j: int| 0 <= j < vals@.len() && (#[trigger] vals@[j]).0 == id {
            let j = choose|j: int| 0 <= j < vals@.len() && (#[trigger] vals@[j]).0 == id;
            assert(false);
        }
    }
    None
}

/// Runs the graph: repeatedly evaluates every node whose inputs are
/// ready, then returns the buffers.
///
/// On success the table holds one buffer per node, with no id twice,
/// every buffer consistent with its node's value semantics over the
/// table, and in particular every retrieved node covered.  A graph
/// whose every node carries attached data always executes.
pub fn execute(g: &Graph) -> (r: Result<Outputs, ExecError>)
    requires
        g.wf(),
    ensures
        (match r {
            Ok(outs) => {
                &&& forall|id: usize|
                    #[trigger] g.nodes().dom().contains(id) ==> outputs_have(outs, id)
                &&& forall|p: int|
                    0 <= p < g.to_retrieve@.len() ==> outputs_have(
                        outs,
                        #[trigger] g.to_retrieve@[p],
                    )
                &&& forall|a: int, b: int|
                    0 <= a < b < outs.data@.len() ==> (#[trigger] outs.data@[a]).0 != (
                    #[trigger] outs.data@[b]).0
                &&& forall|j: int|
                    0 <= j < outs.data@.len() ==> node_entry_ok(
                        *g,
                        outs.data@,
                        (#[trigger] outs.data@[j]).0,
                        outs.data@[j].1@,
                    )
            },
            Err(_) => true,
        }),
        (forall|id: usize| #[trigger] g.nodes().dom().contains(id) ==> attached(*g, id) is Some)
            ==> r is Ok,
{
    let ids = g.node_ids();
    let n = ids.len();
    let ghost allset = forall|id: usize|
        #[trigger] g.nodes().dom().contains(id) ==> attached(*g, id) is Some;
    let mut vals: Vec<(usize, Vec<i64>)> = Vec::new();
    let mut round: usize = 0;
    while round < n
        invariant
            round <= n,
            n == ids@.len(),
            g.wf(),
            forall|i2: int| 0 <= i2 < n ==> #[trigger] g.nodes().dom().contains(ids@[i2]),
            forall|id: usize| #[trigger] g.nodes().dom().contains(id) ==> ids@.contains(id),
            allset == (forall|id: usize|
                #[trigger] g.nodes().dom().contains(id) ==> attached(*g, id) is Some),
            forall|a: int, b: int|
                0 <= a < b < vals@.len() ==> (#[trigger] vals@[a]).0 != (#[trigger] vals@[b]).0,
            forall|j: int|
                0 <= j < vals@.len() ==> node_entry_ok(
                    *g,
                    vals@,
                    (#[trigger] vals@[j]).0,
                    vals@[j].1@,
                ),
            allset && round > 0 ==> forall|i2: int|
                0 <= i2 < n ==> lookup_val(vals@, #[trigger] ids@[i2]) is Some,
        decreases n - round,
    {
        let mut i: usize = 0;
        while i < n
            invariant
                i <= n,
                n == ids@.len(),
                g.wf(),
                forall|i2: int| 0 <= i2 < n ==> #[trigger] g.nodes().dom().contains(ids@[i2]),
                allset == (forall|id: usize|
                    #[trigger] g.nodes().dom().contains(id) ==> attached(*g, id) is Some),
                forall|a: int, b: int|
                    0 <= a < b < vals@.len() ==> (#[trigger] vals@[a]).0 != (
                    #[trigger] vals@[b]).0,
                forall|j: int|
                    0 <= j < vals@.len() ==> node_entry_ok(
                        *g,
                        vals@,
                        (#[trigger] vals@[j]).0,
                        vals@[j].1@,
                    ),
                allset ==> forall|q: int|
                    0 <= q < i ==> lookup_val(vals@, #[trigger] ids@[q]) is Some,
            decreases n - i,
        {
            let id = ids[i];
            match find_val(&vals, id) {
                Some(vi) => {
                    proof {
                        lemma_lookup_at(vals@, vi as int);
                    }
                },
                None => {
                    proof {
                        lemma_lookup_absent(vals@, id);
                    }
                    match try_node(g, id, &vals) {
                        Ok(Some(v)) => {
                            let ghost pre = vals@;
                            let ghost entry = (id, v);
                            proof {
                                assert(node_entry_ok(*g, pre, id, v@));
                            }
                            vals.push((id, v));
                            proof {
                                assert(vals@ == pre.push(entry));
                                lemma_lookup_push_fresh(pre, entry);
                                assert forall|j: int|
                                    0 <= j < vals@.len() implies node_entry_ok(
                                    *g,
                                    vals@,
                                    (#[trigger] vals@[j]).0,
                                    vals@[j].1@,
                                ) by {
                                    if j < pre.len() {
                                        assert(node_entry_ok(*g, pre, pre[j].0, pre[j].1@));
                                        lemma_entry_ok_push(*g, pre, entry, pre[j].0, pre[j].1@);
                                        assert(vals@[j] == pre[j]);
                                    } else {
                                        lemma_entry_ok_push(*g, pre, entry, id, v@);
                                    }
                                }
                                assert forall|q: int|
                                    allset && 0 <= q < i + 1 implies lookup_val(
                                    vals@,
                                    #[trigger] ids@[q],
                                ) is Some by {
                                    if q < i {
                                        if lookup_val(pre, ids@[q]) is Some {
                                            lemma_lookup_push(pre, entry, ids@[q]);
                                        }
                                    } else {
                                        assert(lookup_val(vals@, id) == Some(v@));
                                    }
                                }
                            }
                        },
                        Ok(None) => {
                            proof {
                                if allset {
                                    assert(g.nodes().dom().contains(ids@[i as int]));
                                    assert(false);
                                }
                            }
                        },
                        Err(e) => {
                            proof {
                                if allset {
                                    assert(g.nodes().dom().contains(ids@[i as int]));
                                    assert(false);
                                }
                            }
                            return Err(e);
                        },
                    }
                },
            }
            i = i + 1;
        }
        round = round + 1;
    }
    let outs = Outputs { data: vals };
    let m = ids.len();
    let mut p: usize = 0;
    while p < m
        invariant
            p <= m,
            m == ids@.len(),
            g.wf(),
            forall|id: usize| #[trigger] g.nodes().dom().contains(id) ==> ids@.contains(id),
            allset == (forall|id: usize|
                #[trigger] g.nodes().dom().contains(id) ==> attached(*g, id) is Some),
            allset && m > 0 ==> forall|i2: int|
                0 <= i2 < m ==> lookup_val(outs.data@, #[trigger] ids@[i2]) is Some,
            forall|a: int, b: int|
                0 <= a < b < outs.data@.len() ==> (#[trigger] outs.data@[a]).0 != (
                #[trigger] outs.data@[b]).0,
            forall|j: int|
                0 <= j < outs.data@.len() ==> node_entry_ok(
                    *g,
                    outs.data@,
                    (#[trigger] outs.data@[j]).0,
                    outs.data@[j].1@,
                ),
            forall|q: int| 0 <= q < p ==> outputs_have(outs, #[trigger] ids@[q]),
        decreases m - p,
    {
        let id = ids[p];
        match outs.get(id) {
            Some(_) => {},
            None => {
                proof {
                    if allset {
                        assert(lookup_val(outs.data@, ids@[p as int]) is Some);
                        lemma_lookup_some_exists(outs.data@, id);
                        assert(false);
                    }
                }
                return Err(ExecError::MissingInput);
            },
        }
        p = p + 1;
    }
    proof {
        assert forall|id: usize| #[trigger] g.nodes().dom().contains(id) implies outputs_have(
            outs,
            id,
        ) by {
            assert(ids@.contains(id));
            let q = choose|q: int| 0 <= q < ids@.len() && ids@[q] == id;
            assert(outputs_have(outs, ids@[q]));
        }
        assert forall|p2: int| 0 <= p2 < g.to_retrieve@.len() implies outputs_have(
            outs,
            #[trigger] g.to_retrieve@[p2],
        ) by {
            assert(g.nodes().dom().contains(g.to_retrieve@[p2]));
        }
    }
    Ok(outs)
}

/// Tries to evaluate one node: `Ok(None)` when an input's buffer is
/// not in the table yet, `Ok(Some(v))` when it produced a buffer
/// consistent with the table.  A node with attached data always
/// produces that data.
fn try_node(g: &Graph, id: usize, vals: &Vec<(usize, Vec<i64>)>) -> (r: Result<
    Option<Vec<i64>>,
    ExecError,
>)
    requires
        forall|a: int, b: int|
            0 <= a < b < vals@.len() ==> (#[trigger] vals@[a]).0 != (#[trigger] vals@[b]).0,
    ensures
        (match r {
            Ok(rv) => match rv {
                Some(v) => node_entry_ok(*g, vals@, id, v@),
                None => true,
            },
            Err(_) => true,
        }),
        g.nodes().dom().contains(id) && attached(*g, id) is Some ==> (match r {
            Ok(rv) => match rv {
                Some(v) => Some(v@) == attached(*g, id),
                None => false,
            },
            Err(_) => false,
        }),
{
    let op = match g.op_of(id) {
        Some(op) => op,
        None => {
            return Ok(None);
        },
    };
    // data attached by `set` wins over the operator
    let tn = g.tensors.len();
    let mut ti: usize = 0;
    proof {
        assert(g.tensors@.skip(0) =~= g.tensors@);
    }
    while ti < tn
        invariant
            ti <= tn,
            tn == g.tensors@.len(),
            g.nodes().dom().contains(id),
            lookup_val(g.tensors@, id) == lookup_val(g.tensors@.skip(ti as int), id),
        decreases tn - ti,
    {
        if g.tensors[ti].0 == id {
            proof {
                assert(g.tensors@.skip(ti as int)[0] == g.tensors@[ti as int]);
            }
            let v = clone_data(&g.tensors[ti].1);
            proof {
                assert(attached(*g, id) == Some(v@));
            }
            return Ok(Some(v));
        }
        proof {
            assert(g.tensors@.skip(ti as int)[0] == g.tensors@[ti as int]);
            assert(g.tensors@.skip(ti as int).skip(1) =~= g.tensors@.skip(ti as int + 1));
        }
        ti = ti + 1;
    }
    proof {
        assert(g.tensors@.skip(tn as int).len() == 0);
        assert(attached(*g, id) is None);
    }
    // gather the first two input slots; `Ok(None)` when a producer's
    // buffer is not in the table yet
    let mut pool = g.in_edges(id);
    let ghost pool0 = pool@;
    let mut inputs: Vec<Operand> = Vec::new();
    let ghost mut w0: (Edge, Seq<RAxis>, Seq<i64>) = vstd::pervasive::arbitrary();
    let ghost mut w1: (Edge, Seq<RAxis>, Seq<i64>) = w0;
    match crate::graph::take_slot(&mut pool, 0) {
        Some(e) => {
            match find_val(vals, e.src) {
                Some(vi) => {
                    if !crate::select::wf_exec(&e.shape) {
                        return Err(ExecError::ShapeMismatch);
                    }
                    let axes = match resolve(&e.shape, &g.dyn_map) {
                        Ok(a) => a,
                        Err(er) => {
                            return Err(er);
                        },
                    };
                    let data2 = clone_data(&vals[vi].1);
                    proof {
                        lemma_lookup_at(vals@, vi as int);
                        assert(pool0.contains(e));
                        let q = choose|q: int| 0 <= q < pool0.len() && pool0[q] == e;
                        assert(g.edges().contains(pool0[q]));
                        w0 = (e, axes@, data2@);
                        assert(input_edge_val(*g, vals@, id, 0, w0.0, w0.1, w0.2));
                    }
                    inputs.push(Operand { data: data2, axes });
                },
                None => {
                    return Ok(None);
                },
            }
        },
        None => {},
    }
    if inputs.len() == 1 {
        let ghost pool1 = pool@;
        match crate::graph::take_slot(&mut pool, 1) {
            Some(e) => {
                match find_val(vals, e.src) {
                    Some(vi) => {
                        if !crate::select::wf_exec(&e.shape) {
                            return Err(ExecError::ShapeMismatch);
                        }
                        let axes = match resolve(&e.shape, &g.dyn_map) {
                            Ok(a) => a,
                            Err(er) => {
                                return Err(er);
                            },
                        };
                        let data2 = clone_data(&vals[vi].1);
                        proof {
                            lemma_lookup_at(vals@, vi as int);
                            assert(pool1.contains(e));
                            assert(pool0.contains(e));
                            let q = choose|q: int| 0 <= q < pool0.len() && pool0[q] == e;
                            assert(g.edges().contains(pool0[q]));
                            w1 = (e, axes@, data2@);
                            assert(input_edge_val(*g, vals@, id, 1, w1.0, w1.1, w1.2));
                        }
                        inputs.push(Operand { data: data2, axes });
                    },
                    None => {
                        return Ok(None);
                    },
                }
            },
            None => {},
        }
    }
    let ghost ins = inputs@;
    let res = run_node(&op, None, inputs, &g.dyn_map);
    match res {
        Ok(v) => {
            proof {
                assert(g.nodes()[id] == op);
                match op {
                    Op::Contiguous => {
                        assert(ins.len() >= 1);
                        assert(ins[0].axes@ == w0.1 && ins[0].data@ == w0.2);
                        assert(input_edge_val(*g, vals@, id, 0, w0.0, w0.1, w0.2));
                        assert(v@ == elements_spec(w0.1, w0.2));
                    },
                    Op::Mul | Op::Add => {
                        assert(ins.len() >= 2);
                        assert(ins[0].axes@ == w0.1 && ins[0].data@ == w0.2);
                        assert(ins[1].axes@ == w1.1 && ins[1].data@ == w1.2);
                        assert(input_edge_val(*g, vals@, id, 0, w0.0, w0.1, w0.2));
                        assert(input_edge_val(*g, vals@, id, 1, w1.0, w1.1, w1.2));
                    },
                    Op::SumReduce(d) => {
                        assert(ins.len() >= 1);
                        assert(ins[0].axes@ == w0.1 && ins[0].data@ == w0.2);
                        assert(input_edge_val(*g, vals@, id, 0, w0.0, w0.1, w0.2));
                    },
                    Op::MatVec(_) | Op::MatVec1Row(_) => {
                        assert(ins.len() >= 2);
                        assert(ins[0].axes@ == w0.1 && ins[0].data@ == w0.2);
                        assert(ins[1].axes@ == w1.1 && ins[1].data@ == w1.2);
                        assert(input_edge_val(*g, vals@, id, 0, w0.0, w0.1, w0.2));
                        assert(input_edge_val(*g, vals@, id, 1, w1.0, w1.1, w1.2));
                    },
                    _ => {
                    },
                }
                assert(node_entry_ok(*g, vals@, id, v@));
            }
            Ok(Some(v))
        },
        Err(e) => Err(e),
    }
}

/// The extent expression of an axis evaluates to the extent of its
/// resolved form.
proof fn lemma_ext_eval(v: crate::shape::AxisView, a: RAxis, env: Seq<(char, usize)>)
    requires
        a.dim <= MAX_DIM,
        a.pad_lo <= MAX_DIM,
        a.pad_hi <= MAX_DIM,
        a.mask_lo + a.win <= a.dim,
        crate::expr::eval_spec(v.dim, env) == Some(a.dim),
        crate::expr::eval_spec(v.mask.0, env) == Some(a.mask_lo),
        crate::expr::eval_spec(v.padding.0, env) == Some(a.pad_lo),
        crate::expr::eval_spec(v.padding.1, env) == Some(a.pad_hi),
        match crate::expr::eval_spec(v.mask.1, env) {
            Some(hv) => a.mask_lo + a.win == (if hv < a.dim {
                hv as int
            } else {
                a.dim as int
            }),
            None => false,
        },
    ensures
        crate::expr::eval_spec(crate::shape::ext_expr(v), env) matches Some(e) && e as int
            == ext_of(a),
{
    broadcast use vstd::group_vstd_default;

    let hv = crate::expr::eval_spec(v.mask.1, env)->Some_0;
    if v.mask == (Expr::Num(0), v.dim) && v.padding == (Expr::Num(0), Expr::Num(0)) {
        assert(crate::expr::eval_spec(Expr::Num(0), env) == Some(0usize));
        assert(a.mask_lo == 0 && a.pad_lo == 0 && a.pad_hi == 0);
        assert(hv == a.dim);
        assert(a.win == a.dim);
        assert(crate::expr::eval_spec(crate::shape::ext_expr(v), env) == Some(a.dim));
        assert(ext_of(a) == a.dim as int);
    } else {
        let inner_min = Expr::Min(Box::new(v.mask.1), Box::new(v.dim));
        let inner_sub = Expr::Sub(Box::new(inner_min), Box::new(v.mask.0));
        let pads = Expr::Add(Box::new(v.padding.0), Box::new(v.padding.1));
        assert(crate::shape::ext_expr(v) == Expr::Add(Box::new(pads), Box::new(inner_sub)));
        let mn: usize = if hv < a.dim {
            hv
        } else {
            a.dim
        };
        assert(crate::expr::eval_spec(inner_min, env) == Some(mn)) by {
            reveal_with_fuel(crate::expr::eval_spec, 2);
        }
        assert(mn >= a.mask_lo);
        assert(crate::expr::eval_spec(inner_sub, env) == Some((mn - a.mask_lo) as usize)) by {
            reveal_with_fuel(crate::expr::eval_spec, 2);
        }
        assert(mn - a.mask_lo == a.win);
        assert(a.pad_lo + a.pad_hi <= usize::MAX);
        assert(crate::expr::eval_spec(pads, env) == Some((a.pad_lo + a.pad_hi) as usize)) by {
            reveal_with_fuel(crate::expr::eval_spec, 2);
        }
        assert(a.pad_lo + a.pad_hi + a.win <= usize::MAX);
        assert(crate::expr::eval_spec(crate::shape::ext_expr(v), env) == Some(
            (a.pad_lo + a.pad_hi + a.win) as usize,
        )) by {
            reveal_with_fuel(crate::expr::eval_spec, 2);
        }
        assert(ext_of(a) == a.pad_lo + a.win + a.pad_hi);
    }
}

/// A fresh contiguous tracker resolves to the fresh contiguous view
/// over the values of its dimensions.
proof fn lemma_fresh_tracker_resolved(
    t: ShapeTracker,
    env: Seq<(char, usize)>,
    axes: Seq<RAxis>,
    dims: Seq<Expr>,
)
    requires
        t.rank() == dims.len(),
        forall|k: int| 0 <= k < dims.len() ==> #[trigger] t.lview()[k]
            == crate::shape::default_axis(dims[k]),
        forall|k: int| 0 <= k < dims.len() ==> #[trigger] t.indexes@[k] == k,
        resolved(t, env, axes),
    ensures
        axes =~= fresh_axes(ext_seq(axes)),
{
    assert forall|k: int| 0 <= k < axes.len() implies axes[k] == fresh_axes(ext_seq(axes))[k] by {
        let a = axes[k];
        let v = t.lview()[k];
        assert(v == crate::shape::default_axis(dims[k]));
        assert(!a.fake);
        assert(a.slot == k as usize);
        assert(crate::expr::eval_spec(Expr::Num(0), env) == Some(0usize));
        assert(a.mask_lo == 0 && a.pad_lo == 0 && a.pad_hi == 0);
        let hv = crate::expr::eval_spec(v.mask.1, env)->Some_0;
        assert(v.mask.1 == v.dim);
        assert(hv == a.dim);
        assert(a.win == a.dim);
        assert(ext_of(a) == a.dim as int);
        assert(ext_seq(axes)[k] == a.dim as int);
    }
}

/// Materialisation is pure, stated over the tracker interface: if a
/// view resolves to `axes` and the fresh tracker over the view's
/// extent expressions (what `ShapeTracker::contiguous` builds)
/// resolves to `caxes`, then reading the materialised elements through
/// `caxes` yields exactly the original element sequence.
pub proof fn lemma_tracker_purity(
    t: ShapeTracker,
    c: ShapeTracker,
    env: Seq<(char, usize)>,
    axes: Seq<RAxis>,
    caxes: Seq<RAxis>,
    buf: Seq<i64>,
)
    requires
        t.wf(),
        resolved(t, env, axes),
        c.rank() == t.rank(),
        forall|k: int| 0 <= k < t.rank() ==> #[trigger] c.lview()[k]
            == crate::shape::default_axis(crate::shape::ext_expr(t.lview()[k])),
        forall|k: int| 0 <= k < t.rank() ==> #[trigger] c.indexes@[k] == k,
        resolved(c, env, caxes),
    ensures
        elements_spec(caxes, elements_spec(axes, buf)) =~= elements_spec(axes, buf),
{
    let exts = Seq::new(t.rank() as int as nat, |k: int| crate::shape::ext_expr(t.lview()[k]));
    lemma_fresh_tracker_resolved(c, env, caxes, exts);
    assert(caxes =~= fresh_axes(ext_seq(caxes)));
    assert forall|k: int| 0 <= k < axes.len() implies ext_seq(caxes)[k] == #[trigger] ext_seq(
        axes,
    )[k] by {
        lemma_ext_eval(t.lview()[k], axes[k], env);
        let e = crate::expr::eval_spec(crate::shape::ext_expr(t.lview()[k]), env)->Some_0;
        assert(c.lview()[k].dim == crate::shape::ext_expr(t.lview()[k]));
        assert(caxes[k].dim == e);
        assert(ext_of(caxes[k]) == caxes[k].dim as int);
        assert(e as int == ext_of(axes[k]));
    }
    assert(ext_seq(caxes) =~= ext_seq(axes));
    lemma_contiguous_read_pure(axes, buf);
    assert forall|k: int| 0 <= k < axes.len() implies #[trigger] ext_of(axes[k])
        <= usize::MAX by {}
    assert(fresh_axes(ext_seq(caxes)) =~= fresh_axes(ext_seq(axes)));
}

} // verus!


