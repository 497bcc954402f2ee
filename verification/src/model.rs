//! The mathematical model of the packer: selection, carving, pruning and
//! batch placement as functions over sequences of rectangles.
//!
//! Every executable operation of the packer pins its result and its new state
//! to one of these functions, so two packers with equal histories behave
//! identically.

use vstd::prelude::*;

use crate::geom::Rectangle;
use crate::geom::fit_score;
use crate::geom::fits;
use crate::geom::point_in;
use crate::geom::rect_supersets;
use crate::geom::rect_wf;
use crate::geom::rects_intersect;

verus! {

/// Every rectangle of the sequence is well formed.
pub open spec fn all_wf(s: Seq<Rectangle>) -> bool {
    forall|i: int| 0 <= i < s.len() ==> rect_wf(#[trigger] s[i])
}

/// `r` does not intersect any rectangle of `ps`.
pub open spec fn disjoint_from_all(r: Rectangle, ps: Seq<Rectangle>) -> bool {
    forall|k: int| 0 <= k < ps.len() ==> !rects_intersect(r, #[trigger] ps[k])
}

/// No two distinct rectangles of `ps` intersect.
pub open spec fn pairwise_disjoint(ps: Seq<Rectangle>) -> bool {
    forall|a: int, b: int|
        0 <= a < ps.len() && 0 <= b < ps.len() && a != b ==> !#[trigger] rects_intersect(
            ps[a],
            ps[b],
        )
}

/// Every point of `r` lies in some rectangle of `cover`.
pub open spec fn within_union(r: Rectangle, cover: Seq<Rectangle>) -> bool {
    forall|x: int, y: int|
        #[trigger] point_in(r, x, y) ==> exists|j: int|
            0 <= j < cover.len() && point_in(#[trigger] cover[j], x, y)
}

/// Some rectangle of `s` contains `r`.
pub open spec fn covered_by_source(s: Seq<Rectangle>, r: Rectangle) -> bool {
    exists|i: int| 0 <= i < s.len() && rect_supersets(#[trigger] s[i], r)
}

/// `r` occurs in `s` at some index that no other rectangle dominates.
pub open spec fn originates_undominated(s: Seq<Rectangle>, r: Rectangle) -> bool {
    exists|i: int| 0 <= i < s.len() && #[trigger] s[i] == r && !dominated(s, i)
}

/// The candidate the selector prefers among the first `n` free rectangles:
/// the index of the rectangle that fits the requested size with the lowest
/// best-short-side score, ties broken in favour of the earliest index.
pub open spec fn best_prefix(s: Seq<Rectangle>, width: u32, height: u32, n: int) -> Option<int>
    decreases n,
{
    if n <= 0 {
        None
    } else {
        let prev = best_prefix(s, width, height, n - 1);
        if fits(s[n - 1], width, height) {
            match prev {
                None => Some(n - 1),
                Some(b) => if fit_score(s[n - 1], width, height) < fit_score(s[b], width, height) {
                    Some(n - 1)
                } else {
                    Some(b)
                },
            }
        } else {
            prev
        }
    }
}

/// The index of the free rectangle the selector chooses for the requested
/// size, or `None` when no free rectangle can contain it.
pub open spec fn select(s: Seq<Rectangle>, width: u32, height: u32) -> Option<int> {
    best_prefix(s, width, height, s.len() as int)
}

/// The score of the selected free rectangle; meaningful only when
/// `select(s, width, height)` is `Some`.
pub open spec fn sel_score(s: Seq<Rectangle>, width: u32, height: u32) -> int {
    match select(s, width, height) {
        Some(j) => fit_score(s[j], width, height),
        None => 0,
    }
}

/// The position a placement request returns: the minimum corner of the
/// selected free rectangle, or `None` when nothing fits.
pub open spec fn pack_result(s: Seq<Rectangle>, width: u32, height: u32) -> Option<(u32, u32)> {
    match select(s, width, height) {
        Some(j) => Some(s[j].min),
        None => None,
    }
}

/// The rectangle occupied by placing a `width` by `height` item at `pos`.
/// Meaningful when the placement came from the selector, which guarantees
/// that the sums stay within the coordinate range.
pub open spec fn occupied_rect(pos: (u32, u32), width: u32, height: u32) -> Rectangle {
    Rectangle { min: pos, max: (((pos.0 + width) as u32), ((pos.1 + height) as u32)) }
}

/// The up-to-four residual rectangles left of a free rectangle `f` once the
/// occupied rectangle `occ` is taken out of it: one per side of `occ` that
/// does not coincide with the corresponding side of `f`, in the order left,
/// bottom, right, top. Residuals may overlap each other at the corners; the
/// pruning pass absorbs that redundancy.
pub open spec fn residuals(f: Rectangle, occ: Rectangle) -> Seq<Rectangle> {
    let left = if occ.min.0 > f.min.0 {
        seq![Rectangle { min: f.min, max: (occ.min.0, f.max.1) }]
    } else {
        Seq::<Rectangle>::empty()
    };
    let bottom = if occ.min.1 > f.min.1 {
        seq![Rectangle { min: f.min, max: (f.max.0, occ.min.1) }]
    } else {
        Seq::<Rectangle>::empty()
    };
    let right = if occ.max.0 < f.max.0 {
        seq![Rectangle { min: (occ.max.0, f.min.1), max: f.max }]
    } else {
        Seq::<Rectangle>::empty()
    };
    let top = if occ.max.1 < f.max.1 {
        seq![Rectangle { min: (f.min.0, occ.max.1), max: f.max }]
    } else {
        Seq::<Rectangle>::empty()
    };
    left + bottom + right + top
}

/// The carving pass over the first `n` free rectangles: each rectangle that
/// strictly intersects `occ` is replaced by its residuals, every other
/// rectangle is kept as it is.
pub open spec fn carve_upto(s: Seq<Rectangle>, occ: Rectangle, n: int) -> Seq<Rectangle>
    decreases n,
{
    if n <= 0 {
        Seq::<Rectangle>::empty()
    } else {
        carve_upto(s, occ, n - 1) + (if rects_intersect(s[n - 1], occ) {
            residuals(s[n - 1], occ)
        } else {
            seq![s[n - 1]]
        })
    }
}

/// The carving pass over the whole free set.
pub open spec fn carve(s: Seq<Rectangle>, occ: Rectangle) -> Seq<Rectangle> {
    carve_upto(s, occ, s.len() as int)
}

/// Whether the rectangle at index `i` is redundant: some other rectangle of
/// the sequence contains it. An equal rectangle counts only when it stands
/// earlier, so exactly the first of equal duplicates is retained.
pub open spec fn dominated(s: Seq<Rectangle>, i: int) -> bool {
    exists|j: int|
        0 <= j < s.len() && j != i && #[trigger] rect_supersets(s[j], s[i]) && (s[j] != s[i] || j
            < i)
}

/// The indices among the first `n` that the pruning pass retains, in
/// increasing order.
pub open spec fn kept_upto(s: Seq<Rectangle>, n: int) -> Seq<int>
    decreases n,
{
    if n <= 0 {
        Seq::<int>::empty()
    } else if dominated(s, n - 1) {
        kept_upto(s, n - 1)
    } else {
        kept_upto(s, n - 1).push(n - 1)
    }
}

/// The pruning pass: drops every rectangle that another rectangle of the
/// sequence contains, keeping the first of equal duplicates.
pub open spec fn prune(s: Seq<Rectangle>) -> Seq<Rectangle> {
    kept_upto(s, s.len() as int).map_values(|i: int| s[i])
}

/// The full subtraction of an occupied rectangle from the free set: carve
/// every intersecting free rectangle into residuals, then prune redundant
/// rectangles.
pub open spec fn subtract_spec(s: Seq<Rectangle>, occ: Rectangle) -> Seq<Rectangle> {
    prune(carve(s, occ))
}

/// The outcome of batch placement: the placements committed, in commit
/// order, each as the item's index in the original batch with its position;
/// the items never placed, with their sizes; and the remaining free set.
pub ghost struct BatchOutcome {
    pub placed: Seq<(int, (u32, u32))>,
    pub unplaced: Seq<(int, (u32, u32))>,
    pub frees: Seq<Rectangle>,
}

/// The batch item the next round commits, among the first `n` remaining
/// items: the one whose own best placement has the lowest score over the
/// whole batch, ties broken in favour of the earliest item.
pub open spec fn best_item_prefix(
    s: Seq<Rectangle>,
    items: Seq<(int, (u32, u32))>,
    n: int,
) -> Option<int>
    decreases n,
{
    if n <= 0 {
        None
    } else {
        let prev = best_item_prefix(s, items, n - 1);
        match select(s, items[n - 1].1.0, items[n - 1].1.1) {
            None => prev,
            Some(j) => match prev {
                None => Some(n - 1),
                Some(p) => if sel_score(s, items[n - 1].1.0, items[n - 1].1.1) < sel_score(
                    s,
                    items[p].1.0,
                    items[p].1.1,
                ) {
                    Some(n - 1)
                } else {
                    Some(p)
                },
            },
        }
    }
}

/// Batch placement: each round commits the single best (item, placement)
/// pair across all remaining items, subtracts its occupied rectangle, and
/// repeats until no remaining item fits anywhere. The guards on the chosen
/// index and on the selector result always hold when the chooser returns
/// `Some`; the fallback arms are never reached.
pub open spec fn batch_rec(s: Seq<Rectangle>, items: Seq<(int, (u32, u32))>) -> BatchOutcome
    decreases items.len(),
{
    match best_item_prefix(s, items, items.len() as int) {
        None => BatchOutcome { placed: Seq::empty(), unplaced: items, frees: s },
        Some(i) => if 0 <= i < items.len() {
            let width = items[i].1.0;
            let height = items[i].1.1;
            match select(s, width, height) {
                Some(j) => {
                    let pos = s[j].min;
                    let rest = batch_rec(
                        subtract_spec(s, occupied_rect(pos, width, height)),
                        items.remove(i),
                    );
                    BatchOutcome {
                        placed: seq![(items[i].0, pos)] + rest.placed,
                        unplaced: rest.unplaced,
                        frees: rest.frees,
                    }
                },
                None => BatchOutcome { placed: Seq::empty(), unplaced: items, frees: s },
            }
        } else {
            BatchOutcome { placed: Seq::empty(), unplaced: items, frees: s }
        },
    }
}

/// Pairs each size of a batch with its index, the shape `batch_rec` takes.
pub open spec fn with_indices(sizes: Seq<(u32, u32)>) -> Seq<(int, (u32, u32))> {
    Seq::new(sizes.len(), |i: int| (i, sizes[i]))
}

/// Whether some free rectangle of `s` can contain the batch item `it`.
pub open spec fn item_placeable(s: Seq<Rectangle>, it: (int, (u32, u32))) -> bool {
    select(s, it.1.0, it.1.1) is Some
}

/// The batch items still to be placed, as `batch_rec` sees them: each
/// remaining (item, size) pair tagged with the item's index in the original
/// batch.
pub open spec fn items_model<T>(rem: Seq<(T, (u32, u32))>, idxs: Seq<int>) -> Seq<
    (int, (u32, u32)),
> {
    Seq::new(rem.len(), |k: int| (idxs[k], rem[k].1))
}

/// The rectangles occupied by the placements of a batch outcome.
pub open spec fn occupied_of_placed(
    placed: Seq<(int, (u32, u32))>,
    sizes: Seq<(u32, u32)>,
) -> Seq<Rectangle> {
    Seq::new(
        placed.len(),
        |k: int| occupied_rect(placed[k].1, sizes[placed[k].0].0, sizes[placed[k].0].1),
    )
}

} // verus!
