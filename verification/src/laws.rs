//! Proofs about the packer's model: what carving and pruning preserve, when
//! selection succeeds, and the guarantees that hold of every placement a
//! consistent packer commits.

use vstd::prelude::*;

use crate::geom::Rectangle;
use crate::geom::fit_score;
use crate::geom::fits;
use crate::geom::point_in;
use crate::geom::rect_supersets;
use crate::geom::rect_wf;
use crate::geom::rects_intersect;
use crate::model::all_wf;
use crate::model::batch_rec;
use crate::model::best_item_prefix;
use crate::model::best_prefix;
use crate::model::carve;
use crate::model::carve_upto;
use crate::model::covered_by_source;
use crate::model::disjoint_from_all;
use crate::model::dominated;
use crate::model::item_placeable;
use crate::model::kept_upto;
use crate::model::originates_undominated;
use crate::model::prune;
use crate::model::residuals;
use crate::model::sel_score;
use crate::model::select;
use crate::model::subtract_spec;
use crate::model::within_union;

verus! {

/// A rectangle contained in `a` cannot intersect anything disjoint from `a`.
pub proof fn lemma_subrect_disjoint(a: Rectangle, b: Rectangle, c: Rectangle)
    requires
        rect_supersets(a, b),
        !rects_intersect(a, c),
    ensures
        !rects_intersect(b, c),
{
}

/// A rectangle contained in `a` lies within anything `a` lies within.
pub proof fn lemma_subrect_within_union(a: Rectangle, b: Rectangle, cover: Seq<Rectangle>)
    requires
        rect_supersets(a, b),
        within_union(a, cover),
    ensures
        within_union(b, cover),
{
    assert forall|x: int, y: int| #[trigger] point_in(b, x, y) implies exists|j: int|
        0 <= j < cover.len() && point_in(#[trigger] cover[j], x, y) by {
        assert(point_in(a, x, y));
    }
}

/// Extending a cover keeps everything it already covered within it.
pub proof fn lemma_within_union_push(r: Rectangle, cover: Seq<Rectangle>, extra: Rectangle)
    requires
        within_union(r, cover),
    ensures
        within_union(r, cover.push(extra)),
{
    assert forall|x: int, y: int| #[trigger] point_in(r, x, y) implies exists|j: int|
        0 <= j < cover.push(extra).len() && point_in(#[trigger] cover.push(extra)[j], x, y) by {
        let j0 = choose|j: int| 0 <= j < cover.len() && point_in(#[trigger] cover[j], x, y);
        assert(cover.push(extra)[j0] == cover[j0]);
        assert(point_in(cover.push(extra)[j0], x, y));
    }
}

/// Each residual of carving `occ` out of an intersecting well-formed free
/// rectangle `f` is itself well formed, lies inside `f`, and no longer
/// intersects `occ`.
pub proof fn lemma_residuals_props(f: Rectangle, occ: Rectangle)
    requires
        rect_wf(f),
        rects_intersect(f, occ),
    ensures
        forall|k: int|
            0 <= k < residuals(f, occ).len() ==> {
                let r = #[trigger] residuals(f, occ)[k];
                rect_wf(r) && rect_supersets(f, r) && !rects_intersect(r, occ)
            },
{
}

/// Every rectangle the carving pass emits is well formed, no longer
/// intersects the occupied rectangle, and lies inside one of the free
/// rectangles it started from.
pub proof fn lemma_carve_upto_elems(s: Seq<Rectangle>, occ: Rectangle, n: int)
    requires
        all_wf(s),
        0 <= n <= s.len(),
    ensures
        forall|k: int|
            0 <= k < carve_upto(s, occ, n).len() ==> {
                let r = #[trigger] carve_upto(s, occ, n)[k];
                rect_wf(r) && !rects_intersect(r, occ) && covered_by_source(s, r)
            },
    decreases n,
{
    if n > 0 {
        lemma_carve_upto_elems(s, occ, n - 1);
        let prev = carve_upto(s, occ, n - 1);
        let f = s[n - 1];
        if rects_intersect(f, occ) {
            lemma_residuals_props(f, occ);
        }
        assert forall|k: int| 0 <= k < carve_upto(s, occ, n).len() implies {
            let r = #[trigger] carve_upto(s, occ, n)[k];
            rect_wf(r) && !rects_intersect(r, occ) && covered_by_source(s, r)
        } by {
            let r = carve_upto(s, occ, n)[k];
            if k < prev.len() {
                assert(r == prev[k]);
            } else {
                if rects_intersect(f, occ) {
                    assert(r == residuals(f, occ)[k - prev.len()]);
                    assert(rect_supersets(s[n - 1], r));
                } else {
                    assert(r == f);
                    assert(rect_supersets(s[n - 1], r));
                }
            }
        }
    }
}

/// The indices the pruning pass keeps are within bounds, strictly
/// increasing, and none of them is dominated.
pub proof fn lemma_kept_upto_props(s: Seq<Rectangle>, n: int)
    requires
        0 <= n <= s.len(),
    ensures
        forall|k: int|
            0 <= k < kept_upto(s, n).len() ==> 0 <= #[trigger] kept_upto(s, n)[k] < n
                && !dominated(s, kept_upto(s, n)[k]),
        forall|k1: int, k2: int|
            0 <= k1 < k2 < kept_upto(s, n).len() ==> #[trigger] kept_upto(s, n)[k1]
                < #[trigger] kept_upto(s, n)[k2],
    decreases n,
{
    if n > 0 {
        lemma_kept_upto_props(s, n - 1);
        let prev = kept_upto(s, n - 1);
        let cur = kept_upto(s, n);
        if dominated(s, n - 1) {
            assert(cur == prev);
            assert forall|k: int| 0 <= k < cur.len() implies 0 <= #[trigger] cur[k] < n
                && !dominated(s, cur[k]) by {
                assert(cur[k] == prev[k]);
            }
            assert forall|k1: int, k2: int| 0 <= k1 < k2 < cur.len() implies #[trigger] cur[k1]
                < #[trigger] cur[k2] by {
                assert(cur[k1] == prev[k1] && cur[k2] == prev[k2]);
            }
        } else {
            assert(cur == prev.push(n - 1));
            assert forall|k: int| 0 <= k < cur.len() implies 0 <= #[trigger] cur[k] < n
                && !dominated(s, cur[k]) by {
                if k < prev.len() {
                    assert(cur[k] == prev[k]);
                } else {
                    assert(cur[k] == n - 1);
                }
            }
            assert forall|k1: int, k2: int| 0 <= k1 < k2 < cur.len() implies #[trigger] cur[k1]
                < #[trigger] cur[k2] by {
                if k2 < prev.len() {
                    assert(cur[k1] == prev[k1] && cur[k2] == prev[k2]);
                } else {
                    assert(cur[k1] == prev[k1] && cur[k2] == n - 1);
                    assert(prev[k1] < n - 1);
                }
            }
        }
    }
}

/// Every rectangle the pruning pass retains occurs, undominated, in the
/// sequence it pruned.
pub proof fn lemma_prune_elems(s: Seq<Rectangle>)
    ensures
        forall|k: int|
            0 <= k < prune(s).len() ==> originates_undominated(s, #[trigger] prune(s)[k]),
{
    lemma_kept_upto_props(s, s.len() as int);
    let kept = kept_upto(s, s.len() as int);
    assert forall|k: int| 0 <= k < prune(s).len() implies originates_undominated(
        s,
        #[trigger] prune(s)[k],
    ) by {
        let i0 = kept[k];
        assert(prune(s)[k] == s[i0]);
        assert(0 <= i0 < s.len() && s[i0] == prune(s)[k] && !dominated(s, i0));
    }
}

/// What pruning leaves is non-redundant: no retained rectangle contains
/// another retained one, so in particular no retained rectangle is a proper
/// subset of another.
pub proof fn lemma_prune_nonredundant(s: Seq<Rectangle>)
    ensures
        forall|p: int, q: int|
            0 <= p < prune(s).len() && 0 <= q < prune(s).len() && p != q ==> !rect_supersets(
                #[trigger] prune(s)[q],
                #[trigger] prune(s)[p],
            ),
{
    lemma_kept_upto_props(s, s.len() as int);
    let kept = kept_upto(s, s.len() as int);
    assert forall|p: int, q: int|
        0 <= p < prune(s).len() && 0 <= q < prune(s).len() && p != q implies !rect_supersets(
        #[trigger] prune(s)[q],
        #[trigger] prune(s)[p],
    ) by {
        let i = kept[p];
        let j = kept[q];
        if p < q {
            assert(kept[p] < kept[q]);
        } else {
            assert(kept[q] < kept[p]);
        }
        assert(prune(s)[p] == s[i]);
        assert(prune(s)[q] == s[j]);
        if rect_supersets(s[j], s[i]) {
            if s[j] != s[i] || j < i {
                assert(0 <= j < s.len() && j != i && rect_supersets(s[j], s[i]) && (s[j] != s[i]
                    || j < i));
                assert(dominated(s, i));
            } else {
                assert(rect_supersets(s[i], s[j]));
                assert(0 <= i < s.len() && i != j && rect_supersets(s[i], s[j]) && (s[i] != s[j]
                    || i < j));
                assert(dominated(s, j));
            }
            assert(false);
        }
    }
}

/// After any subtraction, no retained free rectangle is contained in — in
/// particular, is a proper subset of — another retained free rectangle.
pub proof fn lemma_subtract_nonredundant(s: Seq<Rectangle>, occ: Rectangle)
    ensures
        forall|p: int, q: int|
            0 <= p < subtract_spec(s, occ).len() && 0 <= q < subtract_spec(s, occ).len() && p != q
                ==> !rect_supersets(
                #[trigger] subtract_spec(s, occ)[q],
                #[trigger] subtract_spec(s, occ)[p],
            ),
{
    lemma_prune_nonredundant(carve(s, occ));
}

/// What the selector's scan of the first `n` free rectangles guarantees:
/// when it returns an index, that rectangle fits and its score is minimal
/// among all fitting rectangles scanned; when it returns nothing, no scanned
/// rectangle fits.
pub proof fn lemma_best_prefix_props(s: Seq<Rectangle>, width: u32, height: u32, n: int)
    requires
        0 <= n <= s.len(),
    ensures
        match best_prefix(s, width, height, n) {
            None => forall|i: int| 0 <= i < n ==> !fits(#[trigger] s[i], width, height),
            Some(j) => 0 <= j < n && fits(s[j], width, height) && forall|i: int|
                0 <= i < n && fits(#[trigger] s[i], width, height) ==> fit_score(s[j], width, height)
                    <= fit_score(s[i], width, height),
        },
    decreases n,
{
    if n > 0 {
        lemma_best_prefix_props(s, width, height, n - 1);
    }
}

/// What selection over the whole free set guarantees; in particular,
/// selection fails exactly when no free rectangle can contain the size.
pub proof fn lemma_select_props(s: Seq<Rectangle>, width: u32, height: u32)
    ensures
        select(s, width, height) is None <==> (forall|i: int|
            0 <= i < s.len() ==> !fits(#[trigger] s[i], width, height)),
        select(s, width, height) matches Some(j) ==> 0 <= j < s.len() && fits(s[j], width, height)
            && (forall|i: int|
            0 <= i < s.len() && fits(#[trigger] s[i], width, height) ==> fit_score(
                s[j],
                width,
                height,
            ) <= fit_score(s[i], width, height)),
{
    lemma_best_prefix_props(s, width, height, s.len() as int);
}

/// What the batch chooser's scan of the first `n` remaining items
/// guarantees: when it returns an item, that item has a placement and its
/// placement's score is minimal over all placeable scanned items; when it
/// returns nothing, no scanned item has a placement.
pub proof fn lemma_best_item_prefix_props(
    s: Seq<Rectangle>,
    items: Seq<(int, (u32, u32))>,
    n: int,
)
    requires
        0 <= n <= items.len(),
    ensures
        match best_item_prefix(s, items, n) {
            None => forall|i: int| 0 <= i < n ==> !item_placeable(s, #[trigger] items[i]),
            Some(i) => 0 <= i < n && item_placeable(s, items[i]) && (forall|k: int|
                0 <= k < n && item_placeable(s, #[trigger] items[k]) ==> sel_score(
                    s,
                    items[i].1.0,
                    items[i].1.1,
                ) <= sel_score(s, items[k].1.0, items[k].1.1)),
        },
    decreases n,
{
    if n > 0 {
        lemma_best_item_prefix_props(s, items, n - 1);
    }
}

/// Exhaustion is real: every item a batch leaves unplaced has no viable
/// placement in the free set the batch ends with.
pub proof fn lemma_batch_rec_unplaced(s: Seq<Rectangle>, items: Seq<(int, (u32, u32))>)
    ensures
        forall|k: int|
            0 <= k < batch_rec(s, items).unplaced.len() ==> !item_placeable(
                batch_rec(s, items).frees,
                #[trigger] batch_rec(s, items).unplaced[k],
            ),
    decreases items.len(),
{
    lemma_best_item_prefix_props(s, items, items.len() as int);
    match best_item_prefix(s, items, items.len() as int) {
        None => {
        },
        Some(i) => {
            let width = items[i].1.0;
            let height = items[i].1.1;
            let j = choose|j: int| select(s, width, height) == Some(j);
            crate::laws::lemma_select_props(s, width, height);
            let pos = s[j].min;
            let rest_s = subtract_spec(s, crate::model::occupied_rect(pos, width, height));
            lemma_batch_rec_unplaced(rest_s, items.remove(i));
            assert(batch_rec(s, items).unplaced == batch_rec(rest_s, items.remove(i)).unplaced);
            assert(batch_rec(s, items).frees == batch_rec(rest_s, items.remove(i)).frees);
        },
    }
}

/// Subtraction of an occupied rectangle keeps every free rectangle well
/// formed, disjoint from every earlier placement and from the new one, and
/// within the registered area.
pub proof fn lemma_subtract_consistency(
    s: Seq<Rectangle>,
    occ: Rectangle,
    placed: Seq<Rectangle>,
    regs: Seq<Rectangle>,
)
    requires
        all_wf(s),
        forall|i: int| 0 <= i < s.len() ==> disjoint_from_all(#[trigger] s[i], placed),
        forall|i: int| 0 <= i < s.len() ==> within_union(#[trigger] s[i], regs),
    ensures
        all_wf(subtract_spec(s, occ)),
        forall|k: int|
            0 <= k < subtract_spec(s, occ).len() ==> disjoint_from_all(
                #[trigger] subtract_spec(s, occ)[k],
                placed.push(occ),
            ),
        forall|k: int|
            0 <= k < subtract_spec(s, occ).len() ==> within_union(
                #[trigger] subtract_spec(s, occ)[k],
                regs,
            ),
{
    let c = carve(s, occ);
    let out = subtract_spec(s, occ);
    lemma_carve_upto_elems(s, occ, s.len() as int);
    lemma_prune_elems(c);
    assert forall|k: int| 0 <= k < out.len() implies rect_wf(#[trigger] out[k])
        && disjoint_from_all(out[k], placed.push(occ)) && within_union(out[k], regs) by {
        let r = out[k];
        assert(originates_undominated(c, r));
        let ic = choose|i: int| 0 <= i < c.len() && #[trigger] c[i] == r && !dominated(c, i);
        assert(c[ic] == r && 0 <= ic < carve_upto(s, occ, s.len() as int).len());
        assert(rect_wf(r) && !rects_intersect(r, occ) && covered_by_source(s, r));
        let is = choose|i: int| 0 <= i < s.len() && rect_supersets(#[trigger] s[i], r);
        assert(rect_supersets(s[is], r));
        assert forall|m: int| 0 <= m < placed.push(occ).len() implies !rects_intersect(
            r,
            #[trigger] placed.push(occ)[m],
        ) by {
            if m < placed.len() {
                assert(!rects_intersect(s[is], placed[m]));
                lemma_subrect_disjoint(s[is], r, placed[m]);
            } else {
                assert(placed.push(occ)[m] == occ);
            }
        }
        lemma_subrect_within_union(s[is], r, regs);
    }
}

/// No-overlap: the occupied rectangles of any two distinct placements a
/// consistent packer has committed do not intersect. A packer is consistent
/// from construction on; every placement preserves consistency, and
/// registering free area preserves it whenever the new area does not
/// overlap an earlier placement (see the contracts of `pack`, `pack_global`
/// and `add_free`).
pub proof fn lemma_placements_disjoint(p: &crate::packer::RectPacker)
    requires
        p.consistent(),
    ensures
        crate::model::pairwise_disjoint(p.placed_rects()),
{
}

/// Containment: every placement a consistent packer has committed lies
/// within the union of the free area registered over the packer's lifetime.
pub proof fn lemma_placements_within_registered(p: &crate::packer::RectPacker)
    requires
        p.consistent(),
    ensures
        forall|k: int|
            0 <= k < p.placed_rects().len() ==> within_union(
                #[trigger] p.placed_rects()[k],
                p.registered_rects(),
            ),
{
}

/// Determinism: what a placement request returns, and the free set it
/// leaves, are functions of the packer's free-rectangle view and the
/// request alone — two packers with equal views answer any request, single
/// or batch, identically.
pub proof fn lemma_pack_deterministic(
    a: Seq<Rectangle>,
    b: Seq<Rectangle>,
    width: u32,
    height: u32,
    items: Seq<(int, (u32, u32))>,
)
    requires
        a == b,
    ensures
        crate::model::pack_result(a, width, height) == crate::model::pack_result(b, width, height),
        crate::model::pack_result(a, width, height) matches Some(pos) ==> subtract_spec(
            a,
            crate::model::occupied_rect(pos, width, height),
        ) == subtract_spec(b, crate::model::occupied_rect(pos, width, height)),
        batch_rec(a, items) == batch_rec(b, items),
{
}

/// A rectangle is within the union of any cover that lists it.
pub proof fn lemma_member_within_union(r: Rectangle, cover: Seq<Rectangle>, j: int)
    requires
        0 <= j < cover.len(),
        cover[j] == r,
    ensures
        within_union(r, cover),
{
    assert forall|x: int, y: int| #[trigger] point_in(r, x, y) implies exists|jj: int|
        0 <= jj < cover.len() && point_in(#[trigger] cover[jj], x, y) by {
        assert(point_in(cover[j], x, y));
    }
}

} // verus!
