//! The packer: a free-space set of rectangles, the best-short-side-fit
//! candidate selector, the rectangle subtractor, and the single and batch
//! placement strategies built on them.

use vstd::prelude::*;

use crate::geom::Rectangle;
use crate::geom::bssf;
use crate::geom::fit_score;
use crate::geom::fits;
use crate::model::all_wf;
use crate::model::batch_rec;
use crate::model::best_prefix;
use crate::model::carve_upto;
use crate::model::disjoint_from_all;
use crate::model::dominated;
use crate::model::kept_upto;
use crate::model::occupied_rect;
use crate::model::pack_result;
use crate::model::pairwise_disjoint;
use crate::model::select;
use crate::model::sel_score;
use crate::model::subtract_spec;
use crate::model::within_union;

verus! {

/// Whether some other rectangle of `v` contains the rectangle at index `i`
/// (an equal rectangle counts only when it stands earlier).
fn is_dominated(v: &Vec<Rectangle>, i: usize) -> (r: bool)
    requires
        i < v@.len(),
    ensures
        r == dominated(v@, i as int),
{
    let mut j: usize = 0;
    while j < v.len()
        invariant
            j <= v@.len(),
            i < v@.len(),
            forall|jj: int|
                0 <= jj < j ==> !(jj != i as int && #[trigger] crate::geom::rect_supersets(
                    v@[jj],
                    v@[i as int],
                ) && (v@[jj] != v@[i as int] || jj < i as int)),
        decreases v@.len() - j,
    {
        if j != i {
            let a = v[j];
            let b = v[i];
            if a.supersets(&b) && (!a.same_as(&b) || j < i) {
                proof {
                    assert((j as int) < v@.len() && j as int != i as int
                        && crate::geom::rect_supersets(v@[j as int], v@[i as int]) && (v@[j as int]
                        != v@[i as int] || j < i));
                }
                return true;
            }
        }
        j += 1;
    }
    false
}

/// Registration of a free rectangle was handed inverted bounds: `min`
/// exceeds `max` on some axis. A caller error; the free set is not altered.
#[derive(Clone, Copy, Debug, PartialEq, Eq, Structural)]
pub struct InvalidRegion;

/// Batch placement could not place every item: some items had no viable
/// placement in the remaining free area. Carries the placements committed
/// before exhaustion and the items left over, so the caller can recover the
/// whole input and retry.
#[derive(Debug)]
pub struct FailedPacking<T> {
    partial_packed: Vec<(T, (u32, u32))>,
    original: Vec<T>,
}

impl<T> FailedPacking<T> {
    /// The placements committed before the batch ran out of room, in commit
    /// order.
    pub closed spec fn packed_so_far(&self) -> Seq<(T, (u32, u32))> {
        self.partial_packed@
    }

    /// The items that could not be placed.
    pub closed spec fn unplaced(&self) -> Seq<T> {
        self.original@
    }

    /// Builds a failure from the placements committed so far and the items
    /// left unplaced.
    pub(crate) fn from_parts(packed: Vec<(T, (u32, u32))>, left: Vec<T>) -> (r: FailedPacking<T>)
        ensures
            r.packed_so_far() == packed@,
            r.unplaced() == left@,
    {
        FailedPacking { partial_packed: packed, original: left }
    }

    /// Splits the failure into the placements committed before exhaustion,
    /// in commit order, and the items left unplaced.
    pub fn into_parts(self) -> (r: (Vec<(T, (u32, u32))>, Vec<T>))
        ensures
            r.0@ == self.packed_so_far(),
            r.1@ == self.unplaced(),
    {
        (self.partial_packed, self.original)
    }

    /// Yields every item the failed batch was handed — the unplaced items
    /// followed by the items of the committed placements.
    pub fn restore(self) -> (r: Vec<T>)
        ensures
            r@ == self.unplaced() + self.packed_so_far().map_values(
                |p: (T, (u32, u32))| p.0,
            ),
    {
        let FailedPacking { mut partial_packed, original } = self;
        let ghost packed0 = partial_packed@;
        let mut out = original;
        let ghost taken: int = 0;
        while partial_packed.len() > 0
            invariant
                0 <= taken <= packed0.len(),
                partial_packed@ == packed0.subrange(taken, packed0.len() as int),
                out@ == self.original@ + packed0.subrange(0, taken).map_values(
                    |p: (T, (u32, u32))| p.0,
                ),
            decreases partial_packed.len(),
        {
            let (item, _pos) = partial_packed.remove(0);
            out.push(item);
            proof {
                taken = taken + 1;
                assert(partial_packed@ =~= packed0.subrange(taken, packed0.len() as int));
                assert(out@ =~= self.original@ + packed0.subrange(0, taken).map_values(
                    |p: (T, (u32, u32))| p.0,
                ));
            }
        }
        proof {
            assert(packed0.subrange(0, taken) =~= packed0);
        }
        out
    }
}

/// How an executable sequence of placements corresponds to a batch
/// outcome's placements: pairwise, each carries the object the outcome's
/// index names, at the outcome's position.
pub open spec fn placed_matches<T>(
    v: Seq<(T, (u32, u32))>,
    placed: Seq<(int, (u32, u32))>,
    objects: Seq<T>,
) -> bool {
    &&& v.len() == placed.len()
    &&& forall|k: int|
        0 <= k < v.len() ==> 0 <= (#[trigger] placed[k]).0 < objects.len() && v[k] == (
        objects[placed[k].0],
        placed[k].1,
    )
}

/// How an executable sequence of leftover objects corresponds to a batch
/// outcome's unplaced items.
pub open spec fn unplaced_matches<T>(
    u: Seq<T>,
    unplaced: Seq<(int, (u32, u32))>,
    objects: Seq<T>,
) -> bool {
    &&& u.len() == unplaced.len()
    &&& forall|k: int|
        0 <= k < u.len() ==> 0 <= (#[trigger] unplaced[k]).0 < objects.len() && u[k]
            == objects[unplaced[k].0]
}

/// How a batch placement run over `objects`, whose sizes were `sizes`,
/// relates its result and the packer's free and placed rectangles to the
/// model's outcome.
pub open spec fn batch_outcome_matches<T>(
    sizes: Seq<(u32, u32)>,
    frees0: Seq<Rectangle>,
    objects: Seq<T>,
    r: Result<Vec<(T, (u32, u32))>, FailedPacking<T>>,
    frees1: Seq<Rectangle>,
    placed0: Seq<Rectangle>,
    placed1: Seq<Rectangle>,
) -> bool {
    let out = crate::model::batch_rec(frees0, crate::model::with_indices(sizes));
    &&& sizes.len() == objects.len()
    &&& frees1 == out.frees
    &&& placed1 == placed0 + crate::model::occupied_of_placed(out.placed, sizes)
    &&& match r {
        Ok(v) => out.unplaced.len() == 0 && placed_matches(v@, out.placed, objects),
        Err(f) => out.unplaced.len() > 0 && placed_matches(f.packed_so_far(), out.placed, objects)
            && unplaced_matches(f.unplaced(), out.unplaced, objects),
    }
}

/// Tracks the unoccupied area of a canvas as a set of free rectangles and
/// places items into it. The view of a packer is the sequence of its free
/// rectangles.
pub struct RectPacker {
    empty: Vec<Rectangle>,
    registered: Ghost<Seq<Rectangle>>,
    placed: Ghost<Seq<Rectangle>>,
}

impl View for RectPacker {
    type V = Seq<Rectangle>;

    closed spec fn view(&self) -> Seq<Rectangle> {
        self.empty@
    }
}

impl RectPacker {
    /// The free rectangles successfully registered over this packer's
    /// lifetime, in registration order.
    pub closed spec fn registered_rects(&self) -> Seq<Rectangle> {
        self.registered@
    }

    /// The rectangles occupied by this packer's successful placements, in
    /// placement order.
    pub closed spec fn placed_rects(&self) -> Seq<Rectangle> {
        self.placed@
    }

    /// Every free rectangle of the packer is well formed.
    pub open spec fn wf(&self) -> bool {
        all_wf(self@)
    }

    /// The packer's running invariant: free rectangles are well formed and
    /// disjoint from every placement, placements are pairwise disjoint, and
    /// both lie within the union of the registered free area. It holds from
    /// construction on and is preserved by every placement; registering free
    /// area that overlaps an earlier placement is the one operation that may
    /// break it.
    pub open spec fn consistent(&self) -> bool {
        &&& all_wf(self@)
        &&& forall|i: int|
            0 <= i < self@.len() ==> disjoint_from_all(#[trigger] self@[i], self.placed_rects())
        &&& pairwise_disjoint(self.placed_rects())
        &&& forall|i: int|
            0 <= i < self@.len() ==> within_union(#[trigger] self@[i], self.registered_rects())
        &&& forall|k: int|
            0 <= k < self.placed_rects().len() ==> within_union(
                #[trigger] self.placed_rects()[k],
                self.registered_rects(),
            )
    }

    /// Creates a packer with an empty free-space set.
    pub fn new() -> (p: RectPacker)
        ensures
            p@ == Seq::<Rectangle>::empty(),
            p.registered_rects() == Seq::<Rectangle>::empty(),
            p.placed_rects() == Seq::<Rectangle>::empty(),
            p.consistent(),
    {
        RectPacker {
            empty: Vec::new(),
            registered: Ghost(Seq::empty()),
            placed: Ghost(Seq::empty()),
        }
    }

    /// Registers the free rectangle `[min, max)`, so that items can be
    /// packed into it. The rectangle need not be disjoint from the existing
    /// free area; redundant overlaps are absorbed by the pruning that runs
    /// with each subtraction, not at registration time.
    ///
    /// Fails with `InvalidRegion`, leaving the packer unchanged, exactly
    /// when `min` exceeds `max` on some axis.
    pub fn add_free(&mut self, min: (u32, u32), max: (u32, u32)) -> (r: Result<(), InvalidRegion>)
        ensures
            r is Err <==> min.0 > max.0 || min.1 > max.1,
            r is Err ==> *final(self) == *old(self),
            r is Ok ==> final(self)@ == old(self)@.push((Rectangle { min, max }))
                && final(self).registered_rects() == old(self).registered_rects().push(
                (Rectangle { min, max }),
            ) && final(self).placed_rects() == old(self).placed_rects(),
            old(self).wf() && r is Ok ==> final(self).wf(),
            old(self).consistent() && (forall|k: int|
                0 <= k < old(self).placed_rects().len()
                    ==> !crate::geom::rects_intersect(
                    (Rectangle { min, max }),
                    #[trigger] old(self).placed_rects()[k],
                )) ==> final(self).consistent(),
    {
        if min.0 > max.0 || min.1 > max.1 {
            return Err(InvalidRegion);
        }
        let rect = Rectangle { min, max };
        self.empty.push(rect);
        proof {
            let old_regs = self.registered@;
            self.registered@ = self.registered@.push(rect);
            if old(self).consistent() {
                crate::laws::lemma_member_within_union(
                    rect,
                    self.registered@,
                    self.registered@.len() - 1,
                );
                assert forall|i: int| 0 <= i < self@.len() implies within_union(
                    #[trigger] self@[i],
                    self.registered_rects(),
                ) by {
                    if i < old(self)@.len() {
                        crate::laws::lemma_within_union_push(self@[i], old_regs, rect);
                    }
                }
                assert forall|k: int| 0 <= k < self.placed_rects().len() implies within_union(
                    #[trigger] self.placed_rects()[k],
                    self.registered_rects(),
                ) by {
                    crate::laws::lemma_within_union_push(self.placed_rects()[k], old_regs, rect);
                }
            }
        }
        Ok(())
    }

    /// Removes an occupied rectangle from the free set: every free
    /// rectangle that strictly intersects it is replaced by its residuals,
    /// and the pruning pass then drops every rectangle contained in another.
    fn subtract_rect(&mut self, occ: &Rectangle)
        requires
            old(self).wf(),
        ensures
            final(self)@ == subtract_spec(old(self)@, *occ),
            final(self).registered_rects() == old(self).registered_rects(),
            final(self).placed_rects() == old(self).placed_rects(),
    {
        let ghost s0 = self.empty@;
        let mut carved: Vec<Rectangle> = Vec::new();
        let mut idx: usize = 0;
        while idx < self.empty.len()
            invariant
                idx <= self.empty@.len(),
                self.empty@ == s0,
                all_wf(s0),
                carved@ == carve_upto(s0, *occ, idx as int),
            decreases self.empty@.len() - idx,
        {
            let f = self.empty[idx];
            if f.intersects(occ) {
                if occ.min.0 > f.min.0 {
                    carved.push(Rectangle { min: f.min, max: (occ.min.0, f.max.1) });
                }
                if occ.min.1 > f.min.1 {
                    carved.push(Rectangle { min: f.min, max: (f.max.0, occ.min.1) });
                }
                if occ.max.0 < f.max.0 {
                    carved.push(Rectangle { min: (occ.max.0, f.min.1), max: f.max });
                }
                if occ.max.1 < f.max.1 {
                    carved.push(Rectangle { min: (f.min.0, occ.max.1), max: f.max });
                }
            } else {
                carved.push(f);
            }
            proof {
                assert(carved@ =~= carve_upto(s0, *occ, idx as int + 1));
            }
            idx += 1;
        }
        let ghost c = carved@;
        let mut pruned: Vec<Rectangle> = Vec::new();
        let mut i: usize = 0;
        while i < carved.len()
            invariant
                i <= carved@.len(),
                carved@ == c,
                pruned@ == kept_upto(c, i as int).map_values(|k: int| c[k]),
            decreases carved@.len() - i,
        {
            if !is_dominated(&carved, i) {
                pruned.push(carved[i]);
            }
            proof {
                assert(pruned@ =~= kept_upto(c, i as int + 1).map_values(|k: int| c[k]));
            }
            i += 1;
        }
        self.empty = pruned;
    }

    /// The best free rectangle for the requested size, by the
    /// best-short-side-fit heuristic: its minimum corner and its score, or
    /// `None` when no free rectangle can contain the size. Ties go to the
    /// free rectangle encountered first.
    fn optimal(&self, size: &(u32, u32)) -> (r: Option<((u32, u32), u32)>)
        requires
            self.wf(),
        ensures
            match select(self@, size.0, size.1) {
                None => r is None,
                Some(j) => r matches Some(pr) && pr.0 == self@[j].min && pr.1 as int == fit_score(
                    self@[j],
                    size.0,
                    size.1,
                ),
            },
    {
        let mut best: Option<((u32, u32), u32)> = None;
        let mut idx: usize = 0;
        while idx < self.empty.len()
            invariant
                idx <= self.empty@.len(),
                all_wf(self.empty@),
                match best_prefix(self.empty@, size.0, size.1, idx as int) {
                    None => best is None,
                    Some(j) => best matches Some(pr) && pr.0 == self.empty@[j].min && pr.1 as int
                        == fit_score(self.empty@[j], size.0, size.1),
                },
            decreases self.empty@.len() - idx,
        {
            let f = self.empty[idx];
            let d = f.dimensions();
            match bssf(&d, size) {
                Some(sc) => match best {
                    None => {
                        best = Some((f.min, sc));
                    },
                    Some((_, bsc)) => {
                        if sc < bsc {
                            best = Some((f.min, sc));
                        }
                    },
                },
                None => {
                    proof {
                        assert(!fits(self.empty@[idx as int], size.0, size.1));
                    }
                },
            }
            idx += 1;
        }
        best
    }

    /// Commits a placement whose position the selector chose: subtracts the
    /// occupied rectangle from the free set and records the placement.
    fn commit(&mut self, pos: (u32, u32), width: u32, height: u32)
        requires
            old(self).wf(),
            pack_result(old(self)@, width, height) == Some(pos),
        ensures
            final(self)@ == subtract_spec(old(self)@, occupied_rect(pos, width, height)),
            final(self).wf(),
            final(self).registered_rects() == old(self).registered_rects(),
            final(self).placed_rects() == old(self).placed_rects().push(
                occupied_rect(pos, width, height),
            ),
            old(self).consistent() ==> final(self).consistent(),
    {
        let ghost s0 = self@;
        let ghost j = choose|j: int| select(s0, width, height) == Some(j);
        proof {
            crate::laws::lemma_select_props(s0, width, height);
            assert(0 <= j < s0.len() && fits(s0[j], width, height));
            assert(pos == s0[j].min);
        }
        let max = (pos.0 + width, pos.1 + height);
        let occ = Rectangle { min: pos, max };
        let ghost occ_spec = occupied_rect(pos, width, height);
        proof {
            assert(occ == occ_spec);
            assert(crate::geom::rect_supersets(s0[j], occ_spec));
        }
        self.subtract_rect(&occ);
        proof {
            self.placed@ = self.placed@.push(occ_spec);
            crate::laws::lemma_carve_upto_elems(s0, occ_spec, s0.len() as int);
            crate::laws::lemma_prune_elems(crate::model::carve(s0, occ_spec));
            assert(all_wf(self@)) by {
                assert forall|k: int| 0 <= k < self@.len() implies crate::geom::rect_wf(
                    #[trigger] self@[k],
                ) by {
                    let r = self@[k];
                    assert(crate::model::originates_undominated(
                        crate::model::carve(s0, occ_spec),
                        r,
                    ));
                    let ic = choose|i: int|
                        0 <= i < crate::model::carve(s0, occ_spec).len() && #[trigger] crate::model::carve(
                            s0,
                            occ_spec,
                        )[i] == r && !dominated(crate::model::carve(s0, occ_spec), i);
                    assert(crate::model::carve(s0, occ_spec)[ic] == carve_upto(
                        s0,
                        occ_spec,
                        s0.len() as int,
                    )[ic]);
                }
            }
            if old(self).consistent() {
                crate::laws::lemma_subtract_consistency(
                    s0,
                    occ_spec,
                    old(self).placed_rects(),
                    old(self).registered_rects(),
                );
                assert(pairwise_disjoint(self.placed_rects())) by {
                    assert forall|a: int, b: int|
                        0 <= a < self.placed_rects().len() && 0 <= b < self.placed_rects().len()
                            && a != b implies !crate::geom::rects_intersect(
                        self.placed_rects()[a],
                        self.placed_rects()[b],
                    ) by {
                        let ps = old(self).placed_rects();
                        if a < ps.len() && b < ps.len() {
                            assert(crate::geom::rects_intersect(ps[a], ps[b])
                                == crate::geom::rects_intersect(
                                self.placed_rects()[a],
                                self.placed_rects()[b],
                            ));
                        } else if a < ps.len() {
                            assert(!crate::geom::rects_intersect(s0[j], ps[a]));
                            crate::laws::lemma_subrect_disjoint(s0[j], occ_spec, ps[a]);
                        } else {
                            assert(!crate::geom::rects_intersect(s0[j], ps[b]));
                            crate::laws::lemma_subrect_disjoint(s0[j], occ_spec, ps[b]);
                        }
                    }
                }
                assert(within_union(occ_spec, self.registered_rects())) by {
                    crate::laws::lemma_subrect_within_union(
                        s0[j],
                        occ_spec,
                        self.registered_rects(),
                    );
                }
            }
        }
    }

    /// Packs a `width` by `height` item into the free area, so that it does
    /// not intersect any previously packed item. Returns the minimum corner
    /// of the chosen spot — the best-short-side fit over all free
    /// rectangles, ties to the one registered or carved first — or `None`,
    /// leaving the packer unchanged, exactly when no free rectangle can
    /// contain the item.
    pub fn pack(&mut self, width: u32, height: u32) -> (r: Option<(u32, u32)>)
        requires
            old(self).wf(),
        ensures
            r == pack_result(old(self)@, width, height),
            r is None <==> (forall|i: int|
                0 <= i < old(self)@.len() ==> !fits(#[trigger] old(self)@[i], width, height)),
            r is None ==> *final(self) == *old(self),
            r matches Some(pos) ==> final(self)@ == subtract_spec(
                old(self)@,
                occupied_rect(pos, width, height),
            ) && final(self).placed_rects() == old(self).placed_rects().push(
                occupied_rect(pos, width, height),
            ) && final(self).registered_rects() == old(self).registered_rects(),
            final(self).wf(),
            old(self).consistent() ==> final(self).consistent(),
    {
        let size = (width, height);
        proof {
            crate::laws::lemma_select_props(self@, width, height);
        }
        match self.optimal(&size) {
            Some((pos, _score)) => {
                self.commit(pos, width, height);
                Some(pos)
            },
            None => None,
        }
    }

    /// Maps each object to a requested size through `mapping`, then
    /// repeatedly commits the single best (object, placement) pair across
    /// the whole batch — not merely the best placement of one object —
    /// until no remaining object fits anywhere. Succeeds with every object
    /// and its position, in commit order, when all were placed; otherwise
    /// fails with the placements committed so far and the objects left
    /// over. Global packing is often tighter than packing one by one, but
    /// slower.
    pub fn pack_global<T, F: Fn(&T) -> (u32, u32)>(
        &mut self,
        objects: Vec<T>,
        mapping: F,
    ) -> (r: Result<Vec<(T, (u32, u32))>, FailedPacking<T>>)
        requires
            old(self).wf(),
            forall|k: int| 0 <= k < objects@.len() ==> call_requires(mapping, (&objects@[k],)),
        ensures
            final(self).wf(),
            final(self).registered_rects() == old(self).registered_rects(),
            old(self).consistent() ==> final(self).consistent(),
            exists|sizes: Seq<(u32, u32)>|
                {
                    &&& (forall|k: int|
                        0 <= k < sizes.len() ==> call_ensures(
                            mapping,
                            (&objects@[k],),
                            sizes[k],
                        ))
                    &&& #[trigger] batch_outcome_matches(
                        sizes,
                        old(self)@,
                        objects@,
                        r,
                        final(self)@,
                        old(self).placed_rects(),
                        final(self).placed_rects(),
                    )
                },
    {
        let ghost s_start = self@;
        let ghost placed_start = self.placed_rects();
        let ghost regs_start = self.registered_rects();
        let ghost was_consistent = self.consistent();

        let mut objs = objects;
        let ghost objects0 = objs@;
        let mut remaining: Vec<(T, (u32, u32))> = Vec::new();
        while objs.len() > 0
            invariant
                remaining@.len() + objs@.len() == objects0.len(),
                objs@ == objects0.subrange(remaining@.len() as int, objects0.len() as int),
                forall|k: int|
                    0 <= k < remaining@.len() ==> (#[trigger] remaining@[k]).0 == objects0[k]
                        && call_ensures(mapping, (&objects0[k],), remaining@[k].1),
                forall|k: int| 0 <= k < objects0.len() ==> call_requires(mapping, (&objects0[k],)),
            decreases objs@.len(),
        {
            let ghost at = remaining@.len() as int;
            let x = objs.remove(0);
            proof {
                assert(x == objects0[at]);
                assert(call_requires(mapping, (&objects0[at],)));
            }
            let sz = mapping(&x);
            remaining.push((x, sz));
            proof {
                assert(objs@ =~= objects0.subrange(remaining@.len() as int, objects0.len() as int));
            }
        }
        let ghost sizes0 = remaining@.map_values(|p: (T, (u32, u32))| p.1);
        let ghost items0 = crate::model::with_indices(sizes0);

        let mut packed: Vec<(T, (u32, u32))> = Vec::new();
        let ghost mut idxs = Seq::<int>::new(remaining@.len(), |k: int| k);
        let ghost mut done = Seq::<(int, (u32, u32))>::empty();
        proof {
            assert(crate::model::items_model(remaining@, idxs) =~= items0);
            assert(batch_rec(s_start, items0).placed =~= done + batch_rec(
                self@,
                crate::model::items_model(remaining@, idxs),
            ).placed);
            assert(self.placed_rects() =~= placed_start + crate::model::occupied_of_placed(
                done,
                sizes0,
            ));
        }
        let mut go = true;
        while go
            invariant
                self.wf(),
                sizes0.len() == objects0.len(),
                idxs.len() == remaining@.len(),
                forall|k: int|
                    0 <= k < remaining@.len() ==> 0 <= #[trigger] idxs[k] < objects0.len()
                        && remaining@[k].0 == objects0[idxs[k]] && remaining@[k].1
                        == sizes0[idxs[k]],
                batch_rec(s_start, items0).placed == done + batch_rec(
                    self@,
                    crate::model::items_model(remaining@, idxs),
                ).placed,
                batch_rec(s_start, items0).unplaced == batch_rec(
                    self@,
                    crate::model::items_model(remaining@, idxs),
                ).unplaced,
                batch_rec(s_start, items0).frees == batch_rec(
                    self@,
                    crate::model::items_model(remaining@, idxs),
                ).frees,
                packed@.len() == done.len(),
                forall|k: int|
                    0 <= k < done.len() ==> 0 <= (#[trigger] done[k]).0 < objects0.len()
                        && packed@[k] == (objects0[done[k].0], done[k].1),
                self.placed_rects() == placed_start + crate::model::occupied_of_placed(
                    done,
                    sizes0,
                ),
                self.registered_rects() == regs_start,
                was_consistent ==> self.consistent(),
                !go ==> crate::model::best_item_prefix(
                    self@,
                    crate::model::items_model(remaining@, idxs),
                    remaining@.len() as int,
                ) is None,
            decreases remaining@.len(), (if go {
                1int
            } else {
                0int
            }),
        {
            let ghost cur = crate::model::items_model(remaining@, idxs);
            let mut best: Option<(usize, (u32, u32), u32)> = None;
            let mut k: usize = 0;
            while k < remaining.len()
                invariant
                    k <= remaining@.len(),
                    self.wf(),
                    cur == crate::model::items_model(remaining@, idxs),
                    match crate::model::best_item_prefix(self@, cur, k as int) {
                        None => best is None,
                        Some(i) => best matches Some(t) && t.0 < remaining@.len() && t.0 as int
                            == i && pack_result(self@, cur[i].1.0, cur[i].1.1) == Some(t.1) && t.2
                            as int == sel_score(self@, cur[i].1.0, cur[i].1.1),
                    },
                decreases remaining@.len() - k,
            {
                let r = self.optimal(&remaining[k].1);
                match r {
                    Some((pos, sc)) => {
                        match best {
                            None => {
                                best = Some((k, pos, sc));
                            },
                            Some((_, _, bsc)) => {
                                if sc < bsc {
                                    best = Some((k, pos, sc));
                                }
                            },
                        }
                    },
                    None => {},
                }
                k += 1;
            }
            match best {
                Some((bi, pos, _sc)) => {
                    let ghost s_cur = self@;
                    let ghost i = bi as int;
                    proof {
                        crate::laws::lemma_best_item_prefix_props(s_cur, cur, cur.len() as int);
                    }
                    let pair = remaining.remove(bi);
                    let (item, size) = pair;
                    self.commit(pos, size.0, size.1);
                    packed.push((item, pos));
                    proof {
                        let rest_items = cur.remove(i);
                        assert(batch_rec(s_cur, cur).placed == seq![(cur[i].0, pos)] + batch_rec(
                            self@,
                            rest_items,
                        ).placed);
                        assert(batch_rec(s_cur, cur).unplaced == batch_rec(
                            self@,
                            rest_items,
                        ).unplaced);
                        assert(batch_rec(s_cur, cur).frees == batch_rec(self@, rest_items).frees);
                        done = done.push((idxs[i], pos));
                        idxs = idxs.remove(i);
                        assert(crate::model::items_model(remaining@, idxs) =~= rest_items);
                        assert(batch_rec(s_start, items0).placed =~= done + batch_rec(
                            self@,
                            rest_items,
                        ).placed);
                        assert(self.placed_rects() =~= placed_start
                            + crate::model::occupied_of_placed(done, sizes0));
                    }
                },
                None => {
                    go = false;
                },
            }
        }
        let ghost rem_end = remaining@;
        let ghost cur_end = crate::model::items_model(rem_end, idxs);
        proof {
            assert(batch_rec(self@, cur_end) == (crate::model::BatchOutcome {
                placed: Seq::<(int, (u32, u32))>::empty(),
                unplaced: cur_end,
                frees: self@,
            }));
            assert(batch_rec(s_start, items0).placed =~= done);
            assert(crate::model::batch_rec(
                s_start,
                crate::model::with_indices(sizes0),
            ).unplaced == cur_end);
        }
        if remaining.is_empty() {
            let res: Result<Vec<(T, (u32, u32))>, FailedPacking<T>> = Ok(packed);
            proof {
                assert(cur_end.len() == 0);
                assert(batch_outcome_matches(
                    sizes0,
                    s_start,
                    objects0,
                    res,
                    self@,
                    placed_start,
                    self.placed_rects(),
                ));
            }
            res
        } else {
            let mut left: Vec<T> = Vec::new();
            while remaining.len() > 0
                invariant
                    left@.len() + remaining@.len() == rem_end.len(),
                    forall|k: int| 0 <= k < left@.len() ==> #[trigger] left@[k] == rem_end[k].0,
                    remaining@ == rem_end.subrange(left@.len() as int, rem_end.len() as int),
                decreases remaining@.len(),
            {
                let p = remaining.remove(0);
                left.push(p.0);
                proof {
                    assert(remaining@ =~= rem_end.subrange(
                        left@.len() as int,
                        rem_end.len() as int,
                    ));
                }
            }
            let f = FailedPacking::from_parts(packed, left);
            let res: Result<Vec<(T, (u32, u32))>, FailedPacking<T>> = Err(f);
            proof {
                assert(cur_end.len() > 0);
                assert(unplaced_matches(f.unplaced(), cur_end, objects0));
                assert(batch_outcome_matches(
                    sizes0,
                    s_start,
                    objects0,
                    res,
                    self@,
                    placed_start,
                    self.placed_rects(),
                ));
            }
            res
        }
    }

    /// The current free rectangles, for inspection.
    pub fn free_rects(&self) -> (r: &Vec<Rectangle>)
        ensures
            r@ == self@,
    {
        &self.empty
    }
}

} // verus!
