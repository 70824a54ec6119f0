//! Planning of batched recognition: crops of equal input width go through
//! the model together, narrowest width first, at most a fixed number of
//! crops per run, each width's crops in their original order.
use vstd::prelude::*;

verus! {

/// The largest number of crops that one model run takes.
pub const MAX_INFERENCE_BATCH: usize = 32;

/// One model run: the input width shared by its crops and the crops'
/// positions in the input.
#[derive(Debug)]
pub struct InferenceBatch {
    pub width: usize,
    pub indices: Vec<usize>,
}

/// Position `a` is planned before position `b`: a narrower width, or the
/// same width and an earlier position.
pub open spec fn planned_before(widths: Seq<usize>, a: int, b: int) -> bool {
    widths[a] < widths[b] || (widths[a] == widths[b] && a < b)
}

/// The positions of all batches, one batch after the other.
pub open spec fn flat_indices(batches: Seq<InferenceBatch>) -> Seq<usize>
    decreases batches.len(),
{
    if batches.len() == 0 {
        seq![]
    } else {
        flat_indices(batches.drop_last()) + batches.last().indices@
    }
}

/// Each batch holds between one and `max_batch` positions of its width,
/// and a batch followed by one of the same width is full.
pub open spec fn batches_well_shaped(
    widths: Seq<usize>,
    max_batch: usize,
    batches: Seq<InferenceBatch>,
) -> bool {
    &&& forall|b: int|
        0 <= b < batches.len() ==> 0 < (#[trigger] batches[b]).indices@.len() <= max_batch
    &&& forall|b: int, k: int|
        0 <= b < batches.len() && 0 <= k < batches[b].indices@.len() ==> {
            let i = (#[trigger] batches[b].indices@[k]) as int;
            0 <= i < widths.len() && widths[i] == batches[b].width
        }
    &&& forall|b: int|
        0 <= b < batches.len() - 1 && (#[trigger] batches[b]).width == batches[b + 1].width
            ==> batches[b].indices@.len() == max_batch
}

/// The whole plan: every position exactly once, in width order and then in
/// input order, cut into well-shaped batches.
pub open spec fn is_batch_plan(widths: Seq<usize>, max_batch: usize, batches: Seq<InferenceBatch>) -> bool {
    let f = flat_indices(batches);
    &&& batches_well_shaped(widths, max_batch, batches)
    &&& forall|i: usize| i < widths.len() ==> #[trigger] f.contains(i)
    &&& forall|p: int, q: int|
        0 <= p < q < f.len() ==> planned_before(widths, #[trigger] f[p] as int, #[trigger] f[q] as int)
}

proof fn lemma_flat_push(batches: Seq<InferenceBatch>, b: InferenceBatch)
    ensures
        flat_indices(batches.push(b)) == flat_indices(batches) + b.indices@,
{
    assert(batches.push(b).drop_last() =~= batches);
}

/// Groups crops of the given input widths into model runs of at most
/// `max_batch` crops.
pub fn plan_inference_batches(widths: &[usize], max_batch: usize) -> (batches: Vec<InferenceBatch>)
    requires
        max_batch > 0,
    ensures
        is_batch_plan(widths@, max_batch, batches@),
{
    let n = widths.len();
    let ghost w = widths@;
    let mut batches: Vec<InferenceBatch> = Vec::new();
    let mut have_prev = false;
    let mut prev: usize = 0;
    loop
        invariant
            n == w.len(),
            w == widths@,
            max_batch > 0,
            !have_prev ==> batches@.len() == 0,
            batches_well_shaped(w, max_batch, batches@),
            have_prev && batches@.len() > 0 ==> batches@.last().width <= prev,
            forall|p: int|
                0 <= p < flat_indices(batches@).len() ==> {
                    let i = (#[trigger] flat_indices(batches@)[p]) as int;
                    0 <= i < n && w[i] <= prev
                },
            forall|i: usize|
                i < n && have_prev && w[i as int] <= prev ==> #[trigger] flat_indices(
                    batches@,
                ).contains(i),
            forall|p: int, q: int|
                0 <= p < q < flat_indices(batches@).len() ==> planned_before(
                    w,
                    #[trigger] flat_indices(batches@)[p] as int,
                    #[trigger] flat_indices(batches@)[q] as int,
                ),
        ensures
            is_batch_plan(w, max_batch, batches@),
        decreases
                (if have_prev {
                    usize::MAX - prev
                } else {
                    usize::MAX + 1
                }),
    {
        let mut found = false;
        let mut best: usize = 0;
        let mut i: usize = 0;
        while i < n
            invariant
                i <= n,
                n == w.len(),
                w == widths@,
                found ==> exists|j: int|
                    0 <= j < i && (!have_prev || w[j] > prev) && #[trigger] w[j] == best,
                forall|j: int|
                    0 <= j < i && (!have_prev || w[j] > prev) ==> found && best <= #[trigger] w[j],
            decreases n - i,
        {
            if (!have_prev || widths[i] > prev) && (!found || widths[i] < best) {
                found = true;
                best = widths[i];
            }
            i = i + 1;
        }
        if !found {
            proof {
                let f = flat_indices(batches@);
                assert forall|x: usize| x < w.len() implies #[trigger] f.contains(x) by {
                    let xi = x as int;
                    if !have_prev || w[xi] > prev {
                        assert(0 <= xi < i);
                        assert(best <= w[xi]);
                    }
                }
            }
            break;
        }
        let ghost batches0 = batches@;
        let ghost f0 = flat_indices(batches@);
        let mut cur: Vec<usize> = Vec::new();
        let mut j: usize = 0;
        while j < n
            invariant
                j <= n,
                n == w.len(),
                w == widths@,
                max_batch > 0,
                have_prev ==> prev < best,
                !have_prev ==> f0.len() == 0,
                forall|p: int| 0 <= p < f0.len() ==> w[#[trigger] f0[p] as int] <= prev,
                batches_well_shaped(w, max_batch, batches@),
                batches@.len() > 0 ==> batches@.last().width <= best,
                batches@.len() > 0 && batches@.last().width == best
                    ==> batches@.last().indices@.len() == max_batch,
                cur@.len() < max_batch,
                forall|k: int|
                    0 <= k < cur@.len() ==> {
                        let x = (#[trigger] cur@[k]) as int;
                        0 <= x < n && w[x] == best
                    },
                (flat_indices(batches@) + cur@).subrange(0, f0.len() as int) == f0,
                f0.len() <= (flat_indices(batches@) + cur@).len(),
                forall|p: int|
                    f0.len() <= p < (flat_indices(batches@) + cur@).len() ==> {
                        let x = (#[trigger] (flat_indices(batches@) + cur@)[p]) as int;
                        0 <= x < j && w[x] == best
                    },
                forall|p: int|
                    0 <= p < f0.len() ==> {
                        let x = (#[trigger] f0[p]) as int;
                        0 <= x < n
                    },
                forall|x: usize|
                    x < j && w[x as int] == best ==> #[trigger] (flat_indices(batches@)
                        + cur@).contains(x),
                forall|p: int, q: int|
                    0 <= p < q < (flat_indices(batches@) + cur@).len() ==> planned_before(
                        w,
                        #[trigger] (flat_indices(batches@) + cur@)[p] as int,
                        #[trigger] (flat_indices(batches@) + cur@)[q] as int,
                    ),
            decreases n - j,
        {
            if widths[j] == best {
                let ghost fa = flat_indices(batches@) + cur@;
                cur.push(j);
                proof {
                    let fb = flat_indices(batches@) + cur@;
                    assert(fb =~= fa.push(j as usize));
                    assert forall|p: int, q: int|
                        0 <= p < q < fb.len() implies planned_before(
                        w,
                        #[trigger] fb[p] as int,
                        #[trigger] fb[q] as int,
                    ) by {
                        if q == fb.len() - 1 && p < f0.len() {
                            assert(fa[p] == f0[p]);
                        }
                    }
                    assert forall|x: usize| x < j + 1 && w[x as int] == best implies #[trigger] fb.contains(
                        x,
                    ) by {
                        if x == j {
                            assert(fb[fb.len() - 1] == x);
                        } else {
                            assert(fa.contains(x));
                            let p = choose|p: int| 0 <= p < fa.len() && fa[p] == x;
                            assert(fb[p] == x);
                        }
                    }
                    assert(fb.subrange(0, f0.len() as int) =~= fa.subrange(0, f0.len() as int));
                }
                if cur.len() == max_batch {
                    let ghost before = batches@;
                    let ghost fc = flat_indices(batches@) + cur@;
                    let full = InferenceBatch { width: best, indices: cur };
                    batches.push(full);
                    cur = Vec::new();
                    proof {
                        lemma_flat_push(before, full);
                        assert(flat_indices(batches@) + cur@ =~= fc);
                        let bs = batches@;
                        assert forall|b: int|
                            0 <= b < bs.len() - 1 && (#[trigger] bs[b]).width == bs[b + 1].width
                            implies bs[b].indices@.len() == max_batch by {
                            if b < bs.len() - 2 {
                                assert(bs[b] == before[b] && bs[b + 1] == before[b + 1]);
                            } else {
                                assert(bs[b] == before.last());
                            }
                        }
                        assert forall|b: int, k: int|
                            0 <= b < bs.len() && 0 <= k < bs[b].indices@.len() implies {
                            let i = (#[trigger] bs[b].indices@[k]) as int;
                            0 <= i < w.len() && w[i] == bs[b].width
                        } by {
                            if b < bs.len() - 1 {
                                assert(bs[b] == before[b]);
                            }
                        }
                        assert forall|b: int|
                            0 <= b < bs.len() implies 0 < (#[trigger] bs[b]).indices@.len()
                            <= max_batch by {
                            if b < bs.len() - 1 {
                                assert(bs[b] == before[b]);
                            }
                        }
                    }
                }
            }
            j = j + 1;
        }
        if cur.len() > 0 {
            let ghost before = batches@;
            let ghost fc = flat_indices(batches@) + cur@;
            let last = InferenceBatch { width: best, indices: cur };
            batches.push(last);
            proof {
                lemma_flat_push(before, last);
                assert(flat_indices(batches@) =~= fc);
                let bs = batches@;
                assert forall|b: int|
                    0 <= b < bs.len() - 1 && (#[trigger] bs[b]).width == bs[b + 1].width
                    implies bs[b].indices@.len() == max_batch by {
                    if b < bs.len() - 2 {
                        assert(bs[b] == before[b] && bs[b + 1] == before[b + 1]);
                    } else {
                        assert(bs[b] == before.last());
                    }
                }
                assert forall|b: int, k: int|
                    0 <= b < bs.len() && 0 <= k < bs[b].indices@.len() implies {
                    let i = (#[trigger] bs[b].indices@[k]) as int;
                    0 <= i < w.len() && w[i] == bs[b].width
                } by {
                    if b < bs.len() - 1 {
                        assert(bs[b] == before[b]);
                    }
                }
                assert forall|b: int|
                    0 <= b < bs.len() implies 0 < (#[trigger] bs[b]).indices@.len()
                    <= max_batch by {
                    if b < bs.len() - 1 {
                        assert(bs[b] == before[b]);
                    }
                }
            }
        } else {
            proof {
                assert(flat_indices(batches@) + cur@ =~= flat_indices(batches@));
            }
        }
        proof {
            let f = flat_indices(batches@);
            assert forall|p: int| 0 <= p < f.len() implies {
                let i = (#[trigger] f[p]) as int;
                0 <= i < n && w[i] <= best
            } by {
                if p < f0.len() {
                    assert(f.subrange(0, f0.len() as int)[p] == f[p]);
                }
            }
            assert forall|i: usize| i < n && w[i as int] <= best implies #[trigger] f.contains(i) by {
                if have_prev && w[i as int] <= prev {
                    assert(f0.contains(i));
                    let p = choose|p: int| 0 <= p < f0.len() && f0[p] == i;
                    assert(f.subrange(0, f0.len() as int)[p] == f[p]);
                } else {
                    assert(f.contains(i));
                }
            }
        }
        prev = best;
        have_prev = true;
    }
    batches
}

} // verus!
