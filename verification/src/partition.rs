//! The partitioner: split a torrent's file list into ordered parts whose
//! summed byte length stays under a cap, optionally restricted to a
//! user-selected subset of file indices. The split is a pure, deterministic
//! greedy fit; `spec_partition` is its mathematical definition and
//! `get_task_order` the executable form proved equal to it.

use vstd::prelude::*;

use crate::task::TaskError;

verus! {

/// The sequence of file indices a partitioning works through: the selected
/// indices in the order given, or all of `0 .. len` when none are selected.
pub open spec fn working_indices(len: nat, selected: Option<Seq<usize>>) -> Seq<usize> {
    match selected {
        Some(s) => s,
        None => Seq::new(len, |i: int| i as usize),
    }
}

/// Every worked index is a real position in the length list.
pub open spec fn indices_in_range(work: Seq<usize>, len: nat) -> bool {
    forall|k: int| 0 <= k < work.len() ==> (#[trigger] work[k]) < len
}

/// Every worked file length is nonnegative, as a torrent's file lengths are.
pub open spec fn lengths_nonneg(lengths: Seq<i64>, work: Seq<usize>) -> bool {
    forall|k: int| 0 <= k < work.len() ==> lengths[#[trigger] work[k] as int] >= 0
}

/// No single worked file is larger than the cap; when this fails the
/// partitioning is rejected with `OverSize`.
pub open spec fn fits(lengths: Seq<i64>, max: i64, work: Seq<usize>) -> bool {
    forall|k: int| 0 <= k < work.len() ==> lengths[#[trigger] work[k] as int] <= max
}

/// Summed length of one part.
pub open spec fn part_sum(lengths: Seq<i64>, part: Seq<usize>) -> int
    decreases part.len(),
{
    if part.len() == 0 {
        0
    } else {
        part_sum(lengths, part.drop_last()) + lengths[part.last() as int]
    }
}

/// State of the greedy fit after consuming `work`: the closed parts, the
/// still-open part, and the open part's running sum. A new index opens a
/// fresh part exactly when the open part is nonempty and would overflow the
/// cap.
pub open spec fn greedy(lengths: Seq<i64>, max: i64, work: Seq<usize>) -> (Seq<Seq<usize>>, Seq<
    usize,
>, int)
    decreases work.len(),
{
    if work.len() == 0 {
        (Seq::<Seq<usize>>::empty(), Seq::<usize>::empty(), 0int)
    } else {
        let prev = greedy(lengths, max, work.drop_last());
        let parts = prev.0;
        let cur = prev.1;
        let size = prev.2;
        let i = work.last();
        let l = lengths[i as int] as int;
        if cur.len() > 0 && size + l > max {
            (parts.push(cur), seq![i], l)
        } else {
            (parts, cur.push(i), size + l)
        }
    }
}

/// The list of parts the greedy fit produces: the closed parts, with the
/// open part appended when nonempty.
pub open spec fn spec_partition(lengths: Seq<i64>, max: i64, work: Seq<usize>) -> Seq<Seq<usize>> {
    let g = greedy(lengths, max, work);
    if g.1.len() == 0 {
        g.0
    } else {
        g.0.push(g.1)
    }
}

/// The view of an optional selected-index slice.
pub open spec fn selected_view(selected: Option<&[usize]>) -> Option<Seq<usize>> {
    match selected {
        Some(s) => Some(s@),
        None => None,
    }
}

/// Check that every worked file length is within the cap: true exactly when
/// the partitioning would be accepted.
pub fn check(torrent_lengths_list: &[i64], max: i64, selected_file_index: Option<&[usize]>) -> (r:
    bool)
    requires
        indices_in_range(
            working_indices(torrent_lengths_list@.len(), selected_view(selected_file_index)),
            torrent_lengths_list@.len(),
        ),
    ensures
        r == fits(
            torrent_lengths_list@,
            max,
            working_indices(torrent_lengths_list@.len(), selected_view(selected_file_index)),
        ),
{
    match selected_file_index {
        None => {
            let ghost work = working_indices(torrent_lengths_list@.len(), None);
            proof {
                assert(selected_view(selected_file_index) is None);
            }
            let mut i: usize = 0;
            while i < torrent_lengths_list.len()
                invariant
                    i <= torrent_lengths_list@.len(),
                    work == working_indices(
                        torrent_lengths_list@.len(),
                        selected_view(selected_file_index),
                    ),
                    work == working_indices(torrent_lengths_list@.len(), None),
                    forall|k: int|
                        0 <= k < i ==> torrent_lengths_list@[(#[trigger] work[k]) as int] <= max,
                decreases torrent_lengths_list@.len() - i,
            {
                proof {
                    assert(work[i as int] == i as usize);
                }
                if torrent_lengths_list[i] > max {
                    assert(!fits(torrent_lengths_list@, max, work));
                    return false;
                }
                i += 1;
            }
            true
        },
        Some(index_list) => {
            let ghost work = index_list@;
            proof {
                assert(selected_view(selected_file_index) == Some(index_list@));
                assert(work == working_indices(
                    torrent_lengths_list@.len(),
                    selected_view(selected_file_index),
                ));
            }
            let mut k: usize = 0;
            while k < index_list.len()
                invariant
                    k <= index_list@.len(),
                    work == working_indices(
                        torrent_lengths_list@.len(),
                        selected_view(selected_file_index),
                    ),
                    work == index_list@,
                    indices_in_range(work, torrent_lengths_list@.len()),
                    forall|j: int|
                        0 <= j < k ==> torrent_lengths_list@[(#[trigger] work[j]) as int] <= max,
                decreases index_list@.len() - k,
            {
                if torrent_lengths_list[index_list[k]] > max {
                    assert(!fits(torrent_lengths_list@, max, work));
                    return false;
                }
                k += 1;
            }
            true
        },
    }
}

/// Split the worked file list into parts under the byte cap.
///
/// Fails with `OverSize` exactly when some worked file is larger than the
/// cap; otherwise the result is the greedy partition `spec_partition`, so
/// equal inputs always give the identical part list.
pub fn get_task_order(
    torrent_lengths_list: &[i64],
    max: i64,
    selected_file_index: Option<&[usize]>,
) -> (r: Result<Vec<Vec<usize>>, TaskError>)
    requires
        indices_in_range(
            working_indices(torrent_lengths_list@.len(), selected_view(selected_file_index)),
            torrent_lengths_list@.len(),
        ),
        lengths_nonneg(
            torrent_lengths_list@,
            working_indices(torrent_lengths_list@.len(), selected_view(selected_file_index)),
        ),
    ensures
        r is Ok <==> fits(
            torrent_lengths_list@,
            max,
            working_indices(torrent_lengths_list@.len(), selected_view(selected_file_index)),
        ),
        r is Ok ==> r->Ok_0.deep_view() == spec_partition(
            torrent_lengths_list@,
            max,
            working_indices(torrent_lengths_list@.len(), selected_view(selected_file_index)),
        ),
        r is Err ==> r->Err_0 is OverSize,
{
    if !check(torrent_lengths_list, max, selected_file_index) {
        return Err(TaskError::OverSize);
    }
    let mut work: Vec<usize> = Vec::new();
    match selected_file_index {
        None => {
            let n = torrent_lengths_list.len();
            let mut i: usize = 0;
            while i < n
                invariant
                    i <= n,
                    n == torrent_lengths_list@.len(),
                    work@ =~= working_indices(n as nat, None).take(i as int),
                decreases n - i,
            {
                work.push(i);
                i += 1;
            }
            proof {
                assert(work@ =~= working_indices(n as nat, None));
            }
        },
        Some(index_list) => {
            let mut k: usize = 0;
            while k < index_list.len()
                invariant
                    k <= index_list@.len(),
                    work@ =~= index_list@.take(k as int),
                decreases index_list@.len() - k,
            {
                work.push(index_list[k]);
                k += 1;
            }
            proof {
                assert(work@ =~= index_list@);
            }
        },
    }
    Ok(greedy_fill(torrent_lengths_list, max, &work))
}

/// The greedy loop itself, over a materialized working sequence.
fn greedy_fill(lengths: &[i64], max: i64, work: &Vec<usize>) -> (r: Vec<Vec<usize>>)
    requires
        indices_in_range(work@, lengths@.len()),
        lengths_nonneg(lengths@, work@),
        fits(lengths@, max, work@),
    ensures
        r.deep_view() == spec_partition(lengths@, max, work@),
{
    let mut task_order: Vec<Vec<usize>> = Vec::new();
    let mut current_part: Vec<usize> = Vec::new();
    let mut current_size: i64 = 0;
    let mut idx: usize = 0;
    proof {
        assert(work@.take(0) =~= Seq::<usize>::empty());
        assert(task_order.deep_view() =~~= greedy(lengths@, max, work@.take(0)).0);
    }
    while idx < work.len()
        invariant
            idx <= work@.len(),
            indices_in_range(work@, lengths@.len()),
            lengths_nonneg(lengths@, work@),
            fits(lengths@, max, work@),
            task_order.deep_view() == greedy(lengths@, max, work@.take(idx as int)).0,
            current_part@ == greedy(lengths@, max, work@.take(idx as int)).1,
            current_size as int == greedy(lengths@, max, work@.take(idx as int)).2,
            current_size >= 0,
            current_part@.len() > 0 ==> current_size <= max,
            current_part@.len() == 0 ==> current_size == 0,
        decreases work@.len() - idx,
    {
        let ghost prev = greedy(lengths@, max, work@.take(idx as int));
        let index = work[idx];
        let length = lengths[index];
        proof {
            lemma_greedy_step(lengths@, max, work@, idx as int);
            assert(lengths@[work@[idx as int] as int] >= 0 && lengths@[work@[idx as int] as int]
                <= max);
        }
        if !current_part.is_empty() && (current_size as i128) + (length as i128) > (max as i128) {
            task_order.push(current_part);
            current_part = Vec::new();
            current_size = 0;
            proof {
                assert(task_order.deep_view() =~~= prev.0.push(prev.1));
            }
        }
        current_part.push(index);
        current_size = current_size + length;
        proof {
            assert(task_order.deep_view() == greedy(lengths@, max, work@.take(idx as int + 1)).0);
            assert(current_part@ =~= greedy(lengths@, max, work@.take(idx as int + 1)).1);
        }
        idx += 1;
    }
    proof {
        assert(work@.take(idx as int) =~= work@);
    }
    if !current_part.is_empty() {
        let ghost g = greedy(lengths@, max, work@);
        task_order.push(current_part);
        proof {
            assert(task_order.deep_view() =~~= g.0.push(g.1));
        }
    }
    task_order
}

/// Running facts of the greedy fit, proved by induction over the worked
/// sequence: the closed parts followed by the open part spell out exactly the
/// indices consumed so far, the running sum is the open part's sum, every
/// closed part is nonempty with sum within the cap, and the open part is
/// nonempty as soon as anything was consumed.
proof fn lemma_greedy_props(lengths: Seq<i64>, max: i64, work: Seq<usize>)
    requires
        lengths_nonneg(lengths, work),
        fits(lengths, max, work),
    ensures
        greedy(lengths, max, work).0.flatten() + greedy(lengths, max, work).1 =~= work,
        greedy(lengths, max, work).2 == part_sum(lengths, greedy(lengths, max, work).1),
        0 <= greedy(lengths, max, work).2,
        greedy(lengths, max, work).1.len() > 0 ==> greedy(lengths, max, work).2 <= max,
        work.len() > 0 <==> greedy(lengths, max, work).1.len() > 0,
        work.len() == 0 ==> greedy(lengths, max, work).0.len() == 0,
        forall|i: int|
            0 <= i < greedy(lengths, max, work).0.len() ==> part_sum(
                lengths,
                #[trigger] greedy(lengths, max, work).0[i],
            ) <= max && greedy(lengths, max, work).0[i].len() > 0,
    decreases work.len(),
{
    if work.len() == 0 {
        assert(greedy(lengths, max, work).0.flatten() + greedy(lengths, max, work).1
            =~= Seq::<usize>::empty());
    } else {
        let prior = work.drop_last();
        assert(lengths_nonneg(lengths, prior) && fits(lengths, max, prior)) by {
            assert(forall|k: int| 0 <= k < prior.len() ==> prior[k] == work[k]);
        }
        lemma_greedy_props(lengths, max, prior);
        let prev = greedy(lengths, max, prior);
        let i = work.last();
        let l = lengths[i as int] as int;
        assert(0 <= l <= max);
        if prev.1.len() > 0 && prev.2 + l > max {
            Seq::lemma_flatten_push(prev.0, prev.1);
            assert(prev.0.push(prev.1).flatten() + seq![i] =~= (prev.0.flatten() + prev.1).push(i));
            assert((prev.0.flatten() + prev.1).push(i) =~= prior.push(i));
            assert(prior.push(i) =~= work);
            assert(part_sum(lengths, seq![i]) == l) by {
                assert(seq![i].drop_last() =~= Seq::<usize>::empty());
                assert(part_sum(lengths, Seq::<usize>::empty()) == 0);
                assert(seq![i].last() == i);
            }
        } else {
            assert(prev.0.flatten() + prev.1.push(i) =~= (prev.0.flatten() + prev.1).push(i));
            assert((prev.0.flatten() + prev.1).push(i) =~= prior.push(i));
            assert(prior.push(i) =~= work);
            assert(part_sum(lengths, prev.1.push(i)) == prev.2 + l) by {
                assert(prev.1.push(i).drop_last() =~= prev.1);
                assert(prev.1.push(i).last() == i);
            }
        }
    }
}

/// An element of a nested sequence occurs in its flattening.
proof fn lemma_flatten_index_contains<A>(ss: Seq<Seq<A>>, i: int, k: int)
    requires
        0 <= i < ss.len(),
        0 <= k < ss[i].len(),
    ensures
        ss.flatten().contains(ss[i][k]),
    decreases ss.len(),
{
    let dl = ss.drop_last();
    assert(ss =~= dl.push(ss.last()));
    Seq::lemma_flatten_push(dl, ss.last());
    assert(dl.push(ss.last()).flatten() == dl.flatten() + ss.last());
    if i < ss.len() - 1 {
        lemma_flatten_index_contains(dl, i, k);
        let p = choose|p: int| 0 <= p < dl.flatten().len() && dl.flatten()[p] == dl[i][k];
        assert(ss.flatten()[p] == ss[i][k]);
    } else {
        assert(ss.flatten()[dl.flatten().len() + k] == ss[i][k]);
    }
}

/// When the flattening of a nested sequence has no duplicates, no element
/// occurs in two distinct inner sequences.
pub proof fn lemma_flatten_no_dup_disjoint<A>(ss: Seq<Seq<A>>)
    requires
        ss.flatten().no_duplicates(),
    ensures
        forall|i: int, j: int, k: int, l: int|
            0 <= i < j < ss.len() && 0 <= k < ss[i].len() && 0 <= l < ss[j].len()
                ==> #[trigger] ss[i][k] != #[trigger] ss[j][l],
    decreases ss.len(),
{
    if ss.len() > 1 {
        let dl = ss.drop_last();
        let last = ss.last();
        assert(ss =~= dl.push(last));
        Seq::lemma_flatten_push(dl, last);
        assert(ss.flatten() == dl.flatten() + last);
        assert forall|p: int, q: int|
            0 <= p < dl.flatten().len() && 0 <= q < dl.flatten().len() && p
                != q implies dl.flatten()[p] != dl.flatten()[q] by {
            assert(ss.flatten()[p] == dl.flatten()[p]);
            assert(ss.flatten()[q] == dl.flatten()[q]);
        }
        assert(dl.flatten().no_duplicates());
        lemma_flatten_no_dup_disjoint(dl);
        assert forall|i: int, k: int, l: int|
            0 <= i < ss.len() - 1 && 0 <= k < ss[i].len() && 0 <= l
                < last.len() implies ss[i][k] != last[l] by {
            lemma_flatten_index_contains(dl, i, k);
            let p = choose|p: int| 0 <= p < dl.flatten().len() && dl.flatten()[p] == dl[i][k];
            assert(ss.flatten()[p] == ss[i][k]);
            assert(ss.flatten()[dl.flatten().len() + l] == last[l]);
        }
    }
}

/// Law: the parts, flattened in order, spell out exactly the worked index
/// sequence — the selected indices in the order given, or all files in
/// order. Nothing is dropped, added, or reordered.
pub proof fn lemma_partition_covers(lengths: Seq<i64>, max: i64, work: Seq<usize>)
    requires
        lengths_nonneg(lengths, work),
        fits(lengths, max, work),
    ensures
        spec_partition(lengths, max, work).flatten() == work,
{
    lemma_greedy_props(lengths, max, work);
    let g = greedy(lengths, max, work);
    if g.1.len() == 0 {
        assert(g.0.flatten() + g.1 =~= g.0.flatten());
        assert(spec_partition(lengths, max, work).flatten() =~= work);
    } else {
        Seq::lemma_flatten_push(g.0, g.1);
        assert(spec_partition(lengths, max, work).flatten() =~= work);
    }
}

/// Law: every part is nonempty, the summed length of every part stays within
/// the cap, and so does every single worked length.
pub proof fn lemma_partition_parts_bounded(lengths: Seq<i64>, max: i64, work: Seq<usize>)
    requires
        lengths_nonneg(lengths, work),
        fits(lengths, max, work),
    ensures
        forall|i: int|
            0 <= i < spec_partition(lengths, max, work).len() ==> part_sum(
                lengths,
                #[trigger] spec_partition(lengths, max, work)[i],
            ) <= max && spec_partition(lengths, max, work)[i].len() > 0,
        forall|i: int, k: int|
            0 <= i < spec_partition(lengths, max, work).len() && 0 <= k < spec_partition(
                lengths,
                max,
                work,
            )[i].len() ==> lengths[#[trigger] spec_partition(lengths, max, work)[i][k] as int]
                <= max,
{
    lemma_greedy_props(lengths, max, work);
    lemma_partition_covers(lengths, max, work);
    let sp = spec_partition(lengths, max, work);
    assert forall|i: int, k: int| 0 <= i < sp.len() && 0 <= k < sp[i].len() implies lengths[sp[i][k]
        as int] <= max by {
        lemma_flatten_index_contains(sp, i, k);
        let p = choose|p: int| 0 <= p < sp.flatten().len() && sp.flatten()[p] == sp[i][k];
        assert(work[p] == sp[i][k]);
    }
}

/// Law: every index placed in a part is a real position in the length list,
/// as long as the worked indices were.
pub proof fn lemma_partition_elements_in_range(lengths: Seq<i64>, max: i64, work: Seq<usize>, n: nat)
    requires
        lengths_nonneg(lengths, work),
        fits(lengths, max, work),
        indices_in_range(work, n),
    ensures
        forall|i: int, k: int|
            0 <= i < spec_partition(lengths, max, work).len() && 0 <= k < spec_partition(
                lengths,
                max,
                work,
            )[i].len() ==> (#[trigger] spec_partition(lengths, max, work)[i][k]) < n,
{
    lemma_partition_covers(lengths, max, work);
    let sp = spec_partition(lengths, max, work);
    assert forall|i: int, k: int| 0 <= i < sp.len() && 0 <= k < sp[i].len() implies sp[i][k]
        < n by {
        lemma_flatten_index_contains(sp, i, k);
        let p = choose|p: int| 0 <= p < sp.flatten().len() && sp.flatten()[p] == sp[i][k];
        assert(work[p] == sp[i][k]);
    }
}

/// Law: no file index appears in two distinct parts, as long as the worked
/// sequence itself repeats no index. (A selected-index list that names the
/// same file twice is passed through as given, so this speaks only of
/// duplicate-free selections.)
pub proof fn lemma_partition_disjoint(lengths: Seq<i64>, max: i64, work: Seq<usize>)
    requires
        lengths_nonneg(lengths, work),
        fits(lengths, max, work),
        work.no_duplicates(),
    ensures
        forall|i: int, j: int, k: int, l: int|
            0 <= i < j < spec_partition(lengths, max, work).len() && 0 <= k < spec_partition(
                lengths,
                max,
                work,
            )[i].len() && 0 <= l < spec_partition(lengths, max, work)[j].len()
                ==> #[trigger] spec_partition(lengths, max, work)[i][k] != #[trigger] spec_partition(
                lengths,
                max,
                work,
            )[j][l],
{
    lemma_partition_covers(lengths, max, work);
    lemma_flatten_no_dup_disjoint(spec_partition(lengths, max, work));
}

/// Law: the partition is a pure function of its inputs — two runs over
/// identical lengths, cap, and selection give the identical part list, so
/// the split is stable and idempotent to recompute.
pub proof fn lemma_partition_stable(
    r1: Seq<Seq<usize>>,
    r2: Seq<Seq<usize>>,
    lengths: Seq<i64>,
    max: i64,
    work: Seq<usize>,
)
    requires
        r1 == spec_partition(lengths, max, work),
        r2 == spec_partition(lengths, max, work),
    ensures
        r1 == r2,
{
}

/// One step of the greedy fit: consuming the next worked index either closes
/// the open part or extends it.
proof fn lemma_greedy_step(lengths: Seq<i64>, max: i64, work: Seq<usize>, idx: int)
    requires
        0 <= idx < work.len(),
    ensures
        ({
            let prev = greedy(lengths, max, work.take(idx));
            let i = work[idx];
            let l = lengths[i as int] as int;
            greedy(lengths, max, work.take(idx + 1)) == (if prev.1.len() > 0 && prev.2 + l > max {
                (prev.0.push(prev.1), seq![i], l)
            } else {
                (prev.0, prev.1.push(i), prev.2 + l)
            })
        }),
{
    let w = work.take(idx + 1);
    assert(w.drop_last() =~= work.take(idx));
    assert(w.last() == work[idx]);
}

} // verus!

