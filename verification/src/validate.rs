//! Executable well-formedness check of a task record, used when loading
//! records from disk: the store's invariants are only as trustworthy as what
//! a load lets in.

use vstd::prelude::*;

use crate::task::{Status, TaskValue};

verus! {

/// Decide `t.wf()`: the loaded record is accepted exactly when it satisfies
/// every store invariant.
pub fn validate_task(t: &TaskValue) -> (r: bool)
    ensures
        r == t.wf(),
{
    if t.total_part_num != t.task_order.len() {
        return false;
    }
    if t.total_part_num == 0 {
        return false;
    }
    if !(t.state.current_part_num < t.total_part_num) {
        return false;
    }
    if !(t.state.progress_permille <= 1000) {
        return false;
    }
    if (t.state.status == Status::Error) != t.error_info.is_some() {
        return false;
    }
    if t.state.status == Status::Done && t.state.current_part_num != t.total_part_num - 1 {
        return false;
    }
    if t.state.status == Status::OnTask && t.uploader.job_id().is_none() {
        return false;
    }
    let ghost parts = t.task_order@.map_values(|p: Vec<usize>| p@);
    let mut flat: Vec<usize> = Vec::new();
    let mut i: usize = 0;
    proof {
        assert(parts.take(0) =~= Seq::<Seq<usize>>::empty());
        assert(flat@ =~= parts.take(0).flatten());
    }
    while i < t.task_order.len()
        invariant
            i <= t.task_order@.len(),
            parts == t.task_order@.map_values(|p: Vec<usize>| p@),
            flat@ == parts.take(i as int).flatten(),
            forall|k: int| 0 <= k < i ==> (#[trigger] parts[k]).len() > 0,
            forall|k: int, j: int|
                0 <= k < i && 0 <= j < parts[k].len() ==> (#[trigger] parts[k][j]) < t.file_num,
        decreases t.task_order@.len() - i,
    {
        let part_len = t.task_order[i].len();
        if part_len == 0 {
            assert(parts[i as int].len() == 0);
            return false;
        }
        let mut j: usize = 0;
        while j < part_len
            invariant
                j <= part_len,
                i < t.task_order@.len(),
                parts == t.task_order@.map_values(|p: Vec<usize>| p@),
                part_len == parts[i as int].len(),
                flat@ == parts.take(i as int).flatten() + parts[i as int].take(j as int),
                forall|k: int| 0 <= k < j ==> (#[trigger] parts[i as int][k]) < t.file_num,
            decreases part_len - j,
        {
            let idx = t.task_order[i][j];
            if !(idx < t.file_num) {
                assert(parts[i as int][j as int] >= t.file_num);
                return false;
            }
            flat.push(idx);
            proof {
                assert(parts[i as int].take(j as int + 1) =~= parts[i as int].take(
                    j as int,
                ).push(idx));
                assert(flat@ =~= parts.take(i as int).flatten() + parts[i as int].take(
                    j as int + 1,
                ));
            }
            j += 1;
        }
        proof {
            assert(parts[i as int].take(part_len as int) =~= parts[i as int]);
            assert(parts.take(i as int + 1) =~= parts.take(i as int).push(parts[i as int]));
            Seq::lemma_flatten_push(parts.take(i as int), parts[i as int]);
            assert(flat@ =~= parts.take(i as int + 1).flatten());
        }
        i += 1;
    }
    proof {
        assert(parts.take(i as int) =~= parts);
    }
    let flat_len = flat.len();
    let mut a: usize = 0;
    while a < flat_len
        invariant
            a <= flat_len,
            flat_len == flat@.len(),
            flat@ == parts.flatten(),
            parts == t.task_order@.map_values(|p: Vec<usize>| p@),
            forall|p: int, q: int| 0 <= p < a && p < q < flat_len ==> flat@[p] != flat@[q],
        decreases flat_len - a,
    {
        let mut b: usize = a + 1;
        while b < flat_len
            invariant
                a < b <= flat_len,
                a < flat_len,
                flat_len == flat@.len(),
                flat@ == parts.flatten(),
                parts == t.task_order@.map_values(|p: Vec<usize>| p@),
                forall|q: int| a < q < b ==> flat@[a as int] != flat@[q],
            decreases flat_len - b,
        {
            if flat[a] == flat[b] {
                assert(flat@[a as int] == flat@[b as int]);
                assert(!flat@.no_duplicates());
                assert(!Seq::flatten(t.task_order@.map_values(|p: Vec<usize>| p@)).no_duplicates())
                    by {
                    assert(t.task_order@.map_values(|p: Vec<usize>| p@) =~= parts);
                }
                return false;
            }
            b += 1;
        }
        a += 1;
    }
    proof {
        assert forall|p: int, q: int|
            0 <= p < flat@.len() && 0 <= q < flat@.len() && p != q implies flat@[p]
            != flat@[q] by {
            if p < q {
            } else {
            }
        }
        assert(flat@.no_duplicates());
        assert(t.task_order@.map_values(|p: Vec<usize>| p@) =~= parts);
        assert(t.plan_wf()) by {
            assert(forall|k: int|
                0 <= k < t.task_order@.len() ==> (#[trigger] t.task_order@[k])@ == parts[k]);
        }
        assert(t.wf());
    }
    true
}

} // verus!
