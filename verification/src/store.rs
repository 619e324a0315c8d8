//! The persistent task store: a map from info-hash to task record. At most
//! one task exists per hash, and every stored task is well-formed. The file
//! I/O around it lives outside; `records` and `from_records` are the pure
//! halves of saving and loading, and loading validates what it is given.

use vstd::prelude::*;

use crate::task::{TaskError, TaskValue};
use crate::{lemma_lex_cmp_equal_iff, lemma_lex_cmp_flip, lemma_lex_cmp_trans, spec_lex_cmp,
    str_eq, str_lex_cmp};

verus! {

/// A loadable snapshot is exactly a well-formed store body: every record is
/// well-formed, and the records are strictly ordered by hash (which also
/// keeps every hash unique) — the order iteration and the store file use.
pub open spec fn records_valid(records: Seq<TaskValue>) -> bool {
    &&& forall|i: int| 0 <= i < records.len() ==> (#[trigger] records[i]).wf()
    &&& forall|i: int, j: int|
        0 <= i < j < records.len() ==> (#[trigger] records[i]).hash@ != (
        #[trigger] records[j]).hash@
    &&& forall|i: int, j: int|
        0 <= i < j < records.len() ==> spec_lex_cmp(
            (#[trigger] records[i]).hash@,
            (#[trigger] records[j]).hash@,
        ) is Less
}

/// The in-memory task map, owned by whoever runs the poller.
pub struct TaskStore {
    pub tasks: Vec<TaskValue>,
}

impl TaskStore {
    /// Every task is well-formed and hashes are unique.
    pub open spec fn wf(self) -> bool {
        records_valid(self.tasks@)
    }

    /// Whether some task with this hash is stored.
    pub open spec fn spec_contains_hash(self, h: Seq<char>) -> bool {
        exists|i: int| 0 <= i < self.tasks@.len() && (#[trigger] self.tasks@[i]).hash@ == h
    }

    /// The position of the task with this hash; meaningful only when one is
    /// stored (it is then unique).
    pub open spec fn spec_index_of(self, h: Seq<char>) -> int {
        choose|i: int| 0 <= i < self.tasks@.len() && (#[trigger] self.tasks@[i]).hash@ == h
    }

    pub fn new() -> (r: TaskStore)
        ensures
            r.wf(),
            r.tasks@.len() == 0,
    {
        TaskStore { tasks: Vec::new() }
    }

    pub fn len(&self) -> (r: usize)
        ensures
            r == self.tasks@.len(),
    {
        self.tasks.len()
    }

    pub fn is_empty(&self) -> (r: bool)
        ensures
            r == (self.tasks@.len() == 0),
    {
        self.tasks.len() == 0
    }

    fn index_of(&self, hash: &str) -> (r: Option<usize>)
        ensures
            r is Some <==> self.spec_contains_hash(hash@),
            r matches Some(i) ==> 0 <= i < self.tasks@.len() && self.tasks@[i as int].hash@
                == hash@,
    {
        let mut i: usize = 0;
        while i < self.tasks.len()
            invariant
                i <= self.tasks@.len(),
                forall|k: int| 0 <= k < i ==> (#[trigger] self.tasks@[k]).hash@ != hash@,
            decreases self.tasks@.len() - i,
        {
            if str_eq(self.tasks[i].hash.as_str(), hash) {
                return Some(i);
            }
            i += 1;
        }
        None
    }

    /// Look a task up by hash.
    pub fn get(&self, hash: &str) -> (r: Option<&TaskValue>)
        ensures
            r is Some <==> self.spec_contains_hash(hash@),
            r matches Some(t) ==> t.hash@ == hash@ && exists|i: int|
                0 <= i < self.tasks@.len() && self.tasks@[i] == *t,
    {
        match self.index_of(hash) {
            Some(i) => Some(&self.tasks[i]),
            None => None,
        }
    }

    /// The position where this hash belongs in the order: everything before
    /// it is strictly below the hash, and the entry there (if any) is not.
    fn sorted_position(&self, hash: &str) -> (r: usize)
        ensures
            r <= self.tasks@.len(),
            forall|k: int|
                0 <= k < r ==> spec_lex_cmp((#[trigger] self.tasks@[k]).hash@, hash@) is Less,
            r < self.tasks@.len() ==> !(spec_lex_cmp(self.tasks@[r as int].hash@, hash@) is Less),
    {
        let mut i: usize = 0;
        while i < self.tasks.len()
            invariant
                i <= self.tasks@.len(),
                forall|k: int|
                    0 <= k < i ==> spec_lex_cmp((#[trigger] self.tasks@[k]).hash@, hash@) is Less,
            decreases self.tasks@.len() - i,
        {
            let c = str_lex_cmp(self.tasks[i].hash.as_str(), hash);
            match c {
                core::cmp::Ordering::Less => {
                    i += 1;
                },
                _ => {
                    return i;
                },
            }
        }
        i
    }

    /// Store a task at its place in the hash order: an existing record with
    /// the same hash is replaced, any other task is untouched.
    pub fn insert(&mut self, task: TaskValue)
        requires
            old(self).wf(),
            task.wf(),
        ensures
            final(self).wf(),
            final(self).spec_contains_hash(task.hash@),
            old(self).spec_contains_hash(task.hash@) ==> final(self).tasks@ == old(
                self,
            ).tasks@.update(old(self).spec_index_of(task.hash@), task),
            !old(self).spec_contains_hash(task.hash@) ==> exists|p: int|
                0 <= p <= old(self).tasks@.len() && final(self).tasks@ == old(
                    self,
                ).tasks@.insert(p, task),
    {
        let n = self.tasks.len();
        let p = self.sorted_position(task.hash.as_str());
        if p < n && matches!(
            str_lex_cmp(self.tasks[p].hash.as_str(), task.hash.as_str()),
            core::cmp::Ordering::Equal
        ) {
            proof {
                lemma_lex_cmp_equal_iff(self.tasks@[p as int].hash@, task.hash@);
                assert(self.tasks@[p as int].hash@ == task.hash@);
                let j = self.spec_index_of(task.hash@);
                assert(self.tasks@[j].hash@ == task.hash@);
                assert(j == p as int);
            }
            self.tasks.remove(p);
            self.tasks.insert(p, task);
            proof {
                assert(final(self).tasks@ =~= old(self).tasks@.update(
                    old(self).spec_index_of(task.hash@),
                    task,
                ));
                assert(self.tasks@[p as int] == task);
                assert forall|a: int, b: int|
                    0 <= a < b < self.tasks@.len() implies spec_lex_cmp(
                    (#[trigger] self.tasks@[a]).hash@,
                    (#[trigger] self.tasks@[b]).hash@,
                ) is Less && self.tasks@[a].hash@ != self.tasks@[b].hash@ by {
                    assert(self.tasks@[a].hash@ == old(self).tasks@[a].hash@);
                    assert(self.tasks@[b].hash@ == old(self).tasks@[b].hash@);
                }
            }
        } else {
            proof {
                assert forall|k: int|
                    0 <= k < old(self).tasks@.len() implies (#[trigger] old(
                    self,
                ).tasks@[k]).hash@ != task.hash@ by {
                    lemma_lex_cmp_equal_iff(old(self).tasks@[k].hash@, task.hash@);
                    if k < p as int {
                    } else if k == p as int {
                    } else {
                        assert(spec_lex_cmp(
                            old(self).tasks@[p as int].hash@,
                            old(self).tasks@[k].hash@,
                        ) is Less);
                    }
                }
                assert(!old(self).spec_contains_hash(task.hash@));
            }
            self.tasks.insert(p, task);
            proof {
                assert(self.tasks@ == old(self).tasks@.insert(p as int, task));
                assert(self.tasks@[p as int] == task);
                assert forall|a: int, b: int|
                    0 <= a < b < self.tasks@.len() implies spec_lex_cmp(
                    (#[trigger] self.tasks@[a]).hash@,
                    (#[trigger] self.tasks@[b]).hash@,
                ) is Less && self.tasks@[a].hash@ != self.tasks@[b].hash@ by {
                    if a < p as int && b == p as int {
                        assert(self.tasks@[a] == old(self).tasks@[a]);
                    } else if a == p as int && b > p as int {
                        assert(self.tasks@[b] == old(self).tasks@[b - 1]);
                        if b - 1 == p as int {
                            lemma_lex_cmp_flip(task.hash@, old(self).tasks@[p as int].hash@);
                        } else {
                            lemma_lex_cmp_flip(task.hash@, old(self).tasks@[p as int].hash@);
                            lemma_lex_cmp_trans(
                                task.hash@,
                                old(self).tasks@[p as int].hash@,
                                old(self).tasks@[b - 1].hash@,
                            );
                        }
                    } else if a < p as int && b > p as int {
                        assert(self.tasks@[a] == old(self).tasks@[a]);
                        assert(self.tasks@[b] == old(self).tasks@[b - 1]);
                    } else if a > p as int && b > p as int {
                        assert(self.tasks@[a] == old(self).tasks@[a - 1]);
                        assert(self.tasks@[b] == old(self).tasks@[b - 1]);
                    } else {
                        assert(self.tasks@[a] == old(self).tasks@[a]);
                        assert(self.tasks@[b] == old(self).tasks@[b]);
                    }
                    lemma_lex_cmp_equal_iff(self.tasks@[a].hash@, self.tasks@[b].hash@);
                }
                assert forall|a: int| 0 <= a < self.tasks@.len() implies (#[trigger] self.tasks@[
                    a]).wf() by {
                    if a < p as int {
                        assert(self.tasks@[a] == old(self).tasks@[a]);
                    } else if a > p as int {
                        assert(self.tasks@[a] == old(self).tasks@[a - 1]);
                    }
                }
            }
        }
    }

    /// Remove the task with this hash, returning it; afterwards no task with
    /// that hash is stored, and every other task is untouched.
    pub fn remove(&mut self, hash: &str) -> (r: Option<TaskValue>)
        requires
            old(self).wf(),
        ensures
            final(self).wf(),
            !final(self).spec_contains_hash(hash@),
            r is Some <==> old(self).spec_contains_hash(hash@),
            old(self).spec_contains_hash(hash@) ==> final(self).tasks@ == old(
                self,
            ).tasks@.remove(old(self).spec_index_of(hash@)) && r == Some(
                old(self).tasks@[old(self).spec_index_of(hash@)],
            ),
            !old(self).spec_contains_hash(hash@) ==> *final(self) == *old(self),
    {
        match self.index_of(hash) {
            Some(i) => {
                proof {
                    let j = self.spec_index_of(hash@);
                    assert(self.tasks@[j].hash@ == hash@);
                    assert(j == i as int);
                }
                let t = self.tasks.remove(i);
                proof {
                    assert forall|k: int|
                        0 <= k < final(self).tasks@.len() implies (
                    #[trigger] final(self).tasks@[k]).hash@ != hash@ by {
                        if k < i as int {
                            assert(final(self).tasks@[k] == old(self).tasks@[k]);
                        } else {
                            assert(final(self).tasks@[k] == old(self).tasks@[k + 1]);
                        }
                    }
                }
                Some(t)
            },
            None => None,
        }
    }

    /// The records a save writes out: the store body itself, in store order.
    pub fn records(&self) -> (r: &Vec<TaskValue>)
        ensures
            r == self.tasks,
    {
        &self.tasks
    }

    /// Build a store from loaded records. Fails exactly when the records are
    /// not a valid store body (records not strictly in hash order — which
    /// also catches a duplicated hash — or a malformed task); a valid load
    /// keeps every record, in order.
    pub fn from_records(records: Vec<TaskValue>) -> (r: Result<TaskStore, TaskError>)
        ensures
            r is Ok <==> records_valid(records@),
            r matches Ok(s) ==> s.tasks@ == records@ && s.wf(),
    {
        let mut i: usize = 0;
        while i < records.len()
            invariant
                i <= records@.len(),
                forall|k: int| 0 <= k < i ==> (#[trigger] records@[k]).wf(),
                forall|k: int, j: int|
                    0 <= k < j < i ==> spec_lex_cmp(
                        (#[trigger] records@[k]).hash@,
                        (#[trigger] records@[j]).hash@,
                    ) is Less,
            decreases records@.len() - i,
        {
            if !crate::validate::validate_task(&records[i]) {
                return Err(TaskError::Common(String::from_str("malformed task record")));
            }
            let mut j: usize = 0;
            while j < i
                invariant
                    j <= i < records@.len(),
                    forall|k: int|
                        0 <= k < j ==> spec_lex_cmp(
                            (#[trigger] records@[k]).hash@,
                            records@[i as int].hash@,
                        ) is Less,
                decreases i - j,
            {
                let c = str_lex_cmp(records[j].hash.as_str(), records[i].hash.as_str());
                if !matches!(c, core::cmp::Ordering::Less) {
                    return Err(
                        TaskError::Common(String::from_str("task records out of hash order")),
                    );
                }
                j += 1;
            }
            i += 1;
        }
        proof {
            assert forall|k: int, j: int|
                0 <= k < j < records@.len() implies (#[trigger] records@[k]).hash@ != (
            #[trigger] records@[j]).hash@ by {
                lemma_lex_cmp_equal_iff(records@[k].hash@, records@[j].hash@);
            }
        }
        Ok(TaskStore { tasks: records })
    }
}

/// Law: every task of a well-formed store keeps the lifecycle invariants —
/// its current part index lies within its plan and the plan's recorded
/// length is its real length; a task is `Done` only at its last part with no
/// recorded error; and a task is in `Error` exactly when an error is
/// recorded. The store operations and the poller's transitions all require
/// and preserve `wf`, so these hold at every rest point.
pub proof fn lemma_store_task_invariants(s: TaskStore, i: int)
    requires
        s.wf(),
        0 <= i < s.tasks@.len(),
    ensures
        0 <= s.tasks@[i].state.current_part_num < s.tasks@[i].total_part_num,
        s.tasks@[i].total_part_num == s.tasks@[i].task_order@.len(),
        s.tasks@[i].state.status is Done ==> s.tasks@[i].state.current_part_num == s.tasks@[
            i].total_part_num - 1 && s.tasks@[i].error_info is None,
        s.tasks@[i].state.status is Error <==> s.tasks@[i].error_info is Some,
{
    assert(s.tasks@[i].wf());
}

/// Law: distinct parts of a stored task's plan share no file index.
pub proof fn lemma_store_task_parts_disjoint(s: TaskStore, i: int)
    requires
        s.wf(),
        0 <= i < s.tasks@.len(),
    ensures
        forall|p: int, q: int, k: int, l: int|
            0 <= p < q < s.tasks@[i].task_order@.len() && 0 <= k < s.tasks@[i].task_order@[p]@.len()
                && 0 <= l < s.tasks@[i].task_order@[q]@.len() ==> #[trigger] s.tasks@[
            i].task_order@[p]@[k] != #[trigger] s.tasks@[i].task_order@[q]@[l],
{
    assert(s.tasks@[i].wf());
    let t = s.tasks@[i];
    let parts = t.task_order@.map_values(|p: Vec<usize>| p@);
    crate::partition::lemma_flatten_no_dup_disjoint(parts);
    assert(forall|p: int|
        0 <= p < t.task_order@.len() ==> (#[trigger] t.task_order@[p])@ == parts[p]);
}

/// Law: saving a well-formed store and loading what was saved yields the
/// very same store body — every task, every field, in order. The `requires`
/// restate what `records` and `from_records` ensure of their results.
pub proof fn lemma_save_load_roundtrip(
    s: TaskStore,
    saved: Seq<TaskValue>,
    loaded: Result<TaskStore, TaskError>,
)
    requires
        s.wf(),
        saved == s.tasks@,
        loaded is Ok <==> records_valid(saved),
        loaded matches Ok(l) ==> l.tasks@ == saved,
    ensures
        loaded is Ok,
        loaded matches Ok(l) ==> l.tasks@ == s.tasks@,
{
}

} // verus!
