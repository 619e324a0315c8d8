//! The per-task state machine the poller drives. Each tick the poller
//! fetches the torrent list from qBittorrent and calls `update_task` to fold
//! the reports into the store; it then asks `process_task` what
//! side-effecting work each task needs, performs that work against the two
//! services, and records the outcome through the task's transitions.

use vstd::prelude::*;

use crate::qb::TorrentInfo;
use crate::store::TaskStore;
use crate::str_eq;
use crate::task::{RuntimeTaskError, RuntimeTaskErrorKind, State, Status, TaskValue};

verus! {

/// Classification of a qBittorrent state word.
#[derive(Debug, Clone, Copy, PartialEq, Eq, Structural)]
pub enum TorrentState {
    /// Downloading finished; the torrent is seeding.
    Seeding,
    /// qBittorrent reports the torrent faulted.
    Error,
    /// The torrent finished both downloading and seeding.
    FinishedSeeding,
    /// Still downloading.
    Downloading,
}

/// The state words qBittorrent uses while a finished torrent seeds.
pub open spec fn is_seeding_state(s: Seq<char>) -> bool {
    ||| s == "uploading"@
    ||| s == "stalledUP"@
    ||| s == "queuedUP"@
    ||| s == "checkingUP"@
    ||| s == "forcedUP"@
}

/// The state words that report a fault.
pub open spec fn is_error_state(s: Seq<char>) -> bool {
    s == "error"@ || s == "missingFiles"@
}

/// The state words of a torrent done with both downloading and seeding.
pub open spec fn is_finished_seeding_state(s: Seq<char>) -> bool {
    s == "stoppedUP"@ || s == "pausedUP"@
}

pub open spec fn spec_classify(s: Seq<char>) -> TorrentState {
    if is_seeding_state(s) {
        TorrentState::Seeding
    } else if is_error_state(s) {
        TorrentState::Error
    } else if is_finished_seeding_state(s) {
        TorrentState::FinishedSeeding
    } else {
        TorrentState::Downloading
    }
}

/// Classify a qBittorrent state word; anything unrecognized still counts as
/// downloading.
pub fn classify_torrent_state(state: &str) -> (r: TorrentState)
    ensures
        r == spec_classify(state@),
{
    if str_eq(state, "uploading") || str_eq(state, "stalledUP") || str_eq(state, "queuedUP")
        || str_eq(state, "checkingUP") || str_eq(state, "forcedUP") {
        TorrentState::Seeding
    } else if str_eq(state, "error") || str_eq(state, "missingFiles") {
        TorrentState::Error
    } else if str_eq(state, "stoppedUP") || str_eq(state, "pausedUP") {
        TorrentState::FinishedSeeding
    } else {
        TorrentState::Downloading
    }
}

/// The state words during which a just-added torrent has its metadata: the
/// ingestion's wait loop polls until one of these is reported.
pub fn is_metadata_fetched(state: &str) -> (r: bool)
    ensures
        r == (state@ == "stoppedUP"@ || state@ == "pausedUP"@ || state@ == "stoppedDL"@ || state@
            == "pausedDL"@),
{
    str_eq(state, "stoppedUP") || str_eq(state, "pausedUP") || str_eq(state, "stoppedDL") || str_eq(
        state,
        "pausedDL",
    )
}

/// The side-effecting work one task needs this tick.
#[derive(Debug, Clone, Copy, PartialEq, Eq, Structural)]
pub enum Dispatch {
    /// Poll the upload job's status (`OnTask`).
    RunCheck,
    /// Submit the upload job for the current part (`Downloaded`).
    RunInterval,
    /// Advance to the next part (`Finished`, once seeding has ended).
    AddNextPart,
    /// Nothing to do.
    Idle,
}

pub open spec fn spec_process_task(status: Status, is_seeding: bool) -> Dispatch {
    match status {
        Status::OnTask => Dispatch::RunCheck,
        Status::Downloaded => Dispatch::RunInterval,
        Status::Finished => if is_seeding {
            Dispatch::Idle
        } else {
            Dispatch::AddNextPart
        },
        _ => Dispatch::Idle,
    }
}

/// Decide the work a task needs from its status alone: uploads are polled in
/// `OnTask`, launched in `Downloaded`, and the task advances from `Finished`
/// only once seeding has ended. Every other status rests.
pub fn process_task(status: Status, is_seeding: bool) -> (r: Dispatch)
    ensures
        r == spec_process_task(status, is_seeding),
{
    match status {
        Status::OnTask => Dispatch::RunCheck,
        Status::Downloaded => Dispatch::RunInterval,
        Status::Finished => if is_seeding {
            Dispatch::Idle
        } else {
            Dispatch::AddNextPart
        },
        _ => Dispatch::Idle,
    }
}

/// The error kind a failed dispatch faults its task with: a failed upload
/// poll is `RuntimeUpload`, a failed upload submission `LaunchUpload`, a
/// failed advance `AddNextPart`. Idle work cannot fail.
pub fn dispatch_error_kind(d: Dispatch) -> (r: Option<RuntimeTaskErrorKind>)
    ensures
        d is RunCheck ==> r == Some(RuntimeTaskErrorKind::RuntimeUpload),
        d is RunInterval ==> r == Some(RuntimeTaskErrorKind::LaunchUpload),
        d is AddNextPart ==> r == Some(RuntimeTaskErrorKind::AddNextPart),
        d is Idle ==> r is None,
{
    match d {
        Dispatch::RunCheck => Some(RuntimeTaskErrorKind::RuntimeUpload),
        Dispatch::RunInterval => Some(RuntimeTaskErrorKind::LaunchUpload),
        Dispatch::AddNextPart => Some(RuntimeTaskErrorKind::AddNextPart),
        Dispatch::Idle => None,
    }
}

/// The first report carrying the given hash, if any: a tick reads each
/// task's state from the earliest matching line of the fetched list.
pub open spec fn spec_first_info(infos: Seq<TorrentInfo>, h: Seq<char>) -> Option<TorrentInfo>
    decreases infos.len(),
{
    if infos.len() == 0 {
        None
    } else if infos.first().hash@ == h {
        Some(infos.first())
    } else {
        spec_first_info(infos.drop_first(), h)
    }
}

/// What one tick does to one task, given the report that mentions it (or
/// none): a downloading task follows the classified torrent state; a task
/// whose torrent stopped seeding drops its seeding flag; a task missing from
/// the list faults with `TorrentNotFound` unless it is already done or
/// faulted.
pub open spec fn spec_update_one(t: TaskValue, info: Option<TorrentInfo>, now: String) -> TaskValue {
    match info {
        Some(inf) => {
            if t.state.status is Downloading {
                let t1 = TaskValue {
                    state: State { progress_permille: inf.progress_permille, ..t.state },
                    ..t
                };
                match spec_classify(inf.state@) {
                    TorrentState::Seeding => TaskValue {
                        state: State {
                            status: Status::Downloaded,
                            is_seeding: true,
                            ..t1.state
                        },
                        ..t1
                    },
                    TorrentState::FinishedSeeding => TaskValue {
                        state: State {
                            status: Status::Downloaded,
                            is_seeding: false,
                            ..t1.state
                        },
                        ..t1
                    },
                    TorrentState::Error => TaskValue {
                        error_info: Some(
                            RuntimeTaskError {
                                timestamp: now,
                                kind: RuntimeTaskErrorKind::Download,
                            },
                        ),
                        state: State { status: Status::Error, ..t1.state },
                        ..t1
                    },
                    TorrentState::Downloading => t1,
                }
            } else if t.state.is_seeding && is_finished_seeding_state(inf.state@) {
                TaskValue { state: State { is_seeding: false, ..t.state }, ..t }
            } else {
                t
            }
        },
        None => {
            if !(t.state.status is Done) && !(t.state.status is Error) {
                TaskValue {
                    error_info: Some(
                        RuntimeTaskError {
                            timestamp: now,
                            kind: RuntimeTaskErrorKind::TorrentNotFound,
                        },
                    ),
                    state: State { status: Status::Error, ..t.state },
                    ..t
                }
            } else {
                t
            }
        },
    }
}

/// Advance a task whose current part is fully uploaded and done seeding (or
/// whose advance is being retried after a fault). The last part completes
/// the whole task: it moves to `Done` and any recorded error is cleared.
/// Otherwise the task is untouched and the next part's index is returned;
/// the caller re-adds the cached torrent and then launches that part, or
/// records an `AddNextPart` error if that work fails.
pub fn add_next_part(task: &mut TaskValue) -> (r: Option<usize>)
    requires
        old(task).wf(),
        old(task).state.status is Finished || old(task).state.status is Error,
    ensures
        final(task).wf(),
        old(task).state.current_part_num == old(task).total_part_num - 1 ==> (r is None)
            && *final(task) == (TaskValue {
            error_info: None,
            state: (State { status: Status::Done, ..old(task).state }),
            ..*old(task)
        }),
        old(task).state.current_part_num < old(task).total_part_num - 1 ==> r == Some(
            (old(task).state.current_part_num + 1) as usize,
        ) && *final(task) == *old(task),
{
    if task.state.current_part_num == task.total_part_num - 1 {
        task.state.status = Status::Done;
        task.error_info = None;
        None
    } else {
        Some(task.state.current_part_num + 1)
    }
}

/// No report carries a hash that none of them has.
proof fn lemma_first_info_absent(infos: Seq<TorrentInfo>, h: Seq<char>)
    requires
        forall|k: int| 0 <= k < infos.len() ==> (#[trigger] infos[k]).hash@ != h,
    ensures
        spec_first_info(infos, h) is None,
    decreases infos.len(),
{
    if infos.len() > 0 {
        assert(infos.first() == infos[0]);
        assert(forall|k: int|
            0 <= k < infos.drop_first().len() ==> (#[trigger] infos.drop_first()[k]) == infos[k
                + 1]);
        lemma_first_info_absent(infos.drop_first(), h);
    }
}

/// Law: a tick whose fetched torrent list does not mention a downloading
/// task's hash faults that task with `TorrentNotFound` — and, by
/// `update_task`'s contract, the task itself stays in the store.
pub proof fn lemma_lost_torrent(t: TaskValue, infos: Seq<TorrentInfo>, now: String)
    requires
        t.wf(),
        t.state.status is Downloading,
        forall|k: int| 0 <= k < infos.len() ==> (#[trigger] infos[k]).hash@ != t.hash@,
    ensures
        spec_update_one(t, spec_first_info(infos, t.hash@), now).state.status is Error,
        spec_update_one(t, spec_first_info(infos, t.hash@), now).error_info matches Some(e)
            && e.kind is TorrentNotFound,
{
    lemma_first_info_absent(infos, t.hash@);
}

/// The view of an optional borrowed report.
pub open spec fn opt_info_view(info: Option<&TorrentInfo>) -> Option<TorrentInfo> {
    match info {
        Some(i) => Some(*i),
        None => None,
    }
}

/// Find the first report carrying the given hash.
fn find_info<'a>(infos: &'a Vec<TorrentInfo>, hash: &String) -> (r: Option<&'a TorrentInfo>)
    ensures
        opt_info_view(r) == spec_first_info(infos@, hash@),
        r matches Some(inf) ==> exists|k: int| 0 <= k < infos@.len() && infos@[k] == *inf,
{
    proof {
        assert(infos@.skip(0) =~= infos@);
    }
    let mut i: usize = 0;
    while i < infos.len()
        invariant
            i <= infos@.len(),
            spec_first_info(infos@, hash@) == spec_first_info(infos@.skip(i as int), hash@),
        decreases infos@.len() - i,
    {
        proof {
            assert(infos@.skip(i as int).first() == infos@[i as int]);
            assert(infos@.skip(i as int).drop_first() =~= infos@.skip(i as int + 1));
        }
        if str_eq(infos[i].hash.as_str(), hash.as_str()) {
            let r = &infos[i];
            proof {
                assert(infos@[i as int] == *r);
            }
            return Some(r);
        }
        i += 1;
    }
    proof {
        assert(infos@.skip(i as int) =~= Seq::<TorrentInfo>::empty());
    }
    None
}

/// Fold one report (or its absence) into one task.
fn apply_report(t: TaskValue, info: Option<&TorrentInfo>, now: &String) -> (r: TaskValue)
    requires
        t.wf(),
        info matches Some(i) ==> i.progress_permille <= 1000,
    ensures
        r == spec_update_one(t, opt_info_view(info), *now),
        r.wf(),
        r.hash == t.hash,
{
    match info {
        Some(inf) => {
            if t.state.status == Status::Downloading {
                let class = classify_torrent_state(inf.state.as_str());
                let state1 = State { progress_permille: inf.progress_permille, ..t.state };
                match class {
                    TorrentState::Seeding => TaskValue {
                        state: State { status: Status::Downloaded, is_seeding: true, ..state1 },
                        ..t
                    },
                    TorrentState::FinishedSeeding => TaskValue {
                        state: State {
                            status: Status::Downloaded,
                            is_seeding: false,
                            ..state1
                        },
                        ..t
                    },
                    TorrentState::Error => TaskValue {
                        error_info: Some(
                            RuntimeTaskError {
                                timestamp: now.clone(),
                                kind: RuntimeTaskErrorKind::Download,
                            },
                        ),
                        state: State { status: Status::Error, ..state1 },
                        ..t
                    },
                    TorrentState::Downloading => TaskValue { state: state1, ..t },
                }
            } else if t.state.is_seeding && (str_eq(inf.state.as_str(), "stoppedUP") || str_eq(
                inf.state.as_str(),
                "pausedUP",
            )) {
                TaskValue { state: State { is_seeding: false, ..t.state }, ..t }
            } else {
                t
            }
        },
        None => {
            if t.state.status != Status::Done && t.state.status != Status::Error {
                TaskValue {
                    error_info: Some(
                        RuntimeTaskError {
                            timestamp: now.clone(),
                            kind: RuntimeTaskErrorKind::TorrentNotFound,
                        },
                    ),
                    state: State { status: Status::Error, ..t.state },
                    ..t
                }
            } else {
                t
            }
        },
    }
}

/// One poller tick's reconciliation: fold the fetched torrent list into
/// every stored task. A task the list does not mention — its torrent was
/// deleted behind our back — faults with `TorrentNotFound` but stays in the
/// store; no task is added or removed, and no hash changes.
pub fn update_task(store: &mut TaskStore, infos: &Vec<TorrentInfo>, now: &String)
    requires
        old(store).wf(),
        forall|i: int| 0 <= i < infos@.len() ==> (#[trigger] infos@[i]).progress_permille <= 1000,
    ensures
        final(store).wf(),
        final(store).tasks@.len() == old(store).tasks@.len(),
        forall|i: int|
            0 <= i < old(store).tasks@.len() ==> final(store).tasks@[i] == spec_update_one(
                old(store).tasks@[i],
                spec_first_info(infos@, (#[trigger] old(store).tasks@[i]).hash@),
                *now,
            ),
{
    let n = store.tasks.len();
    let mut ti: usize = 0;
    while ti < n
        invariant
            ti <= n,
            n == old(store).tasks@.len(),
            store.tasks@.len() == n,
            forall|i: int| 0 <= i < infos@.len() ==> (#[trigger] infos@[i]).progress_permille
                <= 1000,
            forall|i: int|
                ti <= i < n ==> #[trigger] store.tasks@[i] == old(store).tasks@[i],
            forall|i: int|
                0 <= i < ti ==> #[trigger] store.tasks@[i] == spec_update_one(
                    old(store).tasks@[i],
                    spec_first_info(infos@, old(store).tasks@[i].hash@),
                    *now,
                ),
            forall|i: int|
                0 <= i < n ==> (#[trigger] store.tasks@[i]).hash == old(store).tasks@[i].hash,
            forall|i: int| 0 <= i < n ==> (#[trigger] store.tasks@[i]).wf(),
            old(store).wf(),
        decreases n - ti,
    {
        let ghost before = store.tasks@;
        let t = store.tasks.remove(ti);
        let info = find_info(infos, &t.hash);
        proof {
            match info {
                Some(inf) => {
                    let k = choose|k: int| 0 <= k < infos@.len() && infos@[k] == *inf;
                    assert(infos@[k].progress_permille <= 1000);
                },
                None => {},
            }
        }
        let t2 = apply_report(t, info, now);
        store.tasks.insert(ti, t2);
        proof {
            assert(store.tasks@ =~= before.update(ti as int, t2));
        }
        ti += 1;
    }
    proof {
        assert forall|i: int, j: int|
            0 <= i < j < store.tasks@.len() implies (#[trigger] store.tasks@[i]).hash@ != (
        #[trigger] store.tasks@[j]).hash@ by {
            assert(store.tasks@[i].hash == old(store).tasks@[i].hash);
            assert(store.tasks@[j].hash == old(store).tasks@[j].hash);
        }
    }
}

} // verus!
