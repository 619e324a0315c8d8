//! The task model: one record per torrent, identified by its info-hash,
//! carrying the immutable part plan and the mutable per-part state that the
//! poller and the recovery operations drive through the lifecycle.

use vstd::prelude::*;

use crate::partition::{
    fits, indices_in_range, lengths_nonneg, spec_partition, working_indices, get_task_order,
    selected_view, lemma_partition_covers, lemma_partition_parts_bounded,
    lemma_partition_elements_in_range,
};

verus! {

/// The parts of a task's plan as mathematical sequences.
pub open spec fn parts_view(task_order: Seq<Vec<usize>>) -> Seq<Seq<usize>> {
    task_order.map_values(|p: Vec<usize>| p@)
}

/// Lifecycle status of the part currently in progress.
#[derive(Debug, Clone, Copy, PartialEq, Eq, Structural)]
pub enum Status {
    /// Upload job submitted; awaiting completion.
    OnTask,
    /// Upload complete for this part; waiting for seeding to end.
    Finished,
    /// Download complete; upload not yet launched.
    Downloaded,
    /// qBittorrent is downloading the selected files of the current part.
    Downloading,
    /// The entire task finished, including all parts.
    Done,
    /// Faulted; `error_info` names the kind.
    Error,
    /// User has stopped the current part.
    Paused,
}

/// The closed set of runtime failures that can be attached to a task.
#[derive(Debug, Clone, Copy, PartialEq, Eq, Structural)]
pub enum RuntimeTaskErrorKind {
    /// Upload job finished with failure, or its status check failed.
    RuntimeUpload,
    /// Submitting the upload job failed.
    LaunchUpload,
    /// Torrent absent from qBittorrent's list though the task still exists.
    TorrentNotFound,
    /// qBittorrent reports the torrent in an error state.
    Download,
    /// Could not re-add the cached torrent for the next part.
    AddNextPart,
}

impl RuntimeTaskErrorKind {
    /// Which kinds `skip` may clear.
    pub open spec fn spec_skipable(self) -> bool {
        self is RuntimeUpload || self is TorrentNotFound
    }

    /// Whether this error may be cleared by `skip`; the task then continues
    /// without retrying the failed step.
    pub fn skipable(&self) -> (r: bool)
        ensures
            r == self.spec_skipable(),
    {
        match self {
            RuntimeTaskErrorKind::RuntimeUpload | RuntimeTaskErrorKind::TorrentNotFound => true,
            _ => false,
        }
    }
}

/// A runtime failure recorded on a task: when it happened and what kind it was.
#[derive(Debug, Clone)]
pub struct RuntimeTaskError {
    pub timestamp: String,
    pub kind: RuntimeTaskErrorKind,
}

impl RuntimeTaskError {
    /// Build a record of a failure of the given kind stamped with the given
    /// clock reading (an RFC 3339 string supplied by the caller).
    pub fn from_kind(kind: RuntimeTaskErrorKind, timestamp: String) -> (r: RuntimeTaskError)
        ensures
            r.kind == kind,
            r.timestamp == timestamp,
    {
        RuntimeTaskError { timestamp, kind }
    }
}

/// User-visible task operation errors, returned synchronously and never
/// persisted.
#[derive(Debug)]
pub enum TaskError {
    /// An unexpected failure, with a short message.
    Common(String),
    /// The brought bytes are not a torrent.
    Bencode(crate::bencode::BencodeError),
    /// The qBittorrent adapter failed.
    Qb(crate::qb::QbError),
    /// An upload job failed, with whatever error text Rclone gave.
    Upload(Option<String>),
    /// A selected file is larger than the per-part byte cap.
    OverSize,
    /// `skip` was asked for an error kind that cannot be skipped.
    NotSkippable,
    /// An ingestion was cancelled by the user.
    Abort,
}

/// The upload adapter a task uses, holding its volatile job handle.
#[derive(Debug, Clone, PartialEq, Eq, Structural)]
pub enum Uploader {
    /// The contained value is the Rclone job id of the running copy, if any.
    Rclone(Option<i32>),
}

impl Uploader {
    /// The job handle currently stored, if any.
    pub fn job_id(&self) -> (r: Option<i32>)
        ensures
            r == self.spec_job_id(),
    {
        match self {
            Uploader::Rclone(id) => *id,
        }
    }

    pub open spec fn spec_job_id(self) -> Option<i32> {
        match self {
            Uploader::Rclone(id) => id,
        }
    }
}

/// Mutable per-part state of a task.
#[derive(Debug, Clone, PartialEq, Eq, Structural)]
pub struct State {
    /// Index into `task_order` of the part currently in progress.
    pub current_part_num: usize,
    pub status: Status,
    /// True while qBittorrent reports the torrent in a seeding state.
    pub is_seeding: bool,
    /// Download progress of the current part, in thousandths (0 ..= 1000).
    pub progress_permille: u32,
}

/// One task record, keyed by `hash` in the store.
#[derive(Debug, Clone)]
pub struct TaskValue {
    /// 40-hex-char lowercase SHA-1 of the bencoded info dict.
    pub hash: String,
    /// Human-readable torrent name.
    pub name: String,
    /// Top-level directory name within the save path.
    pub root_dir: String,
    /// Absolute download path in qBittorrent's filesystem.
    pub save_path: String,
    /// Remote destination for uploads.
    pub upload_path: String,
    pub uploader: Uploader,
    /// Length of `task_order`.
    pub total_part_num: usize,
    /// Ordered parts; each part is an ordered list of file indices.
    pub task_order: Vec<Vec<usize>>,
    /// Total file count of the torrent.
    pub file_num: usize,
    /// Path of the cached `.torrent` file.
    pub torrent_path: String,
    /// Byte cap per part used when partitioning.
    pub max_size: i64,
    pub seeding_time_limit: i32,
    /// Share-ratio limit forwarded to qBittorrent, in thousandths.
    pub ratio_limit_milli: i64,
    pub error_info: Option<RuntimeTaskError>,
    pub state: State,
}

impl TaskValue {
    /// The immutable part plan is structurally sound: the recorded count
    /// matches, no part is empty, no file index repeats across or within
    /// parts, and every index is a real file of the torrent.
    pub open spec fn plan_wf(self) -> bool {
        &&& self.total_part_num == self.task_order@.len()
        &&& self.total_part_num > 0
        &&& forall|i: int| 0 <= i < self.task_order@.len() ==> #[trigger] self.task_order@[i]@.len() > 0
        &&& Seq::flatten(self.task_order@.map_values(|p: Vec<usize>| p@)).no_duplicates()
        &&& forall|i: int, j: int|
            0 <= i < self.task_order@.len() && 0 <= j < self.task_order@[i]@.len()
                ==> #[trigger] self.task_order@[i]@[j] < self.file_num
    }

    /// The status, the recorded error and the upload handle agree: a task is
    /// in `Error` exactly when an error is recorded, `Done` only at the last
    /// part, and `OnTask` only with a live job handle.
    pub open spec fn status_wf(self) -> bool {
        &&& (self.state.status is Error <==> self.error_info is Some)
        &&& (self.state.status is Done ==> self.state.current_part_num == self.total_part_num - 1)
        &&& (self.state.status is OnTask ==> self.uploader.spec_job_id() is Some)
    }

    /// Well-formedness of a task record.
    pub open spec fn wf(self) -> bool {
        &&& self.plan_wf()
        &&& self.state.current_part_num < self.total_part_num
        &&& self.state.progress_permille <= 1000
        &&& self.status_wf()
    }

    pub fn state(&self) -> (r: &State)
        ensures
            r == self.state,
    {
        &self.state
    }

    pub fn error_info(&self) -> (r: &Option<RuntimeTaskError>)
        ensures
            r == self.error_info,
    {
        &self.error_info
    }

    pub fn clean_error_info(&mut self)
        ensures
            *final(self) == (TaskValue { error_info: None, ..*old(self) }),
    {
        self.error_info = None;
    }

    pub fn set_error_info(&mut self, error: RuntimeTaskError)
        ensures
            *final(self) == (TaskValue { error_info: Some(error), ..*old(self) }),
    {
        self.error_info = Some(error);
    }

    /// Fault the task: record a runtime error of the given kind, stamped with
    /// the caller's clock reading, and move to `Error`.
    pub fn record_error(&mut self, kind: RuntimeTaskErrorKind, timestamp: String)
        requires
            old(self).wf(),
        ensures
            final(self).wf(),
            *final(self) == (TaskValue {
                error_info: Some(RuntimeTaskError { timestamp, kind }),
                state: (State { status: Status::Error, ..old(self).state }),
                ..*old(self)
            }),
    {
        self.state.status = Status::Error;
        self.error_info = Some(RuntimeTaskError { timestamp, kind });
    }

    /// The upload job for the current part was submitted: remember its handle
    /// and move to `OnTask`. From `Error`, this is the retry of a failed
    /// launch, so the recorded error is cleared.
    pub fn upload_started(&mut self, job_id: i32)
        requires
            old(self).wf(),
            old(self).state.status is Downloaded || old(self).state.status is Error,
        ensures
            final(self).wf(),
            *final(self) == (TaskValue {
                uploader: Uploader::Rclone(Some(job_id)),
                error_info: None,
                state: (State { status: Status::OnTask, ..old(self).state }),
                ..*old(self)
            }),
    {
        self.uploader = Uploader::Rclone(Some(job_id));
        self.error_info = None;
        self.state.status = Status::OnTask;
    }

    /// Fold in one poll of the upload job: a job that finished without
    /// success faults the task with `RuntimeUpload`; a successful job
    /// completes the part (`Finished`); a still-running job changes nothing.
    pub fn run_check(&mut self, finished: bool, success: bool, timestamp: String)
        requires
            old(self).wf(),
            old(self).state.status is OnTask,
        ensures
            final(self).wf(),
            *final(self) == (if finished && !success {
                TaskValue {
                    error_info: Some(RuntimeTaskError {
                        timestamp,
                        kind: RuntimeTaskErrorKind::RuntimeUpload,
                    }),
                    state: (State { status: Status::Error, ..old(self).state }),
                    ..*old(self)
                }
            } else if success {
                TaskValue {
                    state: (State { status: Status::Finished, ..old(self).state }),
                    ..*old(self)
                }
            } else {
                *old(self)
            }),
    {
        if finished && !success {
            self.record_error(RuntimeTaskErrorKind::RuntimeUpload, timestamp);
        } else if success {
            self.state.status = Status::Finished;
        }
    }
}

/// Where the cached copy of a torrent lives: `<hash>.torrent` in the cache
/// directory.
pub fn get_torrent_path(torrent_dir: &str, hash: &str) -> (r: String)
    ensures
        r@ == torrent_dir@ + "/"@ + hash@ + ".torrent"@,
{
    String::from_str(torrent_dir).concat("/").concat(hash).concat(".torrent")
}

/// The hash list as qBittorrent's delete call takes it: joined with `|`.
pub open spec fn joined_with_pipe(hashes: Seq<Seq<char>>) -> Seq<char>
    decreases hashes.len(),
{
    if hashes.len() == 0 {
        Seq::<char>::empty()
    } else if hashes.len() == 1 {
        hashes.first()
    } else {
        joined_with_pipe(hashes.drop_last()) + seq!['|'] + hashes.last()
    }
}

/// The one delete argument that clears all waited torrents: the hashes
/// joined with `|`, or nothing when there is nothing to clear.
pub fn waited_delete_hashes(hash_list: &Vec<String>) -> (r: Option<String>)
    ensures
        r is Some <==> hash_list@.len() > 0,
        r matches Some(s) ==> s@ == joined_with_pipe(hash_list@.map_values(|h: String| h@)),
{
    if hash_list.len() == 0 {
        return None;
    }
    let ghost views = hash_list@.map_values(|h: String| h@);
    let mut joined = String::new();
    let mut i: usize = 0;
    proof {
        reveal_strlit("|");
        assert(joined@ =~= joined_with_pipe(views.take(0)));
    }
    while i < hash_list.len()
        invariant
            i <= hash_list@.len(),
            views == hash_list@.map_values(|h: String| h@),
            joined@ == joined_with_pipe(views.take(i as int)),
        decreases hash_list@.len() - i,
    {
        proof {
            reveal_strlit("|");
            assert(views.take(i as int + 1).drop_last() =~= views.take(i as int));
            assert(views.take(i as int + 1).last() == views[i as int]);
        }
        if i > 0 {
            joined.append("|");
        }
        joined.append(hash_list[i].as_str());
        proof {
            if i == 0 {
                assert(views.take(1).len() == 1);
                assert(joined@ =~= joined_with_pipe(views.take(1)));
            } else {
                assert(joined@ =~= joined_with_pipe(views.take(i as int + 1)));
            }
        }
        i += 1;
    }
    proof {
        assert(views.take(i as int) =~= views);
    }
    Some(joined)
}

/// What starting does to a task: only the status moves, to `Downloading`.
pub open spec fn spec_start(t: TaskValue) -> TaskValue {
    TaskValue { state: State { status: Status::Downloading, ..t.state }, ..t }
}

/// What stopping does to a task: only the status moves, to `Paused`.
pub open spec fn spec_stop(t: TaskValue) -> TaskValue {
    TaskValue { state: State { status: Status::Paused, ..t.state }, ..t }
}

/// Start the task's current part: qBittorrent has been told to start the
/// torrent, so the task is downloading again.
pub fn start(task: &mut TaskValue)
    requires
        old(task).wf(),
        old(task).state.status is Paused,
    ensures
        final(task).wf(),
        *final(task) == spec_start(*old(task)),
{
    task.state.status = Status::Downloading;
}

/// Stop the task: qBittorrent has been told to stop the torrent, so the task
/// rests in `Paused`. Stopping an already paused task changes nothing more.
pub fn stop(task: &mut TaskValue)
    requires
        old(task).wf(),
        !(old(task).state.status is Error),
    ensures
        final(task).wf(),
        *final(task) == spec_stop(*old(task)),
{
    task.state.status = Status::Paused;
}

/// Build the task record for a freshly ingested torrent: partition its file
/// list under the byte cap and lay the plan down immutably. The new task is
/// paused at part zero with no progress and no error; the caller stores it
/// and launches part zero. Fails with `OverSize` exactly when a worked file
/// is larger than the cap.
pub fn add(
    hash: String,
    name: String,
    root_dir: String,
    save_path: String,
    upload_path: String,
    uploader: Uploader,
    torrent_path: String,
    torrent_lengths_list: &[i64],
    selected_file_index: Option<&[usize]>,
    max_size: i64,
    ratio_limit_milli: i64,
    seeding_time_limit: i32,
) -> (r: Result<TaskValue, TaskError>)
    requires
        indices_in_range(
            working_indices(torrent_lengths_list@.len(), selected_view(selected_file_index)),
            torrent_lengths_list@.len(),
        ),
        lengths_nonneg(
            torrent_lengths_list@,
            working_indices(torrent_lengths_list@.len(), selected_view(selected_file_index)),
        ),
        working_indices(
            torrent_lengths_list@.len(),
            selected_view(selected_file_index),
        ).no_duplicates(),
        working_indices(torrent_lengths_list@.len(), selected_view(selected_file_index)).len() > 0,
    ensures
        r is Ok <==> fits(
            torrent_lengths_list@,
            max_size,
            working_indices(torrent_lengths_list@.len(), selected_view(selected_file_index)),
        ),
        r matches Err(e) ==> e is OverSize,
        r matches Ok(t) ==> t.wf() && t.hash == hash && t.name == name && t.root_dir == root_dir
            && t.save_path == save_path && t.upload_path == upload_path && t.uploader == uploader
            && t.torrent_path == torrent_path && t.max_size == max_size && t.ratio_limit_milli
            == ratio_limit_milli && t.seeding_time_limit == seeding_time_limit && t.file_num
            == torrent_lengths_list@.len() && t.error_info is None && t.state == (State {
            current_part_num: 0,
            status: Status::Paused,
            is_seeding: false,
            progress_permille: 0,
        }) && parts_view(t.task_order@) == spec_partition(
            torrent_lengths_list@,
            max_size,
            working_indices(torrent_lengths_list@.len(), selected_view(selected_file_index)),
        ) && t.total_part_num == t.task_order@.len(),
{
    let ghost work = working_indices(
        torrent_lengths_list@.len(),
        selected_view(selected_file_index),
    );
    let task_order = match get_task_order(torrent_lengths_list, max_size, selected_file_index) {
        Ok(order) => order,
        Err(e) => {
            return Err(e);
        },
    };
    let ghost sp = spec_partition(torrent_lengths_list@, max_size, work);
    let file_num = torrent_lengths_list.len();
    let total_part_num = task_order.len();
    proof {
        lemma_partition_covers(torrent_lengths_list@, max_size, work);
        lemma_partition_parts_bounded(torrent_lengths_list@, max_size, work);
        lemma_partition_elements_in_range(
            torrent_lengths_list@,
            max_size,
            work,
            torrent_lengths_list@.len(),
        );
        assert forall|i: int| 0 <= i < task_order@.len() implies #[trigger] task_order@[i]@
            == sp[i] by {
            assert(task_order.deep_view()[i] == sp[i]);
            assert(task_order.deep_view()[i] =~= task_order@[i]@);
        }
        assert(parts_view(task_order@) =~= sp);
        assert(sp.len() > 0) by {
            if sp.len() == 0 {
                assert(sp.flatten() =~= Seq::<usize>::empty());
                assert(work.len() == 0);
            }
        }
        assert(Seq::flatten(task_order@.map_values(|p: Vec<usize>| p@)) =~= sp.flatten()) by {
            assert(task_order@.map_values(|p: Vec<usize>| p@) =~= sp);
        }
    }
    let task = TaskValue {
        hash,
        name,
        root_dir,
        save_path,
        upload_path,
        uploader,
        total_part_num,
        task_order,
        file_num,
        torrent_path,
        max_size,
        seeding_time_limit,
        ratio_limit_milli,
        error_info: None,
        state: State {
            current_part_num: 0,
            status: Status::Paused,
            is_seeding: false,
            progress_permille: 0,
        },
    };
    proof {
        assert(task.plan_wf()) by {
            assert(forall|i: int|
                0 <= i < task.task_order@.len() ==> (#[trigger] task.task_order@[i])@ == sp[i]);
        }
    }
    Ok(task)
}

/// Law: stopping a downloading task and then starting it again returns it to
/// exactly the state it had — same part, same progress, downloading.
pub proof fn lemma_stop_start_roundtrip(t: TaskValue)
    requires
        t.wf(),
        t.state.status is Downloading,
    ensures
        spec_start(spec_stop(t)) == t,
{
    assert(spec_start(spec_stop(t)).state == t.state);
    assert(spec_start(spec_stop(t)) == t);
}

/// Launch the part with the given index: the part's files have been selected
/// in qBittorrent and the torrent started, so the task records the new
/// current part and is downloading. Any recorded error is cleared — the task
/// is running again.
pub fn launch(index: usize, task: &mut TaskValue)
    requires
        old(task).wf(),
        index < old(task).total_part_num,
    ensures
        final(task).wf(),
        *final(task) == (TaskValue {
            error_info: None,
            state: (State {
                current_part_num: index,
                status: Status::Downloading,
                ..old(task).state
            }),
            ..*old(task)
        }),
{
    task.error_info = None;
    task.state.current_part_num = index;
    task.state.status = Status::Downloading;
}

} // verus!
