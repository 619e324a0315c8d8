//! The Rclone upload adapter's decisions. Submitting a copy job and polling
//! it are HTTP calls made outside; what their answers mean for a task is
//! decided here.

use vstd::prelude::*;

use crate::task::{TaskError, TaskValue};

verus! {

/// The source and destination of a task's copy job: the torrent's root
/// directory under the download path, and the same directory under the
/// remote destination.
pub fn upload_paths(task: &TaskValue) -> (r: (String, String))
    ensures
        r.0@ == task.save_path@ + "/"@ + task.root_dir@,
        r.1@ == task.upload_path@ + "/"@ + task.root_dir@,
{
    let src = task.save_path.clone().concat("/").concat(task.root_dir.as_str());
    let dst = task.upload_path.clone().concat("/").concat(task.root_dir.as_str());
    (src, dst)
}

/// The fields of an Rclone `job/status` answer that the core reads.
#[derive(Debug, Clone)]
pub struct JobStatus {
    pub finished: bool,
    pub success: bool,
    pub error: Option<String>,
}

/// The Rclone sync-copy adapter.
#[derive(Debug, Clone, Copy, PartialEq, Eq, Structural)]
pub struct Rclone;

impl Rclone {
    /// Judge one poll of a copy job: a job that finished without success is
    /// an upload failure carrying Rclone's error text; otherwise the answer
    /// is whether the copy has succeeded yet.
    pub fn check_outcome(status: JobStatus) -> (r: Result<bool, TaskError>)
        ensures
            status.finished && !status.success ==> (r matches Err(e) && e == TaskError::Upload(
                status.error,
            )),
            !(status.finished && !status.success) ==> r == Ok::<bool, TaskError>(status.success),
    {
        if status.finished && !status.success {
            Err(TaskError::Upload(status.error))
        } else {
            Ok(status.success)
        }
    }
}

} // verus!
