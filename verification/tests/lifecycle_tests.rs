use qb_downloader::engine::{
    add_next_part, classify_torrent_state, process_task, update_task, Dispatch, TorrentState,
};
use qb_downloader::qb::TorrentInfo;
use qb_downloader::recovery::{resume, resume_from_error, skip_task, start_task, RecoveryAction, StartDecision};
use qb_downloader::store::TaskStore;
use qb_downloader::task::{
    add, launch, start, stop, RuntimeTaskError, RuntimeTaskErrorKind, Status, TaskError, TaskValue,
    Uploader,
};

fn sample_task(hash: &str) -> TaskValue {
    let lengths = [3i64, 3, 3, 3];
    add(
        hash.to_string(),
        "sample".to_string(),
        "root".to_string(),
        "/downloads".to_string(),
        "remote:backup".to_string(),
        Uploader::Rclone(None),
        "/cache/sample.torrent".to_string(),
        &lengths,
        None,
        6,
        -2000,
        -2,
    )
    .unwrap()
}

#[test]
fn new_task_is_paused_at_part_zero() {
    let t = sample_task("aa11");
    assert_eq!(t.state.status, Status::Paused);
    assert_eq!(t.state.current_part_num, 0);
    assert_eq!(t.total_part_num, 2);
    assert_eq!(t.task_order, vec![vec![0usize, 1], vec![2, 3]]);
    assert_eq!(t.file_num, 4);
    assert!(t.error_info.is_none());
}

#[test]
fn oversize_task_is_not_created() {
    let lengths = [3i64, 10, 3];
    let r = add(
        "bb22".to_string(),
        "big".to_string(),
        "root".to_string(),
        "/d".to_string(),
        "r:b".to_string(),
        Uploader::Rclone(None),
        "/c/big.torrent".to_string(),
        &lengths,
        None,
        5,
        -2000,
        -2,
    );
    assert!(matches!(r, Err(TaskError::OverSize)));
}

#[test]
fn stop_then_start_returns_to_downloading() {
    let mut t = sample_task("cc33");
    start(&mut t);
    assert_eq!(t.state.status, Status::Downloading);
    stop(&mut t);
    assert_eq!(t.state.status, Status::Paused);
    start(&mut t);
    assert_eq!(t.state.status, Status::Downloading);
    assert_eq!(t.state.current_part_num, 0);
}

#[test]
fn classify_covers_all_reported_states() {
    assert_eq!(classify_torrent_state("uploading"), TorrentState::Seeding);
    assert_eq!(classify_torrent_state("stalledUP"), TorrentState::Seeding);
    assert_eq!(classify_torrent_state("queuedUP"), TorrentState::Seeding);
    assert_eq!(classify_torrent_state("checkingUP"), TorrentState::Seeding);
    assert_eq!(classify_torrent_state("forcedUP"), TorrentState::Seeding);
    assert_eq!(classify_torrent_state("error"), TorrentState::Error);
    assert_eq!(classify_torrent_state("missingFiles"), TorrentState::Error);
    assert_eq!(classify_torrent_state("stoppedUP"), TorrentState::FinishedSeeding);
    assert_eq!(classify_torrent_state("pausedUP"), TorrentState::FinishedSeeding);
    assert_eq!(classify_torrent_state("downloading"), TorrentState::Downloading);
    assert_eq!(classify_torrent_state("metaDL"), TorrentState::Downloading);
}

#[test]
fn dispatch_follows_status() {
    assert_eq!(process_task(Status::OnTask, false), Dispatch::RunCheck);
    assert_eq!(process_task(Status::Downloaded, true), Dispatch::RunInterval);
    assert_eq!(process_task(Status::Finished, true), Dispatch::Idle);
    assert_eq!(process_task(Status::Finished, false), Dispatch::AddNextPart);
    assert_eq!(process_task(Status::Downloading, false), Dispatch::Idle);
    assert_eq!(process_task(Status::Paused, false), Dispatch::Idle);
    assert_eq!(process_task(Status::Done, false), Dispatch::Idle);
    assert_eq!(process_task(Status::Error, false), Dispatch::Idle);
}

#[test]
fn poller_faults_lost_torrent() {
    let mut store = TaskStore::new();
    let mut t = sample_task("dd44");
    start(&mut t);
    store.insert(t);
    let infos: Vec<TorrentInfo> = vec![TorrentInfo {
        hash: "other".to_string(),
        state: "uploading".to_string(),
        progress_permille: 500,
    }];
    let now = "2024-01-01T00:00:00Z".to_string();
    update_task(&mut store, &infos, &now);
    let t = store.get("dd44").unwrap();
    assert_eq!(t.state.status, Status::Error);
    let err = t.error_info.as_ref().unwrap();
    assert!(matches!(err.kind, RuntimeTaskErrorKind::TorrentNotFound));
    assert_eq!(err.timestamp, now);
    assert_eq!(store.len(), 1);
}

#[test]
fn poller_marks_seeding_torrent_downloaded() {
    let mut store = TaskStore::new();
    let mut t = sample_task("ee55");
    start(&mut t);
    store.insert(t);
    let infos = vec![TorrentInfo {
        hash: "ee55".to_string(),
        state: "stalledUP".to_string(),
        progress_permille: 1000,
    }];
    let now = "2024-01-01T00:00:00Z".to_string();
    update_task(&mut store, &infos, &now);
    let t = store.get("ee55").unwrap();
    assert_eq!(t.state.status, Status::Downloaded);
    assert!(t.state.is_seeding);
    assert_eq!(t.state.progress_permille, 1000);
}

#[test]
fn poller_faults_download_error() {
    let mut store = TaskStore::new();
    let mut t = sample_task("ff66");
    start(&mut t);
    store.insert(t);
    let infos = vec![TorrentInfo {
        hash: "ff66".to_string(),
        state: "missingFiles".to_string(),
        progress_permille: 300,
    }];
    let now = "2024-02-02T00:00:00Z".to_string();
    update_task(&mut store, &infos, &now);
    let t = store.get("ff66").unwrap();
    assert_eq!(t.state.status, Status::Error);
    assert!(matches!(
        t.error_info.as_ref().unwrap().kind,
        RuntimeTaskErrorKind::Download
    ));
}

#[test]
fn upload_lifecycle_reaches_finished() {
    let mut t = sample_task("1177");
    start(&mut t);
    // the poller saw the torrent seeding: the part is downloaded
    t = {
        let mut store = TaskStore::new();
        store.insert(t);
        let infos = vec![TorrentInfo {
            hash: "1177".to_string(),
            state: "uploading".to_string(),
            progress_permille: 1000,
        }];
        let now = "2024-03-03T00:00:00Z".to_string();
        update_task(&mut store, &infos, &now);
        store.remove("1177").unwrap()
    };
    assert_eq!(t.state.status, Status::Downloaded);
    t.upload_started(42);
    assert_eq!(t.state.status, Status::OnTask);
    assert_eq!(t.uploader, Uploader::Rclone(Some(42)));
    // still running: nothing changes
    t.run_check(false, false, "now".to_string());
    assert_eq!(t.state.status, Status::OnTask);
    // finished successfully
    t.run_check(true, true, "now".to_string());
    assert_eq!(t.state.status, Status::Finished);
    assert!(t.error_info.is_none());
}

#[test]
fn failed_upload_job_faults_task() {
    let mut t = sample_task("2288");
    start(&mut t);
    let mut store = TaskStore::new();
    store.insert(t);
    let infos = vec![TorrentInfo {
        hash: "2288".to_string(),
        state: "stoppedUP".to_string(),
        progress_permille: 1000,
    }];
    let now = "2024-04-04T00:00:00Z".to_string();
    update_task(&mut store, &infos, &now);
    let mut t = store.remove("2288").unwrap();
    assert_eq!(t.state.status, Status::Downloaded);
    assert!(!t.state.is_seeding);
    t.upload_started(7);
    t.run_check(true, false, "2024-04-04T00:01:00Z".to_string());
    assert_eq!(t.state.status, Status::Error);
    let err = t.error_info.as_ref().unwrap();
    assert!(matches!(err.kind, RuntimeTaskErrorKind::RuntimeUpload));
    assert_eq!(err.timestamp, "2024-04-04T00:01:00Z");
}

#[test]
fn advance_moves_to_next_part() {
    let mut t = sample_task("3399");
    t.state.status = Status::Finished;
    let next = add_next_part(&mut t);
    assert_eq!(next, Some(1));
    assert_eq!(t.state.status, Status::Finished);
    assert_eq!(t.state.current_part_num, 0);
    launch(1, &mut t);
    assert_eq!(t.state.status, Status::Downloading);
    assert_eq!(t.state.current_part_num, 1);
}

#[test]
fn advance_on_last_part_completes_task() {
    let mut t = sample_task("44aa");
    launch(1, &mut t);
    t.state.status = Status::Finished;
    let next = add_next_part(&mut t);
    assert_eq!(next, None);
    assert_eq!(t.state.status, Status::Done);
    assert!(t.error_info.is_none());
    assert_eq!(t.state.current_part_num, 1);
}

#[test]
fn skip_on_non_skippable_kind_is_rejected() {
    let mut t = sample_task("55bb");
    t.record_error(
        RuntimeTaskErrorKind::Download,
        "2024-05-05T00:00:00Z".to_string(),
    );
    let before_status = t.state.status;
    let before_part = t.state.current_part_num;
    let r = skip_task(&mut t, RuntimeTaskErrorKind::Download);
    assert!(matches!(r, Err(TaskError::NotSkippable)));
    assert_eq!(t.state.status, before_status);
    assert_eq!(t.state.current_part_num, before_part);
    assert!(t.error_info.is_some());
}

#[test]
fn skip_after_upload_failure_marks_finished() {
    let mut t = sample_task("66cc");
    t.record_error(
        RuntimeTaskErrorKind::RuntimeUpload,
        "2024-06-06T00:00:00Z".to_string(),
    );
    let r = resume(&mut t, RuntimeTaskErrorKind::RuntimeUpload, true).unwrap();
    assert_eq!(r, None);
    assert_eq!(t.state.status, Status::Finished);
    assert!(t.error_info.is_none());
}

#[test]
fn resume_after_upload_failure_relaunches_upload() {
    let mut t = sample_task("77dd");
    t.record_error(
        RuntimeTaskErrorKind::RuntimeUpload,
        "2024-07-07T00:00:00Z".to_string(),
    );
    let r = resume(&mut t, RuntimeTaskErrorKind::RuntimeUpload, false).unwrap();
    assert_eq!(r, Some(RecoveryAction::RelaunchUpload));
    assert_eq!(t.state.status, Status::Error);
    // the retried upload reports back
    t.upload_started(9);
    assert_eq!(t.state.status, Status::OnTask);
    assert!(t.error_info.is_none());
    t.run_check(true, true, "later".to_string());
    assert_eq!(t.state.status, Status::Finished);
}

#[test]
fn resume_actions_per_kind() {
    assert_eq!(
        resume_from_error(RuntimeTaskErrorKind::LaunchUpload),
        RecoveryAction::RelaunchUpload
    );
    assert_eq!(
        resume_from_error(RuntimeTaskErrorKind::RuntimeUpload),
        RecoveryAction::RelaunchUpload
    );
    assert_eq!(
        resume_from_error(RuntimeTaskErrorKind::AddNextPart),
        RecoveryAction::AddNextPart
    );
    assert_eq!(
        resume_from_error(RuntimeTaskErrorKind::Download),
        RecoveryAction::DeleteThenReAddCurrent
    );
    assert_eq!(
        resume_from_error(RuntimeTaskErrorKind::TorrentNotFound),
        RecoveryAction::ReAddCurrent
    );
}

#[test]
fn skippable_kinds() {
    assert!(RuntimeTaskErrorKind::RuntimeUpload.skipable());
    assert!(RuntimeTaskErrorKind::TorrentNotFound.skipable());
    assert!(!RuntimeTaskErrorKind::LaunchUpload.skipable());
    assert!(!RuntimeTaskErrorKind::Download.skipable());
    assert!(!RuntimeTaskErrorKind::AddNextPart.skipable());
}

#[test]
fn upload_paths_join_root_dir() {
    let t = sample_task("ab01");
    let (src, dst) = qb_downloader::upload::upload_paths(&t);
    assert_eq!(src, "/downloads/root");
    assert_eq!(dst, "remote:backup/root");
}

#[test]
fn deleted_task_is_gone() {
    let mut store = TaskStore::new();
    store.insert(sample_task("88ee"));
    store.insert(sample_task("99ff"));
    assert_eq!(store.len(), 2);
    let removed = store.remove("88ee");
    assert!(removed.is_some());
    assert!(store.get("88ee").is_none());
    assert!(store.get("99ff").is_some());
    assert_eq!(store.len(), 1);
}

#[test]
fn insert_replaces_same_hash() {
    let mut store = TaskStore::new();
    store.insert(sample_task("aabb"));
    let mut t2 = sample_task("aabb");
    start(&mut t2);
    store.insert(t2);
    assert_eq!(store.len(), 1);
    assert_eq!(store.get("aabb").unwrap().state.status, Status::Downloading);
}

#[test]
fn store_iterates_in_hash_order() {
    let mut store = TaskStore::new();
    store.insert(sample_task("cc"));
    store.insert(sample_task("aa"));
    store.insert(sample_task("bb"));
    let hashes: Vec<&str> = store.records().iter().map(|t| t.hash.as_str()).collect();
    assert_eq!(hashes, vec!["aa", "bb", "cc"]);
    store.insert(sample_task("ab"));
    let hashes: Vec<&str> = store.records().iter().map(|t| t.hash.as_str()).collect();
    assert_eq!(hashes, vec!["aa", "ab", "bb", "cc"]);
}

#[test]
fn load_rejects_records_out_of_hash_order() {
    let r = TaskStore::from_records(vec![sample_task("bb"), sample_task("aa")]);
    assert!(r.is_err());
    let r = TaskStore::from_records(vec![sample_task("aa"), sample_task("bb")]);
    assert!(r.is_ok());
}

#[test]
fn start_command_dispatches_by_state() {
    let t = sample_task("dd11");
    assert_eq!(start_task(&t, false).unwrap(), StartDecision::Start);
    let mut t2 = sample_task("dd22");
    t2.record_error(
        RuntimeTaskErrorKind::RuntimeUpload,
        "2024-10-10T00:00:00Z".to_string(),
    );
    assert_eq!(
        start_task(&t2, false).unwrap(),
        StartDecision::Resume { kind: RuntimeTaskErrorKind::RuntimeUpload, skip: false }
    );
    assert_eq!(
        start_task(&t2, true).unwrap(),
        StartDecision::Resume { kind: RuntimeTaskErrorKind::RuntimeUpload, skip: true }
    );
    let mut t3 = sample_task("dd33");
    t3.record_error(
        RuntimeTaskErrorKind::Download,
        "2024-10-10T00:00:00Z".to_string(),
    );
    assert!(matches!(start_task(&t3, true), Err(TaskError::NotSkippable)));
    assert_eq!(
        start_task(&t3, false).unwrap(),
        StartDecision::Resume { kind: RuntimeTaskErrorKind::Download, skip: false }
    );
    let mut t4 = sample_task("dd44");
    start(&mut t4);
    assert!(matches!(start_task(&t4, false), Err(TaskError::Common(_))));
}

#[test]
fn store_roundtrip_preserves_tasks() {
    let mut store = TaskStore::new();
    store.insert(sample_task("aa00"));
    let mut t = sample_task("bb00");
    start(&mut t);
    t.record_error(
        RuntimeTaskErrorKind::Download,
        "2024-08-08T00:00:00Z".to_string(),
    );
    store.insert(t);
    let records = store.records().clone();
    let loaded = TaskStore::from_records(records).unwrap();
    assert_eq!(loaded.len(), 2);
    let a = loaded.get("aa00").unwrap();
    assert_eq!(a.state.status, Status::Paused);
    assert_eq!(a.name, "sample");
    let b = loaded.get("bb00").unwrap();
    assert_eq!(b.state.status, Status::Error);
    let err = b.error_info.as_ref().unwrap();
    assert!(matches!(err.kind, RuntimeTaskErrorKind::Download));
    assert_eq!(err.timestamp, "2024-08-08T00:00:00Z");
}

#[test]
fn load_rejects_malformed_record() {
    let mut t = sample_task("cc00");
    t.state.current_part_num = 5;
    let r = TaskStore::from_records(vec![t]);
    assert!(r.is_err());
}

#[test]
fn load_rejects_duplicate_hash() {
    let r = TaskStore::from_records(vec![sample_task("dd00"), sample_task("dd00")]);
    assert!(r.is_err());
}

#[test]
fn record_error_sets_error_state() {
    let mut t = sample_task("ee00");
    t.record_error(
        RuntimeTaskErrorKind::LaunchUpload,
        "2024-09-09T00:00:00Z".to_string(),
    );
    assert_eq!(t.state.status, Status::Error);
    let e = RuntimeTaskError::from_kind(
        RuntimeTaskErrorKind::LaunchUpload,
        "2024-09-09T00:00:00Z".to_string(),
    );
    assert!(matches!(e.kind, RuntimeTaskErrorKind::LaunchUpload));
    assert_eq!(e.timestamp, "2024-09-09T00:00:00Z");
}
