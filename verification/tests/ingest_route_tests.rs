use qb_downloader::engine::{dispatch_error_kind, Dispatch};
use qb_downloader::ingest::{add_torrent_route, export_failure, IngestRoute};
use qb_downloader::qb::QbError;
use qb_downloader::task::{waited_delete_hashes, RuntimeTaskErrorKind, TaskError};

#[test]
fn bytes_route_carries_info_hash() {
    let data = b"d4:infod5:filesld6:lengthi3eed6:lengthi10eed6:lengthi3eee4:name4:rootee";
    let route = add_torrent_route(Some(data), "sample.torrent").unwrap();
    assert!(
        matches!(route, IngestRoute::Bytes { ref hash } if hash == "9545a285104aaaa0faa6382e88d87cd88a4fb238")
    );
}

#[test]
fn bytes_route_rejects_junk() {
    let r = add_torrent_route(Some(b"junk"), "sample.torrent");
    assert!(matches!(r, Err(TaskError::Bencode(_))));
}

#[test]
fn magnet_route_knows_its_hash() {
    let url = "magnet:?xt=urn:btih:c12fe1c06bba254a9dc9f519b335aa7c1367a88a&dn=x";
    let route = add_torrent_route(None, url).unwrap();
    assert!(
        matches!(route, IngestRoute::MagnetKnownHash { ref hash } if hash == "c12fe1c06bba254a9dc9f519b335aa7c1367a88a")
    );
}

#[test]
fn plain_url_takes_unknown_hash_route() {
    let route = add_torrent_route(None, "http://example.com/file.torrent").unwrap();
    assert!(matches!(route, IngestRoute::UrlUnknownHash));
}

#[test]
fn cancelled_export_means_user_abort() {
    assert!(matches!(export_failure(QbError::Cancelled), TaskError::Abort));
    assert!(matches!(
        export_failure(QbError::NotLogin),
        TaskError::Qb(QbError::NotLogin)
    ));
    assert!(matches!(
        export_failure(QbError::ParseMagnet),
        TaskError::Qb(QbError::ParseMagnet)
    ));
}

#[test]
fn failed_dispatch_names_its_error_kind() {
    assert_eq!(
        dispatch_error_kind(Dispatch::RunCheck),
        Some(RuntimeTaskErrorKind::RuntimeUpload)
    );
    assert_eq!(
        dispatch_error_kind(Dispatch::RunInterval),
        Some(RuntimeTaskErrorKind::LaunchUpload)
    );
    assert_eq!(
        dispatch_error_kind(Dispatch::AddNextPart),
        Some(RuntimeTaskErrorKind::AddNextPart)
    );
    assert_eq!(dispatch_error_kind(Dispatch::Idle), None);
}

#[test]
fn waited_hashes_join_with_pipe() {
    assert_eq!(waited_delete_hashes(&vec![]), None);
    assert_eq!(
        waited_delete_hashes(&vec!["aa".to_string()]),
        Some("aa".to_string())
    );
    assert_eq!(
        waited_delete_hashes(&vec!["aa".to_string(), "bb".to_string(), "cc".to_string()]),
        Some("aa|bb|cc".to_string())
    );
}
