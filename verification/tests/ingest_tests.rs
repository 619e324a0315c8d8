use qb_downloader::api::{get_option_param, get_param_or};
use qb_downloader::auth::{authorize, encode};
use qb_downloader::bencode::{get_file_name_list, get_hash, get_torrent_name, parse_torrent, BencodeError, FileNode, FileNodeBuilder};
use qb_downloader::config::{Account, GeneralConfig, RcloneConfig};
use qb_downloader::engine::is_metadata_fetched;
use qb_downloader::errors::{create_contexted_error, format_error_chain};
use qb_downloader::qb::retry_after_forbidden;
use qb_downloader::multipart::{MultipartBuilder, PartKind};
use qb_downloader::qb::{category, login_with, start_verb, stop_verb, try_parse_hash, version_from_parts, Qb, QbError, Tag};
use qb_downloader::remove_slash;
use qb_downloader::task::get_torrent_path;
use qb_downloader::upload::{JobStatus, Rclone};
use qb_downloader::task::TaskError;

#[test]
fn magnet_hex_hash_is_taken_verbatim() {
    let url = "magnet:?xt=urn:btih:c12fe1c06bba254a9dc9f519b335aa7c1367a88a";
    let hash = try_parse_hash(url).unwrap();
    assert_eq!(hash, "c12fe1c06bba254a9dc9f519b335aa7c1367a88a");
}

#[test]
fn magnet_hash_stops_at_ampersand() {
    let url = "magnet:?xt=urn:btih:c12fe1c06bba254a9dc9f519b335aa7c1367a88a&dn=name&tr=tracker";
    let hash = try_parse_hash(url).unwrap();
    assert_eq!(hash, "c12fe1c06bba254a9dc9f519b335aa7c1367a88a");
}

#[test]
fn magnet_base32_hash_decodes_to_hex() {
    let url = "magnet:?xt=urn:btih:YEX6DQDLXISUVHOJ6UM3GNNKPQJWPKEK";
    let hash = try_parse_hash(url).unwrap();
    assert_eq!(hash, "c12fe1c06bba254a9dc9f519b335aa7c1367a88a");
}

#[test]
fn magnet_invalid_base32_is_rejected() {
    let url = "magnet:?xt=urn:btih:0123456789012345678901234567890!";
    assert!(matches!(try_parse_hash(url), Err(QbError::ParseMagnet)));
}

#[test]
fn non_magnet_url_is_rejected() {
    let url = "http://example.com/file.torrent";
    assert!(matches!(try_parse_hash(url), Err(QbError::ParseMagnet)));
}

#[test]
fn info_hash_of_torrent_bytes() {
    let data = b"d4:infod5:filesld6:lengthi3eed6:lengthi10eed6:lengthi3eee4:name4:rootee";
    let hash = get_hash(data).unwrap();
    assert_eq!(hash, "9545a285104aaaa0faa6382e88d87cd88a4fb238");
}

#[test]
fn torrent_without_info_is_rejected() {
    let data = b"d4:spami7ee";
    assert!(matches!(get_hash(data), Err(BencodeError::Decode)));
    assert!(matches!(get_hash(b"not bencode"), Err(BencodeError::Decode)));
}

#[test]
fn parse_torrent_reads_name_and_lengths() {
    let data = b"d4:infod5:filesld6:lengthi3eed6:lengthi10eed6:lengthi3eee4:name4:rootee";
    let (name, lengths) = parse_torrent(data).unwrap();
    assert_eq!(name, "root");
    assert_eq!(lengths, vec![3i64, 10, 3]);
}

#[test]
fn negative_file_length_is_rejected() {
    let data = b"d4:infod5:filesld6:lengthi-3eee4:name4:rootee";
    assert!(matches!(parse_torrent(data), Err(BencodeError::Decode)));
}

#[test]
fn oversized_integer_is_rejected() {
    let data = b"d4:infod5:filesld6:lengthi99999999999999999999eee4:name4:rootee";
    assert!(matches!(parse_torrent(data), Err(BencodeError::Decode)));
}

#[test]
fn single_file_torrent_is_rejected() {
    let data = b"d4:infod6:lengthi5e4:name3:abcee";
    assert!(matches!(
        get_torrent_name(data),
        Err(BencodeError::SingleFile)
    ));
    assert!(matches!(parse_torrent(data), Err(BencodeError::SingleFile)));
}

#[test]
fn torrent_name_of_multi_file_torrent() {
    let data = b"d4:infod5:filesld6:lengthi3eee4:name4:rootee";
    assert_eq!(get_torrent_name(data).unwrap(), "root");
}

#[test]
fn file_name_list_reads_paths_in_order() {
    let data = b"d4:infod5:filesld6:lengthi3e4:pathl4:docs5:a.txteed6:lengthi10e4:pathl5:b.bineed6:lengthi3e4:pathl4:docs5:c.txteee4:name4:rootee";
    let paths = get_file_name_list(data).unwrap();
    assert_eq!(
        paths,
        vec![
            vec!["docs".to_string(), "a.txt".to_string()],
            vec!["b.bin".to_string()],
            vec!["docs".to_string(), "c.txt".to_string()],
        ]
    );
    let single = b"d4:infod6:lengthi5e4:name3:abcee";
    assert!(matches!(
        get_file_name_list(single),
        Err(BencodeError::SingleFile)
    ));
    let no_path = b"d4:infod5:filesld6:lengthi3eee4:name4:rootee";
    assert!(matches!(get_file_name_list(no_path), Err(BencodeError::Decode)));
}

#[test]
fn content_tree_groups_and_orders_files() {
    let paths = vec![
        vec!["docs".to_string(), "c.txt".to_string()],
        vec!["b.bin".to_string()],
        vec!["docs".to_string(), "a.txt".to_string()],
    ];
    let tree = FileNodeBuilder::build(paths, "root".to_string()).into_node();
    assert_eq!(tree.id, -1);
    assert_eq!(tree.label, "root");
    assert_eq!(tree.children.len(), 2);
    // the directory sorts before the file
    let docs = &tree.children[0];
    assert_eq!(docs.label, "docs");
    assert_eq!(docs.id, -2);
    let b_bin = &tree.children[1];
    assert_eq!(b_bin.label, "b.bin");
    assert_eq!(b_bin.id, 1);
    assert!(b_bin.children.is_empty());
    // files keep their list positions as ids, sorted by label for display
    assert_eq!(docs.children.len(), 2);
    assert_eq!(docs.children[0].label, "a.txt");
    assert_eq!(docs.children[0].id, 2);
    assert_eq!(docs.children[1].label, "c.txt");
    assert_eq!(docs.children[1].id, 0);
}

#[test]
fn file_nodes_sort_directories_first_then_by_label() {
    let file_a = FileNode { id: 0, label: "alpha.bin".to_string(), children: vec![] };
    let file_b = FileNode { id: 1, label: "beta.bin".to_string(), children: vec![] };
    let dir_z = FileNode {
        id: -2,
        label: "zeta".to_string(),
        children: vec![FileNode { id: 2, label: "inner".to_string(), children: vec![] }],
    };
    assert_eq!(FileNode::cmp(&file_a, &file_b), std::cmp::Ordering::Less);
    assert_eq!(FileNode::cmp(&file_b, &file_a), std::cmp::Ordering::Greater);
    assert_eq!(FileNode::cmp(&file_a, &file_a), std::cmp::Ordering::Equal);
    assert_eq!(FileNode::cmp(&dir_z, &file_a), std::cmp::Ordering::Less);
    assert_eq!(FileNode::cmp(&file_a, &dir_z), std::cmp::Ordering::Greater);
    let short = FileNode { id: 3, label: "ab".to_string(), children: vec![] };
    let long = FileNode { id: 4, label: "abc".to_string(), children: vec![] };
    assert_eq!(FileNode::cmp(&short, &long), std::cmp::Ordering::Less);
}

#[test]
fn encode_is_hex_md5() {
    assert_eq!(encode("adminadmin"), "f6fdffe48c908deb0f4c3bd36c032e72");
}

#[test]
fn authorize_compares_token() {
    assert!(authorize("abc", "abc"));
    assert!(!authorize("abc", "abd"));
    assert!(!authorize("", "abc"));
}

#[test]
fn default_account_stores_encoded_password() {
    let account = Account::default();
    assert_eq!(account.username, "admin");
    assert_eq!(account.password, "f6fdffe48c908deb0f4c3bd36c032e72");
    let general = GeneralConfig::default();
    assert!(general.multi_login);
    assert!(!general.is_only_inner_ip);
    let rclone = RcloneConfig::default();
    assert_eq!(rclone.rclone_host, "http://localhost:5572");
}

#[test]
fn torrent_cache_path_layout() {
    let p = get_torrent_path("/var/cache/torrents", "c12f");
    assert_eq!(p, "/var/cache/torrents/c12f.torrent");
}

#[test]
fn remove_slash_trims_whitespace_then_one_trailing_slash() {
    assert_eq!(remove_slash("/home/user/torrents/"), "/home/user/torrents");
    assert_eq!(remove_slash("http://localhost:8080/"), "http://localhost:8080");
    assert_eq!(remove_slash("http://localhost:8080"), "http://localhost:8080");
    assert_eq!(remove_slash(" a/ "), "a");
    assert_eq!(remove_slash("\t http://h/ \n"), "http://h");
    assert_eq!(remove_slash("  "), "");
    assert_eq!(remove_slash("//"), "/");
    assert_eq!(remove_slash(""), "");
}

#[test]
fn qb_session_snapshot() {
    let qb = Qb::new("http://localhost:8080".to_string());
    assert!(!qb.is_logined());
    assert!(matches!(qb.host(), Err(QbError::NotLogin)));
    assert_eq!(qb.version(), 0);
    let qb = Qb {
        host: "http://qb".to_string(),
        logined: true,
        version: 5,
        cookie: Some("SID=1".to_string()),
    };
    assert_eq!(qb.host().unwrap(), "http://qb");
}

#[test]
fn login_needs_cookie_and_supported_version() {
    let qb = login_with("http://h".to_string(), Some("SID=2".to_string()), Some(5));
    assert!(qb.is_logined());
    assert_eq!(qb.version(), 5);
    assert_eq!(qb.cookie.as_deref(), Some("SID=2"));
    let qb = login_with("http://h".to_string(), None, Some(5));
    assert!(!qb.is_logined());
    assert_eq!(qb.version(), 0);
    let qb = login_with("http://h".to_string(), Some("SID=2".to_string()), None);
    assert!(!qb.is_logined());
    assert!(qb.cookie.is_none());
}

#[test]
fn version_generations() {
    assert_eq!(version_from_parts(Some(5), None).unwrap(), 5);
    assert_eq!(version_from_parts(Some(5), Some(0)).unwrap(), 5);
    assert_eq!(version_from_parts(Some(4), Some(1)).unwrap(), 4);
    assert_eq!(version_from_parts(Some(4), Some(6)).unwrap(), 4);
    assert!(matches!(
        version_from_parts(Some(4), Some(0)),
        Err(QbError::UnsupportedVersion)
    ));
    assert!(matches!(
        version_from_parts(Some(4), None),
        Err(QbError::UnsupportedVersion)
    ));
    assert!(matches!(
        version_from_parts(Some(3), Some(9)),
        Err(QbError::UnsupportedVersion)
    ));
    assert!(matches!(
        version_from_parts(None, Some(2)),
        Err(QbError::UnsupportedVersion)
    ));
}

#[test]
fn verbs_follow_version() {
    assert_eq!(start_verb(4), "resume");
    assert_eq!(stop_verb(4), "pause");
    assert_eq!(start_verb(5), "start");
    assert_eq!(stop_verb(5), "stop");
    assert_eq!(Tag::Waited.as_str(), "qbd_waited");
    assert_eq!(category(), "QBD");
}

#[test]
fn metadata_fetched_states() {
    assert!(is_metadata_fetched("stoppedUP"));
    assert!(is_metadata_fetched("pausedUP"));
    assert!(is_metadata_fetched("stoppedDL"));
    assert!(is_metadata_fetched("pausedDL"));
    assert!(!is_metadata_fetched("metaDL"));
    assert!(!is_metadata_fetched("downloading"));
}

#[test]
fn multipart_keeps_part_order() {
    let parts = MultipartBuilder::new()
        .path("torrents".to_string(), "/cache/a.torrent".to_string())
        .text("category".to_string(), "QBD".to_string())
        .text("stopped".to_string(), "true".to_string())
        .bytes("torrents".to_string(), vec![1, 2, 3], "a.torrent".to_string())
        .into_parts();
    assert_eq!(parts.len(), 4);
    assert_eq!(parts[0].name, "torrents");
    assert!(matches!(parts[0].kind, PartKind::Path(ref p) if p == "/cache/a.torrent"));
    assert!(matches!(parts[1].kind, PartKind::Text(ref v) if v == "QBD"));
    assert_eq!(parts[3].name, "torrents");
    assert!(
        matches!(parts[3].kind, PartKind::Bytes { ref value, ref filename } if value == &vec![1u8, 2, 3] && filename == "a.torrent")
    );
}

#[test]
fn rclone_check_outcome() {
    let ok = Rclone::check_outcome(JobStatus { finished: true, success: true, error: None });
    assert_eq!(ok.unwrap(), true);
    let running = Rclone::check_outcome(JobStatus { finished: false, success: false, error: None });
    assert_eq!(running.unwrap(), false);
    let failed = Rclone::check_outcome(JobStatus {
        finished: true,
        success: false,
        error: Some("copy failed".to_string()),
    });
    assert!(matches!(failed, Err(TaskError::Upload(Some(ref m))) if m == "copy failed"));
}

#[test]
fn error_chain_renders_causes() {
    let chain = vec![
        "Failed to add task".to_string(),
        "Failed to export torrent file in qb".to_string(),
        "request timed out".to_string(),
    ];
    assert_eq!(
        format_error_chain(&chain),
        "Failed to add task\n  Caused by: Failed to export torrent file in qb\n  Caused by: request timed out"
    );
    assert_eq!(format_error_chain(&vec![]), "");
    assert_eq!(format_error_chain(&vec!["only".to_string()]), "only");
    let wrapped = create_contexted_error("context".to_string(), 7u8);
    assert_eq!(wrapped.msg, "context");
    assert_eq!(wrapped.source, 7);
}

#[test]
fn forbidden_is_retried_once() {
    assert!(retry_after_forbidden(403, false));
    assert!(!retry_after_forbidden(403, true));
    assert!(!retry_after_forbidden(500, false));
    assert!(!retry_after_forbidden(200, false));
}

#[test]
fn params_lookup_takes_first_match() {
    let params = vec![
        ("hash".to_string(), "abc".to_string()),
        ("type".to_string(), "start".to_string()),
        ("hash".to_string(), "zzz".to_string()),
    ];
    assert_eq!(get_option_param(&params, "hash"), Some("abc".to_string()));
    assert_eq!(get_option_param(&params, "missing"), None);
    assert_eq!(get_param_or(&params, "type", "stop".to_string()), "start");
    assert_eq!(get_param_or(&params, "forced", "false".to_string()), "false");
}
