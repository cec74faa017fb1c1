use transmission_controller::rpc::{
    build_torrent, build_torrents, check_content_type, check_reply, is_json_media_type, on_status,
    single_torrent, step_error, Attempt, HeaderKind, RawTorrent, Step, TorrentFile, TorrentStatus,
    TransmissionClientError, TransmissionRpcError, CONFLICT, OK, PROCESSED_MARKER,
};

fn raw(hash: &str) -> RawTorrent {
    RawTorrent {
        hash_string: hash.to_string(),
        name: format!("name of {}", hash),
        download_dir: "/d".to_string(),
        status: 6,
        added_date: 100,
        wanted: vec![0, 1],
        left_until_done: 0,
        done_date: 200,
        download_limit: PROCESSED_MARKER,
        files: None,
        file_stats: None,
        upload_ratio: 1500,
    }
}

#[test]
fn session_handshake_scenario() {
    // the first reply is a conflict that names the session id: store it and send again
    let first = on_status(Attempt::First, CONFLICT, HeaderKind::Present);
    assert_eq!(first, Step::Resend);
    // the second reply succeeds with JSON and an empty torrent list
    let second = on_status(Attempt::Retry, OK, HeaderKind::Present);
    assert_eq!(second, Step::Accept);
    assert_eq!(check_content_type(HeaderKind::Present, "application/json"), Ok(()));
    assert_eq!(check_reply("success", true), Ok(()));
    let torrents = build_torrents(Vec::new(), false).unwrap();
    assert!(torrents.is_empty());
}

#[test]
fn a_second_conflict_ends_the_call() {
    assert_eq!(on_status(Attempt::Retry, CONFLICT, HeaderKind::Present), Step::FailInternal);
    assert_eq!(on_status(Attempt::Retry, 500, HeaderKind::Absent), Step::FailInternal);
    assert_eq!(on_status(Attempt::First, CONFLICT, HeaderKind::Absent), Step::FailProtocol);
    assert_eq!(on_status(Attempt::First, CONFLICT, HeaderKind::Unreadable), Step::FailProtocol);
    assert_eq!(on_status(Attempt::First, 401, HeaderKind::Present), Step::FailInternal);
    assert_eq!(on_status(Attempt::First, OK, HeaderKind::Absent), Step::Accept);
    assert_eq!(
        step_error(Step::FailInternal, 409),
        TransmissionClientError::Internal("Got 409 HTTP status code".to_string())
    );
    assert!(matches!(step_error(Step::FailProtocol, 409), TransmissionClientError::Protocol(_)));
}

#[test]
fn content_types() {
    assert_eq!(check_content_type(HeaderKind::Present, "application/json; charset=UTF-8"), Ok(()));
    assert_eq!(check_content_type(HeaderKind::Present, "Application/JSON"), Ok(()));
    assert!(matches!(check_content_type(HeaderKind::Present, "text/html"), Err(TransmissionClientError::Protocol(_))));
    assert!(matches!(check_content_type(HeaderKind::Present, "not a type"), Err(TransmissionClientError::Protocol(_))));
    assert!(matches!(check_content_type(HeaderKind::Absent, ""), Err(TransmissionClientError::Protocol(_))));
    assert!(is_json_media_type("application", "json"));
    assert!(!is_json_media_type("application", "xml"));
}

#[test]
fn reply_envelopes() {
    assert_eq!(
        check_reply("duplicate torrent", true),
        Err(TransmissionClientError::Rpc(TransmissionRpcError::GeneralError("duplicate torrent".to_string())))
    );
    assert!(matches!(check_reply("success", false), Err(TransmissionClientError::Protocol(_))));
}

#[test]
fn torrent_fields() {
    let t = build_torrent(raw("abc"), false).unwrap();
    assert_eq!(t.hash, "abc");
    assert_eq!(t.status, TorrentStatus::Seeding);
    assert!(t.done);
    assert_eq!(t.done_time, Some(200));
    assert!(t.processed);
    assert_eq!(t.upload_ratio, Some(1500));
    assert!(t.files.is_none());

    let mut added_done = raw("b");
    added_done.done_date = 0;
    added_done.download_limit = 0;
    added_done.upload_ratio = 0;
    let t = build_torrent(added_done, false).unwrap();
    assert_eq!(t.done_time, Some(100));
    assert!(!t.processed);
    assert_eq!(t.upload_ratio, None);

    let mut unselected = raw("c");
    unselected.wanted = vec![0, 0];
    let t = build_torrent(unselected, false).unwrap();
    assert!(!t.done);
    assert_eq!(t.done_time, None);

    let mut left = raw("d");
    left.left_until_done = 5;
    assert!(!build_torrent(left, false).unwrap().done);
}

#[test]
fn torrent_files_are_joined() {
    let mut r = raw("f");
    r.files = Some(vec!["a/x".to_string(), "a/y".to_string()]);
    r.file_stats = Some(vec![true, false]);
    let t = build_torrent(r, true).unwrap();
    assert_eq!(
        t.files.unwrap(),
        vec![
            TorrentFile { name: "a/x".to_string(), selected: true },
            TorrentFile { name: "a/y".to_string(), selected: false },
        ]
    );

    let mut missing = raw("g");
    missing.files = Some(vec!["a".to_string()]);
    assert!(matches!(build_torrent(missing, true), Err(TransmissionClientError::Protocol(_))));

    let mut mismatched = raw("h");
    mismatched.files = Some(vec!["a".to_string()]);
    mismatched.file_stats = Some(vec![true, true]);
    assert!(matches!(build_torrent(mismatched, true), Err(TransmissionClientError::Protocol(_))));

    let mut bad_status = raw("i");
    bad_status.status = 9;
    assert!(matches!(build_torrent(bad_status, false), Err(TransmissionClientError::Protocol(_))));
}

#[test]
fn single_torrent_selection() {
    assert_eq!(
        single_torrent(Vec::new(), "abc").unwrap_err(),
        TransmissionClientError::Rpc(TransmissionRpcError::TorrentNotFoundError("abc".to_string()))
    );
    let one = build_torrents(vec![raw("x")], false).unwrap();
    assert_eq!(single_torrent(one, "x").unwrap().hash, "x");
    let two = build_torrents(vec![raw("x"), raw("y")], false).unwrap();
    assert_eq!(two[1].hash, "y");
    assert!(matches!(single_torrent(two, "x"), Err(TransmissionClientError::Protocol(_))));
    assert!(TorrentStatus::from_code(7).is_none());
    assert_eq!(TorrentStatus::from_code(0), Some(TorrentStatus::Paused));
}
