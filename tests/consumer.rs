use transmission_controller::consumer::{
    abandoned_entries, after_open_failure, after_part_check, dir_chain, fetch_outcome, OpenStep, PartFile, move_target_name, plan_copy, validate_torrent_file_name, ConsumerQueue, FilePlan,
    Outcome, MOVE_ATTEMPTS,
};
use transmission_controller::email::EmailTemplate;
use transmission_controller::rpc::{
    build_torrent, RawTorrent, TorrentFile, TransmissionClientError, TransmissionRpcError,
};

fn file(name: &str, selected: bool) -> TorrentFile {
    TorrentFile { name: name.to_string(), selected }
}

fn plan(root: &str, path: &str, name: &str) -> FilePlan {
    FilePlan { root: root.to_string(), path: path.to_string(), name: name.to_string() }
}

fn done_torrent(left: u64) -> RawTorrent {
    RawTorrent {
        hash_string: "h".to_string(),
        name: "n".to_string(),
        download_dir: "/d".to_string(),
        status: 0,
        added_date: 1,
        wanted: vec![1],
        left_until_done: left,
        done_date: 2,
        download_limit: 0,
        files: None,
        file_stats: None,
        upload_ratio: 0,
    }
}

#[test]
fn consumed_hash_is_in_the_snapshot() {
    let mut q = ConsumerQueue::new();
    q.consume("abc");
    q.consume("abc");
    assert_eq!(q.get_in_process(), vec!["abc".to_string()]);
    q.consume("def");
    assert_eq!(q.pending(), vec!["abc".to_string(), "def".to_string()]);
}

#[test]
fn outcomes_move_hashes() {
    let mut q = ConsumerQueue::new();
    q.consume("a");
    q.consume("b");
    q.consume("c");
    assert!(!q.finish("a", Outcome::Temporary));
    assert_eq!(q.pending(), vec!["a".to_string(), "b".to_string(), "c".to_string()]);
    assert!(q.finish("b", Outcome::Persistent));
    assert_eq!(q.get_in_process(), vec!["a".to_string(), "c".to_string()]);
    assert!(q.finish("c", Outcome::Done));
    assert!(q.finish("a", Outcome::Cancelled));
    assert!(q.get_in_process().is_empty());
    // a failed hash scheduled again is kept out of the worker's batches
    q.consume("b");
    assert_eq!(q.get_in_process(), vec!["b".to_string()]);
    assert!(q.pending().is_empty());
}

#[test]
fn fetch_outcomes() {
    let gone: Result<_, TransmissionClientError> =
        Err(TransmissionClientError::Rpc(TransmissionRpcError::TorrentNotFoundError("h".to_string())));
    assert_eq!(fetch_outcome(&gone), Some(Outcome::Cancelled));
    let down: Result<_, TransmissionClientError> = Err(TransmissionClientError::Connection("refused".to_string()));
    assert_eq!(fetch_outcome(&down), Some(Outcome::Temporary));
    let rpc: Result<_, TransmissionClientError> =
        Err(TransmissionClientError::Rpc(TransmissionRpcError::GeneralError("x".to_string())));
    assert_eq!(fetch_outcome(&rpc), Some(Outcome::Temporary));
    assert_eq!(fetch_outcome(&build_torrent(done_torrent(0), false)), None);
    assert_eq!(fetch_outcome(&build_torrent(done_torrent(10), false)), Some(Outcome::Cancelled));
}

#[test]
fn torrent_file_names() {
    assert_eq!(validate_torrent_file_name("a/b/c.txt"), Ok(plan("a", "a/b/c.txt", "c.txt")));
    assert_eq!(validate_torrent_file_name("a//b/./c/"), Ok(plan("a", "a/b/c", "c")));
    assert_eq!(validate_torrent_file_name("x"), Ok(plan("x", "x", "x")));
    for bad in ["", "/a/b", "./a", "a/../b", "..", ".", "/", "a/.."] {
        assert_eq!(
            validate_torrent_file_name(bad),
            Err(format!("Invalid torrent file name: {}", bad))
        );
    }
    let p = validate_torrent_file_name("top/inner/file").unwrap();
    assert!(p.path.starts_with(&p.root));
}

#[test]
fn consume_happy_path_plan() {
    // files a/x and a/.hidden, both selected: only a/x is copied, and `a` is moved
    let files = vec![file("a/x", true), file("a/.hidden", true)];
    let plans = plan_copy(&files).unwrap();
    assert_eq!(plans, vec![plan("a", "a/x", "x")]);
    assert_eq!(move_target_name(&plans[0].root, 0), Some("a".to_string()));
    let template = EmailTemplate::new("Downloaded: {{name}}", "{{name}} torrent has been downloaded.");
    let (subject, body) = template.render(&vec![("name".to_string(), "My torrent".to_string())]).unwrap();
    assert!(subject.contains("My torrent"));
    assert_eq!(body, "My torrent torrent has been downloaded.");
}

#[test]
fn copy_plan_skips_and_refuses() {
    let files = vec![file("b/y", false), file("c/z", true), file(".top", true)];
    assert_eq!(plan_copy(&files).unwrap(), vec![plan("c", "c/z", "z")]);
    let files = vec![file("ok", true), file("../evil", true)];
    assert_eq!(plan_copy(&files), Err("Invalid torrent file name: ../evil".to_string()));
    let files = vec![file("ok", true), file("../unselected", false)];
    assert_eq!(plan_copy(&files).unwrap().len(), 1);
}

#[test]
fn move_collision_names() {
    assert_eq!(move_target_name("a", 0), Some("a".to_string()));
    assert_eq!(move_target_name("a", 1), Some("DUP_1.a".to_string()));
    assert_eq!(move_target_name("a", 2), Some("DUP_2.a".to_string()));
    assert_eq!(move_target_name("a", 9), Some("DUP_9.a".to_string()));
    assert_eq!(move_target_name("a", 10), None);
    assert_eq!(MOVE_ATTEMPTS, 10);
    let names: Vec<String> = (0..MOVE_ATTEMPTS).filter_map(|i| move_target_name("a", i)).collect();
    assert_eq!(names.len(), 10);
}

#[test]
fn abandoned_staging_entries() {
    let entries = vec![".hidden".to_string(), "movie".to_string(), ".part".to_string(), "show".to_string()];
    assert_eq!(abandoned_entries(&entries), vec!["movie".to_string(), "show".to_string()]);
    assert!(abandoned_entries(&vec![".a".to_string()]).is_empty());
}

#[test]
fn directory_chains() {
    assert_eq!(dir_chain("a/b/c"), vec!["a".to_string(), "a/b".to_string(), "a/b/c".to_string()]);
    assert_eq!(dir_chain("a//b/./"), vec!["a".to_string(), "a/b".to_string()]);
    assert!(dir_chain("").is_empty());
    assert!(dir_chain("./.").is_empty());
}

#[test]
fn waiting_for_part_files() {
    assert_eq!(after_open_failure(true, true), OpenStep::CheckPart);
    assert_eq!(after_open_failure(true, false), OpenStep::Fail);
    assert_eq!(after_open_failure(false, true), OpenStep::Fail);
    assert_eq!(after_part_check(PartFile::Present, 4999), OpenStep::Wait);
    assert_eq!(after_part_check(PartFile::Present, 5000), OpenStep::GiveUp);
    assert_eq!(after_part_check(PartFile::Missing, 0), OpenStep::Retry);
    assert_eq!(after_part_check(PartFile::Unreadable, 0), OpenStep::Fail);
}
