use transmission_controller::controller::{
    check_options, OptionsError, cleanup_order, manual_step, needs_cleanup, same_path, schedule_state, torrent_command, torrent_disposal,
    Action, Command, Disposal, ManualStep, SeedLimits, State, MANUAL_MODE_TIMEOUT_SECS,
};
use transmission_controller::rpc::{build_torrent, RawTorrent, Torrent, TorrentStatus, PROCESSED_MARKER};

fn torrent(hash: &str, dir: &str, done: bool, processed: bool, done_date: i64, ratio: i64) -> Torrent {
    build_torrent(
        RawTorrent {
            hash_string: hash.to_string(),
            name: hash.to_string(),
            download_dir: dir.to_string(),
            status: 6,
            added_date: 10,
            wanted: vec![1],
            left_until_done: if done { 0 } else { 1 },
            done_date,
            download_limit: if processed { PROCESSED_MARKER } else { 0 },
            files: None,
            file_stats: None,
            upload_ratio: ratio,
        },
        false,
    )
    .unwrap()
}

#[test]
fn states_from_the_schedule() {
    assert_eq!(schedule_state(Action::StartOrPause, true), State::Active);
    assert_eq!(schedule_state(Action::StartOrPause, false), State::Paused);
    assert_eq!(schedule_state(Action::PauseOrStart, true), State::Paused);
    assert_eq!(schedule_state(Action::PauseOrStart, false), State::Active);
    assert_eq!(Action::from_name("pause-or-start"), Some(Action::PauseOrStart));
    assert_eq!(Action::from_name("start"), None);
    assert_eq!(Action::StartOrPause.name(), "start-or-pause");
}

#[test]
fn manual_mode_times_out() {
    assert_eq!(manual_step(false, Some(5), 100, MANUAL_MODE_TIMEOUT_SECS), ManualStep::Schedule);
    assert_eq!(manual_step(true, None, 100, MANUAL_MODE_TIMEOUT_SECS), ManualStep::Stay(100));
    assert_eq!(manual_step(true, Some(100), 100 + 86399, MANUAL_MODE_TIMEOUT_SECS), ManualStep::Stay(100));
    assert_eq!(manual_step(true, Some(100), 100 + 86400, MANUAL_MODE_TIMEOUT_SECS), ManualStep::Reset);
}

#[test]
fn commands() {
    assert_eq!(torrent_command(State::Active, TorrentStatus::Paused), Command::Start);
    assert_eq!(torrent_command(State::Paused, TorrentStatus::Seeding), Command::Stop);
    assert_eq!(torrent_command(State::Manual, TorrentStatus::Paused), Command::Nothing);
    assert_eq!(torrent_command(State::Active, TorrentStatus::Downloading), Command::Nothing);
}

#[test]
fn disposals() {
    let none = SeedLimits { seed_time: None, upload_ratio: None };
    let limits = SeedLimits { seed_time: Some(1000), upload_ratio: Some(2000) };
    assert_eq!(torrent_disposal(&torrent("a", "/d", false, false, 0, 0), false, &limits, 5000), Disposal::Skip);
    assert_eq!(torrent_disposal(&torrent("a", "/d", true, false, 100, 0), true, &limits, 5000), Disposal::Skip);
    assert_eq!(torrent_disposal(&torrent("a", "/d", true, false, 100, 0), false, &limits, 5000), Disposal::Consume);
    assert_eq!(torrent_disposal(&torrent("a", "/d", true, true, 100, 0), false, &limits, 1100), Disposal::Remove);
    assert_eq!(torrent_disposal(&torrent("a", "/d", true, true, 100, 0), false, &limits, 1099), Disposal::Keep);
    assert_eq!(torrent_disposal(&torrent("a", "/d", true, true, 100, 2500), false, &limits, 200), Disposal::Remove);
    assert_eq!(torrent_disposal(&torrent("a", "/d", true, true, 100, 2500), false, &none, 99999), Disposal::Keep);
}

#[test]
fn free_space() {
    assert!(needs_cleanup(90, 10));
    assert!(!needs_cleanup(89, 10));
    assert!(needs_cleanup(36, 64));
}

#[test]
fn deletion_order() {
    let ts = vec![
        torrent("late", "/d", true, true, 300, 0),
        torrent("elsewhere", "/other", true, true, 50, 0),
        torrent("early", "/d/", true, true, 100, 0),
        torrent("same", "//d", true, true, 300, 0),
    ];
    let order = cleanup_order(&ts, &vec![0, 1, 2, 3], "/d");
    assert_eq!(order, vec![(100, 2), (300, 0), (300, 3)]);
    assert!(same_path("/a/./b/", "/a/b"));
    assert!(!same_path("a/b", "/a/b"));
    assert!(!same_path("./a", "a"));
}

#[test]
fn option_combinations() {
    assert_eq!(check_options(Some("start-or-pause"), true, Some(10), true, true), Ok(Some(Action::StartOrPause)));
    assert_eq!(check_options(None, false, None, false, false), Ok(None));
    assert_eq!(check_options(Some("start-or-pause"), false, None, false, false), Err(OptionsError::ActionWithoutPeriods));
    assert_eq!(check_options(None, true, None, false, false), Err(OptionsError::PeriodsWithoutAction));
    assert_eq!(check_options(Some("run"), true, None, false, false), Err(OptionsError::UnknownAction("run".to_string())));
    assert_eq!(check_options(None, false, Some(101), false, false), Err(OptionsError::InvalidThreshold(101)));
    assert_eq!(check_options(None, false, Some(100), false, true), Err(OptionsError::RecipientWithoutSender));
}
