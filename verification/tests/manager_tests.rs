use dlsrv::aria2::{Aria2File, Aria2Status, BtSettings};
use dlsrv::manager::{
    aria2_add_options, aria2_gid_not_found, aria2_start_kind, apply_aria2_status, backend_action,
    follow_up, handoff_after_following, handoff_start, handoff_target, infer_referer,
    info_hash_from_digest, is_already_registered, is_bt_task, magnet_infohash, mark_lost,
    mark_resumed, needs_ytdlp_probe, poll_plan, qbit_category, refresh_seeding,
    reset_for_content_gid, seeding_lost, start_cookies, task_category, task_info_hash,
    Aria2Start, BackendAction, HandoffStep, PollFollowUp, PollPlan, ProgressNote,
};
use dlsrv::store::{Task, TaskStatus, TaskType};
use dlsrv::manager::torrent_payload;
use dlsrv::organize::episode_title_from;

fn task(url: &str) -> Task {
    Task {
        id: "id-1".into(),
        url: url.into(),
        task_type: TaskType::Aria2,
        status: TaskStatus::Downloading,
        backend_gid: None,
        category: String::new(),
        filename: None,
        save_path: None,
        done_bytes: 0,
        total_bytes: 0,
        speed: 0,
        upload_speed: 0,
        connections: 0,
        num_seeders: 0,
        uploaded_bytes: 0,
        seeding: false,
        error: None,
        referer: None,
        quality: None,
        source: None,
        created_at: 0,
        updated_at: 0,
        completed_at: None,
    }
}

fn st(status: &str, total: &str, done: &str) -> Aria2Status {
    Aria2Status {
        _gid: "g".into(),
        status: status.into(),
        total_length: total.into(),
        completed_length: done.into(),
        download_speed: "100".into(),
        upload_speed: "50".into(),
        connections: "4".into(),
        num_seeders: "2".into(),
        upload_length: "7".into(),
        files: vec![Aria2File { path: "/d/tv/Show.S01E01.mkv".into() }],
        error_message: String::new(),
        followed_by: vec![],
        following: String::new(),
        info_hash: String::new(),
        seeder: "true".into(),
    }
}

const HASH40: &str = "0123456789abcdef0123456789abcdef01234567";

#[test]
fn magnet_hash_extraction() {
    let url = format!("  MAGNET:?xt=urn:btih:{}&dn=x ", HASH40.to_uppercase());
    assert_eq!(magnet_infohash(&url), Some(HASH40.to_string()));
    assert_eq!(magnet_infohash("magnet:?xt=urn:btih:short"), None);
    assert_eq!(magnet_infohash("magnet:?dn=x"), None);
}

#[test]
fn bt_tasks() {
    assert!(is_bt_task(" magnet:?xt=urn:btih:x"));
    assert!(is_bt_task("https://t.org/a.TORRENT"));
    assert!(!is_bt_task("https://t.org/a.mkv"));
}

#[test]
fn aria2_error_texts() {
    assert!(aria2_gid_not_found("GID 1234 is Not Found"));
    assert!(!aria2_gid_not_found("timeout"));
    assert!(is_already_registered("InfoHash abc is already registered."));
    assert!(!is_already_registered("Already Registered"));
}

#[test]
fn referer_inference() {
    assert_eq!(
        infer_referer("https://a.org/x", &Some("r".into())),
        Some("r".to_string())
    );
    assert_eq!(
        infer_referer("https://AkiraBox.com/f/1", &None),
        Some("https://akirabox.to/".to_string())
    );
    assert_eq!(
        infer_referer(" https://cdn.example.com:8443/a/b?c ", &None),
        Some("https://cdn.example.com:8443/".to_string())
    );
    assert_eq!(infer_referer("not a url", &None), None);
}

#[test]
fn info_hash_is_sha256_prefix() {
    // SHA-256 of "abc"
    let h = task_info_hash(&Task {
        id: "abc".into(),
        ..task("u")
    });
    assert_eq!(h, "ba7816bf8f01cfea414140de5dae2223b00361a3");
    let digest: Vec<u8> = (0u8..32).collect();
    assert_eq!(
        info_hash_from_digest(&digest),
        "000102030405060708090a0b0c0d0e0f10111213"
    );
}

#[test]
fn categories_and_cookies() {
    assert_eq!(qbit_category(&task("u")), "inbox");
    assert_eq!(task_category("", "movies"), "movies");
    assert_eq!(task_category("tv", "movies"), "tv");
    assert_eq!(start_cookies(&Some("  a=b ".into())), Some("a=b".to_string()));
    assert_eq!(start_cookies(&Some("   ".into())), None);
}

#[test]
fn probe_only_for_opaque_aria2_urls() {
    assert!(needs_ytdlp_probe("https://pixeldrain.com/u/x", false));
    assert!(!needs_ytdlp_probe("https://x.org/a.mkv", false));
    assert!(!needs_ytdlp_probe("magnet:?xt=urn:btih:x", false));
    assert!(!needs_ytdlp_probe("https://youtube.com/watch?v=1", false));
}

#[test]
fn start_kinds_and_options() {
    let magnet = format!("magnet:?xt=urn:btih:{HASH40}");
    match aria2_start_kind(&magnet) {
        Aria2Start::Magnet { hash } => assert_eq!(hash, Some(HASH40.to_string())),
        _ => panic!("magnet"),
    }
    assert!(matches!(aria2_start_kind("https://x/a.torrent"), Aria2Start::Torrent));
    assert!(matches!(aria2_start_kind("https://x/a.mkv"), Aria2Start::Uri));
    let bt = BtSettings {
        seed_ratio_text: "1.00".into(),
        seed_time: 0,
        max_peers: 50,
        max_upload_limit: 0,
        max_download_limit: 0,
    };
    let mut t = task("https://x/a.mkv");
    t.filename = Some("name.mkv".into());
    let o = aria2_add_options(&t, &Aria2Start::Uri, "/d", &None, &bt, &Some("ref".into()));
    assert!(!o.bt);
    assert!(o.bt_settings.is_none());
    assert_eq!(o.filename, Some("name.mkv".to_string()));
    assert_eq!(o.referer, Some("ref".to_string()));
    let m = aria2_add_options(
        &task(&magnet),
        &Aria2Start::Magnet { hash: None },
        "/d",
        &None,
        &bt,
        &Some("ref".into()),
    );
    assert!(m.bt);
    assert!(m.referer.is_none());
    assert!(m.bt_settings.is_some());
}

#[test]
fn poll_plans() {
    let mut t = task("magnet:?xt=urn:btih:0123456789abcdef0123456789abcdef");
    match poll_plan(&t) {
        PollPlan::FindByHash(h) => assert_eq!(h, "0123456789abcdef0123456789abcdef"),
        _ => panic!("find"),
    }
    t.backend_gid = Some("g1".into());
    assert!(matches!(poll_plan(&t), PollPlan::Gid(g) if g == "g1"));
    t.task_type = TaskType::Ytdlp;
    assert!(matches!(poll_plan(&t), PollPlan::Skip));
    assert!(matches!(poll_plan(&task("https://x/a")), PollPlan::Skip));
}

#[test]
fn lost_downloads_fail_unless_complete() {
    let mut t = task("u");
    t.backend_gid = Some("g".into());
    mark_lost(&mut t, 9);
    assert_eq!(t.status, TaskStatus::Failed);
    assert!(t.backend_gid.is_none());
    assert_eq!(
        t.error,
        Some("aria2 lost track of this download (often after a container restart)".to_string())
    );
    let mut c = task("u");
    c.status = TaskStatus::Completed;
    mark_lost(&mut c, 9);
    assert_eq!(c.status, TaskStatus::Completed);
    assert_eq!(c.updated_at, 0);
}

#[test]
fn magnet_handoff_steps() {
    let mut s = st("active", "0", "0");
    s.followed_by = vec!["c1".into()];
    assert!(matches!(handoff_start(&s), HandoffStep::Found(g) if g == "c1"));
    s.followed_by = vec![];
    assert!(matches!(handoff_start(&s), HandoffStep::AskFollowing));
    s.files = vec![Aria2File { path: "[METADATA]x".into() }];
    let magnet = format!("magnet:?xt=urn:btih:{HASH40}");
    assert!(matches!(
        handoff_after_following(&s, &magnet, None),
        HandoffStep::AskBest(h) if h == HASH40
    ));
    assert!(matches!(
        handoff_after_following(&s, &magnet, Some("f".into())),
        HandoffStep::Found(g) if g == "f"
    ));
    assert!(matches!(
        handoff_after_following(&s, "https://x", None),
        HandoffStep::NoneFound
    ));
    assert_eq!(handoff_target("g", &Some("g".into())), None);
    assert_eq!(handoff_target("g", &Some("h".into())), Some("h".to_string()));
    let mut t = task(&magnet);
    t.done_bytes = 5;
    t.filename = Some("x".into());
    t.status = TaskStatus::Completed;
    t.completed_at = Some(3);
    reset_for_content_gid(&mut t, "h", 10);
    assert_eq!(t.backend_gid, Some("h".to_string()));
    assert_eq!(t.status, TaskStatus::Downloading);
    assert_eq!(t.done_bytes, 0);
    assert_eq!(t.filename, None);
    assert_eq!(t.completed_at, None);
}

#[test]
fn status_update_of_a_finished_torrent() {
    let mut t = task("magnet:?xt=urn:btih:x");
    let p = apply_aria2_status(&mut t, &st("active", "100", "100"), 42);
    assert_eq!(p, ProgressNote::Full);
    assert_eq!(t.status, TaskStatus::Completed);
    assert_eq!(t.completed_at, Some(42));
    assert_eq!(t.speed, 0);
    assert!(t.seeding);
    assert_eq!(t.upload_speed, 50);
    assert_eq!(t.connections, 4);
    assert_eq!(t.filename, Some("Show.S01E01.mkv".to_string()));
    assert_eq!(t.save_path, Some("/d/tv".to_string()));
    assert_eq!(follow_up(&t, TaskStatus::Downloading, false), PollFollowUp::Completed);
    assert_eq!(follow_up(&t, TaskStatus::Completed, false), PollFollowUp::Nothing);
}

#[test]
fn status_update_of_a_plain_download() {
    let mut t = task("https://x/a.bin");
    let p = apply_aria2_status(&mut t, &st("active", "100", "40"), 7);
    assert_eq!(p, ProgressNote::Ratio);
    assert_eq!(t.status, TaskStatus::Downloading);
    assert_eq!(t.speed, 100);
    assert_eq!(t.upload_speed, 0);
    assert!(!t.seeding);
    let mut e = st("error", "100", "40");
    e.error_message = "boom".into();
    apply_aria2_status(&mut t, &e, 8);
    assert_eq!(t.status, TaskStatus::Failed);
    assert_eq!(t.error, Some("boom".to_string()));
    assert_eq!(follow_up(&t, TaskStatus::Downloading, false), PollFollowUp::TryYtdlp);
}

#[test]
fn status_update_of_metadata() {
    let mut t = task("magnet:?xt=urn:btih:x");
    t.completed_at = Some(1);
    let mut s = st("complete", "10", "10");
    s.files = vec![Aria2File { path: "[METADATA]abc".into() }];
    let p = apply_aria2_status(&mut t, &s, 9);
    assert_eq!(p, ProgressNote::Ratio);
    assert_eq!(t.status, TaskStatus::Downloading);
    assert_eq!(t.completed_at, None);
    assert!(!t.seeding);
}

#[test]
fn status_complete_without_total() {
    let mut t = task("https://x/a.bin");
    let p = apply_aria2_status(&mut t, &st("complete", "0", "0"), 5);
    assert_eq!(p, ProgressNote::Full);
    assert_eq!(t.status, TaskStatus::Completed);
    assert_eq!(t.completed_at, Some(5));
}

#[test]
fn seeding_watch() {
    let mut t = task("magnet:?xt=urn:btih:x");
    t.status = TaskStatus::Completed;
    t.seeding = true;
    t.upload_speed = 3;
    t.backend_gid = Some("g".into());
    assert!(seeding_lost(&mut t, false, 4));
    assert!(!t.seeding);
    assert_eq!(t.backend_gid, Some("g".to_string()));
    assert!(!seeding_lost(&mut t, false, 5));
    assert_eq!(t.updated_at, 4);
    assert!(seeding_lost(&mut t, true, 6));
    assert!(t.backend_gid.is_none());
    let mut s = st("active", "10", "10");
    refresh_seeding(&mut t, &s, 7);
    assert!(t.seeding);
    assert_eq!(t.upload_speed, 50);
    s.seeder = "false".into();
    refresh_seeding(&mut t, &s, 8);
    assert!(!t.seeding);
    assert_eq!(t.upload_speed, 0);
    assert_eq!(t.uploaded_bytes, 7);
}

#[test]
fn pause_and_resume() {
    let mut t = task("u");
    assert!(matches!(backend_action(&t), BackendAction::Nothing));
    t.backend_gid = Some("g".into());
    assert!(matches!(backend_action(&t), BackendAction::Aria2(g) if g == "g"));
    t.completed_at = Some(1);
    mark_resumed(&mut t, 2);
    assert_eq!(t.status, TaskStatus::Downloading);
    assert_eq!(t.completed_at, None);
    t.task_type = TaskType::Ytdlp;
    assert!(matches!(backend_action(&t), BackendAction::StopYtdlp));
    t.completed_at = Some(1);
    mark_resumed(&mut t, 3);
    assert_eq!(t.completed_at, Some(1));
}

#[test]
fn torrent_payload_is_base64() {
    assert_eq!(torrent_payload(&b"Man".to_vec()), "TWFu");
    assert_eq!(torrent_payload(&b"Ma".to_vec()), "TWE=");
    assert_eq!(torrent_payload(&b"M".to_vec()), "TQ==");
    assert_eq!(torrent_payload(&vec![0xff, 0xfe, 0xfd]), "//79");
    assert_eq!(torrent_payload(&vec![]), "");
}

#[test]
fn episode_titles() {
    assert_eq!(episode_title_from(&Some("Pilot".into())), Ok("Pilot".to_string()));
    assert_eq!(episode_title_from(&Some("  ".into())), Err("episode_not_found"));
    assert_eq!(episode_title_from(&None), Err("episode_not_found"));
}

#[test]
fn log_url_cuts_long_urls() {
    assert_eq!(dlsrv::manager::log_url("  https://a.example/x  "), "https://a.example/x");
    let long = "a".repeat(150);
    assert_eq!(dlsrv::manager::log_url(&long), format!("{}\u{2026}", "a".repeat(100)));
    let edge = format!("{}\u{e9}", "b".repeat(99));
    assert_eq!(dlsrv::manager::log_url(&edge), format!("{}\u{2026}", "b".repeat(99)));
    let exact = "c".repeat(100);
    assert_eq!(dlsrv::manager::log_url(&exact), exact);
}
