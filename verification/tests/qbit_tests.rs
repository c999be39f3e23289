use dlsrv::manager::task_info_hash;
use dlsrv::qbit::{
    categories, cookie_sid, first_hash, hash_filter, hash_list, listed_tasks, map_task_to_qbit,
    new_session_id, paused_flag, qbit_path_is_open, seconds_of, session_cookie, tasks_named_by,
    torrent_add_inputs, transfer_totals,
};
use dlsrv::store::{Task, TaskStatus, TaskType};

fn task(id: &str, category: &str, status: TaskStatus) -> Task {
    Task {
        id: id.into(),
        url: format!("https://x/{id}"),
        task_type: TaskType::Aria2,
        status,
        backend_gid: None,
        category: category.into(),
        filename: None,
        save_path: Some(format!("/d/{category}")),
        done_bytes: 10,
        total_bytes: 4,
        speed: 3,
        upload_speed: 0,
        connections: 0,
        num_seeders: 0,
        uploaded_bytes: 0,
        seeding: false,
        error: None,
        referer: None,
        quality: None,
        source: None,
        created_at: 1_700_000_000_999,
        updated_at: 0,
        completed_at: None,
    }
}

#[test]
fn session_cookie_parsing() {
    assert_eq!(cookie_sid("a=1; SID= abc ; b=2"), Some("abc".to_string()));
    assert_eq!(cookie_sid("SID=x;SID=y"), Some("x".to_string()));
    assert_eq!(cookie_sid("sid=x"), None);
    assert_eq!(session_cookie("f00"), "SID=f00; HttpOnly; Path=/api/v2");
    let sid = new_session_id();
    assert_eq!(sid.len(), 32);
    assert!(sid.chars().all(|c| c.is_ascii_hexdigit()));
    assert!(qbit_path_is_open("/api/v2/auth/login"));
    assert!(!qbit_path_is_open("/api/v2/torrents/info"));
}

#[test]
fn task_as_torrent() {
    let t = task("abc", "", TaskStatus::Paused);
    let q = map_task_to_qbit(&t);
    assert_eq!(q.hash, task_info_hash(&t));
    assert_eq!(q.name, "https://x/abc");
    assert_eq!(q.size, 10);
    assert_eq!(q.state, "pausedDL");
    assert_eq!(q.category, "inbox");
    assert_eq!(q.added_on, 1_700_000_000);
    assert_eq!(q.completion_on, 0);
    assert_eq!(q.save_path, "/d/");
    assert_eq!(q.eta, 8640000);
}

#[test]
fn seconds_round_down() {
    assert_eq!(seconds_of(1999), 1);
    assert_eq!(seconds_of(0), 0);
    assert_eq!(seconds_of(-1), -1);
    assert_eq!(seconds_of(-1000), -1);
    assert_eq!(seconds_of(-1001), -2);
    assert_eq!(seconds_of(i64::MIN), i64::MIN.div_euclid(1000));
}

#[test]
fn hash_lists() {
    assert_eq!(hash_list("a||b|"), vec!["a".to_string(), "b".to_string()]);
    assert_eq!(hash_filter(&None), None);
    assert_eq!(first_hash(&Some("x|y".into())), Some("x".to_string()));
    assert_eq!(first_hash(&Some("".into())), Some(String::new()));
    assert_eq!(first_hash(&None), None);
}

#[test]
fn listing_by_hash() {
    let tasks = vec![
        task("a", "tv", TaskStatus::Downloading),
        task("b", "tv", TaskStatus::Completed),
        task("c", "movies", TaskStatus::Downloading),
    ];
    assert_eq!(listed_tasks(&tasks, &None), vec![0, 1, 2]);
    let hc = task_info_hash(&tasks[2]);
    let ha = task_info_hash(&tasks[0]);
    let f = Some(vec![hc.clone(), "zz".to_string(), ha.clone()]);
    assert_eq!(listed_tasks(&tasks, &f), vec![0, 2]);
    let names = format!("{hc}|nope||{ha}|{hc}");
    assert_eq!(tasks_named_by(&tasks, &names), vec![2, 0, 2]);
}

#[test]
fn category_list() {
    let mut t2 = task("b", "tv", TaskStatus::Completed);
    t2.save_path = Some("/other".into());
    let tasks = vec![
        task("a", "tv", TaskStatus::Downloading),
        task("c", "", TaskStatus::Downloading),
        t2,
    ];
    let cats = categories(&tasks);
    assert_eq!(
        cats,
        vec![
            ("tv".to_string(), Some("/other".to_string())),
            ("inbox".to_string(), Some("/d/".to_string())),
        ]
    );
}

#[test]
fn add_form() {
    assert!(torrent_add_inputs(&None, &None).is_none());
    let v = torrent_add_inputs(
        &Some(" magnet:?a \r\n\n  \nhttps://x/b.torrent\n".into()),
        &Some("tv".into()),
    )
    .unwrap();
    assert_eq!(v.len(), 2);
    assert_eq!(v[0].url, "magnet:?a");
    assert_eq!(v[1].url, "https://x/b.torrent");
    assert_eq!(v[1].category, "tv");
    assert_eq!(v[0].source, Some("qbit".to_string()));
    assert!(paused_flag(&Some("true".into())));
    assert!(paused_flag(&Some("1".into())));
    assert!(!paused_flag(&Some("True".into())));
    assert!(!paused_flag(&None));
}

#[test]
fn transfer_sums() {
    let tasks = vec![
        task("a", "tv", TaskStatus::Downloading),
        task("b", "tv", TaskStatus::Completed),
        task("c", "movies", TaskStatus::Downloading),
    ];
    assert_eq!(transfer_totals(&tasks), (6, 30));
}
