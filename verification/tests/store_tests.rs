use dlsrv::store::{new_rss_feed, new_task, AddTaskInput, TaskStatus, TaskType};

fn id_shaped(id: &str) -> bool {
    let c: Vec<char> = id.chars().collect();
    c.len() == 36 && c[8] == '-' && c[13] == '-' && c[18] == '-' && c[23] == '-'
}

#[test]
fn new_task_has_a_fresh_uuid_and_defaults() {
    let input = AddTaskInput {
        url: "https://example.org/a.mkv".to_string(),
        category: String::new(),
        filename: None,
        referer: None,
        cookies: None,
        force_ytdlp: false,
        quality: None,
        source: None,
    };
    let a = new_task(&input, TaskType::Aria2, "/data/downloads/inbox", 7);
    let b = new_task(&input, TaskType::Aria2, "/data/downloads/inbox", 7);
    assert!(id_shaped(&a.id));
    assert_ne!(a.id, b.id);
    assert_eq!(a.category, "inbox");
    assert_eq!(a.status, TaskStatus::Pending);
    assert_eq!(a.created_at, 7);
}

#[test]
fn new_feed_has_a_fresh_uuid() {
    let f = new_rss_feed("https://example.org/rss", None, None, "", true, 900, 3);
    assert!(id_shaped(&f.id));
    assert_eq!(f.category, "inbox");
}
