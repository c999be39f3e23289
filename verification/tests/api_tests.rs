use dlsrv::api::{
    apply_feed_update, new_feed, task_input, CreateRssFeedBody, CreateTaskBody, RateLimiter,
    UpdateRssFeedBody, WINDOW_NANOS,
};
use dlsrv::store::RssFeed;

#[test]
fn rate_limit_counts_hits_in_window() {
    let mut rl = RateLimiter::new(2);
    assert!(rl.check_at("1.2.3.4", 1_000));
    assert!(rl.check_at("1.2.3.4", 2_000));
    assert!(!rl.check_at("1.2.3.4", 3_000));
    // another client is counted apart
    assert!(rl.check_at("5.6.7.8", 3_000));
    // the first hit leaves the window
    assert!(rl.check_at("1.2.3.4", 1_000 + WINDOW_NANOS));
    assert!(!rl.check_at("1.2.3.4", 1_000 + WINDOW_NANOS));
}

#[test]
fn rate_limit_zero_refuses_all() {
    let mut rl = RateLimiter::new(0);
    assert!(!rl.check_at("k", 0));
    assert!(!rl.check("k"));
}

#[test]
fn rate_limit_new_limit_applies() {
    let mut rl = RateLimiter::new(1);
    assert!(rl.check_at("k", 10));
    assert!(!rl.check_at("k", 11));
    rl.set_limit(3);
    assert!(rl.check_at("k", 12));
}

#[test]
fn rate_limit_clock() {
    let mut rl = RateLimiter::new(1);
    assert!(rl.check("k"));
    assert!(!rl.check("k"));
}

fn body(url: &str) -> CreateTaskBody {
    CreateTaskBody {
        url: url.into(),
        category: None,
        filename: None,
        referer: None,
        cookies: None,
        force_ytdlp: None,
        quality: None,
        source: None,
    }
}

#[test]
fn task_input_defaults() {
    assert!(task_input(&body("   ")).is_none());
    let i = task_input(&body("  https://x.org/a  ")).unwrap();
    assert_eq!(i.url, "https://x.org/a");
    assert_eq!(i.category, "");
    assert!(!i.force_ytdlp);
    assert_eq!(i.source, Some("api".to_string()));
    let mut b = body("u");
    b.source = Some("ext".into());
    b.force_ytdlp = Some(true);
    b.category = Some("tv".into());
    let j = task_input(&b).unwrap();
    assert_eq!(j.source, Some("ext".to_string()));
    assert!(j.force_ytdlp);
    assert_eq!(j.category, "tv");
}

#[test]
fn feed_defaults() {
    let b = CreateRssFeedBody {
        url: " https://f/rss ".into(),
        title: None,
        filter_regex: None,
        category: None,
        enabled: None,
        poll_interval_secs: None,
    };
    let f = new_feed(&b).unwrap();
    assert_eq!(f.url, "https://f/rss");
    assert!(f.enabled);
    assert_eq!(f.poll_interval_secs, 300);
    assert_eq!(f.category, "");
    let blank = CreateRssFeedBody { url: " ".into(), ..b };
    assert!(new_feed(&blank).is_none());
}

#[test]
fn feed_update_replaces_given_fields() {
    let mut feed = RssFeed {
        id: "f1".into(),
        url: "old".into(),
        title: None,
        filter_regex: Some("x".into()),
        category: "tv".into(),
        enabled: true,
        poll_interval_secs: 300,
        created_at: 5,
    };
    apply_feed_update(
        &mut feed,
        &UpdateRssFeedBody {
            url: Some("new".into()),
            title: Some("T".into()),
            filter_regex: None,
            category: None,
            enabled: Some(false),
            poll_interval_secs: None,
        },
    );
    assert_eq!(feed.url, "new");
    assert_eq!(feed.title, Some("T".to_string()));
    assert_eq!(feed.filter_regex, Some("x".to_string()));
    assert_eq!(feed.category, "tv");
    assert!(!feed.enabled);
    assert_eq!(feed.poll_interval_secs, 300);
    assert_eq!(feed.id, "f1");
}
