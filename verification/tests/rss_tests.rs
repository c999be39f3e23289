use dlsrv::rss::{feed_entries, poll_feed_entries, rss_task_input, FeedError, FeedItem};
use dlsrv::store::RssFeed;

fn feed(filter: Option<&str>) -> RssFeed {
    RssFeed {
        id: "f1".into(),
        url: "https://feeds.example/rss".into(),
        title: None,
        filter_regex: filter.map(String::from),
        category: "tv".into(),
        enabled: true,
        poll_interval_secs: 300,
        created_at: 0,
    }
}

const DOC: &str = r#"<?xml version="1.0"?>
<rss version="2.0"><channel><title>t</title><link>https://feeds.example</link><description>d</description>
<item><title>Show S01E01 1080p</title><link>https://x/1.torrent</link><guid>g1</guid></item>
<item><title>Show S01E02 720p</title><link>https://x/2.torrent</link></item>
<item><title>No link</title></item>
<item><title>Other 1080p</title><link></link></item>
</channel></rss>"#;

#[test]
fn entries_without_filter() {
    let r = poll_feed_entries(&feed(None), &DOC.as_bytes().to_vec()).unwrap();
    assert_eq!(r.len(), 2);
    assert_eq!(r[0].guid, "g1");
    assert_eq!(r[0].link, "https://x/1.torrent");
    assert_eq!(r[1].guid, "https://x/2.torrent");
}

#[test]
fn entries_with_filter() {
    let r = poll_feed_entries(&feed(Some("1080p")), &DOC.as_bytes().to_vec()).unwrap();
    assert_eq!(r.len(), 1);
    assert_eq!(r[0].link, "https://x/1.torrent");
    let by_link = poll_feed_entries(&feed(Some(r"2\.torrent$")), &DOC.as_bytes().to_vec()).unwrap();
    assert_eq!(by_link.len(), 1);
    assert_eq!(by_link[0].guid, "https://x/2.torrent");
}

#[test]
fn feed_errors() {
    assert_eq!(
        poll_feed_entries(&feed(None), &b"not xml at all".to_vec()).err(),
        Some(FeedError::Unreadable)
    );
    assert_eq!(
        poll_feed_entries(&feed(Some("(")), &DOC.as_bytes().to_vec()).err(),
        Some(FeedError::BadFilter)
    );
}

#[test]
fn entries_of_items() {
    let items = vec![
        FeedItem { link: Some("a".into()), title: None, guid: None },
        FeedItem { link: Some(String::new()), title: None, guid: Some("x".into()) },
        FeedItem { link: None, title: Some("t".into()), guid: None },
    ];
    let r = feed_entries(&None, &items);
    assert_eq!(r.len(), 1);
    assert_eq!(r[0].guid, "a");
}

#[test]
fn task_input_for_item() {
    let i = rss_task_input(&feed(None), "https://x/1.torrent");
    assert_eq!(i.url, "https://x/1.torrent");
    assert_eq!(i.category, "tv");
    assert_eq!(i.referer, Some("https://feeds.example/rss".to_string()));
    assert_eq!(i.source, Some("rss:f1".to_string()));
    assert!(!i.force_ytdlp);
}
