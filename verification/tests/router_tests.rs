use dlsrv::router::{classify_sync, is_direct_file_url, validate_task_url};
use dlsrv::store::TaskType;

#[test]
fn opaque_file_host_urls_default_to_aria2() {
    assert_eq!(
        classify_sync("https://pixeldrain.com/u/tXYpoSJx", false),
        TaskType::Aria2
    );
    assert_eq!(
        classify_sync("https://pixeldrain.com/api/file/tXYpoSJx?download", false),
        TaskType::Aria2
    );
}

#[test]
fn file_extension_stays_aria2_even_when_forced() {
    assert_eq!(
        classify_sync("https://cdn.example.com/show.mkv", true),
        TaskType::Aria2
    );
}

#[test]
fn youtube_uses_ytdlp() {
    assert_eq!(
        classify_sync("https://www.youtube.com/watch?v=abc", false),
        TaskType::Ytdlp
    );
    assert_eq!(
        classify_sync("https://www.youtube.com/watch?v=abc", true),
        TaskType::Ytdlp
    );
}

#[test]
fn magnet_goes_to_aria2_even_when_forced() {
    assert_eq!(
        classify_sync("  MAGNET:?xt=urn:btih:abcdef  ", true),
        TaskType::Aria2
    );
}

#[test]
fn torrent_link_goes_to_aria2() {
    assert_eq!(
        classify_sync("https://example.org/file.torrent?x=1", true),
        TaskType::Aria2
    );
}

#[test]
fn forced_unknown_page_uses_ytdlp() {
    assert_eq!(
        classify_sync("https://example.org/watch/123", true),
        TaskType::Ytdlp
    );
}

#[test]
fn direct_file_ignores_query() {
    assert!(is_direct_file_url("https://x.org/a.zip?token=1"));
    assert!(!is_direct_file_url("https://x.org/a?name=b.zip"));
}

#[test]
fn validate_rejects_empty() {
    assert_eq!(validate_task_url("   "), Err("URL is empty".to_string()));
}

#[test]
fn validate_rejects_data_scheme() {
    assert_eq!(
        validate_task_url("data:text/plain,hi"),
        Err("Unsupported URL scheme".to_string())
    );
}

#[test]
fn validate_magnet_needs_hash() {
    assert_eq!(
        validate_task_url("magnet:?dn=x"),
        Err("Magnet links must include a hash (magnet:?xt=urn:btih:...)".to_string())
    );
    assert_eq!(validate_task_url("magnet:?xt=urn:btih:abc"), Ok(()));
}

#[test]
fn validate_rejects_unparsable() {
    assert_eq!(
        validate_task_url("not a url"),
        Err("Invalid URL".to_string())
    );
}

#[test]
fn validate_rejects_other_scheme() {
    assert_eq!(
        validate_task_url("ftp://example.org/file"),
        Err("URL must be http, https, or magnet".to_string())
    );
}

#[test]
fn validate_rejects_search_page() {
    assert_eq!(
        validate_task_url("https://example.org/search?q=ubuntu"),
        Err(
            "URL looks like a search page \u{2014} paste a direct magnet, .torrent, file, or video link"
                .to_string()
        )
    );
    assert_eq!(
        validate_task_url("https://example.org/list?q=ubuntu"),
        Err(
            "URL looks like a search page \u{2014} paste a direct magnet, .torrent, file, or video link"
                .to_string()
        )
    );
}

#[test]
fn validate_accepts_video_site_search() {
    assert_eq!(
        validate_task_url("https://www.youtube.com/results?search_query=x"),
        Ok(())
    );
    assert_eq!(validate_task_url("https://example.org/page"), Ok(()));
}

#[test]
fn video_hosts_are_matched_by_host_name() {
    assert_eq!(
        classify_sync("https://www.dropbox.com/s/abc/clip", false),
        TaskType::Aria2
    );
    assert_eq!(
        classify_sync("https://example.org/page?from=youtube.com", false),
        TaskType::Aria2
    );
    assert_eq!(classify_sync("https://x.com/user/status/1", false), TaskType::Ytdlp);
    assert_eq!(
        classify_sync("HTTPS://user@M.YouTube.com:443/watch?v=1", false),
        TaskType::Ytdlp
    );
    assert_eq!(classify_sync("vimeo.com/12345", false), TaskType::Ytdlp);
    assert_eq!(classify_sync("https://notvimeo.com/12345", false), TaskType::Aria2);
}

#[test]
fn validation_accepts_urls_that_name_a_video_site() {
    assert_eq!(
        validate_task_url("https://example.org/search?v=youtube.com"),
        Ok(())
    );
}
