use dlsrv::config::{config_defaults, EnvSettings};

#[test]
fn defaults_without_environment() {
    let env = EnvSettings {
        addr: None,
        token: None,
        download_dir: None,
        config_dir: None,
        aria2_rpc_url: None,
        aria2_rpc_secret: None,
        ytdlp_path: None,
        ffmpeg_path: None,
    };
    let c = config_defaults(&env);
    assert_eq!(c.addr, "0.0.0.0:35778");
    assert_eq!(c.token, "");
    assert_eq!(c.download_dir, "/data/downloads");
    assert_eq!(c.config_dir, "/config");
    assert_eq!(c.aria2_rpc_url, "http://127.0.0.1:6800/jsonrpc");
    assert_eq!(c.aria2_rpc_secret, "dl-srv-secret");
    assert_eq!(c.ytdlp_path, "yt-dlp");
    assert_eq!(c.ffmpeg_path, "ffmpeg");
    assert_eq!(c.default_category, "inbox");
    assert_eq!(c.ytdlp_quality, "best");
    assert_eq!(c.rate_limit_per_minute, 60);
    assert_eq!(c.qbit_username, "admin");
    assert_eq!(c.qbit_password, "adminadmin");
    assert!(!c.setup_complete);
    assert!(c.cors_origins.is_empty());
    assert_eq!(c.bt_max_peers, 55);
}

#[test]
fn environment_overrides_defaults() {
    let env = EnvSettings {
        addr: Some("127.0.0.1:9000".to_string()),
        token: Some("tok".to_string()),
        download_dir: Some("/srv/dl".to_string()),
        config_dir: None,
        aria2_rpc_url: None,
        aria2_rpc_secret: Some("s".to_string()),
        ytdlp_path: None,
        ffmpeg_path: Some("/usr/bin/ffmpeg".to_string()),
    };
    let c = config_defaults(&env);
    assert_eq!(c.addr, "127.0.0.1:9000");
    assert_eq!(c.token, "tok");
    assert_eq!(c.download_dir, "/srv/dl");
    assert_eq!(c.config_dir, "/config");
    assert_eq!(c.aria2_rpc_secret, "s");
    assert_eq!(c.ffmpeg_path, "/usr/bin/ffmpeg");
    assert_eq!(c.ytdlp_path, "yt-dlp");
}

fn with_download_dir(dir: &str) -> dlsrv::config::Config {
    let env = EnvSettings {
        addr: None,
        token: None,
        download_dir: Some(dir.to_string()),
        config_dir: None,
        aria2_rpc_url: None,
        aria2_rpc_secret: None,
        ytdlp_path: None,
        ffmpeg_path: None,
    };
    config_defaults(&env)
}

#[test]
fn category_dirs_stay_under_the_download_dir() {
    let c = with_download_dir("/data");
    assert_eq!(c.category_dir("movies"), "/data/movies");
    assert_eq!(c.category_dir(""), "/data/inbox");
    assert_eq!(c.category_dir("/etc"), "/data/etc");
    assert_eq!(c.category_dir("../../etc/cron.d"), "/data/etc/cron.d");
    assert_eq!(c.category_dir("a//./b/"), "/data/a/b");
    assert_eq!(c.category_dir(".."), "/data/");
    let d = with_download_dir("/data/");
    assert_eq!(d.category_dir("tv"), "/data/tv");
}

#[test]
fn regenerated_token_is_lower_hex() {
    let mut c = with_download_dir("/data");
    let old_dir = c.download_dir.clone();
    let t = c.regenerate_token();
    assert_eq!(t.len(), 48);
    assert!(t.chars().all(|ch| ch.is_ascii_digit() || ('a'..='f').contains(&ch)));
    assert_eq!(c.token, t);
    assert_eq!(c.download_dir, old_dir);
}
