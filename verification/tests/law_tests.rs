use dlsrv::organize::{parse_filename, sanitize_name, Parsed};
use dlsrv::filename::filename_from_url;
use dlsrv::config::Config;
use dlsrv::filename::{clean_download_filename, percent_decode};
use dlsrv::organize::{looks_organised, movie_destination, tv_destination, TmdbTitle};
use dlsrv::store::{TaskStatus, TaskType};
use dlsrv::organize::sidecar_moves;
use dlsrv::organize::task_files;
use dlsrv::store::Task;

fn config() -> Config {
    Config {
        addr: "0.0.0.0:35778".into(),
        token: "t".into(),
        download_dir: "/data/downloads".into(),
        config_dir: "/config".into(),
        aria2_rpc_url: "http://127.0.0.1:6800/jsonrpc".into(),
        aria2_rpc_secret: "s".into(),
        ytdlp_path: "yt-dlp".into(),
        ffmpeg_path: "ffmpeg".into(),
        default_category: "inbox".into(),
        setup_complete: true,
        ytdlp_quality: "best".into(),
        ytdlp_cookies_file: None,
        webhook_url: None,
        webhook_enabled: false,
        jellyfin_refresh_url: None,
        cors_origins: vec![],
        rate_limit_per_minute: 60,
        qbit_username: "admin".into(),
        qbit_password: "adminadmin".into(),
        organize_enabled: true,
        tmdb_api_key: "k".into(),
        organize_dry_run: false,
        organize_movies_dir: "movies".into(),
        organize_tv_dir: "tv".into(),
        organize_scan_secs: 0,
        bt_seed_time: 0,
        bt_max_peers: 55,
        max_upload_kbps: 0,
        max_download_kbps: 0,
    }
}

#[test]
fn filed_movie_looks_organised() {
    let cfg = config();
    let hit = TmdbTitle {
        id: 1,
        title: "Star Wars: Episode IV / A New Hope".into(),
        year: Some(1977),
    };
    let dest = movie_destination(&cfg, &hit, 1977, "/data/downloads/inbox/sw.1977.mkv").unwrap();
    assert_eq!(
        dest,
        "/data/downloads/movies/Star Wars_ Episode IV _ A New Hope (1977)/Star Wars_ Episode IV _ A New Hope (1977).mkv"
    );
    assert!(looks_organised(&dest, &cfg));
}

#[test]
fn filed_episode_looks_organised() {
    let cfg = config();
    let hit = TmdbTitle {
        id: 2,
        title: "Chef & My Fridge".into(),
        year: Some(2014),
    };
    let dest = tv_destination(&cfg, &hit, "Pilot. Part 1", 2, 7, "/x/ep.mp4").unwrap();
    assert_eq!(
        dest,
        "/data/downloads/tv/Chef & My Fridge (2014)/Season 02/Chef & My Fridge - S02E07 - Pilot. Part 1.mp4"
    );
    assert!(looks_organised(&dest, &cfg));
}

#[test]
fn short_year_is_not_recognised() {
    let cfg = config();
    let hit = TmdbTitle { id: 3, title: "Old".into(), year: Some(999) };
    let dest = movie_destination(&cfg, &hit, 999, "/x/a.mkv").unwrap();
    assert!(!looks_organised(&dest, &cfg));
}

#[test]
fn cleaned_names_are_safe() {
    let n = clean_download_filename("a%3Ab%2Fc%7Cd*e.mkv").unwrap();
    assert!(!n.chars().any(|c| ":*?\"<>|/\\".contains(c) || c.is_control()));
    assert_eq!(n, "c_d_e.mkv");
}

#[test]
fn status_and_type_names_round_trip() {
    for s in [
        TaskStatus::Pending,
        TaskStatus::Downloading,
        TaskStatus::Paused,
        TaskStatus::Completed,
        TaskStatus::Failed,
        TaskStatus::Removed,
    ] {
        assert_eq!(TaskStatus::parse(s.as_str()), s);
    }
    for t in [TaskType::Aria2, TaskType::Ytdlp] {
        assert_eq!(TaskType::parse(t.as_str()), t);
    }
}

#[test]
fn saved_settings_reload() {
    let mut saved = config();
    saved.cors_origins = vec!["https://a".into()];
    saved.webhook_url = Some("https://hook".into());
    let fc = saved.file_config();
    let mut loaded = config();
    loaded.token = String::new();
    loaded.webhook_url = None;
    loaded.merge_file_config(&fc);
    assert_eq!(loaded.token, saved.token);
    assert_eq!(loaded.cors_origins, saved.cors_origins);
    assert_eq!(loaded.webhook_url, saved.webhook_url);
}

#[test]
fn sidecars_follow_the_video() {
    let m = sidecar_moves("/d/inbox/a.b.mkv", "/d/movies/A (2020)/A (2020).mkv");
    assert_eq!(
        m,
        vec![
            ("/d/inbox/a.b.srt".to_string(), "/d/movies/A (2020)/A (2020).srt".to_string()),
            ("/d/inbox/a.b.ass".to_string(), "/d/movies/A (2020)/A (2020).ass".to_string()),
        ]
    );
    assert!(sidecar_moves("/", "/d/x.mkv").is_empty());
}

#[test]
fn task_video_files() {
    let t = Task {
        id: "i".into(),
        url: "u".into(),
        task_type: TaskType::Aria2,
        status: TaskStatus::Completed,
        backend_gid: None,
        category: String::new(),
        filename: Some("f.mkv".into()),
        save_path: Some("/d/inbox".into()),
        done_bytes: 0,
        total_bytes: 0,
        speed: 0,
        upload_speed: 0,
        connections: 0,
        num_seeders: 0,
        uploaded_bytes: 0,
        seeding: false,
        error: None,
        referer: None,
        quality: None,
        source: None,
        created_at: 0,
        updated_at: 0,
        completed_at: None,
    };
    let reported = Some(vec!["/d/x/a.nfo".to_string(), "/d/x/a.MKV".to_string()]);
    assert_eq!(task_files(&t, &reported), vec!["/d/x/a.MKV".to_string()]);
    let none = Some(vec!["/d/x/a.nfo".to_string()]);
    assert_eq!(task_files(&t, &none), vec!["/d/inbox/f.mkv".to_string()]);
    assert_eq!(task_files(&t, &None), vec!["/d/inbox/f.mkv".to_string()]);
}

#[test]
fn percent_decoding_reads_utf8() {
    assert_eq!(percent_decode("%C3%A9t%C3%A9+2024"), "\u{e9}t\u{e9} 2024");
    assert_eq!(percent_decode("\u{e9}t\u{e9}.mkv"), "\u{e9}t\u{e9}.mkv");
    assert_eq!(percent_decode("100%"), "100%");
    assert_eq!(percent_decode("%4\u{e9}"), "%4\u{e9}");
    assert_eq!(percent_decode("%+1x"), "% 1x");
    assert_eq!(percent_decode("%FF%20"), "\u{ff} ");
    assert_eq!(percent_decode("%a\u{e9}"), "%a\u{e9}");
    assert_eq!(percent_decode("caf%E9"), "caf\u{e9}");
}

#[test]
fn sanitized_names_are_clean() {
    assert_eq!(sanitize_name("  ..What:  If?\t\u{7}Now.. "), "What_ If___Now");
    assert_eq!(sanitize_name("a \u{3000} b"), "a b");
}

#[test]
fn parsed_names_are_well_formed() {
    match parse_filename("The_Show.Name.S01E09.1080p.mkv") {
        Some(Parsed::Tv { show, season, episode }) => {
            assert_eq!(show, "The Show Name");
            assert_eq!(season, 1);
            assert_eq!(episode, 9);
        },
        other => panic!("unexpected {:?}", other),
    }
    match parse_filename("Some.Movie.2012.1080p.mkv") {
        Some(Parsed::Movie { title, year }) => {
            assert_eq!(title, "Some Movie");
            assert_eq!(year, 2012);
        },
        other => panic!("unexpected {:?}", other),
    }
    assert!(parse_filename("no marker here.mkv").is_none());
}

#[test]
fn clean_download_filename_cases() {
    assert_eq!(clean_download_filename("path/to/README"), None);
    assert_eq!(clean_download_filename("  /  "), None);
    assert_eq!(
        clean_download_filename("abcdefgh-Film.2020.mkv").as_deref(),
        Some("Film.2020.mkv")
    );
    assert_eq!(clean_download_filename("short-Film.mkv").as_deref(), Some("short-Film.mkv"));
    assert_eq!(
        filename_from_url("https://h.example/d/%C3%A9t%C3%A9.mkv?x=1").as_deref(),
        Some("\u{e9}t\u{e9}.mkv")
    );
}
