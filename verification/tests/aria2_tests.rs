use dlsrv::aria2::{
    download_options, is_metadata_status, is_seeder, map_status, parse_i64, token_param,
    AddOptions, Aria2File, Aria2Status, BtSettings, MagnetSearch, OptionValue, BROWSER_UA,
};
use dlsrv::store::TaskStatus;

fn status(info_hash: &str, total: &str, files: &[&str], followed_by: &[&str]) -> Aria2Status {
    Aria2Status {
        _gid: String::new(),
        status: "active".into(),
        total_length: total.into(),
        completed_length: "0".into(),
        download_speed: "0".into(),
        upload_speed: "0".into(),
        connections: "0".into(),
        num_seeders: "0".into(),
        upload_length: "0".into(),
        files: files.iter().map(|p| Aria2File { path: p.to_string() }).collect(),
        error_message: String::new(),
        followed_by: followed_by.iter().map(|s| s.to_string()).collect(),
        following: String::new(),
        info_hash: info_hash.into(),
        seeder: String::new(),
    }
}

#[test]
fn map_status_words() {
    assert_eq!(map_status("complete"), TaskStatus::Completed);
    assert_eq!(map_status("ERROR"), TaskStatus::Failed);
    assert_eq!(map_status("Paused"), TaskStatus::Paused);
    assert_eq!(map_status("active"), TaskStatus::Downloading);
    assert_eq!(map_status("waiting"), TaskStatus::Downloading);
}

#[test]
fn parse_i64_falls_back_to_zero() {
    assert_eq!(parse_i64("12345"), 12345);
    assert_eq!(parse_i64("-7"), -7);
    assert_eq!(parse_i64("+8"), 8);
    assert_eq!(parse_i64(""), 0);
    assert_eq!(parse_i64("12a"), 0);
    assert_eq!(parse_i64("9223372036854775807"), i64::MAX);
    assert_eq!(parse_i64("9223372036854775808"), 0);
    assert_eq!(parse_i64("-9223372036854775808"), i64::MIN);
}

#[test]
fn seeder_flag() {
    let mut st = status("h", "1", &[], &[]);
    st.seeder = "TRUE".into();
    assert!(is_seeder(&st));
    st.seeder = "1".into();
    assert!(is_seeder(&st));
    st.seeder = "false".into();
    assert!(!is_seeder(&st));
}

#[test]
fn metadata_status_by_first_file() {
    assert!(is_metadata_status(&status("h", "1", &["[METADATA]abc"], &[])));
    assert!(!is_metadata_status(&status("h", "1", &["/d/movie.mkv", "[METADATA]"], &[])));
    assert!(!is_metadata_status(&status("h", "1", &[], &[])));
}

#[test]
fn magnet_search_empty_hash_is_none() {
    assert!(MagnetSearch::new("   ").is_none());
}

#[test]
fn magnet_search_prefers_first_largest() {
    let mut s = MagnetSearch::new(" ABCDEF ").unwrap();
    assert_eq!(s.step("g0".into(), &status("other", "999", &[], &[])), None);
    assert_eq!(s.step("g1".into(), &status("abcdef", "10", &[], &[])), None);
    assert_eq!(s.step("g2".into(), &status("ABCDEF", "30", &[], &[])), None);
    assert_eq!(s.step("g3".into(), &status("abcdef", "30", &[], &[])), None);
    assert_eq!(s.step("m".into(), &status("abcdef", "0", &["[METADATA]x"], &[])), None);
    assert_eq!(s.finish(), Some("g2".to_string()));
}

#[test]
fn magnet_search_metadata_only() {
    let mut s = MagnetSearch::new("abc").unwrap();
    assert_eq!(s.step("m1".into(), &status("abc", "0", &["[METADATA]x"], &[])), None);
    assert_eq!(s.step("m2".into(), &status("abc", "0", &["[METADATA]y"], &[])), None);
    assert_eq!(s.finish(), Some("m2".to_string()));
}

#[test]
fn magnet_search_follows_at_once() {
    let mut s = MagnetSearch::new("abc").unwrap();
    assert_eq!(
        s.step("m".into(), &status("abc", "0", &["[METADATA]x"], &["content"])),
        Some("content".to_string())
    );
}

fn text(v: &OptionValue) -> String {
    match v {
        OptionValue::Text(s) => s.clone(),
        OptionValue::List(_) => panic!("list"),
    }
}

#[test]
fn plain_download_options() {
    let opts = AddOptions {
        dir: "/d/inbox".into(),
        referer: Some("https://a.org/".into()),
        filename: Some("f.mkv".into()),
        cookies: Some("k=v".into()),
        bt: false,
        bt_settings: None,
    };
    let o = download_options(opts);
    assert_eq!(o.len(), 4);
    assert_eq!(o[0].0, "dir");
    assert_eq!(text(&o[0].1), "/d/inbox");
    assert_eq!(o[1].0, "header");
    match &o[1].1 {
        OptionValue::List(h) => {
            assert_eq!(h.len(), 2);
            assert_eq!(h[0], format!("User-Agent: {BROWSER_UA}"));
            assert_eq!(h[1], "Cookie: k=v");
        }
        _ => panic!("header"),
    }
    assert_eq!(o[2].0, "referer");
    assert_eq!(text(&o[2].1), "https://a.org/");
    assert_eq!(o[3].0, "out");
    assert_eq!(text(&o[3].1), "f.mkv");
}

#[test]
fn empty_cookies_are_not_sent() {
    let opts = AddOptions {
        dir: "/d".into(),
        referer: None,
        filename: None,
        cookies: Some(String::new()),
        bt: false,
        bt_settings: None,
    };
    let o = download_options(opts);
    assert_eq!(o.len(), 2);
    match &o[1].1 {
        OptionValue::List(h) => assert_eq!(h.len(), 1),
        _ => panic!("header"),
    }
}

#[test]
fn bt_download_options() {
    let opts = AddOptions {
        dir: "/d/tv".into(),
        referer: Some("ignored".into()),
        filename: None,
        cookies: None,
        bt: true,
        bt_settings: Some(BtSettings {
            seed_ratio_text: "1.50".into(),
            seed_time: 60,
            max_peers: 55,
            max_upload_limit: 0,
            max_download_limit: -1,
        }),
    };
    let o = download_options(opts);
    let pairs: Vec<(String, String)> = o.iter().map(|(k, v)| (k.clone(), text(v))).collect();
    assert_eq!(
        pairs,
        vec![
            ("dir".to_string(), "/d/tv".to_string()),
            ("bt-save-metadata".to_string(), "true".to_string()),
            ("seed-ratio".to_string(), "1.50".to_string()),
            ("seed-time".to_string(), "60".to_string()),
            ("bt-max-peers".to_string(), "55".to_string()),
            ("max-upload-limit".to_string(), "0".to_string()),
            ("max-download-limit".to_string(), "-1".to_string()),
        ]
    );
}

#[test]
fn rpc_token() {
    assert_eq!(token_param(""), None);
    assert_eq!(token_param("s3"), Some("token:s3".to_string()));
}

#[test]
fn download_option_keys_are_distinct() {
    let bt = AddOptions {
        dir: "/d".into(),
        referer: None,
        filename: None,
        cookies: None,
        bt: true,
        bt_settings: Some(dlsrv::aria2::BtSettings {
            seed_ratio_text: "1.00".into(),
            seed_time: 0,
            max_peers: 55,
            max_upload_limit: 0,
            max_download_limit: 0,
        }),
    };
    let plain = AddOptions {
        dir: "/d".into(),
        referer: Some("r".into()),
        filename: Some("f".into()),
        cookies: Some("c=1".into()),
        bt: false,
        bt_settings: None,
    };
    for opts in [bt, plain] {
        let o = download_options(opts);
        let mut keys: Vec<String> = o.iter().map(|(k, _)| k.clone()).collect();
        let n = keys.len();
        keys.sort();
        keys.dedup();
        assert_eq!(keys.len(), n);
    }
}
