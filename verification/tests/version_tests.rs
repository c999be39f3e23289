use dlsrv::version::{
    aria2_outdated, aria2_report, binary_info, cache_is_fresh, ffmpeg_outdated, ver_key,
    ytdlp_outdated, Helper,
};

#[test]
fn ver_key_pads_three_parts() {
    assert_eq!(ver_key("1.37.0"), "001037000");
    assert_eq!(ver_key("7.1"), "007001000");
    assert_eq!(ver_key("x.2.3.4"), "000002003");
    assert_eq!(ver_key(""), "000000000");
    assert_eq!(ver_key("1234.5"), "1234005000");
}

#[test]
fn aria2_release_tags() {
    assert!(aria2_outdated("1.36.0", "release-1.37.0"));
    assert!(!aria2_outdated("1.37.0 extra words", "release-1.37.0"));
    assert!(aria2_outdated("1.9.0", "n1.10.0"));
    assert!(!aria2_outdated("1.37.0", "1.36.9"));
}

#[test]
fn ytdlp_dates() {
    assert!(ytdlp_outdated("2024.08.06", "2024.10.22"));
    assert!(!ytdlp_outdated("2024.10.22", "2024.10.22"));
    assert!(!ytdlp_outdated("unknown", "2024.10.22"));
    assert!(ytdlp_outdated("yt-dlp 2023.01.01 (pip)", "v2024.01.01"));
}

#[test]
fn ffmpeg_versions() {
    assert!(ffmpeg_outdated(
        "ffmpeg version 6.1.1 Copyright (c) 2000-2023",
        "n7.1"
    ));
    assert!(!ffmpeg_outdated("ffmpeg version 7.1 Copyright", "n7.1"));
    assert!(!ffmpeg_outdated("ffmpeg version n7.0-static", "n7.1"));
    assert!(!ffmpeg_outdated("ffmpeg version 6.0", "latest"));
    assert!(ffmpeg_outdated("built ffmpeg version 4.4.2-0ubuntu", "autobuild n5.1.2"));
}

#[test]
fn binary_info_reports() {
    let ok = binary_info(
        Helper::Ytdlp,
        Ok("2024.01.01".into()),
        Some("2024.02.02".into()),
    );
    assert_eq!(ok.name, "yt-dlp");
    assert_eq!(ok.installed, "2024.01.01");
    assert!(ok.update_available);
    assert_eq!(ok.error, None);
    let err = binary_info(Helper::Ffmpeg, Err("not found".into()), None);
    assert_eq!(err.name, "ffmpeg");
    assert_eq!(err.installed, "");
    assert!(!err.update_available);
    assert_eq!(err.error, Some("not found".to_string()));
}

#[test]
fn aria2_report_lines() {
    assert_eq!(aria2_report(&None, &Some("release-1.37.0".into())), (None, false));
    assert_eq!(
        aria2_report(&Some("1.36.0".into()), &Some("release-1.37.0".into())),
        (Some("release-1.37.0".to_string()), true)
    );
    assert_eq!(aria2_report(&Some("1.36.0".into()), &None), (None, false));
}

#[test]
fn health_cache_window() {
    assert!(cache_is_fresh(899_999));
    assert!(!cache_is_fresh(900_000));
}
