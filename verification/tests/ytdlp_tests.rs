use dlsrv::ytdlp::{
    first_line_trimmed, on_output_line, progress_captures, quality_format, DownloadOpts,
    LineAction, YtdlpRunner,
};

fn runner(use_aria2: bool, secret: &str, cookies: Option<&str>) -> YtdlpRunner {
    YtdlpRunner {
        binary: "yt-dlp".into(),
        ffmpeg_path: String::new(),
        aria2_secret: secret.into(),
        use_aria2,
        quality: "best".into(),
        cookies_file: cookies.map(String::from),
    }
}

#[test]
fn quality_presets() {
    assert_eq!(quality_format("best"), "bestvideo+bestaudio/best");
    assert_eq!(
        quality_format("1080p"),
        "bestvideo[height<=1080]+bestaudio/best[height<=1080]"
    );
    assert_eq!(
        quality_format("720"),
        "bestvideo[height<=720]+bestaudio/best[height<=720]"
    );
    assert_eq!(
        quality_format("480p"),
        "bestvideo[height<=480]+bestaudio/best[height<=480]"
    );
    assert_eq!(quality_format("audio"), "bestaudio/best");
    assert_eq!(quality_format("worst"), "worst");
}

#[test]
fn download_arguments_plain() {
    let r = runner(false, "", None);
    let args = r.download_args(&DownloadOpts {
        url: "https://youtu.be/x".into(),
        output_dir: "/d/inbox".into(),
        referer: None,
        quality: Some("audio".into()),
    });
    assert_eq!(
        args,
        vec![
            "--newline",
            "--no-playlist",
            "--continue",
            "-f",
            "bestaudio/best",
            "-o",
            "/d/inbox/%(title)s.%(ext)s",
            "--print",
            "after_move:filepath",
            "https://youtu.be/x",
        ]
    );
}

#[test]
fn download_arguments_full() {
    let r = runner(true, "sec", Some("/c/cookies.txt"));
    let args = r.download_args(&DownloadOpts {
        url: "u".into(),
        output_dir: "/d/".into(),
        referer: Some("https://ref/".into()),
        quality: None,
    });
    assert_eq!(
        args,
        vec![
            "--newline",
            "--no-playlist",
            "--continue",
            "-f",
            "bestvideo+bestaudio/best",
            "-o",
            "/d/%(title)s.%(ext)s",
            "--print",
            "after_move:filepath",
            "--external-downloader",
            "aria2c",
            "--external-downloader-args",
            "-x 16 -s 16 -k 1M --rpc-secret=sec",
            "--referer",
            "https://ref/",
            "--cookies",
            "/c/cookies.txt",
            "u",
        ]
    );
}

#[test]
fn empty_cookies_file_is_not_passed() {
    let r = runner(true, "", Some(""));
    let args = r.download_args(&DownloadOpts {
        url: "u".into(),
        output_dir: "d".into(),
        referer: None,
        quality: None,
    });
    assert!(args.contains(&"-x 16 -s 16 -k 1M".to_string()));
    assert!(!args.contains(&"--cookies".to_string()));
    assert_eq!(args[6], "d/%(title)s.%(ext)s");
}

#[test]
fn version_text_first_line() {
    assert_eq!(first_line_trimmed("  2024.10.22 \r\nmore\n"), "2024.10.22");
    assert_eq!(first_line_trimmed(""), "");
}

#[test]
fn progress_line_pieces() {
    let c = progress_captures("[download]  42.5% of 1.20GiB at  3.50MiB/s ETA 00:10").unwrap();
    assert_eq!(c.percent, "42.5");
    assert_eq!(c.total, "1.20");
    assert_eq!(c.total_unit, "GiB");
    assert_eq!(c.speed, "3.50");
    assert_eq!(c.speed_unit, "MiB");
    let b = progress_captures("[download] 100% of 512B at 1KiB/s").unwrap();
    assert_eq!(b.total_unit, "B");
    assert_eq!(b.speed_unit, "KiB");
    assert!(progress_captures("[download] Destination: x.mkv").is_none());
    assert!(progress_captures("[download] 10% of ~ 5MiB at 1MiB/s").is_none());
}

#[test]
fn output_lines_drive_progress() {
    let mut final_file: Option<String> = None;
    assert!(matches!(on_output_line(&mut final_file, ""), LineAction::Nothing));
    match on_output_line(&mut final_file, "[download]  5.0% of 10.00MiB at 1.00MiB/s") {
        LineAction::Progress { caps, file_name } => {
            assert_eq!(caps.percent, "5.0");
            assert_eq!(file_name, None);
        }
        _ => panic!("progress"),
    }
    match on_output_line(&mut final_file, "/d/inbox/Video.mp4") {
        LineAction::Finished { file_name } => assert_eq!(file_name, "Video.mp4"),
        _ => panic!("finished"),
    }
    assert_eq!(final_file, Some("/d/inbox/Video.mp4".to_string()));
    match on_output_line(&mut final_file, "[download] 100.0% of 10.00MiB at 1.00MiB/s") {
        LineAction::Progress { file_name, .. } => {
            assert_eq!(file_name, Some("Video.mp4".to_string()))
        }
        _ => panic!("progress"),
    }
    assert!(matches!(
        on_output_line(&mut final_file, "relative/path.mp4"),
        LineAction::Nothing
    ));
    assert!(matches!(
        on_output_line(&mut final_file, "[Merger] Merging formats"),
        LineAction::Nothing
    ));
}

#[test]
fn referer_passed_only_when_given() {
    let r = runner(true, "s", None);
    let with = r.download_args(&DownloadOpts {
        url: "u".into(),
        output_dir: "/d".into(),
        referer: Some("https://ref/".into()),
        quality: None,
    });
    let without = r.download_args(&DownloadOpts {
        url: "u".into(),
        output_dir: "/d".into(),
        referer: None,
        quality: None,
    });
    assert_eq!(with[13], "--referer");
    assert_eq!(with[14], "https://ref/");
    assert!(!without.iter().any(|a| a == "--referer"));
    let mut rebuilt = without.clone();
    rebuilt.insert(13, "https://ref/".to_string());
    rebuilt.insert(13, "--referer".to_string());
    assert_eq!(rebuilt, with);
}
