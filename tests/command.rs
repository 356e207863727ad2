use vidget::command::{download_args, info_args, parse_progress, ReportFormat, PROGRESS_EVENT};

#[test]
fn progress_lines_are_recognized() {
    let p = parse_progress("Downloading video.mp4 ...").unwrap();
    assert_eq!(p.message, "Downloading video.mp4 ...");
    assert!(parse_progress(" 42.1% ( 10.3/ 24.4MB) ├██████──┤[1/1] Downloading").is_some());
    assert!(parse_progress("Merging video parts...").is_none());
    assert!(parse_progress("downloading").is_none());
    assert!(parse_progress("").is_none());
    assert_eq!(PROGRESS_EVENT, "download-progress");
}

#[test]
fn caption_flag_only_for_caption_sites() {
    let other = download_args("https://www.youtube.com/watch?v=x", "mp4", &None, &None, true);
    assert!(!other.iter().any(|a| a == "--no-caption"));
    let bili = download_args("https://www.bilibili.com/video/BV1", "dash-flv720", &None, &None, true);
    assert!(bili.iter().any(|a| a == "--no-caption"));
    let bili_kept = download_args("https://www.bilibili.com/video/BV1", "dash-flv720", &None, &None, false);
    assert!(!bili_kept.iter().any(|a| a == "--no-caption"));
}

#[test]
fn full_download_command_line() {
    let args = download_args(
        "https://www.bilibili.com/video/BV1",
        "dash-flv720",
        &Some("/tmp/out".to_string()),
        &Some("/tmp/cookies.txt".to_string()),
        true,
    );
    assert_eq!(
        args,
        vec![
            "--debug",
            "--format",
            "dash-flv720",
            "--no-caption",
            "-o",
            "/tmp/out",
            "--cookies",
            "/tmp/cookies.txt",
            "https://www.bilibili.com/video/BV1",
        ]
    );
}

#[test]
fn empty_optional_paths_are_left_out() {
    let args = download_args("u", "f", &Some(String::new()), &Some(String::new()), false);
    assert_eq!(args, vec!["--debug", "--format", "f", "u"]);
}

#[test]
fn info_command_line() {
    assert_eq!(info_args("u", &None, ReportFormat::Text), vec!["--info", "u"]);
    assert_eq!(
        info_args("u", &Some("c.txt".to_string()), ReportFormat::Text),
        vec!["--info", "u", "--cookies", "c.txt"]
    );
    assert_eq!(info_args("u", &Some(String::new()), ReportFormat::Text), vec!["--info", "u"]);
    assert_eq!(info_args("u", &Some("c.txt".to_string()), ReportFormat::Json), vec!["--json", "u", "--cookies", "c.txt"]);
}
