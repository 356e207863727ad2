use vidget::error::ToolError;
use vidget::report::{info_outcome, parse_formats, parse_report, parse_title, parse_video_info};

const SAMPLE: &str = "site:                Bilibili
title:               A  sample video  
streams:             # Available quality and codecs
    [ DASH ] ____________________________________
    - format:        dash-flv480-AVC
      container:     mp4
      quality:       清晰 480P avc1.64001F
      size:          9.8 MiB (10276224 bytes)
    # download-with: you-get --format=dash-flv480-AVC [URL]

    - format:        dash-flv720-AVC
      container:     mp4
      quality:       高清 720P avc1.640028
      size:          25.6 MiB (26814576 bytes)
    # download-with: you-get --format=dash-flv720-AVC [URL]

    - format:        dash-flv360-AVC
      container:     mp4
      quality:       流畅 360P avc1.64001E
      size:          4.1 MiB (4299161 bytes)
";

#[test]
fn text_report_single_format() {
    let formats = parse_formats("- format: mp4\n quality: 1080P\n size: 11.4 MiB (11902362 bytes)");
    assert_eq!(formats.len(), 1);
    assert_eq!(formats[0].name, "mp4");
    assert_eq!(formats[0].quality.as_deref(), Some("1080P"));
    assert_eq!(formats[0].size, 11902362);
}

#[test]
fn title_is_trimmed() {
    assert_eq!(parse_title(SAMPLE).as_deref(), Some("A  sample video"));
}

#[test]
fn title_label_without_space() {
    assert_eq!(parse_title("site: x\ntitle:Tight\n").as_deref(), Some("Tight"));
}

#[test]
fn missing_title_is_none() {
    assert_eq!(parse_title("site: x\n- format: a\n"), None);
    assert_eq!(parse_title("title:\n\n"), None);
}

#[test]
fn title_label_anywhere() {
    assert_eq!(parse_title("a title: b").as_deref(), Some("b"));
    assert_eq!(parse_title("x\nsubtitle:  Deep \r\nz").as_deref(), Some("Deep"));
}

#[test]
fn title_value_on_next_line() {
    assert_eq!(parse_title("title:\n  foo \nbar").as_deref(), Some("foo"));
}

#[test]
fn title_of_spaces_only_is_empty() {
    assert_eq!(parse_title("title:   \n").as_deref(), Some(""));
}

#[test]
fn title_trims_unicode_whitespace() {
    assert_eq!(parse_title("title: \u{3000}Name\u{a0}\u{2003}\n").as_deref(), Some("Name"));
}

#[test]
fn unknown_title_placeholder() {
    let info = parse_report("- format: flv\n");
    assert_eq!(info.title, "未知标题");
    assert_eq!(info.formats.len(), 1);
}

#[test]
fn formats_sorted_by_size_descending() {
    let formats = parse_formats(SAMPLE);
    let names: Vec<&str> = formats.iter().map(|f| f.name.as_str()).collect();
    assert_eq!(names, vec!["dash-flv720-AVC", "dash-flv480-AVC", "dash-flv360-AVC"]);
    let sizes: Vec<u64> = formats.iter().map(|f| f.size).collect();
    assert_eq!(sizes, vec![26814576, 10276224, 4299161]);
    assert_eq!(formats[0].quality.as_deref(), Some("高清 720P avc1.640028"));
    for w in formats.windows(2) {
        assert!(w[0].size >= w[1].size);
    }
}

#[test]
fn equal_sizes_keep_listed_order() {
    let formats = parse_formats("- format: a\n- format: b\nsize: 1 B (5 bytes)\n- format: c\n");
    let names: Vec<&str> = formats.iter().map(|f| f.name.as_str()).collect();
    assert_eq!(names, vec!["b", "a", "c"]);
}

#[test]
fn fields_before_any_format_are_ignored() {
    let formats = parse_formats("quality: 720P\nsize: 1 MiB (1048576 bytes)\n- format: x\n");
    assert_eq!(formats.len(), 1);
    assert_eq!(formats[0].size, 0);
    assert_eq!(formats[0].quality, None);
}

#[test]
fn empty_report_has_no_formats() {
    assert!(parse_formats("").is_empty());
    assert!(parse_formats("\n\n# comment\n").is_empty());
}

#[test]
fn size_without_byte_count_is_ignored() {
    let formats = parse_formats("- format: x\nsize: 11.4 MiB\n");
    assert_eq!(formats[0].size, 0);
}

#[test]
fn largest_byte_count() {
    let formats = parse_formats("- format: x\nsize: 16 EiB (18446744073709551615 bytes)\n");
    assert_eq!(formats[0].size, u64::MAX);
    let formats = parse_formats("- format: x\nsize: 16 EiB (18446744073709551616 bytes)\n");
    assert_eq!(formats[0].size, 0);
}

#[test]
fn windows_line_endings() {
    let formats = parse_formats("- format: x\r\nquality: 480P\r\nsize: 1 KiB (1024 bytes)\r\n");
    assert_eq!(formats[0].name, "x");
    assert_eq!(formats[0].quality.as_deref(), Some("480P"));
    assert_eq!(formats[0].size, 1024);
}

#[test]
fn escape_sequences_are_removed_before_reading() {
    let raw = "\x1b[1mtitle:\x1b[0m               Colored\n\x1b[7m- format:\x1b[0m        flv\n";
    let info = parse_video_info(raw);
    assert_eq!(info.title, "Colored");
    assert_eq!(info.formats.len(), 1);
    assert_eq!(info.formats[0].name, "flv");
}

#[test]
fn info_failure_carries_stderr() {
    match info_outcome(false, "", "boom") {
        Err(e) => {
            assert!(matches!(e, ToolError::InfoFailed(ref m) if m == "boom"));
            assert_eq!(e.message(), "获取视频信息失败: boom");
        }
        Ok(_) => panic!("expected an error"),
    }
}

#[test]
fn info_success_reads_report() {
    let info = info_outcome(true, SAMPLE, "warning").ok().unwrap();
    assert_eq!(info.title, "A  sample video");
    assert_eq!(info.formats.len(), 3);
}

#[test]
fn format_label_anywhere_in_line() {
    let formats = parse_formats("x - format: y\n");
    assert_eq!(formats.len(), 1);
    assert_eq!(formats[0].name, "y");
    let formats = parse_formats("- format:z - format: w\n");
    assert_eq!(formats[0].name, "w");
}

#[test]
fn quality_label_anywhere_in_line() {
    let formats = parse_formats("- format: a\nxquality: q\n");
    assert_eq!(formats[0].quality.as_deref(), Some("q"));
}

#[test]
fn size_with_text_after_byte_count() {
    let formats = parse_formats("- format: a\nsize: 1 KiB (100 bytes) x\n");
    assert_eq!(formats[0].size, 100);
    let formats = parse_formats("- format: a\nsize: 1 KiB (100  bytes) (7 bytes)\n");
    assert_eq!(formats[0].size, 100);
}

#[test]
fn fields_on_one_line_apply_in_order() {
    let formats = parse_formats("- format: a quality: hd size: 1 (9 bytes)\n");
    assert_eq!(formats.len(), 1);
    assert_eq!(formats[0].name, "a");
    assert_eq!(formats[0].quality.as_deref(), Some("hd size: 1 (9 bytes)"));
    assert_eq!(formats[0].size, 0);
    let formats = parse_formats("- format: a quality: hd size: 1 B (9 bytes)\n");
    assert_eq!(formats[0].size, 9);
}

#[test]
fn size_needs_number_and_unit() {
    assert_eq!(parse_formats("- format: a\nsize: (5 bytes)\n")[0].size, 0);
    assert_eq!(parse_formats("- format: a\nsize: 1 (5 bytes)\n")[0].size, 0);
    assert_eq!(parse_formats("- format: a\nsize: 11.4MiB (5 bytes)\n")[0].size, 0);
    assert_eq!(parse_formats("- format: a\nsize: 11.4 MiB(5 bytes)\n")[0].size, 0);
    assert_eq!(parse_formats("- format: a\nsize: 11.4 MiB (5bytes)\n")[0].size, 0);
    assert_eq!(parse_formats("- format: a\nsize: 11.4 MiB (5 bytes)\n")[0].size, 5);
}

#[test]
fn leftmost_complete_size_field_counts() {
    let formats = parse_formats("- format: a\nsize: x size: 2 KiB (2048 bytes)\n");
    assert_eq!(formats[0].size, 2048);
}

#[test]
fn unicode_whitespace_is_trimmed_from_lines() {
    let formats = parse_formats("\u{a0}- format:\u{2003}mp4\u{3000}\n quality:\u{a0}720P\u{a0}\n");
    assert_eq!(formats[0].name, "mp4");
    assert_eq!(formats[0].quality.as_deref(), Some("720P"));
}

#[test]
fn two_formats_of_size_zero_keep_order() {
    let formats = parse_formats("- format: a\n- format: b");
    let names: Vec<&str> = formats.iter().map(|f| f.name.as_str()).collect();
    assert_eq!(names, vec!["a", "b"]);
    assert!(formats.iter().all(|f| f.size == 0 && f.quality.is_none()));
}

#[test]
fn unfinished_escape_sequence_is_kept() {
    let info = parse_video_info("title: \x1b[1;31mRed\x1b[0m x\x1b[12\n");
    assert_eq!(info.title, "Red x\x1b[12");
}
