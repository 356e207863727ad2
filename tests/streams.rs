use vidget::error::ToolError;
use vidget::streams::{
    decimal_text, json_outcome, json_report_info, stream_format, JsonReport, NamedStream, StreamDescriptor,
};

fn descriptor() -> StreamDescriptor {
    StreamDescriptor { size: None, file_sizes: None, quality: None, height: None }
}

fn named(name: &str, stream: StreamDescriptor) -> NamedStream {
    NamedStream { name: name.to_string(), stream }
}

#[test]
fn json_report_with_height() {
    let streams = vec![named("dash-hd", StreamDescriptor { size: Some(500), height: Some(720), ..descriptor() })];
    let info = json_report_info(Some("T".to_string()), &streams);
    assert_eq!(info.title, "T");
    assert_eq!(info.formats.len(), 1);
    assert_eq!(info.formats[0].name, "dash-hd");
    assert_eq!(info.formats[0].size, 500);
    assert_eq!(info.formats[0].quality.as_deref(), Some("720P"));
}

#[test]
fn multi_file_size_is_summed() {
    let s = named("flv", StreamDescriptor { file_sizes: Some(vec![Some(100), Some(200)]), ..descriptor() });
    assert_eq!(stream_format(&s).size, 300);
    let s = named("flv", StreamDescriptor { file_sizes: Some(vec![Some(100), None, Some(5)]), ..descriptor() });
    assert_eq!(stream_format(&s).size, 105);
}

#[test]
fn own_size_wins_over_parts() {
    let s = named("x", StreamDescriptor { size: Some(7), file_sizes: Some(vec![Some(100)]), ..descriptor() });
    assert_eq!(stream_format(&s).size, 7);
}

#[test]
fn parts_sum_saturates() {
    let s = named("x", StreamDescriptor { file_sizes: Some(vec![Some(u64::MAX), Some(1)]), ..descriptor() });
    assert_eq!(stream_format(&s).size, u64::MAX);
}

#[test]
fn no_size_and_no_quality() {
    let f = stream_format(&named("x", descriptor()));
    assert_eq!(f.size, 0);
    assert_eq!(f.quality, None);
}

#[test]
fn quality_string_wins_over_height() {
    let s = named("x", StreamDescriptor { quality: Some("高清 1080P".to_string()), height: Some(1080), ..descriptor() });
    assert_eq!(stream_format(&s).quality.as_deref(), Some("高清 1080P"));
}

#[test]
fn decimal_rendering() {
    assert_eq!(decimal_text(0), "0");
    assert_eq!(decimal_text(720), "720");
    assert_eq!(decimal_text(u64::MAX), "18446744073709551615");
}

#[test]
fn json_formats_sorted_and_title_defaulted() {
    let streams = vec![
        named("a", StreamDescriptor { size: Some(1), ..descriptor() }),
        named("b", StreamDescriptor { size: Some(30), ..descriptor() }),
        named("c", StreamDescriptor { file_sizes: Some(vec![Some(10), Some(10)]), ..descriptor() }),
    ];
    let info = json_report_info(None, &streams);
    assert_eq!(info.title, "未知标题");
    let names: Vec<&str> = info.formats.iter().map(|f| f.name.as_str()).collect();
    assert_eq!(names, vec!["b", "c", "a"]);
}

#[test]
fn json_outcome_errors() {
    let r = json_outcome(false, "bad url", Err("ignored".to_string()));
    assert!(matches!(r, Err(ToolError::InfoFailed(ref m)) if m == "bad url"));
    let r = json_outcome(true, "", Err("expected value at line 1".to_string()));
    let e = r.err().unwrap();
    assert!(matches!(e, ToolError::MalformedOutput(ref m) if m == "expected value at line 1"));
    assert_eq!(e.message(), "Malformed tool output: expected value at line 1");
    let report = JsonReport { title: Some("T".to_string()), streams: vec![named("x", descriptor())] };
    let info = json_outcome(true, "", Ok(report)).ok().unwrap();
    assert_eq!(info.title, "T");
    assert_eq!(info.formats.len(), 1);
}
