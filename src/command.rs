//! The command lines given to the tool, and the progress lines read back from it.
use vstd::prelude::*;
use crate::text::{contains, contains_seq, opt_view};

verus! {

/// The name of the event that carries progress lines to the front end.
pub const PROGRESS_EVENT: &'static str = "download-progress";

/// One line of the tool's output that reports transfer progress.
#[derive(Debug)]
pub struct DownloadProgress {
    pub message: String,
}

/// Progress lines are those that mention an ongoing transfer.
pub open spec fn is_progress_line(line: Seq<char>) -> bool {
    contains_seq(line, "Downloading"@)
}

/// The progress event for a line of output, if the line reports progress.
pub fn parse_progress(line: &str) -> (r: Option<DownloadProgress>)
    ensures
        r is Some <==> is_progress_line(line@),
        r matches Some(p) ==> p.message@ == line@,
{
    if contains(line, "Downloading") {
        Some(DownloadProgress { message: line.to_owned() })
    } else {
        None
    }
}

/// Sites whose downloads come with captions that can be turned off.
pub open spec fn is_caption_site(url: Seq<char>) -> bool {
    contains_seq(url, "bilibili.com"@)
}

/// A flag and its value, where a non-empty value was given.
pub open spec fn flag_with_value(flag: Seq<char>, value: Option<Seq<char>>) -> Seq<Seq<char>> {
    match value {
        Some(v) => if v.len() > 0 {
            seq![flag, v]
        } else {
            seq![]
        },
        None => seq![],
    }
}

pub open spec fn arg_views(v: Seq<String>) -> Seq<Seq<char>> {
    v.map_values(|s: String| s@)
}

/// The arguments of a download: verbose output, the format, the caption
/// flag where the site takes it and it was asked for, the output directory and
/// the cookie file where given, and the URL last.
pub open spec fn download_arg_list(
    url: Seq<char>,
    format: Seq<char>,
    output_path: Option<Seq<char>>,
    cookies_path: Option<Seq<char>>,
    no_caption: bool,
) -> Seq<Seq<char>> {
    seq!["--debug"@, "--format"@, format] + (if no_caption && is_caption_site(url) {
        seq!["--no-caption"@]
    } else {
        seq![]
    }) + flag_with_value("-o"@, output_path) + flag_with_value("--cookies"@, cookies_path) + seq![
        url,
    ]
}

/// Which report the tool is asked for on an info request.
#[derive(Debug, Clone, Copy, PartialEq, Eq, Structural)]
pub enum ReportFormat {
    /// The human-readable `--info` report.
    Text,
    /// The machine-readable `--json` report.
    Json,
}

pub open spec fn report_flag(format: ReportFormat) -> Seq<char> {
    match format {
        ReportFormat::Text => "--info"@,
        ReportFormat::Json => "--json"@,
    }
}

/// The arguments of an info request: the report flag, the URL, and the
/// cookie file where given.
pub open spec fn info_arg_list(
    url: Seq<char>,
    cookies_path: Option<Seq<char>>,
    format: ReportFormat,
) -> Seq<Seq<char>> {
    seq![report_flag(format), url] + flag_with_value("--cookies"@, cookies_path)
}

fn push_flag_with_value(args: &mut Vec<String>, flag: &str, value: &Option<String>)
    ensures
        arg_views(final(args)@) == arg_views(old(args)@) + flag_with_value(flag@, opt_view(*value)),
{
    let ghost before = args@;
    match value {
        Some(v) => {
            if !v.as_str().is_empty() {
                args.push(flag.to_owned());
                args.push(v.clone());
                assert(arg_views(args@) =~= arg_views(before) + seq![flag@, v@]);
                return ;
            }
        },
        None => {},
    }
    assert(arg_views(args@) =~= arg_views(before) + flag_with_value(flag@, opt_view(*value)));
}

/// The command line of a download.
pub fn download_args(
    url: &str,
    format: &str,
    output_path: &Option<String>,
    cookies_path: &Option<String>,
    no_caption: bool,
) -> (r: Vec<String>)
    ensures
        arg_views(r@) == download_arg_list(
            url@,
            format@,
            opt_view(*output_path),
            opt_view(*cookies_path),
            no_caption,
        ),
{
    let mut args: Vec<String> = Vec::new();
    args.push("--debug".to_owned());
    args.push("--format".to_owned());
    args.push(format.to_owned());
    let ghost head = args@;
    assert(arg_views(head) =~= seq!["--debug"@, "--format"@, format@]);
    if no_caption && contains(url, "bilibili.com") {
        args.push("--no-caption".to_owned());
    }
    let ghost caption = args@;
    assert(arg_views(caption) =~= arg_views(head) + (if no_caption && is_caption_site(url@) {
        seq!["--no-caption"@]
    } else {
        seq![]
    }));
    push_flag_with_value(&mut args, "-o", output_path);
    push_flag_with_value(&mut args, "--cookies", cookies_path);
    let ghost before_url = args@;
    args.push(url.to_owned());
    assert(arg_views(args@) =~= arg_views(before_url) + seq![url@]);
    args
}

/// The command line of an info request.
pub fn info_args(url: &str, cookies_path: &Option<String>, format: ReportFormat) -> (r: Vec<String>)
    ensures
        arg_views(r@) == info_arg_list(url@, opt_view(*cookies_path), format),
{
    let mut args: Vec<String> = Vec::new();
    match format {
        ReportFormat::Text => args.push("--info".to_owned()),
        ReportFormat::Json => args.push("--json".to_owned()),
    }
    args.push(url.to_owned());
    assert(arg_views(args@) =~= seq![report_flag(format), url@]);
    push_flag_with_value(&mut args, "--cookies", cookies_path);
    args
}

/// With caption suppression asked for, the download command line holds the
/// no-caption flag exactly when the URL is of a caption-bearing site (provided
/// no caller-supplied argument is that flag itself).
pub proof fn lemma_caption_flag_gating(
    url: Seq<char>,
    format: Seq<char>,
    output_path: Option<Seq<char>>,
    cookies_path: Option<Seq<char>>,
)
    requires
        url != "--no-caption"@,
        format != "--no-caption"@,
        output_path != Some("--no-caption"@),
        cookies_path != Some("--no-caption"@),
    ensures
        download_arg_list(url, format, output_path, cookies_path, true).contains("--no-caption"@)
            <==> is_caption_site(url),
{
    reveal_strlit("--no-caption");
    reveal_strlit("--debug");
    reveal_strlit("--format");
    reveal_strlit("-o");
    reveal_strlit("--cookies");
    let flag = "--no-caption"@;
    let args = download_arg_list(url, format, output_path, cookies_path, true);
    let head = seq!["--debug"@, "--format"@, format];
    let out = flag_with_value("-o"@, output_path);
    let cookies = flag_with_value("--cookies"@, cookies_path);
    assert("--debug"@ != flag) by {
        assert("--debug"@.len() != flag.len());
    }
    assert("--format"@ != flag) by {
        assert("--format"@.len() != flag.len());
    }
    assert("-o"@ != flag) by {
        assert("-o"@.len() != flag.len());
    }
    assert("--cookies"@ != flag) by {
        assert("--cookies"@.len() != flag.len());
    }
    if is_caption_site(url) {
        assert(args[3] == flag);
    } else {
        assert(args =~= head + out + cookies + seq![url]);
        assert forall|k: int| 0 <= k < args.len() implies args[k] != flag by {
            if k < 3 {
                assert(args[k] == head[k]);
            } else if k < 3 + out.len() {
                assert(args[k] == out[k - 3]);
            } else if k < 3 + out.len() + cookies.len() {
                assert(args[k] == cookies[k - 3 - out.len()]);
            } else {
                assert(args[k] == url);
            }
        }
    }
}

} // verus!
