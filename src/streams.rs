//! The tool's machine-readable `--json` report, once decoded: a title and a
//! mapping from format identifiers to stream descriptors.
use vstd::prelude::*;
use vstd::string::{StrSliceExecFns, StringExecFns};
use crate::error::ToolError;
use crate::report::{format_views, same_order_within_sizes, sizes_descending, FormatInfo, FormatView, VideoInfo};
use crate::text::opt_view;

verus! {

/// What a stream descriptor of the report says, field by field.
#[derive(Debug)]
pub struct StreamDescriptor {
    /// The stream's `size`, where it is a number.
    pub size: Option<u64>,
    /// For a stream made of parts: each part's `size`, where it has one.
    pub file_sizes: Option<Vec<Option<u64>>>,
    /// The stream's `quality`, where it is a string.
    pub quality: Option<String>,
    /// The stream's `height`, where it is a number.
    pub height: Option<u64>,
}

/// One entry of the report's stream mapping.
#[derive(Debug)]
pub struct NamedStream {
    pub name: String,
    pub stream: StreamDescriptor,
}

/// The sum of the parts' sizes, counting a part without one as nothing.
pub open spec fn parts_total(sizes: Seq<Option<u64>>) -> nat
    decreases sizes.len(),
{
    if sizes.len() == 0 {
        0
    } else {
        parts_total(sizes.drop_last()) + match sizes.last() {
            Some(n) => n as nat,
            None => 0,
        }
    }
}

/// A stream's size: its own, else the sum over its parts (held at the largest
/// 64-bit value), else zero.
pub open spec fn stream_size(d: StreamDescriptor) -> nat {
    match d.size {
        Some(n) => n as nat,
        None => match d.file_sizes {
            Some(f) => if parts_total(f@) <= u64::MAX {
                parts_total(f@)
            } else {
                u64::MAX as nat
            },
            None => 0,
        },
    }
}

pub open spec fn digit_char(d: nat) -> char {
    "0123456789"@[d as int]
}

/// The decimal digits of `n`.
pub open spec fn decimal(n: nat) -> Seq<char>
    decreases n,
{
    if n < 10 {
        seq![digit_char(n)]
    } else {
        decimal(n / 10).push(digit_char(n % 10))
    }
}

/// A stream's quality label: its own, else `<height>P`, else none.
pub open spec fn stream_quality(d: StreamDescriptor) -> Option<Seq<char>> {
    match d.quality {
        Some(q) => Some(q@),
        None => match d.height {
            Some(h) => Some(decimal(h as nat) + "P"@),
            None => None,
        },
    }
}

pub open spec fn stream_view(e: NamedStream) -> FormatView {
    FormatView { name: e.name@, size: stream_size(e.stream), quality: stream_quality(e.stream) }
}

pub open spec fn stream_views(v: Seq<NamedStream>) -> Seq<FormatView> {
    v.map_values(|e: NamedStream| stream_view(e))
}

fn digit_text(d: u64) -> (r: &'static str)
    requires
        d < 10,
    ensures
        r@ == seq![digit_char(d as nat)],
{
    proof {
        reveal_strlit("0123456789");
    }
    let r = "0123456789".substring_char(d as usize, d as usize + 1);
    assert(r@ =~= seq![digit_char(d as nat)]);
    r
}

/// `n` written in decimal.
pub fn decimal_text(n: u64) -> (r: String)
    ensures
        r@ == decimal(n as nat),
    decreases n,
{
    if n < 10 {
        digit_text(n).to_owned()
    } else {
        let r = decimal_text(n / 10).concat(digit_text(n % 10));
        assert(r@ =~= decimal((n / 10) as nat).push(digit_char((n % 10) as nat)));
        r
    }
}

fn parts_sum(sizes: &Vec<Option<u64>>) -> (r: u64)
    ensures
        r as nat == if parts_total(sizes@) <= u64::MAX {
            parts_total(sizes@)
        } else {
            u64::MAX as nat
        },
{
    let mut total: u64 = 0;
    let mut i: usize = 0;
    while i < sizes.len()
        invariant
            i <= sizes.len(),
            parts_total(sizes@.subrange(0, i as int)) <= u64::MAX,
            total == parts_total(sizes@.subrange(0, i as int)),
        decreases sizes.len() - i,
    {
        assert(sizes@.subrange(0, i + 1).drop_last() =~= sizes@.subrange(0, i as int));
        let part: u64 = match sizes[i] {
            Some(n) => n,
            None => 0,
        };
        if total > u64::MAX - part {
            proof {
                lemma_parts_total_prefix(sizes@, i + 1);
            }
            return u64::MAX;
        }
        total = total + part;
        i = i + 1;
    }
    assert(sizes@.subrange(0, i as int) =~= sizes@);
    total
}

proof fn lemma_parts_total_prefix(s: Seq<Option<u64>>, k: int)
    requires
        0 <= k <= s.len(),
    ensures
        parts_total(s.subrange(0, k)) <= parts_total(s),
    decreases s.len(),
{
    if k < s.len() {
        assert(s.drop_last().subrange(0, k) =~= s.subrange(0, k));
        lemma_parts_total_prefix(s.drop_last(), k);
    } else {
        assert(s.subrange(0, k) =~= s);
    }
}

/// The format that one entry of the stream mapping describes.
pub fn stream_format(e: &NamedStream) -> (r: FormatInfo)
    ensures
        r@ == stream_view(*e),
{
    let d = &e.stream;
    let size = match d.size {
        Some(n) => n,
        None => match &d.file_sizes {
            Some(f) => parts_sum(f),
            None => 0,
        },
    };
    let quality = match &d.quality {
        Some(q) => Some(q.clone()),
        None => match d.height {
            Some(h) => Some(decimal_text(h).concat("P")),
            None => None,
        },
    };
    FormatInfo { name: e.name.clone(), size, quality }
}

/// The title that a decoded report gives, or the unknown-title placeholder.
pub open spec fn json_title(title: Option<Seq<char>>) -> Seq<char> {
    match title {
        Some(t) => t,
        None => "未知标题"@,
    }
}

/// Normalises a decoded `--json` report: the title, and one format per
/// stream entry, largest first.
pub fn json_report_info(title: Option<String>, streams: &Vec<NamedStream>) -> (r: VideoInfo)
    ensures
        r.title@ == json_title(opt_view(title)),
        sizes_descending(format_views(r.formats@)),
        format_views(r.formats@).to_multiset() == stream_views(streams@).to_multiset(),
        same_order_within_sizes(format_views(r.formats@), stream_views(streams@)),
{
    let mut formats: Vec<FormatInfo> = Vec::new();
    let mut i: usize = 0;
    while i < streams.len()
        invariant
            i <= streams.len(),
            format_views(formats@) == stream_views(streams@.subrange(0, i as int)),
        decreases streams.len() - i,
    {
        let f = stream_format(&streams[i]);
        let ghost before = formats@;
        formats.push(f);
        assert(format_views(formats@) =~= format_views(before).push(f@));
        assert(streams@.subrange(0, i + 1) =~= streams@.subrange(0, i as int).push(streams@[i as int]));
        assert(stream_views(streams@.subrange(0, i + 1)) =~= stream_views(streams@.subrange(0, i as int)).push(
            stream_view(streams@[i as int]),
        ));
        i = i + 1;
    }
    assert(streams@.subrange(0, i as int) =~= streams@);
    let title = match title {
        Some(t) => t,
        None => "未知标题".to_owned(),
    };
    VideoInfo { title, formats: crate::report::sort_by_size(formats) }
}

/// A decoded `--json` report: its title, where it is a string, and its streams.
#[derive(Debug)]
pub struct JsonReport {
    pub title: Option<String>,
    pub streams: Vec<NamedStream>,
}

/// The result of a `--json` info request, from its exit status, its stderr
/// and the decoding of its stdout: a failed run carries stderr, output that
/// did not decode carries the decoder's reason, and a decoded report is
/// normalised.
pub fn json_outcome(success: bool, stderr: &str, decoded: Result<JsonReport, String>) -> (r: Result<VideoInfo, ToolError>)
    ensures
        !success ==> (r matches Err(ToolError::InfoFailed(m)) && m@ == stderr@),
        success && decoded is Err ==> (r matches Err(ToolError::MalformedOutput(m)) && m@ == decoded->Err_0@),
        success && decoded is Ok ==> (r matches Ok(v) && v.title@ == json_title(opt_view(decoded->Ok_0.title))
            && sizes_descending(format_views(v.formats@))
            && format_views(v.formats@).to_multiset() == stream_views(decoded->Ok_0.streams@).to_multiset()
            && same_order_within_sizes(format_views(v.formats@), stream_views(decoded->Ok_0.streams@))),
{
    if !success {
        return Err(ToolError::InfoFailed(stderr.to_owned()));
    }
    match decoded {
        Ok(report) => Ok(json_report_info(report.title, &report.streams)),
        Err(m) => Err(ToolError::MalformedOutput(m)),
    }
}

} // verus!
