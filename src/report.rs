//! The tool's human-readable `--info` report: its title line and its list of
//! format blocks, each opened by a `- format:` line and filled in by the
//! `quality:` and `size:` lines that follow it.
use vstd::prelude::*;
use vstd::multiset::Multiset;
use crate::error::ToolError;
use crate::text::{
    chars_of, copy_range, is_digit, is_space, is_space_char, lemma_line_end_bounds,
    lemma_skip_digits_bounds, lemma_skip_number_bounds, lemma_skip_spaces_bounds,
    lemma_skip_token_bounds, lemma_skip_word_bounds, line_end, line_end_from, matches_at,
    occurs_at, opt_view, skip_digits, skip_digits_from, skip_number, skip_number_from,
    skip_spaces, skip_spaces_from, skip_token, skip_token_from, skip_word, skip_word_from,
    text_range, trim, trim_bounds,
};

verus! {

/// One selectable stream variant of a video.
#[derive(Debug)]
pub struct FormatInfo {
    pub name: String,
    pub size: u64,
    pub quality: Option<String>,
}

/// A video's title and its formats, largest first.
#[derive(Debug)]
pub struct VideoInfo {
    pub title: String,
    pub formats: Vec<FormatInfo>,
}

pub struct FormatView {
    pub name: Seq<char>,
    pub size: nat,
    pub quality: Option<Seq<char>>,
}

impl View for FormatInfo {
    type V = FormatView;

    open spec fn view(&self) -> FormatView {
        FormatView { name: self.name@, size: self.size as nat, quality: opt_view(self.quality) }
    }
}

pub open spec fn format_views(v: Seq<FormatInfo>) -> Seq<FormatView> {
    v.map_values(|f: FormatInfo| f@)
}

/// `label` stands at index `k` of `t`, followed by at least one space and,
/// after the spaces, by something more.
pub open spec fn labelled_at(t: Seq<char>, label: Seq<char>, k: int) -> bool {
    occurs_at(t, label, k) && k + label.len() < t.len() && is_space(t[k + label.len()])
        && skip_spaces(t, k + label.len()) < t.len()
}

/// The first index at or after `i` where `labelled_at` holds.
pub open spec fn first_labelled_from(t: Seq<char>, label: Seq<char>, i: int) -> Option<int>
    decreases t.len() - i,
{
    if 0 <= i < t.len() {
        if labelled_at(t, label, i) {
            Some(i)
        } else {
            first_labelled_from(t, label, i + 1)
        }
    } else {
        None
    }
}

/// Where the value of the first `label` field of the line `t` starts: past
/// the label and the spaces after it. The label may stand anywhere in the line.
pub open spec fn field_start(t: Seq<char>, label: Seq<char>) -> Option<int> {
    match first_labelled_from(t, label, 0) {
        Some(p) => Some(skip_spaces(t, p + label.len())),
        None => None,
    }
}

/// The identifier of a `- format: <id>` field: the characters up to the next space.
pub open spec fn format_name(t: Seq<char>) -> Option<Seq<char>> {
    match field_start(t, "- format:"@) {
        Some(k) => Some(t.subrange(k, skip_token(t, k))),
        None => None,
    }
}

/// The text of a `quality: <text>` field: the rest of the line.
pub open spec fn quality_value(t: Seq<char>) -> Option<Seq<char>> {
    match field_start(t, "quality:"@) {
        Some(k) => Some(t.subrange(k, t.len() as int)),
        None => None,
    }
}

pub open spec fn digit_value(c: char) -> nat {
    (c as u32 - '0' as u32) as nat
}

/// The number that a string of decimal digits writes.
pub open spec fn digits_value(d: Seq<char>) -> nat
    decreases d.len(),
{
    if d.len() == 0 {
        0
    } else {
        digits_value(d.drop_last()) * 10 + digit_value(d.last())
    }
}

/// The byte count of a `size: <number> <unit> (<count> bytes)` field that
/// starts at index `p` of `t`, with whitespace between the parts: the number
/// is digits and dots, the unit word characters, the count digits. A count
/// that does not fit in 64 bits reads as zero.
pub open spec fn size_at(t: Seq<char>, p: int) -> Option<nat> {
    let a = p + "size:"@.len();
    let b = skip_spaces(t, a);
    let c = skip_number(t, b);
    let d = skip_spaces(t, c);
    let e = skip_word(t, d);
    let f = skip_spaces(t, e);
    let g = skip_digits(t, f + 1);
    let h = skip_spaces(t, g);
    if occurs_at(t, "size:"@, p) && a < b && b < c && c < d && d < e && e < f && f < t.len()
        && t[f] == '(' && f + 1 < g && g < h && occurs_at(t, "bytes)"@, h) {
        let n = digits_value(t.subrange(f + 1, g));
        Some(if n <= u64::MAX { n } else { 0 })
    } else {
        None
    }
}

/// The byte count of the leftmost size field at or after index `i`.
pub open spec fn first_size_from(t: Seq<char>, i: int) -> Option<nat>
    decreases t.len() - i,
{
    if 0 <= i < t.len() {
        if size_at(t, i) is Some {
            size_at(t, i)
        } else {
            first_size_from(t, i + 1)
        }
    } else {
        None
    }
}

/// The authoritative size of a line's `size:` field: its byte count.
pub open spec fn size_value(t: Seq<char>) -> Option<nat> {
    first_size_from(t, 0)
}

pub proof fn lemma_digits_value_prefix(d: Seq<char>, k: int)
    requires
        0 <= k <= d.len(),
    ensures
        digits_value(d.subrange(0, k)) <= digits_value(d),
    decreases d.len(),
{
    if k < d.len() {
        assert(d.drop_last().subrange(0, k) =~= d.subrange(0, k));
        lemma_digits_value_prefix(d.drop_last(), k);
    } else {
        assert(d.subrange(0, k) =~= d);
    }
}

/// Whether `labelled_at(t, label, k)` holds, where `lc` holds the label.
fn labelled_at_in(t: &Vec<char>, lc: &Vec<char>, k: usize) -> (r: bool)
    requires
        k <= t.len(),
    ensures
        r == labelled_at(t@, lc@, k as int),
{
    if lc.len() >= t.len() - k || !matches_at(t, lc, k) || !is_space_char(t[k + lc.len()]) {
        return false;
    }
    skip_spaces_from(t, k + lc.len()) < t.len()
}

/// The first index where `label` stands as a field, as `first_labelled_from` from `from`.
fn first_labelled_in(t: &Vec<char>, label: &str, from: usize) -> (r: Option<usize>)
    requires
        from <= t.len(),
    ensures
        match r {
            Some(p) => first_labelled_from(t@, label@, from as int) == Some(p as int) && p < t.len()
                && labelled_at(t@, label@, p as int),
            None => first_labelled_from(t@, label@, from as int) is None,
        },
{
    let lc = chars_of(label);
    let mut i = from;
    while i < t.len()
        invariant
            from <= i <= t.len(),
            lc@ == label@,
            first_labelled_from(t@, label@, i as int) == first_labelled_from(t@, label@, from as int),
        decreases t.len() - i,
    {
        if labelled_at_in(t, &lc, i) {
            return Some(i);
        }
        i = i + 1;
    }
    None
}

/// Where the value of the first `label` field starts, as `field_start` states it.
fn field_start_in(t: &Vec<char>, label: &str) -> (r: Option<usize>)
    ensures
        match r {
            Some(k) => field_start(t@, label@) == Some(k as int) && k < t.len() && !is_space(t@[k as int]),
            None => field_start(t@, label@) is None,
        },
{
    match first_labelled_in(t, label, 0) {
        Some(p) => {
            let lc = chars_of(label);
            proof {
                lemma_skip_spaces_bounds(t@, p + lc.len());
            }
            Some(skip_spaces_from(t, p + lc.len()))
        },
        None => None,
    }
}

/// The bounds of the identifier of a `- format:` field.
fn format_name_in(t: &Vec<char>) -> (r: Option<(usize, usize)>)
    ensures
        match r {
            Some((k, e)) => k <= e <= t.len() && format_name(t@) == Some(t@.subrange(k as int, e as int)),
            None => format_name(t@) is None,
        },
{
    match field_start_in(t, "- format:") {
        Some(k) => {
            proof {
                lemma_skip_token_bounds(t@, k as int);
            }
            Some((k, skip_token_from(t, k)))
        },
        None => None,
    }
}

/// The value of the decimal digits `t[d..w]`, where it fits in 64 bits.
fn digits_in(t: &Vec<char>, d: usize, w: usize) -> (r: Option<u64>)
    requires
        d <= w <= t.len(),
        forall|i: int| d <= i < w ==> is_digit(#[trigger] t@[i]),
    ensures
        match r {
            Some(v) => digits_value(t@.subrange(d as int, w as int)) == v,
            None => digits_value(t@.subrange(d as int, w as int)) > u64::MAX,
        },
{
    let mut acc: u64 = 0;
    let mut k = d;
    assert(t@.subrange(d as int, d as int) =~= Seq::<char>::empty());
    while k < w
        invariant
            d <= k <= w <= t.len(),
            forall|i: int| d <= i < w ==> is_digit(#[trigger] t@[i]),
            digits_value(t@.subrange(d as int, k as int)) == acc,
        decreases w - k,
    {
        let c = t[k];
        assert(is_digit(t@[k as int]));
        let dg = (c as u32 - '0' as u32) as u64;
        assert(t@.subrange(d as int, k + 1).drop_last() =~= t@.subrange(d as int, k as int));
        if acc > (u64::MAX - dg) / 10 {
            proof {
                assert(acc * 10 + dg > u64::MAX) by (nonlinear_arith)
                    requires
                        acc > (u64::MAX - dg) / 10,
                        dg <= 9,
                ;
                let whole = t@.subrange(d as int, w as int);
                assert(whole.subrange(0, k + 1 - d) =~= t@.subrange(d as int, k + 1));
                lemma_digits_value_prefix(whole, k + 1 - d);
            }
            return None;
        }
        proof {
            assert(acc * 10 + dg <= u64::MAX) by (nonlinear_arith)
                requires
                    acc <= (u64::MAX - dg) / 10,
                    dg <= 9,
            ;
        }
        acc = acc * 10 + dg;
        k = k + 1;
    }
    Some(acc)
}

/// The byte count of a size field at index `p`, as `size_at` states it.
fn size_at_in(t: &Vec<char>, lc: &Vec<char>, suffix: &Vec<char>, p: usize) -> (r: Option<u64>)
    requires
        p < t.len(),
        lc@ == "size:"@,
        suffix@ == "bytes)"@,
    ensures
        match r {
            Some(v) => size_at(t@, p as int) == Some(v as nat),
            None => size_at(t@, p as int) is None,
        },
{
    if lc.len() > t.len() - p || !matches_at(t, lc, p) {
        return None;
    }
    let a = p + lc.len();
    proof {
        lemma_skip_spaces_bounds(t@, a as int);
    }
    let b = skip_spaces_from(t, a);
    proof {
        lemma_skip_number_bounds(t@, b as int);
    }
    let c = skip_number_from(t, b);
    proof {
        lemma_skip_spaces_bounds(t@, c as int);
    }
    let d = skip_spaces_from(t, c);
    proof {
        lemma_skip_word_bounds(t@, d as int);
    }
    let e = skip_word_from(t, d);
    proof {
        lemma_skip_spaces_bounds(t@, e as int);
    }
    let f = skip_spaces_from(t, e);
    if !(a < b && b < c && c < d && d < e && e < f && f < t.len()) || t[f] != '(' {
        return None;
    }
    proof {
        lemma_skip_digits_bounds(t@, f + 1);
    }
    let g = skip_digits_from(t, f + 1);
    if g == f + 1 {
        return None;
    }
    proof {
        lemma_skip_spaces_bounds(t@, g as int);
    }
    let h = skip_spaces_from(t, g);
    if h == g || !matches_at(t, suffix, h) {
        return None;
    }
    match digits_in(t, f + 1, g) {
        Some(n) => Some(n),
        None => Some(0),
    }
}

/// The size of a line's `size:` field, as `size_value` states it.
fn size_value_in(t: &Vec<char>) -> (r: Option<u64>)
    ensures
        match r {
            Some(v) => size_value(t@) == Some(v as nat),
            None => size_value(t@) is None,
        },
{
    let lc = chars_of("size:");
    let suffix = chars_of("bytes)");
    let mut i: usize = 0;
    while i < t.len()
        invariant
            i <= t.len(),
            lc@ == "size:"@,
            suffix@ == "bytes)"@,
            first_size_from(t@, i as int) == first_size_from(t@, 0),
        decreases t.len() - i,
    {
        match size_at_in(t, &lc, &suffix, i) {
            Some(n) => return Some(n),
            None => {},
        }
        i = i + 1;
    }
    None
}

/// The formats listed so far, and the one whose block is open.
pub struct Scan {
    pub done: Seq<FormatView>,
    pub current: Option<FormatView>,
}

pub open spec fn flushed(st: Scan) -> Seq<FormatView> {
    match st.current {
        Some(f) => st.done.push(f),
        None => st.done,
    }
}

/// A `- format:` field closes the open block and opens a new one.
pub open spec fn with_format(st: Scan, t: Seq<char>) -> Scan {
    match format_name(t) {
        Some(n) => Scan {
            done: flushed(st),
            current: Some(FormatView { name: n, size: 0, quality: None }),
        },
        None => st,
    }
}

/// A `quality:` field fills in the open block's quality.
pub open spec fn with_quality(st: Scan, t: Seq<char>) -> Scan {
    match (quality_value(t), st.current) {
        (Some(q), Some(f)) => Scan {
            done: st.done,
            current: Some(FormatView { name: f.name, size: f.size, quality: Some(q) }),
        },
        _ => st,
    }
}

/// A `size:` field fills in the open block's size.
pub open spec fn with_size(st: Scan, t: Seq<char>) -> Scan {
    match (size_value(t), st.current) {
        (Some(n), Some(f)) => Scan {
            done: st.done,
            current: Some(FormatView { name: f.name, size: n, quality: f.quality }),
        },
        _ => st,
    }
}

/// One trimmed line's effect: blank and `#` lines change nothing; otherwise
/// its `- format:`, `quality:` and `size:` fields apply, in that order.
pub open spec fn scan_line(st: Scan, t: Seq<char>) -> Scan {
    if t.len() == 0 || t[0] == '#' {
        st
    } else {
        with_size(with_quality(with_format(st, t), t), t)
    }
}

/// The scan over the lines of `s` from index `i` on.
pub open spec fn scan_from(s: Seq<char>, i: int, st: Scan) -> Scan
    decreases s.len() + 1 - i
    via scan_from_decreases
{
    if 0 <= i < s.len() {
        let j = line_end(s, i);
        scan_from(s, j + 1, scan_line(st, trim(s.subrange(i, j))))
    } else {
        st
    }
}

#[via_fn]
proof fn scan_from_decreases(s: Seq<char>, i: int, st: Scan) {
    if 0 <= i < s.len() {
        lemma_line_end_bounds(s, i);
    }
}

/// The formats of a report, in the order in which it lists them.
pub open spec fn listed_formats(s: Seq<char>) -> Seq<FormatView> {
    flushed(scan_from(s, 0, Scan { done: Seq::empty(), current: None }))
}

/// The first index at or after `i` where `p` occurs in `s`.
pub open spec fn first_occurrence_from(s: Seq<char>, p: Seq<char>, i: int) -> Option<int>
    decreases s.len() - i,
{
    if 0 <= i < s.len() {
        if occurs_at(s, p, i) {
            Some(i)
        } else {
            first_occurrence_from(s, p, i + 1)
        }
    } else {
        None
    }
}

/// Some character at or after `i` is not a line feed.
pub open spec fn has_line_char(s: Seq<char>, i: int) -> bool {
    exists|k: int| i <= k < s.len() && s[k] != '\n'
}

/// The title: after the first `title:` label and any spaces (line feeds
/// among them), the rest of that line, trimmed. Where only spaces follow the
/// label, the title is empty if some of them are not line feeds.
pub open spec fn title_value(s: Seq<char>) -> Option<Seq<char>> {
    match first_occurrence_from(s, "title:"@, 0) {
        Some(p) => {
            let k = skip_spaces(s, p + "title:"@.len());
            if k < s.len() {
                Some(trim(s.subrange(k, line_end(s, k))))
            } else if has_line_char(s, p + "title:"@.len()) {
                Some(Seq::empty())
            } else {
                None
            }
        },
        None => None,
    }
}

/// Sizes never grow along `v`.
pub open spec fn sizes_descending(v: Seq<FormatView>) -> bool {
    forall|i: int, j: int| 0 <= i < j < v.len() ==> v[i].size >= v[j].size
}

/// The line `output[i..j]`, trimmed, and where its trimmed part starts.
fn trimmed_line(output: &Vec<char>, i: usize, j: usize) -> (r: (Vec<char>, usize))
    requires
        i <= j <= output.len(),
    ensures
        r.0@ == trim(output@.subrange(i as int, j as int)),
        i <= r.1,
        r.1 + r.0.len() <= j,
        r.0@ == output@.subrange(r.1 as int, r.1 + r.0.len()),
{
    let raw = copy_range(output, i, j);
    let (a, b) = trim_bounds(&raw);
    let t = copy_range(&raw, a, b);
    assert(t@ =~= output@.subrange(i + a, i + b));
    (t, i + a)
}

/// Finds the title in the report, as `title_value` states it.
pub fn parse_title(output: &str) -> (r: Option<String>)
    ensures
        opt_view(r) == title_value(output@),
{
    let sc = chars_of(output);
    let lc = chars_of("title:");
    let mut p: usize = 0;
    loop
        invariant
            sc@ == output@,
            lc@ == "title:"@,
            p <= sc.len(),
            first_occurrence_from(output@, "title:"@, p as int) == first_occurrence_from(
                output@,
                "title:"@,
                0,
            ),
        ensures
            p < sc.len(),
            occurs_at(output@, "title:"@, p as int),
            first_occurrence_from(output@, "title:"@, 0) == Some(p as int),
        decreases sc.len() - p,
    {
        if p == sc.len() {
            return None;
        }
        if matches_at(&sc, &lc, p) {
            break;
        }
        p = p + 1;
    }
    let q = p + lc.len();
    proof {
        lemma_skip_spaces_bounds(sc@, q as int);
    }
    let k = skip_spaces_from(&sc, q);
    if k < sc.len() {
        proof {
            lemma_line_end_bounds(sc@, k as int);
        }
        let j = line_end_from(&sc, k);
        let raw = copy_range(&sc, k, j);
        let (a, b) = trim_bounds(&raw);
        let r = text_range(output, k + a, k + b);
        assert(r@ =~= raw@.subrange(a as int, b as int));
        return Some(r);
    }
    let mut i = q;
    while i < sc.len()
        invariant
            q <= i <= sc.len(),
            sc@ == output@,
            forall|m: int| q <= m < i ==> sc@[m] == '\n',
            k == skip_spaces(output@, q as int),
            k >= sc.len(),
            q == p + "title:"@.len(),
            first_occurrence_from(output@, "title:"@, 0) == Some(p as int),
        decreases sc.len() - i,
    {
        if sc[i] != '\n' {
            let r = String::new();
            assert(r@ =~= Seq::<char>::empty());
            assert(q <= i < output@.len() && output@[i as int] != '\n');
            assert(has_line_char(output@, q as int));
            return Some(r);
        }
        i = i + 1;
    }
    None
}

pub open spec fn open_view(c: Option<FormatInfo>) -> Option<FormatView> {
    match c {
        Some(f) => Some(f@),
        None => None,
    }
}

pub open spec fn scan_of(done: Seq<FormatInfo>, current: Option<FormatInfo>) -> Scan {
    Scan { done: format_views(done), current: open_view(current) }
}

/// Applies the trimmed line `t`, found at index `off` of `output`, to the scan.
fn scan_line_in(
    output: &str,
    t: &Vec<char>,
    off: usize,
    done: &mut Vec<FormatInfo>,
    current: &mut Option<FormatInfo>,
)
    requires
        off + t.len() <= output@.len(),
        off + t.len() <= usize::MAX,
        t@ == output@.subrange(off as int, off + t.len()),
    ensures
        scan_of(final(done)@, *final(current)) == scan_line(scan_of(old(done)@, *old(current)), t@),
{
    if t.len() == 0 || t[0] == '#' {
        return ;
    }
    match format_name_in(t) {
        Some((k, e)) => {
            let name = text_range(output, off + k, off + e);
            assert(name@ =~= t@.subrange(k as int, e as int));
            let prev = current.take();
            match prev {
                Some(f) => {
                    let ghost before = done@;
                    done.push(f);
                    assert(format_views(done@) =~= format_views(before).push(f@));
                },
                None => {},
            }
            *current = Some(FormatInfo { name, size: 0, quality: None });
        },
        None => {},
    }
    assert(scan_of(done@, *current) == with_format(scan_of(old(done)@, *old(current)), t@));
    let ghost after_format = scan_of(done@, *current);
    match field_start_in(t, "quality:") {
        Some(k) => {
            let q = text_range(output, off + k, off + t.len());
            assert(q@ =~= t@.subrange(k as int, t@.len() as int));
            let prev = current.take();
            match prev {
                Some(f) => {
                    *current = Some(FormatInfo { name: f.name, size: f.size, quality: Some(q) });
                },
                None => {},
            }
        },
        None => {},
    }
    assert(scan_of(done@, *current) == with_quality(after_format, t@));
    let ghost after_quality = scan_of(done@, *current);
    match size_value_in(t) {
        Some(n) => {
            let prev = current.take();
            match prev {
                Some(f) => {
                    *current = Some(FormatInfo { name: f.name, size: n, quality: f.quality });
                },
                None => {},
            }
        },
        None => {},
    }
    assert(scan_of(done@, *current) == with_size(after_quality, t@));
}

/// The formats that the report lists, in its order.
fn listed_formats_in(output: &str) -> (r: Vec<FormatInfo>)
    ensures
        format_views(r@) == listed_formats(output@),
{
    let sc = chars_of(output);
    let mut done: Vec<FormatInfo> = Vec::new();
    let mut current: Option<FormatInfo> = None;
    let ghost init = Scan { done: Seq::empty(), current: None };
    assert(format_views(done@) =~= Seq::<FormatView>::empty());
    assert(scan_of(done@, current) == init);
    let mut i: usize = 0;
    while i < sc.len()
        invariant
            sc@ == output@,
            i <= sc.len(),
            scan_from(output@, i as int, scan_of(done@, current)) == scan_from(output@, 0, init),
        decreases sc.len() - i,
    {
        proof {
            lemma_line_end_bounds(sc@, i as int);
        }
        let j = line_end_from(&sc, i);
        let (t, off) = trimmed_line(&sc, i, j);
        scan_line_in(output, &t, off, &mut done, &mut current);
        if j == sc.len() {
            let ghost st = scan_of(done@, current);
            assert(scan_from(output@, j as int, st) == scan_from(output@, j + 1, st));
            i = j;
        } else {
            i = j + 1;
        }
    }
    match current {
        Some(f) => {
            let ghost before = done@;
            done.push(f);
            assert(format_views(done@) =~= format_views(before).push(f@));
        },
        None => {},
    }
    done
}

proof fn lemma_insert_multiset<A>(s: Seq<A>, i: int, x: A)
    requires
        0 <= i <= s.len(),
    ensures
        s.insert(i, x).to_multiset() =~= s.to_multiset().insert(x),
{
    broadcast use vstd::seq_lib::group_to_multiset_ensures;

    let t = s.insert(i, x);
    assert(t.remove(i) =~= s);
    vstd::seq_lib::to_multiset_remove(t, i);
    assert(t[i] == x);
    assert(t.contains(x));
}

/// The formats of `v` whose size is `n`, in their order.
pub open spec fn of_size(v: Seq<FormatView>, n: nat) -> Seq<FormatView> {
    v.filter(|f: FormatView| f.size == n)
}

/// Formats of equal size come in the same order in `a` as in `b`.
pub open spec fn same_order_within_sizes(a: Seq<FormatView>, b: Seq<FormatView>) -> bool {
    forall|n: nat| #[trigger] of_size(a, n) == of_size(b, n)
}

proof fn lemma_of_size_add(a: Seq<FormatView>, b: Seq<FormatView>, n: nat)
    ensures
        of_size(a + b, n) == of_size(a, n) + of_size(b, n),
{
    Seq::filter_distributes_over_add(a, b, |f: FormatView| f.size == n);
}

proof fn lemma_of_size_single(x: FormatView, n: nat)
    ensures
        of_size(seq![x], n) == (if x.size == n {
            seq![x]
        } else {
            Seq::<FormatView>::empty()
        }),
{
    reveal_with_fuel(Seq::filter, 2);
    assert(seq![x].drop_last() =~= Seq::<FormatView>::empty());
    assert(seq![x].last() == x);
    assert(Seq::<FormatView>::empty().push(x) =~= seq![x]);
}

proof fn lemma_of_size_smaller(s: Seq<FormatView>, n: nat)
    requires
        forall|i: int| 0 <= i < s.len() ==> s[i].size < n,
    ensures
        of_size(s, n) == Seq::<FormatView>::empty(),
{
    let pred = |f: FormatView| f.size == n;
    assert(s.all(|f: FormatView| !pred(f)));
    s.lemma_all_neg_filter_empty(pred);
    assert(of_size(s, n) =~= Seq::<FormatView>::empty());
}

/// The formats of `v`, reordered by size, largest first; formats of equal
/// size keep their order.
pub(crate) fn sort_by_size(v: Vec<FormatInfo>) -> (r: Vec<FormatInfo>)
    ensures
        sizes_descending(format_views(r@)),
        same_order_within_sizes(format_views(r@), format_views(v@)),
        format_views(r@).to_multiset() == format_views(v@).to_multiset(),
{
    let ghost whole = format_views(v@).to_multiset();
    let mut rest = v;
    let mut out: Vec<FormatInfo> = Vec::new();
    assert(format_views(out@) =~= Seq::<FormatView>::empty());
    assert(format_views(out@).to_multiset() =~= Multiset::<FormatView>::empty()) by {
        broadcast use vstd::seq_lib::group_to_multiset_ensures;
    }
    while rest.len() > 0
        invariant
            sizes_descending(format_views(out@)),
            format_views(out@).to_multiset().add(format_views(rest@).to_multiset()) == whole,
            forall|n: nat| #[trigger] of_size(format_views(v@), n) == of_size(format_views(out@), n)
                + of_size(format_views(rest@), n),
        decreases rest.len(),
    {
        let ghost rest_before = rest@;
        let x = rest.remove(0);
        proof {
            assert(rest_before =~= rest@.insert(0, x));
            assert(format_views(rest_before) =~= format_views(rest@).insert(0, x@));
            lemma_insert_multiset(format_views(rest@), 0, x@);
            assert(format_views(rest_before) =~= seq![x@] + format_views(rest@));
            assert forall|n: nat| #[trigger] of_size(format_views(rest_before), n) == of_size(seq![x@], n)
                + of_size(format_views(rest@), n) by {
                lemma_of_size_add(seq![x@], format_views(rest@), n);
            }
        }
        let mut p: usize = 0;
        while p < out.len() && out[p].size >= x.size
            invariant
                p <= out.len(),
                forall|k: int| 0 <= k < p ==> out@[k].size >= x.size,
            decreases out.len() - p,
        {
            p = p + 1;
        }
        let ghost out_before = out@;
        out.insert(p, x);
        proof {
            assert(out@ =~= out_before.insert(p as int, x));
            assert(format_views(out@) =~= format_views(out_before).insert(p as int, x@));
            lemma_insert_multiset(format_views(out_before), p as int, x@);
            let ov = format_views(out@);
            let ob = format_views(out_before);
            assert(sizes_descending(ob));
            assert forall|i: int, j: int| 0 <= i < j < ov.len() implies ov[i].size >= ov[j].size by {
                let pi = p as int;
                if j > pi {
                    assert(ov[j] == ob[j - 1]);
                    if pi < out_before.len() {
                        assert(ob[pi].size == out_before[pi].size);
                        assert(out_before[pi].size < x.size);
                        if pi < j - 1 {
                            assert(ob[pi].size >= ob[j - 1].size);
                        }
                    }
                    if i < pi {
                        assert(ov[i] == ob[i]);
                        assert(ob[i].size >= ob[j - 1].size);
                    } else if i > pi {
                        assert(ov[i] == ob[i - 1]);
                    }
                } else if j == pi {
                    assert(ov[i] == ob[i]);
                    assert(ob[i].size == out_before[i].size);
                } else {
                    assert(ov[i] == ob[i]);
                    assert(ov[j] == ob[j]);
                }
            }
            assert(format_views(out@).to_multiset().add(format_views(rest@).to_multiset()) =~= whole);
            let a = ob.subrange(0, p as int);
            let b = ob.subrange(p as int, ob.len() as int);
            assert(ob =~= a + b);
            assert(ov =~= a + seq![x@] + b);
            assert forall|k: int| 0 <= k < b.len() implies b[k].size < x@.size by {
                assert(b[k] == ob[p + k]);
                assert(ob[p as int].size == out_before[p as int].size);
                if k > 0 {
                    assert(ob[p as int].size >= ob[p + k].size);
                }
            }
            assert forall|n: nat| #[trigger] of_size(format_views(v@), n) == of_size(format_views(out@), n)
                + of_size(format_views(rest@), n) by {
                assert(of_size(format_views(v@), n) == of_size(ob, n) + of_size(format_views(rest_before), n));
                assert(of_size(format_views(rest_before), n) == of_size(seq![x@], n) + of_size(format_views(rest@), n));
                lemma_of_size_add(a, b, n);
                lemma_of_size_add(a, seq![x@], n);
                lemma_of_size_add(a + seq![x@], b, n);
                lemma_of_size_single(x@, n);
                if x@.size == n {
                    lemma_of_size_smaller(b, n);
                    assert(of_size(b, n) + of_size(format_views(rest_before), n) =~= of_size(seq![x@], n)
                        + of_size(b, n) + of_size(format_views(rest@), n));
                } else {
                    assert(of_size(seq![x@], n) =~= Seq::<FormatView>::empty());
                }
                assert(of_size(format_views(out@), n) + of_size(format_views(rest@), n) =~= of_size(a, n)
                    + of_size(b, n) + of_size(format_views(rest_before), n));
            }
        }
    }
    assert(format_views(rest@) =~= Seq::<FormatView>::empty());
    assert forall|n: nat| #[trigger] of_size(format_views(out@), n) == of_size(format_views(v@), n) by {
        reveal_with_fuel(Seq::filter, 1);
        assert(of_size(format_views(rest@), n) =~= Seq::<FormatView>::empty());
        assert(of_size(format_views(out@), n) + of_size(format_views(rest@), n) =~= of_size(
            format_views(out@),
            n,
        ));
    }
    assert(format_views(rest@).to_multiset() =~= Multiset::<FormatView>::empty()) by {
        broadcast use vstd::seq_lib::group_to_multiset_ensures;
    }
    assert(format_views(out@).to_multiset() =~= whole);
    out
}

/// The formats that the report lists, largest first.
pub fn parse_formats(output: &str) -> (r: Vec<FormatInfo>)
    ensures
        sizes_descending(format_views(r@)),
        format_views(r@).to_multiset() == listed_formats(output@).to_multiset(),
        same_order_within_sizes(format_views(r@), listed_formats(output@)),
{
    sort_by_size(listed_formats_in(output))
}

/// A parameter byte of a terminal control sequence (`0`..=`?`).
pub open spec fn is_csi_parameter(c: char) -> bool {
    '\u{30}' <= c && c <= '\u{3f}'
}

/// An intermediate byte of a terminal control sequence (space..=`/`).
pub open spec fn is_csi_intermediate(c: char) -> bool {
    '\u{20}' <= c && c <= '\u{2f}'
}

/// A final byte of a terminal control sequence (`@`..=`~`).
pub open spec fn is_csi_final(c: char) -> bool {
    '\u{40}' <= c && c <= '\u{7e}'
}

/// The first index at or after `i` whose character is not in the class
/// (parameters if `parameters`, else intermediates).
pub open spec fn skip_csi(s: Seq<char>, i: int, parameters: bool) -> int
    decreases s.len() - i,
{
    if 0 <= i < s.len() && (if parameters {
        is_csi_parameter(s[i])
    } else {
        is_csi_intermediate(s[i])
    }) {
        skip_csi(s, i + 1, parameters)
    } else {
        i
    }
}

/// Where a control sequence `ESC [ <parameters> <intermediates> <final>`
/// that starts at `i` ends (exclusive).
pub open spec fn escape_end(s: Seq<char>, i: int) -> Option<int> {
    let b = skip_csi(s, skip_csi(s, i + 2, true), false);
    if 0 <= i && i + 1 < s.len() && s[i] == '\u{1b}' && s[i + 1] == '[' && i + 2 <= b < s.len()
        && is_csi_final(s[b]) {
        Some(b + 1)
    } else {
        None
    }
}

/// `s` from index `i` on, with each control sequence taken out, leftmost first.
pub open spec fn without_escapes_from(s: Seq<char>, i: int) -> Seq<char>
    decreases s.len() - i,
{
    if 0 <= i < s.len() {
        match escape_end(s, i) {
            Some(e) => without_escapes_from(s, e),
            None => seq![s[i]] + without_escapes_from(s, i + 1),
        }
    } else {
        Seq::empty()
    }
}

/// What the tool's output reads as once its terminal control sequences are taken out.
pub open spec fn without_ansi_escapes(s: Seq<char>) -> Seq<char> {
    without_escapes_from(s, 0)
}

/// Relies on regex::Regex::replace_all: every leftmost, non-overlapping match
/// of `ESC [ [0-?]* [ -/]* [@-~]` is replaced by nothing. The three classes
/// are disjoint, so a match, where one starts, is the one `escape_end` gives.
#[verifier::external_body]
fn remove_ansi_escape_sequences(input: &str) -> (r: String)
    ensures
        r@ == without_ansi_escapes(input@),
{
    let pattern = regex::Regex::new(r"\x1B\[[0-?]*[ -/]*[@-~]").unwrap();
    pattern.replace_all(input, "").into_owned()
}

/// The title that a report gives, or the unknown-title placeholder.
pub open spec fn report_title(s: Seq<char>) -> Seq<char> {
    match title_value(s) {
        Some(t) => t,
        None => "未知标题"@,
    }
}

/// Reads a report that has no escape sequences left in it.
pub fn parse_report(cleaned: &str) -> (r: VideoInfo)
    ensures
        r.title@ == report_title(cleaned@),
        sizes_descending(format_views(r.formats@)),
        format_views(r.formats@).to_multiset() == listed_formats(cleaned@).to_multiset(),
        same_order_within_sizes(format_views(r.formats@), listed_formats(cleaned@)),
{
    let title = match parse_title(cleaned) {
        Some(t) => t,
        None => "未知标题".to_owned(),
    };
    VideoInfo { title, formats: parse_formats(cleaned) }
}

/// Reads the tool's `--info` output: escape sequences are taken out, then the
/// report is read.
pub fn parse_video_info(stdout: &str) -> (r: VideoInfo)
    ensures
        r.title@ == report_title(without_ansi_escapes(stdout@)),
        sizes_descending(format_views(r.formats@)),
        format_views(r.formats@).to_multiset() == listed_formats(without_ansi_escapes(stdout@)).to_multiset(),
        same_order_within_sizes(format_views(r.formats@), listed_formats(without_ansi_escapes(stdout@))),
{
    let cleaned = remove_ansi_escape_sequences(stdout);
    parse_report(cleaned.as_str())
}

/// The result of an info request, from its exit status and captured output:
/// on failure the error carries stderr, on success stdout is read.
pub fn info_outcome(success: bool, stdout: &str, stderr: &str) -> (r: Result<VideoInfo, ToolError>)
    ensures
        !success ==> (r matches Err(ToolError::InfoFailed(m)) && m@ == stderr@),
        success ==> (r matches Ok(v) && v.title@ == report_title(without_ansi_escapes(stdout@))
            && sizes_descending(format_views(v.formats@))
            && format_views(v.formats@).to_multiset() == listed_formats(
            without_ansi_escapes(stdout@),
        ).to_multiset() && same_order_within_sizes(
            format_views(v.formats@),
            listed_formats(without_ansi_escapes(stdout@)),
        )),
{
    if !success {
        return Err(ToolError::InfoFailed(stderr.to_owned()));
    }
    Ok(parse_video_info(stdout))
}

} // verus!
