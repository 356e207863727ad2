//! Where the tool is found, and where downloads go by default.
use vstd::prelude::*;
use crate::error::ToolError;

verus! {

/// The name under which the tool is run where it is expected on the search path.
pub open spec fn bare_command() -> Seq<char> {
    "you-get"@
}

/// The places where the tool commonly lives off the search path, most likely first.
pub open spec fn candidate_patterns() -> Seq<Seq<char>> {
    seq![
        "/usr/local/bin/you-get"@,
        "/opt/homebrew/bin/you-get"@,
        "~/.local/bin/you-get"@,
        "~/.pyenv/shims/you-get"@,
        "/usr/bin/you-get"@,
        "/bin/you-get"@,
    ]
}

/// `r` is `p` with a leading home-directory `~` (all of `p`, or followed by
/// `/`, or on Windows by `\`) possibly replaced by some directory; any other
/// path stays as it is.
pub open spec fn expanded_from(r: Seq<char>, p: Seq<char>) -> bool {
    if p.len() > 0 && p[0] == '~' && (p.len() == 1 || p[1] == '/' || p[1] == '\\') {
        r == p || exists|home: Seq<char>| r == home + p.drop_first()
    } else {
        r == p
    }
}

/// Relies on shellexpand::tilde: it returns its input unless the input starts
/// with `~` followed by `/`, by `\` on Windows, or by nothing, and the home
/// directory is known, in which case the `~` is replaced by that directory.
#[verifier::external_body]
fn expand_home(path: &str) -> (r: String)
    ensures
        expanded_from(r@, path@),
{
    shellexpand::tilde(path).into_owned()
}

/// The candidate locations of the tool, in order, with `~` expanded.
pub fn candidate_paths() -> (r: Vec<String>)
    ensures
        r.len() == candidate_patterns().len(),
        forall|i: int| 0 <= i < r.len() ==> expanded_from(#[trigger] r@[i]@, candidate_patterns()[i]),
        forall|i: int, j: int| 0 <= i < j < r.len() ==> r@[i]@ != r@[j]@,
{
    let mut r: Vec<String> = Vec::new();
    r.push(expand_home("/usr/local/bin/you-get"));
    r.push(expand_home("/opt/homebrew/bin/you-get"));
    r.push(expand_home("~/.local/bin/you-get"));
    r.push(expand_home("~/.pyenv/shims/you-get"));
    r.push(expand_home("/usr/bin/you-get"));
    r.push(expand_home("/bin/you-get"));
    proof {
        lemma_candidates_distinct(path_views(r@));
        assert forall|i: int, j: int| 0 <= i < j < r.len() implies r@[i]@ != r@[j]@ by {
            assert(path_views(r@)[i] == r@[i]@ && path_views(r@)[j] == r@[j]@);
        }
    }
    r
}

/// The characters of `a == h + b` that come from `b` are those of `b`.
proof fn lemma_tail_char(a: Seq<char>, h: Seq<char>, b: Seq<char>, i: int)
    requires
        a == h + b,
        0 <= i < b.len(),
    ensures
        a.len() >= b.len(),
        a[a.len() - b.len() + i] == b[i],
{
}

/// Some directory followed by the tail of a `~/...` pattern.
proof fn lemma_expanded_home(r: Seq<char>, p: Seq<char>) -> (home: Seq<char>)
    requires
        expanded_from(r, p),
        p.len() > 1,
        p[0] == '~',
        p[1] == '/',
    ensures
        r == home + p.drop_first(),
{
    if r == p {
        assert(p =~= seq!['~'] + p.drop_first());
        seq!['~']
    } else {
        choose|home: Seq<char>| r == home + p.drop_first()
    }
}

/// Whatever the home directory, the six candidate paths are all different:
/// the fixed ones differ in length, and each expanded one in a character at a
/// fixed distance from its end.
proof fn lemma_candidates_distinct(r: Seq<Seq<char>>)
    requires
        r.len() == candidate_patterns().len(),
        forall|i: int| 0 <= i < r.len() ==> expanded_from(#[trigger] r[i], candidate_patterns()[i]),
    ensures
        forall|i: int, j: int| 0 <= i < j < r.len() ==> r[i] != r[j],
{
    reveal_strlit("/usr/local/bin/you-get");
    reveal_strlit("/opt/homebrew/bin/you-get");
    reveal_strlit("~/.local/bin/you-get");
    reveal_strlit("~/.pyenv/shims/you-get");
    reveal_strlit("/usr/bin/you-get");
    reveal_strlit("/bin/you-get");
    let pats = candidate_patterns();
    assert(expanded_from(r[0], pats[0]));
    assert(expanded_from(r[1], pats[1]));
    assert(expanded_from(r[2], pats[2]));
    assert(expanded_from(r[3], pats[3]));
    assert(expanded_from(r[4], pats[4]));
    assert(expanded_from(r[5], pats[5]));
    assert(r[0] == pats[0] && r[0].len() == 22 && r[0][2] == 's' && r[0][4] == '/');
    assert(r[1] == pats[1] && r[1].len() == 25 && r[1][5] == 'h' && r[1][7] == 'm');
    assert(r[4] == pats[4] && r[4].len() == 16);
    assert(r[5] == pats[5] && r[5].len() == 12);
    let s2 = pats[2].drop_first();
    let s3 = pats[3].drop_first();
    assert(s2.len() == 19 && s2[1] == '.' && s2[10] == 'n');
    assert(s3.len() == 21 && s3[1] == '.' && s3[12] == 's');
    let h2 = lemma_expanded_home(r[2], pats[2]);
    let h3 = lemma_expanded_home(r[3], pats[3]);
    lemma_tail_char(r[2], h2, s2, 1);
    lemma_tail_char(r[2], h2, s2, 10);
    lemma_tail_char(r[3], h3, s3, 1);
    lemma_tail_char(r[3], h3, s3, 12);
    assert forall|i: int, j: int| 0 <= i < j < r.len() implies r[i] != r[j] by {
        if r[i] == r[j] {
            assert(r[i].len() == r[j].len());
            assert(r[i][r[i].len() - 18] == r[j][r[j].len() - 18]);
            assert(r[i][r[i].len() - 20] == r[j][r[j].len() - 20]);
            assert(r[i][r[i].len() - 9] == r[j][r[j].len() - 9]);
        }
    }
}

/// The index of the first `true` in `present` at or after `i`.
pub open spec fn first_present_from(present: Seq<bool>, i: int) -> Option<int>
    decreases present.len() - i,
{
    if i < 0 || i >= present.len() {
        None
    } else if present[i] {
        Some(i)
    } else {
        first_present_from(present, i + 1)
    }
}

pub open spec fn first_present(present: Seq<bool>) -> Option<int> {
    first_present_from(present, 0)
}

/// The candidate that resolution picks, given which candidates exist.
pub open spec fn resolved(candidates: Seq<Seq<char>>, present: Seq<bool>) -> Option<Seq<char>> {
    match first_present(present) {
        Some(i) => Some(candidates[i]),
        None => None,
    }
}

pub open spec fn path_views(v: Seq<String>) -> Seq<Seq<char>> {
    v.map_values(|s: String| s@)
}

/// The first candidate that exists, where `present[i]` tells whether
/// `candidates[i]` exists on disk.
pub fn pick_first_existing(candidates: &Vec<String>, present: &Vec<bool>) -> (r: Result<String, ToolError>)
    requires
        candidates.len() == present.len(),
    ensures
        match resolved(path_views(candidates@), present@) {
            Some(p) => r matches Ok(s) && s@ == p,
            None => r matches Err(ToolError::ExecutableNotFound),
        },
{
    let mut i: usize = 0;
    while i < present.len()
        invariant
            i <= present.len(),
            candidates.len() == present.len(),
            first_present_from(present@, i as int) == first_present(present@),
        decreases present.len() - i,
    {
        if present[i] {
            return Ok(candidates[i].clone());
        }
        i = i + 1;
    }
    Err(ToolError::ExecutableNotFound)
}

/// Finds the tool: by its bare name where it is run from the search path,
/// else the first of `candidates` that exists.
pub fn resolve_executable(on_search_path: bool, candidates: &Vec<String>, present: &Vec<bool>) -> (r: Result<String, ToolError>)
    requires
        candidates.len() == present.len(),
    ensures
        on_search_path ==> (r matches Ok(s) && s@ == bare_command()),
        !on_search_path ==> match resolved(path_views(candidates@), present@) {
            Some(p) => r matches Ok(s) && s@ == p,
            None => r matches Err(ToolError::ExecutableNotFound),
        },
{
    if on_search_path {
        return Ok("you-get".to_owned());
    }
    pick_first_existing(candidates, present)
}

proof fn lemma_first_present_from_skip(present: Seq<bool>, i: int, k: int)
    requires
        0 <= k <= i <= present.len(),
        forall|j: int| k <= j < i ==> !present[j],
    ensures
        first_present_from(present, k) == first_present_from(present, i),
    decreases i - k,
{
    if k < i {
        lemma_first_present_from_skip(present, i, k + 1);
    }
}

/// Making a candidate exist that comes before the one now resolved (or when
/// none is) makes resolution pick it instead; so the resolved path changes
/// whenever the two candidates differ.
pub proof fn lemma_higher_priority_wins(candidates: Seq<Seq<char>>, present: Seq<bool>, i: int)
    requires
        candidates.len() == present.len(),
        0 <= i < present.len(),
        match first_present(present) {
            Some(j) => i < j,
            None => true,
        },
    ensures
        resolved(candidates, present.update(i, true)) == Some(candidates[i]),
        match first_present(present) {
            Some(j) => candidates[i] != candidates[j] ==> resolved(candidates, present.update(i, true))
                != resolved(candidates, present),
            None => resolved(candidates, present.update(i, true)) != resolved(candidates, present),
        },
{
    let moved = present.update(i, true);
    lemma_first_present_before(present, 0, i);
    lemma_first_present_from_skip(moved, i, 0);
}

/// Where no candidate before `i` exists (and the first present one, if any, is
/// after `i`), none before `i` is present.
proof fn lemma_first_present_before(present: Seq<bool>, k: int, i: int)
    requires
        0 <= k <= i < present.len(),
        match first_present_from(present, k) {
            Some(j) => i < j,
            None => true,
        },
    ensures
        forall|j: int| k <= j < i ==> !present[j],
    decreases i - k,
{
    if k < i {
        lemma_first_present_before(present, k + 1, i);
    }
}

/// The default download directory: the system's download directory, else the
/// home directory.
pub fn choose_download_dir(download_dir: Option<String>, home_dir: Option<String>) -> (r: Result<String, ToolError>)
    ensures
        download_dir matches Some(d) ==> (r matches Ok(s) && s@ == d@),
        download_dir is None ==> match home_dir {
            Some(h) => r matches Ok(s) && s@ == h@,
            None => r matches Err(ToolError::DirectoryUnresolvable),
        },
{
    match download_dir {
        Some(d) => Ok(d),
        None => match home_dir {
            Some(h) => Ok(h),
            None => Err(ToolError::DirectoryUnresolvable),
        },
    }
}

} // verus!
