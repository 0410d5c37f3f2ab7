//! The deny list: a file is excluded from the whole pipeline when any deny
//! pattern occurs as a literal substring of its path or of its raw content.

use vstd::prelude::*;

use crate::files::SqlFileModel;

verus! {

/// Whether `pat` occurs as a contiguous subsequence of `s`.
pub open spec fn is_substring(pat: Seq<char>, s: Seq<char>) -> bool {
    exists|k: int|
        0 <= k && k + pat.len() <= s.len() && #[trigger] s.subrange(k, k + pat.len() as int) == pat
}

/// Whether one pattern excludes a file: it occurs in the content, or the
/// file has a path and it occurs in the path.
pub open spec fn pattern_excludes(
    pat: Seq<char>,
    path: Option<Seq<char>>,
    content: Seq<char>,
) -> bool {
    is_substring(pat, content) || (path is Some && is_substring(pat, path->0))
}

/// Whether the deny patterns exclude a file: any one match suffices.
pub open spec fn spec_denied(
    pats: Seq<Seq<char>>,
    path: Option<Seq<char>>,
    content: Seq<char>,
) -> bool {
    exists|i: int| 0 <= i < pats.len() && pattern_excludes(#[trigger] pats[i], path, content)
}

/// Whether the deny patterns exclude the given file.
pub open spec fn denied_file(pats: Seq<Seq<char>>, f: SqlFileModel) -> bool {
    spec_denied(pats, f.path, f.content)
}

/// Whether `pat` matches `hay` at offset `k`.
fn match_at(hay: &str, pat: &str, k: usize, nh: usize, np: usize) -> (r: bool)
    requires
        nh == hay@.len(),
        np == pat@.len(),
        k + np <= nh,
    ensures
        r == (hay@.subrange(k as int, k as int + np as int) == pat@),
{
    let mut i: usize = 0;
    while i < np
        invariant
            i <= np,
            nh == hay@.len(),
            np == pat@.len(),
            k + np <= nh,
            forall|t: int| 0 <= t < i ==> hay@[k + t] == #[trigger] pat@[t],
        decreases np - i,
    {
        if hay.get_char(k + i) != pat.get_char(i) {
            proof {
                assert(hay@.subrange(k as int, k as int + np as int)[i as int] == hay@[k + i]);
            }
            return false;
        }
        i = i + 1;
    }
    proof {
        assert(hay@.subrange(k as int, k as int + np as int) =~= pat@);
    }
    true
}

/// Decides `is_substring` by trying every offset.
pub fn str_contains(hay: &str, pat: &str) -> (r: bool)
    ensures
        r == is_substring(pat@, hay@),
{
    let nh = hay.unicode_len();
    let np = pat.unicode_len();
    if np > nh {
        return false;
    }
    if np == 0 {
        proof {
            assert(hay@.subrange(0, 0 + pat@.len() as int) =~= pat@);
        }
        return true;
    }
    let mut k: usize = 0;
    while k <= nh - np
        invariant
            1 <= np <= nh,
            nh == hay@.len(),
            np == pat@.len(),
            k <= nh - np + 1,
            forall|t: int|
                0 <= t < k ==> #[trigger] hay@.subrange(t, t + np as int) != pat@,
        decreases nh - np - k + 1,
    {
        if match_at(hay, pat, k, nh, np) {
            proof {
                assert(hay@.subrange(k as int, k as int + np as int) == pat@);
            }
            return true;
        }
        k = k + 1;
    }
    false
}

/// Decides whether the deny patterns exclude a file with the given path and
/// content.
pub fn is_denied(patterns: &Vec<String>, path: &Option<String>, content: &str) -> (r: bool)
    ensures
        r == spec_denied(patterns.deep_view(), crate::files::path_view(*path), content@),
{
    let ghost pats = patterns.deep_view();
    let mut i: usize = 0;
    while i < patterns.len()
        invariant
            i <= patterns@.len(),
            pats == patterns.deep_view(),
            pats.len() == patterns@.len(),
            forall|t: int|
                0 <= t < i ==> !pattern_excludes(
                    #[trigger] pats[t],
                    crate::files::path_view(*path),
                    content@,
                ),
        decreases patterns@.len() - i,
    {
        proof {
            assert(pats[i as int] == patterns@[i as int]@);
        }
        if str_contains(content, patterns[i].as_str()) {
            return true;
        }
        match path {
            Option::Some(p) => {
                if str_contains(p.as_str(), patterns[i].as_str()) {
                    return true;
                }
            },
            Option::None => {},
        }
        i = i + 1;
    }
    false
}

/// Denying a pattern twice has the same effect as denying it once.
pub proof fn lemma_deny_idempotent(
    pats: Seq<Seq<char>>,
    p: Seq<char>,
    path: Option<Seq<char>>,
    content: Seq<char>,
)
    ensures
        spec_denied(pats.push(p).push(p), path, content) == spec_denied(
            pats.push(p),
            path,
            content,
        ),
{
    let once = pats.push(p);
    let twice = once.push(p);
    if spec_denied(twice, path, content) {
        let i = choose|i: int|
            0 <= i < twice.len() && pattern_excludes(#[trigger] twice[i], path, content);
        if i < once.len() {
            assert(once[i] == twice[i]);
        } else {
            assert(twice[i] == p);
            assert(once[once.len() - 1] == p);
        }
        assert(spec_denied(once, path, content));
    }
    if spec_denied(once, path, content) {
        let i = choose|i: int|
            0 <= i < once.len() && pattern_excludes(#[trigger] once[i], path, content);
        assert(twice[i] == once[i]);
        assert(spec_denied(twice, path, content));
    }
}

/// An empty deny set excludes nothing.
pub proof fn lemma_deny_empty(path: Option<Seq<char>>, content: Seq<char>)
    ensures
        !spec_denied(Seq::empty(), path, content),
{
}

} // verus!
