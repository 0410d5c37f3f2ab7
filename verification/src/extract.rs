//! The comment extractor: scans raw SQL source text and returns every `--`
//! line comment and `/* ... */` block comment, each with its span.
//!
//! The scan is a pure function of the text.  Coordinates start at (1, 1); a
//! newline ends its line and the next character starts the following line at
//! column 1.  Nested block comments are not recognized; an unterminated block
//! comment runs to the end of the input.  Comment markers are stripped from
//! the text and surrounding whitespace is trimmed.

use vstd::prelude::*;

use crate::comments::{
    loc_le, models_of, sorted_by_start, Comment, CommentModel, CommentSpan, Comments, Location,
};

verus! {

/// The line of the character at index `i`: one plus the newlines before it.
pub open spec fn line_of(s: Seq<char>, i: int) -> int
    decreases i, 0int,
{
    if i <= 0 {
        1
    } else {
        line_of(s, i - 1) + if s[i - 1] == '\n' {
            1int
        } else {
            0int
        }
    }
}

/// The column of the character at index `i`: one plus its distance from the
/// last newline before it.
pub open spec fn col_of(s: Seq<char>, i: int) -> int
    decreases i, 0int,
{
    if i <= 0 {
        1
    } else if s[i - 1] == '\n' {
        1
    } else {
        col_of(s, i - 1) + 1
    }
}

/// The location of the character at index `i`.
pub open spec fn loc_at(s: Seq<char>, i: int) -> Location {
    Location { line: line_of(s, i) as u64, column: col_of(s, i) as u64 }
}

/// The index of the first newline at or after `i`, or the length of `s`.
pub open spec fn line_end(s: Seq<char>, i: int) -> int
    decreases s.len() - i when 0 <= i <= s.len()
{
    if i >= s.len() {
        i
    } else if s[i] == '\n' {
        i
    } else {
        line_end(s, i + 1)
    }
}

/// The index of the `*` of the first `*/` at or after `i`, or the length of
/// `s` if no such pair follows.
pub open spec fn block_end(s: Seq<char>, i: int) -> int
    decreases s.len() - i when 0 <= i <= s.len()
{
    if i + 1 >= s.len() {
        s.len() as int
    } else if s[i] == '*' && s[i + 1] == '/' {
        i
    } else {
        block_end(s, i + 1)
    }
}

/// Whitespace for the purpose of trimming comment text.
pub open spec fn is_space(c: char) -> bool {
    c == ' ' || c == '\t' || c == '\r' || c == '\n'
}

/// The first index in `[lo, hi)` holding a non-whitespace character, or `hi`.
pub open spec fn trim_start_at(s: Seq<char>, lo: int, hi: int) -> int
    decreases hi - lo when 0 <= lo <= hi <= s.len()
{
    if lo >= hi {
        hi
    } else if is_space(s[lo]) {
        trim_start_at(s, lo + 1, hi)
    } else {
        lo
    }
}

/// One past the last index in `[lo, hi)` holding a non-whitespace character,
/// or `lo`.
pub open spec fn trim_back_at(s: Seq<char>, lo: int, hi: int) -> int
    decreases hi - lo when 0 <= lo <= hi <= s.len()
{
    if hi <= lo {
        lo
    } else if is_space(s[hi - 1]) {
        trim_back_at(s, lo, hi - 1)
    } else {
        hi
    }
}

/// The characters of `s` in `[lo, hi)` with leading and trailing whitespace
/// removed.
pub open spec fn trimmed(s: Seq<char>, lo: int, hi: int) -> Seq<char> {
    let a = trim_start_at(s, lo, hi);
    let b = trim_back_at(s, a, hi);
    s.subrange(a, b)
}

/// Whether a `--` line comment starts at index `i`.
pub open spec fn line_comment_starts(s: Seq<char>, i: int) -> bool {
    i + 1 < s.len() && s[i] == '-' && s[i + 1] == '-'
}

/// Whether a `/*` block comment starts at index `i`.
pub open spec fn block_comment_starts(s: Seq<char>, i: int) -> bool {
    i + 1 < s.len() && s[i] == '/' && s[i + 1] == '*'
}

/// The comment produced by the `--` line comment starting at index `i`: its
/// text runs to the end of the line, its span covers `--` and the text but
/// not the newline.
pub open spec fn line_comment_at(s: Seq<char>, i: int) -> CommentModel {
    let j = line_end(s, i + 2);
    CommentModel {
        text: trimmed(s, i + 2, j),
        span: CommentSpan { start: loc_at(s, i), end: loc_at(s, j - 1) },
    }
}

/// The comment produced by the `/*` block comment starting at index `i`: its
/// text runs to the matching `*/`, or to the end of the input when
/// unterminated; its span covers the markers.
pub open spec fn block_comment_at(s: Seq<char>, i: int) -> CommentModel {
    let j = block_end(s, i + 2);
    let last = if j >= s.len() {
        s.len() - 1
    } else {
        j + 1
    };
    CommentModel {
        text: trimmed(s, i + 2, j),
        span: CommentSpan { start: loc_at(s, i), end: loc_at(s, last) },
    }
}

/// Every comment of `s` found at or after index `i`, in source order.
pub open spec fn scan_from(s: Seq<char>, i: int) -> Seq<CommentModel>
    decreases s.len() - i when 0 <= i <= s.len() via scan_from_decreases
{
    if i >= s.len() {
        Seq::empty()
    } else if line_comment_starts(s, i) {
        seq![line_comment_at(s, i)] + scan_from(s, line_end(s, i + 2))
    } else if block_comment_starts(s, i) {
        let j = block_end(s, i + 2);
        let next = if j >= s.len() {
            s.len() as int
        } else {
            j + 2
        };
        seq![block_comment_at(s, i)] + scan_from(s, next)
    } else {
        scan_from(s, i + 1)
    }
}

#[via_fn]
proof fn scan_from_decreases(s: Seq<char>, i: int) {
    if i < s.len() {
        if line_comment_starts(s, i) {
            lemma_line_end_props(s, i + 2);
        } else if block_comment_starts(s, i) {
            lemma_block_end_props(s, i + 2);
        }
    }
}

/// Every comment of the source text, in source order.
pub open spec fn comments_in(s: Seq<char>) -> Seq<CommentModel> {
    scan_from(s, 0)
}

/// `line_end` stays within bounds, points at a newline unless it is the
/// length, and no newline precedes it in the searched range.
pub proof fn lemma_line_end_props(s: Seq<char>, i: int)
    requires
        0 <= i <= s.len(),
    ensures
        i <= line_end(s, i) <= s.len(),
        line_end(s, i) < s.len() ==> s[line_end(s, i)] == '\n',
        forall|k: int| i <= k < line_end(s, i) ==> s[k] != '\n',
    decreases s.len() - i,
{
    if i < s.len() && s[i] != '\n' {
        lemma_line_end_props(s, i + 1);
    }
}

/// `block_end` stays within bounds, points at a `*/` pair unless it is the
/// length, and no `*/` pair precedes it in the searched range.
pub proof fn lemma_block_end_props(s: Seq<char>, i: int)
    requires
        0 <= i <= s.len(),
    ensures
        block_end(s, i) == s.len() || i <= block_end(s, i),
        block_end(s, i) <= s.len(),
        block_end(s, i) < s.len() ==> block_end(s, i) + 1 < s.len() && s[block_end(s, i)] == '*'
            && s[block_end(s, i) + 1] == '/',
        forall|k: int|
            i <= k < block_end(s, i) && k + 1 < s.len() ==> !(#[trigger] s[k] == '*' && s[k + 1]
                == '/'),
    decreases s.len() - i,
{
    if i + 1 < s.len() && !(s[i] == '*' && s[i + 1] == '/') {
        lemma_block_end_props(s, i + 1);
    }
}

/// Lines and columns are at least 1 and at most the index plus 1.
pub proof fn lemma_loc_bounds(s: Seq<char>, i: int)
    requires
        0 <= i,
    ensures
        1 <= line_of(s, i) <= i + 1,
        1 <= col_of(s, i) <= i + 1,
    decreases i,
{
    if i > 0 {
        lemma_loc_bounds(s, i - 1);
    }
}

/// Advancing over characters that are not newlines keeps the line and moves
/// the column by the distance advanced.
pub proof fn lemma_same_line_advance(s: Seq<char>, i: int, j: int)
    requires
        0 <= i <= j,
        forall|k: int| i <= k < j ==> s[k] != '\n',
    ensures
        line_of(s, j) == line_of(s, i),
        col_of(s, j) == col_of(s, i) + (j - i),
    decreases j - i,
{
    if i < j {
        lemma_same_line_advance(s, i, j - 1);
    }
}

/// Locations are monotone in the character index.
pub proof fn lemma_loc_mono(s: Seq<char>, i: int, j: int)
    requires
        0 <= i <= j,
        j < u64::MAX,
    ensures
        line_of(s, i) <= line_of(s, j),
        loc_le(loc_at(s, i), loc_at(s, j)),
    decreases j - i,
{
    lemma_loc_bounds(s, i);
    lemma_loc_bounds(s, j);
    if i < j {
        lemma_loc_mono(s, i, j - 1);
        lemma_loc_bounds(s, j - 1);
    }
}

/// The scan's output is sorted by span start, and every comment found at or
/// after `i` starts no earlier than the location of `i`.
pub proof fn lemma_scan_sorted(s: Seq<char>, i: int)
    requires
        0 <= i <= s.len(),
        s.len() < u64::MAX,
    ensures
        sorted_by_start(scan_from(s, i)),
        forall|k: int|
            0 <= k < scan_from(s, i).len() ==> loc_le(
                loc_at(s, i),
                #[trigger] scan_from(s, i)[k].span.start,
            ),
    decreases s.len() - i,
{
    if i >= s.len() {
    } else if line_comment_starts(s, i) {
        let j = line_end(s, i + 2);
        lemma_line_end_props(s, i + 2);
        lemma_scan_sorted(s, j);
        lemma_loc_mono(s, i, j);
        let r = scan_from(s, i);
        assert(r == seq![line_comment_at(s, i)] + scan_from(s, j));
        assert(r[0].span.start == loc_at(s, i));
        assert forall|k: int| 0 <= k < r.len() implies loc_le(
            loc_at(s, i),
            #[trigger] r[k].span.start,
        ) by {
            if k > 0 {
                assert(r[k] == scan_from(s, j)[k - 1]);
            }
        }
    } else if block_comment_starts(s, i) {
        let j = block_end(s, i + 2);
        lemma_block_end_props(s, i + 2);
        let next = if j >= s.len() {
            s.len() as int
        } else {
            j + 2
        };
        lemma_scan_sorted(s, next);
        lemma_loc_mono(s, i, next);
        let r = scan_from(s, i);
        assert(r == seq![block_comment_at(s, i)] + scan_from(s, next));
        assert(r[0].span.start == loc_at(s, i));
        assert forall|k: int| 0 <= k < r.len() implies loc_le(
            loc_at(s, i),
            #[trigger] r[k].span.start,
        ) by {
            if k > 0 {
                assert(r[k] == scan_from(s, next)[k - 1]);
            }
        }
    } else {
        lemma_scan_sorted(s, i + 1);
        lemma_loc_mono(s, i, i + 1);
        assert(scan_from(s, i) == scan_from(s, i + 1));
    }
}

/// Finds `line_end(text@, from)` by a forward scan.
fn find_line_end(text: &str, from: usize, n: usize) -> (j: usize)
    requires
        from <= n,
        n == text@.len(),
    ensures
        j == line_end(text@, from as int),
        from <= j <= n,
{
    proof {
        lemma_line_end_props(text@, from as int);
    }
    let mut k = from;
    while k < n && text.get_char(k) != '\n'
        invariant
            from <= k <= n,
            n == text@.len(),
            line_end(text@, from as int) == line_end(text@, k as int),
        decreases n - k,
    {
        k = k + 1;
    }
    k
}

/// Finds `block_end(text@, from)` by a forward scan.
fn find_block_end(text: &str, from: usize, n: usize) -> (j: usize)
    requires
        from <= n,
        n == text@.len(),
        n < usize::MAX,
    ensures
        j == block_end(text@, from as int),
        j <= n,
{
    proof {
        lemma_block_end_props(text@, from as int);
    }
    let mut k = from;
    while k + 1 < n && !(text.get_char(k) == '*' && text.get_char(k + 1) == '/')
        invariant
            from <= k <= n,
            n == text@.len(),
            n < usize::MAX,
            block_end(text@, from as int) == block_end(text@, k as int),
        decreases n - k,
    {
        k = k + 1;
    }
    if k + 1 < n {
        k
    } else {
        n
    }
}

/// Finds the trim bounds of `[lo, hi)`: the content with surrounding
/// whitespace removed is `[a, b)`.
fn trim_bounds(text: &str, lo: usize, hi: usize, n: usize) -> (r: (usize, usize))
    requires
        lo <= hi <= n,
        n == text@.len(),
    ensures
        r.0 == trim_start_at(text@, lo as int, hi as int),
        r.1 == trim_back_at(text@, r.0 as int, hi as int),
        lo <= r.0 <= r.1 <= hi,
{
    let mut a = lo;
    while a < hi && is_space_exec(text.get_char(a))
        invariant
            lo <= a <= hi <= n,
            n == text@.len(),
            trim_start_at(text@, lo as int, hi as int) == trim_start_at(text@, a as int, hi as int),
        decreases hi - a,
    {
        a = a + 1;
    }
    let mut b = hi;
    while b > a && is_space_exec(text.get_char(b - 1))
        invariant
            a <= b <= hi <= n,
            n == text@.len(),
            trim_back_at(text@, a as int, hi as int) == trim_back_at(text@, a as int, b as int),
        decreases b,
    {
        b = b - 1;
    }
    (a, b)
}

/// Decides `is_space`.
fn is_space_exec(c: char) -> (r: bool)
    ensures
        r == is_space(c),
{
    c == ' ' || c == '\t' || c == '\r' || c == '\n'
}

/// Advances a (line, column) pair, valid at index `i`, to index `j`.
fn advance_loc(text: &str, i: usize, j: usize, line: u64, col: u64, n: usize) -> (r: (u64, u64))
    requires
        i <= j <= n,
        n == text@.len(),
        n < usize::MAX,
        line as int == line_of(text@, i as int),
        col as int == col_of(text@, i as int),
    ensures
        r.0 as int == line_of(text@, j as int),
        r.1 as int == col_of(text@, j as int),
{
    let mut k = i;
    let mut line = line;
    let mut col = col;
    while k < j
        invariant
            i <= k <= j <= n,
            n == text@.len(),
            n < usize::MAX,
            line as int == line_of(text@, k as int),
            col as int == col_of(text@, k as int),
        decreases j - k,
    {
        proof {
            lemma_loc_bounds(text@, k as int + 1);
        }
        let c = text.get_char(k);
        if c == '\n' {
            line = line + 1;
            col = 1;
        } else {
            col = col + 1;
        }
        k = k + 1;
    }
    (line, col)
}

/// Extracts every comment of the source text, in source order.  The result
/// is exactly `comments_in(text@)`; the length guard only excludes a text too
/// large to exist in memory.
pub fn extract_comments(text: &str) -> (r: Comments)
    ensures
        sorted_by_start(r@),
        text@.len() < usize::MAX ==> r@ == comments_in(text@),
{
    let n = text.unicode_len();
    if n == usize::MAX {
        return Comments::empty();
    }
    let ghost s = text@;
    let mut found: Vec<Comment> = Vec::new();
    let mut i: usize = 0;
    let mut line: u64 = 1;
    let mut col: u64 = 1;
    proof {
        assert(models_of(found@) + scan_from(s, 0) =~= scan_from(s, 0));
    }
    while i < n
        invariant
            i <= n,
            n == s.len(),
            n == text@.len(),
            s == text@,
            n < usize::MAX,
            line as int == line_of(s, i as int),
            col as int == col_of(s, i as int),
            models_of(found@) + scan_from(s, i as int) == scan_from(s, 0),
        decreases n - i,
    {
        let ghost old_found = found@;
        let ghost i0 = i as int;
        let c = text.get_char(i);
        if c == '-' && i + 1 < n && text.get_char(i + 1) == '-' {
            let j = find_line_end(text, i + 2, n);
            proof {
                lemma_line_end_props(s, i as int + 2);
            }
            let (a, b) = trim_bounds(text, i + 2, j, n);
            let ctext = text.substring_char(a, b).to_owned();
            proof {
                lemma_loc_bounds(s, j as int - 1);
                lemma_same_line_advance(s, i as int, j as int - 1);
            }
            let end_col = col + ((j - 1 - i) as u64);
            let comment = Comment::new(
                ctext,
                CommentSpan::new(Location::new(line, col), Location::new(line, end_col)),
            );
            proof {
                assert(comment@ == line_comment_at(s, i as int));
            }
            found.push(comment);
            let (line2, col2) = advance_loc(text, i, j, line, col, n);
            line = line2;
            col = col2;
            i = j;
            proof {
                assert(line_comment_starts(s, i0));
                assert(scan_from(s, i0) == seq![line_comment_at(s, i0)] + scan_from(s, i as int));
                assert(models_of(found@) =~= models_of(old_found).push(comment@));
                assert(models_of(found@) + scan_from(s, i as int) =~= scan_from(s, 0));
            }
        } else if c == '/' && i + 1 < n && text.get_char(i + 1) == '*' {
            let j = find_block_end(text, i + 2, n);
            proof {
                lemma_block_end_props(s, i as int + 2);
            }
            let (a, b) = trim_bounds(text, i + 2, j, n);
            let ctext = text.substring_char(a, b).to_owned();
            let last = if j < n {
                j + 1
            } else {
                n - 1
            };
            let (el, ec) = advance_loc(text, i, last, line, col, n);
            let comment = Comment::new(
                ctext,
                CommentSpan::new(Location::new(line, col), Location::new(el, ec)),
            );
            proof {
                assert(comment@ == block_comment_at(s, i as int));
            }
            found.push(comment);
            let next = if j < n {
                j + 2
            } else {
                n
            };
            let (line2, col2) = advance_loc(text, last, next, el, ec, n);
            line = line2;
            col = col2;
            i = next;
            proof {
                assert(block_comment_starts(s, i0));
                assert(scan_from(s, i0) == seq![block_comment_at(s, i0)] + scan_from(s, i as int));
                assert(models_of(found@) =~= models_of(old_found).push(comment@));
                assert(models_of(found@) + scan_from(s, i as int) =~= scan_from(s, 0));
            }
        } else {
            proof {
                lemma_loc_bounds(s, i as int + 1);
            }
            if c == '\n' {
                line = line + 1;
                col = 1;
            } else {
                col = col + 1;
            }
            i = i + 1;
            proof {
                assert(!line_comment_starts(s, i0));
                assert(!block_comment_starts(s, i0));
                assert(scan_from(s, i0) == scan_from(s, i as int));
            }
        }
    }
    proof {
        assert(scan_from(s, n as int) =~= Seq::<CommentModel>::empty());
        assert(models_of(found@) =~= scan_from(s, 0));
        lemma_scan_sorted(s, 0);
    }
    Comments::from_sorted(found)
}

} // verus!
