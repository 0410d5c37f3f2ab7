//! Position model for SQL source text and the comments found in it.
//!
//! A *leading comment* is a comment that precedes a SQL declaration; the
//! attachment engine decides which declaration, if any, each comment
//! documents.  This module holds the location/span primitives and the
//! `Comments` collection, which keeps its comments sorted by span start.

use vstd::prelude::*;

verus! {

/// A position in a source file.  The file is split into lines, and each line
/// into columns; both counts start at 1.
#[derive(Clone, Copy, Debug, PartialEq, Eq, Structural)]
pub struct Location {
    pub line: u64,
    pub column: u64,
}

impl Location {
    /// Builds a `Location` from a line and a column.
    pub fn new(line: u64, column: u64) -> (r: Self)
        ensures
            r == (Location { line, column }),
    {
        Self { line, column }
    }

    /// The line of this location.
    pub fn line(&self) -> (r: u64)
        ensures
            r == self.line,
    {
        self.line
    }

    /// The column of this location.
    pub fn column(&self) -> (r: u64)
        ensures
            r == self.column,
    {
        self.column
    }
}

/// Total order on locations: by line first, then by column.
pub open spec fn loc_le(a: Location, b: Location) -> bool {
    a.line < b.line || (a.line == b.line && a.column <= b.column)
}

/// Decides `loc_le` on two locations.
fn loc_le_exec(a: &Location, b: &Location) -> (r: bool)
    ensures
        r == loc_le(*a, *b),
{
    a.line < b.line || (a.line == b.line && a.column <= b.column)
}

/// The extent of a comment or of a declaration in the source text:
/// the location of its first character and of its last character.
#[derive(Clone, Copy, Debug, PartialEq, Eq, Structural)]
pub struct CommentSpan {
    pub start: Location,
    pub end: Location,
}

impl CommentSpan {
    /// Builds a span from its two endpoints.
    pub fn new(start: Location, end: Location) -> (r: Self)
        ensures
            r == (CommentSpan { start, end }),
    {
        Self { start, end }
    }

    /// The location of the first character.
    pub fn start(&self) -> (r: &Location)
        ensures
            r == self.start,
    {
        &self.start
    }

    /// The location of the last character.
    pub fn end(&self) -> (r: &Location)
        ensures
            r == self.end,
    {
        &self.end
    }
}

/// Mathematical model of a comment: its text and its span.
pub struct CommentModel {
    pub text: Seq<char>,
    pub span: CommentSpan,
}

/// One comment: its text with the comment markers stripped and surrounding
/// whitespace trimmed, and the span it occupies in the source.
#[derive(Debug)]
pub struct Comment {
    pub comment: String,
    pub span: CommentSpan,
}

impl View for Comment {
    type V = CommentModel;

    open spec fn view(&self) -> CommentModel {
        CommentModel { text: self.comment@, span: self.span }
    }
}

impl Comment {
    /// Builds a comment from its text and its span.
    pub fn new(comment: String, span: CommentSpan) -> (r: Self)
        ensures
            r@ == (CommentModel { text: comment@, span }),
    {
        Self { comment, span }
    }

    /// The comment's text.
    pub fn comment(&self) -> (r: &str)
        ensures
            r@ == self@.text,
    {
        self.comment.as_str()
    }

    /// The comment's span.
    pub fn span(&self) -> (r: &CommentSpan)
        ensures
            r == self@.span,
    {
        &self.span
    }
}

/// The comment models of a comment vector.
pub open spec fn models_of(s: Seq<Comment>) -> Seq<CommentModel> {
    s.map_values(|c: Comment| c@)
}

/// Whether a comment sequence is sorted by span start, line first and then
/// column.  Comments with identical start locations may appear in any order.
pub open spec fn sorted_by_start(s: Seq<CommentModel>) -> bool {
    forall|i: int, j: int|
        0 <= i < j < s.len() ==> loc_le(#[trigger] s[i].span.start, #[trigger] s[j].span.start)
}

/// Where a comment is inserted into a sorted run: after every comment that
/// does not start strictly later, so comments with equal starts keep their
/// encounter order.
pub open spec fn insert_pos(sorted: Seq<CommentModel>, c: CommentModel) -> int
    decreases sorted.len(),
{
    if sorted.len() == 0 {
        0
    } else if loc_le(sorted[0].span.start, c.span.start) {
        1 + insert_pos(sorted.drop_first(), c)
    } else {
        0
    }
}

/// Stable sorting by span start: each comment, in encounter order, is
/// inserted after the comments that start no later than it, so duplicates
/// keep their relative order.
pub open spec fn sorted_comments(s: Seq<CommentModel>) -> Seq<CommentModel>
    decreases s.len(),
{
    if s.len() == 0 {
        Seq::empty()
    } else {
        let rest = sorted_comments(s.drop_last());
        rest.insert(insert_pos(rest, s.last()), s.last())
    }
}

/// All comments found in one source text, kept sorted by span start.
#[derive(Debug)]
pub struct Comments {
    comments: Vec<Comment>,
}

impl View for Comments {
    type V = Seq<CommentModel>;

    closed spec fn view(&self) -> Seq<CommentModel> {
        models_of(self.comments@)
    }
}

impl Comments {
    #[verifier::type_invariant]
    spec fn inv(&self) -> bool {
        sorted_by_start(self@)
    }

    /// Builds a `Comments` from comments in any order, sorting them stably
    /// by span start: the result is exactly `sorted_comments` of the input,
    /// so comments with equal start locations keep their given order.
    pub fn new(comments: Vec<Comment>) -> (r: Self)
        ensures
            r@ == sorted_comments(models_of(comments@)),
            sorted_by_start(r@),
            r@.to_multiset() == models_of(comments@).to_multiset(),
    {
        broadcast use vstd::seq_lib::group_to_multiset_ensures;

        let ghost orig = comments@;
        let ghost om = models_of(comments@);
        let mut rest = comments;
        let mut sorted: Vec<Comment> = Vec::new();
        proof {
            assert(models_of(sorted@) =~= Seq::<CommentModel>::empty());
            assert(models_of(sorted@) + models_of(rest@) =~= models_of(orig));
            assert(om.take(0) =~= Seq::<CommentModel>::empty());
            assert(rest@ =~= orig.skip(0));
        }
        while rest.len() > 0
            invariant
                rest@.len() <= orig.len(),
                om == models_of(orig),
                rest@ == orig.skip(orig.len() - rest@.len()),
                sorted_by_start(models_of(sorted@)),
                models_of(sorted@) == sorted_comments(
                    om.take(orig.len() - rest@.len()),
                ),
                models_of(sorted@).to_multiset().add(models_of(rest@).to_multiset())
                    == models_of(orig).to_multiset(),
            decreases rest.len(),
        {
            let ghost old_rest = rest@;
            let ghost old_sorted = sorted@;
            let ghost p = orig.len() - old_rest.len();
            let c = rest.remove(0);
            let pos = insertion_index(&sorted, &c);
            sorted.insert(pos, c);
            proof {
                assert(models_of(old_rest) =~= models_of(old_rest).subrange(
                    0,
                    1,
                ) + models_of(rest@));
                assert(models_of(old_rest).subrange(0, 1) =~= seq![c@]);
                vstd::seq_lib::to_multiset_insert(models_of(old_sorted), pos as int, c@);
                assert(models_of(sorted@) =~= models_of(old_sorted).insert(pos as int, c@));
                lemma_multiset_shift(models_of(old_sorted), models_of(rest@), c@);
                assert(c == orig[p]);
                assert(rest@ =~= orig.skip(p + 1));
                assert(om.take(p + 1).drop_last() =~= om.take(p));
                assert(om.take(p + 1).last() == om[p]);
                assert(om[p] == c@);
                assert(models_of(sorted@) =~= sorted_comments(om.take(p + 1)));
            }
        }
        proof {
            assert(models_of(rest@) =~= Seq::<CommentModel>::empty());
            assert(om.take(orig.len() as int) =~= om);
            assert(models_of(sorted@).to_multiset() =~= models_of(orig).to_multiset());
        }
        Self { comments: sorted }
    }

    /// Builds an empty `Comments`.
    pub fn empty() -> (r: Self)
        ensures
            r@ == Seq::<CommentModel>::empty(),
    {
        let v: Vec<Comment> = Vec::new();
        proof {
            assert(models_of(v@) =~= Seq::<CommentModel>::empty());
        }
        Self { comments: v }
    }

    /// Builds a `Comments` from comments already sorted by span start.
    pub(crate) fn from_sorted(comments: Vec<Comment>) -> (r: Self)
        requires
            sorted_by_start(models_of(comments@)),
        ensures
            r@ == models_of(comments@),
    {
        Self { comments }
    }

    /// The comments, sorted by span start.
    pub fn comments(&self) -> (r: &[Comment])
        ensures
            models_of(r@) == self@,
            sorted_by_start(self@),
    {
        proof {
            use_type_invariant(self);
        }
        self.comments.as_slice()
    }
}

/// Moving one element from the front of `rest` into `sorted` keeps the
/// combined multiset of comment models unchanged.
proof fn lemma_multiset_shift(sorted: Seq<CommentModel>, rest: Seq<CommentModel>, c: CommentModel)
    ensures
        sorted.to_multiset().insert(c).add(rest.to_multiset()) == sorted.to_multiset().add(
            (seq![c] + rest).to_multiset(),
        ),
{
    broadcast use vstd::seq_lib::group_to_multiset_ensures;

    assert(seq![c] + rest =~= rest.insert(0, c));
    vstd::seq_lib::to_multiset_insert(rest, 0, c);
    assert(sorted.to_multiset().insert(c).add(rest.to_multiset()) =~= sorted.to_multiset().add(
        rest.to_multiset().insert(c),
    ));
}

/// The first index in `sorted` whose comment starts strictly after `c`:
/// exactly `insert_pos`, so that inserting `c` there keeps the order and
/// puts `c` after its equals.
fn insertion_index(sorted: &Vec<Comment>, c: &Comment) -> (pos: usize)
    requires
        sorted_by_start(models_of(sorted@)),
    ensures
        pos <= sorted@.len(),
        pos as int == insert_pos(models_of(sorted@), c@),
        sorted_by_start(models_of(sorted@).insert(pos as int, c@)),
{
    let n = sorted.len();
    let mut pos: usize = 0;
    proof {
        assert(models_of(sorted@).skip(0) =~= models_of(sorted@));
    }
    while pos < n && loc_le_exec(&sorted[pos].span.start, &c.span.start)
        invariant
            pos <= n,
            n == sorted@.len(),
            sorted_by_start(models_of(sorted@)),
            insert_pos(models_of(sorted@), c@) == pos + insert_pos(
                models_of(sorted@).skip(pos as int),
                c@,
            ),
            forall|i: int|
                0 <= i < pos ==> loc_le(#[trigger] models_of(sorted@)[i].span.start, c@.span.start),
        decreases n - pos,
    {
        proof {
            let models = models_of(sorted@);
            assert(models.skip(pos as int)[0] == models[pos as int]);
            assert(models.skip(pos as int).drop_first() =~= models.skip(pos as int + 1));
        }
        pos = pos + 1;
    }
    proof {
        let models = models_of(sorted@);
        if pos < n {
            assert(models.skip(pos as int)[0] == models[pos as int]);
            assert(insert_pos(models.skip(pos as int), c@) == 0);
        } else {
            assert(models.skip(pos as int) =~= Seq::<CommentModel>::empty());
        }
    }
    proof {
        let models = models_of(sorted@);
        let inserted = models.insert(pos as int, c@);
        assert forall|i: int, j: int| 0 <= i < j < inserted.len() implies loc_le(
            #[trigger] inserted[i].span.start,
            #[trigger] inserted[j].span.start,
        ) by {
            if i < pos && j > pos {
                assert(inserted[i] == models[i]);
                assert(inserted[j] == models[j - 1]);
                if pos < models.len() {
                    assert(!loc_le(models[pos as int].span.start, c@.span.start));
                }
            } else if j == pos {
                assert(inserted[i] == models[i]);
            } else if i == pos {
                assert(inserted[j] == models[j - 1]);
                assert(pos < models.len());
                assert(!loc_le(models[pos as int].span.start, c@.span.start));
                if pos < j - 1 {
                    assert(loc_le(models[pos as int].span.start, models[j - 1].span.start));
                }
            }
        }
    }
    pos
}

} // verus!
