//! The attachment engine: decides, for one file, which comments document
//! which schema elements.
//!
//! A comment *immediately leads* an element when it ends on the line directly
//! above the element's declaration; one blank line breaks adjacency.  A block
//! of leading comments is the maximal run of comments each ending directly
//! above the next.  A comment that starts on a column declaration's own line,
//! after the column, trails that column; it is used only when the column has
//! no leading comment and the strategy is not the nearest-comment one.
//! Tables take leading comments alone: a comment on the table's own line is
//! never re-attributed to the table.  Elements are processed in declaration
//! order, and a comment claimed by one element is never reconsidered for
//! another.

use vstd::prelude::*;

use crate::comments::{loc_le, models_of, Comment, CommentModel, CommentSpan, Location};
use crate::docs::{
    column_doc_models, table_doc_models, AttachmentModel, AttachmentResult, ColumnDoc,
    ColumnDocModel, TableDoc, TableDocModel,
};

verus! {

/// Which comments of a leading block are collected for an element.
#[derive(Clone, Copy, Debug, PartialEq, Eq, Structural)]
pub enum CollectionStrategy {
    /// Only the comment immediately leading the element.
    SingleNearest,
    /// The full maximal block of contiguous leading comments.
    AllLeading,
    /// A run of contiguous single-line comments; a comment spanning several
    /// lines is taken alone, never merged with its neighbours.
    AllSingleOneMulti,
}

/// Mathematical model of a multiline strategy.
pub enum MultilineModel {
    /// Merge the block's texts into one string with the separator between
    /// fragments.
    Flatten(Seq<char>),
    /// Keep the block's texts as separate fragments, oldest first.
    Preserve,
}

/// How a selected block of several comments becomes documentation text.
#[derive(Debug)]
pub enum MultilineStrategy {
    /// Merge the block's texts into one string with the separator between
    /// fragments.
    Flatten(String),
    /// Keep the block's texts as separate fragments, oldest first.
    Preserve,
}

impl View for MultilineStrategy {
    type V = MultilineModel;

    open spec fn view(&self) -> MultilineModel {
        match self {
            MultilineStrategy::Flatten(sep) => MultilineModel::Flatten(sep@),
            MultilineStrategy::Preserve => MultilineModel::Preserve,
        }
    }
}

/// Mathematical model of a column declaration.
pub struct ColumnDeclModel {
    pub name: Seq<char>,
    pub span: CommentSpan,
}

/// Mathematical model of a table declaration.
pub struct TableDeclModel {
    pub name: Seq<char>,
    pub span: CommentSpan,
    pub columns: Seq<ColumnDeclModel>,
}

/// One column declaration: its name and its declaration span.
#[derive(Debug)]
pub struct ColumnDecl {
    pub name: String,
    pub span: CommentSpan,
}

impl View for ColumnDecl {
    type V = ColumnDeclModel;

    open spec fn view(&self) -> ColumnDeclModel {
        ColumnDeclModel { name: self.name@, span: self.span }
    }
}

/// The column models of a column-declaration vector.
pub open spec fn column_decl_models(s: Seq<ColumnDecl>) -> Seq<ColumnDeclModel> {
    s.map_values(|c: ColumnDecl| c@)
}

/// One table declaration: its name, its declaration span, and its columns in
/// declaration order.
#[derive(Debug)]
pub struct TableDecl {
    pub name: String,
    pub span: CommentSpan,
    pub columns: Vec<ColumnDecl>,
}

impl View for TableDecl {
    type V = TableDeclModel;

    open spec fn view(&self) -> TableDeclModel {
        TableDeclModel {
            name: self.name@,
            span: self.span,
            columns: column_decl_models(self.columns@),
        }
    }
}

/// The table models of a table-declaration vector.
pub open spec fn table_decl_models(s: Seq<TableDecl>) -> Seq<TableDeclModel> {
    s.map_values(|t: TableDecl| t@)
}

/// The start locations of one table's elements: the table first, then its
/// columns in declaration order.
pub open spec fn table_starts(t: TableDeclModel) -> Seq<Location> {
    seq![t.span.start] + t.columns.map_values(|c: ColumnDeclModel| c.span.start)
}

/// The start locations of every element of every table, in declaration
/// order.
pub open spec fn all_starts(tables: Seq<TableDeclModel>) -> Seq<Location>
    decreases tables.len(),
{
    if tables.len() == 0 {
        Seq::empty()
    } else {
        all_starts(tables.drop_last()) + table_starts(tables.last())
    }
}

/// Whether some element's declaration starts on the given line.
pub open spec fn on_decl_line(starts: Seq<Location>, line: u64) -> bool {
    exists|k: int| 0 <= k < starts.len() && (#[trigger] starts[k]).line == line
}

/// A comment can lead an element only if it starts on a line of its own:
/// a comment sharing a line with a declaration is a trailing comment.
pub open spec fn is_leading_comment(starts: Seq<Location>, c: CommentModel) -> bool {
    !on_decl_line(starts, c.span.start.line)
}

/// A well-formed span does not end before it starts.
pub open spec fn wf_span(sp: CommentSpan) -> bool {
    loc_le(sp.start, sp.end)
}

/// Whether a comment starts and ends on one line.
pub open spec fn is_single_line(c: CommentModel) -> bool {
    c.span.start.line == c.span.end.line
}

/// A comment immediately leads a declaration on `line` when it is a leading
/// comment and ends on the line directly above: one blank line in between
/// breaks adjacency.
pub open spec fn leads_line(starts: Seq<Location>, c: CommentModel, line: u64) -> bool {
    is_leading_comment(starts, c) && c.span.end.line + 1 == line
}

/// A comment trails the element starting at `e` when it starts on the same
/// line, after the element, with no other element between the two.
pub open spec fn trails_element(starts: Seq<Location>, e: Location, c: CommentModel) -> bool {
    c.span.start.line == e.line && c.span.start.column > e.column && !(exists|k: int|
        0 <= k < starts.len() && (#[trigger] starts[k]).line == e.line && e.column
            < starts[k].column < c.span.start.column)
}

/// The largest index below `n` of an unclaimed comment immediately leading
/// `line`, if any: the comment nearest the declaration.
pub open spec fn latest_leading(
    cs: Seq<CommentModel>,
    starts: Seq<Location>,
    claimed: Set<int>,
    line: u64,
    n: int,
) -> Option<int>
    decreases n,
{
    if n <= 0 {
        None
    } else if !claimed.contains(n - 1) && leads_line(starts, cs[n - 1], line) {
        Some(n - 1)
    } else {
        latest_leading(cs, starts, claimed, line, n - 1)
    }
}

/// Whether a comment can stand directly before a block member starting on
/// `first_line`: it must be an unclaimed leading comment with a well-formed
/// span ending on the line directly above, and, when only single-line
/// comments are merged, span a single line.
pub open spec fn pred_ok(
    starts: Seq<Location>,
    c: CommentModel,
    first_line: u64,
    only_single: bool,
) -> bool {
    is_leading_comment(starts, c) && wf_span(c.span) && c.span.end.line + 1 == first_line && (
    only_single ==> is_single_line(c))
}

/// The largest index below `n` of an unclaimed comment that can stand
/// directly before a block member starting on `first_line`, if any.
pub open spec fn latest_pred(
    cs: Seq<CommentModel>,
    starts: Seq<Location>,
    claimed: Set<int>,
    first_line: u64,
    only_single: bool,
    n: int,
) -> Option<int>
    decreases n,
{
    if n <= 0 {
        None
    } else if !claimed.contains(n - 1) && pred_ok(starts, cs[n - 1], first_line, only_single) {
        Some(n - 1)
    } else {
        latest_pred(cs, starts, claimed, first_line, only_single, n - 1)
    }
}

/// The maximal run of contiguous leading comments ending at the comment with
/// index `first`, oldest first, built by walking backward while a predecessor
/// stands directly above the block.  The fuel bounds the walk; one unit per
/// comment suffices.
pub open spec fn chain_to(
    cs: Seq<CommentModel>,
    starts: Seq<Location>,
    claimed: Set<int>,
    first: int,
    only_single: bool,
    fuel: nat,
) -> Seq<int>
    decreases fuel,
{
    if fuel == 0 {
        seq![first]
    } else {
        match latest_pred(
            cs,
            starts,
            claimed,
            cs[first].span.start.line,
            only_single,
            cs.len() as int,
        ) {
            Option::None => seq![first],
            Option::Some(p) => chain_to(cs, starts, claimed, p, only_single, (fuel - 1) as nat)
                + seq![first],
        }
    }
}

/// The comment indices collected for a declaration on `line` under the given
/// collection strategy, oldest first; empty when no comment immediately
/// leads the declaration.
pub open spec fn selected_leading(
    cs: Seq<CommentModel>,
    starts: Seq<Location>,
    claimed: Set<int>,
    line: u64,
    strat: CollectionStrategy,
) -> Seq<int> {
    match latest_leading(cs, starts, claimed, line, cs.len() as int) {
        Option::None => Seq::empty(),
        Option::Some(c0) => match strat {
            CollectionStrategy::SingleNearest => seq![c0],
            CollectionStrategy::AllLeading => chain_to(cs, starts, claimed, c0, false, cs.len()),
            CollectionStrategy::AllSingleOneMulti => if is_single_line(cs[c0]) {
                chain_to(cs, starts, claimed, c0, true, cs.len())
            } else {
                seq![c0]
            },
        },
    }
}

/// The unclaimed trailing comment nearest after the element starting at `e`,
/// if any: smallest start column, and of equals the earliest in the sequence.
pub open spec fn best_trailing(
    cs: Seq<CommentModel>,
    starts: Seq<Location>,
    claimed: Set<int>,
    e: Location,
    n: int,
) -> Option<int>
    decreases n,
{
    if n <= 0 {
        None
    } else {
        let rest = best_trailing(cs, starts, claimed, e, n - 1);
        if !claimed.contains(n - 1) && trails_element(starts, e, cs[n - 1]) {
            match rest {
                Option::None => Some(n - 1),
                Option::Some(r) => if cs[r].span.start.column <= cs[n - 1].span.start.column {
                    rest
                } else {
                    Some(n - 1)
                },
            }
        } else {
            rest
        }
    }
}

/// The comment indices an element claims: its leading block under the
/// collection strategy or, for a column under a merging strategy with no
/// leading block, its nearest trailing comment.  A table never claims a
/// trailing comment, and the nearest-comment strategy uses only the comment
/// immediately leading the element.
pub open spec fn element_block(
    cs: Seq<CommentModel>,
    starts: Seq<Location>,
    claimed: Set<int>,
    e: Location,
    strat: CollectionStrategy,
    is_column: bool,
) -> Seq<int> {
    let lead = selected_leading(cs, starts, claimed, e.line, strat);
    if lead.len() > 0 {
        lead
    } else if is_column && strat != CollectionStrategy::SingleNearest {
        match best_trailing(cs, starts, claimed, e, cs.len() as int) {
            Option::None => Seq::empty(),
            Option::Some(t) => seq![t],
        }
    } else {
        Seq::empty()
    }
}

/// The texts of the comments at the given indices, oldest first.
pub open spec fn block_texts(cs: Seq<CommentModel>, block: Seq<int>) -> Seq<Seq<char>> {
    block.map_values(|i: int| cs[i].text)
}

/// The texts joined oldest first with the separator between fragments.
pub open spec fn join_texts(ts: Seq<Seq<char>>, sep: Seq<char>) -> Seq<char>
    decreases ts.len(),
{
    if ts.len() == 0 {
        Seq::empty()
    } else if ts.len() == 1 {
        ts[0]
    } else {
        ts[0] + sep + join_texts(ts.drop_first(), sep)
    }
}

/// The documentation a block of claimed comments yields under the multiline
/// strategy: absent for an empty block, one flattened string, or the
/// fragments in order.
pub open spec fn render(
    cs: Seq<CommentModel>,
    block: Seq<int>,
    multi: MultilineModel,
) -> AttachmentModel {
    if block.len() == 0 {
        AttachmentModel::Absent
    } else {
        match multi {
            MultilineModel::Flatten(sep) => AttachmentModel::Single(
                join_texts(block_texts(cs, block), sep),
            ),
            MultilineModel::Preserve => AttachmentModel::Fragments(block_texts(cs, block)),
        }
    }
}

/// Attaches comments to each column in declaration order, threading the set
/// of claimed comment indices; returns the column docs and the final set.
pub open spec fn attach_columns(
    cs: Seq<CommentModel>,
    starts: Seq<Location>,
    claimed: Set<int>,
    cols: Seq<ColumnDeclModel>,
    strat: CollectionStrategy,
    multi: MultilineModel,
) -> (Seq<ColumnDocModel>, Set<int>)
    decreases cols.len(),
{
    if cols.len() == 0 {
        (Seq::empty(), claimed)
    } else {
        let blk = element_block(cs, starts, claimed, cols[0].span.start, strat, true);
        let doc = ColumnDocModel { name: cols[0].name, doc: render(cs, blk, multi) };
        let rest = attach_columns(
            cs,
            starts,
            claimed.union(blk.to_set()),
            cols.drop_first(),
            strat,
            multi,
        );
        (seq![doc] + rest.0, rest.1)
    }
}

/// Attaches comments to each table and its columns in declaration order,
/// threading the set of claimed comment indices.
pub open spec fn attach_tables(
    cs: Seq<CommentModel>,
    starts: Seq<Location>,
    claimed: Set<int>,
    tables: Seq<TableDeclModel>,
    strat: CollectionStrategy,
    multi: MultilineModel,
) -> (Seq<TableDocModel>, Set<int>)
    decreases tables.len(),
{
    if tables.len() == 0 {
        (Seq::empty(), claimed)
    } else {
        let t = tables[0];
        let blk = element_block(cs, starts, claimed, t.span.start, strat, false);
        let cols = attach_columns(
            cs,
            starts,
            claimed.union(blk.to_set()),
            t.columns,
            strat,
            multi,
        );
        let doc = TableDocModel { name: t.name, doc: render(cs, blk, multi), columns: cols.0 };
        let rest = attach_tables(cs, starts, cols.1, tables.drop_first(), strat, multi);
        (seq![doc] + rest.0, rest.1)
    }
}

/// The documentation of one file: every table's and column's attachment,
/// computed from the declarations, the file's comments, and the strategies
/// alone.
pub open spec fn attach_file(
    tables: Seq<TableDeclModel>,
    cs: Seq<CommentModel>,
    strat: CollectionStrategy,
    multi: MultilineModel,
) -> Seq<TableDocModel> {
    attach_tables(cs, all_starts(tables), Set::empty(), tables, strat, multi).0
}

/// The indices of an index vector, as mathematical integers.
pub open spec fn idxs(v: Seq<usize>) -> Seq<int> {
    v.map_values(|u: usize| u as int)
}

/// The set of comment indices marked claimed.
pub open spec fn claimed_set(v: Seq<bool>) -> Set<int> {
    Set::new(|i: int| 0 <= i < v.len() && v[i])
}

/// Decides `on_decl_line`.
fn on_decl_line_exec(starts: &Vec<Location>, line: u64) -> (r: bool)
    ensures
        r == on_decl_line(starts@, line),
{
    let mut k: usize = 0;
    while k < starts.len()
        invariant
            k <= starts@.len(),
            forall|i: int| 0 <= i < k ==> (#[trigger] starts@[i]).line != line,
        decreases starts@.len() - k,
    {
        if starts[k].line == line {
            return true;
        }
        k = k + 1;
    }
    false
}

/// Decides `leads_line`.
fn leads_line_exec(starts: &Vec<Location>, c: &Comment, line: u64) -> (r: bool)
    ensures
        r == leads_line(starts@, c@, line),
{
    if on_decl_line_exec(starts, c.span.start.line) {
        return false;
    }
    c.span.end.line < u64::MAX && c.span.end.line + 1 == line
}

/// Decides `pred_ok`.
fn pred_ok_exec(starts: &Vec<Location>, c: &Comment, first_line: u64, only_single: bool) -> (r:
    bool)
    ensures
        r == pred_ok(starts@, c@, first_line, only_single),
{
    if on_decl_line_exec(starts, c.span.start.line) {
        return false;
    }
    let wf = c.span.start.line < c.span.end.line || (c.span.start.line == c.span.end.line
        && c.span.start.column <= c.span.end.column);
    wf && c.span.end.line < u64::MAX && c.span.end.line + 1 == first_line && (!only_single
        || c.span.start.line == c.span.end.line)
}

/// Decides `trails_element`.
fn trails_element_exec(starts: &Vec<Location>, e: &Location, c: &Comment) -> (r: bool)
    ensures
        r == trails_element(starts@, *e, c@),
{
    if !(c.span.start.line == e.line && c.span.start.column > e.column) {
        return false;
    }
    let mut k: usize = 0;
    while k < starts.len()
        invariant
            k <= starts@.len(),
            forall|i: int|
                0 <= i < k ==> !((#[trigger] starts@[i]).line == e.line && e.column
                    < starts@[i].column < c@.span.start.column),
        decreases starts@.len() - k,
    {
        if starts[k].line == e.line && e.column < starts[k].column && starts[k].column
            < c.span.start.column {
            return false;
        }
        k = k + 1;
    }
    true
}

/// Finds the comment nearest the declaration on `line`: the unclaimed
/// leading comment of the largest index that ends directly above it.
fn latest_leading_exec(
    cs: &[Comment],
    starts: &Vec<Location>,
    claimed: &Vec<bool>,
    line: u64,
) -> (r: Option<usize>)
    requires
        claimed@.len() == cs@.len(),
    ensures
        ({
            let sr = latest_leading(
                models_of(cs@),
                starts@,
                claimed_set(claimed@),
                line,
                cs@.len() as int,
            );
            match r {
                Option::Some(v) => sr == Option::Some(v as int) && v < cs@.len(),
                Option::None => sr is None,
            }
        }),
{
    let mut n = cs.len();
    while n > 0
        invariant
            n <= cs@.len(),
            claimed@.len() == cs@.len(),
            latest_leading(models_of(cs@), starts@, claimed_set(claimed@), line, cs@.len() as int)
                == latest_leading(models_of(cs@), starts@, claimed_set(claimed@), line, n as int),
        decreases n,
    {
        if !claimed[n - 1] && leads_line_exec(starts, &cs[n - 1], line) {
            return Some(n - 1);
        }
        n = n - 1;
    }
    None
}

/// Finds the unclaimed comment of the largest index that can stand directly
/// before a block member starting on `first_line`.
fn latest_pred_exec(
    cs: &[Comment],
    starts: &Vec<Location>,
    claimed: &Vec<bool>,
    first_line: u64,
    only_single: bool,
) -> (r: Option<usize>)
    requires
        claimed@.len() == cs@.len(),
    ensures
        ({
            let sr = latest_pred(
                models_of(cs@),
                starts@,
                claimed_set(claimed@),
                first_line,
                only_single,
                cs@.len() as int,
            );
            match r {
                Option::Some(v) => sr == Option::Some(v as int) && v < cs@.len(),
                Option::None => sr is None,
            }
        }),
{
    let mut n = cs.len();
    while n > 0
        invariant
            n <= cs@.len(),
            claimed@.len() == cs@.len(),
            latest_pred(
                models_of(cs@),
                starts@,
                claimed_set(claimed@),
                first_line,
                only_single,
                cs@.len() as int,
            ) == latest_pred(
                models_of(cs@),
                starts@,
                claimed_set(claimed@),
                first_line,
                only_single,
                n as int,
            ),
        decreases n,
    {
        if !claimed[n - 1] && pred_ok_exec(starts, &cs[n - 1], first_line, only_single) {
            return Some(n - 1);
        }
        n = n - 1;
    }
    None
}

/// Builds the block of contiguous leading comments ending at `first`, oldest
/// first.
fn chain_exec(
    cs: &[Comment],
    starts: &Vec<Location>,
    claimed: &Vec<bool>,
    first: usize,
    only_single: bool,
    fuel: usize,
) -> (r: Vec<usize>)
    requires
        claimed@.len() == cs@.len(),
        first < cs@.len(),
    ensures
        idxs(r@) == chain_to(
            models_of(cs@),
            starts@,
            claimed_set(claimed@),
            first as int,
            only_single,
            fuel as nat,
        ),
        r@.len() >= 1,
        forall|k: int| 0 <= k < r@.len() ==> (#[trigger] r@[k]) < cs@.len(),
    decreases fuel,
{
    if fuel == 0 {
        let mut v: Vec<usize> = Vec::new();
        v.push(first);
        proof {
            assert(idxs(v@) =~= seq![first as int]);
        }
        v
    } else {
        let first_line = cs[first].span.start.line;
        proof {
            assert(models_of(cs@)[first as int].span == cs@[first as int].span);
        }
        match latest_pred_exec(cs, starts, claimed, first_line, only_single) {
            Option::None => {
                let mut v: Vec<usize> = Vec::new();
                v.push(first);
                proof {
                    assert(idxs(v@) =~= seq![first as int]);
                }
                v
            },
            Option::Some(p) => {
                let mut v = chain_exec(cs, starts, claimed, p, only_single, fuel - 1);
                let ghost prev = v@;
                v.push(first);
                proof {
                    assert(idxs(v@) =~= idxs(prev) + seq![first as int]);
                }
                v
            },
        }
    }
}

/// Finds the unclaimed trailing comment nearest after the element at `e`.
fn best_trailing_exec(
    cs: &[Comment],
    starts: &Vec<Location>,
    claimed: &Vec<bool>,
    e: &Location,
) -> (r: Option<usize>)
    requires
        claimed@.len() == cs@.len(),
    ensures
        ({
            let sr = best_trailing(
                models_of(cs@),
                starts@,
                claimed_set(claimed@),
                *e,
                cs@.len() as int,
            );
            match r {
                Option::Some(v) => sr == Option::Some(v as int) && v < cs@.len(),
                Option::None => sr is None,
            }
        }),
{
    let mut best: Option<usize> = None;
    let mut k: usize = 0;
    while k < cs.len()
        invariant
            k <= cs@.len(),
            claimed@.len() == cs@.len(),
            ({
                let sr = best_trailing(
                    models_of(cs@),
                    starts@,
                    claimed_set(claimed@),
                    *e,
                    k as int,
                );
                match best {
                    Option::Some(v) => sr == Option::Some(v as int) && v < cs@.len(),
                    Option::None => sr is None,
                }
            }),
        decreases cs@.len() - k,
    {
        if !claimed[k] && trails_element_exec(starts, e, &cs[k]) {
            best = match best {
                Option::None => Some(k),
                Option::Some(b) => if cs[b].span.start.column <= cs[k].span.start.column {
                    Some(b)
                } else {
                    Some(k)
                },
            };
        }
        k = k + 1;
    }
    best
}

/// The comment indices the element starting at `e` claims, oldest first.
fn element_block_exec(
    cs: &[Comment],
    starts: &Vec<Location>,
    claimed: &Vec<bool>,
    e: &Location,
    strat: CollectionStrategy,
    is_column: bool,
) -> (blk: Vec<usize>)
    requires
        claimed@.len() == cs@.len(),
    ensures
        idxs(blk@) == element_block(
            models_of(cs@),
            starts@,
            claimed_set(claimed@),
            *e,
            strat,
            is_column,
        ),
        forall|k: int| 0 <= k < blk@.len() ==> (#[trigger] blk@[k]) < cs@.len(),
{
    match latest_leading_exec(cs, starts, claimed, e.line) {
        Option::None => {
            if is_column && !matches!(strat, CollectionStrategy::SingleNearest) {
                match best_trailing_exec(cs, starts, claimed, e) {
                    Option::None => {
                        let v: Vec<usize> = Vec::new();
                        proof {
                            assert(idxs(v@) =~= Seq::<int>::empty());
                        }
                        v
                    },
                    Option::Some(t) => {
                        let mut v: Vec<usize> = Vec::new();
                        v.push(t);
                        proof {
                            assert(idxs(v@) =~= seq![t as int]);
                        }
                        v
                    },
                }
            } else {
                let v: Vec<usize> = Vec::new();
                proof {
                    assert(idxs(v@) =~= Seq::<int>::empty());
                }
                v
            }
        },
        Option::Some(c0) => {
            match strat {
                CollectionStrategy::SingleNearest => {
                    let mut v: Vec<usize> = Vec::new();
                    v.push(c0);
                    proof {
                        assert(idxs(v@) =~= seq![c0 as int]);
                    }
                    v
                },
                CollectionStrategy::AllLeading => {
                    let v = chain_exec(cs, starts, claimed, c0, false, cs.len());
                    v
                },
                CollectionStrategy::AllSingleOneMulti => {
                    if cs[c0].span.start.line == cs[c0].span.end.line {
                        let v = chain_exec(cs, starts, claimed, c0, true, cs.len());
                        v
                    } else {
                        let mut v: Vec<usize> = Vec::new();
                        v.push(c0);
                        proof {
                            assert(idxs(v@) =~= seq![c0 as int]);
                        }
                        v
                    }
                },
            }
        },
    }
}

/// `join_texts` over a pushed fragment appends the separator and the
/// fragment, except on the first fragment.
pub proof fn lemma_join_texts_snoc(ts: Seq<Seq<char>>, t: Seq<char>, sep: Seq<char>)
    ensures
        join_texts(ts.push(t), sep) == if ts.len() == 0 {
            t
        } else {
            join_texts(ts, sep) + sep + t
        },
    decreases ts.len(),
{
    if ts.len() == 0 {
        assert(ts.push(t).len() == 1);
        assert(ts.push(t)[0] == t);
    } else if ts.len() == 1 {
        assert(ts.push(t).drop_first() =~= seq![t]);
        assert(join_texts(seq![t], sep) == t);
        assert(join_texts(ts.push(t), sep) == ts[0] + sep + t);
    } else {
        assert(ts.push(t).drop_first() =~= ts.drop_first().push(t));
        lemma_join_texts_snoc(ts.drop_first(), t, sep);
        assert(join_texts(ts.push(t), sep) == ts[0] + sep + (join_texts(ts.drop_first(), sep) + sep
            + t));
        assert(ts[0] + sep + (join_texts(ts.drop_first(), sep) + sep + t) =~= (ts[0] + sep
            + join_texts(ts.drop_first(), sep)) + sep + t);
    }
}

/// Joins the texts of the comments at the block's indices, oldest first,
/// with the separator between fragments.
fn join_block(cs: &[Comment], blk: &Vec<usize>, sep: &str) -> (r: String)
    requires
        forall|k: int| 0 <= k < blk@.len() ==> (#[trigger] blk@[k]) < cs@.len(),
    ensures
        r@ == join_texts(block_texts(models_of(cs@), idxs(blk@)), sep@),
{
    let ghost texts = block_texts(models_of(cs@), idxs(blk@));
    let mut acc = String::new();
    let mut k: usize = 0;
    while k < blk.len()
        invariant
            k <= blk@.len(),
            forall|i: int| 0 <= i < blk@.len() ==> (#[trigger] blk@[i]) < cs@.len(),
            texts == block_texts(models_of(cs@), idxs(blk@)),
            acc@ == join_texts(texts.take(k as int), sep@),
        decreases blk@.len() - k,
    {
        if k > 0 {
            acc.append(sep);
        }
        acc.append(cs[blk[k]].comment.as_str());
        proof {
            assert(texts.take(k as int + 1) =~= texts.take(k as int).push(texts[k as int]));
            lemma_join_texts_snoc(texts.take(k as int), texts[k as int], sep@);
            assert(texts[k as int] == cs@[blk@[k as int] as int]@.text);
        }
        k = k + 1;
    }
    proof {
        assert(texts.take(blk@.len() as int) =~= texts);
    }
    acc
}

/// The texts of the comments at the block's indices, oldest first.
fn fragment_texts(cs: &[Comment], blk: &Vec<usize>) -> (r: Vec<String>)
    requires
        forall|k: int| 0 <= k < blk@.len() ==> (#[trigger] blk@[k]) < cs@.len(),
    ensures
        r@.map_values(|s: String| s@) == block_texts(models_of(cs@), idxs(blk@)),
{
    let ghost texts = block_texts(models_of(cs@), idxs(blk@));
    let mut r: Vec<String> = Vec::new();
    let mut k: usize = 0;
    while k < blk.len()
        invariant
            k <= blk@.len(),
            forall|i: int| 0 <= i < blk@.len() ==> (#[trigger] blk@[i]) < cs@.len(),
            texts == block_texts(models_of(cs@), idxs(blk@)),
            r@.map_values(|s: String| s@) == texts.take(k as int),
        decreases blk@.len() - k,
    {
        let ghost prev = r@;
        r.push(cs[blk[k]].comment.clone());
        proof {
            assert(r@.map_values(|s: String| s@) =~= prev.map_values(|s: String| s@).push(
                cs@[blk@[k as int] as int]@.text,
            ));
            assert(texts.take(k as int + 1) =~= texts.take(k as int).push(texts[k as int]));
        }
        k = k + 1;
    }
    proof {
        assert(texts.take(blk@.len() as int) =~= texts);
    }
    r
}

/// Renders a claimed block as documentation under the multiline strategy.
fn render_block(cs: &[Comment], blk: &Vec<usize>, multi: &MultilineStrategy) -> (r:
    AttachmentResult)
    requires
        forall|k: int| 0 <= k < blk@.len() ==> (#[trigger] blk@[k]) < cs@.len(),
    ensures
        r@ == render(models_of(cs@), idxs(blk@), multi@),
{
    if blk.len() == 0 {
        proof {
            assert(idxs(blk@) =~= Seq::<int>::empty());
        }
        AttachmentResult::Absent
    } else {
        match multi {
            MultilineStrategy::Flatten(sep) => AttachmentResult::Single(
                join_block(cs, blk, sep.as_str()),
            ),
            MultilineStrategy::Preserve => AttachmentResult::Fragments(fragment_texts(cs, blk)),
        }
    }
}

/// Marks every index of the block as claimed.
fn mark_claimed(claimed: &mut Vec<bool>, blk: &Vec<usize>)
    requires
        forall|k: int| 0 <= k < blk@.len() ==> (#[trigger] blk@[k]) < old(claimed)@.len(),
    ensures
        final (claimed)@.len() == old(claimed)@.len(),
        claimed_set(final (claimed)@) == claimed_set(old(claimed)@).union(idxs(blk@).to_set()),
{
    let ghost c0 = claimed@;
    let mut k: usize = 0;
    while k < blk.len()
        invariant
            k <= blk@.len(),
            claimed@.len() == c0.len(),
            forall|i: int| 0 <= i < blk@.len() ==> (#[trigger] blk@[i]) < c0.len(),
            claimed_set(claimed@) == claimed_set(c0).union(idxs(blk@.take(k as int)).to_set()),
        decreases blk@.len() - k,
    {
        let ghost before = claimed@;
        let i = blk[k];
        claimed.set(i, true);
        proof {
            let i0 = blk@[k as int] as int;
            assert(claimed@ =~= before.update(i0, true));
            assert(idxs(blk@.take(k as int + 1)) =~= idxs(blk@.take(k as int)).push(i0));
            idxs(blk@.take(k as int)).lemma_push_to_set_commute(i0);
            assert forall|j: int|
                claimed_set(claimed@).contains(j) <==> claimed_set(c0).union(
                    idxs(blk@.take(k as int + 1)).to_set(),
                ).contains(j) by {
                assert(claimed_set(claimed@).contains(j) <==> (0 <= j < claimed@.len()
                    && claimed@[j]));
                if j == i0 {
                    assert(claimed@[j]);
                } else {
                    assert(claimed@[j] == (0 <= j < before.len() && before[j]) || !(0 <= j
                        < before.len()));
                    assert(claimed_set(before).contains(j) <==> claimed_set(c0).union(
                        idxs(blk@.take(k as int)).to_set(),
                    ).contains(j));
                }
            }
            assert(claimed_set(claimed@) =~= claimed_set(c0).union(
                idxs(blk@.take(k as int + 1)).to_set(),
            ));
        }
        k = k + 1;
    }
    proof {
        assert(blk@.take(blk@.len() as int) =~= blk@);
    }
}

/// Attaches comments to each column in declaration order, marking what they
/// claim.
fn attach_columns_exec(
    cs: &[Comment],
    starts: &Vec<Location>,
    claimed: &mut Vec<bool>,
    cols: &Vec<ColumnDecl>,
    strat: CollectionStrategy,
    multi: &MultilineStrategy,
) -> (r: Vec<ColumnDoc>)
    requires
        old(claimed)@.len() == cs@.len(),
    ensures
        final (claimed)@.len() == cs@.len(),
        ({
            let res = attach_columns(
                models_of(cs@),
                starts@,
                claimed_set(old(claimed)@),
                column_decl_models(cols@),
                strat,
                multi@,
            );
            column_doc_models(r@) == res.0 && claimed_set(final (claimed)@) == res.1
        }),
{
    let ghost cms = column_decl_models(cols@);
    let ghost full = attach_columns(
        models_of(cs@),
        starts@,
        claimed_set(claimed@),
        cms,
        strat,
        multi@,
    );
    let mut docs: Vec<ColumnDoc> = Vec::new();
    let mut k: usize = 0;
    proof {
        assert(cms.skip(0) =~= cms);
        assert(column_doc_models(docs@) =~= Seq::<ColumnDocModel>::empty());
    }
    while k < cols.len()
        invariant
            k <= cols@.len(),
            claimed@.len() == cs@.len(),
            cms == column_decl_models(cols@),
            full == attach_columns(
                models_of(cs@),
                starts@,
                claimed_set(old(claimed)@),
                cms,
                strat,
                multi@,
            ),
            full.0 == column_doc_models(docs@) + attach_columns(
                models_of(cs@),
                starts@,
                claimed_set(claimed@),
                cms.skip(k as int),
                strat,
                multi@,
            ).0,
            full.1 == attach_columns(
                models_of(cs@),
                starts@,
                claimed_set(claimed@),
                cms.skip(k as int),
                strat,
                multi@,
            ).1,
        decreases cols@.len() - k,
    {
        let ghost claimed_before = claimed_set(claimed@);
        let ghost docs_before = docs@;
        let blk = element_block_exec(cs, starts, claimed, &cols[k].span.start, strat, true);
        let doc = ColumnDoc { name: cols[k].name.clone(), doc: render_block(cs, &blk, multi) };
        mark_claimed(claimed, &blk);
        docs.push(doc);
        proof {
            assert(cms.skip(k as int)[0] == cols@[k as int]@);
            assert(cms.skip(k as int).drop_first() =~= cms.skip(k as int + 1));
            assert(column_doc_models(docs@) =~= column_doc_models(docs_before).push(
                ColumnDocModel {
                    name: cols@[k as int]@.name,
                    doc: render(
                        models_of(cs@),
                        element_block(
                            models_of(cs@),
                            starts@,
                            claimed_before,
                            cols@[k as int]@.span.start,
                            strat,
                            true,
                        ),
                        multi@,
                    ),
                },
            ));
            assert(full.0 =~= column_doc_models(docs@) + attach_columns(
                models_of(cs@),
                starts@,
                claimed_set(claimed@),
                cms.skip(k as int + 1),
                strat,
                multi@,
            ).0);
        }
        k = k + 1;
    }
    proof {
        assert(cms.skip(cols@.len() as int) =~= Seq::<ColumnDeclModel>::empty());
        assert(full.0 =~= column_doc_models(docs@));
    }
    docs
}

/// The start locations of every element of every table, in declaration
/// order.
fn collect_starts(tables: &Vec<TableDecl>) -> (r: Vec<Location>)
    ensures
        r@ == all_starts(table_decl_models(tables@)),
{
    let ghost tms = table_decl_models(tables@);
    let mut r: Vec<Location> = Vec::new();
    let mut t: usize = 0;
    proof {
        assert(r@ =~= all_starts(tms.take(0)));
    }
    while t < tables.len()
        invariant
            t <= tables@.len(),
            tms == table_decl_models(tables@),
            r@ == all_starts(tms.take(t as int)),
        decreases tables@.len() - t,
    {
        let ghost before = r@;
        r.push(tables[t].span.start);
        let cols = &tables[t].columns;
        let mut c: usize = 0;
        while c < cols.len()
            invariant
                c <= cols@.len(),
                cols@ == tables@[t as int].columns@,
                t < tables@.len(),
                tms == table_decl_models(tables@),
                r@ == before + seq![tables@[t as int].span.start] + column_decl_models(
                    cols@,
                ).map_values(|cd: ColumnDeclModel| cd.span.start).take(c as int),
            decreases cols@.len() - c,
        {
            r.push(cols[c].span.start);
            proof {
                let colstarts = column_decl_models(cols@).map_values(
                    |cd: ColumnDeclModel| cd.span.start,
                );
                assert(colstarts.take(c as int + 1) =~= colstarts.take(c as int).push(
                    colstarts[c as int],
                ));
                assert(colstarts[c as int] == cols@[c as int].span.start);
                assert(r@ =~= before + seq![tables@[t as int].span.start] + colstarts.take(
                    c as int + 1,
                ));
            }
            c = c + 1;
        }
        proof {
            let colstarts = column_decl_models(cols@).map_values(
                |cd: ColumnDeclModel| cd.span.start,
            );
            assert(colstarts.take(cols@.len() as int) =~= colstarts);
            assert(table_starts(tms[t as int]) =~= seq![tables@[t as int].span.start] + colstarts);
            assert(tms.take(t as int + 1).drop_last() =~= tms.take(t as int));
            assert(tms.take(t as int + 1).last() == tms[t as int]);
            assert(r@ =~= all_starts(tms.take(t as int)) + table_starts(tms[t as int]));
            assert(r@ =~= all_starts(tms.take(t as int + 1)));
        }
        t = t + 1;
    }
    proof {
        assert(tms.take(tables@.len() as int) =~= tms);
    }
    r
}

/// Attaches this file's comments to its tables and columns in declaration
/// order; the result is exactly `attach_file` over the declarations, the
/// comments, and the strategies.
pub fn attach_comments(
    tables: &Vec<TableDecl>,
    comments: &crate::comments::Comments,
    strat: CollectionStrategy,
    multi: &MultilineStrategy,
) -> (r: Vec<TableDoc>)
    ensures
        table_doc_models(r@) == attach_file(table_decl_models(tables@), comments@, strat, multi@),
{
    let ghost tms = table_decl_models(tables@);
    let starts = collect_starts(tables);
    let cs = comments.comments();
    let ghost models = models_of(cs@);
    let mut claimed: Vec<bool> = vec![false; cs.len()];
    proof {
        assert(claimed_set(claimed@) =~= Set::<int>::empty());
    }
    let ghost full = attach_tables(models, starts@, Set::empty(), tms, strat, multi@);
    let mut docs: Vec<TableDoc> = Vec::new();
    let mut t: usize = 0;
    proof {
        assert(tms.skip(0) =~= tms);
        assert(table_doc_models(docs@) =~= Seq::<TableDocModel>::empty());
    }
    while t < tables.len()
        invariant
            t <= tables@.len(),
            claimed@.len() == cs@.len(),
            tms == table_decl_models(tables@),
            models == models_of(cs@),
            starts@ == all_starts(tms),
            full == attach_tables(models, starts@, Set::empty(), tms, strat, multi@),
            full.0 == table_doc_models(docs@) + attach_tables(
                models,
                starts@,
                claimed_set(claimed@),
                tms.skip(t as int),
                strat,
                multi@,
            ).0,
        decreases tables@.len() - t,
    {
        let ghost claimed_before = claimed_set(claimed@);
        let ghost docs_before = docs@;
        let blk = element_block_exec(cs, &starts, &claimed, &tables[t].span.start, strat, false);
        let tdoc_attachment = render_block(cs, &blk, multi);
        mark_claimed(&mut claimed, &blk);
        let coldocs = attach_columns_exec(cs, &starts, &mut claimed, &tables[t].columns, strat,
            multi);
        let doc = TableDoc {
            name: tables[t].name.clone(),
            doc: tdoc_attachment,
            columns: coldocs,
        };
        docs.push(doc);
        proof {
            assert(tms.skip(t as int)[0] == tables@[t as int]@);
            assert(tms.skip(t as int).drop_first() =~= tms.skip(t as int + 1));
            let tblk = element_block(
                models,
                starts@,
                claimed_before,
                tables@[t as int]@.span.start,
                strat,
                false,
            );
            let colres = attach_columns(
                models,
                starts@,
                claimed_before.union(tblk.to_set()),
                tables@[t as int]@.columns,
                strat,
                multi@,
            );
            assert(table_doc_models(docs@) =~= table_doc_models(docs_before).push(
                TableDocModel {
                    name: tables@[t as int]@.name,
                    doc: render(models, tblk, multi@),
                    columns: colres.0,
                },
            ));
            assert(full.0 =~= table_doc_models(docs@) + attach_tables(
                models,
                starts@,
                claimed_set(claimed@),
                tms.skip(t as int + 1),
                strat,
                multi@,
            ).0);
        }
        t = t + 1;
    }
    proof {
        assert(tms.skip(tables@.len() as int) =~= Seq::<TableDeclModel>::empty());
        assert(full.0 =~= table_doc_models(docs@));
    }
    docs
}

} // verus!
