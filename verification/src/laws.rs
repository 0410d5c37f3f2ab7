//! Laws of the attachment engine, proved once and for all inputs: no comment
//! funds two elements, a larger collection strategy only extends what the
//! nearest-comment strategy attaches, flattening agrees with preserving and
//! joining, and a blank line always breaks adjacency.

use vstd::prelude::*;

use crate::comments::{CommentModel, Location};
use crate::deny::{denied_file, lemma_deny_empty, lemma_deny_idempotent};
use crate::docs::{AttachmentModel, ColumnDocModel, TableDocModel};
use crate::files::SqlFileModel;
use crate::sql_doc::{all_parse, built_tables, file_doc_tables, file_parses};
use crate::engine::{
    attach_columns, attach_file, attach_tables, best_trailing, block_texts, chain_to, element_block,
    is_single_line, join_texts, latest_leading, latest_pred, leads_line,
    lemma_join_texts_snoc, pred_ok, render, selected_leading, trails_element, ColumnDeclModel,
    CollectionStrategy, MultilineModel, TableDeclModel,
};

verus! {

/// `latest_leading` returns an index below the bound of an unclaimed comment
/// that immediately leads the line.
proof fn lemma_latest_leading_props(
    cs: Seq<CommentModel>,
    starts: Seq<Location>,
    claimed: Set<int>,
    line: u64,
    n: int,
)
    ensures
        latest_leading(cs, starts, claimed, line, n) matches Some(v) ==> 0 <= v < n
            && !claimed.contains(v) && leads_line(starts, cs[v], line),
    decreases n,
{
    if n > 0 {
        lemma_latest_leading_props(cs, starts, claimed, line, n - 1);
    }
}

/// `latest_pred` returns an index below the bound of an unclaimed comment
/// that can stand directly before a member starting on `first_line`.
proof fn lemma_latest_pred_props(
    cs: Seq<CommentModel>,
    starts: Seq<Location>,
    claimed: Set<int>,
    first_line: u64,
    only_single: bool,
    n: int,
)
    ensures
        latest_pred(cs, starts, claimed, first_line, only_single, n) matches Some(v) ==> 0 <= v < n
            && !claimed.contains(v) && pred_ok(starts, cs[v], first_line, only_single),
    decreases n,
{
    if n > 0 {
        lemma_latest_pred_props(cs, starts, claimed, first_line, only_single, n - 1);
    }
}

/// `best_trailing` returns an index below the bound of an unclaimed comment
/// trailing the element.
proof fn lemma_best_trailing_props(
    cs: Seq<CommentModel>,
    starts: Seq<Location>,
    claimed: Set<int>,
    e: Location,
    n: int,
)
    ensures
        best_trailing(cs, starts, claimed, e, n) matches Some(v) ==> 0 <= v < n
            && !claimed.contains(v) && trails_element(starts, e, cs[v]),
    decreases n,
{
    if n > 0 {
        lemma_best_trailing_props(cs, starts, claimed, e, n - 1);
    }
}

/// Every member of a block built by `chain_to` is an unclaimed comment index
/// in range, the block ends at `first`, and each member ends on the line
/// directly above the next member's start.
proof fn lemma_chain_props(
    cs: Seq<CommentModel>,
    starts: Seq<Location>,
    claimed: Set<int>,
    first: int,
    only_single: bool,
    fuel: nat,
)
    requires
        0 <= first < cs.len(),
        !claimed.contains(first),
    ensures
        ({
            let ch = chain_to(cs, starts, claimed, first, only_single, fuel);
            &&& ch.len() >= 1
            &&& ch.last() == first
            &&& (forall|k: int| 0 <= k < ch.len() ==> 0 <= #[trigger] ch[k] < cs.len())
            &&& (forall|k: int| 0 <= k < ch.len() ==> !claimed.contains(#[trigger] ch[k]))
            &&& (forall|k: int|
                0 <= k < ch.len() - 1 ==> cs[#[trigger] ch[k]].span.end.line + 1
                    == cs[ch[k + 1]].span.start.line)
        }),
    decreases fuel,
{
    let ch = chain_to(cs, starts, claimed, first, only_single, fuel);
    if fuel == 0 {
    } else {
        let pr = latest_pred(
            cs,
            starts,
            claimed,
            cs[first].span.start.line,
            only_single,
            cs.len() as int,
        );
        lemma_latest_pred_props(
            cs,
            starts,
            claimed,
            cs[first].span.start.line,
            only_single,
            cs.len() as int,
        );
        match pr {
            Option::None => {},
            Option::Some(p) => {
                lemma_chain_props(cs, starts, claimed, p, only_single, (fuel - 1) as nat);
                let prev = chain_to(cs, starts, claimed, p, only_single, (fuel - 1) as nat);
                assert(ch =~= prev + seq![first]);
                assert(prev.last() == p);
                assert(cs[p].span.end.line + 1 == cs[first].span.start.line);
                assert forall|k: int| 0 <= k < ch.len() - 1 implies cs[
                    #[trigger] ch[k]
                ].span.end.line + 1 == cs[ch[k + 1]].span.start.line by {
                    if k < prev.len() - 1 {
                        assert(ch[k] == prev[k]);
                        assert(ch[k + 1] == prev[k + 1]);
                    } else {
                        assert(ch[k] == prev.last());
                        assert(ch[k + 1] == first);
                    }
                }
            },
        }
    }
}

/// Every member of an element's block is an unclaimed comment index in
/// range: an element only ever claims comments no earlier element claimed.
proof fn lemma_element_block_unclaimed(
    cs: Seq<CommentModel>,
    starts: Seq<Location>,
    claimed: Set<int>,
    e: Location,
    strat: CollectionStrategy,
    is_column: bool,
)
    ensures
        ({
            let b = element_block(cs, starts, claimed, e, strat, is_column);
            &&& (forall|k: int| 0 <= k < b.len() ==> 0 <= #[trigger] b[k] < cs.len())
            &&& (forall|k: int| 0 <= k < b.len() ==> !claimed.contains(#[trigger] b[k]))
        }),
{
    lemma_latest_leading_props(cs, starts, claimed, e.line, cs.len() as int);
    lemma_best_trailing_props(cs, starts, claimed, e, cs.len() as int);
    match latest_leading(cs, starts, claimed, e.line, cs.len() as int) {
        Option::None => {},
        Option::Some(c0) => {
            match strat {
                CollectionStrategy::SingleNearest => {},
                CollectionStrategy::AllLeading => {
                    lemma_chain_props(cs, starts, claimed, c0, false, cs.len());
                },
                CollectionStrategy::AllSingleOneMulti => {
                    if is_single_line(cs[c0]) {
                        lemma_chain_props(cs, starts, claimed, c0, true, cs.len());
                    }
                },
            }
        },
    }
}

/// The set of comment indices in any of the blocks.
pub open spec fn union_of(blocks: Seq<Seq<int>>) -> Set<int>
    decreases blocks.len(),
{
    if blocks.len() == 0 {
        Set::empty()
    } else {
        blocks[0].to_set().union(union_of(blocks.drop_first()))
    }
}

/// No comment index occurs in two distinct blocks.
pub open spec fn pairwise_disjoint(blocks: Seq<Seq<int>>) -> bool {
    forall|i: int, j: int|
        0 <= i < j < blocks.len() ==> (#[trigger] blocks[i]).to_set().disjoint(
            (#[trigger] blocks[j]).to_set(),
        )
}

/// The blocks the engine claims for a table's columns, in declaration order,
/// threading the claimed set exactly as `attach_columns` does.
pub open spec fn column_blocks(
    cs: Seq<CommentModel>,
    starts: Seq<Location>,
    claimed: Set<int>,
    cols: Seq<ColumnDeclModel>,
    strat: CollectionStrategy,
) -> Seq<Seq<int>>
    decreases cols.len(),
{
    if cols.len() == 0 {
        Seq::empty()
    } else {
        let blk = element_block(cs, starts, claimed, cols[0].span.start, strat, true);
        seq![blk] + column_blocks(cs, starts, claimed.union(blk.to_set()), cols.drop_first(), strat)
    }
}

/// The blocks the engine claims for every element of every table, in
/// processing order, threading the claimed set exactly as `attach_tables`
/// does.
pub open spec fn table_blocks(
    cs: Seq<CommentModel>,
    starts: Seq<Location>,
    claimed: Set<int>,
    tables: Seq<TableDeclModel>,
    strat: CollectionStrategy,
) -> Seq<Seq<int>>
    decreases tables.len(),
{
    if tables.len() == 0 {
        Seq::empty()
    } else {
        let t = tables[0];
        let blk = element_block(cs, starts, claimed, t.span.start, strat, false);
        let c1 = claimed.union(blk.to_set());
        let cb = column_blocks(cs, starts, c1, t.columns, strat);
        seq![blk] + cb + table_blocks(cs, starts, c1.union(union_of(cb)), tables.drop_first(), strat)
    }
}

/// `attach_columns` ends with exactly the initial claims plus its blocks'
/// members: the engine claims what the blocks hold and nothing else.
proof fn lemma_columns_claimed(
    cs: Seq<CommentModel>,
    starts: Seq<Location>,
    claimed: Set<int>,
    cols: Seq<ColumnDeclModel>,
    strat: CollectionStrategy,
    multi: MultilineModel,
)
    ensures
        attach_columns(cs, starts, claimed, cols, strat, multi).1 == claimed.union(
            union_of(column_blocks(cs, starts, claimed, cols, strat)),
        ),
    decreases cols.len(),
{
    if cols.len() == 0 {
        assert(union_of(Seq::empty()) =~= Set::<int>::empty());
        assert(claimed.union(Set::empty()) =~= claimed);
    } else {
        let blk = element_block(cs, starts, claimed, cols[0].span.start, strat, true);
        let c1 = claimed.union(blk.to_set());
        lemma_columns_claimed(cs, starts, c1, cols.drop_first(), strat, multi);
        let rest_blocks = column_blocks(cs, starts, c1, cols.drop_first(), strat);
        assert(column_blocks(cs, starts, claimed, cols, strat) =~= seq![blk] + rest_blocks);
        assert((seq![blk] + rest_blocks).drop_first() =~= rest_blocks);
        assert(union_of(seq![blk] + rest_blocks) =~= blk.to_set().union(union_of(rest_blocks)));
        assert(c1.union(union_of(rest_blocks)) =~= claimed.union(
            union_of(seq![blk] + rest_blocks),
        ));
    }
}

/// `attach_tables` ends with exactly the initial claims plus its blocks'
/// members: `table_blocks` lists precisely what the engine claims, in the
/// order it claims it.
pub proof fn lemma_tables_claimed(
    cs: Seq<CommentModel>,
    starts: Seq<Location>,
    claimed: Set<int>,
    tables: Seq<TableDeclModel>,
    strat: CollectionStrategy,
    multi: MultilineModel,
)
    ensures
        attach_tables(cs, starts, claimed, tables, strat, multi).1 == claimed.union(
            union_of(table_blocks(cs, starts, claimed, tables, strat)),
        ),
    decreases tables.len(),
{
    let bs = table_blocks(cs, starts, claimed, tables, strat);
    if tables.len() == 0 {
        assert(union_of(Seq::empty()) =~= Set::<int>::empty());
        assert(claimed.union(Set::empty()) =~= claimed);
    } else {
        let t = tables[0];
        let blk = element_block(cs, starts, claimed, t.span.start, strat, false);
        let c1 = claimed.union(blk.to_set());
        let cb = column_blocks(cs, starts, c1, t.columns, strat);
        let c2 = c1.union(union_of(cb));
        lemma_columns_claimed(cs, starts, c1, t.columns, strat, multi);
        lemma_tables_claimed(cs, starts, c2, tables.drop_first(), strat, multi);
        let rest = table_blocks(cs, starts, c2, tables.drop_first(), strat);
        assert(bs =~= seq![blk] + cb + rest);
        lemma_union_of_concat(seq![blk] + cb, rest);
        lemma_union_of_concat(seq![blk], cb);
        assert(seq![blk].drop_first() =~= Seq::<Seq<int>>::empty());
        assert(union_of(Seq::<Seq<int>>::empty()) =~= Set::<int>::empty());
        assert(union_of(seq![blk]) =~= blk.to_set());
        assert(c2.union(union_of(rest)) =~= claimed.union(union_of(bs)));
    }
}

/// The members of concatenated block lists are the two unions combined.
proof fn lemma_union_of_concat(a: Seq<Seq<int>>, b: Seq<Seq<int>>)
    ensures
        union_of(a + b) == union_of(a).union(union_of(b)),
    decreases a.len(),
{
    if a.len() == 0 {
        assert(a + b =~= b);
        assert(union_of(Seq::empty()) =~= Set::<int>::empty());
        assert(Set::<int>::empty().union(union_of(b)) =~= union_of(b));
    } else {
        lemma_union_of_concat(a.drop_first(), b);
        assert((a + b).drop_first() =~= a.drop_first() + b);
        assert((a + b)[0] == a[0]);
        assert(union_of(a + b) =~= union_of(a).union(union_of(b)));
    }
}

/// Blocks of later columns never reuse a comment: each block avoids the
/// claims standing when it is built, so the blocks are pairwise disjoint and
/// all avoid the initial claims.
proof fn lemma_column_blocks_disjoint(
    cs: Seq<CommentModel>,
    starts: Seq<Location>,
    claimed: Set<int>,
    cols: Seq<ColumnDeclModel>,
    strat: CollectionStrategy,
)
    ensures
        ({
            let bs = column_blocks(cs, starts, claimed, cols, strat);
            &&& (forall|k: int|
                0 <= k < bs.len() ==> (#[trigger] bs[k]).to_set().disjoint(claimed))
            &&& pairwise_disjoint(bs)
        }),
    decreases cols.len(),
{
    let bs = column_blocks(cs, starts, claimed, cols, strat);
    if cols.len() > 0 {
        let blk = element_block(cs, starts, claimed, cols[0].span.start, strat, true);
        let c1 = claimed.union(blk.to_set());
        lemma_element_block_unclaimed(cs, starts, claimed, cols[0].span.start, strat, true);
        lemma_block_set_disjoint(blk, claimed);
        lemma_column_blocks_disjoint(cs, starts, c1, cols.drop_first(), strat);
        let rest = column_blocks(cs, starts, c1, cols.drop_first(), strat);
        assert(bs =~= seq![blk] + rest);
        assert forall|k: int| 0 <= k < bs.len() implies (#[trigger] bs[k]).to_set().disjoint(
            claimed,
        ) by {
            if k > 0 {
                assert(bs[k] == rest[k - 1]);
                assert(rest[k - 1].to_set().disjoint(c1));
                assert(rest[k - 1].to_set().disjoint(claimed)) by {
                    assert forall|x: int|
                        rest[k - 1].to_set().contains(x) implies !claimed.contains(x) by {
                        assert(!c1.contains(x));
                    }
                }
            }
        }
        assert forall|i: int, j: int| 0 <= i < j < bs.len() implies (
        #[trigger] bs[i]).to_set().disjoint((#[trigger] bs[j]).to_set()) by {
            if i == 0 {
                assert(bs[j] == rest[j - 1]);
                assert(rest[j - 1].to_set().disjoint(c1));
                assert forall|x: int| bs[0].to_set().contains(x) implies !bs[j].to_set().contains(
                    x,
                ) by {
                    assert(c1.contains(x));
                }
            } else {
                assert(bs[i] == rest[i - 1]);
                assert(bs[j] == rest[j - 1]);
            }
        }
    }
}

/// A block whose members are all outside `claimed` has a member set disjoint
/// from `claimed`.
proof fn lemma_block_set_disjoint(blk: Seq<int>, claimed: Set<int>)
    requires
        forall|k: int| 0 <= k < blk.len() ==> !claimed.contains(#[trigger] blk[k]),
    ensures
        blk.to_set().disjoint(claimed),
{
    assert forall|x: int| blk.to_set().contains(x) implies !claimed.contains(x) by {
        let k = choose|k: int| 0 <= k < blk.len() && blk[k] == x;
        assert(!claimed.contains(blk[k]));
    }
}

/// No double attribution: over one whole file, processed in declaration
/// order from no claims, the blocks claimed for distinct elements are
/// pairwise disjoint — no comment funds two elements.
pub proof fn lemma_no_double_attribution(
    cs: Seq<CommentModel>,
    starts: Seq<Location>,
    claimed: Set<int>,
    tables: Seq<TableDeclModel>,
    strat: CollectionStrategy,
)
    ensures
        ({
            let bs = table_blocks(cs, starts, claimed, tables, strat);
            &&& (forall|k: int|
                0 <= k < bs.len() ==> (#[trigger] bs[k]).to_set().disjoint(claimed))
            &&& pairwise_disjoint(bs)
        }),
    decreases tables.len(),
{
    let bs = table_blocks(cs, starts, claimed, tables, strat);
    if tables.len() > 0 {
        let t = tables[0];
        let blk = element_block(cs, starts, claimed, t.span.start, strat, false);
        let c1 = claimed.union(blk.to_set());
        let cb = column_blocks(cs, starts, c1, t.columns, strat);
        let c2 = c1.union(union_of(cb));
        let rest = table_blocks(cs, starts, c2, tables.drop_first(), strat);
        assert(bs =~= seq![blk] + cb + rest);
        lemma_element_block_unclaimed(cs, starts, claimed, t.span.start, strat, false);
        lemma_block_set_disjoint(blk, claimed);
        lemma_column_blocks_disjoint(cs, starts, c1, t.columns, strat);
        lemma_no_double_attribution(cs, starts, c2, tables.drop_first(), strat);
        lemma_union_of_members(cs, starts, c1, t.columns, strat);
        assert forall|k: int| 0 <= k < bs.len() implies (#[trigger] bs[k]).to_set().disjoint(
            claimed,
        ) by {
            lemma_block_at(bs, blk, cb, rest, k);
            if 1 <= k < 1 + cb.len() {
                assert(bs[k] == cb[k - 1]);
                lemma_disjoint_mono(cb[k - 1].to_set(), c1, claimed);
            } else if k >= 1 + cb.len() {
                assert(bs[k] == rest[k - 1 - cb.len()]);
                lemma_disjoint_mono(rest[k - 1 - cb.len()].to_set(), c2, claimed);
            }
        }
        assert forall|i: int, j: int| 0 <= i < j < bs.len() implies (
        #[trigger] bs[i]).to_set().disjoint((#[trigger] bs[j]).to_set()) by {
            lemma_block_at(bs, blk, cb, rest, i);
            lemma_block_at(bs, blk, cb, rest, j);
            if i == 0 {
                if j < 1 + cb.len() {
                    lemma_disjoint_mono(cb[j - 1].to_set(), c1, blk.to_set());
                    lemma_disjoint_symmetric(bs[j].to_set(), bs[0].to_set());
                } else {
                    lemma_disjoint_mono(rest[j - 1 - cb.len()].to_set(), c2, blk.to_set());
                    lemma_disjoint_symmetric(bs[j].to_set(), bs[0].to_set());
                }
            } else if i < 1 + cb.len() {
                if j < 1 + cb.len() {
                    assert(cb[i - 1].to_set().disjoint(cb[j - 1].to_set()));
                } else {
                    lemma_disjoint_mono(
                        rest[j - 1 - cb.len()].to_set(),
                        c2,
                        cb[i - 1].to_set(),
                    );
                    lemma_disjoint_symmetric(bs[j].to_set(), bs[i].to_set());
                }
            } else {
                assert(rest[i - 1 - cb.len()].to_set().disjoint(rest[j - 1 - cb.len()].to_set()));
            }
        }
    }
}

/// Where each block of `seq![blk] + cb + rest` stands.
proof fn lemma_block_at(
    bs: Seq<Seq<int>>,
    blk: Seq<int>,
    cb: Seq<Seq<int>>,
    rest: Seq<Seq<int>>,
    k: int,
)
    requires
        bs == seq![blk] + cb + rest,
        0 <= k < bs.len(),
    ensures
        k == 0 ==> bs[k] == blk,
        1 <= k < 1 + cb.len() ==> bs[k] == cb[k - 1],
        1 + cb.len() <= k ==> bs[k] == rest[k - 1 - cb.len()],
{
}

/// A set disjoint from a larger set is disjoint from anything inside it.
proof fn lemma_disjoint_mono(a: Set<int>, big: Set<int>, other: Set<int>)
    requires
        a.disjoint(big),
        forall|x: int| other.contains(x) ==> big.contains(x),
    ensures
        a.disjoint(other),
{
    assert forall|x: int| a.contains(x) implies !other.contains(x) by {
        if other.contains(x) {
            assert(big.contains(x));
        }
    }
}

/// Disjointness is symmetric.
proof fn lemma_disjoint_symmetric(a: Set<int>, b: Set<int>)
    requires
        a.disjoint(b),
    ensures
        b.disjoint(a),
{
    assert forall|x: int| b.contains(x) implies !a.contains(x) by {
        if a.contains(x) {
            assert(!b.contains(x));
        }
    }
}

/// Each column block's members lie in the union of the column blocks.
proof fn lemma_union_of_members(
    cs: Seq<CommentModel>,
    starts: Seq<Location>,
    claimed: Set<int>,
    cols: Seq<ColumnDeclModel>,
    strat: CollectionStrategy,
)
    ensures
        ({
            let bs = column_blocks(cs, starts, claimed, cols, strat);
            forall|k: int, x: int|
                0 <= k < bs.len() && (#[trigger] bs[k]).to_set().contains(x) ==> #[trigger] union_of(
                    bs,
                ).contains(x)
        }),
    decreases cols.len(),
{
    let bs = column_blocks(cs, starts, claimed, cols, strat);
    if cols.len() > 0 {
        let blk = element_block(cs, starts, claimed, cols[0].span.start, strat, true);
        let c1 = claimed.union(blk.to_set());
        lemma_union_of_members(cs, starts, c1, cols.drop_first(), strat);
        let rest = column_blocks(cs, starts, c1, cols.drop_first(), strat);
        assert(bs =~= seq![blk] + rest);
        assert(bs.drop_first() =~= rest);
        assert forall|k: int, x: int|
            0 <= k < bs.len() && (#[trigger] bs[k]).to_set().contains(x) implies #[trigger] union_of(
            bs,
        ).contains(x) by {
            if k > 0 {
                assert(bs[k] == rest[k - 1]);
                assert(union_of(rest).contains(x));
            }
            assert(union_of(bs) == blk.to_set().union(union_of(rest)));
        }
    }
}

/// Strategy monotonicity: for one element and one claimed state, the
/// nearest-comment strategy selects exactly the last member of the full
/// leading block, so the flattened text of the full block ends with the
/// flattened text of the nearest comment.
pub proof fn lemma_strategy_monotonic(
    cs: Seq<CommentModel>,
    starts: Seq<Location>,
    claimed: Set<int>,
    line: u64,
    sep: Seq<char>,
)
    ensures
        ({
            let b_all = selected_leading(cs, starts, claimed, line, CollectionStrategy::AllLeading);
            let b_one = selected_leading(
                cs,
                starts,
                claimed,
                line,
                CollectionStrategy::SingleNearest,
            );
            &&& b_one.len() <= b_all.len()
            &&& (b_all.len() == 0 ==> b_one.len() == 0)
            &&& (b_all.len() > 0 ==> b_one =~= seq![b_all.last()])
            &&& (b_all.len() > 0 ==> exists|prefix: Seq<char>|
                join_texts(block_texts(cs, b_all), sep) == prefix + join_texts(
                    block_texts(cs, b_one),
                    sep,
                ))
        }),
{
    lemma_latest_leading_props(cs, starts, claimed, line, cs.len() as int);
    let b_all = selected_leading(cs, starts, claimed, line, CollectionStrategy::AllLeading);
    let b_one = selected_leading(cs, starts, claimed, line, CollectionStrategy::SingleNearest);
    match latest_leading(cs, starts, claimed, line, cs.len() as int) {
        Option::None => {},
        Option::Some(c0) => {
            lemma_chain_props(cs, starts, claimed, c0, false, cs.len());
            assert(b_all == chain_to(cs, starts, claimed, c0, false, cs.len()));
            assert(b_one =~= seq![b_all.last()]) by {
                assert(b_all.last() == c0);
            }
            let ts = block_texts(cs, b_all);
            assert(ts.len() == b_all.len());
            assert(ts.last() == cs[c0].text) by {
                assert(b_all.last() == c0);
            }
            let jb1 = join_texts(block_texts(cs, b_one), sep);
            assert(jb1 == cs[c0].text) by {
                assert(block_texts(cs, b_one) =~= seq![cs[c0].text]);
            }
            if ts.len() == 1 {
                assert(ts =~= seq![cs[c0].text]);
                let prefix = Seq::<char>::empty();
                assert(join_texts(block_texts(cs, b_all), sep) == prefix + join_texts(
                    block_texts(cs, b_one),
                    sep,
                )) by {
                    assert(Seq::<char>::empty() + cs[c0].text =~= cs[c0].text);
                }
            } else {
                assert(ts =~= ts.drop_last().push(ts.last()));
                lemma_join_texts_snoc(ts.drop_last(), ts.last(), sep);
                let prefix = join_texts(ts.drop_last(), sep) + sep;
                assert(join_texts(block_texts(cs, b_all), sep) == prefix + join_texts(
                    block_texts(cs, b_one),
                    sep,
                )) by {
                    assert(join_texts(ts, sep) =~= prefix + cs[c0].text);
                }
            }
        },
    }
}

/// Flatten and Preserve select the same comments: preserving a block and
/// joining its fragments with a separator yields exactly the text that
/// flattening with that separator yields, for any block.
pub proof fn lemma_flatten_preserve_agree(cs: Seq<CommentModel>, block: Seq<int>, sep: Seq<char>)
    ensures
        ({
            let preserved = render(cs, block, MultilineModel::Preserve);
            let flattened = render(cs, block, MultilineModel::Flatten(sep));
            &&& (preserved matches AttachmentModel::Fragments(ts) ==> flattened
                == AttachmentModel::Single(join_texts(ts, sep)))
            &&& (preserved is Absent <==> flattened is Absent)
            &&& !(preserved is Single)
        }),
{
}

/// Blank-line break: every comment a leading block attaches stands in an
/// unbroken run — the nearest member ends on the line directly above the
/// declaration, and every other member ends on the line directly above the
/// next member's start.  A comment separated from the declaration by a blank
/// line can satisfy neither condition, so it is never attached, under any
/// strategy.
pub proof fn lemma_blank_line_breaks(
    cs: Seq<CommentModel>,
    starts: Seq<Location>,
    claimed: Set<int>,
    line: u64,
    strat: CollectionStrategy,
)
    ensures
        ({
            let b = selected_leading(cs, starts, claimed, line, strat);
            &&& (b.len() > 0 ==> cs[b.last()].span.end.line + 1 == line)
            &&& (forall|i: int|
                0 <= i < b.len() - 1 ==> cs[#[trigger] b[i]].span.end.line + 1 == cs[b[i
                    + 1]].span.start.line)
        }),
{
    lemma_latest_leading_props(cs, starts, claimed, line, cs.len() as int);
    match latest_leading(cs, starts, claimed, line, cs.len() as int) {
        Option::None => {},
        Option::Some(c0) => {
            match strat {
                CollectionStrategy::SingleNearest => {},
                CollectionStrategy::AllLeading => {
                    lemma_chain_props(cs, starts, claimed, c0, false, cs.len());
                },
                CollectionStrategy::AllSingleOneMulti => {
                    if is_single_line(cs[c0]) {
                        lemma_chain_props(cs, starts, claimed, c0, true, cs.len());
                    }
                },
            }
        },
    }
}

/// Determinism: the documentation of a file is a function of the
/// declarations, the comments and the strategies alone, so two results of
/// the same inputs are equal.
pub proof fn lemma_attachment_deterministic(
    tables: Seq<TableDeclModel>,
    cs: Seq<CommentModel>,
    strat: CollectionStrategy,
    multi: MultilineModel,
    r1: Seq<TableDocModel>,
    r2: Seq<TableDocModel>,
)
    requires
        r1 == attach_file(tables, cs, strat, multi),
        r2 == attach_file(tables, cs, strat, multi),
    ensures
        r1 == r2,
{
}

/// Determinism of whole builds: the tables a build yields are a function of
/// the deny patterns, the dialect name, the strategies and the sources, so
/// repeated builds of one configuration are identical.
pub proof fn lemma_build_deterministic(
    pats: Seq<Seq<char>>,
    dialect_name: Seq<char>,
    strat: CollectionStrategy,
    multi: MultilineModel,
    files: Seq<SqlFileModel>,
    t1: Seq<TableDocModel>,
    t2: Seq<TableDocModel>,
)
    requires
        t1 == built_tables(pats, dialect_name, strat, multi, files),
        t2 == built_tables(pats, dialect_name, strat, multi, files),
    ensures
        t1 == t2,
{
}

/// The spec's exact blank-line law: between an attached leading comment and
/// the declaration no line is left uncovered — every line strictly between a
/// block member's end and the declaration's line lies within a later member
/// of the same block.  A comment separated from the declaration by a line
/// that no attached comment covers is therefore never attached, under any
/// strategy; and a trailing comment shares the declaration's own line.
pub proof fn lemma_blank_line_gap_covered(
    cs: Seq<CommentModel>,
    starts: Seq<Location>,
    claimed: Set<int>,
    line: u64,
    strat: CollectionStrategy,
    k: int,
    gap: int,
)
    requires
        ({
            let b = selected_leading(cs, starts, claimed, line, strat);
            0 <= k < b.len() && cs[b[k]].span.end.line < gap < line
        }),
    ensures
        ({
            let b = selected_leading(cs, starts, claimed, line, strat);
            exists|k2: int|
                k < k2 < b.len() && cs[#[trigger] b[k2]].span.start.line <= gap <= cs[
                    b[k2]
                ].span.end.line
        }),
    decreases selected_leading(cs, starts, claimed, line, strat).len() - k,
{
    lemma_blank_line_breaks(cs, starts, claimed, line, strat);
    let b = selected_leading(cs, starts, claimed, line, strat);
    if k == b.len() - 1 {
        assert(cs[b[k]].span.end.line + 1 == line);
        assert(false);
    } else {
        assert(cs[b[k]].span.end.line + 1 == cs[b[k + 1]].span.start.line);
        if gap <= cs[b[k + 1]].span.end.line {
            assert(cs[b[k + 1]].span.start.line <= gap <= cs[b[k + 1]].span.end.line);
        } else {
            lemma_blank_line_gap_covered(cs, starts, claimed, line, strat, k + 1, gap);
        }
    }
}

/// Flattening an attachment: fragments become one string joined with the
/// separator; anything else stays as it is.
pub open spec fn flatten_attachment(a: AttachmentModel, sep: Seq<char>) -> AttachmentModel {
    match a {
        AttachmentModel::Fragments(ts) => AttachmentModel::Single(join_texts(ts, sep)),
        _ => a,
    }
}

/// Flattening a column doc's attachment.
pub open spec fn flatten_column_doc(c: ColumnDocModel, sep: Seq<char>) -> ColumnDocModel {
    ColumnDocModel { name: c.name, doc: flatten_attachment(c.doc, sep) }
}

/// Flattening a table doc's attachment and those of its columns.
pub open spec fn flatten_table_doc(t: TableDocModel, sep: Seq<char>) -> TableDocModel {
    TableDocModel {
        name: t.name,
        doc: flatten_attachment(t.doc, sep),
        columns: t.columns.map_values(|c: ColumnDocModel| flatten_column_doc(c, sep)),
    }
}

/// Flatten and Preserve select and claim the same comments for a table's
/// columns; the flattened docs are the preserved docs with each fragment
/// sequence joined.
proof fn lemma_flatten_preserve_columns(
    cs: Seq<CommentModel>,
    starts: Seq<Location>,
    claimed: Set<int>,
    cols: Seq<ColumnDeclModel>,
    strat: CollectionStrategy,
    sep: Seq<char>,
)
    ensures
        ({
            let p = attach_columns(cs, starts, claimed, cols, strat, MultilineModel::Preserve);
            let f = attach_columns(cs, starts, claimed, cols, strat, MultilineModel::Flatten(sep));
            f.0 == p.0.map_values(|c: ColumnDocModel| flatten_column_doc(c, sep)) && f.1 == p.1
        }),
    decreases cols.len(),
{
    let p = attach_columns(cs, starts, claimed, cols, strat, MultilineModel::Preserve);
    let f = attach_columns(cs, starts, claimed, cols, strat, MultilineModel::Flatten(sep));
    if cols.len() == 0 {
        assert(f.0 =~= p.0.map_values(|c: ColumnDocModel| flatten_column_doc(c, sep)));
    } else {
        let blk = element_block(cs, starts, claimed, cols[0].span.start, strat, true);
        lemma_flatten_preserve_agree(cs, blk, sep);
        lemma_flatten_preserve_columns(
            cs,
            starts,
            claimed.union(blk.to_set()),
            cols.drop_first(),
            strat,
            sep,
        );
        assert(f.0 =~= p.0.map_values(|c: ColumnDocModel| flatten_column_doc(c, sep)));
    }
}

/// Flatten and Preserve select and claim the same comments over a whole
/// file; the flattened docs are the preserved docs with each fragment
/// sequence joined.
proof fn lemma_flatten_preserve_tables(
    cs: Seq<CommentModel>,
    starts: Seq<Location>,
    claimed: Set<int>,
    tables: Seq<TableDeclModel>,
    strat: CollectionStrategy,
    sep: Seq<char>,
)
    ensures
        ({
            let p = attach_tables(cs, starts, claimed, tables, strat, MultilineModel::Preserve);
            let f = attach_tables(
                cs,
                starts,
                claimed,
                tables,
                strat,
                MultilineModel::Flatten(sep),
            );
            f.0 == p.0.map_values(|t: TableDocModel| flatten_table_doc(t, sep)) && f.1 == p.1
        }),
    decreases tables.len(),
{
    let p = attach_tables(cs, starts, claimed, tables, strat, MultilineModel::Preserve);
    let f = attach_tables(cs, starts, claimed, tables, strat, MultilineModel::Flatten(sep));
    if tables.len() == 0 {
        assert(f.0 =~= p.0.map_values(|t: TableDocModel| flatten_table_doc(t, sep)));
    } else {
        let t = tables[0];
        let blk = element_block(cs, starts, claimed, t.span.start, strat, false);
        lemma_flatten_preserve_agree(cs, blk, sep);
        let c1 = claimed.union(blk.to_set());
        lemma_flatten_preserve_columns(cs, starts, c1, t.columns, strat, sep);
        let pc = attach_columns(cs, starts, c1, t.columns, strat, MultilineModel::Preserve);
        lemma_flatten_preserve_tables(cs, starts, pc.1, tables.drop_first(), strat, sep);
        assert(f.0 =~= p.0.map_values(|t2: TableDocModel| flatten_table_doc(t2, sep)));
    }
}

/// Flatten/Preserve over one file's documentation: flattening with a
/// separator yields exactly the preserved documentation with every fragment
/// sequence joined with that separator, element by element.
pub proof fn lemma_flatten_preserve_file(
    tables: Seq<TableDeclModel>,
    cs: Seq<CommentModel>,
    strat: CollectionStrategy,
    sep: Seq<char>,
)
    ensures
        attach_file(tables, cs, strat, MultilineModel::Flatten(sep)) == attach_file(
            tables,
            cs,
            strat,
            MultilineModel::Preserve,
        ).map_values(|t: TableDocModel| flatten_table_doc(t, sep)),
{
    lemma_flatten_preserve_tables(
        cs,
        crate::engine::all_starts(tables),
        Set::empty(),
        tables,
        strat,
        sep,
    );
}

/// Flatten/Preserve over a whole build: the tables built with Flatten equal
/// the tables built with Preserve, with every fragment sequence joined.
pub proof fn lemma_flatten_preserve_build(
    pats: Seq<Seq<char>>,
    dialect_name: Seq<char>,
    strat: CollectionStrategy,
    sep: Seq<char>,
    files: Seq<SqlFileModel>,
)
    ensures
        built_tables(pats, dialect_name, strat, MultilineModel::Flatten(sep), files)
            == built_tables(pats, dialect_name, strat, MultilineModel::Preserve, files).map_values(
            |t: TableDocModel| flatten_table_doc(t, sep),
        ),
    decreases files.len(),
{
    let flat = built_tables(pats, dialect_name, strat, MultilineModel::Flatten(sep), files);
    let pres = built_tables(pats, dialect_name, strat, MultilineModel::Preserve, files);
    if files.len() == 0 {
        assert(flat =~= pres.map_values(|t: TableDocModel| flatten_table_doc(t, sep)));
    } else {
        lemma_flatten_preserve_build(pats, dialect_name, strat, sep, files.drop_last());
        if !denied_file(pats, files.last()) {
            let parsed = crate::ast::parsed_tables_of(dialect_name, files.last().content)->0;
            lemma_flatten_preserve_file(
                parsed,
                crate::extract::comments_in(files.last().content),
                strat,
                sep,
            );
        }
        assert(flat =~= pres.map_values(|t: TableDocModel| flatten_table_doc(t, sep)));
    }
}

/// Deny idempotence over a whole build: denying a pattern twice filters, and
/// therefore builds, exactly as denying it once.
pub proof fn lemma_deny_idempotent_build(
    pats: Seq<Seq<char>>,
    p: Seq<char>,
    dialect_name: Seq<char>,
    strat: CollectionStrategy,
    multi: MultilineModel,
    files: Seq<SqlFileModel>,
)
    ensures
        built_tables(pats.push(p).push(p), dialect_name, strat, multi, files) == built_tables(
            pats.push(p),
            dialect_name,
            strat,
            multi,
            files,
        ),
        all_parse(pats.push(p).push(p), dialect_name, files) == all_parse(
            pats.push(p),
            dialect_name,
            files,
        ),
    decreases files.len(),
{
    let once = pats.push(p);
    let twice = once.push(p);
    assert forall|i: int| 0 <= i < files.len() implies denied_file(twice, #[trigger] files[i])
        == denied_file(once, files[i]) by {
        lemma_deny_idempotent(pats, p, files[i].path, files[i].content);
    }
    if files.len() > 0 {
        lemma_deny_idempotent_build(pats, p, dialect_name, strat, multi, files.drop_last());
        assert(built_tables(twice, dialect_name, strat, multi, files) =~= built_tables(
            once,
            dialect_name,
            strat,
            multi,
            files,
        ));
    }
    assert(all_parse(twice, dialect_name, files) == all_parse(once, dialect_name, files)) by {
        if all_parse(twice, dialect_name, files) {
            assert forall|i: int| 0 <= i < files.len() implies denied_file(
                once,
                #[trigger] files[i],
            ) || file_parses(dialect_name, files[i]) by {
                assert(denied_file(twice, files[i]) || file_parses(dialect_name, files[i]));
            }
        }
        if all_parse(once, dialect_name, files) {
            assert forall|i: int| 0 <= i < files.len() implies denied_file(
                twice,
                #[trigger] files[i],
            ) || file_parses(dialect_name, files[i]) by {
                assert(denied_file(once, files[i]) || file_parses(dialect_name, files[i]));
            }
        }
    }
}

/// A deny set that matches no source filters nothing: the build equals the
/// build with no deny patterns at all.  With `lemma_deny_empty`, an empty
/// deny set in particular excludes nothing.
pub proof fn lemma_deny_free_build(
    pats: Seq<Seq<char>>,
    dialect_name: Seq<char>,
    strat: CollectionStrategy,
    multi: MultilineModel,
    files: Seq<SqlFileModel>,
)
    requires
        forall|i: int| 0 <= i < files.len() ==> !denied_file(pats, #[trigger] files[i]),
    ensures
        built_tables(pats, dialect_name, strat, multi, files) == built_tables(
            Seq::empty(),
            dialect_name,
            strat,
            multi,
            files,
        ),
        all_parse(pats, dialect_name, files) == all_parse(Seq::empty(), dialect_name, files),
    decreases files.len(),
{
    assert forall|i: int| 0 <= i < files.len() implies !denied_file(
        Seq::empty(),
        #[trigger] files[i],
    ) by {
        lemma_deny_empty(files[i].path, files[i].content);
    }
    if files.len() > 0 {
        lemma_deny_free_build(pats, dialect_name, strat, multi, files.drop_last());
        assert(built_tables(pats, dialect_name, strat, multi, files) =~= built_tables(
            Seq::empty(),
            dialect_name,
            strat,
            multi,
            files,
        ));
    }
}

} // verus!
