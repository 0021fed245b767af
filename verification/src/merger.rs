//! The order in which byte ranges are removed.

use vstd::prelude::*;
use crate::classifier::symbol_is_unused;
use crate::resolver::{removal_node, removal_spans, removes};
use crate::span::Span;
use crate::syntax::SyntaxTree;

verus! {

/// The order in which ranges are listed: by start, and by end among ranges
/// of one start.
pub open spec fn span_before(left: Span, right: Span) -> bool {
    left.start < right.start || (left.start == right.start && left.end < right.end)
}

/// True where each range comes strictly before all ranges listed ahead of it,
/// so that the list runs from the last range to the first and holds none
/// twice.
pub open spec fn strictly_descending(spans: Seq<Span>) -> bool {
    forall|i: int, j: int|
        0 <= i < j < spans.len() ==> span_before(#[trigger] spans[j], #[trigger] spans[i])
}

/// True where `spans` lists the ranges that have to go, from the last to the
/// first, each one once.
pub open spec fn is_removal_order(tree: SyntaxTree, spans: Seq<Span>) -> bool {
    &&& strictly_descending(spans)
    &&& forall|span: Span| spans.contains(span) <==> removal_spans(tree).contains(span)
}

/// The ranges that have to go, from the last to the first, each one once.
pub open spec fn removal_order(tree: SyntaxTree) -> Seq<Span> {
    choose|spans: Seq<Span>| is_removal_order(tree, spans)
}

/// Two descending lists of the same ranges are the same list.
pub proof fn lemma_descending_order_is_unique(left: Seq<Span>, right: Seq<Span>)
    requires
        strictly_descending(left),
        strictly_descending(right),
        forall|span: Span| left.contains(span) <==> right.contains(span),
    ensures
        left == right,
    decreases left.len(),
{
    if left.len() == 0 {
        if right.len() > 0 {
            assert(right.contains(right[0]));
        }
        assert(left =~= right);
    } else {
        assert(left.contains(left[0]));
        let k = choose|k: int| 0 <= k < right.len() && right[k] == left[0];
        assert(right.contains(right[0]));
        let m = choose|m: int| 0 <= m < left.len() && left[m] == right[0];
        if k > 0 {
            assert(span_before(right[k], right[0]));
            if m > 0 {
                assert(span_before(left[m], left[0]));
            }
        }
        assert(left[0] == right[0]);
        let left_rest = left.drop_first();
        let right_rest = right.drop_first();
        assert forall|span: Span| left_rest.contains(span) <==> right_rest.contains(span) by {
            if left_rest.contains(span) {
                let i = choose|i: int| 0 <= i < left_rest.len() && left_rest[i] == span;
                assert(left[i + 1] == span);
                assert(span_before(left[i + 1], left[0]));
                assert(left.contains(span));
                let j = choose|j: int| 0 <= j < right.len() && right[j] == span;
                assert(right_rest[j - 1] == span);
            }
            if right_rest.contains(span) {
                let i = choose|i: int| 0 <= i < right_rest.len() && right_rest[i] == span;
                assert(right[i + 1] == span);
                assert(span_before(right[i + 1], right[0]));
                assert(right.contains(span));
                let j = choose|j: int| 0 <= j < left.len() && left[j] == span;
                assert(left_rest[j - 1] == span);
            }
        }
        assert(strictly_descending(left_rest)) by {
            assert forall|i: int, j: int| 0 <= i < j < left_rest.len() implies span_before(
                #[trigger] left_rest[j],
                #[trigger] left_rest[i],
            ) by {
                assert(span_before(left[j + 1], left[i + 1]));
            }
        }
        assert(strictly_descending(right_rest)) by {
            assert forall|i: int, j: int| 0 <= i < j < right_rest.len() implies span_before(
                #[trigger] right_rest[j],
                #[trigger] right_rest[i],
            ) by {
                assert(span_before(right[j + 1], right[i + 1]));
            }
        }
        lemma_descending_order_is_unique(left_rest, right_rest);
        assert(left =~= seq![left[0]] + left_rest);
        assert(right =~= seq![right[0]] + right_rest);
    }
}

/// A descending list holds no range twice.
pub proof fn lemma_descending_list_holds_none_twice(spans: Seq<Span>, i: int, j: int)
    requires
        strictly_descending(spans),
        0 <= i < spans.len(),
        0 <= j < spans.len(),
        i != j,
    ensures
        spans[i] != spans[j],
{
    if i < j {
        assert(span_before(spans[j], spans[i]));
    } else {
        assert(span_before(spans[i], spans[j]));
    }
}

/// The range of the node that an unused symbol resolves to is one of the
/// ranges that are removed.
pub proof fn lemma_range_of_unused_symbol_is_removed(
    tree: SyntaxTree,
    spans: Seq<Span>,
    symbol: int,
)
    requires
        is_removal_order(tree, spans),
        symbol_is_unused(tree, symbol),
    ensures
        spans.contains(tree.nodes()[removal_node(tree, symbol)].span),
{
    let span = tree.nodes()[removal_node(tree, symbol)].span;
    assert(removes(tree, symbol, span));
    assert(removal_spans(tree).contains(span));
}

/// Every range that is removed is the range of the node that some unused
/// symbol resolves to. Nothing else goes.
pub proof fn lemma_removed_range_belongs_to_unused_symbol(
    tree: SyntaxTree,
    spans: Seq<Span>,
    at: int,
)
    requires
        is_removal_order(tree, spans),
        0 <= at < spans.len(),
    ensures
        exists|symbol: int|
            symbol_is_unused(tree, symbol) && #[trigger] tree.nodes()[removal_node(
                tree,
                symbol,
            )].span == spans[at],
{
    assert(spans.contains(spans[at]));
    assert(removal_spans(tree).contains(spans[at]));
    let symbol = choose|symbol: int| #[trigger] removes(tree, symbol, spans[at]);
    assert(tree.nodes()[removal_node(tree, symbol)].span == spans[at]);
}

/// A range that is put into a descending list behind the ranges that come
/// after it and in front of those that come before it leaves the list
/// descending, and adds nothing to it but itself.
pub proof fn lemma_insertion_keeps_order(spans: Seq<Span>, at: int, span: Span)
    requires
        strictly_descending(spans),
        0 <= at <= spans.len(),
        forall|i: int| 0 <= i < at ==> span_before(span, #[trigger] spans[i]),
        at < spans.len() ==> span_before(spans[at], span),
    ensures
        strictly_descending(spans.insert(at, span)),
        forall|x: Span|
            #[trigger] spans.insert(at, span).contains(x) <==> (spans.contains(x) || x == span),
{
    let longer = spans.insert(at, span);
    assert forall|i: int, j: int| 0 <= i < j < longer.len() implies span_before(
        #[trigger] longer[j],
        #[trigger] longer[i],
    ) by {
        if j < at {
            assert(longer[i] == spans[i] && longer[j] == spans[j]);
        } else if j == at {
            assert(longer[i] == spans[i] && longer[j] == span);
        } else if i < at {
            assert(longer[i] == spans[i] && longer[j] == spans[j - 1]);
            assert(span_before(span, spans[i]));
            if j - 1 > i {
                assert(span_before(spans[j - 1], spans[i]));
            }
        } else if i == at {
            assert(longer[i] == span && longer[j] == spans[j - 1]);
            assert(span_before(spans[at], span));
            if j - 1 > at {
                assert(span_before(spans[j - 1], spans[at]));
            }
        } else {
            assert(longer[i] == spans[i - 1] && longer[j] == spans[j - 1]);
            assert(span_before(spans[j - 1], spans[i - 1]));
        }
    }
    assert forall|x: Span| #[trigger] longer.contains(x) <==> (spans.contains(x) || x == span) by {
        if longer.contains(x) {
            let i = choose|i: int| 0 <= i < longer.len() && longer[i] == x;
            if i < at {
                assert(spans[i] == x);
            } else if i > at {
                assert(spans[i - 1] == x);
            }
        }
        if spans.contains(x) {
            let i = choose|i: int| 0 <= i < spans.len() && spans[i] == x;
            if i < at {
                assert(longer[i] == x);
            } else {
                assert(longer[i + 1] == x);
            }
        }
        if x == span {
            assert(longer[at] == x);
        }
    }
}

/// Puts `span` at its place in a descending list, unless the list holds it.
fn insert_descending(spans: &mut Vec<Span>, span: Span)
    requires
        strictly_descending(old(spans)@),
    ensures
        strictly_descending(final(spans)@),
        forall|x: Span| final(spans)@.contains(x) <==> (old(spans)@.contains(x) || x == span),
{
    let ghost before = spans@;
    assert(before == old(spans)@);
    let mut at: usize = 0;
    while at < spans.len() && (span.start < spans[at].start || (span.start == spans[at].start
        && span.end < spans[at].end))
        invariant
            spans@ == before,
            at <= spans.len(),
            forall|i: int| 0 <= i < at ==> span_before(span, #[trigger] before[i]),
        decreases spans.len() - at,
    {
        at += 1;
    }
    if at < spans.len() && spans[at].start == span.start && spans[at].end == span.end {
        assert(before[at as int] == span);
        assert(before.contains(span));
        return ;
    }
    spans.insert(at, span);
    proof {
        if at < before.len() {
            assert(!span_before(span, before[at as int]));
            assert(span_before(before[at as int], span));
        }
        lemma_insertion_keeps_order(before, at as int, span);
        assert(spans@ == before.insert(at as int, span));
    }
}

/// Orders byte ranges for removal: from the last to the first, each range
/// once.
pub fn merge_spans(spans: &Vec<Span>) -> (merged: Vec<Span>)
    ensures
        strictly_descending(merged@),
        forall|span: Span| merged@.contains(span) <==> spans@.contains(span),
{
    let mut merged: Vec<Span> = Vec::new();
    let mut i: usize = 0;
    while i < spans.len()
        invariant
            i <= spans.len(),
            strictly_descending(merged@),
            forall|span: Span|
                merged@.contains(span) <==> exists|j: int| 0 <= j < i && spans@[j] == span,
        decreases spans.len() - i,
    {
        insert_descending(&mut merged, spans[i]);
        i += 1;
    }
    merged
}

} // verus!
