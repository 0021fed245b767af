//! Removal of byte ranges from a text.

use vstd::prelude::*;
use vstd::string::StringSliceAdditionalSpecFns;
use vstd::utf8::*;
use crate::expander::{
    expand_in, expanded_span, is_blank, is_inline_space, lemma_expansion_keeps_boundaries,
    lemma_own_line_goes_whole, NEWLINE,
};
use crate::span::Span;

verus! {

/// `text` without the bytes of `[start, end)`.
pub open spec fn cut(text: Seq<u8>, start: int, end: int) -> Seq<u8> {
    text.subrange(0, start) + text.subrange(end, text.len() as int)
}

/// The range that is cut out of `text` in order to remove `span` cleanly.
pub open spec fn expand(text: Seq<u8>, span: Span) -> Span {
    let (start, end) = expanded_span(text, span.start as int, span.end as int);
    Span { start: start as usize, end: end as usize }
}

/// Each of `spans` widened, every one against the same `text`.
pub open spec fn expand_all(text: Seq<u8>, spans: Seq<Span>) -> Seq<Span> {
    spans.map_values(|span: Span| expand(text, span))
}

/// True where `ranges` runs from the last range to the first and no two of
/// them overlap: each ends at or before the start of the one listed in front
/// of it.
pub open spec fn ranges_apart(ranges: Seq<Span>) -> bool {
    &&& forall|i: int| 0 <= i < ranges.len() ==> (#[trigger] ranges[i]).start <= ranges[i].end
    &&& forall|i: int|
        0 <= i < ranges.len() - 1 ==> (#[trigger] ranges[i + 1]).end <= ranges[i].start
}

/// `text` without `ranges`, which run from the last to the first and lie
/// apart: what lies in front of the ranges, between them and behind them, in
/// the order of the text. Every byte outside of all the ranges is kept, and
/// no other.
pub open spec fn without_ranges(text: Seq<u8>, ranges: Seq<Span>) -> Seq<u8>
    decreases ranges.len(),
{
    if ranges.len() == 0 {
        text
    } else {
        without_ranges(text.subrange(0, ranges[0].start as int), ranges.drop_first())
            + text.subrange(ranges[0].end as int, text.len() as int)
    }
}

/// `text` after each of `ranges` in turn has been replaced by nothing.
pub open spec fn remove_ranges(text: Seq<u8>, ranges: Seq<Span>) -> Seq<u8>
    decreases ranges.len(),
{
    if ranges.len() == 0 {
        text
    } else {
        remove_ranges(
            cut(text, ranges[0].start as int, ranges[0].end as int),
            ranges.drop_first(),
        )
    }
}

/// The number of bytes that `ranges` cover, where they lie apart.
pub open spec fn length_of(ranges: Seq<Span>) -> int
    decreases ranges.len(),
{
    if ranges.len() == 0 {
        0
    } else {
        ranges[0].end - ranges[0].start + length_of(ranges.drop_first())
    }
}

/// What is left of `span` below `floor`, the position from which on the text
/// has been cut already: its start and its end, neither above `floor`.
pub open spec fn below(span: Span, floor: int) -> (int, int) {
    (
        if span.start <= floor {
            span.start as int
        } else {
            floor
        },
        if span.end <= floor {
            span.end as int
        } else {
            floor
        },
    )
}

/// `text` after the removal of each of `spans` in turn, each of them widened
/// against the text that the removals before it left. This is how spans are
/// removed whose ranges overlap once they are widened against the text as it
/// was: a separator that two neighbours share goes once, and what is left
/// closes up cleanly. `floor` is the start of the cut last made; spans are
/// given by their offsets into the text as it was at first, and those are
/// good below `floor`, where nothing has changed. Where the cut last made
/// has taken the end of a span with it, what is left of the span goes.
pub open spec fn remove_spans(text: Seq<u8>, spans: Seq<Span>, floor: int) -> Seq<u8>
    decreases spans.len(),
{
    if spans.len() == 0 {
        text
    } else {
        let (start, end) = below(spans[0], floor);
        let (from, to) = expanded_span(text, start, end);
        remove_spans(cut(text, from, to), spans.drop_first(), from)
    }
}

/// True where `spans` can be removed from `text`: each is a range of the
/// text between character boundaries, they are listed from the last to the
/// first, and they lie apart: each ends at or before the start of the one
/// listed in front of it.
pub open spec fn removable(text: Seq<u8>, spans: Seq<Span>) -> bool {
    &&& forall|i: int|
        0 <= i < spans.len() ==> {
            &&& (#[trigger] spans[i]).start <= spans[i].end <= text.len()
            &&& is_char_boundary(text, spans[i].start as int)
            &&& is_char_boundary(text, spans[i].end as int)
        }
    &&& forall|i: int| 0 <= i < spans.len() - 1 ==> (#[trigger] spans[i + 1]).end <= spans[i].start
}

/// `text` without `spans`.
///
/// Every span is widened against `text` as it stands. Where the widened
/// ranges lie apart, the result is `text` without exactly those ranges.
/// Where two of them overlap, because neighbours reach for the same
/// separator, the spans are removed in turn, each widened against the text
/// that the removals before it left.
pub open spec fn text_without(text: Seq<u8>, spans: Seq<Span>) -> Seq<u8> {
    let ranges = expand_all(text, spans);
    if ranges_apart(ranges) {
        without_ranges(text, ranges)
    } else {
        remove_spans(text, spans, text.len() as int)
    }
}

/// The ranges that go when each of `spans` in turn is removed, each widened
/// against the text that the removals before it left: each range as it lies
/// in the text from which it is cut.
pub open spec fn cuts_in_turn(text: Seq<u8>, spans: Seq<Span>, floor: int) -> Seq<Span>
    decreases spans.len(),
{
    if spans.len() == 0 {
        Seq::empty()
    } else {
        let (start, end) = below(spans[0], floor);
        let (from, to) = expanded_span(text, start, end);
        seq![Span { start: from as usize, end: to as usize }] + cuts_in_turn(
            cut(text, from, to),
            spans.drop_first(),
            from,
        )
    }
}

/// The ranges that are cut out of `text` in order to remove `spans`, in the
/// order in which they are cut: the spans widened against `text` as it
/// stands, where those ranges lie apart; else the ranges that go when the
/// spans are removed in turn.
pub open spec fn removed_ranges(text: Seq<u8>, spans: Seq<Span>) -> Seq<Span> {
    let ranges = expand_all(text, spans);
    if ranges_apart(ranges) {
        ranges
    } else {
        cuts_in_turn(text, spans, text.len() as int)
    }
}

/// A text with ranges cut out of it.
#[derive(Debug)]
pub struct Patch {
    /// The text that is left.
    pub text: String,
    /// The ranges that were cut, in the order in which they were cut.
    pub removed: Vec<Span>,
}

/// True where what is left below `floor` of each of the spans from `from` on
/// lies between character boundaries of `text`.
pub open spec fn spans_left_fit(text: Seq<u8>, spans: Seq<Span>, from: int, floor: int) -> bool {
    forall|i: int|
        from <= i < spans.len() ==> {
            &&& (#[trigger] spans[i]).start <= spans[i].end
            &&& is_char_boundary(text, below(spans[i], floor).0)
            &&& is_char_boundary(text, below(spans[i], floor).1)
        }
}

/// Cutting a range between character boundaries out of well-formed text
/// leaves well-formed text, in which what was a boundary at or below the cut
/// still is one.
pub proof fn lemma_cut_keeps_text_well_formed(text: Seq<u8>, start: int, end: int)
    requires
        valid_utf8(text),
        0 <= start <= end <= text.len(),
        is_char_boundary(text, start),
        is_char_boundary(text, end),
    ensures
        valid_utf8(cut(text, start, end)),
        forall|at: int|
            0 <= at <= start ==> (is_char_boundary(cut(text, start, end), at) <==> is_char_boundary(
                text,
                at,
            )),
{
    valid_utf8_split(text, start);
    valid_utf8_split(text, end);
    valid_utf8_concat(text.subrange(0, start), text.subrange(end, text.len() as int));
    let rest = cut(text, start, end);
    assert forall|at: int| 0 <= at <= start implies (is_char_boundary(rest, at)
        <==> is_char_boundary(text, at)) by {
        if at < rest.len() {
            is_char_boundary_iff_not_is_continuation_byte(rest, at);
        } else {
            is_char_boundary_start_end_of_seq(rest);
        }
        if at < text.len() {
            is_char_boundary_iff_not_is_continuation_byte(text, at);
        } else {
            is_char_boundary_start_end_of_seq(text);
        }
        if at == start && at < rest.len() {
            assert(rest[at] == text[end]);
            is_char_boundary_iff_not_is_continuation_byte(text, end);
        }
    }
}

/// Removing a range that stands alone on a line which a newline ends leaves
/// the text without that line: what stood in front of the line is followed by
/// what stood behind its newline.
pub proof fn lemma_own_line_is_cut_out(text: Seq<u8>, span: Span, line: int, newline: int)
    requires
        0 <= line <= span.start <= span.end <= newline < text.len() <= usize::MAX,
        line == 0 || text[line - 1] == NEWLINE,
        forall|i: int| line <= i < span.start ==> is_blank(text[i]),
        forall|i: int| span.end <= i < newline ==> is_inline_space(text[i]),
        text[newline] == NEWLINE,
    ensures
        text_without(text, seq![span]) == text.subrange(0, line) + text.subrange(
            newline + 1,
            text.len() as int,
        ),
{
    lemma_own_line_goes_whole(text, span.start as int, span.end as int, line, newline);
    let ranges = expand_all(text, seq![span]);
    assert(ranges[0] == expand(text, span));
    assert(ranges.drop_first() =~= Seq::<Span>::empty());
    assert(ranges_apart(ranges));
    assert(without_ranges(text, ranges) == without_ranges(
        text.subrange(0, line),
        ranges.drop_first(),
    ) + text.subrange(newline + 1, text.len() as int));
}

/// In a list of ranges that lie apart, a range ends at or before the start
/// of every range listed in front of it.
pub proof fn lemma_ranges_descend(ranges: Seq<Span>, front: int, back: int)
    requires
        ranges_apart(ranges),
        0 <= front < back < ranges.len(),
    ensures
        ranges[back].end <= ranges[front].start,
    decreases back - front,
{
    if front + 1 < back {
        lemma_ranges_descend(ranges, front + 1, back);
        assert(ranges[front + 1].end <= ranges[front].start);
    }
}

/// Of ranges that lie apart, all but the first listed lie apart, and in
/// front of the first.
pub proof fn lemma_lower_ranges_lie_apart(ranges: Seq<Span>)
    requires
        ranges_apart(ranges),
        ranges.len() > 0,
    ensures
        ranges_apart(ranges.drop_first()),
        ranges.len() > 1 ==> ranges.drop_first()[0].end <= ranges[0].start,
{
    let rest = ranges.drop_first();
    assert forall|i: int| 0 <= i < rest.len() implies (#[trigger] rest[i]).start <= rest[i].end by {
        assert(rest[i] == ranges[i + 1]);
    }
    assert forall|i: int| 0 <= i < rest.len() - 1 implies (#[trigger] rest[i + 1]).end
        <= rest[i].start by {
        assert(rest[i + 1] == ranges[i + 2]);
        assert(rest[i] == ranges[i + 1]);
    }
    if rest.len() > 0 {
        assert(rest[0] == ranges[1]);
    }
}

/// What lies behind all of the ranges is kept as it is: it can as well be
/// put behind what is left of the text in front of it.
pub proof fn lemma_text_behind_ranges_is_kept(head: Seq<u8>, tail: Seq<u8>, ranges: Seq<Span>)
    requires
        ranges.len() > 0 ==> ranges[0].start <= ranges[0].end <= head.len(),
    ensures
        without_ranges(head + tail, ranges) == without_ranges(head, ranges) + tail,
{
    if ranges.len() > 0 {
        let first = ranges[0];
        assert((head + tail).subrange(0, first.start as int) =~= head.subrange(
            0,
            first.start as int,
        ));
        assert((head + tail).subrange(first.end as int, (head + tail).len() as int)
            =~= head.subrange(first.end as int, head.len() as int) + tail);
        assert(without_ranges(head + tail, ranges) =~= without_ranges(head, ranges) + tail);
    } else {
        assert(without_ranges(head + tail, ranges) =~= without_ranges(head, ranges) + tail);
    }
}

/// The text without ranges that lie apart is what is left when each of them
/// in turn, from the last to the first, is replaced by nothing: a cut does
/// not move what lies in front of it, so that the offsets of the ranges that
/// are still to be cut stay good.
pub proof fn lemma_ranges_are_cut_in_turn(text: Seq<u8>, ranges: Seq<Span>)
    requires
        ranges_apart(ranges),
        ranges.len() > 0 ==> ranges[0].end <= text.len(),
    ensures
        without_ranges(text, ranges) == remove_ranges(text, ranges),
    decreases ranges.len(),
{
    if ranges.len() > 0 {
        let first = ranges[0];
        let rest = ranges.drop_first();
        let head = text.subrange(0, first.start as int);
        let tail = text.subrange(first.end as int, text.len() as int);
        lemma_lower_ranges_lie_apart(ranges);
        assert(cut(text, first.start as int, first.end as int) == head + tail);
        lemma_ranges_are_cut_in_turn(head, rest);
        lemma_ranges_are_cut_in_turn(head + tail, rest);
        lemma_text_behind_ranges_is_kept(head, tail, rest);
    }
}

/// The text without ranges that lie apart is shorter than the text by the
/// number of bytes that the ranges cover.
pub proof fn lemma_length_without_ranges(text: Seq<u8>, ranges: Seq<Span>)
    requires
        ranges_apart(ranges),
        ranges.len() > 0 ==> ranges[0].end <= text.len(),
    ensures
        without_ranges(text, ranges).len() == text.len() - length_of(ranges),
        0 <= length_of(ranges) <= text.len(),
    decreases ranges.len(),
{
    if ranges.len() > 0 {
        lemma_lower_ranges_lie_apart(ranges);
        lemma_length_without_ranges(text.subrange(0, ranges[0].start as int), ranges.drop_first());
    }
}

/// Spans that can be removed from a text are widened to ranges of the text
/// between character boundaries, each of which holds its span.
pub proof fn lemma_widened_spans_fit(text: Seq<u8>, spans: Seq<Span>, at: int)
    requires
        valid_utf8(text),
        text.len() <= usize::MAX,
        removable(text, spans),
        0 <= at < spans.len(),
    ensures
        ({
            let range = expand_all(text, spans)[at];
            &&& range.start <= spans[at].start <= spans[at].end <= range.end <= text.len()
            &&& is_char_boundary(text, range.start as int)
            &&& is_char_boundary(text, range.end as int)
        }),
{
    lemma_expansion_keeps_boundaries(text, spans[at].start as int, spans[at].end as int);
}

/// Removing a span leaves the spans behind it good: the text stays
/// well-formed, below the cut it is what it was, and what is left of each
/// span below the cut lies between character boundaries of the text that is
/// left.
pub proof fn lemma_removal_keeps_lower_spans_good(
    text: Seq<u8>,
    spans: Seq<Span>,
    at: int,
    floor: int,
)
    requires
        valid_utf8(text),
        0 <= at < spans.len(),
        0 <= floor <= text.len(),
        spans_left_fit(text, spans, at, floor),
    ensures
        ({
            let (start, end) = below(spans[at], floor);
            let (from, to) = expanded_span(text, start, end);
            let left = cut(text, from, to);
            &&& 0 <= from <= start <= end <= to <= text.len()
            &&& is_char_boundary(text, from)
            &&& is_char_boundary(text, to)
            &&& valid_utf8(left)
            &&& from <= left.len()
            &&& left.subrange(0, from) == text.subrange(0, from)
            &&& spans_left_fit(left, spans, at + 1, from)
        }),
{
    let (start, end) = below(spans[at], floor);
    lemma_expansion_keeps_boundaries(text, start, end);
    let (from, to) = expanded_span(text, start, end);
    let left = cut(text, from, to);
    lemma_cut_keeps_text_well_formed(text, from, to);
    assert(left.subrange(0, from) =~= text.subrange(0, from));
    assert forall|i: int| at + 1 <= i < spans.len() implies {
        &&& (#[trigger] spans[i]).start <= spans[i].end
        &&& is_char_boundary(left, below(spans[i], from).0)
        &&& is_char_boundary(left, below(spans[i], from).1)
    } by {
        assert(is_char_boundary(text, below(spans[i], floor).0));
        assert(is_char_boundary(text, below(spans[i], floor).1));
    }
}

/// The text that lists of characters encode is the text that the first
/// encodes, followed by the text that the second encodes.
proof fn lemma_encoding_of_joined_text(left: Seq<char>, right: Seq<char>)
    ensures
        encode_utf8(left + right) == encode_utf8(left) + encode_utf8(right),
    decreases left.len(),
{
    if left.len() == 0 {
        assert(left + right =~= right);
        assert(encode_utf8(left) + encode_utf8(right) =~= encode_utf8(right));
    } else {
        lemma_encoding_of_joined_text(left.drop_first(), right);
        assert((left + right).drop_first() =~= left.drop_first() + right);
        assert(encode_utf8(left + right) =~= encode_utf8(left) + encode_utf8(right));
    }
}

/// The text between two character boundaries of `source`.
fn text_between<'a>(source: &'a str, from: usize, to: usize) -> (part: &'a str)
    requires
        from <= to <= source.spec_bytes().len(),
        is_char_boundary(source.spec_bytes(), from as int),
        is_char_boundary(source.spec_bytes(), to as int),
    ensures
        part.spec_bytes() == source.spec_bytes().subrange(from as int, to as int),
{
    let (head, _) = source.split_at(to);
    proof {
        let bytes = source.spec_bytes();
        encode_utf8_valid_utf8(source@);
        encode_utf8_valid_utf8(head@);
        if from < to {
            is_char_boundary_iff_not_is_continuation_byte(bytes, from as int);
            is_char_boundary_iff_not_is_continuation_byte(head.spec_bytes(), from as int);
        } else {
            is_char_boundary_start_end_of_seq(head.spec_bytes());
        }
    }
    let (_, part) = head.split_at(from);
    assert(part.spec_bytes() =~= source.spec_bytes().subrange(from as int, to as int));
    part
}

/// Puts together what lies between the ranges, from the start of the text
/// to its end.
fn cut_ranges(source: &str, spans: &Vec<Span>, ranges: &Vec<Span>) -> (text: String)
    requires
        removable(source.spec_bytes(), spans@),
        ranges@ == expand_all(source.spec_bytes(), spans@),
        ranges_apart(ranges@),
    ensures
        encode_utf8(text@) == without_ranges(source.spec_bytes(), ranges@),
{
    let bytes = source.as_bytes();
    let length = bytes.len();
    let count = ranges.len();
    let mut text = String::new();
    let mut done: usize = 0;
    let mut k: usize = count;
    proof {
        encode_utf8_valid_utf8(source@);
        assert(ranges@.subrange(count as int, count as int) =~= Seq::<Span>::empty());
        assert(bytes@.subrange(0, 0) =~= Seq::<u8>::empty());
        assert(encode_utf8(text@) =~= Seq::<u8>::empty());
    }
    while k > 0
        invariant
            bytes@ == source.spec_bytes(),
            valid_utf8(bytes@),
            length == bytes@.len(),
            removable(bytes@, spans@),
            ranges@ == expand_all(bytes@, spans@),
            ranges_apart(ranges@),
            count == ranges@.len(),
            k <= count,
            done <= bytes@.len(),
            is_char_boundary(bytes@, done as int),
            k == count ==> done == 0,
            k < count ==> done == ranges@[k as int].end,
            encode_utf8(text@) == without_ranges(
                bytes@.subrange(0, done as int),
                ranges@.subrange(k as int, count as int),
            ),
        decreases k,
    {
        k -= 1;
        let range = ranges[k];
        proof {
            lemma_widened_spans_fit(bytes@, spans@, k as int);
            if k + 1 < count {
                assert(ranges@[k + 1].end <= ranges@[k as int].start);
            }
        }
        let part = text_between(source, done, range.start);
        let ghost so_far = text@;
        text.append(part);
        proof {
            let lower = ranges@.subrange(k + 1, count as int);
            let these = ranges@.subrange(k as int, count as int);
            let head = bytes@.subrange(0, done as int);
            let upto = bytes@.subrange(0, range.end as int);
            lemma_encoding_of_joined_text(so_far, part@);
            assert(these[0] == range);
            assert(these.drop_first() =~= lower);
            assert(upto.subrange(0, range.start as int) =~= head + part.spec_bytes());
            assert(upto.subrange(range.end as int, upto.len() as int) =~= Seq::<u8>::empty());
            if lower.len() > 0 {
                assert(lower[0] == ranges@[k + 1]);
                lemma_widened_spans_fit(bytes@, spans@, k + 1);
            }
            lemma_text_behind_ranges_is_kept(head, part.spec_bytes(), lower);
            assert(without_ranges(upto, these) =~= without_ranges(head, lower)
                + part.spec_bytes());
        }
        done = range.end;
    }
    proof {
        is_char_boundary_start_end_of_seq(bytes@);
    }
    let part = text_between(source, done, length);
    let ghost so_far = text@;
    text.append(part);
    proof {
        let head = bytes@.subrange(0, done as int);
        lemma_encoding_of_joined_text(so_far, part@);
        assert(ranges@.subrange(0, count as int) =~= ranges@);
        assert(head + part.spec_bytes() =~= bytes@);
        if count > 0 {
            lemma_widened_spans_fit(bytes@, spans@, 0);
        }
        lemma_text_behind_ranges_is_kept(head, part.spec_bytes(), ranges@);
    }
    text
}

/// Removes the spans from the last to the first, each widened against the
/// text that the removals before it left.
fn remove_in_turn(source: &str, spans: &Vec<Span>) -> (patch: Patch)
    requires
        removable(source.spec_bytes(), spans@),
    ensures
        encode_utf8(patch.text@) == remove_spans(
            source.spec_bytes(),
            spans@,
            source.spec_bytes().len() as int,
        ),
        patch.removed@ == cuts_in_turn(
            source.spec_bytes(),
            spans@,
            source.spec_bytes().len() as int,
        ),
{
    let mut text = String::from_str(source);
    let mut removed: Vec<Span> = Vec::new();
    let mut floor: usize = source.as_bytes().len();
    let mut k: usize = 0;
    proof {
        encode_utf8_valid_utf8(source@);
        assert(spans@.skip(0) == spans@);
    }
    while k < spans.len()
        invariant
            k <= spans.len(),
            floor <= encode_utf8(text@).len(),
            spans_left_fit(encode_utf8(text@), spans@, k as int, floor as int),
            remove_spans(source.spec_bytes(), spans@, source.spec_bytes().len() as int)
                == remove_spans(encode_utf8(text@), spans@.skip(k as int), floor as int),
            cuts_in_turn(source.spec_bytes(), spans@, source.spec_bytes().len() as int)
                == removed@ + cuts_in_turn(
                encode_utf8(text@),
                spans@.skip(k as int),
                floor as int,
            ),
        decreases spans.len() - k,
    {
        let span = spans[k];
        let start = if span.start <= floor { span.start } else { floor };
        let end = if span.end <= floor { span.end } else { floor };
        let current = text.as_str();
        proof {
            encode_utf8_valid_utf8(text@);
            assert(spans@.skip(k as int)[0] == span);
            assert(spans@.skip(k as int).drop_first() == spans@.skip(k + 1));
            lemma_removal_keeps_lower_spans_good(encode_utf8(text@), spans@, k as int, floor as int);
            is_char_boundary_start_end_of_seq(encode_utf8(text@));
        }
        let bytes = current.as_bytes();
        let (from, to) = expand_in(bytes, start, end);
        let head = text_between(current, 0, from);
        let tail = text_between(current, to, bytes.len());
        let mut left = String::new();
        left.append(head);
        left.append(tail);
        let ghost listed = removed@;
        removed.push(Span { start: from, end: to });
        proof {
            lemma_encoding_of_joined_text(head@, tail@);
            assert(left@ =~= head@ + tail@);
            assert(encode_utf8(left@) == cut(encode_utf8(text@), from as int, to as int));
            let rest = cuts_in_turn(encode_utf8(left@), spans@.skip(k + 1), from as int);
            assert(removed@ + rest =~= listed + (seq![Span { start: from, end: to }] + rest));
        }
        text = left;
        floor = from;
        k += 1;
    }
    proof {
        assert(spans@.skip(k as int) =~= Seq::<Span>::empty());
        assert(removed@ + Seq::<Span>::empty() =~= removed@);
    }
    Patch { text, removed }
}

/// Removes `spans` from `source`. Every span is widened against `source`
/// as it stands. Where the widened ranges lie apart, they are cut out of the
/// text. Where two of them overlap, the spans are removed from the last to
/// the first, each widened against the text that the removals before it
/// left.
///
/// Nothing is returned where a span is no range of the text between
/// character boundaries, or the spans do not lie apart, listed from the last
/// to the first. With the text that is left come the ranges that were cut,
/// in the order in which they were cut.
pub fn apply_modifications(source: &str, spans: &Vec<Span>) -> (patched: Option<Patch>)
    ensures
        patched is Some <==> removable(source.spec_bytes(), spans@),
        patched matches Some(patch) ==> encode_utf8(patch.text@) == text_without(
            source.spec_bytes(),
            spans@,
        ) && patch.removed@ == removed_ranges(source.spec_bytes(), spans@),
{
    let bytes = source.as_bytes();
    let length = bytes.len();
    let ghost wanted = expand_all(bytes@, spans@);
    let mut ranges: Vec<Span> = Vec::new();
    let mut apart = true;
    let mut i: usize = 0;
    proof {
        encode_utf8_valid_utf8(source@);
    }
    while i < spans.len()
        invariant
            bytes@ == source.spec_bytes(),
            valid_utf8(bytes@),
            length == bytes@.len(),
            wanted == expand_all(bytes@, spans@),
            i <= spans.len(),
            removable(bytes@, spans@.take(i as int)),
            ranges@.len() == i,
            forall|j: int| 0 <= j < i ==> #[trigger] ranges@[j] == wanted[j],
            apart == ranges_apart(ranges@),
        decreases spans.len() - i,
    {
        let span = spans[i];
        if span.start > span.end || span.end > length {
            return None;
        }
        if !source.is_char_boundary(span.start) || !source.is_char_boundary(span.end) {
            return None;
        }
        if i > 0 && span.end > spans[i - 1].start {
            assert(spans@[(i - 1) + 1].end > spans@[i - 1].start);
            return None;
        }
        proof {
            let before = spans@.take(i as int);
            let now = spans@.take(i + 1);
            assert forall|j: int| 0 <= j < now.len() - 1 implies (#[trigger] now[j + 1]).end
                <= now[j].start by {
                if j + 1 < i {
                    assert(before[j + 1] == now[j + 1] && before[j] == now[j]);
                    assert(before[j + 1].end <= before[j].start);
                }
            }
            assert forall|j: int| 0 <= j < now.len() implies {
                &&& (#[trigger] now[j]).start <= now[j].end <= bytes@.len()
                &&& is_char_boundary(bytes@, now[j].start as int)
                &&& is_char_boundary(bytes@, now[j].end as int)
            } by {
                if j < i {
                    assert(before[j] == now[j]);
                }
            }
        }
        let (start, end) = expand_in(bytes, span.start, span.end);
        assert(wanted[i as int] == Span { start, end });
        let ghost listed = ranges@;
        let reaches = i > 0 && end > ranges[i - 1].start;
        ranges.push(Span { start, end });
        proof {
            assert forall|j: int| 0 <= j < i implies #[trigger] ranges@[j] == listed[j] by {}
            if apart && !reaches {
                assert forall|j: int| 0 <= j < ranges@.len() - 1 implies (#[trigger] ranges@[j
                    + 1]).end <= ranges@[j].start by {
                    if j + 1 < i {
                        assert(listed[j + 1].end <= listed[j].start);
                    }
                }
                assert forall|j: int| 0 <= j < ranges@.len() implies (#[trigger] ranges@[j]).start
                    <= ranges@[j].end by {
                    if j < i {
                        assert(listed[j].start <= listed[j].end);
                    }
                }
            } else if reaches {
                assert(ranges@[(i - 1) + 1].end > ranges@[i - 1].start);
            } else {
                if exists|j: int| 0 <= j < listed.len() && listed[j].start > listed[j].end {
                    let j = choose|j: int| 0 <= j < listed.len() && listed[j].start > listed[j].end;
                    assert(ranges@[j].start > ranges@[j].end);
                } else {
                    let j = choose|j: int|
                        0 <= j < listed.len() - 1 && (#[trigger] listed[j + 1]).end
                            > listed[j].start;
                    assert(ranges@[j + 1].end > ranges@[j].start);
                }
            }
        }
        apart = apart && !reaches;
        i += 1;
    }
    proof {
        assert(spans@.take(i as int) == spans@);
        assert(ranges@ == wanted);
    }
    if apart {
        let text = cut_ranges(source, spans, &ranges);
        Some(Patch { text, removed: ranges })
    } else {
        Some(remove_in_turn(source, spans))
    }
}

} // verus!
