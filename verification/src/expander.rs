//! Widening of a byte range over the separators and whitespace that adjoin
//! it.

use vstd::prelude::*;
use vstd::string::StringSliceAdditionalSpecFns;
use vstd::utf8::*;

verus! {

pub const SPACE: u8 = 0x20;

pub const TAB: u8 = 0x09;

pub const CARRIAGE_RETURN: u8 = 0x0d;

pub const NEWLINE: u8 = 0x0a;

pub const COMMA: u8 = 0x2c;

/// Space or tab: whitespace that indents a line.
pub open spec fn is_blank(byte: u8) -> bool {
    byte == SPACE || byte == TAB
}

/// Space, tab or carriage return: whitespace that does not end a line.
pub open spec fn is_inline_space(byte: u8) -> bool {
    is_blank(byte) || byte == CARRIAGE_RETURN
}

/// The first position at or after `from` that holds no inline space; the
/// length of the text where only inline space follows.
pub open spec fn skip_inline_space(text: Seq<u8>, from: int) -> int
    decreases text.len() - from,
{
    if 0 <= from < text.len() && is_inline_space(text[from]) {
        skip_inline_space(text, from + 1)
    } else {
        from
    }
}

/// The lowest position at or before `from` such that only inline space lies
/// between it and `from`.
pub open spec fn skip_inline_space_back(text: Seq<u8>, from: int) -> int
    decreases from,
{
    if 0 < from <= text.len() && is_inline_space(text[from - 1]) {
        skip_inline_space_back(text, from - 1)
    } else {
        from
    }
}

/// The lowest position at or before `from` such that only spaces and tabs lie
/// between it and `from`.
pub open spec fn skip_blank_back(text: Seq<u8>, from: int) -> int
    decreases from,
{
    if 0 < from <= text.len() && is_blank(text[from - 1]) {
        skip_blank_back(text, from - 1)
    } else {
        from
    }
}

/// Where a removal that ends at `end` ends once it has taken in what trails
/// it. Past optional inline space, a comma is taken together with the inline
/// space behind it; failing that, a newline is taken; failing that, nothing.
pub open spec fn expanded_end(text: Seq<u8>, end: int) -> int {
    let at = skip_inline_space(text, end);
    if 0 <= at < text.len() && text[at] == COMMA {
        skip_inline_space(text, at + 1)
    } else if 0 <= at < text.len() && text[at] == NEWLINE {
        at + 1
    } else {
        end
    }
}

/// Where a removal that starts at `start` starts once it has taken in a comma
/// that leads it: the position of a comma that only inline space parts from
/// `start`, else `start` itself.
pub open spec fn comma_start(text: Seq<u8>, start: int) -> int {
    let at = skip_inline_space_back(text, start);
    if 0 < at <= text.len() && text[at - 1] == COMMA {
        at - 1
    } else {
        start
    }
}

/// Where a removal that starts at `start` starts once it has taken in the
/// indentation of its line: the start of the line where only spaces and tabs
/// part it from `start`, else `start` itself.
pub open spec fn line_start(text: Seq<u8>, start: int) -> int {
    let at = skip_blank_back(text, start);
    if at == 0 || (0 < at <= text.len() && text[at - 1] == NEWLINE) {
        at
    } else {
        start
    }
}

/// The range that is cut out of `text` in order to remove `[start, end)`
/// cleanly. The end takes in what trails the range; only where nothing
/// trails it does the start take in a leading comma; in either case the start
/// then takes in the indentation of its line.
pub open spec fn expanded_span(text: Seq<u8>, start: int, end: int) -> (int, int) {
    let e = expanded_end(text, end);
    let s = if e == end {
        comma_start(text, start)
    } else {
        start
    };
    (line_start(text, s), e)
}

fn scan_inline_space(bytes: &[u8], from: usize) -> (at: usize)
    ensures
        at == skip_inline_space(bytes@, from as int),
        from <= at,
        at <= bytes@.len() || at == from,
{
    let mut at: usize = from;
    while at < bytes.len() && (bytes[at] == SPACE || bytes[at] == TAB || bytes[at] == CARRIAGE_RETURN)
        invariant
            from <= at,
            at <= bytes@.len() || at == from,
            skip_inline_space(bytes@, from as int) == skip_inline_space(bytes@, at as int),
        decreases bytes@.len() - at,
    {
        at += 1;
    }
    at
}

fn scan_inline_space_back(bytes: &[u8], from: usize) -> (at: usize)
    requires
        from <= bytes@.len(),
    ensures
        at == skip_inline_space_back(bytes@, from as int),
        at <= from,
{
    let mut at: usize = from;
    while at > 0 && (bytes[at - 1] == SPACE || bytes[at - 1] == TAB || bytes[at - 1]
        == CARRIAGE_RETURN)
        invariant
            at <= from <= bytes@.len(),
            skip_inline_space_back(bytes@, from as int) == skip_inline_space_back(
                bytes@,
                at as int,
            ),
        decreases at,
    {
        at -= 1;
    }
    at
}

fn scan_blank_back(bytes: &[u8], from: usize) -> (at: usize)
    requires
        from <= bytes@.len(),
    ensures
        at == skip_blank_back(bytes@, from as int),
        at <= from,
{
    let mut at: usize = from;
    while at > 0 && (bytes[at - 1] == SPACE || bytes[at - 1] == TAB)
        invariant
            at <= from <= bytes@.len(),
            skip_blank_back(bytes@, from as int) == skip_blank_back(bytes@, at as int),
        decreases at,
    {
        at -= 1;
    }
    at
}

pub(crate) fn expand_in(bytes: &[u8], start: usize, end: usize) -> (expanded: (usize, usize))
    requires
        start <= bytes@.len(),
    ensures
        (expanded.0 as int, expanded.1 as int) == expanded_span(bytes@, start as int, end as int),
        expanded.0 <= start,
        end <= expanded.1,
        expanded.1 <= bytes@.len() || expanded.1 == end,
{
    let mut s: usize = start;
    let mut e: usize = end;

    let trailing = scan_inline_space(bytes, end);
    if trailing < bytes.len() && bytes[trailing] == COMMA {
        e = scan_inline_space(bytes, trailing + 1);
    } else if trailing < bytes.len() && bytes[trailing] == NEWLINE {
        e = trailing + 1;
    }
    if e == end {
        let leading = scan_inline_space_back(bytes, start);
        if leading > 0 && bytes[leading - 1] == COMMA {
            s = leading - 1;
        }
    }
    let indent = scan_blank_back(bytes, s);
    if indent == 0 || bytes[indent - 1] == NEWLINE {
        s = indent;
    }
    (s, e)
}

/// Widens `[start, end)` to the range whose removal leaves no dangling
/// separator and no line of bare indentation.
pub fn expand_span_for_removal(source: &str, start: usize, end: usize) -> (expanded: (
    usize,
    usize,
))
    requires
        start <= source.spec_bytes().len(),
    ensures
        (expanded.0 as int, expanded.1 as int) == expanded_span(
            source.spec_bytes(),
            start as int,
            end as int,
        ),
        expanded.0 <= start,
        end <= expanded.1,
        expanded.1 <= source.spec_bytes().len() || expanded.1 == end,
{
    expand_in(source.as_bytes(), start, end)
}

/// What `skip_inline_space` skips is inline space, and it stops short of the
/// end of the text only in front of another byte.
pub proof fn lemma_skip_inline_space(text: Seq<u8>, from: int)
    requires
        0 <= from,
    ensures
        from <= skip_inline_space(text, from),
        skip_inline_space(text, from) <= text.len() || skip_inline_space(text, from) == from,
        forall|i: int| from <= i < skip_inline_space(text, from) ==> is_inline_space(text[i]),
        skip_inline_space(text, from) < text.len() ==> !is_inline_space(
            text[skip_inline_space(text, from)],
        ),
    decreases text.len() - from,
{
    if from < text.len() && is_inline_space(text[from]) {
        lemma_skip_inline_space(text, from + 1);
    }
}

/// What `skip_inline_space_back` skips is inline space, and it stops short of
/// the start of the text only behind another byte.
pub proof fn lemma_skip_inline_space_back(text: Seq<u8>, from: int)
    requires
        0 <= from <= text.len(),
    ensures
        0 <= skip_inline_space_back(text, from) <= from,
        forall|i: int| skip_inline_space_back(text, from) <= i < from ==> is_inline_space(text[i]),
        0 < skip_inline_space_back(text, from) ==> !is_inline_space(
            text[skip_inline_space_back(text, from) - 1],
        ),
    decreases from,
{
    if 0 < from && is_inline_space(text[from - 1]) {
        lemma_skip_inline_space_back(text, from - 1);
    }
}

/// What `skip_blank_back` skips is spaces and tabs, and it stops short of the
/// start of the text only behind another byte.
pub proof fn lemma_skip_blank_back(text: Seq<u8>, from: int)
    requires
        0 <= from <= text.len(),
    ensures
        0 <= skip_blank_back(text, from) <= from,
        forall|i: int| skip_blank_back(text, from) <= i < from ==> is_blank(text[i]),
        0 < skip_blank_back(text, from) ==> !is_blank(text[skip_blank_back(text, from) - 1]),
    decreases from,
{
    if 0 < from && is_blank(text[from - 1]) {
        lemma_skip_blank_back(text, from - 1);
    }
}

/// Where only inline space lies between `from` and `stop`, and none at
/// `stop`, `skip_inline_space` stops at `stop`.
pub proof fn lemma_skip_inline_space_stops(text: Seq<u8>, from: int, stop: int)
    requires
        0 <= from <= stop <= text.len(),
        forall|i: int| from <= i < stop ==> is_inline_space(text[i]),
        stop < text.len() ==> !is_inline_space(text[stop]),
    ensures
        skip_inline_space(text, from) == stop,
    decreases stop - from,
{
    if from < stop {
        lemma_skip_inline_space_stops(text, from + 1, stop);
    }
}

/// Where only inline space lies between `stop` and `from`, and none in front
/// of `stop`, `skip_inline_space_back` stops at `stop`.
pub proof fn lemma_skip_inline_space_back_stops(text: Seq<u8>, from: int, stop: int)
    requires
        0 <= stop <= from <= text.len(),
        forall|i: int| stop <= i < from ==> is_inline_space(text[i]),
        0 < stop ==> !is_inline_space(text[stop - 1]),
    ensures
        skip_inline_space_back(text, from) == stop,
    decreases from - stop,
{
    if stop < from {
        lemma_skip_inline_space_back_stops(text, from - 1, stop);
    }
}

/// Where only spaces and tabs lie between `stop` and `from`, and none in
/// front of `stop`, `skip_blank_back` stops at `stop`.
pub proof fn lemma_skip_blank_back_stops(text: Seq<u8>, from: int, stop: int)
    requires
        0 <= stop <= from <= text.len(),
        forall|i: int| stop <= i < from ==> is_blank(text[i]),
        0 < stop ==> !is_blank(text[stop - 1]),
    ensures
        skip_blank_back(text, from) == stop,
    decreases from - stop,
{
    if stop < from {
        lemma_skip_blank_back_stops(text, from - 1, stop);
    }
}

/// A range that stands alone on a line which a newline ends goes together
/// with exactly that line, from its first byte up to and including the
/// newline. Neither its indentation nor an empty line is left.
pub proof fn lemma_own_line_goes_whole(
    text: Seq<u8>,
    start: int,
    end: int,
    line: int,
    newline: int,
)
    requires
        0 <= line <= start <= end <= newline < text.len(),
        line == 0 || text[line - 1] == NEWLINE,
        forall|i: int| line <= i < start ==> is_blank(text[i]),
        forall|i: int| end <= i < newline ==> is_inline_space(text[i]),
        text[newline] == NEWLINE,
    ensures
        expanded_span(text, start, end) == (line, newline + 1),
{
    lemma_skip_inline_space_stops(text, end, newline);
    lemma_skip_blank_back_stops(text, start, line);
}

/// A range that stands alone on the last line, which no newline ends, goes
/// together with its indentation and nothing else. The newline of the line
/// before it stays.
pub proof fn lemma_own_last_line_goes_with_indentation(
    text: Seq<u8>,
    start: int,
    end: int,
    line: int,
)
    requires
        0 <= line <= start <= end <= text.len(),
        line == 0 || text[line - 1] == NEWLINE,
        forall|i: int| line <= i < start ==> is_blank(text[i]),
        forall|i: int| end <= i < text.len() ==> is_inline_space(text[i]),
    ensures
        expanded_span(text, start, end) == (line, end),
{
    lemma_skip_inline_space_stops(text, end, text.len() as int);
    lemma_skip_inline_space_back_stops(text, start, line);
    lemma_skip_blank_back_stops(text, start, line);
}

/// Widening does not reach back over a byte that is neither inline space nor
/// a comma: a range that lies behind such a byte starts behind it when it is
/// widened, too. So a range that ends in such a byte is left whole by the
/// removal of a range behind it.
pub proof fn lemma_widening_stops_behind_a_token(text: Seq<u8>, start: int, end: int, stop: int)
    requires
        0 < stop <= start <= text.len(),
        !is_inline_space(text[stop - 1]),
        text[stop - 1] != COMMA,
    ensures
        stop <= expanded_span(text, start, end).0 <= start,
{
    lemma_skip_inline_space_back(text, start);
    let at = skip_inline_space_back(text, start);
    assert(stop <= at) by {
        if at < stop {
            assert(is_inline_space(text[stop - 1]));
        }
    }
    let from = if expanded_end(text, end) == end {
        comma_start(text, start)
    } else {
        start
    };
    assert(stop <= from <= start);
    lemma_skip_blank_back(text, from);
    let indent = skip_blank_back(text, from);
    assert(stop <= indent) by {
        if indent < stop {
            assert(is_blank(text[stop - 1]));
        }
    }
}

/// In well-formed text a byte below 0x80 is a character of its own: a
/// character starts at it and another, or nothing, behind it.
proof fn lemma_ascii_is_a_character(text: Seq<u8>, at: int)
    requires
        valid_utf8(text),
        0 <= at < text.len(),
        text[at] < 0x80,
    ensures
        is_char_boundary(text, at),
        is_char_boundary(text, at + 1),
{
    is_char_boundary_iff_not_is_continuation_byte(text, at);
    if at + 1 == text.len() {
        is_char_boundary_start_end_of_seq(text);
    } else {
        valid_utf8_split(text, at);
        let tail = text.subrange(at, text.len() as int);
        assert(tail[0] == text[at]);
        assert(valid_first_scalar(tail));
        assert(length_of_first_scalar(tail) == 1);
        let rest = pop_first_scalar(tail);
        assert(rest =~= text.subrange(at + 1, text.len() as int));
        assert(valid_utf8(rest));
        assert(rest[0] == text[at + 1]);
        assert(valid_first_scalar(rest));
        assert(!is_continuation_byte(rest[0]));
        is_char_boundary_iff_not_is_continuation_byte(text, at + 1);
    }
}

/// Widening a range between character boundaries gives a range between
/// character boundaries, within the text.
pub proof fn lemma_expansion_keeps_boundaries(text: Seq<u8>, start: int, end: int)
    requires
        valid_utf8(text),
        0 <= start <= end <= text.len(),
        is_char_boundary(text, start),
        is_char_boundary(text, end),
    ensures
        0 <= expanded_span(text, start, end).0 <= start,
        end <= expanded_span(text, start, end).1 <= text.len(),
        is_char_boundary(text, expanded_span(text, start, end).0),
        is_char_boundary(text, expanded_span(text, start, end).1),
{
    let at = skip_inline_space(text, end);
    lemma_skip_inline_space(text, end);
    if at < text.len() && text[at] == COMMA {
        let e = skip_inline_space(text, at + 1);
        lemma_skip_inline_space(text, at + 1);
        assert(is_inline_space(text[e - 1]) || e - 1 == at);
        lemma_ascii_is_a_character(text, e - 1);
    } else if at < text.len() && text[at] == NEWLINE {
        lemma_ascii_is_a_character(text, at);
    }
    let e = expanded_end(text, end);
    let s = if e == end {
        comma_start(text, start)
    } else {
        start
    };
    lemma_skip_inline_space_back(text, start);
    if s != start {
        lemma_ascii_is_a_character(text, s);
    }
    lemma_skip_blank_back(text, s);
    let l = line_start(text, s);
    if l != s {
        assert(is_blank(text[l]));
        lemma_ascii_is_a_character(text, l);
    }
}

} // verus!
