//! Framing of server-sent event streams.
//!
//! An event ends at the first `\n\n` or `\r\n\r\n`. Bytes are collected in a
//! buffer; whole events are taken off its front.

use vstd::prelude::*;
use vstd::string::StringExecFns;

use crate::error::{DecodeError, ProviderError};
use crate::lists::{lemma_picks_last, picks};
use crate::text::{
    chars_start_with, lines, lines_of, starts_with, to_chars, trim_from, trimmed,
};

verus! {

// ---------------------------------------------------------------------------
// Event boundaries
// ---------------------------------------------------------------------------

/// Whether `b[..e]` ends with an event terminator.
pub open spec fn ends_event(b: Seq<u8>, e: int) -> bool {
    ||| 2 <= e <= b.len() && b[e - 2] == 10 && b[e - 1] == 10
    ||| 4 <= e <= b.len() && b[e - 4] == 13 && b[e - 3] == 10 && b[e - 2] == 13 && b[e - 1] == 10
}

spec fn event_end_from(b: Seq<u8>, e: int) -> Option<int>
    decreases b.len() + 1 - e,
{
    if e > b.len() {
        None
    } else if ends_event(b, e) {
        Some(e)
    } else {
        event_end_from(b, e + 1)
    }
}

/// The least end of an event in `b`, or `None` when `b` holds no whole event.
pub closed spec fn event_end(b: Seq<u8>) -> Option<int> {
    event_end_from(b, 0)
}

proof fn lemma_event_end_from(b: Seq<u8>, e: int)
    ensures
        match event_end_from(b, e) {
            Some(x) => e <= x && ends_event(b, x) && forall|k: int|
                e <= k < x ==> !ends_event(b, k),
            None => forall|k: int| e <= k ==> !ends_event(b, k),
        },
    decreases b.len() + 1 - e,
{
    if e <= b.len() && !ends_event(b, e) {
        lemma_event_end_from(b, e + 1);
    }
}

/// `event_end` is the least index at which an event ends.
pub proof fn lemma_event_end(b: Seq<u8>)
    ensures
        match event_end(b) {
            Some(x) => ends_event(b, x) && forall|k: int| k < x ==> !ends_event(b, k),
            None => forall|k: int| !ends_event(b, k),
        },
{
    lemma_event_end_from(b, 0);
}

/// A least index at which an event ends is `event_end`.
proof fn lemma_event_end_is(b: Seq<u8>, e: int)
    requires
        ends_event(b, e),
        forall|k: int| k < e ==> !ends_event(b, k),
    ensures
        event_end(b) == Some(e),
{
    lemma_event_end(b);
}

/// Locates the end (exclusive) of the next event in `buffer`.
///
/// Returns `None` when no terminator has been received yet.
pub fn find_event_end(buffer: &[u8]) -> (r: Option<usize>)
    ensures
        match r {
            Some(e) => event_end(buffer@) == Some(e as int) && ends_event(buffer@, e as int)
                && forall|k: int| k < e ==> !ends_event(buffer@, k),
            None => event_end(buffer@) is None && forall|k: int| !ends_event(buffer@, k),
        },
{
    let n = buffer.len();
    let mut e: usize = 2;
    while e <= n
        invariant
            2 <= e,
            n == buffer@.len(),
            forall|k: int| k < e ==> !ends_event(buffer@, k),
        decreases n + 1 - e,
    {
        let lf = buffer[e - 2] == 10 && buffer[e - 1] == 10;
        let crlf = e >= 4 && buffer[e - 4] == 13 && buffer[e - 3] == 10 && buffer[e - 2] == 13
            && buffer[e - 1] == 10;
        if lf || crlf {
            proof {
                lemma_event_end_is(buffer@, e as int);
            }
            return Some(e);
        }
        assert(!ends_event(buffer@, e as int));
        if e == n {
            assert forall|k: int| !ends_event(buffer@, k) by {
                if k < e {
                    assert(!ends_event(buffer@, k));
                }
            }
            proof {
                lemma_event_end(buffer@);
            }
            return None;
        }
        e += 1;
    }
    proof {
        lemma_event_end(buffer@);
    }
    None
}

// ---------------------------------------------------------------------------
// Taking events off the buffer
// ---------------------------------------------------------------------------

/// `b` without the carriage returns and line feeds at its end.
pub open spec fn without_line_end(b: Seq<u8>) -> Seq<u8>
    decreases b.len(),
{
    if b.len() > 0 && (b.last() == 13 || b.last() == 10) {
        without_line_end(b.drop_last())
    } else {
        b
    }
}

/// How `core::str::Utf8Error` describes the fault in `bytes`.
pub uninterp spec fn utf8_error_text(bytes: Seq<u8>) -> Seq<char>;

/// Calls `core::str::from_utf8`. It succeeds on valid UTF-8 alone and then gives
/// the text that the bytes encode; the words of its error are a function of the
/// bytes, named by [`utf8_error_text`].
#[verifier::external_body]
fn decode_text(bytes: &[u8]) -> (r: Result<String, String>)
    ensures
        r is Ok <==> vstd::utf8::valid_utf8(bytes@),
        r matches Ok(t) ==> t@ == vstd::utf8::decode_utf8(bytes@),
        r matches Err(m) ==> m@ == utf8_error_text(bytes@),
{
    match core::str::from_utf8(bytes) {
        Ok(t) => Ok(t.to_owned()),
        Err(e) => Err(e.to_string()),
    }
}

/// Whether `r` is what the bytes of one event read as: their text without the
/// line end, or a decoding error that says why they are no text.
pub open spec fn event_read(event: Seq<u8>, r: Result<String, ProviderError>) -> bool {
    let bytes = without_line_end(event);
    match r {
        Ok(t) => vstd::utf8::valid_utf8(bytes) && t@ == vstd::utf8::decode_utf8(bytes),
        Err(e) => !vstd::utf8::valid_utf8(bytes) && (e matches ProviderError::Decode(
            DecodeError::Message(m),
        ) && m@ == "non-utf8 SSE event: "@ + utf8_error_text(bytes)),
    }
}

/// Takes one event off the front of `buffer` and returns its text.
///
/// Returns `None`, and leaves `buffer` alone, when it holds no whole event.
pub fn drain_event(buffer: &mut Vec<u8>) -> (r: Option<Result<String, ProviderError>>)
    ensures
        match event_end(old(buffer)@) {
            None => r is None && final(buffer)@ == old(buffer)@,
            Some(e) => {
                &&& r is Some
                &&& event_read(old(buffer)@.take(e), r->0)
                &&& final(buffer)@ == old(buffer)@.skip(e)
            },
        },
{
    let end = match find_event_end(buffer.as_slice()) {
        Some(e) => e,
        None => {
            return None;
        },
    };
    let mut event = buffer.split_off(end);
    std::mem::swap(&mut event, buffer);
    let ghost whole = event@;
    assert(whole =~= old(buffer)@.take(end as int));
    assert(buffer@ =~= old(buffer)@.skip(end as int));
    while event.len() > 0 && (event[event.len() - 1] == 13 || event[event.len() - 1] == 10)
        invariant
            without_line_end(event@) == without_line_end(whole),
        decreases event@.len(),
    {
        event.pop();
    }
    match decode_text(event.as_slice()) {
        Ok(t) => Some(Ok(t)),
        Err(m) => {
            let mut message = "non-utf8 SSE event: ".to_owned();
            message.append(m.as_str());
            Some(Err(ProviderError::Decode(DecodeError::Message(message))))
        },
    }
}

// ---------------------------------------------------------------------------
// Data lines
// ---------------------------------------------------------------------------

/// What a line contributes: the rest of a `data:` line without the white space at its
/// two ends.
pub open spec fn payload(line: Seq<char>) -> Seq<char> {
    if starts_with(line, "data:"@) {
        trimmed(line.skip("data:"@.len() as int))
    } else {
        Seq::empty()
    }
}

/// The payloads of `event_lines` that are not empty, in order.
pub open spec fn payloads_of(event_lines: Seq<Seq<char>>) -> Seq<Seq<char>>
    decreases event_lines.len(),
{
    if event_lines.len() == 0 {
        Seq::empty()
    } else {
        let before = payloads_of(event_lines.drop_last());
        let last = payload(event_lines.last());
        if last.len() > 0 {
            before.push(last)
        } else {
            before
        }
    }
}

/// Extracts the `data:` payloads from the text of an event.
///
/// Each `data:` line yields its own payload; empty ones are skipped.
pub fn data_lines(event_text: &str) -> (r: Vec<String>)
    ensures
        r.deep_view() == payloads_of(lines_of(event_text@)),
{
    proof {
        reveal_strlit("data:");
    }
    let all = lines(event_text);
    let ghost views = all.deep_view();
    let mut out: Vec<String> = Vec::new();
    assert(out.deep_view() =~= payloads_of(views.take(0)));
    for i in 0..all.len()
        invariant
            views == all.deep_view(),
            "data:"@.len() == 5,
            out.deep_view() == payloads_of(views.take(i as int)),
    {
        assert(views.take(i + 1).drop_last() =~= views.take(i as int));
        assert(views.take(i + 1).last() == all@[i as int]@);
        let chars = to_chars(all[i].as_str());
        if chars_start_with(&chars, "data:") {
            let data = trim_from(&chars, 5);
            let ghost before = out.deep_view();
            if !(data.as_str().is_empty()) {
                out.push(data);
                assert(out.deep_view() =~= before.push(data@));
            }
        }
    }
    assert(views.take(views.len() as int) =~= views);
    out
}

// ---------------------------------------------------------------------------
// Laws
// ---------------------------------------------------------------------------

/// The whole events at the front of `b`, each with its terminator.
pub open spec fn events(b: Seq<u8>) -> Seq<Seq<u8>>
    decreases b.len(),
    via events_decreases
{
    match event_end(b) {
        None => Seq::empty(),
        Some(e) => seq![b.take(e)] + events(b.skip(e)),
    }
}

#[via_fn]
proof fn events_decreases(b: Seq<u8>) {
    lemma_event_end(b);
}

/// The bytes of `b` behind its last whole event.
pub open spec fn unfinished(b: Seq<u8>) -> Seq<u8>
    decreases b.len(),
    via unfinished_decreases
{
    match event_end(b) {
        None => b,
        Some(e) => unfinished(b.skip(e)),
    }
}

#[via_fn]
proof fn unfinished_decreases(b: Seq<u8>) {
    lemma_event_end(b);
}

/// Once an event has ended, later bytes do not move its end.
pub proof fn law_event_end_is_stable(b: Seq<u8>, more: Seq<u8>)
    requires
        event_end(b) is Some,
    ensures
        event_end(b + more) == event_end(b),
{
    lemma_event_end(b);
    let e = event_end(b)->0;
    assert forall|k: int| k < e implies !ends_event(b + more, k) by {
        assert(ends_event(b + more, k) == ends_event(b, k));
    }
    assert(ends_event(b + more, e));
    lemma_event_end_is(b + more, e);
}

/// The events of a stream do not depend on how its bytes arrive in pieces:
/// taking the events of `b` first and those of the rest together with `more`
/// afterwards gives the same events, and leaves the same bytes, as taking them
/// all at once.
pub proof fn law_events_do_not_depend_on_chunks(b: Seq<u8>, more: Seq<u8>)
    ensures
        events(b + more) == events(b) + events(unfinished(b) + more),
        unfinished(b + more) == unfinished(unfinished(b) + more),
    decreases b.len(),
{
    match event_end(b) {
        None => {
            assert(events(b) + events(b + more) =~= events(b + more));
        },
        Some(e) => {
            lemma_event_end(b);
            law_event_end_is_stable(b, more);
            assert((b + more).take(e) =~= b.take(e));
            assert((b + more).skip(e) =~= b.skip(e) + more);
            law_events_do_not_depend_on_chunks(b.skip(e), more);
            assert(events(b + more) =~= events(b) + events(unfinished(b) + more));
        },
    }
}

/// The events and the unfinished bytes of a buffer make up the buffer: nothing
/// is lost, repeated or reordered.
pub proof fn law_events_keep_every_byte(b: Seq<u8>)
    ensures
        events(b).flatten() + unfinished(b) == b,
    decreases b.len(),
{
    match event_end(b) {
        None => {
            assert(events(b).flatten() =~= Seq::empty());
        },
        Some(e) => {
            lemma_event_end(b);
            law_events_keep_every_byte(b.skip(e));
            let rest = events(b.skip(e));
            assert(events(b).drop_first() =~= rest);
            assert(events(b).first() == b.take(e));
            assert(events(b).flatten() =~= b.take(e) + rest.flatten());
            assert(b =~= b.take(e) + b.skip(e));
        },
    }
}

/// An event ends behind an empty line: behind two line feeds, or behind two pairs of
/// carriage return and line feed.
pub proof fn law_an_empty_line_ends_an_event(b: Seq<u8>, e: int)
    requires
        0 <= e <= b.len(),
    ensures
        ends_event(b, e) <==> ({
            ||| e >= 2 && b.subrange(e - 2, e) == seq![10u8, 10u8]
            ||| e >= 4 && b.subrange(e - 4, e) == seq![13u8, 10u8, 13u8, 10u8]
        }),
{
    if e >= 2 {
        let s = b.subrange(e - 2, e);
        assert(s[0] == b[e - 2] && s[1] == b[e - 1]);
        if b[e - 2] == 10 && b[e - 1] == 10 {
            assert(s =~= seq![10u8, 10u8]);
        }
    }
    if e >= 4 {
        let s = b.subrange(e - 4, e);
        assert(s[0] == b[e - 4] && s[1] == b[e - 3] && s[2] == b[e - 2] && s[3] == b[e - 1]);
        if b[e - 4] == 13 && b[e - 3] == 10 && b[e - 2] == 13 && b[e - 1] == 10 {
            assert(s =~= seq![13u8, 10u8, 13u8, 10u8]);
        }
    }
}

/// Taking the line end off takes off carriage returns and line feeds at the end, and
/// nothing else.
pub proof fn law_line_ends_go(b: Seq<u8>)
    ensures
        ({
            let kept = without_line_end(b);
            &&& kept.len() <= b.len()
            &&& b.take(kept.len() as int) == kept
            &&& forall|k: int|
                kept.len() <= k < b.len() ==> #[trigger] b[k] == 13 || b[k] == 10
            &&& kept.len() > 0 ==> kept.last() != 13 && kept.last() != 10
        }),
    decreases b.len(),
{
    if b.len() > 0 && (b.last() == 13 || b.last() == 10) {
        let rest = b.drop_last();
        law_line_ends_go(rest);
        let kept = without_line_end(b);
        assert(b.take(kept.len() as int) =~= rest.take(kept.len() as int));
        assert forall|k: int| kept.len() <= k < b.len() implies #[trigger] b[k] == 13 || b[k]
            == 10 by {
            if k < rest.len() {
                assert(rest[k] == b[k]);
            }
        }
    } else {
        assert(b.take(b.len() as int) =~= b);
    }
}

/// A line carries a payload if it begins with `data:`: what follows, without the white
/// space at its ends. No other line carries any.
pub proof fn law_data_lines_carry_payloads(line: Seq<char>, rest: Seq<char>)
    ensures
        payload(seq!['d', 'a', 't', 'a', ':'] + rest) == trimmed(rest),
        !(line.len() >= 5 && line.take(5) == seq!['d', 'a', 't', 'a', ':']) ==> payload(line)
            == Seq::<char>::empty(),
{
    reveal_strlit("data:");
    let head = seq!['d', 'a', 't', 'a', ':'];
    assert("data:"@ =~= head);
    let whole = head + rest;
    assert(whole.take(5) =~= head);
    assert(whole.skip(5) =~= rest);
}

/// Of the lines of an event exactly those give a payload that carry one that is not
/// empty, in order.
pub proof fn law_payloads_come_from_the_lines(event_lines: Seq<Seq<char>>)
    ensures
        picks(
            event_lines,
            |line: Seq<char>| payload(line).len() > 0,
            |line: Seq<char>| payload(line),
            payloads_of(event_lines),
        ),
    decreases event_lines.len(),
{
    if event_lines.len() > 0 {
        let before = event_lines.drop_last();
        law_payloads_come_from_the_lines(before);
        lemma_picks_last(
            event_lines,
            |line: Seq<char>| payload(line).len() > 0,
            |line: Seq<char>| payload(line),
            payloads_of(before),
        );
    }
}

/// An event reads as the text that its bytes encode, without the line end, and as an
/// error exactly where they encode none.
pub proof fn law_events_read_as_their_text(event: Seq<u8>, t: String, e: ProviderError)
    ensures
        event_read(event, Ok(t)) <==> vstd::utf8::valid_utf8(without_line_end(event)) && t@
            == vstd::utf8::decode_utf8(without_line_end(event)),
        event_read(event, Err(e)) ==> !vstd::utf8::valid_utf8(without_line_end(event)) && (
        e matches ProviderError::Decode(DecodeError::Message(m)) && m@ == "non-utf8 SSE event: "@
            + utf8_error_text(without_line_end(event))),
{
}

} // verus!
