//! Reading the payloads of a server-sent event stream as its bytes arrive.

use vstd::prelude::*;

use crate::error::ProviderError;
use crate::sse::{
    data_lines, drain_event, event_end, event_read, events, law_events_do_not_depend_on_chunks,
    lemma_event_end, payloads_of, unfinished, without_line_end,
};
use crate::text::lines_of;

verus! {

/// Which `data:` lines of an event count.
#[derive(Debug, Clone, Copy, PartialEq, Eq, Structural)]
pub enum Pick {
    Every,
    First,
    Last,
}

/// What reading on gives.
#[derive(Debug)]
pub enum ReadStep {
    /// No payload is left: more bytes are needed.
    NeedMore,
    /// The next payload.
    Payload(String),
    /// The next event cannot be read.
    Failed(ProviderError),
}

/// Takes bytes in and hands payloads out.
#[derive(Debug)]
pub struct EventReader {
    pub buffer: Vec<u8>,
    /// Payloads of events already taken off the buffer.
    pub pending: Vec<String>,
    pub pick: Pick,
}

/// The state of an [`EventReader`].
#[verifier::ext_equal]
pub struct ReaderState {
    pub buffer: Seq<u8>,
    pub pending: Seq<Seq<char>>,
    pub pick: Pick,
}

impl DeepView for EventReader {
    type V = ReaderState;

    open spec fn deep_view(&self) -> ReaderState {
        ReaderState {
            buffer: self.buffer@,
            pending: self.pending.deep_view(),
            pick: self.pick,
        }
    }
}

/// The payloads that count.
pub open spec fn picked(pick: Pick, payloads: Seq<Seq<char>>) -> Seq<Seq<char>> {
    if payloads.len() == 0 {
        payloads
    } else {
        match pick {
            Pick::Every => payloads,
            Pick::First => seq![payloads.first()],
            Pick::Last => seq![payloads.last()],
        }
    }
}

/// Whether the bytes of an event are text.
pub open spec fn readable(event: Seq<u8>) -> bool {
    vstd::utf8::valid_utf8(without_line_end(event))
}

/// The payloads of one readable event that count.
pub open spec fn event_payloads(pick: Pick, event: Seq<u8>) -> Seq<Seq<char>> {
    picked(pick, payloads_of(lines_of(vstd::utf8::decode_utf8(without_line_end(event)))))
}

/// The state once every event without a payload that counts has been taken off
/// the front: a payload is pending, or the buffer begins with an event that
/// cannot be read, or it holds no whole event.
pub open spec fn settled(s: ReaderState) -> ReaderState
    decreases s.buffer.len(),
    via settled_decreases
{
    if s.pending.len() > 0 {
        s
    } else {
        match event_end(s.buffer) {
            Some(e) if readable(s.buffer.take(e)) => settled(
                ReaderState {
                    buffer: s.buffer.skip(e),
                    pending: event_payloads(s.pick, s.buffer.take(e)),
                    pick: s.pick,
                },
            ),
            _ => s,
        }
    }
}

#[via_fn]
proof fn settled_decreases(s: ReaderState) {
    lemma_event_end(s.buffer);
}

impl EventReader {
    /// A reader that has seen no bytes.
    pub fn new(pick: Pick) -> (r: EventReader)
        ensures
            r.deep_view() == (ReaderState { buffer: Seq::empty(), pending: Seq::empty(), pick }),
    {
        let r = EventReader { buffer: Vec::new(), pending: Vec::new(), pick };
        assert(r.deep_view().pending =~= Seq::empty());
        r
    }

    /// Adds bytes that have arrived.
    pub fn push_bytes(&mut self, bytes: &[u8])
        ensures
            final(self).deep_view() == (ReaderState {
                buffer: old(self).buffer@ + bytes@,
                ..old(self).deep_view()
            }),
    {
        self.buffer.extend_from_slice(bytes);
        assert(self.buffer@ =~= old(self).buffer@ + bytes@);
    }

    /// Hands out the next payload.
    pub fn next_payload(&mut self) -> (r: ReadStep)
        ensures
            ({
                let s = settled(old(self).deep_view());
                if s.pending.len() > 0 {
                    &&& r matches ReadStep::Payload(t) && t@ == s.pending.first()
                    &&& final(self).deep_view() == (ReaderState {
                        pending: s.pending.drop_first(),
                        ..s
                    })
                } else {
                    match event_end(s.buffer) {
                        None => r is NeedMore && final(self).deep_view() == s,
                        Some(e) => {
                            &&& r matches ReadStep::Failed(error) && event_read(
                                s.buffer.take(e),
                                Err(error),
                            )
                            &&& final(self).deep_view() == (ReaderState {
                                buffer: s.buffer.skip(e),
                                ..s
                            })
                        },
                    }
                }
            }),
    {
        let ghost goal = settled(self.deep_view());
        while self.pending.len() == 0
            invariant
                settled(self.deep_view()) == goal,
                goal == settled(old(self).deep_view()),
            decreases self.buffer@.len(),
        {
            let ghost before = self.deep_view();
            proof {
                lemma_event_end(self.buffer@);
            }
            match drain_event(&mut self.buffer) {
                None => {
                    return ReadStep::NeedMore;
                },
                Some(Err(error)) => {
                    return ReadStep::Failed(error);
                },
                Some(Ok(text)) => {
                    let found = data_lines(text.as_str());
                    let ghost all = found.deep_view();
                    let kept = keep(found, self.pick);
                    self.pending = kept;
                    assert(self.deep_view() =~= (ReaderState {
                        buffer: before.buffer.skip(event_end(before.buffer)->0),
                        pending: event_payloads(
                            before.pick,
                            before.buffer.take(event_end(before.buffer)->0),
                        ),
                        pick: before.pick,
                    }));
                },
            }
        }
        let ghost before = self.deep_view();
        let payload = self.pending.remove(0);
        assert(self.deep_view().pending =~= before.pending.drop_first());
        ReadStep::Payload(payload)
    }
}

/// Keeps the payloads that count.
fn keep(found: Vec<String>, pick: Pick) -> (r: Vec<String>)
    ensures
        r.deep_view() == picked(pick, found.deep_view()),
{
    if found.len() == 0 {
        return found;
    }
    match pick {
        Pick::Every => found,
        Pick::First => {
            let mut r: Vec<String> = Vec::new();
            r.push(found[0].clone());
            assert(r.deep_view() =~= seq![found.deep_view().first()]);
            r
        },
        Pick::Last => {
            let mut r: Vec<String> = Vec::new();
            r.push(found[found.len() - 1].clone());
            assert(r.deep_view() =~= seq![found.deep_view().last()]);
            r
        },
    }
}

// ---------------------------------------------------------------------------
// Laws
// ---------------------------------------------------------------------------

/// The payloads of a run of events, up to the first that cannot be read.
pub open spec fn run_payloads(pick: Pick, run: Seq<Seq<u8>>) -> Seq<Seq<char>>
    decreases run.len(),
{
    if run.len() == 0 || !readable(run.first()) {
        Seq::empty()
    } else {
        event_payloads(pick, run.first()) + run_payloads(pick, run.drop_first())
    }
}

/// The payloads that the reader holds, whether taken off the buffer or not.
pub open spec fn held(s: ReaderState) -> Seq<Seq<char>> {
    s.pending + run_payloads(s.pick, events(s.buffer))
}

proof fn lemma_settled_holds_the_same(s: ReaderState)
    ensures
        held(settled(s)) == held(s),
        settled(s).pick == s.pick,
        settled(s).pending.len() == 0 ==> held(s).len() == 0,
    decreases s.buffer.len(),
{
    if s.pending.len() == 0 {
        match event_end(s.buffer) {
            Some(e) => {
                lemma_event_end(s.buffer);
                assert(events(s.buffer).first() == s.buffer.take(e));
                assert(events(s.buffer).drop_first() =~= events(s.buffer.skip(e)));
                if readable(s.buffer.take(e)) {
                    let next = ReaderState {
                        buffer: s.buffer.skip(e),
                        pending: event_payloads(s.pick, s.buffer.take(e)),
                        pick: s.pick,
                    };
                    lemma_settled_holds_the_same(next);
                    assert(held(next) =~= held(s));
                } else {
                    assert(held(s) =~= Seq::empty());
                }
            },
            None => {
                assert(events(s.buffer) =~= Seq::empty());
                assert(held(s) =~= Seq::empty());
            },
        }
    }
}

/// The reader hands out exactly the payloads it holds, first to last: one is
/// handed out whenever one is held, it is the first, and the others stay.
pub proof fn law_payloads_come_in_order(s: ReaderState)
    ensures
        settled(s).pending.len() > 0 <==> held(s).len() > 0,
        held(s).len() > 0 ==> {
            let after = ReaderState { pending: settled(s).pending.drop_first(), ..settled(s) };
            settled(s).pending.first() == held(s).first() && held(after) == held(s).drop_first()
        },
{
    lemma_settled_holds_the_same(s);
    let t = settled(s);
    if t.pending.len() > 0 {
        let after = ReaderState { pending: t.pending.drop_first(), ..t };
        assert(held(t).first() == t.pending.first());
        assert(held(after) =~= held(t).drop_first());
    }
}

proof fn lemma_run_payloads_add(pick: Pick, a: Seq<Seq<u8>>, b: Seq<Seq<u8>>)
    requires
        forall|i: int| 0 <= i < a.len() ==> readable(#[trigger] a[i]),
    ensures
        run_payloads(pick, a + b) == run_payloads(pick, a) + run_payloads(pick, b),
    decreases a.len(),
{
    if a.len() == 0 {
        assert(a + b =~= b);
        assert(run_payloads(pick, a) + run_payloads(pick, b) =~= run_payloads(pick, b));
    } else {
        assert(readable(a[0]));
        assert forall|i: int| 0 <= i < a.drop_first().len() implies readable(
            #[trigger] a.drop_first()[i],
        ) by {
            assert(readable(a[i + 1]));
        }
        lemma_run_payloads_add(pick, a.drop_first(), b);
        assert((a + b).drop_first() =~= a.drop_first() + b);
        assert((a + b).first() == a.first());
        assert(run_payloads(pick, a + b) =~= run_payloads(pick, a) + run_payloads(pick, b));
    }
}

/// Bytes that arrive add the payloads of the events that they complete behind
/// those already held, and change nothing else: the payloads of a stream do not
/// depend on how its bytes arrive in pieces.
pub proof fn law_payloads_do_not_depend_on_chunks(s: ReaderState, more: Seq<u8>)
    requires
        forall|i: int| 0 <= i < events(s.buffer).len() ==> readable(#[trigger] events(s.buffer)[i]),
    ensures
        held(ReaderState { buffer: s.buffer + more, ..s }) == held(s) + run_payloads(
            s.pick,
            events(unfinished(s.buffer) + more),
        ),
{
    law_events_do_not_depend_on_chunks(s.buffer, more);
    lemma_run_payloads_add(s.pick, events(s.buffer), events(unfinished(s.buffer) + more));
    assert(held(ReaderState { buffer: s.buffer + more, ..s }) =~= held(s) + run_payloads(
        s.pick,
        events(unfinished(s.buffer) + more),
    ));
}

/// Of the payloads of an event those count that are asked for: all of them, the first
/// alone, or the last alone.
pub proof fn law_what_counts_is_what_is_asked_for(payloads: Seq<Seq<char>>)
    ensures
        picked(Pick::Every, payloads) == payloads,
        payloads.len() == 0 ==> picked(Pick::First, payloads).len() == 0 && picked(
            Pick::Last,
            payloads,
        ).len() == 0,
        payloads.len() > 0 ==> picked(Pick::First, payloads) == seq![payloads[0]] && picked(
            Pick::Last,
            payloads,
        ) == seq![payloads[payloads.len() - 1]],
{
}

/// The payloads of an event are those of the lines of its text, and an event can be
/// read exactly if its bytes are text.
pub proof fn law_payloads_are_those_of_the_text(pick: Pick, event: Seq<u8>)
    ensures
        readable(event) <==> vstd::utf8::valid_utf8(without_line_end(event)),
        event_payloads(pick, event) == picked(
            pick,
            payloads_of(lines_of(vstd::utf8::decode_utf8(without_line_end(event)))),
        ),
{
}

/// The model of a reader holds what it holds.
pub proof fn law_models_hold_the_fields(r: EventReader, i: int)
    ensures
        r.deep_view().buffer == r.buffer@,
        r.deep_view().pending.len() == r.pending@.len(),
        0 <= i < r.pending@.len() ==> r.deep_view().pending[i] == r.pending@[i]@,
        r.deep_view().pick == r.pick,
{
}

} // verus!
