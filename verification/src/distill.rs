//! Distilling durable facts from a transcript into long-term memory.
//!
//! A model is asked for the facts; its reply says which memories to save and which
//! to correct. What is done with each item of the reply is decided here.

use std::sync::Arc;

use vstd::prelude::*;
use vstd::string::StringExecFns;

use crate::ids::{hyphenated, parsed_uuid};
use crate::memory::{hooked_procedure, procedure_at, Capability, HookEvent};
use crate::memory_types::{
    MemoryId, MemoryQuery, MemoryRecord, MemoryScope, QueryView, RecordView,
};
use crate::lists::{lemma_picks_last, picks};
use crate::message::{text_of, Message, MessageView, Role};
use crate::session::MemoryItem;
use crate::text::{
    blank, first_chars, first_index, is_blank, join, joined, last_index,
    law_joining_keeps_the_parts, lemma_first_index, lemma_first_index_is, lemma_last_index,
    lemma_last_index_is, take_chars, text_between, to_chars, white_space,
};
use crate::words::{compared, counts, overlap, Overlap};

verus! {

/// The id of the distillation procedure.
pub const DISTILL_PROCEDURE_ID: &'static str = "sweet:memory:distill";

/// How many characters of what the user said are used to look for memories.
pub const SEARCH_CHARS: usize = 500;

/// How many characters of a useless reply an error quotes.
pub const QUOTED_CHARS: usize = 120;

/// Tuning of the distillation.
#[derive(Debug, Clone, Copy, PartialEq, Eq, Structural)]
pub struct DistillConfig {
    /// Distil only once the session has grown by this many items.
    pub min_new_items: usize,
    /// How many characters of an item the prompt shows.
    pub max_transcript_chars: usize,
}

impl Default for DistillConfig {
    fn default() -> (r: DistillConfig)
        ensures
            r.min_new_items == 12,
            r.max_transcript_chars == 1500,
    {
        DistillConfig { min_new_items: 12, max_transcript_chars: 1500 }
    }
}

// ---------------------------------------------------------------------------
// Spans
// ---------------------------------------------------------------------------

/// Decides what is distilled, and when.
#[derive(Debug)]
pub struct MemoryDistiller {
    pub scope: MemoryScope,
    pub config: DistillConfig,
    /// How many items the session had when it was distilled last.
    pub watermark: usize,
}

/// What claiming a span does: the start of the span, or `None`, and the new
/// watermark.
pub open spec fn claimed(watermark: usize, session_len: usize, min_items: usize) -> (
    Option<usize>,
    usize,
) {
    if session_len < watermark {
        (None, session_len)
    } else if session_len - watermark < (if min_items < 1 {
        1
    } else {
        min_items as int
    }) {
        (None, watermark)
    } else {
        (Some(watermark), session_len)
    }
}

impl MemoryDistiller {
    /// A distiller that has distilled nothing.
    pub fn new(scope: MemoryScope, config: DistillConfig) -> (r: MemoryDistiller)
        ensures
            r.scope == scope,
            r.config == config,
            r.watermark == 0,
    {
        MemoryDistiller { scope, config, watermark: 0 }
    }

    /// Claims the items that have not been distilled, or none when they are fewer
    /// than `min_items`.
    ///
    /// A claimed span counts as distilled at once: one that fails is skipped. A
    /// session that has shrunk below the watermark starts a new span.
    pub fn claim_span(&mut self, session_len: usize, min_items: usize) -> (r: Option<usize>)
        ensures
            r == claimed(old(self).watermark, session_len, min_items).0,
            final(self).watermark == claimed(old(self).watermark, session_len, min_items).1,
            final(self).scope == old(self).scope,
            final(self).config == old(self).config,
    {
        if session_len < self.watermark {
            self.watermark = session_len;
            return None;
        }
        let least: usize = if min_items < 1 {
            1
        } else {
            min_items
        };
        if session_len - self.watermark < least {
            return None;
        }
        let start = self.watermark;
        self.watermark = session_len;
        Some(start)
    }

    /// Claims a span for the procedure that runs after every turn.
    pub fn claim_after_turn(&mut self, session_len: usize) -> (r: Option<usize>)
        ensures
            r == claimed(old(self).watermark, session_len, old(self).config.min_new_items).0,
            final(self).watermark == claimed(
                old(self).watermark,
                session_len,
                old(self).config.min_new_items,
            ).1,
            final(self).scope == old(self).scope,
            final(self).config == old(self).config,
    {
        let min_items = self.config.min_new_items;
        self.claim_span(session_len, min_items)
    }

    /// Claims whatever has not been distilled.
    pub fn run_now(&mut self, session_len: usize) -> (r: Option<usize>)
        ensures
            r == claimed(old(self).watermark, session_len, 1).0,
            final(self).watermark == claimed(old(self).watermark, session_len, 1).1,
            final(self).scope == old(self).scope,
            final(self).config == old(self).config,
    {
        self.claim_span(session_len, 1)
    }
}

/// The spans that a run of claims gets, each as start and end.
pub open spec fn spans(watermark: usize, run: Seq<(usize, usize)>) -> Seq<(usize, usize)>
    decreases run.len(),
{
    if run.len() == 0 {
        Seq::empty()
    } else {
        let (len, min_items) = run.first();
        let (start, next) = claimed(watermark, len, min_items);
        let rest = spans(next, run.drop_first());
        match start {
            Some(s) => seq![(s, len)] + rest,
            None => rest,
        }
    }
}

/// Whether the session lengths of a run of claims never fall, and begin at no less
/// than `from`.
pub open spec fn never_shrinks(from: usize, run: Seq<(usize, usize)>) -> bool
    decreases run.len(),
{
    run.len() == 0 || (from <= run.first().0 && never_shrinks(run.first().0, run.drop_first()))
}

/// No item is distilled twice and none is left out between two spans: as long as
/// the session does not shrink, each span begins where the one before ended, the
/// first at the watermark, and none is empty. This holds however the claims of
/// the two ways to distil are mixed.
pub proof fn law_spans_are_adjacent(watermark: usize, from: usize, run: Seq<(usize, usize)>)
    requires
        watermark <= from,
        never_shrinks(from, run),
    ensures
        forall|i: int|
            0 <= i < spans(watermark, run).len() ==> (#[trigger] spans(watermark, run)[i]).0
                < spans(watermark, run)[i].1,
        spans(watermark, run).len() > 0 ==> spans(watermark, run)[0].0 == watermark,
        forall|i: int, j: int|
            #![trigger spans(watermark, run)[i], spans(watermark, run)[j]]
            0 <= i && j == i + 1 && j < spans(watermark, run).len() ==> spans(watermark, run)[i].1
                == spans(watermark, run)[j].0,
    decreases run.len(),
{
    if run.len() > 0 {
        let (len, min_items) = run.first();
        let (start, next) = claimed(watermark, len, min_items);
        law_spans_are_adjacent(next, len, run.drop_first());
        let rest = spans(next, run.drop_first());
        let all = spans(watermark, run);
        match start {
            Some(s) => {
                assert forall|i: int| 0 <= i < all.len() implies (#[trigger] all[i]).0
                    < all[i].1 by {
                    if i > 0 {
                        assert(all[i] == rest[i - 1]);
                    }
                }
                assert forall|i: int, j: int|
                    #![trigger all[i], all[j]]
                    0 <= i && j == i + 1 && j < all.len() implies all[i].1 == all[j].0 by {
                    assert(all[j] == rest[j - 1]);
                    if i > 0 {
                        assert(all[i] == rest[i - 1]);
                    }
                }
            },
            None => {
                assert(all == rest);
            },
        }
    }
}

// ---------------------------------------------------------------------------
// The prompt
// ---------------------------------------------------------------------------

/// The name of a role in a transcript.
pub open spec fn role_name(role: Role) -> Seq<char> {
    match role {
        Role::System => "System"@,
        Role::User => "User"@,
        Role::Assistant => "Assistant"@,
        Role::Tool => "Tool"@,
    }
}

/// The line of a transcript for `m`.
pub open spec fn transcript_line(m: MessageView, max_chars: nat) -> Seq<char> {
    let text = text_of(m.content);
    role_name(m.role) + ": "@ + first_chars(text, max_chars) + (if text.len() > max_chars {
        " […]"@
    } else {
        Seq::empty()
    })
}

/// The lines of a transcript: one for each item whose text is not blank.
pub open spec fn transcript_lines(items: Seq<MessageView>, max_chars: nat) -> Seq<Seq<char>>
    decreases items.len(),
{
    if items.len() == 0 {
        Seq::empty()
    } else {
        let before = transcript_lines(items.drop_last(), max_chars);
        if blank(text_of(items.last().content)) {
            before
        } else {
            before.push(transcript_line(items.last(), max_chars))
        }
    }
}

fn role_text(role: Role) -> (r: &'static str)
    ensures
        r@ == role_name(role),
{
    match role {
        Role::System => "System",
        Role::User => "User",
        Role::Assistant => "Assistant",
        Role::Tool => "Tool",
    }
}

/// Renders `span` for the prompt, a line for each item.
pub fn render_transcript(span: &[MemoryItem], max_chars_per_item: usize) -> (r: String)
    ensures
        r@ == joined(transcript_lines(span.deep_view(), max_chars_per_item as nat), "\n"@),
{
    let ghost all = span.deep_view();
    let ghost max = max_chars_per_item as nat;
    let mut lines: Vec<String> = Vec::new();
    assert(lines.deep_view() =~= transcript_lines(all.take(0), max));
    for i in 0..span.len()
        invariant
            all == span.deep_view(),
            max == max_chars_per_item as nat,
            lines.deep_view() == transcript_lines(all.take(i as int), max),
    {
        assert(all.take(i + 1).drop_last() =~= all.take(i as int));
        assert(all.take(i + 1).last() == span@[i as int].deep_view());
        let MemoryItem::Message(m) = &span[i];
        let text = m.text_content();
        if !is_blank(text.as_str()) {
            let ghost before = lines.deep_view();
            let mut line = role_text(m.role).to_owned();
            line.append(": ");
            line.append(take_chars(text.as_str(), max_chars_per_item).as_str());
            let chars = to_chars(text.as_str());
            if chars.len() > max_chars_per_item {
                line.append(" […]");
            }
            assert(line@ =~= transcript_line(m.deep_view(), max));
            lines.push(line);
            assert(lines.deep_view() =~= before.push(line@));
        }
    }
    assert(all.take(all.len() as int) =~= all);
    join(&lines, "\n")
}

/// A transcript has exactly one line for each item whose text is not blank, in their
/// order and whoever said it: the role, a colon, and as many characters of the text as
/// fit, with a mark behind them where there are more.
pub proof fn law_transcript_has_a_line_for_each_item(items: Seq<MessageView>, max_chars: nat)
    ensures
        picks(
            items,
            |m: MessageView|
                exists|k: int|
                    0 <= k < text_of(m.content).len() && !white_space(
                        #[trigger] text_of(m.content)[k],
                    ),
            |m: MessageView|
                (match m.role {
                    Role::System => "System: "@,
                    Role::User => "User: "@,
                    Role::Assistant => "Assistant: "@,
                    Role::Tool => "Tool: "@,
                }) + (if text_of(m.content).len() <= max_chars {
                    text_of(m.content)
                } else {
                    text_of(m.content).take(max_chars as int) + " […]"@
                }),
            transcript_lines(items, max_chars),
        ),
    decreases items.len(),
{
    let said = |m: MessageView|
        exists|k: int|
            0 <= k < text_of(m.content).len() && !white_space(#[trigger] text_of(m.content)[k]);
    let line = |m: MessageView|
        (match m.role {
            Role::System => "System: "@,
            Role::User => "User: "@,
            Role::Assistant => "Assistant: "@,
            Role::Tool => "Tool: "@,
        }) + (if text_of(m.content).len() <= max_chars {
            text_of(m.content)
        } else {
            text_of(m.content).take(max_chars as int) + " […]"@
        });
    if items.len() > 0 {
        let before = items.drop_last();
        let last = items.last();
        law_transcript_has_a_line_for_each_item(before, max_chars);
        lemma_picks_last(items, said, line, transcript_lines(before, max_chars));
        assert(said(last) == !blank(text_of(last.content)));
        reveal_strlit("System");
        reveal_strlit("User");
        reveal_strlit("Assistant");
        reveal_strlit("Tool");
        reveal_strlit(": ");
        reveal_strlit("System: ");
        reveal_strlit("User: ");
        reveal_strlit("Assistant: ");
        reveal_strlit("Tool: ");
        assert(transcript_line(last, max_chars) =~= line(last));
    }
}

/// The texts of the user messages that are no summaries.
pub open spec fn user_texts(items: Seq<MessageView>) -> Seq<Seq<char>>
    decreases items.len(),
{
    if items.len() == 0 {
        Seq::empty()
    } else {
        let before = user_texts(items.drop_last());
        if items.last().role == Role::User && !items.last().compacted {
            before.push(text_of(items.last().content))
        } else {
            before
        }
    }
}

/// What the user said in `span`, a message per line.
pub fn user_text(span: &[MemoryItem]) -> (r: String)
    ensures
        r@ == joined(user_texts(span.deep_view()), "\n"@),
{
    let ghost all = span.deep_view();
    let mut texts: Vec<String> = Vec::new();
    assert(texts.deep_view() =~= user_texts(all.take(0)));
    for i in 0..span.len()
        invariant
            all == span.deep_view(),
            texts.deep_view() == user_texts(all.take(i as int)),
    {
        assert(all.take(i + 1).drop_last() =~= all.take(i as int));
        assert(all.take(i + 1).last() == span@[i as int].deep_view());
        let MemoryItem::Message(m) = &span[i];
        if m.role == Role::User && !m.compacted {
            let ghost before = texts.deep_view();
            let text = m.text_content();
            texts.push(text);
            assert(texts.deep_view() =~= before.push(text@));
        }
    }
    assert(all.take(all.len() as int) =~= all);
    join(&texts, "\n")
}

/// The line for a memory that is there already.
pub open spec fn existing_line(record: RecordView) -> Seq<char> {
    "- ("@ + hyphenated(record.id) + ") "@ + record.content
}

/// The memories that are there already, as the prompt shows them.
pub open spec fn existing_block(records: Seq<RecordView>) -> Seq<char> {
    if records.len() == 0 {
        "(none)"@
    } else {
        joined(records.map_values(|r: RecordView| existing_line(r)), "\n"@)
    }
}

/// What the model is asked to do.
pub const PROMPT_RULES: &'static str =
    "You maintain the long-term memory store of an AI agent. From the conversation transcript below, extract durable facts, preferences, and decisions worth remembering across future sessions.\n\nRules:\n- Output ONLY a JSON array.\n- New memory: {\"content\": \"...\", \"tags\": [\"...\"]} — one self-contained fact per entry, phrased to make sense without this conversation.\n- An EXISTING memory that is now outdated: {\"id\": \"<its id>\", \"content\": \"<corrected fact>\"}.\n- Do not repeat or rephrase EXISTING memories.\n- Never store secrets, credentials, or transient task state.\n- Output [] when nothing qualifies.\n\nEXISTING MEMORIES:\n";

/// The prompt for a transcript.
pub open spec fn prompt_text(existing: Seq<RecordView>, transcript: Seq<char>) -> Seq<char> {
    PROMPT_RULES@ + existing_block(existing) + "\n\nTRANSCRIPT:\n"@ + transcript
}

/// Writes the prompt for a transcript, with the memories that are there already.
pub fn distill_prompt(existing: &Vec<MemoryRecord>, transcript: &str) -> (r: String)
    ensures
        r@ == prompt_text(existing.deep_view(), transcript@),
{
    let mut prompt = PROMPT_RULES.to_owned();
    if existing.len() == 0 {
        prompt.append("(none)");
    } else {
        let mut lines: Vec<String> = Vec::new();
        for i in 0..existing.len()
            invariant
                lines@.len() == i,
                forall|k: int|
                    0 <= k < i ==> (#[trigger] lines@[k])@ == existing_line(
                        existing@[k].deep_view(),
                    ),
        {
            let mut line = "- (".to_owned();
            line.append(existing[i].id.to_string().as_str());
            line.append(") ");
            line.append(existing[i].content.as_str());
            lines.push(line);
        }
        assert(lines.deep_view() =~= existing.deep_view().map_values(
            |r: RecordView| existing_line(r),
        ));
        prompt.append(join(&lines, "\n").as_str());
    }
    prompt.append("\n\nTRANSCRIPT:\n");
    prompt.append(transcript);
    prompt
}

/// What to do with a claimed span.
#[derive(Debug)]
pub enum DistillStart {
    /// Nothing was said.
    Nothing,
    /// Look for the memories that are there already, then ask the model.
    Ask { transcript: String, search: MemoryQuery },
}

impl MemoryDistiller {
    /// Begins to distil `span`: renders it, and says which memories to look for.
    pub fn begin(&self, span: &[MemoryItem]) -> (r: DistillStart)
        ensures
            ({
                let transcript = joined(
                    transcript_lines(span.deep_view(), self.config.max_transcript_chars as nat),
                    "\n"@,
                );
                match r {
                    DistillStart::Nothing => transcript.len() == 0,
                    DistillStart::Ask { transcript: t, search } => {
                        &&& transcript.len() > 0
                        &&& t@ == transcript
                        &&& search.deep_view() == (QueryView {
                            text: Some(
                                first_chars(
                                    joined(user_texts(span.deep_view()), "\n"@),
                                    SEARCH_CHARS as nat,
                                ),
                            ),
                            scopes: seq![self.scope.deep_view()],
                            limit: None,
                        })
                    },
                }
            }),
    {
        let transcript = render_transcript(span, self.config.max_transcript_chars);
        if transcript.as_str().is_empty() {
            return DistillStart::Nothing;
        }
        let said = user_text(span);
        let search = self.query(take_chars(said.as_str(), SEARCH_CHARS), None);
        DistillStart::Ask { transcript, search }
    }

    /// A query for `text` in the distiller's scope.
    fn query(&self, text: String, limit: Option<usize>) -> (r: MemoryQuery)
        ensures
            r.deep_view() == (QueryView {
                text: Some(text@),
                scopes: seq![self.scope.deep_view()],
                limit,
            }),
    {
        let mut scopes: Vec<MemoryScope> = Vec::new();
        scopes.push(self.scope.clone());
        assert(scopes.deep_view() =~= seq![self.scope.deep_view()]);
        MemoryQuery { text: Some(text), scopes, limit }
    }
}

// ---------------------------------------------------------------------------
// The reply
// ---------------------------------------------------------------------------

/// How far a scan of JSON text has come.
#[verifier::ext_equal]
pub struct Scan {
    /// How many brackets are open.
    pub depth: int,
    /// Whether the scan is inside a string.
    pub in_string: bool,
    /// Whether the next character of that string is escaped.
    pub escaped: bool,
}

/// The scan before the first character.
pub open spec fn scan_start() -> Scan {
    Scan { depth: 0, in_string: false, escaped: false }
}

/// The scan one character on. Brackets in strings do not count.
pub open spec fn scanned(s: Scan, c: char) -> Scan {
    if s.in_string {
        Scan {
            in_string: s.escaped || c != '"',
            escaped: !s.escaped && c == '\\',
            ..s
        }
    } else if c == '"' {
        Scan { in_string: true, ..s }
    } else if c == '[' {
        Scan { depth: s.depth + 1, ..s }
    } else if c == ']' {
        Scan { depth: s.depth - 1, ..s }
    } else {
        s
    }
}

/// How many characters of `t` it takes to close every open bracket, or `None` where
/// one stays open.
pub open spec fn closing(t: Seq<char>, s: Scan) -> Option<int>
    decreases t.len(),
{
    if t.len() == 0 {
        None
    } else if scanned(s, t.first()).depth == 0 {
        Some(1)
    } else {
        match closing(t.drop_first(), scanned(s, t.first())) {
            Some(n) => Some(n + 1),
            None => None,
        }
    }
}

/// The first array in `t`: what stands from a `[` to the `]` that closes it, for the
/// first `[` that is closed.
pub open spec fn closed_array(t: Seq<char>) -> Option<Seq<char>>
    decreases t.len(),
{
    if t.len() == 0 {
        None
    } else {
        match closing(t, scan_start()) {
            Some(n) if t.first() == '[' => Some(t.take(n)),
            _ => closed_array(t.drop_first()),
        }
    }
}

/// What stands from the first `[` to the last `]` of `t`, if they are in this order.
pub open spec fn bracketed(t: Seq<char>) -> Option<Seq<char>> {
    let start = first_index(t, '[');
    let end = last_index(t, ']');
    if start < end {
        Some(t.subrange(start, end + 1))
    } else {
        None
    }
}

/// What a reply is to be read from: its first array, or, where no bracket is closed,
/// as in one that was cut off in a string, all that stands in brackets.
pub open spec fn array_in(t: Seq<char>) -> Option<Seq<char>> {
    match closed_array(t) {
        Some(array) => Some(array),
        None => bracketed(t),
    }
}

proof fn lemma_closing_within(t: Seq<char>, more: Seq<char>, s: Scan)
    ensures
        closing(t, s) matches Some(n) ==> 1 <= n <= t.len() && closing(t + more, s) == Some(n),
    decreases t.len(),
{
    if t.len() > 0 {
        assert((t + more).first() == t.first());
        assert((t + more).drop_first() =~= t.drop_first() + more);
        lemma_closing_within(t.drop_first(), more, scanned(s, t.first()));
    }
}

/// What closes the last open bracket is a bracket.
proof fn lemma_closing_bracket(t: Seq<char>, s: Scan)
    requires
        s.depth > 0 || t.len() > 0 && t.first() == '[' && !s.in_string && s.depth == 0,
    ensures
        closing(t, s) matches Some(n) ==> 1 <= n <= t.len() && t[n - 1] == ']' && (s.depth == 0
            ==> n > 1),
    decreases t.len(),
{
    if t.len() > 0 && scanned(s, t.first()).depth != 0 {
        lemma_closing_bracket(t.drop_first(), scanned(s, t.first()));
    }
}

/// Where the first array of `t` stands.
proof fn lemma_closed_array(t: Seq<char>)
    ensures
        closed_array(t) is Some ==> exists|i: int, j: int|
            0 <= i < j < t.len() && #[trigger] t[i] == '[' && #[trigger] t[j] == ']',
    decreases t.len(),
{
    if t.len() > 0 {
        let rest = t.drop_first();
        if t.first() == '[' && closing(t, scan_start()) is Some {
            lemma_closing_bracket(t, scan_start());
            let n = closing(t, scan_start())->0;
            assert(t[0] == '[' && t[n - 1] == ']');
        } else {
            lemma_closed_array(rest);
            if closed_array(rest) is Some {
                let (i, j) = choose|i: int, j: int|
                    0 <= i < j < rest.len() && #[trigger] rest[i] == '[' && #[trigger] rest[j]
                        == ']';
                assert(t[i + 1] == '[' && t[j + 1] == ']');
            }
        }
    }
}

/// Something is found exactly where a `]` stands behind a `[`.
pub proof fn law_brackets_are_found(t: Seq<char>)
    ensures
        array_in(t) is Some <==> exists|i: int, j: int|
            0 <= i < j < t.len() && #[trigger] t[i] == '[' && #[trigger] t[j] == ']',
{
    lemma_closed_array(t);
    lemma_first_index(t, '[');
    lemma_last_index(t, ']');
    if bracketed(t) is Some {
        assert(t[first_index(t, '[')] == '[' && t[last_index(t, ']')] == ']');
    }
    if exists|i: int, j: int|
        0 <= i < j < t.len() && #[trigger] t[i] == '[' && #[trigger] t[j] == ']' {
        let (i, j) = choose|i: int, j: int|
            0 <= i < j < t.len() && #[trigger] t[i] == '[' && #[trigger] t[j] == ']';
        assert(first_index(t, '[') <= i);
        assert(j <= last_index(t, ']'));
    }
}

/// An array is found between fences and prose of any kind, as long as these hold none
/// before it: no bracket before it is closed. An array is a text whose first bracket
/// is closed by its last character.
pub proof fn law_array_is_found_in_prose(before: Seq<char>, array: Seq<char>, after: Seq<char>)
    requires
        array.len() > 0,
        array.first() == '[',
        closing(array, scan_start()) == Some(array.len() as int),
        forall|k: int|
            0 <= k < before.len() && #[trigger] before[k] == '[' ==> closing(
                (before + array + after).skip(k),
                scan_start(),
            ) is None,
    ensures
        closed_array(before + array + after) == Some(array),
        array_in(before + array + after) == Some(array),
    decreases before.len(),
{
    let t = before + array + after;
    if before.len() == 0 {
        lemma_closing_within(array, after, scan_start());
        assert(t =~= array + after);
        assert(t.first() == '[');
        assert(t.take(array.len() as int) =~= array);
    } else {
        let rest = before.drop_first();
        assert(t.first() == before[0]);
        assert(t.skip(0) =~= t);
        assert(t.drop_first() =~= rest + array + after);
        assert forall|k: int| 0 <= k < rest.len() && #[trigger] rest[k] == '[' implies closing(
            (rest + array + after).skip(k),
            scan_start(),
        ) is None by {
            assert(rest[k] == before[k + 1]);
            assert((rest + array + after).skip(k) =~= t.skip(k + 1));
        }
        law_array_is_found_in_prose(rest, array, after);
    }
}

/// Where the array ends that the `[` at `start` begins, if it is closed.
fn close_from(chars: &Vec<char>, start: usize) -> (r: Option<usize>)
    requires
        start < chars@.len(),
        chars@[start as int] == '[',
    ensures
        closing(chars@.skip(start as int), scan_start()) == (match r {
            Some(end) => Some(end - start),
            None => None,
        }),
        r matches Some(end) ==> start < end <= chars@.len(),
{
    let n = chars.len();
    let mut depth: usize = 0;
    let mut in_string = false;
    let mut escaped = false;
    let mut i: usize = start;
    while i < n
        invariant
            n == chars@.len(),
            start <= i <= n,
            start < n,
            chars@[start as int] == '[',
            depth <= i - start,
            i > start ==> depth > 0,
            i == start ==> !in_string,
            closing(chars@.skip(start as int), scan_start()) == (match closing(
                chars@.skip(i as int),
                (Scan { depth: depth as int, in_string, escaped }),
            ) {
                Some(k) => Some(i - start + k),
                None => None,
            }),
        decreases n - i,
    {
        let c = chars[i];
        assert(chars@.skip(i as int).first() == c);
        assert(chars@.skip(i as int).drop_first() =~= chars@.skip(i + 1));
        if in_string {
            in_string = escaped || c != '"';
            escaped = !escaped && c == '\\';
        } else if c == '"' {
            in_string = true;
        } else if c == '[' {
            depth += 1;
        } else if c == ']' {
            depth -= 1;
        }
        i += 1;
        if depth == 0 {
            return Some(i);
        }
    }
    None
}

/// The first JSON array in a reply, whatever stands around it. Where no bracket is
/// closed, what stands between the first and the last is handed on as it is.
pub fn extract_json_array(text: &str) -> (r: Option<String>)
    ensures
        r.deep_view() == array_in(text@),
{
    let chars = to_chars(text);
    let n = chars.len();
    let mut first: usize = n;
    let mut last: Option<usize> = None;
    let mut i: usize = 0;
    assert(text@.skip(0) =~= text@);
    while i < n
        invariant
            n == chars@.len(),
            chars@ == text@,
            i <= n,
            closed_array(text@) == closed_array(text@.skip(i as int)),
            first <= n,
            first < n ==> first < i && chars@[first as int] == '[',
            forall|k: int| 0 <= k < i && k < first ==> chars@[k] != '[',
            last matches Some(l) ==> l < i && chars@[l as int] == ']',
            forall|k: int|
                0 <= k < i && (last matches Some(l) ==> l < k) ==> #[trigger] chars@[k] != ']',
        decreases n - i,
    {
        let c = chars[i];
        assert(text@.skip(i as int).first() == c);
        assert(text@.skip(i as int).drop_first() =~= text@.skip(i + 1));
        if c == '[' {
            if first == n {
                first = i;
            }
            if let Some(end) = close_from(&chars, i) {
                assert(text@.skip(i as int).take(end - i) =~= text@.subrange(i as int, end as int));
                return Some(text_between(&chars, i, end));
            }
        } else if c == ']' {
            last = Some(i);
        }
        i += 1;
    }
    proof {
        lemma_first_index_is(text@, '[', first as int);
        lemma_last_index_is(
            text@,
            ']',
            match last {
                Some(l) => l as int,
                None => -1,
            },
        );
    }
    match last {
        Some(end) if first < end => Some(text_between(&chars, first, end + 1)),
        _ => None,
    }
}

/// The error for a reply without an array, with the beginning of the reply.
pub fn no_array_error(reply: &str) -> (r: String)
    ensures
        r@ == "distill reply contained no JSON array: "@ + first_chars(
            reply@,
            QUOTED_CHARS as nat,
        ),
{
    let mut message = "distill reply contained no JSON array: ".to_owned();
    message.append(take_chars(reply, QUOTED_CHARS).as_str());
    message
}

/// One item of the model's reply: a correction of the memory `id`, or a new one.
#[derive(Debug)]
pub struct DistillItem {
    pub id: Option<String>,
    pub content: String,
    pub tags: Vec<String>,
}

/// What to do next with an item.
#[derive(Debug)]
pub enum ItemStep {
    /// The item is dropped.
    Skip,
    /// Look the memory up, then go on with [`MemoryDistiller::after_lookup`].
    Lookup(MemoryId),
    /// Look for the nearest memory, then go on with
    /// [`MemoryDistiller::after_search`].
    Search(MemoryQuery),
    /// Replace the content of the memory.
    Update { id: MemoryId, content: String },
    /// Save a new memory.
    Save { scope: MemoryScope, content: String, tags: Vec<String>, source_session: String },
}

impl MemoryDistiller {
    /// The first step for an item: look up the memory that it corrects, dropping
    /// the item if its id is none, or look for a memory that it repeats.
    pub fn first_step(&self, item: &DistillItem) -> (r: ItemStep)
        ensures
            match item.id {
                Some(text) => match parsed_uuid(text@) {
                    Some(bytes) => r matches ItemStep::Lookup(id) && id.bytes@ == bytes,
                    None => r is Skip,
                },
                None => r matches ItemStep::Search(query) && query.deep_view() == (QueryView {
                    text: Some(item.content@),
                    scopes: seq![self.scope.deep_view()],
                    limit: Some(1usize),
                }),
            },
    {
        match &item.id {
            Some(text) => match MemoryId::from_str(text.as_str()) {
                Ok(id) => ItemStep::Lookup(id),
                Err(_) => ItemStep::Skip,
            },
            None => ItemStep::Search(self.query(item.content.clone(), Some(1))),
        }
    }

    /// The step after a lookup of `id`: only a memory in the distiller's own scope
    /// is corrected. `found` is what the lookup gave, nothing where it failed.
    pub fn after_lookup(&self, item: DistillItem, id: MemoryId, found: &Option<MemoryRecord>) -> (r:
        ItemStep)
        ensures
            match *found {
                Some(record) if record.scope.deep_view() == self.scope.deep_view() => r matches
                    ItemStep::Update { id: i, content } && i == id && content@ == item.content@,
                _ => r is Skip,
            },
    {
        match found {
            Some(record) => {
                if record.scope.same(&self.scope) {
                    ItemStep::Update { id, content: item.content }
                } else {
                    ItemStep::Skip
                }
            },
            None => ItemStep::Skip,
        }
    }

    /// The step after a search: a duplicate is dropped, anything else is saved in
    /// the distiller's scope.
    pub fn after_search(&self, item: DistillItem, duplicate: bool, session_id: &str) -> (r:
        ItemStep)
        ensures
            if duplicate {
                r is Skip
            } else {
                r matches ItemStep::Save { scope, content, tags, source_session }
                    && scope.deep_view() == self.scope.deep_view() && content@ == item.content@
                    && tags.deep_view() == item.tags.deep_view() && source_session@ == session_id@
            },
    {
        if duplicate {
            ItemStep::Skip
        } else {
            ItemStep::Save {
                scope: self.scope.clone(),
                content: item.content,
                tags: item.tags,
                source_session: session_id.to_owned(),
            }
        }
    }
}

/// How far `content` repeats the nearest memory found, if one was found.
pub fn nearest_overlap(content: &str, found: &Vec<MemoryRecord>) -> (r: Option<Overlap>)
    ensures
        r is Some <==> found@.len() > 0,
        r matches Some(o) ==> counts(o) == compared(content@, found@[0].content@),
{
    if found.len() == 0 {
        None
    } else {
        Some(overlap(content, found[0].content.as_str()))
    }
}

/// The capabilities that distil with `distiller` after turns.
pub fn memory_distiller_capabilities(distiller: Arc<MemoryDistiller>) -> (r: Vec<
    Capability<Arc<MemoryDistiller>>,
>)
    ensures
        procedure_at(
            r@,
            DISTILL_PROCEDURE_ID@,
            "Distill durable facts from the transcript into long-term memory"@,
            distiller,
            HookEvent::AfterTurn,
        ),
{
    hooked_procedure(
        DISTILL_PROCEDURE_ID,
        "Distill durable facts from the transcript into long-term memory",
        distiller,
        HookEvent::AfterTurn,
    )
}

/// The capabilities that distil into `scope` after turns.
pub fn memory_distill_capabilities(scope: MemoryScope, config: DistillConfig) -> (r: Vec<
    Capability<Arc<MemoryDistiller>>,
>)
    ensures
        exists|d: Arc<MemoryDistiller>|
            #![trigger procedure_at(
                r@,
                DISTILL_PROCEDURE_ID@,
                "Distill durable facts from the transcript into long-term memory"@,
                d,
                HookEvent::AfterTurn,
            )]
            procedure_at(
                r@,
                DISTILL_PROCEDURE_ID@,
                "Distill durable facts from the transcript into long-term memory"@,
                d,
                HookEvent::AfterTurn,
            ) && d.scope == scope && d.config == config && d.watermark == 0,
{
    memory_distiller_capabilities(Arc::new(MemoryDistiller::new(scope, config)))
}

// ---------------------------------------------------------------------------
// Laws of spans, prompts and replies
// ---------------------------------------------------------------------------

/// A span is claimed exactly where at least as many items are new as are asked for,
/// and at least one; it begins at the watermark, which then is the length of the
/// session. A session that has shrunk only moves the watermark.
pub proof fn law_when_a_span_is_claimed(watermark: usize, session_len: usize, min_items: usize)
    ensures
        ({
            let (start, next) = claimed(watermark, session_len, min_items);
            let enough = session_len > watermark && session_len >= watermark + min_items;
            &&& start is Some <==> enough
            &&& enough ==> start == Some(watermark) && next == session_len
            &&& session_len < watermark ==> next == session_len
            &&& session_len >= watermark && !enough ==> next == watermark
        }),
{
}

/// What the user said is every message of the user that is no summary, in order.
pub proof fn law_what_the_user_said(items: Seq<MessageView>)
    ensures
        picks(
            items,
            |m: MessageView| m.role == Role::User && !m.compacted,
            |m: MessageView| text_of(m.content),
            user_texts(items),
        ),
    decreases items.len(),
{
    if items.len() > 0 {
        law_what_the_user_said(items.drop_last());
        lemma_picks_last(
            items,
            |m: MessageView| m.role == Role::User && !m.compacted,
            |m: MessageView| text_of(m.content),
            user_texts(items.drop_last()),
        );
    }
}

/// The prompt shows every memory that is there already, on a line of its own with its
/// identifier, or says that there is none.
pub proof fn law_every_existing_memory_is_shown(records: Seq<RecordView>, r: RecordView)
    ensures
        existing_block(Seq::empty()) == "(none)"@,
        existing_block(seq![r]) == "- ("@ + hyphenated(r.id) + ") "@ + r.content,
        records.len() > 0 ==> existing_block(records.push(r)) == existing_block(records) + "\n"@
            + ("- ("@ + hyphenated(r.id) + ") "@ + r.content),
{
    let f = |x: RecordView| existing_line(x);
    let line = existing_line(r);
    assert(seq![r].map_values(f) =~= seq![line]);
    assert(records.push(r).map_values(f) =~= records.map_values(f) + seq![line]);
    law_joining_keeps_the_parts(seq![line], seq![line], line, "\n"@);
    if records.len() > 0 {
        law_joining_keeps_the_parts(records.map_values(f), seq![line], line, "\n"@);
    }
}

/// The prompt is the rules, the memories that are there and, behind a heading, the
/// whole transcript.
pub proof fn law_the_prompt(existing: Seq<RecordView>, transcript: Seq<char>)
    ensures
        ({
            let rules =
                "You maintain the long-term memory store of an AI agent. From the conversation transcript below, extract durable facts, preferences, and decisions worth remembering across future sessions.\n\nRules:\n- Output ONLY a JSON array.\n- New memory: {\"content\": \"...\", \"tags\": [\"...\"]} — one self-contained fact per entry, phrased to make sense without this conversation.\n- An EXISTING memory that is now outdated: {\"id\": \"<its id>\", \"content\": \"<corrected fact>\"}.\n- Do not repeat or rephrase EXISTING memories.\n- Never store secrets, credentials, or transient task state.\n- Output [] when nothing qualifies.\n\nEXISTING MEMORIES:\n"@;
            let heading = "\n\nTRANSCRIPT:\n"@;
            let prompt = prompt_text(existing, transcript);
            let shown = existing_block(existing);
            &&& rules.is_prefix_of(prompt)
            &&& prompt.subrange(rules.len() as int, (rules.len() + shown.len()) as int) == shown
            &&& prompt.skip((rules.len() + shown.len()) as int) == heading + transcript
        }),
{
    let prompt = prompt_text(existing, transcript);
    let shown = existing_block(existing);
    let n = PROMPT_RULES@.len() as int;
    assert(prompt.subrange(0, n) =~= PROMPT_RULES@);
    assert(prompt.subrange(n, n + shown.len()) =~= shown);
    assert(prompt.skip(n + shown.len()) =~= "\n\nTRANSCRIPT:\n"@ + transcript);
}

/// The names and numbers of distilling.
pub proof fn law_constants()
    ensures
        DISTILL_PROCEDURE_ID@ == "sweet:memory:distill"@,
        SEARCH_CHARS == 500,
        QUOTED_CHARS == 120,
{
}

/// The scan of the whole of `t`, from `s` on.
pub open spec fn scanned_through(s: Scan, t: Seq<char>) -> Scan
    decreases t.len(),
{
    if t.len() == 0 {
        s
    } else {
        scanned(scanned_through(s, t.drop_last()), t.last())
    }
}

proof fn lemma_quote_opens(s: Scan, t: Seq<char>)
    requires
        !s.in_string,
        !s.escaped,
        forall|k: int| 0 <= k < t.len() ==> t[k] != '"' && t[k] != '\\',
    ensures
        scanned_through(s, seq!['"'] + t) == (Scan { in_string: true, ..s }),
    decreases t.len(),
{
    let open = seq!['"'] + t;
    if t.len() == 0 {
        assert(open.drop_last() =~= Seq::empty());
        assert(scanned_through(s, open.drop_last()) == s);
        assert(open.last() == '"');
    } else {
        lemma_quote_opens(s, t.drop_last());
        assert(open.drop_last() =~= seq!['"'] + t.drop_last());
        assert(open.last() == t[t.len() - 1]);
    }
}

/// What stands between quotes does not count, whatever brackets are in it: the scan
/// behind it is that before it.
pub proof fn law_quoted_text_does_not_count(s: Scan, t: Seq<char>)
    requires
        !s.in_string,
        !s.escaped,
        forall|k: int| 0 <= k < t.len() ==> t[k] != '"' && t[k] != '\\',
    ensures
        scanned_through(s, seq!['"'] + t + seq!['"']) == s,
        scanned_through(s, seq!['"'] + t).in_string,
{
    let all = seq!['"'] + t + seq!['"'];
    lemma_quote_opens(s, t);
    assert(all.drop_last() =~= seq!['"'] + t);
    assert(all.last() == '"');
}

/// In quotes a backslash takes the next character with it, a quote too.
pub proof fn law_an_escaped_character_does_not_count(s: Scan, c: char)
    requires
        s.in_string,
        !s.escaped,
    ensures
        scanned_through(s, seq!['\\', c]) == s,
{
    let t = seq!['\\', c];
    assert(t.drop_last() =~= seq!['\\']);
    assert(seq!['\\'].drop_last() =~= Seq::empty());
    assert(scanned_through(s, seq!['\\'].drop_last()) == s);
    assert(scanned_through(s, seq!['\\']) == (Scan { escaped: true, ..s }));
    assert(scanned_through(s, t) =~= s);
}

/// Outside quotes each bracket counts, and nothing else does.
pub proof fn law_brackets_count(s: Scan, t: Seq<char>, c: char)
    requires
        !scanned_through(s, t).in_string,
    ensures
        ({
            let before = scanned_through(s, t);
            let after = scanned_through(s, t.push(c));
            &&& after.depth == before.depth + (if c == '[' {
                1int
            } else if c == ']' {
                -1
            } else {
                0
            })
            &&& after.in_string <==> c == '"'
            &&& after.escaped == before.escaped
        }),
        scanned_through(s, Seq::empty()) == s,
        scan_start().depth == 0 && !scan_start().in_string && !scan_start().escaped,
{
    assert(t.push(c).drop_last() =~= t);
}

proof fn lemma_scanned_first(s: Scan, t: Seq<char>)
    requires
        t.len() > 0,
    ensures
        scanned_through(s, t) == scanned_through(scanned(s, t.first()), t.drop_first()),
    decreases t.len(),
{
    if t.len() == 1 {
        assert(t.drop_last() =~= Seq::empty());
        assert(t.drop_first() =~= Seq::empty());
        assert(scanned_through(s, t.drop_last()) == s);
    } else {
        lemma_scanned_first(s, t.drop_last());
        assert(t.drop_last().drop_first() =~= t.drop_first().drop_last());
    }
}

/// The bracket that closes is the first behind which none is open.
pub proof fn law_the_first_that_closes_counts(t: Seq<char>, s: Scan, n: int)
    requires
        0 <= n <= t.len(),
        forall|k: int| 1 <= k <= n ==> (#[trigger] scanned_through(s, t.take(k))).depth != 0,
    ensures
        n < t.len() && scanned_through(s, t.take(n + 1)).depth == 0 ==> closing(t, s) == Some(
            n + 1,
        ),
        n == t.len() ==> closing(t, s) is None,
    decreases t.len(),
{
    if t.len() > 0 {
        let rest = t.drop_first();
        let next = scanned(s, t.first());
        assert(t.take(1).drop_first() =~= Seq::empty());
        lemma_scanned_first(s, t.take(1));
        assert(scanned_through(next, t.take(1).drop_first()) == next);
        if n > 0 {
            assert(scanned_through(s, t.take(1)).depth != 0);
            assert forall|k: int| 1 <= k <= n - 1 implies (#[trigger] scanned_through(
                next,
                rest.take(k),
            )).depth != 0 by {
                assert(scanned_through(s, t.take(k + 1)).depth != 0);
                lemma_scanned_first(s, t.take(k + 1));
                assert(t.take(k + 1).drop_first() =~= rest.take(k));
            }
            law_the_first_that_closes_counts(rest, next, n - 1);
            if n < t.len() {
                lemma_scanned_first(s, t.take(n + 1));
                assert(t.take(n + 1).drop_first() =~= rest.take(n));
            }
        }
    }
}

/// Where no bracket is closed, everything from the first that opens to the last that
/// closes is handed on.
pub proof fn law_cut_off_replies_are_handed_on(
    before: Seq<char>,
    inner: Seq<char>,
    behind: Seq<char>,
)
    requires
        forall|k: int| 0 <= k < before.len() ==> before[k] != '[',
        forall|k: int| 0 <= k < behind.len() ==> behind[k] != ']',
        closed_array(before + seq!['['] + inner + seq![']'] + behind) is None,
    ensures
        array_in(before + seq!['['] + inner + seq![']'] + behind) == Some(
            seq!['['] + inner + seq![']'],
        ),
{
    let t = before + seq!['['] + inner + seq![']'] + behind;
    let at = before.len() as int;
    let end = at + 1 + inner.len();
    assert(t[at] == '[' && t[end] == ']');
    assert forall|k: int| 0 <= k < at implies t[k] != '[' by {
        assert(t[k] == before[k]);
    }
    assert forall|k: int| end < k < t.len() implies t[k] != ']' by {
        assert(t[k] == behind[k - end - 1]);
    }
    lemma_first_index_is(t, '[', at);
    lemma_last_index_is(t, ']', end);
    assert(t.subrange(at, end + 1) =~= seq!['['] + inner + seq![']']);
}

} // verus!
