//! Conversational sessions.

use std::ops::Range;

use vstd::prelude::*;

use crate::ids::{hyphenated, id_text, new_id_bytes, parse_id, parsed_uuid, version_7};
use crate::lists::{splice, spliced};
use crate::message::{text_of, Message, MessageView};
use crate::text::to_chars;

verus! {

// ---------------------------------------------------------------------------
// Errors and identifiers
// ---------------------------------------------------------------------------

/// A failure of the storage behind a session.
#[derive(Debug, PartialEq, Eq)]
pub enum SessionError {
    Storage(String),
}

impl SessionError {
    /// The error for a storage that failed with `message`.
    pub fn storage(message: &str) -> (r: SessionError)
        ensures
            r matches SessionError::Storage(m) && m@ == message@,
    {
        SessionError::Storage(message.to_owned())
    }

    /// The error in words.
    pub fn to_text(&self) -> (r: String)
        ensures
            r@ == "session storage error: "@ + self->Storage_0@,
    {
        let SessionError::Storage(message) = self;
        let mut out = "session storage error: ".to_owned();
        vstd::string::StringExecFns::append(&mut out, message.as_str());
        out
    }
}

/// A time-sortable identifier for a session.
#[derive(Debug, Clone, Copy, PartialEq, Eq, Hash)]
pub struct SessionId {
    pub bytes: [u8; 16],
}

impl SessionId {
    /// A new identifier.
    pub fn new() -> (r: SessionId)
        ensures
            version_7(r.bytes@),
    {
        SessionId { bytes: new_id_bytes() }
    }

    /// The identifier in hyphenated notation.
    pub fn to_string(&self) -> (r: String)
        ensures
            r@ == hyphenated(self.bytes@),
            parsed_uuid(r@) == Some(self.bytes@),
    {
        id_text(self.bytes)
    }

    /// Reads an identifier.
    pub fn from_str(s: &str) -> (r: Result<SessionId, uuid::Error>)
        ensures
            match r {
                Ok(id) => parsed_uuid(s@) == Some(id.bytes@),
                Err(_) => parsed_uuid(s@) is None,
            },
    {
        match parse_id(s) {
            Ok(bytes) => Ok(SessionId { bytes }),
            Err(e) => Err(e),
        }
    }
}

impl Default for SessionId {
    fn default() -> (r: SessionId)
        ensures
            version_7(r.bytes@),
    {
        SessionId::new()
    }
}

/// The text of a new identifier has five groups, and the third begins with the
/// version.
pub proof fn law_new_ids_say_version_7(b: Seq<u8>)
    requires
        version_7(b),
    ensures
        hyphenated(b).len() == 36,
        hyphenated(b)[8] == '-',
        hyphenated(b)[13] == '-',
        hyphenated(b)[14] == '7',
        hyphenated(b)[18] == '-',
        hyphenated(b)[23] == '-',
{
    reveal_strlit("-");
    reveal_strlit("0123456789abcdef");
}

// ---------------------------------------------------------------------------
// Items
// ---------------------------------------------------------------------------

/// One item of a session.
#[derive(Debug, PartialEq, Eq)]
pub enum MemoryItem {
    Message(Message),
}

impl DeepView for MemoryItem {
    type V = MessageView;

    open spec fn deep_view(&self) -> MessageView {
        match *self {
            MemoryItem::Message(m) => m.deep_view(),
        }
    }
}

impl Clone for MemoryItem {
    fn clone(&self) -> (r: MemoryItem)
        ensures
            r.deep_view() == self.deep_view(),
    {
        match self {
            MemoryItem::Message(m) => MemoryItem::Message(m.clone()),
        }
    }
}

/// The context size that the newest item with one reports.
pub open spec fn newest_context_size(items: Seq<MessageView>) -> Option<usize>
    decreases items.len(),
{
    if items.len() == 0 {
        None
    } else {
        match items.last().context_tokens {
            Some(n) => Some(n),
            None => newest_context_size(items.drop_last()),
        }
    }
}

/// The most recent context size on record, scanning newest first. `None` when no
/// reply of a provider is on record yet.
pub fn last_context_size(items: &[MemoryItem]) -> (r: Option<usize>)
    ensures
        r == newest_context_size(items.deep_view()),
{
    let ghost all = items.deep_view();
    let mut i: usize = items.len();
    assert(all.take(all.len() as int) =~= all);
    while i > 0
        invariant
            all == items.deep_view(),
            i <= items@.len(),
            newest_context_size(all.take(i as int)) == newest_context_size(all),
        decreases i,
    {
        i -= 1;
        assert(all.take(i + 1).drop_last() =~= all.take(i as int));
        assert(all.take(i + 1).last() == items@[i as int].deep_view());
        let MemoryItem::Message(m) = &items[i];
        if let Some(n) = m.context_tokens {
            return Some(n);
        }
    }
    None
}

/// A rough estimate of the tokens of `items`: a quarter of the characters of each.
pub open spec fn estimated_tokens(items: Seq<MessageView>) -> nat
    decreases items.len(),
{
    if items.len() == 0 {
        0
    } else {
        estimated_tokens(items.drop_last()) + text_of(items.last().content).len() / 4
    }
}

proof fn lemma_estimate_grows(items: Seq<MessageView>, n: int)
    requires
        0 <= n <= items.len(),
    ensures
        estimated_tokens(items.take(n)) <= estimated_tokens(items),
    decreases items.len(),
{
    if n == items.len() {
        assert(items.take(n) =~= items);
    } else {
        lemma_estimate_grows(items.drop_last(), n);
        assert(items.drop_last().take(n) =~= items.take(n));
    }
}

/// Estimates the tokens of `items`, or says that there are more than a `usize` holds.
pub fn checked_estimate(items: &[MemoryItem]) -> (r: Option<usize>)
    ensures
        r is Some <==> estimated_tokens(items.deep_view()) <= usize::MAX,
        r matches Some(n) ==> n == estimated_tokens(items.deep_view()),
{
    let ghost all = items.deep_view();
    let mut total: usize = 0;
    for i in 0..items.len()
        invariant
            all == items.deep_view(),
            total == estimated_tokens(all.take(i as int)),
    {
        assert(all.take(i + 1).drop_last() =~= all.take(i as int));
        assert(all.take(i + 1).last() == items@[i as int].deep_view());
        proof {
            lemma_estimate_grows(all, i + 1);
        }
        let MemoryItem::Message(m) = &items[i];
        let chars = to_chars(m.text_content().as_str());
        match total.checked_add(chars.len() / 4) {
            Some(sum) => {
                total = sum;
            },
            None => {
                return None;
            },
        }
    }
    assert(all.take(all.len() as int) =~= all);
    Some(total)
}

/// Estimates the tokens of `items`.
pub fn estimate_tokens(items: &[MemoryItem]) -> (r: usize)
    requires
        estimated_tokens(items.deep_view()) <= usize::MAX,
    ensures
        r == estimated_tokens(items.deep_view()),
{
    checked_estimate(items).unwrap()
}

/// Copies the messages of `items`.
pub fn copy_messages(items: &[MemoryItem]) -> (r: Vec<Message>)
    ensures
        r.deep_view() == items.deep_view(),
{
    let mut out: Vec<Message> = Vec::new();
    for i in 0..items.len()
        invariant
            out@.len() == i,
            forall|k: int| 0 <= k < i ==> (#[trigger] out@[k]).deep_view() == items@[k].deep_view(),
    {
        let MemoryItem::Message(m) = &items[i];
        out.push(m.clone());
    }
    assert(out.deep_view() =~= items.deep_view());
    out
}

// ---------------------------------------------------------------------------
// Sessions
// ---------------------------------------------------------------------------

/// Conversational storage.
pub trait Session {
    /// The items, in order.
    spec fn stored(&self) -> Seq<MessageView>;

    /// The identifier.
    spec fn identity(&self) -> SessionId;

    /// The total tokens, actual or estimated.
    spec fn total(&self) -> nat;

    /// Whether appending `item` to this session may end with `r`.
    spec fn may_push(&self, item: MessageView, r: Result<(), SessionError>) -> bool;

    /// Whether clearing this session may end with `r`.
    spec fn may_clear(&self, r: Result<(), SessionError>) -> bool;

    /// Whether putting `replacement` in place of the items from `start` to `end` of
    /// this session may end with `r`.
    spec fn may_replace(
        &self,
        start: int,
        end: int,
        replacement: Seq<MessageView>,
        r: Result<(), SessionError>,
    ) -> bool;

    /// The identifier of the session.
    fn id(&self) -> (r: &SessionId)
        ensures
            *r == self.identity(),
    ;

    /// Appends an item.
    fn push(&mut self, item: MemoryItem) -> (r: Result<(), SessionError>)
        ensures
            old(self).may_push(item.deep_view(), r),
            r is Ok ==> final(self).stored() == old(self).stored().push(item.deep_view()),
            r is Err ==> final(self).stored() == old(self).stored(),
            final(self).identity() == old(self).identity(),
    ;

    /// All items, in order.
    fn items(&self) -> (r: &[MemoryItem])
        ensures
            r.deep_view() == self.stored(),
    ;

    /// The messages among the items, in order.
    fn messages(&self) -> (r: Vec<Message>)
        ensures
            r.deep_view() == self.stored(),
    ;

    /// Removes all items.
    fn clear(&mut self) -> (r: Result<(), SessionError>)
        ensures
            old(self).may_clear(r),
            r is Ok ==> final(self).stored() == Seq::<MessageView>::empty(),
            r is Err ==> final(self).stored() == old(self).stored(),
            final(self).identity() == old(self).identity(),
    ;

    /// A rough estimate of the tokens: a quarter of the characters.
    fn token_count(&self) -> (r: usize)
        requires
            estimated_tokens(self.stored()) <= usize::MAX,
        ensures
            r == estimated_tokens(self.stored()),
    ;

    /// The total tokens, actual or estimated.
    fn total_tokens(&self) -> (r: usize)
        requires
            self.total() <= usize::MAX,
        ensures
            r == self.total(),
    ;

    /// The context size that a provider reported last, or the estimate where
    /// none is on record.
    fn context_size(&self) -> (r: usize)
        requires
            newest_context_size(self.stored()) is None ==> estimated_tokens(self.stored())
                <= usize::MAX,
        ensures
            r == (match newest_context_size(self.stored()) {
                Some(n) => n as nat,
                None => estimated_tokens(self.stored()),
            }),
    ;

    /// Puts `replacement` in place of the items in `range`.
    fn replace_range(&mut self, range: Range<usize>, replacement: Vec<MemoryItem>) -> (r: Result<
        (),
        SessionError,
    >)
        requires
            range.start <= range.end <= old(self).stored().len(),
        ensures
            old(self).may_replace(
                range.start as int,
                range.end as int,
                replacement.deep_view(),
                r,
            ),
            r is Ok ==> final(self).stored() == spliced(
                old(self).stored(),
                range.start as int,
                range.end as int,
                replacement.deep_view(),
            ),
            r is Err ==> final(self).stored() == old(self).stored(),
            final(self).identity() == old(self).identity(),
    ;
}

/// A session kept in memory.
#[derive(Debug)]
pub struct InMemorySession {
    pub id: SessionId,
    pub items: Vec<MemoryItem>,
}

impl InMemorySession {
    /// An empty session with a new identifier.
    pub fn new() -> (r: InMemorySession)
        ensures
            r.stored() == Seq::<MessageView>::empty(),
            version_7(r.id.bytes@),
    {
        let r = InMemorySession { id: SessionId::new(), items: Vec::new() };
        assert(r.items.deep_view() =~= Seq::empty());
        r
    }
}

impl Default for InMemorySession {
    fn default() -> (r: InMemorySession)
        ensures
            r.stored() == Seq::<MessageView>::empty(),
            version_7(r.id.bytes@),
    {
        InMemorySession::new()
    }
}

impl Session for InMemorySession {
    open spec fn stored(&self) -> Seq<MessageView> {
        self.items.deep_view()
    }

    open spec fn identity(&self) -> SessionId {
        self.id
    }

    open spec fn total(&self) -> nat {
        estimated_tokens(self.items.deep_view())
    }

    open spec fn may_push(&self, item: MessageView, r: Result<(), SessionError>) -> bool {
        r is Ok
    }

    open spec fn may_clear(&self, r: Result<(), SessionError>) -> bool {
        r is Ok
    }

    open spec fn may_replace(
        &self,
        start: int,
        end: int,
        replacement: Seq<MessageView>,
        r: Result<(), SessionError>,
    ) -> bool {
        r is Ok
    }

    fn id(&self) -> (r: &SessionId) {
        &self.id
    }

    fn push(&mut self, item: MemoryItem) -> (r: Result<(), SessionError>)
        ensures
            r is Ok,
    {
        let ghost view = item.deep_view();
        self.items.push(item);
        assert(self.items.deep_view() =~= old(self).items.deep_view().push(view));
        Ok(())
    }

    fn items(&self) -> (r: &[MemoryItem]) {
        self.items.as_slice()
    }

    fn messages(&self) -> (r: Vec<Message>) {
        copy_messages(self.items.as_slice())
    }

    fn clear(&mut self) -> (r: Result<(), SessionError>)
        ensures
            r is Ok,
    {
        self.items.clear();
        assert(self.items.deep_view() =~= Seq::empty());
        Ok(())
    }

    fn token_count(&self) -> (r: usize) {
        estimate_tokens(self.items.as_slice())
    }

    fn total_tokens(&self) -> (r: usize) {
        self.token_count()
    }

    fn context_size(&self) -> (r: usize) {
        match last_context_size(self.items.as_slice()) {
            Some(n) => n,
            None => self.token_count(),
        }
    }

    fn replace_range(&mut self, range: Range<usize>, replacement: Vec<MemoryItem>) -> (r: Result<
        (),
        SessionError,
    >)
        ensures
            r is Ok,
    {
        splice(&mut self.items, range, replacement);
        assert(self.items.deep_view() =~= spliced(
            old(self).items.deep_view(),
            range.start as int,
            range.end as int,
            replacement.deep_view(),
        ));
        Ok(())
    }
}

// ---------------------------------------------------------------------------
// Mirrored sessions
// ---------------------------------------------------------------------------

/// A copy of a session's messages, for those who need the transcript at a point
/// in time. A [`SharedSession`] keeps it in step with the session.
#[derive(Debug)]
pub struct SharedSessionHandle {
    pub snapshot: Vec<Message>,
}

impl SharedSessionHandle {
    /// Copies the current messages.
    pub fn snapshot_messages(&self) -> (r: Vec<Message>)
        ensures
            r.deep_view() == self.snapshot.deep_view(),
    {
        let r = self.snapshot.clone();
        assert(r.deep_view() =~= self.snapshot.deep_view());
        r
    }

    /// Appends a message.
    pub fn append(&mut self, message: Message)
        ensures
            final(self).snapshot.deep_view() == old(self).snapshot.deep_view().push(
                message.deep_view(),
            ),
    {
        self.snapshot.push(message);
        assert(self.snapshot.deep_view() =~= old(self).snapshot.deep_view().push(
            message.deep_view(),
        ));
    }

    /// Replaces all messages.
    pub fn replace_all(&mut self, messages: Vec<Message>)
        ensures
            final(self).snapshot.deep_view() == messages.deep_view(),
    {
        self.snapshot = messages;
    }

    /// Mirrors that `message` was appended, if it was, and hands the outcome on.
    pub fn after_push(&mut self, message: Message, outcome: Result<(), SessionError>) -> (r: Result<
        (),
        SessionError,
    >)
        ensures
            r == outcome,
            final(self).snapshot.deep_view() == (if outcome is Ok {
                old(self).snapshot.deep_view().push(message.deep_view())
            } else {
                old(self).snapshot.deep_view()
            }),
    {
        if outcome.is_ok() {
            self.append(message);
        }
        outcome
    }

    /// Mirrors that the items were rewritten to `messages`, if they were, and hands the
    /// outcome on.
    pub fn after_rewrite(
        &mut self,
        messages: Vec<Message>,
        outcome: Result<(), SessionError>,
    ) -> (r: Result<(), SessionError>)
        ensures
            r == outcome,
            final(self).snapshot.deep_view() == (if outcome is Ok {
                messages.deep_view()
            } else {
                old(self).snapshot.deep_view()
            }),
    {
        if outcome.is_ok() {
            self.replace_all(messages);
        }
        outcome
    }
}

/// A session that mirrors every write into a [`SharedSessionHandle`].
#[derive(Debug)]
pub struct SharedSession<S> {
    pub inner: S,
    pub handle: SharedSessionHandle,
}

impl<S: Session> SharedSession<S> {
    /// Whether the handle holds the messages of the session.
    pub open spec fn in_step(&self) -> bool {
        self.handle.snapshot.deep_view() == self.inner.stored()
    }

    /// Wraps `inner`. The handle begins with its current messages.
    pub fn new(inner: S) -> (r: SharedSession<S>)
        ensures
            r.inner == inner,
            r.in_step(),
    {
        let mut handle = SharedSessionHandle { snapshot: Vec::new() };
        handle.replace_all(inner.messages());
        SharedSession { inner, handle }
    }

    /// The handle.
    pub fn handle(&self) -> (r: &SharedSessionHandle)
        ensures
            *r == self.handle,
    {
        &self.handle
    }
}

impl<S: Session> Session for SharedSession<S> {
    open spec fn stored(&self) -> Seq<MessageView> {
        self.inner.stored()
    }

    open spec fn identity(&self) -> SessionId {
        self.inner.identity()
    }

    open spec fn total(&self) -> nat {
        self.inner.total()
    }

    /// Writes end as those of the wrapped session do.
    open spec fn may_push(&self, item: MessageView, r: Result<(), SessionError>) -> bool {
        self.inner.may_push(item, r)
    }

    open spec fn may_clear(&self, r: Result<(), SessionError>) -> bool {
        self.inner.may_clear(r)
    }

    open spec fn may_replace(
        &self,
        start: int,
        end: int,
        replacement: Seq<MessageView>,
        r: Result<(), SessionError>,
    ) -> bool {
        self.inner.may_replace(start, end, replacement, r)
    }

    fn id(&self) -> (r: &SessionId) {
        self.inner.id()
    }

    /// Appends an item, and mirrors it once that has succeeded.
    fn push(&mut self, item: MemoryItem) -> (r: Result<(), SessionError>)
        ensures
            final(self).handle.snapshot.deep_view() == (if r is Ok {
                old(self).handle.snapshot.deep_view().push(item.deep_view())
            } else {
                old(self).handle.snapshot.deep_view()
            }),
            old(self).in_step() ==> final(self).in_step(),
    {
        let mirror = match &item {
            MemoryItem::Message(m) => m.clone(),
        };
        let outcome = self.inner.push(item);
        self.handle.after_push(mirror, outcome)
    }

    fn items(&self) -> (r: &[MemoryItem]) {
        self.inner.items()
    }

    fn messages(&self) -> (r: Vec<Message>) {
        self.inner.messages()
    }

    /// Removes all items, and mirrors that once it has succeeded.
    fn clear(&mut self) -> (r: Result<(), SessionError>)
        ensures
            final(self).handle.snapshot.deep_view() == (if r is Ok {
                Seq::empty()
            } else {
                old(self).handle.snapshot.deep_view()
            }),
            old(self).in_step() ==> final(self).in_step(),
    {
        let outcome = self.inner.clear();
        let none: Vec<Message> = Vec::new();
        assert(none.deep_view() =~= Seq::empty());
        self.handle.after_rewrite(none, outcome)
    }

    fn token_count(&self) -> (r: usize) {
        self.inner.token_count()
    }

    fn total_tokens(&self) -> (r: usize) {
        self.inner.total_tokens()
    }

    fn context_size(&self) -> (r: usize) {
        self.inner.context_size()
    }

    /// Replaces items, and mirrors that once it has succeeded.
    fn replace_range(&mut self, range: Range<usize>, replacement: Vec<MemoryItem>) -> (r: Result<
        (),
        SessionError,
    >)
        ensures
            final(self).handle.snapshot.deep_view() == (if r is Ok {
                final(self).inner.stored()
            } else {
                old(self).handle.snapshot.deep_view()
            }),
            old(self).in_step() ==> final(self).in_step(),
    {
        let outcome = self.inner.replace_range(range, replacement);
        self.handle.after_rewrite(self.inner.messages(), outcome)
    }
}

// ---------------------------------------------------------------------------
// Laws of sizes and models
// ---------------------------------------------------------------------------

/// The context size on record is that of the last item with one.
pub proof fn law_the_last_context_size_counts(items: Seq<MessageView>, i: int)
    requires
        -1 <= i < items.len(),
        0 <= i ==> items[i].context_tokens is Some,
        forall|k: int| i < k < items.len() ==> (#[trigger] items[k]).context_tokens is None,
    ensures
        newest_context_size(items) == (if 0 <= i {
            items[i].context_tokens
        } else {
            None
        }),
    decreases items.len(),
{
    if items.len() > 0 && i < items.len() - 1 {
        assert(items[items.len() - 1].context_tokens is None);
        assert forall|k: int| i < k < items.len() - 1 implies (#[trigger]
        items.drop_last()[k]).context_tokens is None by {
            assert(items[k].context_tokens is None);
        }
        law_the_last_context_size_counts(items.drop_last(), i);
    }
}

/// The estimate is the sum over the items of a quarter of their characters, rounded
/// down for each.
pub proof fn law_estimates_add_up(a: Seq<MessageView>, b: Seq<MessageView>, m: MessageView)
    ensures
        estimated_tokens(a + b) == estimated_tokens(a) + estimated_tokens(b),
        4 * estimated_tokens(seq![m]) <= text_of(m.content).len() < 4 * estimated_tokens(seq![m])
            + 4,
        estimated_tokens(Seq::<MessageView>::empty()) == 0,
    decreases b.len(),
{
    assert(seq![m].drop_last() =~= Seq::empty());
    assert(estimated_tokens(seq![m].drop_last()) == 0);
    if b.len() == 0 {
        assert(a + b =~= a);
    } else {
        law_estimates_add_up(a, b.drop_last(), m);
        assert((a + b).drop_last() =~= a + b.drop_last());
    }
}

/// What a session in memory holds: its items, in order, under its identifier. Nothing
/// it is asked for fails.
pub proof fn law_sessions_in_memory(
    s: InMemorySession,
    i: int,
    item: MessageView,
    r: Result<(), SessionError>,
)
    ensures
        s.stored().len() == s.items@.len(),
        0 <= i < s.items@.len() ==> s.stored()[i] == s.items@[i]->Message_0.deep_view(),
        s.identity() == s.id,
        s.total() == estimated_tokens(s.stored()),
        s.may_push(item, r) ==> r is Ok,
        s.may_clear(r) ==> r is Ok,
        s.may_replace(0, 0, seq![item], r) ==> r is Ok,
{
}

/// A shared session is the session that it wraps, and its handle is in step where it
/// holds the same messages in the same order.
pub proof fn law_shared_sessions<S: Session>(
    s: SharedSession<S>,
    start: int,
    end: int,
    items: Seq<MessageView>,
    item: MessageView,
    r: Result<(), SessionError>,
)
    ensures
        s.stored() == s.inner.stored(),
        s.identity() == s.inner.identity(),
        s.total() == s.inner.total(),
        s.may_push(item, r) <==> s.inner.may_push(item, r),
        s.may_clear(r) <==> s.inner.may_clear(r),
        s.may_replace(start, end, items, r) <==> s.inner.may_replace(start, end, items, r),
        s.in_step() <==> s.handle.snapshot@.len() == s.inner.stored().len() && forall|k: int|
            0 <= k < s.handle.snapshot@.len() ==> (#[trigger] s.handle.snapshot@[k]).deep_view()
                == s.inner.stored()[k],
{
    let held = s.handle.snapshot.deep_view();
    if s.handle.snapshot@.len() == s.inner.stored().len() && forall|k: int|
        0 <= k < s.handle.snapshot@.len() ==> (#[trigger] s.handle.snapshot@[k]).deep_view()
            == s.inner.stored()[k] {
        assert forall|k: int| 0 <= k < held.len() implies held[k] == s.inner.stored()[k] by {
            assert(s.handle.snapshot@[k].deep_view() == s.inner.stored()[k]);
        }
        assert(held =~= s.inner.stored());
    }
}

/// The model of an item is that of its message.
pub proof fn law_models_hold_the_fields(item: MemoryItem)
    ensures
        item.deep_view() == item->Message_0.deep_view(),
{
}

} // verus!
