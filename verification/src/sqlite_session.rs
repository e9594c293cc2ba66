//! The live transcript of a session that is stored in SQLite, and the changes to
//! its tables that the session's operations ask for.
//!
//! A row keeps its place by a positive floating-point position. Here a position
//! stands as the bit pattern of that number, which orders as the number does.
//! Compaction never deletes a row: it marks the rows that it replaces as archived
//! and puts the replacements between the last of them and the next row, live or
//! archived.

use std::ops::Range;

use vstd::prelude::*;

use crate::ids::parsed_uuid;
use crate::lists::{lemma_picks_last, picks, splice, spliced};
use crate::message::{Message, MessageView};
use crate::session::{
    copy_messages, estimate_tokens, estimated_tokens, last_context_size, newest_context_size,
    MemoryItem, SessionError, SessionId,
};
use crate::text::same_text;

verus! {

// ---------------------------------------------------------------------------
// Opening
// ---------------------------------------------------------------------------

/// Where the identifier of an opened session comes from.
#[derive(Debug)]
pub enum SessionRow {
    /// The database holds a session with this identifier.
    Found(SessionId),
    /// The database holds none: a row with this identifier is to be inserted.
    Insert(SessionId),
}

/// Whether a database whose row holds `existing` is opened as `row` says, where `id`
/// is for a new one.
pub open spec fn opens_as(existing: Option<Seq<char>>, id: SessionId, row: SessionRow) -> bool {
    match existing {
        None => row == SessionRow::Insert(id),
        Some(text) => row matches SessionRow::Found(found) && parsed_uuid(text) == Some(
            found.bytes@,
        ),
    }
}

/// Decides which session an opened database holds: the one that it has, or a new
/// one under `id`.
pub fn resolve_id(existing: Option<String>, id: SessionId) -> (r: Result<SessionRow, uuid::Error>)
    ensures
        match r {
            Ok(row) => opens_as(existing.deep_view(), id, row),
            Err(_) => existing matches Some(text) && parsed_uuid(text@) is None,
        },
{
    match existing {
        None => Ok(SessionRow::Insert(id)),
        Some(text) => match SessionId::from_str(text.as_str()) {
            Ok(found) => Ok(SessionRow::Found(found)),
            Err(e) => Err(e),
        },
    }
}

/// Whether a row of this kind holds a message.
pub fn is_message_kind(kind: &str) -> (r: bool)
    ensures
        r == (kind@ == "message"@),
{
    same_text(kind, "message")
}

/// A live row as it was read: its kind, its decoded message or why it could not
/// be decoded, and its position.
#[derive(Debug)]
pub struct LiveRow {
    pub kind: String,
    pub data: Result<Message, String>,
    pub position: u64,
}

/// Whether the row holds a message.
pub open spec fn holds_message(row: LiveRow) -> bool {
    row.kind@ == "message"@
}

/// The messages of `rows` with their positions. Rows of other kinds are left out.
pub open spec fn live_items(rows: Seq<LiveRow>) -> Seq<(MessageView, u64)>
    decreases rows.len(),
{
    if rows.len() == 0 {
        Seq::empty()
    } else {
        let before = live_items(rows.drop_last());
        if holds_message(rows.last()) {
            before.push((rows.last().data->Ok_0.deep_view(), rows.last().position))
        } else {
            before
        }
    }
}

/// The positions of the rows that hold no message.
pub open spec fn other_positions(rows: Seq<LiveRow>) -> Seq<u64>
    decreases rows.len(),
{
    if rows.len() == 0 {
        Seq::empty()
    } else {
        let before = other_positions(rows.drop_last());
        if holds_message(rows.last()) {
            before
        } else {
            before.push(rows.last().position)
        }
    }
}

/// A session that is stored in SQLite, as far as it is kept in memory.
#[derive(Debug)]
pub struct SqliteSession {
    pub id: SessionId,
    pub cache: Vec<MemoryItem>,
    /// The position of each live row, in the order of `cache`.
    pub positions: Vec<u64>,
    /// The positions of all other rows: the archived ones, and any that hold no
    /// message.
    pub others: Vec<u64>,
    /// The highest position ever used, by live and archived rows.
    pub max_position: u64,
}

impl SqliteSession {
    /// Whether every cached item has its position.
    pub open spec fn well_formed(&self) -> bool {
        self.cache@.len() == self.positions@.len()
    }

    /// The live items with their positions.
    pub open spec fn live(&self) -> Seq<(MessageView, u64)> {
        Seq::new(
            self.cache@.len(),
            |i: int| (self.cache@[i].deep_view(), self.positions@[i]),
        )
    }

    /// The live items.
    pub open spec fn stored(&self) -> Seq<MessageView> {
        self.cache.deep_view()
    }

    /// The session that the live rows of an opened database make. `archived` are the
    /// positions of its archived rows.
    pub fn load(id: SessionId, rows: Vec<LiveRow>, archived: Vec<u64>, max_position: u64) -> (r:
        Result<SqliteSession, SessionError>)
        ensures
            r is Ok <==> forall|i: int|
                0 <= i < rows@.len() && holds_message(#[trigger] rows@[i]) ==> rows@[i].data is Ok,
            r matches Ok(s) ==> loaded(id, rows@, archived@, max_position, s),
            r matches Err(e) ==> exists|i: int|
                0 <= i < rows@.len() && holds_message(#[trigger] rows@[i]) && rows@[i].data is Err
                    && e->Storage_0@ == rows@[i].data->Err_0@ && forall|k: int|
                    0 <= k < i && holds_message(#[trigger] rows@[k]) ==> rows@[k].data is Ok,
    {
        let ghost all = rows@;
        let ghost given = archived@;
        let mut s = SqliteSession {
            id,
            cache: Vec::new(),
            positions: Vec::new(),
            others: archived,
            max_position,
        };
        assert(s.live() =~= live_items(all.take(0)));
        assert(s.others@ =~= given + other_positions(all.take(0)));
        for row in it: rows
            invariant
                it.seq() == all,
                s.well_formed(),
                s.id == id,
                s.max_position == max_position,
                s.live() == live_items(all.take(it.index())),
                s.others@ == given + other_positions(all.take(it.index())),
                forall|k: int|
                    0 <= k < it.index() && holds_message(#[trigger] all[k]) ==> all[k].data is Ok,
        {
            let ghost k = it.index();
            assert(all[k] == row);
            assert(all.take(k + 1).drop_last() =~= all.take(k));
            assert(all.take(k + 1).last() == row);
            if is_message_kind(row.kind.as_str()) {
                match row.data {
                    Ok(message) => {
                        let ghost before = s.live();
                        s.cache.push(MemoryItem::Message(message));
                        s.positions.push(row.position);
                        assert(s.live() =~= before.push((message.deep_view(), row.position)));
                    },
                    Err(e) => {
                        assert(holds_message(all[k]) && all[k].data is Err);
                        return Err(SessionError::Storage(e));
                    },
                }
            } else {
                s.others.push(row.position);
                assert(s.others@ =~= given + other_positions(all.take(k)).push(row.position));
                assert(s.live() =~= live_items(all.take(k)));
            }
        }
        assert(all.take(all.len() as int) =~= all);
        Ok(s)
    }

    /// The identifier of the session.
    pub fn id(&self) -> (r: &SessionId)
        ensures
            *r == self.id,
    {
        &self.id
    }

    /// The live items, in order.
    pub fn items(&self) -> (r: &[MemoryItem])
        ensures
            r.deep_view() == self.stored(),
    {
        self.cache.as_slice()
    }

    /// The live messages, in order.
    pub fn messages(&self) -> (r: Vec<Message>)
        ensures
            r.deep_view() == self.stored(),
    {
        copy_messages(self.cache.as_slice())
    }

    /// A rough estimate of the live tokens: a quarter of the characters.
    pub fn token_count(&self) -> (r: usize)
        requires
            estimated_tokens(self.stored()) <= usize::MAX,
        ensures
            r == estimated_tokens(self.stored()),
    {
        estimate_tokens(self.cache.as_slice())
    }

    /// The context size that a provider reported last, or the estimate where none
    /// is on record.
    pub fn context_size(&self) -> (r: usize)
        requires
            newest_context_size(self.stored()) is None ==> estimated_tokens(self.stored())
                <= usize::MAX,
        ensures
            r == (match newest_context_size(self.stored()) {
                Some(n) => n as nat,
                None => estimated_tokens(self.stored()),
            }),
    {
        match last_context_size(self.cache.as_slice()) {
            Some(n) => n,
            None => self.token_count(),
        }
    }

    // -----------------------------------------------------------------------
    // Changes
    // -----------------------------------------------------------------------

    /// Records an item whose row has been inserted at `position`.
    pub fn record_push(&mut self, item: MemoryItem, position: u64)
        requires
            old(self).well_formed(),
        ensures
            final(self).well_formed(),
            final(self).live() == old(self).live().push((item.deep_view(), position)),
            final(self).stored() == old(self).stored().push(item.deep_view()),
            final(self).others == old(self).others,
            final(self).max_position == position,
            final(self).id == old(self).id,
    {
        self.cache.push(item);
        self.positions.push(position);
        self.max_position = position;
        assert(self.live() =~= old(self).live().push((item.deep_view(), position)));
        assert(self.stored() =~= old(self).stored().push(item.deep_view()));
    }

    /// Records that every row has been deleted.
    pub fn record_clear(&mut self)
        ensures
            final(self).well_formed(),
            final(self).live() == Seq::<(MessageView, u64)>::empty(),
            final(self).stored() == Seq::<MessageView>::empty(),
            final(self).others@ == Seq::<u64>::empty(),
            final(self).max_position == 0,
            final(self).id == old(self).id,
    {
        self.cache.clear();
        self.positions.clear();
        self.others.clear();
        self.max_position = 0;
        assert(self.live() =~= Seq::empty());
        assert(self.stored() =~= Seq::empty());
    }

    /// The changes that replacing the items in `range` asks for.
    pub fn plan_replace(&self, range: Range<usize>) -> (r: ReplacePlan)
        requires
            self.well_formed(),
            range.start <= range.end <= self.stored().len(),
        ensures
            plans(*self, range.start as int, range.end as int, r),
    {
        let start = range.start;
        let end = range.end;
        let lower = if end > start {
            self.positions[end - 1]
        } else if start > 0 {
            self.positions[start - 1]
        } else {
            0
        };
        let ghost all = self.positions@ + self.others@;
        let mut upper: Option<u64> = None;
        for i in 0..self.positions.len()
            invariant
                all == self.positions@ + self.others@,
                upper == next_position(all.take(i as int), lower),
        {
            assert(all.take(i + 1).drop_last() =~= all.take(i as int));
            upper = nearer(upper, lower, self.positions[i]);
        }
        let n = self.positions.len();
        for i in 0..self.others.len()
            invariant
                all == self.positions@ + self.others@,
                n == self.positions@.len(),
                upper == next_position(all.take(n + i), lower),
        {
            assert(all.take(n + i + 1).drop_last() =~= all.take(n + i));
            assert(all[n + i] == self.others@[i as int]);
            upper = nearer(upper, lower, self.others[i]);
        }
        assert(all.take(all.len() as int) =~= all);
        let mut archive: Vec<u64> = Vec::new();
        assert(archive@ =~= self.positions@.subrange(start as int, start as int));
        for i in start..end
            invariant
                start <= end <= self.positions@.len(),
                archive@ == self.positions@.subrange(start as int, i as int),
        {
            archive.push(self.positions[i]);
            assert(archive@ =~= self.positions@.subrange(start as int, i + 1));
        }
        ReplacePlan { archive, lower, upper }
    }

    /// Records that the items in `range` have been archived and `replacement`
    /// inserted at `new_positions`.
    pub fn record_replace(
        &mut self,
        range: Range<usize>,
        replacement: Vec<MemoryItem>,
        new_positions: Vec<u64>,
    )
        requires
            old(self).well_formed(),
            range.start <= range.end <= old(self).stored().len(),
            replacement@.len() == new_positions@.len(),
        ensures
            replaced(
                *old(self),
                range.start as int,
                range.end as int,
                replacement.deep_view(),
                new_positions@,
                *final(self),
            ),
    {
        let start = range.start;
        let end = range.end;
        assert(self.others@ =~= old(self).others@ + old(self).positions@.subrange(
            start as int,
            start as int,
        ));
        for i in start..end
            invariant
                start <= end <= self.positions@.len(),
                self.cache == old(self).cache,
                self.positions == old(self).positions,
                self.max_position == old(self).max_position,
                self.id == old(self).id,
                self.others@ == old(self).others@ + old(self).positions@.subrange(
                    start as int,
                    i as int,
                ),
        {
            self.others.push(self.positions[i]);
            assert(self.others@ =~= old(self).others@ + old(self).positions@.subrange(
                start as int,
                i + 1,
            ));
        }
        let ghost items = replacement.deep_view();
        let ghost places = new_positions@;
        if new_positions.len() > 0 {
            let last = new_positions[new_positions.len() - 1];
            if last > self.max_position {
                self.max_position = last;
            }
        }
        splice(&mut self.cache, start..end, replacement);
        splice(&mut self.positions, start..end, new_positions);
        assert(self.stored() =~= spliced(old(self).stored(), start as int, end as int, items));
        assert(self.live() =~= spliced(
            old(self).live(),
            start as int,
            end as int,
            placed(items, places),
        ));
    }
}

/// The changes to the tables that replacing a range of items asks for.
#[derive(Debug)]
pub struct ReplacePlan {
    /// The positions of the live rows to archive.
    pub archive: Vec<u64>,
    /// The replacements go behind this position...
    pub lower: u64,
    /// ... and before this one, where there is a row behind them.
    pub upper: Option<u64>,
}

/// The position that replacements for `start..end` go behind: that of the last
/// item replaced, or of the item before the range where it is empty, or zero.
pub open spec fn lower_anchor(positions: Seq<u64>, start: int, end: int) -> u64 {
    if end > start {
        positions[end - 1]
    } else if start > 0 {
        positions[start - 1]
    } else {
        0
    }
}

/// The nearer of `found` and `position` behind `lower`.
pub open spec fn nearest(found: Option<u64>, lower: u64, position: u64) -> Option<u64> {
    if position > lower && (found is None || position < found->0) {
        Some(position)
    } else {
        found
    }
}

/// The nearer of `found` and `position` behind `lower`.
fn nearer(found: Option<u64>, lower: u64, position: u64) -> (r: Option<u64>)
    ensures
        r == nearest(found, lower, position),
{
    match found {
        Some(p) if position > lower && position < p => Some(position),
        None if position > lower => Some(position),
        _ => found,
    }
}

/// The least of `positions` that is behind `lower`.
pub open spec fn next_position(positions: Seq<u64>, lower: u64) -> Option<u64>
    decreases positions.len(),
{
    if positions.len() == 0 {
        None
    } else {
        nearest(next_position(positions.drop_last(), lower), lower, positions.last())
    }
}

proof fn lemma_next_position(positions: Seq<u64>, lower: u64)
    ensures
        match next_position(positions, lower) {
            Some(p) => lower < p && positions.contains(p),
            None => true,
        },
        forall|i: int|
            0 <= i < positions.len() && lower < #[trigger] positions[i] ==> (next_position(
                positions,
                lower,
            ) matches Some(p) && p <= positions[i]),
    decreases positions.len(),
{
    if positions.len() > 0 {
        let before = positions.drop_last();
        lemma_next_position(before, lower);
        assert forall|i: int| 0 <= i < positions.len() && lower < #[trigger] positions[i] implies (
        next_position(positions, lower) matches Some(p) && p <= positions[i]) by {
            if i < before.len() {
                assert(before[i] == positions[i]);
            }
        }
        if let Some(p) = next_position(before, lower) {
            let k = choose|k: int| 0 <= k < before.len() && before[k] == p;
            assert(positions[k] == p);
        }
        assert(positions[positions.len() - 1] == positions.last());
    }
}

/// Whether `plan` is what replacing the items `start..end` of `s` asks for: to archive
/// their rows, and to put the replacements between the last of them and the next row,
/// live or not.
pub open spec fn plans(s: SqliteSession, start: int, end: int, plan: ReplacePlan) -> bool {
    &&& plan.archive@ == s.positions@.subrange(start, end)
    &&& plan.lower == lower_anchor(s.positions@, start, end)
    &&& plan.upper == next_position(s.positions@ + s.others@, plan.lower)
}

/// Whether `after` is `before` with `replacement` at `new_positions` in place of the
/// items `start..end`.
pub open spec fn replaced(
    before: SqliteSession,
    start: int,
    end: int,
    replacement: Seq<MessageView>,
    new_positions: Seq<u64>,
    after: SqliteSession,
) -> bool {
    &&& after.well_formed()
    &&& after.live() == spliced(before.live(), start, end, placed(replacement, new_positions))
    &&& after.stored() == spliced(before.stored(), start, end, replacement)
    &&& after.others@ == before.others@ + before.positions@.subrange(start, end)
    &&& after.max_position == raised(before.max_position, new_positions)
    &&& after.id == before.id
}

/// Whether `s` is what `rows` make, with archived rows at `archived`.
pub open spec fn loaded(
    id: SessionId,
    rows: Seq<LiveRow>,
    archived: Seq<u64>,
    max_position: u64,
    s: SqliteSession,
) -> bool {
    &&& s.well_formed()
    &&& s.live() == live_items(rows)
    &&& s.others@ == archived + other_positions(rows)
    &&& s.id == id
    &&& s.max_position == max_position
}

/// `items` at `positions`.
pub open spec fn placed(items: Seq<MessageView>, positions: Seq<u64>) -> Seq<(MessageView, u64)> {
    Seq::new(items.len(), |i: int| (items[i], positions[i]))
}

/// The highest position after `new_positions` have been used too.
pub open spec fn raised(max_position: u64, new_positions: Seq<u64>) -> u64 {
    if new_positions.len() > 0 && new_positions.last() > max_position {
        new_positions.last()
    } else {
        max_position
    }
}

// ---------------------------------------------------------------------------
// The full transcript
// ---------------------------------------------------------------------------

/// A row, live or archived, as it was read.
#[derive(Debug)]
pub struct FullRow {
    pub kind: String,
    pub data: Result<Message, String>,
    pub archived: bool,
}

/// The messages of `rows`, each with whether it is archived. Rows of other kinds
/// are left out.
pub open spec fn full_transcript(rows: Seq<FullRow>) -> Seq<(MessageView, bool)>
    decreases rows.len(),
{
    if rows.len() == 0 {
        Seq::empty()
    } else {
        let before = full_transcript(rows.drop_last());
        if rows.last().kind@ == "message"@ {
            before.push((rows.last().data->Ok_0.deep_view(), rows.last().archived))
        } else {
            before
        }
    }
}

/// Whether `e` tells of the first row that holds a message that could not be
/// decoded.
pub open spec fn first_fault(rows: Seq<FullRow>, e: SessionError) -> bool {
    exists|i: int|
        0 <= i < rows.len() && (#[trigger] rows[i]).kind@ == "message"@ && rows[i].data is Err
            && e->Storage_0@ == rows[i].data->Err_0@ && all_decoded(rows.take(i))
}

/// Whether every row that holds a message could be decoded.
pub open spec fn all_decoded(rows: Seq<FullRow>) -> bool {
    forall|i: int|
        0 <= i < rows.len() && (#[trigger] rows[i]).kind@ == "message"@ ==> rows[i].data is Ok
}

impl SqliteSession {
    /// Every item, archived and live, in the order of `rows`, with its archived flag.
    pub fn full_items(rows: Vec<FullRow>) -> (r: Result<Vec<(MemoryItem, bool)>, SessionError>)
        ensures
            r is Ok <==> all_decoded(rows@),
            r matches Ok(items) ==> items.deep_view() == full_transcript(rows@),
            r matches Err(e) ==> first_fault(rows@, e),
    {
        let ghost all = rows@;
        let mut out: Vec<(MemoryItem, bool)> = Vec::new();
        assert(out.deep_view() =~= full_transcript(all.take(0)));
        for row in it: rows
            invariant
                it.seq() == all,
                out.deep_view() == full_transcript(all.take(it.index())),
                forall|k: int|
                    0 <= k < it.index() && (#[trigger] all[k]).kind@ == "message"@ ==> all[k].data is Ok,
        {
            let ghost k = it.index();
            assert(all[k] == row);
            assert(all.take(k + 1).drop_last() =~= all.take(k));
            assert(all.take(k + 1).last() == row);
            if is_message_kind(row.kind.as_str()) {
                match row.data {
                    Ok(message) => {
                        let ghost before = out.deep_view();
                        out.push((MemoryItem::Message(message), row.archived));
                        assert(out.deep_view() =~= before.push((message.deep_view(), row.archived)));
                    },
                    Err(e) => {
                        assert(all[k].kind@ == "message"@ && all[k].data is Err);
                        assert(all_decoded(all.take(k)));
                        return Err(SessionError::Storage(e));
                    },
                }
            }
        }
        assert(all.take(all.len() as int) =~= all);
        Ok(out)
    }

    /// Every message, archived and live, in the order of `rows`.
    pub fn full_messages(rows: Vec<FullRow>) -> (r: Result<Vec<Message>, SessionError>)
        ensures
            r is Ok <==> all_decoded(rows@),
            r matches Ok(messages) ==> messages.deep_view() == full_transcript(rows@).map_values(
                |p: (MessageView, bool)| p.0,
            ),
            r matches Err(e) ==> first_fault(rows@, e),
    {
        let ghost full = full_transcript(rows@);
        let items = match SqliteSession::full_items(rows) {
            Ok(items) => items,
            Err(e) => {
                return Err(e);
            },
        };
        let ghost list = items@;
        let ghost goal = full.map_values(|p: (MessageView, bool)| p.0);
        let mut out: Vec<Message> = Vec::new();
        assert(out.deep_view() =~= goal.take(0));
        for pair in it: items
            invariant
                it.seq() == list,
                goal.len() == list.len(),
                forall|k: int| 0 <= k < goal.len() ==> goal[k] == (#[trigger] list[k]).0.deep_view(),
                out.deep_view() == goal.take(it.index()),
        {
            let ghost k = it.index();
            assert(list[k] == pair);
            let ghost before = out.deep_view();
            let MemoryItem::Message(message) = pair.0;
            out.push(message);
            assert(out.deep_view() =~= before.push(message.deep_view()));
            assert(goal.take(k + 1) =~= goal.take(k).push(goal[k]));
        }
        assert(goal.take(goal.len() as int) =~= goal);
        Ok(out)
    }
}

// ---------------------------------------------------------------------------
// The tables
// ---------------------------------------------------------------------------

/// A row of the table of items.
#[verifier::ext_equal]
pub struct TableRow {
    pub message: MessageView,
    pub position: u64,
    pub archived: bool,
}

/// `rows` with the live rows at `positions` archived.
pub open spec fn archived_at(rows: Seq<TableRow>, positions: Seq<u64>) -> Seq<TableRow> {
    rows.map_values(
        |r: TableRow|
            if !r.archived && positions.contains(r.position) {
                TableRow { archived: true, ..r }
            } else {
                r
            },
    )
}

/// `rows` with a live row for each of `items` inserted.
pub open spec fn rows_inserted(rows: Seq<TableRow>, items: Seq<(MessageView, u64)>) -> Seq<
    TableRow,
> {
    rows + items.map_values(
        |p: (MessageView, u64)| TableRow { message: p.0, position: p.1, archived: false },
    )
}

/// Whether the live rows are the items of `live`, one row for each.
pub open spec fn mirrors(rows: Seq<TableRow>, live: Seq<(MessageView, u64)>) -> bool {
    &&& forall|i: int| 0 <= i < live.len() ==> has_live_row(rows, #[trigger] live[i])
    &&& forall|k: int|
        0 <= k < rows.len() && !(#[trigger] rows[k]).archived ==> live.contains(
            (rows[k].message, rows[k].position),
        )
    &&& forall|j: int, k: int|
        #![trigger rows[j], rows[k]]
        0 <= j < k < rows.len() && !rows[j].archived && !rows[k].archived ==> rows[j].position
            != rows[k].position
}

/// Whether some live row holds `item`.
pub open spec fn has_live_row(rows: Seq<TableRow>, item: (MessageView, u64)) -> bool {
    rows.contains(TableRow { message: item.0, position: item.1, archived: false })
}

/// Whether the positions of `live` rise.
pub open spec fn ordered(live: Seq<(MessageView, u64)>) -> bool {
    forall|i: int, j: int|
        #![trigger live[i], live[j]]
        0 <= i < j < live.len() ==> live[i].1 < live[j].1
}

/// Whether `items` stand in rising order between the two anchors.
pub open spec fn fits_between(
    items: Seq<(MessageView, u64)>,
    lower: u64,
    upper: Option<u64>,
) -> bool {
    &&& ordered(items)
    &&& forall|i: int| 0 <= i < items.len() ==> lower < (#[trigger] items[i]).1
    &&& upper matches Some(u) ==> forall|i: int| 0 <= i < items.len() ==> (#[trigger] items[i]).1 < u
}

/// Whether no two rows share a position, and every position is positive.
pub open spec fn well_placed(rows: Seq<TableRow>) -> bool {
    &&& forall|k: int| 0 <= k < rows.len() ==> 0 < (#[trigger] rows[k]).position
    &&& forall|j: int, k: int|
        #![trigger rows[j], rows[k]]
        0 <= j < k < rows.len() ==> rows[j].position != rows[k].position
}

impl SqliteSession {
    /// Whether what is kept in memory is what the table of items holds: the live rows
    /// in order, and the positions of the archived ones.
    pub open spec fn in_step(&self, rows: Seq<TableRow>) -> bool {
        &&& self.well_formed()
        &&& well_placed(rows)
        &&& mirrors(rows, self.live())
        &&& ordered(self.live())
        &&& forall|k: int|
            0 <= k < rows.len() && (#[trigger] rows[k]).archived ==> self.others@.contains(
                rows[k].position,
            )
    }
}

/// An item that is stored behind every row leaves memory and the table in step.
pub proof fn law_push_keeps_in_step(
    rows: Seq<TableRow>,
    before: SqliteSession,
    item: (MessageView, u64),
    after: SqliteSession,
)
    requires
        before.in_step(rows),
        0 < item.1,
        forall|k: int| 0 <= k < rows.len() ==> (#[trigger] rows[k]).position < item.1,
        after.well_formed(),
        after.live() == before.live().push(item),
        after.others == before.others,
    ensures
        after.in_step(rows_inserted(rows, seq![item])),
{
    let live = before.live();
    let now = rows_inserted(rows, seq![item]);
    let n = rows.len() as int;
    assert(now[n] == (TableRow { message: item.0, position: item.1, archived: false }));
    assert forall|i: int| 0 <= i < live.len() implies (#[trigger] live[i]).1 < item.1 by {
        assert(has_live_row(rows, live[i]));
    }
    assert forall|i: int| 0 <= i < live.push(item).len() implies has_live_row(
        now,
        #[trigger] live.push(item)[i],
    ) by {
        if i < live.len() {
            assert(has_live_row(rows, live[i]));
            let k = choose|k: int|
                0 <= k < rows.len() && rows[k] == (TableRow {
                    message: live[i].0,
                    position: live[i].1,
                    archived: false,
                });
            assert(now[k] == rows[k]);
        }
    }
    assert forall|k: int| 0 <= k < now.len() && !(#[trigger] now[k]).archived implies live.push(
        item,
    ).contains((now[k].message, now[k].position)) by {
        if k < n {
            assert(now[k] == rows[k]);
            let i = choose|i: int|
                0 <= i < live.len() && live[i] == (rows[k].message, rows[k].position);
            assert(live.push(item)[i] == live[i]);
        } else {
            assert(live.push(item)[live.len() as int] == item);
        }
    }
    assert forall|j: int, k: int|
        #![trigger now[j], now[k]]
        0 <= j < k < now.len() implies now[j].position != now[k].position by {
        assert(now[j] == rows[j]);
        if k < n {
            assert(now[k] == rows[k]);
        }
    }
    assert forall|k: int| 0 <= k < now.len() implies 0 < (#[trigger] now[k]).position by {
        if k < n {
            assert(now[k] == rows[k]);
        }
    }
    assert forall|k: int|
        0 <= k < now.len() && (#[trigger] now[k]).archived implies after.others@.contains(
        now[k].position,
    ) by {
        assert(now[k] == rows[k]);
    }
}

/// The table after a compaction: the rows at `archive` are archived, and a live row
/// for each of `items` is inserted.
pub open spec fn table_after(
    rows: Seq<TableRow>,
    archive: Seq<u64>,
    items: Seq<(MessageView, u64)>,
) -> Seq<TableRow> {
    rows_inserted(archived_at(rows, archive), items)
}

/// A replacement stands directly behind the span that it replaces: no row, live or
/// archived, stands between the last row of the span and a replacement, except
/// replacements before it.
pub proof fn law_replacements_follow_the_span(
    rows: Seq<TableRow>,
    s: SqliteSession,
    start: int,
    end: int,
    plan: ReplacePlan,
    items: Seq<(MessageView, u64)>,
    k: int,
    i: int,
)
    requires
        s.in_step(rows),
        0 <= start <= end <= s.live().len(),
        plans(s, start, end, plan),
        fits_between(items, plan.lower, plan.upper),
        0 <= k < rows.len(),
        0 <= i < items.len(),
    ensures
        plan.lower < items[i].1,
        end > start ==> plan.lower == s.live()[end - 1].1,
        rows[k].position <= plan.lower || items[i].1 < rows[k].position,
{
    let all = s.positions@ + s.others@;
    lemma_next_position(all, plan.lower);
    assert(items[i].1 > plan.lower);
    assert(all.contains(rows[k].position)) by {
        if rows[k].archived {
            let x = choose|x: int| 0 <= x < s.others@.len() && s.others@[x] == rows[k].position;
            assert(all[s.positions@.len() + x] == rows[k].position);
        } else {
            let x = choose|x: int|
                0 <= x < s.live().len() && s.live()[x] == (rows[k].message, rows[k].position);
            assert(all[x] == s.positions@[x]);
        }
    }
    let x = choose|x: int| 0 <= x < all.len() && all[x] == rows[k].position;
    if plan.lower < all[x] {
        assert(next_position(all, plan.lower) is Some);
    }
}

/// Whether `full` lists the table: each of its rows once, with its mark.
pub open spec fn lists(full: Seq<FullRow>, rows: Seq<TableRow>) -> bool {
    full_transcript(full).to_multiset() == rows.map_values(
        |r: TableRow| (r.message, r.archived),
    ).to_multiset()
}

/// The messages of `rows`, marked where they are archived or among `span`.
pub open spec fn marked(rows: Seq<TableRow>, span: Seq<(MessageView, u64)>) -> Seq<
    (MessageView, bool),
> {
    rows.map_values(
        |r: TableRow| (r.message, r.archived || span.contains((r.message, r.position))),
    )
}

/// Compaction puts the replacements in place of the range, in memory and in the table:
/// the live items are spliced; the table holds every row that it held, the rows of the
/// range archived and all else of it unchanged, and a live row for each replacement,
/// and so does the full transcript that is read from it; and where the new positions
/// fit into the gap, memory and table stay in step.
pub proof fn law_replace_changes_the_range_alone(
    rows: Seq<TableRow>,
    before: SqliteSession,
    start: int,
    end: int,
    plan: ReplacePlan,
    replacement: Seq<MessageView>,
    new_positions: Seq<u64>,
    after: SqliteSession,
    full: Seq<FullRow>,
)
    requires
        before.in_step(rows),
        0 <= start <= end <= before.live().len(),
        plans(before, start, end, plan),
        replacement.len() == new_positions.len(),
        replaced(before, start, end, replacement, new_positions, after),
    ensures
        ({
            let now = table_after(rows, plan.archive@, placed(replacement, new_positions));
            &&& after.stored() == spliced(before.stored(), start, end, replacement)
            &&& now.len() == rows.len() + replacement.len()
            &&& forall|k: int|
                0 <= k < rows.len() ==> #[trigger] now[k] == (TableRow {
                    archived: rows[k].archived || before.live().subrange(start, end).contains(
                        (rows[k].message, rows[k].position),
                    ),
                    ..rows[k]
                })
            &&& forall|i: int|
                0 <= i < replacement.len() ==> now[rows.len() + i] == (TableRow {
                    message: #[trigger] replacement[i],
                    position: new_positions[i],
                    archived: false,
                })
            &&& lists(full, now) ==> full_transcript(full).to_multiset() == marked(
                rows,
                before.live().subrange(start, end),
            ).to_multiset().add(replacement.map_values(|m: MessageView| (m, false)).to_multiset())
            &&& fits_between(placed(replacement, new_positions), plan.lower, plan.upper)
                ==> after.in_step(now)
        }),
{
    let live = before.live();
    let items = placed(replacement, new_positions);
    let archive = plan.archive@;
    let now = table_after(rows, archive, items);
    let n = rows.len() as int;
    let span = live.subrange(start, end);
    assert forall|i: int| 0 <= i < live.len() implies archive.contains((#[trigger] live[i]).1) == (
    start <= i < end) by {
        if start <= i < end {
            assert(archive[i - start] == live[i].1);
        } else if archive.contains(live[i].1) {
            let x = choose|x: int| 0 <= x < archive.len() && archive[x] == live[i].1;
            assert(archive[x] == live[start + x].1);
            if i < start + x {
                assert(live[i].1 < live[start + x].1);
            } else {
                assert(live[start + x].1 < live[i].1);
            }
        }
    }
    assert forall|k: int| 0 <= k < n implies #[trigger] now[k] == (TableRow {
        archived: rows[k].archived || span.contains((rows[k].message, rows[k].position)),
        ..rows[k]
    }) by {
        let pair = (rows[k].message, rows[k].position);
        if !rows[k].archived {
            let i = choose|i: int| 0 <= i < live.len() && live[i] == pair;
            if start <= i < end {
                assert(span[i - start] == pair);
            } else if span.contains(pair) {
                let x = choose|x: int| 0 <= x < span.len() && span[x] == pair;
                assert(span[x] == live[start + x]);
                if i < start + x {
                    assert(live[i].1 < live[start + x].1);
                } else {
                    assert(live[start + x].1 < live[i].1);
                }
            }
        }
    }
    let fresh = replacement.map_values(|m: MessageView| (m, false));
    assert(now.map_values(|r: TableRow| (r.message, r.archived)) =~= marked(rows, span) + fresh);
    vstd::seq_lib::lemma_multiset_commutative(marked(rows, span), fresh);
    if fits_between(items, plan.lower, plan.upper) {
        lemma_replace_keeps_in_step(
            rows,
            before,
            start,
            end,
            plan,
            replacement,
            new_positions,
            after,
            now,
        );
    }
}

proof fn lemma_replace_keeps_in_step(
    rows: Seq<TableRow>,
    before: SqliteSession,
    start: int,
    end: int,
    plan: ReplacePlan,
    replacement: Seq<MessageView>,
    new_positions: Seq<u64>,
    after: SqliteSession,
    now: Seq<TableRow>,
)
    requires
        before.in_step(rows),
        0 <= start <= end <= before.live().len(),
        plans(before, start, end, plan),
        replacement.len() == new_positions.len(),
        fits_between(placed(replacement, new_positions), plan.lower, plan.upper),
        replaced(before, start, end, replacement, new_positions, after),
        now == table_after(rows, plan.archive@, placed(replacement, new_positions)),
        forall|i: int|
            0 <= i < before.live().len() ==> plan.archive@.contains(
                (#[trigger] before.live()[i]).1,
            ) == (start <= i < end),
        forall|k: int|
            0 <= k < rows.len() ==> #[trigger] now[k] == (TableRow {
                archived: rows[k].archived || before.live().subrange(start, end).contains(
                    (rows[k].message, rows[k].position),
                ),
                ..rows[k]
            }),
    ensures
        after.in_step(now),
{
    let live = before.live();
    let items = placed(replacement, new_positions);
    let archive = plan.archive@;
    let n = rows.len() as int;
    let m = items.len() as int;
    let span = live.subrange(start, end);
    assert forall|k: int, i: int|
        #![trigger rows[k], items[i]]
        0 <= k < n && 0 <= i < m implies rows[k].position <= plan.lower || items[i].1
        < rows[k].position by {
        law_replacements_follow_the_span(rows, before, start, end, plan, items, k, i);
    }
    lemma_spliced_in_order(rows, before, start, end, plan, items);
    lemma_spliced_mirrors(rows, before, start, end, plan, items);
    assert forall|j: int, k: int|
        #![trigger now[j], now[k]]
        0 <= j < k < now.len() implies now[j].position != now[k].position by {
        if k < n {
            assert(now[j].position == rows[j].position);
            assert(now[k].position == rows[k].position);
        } else {
            assert(now[k].position == items[k - n].1);
            if j < n {
                assert(now[j].position == rows[j].position);
            } else {
                assert(now[j].position == items[j - n].1);
            }
        }
    }
    assert forall|k: int| 0 <= k < now.len() implies 0 < (#[trigger] now[k]).position by {
        if k < n {
            assert(now[k].position == rows[k].position);
        } else {
            assert(now[k].position == items[k - n].1);
        }
    }
    assert forall|k: int|
        0 <= k < now.len() && (#[trigger] now[k]).archived implies after.others@.contains(
        now[k].position,
    ) by {
        let others = before.others@ + archive;
        if rows[k].archived {
            let x = choose|x: int|
                0 <= x < before.others@.len() && before.others@[x] == rows[k].position;
            assert(others[x] == rows[k].position);
        } else {
            let pair = (rows[k].message, rows[k].position);
            let x = choose|x: int| 0 <= x < span.len() && span[x] == pair;
            assert(archive[x] == rows[k].position);
            assert(others[before.others@.len() + x] == rows[k].position);
        }
    }
}

/// What stands around the replacements in the list of live items.
proof fn lemma_around(
    rows: Seq<TableRow>,
    s: SqliteSession,
    start: int,
    end: int,
    plan: ReplacePlan,
    items: Seq<(MessageView, u64)>,
    i: int,
    r: int,
)
    requires
        s.in_step(rows),
        0 <= start <= end <= s.live().len(),
        plans(s, start, end, plan),
        fits_between(items, plan.lower, plan.upper),
        0 <= i < s.live().len(),
        0 <= r < items.len(),
    ensures
        i < end ==> s.live()[i].1 < items[r].1,
        i >= end ==> items[r].1 < s.live()[i].1,
{
    let live = s.live();
    assert(has_live_row(rows, live[i]));
    let k = choose|k: int|
        0 <= k < rows.len() && rows[k] == (TableRow {
            message: live[i].0,
            position: live[i].1,
            archived: false,
        });
    law_replacements_follow_the_span(rows, s, start, end, plan, items, k, r);
    if i < end {
        if end > start {
            if i < end - 1 {
                assert(live[i].1 < live[end - 1].1);
            }
        } else if i < start - 1 {
            assert(live[i].1 < live[start - 1].1);
        }
    } else {
        assert(0 < rows[k].position);
        if end > start {
            assert(live[end - 1].1 < live[i].1);
        } else if start > 0 {
            assert(live[start - 1].1 < live[i].1);
        }
    }
}

proof fn lemma_spliced_in_order(
    rows: Seq<TableRow>,
    s: SqliteSession,
    start: int,
    end: int,
    plan: ReplacePlan,
    items: Seq<(MessageView, u64)>,
)
    requires
        s.in_step(rows),
        0 <= start <= end <= s.live().len(),
        plans(s, start, end, plan),
        fits_between(items, plan.lower, plan.upper),
    ensures
        ordered(spliced(s.live(), start, end, items)),
{
    let live = s.live();
    let now = spliced(live, start, end, items);
    let m = items.len() as int;
    assert forall|i: int, j: int|
        #![trigger now[i], now[j]]
        0 <= i < j < now.len() implies now[i].1 < now[j].1 by {
        if i < start {
            assert(now[i] == live[i]);
            if start <= j < start + m {
                lemma_around(rows, s, start, end, plan, items, i, j - start);
            }
        } else if i < start + m {
            assert(now[i] == items[i - start]);
            if j >= start + m {
                lemma_around(rows, s, start, end, plan, items, j - m - start + end, i - start);
            }
        } else {
            assert(now[i] == live[i - m - start + end]);
        }
        if j < start {
            assert(now[j] == live[j]);
        } else if j < start + m {
            assert(now[j] == items[j - start]);
        } else {
            assert(now[j] == live[j - m - start + end]);
        }
    }
}

proof fn lemma_spliced_mirrors(
    rows: Seq<TableRow>,
    s: SqliteSession,
    start: int,
    end: int,
    plan: ReplacePlan,
    items: Seq<(MessageView, u64)>,
)
    requires
        s.in_step(rows),
        0 <= start <= end <= s.live().len(),
        plans(s, start, end, plan),
        fits_between(items, plan.lower, plan.upper),
        forall|i: int|
            0 <= i < s.live().len() ==> plan.archive@.contains((#[trigger] s.live()[i]).1) == (start
                <= i < end),
        forall|k: int, i: int|
            #![trigger rows[k], items[i]]
            0 <= k < rows.len() && 0 <= i < items.len() ==> rows[k].position <= plan.lower
                || items[i].1 < rows[k].position,
    ensures
        mirrors(table_after(rows, plan.archive@, items), spliced(s.live(), start, end, items)),
{
    let live = s.live();
    let archive = plan.archive@;
    let kept = archived_at(rows, archive);
    let after = table_after(rows, archive, items);
    let now = spliced(live, start, end, items);
    let n = rows.len() as int;
    let m = items.len() as int;
    assert forall|i: int| 0 <= i < now.len() implies has_live_row(after, #[trigger] now[i]) by {
        if start <= i < start + m {
            assert(now[i] == items[i - start]);
            assert(after[n + i - start] == (TableRow {
                message: now[i].0,
                position: now[i].1,
                archived: false,
            }));
        } else {
            let o = if i < start {
                i
            } else {
                i - m - start + end
            };
            assert(now[i] == live[o]);
            assert(has_live_row(rows, live[o]));
            let k = choose|k: int|
                0 <= k < rows.len() && rows[k] == (TableRow {
                    message: live[o].0,
                    position: live[o].1,
                    archived: false,
                });
            assert(after[k] == rows[k]);
        }
    }
    assert forall|k: int|
        #![trigger after[k]]
        0 <= k < after.len() && !after[k].archived implies now.contains(
        (after[k].message, after[k].position),
    ) by {
        if k < n {
            assert(after[k] == kept[k]);
            assert(after[k] == rows[k]);
            let i = choose|i: int|
                0 <= i < live.len() && live[i] == (rows[k].message, rows[k].position);
            assert(archive.contains(live[i].1) == (start <= i < end));
            if i < start {
                assert(now[i] == live[i]);
            } else {
                assert(now[i - end + start + m] == live[i]);
            }
        } else {
            assert(now[start + k - n] == items[k - n]);
        }
    }
    assert forall|j: int, k: int|
        #![trigger after[j], after[k]]
        0 <= j < k < after.len() && !after[j].archived && !after[k].archived implies after[j].position
        != after[k].position by {
        if k < n {
            assert(after[j].position == rows[j].position);
            assert(after[k].position == rows[k].position);
        } else {
            assert(items[k - n].1 == after[k].position);
            if j >= n {
                assert(items[j - n].1 == after[j].position);
            } else {
                assert(after[j].position == rows[j].position);
            }
        }
    }
}

proof fn lemma_first_agree(
    rows: Seq<TableRow>,
    a: Seq<(MessageView, u64)>,
    b: Seq<(MessageView, u64)>,
    n: int,
)
    requires
        mirrors(rows, a),
        ordered(a),
        mirrors(rows, b),
        ordered(b),
        0 <= n < a.len(),
        n <= b.len(),
        forall|i: int| 0 <= i < n ==> a[i] == b[i],
    ensures
        n < b.len(),
        b[n].1 <= a[n].1,
{
    assert(has_live_row(rows, a[n]));
    let k = choose|k: int|
        0 <= k < rows.len() && rows[k] == (TableRow {
            message: a[n].0,
            position: a[n].1,
            archived: false,
        });
    assert(b.contains((rows[k].message, rows[k].position)));
    let i = choose|i: int| 0 <= i < b.len() && b[i] == a[n];
    if i < n {
        assert(a[i].1 < a[n].1);
    }
    if n < i {
        assert(b[n].1 < b[i].1);
    }
}

/// Whether `read` are the live rows of the table, in the order of their positions.
pub open spec fn reads_live_rows(read: Seq<LiveRow>, rows: Seq<TableRow>) -> bool {
    mirrors(rows, live_items(read)) && ordered(live_items(read))
}

/// Two lists in order that hold the live rows are the same.
proof fn lemma_live_rows_are_unique(
    rows: Seq<TableRow>,
    a: Seq<(MessageView, u64)>,
    b: Seq<(MessageView, u64)>,
)
    requires
        mirrors(rows, a),
        ordered(a),
        mirrors(rows, b),
        ordered(b),
    ensures
        a == b,
{
    lemma_agree_up_to(rows, a, b, a.len() as int);
    lemma_agree_up_to(rows, b, a, b.len() as int);
    assert(a =~= b);
}

/// A session that is opened again is the one that was left: under its own identifier,
/// whatever other one is offered, with its live items in their order, none of them
/// archived, and in step with the table.
pub proof fn law_reopening_gives_the_same(
    rows: Seq<TableRow>,
    left: SqliteSession,
    existing: Seq<char>,
    offered: SessionId,
    row: SessionRow,
    read: Seq<LiveRow>,
    archived: Seq<u64>,
    max_position: u64,
    opened: SqliteSession,
)
    requires
        left.in_step(rows),
        parsed_uuid(existing) == Some(left.id.bytes@),
        opens_as(Some(existing), offered, row),
        reads_live_rows(read, rows),
        forall|k: int|
            0 <= k < rows.len() && (#[trigger] rows[k]).archived ==> archived.contains(
                rows[k].position,
            ),
        row matches SessionRow::Found(id) && loaded(id, read, archived, max_position, opened),
    ensures
        opened.id.bytes@ == left.id.bytes@,
        opened.live() == left.live(),
        opened.stored() == left.stored(),
        forall|i: int|
            0 <= i < opened.live().len() ==> has_live_row(rows, #[trigger] opened.live()[i]),
        opened.in_step(rows),
{
    assert forall|k: int|
        0 <= k < rows.len() && (#[trigger] rows[k]).archived implies opened.others@.contains(
        rows[k].position,
    ) by {
        let x = choose|x: int| 0 <= x < archived.len() && archived[x] == rows[k].position;
        assert(opened.others@[x] == rows[k].position);
    }
    lemma_live_rows_are_unique(rows, left.live(), live_items(read));
    assert(opened.stored() =~= left.stored()) by {
        assert(opened.live().len() == left.live().len());
        assert forall|i: int| 0 <= i < opened.stored().len() implies opened.stored()[i]
            == left.stored()[i] by {
            assert(opened.live()[i] == left.live()[i]);
        }
    }
}

/// Where nothing is stored yet, the session is a new and empty one under the
/// identifier offered.
pub proof fn law_a_new_session_is_empty(
    offered: SessionId,
    row: SessionRow,
    max_position: u64,
    opened: SqliteSession,
)
    requires
        opens_as(None, offered, row),
        row matches SessionRow::Insert(id) && loaded(
            id,
            Seq::empty(),
            Seq::empty(),
            max_position,
            opened,
        ),
    ensures
        opened.id == offered,
        opened.stored() == Seq::<MessageView>::empty(),
        opened.in_step(Seq::empty()),
{
    assert(opened.live().len() == 0);
    assert(opened.stored() =~= Seq::empty());
}

proof fn lemma_agree_up_to(
    rows: Seq<TableRow>,
    a: Seq<(MessageView, u64)>,
    b: Seq<(MessageView, u64)>,
    n: int,
)
    requires
        mirrors(rows, a),
        ordered(a),
        mirrors(rows, b),
        ordered(b),
        0 <= n <= a.len(),
    ensures
        n <= b.len(),
        forall|i: int| 0 <= i < n ==> a[i] == b[i],
    decreases n,
{
    if n > 0 {
        lemma_agree_up_to(rows, a, b, n - 1);
        lemma_first_agree(rows, a, b, n - 1);
        lemma_first_agree(rows, b, a, n - 1);
        let x = a[n - 1];
        let y = b[n - 1];
        assert(has_live_row(rows, x));
        assert(has_live_row(rows, y));
        let j = choose|j: int|
            0 <= j < rows.len() && rows[j] == (TableRow {
                message: x.0,
                position: x.1,
                archived: false,
            });
        let k = choose|k: int|
            0 <= k < rows.len() && rows[k] == (TableRow {
                message: y.0,
                position: y.1,
                archived: false,
            });
        assert(rows[j].position == rows[k].position);
        assert(j == k) by {
            if j < k {
                assert(rows[j].position != rows[k].position);
            } else if k < j {
                assert(rows[k].position != rows[j].position);
            }
        }
    }
}

// ---------------------------------------------------------------------------
// Laws of loading and replacing
// ---------------------------------------------------------------------------

/// A session that is loaded holds the messages of the rows in order, each at the
/// position of its row, and knows the positions of all other rows.
pub proof fn law_loading_keeps_every_row(
    id: SessionId,
    rows: Seq<LiveRow>,
    archived: Seq<u64>,
    max_position: u64,
    s: SqliteSession,
)
    requires
        loaded(id, rows, archived, max_position, s),
    ensures
        picks(
            rows,
            |row: LiveRow| row.kind@ == "message"@,
            |row: LiveRow| (row.data->Ok_0.deep_view(), row.position),
            s.live(),
        ),
        archived.is_prefix_of(s.others@),
        picks(
            rows,
            |row: LiveRow| row.kind@ != "message"@,
            |row: LiveRow| row.position,
            s.others@.skip(archived.len() as int),
        ),
        s.id == id,
        s.max_position == max_position,
{
    lemma_rows_are_sorted(rows);
    assert(s.others@.skip(archived.len() as int) =~= other_positions(rows));
    assert(s.others@.subrange(0, archived.len() as int) =~= archived);
}

proof fn lemma_rows_are_sorted(rows: Seq<LiveRow>)
    ensures
        picks(
            rows,
            |row: LiveRow| row.kind@ == "message"@,
            |row: LiveRow| (row.data->Ok_0.deep_view(), row.position),
            live_items(rows),
        ),
        picks(
            rows,
            |row: LiveRow| row.kind@ != "message"@,
            |row: LiveRow| row.position,
            other_positions(rows),
        ),
    decreases rows.len(),
{
    if rows.len() > 0 {
        lemma_rows_are_sorted(rows.drop_last());
        lemma_picks_last(
            rows,
            |row: LiveRow| row.kind@ == "message"@,
            |row: LiveRow| (row.data->Ok_0.deep_view(), row.position),
            live_items(rows.drop_last()),
        );
        lemma_picks_last(
            rows,
            |row: LiveRow| row.kind@ != "message"@,
            |row: LiveRow| row.position,
            other_positions(rows.drop_last()),
        );
    }
}

/// The full transcript holds the messages of all rows in order, each with the flag of
/// its row.
pub proof fn law_the_full_transcript_has_every_message(rows: Seq<FullRow>)
    ensures
        picks(
            rows,
            |row: FullRow| row.kind@ == "message"@,
            |row: FullRow| (row.data->Ok_0.deep_view(), row.archived),
            full_transcript(rows),
        ),
    decreases rows.len(),
{
    if rows.len() > 0 {
        law_the_full_transcript_has_every_message(rows.drop_last());
        lemma_picks_last(
            rows,
            |row: FullRow| row.kind@ == "message"@,
            |row: FullRow| (row.data->Ok_0.deep_view(), row.archived),
            full_transcript(rows.drop_last()),
        );
    }
}

/// The first message that could not be decoded is what a reader of all rows is told of.
pub proof fn law_the_first_fault_is_told(rows: Seq<FullRow>, i: int, e: SessionError)
    requires
        0 <= i < rows.len(),
        rows[i].kind@ == "message"@,
        rows[i].data is Err,
        forall|k: int|
            0 <= k < i && (#[trigger] rows[k]).kind@ == "message"@ ==> rows[k].data is Ok,
    ensures
        !all_decoded(rows),
        first_fault(rows, e) <==> e->Storage_0@ == rows[i].data->Err_0@,
{
    assert forall|k: int|
        0 <= k < i && (#[trigger] rows.take(i)[k]).kind@ == "message"@ implies rows.take(
        i,
    )[k].data is Ok by {
        assert(rows[k].kind@ == "message"@);
    }
    assert(all_decoded(rows.take(i)));
    if first_fault(rows, e) {
        let j = choose|j: int|
            0 <= j < rows.len() && (#[trigger] rows[j]).kind@ == "message"@ && rows[j].data is Err
                && e->Storage_0@ == rows[j].data->Err_0@ && all_decoded(rows.take(j));
        if i < j {
            assert(rows.take(j)[i] == rows[i]);
        }
    }
}

/// A session holds its items in order, each with its own position.
pub proof fn law_items_have_their_positions(s: SqliteSession, i: int)
    requires
        s.well_formed(),
    ensures
        s.live().len() == s.cache@.len() == s.positions@.len() == s.stored().len(),
        0 <= i < s.cache@.len() ==> s.live()[i].0 == s.cache@[i]->Message_0.deep_view()
            && s.live()[i].1 == s.positions@[i] && s.stored()[i] == s.live()[i].0,
{
}

/// A replacement takes out the range alone: what stood before it and behind it stays
/// at its position, each new item stands at the position given for it, and the
/// positions of those taken out are remembered.
pub proof fn law_replacing_keeps_the_rest(
    before: SqliteSession,
    start: int,
    end: int,
    replacement: Seq<MessageView>,
    new_positions: Seq<u64>,
    after: SqliteSession,
    i: int,
)
    requires
        before.well_formed(),
        0 <= start <= end <= before.cache@.len(),
        replacement.len() == new_positions.len(),
        replaced(before, start, end, replacement, new_positions, after),
    ensures
        after.live().len() == before.live().len() - (end - start) + replacement.len(),
        0 <= i < start ==> after.live()[i] == before.live()[i],
        0 <= i < replacement.len() ==> after.live()[start + i] == (
            replacement[i],
            new_positions[i],
        ),
        end <= i < before.live().len() ==> after.live()[start + replacement.len() + i - end]
            == before.live()[i],
        after.stored().len() == after.live().len(),
        0 <= i < after.live().len() ==> after.stored()[i] == after.live()[i].0,
        start <= i < end ==> after.others@.contains(before.positions@[i]),
        before.others@.is_prefix_of(after.others@),
        after.others@.len() == before.others@.len() + (end - start),
        after.max_position >= before.max_position,
        new_positions.len() > 0 ==> after.max_position >= new_positions.last(),
        after.max_position == before.max_position || (new_positions.len() > 0
            && after.max_position == new_positions.last()),
        after.id == before.id,
{
    let out = before.positions@.subrange(start, end);
    assert(after.others@.subrange(0, before.others@.len() as int) =~= before.others@);
    if start <= i < end {
        assert(after.others@[before.others@.len() + i - start] == before.positions@[i]);
    }
    assert(after.others@.len() == before.others@.len() + out.len());
}

/// What replacing a range asks for: the rows of the range are archived, and the new
/// ones go behind the last of them, before every other row behind that.
pub proof fn law_what_replacing_asks_for(
    s: SqliteSession,
    start: int,
    end: int,
    plan: ReplacePlan,
    i: int,
)
    requires
        s.well_formed(),
        0 <= start <= end <= s.positions@.len(),
        plans(s, start, end, plan),
    ensures
        plan.archive@.len() == end - start,
        0 <= i < end - start ==> plan.archive@[i] == s.positions@[start + i],
        start < end ==> plan.lower == s.positions@[end - 1],
        start == end && 0 < start ==> plan.lower == s.positions@[start - 1],
        start == end && start == 0 ==> plan.lower == 0,
        plan.upper is Some ==> plan.lower < plan.upper->0 && (s.positions@.contains(plan.upper->0)
            || s.others@.contains(plan.upper->0)),
        0 <= i < s.positions@.len() && plan.lower < s.positions@[i] ==> plan.upper is Some
            && plan.upper->0 <= s.positions@[i],
        0 <= i < s.others@.len() && plan.lower < s.others@[i] ==> plan.upper is Some
            && plan.upper->0 <= s.others@[i],
{
    let all = s.positions@ + s.others@;
    lemma_next_position(all, plan.lower);
    if 0 <= i < s.positions@.len() {
        assert(all[i] == s.positions@[i]);
    }
    if 0 <= i < s.others@.len() {
        assert(all[s.positions@.len() + i] == s.others@[i]);
    }
    if let Some(p) = plan.upper {
        let k = choose|k: int| 0 <= k < all.len() && all[k] == p;
        if k < s.positions@.len() {
            assert(s.positions@[k] == p);
        } else {
            assert(s.others@[k - s.positions@.len()] == p);
        }
    }
}

/// A database that holds a session is opened as that one, and one that holds none
/// under the identifier given.
pub proof fn law_opening(existing: Seq<char>, id: SessionId, row: SessionRow)
    ensures
        opens_as(None, id, row) <==> row == SessionRow::Insert(id),
        opens_as(Some(existing), id, row) <==> row is Found && parsed_uuid(existing) == Some(
            row->Found_0.bytes@,
        ),
{
}

} // verus!
