//! Decisions of a memory store that keeps records, their keyword index and their
//! embedding vectors in SQLite.
//!
//! A record with an embedding has a twin row in the vector table under the same
//! row id; one without has none.

use vstd::prelude::*;
use vstd::string::StringExecFns;

use crate::ids::hyphenated;
use crate::lists::{at_most, lemma_picks_last, picks};
use crate::memory_types::{MemoryId, MemoryQuery, MemoryRecord, MemoryScope, RecordView};
use crate::message::clone_optional_text;
use crate::text::{
    blank, clone_texts, decimal, decimal_text, is_blank, lemma_decimal_injective, same_text,
};

verus! {

/// How many neighbours the vector table is asked for. Filters that the table
/// cannot apply take some of them away.
pub const VEC_CANDIDATE_OVERFETCH: usize = 200;

/// A failure of the store.
#[derive(Debug, PartialEq, Eq)]
pub enum MemoryError {
    /// The storage failed.
    Storage(String),
    /// There is no memory with this identifier.
    NotFound(String),
    /// The embedder failed.
    Embedding(String),
}

/// A store whose vectors have `dims` dimensions.
#[derive(Debug)]
pub struct SqliteVecMemory {
    /// What the attached embedder calls itself.
    pub embedder: Option<String>,
    pub dims: usize,
}

// ---------------------------------------------------------------------------
// Dimensions
// ---------------------------------------------------------------------------

/// What to do about the number of dimensions that a database records.
#[derive(Debug)]
pub enum DimsStep {
    /// It records the number asked for.
    Keep,
    /// It records none: this text is to be recorded.
    Record(String),
}

/// The words for a number of dimensions that is not the one recorded: what rusqlite
/// displays for a name of a parameter that is none, with the sentence for the name.
pub open spec fn mismatch_text(recorded: Seq<char>, asked: Seq<char>) -> Seq<char> {
    "Invalid parameter name: vector dimensionality mismatch: database has "@ + recorded
        + ", but "@ + asked + " was requested"@
}

/// Whether a database that records `recorded` holds vectors of `dims` dimensions.
pub open spec fn dims_match(recorded: Seq<char>, dims: nat) -> bool {
    recorded == decimal(dims)
}

/// Compares the number of dimensions that a database records with the one asked
/// for.
pub fn check_recorded_dims(recorded: Option<String>, vector_dimensions: usize) -> (r: Result<
    DimsStep,
    MemoryError,
>)
    ensures
        ({
            let asked = decimal(vector_dimensions as nat);
            match recorded {
                None => r matches Ok(DimsStep::Record(t)) && t@ == asked,
                Some(d) => if dims_match(d@, vector_dimensions as nat) {
                    r matches Ok(step) && step is Keep
                } else {
                    r matches Err(MemoryError::Storage(m)) && m@ == mismatch_text(d@, asked)
                },
            }
        }),
{
    let asked = decimal_text(vector_dimensions);
    match recorded {
        None => Ok(DimsStep::Record(asked)),
        Some(d) => {
            if same_text(d.as_str(), asked.as_str()) {
                Ok(DimsStep::Keep)
            } else {
                let mut message =
                    "Invalid parameter name: vector dimensionality mismatch: database has ".to_owned();
                message.append(d.as_str());
                message.append(", but ");
                message.append(asked.as_str());
                message.append(" was requested");
                Err(MemoryError::Storage(message))
            }
        },
    }
}

/// A database opens again for the number of dimensions that it was made with, and
/// for no other.
pub proof fn law_dims_are_fixed(made: nat, asked: nat)
    ensures
        dims_match(decimal(made), asked) <==> made == asked,
{
    if dims_match(decimal(made), asked) {
        lemma_decimal_injective(made, asked);
    }
}

impl SqliteVecMemory {
    /// A store that has been opened with `vector_dimensions`, without an embedder.
    pub fn open(vector_dimensions: usize) -> (r: SqliteVecMemory)
        ensures
            r.embedder is None,
            r.dims == vector_dimensions,
    {
        SqliteVecMemory { embedder: None, dims: vector_dimensions }
    }

    /// Attaches an embedder by its name.
    pub fn with_embedder(self, embedder: &str) -> (r: SqliteVecMemory)
        ensures
            r.embedder.deep_view() == Some(embedder@),
            r.dims == self.dims,
    {
        SqliteVecMemory { embedder: Some(embedder.to_owned()), dims: self.dims }
    }

    /// The vector, unless it has another number of dimensions than the vector
    /// table takes.
    pub fn check_dims<T>(&self, vector: Option<Vec<T>>) -> (r: Option<Vec<T>>)
        ensures
            r == (match vector {
                Some(v) if v@.len() == self.dims => Some(v),
                _ => None,
            }),
    {
        match vector {
            Some(v) => {
                if v.len() == self.dims {
                    Some(v)
                } else {
                    None
                }
            },
            None => None,
        }
    }

    /// The vector for a text: the last that the embedder returned, if it has the
    /// right number of dimensions. `vectors` is `None` where there is no embedder
    /// or it failed.
    pub fn try_embed<T>(&self, vectors: Option<Vec<Vec<T>>>) -> (r: Option<Vec<T>>)
        ensures
            r == (match vectors {
                Some(vs) if vs@.len() > 0 && vs@.last()@.len() == self.dims => Some(vs@.last()),
                _ => None,
            }),
    {
        match vectors {
            Some(vs) => {
                let mut list = vs;
                let last = list.pop();
                self.check_dims(last)
            },
            None => None,
        }
    }

    /// The name that is recorded beside an embedding.
    fn model_for<T>(&self, embedding: &Option<Vec<T>>) -> (r: Option<String>)
        ensures
            r.deep_view() == (if *embedding is Some {
                self.embedder.deep_view()
            } else {
                None
            }),
    {
        if embedding.is_some() {
            clone_optional_text(&self.embedder)
        } else {
            None
        }
    }
}

// ---------------------------------------------------------------------------
// Writing
// ---------------------------------------------------------------------------

/// What happens to the row of a record in the vector table.
#[derive(Debug)]
pub enum VectorChange<T> {
    /// Nothing.
    Keep,
    /// There is to be no row.
    Remove,
    /// The row is to hold this vector.
    Put(Vec<T>),
}

/// The changes that a write asks for, to be made in one transaction.
#[derive(Debug)]
pub struct WritePlan<T> {
    /// The record as it is to be stored.
    pub record: MemoryRecord,
    /// The embedding columns of the record, where they change: the vector and the
    /// name of the embedder.
    pub embedding_model: Option<Option<String>>,
    pub vector: VectorChange<T>,
}

/// `found` with new content and new tags, where they are given.
pub open spec fn updated_record(
    found: RecordView,
    content: Option<Seq<char>>,
    tags: Option<Seq<Seq<char>>>,
    now: i64,
) -> RecordView {
    RecordView {
        content: match content {
            Some(c) => c,
            None => found.content,
        },
        tags: match tags {
            Some(t) => t,
            None => found.tags,
        },
        updated_at: now,
        ..found
    }
}

/// The text to embed for an update: the new content of a memory that exists.
pub fn text_to_embed(found: &Option<MemoryRecord>, content: &Option<String>) -> (r: Option<String>)
    ensures
        r.deep_view() == (if *found is Some {
            content.deep_view()
        } else {
            None
        }),
{
    if found.is_some() {
        clone_optional_text(content)
    } else {
        None
    }
}

impl SqliteVecMemory {
    /// The changes that saving a memory asks for. `embedding` is its vector, if
    /// it has one of the right size.
    pub fn plan_save<T>(
        &self,
        id: MemoryId,
        scope: MemoryScope,
        content: &str,
        tags: &Vec<String>,
        source_session: &Option<String>,
        now: i64,
        embedding: Option<Vec<T>>,
    ) -> (r: WritePlan<T>)
        ensures
            r.record.deep_view() == (RecordView {
                id: id.bytes@,
                scope: scope.deep_view(),
                content: content@,
                tags: tags.deep_view(),
                source_session: source_session.deep_view(),
                created_at: now,
                updated_at: now,
            }),
            r.embedding_model.deep_view() == Some(
                if embedding is Some {
                    self.embedder.deep_view()
                } else {
                    None
                },
            ),
            r.vector == (match embedding {
                Some(v) => VectorChange::Put(v),
                None => VectorChange::Keep,
            }),
    {
        let embedding_model = Some(self.model_for(&embedding));
        let record = MemoryRecord {
            id,
            scope,
            content: content.to_owned(),
            tags: clone_texts(tags),
            source_session: clone_optional_text(source_session),
            created_at: now,
            updated_at: now,
        };
        let vector = match embedding {
            Some(v) => VectorChange::Put(v),
            None => VectorChange::Keep,
        };
        WritePlan { record, embedding_model, vector }
    }

    /// The changes that updating a memory asks for. `found` is the record as it
    /// is, and `embedding` the vector of the new content, if there is new content
    /// and it has one. Without new content the embedding stays as it is.
    pub fn plan_update<T>(
        &self,
        id: &MemoryId,
        found: Option<MemoryRecord>,
        content: &Option<String>,
        tags: &Option<Vec<String>>,
        now: i64,
        embedding: Option<Vec<T>>,
    ) -> (r: Result<WritePlan<T>, MemoryError>)
        ensures
            r is Ok <==> found is Some,
            r matches Err(e) ==> (e matches MemoryError::NotFound(t) && t@
                == hyphenated(id.bytes@)),
            r matches Ok(plan) ==> {
                &&& plan.record.deep_view() == updated_record(
                    found->0.deep_view(),
                    content.deep_view(),
                    tags.deep_view(),
                    now,
                )
                &&& plan.embedding_model.deep_view() == (if *content is Some {
                    Some(
                        if embedding is Some {
                            self.embedder.deep_view()
                        } else {
                            None
                        },
                    )
                } else {
                    None
                })
                &&& plan.vector == (match (*content, embedding) {
                    (Some(_), Some(v)) => VectorChange::Put(v),
                    (Some(_), None) => VectorChange::Remove,
                    (None, _) => VectorChange::Keep,
                })
            },
    {
        let mut record = match found {
            Some(record) => record,
            None => {
                return Err(MemoryError::NotFound(id.to_string()));
            },
        };
        let ghost before = record.deep_view();
        if let Some(text) = content {
            record.content = text.clone();
        }
        if let Some(list) = tags {
            record.tags = clone_texts(list);
        }
        record.updated_at = now;
        let (embedding_model, vector) = if content.is_some() {
            let model = self.model_for(&embedding);
            let vector = match embedding {
                Some(v) => VectorChange::Put(v),
                None => VectorChange::Remove,
            };
            (Some(model), vector)
        } else {
            (None, VectorChange::Keep)
        };
        Ok(WritePlan { record, embedding_model, vector })
    }

    /// The row id to write under, or that there is no such memory.
    pub fn get_rowid(rowid: Option<i64>, id: &MemoryId) -> (r: Result<i64, MemoryError>)
        ensures
            match rowid {
                Some(n) => r == Ok::<i64, MemoryError>(n),
                None => r matches Err(MemoryError::NotFound(t)) && t@ == hyphenated(
                    id.bytes@,
                ),
            },
    {
        match rowid {
            Some(n) => Ok(n),
            None => Err(MemoryError::NotFound(id.to_string())),
        }
    }
}

// ---------------------------------------------------------------------------
// Searching
// ---------------------------------------------------------------------------

/// What to search for: the text of the query, unless it is blank. Without a text
/// the memories are listed.
pub fn search_text(query: &MemoryQuery) -> (r: Option<String>)
    ensures
        r.deep_view() == (match query.text {
            Some(t) if !blank(t@) => Some(t@),
            _ => None,
        }),
{
    match &query.text {
        Some(t) => {
            if is_blank(t.as_str()) {
                None
            } else {
                Some(t.clone())
            }
        },
        None => None,
    }
}

/// A neighbour that the vector table found: its record, the embedder that made its
/// vector, and whether the filters of the query take it.
#[derive(Debug)]
pub struct Neighbour {
    pub record: MemoryRecord,
    pub model: Option<String>,
    pub accepted: bool,
}

/// Whether a neighbour counts.
pub open spec fn counts(n: Neighbour, embedder_id: Seq<char>) -> bool {
    n.accepted && (n.model matches Some(m) && m@ == embedder_id)
}

/// The records of the neighbours that count, in order.
pub open spec fn counting(ns: Seq<Neighbour>, embedder_id: Seq<char>) -> Seq<RecordView>
    decreases ns.len(),
{
    if ns.len() == 0 {
        Seq::empty()
    } else {
        let before = counting(ns.drop_last(), embedder_id);
        if counts(ns.last(), embedder_id) {
            before.push(ns.last().record.deep_view())
        } else {
            before
        }
    }
}

proof fn lemma_counting_grows(ns: Seq<Neighbour>, embedder_id: Seq<char>, n: int)
    requires
        0 <= n <= ns.len(),
    ensures
        counting(ns.take(n), embedder_id).len() <= counting(ns, embedder_id).len(),
        counting(ns, embedder_id).take(counting(ns.take(n), embedder_id).len() as int) == counting(
            ns.take(n),
            embedder_id,
        ),
    decreases ns.len(),
{
    if n == ns.len() {
        assert(ns.take(n) =~= ns);
        assert(counting(ns, embedder_id).take(counting(ns, embedder_id).len() as int) =~= counting(
            ns,
            embedder_id,
        ));
    } else {
        lemma_counting_grows(ns.drop_last(), embedder_id, n);
        assert(ns.drop_last().take(n) =~= ns.take(n));
        let k = counting(ns.take(n), embedder_id).len() as int;
        assert(counting(ns, embedder_id).take(k) =~= counting(ns.drop_last(), embedder_id).take(
            k,
        ));
    }
}

/// The neighbours that count, closest first, up to `limit` of them.
pub fn vector_candidates(neighbours: Vec<Neighbour>, embedder_id: &str, limit: usize) -> (r: Vec<
    MemoryRecord,
>)
    ensures
        r.deep_view() == at_most(counting(neighbours@, embedder_id@), limit as int),
{
    let ghost all = neighbours@;
    let ghost id = embedder_id@;
    let mut candidates: Vec<MemoryRecord> = Vec::new();
    assert(candidates.deep_view() =~= counting(all.take(0), id));
    if limit == 0 {
        assert(candidates.deep_view() =~= counting(all, id).take(0));
        return candidates;
    }
    for n in it: neighbours
        invariant
            it.seq() == all,
            id == embedder_id@,
            candidates.deep_view() == counting(all.take(it.index()), id),
            candidates@.len() < limit,
    {
        let ghost k = it.index();
        assert(all[k] == n);
        assert(all.take(k + 1).drop_last() =~= all.take(k));
        assert(all.take(k + 1).last() == n);
        let ours = match &n.model {
            Some(m) => same_text(m.as_str(), embedder_id),
            None => false,
        };
        if ours && n.accepted {
            let ghost before = candidates.deep_view();
            let record = n.record;
            candidates.push(record);
            assert(candidates.deep_view() =~= before.push(record.deep_view()));
            if candidates.len() >= limit {
                proof {
                    lemma_counting_grows(all, id, k + 1);
                }
                return candidates;
            }
        }
    }
    assert(all.take(all.len() as int) =~= all);
    candidates
}

/// Whether a record with the identifier `id` stands in `records`.
pub open spec fn has_id(records: Seq<RecordView>, id: Seq<u8>) -> bool {
    exists|i: int| 0 <= i < records.len() && (#[trigger] records[i]).id == id
}

/// `records` with every later record left out that has the identifier of an
/// earlier one.
pub open spec fn first_of_each(records: Seq<RecordView>) -> Seq<RecordView>
    decreases records.len(),
{
    if records.len() == 0 {
        Seq::empty()
    } else {
        let before = first_of_each(records.drop_last());
        if has_id(before, records.last().id) {
            before
        } else {
            before.push(records.last())
        }
    }
}

/// The index of the record with the identifier `id`.
fn find_id(records: &Vec<MemoryRecord>, id: &MemoryId) -> (r: Option<usize>)
    ensures
        match r {
            Some(i) => i < records@.len() && records.deep_view()[i as int].id == id.bytes@
                && forall|k: int|
                0 <= k < i ==> (#[trigger] records.deep_view()[k]).id != id.bytes@,
            None => !has_id(records.deep_view(), id.bytes@),
        },
{
    for i in 0..records.len()
        invariant
            forall|k: int| 0 <= k < i ==> (#[trigger] records.deep_view()[k]).id != id.bytes@,
    {
        assert(records.deep_view()[i as int] == records@[i as int].deep_view());
        if records[i].id.same(id) {
            return Some(i);
        }
    }
    None
}

/// The records of both rankings, each once.
pub fn merge_records(keyword: &Vec<MemoryRecord>, vector: &Vec<MemoryRecord>) -> (r: Vec<
    MemoryRecord,
>)
    ensures
        r.deep_view() == first_of_each(keyword.deep_view() + vector.deep_view()),
{
    let ghost k = keyword.deep_view();
    let ghost v = vector.deep_view();
    let ghost all = k + v;
    let mut out: Vec<MemoryRecord> = Vec::new();
    assert(out.deep_view() =~= first_of_each(all.take(0)));
    for i in 0..keyword.len()
        invariant
            k == keyword.deep_view(),
            all == k + v,
            out.deep_view() == first_of_each(all.take(i as int)),
    {
        assert(all.take(i + 1).drop_last() =~= all.take(i as int));
        assert(all.take(i + 1).last() == keyword@[i as int].deep_view());
        add_once(&mut out, &keyword[i]);
    }
    for i in 0..vector.len()
        invariant
            v == vector.deep_view(),
            all == k + v,
            out.deep_view() == first_of_each(all.take(k.len() + i)),
    {
        assert(all.take(k.len() + i + 1).drop_last() =~= all.take(k.len() + i));
        assert(all.take(k.len() + i + 1).last() == vector@[i as int].deep_view());
        add_once(&mut out, &vector[i]);
    }
    assert(all.take((k.len() + v.len()) as int) =~= all);
    out
}

/// Adds a copy of `record` unless one with its identifier is there.
fn add_once(out: &mut Vec<MemoryRecord>, record: &MemoryRecord)
    ensures
        final(out).deep_view() == (if has_id(old(out).deep_view(), record.id.bytes@) {
            old(out).deep_view()
        } else {
            old(out).deep_view().push(record.deep_view())
        }),
{
    match find_id(out, &record.id) {
        Some(i) => {
            assert(has_id(out.deep_view(), record.id.bytes@));
        },
        None => {
            let copy = record.clone();
            out.push(copy);
            assert(out.deep_view() =~= old(out).deep_view().push(record.deep_view()));
        },
    }
}

/// A memory that was found, with its score.
#[derive(Debug)]
pub struct Hit<S> {
    pub record: MemoryRecord,
    pub score: S,
}

/// The record with the identifier `id`, the first where there are several.
pub open spec fn record_of(records: Seq<RecordView>, id: Seq<u8>) -> Option<RecordView>
    decreases records.len(),
{
    if records.len() == 0 {
        None
    } else if records.first().id == id {
        Some(records.first())
    } else {
        record_of(records.drop_first(), id)
    }
}

proof fn lemma_record_of(records: Seq<RecordView>, id: Seq<u8>, i: int)
    requires
        0 <= i <= records.len(),
        i < records.len() ==> records[i].id == id,
        forall|k: int| 0 <= k < i ==> (#[trigger] records[k]).id != id,
    ensures
        record_of(records, id) == (if i < records.len() {
            Some(records[i])
        } else {
            None
        }),
    decreases records.len(),
{
    if i > 0 {
        assert(records[0].id != id);
        assert forall|k: int| 0 <= k < i - 1 implies (#[trigger] records.drop_first()[k]).id
            != id by {
            assert(records[k + 1].id != id);
        }
        lemma_record_of(records.drop_first(), id, i - 1);
    }
}

/// The ranked identifiers with their records and scores. One without a record is
/// left out.
pub open spec fn ranked<S>(fused: Seq<(MemoryId, S)>, records: Seq<RecordView>) -> Seq<
    (RecordView, S),
>
    decreases fused.len(),
{
    if fused.len() == 0 {
        Seq::empty()
    } else {
        let before = ranked(fused.drop_last(), records);
        match record_of(records, fused.last().0.bytes@) {
            Some(record) => before.push((record, fused.last().1)),
            None => before,
        }
    }
}

/// The hits as pairs.
pub open spec fn hit_views<S>(hits: Seq<Hit<S>>) -> Seq<(RecordView, S)> {
    hits.map_values(|h: Hit<S>| (h.record.deep_view(), h.score))
}

/// The hits for a ranking: the first `limit` identifiers, with their records.
pub fn select_hits<S: Copy>(
    fused: &Vec<(MemoryId, S)>,
    records: &Vec<MemoryRecord>,
    limit: usize,
) -> (r: Vec<Hit<S>>)
    ensures
        hit_views(r@) == ranked(at_most(fused@, limit as int), records.deep_view()),
{
    let ghost top = at_most(fused@, limit as int);
    let ghost all = records.deep_view();
    let n = if fused.len() <= limit {
        fused.len()
    } else {
        limit
    };
    let mut hits: Vec<Hit<S>> = Vec::new();
    assert(hit_views(hits@) =~= ranked(top.take(0), all));
    for i in 0..n
        invariant
            n <= fused@.len(),
            top.len() == n,
            forall|k: int| 0 <= k < n ==> top[k] == fused@[k],
            all == records.deep_view(),
            hit_views(hits@) == ranked(top.take(i as int), all),
    {
        assert(top.take(i + 1).drop_last() =~= top.take(i as int));
        assert(top.take(i + 1).last() == fused@[i as int]);
        let id = fused[i].0;
        let score = fused[i].1;
        match find_id(records, &id) {
            Some(k) => {
                proof {
                    lemma_record_of(all, id.bytes@, k as int);
                }
                let ghost before = hits@;
                let hit = Hit { record: records[k].clone(), score };
                hits.push(hit);
                assert(hit_views(hits@) =~= hit_views(before).push(
                    (hit.record.deep_view(), score),
                ));
            },
            None => {
                proof {
                    assert forall|k: int| 0 <= k < all.len() implies (#[trigger] all[k]).id
                        != id.bytes@ by {
                        assert(!has_id(all, id.bytes@));
                    }
                    lemma_record_of(all, id.bytes@, all.len() as int);
                }
            },
        }
    }
    assert(top.take(n as int) =~= top);
    hits
}

/// The first `limit` of the listed records.
pub fn list_hits(records: Vec<MemoryRecord>, limit: usize) -> (r: Vec<MemoryRecord>)
    ensures
        r@ == at_most(records@, limit as int),
{
    let mut list = records;
    if list.len() > limit {
        list.truncate(limit);
    }
    assert(list@ =~= at_most(records@, limit as int));
    list
}

// ---------------------------------------------------------------------------
// Laws
// ---------------------------------------------------------------------------

/// The two tables of the store: for each row id its record and whether that has an
/// embedding, and the row ids of the vector table.
#[verifier::ext_equal]
pub struct Tables {
    pub records: Map<i64, RecordView>,
    pub embedded: Map<i64, bool>,
    pub vectors: Set<i64>,
}

/// Whether exactly the records with an embedding have a row in the vector table.
pub open spec fn twinned(t: Tables) -> bool {
    &&& t.records.dom() == t.embedded.dom()
    &&& forall|n: i64| #[trigger]
        t.vectors.contains(n) <==> t.embedded.contains_key(n) && t.embedded[n]
}

/// Whether the record under `n` has the identifier `id`.
pub open spec fn stands_at(t: Tables, id: Seq<u8>, n: i64) -> bool {
    t.records.contains_key(n) && t.records[n].id == id
}

/// Whether no two records share an identifier.
pub open spec fn ids_differ(t: Tables) -> bool {
    forall|id: Seq<u8>, m: i64, n: i64|
        #![trigger stands_at(t, id, m), stands_at(t, id, n)]
        stands_at(t, id, m) && stands_at(t, id, n) ==> m == n
}

/// The record with the identifier `id`.
pub open spec fn got(t: Tables, id: Seq<u8>) -> Option<RecordView> {
    if exists|n: i64| stands_at(t, id, n) {
        Some(t.records[choose|n: i64| stands_at(t, id, n)])
    } else {
        None
    }
}

/// The tables after a record has been written under `rowid` with the change that
/// its plan asks for. A fresh row without a vector has no embedding.
pub open spec fn written<T>(
    t: Tables,
    rowid: i64,
    fresh: bool,
    record: RecordView,
    change: VectorChange<T>,
) -> Tables {
    let records = t.records.insert(rowid, record);
    match change {
        VectorChange::Put(_) => Tables {
            records,
            embedded: t.embedded.insert(rowid, true),
            vectors: t.vectors.insert(rowid),
        },
        VectorChange::Remove => Tables {
            records,
            embedded: t.embedded.insert(rowid, false),
            vectors: t.vectors.remove(rowid),
        },
        VectorChange::Keep => Tables {
            records,
            embedded: if fresh {
                t.embedded.insert(rowid, false)
            } else {
                t.embedded
            },
            vectors: t.vectors,
        },
    }
}

/// The tables after the record under `rowid` has been deleted from both.
pub open spec fn deleted(t: Tables, rowid: i64) -> Tables {
    Tables {
        records: t.records.remove(rowid),
        embedded: t.embedded.remove(rowid),
        vectors: t.vectors.remove(rowid),
    }
}

/// Saving, updating and deleting keep the twins: no record with an embedding is
/// invisible to a semantic search, and no vector outlives its record to attach
/// itself to whatever takes over the row id.
pub proof fn law_twins_are_kept<T>(
    t: Tables,
    rowid: i64,
    fresh: bool,
    record: RecordView,
    change: VectorChange<T>,
)
    requires
        twinned(t),
        fresh <==> !t.records.contains_key(rowid),
    ensures
        twinned(written(t, rowid, fresh, record, change)),
        twinned(deleted(t, rowid)),
        !deleted(t, rowid).vectors.contains(rowid),
{
    assert(t.records.contains_key(rowid) == t.embedded.contains_key(rowid)) by {
        assert(t.records.dom().contains(rowid) == t.embedded.dom().contains(rowid));
    }
    let w = written(t, rowid, fresh, record, change);
    assert forall|n: i64| #[trigger] w.vectors.contains(n) <==> w.embedded.contains_key(n)
        && w.embedded[n] by {
        assert(t.vectors.contains(n) <==> t.embedded.contains_key(n) && t.embedded[n]);
    }
    assert(w.records.dom() =~= w.embedded.dom()) by {
        assert(t.records.dom() =~= t.embedded.dom());
    }
    let d = deleted(t, rowid);
    assert forall|n: i64| #[trigger] d.vectors.contains(n) <==> d.embedded.contains_key(n)
        && d.embedded[n] by {
        assert(t.vectors.contains(n) <==> t.embedded.contains_key(n) && t.embedded[n]);
    }
    assert(d.records.dom() =~= d.embedded.dom());
}

proof fn lemma_got(t: Tables, id: Seq<u8>, n: i64)
    requires
        ids_differ(t),
        stands_at(t, id, n),
    ensures
        got(t, id) == Some(t.records[n]),
{
    let m = choose|m: i64| stands_at(t, id, m);
    assert(stands_at(t, id, m));
}

/// Two tables that hold the same records under `id` give back the same.
proof fn lemma_got_same(a: Tables, b: Tables, id: Seq<u8>)
    requires
        ids_differ(a),
        ids_differ(b),
        forall|n: i64| #[trigger] stands_at(a, id, n) == stands_at(b, id, n),
        forall|n: i64| #[trigger] stands_at(a, id, n) ==> a.records[n] == b.records[n],
    ensures
        got(a, id) == got(b, id),
{
    if exists|n: i64| stands_at(a, id, n) {
        let n = choose|n: i64| stands_at(a, id, n);
        assert(stands_at(b, id, n));
        lemma_got(a, id, n);
        lemma_got(b, id, n);
    } else {
        assert forall|n: i64| !stands_at(b, id, n) by {
            assert(!stands_at(a, id, n));
        }
    }
}

/// The tables after an update of the memory `id` with the change that its plan asks
/// for. Where there is no such memory, nothing is written.
pub open spec fn updated<T>(
    t: Tables,
    id: Seq<u8>,
    content: Option<Seq<char>>,
    tags: Option<Seq<Seq<char>>>,
    now: i64,
    change: VectorChange<T>,
) -> Tables {
    match got(t, id) {
        Some(found) => written(
            t,
            choose|n: i64| stands_at(t, id, n),
            false,
            updated_record(found, content, tags, now),
            change,
        ),
        None => t,
    }
}

/// An update replaces one record and no other: the record that is got under its
/// identifier afterwards has the new content and tags, where they are given, and all
/// else of the one before; what is got under any other identifier is unchanged, and
/// exactly the records with an embedding still have a vector. Where no record has the
/// identifier, nothing changes.
pub proof fn law_update_replaces_one_record<T>(
    t: Tables,
    id: Seq<u8>,
    content: Option<Seq<char>>,
    tags: Option<Seq<Seq<char>>>,
    now: i64,
    change: VectorChange<T>,
    other: Seq<u8>,
)
    requires
        ids_differ(t),
        twinned(t),
    ensures
        ({
            let after = updated(t, id, content, tags, now, change);
            &&& ids_differ(after)
            &&& twinned(after)
            &&& after.records.dom() == t.records.dom()
            &&& other != id ==> got(after, other) == got(t, other)
            &&& match got(t, id) {
                None => after == t && got(after, id) is None,
                Some(found) => got(after, id) == Some(
                    RecordView {
                        id: found.id,
                        scope: found.scope,
                        source_session: found.source_session,
                        created_at: found.created_at,
                        content: match content {
                            Some(c) => c,
                            None => found.content,
                        },
                        tags: match tags {
                            Some(g) => g,
                            None => found.tags,
                        },
                        updated_at: now,
                    },
                ),
            }
        }),
{
    if exists|n: i64| stands_at(t, id, n) {
        let rowid = choose|n: i64| stands_at(t, id, n);
        let record = updated_record(t.records[rowid], content, tags, now);
        let after = written(t, rowid, false, record, change);
        lemma_rewritten(t, after, rowid, record);
        assert(stands_at(after, id, rowid));
        lemma_got(after, id, rowid);
        law_twins_are_kept(t, rowid, false, record, change);
        assert(after.records.dom() =~= t.records.dom());
        if other != id {
            lemma_got_same(t, after, other);
        }
    }
}

proof fn lemma_rewritten(t: Tables, after: Tables, rowid: i64, record: RecordView)
    requires
        ids_differ(t),
        t.records.contains_key(rowid),
        record.id == t.records[rowid].id,
        after.records == t.records.insert(rowid, record),
    ensures
        ids_differ(after),
        forall|id: Seq<u8>, n: i64| #[trigger]
            stands_at(after, id, n) == stands_at(t, id, n),
{
    assert forall|id: Seq<u8>, m: i64, n: i64|
        #![trigger stands_at(after, id, m), stands_at(after, id, n)]
        stands_at(after, id, m) && stands_at(after, id, n) implies m == n by {
        assert(stands_at(t, id, m));
        assert(stands_at(t, id, n));
    }
}

/// A save adds one record and changes no other: under its new identifier the record
/// saved is got, under any other what was got before.
pub proof fn law_save_adds_one_record<T>(
    t: Tables,
    rowid: i64,
    record: RecordView,
    change: VectorChange<T>,
    other: Seq<u8>,
)
    requires
        ids_differ(t),
        !t.records.contains_key(rowid),
        got(t, record.id) is None,
    ensures
        ({
            let after = written(t, rowid, true, record, change);
            &&& ids_differ(after)
            &&& got(after, record.id) == Some(record)
            &&& other != record.id ==> got(after, other) == got(t, other)
        }),
{
    let after = written(t, rowid, true, record, change);
    assert forall|id: Seq<u8>, m: i64, n: i64|
        #![trigger stands_at(after, id, m), stands_at(after, id, n)]
        stands_at(after, id, m) && stands_at(after, id, n) implies m == n by {
        assert(!stands_at(t, record.id, m));
        assert(!stands_at(t, record.id, n));
        if m != rowid {
            assert(stands_at(t, id, m));
        }
        if n != rowid {
            assert(stands_at(t, id, n));
        }
    }
    assert(stands_at(after, record.id, rowid));
    lemma_got(after, record.id, rowid);
    if other != record.id {
        assert forall|n: i64| #[trigger] stands_at(t, other, n) == stands_at(after, other, n) by {}
        lemma_got_same(t, after, other);
    }
}

/// A deletion takes one record away and changes no other.
pub proof fn law_delete_removes_one_record(t: Tables, rowid: i64, id: Seq<u8>, other: Seq<u8>)
    requires
        ids_differ(t),
        stands_at(t, id, rowid),
    ensures
        ids_differ(deleted(t, rowid)),
        got(deleted(t, rowid), id) is None,
        other != id ==> got(deleted(t, rowid), other) == got(t, other),
{
    let after = deleted(t, rowid);
    assert forall|i: Seq<u8>, m: i64, n: i64|
        #![trigger stands_at(after, i, m), stands_at(after, i, n)]
        stands_at(after, i, m) && stands_at(after, i, n) implies m == n by {
        assert(stands_at(t, i, m));
        assert(stands_at(t, i, n));
    }
    assert forall|n: i64| !stands_at(after, id, n) by {
        if stands_at(after, id, n) {
            assert(stands_at(t, id, n));
        }
    }
    if other != id {
        assert forall|n: i64| #[trigger] stands_at(t, other, n) == stands_at(after, other, n) by {}
        lemma_got_same(t, after, other);
    }
}

/// Merging the two rankings loses no record and repeats none.
pub proof fn law_merge_keeps_each_once(records: Seq<RecordView>)
    ensures
        forall|i: int|
            0 <= i < records.len() ==> has_id(first_of_each(records), (#[trigger] records[i]).id),
        forall|i: int, j: int|
            #![trigger first_of_each(records)[i], first_of_each(records)[j]]
            0 <= i < j < first_of_each(records).len() ==> first_of_each(records)[i].id
                != first_of_each(records)[j].id,
    decreases records.len(),
{
    if records.len() > 0 {
        let before = first_of_each(records.drop_last());
        let after = first_of_each(records);
        law_merge_keeps_each_once(records.drop_last());
        assert forall|i: int| 0 <= i < records.len() implies has_id(
            after,
            (#[trigger] records[i]).id,
        ) by {
            if i < records.len() - 1 {
                assert(records.drop_last()[i] == records[i]);
                let k = choose|k: int|
                    0 <= k < before.len() && (#[trigger] before[k]).id == records[i].id;
                assert(after[k] == before[k]);
            } else if !has_id(before, records.last().id) {
                assert(after[before.len() as int] == records.last());
            }
        }
        assert forall|i: int, j: int|
            #![trigger after[i], after[j]]
            0 <= i < j < after.len() implies after[i].id != after[j].id by {
            assert(after[i] == before[i]);
            if j < before.len() {
                assert(after[j] == before[j]);
            } else {
                assert(!has_id(before, records.last().id));
            }
        }
    }
}

proof fn lemma_first_of_each_are(records: Seq<RecordView>, id: Seq<u8>)
    ensures
        has_id(first_of_each(records), id) <==> has_id(records, id),
    decreases records.len(),
{
    law_merge_keeps_each_once(records);
    if records.len() > 0 {
        let less = records.drop_last();
        let before = first_of_each(less);
        let after = first_of_each(records);
        lemma_first_of_each_are(less, id);
        if has_id(after, id) {
            let k = choose|k: int| 0 <= k < after.len() && (#[trigger] after[k]).id == id;
            if k < before.len() {
                assert(before[k].id == id);
                let j = choose|j: int| 0 <= j < less.len() && (#[trigger] less[j]).id == id;
                assert(records[j].id == id);
            } else {
                assert(records[records.len() - 1].id == id);
            }
        }
    }
}

/// Merging goes through the records in order: one whose identifier has not come before
/// is added behind the others, and any other is dropped.
pub proof fn law_the_first_of_each_stays(records: Seq<RecordView>, r: RecordView)
    ensures
        first_of_each(Seq::empty()) == Seq::<RecordView>::empty(),
        (forall|i: int| 0 <= i < records.len() ==> (#[trigger] records[i]).id != r.id)
            ==> first_of_each(records.push(r)) == first_of_each(records).push(r),
        (exists|i: int| 0 <= i < records.len() && (#[trigger] records[i]).id == r.id)
            ==> first_of_each(records.push(r)) == first_of_each(records),
{
    assert(records.push(r).drop_last() =~= records);
    lemma_first_of_each_are(records, r.id);
}

/// The record that an identifier stands for is the first with it.
pub proof fn law_the_first_record_counts(records: Seq<RecordView>, id: Seq<u8>, i: int)
    requires
        0 <= i <= records.len(),
        i < records.len() ==> records[i].id == id,
        forall|k: int| 0 <= k < i ==> (#[trigger] records[k]).id != id,
    ensures
        record_of(records, id) == (if i < records.len() {
            Some(records[i])
        } else {
            None
        }),
{
    lemma_record_of(records, id, i);
}

proof fn lemma_record_is_there(records: Seq<RecordView>, id: Seq<u8>)
    ensures
        record_of(records, id) is Some <==> has_id(records, id),
    decreases records.len(),
{
    if records.len() > 0 {
        let rest = records.drop_first();
        lemma_record_is_there(rest, id);
        if records.first().id == id {
            assert(records[0].id == id);
        }
        if has_id(rest, id) {
            let k = choose|k: int| 0 <= k < rest.len() && (#[trigger] rest[k]).id == id;
            assert(records[k + 1].id == id);
        }
        if has_id(records, id) && records.first().id != id {
            let k = choose|k: int| 0 <= k < records.len() && (#[trigger] records[k]).id == id;
            assert(rest[k - 1].id == id);
        }
    }
}

/// The hits for a ranking are the ranked identifiers that have a record, in the order
/// of the ranking, each with its own record and its own score.
pub proof fn law_hits_follow_the_ranking<S>(fused: Seq<(MemoryId, S)>, records: Seq<RecordView>)
    ensures
        picks(
            fused,
            |f: (MemoryId, S)| has_id(records, f.0.bytes@),
            |f: (MemoryId, S)| (record_of(records, f.0.bytes@)->0, f.1),
            ranked(fused, records),
        ),
    decreases fused.len(),
{
    if fused.len() > 0 {
        law_hits_follow_the_ranking(fused.drop_last(), records);
        lemma_record_is_there(records, fused.last().0.bytes@);
        lemma_picks_last(
            fused,
            |f: (MemoryId, S)| has_id(records, f.0.bytes@),
            |f: (MemoryId, S)| (record_of(records, f.0.bytes@)->0, f.1),
            ranked(fused.drop_last(), records),
        );
    }
}

/// A list has an identifier where one of its records has it.
pub proof fn law_identifiers(records: Seq<RecordView>, i: int, id: Seq<u8>)
    ensures
        0 <= i < records.len() ==> has_id(records, records[i].id),
        (forall|k: int| 0 <= k < records.len() ==> (#[trigger] records[k]).id != id) ==> !has_id(
            records,
            id,
        ),
{
}

/// The neighbours that count are those that the filters take and whose vectors the
/// same embedder made, in order.
pub proof fn law_only_neighbours_of_the_embedder_count(ns: Seq<Neighbour>, embedder_id: Seq<char>)
    ensures
        picks(
            ns,
            |n: Neighbour| n.accepted && n.model is Some && n.model->0@ == embedder_id,
            |n: Neighbour| n.record.deep_view(),
            counting(ns, embedder_id),
        ),
    decreases ns.len(),
{
    if ns.len() > 0 {
        law_only_neighbours_of_the_embedder_count(ns.drop_last(), embedder_id);
        lemma_picks_last(
            ns,
            |n: Neighbour| n.accepted && n.model is Some && n.model->0@ == embedder_id,
            |n: Neighbour| n.record.deep_view(),
            counting(ns.drop_last(), embedder_id),
        );
    }
}

/// An update changes the content and the tags, where they are given, and the time of
/// the last change, and nothing else.
pub proof fn law_updates_change_what_is_given(
    found: RecordView,
    content: Option<Seq<char>>,
    tags: Option<Seq<Seq<char>>>,
    now: i64,
)
    ensures
        ({
            let r = updated_record(found, content, tags, now);
            &&& content is Some ==> r.content == content->0
            &&& content is None ==> r.content == found.content
            &&& tags is Some ==> r.tags == tags->0
            &&& tags is None ==> r.tags == found.tags
            &&& r.updated_at == now
            &&& r.created_at == found.created_at
            &&& r.id == found.id
            &&& r.scope == found.scope
            &&& r.source_session == found.source_session
        }),
{
}

/// A hit as a pair is its record and its score.
pub proof fn law_hits_are_pairs<S>(hits: Seq<Hit<S>>, i: int)
    requires
        0 <= i < hits.len(),
    ensures
        hit_views(hits).len() == hits.len(),
        hit_views(hits)[i] == (hits[i].record.deep_view(), hits[i].score),
{
}

/// The words for another number of dimensions name both numbers.
pub proof fn law_a_mismatch_names_both(recorded: Seq<char>, asked: Seq<char>)
    ensures
        ({
            let said = mismatch_text(recorded, asked);
            let front =
                "Invalid parameter name: vector dimensionality mismatch: database has "@;
            let between = ", but "@;
            let back = " was requested"@;
            let n = front.len() as int;
            let m = n + recorded.len() + between.len();
            &&& said.subrange(0, n) == front
            &&& said.subrange(n, n + recorded.len()) == recorded
            &&& said.subrange(n + recorded.len(), m) == between
            &&& said.subrange(m, m + asked.len()) == asked
            &&& said.skip(m + asked.len()) == back
        }),
        VEC_CANDIDATE_OVERFETCH == 200,
{
    let said = mismatch_text(recorded, asked);
    let front = "Invalid parameter name: vector dimensionality mismatch: database has "@;
    let between = ", but "@;
    let back = " was requested"@;
    let n = front.len() as int;
    let m = n + recorded.len() + between.len();
    assert(said.subrange(0, n) =~= front);
    assert(said.subrange(n, n + recorded.len()) =~= recorded);
    assert(said.subrange(n + recorded.len(), m) =~= between);
    assert(said.subrange(m, m + asked.len()) =~= asked);
    assert(said.skip(m + asked.len()) =~= back);
}

} // verus!
