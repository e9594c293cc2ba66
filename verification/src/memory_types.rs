//! Long-term memories and queries for them.

use vstd::prelude::*;

use crate::ids::{hyphenated, id_text, new_id_bytes, parse_id, parsed_uuid, version_7};
use crate::message::clone_optional_text;
use crate::text::{clone_texts, same_text};

verus! {

/// The identifier of a memory.
#[derive(Debug, Clone, Copy, PartialEq, Eq, Hash)]
pub struct MemoryId {
    pub bytes: [u8; 16],
}

impl MemoryId {
    /// A new identifier.
    pub fn new() -> (r: MemoryId)
        ensures
            version_7(r.bytes@),
    {
        MemoryId { bytes: new_id_bytes() }
    }

    /// The identifier in hyphenated notation.
    pub fn to_string(&self) -> (r: String)
        ensures
            r@ == hyphenated(self.bytes@),
            parsed_uuid(r@) == Some(self.bytes@),
    {
        id_text(self.bytes)
    }

    /// Reads an identifier.
    pub fn from_str(s: &str) -> (r: Result<MemoryId, uuid::Error>)
        ensures
            match r {
                Ok(id) => parsed_uuid(s@) == Some(id.bytes@),
                Err(_) => parsed_uuid(s@) is None,
            },
    {
        match parse_id(s) {
            Ok(bytes) => Ok(MemoryId { bytes }),
            Err(e) => Err(e),
        }
    }

    /// Whether the two are the same identifier.
    pub fn same(&self, other: &MemoryId) -> (r: bool)
        ensures
            r == (self.bytes@ == other.bytes@),
    {
        for i in 0..16usize
            invariant
                forall|k: int| 0 <= k < i ==> self.bytes@[k] == other.bytes@[k],
        {
            if self.bytes[i] != other.bytes[i] {
                return false;
            }
        }
        assert(self.bytes@ =~= other.bytes@);
        true
    }
}

/// Whom a memory is for: the kind of owner and which one.
#[derive(Debug, PartialEq, Eq)]
pub struct MemoryScope {
    pub kind: String,
    pub key: String,
}

impl DeepView for MemoryScope {
    type V = (Seq<char>, Seq<char>);

    open spec fn deep_view(&self) -> (Seq<char>, Seq<char>) {
        (self.kind@, self.key@)
    }
}

impl Clone for MemoryScope {
    fn clone(&self) -> (r: MemoryScope)
        ensures
            r.deep_view() == self.deep_view(),
    {
        MemoryScope { kind: self.kind.clone(), key: self.key.clone() }
    }
}

impl MemoryScope {
    /// The scope of the user `key`.
    pub fn user(key: &str) -> (r: MemoryScope)
        ensures
            r.deep_view() == ("user"@, key@),
    {
        MemoryScope { kind: "user".to_owned(), key: key.to_owned() }
    }

    /// Whether the two are the same scope.
    pub fn same(&self, other: &MemoryScope) -> (r: bool)
        ensures
            r == (self.deep_view() == other.deep_view()),
    {
        same_text(self.kind.as_str(), other.kind.as_str()) && same_text(
            self.key.as_str(),
            other.key.as_str(),
        )
    }
}

/// A copy of a list of scopes.
pub fn clone_scopes(scopes: &Vec<MemoryScope>) -> (r: Vec<MemoryScope>)
    ensures
        r.deep_view() == scopes.deep_view(),
{
    let r = scopes.clone();
    assert(r.deep_view() =~= scopes.deep_view());
    r
}

/// A memory.
#[derive(Debug, PartialEq, Eq)]
pub struct MemoryRecord {
    pub id: MemoryId,
    pub scope: MemoryScope,
    pub content: String,
    pub tags: Vec<String>,
    /// The session that the memory comes from.
    pub source_session: Option<String>,
    /// When it was made, in seconds.
    pub created_at: i64,
    /// When it was last changed, in seconds.
    pub updated_at: i64,
}

/// The model of a [`MemoryRecord`].
#[verifier::ext_equal]
pub struct RecordView {
    pub id: Seq<u8>,
    pub scope: (Seq<char>, Seq<char>),
    pub content: Seq<char>,
    pub tags: Seq<Seq<char>>,
    pub source_session: Option<Seq<char>>,
    pub created_at: i64,
    pub updated_at: i64,
}

impl DeepView for MemoryRecord {
    type V = RecordView;

    open spec fn deep_view(&self) -> RecordView {
        RecordView {
            id: self.id.bytes@,
            scope: self.scope.deep_view(),
            content: self.content@,
            tags: self.tags.deep_view(),
            source_session: self.source_session.deep_view(),
            created_at: self.created_at,
            updated_at: self.updated_at,
        }
    }
}

impl Clone for MemoryRecord {
    fn clone(&self) -> (r: MemoryRecord)
        ensures
            r.deep_view() == self.deep_view(),
    {
        MemoryRecord {
            id: self.id,
            scope: self.scope.clone(),
            content: self.content.clone(),
            tags: clone_texts(&self.tags),
            source_session: clone_optional_text(&self.source_session),
            created_at: self.created_at,
            updated_at: self.updated_at,
        }
    }
}

/// What to look for. Without a limit the store's own applies.
#[derive(Debug)]
pub struct MemoryQuery {
    pub text: Option<String>,
    pub scopes: Vec<MemoryScope>,
    pub limit: Option<usize>,
}

/// The model of a [`MemoryQuery`].
#[verifier::ext_equal]
pub struct QueryView {
    pub text: Option<Seq<char>>,
    pub scopes: Seq<(Seq<char>, Seq<char>)>,
    pub limit: Option<usize>,
}

impl DeepView for MemoryQuery {
    type V = QueryView;

    open spec fn deep_view(&self) -> QueryView {
        QueryView {
            text: self.text.deep_view(),
            scopes: self.scopes.deep_view(),
            limit: self.limit,
        }
    }
}

/// The models hold what the values hold.
pub proof fn law_models_hold_the_fields(
    scope: MemoryScope,
    record: MemoryRecord,
    query: MemoryQuery,
    i: int,
)
    ensures
        scope.deep_view() == (scope.kind@, scope.key@),
        record.deep_view().id == record.id.bytes@,
        record.deep_view().scope == record.scope.deep_view(),
        record.deep_view().content == record.content@,
        record.deep_view().tags.len() == record.tags@.len(),
        0 <= i < record.tags@.len() ==> record.deep_view().tags[i] == record.tags@[i]@,
        record.source_session is None ==> record.deep_view().source_session is None,
        record.source_session is Some ==> record.deep_view().source_session == Some(
            record.source_session->0@,
        ),
        record.deep_view().created_at == record.created_at,
        record.deep_view().updated_at == record.updated_at,
        query.text is None ==> query.deep_view().text is None,
        query.text is Some ==> query.deep_view().text == Some(query.text->0@),
        query.deep_view().scopes.len() == query.scopes@.len(),
        0 <= i < query.scopes@.len() ==> query.deep_view().scopes[i] == query.scopes@[i].deep_view(),
        query.deep_view().limit == query.limit,
{
}

} // verus!
