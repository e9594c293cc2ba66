//! JSON values as plain data.
//!
//! [`Json`] holds a document the way the library's logic reads it. Text is
//! parsed by `serde_json`; everything else here is verified.

use vstd::prelude::*;

verus! {

/// A JSON value. A number is the text that `serde_json` displays for it; the members
/// of an object stand in the order in which they are listed.
#[derive(Debug, PartialEq, Eq)]
pub enum Json {
    Null,
    Bool(bool),
    Number(String),
    Text(String),
    Array(Vec<Json>),
    Object(Vec<(String, Json)>),
}

/// The mathematical model of a [`Json`].
#[verifier::ext_equal]
pub enum JsonTree {
    Null,
    Bool(bool),
    Number(Seq<char>),
    Text(Seq<char>),
    Array(Seq<JsonTree>),
    Object(Seq<(Seq<char>, JsonTree)>),
}

/// The model of `j`.
pub open spec fn tree(j: Json) -> JsonTree
    decreases j,
{
    match j {
        Json::Null => JsonTree::Null,
        Json::Bool(b) => JsonTree::Bool(b),
        Json::Number(n) => JsonTree::Number(n@),
        Json::Text(s) => JsonTree::Text(s@),
        Json::Array(v) => JsonTree::Array(
            Seq::new(
                v@.len(),
                |i: int|
                    if 0 <= i < v@.len() {
                        tree(v@[i])
                    } else {
                        JsonTree::Null
                    },
            ),
        ),
        Json::Object(v) => JsonTree::Object(
            Seq::new(
                v@.len(),
                |i: int|
                    if 0 <= i < v@.len() {
                        (v@[i].0@, tree(v@[i].1))
                    } else {
                        (Seq::empty(), JsonTree::Null)
                    },
            ),
        ),
    }
}

impl DeepView for Json {
    type V = JsonTree;

    open spec fn deep_view(&self) -> JsonTree {
        tree(*self)
    }
}

impl Clone for Json {
    fn clone(&self) -> (r: Json)
        ensures
            tree(r) == tree(*self),
        decreases self,
    {
        match self {
            Json::Null => Json::Null,
            Json::Bool(b) => Json::Bool(*b),
            Json::Number(n) => Json::Number(n.clone()),
            Json::Text(s) => Json::Text(s.clone()),
            Json::Array(v) => {
                let mut out: Vec<Json> = Vec::new();
                for i in 0..v.len()
                    invariant
                        *self == Json::Array(*v),
                        out@.len() == i,
                        forall|k: int| 0 <= k < i ==> tree(#[trigger] out@[k]) == tree(v@[k]),
                {
                    assert(self->Array_0 == *v);
                    assert(decreases_to!(*self => v@[i as int]));
                    let item = v[i].clone();
                    out.push(item);
                }
                assert(tree(Json::Array(out))->Array_0 =~= tree(*self)->Array_0);
                Json::Array(out)
            },
            Json::Object(v) => {
                let mut out: Vec<(String, Json)> = Vec::new();
                for i in 0..v.len()
                    invariant
                        *self == Json::Object(*v),
                        out@.len() == i,
                        forall|k: int|
                            0 <= k < i ==> (#[trigger] out@[k]).0@ == v@[k].0@ && tree(out@[k].1)
                                == tree(v@[k].1),
                {
                    assert(self->Object_0 == *v);
                    assert(decreases_to!(v@[i as int] => v@[i as int].1));
                    assert(decreases_to!(*self => v@[i as int]));
                    let value = v[i].1.clone();
                    out.push((v[i].0.clone(), value));
                }
                assert(tree(Json::Object(out))->Object_0 =~= tree(*self)->Object_0);
                Json::Object(out)
            },
        }
    }
}

/// The object without members.
pub fn empty_object() -> (r: Json)
    ensures
        tree(r) == JsonTree::Object(Seq::empty()),
{
    let members: Vec<(String, Json)> = Vec::new();
    let r = Json::Object(members);
    assert(tree(r)->Object_0 =~= Seq::empty());
    r
}

/// The object with the given members.
pub fn object(members: Vec<(String, Json)>) -> (r: Json)
    ensures
        tree(r) == JsonTree::Object(members.deep_view()),
{
    let r = Json::Object(members);
    assert(tree(r)->Object_0 =~= members.deep_view());
    r
}

/// The array of the given items.
pub fn array(items: Vec<Json>) -> (r: Json)
    ensures
        tree(r) == JsonTree::Array(items.deep_view()),
{
    let r = Json::Array(items);
    assert(tree(r)->Array_0 =~= items.deep_view());
    r
}

/// Adds a member at the end of a list of members.
pub fn add_member(members: &mut Vec<(String, Json)>, key: &str, value: Json)
    ensures
        final(members).deep_view() == old(members).deep_view().push((key@, tree(value))),
{
    members.push((key.to_owned(), value));
    assert(members.deep_view() =~= old(members).deep_view().push((key@, tree(value))));
}

/// The object whose single member is the text `value`, under `key`.
pub fn object_of_text(key: &str, value: String) -> (r: Json)
    ensures
        tree(r) == JsonTree::Object(seq![(key@, JsonTree::Text(value@))]),
{
    let mut members: Vec<(String, Json)> = Vec::new();
    members.push((key.to_owned(), Json::Text(value)));
    let r = Json::Object(members);
    assert(tree(r->Object_0@[0].1) == JsonTree::Text(value@));
    assert(tree(r)->Object_0 =~= seq![(key@, JsonTree::Text(value@))]);
    r
}

// ---------------------------------------------------------------------------
// Parsing
// ---------------------------------------------------------------------------

/// `serde_json::Value`, carried without looking inside.
#[verifier::external_type_specification]
#[verifier::external_body]
pub struct ExValue(serde_json::Value);

/// `serde_json::Error`, carried without looking inside.
#[verifier::external_type_specification]
#[verifier::external_body]
pub struct ExJsonError(serde_json::Error);

/// The JSON tree that a `serde_json::Value` holds.
pub uninterp spec fn value_tree(v: serde_json::Value) -> JsonTree;

/// What `serde_json::from_str` reads from `text` as a JSON value: the tree, or
/// `None` where it reports an error.
pub uninterp spec fn parsed_json(text: Seq<char>) -> Option<JsonTree>;

/// One level of a `serde_json::Value`.
enum Level {
    Null,
    Bool(bool),
    Number(String),
    Text(String),
    Array(Vec<serde_json::Value>),
    Object(Vec<(String, serde_json::Value)>),
}

/// Calls `serde_json::from_str` for a `serde_json::Value`. The value or the
/// error is a function of the text alone, named by [`parsed_json`].
#[verifier::external_body]
fn read_value(text: &str) -> (r: Result<serde_json::Value, serde_json::Error>)
    ensures
        match r {
            Ok(v) => parsed_json(text@) == Some(value_tree(v)),
            Err(_) => parsed_json(text@) is None,
        },
{
    serde_json::from_str(text)
}

/// The text that `serde_json::to_string` writes for a list of texts.
pub uninterp spec fn texts_written(texts: Seq<Seq<char>>) -> Seq<char>;

/// The array of the given texts.
pub open spec fn array_of_texts(texts: Seq<Seq<char>>) -> JsonTree {
    JsonTree::Array(texts.map_values(|t: Seq<char>| JsonTree::Text(t)))
}

/// Calls `serde_json::to_string` for a list of texts. It fails only where a type
/// refuses to be written or a map has keys that are no texts, which a list of texts
/// does not. What it writes is a function of the list alone, named by
/// [`texts_written`], and `serde_json::from_str` reads the same list from it.
#[verifier::external_body]
fn write_texts(texts: &Vec<String>) -> (r: Result<String, serde_json::Error>)
    ensures
        r is Ok,
        r matches Ok(t) ==> t@ == texts_written(texts.deep_view()) && parsed_json(t@) == Some(
            array_of_texts(texts.deep_view()),
        ),
{
    serde_json::to_string(texts)
}

/// The JSON text for a list of texts. Parsing it gives the list back.
pub fn texts_to_json(texts: &Vec<String>) -> (r: String)
    ensures
        r@ == texts_written(texts.deep_view()),
        parsed_json(r@) == Some(array_of_texts(texts.deep_view())),
{
    write_texts(texts).unwrap()
}

/// Takes a `serde_json::Value` apart into its variant. A number becomes the text
/// that `serde_json::Number` displays, an object the list of its members in the
/// order in which `serde_json::Map` yields them.
#[verifier::external_body]
fn open_value(v: serde_json::Value) -> (r: Level)
    ensures
        match r {
            Level::Null => value_tree(v) == JsonTree::Null,
            Level::Bool(b) => value_tree(v) == JsonTree::Bool(b),
            Level::Number(n) => value_tree(v) == JsonTree::Number(n@),
            Level::Text(s) => value_tree(v) == JsonTree::Text(s@),
            Level::Array(items) => value_tree(v) == JsonTree::Array(
                items@.map_values(|x: serde_json::Value| value_tree(x)),
            ),
            Level::Object(members) => value_tree(v) == JsonTree::Object(
                members@.map_values(|m: (String, serde_json::Value)| (m.0@, value_tree(m.1))),
            ),
        },
{
    match v {
        serde_json::Value::Null => Level::Null,
        serde_json::Value::Bool(b) => Level::Bool(b),
        serde_json::Value::Number(n) => Level::Number(n.to_string()),
        serde_json::Value::String(s) => Level::Text(s),
        serde_json::Value::Array(items) => Level::Array(items),
        serde_json::Value::Object(members) => Level::Object(members.into_iter().collect()),
    }
}

/// The library's form of a `serde_json::Value`.
fn from_value(v: serde_json::Value) -> (r: Json)
    ensures
        tree(r) == value_tree(v),
    decreases value_tree(v),
{
    let ghost whole = value_tree(v);
    match open_value(v) {
        Level::Null => Json::Null,
        Level::Bool(b) => Json::Bool(b),
        Level::Number(n) => Json::Number(n),
        Level::Text(s) => Json::Text(s),
        Level::Array(items) => {
            let mut out: Vec<Json> = Vec::new();
            let ghost values = items@;
            for x in it: items
                invariant
                    it.seq() == values,
                    whole == value_tree(v),
                    whole == JsonTree::Array(
                        values.map_values(|x: serde_json::Value| value_tree(x)),
                    ),
                    out@.len() == it.index(),
                    forall|k: int|
                        0 <= k < it.index() ==> tree(#[trigger] out@[k]) == value_tree(values[k]),
            {
                assert(whole->Array_0[it.index()] == value_tree(x));
                assert(decreases_to!(whole => whole->Array_0[it.index()]));
                let item = from_value(x);
                out.push(item);
            }
            assert(tree(Json::Array(out))->Array_0 =~= whole->Array_0);
            Json::Array(out)
        },
        Level::Object(members) => {
            let mut out: Vec<(String, Json)> = Vec::new();
            let ghost values = members@;
            for m in it: members
                invariant
                    it.seq() == values,
                    whole == value_tree(v),
                    whole == JsonTree::Object(
                        values.map_values(
                            |m: (String, serde_json::Value)| (m.0@, value_tree(m.1)),
                        ),
                    ),
                    out@.len() == it.index(),
                    forall|k: int|
                        0 <= k < it.index() ==> (#[trigger] out@[k]).0@ == values[k].0@ && tree(
                            out@[k].1,
                        ) == value_tree(values[k].1),
            {
                assert(whole->Object_0[it.index()].1 == value_tree(m.1));
                assert(decreases_to!(whole => whole->Object_0[it.index()]));
                assert(decreases_to!(whole->Object_0[it.index()] => whole->Object_0[it.index()].1));
                let value = from_value(m.1);
                out.push((m.0, value));
            }
            assert(tree(Json::Object(out))->Object_0 =~= whole->Object_0);
            Json::Object(out)
        },
    }
}

/// Parses `text` as one JSON value.
pub fn parse_json(text: &str) -> (r: Result<Json, serde_json::Error>)
    ensures
        match r {
            Ok(j) => parsed_json(text@) == Some(tree(j)),
            Err(_) => parsed_json(text@) is None,
        },
{
    match read_value(text) {
        Ok(v) => Ok(from_value(v)),
        Err(e) => Err(e),
    }
}

// ---------------------------------------------------------------------------
// Reading a tree
// ---------------------------------------------------------------------------

/// The value of the first of `members` under `key`.
pub open spec fn found(members: Seq<(Seq<char>, JsonTree)>, key: Seq<char>) -> Option<JsonTree>
    decreases members.len(),
{
    if members.len() == 0 {
        None
    } else if members[0].0 == key {
        Some(members[0].1)
    } else {
        found(members.drop_first(), key)
    }
}

/// The member `key` of an object.
pub open spec fn member(t: JsonTree, key: Seq<char>) -> Option<JsonTree> {
    match t {
        JsonTree::Object(members) => found(members, key),
        _ => None,
    }
}

/// The items of a list.
pub open spec fn items(t: JsonTree) -> Seq<JsonTree> {
    match t {
        JsonTree::Array(list) => list,
        _ => Seq::empty(),
    }
}

/// The characters of a text.
pub open spec fn text(t: JsonTree) -> Seq<char> {
    match t {
        JsonTree::Text(s) => s,
        _ => Seq::empty(),
    }
}

/// The text of the member `key` of an object.
pub open spec fn text_at(t: JsonTree, key: Seq<char>) -> Seq<char> {
    match member(t, key) {
        Some(v) => text(v),
        None => Seq::empty(),
    }
}

/// What is found in two lists of members, one after the other.
pub proof fn lemma_found_add(
    a: Seq<(Seq<char>, JsonTree)>,
    b: Seq<(Seq<char>, JsonTree)>,
    key: Seq<char>,
)
    ensures
        found(a + b, key) == (match found(a, key) {
            Some(v) => Some(v),
            None => found(b, key),
        }),
    decreases a.len(),
{
    if a.len() == 0 {
        assert(a + b =~= b);
    } else {
        assert((a + b)[0] == a[0]);
        assert((a + b).drop_first() =~= a.drop_first() + b);
        lemma_found_add(a.drop_first(), b, key);
    }
}

/// What is found in a list of one member.
pub proof fn lemma_found_one(k: Seq<char>, v: JsonTree, key: Seq<char>)
    ensures
        found(seq![(k, v)], key) == if k == key {
            Some(v)
        } else {
            None
        },
{
    assert(seq![(k, v)].drop_first() =~= Seq::empty());
    assert(found(seq![(k, v)].drop_first(), key) is None);
}

/// What is found in a list of two members.
pub proof fn lemma_found_two(
    k: Seq<char>,
    v: JsonTree,
    l: Seq<char>,
    w: JsonTree,
    key: Seq<char>,
)
    ensures
        found(seq![(k, v), (l, w)], key) == if k == key {
            Some(v)
        } else if l == key {
            Some(w)
        } else {
            None
        },
{
    lemma_found_one(l, w, key);
    assert(seq![(k, v), (l, w)].drop_first() =~= seq![(l, w)]);
}

/// What is found in a list of three members.
pub proof fn lemma_found_three(
    k: Seq<char>,
    v: JsonTree,
    l: Seq<char>,
    w: JsonTree,
    m: Seq<char>,
    x: JsonTree,
    key: Seq<char>,
)
    ensures
        found(seq![(k, v), (l, w), (m, x)], key) == if k == key {
            Some(v)
        } else if l == key {
            Some(w)
        } else if m == key {
            Some(x)
        } else {
            None
        },
{
    lemma_found_two(l, w, m, x, key);
    assert(seq![(k, v), (l, w), (m, x)].drop_first() =~= seq![(l, w), (m, x)]);
}

/// The model of a value holds what the value holds, member by member and item by item.
pub proof fn law_models_hold_the_values(j: Json, i: int)
    ensures
        j is Null <==> tree(j) is Null,
        j is Bool ==> tree(j) == JsonTree::Bool(j->Bool_0),
        j is Number ==> tree(j) == JsonTree::Number(j->Number_0@),
        j is Text ==> tree(j) == JsonTree::Text(j->Text_0@),
        j is Array ==> {
            let v = j->Array_0@;
            &&& tree(j) is Array
            &&& tree(j)->Array_0.len() == v.len()
            &&& 0 <= i < v.len() ==> tree(j)->Array_0[i] == tree(v[i])
        },
        j is Object ==> {
            let v = j->Object_0@;
            &&& tree(j) is Object
            &&& tree(j)->Object_0.len() == v.len()
            &&& 0 <= i < v.len() ==> tree(j)->Object_0[i].0 == v[i].0@ && tree(j)->Object_0[i].1
                == tree(v[i].1)
        },
        j.deep_view() == tree(j),
{
}

/// An array of texts holds the texts in order.
pub proof fn law_arrays_of_texts(texts: Seq<Seq<char>>, i: int)
    requires
        0 <= i < texts.len(),
    ensures
        array_of_texts(texts) is Array,
        array_of_texts(texts)->Array_0.len() == texts.len(),
        array_of_texts(texts)->Array_0[i] == JsonTree::Text(texts[i]),
{
}

} // verus!
