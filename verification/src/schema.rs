//! Schema sanitization shared by the wire-protocol providers.
//!
//! Some providers reject parts of a generated JSON schema: the `$schema` and
//! `title` members, and `type` members that list several types.

use vstd::prelude::*;

use crate::json::{Json, JsonTree, tree};
use crate::lists::{lemma_picks_last, picks};
use crate::text::same_text;

verus! {

/// Whether a member under `key` is removed.
pub open spec fn removed_key(key: Seq<char>) -> bool {
    key == "$schema"@ || key == "title"@
}

/// The single type that stands for a list of types: the first text in it that is
/// not `null`, or `string` when there is none.
pub open spec fn chosen_type(types: Seq<JsonTree>) -> Seq<char>
    decreases types.len(),
{
    if types.len() == 0 {
        "string"@
    } else {
        match types[0] {
            JsonTree::Text(s) => if s != "null"@ {
                s
            } else {
                chosen_type(types.drop_first())
            },
            _ => chosen_type(types.drop_first()),
        }
    }
}

/// What becomes of the value of a member that stays.
pub open spec fn sanitized_member(key: Seq<char>, value: JsonTree) -> JsonTree
    decreases value, 1nat,
{
    if key == "type"@ && value is Array {
        JsonTree::Text(chosen_type(value->Array_0))
    } else {
        sanitized(value)
    }
}

/// The members that stay, in order, each sanitized.
pub open spec fn sanitized_members(members: Seq<(Seq<char>, JsonTree)>) -> Seq<
    (Seq<char>, JsonTree),
>
    decreases members, 0nat,
{
    if members.len() == 0 {
        Seq::empty()
    } else {
        let before = sanitized_members(members.drop_last());
        let last = members[members.len() - 1];
        if removed_key(last.0) {
            before
        } else {
            before.push((last.0, sanitized_member(last.0, last.1)))
        }
    }
}

/// The schema `t` without `$schema` and `title` members and with a single type in
/// place of each list of types, at every depth.
pub open spec fn sanitized(t: JsonTree) -> JsonTree
    decreases t, 0nat,
{
    match t {
        JsonTree::Object(members) => JsonTree::Object(sanitized_members(members)),
        JsonTree::Array(items) => JsonTree::Array(
            Seq::new(
                items.len(),
                |i: int|
                    if 0 <= i < items.len() {
                        sanitized(items[i])
                    } else {
                        JsonTree::Null
                    },
            ),
        ),
        _ => t,
    }
}

/// Picks the single type that stands for a list of types.
fn choose_type(types: &Vec<Json>) -> (r: String)
    ensures
        r@ == chosen_type(tree(Json::Array(*types))->Array_0),
{
    let ghost all = tree(Json::Array(*types))->Array_0;
    assert(all.skip(0) =~= all);
    for i in 0..types.len()
        invariant
            all == tree(Json::Array(*types))->Array_0,
            all.len() == types@.len(),
            chosen_type(all) == chosen_type(all.skip(i as int)),
    {
        assert(all.skip(i as int)[0] == tree(types@[i as int]));
        assert(all.skip(i as int).drop_first() =~= all.skip(i + 1));
        match &types[i] {
            Json::Text(s) => {
                if !same_text(s.as_str(), "null") {
                    return s.clone();
                }
            },
            _ => {},
        }
    }
    assert(all.skip(all.len() as int).len() == 0);
    "string".to_owned()
}

/// Strips from `schema` what some providers reject.
pub fn sanitize_schema(schema: &mut Json)
    ensures
        tree(*final(schema)) == sanitized(tree(*old(schema))),
    decreases *old(schema),
{
    let ghost before = *schema;
    let ghost whole = tree(before);
    match schema {
        Json::Object(members) => {
            let mut taken: Vec<(String, Json)> = Vec::new();
            std::mem::swap(&mut taken, members);
            let ghost all = taken@;
            let mut out: Vec<(String, Json)> = Vec::new();
            assert(whole->Object_0.take(0) =~= Seq::empty());
            assert(tree(Json::Object(out))->Object_0 =~= Seq::empty());
            for m in it: taken
                invariant
                    it.seq() == all,
                    before is Object,
                    before == *old(schema),
                    before->Object_0@ == all,
                    whole == tree(before),
                    whole->Object_0.len() == all.len(),
                    tree(Json::Object(out))->Object_0 == sanitized_members(
                        whole->Object_0.take(it.index()),
                    ),
            {
                let ghost i = it.index();
                let (key, value) = m;
                let ghost raw = tree(value);
                let ghost done = tree(Json::Object(out))->Object_0;
                proof {
                    assert(whole->Object_0[i] == (key@, raw));
                    assert(whole->Object_0.take(i + 1).drop_last() =~= whole->Object_0.take(i));
                    assert(whole->Object_0.take(i + 1)[i] == (key@, raw));
                    assert(decreases_to!(before => before->Object_0@[i]));
                    assert(decreases_to!(before->Object_0@[i] => before->Object_0@[i].1));
                }
                if same_text(key.as_str(), "$schema") || same_text(key.as_str(), "title") {
                    assert(removed_key(key@));
                } else {
                    let mut value = value;
                    let mut single: Option<String> = None;
                    if same_text(key.as_str(), "type") {
                        if let Json::Array(types) = &value {
                            single = Some(choose_type(types));
                        }
                    }
                    match single {
                        Some(t) => {
                            value = Json::Text(t);
                        },
                        None => {
                            sanitize_schema(&mut value);
                        },
                    }
                    assert(tree(value) == sanitized_member(key@, raw));
                    out.push((key, value));
                    assert(tree(Json::Object(out))->Object_0 =~= done.push((key@, tree(value))));
                }
            }
            assert(whole->Object_0.take(all.len() as int) =~= whole->Object_0);
            *members = out;
        },
        Json::Array(items) => {
            let n = items.len();
            let mut i: usize = 0;
            while i < n
                invariant
                    n == items@.len(),
                    i <= n,
                    before is Array,
                    before == *old(schema),
                    before->Array_0@.len() == n,
                    forall|k: int| i <= k < n ==> items@[k] == before->Array_0@[k],
                    forall|k: int|
                        0 <= k < i ==> tree(#[trigger] items@[k]) == sanitized(
                            tree(before->Array_0@[k]),
                        ),
                decreases n - i,
            {
                assert(decreases_to!(before => before->Array_0@[i as int]));
                sanitize_schema(&mut items[i]);
                i += 1;
            }
            assert(tree(Json::Array(*items))->Array_0 =~= sanitized(whole)->Array_0);
        },
        _ => {},
    }
}

// ---------------------------------------------------------------------------
// Laws
// ---------------------------------------------------------------------------

/// Whether `t` holds, at every depth, no `$schema` or `title` member and no list
/// of types.
pub open spec fn acceptable(t: JsonTree) -> bool
    decreases t,
{
    match t {
        JsonTree::Object(members) => forall|i: int|
            0 <= i < members.len() ==> {
                &&& (#[trigger] members[i]).0 != "$schema"@
                &&& members[i].0 != "title"@
                &&& !(members[i].0 == "type"@ && members[i].1 is Array)
                &&& acceptable(members[i].1)
            },
        JsonTree::Array(items) => forall|i: int|
            0 <= i < items.len() ==> acceptable(#[trigger] items[i]),
        _ => true,
    }
}

proof fn lemma_members_acceptable(members: Seq<(Seq<char>, JsonTree)>)
    ensures
        forall|i: int|
            0 <= i < sanitized_members(members).len() ==> {
                &&& !removed_key((#[trigger] sanitized_members(members)[i]).0)
                &&& !(sanitized_members(members)[i].0 == "type"@ && sanitized_members(
                    members,
                )[i].1 is Array)
                &&& acceptable(sanitized_members(members)[i].1)
            },
    decreases members, 0nat,
{
    if members.len() > 0 {
        let last = members[members.len() - 1];
        lemma_members_acceptable(members.drop_last());
        assert(decreases_to!(members => last));
        assert(decreases_to!(last => last.1));
        law_sanitized_is_acceptable(last.1);
        let before = sanitized_members(members.drop_last());
        if !removed_key(last.0) {
            let added = (last.0, sanitized_member(last.0, last.1));
            assert(acceptable(added.1));
            assert(sanitized_members(members) == before.push(added));
            assert forall|i: int| 0 <= i < sanitized_members(members).len() implies {
                &&& !removed_key((#[trigger] sanitized_members(members)[i]).0)
                &&& !(sanitized_members(members)[i].0 == "type"@ && sanitized_members(
                    members,
                )[i].1 is Array)
                &&& acceptable(sanitized_members(members)[i].1)
            } by {
                if i < before.len() {
                    assert(sanitized_members(members)[i] == before[i]);
                } else {
                    assert(sanitized_members(members)[i] == added);
                }
            }
        }
    }
}

/// A sanitized schema holds none of the members that providers reject.
pub proof fn law_sanitized_is_acceptable(t: JsonTree)
    ensures
        acceptable(sanitized(t)),
    decreases t, 0nat,
{
    match t {
        JsonTree::Object(members) => {
            lemma_members_acceptable(members);
        },
        JsonTree::Array(items) => {
            assert forall|i: int| 0 <= i < items.len() implies acceptable(
                #[trigger] sanitized(t)->Array_0[i],
            ) by {
                law_sanitized_is_acceptable(items[i]);
            }
        },
        _ => {},
    }
}

proof fn lemma_members_unchanged(members: Seq<(Seq<char>, JsonTree)>)
    requires
        acceptable(JsonTree::Object(members)),
    ensures
        sanitized_members(members) == members,
    decreases members, 0nat,
{
    if members.len() > 0 {
        let last = members[members.len() - 1];
        let shorter = members.drop_last();
        assert forall|i: int| 0 <= i < shorter.len() implies {
            &&& (#[trigger] shorter[i]).0 != "$schema"@
            &&& shorter[i].0 != "title"@
            &&& !(shorter[i].0 == "type"@ && shorter[i].1 is Array)
            &&& acceptable(shorter[i].1)
        } by {
            assert(shorter[i] == members[i]);
        }
        lemma_members_unchanged(shorter);
        assert(decreases_to!(members => last));
        assert(decreases_to!(last => last.1));
        law_acceptable_is_unchanged(last.1);
        assert(sanitized_member(last.0, last.1) == last.1);
        assert(shorter.push(last) =~= members);
    } else {
        assert(members =~= Seq::empty());
    }
}

/// A schema that holds nothing to reject is left as it is.
pub proof fn law_acceptable_is_unchanged(t: JsonTree)
    requires
        acceptable(t),
    ensures
        sanitized(t) == t,
    decreases t, 0nat,
{
    match t {
        JsonTree::Object(members) => {
            lemma_members_unchanged(members);
        },
        JsonTree::Array(items) => {
            assert forall|i: int| 0 <= i < items.len() implies sanitized(#[trigger] items[i])
                == items[i] by {
                law_acceptable_is_unchanged(items[i]);
            }
            assert(sanitized(t)->Array_0 =~= items);
        },
        _ => {},
    }
}

/// Sanitizing twice is the same as sanitizing once.
pub proof fn law_sanitize_idempotent(t: JsonTree)
    ensures
        sanitized(sanitized(t)) == sanitized(t),
{
    law_sanitized_is_acceptable(t);
    law_acceptable_is_unchanged(sanitized(t));
}

/// Of an object exactly the members `$schema` and `title` go. Every other stays under
/// its key and in its place among the others; its value is sanitized, but for a list of
/// types under `type`, in place of which a single type stands.
pub proof fn law_only_schema_and_title_go(members: Seq<(Seq<char>, JsonTree)>)
    ensures
        sanitized(JsonTree::Object(members)) is Object,
        picks(
            members,
            |m: (Seq<char>, JsonTree)| m.0 != "$schema"@ && m.0 != "title"@,
            |m: (Seq<char>, JsonTree)|
                (
                    m.0,
                    if m.0 == "type"@ && m.1 is Array {
                        JsonTree::Text(chosen_type(m.1->Array_0))
                    } else {
                        sanitized(m.1)
                    },
                ),
            sanitized(JsonTree::Object(members))->Object_0,
        ),
    decreases members.len(),
{
    let stays = |m: (Seq<char>, JsonTree)| m.0 != "$schema"@ && m.0 != "title"@;
    let becomes = |m: (Seq<char>, JsonTree)|
        (
            m.0,
            if m.0 == "type"@ && m.1 is Array {
                JsonTree::Text(chosen_type(m.1->Array_0))
            } else {
                sanitized(m.1)
            },
        );
    if members.len() > 0 {
        let before = members.drop_last();
        law_only_schema_and_title_go(before);
        lemma_picks_last(members, stays, becomes, sanitized_members(before));
        let last = members.last();
        assert(last == members[members.len() - 1]);
        assert(sanitized_member(last.0, last.1) == becomes(last).1);
        assert(sanitized_members(members) == if stays(last) {
            sanitized_members(before).push(becomes(last))
        } else {
            sanitized_members(before)
        });
    }
    assert(sanitized(JsonTree::Object(members)) == JsonTree::Object(sanitized_members(members)));
}

/// A list keeps its length and its order, each item sanitized, and whatever is neither
/// a list nor an object stays as it is.
pub proof fn law_lists_and_plain_values_stay(t: JsonTree)
    ensures
        match t {
            JsonTree::Array(items) => sanitized(t) is Array && sanitized(t)->Array_0.len()
                == items.len() && forall|i: int|
                0 <= i < items.len() ==> #[trigger] sanitized(t)->Array_0[i] == sanitized(items[i]),
            JsonTree::Object(_) => sanitized(t) is Object,
            _ => sanitized(t) == t,
        },
{
}

/// Whether an item of a list of types is a text other than `null`.
pub open spec fn is_real_type(t: JsonTree) -> bool {
    t is Text && t->Text_0 != "null"@
}

/// The type that stands for a list of types is the first in it that is a text other
/// than `null`, and `string` where there is none.
pub proof fn law_first_real_type_is_chosen(types: Seq<JsonTree>)
    ensures
        ({
            ||| exists|k: int|
                {
                    &&& 0 <= k < types.len()
                    &&& is_real_type(#[trigger] types[k])
                    &&& types[k] == JsonTree::Text(chosen_type(types))
                    &&& forall|j: int| 0 <= j < k ==> !is_real_type(#[trigger] types[j])
                }
            ||| chosen_type(types) == "string"@ && forall|j: int|
                0 <= j < types.len() ==> !is_real_type(#[trigger] types[j])
        }),
    decreases types.len(),
{
    if types.len() > 0 {
        if is_real_type(types[0]) {
            assert(types[0] == JsonTree::Text(chosen_type(types)));
        } else {
            let rest = types.drop_first();
            law_first_real_type_is_chosen(rest);
            assert(chosen_type(types) == chosen_type(rest));
            if exists|k: int|
                {
                    &&& 0 <= k < rest.len()
                    &&& is_real_type(#[trigger] rest[k])
                    &&& rest[k] == JsonTree::Text(chosen_type(rest))
                    &&& forall|j: int| 0 <= j < k ==> !is_real_type(#[trigger] rest[j])
                } {
                let k = choose|k: int|
                    {
                        &&& 0 <= k < rest.len()
                        &&& is_real_type(#[trigger] rest[k])
                        &&& rest[k] == JsonTree::Text(chosen_type(rest))
                        &&& forall|j: int| 0 <= j < k ==> !is_real_type(#[trigger] rest[j])
                    };
                assert(types[k + 1] == rest[k]);
                assert forall|j: int| 0 <= j < k + 1 implies !is_real_type(#[trigger] types[j]) by {
                    if j > 0 {
                        assert(types[j] == rest[j - 1]);
                    }
                }
            } else {
                assert forall|j: int| 0 <= j < types.len() implies !is_real_type(#[trigger] types[j]) by {
                    if j > 0 {
                        assert(types[j] == rest[j - 1]);
                    }
                }
            }
        }
    }
}

} // verus!
