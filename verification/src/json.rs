//! The mathematical model of a JSON document.

use vstd::prelude::*;

verus! {

/// A JSON document as a mathematical value. Objects are maps, so the order of their members
/// does not count, and no member occurs twice.
pub enum Json {
    Null,
    Bool(bool),
    Number(serde_json::Number),
    Str(Seq<char>),
    Arr(Seq<Json>),
    Obj(Map<Seq<char>, Json>),
}

impl Json {
    /// The member `key` of an object; nothing for any other document.
    pub open spec fn get(self, key: Seq<char>) -> Option<Json> {
        match self {
            Json::Obj(members) => if members.contains_key(key) {
                Some(members[key])
            } else {
                None
            },
            _ => None,
        }
    }

    /// The object with the member `key` set to `value`; any other document unchanged.
    pub open spec fn with(self, key: Seq<char>, value: Json) -> Json {
        match self {
            Json::Obj(members) => Json::Obj(members.insert(key, value)),
            _ => self,
        }
    }

    /// The object without the member `key`; any other document unchanged.
    pub open spec fn without(self, key: Seq<char>) -> Json {
        match self {
            Json::Obj(members) => Json::Obj(members.remove(key)),
            _ => self,
        }
    }

    /// The object without any member named in `keys`; any other document unchanged.
    pub open spec fn without_all(self, keys: Set<Seq<char>>) -> Json {
        match self {
            Json::Obj(members) => Json::Obj(members.remove_keys(keys)),
            _ => self,
        }
    }

    /// The document without any object member named `field`, at any depth.
    pub open spec fn strip(self, field: Seq<char>) -> Json
        decreases self,
    {
        match self {
            Json::Arr(items) => Json::Arr(
                Seq::new(
                    items.len(),
                    |i: int|
                        if 0 <= i < items.len() {
                            items[i].strip(field)
                        } else {
                            Json::Null
                        },
                ),
            ),
            Json::Obj(members) => Json::Obj(
                Map::new(
                    |key: Seq<char>| key != field && members.contains_key(key),
                    |key: Seq<char>|
                        if members.contains_key(key) {
                            members[key].strip(field)
                        } else {
                            Json::Null
                        },
                ),
            ),
            _ => self,
        }
    }

    /// Whether an object member is named `field`, at any depth.
    pub open spec fn mentions(self, field: Seq<char>) -> bool
        decreases self,
    {
        match self {
            Json::Arr(items) => exists|i: int|
                0 <= i < items.len() && (#[trigger] items[i]).mentions(field),
            Json::Obj(members) => members.contains_key(field) || exists|key: Seq<char>| #[trigger]
                members.contains_key(key) && members[key].mentions(field),
            _ => false,
        }
    }
}

/// The text of a document that is a string.
pub open spec fn text_of(document: Option<Json>) -> Option<Seq<char>> {
    match document {
        Some(Json::Str(text)) => Some(text),
        _ => None,
    }
}

/// The items of a document that is an array.
pub open spec fn items_of(document: Option<Json>) -> Option<Seq<Json>> {
    match document {
        Some(Json::Arr(items)) => Some(items),
        _ => None,
    }
}

/// Setting a member to a value changes an object if and only if it had another value there.
pub proof fn lemma_with(document: Json, key: Seq<char>, value: Json)
    requires
        document.get(key) is Some,
    ensures
        document.with(key, value).get(key) == Some(value),
        (document.with(key, value) == document) <==> document.get(key) == Some(value),
{
    if document.get(key) == Some(value) {
        assert(document.with(key, value)->Obj_0 =~= document->Obj_0);
    }
}

/// Filtering keeps a list as it is if and only if all its items pass, and otherwise shortens
/// it. What is kept are items that pass.
pub proof fn lemma_filter(items: Seq<Json>, pass: spec_fn(Json) -> bool)
    ensures
        items.filter(pass).len() <= items.len(),
        items.filter(pass).len() == items.len() <==> items.filter(pass) == items,
        items.filter(pass) == items <==> forall|i: int|
            0 <= i < items.len() ==> pass(#[trigger] items[i]),
        forall|i: int| 0 <= i < items.filter(pass).len() ==> pass(#[trigger] items.filter(pass)[i]),
    decreases items.len(),
{
    reveal(Seq::filter);
    if items.len() > 0 {
        let rest = items.drop_last();
        lemma_filter(rest, pass);
        if forall|i: int| 0 <= i < items.len() ==> pass(#[trigger] items[i]) {
            assert forall|i: int| 0 <= i < rest.len() implies pass(#[trigger] rest[i]) by {
                assert(rest[i] == items[i]);
            }
            assert(items.filter(pass) =~= items);
        }
        if items.filter(pass) == items {
            assert(pass(items.last()));
            assert(rest.filter(pass) =~= rest);
            assert forall|i: int| 0 <= i < items.len() implies pass(#[trigger] items[i]) by {
                if i < rest.len() {
                    assert(pass(rest[i]));
                }
            }
        }
        if items.filter(pass).len() == items.len() {
            assert(pass(items.last()));
            assert(items.filter(pass) =~= items);
        }
    } else {
        assert(items.filter(pass) =~= items);
    }
}

/// Setting a member, or taking one out, leaves all other members of an object. What is no object
/// has no members, and neither changes it.
pub proof fn law_members(document: Json, key: Seq<char>, other: Seq<char>, value: Json)
    ensures
        document.without(key).get(key) is None,
        document is Obj ==> document.with(key, value).get(key) == Some(value),
        other != key ==> document.without(key).get(other) == document.get(other),
        other != key ==> document.with(key, value).get(other) == document.get(other),
        document is Obj ==> document.without(key) is Obj && document.with(key, value) is Obj,
        !(document is Obj) ==> document.get(key) is None && document.without(key) == document
            && document.with(key, value) == document,
{
}

/// One step down into a document.
pub enum Step {
    /// To the member of an object.
    Member(Seq<char>),
    /// To an item of an array.
    Item(int),
}

/// What stands in a document at the end of a path, if the path leads anywhere.
pub open spec fn at(document: Json, path: Seq<Step>) -> Option<Json>
    decreases path.len(),
{
    if path.len() == 0 {
        Some(document)
    } else {
        match at(document, path.drop_last()) {
            Some(above) => match (path.last(), above) {
                (Step::Member(key), _) => above.get(key),
                (Step::Item(i), Json::Arr(items)) => if 0 <= i < items.len() {
                    Some(items[i])
                } else {
                    None
                },
                _ => None,
            },
            None => None,
        }
    }
}

} // verus!
