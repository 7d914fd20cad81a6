//! Input items: reasoning items with a null `content`, and carriers of additional tools.

use vstd::prelude::*;
use crate::document::{all_contents, contents, member, member_mut, take_out};
use crate::json::{items_of, lemma_with, Json};
use crate::text::same_text;
use crate::tool::{kind, kind_of};

verus! {

/// Whether an input item is a carrier of additional tools.
pub open spec fn is_carrier(item: Json) -> bool {
    kind(item) == "additional_tools"@
}

/// Whether an input item is a reasoning item whose `content` is there but null.
pub open spec fn has_null_reasoning(item: Json) -> bool {
    kind(item) == "reasoning"@ && item.get("content"@) == Some(Json::Null)
}

/// An input item without the null `content` of a reasoning item.
pub open spec fn without_null_reasoning(item: Json) -> Json {
    if has_null_reasoning(item) {
        item.without("content"@)
    } else {
        item
    }
}

/// A request whose reasoning items have no null `content`.
pub open spec fn with_clean_reasoning(body: Json) -> Json {
    match items_of(body.get("input"@)) {
        Some(items) => body.with(
            "input"@,
            Json::Arr(items.map_values(|item: Json| without_null_reasoning(item))),
        ),
        None => body,
    }
}

/// Cleaning a reasoning item takes its null `content` away, and changes it if and only if it
/// has one. All other members are kept.
pub proof fn lemma_without_null_reasoning(item: Json)
    ensures
        !has_null_reasoning(without_null_reasoning(item)),
        has_null_reasoning(item) <==> without_null_reasoning(item) != item,
        forall|key: Seq<char>|
            key != "content"@ ==> #[trigger] without_null_reasoning(item).get(key) == item.get(key),
{
}

/// After cleaning no reasoning item of a request has a null `content`, and a request of which
/// that holds, and no other, is left as it is. All members but `input` are kept.
pub proof fn law_clean_reasoning(body: Json)
    ensures
        items_of(with_clean_reasoning(body).get("input"@)) matches Some(items) ==> forall|i: int|
            0 <= i < items.len() ==> !has_null_reasoning(#[trigger] items[i]),
        with_clean_reasoning(body) == body <==> (items_of(body.get("input"@)) matches Some(items)
            ==> forall|i: int| 0 <= i < items.len() ==> !has_null_reasoning(#[trigger] items[i])),
        forall|key: Seq<char>|
            key != "input"@ ==> #[trigger] with_clean_reasoning(body).get(key) == body.get(key),
        with_clean_reasoning(body) is Obj <==> body is Obj,
{
    if let Some(items) = items_of(body.get("input"@)) {
        let after = items.map_values(|item: Json| without_null_reasoning(item));
        lemma_with(body, "input"@, Json::Arr(after));
        assert forall|i: int| 0 <= i < items.len() implies !has_null_reasoning(#[trigger] after[i])
            && (has_null_reasoning(items[i]) <==> after[i] != items[i]) by {
            lemma_without_null_reasoning(items[i]);
        }
        if forall|i: int| 0 <= i < items.len() ==> !has_null_reasoning(#[trigger] items[i]) {
            assert(after =~= items);
        }
        if after == items {
            assert forall|i: int| 0 <= i < items.len() implies !has_null_reasoning(
                #[trigger] items[i],
            ) by {
                assert(after[i] == items[i]);
            }
        }
    }
}

/// Whether an input item is a carrier of additional tools.
pub fn is_additional_tools_item(item: &serde_json::Value) -> (yes: bool)
    ensures
        yes == is_carrier(contents(*item)),
{
    same_text(kind_of(item), "additional_tools")
}

/// Takes the null `content` of a reasoning item away. Returns whether there was one.
fn strip_item(item: &mut serde_json::Value) -> (changed: bool)
    ensures
        contents(*final(item)) == without_null_reasoning(contents(*old(item))),
        changed == has_null_reasoning(contents(*old(item))),
{
    if !same_text(kind_of(item), "reasoning") {
        return false;
    }
    let is_null = match member(item, "content") {
        Some(content) => content.is_null(),
        None => false,
    };
    if !is_null {
        return false;
    }
    if let Some(map) = item.as_object_mut() {
        take_out(map, "content");
    }
    true
}

/// Takes `content: null` away from the reasoning items of a request. Returns whether there
/// was one.
pub fn strip_null_reasoning_content(body: &mut serde_json::Value) -> (changed: bool)
    ensures
        contents(*final(body)) == with_clean_reasoning(contents(*old(body))),
        changed == (contents(*final(body)) != contents(*old(body))),
{
    let ghost whole = contents(*body);
    proof {
        law_clean_reasoning(whole);
    }
    let listed = match member_mut(body, "input") {
        Some(listed) => listed,
        None => return false,
    };
    let ghost listing = contents(*listed);
    let items = match listed.as_array_mut() {
        Some(items) => items,
        None => {
            proof {
                lemma_with(whole, "input"@, listing);
            }
            return false;
        },
    };
    let ghost before = all_contents(items@);
    let mut changed: bool = false;
    let mut i: usize = 0;
    while i < items.len()
        invariant
            i <= items.len(),
            before.len() == items.len(),
            forall|j: int| i <= j < items.len() ==> contents(#[trigger] items@[j]) == before[j],
            forall|j: int|
                0 <= j < i ==> contents(#[trigger] items@[j]) == without_null_reasoning(before[j]),
            changed == exists|j: int| 0 <= j < i && has_null_reasoning(#[trigger] before[j]),
        decreases items.len() - i,
    {
        assert(before[i as int] == contents(items@[i as int]));
        let item_changed = strip_item(&mut items[i]);
        changed = changed || item_changed;
        i += 1;
    }
    assert(all_contents(items@) =~= before.map_values(|item: Json| without_null_reasoning(item)));
    changed
}

/// A reasoning item loses a null `content`, whatever other members it has, and nothing else.
/// Any other item, and a reasoning item with another `content` or none, stays as it is.
pub proof fn law_reasoning_item(item: Json)
    ensures
        kind(item) == "reasoning"@ && item.get("content"@) == Some(Json::Null)
            ==> without_null_reasoning(item).get("content"@) is None,
        forall|key: Seq<char>|
            key != "content"@ ==> #[trigger] without_null_reasoning(item).get(key) == item.get(key),
        kind(item) != "reasoning"@ || item.get("content"@) != Some(Json::Null)
            ==> without_null_reasoning(item) == item,
        without_null_reasoning(item) is Obj <==> item is Obj,
{
}

/// Each item of the input of a request is cleaned on its own, in its place. No other member
/// changes, and an input that is no list stays.
pub proof fn law_reasoning_request(body: Json)
    ensures
        match body.get("input"@) {
            Some(Json::Arr(items)) => {
                &&& with_clean_reasoning(body).get("input"@) matches Some(Json::Arr(after))
                    && after.len() == items.len() && forall|i: int|
                    0 <= i < items.len() ==> #[trigger] after[i] == without_null_reasoning(items[i])
            },
            _ => with_clean_reasoning(body) == body,
        },
        forall|key: Seq<char>|
            key != "input"@ ==> #[trigger] with_clean_reasoning(body).get(key) == body.get(key),
{
    law_clean_reasoning(body);
}

/// After cleaning, no item of the input whose type is `reasoning` has a null `content`, whatever
/// other members it has.
pub proof fn law_no_null_reasoning(body: Json)
    ensures
        with_clean_reasoning(body).get("input"@) matches Some(Json::Arr(items)) ==> forall|i: int|
            0 <= i < items.len() && kind(#[trigger] items[i]) == "reasoning"@ ==> items[i].get(
                "content"@,
            ) != Some(Json::Null),
{
    law_clean_reasoning(body);
}

} // verus!
