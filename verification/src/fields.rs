//! Request fields that xAI rejects: at the top level, for one model, and at any depth.

use vstd::prelude::*;
use crate::document::{all_contents, contents, entry_mut, member, members, names, take_out};
use crate::json::{at, text_of, Json, Step};
use crate::text::{
    after_last, after_last_occurrence, ascii_lowered, lemma_after_last, lemma_trimmed_start, trimmed,
    trimmed_start,
};

verus! {

/// The top-level fields that xAI rejects whatever the model.
pub open spec fn unsupported_fields() -> Set<Seq<char>> {
    set!["prompt_cache_retention"@, "safety_identifier"@]
}

/// The top-level sampling fields that grok-4.5 rejects.
pub open spec fn unsupported_sampling_fields() -> Set<Seq<char>> {
    set![
        "presence_penalty"@,
        "presencePenalty"@,
        "frequency_penalty"@,
        "frequencyPenalty"@,
        "stop"@,
    ]
}

/// The name of a model without a provider prefix such as `xai/`.
pub open spec fn bare_model(model: Seq<char>) -> Seq<char> {
    let name = trimmed(model);
    if name.contains('/') {
        trimmed(after_last(name, '/'))
    } else {
        name
    }
}

/// Whether the model of a request, without its provider prefix, is grok-4.5 in any ASCII case.
pub open spec fn targets_grok_45(body: Json) -> bool {
    match text_of(body.get("model"@)) {
        Some(model) => ascii_lowered(bare_model(model)) == ascii_lowered("grok-4.5"@),
        None => false,
    }
}

/// A request for grok-4.5 counts as such under any provider prefix.
pub proof fn law_provider_prefix(body: Json, provider: Seq<char>)
    requires
        text_of(body.get("model"@)) == Some(provider + "/grok-4.5"@),
    ensures
        targets_grok_45(body),
{
    reveal_strlit("/grok-4.5");
    reveal_strlit("grok-4.5");
    let tail = "/grok-4.5"@;
    assert(tail =~= seq!['/'] + "grok-4.5"@);
    assert(tail[8] == '5');
    lemma_trimmed_start(provider, tail);
    let head = trimmed_start(provider);
    let name = trimmed(provider + tail);
    assert(name == head + tail);
    assert(name[head.len() as int] == '/');
    assert(name =~= head.push('/') + "grok-4.5"@);
    lemma_after_last(head, '/', "grok-4.5"@);
    assert(trimmed("grok-4.5"@) == "grok-4.5"@);
}

/// Stripping a field leaves no mention of it, and changes a document if and only if it
/// mentions the field.
pub proof fn law_strip(document: Json, field: Seq<char>)
    ensures
        !document.strip(field).mentions(field),
        document.strip(field) == document <==> !document.mentions(field),
    decreases document,
{
    match document {
        Json::Arr(items) => {
            let after = document.strip(field)->Arr_0;
            assert forall|i: int| 0 <= i < items.len() implies !(#[trigger] after[i]).mentions(
                field,
            ) && (after[i] == items[i] <==> !items[i].mentions(field)) by {
                law_strip(items[i], field);
            }
            if !document.mentions(field) {
                assert forall|i: int| 0 <= i < items.len() implies after[i] == items[i] by {
                    assert(!items[i].mentions(field));
                }
                assert(after =~= items);
            }
        },
        Json::Obj(map) => {
            let after = document.strip(field)->Obj_0;
            assert forall|key: Seq<char>| #[trigger] after.contains_key(key) implies !after[key].mentions(
                field,
            ) && (after[key] == map[key] <==> !map[key].mentions(field)) by {
                law_strip(map[key], field);
            }
            if !document.mentions(field) {
                assert forall|key: Seq<char>| #[trigger] map.contains_key(key) implies after.contains_key(
                    key,
                ) && after[key] == map[key] by {
                    assert(!map[key].mentions(field));
                    assert(after.contains_key(key));
                }
                assert(after =~= map);
            } else if document.strip(field) == document {
                assert(!map.contains_key(field));
                let key = choose|key: Seq<char>| #[trigger]
                    map.contains_key(key) && map[key].mentions(field);
                assert(after.contains_key(key));
            }
        },
        _ => {},
    }
}

/// Whether the model of a request, which may carry a provider prefix, is grok-4.5.
pub fn request_targets_grok_45(body: &serde_json::Value) -> (yes: bool)
    ensures
        yes == targets_grok_45(contents(*body)),
{
    let model = match member(body, "model") {
        Some(model) => match model.as_str() {
            Some(model) => model,
            None => return false,
        },
        None => return false,
    };
    let mut name = model.trim();
    if let Some(rest) = after_last_occurrence(name, '/') {
        name = rest.trim();
    }
    name.eq_ignore_ascii_case("grok-4.5")
}

/// Takes one field out of a request. Returns whether it was there.
pub fn remove_top_level_field(body: &mut serde_json::Value, field: &str) -> (removed: bool)
    ensures
        contents(*final(body)) == contents(*old(body)).without(field@),
        removed == (contents(*old(body)).get(field@) is Some),
        removed == (contents(*final(body)) != contents(*old(body))),
{
    let ghost before = contents(*body);
    proof {
        if before is Obj && before.get(field@) is None {
            assert(before.without(field@)->Obj_0 =~= before->Obj_0);
        }
    }
    match body.as_object_mut() {
        Some(map) => take_out(map, field).is_some(),
        None => false,
    }
}

/// Takes every member named `field` out of a document, at any depth. Returns whether there
/// was one.
pub fn remove_field_recursive(value: &mut serde_json::Value, field: &str) -> (removed: bool)
    ensures
        contents(*final(value)) == contents(*old(value)).strip(field@),
        removed == contents(*old(value)).mentions(field@),
        removed == (contents(*final(value)) != contents(*old(value))),
    decreases contents(*old(value)), 1nat,
{
    let ghost before = contents(*value);
    proof {
        law_strip(before, field@);
    }
    if value.is_object() {
        if let Some(map) = value.as_object_mut() {
            return remove_from_members(map, field);
        }
        false
    } else if let Some(items) = value.as_array_mut() {
        let removed = remove_from_items(items, field);
        assert(all_contents(items@) =~= before.strip(field@)->Arr_0);
        removed
    } else {
        false
    }
}

/// Takes every member named `field` out of each item.
fn remove_from_items(items: &mut Vec<serde_json::Value>, field: &str) -> (removed: bool)
    ensures
        Json::Arr(all_contents(final(items)@)) == Json::Arr(all_contents(old(items)@)).strip(
            field@,
        ),
        removed == Json::Arr(all_contents(old(items)@)).mentions(field@),
    decreases all_contents(old(items)@), 0nat,
{
    let ghost before = all_contents(items@);
    let mut removed: bool = false;
    let mut i: usize = 0;
    while i < items.len()
        invariant
            i <= items.len(),
            before == all_contents(old(items)@),
            before.len() == items.len(),
            forall|j: int| i <= j < items.len() ==> contents(#[trigger] items@[j]) == before[j],
            forall|j: int|
                0 <= j < i ==> contents(#[trigger] items@[j]) == before[j].strip(field@),
            removed == exists|j: int| 0 <= j < i && (#[trigger] before[j]).mentions(field@),
        decreases items.len() - i,
    {
        assert(decreases_to!(before => before[i as int]));
        let found = remove_field_recursive(&mut items[i], field);
        removed = removed || found;
        i += 1;
    }
    assert(all_contents(items@) =~= Json::Arr(before).strip(field@)->Arr_0);
    removed
}

/// Takes the member named `field`, and every such member below, out of an object.
fn remove_from_members(
    map: &mut serde_json::Map<String, serde_json::Value>,
    field: &str,
) -> (removed: bool)
    ensures
        Json::Obj(members(*final(map))) == Json::Obj(members(*old(map))).strip(field@),
        removed == Json::Obj(members(*old(map))).mentions(field@),
    decreases Json::Obj(members(*old(map))), 0nat,
{
    let ghost whole = members(*map);
    let own = take_out(map, field).is_some();
    let ghost rest = members(*map);
    let keys = names(map);
    let mut below: bool = false;
    let mut i: usize = 0;
    while i < keys.len()
        invariant
            i <= keys.len(),
            whole == members(*old(map)),
            rest == whole.remove(field@),
            forall|j: int| 0 <= j < keys.len() ==> rest.contains_key((#[trigger] keys@[j])@),
            forall|j: int, k: int|
                0 <= j < k < keys.len() ==> (#[trigger] keys@[j])@ != (#[trigger] keys@[k])@,
            members(*map).dom() == rest.dom(),
            forall|j: int|
                i <= j < keys.len() ==> members(*map)[(#[trigger] keys@[j])@] == rest[keys@[j]@],
            forall|j: int|
                0 <= j < i ==> members(*map)[(#[trigger] keys@[j])@] == rest[keys@[j]@].strip(
                    field@,
                ),
            below == exists|j: int| 0 <= j < i && rest[(#[trigger] keys@[j])@].mentions(field@),
        decreases keys.len() - i,
    {
        let ghost key = keys@[i as int]@;
        assert(whole.contains_key(key) && rest[key] == whole[key]);
        assert(decreases_to!(Json::Obj(whole) => Json::Obj(whole)->Obj_0[key]));
        if let Some(child) = entry_mut(map, keys[i].as_str()) {
            let found = remove_field_recursive(child, field);
            below = below || found;
        }
        assert(members(*map).dom() =~= rest.dom());
        i += 1;
    }
    proof {
        let after = Json::Obj(whole).strip(field@)->Obj_0;
        assert forall|key: Seq<char>| #[trigger] rest.contains_key(key) implies members(*map)[key]
            == after[key] by {
            let j = choose|j: int| 0 <= j < keys.len() && (#[trigger] keys@[j])@ == key;
            assert(keys@[j]@ == key);
        }
        assert(members(*map) =~= after);
        if !own && Json::Obj(whole).mentions(field@) {
            let key = choose|key: Seq<char>| #[trigger]
                whole.contains_key(key) && whole[key].mentions(field@);
            assert(rest.contains_key(key));
            let j = choose|j: int| 0 <= j < keys.len() && (#[trigger] keys@[j])@ == key;
            assert(rest[keys@[j]@].mentions(field@));
        }
        if below {
            let j = choose|j: int|
                0 <= j < keys.len() && rest[(#[trigger] keys@[j])@].mentions(field@);
            assert(whole.contains_key(keys@[j]@) && whole[keys@[j]@].mentions(field@));
        }
    }
    own || below
}

/// Stripping goes through a document member by member and item by item, at any depth: the
/// stripped field goes, every other member and every item stays, and what has neither stays as
/// it is.
pub proof fn law_strip_parts(document: Json, field: Seq<char>)
    ensures
        document.strip(field).get(field) is None,
        forall|key: Seq<char>|
            key != field ==> #[trigger] document.strip(field).get(key) == match document.get(key) {
                Some(value) => Some(value.strip(field)),
                None => None,
            },
        document is Obj <==> document.strip(field) is Obj,
        match document {
            Json::Arr(items) => {
                &&& document.strip(field) matches Json::Arr(after) && after.len() == items.len()
                    && forall|i: int|
                    0 <= i < items.len() ==> #[trigger] after[i] == items[i].strip(field)
            },
            Json::Obj(_) => true,
            _ => document.strip(field) == document,
        },
{
}

/// A document mentions a field if and only if it is an object with that member, or a part of it
/// mentions the field.
pub proof fn law_mentions(document: Json, field: Seq<char>)
    ensures
        document.get(field) is Some ==> document.mentions(field),
        forall|key: Seq<char>|
            (#[trigger] document.get(key) matches Some(value) && value.mentions(field))
                ==> document.mentions(field),
        document matches Json::Arr(items) ==> (document.mentions(field) <==> exists|i: int|
            0 <= i < items.len() && (#[trigger] items[i]).mentions(field)),
        document is Obj && document.mentions(field) ==> document.get(field) is Some || exists|
            key: Seq<char>,
        |
            #[trigger] document.get(key) matches Some(value) && value.mentions(field),
        !(document is Arr) && !(document is Obj) ==> !document.mentions(field),
{
    match document {
        Json::Obj(map) => {
            assert forall|key: Seq<char>|
                (#[trigger] document.get(key) matches Some(value) && value.mentions(
                    field,
                )) implies document.mentions(field) by {
                assert(map.contains_key(key));
            }
            if document.mentions(field) && !map.contains_key(field) {
                let key = choose|key: Seq<char>| #[trigger]
                    map.contains_key(key) && map[key].mentions(field);
                assert(document.get(key) == Some(map[key]));
            }
        },
        Json::Arr(items) => {
            assert(document.mentions(field) <==> exists|i: int|
                0 <= i < document->Arr_0.len() && (#[trigger] document->Arr_0[i]).mentions(field));
        },
        _ => {},
    }
}

/// A request is for grok-4.5 if its model, trimmed and without all up to the last slash, is that
/// name in any ASCII case, and only then.
pub proof fn law_targets_grok_45(body: Json, model: Seq<char>, before: Seq<char>, after: Seq<char>)
    ensures
        !(body.get("model"@) matches Some(Json::Str(_))) ==> !targets_grok_45(body),
        body.get("model"@) == Some(Json::Str(model)) && !trimmed(model).contains('/') ==> (
        targets_grok_45(body) <==> ascii_lowered(trimmed(model)) == "grok-4.5"@),
        body.get("model"@) == Some(Json::Str(model)) && trimmed(model) == before.push('/') + after
            && !after.contains('/') ==> (targets_grok_45(body) <==> ascii_lowered(trimmed(after))
            == "grok-4.5"@),
{
    reveal_strlit("grok-4.5");
    assert(ascii_lowered("grok-4.5"@) =~= "grok-4.5"@);
    if trimmed(model) == before.push('/') + after && !after.contains('/') {
        lemma_after_last(before, '/', after);
        assert(trimmed(model)[before.len() as int] == '/');
    }
}

/// After stripping no path leads through the field. Any other path leads where it led before,
/// to what stood there without the field, and nowhere if it led nowhere.
pub proof fn law_strip_paths(document: Json, field: Seq<char>, path: Seq<Step>)
    ensures
        path.contains(Step::Member(field)) ==> at(document.strip(field), path) is None,
        !path.contains(Step::Member(field)) ==> at(document.strip(field), path) == match at(
            document,
            path,
        ) {
            Some(value) => Some(value.strip(field)),
            None => None,
        },
    decreases path.len(),
{
    if path.len() > 0 {
        let rest = path.drop_last();
        law_strip_paths(document, field, rest);
        assert(path =~= rest.push(path.last()));
        if rest.contains(Step::Member(field)) {
            let i = choose|i: int| 0 <= i < rest.len() && rest[i] == Step::Member(field);
            assert(path[i] == Step::Member(field));
        }
        if path.last() == Step::Member(field) {
            assert(path[path.len() - 1] == Step::Member(field));
        }
        if path.contains(Step::Member(field)) && path.last() != Step::Member(field) {
            let i = choose|i: int| 0 <= i < path.len() && path[i] == Step::Member(field);
            assert(rest[i] == Step::Member(field));
        }
        if let Some(above) = at(document, rest) {
            law_strip_parts(above, field);
        }
    }
}

/// A path leads through a member of some name only where a document mentions that name.
pub proof fn law_mentioned_path(document: Json, field: Seq<char>, path: Seq<Step>)
    requires
        path.contains(Step::Member(field)),
        at(document, path) is Some,
    ensures
        document.mentions(field),
{
    law_strip(document, field);
    law_strip_paths(document, field, path);
}

} // verus!
