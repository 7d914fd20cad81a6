//! Tool parameter schemas: every root becomes an object schema.

use vstd::prelude::*;
use vstd::hash_set::StringHashSet;
use crate::document::{
    all_contents, array, boolean, contents, entry, member, members, names, no_members, object, string,
};
use crate::json::{items_of, text_of, Json};
use crate::text::same_text;

verus! {

/// The first of the union keywords that a schema has at its root.
pub open spec fn union_key(schema: Json) -> Option<Seq<char>> {
    if schema.get("anyOf"@) is Some {
        Some("anyOf"@)
    } else if schema.get("oneOf"@) is Some {
        Some("oneOf"@)
    } else if schema.get("allOf"@) is Some {
        Some("allOf"@)
    } else {
        None
    }
}

/// Whether the root `type` of a schema is `object`.
pub open spec fn is_object_schema(schema: Json) -> bool {
    text_of(schema.get("type"@)) == Some("object"@)
}

/// Whether a schema has an object type and no union at its root.
pub open spec fn has_object_root(schema: Json) -> bool {
    is_object_schema(schema) && union_key(schema) is None
}

/// The properties of the object branches of a union. Where two branches declare one
/// property, the later branch counts.
pub open spec fn merged_properties(branches: Seq<Json>) -> Map<Seq<char>, Json>
    decreases branches.len(),
{
    if branches.len() == 0 {
        Map::empty()
    } else {
        let earlier = merged_properties(branches.drop_last());
        match branches.last().get("properties"@) {
            Some(Json::Obj(properties)) => if is_object_schema(branches.last()) {
                earlier.union_prefer_right(properties)
            } else {
                earlier
            },
            _ => earlier,
        }
    }
}

/// A list of names, extended by each text among `items` that it does not hold yet.
pub open spec fn with_new_names(names: Seq<Seq<char>>, items: Seq<Json>) -> Seq<Seq<char>>
    decreases items.len(),
{
    if items.len() == 0 {
        names
    } else {
        let earlier = with_new_names(names, items.drop_last());
        match items.last() {
            Json::Str(name) => if earlier.contains(name) {
                earlier
            } else {
                earlier.push(name)
            },
            _ => earlier,
        }
    }
}

/// The names that the object branches of a union require, each once, in the order in which
/// they first occur.
pub open spec fn merged_required(branches: Seq<Json>) -> Seq<Seq<char>>
    decreases branches.len(),
{
    if branches.len() == 0 {
        Seq::empty()
    } else {
        let earlier = merged_required(branches.drop_last());
        match branches.last().get("required"@) {
            Some(Json::Arr(items)) => if is_object_schema(branches.last()) {
                with_new_names(earlier, items)
            } else {
                earlier
            },
            _ => earlier,
        }
    }
}

/// Whether a branch of a union is an object schema that declares a property.
pub open spec fn declares_property(branch: Json, name: Seq<char>) -> bool {
    is_object_schema(branch) && match branch.get("properties"@) {
        Some(properties) => properties.get(name) is Some,
        None => false,
    }
}

/// Whether a branch of a union is an object schema that requires a name.
pub open spec fn requires_name(branch: Json, name: Seq<char>) -> bool {
    is_object_schema(branch) && match items_of(branch.get("required"@)) {
        Some(items) => items.contains(Json::Str(name)),
        None => false,
    }
}

/// The array of some texts.
pub open spec fn texts(names: Seq<Seq<char>>) -> Json {
    Json::Arr(names.map_values(|name: Seq<char>| Json::Str(name)))
}

/// The object schema that stands for a union: the description of the union, what its object
/// branches declare, and any further property.
pub open spec fn lifted_union(schema: Json, branches: Seq<Json>) -> Json {
    let properties = merged_properties(branches);
    let required = merged_required(branches);
    let typed = Json::Obj(Map::empty()).with("type"@, Json::Str("object"@));
    let described = match schema.get("description"@) {
        Some(description) => typed.with("description"@, description),
        None => typed,
    };
    let declared = if properties == no_members() {
        described
    } else {
        described.with("properties"@, Json::Obj(properties))
    };
    let demanding = if required.len() == 0 {
        declared
    } else {
        declared.with("required"@, texts(required))
    };
    demanding.with("additionalProperties"@, Json::Bool(true))
}

/// The schema of an object without declared properties, open to any.
pub open spec fn permissive_schema() -> Json {
    Json::Obj(Map::empty()).with("type"@, Json::Str("object"@)).with(
        "properties"@,
        Json::Obj(Map::empty()),
    ).with("additionalProperties"@, Json::Bool(true))
}

/// A schema with its root made an object schema: a union is lifted, a root of another type or
/// of none becomes an object, and what is no schema object at all becomes a permissive one.
pub open spec fn object_root(schema: Json) -> Json {
    match union_key(schema) {
        Some(key) => lifted_union(
            schema,
            match items_of(schema.get(key)) {
                Some(branches) => branches,
                None => Seq::empty(),
            },
        ),
        None => if is_object_schema(schema) {
            schema
        } else if schema is Obj {
            let typed = schema.with("type"@, Json::Str("object"@));
            if text_of(schema.get("type"@)) is Some && schema.get("additionalProperties"@) is None {
                typed.with("additionalProperties"@, Json::Bool(true))
            } else {
                typed
            }
        } else {
            permissive_schema()
        },
    }
}

/// The keywords of a schema are all different.
pub proof fn lemma_keywords()
    ensures
        "type"@.len() == 4,
        "description"@.len() == 11,
        "properties"@.len() == 10,
        "required"@.len() == 8,
        "additionalProperties"@.len() == 20,
        "anyOf"@.len() == 5,
        "oneOf"@.len() == 5,
        "allOf"@.len() == 5,
{
    reveal_strlit("type");
    reveal_strlit("description");
    reveal_strlit("properties");
    reveal_strlit("required");
    reveal_strlit("additionalProperties");
    reveal_strlit("anyOf");
    reveal_strlit("oneOf");
    reveal_strlit("allOf");
}

/// The root of a schema becomes an object schema without a union, and a schema that has such
/// a root, and no other, is left as it is.
pub proof fn law_object_root(schema: Json)
    ensures
        has_object_root(object_root(schema)),
        has_object_root(schema) <==> object_root(schema) == schema,
        object_root(object_root(schema)) == object_root(schema),
{
    lemma_keywords();
}

/// The merged properties are those that object branches declare, and no others.
pub proof fn law_merged_properties(branches: Seq<Json>, name: Seq<char>)
    ensures
        merged_properties(branches).contains_key(name) <==> exists|i: int|
            0 <= i < branches.len() && declares_property(#[trigger] branches[i], name),
    decreases branches.len(),
{
    if branches.len() > 0 {
        let rest = branches.drop_last();
        law_merged_properties(rest, name);
        if exists|i: int| 0 <= i < rest.len() && declares_property(#[trigger] rest[i], name) {
            let i = choose|i: int|
                0 <= i < rest.len() && declares_property(#[trigger] rest[i], name);
            assert(declares_property(branches[i], name));
        }
        if declares_property(branches.last(), name) {
            assert(declares_property(branches[branches.len() - 1], name));
        }
        if exists|i: int| 0 <= i < branches.len() && declares_property(
            #[trigger] branches[i],
            name,
        ) {
            let i = choose|i: int|
                0 <= i < branches.len() && declares_property(#[trigger] branches[i], name);
            if i < rest.len() {
                assert(declares_property(rest[i], name));
            }
        }
    }
}

/// The merged names are those that object branches require, each once.
pub proof fn law_merged_required(branches: Seq<Json>, name: Seq<char>)
    ensures
        merged_required(branches).contains(name) <==> exists|i: int|
            0 <= i < branches.len() && requires_name(#[trigger] branches[i], name),
        merged_required(branches).no_duplicates(),
    decreases branches.len(),
{
    if branches.len() > 0 {
        let rest = branches.drop_last();
        law_merged_required(rest, name);
        if let Some(Json::Arr(items)) = branches.last().get("required"@) {
            lemma_with_new_names(merged_required(rest), items, name);
        }
        if exists|i: int| 0 <= i < rest.len() && requires_name(#[trigger] rest[i], name) {
            let i = choose|i: int| 0 <= i < rest.len() && requires_name(#[trigger] rest[i], name);
            assert(requires_name(branches[i], name));
        }
        if requires_name(branches.last(), name) {
            assert(requires_name(branches[branches.len() - 1], name));
        }
        if exists|i: int| 0 <= i < branches.len() && requires_name(#[trigger] branches[i], name) {
            let i = choose|i: int|
                0 <= i < branches.len() && requires_name(#[trigger] branches[i], name);
            if i < rest.len() {
                assert(requires_name(rest[i], name));
            }
        }
    }
}

/// Extending a list of names adds the texts among some items, and no name twice.
proof fn lemma_with_new_names(names: Seq<Seq<char>>, items: Seq<Json>, name: Seq<char>)
    ensures
        with_new_names(names, items).contains(name) <==> names.contains(name) || items.contains(
            Json::Str(name),
        ),
        names.no_duplicates() ==> with_new_names(names, items).no_duplicates(),
    decreases items.len(),
{
    if items.len() > 0 {
        let rest = items.drop_last();
        let earlier = with_new_names(names, rest);
        lemma_with_new_names(names, rest, name);
        assert(items =~= rest.push(items.last()));
        assert(items.contains(Json::Str(name)) <==> rest.contains(Json::Str(name)) || items.last()
            == Json::Str(name)) by {
            if rest.contains(Json::Str(name)) {
                let i = choose|i: int| 0 <= i < rest.len() && rest[i] == Json::Str(name);
                assert(items[i] == Json::Str(name));
            }
            if items.last() == Json::Str(name) {
                assert(items[items.len() - 1] == Json::Str(name));
            }
        }
        if let Json::Str(added) = items.last() {
            assert(earlier.push(added).contains(name) <==> earlier.contains(name) || added == name)
                by {
                if earlier.contains(name) {
                    let i = choose|i: int| 0 <= i < earlier.len() && earlier[i] == name;
                    assert(earlier.push(added)[i] == name);
                }
                assert(earlier.push(added)[earlier.len() as int] == added);
            }
        }
    }
}

/// Enters all members of one map into another.
fn merge_properties(
    into: &mut serde_json::Map<String, serde_json::Value>,
    from: &serde_json::Map<String, serde_json::Value>,
)
    ensures
        members(*final(into)) == members(*old(into)).union_prefer_right(members(*from)),
{
    let keys = names(from);
    let mut i: usize = 0;
    while i < keys.len()
        invariant
            i <= keys.len(),
            forall|j: int|
                0 <= j < keys.len() ==> members(*from).contains_key((#[trigger] keys@[j])@),
            forall|k: Seq<char>| #[trigger]
                members(*into).contains_key(k) <==> members(*old(into)).contains_key(k) || exists|
                    j: int,
                | 0 <= j < i && (#[trigger] keys@[j])@ == k,
            forall|j: int|
                0 <= j < i ==> members(*into)[(#[trigger] keys@[j])@] == members(*from)[keys@[j]@],
            forall|k: Seq<char>|
                #![trigger members(*into)[k]]
                members(*old(into)).contains_key(k) && !(exists|j: int|
                    0 <= j < i && (#[trigger] keys@[j])@ == k) ==> members(*into)[k]
                    == members(*old(into))[k],
        decreases keys.len() - i,
    {
        if let Some(value) = entry(from, keys[i].as_str()) {
            into.insert(keys[i].clone(), value.clone());
        }
        i += 1;
    }
    assert(members(*into) =~= members(*old(into)).union_prefer_right(members(*from)));
}

/// Appends the texts among some values that a list does not hold yet.
fn merge_required(
    required: &mut Vec<String>,
    seen: &mut StringHashSet,
    items: &Vec<serde_json::Value>,
)
    requires
        forall|name: Seq<char>| #[trigger]
            old(seen)@.contains(name) <==> name_views(old(required)@).contains(name),
    ensures
        name_views(final(required)@) == with_new_names(
            name_views(old(required)@),
            all_contents(items@),
        ),
        forall|name: Seq<char>| #[trigger]
            final(seen)@.contains(name) <==> name_views(final(required)@).contains(name),
{
    let mut i: usize = 0;
    assert(all_contents(items@).take(0) =~= Seq::empty());
    while i < items.len()
        invariant
            i <= items.len(),
            name_views(required@) == with_new_names(
                name_views(old(required)@),
                all_contents(items@).take(i as int),
            ),
            forall|name: Seq<char>| #[trigger]
                seen@.contains(name) <==> name_views(required@).contains(name),
        decreases items.len() - i,
    {
        let ghost before = name_views(required@);
        proof {
            let taken = all_contents(items@).take(i + 1);
            assert(taken.drop_last() =~= all_contents(items@).take(i as int));
            assert(taken.last() == contents(items@[i as int]));
        }
        if let Some(text) = items[i].as_str() {
            if seen.insert(text.to_string()) {
                required.push(text.to_string());
                proof {
                    assert(name_views(required@) =~= before.push(text@));
                    assert(before.push(text@).last() == text@);
                    assert forall|name: Seq<char>| #[trigger] before.push(text@).contains(
                        name,
                    ) implies before.contains(name) || name == text@ by {}
                    assert forall|name: Seq<char>| #[trigger] before.contains(
                        name,
                    ) implies before.push(text@).contains(name) by {
                        let j = choose|j: int| 0 <= j < before.len() && before[j] == name;
                        assert(before.push(text@)[j] == name);
                    }
                }
            }
        }
        i += 1;
    }
    assert(all_contents(items@).take(i as int) =~= all_contents(items@));
}

/// The texts of some strings.
pub open spec fn name_views(strings: Seq<String>) -> Seq<Seq<char>> {
    strings.map_values(|string: String| string@)
}

/// The array of some strings.
fn text_array(strings: Vec<String>) -> (value: serde_json::Value)
    ensures
        contents(value) == texts(name_views(strings@)),
{
    let mut values: Vec<serde_json::Value> = Vec::new();
    let mut i: usize = 0;
    while i < strings.len()
        invariant
            i <= strings.len(),
            values.len() == i,
            forall|j: int|
                0 <= j < i ==> contents(#[trigger] values@[j]) == Json::Str(strings@[j]@),
        decreases strings.len() - i,
    {
        values.push(string(strings[i].clone()));
        i += 1;
    }
    assert(all_contents(values@) =~= name_views(strings@).map_values(
        |name: Seq<char>| Json::Str(name),
    ));
    array(values)
}

/// The keyword under which a schema has a union at its root.
fn find_union_key(schema: &serde_json::Value) -> (key: Option<&'static str>)
    ensures
        match key {
            Some(key) => union_key(contents(*schema)) == Some(key@),
            None => union_key(contents(*schema)) is None,
        },
{
    if member(schema, "anyOf").is_some() {
        Some("anyOf")
    } else if member(schema, "oneOf").is_some() {
        Some("oneOf")
    } else if member(schema, "allOf").is_some() {
        Some("allOf")
    } else {
        None
    }
}

/// Whether the root `type` of a schema is `object`.
fn declares_object(schema: &serde_json::Value) -> (yes: bool)
    ensures
        yes == is_object_schema(contents(*schema)),
{
    match member(schema, "type") {
        Some(kind) => match kind.as_str() {
            Some(text) => same_text(text, "object"),
            None => false,
        },
        None => false,
    }
}

/// The object schema that stands for a union with those branches.
fn lift_union(schema: &serde_json::Value, branches: Option<&Vec<serde_json::Value>>) -> (lifted:
    serde_json::Value)
    ensures
        contents(lifted) == lifted_union(
            contents(*schema),
            match branches {
                Some(branches) => all_contents(branches@),
                None => Seq::empty(),
            },
        ),
{
    let mut properties: serde_json::Map<String, serde_json::Value> = serde_json::Map::new();
    let mut required: Vec<String> = Vec::new();
    let mut seen = StringHashSet::new();
    let ghost all: Seq<Json> = match branches {
        Some(branches) => all_contents(branches@),
        None => Seq::empty(),
    };
    assert(name_views(required@) =~= Seq::empty());
    if let Some(branches) = branches {
        let mut i: usize = 0;
        assert(all.take(0) =~= Seq::empty());
        while i < branches.len()
            invariant
                i <= branches.len(),
                all == all_contents(branches@),
                members(properties) == merged_properties(all.take(i as int)),
                name_views(required@) == merged_required(all.take(i as int)),
                forall|name: Seq<char>| #[trigger]
                    seen@.contains(name) <==> name_views(required@).contains(name),
            decreases branches.len() - i,
        {
            let branch = &branches[i];
            proof {
                assert(all.take(i + 1).drop_last() =~= all.take(i as int));
                assert(all.take(i + 1).last() == contents(*branch));
            }
            if declares_object(branch) {
                if let Some(declared) = member(branch, "properties") {
                    if let Some(map) = declared.as_object() {
                        merge_properties(&mut properties, map);
                    }
                }
                if let Some(demanded) = member(branch, "required") {
                    if let Some(items) = demanded.as_array() {
                        merge_required(&mut required, &mut seen, items);
                    }
                }
            }
            i += 1;
        }
        assert(all.take(i as int) =~= all);
    }
    let mut lifted: serde_json::Map<String, serde_json::Value> = serde_json::Map::new();
    lifted.insert("type".to_string(), string("object".to_string()));
    if let Some(description) = member(schema, "description") {
        lifted.insert("description".to_string(), description.clone());
    }
    if !properties.is_empty() {
        lifted.insert("properties".to_string(), object(properties));
    }
    if !required.is_empty() {
        lifted.insert("required".to_string(), text_array(required));
    }
    lifted.insert("additionalProperties".to_string(), boolean(true));
    object(lifted)
}

/// Makes the root of a tool `parameters` schema an object schema. Returns whether that
/// changed it.
///
/// A union counts even beside `type: "object"`: a strict parser takes such a root for the
/// union and refuses it where a branch is no object.
pub fn coerce_parameter_root_to_object(params: &mut serde_json::Value) -> (changed: bool)
    ensures
        contents(*final(params)) == object_root(contents(*old(params))),
        changed == (contents(*final(params)) != contents(*old(params))),
{
    proof {
        law_object_root(contents(*params));
    }
    if let Some(key) = find_union_key(params) {
        let lifted = match member(params, key) {
            Some(branches) => lift_union(params, branches.as_array()),
            None => lift_union(params, None),
        };
        *params = lifted;
        return true;
    }
    if declares_object(params) {
        return false;
    }
    let displaced: bool = match member(params, "type") {
        Some(kind) => kind.is_string(),
        None => false,
    };
    if let Some(map) = params.as_object_mut() {
        map.insert("type".to_string(), string("object".to_string()));
        if displaced && entry(map, "additionalProperties").is_none() {
            map.insert("additionalProperties".to_string(), boolean(true));
        }
        proof {
            lemma_keywords();
        }
        return true;
    }
    let mut permissive: serde_json::Map<String, serde_json::Value> = serde_json::Map::new();
    permissive.insert("type".to_string(), string("object".to_string()));
    permissive.insert("properties".to_string(), object(serde_json::Map::new()));
    permissive.insert("additionalProperties".to_string(), boolean(true));
    *params = object(permissive);
    true
}

/// A schema without a union at its root keeps all its keywords but `type`, which becomes
/// `object`. It gains `additionalProperties`, as true, where it had none and its type was a text
/// other than `object`, and not otherwise. What is no schema object becomes one that declares no
/// property and admits any.
pub proof fn law_root_without_union(schema: Json, key: Seq<char>)
    requires
        schema.get("anyOf"@) is None,
        schema.get("oneOf"@) is None,
        schema.get("allOf"@) is None,
    ensures
        object_root(schema).get("type"@) == Some(Json::Str("object"@)),
        schema is Obj && key != "type"@ && key != "additionalProperties"@ ==> object_root(
            schema,
        ).get(key) == schema.get(key),
        schema.get("additionalProperties"@) matches Some(open) ==> object_root(schema).get(
            "additionalProperties"@,
        ) == Some(open),
        schema is Obj && schema.get("additionalProperties"@) is None ==> object_root(schema).get(
            "additionalProperties"@,
        ) == (match schema.get("type"@) {
            Some(Json::Str(text)) => if text == "object"@ {
                None
            } else {
                Some(Json::Bool(true))
            },
            _ => None,
        }),
        !(schema is Obj) ==> {
            &&& object_root(schema).get("properties"@) == Some(Json::Obj(Map::empty()))
            &&& object_root(schema).get("additionalProperties"@) == Some(Json::Bool(true))
            &&& key != "type"@ && key != "properties"@ && key != "additionalProperties"@
                ==> object_root(schema).get(key) is None
        },
{
    lemma_keywords();
}

/// A union at the root of a schema becomes an object schema: the description is kept, any
/// further property is admitted, and of the other keywords none is left but `properties` and
/// `required`. Of several unions the first of `anyOf`, `oneOf` and `allOf` counts.
pub proof fn law_root_with_union(schema: Json, union: Seq<char>, key: Seq<char>)
    requires
        union == "anyOf"@ || (union == "oneOf"@ && schema.get("anyOf"@) is None) || (union
            == "allOf"@ && schema.get("anyOf"@) is None && schema.get("oneOf"@) is None),
        schema.get(union) is Some,
    ensures
        object_root(schema).get("type"@) == Some(Json::Str("object"@)),
        object_root(schema).get("description"@) == schema.get("description"@),
        object_root(schema).get("additionalProperties"@) == Some(Json::Bool(true)),
        key != "type"@ && key != "description"@ && key != "additionalProperties"@ && key
            != "properties"@ && key != "required"@ ==> object_root(schema).get(key) is None,
        !(schema.get(union)->0 is Arr) ==> object_root(schema).get("properties"@) is None
            && object_root(schema).get("required"@) is None,
{
    lemma_keywords();
}

/// In place of a union each property of an object branch is declared as the last such branch
/// declares it, and no other property is declared.
pub proof fn law_union_property(
    schema: Json,
    union: Seq<char>,
    branches: Seq<Json>,
    i: int,
    name: Seq<char>,
    value: Json,
)
    requires
        union == "anyOf"@ || (union == "oneOf"@ && schema.get("anyOf"@) is None) || (union
            == "allOf"@ && schema.get("anyOf"@) is None && schema.get("oneOf"@) is None),
        schema.get(union) == Some(Json::Arr(branches)),
        0 <= i < branches.len(),
        forall|j: int|
            i < j < branches.len() && (#[trigger] branches[j]).get("type"@) == Some(
                Json::Str("object"@),
            ) ==> (branches[j].get("properties"@) matches Some(properties) ==> properties.get(
                name,
            ) is None),
        branches[i].get("type"@) == Some(Json::Str("object"@)),
        branches[i].get("properties"@) matches Some(properties) && properties.get(name) == Some(
            value,
        ),
    ensures
        object_root(schema).get("properties"@) matches Some(properties) && properties.get(name)
            == Some(value),
{
    lemma_keywords();
    lemma_last_declaration(branches, i, name, value);
}

/// The last declaration of a property is the one that counts.
proof fn lemma_last_declaration(branches: Seq<Json>, i: int, name: Seq<char>, value: Json)
    requires
        0 <= i < branches.len(),
        forall|j: int| i < j < branches.len() ==> !declares_property(#[trigger] branches[j], name),
        declares_property(branches[i], name),
        branches[i].get("properties"@)->0.get(name) == Some(value),
    ensures
        merged_properties(branches).contains_key(name),
        merged_properties(branches)[name] == value,
    decreases branches.len(),
{
    if i < branches.len() - 1 {
        let rest = branches.drop_last();
        assert forall|j: int| i < j < rest.len() implies !declares_property(
            #[trigger] rest[j],
            name,
        ) by {
            assert(rest[j] == branches[j]);
        }
        lemma_last_declaration(rest, i, name, value);
        assert(!declares_property(branches[branches.len() - 1], name));
    }
}

/// In place of a union only properties of object branches are declared, and `properties` is
/// absent rather than empty.
pub proof fn law_union_declares_no_more(
    schema: Json,
    union: Seq<char>,
    branches: Seq<Json>,
    name: Seq<char>,
)
    requires
        union == "anyOf"@ || (union == "oneOf"@ && schema.get("anyOf"@) is None) || (union
            == "allOf"@ && schema.get("anyOf"@) is None && schema.get("oneOf"@) is None),
        schema.get(union) == Some(Json::Arr(branches)),
    ensures
        object_root(schema).get("properties"@) matches Some(properties) ==> {
            &&& properties matches Json::Obj(members) && members != Map::<Seq<char>, Json>::empty()
            &&& properties.get(name) is Some ==> exists|i: int|
                0 <= i < branches.len() && (#[trigger] branches[i]).get("type"@) == Some(
                    Json::Str("object"@),
                ) && branches[i].get("properties"@) is Some && branches[i].get(
                    "properties"@,
                )->0.get(name) is Some
        },
{
    lemma_keywords();
    law_merged_properties(branches, name);
}

/// In place of a union exactly the names are required that an object branch requires, each
/// once, and `required` is absent rather than empty.
pub proof fn law_union_required(
    schema: Json,
    union: Seq<char>,
    branches: Seq<Json>,
    name: Seq<char>,
)
    requires
        union == "anyOf"@ || (union == "oneOf"@ && schema.get("anyOf"@) is None) || (union
            == "allOf"@ && schema.get("anyOf"@) is None && schema.get("oneOf"@) is None),
        schema.get(union) == Some(Json::Arr(branches)),
    ensures
        (object_root(schema).get("required"@) matches Some(Json::Arr(names)) && names.contains(
            Json::Str(name),
        )) <==> exists|i: int|
            0 <= i < branches.len() && (#[trigger] branches[i]).get("type"@) == Some(
                Json::Str("object"@),
            ) && (branches[i].get("required"@) matches Some(Json::Arr(items)) && items.contains(
                Json::Str(name),
            )),
        object_root(schema).get("required"@) matches Some(required) ==> {
            &&& required matches Json::Arr(names) && names.len() > 0 && names.no_duplicates()
                && forall|i: int| 0 <= i < names.len() ==> #[trigger] names[i] is Str
        },
{
    lemma_keywords();
    law_merged_required(branches, name);
    let merged = merged_required(branches);
    let names = texts(merged)->Arr_0;
    assert(names.len() == merged.len());
    assert forall|i: int| 0 <= i < names.len() implies #[trigger] names[i] == Json::Str(
        merged[i],
    ) by {}
    if merged.contains(name) {
        let i = choose|i: int| 0 <= i < merged.len() && merged[i] == name;
        assert(names[i] == Json::Str(name));
    }
    if names.contains(Json::Str(name)) {
        let i = choose|i: int| 0 <= i < names.len() && names[i] == Json::Str(name);
        assert(merged[i] == name);
    }
    assert(forall|i: int|
        0 <= i < branches.len() ==> (requires_name(#[trigger] branches[i], name) <==> (branches[i].get(
            "type"@,
        ) == Some(Json::Str("object"@)) && (branches[i].get("required"@) matches Some(
            Json::Arr(items),
        ) && items.contains(Json::Str(name))))));
    if exists|i: int| 0 <= i < branches.len() && requires_name(#[trigger] branches[i], name) {
        let i = choose|i: int|
            0 <= i < branches.len() && requires_name(#[trigger] branches[i], name);
        assert(branches[i].get("type"@) == Some(Json::Str("object"@)));
    }
}

/// A name that comes first in a union is required first: of two required names, the earlier one
/// has an occurrence before all occurrences of the later one.
pub proof fn law_union_required_order(
    schema: Json,
    union: Seq<char>,
    branches: Seq<Json>,
    names: Seq<Json>,
    p: int,
    q: int,
    i: int,
    j: int,
)
    requires
        union == "anyOf"@ || (union == "oneOf"@ && schema.get("anyOf"@) is None) || (union
            == "allOf"@ && schema.get("anyOf"@) is None && schema.get("oneOf"@) is None),
        schema.get(union) == Some(Json::Arr(branches)),
        object_root(schema).get("required"@) == Some(Json::Arr(names)),
        0 <= p < q < names.len(),
        0 <= i < branches.len(),
        branches[i].get("type"@) == Some(Json::Str("object"@)),
        branches[i].get("required"@) matches Some(Json::Arr(items)) && 0 <= j < items.len()
            && items[j] == names[q],
    ensures
        exists|k: int, l: int|
            0 <= k < branches.len() && (k < i || k == i && l < j) && branches[k].get("type"@)
                == Some(Json::Str("object"@)) && (branches[k].get("required"@) matches Some(
                Json::Arr(items),
            ) && 0 <= l < items.len() && #[trigger] required_at(branches, k, l) == names[p]),
{
    lemma_keywords();
    let merged = merged_required(branches);
    assert(names =~= texts(merged)->Arr_0);
    assert(names[p] == Json::Str(merged[p]) && names[q] == Json::Str(merged[q]));
    lemma_required_order(branches, p, q, i, j);
}

/// The item at a position of the list `required` of a branch.
pub open spec fn required_at(branches: Seq<Json>, branch: int, item: int) -> Json {
    match branches[branch].get("required"@) {
        Some(Json::Arr(items)) => items[item],
        _ => Json::Null,
    }
}

/// Extending a list of names leaves it in front, and each added name is among the items.
proof fn lemma_added_names(names: Seq<Seq<char>>, items: Seq<Json>)
    ensures
        with_new_names(names, items).len() >= names.len(),
        forall|p: int|
            0 <= p < names.len() ==> #[trigger] with_new_names(names, items)[p] == names[p],
        forall|p: int|
            names.len() <= p < with_new_names(names, items).len() ==> items.contains(
                Json::Str(#[trigger] with_new_names(names, items)[p]),
            ),
    decreases items.len(),
{
    if items.len() > 0 {
        let rest = items.drop_last();
        let earlier = with_new_names(names, rest);
        let all = with_new_names(names, items);
        lemma_added_names(names, rest);
        assert forall|p: int| 0 <= p < names.len() implies #[trigger] all[p] == names[p] by {
            assert(earlier[p] == names[p]);
        }
        assert forall|p: int| names.len() <= p < all.len() implies items.contains(
            Json::Str(#[trigger] all[p]),
        ) by {
            if p < earlier.len() {
                assert(rest.contains(Json::Str(earlier[p])));
                let l = choose|l: int| 0 <= l < rest.len() && rest[l] == Json::Str(earlier[p]);
                assert(items[l] == Json::Str(all[p]));
            } else {
                assert(items[items.len() - 1] == Json::Str(all[p]));
            }
        }
    }
}

/// Added names stand in the order in which they first occur.
proof fn lemma_added_names_order(
    names: Seq<Seq<char>>,
    items: Seq<Json>,
    p: int,
    q: int,
    j: int,
) -> (l: int)
    requires
        names.len() <= p < q < with_new_names(names, items).len(),
        0 <= j < items.len(),
        items[j] == Json::Str(with_new_names(names, items)[q]),
    ensures
        0 <= l < j,
        items[l] == Json::Str(with_new_names(names, items)[p]),
    decreases items.len(),
{
    let rest = items.drop_last();
    let earlier = with_new_names(names, rest);
    let all = with_new_names(names, items);
    lemma_added_names(names, rest);
    if q < earlier.len() && j < rest.len() {
        assert(all[q] == earlier[q] && all[p] == earlier[p]);
        lemma_added_names_order(names, rest, p, q, j)
    } else {
        if j < rest.len() {
            lemma_with_new_names(names, rest, all[q]);
            assert(rest[j] == Json::Str(all[q]));
            assert(earlier.contains(all[q]));
        }
        assert(all[p] == earlier[p]);
        assert(rest.contains(Json::Str(earlier[p])));
        let l = choose|l: int| 0 <= l < rest.len() && rest[l] == Json::Str(earlier[p]);
        assert(items[l] == rest[l]);
        l
    }
}

/// Merged names stand in the order in which they first occur.
proof fn lemma_required_order(branches: Seq<Json>, p: int, q: int, i: int, j: int)
    requires
        0 <= p < q < merged_required(branches).len(),
        0 <= i < branches.len(),
        is_object_schema(branches[i]),
        branches[i].get("required"@) matches Some(Json::Arr(items)) && 0 <= j < items.len()
            && items[j] == Json::Str(merged_required(branches)[q]),
    ensures
        exists|k: int, l: int|
            0 <= k < branches.len() && (k < i || k == i && l < j) && is_object_schema(branches[k])
                && (branches[k].get("required"@) matches Some(Json::Arr(items)) && 0 <= l
                < items.len() && #[trigger] required_at(branches, k, l) == Json::Str(
                merged_required(branches)[p],
            )),
    decreases branches.len(),
{
    let rest = branches.drop_last();
    let earlier = merged_required(rest);
    let merged = merged_required(branches);
    let own = branches[i].get("required"@)->0->Arr_0;
    if let Some(Json::Arr(items)) = branches.last().get("required"@) {
        lemma_added_names(earlier, items);
    }
    if i < rest.len() {
        law_merged_required(rest, merged[q]);
        law_merged_required(branches, merged[q]);
        assert(own.contains(Json::Str(merged[q])));
        assert(requires_name(rest[i], merged[q]));
        let r = choose|r: int| 0 <= r < earlier.len() && earlier[r] == merged[q];
        assert(merged[r] == earlier[r]);
        assert(r == q);
        assert(merged[p] == earlier[p]);
        lemma_required_order(rest, p, q, i, j);
        let (k, l) = choose|k: int, l: int|
            0 <= k < rest.len() && (k < i || k == i && l < j) && is_object_schema(rest[k]) && (
            rest[k].get("required"@) matches Some(Json::Arr(items)) && 0 <= l < items.len()
                && #[trigger] required_at(rest, k, l) == Json::Str(earlier[p]));
        assert(required_at(branches, k, l) == Json::Str(merged[p]));
    } else if p < earlier.len() {
        assert(merged[p] == earlier[p]);
        assert(earlier.contains(earlier[p]));
        law_merged_required(rest, earlier[p]);
        let k = choose|k: int|
            0 <= k < rest.len() && requires_name(#[trigger] rest[k], earlier[p]);
        let items = rest[k].get("required"@)->0->Arr_0;
        let l = choose|l: int| 0 <= l < items.len() && items[l] == Json::Str(earlier[p]);
        assert(required_at(branches, k, l) == Json::Str(merged[p]));
    } else {
        let l = lemma_added_names_order(earlier, own, p, q, j);
        assert(required_at(branches, i, l) == Json::Str(merged[p]));
    }
}

} // verus!
