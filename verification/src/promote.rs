//! Additional tools: what carrier items of the input hold moves to the top-level tools.

use vstd::prelude::*;
use vstd::hash_set::StringHashSet;
use crate::document::{all_contents, array, contents, json_text, member, to_text};
use crate::input::{is_additional_tools_item, is_carrier};
use crate::json::{items_of, lemma_filter, lemma_with, Json};
use crate::text::{same_text, trimmed};
use crate::tool::{kind, kind_of, trimmed_member, trimmed_text};

verus! {

/// What makes two tool declarations count as one tool.
pub enum Identity {
    /// The type and the name.
    Named(Seq<char>, Seq<char>),
    /// The label of an MCP server without a name.
    Labelled(Seq<char>),
    /// The JSON text of any other tool.
    Spelled(Seq<char>),
}

/// The identity of a tool.
pub open spec fn identity(tool: Json) -> Identity {
    let name = trimmed_text(tool.get("name"@));
    let label = trimmed_text(tool.get("server_label"@));
    if kind(tool).len() > 0 && name.len() > 0 {
        Identity::Named(kind(tool), name)
    } else if kind(tool) == "mcp"@ && label.len() > 0 {
        Identity::Labelled(label)
    } else {
        Identity::Spelled(json_text(tool))
    }
}

/// The text that stands for an identity.
pub open spec fn identity_key(identity: Identity) -> Seq<char> {
    match identity {
        Identity::Named(kind, name) => "type:"@ + kind + "\u{0}name:"@ + name,
        Identity::Labelled(label) => "type:mcp\u{0}server_label:"@ + label,
        Identity::Spelled(text) => "json:"@ + text,
    }
}

/// The key by which a tool is told apart from others.
pub open spec fn dedup_key(tool: Json) -> Seq<char> {
    identity_key(identity(tool))
}

/// Whether a list of tools has one with that key.
pub open spec fn has_key(tools: Seq<Json>, key: Seq<char>) -> bool {
    exists|i: int| 0 <= i < tools.len() && dedup_key(#[trigger] tools[i]) == key
}

/// A list of tools, extended by each of some more tools whose key it does not have yet.
pub open spec fn with_new_tools(tools: Seq<Json>, more: Seq<Json>) -> Seq<Json>
    decreases more.len(),
{
    if more.len() == 0 {
        tools
    } else {
        let earlier = with_new_tools(tools, more.drop_last());
        if has_key(earlier, dedup_key(more.last())) {
            earlier
        } else {
            earlier.push(more.last())
        }
    }
}

/// The tools that an item holds if it is a carrier.
pub open spec fn tools_in(item: Json) -> Seq<Json> {
    match items_of(item.get("tools"@)) {
        Some(tools) => if is_carrier(item) {
            tools
        } else {
            Seq::empty()
        },
        None => Seq::empty(),
    }
}

/// The tools that the carriers among some items hold, in order.
pub open spec fn carried_tools(items: Seq<Json>) -> Seq<Json>
    decreases items.len(),
{
    if items.len() == 0 {
        Seq::empty()
    } else {
        carried_tools(items.drop_last()) + tools_in(items.last())
    }
}

/// Whether a list of items has a carrier.
pub open spec fn has_carrier(items: Seq<Json>) -> bool {
    exists|i: int| 0 <= i < items.len() && is_carrier(#[trigger] items[i])
}

/// The items of a list that are no carriers.
pub open spec fn without_carriers(items: Seq<Json>) -> Seq<Json> {
    items.filter(|item: Json| !is_carrier(item))
}

/// The top-level tools of a request.
pub open spec fn top_level_tools(body: Json) -> Seq<Json> {
    match items_of(body.get("tools"@)) {
        Some(tools) => tools,
        None => Seq::empty(),
    }
}

/// The tools of a request once those of its carriers are promoted.
pub open spec fn promoted_tools(body: Json, items: Seq<Json>) -> Seq<Json> {
    with_new_tools(top_level_tools(body), carried_tools(items))
}

/// A request with the tools of its carriers promoted to the top level, and without the carriers.
pub open spec fn promoted(body: Json) -> Json {
    match items_of(body.get("input"@)) {
        Some(items) => if has_carrier(items) {
            let freed = body.with("input"@, Json::Arr(without_carriers(items)));
            let tools = promoted_tools(body, items);
            if tools.len() > top_level_tools(body).len() {
                freed.with("tools"@, Json::Arr(tools))
            } else {
                freed
            }
        } else {
            body
        },
        None => body,
    }
}

/// After promotion the input of a request has no carrier. A request of which that holds, and no
/// other, is left as it is. All members but `tools` and `input` are kept.
pub proof fn law_promoted(body: Json)
    ensures
        items_of(promoted(body).get("input"@)) matches Some(items) ==> !has_carrier(items),
        promoted(body) == body <==> (items_of(body.get("input"@)) matches Some(items)
            ==> !has_carrier(items)),
        forall|key: Seq<char>|
            key != "tools"@ && key != "input"@ ==> #[trigger] promoted(body).get(key) == body.get(
                key,
            ),
        promoted(body) is Obj <==> body is Obj,
{
    reveal_strlit("input");
    reveal_strlit("tools");
    assert("input"@[0] == 'i');
    assert("tools"@[0] == 't');
    if let Some(items) = items_of(body.get("input"@)) {
        if has_carrier(items) {
            let plain = |item: Json| !is_carrier(item);
            lemma_filter(items, plain);
            let j = choose|j: int| 0 <= j < items.len() && is_carrier(#[trigger] items[j]);
            assert(!plain(items[j]));
            let kept = without_carriers(items);
            assert forall|i: int| 0 <= i < kept.len() implies !is_carrier(#[trigger] kept[i]) by {
                assert(plain(kept[i]));
            }
            lemma_with(body, "input"@, Json::Arr(kept));
            assert(promoted(body).get("input"@) == Some(Json::Arr(kept)));
        }
    }
}

/// The positions among some more tools of those that extend a list.
pub open spec fn new_tool_positions(tools: Seq<Json>, more: Seq<Json>) -> Seq<int>
    decreases more.len(),
{
    if more.len() == 0 {
        Seq::empty()
    } else {
        let earlier = new_tool_positions(tools, more.drop_last());
        if has_key(with_new_tools(tools, more.drop_last()), dedup_key(more.last())) {
            earlier
        } else {
            earlier.push(more.len() - 1)
        }
    }
}

/// A list of tools is extended behind its end, by some of the further tools in their order. No
/// tool is added whose key an earlier one has, and for each further tool there is one with its
/// key.
pub proof fn law_with_new_tools(tools: Seq<Json>, more: Seq<Json>)
    ensures
        with_new_tools(tools, more) == tools + new_tool_positions(tools, more).map_values(
            |at: int| more[at],
        ),
        forall|i: int|
            0 <= i < new_tool_positions(tools, more).len() ==> 0 <= #[trigger] new_tool_positions(
                tools,
                more,
            )[i] < more.len(),
        forall|i: int, j: int|
            0 <= i < j < new_tool_positions(tools, more).len() ==> #[trigger] new_tool_positions(
                tools,
                more,
            )[i] < #[trigger] new_tool_positions(tools, more)[j],
        forall|i: int, j: int|
            0 <= i < j < with_new_tools(tools, more).len() && tools.len() <= j ==> dedup_key(
                #[trigger] with_new_tools(tools, more)[i],
            ) != dedup_key(#[trigger] with_new_tools(tools, more)[j]),
        forall|i: int|
            0 <= i < more.len() ==> has_key(
                with_new_tools(tools, more),
                dedup_key(#[trigger] more[i]),
            ),
    decreases more.len(),
{
    if more.len() > 0 {
        let rest = more.drop_last();
        let earlier = with_new_tools(tools, rest);
        let positions = new_tool_positions(tools, rest);
        law_with_new_tools(tools, rest);
        lemma_has_key_push(earlier, more.last());
        assert(positions.map_values(|at: int| rest[at]) =~= positions.map_values(
            |at: int| more[at],
        ));
        if !has_key(earlier, dedup_key(more.last())) {
            assert(positions.push(more.len() - 1).map_values(|at: int| more[at])
                =~= positions.map_values(|at: int| more[at]).push(more.last()));
            assert(with_new_tools(tools, more) =~= tools + new_tool_positions(
                tools,
                more,
            ).map_values(|at: int| more[at]));
            assert forall|i: int| 0 <= i < earlier.len() implies dedup_key(#[trigger] earlier[i])
                != dedup_key(more.last()) by {
                assert(!has_key(earlier, dedup_key(more.last())));
            }
        }
        assert forall|i: int| 0 <= i < more.len() implies has_key(
            with_new_tools(tools, more),
            dedup_key(#[trigger] more[i]),
        ) by {
            if i < rest.len() {
                assert(has_key(earlier, dedup_key(rest[i])));
            }
        }
    } else {
        assert(tools + Seq::<int>::empty().map_values(|at: int| more[at]) =~= tools);
    }
}

/// What a set of keys says of a list of tools: it holds their keys and no others.
spec fn records(seen: Set<Seq<char>>, tools: Seq<Json>) -> bool {
    forall|key: Seq<char>| #[trigger] seen.contains(key) <==> has_key(tools, key)
}

/// A further tool adds its key.
proof fn lemma_has_key_push(tools: Seq<Json>, tool: Json)
    ensures
        forall|key: Seq<char>| #[trigger]
            has_key(tools.push(tool), key) <==> has_key(tools, key) || key == dedup_key(tool),
{
    assert forall|key: Seq<char>| #[trigger] has_key(tools.push(tool), key) <==> has_key(tools, key)
        || key == dedup_key(tool) by {
        if has_key(tools, key) {
            let i = choose|i: int| 0 <= i < tools.len() && dedup_key(#[trigger] tools[i]) == key;
            assert(dedup_key(tools.push(tool)[i]) == key);
        }
        if key == dedup_key(tool) {
            assert(dedup_key(tools.push(tool)[tools.len() as int]) == key);
        }
        if has_key(tools.push(tool), key) {
            let i = choose|i: int|
                0 <= i < tools.push(tool).len() && dedup_key(#[trigger] tools.push(tool)[i]) == key;
            if i < tools.len() {
                assert(dedup_key(tools[i]) == key);
            }
        }
    }
}

/// Two tools have one key if and only if they have one identity, provided that no type holds a
/// NUL, which parts the type from the name in a key.
pub proof fn law_dedup_key(first: Json, second: Json)
    requires
        !kind(first).contains('\u{0}'),
        !kind(second).contains('\u{0}'),
    ensures
        dedup_key(first) == dedup_key(second) <==> identity(first) == identity(second),
{
    reveal_strlit("mcp");
    reveal_strlit("type:");
    reveal_strlit("json:");
    reveal_strlit("\u{0}name:");
    reveal_strlit("type:mcp\u{0}server_label:");
    let a = dedup_key(first);
    let b = dedup_key(second);
    match (identity(first), identity(second)) {
        (Identity::Named(kind_a, name_a), Identity::Named(kind_b, name_b)) => {
            if a == b {
                lemma_named_keys(kind_a, name_a, kind_b, name_b);
            }
        },
        (Identity::Named(kind_a, name_a), Identity::Labelled(label_b)) => {
            lemma_named_and_labelled_keys(kind_a, name_a, label_b);
        },
        (Identity::Labelled(label_a), Identity::Named(kind_b, name_b)) => {
            lemma_named_and_labelled_keys(kind_b, name_b, label_a);
        },
        (Identity::Labelled(label_a), Identity::Labelled(label_b)) => {
            lemma_same_prefix("type:mcp\u{0}server_label:"@, label_a, label_b);
        },
        (Identity::Spelled(text_a), Identity::Spelled(text_b)) => {
            lemma_same_prefix("json:"@, text_a, text_b);
        },
        (Identity::Spelled(_), _) => {
            assert(a[0] == 'j');
            assert(b[0] == 't');
        },
        (_, Identity::Spelled(_)) => {
            assert(a[0] == 't');
            assert(b[0] == 'j');
        },
    }
}

/// Texts that agree behind one prefix are the same.
proof fn lemma_same_prefix(prefix: Seq<char>, first: Seq<char>, second: Seq<char>)
    ensures
        prefix + first == prefix + second <==> first == second,
{
    if prefix + first == prefix + second {
        assert((prefix + first).skip(prefix.len() as int) =~= first);
        assert((prefix + second).skip(prefix.len() as int) =~= second);
    }
}

/// Keys of a type and a name are the same only for one type and one name.
proof fn lemma_named_keys(
    kind_a: Seq<char>,
    name_a: Seq<char>,
    kind_b: Seq<char>,
    name_b: Seq<char>,
)
    requires
        !kind_a.contains('\u{0}'),
        !kind_b.contains('\u{0}'),
        identity_key(Identity::Named(kind_a, name_a)) == identity_key(
            Identity::Named(kind_b, name_b),
        ),
    ensures
        kind_a == kind_b,
        name_a == name_b,
{
    reveal_strlit("type:");
    reveal_strlit("\u{0}name:");
    let a = identity_key(Identity::Named(kind_a, name_a));
    let b = identity_key(Identity::Named(kind_b, name_b));
    assert("\u{0}name:"@[0] == '\u{0}');
    assert(a[5 + kind_a.len() as int] == '\u{0}');
    assert(b[5 + kind_b.len() as int] == '\u{0}');
    if kind_a.len() < kind_b.len() {
        assert(b[5 + kind_a.len() as int] == kind_b[kind_a.len() as int]);
        assert(kind_b.contains('\u{0}'));
    }
    if kind_b.len() < kind_a.len() {
        assert(a[5 + kind_b.len() as int] == kind_a[kind_b.len() as int]);
        assert(kind_a.contains('\u{0}'));
    }
    assert forall|i: int| 0 <= i < kind_a.len() implies kind_a[i] == kind_b[i] by {
        assert(a[5 + i] == kind_a[i]);
        assert(b[5 + i] == kind_b[i]);
    }
    assert(kind_a =~= kind_b);
    lemma_same_prefix("type:"@ + kind_a + "\u{0}name:"@, name_a, name_b);
}

/// The key of a type and a name is never that of an MCP server.
proof fn lemma_named_and_labelled_keys(kind: Seq<char>, name: Seq<char>, label: Seq<char>)
    requires
        !kind.contains('\u{0}'),
    ensures
        identity_key(Identity::Named(kind, name)) != identity_key(Identity::Labelled(label)),
{
    reveal_strlit("type:");
    reveal_strlit("\u{0}name:");
    reveal_strlit("type:mcp\u{0}server_label:");
    let a = identity_key(Identity::Named(kind, name));
    let b = identity_key(Identity::Labelled(label));
    assert("\u{0}name:"@[0] == '\u{0}');
    assert("\u{0}name:"@[1] == 'n');
    assert("type:mcp\u{0}server_label:"@[5] == 'm');
    assert("type:mcp\u{0}server_label:"@[6] == 'c');
    assert("type:mcp\u{0}server_label:"@[7] == 'p');
    assert("type:mcp\u{0}server_label:"@[8] == '\u{0}');
    assert("type:mcp\u{0}server_label:"@[9] == 's');
    if a == b {
        assert(a[5 + kind.len() as int] == '\u{0}');
        assert(a[6 + kind.len() as int] == 'n');
        if kind.len() > 3 {
            assert(a[8] == kind[3]);
            assert(kind.contains('\u{0}'));
        }
        assert(b[8] == '\u{0}');
        assert(b[9] == 's');
        assert(b[5] == 'm' && b[6] == 'c' && b[7] == 'p');
    }
}

/// The key of a tool that is known by its JSON text alone.
pub fn spelled_key(text: &str) -> (key: String)
    ensures
        key@ == identity_key(Identity::Spelled(text@)),
{
    let mut key = "json:".to_string();
    key.append(text);
    key
}

/// The key by which a tool is told apart from others: its type and name, the label of an MCP
/// server, or, as a last resort, its JSON text.
pub fn tool_dedup_key(tool: &serde_json::Value) -> (key: String)
    ensures
        key@ == dedup_key(contents(*tool)),
{
    let tool_type = kind_of(tool);
    if !tool_type.is_empty() {
        let name = trimmed_member(tool, "name");
        if !name.is_empty() {
            let mut key = "type:".to_string();
            key.append(tool_type);
            key.append("\u{0}name:");
            key.append(name);
            return key;
        }
        if same_text(tool_type, "mcp") {
            let label = trimmed_member(tool, "server_label");
            if !label.is_empty() {
                let mut key = "type:mcp\u{0}server_label:".to_string();
                key.append(label);
                return key;
            }
        }
    }
    proof {
        reveal_strlit("mcp");
    }
    spelled_key(to_text(tool).as_str())
}

/// Appends copies of the tools whose keys are not on record yet.
fn append_new_tools(
    merged: &mut Vec<serde_json::Value>,
    seen: &mut StringHashSet,
    tools: &Vec<serde_json::Value>,
)
    requires
        records(old(seen)@, all_contents(old(merged)@)),
    ensures
        all_contents(final(merged)@) == with_new_tools(
            all_contents(old(merged)@),
            all_contents(tools@),
        ),
        records(final(seen)@, all_contents(final(merged)@)),
{
    let ghost before = all_contents(merged@);
    let ghost more = all_contents(tools@);
    let mut i: usize = 0;
    assert(more.take(0) =~= Seq::empty());
    while i < tools.len()
        invariant
            i <= tools.len(),
            more == all_contents(tools@),
            all_contents(merged@) == with_new_tools(before, more.take(i as int)),
            records(seen@, all_contents(merged@)),
        decreases tools.len() - i,
    {
        let ghost so_far = all_contents(merged@);
        proof {
            assert(more.take(i + 1).drop_last() =~= more.take(i as int));
            assert(more.take(i + 1).last() == contents(tools@[i as int]));
            lemma_has_key_push(so_far, contents(tools@[i as int]));
        }
        if seen.insert(tool_dedup_key(&tools[i])) {
            merged.push(tools[i].clone());
            assert(all_contents(merged@) =~= so_far.push(contents(tools@[i as int])));
        }
        i += 1;
    }
    assert(more.take(i as int) =~= more);
}

/// Copies the top-level tools and puts their keys on record.
fn seed_tools(tools: &Vec<serde_json::Value>, seen: &mut StringHashSet) -> (merged: Vec<
    serde_json::Value,
>)
    requires
        old(seen)@ == Set::<Seq<char>>::empty(),
    ensures
        all_contents(merged@) == all_contents(tools@),
        records(final(seen)@, all_contents(merged@)),
{
    let mut merged: Vec<serde_json::Value> = Vec::new();
    let mut i: usize = 0;
    while i < tools.len()
        invariant
            i <= tools.len(),
            all_contents(merged@) == all_contents(tools@).take(i as int),
            records(seen@, all_contents(merged@)),
        decreases tools.len() - i,
    {
        let ghost so_far = all_contents(merged@);
        proof {
            lemma_has_key_push(so_far, contents(tools@[i as int]));
        }
        seen.insert(tool_dedup_key(&tools[i]));
        merged.push(tools[i].clone());
        proof {
            assert(all_contents(merged@) =~= so_far.push(contents(tools@[i as int])));
            assert(all_contents(tools@).take(i + 1) =~= so_far.push(contents(tools@[i as int])));
        }
        i += 1;
    }
    assert(all_contents(tools@).take(i as int) =~= all_contents(tools@));
    merged
}

/// Whether a list of items has a carrier.
fn any_carrier(items: &Vec<serde_json::Value>) -> (yes: bool)
    ensures
        yes == has_carrier(all_contents(items@)),
{
    let mut i: usize = 0;
    while i < items.len()
        invariant
            i <= items.len(),
            forall|j: int| 0 <= j < i ==> !is_carrier(#[trigger] all_contents(items@)[j]),
        decreases items.len() - i,
    {
        assert(all_contents(items@)[i as int] == contents(items@[i as int]));
        if is_additional_tools_item(&items[i]) {
            return true;
        }
        i += 1;
    }
    false
}

/// Extending a list by two lists in turn is extending it by both at once.
proof fn lemma_with_new_tools_add(tools: Seq<Json>, first: Seq<Json>, second: Seq<Json>)
    ensures
        with_new_tools(tools, first + second) == with_new_tools(
            with_new_tools(tools, first),
            second,
        ),
    decreases second.len(),
{
    if second.len() == 0 {
        assert(first + second =~= first);
    } else {
        lemma_with_new_tools_add(tools, first, second.drop_last());
        assert((first + second).drop_last() =~= first + second.drop_last());
        assert((first + second).last() == second.last());
    }
}

/// Moves the tools of all `additional_tools` carriers of the input to the top-level tools, in
/// order and without duplicates, and takes the carriers out of the input. Returns whether there
/// was a carrier.
pub fn promote_additional_tools(body: &mut serde_json::Value) -> (changed: bool)
    ensures
        contents(*final(body)) == promoted(contents(*old(body))),
        changed == (contents(*final(body)) != contents(*old(body))),
{
    let ghost whole = contents(*body);
    let items = match member(body, "input") {
        Some(listed) => match listed.as_array() {
            Some(items) => items,
            None => return false,
        },
        None => return false,
    };
    if !any_carrier(items) {
        return false;
    }
    let ghost all = all_contents(items@);
    let mut seen = StringHashSet::new();
    let mut merged: Vec<serde_json::Value> = Vec::new();
    proof {
        assert(all_contents(merged@) =~= Seq::empty());
    }
    if let Some(listed) = member(body, "tools") {
        if let Some(tools) = listed.as_array() {
            merged = seed_tools(tools, &mut seen);
        }
    }
    let ghost top = top_level_tools(whole);
    let top_len: usize = merged.len();
    let mut kept: Vec<serde_json::Value> = Vec::new();
    let ghost plain = |item: Json| !is_carrier(item);
    let mut i: usize = 0;
    proof {
        assert(all.take(0) =~= Seq::empty());
        assert(all_contents(kept@) =~= Seq::empty());
        reveal(Seq::filter);
    }
    while i < items.len()
        invariant
            i <= items.len(),
            all == all_contents(items@),
            plain == (|item: Json| !is_carrier(item)),
            all_contents(merged@) == with_new_tools(top, carried_tools(all.take(i as int))),
            records(seen@, all_contents(merged@)),
            all_contents(kept@) == all.take(i as int).filter(plain),
        decreases items.len() - i,
    {
        let item = &items[i];
        let ghost so_far = all_contents(kept@);
        proof {
            assert(all.take(i + 1).drop_last() =~= all.take(i as int));
            assert(all.take(i + 1).last() == contents(*item));
            reveal(Seq::filter);
            lemma_with_new_tools_add(
                top,
                carried_tools(all.take(i as int)),
                tools_in(contents(*item)),
            );
        }
        if is_additional_tools_item(item) {
            if let Some(listed) = member(item, "tools") {
                if let Some(tools) = listed.as_array() {
                    append_new_tools(&mut merged, &mut seen, tools);
                }
            }
        } else {
            kept.push(item.clone());
            assert(all_contents(kept@) =~= so_far.push(contents(*item)));
        }
        i += 1;
    }
    proof {
        assert(all.take(i as int) =~= all);
        lemma_filter(all, plain);
        lemma_with(whole, "input"@, Json::Arr(without_carriers(all)));
        let j = choose|j: int| 0 <= j < all.len() && is_carrier(#[trigger] all[j]);
        assert(!plain(all[j]));
        reveal_strlit("input");
        reveal_strlit("tools");
        assert("input"@[0] == 'i');
        assert("tools"@[0] == 't');
    }
    if let Some(map) = body.as_object_mut() {
        let promotes = merged.len() > top_len;
        map.insert("input".to_string(), array(kept));
        if promotes {
            map.insert("tools".to_string(), array(merged));
        }
    }
    true
}

/// A tool with a type and a name is known by these two, trimmed. Failing that an MCP server with
/// a label is known by the label, trimmed, and any other tool by its JSON text. Nothing else
/// counts.
pub proof fn law_tool_key(tool: Json, name: Seq<char>, label: Seq<char>)
    requires
        name == (match tool.get("name"@) {
            Some(Json::Str(text)) => trimmed(text),
            _ => Seq::empty(),
        }),
        label == (match tool.get("server_label"@) {
            Some(Json::Str(text)) => trimmed(text),
            _ => Seq::empty(),
        }),
    ensures
        kind(tool).len() > 0 && name.len() > 0 ==> dedup_key(tool) == "type:"@ + kind(tool)
            + "\u{0}name:"@ + name,
        kind(tool) == "mcp"@ && name.len() == 0 && label.len() > 0 ==> dedup_key(tool)
            == "type:mcp\u{0}server_label:"@ + label,
        (kind(tool).len() == 0 || name.len() == 0) && (kind(tool) != "mcp"@ || label.len() == 0)
            ==> dedup_key(tool) == "json:"@ + json_text(tool),
{
    reveal_strlit("mcp");
    assert("mcp"@.len() == 3);
}

/// A further tool goes to the end of a list unless the list has a tool with its key by then, and
/// nothing else changes.
pub proof fn law_one_more_tool(tools: Seq<Json>, more: Seq<Json>, tool: Json)
    ensures
        with_new_tools(tools, Seq::empty()) == tools,
        (exists|i: int|
            0 <= i < with_new_tools(tools, more).len() && dedup_key(
                #[trigger] with_new_tools(tools, more)[i],
            ) == dedup_key(tool)) ==> with_new_tools(tools, more.push(tool)) == with_new_tools(
            tools,
            more,
        ),
        (forall|i: int|
            0 <= i < with_new_tools(tools, more).len() ==> dedup_key(
                #[trigger] with_new_tools(tools, more)[i],
            ) != dedup_key(tool)) ==> with_new_tools(tools, more.push(tool)) == with_new_tools(
            tools,
            more,
        ).push(tool),
{
    assert(more.push(tool).drop_last() =~= more);
}

/// A further item adds its tools if its type is `additional_tools` and its `tools` are a list,
/// all of them and in their order. Any other item adds none.
pub proof fn law_one_more_carrier(items: Seq<Json>, item: Json)
    ensures
        carried_tools(Seq::empty()) == Seq::<Json>::empty(),
        carried_tools(items.push(item)) == (match item.get("tools"@) {
            Some(Json::Arr(tools)) => if kind(item) == "additional_tools"@ {
                carried_tools(items) + tools
            } else {
                carried_tools(items)
            },
            _ => carried_tools(items),
        }),
{
    assert(items.push(item).drop_last() =~= items);
    assert(carried_tools(items) + Seq::empty() =~= carried_tools(items));
}

/// After promotion the input holds all items that are no carriers, in their order and as often
/// as before, whatever else they hold.
pub proof fn law_promoted_input(body: Json, items: Seq<Json>)
    requires
        body.get("input"@) == Some(Json::Arr(items)),
    ensures
        promoted(body).get("input"@) == Some(
            Json::Arr(items.filter(|item: Json| kind(item) != "additional_tools"@)),
        ),
{
    reveal_strlit("input");
    reveal_strlit("tools");
    assert("input"@[0] == 'i');
    assert("tools"@[0] == 't');
    let plain = |item: Json| kind(item) != "additional_tools"@;
    lemma_filter(items, plain);
    if has_carrier(items) {
        assert(plain =~= (|item: Json| !is_carrier(item)));
    } else {
        assert forall|i: int| 0 <= i < items.len() implies plain(#[trigger] items[i]) by {
            assert(!is_carrier(items[i]));
        }
    }
}

/// One more item at the end of the input is there after promotion too, at the end, unless it is
/// a carrier. What promotion makes of the items before it does not change.
pub proof fn law_one_more_item(body: Json, items: Seq<Json>, item: Json)
    requires
        body is Obj,
    ensures
        promoted(body.with("input"@, Json::Arr(items))).get("input"@) matches Some(
            Json::Arr(before),
        ) && promoted(body.with("input"@, Json::Arr(items.push(item)))).get("input"@) == Some(
            Json::Arr(
                if kind(item) == "additional_tools"@ {
                    before
                } else {
                    before.push(item)
                },
            ),
        ),
        promoted(body.with("input"@, Json::Arr(Seq::empty()))) == body.with(
            "input"@,
            Json::Arr(Seq::empty()),
        ),
{
    law_promoted_input(body.with("input"@, Json::Arr(items)), items);
    law_promoted_input(body.with("input"@, Json::Arr(items.push(item))), items.push(item));
    law_promoted(body.with("input"@, Json::Arr(Seq::empty())));
    reveal(Seq::filter);
    assert(items.push(item).drop_last() =~= items);
}

/// After promotion the tools are the top-level ones, followed by those of the carriers, in
/// order, whose keys none before them has. Where there are no such, `tools` is left as it is, be
/// it a list or not.
pub proof fn law_promoted_tools(body: Json, items: Seq<Json>, top: Seq<Json>)
    requires
        body.get("input"@) == Some(Json::Arr(items)),
        top == (match body.get("tools"@) {
            Some(Json::Arr(tools)) => tools,
            _ => Seq::empty(),
        }),
    ensures
        with_new_tools(top, carried_tools(items)) == top ==> promoted(body).get("tools"@)
            == body.get("tools"@),
        with_new_tools(top, carried_tools(items)) != top ==> promoted(body).get("tools"@) == Some(
            Json::Arr(with_new_tools(top, carried_tools(items))),
        ),
{
    reveal_strlit("input");
    reveal_strlit("tools");
    assert("input"@[0] == 'i');
    assert("tools"@[0] == 't');
    law_with_new_tools(top, carried_tools(items));
    lemma_no_carried_tools(items);
    let all = with_new_tools(top, carried_tools(items));
    if all.len() == top.len() {
        assert(all =~= top);
    }
}

/// Items without a carrier hold no tools to promote.
proof fn lemma_no_carried_tools(items: Seq<Json>)
    ensures
        !has_carrier(items) ==> carried_tools(items) == Seq::<Json>::empty(),
    decreases items.len(),
{
    if items.len() > 0 && !has_carrier(items) {
        let rest = items.drop_last();
        assert forall|i: int| 0 <= i < rest.len() implies !is_carrier(#[trigger] rest[i]) by {
            assert(!is_carrier(items[i]));
        }
        lemma_no_carried_tools(rest);
        assert(!is_carrier(items[items.len() - 1]));
    }
}

/// A request whose input is no list is left as it is, and promotion touches nothing but `input`
/// and `tools`.
pub proof fn law_promotion_keeps(body: Json, key: Seq<char>)
    ensures
        !(body.get("input"@) matches Some(Json::Arr(_))) ==> promoted(body) == body,
        key != "tools"@ && key != "input"@ ==> promoted(body).get(key) == body.get(key),
        promoted(body) is Obj <==> body is Obj,
{
    law_promoted(body);
}

} // verus!
