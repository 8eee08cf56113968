//! What is read out of JSON documents.

use serde_json::Value;
use vstd::prelude::*;
use vstd::string::*;

verus! {

/// A value of a JSON document.
#[verifier::external_type_specification]
#[verifier::external_body]
pub struct ExValue(serde_json::Value);

/// A JSON value: text, a list, a record with its keys in the order in which they
/// are walked, or something else.
pub ghost enum JsonView {
    Text(Seq<char>),
    List(Seq<JsonView>),
    Record { keys: Seq<Seq<char>>, values: Seq<JsonView> },
    Other,
}

/// What a JSON value holds.
pub uninterp spec fn json_view(value: serde_json::Value) -> JsonView;

/// What `serde_json::from_slice` makes of the bytes of a document, if they are one.
pub uninterp spec fn json_document(bytes: Seq<u8>) -> Option<JsonView>;

/// `serde_json::from_slice` into a `Value`: whether it succeeds, and what the value
/// holds, depends on the bytes alone.
#[verifier::external_body]
fn parse_json(bytes: &[u8]) -> (value: Option<Value>)
    ensures
        match value {
            Some(value) => json_document(bytes@) == Some(json_view(value)),
            None => json_document(bytes@) is None,
        },
{
    serde_json::from_slice(bytes).ok()
}

/// `Value::as_str`: the text, where the value is one.
#[verifier::external_body]
fn as_text(value: &Value) -> (text: Option<&str>)
    ensures
        match json_view(*value) {
            JsonView::Text(expected) => text matches Some(text) && text@ == expected,
            _ => text is None,
        },
{
    value.as_str()
}

/// `Value::as_array`: the values of the list, where the value is one.
#[verifier::external_body]
fn as_list(value: &Value) -> (items: Option<&Vec<Value>>)
    ensures
        match json_view(*value) {
            JsonView::List(expected) => items matches Some(items) && items@.len() == expected.len()
                && forall|i: int|
                0 <= i < expected.len() ==> json_view(#[trigger] items@[i]) == expected[i],
            _ => items is None,
        },
{
    value.as_array()
}

/// `Value::as_object` and `Map::values`: the values of the record in the order in
/// which they are walked, where the value is one. There are as many as keys.
#[verifier::external_body]
fn record_values(value: &Value) -> (items: Option<Vec<&Value>>)
    ensures
        match json_view(*value) {
            JsonView::Record { keys, values } => items matches Some(items) && keys.len()
                == values.len() && items@.len() == values.len() && forall|i: int|
                0 <= i < values.len() ==> json_view(*(#[trigger] items@[i])) == values[i],
            _ => items is None,
        },
{
    value.as_object().map(|map| map.values().collect())
}

/// The value under `key`: keys occur once.
pub open spec fn entry(keys: Seq<Seq<char>>, values: Seq<JsonView>, key: Seq<char>) -> Option<
    JsonView,
>
    decreases keys.len(),
{
    if keys.len() == 0 {
        None
    } else if keys.last() == key {
        Some(values[keys.len() - 1])
    } else {
        entry(keys.drop_last(), values, key)
    }
}

/// The value under `key` of a record.
pub open spec fn member(view: JsonView, key: Seq<char>) -> Option<JsonView> {
    match view {
        JsonView::Record { keys, values } => entry(keys, values, key),
        _ => None,
    }
}

/// `Value::get` with a string: the value under the key, where the value is a record
/// that has it.
#[verifier::external_body]
fn get_member<'a>(value: &'a Value, key: &str) -> (found: Option<&'a Value>)
    ensures
        match member(json_view(*value), key@) {
            Some(expected) => found matches Some(found) && json_view(*found) == expected,
            None => found is None,
        },
{
    value.get(key)
}

/// The name of the network in a record that describes the current one.
pub open spec fn current_network_name(view: JsonView) -> Option<Seq<char>> {
    match member(view, "spairport_current_network_information"@) {
        Some(network) => match member(network, "_name"@) {
            Some(JsonView::Text(name)) => Some(name),
            _ => None,
        },
        None => None,
    }
}

/// The name of the current network in a document: that of the first record that
/// describes one, going down into every list and record in turn.
pub open spec fn current_ssid(view: JsonView) -> Option<Seq<char>>
    decreases view, 0nat,
{
    match view {
        JsonView::Record { keys, values } => match current_network_name(view) {
            Some(name) => Some(name),
            None => first_ssid(values, values.len()),
        },
        JsonView::List(items) => first_ssid(items, items.len()),
        _ => None,
    }
}

/// The name in the first of the last `left` items that has one.
pub open spec fn first_ssid(items: Seq<JsonView>, left: nat) -> Option<Seq<char>>
    decreases items, left + 1,
{
    if left == 0 || left > items.len() {
        None
    } else {
        match current_ssid(items[items.len() - left]) {
            Some(name) => Some(name),
            None => first_ssid(items, (left - 1) as nat),
        }
    }
}

/// The name of the current network in what the system says of its networks.
pub fn system_profiler_current_ssid(value: &Value) -> (ssid: Option<String>)
    ensures
        match ssid {
            Some(ssid) => current_ssid(json_view(*value)) == Some(ssid@),
            None => current_ssid(json_view(*value)) is None,
        },
    decreases json_view(*value),
{
    let ghost view = json_view(*value);
    if let Some(items) = as_list(value) {
        let ghost expected = view->List_0;
        let mut i: usize = 0;
        while i < items.len()
            invariant
                i <= items@.len(),
                view == json_view(*value),
                view is List,
                expected == view->List_0,
                items@.len() == expected.len(),
                forall|k: int|
                    0 <= k < expected.len() ==> json_view(#[trigger] items@[k]) == expected[k],
                current_ssid(view) == first_ssid(expected, (expected.len() - i) as nat),
            decreases items@.len() - i,
        {
            assert(json_view(items@[i as int]) == expected[i as int]);
            assert(decreases_to!(view => expected[i as int]));
            if let Some(ssid) = system_profiler_current_ssid(&items[i]) {
                return Some(ssid);
            }
            i += 1;
        }
        return None;
    }
    if let Some(items) = record_values(value) {
        if let Some(network) = get_member(value, "spairport_current_network_information") {
            if let Some(name) = get_member(network, "_name") {
                if let Some(text) = as_text(name) {
                    return Some(text.to_owned());
                }
            }
        }
        let ghost expected = view->values;
        let mut i: usize = 0;
        while i < items.len()
            invariant
                i <= items@.len(),
                view == json_view(*value),
                view is Record,
                expected == view->values,
                items@.len() == expected.len(),
                forall|k: int|
                    0 <= k < expected.len() ==> json_view(*(#[trigger] items@[k])) == expected[k],
                current_ssid(view) == first_ssid(expected, (expected.len() - i) as nat),
            decreases items@.len() - i,
        {
            assert(json_view(*items@[i as int]) == expected[i as int]);
            assert(decreases_to!(view => expected[i as int]));
            if let Some(ssid) = system_profiler_current_ssid(items[i]) {
                return Some(ssid);
            }
            i += 1;
        }
    }
    None
}

/// The name of the current network in a document of what the system says of its
/// networks.
pub fn ssid_in_profile(document: &[u8]) -> (ssid: Option<String>)
    ensures
        match json_document(document@) {
            Some(view) => match ssid {
                Some(ssid) => current_ssid(view) == Some(ssid@),
                None => current_ssid(view) is None,
            },
            None => ssid is None,
        },
{
    match parse_json(document) {
        Some(value) => system_profiler_current_ssid(&value),
        None => None,
    }
}

/// A record that describes the current network gives its name, wherever its entries
/// stand and whatever else it holds.
pub proof fn law_the_current_network_is_named(
    keys: Seq<Seq<char>>,
    values: Seq<JsonView>,
    i: int,
    names: Seq<Seq<char>>,
    parts: Seq<JsonView>,
    k: int,
    name: Seq<char>,
)
    requires
        keys.len() == values.len(),
        names.len() == parts.len(),
        keys.no_duplicates(),
        names.no_duplicates(),
        0 <= i < keys.len(),
        keys[i] == "spairport_current_network_information"@,
        values[i] == (JsonView::Record { keys: names, values: parts }),
        0 <= k < names.len(),
        names[k] == "_name"@,
        parts[k] == JsonView::Text(name),
    ensures
        current_ssid(JsonView::Record { keys, values }) == Some(name),
{
    lemma_entry(keys, values, i);
    lemma_entry(names, parts, k);
}

/// Keys that occur once are found wherever they stand.
proof fn lemma_entry(keys: Seq<Seq<char>>, values: Seq<JsonView>, i: int)
    requires
        keys.no_duplicates(),
        0 <= i < keys.len() <= values.len(),
    ensures
        entry(keys, values, keys[i]) == Some(values[i]),
    decreases keys.len(),
{
    if i < keys.len() - 1 {
        let shorter = keys.drop_last();
        assert forall|a: int, b: int|
            0 <= a < shorter.len() && 0 <= b < shorter.len() && a != b implies shorter[a]
            != shorter[b] by {
            assert(keys[a] != keys[b]);
        }
        lemma_entry(shorter, values, i);
        assert(keys[keys.len() - 1] != keys[i]);
    }
}

/// Of the items of a list the first that names a network decides, and a list none of
/// whose items does names none.
pub proof fn law_the_first_network_decides(items: Seq<JsonView>, i: int)
    requires
        0 <= i <= items.len(),
        forall|k: int| 0 <= k < i ==> current_ssid(#[trigger] items[k]) is None,
        i < items.len() ==> current_ssid(items[i]) is Some,
    ensures
        current_ssid(JsonView::List(items)) == if i < items.len() {
            current_ssid(items[i])
        } else {
            None
        },
{
    lemma_first_ssid(items, i, items.len());
}

proof fn lemma_first_ssid(items: Seq<JsonView>, i: int, left: nat)
    requires
        0 <= items.len() - left <= i <= items.len(),
        forall|k: int| 0 <= k < i ==> current_ssid(#[trigger] items[k]) is None,
        i < items.len() ==> current_ssid(items[i]) is Some,
    ensures
        first_ssid(items, left) == if i < items.len() {
            current_ssid(items[i])
        } else {
            None
        },
    decreases left,
{
    if left > 0 && items.len() - left < i {
        assert(current_ssid(items[items.len() - left]) is None);
        lemma_first_ssid(items, i, (left - 1) as nat);
    }
}

} // verus!
