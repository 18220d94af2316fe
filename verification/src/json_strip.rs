//! Removing metadata fields from a JSON value before the game state is hashed.
//!
//! Fields that only count choices, hold the undo log, the logger or display
//! settings, and the per-turn land count, are removed from every object at
//! every depth, so that two states that play the same hash the same.

use vstd::prelude::*;
use crate::text::str_eq;

verus! {

/// A JSON value: objects hold their entries in the order of the map they
/// were read from, and numbers their text.
#[derive(Debug, PartialEq)]
pub enum JsonValue {
    Null,
    Bool(bool),
    Number(String),
    Str(String),
    Array(Vec<JsonValue>),
    Object(Vec<(String, JsonValue)>),
}

/// The mathematical form of a JSON value.
pub enum Json {
    Null,
    Bool(bool),
    Number(Seq<char>),
    Str(Seq<char>),
    Array(Seq<Json>),
    Object(Seq<(Seq<char>, Json)>),
}

/// The mathematical form of a value.
pub open spec fn json_of(v: JsonValue) -> Json
    decreases v,
{
    match v {
        JsonValue::Null => Json::Null,
        JsonValue::Bool(b) => Json::Bool(b),
        JsonValue::Number(n) => Json::Number(n@),
        JsonValue::Str(s) => Json::Str(s@),
        JsonValue::Array(items) => Json::Array(json_items(items@)),
        JsonValue::Object(entries) => Json::Object(json_entries(entries@)),
    }
}

/// The mathematical forms of the items of an array.
pub open spec fn json_items(s: Seq<JsonValue>) -> Seq<Json>
    decreases s,
{
    if s.len() == 0 {
        Seq::empty()
    } else {
        json_items(s.subrange(0, s.len() - 1)).push(json_of(s[s.len() - 1]))
    }
}

/// The mathematical forms of the entries of an object.
pub open spec fn json_entries(s: Seq<(String, JsonValue)>) -> Seq<(Seq<char>, Json)>
    decreases s,
{
    if s.len() == 0 {
        Seq::empty()
    } else {
        json_entries(s.subrange(0, s.len() - 1)).push((s[s.len() - 1].0@, json_of(s[s.len() - 1].1)))
    }
}

impl View for JsonValue {
    type V = Json;

    open spec fn view(&self) -> Json {
        json_of(*self)
    }
}

/// The keys removed from every object.
pub open spec fn excluded_key(k: Seq<char>) -> bool {
    ||| k == "choice_id"@
    ||| k == "undo_log"@
    ||| k == "logger"@
    ||| k == "show_choice_menu"@
    ||| k == "output_mode"@
    ||| k == "output_format"@
    ||| k == "numeric_choices"@
    ||| k == "step_header_printed"@
    ||| k == "lands_played_this_turn"@
}

/// A value without its metadata: objects lose their excluded keys, and what
/// remains is stripped in turn, at every depth; other values are unchanged.
pub open spec fn stripped(j: Json) -> Json
    decreases j,
{
    match j {
        Json::Array(items) => Json::Array(stripped_items(items)),
        Json::Object(entries) => Json::Object(stripped_entries(entries)),
        _ => j,
    }
}

/// The items of an array, each stripped.
pub open spec fn stripped_items(s: Seq<Json>) -> Seq<Json>
    decreases s,
{
    if s.len() == 0 {
        Seq::empty()
    } else {
        stripped_items(s.subrange(0, s.len() - 1)).push(stripped(s[s.len() - 1]))
    }
}

/// The entries of an object without the excluded keys, in order, with their
/// values stripped.
pub open spec fn stripped_entries(s: Seq<(Seq<char>, Json)>) -> Seq<(Seq<char>, Json)>
    decreases s,
{
    if s.len() == 0 {
        Seq::empty()
    } else {
        let rest = stripped_entries(s.subrange(0, s.len() - 1));
        if excluded_key(s[s.len() - 1].0) {
            rest
        } else {
            rest.push((s[s.len() - 1].0, stripped(s[s.len() - 1].1)))
        }
    }
}

/// Whether a key is one of the metadata keys.
pub fn is_excluded_key(k: &str) -> (r: bool)
    ensures
        r == excluded_key(k@),
{
    str_eq(k, "choice_id") || str_eq(k, "undo_log") || str_eq(k, "logger") || str_eq(k, "show_choice_menu")
        || str_eq(k, "output_mode") || str_eq(k, "output_format") || str_eq(k, "numeric_choices") || str_eq(
        k,
        "step_header_printed",
    ) || str_eq(k, "lands_played_this_turn")
}

fn strip_ref(value: &JsonValue) -> (r: JsonValue)
    ensures
        r@ == stripped(value@),
    decreases value,
{
    match value {
        JsonValue::Null => JsonValue::Null,
        JsonValue::Bool(b) => JsonValue::Bool(*b),
        JsonValue::Number(n) => JsonValue::Number(n.clone()),
        JsonValue::Str(s) => JsonValue::Str(s.clone()),
        JsonValue::Array(items) => {
            let mut out: Vec<JsonValue> = Vec::new();
            let mut i: usize = 0;
            while i < items.len()
                invariant
                    i <= items.len(),
                    *value == JsonValue::Array(*items),
                    json_items(out@) == stripped_items(json_items(items@.subrange(0, i as int))),
                decreases items.len() - i,
            {
                proof {
                    assert(decreases_to!(*value => value->Array_0));
                    assert(decreases_to!(*items => items@));
                    assert(decreases_to!(items@ => items@[i as int]));
                }
                let x = strip_ref(&items[i]);
                proof {
                    let pre = items@.subrange(0, i as int);
                    let next = items@.subrange(0, i + 1);
                    assert(next.subrange(0, next.len() - 1) =~= pre);
                    assert(next[next.len() - 1] == items@[i as int]);
                    assert(out@.push(x).subrange(0, out@.len() as int) =~= out@);
                    let ji = json_items(next);
                    assert(ji.subrange(0, ji.len() - 1) =~= json_items(pre));
                }
                out.push(x);
                i = i + 1;
            }
            proof {
                assert(items@.subrange(0, items@.len() as int) =~= items@);
            }
            JsonValue::Array(out)
        },
        JsonValue::Object(entries) => {
            let mut out: Vec<(String, JsonValue)> = Vec::new();
            let mut i: usize = 0;
            while i < entries.len()
                invariant
                    i <= entries.len(),
                    *value == JsonValue::Object(*entries),
                    json_entries(out@) == stripped_entries(json_entries(entries@.subrange(0, i as int))),
                decreases entries.len() - i,
            {
                let ghost pre = entries@.subrange(0, i as int);
                let ghost next = entries@.subrange(0, i + 1);
                proof {
                    assert(next.subrange(0, next.len() - 1) =~= pre);
                    assert(next[next.len() - 1] == entries@[i as int]);
                    let je = json_entries(next);
                    assert(je.subrange(0, je.len() - 1) =~= json_entries(pre));
                }
                let (k, v) = &entries[i];
                if !is_excluded_key(k.as_str()) {
                    proof {
                        assert(decreases_to!(*value => value->Object_0));
                        assert(decreases_to!(*entries => entries@));
                        assert(decreases_to!(entries@ => entries@[i as int]));
                        assert(decreases_to!(entries@[i as int] => entries@[i as int].1));
                    }
                    let x = strip_ref(v);
                    let kc = k.clone();
                    proof {
                        assert(out@.push((kc, x)).subrange(0, out@.len() as int) =~= out@);
                    }
                    out.push((kc, x));
                }
                i = i + 1;
            }
            proof {
                assert(entries@.subrange(0, entries@.len() as int) =~= entries@);
            }
            JsonValue::Object(out)
        },
    }
}

/// The value with its metadata fields removed from every object, at every
/// depth.
pub fn strip_metadata(value: JsonValue) -> (r: JsonValue)
    ensures
        r@ == stripped(value@),
{
    strip_ref(&value)
}

} // verus!

verus! {

/// Stripping twice removes nothing more than stripping once.
pub proof fn law_strip_is_idempotent(j: Json)
    ensures
        stripped(stripped(j)) == stripped(j),
    decreases j,
{
    match j {
        Json::Array(items) => {
            lemma_items_idempotent(items);
        },
        Json::Object(entries) => {
            lemma_entries_idempotent(entries);
        },
        _ => {},
    }
}

proof fn lemma_items_idempotent(s: Seq<Json>)
    ensures
        stripped_items(stripped_items(s)) == stripped_items(s),
    decreases s,
{
    if s.len() > 0 {
        let pre = s.subrange(0, s.len() - 1);
        let last = s[s.len() - 1];
        lemma_items_idempotent(pre);
        law_strip_is_idempotent(last);
        let t = stripped_items(s);
        assert(t.subrange(0, t.len() - 1) =~= stripped_items(pre));
    }
}

proof fn lemma_entries_idempotent(s: Seq<(Seq<char>, Json)>)
    ensures
        stripped_entries(stripped_entries(s)) == stripped_entries(s),
    decreases s,
{
    if s.len() > 0 {
        let pre = s.subrange(0, s.len() - 1);
        let last = s[s.len() - 1];
        lemma_entries_idempotent(pre);
        if !excluded_key(last.0) {
            law_strip_is_idempotent(last.1);
            let t = stripped_entries(s);
            assert(t.subrange(0, t.len() - 1) =~= stripped_entries(pre));
        }
    }
}

} // verus!
