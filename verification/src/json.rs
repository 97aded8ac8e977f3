//! JSON values as the library sees them (settings values and extension
//! catalog entries), with structural equality and null stripping.
//!
//! Numbers are held as their canonical JSON text, so two numbers are equal
//! exactly when they print the same. Object members are held in increasing key
//! order (the order of a `serde_json::Map`), so two objects are equal exactly
//! when their member sequences are.

use vstd::prelude::*;
use crate::collections::strictly_sorted;
use crate::text::{lex_lt, push_char};

verus! {

/// The mathematical value of a JSON document.
pub enum Json {
    Null,
    Bool(bool),
    Number(Seq<char>),
    Str(Seq<char>),
    Array(Seq<Json>),
    Object(Seq<(Seq<char>, Json)>),
}

/// A JSON value.
pub enum JsonValue {
    Null,
    Bool(bool),
    Number(String),
    String(String),
    Array(Vec<JsonValue>),
    Object(Vec<(String, JsonValue)>),
}

impl JsonValue {
    pub open spec fn model(&self) -> Json
        decreases self,
    {
        match self {
            JsonValue::Null => Json::Null,
            JsonValue::Bool(b) => Json::Bool(*b),
            JsonValue::Number(n) => Json::Number(n@),
            JsonValue::String(s) => Json::Str(s@),
            JsonValue::Array(items) => Json::Array(
                Seq::new(
                    items.len() as nat,
                    |i: int|
                        if 0 <= i < items.len() {
                            items[i].model()
                        } else {
                            Json::Null
                        },
                ),
            ),
            JsonValue::Object(entries) => Json::Object(
                Seq::new(
                    entries.len() as nat,
                    |i: int|
                        if 0 <= i < entries.len() {
                            (entries[i].0@, entries[i].1.model())
                        } else {
                            (Seq::empty(), Json::Null)
                        },
                ),
            ),
        }
    }
}

/// The models of a sequence of values.
pub open spec fn models(v: Seq<JsonValue>) -> Seq<Json> {
    Seq::new(v.len(), |i: int| v[i].model())
}

/// The models of a sequence of object members.
pub open spec fn member_models(v: Seq<(String, JsonValue)>) -> Seq<(Seq<char>, Json)> {
    Seq::new(v.len(), |i: int| (v[i].0@, v[i].1.model()))
}

pub proof fn lemma_array_model(items: Vec<JsonValue>)
    ensures
        JsonValue::Array(items).model() == Json::Array(models(items@)),
{
    let m = JsonValue::Array(items).model();
    assert(m->Array_0 =~= models(items@));
}

pub proof fn lemma_object_model(entries: Vec<(String, JsonValue)>)
    ensures
        JsonValue::Object(entries).model() == Json::Object(member_models(entries@)),
{
    let m = JsonValue::Object(entries).model();
    assert(m->Object_0 =~= member_models(entries@));
}

/// Keys of an object's members.
pub open spec fn member_keys(m: Seq<(Seq<char>, Json)>) -> Seq<Seq<char>> {
    m.map_values(|e: (Seq<char>, Json)| e.0)
}

/// Object members are in strictly increasing key order, at every depth.
pub open spec fn canonical(j: Json) -> bool
    decreases j,
{
    match j {
        Json::Array(items) => forall|i: int| 0 <= i < items.len() ==> canonical(#[trigger] items[i]),
        Json::Object(members) => {
            &&& strictly_sorted(member_keys(members))
            &&& forall|i: int| 0 <= i < members.len() ==> canonical(#[trigger] members[i].1)
        },
        _ => true,
    }
}

/// No `null` anywhere in the value.
pub open spec fn null_free(j: Json) -> bool
    decreases j,
{
    match j {
        Json::Null => false,
        Json::Array(items) => forall|i: int| 0 <= i < items.len() ==> null_free(#[trigger] items[i]),
        Json::Object(members) => forall|i: int| 0 <= i < members.len() ==> null_free(#[trigger] members[i].1),
        _ => true,
    }
}

/// Structural equality of two values.
pub fn json_eq(a: &JsonValue, b: &JsonValue) -> (r: bool)
    ensures
        r == (a.model() == b.model()),
    decreases a,
{
    match (a, b) {
        (JsonValue::Null, JsonValue::Null) => true,
        (JsonValue::Bool(x), JsonValue::Bool(y)) => *x == *y,
        (JsonValue::Number(x), JsonValue::Number(y)) => *x == *y,
        (JsonValue::String(x), JsonValue::String(y)) => *x == *y,
        (JsonValue::Array(xs), JsonValue::Array(ys)) => {
            proof {
                lemma_array_model(*xs);
                lemma_array_model(*ys);
            }
            if xs.len() != ys.len() {
                proof {
                    assert(models(xs@).len() != models(ys@).len());
                }
                return false;
            }
            let mut i: usize = 0;
            while i < xs.len()
                invariant
                    xs.len() == ys.len(),
                    i <= xs.len(),
                    *a == JsonValue::Array(*xs),
                    *b == JsonValue::Array(*ys),
                    a.model() == Json::Array(models(xs@)),
                    b.model() == Json::Array(models(ys@)),
                    forall|j: int| 0 <= j < i ==> xs@[j].model() == ys@[j].model(),
                decreases xs.len() - i,
            {
                if !json_eq(&xs[i], &ys[i]) {
                    proof {
                        assert(models(xs@)[i as int] != models(ys@)[i as int]);
                    }
                    return false;
                }
                i += 1;
            }
            proof {
                assert(models(xs@) =~= models(ys@));
            }
            true
        },
        (JsonValue::Object(xs), JsonValue::Object(ys)) => {
            proof {
                lemma_object_model(*xs);
                lemma_object_model(*ys);
            }
            if xs.len() != ys.len() {
                proof {
                    assert(member_models(xs@).len() != member_models(ys@).len());
                }
                return false;
            }
            let mut i: usize = 0;
            while i < xs.len()
                invariant
                    xs.len() == ys.len(),
                    i <= xs.len(),
                    *a == JsonValue::Object(*xs),
                    *b == JsonValue::Object(*ys),
                    a.model() == Json::Object(member_models(xs@)),
                    b.model() == Json::Object(member_models(ys@)),
                    forall|j: int| 0 <= j < i ==> xs@[j].0@ == ys@[j].0@ && xs@[j].1.model() == ys@[j].1.model(),
                decreases xs.len() - i,
            {
                if xs[i].0 != ys[i].0 || !json_eq(&xs[i].1, &ys[i].1) {
                    proof {
                        assert(member_models(xs@)[i as int] != member_models(ys@)[i as int]);
                    }
                    return false;
                }
                i += 1;
            }
            proof {
                assert(member_models(xs@) =~= member_models(ys@));
            }
            true
        },
        _ => false,
    }
}

/// A copy of a value.
pub fn copy_value(v: &JsonValue) -> (r: JsonValue)
    ensures
        r.model() == v.model(),
    decreases v,
{
    match v {
        JsonValue::Null => JsonValue::Null,
        JsonValue::Bool(b) => JsonValue::Bool(*b),
        JsonValue::Number(n) => JsonValue::Number(n.clone()),
        JsonValue::String(s) => JsonValue::String(s.clone()),
        JsonValue::Array(xs) => {
            let mut out: Vec<JsonValue> = Vec::new();
            let mut i: usize = 0;
            while i < xs.len()
                invariant
                    i <= xs.len(),
                    *v == JsonValue::Array(*xs),
                    out.len() == i,
                    forall|j: int| 0 <= j < i ==> out@[j].model() == xs@[j].model(),
                decreases xs.len() - i,
            {
                let item = &xs[i];
                proof {
                    assert(decreases_to!(*v => v->Array_0));
                    assert(decreases_to!(*xs => xs[i as int]));
                }
                out.push(copy_value(item));
                i += 1;
            }
            proof {
                lemma_array_model(*xs);
                lemma_array_model(out);
                assert(models(out@) =~= models(xs@));
            }
            JsonValue::Array(out)
        },
        JsonValue::Object(xs) => {
            let mut out: Vec<(String, JsonValue)> = Vec::new();
            let mut i: usize = 0;
            while i < xs.len()
                invariant
                    i <= xs.len(),
                    *v == JsonValue::Object(*xs),
                    out.len() == i,
                    forall|j: int| 0 <= j < i ==> out@[j].0@ == xs@[j].0@ && out@[j].1.model() == xs@[j].1.model(),
                decreases xs.len() - i,
            {
                let member = &xs[i];
                proof {
                    assert(decreases_to!(*v => v->Object_0));
                    assert(decreases_to!(*xs => xs[i as int]));
                    assert(decreases_to!(xs[i as int] => xs[i as int].1));
                }
                let value = copy_value(&member.1);
                out.push((member.0.clone(), value));
                i += 1;
            }
            proof {
                lemma_object_model(*xs);
                lemma_object_model(out);
                assert(member_models(out@) =~= member_models(xs@));
            }
            JsonValue::Object(out)
        },
    }
}

}

verus! {

// ---------------------------------------------------------------------------
// Null stripping
// ---------------------------------------------------------------------------

/// `strip_nulls` on a model: `null` itself disappears; nulls inside arrays and
/// objects are dropped (an object member whose value strips away is dropped).
pub open spec fn stripped(j: Json) -> Option<Json>
    decreases j, 0nat,
{
    match j {
        Json::Null => None,
        Json::Array(items) => Some(Json::Array(kept_items(items, items.len()))),
        Json::Object(members) => Some(Json::Object(kept_members(members, members.len()))),
        _ => Some(j),
    }
}

/// The stripped forms of the first `n` items, skipping those that vanish.
pub open spec fn kept_items(items: Seq<Json>, n: nat) -> Seq<Json>
    decreases items, n,
{
    if n == 0 || n > items.len() {
        Seq::empty()
    } else {
        let rest = kept_items(items, (n - 1) as nat);
        match stripped(items[n - 1]) {
            Some(x) => rest.push(x),
            None => rest,
        }
    }
}

/// The stripped forms of the first `n` members, dropping those that vanish.
pub open spec fn kept_members(members: Seq<(Seq<char>, Json)>, n: nat) -> Seq<(Seq<char>, Json)>
    decreases members, n,
{
    if n == 0 || n > members.len() {
        Seq::empty()
    } else {
        let rest = kept_members(members, (n - 1) as nat);
        match stripped(members[n - 1].1) {
            Some(x) => rest.push((members[n - 1].0, x)),
            None => rest,
        }
    }
}

pub open spec fn option_model(o: Option<JsonValue>) -> Option<Json> {
    match o {
        Some(v) => Some(v.model()),
        None => None,
    }
}

/// Recursively remove JSON `null`: `null` itself maps to `None`; nulls inside
/// objects and arrays are dropped.
pub fn strip_nulls(value: &JsonValue) -> (r: Option<JsonValue>)
    ensures
        option_model(r) == stripped(value.model()),
    decreases value,
{
    match value {
        JsonValue::Null => None,
        JsonValue::Array(xs) => {
            proof {
                lemma_array_model(*xs);
            }
            let mut out: Vec<JsonValue> = Vec::new();
            let mut i: usize = 0;
            while i < xs.len()
                invariant
                    i <= xs.len(),
                    *value == JsonValue::Array(*xs),
                    models(out@) == kept_items(models(xs@), i as nat),
                decreases xs.len() - i,
            {
                let item = &xs[i];
                proof {
                    assert(decreases_to!(*value => value->Array_0));
                    assert(decreases_to!(*xs => xs[i as int]));
                }
                let s = strip_nulls(item);
                let ghost before = out@;
                match s {
                    Some(x) => {
                        out.push(x);
                        proof {
                            assert(models(out@) =~= models(before).push(x.model()));
                        }
                    },
                    None => {},
                }
                i += 1;
            }
            proof {
                lemma_array_model(out);
            }
            Some(JsonValue::Array(out))
        },
        JsonValue::Object(xs) => {
            proof {
                lemma_object_model(*xs);
            }
            let mut out: Vec<(String, JsonValue)> = Vec::new();
            let mut i: usize = 0;
            while i < xs.len()
                invariant
                    i <= xs.len(),
                    *value == JsonValue::Object(*xs),
                    member_models(out@) == kept_members(member_models(xs@), i as nat),
                decreases xs.len() - i,
            {
                let member = &xs[i];
                proof {
                    assert(decreases_to!(*value => value->Object_0));
                    assert(decreases_to!(*xs => xs[i as int]));
                    assert(decreases_to!(xs[i as int] => xs[i as int].1));
                }
                let s = strip_nulls(&member.1);
                let ghost before = out@;
                match s {
                    Some(x) => {
                        let key = member.0.clone();
                        out.push((key, x));
                        proof {
                            assert(member_models(out@) =~= member_models(before).push((member.0@, x.model())));
                        }
                    },
                    None => {},
                }
                i += 1;
            }
            proof {
                lemma_object_model(out);
            }
            Some(JsonValue::Object(out))
        },
        JsonValue::Bool(b) => Some(JsonValue::Bool(*b)),
        JsonValue::Number(n) => Some(JsonValue::Number(n.clone())),
        JsonValue::String(s) => Some(JsonValue::String(s.clone())),
    }
}

}

verus! {

/// Stripping leaves no `null` anywhere in what remains.
pub proof fn lemma_stripped_is_null_free(j: Json)
    ensures
        stripped(j) matches Some(x) ==> null_free(x),
    decreases j, 0nat,
{
    match j {
        Json::Array(items) => {
            lemma_kept_items_null_free(items, items.len());
            let k = kept_items(items, items.len());
            assert(stripped(j) == Some(Json::Array(k)));
            assert(null_free(Json::Array(k)));

        },
        Json::Object(members) => {
            lemma_kept_members_null_free(members, members.len());
            let k = kept_members(members, members.len());
            assert(stripped(j) == Some(Json::Object(k)));
            assert(null_free(Json::Object(k)));
        },
        _ => {},
    }
}

pub proof fn lemma_kept_items_null_free(items: Seq<Json>, n: nat)
    ensures
        forall|i: int| 0 <= i < kept_items(items, n).len() ==> null_free(#[trigger] kept_items(items, n)[i]),
    decreases items, n,
{
    if n == 0 || n > items.len() {
    } else {
        lemma_kept_items_null_free(items, (n - 1) as nat);
        lemma_stripped_is_null_free(items[n - 1]);
        let rest = kept_items(items, (n - 1) as nat);
        let k = kept_items(items, n);
        assert forall|i: int| 0 <= i < k.len() implies null_free(#[trigger] k[i]) by {
            if i < rest.len() {
                assert(k[i] == rest[i]);
            }
        }
    }
}

pub proof fn lemma_kept_members_null_free(members: Seq<(Seq<char>, Json)>, n: nat)
    ensures
        forall|i: int| 0 <= i < kept_members(members, n).len() ==> null_free(#[trigger] kept_members(members, n)[i].1),
    decreases members, n,
{
    if n == 0 || n > members.len() {
    } else {
        lemma_kept_members_null_free(members, (n - 1) as nat);
        lemma_stripped_is_null_free(members[n - 1].1);
        let rest = kept_members(members, (n - 1) as nat);
        let k = kept_members(members, n);
        assert forall|i: int| 0 <= i < k.len() implies null_free(#[trigger] k[i].1) by {
            if i < rest.len() {
                assert(k[i] == rest[i]);
            }
        }
    }
}

/// A value without nulls is left exactly as it is (so stripping twice is the
/// same as stripping once).
pub proof fn lemma_stripped_keeps_null_free(j: Json)
    requires
        null_free(j),
    ensures
        stripped(j) == Some(j),
    decreases j, 0nat,
{
    match j {
        Json::Array(items) => {
            lemma_kept_items_keep(items, items.len());
            assert(items.take(items.len() as int) =~= items);
        },
        Json::Object(members) => {
            lemma_kept_members_keep(members, members.len());
            assert(members.take(members.len() as int) =~= members);
        },
        _ => {},
    }
}

pub proof fn lemma_kept_items_keep(items: Seq<Json>, n: nat)
    requires
        forall|i: int| 0 <= i < items.len() ==> null_free(#[trigger] items[i]),
        n <= items.len(),
    ensures
        kept_items(items, n) == items.take(n as int),
    decreases items, n,
{
    if n > 0 {
        lemma_kept_items_keep(items, (n - 1) as nat);
        lemma_stripped_keeps_null_free(items[n - 1]);
        assert(items.take(n as int) =~= items.take(n - 1).push(items[n - 1]));
    } else {
        assert(items.take(0) =~= Seq::<Json>::empty());
    }
}

pub proof fn lemma_kept_members_keep(members: Seq<(Seq<char>, Json)>, n: nat)
    requires
        forall|i: int| 0 <= i < members.len() ==> null_free(#[trigger] members[i].1),
        n <= members.len(),
    ensures
        kept_members(members, n) == members.take(n as int),
    decreases members, n,
{
    if n > 0 {
        lemma_kept_members_keep(members, (n - 1) as nat);
        lemma_stripped_keeps_null_free(members[n - 1].1);
        assert(members.take(n as int) =~= members.take(n - 1).push(members[n - 1]));
    } else {
        assert(members.take(0) =~= Seq::<(Seq<char>, Json)>::empty());
    }
}

/// Stripping a value whose object members are in key order gives a value
/// whose object members are still in key order.
pub proof fn lemma_stripped_stays_canonical(j: Json)
    requires
        canonical(j),
    ensures
        stripped(j) matches Some(x) ==> canonical(x),
    decreases j, 0nat,
{
    match j {
        Json::Array(items) => {
            lemma_kept_items_canonical(items, items.len());
            let k = kept_items(items, items.len());
            assert(stripped(j) == Some(Json::Array(k)));
            assert(canonical(Json::Array(k)));
        },
        Json::Object(members) => {
            lemma_kept_members_canonical(members, members.len());
            let k = kept_members(members, members.len());
            assert(stripped(j) == Some(Json::Object(k)));
            assert(canonical(Json::Object(k)));
        },
        _ => {},
    }
}

pub proof fn lemma_kept_items_canonical(items: Seq<Json>, n: nat)
    requires
        forall|i: int| 0 <= i < items.len() ==> canonical(#[trigger] items[i]),
    ensures
        forall|i: int| 0 <= i < kept_items(items, n).len() ==> canonical(#[trigger] kept_items(items, n)[i]),
    decreases items, n,
{
    if n == 0 || n > items.len() {
    } else {
        lemma_kept_items_canonical(items, (n - 1) as nat);
        lemma_stripped_stays_canonical(items[n - 1]);
        let rest = kept_items(items, (n - 1) as nat);
        let k = kept_items(items, n);
        assert forall|i: int| 0 <= i < k.len() implies canonical(#[trigger] k[i]) by {
            if i < rest.len() {
                assert(k[i] == rest[i]);
            }
        }
    }
}

pub proof fn lemma_kept_members_canonical(members: Seq<(Seq<char>, Json)>, n: nat)
    requires
        strictly_sorted(member_keys(members)),
        forall|i: int| 0 <= i < members.len() ==> canonical(#[trigger] members[i].1),
    ensures
        strictly_sorted(member_keys(kept_members(members, n))),
        forall|i: int| 0 <= i < kept_members(members, n).len() ==> canonical(#[trigger] kept_members(members, n)[i].1),
        forall|p: int| 0 <= p < kept_members(members, n).len() ==>
            exists|i: int| 0 <= i < n && i < members.len() && (#[trigger] kept_members(members, n)[p]).0 == members[i].0,
    decreases members, n,
{
    if n == 0 || n > members.len() {
        assert(member_keys(kept_members(members, n)) =~= Seq::<Seq<char>>::empty());
    } else {
        let rest = kept_members(members, (n - 1) as nat);
        lemma_kept_members_canonical(members, (n - 1) as nat);
        lemma_stripped_stays_canonical(members[n - 1].1);
        match stripped(members[n - 1].1) {
            Some(x) => {
                let k = members[n - 1].0;
                if rest.len() > 0 {
                    let p = rest.len() - 1;
                    let i = choose|i: int| 0 <= i < n - 1 && i < members.len() && rest[p].0 == members[i].0;
                    assert(member_keys(members)[i] == members[i].0);
                    assert(member_keys(members)[n - 1] == k);
                    assert(lex_lt(member_keys(members)[i], member_keys(members)[n - 1]));
                    assert(member_keys(rest).last() == rest[p].0);
                }
                crate::collections::lemma_sorted_push(member_keys(rest), k);
                assert(member_keys(rest.push((k, x))) =~= member_keys(rest).push(k));
                let kept = rest.push((k, x));
                assert forall|p: int| 0 <= p < kept.len() implies
                    exists|i: int| 0 <= i < n && i < members.len() && (#[trigger] kept[p]).0 == members[i].0 by {
                    if p < rest.len() {
                        let i = choose|i: int| 0 <= i < n - 1 && i < members.len() && rest[p].0 == members[i].0;
                        assert(kept[p] == rest[p]);
                    } else {
                        assert(kept[p].0 == members[n - 1].0);
                    }
                }
            },
            None => {
                assert forall|p: int| 0 <= p < rest.len() implies
                    exists|i: int| 0 <= i < n && i < members.len() && (#[trigger] rest[p]).0 == members[i].0 by {
                    let i = choose|i: int| 0 <= i < n - 1 && i < members.len() && rest[p].0 == members[i].0;
                }
            },
        }
    }
}

}

verus! {

// ---------------------------------------------------------------------------
// Parsing JSON text
// ---------------------------------------------------------------------------

#[verifier::external_type_specification]
#[verifier::external_body]
pub struct ExSerdeValue(serde_json::Value);

/// The value that `serde_json` parses from a text (`serde_json::from_str` into
/// a `serde_json::Value`), or `None` where it refuses the text.
pub uninterp spec fn parsed_json(text: Seq<char>) -> Option<Json>;

/// Converts a `serde_json::Value` into a [`JsonValue`], variant for variant:
/// a number becomes its `serde_json` text, an object's members come in the
/// map's order. Nothing is stated of it on its own: [`parse_json`] states
/// what the parse and this conversion give together.
#[verifier::external_body]
fn from_serde(v: &serde_json::Value) -> JsonValue {
    match v {
        serde_json::Value::Null => JsonValue::Null,
        serde_json::Value::Bool(b) => JsonValue::Bool(*b),
        serde_json::Value::Number(n) => JsonValue::Number(n.to_string()),
        serde_json::Value::String(s) => JsonValue::String(s.clone()),
        serde_json::Value::Array(a) => JsonValue::Array(a.iter().map(from_serde).collect()),
        serde_json::Value::Object(m) => JsonValue::Object(m.iter().map(|(k, x)| (k.clone(), from_serde(x))).collect()),
    }
}

/// Calls `serde_json::from_str` for a `serde_json::Value` and converts the
/// value it gives. The contract claims that the result is what
/// [`parsed_json`] names for the text: `None` exactly where serde_json
/// refuses it.
#[verifier::external_body]
fn parse_json(text: &str) -> (r: Option<JsonValue>)
    ensures
        option_model(r) == parsed_json(text@),
{
    match serde_json::from_str::<serde_json::Value>(text) {
        Ok(v) => Some(from_serde(&v)),
        Err(_) => None,
    }
}

/// The JSON document a text holds, or `None` where it is not valid JSON.
pub fn parse_document(text: &str) -> (r: Option<JsonValue>)
    ensures
        option_model(r) == parsed_json(text@),
{
    parse_json(text)
}

// ---------------------------------------------------------------------------
// Writing JSON text
// ---------------------------------------------------------------------------

/// The text `serde_json::to_string` writes for a value, or `None` where a
/// number's text is not one that `serde_json::Number` parses.
pub uninterp spec fn compact_json(j: Json) -> Option<Seq<char>>;

/// The text `serde_json::to_string_pretty` writes for a value, or `None`
/// where a number's text is not one that `serde_json::Number` parses.
pub uninterp spec fn pretty_json(j: Json) -> Option<Seq<char>>;

/// Converts a [`JsonValue`] into a `serde_json::Value`, variant for variant:
/// a number's text is parsed as a `serde_json::Number` (`None` where that
/// fails), an object's members are collected into a `serde_json::Map`.
/// Nothing is stated of it on its own: [`render_compact`] and
/// [`render_pretty`] state what it gives together with the writer.
#[verifier::external_body]
fn to_serde(v: &JsonValue) -> Option<serde_json::Value> {
    Some(match v {
        JsonValue::Null => serde_json::Value::Null,
        JsonValue::Bool(b) => serde_json::Value::Bool(*b),
        JsonValue::Number(n) => serde_json::Value::Number(n.parse().ok()?),
        JsonValue::String(s) => serde_json::Value::String(s.clone()),
        JsonValue::Array(a) => serde_json::Value::Array(a.iter().map(to_serde).collect::<Option<_>>()?),
        JsonValue::Object(m) => serde_json::Value::Object(
            m.iter().map(|(k, x)| Some((k.clone(), to_serde(x)?))).collect::<Option<_>>()?),
    })
}

/// Calls `serde_json::to_string` on the value converted. The contract claims
/// that the result is what [`compact_json`] names for the value.
#[verifier::external_body]
fn render_compact(v: &JsonValue) -> (r: Option<String>)
    ensures
        match r {
            Some(t) => compact_json(v.model()) == Some(t@),
            None => compact_json(v.model()) is None,
        },
{
    serde_json::to_string(&to_serde(v)?).ok()
}

/// Calls `serde_json::to_string_pretty` on the value converted. The contract
/// claims that the result is what [`pretty_json`] names for the value.
#[verifier::external_body]
fn render_pretty(v: &JsonValue) -> (r: Option<String>)
    ensures
        match r {
            Some(t) => pretty_json(v.model()) == Some(t@),
            None => pretty_json(v.model()) is None,
        },
{
    serde_json::to_string_pretty(&to_serde(v)?).ok()
}

/// The text written for a value, indented when `pretty`.
pub open spec fn rendered(j: Json, pretty: bool) -> Option<Seq<char>> {
    if pretty {
        pretty_json(j)
    } else {
        compact_json(j)
    }
}

/// A value as JSON text, indented when `pretty`; `None` where one of its
/// numbers holds text that is not a JSON number.
pub fn json_text(v: &JsonValue, pretty: bool) -> (r: Option<String>)
    ensures
        match rendered(v.model(), pretty) {
            Some(x) => r matches Some(t) && t@ == x,
            None => r is None,
        },
{
    if pretty {
        render_pretty(v)
    } else {
        render_compact(v)
    }
}

/// A value as JSON text followed by a newline, as a file holds it.
pub fn json_file_text(v: &JsonValue, pretty: bool) -> (r: Option<String>)
    ensures
        match rendered(v.model(), pretty) {
            Some(x) => r matches Some(t) && t@ == x.push('\n'),
            None => r is None,
        },
{
    match json_text(v, pretty) {
        Some(t) => {
            let mut out = t;
            push_char(&mut out, '\n');
            Some(out)
        },
        None => None,
    }
}

/// A copy of a list of values.
pub fn copy_values(v: &Vec<JsonValue>) -> (r: Vec<JsonValue>)
    ensures
        models(r@) == models(v@),
{
    let mut out: Vec<JsonValue> = Vec::new();
    let mut i: usize = 0;
    while i < v.len()
        invariant
            i <= v.len(),
            out.len() == i,
            forall|j: int| 0 <= j < i ==> (#[trigger] out@[j]).model() == v@[j].model(),
        decreases v.len() - i,
    {
        out.push(copy_value(&v[i]));
        i += 1;
    }
    assert(models(out@) =~= models(v@));
    out
}

/// A list of values as the indented JSON array text of a file.
pub fn array_file_text(v: &Vec<JsonValue>) -> (r: Option<String>)
    ensures
        match pretty_json(Json::Array(models(v@))) {
            Some(x) => r matches Some(t) && t@ == x.push('\n'),
            None => r is None,
        },
{
    let items = copy_values(v);
    proof {
        lemma_array_model(items);
    }
    json_file_text(&JsonValue::Array(items), true)
}

}
