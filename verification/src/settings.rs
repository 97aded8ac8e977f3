//! Settings maps (`settings key -> JSON value`) and the operations the sync
//! engine performs on them.

use vstd::prelude::*;
use crate::collections::{NameMap, first_keys, lemma_first_keys_step, lemma_first_keys_empty};
use crate::json::{Json, JsonValue, copy_value, strip_nulls, stripped, pretty_json, json_file_text,
    lemma_object_model, member_models};

verus! {

/// A settings map, keyed by dotted setting name.
pub type Settings = NameMap<JsonValue>;

/// The settings as a map of JSON models.
pub open spec fn models_of(m: Map<Seq<char>, JsonValue>) -> Map<Seq<char>, Json> {
    m.map_values(|v: JsonValue| v.model())
}

/// `sanitize_settings` on models: keys whose value is `null` are dropped and
/// nulls are stripped from the remaining values.
pub open spec fn sanitized(m: Map<Seq<char>, Json>) -> Map<Seq<char>, Json> {
    Map::new(
        |k: Seq<char>| m.contains_key(k) && stripped(m[k]) is Some,
        |k: Seq<char>| stripped(m[k])->Some_0,
    )
}

/// A copy of a settings map.
pub fn copy_settings(m: &Settings) -> (r: Settings)
    ensures
        models_of(r@) == models_of(m@),
{
    let mut out = Settings::new();
    let mut i: usize = 0;
    proof {
        lemma_first_keys_empty(m.keys());
        assert(models_of(out@) =~= models_of(m@).restrict(first_keys(m.keys(), 0)));
    }
    while i < m.len()
        invariant
            i <= m.pairs().len(),
            models_of(out@) == models_of(m@).restrict(first_keys(m.keys(), i as int)),
        decreases m.pairs().len() - i,
    {
        let (k, v) = m.entry(i);
        let ghost before = out@;
        out.insert(k.clone(), copy_value(v));
        proof {
            lemma_first_keys_step(m.keys(), i as int);
            let target = models_of(m@).restrict(first_keys(m.keys(), i + 1));
            assert(out@ == before.insert(k@, out@[k@]));
            assert forall|x: Seq<char>| #[trigger] models_of(out@).contains_key(x) == target.contains_key(x) by {
                if x != k@ {
                    assert(models_of(before).contains_key(x) == models_of(out@).contains_key(x));
                }
            }
            assert forall|x: Seq<char>| #[trigger] models_of(out@).contains_key(x) implies models_of(out@)[x] == target[x] by {
                if x != k@ {
                    assert(models_of(before)[x] == models_of(out@)[x]);
                }
            }
            assert(models_of(out@) =~= target);
        }
        i += 1;
    }
    proof {
        m.lemma_all_keys();
        assert(models_of(out@) =~= models_of(m@));
    }
    out
}

/// Strip nulls across a settings map, dropping keys whose value was `null`.
pub fn sanitize_settings(settings: &Settings) -> (r: Settings)
    ensures
        models_of(r@) == sanitized(models_of(settings@)),
{
    let mut out = Settings::new();
    let mut i: usize = 0;
    proof {
        lemma_first_keys_empty(settings.keys());
        assert(models_of(out@) =~= sanitized(models_of(settings@)).restrict(first_keys(settings.keys(), 0)));
    }
    while i < settings.len()
        invariant
            i <= settings.pairs().len(),
            models_of(out@) == sanitized(models_of(settings@)).restrict(first_keys(settings.keys(), i as int)),
        decreases settings.pairs().len() - i,
    {
        let (k, v) = settings.entry(i);
        let ghost before = out@;
        match strip_nulls(v) {
            Some(s) => {
                out.insert(k.clone(), s);
            },
            None => {},
        }
        proof {
            lemma_first_keys_step(settings.keys(), i as int);
            let target = sanitized(models_of(settings@)).restrict(first_keys(settings.keys(), i + 1));
            assert forall|x: Seq<char>| #[trigger] models_of(out@).contains_key(x) == target.contains_key(x) by {
                if x != k@ {
                    assert(models_of(before).contains_key(x) == models_of(out@).contains_key(x));
                }
            }
            assert forall|x: Seq<char>| #[trigger] models_of(out@).contains_key(x) implies models_of(out@)[x] == target[x] by {
                if x != k@ {
                    assert(models_of(before)[x] == models_of(out@)[x]);
                }
            }
            assert(models_of(out@) =~= target);
        }
        i += 1;
    }
    proof {
        settings.lemma_all_keys();
        assert(models_of(out@) =~= sanitized(models_of(settings@)));
    }
    out
}

/// A settings map as an object's members, in key order.
pub open spec fn settings_members(m: Settings) -> Seq<(Seq<char>, Json)> {
    m.pairs().map_values(|e: (String, JsonValue)| (e.0@, e.1.model()))
}

/// A settings map as the indented JSON object text of a `settings.json`
/// file; `None` where one of its numbers holds text that is not a JSON
/// number.
pub fn settings_file_text(m: &Settings) -> (r: Option<String>)
    ensures
        match pretty_json(Json::Object(settings_members(*m))) {
            Some(x) => r matches Some(t) && t@ == x.push('\n'),
            None => r is None,
        },
{
    let mut members: Vec<(String, JsonValue)> = Vec::new();
    let mut i: usize = 0;
    while i < m.len()
        invariant
            i <= m.pairs().len(),
            members.len() == i,
            forall|j: int| 0 <= j < i ==> (#[trigger] members@[j]).0@ == m.pairs()[j].0@
                && members@[j].1.model() == m.pairs()[j].1.model(),
        decreases m.pairs().len() - i,
    {
        let (k, v) = m.entry(i);
        members.push((k.clone(), copy_value(v)));
        i += 1;
    }
    proof {
        lemma_object_model(members);
        assert(member_models(members@) =~= settings_members(*m));
    }
    json_file_text(&JsonValue::Object(members), true)
}

}
