//! Per-profile extension membership: reading ids out of `extensions.json`
//! entries, the shared pool's catalog, adding and removing members, choosing
//! what to vendor, and reporting editor CLI failures.

use vstd::prelude::*;
use crate::collections::{IdSet, NameMap, text_set, strictly_sorted, lemma_sorted_push};
use crate::config::{normalize_id, normalized_id};
use crate::json::{Json, JsonValue, copy_value, json_eq, models, lemma_array_model, lemma_object_model,
    member_models, parsed_json, parse_document};
use crate::text::{has_prefix, has_suffix, ends_with, lex_lt, text_less, has_text, lower_text, starts_with, contains_text, to_ascii_lowercase,
    trimmed_lines, trimmed_lines_of, owned};

verus! {

/// How an extension was added to a profile.
pub enum AddMethod {
    /// Copied from the shared pool catalog (already installed on disk).
    Pool,
    /// Restored from a vendored copy in the repo.
    Vendor,
    /// Fetched and installed via the editor CLI.
    Cli,
}

// ---------------------------------------------------------------------------
// Reading entries
// ---------------------------------------------------------------------------

/// The value of the first member named `key`.
pub open spec fn member(ms: Seq<(Seq<char>, Json)>, key: Seq<char>) -> Option<Json>
    decreases ms.len(),
{
    if ms.len() == 0 {
        None
    } else if ms[0].0 == key {
        Some(ms[0].1)
    } else {
        member(ms.drop_first(), key)
    }
}

/// The value of member `key` of an object value (`None` for other values).
pub open spec fn field(j: Json, key: Seq<char>) -> Option<Json> {
    match j {
        Json::Object(ms) => member(ms, key),
        _ => None,
    }
}

/// The text of member `key`, when it is a string.
pub open spec fn text_field(j: Json, key: Seq<char>) -> Option<Seq<char>> {
    match field(j, key) {
        Some(Json::Str(s)) => Some(s),
        _ => None,
    }
}

/// Reading a one-field record from a JSON value: an object's member `key`,
/// or the single element of a one-element array.
pub open spec fn record_field(j: Json, key: Seq<char>) -> Option<Json> {
    match j {
        Json::Object(ms) => member(ms, key),
        Json::Array(items) => if items.len() == 1 { Some(items[0]) } else { None },
        _ => None,
    }
}

/// The raw `identifier.id` of an `extensions.json` entry, read as the
/// `{ identifier: { id: String } }` record it deserializes into.
pub open spec fn raw_entry_id(j: Json) -> Option<Seq<char>> {
    match record_field(j, "identifier"@) {
        Some(ident) => match record_field(ident, "id"@) {
            Some(Json::Str(s)) => Some(s),
            _ => None,
        },
        None => None,
    }
}

/// The normalized id of an `extensions.json` entry.
pub open spec fn entry_id_spec(j: Json) -> Option<Seq<char>> {
    match raw_entry_id(j) {
        Some(s) => Some(normalized_id(s)),
        None => None,
    }
}

/// The value of the first member named `key`.
pub fn find_member<'a>(members: &'a Vec<(String, JsonValue)>, key: &str) -> (r: Option<&'a JsonValue>)
    ensures
        match r {
            Some(v) => member(member_models(members@), key@) == Some(v.model()),
            None => member(member_models(members@), key@) is None,
        },
{
    let ghost ms = member_models(members@);
    let mut i: usize = 0;
    proof {
        assert(ms.skip(0) =~= ms);
    }
    while i < members.len()
        invariant
            i <= members.len(),
            ms == member_models(members@),
            member(ms, key@) == member(ms.skip(i as int), key@),
        decreases members.len() - i,
    {
        proof {
            assert(ms.skip(i as int)[0] == ms[i as int]);
            assert(ms.skip(i as int).drop_first() =~= ms.skip(i + 1));
        }
        if crate::text::same_text(members[i].0.as_str(), key) {
            return Some(&members[i].1);
        }
        i += 1;
    }
    None
}

fn record_value<'a>(v: &'a JsonValue, key: &str) -> (r: Option<&'a JsonValue>)
    ensures
        match r {
            Some(x) => record_field(v.model(), key@) == Some(x.model()),
            None => record_field(v.model(), key@) is None,
        },
{
    match v {
        JsonValue::Object(ms) => {
            proof {
                lemma_object_model(*ms);
            }
            find_member(ms, key)
        },
        JsonValue::Array(items) => {
            proof {
                lemma_array_model(*items);
            }
            if items.len() == 1 {
                Some(&items[0])
            } else {
                None
            }
        },
        _ => None,
    }
}

/// The normalized id of an `extensions.json` entry.
pub fn entry_id(entry: &JsonValue) -> (r: Option<String>)
    ensures
        match r {
            Some(s) => entry_id_spec(entry.model()) == Some(s@),
            None => entry_id_spec(entry.model()) is None,
        },
{
    let ident = record_value(entry, "identifier")?;
    match record_value(ident, "id")? {
        JsonValue::String(s) => Some(normalize_id(s.as_str())),
        _ => None,
    }
}

}

verus! {

/// The normalized ids named by a list of entries.
pub open spec fn entry_ids(es: Seq<Json>) -> Set<Seq<char>> {
    Set::new(|k: Seq<char>| exists|i: int| 0 <= i < es.len() && entry_id_spec(#[trigger] es[i]) == Some(k))
}

/// The normalized extension ids of the entries an `extensions.json` file
/// holds (entries without a readable id are skipped; a missing file holds
/// none).
pub fn read_membership_file(entries: &Vec<JsonValue>) -> (r: IdSet)
    ensures
        r@ == entry_ids(models(entries@)),
{
    let ghost es = models(entries@);
    let mut out = IdSet::new();
    let mut i: usize = 0;
    proof {
        assert(out@ =~= entry_ids(es.take(0)));
    }
    while i < entries.len()
        invariant
            i <= entries.len(),
            es == models(entries@),
            out@ == entry_ids(es.take(i as int)),
        decreases entries.len() - i,
    {
        let id = entry_id(&entries[i]);
        let ghost before = out@;
        match id {
            Some(s) => {
                out.insert(s);
            },
            None => {},
        }
        proof {
            assert forall|k: Seq<char>| #[trigger] out@.contains(k) == entry_ids(es.take(i + 1)).contains(k) by {
                if entry_ids(es.take(i + 1)).contains(k) {
                    let j = choose|j: int| 0 <= j < es.take(i + 1).len() && entry_id_spec(#[trigger] es.take(i + 1)[j]) == Some(k);
                    if j < i {
                        assert(es.take(i as int)[j] == es.take(i + 1)[j]);
                    }
                }
                if before.contains(k) {
                    let j = choose|j: int| 0 <= j < es.take(i as int).len() && entry_id_spec(#[trigger] es.take(i as int)[j]) == Some(k);
                    assert(es.take(i as int)[j] == es.take(i + 1)[j]);
                }
                if out@.contains(k) && !before.contains(k) {
                    assert(es.take(i + 1)[i as int] == es[i as int]);
                }
            }
            assert(out@ =~= entry_ids(es.take(i + 1)));
        }
        i += 1;
    }
    proof {
        assert(es.take(entries.len() as int) =~= es);
    }
    out
}

/// The entry list an `extensions.json` text holds: `None` where the text is
/// not valid JSON or not an array.
pub fn entries_of_text(text: &str) -> (r: Option<Vec<JsonValue>>)
    ensures
        match parsed_json(text@) {
            Some(Json::Array(es)) => r matches Some(v) && models(v@) == es,
            _ => r is None,
        },
{
    match parse_document(text) {
        Some(JsonValue::Array(items)) => {
            proof {
                lemma_array_model(items);
            }
            Some(items)
        },
        _ => None,
    }
}

/// The normalized extension ids that an `extensions.json` text names: `None`
/// where the text is not a JSON array.
pub fn read_membership_text(text: &str) -> (r: Option<IdSet>)
    ensures
        match parsed_json(text@) {
            Some(Json::Array(es)) => r matches Some(s) && s@ == entry_ids(es),
            _ => r is None,
        },
{
    match entries_of_text(text) {
        Some(entries) => Some(read_membership_file(&entries)),
        None => None,
    }
}

/// The first entry with normalized id `id`.
pub open spec fn first_entry(es: Seq<Json>, id: Seq<char>) -> Option<Json>
    decreases es.len(),
{
    if es.len() == 0 {
        None
    } else if entry_id_spec(es[0]) == Some(id) {
        Some(es[0])
    } else {
        first_entry(es.drop_first(), id)
    }
}

/// Full pool catalog entries, keyed by normalized extension id.
pub type Catalog = NameMap<JsonValue>;

proof fn lemma_first_entry_prefix(es: Seq<Json>, n: int, id: Seq<char>)
    requires
        0 <= n < es.len(),
    ensures
        first_entry(es.take(n + 1), id) == match first_entry(es.take(n), id) {
            Some(e) => Some(e),
            None => if entry_id_spec(es[n]) == Some(id) { Some(es[n]) } else { None },
        },
    decreases n,
{
    if n == 0 {
        assert(es.take(1).drop_first() =~= Seq::<Json>::empty());
        assert(es.take(1)[0] == es[0]);
        assert(first_entry(es.take(1).drop_first(), id) is None);
        assert(first_entry(es.take(0), id) is None);
    } else {
        let d = es.drop_first();
        assert(es.take(n + 1).drop_first() =~= d.take(n));
        assert(es.take(n).drop_first() =~= d.take(n - 1));
        assert(es.take(n + 1)[0] == es[0]);
        assert(es.take(n)[0] == es[0]);
        if entry_id_spec(es[0]) != Some(id) {
            lemma_first_entry_prefix(d, n - 1, id);
            assert(d[n - 1] == es[n]);
            assert(first_entry(es.take(n + 1), id) == first_entry(d.take(n), id));
            assert(first_entry(es.take(n), id) == first_entry(d.take(n - 1), id));
        }
    }
}

/// The shared pool's catalog, from the entries of its `extensions.json`: each
/// id maps to the first entry that carries it.
pub fn pool_catalog(entries: &Vec<JsonValue>) -> (r: Catalog)
    ensures
        forall|k: Seq<char>| #[trigger] r@.contains_key(k) == first_entry(models(entries@), k) is Some,
        forall|k: Seq<char>| #[trigger] r@.contains_key(k) ==> Some(r@[k].model()) == first_entry(models(entries@), k),
{
    let ghost es = models(entries@);
    let mut catalog: Catalog = NameMap::new();
    let mut i: usize = 0;
    while i < entries.len()
        invariant
            i <= entries.len(),
            es == models(entries@),
            forall|k: Seq<char>| #[trigger] catalog@.contains_key(k) == first_entry(es.take(i as int), k) is Some,
            forall|k: Seq<char>| #[trigger] catalog@.contains_key(k) ==> Some(catalog@[k].model()) == first_entry(es.take(i as int), k),
        decreases entries.len() - i,
    {
        let id = entry_id(&entries[i]);
        proof {
            assert forall|k: Seq<char>| true implies #[trigger] first_entry(es.take(i + 1), k) == match first_entry(es.take(i as int), k) {
                Some(e) => Some(e),
                None => if entry_id_spec(es[i as int]) == Some(k) { Some(es[i as int]) } else { None },
            } by {
                lemma_first_entry_prefix(es, i as int, k);
            }
        }
        match id {
            Some(s) => {
                if !catalog.contains_key(s.as_str()) {
                    catalog.insert(s, copy_value(&entries[i]));
                }
            },
            None => {},
        }
        i += 1;
    }
    proof {
        assert(es.take(entries.len() as int) =~= es);
    }
    catalog
}

/// `es` without the entries whose id is `id`.
pub open spec fn without_id(es: Seq<Json>, id: Seq<char>) -> Seq<Json>
    decreases es.len(),
{
    if es.len() == 0 {
        es
    } else {
        let rest = without_id(es.drop_last(), id);
        if entry_id_spec(es.last()) == Some(id) {
            rest
        } else {
            rest.push(es.last())
        }
    }
}

/// Removes `id` from a membership list, returning the remaining entries and
/// whether any entry was removed.
pub fn remove_member(entries: &Vec<JsonValue>, id: &str) -> (r: (Vec<JsonValue>, bool))
    ensures
        models(r.0@) == without_id(models(entries@), id@),
        r.1 == (r.0@.len() != entries@.len()),
        r.1 == entry_ids(models(entries@)).contains(id@),
{
    let ghost es = models(entries@);
    let mut out: Vec<JsonValue> = Vec::new();
    let mut i: usize = 0;
    while i < entries.len()
        invariant
            i <= entries.len(),
            es == models(entries@),
            models(out@) == without_id(es.take(i as int), id@),
            out@.len() <= i,
            (out@.len() == i) == !entry_ids(es.take(i as int)).contains(id@),
        decreases entries.len() - i,
    {
        let e = &entries[i];
        let ghost before = out@;
        proof {
            assert(es.take(i + 1).drop_last() =~= es.take(i as int));
            assert(es.take(i + 1).last() == es[i as int]);
        }
        let matches = match entry_id(e) {
            Some(s) => crate::text::same_text(s.as_str(), id),
            None => false,
        };
        if !matches {
            out.push(copy_value(e));
            proof {
                assert(models(out@) =~= models(before).push(e.model()));
            }
        }
        proof {
            assert(entry_ids(es.take(i + 1)).contains(id@) == (entry_ids(es.take(i as int)).contains(id@) || matches)) by {
                if entry_ids(es.take(i + 1)).contains(id@) {
                    let j = choose|j: int| 0 <= j < es.take(i + 1).len() && entry_id_spec(#[trigger] es.take(i + 1)[j]) == Some(id@);
                    if j < i {
                        assert(es.take(i as int)[j] == es.take(i + 1)[j]);
                    }
                }
                if entry_ids(es.take(i as int)).contains(id@) {
                    let j = choose|j: int| 0 <= j < es.take(i as int).len() && entry_id_spec(#[trigger] es.take(i as int)[j]) == Some(id@);
                    assert(es.take(i as int)[j] == es.take(i + 1)[j]);
                }
                if matches {
                    assert(entry_id_spec(es.take(i + 1)[i as int]) == Some(id@));
                }
            }
        }
        i += 1;
    }
    proof {
        assert(es.take(entries.len() as int) =~= es);
    }
    let removed = out.len() != entries.len();
    (out, removed)
}

/// The outcome of adding an extension from the pool catalog.
pub enum CatalogAdd {
    /// The pool does not have the extension.
    NotInPool,
    /// The profile already lists it: nothing to write.
    AlreadyMember,
    /// The new membership list, with the pool's entry appended.
    Added(Vec<JsonValue>),
}

/// Adds the pool's catalog entry for `id` to a membership list.
pub fn add_from_catalog_entries(entries: &Vec<JsonValue>, id: &str, catalog: &Catalog) -> (r: CatalogAdd)
    ensures
        !catalog@.contains_key(id@) ==> r is NotInPool,
        catalog@.contains_key(id@) && entry_ids(models(entries@)).contains(id@) ==> r is AlreadyMember,
        catalog@.contains_key(id@) && !entry_ids(models(entries@)).contains(id@) ==>
            (r matches CatalogAdd::Added(v) && models(v@) == models(entries@).push(catalog@[id@].model())),
{
    let entry = match catalog.get(id) {
        Some(e) => e,
        None => return CatalogAdd::NotInPool,
    };
    match append_member(entries, id, entry) {
        Some(v) => CatalogAdd::Added(v),
        None => CatalogAdd::AlreadyMember,
    }
}

}

verus! {

// ---------------------------------------------------------------------------
// Editor CLI failures
// ---------------------------------------------------------------------------

/// Electron/Chromium and Node noise, and progress chatter.
pub open spec fn is_noise(l: Seq<char>) -> bool {
    ||| l.len() == 0
    ||| starts_with(l, "Warning:"@)
    ||| contains_text(l, "DeprecationWarning"@)
    ||| contains_text(l, "trace-deprecation"@)
    ||| starts_with(l, "Installing extensions"@)
}

/// A line that names the failure.
pub open spec fn names_failure(l: Seq<char>) -> bool {
    ||| contains_text(l, "not found"@)
    ||| starts_with(l, "Failed"@)
    ||| contains_text(lower_text(l), "error"@)
}

/// The lines that are not noise, in order.
pub open spec fn quiet_lines(ls: Seq<Seq<char>>) -> Seq<Seq<char>>
    decreases ls.len(),
{
    if ls.len() == 0 {
        ls
    } else {
        let rest = quiet_lines(ls.drop_last());
        if is_noise(ls.last()) {
            rest
        } else {
            rest.push(ls.last())
        }
    }
}

/// The last line that names the failure.
pub open spec fn last_failure(ls: Seq<Seq<char>>) -> Option<Seq<char>>
    decreases ls.len(),
{
    if ls.len() == 0 {
        None
    } else if names_failure(ls.last()) {
        Some(ls.last())
    } else {
        last_failure(ls.drop_last())
    }
}

/// The most informative line of a CLI run's output: the last line naming the
/// failure, else the last line that is not noise, else `unknown error`.
pub open spec fn error_line(stderr: Seq<char>, stdout: Seq<char>) -> Seq<char> {
    let ls = quiet_lines(trimmed_lines(stderr) + trimmed_lines(stdout));
    match last_failure(ls) {
        Some(l) => l,
        None => if ls.len() > 0 { ls.last() } else { "unknown error"@ },
    }
}

fn noise_line(l: &str) -> (r: bool)
    ensures
        r == is_noise(l@),
{
    l.is_empty() || has_prefix(l, "Warning:") || has_text(l, "DeprecationWarning")
        || has_text(l, "trace-deprecation") || has_prefix(l, "Installing extensions")
}

fn failure_line(l: &str) -> (r: bool)
    ensures
        r == names_failure(l@),
{
    if has_text(l, "not found") || has_prefix(l, "Failed") {
        return true;
    }
    let low = to_ascii_lowercase(l);
    has_text(low.as_str(), "error")
}

/// Picks the most informative line of editor CLI output, skipping noise and
/// preferring a line that names the failure.
pub fn best_error_line(stderr: &str, stdout: &str) -> (r: String)
    ensures
        r@ == error_line(stderr@, stdout@),
{
    let mut all = trimmed_lines_of(stderr);
    let more = trimmed_lines_of(stdout);
    let ghost first = all@.map_values(|l: String| l@);
    let ghost rest = more@.map_values(|l: String| l@);
    let mut k: usize = 0;
    while k < more.len()
        invariant
            k <= more.len(),
            rest == more@.map_values(|l: String| l@),
            all@.map_values(|l: String| l@) == first + rest.take(k as int),
        decreases more.len() - k,
    {
        let ghost before = all@.map_values(|l: String| l@);
        all.push(owned(more[k].as_str()));
        proof {
            assert(all@.map_values(|l: String| l@) =~= before.push(rest[k as int]));
            assert(first + rest.take(k + 1) =~= (first + rest.take(k as int)).push(rest[k as int]));
        }
        k += 1;
    }
    proof {
        assert(rest.take(more.len() as int) =~= rest);
    }
    let ghost ls = all@.map_values(|l: String| l@);
    let mut kept: Vec<String> = Vec::new();
    let mut i: usize = 0;
    while i < all.len()
        invariant
            i <= all.len(),
            ls == all@.map_values(|l: String| l@),
            kept@.map_values(|l: String| l@) == quiet_lines(ls.take(i as int)),
        decreases all.len() - i,
    {
        proof {
            assert(ls.take(i + 1).drop_last() =~= ls.take(i as int));
            assert(ls.take(i + 1).last() == all@[i as int]@);
        }
        if !noise_line(all[i].as_str()) {
            let ghost before = kept@.map_values(|l: String| l@);
            kept.push(owned(all[i].as_str()));
            proof {
                assert(kept@.map_values(|l: String| l@) =~= before.push(all@[i as int]@));
            }
        }
        i += 1;
    }
    proof {
        assert(ls.take(all.len() as int) =~= ls);
    }
    let ghost q = kept@.map_values(|l: String| l@);
    let mut j: usize = kept.len();
    proof {
        assert(q.take(j as int) =~= q);
    }
    while j > 0
        invariant
            j <= kept.len(),
            q == kept@.map_values(|l: String| l@),
            q == quiet_lines(trimmed_lines(stderr@) + trimmed_lines(stdout@)),
            last_failure(q) == last_failure(q.take(j as int)),
        decreases j,
    {
        proof {
            assert(q.take(j as int).drop_last() =~= q.take(j - 1));
            assert(q.take(j as int).last() == kept@[j - 1]@);
        }
        if failure_line(kept[j - 1].as_str()) {
            return owned(kept[j - 1].as_str());
        }
        j -= 1;
    }
    if kept.len() > 0 {
        owned(kept[kept.len() - 1].as_str())
    } else {
        owned("unknown error")
    }
}

}

verus! {

// ---------------------------------------------------------------------------
// Vendoring local extensions
// ---------------------------------------------------------------------------

/// Where an entry was installed from (`metadata.source`).
pub open spec fn entry_source_spec(j: Json) -> Option<Seq<char>> {
    match field(j, "metadata"@) {
        Some(meta) => text_field(meta, "source"@),
        None => None,
    }
}

fn text_member(v: &JsonValue, key: &str) -> (r: Option<String>)
    ensures
        match r {
            Some(s) => text_field(v.model(), key@) == Some(s@),
            None => text_field(v.model(), key@) is None,
        },
{
    match v {
        JsonValue::Object(ms) => {
            proof {
                lemma_object_model(*ms);
            }
            match find_member(ms, key) {
                Some(JsonValue::String(s)) => Some(owned(s.as_str())),
                _ => None,
            }
        },
        _ => None,
    }
}

/// `metadata.source` of a catalog entry.
pub fn entry_source(entry: &JsonValue) -> (r: Option<String>)
    ensures
        match r {
            Some(s) => entry_source_spec(entry.model()) == Some(s@),
            None => entry_source_spec(entry.model()) is None,
        },
{
    match entry {
        JsonValue::Object(ms) => {
            proof {
                lemma_object_model(*ms);
            }
            match find_member(ms, "metadata") {
                Some(meta) => text_member(meta, "source"),
                None => None,
            }
        },
        _ => None,
    }
}

/// `relativeLocation` of a catalog entry: its folder under the pool.
pub fn relative_location(entry: &JsonValue) -> (r: Option<String>)
    ensures
        match r {
            Some(s) => text_field(entry.model(), "relativeLocation"@) == Some(s@),
            None => text_field(entry.model(), "relativeLocation"@) is None,
        },
{
    text_member(entry, "relativeLocation")
}

/// A catalog entry that was installed from a local VSIX, with its folder.
pub open spec fn vendorable(j: Json) -> bool {
    entry_source_spec(j) == Some("vsix"@) && text_field(j, "relativeLocation"@) is Some
}

/// The folder to vendor for a pool entry, when it came from a local VSIX.
pub fn vendor_folder(entry: &JsonValue) -> (r: Option<String>)
    ensures
        match r {
            Some(rel) => vendorable(entry.model()) && text_field(entry.model(), "relativeLocation"@) == Some(rel@),
            None => !vendorable(entry.model()),
        },
{
    let source = entry_source(entry);
    let is_vsix = match &source {
        Some(s) => crate::text::same_text(s.as_str(), "vsix"),
        None => false,
    };
    proof {
        reveal_strlit("vsix");
    }
    if is_vsix {
        relative_location(entry)
    } else {
        None
    }
}

/// The folder to vendor for pool entry `k`, when the pool has it and it came
/// from a local VSIX.
pub open spec fn vendor_pick(catalog: Map<Seq<char>, JsonValue>, k: Seq<char>) -> Option<Seq<char>> {
    if catalog.contains_key(k) && vendorable(catalog[k].model()) {
        text_field(catalog[k].model(), "relativeLocation"@)
    } else {
        None
    }
}

fn pick_folder(catalog: &Catalog, id: &str) -> (r: Option<String>)
    ensures
        match r {
            Some(rel) => vendor_pick(catalog@, id@) == Some(rel@),
            None => vendor_pick(catalog@, id@) is None,
        },
{
    match catalog.get(id) {
        Some(entry) => vendor_folder(entry),
        None => None,
    }
}

/// The keys of a list of pairs.
pub open spec fn first_parts(v: Seq<(String, String)>) -> Seq<Seq<char>> {
    v.map_values(|p: (String, String)| p.0@)
}

/// The members of `ids` whose pool entries came from a local VSIX, each with
/// its folder under the pool, in increasing id order. (Whether the folder is
/// still on disk is for the caller to check.)
pub fn vendor_candidates(catalog: &Catalog, ids: &IdSet) -> (r: Vec<(String, String)>)
    ensures
        strictly_sorted(first_parts(r@)),
        forall|i: int| 0 <= i < r@.len() ==> ids@.contains((#[trigger] r@[i]).0@)
            && vendor_pick(catalog@, r@[i].0@) == Some(r@[i].1@),
        forall|k: Seq<char>| ids@.contains(k) && #[trigger] vendor_pick(catalog@, k) is Some
            ==> exists|i: int| 0 <= i < r@.len() && (#[trigger] r@[i]).0@ == k,
{
    proof {
        use_type_invariant(ids);
    }
    let ghost items = ids.items();
    let mut out: Vec<(String, String)> = Vec::new();
    let ghost mut picks: Seq<int> = Seq::empty();
    let mut i: usize = 0;
    while i < ids.len()
        invariant
            items == ids.items(),
            i <= items.len(),
            strictly_sorted(items),
            picks.len() == out@.len(),
            forall|p: int| 0 <= p < picks.len() ==> 0 <= #[trigger] picks[p] < i,
            forall|p: int, q: int| 0 <= p < q < picks.len() ==> #[trigger] picks[p] < #[trigger] picks[q],
            forall|p: int| 0 <= p < out@.len() ==> (#[trigger] out@[p]).0@ == items[picks[p]]
                && vendor_pick(catalog@, out@[p].0@) == Some(out@[p].1@),
            forall|j: int| 0 <= j < i && #[trigger] vendor_pick(catalog@, items[j]) is Some
                ==> exists|p: int| 0 <= p < picks.len() && #[trigger] picks[p] == j,
        decreases items.len() - i,
    {
        let id = ids.item(i);
        let ghost before = out@;
        let ghost before_picks = picks;
        if let Some(rel) = pick_folder(catalog, id.as_str()) {
            out.push((owned(id.as_str()), rel));
            proof {
                picks = picks.push(i as int);
                assert forall|p: int| 0 <= p < out@.len() implies (#[trigger] out@[p]).0@ == items[picks[p]]
                    && vendor_pick(catalog@, out@[p].0@) == Some(out@[p].1@) by {
                    if p < before.len() {
                        assert(out@[p] == before[p]);
                        assert(picks[p] == before_picks[p]);
                    }
                }
            }
        }
        proof {
            assert forall|j: int| 0 <= j < i + 1 && #[trigger] vendor_pick(catalog@, items[j]) is Some
                implies exists|p: int| 0 <= p < picks.len() && #[trigger] picks[p] == j by {
                if j < i {
                    let p = choose|p: int| 0 <= p < before_picks.len() && #[trigger] before_picks[p] == j;
                    assert(picks[p] == before_picks[p]);
                } else {
                    assert(picks[picks.len() - 1] == j);
                }
            }
        }
        i += 1;
    }
    proof {
        let keys = first_parts(out@);
        assert forall|p: int, q: int| 0 <= p < q < keys.len() implies lex_lt(#[trigger] keys[p], #[trigger] keys[q]) by {
            assert(keys[p] == items[picks[p]]);
            assert(keys[q] == items[picks[q]]);
            assert(picks[p] < picks[q]);
        }
        assert forall|p: int| 0 <= p < out@.len() implies ids@.contains((#[trigger] out@[p]).0@) by {
            assert(items.contains(items[picks[p]]));
        }
        assert forall|k: Seq<char>| ids@.contains(k) && #[trigger] vendor_pick(catalog@, k) is Some
            implies exists|i: int| 0 <= i < out@.len() && (#[trigger] out@[i]).0@ == k by {
            let j = choose|j: int| 0 <= j < items.len() && items[j] == k;
            assert(vendor_pick(catalog@, items[j]) is Some);
            let p = choose|p: int| 0 <= p < picks.len() && #[trigger] picks[p] == j;
            assert(out@[p].0@ == k);
        }
    }
    out
}

/// The name of the sidecar file that records a vendored extension's catalog
/// entry, next to its folder.
pub fn sidecar_name(rel: &str) -> (r: String)
    ensures
        r@ == rel@ + ".entry.json"@,
{
    let mut name = owned(rel);
    crate::text::append_text(&mut name, ".entry.json");
    name
}

/// Whether a file in the vendor directory is a sidecar.
pub fn is_sidecar_name(name: &str) -> (r: bool)
    ensures
        r == ends_with(name@, ".entry.json"@),
{
    has_suffix(name, ".entry.json")
}

/// The folder of a vendored entry, when the entry is the one for `id`.
pub fn vendored_location(entry: &JsonValue, id: &str) -> (r: Option<String>)
    ensures
        match r {
            Some(rel) => entry_id_spec(entry.model()) == Some(id@)
                && text_field(entry.model(), "relativeLocation"@) == Some(rel@),
            None => entry_id_spec(entry.model()) != Some(id@)
                || text_field(entry.model(), "relativeLocation"@) is None,
        },
{
    match entry_id(entry) {
        Some(s) => {
            if crate::text::same_text(s.as_str(), id) {
                relative_location(entry)
            } else {
                None
            }
        },
        None => None,
    }
}

}

verus! {

// ---------------------------------------------------------------------------
// Restoring a vendored extension
// ---------------------------------------------------------------------------

/// Sets member `k` of a key-ordered member list to `v`: its value is replaced
/// where it is present, and otherwise it is inserted before the first larger
/// key (the `insert` of a `serde_json::Map`).
pub open spec fn put_member(ms: Seq<(Seq<char>, Json)>, k: Seq<char>, v: Json) -> Seq<(Seq<char>, Json)>
    decreases ms.len(),
{
    if ms.len() == 0 {
        seq![(k, v)]
    } else if ms[0].0 == k {
        seq![(k, v)] + ms.drop_first()
    } else if lex_lt(k, ms[0].0) {
        seq![(k, v)] + ms
    } else {
        seq![ms[0]] + put_member(ms.drop_first(), k, v)
    }
}

proof fn lemma_put_member_skip(ms: Seq<(Seq<char>, Json)>, k: Seq<char>, v: Json, i: int)
    requires
        0 <= i <= ms.len(),
        forall|j: int| 0 <= j < i ==> lex_lt(#[trigger] ms[j].0, k),
    ensures
        put_member(ms, k, v) == ms.take(i) + put_member(ms.skip(i), k, v),
    decreases i,
{
    if i == 0 {
        assert(ms.skip(0) =~= ms);
        assert(ms.take(0) + put_member(ms, k, v) =~= put_member(ms, k, v));
    } else {
        let d = ms.drop_first();
        assert(lex_lt(ms[0].0, k));
        crate::text::lemma_lex_irreflexive(k);
        crate::text::lemma_lex_asymmetric(ms[0].0, k);
        assert forall|j: int| 0 <= j < i - 1 implies lex_lt(#[trigger] d[j].0, k) by {
            assert(d[j] == ms[j + 1]);
        }
        lemma_put_member_skip(d, k, v, i - 1);
        assert(d.skip(i - 1) =~= ms.skip(i));
        assert(seq![ms[0]] + d.take(i - 1) =~= ms.take(i));
        assert(seq![ms[0]] + (d.take(i - 1) + put_member(d.skip(i - 1), k, v))
            =~= ms.take(i) + put_member(ms.skip(i), k, v));
    }
}

/// The JSON of a `file` URI location for `path`.
pub open spec fn file_location(path: Seq<char>) -> Json {
    Json::Object(seq![("$mid"@, Json::Number("1"@)), ("path"@, Json::Str(path)), ("scheme"@, Json::Str("file"@))])
}

/// An entry pointed at `path` on this machine (non-object entries are left
/// as they are).
pub open spec fn relocated(j: Json, path: Seq<char>) -> Json {
    match j {
        Json::Object(ms) => Json::Object(put_member(ms, "location"@, file_location(path))),
        _ => j,
    }
}

fn copy_members(ms: &Vec<(String, JsonValue)>, from: usize, out: &mut Vec<(String, JsonValue)>)
    requires
        from <= ms.len(),
    ensures
        member_models(final(out)@) == member_models(old(out)@) + member_models(ms@).skip(from as int),
{
    let ghost start = member_models(out@);
    let mut i: usize = from;
    while i < ms.len()
        invariant
            from <= i <= ms.len(),
            member_models(out@) == start + member_models(ms@).subrange(from as int, i as int),
        decreases ms.len() - i,
    {
        let ghost before = member_models(out@);
        out.push((owned(ms[i].0.as_str()), copy_value(&ms[i].1)));
        proof {
            assert(member_models(out@) =~= before.push(member_models(ms@)[i as int]));
            assert(member_models(ms@).subrange(from as int, i + 1)
                =~= member_models(ms@).subrange(from as int, i as int).push(member_models(ms@)[i as int]));
        }
        i += 1;
    }
    proof {
        assert(member_models(ms@).subrange(from as int, ms@.len() as int) =~= member_models(ms@).skip(from as int));
    }
}

/// Sets member `key` of a key-ordered member list to `value`.
pub fn put_member_value(ms: &Vec<(String, JsonValue)>, key: &str, value: JsonValue) -> (r: Vec<(String, JsonValue)>)
    ensures
        member_models(r@) == put_member(member_models(ms@), key@, value.model()),
{
    let ghost m = member_models(ms@);
    let mut out: Vec<(String, JsonValue)> = Vec::new();
    let mut i: usize = 0;
    while i < ms.len() && text_less(ms[i].0.as_str(), key)
        invariant
            i <= ms.len(),
            m == member_models(ms@),
            member_models(out@) == m.take(i as int),
            forall|j: int| 0 <= j < i ==> lex_lt(#[trigger] m[j].0, key@),
        decreases ms.len() - i,
    {
        let ghost before = member_models(out@);
        out.push((owned(ms[i].0.as_str()), copy_value(&ms[i].1)));
        proof {
            assert(member_models(out@) =~= before.push(m[i as int]));
            assert(m.take(i + 1) =~= m.take(i as int).push(m[i as int]));
        }
        i += 1;
    }
    proof {
        lemma_put_member_skip(m, key@, value.model(), i as int);
    }
    let ghost vm = value.model();
    let ghost before = member_models(out@);
    out.push((owned(key), value));
    proof {
        assert(member_models(out@) =~= before.push((key@, vm)));
    }
    let from = if i < ms.len() && crate::text::same_text(ms[i].0.as_str(), key) { i + 1 } else { i };
    proof {
        let rest = m.skip(i as int);
        if i < ms.len() {
            assert(rest[0] == m[i as int]);
            assert(rest.drop_first() =~= m.skip(i + 1));
            if m[i as int].0 != key@ {
                crate::text::lemma_lex_total(m[i as int].0, key@);
            }
        } else {
            assert(rest.len() == 0);
        }
    }
    copy_members(ms, from, &mut out);
    proof {
        assert(before.push((key@, vm)) + m.skip(from as int) =~= m.take(i as int) + put_member(m.skip(i as int), key@, vm));
    }
    out
}

/// An entry pointed at this machine's pool folder `path`.
pub fn relocated_entry(entry: &JsonValue, path: &str) -> (r: JsonValue)
    ensures
        r.model() == relocated(entry.model(), path@),
{
    match entry {
        JsonValue::Object(ms) => {
            let mut loc: Vec<(String, JsonValue)> = Vec::new();
            loc.push((owned("$mid"), JsonValue::Number(owned("1"))));
            loc.push((owned("path"), JsonValue::String(owned(path))));
            loc.push((owned("scheme"), JsonValue::String(owned("file"))));
            let location = JsonValue::Object(loc);
            proof {
                lemma_object_model(loc);
                assert(member_models(loc@) =~= seq![("$mid"@, Json::Number("1"@)), ("path"@, Json::Str(path@)), ("scheme"@, Json::Str("file"@))]);
                lemma_object_model(*ms);
            }
            let out = put_member_value(ms, "location", location);
            proof {
                lemma_object_model(out);
            }
            JsonValue::Object(out)
        },
        _ => copy_value(entry),
    }
}

/// Adds `entry` for extension `id` to a membership list; `None` when the list
/// already has an entry with that id.
pub fn append_member(entries: &Vec<JsonValue>, id: &str, entry: &JsonValue) -> (r: Option<Vec<JsonValue>>)
    ensures
        entry_ids(models(entries@)).contains(id@) <==> r is None,
        r matches Some(v) ==> models(v@) == models(entries@).push(entry.model()),
{
    let (_, present) = remove_member(entries, id);
    if present {
        return None;
    }
    let mut out: Vec<JsonValue> = Vec::new();
    let mut i: usize = 0;
    while i < entries.len()
        invariant
            i <= entries.len(),
            out@.len() == i,
            forall|j: int| 0 <= j < i ==> (#[trigger] out@[j]).model() == entries@[j].model(),
        decreases entries.len() - i,
    {
        out.push(copy_value(&entries[i]));
        i += 1;
    }
    out.push(copy_value(entry));
    proof {
        assert(models(out@) =~= models(entries@).push(entry.model()));
    }
    Some(out)
}

}

verus! {

// ---------------------------------------------------------------------------
// Laws of membership
// ---------------------------------------------------------------------------

proof fn lemma_first_entry_has_id(es: Seq<Json>, id: Seq<char>)
    ensures
        first_entry(es, id) matches Some(e) ==> entry_id_spec(e) == Some(id),
    decreases es.len(),
{
    if es.len() > 0 && entry_id_spec(es[0]) != Some(id) {
        lemma_first_entry_has_id(es.drop_first(), id);
    }
}

/// Adding an extension from the pool catalog makes it a member: the pool's
/// entry for `id` carries `id`, so after it is appended to a membership list,
/// the list has `id` (and adding it again finds it already there).
pub proof fn lemma_catalog_add_is_member(pool: Seq<Json>, members: Seq<Json>, id: Seq<char>)
    requires
        first_entry(pool, id) is Some,
    ensures
        entry_ids(members.push(first_entry(pool, id)->0)).contains(id),
{
    lemma_first_entry_has_id(pool, id);
    let e = first_entry(pool, id)->0;
    let n = members.push(e);
    assert(n[members.len() as int] == e);
    assert(entry_id_spec(n[members.len() as int]) == Some(id));
}

/// Removing an extension from a membership list removes exactly that id from
/// the list's members.
pub proof fn lemma_removed_not_member(es: Seq<Json>, id: Seq<char>)
    ensures
        entry_ids(without_id(es, id)) == entry_ids(es).remove(id),
    decreases es.len(),
{
    if es.len() > 0 {
        let d = es.drop_last();
        lemma_removed_not_member(d, id);
        let rest = without_id(d, id);
        assert forall|k: Seq<char>| #[trigger] entry_ids(without_id(es, id)).contains(k)
            == entry_ids(es).remove(id).contains(k) by {
            let w = without_id(es, id);
            if w.len() > rest.len() {
                assert(w == rest.push(es.last()));
            } else {
                assert(w == rest);
            }
            if entry_ids(w).contains(k) {
                let j = choose|j: int| 0 <= j < w.len() && entry_id_spec(#[trigger] w[j]) == Some(k);
                if j < rest.len() {
                    assert(w[j] == rest[j]);
                    assert(entry_ids(rest).contains(k));
                    let p = choose|p: int| 0 <= p < d.len() && entry_id_spec(#[trigger] d[p]) == Some(k);
                    assert(es[p] == d[p]);
                } else {
                    assert(w[j] == es.last());
                    assert(es[es.len() - 1] == es.last());
                }
            }
            if entry_ids(es).remove(id).contains(k) {
                let p = choose|p: int| 0 <= p < es.len() && entry_id_spec(#[trigger] es[p]) == Some(k);
                if p < d.len() {
                    assert(d[p] == es[p]);
                    assert(entry_ids(d).contains(k));
                    assert(entry_ids(rest).contains(k));
                    let j = choose|j: int| 0 <= j < rest.len() && entry_id_spec(#[trigger] rest[j]) == Some(k);
                    if w.len() > rest.len() {
                        assert(w[j] == rest[j]);
                    }
                } else {
                    assert(es[p] == es.last());
                    assert(w[w.len() - 1] == es.last());
                }
            }
        }
        assert(entry_ids(without_id(es, id)) =~= entry_ids(es).remove(id));
    } else {
        assert(entry_ids(es) =~= Set::<Seq<char>>::empty());
        assert(entry_ids(without_id(es, id)) =~= entry_ids(es).remove(id));
    }
}

proof fn lemma_put_member_keeps_others(ms: Seq<(Seq<char>, Json)>, k: Seq<char>, v: Json, key: Seq<char>)
    requires
        key != k,
    ensures
        member(put_member(ms, k, v), key) == member(ms, key),
    decreases ms.len(),
{
    let p = put_member(ms, k, v);
    if ms.len() == 0 {
        assert(p =~= seq![(k, v)]);
        assert(p[0].0 == k);
        assert(p.drop_first() =~= Seq::<(Seq<char>, Json)>::empty());
        assert(member(p.drop_first(), key) is None);
        assert(member(p, key) == member(p.drop_first(), key));
        assert(member(ms, key) is None);
    } else if ms[0].0 == k {
        assert(p[0].0 == k);
        assert(p.drop_first() =~= ms.drop_first());
        assert(member(p, key) == member(p.drop_first(), key));
        assert(member(ms, key) == member(ms.drop_first(), key));
    } else if lex_lt(k, ms[0].0) {
        assert(p[0].0 == k);
        assert(p.drop_first() =~= ms);
        assert(member(p, key) == member(p.drop_first(), key));
    } else {
        lemma_put_member_keeps_others(ms.drop_first(), k, v, key);
        assert(p[0] == ms[0]);
        assert(p.drop_first() =~= put_member(ms.drop_first(), k, v));
        assert(member(p, key) == member(ms, key));
    }
}

/// Pointing an entry at this machine's pool keeps its extension id, so a
/// restored vendored entry is recognized as the same extension.
pub proof fn lemma_relocated_keeps_id(j: Json, path: Seq<char>)
    ensures
        entry_id_spec(relocated(j, path)) == entry_id_spec(j),
{
    match j {
        Json::Object(ms) => {
            reveal_strlit("identifier");
            reveal_strlit("location");
            assert("identifier"@ != "location"@) by {
                assert("identifier"@[0] != "location"@[0]);
            }
            lemma_put_member_keeps_others(ms, "location"@, file_location(path), "identifier"@);
        },
        _ => {},
    }
}

}

verus! {

/// The editor CLI's arguments for a profile: `--profile <name>` first when the
/// profile is named (the Default profile is targeted by omitting it), then
/// `args`.
pub fn cli_arguments(profile: Option<&str>, args: &Vec<String>) -> (r: Vec<String>)
    ensures
        r@.map_values(|s: String| s@) == match profile {
            Some(name) => seq!["--profile"@, name@],
            None => Seq::<Seq<char>>::empty(),
        } + args@.map_values(|s: String| s@),
{
    let mut out: Vec<String> = Vec::new();
    if let Some(name) = profile {
        out.push(owned("--profile"));
        out.push(owned(name));
    }
    let ghost start = out@.map_values(|s: String| s@);
    let mut i: usize = 0;
    while i < args.len()
        invariant
            i <= args.len(),
            out@.map_values(|s: String| s@) == start + args@.map_values(|s: String| s@).take(i as int),
        decreases args.len() - i,
    {
        let ghost before = out@.map_values(|s: String| s@);
        out.push(owned(args[i].as_str()));
        proof {
            assert(out@.map_values(|s: String| s@) =~= before.push(args@[i as int]@));
            assert(args@.map_values(|s: String| s@).take(i + 1)
                =~= args@.map_values(|s: String| s@).take(i as int).push(args@[i as int]@));
        }
        i += 1;
    }
    proof {
        assert(args@.map_values(|s: String| s@).take(args.len() as int) =~= args@.map_values(|s: String| s@));
        match profile {
            Some(name) => assert(start =~= seq!["--profile"@, name@]),
            None => assert(start =~= Seq::<Seq<char>>::empty()),
        }
    }
    out
}

/// The editor CLI's arguments that install extension `id` into a profile.
pub fn install_arguments(profile: Option<&str>, id: &str) -> (r: Vec<String>)
    ensures
        r@.map_values(|s: String| s@) == match profile {
            Some(name) => seq!["--profile"@, name@],
            None => Seq::<Seq<char>>::empty(),
        } + seq!["--install-extension"@, id@, "--force"@],
{
    let mut args: Vec<String> = Vec::new();
    args.push(owned("--install-extension"));
    args.push(owned(id));
    args.push(owned("--force"));
    proof {
        assert(args@.map_values(|s: String| s@) =~= seq!["--install-extension"@, id@, "--force"@]);
    }
    cli_arguments(profile, &args)
}

}
