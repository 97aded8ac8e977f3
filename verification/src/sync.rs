//! The sync engine's decisions: compare the config's desired state, the
//! editor's actual state and the snapshot, and decide what each side becomes.
//! Reading and writing files is left to the caller; every choice made on the
//! way is here.

use vstd::prelude::*;
pub use crate::cli::Prefer;
use crate::collections::{IdSet, NameMap, first_keys, lemma_first_keys_step, lemma_first_keys_empty,
    strictly_sorted, text_set, texts, copy_opt, copy_strings};
use crate::config::{Config, ProfileConfig, DEFAULT_PROFILE, base_settings, base_extensions, id_set,
    normalized_id, layered_settings, layered_extensions, before_at, lemma_normalized_ascii};
use crate::editor::profiles::Profile;
use crate::snapshot::{Snapshot, ProfileSnapshot};
use crate::settings::copy_settings;
use crate::text::{owned, same_text, trimmed, is_ascii_text};
use crate::json::{Json, JsonValue, copy_value, json_eq};
use crate::settings::{Settings, models_of};
use crate::text::{lex_lt, lemma_lex_asymmetric, lemma_lex_total, lemma_lex_transitive};

verus! {

/// A per-item 3-way classification.
#[derive(Clone, Copy, Debug, PartialEq, Eq, Structural)]
pub enum Decision {
    Agree,
    TakeRepo,
    TakeEditor,
    Conflict,
}

pub open spec fn opt_model(o: Option<&JsonValue>) -> Option<Json> {
    match o {
        Some(v) => Some(v.model()),
        None => None,
    }
}

/// The 3-way decision for one item: if both sides agree there is nothing to
/// do; otherwise, with a base, the side that still equals the base takes the
/// other side's change; without a base, a side that alone has the item wins.
pub open spec fn decide(base: Option<Json>, repo: Option<Json>, editor: Option<Json>) -> Decision {
    if repo == editor {
        Decision::Agree
    } else {
        match base {
            Some(_) => {
                if repo == base {
                    Decision::TakeEditor
                } else if editor == base {
                    Decision::TakeRepo
                } else {
                    Decision::Conflict
                }
            },
            None => match (repo, editor) {
                (None, Some(_)) => Decision::TakeEditor,
                (Some(_), None) => Decision::TakeRepo,
                _ => Decision::Conflict,
            },
        }
    }
}

fn same(a: Option<&JsonValue>, b: Option<&JsonValue>) -> (r: bool)
    ensures
        r == (opt_model(a) == opt_model(b)),
{
    match (a, b) {
        (Some(x), Some(y)) => json_eq(x, y),
        (None, None) => true,
        _ => false,
    }
}

/// Classifies an item present (or absent) in the snapshot, the config and the
/// editor.
pub fn classify(base: Option<&JsonValue>, repo: Option<&JsonValue>, editor: Option<&JsonValue>) -> (r: Decision)
    ensures
        r == decide(opt_model(base), opt_model(repo), opt_model(editor)),
{
    if same(repo, editor) {
        return Decision::Agree;
    }
    match base {
        Some(_) => {
            if same(repo, base) {
                Decision::TakeEditor
            } else if same(editor, base) {
                Decision::TakeRepo
            } else {
                Decision::Conflict
            }
        },
        None => match (repo, editor) {
            (None, Some(_)) => Decision::TakeEditor,
            (Some(_), None) => Decision::TakeRepo,
            _ => Decision::Conflict,
        },
    }
}

pub open spec fn mirror(d: Decision) -> Decision {
    match d {
        Decision::TakeRepo => Decision::TakeEditor,
        Decision::TakeEditor => Decision::TakeRepo,
        _ => d,
    }
}

/// Swapping the two sides swaps which side is taken, and nothing else.
pub proof fn lemma_decide_symmetric(base: Option<Json>, repo: Option<Json>, editor: Option<Json>)
    ensures
        decide(base, editor, repo) == mirror(decide(base, repo, editor)),
{
}

/// A change made on one side only (the other still equals the base) is
/// always taken, never a conflict.
pub proof fn lemma_one_sided_change(base: Json, changed: Option<Json>)
    ensures
        Some(base) != changed ==> decide(Some(base), changed, Some(base)) == Decision::TakeRepo,
        Some(base) != changed ==> decide(Some(base), Some(base), changed) == Decision::TakeEditor,
{
}

// ---------------------------------------------------------------------------
// Conflict resolution
// ---------------------------------------------------------------------------

/// How conflicts are settled: a default side, or per-key answers given
/// beforehand (keys in `keep_editor` keep the editor's value, keys in
/// `keep_repo` the config's).
pub struct ConflictChoices {
    pub prefer: Option<Prefer>,
    pub keep_editor: IdSet,
    pub keep_repo: IdSet,
}

/// Whether a conflict on `key` is settled for the editor (`Some(true)`), for
/// the config (`Some(false)`), or not at all.
pub open spec fn conflict_choice(c: ConflictChoices, key: Seq<char>) -> Option<bool> {
    match c.prefer {
        Some(p) => Some(p == Prefer::Editor),
        None => if c.keep_editor@.contains(key) {
            Some(true)
        } else if c.keep_repo@.contains(key) {
            Some(false)
        } else {
            None
        },
    }
}

impl ConflictChoices {
    /// No default side and no answers: every conflict is unresolved.
    pub fn none() -> (r: ConflictChoices)
        ensures
            forall|k: Seq<char>| conflict_choice(r, k) is None,
    {
        ConflictChoices { prefer: None, keep_editor: IdSet::new(), keep_repo: IdSet::new() }
    }

    /// Every conflict goes to `prefer`'s side.
    pub fn prefer(prefer: Option<Prefer>) -> (r: ConflictChoices)
        ensures
            r.prefer == prefer,
            r.keep_editor@ == Set::<Seq<char>>::empty(),
            r.keep_repo@ == Set::<Seq<char>>::empty(),
    {
        ConflictChoices { prefer, keep_editor: IdSet::new(), keep_repo: IdSet::new() }
    }

    pub fn choice(&self, key: &str) -> (r: Option<bool>)
        ensures
            r == conflict_choice(*self, key@),
    {
        match self.prefer {
            Some(p) => Some(p == Prefer::Editor),
            None => if self.keep_editor.contains(key) {
                Some(true)
            } else if self.keep_repo.contains(key) {
                Some(false)
            } else {
                None
            },
        }
    }
}

/// Whether the decision takes the editor's side (`Some(true)`), the config's
/// (`Some(false)`), or is an unsettled conflict (`None`).
pub open spec fn take_editor(d: Decision, choice: Option<bool>) -> Option<bool> {
    match d {
        Decision::Agree | Decision::TakeRepo => Some(false),
        Decision::TakeEditor => Some(true),
        Decision::Conflict => choice,
    }
}

pub open spec fn lookup(m: Map<Seq<char>, Json>, k: Seq<char>) -> Option<Json> {
    if m.contains_key(k) {
        Some(m[k])
    } else {
        None
    }
}

/// The value a key ends up with after the 3-way merge (`None`: absent).
pub open spec fn merged_value(
    base: Map<Seq<char>, Json>,
    repo: Map<Seq<char>, Json>,
    editor: Map<Seq<char>, Json>,
    c: ConflictChoices,
    k: Seq<char>,
) -> Option<Json> {
    match take_editor(decide(lookup(base, k), lookup(repo, k), lookup(editor, k)), conflict_choice(c, k)) {
        Some(true) => lookup(editor, k),
        Some(false) => lookup(repo, k),
        None => None,
    }
}

/// A key that conflicts and that `c` does not settle.
pub open spec fn unresolved(
    base: Map<Seq<char>, Json>,
    repo: Map<Seq<char>, Json>,
    editor: Map<Seq<char>, Json>,
    c: ConflictChoices,
    k: Seq<char>,
) -> bool {
    &&& decide(lookup(base, k), lookup(repo, k), lookup(editor, k)) == Decision::Conflict
    &&& conflict_choice(c, k) is None
}

/// The merged settings map.
pub open spec fn merged_settings(
    base: Map<Seq<char>, Json>,
    repo: Map<Seq<char>, Json>,
    editor: Map<Seq<char>, Json>,
    c: ConflictChoices,
) -> Map<Seq<char>, Json> {
    Map::new(
        |k: Seq<char>| merged_value(base, repo, editor, c, k) is Some,
        |k: Seq<char>| merged_value(base, repo, editor, c, k)->Some_0,
    )
}

/// The keys of a settings map, as a sorted set.
pub fn key_set(m: &Settings) -> (r: IdSet)
    ensures
        r@ == m@.dom(),
{
    let mut out = IdSet::new();
    let mut i: usize = 0;
    proof {
        lemma_first_keys_empty(m.keys());
    }
    while i < m.len()
        invariant
            i <= m.pairs().len(),
            out@ == first_keys(m.keys(), i as int),
        decreases m.pairs().len() - i,
    {
        let (k, _) = m.entry(i);
        out.insert(k.clone());
        proof {
            lemma_first_keys_step(m.keys(), i as int);
        }
        i += 1;
    }
    proof {
        m.lemma_all_keys();
    }
    out
}

/// Adds every key of `m` to `set`.
pub fn add_keys(set: &mut IdSet, m: &Settings)
    ensures
        final(set)@ == old(set)@.union(m@.dom()),
{
    let mut i: usize = 0;
    proof {
        lemma_first_keys_empty(m.keys());
        assert(set@ =~= old(set)@.union(first_keys(m.keys(), 0)));
    }
    while i < m.len()
        invariant
            i <= m.pairs().len(),
            set@ == old(set)@.union(first_keys(m.keys(), i as int)),
        decreases m.pairs().len() - i,
    {
        let (k, _) = m.entry(i);
        set.insert(k.clone());
        proof {
            lemma_first_keys_step(m.keys(), i as int);
            assert(set@ =~= old(set)@.union(first_keys(m.keys(), i + 1)));
        }
        i += 1;
    }
    proof {
        m.lemma_all_keys();
    }
}

/// Reconciles a settings map against the snapshot, returning the agreed-upon
/// result, or the first key (in key order) whose conflict `choices` leaves
/// unsettled.
pub fn reconcile_settings(
    base: &Settings,
    repo: &Settings,
    editor: &Settings,
    choices: &ConflictChoices,
) -> (r: Result<Settings, String>)
    ensures
        match r {
            Ok(m) => {
                &&& forall|k: Seq<char>| !unresolved(models_of(base@), models_of(repo@), models_of(editor@), *choices, k)
                &&& models_of(m@) == merged_settings(models_of(base@), models_of(repo@), models_of(editor@), *choices)
            },
            Err(key) => {
                &&& unresolved(models_of(base@), models_of(repo@), models_of(editor@), *choices, key@)
                &&& forall|k: Seq<char>| #[trigger] unresolved(models_of(base@), models_of(repo@), models_of(editor@), *choices, k)
                    ==> !lex_lt(k, key@)
            },
        },
{
    let ghost b = models_of(base@);
    let ghost rp = models_of(repo@);
    let ghost ed = models_of(editor@);
    let mut keys = key_set(base);
    add_keys(&mut keys, repo);
    add_keys(&mut keys, editor);
    proof {
        use_type_invariant(&keys);
    }
    let mut result = Settings::new();
    let mut i: usize = 0;
    proof {
        lemma_first_keys_empty(keys.items());
        assert(models_of(result@) =~= merged_settings(b, rp, ed, *choices).restrict(first_keys(keys.items(), 0)));
    }
    while i < keys.len()
        invariant
            i <= keys.items().len(),
            strictly_sorted(keys.items()),
            keys@ == base@.dom().union(repo@.dom()).union(editor@.dom()),
            b == models_of(base@),
            rp == models_of(repo@),
            ed == models_of(editor@),
            models_of(result@) == merged_settings(b, rp, ed, *choices).restrict(first_keys(keys.items(), i as int)),
            forall|k: Seq<char>| #[trigger] first_keys(keys.items(), i as int).contains(k) ==> !unresolved(b, rp, ed, *choices, k),
        decreases keys.items().len() - i,
    {
        let key = keys.item(i);
        let bv = base.get(key.as_str());
        let rv = repo.get(key.as_str());
        let ev = editor.get(key.as_str());
        let d = classify(bv, rv, ev);
        proof {
            assert(opt_model(bv) == lookup(b, key@));
            assert(opt_model(rv) == lookup(rp, key@));
            assert(opt_model(ev) == lookup(ed, key@));
        }
        let to_editor = match d {
            Decision::Agree | Decision::TakeRepo => false,
            Decision::TakeEditor => true,
            Decision::Conflict => match choices.choice(key.as_str()) {
                Some(t) => t,
                None => {
                    proof {
                        assert forall|k: Seq<char>| #[trigger] unresolved(b, rp, ed, *choices, k) implies !lex_lt(k, key@) by {
                            if lex_lt(k, key@) {
                                // k lies in one of the maps, so it is a member of `keys`
                                if !keys@.contains(k) {
                                    assert(lookup(b, k) is None && lookup(rp, k) is None && lookup(ed, k) is None);
                                }
                                let j = choose|j: int| 0 <= j < keys.items().len() && keys.items()[j] == k;
                                if j >= i {
                                    if j > i {
                                        assert(lex_lt(keys.items()[i as int], keys.items()[j]));
                                    }
                                    lemma_lex_asymmetric(k, key@);
                                    crate::text::lemma_lex_irreflexive(k);
                                } else {
                                    assert(first_keys(keys.items(), i as int).contains(k));
                                }
                            }
                        }
                    }
                    return Err(key.clone());
                },
            },
        };
        let chosen = if to_editor { ev } else { rv };
        let ghost before = result@;
        match chosen {
            Some(v) => {
                result.insert(key.clone(), copy_value(v));
            },
            None => {},
        }
        proof {
            lemma_first_keys_step(keys.items(), i as int);
            let target = merged_settings(b, rp, ed, *choices).restrict(first_keys(keys.items(), i + 1));
            assert forall|x: Seq<char>| #[trigger] models_of(result@).contains_key(x) == target.contains_key(x) by {
                if x != key@ {
                    assert(models_of(before).contains_key(x) == models_of(result@).contains_key(x));
                }
            }
            assert forall|x: Seq<char>| #[trigger] models_of(result@).contains_key(x) implies models_of(result@)[x] == target[x] by {
                if x != key@ {
                    assert(models_of(before)[x] == models_of(result@)[x]);
                }
            }
            assert(models_of(result@) =~= target);
        }
        i += 1;
    }
    proof {
        assert(first_keys(keys.items(), keys.items().len() as int) =~= keys@);
        assert forall|k: Seq<char>| !unresolved(b, rp, ed, *choices, k) by {
            if !keys@.contains(k) {
                assert(lookup(b, k) is None && lookup(rp, k) is None && lookup(ed, k) is None);
            } else {
                assert(first_keys(keys.items(), i as int).contains(k));
            }
        }
        assert forall|k: Seq<char>| #[trigger] merged_settings(b, rp, ed, *choices).contains_key(k) implies keys@.contains(k) by {
            if !keys@.contains(k) {
                assert(lookup(b, k) is None && lookup(rp, k) is None && lookup(ed, k) is None);
            }
        }
        assert(models_of(result@) =~= merged_settings(b, rp, ed, *choices));
    }
    Ok(result)
}

}

verus! {

/// Reconciles an extension set. Presence can change on at most one side
/// relative to the base, so these never conflict: the result holds what both
/// sides hold, and what either side holds that the base did not.
pub fn reconcile_extensions(base: &IdSet, repo: &IdSet, editor: &IdSet) -> (r: IdSet)
    ensures
        r@ == repo@.intersect(editor@).union(repo@.union(editor@).difference(base@)),
{
    let mut ids = base.duplicate();
    ids.add_all(repo);
    ids.add_all(editor);
    let present = JsonValue::Bool(true);
    let ghost target = repo@.intersect(editor@).union(repo@.union(editor@).difference(base@));
    let mut result = IdSet::new();
    let mut i: usize = 0;
    proof {
        assert(first_keys(ids.items(), 0) =~= Set::<Seq<char>>::empty());
        assert(result@ =~= target.intersect(first_keys(ids.items(), 0)));
    }
    while i < ids.len()
        invariant
            i <= ids.items().len(),
            ids@ == base@.union(repo@).union(editor@),
            target == repo@.intersect(editor@).union(repo@.union(editor@).difference(base@)),
            result@ == target.intersect(first_keys(ids.items(), i as int)),
            present.model() == Json::Bool(true),
        decreases ids.items().len() - i,
    {
        let id = ids.item(i);
        let b = if base.contains(id.as_str()) { Some(&present) } else { None };
        let r = if repo.contains(id.as_str()) { Some(&present) } else { None };
        let e = if editor.contains(id.as_str()) { Some(&present) } else { None };
        let d = classify(b, r, e);
        proof {
            assert(opt_model(b) == if base@.contains(id@) { Some(Json::Bool(true)) } else { None });
            assert(opt_model(r) == if repo@.contains(id@) { Some(Json::Bool(true)) } else { None });
            assert(opt_model(e) == if editor@.contains(id@) { Some(Json::Bool(true)) } else { None });
        }
        let chosen = match d {
            Decision::Agree | Decision::TakeRepo => r,
            Decision::TakeEditor => e,
            Decision::Conflict => {
                proof {
                    // Presence values are either absent or `true`: with a base,
                    // differing sides mean one side still equals it; without a
                    // base, one side is absent.
                    assert(false);
                }
                r
            },
        };
        proof {
            let bp = base@.contains(id@);
            let rp = repo@.contains(id@);
            let ep = editor@.contains(id@);
            assert(target.contains(id@) == ((rp && ep) || ((rp || ep) && !bp)));
            assert(r.is_some() == rp);
            assert(e.is_some() == ep);
            if d == Decision::Agree {
                assert(rp == ep);
            }
            assert(chosen.is_some() == target.contains(id@));
        }
        if chosen.is_some() {
            result.insert(id.clone());
        }
        proof {
            lemma_first_keys_step(ids.items(), i as int);
            assert(result@ =~= target.intersect(first_keys(ids.items(), i + 1)));
        }
        i += 1;
    }
    proof {
        assert(first_keys(ids.items(), ids.items().len() as int) =~= ids@);
        assert(result@ =~= target);
    }
    result
}

/// Keys of `actual` that `kept` no longer has, in key order.
pub fn removed_keys(actual: &Settings, kept: &Settings) -> (r: Vec<String>)
    ensures
        text_set(r@) == actual@.dom().difference(kept@.dom()),
        strictly_sorted(texts(r@)),
{
    let keys = key_set(actual);
    let other = key_set(kept);
    keys.difference(&other)
}

// ---------------------------------------------------------------------------
// Writing settings into a settings object
// ---------------------------------------------------------------------------

/// How many of `keys` (set in order, each to its value in `vals`) change `m`.
pub open spec fn count_set(m: Map<Seq<char>, Json>, keys: Seq<Seq<char>>, vals: Map<Seq<char>, Json>) -> nat
    decreases keys.len(),
{
    if keys.len() == 0 {
        0
    } else {
        let k = keys[0];
        (if lookup(m, k) != Some(vals[k]) { 1nat } else { 0nat })
            + count_set(m.insert(k, vals[k]), keys.drop_first(), vals)
    }
}

/// How many of `keys` (removed in order) are present when removed.
pub open spec fn count_removed(m: Map<Seq<char>, Json>, keys: Seq<Seq<char>>) -> nat
    decreases keys.len(),
{
    if keys.len() == 0 {
        0
    } else {
        let k = keys[0];
        (if m.contains_key(k) { 1nat } else { 0nat }) + count_removed(m.remove(k), keys.drop_first())
    }
}

/// Writes `sets` into a settings object and removes `removes` from it,
/// returning how many keys actually changed (a key set to the value it
/// already had, or removed while absent, does not count).
pub fn apply_settings(object: &mut Settings, sets: &Settings, removes: &Vec<String>) -> (changed: usize)
    requires
        sets.pairs().len() + removes.len() <= usize::MAX,
    ensures
        models_of(final(object)@) == models_of(old(object)@).union_prefer_right(models_of(sets@)).remove_keys(text_set(removes@)),
        changed == count_set(models_of(old(object)@), sets.keys(), models_of(sets@))
            + count_removed(models_of(old(object)@).union_prefer_right(models_of(sets@)), texts(removes@)),
{
    let ghost m0 = models_of(object@);
    let ghost sv = models_of(sets@);
    let ghost total_set = count_set(m0, sets.keys(), sv);
    let mut changed: usize = 0;
    let mut i: usize = 0;
    proof {
        assert(sets.keys().skip(0) =~= sets.keys());
        lemma_first_keys_empty(sets.keys());
        assert(m0 =~= m0.union_prefer_right(sv.restrict(first_keys(sets.keys(), 0))));
    }
    while i < sets.len()
        invariant
            i <= sets.pairs().len(),
            sv == models_of(sets@),
            models_of(object@) == m0.union_prefer_right(sv.restrict(first_keys(sets.keys(), i as int))),
            changed + count_set(models_of(object@), sets.keys().skip(i as int), sv) == total_set,
            changed <= i,
        decreases sets.pairs().len() - i,
    {
        let (k, v) = sets.entry(i);
        let ghost before = models_of(object@);
        let differs = match object.get(k.as_str()) {
            Some(cur) => !json_eq(cur, v),
            None => true,
        };
        proof {
            assert(sets.keys().skip(i as int)[0] == k@);
            assert(sets.keys().skip(i as int).drop_first() =~= sets.keys().skip(i + 1));
            assert(differs == (lookup(before, k@) != Some(sv[k@])));
        }
        if differs {
            object.insert(k.clone(), copy_value(v));
            changed += 1;
        }
        proof {
            lemma_first_keys_step(sets.keys(), i as int);
            assert(models_of(object@) =~= before.insert(k@, sv[k@]));
            assert(models_of(object@) =~= m0.union_prefer_right(sv.restrict(first_keys(sets.keys(), i + 1))));
        }
        i += 1;
    }
    proof {
        sets.lemma_all_keys();
        assert(sv.restrict(sets@.dom()) =~= sv);
        assert(sets.keys().skip(sets.keys().len() as int) =~= Seq::<Seq<char>>::empty());
    }
    let ghost m1 = models_of(object@);
    let ghost rk = texts(removes@);
    let mut j: usize = 0;
    proof {
        assert(rk.skip(0) =~= rk);
        assert(m1 =~= m1.remove_keys(text_set(removes@.take(0))));
    }
    while j < removes.len()
        invariant
            j <= removes.len(),
            rk == texts(removes@),
            changed <= sets.pairs().len() + j,
            sets.pairs().len() + removes.len() <= usize::MAX,
            m1 == m0.union_prefer_right(sv),
            models_of(object@) == m1.remove_keys(text_set(removes@.take(j as int))),
            changed + count_removed(models_of(object@), rk.skip(j as int)) == total_set + count_removed(m1, rk),
        decreases removes.len() - j,
    {
        let ghost before = models_of(object@);
        let removed = object.remove(removes[j].as_str());
        proof {
            assert(rk.skip(j as int)[0] == removes@[j as int]@);
            assert(rk.skip(j as int).drop_first() =~= rk.skip(j + 1));
            assert(models_of(object@) =~= before.remove(removes@[j as int]@));
            assert(text_set(removes@.take(j + 1)) =~= text_set(removes@.take(j as int)).insert(removes@[j as int]@)) by {
                assert forall|x: Seq<char>| #[trigger] text_set(removes@.take(j + 1)).contains(x) implies
                    text_set(removes@.take(j as int)).insert(removes@[j as int]@).contains(x) by {
                    let p = choose|p: int| 0 <= p < removes@.take(j + 1).len() && (#[trigger] removes@.take(j + 1)[p])@ == x;
                    if p < j {
                        assert(removes@.take(j as int)[p] == removes@.take(j + 1)[p]);
                    }
                }
                assert forall|x: Seq<char>| #[trigger] text_set(removes@.take(j as int)).contains(x) implies
                    text_set(removes@.take(j + 1)).contains(x) by {
                    let p = choose|p: int| 0 <= p < removes@.take(j as int).len() && (#[trigger] removes@.take(j as int)[p])@ == x;
                    assert(removes@.take(j as int)[p] == removes@.take(j + 1)[p]);
                }
                assert(removes@.take(j + 1)[j as int] == removes@[j as int]);
            }
            assert(models_of(object@) =~= m1.remove_keys(text_set(removes@.take(j + 1))));
        }
        if removed.is_some() {
            changed += 1;
        }
        j += 1;
    }
    proof {
        assert(removes@.take(removes.len() as int) =~= removes@);
        assert(rk.skip(rk.len() as int) =~= Seq::<Seq<char>>::empty());
    }
    changed
}

}

verus! {

/// The groups a profile includes (the Default profile's come from
/// `[default]`; an unknown profile has none).
pub open spec fn groups_of(c: Config, name: Seq<char>) -> Seq<String> {
    if name == DEFAULT_PROFILE@ {
        c.default.groups@
    } else if c.profiles@.contains_key(name) {
        c.profiles@[name].groups@
    } else {
        Seq::empty()
    }
}

/// The desired state of a profile from base layers only (global + its
/// groups), excluding profile-level settings and extensions.
pub fn baseline(config: &Config, name: &str) -> (r: (Settings, IdSet))
    ensures
        models_of(r.0@) == base_settings(*config, groups_of(*config, name@)),
        r.1@ == base_extensions(*config, groups_of(*config, name@)),
{
    let empty_settings: Settings = NameMap::new();
    let empty_ids: Vec<String> = Vec::new();
    let groups: Vec<String> = if same_text(name, DEFAULT_PROFILE) {
        copy_strings(&config.default.groups)
    } else {
        match config.profiles.get(name) {
            Some(p) => copy_strings(&p.groups),
            None => Vec::new(),
        }
    };
    let (settings, extensions) = config.layer(&groups, &empty_settings, &empty_ids, &empty_ids);
    proof {
        assert(models_of(empty_settings@) =~= Map::<Seq<char>, Json>::empty());
        assert(base_settings(*config, groups@).union_prefer_right(Map::<Seq<char>, Json>::empty())
            =~= base_settings(*config, groups@));
        assert(id_set(empty_ids@) =~= Set::<Seq<char>>::empty());
        assert(extensions@ =~= base_extensions(*config, groups@));
    }
    (settings, extensions)
}

/// The entries of `settings` whose value differs from (or is missing in)
/// `base`.
pub open spec fn delta_of(settings: Map<Seq<char>, Json>, base: Map<Seq<char>, Json>) -> Map<Seq<char>, Json> {
    settings.restrict(Set::new(|k: Seq<char>| lookup(base, k) != Some(settings[k])))
}

/// The entries of `settings` that `base` does not already give.
pub fn settings_delta(settings: &Settings, base: &Settings) -> (r: Settings)
    ensures
        models_of(r@) == delta_of(models_of(settings@), models_of(base@)),
{
    let ghost target = delta_of(models_of(settings@), models_of(base@));
    let mut out = Settings::new();
    let mut i: usize = 0;
    proof {
        lemma_first_keys_empty(settings.keys());
        assert(models_of(out@) =~= target.restrict(first_keys(settings.keys(), 0)));
    }
    while i < settings.len()
        invariant
            i <= settings.pairs().len(),
            target == delta_of(models_of(settings@), models_of(base@)),
            models_of(out@) == target.restrict(first_keys(settings.keys(), i as int)),
        decreases settings.pairs().len() - i,
    {
        let (k, v) = settings.entry(i);
        let ghost before = out@;
        let unchanged = match base.get(k.as_str()) {
            Some(b) => json_eq(b, v),
            None => false,
        };
        if !unchanged {
            out.insert(k.clone(), copy_value(v));
        }
        proof {
            lemma_first_keys_step(settings.keys(), i as int);
            let t = target.restrict(first_keys(settings.keys(), i + 1));
            assert forall|x: Seq<char>| #[trigger] models_of(out@).contains_key(x) == t.contains_key(x) by {
                if x != k@ {
                    assert(models_of(before).contains_key(x) == models_of(out@).contains_key(x));
                }
            }
            assert forall|x: Seq<char>| #[trigger] models_of(out@).contains_key(x) implies models_of(out@)[x] == t[x] by {
                if x != k@ {
                    assert(models_of(before)[x] == models_of(out@)[x]);
                }
            }
            assert(models_of(out@) =~= t);
        }
        i += 1;
    }
    proof {
        settings.lemma_all_keys();
        assert(models_of(out@) =~= target);
    }
    out
}

/// What a captured named profile becomes in the config.
pub open spec fn captured_profile(
    old_entry: Option<ProfileConfig>,
    p: ProfileConfig,
    editor_profile: Profile,
    delta: Map<Seq<char>, Json>,
    added: Set<Seq<char>>,
    excluded: Set<Seq<char>>,
) -> bool {
    &&& p.groups@ == match old_entry {
        Some(e) => e.groups@,
        None => Seq::<String>::empty(),
    }
    &&& models_of(p.settings@) == delta
    &&& text_set(p.extensions@) == added
    &&& strictly_sorted(texts(p.extensions@))
    &&& text_set(p.exclude_extensions@) == excluded
    &&& strictly_sorted(texts(p.exclude_extensions@))
    &&& p.icon == match editor_profile.icon {
        Some(i) => Some(i),
        None => match old_entry {
            Some(e) => e.icon,
            None => None,
        },
    }
    &&& p.use_default@ == editor_profile.use_default@
}

/// What capturing the profile `name` (with the editor profile
/// `editor_profile`, agreed settings `settings` and extensions `extensions`)
/// makes of the config `c0`: the delta over the profile's base layers, in
/// `[default]` for the Default profile and in its `[profiles.*]` entry
/// otherwise; every other part of the config unchanged.
pub open spec fn captured(
    c0: Config,
    c1: Config,
    name: Seq<char>,
    editor_profile: Profile,
    settings: Map<Seq<char>, Json>,
    extensions: Set<Seq<char>>,
) -> bool {
    &&& c1.editor == c0.editor
    &&& c1.global == c0.global
    &&& c1.groups == c0.groups
    &&& {
        let base_s = base_settings(c0, groups_of(c0, name));
        let base_e = base_extensions(c0, groups_of(c0, name));
        let delta = delta_of(settings, base_s);
        if name == DEFAULT_PROFILE@ {
            &&& c1.profiles == c0.profiles
            &&& c1.default.groups == c0.default.groups
            &&& models_of(c1.default.settings@) == delta
            &&& text_set(c1.default.extensions@) == extensions.difference(base_e)
            &&& strictly_sorted(texts(c1.default.extensions@))
            &&& text_set(c1.default.exclude_extensions@) == base_e.difference(extensions)
            &&& strictly_sorted(texts(c1.default.exclude_extensions@))
        } else {
            &&& c1.default == c0.default
            &&& c1.profiles@.dom() == c0.profiles@.dom().insert(name)
            &&& forall|n: Seq<char>| n != name && #[trigger] c0.profiles@.contains_key(n)
                ==> c1.profiles@[n] == c0.profiles@[n]
            &&& captured_profile(
                if c0.profiles@.contains_key(name) { Some(c0.profiles@[name]) } else { None },
                c1.profiles@[name],
                editor_profile,
                delta,
                extensions.difference(base_e),
                base_e.difference(extensions),
            )
        }
    }
}

/// Writes a profile's reconciled state into the config as a delta over its
/// base (global + groups) layers, and records it in the snapshot.
pub fn capture_profile(
    config: &mut Config,
    snapshot: &mut Snapshot,
    name: &str,
    editor_profile: &Profile,
    settings: &Settings,
    extensions: &IdSet,
)
    ensures
        captured(*old(config), *final(config), name@, *editor_profile, models_of(settings@), extensions@),
        final(snapshot).profiles@.dom() == old(snapshot).profiles@.dom().insert(name@),
        forall|n: Seq<char>| n != name@ && #[trigger] old(snapshot).profiles@.contains_key(n)
            ==> final(snapshot).profiles@[n] == old(snapshot).profiles@[n],
        models_of(final(snapshot).profiles@[name@].settings@) == models_of(settings@),
        final(snapshot).profiles@[name@].extensions@ == extensions@,
{
    let (base_settings_now, base_extensions_now) = baseline(config, name);
    let delta = settings_delta(settings, &base_settings_now);
    let ext_add = extensions.difference(&base_extensions_now);
    let ext_excl = base_extensions_now.difference(extensions);

    if same_text(name, DEFAULT_PROFILE) {
        config.default.settings = delta;
        config.default.extensions = ext_add;
        config.default.exclude_extensions = ext_excl;
    } else {
        let ghost old_entry = if config.profiles@.contains_key(name@) { Some(config.profiles@[name@]) } else { None };
        let mut entry = match config.profiles.remove(name) {
            Some(p) => p,
            None => ProfileConfig::default(),
        };
        proof {
            match old_entry {
                Some(e) => {
                    assert(entry.groups@ == e.groups@);
                },
                None => {
                    assert(entry.groups@ =~= Seq::<String>::empty());
                },
            }
        }
        entry.settings = delta;
        entry.extensions = ext_add;
        entry.exclude_extensions = ext_excl;
        if editor_profile.icon.is_some() {
            entry.icon = copy_opt(&editor_profile.icon);
        }
        entry.use_default = editor_profile.use_default.duplicate();
        config.profiles.insert(owned(name), entry);
        proof {
            assert(config.profiles@.dom() =~= old(config).profiles@.dom().insert(name@));
        }
    }

    snapshot.profiles.insert(
        owned(name),
        ProfileSnapshot { settings: copy_settings(settings), extensions: extensions.duplicate() },
    );
    proof {
        assert(snapshot.profiles@.dom() =~= old(snapshot).profiles@.dom().insert(name@));
    }
}

}

verus! {

proof fn lemma_base_layers_only(c0: Config, c1: Config, groups: Seq<String>)
    requires
        c1.global == c0.global,
        c1.groups == c0.groups,
    ensures
        base_settings(c1, groups) == base_settings(c0, groups),
        base_extensions(c1, groups) == base_extensions(c0, groups),
    decreases groups.len(),
{
    if groups.len() > 0 {
        lemma_base_layers_only(c0, c1, groups.drop_last());
    }
}

proof fn lemma_id_set_of_normal_ids(v: Seq<String>)
    requires
        forall|i: int| 0 <= i < v.len() ==> normalized_id((#[trigger] v[i])@) == v[i]@,
    ensures
        id_set(v) == text_set(v),
{
    assert forall|k: Seq<char>| #[trigger] id_set(v).contains(k) == text_set(v).contains(k) by {
        if id_set(v).contains(k) {
            let i = choose|i: int| 0 <= i < v.len() && normalized_id((#[trigger] v[i])@) == k;
            assert(v[i]@ == k);
        }
        if text_set(v).contains(k) {
            let i = choose|i: int| 0 <= i < v.len() && (#[trigger] v[i])@ == k;
            assert(normalized_id(v[i]@) == k);
        }
    }
    assert(id_set(v) =~= text_set(v));
}

/// Pull round trip: once a profile's state has been captured into the config
/// (as `capture_profile` leaves it), resolving that profile gives back exactly
/// the captured extensions, and the captured settings on top of its base
/// layers (a base key the editor lacks stays, as a delta cannot remove it).
/// Extension ids are taken to be in normal form already, as read ids are.
pub proof fn lemma_capture_then_resolve(
    c0: Config,
    c1: Config,
    name: Seq<char>,
    settings: Map<Seq<char>, Json>,
    extensions: Set<Seq<char>>,
    groups: Seq<String>,
    own_settings: Settings,
    own_extensions: Seq<String>,
    own_excluded: Seq<String>,
)
    requires
        c1.global == c0.global,
        c1.groups == c0.groups,
        groups == groups_of(c0, name),
        models_of(own_settings@) == delta_of(settings, base_settings(c0, groups)),
        text_set(own_extensions) == extensions.difference(base_extensions(c0, groups)),
        text_set(own_excluded) == base_extensions(c0, groups).difference(extensions),
        forall|x: Seq<char>| #[trigger] extensions.contains(x) ==> normalized_id(x) == x,
        forall|x: Seq<char>| #[trigger] base_extensions(c0, groups).contains(x) ==> normalized_id(x) == x,
    ensures
        layered_settings(c1, groups, own_settings) == base_settings(c0, groups).union_prefer_right(settings),
        layered_extensions(c1, groups, own_extensions, own_excluded) == extensions,
{
    lemma_base_layers_only(c0, c1, groups);
    let base_s = base_settings(c0, groups);
    let base_e = base_extensions(c0, groups);
    assert(base_s.union_prefer_right(delta_of(settings, base_s)) =~= base_s.union_prefer_right(settings));
    assert forall|i: int| 0 <= i < own_extensions.len() implies
        normalized_id((#[trigger] own_extensions[i])@) == own_extensions[i]@ by {
        assert(text_set(own_extensions).contains(own_extensions[i]@));
    }
    assert forall|i: int| 0 <= i < own_excluded.len() implies
        normalized_id((#[trigger] own_excluded[i])@) == own_excluded[i]@ by {
        assert(text_set(own_excluded).contains(own_excluded[i]@));
    }
    lemma_id_set_of_normal_ids(own_extensions);
    lemma_id_set_of_normal_ids(own_excluded);
    assert(base_e.union(extensions.difference(base_e)).difference(base_e.difference(extensions)) =~= extensions);
}

/// Whether `x` is the normal form of an id whose text before any `@`,
/// trimmed, is ASCII, as the ids read from an `extensions.json` are for such
/// entries.
pub open spec fn read_ascii_id(x: Seq<char>) -> bool {
    exists|y: Seq<char>| is_ascii_text(trimmed(before_at(y))) && x == #[trigger] normalized_id(y)
}

/// Pull round trip for ids as they are read: where every captured and base
/// extension id is the normal form of an ASCII id, resolving the captured
/// profile gives back exactly the captured extensions, and the captured
/// settings on top of its base layers.
pub proof fn lemma_capture_read_ids_then_resolve(
    c0: Config,
    c1: Config,
    name: Seq<char>,
    settings: Map<Seq<char>, Json>,
    extensions: Set<Seq<char>>,
    groups: Seq<String>,
    own_settings: Settings,
    own_extensions: Seq<String>,
    own_excluded: Seq<String>,
)
    requires
        c1.global == c0.global,
        c1.groups == c0.groups,
        groups == groups_of(c0, name),
        models_of(own_settings@) == delta_of(settings, base_settings(c0, groups)),
        text_set(own_extensions) == extensions.difference(base_extensions(c0, groups)),
        text_set(own_excluded) == base_extensions(c0, groups).difference(extensions),
        forall|x: Seq<char>| #[trigger] extensions.contains(x) ==> read_ascii_id(x),
        forall|x: Seq<char>| #[trigger] base_extensions(c0, groups).contains(x) ==> read_ascii_id(x),
    ensures
        layered_settings(c1, groups, own_settings) == base_settings(c0, groups).union_prefer_right(settings),
        layered_extensions(c1, groups, own_extensions, own_excluded) == extensions,
{
    assert forall|x: Seq<char>| #[trigger] extensions.contains(x) implies normalized_id(x) == x by {
        let y = choose|y: Seq<char>| is_ascii_text(trimmed(before_at(y))) && x == #[trigger] normalized_id(y);
        lemma_normalized_ascii(y);
    }
    assert forall|x: Seq<char>| #[trigger] base_extensions(c0, groups).contains(x) implies normalized_id(x) == x by {
        let y = choose|y: Seq<char>| is_ascii_text(trimmed(before_at(y))) && x == #[trigger] normalized_id(y);
        lemma_normalized_ascii(y);
    }
    lemma_capture_then_resolve(c0, c1, name, settings, extensions, groups, own_settings, own_extensions, own_excluded);
}

}

verus! {

/// When config and editor agree, sync leaves the agreed state as it is,
/// whatever the snapshot holds and however conflicts would be settled.
pub proof fn lemma_merge_agreement(base: Map<Seq<char>, Json>, same: Map<Seq<char>, Json>, c: ConflictChoices)
    ensures
        merged_settings(base, same, same, c) == same,
        forall|k: Seq<char>| !unresolved(base, same, same, c, k),
{
    assert(merged_settings(base, same, same, c) =~= same);
}

/// When the editor still matches the snapshot, sync takes the config's
/// state; when the config still matches it, sync takes the editor's.
pub proof fn lemma_merge_one_side_changed(base: Map<Seq<char>, Json>, changed: Map<Seq<char>, Json>, c: ConflictChoices)
    ensures
        merged_settings(base, changed, base, c) == changed,
        merged_settings(base, base, changed, c) == changed,
        forall|k: Seq<char>| !unresolved(base, changed, base, c, k),
        forall|k: Seq<char>| !unresolved(base, base, changed, c, k),
{
    assert(merged_settings(base, changed, base, c) =~= changed);
    assert(merged_settings(base, base, changed, c) =~= changed);
}

/// The same reconciliation applied to extension sets: one-sided changes win,
/// and agreement is kept.
pub proof fn lemma_extension_merge_laws(base: Set<Seq<char>>, changed: Set<Seq<char>>)
    ensures
        changed.intersect(base).union(changed.union(base).difference(base)) == changed,
        base.intersect(changed).union(base.union(changed).difference(base)) == changed,
        changed.intersect(changed).union(changed.union(changed).difference(base)) == changed,
{
    assert(changed.intersect(base).union(changed.union(base).difference(base)) =~= changed);
    assert(base.intersect(changed).union(base.union(changed).difference(base)) =~= changed);
    assert(changed.intersect(changed).union(changed.union(changed).difference(base)) =~= changed);
}

/// Whether a resource is inherited from Default: the config's `use_default`
/// decides when it names the resource, otherwise the editor's flags do.
pub open spec fn inherited(want: crate::config::Resolved, profile: Profile, resource: Seq<char>) -> bool {
    if want.use_default@.contains_key(resource) {
        want.use_default@[resource]
    } else {
        crate::editor::profiles::flag_set(profile.use_default@, resource)
    }
}

/// Whether a resource is inherited from Default (see [`inherited`]).
pub fn effective_inherits(want: &crate::config::Resolved, profile: &Profile, resource: &str) -> (r: bool)
    ensures
        r == inherited(*want, *profile, resource@),
{
    match want.use_default.get(resource) {
        Some(b) => *b,
        None => profile.inherits(resource),
    }
}

/// The names in either map, in increasing order.
pub fn union_names<A, B>(resolved: &NameMap<A>, editors: &NameMap<B>) -> (r: Vec<String>)
    ensures
        text_set(r@) == resolved@.dom().union(editors@.dom()),
        strictly_sorted(texts(r@)),
{
    let mut names = IdSet::new();
    let mut i: usize = 0;
    proof {
        lemma_first_keys_empty(resolved.keys());
    }
    while i < resolved.len()
        invariant
            i <= resolved.pairs().len(),
            names@ == first_keys(resolved.keys(), i as int),
        decreases resolved.pairs().len() - i,
    {
        let (k, _) = resolved.entry(i);
        names.insert(k.clone());
        proof {
            lemma_first_keys_step(resolved.keys(), i as int);
        }
        i += 1;
    }
    proof {
        resolved.lemma_all_keys();
    }
    let ghost after_first = names@;
    let mut j: usize = 0;
    proof {
        lemma_first_keys_empty(editors.keys());
        assert(names@ =~= after_first.union(first_keys(editors.keys(), 0)));
    }
    while j < editors.len()
        invariant
            j <= editors.pairs().len(),
            names@ == after_first.union(first_keys(editors.keys(), j as int)),
        decreases editors.pairs().len() - j,
    {
        let (k, _) = editors.entry(j);
        names.insert(k.clone());
        proof {
            lemma_first_keys_step(editors.keys(), j as int);
            assert(names@ =~= after_first.union(first_keys(editors.keys(), j + 1)));
        }
        j += 1;
    }
    proof {
        editors.lemma_all_keys();
    }
    let none = IdSet::new();
    let r = names.difference(&none);
    proof {
        assert(names@.difference(none@) =~= names@);
    }
    r
}

/// One difference between the desired and the actual state of a profile.
pub enum Drift {
    /// A desired setting that the editor lacks or holds with another value.
    SettingDiffers(String),
    /// A desired extension that the editor lacks.
    MissingInEditor(String),
    /// An extension the editor has that the config does not want.
    OnlyInEditor(String),
}

/// A drift item as (kind, key): 0 setting, 1 missing, 2 extra.
pub open spec fn drift_view(d: Drift) -> (int, Seq<char>) {
    match d {
        Drift::SettingDiffers(k) => (0, k@),
        Drift::MissingInEditor(k) => (1, k@),
        Drift::OnlyInEditor(k) => (2, k@),
    }
}

/// The drift items a report must list.
pub open spec fn expected_drift(
    want_settings: Map<Seq<char>, Json>,
    want_extensions: Set<Seq<char>>,
    actual_settings: Map<Seq<char>, Json>,
    actual_extensions: Set<Seq<char>>,
) -> Set<(int, Seq<char>)> {
    Set::new(|p: (int, Seq<char>)|
        (p.0 == 0 && want_settings.contains_key(p.1) && lookup(actual_settings, p.1) != Some(want_settings[p.1]))
        || (p.0 == 1 && want_extensions.contains(p.1) && !actual_extensions.contains(p.1))
        || (p.0 == 2 && actual_extensions.contains(p.1) && !want_extensions.contains(p.1)))
}

/// Items come grouped by kind, in increasing key order within a kind.
pub open spec fn drift_ordered(r: Seq<Drift>) -> bool {
    forall|i: int, j: int| 0 <= i < j < r.len() ==> {
        let a = drift_view(#[trigger] r[i]);
        let b = drift_view(#[trigger] r[j]);
        a.0 < b.0 || (a.0 == b.0 && lex_lt(a.1, b.1))
    }
}

pub open spec fn drift_items(r: Seq<Drift>) -> Set<(int, Seq<char>)> {
    Set::new(|p: (int, Seq<char>)| exists|i: int| 0 <= i < r.len() && drift_view(#[trigger] r[i]) == p)
}

fn push_drifts(out: &mut Vec<Drift>, keys: Vec<String>, kind: u8)
    requires
        kind == 1 || kind == 2,
        strictly_sorted(texts(keys@)),
        drift_ordered(old(out)@),
        forall|i: int| 0 <= i < old(out)@.len() ==> drift_view(#[trigger] old(out)@[i]).0 < kind,
    ensures
        drift_ordered(final(out)@),
        drift_items(final(out)@) == drift_items(old(out)@).union(
            Set::new(|p: (int, Seq<char>)| p.0 == kind as int && text_set(keys@).contains(p.1))),
        forall|i: int| 0 <= i < final(out)@.len() ==> drift_view(#[trigger] final(out)@[i]).0 <= kind,
{
    let ghost start = out@;
    let mut i: usize = 0;
    while i < keys.len()
        invariant
            kind == 1 || kind == 2,
            strictly_sorted(texts(keys@)),
            i <= keys.len(),
            start == old(out)@,
            out@.len() == start.len() + i,
            forall|p: int| 0 <= p < start.len() ==> out@[p] == start[p],
            forall|p: int| 0 <= p < i ==> drift_view(#[trigger] out@[start.len() + p]) == (kind as int, keys@[p]@),
            drift_ordered(start),
            forall|p: int| 0 <= p < start.len() ==> drift_view(#[trigger] start[p]).0 < kind,
        decreases keys.len() - i,
    {
        let k = keys[i].clone();
        if kind == 1 {
            out.push(Drift::MissingInEditor(k));
        } else {
            out.push(Drift::OnlyInEditor(k));
        }
        i += 1;
    }
    proof {
        assert forall|a: int, b: int| 0 <= a < b < out@.len() implies ({
            let x = drift_view(#[trigger] out@[a]);
            let y = drift_view(#[trigger] out@[b]);
            x.0 < y.0 || (x.0 == y.0 && lex_lt(x.1, y.1))
        }) by {
            if b >= start.len() {
                if a >= start.len() {
                    let pa = a - start.len();
                    let pb = b - start.len();
                    assert(texts(keys@)[pa] == keys@[pa]@);
                    assert(texts(keys@)[pb] == keys@[pb]@);
                    assert(drift_view(out@[start.len() + pa]) == (kind as int, keys@[pa]@));
                    assert(drift_view(out@[start.len() + pb]) == (kind as int, keys@[pb]@));
                    assert(lex_lt(texts(keys@)[pa], texts(keys@)[pb]));
                } else {
                    assert(drift_view(out@[start.len() + (b - start.len())]) == (kind as int, keys@[b - start.len()]@));
                    assert(out@[a] == start[a]);
                }
            } else {
                assert(out@[a] == start[a]);
                assert(out@[b] == start[b]);
            }
        }
        let add = Set::new(|p: (int, Seq<char>)| p.0 == kind as int && text_set(keys@).contains(p.1));
        assert forall|p: (int, Seq<char>)| #[trigger] drift_items(out@).contains(p) == drift_items(start).union(add).contains(p) by {
            if drift_items(out@).contains(p) {
                let q = choose|q: int| 0 <= q < out@.len() && drift_view(#[trigger] out@[q]) == p;
                if q < start.len() {
                    assert(out@[q] == start[q]);
                    assert(drift_items(start).contains(p));
                } else {
                    assert(drift_view(out@[start.len() + (q - start.len())]) == (kind as int, keys@[q - start.len()]@));
                    assert(text_set(keys@).contains(p.1));
                }
            }
            if drift_items(start).contains(p) {
                let q = choose|q: int| 0 <= q < start.len() && drift_view(#[trigger] start[q]) == p;
                assert(out@[q] == start[q]);
            }
            if add.contains(p) {
                let q = choose|q: int| 0 <= q < keys@.len() && (#[trigger] keys@[q])@ == p.1;
                assert(drift_view(out@[start.len() + q]) == (kind as int, keys@[q]@));
            }
        }
        assert(drift_items(out@) =~= drift_items(start).union(add));
        assert forall|p: int| 0 <= p < out@.len() implies drift_view(#[trigger] out@[p]).0 <= kind by {
            if p < start.len() {
                assert(out@[p] == start[p]);
            } else {
                assert(drift_view(out@[start.len() + (p - start.len())]) == (kind as int, keys@[p - start.len()]@));
            }
        }
    }
}

/// The differences between the desired state and the editor's: differing
/// settings, then desired extensions the editor lacks, then extensions only
/// the editor has, each group in increasing order. An empty report means the
/// profile is in sync.
pub fn report_drift(
    want_settings: &Settings,
    want_extensions: &IdSet,
    actual_settings: &Settings,
    actual_extensions: &IdSet,
) -> (r: Vec<Drift>)
    ensures
        drift_items(r@) == expected_drift(models_of(want_settings@), want_extensions@,
            models_of(actual_settings@), actual_extensions@),
        drift_ordered(r@),
{
    let ghost ws = models_of(want_settings@);
    let ghost acs = models_of(actual_settings@);
    let mut out: Vec<Drift> = Vec::new();
    let mut i: usize = 0;
    proof {
        use_type_invariant(want_settings);
    }
    while i < want_settings.len()
        invariant
            i <= want_settings.pairs().len(),
            strictly_sorted(want_settings.keys()),
            ws == models_of(want_settings@),
            acs == models_of(actual_settings@),
            drift_ordered(out@),
            forall|p: int| 0 <= p < out@.len() ==> drift_view(#[trigger] out@[p]).0 == 0
                && exists|j: int| 0 <= j < i && drift_view(out@[p]).1 == want_settings.keys()[j],
            drift_items(out@) == Set::new(|p: (int, Seq<char>)| p.0 == 0 && first_keys(want_settings.keys(), i as int).contains(p.1)
                && lookup(acs, p.1) != Some(ws[p.1])),
        decreases want_settings.pairs().len() - i,
    {
        let (k, v) = want_settings.entry(i);
        let same_value = match actual_settings.get(k.as_str()) {
            Some(a) => json_eq(a, v),
            None => false,
        };
        let ghost before = out@;
        if !same_value {
            out.push(Drift::SettingDiffers(k.clone()));
            proof {
                assert forall|a: int, b: int| 0 <= a < b < out@.len() implies ({
                    let x = drift_view(#[trigger] out@[a]);
                    let y = drift_view(#[trigger] out@[b]);
                    x.0 < y.0 || (x.0 == y.0 && lex_lt(x.1, y.1))
                }) by {
                    if b == before.len() {
                        assert(out@[a] == before[a]);
                        let j = choose|j: int| 0 <= j < i && drift_view(before[a]).1 == want_settings.keys()[j];
                        assert(lex_lt(want_settings.keys()[j], want_settings.keys()[i as int]));
                    } else {
                        assert(out@[a] == before[a]);
                        assert(out@[b] == before[b]);
                    }
                }
            }
        }
        proof {
            lemma_first_keys_step(want_settings.keys(), i as int);
            let target = Set::new(|p: (int, Seq<char>)| p.0 == 0 && first_keys(want_settings.keys(), i + 1).contains(p.1)
                && lookup(acs, p.1) != Some(ws[p.1]));
            assert forall|p: (int, Seq<char>)| #[trigger] drift_items(out@).contains(p) == target.contains(p) by {
                if drift_items(out@).contains(p) {
                    let q = choose|q: int| 0 <= q < out@.len() && drift_view(#[trigger] out@[q]) == p;
                    if q < before.len() {
                        assert(out@[q] == before[q]);
                        assert(drift_items(before).contains(p));
                    }
                }
                if drift_items(before).contains(p) {
                    let q = choose|q: int| 0 <= q < before.len() && drift_view(#[trigger] before[q]) == p;
                    assert(out@[q] == before[q]);
                }
                if p == (0int, k@) && !same_value {
                    assert(drift_view(out@[before.len() as int]) == p);
                }
            }
            assert(drift_items(out@) =~= target);
            assert forall|p: int| 0 <= p < out@.len() implies drift_view(#[trigger] out@[p]).0 == 0
                && exists|j: int| 0 <= j < i + 1 && drift_view(out@[p]).1 == want_settings.keys()[j] by {
                if p < before.len() {
                    assert(out@[p] == before[p]);
                    let j = choose|j: int| 0 <= j < i && drift_view(before[p]).1 == want_settings.keys()[j];
                } else {
                    assert(drift_view(out@[p]).1 == want_settings.keys()[i as int]);
                }
            }
        }
        i += 1;
    }
    proof {
        want_settings.lemma_all_keys();
    }
    let missing = want_extensions.difference(actual_extensions);
    push_drifts(&mut out, missing, 1);
    let extra = actual_extensions.difference(want_extensions);
    push_drifts(&mut out, extra, 2);
    proof {
        assert(drift_items(out@) =~= expected_drift(ws, want_extensions@, acs, actual_extensions@));
    }
    out
}

}

verus! {

// ---------------------------------------------------------------------------
// Engine options and per-profile inputs
// ---------------------------------------------------------------------------

/// Shared options for an engine operation.
pub struct Ctx<'a> {
    pub editor: &'a crate::editor::Editor,
    pub dry_run: bool,
    pub non_interactive: bool,
    pub prefer: Option<Prefer>,
    /// The profiles the operation is limited to (all when empty).
    pub profile_filter: Vec<String>,
    pub backup_dir: crate::fspath::FsPath,
    /// Directory where local (VSIX-source) extensions are vendored for portability.
    pub vendor_dir: crate::fspath::FsPath,
}

/// Whether an operation limited to `filter` covers profile `name`: every
/// profile when the filter is empty, else those whose name equals one of its
/// entries up to ASCII case.
pub open spec fn wanted(filter: Seq<String>, name: Seq<char>) -> bool {
    filter.len() == 0
        || exists|i: int| 0 <= i < filter.len()
            && crate::text::lower_text((#[trigger] filter[i])@) == crate::text::lower_text(name)
}

impl Ctx<'_> {
    pub fn wants(&self, name: &str) -> (r: bool)
        ensures
            r == wanted(self.profile_filter@, name@),
    {
        if self.profile_filter.len() == 0 {
            return true;
        }
        let mut i: usize = 0;
        while i < self.profile_filter.len()
            invariant
                i <= self.profile_filter.len(),
                forall|j: int| 0 <= j < i ==> crate::text::lower_text((#[trigger] self.profile_filter@[j])@)
                    != crate::text::lower_text(name@),
            decreases self.profile_filter.len() - i,
        {
            if crate::text::eq_ignore_ascii_case(self.profile_filter[i].as_str(), name) {
                return true;
            }
            i += 1;
        }
        false
    }

    /// What to do with a conflict the 3-way merge cannot decide: the
    /// preferred side when one was given.
    pub fn conflict_choices(&self) -> (r: ConflictChoices)
        ensures
            r.prefer == self.prefer,
            r.keep_editor@ == Set::<Seq<char>>::empty(),
            r.keep_repo@ == Set::<Seq<char>>::empty(),
    {
        ConflictChoices::prefer(self.prefer)
    }
}

/// The editor's tracked state for a profile: nothing for a resource it
/// inherits from Default, else its settings without nulls and its extension
/// membership. `raw_settings` and `membership` are what the profile's files
/// hold (the caller need not read a file whose resource is inherited).
pub fn actual_state(profile: &Profile, raw_settings: &Settings, membership: &IdSet) -> (r: (Settings, IdSet))
    ensures
        crate::editor::profiles::flag_set(profile.use_default@, "settings"@) ==> r.0@ == Map::<Seq<char>, JsonValue>::empty(),
        !crate::editor::profiles::flag_set(profile.use_default@, "settings"@) ==>
            models_of(r.0@) == crate::settings::sanitized(models_of(raw_settings@)),
        crate::editor::profiles::flag_set(profile.use_default@, "extensions"@) ==> r.1@ == Set::<Seq<char>>::empty(),
        !crate::editor::profiles::flag_set(profile.use_default@, "extensions"@) ==> r.1@ == membership@,
{
    let settings = if profile.inherits("settings") {
        NameMap::new()
    } else {
        crate::settings::sanitize_settings(raw_settings)
    };
    let extensions = if profile.inherits("extensions") {
        IdSet::new()
    } else {
        membership.duplicate()
    };
    (settings, extensions)
}

/// Where a profile named in the config or the editor stands.
#[derive(Clone, Copy, Debug, PartialEq, Eq, Structural)]
pub enum Presence {
    /// Only in the config: it would be created on push.
    OnlyConfig,
    /// Only in the editor: it would be captured on pull.
    OnlyEditor,
    /// In both: compare the desired and actual states.
    Both,
}

/// Where profile `name` stands, given the resolved config and the editor's
/// profiles; `None` when neither has it.
pub fn presence<A, B>(resolved: &NameMap<A>, editors: &NameMap<B>, name: &str) -> (r: Option<Presence>)
    ensures
        r == match (resolved@.contains_key(name@), editors@.contains_key(name@)) {
            (true, true) => Some(Presence::Both),
            (true, false) => Some(Presence::OnlyConfig),
            (false, true) => Some(Presence::OnlyEditor),
            (false, false) => None::<Presence>,
        },
{
    match (resolved.contains_key(name), editors.contains_key(name)) {
        (true, true) => Some(Presence::Both),
        (true, false) => Some(Presence::OnlyConfig),
        (false, true) => Some(Presence::OnlyEditor),
        (false, false) => None,
    }
}

/// What to do with an extension that the desired state drops from a profile.
#[derive(Clone, Copy, Debug, PartialEq, Eq, Structural)]
pub enum Removal {
    /// The Default profile's list is the shared pool: leave it alone.
    KeepShared,
    /// A dry run: report what would be removed.
    Report,
    /// Remove it from the profile's membership list.
    Remove,
}

/// How an extension is dropped from `profile`.
pub fn removal(profile: &Profile, dry_run: bool) -> (r: Removal)
    ensures
        profile.location is None ==> r == Removal::KeepShared,
        profile.location is Some && dry_run ==> r == Removal::Report,
        profile.location is Some && !dry_run ==> r == Removal::Remove,
{
    if profile.is_default() {
        Removal::KeepShared
    } else if dry_run {
        Removal::Report
    } else {
        Removal::Remove
    }
}

/// The extensions to install into a profile and those it has beyond the
/// desired set (removed when pruning, else only reported), each in
/// increasing order.
pub fn extension_changes(desired: &IdSet, current: &IdSet) -> (r: (Vec<String>, Vec<String>))
    ensures
        text_set(r.0@) == desired@.difference(current@),
        strictly_sorted(texts(r.0@)),
        text_set(r.1@) == current@.difference(desired@),
        strictly_sorted(texts(r.1@)),
{
    (desired.difference(current), current.difference(desired))
}

}

verus! {

/// Pushing is non-destructive: writing the config's settings into an object
/// with nothing to remove sets exactly the config's keys to the config's
/// values and keeps every other key the editor had.
pub proof fn lemma_push_is_non_destructive(object: Map<Seq<char>, Json>, sets: Map<Seq<char>, Json>)
    ensures
        ({
            let r = object.union_prefer_right(sets).remove_keys(text_set(Seq::<String>::empty()));
            &&& r.dom() == object.dom().union(sets.dom())
            &&& forall|k: Seq<char>| #[trigger] sets.contains_key(k) ==> r[k] == sets[k]
            &&& forall|k: Seq<char>| #[trigger] object.contains_key(k) && !sets.contains_key(k) ==> r[k] == object[k]
        }),
{
    assert(text_set(Seq::<String>::empty()) =~= Set::<Seq<char>>::empty());
    let r = object.union_prefer_right(sets).remove_keys(text_set(Seq::<String>::empty()));
    assert(r =~= object.union_prefer_right(sets));
    assert(r.dom() =~= object.dom().union(sets.dom()));
}

}

verus! {

proof fn lemma_sanitized_null_free(m: Map<Seq<char>, Json>)
    ensures
        forall|k: Seq<char>| #[trigger] crate::settings::sanitized(m).contains_key(k)
            ==> crate::json::null_free(crate::settings::sanitized(m)[k]),
{
    assert forall|k: Seq<char>| #[trigger] crate::settings::sanitized(m).contains_key(k)
        implies crate::json::null_free(crate::settings::sanitized(m)[k]) by {
        crate::json::lemma_stripped_is_null_free(m[k]);
    }
}

/// A sync leaves the editor agreeing with the merge. The editor's state is
/// its settings object `raw` read back without nulls; the config's values
/// hold no nulls. Merging against the snapshot, writing the merged settings
/// into the object and removing the keys the merge dropped, then reading the
/// object back, gives exactly the merged settings, which is also what the
/// config and the snapshot record.
pub proof fn lemma_sync_settings_converge(
    base: Map<Seq<char>, Json>,
    want: Map<Seq<char>, Json>,
    raw: Map<Seq<char>, Json>,
    c: ConflictChoices,
)
    requires
        forall|k: Seq<char>| #[trigger] want.contains_key(k) ==> crate::json::null_free(want[k]),
    ensures
        ({
            let actual = crate::settings::sanitized(raw);
            let merged = merged_settings(base, want, actual, c);
            let written = raw.union_prefer_right(merged).remove_keys(actual.dom().difference(merged.dom()));
            crate::settings::sanitized(written) == merged
        }),
{
    let actual = crate::settings::sanitized(raw);
    let merged = merged_settings(base, want, actual, c);
    let written = raw.union_prefer_right(merged).remove_keys(actual.dom().difference(merged.dom()));
    lemma_sanitized_null_free(raw);
    assert forall|k: Seq<char>| #[trigger] merged.contains_key(k) implies crate::json::null_free(merged[k]) by {
        let v = merged_value(base, want, actual, c, k);
        if v == lookup(want, k) {
            assert(want.contains_key(k));
        } else {
            assert(v == lookup(actual, k));
            assert(actual.contains_key(k));
        }
    }
    assert forall|k: Seq<char>| #[trigger] crate::settings::sanitized(written).contains_key(k) == merged.contains_key(k) by {
        if merged.contains_key(k) {
            crate::json::lemma_stripped_keeps_null_free(merged[k]);
        } else if written.contains_key(k) {
            assert(raw.contains_key(k));
            assert(!actual.contains_key(k));
        }
    }
    assert forall|k: Seq<char>| #[trigger] merged.contains_key(k) implies crate::settings::sanitized(written)[k] == merged[k] by {
        crate::json::lemma_stripped_keeps_null_free(merged[k]);
    }
    assert(crate::settings::sanitized(written) =~= merged);
}

}

verus! {

// ---------------------------------------------------------------------------
// What push and sync do to one profile
// ---------------------------------------------------------------------------

/// Settings to write into a profile's settings object: keys to set (each to
/// its value) and keys to remove.
pub struct SettingsWrite {
    pub sets: Settings,
    pub removes: Vec<String>,
}

/// Extension membership changes for a profile: what to install, and what the
/// profile has beyond the desired set (removed when `prune`, else only
/// reported).
pub struct ExtensionWrite {
    pub install: Vec<String>,
    pub extra: Vec<String>,
    pub prune: bool,
}

/// What an operation writes to one profile in the editor: nothing for a
/// resource the profile inherits from Default.
pub struct ProfilePlan {
    pub settings: Option<SettingsWrite>,
    pub extensions: Option<ExtensionWrite>,
}

/// The extension changes that take a profile from `current` to `desired`.
pub open spec fn moves_to(w: ExtensionWrite, desired: Set<Seq<char>>, current: Set<Seq<char>>) -> bool {
    &&& text_set(w.install@) == desired.difference(current)
    &&& strictly_sorted(texts(w.install@))
    &&& text_set(w.extra@) == current.difference(desired)
    &&& strictly_sorted(texts(w.extra@))
}

/// What `push` writes to a profile: the config's settings for every key it
/// names (nothing removed), and its missing extensions (extras are left
/// installed), except for the resources the profile inherits.
pub fn push_plan(want: &crate::config::Resolved, profile: &Profile, current_extensions: &IdSet) -> (r: ProfilePlan)
    ensures
        inherited(*want, *profile, "settings"@) ==> r.settings is None,
        !inherited(*want, *profile, "settings"@) ==> (r.settings matches Some(w)
            && models_of(w.sets@) == models_of(want.settings@) && w.removes@.len() == 0),
        inherited(*want, *profile, "extensions"@) ==> r.extensions is None,
        !inherited(*want, *profile, "extensions"@) ==> (r.extensions matches Some(x)
            && moves_to(x, want.extensions@, current_extensions@) && !x.prune),
{
    let settings = if effective_inherits(want, profile, "settings") {
        None
    } else {
        Some(SettingsWrite { sets: copy_settings(&want.settings), removes: Vec::new() })
    };
    let extensions = if effective_inherits(want, profile, "extensions") {
        None
    } else {
        let (install, extra) = extension_changes(&want.extensions, current_extensions);
        Some(ExtensionWrite { install, extra, prune: false })
    };
    ProfilePlan { settings, extensions }
}

/// The outcome of reconciling one profile: what to write to the editor, and
/// the agreed state that the config and the snapshot take.
pub struct SyncOutcome {
    pub plan: ProfilePlan,
    pub settings: Settings,
    pub extensions: IdSet,
}

/// Reconciles one profile against the snapshot (see [`reconcile_settings`]
/// and [`reconcile_extensions`]) and plans the writes that bring the editor to
/// the agreed state: the merged settings, with the keys the merge dropped
/// removed, and the merged extensions, extras removed; nothing for a resource
/// the profile inherits. An unsettled conflict is reported by its key.
pub fn sync_plan(
    base: &ProfileSnapshot,
    want: &crate::config::Resolved,
    profile: &Profile,
    actual_settings: &Settings,
    actual_extensions: &IdSet,
    choices: &ConflictChoices,
) -> (r: Result<SyncOutcome, String>)
    ensures
        ({
            let b = models_of(base.settings@);
            let rp = models_of(want.settings@);
            let ed = models_of(actual_settings@);
            match r {
                Ok(o) => {
                    &&& forall|k: Seq<char>| !unresolved(b, rp, ed, *choices, k)
                    &&& models_of(o.settings@) == merged_settings(b, rp, ed, *choices)
                    &&& o.extensions@ == want.extensions@.intersect(actual_extensions@).union(
                        want.extensions@.union(actual_extensions@).difference(base.extensions@))
                    &&& inherited(*want, *profile, "settings"@) ==> o.plan.settings is None
                    &&& !inherited(*want, *profile, "settings"@) ==> (o.plan.settings matches Some(w)
                        && models_of(w.sets@) == models_of(o.settings@)
                        && text_set(w.removes@) == actual_settings@.dom().difference(o.settings@.dom())
                        && strictly_sorted(texts(w.removes@)))
                    &&& inherited(*want, *profile, "extensions"@) ==> o.plan.extensions is None
                    &&& !inherited(*want, *profile, "extensions"@) ==> (o.plan.extensions matches Some(x)
                        && moves_to(x, o.extensions@, actual_extensions@) && x.prune)
                },
                Err(key) => {
                    &&& unresolved(b, rp, ed, *choices, key@)
                    &&& forall|k: Seq<char>| #[trigger] unresolved(b, rp, ed, *choices, k) ==> !lex_lt(k, key@)
                },
            }
        }),
{
    let settings = reconcile_settings(&base.settings, &want.settings, actual_settings, choices)?;
    let extensions = reconcile_extensions(&base.extensions, &want.extensions, actual_extensions);
    let settings_write = if effective_inherits(want, profile, "settings") {
        None
    } else {
        let removes = removed_keys(actual_settings, &settings);
        Some(SettingsWrite { sets: copy_settings(&settings), removes })
    };
    let extensions_write = if effective_inherits(want, profile, "extensions") {
        None
    } else {
        let (install, extra) = extension_changes(&extensions, actual_extensions);
        Some(ExtensionWrite { install, extra, prune: true })
    };
    Ok(SyncOutcome { plan: ProfilePlan { settings: settings_write, extensions: extensions_write }, settings, extensions })
}

}

verus! {

// ---------------------------------------------------------------------------
// Laws of the sync decisions
// ---------------------------------------------------------------------------

/// With a base, when the config and the editor have both moved away from it
/// to different outcomes (either may have removed the item), neither side is
/// taken silently: the item is a conflict.
pub proof fn lemma_both_sides_changed_is_conflict(base: Json, repo: Option<Json>, editor: Option<Json>)
    requires
        repo != editor,
        repo != Some(base),
        editor != Some(base),
    ensures
        decide(Some(base), repo, editor) == Decision::Conflict,
{
}

/// With a base, a side is taken only when the other side still equals the
/// base: the editor's value only over an unchanged config value, the config's
/// only over an unchanged editor value.
pub proof fn lemma_side_taken_only_over_base(base: Json, repo: Option<Json>, editor: Option<Json>)
    ensures
        decide(Some(base), repo, editor) == Decision::TakeEditor ==> repo == Some(base) && editor != repo,
        decide(Some(base), repo, editor) == Decision::TakeRepo ==> editor == Some(base) && editor != repo,
        decide(Some(base), repo, editor) == Decision::Agree <==> repo == editor,
{
}

/// Where the config's `use_default` names a resource, it decides whether the
/// resource is inherited; where it does not, the editor profile's own flag
/// (`useDefaultFlags`) decides.
pub proof fn lemma_inheritance_source(want: crate::config::Resolved, profile: Profile, resource: Seq<char>)
    ensures
        want.use_default@.contains_key(resource) ==> inherited(want, profile, resource) == want.use_default@[resource],
        !want.use_default@.contains_key(resource) ==> inherited(want, profile, resource) == (
            profile.use_default@.contains_key(resource) && profile.use_default@[resource]),
{
}

/// Pull round trip for the Default profile: once its state has been captured
/// into the config, resolving the Default profile (over `[default]`'s own
/// groups) gives back exactly the captured extensions, and the captured
/// settings on top of its base layers. Extension ids are taken to be in
/// normal form, as read ids are.
pub proof fn lemma_capture_default_then_resolve(
    c0: Config,
    c1: Config,
    editor_profile: Profile,
    settings: Map<Seq<char>, Json>,
    extensions: Set<Seq<char>>,
    r: crate::config::Resolved,
)
    requires
        captured(c0, c1, DEFAULT_PROFILE@, editor_profile, settings, extensions),
        crate::config::resolves_default(c1, c1.default, r),
        forall|x: Seq<char>| #[trigger] extensions.contains(x) ==> normalized_id(x) == x,
        forall|x: Seq<char>| #[trigger] base_extensions(c0, c0.default.groups@).contains(x) ==> normalized_id(x) == x,
    ensures
        r.extensions@ == extensions,
        models_of(r.settings@) == base_settings(c0, c0.default.groups@).union_prefer_right(settings),
{
    assert(groups_of(c0, DEFAULT_PROFILE@) == c0.default.groups@);
    lemma_capture_then_resolve(c0, c1, DEFAULT_PROFILE@, settings, extensions, c0.default.groups@,
        c1.default.settings, c1.default.extensions@, c1.default.exclude_extensions@);
}

/// Pull round trip for a named profile: once its state has been captured into
/// the config, resolving its `[profiles.*]` entry (over the groups the entry
/// lists) gives back exactly the captured extensions, and the captured
/// settings on top of its base layers. Extension ids are taken to be in
/// normal form, as read ids are.
pub proof fn lemma_capture_named_then_resolve(
    c0: Config,
    c1: Config,
    name: Seq<char>,
    editor_profile: Profile,
    settings: Map<Seq<char>, Json>,
    extensions: Set<Seq<char>>,
    r: crate::config::Resolved,
)
    requires
        name != DEFAULT_PROFILE@,
        captured(c0, c1, name, editor_profile, settings, extensions),
        crate::config::resolves_profile(c1, c1.profiles@[name], r),
        forall|x: Seq<char>| #[trigger] extensions.contains(x) ==> normalized_id(x) == x,
        forall|x: Seq<char>| #[trigger] base_extensions(c0, groups_of(c0, name)).contains(x) ==> normalized_id(x) == x,
    ensures
        r.extensions@ == extensions,
        models_of(r.settings@) == base_settings(c0, groups_of(c0, name)).union_prefer_right(settings),
        c1.profiles@[name].groups@ == groups_of(c0, name),
{
    let p = c1.profiles@[name];
    assert(p.groups@ == groups_of(c0, name));
    lemma_capture_then_resolve(c0, c1, name, settings, extensions, groups_of(c0, name),
        p.settings, p.extensions@, p.exclude_extensions@);
}

/// A drift report lists, as differing settings, exactly the desired keys whose
/// editor value is missing or different (a setting only the editor has is no
/// drift); as missing extensions exactly the desired ones the editor lacks;
/// and as extra extensions exactly those the editor has and the config does
/// not want.
pub proof fn lemma_drift_report_contents(
    want_settings: Map<Seq<char>, Json>,
    want_extensions: Set<Seq<char>>,
    actual_settings: Map<Seq<char>, Json>,
    actual_extensions: Set<Seq<char>>,
    r: Seq<Drift>,
)
    requires
        drift_items(r) == expected_drift(want_settings, want_extensions, actual_settings, actual_extensions),
    ensures
        forall|i: int| 0 <= i < r.len() && #[trigger] r[i] is SettingDiffers ==> {
            let k = drift_view(r[i]).1;
            want_settings.contains_key(k) && (!actual_settings.contains_key(k) || actual_settings[k] != want_settings[k])
        },
        forall|i: int| 0 <= i < r.len() && #[trigger] r[i] is MissingInEditor ==> {
            let k = drift_view(r[i]).1;
            want_extensions.contains(k) && !actual_extensions.contains(k)
        },
        forall|i: int| 0 <= i < r.len() && #[trigger] r[i] is OnlyInEditor ==> {
            let k = drift_view(r[i]).1;
            actual_extensions.contains(k) && !want_extensions.contains(k)
        },
        forall|k: Seq<char>| !want_settings.contains_key(k) ==> !#[trigger] drift_items(r).contains((0int, k)),
        forall|k: Seq<char>| want_settings.contains_key(k)
            && (!actual_settings.contains_key(k) || actual_settings[k] != want_settings[k])
            ==> #[trigger] drift_items(r).contains((0int, k)),
{
    assert forall|i: int| 0 <= i < r.len() implies #[trigger] drift_items(r).contains(drift_view(r[i])) by {}
    assert forall|i: int| 0 <= i < r.len() && #[trigger] r[i] is SettingDiffers implies {
        let k = drift_view(r[i]).1;
        want_settings.contains_key(k) && (!actual_settings.contains_key(k) || actual_settings[k] != want_settings[k])
    } by {
        assert(drift_items(r).contains(drift_view(r[i])));
    }
    assert forall|i: int| 0 <= i < r.len() && #[trigger] r[i] is MissingInEditor implies {
        let k = drift_view(r[i]).1;
        want_extensions.contains(k) && !actual_extensions.contains(k)
    } by {
        assert(drift_items(r).contains(drift_view(r[i])));
    }
    assert forall|i: int| 0 <= i < r.len() && #[trigger] r[i] is OnlyInEditor implies {
        let k = drift_view(r[i]).1;
        actual_extensions.contains(k) && !want_extensions.contains(k)
    } by {
        assert(drift_items(r).contains(drift_view(r[i])));
    }
}

}
