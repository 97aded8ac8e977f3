//! The declarative config: desired state for an editor's profiles.
//!
//! The config layers `[global]` settings/extensions, reusable `[groups.*]`, and
//! per-profile overrides into an effective desired state per profile (see
//! [`Config::resolve`]).

use vstd::prelude::*;
use crate::collections::{NameMap, IdSet, first_keys, lemma_first_keys_step, lemma_first_keys_empty};
use crate::fspath::FsPath;
use crate::json::{Json, JsonValue, copy_value};
use crate::settings::{Settings, models_of, copy_settings};
use crate::text::{chars_of, string_of_range, trim, trimmed, trim_start, trim_end, is_white, to_lowercase,
    lowercase, is_ascii_text, lower_text, ascii_lower};
pub use crate::json::strip_nulls;
pub use crate::settings::sanitize_settings;

verus! {

// ---------------------------------------------------------------------------
// Extension ids
// ---------------------------------------------------------------------------

/// Position of the first `@` in `s`, or its length when there is none.
pub open spec fn first_at(s: Seq<char>) -> int
    decreases s.len(),
{
    if s.len() == 0 {
        0
    } else if s[0] == '@' {
        0
    } else {
        1 + first_at(s.drop_first())
    }
}

/// The part of `s` before its first `@` (a version pin).
pub open spec fn before_at(s: Seq<char>) -> Seq<char> {
    s.take(first_at(s))
}

/// `normalize_id`: drop any `@version` pin, trim, and lowercase (on ASCII
/// text, ASCII case folding).
pub open spec fn normalized_id(s: Seq<char>) -> Seq<char> {
    let t = trimmed(before_at(s));
    if is_ascii_text(t) {
        lower_text(t)
    } else {
        lowercase(t)
    }
}

proof fn lemma_first_at(s: Seq<char>, p: int)
    requires
        0 <= p <= s.len(),
        forall|j: int| 0 <= j < p ==> s[j] != '@',
        p == s.len() || s[p] == '@',
    ensures
        first_at(s) == p,
    decreases p,
{
    if p > 0 {
        lemma_first_at(s.drop_first(), p - 1);
    }
}

/// Normalize an extension identifier for set membership: drop any `@version`
/// pin and lowercase (`publisher.name` is case-insensitive).
pub fn normalize_id(spec: &str) -> (r: String)
    ensures
        r@ == normalized_id(spec@),
        is_ascii_text(trimmed(before_at(spec@))) ==> r@ == ascii_normalized(spec@),
{
    let chars = chars_of(spec);
    let mut p: usize = 0;
    while p < chars.len() && chars[p] != '@'
        invariant
            chars@ == spec@,
            p <= chars.len(),
            forall|j: int| 0 <= j < p ==> spec@[j] != '@',
        decreases chars.len() - p,
    {
        p += 1;
    }
    proof {
        lemma_first_at(spec@, p as int);
    }
    let head = string_of_range(&chars, 0, p);
    assert(head@ == before_at(spec@));
    let t = trim(head.as_str());
    to_lowercase(t.as_str())
}

/// A version pin is ignored: for an id `s` without `@`, `normalize_id` gives
/// the same for `s@v`, whatever the pin `v`, as for `s`.
pub proof fn lemma_pin_ignored(id: Seq<char>, pin: Seq<char>)
    requires
        !id.contains('@'),
    ensures
        normalized_id(id + seq!['@'] + pin) == normalized_id(id),
{
    let s = id + seq!['@'] + pin;
    assert forall|j: int| 0 <= j < id.len() implies s[j] != '@' by {
        if s[j] == '@' {
            assert(id[j] == '@');
        }
    }
    lemma_first_at(s, id.len() as int);
    assert forall|j: int| 0 <= j < id.len() implies id[j] != '@' by {
        if id[j] == '@' {
            assert(id.contains('@'));
        }
    }
    lemma_first_at(id, id.len() as int);
    assert(s.take(id.len() as int) =~= id);
    assert(id.take(id.len() as int) =~= id);
}

/// `normalize_id` on an id whose trimmed head is ASCII: the head, ASCII
/// lowercased.
pub open spec fn ascii_normalized(s: Seq<char>) -> Seq<char> {
    lower_text(trimmed(before_at(s)))
}

proof fn lemma_trim_start_suffix(s: Seq<char>)
    ensures
        trim_start(s).len() <= s.len(),
        trim_start(s) == s.skip(s.len() - trim_start(s).len()),
        trim_start(s).len() > 0 ==> !is_white(trim_start(s)[0]),
    decreases s.len(),
{
    if s.len() > 0 && is_white(s[0]) {
        lemma_trim_start_suffix(s.drop_first());
        assert(s.drop_first().skip(s.drop_first().len() - trim_start(s).len())
            =~= s.skip(s.len() - trim_start(s).len()));
    } else {
        assert(s.skip(0) =~= s);
    }
}

proof fn lemma_trim_end_prefix(s: Seq<char>)
    ensures
        trim_end(s).len() <= s.len(),
        trim_end(s) == s.take(trim_end(s).len() as int),
        trim_end(s).len() > 0 ==> !is_white(trim_end(s).last()),
    decreases s.len(),
{
    if s.len() > 0 && is_white(s.last()) {
        lemma_trim_end_prefix(s.drop_last());
        assert(s.drop_last().take(trim_end(s).len() as int) =~= s.take(trim_end(s).len() as int));
    } else {
        assert(s.take(s.len() as int) =~= s);
    }
}

/// Text without whitespace at either end is its own trim.
proof fn lemma_trimmed_fixed(x: Seq<char>)
    requires
        x.len() > 0 ==> !is_white(x[0]) && !is_white(x.last()),
    ensures
        trimmed(x) == x,
{
}

/// For an id whose trimmed head is ASCII, `normalize_id` gives text with no
/// `@`, no whitespace at either end and no upper-case letter, which
/// `normalize_id` gives back unchanged.
pub proof fn lemma_normalized_ascii(s: Seq<char>)
    requires
        is_ascii_text(trimmed(before_at(s))),
    ensures
        !ascii_normalized(s).contains('@'),
        trimmed(ascii_normalized(s)) == ascii_normalized(s),
        lower_text(ascii_normalized(s)) == ascii_normalized(s),
        is_ascii_text(trimmed(before_at(ascii_normalized(s)))),
        ascii_normalized(ascii_normalized(s)) == ascii_normalized(s),
        normalized_id(s) == ascii_normalized(s),
        normalized_id(normalized_id(s)) == normalized_id(s),
{
    let h = before_at(s);
    let t = trimmed(h);
    let r = lower_text(t);
    lemma_first_at_bound(s);
    assert forall|j: int| 0 <= j < h.len() implies h[j] != '@' by {
        lemma_first_at_before(s, j);
    }
    lemma_trim_start_suffix(h);
    let a = trim_start(h);
    lemma_trim_end_prefix(a);
    assert forall|j: int| 0 <= j < t.len() implies t[j] != '@' by {
        assert(t[j] == a[j]);
        assert(a[j] == h[h.len() - a.len() + j]);
    }
    assert forall|j: int| 0 <= j < r.len() implies r[j] != '@' && (r[j] as u32) < 128 by {
        assert(r[j] == ascii_lower(t[j]));
        assert((t[j] as u32) < 128);
    }
    if t.len() > 0 {
        assert(t[0] == a[0]);
        assert(r[0] == ascii_lower(t[0]));
        assert(r.last() == ascii_lower(t.last()));
    }
    lemma_trimmed_fixed(r);
    assert(lower_text(r) =~= r);
    assert(!r.contains('@'));
    lemma_first_at(r, r.len() as int);
    assert(r.take(r.len() as int) =~= r);
    assert(before_at(r) == r);
}

proof fn lemma_first_at_bound(s: Seq<char>)
    ensures
        0 <= first_at(s) <= s.len(),
    decreases s.len(),
{
    if s.len() > 0 && s[0] != '@' {
        lemma_first_at_bound(s.drop_first());
    }
}

proof fn lemma_first_at_before(s: Seq<char>, j: int)
    requires
        0 <= j < first_at(s),
    ensures
        j < s.len(),
        s[j] != '@',
    decreases j,
{
    lemma_first_at_bound(s);
    if j > 0 {
        lemma_first_at_before(s.drop_first(), j - 1);
    }
}

/// The normalized ids named by `v`.
pub open spec fn id_set(v: Seq<String>) -> Set<Seq<char>> {
    Set::new(|k: Seq<char>| exists|i: int| 0 <= i < v.len() && normalized_id((#[trigger] v[i])@) == k)
}

proof fn lemma_id_set_step(ids: Seq<String>, i: int)
    requires
        0 <= i < ids.len(),
    ensures
        id_set(ids.take(i + 1)) == id_set(ids.take(i)).insert(normalized_id(ids[i]@)),
{
    let t1 = ids.take(i + 1);
    let t0 = ids.take(i);
    assert forall|k: Seq<char>| #[trigger] id_set(t1).contains(k) implies id_set(t0).insert(normalized_id(ids[i]@)).contains(k) by {
        let j = choose|j: int| 0 <= j < t1.len() && normalized_id((#[trigger] t1[j])@) == k;
        if j < i {
            assert(t0[j] == t1[j]);
        }
    }
    assert forall|k: Seq<char>| #[trigger] id_set(t0).contains(k) implies id_set(t1).contains(k) by {
        let j = choose|j: int| 0 <= j < t0.len() && normalized_id((#[trigger] t0[j])@) == k;
        assert(t0[j] == t1[j]);
    }
    assert(t1[i] == ids[i]);
    assert(id_set(t1).contains(normalized_id(ids[i]@)));
    assert(id_set(t1) =~= id_set(t0).insert(normalized_id(ids[i]@)));
}

/// Adds the normalized form of each id in `ids`.
pub fn add_ids(set: &mut IdSet, ids: &Vec<String>)
    ensures
        final(set)@ == old(set)@.union(id_set(ids@)),
{
    let mut i: usize = 0;
    while i < ids.len()
        invariant
            i <= ids.len(),
            set@ == old(set)@.union(id_set(ids@.take(i as int))),
        decreases ids.len() - i,
    {
        let n = normalize_id(ids[i].as_str());
        set.insert(n);
        proof {
            lemma_id_set_step(ids@, i as int);
            assert(set@ =~= old(set)@.union(id_set(ids@.take(i + 1))));
        }
        i += 1;
    }
    assert(ids@.take(ids.len() as int) =~= ids@);
}

/// Removes the normalized form of each id in `ids`.
pub fn remove_ids(set: &mut IdSet, ids: &Vec<String>)
    ensures
        final(set)@ == old(set)@.difference(id_set(ids@)),
{
    let mut i: usize = 0;
    while i < ids.len()
        invariant
            i <= ids.len(),
            set@ == old(set)@.difference(id_set(ids@.take(i as int))),
        decreases ids.len() - i,
    {
        let n = normalize_id(ids[i].as_str());
        set.remove(n.as_str());
        proof {
            lemma_id_set_step(ids@, i as int);
            assert(set@ =~= old(set)@.difference(id_set(ids@.take(i + 1))));
        }
        i += 1;
    }
    assert(ids@.take(ids.len() as int) =~= ids@);
}

/// Writes every key of `layer` into `settings` (the layer wins per key).
pub fn overlay(settings: &mut Settings, layer: &Settings)
    ensures
        models_of(final(settings)@) == models_of(old(settings)@).union_prefer_right(models_of(layer@)),
{
    let mut i: usize = 0;
    proof {
        lemma_first_keys_empty(layer.keys());
        assert(models_of(settings@) =~= models_of(old(settings)@).union_prefer_right(
            models_of(layer@).restrict(first_keys(layer.keys(), 0))));
    }
    while i < layer.len()
        invariant
            i <= layer.pairs().len(),
            models_of(settings@) == models_of(old(settings)@).union_prefer_right(
                models_of(layer@).restrict(first_keys(layer.keys(), i as int))),
        decreases layer.pairs().len() - i,
    {
        let (k, v) = layer.entry(i);
        let ghost before = settings@;
        settings.insert(k.clone(), copy_value(v));
        proof {
            lemma_first_keys_step(layer.keys(), i as int);
            let target = models_of(old(settings)@).union_prefer_right(
                models_of(layer@).restrict(first_keys(layer.keys(), i + 1)));
            assert forall|x: Seq<char>| #[trigger] models_of(settings@).contains_key(x) == target.contains_key(x) by {
                if x != k@ {
                    assert(models_of(before).contains_key(x) == models_of(settings@).contains_key(x));
                }
            }
            assert forall|x: Seq<char>| #[trigger] models_of(settings@).contains_key(x) implies models_of(settings@)[x] == target[x] by {
                if x != k@ {
                    assert(models_of(before)[x] == models_of(settings@)[x]);
                }
            }
            assert(models_of(settings@) =~= target);
        }
        i += 1;
    }
    proof {
        layer.lemma_all_keys();
        assert(models_of(layer@).restrict(layer@.dom()) =~= models_of(layer@));
    }
}

}

verus! {

// ---------------------------------------------------------------------------
// Config document
// ---------------------------------------------------------------------------

/// Name of the implicit Default profile.
pub const DEFAULT_PROFILE: &'static str = "Default";

/// How the config refers to / overrides the target editor.
pub struct EditorRef {
    /// Editor name (`nameShort`/`applicationName`) to match during discovery.
    pub name: Option<String>,
    /// Explicit launcher path, bypassing PATH discovery.
    pub binary: Option<FsPath>,
    /// Override for the editor's `User/` directory.
    pub user_dir: Option<FsPath>,
    /// Override for the shared extensions directory.
    pub extensions_dir: Option<FsPath>,
}

/// A reusable bundle of settings and extensions (`[global]` and `[groups.*]`).
pub struct Layer {
    /// Settings keys applied to profiles using this layer.
    pub settings: Settings,
    /// Extension IDs (`publisher.name`) applied to profiles using this layer.
    pub extensions: Vec<String>,
}

/// Per-profile configuration.
pub struct ProfileConfig {
    /// Codicon ID used as the profile icon.
    pub icon: Option<String>,
    /// Names of groups this profile includes.
    pub groups: Vec<String>,
    /// Profile-specific settings (highest precedence).
    pub settings: Settings,
    /// Profile-specific extensions.
    pub extensions: Vec<String>,
    /// Extension IDs to drop even if a group/global adds them.
    pub exclude_extensions: Vec<String>,
    /// Resource types this profile inherits from Default (`useDefaultFlags`).
    pub use_default: NameMap<bool>,
}

/// The built-in Default profile (`[default]`): a profile without `icon` or
/// `use_default`.
pub struct DefaultProfile {
    pub groups: Vec<String>,
    pub settings: Settings,
    pub extensions: Vec<String>,
    pub exclude_extensions: Vec<String>,
}

/// Top-level config document.
pub struct Config {
    pub editor: EditorRef,
    pub global: Layer,
    pub groups: NameMap<Layer>,
    pub default: DefaultProfile,
    pub profiles: NameMap<ProfileConfig>,
}

/// Effective desired state for one profile after layering.
pub struct Resolved {
    pub settings: Settings,
    pub extensions: IdSet,
    pub icon: Option<String>,
    pub use_default: NameMap<bool>,
}

impl Default for EditorRef {
    fn default() -> (r: Self)
        ensures
            r.name is None && r.binary is None && r.user_dir is None && r.extensions_dir is None,
    {
        EditorRef { name: None, binary: None, user_dir: None, extensions_dir: None }
    }
}

impl Default for Layer {
    fn default() -> (r: Self)
        ensures
            r.settings@ == Map::<Seq<char>, JsonValue>::empty(),
            r.extensions@.len() == 0,
    {
        Layer { settings: NameMap::new(), extensions: Vec::new() }
    }
}

impl Default for ProfileConfig {
    fn default() -> (r: Self)
        ensures
            r.icon is None,
            r.groups@.len() == 0,
            r.settings@ == Map::<Seq<char>, JsonValue>::empty(),
            r.extensions@.len() == 0,
            r.exclude_extensions@.len() == 0,
            r.use_default@ == Map::<Seq<char>, bool>::empty(),
    {
        ProfileConfig {
            icon: None,
            groups: Vec::new(),
            settings: NameMap::new(),
            extensions: Vec::new(),
            exclude_extensions: Vec::new(),
            use_default: NameMap::new(),
        }
    }
}

impl Default for DefaultProfile {
    fn default() -> (r: Self)
        ensures
            r.groups@.len() == 0,
            r.settings@ == Map::<Seq<char>, JsonValue>::empty(),
            r.extensions@.len() == 0,
            r.exclude_extensions@.len() == 0,
    {
        DefaultProfile {
            groups: Vec::new(),
            settings: NameMap::new(),
            extensions: Vec::new(),
            exclude_extensions: Vec::new(),
        }
    }
}

impl Default for Config {
    fn default() -> (r: Self)
        ensures
            r.global.settings@ == Map::<Seq<char>, JsonValue>::empty(),
            r.global.extensions@.len() == 0,
            r.groups@ == Map::<Seq<char>, Layer>::empty(),
            r.default.groups@.len() == 0,
            r.default.settings@ == Map::<Seq<char>, JsonValue>::empty(),
            r.default.extensions@.len() == 0,
            r.default.exclude_extensions@.len() == 0,
            r.profiles@ == Map::<Seq<char>, ProfileConfig>::empty(),
            r.editor.name is None,
            r.editor.binary is None && r.editor.user_dir is None && r.editor.extensions_dir is None,
    {
        Config {
            editor: EditorRef::default(),
            global: Layer::default(),
            groups: NameMap::new(),
            default: DefaultProfile::default(),
            profiles: NameMap::new(),
        }
    }
}

impl Default for Resolved {
    fn default() -> (r: Self)
        ensures
            r.settings@ == Map::<Seq<char>, JsonValue>::empty(),
            r.extensions@ == Set::<Seq<char>>::empty(),
            r.icon is None,
            r.use_default@ == Map::<Seq<char>, bool>::empty(),
    {
        Resolved {
            settings: NameMap::new(),
            extensions: IdSet::new(),
            icon: None,
            use_default: NameMap::new(),
        }
    }
}

// ---------------------------------------------------------------------------
// Layering
// ---------------------------------------------------------------------------

/// Settings from `[global]` and then each named group in order (later wins per
/// top-level key); unknown group names contribute nothing.
pub open spec fn base_settings(c: Config, groups: Seq<String>) -> Map<Seq<char>, Json>
    decreases groups.len(),
{
    if groups.len() == 0 {
        models_of(c.global.settings@)
    } else {
        let before = base_settings(c, groups.drop_last());
        let g = groups.last()@;
        if c.groups@.contains_key(g) {
            before.union_prefer_right(models_of(c.groups@[g].settings@))
        } else {
            before
        }
    }
}

/// Extensions from `[global]` and each named group, as a set of normalized ids.
pub open spec fn base_extensions(c: Config, groups: Seq<String>) -> Set<Seq<char>>
    decreases groups.len(),
{
    if groups.len() == 0 {
        id_set(c.global.extensions@)
    } else {
        let before = base_extensions(c, groups.drop_last());
        let g = groups.last()@;
        if c.groups@.contains_key(g) {
            before.union(id_set(c.groups@[g].extensions@))
        } else {
            before
        }
    }
}

/// The effective settings of a profile: its base layers, then its own
/// settings on top (the profile wins per key).
pub open spec fn layered_settings(c: Config, groups: Seq<String>, own: Settings) -> Map<Seq<char>, Json> {
    base_settings(c, groups).union_prefer_right(models_of(own@))
}

/// The effective extensions of a profile:
/// `union(global, groups…, profile)` minus `exclude_extensions`.
pub open spec fn layered_extensions(
    c: Config,
    groups: Seq<String>,
    own: Seq<String>,
    excluded: Seq<String>,
) -> Set<Seq<char>> {
    base_extensions(c, groups).union(id_set(own)).difference(id_set(excluded))
}

/// Later layers win per key: where the last listed group `g` sets `k` and the
/// profile's own settings do not, the profile resolves `k` to the group's
/// value, over `[global]` and every earlier group.
pub proof fn lemma_last_group_wins(c: Config, groups: Seq<String>, g: String, own: Settings, k: Seq<char>)
    requires
        c.groups@.contains_key(g@),
        c.groups@[g@].settings@.contains_key(k),
        !own@.contains_key(k),
    ensures
        layered_settings(c, groups.push(g), own).contains_key(k),
        layered_settings(c, groups.push(g), own)[k] == c.groups@[g@].settings@[k].model(),
{
    assert(groups.push(g).drop_last() =~= groups);
}

/// A group that is not defined, or does not set `k`, leaves `k` as the
/// layers before it give it.
pub proof fn lemma_silent_group_keeps(c: Config, groups: Seq<String>, g: String, k: Seq<char>)
    requires
        !(c.groups@.contains_key(g@) && c.groups@[g@].settings@.contains_key(k)),
    ensures
        base_settings(c, groups.push(g)).contains_key(k) == base_settings(c, groups).contains_key(k),
        base_settings(c, groups).contains_key(k) ==> base_settings(c, groups.push(g))[k] == base_settings(c, groups)[k],
{
    assert(groups.push(g).drop_last() =~= groups);
}

/// With no group, a key the profile does not set has `[global]`'s value; a
/// key the profile sets has the profile's value, whatever the groups.
pub proof fn lemma_global_and_own_layers(c: Config, groups: Seq<String>, own: Settings, k: Seq<char>)
    ensures
        !own@.contains_key(k) ==> (layered_settings(c, Seq::empty(), own).contains_key(k)
            == c.global.settings@.contains_key(k)),
        !own@.contains_key(k) && c.global.settings@.contains_key(k)
            ==> layered_settings(c, Seq::empty(), own)[k] == c.global.settings@[k].model(),
        own@.contains_key(k) ==> (layered_settings(c, groups, own).contains_key(k)
            && layered_settings(c, groups, own)[k] == own@[k].model()),
{
}

/// `r` is the resolution of the named profile `p`.
pub open spec fn resolves_profile(c: Config, p: ProfileConfig, r: Resolved) -> bool {
    &&& models_of(r.settings@) == layered_settings(c, p.groups@, p.settings)
    &&& r.extensions@ == layered_extensions(c, p.groups@, p.extensions@, p.exclude_extensions@)
    &&& r.icon == p.icon
    &&& r.use_default@ == p.use_default@
}

/// `r` is the resolution of the Default profile `d`.
pub open spec fn resolves_default(c: Config, d: DefaultProfile, r: Resolved) -> bool {
    &&& models_of(r.settings@) == layered_settings(c, d.groups@, d.settings)
    &&& r.extensions@ == layered_extensions(c, d.groups@, d.extensions@, d.exclude_extensions@)
    &&& r.icon is None
    &&& r.use_default@ == Map::<Seq<char>, bool>::empty()
}

impl Config {
    /// Layers global and groups, then the profile's own settings and
    /// extensions, then removes the excluded extensions.
    pub fn layer(
        &self,
        groups: &Vec<String>,
        own_settings: &Settings,
        own_extensions: &Vec<String>,
        excluded: &Vec<String>,
    ) -> (r: (Settings, IdSet))
        ensures
            models_of(r.0@) == layered_settings(*self, groups@, *own_settings),
            r.1@ == layered_extensions(*self, groups@, own_extensions@, excluded@),
    {
        let mut settings = copy_settings(&self.global.settings);
        let mut extensions = IdSet::new();
        add_ids(&mut extensions, &self.global.extensions);
        proof {
            assert(groups@.take(0).len() == 0);
            assert(extensions@ =~= id_set(self.global.extensions@));
        }
        let mut i: usize = 0;
        while i < groups.len()
            invariant
                i <= groups.len(),
                models_of(settings@) == base_settings(*self, groups@.take(i as int)),
                extensions@ == base_extensions(*self, groups@.take(i as int)),
            decreases groups.len() - i,
        {
            proof {
                assert(groups@.take(i + 1).drop_last() =~= groups@.take(i as int));
                assert(groups@.take(i + 1).last() == groups@[i as int]);
            }
            match self.groups.get(groups[i].as_str()) {
                Some(group) => {
                    overlay(&mut settings, &group.settings);
                    add_ids(&mut extensions, &group.extensions);
                },
                None => {},
            }
            i += 1;
        }
        proof {
            assert(groups@.take(groups.len() as int) =~= groups@);
        }
        overlay(&mut settings, own_settings);
        add_ids(&mut extensions, own_extensions);
        remove_ids(&mut extensions, excluded);
        (settings, extensions)
    }

    /// The effective desired state of a named profile.
    pub fn resolve_profile(&self, profile: &ProfileConfig) -> (r: Resolved)
        ensures
            resolves_profile(*self, *profile, r),
    {
        let (settings, extensions) = self.layer(
            &profile.groups,
            &profile.settings,
            &profile.extensions,
            &profile.exclude_extensions,
        );
        Resolved {
            settings,
            extensions,
            icon: crate::collections::copy_opt(&profile.icon),
            use_default: profile.use_default.duplicate(),
        }
    }

    /// The effective desired state of the Default profile.
    pub fn resolve_default(&self) -> (r: Resolved)
        ensures
            resolves_default(*self, self.default, r),
    {
        let (settings, extensions) = self.layer(
            &self.default.groups,
            &self.default.settings,
            &self.default.extensions,
            &self.default.exclude_extensions,
        );
        Resolved { settings, extensions, icon: None, use_default: NameMap::new() }
    }

    /// Effective desired state per profile (keyed by profile name): every
    /// `[profiles.*]` entry, and the Default profile from `[default]`.
    pub fn resolve(&self) -> (r: NameMap<Resolved>)
        ensures
            r@.dom() == self.profiles@.dom().insert(DEFAULT_PROFILE@),
            forall|n: Seq<char>| #[trigger] self.profiles@.contains_key(n) && n != DEFAULT_PROFILE@ ==>
                resolves_profile(*self, self.profiles@[n], r@[n]),
            resolves_default(*self, self.default, r@[DEFAULT_PROFILE@]),
    {
        let mut out: NameMap<Resolved> = NameMap::new();
        let mut i: usize = 0;
        proof {
            lemma_first_keys_empty(self.profiles.keys());
        }
        while i < self.profiles.len()
            invariant
                i <= self.profiles.pairs().len(),
                out@.dom() == first_keys(self.profiles.keys(), i as int),
                forall|n: Seq<char>| #[trigger] out@.contains_key(n) ==>
                    self.profiles@.contains_key(n) && resolves_profile(*self, self.profiles@[n], out@[n]),
            decreases self.profiles.pairs().len() - i,
        {
            let (name, profile) = self.profiles.entry(i);
            let resolved = self.resolve_profile(profile);
            out.insert(name.clone(), resolved);
            proof {
                lemma_first_keys_step(self.profiles.keys(), i as int);
            }
            i += 1;
        }
        proof {
            self.profiles.lemma_all_keys();
        }
        let d = self.resolve_default();
        out.insert(DEFAULT_PROFILE.to_string(), d);
        out
    }
}

}

verus! {

impl Config {
    /// Whether the config can be loaded: the Default profile is configured
    /// under `[default]`, so a `[profiles.Default]` entry is refused.
    pub fn is_valid(&self) -> (r: bool)
        ensures
            r == !self.profiles@.contains_key(DEFAULT_PROFILE@),
    {
        !self.profiles.contains_key(DEFAULT_PROFILE)
    }
}

}

verus! {

// ---------------------------------------------------------------------------
// Writing a config
// ---------------------------------------------------------------------------

/// `b` is `a` with its settings' nulls stripped.
pub open spec fn sanitized_layer(a: Layer, b: Layer) -> bool {
    &&& models_of(b.settings@) == crate::settings::sanitized(models_of(a.settings@))
    &&& b.extensions@ == a.extensions@
}

/// `b` is `a` with its settings' nulls stripped.
pub open spec fn sanitized_profile(a: ProfileConfig, b: ProfileConfig) -> bool {
    &&& b.icon == a.icon
    &&& b.groups@ == a.groups@
    &&& models_of(b.settings@) == crate::settings::sanitized(models_of(a.settings@))
    &&& b.extensions@ == a.extensions@
    &&& b.exclude_extensions@ == a.exclude_extensions@
    &&& b.use_default@ == a.use_default@
}

/// `b` is `a` with the nulls stripped from every settings table (TOML has no
/// null).
pub open spec fn sanitized_config(a: Config, b: Config) -> bool {
    &&& b.editor.name == a.editor.name
    &&& crate::fspath::opt_path(b.editor.binary) == crate::fspath::opt_path(a.editor.binary)
    &&& crate::fspath::opt_path(b.editor.user_dir) == crate::fspath::opt_path(a.editor.user_dir)
    &&& crate::fspath::opt_path(b.editor.extensions_dir) == crate::fspath::opt_path(a.editor.extensions_dir)
    &&& sanitized_layer(a.global, b.global)
    &&& b.groups@.dom() == a.groups@.dom()
    &&& forall|k: Seq<char>| #[trigger] b.groups@.contains_key(k) ==> sanitized_layer(a.groups@[k], b.groups@[k])
    &&& b.default.groups@ == a.default.groups@
    &&& models_of(b.default.settings@) == crate::settings::sanitized(models_of(a.default.settings@))
    &&& b.default.extensions@ == a.default.extensions@
    &&& b.default.exclude_extensions@ == a.default.exclude_extensions@
    &&& b.profiles@.dom() == a.profiles@.dom()
    &&& forall|k: Seq<char>| #[trigger] b.profiles@.contains_key(k) ==> sanitized_profile(a.profiles@[k], b.profiles@[k])
}

fn copy_path_opt(p: &Option<FsPath>) -> (r: Option<FsPath>)
    ensures
        crate::fspath::opt_path(r) == crate::fspath::opt_path(*p),
{
    match p {
        Some(x) => Some(x.duplicate()),
        None => None,
    }
}

fn sanitized_layer_of(l: &Layer) -> (r: Layer)
    ensures
        sanitized_layer(*l, r),
{
    Layer { settings: crate::settings::sanitize_settings(&l.settings), extensions: crate::collections::copy_strings(&l.extensions) }
}

fn sanitized_profile_of(p: &ProfileConfig) -> (r: ProfileConfig)
    ensures
        sanitized_profile(*p, r),
{
    ProfileConfig {
        icon: crate::collections::copy_opt(&p.icon),
        groups: crate::collections::copy_strings(&p.groups),
        settings: crate::settings::sanitize_settings(&p.settings),
        extensions: crate::collections::copy_strings(&p.extensions),
        exclude_extensions: crate::collections::copy_strings(&p.exclude_extensions),
        use_default: p.use_default.duplicate(),
    }
}

impl Config {
    /// A copy with all settings' null values stripped (TOML cannot hold null),
    /// as the config is written.
    pub fn sanitized(&self) -> (r: Config)
        ensures
            sanitized_config(*self, r),
    {
        let mut groups: NameMap<Layer> = NameMap::new();
        let mut i: usize = 0;
        proof {
            lemma_first_keys_empty(self.groups.keys());
        }
        while i < self.groups.len()
            invariant
                i <= self.groups.pairs().len(),
                groups@.dom() == first_keys(self.groups.keys(), i as int),
                forall|k: Seq<char>| #[trigger] groups@.contains_key(k) ==> self.groups@.contains_key(k)
                    && sanitized_layer(self.groups@[k], groups@[k]),
            decreases self.groups.pairs().len() - i,
        {
            let (k, l) = self.groups.entry(i);
            groups.insert(k.clone(), sanitized_layer_of(l));
            proof {
                lemma_first_keys_step(self.groups.keys(), i as int);
            }
            i += 1;
        }
        proof {
            self.groups.lemma_all_keys();
        }
        let mut profiles: NameMap<ProfileConfig> = NameMap::new();
        let mut j: usize = 0;
        proof {
            lemma_first_keys_empty(self.profiles.keys());
        }
        while j < self.profiles.len()
            invariant
                j <= self.profiles.pairs().len(),
                profiles@.dom() == first_keys(self.profiles.keys(), j as int),
                forall|k: Seq<char>| #[trigger] profiles@.contains_key(k) ==> self.profiles@.contains_key(k)
                    && sanitized_profile(self.profiles@[k], profiles@[k]),
            decreases self.profiles.pairs().len() - j,
        {
            let (k, p) = self.profiles.entry(j);
            profiles.insert(k.clone(), sanitized_profile_of(p));
            proof {
                lemma_first_keys_step(self.profiles.keys(), j as int);
            }
            j += 1;
        }
        proof {
            self.profiles.lemma_all_keys();
        }
        Config {
            editor: EditorRef {
                name: crate::collections::copy_opt(&self.editor.name),
                binary: copy_path_opt(&self.editor.binary),
                user_dir: copy_path_opt(&self.editor.user_dir),
                extensions_dir: copy_path_opt(&self.editor.extensions_dir),
            },
            global: sanitized_layer_of(&self.global),
            groups,
            default: DefaultProfile {
                groups: crate::collections::copy_strings(&self.default.groups),
                settings: crate::settings::sanitize_settings(&self.default.settings),
                extensions: crate::collections::copy_strings(&self.default.extensions),
                exclude_extensions: crate::collections::copy_strings(&self.default.exclude_extensions),
            },
            profiles,
        }
    }
}

}
