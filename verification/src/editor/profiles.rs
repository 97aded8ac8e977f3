//! The editor's profile registry (`globalStorage/storage.json`) and where each
//! profile keeps its settings and extension list.

use vstd::prelude::*;
use crate::collections::{NameMap, copy_opt};
use crate::text::{hex_digits, hex_string, pow16, lemma_hex_digits_injective};
use std::collections::hash_map::DefaultHasher;
use vstd::std_specs::hash::DefaultHasherAdditionalSpecFns;
use vstd::set_lib::{set_int_range, lemma_int_range, lemma_map_size, lemma_len_subset};
use vstd::relations::injective_on;

verus! {

/// A profile entry exactly as stored in `userDataProfiles`.
pub struct StoredProfile {
    pub name: String,
    pub location: String,
    pub icon: Option<String>,
    pub use_default_flags: Option<NameMap<bool>>,
}

/// A profile in the editor, including the implicit Default profile.
pub struct Profile {
    pub name: String,
    /// Location id of the profile directory, or `None` for the Default profile.
    pub location: Option<String>,
    pub icon: Option<String>,
    /// Resource types inherited from the Default profile (`useDefaultFlags`).
    pub use_default: NameMap<bool>,
}

/// Whether a map of `useDefaultFlags` marks `resource` as inherited.
pub open spec fn flag_set(flags: Map<Seq<char>, bool>, resource: Seq<char>) -> bool {
    flags.contains_key(resource) && flags[resource]
}

impl Profile {
    /// The Default profile.
    pub fn default_profile() -> (r: Self)
        ensures
            r.name@ == crate::config::DEFAULT_PROFILE@,
            r.location is None,
            r.icon is None,
            r.use_default@ == Map::<Seq<char>, bool>::empty(),
    {
        Profile {
            name: crate::config::DEFAULT_PROFILE.to_string(),
            location: None,
            icon: None,
            use_default: NameMap::new(),
        }
    }

    pub fn is_default(&self) -> (r: bool)
        ensures
            r == self.location is None,
    {
        self.location.is_none()
    }

    /// Whether this profile inherits `resource` (e.g. `"settings"`,
    /// `"extensions"`, `"keybindings"`) from the Default profile.
    pub fn inherits(&self, resource: &str) -> (r: bool)
        ensures
            r == flag_set(self.use_default@, resource@),
    {
        match self.use_default.get(resource) {
            Some(b) => *b,
            None => false,
        }
    }

    /// The `--profile` argument for the editor CLI, or `None` for the Default
    /// profile (which is targeted by omitting the flag).
    pub fn cli_profile(&self) -> (r: Option<&str>)
        ensures
            self.location is None ==> r is None,
            self.location is Some ==> (r matches Some(s) && s@ == self.name@),
    {
        if self.is_default() {
            None
        } else {
            Some(self.name.as_str())
        }
    }

    /// A copy of the profile.
    pub fn duplicate(&self) -> (r: Profile)
        ensures
            r.name == self.name,
            r.location == self.location,
            r.icon == self.icon,
            r.use_default@ == self.use_default@,
    {
        Profile {
            name: self.name.clone(),
            location: copy_opt(&self.location),
            icon: copy_opt(&self.icon),
            use_default: self.use_default.duplicate(),
        }
    }
}

/// The profile that a registry entry describes.
pub open spec fn profile_of(s: StoredProfile, p: Profile) -> bool {
    &&& p.name == s.name
    &&& p.location == Some(s.location)
    &&& p.icon == s.icon
    &&& p.use_default@ == match s.use_default_flags {
        Some(f) => f@,
        None => Map::<Seq<char>, bool>::empty(),
    }
}

/// All profiles in the editor, Default first, then the registry's entries in
/// order.
pub fn read_all(stored: Vec<StoredProfile>) -> (r: Vec<Profile>)
    ensures
        r.len() == stored.len() + 1,
        r[0].name@ == crate::config::DEFAULT_PROFILE@,
        r[0].location is None,
        r[0].icon is None,
        r[0].use_default@ == Map::<Seq<char>, bool>::empty(),
        forall|i: int| 0 <= i < stored.len() ==> profile_of(#[trigger] stored[i], r[i + 1]),
{
    let mut profiles: Vec<Profile> = Vec::new();
    profiles.push(Profile::default_profile());
    let mut i: usize = 0;
    while i < stored.len()
        invariant
            i <= stored.len(),
            profiles.len() == i + 1,
            profiles[0].name@ == crate::config::DEFAULT_PROFILE@,
            profiles[0].location is None,
            profiles[0].icon is None,
            profiles[0].use_default@ == Map::<Seq<char>, bool>::empty(),
            forall|j: int| 0 <= j < i ==> profile_of(#[trigger] stored[j], profiles[j + 1]),
        decreases stored.len() - i,
    {
        let s = &stored[i];
        let use_default = match &s.use_default_flags {
            Some(f) => f.duplicate(),
            None => NameMap::new(),
        };
        profiles.push(Profile {
            name: s.name.clone(),
            location: Some(s.location.clone()),
            icon: copy_opt(&s.icon),
            use_default,
        });
        i += 1;
    }
    profiles
}

}

verus! {

impl Profile {
    /// Path to this profile's `settings.json`.
    pub fn settings_path(&self, editor: &super::Editor) -> (r: crate::fspath::FsPath)
        ensures
            match self.location {
                Some(loc) => r@ == editor.user_dir@.push("profiles"@).push(loc@).push("settings.json"@),
                None => r@ == editor.user_dir@.push("settings.json"@),
            },
    {
        match &self.location {
            Some(loc) => editor.profile_dir(loc.as_str()).join("settings.json"),
            None => editor.user_dir.join("settings.json"),
        }
    }

    /// Path to this profile's extension membership list. Named profiles keep it
    /// in the profile directory; the Default profile uses the shared extensions
    /// directory's own `extensions.json`.
    pub fn extensions_path(&self, editor: &super::Editor) -> (r: crate::fspath::FsPath)
        ensures
            match self.location {
                Some(loc) => r@ == editor.user_dir@.push("profiles"@).push(loc@).push("extensions.json"@),
                None => r@ == editor.extensions_dir@.push("extensions.json"@),
            },
    {
        match &self.location {
            Some(loc) => editor.profile_dir(loc.as_str()).join("extensions.json"),
            None => editor.extensions_dir.join("extensions.json"),
        }
    }
}

}

verus! {

// ---------------------------------------------------------------------------
// Creating a profile
// ---------------------------------------------------------------------------

/// The writes that `Hash::hash` makes into a `DefaultHasher` for a string
/// slice with these characters.
pub uninterp spec fn str_writes(s: Seq<char>) -> Seq<Seq<u8>>;

/// The writes that `Hash::hash` makes into a `DefaultHasher` for a `u32`.
pub uninterp spec fn u32_writes(n: u32) -> Seq<Seq<u8>>;

/// Calls `Hash::hash` on a string slice. The contract claims that the hasher
/// has taken the writes that [`str_writes`] names for the text, after those
/// it held.
#[verifier::external_body]
fn hash_text(h: &mut DefaultHasher, s: &str)
    ensures
        final(h)@ == old(h)@ + str_writes(s@),
{
    std::hash::Hash::hash(s, h)
}

/// Calls `Hash::hash` on a `u32`. The contract claims that the hasher has
/// taken the writes that [`u32_writes`] names for the number, after those it
/// held.
#[verifier::external_body]
fn hash_u32(h: &mut DefaultHasher, n: u32)
    ensures
        final(h)@ == old(h)@ + u32_writes(n),
{
    std::hash::Hash::hash(&n, h)
}

/// Whether a registry entry already uses location `id`.
pub fn location_in_use(existing: &Vec<StoredProfile>, id: &str) -> (r: bool)
    ensures
        r == exists|i: int| 0 <= i < existing@.len() && (#[trigger] existing@[i]).location@ == id@,
{
    let mut i: usize = 0;
    while i < existing.len()
        invariant
            i <= existing.len(),
            forall|j: int| 0 <= j < i ==> (#[trigger] existing@[j]).location@ != id@,
        decreases existing.len() - i,
    {
        if crate::text::same_text(existing[i].location.as_str(), id) {
            return true;
        }
        i += 1;
    }
    false
}

/// Whether some registry entry uses location `id`.
pub open spec fn used_location(existing: Seq<StoredProfile>, id: Seq<char>) -> bool {
    exists|i: int| 0 <= i < existing.len() && (#[trigger] existing[i]).location@ == id
}

/// Where each of the first `n` eight-digit ids is in use, the registry has at
/// least `n` entries.
pub proof fn lemma_used_ids_need_entries(existing: Seq<StoredProfile>, n: nat)
    requires
        n <= 0x1_0000_0000,
        forall|m: int| 0 <= m < n ==> #[trigger] used_location(existing, hex_digits(m as nat, 8)),
    ensures
        n <= existing.len(),
{
    let ids = set_int_range(0, n as int);
    let f = |m: int| hex_digits(m as nat, 8);
    let locs = existing.map_values(|s: StoredProfile| s.location@);
    lemma_int_range(0, n as int);
    reveal_with_fuel(pow16, 9);
    assert(pow16(8) == 0x1_0000_0000);
    assert(injective_on(f, ids)) by {
        assert forall|a: int, b: int| ids.contains(a) && ids.contains(b) && #[trigger] f(a) == #[trigger] f(b) implies a == b by {
            lemma_hex_digits_injective(a as nat, b as nat, 8);
        }
    }
    lemma_map_size(ids, ids.map(f), f);
    assert(ids.map(f).subset_of(locs.to_set())) by {
        assert forall|x: Seq<char>| ids.map(f).contains(x) implies locs.to_set().contains(x) by {
            let m = choose|m: int| ids.contains(m) && f(m) == x;
            assert(used_location(existing, hex_digits(m as nat, 8)));
            let i = choose|i: int| 0 <= i < existing.len() && (#[trigger] existing[i]).location@ == x;
            assert(locs[i] == x);
        }
    }
    locs.lemma_cardinality_of_set();
    lemma_len_subset(ids.map(f), locs.to_set());
}

/// The id that attempt `k` gives for a profile named `name`: the low 32 bits
/// of a fresh `DefaultHasher`'s hash of the name, `nanos` and `k`, as eight
/// hexadecimal digits.
pub open spec fn attempt_id(name: Seq<char>, nanos: u32, k: u32) -> Seq<char> {
    hex_digits(
        (DefaultHasher::spec_finish(str_writes(name) + u32_writes(nanos) + u32_writes(k)) as nat) % 0x1_0000_0000,
        8,
    )
}

/// Whether `r` is the location that [`generate_location`] picks: the id of the
/// first attempt (below `u32::MAX`) that no registry entry uses; where every
/// attempt collides, the first unused eight-digit id in counting order; where
/// all of those are used too, the digits of `nanos`.
pub open spec fn generated_location(name: Seq<char>, existing: Seq<StoredProfile>, nanos: u32, r: Seq<char>) -> bool {
    if exists|k: u32| k < u32::MAX && !used_location(existing, #[trigger] attempt_id(name, nanos, k)) {
        exists|k: u32| k < u32::MAX && r == attempt_id(name, nanos, k) && !used_location(existing, r)
            && forall|j: u32| j < k ==> used_location(existing, #[trigger] attempt_id(name, nanos, j))
    } else if exists|n: nat| n < 0x1_0000_0000 && !used_location(existing, #[trigger] hex_digits(n, 8)) {
        exists|n: nat| n < 0x1_0000_0000 && r == hex_digits(n, 8) && !used_location(existing, r)
            && forall|m: nat| m < n ==> used_location(existing, #[trigger] hex_digits(m, 8))
    } else {
        r == hex_digits(nanos as nat, 8)
    }
}

/// A location id for a new profile named `name`: eight hexadecimal digits
/// that no registry entry uses (see [`generated_location`]). Only a registry
/// that uses all `2^32` ids leaves none, and then the digits of `nanos` are
/// used.
pub fn generate_location(name: &str, existing: &Vec<StoredProfile>, nanos: u32) -> (r: String)
    ensures
        generated_location(name@, existing@, nanos, r@),
        (exists|n: nat| n < 0x1_0000_0000 && r@ == hex_digits(n, 8)),
        existing@.len() < 0x1_0000_0000 ==> !used_location(existing@, r@),
{
    let mut attempt: u32 = 0;
    while attempt < u32::MAX
        invariant
            forall|j: u32| j < attempt ==> used_location(existing@, #[trigger] attempt_id(name@, nanos, j)),
        decreases u32::MAX - attempt,
    {
        let mut hasher = DefaultHasher::new();
        hash_text(&mut hasher, name);
        hash_u32(&mut hasher, nanos);
        hash_u32(&mut hasher, attempt);
        let h = std::hash::Hasher::finish(&hasher);
        proof {
            assert(Seq::<Seq<u8>>::empty() + str_writes(name@) =~= str_writes(name@));
        }
        let masked: u64 = h & 0xFFFF_FFFFu64;
        assert(masked <= 0xFFFF_FFFFu64 && masked == h % 0x1_0000_0000) by (bit_vector)
            requires
                masked == h & 0xFFFF_FFFFu64,
        ;
        let id = hex_string(masked as u32, 8);
        if !location_in_use(existing, id.as_str()) {
            proof {
                assert(id@ == attempt_id(name@, nanos, attempt));
                assert(!used_location(existing@, attempt_id(name@, nanos, attempt)));
            }
            return id;
        }
        attempt += 1;
    }
    let mut n: u64 = 0;
    while n < 0x1_0000_0000u64
        invariant
            n <= 0x1_0000_0000,
            forall|j: u32| j < u32::MAX ==> used_location(existing@, #[trigger] attempt_id(name@, nanos, j)),
            forall|m: nat| m < n ==> #[trigger] used_location(existing@, hex_digits(m, 8)),
        decreases 0x1_0000_0000 - n,
    {
        let id = hex_string(n as u32, 8);
        if !location_in_use(existing, id.as_str()) {
            proof {
                assert(!used_location(existing@, hex_digits(n as nat, 8)));
            }
            return id;
        }
        n += 1;
    }
    proof {
        assert forall|m: int| 0 <= m < 0x1_0000_0000 implies #[trigger] used_location(existing@, hex_digits(m as nat, 8)) by {
            assert(used_location(existing@, hex_digits(m as nat, 8)));
        }
        lemma_used_ids_need_entries(existing@, 0x1_0000_0000);
    }
    hex_string(nanos, 8)
}

}

verus! {

/// The use-default flags a new registry entry records: none when the map is
/// empty.
pub open spec fn recorded_flags(flags: Map<Seq<char>, bool>, stored: Option<NameMap<bool>>) -> bool {
    if flags == Map::<Seq<char>, bool>::empty() {
        stored is None
    } else {
        stored matches Some(f) && f@ == flags
    }
}

/// The model of a new named profile and the registry entry that records it,
/// at a fresh location (see [`generate_location`]) derived from the name and
/// the nanoseconds the clock reads.
/// Registering the entry and creating its directory are left to the caller.
pub fn new_profile(
    name: &str,
    icon: Option<&str>,
    use_default: &NameMap<bool>,
    existing: &Vec<StoredProfile>,
) -> (r: (Profile, StoredProfile))
    ensures
        r.0.name@ == name@,
        r.0.location matches Some(loc) && loc@ == r.1.location@,
        r.0.icon matches Some(i) ==> icon matches Some(j) && i@ == j@,
        r.0.icon is None <==> icon is None,
        r.0.use_default@ == use_default@,
        profile_of(r.1, r.0),
        recorded_flags(use_default@, r.1.use_default_flags),
        exists|n: nat| n < 0x1_0000_0000 && r.1.location@ == hex_digits(n, 8),
        existing@.len() < 0x1_0000_0000 ==> !used_location(existing@, r.1.location@),
        exists|nanos: u32| nanos < 1_000_000_000 && generated_location(name@, existing@, nanos, r.1.location@),
{
    let now = crate::safety::system_now();
    let nanos = crate::safety::subsec_nanos_since_epoch(&now);
    let location = generate_location(name, existing, nanos);
    let icon_owned = match icon {
        Some(i) => Some(crate::text::owned(i)),
        None => None,
    };
    proof {
        use_type_invariant(use_default);
    }
    let flags = if use_default.len() == 0 {
        proof {
            use_default.lemma_all_keys();
            crate::collections::lemma_first_keys_empty(use_default.keys());
            assert(use_default@ =~= Map::<Seq<char>, bool>::empty());
        }
        None
    } else {
        proof {
            use_default.lemma_entry(0);
            assert(use_default@.dom().contains(use_default.keys()[0]));
            assert(!Map::<Seq<char>, bool>::empty().dom().contains(use_default.keys()[0]));
        }
        Some(use_default.duplicate())
    };
    let owned_name = name.to_string();
    let stored = StoredProfile {
        name: owned_name.clone(),
        location: location.clone(),
        icon: copy_opt(&icon_owned),
        use_default_flags: flags,
    };
    let profile = Profile {
        name: owned_name,
        location: Some(location),
        icon: icon_owned,
        use_default: use_default.duplicate(),
    };
    proof {
        assert(generated_location(name@, existing@, nanos, stored.location@));
    }
    (profile, stored)
}

}

verus! {

// ---------------------------------------------------------------------------
// The registry document
// ---------------------------------------------------------------------------

/// Where a registry (`storage.json`) keeps its profile list.
pub enum RegistryField {
    /// The document has no `userDataProfiles` member (or is not an object).
    Absent,
    /// The list, stored as a JSON-encoded string (as some builds do).
    Encoded(String),
    /// The list as a JSON value (normally an array).
    Listed(crate::json::JsonValue),
}

/// The registry's `userDataProfiles` member, telling a JSON-encoded string
/// apart from a plain value.
pub fn registry_field(root: &crate::json::JsonValue) -> (r: RegistryField)
    ensures
        match crate::extension::field(root.model(), "userDataProfiles"@) {
            None => r is Absent,
            Some(crate::json::Json::Str(s)) => r matches RegistryField::Encoded(t) && t@ == s,
            Some(v) => r matches RegistryField::Listed(x) && x.model() == v,
        },
{
    match root {
        crate::json::JsonValue::Object(ms) => {
            proof {
                crate::json::lemma_object_model(*ms);
            }
            match crate::extension::find_member(ms, "userDataProfiles") {
                None => RegistryField::Absent,
                Some(crate::json::JsonValue::String(s)) => RegistryField::Encoded(crate::text::owned(s.as_str())),
                Some(v) => RegistryField::Listed(crate::json::copy_value(v)),
            }
        },
        _ => RegistryField::Absent,
    }
}

/// The `userDataProfiles` member of a registry text: `None` where the text
/// is not valid JSON.
pub fn registry_field_of_text(text: &str) -> (r: Option<RegistryField>)
    ensures
        match crate::json::parsed_json(text@) {
            None => r is None,
            Some(root) => r matches Some(f) && match crate::extension::field(root, "userDataProfiles"@) {
                None => f is Absent,
                Some(crate::json::Json::Str(s)) => f matches RegistryField::Encoded(t) && t@ == s,
                Some(v) => f matches RegistryField::Listed(x) && x.model() == v,
            },
        },
{
    match crate::json::parse_document(text) {
        Some(root) => Some(registry_field(&root)),
        None => None,
    }
}

/// The registry with its profile list replaced by `profiles` and every other
/// member kept; `None` when the document is not a JSON object.
pub fn registry_with(root: &crate::json::JsonValue, profiles: crate::json::JsonValue) -> (r: Option<crate::json::JsonValue>)
    ensures
        match root.model() {
            crate::json::Json::Object(ms) => r matches Some(x) && x.model() == crate::json::Json::Object(
                crate::extension::put_member(ms, "userDataProfiles"@, profiles.model())),
            _ => r is None,
        },
{
    match root {
        crate::json::JsonValue::Object(ms) => {
            proof {
                crate::json::lemma_object_model(*ms);
            }
            let out = crate::extension::put_member_value(ms, "userDataProfiles", profiles);
            proof {
                crate::json::lemma_object_model(out);
            }
            Some(crate::json::JsonValue::Object(out))
        },
        _ => None,
    }
}

/// Why a registry could not be updated.
pub enum RegistryError {
    /// The registry's text is not valid JSON.
    Unparsable,
    /// The registry's document is not a JSON object.
    NotObject,
}

/// The registry document to write back: the one the text holds (an empty
/// object where there is no registry file yet) with its profile list replaced
/// by `profiles` and every other member kept.
pub fn updated_registry(text: Option<&str>, profiles: crate::json::JsonValue) -> (r: Result<crate::json::JsonValue, RegistryError>)
    ensures
        match text {
            None => r matches Ok(x) && x.model() == crate::json::Json::Object(
                crate::extension::put_member(Seq::empty(), "userDataProfiles"@, profiles.model())),
            Some(t) => match crate::json::parsed_json(t@) {
                None => r matches Err(RegistryError::Unparsable),
                Some(crate::json::Json::Object(ms)) => r matches Ok(x) && x.model() == crate::json::Json::Object(
                    crate::extension::put_member(ms, "userDataProfiles"@, profiles.model())),
                Some(_) => r matches Err(RegistryError::NotObject),
            },
        },
{
    let root = match text {
        None => {
            let empty: Vec<(String, crate::json::JsonValue)> = Vec::new();
            proof {
                crate::json::lemma_object_model(empty);
                assert(crate::json::member_models(empty@) =~= Seq::<(Seq<char>, crate::json::Json)>::empty());
            }
            crate::json::JsonValue::Object(empty)
        },
        Some(t) => match crate::json::parse_document(t) {
            Some(v) => v,
            None => return Err(RegistryError::Unparsable),
        },
    };
    match registry_with(&root, profiles) {
        Some(x) => Ok(x),
        None => Err(RegistryError::NotObject),
    }
}

}
