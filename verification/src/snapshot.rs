//! The last-synced state snapshot, used as the common ancestor for 3-way sync.
//!
//! The snapshot records the fully-resolved per-profile settings and extension
//! set as of the last successful sync, so config-side changes can be told from
//! editor-side ones instead of guessed.

use vstd::prelude::*;
use crate::collections::{IdSet, NameMap};
use crate::settings::Settings;

verus! {

/// Snapshot of a single profile's tracked state.
pub struct ProfileSnapshot {
    pub settings: Settings,
    pub extensions: IdSet,
}

/// Snapshot of all tracked profiles for one editor.
pub struct Snapshot {
    pub profiles: NameMap<ProfileSnapshot>,
}

impl Default for ProfileSnapshot {
    fn default() -> (r: Self)
        ensures
            r.settings@ == Map::<Seq<char>, crate::json::JsonValue>::empty(),
            r.extensions@ == Set::<Seq<char>>::empty(),
    {
        ProfileSnapshot { settings: NameMap::new(), extensions: IdSet::new() }
    }
}

impl Default for Snapshot {
    fn default() -> (r: Self)
        ensures
            r.profiles@ == Map::<Seq<char>, ProfileSnapshot>::empty(),
    {
        Snapshot { profiles: NameMap::new() }
    }
}

impl Snapshot {
    /// The recorded state of the named profile.
    pub fn profile(&self, name: &str) -> (r: Option<&ProfileSnapshot>)
        ensures
            r matches Some(p) ==> self.profiles@.contains_key(name@) && *p == self.profiles@[name@],
            r is None ==> !self.profiles@.contains_key(name@),
    {
        self.profiles.get(name)
    }
}

}
