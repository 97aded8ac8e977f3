//! The on-disk model of a VS Code OSS–based editor.

pub mod discover;
pub mod paths;
pub mod product;
pub mod profiles;

use vstd::prelude::*;
use crate::app_config::{identifiers_match, same_identifier};
use crate::collections::{copy_strings, copy_opt};
use crate::fspath::FsPath;
use paths::{EnvVar, PathEnv, Platform, user_dir_for, extensions_dir_for, user_dir_spec, extensions_dir_spec};
use product::Product;

verus! {

/// A discovered (or explicitly configured) editor installation.
pub struct Editor {
    /// Identity from the editor's `product.json`.
    pub product: Product,
    /// Launcher to invoke for CLI operations (e.g. installing extensions).
    pub launcher: FsPath,
    /// Command names that resolved to this product during discovery.
    pub launcher_aliases: Vec<String>,
    /// The `User/` directory holding settings, profiles, and the registry.
    pub user_dir: FsPath,
    /// The shared extensions install directory.
    pub extensions_dir: FsPath,
}

/// `dedupe_aliases`: the aliases in order, skipping empty ones and any that
/// matches one already kept.
pub open spec fn deduped(s: Seq<Seq<char>>) -> Seq<Seq<char>>
    decreases s.len(),
{
    if s.len() == 0 {
        Seq::empty()
    } else {
        let kept = deduped(s.drop_last());
        let a = s.last();
        if a.len() == 0 || exists|i: int| 0 <= i < kept.len() && same_identifier(#[trigger] kept[i], a) {
            kept
        } else {
            kept.push(a)
        }
    }
}

/// The built-in alias candidates of an editor, before deduplication.
pub open spec fn alias_candidates(e: Editor) -> Seq<Seq<char>> {
    seq![e.product.name_short@, e.product.name_long@, e.product.application_name@]
        + e.launcher_aliases@.map_values(|s: String| s@)
}

fn dedupe_aliases(aliases: Vec<String>) -> (r: Vec<String>)
    ensures
        r@.map_values(|s: String| s@) == deduped(aliases@.map_values(|s: String| s@)),
{
    let ghost src = aliases@.map_values(|s: String| s@);
    let mut out: Vec<String> = Vec::new();
    let mut i: usize = 0;
    while i < aliases.len()
        invariant
            i <= aliases.len(),
            src == aliases@.map_values(|s: String| s@),
            out@.map_values(|s: String| s@) == deduped(src.take(i as int)),
        decreases aliases.len() - i,
    {
        let alias = &aliases[i];
        let ghost kept = out@.map_values(|s: String| s@);
        proof {
            assert(src.take(i + 1).drop_last() =~= src.take(i as int));
            assert(src.take(i + 1).last() == alias@);
        }
        let mut dup = alias.as_str().is_empty();
        let mut j: usize = 0;
        while j < out.len() && !dup
            invariant
                j <= out.len(),
                kept == out@.map_values(|s: String| s@),
                dup == (alias@.len() == 0 || exists|k: int| 0 <= k < j && same_identifier(#[trigger] kept[k], alias@)),
            decreases out.len() - j,
        {
            if identifiers_match(out[j].as_str(), alias.as_str()) {
                proof {
                    assert(kept[j as int] == out@[j as int]@);
                }
                dup = true;
            }
            j += 1;
        }
        proof {
            if !dup {
                assert(j == out.len());
            }
        }
        if !dup {
            out.push(alias.clone());
            proof {
                assert(out@.map_values(|s: String| s@) =~= kept.push(alias@));
            }
        }
        i += 1;
    }
    proof {
        assert(src.take(aliases.len() as int) =~= src);
    }
    out
}

impl Editor {
    /// Builds an editor from its product identity and launcher, deriving its
    /// user-data and extensions directories for `platform` from `vars`.
    pub fn new(
        product: Product,
        launcher: FsPath,
        launcher_aliases: Vec<String>,
        platform: Platform,
        vars: &PathEnv,
    ) -> (r: Result<Editor, EnvVar>)
        ensures
            match (user_dir_spec(product, platform, *vars), extensions_dir_spec(product, platform, *vars)) {
                (Ok(u), Ok(x)) => r matches Ok(e) && e.product == product && e.launcher == launcher
                    && e.launcher_aliases == launcher_aliases && e.user_dir@ == u && e.extensions_dir@ == x,
                (Err(v), _) => r == Err::<Editor, EnvVar>(v),
                (Ok(_), Err(v)) => r == Err::<Editor, EnvVar>(v),
            },
    {
        let user_dir = user_dir_for(&product, platform, vars)?;
        let extensions_dir = extensions_dir_for(&product, platform, vars)?;
        Ok(Editor { product, launcher, launcher_aliases, user_dir, extensions_dir })
    }

    /// Stable identifier used in config and on the CLI (`nameShort`).
    pub fn id(&self) -> (r: &str)
        ensures
            r@ == self.product.name_short@,
    {
        self.product.name_short.as_str()
    }

    /// Built-in aliases derived from `product.json` and discovery: `nameShort`,
    /// `nameLong`, `applicationName`, then the launcher names, without empty
    /// ones or repeats (as identifiers match).
    pub fn aliases(&self) -> (r: Vec<String>)
        ensures
            r@.map_values(|s: String| s@) == deduped(alias_candidates(*self)),
    {
        let mut aliases: Vec<String> = Vec::new();
        aliases.push(self.product.name_short.clone());
        aliases.push(self.product.name_long.clone());
        aliases.push(self.product.application_name.clone());
        let mut i: usize = 0;
        while i < self.launcher_aliases.len()
            invariant
                i <= self.launcher_aliases.len(),
                aliases@.map_values(|s: String| s@) == seq![self.product.name_short@, self.product.name_long@,
                    self.product.application_name@] + self.launcher_aliases@.take(i as int).map_values(|s: String| s@),
            decreases self.launcher_aliases.len() - i,
        {
            let ghost prev = aliases@;
            aliases.push(self.launcher_aliases[i].clone());
            proof {
                assert(aliases@.map_values(|s: String| s@) =~= prev.map_values(|s: String| s@).push(self.launcher_aliases@[i as int]@));
                assert(self.launcher_aliases@.take(i + 1).map_values(|s: String| s@) =~=
                    self.launcher_aliases@.take(i as int).map_values(|s: String| s@).push(self.launcher_aliases@[i as int]@));
                assert(aliases@.map_values(|s: String| s@) =~= seq![self.product.name_short@, self.product.name_long@,
                    self.product.application_name@] + self.launcher_aliases@.take(i + 1).map_values(|s: String| s@));
            }
            i += 1;
        }
        proof {
            assert(self.launcher_aliases@.take(self.launcher_aliases.len() as int) =~= self.launcher_aliases@);
        }
        dedupe_aliases(aliases)
    }

    /// Whether `selector` matches this editor by any of its aliases.
    pub fn matches(&self, selector: &str) -> (r: bool)
        ensures
            r == exists|i: int| 0 <= i < deduped(alias_candidates(*self)).len()
                && same_identifier(#[trigger] deduped(alias_candidates(*self))[i], selector@),
    {
        let aliases = self.aliases();
        let ghost a = deduped(alias_candidates(*self));
        let mut i: usize = 0;
        while i < aliases.len()
            invariant
                i <= aliases.len(),
                a == deduped(alias_candidates(*self)),
                aliases@.map_values(|s: String| s@) == a,
                forall|j: int| 0 <= j < i ==> !same_identifier(#[trigger] a[j], selector@),
            decreases aliases.len() - i,
        {
            if identifiers_match(aliases[i].as_str(), selector) {
                proof {
                    assert(a[i as int] == aliases@[i as int]@);
                }
                return true;
            }
            proof {
                assert(a[i as int] == aliases@[i as int]@);
            }
            i += 1;
        }
        false
    }

    /// Path to the profile registry (`globalStorage/storage.json`).
    pub fn storage_json(&self) -> (r: FsPath)
        ensures
            r@ == self.user_dir@.push("globalStorage"@).push("storage.json"@),
    {
        self.user_dir.join("globalStorage").join("storage.json")
    }

    /// Directory holding a named profile's data, given its location id.
    pub fn profile_dir(&self, location: &str) -> (r: FsPath)
        ensures
            r@ == self.user_dir@.push("profiles"@).push(location@),
    {
        self.user_dir.join("profiles").join(location)
    }
}

}

verus! {

/// An editor's aliases never repeat: no kept alias matches an earlier one.
pub proof fn lemma_deduped_distinct(s: Seq<Seq<char>>)
    ensures
        forall|i: int, j: int| 0 <= i < j < deduped(s).len() ==>
            !same_identifier(#[trigger] deduped(s)[i], #[trigger] deduped(s)[j]),
        forall|i: int| 0 <= i < deduped(s).len() ==> (#[trigger] deduped(s)[i]).len() > 0,
    decreases s.len(),
{
    if s.len() > 0 {
        lemma_deduped_distinct(s.drop_last());
        let kept = deduped(s.drop_last());
        let a = s.last();
        if !(a.len() == 0 || exists|i: int| 0 <= i < kept.len() && same_identifier(#[trigger] kept[i], a)) {
            let d = kept.push(a);
            assert(deduped(s) == d);
            assert forall|i: int, j: int| 0 <= i < j < d.len() implies
                !same_identifier(#[trigger] d[i], #[trigger] d[j]) by {
                if j == kept.len() {
                    assert(d[i] == kept[i]);
                } else {
                    assert(d[i] == kept[i]);
                    assert(d[j] == kept[j]);
                }
            }
            assert forall|i: int| 0 <= i < d.len() implies (#[trigger] d[i]).len() > 0 by {
                if i < kept.len() {
                    assert(d[i] == kept[i]);
                }
            }
        }
    }
}

}
