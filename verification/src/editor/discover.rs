//! Naming rules used when discovering installed editors: which launcher
//! commands to look for, where an install tree keeps its `product.json`, and
//! how discovered editors are de-duplicated. Searching `PATH` and probing the
//! file system are left to the caller.

use vstd::prelude::*;
use crate::fspath::FsPath;
use crate::text::{chars_of, ends_with, has_suffix, owned, string_of_range};
use super::Editor;
use super::paths::{PathEnv, Platform, EnvVar, user_dir_spec, extensions_dir_spec};
use super::product::Product;

verus! {

/// Launcher command names looked for on `PATH`, in preference order.
pub fn launcher_names() -> (r: Vec<String>)
    ensures
        r@.map_values(|s: String| s@) == seq!["code-oss"@, "codium"@, "vscodium"@, "code"@,
            "code-insiders"@, "cursor"@],
{
    let mut v: Vec<String> = Vec::new();
    v.push(owned("code-oss"));
    v.push(owned("codium"));
    v.push(owned("vscodium"));
    v.push(owned("code"));
    v.push(owned("code-insiders"));
    v.push(owned("cursor"));
    proof {
        assert(v@.map_values(|s: String| s@) =~= seq!["code-oss"@, "codium"@, "vscodium"@, "code"@,
            "code-insiders"@, "cursor"@]);
    }
    v
}

/// System prefixes under which distributions install editor app trees.
pub fn system_prefixes() -> (r: Vec<String>)
    ensures
        r@.map_values(|s: String| s@) == seq!["/usr/lib"@, "/usr/share"@, "/opt"@, "/usr/local/lib"@,
            "/usr/local/share"@],
{
    let mut v: Vec<String> = Vec::new();
    v.push(owned("/usr/lib"));
    v.push(owned("/usr/share"));
    v.push(owned("/opt"));
    v.push(owned("/usr/local/lib"));
    v.push(owned("/usr/local/share"));
    proof {
        assert(v@.map_values(|s: String| s@) =~= seq!["/usr/lib"@, "/usr/share"@, "/opt"@, "/usr/local/lib"@,
            "/usr/local/share"@]);
    }
    v
}

/// The places under `dir` where an install keeps `product.json`, in the
/// order they are probed: `dir/product.json`, then
/// `dir/resources/app/product.json`.
pub fn product_json_candidates(dir: &FsPath) -> (r: Vec<FsPath>)
    ensures
        r@.len() == 2,
        r@[0]@ == dir@.push("product.json"@),
        r@[1]@ == dir@.push("resources"@).push("app"@).push("product.json"@),
{
    let mut v: Vec<FsPath> = Vec::new();
    v.push(dir.join("product.json"));
    v.push(dir.join("resources").join("app").join("product.json"));
    v
}

/// `s` without the suffix `p`, when it ends with it.
pub open spec fn without_suffix(s: Seq<char>, p: Seq<char>) -> Option<Seq<char>> {
    if ends_with(s, p) {
        Some(s.take(s.len() - p.len()))
    } else {
        None
    }
}

fn strip_suffix(s: &str, p: &str) -> (r: Option<String>)
    ensures
        match r {
            Some(t) => without_suffix(s@, p@) == Some(t@),
            None => without_suffix(s@, p@) is None,
        },
{
    if has_suffix(s, p) {
        let chars = chars_of(s);
        let q = chars_of(p);
        let t = string_of_range(&chars, 0, chars.len() - q.len());
        proof {
            assert(t@ =~= s@.take(s@.len() - p@.len()));
        }
        Some(t)
    } else {
        None
    }
}

/// The variants that can be pushed: the base itself, then the base without
/// `-oss`, then the base without `-insiders`, where those suffixes are
/// present.
pub open spec fn variants(base: Seq<char>) -> Seq<Seq<char>> {
    let oss = match without_suffix(base, "-oss"@) {
        Some(t) => seq![t],
        None => Seq::empty(),
    };
    let insiders = match without_suffix(base, "-insiders"@) {
        Some(t) => seq![t],
        None => Seq::empty(),
    };
    seq![base] + oss + insiders
}

/// Directory-name guesses for a launcher's file name, e.g. `code-oss` also
/// implies `code`.
pub fn name_variants(base: &str) -> (r: Vec<String>)
    ensures
        r@.map_values(|s: String| s@) == variants(base@),
{
    let mut names: Vec<String> = Vec::new();
    names.push(owned(base));
    let ghost first = names@.map_values(|s: String| s@);
    let oss = strip_suffix(base, "-oss");
    if let Some(t) = oss {
        names.push(t);
    }
    let ghost second = names@.map_values(|s: String| s@);
    let insiders = strip_suffix(base, "-insiders");
    if let Some(t) = insiders {
        names.push(t);
    }
    proof {
        assert(first =~= seq![base@]);
        assert(names@.map_values(|s: String| s@) =~= variants(base@));
    }
    names
}

/// Whether an editor with the same `nameShort` was already found.
pub open spec fn known_product(found: Seq<Editor>, e: Editor) -> bool {
    exists|i: int| 0 <= i < found.len() && (#[trigger] found[i]).product.name_short@ == e.product.name_short@
}

/// Records a discovered editor unless one with the same product
/// (`nameShort`) was found before it.
pub fn add_discovered(found: &mut Vec<Editor>, editor: Editor)
    ensures
        known_product(old(found)@, editor) ==> final(found)@ == old(found)@,
        !known_product(old(found)@, editor) ==> final(found)@ == old(found)@.push(editor),
{
    let mut i: usize = 0;
    while i < found.len()
        invariant
            i <= found.len(),
            found@ == old(found)@,
            forall|j: int| 0 <= j < i ==> (#[trigger] found@[j]).product.name_short@ != editor.product.name_short@,
        decreases found.len() - i,
    {
        if crate::text::same_text(found[i].product.name_short.as_str(), editor.product.name_short.as_str()) {
            return;
        }
        i += 1;
    }
    found.push(editor);
}


/// A launcher found on `PATH`, with the product its install tree describes.
pub struct Probe {
    /// The command name that was looked up.
    pub name: String,
    /// Where it was found.
    pub launcher: FsPath,
    /// The identity read from its `product.json`.
    pub product: Product,
}

/// Whether the directories of a probed product can be derived here.
pub open spec fn usable(p: Probe, platform: Platform, vars: PathEnv) -> bool {
    user_dir_spec(p.product, platform, vars) is Ok && extensions_dir_spec(p.product, platform, vars) is Ok
}

/// The probes that become editors, by position: those whose directories can
/// be derived, skipping any whose product (`nameShort`) an earlier one
/// already gave.
pub open spec fn kept_probes(ps: Seq<Probe>, platform: Platform, vars: PathEnv) -> Seq<int>
    decreases ps.len(),
{
    if ps.len() == 0 {
        Seq::empty()
    } else {
        let rest = kept_probes(ps.drop_last(), platform, vars);
        let j = ps.len() - 1;
        if usable(ps[j], platform, vars)
            && !exists|k: int| 0 <= k < rest.len() && ps[#[trigger] rest[k]].product.name_short@ == ps[j].product.name_short@ {
            rest.push(j)
        } else {
            rest
        }
    }
}

/// The editor a probe describes.
pub open spec fn probe_editor(p: Probe, e: Editor, platform: Platform, vars: PathEnv) -> bool {
    &&& e.product == p.product
    &&& e.launcher == p.launcher
    &&& e.launcher_aliases@.len() == 1 && e.launcher_aliases@[0]@ == p.name@
    &&& user_dir_spec(p.product, platform, vars) == Ok::<Seq<Seq<char>>, EnvVar>(e.user_dir@)
    &&& extensions_dir_spec(p.product, platform, vars) == Ok::<Seq<Seq<char>>, EnvVar>(e.extensions_dir@)
}

/// The editors found by probing the launchers in preference order, one per
/// product: each probe whose directories can be derived gives an editor
/// with its command name as alias, unless an earlier probe gave the same
/// product.
pub fn discover(probes: Vec<Probe>, platform: Platform, vars: &PathEnv) -> (r: Vec<Editor>)
    ensures
        r@.len() == kept_probes(probes@, platform, *vars).len(),
        forall|i: int| 0 <= i < r@.len() ==>
            probe_editor(probes@[kept_probes(probes@, platform, *vars)[i]], #[trigger] r@[i], platform, *vars),
{
    let ghost ps = probes@;
    assert(ps.len() == probes.len());
    let mut rest = probes;
    let mut found: Vec<Editor> = Vec::new();
    let mut i: usize = 0;
    proof {
        assert(ps.skip(0) =~= ps);
    }
    while rest.len() > 0
        invariant
            i <= ps.len(),
            i + rest@.len() == ps.len(),
            ps.len() <= usize::MAX,
            rest@ == ps.skip(i as int),
            found@.len() == kept_probes(ps.take(i as int), platform, *vars).len(),
            forall|m: int| 0 <= m < found@.len() ==>
                probe_editor(ps[kept_probes(ps.take(i as int), platform, *vars)[m]], #[trigger] found@[m], platform, *vars),
            forall|k: int| 0 <= k < kept_probes(ps.take(i as int), platform, *vars).len() ==>
                0 <= #[trigger] kept_probes(ps.take(i as int), platform, *vars)[k] < i,
        decreases rest.len(),
    {
        let p = rest.remove(0);
        let ghost pre = ps.take(i as int);
        let ghost kept = kept_probes(pre, platform, *vars);
        proof {
            assert(p == ps[i as int]);
            assert(ps.take(i + 1).drop_last() =~= pre);
            assert(ps.take(i + 1)[i as int] == p);
            assert(rest@ =~= ps.skip(i + 1));
            assert forall|k: int| 0 <= k < kept.len() implies ps.take(i + 1)[#[trigger] kept[k]] == ps[kept[k]] by {}
        }
        let mut aliases: Vec<String> = Vec::new();
        aliases.push(p.name);
        let ghost before = found@;
        match Editor::new(p.product, p.launcher, aliases, platform, vars) {
            Ok(editor) => {
                add_discovered(&mut found, editor);
                proof {
                    assert(known_product(before, editor) == exists|k: int| 0 <= k < kept.len()
                        && ps[#[trigger] kept[k]].product.name_short@ == ps[i as int].product.name_short@) by {
                        if known_product(before, editor) {
                            let m = choose|m: int| 0 <= m < before.len()
                                && (#[trigger] before[m]).product.name_short@ == editor.product.name_short@;
                            assert(probe_editor(ps[kept[m]], before[m], platform, *vars));
                        }
                        if exists|k: int| 0 <= k < kept.len()
                            && ps[#[trigger] kept[k]].product.name_short@ == ps[i as int].product.name_short@ {
                            let k = choose|k: int| 0 <= k < kept.len()
                                && ps[#[trigger] kept[k]].product.name_short@ == ps[i as int].product.name_short@;
                            assert(probe_editor(ps[kept[k]], before[k], platform, *vars));
                        }
                    }
                }
            },
            Err(_) => {},
        }
        i += 1;
    }
    proof {
        assert(ps.take(i as int) =~= ps);
    }
    found
}

/// An editor built from a user-given path: `input` itself is the launcher
/// when it is a launcher file, else the product's application found on `PATH`
/// (`on_path`), else the application name as given.
pub fn from_path(
    input: &FsPath,
    input_is_launcher: bool,
    product: Product,
    on_path: Option<FsPath>,
    platform: Platform,
    vars: &PathEnv,
) -> (r: Result<Editor, EnvVar>)
    ensures
        match (user_dir_spec(product, platform, *vars), extensions_dir_spec(product, platform, *vars)) {
            (Ok(u), Ok(x)) => r matches Ok(e) && e.product == product && e.launcher_aliases@.len() == 0
                && e.user_dir@ == u && e.extensions_dir@ == x
                && e.launcher@ == if input_is_launcher {
                    input@
                } else {
                    match on_path {
                        Some(p) => p@,
                        None => seq![product.application_name@],
                    }
                },
            (Err(v), _) => r == Err::<Editor, EnvVar>(v),
            (Ok(_), Err(v)) => r == Err::<Editor, EnvVar>(v),
        },
{
    let launcher = if input_is_launcher {
        input.duplicate()
    } else {
        match on_path {
            Some(p) => p,
            None => FsPath::from_text(product.application_name.as_str()),
        }
    };
    Editor::new(product, launcher, Vec::new(), platform, vars)
}

}

verus! {

/// Discovery yields one editor per product: the kept probes have pairwise
/// different `nameShort`s, each can derive its directories, and they keep
/// the launchers' preference order.
pub proof fn lemma_one_editor_per_product(ps: Seq<Probe>, platform: Platform, vars: PathEnv)
    ensures
        forall|i: int, j: int| 0 <= i < j < kept_probes(ps, platform, vars).len() ==>
            ps[#[trigger] kept_probes(ps, platform, vars)[i]].product.name_short@
                != ps[#[trigger] kept_probes(ps, platform, vars)[j]].product.name_short@
            && kept_probes(ps, platform, vars)[i] < kept_probes(ps, platform, vars)[j],
        forall|i: int| 0 <= i < kept_probes(ps, platform, vars).len() ==>
            0 <= #[trigger] kept_probes(ps, platform, vars)[i] < ps.len()
            && usable(ps[kept_probes(ps, platform, vars)[i]], platform, vars),
    decreases ps.len(),
{
    if ps.len() > 0 {
        let d = ps.drop_last();
        lemma_one_editor_per_product(d, platform, vars);
        let rest = kept_probes(d, platform, vars);
        let k = kept_probes(ps, platform, vars);
        assert forall|i: int| 0 <= i < rest.len() implies #[trigger] ps[rest[i]] == d[rest[i]] by {}
        if k.len() > rest.len() {
            let j0 = ps.len() - 1;
            assert(k == rest.push(j0));
            assert forall|i: int, j: int| 0 <= i < j < k.len() implies
                ps[#[trigger] k[i]].product.name_short@ != ps[#[trigger] k[j]].product.name_short@
                && k[i] < k[j] by {
                assert(k[i] == rest[i]);
                if j == rest.len() {
                    assert(k[j] == j0);
                } else {
                    assert(k[j] == rest[j]);
                }
            }
            assert forall|i: int| 0 <= i < k.len() implies
                0 <= #[trigger] k[i] < ps.len() && usable(ps[k[i]], platform, vars) by {
                if i < rest.len() {
                    assert(k[i] == rest[i]);
                }
            }
        } else {
            assert(k == rest);
        }
    }
}

}
