//! Per-user application config, editor identifiers, and app-home paths.

use vstd::prelude::*;
use crate::collections::copy_opt;
use crate::editor::Editor;
use crate::editor::paths::{EnvVar, Platform};
use crate::fspath::FsPath;
use crate::text::{alnum_lower, alnum_lowercase, eq_ignore_ascii_case, lower_text, is_alnum,
    ascii_lower, chars_of, is_alnum_char, lower_char, push_char};

verus! {

/// `identifiers_match`: equal ignoring ASCII case, or equal once reduced to
/// their lowercased ASCII letters and digits.
pub open spec fn same_identifier(a: Seq<char>, b: Seq<char>) -> bool {
    lower_text(a) == lower_text(b) || alnum_lower(a) == alnum_lower(b)
}

/// Whether two editor identifiers name the same editor: case-insensitively
/// equal, or equal after dropping punctuation and spaces.
pub fn identifiers_match(left: &str, right: &str) -> (r: bool)
    ensures
        r == same_identifier(left@, right@),
{
    eq_ignore_ascii_case(left, right) || normalize_identifier(left) == normalize_identifier(right)
}

/// The lowercased ASCII letters and digits of `value`.
pub fn normalize_identifier(value: &str) -> (r: String)
    ensures
        r@ == alnum_lower(value@),
{
    alnum_lowercase(value)
}

proof fn lemma_alnum_lower_of_lower(s: Seq<char>)
    ensures
        alnum_lower(lower_text(s)) == alnum_lower(s),
    decreases s.len(),
{
    if s.len() > 0 {
        lemma_alnum_lower_of_lower(s.drop_last());
        assert(lower_text(s).drop_last() =~= lower_text(s.drop_last()));
    }
}

/// Identifier matching is an equivalence: two identifiers match exactly when
/// their letters and digits agree ignoring case.
pub proof fn lemma_identifiers_match_by_alnum(a: Seq<char>, b: Seq<char>)
    ensures
        same_identifier(a, b) == (alnum_lower(a) == alnum_lower(b)),
        same_identifier(a, a),
        same_identifier(a, b) == same_identifier(b, a),
{
    if lower_text(a) == lower_text(b) {
        lemma_alnum_lower_of_lower(a);
        lemma_alnum_lower_of_lower(b);
    }
}

// ---------------------------------------------------------------------------
// safe_id
// ---------------------------------------------------------------------------

/// `c` lowercased when it is an ASCII letter or digit, `-` otherwise.
pub open spec fn id_char(c: char) -> char {
    if is_alnum(c) {
        ascii_lower(c)
    } else {
        '-'
    }
}

/// Reads `s` left to right: separator characters become a single `-` between
/// two runs of letters/digits; separators before the first and after the last
/// run vanish. `acc` holds the output so far and `pending` whether a `-` is
/// owed before the next run.
pub open spec fn squeeze(s: Seq<char>, acc: Seq<char>, pending: bool) -> Seq<char>
    decreases s.len(),
{
    if s.len() == 0 {
        acc
    } else if id_char(s[0]) == '-' {
        squeeze(s.drop_first(), acc, acc.len() > 0)
    } else if pending {
        squeeze(s.drop_first(), acc.push('-').push(id_char(s[0])), false)
    } else {
        squeeze(s.drop_first(), acc.push(id_char(s[0])), false)
    }
}

/// `safe_id`: lowercase letters and digits, runs of anything else turned into
/// single dashes, no dash at either end.
pub open spec fn safe_text(s: Seq<char>) -> Seq<char> {
    squeeze(s, Seq::empty(), false)
}

/// A file-name-safe form of an identifier: lowercase ASCII letters and
/// digits, with runs of other characters collapsed into single dashes and no
/// dash at either end (e.g. `"Code - OSS"` gives `"code-oss"`).
pub fn safe_id(value: &str) -> (r: String)
    ensures
        r@ == safe_text(value@),
{
    let chars = chars_of(value);
    let mut out = String::new();
    let mut pending = false;
    let mut written = false;
    let mut i: usize = 0;
    assert(value@.skip(0) =~= value@);
    while i < chars.len()
        invariant
            chars@ == value@,
            i <= chars.len(),
            safe_text(value@) == squeeze(value@.skip(i as int), out@, pending),
            written == (out@.len() > 0),
        decreases chars.len() - i,
    {
        let c = chars[i];
        proof {
            assert(value@.skip(i as int)[0] == c);
            assert(value@.skip(i as int).drop_first() =~= value@.skip(i + 1));
        }
        if !is_alnum_char(c) {
            pending = written;
        } else {
            if pending {
                push_char(&mut out, '-');
            }
            push_char(&mut out, lower_char(c));
            pending = false;
            written = true;
        }
        i += 1;
    }
    proof {
        assert(value@.skip(chars.len() as int) =~= Seq::<char>::empty());
    }
    out
}

}

verus! {

/// Name of the per-user application directory.
pub const APP_DIR_NAME: &'static str = "code-profile-manager";

/// The environment variables the app home is derived from (`None`: unset).
pub struct PathEnv {
    pub home: Option<String>,
    pub local_appdata: Option<String>,
    pub xdg_config_home: Option<String>,
}

impl Default for PathEnv {
    fn default() -> (r: Self)
        ensures
            r.home is None && r.local_appdata is None && r.xdg_config_home is None,
    {
        PathEnv { home: None, local_appdata: None, xdg_config_home: None }
    }
}

/// The default app home: `$XDG_CONFIG_HOME/code-profile-manager` (when set and
/// non-empty) or `~/.config/code-profile-manager` on Linux,
/// `~/Library/Application Support/code-profile-manager` on macOS, and
/// `%LOCALAPPDATA%\code-profile-manager` on Windows.
pub open spec fn app_home_spec(platform: Platform, vars: PathEnv) -> Result<Seq<Seq<char>>, EnvVar> {
    match platform {
        Platform::Linux => match vars.xdg_config_home {
            Some(x) if x@.len() > 0 => Ok(seq![x@, APP_DIR_NAME@]),
            _ => match vars.home {
                Some(h) => Ok(seq![h@, ".config"@, APP_DIR_NAME@]),
                None => Err(EnvVar::Home),
            },
        },
        Platform::Macos => match vars.home {
            Some(h) => Ok(seq![h@, "Library"@, "Application Support"@, APP_DIR_NAME@]),
            None => Err(EnvVar::Home),
        },
        Platform::Windows => match vars.local_appdata {
            Some(l) => Ok(seq![l@, APP_DIR_NAME@]),
            None => Err(EnvVar::LocalAppData),
        },
    }
}

/// The default per-user application directory for `platform`.
pub fn default_app_home_for(platform: Platform, vars: &PathEnv) -> (r: Result<FsPath, EnvVar>)
    ensures
        crate::editor::paths::path_result(r) == app_home_spec(platform, *vars),
{
    match platform {
        Platform::Linux => {
            match &vars.xdg_config_home {
                Some(x) => {
                    if !x.as_str().is_empty() {
                        let r = FsPath::from_text(x.as_str()).join(APP_DIR_NAME);
                        proof {
                            assert(r@ =~= seq![x@, APP_DIR_NAME@]);
                        }
                        return Ok(r);
                    }
                },
                None => {},
            }
            match &vars.home {
                Some(h) => {
                    let r = FsPath::from_text(h.as_str()).join(".config").join(APP_DIR_NAME);
                    proof {
                        assert(r@ =~= seq![h@, ".config"@, APP_DIR_NAME@]);
                    }
                    Ok(r)
                },
                None => Err(EnvVar::Home),
            }
        },
        Platform::Macos => match &vars.home {
            Some(h) => {
                let r = FsPath::from_text(h.as_str()).join("Library").join("Application Support").join(APP_DIR_NAME);
                proof {
                    assert(r@ =~= seq![h@, "Library"@, "Application Support"@, APP_DIR_NAME@]);
                }
                Ok(r)
            },
            None => Err(EnvVar::Home),
        },
        Platform::Windows => match &vars.local_appdata {
            Some(l) => {
                let r = FsPath::from_text(l.as_str()).join(APP_DIR_NAME);
                proof {
                    assert(r@ =~= seq![l@, APP_DIR_NAME@]);
                }
                Ok(r)
            },
            None => Err(EnvVar::LocalAppData),
        },
    }
}

/// Where the app keeps its state.
pub struct AppPaths {
    pub config: FsPath,
    pub editors_dir: FsPath,
    pub snapshots_dir: FsPath,
    pub backups_dir: FsPath,
    pub vendor_dir: FsPath,
}

/// The layout of an app home rooted at `root`.
pub open spec fn app_layout(root: Seq<Seq<char>>, p: AppPaths) -> bool {
    &&& p.config@ == root.push("config.toml"@)
    &&& p.editors_dir@ == root.push("editors"@)
    &&& p.snapshots_dir@ == root.push("snapshots"@)
    &&& p.backups_dir@ == root.push("backups"@)
    &&& p.vendor_dir@ == root.push("vendor"@).push("extensions"@)
}

impl AppPaths {
    /// The app paths under `override_dir`, or under the default app home.
    pub fn resolve(override_dir: Option<&FsPath>, platform: Platform, vars: &PathEnv) -> (r: Result<AppPaths, EnvVar>)
        ensures
            match override_dir {
                Some(d) => r matches Ok(p) && app_layout(d@, p),
                None => match app_home_spec(platform, *vars) {
                    Ok(h) => r matches Ok(p) && app_layout(h, p),
                    Err(v) => r == Err::<AppPaths, EnvVar>(v),
                },
            },
    {
        let root = match override_dir {
            Some(path) => path.duplicate(),
            None => default_app_home_for(platform, vars)?,
        };
        Ok(AppPaths {
            config: root.join("config.toml"),
            editors_dir: root.join("editors"),
            snapshots_dir: root.join("snapshots"),
            backups_dir: root.join("backups"),
            vendor_dir: root.join("vendor").join("extensions"),
        })
    }

    /// `editors/<safe id>.toml`.
    pub fn editor_config_path(&self, editor: &Editor) -> (r: FsPath)
        ensures
            r@ == self.editors_dir@.push(safe_text(editor.product.name_short@) + ".toml"@),
    {
        let mut name = safe_id(editor.id());
        crate::text::append_text(&mut name, ".toml");
        self.editors_dir.join(name.as_str())
    }

    /// `snapshots/<safe id>.snapshot.json`.
    pub fn snapshot_path(&self, editor: &Editor) -> (r: FsPath)
        ensures
            r@ == self.snapshots_dir@.push(safe_text(editor.product.name_short@) + ".snapshot.json"@),
    {
        let mut name = safe_id(editor.id());
        crate::text::append_text(&mut name, ".snapshot.json");
        self.snapshots_dir.join(name.as_str())
    }

    /// `backups/<timestamp>`: a directory for this run's backups.
    pub fn backup_dir(&self) -> (r: FsPath)
        ensures
            r@.drop_last() == self.backups_dir@,
            r@.len() == self.backups_dir@.len() + 1,
            exists|s: nat| r@.last() == crate::safety::decimal(s),
    {
        let t = crate::safety::timestamp();
        let r = self.backups_dir.join(t.as_str());
        proof {
            assert(r@.drop_last() =~= self.backups_dir@);
        }
        r
    }
}

// ---------------------------------------------------------------------------
// Known editors
// ---------------------------------------------------------------------------

/// An editor remembered in the app config, with its aliases and paths.
pub struct KnownEditor {
    pub id: String,
    pub aliases: Vec<String>,
    pub binary: Option<FsPath>,
    pub user_dir: Option<FsPath>,
    pub extensions_dir: Option<FsPath>,
}

/// `aliases` with each of `more` appended, in order, unless it matches an
/// alias already in the list.
pub open spec fn with_new_aliases(aliases: Seq<Seq<char>>, more: Seq<Seq<char>>) -> Seq<Seq<char>>
    decreases more.len(),
{
    if more.len() == 0 {
        aliases
    } else {
        let acc = with_new_aliases(aliases, more.drop_last());
        let x = more.last();
        if exists|i: int| 0 <= i < acc.len() && same_identifier(#[trigger] acc[i], x) {
            acc
        } else {
            acc.push(x)
        }
    }
}

pub open spec fn texts_of(v: Seq<String>) -> Seq<Seq<char>> {
    v.map_values(|s: String| s@)
}

impl KnownEditor {
    /// Whether `selector` names this editor, by id or by one of its aliases.
    pub fn matches(&self, selector: &str) -> (r: bool)
        ensures
            r == (same_identifier(self.id@, selector@)
                || exists|i: int| 0 <= i < self.aliases.len() && same_identifier((#[trigger] self.aliases@[i])@, selector@)),
    {
        if identifiers_match(self.id.as_str(), selector) {
            return true;
        }
        let mut i: usize = 0;
        while i < self.aliases.len()
            invariant
                i <= self.aliases.len(),
                forall|j: int| 0 <= j < i ==> !same_identifier((#[trigger] self.aliases@[j])@, selector@),
            decreases self.aliases.len() - i,
        {
            if identifiers_match(self.aliases[i].as_str(), selector) {
                return true;
            }
            i += 1;
        }
        false
    }

    /// What the app config remembers of a discovered editor.
    pub fn from_editor(editor: &Editor) -> (r: KnownEditor)
        ensures
            r.id@ == editor.product.name_short@,
            texts_of(r.aliases@) == crate::editor::deduped(crate::editor::alias_candidates(*editor)),
            crate::fspath::opt_path(r.binary) == Some(editor.launcher@),
            crate::fspath::opt_path(r.user_dir) == Some(editor.user_dir@),
            crate::fspath::opt_path(r.extensions_dir) == Some(editor.extensions_dir@),
    {
        KnownEditor {
            id: crate::text::owned(editor.id()),
            aliases: editor.aliases(),
            binary: Some(editor.launcher.duplicate()),
            user_dir: Some(editor.user_dir.duplicate()),
            extensions_dir: Some(editor.extensions_dir.duplicate()),
        }
    }

    /// Takes `other`'s paths and adds its aliases that are not already known.
    pub fn merge(&mut self, other: KnownEditor)
        ensures
            final(self).id == old(self).id,
            texts_of(final(self).aliases@) == with_new_aliases(texts_of(old(self).aliases@), texts_of(other.aliases@)),
            crate::fspath::opt_path(final(self).binary) == crate::fspath::opt_path(other.binary),
            crate::fspath::opt_path(final(self).user_dir) == crate::fspath::opt_path(other.user_dir),
            crate::fspath::opt_path(final(self).extensions_dir) == crate::fspath::opt_path(other.extensions_dir),
    {
        self.binary = other.binary;
        self.user_dir = other.user_dir;
        self.extensions_dir = other.extensions_dir;
        let ghost start = texts_of(self.aliases@);
        let ghost more = texts_of(other.aliases@);
        let mut i: usize = 0;
        while i < other.aliases.len()
            invariant
                i <= other.aliases.len(),
                more == texts_of(other.aliases@),
                texts_of(self.aliases@) == with_new_aliases(start, more.take(i as int)),
                self.id == old(self).id,
                crate::fspath::opt_path(self.binary) == crate::fspath::opt_path(other.binary),
                crate::fspath::opt_path(self.user_dir) == crate::fspath::opt_path(other.user_dir),
                crate::fspath::opt_path(self.extensions_dir) == crate::fspath::opt_path(other.extensions_dir),
            decreases other.aliases.len() - i,
        {
            let alias = &other.aliases[i];
            let ghost acc = texts_of(self.aliases@);
            proof {
                assert(more.take(i + 1).drop_last() =~= more.take(i as int));
                assert(more.take(i + 1).last() == alias@);
            }
            let mut found = false;
            let mut j: usize = 0;
            while j < self.aliases.len() && !found
                invariant
                    j <= self.aliases.len(),
                    acc == texts_of(self.aliases@),
                    found == exists|k: int| 0 <= k < j && same_identifier(#[trigger] acc[k], alias@),
                decreases self.aliases.len() - j,
            {
                if identifiers_match(self.aliases[j].as_str(), alias.as_str()) {
                    proof {
                        assert(acc[j as int] == self.aliases@[j as int]@);
                    }
                    found = true;
                }
                j += 1;
            }
            if !found {
                self.aliases.push(alias.clone());
                proof {
                    assert(texts_of(self.aliases@) =~= acc.push(alias@));
                }
            }
            i += 1;
        }
        proof {
            assert(more.take(other.aliases.len() as int) =~= more);
        }
    }
}

/// What `upsert_editor` makes of the editor list `before` for `e`: the
/// entry with `e`'s id takes `e`'s new aliases and paths, or a new entry for
/// `e` is appended.
pub open spec fn upserted(before: Seq<KnownEditor>, e: Editor, after: Seq<KnownEditor>) -> bool {
    match first_with_id(before, e.product.name_short@) {
        Some(i) => {
            &&& after.len() == before.len()
            &&& forall|j: int| 0 <= j < before.len() && j != i
                ==> #[trigger] after[j] == before[j]
            &&& after[i].id == before[i].id
            &&& texts_of(after[i].aliases@) == with_new_aliases(
                texts_of(before[i].aliases@),
                crate::editor::deduped(crate::editor::alias_candidates(e)))
            &&& crate::fspath::opt_path(after[i].binary) == Some(e.launcher@)
            &&& crate::fspath::opt_path(after[i].user_dir) == Some(e.user_dir@)
            &&& crate::fspath::opt_path(after[i].extensions_dir) == Some(e.extensions_dir@)
        },
        None => {
            &&& after.len() == before.len() + 1
            &&& forall|j: int| 0 <= j < before.len()
                ==> #[trigger] after[j] == before[j]
            &&& after.last().id@ == e.product.name_short@
            &&& texts_of(after.last().aliases@)
                == crate::editor::deduped(crate::editor::alias_candidates(e))
            &&& crate::fspath::opt_path(after.last().binary) == Some(e.launcher@)
            &&& crate::fspath::opt_path(after.last().user_dir) == Some(e.user_dir@)
            &&& crate::fspath::opt_path(after.last().extensions_dir) == Some(e.extensions_dir@)
        },
    }
}

/// Per-user application preferences: the default editor and the editors seen.
pub struct AppConfig {
    pub default_editor: Option<String>,
    pub editors: Vec<KnownEditor>,
}

impl Default for AppConfig {
    fn default() -> (r: Self)
        ensures
            r.default_editor is None,
            r.editors@.len() == 0,
    {
        AppConfig { default_editor: None, editors: Vec::new() }
    }
}

impl AppConfig {
    /// Records `editor`: merges it into the entry with the same id, or adds a
    /// new entry at the end.
    pub fn upsert_editor(&mut self, editor: &Editor)
        ensures
            final(self).default_editor == old(self).default_editor,
            upserted(old(self).editors@, *editor, final(self).editors@),
    {
        let known = KnownEditor::from_editor(editor);
        let mut i: usize = 0;
        while i < self.editors.len()
            invariant
                i <= self.editors.len(),
                self.editors@ == old(self).editors@,
                self.default_editor == old(self).default_editor,
                forall|j: int| 0 <= j < i ==> (#[trigger] self.editors@[j]).id@ != known.id@,
                known.id@ == editor.product.name_short@,
                texts_of(known.aliases@) == crate::editor::deduped(crate::editor::alias_candidates(*editor)),
                crate::fspath::opt_path(known.binary) == Some(editor.launcher@),
                crate::fspath::opt_path(known.user_dir) == Some(editor.user_dir@),
                crate::fspath::opt_path(known.extensions_dir) == Some(editor.extensions_dir@),
            decreases self.editors.len() - i,
        {
            if self.editors[i].id == known.id {
                proof {
                    lemma_first_with_id(old(self).editors@, known.id@, i as int);
                }
                let ghost before = self.editors@;
                let mut existing = self.editors.remove(i);
                existing.merge(known);
                self.editors.insert(i, existing);
                proof {
                    assert(self.editors@ =~= before.update(i as int, existing));
                }
                return;
            }
            i += 1;
        }
        proof {
            lemma_no_id(old(self).editors@, known.id@);
        }
        self.editors.push(known);
    }
}

/// The position of the first entry with id `id`.
pub open spec fn first_with_id(editors: Seq<KnownEditor>, id: Seq<char>) -> Option<int>
    decreases editors.len(),
{
    if editors.len() == 0 {
        None
    } else {
        match first_with_id(editors.drop_last(), id) {
            Some(i) => Some(i),
            None => if editors.last().id@ == id {
                Some(editors.len() - 1)
            } else {
                None
            },
        }
    }
}

proof fn lemma_first_with_id(editors: Seq<KnownEditor>, id: Seq<char>, i: int)
    requires
        0 <= i < editors.len(),
        editors[i].id@ == id,
        forall|j: int| 0 <= j < i ==> (#[trigger] editors[j]).id@ != id,
    ensures
        first_with_id(editors, id) == Some(i),
    decreases editors.len(),
{
    if i < editors.len() - 1 {
        lemma_first_with_id(editors.drop_last(), id, i);
    } else {
        lemma_no_id(editors.drop_last(), id);
    }
}

proof fn lemma_no_id(editors: Seq<KnownEditor>, id: Seq<char>)
    requires
        forall|j: int| 0 <= j < editors.len() ==> (#[trigger] editors[j]).id@ != id,
    ensures
        first_with_id(editors, id) is None,
    decreases editors.len(),
{
    if editors.len() > 0 {
        lemma_no_id(editors.drop_last(), id);
    }
}

proof fn lemma_first_with_id_found(editors: Seq<KnownEditor>, id: Seq<char>)
    ensures
        match first_with_id(editors, id) {
            Some(i) => 0 <= i < editors.len() && editors[i].id@ == id
                && forall|j: int| 0 <= j < i ==> (#[trigger] editors[j]).id@ != id,
            None => forall|j: int| 0 <= j < editors.len() ==> (#[trigger] editors[j]).id@ != id,
        },
    decreases editors.len(),
{
    if editors.len() > 0 {
        lemma_first_with_id_found(editors.drop_last(), id);
        assert forall|j: int| 0 <= j < editors.len() - 1 implies editors.drop_last()[j] == editors[j] by {}
    }
}

/// Whether `x` matches one of `aliases`.
pub open spec fn listed(aliases: Seq<Seq<char>>, x: Seq<char>) -> bool {
    exists|i: int| 0 <= i < aliases.len() && same_identifier(#[trigger] aliases[i], x)
}

/// Aliases that each match one already listed add nothing.
proof fn lemma_aliases_known(aliases: Seq<Seq<char>>, more: Seq<Seq<char>>)
    requires
        forall|k: int| 0 <= k < more.len() ==> #[trigger] listed(aliases, more[k]),
    ensures
        with_new_aliases(aliases, more) == aliases,
    decreases more.len(),
{
    if more.len() > 0 {
        assert forall|k: int| 0 <= k < more.drop_last().len() implies #[trigger] listed(aliases, more.drop_last()[k]) by {
            assert(more.drop_last()[k] == more[k]);
            assert(listed(aliases, more[k]));
        }
        lemma_aliases_known(aliases, more.drop_last());
        assert(listed(aliases, more[more.len() - 1]));
    }
}

/// After appending, every alias offered matches one in the list, and the
/// list starts with what it held before.
proof fn lemma_aliases_covered(aliases: Seq<Seq<char>>, more: Seq<Seq<char>>)
    ensures
        aliases.is_prefix_of(with_new_aliases(aliases, more)),
        forall|k: int| 0 <= k < more.len() ==> #[trigger] listed(with_new_aliases(aliases, more), more[k]),
    decreases more.len(),
{
    if more.len() > 0 {
        let acc = with_new_aliases(aliases, more.drop_last());
        let w = with_new_aliases(aliases, more);
        lemma_aliases_covered(aliases, more.drop_last());
        assert(acc.is_prefix_of(w));
        assert forall|k: int| 0 <= k < more.len() implies #[trigger] listed(w, more[k]) by {
            if k < more.len() - 1 {
                assert(more.drop_last()[k] == more[k]);
                assert(listed(acc, more.drop_last()[k]));
                let i = choose|i: int| 0 <= i < acc.len() && same_identifier(#[trigger] acc[i], more.drop_last()[k]);
                assert(w[i] == acc[i]);
            } else if !listed(acc, more.last()) {
                assert(w[acc.len() as int] == more.last());
                assert(same_identifier(more.last(), more.last()));
            }
        }
    }
}

/// Appending the same aliases a second time changes nothing.
pub proof fn lemma_with_new_aliases_idempotent(aliases: Seq<Seq<char>>, more: Seq<Seq<char>>)
    ensures
        with_new_aliases(with_new_aliases(aliases, more), more) == with_new_aliases(aliases, more),
{
    lemma_aliases_covered(aliases, more);
    lemma_aliases_known(with_new_aliases(aliases, more), more);
}

/// What an app config records of a known editor: its id, aliases and paths.
pub open spec fn known_model(k: KnownEditor) -> (Seq<char>, Seq<Seq<char>>, Option<Seq<Seq<char>>>,
    Option<Seq<Seq<char>>>, Option<Seq<Seq<char>>>) {
    (k.id@, texts_of(k.aliases@), crate::fspath::opt_path(k.binary), crate::fspath::opt_path(k.user_dir),
        crate::fspath::opt_path(k.extensions_dir))
}

pub open spec fn editors_model(v: Seq<KnownEditor>) -> Seq<(Seq<char>, Seq<Seq<char>>, Option<Seq<Seq<char>>>,
    Option<Seq<Seq<char>>>, Option<Seq<Seq<char>>>)> {
    v.map_values(|k: KnownEditor| known_model(k))
}

/// Upserting the same editor twice records the same as upserting it once.
pub proof fn lemma_upsert_idempotent(a: Seq<KnownEditor>, b: Seq<KnownEditor>, c: Seq<KnownEditor>, e: Editor)
    requires
        upserted(a, e, b),
        upserted(b, e, c),
    ensures
        editors_model(c) == editors_model(b),
{
    let id = e.product.name_short@;
    let d = crate::editor::deduped(crate::editor::alias_candidates(e));
    lemma_first_with_id_found(a, id);
    match first_with_id(a, id) {
        Some(i) => {
            assert forall|j: int| 0 <= j < i implies (#[trigger] b[j]).id@ != id by {
                assert(b[j] == a[j]);
            }
            lemma_first_with_id(b, id, i);
            lemma_with_new_aliases_idempotent(texts_of(a[i].aliases@), d);
            assert(known_model(c[i]) == known_model(b[i]));
            assert forall|j: int| 0 <= j < c.len() implies #[trigger] known_model(c[j]) == known_model(b[j]) by {}
            assert(editors_model(c) =~= editors_model(b));
        },
        None => {
            let n = a.len() as int;
            assert forall|j: int| 0 <= j < n implies (#[trigger] b[j]).id@ != id by {
                assert(b[j] == a[j]);
            }
            lemma_first_with_id(b, id, n);
            assert forall|k: int| 0 <= k < d.len() implies #[trigger] listed(d, d[k]) by {
                assert(same_identifier(d[k], d[k]));
            }
            lemma_aliases_known(d, d);
            assert(known_model(c[n]) == known_model(b[n]));
            assert forall|j: int| 0 <= j < c.len() implies #[trigger] known_model(c[j]) == known_model(b[j]) by {}
            assert(editors_model(c) =~= editors_model(b));
        },
    }
}

}

verus! {

/// A safe file-name part: lowercase ASCII letters, digits and single dashes
/// between them.
pub open spec fn safe_name(t: Seq<char>) -> bool {
    &&& forall|i: int| 0 <= i < t.len() ==> crate::text::is_lower(#[trigger] t[i])
        || crate::text::is_digit(t[i]) || t[i] == '-'
    &&& t.len() > 0 ==> t[0] != '-' && t.last() != '-'
    &&& forall|i: int| 0 <= i < t.len() - 1 ==> !(#[trigger] t[i] == '-' && t[i + 1] == '-')
}

proof fn lemma_id_char(c: char)
    requires
        is_alnum(c),
    ensures
        crate::text::is_lower(id_char(c)) || crate::text::is_digit(id_char(c)),
        id_char(c) != '-',
{
    if crate::text::is_upper(c) {
        assert((c as u32) + 32 <= 'z' as u32);
    }
}

proof fn lemma_squeeze_safe(s: Seq<char>, acc: Seq<char>, pending: bool)
    requires
        safe_name(acc),
        pending ==> acc.len() > 0,
    ensures
        safe_name(squeeze(s, acc, pending)),
    decreases s.len(),
{
    if s.len() > 0 {
        let c = s[0];
        if id_char(c) == '-' {
            lemma_squeeze_safe(s.drop_first(), acc, acc.len() > 0);
        } else {
            assert(is_alnum(c));
            lemma_id_char(c);
            let x = id_char(c);
            let next = if pending { acc.push('-').push(x) } else { acc.push(x) };
            assert forall|i: int| 0 <= i < next.len() implies crate::text::is_lower(#[trigger] next[i])
                || crate::text::is_digit(next[i]) || next[i] == '-' by {
                if i < acc.len() {
                    assert(next[i] == acc[i]);
                }
            }
            assert forall|i: int| 0 <= i < next.len() - 1 implies !(#[trigger] next[i] == '-' && next[i + 1] == '-') by {
                if i + 1 < acc.len() {
                    assert(next[i] == acc[i]);
                    assert(next[i + 1] == acc[i + 1]);
                } else if i + 1 == acc.len() {
                    assert(next[i] == acc.last());
                }
            }
            if acc.len() > 0 {
                assert(next[0] == acc[0]);
            }
            lemma_squeeze_safe(s.drop_first(), next, false);
        }
    }
}

/// `safe_id` always gives a safe file-name part: lowercase letters, digits
/// and single dashes between them, never a dash at either end.
pub proof fn lemma_safe_id_is_safe(s: Seq<char>)
    ensures
        safe_name(safe_text(s)),
{
    lemma_squeeze_safe(s, Seq::empty(), false);
}

/// Reading a safe name back keeps it: `acc` (with a `-` owed when `pending`)
/// is what has been read of `t` so far.
proof fn lemma_squeeze_keeps_safe(t: Seq<char>, i: int, acc: Seq<char>, pending: bool)
    requires
        safe_name(t),
        0 <= i <= t.len(),
        pending ==> acc.len() > 0 && acc.push('-') == t.take(i),
        !pending ==> acc == t.take(i) && (i == 0 || t[i - 1] != '-'),
    ensures
        squeeze(t.skip(i), acc, pending) == t,
    decreases t.len() - i,
{
    if i == t.len() {
        if pending {
            assert(t.last() == t.take(i).last());
        }
        assert(t.take(i) =~= t);
    } else {
        let c = t[i];
        assert(t.skip(i)[0] == c);
        assert(t.skip(i).drop_first() =~= t.skip(i + 1));
        if c == '-' {
            if pending {
                assert(t.take(i)[i - 1] == t[i - 1]);
            }
            assert(acc.len() > 0) by {
                if i == 0 {
                    assert(t[0] != '-');
                }
            }
            assert(acc.push('-') =~= t.take(i + 1));
            lemma_squeeze_keeps_safe(t, i + 1, acc, acc.len() > 0);
        } else {
            assert(crate::text::is_lower(c) || crate::text::is_digit(c));
            assert(id_char(c) == c);
            if pending {
                assert(acc.push('-').push(c) =~= t.take(i + 1));
                lemma_squeeze_keeps_safe(t, i + 1, acc.push('-').push(c), false);
            } else {
                assert(acc.push(c) =~= t.take(i + 1));
                lemma_squeeze_keeps_safe(t, i + 1, acc.push(c), false);
            }
        }
    }
}

/// A safe name is its own `safe_id`.
pub proof fn lemma_safe_name_is_fixed(t: Seq<char>)
    requires
        safe_name(t),
    ensures
        safe_text(t) == t,
{
    assert(t.take(0) =~= Seq::<char>::empty());
    assert(t.skip(0) =~= t);
    lemma_squeeze_keeps_safe(t, 0, Seq::empty(), false);
}

/// `safe_id` is idempotent: applied to its own result it gives that result.
pub proof fn lemma_safe_id_idempotent(s: Seq<char>)
    ensures
        safe_text(safe_text(s)) == safe_text(s),
{
    lemma_safe_id_is_safe(s);
    lemma_safe_name_is_fixed(safe_text(s));
}

}
