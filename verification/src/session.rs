//! The decisions of a working session: which editor to operate on, where its
//! config, snapshot and backups live, what the overrides change, and the
//! choices offered in the interactive menus. Prompting, probing the file
//! system and running the engine are left to the caller.

use vstd::prelude::*;
use crate::app_config::{AppConfig, AppPaths, KnownEditor, safe_id, safe_text, same_identifier};
use crate::cli::GlobalArgs;
use crate::collections::{copy_strings, texts};
use crate::config::{Config, DEFAULT_PROFILE};
use crate::editor::Editor;
use crate::fspath::{FsPath, opt_path};
use crate::snapshot::Snapshot;
use crate::sync::Ctx;
use crate::text::{append_text, same_text};

verus! {

// ---------------------------------------------------------------------------
// Where state is kept
// ---------------------------------------------------------------------------

/// Where a session keeps its snapshot, backups and vendored extensions.
pub struct StoragePaths {
    pub snapshot_path: FsPath,
    pub backup_dir: FsPath,
    pub vendor_dir: FsPath,
}

/// A backup directory: `dir` with one timestamp component joined on.
pub open spec fn stamped(dir: Seq<Seq<char>>, r: Seq<Seq<char>>) -> bool {
    r.len() == dir.len() + 1 && r.drop_last() == dir && exists|s: nat| r.last() == crate::safety::decimal(s)
}

impl StoragePaths {
    /// State kept in the app home.
    pub fn for_app(app_paths: &AppPaths, editor: &Editor) -> (r: StoragePaths)
        ensures
            r.snapshot_path@ == app_paths.snapshots_dir@.push(safe_text(editor.product.name_short@) + ".snapshot.json"@),
            stamped(app_paths.backups_dir@, r.backup_dir@),
            r.vendor_dir@ == app_paths.vendor_dir@,
    {
        StoragePaths {
            snapshot_path: app_paths.snapshot_path(editor),
            backup_dir: app_paths.backup_dir(),
            vendor_dir: app_paths.vendor_dir.duplicate(),
        }
    }

    /// State kept next to an explicit config file, under `.code-pm` in the
    /// config's directory `config_dir`.
    pub fn for_config(config_dir: &FsPath, editor: &Editor) -> (r: StoragePaths)
        ensures
            r.snapshot_path@ == config_dir@.push(".code-pm"@).push("snapshots"@)
                .push(safe_text(editor.product.name_short@) + ".snapshot.json"@),
            stamped(config_dir@.push(".code-pm"@).push("backups"@), r.backup_dir@),
            r.vendor_dir@ == config_dir@.push(".code-pm"@).push("vendor"@).push("extensions"@),
    {
        let state_dir = config_dir.join(".code-pm");
        let mut name = safe_id(editor.id());
        append_text(&mut name, ".snapshot.json");
        let backups = state_dir.join("backups");
        let stamp = crate::safety::timestamp();
        let backup_dir = backups.join(stamp.as_str());
        proof {
            assert(backup_dir@.drop_last() =~= backups@);
        }
        StoragePaths {
            snapshot_path: state_dir.join("snapshots").join(name.as_str()),
            backup_dir,
            vendor_dir: state_dir.join("vendor").join("extensions"),
        }
    }
}

/// The config file: the one given on the command line, else the editor's file
/// in the app home.
pub fn config_path_for(g: &GlobalArgs, app_paths: &AppPaths, editor: &Editor) -> (r: FsPath)
    ensures
        match g.config {
            Some(c) => r@ == c@,
            None => r@ == app_paths.editors_dir@.push(safe_text(editor.product.name_short@) + ".toml"@),
        },
{
    match &g.config {
        Some(c) => c.duplicate(),
        None => app_paths.editor_config_path(editor),
    }
}

/// Whether state is kept next to the config file: an explicit config without
/// an explicit app directory.
pub open spec fn keeps_state_by_config(g: GlobalArgs) -> bool {
    g.config is Some && g.app_dir is None
}

/// Where the session keeps its state: next to an explicit config file (whose
/// directory is `config_dir`) when no app directory was given, else in the
/// app home.
pub fn storage_paths_for(g: &GlobalArgs, app_paths: &AppPaths, editor: &Editor, config_dir: &FsPath) -> (r: StoragePaths)
    ensures
        keeps_state_by_config(*g) ==> r.vendor_dir@ == config_dir@.push(".code-pm"@).push("vendor"@).push("extensions"@)
            && r.snapshot_path@ == config_dir@.push(".code-pm"@).push("snapshots"@)
                .push(safe_text(editor.product.name_short@) + ".snapshot.json"@)
            && stamped(config_dir@.push(".code-pm"@).push("backups"@), r.backup_dir@),
        !keeps_state_by_config(*g) ==> r.vendor_dir@ == app_paths.vendor_dir@
            && r.snapshot_path@ == app_paths.snapshots_dir@.push(safe_text(editor.product.name_short@) + ".snapshot.json"@)
            && stamped(app_paths.backups_dir@, r.backup_dir@),
{
    if g.config.is_some() && g.app_dir.is_none() {
        StoragePaths::for_config(config_dir, editor)
    } else {
        StoragePaths::for_app(app_paths, editor)
    }
}

/// Whether the session records the editor in the app config: unless state is
/// kept next to an explicit config file.
pub fn keeps_app_paths(g: &GlobalArgs) -> (r: bool)
    ensures
        r == !keeps_state_by_config(*g),
{
    g.config.is_none() || g.app_dir.is_some()
}

// ---------------------------------------------------------------------------
// Engine contexts
// ---------------------------------------------------------------------------

/// The engine options of a run over the profiles the command line names.
pub fn make_ctx<'a>(editor: &'a Editor, g: &GlobalArgs, backup_dir: FsPath, vendor_dir: FsPath) -> (r: Ctx<'a>)
    ensures
        *r.editor == *editor,
        r.dry_run == g.dry_run,
        r.non_interactive == g.non_interactive,
        r.prefer == g.prefer,
        r.profile_filter@ == g.profile@,
        r.backup_dir == backup_dir,
        r.vendor_dir == vendor_dir,
{
    Ctx {
        editor,
        dry_run: g.dry_run,
        non_interactive: g.non_interactive,
        prefer: g.prefer,
        profile_filter: copy_strings(&g.profile),
        backup_dir,
        vendor_dir,
    }
}

/// The engine options of a run scoped to the single profile `name`.
pub fn scoped_ctx<'a>(editor: &'a Editor, g: &GlobalArgs, backup_dir: FsPath, vendor_dir: FsPath, name: &str) -> (r: Ctx<'a>)
    ensures
        *r.editor == *editor,
        r.dry_run == g.dry_run,
        r.non_interactive == g.non_interactive,
        r.prefer == g.prefer,
        r.profile_filter@.len() == 1,
        r.profile_filter@[0]@ == name@,
        r.backup_dir == backup_dir,
        r.vendor_dir == vendor_dir,
{
    let mut ctx = make_ctx(editor, g, backup_dir, vendor_dir);
    let mut only: Vec<String> = Vec::new();
    only.push(crate::text::owned(name));
    ctx.profile_filter = only;
    ctx
}

// ---------------------------------------------------------------------------
// Overrides
// ---------------------------------------------------------------------------

/// `path` replaced by `over` when there is one.
pub open spec fn overridden(path: Seq<Seq<char>>, over: Option<FsPath>) -> Seq<Seq<char>> {
    match over {
        Some(p) => p@,
        None => path,
    }
}

/// The editor with the config's launcher and directory overrides applied.
pub fn apply_overrides(editor: Editor, config: Option<&Config>) -> (r: Editor)
    ensures
        r.product == editor.product,
        r.launcher_aliases == editor.launcher_aliases,
        match config {
            Some(c) => r.launcher@ == overridden(editor.launcher@, c.editor.binary)
                && r.user_dir@ == overridden(editor.user_dir@, c.editor.user_dir)
                && r.extensions_dir@ == overridden(editor.extensions_dir@, c.editor.extensions_dir),
            None => r.launcher@ == editor.launcher@ && r.user_dir@ == editor.user_dir@
                && r.extensions_dir@ == editor.extensions_dir@,
        },
{
    let mut editor = editor;
    if let Some(cfg) = config {
        if let Some(bin) = &cfg.editor.binary {
            editor.launcher = bin.duplicate();
        }
        if let Some(dir) = &cfg.editor.user_dir {
            editor.user_dir = dir.duplicate();
        }
        if let Some(dir) = &cfg.editor.extensions_dir {
            editor.extensions_dir = dir.duplicate();
        }
    }
    editor
}

/// Applies a remembered editor's overrides: its launcher when the editor
/// built from that launcher has a matching id (`binary_id`, when it could be
/// built), and its directories.
pub fn apply_known_overrides(editor: &mut Editor, known: &KnownEditor, binary_id: Option<&str>)
    ensures
        final(editor).product == old(editor).product,
        final(editor).launcher_aliases == old(editor).launcher_aliases,
        final(editor).launcher@ == match (known.binary, binary_id) {
            (Some(b), Some(id)) => if same_identifier(id@, old(editor).product.name_short@) {
                b@
            } else {
                old(editor).launcher@
            },
            _ => old(editor).launcher@,
        },
        final(editor).user_dir@ == overridden(old(editor).user_dir@, known.user_dir),
        final(editor).extensions_dir@ == overridden(old(editor).extensions_dir@, known.extensions_dir),
{
    if let Some(binary) = &known.binary {
        if let Some(id) = binary_id {
            if crate::app_config::identifiers_match(id, editor.id()) {
                editor.launcher = binary.duplicate();
            }
        }
    }
    if let Some(dir) = &known.user_dir {
        editor.user_dir = dir.duplicate();
    }
    if let Some(dir) = &known.extensions_dir {
        editor.extensions_dir = dir.duplicate();
    }
}

}

verus! {

// ---------------------------------------------------------------------------
// Choosing the editor
// ---------------------------------------------------------------------------

/// Where the editor to operate on comes from, in order of precedence.
pub enum EditorSource {
    /// `--editor`: a name or a path.
    Selector(String),
    /// The config's explicit launcher.
    Binary(FsPath),
    /// The config's editor name.
    Named(String),
    /// The app config's default editor.
    Remembered(String),
    /// Discovery on `PATH`.
    Discover,
}

/// Where the editor comes from: `--editor`, else the loaded config's launcher,
/// else its editor name, else the remembered default, else discovery.
pub fn editor_source(g: &GlobalArgs, config: Option<&Config>, app_config: &AppConfig) -> (r: EditorSource)
    ensures
        g.editor matches Some(s) ==> r matches EditorSource::Selector(t) && t@ == s@,
        g.editor is None ==> match config {
            Some(c) => match (c.editor.binary, c.editor.name) {
                (Some(b), _) => r matches EditorSource::Binary(p) && p@ == b@,
                (None, Some(n)) => r matches EditorSource::Named(t) && t@ == n@,
                (None, None) => match app_config.default_editor {
                    Some(d) => r matches EditorSource::Remembered(t) && t@ == d@,
                    None => r is Discover,
                },
            },
            None => match app_config.default_editor {
                Some(d) => r matches EditorSource::Remembered(t) && t@ == d@,
                None => r is Discover,
            },
        },
{
    if let Some(selector) = &g.editor {
        return EditorSource::Selector(crate::text::owned(selector.as_str()));
    }
    if let Some(cfg) = config {
        if let Some(bin) = &cfg.editor.binary {
            return EditorSource::Binary(bin.duplicate());
        }
        if let Some(name) = &cfg.editor.name {
            return EditorSource::Named(crate::text::owned(name.as_str()));
        }
    }
    match &app_config.default_editor {
        Some(d) => EditorSource::Remembered(crate::text::owned(d.as_str())),
        None => EditorSource::Discover,
    }
}

/// What discovery leaves to do.
#[derive(Clone, Copy, Debug, PartialEq, Eq, Structural)]
pub enum Discovery {
    /// No editor was found.
    NoneFound,
    /// Exactly one editor was found: use it.
    Single,
    /// Several were found and prompting is not allowed.
    Refuse,
    /// Several were found: ask the user to pick one.
    Ask,
}

/// The outcome of discovering `found` editors.
pub fn discovery_outcome(found: usize, non_interactive: bool) -> (r: Discovery)
    ensures
        found == 0 ==> r == Discovery::NoneFound,
        found == 1 ==> r == Discovery::Single,
        found > 1 && non_interactive ==> r == Discovery::Refuse,
        found > 1 && !non_interactive ==> r == Discovery::Ask,
{
    if found == 0 {
        Discovery::NoneFound
    } else if found == 1 {
        Discovery::Single
    } else if non_interactive {
        Discovery::Refuse
    } else {
        Discovery::Ask
    }
}

/// Whether `selector` names a remembered editor, by id or by an alias.
pub open spec fn names_known(k: KnownEditor, selector: Seq<char>) -> bool {
    same_identifier(k.id@, selector)
        || exists|i: int| 0 <= i < k.aliases.len() && same_identifier((#[trigger] k.aliases@[i])@, selector)
}

/// Whether `selector` names a discovered editor by one of its aliases.
pub open spec fn names_editor(e: Editor, selector: Seq<char>) -> bool {
    exists|i: int| 0 <= i < crate::editor::deduped(crate::editor::alias_candidates(e)).len()
        && same_identifier(#[trigger] crate::editor::deduped(crate::editor::alias_candidates(e))[i], selector)
}

/// The first remembered editor that both `selector` and `id` name.
pub open spec fn first_known(known: Seq<KnownEditor>, selector: Seq<char>, id: Seq<char>) -> Option<int>
    decreases known.len(),
{
    if known.len() == 0 {
        None
    } else {
        match first_known(known.drop_last(), selector, id) {
            Some(j) => Some(j),
            None => if names_known(known.last(), selector) && names_known(known.last(), id) {
                Some(known.len() - 1)
            } else {
                None
            },
        }
    }
}

proof fn lemma_first_known(known: Seq<KnownEditor>, selector: Seq<char>, id: Seq<char>, j: int)
    requires
        0 <= j <= known.len(),
        forall|k: int| 0 <= k < j ==> !(names_known(#[trigger] known[k], selector) && names_known(known[k], id)),
        j < known.len() ==> names_known(known[j], selector) && names_known(known[j], id),
    ensures
        first_known(known, selector, id) == if j < known.len() { Some(j) } else { None::<int> },
    decreases known.len(),
{
    if known.len() > 0 {
        let d = known.drop_last();
        if j < known.len() - 1 {
            lemma_first_known(d, selector, id, j);
        } else {
            assert forall|k: int| 0 <= k < d.len() implies !(names_known(#[trigger] d[k], selector) && names_known(d[k], id)) by {
                assert(d[k] == known[k]);
            }
            lemma_first_known(d, selector, id, d.len() as int);
        }
    }
}

fn find_known(known: &Vec<KnownEditor>, selector: &str, id: &str) -> (r: Option<usize>)
    ensures
        match r {
            Some(j) => first_known(known@, selector@, id@) == Some(j as int),
            None => first_known(known@, selector@, id@) is None,
        },
{
    let mut j: usize = 0;
    while j < known.len()
        invariant
            j <= known.len(),
            forall|k: int| 0 <= k < j ==> !(names_known(#[trigger] known@[k], selector@) && names_known(known@[k], id@)),
        decreases known.len() - j,
    {
        if known[j].matches(selector) && known[j].matches(id) {
            proof {
                lemma_first_known(known@, selector@, id@, j as int);
            }
            return Some(j);
        }
        j += 1;
    }
    proof {
        lemma_first_known(known@, selector@, id@, known.len() as int);
    }
    None
}

/// The discovered editors that `selector` picks, in discovery order, each with
/// the remembered editor that both the selector and the editor's id name: an
/// editor is picked when the selector names it or when there is such a
/// remembered editor.
pub open spec fn picked(found: Seq<Editor>, known: Seq<KnownEditor>, selector: Seq<char>) -> Seq<(int, Option<int>)>
    decreases found.len(),
{
    if found.len() == 0 {
        Seq::empty()
    } else {
        let rest = picked(found.drop_last(), known, selector);
        let e = found.last();
        let k = first_known(known, selector, e.product.name_short@);
        if names_editor(e, selector) || k is Some {
            rest.push((found.len() - 1, k))
        } else {
            rest
        }
    }
}

/// The indices of a list of matches, as integers.
pub open spec fn match_view(v: Seq<(usize, Option<usize>)>) -> Seq<(int, Option<int>)> {
    v.map_values(|p: (usize, Option<usize>)| (p.0 as int, match p.1 {
        Some(j) => Some(j as int),
        None => None::<int>,
    }))
}

/// The discovered editors that `selector` picks (see [`picked`]), as indices
/// into `found` and `known`.
pub fn match_discovered(found: &Vec<Editor>, known: &Vec<KnownEditor>, selector: &str) -> (r: Vec<(usize, Option<usize>)>)
    ensures
        match_view(r@) == picked(found@, known@, selector@),
{
    let mut out: Vec<(usize, Option<usize>)> = Vec::new();
    let mut i: usize = 0;
    while i < found.len()
        invariant
            i <= found.len(),
            match_view(out@) == picked(found@.take(i as int), known@, selector@),
        decreases found.len() - i,
    {
        let e = &found[i];
        let k = find_known(known, selector, e.id());
        let selected = e.matches(selector);
        proof {
            assert(found@.take(i + 1).drop_last() =~= found@.take(i as int));
            assert(found@.take(i + 1).last() == found@[i as int]);
        }
        if selected || k.is_some() {
            let ghost before = out@;
            out.push((i, k));
            proof {
                assert(match_view(out@) =~= match_view(before).push((i as int, match k {
                    Some(j) => Some(j as int),
                    None => None::<int>,
                })));
            }
        }
        i += 1;
    }
    proof {
        assert(found@.take(found.len() as int) =~= found@);
    }
    out
}

/// Whether to try the launcher of a remembered editor for `selector`: the
/// selector names it, it has a launcher, and no editor matched so far came
/// with a remembered entry of the same id (`claimed`).
pub fn probe_known(known: &KnownEditor, selector: &str, claimed: &Vec<String>) -> (r: bool)
    ensures
        r == (names_known(*known, selector@) && known.binary is Some
            && !exists|i: int| 0 <= i < claimed@.len() && (#[trigger] claimed@[i])@ == known.id@),
{
    if !known.matches(selector) || known.binary.is_none() {
        return false;
    }
    let mut i: usize = 0;
    while i < claimed.len()
        invariant
            i <= claimed.len(),
            forall|j: int| 0 <= j < i ==> (#[trigger] claimed@[j])@ != known.id@,
        decreases claimed.len() - i,
    {
        if same_text(claimed[i].as_str(), known.id.as_str()) {
            return false;
        }
        i += 1;
    }
    true
}

/// Ids listed one after another, separated by `", "`.
pub open spec fn joined_ids(ids: Seq<Seq<char>>) -> Seq<char>
    decreases ids.len(),
{
    if ids.len() == 0 {
        Seq::empty()
    } else if ids.len() == 1 {
        ids[0]
    } else {
        joined_ids(ids.drop_last()) + ", "@ + ids.last()
    }
}

/// What the editors that a selector matched come to.
pub enum SelectorMatch {
    /// No editor matched: an error.
    NoMatch,
    /// Exactly one matched: use it.
    Single,
    /// Several matched: an error that names them (their ids, joined).
    Ambiguous(String),
}

/// The outcome for the editors a selector matched, given by their ids in
/// order.
pub fn selector_outcome(ids: &Vec<String>) -> (r: SelectorMatch)
    ensures
        ids.len() == 0 ==> r is NoMatch,
        ids.len() == 1 ==> r is Single,
        ids.len() > 1 ==> (r matches SelectorMatch::Ambiguous(s) && s@ == joined_ids(texts(ids@))),
{
    if ids.len() == 0 {
        return SelectorMatch::NoMatch;
    }
    if ids.len() == 1 {
        return SelectorMatch::Single;
    }
    let ghost t = texts(ids@);
    let mut out = ids[0].clone();
    let mut i: usize = 1;
    proof {
        assert(t.take(1).len() == 1);
        assert(t.take(1)[0] == ids@[0]@);
    }
    while i < ids.len()
        invariant
            1 <= i <= ids.len(),
            t == texts(ids@),
            out@ == joined_ids(t.take(i as int)),
        decreases ids.len() - i,
    {
        append_text(&mut out, ", ");
        append_text(&mut out, ids[i].as_str());
        proof {
            assert(t.take(i + 1).drop_last() =~= t.take(i as int));
            assert(t.take(i + 1).last() == ids@[i as int]@);
        }
        i += 1;
    }
    proof {
        assert(t.take(ids.len() as int) =~= t);
    }
    SelectorMatch::Ambiguous(out)
}

// ---------------------------------------------------------------------------
// Writing safely
// ---------------------------------------------------------------------------

/// A step of waiting for the editor to be closed before writing.
#[derive(Clone, Copy, Debug, PartialEq, Eq, Structural)]
pub enum CloseStep {
    /// Writing may go ahead.
    Proceed,
    /// The editor runs and prompting is not allowed: fail.
    Refuse,
    /// Ask the user to close the editor.
    Ask,
    /// The user declined: abort.
    Abort,
    /// The user closed it: check again.
    Recheck,
}

/// The next step given whether the editor runs and the user's answer to the
/// last prompt, if one was asked. A dry run or `--force` never waits.
pub fn close_step(g: &GlobalArgs, running: bool, answer: Option<bool>) -> (r: CloseStep)
    ensures
        g.dry_run || g.force || !running ==> r == CloseStep::Proceed,
        !(g.dry_run || g.force) && running && g.non_interactive ==> r == CloseStep::Refuse,
        !(g.dry_run || g.force) && running && !g.non_interactive ==> r == match answer {
            None => CloseStep::Ask,
            Some(false) => CloseStep::Abort,
            Some(true) => CloseStep::Recheck,
        },
{
    if g.dry_run || g.force || !running {
        CloseStep::Proceed
    } else if g.non_interactive {
        CloseStep::Refuse
    } else {
        match answer {
            None => CloseStep::Ask,
            Some(false) => CloseStep::Abort,
            Some(true) => CloseStep::Recheck,
        }
    }
}

/// Whether there is a config to push or sync: it names profiles, or its file
/// exists.
pub fn has_config(config: &Config, file_exists: bool) -> (r: bool)
    ensures
        r == (config.profiles@ != Map::<Seq<char>, crate::config::ProfileConfig>::empty() || file_exists),
{
    !config.profiles.is_empty() || file_exists
}

// ---------------------------------------------------------------------------
// Session bookkeeping
// ---------------------------------------------------------------------------

/// Makes `editor` the default editor when none is set yet.
pub fn choose_default_editor(app_config: &mut AppConfig, editor: &Editor)
    ensures
        final(app_config).editors == old(app_config).editors,
        old(app_config).default_editor is Some ==> final(app_config).default_editor == old(app_config).default_editor,
        old(app_config).default_editor is None ==>
            (final(app_config).default_editor matches Some(d) && d@ == editor.product.name_short@),
{
    if app_config.default_editor.is_none() {
        app_config.default_editor = Some(crate::text::owned(editor.id()));
    }
}

/// A new config for `editor`: empty, naming the editor.
pub fn fresh_config(editor: &Editor) -> (r: Config)
    ensures
        r.editor.name matches Some(n) && n@ == editor.product.name_short@,
        r.editor.binary is None && r.editor.user_dir is None && r.editor.extensions_dir is None,
        r.global.settings@ == Map::<Seq<char>, crate::json::JsonValue>::empty(),
        r.global.extensions@.len() == 0,
        r.groups@ == Map::<Seq<char>, crate::config::Layer>::empty(),
        r.default.groups@.len() == 0,
        r.default.settings@ == Map::<Seq<char>, crate::json::JsonValue>::empty(),
        r.default.extensions@.len() == 0,
        r.default.exclude_extensions@.len() == 0,
        r.profiles@ == Map::<Seq<char>, crate::config::ProfileConfig>::empty(),
{
    let mut config = Config::default();
    config.editor.name = Some(crate::text::owned(editor.id()));
    config
}

/// The resources a profile inherits from Default, in increasing order.
pub fn inherited_resources(profile: &crate::editor::profiles::Profile) -> (r: Vec<String>)
    ensures
        crate::collections::text_set(r@) == Set::new(|k: Seq<char>|
            crate::editor::profiles::flag_set(profile.use_default@, k)),
        crate::collections::strictly_sorted(crate::collections::texts(r@)),
{
    let flags = &profile.use_default;
    proof {
        use_type_invariant(flags);
    }
    let mut on = crate::collections::IdSet::new();
    let mut i: usize = 0;
    while i < flags.len()
        invariant
            i <= flags.pairs().len(),
            crate::collections::strictly_sorted(flags.keys()),
            on@ == Set::new(|k: Seq<char>| crate::collections::first_keys(flags.keys(), i as int).contains(k)
                && crate::editor::profiles::flag_set(flags@, k)),
        decreases flags.pairs().len() - i,
    {
        let (k, v) = flags.entry(i);
        let ghost before = on@;
        if *v {
            on.insert(crate::text::owned(k.as_str()));
        }
        proof {
            crate::collections::lemma_first_keys_step(flags.keys(), i as int);
            flags.lemma_entry(i as int);
            assert(on@ =~= Set::new(|x: Seq<char>| crate::collections::first_keys(flags.keys(), i + 1).contains(x)
                && crate::editor::profiles::flag_set(flags@, x)));
        }
        i += 1;
    }
    proof {
        flags.lemma_all_keys();
    }
    let none = crate::collections::IdSet::new();
    let r = on.difference(&none);
    proof {
        assert(on@.difference(none@) =~= on@);
        assert(on@ =~= Set::new(|k: Seq<char>| crate::editor::profiles::flag_set(profile.use_default@, k)));
    }
    r
}

// ---------------------------------------------------------------------------
// The per-profile menu
// ---------------------------------------------------------------------------

/// An action offered for a single profile.
#[derive(Clone, Copy, Debug, PartialEq, Eq, Structural)]
pub enum ProfileAction {
    Status,
    Sync,
    Push,
    Pull,
    Delete,
}

/// Whether a profile can be deleted: every profile but Default.
pub open spec fn deletable(name: Seq<char>) -> bool {
    name != DEFAULT_PROFILE@
}

/// The actions offered for profile `name`, in menu order; Delete is not
/// offered for the Default profile.
pub fn profile_actions(name: &str) -> (r: Vec<ProfileAction>)
    ensures
        r@ == seq![ProfileAction::Status, ProfileAction::Sync, ProfileAction::Push, ProfileAction::Pull]
            + if deletable(name@) { seq![ProfileAction::Delete] } else { Seq::empty() },
{
    let mut actions: Vec<ProfileAction> = Vec::new();
    actions.push(ProfileAction::Status);
    actions.push(ProfileAction::Sync);
    actions.push(ProfileAction::Push);
    actions.push(ProfileAction::Pull);
    if !same_text(name, DEFAULT_PROFILE) {
        actions.push(ProfileAction::Delete);
    }
    proof {
        assert(actions@ =~= seq![ProfileAction::Status, ProfileAction::Sync, ProfileAction::Push, ProfileAction::Pull]
            + if deletable(name@) { seq![ProfileAction::Delete] } else { Seq::empty() });
    }
    actions
}

/// Drops profile `name` from the config and the snapshot, returning whether
/// the config had it.
pub fn forget_profile(config: &mut Config, snapshot: &mut Snapshot, name: &str) -> (r: bool)
    ensures
        r == old(config).profiles@.contains_key(name@),
        final(config).profiles@ == old(config).profiles@.remove(name@),
        final(config).editor == old(config).editor,
        final(config).global == old(config).global,
        final(config).groups == old(config).groups,
        final(config).default == old(config).default,
        final(snapshot).profiles@ == old(snapshot).profiles@.remove(name@),
{
    let removed = config.profiles.remove(name).is_some();
    snapshot.profiles.remove(name);
    removed
}

}
