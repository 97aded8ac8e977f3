//! Write safety: telling whether the editor is running, and naming backup runs.

use vstd::prelude::*;
use std::time::SystemTime;
use crate::text::{chars_of, is_alnum, is_alnum_char, lower_text, to_ascii_lowercase, push_char};

verus! {

/// `process_matches`: the process name is the application name itself, or
/// the application name followed by a character that is not an ASCII letter
/// or digit (e.g. `codium`, `code-oss` for `code`).
pub open spec fn process_matches_spec(name: Seq<char>, needle: Seq<char>) -> bool {
    name == needle || (needle.len() < name.len() && name.take(needle.len() as int) == needle
        && !is_alnum(name[needle.len() as int]))
}

/// Matches a process name to an application name: exact, or the app name
/// followed by a non-alphanumeric separator.
pub fn process_matches(name: &str, needle: &str) -> (r: bool)
    ensures
        r == process_matches_spec(name@, needle@),
{
    let n = chars_of(name);
    let p = chars_of(needle);
    if p.len() > n.len() {
        return false;
    }
    let mut i: usize = 0;
    while i < p.len()
        invariant
            n@ == name@,
            p@ == needle@,
            p.len() <= n.len(),
            i <= p.len(),
            forall|j: int| 0 <= j < i ==> n@[j] == p@[j],
        decreases p.len() - i,
    {
        if n[i] != p[i] {
            proof {
                assert(name@.take(needle@.len() as int)[i as int] != needle@[i as int]);
                assert(name@ != needle@);
            }
            return false;
        }
        i += 1;
    }
    proof {
        assert(name@.take(needle@.len() as int) =~= needle@);
    }
    if p.len() == n.len() {
        proof {
            assert(name@ =~= needle@);
        }
        return true;
    }
    !is_alnum_char(n[p.len()])
}

/// Whether any listed process other than `self_pid` is the editor, comparing
/// names case-insensitively (ASCII).
pub open spec fn editor_in(processes: Seq<(u32, String)>, self_pid: Option<u32>, app: Seq<char>) -> bool {
    exists|i: int| 0 <= i < processes.len() && Some((#[trigger] processes[i]).0) != self_pid
        && process_matches_spec(lower_text(processes[i].1@), lower_text(app))
}

/// Whether one of `processes` (pid, name), other than this process, is an
/// instance of the application named `application_name`.
pub fn editor_running_in(processes: &Vec<(u32, String)>, self_pid: Option<u32>, application_name: &str) -> (r: bool)
    ensures
        r == editor_in(processes@, self_pid, application_name@),
{
    let needle = to_ascii_lowercase(application_name);
    let mut i: usize = 0;
    while i < processes.len()
        invariant
            i <= processes.len(),
            needle@ == lower_text(application_name@),
            forall|j: int| 0 <= j < i ==> !(Some((#[trigger] processes@[j]).0) != self_pid
                && process_matches_spec(lower_text(processes@[j].1@), lower_text(application_name@))),
        decreases processes.len() - i,
    {
        let (pid, name) = &processes[i];
        let is_self = match self_pid {
            Some(s) => s == *pid,
            None => false,
        };
        if !is_self {
            let lowered = to_ascii_lowercase(name.as_str());
            if process_matches(lowered.as_str(), needle.as_str()) {
                return true;
            }
        }
        i += 1;
    }
    false
}

// ---------------------------------------------------------------------------
// Reading the process table
// ---------------------------------------------------------------------------

#[verifier::external_type_specification]
#[verifier::external_body]
pub struct ExSystem(sysinfo::System);

#[verifier::external_type_specification]
#[verifier::external_body]
pub struct ExSysinfoError(sysinfo::Error);

/// Calls `sysinfo::System::new_all`, which loads the machine's state
/// (processes among it). Nothing is stated of the outcome: it depends on the
/// machine.
#[verifier::external_body]
fn load_system() -> Result<sysinfo::System, sysinfo::Error> {
    sysinfo::System::new_all()
}

/// Calls `sysinfo::System::processes` and hands out each process as its pid
/// (`Pid::as_u32`) and its name (`Process::name`, converted lossily to a
/// `String`). The order is that of the underlying hash map, and the contents
/// depend on the machine, so nothing is stated of the result.
#[verifier::external_body]
fn process_table(system: &sysinfo::System) -> Vec<(u32, String)> {
    system
        .processes()
        .iter()
        .map(|(pid, process)| (pid.as_u32(), process.name().to_string_lossy().into_owned()))
        .collect()
}

/// Calls `sysinfo::get_current_pid` and converts the pid with
/// `Pid::as_u32`. Nothing is stated of the value: it depends on the process.
#[verifier::external_body]
fn own_pid() -> Result<u32, sysinfo::Error> {
    sysinfo::get_current_pid().map(|pid| pid.as_u32())
}

/// Whether a process for `editor` appears to be running: some process other
/// than this one whose name matches the editor's application name (see
/// [`editor_running_in`]). When the process table cannot be read, no process
/// is seen and the answer is `false`. The answer depends on the machine's
/// process table at the time of the call, of which nothing can be stated; the
/// decision made on the table is `editor_running_in`, whose contract is exact.
pub fn editor_running(editor: &crate::editor::Editor) -> bool {
    let system = match load_system() {
        Ok(s) => s,
        Err(_) => return false,
    };
    let self_pid = match own_pid() {
        Ok(p) => Some(p),
        Err(_) => None,
    };
    let processes = process_table(&system);
    editor_running_in(&processes, self_pid, editor.product.application_name.as_str())
}

// ---------------------------------------------------------------------------
// Timestamps
// ---------------------------------------------------------------------------

#[verifier::external_type_specification]
#[verifier::external_body]
pub struct ExSystemTime(SystemTime);

/// Calls `SystemTime::now`. The clock is read; nothing is stated of it.
#[verifier::external_body]
pub(crate) fn system_now() -> SystemTime {
    SystemTime::now()
}

/// Calls `SystemTime::duration_since(UNIX_EPOCH)` and takes whole seconds;
/// `None` when the time is before the epoch. Nothing more is stated: the value
/// comes from the clock.
#[verifier::external_body]
fn seconds_since_epoch(t: &SystemTime) -> Option<u64> {
    t.duration_since(std::time::UNIX_EPOCH).ok().map(|d| d.as_secs())
}

/// Calls `SystemTime::duration_since(UNIX_EPOCH)` and takes the nanoseconds
/// within the second (`Duration::subsec_nanos`, documented to be below one
/// billion); 0 when the time is before the epoch. The value comes from the
/// clock, so only that bound is stated.
#[verifier::external_body]
pub(crate) fn subsec_nanos_since_epoch(t: &SystemTime) -> (r: u32)
    ensures
        r < 1_000_000_000,
{
    t.duration_since(std::time::UNIX_EPOCH).map_or(0, |d| d.subsec_nanos())
}

/// The decimal digits of `n`, most significant first, without leading zeros
/// (`"0"` for zero).
pub open spec fn decimal(n: nat) -> Seq<char>
    decreases n,
{
    if n < 10 {
        seq![digit_char(n)]
    } else {
        decimal(n / 10).push(digit_char(n % 10))
    }
}

pub open spec fn digit_char(d: nat) -> char {
    (('0' as u32) + d) as char
}

/// `n` written in decimal.
pub fn decimal_string(n: u64) -> (r: String)
    ensures
        r@ == decimal(n as nat),
    decreases n,
{
    let d = char_of_digit((n % 10) as u32);
    if n < 10 {
        let mut out = String::new();
        push_char(&mut out, d);
        proof {
            assert(out@ =~= seq![digit_char(n as nat)]);
        }
        out
    } else {
        let mut out = decimal_string(n / 10);
        push_char(&mut out, d);
        out
    }
}

fn char_of_digit(d: u32) -> (c: char)
    requires
        d < 10,
    ensures
        c == digit_char(d as nat),
{
    match d {
        0 => '0',
        1 => '1',
        2 => '2',
        3 => '3',
        4 => '4',
        5 => '5',
        6 => '6',
        7 => '7',
        8 => '8',
        _ => '9',
    }
}

/// The timestamp text for a clock reading given as whole seconds since the
/// Unix epoch: their decimal digits, or `"0"` for a reading before the epoch
/// (`None`).
pub fn timestamp_text(secs: Option<u64>) -> (r: String)
    ensures
        r@ == match secs {
            Some(s) => decimal(s as nat),
            None => "0"@,
        },
{
    match secs {
        Some(s) => decimal_string(s),
        None => {
            let r = decimal_string(0);
            proof {
                reveal_strlit("0");
                assert(r@ =~= "0"@);
            }
            r
        },
    }
}

/// A timestamp string (seconds since the Unix epoch) for naming a backup run;
/// `"0"` when the clock reads before the epoch (see [`timestamp_text`]). The
/// reading comes from the clock, so only the form is stated.
pub fn timestamp() -> (r: String)
    ensures
        exists|s: nat| r@ == decimal(s),
{
    let now = system_now();
    let secs = seconds_since_epoch(&now);
    let r = timestamp_text(secs);
    proof {
        if secs is None {
            reveal_strlit("0");
            assert(r@ =~= decimal(0));
        }
    }
    r
}

}

verus! {

// ---------------------------------------------------------------------------
// Names of backups and temporary files
// ---------------------------------------------------------------------------

/// The hash that a fresh `DefaultHasher` gives for the path made of `parts`
/// (`Hash::hash` on the `PathBuf`, then `Hasher::finish`).
pub uninterp spec fn path_hash(parts: Seq<Seq<char>>) -> u64;

/// Builds the `PathBuf` of `path` (its parts collected, which pushes each in
/// turn, as [`crate::fspath::FsPath::to_path_buf`] does) and hashes it with a
/// fresh `DefaultHasher`: `Hash::hash`, then `Hasher::finish`. The contract
/// claims that the hash is what [`path_hash`] names for the path's parts;
/// std documents that every `DefaultHasher::new` hashes alike.
#[verifier::external_body]
fn hash_of(path: &crate::fspath::FsPath) -> (r: u64)
    ensures
        r == path_hash(path@),
{
    let p: std::path::PathBuf = path.parts.iter().collect();
    let mut h = std::collections::hash_map::DefaultHasher::new();
    std::hash::Hash::hash(&p, &mut h);
    std::hash::Hasher::finish(&h)
}

/// A short tag for a file's full path (`{:08x}` of its hash), so that backups
/// of same-named files from different places do not collide.
pub fn short_hash(path: &crate::fspath::FsPath) -> (r: String)
    ensures
        r@ == crate::text::hex_padded(path_hash(path@) as nat),
{
    let h = hash_of(path);
    crate::text::hex_padded_string(h)
}

/// The name a backed-up file gets in the backup directory:
/// `<tag of its full path>-<file name>`.
pub fn backup_name(tag: &str, file_name: &str) -> (r: String)
    ensures
        r@ == tag@ + "-"@ + file_name@,
{
    let mut name = crate::text::owned(tag);
    crate::text::append_text(&mut name, "-");
    crate::text::append_text(&mut name, file_name);
    name
}

/// The name of the temporary sibling a file is written to before it replaces
/// the file: `<file name>.<process id>.<nanoseconds>.tmp`.
pub fn temp_name(file_name: &str, pid: u32, nanos: u32) -> (r: String)
    ensures
        r@ == file_name@ + "."@ + decimal(pid as nat) + "."@ + decimal(nanos as nat) + ".tmp"@,
{
    let mut name = crate::text::owned(file_name);
    crate::text::append_text(&mut name, ".");
    let p = decimal_string(pid as u64);
    crate::text::append_text(&mut name, p.as_str());
    crate::text::append_text(&mut name, ".");
    let n = decimal_string(nanos as u64);
    crate::text::append_text(&mut name, n.as_str());
    crate::text::append_text(&mut name, ".tmp");
    name
}

}
