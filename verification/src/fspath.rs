//! File-system paths as the library builds them: a base path followed by the
//! components joined onto it, in order. `to_path_buf` performs exactly those
//! `PathBuf::push` calls, so the path handed to the file system is the one
//! the joins describe.

use vstd::prelude::*;
use std::path::PathBuf;
use crate::text::owned;

verus! {

#[verifier::external_type_specification]
#[verifier::external_body]
pub struct ExPathBuf(PathBuf);

/// A path: its first part is the base, the others are joined onto it.
pub struct FsPath {
    pub parts: Vec<String>,
}

impl View for FsPath {
    type V = Seq<Seq<char>>;

    open spec fn view(&self) -> Seq<Seq<char>> {
        self.parts@.map_values(|s: String| s@)
    }
}

/// Calls `PathBuf::from` on a string. Nothing is stated of the result.
#[verifier::external_body]
fn path_from(s: &str) -> PathBuf {
    PathBuf::from(s)
}

/// Calls `PathBuf::push`. Nothing is stated of the result.
#[verifier::external_body]
fn path_push(p: &mut PathBuf, s: &str) {
    p.push(s)
}

impl FsPath {
    /// A path given by its text.
    pub fn from_text(s: &str) -> (r: FsPath)
        ensures
            r@ == seq![s@],
    {
        let mut parts: Vec<String> = Vec::new();
        parts.push(owned(s));
        let r = FsPath { parts };
        assert(r@ =~= seq![s@]);
        r
    }

    /// `self` with `part` joined on.
    pub fn join(&self, part: &str) -> (r: FsPath)
        ensures
            r@ == self@.push(part@),
    {
        let mut parts: Vec<String> = Vec::new();
        let mut i: usize = 0;
        while i < self.parts.len()
            invariant
                i <= self.parts.len(),
                parts@.len() == i,
                forall|j: int| 0 <= j < i ==> parts@[j]@ == self.parts@[j]@,
            decreases self.parts.len() - i,
        {
            parts.push(self.parts[i].clone());
            i += 1;
        }
        parts.push(owned(part));
        let r = FsPath { parts };
        assert(r@ =~= self@.push(part@));
        r
    }

    /// A copy of the path.
    pub fn duplicate(&self) -> (r: FsPath)
        ensures
            r@ == self@,
    {
        let mut parts: Vec<String> = Vec::new();
        let mut i: usize = 0;
        while i < self.parts.len()
            invariant
                i <= self.parts.len(),
                parts@.len() == i,
                forall|j: int| 0 <= j < i ==> parts@[j]@ == self.parts@[j]@,
            decreases self.parts.len() - i,
        {
            parts.push(self.parts[i].clone());
            i += 1;
        }
        let r = FsPath { parts };
        assert(r@ =~= self@);
        r
    }

    /// The path as a `PathBuf`: the base, then each part pushed in order.
    pub fn to_path_buf(&self) -> PathBuf {
        if self.parts.len() == 0 {
            return path_from("");
        }
        let mut p = path_from(self.parts[0].as_str());
        let mut i: usize = 1;
        while i < self.parts.len()
            invariant
                1 <= i <= self.parts.len(),
            decreases self.parts.len() - i,
        {
            path_push(&mut p, self.parts[i].as_str());
            i += 1;
        }
        p
    }
}

}

verus! {

/// The view of an optional path.
pub open spec fn opt_path(p: Option<FsPath>) -> Option<Seq<Seq<char>>> {
    match p {
        Some(x) => Some(x@),
        None => None,
    }
}

}
