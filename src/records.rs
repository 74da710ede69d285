//! The records kept by the store and returned by searches and listings.

use vstd::prelude::*;
use crate::order::Ranked;
use crate::text::{lemma_seq_le_total, lower_of, seq_le, str_le, to_lower};

verus! {

/// A directory that was opened, with the time of its last opening in Unix
/// seconds.
#[derive(Clone, Debug, PartialEq, Eq)]
pub struct RecentEntry {
    pub path: String,
    pub last_opened_utc: i64,
}

/// A colored tag on a path. The tag's name identifies it on that path
/// without regard to ASCII case; the color may change.
#[derive(Clone, Debug, PartialEq, Eq)]
pub struct TaggedPath {
    pub path: String,
    pub tag: String,
    pub color: String,
}

/// A reusable way to open terminals. The id, a UUID held as its 128-bit
/// value, is the profile's identity.
#[derive(Clone, Debug, PartialEq, Eq)]
pub struct LaunchProfile {
    pub id: u128,
    pub name: String,
    pub command: Option<String>,
    pub working_dir: Option<String>,
    pub terminal: Option<String>,
    pub windows: u8,
}

/// A directory found by a search, with its match score.
#[derive(Clone, Debug, PartialEq, Eq)]
pub struct SearchResult {
    pub path: String,
    pub name: String,
    pub score: i64,
}

/// An entry of a directory listing.
#[derive(Clone, Debug, PartialEq, Eq)]
pub struct DirectoryEntry {
    pub name: String,
    pub path: String,
    pub is_dir: bool,
    /// Modification time in Unix seconds, where the filesystem gave one.
    pub mod_date: Option<i64>,
}

/// A directory that holds a project marker (a `.git` directory, a package file).
#[derive(Clone, Debug, PartialEq, Eq)]
pub struct ProjectRoot {
    pub path: String,
    pub marker: String,
}

/// Records that can be copied with the copy known to be equal.
pub trait Duplicate: Sized {
    fn duplicate(&self) -> (r: Self)
        ensures
            r == *self,
    ;
}

impl Duplicate for String {
    fn duplicate(&self) -> (r: Self) {
        self.clone()
    }
}

/// An element-by-element copy of a vector.
pub fn copy_all<T: Duplicate>(v: &Vec<T>) -> (r: Vec<T>)
    ensures
        r@ == v@,
{
    let mut r: Vec<T> = Vec::new();
    let mut i: usize = 0;
    while i < v.len()
        invariant
            i <= v.len(),
            r@ == v@.subrange(0, i as int),
        decreases v.len() - i,
    {
        r.push(v[i].duplicate());
        i = i + 1;
        assert(r@ =~= v@.subrange(0, i as int));
    }
    assert(v@.subrange(0, v.len() as int) =~= v@);
    r
}

fn copy_text(s: &Option<String>) -> (r: Option<String>)
    ensures
        r == *s,
{
    match s {
        Some(t) => Some(t.clone()),
        None => None,
    }
}

impl Duplicate for RecentEntry {
    /// A copy equal to this entry.
    fn duplicate(&self) -> (r: Self) {
        RecentEntry { path: self.path.clone(), last_opened_utc: self.last_opened_utc }
    }
}

impl Duplicate for TaggedPath {
    /// A copy equal to this tag.
    fn duplicate(&self) -> (r: Self) {
        TaggedPath { path: self.path.clone(), tag: self.tag.clone(), color: self.color.clone() }
    }
}

impl Duplicate for LaunchProfile {
    /// A copy equal to this profile.
    fn duplicate(&self) -> (r: Self) {
        LaunchProfile {
            id: self.id,
            name: self.name.clone(),
            command: copy_text(&self.command),
            working_dir: copy_text(&self.working_dir),
            terminal: copy_text(&self.terminal),
            windows: self.windows,
        }
    }
}

/// Paths list alphabetically.
impl Ranked for String {
    open spec fn ranks_le(&self, other: &Self) -> bool {
        seq_le(self@, other@)
    }

    proof fn lemma_ranks_total(a: &Self, b: &Self) {
        lemma_seq_le_total(a@, b@);
    }

    fn ranks_before(&self, other: &Self) -> (r: bool) {
        str_le(self.as_str(), other.as_str())
    }
}

/// Recent entries list most recent first.
impl Ranked for RecentEntry {
    open spec fn ranks_le(&self, other: &Self) -> bool {
        self.last_opened_utc >= other.last_opened_utc
    }

    proof fn lemma_ranks_total(a: &Self, b: &Self) {
    }

    fn ranks_before(&self, other: &Self) -> (r: bool) {
        self.last_opened_utc >= other.last_opened_utc
    }
}

/// Profiles list alphabetically by their lower-cased name.
impl Ranked for LaunchProfile {
    open spec fn ranks_le(&self, other: &Self) -> bool {
        seq_le(lower_of(self.name@), lower_of(other.name@))
    }

    proof fn lemma_ranks_total(a: &Self, b: &Self) {
        lemma_seq_le_total(lower_of(a.name@), lower_of(b.name@));
    }

    fn ranks_before(&self, other: &Self) -> (r: bool) {
        let a = to_lower(self.name.as_str());
        let b = to_lower(other.name.as_str());
        str_le(a.as_str(), b.as_str())
    }
}

/// Directory entries list alphabetically by their lower-cased name.
impl Ranked for DirectoryEntry {
    open spec fn ranks_le(&self, other: &Self) -> bool {
        seq_le(lower_of(self.name@), lower_of(other.name@))
    }

    proof fn lemma_ranks_total(a: &Self, b: &Self) {
        lemma_seq_le_total(lower_of(a.name@), lower_of(b.name@));
    }

    fn ranks_before(&self, other: &Self) -> (r: bool) {
        let a = to_lower(self.name.as_str());
        let b = to_lower(other.name.as_str());
        str_le(a.as_str(), b.as_str())
    }
}

/// Search results list by score, highest first, then by name.
impl Ranked for SearchResult {
    open spec fn ranks_le(&self, other: &Self) -> bool {
        self.score > other.score || (self.score == other.score && seq_le(self.name@, other.name@))
    }

    proof fn lemma_ranks_total(a: &Self, b: &Self) {
        lemma_seq_le_total(a.name@, b.name@);
    }

    fn ranks_before(&self, other: &Self) -> (r: bool) {
        self.score > other.score || (self.score == other.score && str_le(
            self.name.as_str(),
            other.name.as_str(),
        ))
    }
}

} // verus!
