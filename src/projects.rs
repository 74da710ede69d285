//! Project-root detection. The caller walks from a directory up through its
//! ancestors and, for each, probes which markers exist there; this module
//! decides what each probe means.

use vstd::prelude::*;
use crate::records::ProjectRoot;

verus! {

/// How many markers there are.
pub const MARKER_COUNT: usize = 5;

/// The marker at a position, in the order they are looked for.
pub open spec fn marker_name(i: int) -> Seq<char> {
    if i == 0 {
        ".git"@
    } else if i == 1 {
        "package.json"@
    } else if i == 2 {
        "Cargo.toml"@
    } else if i == 3 {
        "go.mod"@
    } else {
        "bunfig.toml"@
    }
}

/// The name of the marker at a position.
pub fn marker_at(i: usize) -> (r: String)
    requires
        i < MARKER_COUNT,
    ensures
        r@ == marker_name(i as int),
{
    if i == 0 {
        String::from_str(".git")
    } else if i == 1 {
        String::from_str("package.json")
    } else if i == 2 {
        String::from_str("Cargo.toml")
    } else if i == 3 {
        String::from_str("go.mod")
    } else {
        String::from_str("bunfig.toml")
    }
}

/// What was found in one directory: `present[i]` tells whether the marker
/// at position `i` exists there.
#[derive(Clone, Debug, PartialEq, Eq)]
pub struct AncestorProbe {
    pub path: String,
    pub present: Vec<bool>,
}

/// The first position from `k` on whose marker is present, or -1.
pub open spec fn first_present(present: Seq<bool>, k: int) -> int
    decreases MARKER_COUNT - k,
{
    if k < 0 || k >= MARKER_COUNT || k >= present.len() {
        -1
    } else if present[k] {
        k
    } else {
        first_present(present, k + 1)
    }
}

/// `roots` holds, in order, one root for each probed directory where some
/// marker is present, naming the first such marker.
pub open spec fn roots_of(probes: Seq<AncestorProbe>, roots: Seq<ProjectRoot>) -> bool
    decreases probes.len(),
{
    if probes.len() == 0 {
        roots.len() == 0
    } else {
        let last = probes.last();
        let f = first_present(last.present@, 0);
        if f >= 0 {
            &&& roots.len() > 0
            &&& roots_of(probes.drop_last(), roots.drop_last())
            &&& roots.last().path == last.path
            &&& roots.last().marker@ == marker_name(f)
        } else {
            roots_of(probes.drop_last(), roots)
        }
    }
}

/// The project roots among the probed directories, nearest first where the
/// probes are in that order.
pub fn detect_projects(probes: &Vec<AncestorProbe>) -> (r: Vec<ProjectRoot>)
    ensures
        roots_of(probes@, r@),
{
    let mut roots: Vec<ProjectRoot> = Vec::new();
    let mut i: usize = 0;
    while i < probes.len()
        invariant
            i <= probes@.len(),
            roots_of(probes@.take(i as int), roots@),
        decreases probes@.len() - i,
    {
        let probe = &probes[i];
        let mut k: usize = 0;
        while k < MARKER_COUNT && k < probe.present.len() && !probe.present[k]
            invariant
                k <= MARKER_COUNT,
                first_present(probe.present@, k as int) == first_present(probe.present@, 0),
            decreases MARKER_COUNT - k,
        {
            k = k + 1;
        }
        let ghost before = roots@;
        assert(probes@.take(i + 1).drop_last() =~= probes@.take(i as int));
        assert(probes@.take(i + 1).last() == probes@[i as int]);
        if k < MARKER_COUNT && k < probe.present.len() {
            roots.push(ProjectRoot { path: probe.path.clone(), marker: marker_at(k) });
            assert(roots@.drop_last() =~= before);
        }
        i = i + 1;
    }
    assert(probes@.take(probes@.len() as int) =~= probes@);
    roots
}

} // verus!
