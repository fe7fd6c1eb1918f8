//! Configuration values consumed by the discovery core.
//!
//! Parsing the configuration file and the command line belongs to an outside
//! collaborator; the core consumes the plain values below. A filesystem path
//! is represented as its list of components, so that duplicate suppression
//! can reason about a path's parent and final component.

use vstd::prelude::*;

verus! {

/// Per-path metadata from the configuration, applied to a matching store as
/// the final step of customization.
#[derive(Clone, Copy, Debug, PartialEq, Eq, Structural)]
pub struct StorageMeta {
    /// Optional single-character shortcut for the store.
    pub shortcut: Option<char>,
    /// Unsigned ranking; the configuration defaults it to 0.
    pub prio: u8,
}

/// One configured override: the path it applies to and the metadata for it.
#[derive(Clone, Debug)]
pub struct MetaOverride {
    pub path: Vec<String>,
    pub meta: StorageMeta,
}

/// Where to look for mail stores, and the per-path overrides.
#[derive(Clone, Debug)]
pub struct Storage {
    /// Ordered list of root paths to scan.
    pub search: Vec<Vec<String>>,
    /// Per-path metadata overrides; the first entry matching a store's path
    /// wins.
    pub meta: Vec<MetaOverride>,
}

/// The slice of the configuration that the discovery core consumes.
#[derive(Clone, Debug)]
pub struct Cfg {
    pub storage: Storage,
}

/// Whether the path `p` occurs in `paths`.
pub open spec fn path_in(paths: Seq<Seq<Seq<char>>>, p: Seq<Seq<char>>) -> bool {
    exists|i: int| 0 <= i < paths.len() && paths[i] == p
}

/// Compare two paths component by component.
pub fn path_eq(a: &Vec<String>, b: &Vec<String>) -> (r: bool)
    ensures
        r == (a.deep_view() == b.deep_view()),
{
    if a.len() != b.len() {
        assert(a.deep_view().len() != b.deep_view().len());
        return false;
    }
    let mut i: usize = 0;
    while i < a.len()
        invariant
            i <= a.len(),
            a.len() == b.len(),
            forall|j: int| 0 <= j < i ==> a.deep_view()[j] == b.deep_view()[j],
        decreases a.len() - i,
    {
        if !(a[i] == b[i]) {
            assert(a.deep_view()[i as int] != b.deep_view()[i as int]);
            return false;
        }
        i += 1;
    }
    proof {
        assert(a.deep_view() =~= b.deep_view());
    }
    true
}

/// Whether `p` occurs in the path list `set`.
pub fn path_set_contains(set: &Vec<Vec<String>>, p: &Vec<String>) -> (r: bool)
    ensures
        r == path_in(set.deep_view(), p.deep_view()),
{
    let mut i: usize = 0;
    while i < set.len()
        invariant
            i <= set.len(),
            forall|j: int| 0 <= j < i ==> set.deep_view()[j] != p.deep_view(),
        decreases set.len() - i,
    {
        if path_eq(&set[i], p) {
            assert(set.deep_view()[i as int] == p.deep_view());
            return true;
        }
        i += 1;
    }
    false
}

/// The metadata of the first override whose path equals `path`, if any.
pub open spec fn spec_meta_for(meta: Seq<MetaOverride>, path: Seq<Seq<char>>) -> Option<StorageMeta>
    decreases meta.len(),
{
    if meta.len() == 0 {
        None
    } else if meta[0].path.deep_view() == path {
        Some(meta[0].meta)
    } else {
        spec_meta_for(meta.drop_first(), path)
    }
}

/// Look up the configured override for `path`, first match wins.
pub fn meta_for(meta: &Vec<MetaOverride>, path: &Vec<String>) -> (r: Option<StorageMeta>)
    ensures
        r == spec_meta_for(meta@, path.deep_view()),
{
    let mut i: usize = 0;
    proof {
        assert(meta@.skip(0) =~= meta@);
    }
    while i < meta.len()
        invariant
            i <= meta.len(),
            spec_meta_for(meta@, path.deep_view()) == spec_meta_for(
                meta@.skip(i as int),
                path.deep_view(),
            ),
        decreases meta.len() - i,
    {
        if path_eq(&meta[i].path, path) {
            assert(meta@.skip(i as int)[0] == meta@[i as int]);
            return Some(meta[i].meta);
        }
        proof {
            assert(meta@.skip(i as int)[0] == meta@[i as int]);
            assert(meta@.skip(i as int).drop_first() =~= meta@.skip(i + 1));
        }
        i += 1;
    }
    None
}

} // verus!
