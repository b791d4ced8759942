//! Stable widget identities.
//!
//! A widget that is declared anew every frame finds its remembered state
//! through an `Id`: a 64-bit hash of a name, optionally mixed into the `Id`
//! of a parent. Equal names under equal parents give equal `Id`s in every
//! run of one build, so an `Id` may be persisted across restarts of the same
//! program; another build (other target features, another `ahash` version)
//! may give other values.
use vstd::prelude::*;
use std::hash::{Hash, Hasher};

verus! {

/// What `ahash` makes of the string `s` with its fixed keys.
pub uninterp spec fn str_hash(s: Seq<char>) -> u64;

/// What `ahash` makes of the number `parent` followed by the string `child`,
/// with its fixed keys.
pub uninterp spec fn child_hash(parent: u64, child: Seq<char>) -> u64;

/// Relies on `ahash::AHasher::default` (fixed keys; with the crate's random
/// features off they are constants) together with `str::hash` and
/// `Hasher::finish`: the digest depends on the string alone.
#[verifier::external_body]
fn hash_str(s: &str) -> (r: u64)
    ensures
        r == str_hash(s@),
{
    let mut hasher = ahash::AHasher::default();
    s.hash(&mut hasher);
    hasher.finish()
}

/// Relies on `ahash::AHasher::default` (fixed keys, as above),
/// `Hasher::write_u64`, `str::hash` and `Hasher::finish`: the digest depends
/// on the number and the string alone.
#[verifier::external_body]
fn hash_u64_then_str(parent: u64, child: &str) -> (r: u64)
    ensures
        r == child_hash(parent, child@),
{
    let mut hasher = ahash::AHasher::default();
    hasher.write_u64(parent);
    child.hash(&mut hasher);
    hasher.finish()
}

/// Identifies a widget across frames.
#[derive(Clone, Copy, Debug, Hash, PartialEq, Eq, Structural)]
pub struct Id(pub u64);

impl Id {
    /// The `Id` of the layer behind every floating area.
    pub fn background() -> (r: Id)
        ensures
            r == Id(0),
    {
        Id(0)
    }

    /// The `Id` shared by all tooltips.
    pub fn tooltip() -> (r: Id)
        ensures
            r == Id(1),
    {
        Id(1)
    }

    pub open spec fn new_spec(source: Seq<char>) -> Id {
        Id(str_hash(source))
    }

    /// The `Id` named by `source`.
    pub fn new(source: &str) -> (r: Id)
        ensures
            r == Id::new_spec(source@),
    {
        Id(hash_str(source))
    }

    pub open spec fn with_spec(self, child: Seq<char>) -> Id {
        Id(child_hash(self.0, child))
    }

    /// The `Id` of the child named `child` under this one.
    pub fn with(self, child: &str) -> (r: Id)
        ensures
            r == self.with_spec(child@),
    {
        Id(hash_u64_then_str(self.0, child))
    }

    /// The hash value itself.
    pub fn value(&self) -> (r: u64)
        ensures
            r == self.0,
    {
        self.0
    }
}

/// Deriving a child `Id` is a function of the parent and the child's name:
/// equal inputs give equal `Id`s, in every run of one build.
pub proof fn lemma_with_is_deterministic(p1: Id, p2: Id, k1: Seq<char>, k2: Seq<char>)
    requires
        p1 == p2,
        k1 == k2,
    ensures
        p1.with_spec(k1) == p2.with_spec(k2),
{
}

/// Likewise for an `Id` made from a name alone.
pub proof fn lemma_new_is_deterministic(s1: Seq<char>, s2: Seq<char>)
    requires
        s1 == s2,
    ensures
        Id::new_spec(s1) == Id::new_spec(s2),
{
}

} // verus!
