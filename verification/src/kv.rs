//! Version bookkeeping of the key-value database.
use vstd::prelude::*;

pub mod memory;

verus! {

/// The on-disk format version of a database.
pub struct DatabaseVersion {
    pub major: u16,
    pub minor: u16,
    pub patch: u16,
}

impl DatabaseVersion {
    /// Whether data written with version `other` can be read by `self`.
    pub open spec fn compatible_with(self, other: Self) -> bool {
        self.major == other.major && self.minor >= other.minor
    }

    /// The version this library writes: 0.0.0.
    pub fn current() -> (v: Self)
        ensures
            v.major == 0,
            v.minor == 0,
            v.patch == 0,
    {
        Self { major: 0, minor: 0, patch: 0 }
    }

    /// Same major version, and a minor version at least that of `other`.
    pub fn is_compatible(&self, other: Self) -> (r: bool)
        ensures
            r == self.compatible_with(other),
            self.major != other.major ==> !r,
            self.minor < other.minor ==> !r,
            self.major == other.major && self.minor >= other.minor ==> r,
    {
        self.major == other.major && self.minor >= other.minor
    }
}

/// Compatibility needs the same major version and a minor version no older
/// than the other's, whatever the patch versions; the patch version never
/// matters.
pub proof fn lemma_compatibility_rule(a: DatabaseVersion, b: DatabaseVersion, patch_a: u16, patch_b: u16)
    ensures
        a.major != b.major ==> !a.compatible_with(b),
        a.minor < b.minor ==> !a.compatible_with(b),
        a.major == b.major && a.minor >= b.minor ==> a.compatible_with(b),
        a.compatible_with(b) == (DatabaseVersion { patch: patch_a, ..a }).compatible_with(
            (DatabaseVersion { patch: patch_b, ..b }),
        ),
{
}

/// A newer major version cannot read data of an older one, nor the other
/// way round.
pub proof fn lemma_major_change_incompatible(a: DatabaseVersion, b: DatabaseVersion)
    requires
        a.major > b.major,
    ensures
        !a.compatible_with(b),
        !b.compatible_with(a),
{
}

/// Every version is compatible with itself.
pub proof fn lemma_compatible_reflexive(v: DatabaseVersion)
    ensures
        v.compatible_with(v),
{
}

/// Compatibility is transitive.
pub proof fn lemma_compatible_transitive(a: DatabaseVersion, b: DatabaseVersion, c: DatabaseVersion)
    requires
        a.compatible_with(b),
        b.compatible_with(c),
    ensures
        a.compatible_with(c),
{
}

} // verus!
