//! Positions in the journal, and what is replayed from it.
use crate::transaction::Mutation;
use vstd::prelude::*;

verus! {

/// A version of the format.
#[derive(Clone, Copy, Debug, PartialEq, Eq, Structural)]
pub struct Version {
    pub major: u32,
    pub minor: u8,
}

impl Version {
    /// This version came out before `other`.
    pub open spec fn before(self, other: Version) -> bool {
        self.major < other.major || self.major == other.major && self.minor < other.minor
    }

    /// Returns whether this version came out before `other`.
    pub fn is_before(&self, other: &Version) -> (before: bool)
        ensures
            before == self.before(*other),
    {
        self.major < other.major || self.major == other.major && self.minor < other.minor
    }
}

/// A place in the journal from which it can be read.
#[derive(Clone, Copy, Debug, PartialEq, Eq, Structural)]
pub struct JournalCheckpoint {
    pub file_offset: u64,
    pub checksum: u64,
    pub version: Version,
}

/// A transaction as it is replayed from the journal.
pub struct JournaledTransaction {
    pub checkpoint: JournalCheckpoint,
    /// The mutations of all stores but the root store, each with the store that it is for.
    pub non_root_mutations: Vec<(u64, Mutation)>,
}

/// Versions come out one after the other: none before itself, one of any two others before the other, and what
/// came out before an earlier one came out before a later one, too.
pub proof fn lemma_versions_follow_each_other(a: Version, b: Version, c: Version)
    ensures
        !a.before(a),
        a != b ==> (a.before(b) <==> !b.before(a)),
        a.before(b) && b.before(c) ==> a.before(c),
{
}

/// A greater major version is later whatever the minor versions are; these decide among versions of the same
/// major version.
pub proof fn lemma_major_version_decides(major: u32, later_major: u32, minor: u8, later_minor: u8)
    ensures
        major < later_major ==> (Version { major, minor }).before(
            Version { major: later_major, minor: later_minor },
        ),
        minor < later_minor ==> (Version { major, minor }).before(
            Version { major, minor: later_minor },
        ),
{
}

} // verus!
