//! Sets of packed literals and of variables.

use giputils::hash::GHashSet;
use vstd::prelude::*;

verus! {

/// A `giputils::hash::GHashSet` of numbers. What is in it is known through
/// the functions below alone.
#[verifier::external_body]
pub struct CodeSet {
    set: GHashSet<u32>,
}

/// The members of a set.
pub uninterp spec fn members(set: CodeSet) -> Set<u32>;

/// Calls `GHashSet::new`, which makes an empty set.
#[verifier::external_body]
pub(crate) fn empty_set() -> (r: CodeSet)
    ensures
        members(r) == Set::<u32>::empty(),
{
    CodeSet { set: GHashSet::new() }
}

/// Calls `contains` on the hash set behind a `GHashSet`, which tells whether
/// a number is a member.
#[verifier::external_body]
pub(crate) fn set_contains(set: &CodeSet, code: u32) -> (r: bool)
    ensures
        r == members(*set).contains(code),
{
    set.set.contains(&code)
}

/// Calls `insert` on the hash set behind a `GHashSet`, which makes a number a
/// member and tells whether it was none before.
#[verifier::external_body]
pub(crate) fn set_insert(set: &mut CodeSet, code: u32) -> (r: bool)
    ensures
        members(*final(set)) == members(*old(set)).insert(code),
        r == !members(*old(set)).contains(code),
{
    set.set.insert(code)
}

} // verus!
