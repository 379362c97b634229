//! The library's model of an independently-addressable service instance.
//!
//! The logic in this crate only carries such addresses around and compares
//! them for identity, so an address is held as one plain number. The host
//! shell that performs real remote calls translates between this type and
//! its transport-level representation.

use vstd::prelude::*;

verus! {

/// Address of a remote service instance (a bettor's instance, a user's
/// instance, or this instance itself).
#[derive(Clone, Copy, Debug, PartialEq, Eq, Structural, Hash)]
pub struct PrincipalId(pub u64);

} // verus!
