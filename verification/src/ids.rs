//! View numbers and set ids that cannot be mistaken for each other.
use crate::messages::ViewNumber;
use vstd::prelude::*;

verus! {

/// Type-safe wrapper around a view number.
#[derive(Debug, Clone, Copy, Eq, PartialEq, PartialOrd, Ord, Structural)]
pub struct View(pub ViewNumber);

/// Type-safe wrapper around a set ID.
#[derive(Debug, Clone, Copy, Eq, PartialEq, PartialOrd, Ord, Structural)]
pub struct SetId(pub crate::messages::SetId);

} // verus!
