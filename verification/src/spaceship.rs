//! The spaceship game is run by the host; the library only names it.

use vstd::prelude::*;

verus! {

/// The name under which the host registers the systems of the spaceship
/// game. It holds nothing: the systems themselves belong to the host.
#[derive(Debug, Clone, Copy, PartialEq, Eq, Structural)]
pub struct SpaceshipSystemPlugin;

} // verus!
