//! Where a prompt came from.
//!
//! The level travels with the request so that the provider can log it. Nothing here
//! acts on it.

use vstd::prelude::*;

verus! {

/// The program's author controls the prompt.
pub const TRUSTED: u8 = 0;

/// The prompt derives from a model, the network or another untrusted source.
pub const TAINTED: u8 = 1;

/// The two levels.
pub proof fn levels_are()
    ensures
        TRUSTED == 0,
        TAINTED == 1,
{
}

} // verus!
