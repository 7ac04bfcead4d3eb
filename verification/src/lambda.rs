//! Notes on how closures capture their environment.
//!
//! How a closure's body handles captured values decides which of the `Fn`
//! traits it implements, additively:
//!
//! 1. `FnOnce` — every closure, since every closure can be called at least
//!    once; one that moves captured values out of its body implements only
//!    this, because it can only be called once.
//! 2. `FnMut` — closures that do not move captured values out but may
//!    mutate them; callable more than once.
//! 3. `Fn` — closures that neither move nor mutate captured values, or
//!    capture nothing; callable repeatedly without affecting their
//!    environment.
//!
//! Functions and structs name these traits to say which kinds of closures
//! they accept.

use vstd::prelude::*;

verus! {

/// Declares `std::io::Error` so it may stand in a signature. Nothing is
/// assumed about its values; [`lambda`] only names it in its error slot and
/// never constructs one.
#[verifier::external_type_specification]
#[verifier::external_body]
pub struct ExIoError(std::io::Error);

/// There is nothing to run here — the lesson is the module's documentation
/// — so this always succeeds.
pub fn lambda() -> (r: Result<(), std::io::Error>)
    ensures
        r is Ok,
{
    Ok(())
}

} // verus!
