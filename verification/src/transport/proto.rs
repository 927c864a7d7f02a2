//! The records exchanged by the two peers, and their wire format.

use vstd::prelude::*;

pub mod hostinput;
pub mod transportinstruction;
pub mod userinput;
pub mod wire;

verus! {

} // verus!
