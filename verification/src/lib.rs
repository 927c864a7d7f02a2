//! Client side of a roaming remote-shell protocol: datagram encryption,
//! packet framing, state synchronisation and predictive local echo.

use vstd::prelude::*;

pub mod bootstrap;
pub mod bytes;
pub mod clock;
pub mod crypto;
pub mod input;
pub mod network;
pub mod prediction;
pub mod renderer;
pub mod session;
pub mod terminal;
pub mod transport;
pub mod userstream;

verus! {

} // verus!
