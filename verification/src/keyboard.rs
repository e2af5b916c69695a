//! The keyboard capability that memory-mapped input is built on.
//!
//! The core never talks to a concrete terminal: memory consumes this
//! capability, and the host (or a scripted fake in a test) supplies it.
//! Nothing can be promised of what a keyboard returns, so the methods carry
//! no contract; every caller in the core states what holds whatever comes
//! back.

use vstd::prelude::*;

verus! {

/// Access to pending key presses.
pub trait KeyboardIO {
    /// Consume one pending key, if any; never blocks.
    fn get_key(&mut self) -> Option<u8>;

    /// Peek whether a key is pending; never blocks.
    fn check_key(&mut self) -> bool;

    /// Block until a key arrives and consume it.  The blocking traps lean
    /// on this; the wait is the host's and may never end.
    fn wait_key(&mut self) -> u8;
}

} // verus!
