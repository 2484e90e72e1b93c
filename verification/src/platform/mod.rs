//! What the daemon does on the system it runs on: which keyboards it reads, when it rewrites a
//! word, and by which keys.

use vstd::prelude::*;

pub mod atspi;
pub mod keyd_detect;
pub mod kwin;
pub mod linux;
pub mod session;
pub mod uinput;
pub mod xkb;

verus! {

/// A system on which the daemon runs.
pub trait Platform {
    /// The name of the system, for people.
    fn name(&self) -> &'static str;
}

} // verus!
