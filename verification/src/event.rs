//! The events that drive the simulation.
//!
//! Each event carries what the server needs to apply it; its time and its
//! place in the event queue belong to the event loop.

use vstd::prelude::*;

verus! {

/// What happens at an event.
#[derive(Debug, Clone, Copy, PartialEq, Eq, Structural)]
pub enum EventKind {
    /// A job arrives at the given configuration.
    Arrival(usize),
    /// The service in progress completes.
    ServiceCompletion,
    /// The reconfiguration in progress reaches the given configuration.
    SwitchoverCompletion(usize),
}

} // verus!
