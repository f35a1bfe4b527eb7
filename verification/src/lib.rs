//! DARTsim — the discrete core of a simulator for tail-delay control in
//! reconfigurable systems.
//!
//! A single server moves over a directed graph of configurations, each
//! holding its own queue of jobs. This crate holds the parts of the
//! simulator whose behaviour is decided by integers, booleans and indices,
//! each with a contract proved by Verus:
//!
//! | Module | Responsibility |
//! |---|---|
//! | [`config`] | policy and family keys, and the shape checks of a configuration |
//! | [`topology`] | the reconfiguration graph: adjacency, per-edge families, edge means |
//! | [`dist`] | first hops of a shortest-path tree |
//! | [`policy`] | the commitment and sequencing logic of DART and its baselines |
//! | [`event`] | the event kinds of the simulation |
//! | [`simulation`] | the server's state machine and the seed streams |
//! | [`stats`] | histogram binning and reservoir sampling |

pub mod config;
pub mod dist;
pub mod event;
pub mod policy;
pub mod simulation;
pub mod stats;
pub mod topology;
