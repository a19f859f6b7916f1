//! A personal time-keeping record keeper.
//!
//! Tasks are grouped into named groups (by convention one per calendar day).
//! A [`Manager`] owns the groups, selects the current one and forwards the
//! task operations to it. Every operation is specified against a mathematical
//! model of the snapshot ([`ManagerModel`], [`GroupModel`], [`TaskModel`]).

pub mod archive_laws;
pub mod clock;
pub mod commands;
pub mod consistency;
pub mod data;
pub mod display;
pub mod error;
pub mod filter;
pub mod group;
pub mod group_laws;
pub mod lookup;
pub mod manager;
pub mod manager_laws;
pub mod snapshot_laws;
pub mod task;

pub use clock::ClockReading;
pub use error::Error;
pub use group::{Group, GroupModel};
pub use manager::{Manager, ManagerModel};
pub use task::{Task, TaskModel};
