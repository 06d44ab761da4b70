//! Local multi-project Docker development environments: what is decided
//! when projects share one machine.
//!
//! Containers of many projects sit behind one reverse proxy and are reached
//! through local domains. Three things have to stay consistent while anyone
//! may edit them by hand between two runs: the host ports of the machine, the
//! hosts file, and the routes of each project. This library holds every
//! decision about them, with a contract that is proved:
//!
//! * [`compose`] reads the ports, container names and networks of a
//!   project out of its compose manifest,
//! * [`registry`] keeps the ports that each project holds and reports
//!   conflicts between projects,
//! * [`hosts`], [`reconcile`] and [`plan`] read the managed sections of the
//!   hosts file and plan the change that gives a project its domains;
//!   [`laws`], [`removal`] and [`protection`] state what holds of such a
//!   change,
//! * [`flow`] and [`backup`] order the steps of a change: confirm, back up,
//!   write, fall back once.
//!
//! The library reads no file and runs no command. Its callers hand it the
//! text of a file and get the new text back.

pub mod backup;
pub mod blocks;
pub mod compose;
pub mod config;
pub mod diff;
pub mod flow;
pub mod generator;
pub mod hosts;
pub mod laws;
pub mod managed;
pub mod order;
pub mod pattern;
pub mod plan;
pub mod ports;
pub mod project;
pub mod protection;
pub mod proxy;
pub mod reconcile;
pub mod registry;
pub mod removal;
pub mod scaffold;
pub mod search;
pub mod settings;
pub mod template;
pub mod text;
pub mod validate;
pub mod yaml;
