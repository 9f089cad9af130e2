//! Verified core of Set Desto: destination parsing and resolution rules,
//! FOBScout import parsing, configuration bookkeeping, ESI rate-limit
//! decisions, route optimisation and the display models of the desktop app.

pub mod auth;
pub mod config;
pub mod dates;
pub mod destination;
pub mod fobscout;
pub mod lookup;
pub mod models;
pub mod rate_limit;
pub mod sde;
pub mod session;
pub mod sorting;
pub mod text;
pub mod universe;
pub mod waypoint_job;
pub mod waypoints;
