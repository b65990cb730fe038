//! The execution core of a schema-migration library.
//!
//! Given the migrations a caller supplies and the history a database already holds,
//! the core decides what is still to be applied, turns that into an ordered series of
//! execution steps, drives them through a backend and reports what was applied.

pub mod clock;
pub mod drivers;
pub mod error;
pub mod laws;
pub mod runner;
pub mod text;
pub mod traits;

pub use crate::error::{Error, Kind, WrapMigrationError};
pub use crate::runner::{Migration, Report, State, Target, Type};
pub use crate::traits::sync::{migrate, Migrate, Query, Transaction};
