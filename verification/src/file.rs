//! Script files as the diagnostics see them.
pub mod db;
