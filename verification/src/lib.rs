//! Calendar synchronisation engine: reads ICS feeds of booking channels,
//! reconciles them against the stored reservations and reports conflicts.
pub mod text;
pub mod error;
pub mod civil;
pub mod parser;
pub mod db;
pub mod sync;
pub mod config;
pub mod scheduler;
