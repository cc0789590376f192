//! Core of a substitution-plan notification service: session-token handling,
//! extraction of the daily plan table into fixed-shape entries, day-scoped
//! change detection, subscriber resolution and message formatting.
pub mod config;
pub mod laws;
pub mod messenger;
pub mod notification_bot;
pub mod plan;
pub mod sph_scraper;
pub mod strutil;
