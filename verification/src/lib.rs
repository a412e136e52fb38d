//! Simple Space Data Mirror: the registry of mirrored products, their fetch
//! schedules, change detection over `status.json`, the per-host rate limit,
//! the bounded fetch retry, and the landing page.

pub mod text;
pub mod strmap;
pub mod duration;
pub mod schedule;
pub mod retry;
pub mod products;
pub mod keys;
pub mod status;
pub mod scheduler;
pub mod ratelimit;
pub mod config;
pub mod page;
pub mod fetch;
pub mod sync;
pub mod message;
pub mod cli;
