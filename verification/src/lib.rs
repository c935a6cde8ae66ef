//! A time-expiring key-value cache with sliding idle expiration and lazy eviction, and the
//! decisions of the service that hands out public dashboard links through it.
//!
//! - `cache_map`: the cache itself.
//! - `expiry`: the expiry rule, the effect of the cache's operations on its entries, and
//!   the laws that follow.
//! - `expiry_queue`: the priority queue of candidate records.
//! - `pending`: how the queue relates to the entries.
//! - `clock`: the monotonic clock.
//! - `grafana`: what the dashboard service is asked and what its answers amount to.

pub mod cache_map;
pub mod clock;
pub mod expiry;
pub mod expiry_queue;
pub mod grafana;
pub mod pending;
