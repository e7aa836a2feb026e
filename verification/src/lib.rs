//! In-memory coordination core for ephemeral collaborative estimation
//! sessions ("rooms"): a keyed session store with atomic operations, a
//! membership / card-table / reveal-countdown state machine per room, a
//! typed publish/subscribe hub with bounded per-subscriber buffers, an
//! eviction sweeper and a telemetry sampler.

pub mod chat;
pub mod clock;
pub mod deck;
pub mod events;
pub mod game;
pub mod hub;
pub mod ids;
pub mod labels;
pub mod room;
pub mod seq_util;
pub mod stats;
pub mod store;
pub mod sweep;
pub mod types;
pub mod user;
