//! Per-chat score keeping for a once-a-day luck game: player records,
//! their ranking, the daily cooldown, the weighted draw of a score change
//! and the binary storage format of a chat's records.

pub mod cooldown;
pub mod error;
pub mod game;
pub mod rank;
pub mod record;
pub mod selector;
pub mod storage;
