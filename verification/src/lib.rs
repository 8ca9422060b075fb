//! Leaderboards over chat transcripts: which emotes, or which chatters, were
//! most active in a channel.
//!
//! The crate holds the decision logic of transcript retrieval (per-day retry
//! and merging), the frequency aggregation over a merged transcript, and the
//! top-K selection that yields the leaderboard.

pub mod aggregate;
pub mod calendar;
pub mod decimal;
pub mod emotes;
pub mod frequency;
pub mod leaderboard;
pub mod message;
pub mod params;
pub mod retry;
pub mod sequences;
pub mod text;
pub mod tokens;
pub mod transcript;
