//! Core of a multiplayer rock-paper-scissors-lizard-spock game: the fixed
//! outcome table, pairwise battle evaluation, the per-session state machine
//! (membership, simultaneous choice commitment, round resolution, cumulative
//! points), and a registry of independent sessions.
//!
//! Everything here is synchronous, CPU-bound state transition logic; the
//! surrounding chat-platform layer performs I/O and holds the registry behind
//! a lock so that each operation below runs as one critical section.

pub mod battle;
pub mod battleresult;
pub mod choice;
pub mod game;
pub mod player;
pub mod registry;
