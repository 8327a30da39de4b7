//! The bot's sessions: calls, their health, transcripts and commands.
pub mod autojoin;
pub mod clock;
pub mod commands;
pub mod definitions;
pub mod healthcheck;
pub mod prompts;
pub mod session;
pub mod startup;
pub mod steps;
pub mod summary;
pub mod thread_maps;
pub mod threads;
pub mod transcript;
pub mod watchdog;
