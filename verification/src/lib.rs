//! Speech transcription bot: the rules behind calls, transcripts, receive health and AI requests.
use vstd::prelude::*;

pub mod ai;
pub mod app;
pub mod asr;
pub mod cli;
pub mod config;
pub mod json;
pub mod lines;
pub mod maps;
pub mod seqs;
pub mod text;
pub mod time;

verus! {

} // verus!
