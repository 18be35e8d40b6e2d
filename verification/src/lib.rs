//! Block-oriented copy and fan-out: one input is read in fixed-size blocks and
//! every block is replicated to a list of independent sinks.

pub mod argument;
pub mod arguments;
pub mod engine;
pub mod http;
pub mod run;
pub mod sequencer;
pub mod text;
