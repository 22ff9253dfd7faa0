//! Job-control core of a small interactive command interpreter.
//!
//! The library holds the logic that is worth proving: the whitespace
//! tokenizer that turns an input line into a command, the job table that
//! tracks background processes, the reaper step that removes jobs whose
//! processes have exited, and the dispatcher decision that maps a parsed
//! command to the action the interpreter must take.  Process spawning,
//! signal handling and terminal I/O live outside the library; they hand
//! it plain values (strings, pids, poll outcomes) and act on what it
//! returns.

pub mod command_builder;
pub mod dispatcher;
pub mod job_table;
pub mod reaper;
pub mod render;
pub mod tokenizer;
