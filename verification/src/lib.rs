//! An interpreter for a small drawing language: programs cut rectangular
//! blocks of a canvas apart, recolor them, swap them, or merge them back
//! together, accruing a cost per move.
//!
//! The pipeline has three stages: a scanner from source bytes to tokens, a
//! recursive-descent parser from tokens to moves, and an interpreter that
//! replays moves against a block map and a pixel buffer. Each stage is
//! specified by a mathematical model (`spec_scan`, `sp_program`, `spec_run`)
//! that the executable code is proved to follow exactly.

pub mod ast;
pub mod interpreter;
pub mod parser;
pub mod scanner;
pub mod token;
