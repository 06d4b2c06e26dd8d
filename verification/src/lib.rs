//! A brainfuck interpreter: a parser from source bytes to a tree of
//! instructions, and an engine that walks the tree over a tape that grows in
//! both directions.
//!
//! - [`ast`]: the program tree, and the characters it is written in.
//! - [`parser`]: from source bytes to the tree; [`grammar`] says what it
//!   reads, [`comments`] that comment text makes no difference,
//!   [`balance`] that the programs are the sources with matching brackets, and
//!   [`source`] that parsing undoes writing a program down.
//! - [`context`]: the tape and the walk of a tree over it, one step at a time;
//!   [`tape`] and [`walk`] say what a step does, and [`semantics`] that the
//!   steps together do what the program means.
//! - [`error`]: what can go wrong.

pub mod ast;
pub mod balance;
pub mod comments;
pub mod context;
pub mod error;
pub mod grammar;
pub mod parser;
pub mod semantics;
pub mod source;
pub mod tape;
pub mod walk;
