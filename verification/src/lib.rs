//! A tree-walking interpreter for a small dynamically typed language with
//! variables, control flow, closures, and classes with single inheritance.
//!
//! A program goes through four stages:
//!
//! * the [`scanner`] turns the bytes of the source into tokens;
//! * the [`parser`] turns the tokens into a syntax tree, as the [`grammar`]
//!   says, and gives every variable occurrence an identity of its own
//!   ([`identities`]);
//! * the [`resolver`] finds, for every occurrence, how many scopes lie
//!   between it and its declaration, and records that distance in the
//!   interpreter;
//! * the [`interpreter`] runs the tree ([`evaluate`], [`call`], [`execute`],
//!   [`natives`]) on an [`environment`] of shared frames, jumping to the frame
//!   of each variable by its recorded distance.
//!
//! What a program means is written down once, in [`semantics`], as a function
//! of the state of the [`machine`] and of the answers of the [`host`]; the
//! interpreter is proved to compute exactly that. [`laws`] holds what follows
//! for every program.
//!
//! Numbers are IEEE-754 doubles, kept as bit patterns ([`number`]). What can
//! be decided from the bits is decided here; rounded arithmetic and the
//! conversion between numbers and text are asked of the host, and every
//! question asked is part of what the contracts state.

pub mod call;
pub mod environment;
pub mod error;
pub mod evaluate;
pub mod execute;
pub mod expression;
pub mod grammar;
pub mod host;
pub mod identities;
pub mod interpreter;
pub mod laws;
pub mod machine;
pub mod natives;
pub mod number;
pub mod once_cell;
pub mod operators;
pub mod parser;
pub mod resolver;
pub mod scanner;
pub mod semantics;
pub mod statement;
pub mod text;
pub mod token;
pub mod utf8;
pub mod value;
