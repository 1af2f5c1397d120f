//! The syntax of YARA rules, and the arithmetic of the `math` module.
//!
//! [`parser::Parser`] turns the source code of YARA rules into a concrete syntax
//! tree: a lossless one, also for code with errors. The rest of the crate is
//! what it is made of and what is proved of it.
//!
//! - Tokens: [`token`], [`tokenizer`], [`token_stream`].
//! - The tree: [`syntax_kind`], [`event`], [`syntax_stream`], [`cst`].
//! - What parsing means: [`grammar`] says which expressions YARA is made of,
//!   [`state`] what the single steps of the parser do, [`semantics`] what it is
//!   to parse an expression, and [`item`] what it is to parse a file.
//! - What holds of parsing: [`laws`].
//! - What the parser takes from elsewhere: [`collections`], [`message`].
//! - The functions of the `math` module: [`math`].

// Many names are imported for specifications and proofs only.
#![allow(unused_imports)]

pub mod collections;
pub mod cst;
pub mod event;
pub mod grammar;
pub mod item;
pub mod laws;
pub mod math;
pub mod message;
pub mod parser;
pub mod semantics;
pub mod span;
pub mod state;
pub mod syntax_kind;
pub mod syntax_stream;
pub mod token;
pub mod token_stream;
pub mod tokenizer;
