//! What holds of the parser, whatever the source is.
//!
//! - [`frame`]: parsing leaves alone what came before.
//! - [`progress`]: parsing goes on, and a failure is not forgotten.
//! - [`totality`]: parsing ends.
//! - [`combinators`]: what holds of the ways in which expressions are combined.
//! - [`shape`]: nodes are nested, and no token is lost.
//! - [`items`]: the same for whole files; every item consumes a token.
//! - [`valid`]: what is outside of error nodes is as the grammar says, but for
//!   what has been cut short before a point of recovery.
//! - [`whole`]: nothing is cut short without an error.
//! - [`file`]: the same for whole files.
//! - [`errors`]: errors are about places in the source.
//! - [`root`]: there is one node for the whole file, around everything else.
//! - [`cache`]: remembering failures makes no difference.
//! - [`lexical`]: how a source is cut into tokens.
//! - [`reading`]: how a place in a source is read.
//! - [`language`]: what the language is made of, production by production.
//! - [`words`]: what is read for given tokens.
//! - [`outcome`]: the parser goes on as a place is read.
//! - [`flawless`]: no error is reported where everything fits.
//! - [`source`]: what is written as the language says is parsed without errors.
//! - [`reports`]: which errors are reported otherwise, where, and what they say.

pub mod cache;
pub mod combinators;
pub mod errors;
pub mod file;
pub mod flawless;
pub mod frame;
pub mod items;
pub mod language;
pub mod lexical;
pub mod outcome;
pub mod progress;
pub mod reading;
pub mod reports;
pub mod root;
pub mod shape;
pub mod source;
pub mod totality;
pub mod valid;
pub mod whole;
pub mod words;
