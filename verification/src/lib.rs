//! SCPI / IEEE 488.2 message processing.
//!
//! A program message is cut into tokens by the [`tokenizer`]; what the lexer
//! reads is stated over the bytes of the message in [`lexis`], and what it
//! makes of a well-formed message in [`grammar`]. Headers are
//! compared with the short and long forms of a [`mnemonic`] and resolved in
//! the command [`tree`] by the dispatcher in [`dispatch`], which runs the
//! handlers of [`command`] and keeps the books of the [`status`] and the
//! [`response`]. Typed values are taken out of the tokens in [`value`],
//! [`decimal`] and [`expression`]. The common commands of IEEE 488.2 are in
//! [`ieee488`], the STATus subsystem of SCPI-1999 in [`scpi1999`].

pub mod chars;
pub mod command;
pub mod decimal;
pub mod dispatch;
pub mod error;
pub mod expression;
pub mod grammar;
pub mod ieee488;
pub mod lexis;
pub mod mnemonic;
pub mod response;
pub mod scan;
pub mod scpi1999;
pub mod status;
pub mod token;
pub mod tokenizer;
pub mod tree;
pub mod value;
