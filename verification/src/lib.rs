//! A rule-ordered lexical tokenizer.
//!
//! An ordered table of rules (each a pattern together with a token
//! constructor) is applied repeatedly to the unconsumed suffix of the
//! input; the first rule that matches a non-empty prefix wins, the
//! matched text becomes a token, and scanning advances by the match
//! length. Every token is returned together with its `[start, end)`
//! offsets into the input, so the token sequence reconstructs the
//! input exactly.

pub mod bignum;
pub mod token;
pub mod grammar;
pub mod rules;
pub mod lexer;
