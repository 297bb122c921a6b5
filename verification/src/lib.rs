//! A small algebra of parser combinators over slices of any element type.
//!
//! A parser takes a view into a sequence of tokens, consumes a prefix of it
//! and returns a value together with the unconsumed rest, or fails with an
//! error. Combinators build new parsers out of existing ones: `map`,
//! `flat_map`, `optional`, `then`, `then_right` and `then_left`. One
//! primitive parser is provided, `match_buf`, which matches a literal
//! sequence of tokens, and every plain function of the right signature is a
//! parser too.
//!
//! The meaning of a parser is a relation between input sequences and
//! outcomes, `Parser::yields`. Each combinator states the relation of the
//! parser it builds in terms of the relations of its parts, and each `parse`
//! is proved to return an outcome that its relation admits. For a well-formed
//! parser the relation admits one outcome at most on each input, and what a
//! success leaves over is always a suffix of the input.
//!
//! Closures and functions that are handed to the combinators must be total
//! and must say in their contracts what they return: their contract is all
//! that is known of them. Of a function that returns a parser, as `flat_map`
//! takes one, the contract must say what that parser yields.

pub mod parse;
