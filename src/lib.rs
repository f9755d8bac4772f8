//! A parser combinator library over token slices.
//!
//! A grammar is an expression built from primitive parsers (`slice_parsers`, and the regular
//! expression parsers of `string_parsers` for text held as bytes) and combinators (`parsers`,
//! `utils`). Each parser states, through `Parser::produces`, which outcomes parsing an input may
//! have, and its `parse` returns one of them; `laws` proves properties of the combinators that
//! hold for every input.
pub mod parsers;
pub mod slice_parsers;
pub mod string_parsers;
pub mod utils;
pub mod laws;
