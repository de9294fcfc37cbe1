use vstd::prelude::*;

pub mod error;
pub mod text;
pub mod token;
pub mod lex_parser;
pub mod lemmas;

verus! {

} // verus!
