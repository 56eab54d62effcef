//! A small parsing toolkit: a combinator engine over immutable byte spans,
//! together with a data-driven rule facility that composes named grammar
//! rules out of the same primitives.

mod parser;
pub mod grammar;
pub mod utils;

pub use parser::Parser;
pub use parser::Pattern;

use vstd::prelude::*;

verus! {

/// A literal matcher consumes exactly one byte when the byte under the
/// cursor equals the expected byte, and fails without consuming otherwise.
pub open spec fn spec_lit_parse(b: u8, s: Seq<u8>, pos: int) -> Option<(u8, int)> {
    if 0 <= pos < s.len() && s[pos] == b {
        Some((b, pos + 1))
    } else {
        None
    }
}

} // verus!
