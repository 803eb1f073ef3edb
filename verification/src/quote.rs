//! Text in quotes, for messages.

use vstd::prelude::*;

verus! {

/// What Rust's debug formatting makes of a text.
pub uninterp spec fn debug_text(s: Seq<char>) -> Seq<char>;

/// `s` as the `{:?}` of `format!` writes a `str`: in double quotes, with the characters that do
/// not print escaped. What comes out is a function of the text alone; its escapes follow
/// Unicode's tables and are not spelled out.
#[verifier::external_body]
pub(crate) fn quoted(s: &str) -> (r: String)
    ensures
        r@ == debug_text(s@),
{
    format!("{:?}", s)
}

/// What Rust's debug formatting makes of a character.
pub uninterp spec fn debug_char(c: char) -> Seq<char>;

/// `c` as the `{:?}` of `format!` writes a `char`: in single quotes, escaped where it does not
/// print. What comes out is a function of the character alone; its escapes follow Unicode's
/// tables and are not spelled out.
#[verifier::external_body]
pub(crate) fn quoted_char(c: char) -> (r: String)
    ensures
        r@ == debug_char(c),
{
    format!("{:?}", c)
}

} // verus!
