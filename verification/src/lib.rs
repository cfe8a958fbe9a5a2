//! `Deref` patterns in `match`, for stable Rust: `mb!(&** PAT)` (or, in the
//! keyword form, `derefref!(PAT)`) matches `PAT` against what the value
//! dereferences to. Each arm that holds such patterns is rewritten so that the
//! values are bound to fresh identifiers, tested in the arm's guard and
//! destructured again in its body.
use vstd::prelude::*;
use proc_macro2::TokenStream;

pub mod token;
pub mod deref;
pub mod keyword;
pub mod parsing;
pub mod fold;
pub mod tower;
pub mod expand;
pub mod laws;

verus! {

/// The `mb!` form: rewrites the `match` that `tokens` hold; tokens that are no
/// `match` give `syn`'s error.
pub fn matchbox(tokens: TokenStream) -> (r: TokenStream)
    ensures
        expand::expansion_of(token::stream_toks(r), tokens, fold::Syntax::Sigil),
{
    expand::expand_tokens(tokens, fold::Syntax::Sigil)
}

/// The `mb!` form: rewrites a parsed `match`.
pub fn matchbox_impl(m: syn::ExprMatch) -> (r: TokenStream)
    ensures
        expand::expansion(
            token::stream_toks(r),
            parsing::match_head(m),
            parsing::arms_printed(m),
            fold::Syntax::Sigil,
        ),
{
    expand::expand_match(m, fold::Syntax::Sigil)
}

} // verus!
