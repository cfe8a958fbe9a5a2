//! The items through which the library has `syn` parse its input and report
//! errors; their contracts are believed, not proved.
use vstd::prelude::*;
use proc_macro2::{Span, TokenStream};
use quote::{ToTokens, TokenStreamExt};
use crate::token::{self as tk, Tok, TokS, stream_to_toks, toks_to_stream};
use crate::expand::{ArmS, ArmToks, arm_view};

verus! {

/// The tokens of `syn::Error::new(span, msg).into_compile_error()`: an
/// invocation of the compiler's error macro with `msg`, located at `span`.
pub uninterp spec fn error_tokens(msg: Seq<char>, span: Span) -> Seq<TokS>;

/// What `syn::Pat::parse_single` reports over `toks` when it parses them with
/// `scope` as the span of the end of the input: `None` where it reads the whole
/// of `toks` as one pattern, else the tokens of `into_compile_error` of its
/// error.
pub uninterp spec fn single_pattern_error(toks: Seq<TokS>, scope: Span) -> Option<Seq<TokS>>;

/// `syn::Error::new(span, msg).into_compile_error()`, read into tokens.
#[verifier::external_body]
pub(crate) fn error_tokens_of(msg: &str, span: Span) -> (r: Vec<Tok>)
    ensures
        tk::toks_view(r@) == error_tokens(msg@, span),
{
    stream_to_toks(syn::Error::new(span, msg).into_compile_error())
}

/// Parses `toks[start..]` with `syn::Pat::parse_single` through
/// `syn::parse::Parser::__parse_scoped`, which is `Parser::parse2` with `scope`
/// in place of `Span::call_site()` as the span of the end of the input: `None`
/// where that succeeds, else the error tokens of the error.
#[verifier::external_body]
pub(crate) fn check_single_pattern(toks: &Vec<Tok>, start: usize, scope: Span) -> (r: Option<Vec<Tok>>)
    requires
        start <= toks.len(),
    ensures
        match r {
            None => single_pattern_error(
                tk::toks_view(toks@).subrange(start as int, toks@.len() as int),
                scope,
            ) is None,
            Some(e) => single_pattern_error(
                tk::toks_view(toks@).subrange(start as int, toks@.len() as int),
                scope,
            ) == Some(tk::toks_view(e@)),
        },
{
    let stream = toks_to_stream(&toks[start..]);
    match syn::parse::Parser::__parse_scoped(syn::Pat::parse_single, scope, stream) {
        Ok(_) => None,
        Err(e) => Some(stream_to_toks(e.into_compile_error())),
    }
}

#[verifier::external_type_specification]
#[verifier::external_body]
pub struct ExExprMatch(syn::ExprMatch);

#[verifier::external_type_specification]
#[verifier::external_body]
pub struct ExArm(syn::Arm);

/// What `syn::ExprMatch::parse` makes of `ts` when it parses the whole of it
/// with `scope` as the span of the end of the input, as the library goes on
/// with it: for a `match`, the tokens that `syn` prints for it with no arms
/// (see `match_head`) and the parts of each of its arms (see `printed_arm`);
/// else the tokens of `into_compile_error` of the error.
pub uninterp spec fn match_parse(ts: TokenStream, scope: Span) -> Result<(Seq<TokS>, Seq<ArmS>), Seq<TokS>>;

/// The tokens that `syn` prints (`ToTokens`) for `m` once its arms are taken
/// out: its attributes, `match`, the scrutinee, and braces that hold only the
/// inner attributes.
pub uninterp spec fn match_head(m: syn::ExprMatch) -> Seq<TokS>;

/// The parts of the arms of `m`, in order, each as `printed_arm` gives it.
pub uninterp spec fn arms_printed(m: syn::ExprMatch) -> Seq<ArmS>;

/// The tokens that `syn` prints for each part of the arm `a`: its outer
/// attributes, pattern, guard (`if` and the condition), `=>`, body and
/// trailing comma.
pub uninterp spec fn printed_arm(a: syn::Arm) -> ArmS;

/// `syn::parse2::<syn::ExprMatch>`, run through `Parser::__parse_scoped` with
/// `scope` in place of `Span::call_site()` as the span of the end of the input;
/// its error is turned into the tokens of `into_compile_error`.
#[verifier::external_body]
pub(crate) fn parse_match(ts: TokenStream, scope: Span) -> (r: Result<syn::ExprMatch, Vec<Tok>>)
    ensures
        match r {
            Ok(m) => match_parse(ts, scope) == Ok::<(Seq<TokS>, Seq<ArmS>), Seq<TokS>>((match_head(m), arms_printed(m))),
            Err(e) => match_parse(ts, scope) == Err::<(Seq<TokS>, Seq<ArmS>), Seq<TokS>>(tk::toks_view(e@)),
        },
{
    match syn::parse::Parser::__parse_scoped(<syn::ExprMatch as syn::parse::Parse>::parse, scope, ts) {
        Ok(m) => Ok(m),
        Err(e) => Err(stream_to_toks(e.into_compile_error())),
    }
}

/// The number of arms of `m` (the length of its `arms` field).
#[verifier::external_body]
pub(crate) fn arm_count(m: &syn::ExprMatch) -> (r: usize)
    ensures
        r == arms_printed(*m).len(),
{
    m.arms.len()
}

/// The arm of `m` at `k`.
#[verifier::external_body]
pub(crate) fn arm_ref(m: &syn::ExprMatch, k: usize) -> (r: &syn::Arm)
    requires
        k < arms_printed(*m).len(),
    ensures
        printed_arm(*r) == arms_printed(*m)[k as int],
{
    &m.arms[k]
}

/// Takes the arms out of `m` and prints what is left with `syn`, read into
/// tokens.
#[verifier::external_body]
pub(crate) fn match_head_of(m: syn::ExprMatch) -> (r: Vec<Tok>)
    ensures
        tk::toks_view(r@) == match_head(m),
{
    let mut m = m;
    m.arms = Vec::new();
    stream_to_toks(m.to_token_stream())
}

/// Prints each part of an arm with `syn` and reads it into tokens.
#[verifier::external_body]
pub(crate) fn split_arm(a: &syn::Arm) -> (r: ArmToks)
    ensures
        arm_view(r) == printed_arm(*a),
{
    let mut attrs = TokenStream::new();
    attrs.append_all(&a.attrs);
    let guard = match &a.guard {
        Some((k, c)) => Some((stream_to_toks(k.to_token_stream()), stream_to_toks(c.to_token_stream()))),
        None => None,
    };
    ArmToks {
        attrs: stream_to_toks(attrs),
        pat: stream_to_toks(a.pat.to_token_stream()),
        guard,
        arrow: stream_to_toks(a.fat_arrow_token.to_token_stream()),
        body: stream_to_toks(a.body.to_token_stream()),
        comma: stream_to_toks(a.comma.to_token_stream()),
    }
}

} // verus!
