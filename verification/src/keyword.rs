//! The keyword form of a deref pattern: `owned!(PAT)`, `deref!(PAT)`,
//! `derefref!(PAT)`, `mutderef!(PAT)` and `mutderefref!(PAT)`, each naming the
//! dereferencing operator that it stands for.
use vstd::prelude::*;
use proc_macro2::Span;
use crate::token::{self as tk, Tok, TokS, make_mark, make_word, str_eq};

verus! {

/// Which dereferencing operator a keyword macro applies.
#[derive(Clone, Copy, PartialEq, Eq, Structural, Debug)]
pub enum Type {
    /// `owned!`: `*`
    Owned,
    /// `deref!`: `&*`
    Deref,
    /// `derefref!`: `&**`
    DerefRef,
    /// `mutderef!`: `&mut *`
    MutDeref,
    /// `mutderefref!`: `&mut **`
    MutDerefRef,
}

/// The keyword that names each operator.
pub open spec fn keyword_type(s: Seq<char>) -> Option<Type> {
    if s == "owned"@ {
        Some(Type::Owned)
    } else if s == "deref"@ {
        Some(Type::Deref)
    } else if s == "derefref"@ {
        Some(Type::DerefRef)
    } else if s == "mutderef"@ {
        Some(Type::MutDeref)
    } else if s == "mutderefref"@ {
        Some(Type::MutDerefRef)
    } else {
        None
    }
}

impl Type {
    /// The operator used in a match guard, where the bindings are references:
    /// an owned dereference becomes a borrowed one, and any other becomes the
    /// shared double dereference.
    pub open spec fn spec_add_ref(self) -> Type {
        match self {
            Type::Owned => Type::Deref,
            _ => Type::DerefRef,
        }
    }

    /// The operator's tokens, all spanned at `span`.
    pub open spec fn spec_op(self, span: Span) -> Seq<TokS> {
        match self {
            Type::Owned => seq![tk::mark('*', span)],
            Type::Deref => seq![tk::mark('&', span), tk::mark('*', span)],
            Type::DerefRef => seq![tk::mark('&', span), tk::mark('*', span), tk::mark('*', span)],
            Type::MutDeref => seq![tk::mark('&', span), tk::word("mut"@, span), tk::mark('*', span)],
            Type::MutDerefRef => seq![
                tk::mark('&', span),
                tk::word("mut"@, span),
                tk::mark('*', span),
                tk::mark('*', span),
            ],
        }
    }

    pub fn add_ref(self) -> (r: Type)
        ensures
            r == self.spec_add_ref(),
    {
        match self {
            Type::Owned => Type::Deref,
            _ => Type::DerefRef,
        }
    }

    pub fn as_op(self, span: Span) -> (r: Vec<Tok>)
        ensures
            tk::toks_view(r@) == self.spec_op(span),
    {
        proof {
            reveal_strlit("mut");
        }
        let mut r: Vec<Tok> = Vec::new();
        match self {
            Type::Owned => {
                r.push(make_mark('*', span));
            },
            Type::Deref => {
                r.push(make_mark('&', span));
                r.push(make_mark('*', span));
            },
            Type::DerefRef => {
                r.push(make_mark('&', span));
                r.push(make_mark('*', span));
                r.push(make_mark('*', span));
            },
            Type::MutDeref => {
                r.push(make_mark('&', span));
                r.push(make_word("mut", span));
                r.push(make_mark('*', span));
            },
            Type::MutDerefRef => {
                r.push(make_mark('&', span));
                r.push(make_word("mut", span));
                r.push(make_mark('*', span));
                r.push(make_mark('*', span));
            },
        }
        assert(tk::toks_view(r@) =~= self.spec_op(span));
        r
    }

    /// The operator that a keyword names; any other text is handed back as the
    /// error.
    pub fn from_str(s: &str) -> (r: Result<Type, String>)
        ensures
            match keyword_type(s@) {
                Some(t) => r == Ok::<Type, String>(t),
                None => r matches Err(e) && e@ == s@,
            },
    {
        if str_eq(s, "owned") {
            Ok(Type::Owned)
        } else if str_eq(s, "deref") {
            Ok(Type::Deref)
        } else if str_eq(s, "derefref") {
            Ok(Type::DerefRef)
        } else if str_eq(s, "mutderef") {
            Ok(Type::MutDeref)
        } else if str_eq(s, "mutderefref") {
            Ok(Type::MutDerefRef)
        } else {
            Err(s.to_owned())
        }
    }
}

} // verus!

verus! {

/// The keyword form: rewrites the `match` that `tokens` hold; tokens that are
/// no `match` give `syn`'s error.
pub fn matchbox(tokens: proc_macro2::TokenStream) -> (r: proc_macro2::TokenStream)
    ensures
        crate::expand::expansion_of(crate::token::stream_toks(r), tokens, crate::fold::Syntax::Keyword),
{
    crate::expand::expand_tokens(tokens, crate::fold::Syntax::Keyword)
}

/// The keyword form: rewrites a parsed `match`.
pub fn matchbox_impl(m: syn::ExprMatch) -> (r: proc_macro2::TokenStream)
    ensures
        crate::expand::expansion(
            crate::token::stream_toks(r),
            crate::parsing::match_head(m),
            crate::parsing::arms_printed(m),
            crate::fold::Syntax::Keyword,
        ),
{
    crate::expand::expand_match(m, crate::fold::Syntax::Keyword)
}

} // verus!
