//! The `mb!( & mut * * PAT )` form of a deref pattern: its prefix grammar and
//! the dereferencing operators that it stands for.
use vstd::prelude::*;
use proc_macro2::Span;
use crate::token::{self as tk, Spelling, Tok, TokS, make_mark, make_word, mark_at_exec, word_at_exec, span_at_exec};

verus! {

/// The prefix of `mb!(...)`: an optional `&`, then (only after `&`) an
/// optional `mut`, a `*`, then (only after `&`) an optional second `*`.
/// Each present token is kept by its span.
#[derive(Clone, Copy)]
pub struct DerefPattern {
    pub amp: Option<Span>,
    pub mutability: Option<Span>,
    pub deref1: Span,
    pub deref2: Option<Span>,
}

/// The message of the only error that the prefix grammar reports.
pub open spec fn expected_star() -> Seq<char> {
    "expected `*`"@
}

impl DerefPattern {
    /// `mut` and a second `*` come only after `&`.
    pub open spec fn wf(self) -> bool {
        &&& self.mutability.is_some() ==> self.amp.is_some()
        &&& self.deref2.is_some() ==> self.amp.is_some()
    }

    /// The prefix at the start of `s`, and how many tokens it takes; or the span
    /// at which a `*` was expected: a group's opening delimiter, another token's
    /// span, or `call` when `s` ends there.
    pub open spec fn spec_parse(s: Seq<TokS>, call: Span) -> Result<(DerefPattern, int), Span> {
        let has_amp = tk::mark_at(s, 0, '&');
        let i1: int = if has_amp { 1 } else { 0 };
        let has_mut = has_amp && tk::word_at(s, i1, "mut"@);
        let i2: int = if has_mut { i1 + 1 } else { i1 };
        if !tk::mark_at(s, i2, '*') {
            Err(tk::report_span_at(s, i2, call))
        } else {
            let has_deref2 = has_amp && tk::mark_at(s, i2 + 1, '*');
            let pat = DerefPattern {
                amp: if has_amp { Some(tk::span_at(s, 0, call)) } else { None },
                mutability: if has_mut { Some(tk::span_at(s, i1, call)) } else { None },
                deref1: tk::span_at(s, i2, call),
                deref2: if has_deref2 { Some(tk::span_at(s, i2 + 1, call)) } else { None },
            };
            Ok((pat, if has_deref2 { i2 + 2 } else { i2 + 1 }))
        }
    }

    /// The operator applied in a match guard: it always borrows immutably, one
    /// dereference deeper than the pattern says, as a guard sees bindings by
    /// reference.
    pub open spec fn spec_guard_op(self, span: Span) -> Seq<TokS> {
        match (self.amp, self.deref2) {
            (Some(a), Some(d2)) => seq![tk::mark('&', a), tk::mark('*', d2), tk::mark('*', self.deref1)],
            (Some(a), None) => seq![tk::mark('&', a), tk::mark('*', self.deref1), tk::mark('*', span)],
            (None, _) => seq![tk::mark('&', span), tk::mark('*', self.deref1)],
        }
    }

    /// The operator applied in the arm's body: the prefix as written.
    pub open spec fn spec_body_op(self) -> Seq<TokS> {
        (match self.amp {
            Some(a) => seq![tk::mark('&', a)],
            None => Seq::empty(),
        }) + (match self.mutability {
            Some(m) => seq![tk::word("mut"@, m)],
            None => Seq::empty(),
        }) + seq![tk::mark('*', self.deref1)] + (match self.deref2 {
            Some(d) => seq![tk::mark('*', d)],
            None => Seq::empty(),
        })
    }

    /// How the tokens of the body's operator read back: the prefix's own
    /// characters and words, each at the span at which it was read.
    pub open spec fn spec_body_spelling(self) -> Seq<Spelling> {
        (match self.amp {
            Some(a) => seq![Spelling::Mark('&', a)],
            None => Seq::empty(),
        }) + (match self.mutability {
            Some(m) => seq![Spelling::Word("mut"@, m)],
            None => Seq::empty(),
        }) + seq![Spelling::Mark('*', self.deref1)] + (match self.deref2 {
            Some(d) => seq![Spelling::Mark('*', d)],
            None => Seq::empty(),
        })
    }

    /// Reads the prefix at the start of `toks`.
    pub fn parse_prefix(toks: &Vec<Tok>, call: Span) -> (r: Result<(DerefPattern, usize), Span>)
        ensures
            r matches Ok((p, k)) ==> Self::spec_parse(tk::toks_view(toks@), call) == Ok::<
                (DerefPattern, int),
                Span,
            >((p, k as int)) && p.wf() && k <= toks.len(),
            r matches Err(e) ==> Self::spec_parse(tk::toks_view(toks@), call) == Err::<
                (DerefPattern, int),
                Span,
            >(e),
    {
        proof {
            reveal_strlit("mut");
        }
        let has_amp = mark_at_exec(toks, 0, '&');
        let i1: usize = if has_amp { 1 } else { 0 };
        let has_mut = has_amp && word_at_exec(toks, i1, "mut");
        let i2: usize = if has_mut { i1 + 1 } else { i1 };
        if !mark_at_exec(toks, i2, '*') {
            return Err(tk::report_span_at_exec(toks, i2, call));
        }
        let has_deref2 = has_amp && mark_at_exec(toks, i2 + 1, '*');
        let pat = DerefPattern {
            amp: if has_amp { Some(span_at_exec(toks, 0, call)) } else { None },
            mutability: if has_mut { Some(span_at_exec(toks, i1, call)) } else { None },
            deref1: span_at_exec(toks, i2, call),
            deref2: if has_deref2 { Some(span_at_exec(toks, i2 + 1, call)) } else { None },
        };
        Ok((pat, if has_deref2 { i2 + 2 } else { i2 + 1 }))
    }

    pub fn as_guard_op(&self, span: Span) -> (r: Vec<Tok>)
        ensures
            tk::toks_view(r@) == self.spec_guard_op(span),
    {
        let mut r: Vec<Tok> = Vec::new();
        match (self.amp, self.deref2) {
            (Some(a), Some(d2)) => {
                r.push(make_mark('&', a));
                r.push(make_mark('*', d2));
                r.push(make_mark('*', self.deref1));
            },
            (Some(a), None) => {
                r.push(make_mark('&', a));
                r.push(make_mark('*', self.deref1));
                r.push(make_mark('*', span));
            },
            (None, _) => {
                r.push(make_mark('&', span));
                r.push(make_mark('*', self.deref1));
            },
        }
        assert(tk::toks_view(r@) =~= self.spec_guard_op(span));
        r
    }

    pub fn as_body_op(&self) -> (r: Vec<Tok>)
        ensures
            tk::toks_view(r@) == self.spec_body_op(),
            tk::spellings(tk::toks_view(r@)) == self.spec_body_spelling(),
    {
        proof {
            reveal_strlit("mut");
        }
        let mut r: Vec<Tok> = Vec::new();
        if let Some(a) = self.amp {
            r.push(make_mark('&', a));
        }
        if let Some(m) = self.mutability {
            r.push(make_word("mut", m));
        }
        r.push(make_mark('*', self.deref1));
        if let Some(d) = self.deref2 {
            r.push(make_mark('*', d));
        }
        assert(tk::toks_view(r@) =~= self.spec_body_op());
        assert(tk::spellings(tk::toks_view(r@)) =~= self.spec_body_spelling());
        r
    }
}

} // verus!
