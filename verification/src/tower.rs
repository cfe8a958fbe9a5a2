//! The nest of `if let` tests that destructures, one binding after another,
//! what the deref macros of a pattern stood for.
use vstd::prelude::*;
use crate::token::{self as tk, Delim, Tok, TokS, clone_tok, clone_toks, extend_toks, extend_toks_owned, make_mark, make_word};
use crate::fold::{self, Bind, BindS, MacroKind};
use crate::deref;
use crate::keyword;

verus! {

/// The operator applied to a binding's identifier: in a match guard, where
/// bindings are references, the guard's operator; in the arm's body, the
/// operator that the macro names.
pub open spec fn op_for(kind: MacroKind, span: proc_macro2::Span, in_guard: bool) -> Seq<TokS> {
    match kind {
        MacroKind::Sigil(p) => if in_guard {
            p.spec_guard_op(span)
        } else {
            p.spec_body_op()
        },
        MacroKind::Keyword(t) => if in_guard {
            t.spec_add_ref().spec_op(span)
        } else {
            t.spec_op(span)
        },
    }
}

/// `if let PAT = OP ID { out } else { no }`, spanned at the macro's name.
pub open spec fn if_let(b: BindS, out: Seq<TokS>, no: Seq<TokS>, in_guard: bool) -> Seq<TokS> {
    seq![tk::word("if"@, b.span), tk::word("let"@, b.span)] + b.pat + seq![tk::mark('=', b.span)]
        + op_for(b.kind, b.span, in_guard) + seq![
        TokS::Word(b.id),
        TokS::Group(Delim::Brace, b.span, b.span, out),
        tk::word("else"@, b.span),
        TokS::Group(Delim::Brace, b.span, b.span, no),
    ]
}

/// `yes` inside one `if let` per binding, the last binding outermost, with `no`
/// in every `else`.
pub open spec fn spec_tower(binds: Seq<BindS>, yes: Seq<TokS>, no: Seq<TokS>, in_guard: bool) -> Seq<TokS>
    decreases binds.len(),
{
    if binds.len() == 0 {
        yes
    } else {
        if_let(binds.last(), spec_tower(binds.drop_last(), yes, no, in_guard), no, in_guard)
    }
}

pub fn op_tokens(kind: MacroKind, span: proc_macro2::Span, in_guard: bool) -> (r: Vec<Tok>)
    ensures
        tk::toks_view(r@) == op_for(kind, span, in_guard),
{
    match kind {
        MacroKind::Sigil(p) => if in_guard {
            p.as_guard_op(span)
        } else {
            p.as_body_op()
        },
        MacroKind::Keyword(t) => if in_guard {
            t.add_ref().as_op(span)
        } else {
            t.as_op(span)
        },
    }
}

pub fn if_let_tokens(b: &Bind, out: Vec<Tok>, no: &Vec<Tok>, in_guard: bool) -> (r: Vec<Tok>)
    ensures
        tk::toks_view(r@) == if_let(fold::bind_view(*b), tk::toks_view(out@), tk::toks_view(no@), in_guard),
{
    proof {
        reveal_strlit("if");
        reveal_strlit("let");
        reveal_strlit("else");
    }
    let ghost bv = fold::bind_view(*b);
    let ghost ov = tk::toks_view(out@);
    let mut r: Vec<Tok> = Vec::new();
    r.push(make_word("if", b.span));
    r.push(make_word("let", b.span));
    assert(tk::toks_view(r@) =~= seq![tk::word("if"@, b.span), tk::word("let"@, b.span)]);
    extend_toks(&mut r, &b.pat);
    r.push(make_mark('=', b.span));
    let ghost p1 = seq![tk::word("if"@, b.span), tk::word("let"@, b.span)] + bv.pat + seq![tk::mark('=', b.span)];
    assert(tk::toks_view(r@) =~= p1);
    let op = op_tokens(b.kind, b.span, in_guard);
    extend_toks_owned(&mut r, op);
    let ghost p2 = p1 + op_for(b.kind, b.span, in_guard);
    assert(tk::toks_view(r@) =~= p2);
    r.push(Tok::Word(b.id.clone()));
    let g = Tok::Group(Delim::Brace, b.span, b.span, out);
    proof {
        tk::lemma_group_view(Delim::Brace, b.span, b.span, out);
    }
    r.push(g);
    r.push(make_word("else", b.span));
    let n = clone_toks(no);
    let h = Tok::Group(Delim::Brace, b.span, b.span, n);
    proof {
        tk::lemma_group_view(Delim::Brace, b.span, b.span, n);
    }
    r.push(h);
    assert(tk::toks_view(r@) =~= if_let(fold::bind_view(*b), ov, tk::toks_view(no@), in_guard));
    r
}

/// Builds `spec_tower`.
pub fn tower(binds: &Vec<Bind>, yes: Vec<Tok>, no: &Vec<Tok>, in_guard: bool) -> (r: Vec<Tok>)
    ensures
        tk::toks_view(r@) == spec_tower(
            fold::binds_view(binds@),
            tk::toks_view(yes@),
            tk::toks_view(no@),
            in_guard,
        ),
{
    let ghost bv = fold::binds_view(binds@);
    let ghost yv = tk::toks_view(yes@);
    let ghost nv = tk::toks_view(no@);
    let mut out = yes;
    let mut j: usize = 0;
    assert(bv.take(0) =~= Seq::<BindS>::empty());
    while j < binds.len()
        invariant
            j <= binds.len(),
            bv == fold::binds_view(binds@),
            nv == tk::toks_view(no@),
            tk::toks_view(out@) == spec_tower(bv.take(j as int), yv, nv, in_guard),
        decreases binds.len() - j,
    {
        out = if_let_tokens(&binds[j], out, no, in_guard);
        proof {
            assert(bv.take(j + 1).drop_last() =~= bv.take(j as int));
            assert(bv.take(j + 1).last() == fold::bind_view(binds@[j as int]));
        }
        j = j + 1;
    }
    assert(bv.take(j as int) =~= bv);
    out
}

} // verus!
