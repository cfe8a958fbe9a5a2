//! Properties of the rewrite that hold for every input.
use vstd::prelude::*;
use crate::token::{self as tk, Delim, TokS};
use crate::fold::{self, Bind, BindS, MacroKind, Site, Syntax};
use crate::tower;
use crate::deref::DerefPattern;
use crate::keyword::Type;
use crate::expand::{self, ArmS};

verus! {

/// Some token of `s` or of a group within it is the name of a deref macro
/// followed by `!`.
pub open spec fn mentions_deref_macro(s: Seq<TokS>, syntax: Syntax) -> bool
    decreases s,
{
    exists|i: int|
        0 <= i < s.len() && {
            ||| (#[trigger] s[i] matches TokS::Word(w) && fold::names_deref_macro(syntax, tk::ident_text(w))
                && tk::mark_at(s, i + 1, '!'))
            ||| (s[i] matches TokS::Group(_, _, _, inner) && mentions_deref_macro(inner, syntax))
        }
}

proof fn lemma_rw_at_unchanged(
    s: Seq<TokS>,
    i: int,
    colon: bool,
    after_path_sep: bool,
    b: Seq<BindS>,
    syntax: Syntax,
    site: Site,
)
    requires
        0 <= i <= s.len(),
        !mentions_deref_macro(s, syntax),
    ensures
        fold::rw_at(s, i, colon, after_path_sep, b, syntax, site) == (s.subrange(i, s.len() as int), b),
    decreases s, s.len() - i,
{
    if i == s.len() {
        assert(s.subrange(i, s.len() as int) =~= Seq::<TokS>::empty());
    } else if fold::is_macro_at(s, i) {
        if let (TokS::Word(name), TokS::Group(_, _, _, inner)) = (s[i], s[i + 2]) {
            assert(!fold::names_deref_macro(syntax, tk::ident_text(name)));
        }
        lemma_rw_at_unchanged(s, i + 3, false, false, b, syntax, site);
        assert(s.subrange(i, i + 3) + s.subrange(i + 3, s.len() as int) =~= s.subrange(i, s.len() as int));
    } else if fold::opaque_end(s, i) > i {
        let e = fold::opaque_end(s, i);
        fold::lemma_opaque_end(s, i);
        lemma_rw_at_unchanged(s, e, false, false, b, syntax, site);
        assert(s.subrange(i, e) + s.subrange(e, s.len() as int) =~= s.subrange(i, s.len() as int));
    } else {
        match s[i] {
            TokS::Group(d, sp, o, inner) => {
                assert(!mentions_deref_macro(inner, syntax));
                lemma_rw_at_unchanged(inner, 0, false, false, b, syntax, site);
                assert(inner.subrange(0, inner.len() as int) =~= inner);
                lemma_rw_at_unchanged(s, i + 1, false, false, b, syntax, site);
            },
            TokS::Mark(p) => {
                let is_colon = tk::punct_char(p) == ':';
                lemma_rw_at_unchanged(s, i + 1, is_colon && tk::punct_joint(p), is_colon && colon, b, syntax, site);
            },
            _ => {
                lemma_rw_at_unchanged(s, i + 1, false, false, b, syntax, site);
            },
        }
        assert(seq![s[i]] + s.subrange(i + 1, s.len() as int) =~= s.subrange(i, s.len() as int));
    }
}

/// A pattern in which no deref macro's name is followed by `!` is left exactly
/// as it was, and binds nothing; so its arm is printed unchanged, without an
/// added guard.
pub proof fn law_arm_without_deref_macros_is_unchanged(a: ArmS, syntax: Syntax, site: Site)
    requires
        !mentions_deref_macro(a.pat, syntax),
    ensures
        fold::rewrite(a.pat, syntax, site) == (a.pat, Seq::<BindS>::empty()),
        expand::spec_rewrite_arm(a, syntax, site) == a.attrs + a.pat + expand::guard_tokens(a.guard)
            + a.arrow + a.body + a.comma,
{
    lemma_rw_at_unchanged(a.pat, 0, false, false, Seq::empty(), syntax, site);
    assert(a.pat.subrange(0, a.pat.len() as int) =~= a.pat);
}

/// `r` keeps the bindings `b` found before as its first ones, and numbers the
/// bindings it adds on from `b.len()`.
pub open spec fn numbered_from(r: Seq<BindS>, b: Seq<BindS>, site: Site) -> bool {
    &&& b.len() <= r.len()
    &&& r.subrange(0, b.len() as int) == b
    &&& forall|k: int| b.len() <= k < r.len() ==> #[trigger] r[k].id == fold::fresh_ident(k as nat, r[k].pat, site)
}

proof fn lemma_numbered_trans(r: Seq<BindS>, m: Seq<BindS>, b: Seq<BindS>, site: Site)
    requires
        numbered_from(m, b, site),
        numbered_from(r, m, site),
    ensures
        numbered_from(r, b, site),
{
    assert(r.subrange(0, b.len() as int) =~= m.subrange(0, b.len() as int));
    assert forall|k: int| b.len() <= k < r.len() implies #[trigger] r[k].id == fold::fresh_ident(k as nat, r[k].pat, site) by {
        if k < m.len() {
            assert(r[k] == r.subrange(0, m.len() as int)[k]);
        }
    }
}

proof fn lemma_numbered_refl(b: Seq<BindS>, site: Site)
    ensures
        numbered_from(b, b, site),
{
    assert(b.subrange(0, b.len() as int) =~= b);
}

proof fn lemma_expand_numbered(name: proc_macro2::Ident, inner: Seq<TokS>, b: Seq<BindS>, syntax: Syntax, site: Site)
    ensures
        numbered_from(fold::expand(name, inner, b, syntax, site).1, b, site),
    decreases inner, inner.len() + 1,
{
    match fold::macro_start(syntax, tk::ident_text(name), inner, site.call) {
        Err(_) => {
            lemma_numbered_refl(b, site);
        },
        Ok((kind, k)) => {
            let p = if fold::keeps_inner(syntax, inner) {
                (inner, b)
            } else {
                fold::rw_at(inner, k, false, false, b, syntax, site)
            };
            if fold::keeps_inner(syntax, inner) {
                lemma_numbered_refl(b, site);
            } else {
                lemma_rw_at_numbered(inner, k, false, false, b, syntax, site);
            }
            let id = fold::fresh_ident(p.1.len(), p.0, site);
            let r = p.1.push(BindS { id, kind, pat: p.0, span: tk::ident_span(name) });
            assert(numbered_from(r, p.1, site)) by {
                assert(r.subrange(0, p.1.len() as int) =~= p.1);
            }
            lemma_numbered_trans(r, p.1, b, site);
        },
    }
}

proof fn lemma_rw_at_numbered(
    s: Seq<TokS>,
    i: int,
    colon: bool,
    after_path_sep: bool,
    b: Seq<BindS>,
    syntax: Syntax,
    site: Site,
)
    ensures
        numbered_from(fold::rw_at(s, i, colon, after_path_sep, b, syntax, site).1, b, site),
    decreases s, s.len() - i,
{
    if i < 0 || i >= s.len() {
        lemma_numbered_refl(b, site);
    } else if fold::is_macro_at(s, i) {
        match (s[i], s[i + 2]) {
            (TokS::Word(name), TokS::Group(_, _, _, inner)) => {
                if !after_path_sep && fold::names_deref_macro(syntax, tk::ident_text(name)) {
                    let e = fold::expand(name, inner, b, syntax, site);
                    lemma_expand_numbered(name, inner, b, syntax, site);
                    lemma_rw_at_numbered(s, i + 3, false, false, e.1, syntax, site);
                    lemma_numbered_trans(fold::rw_at(s, i + 3, false, false, e.1, syntax, site).1, e.1, b, site);
                } else {
                    lemma_rw_at_numbered(s, i + 3, false, false, b, syntax, site);
                }
            },
            _ => {
                lemma_numbered_refl(b, site);
            },
        }
    } else if fold::opaque_end(s, i) > i {
        fold::lemma_opaque_end(s, i);
        lemma_rw_at_numbered(s, fold::opaque_end(s, i), false, false, b, syntax, site);
    } else {
        match s[i] {
            TokS::Group(_, _, _, inner) => {
                let g = fold::rw_at(inner, 0, false, false, b, syntax, site);
                lemma_rw_at_numbered(inner, 0, false, false, b, syntax, site);
                lemma_rw_at_numbered(s, i + 1, false, false, g.1, syntax, site);
                lemma_numbered_trans(fold::rw_at(s, i + 1, false, false, g.1, syntax, site).1, g.1, b, site);
            },
            TokS::Mark(p) => {
                let is_colon = tk::punct_char(p) == ':';
                lemma_rw_at_numbered(s, i + 1, is_colon && tk::punct_joint(p), is_colon && colon, b, syntax, site);
            },
            _ => {
                lemma_rw_at_numbered(s, i + 1, false, false, b, syntax, site);
            },
        }
    }
}

/// In every arm the fresh identifiers are `a0`, `a1`, ... in the order in which
/// their macros close (an inner macro before the one around it), numbered from
/// 0 again in each arm; each sits at the location of its inner pattern with the
/// hygiene of the macro's mixed site, so that it neither captures nor shadows
/// a name of the user's.
pub proof fn law_fresh_identifiers(pat: Seq<TokS>, syntax: Syntax, site: Site)
    ensures
        forall|k: int|
            0 <= k < fold::rewrite(pat, syntax, site).1.len() ==> {
                let b = #[trigger] fold::rewrite(pat, syntax, site).1[k];
                b.id == tk::ident_new(
                    fold::fresh_name(k as nat),
                    tk::resolved_at(tk::tokens_span(b.pat, site.call), site.mixed),
                )
            },
{
    lemma_rw_at_numbered(pat, 0, false, false, Seq::empty(), syntax, site);
}

/// `t` is a `&` token.
pub open spec fn is_amp(t: TokS) -> bool {
    exists|sp: proc_macro2::Span| t == #[trigger] tk::mark('&', sp)
}

/// `t` is a `*` token.
pub open spec fn is_star(t: TokS) -> bool {
    exists|sp: proc_macro2::Span| t == #[trigger] tk::mark('*', sp)
}

/// A match guard only ever borrows immutably: the operator applied to a
/// binding in the guard starts with `&` and is made of `&` and `*` alone (no
/// `mut`), whatever the macro asked for, since a guard may not borrow mutably
/// what it matches.
pub proof fn law_guard_borrows_immutably(kind: MacroKind, span: proc_macro2::Span)
    ensures
        tower::op_for(kind, span, true).len() > 0,
        is_amp(tower::op_for(kind, span, true)[0]),
        forall|j: int|
            0 <= j < tower::op_for(kind, span, true).len() ==> is_amp(#[trigger] tower::op_for(kind, span, true)[j])
                || is_star(tower::op_for(kind, span, true)[j]),
{
    let op = tower::op_for(kind, span, true);
    assert forall|j: int| 0 <= j < op.len() implies is_amp(#[trigger] op[j]) || is_star(op[j]) by {
        match kind {
            MacroKind::Sigil(p) => match (p.amp, p.deref2) {
                (Some(a), Some(d2)) => {
                    if j == 0 { assert(op[j] == tk::mark('&', a)); }
                    else if j == 1 { assert(op[j] == tk::mark('*', d2)); }
                    else { assert(op[j] == tk::mark('*', p.deref1)); }
                },
                (Some(a), None) => {
                    if j == 0 { assert(op[j] == tk::mark('&', a)); }
                    else if j == 1 { assert(op[j] == tk::mark('*', p.deref1)); }
                    else { assert(op[j] == tk::mark('*', span)); }
                },
                (None, _) => {
                    if j == 0 { assert(op[j] == tk::mark('&', span)); }
                    else { assert(op[j] == tk::mark('*', p.deref1)); }
                },
            },
            MacroKind::Keyword(t) => {
                if j == 0 { assert(op[j] == tk::mark('&', span)); }
                else { assert(op[j] == tk::mark('*', span)); }
            },
        }
    }
    match kind {
        MacroKind::Sigil(p) => match (p.amp, p.deref2) {
            (Some(a), _) => { assert(op[0] == tk::mark('&', a)); },
            (None, _) => { assert(op[0] == tk::mark('&', span)); },
        },
        MacroKind::Keyword(t) => { assert(op[0] == tk::mark('&', span)); },
    }
}

/// Every arm in which a deref macro was taken is guarded: its rewritten
/// pattern is followed by `if`, so that the compiler leaves it out of its
/// exhaustiveness check and never counts it as covering a case.
pub proof fn law_bound_arms_are_guarded(a: ArmS, syntax: Syntax, site: Site)
    requires
        fold::rewrite(a.pat, syntax, site).1.len() > 0,
    ensures
        ({
            let out = expand::spec_rewrite_arm(a, syntax, site);
            let n = a.attrs.len() + fold::rewrite(a.pat, syntax, site).0.len();
            out[n as int] == tk::word("if"@, tk::tokens_span(a.pat, site.call))
        }),
{
    let (pat, binds) = fold::rewrite(a.pat, syntax, site);
    let n = a.attrs.len() + pat.len();
    let out = expand::spec_rewrite_arm(a, syntax, site);
    assert(out[n as int] == (a.attrs + pat + seq![tk::word("if"@, tk::tokens_span(a.pat, site.call))])[n as int]);
}

proof fn lemma_decimal_len(n: nat)
    ensures
        decimal_len_ok(n),
    decreases n,
{
    if n >= 10 {
        lemma_decimal_len(n / 10);
    }
}

spec fn decimal_len_ok(n: nat) -> bool {
    &&& fold::decimal(n).len() >= 1
    &&& (n < 10 <==> fold::decimal(n).len() == 1)
}

proof fn lemma_decimal_injective(a: nat, b: nat)
    requires
        fold::decimal(a) == fold::decimal(b),
    ensures
        a == b,
    decreases a,
{
    lemma_decimal_len(a);
    lemma_decimal_len(b);
    if a < 10 && b < 10 {
        assert(fold::decimal(a) == seq![fold::digit(a)]);
        assert(fold::decimal(b) == seq![fold::digit(b)]);
        assert(seq![fold::digit(a)][0] == fold::digit(a));
        assert(seq![fold::digit(b)][0] == fold::digit(b));
        lemma_digit_injective(a, b);
    } else if a >= 10 && b >= 10 {
        let da = fold::decimal(a);
        let db = fold::decimal(b);
        assert(da.last() == db.last());
        assert(da.drop_last() =~= fold::decimal(a / 10));
        assert(db.drop_last() =~= fold::decimal(b / 10));
        lemma_decimal_injective(a / 10, b / 10);
        lemma_digit_injective(a % 10, b % 10);
        assert(a == 10 * (a / 10) + a % 10);
        assert(b == 10 * (b / 10) + b % 10);
    }
}

proof fn lemma_digit_injective(a: nat, b: nat)
    requires
        a < 10,
        b < 10,
        fold::digit(a) == fold::digit(b),
    ensures
        a == b,
{
}

/// The fresh names `a0`, `a1`, ... are pairwise different: different numbers
/// are written differently.
pub proof fn law_fresh_names_distinct(j: nat, k: nat)
    requires
        j != k,
    ensures
        fold::fresh_name(j) != fold::fresh_name(k),
{
    if fold::fresh_name(j) == fold::fresh_name(k) {
        assert(fold::fresh_name(j).drop_first() =~= fold::decimal(j));
        assert(fold::fresh_name(k).drop_first() =~= fold::decimal(k));
        lemma_decimal_injective(j, k);
    }
}

/// The identifiers of an arm's bindings are pairwise distinct: `rewrite_from`
/// keeps each binding's identifier spelling its own fresh name (starting from
/// no binding, as every arm does), and identifiers that spell differently
/// differ.
pub proof fn law_fresh_ids_distinct(b: Seq<Bind>, j: int, k: int)
    requires
        fold::spelled_fresh(b),
        0 <= j < b.len(),
        0 <= k < b.len(),
        j != k,
    ensures
        b[j].id != b[k].id,
{
    assert(tk::ident_text(b[j].id) == fold::fresh_name(j as nat));
    assert(tk::ident_text(b[k].id) == fold::fresh_name(k as nat));
    law_fresh_names_distinct(j as nat, k as nat);
}

/// `if let PAT = OP ID { out } else { no }` for the binding `b`, with the
/// operator `op`.
pub open spec fn test_of(b: BindS, op: Seq<TokS>, out: Seq<TokS>, no: Seq<TokS>) -> Seq<TokS> {
    seq![tk::word("if"@, b.span), tk::word("let"@, b.span)] + b.pat + seq![tk::mark('=', b.span)] + op
        + seq![
        TokS::Word(b.id),
        TokS::Group(Delim::Brace, b.span, b.span, out),
        tk::word("else"@, b.span),
        TokS::Group(Delim::Brace, b.span, b.span, no),
    ]
}

/// `yes` inside one test per binding, the last binding outermost, each
/// binding tested with the operator `op` gives it and with `no` in every
/// `else`.
pub open spec fn nest(
    binds: Seq<BindS>,
    yes: Seq<TokS>,
    no: Seq<TokS>,
    op: spec_fn(BindS) -> Seq<TokS>,
) -> Seq<TokS>
    decreases binds.len(),
{
    if binds.len() == 0 {
        yes
    } else {
        test_of(binds.last(), op(binds.last()), nest(binds.drop_last(), yes, no, op), no)
    }
}

proof fn lemma_tower_is_nest(binds: Seq<BindS>, yes: Seq<TokS>, no: Seq<TokS>, in_guard: bool)
    ensures
        tower::spec_tower(binds, yes, no, in_guard) == nest(
            binds,
            yes,
            no,
            |b: BindS| tower::op_for(b.kind, b.span, in_guard),
        ),
    decreases binds.len(),
{
    if binds.len() > 0 {
        lemma_tower_is_nest(binds.drop_last(), yes, no, in_guard);
    }
}

/// The guard and the body of a rewritten arm are the same nest of tests: one
/// per binding, in the same order, each matching the same pattern against the
/// same fresh identifier. They differ only in the operator applied to each
/// identifier (the guard's borrow or the macro's own operator), in what lies
/// innermost, and in the `else` branches.
pub proof fn law_guard_and_body_nests_agree(
    binds: Seq<BindS>,
    guard_yes: Seq<TokS>,
    guard_no: Seq<TokS>,
    body_yes: Seq<TokS>,
    body_no: Seq<TokS>,
)
    ensures
        tower::spec_tower(binds, guard_yes, guard_no, true) == nest(
            binds,
            guard_yes,
            guard_no,
            |b: BindS| tower::op_for(b.kind, b.span, true),
        ),
        tower::spec_tower(binds, body_yes, body_no, false) == nest(
            binds,
            body_yes,
            body_no,
            |b: BindS| tower::op_for(b.kind, b.span, false),
        ),
{
    lemma_tower_is_nest(binds, guard_yes, guard_no, true);
    lemma_tower_is_nest(binds, body_yes, body_no, false);
}

/// The keyword macro that asks for what the prefix `p` of `mb!` asks for:
/// `*` is `owned!`, `&*` is `deref!`, `&**` is `derefref!`, `&mut *` is
/// `mutderef!` and `&mut **` is `mutderefref!`.
pub open spec fn keyword_for(p: DerefPattern) -> Type {
    match (p.amp, p.mutability, p.deref2) {
        (None, _, _) => Type::Owned,
        (Some(_), None, None) => Type::Deref,
        (Some(_), None, Some(_)) => Type::DerefRef,
        (Some(_), Some(_), None) => Type::MutDeref,
        (Some(_), Some(_), Some(_)) => Type::MutDerefRef,
    }
}

/// Every token of the prefix `p` was read at `span`.
pub open spec fn all_at(p: DerefPattern, span: proc_macro2::Span) -> bool {
    &&& p.deref1 == span
    &&& (p.amp matches Some(a) ==> a == span)
    &&& (p.mutability matches Some(m) ==> m == span)
    &&& (p.deref2 matches Some(d) ==> d == span)
}

/// The two forms of the macro agree: a prefix of `mb!` gives, in the guard and
/// in the body, the operators of the keyword macro that asks for the same
/// thing. They are compared where all of the prefix's tokens share one span
/// (the keyword form spans all its operator at the macro's name, the `mb!` form
/// keeps each token's own span, so elsewhere they differ in spans alone).
pub proof fn law_sigil_and_keyword_operators_agree(p: DerefPattern, span: proc_macro2::Span)
    requires
        p.wf(),
        all_at(p, span),
    ensures
        p.spec_guard_op(span) == keyword_for(p).spec_add_ref().spec_op(span),
        p.spec_body_op() == keyword_for(p).spec_op(span),
{
    assert(p.spec_body_op() =~= keyword_for(p).spec_op(span));
}

/// The operator that an arm's body applies echoes the prefix of `mb!` as it
/// was read: where the prefix takes the first `k` tokens of `s`, the body's
/// operator (whose tokens read back as `spec_body_spelling`, see `as_body_op`)
/// reads back as those `k` tokens, character for character, word for word and
/// span for span.
pub proof fn law_body_op_echoes_prefix(s: Seq<TokS>, call: proc_macro2::Span)
    requires
        DerefPattern::spec_parse(s, call) is Ok,
    ensures
        ({
            let (p, k) = DerefPattern::spec_parse(s, call)->Ok_0;
            p.spec_body_spelling() == tk::spellings(s.subrange(0, k))
        }),
{
    reveal_strlit("mut");
    let (p, k) = DerefPattern::spec_parse(s, call)->Ok_0;
    assert(p.spec_body_spelling() =~= tk::spellings(s.subrange(0, k)));
}

/// Rewriting keeps the bindings found before it and numbers on from them:
/// whatever part of a pattern is rewritten after bindings `b` were found, the
/// bindings that come out start with `b` unchanged, and the `k`-th of those it
/// adds is `a{k}`, at its inner pattern's location with the mixed site's
/// hygiene.
pub proof fn law_rewrite_numbers_on(
    s: Seq<TokS>,
    i: int,
    colon: bool,
    after_path_sep: bool,
    b: Seq<BindS>,
    syntax: Syntax,
    site: Site,
)
    ensures
        numbered_from(fold::rw_at(s, i, colon, after_path_sep, b, syntax, site).1, b, site),
{
    lemma_rw_at_numbered(s, i, colon, after_path_sep, b, syntax, site);
}

/// Bindings are numbered in post-order. A deref macro taken at `s[i]` gets its
/// number after every deref macro inside its own pattern (those bindings come
/// first, its own is last), and before every deref macro that follows it:
/// all the bindings that the macro yields stand, in that order, before those
/// of the rest of `s`.
pub proof fn law_bindings_in_post_order(
    s: Seq<TokS>,
    i: int,
    colon: bool,
    after_path_sep: bool,
    b: Seq<BindS>,
    syntax: Syntax,
    site: Site,
)
    requires
        fold::is_macro_at(s, i),
        !after_path_sep,
        s[i] matches TokS::Word(name) && fold::names_deref_macro(syntax, tk::ident_text(name)),
    ensures
        ({
            let name = s[i]->Word_0;
            let inner = s[i + 2]->Group_3;
            let e = fold::expand(name, inner, b, syntax, site);
            let all = fold::rw_at(s, i, colon, after_path_sep, b, syntax, site).1;
            &&& numbered_from(all, e.1, site)
            &&& match fold::macro_start(syntax, tk::ident_text(name), inner, site.call) {
                Ok((kind, k)) => !fold::keeps_inner(syntax, inner) ==> {
                    let r = fold::rw_at(inner, k, false, false, b, syntax, site);
                    &&& numbered_from(r.1, b, site)
                    &&& e.1 == r.1.push(e.1.last())
                    &&& e.1.last().kind == kind
                },
                Err(_) => true,
            }
        }),
{
    let name = s[i]->Word_0;
    let inner = s[i + 2]->Group_3;
    let e = fold::expand(name, inner, b, syntax, site);
    lemma_rw_at_numbered(s, i + 3, false, false, e.1, syntax, site);
    if let Ok((kind, k)) = fold::macro_start(syntax, tk::ident_text(name), inner, site.call) {
        if !fold::keeps_inner(syntax, inner) {
            lemma_rw_at_numbered(inner, k, false, false, b, syntax, site);
        }
    }
}

/// `s[i]`, `s[i + 1]`, `s[i + 2]` invoke a deref macro: its name, `!`, and a
/// group.
pub open spec fn deref_call_at(s: Seq<TokS>, i: int, syntax: Syntax) -> bool {
    &&& fold::is_macro_at(s, i)
    &&& s[i] matches TokS::Word(w) && fold::names_deref_macro(syntax, tk::ident_text(w))
}

/// A deref macro is invoked in `s` or in a group within it.
pub open spec fn holds_deref_call(s: Seq<TokS>, syntax: Syntax) -> bool
    decreases s,
{
    exists|i: int|
        0 <= i < s.len() && {
            ||| deref_call_at(s, i, syntax)
            ||| (#[trigger] s[i] matches TokS::Group(_, _, _, inner) && holds_deref_call(inner, syntax))
        }
}

/// The rewrite of `s[i..]` takes every deref macro that it meets, and reads
/// each without error: none stands after `::`, within a run that is kept as
/// it is (another macro's invocation, a `const` block, an attribute, a `box`
/// pattern, angle brackets), or has contents that give an error.
pub open spec fn all_taken(s: Seq<TokS>, i: int, colon: bool, after_path_sep: bool, syntax: Syntax, call: proc_macro2::Span) -> bool
    decreases s, s.len() - i,
{
    if i < 0 || i >= s.len() {
        true
    } else if fold::is_macro_at(s, i) {
        match (s[i], s[i + 2]) {
            (TokS::Word(name), TokS::Group(_, _, _, inner)) => {
                if fold::names_deref_macro(syntax, tk::ident_text(name)) {
                    &&& !after_path_sep
                    &&& match fold::macro_start(syntax, tk::ident_text(name), inner, call) {
                        Ok((_, k)) => fold::keeps_inner(syntax, inner) || all_taken(inner, k, false, false, syntax, call),
                        Err(_) => false,
                    }
                    &&& all_taken(s, i + 3, false, false, syntax, call)
                } else {
                    !holds_deref_call(inner, syntax) && all_taken(s, i + 3, false, false, syntax, call)
                }
            },
            _ => true,
        }
    } else if fold::opaque_end(s, i) > i {
        let e = fold::opaque_end(s, i);
        proof {
            fold::lemma_opaque_end(s, i);
        }
        !holds_deref_call(s.subrange(i, e), syntax) && all_taken(s, e, false, false, syntax, call)
    } else {
        match s[i] {
            TokS::Group(_, _, _, inner) => all_taken(inner, 0, false, false, syntax, call) && all_taken(
                s,
                i + 1,
                false,
                false,
                syntax,
                call,
            ),
            TokS::Mark(p) => {
                let is_colon = tk::punct_char(p) == ':';
                all_taken(s, i + 1, is_colon && tk::punct_joint(p), is_colon && colon, syntax, call)
            },
            _ => all_taken(s, i + 1, false, false, syntax, call),
        }
    }
}

proof fn lemma_concat_no_call(x: Seq<TokS>, y: Seq<TokS>, syntax: Syntax)
    requires
        !holds_deref_call(x, syntax),
        !holds_deref_call(y, syntax),
        forall|j: int| x.len() - 2 <= j < x.len() && 0 <= j ==> !deref_call_at(#[trigger] (x + y), j, syntax),
    ensures
        !holds_deref_call(x + y, syntax),
{
    let z = x + y;
    assert forall|i: int| 0 <= i < z.len() implies !(deref_call_at(z, i, syntax) || (#[trigger] z[i] matches TokS::Group(
        _,
        _,
        _,
        inner,
    ) && holds_deref_call(inner, syntax))) by {
        if i < x.len() {
            assert(z[i] == x[i]);
            if i + 2 < x.len() {
                assert(z[i + 1] == x[i + 1]);
                assert(z[i + 2] == x[i + 2]);
                if deref_call_at(z, i, syntax) {
                    assert(deref_call_at(x, i, syntax));
                }
            }
            if x[i] is Group {
                assert(!(x[i] matches TokS::Group(_, _, _, inner) && holds_deref_call(inner, syntax)));
            }
        } else {
            let k = i - x.len();
            assert(z[i] == y[k]);
            if i + 2 < z.len() {
                assert(z[i + 1] == y[k + 1]);
                assert(z[i + 2] == y[k + 2]);
            }
            if deref_call_at(z, i, syntax) {
                assert(deref_call_at(y, k, syntax));
            }
            if y[k] is Group {
                assert(!(y[k] matches TokS::Group(_, _, _, inner) && holds_deref_call(inner, syntax)));
            }
        }
    }
}

proof fn lemma_box_end_stops(s: Seq<TokS>, j: int, depth: nat)
    requires
        0 <= j <= s.len(),
    ensures
        fold::box_end(s, j, depth) == s.len() || tk::mark_at(s, fold::box_end(s, j, depth), ',') || tk::mark_at(
            s,
            fold::box_end(s, j, depth),
            '|',
        ),
    decreases s.len() - j,
{
    if j < s.len() {
        if tk::mark_at(s, j, '<') {
            lemma_box_end_stops(s, j + 1, depth + 1);
        } else if tk::mark_at(s, j, '>') && !fold::is_joint_dash(s, j - 1) && depth > 0 {
            lemma_box_end_stops(s, j + 1, (depth - 1) as nat);
        } else if !(depth == 0 && (tk::mark_at(s, j, ',') || tk::mark_at(s, j, '|'))) {
            lemma_box_end_stops(s, j + 1, depth);
        }
    }
}

proof fn lemma_angle_end_stops(s: Seq<TokS>, j: int, depth: nat)
    requires
        0 <= j <= s.len(),
    ensures
        fold::angle_end(s, j, depth) == s.len() || (j < fold::angle_end(s, j, depth) && tk::mark_at(
            s,
            fold::angle_end(s, j, depth) - 1,
            '>',
        )),
    decreases s.len() - j,
{
    if j < s.len() {
        if tk::mark_at(s, j, '<') {
            lemma_angle_end_stops(s, j + 1, depth + 1);
        } else if tk::mark_at(s, j, '>') && !fold::is_joint_dash(s, j - 1) {
            if depth > 1 {
                lemma_angle_end_stops(s, j + 1, (depth - 1) as nat);
            }
        } else {
            lemma_angle_end_stops(s, j + 1, depth);
        }
    }
}

/// How a run kept as it is ends: at the end of `s`, or with a token that is
/// neither an identifier nor `!`, or just before a `,` or `|`.
proof fn lemma_opaque_shape(s: Seq<TokS>, i: int)
    requires
        0 <= i < s.len(),
        fold::opaque_end(s, i) > i,
    ensures
        ({
            let e = fold::opaque_end(s, i);
            ||| e == s.len()
            ||| (!(s[e - 1] is Word) && !tk::mark_at(s, e - 1, '!'))
            ||| tk::mark_at(s, e, ',')
            ||| tk::mark_at(s, e, '|')
        }),
{
    fold::lemma_opaque_end(s, i);
    lemma_box_end_stops(s, i + 1, 0);
    lemma_angle_end_stops(s, i + 1, 1);
}

/// The bindings of `r` from `from` on have identifiers that name no deref
/// macro.
pub open spec fn fresh_not_deref(r: Seq<BindS>, from: int, syntax: Syntax) -> bool {
    forall|k: int| from <= k < r.len() ==> !fold::names_deref_macro(syntax, tk::ident_text(#[trigger] r[k].id))
}

proof fn lemma_first_token(
    s: Seq<TokS>,
    j: int,
    colon: bool,
    after_path_sep: bool,
    b: Seq<BindS>,
    syntax: Syntax,
    site: Site,
)
    requires
        0 <= j < s.len(),
        all_taken(s, j, colon, after_path_sep, syntax, site.call),
    ensures
        ({
            let o = fold::rw_at(s, j, colon, after_path_sep, b, syntax, site).0;
            &&& o.len() > 0
            &&& (o[0] is Group <==> s[j] is Group)
            &&& (o[0] is Mark ==> o[0] == s[j])
            &&& (s[j] is Mark ==> o[0] == s[j])
        }),
{
    if fold::is_macro_at(s, j) {
        if let (TokS::Word(name), TokS::Group(_, _, _, inner)) = (s[j], s[j + 2]) {
            if !after_path_sep && fold::names_deref_macro(syntax, tk::ident_text(name)) {
                let e = fold::expand(name, inner, b, syntax, site);
                assert(e.0.len() == 1 && e.0[0] is Word);
            }
        }
    } else if fold::opaque_end(s, j) > j {
        fold::lemma_opaque_end(s, j);
    }
}

proof fn lemma_no_call_left(
    s: Seq<TokS>,
    i: int,
    colon: bool,
    after_path_sep: bool,
    b: Seq<BindS>,
    syntax: Syntax,
    site: Site,
)
    requires
        0 <= i <= s.len(),
        all_taken(s, i, colon, after_path_sep, syntax, site.call),
        fresh_not_deref(fold::rw_at(s, i, colon, after_path_sep, b, syntax, site).1, b.len() as int, syntax),
    ensures
        !holds_deref_call(fold::rw_at(s, i, colon, after_path_sep, b, syntax, site).0, syntax),
    decreases s, s.len() - i,
{
    let out = fold::rw_at(s, i, colon, after_path_sep, b, syntax, site);
    if i == s.len() {
        assert(out.0 =~= Seq::<TokS>::empty());
    } else if fold::is_macro_at(s, i) {
        let name = s[i]->Word_0;
        let inner = s[i + 2]->Group_3;
        if fold::names_deref_macro(syntax, tk::ident_text(name)) {
            let e = fold::expand(name, inner, b, syntax, site);
            let r = fold::rw_at(s, i + 3, false, false, e.1, syntax, site);
            lemma_expand_numbered(name, inner, b, syntax, site);
            lemma_rw_at_numbered(s, i + 3, false, false, e.1, syntax, site);
            assert(out == (e.0 + r.0, r.1));
            assert(e.1.len() > b.len()) by {
                if let Ok((kind, k)) = fold::macro_start(syntax, tk::ident_text(name), inner, site.call) {
                    if !fold::keeps_inner(syntax, inner) {
                        lemma_rw_at_numbered(inner, k, false, false, b, syntax, site);
                    }
                }
            }
            let n = e.1.len() - 1;
            assert(e.1[n] == r.1.subrange(0, e.1.len() as int)[n]);
            assert(!fold::names_deref_macro(syntax, tk::ident_text(r.1[n].id)));
            assert(e.0 == seq![TokS::Word(e.1[n].id)]);
            lemma_no_call_left(s, i + 3, false, false, e.1, syntax, site);
            lemma_concat_no_call(e.0, r.0, syntax);
        } else {
            let r = fold::rw_at(s, i + 3, false, false, b, syntax, site);
            let x = s.subrange(i, i + 3);
            assert(out == (x + r.0, r.1));
            lemma_no_call_left(s, i + 3, false, false, b, syntax, site);
            assert(!deref_call_at(x, 0, syntax));
            assert(x[2] == s[i + 2]);
            lemma_concat_no_call(x, r.0, syntax);
        }
    } else if fold::opaque_end(s, i) > i {
        let e = fold::opaque_end(s, i);
        fold::lemma_opaque_end(s, i);
        lemma_opaque_shape(s, i);
        let r = fold::rw_at(s, e, false, false, b, syntax, site);
        let x = s.subrange(i, e);
        assert(out == (x + r.0, r.1));
        lemma_no_call_left(s, e, false, false, b, syntax, site);
        if e < s.len() {
            lemma_first_token(s, e, false, false, b, syntax, site);
        }
        assert forall|j: int| x.len() - 2 <= j < x.len() && 0 <= j implies !deref_call_at(#[trigger] (x + r.0), j, syntax) by {
            let z = x + r.0;
            if deref_call_at(z, j, syntax) {
                if j == x.len() - 1 {
                    assert(z[j] == s[e - 1]);
                    assert(z[j + 1] == r.0[0]);
                } else {
                    assert(z[j + 1] == s[e - 1]);
                    assert(z[j + 2] == r.0[0]);
                }
            }
        }
        lemma_concat_no_call(x, r.0, syntax);
    } else {
        match s[i] {
            TokS::Group(d, sp, o, inner) => {
                let g = fold::rw_at(inner, 0, false, false, b, syntax, site);
                let r = fold::rw_at(s, i + 1, false, false, g.1, syntax, site);
                lemma_rw_at_numbered(inner, 0, false, false, b, syntax, site);
                lemma_rw_at_numbered(s, i + 1, false, false, g.1, syntax, site);
                assert(out == (seq![TokS::Group(d, sp, o, g.0)] + r.0, r.1));
                assert forall|k: int| b.len() <= k < g.1.len() implies !fold::names_deref_macro(
                    syntax,
                    tk::ident_text(#[trigger] g.1[k].id),
                ) by {
                    assert(g.1[k] == r.1.subrange(0, g.1.len() as int)[k]);
                    assert(!fold::names_deref_macro(syntax, tk::ident_text(r.1[k].id)));
                }
                lemma_no_call_left(inner, 0, false, false, b, syntax, site);
                lemma_no_call_left(s, i + 1, false, false, g.1, syntax, site);
                let x = seq![TokS::Group(d, sp, o, g.0)];
                assert(!holds_deref_call(x, syntax)) by {
                    assert forall|j: int| 0 <= j < x.len() implies !(deref_call_at(x, j, syntax) || (#[trigger] x[j] matches TokS::Group(
                        _,
                        _,
                        _,
                        inner2,
                    ) && holds_deref_call(inner2, syntax))) by {
                        assert(x[j] == TokS::Group(d, sp, o, g.0));
                    }
                }
                lemma_concat_no_call(x, r.0, syntax);
            },
            TokS::Mark(p) => {
                let is_colon = tk::punct_char(p) == ':';
                let c2 = is_colon && tk::punct_joint(p);
                let a2 = is_colon && colon;
                let r = fold::rw_at(s, i + 1, c2, a2, b, syntax, site);
                assert(out == (seq![s[i]] + r.0, r.1));
                lemma_no_call_left(s, i + 1, c2, a2, b, syntax, site);
                let x = seq![s[i]];
                assert(!holds_deref_call(x, syntax)) by {
                    assert forall|j: int| 0 <= j < x.len() implies !(deref_call_at(x, j, syntax) || (#[trigger] x[j] matches TokS::Group(
                        _,
                        _,
                        _,
                        inner2,
                    ) && holds_deref_call(inner2, syntax))) by {
                        assert(x[j] == s[i]);
                    }
                }
                lemma_concat_no_call(x, r.0, syntax);
            },
            _ => {
                let r = fold::rw_at(s, i + 1, false, false, b, syntax, site);
                assert(out == (seq![s[i]] + r.0, r.1));
                lemma_no_call_left(s, i + 1, false, false, b, syntax, site);
                let x = seq![s[i]];
                assert(!holds_deref_call(x, syntax)) by {
                    assert forall|j: int| 0 <= j < x.len() implies !(deref_call_at(x, j, syntax) || (#[trigger] x[j] matches TokS::Group(
                        _,
                        _,
                        _,
                        inner2,
                    ) && holds_deref_call(inner2, syntax))) by {
                        assert(x[j] == s[i]);
                    }
                }
                if i + 1 < s.len() {
                    lemma_first_token(s, i + 1, false, false, b, syntax, site);
                    if tk::mark_at(s, i + 1, '!') {
                        let p1 = s[i + 1]->Mark_0;
                        let is_colon = tk::punct_char(p1) == ':';
                        let c2 = is_colon && tk::punct_joint(p1);
                        let a2 = is_colon && false;
                        let rr = fold::rw_at(s, i + 2, c2, a2, b, syntax, site);
                        assert(all_taken(s, i + 1, false, false, syntax, site.call));
                        assert(!fold::is_macro_at(s, i + 1));
                        assert(fold::opaque_end(s, i + 1) == i + 1);
                        assert(!is_colon);
                        assert(r.0 == seq![s[i + 1]] + rr.0);
                        if i + 2 < s.len() {
                            assert(all_taken(s, i + 2, c2, a2, syntax, site.call));
                            lemma_first_token(s, i + 2, c2, a2, b, syntax, site);
                        }
                    }
                }
                assert forall|j: int| x.len() - 2 <= j < x.len() && 0 <= j implies !deref_call_at(#[trigger] (x + r.0), j, syntax) by {
                    let z = x + r.0;
                    if deref_call_at(z, j, syntax) {
                        assert(j == 0);
                        assert(z[1] == r.0[0]);
                        assert(z[2] == r.0[1]);
                    }
                }
                lemma_concat_no_call(x, r.0, syntax);
            },
        }
    }
}

proof fn lemma_fresh_name_names_no_macro(k: nat, syntax: Syntax)
    ensures
        !fold::names_deref_macro(syntax, fold::fresh_name(k)),
{
    reveal_strlit("mb");
    reveal_strlit("owned");
    reveal_strlit("deref");
    reveal_strlit("derefref");
    reveal_strlit("mutderef");
    reveal_strlit("mutderefref");
    let t = fold::fresh_name(k);
    assert(t[0] == 'a');
    assert("mb"@[0] == 'm');
    assert("owned"@[0] == 'o');
    assert("deref"@[0] == 'd');
    assert("derefref"@[0] == 'd');
    assert("mutderef"@[0] == 'm');
    assert("mutderefref"@[0] == 'm');
}

/// No deref macro is left after the rewrite. Where the rewrite takes every
/// deref macro it meets and reads each without error (`all_taken`), and the
/// identifiers that stand in their place spell `a0`, `a1`, ... (which
/// `rewrite_from` keeps so, starting from no binding), the rewritten pattern
/// invokes no deref macro, at its top level or within any group.
pub proof fn law_no_deref_macro_left(s: Seq<TokS>, syntax: Syntax, site: Site)
    requires
        all_taken(s, 0, false, false, syntax, site.call),
        forall|k: int|
            0 <= k < fold::rewrite(s, syntax, site).1.len() ==> tk::ident_text(
                #[trigger] fold::rewrite(s, syntax, site).1[k].id,
            ) == fold::fresh_name(k as nat),
    ensures
        !holds_deref_call(fold::rewrite(s, syntax, site).0, syntax),
{
    let r = fold::rewrite(s, syntax, site);
    assert forall|k: int| 0 <= k < r.1.len() implies !fold::names_deref_macro(syntax, tk::ident_text(#[trigger] r.1[k].id)) by {
        lemma_fresh_name_names_no_macro(k as nat, syntax);
    }
    lemma_no_call_left(s, 0, false, false, Seq::empty(), syntax, site);
}

/// How many times the identifier `w` stands in `s`, groups included.
pub open spec fn word_count(s: Seq<TokS>, w: proc_macro2::Ident) -> nat
    decreases s,
{
    if s.len() == 0 {
        0
    } else {
        word_count(s.subrange(0, s.len() - 1), w) + tok_word_count(s[s.len() - 1], w)
    }
}

/// How many times the identifier `w` stands in the token tree `t`.
pub open spec fn tok_word_count(t: TokS, w: proc_macro2::Ident) -> nat
    decreases t,
{
    match t {
        TokS::Word(x) => if x == w {
            1
        } else {
            0
        },
        TokS::Group(_, _, _, inner) => word_count(inner, w),
        _ => 0,
    }
}

/// How many times `w` stands in the inner patterns of the bindings `r[lo..hi]`.
pub open spec fn pats_count(r: Seq<BindS>, lo: int, hi: int, w: proc_macro2::Ident) -> nat
    decreases hi - lo,
{
    if lo >= hi || lo < 0 || hi > r.len() {
        0
    } else {
        pats_count(r, lo, hi - 1, w) + word_count(r[hi - 1].pat, w)
    }
}

proof fn lemma_count_add(x: Seq<TokS>, y: Seq<TokS>, w: proc_macro2::Ident)
    ensures
        word_count(x + y, w) == word_count(x, w) + word_count(y, w),
    decreases y.len(),
{
    if y.len() == 0 {
        assert(x + y =~= x);
    } else {
        let z = x + y;
        let y1 = y.subrange(0, y.len() - 1);
        assert(z.subrange(0, z.len() - 1) =~= x + y1);
        assert(z[z.len() - 1] == y[y.len() - 1]);
        lemma_count_add(x, y1, w);
    }
}

proof fn lemma_count_single(t: TokS, w: proc_macro2::Ident)
    ensures
        word_count(seq![t], w) == tok_word_count(t, w),
{
    let e = seq![t];
    assert(e.subrange(0, 0) =~= Seq::<TokS>::empty());
    assert(word_count(Seq::<TokS>::empty(), w) == 0);
    assert(e[0] == t);
    assert(word_count(e, w) == word_count(e.subrange(0, 0), w) + tok_word_count(e[0], w));
}

proof fn lemma_pats_split(r: Seq<BindS>, lo: int, mid: int, hi: int, w: proc_macro2::Ident)
    requires
        0 <= lo <= mid <= hi <= r.len(),
    ensures
        pats_count(r, lo, hi, w) == pats_count(r, lo, mid, w) + pats_count(r, mid, hi, w),
    decreases hi - mid,
{
    if mid < hi {
        lemma_pats_split(r, lo, mid, hi - 1, w);
    }
}

proof fn lemma_pats_prefix(r: Seq<BindS>, m: Seq<BindS>, lo: int, hi: int, w: proc_macro2::Ident)
    requires
        0 <= lo <= hi <= m.len() <= r.len(),
        r.subrange(0, m.len() as int) == m,
    ensures
        pats_count(r, lo, hi, w) == pats_count(m, lo, hi, w),
    decreases hi - lo,
{
    if lo < hi {
        assert(r[hi - 1] == r.subrange(0, m.len() as int)[hi - 1]);
        lemma_pats_prefix(r, m, lo, hi - 1, w);
    }
}

/// `w` is none of the identifiers of the bindings `r[lo..hi]`.
pub open spec fn not_new_id(r: Seq<BindS>, lo: int, hi: int, w: proc_macro2::Ident) -> bool {
    forall|k: int| lo <= k < hi ==> #[trigger] r[k].id != w
}

/// The identifiers of the bindings `r[lo..hi]` are pairwise distinct.
pub open spec fn ids_distinct(r: Seq<BindS>, lo: int, hi: int) -> bool {
    forall|j: int, k: int| lo <= j < hi && lo <= k < hi && j != k ==> #[trigger] r[j].id != #[trigger] r[k].id
}

/// None of the identifiers of the bindings `r[lo..hi]` stands in `input`.
pub open spec fn ids_absent(r: Seq<BindS>, lo: int, hi: int, input: Seq<TokS>) -> bool {
    forall|k: int| lo <= k < hi ==> word_count(input, #[trigger] r[k].id) == 0
}

/// Of the rewrite `o` of `input`, with the bindings `r[lo..hi]`: each of these
/// bindings' identifiers stands exactly once in `o` or in the inner patterns
/// of these bindings, and not in the inner pattern of its own binding or of an
/// earlier one; and an identifier that is none of them and stands nowhere in
/// `input` stands in none of them either.
pub open spec fn once_each(o: Seq<TokS>, r: Seq<BindS>, lo: int, hi: int, input: Seq<TokS>) -> bool {
    &&& forall|w: proc_macro2::Ident|
        word_count(input, w) == 0 && not_new_id(r, lo, hi, w) ==> #[trigger] word_count(o, w) + pats_count(
            r,
            lo,
            hi,
            w,
        ) == 0
    &&& forall|k: int|
        lo <= k < hi ==> word_count(o, #[trigger] r[k].id) + pats_count(r, lo, hi, r[k].id) == 1 && pats_count(
            r,
            lo,
            k + 1,
            r[k].id,
        ) == 0
}

proof fn lemma_once_input(x: Seq<TokS>, r: Seq<BindS>, m: int)
    requires
        0 <= m <= r.len(),
    ensures
        once_each(x, r, m, m, x),
{
    assert forall|w: proc_macro2::Ident| word_count(x, w) == 0 && not_new_id(r, m, m, w) implies #[trigger] word_count(x, w)
        + pats_count(r, m, m, w) == 0 by {
        assert(pats_count(r, m, m, w) == 0);
    }
}

proof fn lemma_once_transfer(o: Seq<TokS>, m: Seq<BindS>, r: Seq<BindS>, lo: int, hi: int, input: Seq<TokS>)
    requires
        once_each(o, m, lo, hi, input),
        0 <= lo <= hi <= m.len() <= r.len(),
        r.subrange(0, m.len() as int) == m,
    ensures
        once_each(o, r, lo, hi, input),
{
    assert forall|k: int| lo <= k < hi implies r[k] == m[k] by {
        assert(r[k] == r.subrange(0, m.len() as int)[k]);
    }
    assert forall|w: proc_macro2::Ident| word_count(input, w) == 0 && not_new_id(r, lo, hi, w) implies #[trigger] word_count(
        o,
        w,
    ) + pats_count(r, lo, hi, w) == 0 by {
        lemma_pats_prefix(r, m, lo, hi, w);
        assert(not_new_id(m, lo, hi, w)) by {
            assert forall|k: int| lo <= k < hi implies #[trigger] m[k].id != w by {
                assert(r[k] == m[k]);
            }
        }
    }
    assert forall|k: int| lo <= k < hi implies word_count(o, #[trigger] r[k].id) + pats_count(r, lo, hi, r[k].id) == 1
        && pats_count(r, lo, k + 1, r[k].id) == 0 by {
        assert(r[k] == m[k]);
        lemma_pats_prefix(r, m, lo, hi, m[k].id);
        lemma_pats_prefix(r, m, lo, k + 1, m[k].id);
    }
}

proof fn lemma_once_weaken(o: Seq<TokS>, r: Seq<BindS>, lo: int, hi: int, i1: Seq<TokS>, i2: Seq<TokS>)
    requires
        once_each(o, r, lo, hi, i1),
        forall|w: proc_macro2::Ident| #[trigger] word_count(i2, w) == 0 ==> word_count(i1, w) == 0,
    ensures
        once_each(o, r, lo, hi, i2),
{
    assert forall|w: proc_macro2::Ident| word_count(i2, w) == 0 && not_new_id(r, lo, hi, w) implies #[trigger] word_count(
        o,
        w,
    ) + pats_count(r, lo, hi, w) == 0 by {
        assert(word_count(i1, w) == 0);
    }
}

proof fn lemma_once_same_counts(o: Seq<TokS>, o2: Seq<TokS>, r: Seq<BindS>, lo: int, hi: int, input: Seq<TokS>)
    requires
        once_each(o, r, lo, hi, input),
        forall|w: proc_macro2::Ident| #[trigger] word_count(o2, w) == word_count(o, w),
    ensures
        once_each(o2, r, lo, hi, input),
{
    assert forall|w: proc_macro2::Ident| word_count(input, w) == 0 && not_new_id(r, lo, hi, w) implies #[trigger] word_count(
        o2,
        w,
    ) + pats_count(r, lo, hi, w) == 0 by {
        assert(word_count(o, w) + pats_count(r, lo, hi, w) == 0);
    }
    assert forall|k: int| lo <= k < hi implies word_count(o2, #[trigger] r[k].id) + pats_count(r, lo, hi, r[k].id) == 1
        && pats_count(r, lo, k + 1, r[k].id) == 0 by {
        assert(word_count(o, r[k].id) + pats_count(r, lo, hi, r[k].id) == 1);
    }
}

proof fn lemma_once_combine(
    o1: Seq<TokS>,
    o2: Seq<TokS>,
    r: Seq<BindS>,
    lo: int,
    mid: int,
    hi: int,
    i1: Seq<TokS>,
    i2: Seq<TokS>,
)
    requires
        once_each(o1, r, lo, mid, i1),
        once_each(o2, r, mid, hi, i2),
        0 <= lo <= mid <= hi <= r.len(),
        ids_distinct(r, lo, hi),
        ids_absent(r, lo, hi, i1),
        ids_absent(r, lo, hi, i2),
    ensures
        once_each(o1 + o2, r, lo, hi, i1 + i2),
{
    assert forall|w: proc_macro2::Ident| word_count(i1 + i2, w) == 0 && not_new_id(r, lo, hi, w) implies #[trigger] word_count(
        o1 + o2,
        w,
    ) + pats_count(r, lo, hi, w) == 0 by {
        lemma_count_add(i1, i2, w);
        lemma_count_add(o1, o2, w);
        lemma_pats_split(r, lo, mid, hi, w);
        assert(not_new_id(r, lo, mid, w));
        assert(not_new_id(r, mid, hi, w));
        assert(word_count(o1, w) + pats_count(r, lo, mid, w) == 0);
        assert(word_count(o2, w) + pats_count(r, mid, hi, w) == 0);
    }
    assert forall|k: int| lo <= k < hi implies word_count(o1 + o2, #[trigger] r[k].id) + pats_count(r, lo, hi, r[k].id) == 1
        && pats_count(r, lo, k + 1, r[k].id) == 0 by {
        let w = r[k].id;
        lemma_count_add(o1, o2, w);
        lemma_pats_split(r, lo, mid, hi, w);
        assert(word_count(i1, w) == 0);
        assert(word_count(i2, w) == 0);
        if k < mid {
            assert(not_new_id(r, mid, hi, w)) by {
                assert forall|j: int| mid <= j < hi implies #[trigger] r[j].id != w by {
                    assert(r[j].id != r[k].id);
                }
            }
            assert(word_count(o2, w) + pats_count(r, mid, hi, w) == 0);
            assert(word_count(o1, r[k].id) + pats_count(r, lo, mid, r[k].id) == 1);
        } else {
            assert(not_new_id(r, lo, mid, w)) by {
                assert forall|j: int| lo <= j < mid implies #[trigger] r[j].id != w by {
                    assert(r[j].id != r[k].id);
                }
            }
            assert(word_count(o1, w) + pats_count(r, lo, mid, w) == 0);
            assert(word_count(o2, r[k].id) + pats_count(r, mid, hi, r[k].id) == 1);
            assert(pats_count(r, mid, k + 1, r[k].id) == 0);
            lemma_pats_split(r, lo, mid, k + 1, w);
        }
    }
}

proof fn lemma_once_wrap(r: Seq<BindS>, lo: int, m: int, input: Seq<TokS>)
    requires
        0 <= lo <= m < r.len(),
        once_each(r[m].pat, r, lo, m, input),
        ids_distinct(r, lo, m + 1),
        ids_absent(r, lo, m + 1, input),
    ensures
        once_each(seq![TokS::Word(r[m].id)], r, lo, m + 1, input),
{
    let o = seq![TokS::Word(r[m].id)];
    assert forall|w: proc_macro2::Ident| word_count(input, w) == 0 && not_new_id(r, lo, m + 1, w) implies #[trigger] word_count(
        o,
        w,
    ) + pats_count(r, lo, m + 1, w) == 0 by {
        lemma_count_single(TokS::Word(r[m].id), w);
        assert(r[m].id != w);
        assert(not_new_id(r, lo, m, w));
        assert(word_count(r[m].pat, w) + pats_count(r, lo, m, w) == 0);
    }
    assert forall|k: int| lo <= k < m + 1 implies word_count(o, #[trigger] r[k].id) + pats_count(r, lo, m + 1, r[k].id) == 1
        && pats_count(r, lo, k + 1, r[k].id) == 0 by {
        let w = r[k].id;
        lemma_count_single(TokS::Word(r[m].id), w);
        if k < m {
            assert(r[m].id != r[k].id);
            assert(word_count(r[m].pat, r[k].id) + pats_count(r, lo, m, r[k].id) == 1);
        } else {
            assert(word_count(input, w) == 0);
            assert(not_new_id(r, lo, m, w)) by {
                assert forall|j: int| lo <= j < m implies #[trigger] r[j].id != w by {
                    assert(r[j].id != r[m].id);
                }
            }
            assert(word_count(r[m].pat, w) + pats_count(r, lo, m, w) == 0);
        }
    }
}

proof fn lemma_sub_count(s: Seq<TokS>, i: int, j: int, w: proc_macro2::Ident)
    requires
        0 <= i <= j <= s.len(),
    ensures
        word_count(s.subrange(i, s.len() as int), w) == word_count(s.subrange(i, j), w) + word_count(
            s.subrange(j, s.len() as int),
            w,
        ),
{
    assert(s.subrange(i, s.len() as int) =~= s.subrange(i, j) + s.subrange(j, s.len() as int));
    lemma_count_add(s.subrange(i, j), s.subrange(j, s.len() as int), w);
}

proof fn lemma_elem_count(s: Seq<TokS>, i: int, w: proc_macro2::Ident)
    requires
        0 <= i < s.len(),
    ensures
        word_count(s.subrange(i, s.len() as int), w) == tok_word_count(s[i], w) + word_count(
            s.subrange(i + 1, s.len() as int),
            w,
        ),
{
    lemma_sub_count(s, i, i + 1, w);
    assert(s.subrange(i, i + 1) =~= seq![s[i]]);
    lemma_count_single(s[i], w);
}

#[verifier::spinoff_prover]
#[verifier::rlimit(40)]
proof fn lemma_once_rw_at(
    s: Seq<TokS>,
    i: int,
    colon: bool,
    after_path_sep: bool,
    b: Seq<BindS>,
    syntax: Syntax,
    site: Site,
)
    requires
        0 <= i <= s.len(),
        all_taken(s, i, colon, after_path_sep, syntax, site.call),
        ids_distinct(
            fold::rw_at(s, i, colon, after_path_sep, b, syntax, site).1,
            b.len() as int,
            fold::rw_at(s, i, colon, after_path_sep, b, syntax, site).1.len() as int,
        ),
        ids_absent(
            fold::rw_at(s, i, colon, after_path_sep, b, syntax, site).1,
            b.len() as int,
            fold::rw_at(s, i, colon, after_path_sep, b, syntax, site).1.len() as int,
            s.subrange(i, s.len() as int),
        ),
    ensures
        once_each(
            fold::rw_at(s, i, colon, after_path_sep, b, syntax, site).0,
            fold::rw_at(s, i, colon, after_path_sep, b, syntax, site).1,
            b.len() as int,
            fold::rw_at(s, i, colon, after_path_sep, b, syntax, site).1.len() as int,
            s.subrange(i, s.len() as int),
        ),
    decreases s, s.len() - i,
{
    let out = fold::rw_at(s, i, colon, after_path_sep, b, syntax, site);
    let n0 = b.len() as int;
    let big = s.subrange(i, s.len() as int);
    lemma_rw_at_numbered(s, i, colon, after_path_sep, b, syntax, site);
    let r = out.1;
    let n = r.len() as int;
    if i == s.len() {
        assert(out.0 =~= Seq::<TokS>::empty());
        assert(big =~= Seq::<TokS>::empty());
        lemma_once_input(Seq::<TokS>::empty(), r, n0);
    } else if fold::is_macro_at(s, i) {
        let name = s[i]->Word_0;
        let inner = s[i + 2]->Group_3;
        let rest_in = s.subrange(i + 3, s.len() as int);
        assert forall|w: proc_macro2::Ident| #[trigger] word_count(big, w) == word_count(s.subrange(i, i + 3), w)
            + word_count(rest_in, w) by {
            lemma_sub_count(s, i, i + 3, w);
        }
        if fold::names_deref_macro(syntax, tk::ident_text(name)) {
            let (kind, k0) = fold::macro_start(syntax, tk::ident_text(name), inner, site.call)->Ok_0;
            let keeps = fold::keeps_inner(syntax, inner);
            let p = if keeps {
                (inner, b)
            } else {
                fold::rw_at(inner, k0, false, false, b, syntax, site)
            };
            let m = p.1.len() as int;
            let e = fold::expand(name, inner, b, syntax, site);
            assert(e.1 == p.1.push(e.1.last()));
            let rest = fold::rw_at(s, i + 3, false, false, e.1, syntax, site);
            assert(out == (e.0 + rest.0, rest.1));
            lemma_rw_at_numbered(s, i + 3, false, false, e.1, syntax, site);
            if !keeps {
                lemma_rw_at_numbered(inner, k0, false, false, b, syntax, site);
            }
            assert(r.subrange(0, m) =~= p.1) by {
                assert forall|j: int| 0 <= j < m implies r[j] == p.1[j] by {
                    assert(r[j] == r.subrange(0, m + 1)[j]);
                    assert(e.1[j] == p.1[j]);
                }
            }
            assert(r[m] == e.1[m]) by {
                assert(r[m] == r.subrange(0, m + 1)[m]);
            }
            assert(r[m].pat == p.0);
            assert(e.0 == seq![TokS::Word(r[m].id)]);
            let i1 = if keeps {
                inner
            } else {
                inner.subrange(k0, inner.len() as int)
            };
            assert forall|w: proc_macro2::Ident| #[trigger] word_count(i1, w) <= word_count(s.subrange(i, i + 3), w) by {
                let x = s.subrange(i, i + 3);
                assert(x =~= seq![s[i]] + seq![s[i + 1]] + seq![s[i + 2]]);
                lemma_count_add(seq![s[i]] + seq![s[i + 1]], seq![s[i + 2]], w);
                lemma_count_single(s[i + 2], w);
                if !keeps {
                    lemma_sub_count(inner, 0, k0, w);
                    assert(inner.subrange(0, inner.len() as int) =~= inner);
                }
            }
            // the inner pattern's rewrite
            if keeps {
                lemma_once_input(inner, r, n0);
            } else {
                assert(ids_absent(p.1, n0, m, i1)) by {
                    assert forall|k: int| n0 <= k < m implies word_count(i1, #[trigger] p.1[k].id) == 0 by {
                        assert(r[k] == p.1[k]);
                        assert(word_count(big, r[k].id) == 0);
                    }
                }
                assert(ids_distinct(p.1, n0, m)) by {
                    assert forall|j: int, k: int| n0 <= j < m && n0 <= k < m && j != k implies #[trigger] p.1[j].id
                        != #[trigger] p.1[k].id by {
                        assert(r[j] == p.1[j]);
                        assert(r[k] == p.1[k]);
                    }
                }
                lemma_once_rw_at(inner, k0, false, false, b, syntax, site);
                assert(inner.subrange(k0, inner.len() as int) == i1);
                lemma_once_transfer(p.0, p.1, r, n0, m, i1);
            }
            assert(once_each(r[m].pat, r, n0, m, i1));
            assert(ids_absent(r, n0, n, i1)) by {
                assert forall|k: int| n0 <= k < n implies word_count(i1, #[trigger] r[k].id) == 0 by {
                    assert(word_count(big, r[k].id) == 0);
                }
            }
            assert(ids_absent(r, n0, n, rest_in)) by {
                assert forall|k: int| n0 <= k < n implies word_count(rest_in, #[trigger] r[k].id) == 0 by {
                    assert(word_count(big, r[k].id) == 0);
                }
            }
            lemma_once_wrap(r, n0, m, i1);
            lemma_once_rw_at(s, i + 3, false, false, e.1, syntax, site);
            lemma_once_combine(e.0, rest.0, r, n0, m + 1, n, i1, rest_in);
            assert forall|w: proc_macro2::Ident| #[trigger] word_count(big, w) == 0 implies word_count(i1 + rest_in, w) == 0 by {
                lemma_count_add(i1, rest_in, w);
            }
            lemma_once_weaken(out.0, r, n0, n, i1 + rest_in, big);
        } else {
            let x = s.subrange(i, i + 3);
            let rest = fold::rw_at(s, i + 3, false, false, b, syntax, site);
            assert(out == (x + rest.0, rest.1));
            assert(ids_absent(r, n0, n, x)) by {
                assert forall|k: int| n0 <= k < n implies word_count(x, #[trigger] r[k].id) == 0 by {
                    assert(word_count(big, r[k].id) == 0);
                }
            }
            assert(ids_absent(r, n0, n, rest_in)) by {
                assert forall|k: int| n0 <= k < n implies word_count(rest_in, #[trigger] r[k].id) == 0 by {
                    assert(word_count(big, r[k].id) == 0);
                }
            }
            lemma_once_input(x, r, n0);
            lemma_once_rw_at(s, i + 3, false, false, b, syntax, site);
            lemma_once_combine(x, rest.0, r, n0, n0, n, x, rest_in);
            assert(x + rest_in =~= big);
        }
    } else if fold::opaque_end(s, i) > i {
        let e = fold::opaque_end(s, i);
        fold::lemma_opaque_end(s, i);
        let x = s.subrange(i, e);
        let rest_in = s.subrange(e, s.len() as int);
        let rest = fold::rw_at(s, e, false, false, b, syntax, site);
        assert(out == (x + rest.0, rest.1));
        assert forall|w: proc_macro2::Ident| #[trigger] word_count(big, w) == word_count(x, w) + word_count(rest_in, w) by {
            lemma_sub_count(s, i, e, w);
        }
        assert(ids_absent(r, n0, n, x)) by {
            assert forall|k: int| n0 <= k < n implies word_count(x, #[trigger] r[k].id) == 0 by {
                assert(word_count(big, r[k].id) == 0);
            }
        }
        assert(ids_absent(r, n0, n, rest_in)) by {
            assert forall|k: int| n0 <= k < n implies word_count(rest_in, #[trigger] r[k].id) == 0 by {
                assert(word_count(big, r[k].id) == 0);
            }
        }
        lemma_once_input(x, r, n0);
        lemma_once_rw_at(s, e, false, false, b, syntax, site);
        lemma_once_combine(x, rest.0, r, n0, n0, n, x, rest_in);
        assert(x + rest_in =~= big);
    } else {
        let rest_in = s.subrange(i + 1, s.len() as int);
        assert forall|w: proc_macro2::Ident| #[trigger] word_count(big, w) == tok_word_count(s[i], w) + word_count(
            rest_in,
            w,
        ) by {
            lemma_elem_count(s, i, w);
        }
        match s[i] {
            TokS::Group(d, sp, o, inner) => {
                let g = fold::rw_at(inner, 0, false, false, b, syntax, site);
                let rest = fold::rw_at(s, i + 1, false, false, g.1, syntax, site);
                assert(out == (seq![TokS::Group(d, sp, o, g.0)] + rest.0, rest.1));
                lemma_rw_at_numbered(inner, 0, false, false, b, syntax, site);
                lemma_rw_at_numbered(s, i + 1, false, false, g.1, syntax, site);
                let mg = g.1.len() as int;
                assert(inner.subrange(0, inner.len() as int) =~= inner);
                assert forall|k: int| 0 <= k < mg implies r[k] == g.1[k] by {
                    assert(r[k] == r.subrange(0, mg)[k]);
                }
                assert(ids_absent(g.1, n0, mg, inner)) by {
                    assert forall|k: int| n0 <= k < mg implies word_count(inner, #[trigger] g.1[k].id) == 0 by {
                        assert(r[k] == g.1[k]);
                        assert(word_count(big, r[k].id) == 0);
                    }
                }
                assert(ids_distinct(g.1, n0, mg)) by {
                    assert forall|j: int, k: int| n0 <= j < mg && n0 <= k < mg && j != k implies #[trigger] g.1[j].id
                        != #[trigger] g.1[k].id by {
                        assert(r[j] == g.1[j]);
                        assert(r[k] == g.1[k]);
                    }
                }
                lemma_once_rw_at(inner, 0, false, false, b, syntax, site);
                lemma_once_transfer(g.0, g.1, r, n0, mg, inner);
                let x = seq![TokS::Group(d, sp, o, g.0)];
                assert forall|w: proc_macro2::Ident| #[trigger] word_count(x, w) == word_count(g.0, w) by {
                    lemma_count_single(TokS::Group(d, sp, o, g.0), w);
                }
                lemma_once_same_counts(g.0, x, r, n0, mg, inner);
                assert(ids_absent(r, n0, n, inner)) by {
                    assert forall|k: int| n0 <= k < n implies word_count(inner, #[trigger] r[k].id) == 0 by {
                        assert(word_count(big, r[k].id) == 0);
                    }
                }
                assert(ids_absent(r, n0, n, rest_in)) by {
                    assert forall|k: int| n0 <= k < n implies word_count(rest_in, #[trigger] r[k].id) == 0 by {
                        assert(word_count(big, r[k].id) == 0);
                    }
                }
                lemma_once_rw_at(s, i + 1, false, false, g.1, syntax, site);
                lemma_once_combine(x, rest.0, r, n0, mg, n, inner, rest_in);
                assert forall|w: proc_macro2::Ident| #[trigger] word_count(big, w) == 0 implies word_count(inner + rest_in, w)
                    == 0 by {
                    lemma_count_add(inner, rest_in, w);
                }
                lemma_once_weaken(out.0, r, n0, n, inner + rest_in, big);
            },
            _ => {
                let (c2, a2) = match s[i] {
                    TokS::Mark(p) => {
                        let is_colon = tk::punct_char(p) == ':';
                        (is_colon && tk::punct_joint(p), is_colon && colon)
                    },
                    _ => (false, false),
                };
                let x = seq![s[i]];
                let rest = fold::rw_at(s, i + 1, c2, a2, b, syntax, site);
                assert(out == (x + rest.0, rest.1));
                assert forall|w: proc_macro2::Ident| #[trigger] word_count(x, w) == tok_word_count(s[i], w) by {
                    lemma_count_single(s[i], w);
                }
                assert(ids_absent(r, n0, n, x)) by {
                    assert forall|k: int| n0 <= k < n implies word_count(x, #[trigger] r[k].id) == 0 by {
                        assert(word_count(big, r[k].id) == 0);
                    }
                }
                assert(ids_absent(r, n0, n, rest_in)) by {
                    assert forall|k: int| n0 <= k < n implies word_count(rest_in, #[trigger] r[k].id) == 0 by {
                        assert(word_count(big, r[k].id) == 0);
                    }
                }
                lemma_once_input(x, r, n0);
                lemma_once_rw_at(s, i + 1, c2, a2, b, syntax, site);
                lemma_once_combine(x, rest.0, r, n0, n0, n, x, rest_in);
                assert(x + rest_in =~= big);
            },
        }
    }
}

/// Each fresh identifier stands exactly once. Where the rewrite takes every
/// deref macro it meets and reads each without error (`all_taken`), where the
/// identifiers spell `a0`, `a1`, ... (which `rewrite_from` keeps so, starting
/// from no binding), and where the written pattern does not already hold one
/// of these identifiers (their mixed-site hygiene sets them apart from the
/// user's own): the identifier of binding `k` stands exactly once in the
/// rewritten pattern or in the inner patterns of the bindings, and never in
/// the inner pattern of binding `k` or of an earlier one.
pub proof fn law_fresh_ids_once(s: Seq<TokS>, syntax: Syntax, site: Site)
    requires
        all_taken(s, 0, false, false, syntax, site.call),
        forall|k: int|
            0 <= k < fold::rewrite(s, syntax, site).1.len() ==> tk::ident_text(
                #[trigger] fold::rewrite(s, syntax, site).1[k].id,
            ) == fold::fresh_name(k as nat),
        ids_absent(fold::rewrite(s, syntax, site).1, 0, fold::rewrite(s, syntax, site).1.len() as int, s),
    ensures
        ({
            let (o, r) = fold::rewrite(s, syntax, site);
            forall|k: int|
                0 <= k < r.len() ==> word_count(o, #[trigger] r[k].id) + pats_count(r, 0, r.len() as int, r[k].id) == 1
                    && pats_count(r, 0, k + 1, r[k].id) == 0
        }),
{
    let (o, r) = fold::rewrite(s, syntax, site);
    assert(ids_distinct(r, 0, r.len() as int)) by {
        assert forall|j: int, k: int| 0 <= j < r.len() && 0 <= k < r.len() && j != k implies #[trigger] r[j].id
            != #[trigger] r[k].id by {
            law_fresh_names_distinct(j as nat, k as nat);
            assert(tk::ident_text(r[j].id) == fold::fresh_name(j as nat));
            assert(tk::ident_text(r[k].id) == fold::fresh_name(k as nat));
        }
    }
    assert(s.subrange(0, s.len() as int) =~= s);
    lemma_once_rw_at(s, 0, false, false, Seq::empty(), syntax, site);
}

/// The arms rewritten one by one, each as `spec_rewrite_arm` gives it.
pub open spec fn arms_each(arms: Seq<ArmS>, syntax: Syntax, site: Site) -> Seq<Seq<TokS>> {
    Seq::new(arms.len(), |k: int| expand::spec_rewrite_arm(arms[k], syntax, site))
}

proof fn lemma_arms_flatten(arms: Seq<ArmS>, syntax: Syntax, site: Site)
    ensures
        expand::spec_rewrite_arms(arms, syntax, site) == arms_each(arms, syntax, site).flatten(),
    decreases arms.len(),
{
    if arms.len() > 0 {
        lemma_arms_flatten(arms.drop_last(), syntax, site);
        assert(arms_each(arms, syntax, site) =~= arms_each(arms.drop_last(), syntax, site).push(
            expand::spec_rewrite_arm(arms.last(), syntax, site),
        ));
        arms_each(arms.drop_last(), syntax, site).lemma_flatten_push(expand::spec_rewrite_arm(arms.last(), syntax, site));
    } else {
        assert(arms_each(arms, syntax, site) =~= Seq::<Seq<TokS>>::empty());
    }
}

/// The rewritten `match` is the `match` as written, with each arm rewritten on
/// its own and in its place: inside the braces, after the inner attributes,
/// come the arms' rewrites one after another. So each arm that held a deref
/// macro comes out guarded (`law_bound_arms_are_guarded`), and each other arm
/// as it was written (`law_arm_without_deref_macros_is_unchanged`): only the
/// arms without deref macros can make the `match` exhaustive. What a macro
/// invocation hands back is this rewrite, written into a stream
/// (`expansion`, `expansion_of`).
pub proof fn law_match_arms_rewritten_in_place(head: Seq<TokS>, arms: Seq<ArmS>, syntax: Syntax, site: Site)
    requires
        head.len() > 0,
        head.last() matches TokS::Group(Delim::Brace, _, _, _),
    ensures
        ({
            let (sp, o, inner) = (head.last()->Group_1, head.last()->Group_2, head.last()->Group_3);
            expand::spec_rewrite_match(head, arms, syntax, site) == head.drop_last().push(
                TokS::Group(Delim::Brace, sp, o, inner + arms_each(arms, syntax, site).flatten()),
            )
        }),
{
    lemma_arms_flatten(arms, syntax, site);
}

/// The keyword form leaves the inner pattern of a deref macro unrewritten only
/// when that inner pattern is exactly one macro invocation: three tokens, an
/// identifier, `!` and a group. Any other inner pattern (a tuple-struct
/// pattern such as `Symbol(derefref!("quote"))` among them) is rewritten, so
/// the deref macros within it are taken too; and the `mb!` form rewrites every
/// inner pattern.
pub proof fn law_inner_kept_only_when_one_macro(syntax: Syntax, inner: Seq<TokS>)
    ensures
        fold::keeps_inner(syntax, inner) <==> {
            &&& syntax == Syntax::Keyword
            &&& inner.len() == 3
            &&& inner[0] is Word
            &&& tk::mark_at(inner, 1, '!')
            &&& inner[2] is Group
        },
{
}

/// The runs that the rewrite keeps as they are, looking into none of their
/// groups, start only with `const` before a braced block, `#` before a
/// bracketed group, the word `box`, or `<`; and each of these does start one.
/// A `const` block or an attribute is the two tokens alone. So every other
/// group is rewritten inside: the fields of a struct pattern (with or without
/// `..`) and the parenthesised fields of a tuple-struct pattern, whatever path
/// comes before them.
pub proof fn law_kept_runs_start_only_at_const_attr_box_angle(s: Seq<TokS>, i: int)
    requires
        0 <= i < s.len(),
    ensures
        fold::opaque_end(s, i) > i <==> {
            ||| i + 1 < s.len() && tk::word_at(s, i, "const"@) && s[i + 1] matches TokS::Group(Delim::Brace, _, _, _)
            ||| i + 1 < s.len() && tk::mark_at(s, i, '#') && s[i + 1] matches TokS::Group(Delim::Bracket, _, _, _)
            ||| tk::word_at(s, i, "box"@)
            ||| tk::mark_at(s, i, '<')
        },
        (i + 1 < s.len() && {
            ||| tk::word_at(s, i, "const"@) && s[i + 1] matches TokS::Group(Delim::Brace, _, _, _)
            ||| tk::mark_at(s, i, '#') && s[i + 1] matches TokS::Group(Delim::Bracket, _, _, _)
        }) ==> fold::opaque_end(s, i) == i + 2,
        fold::opaque_end(s, i) <= s.len(),
{
    fold::lemma_opaque_end(s, i);
    fold::lemma_box_end(s, i + 1, 0);
    fold::lemma_angle_end(s, i + 1, 1);
}

/// A deref macro that opens the fields of a struct or tuple-struct pattern is
/// taken: where `s[i]` is the last word of the pattern's path (no `const` or
/// `box`), `s[i + 1]` the group of its fields, and that group starts with a
/// deref macro whose contents are read without error, rewriting from `s[i]`
/// adds a binding, whatever the group holds after it (`..` included) and
/// whatever path came before.
pub proof fn law_macro_in_fields_is_taken(
    s: Seq<TokS>,
    i: int,
    b: Seq<BindS>,
    syntax: Syntax,
    site: Site,
)
    requires
        0 <= i,
        i + 1 < s.len(),
        s[i] is Word,
        !tk::word_at(s, i, "const"@),
        !tk::word_at(s, i, "box"@),
        s[i + 1] matches TokS::Group(_, _, _, inner) && {
            &&& fold::is_macro_at(inner, 0)
            &&& inner[0] is Word
            &&& fold::names_deref_macro(syntax, tk::ident_text(inner[0]->Word_0))
            &&& fold::macro_start(syntax, tk::ident_text(inner[0]->Word_0), inner[2]->Group_3, site.call) is Ok
        },
    ensures
        fold::rw_at(s, i, false, false, b, syntax, site).1.len() > b.len(),
{
    let inner = s[i + 1]->Group_3;
    let name = inner[0]->Word_0;
    let minner = inner[2]->Group_3;
    assert(!fold::is_macro_at(s, i));
    assert(fold::opaque_end(s, i) == i);
    assert(!fold::is_macro_at(s, i + 1));
    assert(fold::opaque_end(s, i + 1) == i + 1);
    let e = fold::expand(name, minner, b, syntax, site);
    if let Ok((kind, k)) = fold::macro_start(syntax, tk::ident_text(name), minner, site.call) {
        if !fold::keeps_inner(syntax, minner) {
            lemma_rw_at_numbered(minner, k, false, false, b, syntax, site);
        }
    }
    assert(e.1.len() > b.len());
    assert(inner[2] == TokS::Group(inner[2]->Group_0, inner[2]->Group_1, inner[2]->Group_2, minner));
    lemma_rw_at_numbered(inner, 3, false, false, e.1, syntax, site);
    let g = fold::rw_at(inner, 0, false, false, b, syntax, site);
    assert(g.1 == fold::rw_at(inner, 3, false, false, e.1, syntax, site).1);
    lemma_rw_at_numbered(s, i + 2, false, false, g.1, syntax, site);
    assert(fold::rw_at(s, i + 1, false, false, b, syntax, site).1 == fold::rw_at(s, i + 2, false, false, g.1, syntax, site).1);
    assert(fold::rw_at(s, i, false, false, b, syntax, site).1 == fold::rw_at(s, i + 1, false, false, b, syntax, site).1);
}

} // verus!
