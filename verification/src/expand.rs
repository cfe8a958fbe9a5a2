//! Rewriting the arms of a `match`: an arm whose pattern holds deref macros
//! gets a guard that tests them and a body that destructures them again.
use vstd::prelude::*;
use proc_macro2::{Span, TokenStream};
use crate::token::{
    self as tk, Delim, Tok, TokS, extend_toks, extend_toks_owned, make_mark, make_word,
    new_string_literal, tokens_span_of, stream_toks, toks_to_stream, mixed_site, call_site,
};
use crate::fold::{self, Bind, Site, Syntax, rewrite_from};
use crate::tower::{self, tower};
use crate::parsing::{
    arm_count, arm_ref, arms_printed, match_head, match_head_of, match_parse, parse_match, printed_arm,
    split_arm,
};

verus! {

/// The tokens of one arm, as `syn` prints its parts: outer attributes, pattern,
/// guard (the `if` and the condition), `=>`, body, and the trailing comma (or
/// nothing).
pub struct ArmToks {
    pub attrs: Vec<Tok>,
    pub pat: Vec<Tok>,
    pub guard: Option<(Vec<Tok>, Vec<Tok>)>,
    pub arrow: Vec<Tok>,
    pub body: Vec<Tok>,
    pub comma: Vec<Tok>,
}

pub struct ArmS {
    pub attrs: Seq<TokS>,
    pub pat: Seq<TokS>,
    pub guard: Option<(Seq<TokS>, Seq<TokS>)>,
    pub arrow: Seq<TokS>,
    pub body: Seq<TokS>,
    pub comma: Seq<TokS>,
}

pub open spec fn arm_view(a: ArmToks) -> ArmS {
    ArmS {
        attrs: tk::toks_view(a.attrs@),
        pat: tk::toks_view(a.pat@),
        guard: match a.guard {
            Some((k, c)) => Some((tk::toks_view(k@), tk::toks_view(c@))),
            None => None,
        },
        arrow: tk::toks_view(a.arrow@),
        body: tk::toks_view(a.body@),
        comma: tk::toks_view(a.comma@),
    }
}

/// The tokens of a `match` printed with no arms (ending in its braces, which
/// hold only its inner attributes), and its arms.
pub struct MatchToks {
    pub head: Vec<Tok>,
    pub arms: Vec<ArmToks>,
}

pub open spec fn arms_view(v: Seq<ArmToks>) -> Seq<ArmS> {
    Seq::new(v.len(), |k: int| arm_view(v[k]))
}

/// The message of the panic in the body's `else` branches, reached only where
/// `Deref::deref` gave another value than it gave in the guard.
pub open spec fn deref_mismatch() -> Seq<char> {
    "Two invocations of Deref::deref returned different outputs on same inputs"@
}

/// `panic!("...")`, spanned at `sp`.
pub open spec fn panic_call(sp: Span) -> Seq<TokS> {
    seq![
        tk::word("panic"@, sp),
        tk::mark('!', sp),
        TokS::Group(Delim::Parenthesis, sp, sp, seq![TokS::Lit(tk::string_literal(deref_mismatch(), sp))]),
    ]
}

/// `{ #[allow(unused_variables)] cond }`, spanned at `sp`.
pub open spec fn guard_block(cond: Seq<TokS>, sp: Span) -> TokS {
    TokS::Group(
        Delim::Brace,
        sp,
        sp,
        seq![
            tk::mark('#', sp),
            TokS::Group(
                Delim::Bracket,
                sp,
                sp,
                seq![
                    tk::word("allow"@, sp),
                    TokS::Group(Delim::Parenthesis, sp, sp, seq![tk::word("unused_variables"@, sp)]),
                ],
            ),
        ] + cond,
    )
}

pub open spec fn guard_tokens(g: Option<(Seq<TokS>, Seq<TokS>)>) -> Seq<TokS> {
    match g {
        Some((k, c)) => k + c,
        None => Seq::empty(),
    }
}

/// The rewritten arm. Its pattern is rewritten; where that bound no deref
/// macro, the rest is kept. Otherwise, at the span of the pattern as written,
/// the guard becomes the nest of tests of the bindings around the arm's own
/// guard (or `true`), each failing test giving `false`, and the body becomes
/// the same nest, with the body's operators, around the arm's own body, each
/// `else` panicking.
pub open spec fn spec_rewrite_arm(a: ArmS, syntax: Syntax, site: Site) -> Seq<TokS> {
    let (pat, binds) = fold::rewrite(a.pat, syntax, site);
    if binds.len() == 0 {
        a.attrs + pat + guard_tokens(a.guard) + a.arrow + a.body + a.comma
    } else {
        let sp = tk::tokens_span(a.pat, site.call);
        let yes = match a.guard {
            Some((_, c)) => c,
            None => seq![tk::word("true"@, sp)],
        };
        let cond = tower::spec_tower(binds, yes, seq![tk::word("false"@, sp)], true);
        a.attrs + pat + seq![tk::word("if"@, sp), guard_block(cond, sp)] + a.arrow
            + tower::spec_tower(binds, a.body, panic_call(sp), false) + a.comma
    }
}

/// The arms rewritten one after another.
pub open spec fn spec_rewrite_arms(arms: Seq<ArmS>, syntax: Syntax, site: Site) -> Seq<TokS>
    decreases arms.len(),
{
    if arms.len() == 0 {
        Seq::empty()
    } else {
        spec_rewrite_arms(arms.drop_last(), syntax, site) + spec_rewrite_arm(arms.last(), syntax, site)
    }
}

/// The rewritten `match`: its rewritten arms go into its braces, after the
/// inner attributes.
pub open spec fn spec_rewrite_match(head: Seq<TokS>, arms: Seq<ArmS>, syntax: Syntax, site: Site) -> Seq<TokS> {
    let body = spec_rewrite_arms(arms, syntax, site);
    if head.len() > 0 && head.last() is Group && head.last()->Group_0 == Delim::Brace {
        head.drop_last().push(
            TokS::Group(Delim::Brace, head.last()->Group_1, head.last()->Group_2, head.last()->Group_3 + body),
        )
    } else {
        head + body
    }
}

pub fn panic_tokens(sp: Span) -> (r: Vec<Tok>)
    ensures
        tk::toks_view(r@) == panic_call(sp),
{
    proof {
        reveal_strlit("panic");
    }
    let mut inner: Vec<Tok> = Vec::new();
    inner.push(Tok::Lit(new_string_literal("Two invocations of Deref::deref returned different outputs on same inputs", sp)));
    let ghost iv = tk::toks_view(inner@);
    assert(iv =~= seq![TokS::Lit(tk::string_literal(deref_mismatch(), sp))]);
    let mut r: Vec<Tok> = Vec::new();
    r.push(make_word("panic", sp));
    r.push(make_mark('!', sp));
    proof {
        tk::lemma_group_view(Delim::Parenthesis, sp, sp, inner);
    }
    r.push(Tok::Group(Delim::Parenthesis, sp, sp, inner));
    assert(tk::toks_view(r@) =~= panic_call(sp));
    r
}

pub fn guard_block_tok(cond: Vec<Tok>, sp: Span) -> (r: Tok)
    ensures
        tk::tok_view(r) == guard_block(tk::toks_view(cond@), sp),
{
    proof {
        reveal_strlit("allow");
        reveal_strlit("unused_variables");
    }
    let mut lint: Vec<Tok> = Vec::new();
    lint.push(make_word("unused_variables", sp));
    let mut meta: Vec<Tok> = Vec::new();
    meta.push(make_word("allow", sp));
    proof {
        tk::lemma_group_view(Delim::Parenthesis, sp, sp, lint);
    }
    let ghost lv = tk::toks_view(lint@);
    assert(lv =~= seq![tk::word("unused_variables"@, sp)]);
    meta.push(Tok::Group(Delim::Parenthesis, sp, sp, lint));
    let ghost mv = tk::toks_view(meta@);
    assert(mv =~= seq![tk::word("allow"@, sp), TokS::Group(Delim::Parenthesis, sp, sp, seq![tk::word("unused_variables"@, sp)])]);
    let mut inner: Vec<Tok> = Vec::new();
    inner.push(make_mark('#', sp));
    proof {
        tk::lemma_group_view(Delim::Bracket, sp, sp, meta);
    }
    inner.push(Tok::Group(Delim::Bracket, sp, sp, meta));
    let ghost cv = tk::toks_view(cond@);
    extend_toks_owned(&mut inner, cond);
    proof {
        tk::lemma_group_view(Delim::Brace, sp, sp, inner);
    }
    let ghost inv = tk::toks_view(inner@);
    assert(inv =~= seq![
            tk::mark('#', sp),
            TokS::Group(
                Delim::Bracket,
                sp,
                sp,
                seq![
                    tk::word("allow"@, sp),
                    TokS::Group(Delim::Parenthesis, sp, sp, seq![tk::word("unused_variables"@, sp)]),
                ],
            ),
        ] + cv);
    Tok::Group(Delim::Brace, sp, sp, inner)
}

/// Rewrites one arm (see `spec_rewrite_arm`).
pub fn rewrite_arm(a: &ArmToks, syntax: Syntax, site: Site) -> (r: Vec<Tok>)
    ensures
        tk::toks_view(r@) == spec_rewrite_arm(arm_view(*a), syntax, site),
{
    let ghost av = arm_view(*a);
    let mut binds: Vec<Bind> = Vec::new();
    let pat = rewrite_from(&a.pat, 0, &mut binds, syntax, site);
    proof {
        assert(fold::binds_view(Seq::<Bind>::empty()) =~= Seq::<fold::BindS>::empty());
    }
    let ghost pv = tk::toks_view(pat@);
    let ghost bv = fold::binds_view(binds@);
    assert((pv, bv) == fold::rewrite(av.pat, syntax, site));
    let mut r: Vec<Tok> = Vec::new();
    extend_toks(&mut r, &a.attrs);
    extend_toks_owned(&mut r, pat);
    if binds.len() == 0 {
        match &a.guard {
            Some((k, c)) => {
                extend_toks(&mut r, k);
                extend_toks(&mut r, c);
            },
            None => {},
        }
        extend_toks(&mut r, &a.arrow);
        extend_toks(&mut r, &a.body);
        extend_toks(&mut r, &a.comma);
        assert(tk::toks_view(r@) =~= av.attrs + pv + guard_tokens(av.guard) + av.arrow + av.body + av.comma);
        r
    } else {
        proof {
            reveal_strlit("true");
            reveal_strlit("false");
            reveal_strlit("if");
        }
        let sp = tokens_span_of(&a.pat, site.call);
        let yes: Vec<Tok> = match &a.guard {
            Some((_, c)) => tk::clone_toks(c),
            None => {
                let mut t: Vec<Tok> = Vec::new();
                t.push(make_word("true", sp));
                t
            },
        };
        let ghost yv = tk::toks_view(yes@);
        assert(yv =~= match av.guard {
            Some((_, c)) => c,
            None => seq![tk::word("true"@, sp)],
        });
        let mut no: Vec<Tok> = Vec::new();
        no.push(make_word("false", sp));
        assert(tk::toks_view(no@) =~= seq![tk::word("false"@, sp)]);
        let cond = tower(&binds, yes, &no, true);
        let ghost condv = tk::toks_view(cond@);
        let gb = guard_block_tok(cond, sp);
        r.push(make_word("if", sp));
        r.push(gb);
        let ghost p1 = av.attrs + pv + seq![tk::word("if"@, sp), guard_block(condv, sp)];
        assert(tk::toks_view(r@) =~= p1);
        extend_toks(&mut r, &a.arrow);
        let body = tk::clone_toks(&a.body);
        let panic = panic_tokens(sp);
        let t = tower(&binds, body, &panic, false);
        extend_toks_owned(&mut r, t);
        extend_toks(&mut r, &a.comma);
        r
    }
}

} // verus!

verus! {

/// Rewrites the arms one after another.
pub fn rewrite_arms(arms: &Vec<ArmToks>, syntax: Syntax, site: Site) -> (r: Vec<Tok>)
    ensures
        tk::toks_view(r@) == spec_rewrite_arms(arms_view(arms@), syntax, site),
{
    let ghost av = arms_view(arms@);
    let mut r: Vec<Tok> = Vec::new();
    let mut k: usize = 0;
    assert(av.take(0) =~= Seq::<ArmS>::empty());
    while k < arms.len()
        invariant
            k <= arms.len(),
            av == arms_view(arms@),
            tk::toks_view(r@) == spec_rewrite_arms(av.take(k as int), syntax, site),
        decreases arms.len() - k,
    {
        let t = rewrite_arm(&arms[k], syntax, site);
        extend_toks_owned(&mut r, t);
        proof {
            assert(av.take(k + 1).drop_last() =~= av.take(k as int));
            assert(av.take(k + 1).last() == arm_view(arms@[k as int]));
        }
        k = k + 1;
    }
    assert(av.take(k as int) =~= av);
    r
}

/// Rewrites a whole `match` (see `spec_rewrite_match`).
pub fn rewrite_match(m: &MatchToks, syntax: Syntax, site: Site) -> (r: Vec<Tok>)
    ensures
        tk::toks_view(r@) == spec_rewrite_match(tk::toks_view(m.head@), arms_view(m.arms@), syntax, site),
{
    let ghost hv = tk::toks_view(m.head@);
    let body = rewrite_arms(&m.arms, syntax, site);
    let n = m.head.len();
    if n > 0 {
        if let Tok::Group(Delim::Brace, sp, o, inner) = &m.head[n - 1] {
            proof {
                tk::lemma_group_view(Delim::Brace, *sp, *o, *inner);
            }
            let mut r = tk::clone_toks_prefix(&m.head, n - 1);
            let mut contents = tk::clone_toks(inner);
            extend_toks_owned(&mut contents, body);
            let ghost cv = tk::toks_view(contents@);
            let g = Tok::Group(Delim::Brace, *sp, *o, contents);
            proof {
                tk::lemma_group_view(Delim::Brace, *sp, *o, contents);
                tk::lemma_toks_view_push(r@, g);
            }
            r.push(g);
            assert(tk::toks_view(r@) =~= spec_rewrite_match(hv, arms_view(m.arms@), syntax, site));
            return r;
        }
    }
    let mut r = tk::clone_toks(&m.head);
    extend_toks_owned(&mut r, body);
    r
}

} // verus!

verus! {

/// Prints the parts of a `syn` arm and reads them into tokens.
pub fn arm_toks(a: &syn::Arm) -> (r: ArmToks)
    ensures
        arm_view(r) == printed_arm(*a),
{
    split_arm(a)
}

/// Prints a `syn` match, without its arms and arm by arm, and reads it into
/// tokens.
pub fn match_toks(m: syn::ExprMatch) -> (r: MatchToks)
    ensures
        tk::toks_view(r.head@) == match_head(m),
        arms_view(r.arms@) == arms_printed(m),
{
    let n = arm_count(&m);
    let mut v: Vec<ArmToks> = Vec::new();
    let mut k: usize = 0;
    while k < n
        invariant
            k <= n,
            n == arms_printed(m).len(),
            v@.len() == k,
            forall|j: int| 0 <= j < k ==> arm_view(#[trigger] v@[j]) == arms_printed(m)[j],
        decreases n - k,
    {
        let a = arm_ref(&m, k);
        v.push(arm_toks(a));
        k = k + 1;
    }
    assert(arms_view(v@) =~= arms_printed(m));
    let head = match_head_of(m);
    MatchToks { head, arms: v }
}

/// The contents of what the rewrite of a parsed `match` hands back at the
/// spans `site`: the rewrite of `head` and `arms` for `syntax`, written into a
/// stream.
pub open spec fn expansion_at(out: Seq<TokS>, head: Seq<TokS>, arms: Seq<ArmS>, syntax: Syntax, site: Site) -> bool {
    out == tk::written(spec_rewrite_match(head, arms, syntax, site))
}

/// The contents of what a macro invocation hands back for the input `ts` at
/// the spans `site`: the rewritten `match` where `syn` reads one (with
/// `site.call` as the span of the end of the input), else `syn`'s error,
/// written into a stream.
pub open spec fn expansion_of_at(out: Seq<TokS>, ts: TokenStream, syntax: Syntax, site: Site) -> bool {
    match match_parse(ts, site.call) {
        Ok((head, arms)) => expansion_at(out, head, arms, syntax, site),
        Err(e) => out == tk::written(e),
    }
}

/// The spans of the macro invocation being expanded: the mixed site, whose
/// hygiene the fresh identifiers get, and the call site.
pub open spec fn invocation_site(site: Site) -> bool {
    tk::mixed_hygiene(site.mixed) && tk::at_call_site(site.call)
}

/// `expansion_at` at the spans of the macro invocation being expanded.
pub open spec fn expansion(out: Seq<TokS>, head: Seq<TokS>, arms: Seq<ArmS>, syntax: Syntax) -> bool {
    exists|site: Site| invocation_site(site) && #[trigger] expansion_at(out, head, arms, syntax, site)
}

/// `expansion_of_at` at the spans of the macro invocation being expanded.
pub open spec fn expansion_of(out: Seq<TokS>, ts: TokenStream, syntax: Syntax) -> bool {
    exists|site: Site| invocation_site(site) && #[trigger] expansion_of_at(out, ts, syntax, site)
}

/// Rewrites a parsed `match` for `syntax`: fresh identifiers get the hygiene
/// of `site.mixed`, and tokens with no span of their own get `site.call`.
pub fn expand_match_at(m: syn::ExprMatch, syntax: Syntax, site: Site) -> (r: TokenStream)
    ensures
        expansion_at(stream_toks(r), match_head(m), arms_printed(m), syntax, site),
{
    let mt = match_toks(m);
    let out = rewrite_match(&mt, syntax, site);
    toks_to_stream(out.as_slice())
}

/// Parses `input` as a `match`, with `site.call` as the span of the end of the
/// input, and rewrites it for `syntax` at the spans `site`; input that is no
/// `match` gives `syn`'s error instead.
pub fn expand_tokens_at(input: TokenStream, syntax: Syntax, site: Site) -> (r: TokenStream)
    ensures
        expansion_of_at(stream_toks(r), input, syntax, site),
{
    match parse_match(input, site.call) {
        Ok(m) => expand_match_at(m, syntax, site),
        Err(e) => toks_to_stream(e.as_slice()),
    }
}

/// Rewrites a parsed `match` for `syntax`, at the spans of the macro
/// invocation being expanded.
pub fn expand_match(m: syn::ExprMatch, syntax: Syntax) -> (r: TokenStream)
    ensures
        expansion(stream_toks(r), match_head(m), arms_printed(m), syntax),
{
    let site = Site { mixed: mixed_site(), call: call_site() };
    let r = expand_match_at(m, syntax, site);
    assert(expansion_at(stream_toks(r), match_head(m), arms_printed(m), syntax, site));
    r
}

/// Parses the macro's input as a `match` and rewrites it for `syntax`, at the
/// spans of the macro invocation being expanded; input that is no `match`
/// gives `syn`'s error instead.
pub fn expand_tokens(input: TokenStream, syntax: Syntax) -> (r: TokenStream)
    ensures
        expansion_of(stream_toks(r), input, syntax),
{
    let site = Site { mixed: mixed_site(), call: call_site() };
    let r = expand_tokens_at(input, syntax, site);
    assert(expansion_of_at(stream_toks(r), input, syntax, site));
    r
}

} // verus!
