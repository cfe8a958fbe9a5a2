//! Rewriting a pattern: every deref macro in it is replaced by a fresh
//! identifier `a0`, `a1`, ..., and recorded as a binding that the arm's guard
//! and body will destructure.
use vstd::prelude::*;
use proc_macro2::{Ident, Span};
use crate::token::{
    self as tk, Tok, TokS, clone_tok, clone_toks, extend_toks_owned, ident_span_of, ident_text_of,
    mark_at_exec, new_ident, span_resolved_at, str_eq, tokens_span_of, word_at_exec,
};
use crate::deref::{self, DerefPattern};
use crate::keyword::{self, Type};
use crate::parsing::{self, check_single_pattern, error_tokens_of};

verus! {

/// Which deref macros a pattern is read for.
#[derive(Clone, Copy, PartialEq, Eq, Structural, Debug)]
pub enum Syntax {
    /// `mb!(& mut * * PAT)`
    Sigil,
    /// `owned!(PAT)`, `deref!(PAT)`, `derefref!(PAT)`, `mutderef!(PAT)`, `mutderefref!(PAT)`
    Keyword,
}

/// The two spans of the macro invocation being expanded: its mixed site, which
/// gives fresh identifiers their hygiene, and its call site, where `syn`
/// places errors at the end of its input.
#[derive(Clone, Copy)]
pub struct Site {
    pub mixed: Span,
    pub call: Span,
}

/// What a deref macro asked for.
#[derive(Clone, Copy)]
pub enum MacroKind {
    Sigil(DerefPattern),
    Keyword(Type),
}

/// One deref macro taken out of a pattern: the identifier that now stands in
/// its place, what it asked for, its inner pattern (already rewritten), and the
/// span of the macro's name.
pub struct Bind {
    pub id: Ident,
    pub kind: MacroKind,
    pub pat: Vec<Tok>,
    pub span: Span,
}

pub struct BindS {
    pub id: Ident,
    pub kind: MacroKind,
    pub pat: Seq<TokS>,
    pub span: Span,
}

/// The identifier of the `k`-th binding spells `fresh_name(k)`, for every `k`.
pub open spec fn spelled_fresh(b: Seq<Bind>) -> bool {
    forall|k: int| 0 <= k < b.len() ==> tk::ident_text(#[trigger] b[k].id) == fresh_name(k as nat)
}

pub open spec fn bind_view(b: Bind) -> BindS {
    BindS { id: b.id, kind: b.kind, pat: tk::toks_view(b.pat@), span: b.span }
}

pub open spec fn binds_view(v: Seq<Bind>) -> Seq<BindS> {
    Seq::new(v.len(), |k: int| bind_view(v[k]))
}

/// The name of a deref macro, for `syntax`.
pub open spec fn names_deref_macro(syntax: Syntax, text: Seq<char>) -> bool {
    match syntax {
        Syntax::Sigil => text == "mb"@,
        Syntax::Keyword => keyword::keyword_type(text) is Some,
    }
}

/// `s[i]`, `s[i + 1]`, `s[i + 2]` are an identifier, `!` and a group: a macro
/// invocation whose path ends with that identifier.
pub open spec fn is_macro_at(s: Seq<TokS>, i: int) -> bool {
    &&& 0 <= i
    &&& i + 2 < s.len()
    &&& s[i] is Word
    &&& tk::mark_at(s, i + 1, '!')
    &&& s[i + 2] is Group
}

/// `s[k]` is a `-` joined to what follows (the start of `->`).
pub open spec fn is_joint_dash(s: Seq<TokS>, k: int) -> bool {
    &&& 0 <= k < s.len()
    &&& s[k] matches TokS::Mark(p) && tk::punct_char(p) == '-' && tk::punct_joint(p)
}

/// Where the pattern after `box` ends: at the first `,` or `|` from `s[j]` on
/// that stands outside angle brackets (`depth` of them are open before
/// `s[j]`; a `>` of `->` closes none), or at the end of `s`.
pub open spec fn box_end(s: Seq<TokS>, j: int, depth: nat) -> int
    decreases s.len() - j,
{
    if j < 0 || j >= s.len() {
        s.len() as int
    } else if tk::mark_at(s, j, '<') {
        box_end(s, j + 1, depth + 1)
    } else if tk::mark_at(s, j, '>') && !is_joint_dash(s, j - 1) && depth > 0 {
        box_end(s, j + 1, (depth - 1) as nat)
    } else if depth == 0 && (tk::mark_at(s, j, ',') || tk::mark_at(s, j, '|')) {
        j
    } else {
        box_end(s, j + 1, depth)
    }
}

/// Just after the `>` that closes, at nesting `depth`, the angle brackets
/// open before `s[j]` (a `>` of `->` closes nothing); or the end of `s`.
pub open spec fn angle_end(s: Seq<TokS>, j: int, depth: nat) -> int
    decreases s.len() - j,
{
    if j < 0 || j >= s.len() {
        s.len() as int
    } else if tk::mark_at(s, j, '<') {
        angle_end(s, j + 1, depth + 1)
    } else if tk::mark_at(s, j, '>') && !is_joint_dash(s, j - 1) {
        if depth <= 1 {
            j + 1
        } else {
            angle_end(s, j + 1, (depth - 1) as nat)
        }
    } else {
        angle_end(s, j + 1, depth)
    }
}

/// Where the run of tokens starting at `s[i]` that holds no pattern to rewrite
/// ends, or `i` where `s[i]` starts none: a `const { .. }` block, an attribute
/// `#[ .. ]`, a `box` pattern (which `syn` keeps verbatim), or angle brackets
/// `< .. >` (generic arguments and qualified paths, which hold types).
pub open spec fn opaque_end(s: Seq<TokS>, i: int) -> int {
    if 0 <= i && i + 1 < s.len() && {
        ||| tk::word_at(s, i, "const"@) && s[i + 1] matches TokS::Group(tk::Delim::Brace, _, _, _)
        ||| tk::mark_at(s, i, '#') && s[i + 1] matches TokS::Group(tk::Delim::Bracket, _, _, _)
    } {
        i + 2
    } else if tk::word_at(s, i, "box"@) {
        box_end(s, i + 1, 0)
    } else if tk::mark_at(s, i, '<') {
        angle_end(s, i + 1, 1)
    } else {
        i
    }
}

pub proof fn lemma_box_end(s: Seq<TokS>, j: int, depth: nat)
    requires
        0 <= j <= s.len(),
    ensures
        j <= box_end(s, j, depth) <= s.len(),
    decreases s.len() - j,
{
    if j < s.len() {
        if tk::mark_at(s, j, '<') {
            lemma_box_end(s, j + 1, depth + 1);
        } else if tk::mark_at(s, j, '>') && !is_joint_dash(s, j - 1) && depth > 0 {
            lemma_box_end(s, j + 1, (depth - 1) as nat);
        } else if !(depth == 0 && (tk::mark_at(s, j, ',') || tk::mark_at(s, j, '|'))) {
            lemma_box_end(s, j + 1, depth);
        }
    }
}

pub proof fn lemma_angle_end(s: Seq<TokS>, j: int, depth: nat)
    requires
        0 <= j <= s.len(),
    ensures
        j <= angle_end(s, j, depth) <= s.len(),
    decreases s.len() - j,
{
    if j < s.len() {
        if tk::mark_at(s, j, '<') {
            lemma_angle_end(s, j + 1, depth + 1);
        } else if tk::mark_at(s, j, '>') && !is_joint_dash(s, j - 1) {
            if depth > 1 {
                lemma_angle_end(s, j + 1, (depth - 1) as nat);
            }
        } else {
            lemma_angle_end(s, j + 1, depth);
        }
    }
}

pub proof fn lemma_opaque_end(s: Seq<TokS>, i: int)
    requires
        0 <= i < s.len(),
    ensures
        i <= opaque_end(s, i) <= s.len(),
        opaque_end(s, i) == i || i < opaque_end(s, i),
{
    lemma_box_end(s, i + 1, 0);
    lemma_angle_end(s, i + 1, 1);
}

/// How a deref macro named `text` with contents `inner` is read: what it asks
/// for and where its inner pattern starts; or the error tokens that take its
/// place.
pub open spec fn macro_start(syntax: Syntax, text: Seq<char>, inner: Seq<TokS>, call: Span) -> Result<
    (MacroKind, int),
    Seq<TokS>,
> {
    match syntax {
        Syntax::Sigil => match DerefPattern::spec_parse(inner, call) {
            Err(sp) => Err(parsing::error_tokens(deref::expected_star(), sp)),
            Ok((p, k)) => match parsing::single_pattern_error(inner.subrange(k, inner.len() as int), call) {
                Some(e) => Err(e),
                None => Ok((MacroKind::Sigil(p), k)),
            },
        },
        Syntax::Keyword => match parsing::single_pattern_error(inner.subrange(0, inner.len() as int), call) {
            Some(e) => Err(e),
            None => Ok((MacroKind::Keyword(keyword::keyword_type(text).unwrap()), 0)),
        },
    }
}

/// The keyword form leaves alone an inner pattern that is itself a macro
/// invocation, and rewrites only what lies within other patterns.
pub open spec fn keeps_inner(syntax: Syntax, inner: Seq<TokS>) -> bool {
    syntax == Syntax::Keyword && inner.len() == 3 && is_macro_at(inner, 0)
}

pub open spec fn digit(d: nat) -> char {
    if d == 0 {
        '0'
    } else if d == 1 {
        '1'
    } else if d == 2 {
        '2'
    } else if d == 3 {
        '3'
    } else if d == 4 {
        '4'
    } else if d == 5 {
        '5'
    } else if d == 6 {
        '6'
    } else if d == 7 {
        '7'
    } else if d == 8 {
        '8'
    } else {
        '9'
    }
}

/// `n` written in decimal.
pub open spec fn decimal(n: nat) -> Seq<char>
    decreases n,
{
    if n < 10 {
        seq![digit(n)]
    } else {
        decimal(n / 10).push(digit(n % 10))
    }
}

/// The name of the `n`-th fresh identifier of an arm: `a0`, `a1`, ...
pub open spec fn fresh_name(n: nat) -> Seq<char> {
    seq!['a'] + decimal(n)
}

/// The `n`-th fresh identifier, for the rewritten inner pattern `pat`: at the
/// pattern's location, with the hygiene of the mixed site, so that it cannot
/// capture or shadow a name of the user's.
pub open spec fn fresh_ident(n: nat, pat: Seq<TokS>, site: Site) -> Ident {
    tk::ident_new(fresh_name(n), tk::resolved_at(tk::tokens_span(pat, site.call), site.mixed))
}

/// What a deref macro named `name` with contents `inner` is replaced by, and
/// the bindings once it is taken: either the error tokens of its contents, or
/// a fresh identifier, numbered by the bindings found so far, with a new
/// binding for it; its inner pattern is rewritten first.
pub open spec fn expand(name: Ident, inner: Seq<TokS>, b: Seq<BindS>, syntax: Syntax, site: Site) -> (
    Seq<TokS>,
    Seq<BindS>,
)
    decreases inner, inner.len() + 1,
{
    match macro_start(syntax, tk::ident_text(name), inner, site.call) {
        Err(e) => (e, b),
        Ok((kind, k)) => {
            let p = if keeps_inner(syntax, inner) {
                (inner, b)
            } else {
                rw_at(inner, k, false, false, b, syntax, site)
            };
            let id = fresh_ident(p.1.len(), p.0, site);
            (seq![TokS::Word(id)], p.1.push(BindS { id, kind, pat: p.0, span: tk::ident_span(name) }))
        },
    }
}

/// Rewrites `s[i..]`, where the token before `s[i]` was a joint `:` (`colon`)
/// and the two before it were `::` (`after_path_sep`), with the bindings `b`
/// found so far. Gives the rewritten tokens and all bindings.
///
/// Scanning left to right: a deref macro not preceded by `::` is replaced by a
/// fresh identifier (or by the error tokens of its contents); any other macro
/// invocation, `const` block or attribute is kept whole; a group is rewritten
/// inside; every other token is kept.
pub open spec fn rw_at(
    s: Seq<TokS>,
    i: int,
    colon: bool,
    after_path_sep: bool,
    b: Seq<BindS>,
    syntax: Syntax,
    site: Site,
) -> (Seq<TokS>, Seq<BindS>)
    decreases s, s.len() - i,
{
    if i < 0 || i >= s.len() {
        (Seq::empty(), b)
    } else if is_macro_at(s, i) {
        match (s[i], s[i + 2]) {
            (TokS::Word(name), TokS::Group(_, _, _, inner)) => {
                if !after_path_sep && names_deref_macro(syntax, tk::ident_text(name)) {
                    let e = expand(name, inner, b, syntax, site);
                    let r = rw_at(s, i + 3, false, false, e.1, syntax, site);
                    (e.0 + r.0, r.1)
                } else {
                    let r = rw_at(s, i + 3, false, false, b, syntax, site);
                    (s.subrange(i, i + 3) + r.0, r.1)
                }
            },
            _ => (Seq::empty(), b),
        }
    } else if opaque_end(s, i) > i {
        let e = opaque_end(s, i);
        proof {
            lemma_opaque_end(s, i);
        }
        let r = rw_at(s, e, false, false, b, syntax, site);
        (s.subrange(i, e) + r.0, r.1)
    } else {
        match s[i] {
            TokS::Group(d, sp, o, inner) => {
                let g = rw_at(inner, 0, false, false, b, syntax, site);
                let r = rw_at(s, i + 1, false, false, g.1, syntax, site);
                (seq![TokS::Group(d, sp, o, g.0)] + r.0, r.1)
            },
            TokS::Mark(p) => {
                let is_colon = tk::punct_char(p) == ':';
                let r = rw_at(
                    s,
                    i + 1,
                    is_colon && tk::punct_joint(p),
                    is_colon && colon,
                    b,
                    syntax,
                    site,
                );
                (seq![s[i]] + r.0, r.1)
            },
            _ => {
                let r = rw_at(s, i + 1, false, false, b, syntax, site);
                (seq![s[i]] + r.0, r.1)
            },
        }
    }
}

/// Rewrites a whole pattern, with no binding found yet.
pub open spec fn rewrite(s: Seq<TokS>, syntax: Syntax, site: Site) -> (Seq<TokS>, Seq<BindS>) {
    rw_at(s, 0, false, false, Seq::empty(), syntax, site)
}

} // verus!

verus! {

pub fn digit_char(d: usize) -> (c: char)
    requires
        d < 10,
    ensures
        c == digit(d as nat),
{
    if d == 0 {
        '0'
    } else if d == 1 {
        '1'
    } else if d == 2 {
        '2'
    } else if d == 3 {
        '3'
    } else if d == 4 {
        '4'
    } else if d == 5 {
        '5'
    } else if d == 6 {
        '6'
    } else if d == 7 {
        '7'
    } else if d == 8 {
        '8'
    } else {
        '9'
    }
}

pub fn decimal_chars(n: usize) -> (r: Vec<char>)
    ensures
        r@ == decimal(n as nat),
    decreases n,
{
    if n < 10 {
        let mut r: Vec<char> = Vec::new();
        r.push(digit_char(n));
        r
    } else {
        let mut r = decimal_chars(n / 10);
        r.push(digit_char(n % 10));
        r
    }
}

pub proof fn lemma_decimal_digits(n: nat)
    ensures
        decimal(n).len() > 0,
        forall|k: int| 0 <= k < decimal(n).len() ==> '0' <= #[trigger] decimal(n)[k] <= '9',
    decreases n,
{
    if n >= 10 {
        lemma_decimal_digits(n / 10);
    }
}

pub proof fn lemma_fresh_name_ok(n: nat)
    ensures
        tk::ident_ok(fresh_name(n)),
{
    lemma_decimal_digits(n);
    let t = fresh_name(n);
    assert forall|k: int| 0 <= k < t.len() implies tk::ascii_ident_char(#[trigger] t[k]) by {
        if k > 0 {
            assert(t[k] == decimal(n)[k - 1]);
        }
    }
}

pub fn fresh_name_chars(n: usize) -> (r: Vec<char>)
    ensures
        r@ == fresh_name(n as nat),
        tk::ident_ok(r@),
{
    let mut r: Vec<char> = Vec::new();
    r.push('a');
    let mut d = decimal_chars(n);
    r.append(&mut d);
    proof {
        lemma_fresh_name_ok(n as nat);
        assert(r@ =~= fresh_name(n as nat));
    }
    r
}

pub fn names_deref_macro_exec(syntax: Syntax, text: &str) -> (r: bool)
    ensures
        r == names_deref_macro(syntax, text@),
{
    match syntax {
        Syntax::Sigil => str_eq(text, "mb"),
        Syntax::Keyword => Type::from_str(text).is_ok(),
    }
}

pub fn macro_start_exec(syntax: Syntax, text: &str, inner: &Vec<Tok>, call: Span) -> (r: Result<
    (MacroKind, usize),
    Vec<Tok>,
>)
    requires
        names_deref_macro(syntax, text@),
    ensures
        match r {
            Ok((kind, k)) => k <= inner.len() && macro_start(
                syntax,
                text@,
                tk::toks_view(inner@),
                call,
            ) == Ok::<(MacroKind, int), Seq<TokS>>((kind, k as int)) && (kind matches MacroKind::Sigil(p) ==> p.wf()),
            Err(e) => macro_start(syntax, text@, tk::toks_view(inner@), call) == Err::<
                (MacroKind, int),
                Seq<TokS>,
            >(tk::toks_view(e@)),
        },
{
    let ghost s = tk::toks_view(inner@);
    assert(s.len() == inner@.len());
    match syntax {
        Syntax::Sigil => match DerefPattern::parse_prefix(inner, call) {
            Err(sp) => {
                let e = error_tokens_of("expected `*`", sp);
                Err(e)
            },
            Ok((p, k)) => {
                assert(tk::toks_view(inner@).subrange(k as int, inner@.len() as int) =~= s.subrange(
                    k as int,
                    s.len() as int,
                ));
                match check_single_pattern(inner, k, call) {
                    Some(e) => Err(e),
                    None => Ok((MacroKind::Sigil(p), k)),
                }
            },
        },
        Syntax::Keyword => {
            match check_single_pattern(inner, 0, call) {
                Some(e) => Err(e),
                None => Ok((MacroKind::Keyword(Type::from_str(text).unwrap()), 0)),
            }
        },
    }
}

} // verus!

verus! {

pub fn keeps_inner_exec(syntax: Syntax, inner: &Vec<Tok>) -> (r: bool)
    ensures
        r == keeps_inner(syntax, tk::toks_view(inner@)),
{
    syntax == Syntax::Keyword && inner.len() == 3 && mark_at_exec(inner, 1, '!') && match (
        &inner[0],
        &inner[2],
    ) {
        (Tok::Word(_), Tok::Group(_, _, _, _)) => true,
        _ => false,
    }
}

pub fn box_end_exec(toks: &Vec<Tok>, j: usize) -> (r: usize)
    requires
        j <= toks.len(),
    ensures
        r == box_end(tk::toks_view(toks@), j as int, 0),
{
    let ghost s = tk::toks_view(toks@);
    let mut k = j;
    let mut depth: usize = 0;
    while k < toks.len()
        invariant
            j <= k <= toks.len(),
            depth <= k - j,
            s == tk::toks_view(toks@),
            box_end(s, j as int, 0) == box_end(s, k as int, depth as nat),
        decreases toks.len() - k,
    {
        if mark_at_exec(toks, k, '<') {
            depth = depth + 1;
        } else if mark_at_exec(toks, k, '>') && depth > 0 && !(k > 0 && match &toks[k - 1] {
            Tok::Mark(p) => tk::punct_char_of(p) == '-' && tk::punct_joint_of(p),
            _ => false,
        }) {
            depth = depth - 1;
        } else if depth == 0 && (mark_at_exec(toks, k, ',') || mark_at_exec(toks, k, '|')) {
            return k;
        }
        k = k + 1;
    }
    k
}

pub fn angle_end_exec(toks: &Vec<Tok>, j: usize) -> (r: usize)
    requires
        1 <= j <= toks.len(),
    ensures
        r == angle_end(tk::toks_view(toks@), j as int, 1),
{
    let ghost s = tk::toks_view(toks@);
    let mut k = j;
    let mut depth: usize = 1;
    while k < toks.len()
        invariant
            1 <= j <= k <= toks.len(),
            1 <= depth <= k - j + 1,
            s == tk::toks_view(toks@),
            angle_end(s, j as int, 1) == angle_end(s, k as int, depth as nat),
        decreases toks.len() - k,
    {
        if mark_at_exec(toks, k, '<') {
            depth = depth + 1;
        } else if mark_at_exec(toks, k, '>') {
            let dash = k > 0 && match &toks[k - 1] {
                Tok::Mark(p) => tk::punct_char_of(p) == '-' && tk::punct_joint_of(p),
                _ => false,
            };
            if !dash {
                if depth <= 1 {
                    return k + 1;
                }
                depth = depth - 1;
            }
        }
        k = k + 1;
    }
    k
}

pub fn opaque_end_exec(toks: &Vec<Tok>, i: usize) -> (r: usize)
    requires
        i < toks.len(),
    ensures
        r == opaque_end(tk::toks_view(toks@), i as int),
{
    proof {
        reveal_strlit("const");
        reveal_strlit("box");
    }
    let pair = toks.len() - i > 1 && ((word_at_exec(toks, i, "const") && match &toks[i + 1] {
        Tok::Group(tk::Delim::Brace, _, _, _) => true,
        _ => false,
    }) || (mark_at_exec(toks, i, '#') && match &toks[i + 1] {
        Tok::Group(tk::Delim::Bracket, _, _, _) => true,
        _ => false,
    }));
    if pair {
        i + 2
    } else if word_at_exec(toks, i, "box") {
        box_end_exec(toks, i + 1)
    } else if mark_at_exec(toks, i, '<') {
        angle_end_exec(toks, i + 1)
    } else {
        i
    }
}

/// What the deref macro named `w` with contents `inner` is replaced by (see
/// `expand`), adding its binding to `binds`.
pub fn expand_exec(w: &Ident, inner: &Vec<Tok>, binds: &mut Vec<Bind>, syntax: Syntax, site: Site) -> (r: Vec<Tok>)
    requires
        names_deref_macro(syntax, tk::ident_text(*w)),
    ensures
        (tk::toks_view(r@), binds_view(final(binds)@)) == expand(
            *w,
            tk::toks_view(inner@),
            binds_view(old(binds)@),
            syntax,
            site,
        ),
        spelled_fresh(old(binds)@) ==> spelled_fresh(final(binds)@),
    decreases inner@, 3nat,
{
    let text = ident_text_of(w);
    match macro_start_exec(syntax, text.as_str(), inner, site.call) {
        Err(e) => e,
        Ok((kind, k)) => {
            let pat = if keeps_inner_exec(syntax, inner) {
                clone_toks(inner)
            } else {
                rewrite_from(inner, k, binds, syntax, site)
            };
            let ghost b1 = binds_view(binds@);
            let n = binds.len();
            let name = fresh_name_chars(n);
            let pat_span = tokens_span_of(&pat, site.call);
            let id = new_ident(&name, span_resolved_at(pat_span, site.mixed));
            let span = ident_span_of(w);
            let ghost pv = tk::toks_view(pat@);
            binds.push(Bind { id: id.clone(), kind, pat, span });
            let mut r: Vec<Tok> = Vec::new();
            r.push(Tok::Word(id));
            proof {
                assert(binds_view(binds@) =~= b1.push(
                    BindS { id, kind, pat: pv, span: tk::ident_span(*w) },
                ));
                assert(tk::toks_view(r@) =~= seq![TokS::Word(id)]);
            }
            r
        },
    }
}

/// The tokens `s[i..]` still to rewrite give `out` followed by what is left of
/// the rewrite of `s[i..]`.
pub open spec fn step_kept(
    s: Seq<TokS>,
    i: int,
    colon: bool,
    after_path_sep: bool,
    b: Seq<BindS>,
    out: Seq<TokS>,
    syntax: Syntax,
    site: Site,
) -> (Seq<TokS>, Seq<BindS>) {
    let r = rw_at(s, i, colon, after_path_sep, b, syntax, site);
    (out + r.0, r.1)
}

/// The rewrite of `s[i..]` after `out`.
pub open spec fn step_ok(
    s: Seq<TokS>,
    i: int,
    colon: bool,
    after_path_sep: bool,
    b0: Seq<BindS>,
    out0: Seq<TokS>,
    r: (usize, bool, bool),
    b1: Seq<BindS>,
    out1: Seq<TokS>,
    syntax: Syntax,
    site: Site,
) -> bool {
    &&& i < r.0 <= s.len()
    &&& step_kept(s, r.0 as int, r.1, r.2, b1, out1, syntax, site) == step_kept(
        s,
        i,
        colon,
        after_path_sep,
        b0,
        out0,
        syntax,
        site,
    )
}

/// The macro invocation `w ! inner` at `toks[i]`.
fn step_macro(
    toks: &Vec<Tok>,
    i: usize,
    w: &Ident,
    inner: &Vec<Tok>,
    colon: bool,
    after_path_sep: bool,
    binds: &mut Vec<Bind>,
    out: &mut Vec<Tok>,
    syntax: Syntax,
    site: Site,
) -> (r: (usize, bool, bool))
    requires
        i + 2 < toks.len(),
        toks@[i as int] == Tok::Word(*w),
        toks@[i + 2] matches Tok::Group(_, _, _, v) && v == *inner,
        tk::mark_at(tk::toks_view(toks@), i + 1, '!'),
    ensures
        step_ok(tk::toks_view(toks@), i as int, colon, after_path_sep, binds_view(old(binds)@), tk::toks_view(old(out)@), r, binds_view(final(binds)@), tk::toks_view(final(out)@), syntax, site),
        spelled_fresh(old(binds)@) ==> spelled_fresh(final(binds)@),
    decreases toks@, 0nat,
{
    let ghost s = tk::toks_view(toks@);
    let ghost b0 = binds_view(binds@);
    let ghost out0 = tk::toks_view(out@);
    let ghost d = toks@[i + 2]->Group_0;
    let ghost sp = toks@[i + 2]->Group_1;
    let ghost o = toks@[i + 2]->Group_2;
    proof {
        tk::lemma_group_view(d, sp, o, *inner);
        assert(is_macro_at(s, i as int));
        assert(s[i as int] == TokS::Word(*w));
        assert(s[i + 2] == TokS::Group(d, sp, o, tk::toks_view(inner@)));
    }
    let text = ident_text_of(w);
    if !after_path_sep && names_deref_macro_exec(syntax, text.as_str()) {
        proof {
            assert(decreases_to!(toks@ => inner@));
        }
        let e = expand_exec(w, inner, binds, syntax, site);
        proof {
            tk::lemma_toks_view_add(out@, e@);
        }
        extend_toks_owned(out, e);
    } else {
        out.push(clone_tok(&toks[i]));
        out.push(clone_tok(&toks[i + 1]));
        out.push(clone_tok(&toks[i + 2]));
        assert(tk::toks_view(out@) =~= out0 + s.subrange(i as int, i + 3));
    }
    assert(step_kept(s, i + 3, false, false, binds_view(binds@), tk::toks_view(out@), syntax, site).0
        =~= step_kept(s, i as int, colon, after_path_sep, b0, out0, syntax, site).0);
    (i + 3, false, false)
}

/// The run `toks[i..e]` that holds no pattern to rewrite, kept as it is.
fn step_opaque(
    toks: &Vec<Tok>,
    i: usize,
    e: usize,
    colon: bool,
    after_path_sep: bool,
    binds: &Vec<Bind>,
    out: &mut Vec<Tok>,
    syntax: Syntax,
    site: Site,
) -> (r: (usize, bool, bool))
    requires
        i < e <= toks.len(),
        !is_macro_at(tk::toks_view(toks@), i as int),
        e == opaque_end(tk::toks_view(toks@), i as int),
    ensures
        step_ok(tk::toks_view(toks@), i as int, colon, after_path_sep, binds_view(binds@), tk::toks_view(old(out)@), r, binds_view(binds@), tk::toks_view(final(out)@), syntax, site),
{
    let ghost s = tk::toks_view(toks@);
    let ghost out0 = tk::toks_view(out@);
    let mut k = i;
    while k < e
        invariant
            i <= k <= e <= toks.len(),
            s == tk::toks_view(toks@),
            tk::toks_view(out@) == out0 + s.subrange(i as int, k as int),
        decreases e - k,
    {
        proof {
            tk::lemma_toks_view_push(out@, toks@[k as int]);
            assert(s[k as int] == tk::tok_view(toks@[k as int]));
            assert(s.subrange(i as int, k + 1) =~= s.subrange(i as int, k as int).push(s[k as int]));
        }
        out.push(clone_tok(&toks[k]));
        k = k + 1;
        assert(tk::toks_view(out@) =~= out0 + s.subrange(i as int, k as int));
    }
    assert(step_kept(s, e as int, false, false, binds_view(binds@), tk::toks_view(out@), syntax, site).0
        =~= step_kept(s, i as int, colon, after_path_sep, binds_view(binds@), out0, syntax, site).0);
    (e, false, false)
}

/// The group `toks[i]`, with delimiter `d`, span `sp`, opening span `o` and
/// contents `inner`, rewritten inside.
fn step_group(
    toks: &Vec<Tok>,
    i: usize,
    d: tk::Delim,
    sp: Span,
    o: Span,
    inner: &Vec<Tok>,
    colon: bool,
    after_path_sep: bool,
    binds: &mut Vec<Bind>,
    out: &mut Vec<Tok>,
    syntax: Syntax,
    site: Site,
) -> (r: (usize, bool, bool))
    requires
        i < toks.len(),
        toks@[i as int] == Tok::Group(d, sp, o, *inner),
        !is_macro_at(tk::toks_view(toks@), i as int),
        opaque_end(tk::toks_view(toks@), i as int) == i,
    ensures
        step_ok(tk::toks_view(toks@), i as int, colon, after_path_sep, binds_view(old(binds)@), tk::toks_view(old(out)@), r, binds_view(final(binds)@), tk::toks_view(final(out)@), syntax, site),
        spelled_fresh(old(binds)@) ==> spelled_fresh(final(binds)@),
    decreases toks@, 0nat,
{
    let ghost s = tk::toks_view(toks@);
    let ghost b0 = binds_view(binds@);
    let ghost out0 = tk::toks_view(out@);
    proof {
        tk::lemma_group_view(d, sp, o, *inner);
        assert(decreases_to!(toks@ => inner@));
    }
    let g = rewrite_from(inner, 0, binds, syntax, site);
    let t = Tok::Group(d, sp, o, g);
    proof {
        tk::lemma_group_view(d, sp, o, g);
        tk::lemma_toks_view_push(out@, t);
    }
    out.push(t);
    assert(step_kept(s, i + 1, false, false, binds_view(binds@), tk::toks_view(out@), syntax, site).0
        =~= step_kept(s, i as int, colon, after_path_sep, b0, out0, syntax, site).0);
    (i + 1, false, false)
}

/// A token that is no group at `toks[i]`, kept; a `:` is remembered.
fn step_token(
    toks: &Vec<Tok>,
    i: usize,
    colon: bool,
    after_path_sep: bool,
    binds: &Vec<Bind>,
    out: &mut Vec<Tok>,
    syntax: Syntax,
    site: Site,
) -> (r: (usize, bool, bool))
    requires
        i < toks.len(),
        !(toks@[i as int] is Group),
        !is_macro_at(tk::toks_view(toks@), i as int),
        opaque_end(tk::toks_view(toks@), i as int) == i,
    ensures
        step_ok(tk::toks_view(toks@), i as int, colon, after_path_sep, binds_view(binds@), tk::toks_view(old(out)@), r, binds_view(binds@), tk::toks_view(final(out)@), syntax, site),
{
    let ghost s = tk::toks_view(toks@);
    let ghost b0 = binds_view(binds@);
    let ghost out0 = tk::toks_view(out@);
    proof {
        tk::lemma_toks_view_push(out@, toks@[i as int]);
    }
    let (c, j) = match &toks[i] {
        Tok::Mark(p) => (tk::punct_char_of(p) == ':', tk::punct_joint_of(p)),
        _ => (false, false),
    };
    out.push(clone_tok(&toks[i]));
    let nc = c && j;
    let ns = c && colon;
    assert(step_kept(s, i + 1, nc, ns, b0, tk::toks_view(out@), syntax, site).0
        =~= step_kept(s, i as int, colon, after_path_sep, b0, out0, syntax, site).0);
    (i + 1, nc, ns)
}

/// Rewrites what starts at `toks[i]`, appending the result to `out`; returns
/// where to go on, and the new `colon` and `after_path_sep`.
fn rewrite_step(
    toks: &Vec<Tok>,
    i: usize,
    colon: bool,
    after_path_sep: bool,
    binds: &mut Vec<Bind>,
    out: &mut Vec<Tok>,
    syntax: Syntax,
    site: Site,
) -> (r: (usize, bool, bool))
    requires
        i < toks.len(),
    ensures
        step_ok(tk::toks_view(toks@), i as int, colon, after_path_sep, binds_view(old(binds)@), tk::toks_view(old(out)@), r, binds_view(final(binds)@), tk::toks_view(final(out)@), syntax, site),
        spelled_fresh(old(binds)@) ==> spelled_fresh(final(binds)@),
    decreases toks@, 1nat,
{
    let mac: Option<(&Ident, &Vec<Tok>)> = if toks.len() - i > 2 && mark_at_exec(toks, i + 1, '!') {
        match (&toks[i], &toks[i + 2]) {
            (Tok::Word(w), Tok::Group(_, _, _, inner)) => Some((w, inner)),
            _ => None,
        }
    } else {
        None
    };
    if let Some((w, inner)) = mac {
        return step_macro(toks, i, w, inner, colon, after_path_sep, binds, out, syntax, site);
    }
    let e = opaque_end_exec(toks, i);
    proof {
        lemma_opaque_end(tk::toks_view(toks@), i as int);
    }
    if e > i {
        step_opaque(toks, i, e, colon, after_path_sep, binds, out, syntax, site)
    } else if let Tok::Group(d, sp, o, inner) = &toks[i] {
        step_group(toks, i, *d, *sp, *o, inner, colon, after_path_sep, binds, out, syntax, site)
    } else {
        step_token(toks, i, colon, after_path_sep, binds, out, syntax, site)
    }
}

/// Rewrites `toks[start..]` (see `rw_at`), adding the bindings it finds to
/// `binds`.
pub fn rewrite_from(toks: &Vec<Tok>, start: usize, binds: &mut Vec<Bind>, syntax: Syntax, site: Site) -> (r: Vec<Tok>)
    requires
        start <= toks.len(),
    ensures
        (tk::toks_view(r@), binds_view(final(binds)@)) == rw_at(
            tk::toks_view(toks@),
            start as int,
            false,
            false,
            binds_view(old(binds)@),
            syntax,
            site,
        ),
        spelled_fresh(old(binds)@) ==> spelled_fresh(final(binds)@),
    decreases toks@, 2nat,
{
    let ghost s = tk::toks_view(toks@);
    let mut out: Vec<Tok> = Vec::new();
    let mut i: usize = start;
    let mut colon = false;
    let mut after_path_sep = false;
    assert(step_kept(s, i as int, colon, after_path_sep, binds_view(binds@), tk::toks_view(out@), syntax, site) =~=
        rw_at(s, start as int, false, false, binds_view(binds@), syntax, site));
    while i < toks.len()
        invariant
            start <= i <= toks.len(),
            s == tk::toks_view(toks@),
            step_kept(s, i as int, colon, after_path_sep, binds_view(binds@), tk::toks_view(out@), syntax, site)
                == rw_at(s, start as int, false, false, binds_view(old(binds)@), syntax, site),
            spelled_fresh(old(binds)@) ==> spelled_fresh(binds@),
        decreases toks.len() - i,
    {
        let (ni, nc, ns) = rewrite_step(toks, i, colon, after_path_sep, binds, &mut out, syntax, site);
        i = ni;
        colon = nc;
        after_path_sep = ns;
    }
    assert(tk::toks_view(out@) =~= step_kept(s, i as int, colon, after_path_sep, binds_view(binds@), tk::toks_view(out@), syntax, site).0);
    out
}

} // verus!
