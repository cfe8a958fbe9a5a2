//! A plain-value model of a token stream, and the trusted items through which
//! it meets `proc_macro2`.
//!
//! Identifiers, punctuation and literals are carried as the `proc_macro2`
//! values themselves, so that spans and hygiene pass through untouched; a
//! delimited group is unfolded into a `Vec` of its tokens, so that verified
//! code can walk it.
use vstd::prelude::*;
use proc_macro2::{Delimiter, Group, Ident, Literal, Punct, Spacing, Span, TokenStream, TokenTree};

verus! {

#[verifier::external_type_specification]
#[verifier::external_body]
pub struct ExSpan(Span);

#[verifier::external_type_specification]
#[verifier::external_body]
pub struct ExIdent(Ident);

#[verifier::external_type_specification]
#[verifier::external_body]
pub struct ExPunct(Punct);

#[verifier::external_type_specification]
#[verifier::external_body]
pub struct ExLiteral(Literal);

#[verifier::external_type_specification]
#[verifier::external_body]
pub struct ExTokenStream(TokenStream);

#[verifier::external_type_specification]
#[verifier::external_body]
pub struct ExDelimiter(Delimiter);

/// `Clone` of `proc_macro2::Ident` gives back an equal identifier.
pub assume_specification[ <proc_macro2::Ident as Clone>::clone ](i: &proc_macro2::Ident) -> (r: proc_macro2::Ident)
    ensures
        r == *i,
;

/// `Clone` of `proc_macro2::Punct` gives back an equal punctuation token.
pub assume_specification[ <proc_macro2::Punct as Clone>::clone ](p: &proc_macro2::Punct) -> (r: proc_macro2::Punct)
    ensures
        r == *p,
;

/// `Clone` of `proc_macro2::Literal` gives back an equal literal.
pub assume_specification[ <proc_macro2::Literal as Clone>::clone ](l: &proc_macro2::Literal) -> (r: proc_macro2::Literal)
    ensures
        r == *l,
;

/// The delimiter of a group.
#[derive(Clone, Copy, PartialEq, Eq, Structural, Debug)]
pub enum Delim {
    Parenthesis,
    Brace,
    Bracket,
    Invisible,
}

/// One token tree: an identifier, a punctuation character, a literal, or a
/// delimited group with its whole span, the span of its opening delimiter and
/// its contents.
pub enum Tok {
    Word(Ident),
    Mark(Punct),
    Lit(Literal),
    Group(Delim, Span, Span, Vec<Tok>),
}

/// The mathematical value of a `Tok`.
pub enum TokS {
    Word(Ident),
    Mark(Punct),
    Lit(Literal),
    Group(Delim, Span, Span, Seq<TokS>),
}

pub open spec fn tok_view(t: Tok) -> TokS
    decreases t,
{
    match t {
        Tok::Word(i) => TokS::Word(i),
        Tok::Mark(p) => TokS::Mark(p),
        Tok::Lit(l) => TokS::Lit(l),
        Tok::Group(d, s, o, v) => TokS::Group(
            d,
            s,
            o,
            Seq::new(
                v@.len(),
                |k: int|
                    if 0 <= k < v@.len() {
                        tok_view(v@[k])
                    } else {
                        TokS::Group(d, s, o, Seq::empty())
                    },
            ),
        ),
    }
}

pub open spec fn toks_view(v: Seq<Tok>) -> Seq<TokS> {
    Seq::new(v.len(), |k: int| tok_view(v[k]))
}

pub proof fn lemma_group_view(d: Delim, s: Span, o: Span, v: Vec<Tok>)
    ensures
        tok_view(Tok::Group(d, s, o, v)) == TokS::Group(d, s, o, toks_view(v@)),
{
    if let TokS::Group(_, _, _, inner) = tok_view(Tok::Group(d, s, o, v)) {
        assert(inner =~= toks_view(v@));
    }
}

pub proof fn lemma_toks_view_push(v: Seq<Tok>, t: Tok)
    ensures
        toks_view(v.push(t)) == toks_view(v).push(tok_view(t)),
{
    assert(toks_view(v.push(t)) =~= toks_view(v).push(tok_view(t)));
}

pub proof fn lemma_toks_view_add(v: Seq<Tok>, w: Seq<Tok>)
    ensures
        toks_view(v + w) == toks_view(v) + toks_view(w),
{
    assert(toks_view(v + w) =~= toks_view(v) + toks_view(w));
}

// ---------------------------------------------------------------------------
// What `proc_macro2` tells about its tokens.

/// The text of an identifier, as `Ident`'s `Display` writes it (`r#` included
/// for a raw identifier).
pub uninterp spec fn ident_text(i: Ident) -> Seq<char>;

/// What `Ident::span` returns.
pub uninterp spec fn ident_span(i: Ident) -> Span;

/// What `Punct::as_char` returns.
pub uninterp spec fn punct_char(p: Punct) -> char;

/// Whether `Punct::spacing` is `Spacing::Joint`.
pub uninterp spec fn punct_joint(p: Punct) -> bool;

/// What `Punct::span` returns.
pub uninterp spec fn punct_span(p: Punct) -> Span;

/// What `Literal::span` returns.
pub uninterp spec fn literal_span(l: Literal) -> Span;

/// The identifier that `Ident::new(text, span)` makes.
pub uninterp spec fn ident_new(text: Seq<char>, span: Span) -> Ident;

/// The token that `Punct::new(c, Spacing::Alone)` makes, once given `span`.
pub uninterp spec fn punct_new(c: char, span: Span) -> Punct;

/// The token that `Literal::string(text)` makes, once given `span`.
pub uninterp spec fn string_literal(text: Seq<char>, span: Span) -> Literal;

/// What `Span::resolved_at(s, other)` returns.
pub uninterp spec fn resolved_at(s: Span, other: Span) -> Span;

/// What `Span::join(a, b)` returns.
pub uninterp spec fn span_joined(a: Span, b: Span) -> Option<Span>;

/// The characters that `Punct::new` accepts.
pub open spec fn punct_ok(c: char) -> bool {
    c == '!' || c == '#' || c == '$' || c == '%' || c == '&' || c == '\'' || c == '*' || c == '+'
        || c == ',' || c == '-' || c == '.' || c == '/' || c == ':' || c == ';' || c == '<' || c
        == '=' || c == '>' || c == '?' || c == '@' || c == '^' || c == '|' || c == '~'
}

pub open spec fn ascii_letter(c: char) -> bool {
    ('a' <= c && c <= 'z') || ('A' <= c && c <= 'Z')
}

pub open spec fn ascii_ident_char(c: char) -> bool {
    ascii_letter(c) || ('0' <= c && c <= '9') || c == '_'
}

/// An ASCII identifier that starts with a letter: `Ident::new` accepts it.
pub open spec fn ident_ok(t: Seq<char>) -> bool {
    &&& t.len() > 0
    &&& ascii_letter(t[0])
    &&& forall|k: int| 0 <= k < t.len() ==> ascii_ident_char(#[trigger] t[k])
}

/// `Ident::to_string`.
#[verifier::external_body]
pub(crate) fn ident_text_of(i: &Ident) -> (r: String)
    ensures
        r@ == ident_text(*i),
{
    i.to_string()
}

/// `Ident::span`.
#[verifier::external_body]
pub(crate) fn ident_span_of(i: &Ident) -> (r: Span)
    ensures
        r == ident_span(*i),
{
    i.span()
}

/// `Punct::as_char`.
#[verifier::external_body]
pub(crate) fn punct_char_of(p: &Punct) -> (r: char)
    ensures
        r == punct_char(*p),
{
    p.as_char()
}

/// `Punct::spacing`, read as "is it `Spacing::Joint`".
#[verifier::external_body]
pub(crate) fn punct_joint_of(p: &Punct) -> (r: bool)
    ensures
        r == punct_joint(*p),
{
    match p.spacing() {
        Spacing::Joint => true,
        Spacing::Alone => false,
    }
}

/// `Punct::span`.
#[verifier::external_body]
pub(crate) fn punct_span_of(p: &Punct) -> (r: Span)
    ensures
        r == punct_span(*p),
{
    p.span()
}

/// `Literal::span`.
#[verifier::external_body]
pub(crate) fn literal_span_of(l: &Literal) -> (r: Span)
    ensures
        r == literal_span(*l),
{
    l.span()
}

/// `Ident::new`, which panics unless the text is an identifier; the
/// identifier spells `text` and is spanned at `span`.
#[verifier::external_body]
pub(crate) fn new_ident(text: &Vec<char>, span: Span) -> (r: Ident)
    requires
        ident_ok(text@),
    ensures
        r == ident_new(text@, span),
        ident_text(r) == text@,
        ident_span(r) == span,
{
    Ident::new(&text.iter().collect::<String>(), span)
}

/// `Punct::new` with `Spacing::Alone`, then `Punct::set_span`: the token is
/// `c`, alone, spanned at `span`.
#[verifier::external_body]
pub(crate) fn new_punct(c: char, span: Span) -> (r: Punct)
    requires
        punct_ok(c),
    ensures
        r == punct_new(c, span),
        punct_char(r) == c,
        !punct_joint(r),
        punct_span(r) == span,
{
    let mut p = Punct::new(c, Spacing::Alone);
    p.set_span(span);
    p
}

/// `Literal::string`, then `Literal::set_span`: the literal is spanned at
/// `span`.
#[verifier::external_body]
pub(crate) fn new_string_literal(text: &str, span: Span) -> (r: Literal)
    ensures
        r == string_literal(text@, span),
        literal_span(r) == span,
{
    let mut l = Literal::string(text);
    l.set_span(span);
    l
}

/// `Span::resolved_at`: the location of `s` with the hygiene of `other`.
#[verifier::external_body]
pub(crate) fn span_resolved_at(s: Span, other: Span) -> (r: Span)
    ensures
        r == resolved_at(s, other),
{
    s.resolved_at(other)
}

/// `Span::join`.
#[verifier::external_body]
pub(crate) fn span_join(a: Span, b: Span) -> (r: Option<Span>)
    ensures
        r == span_joined(a, b),
{
    a.join(b)
}

/// `s` is a span with the hygiene of `Span::mixed_site()`: local variables,
/// labels and `$crate` resolve at the definition site of the macro, everything
/// else at its call site, so that an identifier made with it can neither
/// capture nor be captured by a local variable of the macro's caller.
pub uninterp spec fn mixed_hygiene(s: Span) -> bool;

/// `s` is the span of the invocation of the procedural macro being expanded,
/// with its hygiene, as `Span::call_site()` gives it.
pub uninterp spec fn at_call_site(s: Span) -> bool;

/// `Span::mixed_site`: which span it gives depends on the macro invocation
/// being expanded; whatever it gives has the mixed-site hygiene.
#[verifier::external_body]
pub(crate) fn mixed_site() -> (r: Span)
    ensures
        mixed_hygiene(r),
{
    Span::mixed_site()
}

/// `Span::call_site`: which span it gives depends on the macro invocation
/// being expanded; whatever it gives is the span of that invocation.
#[verifier::external_body]
pub(crate) fn call_site() -> (r: Span)
    ensures
        at_call_site(r),
{
    Span::call_site()
}

/// What a `proc_macro2::TokenStream` holds: its token trees in the order in
/// which iterating it hands them out, each read into the model, a group as its
/// delimiter, its `span()`, its `span_open()` and what its `stream()` holds.
pub uninterp spec fn stream_toks(ts: TokenStream) -> Seq<TokS>;

/// What a `TokenStream` collected from the token trees `s` holds. It is `s`
/// itself but for what `proc_macro2` changes when it builds a stream (its
/// fallback splits a literal that starts with `-` into a `-` and the rest).
pub uninterp spec fn written(s: Seq<TokS>) -> Seq<TokS>;

/// Reads a `proc_macro2::TokenStream` into the model, one token tree for one
/// token tree; a group's contents are read in turn.
#[verifier::external_body]
pub(crate) fn stream_to_toks(ts: TokenStream) -> (r: Vec<Tok>)
    ensures
        toks_view(r@) == stream_toks(ts),
{
    ts.into_iter().map(|tt| match tt {
        TokenTree::Group(g) => Tok::Group(delim_from(g.delimiter()), g.span(), g.span_open(), stream_to_toks(g.stream())),
        TokenTree::Ident(i) => Tok::Word(i),
        TokenTree::Punct(p) => Tok::Mark(p),
        TokenTree::Literal(l) => Tok::Lit(l),
    }).collect()
}

/// Writes the model back as a `proc_macro2::TokenStream`, one token tree for
/// one token tree; a group gets its whole span back with `Group::set_span`
/// (the opening delimiter's span is not kept apart).
#[verifier::external_body]
pub(crate) fn toks_to_stream(toks: &[Tok]) -> (r: TokenStream)
    ensures
        stream_toks(r) == written(toks_view(toks@)),
{
    toks.iter().map(|t| match t {
        Tok::Word(i) => TokenTree::Ident(i.clone()),
        Tok::Mark(p) => TokenTree::Punct(p.clone()),
        Tok::Lit(l) => TokenTree::Literal(l.clone()),
        Tok::Group(d, s, _, v) => {
            let mut g = Group::new(delim_to(*d), toks_to_stream(v));
            g.set_span(*s);
            TokenTree::Group(g)
        },
    }).collect()
}

/// `proc_macro2::Delimiter` as a `Delim`, variant for variant.
#[verifier::external_body]
fn delim_from(d: Delimiter) -> Delim {
    match d {
        Delimiter::Parenthesis => Delim::Parenthesis,
        Delimiter::Brace => Delim::Brace,
        Delimiter::Bracket => Delim::Bracket,
        Delimiter::None => Delim::Invisible,
    }
}

/// A `Delim` as a `proc_macro2::Delimiter`, variant for variant.
#[verifier::external_body]
fn delim_to(d: Delim) -> Delimiter {
    match d {
        Delim::Parenthesis => Delimiter::Parenthesis,
        Delim::Brace => Delimiter::Brace,
        Delim::Bracket => Delimiter::Bracket,
        Delim::Invisible => Delimiter::None,
    }
}

// ---------------------------------------------------------------------------
// Spans and small token builders, verified.

/// The span that a token tree reports: a group's whole span.
pub open spec fn tok_span(t: TokS) -> Span {
    match t {
        TokS::Word(i) => ident_span(i),
        TokS::Mark(p) => punct_span(p),
        TokS::Lit(l) => literal_span(l),
        TokS::Group(_, s, _, _) => s,
    }
}

/// The span that `syn::spanned::Spanned` gives a node printed as `s`: the
/// first token's span joined to the last token's, or the first token's span
/// where they do not join, or `call` for no token at all.
pub open spec fn tokens_span(s: Seq<TokS>, call: Span) -> Span {
    if s.len() == 0 {
        call
    } else if s.len() == 1 {
        tok_span(s[0])
    } else {
        match span_joined(tok_span(s[0]), tok_span(s.last())) {
            Some(j) => j,
            None => tok_span(s[0]),
        }
    }
}

pub fn tok_span_of(t: &Tok) -> (r: Span)
    ensures
        r == tok_span(tok_view(*t)),
{
    match t {
        Tok::Word(i) => ident_span_of(i),
        Tok::Mark(p) => punct_span_of(p),
        Tok::Lit(l) => literal_span_of(l),
        Tok::Group(_, s, _, _) => *s,
    }
}

pub fn tokens_span_of(v: &Vec<Tok>, call: Span) -> (r: Span)
    ensures
        r == tokens_span(toks_view(v@), call),
{
    if v.len() == 0 {
        call
    } else if v.len() == 1 {
        tok_span_of(&v[0])
    } else {
        let first = tok_span_of(&v[0]);
        let last = tok_span_of(&v[v.len() - 1]);
        match span_join(first, last) {
            Some(j) => j,
            None => first,
        }
    }
}

pub fn clone_tok(t: &Tok) -> (r: Tok)
    ensures
        tok_view(r) == tok_view(*t),
    decreases t,
{
    match t {
        Tok::Word(i) => Tok::Word(i.clone()),
        Tok::Mark(p) => Tok::Mark(p.clone()),
        Tok::Lit(l) => Tok::Lit(l.clone()),
        Tok::Group(d, s, o, v) => {
            let w = clone_toks_from(v, 0);
            proof {
                assert(v@.subrange(0, v@.len() as int) =~= v@);
                lemma_group_view(*d, *s, *o, w);
                lemma_group_view(*d, *s, *o, *v);
            }
            Tok::Group(*d, *s, *o, w)
        },
    }
}

/// A copy of `v[start..]`.
pub fn clone_toks_from(v: &Vec<Tok>, start: usize) -> (r: Vec<Tok>)
    requires
        start <= v.len(),
    ensures
        toks_view(r@) == toks_view(v@.subrange(start as int, v@.len() as int)),
    decreases v,
{
    let mut r: Vec<Tok> = Vec::new();
    let mut k: usize = start;
    while k < v.len()
        invariant
            start <= k <= v.len(),
            r@.len() == k - start,
            forall|j: int| 0 <= j < k - start ==> tok_view(#[trigger] r@[j]) == tok_view(v@[j + start]),
        decreases v.len() - k,
    {
        proof {
            assert(decreases_to!(v => v@[k as int]));
        }
        let c = clone_tok(&v[k]);
        r.push(c);
        k = k + 1;
    }
    assert(toks_view(r@) =~= toks_view(v@.subrange(start as int, v@.len() as int)));
    r
}

/// A copy of `v[..end]`.
pub fn clone_toks_prefix(v: &Vec<Tok>, end: usize) -> (r: Vec<Tok>)
    requires
        end <= v.len(),
    ensures
        toks_view(r@) == toks_view(v@.subrange(0, end as int)),
{
    let mut r: Vec<Tok> = Vec::new();
    let mut k: usize = 0;
    while k < end
        invariant
            k <= end <= v.len(),
            r@.len() == k,
            forall|j: int| 0 <= j < k ==> tok_view(#[trigger] r@[j]) == tok_view(v@[j]),
        decreases end - k,
    {
        let c = clone_tok(&v[k]);
        r.push(c);
        k = k + 1;
    }
    assert(toks_view(r@) =~= toks_view(v@.subrange(0, end as int)));
    r
}

pub fn clone_toks(v: &Vec<Tok>) -> (r: Vec<Tok>)
    ensures
        toks_view(r@) == toks_view(v@),
{
    assert(v@.subrange(0, v@.len() as int) =~= v@);
    clone_toks_from(v, 0)
}

/// Appends a copy of `w` to `v`.
pub fn extend_toks(v: &mut Vec<Tok>, w: &Vec<Tok>)
    ensures
        toks_view(final(v)@) == toks_view(old(v)@) + toks_view(w@),
{
    let mut c = clone_toks(w);
    proof {
        lemma_toks_view_add(v@, c@);
    }
    v.append(&mut c);
}

/// Appends `w` to `v`, consuming it.
pub fn extend_toks_owned(v: &mut Vec<Tok>, w: Vec<Tok>)
    ensures
        toks_view(final(v)@) == toks_view(old(v)@) + toks_view(w@),
{
    let mut w = w;
    proof {
        lemma_toks_view_add(v@, w@);
    }
    v.append(&mut w);
}

/// How a token reads back: a punctuation token as its character and span, an
/// identifier as its text and span; any other token as nothing in particular.
pub enum Spelling {
    Mark(char, Span),
    Word(Seq<char>, Span),
    Other,
}

pub open spec fn spelling(t: TokS) -> Spelling {
    match t {
        TokS::Mark(p) => Spelling::Mark(punct_char(p), punct_span(p)),
        TokS::Word(w) => Spelling::Word(ident_text(w), ident_span(w)),
        _ => Spelling::Other,
    }
}

/// How each token of `v` reads back.
pub open spec fn spellings(v: Seq<TokS>) -> Seq<Spelling> {
    Seq::new(v.len(), |j: int| spelling(v[j]))
}

/// The punctuation token `c` alone, spanned at `span`.
pub open spec fn mark(c: char, span: Span) -> TokS {
    TokS::Mark(punct_new(c, span))
}

/// The identifier `text` spanned at `span`.
pub open spec fn word(text: Seq<char>, span: Span) -> TokS {
    TokS::Word(ident_new(text, span))
}

pub fn make_mark(c: char, span: Span) -> (r: Tok)
    requires
        punct_ok(c),
    ensures
        tok_view(r) == mark(c, span),
        r matches Tok::Mark(p) && punct_char(p) == c && !punct_joint(p) && punct_span(p) == span,
{
    Tok::Mark(new_punct(c, span))
}

/// Makes the identifier `text`, which is ASCII and starts with a letter.
pub fn make_word(text: &str, span: Span) -> (r: Tok)
    requires
        ident_ok(text@),
    ensures
        tok_view(r) == word(text@, span),
        r matches Tok::Word(w) && ident_text(w) == text@ && ident_span(w) == span,
{
    let chars = str_chars(text);
    Tok::Word(new_ident(&chars, span))
}

/// The characters of `s`.
pub fn str_chars(s: &str) -> (r: Vec<char>)
    ensures
        r@ == s@,
{
    let n = s.unicode_len();
    let mut r: Vec<char> = Vec::new();
    let mut k: usize = 0;
    while k < n
        invariant
            n == s@.len(),
            k <= n,
            r@ == s@.subrange(0, k as int),
        decreases n - k,
    {
        r.push(s.get_char(k));
        k = k + 1;
        assert(r@ =~= s@.subrange(0, k as int));
    }
    r
}

/// Whether two strings hold the same characters.
pub fn str_eq(a: &str, b: &str) -> (r: bool)
    ensures
        r == (a@ == b@),
{
    let n = a.unicode_len();
    if n != b.unicode_len() {
        return false;
    }
    let mut k: usize = 0;
    while k < n
        invariant
            n == a@.len(),
            n == b@.len(),
            k <= n,
            a@.subrange(0, k as int) == b@.subrange(0, k as int),
        decreases n - k,
    {
        if a.get_char(k) != b.get_char(k) {
            assert(a@[k as int] != b@[k as int]);
            return false;
        }
        k = k + 1;
        assert(a@.subrange(0, k as int) =~= a@.subrange(0, k - 1 as int).push(a@[k - 1]));
        assert(b@.subrange(0, k as int) =~= b@.subrange(0, k - 1 as int).push(b@[k - 1]));
    }
    assert(a@ =~= a@.subrange(0, n as int));
    assert(b@ =~= b@.subrange(0, n as int));
    true
}

} // verus!

verus! {

// ---------------------------------------------------------------------------
// Looking at one token of a sequence.

/// `s[i]` is the punctuation character `c`.
pub open spec fn mark_at(s: Seq<TokS>, i: int, c: char) -> bool {
    &&& 0 <= i < s.len()
    &&& s[i] matches TokS::Mark(p) && punct_char(p) == c
}

/// `s[i]` is an identifier written `text`.
pub open spec fn word_at(s: Seq<TokS>, i: int, text: Seq<char>) -> bool {
    &&& 0 <= i < s.len()
    &&& s[i] matches TokS::Word(w) && ident_text(w) == text
}

/// The span of `s[i]`, or `call` past the end of `s`.
pub open spec fn span_at(s: Seq<TokS>, i: int, call: Span) -> Span {
    if 0 <= i < s.len() {
        tok_span(s[i])
    } else {
        call
    }
}

/// Where `syn` reports that `s[i]` is not the token it expected: at the
/// opening delimiter of a group, else at the token's span; `call` past the end
/// of `s`.
pub open spec fn report_span_at(s: Seq<TokS>, i: int, call: Span) -> Span {
    if 0 <= i < s.len() {
        match s[i] {
            TokS::Group(_, _, o, _) => o,
            t => tok_span(t),
        }
    } else {
        call
    }
}

pub fn report_span_at_exec(v: &Vec<Tok>, i: usize, call: Span) -> (r: Span)
    ensures
        r == report_span_at(toks_view(v@), i as int, call),
{
    if i < v.len() {
        match &v[i] {
            Tok::Group(_, _, o, _) => *o,
            t => tok_span_of(t),
        }
    } else {
        call
    }
}

pub fn mark_at_exec(v: &Vec<Tok>, i: usize, c: char) -> (r: bool)
    ensures
        r == mark_at(toks_view(v@), i as int, c),
{
    if i < v.len() {
        match &v[i] {
            Tok::Mark(p) => punct_char_of(p) == c,
            _ => false,
        }
    } else {
        false
    }
}

pub fn word_at_exec(v: &Vec<Tok>, i: usize, text: &str) -> (r: bool)
    ensures
        r == word_at(toks_view(v@), i as int, text@),
{
    if i < v.len() {
        match &v[i] {
            Tok::Word(w) => {
                let t = ident_text_of(w);
                str_eq(t.as_str(), text)
            },
            _ => false,
        }
    } else {
        false
    }
}

pub fn span_at_exec(v: &Vec<Tok>, i: usize, call: Span) -> (r: Span)
    ensures
        r == span_at(toks_view(v@), i as int, call),
{
    if i < v.len() {
        tok_span_of(&v[i])
    } else {
        call
    }
}

} // verus!
