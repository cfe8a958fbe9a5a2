//! The library's pieces on concrete values: the prefix grammar, the keyword
//! operators, fresh names, the pattern rewrite, and the errors that take the
//! place of a malformed deref macro.

use matchbox::deref::DerefPattern;
use matchbox::fold::{decimal_chars, fresh_name_chars, rewrite_from, Bind, Site, Syntax};
use matchbox::keyword::Type;
use matchbox::token::{str_eq, Delim, Tok};
use proc_macro2::{Delimiter, Group, Span, TokenStream, TokenTree};

fn call_site() -> Span {
    Span::call_site()
}

fn mixed_site() -> Span {
    Span::mixed_site()
}

fn from_stream(ts: TokenStream) -> Vec<Tok> {
    ts.into_iter()
        .map(|tt| match tt {
            TokenTree::Group(g) => {
                let d = match g.delimiter() {
                    Delimiter::Parenthesis => Delim::Parenthesis,
                    Delimiter::Brace => Delim::Brace,
                    Delimiter::Bracket => Delim::Bracket,
                    Delimiter::None => Delim::Invisible,
                };
                Tok::Group(d, g.span(), g.span_open(), from_stream(g.stream()))
            },
            TokenTree::Ident(i) => Tok::Word(i),
            TokenTree::Punct(p) => Tok::Mark(p),
            TokenTree::Literal(l) => Tok::Lit(l),
        })
        .collect()
}

fn to_stream(v: &[Tok]) -> TokenStream {
    v.iter()
        .map(|t| match t {
            Tok::Word(i) => TokenTree::Ident(i.clone()),
            Tok::Mark(p) => TokenTree::Punct(p.clone()),
            Tok::Lit(l) => TokenTree::Literal(l.clone()),
            Tok::Group(d, _, _, inner) => {
                let d = match d {
                    Delim::Parenthesis => Delimiter::Parenthesis,
                    Delim::Brace => Delimiter::Brace,
                    Delim::Bracket => Delimiter::Bracket,
                    Delim::Invisible => Delimiter::None,
                };
                TokenTree::Group(Group::new(d, to_stream(inner)))
            },
        })
        .collect()
}

fn toks(src: &str) -> Vec<Tok> {
    from_stream(src.parse().unwrap())
}

fn text(v: &Vec<Tok>) -> String {
    to_stream(v.as_slice()).to_string()
}

fn expand(src: &str) -> String {
    matchbox::matchbox(src.parse().unwrap()).to_string()
}

fn expand_keyword(src: &str) -> String {
    matchbox::keyword::matchbox(src.parse().unwrap()).to_string()
}

fn site() -> Site {
    Site { mixed: mixed_site(), call: call_site() }
}

#[test]
fn prefix_with_every_part() {
    let v = toks("& mut * * x");
    match DerefPattern::parse_prefix(&v, call_site()) {
        Ok((p, k)) => {
            assert_eq!(k, 4);
            assert!(p.amp.is_some() && p.mutability.is_some() && p.deref2.is_some());
            assert_eq!(text(&p.as_guard_op(call_site())), "& * *");
            assert_eq!(text(&p.as_body_op()), "& mut * *");
        },
        Err(_) => panic!(),
    }
}

#[test]
fn prefix_star_alone() {
    let v = toks("* x");
    match DerefPattern::parse_prefix(&v, call_site()) {
        Ok((p, k)) => {
            assert_eq!(k, 1);
            assert!(p.amp.is_none() && p.mutability.is_none() && p.deref2.is_none());
            assert_eq!(text(&p.as_guard_op(call_site())), "& *");
            assert_eq!(text(&p.as_body_op()), "*");
        },
        Err(_) => panic!(),
    }
}

#[test]
fn prefix_amp_and_one_star() {
    let v = toks("& * * * x");
    match DerefPattern::parse_prefix(&v, call_site()) {
        Ok((p, k)) => {
            // A third `*` belongs to the inner pattern.
            assert_eq!(k, 3);
            assert!(p.deref2.is_some());
        },
        Err(_) => panic!(),
    }
    let v = toks("& * x");
    match DerefPattern::parse_prefix(&v, call_site()) {
        Ok((p, k)) => {
            assert_eq!(k, 2);
            assert!(p.amp.is_some() && p.deref2.is_none());
            assert_eq!(text(&p.as_guard_op(call_site())), "& * *");
            assert_eq!(text(&p.as_body_op()), "& *");
        },
        Err(_) => panic!(),
    }
}

#[test]
fn prefix_without_star_is_refused() {
    assert!(DerefPattern::parse_prefix(&toks("x"), call_site()).is_err());
    assert!(DerefPattern::parse_prefix(&toks("& x"), call_site()).is_err());
    assert!(DerefPattern::parse_prefix(&toks("& mut x"), call_site()).is_err());
    assert!(DerefPattern::parse_prefix(&toks("mut * x"), call_site()).is_err());
    assert!(DerefPattern::parse_prefix(&toks(""), call_site()).is_err());
}

#[test]
fn keyword_names() {
    assert_eq!(Type::from_str("owned"), Ok(Type::Owned));
    assert_eq!(Type::from_str("deref"), Ok(Type::Deref));
    assert_eq!(Type::from_str("derefref"), Ok(Type::DerefRef));
    assert_eq!(Type::from_str("mutderef"), Ok(Type::MutDeref));
    assert_eq!(Type::from_str("mutderefref"), Ok(Type::MutDerefRef));
    assert_eq!(Type::from_str("dereff"), Err("dereff".to_string()));
    assert_eq!(Type::from_str(""), Err(String::new()));
}

#[test]
fn keyword_operators() {
    assert_eq!(Type::Owned.add_ref(), Type::Deref);
    assert_eq!(Type::Deref.add_ref(), Type::DerefRef);
    assert_eq!(Type::DerefRef.add_ref(), Type::DerefRef);
    assert_eq!(Type::MutDeref.add_ref(), Type::DerefRef);
    assert_eq!(Type::MutDerefRef.add_ref(), Type::DerefRef);
    assert_eq!(text(&Type::Owned.as_op(call_site())), "*");
    assert_eq!(text(&Type::Deref.as_op(call_site())), "& *");
    assert_eq!(text(&Type::DerefRef.as_op(call_site())), "& * *");
    assert_eq!(text(&Type::MutDeref.as_op(call_site())), "& mut *");
    assert_eq!(text(&Type::MutDerefRef.as_op(call_site())), "& mut * *");
}

#[test]
fn fresh_names_are_decimal() {
    assert_eq!(decimal_chars(0), vec!['0']);
    assert_eq!(decimal_chars(1234), vec!['1', '2', '3', '4']);
    assert_eq!(fresh_name_chars(12), vec!['a', '1', '2']);
    assert!(str_eq("mb", "mb"));
    assert!(!str_eq("mb", "mbb"));
}

#[test]
fn rewrite_numbers_inner_macros_first() {
    let v = toks("(mb!(&**(mb!(*x),)), y, mb!(&*z))");
    let mut binds: Vec<Bind> = Vec::new();
    let out = rewrite_from(&v, 0, &mut binds, Syntax::Sigil, site());
    assert_eq!(text(&out), "(a1 , y , a2)");
    assert_eq!(binds.len(), 3);
    assert_eq!(binds[0].id.to_string(), "a0");
    assert_eq!(text(&binds[0].pat), "x");
    assert_eq!(text(&binds[1].pat), "(a0 ,)");
    assert_eq!(text(&binds[2].pat), "z");
}

#[test]
fn rewrite_without_deref_macros_is_unchanged() {
    let v = toks("Some ((x , [y , ..] , S { f : 1 ..= 2 }))");
    let mut binds: Vec<Bind> = Vec::new();
    let out = rewrite_from(&v, 0, &mut binds, Syntax::Sigil, site());
    assert_eq!(text(&out), text(&v));
    assert!(binds.is_empty());
}

#[test]
fn rewrite_keyword_form_ignores_mb() {
    let v = toks("(mb!(&**x), deref!(y))");
    let mut binds: Vec<Bind> = Vec::new();
    let out = rewrite_from(&v, 0, &mut binds, Syntax::Keyword, site());
    assert_eq!(text(&out), "(mb ! (&** x) , a0)");
    assert_eq!(binds.len(), 1);
}

#[test]
fn missing_star_becomes_an_error() {
    assert_eq!(
        expand("match () { mb!(x) => () }"),
        "match () { :: core :: compile_error ! { \"expected `*`\" } => () }"
    );
}

#[test]
fn empty_deref_macro_becomes_an_error() {
    assert_eq!(
        expand("match () { mb!() => () }"),
        "match () { :: core :: compile_error ! { \"expected `*`\" } => () }"
    );
}

#[test]
fn trailing_tokens_become_an_error() {
    assert_eq!(
        expand("match () { mb!(&** x y) => () }"),
        "match () { :: core :: compile_error ! { \"unexpected token\" } => () }"
    );
    assert_eq!(
        expand_keyword("match () { owned!(x y) => () }"),
        "match () { :: core :: compile_error ! { \"unexpected token\" } => () }"
    );
}

#[test]
fn an_error_binds_nothing() {
    assert_eq!(
        expand("match () { (mb!(x), mb!(*y)) => () }"),
        "match () { (:: core :: compile_error ! { \"expected `*`\" } , a0) if { # [allow (unused_variables)] if let y = & * a0 { true } else { false } } => if let y = * a0 { () } else { panic ! (\"Two invocations of Deref::deref returned different outputs on same inputs\") } }"
    );
}

#[test]
fn input_that_is_no_match_is_refused() {
    assert_eq!(expand("1 + 1"), ":: core :: compile_error ! { \"expected `match`\" }");
    assert_eq!(expand_keyword("1 + 1"), ":: core :: compile_error ! { \"expected `match`\" }");
}

#[test]
fn missing_amp_is_refused() {
    let out = expand(
        "match LispValue::Nil { Nil => {}, Cons(_, _) => {}, Symbol(mb!(** s)) => {}, _ => panic!(), }",
    );
    assert!(out.contains(":: core :: compile_error !"));
    assert!(!out.contains("mb !"));
}

#[test]
fn misspelled_macro_is_kept() {
    let out = expand("match LispValue::Nil { Nil => {}, Cons(_, _) => {}, Symbol(mob!(* s)) => {}, _ => panic!(), }");
    assert_eq!(
        out,
        "match LispValue :: Nil { Nil => { } , Cons (_ , _) => { } , Symbol (mob ! (* s)) => { } , _ => panic ! () , }"
    );
}

#[test]
fn box_patterns_are_kept() {
    assert_eq!(
        expand("match () { box mb!(&**x) | mb!(*y) => (), _ => () }"),
        "match () { box mb ! (&** x) | a0 if { # [allow (unused_variables)] if let y = & * a0 { true } else { false } } => if let y = * a0 { () } else { panic ! (\"Two invocations of Deref::deref returned different outputs on same inputs\") } , _ => () }"
    );
}

#[test]
fn box_pattern_ends_outside_generic_arguments() {
    assert_eq!(
        expand("match () { box Foo::<A, mb!(*x)> | mb!(*y) => (), _ => () }"),
        "match () { box Foo ::< A , mb ! (* x) > | a0 if { # [allow (unused_variables)] if let y = & * a0 { true } else { false } } => if let y = * a0 { () } else { panic ! (\"Two invocations of Deref::deref returned different outputs on same inputs\") } , _ => () }"
    );
}

#[test]
fn generic_arguments_are_kept() {
    assert_eq!(
        expand("match x { Foo::<fn() -> mb!(T), U>::Bar(mb!(*y)) => () }"),
        "match x { Foo :: < fn () -> mb ! (T) , U > :: Bar (a0) if { # [allow (unused_variables)] if let y = & * a0 { true } else { false } } => if let y = * a0 { () } else { panic ! (\"Two invocations of Deref::deref returned different outputs on same inputs\") } }"
    );
}

#[test]
fn const_blocks_are_kept() {
    assert_eq!(
        expand("match x { const { mb!(*x) } => (), (mb!(*y), 1) => () }"),
        "match x { const { mb ! (* x) } => () , (a0 , 1) if { # [allow (unused_variables)] if let y = & * a0 { true } else { false } } => if let y = * a0 { () } else { panic ! (\"Two invocations of Deref::deref returned different outputs on same inputs\") } }"
    );
}

/// Three deref macros in one arm get three different names.
#[test]
fn fresh_names_in_one_arm_differ() {
    let out = expand("match v { (mb!(*x), mb!(*y), mb!(*z)) => (), _ => () }");
    assert!(out.starts_with("match v { (a0 , a1 , a2) if"));
}

/// Numbering is post-order: the macro inside the first one is `a0`, the first
/// one `a1`, the one after it `a2`; and no deref macro is left.
#[test]
fn bindings_numbered_in_post_order() {
    let out = expand("match v { (mb!(*(mb!(*x),)), mb!(*y)) => (), _ => () }");
    assert!(out.starts_with("match v { (a1 , a2) if"));
    assert!(out.contains("if let (a0 ,) = & * a1"));
    assert!(!out.contains("mb !"));
}

fn count_word(v: &Vec<Tok>, name: &str) -> usize {
    v.iter()
        .map(|t| match t {
            Tok::Word(i) => usize::from(i.to_string() == name),
            Tok::Group(_, _, _, inner) => count_word(inner, name),
            _ => 0,
        })
        .sum()
}

/// Each fresh identifier stands exactly once, in the rewritten pattern or in
/// the inner pattern of a later binding.
#[test]
fn fresh_identifiers_stand_once() {
    let v = toks("(mb!(*(mb!(*x),)), [y, mb!(&*z)])");
    let mut binds: Vec<Bind> = Vec::new();
    let out = rewrite_from(&v, 0, &mut binds, Syntax::Sigil, site());
    assert_eq!(binds.len(), 3);
    for (k, name) in ["a0", "a1", "a2"].iter().enumerate() {
        let total = count_word(&out, name) + binds.iter().map(|b| count_word(&b.pat, name)).sum::<usize>();
        assert_eq!(total, 1);
        for b in &binds[..=k] {
            assert_eq!(count_word(&b.pat, name), 0);
        }
    }
}
