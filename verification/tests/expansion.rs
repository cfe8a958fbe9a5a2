//! What the macro expands to on `match`es over a small Lisp value, and what
//! the expanded code does: each invocation's expansion is checked, then the
//! code it gives (written out, with the expansions of the nested invocations
//! in place) runs with its assertions.
#![allow(unused_variables, irrefutable_let_patterns, unreachable_patterns, unused_parens)]

#[derive(PartialEq, Eq, Debug, Clone)]
enum LispValue {
    Nil,
    Cons(Box<LispValue>, Box<LispValue>),
    Symbol(String),
}
use LispValue::{Cons, Nil, Symbol};

fn expand(src: &str) -> String {
    matchbox::matchbox(src.parse().unwrap()).to_string()
}

#[test]
fn test_ref() {
    assert_eq!(
        expand("match &Nil { Nil => 0, Cons(mb!(&** _), mb!(&** Nil)) => 0, Cons(mb!(&** Symbol(mb!(&** \"a\"))), _) => 0, Cons(_, _) => 0, Symbol(_) => 0, }"),
        "match & Nil { Nil => 0 , Cons (a0 , a1) if { # [allow (unused_variables)] if let Nil = & * * a1 { if let _ = & * * a0 { true } else { false } } else { false } } => if let Nil = & * * a1 { if let _ = & * * a0 { 0 } else { panic ! (\"Two invocations of Deref::deref returned different outputs on same inputs\") } } else { panic ! (\"Two invocations of Deref::deref returned different outputs on same inputs\") } , Cons (a1 , _) if { # [allow (unused_variables)] if let Symbol (a0) = & * * a1 { if let \"a\" = & * * a0 { true } else { false } } else { false } } => if let Symbol (a0) = & * * a1 { if let \"a\" = & * * a0 { 0 } else { panic ! (\"Two invocations of Deref::deref returned different outputs on same inputs\") } } else { panic ! (\"Two invocations of Deref::deref returned different outputs on same inputs\") } , Cons (_ , _) => 0 , Symbol (_) => 0 , }"
    );
    assert_eq!(
        expand("match &Cons(Box::new(Symbol(\"a\".to_owned())), Box::new(Nil)) { Cons(mb!(&** Symbol(mb!(&** \"a\"))), _) => 1, _ => 0 }"),
        "match & Cons (Box :: new (Symbol (\"a\" . to_owned ())) , Box :: new (Nil)) { Cons (a1 , _) if { # [allow (unused_variables)] if let Symbol (a0) = & * * a1 { if let \"a\" = & * * a0 { true } else { false } } else { false } } => if let Symbol (a0) = & * * a1 { if let \"a\" = & * * a0 { 1 } else { panic ! (\"Two invocations of Deref::deref returned different outputs on same inputs\") } } else { panic ! (\"Two invocations of Deref::deref returned different outputs on same inputs\") } , _ => 0 }"
    );
    assert_eq!(
        expand("match &Cons(Box::new(Symbol(\"a\".to_owned())), Box::new(Nil)) { Cons(mb!(&** Symbol(mb!(&** \"b\"))), _) => 1, _ => 0 }"),
        "match & Cons (Box :: new (Symbol (\"a\" . to_owned ())) , Box :: new (Nil)) { Cons (a1 , _) if { # [allow (unused_variables)] if let Symbol (a0) = & * * a1 { if let \"b\" = & * * a0 { true } else { false } } else { false } } => if let Symbol (a0) = & * * a1 { if let \"b\" = & * * a0 { 1 } else { panic ! (\"Two invocations of Deref::deref returned different outputs on same inputs\") } } else { panic ! (\"Two invocations of Deref::deref returned different outputs on same inputs\") } , _ => 0 }"
    );
    assert_eq!(
        expand("match &Cons(Box::new(Symbol(\"a\".to_owned())), Box::new(Nil)) { Cons(mb!(&** Symbol(mb!(&** \"a\"))), mb!(&** x)) => x, _ => panic!() }"),
        "match & Cons (Box :: new (Symbol (\"a\" . to_owned ())) , Box :: new (Nil)) { Cons (a1 , a2) if { # [allow (unused_variables)] if let x = & * * a2 { if let Symbol (a0) = & * * a1 { if let \"a\" = & * * a0 { true } else { false } } else { false } } else { false } } => if let x = & * * a2 { if let Symbol (a0) = & * * a1 { if let \"a\" = & * * a0 { x } else { panic ! (\"Two invocations of Deref::deref returned different outputs on same inputs\") } } else { panic ! (\"Two invocations of Deref::deref returned different outputs on same inputs\") } } else { panic ! (\"Two invocations of Deref::deref returned different outputs on same inputs\") } , _ => panic ! () }"
    );
    assert_eq!(
        expand("match &Cons(Box::new(Symbol(\"a\".to_owned())), Box::new(Nil)) { Cons(mb!(&** Symbol(mb!(&** \"a\"))), mb!(&** x)) => return x.clone(), _ => 0 }"),
        "match & Cons (Box :: new (Symbol (\"a\" . to_owned ())) , Box :: new (Nil)) { Cons (a1 , a2) if { # [allow (unused_variables)] if let x = & * * a2 { if let Symbol (a0) = & * * a1 { if let \"a\" = & * * a0 { true } else { false } } else { false } } else { false } } => if let x = & * * a2 { if let Symbol (a0) = & * * a1 { if let \"a\" = & * * a0 { return x . clone () } else { panic ! (\"Two invocations of Deref::deref returned different outputs on same inputs\") } } else { panic ! (\"Two invocations of Deref::deref returned different outputs on same inputs\") } } else { panic ! (\"Two invocations of Deref::deref returned different outputs on same inputs\") } , _ => 0 }"
    );
    assert_eq!(
        expand("match &Box::new(Nil) { mb!(&** _) => a0, _ => panic!() }"),
        "match & Box :: new (Nil) { a0 if { # [allow (unused_variables)] if let _ = & * * a0 { true } else { false } } => if let _ = & * * a0 { a0 } else { panic ! (\"Two invocations of Deref::deref returned different outputs on same inputs\") } , _ => panic ! () }"
    );
    assert_eq!(
        expand("match &Cons(Box::new(Nil), Box::new(Nil)) { Cons(a @ mb!(&** b @ Nil), _) => { assert_eq!(a, &Box::new(Nil)); assert_eq!(b, &Nil); }, _ => panic!(), }"),
        "match & Cons (Box :: new (Nil) , Box :: new (Nil)) { Cons (a @ a0 , _) if { # [allow (unused_variables)] if let b @ Nil = & * * a0 { true } else { false } } => if let b @ Nil = & * * a0 { { assert_eq ! (a , & Box :: new (Nil)) ; assert_eq ! (b , & Nil) ; } } else { panic ! (\"Two invocations of Deref::deref returned different outputs on same inputs\") } , _ => panic ! () , }"
    );
    assert_eq!(
        expand("match &Cons(Box::new(Cons(Box::new(Nil), Box::new(Nil))), Box::new(Nil)) { Cons(mb!(&** a), _) => matchbox::matchbox! { match a { Cons(mb!(&** Nil), _) => 5, _ => panic!(), } }, _ => panic!(), }"),
        "match & Cons (Box :: new (Cons (Box :: new (Nil) , Box :: new (Nil))) , Box :: new (Nil)) { Cons (a0 , _) if { # [allow (unused_variables)] if let a = & * * a0 { true } else { false } } => if let a = & * * a0 { matchbox :: matchbox ! { match a { Cons (mb ! (&** Nil) , _) => 5 , _ => panic ! () , } } } else { panic ! (\"Two invocations of Deref::deref returned different outputs on same inputs\") } , _ => panic ! () , }"
    );
    assert_eq!(
        expand("match a { Cons(mb!(&** Nil), _) => 5, _ => panic!(), }"),
        "match a { Cons (a0 , _) if { # [allow (unused_variables)] if let Nil = & * * a0 { true } else { false } } => if let Nil = & * * a0 { 5 } else { panic ! (\"Two invocations of Deref::deref returned different outputs on same inputs\") } , _ => panic ! () , }"
    );

    let _: i32 = (match & Nil { Nil => 0 , Cons (a0 , a1) if { # [allow (unused_variables)] if let Nil = & * * a1 { if let _ = & * * a0 { true } else { false } } else { false } } => if let Nil = & * * a1 { if let _ = & * * a0 { 0 } else { panic ! ("Two invocations of Deref::deref returned different outputs on same inputs") } } else { panic ! ("Two invocations of Deref::deref returned different outputs on same inputs") } , Cons (a1 , _) if { # [allow (unused_variables)] if let Symbol (a0) = & * * a1 { if let "a" = & * * a0 { true } else { false } } else { false } } => if let Symbol (a0) = & * * a1 { if let "a" = & * * a0 { 0 } else { panic ! ("Two invocations of Deref::deref returned different outputs on same inputs") } } else { panic ! ("Two invocations of Deref::deref returned different outputs on same inputs") } , Cons (_ , _) => 0 , Symbol (_) => 0 , });
    assert_eq!(
        match & Cons (Box :: new (Symbol ("a" . to_owned ())) , Box :: new (Nil)) { Cons (a1 , _) if { # [allow (unused_variables)] if let Symbol (a0) = & * * a1 { if let "a" = & * * a0 { true } else { false } } else { false } } => if let Symbol (a0) = & * * a1 { if let "a" = & * * a0 { 1 } else { panic ! ("Two invocations of Deref::deref returned different outputs on same inputs") } } else { panic ! ("Two invocations of Deref::deref returned different outputs on same inputs") } , _ => 0 },
        1
    );
    assert_eq!(
        match & Cons (Box :: new (Symbol ("a" . to_owned ())) , Box :: new (Nil)) { Cons (a1 , _) if { # [allow (unused_variables)] if let Symbol (a0) = & * * a1 { if let "b" = & * * a0 { true } else { false } } else { false } } => if let Symbol (a0) = & * * a1 { if let "b" = & * * a0 { 1 } else { panic ! ("Two invocations of Deref::deref returned different outputs on same inputs") } } else { panic ! ("Two invocations of Deref::deref returned different outputs on same inputs") } , _ => 0 },
        0
    );
    assert_eq!(
        match & Cons (Box :: new (Symbol ("a" . to_owned ())) , Box :: new (Nil)) { Cons (a1 , a2) if { # [allow (unused_variables)] if let x = & * * a2 { if let Symbol (a0) = & * * a1 { if let "a" = & * * a0 { true } else { false } } else { false } } else { false } } => if let x = & * * a2 { if let Symbol (a0) = & * * a1 { if let "a" = & * * a0 { x } else { panic ! ("Two invocations of Deref::deref returned different outputs on same inputs") } } else { panic ! ("Two invocations of Deref::deref returned different outputs on same inputs") } } else { panic ! ("Two invocations of Deref::deref returned different outputs on same inputs") } , _ => panic ! () },
        &Nil
    );
    assert_eq!(
        (|| {
            let _: i32 = (match & Cons (Box :: new (Symbol ("a" . to_owned ())) , Box :: new (Nil)) { Cons (a1 , a2) if { # [allow (unused_variables)] if let x = & * * a2 { if let Symbol (a0) = & * * a1 { if let "a" = & * * a0 { true } else { false } } else { false } } else { false } } => if let x = & * * a2 { if let Symbol (a0) = & * * a1 { if let "a" = & * * a0 { return x . clone () } else { panic ! ("Two invocations of Deref::deref returned different outputs on same inputs") } } else { panic ! ("Two invocations of Deref::deref returned different outputs on same inputs") } } else { panic ! ("Two invocations of Deref::deref returned different outputs on same inputs") } , _ => 0 });
            panic!();
        })(),
        Nil
    );
    // (The block that binds its own `a0` is checked by its expansion above:
    // the generated `a0` carries the mixed-site hygiene of the macro, which
    // code written out here cannot.)
    match & Cons (Box :: new (Nil) , Box :: new (Nil)) { Cons (a @ a0 , _) if { # [allow (unused_variables)] if let b @ Nil = & * * a0 { true } else { false } } => if let b @ Nil = & * * a0 { { assert_eq ! (a , & Box :: new (Nil)) ; assert_eq ! (b , & Nil) ; } } else { panic ! ("Two invocations of Deref::deref returned different outputs on same inputs") } , _ => panic ! () , }
    assert_eq!(
        match & Cons (Box :: new (Cons (Box :: new (Nil) , Box :: new (Nil))) , Box :: new (Nil)) { Cons (a0 , _) if { # [allow (unused_variables)] if let a = & * * a0 { true } else { false } } => if let a = & * * a0 { (match a { Cons (a0 , _) if { # [allow (unused_variables)] if let Nil = & * * a0 { true } else { false } } => if let Nil = & * * a0 { 5 } else { panic ! ("Two invocations of Deref::deref returned different outputs on same inputs") } , _ => panic ! () , }) } else { panic ! ("Two invocations of Deref::deref returned different outputs on same inputs") } , _ => panic ! () , },
        5
    );
}


#[test]
fn test_mut() {
    assert_eq!(
        expand("match &mut Nil { Nil => 0, Cons(mb!(&mut ** _), mb!(&mut ** x @ Nil)) => { *x = Symbol(\"foo\".to_owned()); 0 }, Cons(mb!(&mut ** Symbol(mb!(&** \"a\"))), _) => 0, Cons(_, _) => 0, Symbol(_) => 0, }"),
        "match & mut Nil { Nil => 0 , Cons (a0 , a1) if { # [allow (unused_variables)] if let x @ Nil = & * * a1 { if let _ = & * * a0 { true } else { false } } else { false } } => if let x @ Nil = & mut * * a1 { if let _ = & mut * * a0 { { * x = Symbol (\"foo\" . to_owned ()) ; 0 } } else { panic ! (\"Two invocations of Deref::deref returned different outputs on same inputs\") } } else { panic ! (\"Two invocations of Deref::deref returned different outputs on same inputs\") } , Cons (a1 , _) if { # [allow (unused_variables)] if let Symbol (a0) = & * * a1 { if let \"a\" = & * * a0 { true } else { false } } else { false } } => if let Symbol (a0) = & mut * * a1 { if let \"a\" = & * * a0 { 0 } else { panic ! (\"Two invocations of Deref::deref returned different outputs on same inputs\") } } else { panic ! (\"Two invocations of Deref::deref returned different outputs on same inputs\") } , Cons (_ , _) => 0 , Symbol (_) => 0 , }"
    );
    assert_eq!(
        expand("match &mut Cons(Box::new(Symbol(\"a\".to_owned())), Box::new(Nil)) { Cons(mb!(&mut ** Symbol(mb!(&** \"a\"))), _) => 1, _ => 0 }"),
        "match & mut Cons (Box :: new (Symbol (\"a\" . to_owned ())) , Box :: new (Nil)) { Cons (a1 , _) if { # [allow (unused_variables)] if let Symbol (a0) = & * * a1 { if let \"a\" = & * * a0 { true } else { false } } else { false } } => if let Symbol (a0) = & mut * * a1 { if let \"a\" = & * * a0 { 1 } else { panic ! (\"Two invocations of Deref::deref returned different outputs on same inputs\") } } else { panic ! (\"Two invocations of Deref::deref returned different outputs on same inputs\") } , _ => 0 }"
    );
    assert_eq!(
        expand("match &mut Cons(Box::new(Symbol(\"a\".to_owned())), Box::new(Nil)) { Cons(mb!(&mut ** Symbol(mb!(&** \"b\"))), _) => 1, _ => 0 }"),
        "match & mut Cons (Box :: new (Symbol (\"a\" . to_owned ())) , Box :: new (Nil)) { Cons (a1 , _) if { # [allow (unused_variables)] if let Symbol (a0) = & * * a1 { if let \"b\" = & * * a0 { true } else { false } } else { false } } => if let Symbol (a0) = & mut * * a1 { if let \"b\" = & * * a0 { 1 } else { panic ! (\"Two invocations of Deref::deref returned different outputs on same inputs\") } } else { panic ! (\"Two invocations of Deref::deref returned different outputs on same inputs\") } , _ => 0 }"
    );
    assert_eq!(
        expand("match &mut Cons(Box::new(Symbol(\"a\".to_owned())), Box::new(Nil)) { Cons(mb!(&mut ** Symbol(mb!(&** \"a\"))), mb!(&mut ** x)) => x, _ => panic!() }"),
        "match & mut Cons (Box :: new (Symbol (\"a\" . to_owned ())) , Box :: new (Nil)) { Cons (a1 , a2) if { # [allow (unused_variables)] if let x = & * * a2 { if let Symbol (a0) = & * * a1 { if let \"a\" = & * * a0 { true } else { false } } else { false } } else { false } } => if let x = & mut * * a2 { if let Symbol (a0) = & mut * * a1 { if let \"a\" = & * * a0 { x } else { panic ! (\"Two invocations of Deref::deref returned different outputs on same inputs\") } } else { panic ! (\"Two invocations of Deref::deref returned different outputs on same inputs\") } } else { panic ! (\"Two invocations of Deref::deref returned different outputs on same inputs\") } , _ => panic ! () }"
    );
    assert_eq!(
        expand("match &Cons(Box::new(Symbol(\"a\".to_owned())), Box::new(Nil)) { Cons(mb!(&** Symbol(mb!(&** \"a\"))), mb!(&** x)) => return x.clone(), _ => 0 }"),
        "match & Cons (Box :: new (Symbol (\"a\" . to_owned ())) , Box :: new (Nil)) { Cons (a1 , a2) if { # [allow (unused_variables)] if let x = & * * a2 { if let Symbol (a0) = & * * a1 { if let \"a\" = & * * a0 { true } else { false } } else { false } } else { false } } => if let x = & * * a2 { if let Symbol (a0) = & * * a1 { if let \"a\" = & * * a0 { return x . clone () } else { panic ! (\"Two invocations of Deref::deref returned different outputs on same inputs\") } } else { panic ! (\"Two invocations of Deref::deref returned different outputs on same inputs\") } } else { panic ! (\"Two invocations of Deref::deref returned different outputs on same inputs\") } , _ => 0 }"
    );
    assert_eq!(
        expand("match &mut Box::new(Nil) { mb!(&mut ** _) => a0, _ => panic!() }"),
        "match & mut Box :: new (Nil) { a0 if { # [allow (unused_variables)] if let _ = & * * a0 { true } else { false } } => if let _ = & mut * * a0 { a0 } else { panic ! (\"Two invocations of Deref::deref returned different outputs on same inputs\") } , _ => panic ! () }"
    );
    assert_eq!(
        expand("match &mut Cons(Box::new(Nil), Box::new(Nil)) { Cons(mb!(&mut** b @ Nil), _) => { assert_eq!(b, &mut Nil); }, _ => panic!(), }"),
        "match & mut Cons (Box :: new (Nil) , Box :: new (Nil)) { Cons (a0 , _) if { # [allow (unused_variables)] if let b @ Nil = & * * a0 { true } else { false } } => if let b @ Nil = & mut * * a0 { { assert_eq ! (b , & mut Nil) ; } } else { panic ! (\"Two invocations of Deref::deref returned different outputs on same inputs\") } , _ => panic ! () , }"
    );
    assert_eq!(
        expand("match &mut Cons(Box::new(Cons(Box::new(Nil), Box::new(Nil))), Box::new(Nil)) { Cons(mb!(&mut ** a), _) => matchbox::matchbox! { match a { Cons(mb!(&mut ** Nil), _) => 5, _ => panic!(), } }, _ => panic!(), }"),
        "match & mut Cons (Box :: new (Cons (Box :: new (Nil) , Box :: new (Nil))) , Box :: new (Nil)) { Cons (a0 , _) if { # [allow (unused_variables)] if let a = & * * a0 { true } else { false } } => if let a = & mut * * a0 { matchbox :: matchbox ! { match a { Cons (mb ! (& mut ** Nil) , _) => 5 , _ => panic ! () , } } } else { panic ! (\"Two invocations of Deref::deref returned different outputs on same inputs\") } , _ => panic ! () , }"
    );
    assert_eq!(
        expand("match a { Cons(mb!(&mut ** Nil), _) => 5, _ => panic!(), }"),
        "match a { Cons (a0 , _) if { # [allow (unused_variables)] if let Nil = & * * a0 { true } else { false } } => if let Nil = & mut * * a0 { 5 } else { panic ! (\"Two invocations of Deref::deref returned different outputs on same inputs\") } , _ => panic ! () , }"
    );

    let _: i32 = (match & mut Nil { Nil => 0 , Cons (a0 , a1) if { # [allow (unused_variables)] if let x @ Nil = & * * a1 { if let _ = & * * a0 { true } else { false } } else { false } } => if let x @ Nil = & mut * * a1 { if let _ = & mut * * a0 { { * x = Symbol ("foo" . to_owned ()) ; 0 } } else { panic ! ("Two invocations of Deref::deref returned different outputs on same inputs") } } else { panic ! ("Two invocations of Deref::deref returned different outputs on same inputs") } , Cons (a1 , _) if { # [allow (unused_variables)] if let Symbol (a0) = & * * a1 { if let "a" = & * * a0 { true } else { false } } else { false } } => if let Symbol (a0) = & mut * * a1 { if let "a" = & * * a0 { 0 } else { panic ! ("Two invocations of Deref::deref returned different outputs on same inputs") } } else { panic ! ("Two invocations of Deref::deref returned different outputs on same inputs") } , Cons (_ , _) => 0 , Symbol (_) => 0 , });
    assert_eq!(
        match & mut Cons (Box :: new (Symbol ("a" . to_owned ())) , Box :: new (Nil)) { Cons (a1 , _) if { # [allow (unused_variables)] if let Symbol (a0) = & * * a1 { if let "a" = & * * a0 { true } else { false } } else { false } } => if let Symbol (a0) = & mut * * a1 { if let "a" = & * * a0 { 1 } else { panic ! ("Two invocations of Deref::deref returned different outputs on same inputs") } } else { panic ! ("Two invocations of Deref::deref returned different outputs on same inputs") } , _ => 0 },
        1
    );
    assert_eq!(
        match & mut Cons (Box :: new (Symbol ("a" . to_owned ())) , Box :: new (Nil)) { Cons (a1 , _) if { # [allow (unused_variables)] if let Symbol (a0) = & * * a1 { if let "b" = & * * a0 { true } else { false } } else { false } } => if let Symbol (a0) = & mut * * a1 { if let "b" = & * * a0 { 1 } else { panic ! ("Two invocations of Deref::deref returned different outputs on same inputs") } } else { panic ! ("Two invocations of Deref::deref returned different outputs on same inputs") } , _ => 0 },
        0
    );
    assert_eq!(
        match & mut Cons (Box :: new (Symbol ("a" . to_owned ())) , Box :: new (Nil)) { Cons (a1 , a2) if { # [allow (unused_variables)] if let x = & * * a2 { if let Symbol (a0) = & * * a1 { if let "a" = & * * a0 { true } else { false } } else { false } } else { false } } => if let x = & mut * * a2 { if let Symbol (a0) = & mut * * a1 { if let "a" = & * * a0 { x } else { panic ! ("Two invocations of Deref::deref returned different outputs on same inputs") } } else { panic ! ("Two invocations of Deref::deref returned different outputs on same inputs") } } else { panic ! ("Two invocations of Deref::deref returned different outputs on same inputs") } , _ => panic ! () },
        &mut Nil
    );
    assert_eq!(
        (|| {
            let _: i32 = (match & Cons (Box :: new (Symbol ("a" . to_owned ())) , Box :: new (Nil)) { Cons (a1 , a2) if { # [allow (unused_variables)] if let x = & * * a2 { if let Symbol (a0) = & * * a1 { if let "a" = & * * a0 { true } else { false } } else { false } } else { false } } => if let x = & * * a2 { if let Symbol (a0) = & * * a1 { if let "a" = & * * a0 { return x . clone () } else { panic ! ("Two invocations of Deref::deref returned different outputs on same inputs") } } else { panic ! ("Two invocations of Deref::deref returned different outputs on same inputs") } } else { panic ! ("Two invocations of Deref::deref returned different outputs on same inputs") } , _ => 0 });
            panic!();
        })(),
        Nil
    );
    // (The block that binds its own `a0` is checked by its expansion above:
    // the generated `a0` carries the mixed-site hygiene of the macro, which
    // code written out here cannot.)
    match & mut Cons (Box :: new (Nil) , Box :: new (Nil)) { Cons (a0 , _) if { # [allow (unused_variables)] if let b @ Nil = & * * a0 { true } else { false } } => if let b @ Nil = & mut * * a0 { { assert_eq ! (b , & mut Nil) ; } } else { panic ! ("Two invocations of Deref::deref returned different outputs on same inputs") } , _ => panic ! () , }
    assert_eq!(
        match & mut Cons (Box :: new (Cons (Box :: new (Nil) , Box :: new (Nil))) , Box :: new (Nil)) { Cons (a0 , _) if { # [allow (unused_variables)] if let a = & * * a0 { true } else { false } } => if let a = & mut * * a0 { (match a { Cons (a0 , _) if { # [allow (unused_variables)] if let Nil = & * * a0 { true } else { false } } => if let Nil = & mut * * a0 { 5 } else { panic ! ("Two invocations of Deref::deref returned different outputs on same inputs") } , _ => panic ! () , }) } else { panic ! ("Two invocations of Deref::deref returned different outputs on same inputs") } , _ => panic ! () , },
        5
    );
}


#[test]
fn test_own() {
    assert_eq!(
        expand("match Nil { Nil => 0, Cons(mb!(* _), mb!(* Nil)) => 0, Cons(mb!(* Symbol(mb!(&* \"a\"))), _) => 0, Cons(_, _) => 0, Symbol(_) => 0, }"),
        "match Nil { Nil => 0 , Cons (a0 , a1) if { # [allow (unused_variables)] if let Nil = & * a1 { if let _ = & * a0 { true } else { false } } else { false } } => if let Nil = * a1 { if let _ = * a0 { 0 } else { panic ! (\"Two invocations of Deref::deref returned different outputs on same inputs\") } } else { panic ! (\"Two invocations of Deref::deref returned different outputs on same inputs\") } , Cons (a1 , _) if { # [allow (unused_variables)] if let Symbol (a0) = & * a1 { if let \"a\" = & * * a0 { true } else { false } } else { false } } => if let Symbol (a0) = * a1 { if let \"a\" = & * a0 { 0 } else { panic ! (\"Two invocations of Deref::deref returned different outputs on same inputs\") } } else { panic ! (\"Two invocations of Deref::deref returned different outputs on same inputs\") } , Cons (_ , _) => 0 , Symbol (_) => 0 , }"
    );
    assert_eq!(
        expand("match Cons(Box::new(Symbol(\"a\".to_owned())), Box::new(Nil)) { Cons(mb!(* Symbol(mb!(&* \"a\"))), _) => 1, _ => 0 }"),
        "match Cons (Box :: new (Symbol (\"a\" . to_owned ())) , Box :: new (Nil)) { Cons (a1 , _) if { # [allow (unused_variables)] if let Symbol (a0) = & * a1 { if let \"a\" = & * * a0 { true } else { false } } else { false } } => if let Symbol (a0) = * a1 { if let \"a\" = & * a0 { 1 } else { panic ! (\"Two invocations of Deref::deref returned different outputs on same inputs\") } } else { panic ! (\"Two invocations of Deref::deref returned different outputs on same inputs\") } , _ => 0 }"
    );
    assert_eq!(
        expand("match Cons(Box::new(Symbol(\"a\".to_owned())), Box::new(Nil)) { Cons(mb!(* Symbol(mb!(&* \"b\"))), _) => 1, _ => 0 }"),
        "match Cons (Box :: new (Symbol (\"a\" . to_owned ())) , Box :: new (Nil)) { Cons (a1 , _) if { # [allow (unused_variables)] if let Symbol (a0) = & * a1 { if let \"b\" = & * * a0 { true } else { false } } else { false } } => if let Symbol (a0) = * a1 { if let \"b\" = & * a0 { 1 } else { panic ! (\"Two invocations of Deref::deref returned different outputs on same inputs\") } } else { panic ! (\"Two invocations of Deref::deref returned different outputs on same inputs\") } , _ => 0 }"
    );
    assert_eq!(
        expand("match Cons(Box::new(Symbol(\"a\".to_owned())), Box::new(Nil)) { Cons(mb!(* Symbol(mb!(&* \"a\"))), mb!(* x)) => x, _ => panic!() }"),
        "match Cons (Box :: new (Symbol (\"a\" . to_owned ())) , Box :: new (Nil)) { Cons (a1 , a2) if { # [allow (unused_variables)] if let x = & * a2 { if let Symbol (a0) = & * a1 { if let \"a\" = & * * a0 { true } else { false } } else { false } } else { false } } => if let x = * a2 { if let Symbol (a0) = * a1 { if let \"a\" = & * a0 { x } else { panic ! (\"Two invocations of Deref::deref returned different outputs on same inputs\") } } else { panic ! (\"Two invocations of Deref::deref returned different outputs on same inputs\") } } else { panic ! (\"Two invocations of Deref::deref returned different outputs on same inputs\") } , _ => panic ! () }"
    );
    assert_eq!(
        expand("match Cons(Box::new(Symbol(\"a\".to_owned())), Box::new(Nil)) { Cons(mb!(* Symbol(mb!(&* \"a\"))), mb!(* x)) => return x.clone(), _ => 0 }"),
        "match Cons (Box :: new (Symbol (\"a\" . to_owned ())) , Box :: new (Nil)) { Cons (a1 , a2) if { # [allow (unused_variables)] if let x = & * a2 { if let Symbol (a0) = & * a1 { if let \"a\" = & * * a0 { true } else { false } } else { false } } else { false } } => if let x = * a2 { if let Symbol (a0) = * a1 { if let \"a\" = & * a0 { return x . clone () } else { panic ! (\"Two invocations of Deref::deref returned different outputs on same inputs\") } } else { panic ! (\"Two invocations of Deref::deref returned different outputs on same inputs\") } } else { panic ! (\"Two invocations of Deref::deref returned different outputs on same inputs\") } , _ => 0 }"
    );
    assert_eq!(
        expand("match Box::new(Nil) { mb!(* _) => a0, _ => panic!(), }"),
        "match Box :: new (Nil) { a0 if { # [allow (unused_variables)] if let _ = & * a0 { true } else { false } } => if let _ = * a0 { a0 } else { panic ! (\"Two invocations of Deref::deref returned different outputs on same inputs\") } , _ => panic ! () , }"
    );
    assert_eq!(
        expand("match Cons(Box::new(Cons(Box::new(Nil), Box::new(Nil))), Box::new(Nil)) { Cons(mb!(* a), _) => matchbox::matchbox! { match a { Cons(mb!(* Nil), _) => 5, _ => panic!(), } }, _ => panic!(), }"),
        "match Cons (Box :: new (Cons (Box :: new (Nil) , Box :: new (Nil))) , Box :: new (Nil)) { Cons (a0 , _) if { # [allow (unused_variables)] if let a = & * a0 { true } else { false } } => if let a = * a0 { matchbox :: matchbox ! { match a { Cons (mb ! (* Nil) , _) => 5 , _ => panic ! () , } } } else { panic ! (\"Two invocations of Deref::deref returned different outputs on same inputs\") } , _ => panic ! () , }"
    );
    assert_eq!(
        expand("match a { Cons(mb!(* Nil), _) => 5, _ => panic!(), }"),
        "match a { Cons (a0 , _) if { # [allow (unused_variables)] if let Nil = & * a0 { true } else { false } } => if let Nil = * a0 { 5 } else { panic ! (\"Two invocations of Deref::deref returned different outputs on same inputs\") } , _ => panic ! () , }"
    );

    let _: i32 = (match Nil { Nil => 0 , Cons (a0 , a1) if { # [allow (unused_variables)] if let Nil = & * a1 { if let _ = & * a0 { true } else { false } } else { false } } => if let Nil = * a1 { if let _ = * a0 { 0 } else { panic ! ("Two invocations of Deref::deref returned different outputs on same inputs") } } else { panic ! ("Two invocations of Deref::deref returned different outputs on same inputs") } , Cons (a1 , _) if { # [allow (unused_variables)] if let Symbol (a0) = & * a1 { if let "a" = & * * a0 { true } else { false } } else { false } } => if let Symbol (a0) = * a1 { if let "a" = & * a0 { 0 } else { panic ! ("Two invocations of Deref::deref returned different outputs on same inputs") } } else { panic ! ("Two invocations of Deref::deref returned different outputs on same inputs") } , Cons (_ , _) => 0 , Symbol (_) => 0 , });
    assert_eq!(
        match Cons (Box :: new (Symbol ("a" . to_owned ())) , Box :: new (Nil)) { Cons (a1 , _) if { # [allow (unused_variables)] if let Symbol (a0) = & * a1 { if let "a" = & * * a0 { true } else { false } } else { false } } => if let Symbol (a0) = * a1 { if let "a" = & * a0 { 1 } else { panic ! ("Two invocations of Deref::deref returned different outputs on same inputs") } } else { panic ! ("Two invocations of Deref::deref returned different outputs on same inputs") } , _ => 0 },
        1
    );
    assert_eq!(
        match Cons (Box :: new (Symbol ("a" . to_owned ())) , Box :: new (Nil)) { Cons (a1 , _) if { # [allow (unused_variables)] if let Symbol (a0) = & * a1 { if let "b" = & * * a0 { true } else { false } } else { false } } => if let Symbol (a0) = * a1 { if let "b" = & * a0 { 1 } else { panic ! ("Two invocations of Deref::deref returned different outputs on same inputs") } } else { panic ! ("Two invocations of Deref::deref returned different outputs on same inputs") } , _ => 0 },
        0
    );
    assert_eq!(
        match Cons (Box :: new (Symbol ("a" . to_owned ())) , Box :: new (Nil)) { Cons (a1 , a2) if { # [allow (unused_variables)] if let x = & * a2 { if let Symbol (a0) = & * a1 { if let "a" = & * * a0 { true } else { false } } else { false } } else { false } } => if let x = * a2 { if let Symbol (a0) = * a1 { if let "a" = & * a0 { x } else { panic ! ("Two invocations of Deref::deref returned different outputs on same inputs") } } else { panic ! ("Two invocations of Deref::deref returned different outputs on same inputs") } } else { panic ! ("Two invocations of Deref::deref returned different outputs on same inputs") } , _ => panic ! () },
        Nil
    );
    assert_eq!(
        (|| {
            let _: i32 = (match Cons (Box :: new (Symbol ("a" . to_owned ())) , Box :: new (Nil)) { Cons (a1 , a2) if { # [allow (unused_variables)] if let x = & * a2 { if let Symbol (a0) = & * a1 { if let "a" = & * * a0 { true } else { false } } else { false } } else { false } } => if let x = * a2 { if let Symbol (a0) = * a1 { if let "a" = & * a0 { return x . clone () } else { panic ! ("Two invocations of Deref::deref returned different outputs on same inputs") } } else { panic ! ("Two invocations of Deref::deref returned different outputs on same inputs") } } else { panic ! ("Two invocations of Deref::deref returned different outputs on same inputs") } , _ => 0 });
            panic!();
        })(),
        Nil
    );
    // (The block that binds its own `a0` is checked by its expansion above:
    // the generated `a0` carries the mixed-site hygiene of the macro, which
    // code written out here cannot.)
    assert_eq!(
        match Cons (Box :: new (Cons (Box :: new (Nil) , Box :: new (Nil))) , Box :: new (Nil)) { Cons (a0 , _) if { # [allow (unused_variables)] if let a = & * a0 { true } else { false } } => if let a = * a0 { (match a { Cons (a0 , _) if { # [allow (unused_variables)] if let Nil = & * a0 { true } else { false } } => if let Nil = * a0 { 5 } else { panic ! ("Two invocations of Deref::deref returned different outputs on same inputs") } , _ => panic ! () , }) } else { panic ! ("Two invocations of Deref::deref returned different outputs on same inputs") } , _ => panic ! () , },
        5
    );
}

