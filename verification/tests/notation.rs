use miniscript_nodes::decimal::{read_number, write_decimal};
use miniscript_nodes::expr::{Expr, MAX_DEPTH};
use miniscript_nodes::frag::{Combinator, HashKind, KeyCheck, MultiKind, Wrapper};
use miniscript_nodes::term::{Term, MAX_HEIGHT};

fn key(name: &str) -> Term {
    Term::Key(KeyCheck::PkK, name.to_string())
}

fn pk(name: &str) -> Term {
    Term::Unary(Wrapper::Check, Box::new(key(name)))
}

fn unary(w: Wrapper, t: Term) -> Term {
    Term::Unary(w, Box::new(t))
}

fn binary(c: Combinator, a: Term, b: Term) -> Term {
    Term::Binary(c, Box::new(a), Box::new(b))
}

fn samples() -> Vec<(Term, &'static str)> {
    vec![
        (Term::True, "1"),
        (Term::False, "0"),
        (key("A"), "pk_k(A)"),
        (Term::Key(KeyCheck::PkH, "A".to_string()), "pk_h(A)"),
        (Term::Key(KeyCheck::RawPkH, "ab".to_string()), "expr_raw_pk_h(ab)"),
        (pk("A"), "pk(A)"),
        (unary(Wrapper::Check, Term::Key(KeyCheck::PkH, "A".to_string())), "pkh(A)"),
        (unary(Wrapper::Check, Term::Key(KeyCheck::RawPkH, "ab".to_string())), "expr_raw_pkh(ab)"),
        (Term::After(500), "after(500)"),
        (Term::After(4294967295), "after(4294967295)"),
        (Term::Older(0), "older(0)"),
        (Term::Hash(HashKind::Sha256, "00ff".to_string()), "sha256(00ff)"),
        (Term::Hash(HashKind::Hash256, "00ff".to_string()), "hash256(00ff)"),
        (Term::Hash(HashKind::Ripemd160, "00ff".to_string()), "ripemd160(00ff)"),
        (Term::Hash(HashKind::Hash160, "00ff".to_string()), "hash160(00ff)"),
        (unary(Wrapper::Alt, pk("A")), "a:pk(A)"),
        (unary(Wrapper::Swap, pk("A")), "s:pk(A)"),
        (unary(Wrapper::Check, Term::After(1)), "c:after(1)"),
        (unary(Wrapper::DupIf, Term::After(1)), "d:after(1)"),
        (unary(Wrapper::Verify, pk("A")), "v:pk(A)"),
        (unary(Wrapper::NonZero, pk("A")), "j:pk(A)"),
        (unary(Wrapper::ZeroNotEqual, pk("A")), "n:pk(A)"),
        (unary(Wrapper::Alt, unary(Wrapper::Swap, pk("A"))), "as:pk(A)"),
        (unary(Wrapper::Alt, unary(Wrapper::Check, Term::After(1))), "ac:after(1)"),
        (unary(Wrapper::Check, unary(Wrapper::Check, key("A"))), "c:pk(A)"),
        (binary(Combinator::AndV, unary(Wrapper::Verify, pk("A")), pk("B")), "and_v(v:pk(A),pk(B))"),
        (binary(Combinator::AndV, unary(Wrapper::Verify, pk("A")), Term::True), "tv:pk(A)"),
        (binary(Combinator::AndV, pk("A"), Term::True), "t:pk(A)"),
        (binary(Combinator::AndV, Term::True, Term::True), "t:1"),
        (binary(Combinator::AndB, pk("A"), unary(Wrapper::Alt, pk("B"))), "and_b(pk(A),a:pk(B))"),
        (binary(Combinator::OrB, pk("A"), unary(Wrapper::Alt, pk("B"))), "or_b(pk(A),a:pk(B))"),
        (binary(Combinator::OrD, pk("A"), pk("B")), "or_d(pk(A),pk(B))"),
        (binary(Combinator::OrC, pk("A"), unary(Wrapper::Verify, pk("B"))), "or_c(pk(A),v:pk(B))"),
        (binary(Combinator::OrI, pk("A"), pk("B")), "or_i(pk(A),pk(B))"),
        (binary(Combinator::OrI, pk("A"), Term::False), "u:pk(A)"),
        (binary(Combinator::OrI, Term::False, pk("A")), "l:pk(A)"),
        (binary(Combinator::OrI, Term::False, Term::False), "u:0"),
        (binary(Combinator::OrI, Term::False, Term::True), "l:1"),
        (binary(Combinator::AndV, Term::After(1), Term::False), "and_v(after(1),0)"),
        (
            Term::AndOr(Box::new(pk("A")), Box::new(pk("B")), Box::new(pk("C"))),
            "andor(pk(A),pk(B),pk(C))",
        ),
        (Term::AndOr(Box::new(pk("A")), Box::new(pk("B")), Box::new(Term::False)), "and_n(pk(A),pk(B))"),
        (Term::Thresh(1, vec![pk("A")]), "thresh(1,pk(A))"),
        (
            Term::Thresh(2, vec![pk("A"), unary(Wrapper::Swap, pk("B")), unary(Wrapper::Swap, pk("C"))]),
            "thresh(2,pk(A),s:pk(B),s:pk(C))",
        ),
        (
            Term::Multi(MultiKind::Multi, 2, vec!["A".to_string(), "B".to_string(), "C".to_string()]),
            "multi(2,A,B,C)",
        ),
        (Term::Multi(MultiKind::MultiA, 1, vec!["A".to_string()]), "multi_a(1,A)"),
        (
            unary(
                Wrapper::Swap,
                binary(Combinator::OrI, Term::False, unary(Wrapper::ZeroNotEqual, Term::After(1000000000))),
            ),
            "sln:after(1000000000)",
        ),
        (pk("[d34db33f/44'/0'/0']xpub6ERApfZ/1/*"), "pk([d34db33f/44'/0'/0']xpub6ERApfZ/1/*)"),
        (pk(""), "pk()"),
        (pk("a:b"), "pk(a:b)"),
    ]
}

#[test]
fn each_term_is_written_as_its_text() {
    for (term, text) in samples() {
        assert!(term.is_well_formed(), "{}", text);
        assert_eq!(term.to_text(), text);
    }
}

#[test]
fn each_text_is_read_as_its_term() {
    for (term, text) in samples() {
        assert_eq!(Term::from_text(text), Some(term), "{}", text);
    }
}

#[test]
fn a_written_term_is_read_back() {
    for (term, _) in samples() {
        let text = term.to_text();
        assert_eq!(Term::from_text(&text), Some(term));
    }
}

#[test]
fn spellings_that_are_never_written_are_refused() {
    for text in [
        "c:pk_k(A)",
        "c:pk_h(A)",
        "and_v(pk(A),1)",
        "or_i(0,pk(A))",
        "or_i(pk(A),0)",
        "l:0",
        "andor(pk(A),pk(B),0)",
        "after(007)",
        "after(+7)",
        ":pk(A)",
        "a::pk(A)",
    ] {
        assert_eq!(Term::from_text(text), None, "{}", text);
    }
}

#[test]
fn spellings_that_are_never_written_stand_for_terms_as_expressions() {
    let long = Expr::parse("c:pk_k(A)", false).unwrap();
    assert_eq!(Term::from_expr(&long), Some(pk("A")));
    let and_v = Expr::parse("and_v(pk(A),1)", false).unwrap();
    assert_eq!(Term::from_expr(&and_v), Some(binary(Combinator::AndV, pk("A"), Term::True)));
    let zeros = Expr::parse("after(007)", false).unwrap();
    assert_eq!(Term::from_expr(&zeros), Some(Term::After(7)));
}

#[test]
fn texts_that_are_no_terms_are_refused() {
    for text in [
        "",
        "pk",
        "pk(",
        "pk(A",
        "pk(A))",
        "pk(A)x",
        "pk(A,B)",
        "1()",
        "2",
        "after()",
        "after(4294967296)",
        "after(12345678901)",
        "after(1a)",
        "and_v(pk(A))",
        "and_v(pk(A),pk(B),pk(C))",
        "andor(pk(A),pk(B))",
        "thresh()",
        "thresh(1)",
        "thresh(0,pk(A))",
        "thresh(2,pk(A))",
        "thresh(pk(A),pk(B))",
        "multi(0,A)",
        "multi(3,A,B)",
        "multi(1,pk(A))",
        "x:pk(A)",
        "a:nonsense(A)",
        "{pk(A),pk(B)}",
        "pk{A}",
        "pk(\u{e9})x(",
        "wsh(pk(A))",
    ] {
        assert_eq!(Term::from_text(text), None, "{}", text);
    }
}

#[test]
fn a_text_beyond_ascii_is_read_by_character() {
    let term = pk("cl\u{e9}");
    assert!(term.is_well_formed());
    assert_eq!(term.to_text(), "pk(cl\u{e9})");
    assert_eq!(Term::from_text("pk(cl\u{e9})"), Some(term));
}

#[test]
fn a_term_that_is_not_well_formed_is_not_read_back() {
    let bracket = pk("A(B");
    assert!(!bracket.is_well_formed());
    assert_eq!(Term::from_text(&bracket.to_text()), None);
    let comma = pk("A,B");
    assert!(!comma.is_well_formed());
    assert_eq!(Term::from_text(&comma.to_text()), None);
    let brace = Term::Hash(HashKind::Sha256, "{".to_string());
    assert!(brace.is_well_formed());
    assert_eq!(Term::from_text("sha256({)"), Some(brace));
    assert_eq!(Term::from_text("pk(a{b}c)"), Some(pk("a{b}c")));
    let none = Term::Thresh(0, vec![pk("A")]);
    assert!(!none.is_well_formed());
    let many = Term::Thresh(2, vec![pk("A")]);
    assert!(!many.is_well_formed());
    let empty = Term::Multi(MultiKind::Multi, 0, vec![]);
    assert!(!empty.is_well_formed());
    let inner = unary(Wrapper::Alt, Term::Thresh(3, vec![pk("A"), pk("B")]));
    assert!(!inner.is_well_formed());
}

#[test]
fn a_threshold_asks_for_one_to_all() {
    assert_eq!(Term::threshold(0, vec![pk("A"), pk("B")]), None);
    assert_eq!(Term::threshold(3, vec![pk("A"), pk("B")]), None);
    assert_eq!(Term::threshold(1, vec![]), None);
    assert_eq!(Term::threshold(0, vec![]), None);
    assert_eq!(Term::threshold(1, vec![pk("A"), pk("B")]), Some(Term::Thresh(1, vec![pk("A"), pk("B")])));
    assert_eq!(Term::threshold(2, vec![pk("A"), pk("B")]), Some(Term::Thresh(2, vec![pk("A"), pk("B")])));
    for n in 1..6usize {
        for k in 0..8usize {
            let children: Vec<Term> = (0..n).map(|_| pk("A")).collect();
            assert_eq!(Term::threshold(k, children).is_some(), 1 <= k && k <= n);
        }
    }
}

#[test]
fn a_multi_asks_for_one_to_all() {
    let keys = || vec!["A".to_string(), "B".to_string()];
    assert_eq!(Term::multi(MultiKind::Multi, 0, keys()), None);
    assert_eq!(Term::multi(MultiKind::MultiA, 3, keys()), None);
    assert_eq!(Term::multi(MultiKind::Multi, 2, keys()), Some(Term::Multi(MultiKind::Multi, 2, keys())));
    assert_eq!(Term::multi(MultiKind::MultiA, 1, keys()), Some(Term::Multi(MultiKind::MultiA, 1, keys())));
}

#[test]
fn numbers_are_written_in_decimal() {
    assert_eq!(write_decimal(0), "0");
    assert_eq!(write_decimal(7), "7");
    assert_eq!(write_decimal(10), "10");
    assert_eq!(write_decimal(500), "500");
    assert_eq!(write_decimal(4294967295), "4294967295");
    assert_eq!(write_decimal(18446744073709551615), "18446744073709551615");
}

#[test]
fn numbers_are_read_from_digits() {
    assert_eq!(read_number("0"), Some(0));
    assert_eq!(read_number("500"), Some(500));
    assert_eq!(read_number("4294967295"), Some(4294967295));
    assert_eq!(read_number("007"), Some(7));
    assert_eq!(read_number("0000000001"), Some(1));
    assert_eq!(read_number("4294967296"), None);
    assert_eq!(read_number("9999999999"), None);
    assert_eq!(read_number("00000000001"), None);
    assert_eq!(read_number(""), None);
    assert_eq!(read_number("12a"), None);
    assert_eq!(read_number("-1"), None);
    assert_eq!(read_number("+1"), None);
    assert_eq!(read_number(" 1"), None);
    assert_eq!(read_number("\u{664}"), None);
}

fn leaf(name: &str) -> Expr {
    Expr { name: name.to_string(), curly: false, args: vec![] }
}

fn round(name: &str, args: Vec<Expr>) -> Expr {
    Expr { name: name.to_string(), curly: false, args }
}

#[test]
fn expressions_are_read() {
    assert_eq!(format!("{:?}", Expr::parse("", false).unwrap()), format!("{:?}", leaf("")));
    assert_eq!(format!("{:?}", Expr::parse("abc", false).unwrap()), format!("{:?}", leaf("abc")));
    assert_eq!(format!("{:?}", Expr::parse("f()", false).unwrap()), format!("{:?}", round("f", vec![leaf("")])));
    assert_eq!(
        format!("{:?}", Expr::parse("f(a,g(b),c)", false).unwrap()),
        format!("{:?}", round("f", vec![leaf("a"), round("g", vec![leaf("b")]), leaf("c")]))
    );
    let tree = Expr { name: String::new(), curly: true, args: vec![leaf("x"), round("g", vec![leaf("y")])] };
    assert_eq!(
        format!("{:?}", Expr::parse("tr(K,{x,g(y)})", true).unwrap()),
        format!("{:?}", round("tr", vec![leaf("K"), tree]))
    );
    for text in ["f(", "f(a", "f(a,", "f(a))", "f(a)b", "f(a}", "{a)", ")", ",", "a,b", "f(a)(b)", "}"] {
        assert!(Expr::parse(text, true).is_none(), "{}", text);
    }
    for text in ["f(", "f(a", "f(a,", "f(a))", "f(a)b", ")", ",", "a,b", "f(a)(b)", "f(a}"] {
        assert!(Expr::parse(text, false).is_none(), "{}", text);
    }
    let plain = Expr::parse("f({a,b})", false).unwrap();
    assert_eq!(format!("{:?}", plain), format!("{:?}", round("f", vec![leaf("{a"), leaf("b}")])));
    for text in ["{", "}", "a{b", "{a}"] {
        assert_eq!(format!("{:?}", Expr::parse(text, false).unwrap()), format!("{:?}", leaf(text)));
    }
}

#[test]
fn expressions_are_written() {
    for text in ["", "abc", "f()", "f(a,g(b),c)", "tr(K,{x,g(y)})", "{{a,b},c}", "w:f(,)"] {
        assert_eq!(Expr::parse(text, true).unwrap().to_text(), text);
    }
    for text in ["", "abc", "f()", "f(a,g(b),c)", "f({a,b})", "w:f(,)", "}{"] {
        assert_eq!(Expr::parse(text, false).unwrap().to_text(), text);
    }
}

fn nested(depth: usize) -> String {
    format!("{}x{}", "f(".repeat(depth), ")".repeat(depth))
}

#[test]
fn brackets_are_read_to_a_depth() {
    assert!(Expr::parse(&nested(MAX_DEPTH), false).is_some());
    assert!(Expr::parse(&nested(MAX_DEPTH + 1), false).is_none());
    assert!(Expr::parse(&nested(200000), false).is_none());
    assert!(Expr::parse(&"(".repeat(200000), false).is_none());
    assert!(Expr::parse(&"{".repeat(200000), true).is_none());
    assert!(Expr::parse(&"{".repeat(2000), false).is_some());
    let deep = Expr::parse(&nested(MAX_DEPTH), false).unwrap();
    assert!(deep.is_shallow(MAX_DEPTH));
    assert!(!deep.is_shallow(MAX_DEPTH - 1));
    assert!(Expr::parse("x", false).unwrap().is_shallow(0));
    assert!(!Expr::parse("f(x)", false).unwrap().is_shallow(0));
}

fn wrapped(letters: usize) -> String {
    format!("{}:after(1)", "n".repeat(letters))
}

fn stacked(depth: usize) -> String {
    format!("{}after(1){}", "and_b(after(1),".repeat(depth), ")".repeat(depth))
}

#[test]
fn terms_are_read_to_a_height() {
    assert!(Term::from_text(&wrapped(MAX_HEIGHT)).is_some());
    assert!(Term::from_text(&wrapped(MAX_HEIGHT + 1)).is_none());
    assert!(Term::from_text(&wrapped(200000)).is_none());
    assert!(Term::from_text(&stacked(MAX_HEIGHT)).is_some());
    assert!(Term::from_text(&stacked(MAX_HEIGHT + 1)).is_none());
    assert!(Term::from_text(&stacked(100000)).is_none());
    let mixed = format!("{}{}:after(1){}", "and_b(after(1),".repeat(MAX_HEIGHT - 2), "nn", ")".repeat(MAX_HEIGHT - 2));
    assert!(Term::from_text(&mixed).is_some());
    let mixed = format!("{}{}:after(1){}", "and_b(after(1),".repeat(MAX_HEIGHT - 2), "nnn", ")".repeat(MAX_HEIGHT - 2));
    assert!(Term::from_text(&mixed).is_none());
}

#[test]
fn a_term_that_is_too_high_is_not_well_formed() {
    let mut term = Term::After(1);
    for _ in 0..MAX_HEIGHT {
        term = Term::Unary(Wrapper::ZeroNotEqual, Box::new(term));
    }
    assert!(term.is_well_formed());
    let higher = Term::Unary(Wrapper::ZeroNotEqual, Box::new(term));
    assert!(!higher.is_well_formed());
    assert_eq!(Term::from_text(&higher.to_text()), None);
}
