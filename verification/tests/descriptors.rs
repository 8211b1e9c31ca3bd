use miniscript_nodes::descriptor::{Descriptor, ShInner, SortedMulti, TapTree, WshInner};
use miniscript_nodes::error::ReadError;
use miniscript_nodes::frag::{KeyCheck, Wrapper};
use miniscript_nodes::term::Term;
use miniscript_nodes::value::Value;
use miniscript_nodes::{descriptor_nodes_from_string, parse_descriptor};

fn field(name: &str, value: Value) -> Value {
    Value::Object(vec![(name.to_string(), value)])
}

fn text(s: &str) -> Value {
    Value::Text(s.to_string())
}

fn pk(name: &str) -> Term {
    Term::Unary(Wrapper::Check, Box::new(Term::Key(KeyCheck::PkK, name.to_string())))
}

fn pk_value(name: &str) -> Value {
    field("Check", field("PkK", text(name)))
}

fn sorted(k: usize, keys: &[&str]) -> SortedMulti {
    SortedMulti { k, keys: keys.iter().map(|k| k.to_string()).collect() }
}

fn samples() -> Vec<(Descriptor, &'static str)> {
    vec![
        (Descriptor::Pkh("a{b".to_string()), "pkh(a{b)"),
        (Descriptor::Wsh(WshInner::Ms(pk("{"))), "wsh(pk({))"),
        (Descriptor::Sh(ShInner::Wpkh("}".to_string())), "sh(wpkh(}))"),
        (Descriptor::Wsh(WshInner::SortedMulti(sorted(1, &["{", "}"]))), "wsh(sortedmulti(1,{,}))"),
        (Descriptor::Tr("a{b}".to_string(), Some(TapTree::Leaf(pk("B")))), "tr(a{b},pk(B))"),
        (Descriptor::Tr("".to_string(), None), "tr()"),
        (Descriptor::Bare(pk("A")), "pk(A)"),
        (Descriptor::Pkh("A".to_string()), "pkh(A)"),
        (Descriptor::Wpkh("A".to_string()), "wpkh(A)"),
        (Descriptor::Sh(ShInner::Wpkh("A".to_string())), "sh(wpkh(A))"),
        (Descriptor::Sh(ShInner::Ms(pk("A"))), "sh(pk(A))"),
        (Descriptor::Sh(ShInner::Wsh(WshInner::Ms(pk("A")))), "sh(wsh(pk(A)))"),
        (
            Descriptor::Sh(ShInner::Wsh(WshInner::SortedMulti(sorted(2, &["A", "B", "C"])))),
            "sh(wsh(sortedmulti(2,A,B,C)))",
        ),
        (Descriptor::Sh(ShInner::SortedMulti(sorted(1, &["A", "B"]))), "sh(sortedmulti(1,A,B))"),
        (Descriptor::Wsh(WshInner::Ms(pk("A"))), "wsh(pk(A))"),
        (Descriptor::Wsh(WshInner::SortedMulti(sorted(2, &["A", "B", "C"]))), "wsh(sortedmulti(2,A,B,C))"),
        (Descriptor::Tr("A".to_string(), None), "tr(A)"),
        (Descriptor::Tr("A".to_string(), Some(TapTree::Leaf(pk("B")))), "tr(A,pk(B))"),
        (
            Descriptor::Tr(
                "A".to_string(),
                Some(TapTree::Tree(Box::new(TapTree::Leaf(pk("B"))), Box::new(TapTree::Leaf(pk("C"))))),
            ),
            "tr(A,{pk(B),pk(C)})",
        ),
        (
            Descriptor::Tr(
                "A".to_string(),
                Some(TapTree::Tree(
                    Box::new(TapTree::Tree(Box::new(TapTree::Leaf(pk("B"))), Box::new(TapTree::Leaf(pk("C"))))),
                    Box::new(TapTree::Leaf(pk("D"))),
                )),
            ),
            "tr(A,{{pk(B),pk(C)},pk(D)})",
        ),
    ]
}

#[test]
fn each_descriptor_is_written_as_its_text() {
    for (descriptor, text) in samples() {
        assert!(descriptor.is_well_formed(), "{}", text);
        assert_eq!(descriptor.to_text(), text);
    }
}

#[test]
fn each_text_is_read_as_its_descriptor() {
    for (descriptor, text) in samples() {
        let bare = descriptor.is_bare();
        assert_eq!(Descriptor::from_text(bare, text), Some(descriptor), "{}", text);
    }
}

#[test]
fn each_descriptor_is_validated_and_read() {
    for (descriptor, text) in samples() {
        assert_eq!(parse_descriptor(text), Ok(descriptor), "{}", text);
    }
}

#[test]
fn the_text_of_a_checked_key_hash_is_read_as_told() {
    let term = Term::Unary(Wrapper::Check, Box::new(Term::Key(KeyCheck::PkH, "A".to_string())));
    assert_eq!(Descriptor::from_text(true, "pkh(A)"), Some(Descriptor::Bare(term)));
    assert_eq!(Descriptor::from_text(false, "pkh(A)"), Some(Descriptor::Pkh("A".to_string())));
    assert_eq!(parse_descriptor("pkh(A)"), Ok(Descriptor::Pkh("A".to_string())));
}

#[test]
fn a_bare_term_written_long_stays_bare() {
    let term = Term::Unary(Wrapper::Check, Box::new(Term::Key(KeyCheck::PkH, "A".to_string())));
    assert_eq!(parse_descriptor("c:pk_h(A)"), Ok(Descriptor::Bare(term)));
    let expected = field("Bare", field("Check", field("PkH", text("A"))));
    assert_eq!(descriptor_nodes_from_string("c:pk_h(A)"), Ok(expected));
}

#[test]
fn texts_that_are_no_descriptors_are_refused() {
    for text in ["", "pkh", "pkh()()", "pkh(A,B)", "wpkh(pk(A))", "sh()x", "sh(A,B)", "tr()()", "tr(A,B,C)", "tr(A,{pk(B)})", "tr(A,{pk(B),pk(C),pk(D)})", "tr(A,x{pk(B),pk(C)})", "wsh(sortedmulti(0,A))", "wsh(sortedmulti(3,A,B))", "pk(A)", "nonsense(A)"] {
        assert_eq!(Descriptor::from_text(false, text), None, "{}", text);
    }
    for text in ["", "wsh(pk(A))", "wpkh(A)", "tr(A)", "sh(pk(A))"] {
        assert_eq!(Descriptor::from_text(true, text), None, "{}", text);
    }
}

#[test]
fn a_descriptor_that_is_not_well_formed_is_not_read_back() {
    let comma = Descriptor::Pkh("A,B".to_string());
    assert!(!comma.is_well_formed());
    assert_eq!(Descriptor::from_text(false, &comma.to_text()), None);
    let brace = Descriptor::Tr("A{".to_string(), None);
    assert!(brace.is_well_formed());
    assert_eq!(Descriptor::from_text(false, "tr(A{)"), Some(brace));
    let leaf = Descriptor::Tr("A".to_string(), Some(TapTree::Leaf(pk("B{"))));
    assert!(!leaf.is_well_formed());
    assert_eq!(Descriptor::from_text(false, &leaf.to_text()), None);
    let round = Descriptor::Tr("A(".to_string(), None);
    assert!(!round.is_well_formed());
    let none = Descriptor::Wsh(WshInner::SortedMulti(sorted(0, &["A"])));
    assert!(!none.is_well_formed());
    let many = Descriptor::Sh(ShInner::SortedMulti(sorted(3, &["A", "B"])));
    assert!(!many.is_well_formed());
}

#[test]
fn descriptors_are_projected() {
    let keys = || Value::Array(vec![text("A"), text("B"), text("C")]);
    let sorted_value = || {
        Value::Object(vec![
            ("k".to_string(), Value::Number(2)),
            ("n".to_string(), Value::Number(3)),
            ("pks".to_string(), keys()),
        ])
    };
    let cases = vec![
        ("pk(A)", field("Bare", pk_value("A"))),
        ("pkh(A)", field("Pkh", text("A"))),
        ("wpkh(A)", field("Wpkh", text("A"))),
        ("sh(wpkh(A))", field("Sh", field("Wpkh", text("A")))),
        ("sh(pk(A))", field("Sh", field("Ms", pk_value("A")))),
        ("sh(wsh(pk(A)))", field("Sh", field("Wsh", field("Ms", pk_value("A"))))),
        ("sh(sortedmulti(2,A,B,C))", field("Sh", field("SortedMulti", sorted_value()))),
        ("sh(wsh(sortedmulti(2,A,B,C)))", field("Sh", field("Wsh", field("SortedMulti", sorted_value())))),
        ("wsh(pk(A))", field("Wsh", field("Ms", pk_value("A")))),
        ("wsh(sortedmulti(2,A,B,C))", field("Wsh", field("SortedMulti", sorted_value()))),
        (
            "tr(A)",
            field("Tr", Value::Object(vec![("internalKey".to_string(), text("A")), ("tree".to_string(), Value::Null)])),
        ),
        (
            "tr(A,pk(B))",
            field(
                "Tr",
                Value::Object(vec![("internalKey".to_string(), text("A")), ("tree".to_string(), pk_value("B"))]),
            ),
        ),
        (
            "tr(A,{pk(B),pk(C)})",
            field(
                "Tr",
                Value::Object(vec![
                    ("internalKey".to_string(), text("A")),
                    ("tree".to_string(), field("Tree", Value::Array(vec![pk_value("B"), pk_value("C")]))),
                ]),
            ),
        ),
    ];
    for (input, expected) in cases {
        assert_eq!(descriptor_nodes_from_string(input), Ok(expected), "{}", input);
        assert_eq!(parse_descriptor(input).unwrap().to_value(), descriptor_nodes_from_string(input).unwrap());
    }
}

#[test]
fn a_checksum_is_verified_and_left_out() {
    let plain = parse_descriptor("wsh(pk(A))").unwrap();
    let refused = parse_descriptor("wsh(pk(A))#00000000");
    assert!(matches!(refused, Err(ReadError::Grammar(_))), "{:?}", refused);
    assert_eq!(plain.to_text(), "wsh(pk(A))");
}
