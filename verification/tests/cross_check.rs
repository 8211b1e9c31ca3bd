use std::str::FromStr;

use miniscript::bitcoin::{PublicKey, XOnlyPublicKey};
use miniscript::descriptor::{ShInner, SortedMultiVec, TapTree, WshInner};
use miniscript::{
    Descriptor, ExtParams, Legacy, Miniscript, MiniscriptKey, ScriptContext, Segwitv0, Tap, Terminal,
};
use miniscript_nodes::context::Context;
use miniscript_nodes::frag::{Combinator, HashKind, KeyCheck, MultiKind, Wrapper};
use miniscript_nodes::term::Term;
use miniscript_nodes::value::Value;
use miniscript_nodes::{descriptor_nodes_from_string, miniscript_nodes_from_string, parse_script, parse_text};

fn field(name: &str, value: Value) -> Value {
    Value::Object(vec![(name.to_string(), value)])
}

fn text<T: ToString>(t: &T) -> Value {
    Value::Text(t.to_string())
}

fn array<Pk: MiniscriptKey, Ctx: ScriptContext>(items: &[&Miniscript<Pk, Ctx>]) -> Value {
    Value::Array(items.iter().map(|ms| nodes(ms)).collect())
}

fn nodes<Pk: MiniscriptKey, Ctx: ScriptContext>(ms: &Miniscript<Pk, Ctx>) -> Value {
    match &ms.node {
        Terminal::True => Value::Bool(true),
        Terminal::False => Value::Bool(false),
        Terminal::PkK(pk) => field("PkK", text(pk)),
        Terminal::PkH(pk) => field("PkH", text(pk)),
        Terminal::RawPkH(pkh) => field("RawPkH", text(pkh)),
        Terminal::After(v) => field("After", field("absLockTime", Value::Number(v.to_consensus_u32() as u64))),
        Terminal::Older(v) => field("Older", field("relLockTime", text(v))),
        Terminal::Sha256(hash) => field("Sha256", text(hash)),
        Terminal::Hash256(hash) => field("Hash256", text(hash)),
        Terminal::Ripemd160(hash) => field("Ripemd160", text(hash)),
        Terminal::Hash160(hash) => field("Hash160", text(hash)),
        Terminal::Alt(node) => field("Alt", nodes(node)),
        Terminal::Swap(node) => field("Swap", nodes(node)),
        Terminal::Check(node) => field("Check", nodes(node)),
        Terminal::DupIf(node) => field("DupIf", nodes(node)),
        Terminal::Verify(node) => field("Verify", nodes(node)),
        Terminal::NonZero(node) => field("NonZero", nodes(node)),
        Terminal::ZeroNotEqual(node) => field("ZeroNotEqual", nodes(node)),
        Terminal::AndV(a, b) => field("AndV", array(&[a, b])),
        Terminal::AndB(a, b) => field("AndB", array(&[a, b])),
        Terminal::AndOr(a, b, c) => field("AndOr", array(&[a, b, c])),
        Terminal::OrB(a, b) => field("OrB", array(&[a, b])),
        Terminal::OrD(a, b) => field("OrD", array(&[a, b])),
        Terminal::OrC(a, b) => field("OrC", array(&[a, b])),
        Terminal::OrI(a, b) => field("OrI", array(&[a, b])),
        Terminal::Thresh(t) => field("Thresh", Value::Array(t.iter().map(|ms| nodes(ms)).collect())),
        Terminal::Multi(pks) => field("Multi", Value::Array(pks.iter().map(|pk| text(pk)).collect())),
        Terminal::MultiA(pks) => field("MultiA", Value::Array(pks.iter().map(|pk| text(pk)).collect())),
    }
}

fn tree<Pk: MiniscriptKey, Ctx: ScriptContext>(ms: &Miniscript<Pk, Ctx>) -> Term {
    let sub = |x: &Miniscript<Pk, Ctx>| Box::new(tree(x));
    match &ms.node {
        Terminal::True => Term::True,
        Terminal::False => Term::False,
        Terminal::PkK(pk) => Term::Key(KeyCheck::PkK, pk.to_string()),
        Terminal::PkH(pk) => Term::Key(KeyCheck::PkH, pk.to_string()),
        Terminal::RawPkH(pkh) => Term::Key(KeyCheck::RawPkH, pkh.to_string()),
        Terminal::After(v) => Term::After(v.to_consensus_u32()),
        Terminal::Older(v) => Term::Older(v.to_consensus_u32()),
        Terminal::Sha256(hash) => Term::Hash(HashKind::Sha256, hash.to_string()),
        Terminal::Hash256(hash) => Term::Hash(HashKind::Hash256, hash.to_string()),
        Terminal::Ripemd160(hash) => Term::Hash(HashKind::Ripemd160, hash.to_string()),
        Terminal::Hash160(hash) => Term::Hash(HashKind::Hash160, hash.to_string()),
        Terminal::Alt(x) => Term::Unary(Wrapper::Alt, sub(x)),
        Terminal::Swap(x) => Term::Unary(Wrapper::Swap, sub(x)),
        Terminal::Check(x) => Term::Unary(Wrapper::Check, sub(x)),
        Terminal::DupIf(x) => Term::Unary(Wrapper::DupIf, sub(x)),
        Terminal::Verify(x) => Term::Unary(Wrapper::Verify, sub(x)),
        Terminal::NonZero(x) => Term::Unary(Wrapper::NonZero, sub(x)),
        Terminal::ZeroNotEqual(x) => Term::Unary(Wrapper::ZeroNotEqual, sub(x)),
        Terminal::AndV(a, b) => Term::Binary(Combinator::AndV, sub(a), sub(b)),
        Terminal::AndB(a, b) => Term::Binary(Combinator::AndB, sub(a), sub(b)),
        Terminal::AndOr(a, b, c) => Term::AndOr(sub(a), sub(b), sub(c)),
        Terminal::OrB(a, b) => Term::Binary(Combinator::OrB, sub(a), sub(b)),
        Terminal::OrD(a, b) => Term::Binary(Combinator::OrD, sub(a), sub(b)),
        Terminal::OrC(a, b) => Term::Binary(Combinator::OrC, sub(a), sub(b)),
        Terminal::OrI(a, b) => Term::Binary(Combinator::OrI, sub(a), sub(b)),
        Terminal::Thresh(t) => Term::Thresh(t.k(), t.iter().map(|x| tree(x)).collect()),
        Terminal::Multi(pks) => Term::Multi(MultiKind::Multi, pks.k(), pks.iter().map(|pk| pk.to_string()).collect()),
        Terminal::MultiA(pks) => {
            Term::Multi(MultiKind::MultiA, pks.k(), pks.iter().map(|pk| pk.to_string()).collect())
        }
    }
}

const K1: &str = "028c28a97bf8298bc0d23d8c749452a32e694b65e30a9472a3954ab30fe5324caa";
const K2: &str = "03daed4f2be3a8bf278e70132fb0beb7522f570e144bf615c07e996d443dee8729";
const K3: &str = "03fff97bd5755eeea420453a14355235d382f6472f8568a18b2f057a1460297556";
const H20: &str = "e7d285b4817f83f724cd29394da75dfc84fe639e";
const H32: &str = "4ae81572f06e1b88fd5ced7a1a000945432e83e1551e6f721ee9c00b8cc33260";

const SHAPES: [&str; 64] = [
    "0",
    "1",
    "pk(K1)",
    "pkh(K1)",
    "pk_k(K1)",
    "pk_h(K1)",
    "c:pk_k(K1)",
    "c:pk_h(K1)",
    "after(1)",
    "after(500)",
    "after(500000000)",
    "after(2147483648)",
    "after(0)",
    "after(2147483649)",
    "older(1)",
    "older(144)",
    "older(65535)",
    "older(4194305)",
    "older(0)",
    "older(2147483648)",
    "sha256(H32)",
    "hash256(H32)",
    "ripemd160(H20)",
    "hash160(H20)",
    "and_v(v:pk(K1),pk(K2))",
    "and_v(v:pk(K1),1)",
    "t:v:pk(K1)",
    "tv:pk(K1)",
    "and_b(pk(K1),a:pk(K2))",
    "and_b(pk(K1),s:pk(K2))",
    "or_b(pk(K1),a:pk(K2))",
    "or_b(pk(K1),s:pk(K2))",
    "or_d(pk(K1),pk(K2))",
    "or_d(pk(K1),pkh(K2))",
    "or_c(pk(K1),v:pk(K2))",
    "t:or_c(pk(K1),v:pk(K2))",
    "or_i(pk(K1),pk(K2))",
    "or_i(0,pk(K1))",
    "or_i(pk(K1),0)",
    "or_i(0,0)",
    "l:pk(K1)",
    "u:pk(K1)",
    "l:0",
    "u:0",
    "andor(pk(K1),pk(K2),pk(K3))",
    "andor(pk(K1),pk(K2),0)",
    "and_n(pk(K1),pk(K2))",
    "andor(pk(K1),older(1008),pk(K2))",
    "thresh(1,pk(K1))",
    "thresh(2,pk(K1),s:pk(K2),s:pk(K3))",
    "thresh(3,pk(K1),s:pk(K2),s:pk(K3),sln:after(1000000000))",
    "thresh(2,pk(K1),a:pk(K2),sdv:older(10))",
    "multi(1,K1)",
    "multi(2,K1,K2,K3)",
    "multi_a(1,K1)",
    "multi_a(2,K1,K2,K3)",
    "and_v(or_c(pk(K1),or_c(pk(K2),v:older(1000))),pk(K3))",
    "t:or_c(pk(K1),and_v(v:pk(K2),or_c(pk(K3),v:hash160(H20))))",
    "or_d(multi(1,K1),or_b(multi(2,K2,K3),su:after(500000)))",
    "j:and_v(v:pk(K1),pk(K2))",
    "n:pk(K1)",
    "dv:older(10)",
    "and_v(vc:pk_k(K1),c:pk_k(K2))",
    "uuj:and_v(v:multi(2,K1,K2),after(1732934485))",
];

fn rules() -> ExtParams {
    ExtParams::sane().top_unsafe()
}

fn shaped(shape: &str, x_only: bool) -> String {
    let cut = if x_only { 2 } else { 0 };
    shape
        .replace("K1", &K1[cut..])
        .replace("K2", &K2[cut..])
        .replace("K3", &K3[cut..])
        .replace("H32", H32)
        .replace("H20", H20)
}

fn check<Pk, Ctx>(context: Context, tag: &str, x_only: bool) -> usize
where
    Pk: MiniscriptKey + miniscript::FromStrKey,
    Ctx: ScriptContext,
{
    let mut accepted = 0;
    for shape in SHAPES {
        let input = shaped(shape, x_only);
        let read = parse_text(&input, context);
        let projected = miniscript_nodes_from_string(&input, tag);
        match Miniscript::<Pk, Ctx>::from_str_ext(&input, &rules()) {
            Ok(ms) => {
                accepted += 1;
                assert_eq!(read, Ok(tree(&ms)), "{}", input);
                assert_eq!(projected, Ok(nodes(&ms)), "{}", input);
                let written = read.unwrap().to_text();
                assert_eq!(written, ms.to_string(), "{}", input);
                assert_eq!(parse_text(&written, context), Ok(tree(&ms)), "{}", input);
                assert_eq!(Term::from_text(&written), Some(tree(&ms)), "{}", input);
            }
            Err(error) => {
                assert!(read.is_err(), "{}", input);
                assert_eq!(projected.unwrap_err().message(), format!("{:?}", error), "{}", input);
            }
        }
    }
    accepted
}

#[test]
fn legacy_terms_are_read_as_the_validating_parser_finds_them() {
    let accepted = check::<PublicKey, Legacy>(Context::Legacy, "legacy", false);
    assert!(accepted >= 25, "{}", accepted);
}

#[test]
fn segwit_terms_are_read_as_the_validating_parser_finds_them() {
    let accepted = check::<PublicKey, Segwitv0>(Context::SegwitV0, "segwit", false);
    assert!(accepted >= 25, "{}", accepted);
}

#[test]
fn taproot_terms_are_read_as_the_validating_parser_finds_them() {
    let accepted = check::<XOnlyPublicKey, Tap>(Context::Taproot, "tap", true);
    assert!(accepted >= 25, "{}", accepted);
}

#[test]
fn scripts_are_read_as_the_validating_parser_finds_them() {
    let mut decoded = 0;
    for shape in SHAPES {
        let input = shaped(shape, false);
        if let Ok(ms) = Miniscript::<PublicKey, Segwitv0>::from_str_ext(&input, &rules()) {
            let script = ms.encode();
            let found = Miniscript::<PublicKey, Segwitv0>::parse_with_ext(&script, &rules());
            let read = parse_script(script.as_bytes(), Context::SegwitV0);
            match found {
                Ok(back) => {
                    decoded += 1;
                    assert_eq!(read, Ok(tree(&back)), "{}", input);
                }
                Err(_) => assert!(read.is_err(), "{}", input),
            }
        }
    }
    assert!(decoded >= 25, "{}", decoded);
}

fn sorted_nodes<Ctx: ScriptContext>(v: &SortedMultiVec<String, Ctx>) -> Value {
    Value::Object(vec![
        ("k".to_string(), Value::Number(v.k() as u64)),
        ("n".to_string(), Value::Number(v.n() as u64)),
        ("pks".to_string(), Value::Array(v.pks().iter().map(|pk| text(pk)).collect())),
    ])
}

fn wsh_nodes(inner: &WshInner<String>) -> Value {
    match inner {
        WshInner::SortedMulti(v) => field("SortedMulti", sorted_nodes(v)),
        WshInner::Ms(v) => field("Ms", nodes(v)),
    }
}

fn sh_nodes(inner: &ShInner<String>) -> Value {
    match inner {
        ShInner::Wsh(v) => field("Wsh", wsh_nodes(v.as_inner())),
        ShInner::Wpkh(v) => field("Wpkh", text(v.as_inner())),
        ShInner::SortedMulti(v) => field("SortedMulti", sorted_nodes(v)),
        ShInner::Ms(v) => field("Ms", nodes(v)),
    }
}

fn tap_nodes(t: &TapTree<String>) -> Value {
    match t {
        TapTree::Tree { left, right, .. } => field("Tree", Value::Array(vec![tap_nodes(left), tap_nodes(right)])),
        TapTree::Leaf(ms) => nodes(ms),
    }
}

fn descriptor_nodes(d: &Descriptor<String>) -> Value {
    match d {
        Descriptor::Bare(v) => field("Bare", nodes(v.as_inner())),
        Descriptor::Pkh(v) => field("Pkh", text(v.as_inner())),
        Descriptor::Wpkh(v) => field("Wpkh", text(v.as_inner())),
        Descriptor::Sh(v) => field("Sh", sh_nodes(v.as_inner())),
        Descriptor::Wsh(v) => field("Wsh", wsh_nodes(v.as_inner())),
        Descriptor::Tr(v) => field(
            "Tr",
            Value::Object(vec![
                ("internalKey".to_string(), text(v.internal_key())),
                (
                    "tree".to_string(),
                    match v.tap_tree() {
                        Some(t) => tap_nodes(t),
                        None => Value::Null,
                    },
                ),
            ]),
        ),
    }
}

const DESCRIPTORS: [&str; 58] = [
    "pkh(a{b)",
    "pkh({)",
    "wpkh(})",
    "pk({)",
    "c:pk_h(a{b}c)",
    "wsh(pk({))",
    "wsh(sortedmulti(1,{,}))",
    "sh(wsh(pk(a}b)))",
    "sh(multi(1,{a,b}))",
    "tr(a{b)",
    "tr(a{b,pk(C))",
    "tr({,{pk(B),pk(C)})",
    "tr(A,pk(b{c))",
    "wsh(pk(tr))",
    "pk(A)",
    "pkh(A)",
    "wpkh(A)",
    "c:pk_k(A)",
    "c:pk_h(A)",
    "multi(1,A,B)",
    "multi(2,A,B,C)",
    "multi(2,A,B,C,D)",
    "sh(wpkh(A))",
    "sh(pk(A))",
    "sh(pkh(A))",
    "sh(multi(2,A,B,C))",
    "sh(sortedmulti(1,A,B))",
    "sh(sortedmulti(2,A,B,C))",
    "sh(wsh(pk(A)))",
    "sh(wsh(pkh(A)))",
    "sh(wsh(sortedmulti(2,A,B,C)))",
    "sh(wsh(and_v(v:pk(A),pk(B))))",
    "wsh(pk(A))",
    "wsh(pkh(A))",
    "wsh(c:pk_k(A))",
    "wsh(sortedmulti(2,A,B,C))",
    "wsh(sortedmulti(1,A))",
    "wsh(multi(2,A,B,C))",
    "wsh(and_v(v:pk(A),pk(B)))",
    "wsh(and_v(v:pk(A),after(500)))",
    "wsh(or_d(pk(A),and_v(v:pk(B),older(144))))",
    "wsh(thresh(2,pk(A),s:pk(B),s:pk(C)))",
    "wsh(andor(pk(A),older(1008),pk(B)))",
    "wsh(or_i(pk(A),pk(B)))",
    "wsh(t:or_c(pk(A),v:pk(B)))",
    "tr(A)",
    "tr(A,pk(B))",
    "tr(A,{pk(B),pk(C)})",
    "tr(A,{pk(B),{pk(C),multi_a(2,D,E)}})",
    "tr(A,{{pk(B),pk(C)},pk(D)})",
    "tr(A,{{pk(B),pk(C)},{pk(D),and_v(v:pk(E),older(10))}})",
    "tr(A,multi_a(1,B,C))",
    "tr(A,multi(1,B,C))",
    "wsh(sortedmulti(0,A))",
    "wsh(sortedmulti(3,A,B))",
    "sh(wsh(wpkh(A)))",
    "tr(A,{pk(B)})",
    "wsh(after(500))",
];

#[test]
fn descriptors_are_read_as_the_validating_parser_finds_them() {
    let mut accepted = 0;
    for input in DESCRIPTORS {
        let projected = descriptor_nodes_from_string(input);
        match Descriptor::<String>::from_str(input) {
            Ok(d) => {
                accepted += 1;
                assert_eq!(projected, Ok(descriptor_nodes(&d)), "{}", input);
                let with_checksum = d.to_string();
                assert_ne!(with_checksum, input);
                let again = Descriptor::<String>::from_str(&with_checksum).unwrap();
                assert_eq!(descriptor_nodes_from_string(&with_checksum), Ok(descriptor_nodes(&again)), "{}", input);
            }
            Err(error) => {
                assert_eq!(projected.unwrap_err().message(), format!("{:?}", error), "{}", input)
            }
        }
    }
    assert!(accepted >= 25, "{}", accepted);
}

#[test]
fn the_limits_on_resources_are_kept() {
    let digest = "e7d285b4817f83f724cd29394da75dfc84fe639e";
    let mut text = format!("pk({})", K1);
    for _ in 0..60 {
        text = format!("and_v(v:hash160({}),{})", digest, text);
    }
    assert!(Miniscript::<PublicKey, Segwitv0>::from_str_insane(&text).is_ok());
    assert!(Miniscript::<PublicKey, Segwitv0>::from_str_ext(&text, &rules()).is_err());
    assert!(parse_text(&text, Context::SegwitV0).is_err());
    let script = Miniscript::<PublicKey, Segwitv0>::from_str_insane(&text).unwrap().encode();
    assert!(parse_script(script.as_bytes(), Context::SegwitV0).is_err());
}
