use miniscript_nodes::context::Context;
use miniscript_nodes::error::ReadError;
use miniscript_nodes::{miniscript_from_script, parse_script, parse_text};

const COMPRESSED: &str = "0279be667ef9dcbbac55a06295ce870b07029bfcdb2dce28d959f2815b16f81798";
const UNCOMPRESSED: &str = "0479be667ef9dcbbac55a06295ce870b07029bfcdb2dce28d959f2815b16f81798483ada7726a3c4655da4fbfc0e1108a8fd17b448a68554199c47d08ffb10d4b8";
const X_ONLY: &str = "79be667ef9dcbbac55a06295ce870b07029bfcdb2dce28d959f2815b16f81798";

fn accepted(text: &str, context: Context) -> bool {
    parse_text(text, context).is_ok()
}

#[test]
fn an_uncompressed_key_is_legal_under_legacy_only() {
    let text = format!("pk({})", UNCOMPRESSED);
    assert!(accepted(&text, Context::Legacy));
    assert!(!accepted(&text, Context::SegwitV0));
    assert!(!accepted(&text, Context::Taproot));
}

const DIGEST: &str = "4ae81572f06e1b88fd5ced7a1a000945432e83e1551e6f721ee9c00b8cc33260";

fn behind_digests(count: usize) -> String {
    let mut text = format!("pk({})", COMPRESSED);
    for _ in 0..count {
        text = format!("and_v(v:sha256({}),{})", DIGEST, text);
    }
    text
}

#[test]
fn a_large_script_is_legal_under_segwit_only() {
    let text = behind_digests(14);
    assert!(!accepted(&text, Context::Legacy));
    assert!(accepted(&text, Context::SegwitV0));
    assert!(!accepted(&text, Context::Taproot));
}

#[test]
fn multi_a_is_legal_under_taproot_only() {
    let text = format!("multi_a(1,{})", X_ONLY);
    assert!(!accepted(&text, Context::Legacy));
    assert!(!accepted(&text, Context::SegwitV0));
    assert!(accepted(&text, Context::Taproot));
}

#[test]
fn a_compressed_key_is_legal_under_legacy_and_segwit() {
    let text = format!("pk({})", COMPRESSED);
    assert!(accepted(&text, Context::Legacy));
    assert!(accepted(&text, Context::SegwitV0));
    assert!(!accepted(&text, Context::Taproot));
}

#[test]
fn multi_is_not_legal_under_taproot() {
    let text = format!("multi(1,{})", X_ONLY);
    assert!(!accepted(&text, Context::Taproot));
}

fn violates(text: &str, context: Context) -> bool {
    matches!(parse_text(text, context), Err(ReadError::ContextViolation(_)))
}

#[test]
fn what_another_context_accepts_is_a_context_violation() {
    let uncompressed = format!("pk({})", UNCOMPRESSED);
    assert!(violates(&uncompressed, Context::SegwitV0));
    assert!(violates(&uncompressed, Context::Taproot));
    let x_only = format!("pk({})", X_ONLY);
    assert!(violates(&x_only, Context::Legacy));
    assert!(violates(&x_only, Context::SegwitV0));
    let large = behind_digests(14);
    assert!(violates(&large, Context::Legacy));
    assert!(violates(&large, Context::Taproot));
}

#[test]
fn what_no_context_accepts_is_a_grammar_error() {
    for text in ["pk(", "pk(nokey)", "nonsense(1)", "after(0)", "and_v(after(1))"] {
        for context in [Context::Legacy, Context::SegwitV0, Context::Taproot] {
            let refused = parse_text(text, context);
            assert!(matches!(refused, Err(ReadError::Grammar(_))), "{}: {:?}", text, refused);
        }
    }
}

#[test]
fn a_script_that_another_context_accepts_is_a_context_violation() {
    let mut script = vec![0x20u8];
    let key: Vec<u8> = (0..32).map(|i| u8::from_str_radix(&X_ONLY[2 * i..2 * i + 2], 16).unwrap()).collect();
    script.extend_from_slice(&key);
    script.push(0xac);
    assert_eq!(miniscript_from_script(&script, "tap"), Ok(format!("pk({})", X_ONLY)));
    for context in [Context::Legacy, Context::SegwitV0] {
        let refused = parse_script(&script, context);
        assert!(matches!(refused, Err(ReadError::ContextViolation(_))), "{:?}", refused);
    }
}

#[test]
fn a_small_script_is_legal_under_legacy_too() {
    let text = behind_digests(3);
    assert!(accepted(&text, Context::Legacy));
    assert!(accepted(&text, Context::SegwitV0));
}

#[test]
fn a_term_over_the_limit_on_operations_is_refused() {
    let within = behind_digests(40);
    assert!(accepted(&within, Context::SegwitV0));
    let over = behind_digests(60);
    assert!(!accepted(&over, Context::SegwitV0));
}

#[test]
fn a_term_need_not_ask_for_a_signature() {
    for context in [Context::Legacy, Context::SegwitV0, Context::Taproot] {
        assert!(accepted("after(500)", context));
        assert!(accepted(&format!("sha256({})", DIGEST), context));
    }
}

#[test]
fn a_key_may_not_be_repeated() {
    let text = format!("and_v(v:pk({}),pk({}))", COMPRESSED, COMPRESSED);
    assert!(!accepted(&text, Context::Legacy));
    assert!(!accepted(&text, Context::SegwitV0));
}
