use miniscript_nodes::context::Context;
use miniscript_nodes::error::ReadError;
use miniscript_nodes::frag::MultiKind;
use miniscript_nodes::term::Term;
use miniscript_nodes::value::Value;
use miniscript_nodes::{
    descriptor_nodes_from_string, miniscript_from_script, miniscript_nodes_from_string,
    parse_descriptor, parse_script, parse_text,
};

const KEY_1: &str = "0279be667ef9dcbbac55a06295ce870b07029bfcdb2dce28d959f2815b16f81798";
const KEY_2: &str = "02e6642fd69bd211f93f7f1f36ca51a26a5290eb2dd1b0d8279a87bb0d480c8443";
const KEY_3: &str = "028c28a97bf8298bc0d23d8c749452a32e694b65e30a9472a3954ab30fe5324caa";

fn field(name: &str, value: Value) -> Value {
    Value::Object(vec![(name.to_string(), value)])
}

#[test]
fn true_script_under_legacy_is_true() {
    let script = [0x51u8];
    assert_eq!(miniscript_from_script(&script, "legacy"), Ok("1".to_string()));
    let term = parse_script(&script, Context::Legacy).unwrap();
    assert_eq!(term, Term::True);
    assert_eq!(term.to_value(), Value::Bool(true));
}

#[test]
fn false_is_read_and_projected() {
    let term = Term::from_text("0").unwrap();
    assert_eq!(term, Term::False);
    assert_eq!(term.to_value(), Value::Bool(false));
    let wrapped = parse_text("or_i(0,after(7))", Context::SegwitV0).unwrap();
    assert_eq!(wrapped.to_text(), "l:after(7)");
    let expected = field(
        "OrI",
        Value::Array(vec![Value::Bool(false), field("After", field("absLockTime", Value::Number(7)))]),
    );
    assert_eq!(wrapped.to_value(), expected);
}

#[test]
fn after_500_is_read_and_projected() {
    for context in [Context::Legacy, Context::SegwitV0, Context::Taproot] {
        assert_eq!(parse_text("after(500)", context), Ok(Term::After(500)));
    }
    let expected = field("After", field("absLockTime", Value::Number(500)));
    assert_eq!(miniscript_nodes_from_string("after(500)", "legacy"), Ok(expected));
}

#[test]
fn older_is_projected_as_text() {
    let expected = field("Older", field("relLockTime", Value::Text("144".to_string())));
    assert_eq!(miniscript_nodes_from_string("older(144)", "segwit"), Ok(expected));
}

#[test]
fn multi_two_of_three_under_legacy() {
    let text = format!("multi(2,{},{},{})", KEY_1, KEY_2, KEY_3);
    let term = parse_text(&text, Context::Legacy).unwrap();
    let keys = vec![KEY_1.to_string(), KEY_2.to_string(), KEY_3.to_string()];
    assert_eq!(term, Term::Multi(MultiKind::Multi, 2, keys));
    let projected = miniscript_nodes_from_string(&text, "legacy").unwrap();
    let expected = field(
        "Multi",
        Value::Array(vec![
            Value::Text(KEY_1.to_string()),
            Value::Text(KEY_2.to_string()),
            Value::Text(KEY_3.to_string()),
        ]),
    );
    assert_eq!(projected, expected);
    match projected {
        Value::Object(fields) => {
            assert_eq!(fields.len(), 1);
            assert_eq!(fields[0].0, "Multi");
            match &fields[0].1 {
                Value::Array(items) => {
                    assert_eq!(items.len(), 3);
                    assert!(items.iter().all(|item| matches!(item, Value::Text(_))));
                }
                other => panic!("not an array: {:?}", other),
            }
        }
        other => panic!("not an object: {:?}", other),
    }
}

#[test]
fn unknown_context_tag_is_refused() {
    let text = format!("pk({})", KEY_1);
    let refused = miniscript_nodes_from_string(&text, "bogus");
    assert_eq!(refused, Err(ReadError::InvalidContextTag));
    assert_eq!(refused.unwrap_err().message(), "Invalid context type");
    assert_eq!(miniscript_from_script(&[0x51u8], "bogus"), Err(ReadError::InvalidContextTag));
    assert_eq!(miniscript_nodes_from_string(&text, ""), Err(ReadError::InvalidContextTag));
    assert_eq!(miniscript_nodes_from_string(&text, "Legacy"), Err(ReadError::InvalidContextTag));
    assert_eq!(miniscript_nodes_from_string(&text, "taproot"), Err(ReadError::InvalidContextTag));
}

#[test]
fn context_tags_are_looked_up() {
    assert_eq!(Context::from_tag("legacy"), Ok(Context::Legacy));
    assert_eq!(Context::from_tag("segwit"), Ok(Context::SegwitV0));
    assert_eq!(Context::from_tag("tap"), Ok(Context::Taproot));
    assert_eq!(Context::from_tag("bogus"), Err(ReadError::InvalidContextTag));
    for context in [Context::Legacy, Context::SegwitV0, Context::Taproot] {
        assert_eq!(Context::from_tag(context.tag()), Ok(context));
    }
}

#[test]
fn wsh_inside_wsh_is_a_structure_error() {
    let refused = descriptor_nodes_from_string("wsh(wsh(pk(A)))");
    assert!(matches!(refused, Err(ReadError::DescriptorStructure(_))), "{:?}", refused);
    let refused = parse_descriptor("wsh(wsh(pk(A)))");
    assert!(matches!(refused, Err(ReadError::DescriptorStructure(_))), "{:?}", refused);
}

#[test]
fn other_misplaced_layers_are_structure_errors() {
    for text in ["sh(sh(pk(A)))", "wsh(sh(pk(A)))", "wsh(wpkh(A))", "sh(tr(A))", "sh(wsh(wsh(pk(A))))"] {
        let refused = parse_descriptor(text);
        assert!(matches!(refused, Err(ReadError::DescriptorStructure(_))), "{}: {:?}", text, refused);
    }
}

#[test]
fn a_refused_descriptor_without_misplaced_layer_is_no_structure_error() {
    for text in ["wsh(pk(A)", "wsh(nonsense(A))", "", "wsh()"] {
        let refused = parse_descriptor(text);
        assert!(
            matches!(refused, Err(ReadError::Grammar(_)) | Err(ReadError::ContextViolation(_))),
            "{}: {:?}",
            text,
            refused
        );
    }
}

#[test]
fn deep_nesting_is_refused() {
    let deep = format!("{}pk(A){}", "wsh(".repeat(100000), ")".repeat(100000));
    assert!(parse_descriptor(&deep).is_err());
    let open = "(".repeat(100000);
    assert!(parse_descriptor(&open).is_err());
    assert!(miniscript_nodes_from_string(&open, "segwit").is_err());
    let braces = format!("tr(A,{}", "{".repeat(100000));
    assert!(parse_descriptor(&braces).is_err());
}

#[test]
fn empty_input_is_refused() {
    for tag in ["legacy", "segwit", "tap"] {
        let refused = miniscript_nodes_from_string("", tag);
        assert!(matches!(refused, Err(ReadError::Grammar(_))), "{:?}", refused);
        let refused = miniscript_from_script(&[], tag);
        assert!(matches!(refused, Err(ReadError::Grammar(_))), "{:?}", refused);
    }
}

#[test]
fn malformed_text_is_a_grammar_error() {
    for text in ["and_v(", "pk(", "after(500))", "after(0500)", "after(x)", "thresh(0,after(1))", "thresh(2,after(1))", "nonsense(1)"] {
        let refused = miniscript_nodes_from_string(text, "segwit");
        assert!(matches!(refused, Err(ReadError::Grammar(_))), "{}: {:?}", text, refused);
        assert!(!refused.unwrap_err().message().is_empty());
    }
}

#[test]
fn a_rule_of_the_context_is_a_context_violation() {
    let text = format!("multi_a(1,{})", KEY_1);
    let refused = miniscript_nodes_from_string(&text, "legacy");
    assert!(matches!(refused, Err(ReadError::ContextViolation(_))), "{:?}", refused);
    let refused = miniscript_nodes_from_string(&text, "segwit");
    assert!(matches!(refused, Err(ReadError::ContextViolation(_))), "{:?}", refused);
}

#[test]
fn another_spelling_is_read_as_the_same_term() {
    let short = format!("pk({})", KEY_1);
    let long = format!("c:pk_k({})", KEY_1);
    let upper = format!("pk({})", KEY_1.to_uppercase());
    let expected = parse_text(&short, Context::SegwitV0).unwrap();
    assert_eq!(parse_text(&long, Context::SegwitV0), Ok(Term::from_text(&short).unwrap()));
    assert_eq!(parse_text(&long, Context::SegwitV0).unwrap(), expected);
    assert_eq!(parse_text(&upper, Context::SegwitV0).unwrap(), expected);
    assert_eq!(Term::from_text(&long), None);
}

#[test]
fn another_spelling_is_read_under_every_context() {
    let cases = [
        (Context::Legacy, KEY_1.to_string(), KEY_2.to_string()),
        (Context::SegwitV0, KEY_1.to_string(), KEY_2.to_string()),
        (Context::Taproot, KEY_1[2..].to_string(), KEY_2[2..].to_string()),
    ];
    for (context, key, other) in cases {
        let long = format!("and_v(vc:pk_k({}),c:pk_k({}))", key, other);
        let short = format!("and_v(v:pk({}),pk({}))", key, other);
        let term = parse_text(&long, context).unwrap();
        assert_eq!(term.to_text(), short);
        assert_eq!(Some(term), Term::from_text(&short));
        assert_eq!(Term::from_text(&long), None);
    }
}

#[test]
fn constants_are_decoded_under_every_context() {
    for context in [Context::Legacy, Context::SegwitV0, Context::Taproot] {
        assert_eq!(parse_script(&[0x51u8], context), Ok(Term::True));
        assert_eq!(miniscript_from_script(&[0x51u8], context.tag()), Ok("1".to_string()));
        assert!(parse_script(&[0x51u8, 0x51u8], context).is_err());
        assert!(parse_script(&[0xffu8], context).is_err());
    }
}

#[test]
fn a_script_is_printed_as_its_term() {
    let mut script = vec![0x21u8];
    let key: Vec<u8> = (0..33).map(|i| u8::from_str_radix(&KEY_1[2 * i..2 * i + 2], 16).unwrap()).collect();
    script.extend_from_slice(&key);
    script.push(0xac);
    assert_eq!(miniscript_from_script(&script, "segwit"), Ok(format!("pk({})", KEY_1)));
    assert_eq!(miniscript_from_script(&script, "legacy"), Ok(format!("pk({})", KEY_1)));
    assert!(miniscript_from_script(&script, "tap").is_err());
}

#[test]
fn a_refusal_is_classified() {
    let cause = || "cause".to_string();
    assert_eq!(ReadError::refused(false, false, cause()), ReadError::Grammar(cause()));
    assert_eq!(ReadError::refused(true, false, cause()), ReadError::ContextViolation(cause()));
    assert_eq!(ReadError::refused(false, true, cause()), ReadError::ContextViolation(cause()));
    assert_eq!(ReadError::refused(true, true, cause()), ReadError::ContextViolation(cause()));
    assert_eq!(ReadError::refused(false, false, String::new()).message(), "");
    assert_eq!(ReadError::refused(true, false, cause()).message(), "cause");
}

#[test]
fn a_key_may_hold_curly_brackets() {
    let found = descriptor_nodes_from_string("pkh(a{b)");
    assert_eq!(found, Ok(field("Pkh", Value::Text("a{b".to_string()))));
    let found = descriptor_nodes_from_string("wsh(pk({))");
    let key = field("Check", field("PkK", Value::Text("{".to_string())));
    assert_eq!(found, Ok(field("Wsh", field("Ms", key))));
    let found = descriptor_nodes_from_string("tr(a}b)");
    let fields = vec![
        ("internalKey".to_string(), Value::Text("a}b".to_string())),
        ("tree".to_string(), Value::Null),
    ];
    assert_eq!(found, Ok(field("Tr", Value::Object(fields))));
}

#[test]
fn a_key_named_like_a_layer_is_no_layer() {
    for name in ["tr", "sh", "wsh", "wpkh"] {
        let text = format!("wsh(pk({}))", name);
        let key = field("Check", field("PkK", Value::Text(name.to_string())));
        assert_eq!(descriptor_nodes_from_string(&text), Ok(field("Wsh", field("Ms", key))));
        let refused = parse_descriptor(&format!("{}#00000000", text));
        assert!(matches!(refused, Err(ReadError::Grammar(_))), "{:?}", refused);
    }
}

#[test]
fn a_refused_text_carries_the_cause() {
    let refused = miniscript_nodes_from_string("nonsense(1)", "segwit").unwrap_err();
    assert!(matches!(refused, ReadError::Grammar(_)));
    assert!(refused.message().starts_with("Unexpected("), "{}", refused.message());
    let refused = descriptor_nodes_from_string("wsh(wsh(pk(A)))").unwrap_err();
    assert!(matches!(refused, ReadError::DescriptorStructure(_)));
    assert!(refused.message().starts_with("Unexpected("), "{}", refused.message());
    let refused = miniscript_nodes_from_string(&format!("multi_a(1,{})", KEY_1), "legacy").unwrap_err();
    assert!(matches!(refused, ReadError::ContextViolation(_)));
    assert!(refused.message().starts_with("ContextError("), "{}", refused.message());
}
