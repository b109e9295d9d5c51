use anbennar_wiki::scalar::{to_i64, to_text, to_u64, ScalarDecodeFailure, ScalarKind};
use anbennar_wiki::tree::{parse_tree, write_nodes, Node, Operator, ParseError, Value};

fn scalar(v: &Value) -> &[u8] {
    match v {
        Value::Scalar(s) => s.as_slice(),
        _ => panic!("not a scalar"),
    }
}

#[test]
fn statements_keep_order_and_duplicates() {
    let nodes = parse_tree(b"a = 1\nb < 2 # note\na >= \"x y\"").unwrap();
    assert_eq!(nodes.len(), 3);
    assert_eq!(nodes[0].key, b"a".to_vec());
    assert_eq!(nodes[0].op, Operator::Equal);
    assert_eq!(scalar(&nodes[0].value), b"1");
    assert_eq!(nodes[1].op, Operator::LessThan);
    assert_eq!(nodes[2].key, b"a".to_vec());
    assert_eq!(nodes[2].op, Operator::GreaterThanEqual);
    assert_eq!(scalar(&nodes[2].value), b"x y");
}

#[test]
fn braces_hold_objects_or_arrays() {
    let nodes = parse_tree(b"color = { 10 20 30 } obj = { k = v } empty = { }").unwrap();
    match &nodes[0].value {
        Value::Array(ws) => assert_eq!(ws, &vec![b"10".to_vec(), b"20".to_vec(), b"30".to_vec()]),
        _ => panic!("expected an array"),
    }
    match &nodes[1].value {
        Value::Object(ns) => {
            assert_eq!(ns.len(), 1);
            assert_eq!(ns[0].key, b"k".to_vec());
        },
        _ => panic!("expected an object"),
    }
    match &nodes[2].value {
        Value::Object(ns) => assert!(ns.is_empty()),
        _ => panic!("expected an empty object"),
    }
}

#[test]
fn malformed_input_reports_offset() {
    assert_eq!(parse_tree(b"a = \"open").unwrap_err(), ParseError::MalformedSyntax { offset: 4 });
    assert_eq!(parse_tree(b"a = 1 }").unwrap_err(), ParseError::MalformedSyntax { offset: 6 });
    assert_eq!(parse_tree(b"a = { b = 1").unwrap_err(), ParseError::MalformedSyntax { offset: 11 });
    assert_eq!(parse_tree(b"a ! b").unwrap_err(), ParseError::MalformedSyntax { offset: 2 });
    assert_eq!(parse_tree(b"a b").unwrap_err(), ParseError::MalformedSyntax { offset: 0 });
}

#[test]
fn nesting_past_the_cap_is_rejected() {
    let mut deep = Vec::new();
    for _ in 0..70 {
        deep.extend_from_slice(b"a = { ");
    }
    deep.extend_from_slice(b"b = c");
    for _ in 0..70 {
        deep.extend_from_slice(b" }");
    }
    assert!(matches!(parse_tree(&deep), Err(ParseError::MalformedSyntax { .. })));
}

#[test]
fn written_triples_read_back_unchanged() {
    let nodes = vec![
        Node { key: b"tag".to_vec(), op: Operator::Equal, value: Value::Scalar(b"A01".to_vec()) },
        Node { key: b"tag".to_vec(), op: Operator::Equal, value: Value::Scalar(b"B02".to_vec()) },
        Node { key: b"level".to_vec(), op: Operator::GreaterThanEqual, value: Value::Scalar(b"3".to_vec()) },
        Node { key: b"x".to_vec(), op: Operator::NotEqual, value: Value::Scalar(b"-0.5".to_vec()) },
    ];
    let mut text = Vec::new();
    write_nodes(&mut text, &nodes);
    assert_eq!(text, b"tag = A01\ntag = B02\nlevel >= 3\nx != -0.5\n".to_vec());
    let back = parse_tree(&text).unwrap();
    assert_eq!(back.len(), nodes.len());
    for (a, b) in back.iter().zip(nodes.iter()) {
        assert_eq!(a.key, b.key);
        assert_eq!(a.op, b.op);
        assert_eq!(scalar(&a.value), scalar(&b.value));
    }
}

#[test]
fn scalars_decode_as_asked() {
    assert_eq!(to_u64(b"120"), Ok(120));
    assert_eq!(to_u64(b"+5"), Ok(5));
    assert_eq!(to_u64(b"-1"), Err(ScalarDecodeFailure::Expected(ScalarKind::Unsigned)));
    assert_eq!(to_u64(b"99999999999999999999"), Err(ScalarDecodeFailure::Expected(ScalarKind::Unsigned)));
    assert_eq!(to_i64(b"-50"), Ok(-50));
    assert_eq!(to_i64(b"1.5"), Err(ScalarDecodeFailure::Expected(ScalarKind::Signed)));
    assert_eq!(to_text(b"Common Sense"), "Common Sense");
    assert_eq!(to_text(b"\xe9t\xe9"), "\u{e9}t\u{e9}");
}

#[test]
fn empty_and_comment_only_input_read_as_nothing() {
    assert!(parse_tree(b"").unwrap().is_empty());
    assert!(parse_tree(b"  # only a comment\n\t\r\n").unwrap().is_empty());
}
