use prickly::edit::{cycle_value, parse_scalar};
use prickly::node::{node_eq, ParamNode, RowKind};
use prickly::text::{format_i64, format_u64, parse_i64_in, parse_u64_bounded};
use prickly::util::{add_mod, compliment, sub_mod};

fn chars(s: &str) -> Vec<char> {
    s.chars().collect()
}

fn text(v: &Vec<char>) -> String {
    v.iter().collect()
}

#[test]
fn format_unsigned_values() {
    assert_eq!(text(&format_u64(0)), "0");
    assert_eq!(text(&format_u64(10)), "10");
    assert_eq!(text(&format_u64(4294967295)), "4294967295");
}

#[test]
fn format_signed_values() {
    assert_eq!(text(&format_i64(-128)), "-128");
    assert_eq!(text(&format_i64(0)), "0");
    assert_eq!(text(&format_i64(32767)), "32767");
}

#[test]
fn parse_unsigned_round_trip() {
    for v in [0u64, 1, 9, 10, 255, 65535, 4294967295] {
        assert_eq!(parse_u64_bounded(&format_u64(v), 0, u64::MAX), Some(v));
    }
}

#[test]
fn parse_unsigned_rejects() {
    assert_eq!(parse_u64_bounded(&chars(""), 0, 255), None);
    assert_eq!(parse_u64_bounded(&chars("12x"), 0, 255), None);
    assert_eq!(parse_u64_bounded(&chars("256"), 0, 255), None);
    assert_eq!(parse_u64_bounded(&chars("999999999999999999999"), 0, u64::MAX), None);
}

#[test]
fn parse_signed_round_trip() {
    for v in [-2147483648i64, -128, -1, 0, 1, 127, 2147483647] {
        assert_eq!(parse_i64_in(&format_i64(v), i64::MIN + 1, i64::MAX), Some(v));
    }
}

#[test]
fn parse_signed_rejects() {
    assert_eq!(parse_i64_in(&chars("-"), -128, 127), None);
    assert_eq!(parse_i64_in(&chars("128"), -128, 127), None);
    assert_eq!(parse_i64_in(&chars("-129"), -128, 127), None);
}

#[test]
fn scalar_round_trip_every_width() {
    // parse(format(value)) == value for each terminal scalar type
    let cases = vec![
        (RowKind::Bool, "true", ParamNode::Bool(true)),
        (RowKind::Bool, "false", ParamNode::Bool(false)),
        (RowKind::I8, "-128", ParamNode::I8(-128)),
        (RowKind::U8, "255", ParamNode::U8(255)),
        (RowKind::I16, "-32768", ParamNode::I16(-32768)),
        (RowKind::U16, "65535", ParamNode::U16(65535)),
        (RowKind::I32, "-2147483648", ParamNode::I32(-2147483648)),
        (RowKind::U32, "4294967295", ParamNode::U32(4294967295)),
        (RowKind::Str, "hello", ParamNode::Str(String::from("hello"))),
    ];
    for (kind, textual, expected) in cases {
        let parsed = parse_scalar(kind, &chars(textual)).expect(textual);
        assert!(node_eq(&parsed, &expected));
    }
}

#[test]
fn scalar_parse_is_width_exact() {
    assert!(parse_scalar(RowKind::I8, &chars("128")).is_none());
    assert!(parse_scalar(RowKind::U8, &chars("-1")).is_none());
    assert!(parse_scalar(RowKind::U32, &chars("4294967296")).is_none());
    assert!(parse_scalar(RowKind::Bool, &chars("True")).is_none());
    assert!(parse_scalar(RowKind::Float, &chars("1.5")).is_none());
}

#[test]
fn hash_literal_round_trip() {
    let h = prickly::hash::format_hash(0x0aa3cb8810);
    assert_eq!(text(&h), "0x0aa3cb8810");
    assert_eq!(prickly::hash::parse_hash(&h), Some(0x0aa3cb8810));
}

#[test]
fn hash_literal_exact_text() {
    assert_eq!(text(&prickly::hash::format_hash(0xff)), "0x00000000ff");
    assert_eq!(text(&prickly::hash::format_hash(0)), "0x0000000000");
}

#[test]
fn hash_parse_rejects_malformed() {
    assert_eq!(prickly::hash::parse_hash(&chars("0x")), None);
    assert_eq!(prickly::hash::parse_hash(&chars("0xzz")), None);
    assert_eq!(prickly::hash::parse_hash(&chars("12ab")), None);
    assert_eq!(prickly::hash::parse_hash(&chars("0x12345678901")), None);
    assert_eq!(prickly::hash::parse_hash(&chars("0xAB")), Some(0xab));
}

#[test]
fn cycle_wraps_at_bounds() {
    let up = |n: &ParamNode| cycle_value(n, true).unwrap();
    let down = |n: &ParamNode| cycle_value(n, false).unwrap();
    assert!(node_eq(&up(&ParamNode::Bool(true)), &ParamNode::Bool(false)));
    assert!(node_eq(&up(&ParamNode::U8(255)), &ParamNode::U8(0)));
    assert!(node_eq(&down(&ParamNode::U8(0)), &ParamNode::U8(255)));
    assert!(node_eq(&up(&ParamNode::I8(127)), &ParamNode::I8(-128)));
    assert!(node_eq(&down(&ParamNode::I8(-128)), &ParamNode::I8(127)));
    assert!(cycle_value(&ParamNode::Str(String::new()), true).is_none());
    assert!(cycle_value(&ParamNode::Float(0), true).is_none());
}

#[test]
fn modular_arithmetic() {
    assert_eq!(add_mod(5, 1, 6), 0);
    assert_eq!(add_mod(2, 3, 6), 5);
    assert_eq!(add_mod(usize::MAX - 1, usize::MAX - 2, usize::MAX), usize::MAX - 3);
    assert_eq!(sub_mod(0, 1, 6), 5);
    assert_eq!(sub_mod(4, 2, 6), 2);
    assert_eq!(compliment(2, 6), 4);
    assert_eq!(compliment(0, 6), 0);
}
