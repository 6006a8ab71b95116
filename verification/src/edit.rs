//! Type-directed parsing of edited text, and the increment/decrement
//! shortcuts that cycle a value without entering edit mode.

use vstd::prelude::*;
use crate::node::{kind_of, ParamNode, ParamVal, RowKind};
use crate::rows::value_text;
use crate::corpus::LabelCorpus;
use crate::text::{
    all_dec_digits, dec_value, is_signed_dec, lemma_dec_round_trip,
    lemma_signed_dec_round_trip, parse_i64_in, parse_u64_bounded, signed_dec_value,
};

verus! {

/// The value denoted by edited text for a scalar of the given type:
/// type-width-exact, rejecting out-of-range or malformed text.  Hash
/// values go through the resolver instead, and float text is the
/// host's (so neither is parsed here), as is nothing composite.
pub open spec fn parse_scalar_spec(kind: RowKind, s: Seq<char>) -> Option<ParamVal> {
    match kind {
        RowKind::Bool => if s == "true"@ {
            Some(ParamVal::Bool(true))
        } else if s == "false"@ {
            Some(ParamVal::Bool(false))
        } else {
            None
        },
        RowKind::I8 => if is_signed_dec(s) && -128 <= signed_dec_value(s) <= 127 {
            Some(ParamVal::I8(signed_dec_value(s) as i8))
        } else {
            None
        },
        RowKind::U8 => if s.len() > 0 && all_dec_digits(s) && dec_value(s) <= 255 {
            Some(ParamVal::U8(dec_value(s) as u8))
        } else {
            None
        },
        RowKind::I16 => if is_signed_dec(s) && -32768 <= signed_dec_value(s) <= 32767 {
            Some(ParamVal::I16(signed_dec_value(s) as i16))
        } else {
            None
        },
        RowKind::U16 => if s.len() > 0 && all_dec_digits(s) && dec_value(s) <= 65535 {
            Some(ParamVal::U16(dec_value(s) as u16))
        } else {
            None
        },
        RowKind::I32 => if is_signed_dec(s) && -2147483648 <= signed_dec_value(s)
            <= 2147483647 {
            Some(ParamVal::I32(signed_dec_value(s) as i32))
        } else {
            None
        },
        RowKind::U32 => if s.len() > 0 && all_dec_digits(s) && dec_value(s) <= 4294967295 {
            Some(ParamVal::U32(dec_value(s) as u32))
        } else {
            None
        },
        RowKind::Str => Some(ParamVal::Str(s)),
        _ => None,
    }
}

/// Parses edited text for a scalar of the given type.
pub fn parse_scalar(kind: RowKind, buffer: &Vec<char>) -> (r: Option<ParamNode>)
    ensures
        match r {
            Some(n) => parse_scalar_spec(kind, buffer@) == Some(n@),
            None => parse_scalar_spec(kind, buffer@) is None,
        },
{
    match kind {
        RowKind::Bool => {
            if crate::text::chars_eq_str(buffer, "true") {
                Some(ParamNode::Bool(true))
            } else if crate::text::chars_eq_str(buffer, "false") {
                Some(ParamNode::Bool(false))
            } else {
                None
            }
        },
        RowKind::I8 => match parse_i64_in(buffer, -128, 127) {
            Some(v) => Some(ParamNode::I8(v as i8)),
            None => None,
        },
        RowKind::U8 => match parse_u64_bounded(buffer, 0, 255) {
            Some(v) => {
                proof {
                    assert(buffer@.skip(0) =~= buffer@);
                }
                Some(ParamNode::U8(v as u8))
            },
            None => {
                proof {
                    assert(buffer@.skip(0) =~= buffer@);
                }
                None
            },
        },
        RowKind::I16 => match parse_i64_in(buffer, -32768, 32767) {
            Some(v) => Some(ParamNode::I16(v as i16)),
            None => None,
        },
        RowKind::U16 => match parse_u64_bounded(buffer, 0, 65535) {
            Some(v) => {
                proof {
                    assert(buffer@.skip(0) =~= buffer@);
                }
                Some(ParamNode::U16(v as u16))
            },
            None => {
                proof {
                    assert(buffer@.skip(0) =~= buffer@);
                }
                None
            },
        },
        RowKind::I32 => match parse_i64_in(buffer, -2147483648, 2147483647) {
            Some(v) => Some(ParamNode::I32(v as i32)),
            None => None,
        },
        RowKind::U32 => match parse_u64_bounded(buffer, 0, 4294967295) {
            Some(v) => {
                proof {
                    assert(buffer@.skip(0) =~= buffer@);
                }
                Some(ParamNode::U32(v as u32))
            },
            None => {
                proof {
                    assert(buffer@.skip(0) =~= buffer@);
                }
                None
            },
        },
        RowKind::Str => Some(ParamNode::Str(crate::text::chars_to_string(buffer))),
        _ => None,
    }
}

/// Reading back the canonical text of any scalar that is parsed here
/// (booleans, the six integer widths, strings) gives the value again,
/// whatever the corpus.
pub proof fn lemma_scalar_round_trip(corpus: Option<LabelCorpus>, v: ParamVal)
    requires
        kind_of(v) is Bool || kind_of(v) is I8 || kind_of(v) is U8 || kind_of(v) is I16
            || kind_of(v) is U16 || kind_of(v) is I32 || kind_of(v) is U32
            || kind_of(v) is Str,
    ensures
        parse_scalar_spec(kind_of(v), value_text(corpus, v)) == Some(v),
{
    reveal_strlit("true");
    reveal_strlit("false");
    match v {
        ParamVal::Bool(b) => {
            if b {
                assert("true"@ != "false"@) by {
                    assert("true"@.len() == 4 && "false"@.len() == 5);
                }
            }
        },
        ParamVal::I8(x) => {
            lemma_signed_dec_round_trip(x as int);
        },
        ParamVal::U8(x) => {
            lemma_dec_round_trip(x as nat);
        },
        ParamVal::I16(x) => {
            lemma_signed_dec_round_trip(x as int);
        },
        ParamVal::U16(x) => {
            lemma_dec_round_trip(x as nat);
        },
        ParamVal::I32(x) => {
            lemma_signed_dec_round_trip(x as int);
        },
        ParamVal::U32(x) => {
            lemma_dec_round_trip(x as nat);
        },
        _ => {},
    }
}

/// The value one increment or decrement step away, wrapping at the
/// type's bounds.  Only booleans and the six integer widths cycle.
pub open spec fn cycle_spec(v: ParamVal, up: bool) -> Option<ParamVal> {
    match v {
        ParamVal::Bool(b) => Some(ParamVal::Bool(!b)),
        ParamVal::I8(x) => Some(ParamVal::I8(
            if up { if x == i8::MAX { i8::MIN } else { (x + 1) as i8 } }
            else { if x == i8::MIN { i8::MAX } else { (x - 1) as i8 } })),
        ParamVal::U8(x) => Some(ParamVal::U8(
            if up { if x == u8::MAX { 0u8 } else { (x + 1) as u8 } }
            else { if x == 0 { u8::MAX } else { (x - 1) as u8 } })),
        ParamVal::I16(x) => Some(ParamVal::I16(
            if up { if x == i16::MAX { i16::MIN } else { (x + 1) as i16 } }
            else { if x == i16::MIN { i16::MAX } else { (x - 1) as i16 } })),
        ParamVal::U16(x) => Some(ParamVal::U16(
            if up { if x == u16::MAX { 0u16 } else { (x + 1) as u16 } }
            else { if x == 0 { u16::MAX } else { (x - 1) as u16 } })),
        ParamVal::I32(x) => Some(ParamVal::I32(
            if up { if x == i32::MAX { i32::MIN } else { (x + 1) as i32 } }
            else { if x == i32::MIN { i32::MAX } else { (x - 1) as i32 } })),
        ParamVal::U32(x) => Some(ParamVal::U32(
            if up { if x == u32::MAX { 0u32 } else { (x + 1) as u32 } }
            else { if x == 0 { u32::MAX } else { (x - 1) as u32 } })),
        _ => None,
    }
}

/// One increment or decrement step, wrapping at the type's bounds.
pub fn cycle_value(node: &ParamNode, up: bool) -> (r: Option<ParamNode>)
    ensures
        match r {
            Some(n) => cycle_spec(node@, up) == Some(n@),
            None => cycle_spec(node@, up) is None,
        },
{
    match node {
        ParamNode::Bool(b) => Some(ParamNode::Bool(!*b)),
        ParamNode::I8(x) => Some(ParamNode::I8(
            if up { if *x == i8::MAX { i8::MIN } else { *x + 1 } }
            else { if *x == i8::MIN { i8::MAX } else { *x - 1 } })),
        ParamNode::U8(x) => Some(ParamNode::U8(
            if up { if *x == u8::MAX { 0 } else { *x + 1 } }
            else { if *x == 0 { u8::MAX } else { *x - 1 } })),
        ParamNode::I16(x) => Some(ParamNode::I16(
            if up { if *x == i16::MAX { i16::MIN } else { *x + 1 } }
            else { if *x == i16::MIN { i16::MAX } else { *x - 1 } })),
        ParamNode::U16(x) => Some(ParamNode::U16(
            if up { if *x == u16::MAX { 0 } else { *x + 1 } }
            else { if *x == 0 { u16::MAX } else { *x - 1 } })),
        ParamNode::I32(x) => Some(ParamNode::I32(
            if up { if *x == i32::MAX { i32::MIN } else { *x + 1 } }
            else { if *x == i32::MIN { i32::MAX } else { *x - 1 } })),
        ParamNode::U32(x) => Some(ParamNode::U32(
            if up { if *x == u32::MAX { 0 } else { *x + 1 } }
            else { if *x == 0 { u32::MAX } else { *x - 1 } })),
        _ => None,
    }
}

} // verus!
