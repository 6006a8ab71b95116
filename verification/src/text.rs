//! Textual forms of the scalar values: decimal and hexadecimal digits,
//! bounded parsing, and the lemmas that make formatting and parsing
//! inverse to each other.

use vstd::prelude::*;

verus! {

// ---------------------------------------------------------------------
// Decimal digits
// ---------------------------------------------------------------------

/// Whether `c` is one of the characters `'0'` through `'9'`.
pub open spec fn is_dec_digit(c: char) -> bool {
    48 <= c as u32 <= 57
}

/// The numeric value of a decimal digit character.
pub open spec fn dec_digit_val(c: char) -> int {
    c as u32 - 48
}

/// The character for a decimal digit value in `0 .. 10`.
pub open spec fn dec_digit_char(d: int) -> char {
    ((48 + d) as u8) as char
}

pub open spec fn all_dec_digits(s: Seq<char>) -> bool {
    forall|i: int| 0 <= i < s.len() ==> is_dec_digit(#[trigger] s[i])
}

/// The number denoted by a sequence of decimal digits (most significant
/// first).
pub open spec fn dec_value(s: Seq<char>) -> int
    decreases s.len(),
{
    if s.len() == 0 {
        0
    } else {
        dec_value(s.drop_last()) * 10 + dec_digit_val(s.last())
    }
}

/// The canonical decimal form of `n`: no sign, no leading zeroes
/// (except for `0` itself).
pub open spec fn dec_digits(n: nat) -> Seq<char>
    decreases n,
{
    if n < 10 {
        seq![dec_digit_char(n as int)]
    } else {
        dec_digits(n / 10).push(dec_digit_char((n % 10) as int))
    }
}

/// A digit character decodes back to the digit it was made from.
pub broadcast proof fn lemma_dec_digit_char_val(d: int)
    requires
        0 <= d < 10,
    ensures
        is_dec_digit(#[trigger] dec_digit_char(d)),
        dec_digit_val(dec_digit_char(d)) == d,
{
    assert(((48 + d) as u8) as char as u32 == 48 + d);
}

pub broadcast proof fn lemma_dec_value_nonneg(s: Seq<char>)
    requires
        all_dec_digits(s),
    ensures
        #[trigger] dec_value(s) >= 0,
    decreases s.len(),
{
    if s.len() > 0 {
        assert(all_dec_digits(s.drop_last())) by {
            assert(forall|i: int|
                0 <= i < s.len() - 1 ==> s.drop_last()[i] == #[trigger] s[i]);
        }
        lemma_dec_value_nonneg(s.drop_last());
    }
}

/// Formatting then reading back a number is the identity.
pub proof fn lemma_dec_round_trip(n: nat)
    ensures
        all_dec_digits(dec_digits(n)),
        dec_digits(n).len() >= 1,
        dec_value(dec_digits(n)) == n,
    decreases n,
{
    if n < 10 {
        lemma_dec_digit_char_val(n as int);
        assert(dec_digits(n) =~= seq![dec_digit_char(n as int)]);
        assert(dec_digits(n).drop_last() =~= Seq::<char>::empty());
        assert(dec_digits(n).len() == 1);
        assert(dec_digits(n).last() == dec_digit_char(n as int));
        assert(dec_value(dec_digits(n)) == dec_value(dec_digits(n).drop_last()) * 10
            + dec_digit_val(dec_digits(n).last()));
        assert(dec_value(Seq::<char>::empty()) == 0);
        assert(dec_value(dec_digits(n)) == n);
    } else {
        lemma_dec_round_trip(n / 10);
        lemma_dec_digit_char_val((n % 10) as int);
        let prev = dec_digits(n / 10);
        let whole = prev.push(dec_digit_char((n % 10) as int));
        assert(whole.drop_last() =~= prev);
        assert(whole.last() == dec_digit_char((n % 10) as int));
        assert(dec_value(whole) == dec_value(prev) * 10 + (n % 10));
        vstd::arithmetic::div_mod::lemma_fundamental_div_mod(n as int, 10);
        assert(dec_value(prev) == n / 10);
        assert(dec_value(whole) == (n / 10) * 10 + (n % 10));
        assert(dec_value(dec_digits(n)) == n);
    }
}

/// A prefix of a digit string never denotes more than the whole string.
pub proof fn lemma_dec_value_prefix_le(s: Seq<char>, j: int)
    requires
        all_dec_digits(s),
        0 <= j <= s.len(),
    ensures
        dec_value(s.take(j)) <= dec_value(s),
    decreases s.len(),
{
    if j == s.len() {
        assert(s.take(j) =~= s);
    } else {
        let dl = s.drop_last();
        assert(all_dec_digits(dl)) by {
            assert(forall|i: int| 0 <= i < dl.len() ==> dl[i] == #[trigger] s[i]);
        }
        assert(s.take(j) =~= dl.take(j));
        lemma_dec_value_prefix_le(dl, j);
        lemma_dec_value_nonneg(dl);
        assert(dec_value(s) == dec_value(dl) * 10 + dec_digit_val(s.last()));
        assert(dec_value(dl) * 10 >= dec_value(dl)) by (nonlinear_arith)
            requires dec_value(dl) >= 0;
    }
}

/// The character for a digit value, as executable code.
pub fn dec_char_of(d: u8) -> (c: char)
    requires
        d < 10,
    ensures
        c == dec_digit_char(d as int),
{
    (48 + d) as char
}

/// The canonical decimal form of an unsigned number.
pub fn format_u64(n: u64) -> (r: Vec<char>)
    ensures
        r@ == dec_digits(n as nat),
    decreases n,
{
    if n < 10 {
        let mut v: Vec<char> = Vec::new();
        v.push(dec_char_of(n as u8));
        v
    } else {
        let mut v = format_u64(n / 10);
        v.push(dec_char_of((n % 10) as u8));
        v
    }
}

/// Reads the decimal digits of `s` from position `from` on as a number,
/// rejecting empty input, non-digits, and values above `max`.
pub fn parse_u64_bounded(s: &Vec<char>, from: usize, max: u64) -> (r: Option<u64>)
    requires
        from <= s@.len(),
    ensures
        match r {
            Some(v) => {
                let t = s@.skip(from as int);
                &&& t.len() > 0
                &&& all_dec_digits(t)
                &&& dec_value(t) == v
                &&& v <= max
            },
            None => {
                let t = s@.skip(from as int);
                ||| t.len() == 0
                ||| !all_dec_digits(t)
                ||| dec_value(t) > max
            },
        },
{
    let ghost t = s@.skip(from as int);
    let n = s.len();
    if from >= n {
        return None;
    }
    let mut acc: u64 = 0;
    let mut i: usize = from;
    proof {
        assert(t.take(0) =~= Seq::<char>::empty());
    }
    while i < n
        invariant
            from <= i <= n,
            n == s@.len(),
            t == s@.skip(from as int),
            all_dec_digits(t.take(i - from)),
            acc == dec_value(t.take(i - from)),
            acc <= max,
        decreases n - i,
    {
        let c = s[i];
        let code = c as u32;
        proof {
            assert(t[i - from] == s@[i as int]);
            assert(t.take(i + 1 - from) =~= t.take(i - from).push(c));
            assert(t.take(i + 1 - from).drop_last() =~= t.take(i - from));
        }
        if code < 48 || code > 57 {
            proof {
                assert(!is_dec_digit(t[i - from]));
            }
            return None;
        }
        let d = (code - 48) as u64;
        proof {
            vstd::arithmetic::div_mod::lemma_fundamental_div_mod(max as int, 10);
        }
        if acc > max / 10 || (acc == max / 10 && d > max % 10) {
            proof {
                assert(dec_value(t.take(i + 1 - from)) == acc * 10 + d);
                assert(acc * 10 + d > max) by (nonlinear_arith)
                    requires
                        acc * 10 + d == dec_value(t.take(i + 1 - from)),
                        max == (max / 10) * 10 + (max % 10),
                        0 <= max % 10,
                        acc >= 0,
                        d >= 0,
                        acc > max / 10 || (acc == max / 10 && d > max % 10),
                ;
                if all_dec_digits(t) {
                    lemma_dec_value_prefix_le(t, i + 1 - from);
                }
            }
            return None;
        }
        proof {
            assert(acc * 10 + d <= max) by (nonlinear_arith)
                requires
                    max == (max / 10) * 10 + (max % 10),
                    0 <= d <= 9,
                    0 <= max % 10 <= 9,
                    acc >= 0,
                    acc < max / 10 || (acc == max / 10 && d <= max % 10),
            ;
        }
        acc = acc * 10 + d;
        i = i + 1;
    }
    proof {
        assert(t.take(n - from) =~= t);
    }
    Some(acc)
}

} // verus!

verus! {

// ---------------------------------------------------------------------
// Signed decimal numbers
// ---------------------------------------------------------------------

/// Whether `s` is a well-formed signed decimal number: digits with an
/// optional leading minus sign.
pub open spec fn is_signed_dec(s: Seq<char>) -> bool {
    if s.len() > 0 && s[0] == '-' {
        s.len() > 1 && all_dec_digits(s.skip(1))
    } else {
        s.len() > 0 && all_dec_digits(s)
    }
}

/// The number denoted by a signed decimal string.
pub open spec fn signed_dec_value(s: Seq<char>) -> int {
    if s.len() > 0 && s[0] == '-' {
        -dec_value(s.skip(1))
    } else {
        dec_value(s)
    }
}

/// The canonical decimal form of `n`, with a minus sign when negative.
pub open spec fn signed_dec_digits(n: int) -> Seq<char> {
    if n < 0 {
        seq!['-'] + dec_digits((-n) as nat)
    } else {
        dec_digits(n as nat)
    }
}

pub proof fn lemma_signed_dec_round_trip(n: int)
    ensures
        is_signed_dec(signed_dec_digits(n)),
        signed_dec_value(signed_dec_digits(n)) == n,
{
    if n < 0 {
        lemma_dec_round_trip((-n) as nat);
        let s = seq!['-'] + dec_digits((-n) as nat);
        assert(s.skip(1) =~= dec_digits((-n) as nat));
        assert(s[0] == '-');
    } else {
        lemma_dec_round_trip(n as nat);
        let s = dec_digits(n as nat);
        assert(is_dec_digit(s[0]));
        assert(s[0] as u32 != 45);
        assert('-' as u32 == 45);
        assert(s[0] != '-');
    }
}

/// The canonical decimal form of a signed number.
pub fn format_i64(n: i64) -> (r: Vec<char>)
    requires
        n > i64::MIN,
    ensures
        r@ == signed_dec_digits(n as int),
{
    if n < 0 {
        let mut v: Vec<char> = Vec::new();
        v.push('-');
        let mut digits = format_u64((-n) as u64);
        v.append(&mut digits);
        proof {
            assert(v@ =~= seq!['-'] + dec_digits((-n) as nat));
        }
        v
    } else {
        format_u64(n as u64)
    }
}

/// Reads a signed decimal string, rejecting anything malformed or
/// outside `min ..= max`.
pub fn parse_i64_in(s: &Vec<char>, min: i64, max: i64) -> (r: Option<i64>)
    requires
        min <= 0 <= max,
        min > i64::MIN,
    ensures
        match r {
            Some(v) => is_signed_dec(s@) && signed_dec_value(s@) == v && min <= v && v <= max,
            None => !is_signed_dec(s@) || signed_dec_value(s@) < min || signed_dec_value(s@) > max,
        },
{
    if s.len() > 0 && s[0] == '-' {
        let bound = (-min) as u64;
        match parse_u64_bounded(s, 1, bound) {
            Some(m) => {
                proof {
                    lemma_dec_value_nonneg(s@.skip(1));
                }
                Some(-(m as i64))
            },
            None => None,
        }
    } else {
        match parse_u64_bounded(s, 0, max as u64) {
            Some(m) => {
                proof {
                    assert(s@.skip(0) =~= s@);
                }
                Some(m as i64)
            },
            None => {
                proof {
                    assert(s@.skip(0) =~= s@);
                }
                None
            },
        }
    }
}

} // verus!
verus! {

// ---------------------------------------------------------------------
// Hexadecimal digits (for 40-bit hash literals)
// ---------------------------------------------------------------------

/// Whether `c` is a hexadecimal digit, either case.
pub open spec fn is_hex_digit(c: char) -> bool {
    ||| 48 <= c as u32 <= 57
    ||| 97 <= c as u32 <= 102
    ||| 65 <= c as u32 <= 70
}

/// The numeric value of a hexadecimal digit character.
pub open spec fn hex_digit_val(c: char) -> int {
    if 48 <= c as u32 <= 57 {
        c as u32 - 48
    } else if 97 <= c as u32 <= 102 {
        c as u32 - 87
    } else {
        c as u32 - 55
    }
}

/// The lowercase character for a hexadecimal digit value in `0 .. 16`.
pub open spec fn hex_digit_char(d: int) -> char {
    if d < 10 {
        ((48 + d) as u8) as char
    } else {
        ((87 + d) as u8) as char
    }
}

pub open spec fn all_hex_digits(s: Seq<char>) -> bool {
    forall|i: int| 0 <= i < s.len() ==> is_hex_digit(#[trigger] s[i])
}

/// The number denoted by a sequence of hexadecimal digits.
pub open spec fn hex_value(s: Seq<char>) -> int
    decreases s.len(),
{
    if s.len() == 0 {
        0
    } else {
        hex_value(s.drop_last()) * 16 + hex_digit_val(s.last())
    }
}

/// `16 ^ w`.
pub open spec fn pow16(w: nat) -> nat
    decreases w,
{
    if w == 0 {
        1
    } else {
        16 * pow16((w - 1) as nat)
    }
}

/// The fixed-width lowercase hexadecimal form of `n`, `w` digits with
/// leading zeroes.
pub open spec fn hex_fixed(n: nat, w: nat) -> Seq<char>
    decreases w,
{
    if w == 0 {
        Seq::empty()
    } else {
        hex_fixed(n / 16, (w - 1) as nat).push(hex_digit_char((n % 16) as int))
    }
}

pub broadcast proof fn lemma_hex_digit_char_val(d: int)
    requires
        0 <= d < 16,
    ensures
        is_hex_digit(#[trigger] hex_digit_char(d)),
        hex_digit_val(hex_digit_char(d)) == d,
{
    if d < 10 {
        assert(((48 + d) as u8) as char as u32 == 48 + d);
    } else {
        assert(((87 + d) as u8) as char as u32 == 87 + d);
    }
}

pub broadcast proof fn lemma_hex_value_nonneg(s: Seq<char>)
    requires
        all_hex_digits(s),
    ensures
        #[trigger] hex_value(s) >= 0,
    decreases s.len(),
{
    if s.len() > 0 {
        assert(all_hex_digits(s.drop_last())) by {
            assert(forall|i: int|
                0 <= i < s.len() - 1 ==> s.drop_last()[i] == #[trigger] s[i]);
        }
        lemma_hex_value_nonneg(s.drop_last());
    }
}

/// A string of hexadecimal digits denotes less than `16 ^ length`.
pub proof fn lemma_hex_value_bound(s: Seq<char>)
    requires
        all_hex_digits(s),
    ensures
        0 <= hex_value(s) < pow16(s.len()),
    decreases s.len(),
{
    if s.len() == 0 {
    } else {
        let dl = s.drop_last();
        assert(all_hex_digits(dl)) by {
            assert(forall|i: int| 0 <= i < dl.len() ==> dl[i] == #[trigger] s[i]);
        }
        lemma_hex_value_bound(dl);
        assert(is_hex_digit(s.last()));
        assert(0 <= hex_digit_val(s.last()) < 16);
        assert(hex_value(dl) * 16 + hex_digit_val(s.last()) < pow16(dl.len()) * 16)
            by (nonlinear_arith)
            requires
                0 <= hex_value(dl) < pow16(dl.len()),
                0 <= hex_digit_val(s.last()) < 16,
        ;
        assert(pow16(s.len()) == 16 * pow16(dl.len()));
    }
}

/// Fixed-width formatting then reading back is the identity.
pub proof fn lemma_hex_round_trip(n: nat, w: nat)
    requires
        n < pow16(w),
    ensures
        all_hex_digits(hex_fixed(n, w)),
        hex_fixed(n, w).len() == w,
        hex_value(hex_fixed(n, w)) == n,
    decreases w,
{
    if w == 0 {
    } else {
        vstd::arithmetic::div_mod::lemma_fundamental_div_mod(n as int, 16);
        assert(n / 16 < pow16((w - 1) as nat)) by (nonlinear_arith)
            requires
                n < pow16(w),
                pow16(w) == 16 * pow16((w - 1) as nat),
                n >= 0,
                n / 16 == (n - n % 16) / 16,
                0 <= n % 16 < 16,
                n == (n / 16) * 16 + n % 16,
        ;
        lemma_hex_round_trip(n / 16, (w - 1) as nat);
        lemma_hex_digit_char_val((n % 16) as int);
        let prev = hex_fixed(n / 16, (w - 1) as nat);
        let whole = prev.push(hex_digit_char((n % 16) as int));
        assert(whole.drop_last() =~= prev);
        assert(hex_value(whole) == hex_value(prev) * 16 + (n % 16));
    }
}

/// The lowercase character for a hexadecimal digit value.
pub fn hex_char_of(d: u8) -> (c: char)
    requires
        d < 16,
    ensures
        c == hex_digit_char(d as int),
{
    if d < 10 {
        (48 + d) as char
    } else {
        (87 + d) as char
    }
}

/// The fixed-width lowercase hexadecimal form of `n`.
pub fn format_hex_fixed(n: u64, w: usize) -> (r: Vec<char>)
    ensures
        r@ == hex_fixed(n as nat, w as nat),
    decreases w,
{
    if w == 0 {
        Vec::new()
    } else {
        let mut v = format_hex_fixed(n / 16, w - 1);
        v.push(hex_char_of((n % 16) as u8));
        v
    }
}

/// Reads up to 10 hexadecimal digits of `s` from position `from` on.
/// Rejects empty input, non-hex characters, and more than 10 digits,
/// so the result always fits in 40 bits.
pub fn parse_hex40(s: &Vec<char>, from: usize) -> (r: Option<u64>)
    requires
        from <= s@.len(),
    ensures
        match r {
            Some(v) => {
                let t = s@.skip(from as int);
                &&& 1 <= t.len() <= 10
                &&& all_hex_digits(t)
                &&& hex_value(t) == v
                &&& v < 0x100_0000_0000
            },
            None => {
                let t = s@.skip(from as int);
                ||| t.len() == 0
                ||| t.len() > 10
                ||| !all_hex_digits(t)
            },
        },
{
    let ghost t = s@.skip(from as int);
    let n = s.len();
    if from >= n || n - from > 10 {
        return None;
    }
    let mut acc: u64 = 0;
    let mut i: usize = from;
    proof {
        assert(t.take(0) =~= Seq::<char>::empty());
    }
    while i < n
        invariant
            from <= i <= n,
            n == s@.len(),
            n - from <= 10,
            t == s@.skip(from as int),
            all_hex_digits(t.take(i - from)),
            acc == hex_value(t.take(i - from)),
            acc < 0x100_0000_0000,
        decreases n - i,
    {
        let c = s[i];
        let code = c as u32;
        proof {
            assert(t[i - from] == s@[i as int]);
            assert(t.take(i + 1 - from) =~= t.take(i - from).push(c));
            assert(t.take(i + 1 - from).drop_last() =~= t.take(i - from));
        }
        let d: u64 = if 48 <= code && code <= 57 {
            (code - 48) as u64
        } else if 97 <= code && code <= 102 {
            (code - 87) as u64
        } else if 65 <= code && code <= 70 {
            (code - 55) as u64
        } else {
            proof {
                assert(!is_hex_digit(t[i - from]));
            }
            return None;
        };
        proof {
            let taken = t.take(i - from);
            lemma_hex_value_bound(taken);
            reveal_with_fuel(pow16, 11);
            assert(pow16(9) == 0x10_0000_0000);
            lemma_pow16_le(taken.len(), 9);
            assert(hex_value(taken) * 16 + d < 0x100_0000_0000) by (nonlinear_arith)
                requires
                    0 <= hex_value(taken) < pow16(9),
                    pow16(9) == 0x10_0000_0000,
                    0 <= d < 16,
            ;
        }
        acc = acc * 16 + d;
        i = i + 1;
    }
    proof {
        assert(t.take(n - from) =~= t);
    }
    Some(acc)
}

/// `pow16` is positive and monotone in the exponent.
pub proof fn lemma_pow16_pos(a: nat)
    ensures
        pow16(a) >= 1,
    decreases a,
{
    if a > 0 {
        lemma_pow16_pos((a - 1) as nat);
    }
}

pub proof fn lemma_pow16_le(a: nat, b: nat)
    requires
        a <= b,
    ensures
        1 <= pow16(a) <= pow16(b),
    decreases b,
{
    lemma_pow16_pos(a);
    if a < b {
        lemma_pow16_le(a, (b - 1) as nat);
        assert(pow16(b) == 16 * pow16((b - 1) as nat));
    }
}

} // verus!
verus! {

// ---------------------------------------------------------------------
// Prefixes, lexicographic order, and conversion to `String`
// ---------------------------------------------------------------------

/// Whether `p` is a prefix of `s`.
pub open spec fn has_prefix(s: Seq<char>, p: Seq<char>) -> bool {
    p.len() <= s.len() && s.take(p.len() as int) == p
}

/// Lexicographic order on character sequences, by code point.
pub open spec fn lex_le(a: Seq<char>, b: Seq<char>) -> bool
    decreases a.len(),
{
    if a.len() == 0 {
        true
    } else if b.len() == 0 {
        false
    } else if (a[0] as u32) < (b[0] as u32) {
        true
    } else if (a[0] as u32) > (b[0] as u32) {
        false
    } else {
        lex_le(a.skip(1), b.skip(1))
    }
}

/// Whether the characters of `s`, starting at `from`, form a prefix of
/// the string `l`.
pub fn chars_prefix_of_str(s: &Vec<char>, from: usize, l: &str) -> (r: bool)
    requires
        from <= s@.len(),
    ensures
        r == has_prefix(l@, s@.skip(from as int)),
{
    let ghost p = s@.skip(from as int);
    let n = s.len();
    let ll = l.unicode_len();
    if n - from > ll {
        proof {
            assert(p.len() > l@.len());
        }
        return false;
    }
    let mut i: usize = from;
    while i < n
        invariant
            from <= i <= n,
            n == s@.len(),
            p == s@.skip(from as int),
            n - from <= ll,
            ll == l@.len(),
            forall|j: int| 0 <= j < i - from ==> l@[j] == #[trigger] p[j],
        decreases n - i,
    {
        let c = s[i];
        let lc = l.get_char(i - from);
        if c as u32 != lc as u32 {
            proof {
                assert(p[i - from] == s@[i as int]);
                assert(c as u32 != lc as u32 ==> c != lc);
                assert(l@.take(p.len() as int)[i - from] == l@[i - from]);
            }
            return false;
        }
        proof {
            assert(p[i - from] == s@[i as int]);
            assert(c as u32 == lc as u32);
            vstd::utf8::char_u32_cast(c, c as u32);
            vstd::utf8::char_u32_cast(lc, lc as u32);
        }
        i = i + 1;
    }
    proof {
        assert(l@.take(p.len() as int) =~= p);
    }
    true
}

/// The characters of a string, in order.
pub fn string_to_chars(s: &str) -> (r: Vec<char>)
    ensures
        r@ == s@,
{
    let n = s.unicode_len();
    let mut v: Vec<char> = Vec::new();
    let mut i: usize = 0;
    while i < n
        invariant
            0 <= i <= n,
            n == s@.len(),
            v@ == s@.take(i as int),
        decreases n - i,
    {
        let c = s.get_char(i);
        v.push(c);
        proof {
            assert(s@.take(i + 1) =~= s@.take(i as int).push(c));
        }
        i = i + 1;
    }
    proof {
        assert(s@.take(n as int) =~= s@);
    }
    v
}

/// Relies on `core::iter::Iterator::collect` via `String::from_iter`:
/// collecting characters into a `String` concatenates exactly those
/// characters in order.
#[verifier::external_body]
pub fn chars_to_string(v: &Vec<char>) -> (s: String)
    ensures
        s@ == v@,
{
    v.iter().collect()
}

} // verus!
verus! {

/// Strict lexicographic order.
pub open spec fn lex_lt(a: Seq<char>, b: Seq<char>) -> bool {
    lex_le(a, b) && a != b
}

/// `lex_le` is total.
pub proof fn lemma_lex_total(a: Seq<char>, b: Seq<char>)
    ensures
        lex_le(a, b) || lex_le(b, a),
    decreases a.len(),
{
    if a.len() == 0 || b.len() == 0 {
    } else if (a[0] as u32) == (b[0] as u32) {
        lemma_lex_total(a.skip(1), b.skip(1));
    }
}

/// `lex_le` both ways means equality.
pub proof fn lemma_lex_antisym(a: Seq<char>, b: Seq<char>)
    requires
        lex_le(a, b),
        lex_le(b, a),
    ensures
        a == b,
    decreases a.len(),
{
    if a.len() == 0 {
        assert(b.len() == 0);
        assert(a =~= b);
    } else {
        assert(b.len() > 0);
        vstd::utf8::char_u32_cast(a[0], a[0] as u32);
        vstd::utf8::char_u32_cast(b[0], b[0] as u32);
        lemma_lex_antisym(a.skip(1), b.skip(1));
        assert(a[0] == b[0]);
        assert(a.len() == b.len());
        assert forall|i: int| 0 <= i < a.len() implies a[i] == b[i] by {
            if i >= 1 {
                assert(a[i] == a.skip(1)[i - 1]);
                assert(b[i] == b.skip(1)[i - 1]);
            }
        }
        assert(a =~= b);
    }
}

/// `lex_le` is transitive.
pub proof fn lemma_lex_trans(a: Seq<char>, b: Seq<char>, c: Seq<char>)
    requires
        lex_le(a, b),
        lex_le(b, c),
    ensures
        lex_le(a, c),
    decreases a.len(),
{
    if a.len() == 0 || b.len() == 0 || c.len() == 0 {
    } else if (a[0] as u32) == (b[0] as u32) && (b[0] as u32) == (c[0] as u32) {
        lemma_lex_trans(a.skip(1), b.skip(1), c.skip(1));
    }
}

/// `lex_le` agrees with skipping a common prefix.
pub proof fn lemma_lex_le_common(a: Seq<char>, b: Seq<char>, i: int)
    requires
        0 <= i <= a.len(),
        i <= b.len(),
        forall|j: int| 0 <= j < i ==> a[j] == #[trigger] b[j],
    ensures
        lex_le(a, b) == lex_le(a.skip(i), b.skip(i)),
    decreases i,
{
    if i == 0 {
        assert(a.skip(0) =~= a);
        assert(b.skip(0) =~= b);
    } else {
        assert(a.len() > 0 && b.len() > 0 && a[0] == b[0]);
        let a1 = a.skip(1);
        let b1 = b.skip(1);
        assert(forall|j: int| 0 <= j < i - 1 ==> a1[j] == #[trigger] b1[j]);
        lemma_lex_le_common(a1, b1, i - 1);
        assert(a1.skip(i - 1) =~= a.skip(i));
        assert(b1.skip(i - 1) =~= b.skip(i));
    }
}

/// Lexicographic comparison of two strings.
pub fn str_lex_le(a: &str, b: &str) -> (r: bool)
    ensures
        r == lex_le(a@, b@),
{
    let an = a.unicode_len();
    let bn = b.unicode_len();
    let min = if an < bn { an } else { bn };
    let mut i: usize = 0;
    while i < min
        invariant
            0 <= i <= min,
            an == a@.len(),
            bn == b@.len(),
            min == if an < bn { an } else { bn },
            forall|j: int| 0 <= j < i ==> a@[j] == #[trigger] b@[j],
        decreases min - i,
    {
        let ac = a.get_char(i);
        let bc = b.get_char(i);
        if (ac as u32) < (bc as u32) {
            proof {
                lemma_lex_le_common(a@, b@, i as int);
                assert(a@.skip(i as int)[0] == ac);
                assert(b@.skip(i as int)[0] == bc);
            }
            return true;
        }
        if (ac as u32) > (bc as u32) {
            proof {
                lemma_lex_le_common(a@, b@, i as int);
                assert(a@.skip(i as int)[0] == ac);
                assert(b@.skip(i as int)[0] == bc);
            }
            return false;
        }
        proof {
            vstd::utf8::char_u32_cast(ac, ac as u32);
            vstd::utf8::char_u32_cast(bc, bc as u32);
        }
        i = i + 1;
    }
    proof {
        lemma_lex_le_common(a@, b@, min as int);
        if an <= bn {
            assert(a@.skip(min as int).len() == 0);
        } else {
            assert(a@.skip(min as int).len() > 0);
            assert(b@.skip(min as int).len() == 0);
        }
    }
    an <= bn
}

/// Whether the characters of `s` equal the string `l`.
pub fn chars_eq_str(s: &Vec<char>, l: &str) -> (r: bool)
    ensures
        r == (s@ == l@),
{
    let n = s.len();
    if n != l.unicode_len() {
        return false;
    }
    let mut i: usize = 0;
    while i < n
        invariant
            0 <= i <= n,
            n == s@.len() == l@.len(),
            forall|j: int| 0 <= j < i ==> s@[j] == #[trigger] l@[j],
        decreases n - i,
    {
        let c = s[i];
        let lc = l.get_char(i);
        if c as u32 != lc as u32 {
            proof {
                assert(c != lc);
            }
            return false;
        }
        proof {
            vstd::utf8::char_u32_cast(c, c as u32);
            vstd::utf8::char_u32_cast(lc, lc as u32);
        }
        i = i + 1;
    }
    proof {
        assert(s@ =~= l@);
    }
    true
}

} // verus!
