//! Canonical JSON primitives.
//!
//! The store keeps nested configuration objects as JSON text inside single
//! database columns.  Writing always produces one canonical form (fixed
//! field order, compact separators, a fixed escaping scheme); reading
//! accepts exactly that canonical form and treats everything else as
//! malformed, which the callers replace by documented defaults.
//!
//! Every parser here comes with two proved directions: what it accepts
//! re-encodes to the consumed input (soundness), and every canonical
//! encoding is accepted (completeness).  The round-trip laws for the
//! embedded sub-objects rest on these.

use vstd::prelude::*;
use vstd::string::*;
use vstd::arithmetic::div_mod::{lemma_fundamental_div_mod_converse, lemma_fundamental_div_mod};

verus! {

// ---------------------------------------------------------------------------
// Characters
// ---------------------------------------------------------------------------

/// Decimal digit.
pub open spec fn is_digit(c: char) -> bool {
    48 <= (c as u32) <= 57
}

/// Lower-case hexadecimal digit (the only form the encoder emits).
pub open spec fn is_hex(c: char) -> bool {
    is_digit(c) || (97 <= (c as u32) <= 102)
}

/// Numeric value of a decimal digit character.
pub open spec fn digit_val(c: char) -> int {
    (c as u32) - 48
}

/// Numeric value of a lower-case hexadecimal digit character.
pub open spec fn hex_val(c: char) -> int {
    if is_digit(c) {
        (c as u32) - 48
    } else {
        (c as u32) - 87
    }
}

/// The decimal digit character for `d` in `0..10`.
pub open spec fn digit_char(d: int) -> char {
    ((48 + d) as u32) as char
}

/// The lower-case hexadecimal digit character for `d` in `0..16`.
pub open spec fn hex_char(d: int) -> char {
    if d < 10 {
        ((48 + d) as u32) as char
    } else {
        ((87 + d) as u32) as char
    }
}

proof fn lemma_digit_char_val(d: int)
    requires
        0 <= d < 10,
    ensures
        is_digit(digit_char(d)),
        digit_val(digit_char(d)) == d,
{
    let u: u32 = (48 + d) as u32;
    assert((u as char) as u32 == u);
}

proof fn lemma_digit_val_char(c: char)
    requires
        is_digit(c),
    ensures
        0 <= digit_val(c) < 10,
        digit_char(digit_val(c)) == c,
{
    let u: u32 = c as u32;
    assert(((u as u32) as char) == c) by {
        vstd::utf8::char_u32_cast(c, u);
    }
}

proof fn lemma_hex_char_val(d: int)
    requires
        0 <= d < 16,
    ensures
        is_hex(hex_char(d)),
        hex_val(hex_char(d)) == d,
{
    if d < 10 {
        let u: u32 = (48 + d) as u32;
        assert((u as char) as u32 == u);
    } else {
        let u: u32 = (87 + d) as u32;
        assert((u as char) as u32 == u);
    }
}

proof fn lemma_hex_val_char(c: char)
    requires
        is_hex(c),
    ensures
        0 <= hex_val(c) < 16,
        hex_char(hex_val(c)) == c,
{
    let u: u32 = c as u32;
    assert(((u as u32) as char) == c) by {
        vstd::utf8::char_u32_cast(c, u);
    }
}

/// A code below 32 cast to `char` and back is itself.
proof fn lemma_low_code_char(u: u32)
    requires
        u < 32,
    ensures
        ((u as char) as u32) == u,
{
    assert(((u as char) as u32) == u);
}

// ---------------------------------------------------------------------------
// String escaping
// ---------------------------------------------------------------------------

/// Control characters with no short escape of their own; only these are
/// written in the `\u00xy` form.
pub open spec fn needs_hex_escape(v: int) -> bool {
    0 <= v < 32 && v != 8 && v != 9 && v != 10 && v != 12 && v != 13
}

/// Canonical escape of one character: `"` and `\` get a backslash escape,
/// backspace, tab, newline, form feed and carriage return get their short
/// escapes, other control characters become `\u00xy` with lower-case hex,
/// and everything else stands for itself.
pub open spec fn esc_char(c: char) -> Seq<char> {
    if c == '"' {
        seq!['\\', '"']
    } else if c == '\\' {
        seq!['\\', '\\']
    } else if c == '\u{08}' {
        seq!['\\', 'b']
    } else if c == '\u{09}' {
        seq!['\\', 't']
    } else if c == '\u{0a}' {
        seq!['\\', 'n']
    } else if c == '\u{0c}' {
        seq!['\\', 'f']
    } else if c == '\u{0d}' {
        seq!['\\', 'r']
    } else if (c as u32) < 32 {
        seq!['\\', 'u', '0', '0', hex_char(((c as u32) as int) / 16), hex_char(((c as u32) as int) % 16)]
    } else {
        seq![c]
    }
}

/// The character a short escape stands for, or `None` if `e` is not a
/// short-escape letter.
pub open spec fn short_unescape(e: char) -> Option<char> {
    if e == 'b' {
        Some('\u{08}')
    } else if e == 't' {
        Some('\u{09}')
    } else if e == 'n' {
        Some('\u{0a}')
    } else if e == 'f' {
        Some('\u{0c}')
    } else if e == 'r' {
        Some('\u{0d}')
    } else {
        None
    }
}

/// Canonical escape of a whole string.
pub open spec fn esc_seq(s: Seq<char>) -> Seq<char>
    decreases s.len(),
{
    if s.len() == 0 {
        Seq::empty()
    } else {
        esc_char(s[0]) + esc_seq(s.skip(1))
    }
}

/// A JSON string literal: quote, escaped body, quote.
pub open spec fn enc_string(s: Seq<char>) -> Seq<char> {
    seq!['"'] + esc_seq(s) + seq!['"']
}

/// Parses the body of a string literal after the opening quote, up to and
/// including the closing quote; yields the unescaped value and the rest.
pub open spec fn parse_str_body(s: Seq<char>) -> Option<(Seq<char>, Seq<char>)>
    decreases s.len(),
{
    if s.len() == 0 {
        None
    } else if s[0] == '"' {
        Some((Seq::empty(), s.skip(1)))
    } else if s[0] == '\\' {
        if s.len() >= 2 && (s[1] == '"' || s[1] == '\\') {
            match parse_str_body(s.skip(2)) {
                None => None,
                Some((t, r)) => Some((seq![s[1]] + t, r)),
            }
        } else if s.len() >= 2 && short_unescape(s[1]) is Some {
            match parse_str_body(s.skip(2)) {
                None => None,
                Some((t, r)) => Some((seq![short_unescape(s[1])->0] + t, r)),
            }
        } else if s.len() >= 6 && s[1] == 'u' && s[2] == '0' && s[3] == '0' && is_hex(s[4])
            && is_hex(s[5]) && needs_hex_escape(hex_val(s[4]) * 16 + hex_val(s[5])) {
            match parse_str_body(s.skip(6)) {
                None => None,
                Some((t, r)) => Some(
                    (seq![(((hex_val(s[4]) * 16 + hex_val(s[5])) as u32) as char)] + t, r),
                ),
            }
        } else {
            None
        }
    } else if (s[0] as u32) >= 32 {
        match parse_str_body(s.skip(1)) {
            None => None,
            Some((t, r)) => Some((seq![s[0]] + t, r)),
        }
    } else {
        None
    }
}

/// Parses a full string literal, opening quote included.
pub open spec fn parse_string(s: Seq<char>) -> Option<(Seq<char>, Seq<char>)> {
    if s.len() > 0 && s[0] == '"' {
        parse_str_body(s.skip(1))
    } else {
        None
    }
}

/// Soundness: whatever the string-body parser accepts re-encodes to exactly
/// the consumed input.
pub proof fn lemma_str_body_sound(s: Seq<char>)
    requires
        parse_str_body(s) is Some,
    ensures
        s == esc_seq(parse_str_body(s)->Some_0.0) + seq!['"'] + parse_str_body(s)->Some_0.1,
    decreases s.len(),
{
    let (v, r) = parse_str_body(s)->Some_0;
    if s[0] == '"' {
        assert(s =~= esc_seq(v) + seq!['"'] + r);
    } else if s[0] == '\\' {
        if s.len() >= 2 && (s[1] == '"' || s[1] == '\\') {
            let (t, r2) = parse_str_body(s.skip(2))->Some_0;
            lemma_str_body_sound(s.skip(2));
            assert(v == seq![s[1]] + t);
            assert(v[0] == s[1]);
            assert(v.skip(1) =~= t);
            assert(esc_char(s[1]) =~= seq![s[0], s[1]]);
            assert(esc_seq(v) == esc_char(s[1]) + esc_seq(t));
            assert(s =~= seq![s[0], s[1]] + s.skip(2));
            assert(s =~= esc_seq(v) + seq!['"'] + r);
        } else if s.len() >= 2 && short_unescape(s[1]) is Some {
            let (t, r2) = parse_str_body(s.skip(2))->Some_0;
            lemma_str_body_sound(s.skip(2));
            let c = short_unescape(s[1])->0;
            assert(v == seq![c] + t);
            assert(v[0] == c);
            assert(v.skip(1) =~= t);
            assert(esc_char(c) =~= seq![s[0], s[1]]);
            assert(esc_seq(v) == esc_char(c) + esc_seq(t));
            assert(s =~= seq![s[0], s[1]] + s.skip(2));
            assert(s =~= esc_seq(v) + seq!['"'] + r);
        } else if s.len() >= 6 && s[1] == 'u' && s[2] == '0' && s[3] == '0' && is_hex(s[4])
            && is_hex(s[5]) && needs_hex_escape(hex_val(s[4]) * 16 + hex_val(s[5])) {
            let (t, r2) = parse_str_body(s.skip(6))->Some_0;
            lemma_str_body_sound(s.skip(6));
            let code = hex_val(s[4]) * 16 + hex_val(s[5]);
            let c = (code as u32) as char;
            lemma_hex_val_char(s[4]);
            lemma_hex_val_char(s[5]);
            lemma_low_code_char(code as u32);
            assert((c as u32) == code);
            assert(code / 16 == hex_val(s[4]) && code % 16 == hex_val(s[5])) by {
                lemma_fundamental_div_mod_converse(code, 16, hex_val(s[4]), hex_val(s[5]));
            }
            assert(esc_char(c) =~= seq![s[0], s[1], s[2], s[3], s[4], s[5]]);
            assert(v == seq![c] + t);
            assert(v[0] == c);
            assert(v.skip(1) =~= t);
            assert(esc_seq(v) == esc_char(c) + esc_seq(t));
            assert(s =~= seq![s[0], s[1], s[2], s[3], s[4], s[5]] + s.skip(6));
            assert(s =~= esc_seq(v) + seq!['"'] + r);
        }
    } else {
        let (t, r2) = parse_str_body(s.skip(1))->Some_0;
        lemma_str_body_sound(s.skip(1));
        assert(v == seq![s[0]] + t);
        assert(v[0] == s[0]);
        assert(v.skip(1) =~= t);
        assert(esc_char(s[0]) =~= seq![s[0]]);
        assert(esc_seq(v) == esc_char(s[0]) + esc_seq(t));
        assert(s =~= seq![s[0]] + s.skip(1));
        assert(s =~= esc_seq(v) + seq!['"'] + r);
    }
}

/// Completeness: the canonical escape of any value, followed by the closing
/// quote and anything else, parses back to that value.
pub proof fn lemma_str_body_complete(v: Seq<char>, r: Seq<char>)
    ensures
        parse_str_body(esc_seq(v) + seq!['"'] + r) == Some((v, r)),
    decreases v.len(),
{
    let s = esc_seq(v) + seq!['"'] + r;
    if v.len() == 0 {
        assert(esc_seq(v) =~= Seq::<char>::empty());
        assert(s[0] == '"');
        assert(s.skip(1) =~= r);
    } else {
        let c = v[0];
        let v2 = v.skip(1);
        lemma_str_body_complete(v2, r);
        let s2 = esc_seq(v2) + seq!['"'] + r;
        assert(esc_seq(v) == esc_char(c) + esc_seq(v2));
        assert(s =~= esc_char(c) + s2);
        if c == '"' {
            assert(s[0] == '\\' && s[1] == '"');
            assert(s.skip(2) =~= s2);
            assert(seq![s[1]] + v2 =~= v);
        } else if c == '\\' {
            assert(s[0] == '\\' && s[1] == '\\');
            assert(s.skip(2) =~= s2);
            assert(seq![s[1]] + v2 =~= v);
        } else if c == '\u{08}' || c == '\u{09}' || c == '\u{0a}' || c == '\u{0c}' || c
            == '\u{0d}' {
            assert(s[0] == '\\');
            assert(s[1] != '"' && s[1] != '\\');
            assert(short_unescape(s[1]) == Some(c));
            assert(s.skip(2) =~= s2);
            assert(seq![short_unescape(s[1])->0] + v2 =~= v);
        } else if (c as u32) < 32 {
            let code = (c as u32) as int;
            assert(needs_hex_escape(code)) by {
                if code == 8 {
                    vstd::utf8::char_u32_cast(c, c as u32);
                    assert(c == '\u{08}');
                }
                if code == 9 {
                    vstd::utf8::char_u32_cast(c, c as u32);
                    assert(c == '\u{09}');
                }
                if code == 10 {
                    vstd::utf8::char_u32_cast(c, c as u32);
                    assert(c == '\u{0a}');
                }
                if code == 12 {
                    vstd::utf8::char_u32_cast(c, c as u32);
                    assert(c == '\u{0c}');
                }
                if code == 13 {
                    vstd::utf8::char_u32_cast(c, c as u32);
                    assert(c == '\u{0d}');
                }
            }
            let h1 = hex_char(code / 16);
            let h2 = hex_char(code % 16);
            assert(0 <= code / 16 < 16 && 0 <= code % 16 < 16) by {
                lemma_fundamental_div_mod(code, 16);
            }
            lemma_hex_char_val(code / 16);
            lemma_hex_char_val(code % 16);
            assert(esc_char(c) =~= seq!['\\', 'u', '0', '0', h1, h2]);
            assert(s[0] == '\\' && s[1] == 'u' && s[2] == '0' && s[3] == '0' && s[4] == h1
                && s[5] == h2);
            assert(short_unescape(s[1]) is None);
            assert(hex_val(h1) * 16 + hex_val(h2) == code) by {
                lemma_fundamental_div_mod(code, 16);
            }
            assert(s.len() >= 6);
            assert(s.skip(6) =~= s2);
            assert((code as u32) as char == c) by {
                vstd::utf8::char_u32_cast(c, c as u32);
            }
            assert(seq![(((hex_val(s[4]) * 16 + hex_val(s[5])) as u32) as char)] + v2 =~= v);
        } else {
            assert(esc_char(c) =~= seq![c]);
            assert(s[0] == c);
            assert(s[0] != '"' && s[0] != '\\' && (s[0] as u32) >= 32);
            assert(s.skip(1) =~= s2);
            assert(seq![s[0]] + v2 =~= v);
        }
    }
}

/// Soundness for full string literals.
pub proof fn lemma_string_sound(s: Seq<char>)
    requires
        parse_string(s) is Some,
    ensures
        s == enc_string(parse_string(s)->Some_0.0) + parse_string(s)->Some_0.1,
{
    let (v, r) = parse_string(s)->Some_0;
    lemma_str_body_sound(s.skip(1));
    assert(s =~= seq!['"'] + s.skip(1));
    assert(s =~= seq!['"'] + (esc_seq(v) + seq!['"'] + r));
    assert(s =~= enc_string(v) + r);
}

/// Completeness for full string literals.
pub proof fn lemma_string_complete(v: Seq<char>, r: Seq<char>)
    ensures
        parse_string(enc_string(v) + r) == Some((v, r)),
{
    let s = enc_string(v) + r;
    assert(s[0] == '"');
    lemma_str_body_complete(v, r);
    assert(s.skip(1) =~= esc_seq(v) + seq!['"'] + r);
}

// ---------------------------------------------------------------------------
// Fixed literals
// ---------------------------------------------------------------------------

/// Consumes the fixed text `l` from the front of `s`.
pub open spec fn parse_lit(s: Seq<char>, l: Seq<char>) -> Option<Seq<char>> {
    if s.len() >= l.len() && s.subrange(0, l.len() as int) == l {
        Some(s.skip(l.len() as int))
    } else {
        None
    }
}

/// Soundness for fixed literals.
pub proof fn lemma_lit_sound(s: Seq<char>, l: Seq<char>)
    requires
        parse_lit(s, l) is Some,
    ensures
        s == l + parse_lit(s, l)->Some_0,
{
    assert(s =~= l + s.skip(l.len() as int));
}

/// Completeness for fixed literals.
pub proof fn lemma_lit_complete(l: Seq<char>, r: Seq<char>)
    ensures
        parse_lit(l + r, l) == Some(r),
{
    let s = l + r;
    assert(s.subrange(0, l.len() as int) =~= l);
    assert(s.skip(l.len() as int) =~= r);
}

// ---------------------------------------------------------------------------
// Digits and numbers
// ---------------------------------------------------------------------------

/// Every character of `s` is a decimal digit.
pub open spec fn all_digits(s: Seq<char>) -> bool {
    forall|i: int| 0 <= i < s.len() ==> is_digit(#[trigger] s[i])
}

/// The longest run of decimal digits at the front of `s`.
pub open spec fn take_digits(s: Seq<char>) -> Seq<char>
    decreases s.len(),
{
    if s.len() > 0 && is_digit(s[0]) {
        seq![s[0]] + take_digits(s.skip(1))
    } else {
        Seq::empty()
    }
}

/// `take_digits` yields a digit prefix of its input.
pub proof fn lemma_take_digits_prefix(s: Seq<char>)
    ensures
        all_digits(take_digits(s)),
        take_digits(s).len() <= s.len(),
        s == take_digits(s) + s.skip(take_digits(s).len() as int),
        take_digits(s).len() < s.len() ==> !is_digit(s[take_digits(s).len() as int]),
    decreases s.len(),
{
    let d = take_digits(s);
    if s.len() > 0 && is_digit(s[0]) {
        lemma_take_digits_prefix(s.skip(1));
        let d2 = take_digits(s.skip(1));
        assert(d == seq![s[0]] + d2);
        assert forall|i: int| 1 <= i < d.len() implies d[i] == s[i] by {
            assert(d[i] == d2[i - 1]);
            assert(s.skip(1)[i - 1] == (d2 + s.skip(1).skip(d2.len() as int))[i - 1]);
            assert(s.skip(1)[i - 1] == d2[i - 1]);
            assert(s.skip(1)[i - 1] == s[i]);
        }
        assert(s =~= d + s.skip(d.len() as int));
        if d.len() < s.len() {
            assert(s[d.len() as int] == s.skip(1)[d2.len() as int]);
        }
    } else {
        assert(d =~= Seq::<char>::empty());
        assert(s =~= d + s.skip(0));
    }
}

/// Maximal munch: a run of digits followed by a non-digit (or nothing) is
/// taken whole.
pub proof fn lemma_take_digits_exact(d: Seq<char>, r: Seq<char>)
    requires
        all_digits(d),
        r.len() == 0 || !is_digit(r[0]),
    ensures
        take_digits(d + r) == d,
    decreases d.len(),
{
    let s = d + r;
    if d.len() == 0 {
        assert(s =~= r);
        if r.len() > 0 {
            assert(take_digits(s) =~= Seq::<char>::empty());
        } else {
            assert(take_digits(s) =~= Seq::<char>::empty());
        }
        assert(take_digits(s) =~= d);
    } else {
        assert(s[0] == d[0]);
        assert(is_digit(s[0]));
        assert(s.skip(1) =~= d.skip(1) + r);
        lemma_take_digits_exact(d.skip(1), r);
        assert(take_digits(s) == seq![s[0]] + take_digits(s.skip(1)));
        assert(take_digits(s) =~= d);
    }
}

/// The numeric value of a digit run, most significant digit first.
pub open spec fn digits_val(d: Seq<char>) -> int
    decreases d.len(),
{
    if d.len() == 0 {
        0
    } else {
        digits_val(d.drop_last()) * 10 + digit_val(d.last())
    }
}

/// The canonical decimal digit run for a non-negative number.
pub open spec fn dec_rep(n: int) -> Seq<char>
    decreases n,
{
    if n < 10 {
        seq![digit_char(if n >= 0 { n } else { 0 })]
    } else {
        dec_rep(n / 10).push(digit_char(n % 10))
    }
}

/// A canonical digit run: nonempty, all digits, no leading zero.
pub open spec fn canonical_digits(d: Seq<char>) -> bool {
    d.len() >= 1 && all_digits(d) && (d[0] == '0' ==> d.len() == 1)
}

/// A nonempty digit run that does not start with zero has positive value.
proof fn lemma_digits_val_pos(d: Seq<char>)
    requires
        d.len() >= 1,
        all_digits(d),
        d[0] != '0',
    ensures
        digits_val(d) >= 1,
    decreases d.len(),
{
    if d.len() == 1 {
        lemma_digit_val_char(d[0]);
        assert(d.drop_last().len() == 0);
        assert(digits_val(d.drop_last()) == 0);
        assert(d.last() == d[0]);
        assert(digit_val(d[0]) >= 1) by {
            if digit_val(d[0]) == 0 {
                assert(digit_char(0) == d[0]);
                assert(d[0] == '0');
            }
        }
    } else {
        let d2 = d.drop_last();
        assert(d2[0] == d[0]);
        assert(all_digits(d2)) by {
            assert(forall|i: int| 0 <= i < d2.len() ==> d2[i] == d[i]);
        }
        lemma_digits_val_pos(d2);
        lemma_digit_val_char(d.last());
    }
}

/// Digit runs have non-negative value.
proof fn lemma_digits_val_nonneg(d: Seq<char>)
    requires
        all_digits(d),
    ensures
        digits_val(d) >= 0,
    decreases d.len(),
{
    if d.len() > 0 {
        lemma_digits_val_nonneg(d.drop_last());
        lemma_digit_val_char(d.last());
    }
}

/// Encoding then evaluating a canonical digit run is the identity.
pub proof fn lemma_dec_rep_of_digits(d: Seq<char>)
    requires
        canonical_digits(d),
    ensures
        digits_val(d) >= 0,
        dec_rep(digits_val(d)) == d,
    decreases d.len(),
{
    lemma_digits_val_nonneg(d);
    if d.len() == 1 {
        lemma_digit_val_char(d[0]);
        assert(d.drop_last().len() == 0);
        assert(digits_val(d.drop_last()) == 0);
        assert(d.last() == d[0]);
        assert(digits_val(d) == digit_val(d[0]));
        assert(dec_rep(digits_val(d)) =~= d);
    } else {
        let d2 = d.drop_last();
        let l = d.last();
        lemma_digit_val_char(l);
        assert(d[0] != '0');
        assert(d2[0] == d[0]);
        assert(all_digits(d2)) by {
            assert(forall|i: int| 0 <= i < d2.len() ==> d2[i] == d[i]);
        }
        assert(canonical_digits(d2));
        lemma_dec_rep_of_digits(d2);
        lemma_digits_val_pos(d2);
        let v = digits_val(d);
        let v2 = digits_val(d2);
        assert(v == v2 * 10 + digit_val(l));
        assert(v >= 10);
        assert(v / 10 == v2 && v % 10 == digit_val(l)) by {
            lemma_fundamental_div_mod_converse(v, 10, v2, digit_val(l));
        }
        assert(dec_rep(v) == dec_rep(v2).push(digit_char(digit_val(l))));
        assert(dec_rep(v) =~= d);
    }
}

/// The canonical decimal run of `n` evaluates back to `n` and is canonical.
pub proof fn lemma_dec_rep_val(n: int)
    requires
        n >= 0,
    ensures
        canonical_digits(dec_rep(n)),
        digits_val(dec_rep(n)) == n,
    decreases n,
{
    if n < 10 {
        lemma_digit_char_val(n);
        let d = dec_rep(n);
        assert(d == seq![digit_char(n)]);
        assert(d.drop_last() =~= Seq::<char>::empty());
        assert(d.drop_last().len() == 0);
        assert(digits_val(d.drop_last()) == 0);
        assert(d.last() == digit_char(n));
        assert(digits_val(d) == digit_val(digit_char(n)));
        if n == 0 {
            assert(d[0] == digit_char(0));
        } else {
            assert(d[0] == digit_char(n));
            assert(d[0] != '0') by {
                if d[0] == '0' {
                    lemma_digit_char_val(0);
                    lemma_digit_val_char(d[0]);
                }
            }
        }
    } else {
        lemma_fundamental_div_mod(n, 10);
        lemma_dec_rep_val(n / 10);
        lemma_digit_char_val(n % 10);
        let d = dec_rep(n);
        let d2 = dec_rep(n / 10);
        assert(d == d2.push(digit_char(n % 10)));
        assert(d.drop_last() =~= d2);
        assert(d.last() == digit_char(n % 10));
        assert(digits_val(d) == digits_val(d2) * 10 + digit_val(d.last()));
        assert(d[0] == d2[0]);
        assert(d2[0] != '0') by {
            if d2[0] == '0' {
                assert(d2.len() == 1);
                assert(d2.drop_last().len() == 0);
                assert(digits_val(d2.drop_last()) == 0);
                assert(d2.last() == d2[0]);
                assert(digits_val(d2) == digit_val('0'));
                assert(digit_val('0') == 0);
                assert(n / 10 >= 1);
            }
        }
        assert(forall|i: int| 0 <= i < d.len() ==> is_digit(#[trigger] d[i])) by {
            assert(forall|i: int| 0 <= i < d2.len() ==> d[i] == d2[i]);
        }
    }
}

// ---------------------------------------------------------------------------
// Number tokens
// ---------------------------------------------------------------------------

/// Parses a number token: optional minus sign, an integer digit run, and an
/// optional fraction part.  The token is kept as text; the store never
/// computes with these values.
/// Parses an exponent tail: `e` or `E`, an optional sign, and digits.
pub open spec fn parse_exp(s: Seq<char>) -> Option<(Seq<char>, Seq<char>)> {
    if s.len() >= 2 && (s[0] == 'e' || s[0] == 'E') && is_digit(s[1]) {
        let d = take_digits(s.skip(1));
        Some((seq![s[0]] + d, s.skip(1).skip(d.len() as int)))
    } else if s.len() >= 3 && (s[0] == 'e' || s[0] == 'E') && (s[1] == '+' || s[1] == '-')
        && is_digit(s[2]) {
        let d = take_digits(s.skip(2));
        Some((seq![s[0], s[1]] + d, s.skip(2).skip(d.len() as int)))
    } else {
        None
    }
}

/// The shape of a complete exponent tail.
pub open spec fn exp_shape(e: Seq<char>) -> bool {
    (e.len() >= 2 && (e[0] == 'e' || e[0] == 'E') && all_digits(e.skip(1)) && is_digit(e[1])) || (
    e.len() >= 3 && (e[0] == 'e' || e[0] == 'E') && (e[1] == '+' || e[1] == '-') && all_digits(
        e.skip(2),
    ) && is_digit(e[2]))
}

pub open spec fn parse_num(s: Seq<char>) -> Option<(Seq<char>, Seq<char>)> {
    let neg = s.len() > 0 && s[0] == '-';
    let s1 = if neg {
        s.skip(1)
    } else {
        s
    };
    let d1 = take_digits(s1);
    if d1.len() == 0 {
        None
    } else {
        let sign = if neg {
            seq!['-']
        } else {
            Seq::<char>::empty()
        };
        let s2 = s1.skip(d1.len() as int);
        let base = if s2.len() >= 2 && s2[0] == '.' && is_digit(s2[1]) {
            sign + d1 + seq!['.'] + take_digits(s2.skip(1))
        } else {
            sign + d1
        };
        let s3 = if s2.len() >= 2 && s2[0] == '.' && is_digit(s2[1]) {
            s2.skip(1).skip(take_digits(s2.skip(1)).len() as int)
        } else {
            s2
        };
        match parse_exp(s3) {
            Some((e, s4)) => Some((base + e, s4)),
            None => Some((base, s3)),
        }
    }
}

/// A well-formed number token: parsing it consumes it whole.
pub open spec fn valid_num(t: Seq<char>) -> bool {
    parse_num(t) == Some((t, Seq::<char>::empty()))
}

/// Soundness: the number parser consumes a prefix that is itself a valid
/// token.
/// Soundness for exponent tails.
pub proof fn lemma_exp_sound(s: Seq<char>)
    requires
        parse_exp(s) is Some,
    ensures
        s == parse_exp(s)->Some_0.0 + parse_exp(s)->Some_0.1,
        exp_shape(parse_exp(s)->Some_0.0),
{
    let (e, r) = parse_exp(s)->Some_0;
    if s.len() >= 2 && (s[0] == 'e' || s[0] == 'E') && is_digit(s[1]) {
        let d = take_digits(s.skip(1));
        lemma_take_digits_prefix(s.skip(1));
        assert(e == seq![s[0]] + d);
        assert(s.skip(1)[0] == s[1]);
        assert(d.len() >= 1 && d[0] == s[1]);
        assert(s =~= seq![s[0]] + s.skip(1));
        assert(s.skip(1) =~= d + r);
        assert(s =~= e + r);
        assert(e.skip(1) =~= d);
        assert(e[1] == d[0]);
    } else {
        let d = take_digits(s.skip(2));
        lemma_take_digits_prefix(s.skip(2));
        assert(e == seq![s[0], s[1]] + d);
        assert(s.skip(2)[0] == s[2]);
        assert(d.len() >= 1 && d[0] == s[2]);
        assert(s =~= seq![s[0], s[1]] + s.skip(2));
        assert(s.skip(2) =~= d + r);
        assert(s =~= e + r);
        assert(e.skip(2) =~= d);
        assert(e[2] == d[0]);
    }
}

/// Reparse for exponent tails: an assembled tail followed by text that
/// cannot extend it is recovered exactly.
pub proof fn lemma_exp_reparse(e: Seq<char>, r: Seq<char>)
    requires
        exp_shape(e),
        r.len() == 0 || !is_digit(r[0]),
    ensures
        parse_exp(e + r) == Some((e, r)),
{
    let s = e + r;
    if e.len() >= 2 && (e[0] == 'e' || e[0] == 'E') && e.skip(1).len() >= 1 && is_digit(e[1]) {
        assert(s[0] == e[0] && s[1] == e[1]);
        assert(s.skip(1) =~= e.skip(1) + r);
        lemma_take_digits_exact(e.skip(1), r);
        assert(take_digits(s.skip(1)) == e.skip(1));
        assert(seq![s[0]] + e.skip(1) =~= e);
        assert(s.skip(1).skip(e.skip(1).len() as int) =~= r);
    } else {
        assert(s[0] == e[0] && s[1] == e[1] && s[2] == e[2]);
        assert(!is_digit(s[1]));
        assert(s.skip(2) =~= e.skip(2) + r);
        lemma_take_digits_exact(e.skip(2), r);
        assert(take_digits(s.skip(2)) == e.skip(2));
        assert(seq![s[0], s[1]] + e.skip(2) =~= e);
        assert(s.skip(2).skip(e.skip(2).len() as int) =~= r);
    }
}

#[verifier::rlimit(60)]
pub proof fn lemma_num_sound(s: Seq<char>)
    requires
        parse_num(s) is Some,
    ensures
        s == parse_num(s)->Some_0.0 + parse_num(s)->Some_0.1,
        valid_num(parse_num(s)->Some_0.0),
{
    let (t, r) = parse_num(s)->Some_0;
    let neg = s.len() > 0 && s[0] == '-';
    let s1 = if neg {
        s.skip(1)
    } else {
        s
    };
    let sign = if neg {
        seq!['-']
    } else {
        Seq::<char>::empty()
    };
    let d1 = take_digits(s1);
    lemma_take_digits_prefix(s1);
    let s2 = s1.skip(d1.len() as int);
    let frac = s2.len() >= 2 && s2[0] == '.' && is_digit(s2[1]);
    let base = if frac {
        sign + d1 + seq!['.'] + take_digits(s2.skip(1))
    } else {
        sign + d1
    };
    let s3 = if frac {
        s2.skip(1).skip(take_digits(s2.skip(1)).len() as int)
    } else {
        s2
    };
    assert(s =~= sign + s1);
    assert(s1 =~= d1 + s2);
    if frac {
        let d2 = take_digits(s2.skip(1));
        lemma_take_digits_prefix(s2.skip(1));
        assert(s2 =~= seq!['.'] + s2.skip(1));
        assert(s2.skip(1) =~= d2 + s3);
        assert(s =~= base + s3);
    } else {
        assert(s =~= base + s3);
    }
    let fr = if frac {
        Some(take_digits(s2.skip(1)))
    } else {
        None
    };
    match parse_exp(s3) {
        Some((e, s4)) => {
            lemma_exp_sound(s3);
            assert(t == base + e && r == s4);
            assert(s3 =~= e + r);
            assert(s =~= (base + e) + r);
            lemma_num_reparse(neg, d1, fr, Some(e), Seq::<char>::empty());
            assert(t + Seq::<char>::empty() =~= t);
        },
        None => {
            assert(t == base && r == s3);
            lemma_num_reparse(neg, d1, fr, None, Seq::<char>::empty());
            assert(t + Seq::<char>::empty() =~= t);
        },
    }
}

/// Any assembled token parses back to itself, leaving `r`, provided `r`
/// cannot extend the token.
#[verifier::rlimit(100)]
pub proof fn lemma_num_reparse(
    neg: bool,
    d1: Seq<char>,
    frac: Option<Seq<char>>,
    exp: Option<Seq<char>>,
    r: Seq<char>,
)
    requires
        d1.len() >= 1,
        all_digits(d1),
        frac is Some ==> frac->0.len() >= 1 && all_digits(frac->0),
        exp is Some ==> exp_shape(exp->0),
        r.len() == 0 || (!is_digit(r[0]) && r[0] != '.' && r[0] != 'e' && r[0] != 'E'),
    ensures
        ({
            let sign = if neg {
                seq!['-']
            } else {
                Seq::<char>::empty()
            };
            let base = match frac {
                Some(d2) => sign + d1 + seq!['.'] + d2,
                None => sign + d1,
            };
            let t = match exp {
                Some(e) => base + e,
                None => base,
            };
            parse_num(t + r) == Some((t, r))
        }),
{
    let sign = if neg {
        seq!['-']
    } else {
        Seq::<char>::empty()
    };
    let base = match frac {
        Some(d2) => sign + d1 + seq!['.'] + d2,
        None => sign + d1,
    };
    let t = match exp {
        Some(e) => base + e,
        None => base,
    };
    // whatever comes after the digit runs cannot extend them
    let tail = match exp {
        Some(e) => e + r,
        None => r,
    };
    assert(tail.len() == 0 || !is_digit(tail[0])) by {
        if exp is Some {
            let e = exp->0;
            assert(tail[0] == e[0]);
        }
    }
    assert(tail.len() == 0 || tail[0] != '.') by {
        if exp is Some {
            let e = exp->0;
            assert(tail[0] == e[0]);
        }
    }
    let s = t + r;
    assert(s.len() > 0);
    assert(s[0] == (if neg {
        '-'
    } else {
        d1[0]
    })) by {
        match (frac, exp) {
            (Some(d2), Some(e)) => {
                assert(s =~= ((sign + d1 + seq!['.'] + d2) + e) + r);
            },
            (Some(d2), None) => {
                assert(s =~= (sign + d1 + seq!['.'] + d2) + r);
            },
            (None, Some(e)) => {
                assert(s =~= ((sign + d1) + e) + r);
            },
            (None, None) => {
                assert(s =~= (sign + d1) + r);
            },
        }
    }
    assert(is_digit(d1[0]));
    assert(d1[0] != '-');
    assert((s.len() > 0 && s[0] == '-') == neg);
    let s1 = if neg {
        s.skip(1)
    } else {
        s
    };
    match frac {
        Some(d2) => {
            assert(s1 =~= d1 + (seq!['.'] + d2 + tail));
            lemma_take_digits_exact(d1, seq!['.'] + d2 + tail);
            assert(take_digits(s1) == d1);
            let s2 = s1.skip(d1.len() as int);
            assert(s2 =~= seq!['.'] + d2 + tail);
            assert(s2[0] == '.');
            assert(s2[1] == d2[0]);
            assert(is_digit(s2[1]));
            assert(s2.len() >= 2);
            assert(s2.skip(1) =~= d2 + tail);
            lemma_take_digits_exact(d2, tail);
            assert(take_digits(s2.skip(1)) == d2);
            assert(s2.skip(1).skip(d2.len() as int) =~= tail);
        },
        None => {
            assert(s1 =~= d1 + tail);
            lemma_take_digits_exact(d1, tail);
            assert(take_digits(s1) == d1);
            let s2 = s1.skip(d1.len() as int);
            assert(s2 =~= tail);
            assert(!(s2.len() >= 2 && s2[0] == '.' && is_digit(s2[1]))) by {
                if s2.len() >= 2 {
                    assert(s2[0] == tail[0]);
                }
            }
        },
    }
    // by here the parser's base equals `base` and the remaining text is `tail`
    match exp {
        Some(e) => {
            lemma_exp_reparse(e, r);
            assert(base + e == t);
        },
        None => {
            assert(parse_exp(tail) is None) by {
                if tail.len() >= 2 {
                    assert(tail[0] == r[0]);
                    assert(tail[0] != 'e' && tail[0] != 'E');
                }
            }
        },
    }
}

/// Completeness: a valid token followed by text that cannot extend it is
/// recovered exactly.
pub proof fn lemma_num_complete(t: Seq<char>, r: Seq<char>)
    requires
        valid_num(t),
        r.len() == 0 || (!is_digit(r[0]) && r[0] != '.' && r[0] != 'e' && r[0] != 'E'),
    ensures
        parse_num(t + r) == Some((t, r)),
{
    let neg = t.len() > 0 && t[0] == '-';
    let t1 = if neg {
        t.skip(1)
    } else {
        t
    };
    let sign = if neg {
        seq!['-']
    } else {
        Seq::<char>::empty()
    };
    let d1 = take_digits(t1);
    assert(d1.len() >= 1);
    lemma_take_digits_prefix(t1);
    let t2 = t1.skip(d1.len() as int);
    let frac = t2.len() >= 2 && t2[0] == '.' && is_digit(t2[1]);
    let fr = if frac {
        Some(take_digits(t2.skip(1)))
    } else {
        None
    };
    let base = match fr {
        Some(d2) => sign + d1 + seq!['.'] + d2,
        None => sign + d1,
    };
    let t3 = if frac {
        t2.skip(1).skip(take_digits(t2.skip(1)).len() as int)
    } else {
        t2
    };
    if frac {
        lemma_take_digits_prefix(t2.skip(1));
        assert(fr->0.len() >= 1) by {
            assert(is_digit(t2.skip(1)[0]));
        }
    }
    match parse_exp(t3) {
        Some((e, t4)) => {
            lemma_exp_sound(t3);
            assert(t == base + e);
            lemma_num_reparse(neg, d1, fr, Some(e), r);
        },
        None => {
            assert(t == base);
            lemma_num_reparse(neg, d1, fr, None, r);
        },
    }
}

// ---------------------------------------------------------------------------
// Integers
// ---------------------------------------------------------------------------

/// The canonical decimal text of an integer.
pub open spec fn enc_int(n: int) -> Seq<char> {
    if n < 0 {
        seq!['-'] + dec_rep(-n)
    } else {
        dec_rep(n)
    }
}

/// Parses a canonical 32-bit integer: optional minus sign, digits with no
/// leading zero, no negative zero, value within `i32` range.
pub open spec fn parse_int(s: Seq<char>) -> Option<(int, Seq<char>)> {
    let neg = s.len() > 0 && s[0] == '-';
    let s1 = if neg {
        s.skip(1)
    } else {
        s
    };
    let d = take_digits(s1);
    if d.len() == 0 {
        None
    } else if d[0] == '0' && d.len() != 1 {
        None
    } else if neg && digits_val(d) == 0 {
        None
    } else if digits_val(d) > (if neg {
        2147483648int
    } else {
        2147483647int
    }) {
        None
    } else {
        Some(
            (
                if neg {
                    -digits_val(d)
                } else {
                    digits_val(d)
                },
                s1.skip(d.len() as int),
            ),
        )
    }
}

/// Soundness: what the integer parser accepts is the canonical encoding of
/// an in-range value.
pub proof fn lemma_int_sound(s: Seq<char>)
    requires
        parse_int(s) is Some,
    ensures
        s == enc_int(parse_int(s)->Some_0.0) + parse_int(s)->Some_0.1,
        -2147483648 <= parse_int(s)->Some_0.0 <= 2147483647,
{
    let (n, r) = parse_int(s)->Some_0;
    let neg = s.len() > 0 && s[0] == '-';
    let s1 = if neg {
        s.skip(1)
    } else {
        s
    };
    let d = take_digits(s1);
    lemma_take_digits_prefix(s1);
    assert(canonical_digits(d));
    lemma_dec_rep_of_digits(d);
    assert(s1 =~= d + r);
    if neg {
        assert(n == -digits_val(d));
        assert(enc_int(n) == seq!['-'] + dec_rep(digits_val(d)));
        assert(s =~= seq!['-'] + s1);
        assert(s =~= enc_int(n) + r);
    } else {
        assert(s =~= enc_int(n) + r);
    }
}

/// Completeness: the canonical encoding of an in-range value, followed by
/// text that does not begin with a digit, parses back to that value.
pub proof fn lemma_int_complete(n: int, r: Seq<char>)
    requires
        -2147483648 <= n <= 2147483647,
        r.len() == 0 || !is_digit(r[0]),
    ensures
        parse_int(enc_int(n) + r) == Some((n, r)),
{
    let s = enc_int(n) + r;
    if n < 0 {
        lemma_dec_rep_val(-n);
        let d = dec_rep(-n);
        assert(s =~= seq!['-'] + (d + r));
        assert(s[0] == '-');
        assert(s.skip(1) =~= d + r);
        lemma_take_digits_exact(d, r);
        assert(take_digits(s.skip(1)) == d);
        assert(digits_val(d) == -n);
        assert(d[0] != '0') by {
            if d[0] == '0' {
                assert(d.len() == 1);
                assert(d.drop_last().len() == 0);
                assert(digits_val(d.drop_last()) == 0);
                assert(d.last() == d[0]);
                assert(digits_val(d) == digit_val('0'));
            }
        }
        assert((d + r).skip(d.len() as int) =~= r);
    } else {
        lemma_dec_rep_val(n);
        let d = dec_rep(n);
        assert(s =~= d + r);
        assert(s.len() > 0 && s[0] == d[0]);
        assert(is_digit(d[0]));
        assert(s[0] != '-');
        lemma_take_digits_exact(d, r);
        assert(take_digits(s) == d);
        assert(digits_val(d) == n);
        assert(s.skip(d.len() as int) =~= r);
    }
}

// ---------------------------------------------------------------------------
// Executable emission
// ---------------------------------------------------------------------------

/// Escaping distributes over appending one character.
pub proof fn lemma_esc_push(a: Seq<char>, c: char)
    ensures
        esc_seq(a.push(c)) == esc_seq(a) + esc_char(c),
    decreases a.len(),
{
    let ap = a.push(c);
    if a.len() == 0 {
        assert(ap[0] == c);
        assert(ap.skip(1) =~= Seq::<char>::empty());
        assert(ap.skip(1) == Seq::<char>::empty());
        assert(esc_seq(Seq::<char>::empty()) == Seq::<char>::empty());
        assert(esc_seq(ap) == esc_char(c) + Seq::<char>::empty());
        assert(esc_char(c) + Seq::<char>::empty() =~= esc_char(c));
        assert(esc_seq(a) == Seq::<char>::empty());
        assert(esc_seq(a) + esc_char(c) =~= esc_char(c));
    } else {
        assert(ap[0] == a[0]);
        assert(ap.skip(1) =~= a.skip(1).push(c));
        lemma_esc_push(a.skip(1), c);
        assert(esc_seq(ap) == esc_char(a[0]) + (esc_seq(a.skip(1)) + esc_char(c)));
        assert(esc_char(a[0]) + (esc_seq(a.skip(1)) + esc_char(c)) =~= (esc_char(a[0]) + esc_seq(
            a.skip(1),
        )) + esc_char(c));
    }
}

/// Appends the characters of `s` to `out`.
pub fn push_str_chars(out: &mut Vec<char>, s: &str)
    ensures
        final(out)@ == old(out)@ + s@,
{
    let n = s.unicode_len();
    let mut i: usize = 0;
    while i < n
        invariant
            n == s@.len(),
            i <= n,
            out@ == old(out)@ + s@.subrange(0, i as int),
        decreases n - i,
    {
        out.push(s.get_char(i));
        i = i + 1;
        proof {
            assert(out@ =~= old(out)@ + s@.subrange(0, i as int));
        }
    }
    proof {
        assert(out@ =~= old(out)@ + s@);
    }
}

/// The lower-case hexadecimal digit character for a value below 16.
fn hex_digit_exec(d: u8) -> (c: char)
    requires
        d < 16,
    ensures
        c == hex_char(d as int),
{
    if d < 10 {
        (48 + d) as char
    } else {
        (87 + d) as char
    }
}

/// Appends the canonical escape of one character.
fn push_esc_char(out: &mut Vec<char>, c: char)
    ensures
        final(out)@ == old(out)@ + esc_char(c),
{
    if c == '"' {
        out.push('\\');
        out.push('"');
        proof {
            assert(out@ =~= old(out)@ + esc_char(c));
        }
    } else if c == '\\' {
        out.push('\\');
        out.push('\\');
        proof {
            assert(out@ =~= old(out)@ + esc_char(c));
        }
    } else if c == '\u{08}' {
        out.push('\\');
        out.push('b');
        proof {
            assert(out@ =~= old(out)@ + esc_char(c));
        }
    } else if c == '\u{09}' {
        out.push('\\');
        out.push('t');
        proof {
            assert(out@ =~= old(out)@ + esc_char(c));
        }
    } else if c == '\u{0a}' {
        out.push('\\');
        out.push('n');
        proof {
            assert(out@ =~= old(out)@ + esc_char(c));
        }
    } else if c == '\u{0c}' {
        out.push('\\');
        out.push('f');
        proof {
            assert(out@ =~= old(out)@ + esc_char(c));
        }
    } else if c == '\u{0d}' {
        out.push('\\');
        out.push('r');
        proof {
            assert(out@ =~= old(out)@ + esc_char(c));
        }
    } else {
        let u = c as u32;
        if u < 32 {
            out.push('\\');
            out.push('u');
            out.push('0');
            out.push('0');
            out.push(hex_digit_exec((u / 16) as u8));
            out.push(hex_digit_exec((u % 16) as u8));
            proof {
                assert(out@ =~= old(out)@ + esc_char(c));
            }
        } else {
            out.push(c);
            proof {
                assert(out@ =~= old(out)@ + esc_char(c));
            }
        }
    }
}

/// Appends the canonical string literal for `s`, quotes included.
pub fn push_string_lit(out: &mut Vec<char>, s: &str)
    ensures
        final(out)@ == old(out)@ + enc_string(s@),
{
    out.push('"');
    let n = s.unicode_len();
    let mut i: usize = 0;
    while i < n
        invariant
            n == s@.len(),
            i <= n,
            out@ == old(out)@ + seq!['"'] + esc_seq(s@.subrange(0, i as int)),
        decreases n - i,
    {
        push_esc_char(out, s.get_char(i));
        i = i + 1;
        proof {
            assert(s@.subrange(0, i as int) =~= s@.subrange(0, i - 1).push(s@[i - 1]));
            lemma_esc_push(s@.subrange(0, i - 1), s@[i - 1]);
        }
    }
    out.push('"');
    proof {
        assert(s@.subrange(0, n as int) =~= s@);
        assert(out@ =~= old(out)@ + enc_string(s@));
    }
}

/// Appends the canonical decimal digits of `n`.
fn push_u32_dec(out: &mut Vec<char>, n: u32)
    ensures
        final(out)@ == old(out)@ + dec_rep(n as int),
    decreases n,
{
    if n < 10 {
        out.push((48 + n as u8) as char);
        proof {
            assert((48 + n) < 128);
            assert(out@ =~= old(out)@ + dec_rep(n as int));
        }
    } else {
        push_u32_dec(out, n / 10);
        out.push((48 + (n % 10) as u8) as char);
        proof {
            assert(out@ =~= old(out)@ + dec_rep(n as int));
        }
    }
}

/// A digit run's value only grows as more digits are appended.
proof fn lemma_digits_val_prefix(d: Seq<char>, k: int)
    requires
        all_digits(d),
        0 <= k <= d.len(),
    ensures
        digits_val(d) >= digits_val(d.subrange(0, k)),
    decreases d.len() - k,
{
    lemma_digits_val_nonneg(d);
    if k == d.len() {
        assert(d.subrange(0, k) =~= d);
    } else {
        lemma_digits_val_prefix(d, k + 1);
        let a = d.subrange(0, k);
        let b = d.subrange(0, k + 1);
        assert(b.drop_last() =~= a);
        assert(b.last() == d[k]);
        assert(all_digits(a)) by {
            assert(forall|t: int| 0 <= t < a.len() ==> a[t] == d[t]);
        }
        lemma_digits_val_nonneg(a);
        lemma_digit_val_char(d[k]);
        assert(digits_val(b) == digits_val(a) * 10 + digit_val(d[k]));
    }
}

/// Is `c` a decimal digit?
fn is_digit_ch(c: char) -> (b: bool)
    ensures
        b == is_digit(c),
{
    let u = c as u32;
    48 <= u && u <= 57
}

/// Scans the run of decimal digits starting at `i`.
fn scan_digits(v: &Vec<char>, i: usize) -> (j: usize)
    requires
        i <= v@.len(),
    ensures
        i <= j <= v@.len(),
        take_digits(v@.skip(i as int)) == v@.subrange(i as int, j as int),
        forall|t: int| i <= t < j ==> is_digit(#[trigger] v@[t]),
        j < v@.len() ==> !is_digit(v@[j as int]),
    decreases v@.len() - i,
{
    let n = v.len();
    let mut j: usize = i;
    while j < n && is_digit_ch(v[j])
        invariant
            n == v@.len(),
            i <= j <= n,
            forall|t: int| i <= t < j ==> is_digit(#[trigger] v@[t]),
        decreases n - j,
    {
        j = j + 1;
    }
    proof {
        let d = v@.subrange(i as int, j as int);
        assert(all_digits(d)) by {
            assert(forall|t: int| 0 <= t < d.len() ==> d[t] == v@[i + t]);
        }
        let r = v@.skip(j as int);
        assert(r.len() == 0 || !is_digit(r[0])) by {
            if j < n {
                assert(r[0] == v@[j as int]);
            }
        }
        lemma_take_digits_exact(d, r);
        assert(v@.skip(i as int) =~= d + r);
    }
    j
}

/// Copies `v[a..b]` into a fresh vector.
fn copy_range(v: &Vec<char>, a: usize, b: usize) -> (r: Vec<char>)
    requires
        a <= b <= v@.len(),
    ensures
        r@ == v@.subrange(a as int, b as int),
{
    let mut r: Vec<char> = Vec::new();
    let mut k: usize = a;
    while k < b
        invariant
            a <= k <= b <= v@.len(),
            r@ == v@.subrange(a as int, k as int),
        decreases b - k,
    {
        r.push(v[k]);
        k = k + 1;
        proof {
            assert(r@ =~= v@.subrange(a as int, k as int));
        }
    }
    proof {
        assert(r@ =~= v@.subrange(a as int, b as int));
    }
    r
}

/// Consumes the fixed text `lit` at position `i`.
pub fn p_lit(v: &Vec<char>, i: usize, lit: &str) -> (r: Option<usize>)
    requires
        i <= v@.len(),
    ensures
        match r {
            Some(j) => i <= j <= v@.len() && parse_lit(v@.skip(i as int), lit@) == Some(
                v@.skip(j as int),
            ),
            None => parse_lit(v@.skip(i as int), lit@) is None,
        },
{
    let n = lit.unicode_len();
    let vn = v.len();
    let s = Ghost(v@.skip(i as int));
    if vn - i < n {
        proof {
            assert(s@.len() < lit@.len());
        }
        return None;
    }
    let mut k: usize = 0;
    while k < n
        invariant
            n == lit@.len(),
            vn == v@.len(),
            i + n <= vn,
            k <= n,
            s@ == v@.skip(i as int),
            forall|t: int| 0 <= t < k ==> v@[i + t] == lit@[t],
        decreases n - k,
    {
        if v[i + k] != lit.get_char(k) {
            proof {
                assert(s@.subrange(0, n as int)[k as int] == v@[i + k]);
                assert(s@.subrange(0, n as int) != lit@);
            }
            return None;
        }
        k = k + 1;
    }
    proof {
        assert(s@.subrange(0, n as int) =~= lit@);
        assert(s@.skip(n as int) =~= v@.skip((i + n) as int));
    }
    Some(i + n)
}

/// The value of a lower-case hexadecimal digit, if `c` is one.
fn hex_val_ch(c: char) -> (r: Option<u8>)
    ensures
        match r {
            Some(d) => is_hex(c) && d as int == hex_val(c) && d < 16,
            None => !is_hex(c),
        },
{
    let u = c as u32;
    if 48 <= u && u <= 57 {
        Some((u - 48) as u8)
    } else if 97 <= u && u <= 102 {
        Some((u - 87) as u8)
    } else {
        None
    }
}

/// Parses a string literal at position `i`.
pub fn p_string(v: &Vec<char>, i: usize) -> (r: Option<(String, usize)>)
    requires
        i <= v@.len(),
    ensures
        match r {
            Some(p) => i <= p.1 <= v@.len() && parse_string(v@.skip(i as int)) == Some(
                (p.0@, v@.skip(p.1 as int)),
            ),
            None => parse_string(v@.skip(i as int)) is None,
        },
{
    let n = v.len();
    if i >= n || v[i] != '"' {
        proof {
            if v@.skip(i as int).len() > 0 {
                assert(v@.skip(i as int)[0] == v@[i as int]);
            }
        }
        return None;
    }
    proof {
        assert(v@.skip(i as int)[0] == v@[i as int]);
        assert(v@.skip(i as int).skip(1) =~= v@.skip(i + 1));
    }
    let ghost body0 = parse_str_body(v@.skip(i + 1));
    proof {
        if body0 is Some {
            let (t, r) = body0->Some_0;
            assert(Seq::<char>::empty() + t =~= t);
        }
    }
    let mut acc: Vec<char> = Vec::new();
    let mut cur: usize = i + 1;
    while cur < n
        invariant
            n == v@.len(),
            i < n,
            v@[i as int] == '"',
            i + 1 <= cur <= n,
            body0 == parse_str_body(v@.skip(i + 1)),
            parse_string(v@.skip(i as int)) == body0,
            match parse_str_body(v@.skip(cur as int)) {
                None => body0 is None,
                Some((t, r)) => body0 == Some((acc@ + t, r)),
            },
        decreases n - cur,
    {
        let ghost sc = v@.skip(cur as int);
        proof {
            assert(sc[0] == v@[cur as int]);
            assert(sc.len() == n - cur);
        }
        let c = v[cur];
        if c == '"' {
            proof {
                assert(sc.skip(1) =~= v@.skip(cur + 1));
                assert(parse_str_body(sc) == Some((Seq::<char>::empty(), v@.skip(cur + 1))));
                assert(acc@ + Seq::<char>::empty() =~= acc@);
            }
            let res = crate::text::chars_to_string(&acc);
            return Some((res, cur + 1));
        } else if c == '\\' {
            if cur + 1 >= n {
                proof {
                    assert(sc.len() < 2);
                    assert(parse_str_body(sc) is None);
                }
                return None;
            }
            let c2 = v[cur + 1];
            proof {
                assert(sc[1] == v@[cur + 1]);
            }
            if c2 == '"' || c2 == '\\' {
                proof {
                    assert(sc.skip(2) =~= v@.skip(cur + 2));
                }
                acc.push(c2);
                proof {
                    if parse_str_body(v@.skip(cur + 2)) is Some {
                        let (t, r) = parse_str_body(v@.skip(cur + 2))->Some_0;
                        assert(parse_str_body(sc) == Some((seq![c2] + t, r)));
                        assert(acc@ + t =~= (acc@.drop_last()) + (seq![c2] + t));
                    }
                }
                cur = cur + 2;
            } else if c2 == 'b' || c2 == 't' || c2 == 'n' || c2 == 'f' || c2 == 'r' {
                let uc = if c2 == 'b' {
                    '\u{08}'
                } else if c2 == 't' {
                    '\u{09}'
                } else if c2 == 'n' {
                    '\u{0a}'
                } else if c2 == 'f' {
                    '\u{0c}'
                } else {
                    '\u{0d}'
                };
                proof {
                    assert(sc.skip(2) =~= v@.skip(cur + 2));
                    assert(short_unescape(sc[1]) == Some(uc));
                }
                acc.push(uc);
                proof {
                    if parse_str_body(v@.skip(cur + 2)) is Some {
                        let (t, r) = parse_str_body(v@.skip(cur + 2))->Some_0;
                        assert(parse_str_body(sc) == Some((seq![uc] + t, r)));
                        assert(acc@ + t =~= (acc@.drop_last()) + (seq![uc] + t));
                    }
                }
                cur = cur + 2;
            } else if c2 == 'u' {
                if n - cur < 6 {
                    proof {
                        assert(sc.len() < 6);
                        assert(parse_str_body(sc) is None);
                    }
                    return None;
                }
                proof {
                    assert(sc[2] == v@[cur + 2]);
                    assert(sc[3] == v@[cur + 3]);
                    assert(sc[4] == v@[cur + 4]);
                    assert(sc[5] == v@[cur + 5]);
                }
                if v[cur + 2] != '0' || v[cur + 3] != '0' {
                    proof {
                        assert(parse_str_body(sc) is None);
                    }
                    return None;
                }
                let h1 = hex_val_ch(v[cur + 4]);
                let h2 = hex_val_ch(v[cur + 5]);
                match (h1, h2) {
                    (Some(d1), Some(d2)) => {
                        let code: u8 = d1 * 16 + d2;
                        if code >= 32 || code == 8 || code == 9 || code == 10 || code == 12
                            || code == 13 {
                            proof {
                                assert(!needs_hex_escape(hex_val(sc[4]) * 16 + hex_val(sc[5])));
                                assert(parse_str_body(sc) is None);
                            }
                            return None;
                        }
                        let uc = code as char;
                        proof {
                            assert(sc.skip(6) =~= v@.skip(cur + 6));
                            assert(uc == (((hex_val(sc[4]) * 16 + hex_val(sc[5])) as u32) as char));
                        }
                        acc.push(uc);
                        proof {
                            if parse_str_body(v@.skip(cur + 6)) is Some {
                                let (t, r) = parse_str_body(v@.skip(cur + 6))->Some_0;
                                assert(parse_str_body(sc) == Some((seq![uc] + t, r)));
                                assert(acc@ + t =~= (acc@.drop_last()) + (seq![uc] + t));
                            }
                        }
                        cur = cur + 6;
                    },
                    _ => {
                        proof {
                            assert(parse_str_body(sc) is None);
                        }
                        return None;
                    },
                }
            } else {
                proof {
                    assert(parse_str_body(sc) is None);
                }
                return None;
            }
        } else {
            let u = c as u32;
            if u < 32 {
                proof {
                    assert(parse_str_body(sc) is None);
                }
                return None;
            }
            proof {
                assert(sc.skip(1) =~= v@.skip(cur + 1));
            }
            acc.push(c);
            proof {
                if parse_str_body(v@.skip(cur + 1)) is Some {
                    let (t, r) = parse_str_body(v@.skip(cur + 1))->Some_0;
                    assert(parse_str_body(sc) == Some((seq![c] + t, r)));
                    assert(acc@ + t =~= (acc@.drop_last()) + (seq![c] + t));
                }
            }
            cur = cur + 1;
        }
    }
    proof {
        assert(v@.skip(cur as int).len() == 0);
        assert(parse_str_body(v@.skip(cur as int)) is None);
    }
    None
}

/// Parses a number token at position `i`.
#[verifier::rlimit(100)]
pub fn p_num(v: &Vec<char>, i: usize) -> (r: Option<(Vec<char>, usize)>)
    requires
        i <= v@.len(),
    ensures
        match r {
            Some(p) => i <= p.1 <= v@.len() && parse_num(v@.skip(i as int)) == Some(
                (p.0@, v@.skip(p.1 as int)),
            ) && valid_num(p.0@),
            None => parse_num(v@.skip(i as int)) is None,
        },
{
    let n = v.len();
    let ghost s = v@.skip(i as int);
    let neg = i < n && v[i] == '-';
    proof {
        if s.len() > 0 {
            assert(s[0] == v@[i as int]);
        }
        assert(neg == (s.len() > 0 && s[0] == '-'));
    }
    let st = if neg {
        i + 1
    } else {
        i
    };
    proof {
        if neg {
            assert(s.skip(1) =~= v@.skip(st as int));
        }
    }
    let j1 = scan_digits(v, st);
    if j1 == st {
        proof {
            assert(take_digits(v@.skip(st as int)).len() == 0);
        }
        return None;
    }
    let ghost d1 = v@.subrange(st as int, j1 as int);
    proof {
        assert(v@.skip(st as int).skip(d1.len() as int) =~= v@.skip(j1 as int));
    }
    let frac = n - j1 >= 2 && v[j1] == '.' && is_digit_ch(v[j1 + 1]);
    proof {
        let s2 = v@.skip(j1 as int);
        if s2.len() >= 2 {
            assert(s2[0] == v@[j1 as int]);
            assert(s2[1] == v@[j1 + 1]);
        }
        assert(frac == (s2.len() >= 2 && s2[0] == '.' && is_digit(s2[1])));
    }
    let j2: usize;
    if frac {
        proof {
            assert(v@.skip(j1 as int).skip(1) =~= v@.skip(j1 + 1));
        }
        j2 = scan_digits(v, j1 + 1);
        proof {
            let d2 = v@.subrange(j1 + 1, j2 as int);
            assert(v@.skip(j1 + 1).skip(d2.len() as int) =~= v@.skip(j2 as int));
            let sign: Seq<char> = if neg {
                seq!['-']
            } else {
                Seq::empty()
            };
            assert(sign + d1 + seq!['.'] + d2 =~= v@.subrange(i as int, j2 as int));
        }
    } else {
        j2 = j1;
        proof {
            let sign: Seq<char> = if neg {
                seq!['-']
            } else {
                Seq::empty()
            };
            assert(sign + d1 =~= v@.subrange(i as int, j2 as int));
        }
    }
    let j3 = p_exp(v, j2);
    proof {
        if j3 != j2 {
            assert(v@.subrange(i as int, j2 as int) + v@.subrange(j2 as int, j3 as int)
                =~= v@.subrange(i as int, j3 as int));
        }
        lemma_num_sound(s);
    }
    let tok = copy_range(v, i, j3);
    Some((tok, j3))
}

/// Scans an exponent tail at position `i`; returns its end, which equals
/// `i` exactly when no exponent tail starts there.
fn p_exp(v: &Vec<char>, i: usize) -> (j: usize)
    requires
        i <= v@.len(),
    ensures
        i <= j <= v@.len(),
        j == i ==> parse_exp(v@.skip(i as int)) is None,
        j != i ==> parse_exp(v@.skip(i as int)) == Some(
            (v@.subrange(i as int, j as int), v@.skip(j as int)),
        ),
{
    let n = v.len();
    let ghost s3 = v@.skip(i as int);
    proof {
        if s3.len() > 0 {
            assert(s3[0] == v@[i as int]);
        }
        if s3.len() > 1 {
            assert(s3[1] == v@[i + 1]);
        }
        if s3.len() > 2 {
            assert(s3[2] == v@[i + 2]);
        }
    }
    if i < n && (v[i] == 'e' || v[i] == 'E') && n - i >= 2 && is_digit_ch(v[i + 1]) {
        proof {
            assert(s3.skip(1) =~= v@.skip(i + 1));
        }
        let j = scan_digits(v, i + 1);
        proof {
            let d3 = v@.subrange(i + 1, j as int);
            assert(v@.skip(i + 1).skip(d3.len() as int) =~= v@.skip(j as int));
            assert(seq![s3[0]] + d3 =~= v@.subrange(i as int, j as int));
            assert(j > i);
        }
        j
    } else if i < n && (v[i] == 'e' || v[i] == 'E') && n - i >= 3 && (v[i + 1] == '+' || v[i + 1]
        == '-') && is_digit_ch(v[i + 2]) {
        proof {
            assert(s3.skip(2) =~= v@.skip(i + 2));
        }
        let j = scan_digits(v, i + 2);
        proof {
            let d3 = v@.subrange(i + 2, j as int);
            assert(v@.skip(i + 2).skip(d3.len() as int) =~= v@.skip(j as int));
            assert(seq![s3[0], s3[1]] + d3 =~= v@.subrange(i as int, j as int));
            assert(j > i);
        }
        j
    } else {
        proof {
            assert(parse_exp(s3) is None);
        }
        i
    }
}

/// Parses a canonical 32-bit integer at position `i`.
pub fn p_int(v: &Vec<char>, i: usize) -> (r: Option<(i32, usize)>)
    requires
        i <= v@.len(),
    ensures
        match r {
            Some(p) => i <= p.1 <= v@.len() && parse_int(v@.skip(i as int)) == Some(
                (p.0 as int, v@.skip(p.1 as int)),
            ),
            None => parse_int(v@.skip(i as int)) is None,
        },
{
    let n = v.len();
    let ghost s = v@.skip(i as int);
    let neg = i < n && v[i] == '-';
    proof {
        if s.len() > 0 {
            assert(s[0] == v@[i as int]);
        }
        assert(neg == (s.len() > 0 && s[0] == '-'));
    }
    let st = if neg {
        i + 1
    } else {
        i
    };
    proof {
        if neg {
            assert(s.skip(1) =~= v@.skip(st as int));
        }
    }
    let j = scan_digits(v, st);
    if j == st {
        proof {
            assert(take_digits(v@.skip(st as int)).len() == 0);
        }
        return None;
    }
    let ghost d = v@.subrange(st as int, j as int);
    proof {
        assert(d[0] == v@[st as int]);
        assert(all_digits(d)) by {
            assert(forall|t: int| 0 <= t < d.len() ==> d[t] == v@[st + t]);
        }
    }
    if v[st] == '0' && j - st != 1 {
        return None;
    }
    let mut acc: u64 = 0;
    let mut cur: usize = st;
    while cur < j
        invariant
            st <= cur <= j <= v@.len(),
            i <= st,
            s == v@.skip(i as int),
            neg == (s.len() > 0 && s[0] == '-'),
            st == (if neg {
                i + 1
            } else {
                i as int
            }),
            neg ==> s.skip(1) == v@.skip(st as int),
            d == v@.subrange(st as int, j as int),
            take_digits(v@.skip(st as int)) == d,
            d.len() >= 1,
            !(d[0] == '0' && d.len() != 1),
            all_digits(d),
            acc as int == digits_val(v@.subrange(st as int, cur as int)),
            acc <= 2147483648,
        decreases j - cur,
    {
        let c = v[cur];
        proof {
            assert(d[cur - st] == v@[cur as int]);
            assert(is_digit(c));
            lemma_digit_val_char(c);
        }
        let dv: u64 = (c as u32 - 48) as u64;
        let newacc: u64 = acc * 10 + dv;
        proof {
            let a = v@.subrange(st as int, cur as int);
            let b = v@.subrange(st as int, cur + 1);
            assert(b.drop_last() =~= a);
            assert(b.last() == v@[cur as int]);
            assert(digits_val(b) == digits_val(a) * 10 + digit_val(c));
        }
        if newacc > 2147483648 {
            proof {
                let b = v@.subrange(st as int, cur + 1);
                assert(b =~= d.subrange(0, cur + 1 - st));
                lemma_digits_val_prefix(d, cur + 1 - st);
                assert(digits_val(d) > 2147483648);
            }
            return None;
        }
        acc = newacc;
        cur = cur + 1;
    }
    proof {
        assert(v@.subrange(st as int, cur as int) =~= d);
        assert(acc as int == digits_val(d));
    }
    if neg && acc == 0 {
        return None;
    }
    if !neg && acc > 2147483647 {
        return None;
    }
    proof {
        assert(v@.skip(st as int).skip(d.len() as int) =~= v@.skip(j as int));
    }
    let val: i32 = if neg {
        (-(acc as i64)) as i32
    } else {
        acc as i32
    };
    Some((val, j))
}

/// Appends the canonical decimal form of a 32-bit integer.
pub fn push_i32_dec(out: &mut Vec<char>, n: i32)
    ensures
        final(out)@ == old(out)@ + enc_int(n as int),
{
    if n < 0 {
        out.push('-');
        let mag: u32 = (-(n as i64)) as u32;
        proof {
            assert(mag as int == -(n as int));
        }
        push_u32_dec(out, mag);
        proof {
            assert(out@ =~= old(out)@ + (seq!['-'] + dec_rep(mag as int)));
        }
    } else {
        push_u32_dec(out, n as u32);
    }
}

} // verus!
