//! Canonical JSON forms of the embedded configuration objects.
//!
//! Each sub-object has one canonical encoding (fixed field order, compact
//! separators).  Decoding accepts exactly the canonical form; any other
//! text counts as malformed and is replaced by the documented default for
//! that sub-object, never surfaced as an error.  This pairs an encoder and
//! a parser per object, with proofs in both directions: round trip for
//! well-formed values, and default substitution for everything else.

use vstd::prelude::*;
use vstd::string::*;
use crate::json::{
    enc_string, parse_string, lemma_string_sound, lemma_string_complete, esc_seq, enc_int,
    parse_int, lemma_int_sound, lemma_int_complete, parse_num, lemma_num_sound,
    lemma_num_complete, valid_num, is_digit, parse_lit, lemma_lit_sound, lemma_lit_complete,
    push_str_chars, push_string_lit, push_i32_dec, p_lit, p_string, p_num, p_int,
};
use crate::config::{
    LoRA, LoRAV, ModelConfig, ModelConfigV, SamplingConfig, SamplingConfigV, PromptConfig,
    PromptConfigV, ImageConfig, ImageConfigV, JsonNumber, lora_v_wf, model_v_wf, sampling_v_wf,
    image_v_wf, default_model_v, default_sampling_v, default_prompt_v, default_image_v,
    default_model_config, default_sampling_config, default_prompt_config, default_image_config,
};
use crate::text::{to_char_vec, chars_to_string};

verus! {

// ---------------------------------------------------------------------------
// Helpers for chaining parse steps
// ---------------------------------------------------------------------------

/// Accumulates one consumed piece onto a left-associated prefix.
proof fn lemma_chain(s: Seq<char>, a: Seq<char>, s1: Seq<char>, e: Seq<char>, r: Seq<char>)
    requires
        s == a + s1,
        s1 == e + r,
    ensures
        s == (a + e) + r,
{
    assert(s =~= (a + e) + r);
}

/// Re-associates one piece off the front of a left-associated sum.
proof fn lemma_split(a: Seq<char>, e: Seq<char>, r: Seq<char>)
    ensures
        (a + e) + r == a + (e + r),
{
    assert((a + e) + r =~= a + (e + r));
}

// ---------------------------------------------------------------------------
// Optional strings (null or string literal)
// ---------------------------------------------------------------------------

/// An optional string field: `null` or a string literal.
pub open spec fn enc_opt_string(o: Option<Seq<char>>) -> Seq<char> {
    match o {
        None => "null"@,
        Some(s) => enc_string(s),
    }
}

/// Parses an optional string field.
pub open spec fn parse_opt_string(s: Seq<char>) -> Option<(Option<Seq<char>>, Seq<char>)> {
    if s.len() >= 4 && s.subrange(0, 4) == "null"@ {
        Some((None, s.skip(4)))
    } else {
        match parse_string(s) {
            None => None,
            Some((v, r)) => Some((Some(v), r)),
        }
    }
}

pub proof fn lemma_opt_string_sound(s: Seq<char>)
    requires
        parse_opt_string(s) is Some,
    ensures
        s == enc_opt_string(parse_opt_string(s)->Some_0.0) + parse_opt_string(s)->Some_0.1,
{
    reveal_strlit("null");
    let (o, r) = parse_opt_string(s)->Some_0;
    if s.len() >= 4 && s.subrange(0, 4) == "null"@ {
        assert(s =~= "null"@ + s.skip(4));
    } else {
        lemma_string_sound(s);
    }
}

pub proof fn lemma_opt_string_complete(o: Option<Seq<char>>, r: Seq<char>)
    ensures
        parse_opt_string(enc_opt_string(o) + r) == Some((o, r)),
{
    reveal_strlit("null");
    let s = enc_opt_string(o) + r;
    match o {
        None => {
            assert("null"@.len() == 4);
            assert(s.subrange(0, 4) =~= "null"@);
            assert(s.skip(4) =~= r);
        },
        Some(v) => {
            lemma_string_complete(v, r);
            assert(s[0] == '"');
            assert("null"@[0] == 'n');
            if s.len() >= 4 && s.subrange(0, 4) == "null"@ {
                assert(s[0] == 'n');
            }
        },
    }
}

// ---------------------------------------------------------------------------
// Arrays of strings
// ---------------------------------------------------------------------------

/// Comma-separated string literals, without the surrounding brackets.
pub open spec fn enc_str_list(vs: Seq<Seq<char>>) -> Seq<char>
    decreases vs.len(),
{
    if vs.len() == 0 {
        Seq::empty()
    } else if vs.len() == 1 {
        enc_string(vs[0])
    } else {
        enc_string(vs[0]) + seq![','] + enc_str_list(vs.skip(1))
    }
}

/// A JSON array of string literals.
pub open spec fn enc_str_array(vs: Seq<Seq<char>>) -> Seq<char> {
    seq!['['] + enc_str_list(vs) + seq![']']
}

/// Parses one or more comma-separated string literals.
pub open spec fn parse_str_list(s: Seq<char>) -> Option<(Seq<Seq<char>>, Seq<char>)>
    decreases s.len(),
{
    match parse_string(s) {
        None => None,
        Some((v, r)) => {
            if r.len() >= s.len() {
                None
            } else if r.len() > 0 && r[0] == ',' {
                match parse_str_list(r.skip(1)) {
                    None => None,
                    Some((vs, r2)) => Some((seq![v] + vs, r2)),
                }
            } else {
                Some((seq![v], r))
            }
        },
    }
}

/// Parses a JSON array of string literals.
pub open spec fn parse_str_array(s: Seq<char>) -> Option<(Seq<Seq<char>>, Seq<char>)> {
    if s.len() >= 2 && s[0] == '[' && s[1] == ']' {
        Some((Seq::empty(), s.skip(2)))
    } else if s.len() >= 1 && s[0] == '[' {
        match parse_str_list(s.skip(1)) {
            None => None,
            Some((vs, r)) => {
                if r.len() > 0 && r[0] == ']' {
                    Some((vs, r.skip(1)))
                } else {
                    None
                }
            },
        }
    } else {
        None
    }
}

proof fn lemma_str_list_sound(s: Seq<char>)
    requires
        parse_str_list(s) is Some,
    ensures
        s == enc_str_list(parse_str_list(s)->Some_0.0) + parse_str_list(s)->Some_0.1,
        parse_str_list(s)->Some_0.0.len() >= 1,
    decreases s.len(),
{
    let (vs, r2) = parse_str_list(s)->Some_0;
    let (v, r) = parse_string(s)->Some_0;
    lemma_string_sound(s);
    if r.len() > 0 && r[0] == ',' {
        lemma_str_list_sound(r.skip(1));
        let (vs1, _r3) = parse_str_list(r.skip(1))->Some_0;
        assert(vs == seq![v] + vs1);
        assert(vs[0] == v);
        assert(vs.skip(1) =~= vs1);
        assert(vs.len() >= 2);
        assert(enc_str_list(vs) == enc_string(v) + seq![','] + enc_str_list(vs1));
        assert(r =~= seq![','] + r.skip(1));
        assert(s =~= (enc_string(v) + seq![',']) + r.skip(1)) by {
            assert(s =~= enc_string(v) + r);
        }
        assert(s =~= ((enc_string(v) + seq![',']) + enc_str_list(vs1)) + r2);
        assert(enc_str_list(vs) =~= (enc_string(v) + seq![',']) + enc_str_list(vs1));
    } else {
        assert(vs =~= seq![v]);
        assert(enc_str_list(vs) == enc_string(v));
    }
}

proof fn lemma_str_list_complete(vs: Seq<Seq<char>>, r: Seq<char>)
    requires
        vs.len() >= 1,
        r.len() == 0 || r[0] != ',',
    ensures
        parse_str_list(enc_str_list(vs) + r) == Some((vs, r)),
    decreases vs.len(),
{
    let s = enc_str_list(vs) + r;
    if vs.len() == 1 {
        lemma_string_complete(vs[0], r);
        assert(s == enc_string(vs[0]) + r);
        let (v, rr) = parse_string(s)->Some_0;
        assert(v == vs[0] && rr == r);
        assert(enc_string(vs[0]).len() >= 2) by {
            assert(enc_string(vs[0]).len() == 1 + esc_seq(vs[0]).len() + 1);
        }
        assert(rr.len() < s.len());
        assert(seq![v] =~= vs);
    } else {
        let v0 = vs[0];
        let tail = vs.skip(1);
        assert(enc_str_list(vs) == enc_string(v0) + seq![','] + enc_str_list(tail));
        lemma_str_list_complete(tail, r);
        let t2 = seq![','] + (enc_str_list(tail) + r);
        assert(s =~= enc_string(v0) + t2) by {
            assert(s =~= ((enc_string(v0) + seq![',']) + enc_str_list(tail)) + r);
        }
        lemma_string_complete(v0, t2);
        let (v, rr) = parse_string(s)->Some_0;
        assert(v == v0 && rr == t2);
        assert(enc_string(v0).len() >= 2) by {
            assert(enc_string(v0).len() == 1 + esc_seq(v0).len() + 1);
        }
        assert(rr.len() < s.len());
        assert(rr[0] == ',');
        assert(rr.skip(1) =~= enc_str_list(tail) + r);
        assert(seq![v0] + tail =~= vs);
    }
}

pub proof fn lemma_str_array_sound(s: Seq<char>)
    requires
        parse_str_array(s) is Some,
    ensures
        s == enc_str_array(parse_str_array(s)->Some_0.0) + parse_str_array(s)->Some_0.1,
{
    let (vs, r) = parse_str_array(s)->Some_0;
    if s.len() >= 2 && s[0] == '[' && s[1] == ']' {
        assert(enc_str_list(vs) == Seq::<char>::empty());
        assert(enc_str_array(vs) =~= seq!['[', ']']);
        assert(s =~= seq!['[', ']'] + s.skip(2));
    } else {
        let (vs1, r1) = parse_str_list(s.skip(1))->Some_0;
        lemma_str_list_sound(s.skip(1));
        assert(vs == vs1 && r == r1.skip(1));
        assert(r1 =~= seq![']'] + r);
        assert(s =~= seq!['['] + s.skip(1));
        assert(s =~= seq!['['] + (enc_str_list(vs) + (seq![']'] + r)));
        assert(s =~= (seq!['['] + enc_str_list(vs) + seq![']']) + r);
    }
}

pub proof fn lemma_str_array_complete(vs: Seq<Seq<char>>, r: Seq<char>)
    ensures
        parse_str_array(enc_str_array(vs) + r) == Some((vs, r)),
{
    let s = enc_str_array(vs) + r;
    if vs.len() == 0 {
        assert(enc_str_list(vs) == Seq::<char>::empty());
        assert(enc_str_array(vs) =~= seq!['[', ']']);
        assert(s.len() >= 2 && s[0] == '[' && s[1] == ']');
        assert(s.skip(2) =~= r);
    } else {
        let t2 = enc_str_list(vs) + (seq![']'] + r);
        assert(s =~= seq!['['] + t2) by {
            assert(s =~= ((seq!['['] + enc_str_list(vs)) + seq![']']) + r);
        }
        assert(s[0] == '[');
        assert(s.skip(1) =~= t2);
        lemma_str_list_complete(vs, seq![']'] + r);
        assert((seq![']'] + r)[0] == ']');
        let (vs1, r1) = parse_str_list(t2)->Some_0;
        assert(vs1 == vs && r1 == seq![']'] + r);
        assert(r1[0] == ']');
        assert(r1.skip(1) =~= r);
        assert(s.len() >= 2 && s[0] == '[');
        assert(s[1] != ']' || !(s.len() >= 2 && s[0] == '[' && s[1] == ']')) by {
            assert(enc_str_list(vs).len() >= 2) by {
                if vs.len() == 1 {
                    assert(enc_str_list(vs) == enc_string(vs[0]));
                    assert(enc_string(vs[0]).len() == 1 + esc_seq(vs[0]).len() + 1);
                } else {
                    assert(enc_str_list(vs) == enc_string(vs[0]) + seq![','] + enc_str_list(
                        vs.skip(1),
                    ));
                    assert(enc_string(vs[0]).len() == 1 + esc_seq(vs[0]).len() + 1);
                }
            }
            assert(s[1] == t2[0]);
            assert(t2[0] == enc_str_list(vs)[0]);
            assert(enc_str_list(vs)[0] == '"') by {
                if vs.len() == 1 {
                    assert(enc_str_list(vs) == enc_string(vs[0]));
                    assert(enc_string(vs[0])[0] == '"');
                } else {
                    assert(enc_string(vs[0])[0] == '"');
                }
            }
        }
    }
}

// ---------------------------------------------------------------------------
// LoRA entries and their arrays
// ---------------------------------------------------------------------------

/// Canonical form of one LoRA entry.
pub open spec fn enc_lora(l: LoRAV) -> Seq<char> {
    "{\"name\":"@ + enc_string(l.name) + ",\"modelName\":"@ + enc_string(l.model_name)
        + ",\"weight\":"@ + l.weight + ",\"modelId\":"@ + enc_opt_string(l.model_id) + "}"@
}

/// Parses one LoRA entry.
pub open spec fn parse_lora(s: Seq<char>) -> Option<(LoRAV, Seq<char>)> {
    match parse_lit(s, "{\"name\":"@) {
        None => None,
        Some(s1) => match parse_string(s1) {
            None => None,
            Some((name, s2)) => match parse_lit(s2, ",\"modelName\":"@) {
                None => None,
                Some(s3) => match parse_string(s3) {
                    None => None,
                    Some((model_name, s4)) => match parse_lit(s4, ",\"weight\":"@) {
                        None => None,
                        Some(s5) => match parse_num(s5) {
                            None => None,
                            Some((weight, s6)) => match parse_lit(s6, ",\"modelId\":"@) {
                                None => None,
                                Some(s7) => match parse_opt_string(s7) {
                                    None => None,
                                    Some((model_id, s8)) => match parse_lit(s8, "}"@) {
                                        None => None,
                                        Some(s9) => Some(
                                            (LoRAV { name, model_name, weight, model_id }, s9),
                                        ),
                                    },
                                },
                            },
                        },
                    },
                },
            },
        },
    }
}

pub proof fn lemma_lora_sound(s: Seq<char>)
    requires
        parse_lora(s) is Some,
    ensures
        s == enc_lora(parse_lora(s)->Some_0.0) + parse_lora(s)->Some_0.1,
        lora_v_wf(parse_lora(s)->Some_0.0),
{
    let (l, r) = parse_lora(s)->Some_0;
    let p1 = "{\"name\":"@;
    let p3 = ",\"modelName\":"@;
    let p5 = ",\"weight\":"@;
    let p7 = ",\"modelId\":"@;
    let p9 = "}"@;
    let s1 = parse_lit(s, p1)->Some_0;
    let (name, s2) = parse_string(s1)->Some_0;
    let s3 = parse_lit(s2, p3)->Some_0;
    let (model_name, s4) = parse_string(s3)->Some_0;
    let s5 = parse_lit(s4, p5)->Some_0;
    let (weight, s6) = parse_num(s5)->Some_0;
    let s7 = parse_lit(s6, p7)->Some_0;
    let (model_id, s8) = parse_opt_string(s7)->Some_0;
    let s9 = parse_lit(s8, p9)->Some_0;
    lemma_lit_sound(s, p1);
    lemma_string_sound(s1);
    lemma_lit_sound(s2, p3);
    lemma_string_sound(s3);
    lemma_lit_sound(s4, p5);
    lemma_num_sound(s5);
    lemma_lit_sound(s6, p7);
    lemma_opt_string_sound(s7);
    lemma_lit_sound(s8, p9);
    let e2 = enc_string(name);
    let e4 = enc_string(model_name);
    let e8 = enc_opt_string(model_id);
    lemma_chain(s, p1, s1, e2, s2);
    lemma_chain(s, p1 + e2, s2, p3, s3);
    lemma_chain(s, p1 + e2 + p3, s3, e4, s4);
    lemma_chain(s, p1 + e2 + p3 + e4, s4, p5, s5);
    lemma_chain(s, p1 + e2 + p3 + e4 + p5, s5, weight, s6);
    lemma_chain(s, p1 + e2 + p3 + e4 + p5 + weight, s6, p7, s7);
    lemma_chain(s, p1 + e2 + p3 + e4 + p5 + weight + p7, s7, e8, s8);
    lemma_chain(s, p1 + e2 + p3 + e4 + p5 + weight + p7 + e8, s8, p9, s9);
}

pub proof fn lemma_lora_complete(l: LoRAV, r: Seq<char>)
    requires
        lora_v_wf(l),
    ensures
        parse_lora(enc_lora(l) + r) == Some((l, r)),
{
    reveal_strlit("{\"name\":");
    reveal_strlit(",\"modelName\":");
    reveal_strlit(",\"weight\":");
    reveal_strlit(",\"modelId\":");
    reveal_strlit("}");
    let p1 = "{\"name\":"@;
    let p3 = ",\"modelName\":"@;
    let p5 = ",\"weight\":"@;
    let p7 = ",\"modelId\":"@;
    let p9 = "}"@;
    let e2 = enc_string(l.name);
    let e4 = enc_string(l.model_name);
    let e8 = enc_opt_string(l.model_id);
    let s = enc_lora(l) + r;
    let t9 = p9 + r;
    let t8 = e8 + t9;
    let t7 = p7 + t8;
    let t6 = l.weight + t7;
    let t5 = p5 + t6;
    let t4 = e4 + t5;
    let t3 = p3 + t4;
    let t2 = e2 + t3;
    lemma_split(p1 + e2 + p3 + e4 + p5 + l.weight + p7 + e8, p9, r);
    lemma_split(p1 + e2 + p3 + e4 + p5 + l.weight + p7, e8, t9);
    lemma_split(p1 + e2 + p3 + e4 + p5 + l.weight, p7, t8);
    lemma_split(p1 + e2 + p3 + e4 + p5, l.weight, t7);
    lemma_split(p1 + e2 + p3 + e4, p5, t6);
    lemma_split(p1 + e2 + p3, e4, t5);
    lemma_split(p1 + e2, p3, t4);
    lemma_split(p1, e2, t3);
    assert(s == p1 + t2);
    lemma_lit_complete(p1, t2);
    lemma_string_complete(l.name, t3);
    lemma_lit_complete(p3, t4);
    lemma_string_complete(l.model_name, t5);
    lemma_lit_complete(p5, t6);
    assert(t7[0] == ',');
    assert(!is_digit(t7[0]) && t7[0] != '.' && t7[0] != 'e' && t7[0] != 'E');
    lemma_num_complete(l.weight, t7);
    lemma_lit_complete(p7, t8);
    lemma_opt_string_complete(l.model_id, t9);
    lemma_lit_complete(p9, r);
    assert(parse_lora(s) == Some((LoRAV { name: l.name, model_name: l.model_name, weight: l.weight, model_id: l.model_id }, r)));
    assert(l == LoRAV { name: l.name, model_name: l.model_name, weight: l.weight, model_id: l.model_id });
}

/// Comma-separated LoRA entries, without the surrounding brackets.
pub open spec fn enc_lora_list(ls: Seq<LoRAV>) -> Seq<char>
    decreases ls.len(),
{
    if ls.len() == 0 {
        Seq::empty()
    } else if ls.len() == 1 {
        enc_lora(ls[0])
    } else {
        enc_lora(ls[0]) + seq![','] + enc_lora_list(ls.skip(1))
    }
}

/// A JSON array of LoRA entries.
pub open spec fn enc_lora_array(ls: Seq<LoRAV>) -> Seq<char> {
    seq!['['] + enc_lora_list(ls) + seq![']']
}

/// Parses one or more comma-separated LoRA entries.
pub open spec fn parse_lora_list(s: Seq<char>) -> Option<(Seq<LoRAV>, Seq<char>)>
    decreases s.len(),
{
    match parse_lora(s) {
        None => None,
        Some((l, r)) => {
            if r.len() >= s.len() {
                None
            } else if r.len() > 0 && r[0] == ',' {
                match parse_lora_list(r.skip(1)) {
                    None => None,
                    Some((ls, r2)) => Some((seq![l] + ls, r2)),
                }
            } else {
                Some((seq![l], r))
            }
        },
    }
}

/// Parses a JSON array of LoRA entries.
pub open spec fn parse_lora_array(s: Seq<char>) -> Option<(Seq<LoRAV>, Seq<char>)> {
    if s.len() >= 2 && s[0] == '[' && s[1] == ']' {
        Some((Seq::empty(), s.skip(2)))
    } else if s.len() >= 1 && s[0] == '[' {
        match parse_lora_list(s.skip(1)) {
            None => None,
            Some((ls, r)) => {
                if r.len() > 0 && r[0] == ']' {
                    Some((ls, r.skip(1)))
                } else {
                    None
                }
            },
        }
    } else {
        None
    }
}

#[verifier::rlimit(60)]
proof fn lemma_lora_list_sound(s: Seq<char>)
    requires
        parse_lora_list(s) is Some,
    ensures
        s == enc_lora_list(parse_lora_list(s)->Some_0.0) + parse_lora_list(s)->Some_0.1,
        parse_lora_list(s)->Some_0.0.len() >= 1,
        forall|i: int|
            0 <= i < parse_lora_list(s)->Some_0.0.len() ==> lora_v_wf(
                #[trigger] parse_lora_list(s)->Some_0.0[i],
            ),
    decreases s.len(),
{
    let (ls, r2) = parse_lora_list(s)->Some_0;
    let (l, r) = parse_lora(s)->Some_0;
    lemma_lora_sound(s);
    if r.len() > 0 && r[0] == ',' {
        lemma_lora_list_sound(r.skip(1));
        let (ls1, _r3) = parse_lora_list(r.skip(1))->Some_0;
        assert(ls == seq![l] + ls1);
        assert(ls[0] == l);
        assert(ls.skip(1) =~= ls1);
        assert(ls.len() >= 2);
        assert(forall|i: int| 1 <= i < ls.len() ==> ls[i] == ls1[i - 1]);
        assert(enc_lora_list(ls) == enc_lora(l) + seq![','] + enc_lora_list(ls1));
        assert(r =~= seq![','] + r.skip(1));
        assert(s =~= (enc_lora(l) + seq![',']) + r.skip(1)) by {
            assert(s =~= enc_lora(l) + r);
        }
        assert(s =~= ((enc_lora(l) + seq![',']) + enc_lora_list(ls1)) + r2);
        assert(enc_lora_list(ls) =~= (enc_lora(l) + seq![',']) + enc_lora_list(ls1));
    } else {
        assert(ls =~= seq![l]);
        assert(enc_lora_list(ls) == enc_lora(l));
    }
}

/// The canonical form of a LoRA entry is at least one character long and
/// starts with a brace.
proof fn lemma_enc_lora_shape(l: LoRAV)
    ensures
        enc_lora(l).len() >= 8,
        enc_lora(l)[0] == '{',
{
    reveal_strlit("{\"name\":");
    let p1 = "{\"name\":"@;
    assert(enc_lora(l)[0] == p1[0]);
}

#[verifier::rlimit(60)]
proof fn lemma_lora_list_complete(ls: Seq<LoRAV>, r: Seq<char>)
    requires
        ls.len() >= 1,
        forall|i: int| 0 <= i < ls.len() ==> lora_v_wf(#[trigger] ls[i]),
        r.len() == 0 || r[0] != ',',
    ensures
        parse_lora_list(enc_lora_list(ls) + r) == Some((ls, r)),
    decreases ls.len(),
{
    let s = enc_lora_list(ls) + r;
    if ls.len() == 1 {
        lemma_lora_complete(ls[0], r);
        assert(s == enc_lora(ls[0]) + r);
        let (l, rr) = parse_lora(s)->Some_0;
        assert(l == ls[0] && rr == r);
        lemma_enc_lora_shape(ls[0]);
        assert(rr.len() < s.len());
        assert(seq![l] =~= ls);
    } else {
        let l0 = ls[0];
        let tail = ls.skip(1);
        assert(forall|i: int| 0 <= i < tail.len() ==> tail[i] == ls[i + 1]);
        assert(enc_lora_list(ls) == enc_lora(l0) + seq![','] + enc_lora_list(tail));
        lemma_lora_list_complete(tail, r);
        let t2 = seq![','] + (enc_lora_list(tail) + r);
        assert(s =~= enc_lora(l0) + t2) by {
            assert(s =~= ((enc_lora(l0) + seq![',']) + enc_lora_list(tail)) + r);
        }
        lemma_lora_complete(l0, t2);
        let (l, rr) = parse_lora(s)->Some_0;
        assert(l == l0 && rr == t2);
        lemma_enc_lora_shape(l0);
        assert(rr.len() < s.len());
        assert(rr[0] == ',');
        assert(rr.skip(1) =~= enc_lora_list(tail) + r);
        assert(seq![l0] + tail =~= ls);
    }
}

pub proof fn lemma_lora_array_sound(s: Seq<char>)
    requires
        parse_lora_array(s) is Some,
    ensures
        s == enc_lora_array(parse_lora_array(s)->Some_0.0) + parse_lora_array(s)->Some_0.1,
        forall|i: int|
            0 <= i < parse_lora_array(s)->Some_0.0.len() ==> lora_v_wf(
                #[trigger] parse_lora_array(s)->Some_0.0[i],
            ),
{
    let (ls, r) = parse_lora_array(s)->Some_0;
    if s.len() >= 2 && s[0] == '[' && s[1] == ']' {
        assert(enc_lora_list(ls) == Seq::<char>::empty());
        assert(enc_lora_array(ls) =~= seq!['[', ']']);
        assert(s =~= seq!['[', ']'] + s.skip(2));
    } else {
        let (ls1, r1) = parse_lora_list(s.skip(1))->Some_0;
        lemma_lora_list_sound(s.skip(1));
        assert(ls == ls1 && r == r1.skip(1));
        assert(r1 =~= seq![']'] + r);
        assert(s =~= seq!['['] + s.skip(1));
        assert(s =~= seq!['['] + (enc_lora_list(ls) + (seq![']'] + r)));
        assert(s =~= (seq!['['] + enc_lora_list(ls) + seq![']']) + r);
    }
}

#[verifier::rlimit(60)]
pub proof fn lemma_lora_array_complete(ls: Seq<LoRAV>, r: Seq<char>)
    requires
        forall|i: int| 0 <= i < ls.len() ==> lora_v_wf(#[trigger] ls[i]),
    ensures
        parse_lora_array(enc_lora_array(ls) + r) == Some((ls, r)),
{
    let s = enc_lora_array(ls) + r;
    if ls.len() == 0 {
        assert(enc_lora_list(ls) == Seq::<char>::empty());
        assert(enc_lora_array(ls) =~= seq!['[', ']']);
        assert(s.len() >= 2 && s[0] == '[' && s[1] == ']');
        assert(s.skip(2) =~= r);
    } else {
        let t2 = enc_lora_list(ls) + (seq![']'] + r);
        assert(s =~= seq!['['] + t2) by {
            assert(s =~= ((seq!['['] + enc_lora_list(ls)) + seq![']']) + r);
        }
        assert(s[0] == '[');
        assert(s.skip(1) =~= t2);
        lemma_lora_list_complete(ls, seq![']'] + r);
        assert((seq![']'] + r)[0] == ']');
        let (ls1, r1) = parse_lora_list(t2)->Some_0;
        assert(ls1 == ls && r1 == seq![']'] + r);
        assert(r1[0] == ']');
        assert(r1.skip(1) =~= r);
        assert(s.len() >= 2 && s[0] == '[');
        assert(!(s[1] == ']')) by {
            lemma_enc_lora_shape(ls[0]);
            assert(enc_lora_list(ls)[0] == '{') by {
                if ls.len() == 1 {
                    assert(enc_lora_list(ls) == enc_lora(ls[0]));
                } else {
                    assert(enc_lora_list(ls) == enc_lora(ls[0]) + seq![','] + enc_lora_list(
                        ls.skip(1),
                    ));
                }
            }
            assert(s[1] == t2[0]);
            assert(t2[0] == enc_lora_list(ls)[0]);
        }
    }
}

// ---------------------------------------------------------------------------
// Model configuration
// ---------------------------------------------------------------------------

/// Canonical form of a model configuration.
pub open spec fn enc_model(m: ModelConfigV) -> Seq<char> {
    "{\"baseModel\":"@ + enc_string(m.base_model) + ",\"baseModelId\":"@ + enc_opt_string(
        m.base_model_id,
    ) + ",\"refinerModel\":"@ + enc_string(m.refiner_model) + ",\"refinerModelId\":"@
        + enc_opt_string(m.refiner_model_id) + ",\"refinerSwitch\":"@ + m.refiner_switch
        + ",\"loras\":"@ + enc_lora_array(m.loras) + "}"@
}

/// Parses a model configuration.
pub open spec fn parse_model(s: Seq<char>) -> Option<(ModelConfigV, Seq<char>)> {
    match parse_lit(s, "{\"baseModel\":"@) {
        None => None,
        Some(s1) => match parse_string(s1) {
            None => None,
            Some((base_model, s2)) => match parse_lit(s2, ",\"baseModelId\":"@) {
                None => None,
                Some(s3) => match parse_opt_string(s3) {
                    None => None,
                    Some((base_model_id, s4)) => match parse_lit(s4, ",\"refinerModel\":"@) {
                        None => None,
                        Some(s5) => match parse_string(s5) {
                            None => None,
                            Some((refiner_model, s6)) => match parse_lit(
                                s6,
                                ",\"refinerModelId\":"@,
                            ) {
                                None => None,
                                Some(s7) => match parse_opt_string(s7) {
                                    None => None,
                                    Some((refiner_model_id, s8)) => match parse_lit(
                                        s8,
                                        ",\"refinerSwitch\":"@,
                                    ) {
                                        None => None,
                                        Some(s9) => match parse_num(s9) {
                                            None => None,
                                            Some((refiner_switch, s10)) => match parse_lit(
                                                s10,
                                                ",\"loras\":"@,
                                            ) {
                                                None => None,
                                                Some(s11) => match parse_lora_array(s11) {
                                                    None => None,
                                                    Some((loras, s12)) => match parse_lit(
                                                        s12,
                                                        "}"@,
                                                    ) {
                                                        None => None,
                                                        Some(s13) => Some(
                                                            (
                                                                ModelConfigV {
                                                                    base_model,
                                                                    base_model_id,
                                                                    refiner_model,
                                                                    refiner_model_id,
                                                                    refiner_switch,
                                                                    loras,
                                                                },
                                                                s13,
                                                            ),
                                                        ),
                                                    },
                                                },
                                            },
                                        },
                                    },
                                },
                            },
                        },
                    },
                },
            },
        },
    }
}

pub proof fn lemma_model_sound(s: Seq<char>)
    requires
        parse_model(s) is Some,
    ensures
        s == enc_model(parse_model(s)->Some_0.0) + parse_model(s)->Some_0.1,
        model_v_wf(parse_model(s)->Some_0.0),
{
    let (m, r) = parse_model(s)->Some_0;
    let p1 = "{\"baseModel\":"@;
    let p3 = ",\"baseModelId\":"@;
    let p5 = ",\"refinerModel\":"@;
    let p7 = ",\"refinerModelId\":"@;
    let p9 = ",\"refinerSwitch\":"@;
    let p11 = ",\"loras\":"@;
    let p13 = "}"@;
    let s1 = parse_lit(s, p1)->Some_0;
    let (base_model, s2) = parse_string(s1)->Some_0;
    let s3 = parse_lit(s2, p3)->Some_0;
    let (base_model_id, s4) = parse_opt_string(s3)->Some_0;
    let s5 = parse_lit(s4, p5)->Some_0;
    let (refiner_model, s6) = parse_string(s5)->Some_0;
    let s7 = parse_lit(s6, p7)->Some_0;
    let (refiner_model_id, s8) = parse_opt_string(s7)->Some_0;
    let s9 = parse_lit(s8, p9)->Some_0;
    let (refiner_switch, s10) = parse_num(s9)->Some_0;
    let s11 = parse_lit(s10, p11)->Some_0;
    let (loras, s12) = parse_lora_array(s11)->Some_0;
    let s13 = parse_lit(s12, p13)->Some_0;
    lemma_lit_sound(s, p1);
    lemma_string_sound(s1);
    lemma_lit_sound(s2, p3);
    lemma_opt_string_sound(s3);
    lemma_lit_sound(s4, p5);
    lemma_string_sound(s5);
    lemma_lit_sound(s6, p7);
    lemma_opt_string_sound(s7);
    lemma_lit_sound(s8, p9);
    lemma_num_sound(s9);
    lemma_lit_sound(s10, p11);
    lemma_lora_array_sound(s11);
    lemma_lit_sound(s12, p13);
    let e2 = enc_string(base_model);
    let e4 = enc_opt_string(base_model_id);
    let e6 = enc_string(refiner_model);
    let e8 = enc_opt_string(refiner_model_id);
    let e12 = enc_lora_array(loras);
    lemma_chain(s, p1, s1, e2, s2);
    lemma_chain(s, p1 + e2, s2, p3, s3);
    lemma_chain(s, p1 + e2 + p3, s3, e4, s4);
    lemma_chain(s, p1 + e2 + p3 + e4, s4, p5, s5);
    lemma_chain(s, p1 + e2 + p3 + e4 + p5, s5, e6, s6);
    lemma_chain(s, p1 + e2 + p3 + e4 + p5 + e6, s6, p7, s7);
    lemma_chain(s, p1 + e2 + p3 + e4 + p5 + e6 + p7, s7, e8, s8);
    lemma_chain(s, p1 + e2 + p3 + e4 + p5 + e6 + p7 + e8, s8, p9, s9);
    lemma_chain(s, p1 + e2 + p3 + e4 + p5 + e6 + p7 + e8 + p9, s9, refiner_switch, s10);
    lemma_chain(s, p1 + e2 + p3 + e4 + p5 + e6 + p7 + e8 + p9 + refiner_switch, s10, p11, s11);
    lemma_chain(
        s,
        p1 + e2 + p3 + e4 + p5 + e6 + p7 + e8 + p9 + refiner_switch + p11,
        s11,
        e12,
        s12,
    );
    lemma_chain(
        s,
        p1 + e2 + p3 + e4 + p5 + e6 + p7 + e8 + p9 + refiner_switch + p11 + e12,
        s12,
        p13,
        s13,
    );
}

#[verifier::rlimit(60)]
pub proof fn lemma_model_complete(m: ModelConfigV, r: Seq<char>)
    requires
        model_v_wf(m),
    ensures
        parse_model(enc_model(m) + r) == Some((m, r)),
{
    reveal_strlit("{\"baseModel\":");
    reveal_strlit(",\"baseModelId\":");
    reveal_strlit(",\"refinerModel\":");
    reveal_strlit(",\"refinerModelId\":");
    reveal_strlit(",\"refinerSwitch\":");
    reveal_strlit(",\"loras\":");
    reveal_strlit("}");
    let p1 = "{\"baseModel\":"@;
    let p3 = ",\"baseModelId\":"@;
    let p5 = ",\"refinerModel\":"@;
    let p7 = ",\"refinerModelId\":"@;
    let p9 = ",\"refinerSwitch\":"@;
    let p11 = ",\"loras\":"@;
    let p13 = "}"@;
    let e2 = enc_string(m.base_model);
    let e4 = enc_opt_string(m.base_model_id);
    let e6 = enc_string(m.refiner_model);
    let e8 = enc_opt_string(m.refiner_model_id);
    let e10 = m.refiner_switch;
    let e12 = enc_lora_array(m.loras);
    let s = enc_model(m) + r;
    let t13 = p13 + r;
    let t12 = e12 + t13;
    let t11 = p11 + t12;
    let t10 = e10 + t11;
    let t9 = p9 + t10;
    let t8 = e8 + t9;
    let t7 = p7 + t8;
    let t6 = e6 + t7;
    let t5 = p5 + t6;
    let t4 = e4 + t5;
    let t3 = p3 + t4;
    let t2 = e2 + t3;
    lemma_split(p1 + e2 + p3 + e4 + p5 + e6 + p7 + e8 + p9 + e10 + p11 + e12, p13, r);
    lemma_split(p1 + e2 + p3 + e4 + p5 + e6 + p7 + e8 + p9 + e10 + p11, e12, t13);
    lemma_split(p1 + e2 + p3 + e4 + p5 + e6 + p7 + e8 + p9 + e10, p11, t12);
    lemma_split(p1 + e2 + p3 + e4 + p5 + e6 + p7 + e8 + p9, e10, t11);
    lemma_split(p1 + e2 + p3 + e4 + p5 + e6 + p7 + e8, p9, t10);
    lemma_split(p1 + e2 + p3 + e4 + p5 + e6 + p7, e8, t9);
    lemma_split(p1 + e2 + p3 + e4 + p5 + e6, p7, t8);
    lemma_split(p1 + e2 + p3 + e4 + p5, e6, t7);
    lemma_split(p1 + e2 + p3 + e4, p5, t6);
    lemma_split(p1 + e2 + p3, e4, t5);
    lemma_split(p1 + e2, p3, t4);
    lemma_split(p1, e2, t3);
    assert(s == p1 + t2);
    lemma_lit_complete(p1, t2);
    lemma_string_complete(m.base_model, t3);
    lemma_lit_complete(p3, t4);
    lemma_opt_string_complete(m.base_model_id, t5);
    lemma_lit_complete(p5, t6);
    lemma_string_complete(m.refiner_model, t7);
    lemma_lit_complete(p7, t8);
    lemma_opt_string_complete(m.refiner_model_id, t9);
    lemma_lit_complete(p9, t10);
    assert(t11[0] == ',');
    assert(!is_digit(t11[0]) && t11[0] != '.' && t11[0] != 'e' && t11[0] != 'E');
    lemma_num_complete(m.refiner_switch, t11);
    lemma_lit_complete(p11, t12);
    lemma_lora_array_complete(m.loras, t13);
    lemma_lit_complete(p13, r);
    assert(m == ModelConfigV {
        base_model: m.base_model,
        base_model_id: m.base_model_id,
        refiner_model: m.refiner_model,
        refiner_model_id: m.refiner_model_id,
        refiner_switch: m.refiner_switch,
        loras: m.loras,
    });
}

// ---------------------------------------------------------------------------
// Sampling configuration
// ---------------------------------------------------------------------------

/// Canonical form of a sampling configuration.
pub open spec fn enc_sampling(c: SamplingConfigV) -> Seq<char> {
    "{\"cfgScale\":"@ + c.cfg_scale + ",\"sampleSharpness\":"@ + c.sample_sharpness
        + ",\"sampler\":"@ + enc_string(c.sampler) + ",\"scheduler\":"@ + enc_string(c.scheduler)
        + ",\"performance\":"@ + enc_string(c.performance) + ",\"steps\":"@ + enc_int(c.steps)
        + "}"@
}

/// Parses a sampling configuration.
pub open spec fn parse_sampling(s: Seq<char>) -> Option<(SamplingConfigV, Seq<char>)> {
    match parse_lit(s, "{\"cfgScale\":"@) {
        None => None,
        Some(s1) => match parse_num(s1) {
            None => None,
            Some((cfg_scale, s2)) => match parse_lit(s2, ",\"sampleSharpness\":"@) {
                None => None,
                Some(s3) => match parse_num(s3) {
                    None => None,
                    Some((sample_sharpness, s4)) => match parse_lit(s4, ",\"sampler\":"@) {
                        None => None,
                        Some(s5) => match parse_string(s5) {
                            None => None,
                            Some((sampler, s6)) => match parse_lit(s6, ",\"scheduler\":"@) {
                                None => None,
                                Some(s7) => match parse_string(s7) {
                                    None => None,
                                    Some((scheduler, s8)) => match parse_lit(
                                        s8,
                                        ",\"performance\":"@,
                                    ) {
                                        None => None,
                                        Some(s9) => match parse_string(s9) {
                                            None => None,
                                            Some((performance, s10)) => match parse_lit(
                                                s10,
                                                ",\"steps\":"@,
                                            ) {
                                                None => None,
                                                Some(s11) => match parse_int(s11) {
                                                    None => None,
                                                    Some((steps, s12)) => match parse_lit(
                                                        s12,
                                                        "}"@,
                                                    ) {
                                                        None => None,
                                                        Some(s13) => Some(
                                                            (
                                                                SamplingConfigV {
                                                                    cfg_scale,
                                                                    sample_sharpness,
                                                                    sampler,
                                                                    scheduler,
                                                                    performance,
                                                                    steps,
                                                                },
                                                                s13,
                                                            ),
                                                        ),
                                                    },
                                                },
                                            },
                                        },
                                    },
                                },
                            },
                        },
                    },
                },
            },
        },
    }
}

pub proof fn lemma_sampling_sound(s: Seq<char>)
    requires
        parse_sampling(s) is Some,
    ensures
        s == enc_sampling(parse_sampling(s)->Some_0.0) + parse_sampling(s)->Some_0.1,
        sampling_v_wf(parse_sampling(s)->Some_0.0),
{
    let (c, r) = parse_sampling(s)->Some_0;
    let p1 = "{\"cfgScale\":"@;
    let p3 = ",\"sampleSharpness\":"@;
    let p5 = ",\"sampler\":"@;
    let p7 = ",\"scheduler\":"@;
    let p9 = ",\"performance\":"@;
    let p11 = ",\"steps\":"@;
    let p13 = "}"@;
    let s1 = parse_lit(s, p1)->Some_0;
    let (cfg_scale, s2) = parse_num(s1)->Some_0;
    let s3 = parse_lit(s2, p3)->Some_0;
    let (sample_sharpness, s4) = parse_num(s3)->Some_0;
    let s5 = parse_lit(s4, p5)->Some_0;
    let (sampler, s6) = parse_string(s5)->Some_0;
    let s7 = parse_lit(s6, p7)->Some_0;
    let (scheduler, s8) = parse_string(s7)->Some_0;
    let s9 = parse_lit(s8, p9)->Some_0;
    let (performance, s10) = parse_string(s9)->Some_0;
    let s11 = parse_lit(s10, p11)->Some_0;
    let (steps, s12) = parse_int(s11)->Some_0;
    let s13 = parse_lit(s12, p13)->Some_0;
    lemma_lit_sound(s, p1);
    lemma_num_sound(s1);
    lemma_lit_sound(s2, p3);
    lemma_num_sound(s3);
    lemma_lit_sound(s4, p5);
    lemma_string_sound(s5);
    lemma_lit_sound(s6, p7);
    lemma_string_sound(s7);
    lemma_lit_sound(s8, p9);
    lemma_string_sound(s9);
    lemma_lit_sound(s10, p11);
    lemma_int_sound(s11);
    lemma_lit_sound(s12, p13);
    let e2 = cfg_scale;
    let e4 = sample_sharpness;
    let e6 = enc_string(sampler);
    let e8 = enc_string(scheduler);
    let e10 = enc_string(performance);
    let e12 = enc_int(steps);
    lemma_chain(s, p1, s1, e2, s2);
    lemma_chain(s, p1 + e2, s2, p3, s3);
    lemma_chain(s, p1 + e2 + p3, s3, e4, s4);
    lemma_chain(s, p1 + e2 + p3 + e4, s4, p5, s5);
    lemma_chain(s, p1 + e2 + p3 + e4 + p5, s5, e6, s6);
    lemma_chain(s, p1 + e2 + p3 + e4 + p5 + e6, s6, p7, s7);
    lemma_chain(s, p1 + e2 + p3 + e4 + p5 + e6 + p7, s7, e8, s8);
    lemma_chain(s, p1 + e2 + p3 + e4 + p5 + e6 + p7 + e8, s8, p9, s9);
    lemma_chain(s, p1 + e2 + p3 + e4 + p5 + e6 + p7 + e8 + p9, s9, e10, s10);
    lemma_chain(s, p1 + e2 + p3 + e4 + p5 + e6 + p7 + e8 + p9 + e10, s10, p11, s11);
    lemma_chain(s, p1 + e2 + p3 + e4 + p5 + e6 + p7 + e8 + p9 + e10 + p11, s11, e12, s12);
    lemma_chain(s, p1 + e2 + p3 + e4 + p5 + e6 + p7 + e8 + p9 + e10 + p11 + e12, s12, p13, s13);
}

#[verifier::rlimit(60)]
pub proof fn lemma_sampling_complete(c: SamplingConfigV, r: Seq<char>)
    requires
        sampling_v_wf(c),
    ensures
        parse_sampling(enc_sampling(c) + r) == Some((c, r)),
{
    reveal_strlit("{\"cfgScale\":");
    reveal_strlit(",\"sampleSharpness\":");
    reveal_strlit(",\"sampler\":");
    reveal_strlit(",\"scheduler\":");
    reveal_strlit(",\"performance\":");
    reveal_strlit(",\"steps\":");
    reveal_strlit("}");
    let p1 = "{\"cfgScale\":"@;
    let p3 = ",\"sampleSharpness\":"@;
    let p5 = ",\"sampler\":"@;
    let p7 = ",\"scheduler\":"@;
    let p9 = ",\"performance\":"@;
    let p11 = ",\"steps\":"@;
    let p13 = "}"@;
    let e2 = c.cfg_scale;
    let e4 = c.sample_sharpness;
    let e6 = enc_string(c.sampler);
    let e8 = enc_string(c.scheduler);
    let e10 = enc_string(c.performance);
    let e12 = enc_int(c.steps);
    let s = enc_sampling(c) + r;
    let t13 = p13 + r;
    let t12 = e12 + t13;
    let t11 = p11 + t12;
    let t10 = e10 + t11;
    let t9 = p9 + t10;
    let t8 = e8 + t9;
    let t7 = p7 + t8;
    let t6 = e6 + t7;
    let t5 = p5 + t6;
    let t4 = e4 + t5;
    let t3 = p3 + t4;
    let t2 = e2 + t3;
    lemma_split(p1 + e2 + p3 + e4 + p5 + e6 + p7 + e8 + p9 + e10 + p11 + e12, p13, r);
    lemma_split(p1 + e2 + p3 + e4 + p5 + e6 + p7 + e8 + p9 + e10 + p11, e12, t13);
    lemma_split(p1 + e2 + p3 + e4 + p5 + e6 + p7 + e8 + p9 + e10, p11, t12);
    lemma_split(p1 + e2 + p3 + e4 + p5 + e6 + p7 + e8 + p9, e10, t11);
    lemma_split(p1 + e2 + p3 + e4 + p5 + e6 + p7 + e8, p9, t10);
    lemma_split(p1 + e2 + p3 + e4 + p5 + e6 + p7, e8, t9);
    lemma_split(p1 + e2 + p3 + e4 + p5 + e6, p7, t8);
    lemma_split(p1 + e2 + p3 + e4 + p5, e6, t7);
    lemma_split(p1 + e2 + p3 + e4, p5, t6);
    lemma_split(p1 + e2 + p3, e4, t5);
    lemma_split(p1 + e2, p3, t4);
    lemma_split(p1, e2, t3);
    assert(s == p1 + t2);
    lemma_lit_complete(p1, t2);
    assert(t3[0] == ',');
    assert(!is_digit(t3[0]) && t3[0] != '.' && t3[0] != 'e' && t3[0] != 'E');
    lemma_num_complete(c.cfg_scale, t3);
    lemma_lit_complete(p3, t4);
    assert(t5[0] == ',');
    assert(!is_digit(t5[0]) && t5[0] != '.' && t5[0] != 'e' && t5[0] != 'E');
    lemma_num_complete(c.sample_sharpness, t5);
    lemma_lit_complete(p5, t6);
    lemma_string_complete(c.sampler, t7);
    lemma_lit_complete(p7, t8);
    lemma_string_complete(c.scheduler, t9);
    lemma_lit_complete(p9, t10);
    lemma_string_complete(c.performance, t11);
    lemma_lit_complete(p11, t12);
    assert(t13[0] == '}');
    assert(!is_digit(t13[0]));
    lemma_int_complete(c.steps, t13);
    lemma_lit_complete(p13, r);
    assert(c == SamplingConfigV {
        cfg_scale: c.cfg_scale,
        sample_sharpness: c.sample_sharpness,
        sampler: c.sampler,
        scheduler: c.scheduler,
        performance: c.performance,
        steps: c.steps,
    });
}

// ---------------------------------------------------------------------------
// Prompt configuration
// ---------------------------------------------------------------------------

/// Canonical form of a prompt configuration.
pub open spec fn enc_prompt(c: PromptConfigV) -> Seq<char> {
    "{\"positive\":"@ + enc_string(c.positive) + ",\"negative\":"@ + enc_string(c.negative)
        + ",\"styles\":"@ + enc_str_array(c.styles) + "}"@
}

/// Parses a prompt configuration.
pub open spec fn parse_prompt(s: Seq<char>) -> Option<(PromptConfigV, Seq<char>)> {
    match parse_lit(s, "{\"positive\":"@) {
        None => None,
        Some(s1) => match parse_string(s1) {
            None => None,
            Some((positive, s2)) => match parse_lit(s2, ",\"negative\":"@) {
                None => None,
                Some(s3) => match parse_string(s3) {
                    None => None,
                    Some((negative, s4)) => match parse_lit(s4, ",\"styles\":"@) {
                        None => None,
                        Some(s5) => match parse_str_array(s5) {
                            None => None,
                            Some((styles, s6)) => match parse_lit(s6, "}"@) {
                                None => None,
                                Some(s7) => Some((PromptConfigV { positive, negative, styles }, s7)),
                            },
                        },
                    },
                },
            },
        },
    }
}

pub proof fn lemma_prompt_sound(s: Seq<char>)
    requires
        parse_prompt(s) is Some,
    ensures
        s == enc_prompt(parse_prompt(s)->Some_0.0) + parse_prompt(s)->Some_0.1,
{
    let (c, r) = parse_prompt(s)->Some_0;
    let p1 = "{\"positive\":"@;
    let p3 = ",\"negative\":"@;
    let p5 = ",\"styles\":"@;
    let p7 = "}"@;
    let s1 = parse_lit(s, p1)->Some_0;
    let (positive, s2) = parse_string(s1)->Some_0;
    let s3 = parse_lit(s2, p3)->Some_0;
    let (negative, s4) = parse_string(s3)->Some_0;
    let s5 = parse_lit(s4, p5)->Some_0;
    let (styles, s6) = parse_str_array(s5)->Some_0;
    let s7 = parse_lit(s6, p7)->Some_0;
    lemma_lit_sound(s, p1);
    lemma_string_sound(s1);
    lemma_lit_sound(s2, p3);
    lemma_string_sound(s3);
    lemma_lit_sound(s4, p5);
    lemma_str_array_sound(s5);
    lemma_lit_sound(s6, p7);
    let e2 = enc_string(positive);
    let e4 = enc_string(negative);
    let e6 = enc_str_array(styles);
    lemma_chain(s, p1, s1, e2, s2);
    lemma_chain(s, p1 + e2, s2, p3, s3);
    lemma_chain(s, p1 + e2 + p3, s3, e4, s4);
    lemma_chain(s, p1 + e2 + p3 + e4, s4, p5, s5);
    lemma_chain(s, p1 + e2 + p3 + e4 + p5, s5, e6, s6);
    lemma_chain(s, p1 + e2 + p3 + e4 + p5 + e6, s6, p7, s7);
}

pub proof fn lemma_prompt_complete(c: PromptConfigV, r: Seq<char>)
    ensures
        parse_prompt(enc_prompt(c) + r) == Some((c, r)),
{
    reveal_strlit("{\"positive\":");
    reveal_strlit(",\"negative\":");
    reveal_strlit(",\"styles\":");
    reveal_strlit("}");
    let p1 = "{\"positive\":"@;
    let p3 = ",\"negative\":"@;
    let p5 = ",\"styles\":"@;
    let p7 = "}"@;
    let e2 = enc_string(c.positive);
    let e4 = enc_string(c.negative);
    let e6 = enc_str_array(c.styles);
    let s = enc_prompt(c) + r;
    let t7 = p7 + r;
    let t6 = e6 + t7;
    let t5 = p5 + t6;
    let t4 = e4 + t5;
    let t3 = p3 + t4;
    let t2 = e2 + t3;
    lemma_split(p1 + e2 + p3 + e4 + p5 + e6, p7, r);
    lemma_split(p1 + e2 + p3 + e4 + p5, e6, t7);
    lemma_split(p1 + e2 + p3 + e4, p5, t6);
    lemma_split(p1 + e2 + p3, e4, t5);
    lemma_split(p1 + e2, p3, t4);
    lemma_split(p1, e2, t3);
    assert(s == p1 + t2);
    lemma_lit_complete(p1, t2);
    lemma_string_complete(c.positive, t3);
    lemma_lit_complete(p3, t4);
    lemma_string_complete(c.negative, t5);
    lemma_lit_complete(p5, t6);
    lemma_str_array_complete(c.styles, t7);
    lemma_lit_complete(p7, r);
    assert(c == PromptConfigV { positive: c.positive, negative: c.negative, styles: c.styles });
}

// ---------------------------------------------------------------------------
// Image configuration
// ---------------------------------------------------------------------------

/// Canonical form of an image configuration.
pub open spec fn enc_image(c: ImageConfigV) -> Seq<char> {
    "{\"aspectRatio\":"@ + enc_string(c.aspect_ratio) + ",\"imageCount\":"@ + enc_int(
        c.image_count,
    ) + "}"@
}

/// Parses an image configuration.
pub open spec fn parse_image(s: Seq<char>) -> Option<(ImageConfigV, Seq<char>)> {
    match parse_lit(s, "{\"aspectRatio\":"@) {
        None => None,
        Some(s1) => match parse_string(s1) {
            None => None,
            Some((aspect_ratio, s2)) => match parse_lit(s2, ",\"imageCount\":"@) {
                None => None,
                Some(s3) => match parse_int(s3) {
                    None => None,
                    Some((image_count, s4)) => match parse_lit(s4, "}"@) {
                        None => None,
                        Some(s5) => Some((ImageConfigV { aspect_ratio, image_count }, s5)),
                    },
                },
            },
        },
    }
}

pub proof fn lemma_image_sound(s: Seq<char>)
    requires
        parse_image(s) is Some,
    ensures
        s == enc_image(parse_image(s)->Some_0.0) + parse_image(s)->Some_0.1,
        image_v_wf(parse_image(s)->Some_0.0),
{
    let (c, r) = parse_image(s)->Some_0;
    let p1 = "{\"aspectRatio\":"@;
    let p3 = ",\"imageCount\":"@;
    let p5 = "}"@;
    let s1 = parse_lit(s, p1)->Some_0;
    let (aspect_ratio, s2) = parse_string(s1)->Some_0;
    let s3 = parse_lit(s2, p3)->Some_0;
    let (image_count, s4) = parse_int(s3)->Some_0;
    let s5 = parse_lit(s4, p5)->Some_0;
    lemma_lit_sound(s, p1);
    lemma_string_sound(s1);
    lemma_lit_sound(s2, p3);
    lemma_int_sound(s3);
    lemma_lit_sound(s4, p5);
    let e2 = enc_string(aspect_ratio);
    let e4 = enc_int(image_count);
    lemma_chain(s, p1, s1, e2, s2);
    lemma_chain(s, p1 + e2, s2, p3, s3);
    lemma_chain(s, p1 + e2 + p3, s3, e4, s4);
    lemma_chain(s, p1 + e2 + p3 + e4, s4, p5, s5);
}

pub proof fn lemma_image_complete(c: ImageConfigV, r: Seq<char>)
    requires
        image_v_wf(c),
    ensures
        parse_image(enc_image(c) + r) == Some((c, r)),
{
    reveal_strlit("{\"aspectRatio\":");
    reveal_strlit(",\"imageCount\":");
    reveal_strlit("}");
    let p1 = "{\"aspectRatio\":"@;
    let p3 = ",\"imageCount\":"@;
    let p5 = "}"@;
    let e2 = enc_string(c.aspect_ratio);
    let e4 = enc_int(c.image_count);
    let s = enc_image(c) + r;
    let t5 = p5 + r;
    let t4 = e4 + t5;
    let t3 = p3 + t4;
    let t2 = e2 + t3;
    lemma_split(p1 + e2 + p3 + e4, p5, r);
    lemma_split(p1 + e2 + p3, e4, t5);
    lemma_split(p1 + e2, p3, t4);
    lemma_split(p1, e2, t3);
    assert(s == p1 + t2);
    lemma_lit_complete(p1, t2);
    lemma_string_complete(c.aspect_ratio, t3);
    lemma_lit_complete(p3, t4);
    assert(t5[0] == '}');
    assert(!is_digit(t5[0]));
    lemma_int_complete(c.image_count, t5);
    lemma_lit_complete(p5, r);
    assert(c == ImageConfigV { aspect_ratio: c.aspect_ratio, image_count: c.image_count });
}

// ---------------------------------------------------------------------------
// Decoding with default substitution
// ---------------------------------------------------------------------------

/// Decodes a model configuration column: the canonical form yields its
/// value, anything else the default.
pub open spec fn decode_model_v(s: Seq<char>) -> ModelConfigV {
    match parse_model(s) {
        Some((m, r)) => if r.len() == 0 {
            m
        } else {
            default_model_v()
        },
        None => default_model_v(),
    }
}

/// Decodes a sampling configuration column.
pub open spec fn decode_sampling_v(s: Seq<char>) -> SamplingConfigV {
    match parse_sampling(s) {
        Some((c, r)) => if r.len() == 0 {
            c
        } else {
            default_sampling_v()
        },
        None => default_sampling_v(),
    }
}

/// Decodes a prompt configuration column.
pub open spec fn decode_prompt_v(s: Seq<char>) -> PromptConfigV {
    match parse_prompt(s) {
        Some((c, r)) => if r.len() == 0 {
            c
        } else {
            default_prompt_v()
        },
        None => default_prompt_v(),
    }
}

/// Decodes an image configuration column.
pub open spec fn decode_image_v(s: Seq<char>) -> ImageConfigV {
    match parse_image(s) {
        Some((c, r)) => if r.len() == 0 {
            c
        } else {
            default_image_v()
        },
        None => default_image_v(),
    }
}

/// Decodes a tag-list (or any string-list) column; malformed text yields
/// the empty list.
pub open spec fn decode_str_list_v(s: Seq<char>) -> Seq<Seq<char>> {
    match parse_str_array(s) {
        Some((vs, r)) => if r.len() == 0 {
            vs
        } else {
            Seq::empty()
        },
        None => Seq::empty(),
    }
}

// ---------------------------------------------------------------------------
// Round-trip laws
// ---------------------------------------------------------------------------

/// Encoding a well-formed model configuration and decoding it again yields
/// the original value.
pub proof fn lemma_model_round_trip(m: ModelConfigV)
    requires
        model_v_wf(m),
    ensures
        decode_model_v(enc_model(m)) == m,
{
    lemma_model_complete(m, Seq::empty());
    assert(enc_model(m) + Seq::<char>::empty() =~= enc_model(m));
}

/// Encoding a well-formed sampling configuration and decoding it again
/// yields the original value.
pub proof fn lemma_sampling_round_trip(c: SamplingConfigV)
    requires
        sampling_v_wf(c),
    ensures
        decode_sampling_v(enc_sampling(c)) == c,
{
    lemma_sampling_complete(c, Seq::empty());
    assert(enc_sampling(c) + Seq::<char>::empty() =~= enc_sampling(c));
}

/// Encoding a prompt configuration and decoding it again yields the
/// original value.
pub proof fn lemma_prompt_round_trip(c: PromptConfigV)
    ensures
        decode_prompt_v(enc_prompt(c)) == c,
{
    lemma_prompt_complete(c, Seq::empty());
    assert(enc_prompt(c) + Seq::<char>::empty() =~= enc_prompt(c));
}

/// Encoding a well-formed image configuration and decoding it again yields
/// the original value.
pub proof fn lemma_image_round_trip(c: ImageConfigV)
    requires
        image_v_wf(c),
    ensures
        decode_image_v(enc_image(c)) == c,
{
    lemma_image_complete(c, Seq::empty());
    assert(enc_image(c) + Seq::<char>::empty() =~= enc_image(c));
}

/// Encoding a string list and decoding it again yields the original list.
pub proof fn lemma_str_list_round_trip(vs: Seq<Seq<char>>)
    ensures
        decode_str_list_v(enc_str_array(vs)) == vs,
{
    lemma_str_array_complete(vs, Seq::empty());
    assert(enc_str_array(vs) + Seq::<char>::empty() =~= enc_str_array(vs));
}

/// Text that is not the canonical encoding of any well-formed model
/// configuration decodes to exactly the default.
pub proof fn lemma_model_default_substitution(s: Seq<char>)
    ensures
        decode_model_v(s) == default_model_v() || (model_v_wf(decode_model_v(s)) && s == enc_model(
            decode_model_v(s),
        )),
{
    if parse_model(s) is Some {
        let (m, r) = parse_model(s)->Some_0;
        if r.len() == 0 {
            lemma_model_sound(s);
            assert(s =~= enc_model(m) + r);
            assert(enc_model(m) + r =~= enc_model(m));
        }
    }
}

/// Text that is not the canonical encoding of any well-formed sampling
/// configuration decodes to exactly the default.
pub proof fn lemma_sampling_default_substitution(s: Seq<char>)
    ensures
        decode_sampling_v(s) == default_sampling_v() || (sampling_v_wf(decode_sampling_v(s)) && s
            == enc_sampling(decode_sampling_v(s))),
{
    if parse_sampling(s) is Some {
        let (c, r) = parse_sampling(s)->Some_0;
        if r.len() == 0 {
            lemma_sampling_sound(s);
            assert(s =~= enc_sampling(c) + r);
            assert(enc_sampling(c) + r =~= enc_sampling(c));
        }
    }
}

/// Text that is not the canonical encoding of any prompt configuration
/// decodes to exactly the default.
pub proof fn lemma_prompt_default_substitution(s: Seq<char>)
    ensures
        decode_prompt_v(s) == default_prompt_v() || s == enc_prompt(decode_prompt_v(s)),
{
    if parse_prompt(s) is Some {
        let (c, r) = parse_prompt(s)->Some_0;
        if r.len() == 0 {
            lemma_prompt_sound(s);
            assert(s =~= enc_prompt(c) + r);
            assert(enc_prompt(c) + r =~= enc_prompt(c));
        }
    }
}

/// Text that is not the canonical encoding of any well-formed image
/// configuration decodes to exactly the default.
pub proof fn lemma_image_default_substitution(s: Seq<char>)
    ensures
        decode_image_v(s) == default_image_v() || (image_v_wf(decode_image_v(s)) && s == enc_image(
            decode_image_v(s),
        )),
{
    if parse_image(s) is Some {
        let (c, r) = parse_image(s)->Some_0;
        if r.len() == 0 {
            lemma_image_sound(s);
            assert(s =~= enc_image(c) + r);
            assert(enc_image(c) + r =~= enc_image(c));
        }
    }
}

// ---------------------------------------------------------------------------
// Executable encoding
// ---------------------------------------------------------------------------

/// The views of a vector of strings, element by element.
pub open spec fn str_views(v: Seq<String>) -> Seq<Seq<char>> {
    Seq::new(v.len(), |i: int| v[i]@)
}

/// The views of a vector of LoRA entries, element by element.
pub open spec fn lora_views(v: Seq<LoRA>) -> Seq<LoRAV> {
    Seq::new(v.len(), |i: int| v[i]@)
}

/// A string-list encoding grows by a comma and one more literal.
proof fn lemma_enc_str_list_push(a: Seq<Seq<char>>, x: Seq<char>)
    requires
        a.len() >= 1,
    ensures
        enc_str_list(a.push(x)) == enc_str_list(a) + seq![','] + enc_string(x),
    decreases a.len(),
{
    let ap = a.push(x);
    if a.len() == 1 {
        assert(ap[0] == a[0]);
        assert(ap.skip(1) =~= seq![x]);
        assert(enc_str_list(seq![x]) == enc_string(x));
        assert(enc_str_list(ap) == enc_string(a[0]) + seq![','] + enc_str_list(seq![x]));
    } else {
        assert(ap[0] == a[0]);
        assert(ap.skip(1) =~= a.skip(1).push(x));
        lemma_enc_str_list_push(a.skip(1), x);
        assert(enc_str_list(ap) == enc_string(a[0]) + seq![','] + (enc_str_list(a.skip(1))
            + seq![','] + enc_string(x)));
        assert(enc_string(a[0]) + seq![','] + (enc_str_list(a.skip(1)) + seq![','] + enc_string(x))
            =~= (enc_string(a[0]) + seq![','] + enc_str_list(a.skip(1))) + seq![','] + enc_string(
            x,
        ));
    }
}

/// A LoRA-list encoding grows by a comma and one more entry.
proof fn lemma_enc_lora_list_push(a: Seq<LoRAV>, x: LoRAV)
    requires
        a.len() >= 1,
    ensures
        enc_lora_list(a.push(x)) == enc_lora_list(a) + seq![','] + enc_lora(x),
    decreases a.len(),
{
    let ap = a.push(x);
    if a.len() == 1 {
        assert(ap[0] == a[0]);
        assert(ap.skip(1) =~= seq![x]);
        assert(enc_lora_list(seq![x]) == enc_lora(x));
        assert(enc_lora_list(ap) == enc_lora(a[0]) + seq![','] + enc_lora_list(seq![x]));
    } else {
        assert(ap[0] == a[0]);
        assert(ap.skip(1) =~= a.skip(1).push(x));
        lemma_enc_lora_list_push(a.skip(1), x);
        assert(enc_lora_list(ap) == enc_lora(a[0]) + seq![','] + (enc_lora_list(a.skip(1))
            + seq![','] + enc_lora(x)));
        assert(enc_lora(a[0]) + seq![','] + (enc_lora_list(a.skip(1)) + seq![','] + enc_lora(x))
            =~= (enc_lora(a[0]) + seq![','] + enc_lora_list(a.skip(1))) + seq![','] + enc_lora(x));
    }
}

/// Appends `null` or a string literal.
fn push_opt_string(out: &mut Vec<char>, o: &Option<String>)
    ensures
        final(out)@ == old(out)@ + enc_opt_string(match o {
            Some(s) => Some(s@),
            None => None,
        }),
{
    match o {
        None => push_str_chars(out, "null"),
        Some(s) => push_string_lit(out, s.as_str()),
    }
}

/// Appends the canonical array of string literals.
fn push_str_array(out: &mut Vec<char>, v: &Vec<String>)
    ensures
        final(out)@ == old(out)@ + enc_str_array(str_views(v@)),
{
    let ghost vs = str_views(v@);
    out.push('[');
    let n = v.len();
    let mut i: usize = 0;
    while i < n
        invariant
            n == v@.len(),
            i <= n,
            vs == str_views(v@),
            out@ == old(out)@ + seq!['['] + enc_str_list(vs.take(i as int)),
        decreases n - i,
    {
        if i > 0 {
            out.push(',');
            push_string_lit(out, v[i].as_str());
            proof {
                assert(vs.take(i as int).len() >= 1);
                lemma_enc_str_list_push(vs.take(i as int), vs[i as int]);
                assert(vs.take(i + 1) =~= vs.take(i as int).push(vs[i as int]));
                assert(out@ =~= old(out)@ + seq!['['] + enc_str_list(vs.take(i + 1)));
            }
        } else {
            push_string_lit(out, v[i].as_str());
            proof {
                assert(vs.take(1) =~= seq![vs[0]]);
                assert(enc_str_list(seq![vs[0]]) == enc_string(vs[0]));
                assert(out@ =~= old(out)@ + seq!['['] + enc_str_list(vs.take(1)));
            }
        }
        i = i + 1;
    }
    out.push(']');
    proof {
        assert(vs.take(n as int) =~= vs);
        assert(out@ =~= old(out)@ + enc_str_array(vs));
    }
}

/// Appends the canonical form of one LoRA entry.
fn push_lora(out: &mut Vec<char>, l: &LoRA)
    ensures
        final(out)@ == old(out)@ + enc_lora(l@),
{
    push_str_chars(out, "{\"name\":");
    push_string_lit(out, l.name.as_str());
    push_str_chars(out, ",\"modelName\":");
    push_string_lit(out, l.model_name.as_str());
    push_str_chars(out, ",\"weight\":");
    push_str_chars(out, l.weight.as_text());
    push_str_chars(out, ",\"modelId\":");
    push_opt_string(out, &l.model_id);
    push_str_chars(out, "}");
    proof {
        assert(out@ =~= old(out)@ + enc_lora(l@));
    }
}

/// Appends the canonical array of LoRA entries.
fn push_lora_array(out: &mut Vec<char>, v: &Vec<LoRA>)
    ensures
        final(out)@ == old(out)@ + enc_lora_array(lora_views(v@)),
{
    let ghost vs = lora_views(v@);
    out.push('[');
    let n = v.len();
    let mut i: usize = 0;
    while i < n
        invariant
            n == v@.len(),
            i <= n,
            vs == lora_views(v@),
            out@ == old(out)@ + seq!['['] + enc_lora_list(vs.take(i as int)),
        decreases n - i,
    {
        if i > 0 {
            out.push(',');
            push_lora(out, &v[i]);
            proof {
                assert(vs.take(i as int).len() >= 1);
                lemma_enc_lora_list_push(vs.take(i as int), vs[i as int]);
                assert(vs.take(i + 1) =~= vs.take(i as int).push(vs[i as int]));
                assert(out@ =~= old(out)@ + seq!['['] + enc_lora_list(vs.take(i + 1)));
            }
        } else {
            push_lora(out, &v[i]);
            proof {
                assert(vs.take(1) =~= seq![vs[0]]);
                assert(enc_lora_list(seq![vs[0]]) == enc_lora(vs[0]));
                assert(out@ =~= old(out)@ + seq!['['] + enc_lora_list(vs.take(1)));
            }
        }
        i = i + 1;
    }
    out.push(']');
    proof {
        assert(vs.take(n as int) =~= vs);
        assert(out@ =~= old(out)@ + enc_lora_array(vs));
    }
}

/// The canonical JSON text of a model configuration.
pub fn encode_model_config(m: &ModelConfig) -> (r: String)
    ensures
        r@ == enc_model(m@),
{
    let mut out: Vec<char> = Vec::new();
    push_str_chars(&mut out, "{\"baseModel\":");
    push_string_lit(&mut out, m.base_model.as_str());
    push_str_chars(&mut out, ",\"baseModelId\":");
    push_opt_string(&mut out, &m.base_model_id);
    push_str_chars(&mut out, ",\"refinerModel\":");
    push_string_lit(&mut out, m.refiner_model.as_str());
    push_str_chars(&mut out, ",\"refinerModelId\":");
    push_opt_string(&mut out, &m.refiner_model_id);
    push_str_chars(&mut out, ",\"refinerSwitch\":");
    push_str_chars(&mut out, m.refiner_switch.as_text());
    push_str_chars(&mut out, ",\"loras\":");
    push_lora_array(&mut out, &m.loras);
    push_str_chars(&mut out, "}");
    proof {
        assert(lora_views(m.loras@) =~= m@.loras);
        assert(out@ =~= enc_model(m@));
    }
    chars_to_string(&out)
}

/// The canonical JSON text of a sampling configuration.
pub fn encode_sampling_config(c: &SamplingConfig) -> (r: String)
    ensures
        r@ == enc_sampling(c@),
{
    let mut out: Vec<char> = Vec::new();
    push_str_chars(&mut out, "{\"cfgScale\":");
    push_str_chars(&mut out, c.cfg_scale.as_text());
    push_str_chars(&mut out, ",\"sampleSharpness\":");
    push_str_chars(&mut out, c.sample_sharpness.as_text());
    push_str_chars(&mut out, ",\"sampler\":");
    push_string_lit(&mut out, c.sampler.as_str());
    push_str_chars(&mut out, ",\"scheduler\":");
    push_string_lit(&mut out, c.scheduler.as_str());
    push_str_chars(&mut out, ",\"performance\":");
    push_string_lit(&mut out, c.performance.as_str());
    push_str_chars(&mut out, ",\"steps\":");
    push_i32_dec(&mut out, c.steps);
    push_str_chars(&mut out, "}");
    proof {
        assert(out@ =~= enc_sampling(c@));
    }
    chars_to_string(&out)
}

/// The canonical JSON text of a prompt configuration.
pub fn encode_prompt_config(c: &PromptConfig) -> (r: String)
    ensures
        r@ == enc_prompt(c@),
{
    let mut out: Vec<char> = Vec::new();
    push_str_chars(&mut out, "{\"positive\":");
    push_string_lit(&mut out, c.positive.as_str());
    push_str_chars(&mut out, ",\"negative\":");
    push_string_lit(&mut out, c.negative.as_str());
    push_str_chars(&mut out, ",\"styles\":");
    push_str_array(&mut out, &c.styles);
    push_str_chars(&mut out, "}");
    proof {
        assert(str_views(c.styles@) =~= c@.styles);
        assert(out@ =~= enc_prompt(c@));
    }
    chars_to_string(&out)
}

/// The canonical JSON text of an image configuration.
pub fn encode_image_config(c: &ImageConfig) -> (r: String)
    ensures
        r@ == enc_image(c@),
{
    let mut out: Vec<char> = Vec::new();
    push_str_chars(&mut out, "{\"aspectRatio\":");
    push_string_lit(&mut out, c.aspect_ratio.as_str());
    push_str_chars(&mut out, ",\"imageCount\":");
    push_i32_dec(&mut out, c.image_count);
    push_str_chars(&mut out, "}");
    proof {
        assert(out@ =~= enc_image(c@));
    }
    chars_to_string(&out)
}

/// The canonical JSON text of a list of strings (tags, styles, scopes).
pub fn encode_string_list(v: &Vec<String>) -> (r: String)
    ensures
        r@ == enc_str_array(str_views(v@)),
{
    let mut out: Vec<char> = Vec::new();
    push_str_array(&mut out, v);
    proof {
        assert(out@ =~= enc_str_array(str_views(v@)));
    }
    chars_to_string(&out)
}

// ---------------------------------------------------------------------------
// Executable parsing
// ---------------------------------------------------------------------------

/// The view of an optional string.
pub open spec fn opt_view(o: Option<String>) -> Option<Seq<char>> {
    match o {
        Some(s) => Some(s@),
        None => None,
    }
}

/// Parses an optional string field at position `i`.
fn p_opt_string(v: &Vec<char>, i: usize) -> (r: Option<(Option<String>, usize)>)
    requires
        i <= v@.len(),
    ensures
        match r {
            Some(p) => i <= p.1 <= v@.len() && parse_opt_string(v@.skip(i as int)) == Some(
                (opt_view(p.0), v@.skip(p.1 as int)),
            ),
            None => parse_opt_string(v@.skip(i as int)) is None,
        },
{
    match p_lit(v, i, "null") {
        Some(j) => {
            proof {
                reveal_strlit("null");
                let s = v@.skip(i as int);
                assert(s.len() >= 4 && s.subrange(0, 4) == "null"@);
                assert(s.skip(4) == v@.skip(j as int));
            }
            Some((None, j))
        },
        None => {
            proof {
                reveal_strlit("null");
            }
            match p_string(v, i) {
                Some((s, j)) => Some((Some(s), j)),
                None => None,
            }
        },
    }
}

/// Parses one or more comma-separated string literals at position `i`.
#[verifier::rlimit(100)]
fn p_str_list(v: &Vec<char>, i: usize) -> (r: Option<(Vec<String>, usize)>)
    requires
        i <= v@.len(),
    ensures
        match r {
            Some(p) => i <= p.1 <= v@.len() && parse_str_list(v@.skip(i as int)) == Some(
                (str_views(p.0@), v@.skip(p.1 as int)),
            ),
            None => parse_str_list(v@.skip(i as int)) is None,
        },
{
    let n = v.len();
    let ghost spec0 = parse_str_list(v@.skip(i as int));
    let mut acc: Vec<String> = Vec::new();
    let mut cur: usize = i;
    proof {
        if parse_str_list(v@.skip(cur as int)) is Some {
            let (vs, r) = parse_str_list(v@.skip(cur as int))->Some_0;
            assert(str_views(acc@) + vs =~= vs);
        }
    }
    loop
        invariant
            n == v@.len(),
            i <= cur <= n,
            spec0 == parse_str_list(v@.skip(i as int)),
            match parse_str_list(v@.skip(cur as int)) {
                None => spec0 is None,
                Some((vs, r)) => spec0 == Some((str_views(acc@) + vs, r)),
            },
        decreases n - cur,
    {
        let ghost sc = v@.skip(cur as int);
        match p_string(v, cur) {
            None => {
                return None;
            },
            Some((val, j)) => {
                proof {
                    lemma_string_sound(sc);
                    let (pv, pr) = parse_string(sc)->Some_0;
                    assert(sc.len() == enc_string(pv).len() + pr.len());
                    assert(enc_string(pv).len() == 1 + esc_seq(pv).len() + 1);
                    assert(v@.skip(j as int).len() < sc.len());
                }
                if j < n && v[j] == ',' {
                    proof {
                        assert(v@.skip(j as int)[0] == v@[j as int]);
                        assert(v@.skip(j as int).skip(1) =~= v@.skip(j + 1));
                    }
                    let ghost old_acc = acc@;
                    acc.push(val);
                    proof {
                        if parse_str_list(v@.skip(j + 1)) is Some {
                            let (vs2, r2) = parse_str_list(v@.skip(j + 1))->Some_0;
                            assert(parse_str_list(sc) == Some((seq![val@] + vs2, r2)));
                            assert(str_views(acc@) + vs2 =~= str_views(old_acc) + (seq![val@]
                                + vs2));
                        }
                    }
                    cur = j + 1;
                } else {
                    proof {
                        let rr = v@.skip(j as int);
                        assert(rr.len() > 0 ==> rr[0] == v@[j as int]);
                        assert(!(rr.len() > 0 && rr[0] == ','));
                        assert(parse_str_list(sc) == Some((seq![val@], rr)));
                    }
                    let ghost old_acc = acc@;
                    acc.push(val);
                    proof {
                        assert(str_views(acc@) =~= str_views(old_acc) + seq![val@]);
                    }
                    return Some((acc, j));
                }
            },
        }
    }
}

/// Parses a JSON array of string literals at position `i`.
fn p_str_array(v: &Vec<char>, i: usize) -> (r: Option<(Vec<String>, usize)>)
    requires
        i <= v@.len(),
    ensures
        match r {
            Some(p) => i <= p.1 <= v@.len() && parse_str_array(v@.skip(i as int)) == Some(
                (str_views(p.0@), v@.skip(p.1 as int)),
            ),
            None => parse_str_array(v@.skip(i as int)) is None,
        },
{
    let n = v.len();
    let ghost s = v@.skip(i as int);
    proof {
        if s.len() > 0 {
            assert(s[0] == v@[i as int]);
        }
        if s.len() > 1 {
            assert(s[1] == v@[i + 1]);
        }
    }
    if i >= n || v[i] != '[' {
        return None;
    }
    if i + 1 < n && v[i + 1] == ']' {
        proof {
            assert(s.skip(2) =~= v@.skip(i + 2));
        }
        let empty: Vec<String> = Vec::new();
        proof {
            assert(str_views(empty@) =~= Seq::<Seq<char>>::empty());
        }
        return Some((empty, i + 2));
    }
    proof {
        assert(s.skip(1) =~= v@.skip(i + 1));
    }
    match p_str_list(v, i + 1) {
        None => None,
        Some((vs, j)) => {
            proof {
                let rr = v@.skip(j as int);
                if rr.len() > 0 {
                    assert(rr[0] == v@[j as int]);
                }
            }
            if j < n && v[j] == ']' {
                proof {
                    assert(v@.skip(j as int).skip(1) =~= v@.skip(j + 1));
                }
                Some((vs, j + 1))
            } else {
                None
            }
        },
    }
}

/// Parses one LoRA entry at position `i`.
fn p_lora(v: &Vec<char>, i: usize) -> (r: Option<(LoRA, usize)>)
    requires
        i <= v@.len(),
    ensures
        match r {
            Some(p) => i <= p.1 <= v@.len() && parse_lora(v@.skip(i as int)) == Some(
                (p.0@, v@.skip(p.1 as int)),
            ),
            None => parse_lora(v@.skip(i as int)) is None,
        },
{
    let j1 = match p_lit(v, i, "{\"name\":") {
        None => {
            return None;
        },
        Some(j) => j,
    };
    let (name, j2) = match p_string(v, j1) {
        None => {
            return None;
        },
        Some(p) => p,
    };
    let j3 = match p_lit(v, j2, ",\"modelName\":") {
        None => {
            return None;
        },
        Some(j) => j,
    };
    let (model_name, j4) = match p_string(v, j3) {
        None => {
            return None;
        },
        Some(p) => p,
    };
    let j5 = match p_lit(v, j4, ",\"weight\":") {
        None => {
            return None;
        },
        Some(j) => j,
    };
    let (wtok, j6) = match p_num(v, j5) {
        None => {
            return None;
        },
        Some(p) => p,
    };
    let j7 = match p_lit(v, j6, ",\"modelId\":") {
        None => {
            return None;
        },
        Some(j) => j,
    };
    let (model_id, j8) = match p_opt_string(v, j7) {
        None => {
            return None;
        },
        Some(p) => p,
    };
    let j9 = match p_lit(v, j8, "}") {
        None => {
            return None;
        },
        Some(j) => j,
    };
    let wtext = chars_to_string(&wtok);
    let weight = JsonNumber::from_valid(wtext);
    let l = LoRA { name, model_name, weight, model_id };
    proof {
        assert(l@ == parse_lora(v@.skip(i as int))->Some_0.0);
    }
    Some((l, j9))
}

/// Parses one or more comma-separated LoRA entries at position `i`.
#[verifier::rlimit(100)]
fn p_lora_list(v: &Vec<char>, i: usize) -> (r: Option<(Vec<LoRA>, usize)>)
    requires
        i <= v@.len(),
    ensures
        match r {
            Some(p) => i <= p.1 <= v@.len() && parse_lora_list(v@.skip(i as int)) == Some(
                (lora_views(p.0@), v@.skip(p.1 as int)),
            ),
            None => parse_lora_list(v@.skip(i as int)) is None,
        },
{
    let n = v.len();
    let ghost spec0 = parse_lora_list(v@.skip(i as int));
    let mut acc: Vec<LoRA> = Vec::new();
    let mut cur: usize = i;
    proof {
        if parse_lora_list(v@.skip(cur as int)) is Some {
            let (vs, r) = parse_lora_list(v@.skip(cur as int))->Some_0;
            assert(lora_views(acc@) + vs =~= vs);
        }
    }
    loop
        invariant
            n == v@.len(),
            i <= cur <= n,
            spec0 == parse_lora_list(v@.skip(i as int)),
            match parse_lora_list(v@.skip(cur as int)) {
                None => spec0 is None,
                Some((vs, r)) => spec0 == Some((lora_views(acc@) + vs, r)),
            },
        decreases n - cur,
    {
        let ghost sc = v@.skip(cur as int);
        match p_lora(v, cur) {
            None => {
                return None;
            },
            Some((val, j)) => {
                proof {
                    lemma_lora_sound(sc);
                    let (pv, pr) = parse_lora(sc)->Some_0;
                    assert(sc.len() == enc_lora(pv).len() + pr.len());
                    lemma_enc_lora_shape(pv);
                    assert(v@.skip(j as int).len() < sc.len());
                }
                if j < n && v[j] == ',' {
                    proof {
                        assert(v@.skip(j as int)[0] == v@[j as int]);
                        assert(v@.skip(j as int).skip(1) =~= v@.skip(j + 1));
                    }
                    let ghost old_acc = acc@;
                    acc.push(val);
                    proof {
                        if parse_lora_list(v@.skip(j + 1)) is Some {
                            let (vs2, r2) = parse_lora_list(v@.skip(j + 1))->Some_0;
                            assert(parse_lora_list(sc) == Some((seq![val@] + vs2, r2)));
                            assert(lora_views(acc@) + vs2 =~= lora_views(old_acc) + (seq![val@]
                                + vs2));
                        }
                    }
                    cur = j + 1;
                } else {
                    proof {
                        let rr = v@.skip(j as int);
                        assert(rr.len() > 0 ==> rr[0] == v@[j as int]);
                        assert(!(rr.len() > 0 && rr[0] == ','));
                        assert(parse_lora_list(sc) == Some((seq![val@], rr)));
                    }
                    let ghost old_acc = acc@;
                    acc.push(val);
                    proof {
                        assert(lora_views(acc@) =~= lora_views(old_acc) + seq![val@]);
                    }
                    return Some((acc, j));
                }
            },
        }
    }
}

/// Parses a JSON array of LoRA entries at position `i`.
fn p_lora_array(v: &Vec<char>, i: usize) -> (r: Option<(Vec<LoRA>, usize)>)
    requires
        i <= v@.len(),
    ensures
        match r {
            Some(p) => i <= p.1 <= v@.len() && parse_lora_array(v@.skip(i as int)) == Some(
                (lora_views(p.0@), v@.skip(p.1 as int)),
            ),
            None => parse_lora_array(v@.skip(i as int)) is None,
        },
{
    let n = v.len();
    let ghost s = v@.skip(i as int);
    proof {
        if s.len() > 0 {
            assert(s[0] == v@[i as int]);
        }
        if s.len() > 1 {
            assert(s[1] == v@[i + 1]);
        }
    }
    if i >= n || v[i] != '[' {
        return None;
    }
    if i + 1 < n && v[i + 1] == ']' {
        proof {
            assert(s.skip(2) =~= v@.skip(i + 2));
        }
        let empty: Vec<LoRA> = Vec::new();
        proof {
            assert(lora_views(empty@) =~= Seq::<LoRAV>::empty());
        }
        return Some((empty, i + 2));
    }
    proof {
        assert(s.skip(1) =~= v@.skip(i + 1));
    }
    match p_lora_list(v, i + 1) {
        None => None,
        Some((vs, j)) => {
            proof {
                let rr = v@.skip(j as int);
                if rr.len() > 0 {
                    assert(rr[0] == v@[j as int]);
                }
            }
            if j < n && v[j] == ']' {
                proof {
                    assert(v@.skip(j as int).skip(1) =~= v@.skip(j + 1));
                }
                Some((vs, j + 1))
            } else {
                None
            }
        },
    }
}

/// Parses a model configuration at position `i`.
fn p_model(v: &Vec<char>, i: usize) -> (r: Option<(ModelConfig, usize)>)
    requires
        i <= v@.len(),
    ensures
        match r {
            Some(p) => i <= p.1 <= v@.len() && parse_model(v@.skip(i as int)) == Some(
                (p.0@, v@.skip(p.1 as int)),
            ),
            None => parse_model(v@.skip(i as int)) is None,
        },
{
    let j1 = match p_lit(v, i, "{\"baseModel\":") {
        None => {
            return None;
        },
        Some(j) => j,
    };
    let (base_model, j2) = match p_string(v, j1) {
        None => {
            return None;
        },
        Some(p) => p,
    };
    let j3 = match p_lit(v, j2, ",\"baseModelId\":") {
        None => {
            return None;
        },
        Some(j) => j,
    };
    let (base_model_id, j4) = match p_opt_string(v, j3) {
        None => {
            return None;
        },
        Some(p) => p,
    };
    let j5 = match p_lit(v, j4, ",\"refinerModel\":") {
        None => {
            return None;
        },
        Some(j) => j,
    };
    let (refiner_model, j6) = match p_string(v, j5) {
        None => {
            return None;
        },
        Some(p) => p,
    };
    let j7 = match p_lit(v, j6, ",\"refinerModelId\":") {
        None => {
            return None;
        },
        Some(j) => j,
    };
    let (refiner_model_id, j8) = match p_opt_string(v, j7) {
        None => {
            return None;
        },
        Some(p) => p,
    };
    let j9 = match p_lit(v, j8, ",\"refinerSwitch\":") {
        None => {
            return None;
        },
        Some(j) => j,
    };
    let (wtok, j10) = match p_num(v, j9) {
        None => {
            return None;
        },
        Some(p) => p,
    };
    let j11 = match p_lit(v, j10, ",\"loras\":") {
        None => {
            return None;
        },
        Some(j) => j,
    };
    let (loras, j12) = match p_lora_array(v, j11) {
        None => {
            return None;
        },
        Some(p) => p,
    };
    let j13 = match p_lit(v, j12, "}") {
        None => {
            return None;
        },
        Some(j) => j,
    };
    let wtext = chars_to_string(&wtok);
    let refiner_switch = JsonNumber::from_valid(wtext);
    let m = ModelConfig {
        base_model,
        base_model_id,
        refiner_model,
        refiner_model_id,
        refiner_switch,
        loras,
    };
    proof {
        assert(m@.loras =~= lora_views(m.loras@));
        assert(m@ == parse_model(v@.skip(i as int))->Some_0.0);
    }
    Some((m, j13))
}

/// Parses a sampling configuration at position `i`.
fn p_sampling(v: &Vec<char>, i: usize) -> (r: Option<(SamplingConfig, usize)>)
    requires
        i <= v@.len(),
    ensures
        match r {
            Some(p) => i <= p.1 <= v@.len() && parse_sampling(v@.skip(i as int)) == Some(
                (p.0@, v@.skip(p.1 as int)),
            ),
            None => parse_sampling(v@.skip(i as int)) is None,
        },
{
    let j1 = match p_lit(v, i, "{\"cfgScale\":") {
        None => {
            return None;
        },
        Some(j) => j,
    };
    let (cfg_tok, j2) = match p_num(v, j1) {
        None => {
            return None;
        },
        Some(p) => p,
    };
    let j3 = match p_lit(v, j2, ",\"sampleSharpness\":") {
        None => {
            return None;
        },
        Some(j) => j,
    };
    let (sharp_tok, j4) = match p_num(v, j3) {
        None => {
            return None;
        },
        Some(p) => p,
    };
    let j5 = match p_lit(v, j4, ",\"sampler\":") {
        None => {
            return None;
        },
        Some(j) => j,
    };
    let (sampler, j6) = match p_string(v, j5) {
        None => {
            return None;
        },
        Some(p) => p,
    };
    let j7 = match p_lit(v, j6, ",\"scheduler\":") {
        None => {
            return None;
        },
        Some(j) => j,
    };
    let (scheduler, j8) = match p_string(v, j7) {
        None => {
            return None;
        },
        Some(p) => p,
    };
    let j9 = match p_lit(v, j8, ",\"performance\":") {
        None => {
            return None;
        },
        Some(j) => j,
    };
    let (performance, j10) = match p_string(v, j9) {
        None => {
            return None;
        },
        Some(p) => p,
    };
    let j11 = match p_lit(v, j10, ",\"steps\":") {
        None => {
            return None;
        },
        Some(j) => j,
    };
    let (steps, j12) = match p_int(v, j11) {
        None => {
            return None;
        },
        Some(p) => p,
    };
    let j13 = match p_lit(v, j12, "}") {
        None => {
            return None;
        },
        Some(j) => j,
    };
    let cfg_scale = JsonNumber::from_valid(chars_to_string(&cfg_tok));
    let sample_sharpness = JsonNumber::from_valid(chars_to_string(&sharp_tok));
    let c = SamplingConfig { cfg_scale, sample_sharpness, sampler, scheduler, performance, steps };
    proof {
        assert(c@ == parse_sampling(v@.skip(i as int))->Some_0.0);
    }
    Some((c, j13))
}

/// Parses a prompt configuration at position `i`.
fn p_prompt(v: &Vec<char>, i: usize) -> (r: Option<(PromptConfig, usize)>)
    requires
        i <= v@.len(),
    ensures
        match r {
            Some(p) => i <= p.1 <= v@.len() && parse_prompt(v@.skip(i as int)) == Some(
                (p.0@, v@.skip(p.1 as int)),
            ),
            None => parse_prompt(v@.skip(i as int)) is None,
        },
{
    let j1 = match p_lit(v, i, "{\"positive\":") {
        None => {
            return None;
        },
        Some(j) => j,
    };
    let (positive, j2) = match p_string(v, j1) {
        None => {
            return None;
        },
        Some(p) => p,
    };
    let j3 = match p_lit(v, j2, ",\"negative\":") {
        None => {
            return None;
        },
        Some(j) => j,
    };
    let (negative, j4) = match p_string(v, j3) {
        None => {
            return None;
        },
        Some(p) => p,
    };
    let j5 = match p_lit(v, j4, ",\"styles\":") {
        None => {
            return None;
        },
        Some(j) => j,
    };
    let (styles, j6) = match p_str_array(v, j5) {
        None => {
            return None;
        },
        Some(p) => p,
    };
    let j7 = match p_lit(v, j6, "}") {
        None => {
            return None;
        },
        Some(j) => j,
    };
    let c = PromptConfig { positive, negative, styles };
    proof {
        assert(c@.styles =~= str_views(c.styles@));
        assert(c@ == parse_prompt(v@.skip(i as int))->Some_0.0);
    }
    Some((c, j7))
}

/// Parses an image configuration at position `i`.
fn p_image(v: &Vec<char>, i: usize) -> (r: Option<(ImageConfig, usize)>)
    requires
        i <= v@.len(),
    ensures
        match r {
            Some(p) => i <= p.1 <= v@.len() && parse_image(v@.skip(i as int)) == Some(
                (p.0@, v@.skip(p.1 as int)),
            ),
            None => parse_image(v@.skip(i as int)) is None,
        },
{
    let j1 = match p_lit(v, i, "{\"aspectRatio\":") {
        None => {
            return None;
        },
        Some(j) => j,
    };
    let (aspect_ratio, j2) = match p_string(v, j1) {
        None => {
            return None;
        },
        Some(p) => p,
    };
    let j3 = match p_lit(v, j2, ",\"imageCount\":") {
        None => {
            return None;
        },
        Some(j) => j,
    };
    let (image_count, j4) = match p_int(v, j3) {
        None => {
            return None;
        },
        Some(p) => p,
    };
    let j5 = match p_lit(v, j4, "}") {
        None => {
            return None;
        },
        Some(j) => j,
    };
    let c = ImageConfig { aspect_ratio, image_count };
    proof {
        assert(c@ == parse_image(v@.skip(i as int))->Some_0.0);
    }
    Some((c, j5))
}

// ---------------------------------------------------------------------------
// Decoding entry points
// ---------------------------------------------------------------------------

impl JsonNumber {
    /// Validates `text` against the number-token grammar.
    pub fn from_text(text: String) -> (r: Option<JsonNumber>)
        ensures
            match r {
                Some(num) => num.wf() && num@ == text@ && valid_num(text@),
                None => !valid_num(text@),
            },
    {
        let v = to_char_vec(text.as_str());
        proof {
            assert(v@.skip(0) =~= text@);
        }
        match p_num(&v, 0) {
            Some((tok, j)) => {
                if j == v.len() {
                    proof {
                        lemma_num_sound(text@);
                        assert(v@.skip(j as int).len() == 0);
                        assert(v@.skip(j as int) =~= Seq::<char>::empty());
                        assert(tok@ + Seq::<char>::empty() =~= tok@);
                        assert(text@ == tok@);
                    }
                    Some(JsonNumber::from_valid(text))
                } else {
                    proof {
                        if valid_num(text@) {
                            assert(parse_num(text@) == Some((text@, Seq::<char>::empty())));
                            assert(v@.skip(j as int).len() > 0);
                        }
                    }
                    None
                }
            },
            None => {
                proof {
                    if valid_num(text@) {
                        assert(parse_num(text@) is Some);
                    }
                }
                None
            },
        }
    }
}

/// Decodes a model-configuration column; malformed text yields the default.
pub fn decode_model_config(s: &str) -> (r: ModelConfig)
    ensures
        r@ == decode_model_v(s@),
{
    let v = to_char_vec(s);
    proof {
        assert(v@.skip(0) =~= s@);
    }
    match p_model(&v, 0) {
        Some((m, j)) => {
            if j == v.len() {
                proof {
                    assert(v@.skip(j as int).len() == 0);
                }
                m
            } else {
                proof {
                    assert(v@.skip(j as int).len() > 0);
                }
                default_model_config()
            }
        },
        None => default_model_config(),
    }
}

/// Decodes a sampling-configuration column; malformed text yields the
/// default.
pub fn decode_sampling_config(s: &str) -> (r: SamplingConfig)
    ensures
        r@ == decode_sampling_v(s@),
{
    let v = to_char_vec(s);
    proof {
        assert(v@.skip(0) =~= s@);
    }
    match p_sampling(&v, 0) {
        Some((c, j)) => {
            if j == v.len() {
                proof {
                    assert(v@.skip(j as int).len() == 0);
                }
                c
            } else {
                proof {
                    assert(v@.skip(j as int).len() > 0);
                }
                default_sampling_config()
            }
        },
        None => default_sampling_config(),
    }
}

/// Decodes a prompt-configuration column; malformed text yields the
/// default.
pub fn decode_prompt_config(s: &str) -> (r: PromptConfig)
    ensures
        r@ == decode_prompt_v(s@),
{
    let v = to_char_vec(s);
    proof {
        assert(v@.skip(0) =~= s@);
    }
    match p_prompt(&v, 0) {
        Some((c, j)) => {
            if j == v.len() {
                proof {
                    assert(v@.skip(j as int).len() == 0);
                }
                c
            } else {
                proof {
                    assert(v@.skip(j as int).len() > 0);
                }
                default_prompt_config()
            }
        },
        None => default_prompt_config(),
    }
}

/// Decodes an image-configuration column; malformed text yields the
/// default.
pub fn decode_image_config(s: &str) -> (r: ImageConfig)
    ensures
        r@ == decode_image_v(s@),
{
    let v = to_char_vec(s);
    proof {
        assert(v@.skip(0) =~= s@);
    }
    match p_image(&v, 0) {
        Some((c, j)) => {
            if j == v.len() {
                proof {
                    assert(v@.skip(j as int).len() == 0);
                }
                c
            } else {
                proof {
                    assert(v@.skip(j as int).len() > 0);
                }
                default_image_config()
            }
        },
        None => default_image_config(),
    }
}

/// Decodes a string-list column (tags, scopes); malformed text yields the
/// empty list.
pub fn decode_string_list(s: &str) -> (r: Vec<String>)
    ensures
        str_views(r@) == decode_str_list_v(s@),
{
    let v = to_char_vec(s);
    proof {
        assert(v@.skip(0) =~= s@);
    }
    match p_str_array(&v, 0) {
        Some((vs, j)) => {
            if j == v.len() {
                proof {
                    assert(v@.skip(j as int).len() == 0);
                }
                vs
            } else {
                proof {
                    assert(v@.skip(j as int).len() > 0);
                }
                let empty: Vec<String> = Vec::new();
                proof {
                    assert(str_views(empty@) =~= Seq::<Seq<char>>::empty());
                }
                empty
            }
        },
        None => {
            let empty: Vec<String> = Vec::new();
            proof {
                assert(str_views(empty@) =~= Seq::<Seq<char>>::empty());
            }
            empty
        },
    }
}

} // verus!
