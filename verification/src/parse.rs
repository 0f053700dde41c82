//! The JSON text parser, and the proof that it inverts the serializer.
//!
//! The parser reads the compact form the serializer emits: no whitespace
//! between tokens, decimal integers, and the standard string escapes
//! (`\"`, `\\`, `\/`, `\b`, `\f`, `\n`, `\r`, `\t`, `\uXXXX` outside the
//! surrogate range, and surrogate pairs for the planes beyond).
//! Whitespace-only frames are recognised one layer above, by
//! `frame_is_blank`.

use crate::codec::{
    dec_error_response, dec_notification, dec_request, dec_response, enc_error_response, enc_id,
    enc_notification, enc_request, enc_response,
};
use crate::types::{ErrorResponseV, NotificationV, RequestIdV, RequestV, ResponseV};
use vstd::prelude::*;
use crate::json::{
    Json, JsonVal, digit_char, esc_char, hex_char, jview, jview_members, jview_seq, spec_digits,
    spec_escape, spec_ser, spec_ser_arr, spec_ser_int, spec_ser_member, spec_ser_obj,
};

verus! {

// --- Character classes ---

pub open spec fn is_digit(c: char) -> bool {
    48 <= (c as u32) <= 57
}

pub open spec fn digit_of(c: char) -> int {
    (c as u32) - 48
}

/// The value of a hexadecimal digit, or -1.
pub open spec fn hex_of(c: char) -> int {
    if 48 <= (c as u32) <= 57 {
        (c as u32) - 48
    } else if 97 <= (c as u32) <= 102 {
        (c as u32) - 87
    } else if 65 <= (c as u32) <= 70 {
        (c as u32) - 55
    } else {
        -1
    }
}

/// Whether a code is a Unicode scalar value expressible in four hex
/// digits: anything up to 0xFFFF outside the surrogate range.
pub open spec fn is_scalar_code(u: int) -> bool {
    0 <= u <= 0xFFFF && !(0xD800 <= u <= 0xDFFF)
}

/// Whether a code is a high (leading) surrogate.
pub open spec fn is_high_surrogate(u: int) -> bool {
    0xD800 <= u <= 0xDBFF
}

/// Whether a code is a low (trailing) surrogate.
pub open spec fn is_low_surrogate(u: int) -> bool {
    0xDC00 <= u <= 0xDFFF
}

/// The code point a surrogate pair denotes.
pub open spec fn pair_code(hi: int, lo: int) -> int {
    0x10000 + (hi - 0xD800) * 0x400 + (lo - 0xDC00)
}

/// The value of four hex digits at `i`, or -1 where one is not a digit.
pub open spec fn hex4_at(t: Seq<char>, i: int) -> int {
    if i < 0 || i + 4 > t.len() {
        -1
    } else {
        let h1 = hex_of(t[i]);
        let h2 = hex_of(t[i + 1]);
        let h3 = hex_of(t[i + 2]);
        let h4 = hex_of(t[i + 3]);
        if h1 < 0 || h2 < 0 || h3 < 0 || h4 < 0 {
            -1
        } else {
            ((h1 * 16 + h2) * 16 + h3) * 16 + h4
        }
    }
}

// --- The specification parser ---

/// The end of the digit run starting at `i`.
pub open spec fn digits_end(t: Seq<char>, i: int) -> int
    decreases t.len() - i,
{
    if i < 0 || i >= t.len() {
        i
    } else if is_digit(t[i]) {
        digits_end(t, i + 1)
    } else {
        i
    }
}

/// The value of the digits in `[i, j)`.
pub open spec fn digits_val(t: Seq<char>, i: int, j: int) -> int
    decreases j - i,
{
    if j <= i {
        0
    } else {
        digits_val(t, i, j - 1) * 10 + digit_of(t[j - 1])
    }
}

/// Parses an integer at `i`: an optional minus sign and a digit run,
/// rejected when the value does not fit a 64-bit integer.
pub open spec fn parse_int_at(t: Seq<char>, i: int) -> Option<(int, int)> {
    let neg = i < t.len() && t[i] == '-';
    let start = if neg {
        i + 1
    } else {
        i
    };
    let e = digits_end(t, start);
    if e == start {
        None
    } else {
        let val = digits_val(t, start, e);
        if neg {
            if val <= 0x8000000000000000 {
                Some((-val, e))
            } else {
                None
            }
        } else {
            if val <= 0x7fffffffffffffff {
                Some((val, e))
            } else {
                None
            }
        }
    }
}

/// Parses a string body at `i` (after the opening quote), up to and
/// including the closing quote.
pub open spec fn parse_string_body(t: Seq<char>, i: int) -> Option<(Seq<char>, int)>
    decreases t.len() - i,
{
    if i < 0 || i >= t.len() {
        None
    } else if t[i] == '"' {
        Some((Seq::empty(), i + 1))
    } else if t[i] == '\\' {
        if i + 2 > t.len() {
            None
        } else {
            let e = t[i + 1];
            if e == 'u' {
                let code = hex4_at(t, i + 2);
                if code < 0 {
                    None
                } else if is_scalar_code(code) {
                    match parse_string_body(t, i + 6) {
                        Some((s, j)) => Some((seq![(code as u32) as char] + s, j)),
                        None => None,
                    }
                } else if is_high_surrogate(code) {
                    // a high surrogate must be followed by an escaped low one
                    if i + 12 > t.len() || t[i + 6] != '\\' || t[i + 7] != 'u' {
                        None
                    } else {
                        let lo = hex4_at(t, i + 8);
                        if !is_low_surrogate(lo) {
                            None
                        } else {
                            match parse_string_body(t, i + 12) {
                                Some((s, j)) => Some(
                                    (seq![(pair_code(code, lo) as u32) as char] + s, j),
                                ),
                                None => None,
                            }
                        }
                    }
                } else {
                    None
                }
            } else if e == '"' || e == '\\' || e == '/' || e == 'n' || e == 't' || e == 'r' || e
                == 'b' || e == 'f' {
                let c = if e == '"' {
                    '"'
                } else if e == '\\' {
                    '\\'
                } else if e == '/' {
                    '/'
                } else if e == 'n' {
                    '\n'
                } else if e == 't' {
                    '\t'
                } else if e == 'r' {
                    '\r'
                } else if e == 'b' {
                    (8u8) as char
                } else {
                    (12u8) as char
                };
                match parse_string_body(t, i + 2) {
                    Some((s, j)) => Some((seq![c] + s, j)),
                    None => None,
                }
            } else {
                None
            }
        }
    } else {
        match parse_string_body(t, i + 1) {
            Some((s, j)) => Some((seq![t[i]] + s, j)),
            None => None,
        }
    }
}

/// Parses one value at `i`, with fuel bounding the nesting.
pub open spec fn parse_value_at(t: Seq<char>, i: int, fuel: nat) -> Option<(JsonVal, int)>
    decreases fuel, 0nat,
{
    if fuel == 0 {
        None
    } else if i < 0 || i >= t.len() {
        None
    } else {
        let c = t[i];
        if c == 'n' {
            if i + 4 <= t.len() && t[i + 1] == 'u' && t[i + 2] == 'l' && t[i + 3] == 'l' {
                Some((JsonVal::Null, i + 4))
            } else {
                None
            }
        } else if c == 't' {
            if i + 4 <= t.len() && t[i + 1] == 'r' && t[i + 2] == 'u' && t[i + 3] == 'e' {
                Some((JsonVal::Bool(true), i + 4))
            } else {
                None
            }
        } else if c == 'f' {
            if i + 5 <= t.len() && t[i + 1] == 'a' && t[i + 2] == 'l' && t[i + 3] == 's' && t[i
                + 4] == 'e' {
                Some((JsonVal::Bool(false), i + 5))
            } else {
                None
            }
        } else if c == '"' {
            match parse_string_body(t, i + 1) {
                Some((s, j)) => Some((JsonVal::Str(s), j)),
                None => None,
            }
        } else if c == '[' {
            if i + 1 < t.len() && t[i + 1] == ']' {
                Some((JsonVal::Arr(Seq::empty()), i + 2))
            } else {
                match parse_elems_at(t, i + 1, (fuel - 1) as nat) {
                    Some((vs, j)) => Some((JsonVal::Arr(vs), j)),
                    None => None,
                }
            }
        } else if c == '{' {
            if i + 1 < t.len() && t[i + 1] == '}' {
                Some((JsonVal::Obj(Seq::empty()), i + 2))
            } else {
                match parse_members_at(t, i + 1, (fuel - 1) as nat) {
                    Some((ms, j)) => Some((JsonVal::Obj(ms), j)),
                    None => None,
                }
            }
        } else if c == '-' || is_digit(c) {
            match parse_int_at(t, i) {
                Some((v, j)) => Some((JsonVal::Int(v), j)),
                None => None,
            }
        } else {
            None
        }
    }
}

/// Parses the elements of a non-empty array, consuming the closing
/// bracket.
pub open spec fn parse_elems_at(t: Seq<char>, i: int, fuel: nat) -> Option<(Seq<JsonVal>, int)>
    decreases fuel, 1nat,
{
    if fuel == 0 {
        None
    } else {
        match parse_value_at(t, i, fuel) {
            Some((v, j)) => if j < t.len() && t[j] == ',' {
                match parse_elems_at(t, j + 1, (fuel - 1) as nat) {
                    Some((vs, k)) => Some((seq![v] + vs, k)),
                    None => None,
                }
            } else if j < t.len() && t[j] == ']' {
                Some((seq![v], j + 1))
            } else {
                None
            },
            None => None,
        }
    }
}

/// Parses the members of a non-empty object, consuming the closing
/// brace.
pub open spec fn parse_members_at(t: Seq<char>, i: int, fuel: nat) -> Option<
    (Seq<(Seq<char>, JsonVal)>, int),
>
    decreases fuel, 1nat,
{
    if fuel == 0 {
        None
    } else if i < t.len() && t[i] == '"' {
        match parse_string_body(t, i + 1) {
            Some((k, j)) => if j < t.len() && t[j] == ':' {
                match parse_value_at(t, j + 1, fuel) {
                    Some((v, j2)) => if j2 < t.len() && t[j2] == ',' {
                        match parse_members_at(t, j2 + 1, (fuel - 1) as nat) {
                            Some((ms, j3)) => Some((seq![(k, v)] + ms, j3)),
                            None => None,
                        }
                    } else if j2 < t.len() && t[j2] == '}' {
                        Some((seq![(k, v)], j2 + 1))
                    } else {
                        None
                    },
                    None => None,
                }
            } else {
                None
            },
            None => None,
        }
    } else {
        None
    }
}

/// The parse of a whole frame: one value spanning the entire text.
pub open spec fn spec_parse_text(t: Seq<char>) -> Option<JsonVal> {
    match parse_value_at(t, 0, (t.len() + 1) as nat) {
        Some((v, j)) => if j == t.len() {
            Some(v)
        } else {
            None
        },
        None => None,
    }
}

// --- The fuel a value needs ---

pub open spec fn jsize(v: JsonVal) -> nat
    decreases v,
{
    match v {
        JsonVal::Arr(items) => 1 + jsize_seq(items),
        JsonVal::Obj(ms) => 1 + jsize_members(ms),
        _ => 1,
    }
}

pub open spec fn jsize_seq(s: Seq<JsonVal>) -> nat
    decreases s,
{
    if s.len() == 0 {
        0
    } else {
        1 + jsize(s[0]) + jsize_seq(s.drop_first())
    }
}

pub open spec fn jsize_members(s: Seq<(Seq<char>, JsonVal)>) -> nat
    decreases s,
{
    if s.len() == 0 {
        0
    } else {
        1 + jsize(s[0].1) + jsize_members(s.drop_first())
    }
}


// --- The executable parser ---

/// The backslash character.
pub const BACKSLASH: char = '\\';

/// Relies on `char::from_u32`: it yields the character of every Unicode
/// scalar value — any code up to 0x10FFFF outside the surrogate range —
/// and nothing for a surrogate code or a code past 0x10FFFF.
#[verifier::external_body]
fn char_from_u32(u: u32) -> (r: Option<char>)
    ensures
        (u < 0xD800 || (0xE000 <= u && u <= 0x10FFFF)) ==> r == Some(u as char),
        ((0xD800 <= u && u <= 0xDFFF) || u > 0x10FFFF) ==> r is None,
{
    char::from_u32(u)
}

/// Reads four hex digits at `i`, as `hex4_at`.
fn hex4_check(t: &Vec<char>, i: usize) -> (r: i64)
    requires
        i <= t@.len(),
    ensures
        r as int == hex4_at(t@, i as int),
        r < 0x10000,
{
    let n = t.len();
    if n - i < 4 {
        return -1;
    }
    let h1 = hex_check(t[i]);
    let h2 = hex_check(t[i + 1]);
    let h3 = hex_check(t[i + 2]);
    let h4 = hex_check(t[i + 3]);
    if h1 < 0 || h2 < 0 || h3 < 0 || h4 < 0 {
        return -1;
    }
    (((h1 as i64 * 16 + h2 as i64) * 16 + h3 as i64) * 16 + h4 as i64)
}

fn digit_check(c: char) -> (r: bool)
    ensures
        r == is_digit(c),
{
    let u = c as u32;
    48 <= u && u <= 57
}

fn hex_check(c: char) -> (r: i32)
    ensures
        r as int == hex_of(c),
{
    let u = c as u32;
    if 48 <= u && u <= 57 {
        (u - 48) as i32
    } else if 97 <= u && u <= 102 {
        (u - 87) as i32
    } else if 65 <= u && u <= 70 {
        (u - 55) as i32
    } else {
        -1
    }
}

fn scan_digits(t: &Vec<char>, start: usize) -> (e: usize)
    requires
        start <= t@.len(),
    ensures
        e as int == digits_end(t@, start as int),
        start <= e <= t@.len(),
{
    let n = t.len();
    let mut e = start;
    while e < n && digit_check(t[e])
        invariant
            start <= e <= n,
            n == t@.len(),
            digits_end(t@, start as int) == digits_end(t@, e as int),
        decreases n - e,
    {
        e = e + 1;
    }
    e
}

proof fn lemma_digits_val_nonneg(t: Seq<char>, i: int, j: int)
    requires
        forall|k: int| i <= k < j ==> is_digit(#[trigger] t[k]),
        0 <= i,
        j <= t.len(),
    ensures
        digits_val(t, i, j) >= 0,
    decreases j - i,
{
    if j > i {
        lemma_digits_val_nonneg(t, i, j - 1);
        assert(digit_of(t[j - 1]) >= 0);
        assert(digits_val(t, i, j - 1) * 10 >= 0) by (nonlinear_arith)
            requires
                digits_val(t, i, j - 1) >= 0,
        ;
    }
}

proof fn lemma_digits_val_grows(t: Seq<char>, i: int, j: int, e: int)
    requires
        0 <= i <= j <= e <= t.len(),
        forall|k: int| i <= k < e ==> is_digit(#[trigger] t[k]),
    ensures
        digits_val(t, i, e) >= digits_val(t, i, j),
    decreases e - j,
{
    if e > j {
        lemma_digits_val_grows(t, i, j, e - 1);
        lemma_digits_val_nonneg(t, i, e - 1);
        assert(digits_val(t, i, e - 1) * 10 >= digits_val(t, i, e - 1)) by (nonlinear_arith)
            requires
                digits_val(t, i, e - 1) >= 0,
        ;
        assert(digit_of(t[e - 1]) >= 0);
    }
}

proof fn lemma_digits_all(t: Seq<char>, i: int)
    requires
        0 <= i <= t.len(),
    ensures
        forall|k: int| i <= k < digits_end(t, i) ==> is_digit(#[trigger] t[k]),
        i <= digits_end(t, i) <= t.len(),
    decreases t.len() - i,
{
    if i < t.len() && is_digit(t[i]) {
        lemma_digits_all(t, i + 1);
    }
}

/// Accumulates the digit run's value, capped: where the value exceeds
/// 2^63 the run is reported too large.
fn accum_digits(t: &Vec<char>, start: usize, e: usize) -> (r: Option<u64>)
    requires
        start <= e <= t@.len(),
        forall|k: int| start <= k < e ==> is_digit(#[trigger] t@[k]),
    ensures
        match r {
            Some(v) => v as int == digits_val(t@, start as int, e as int) && v
                <= 0x8000000000000000,
            None => digits_val(t@, start as int, e as int) > 0x8000000000000000,
        },
{
    let cap: u64 = 0x8000000000000000;
    let mut acc: u64 = 0;
    let mut j = start;
    while j < e
        invariant
            start <= j <= e <= t@.len(),
            cap == 0x8000000000000000u64,
            forall|k: int| start <= k < e ==> is_digit(#[trigger] t@[k]),
            acc as int == digits_val(t@, start as int, j as int),
            acc <= 0x8000000000000000,
        decreases e - j,
    {
        proof {
            assert(is_digit(t@[j as int]));
        }
        let d = (t[j] as u32 - 48) as u64;
        proof {
            assert(d <= 9);
        }
        if acc > (cap - d) / 10 {
            proof {
                assert(acc * 10 + d > cap) by (nonlinear_arith)
                    requires
                        acc > (cap - d) / 10,
                        d <= 9,
                        cap == 0x8000000000000000u64,
                ;
                assert(digits_val(t@, start as int, j + 1) == acc * 10 + d);
                lemma_digits_val_grows(t@, start as int, j + 1, e as int);
            }
            return None;
        }
        proof {
            assert(acc * 10 + d <= cap) by (nonlinear_arith)
                requires
                    acc <= (cap - d) / 10,
                    d <= 9,
                    cap == 0x8000000000000000u64,
            ;
        }
        acc = acc * 10 + d;
        j = j + 1;
    }
    Some(acc)
}

fn parse_int_exec(t: &Vec<char>, i: usize) -> (r: Option<(i64, usize)>)
    requires
        i < t@.len(),
    ensures
        match r {
            Some((v, j)) => parse_int_at(t@, i as int) == Some((v as int, j as int)) && j
                <= t@.len(),
            None => parse_int_at(t@, i as int) is None,
        },
{
    let n = t.len();
    let neg = t[i] == '-';
    let start = if neg {
        i + 1
    } else {
        i
    };
    let e = scan_digits(t, start);
    if e == start {
        return None;
    }
    proof {
        lemma_digits_all(t@, start as int);
    }
    let val = match accum_digits(t, start, e) {
        Some(v) => v,
        None => {
            return None;
        },
    };
    if neg {
        if val == 0x8000000000000000 {
            Some((i64::MIN, e))
        } else {
            Some((-(val as i64), e))
        }
    } else {
        if val == 0x8000000000000000 {
            None
        } else {
            Some((val as i64, e))
        }
    }
}

/// Reads a string body up to and including the closing quote.
fn parse_string_exec(t: &Vec<char>, i0: usize) -> (r: Option<(Vec<char>, usize)>)
    requires
        i0 <= t@.len(),
    ensures
        match r {
            Some((s, j)) => parse_string_body(t@, i0 as int) == Some((s@, j as int)) && j
                <= t@.len(),
            None => parse_string_body(t@, i0 as int) is None,
        },
{
    let n = t.len();
    let mut out: Vec<char> = Vec::new();
    let mut i = i0;
    loop
        invariant
            i0 <= i <= n,
            n == t@.len(),
            parse_string_body(t@, i0 as int) == (match parse_string_body(t@, i as int) {
                Some((s, j)) => Some((out@ + s, j as int)),
                None => None::<(Seq<char>, int)>,
            }),
        decreases n - i,
    {
        if i >= n {
            return None;
        }
        let c = t[i];
        if c == '"' {
            proof {
                assert(out@ + Seq::<char>::empty() =~= out@);
            }
            return Some((out, i + 1));
        }
        let ghost prev = out@;
        if c == BACKSLASH {
            if n - i < 2 {
                return None;
            }
            let e = t[i + 1];
            if e == 'u' {
                let code = hex4_check(t, i + 2);
                if code < 0 {
                    return None;
                }
                let scalar = code < 0xD800 || (0xE000 <= code && code <= 0xFFFF);
                proof {
                    assert(scalar == is_scalar_code(code as int));
                }
                if scalar {
                    let ch = match char_from_u32(code as u32) {
                        Some(ch) => ch,
                        None => {
                            return None;
                        },
                    };
                    out.push(ch);
                    proof {
                        assert(out@ =~= prev.push(ch));
                        assert forall|s: Seq<char>| prev + (seq![ch] + s) =~= out@ + s by {}
                    }
                    i = i + 6;
                } else if 0xD800 <= code && code <= 0xDBFF {
                    if n - i < 12 || t[i + 6] != BACKSLASH || t[i + 7] != 'u' {
                        return None;
                    }
                    let lo = hex4_check(t, i + 8);
                    if !(0xDC00 <= lo && lo <= 0xDFFF) {
                        return None;
                    }
                    let combined: u32 = 0x10000 + (code as u32 - 0xD800) * 0x400 + (lo as u32
                        - 0xDC00);
                    proof {
                        assert(combined as int == pair_code(code as int, lo as int));
                        assert(0x10000 <= combined && combined <= 0x10FFFF);
                    }
                    let ch = match char_from_u32(combined) {
                        Some(ch) => ch,
                        None => {
                            return None;
                        },
                    };
                    out.push(ch);
                    proof {
                        assert(out@ =~= prev.push(ch));
                        assert forall|s: Seq<char>| prev + (seq![ch] + s) =~= out@ + s by {}
                    }
                    i = i + 12;
                } else {
                    return None;
                }
            } else if e == '"' || e == BACKSLASH || e == '/' || e == 'n' || e == 't' || e == 'r' || e
                == 'b' || e == 'f' {
                let c2 = if e == '"' {
                    '"'
                } else if e == BACKSLASH {
                    BACKSLASH
                } else if e == '/' {
                    '/'
                } else if e == 'n' {
                    '\n'
                } else if e == 't' {
                    '\t'
                } else if e == 'r' {
                    '\r'
                } else if e == 'b' {
                    (8u8) as char
                } else {
                    (12u8) as char
                };
                out.push(c2);
                proof {
                    assert(out@ =~= prev.push(c2));
                    assert forall|s: Seq<char>| prev + (seq![c2] + s) =~= out@ + s by {}
                }
                i = i + 2;
            } else {
                return None;
            }
        } else {
            out.push(c);
            proof {
                assert(out@ =~= prev.push(c));
                assert forall|s: Seq<char>| prev + (seq![c] + s) =~= out@ + s by {}
            }
            i = i + 1;
        }
    }
}

/// Parses one value at `i`.
pub fn parse_value_exec(t: &Vec<char>, i: usize, fuel: usize) -> (r: Option<(Json, usize)>)
    requires
        i <= t@.len(),
    ensures
        match r {
            Some((v, j)) => parse_value_at(t@, i as int, fuel as nat) == Some(
                (v.deep_view(), j as int),
            ) && j <= t@.len(),
            None => parse_value_at(t@, i as int, fuel as nat) is None,
        },
    decreases fuel, 0nat,
{
    if fuel == 0 {
        return None;
    }
    let n = t.len();
    if i >= n {
        return None;
    }
    let c = t[i];
    if c == 'n' {
        if n - i >= 4 && t[i + 1] == 'u' && t[i + 2] == 'l' && t[i + 3] == 'l' {
            Some((Json::Null, i + 4))
        } else {
            None
        }
    } else if c == 't' {
        if n - i >= 4 && t[i + 1] == 'r' && t[i + 2] == 'u' && t[i + 3] == 'e' {
            Some((Json::Bool(true), i + 4))
        } else {
            None
        }
    } else if c == 'f' {
        if n - i >= 5 && t[i + 1] == 'a' && t[i + 2] == 'l' && t[i + 3] == 's' && t[i + 4]
            == 'e' {
            Some((Json::Bool(false), i + 5))
        } else {
            None
        }
    } else if c == '"' {
        match parse_string_exec(t, i + 1) {
            Some((s, j)) => {
                let st = crate::json::string_from_chars(&s);
                Some((Json::Str(st), j))
            },
            None => None,
        }
    } else if c == '[' {
        if i + 1 < n && t[i + 1] == ']' {
            let vs: Vec<Json> = Vec::new();
            let r = Json::Arr(vs);
            proof {
                assert(jview_seq(vs@) =~= Seq::<JsonVal>::empty());
            }
            Some((r, i + 2))
        } else {
            match parse_elems_exec(t, i + 1, fuel - 1) {
                Some((vs, j)) => {
                    let r = Json::Arr(vs);
                    proof {
                        crate::json::lemma_jview_seq_len(r->Arr_0@);
                        assert forall|k: int| 0 <= k < r->Arr_0@.len() implies #[trigger] jview_seq(
                            r->Arr_0@,
                        )[k] == jview(r->Arr_0@[k]) by {
                            crate::json::lemma_jview_seq_index(r->Arr_0@, k);
                        }
                        assert(jview_seq(r->Arr_0@) =~= r->Arr_0.deep_view());
                    }
                    Some((r, j))
                },
                None => None,
            }
        }
    } else if c == '{' {
        if i + 1 < n && t[i + 1] == '}' {
            let ms: Vec<(String, Json)> = Vec::new();
            let r = Json::Obj(ms);
            proof {
                assert(jview_members(ms@) =~= Seq::<(Seq<char>, JsonVal)>::empty());
            }
            Some((r, i + 2))
        } else {
            match parse_members_exec(t, i + 1, fuel - 1) {
                Some((ms, j)) => {
                    let r = Json::Obj(ms);
                    proof {
                        crate::json::lemma_jview_members_len(r->Obj_0@);
                        assert forall|k: int| 0 <= k < r->Obj_0@.len() implies #[trigger] jview_members(
                            r->Obj_0@,
                        )[k] == (r->Obj_0@[k].0@, jview(r->Obj_0@[k].1)) by {
                            crate::json::lemma_jview_members_index(r->Obj_0@, k);
                        }
                        assert(jview_members(r->Obj_0@) =~= r->Obj_0.deep_view());
                    }
                    Some((r, j))
                },
                None => None,
            }
        }
    } else if c == '-' || digit_check(c) {
        match parse_int_exec(t, i) {
            Some((v, j)) => Some((Json::Int(v), j)),
            None => None,
        }
    } else {
        None
    }
}

fn parse_elems_exec(t: &Vec<char>, i: usize, fuel: usize) -> (r: Option<(Vec<Json>, usize)>)
    requires
        i <= t@.len(),
    ensures
        match r {
            Some((vs, j)) => parse_elems_at(t@, i as int, fuel as nat) == Some(
                (vs.deep_view(), j as int),
            ) && j <= t@.len(),
            None => parse_elems_at(t@, i as int, fuel as nat) is None,
        },
    decreases fuel, 1nat,
{
    if fuel == 0 {
        return None;
    }
    let (v, j) = match parse_value_exec(t, i, fuel) {
        Some(p) => p,
        None => {
            return None;
        },
    };
    let n = t.len();
    if j < n && t[j] == ',' {
        match parse_elems_exec(t, j + 1, fuel - 1) {
            Some((mut vs, k)) => {
                let ghost tailv = vs.deep_view();
                vs.insert(0, v);
                proof {
                    assert(vs.deep_view() =~= seq![v.deep_view()] + tailv);
                }
                Some((vs, k))
            },
            None => None,
        }
    } else if j < n && t[j] == ']' {
        let mut vs: Vec<Json> = Vec::new();
        vs.push(v);
        proof {
            assert(vs.deep_view() =~= seq![v.deep_view()]);
        }
        Some((vs, j + 1))
    } else {
        None
    }
}

fn parse_members_exec(t: &Vec<char>, i: usize, fuel: usize) -> (r: Option<
    (Vec<(String, Json)>, usize),
>)
    requires
        i <= t@.len(),
    ensures
        match r {
            Some((ms, j)) => parse_members_at(t@, i as int, fuel as nat) == Some(
                (ms.deep_view(), j as int),
            ) && j <= t@.len(),
            None => parse_members_at(t@, i as int, fuel as nat) is None,
        },
    decreases fuel, 1nat,
{
    if fuel == 0 {
        return None;
    }
    let n = t.len();
    if !(i < n && t[i] == '"') {
        return None;
    }
    let (kchars, j) = match parse_string_exec(t, i + 1) {
        Some(p) => p,
        None => {
            return None;
        },
    };
    proof {
        // the spec position is within bounds because the parse succeeded
        lemma_string_body_bounds(t@, i + 1, kchars@, j as int);
    }
    let key = crate::json::string_from_chars(&kchars);
    if !(j < n && t[j] == ':') {
        return None;
    }
    let (v, j2) = match parse_value_exec(t, j + 1, fuel) {
        Some(p) => p,
        None => {
            return None;
        },
    };
    if j2 < n && t[j2] == ',' {
        match parse_members_exec(t, j2 + 1, fuel - 1) {
            Some((mut ms, j3)) => {
                let ghost tailv = ms.deep_view();
                ms.insert(0, (key, v));
                proof {
                    assert(ms.deep_view() =~= seq![(kchars@, v.deep_view())] + tailv);
                }
                Some((ms, j3))
            },
            None => None,
        }
    } else if j2 < n && t[j2] == '}' {
        let mut ms: Vec<(String, Json)> = Vec::new();
        ms.push((key, v));
        proof {
            assert(ms.deep_view() =~= seq![(kchars@, v.deep_view())]);
        }
        Some((ms, j2 + 1))
    } else {
        None
    }
}

proof fn lemma_string_body_bounds(t: Seq<char>, i: int, s: Seq<char>, j: int)
    requires
        0 <= i <= t.len(),
        parse_string_body(t, i) == Some((s, j)),
    ensures
        i < j <= t.len(),
    decreases t.len() - i,
{
    if t[i] == '"' {
    } else if t[i] == BACKSLASH {
        let e = t[i + 1];
        if e == 'u' {
            if is_scalar_code(hex4_at(t, i + 2)) {
                let (s2, j2) = parse_string_body(t, i + 6)->0;
                lemma_string_body_bounds(t, i + 6, s2, j2);
            } else {
                let (s2, j2) = parse_string_body(t, i + 12)->0;
                lemma_string_body_bounds(t, i + 12, s2, j2);
            }
        } else {
            let (s2, j2) = parse_string_body(t, i + 2)->0;
            lemma_string_body_bounds(t, i + 2, s2, j2);
        }
    } else {
        let (s2, j2) = parse_string_body(t, i + 1)->0;
        lemma_string_body_bounds(t, i + 1, s2, j2);
    }
}

/// Parses one frame: a single JSON value spanning the whole text.
pub fn parse_json(t: &Vec<char>) -> (r: Option<Json>)
    requires
        t@.len() < usize::MAX,
    ensures
        r.deep_view() == spec_parse_text(t@),
{
    let n = t.len();
    match parse_value_exec(t, 0, n + 1) {
        Some((v, j)) => {
            if j == n {
                Some(v)
            } else {
                None
            }
        },
        None => None,
    }
}


// --- Facts about serialized text ---

/// Integers whose nodes all fit 64 bits; everything the executable tree
/// can denote.
pub open spec fn jval_wf(v: JsonVal) -> bool
    decreases v, 0nat,
{
    match v {
        JsonVal::Int(i) => i64::MIN <= i <= i64::MAX,
        JsonVal::Arr(items) => jval_wf_seq(items),
        JsonVal::Obj(ms) => jval_wf_members(ms),
        _ => true,
    }
}

pub open spec fn jval_wf_seq(s: Seq<JsonVal>) -> bool
    decreases s, 1nat,
{
    s.len() == 0 || (jval_wf(s[0]) && jval_wf_seq(s.drop_first()))
}

pub open spec fn jval_wf_members(s: Seq<(Seq<char>, JsonVal)>) -> bool
    decreases s, 1nat,
{
    s.len() == 0 || (jval_wf(s[0].1) && jval_wf_members(s.drop_first()))
}

proof fn lemma_wf_seq_index(s: Seq<JsonVal>, k: int)
    requires
        jval_wf_seq(s),
        0 <= k < s.len(),
    ensures
        jval_wf(s[k]),
    decreases k,
{
    if k > 0 {
        assert(s.drop_first()[k - 1] == s[k]);
        lemma_wf_seq_index(s.drop_first(), k - 1);
    }
}

proof fn lemma_wf_members_index(s: Seq<(Seq<char>, JsonVal)>, k: int)
    requires
        jval_wf_members(s),
        0 <= k < s.len(),
    ensures
        jval_wf(s[k].1),
    decreases k,
{
    if k > 0 {
        assert(s.drop_first()[k - 1] == s[k]);
        lemma_wf_members_index(s.drop_first(), k - 1);
    }
}

proof fn lemma_wf_seq_build(s: Seq<JsonVal>)
    requires
        forall|k: int| 0 <= k < s.len() ==> jval_wf(#[trigger] s[k]),
    ensures
        jval_wf_seq(s),
    decreases s,
{
    if s.len() > 0 {
        assert forall|k: int| 0 <= k < s.drop_first().len() implies jval_wf(
            #[trigger] s.drop_first()[k],
        ) by {
            assert(s.drop_first()[k] == s[k + 1]);
        }
        lemma_wf_seq_build(s.drop_first());
    }
}

proof fn lemma_wf_members_build(s: Seq<(Seq<char>, JsonVal)>)
    requires
        forall|k: int| 0 <= k < s.len() ==> jval_wf(#[trigger] s[k].1),
    ensures
        jval_wf_members(s),
    decreases s,
{
    if s.len() > 0 {
        assert forall|k: int| 0 <= k < s.drop_first().len() implies jval_wf(
            #[trigger] s.drop_first()[k].1,
        ) by {
            assert(s.drop_first()[k] == s[k + 1]);
        }
        lemma_wf_members_build(s.drop_first());
    }
}

/// The value of any executable tree is well formed.
pub proof fn lemma_jview_wf(j: &Json)
    ensures
        jval_wf(jview(*j)),
    decreases *j,
{
    if let Json::Arr(items) = j {
        crate::json::lemma_jview_seq_len(items@);
        assert forall|k: int| 0 <= k < jview_seq(items@).len() implies jval_wf(
            #[trigger] jview_seq(items@)[k],
        ) by {
            crate::json::lemma_jview_seq_index(items@, k);
            assert(decreases_to!(*j => (*j)->Arr_0));
            assert((*j)->Arr_0 == *items);
            assert(decreases_to!(*items => items@));
            assert(decreases_to!(items@ => items@[k]));
            lemma_jview_wf(&items@[k]);
        }
        lemma_wf_seq_build(jview_seq(items@));
        assert(jview(*j) == JsonVal::Arr(jview_seq(items@)));
    } else if let Json::Obj(ms) = j {
        crate::json::lemma_jview_members_len(ms@);
        assert forall|k: int| 0 <= k < jview_members(ms@).len() implies jval_wf(
            #[trigger] jview_members(ms@)[k].1,
        ) by {
            crate::json::lemma_jview_members_index(ms@, k);
            assert(decreases_to!(*j => (*j)->Obj_0));
            assert((*j)->Obj_0 == *ms);
            assert(decreases_to!(*ms => ms@));
            assert(decreases_to!(ms@ => ms@[k]));
            assert(decreases_to!(ms@[k] => ms@[k].1));
            lemma_jview_wf(&ms@[k].1);
        }
        lemma_wf_members_build(jview_members(ms@));
        assert(jview(*j) == JsonVal::Obj(jview_members(ms@)));
    } else {
        assert(jval_wf(jview(*j)));
    }
}

proof fn lemma_spec_digits_are_digits(n: nat)
    ensures
        spec_digits(n).len() >= 1,
        forall|k: int| 0 <= k < spec_digits(n).len() ==> is_digit(#[trigger] spec_digits(n)[k]),
    decreases n,
{
    if n < 10 {
        assert(48 + n <= 57);
        assert(digit_char(n as int) == ((48 + n) as u8) as char);
        assert((((48 + n) as u8) as char) as u32 == 48 + n);
        assert(is_digit(spec_digits(n)[0]));
    } else {
        lemma_spec_digits_are_digits(n / 10);
        let d = (n % 10) as int;
        assert(0 <= d < 10);
        assert((((48 + d) as u8) as char) as u32 == 48 + d);
        assert(is_digit(digit_char(d)));
        assert forall|k: int| 0 <= k < spec_digits(n).len() implies is_digit(
            #[trigger] spec_digits(n)[k],
        ) by {
            if k < spec_digits(n / 10).len() {
                assert(spec_digits(n)[k] == spec_digits(n / 10)[k]);
            } else {
                assert(spec_digits(n)[k] == digit_char(d));
            }
        }
    }
}

proof fn lemma_digits_end_of_run(t: Seq<char>, i: int, e: int)
    requires
        0 <= i <= e <= t.len(),
        forall|k: int| i <= k < e ==> is_digit(#[trigger] t[k]),
        e == t.len() || !is_digit(t[e]),
    ensures
        digits_end(t, i) == e,
    decreases e - i,
{
    if i < e {
        lemma_digits_end_of_run(t, i + 1, e);
    }
}

proof fn lemma_digits_val_of_digits(t: Seq<char>, i: int, n: nat)
    requires
        0 <= i,
        i + spec_digits(n).len() <= t.len(),
        t.subrange(i, i + spec_digits(n).len()) == spec_digits(n),
    ensures
        digits_val(t, i, i + spec_digits(n).len()) == n,
    decreases n,
{
    let l = spec_digits(n).len() as int;
    if n < 10 {
        assert(t[i] == spec_digits(n)[0]);
        assert(digit_char(n as int) == ((48 + n) as u8) as char);
        assert((((48 + n) as u8) as char) as u32 == 48 + n);
        assert(digit_of(t[i]) == n);
        assert(digits_val(t, i, i + 1) == digits_val(t, i, i) * 10 + digit_of(t[i]));
    } else {
        let lp = spec_digits(n / 10).len() as int;
        assert(l == lp + 1);
        assert(t.subrange(i, i + lp) =~= spec_digits(n / 10)) by {
            assert forall|k: int| 0 <= k < lp implies #[trigger] t.subrange(i, i + lp)[k]
                == spec_digits(n / 10)[k] by {
                assert(t.subrange(i, i + l)[k] == spec_digits(n)[k]);
                assert(spec_digits(n)[k] == spec_digits(n / 10)[k]);
            }
        }
        lemma_digits_val_of_digits(t, i, n / 10);
        let d = (n % 10) as int;
        assert(t[i + l - 1] == spec_digits(n)[l - 1]);
        assert(spec_digits(n)[l - 1] == digit_char(d));
        assert((((48 + d) as u8) as char) as u32 == 48 + d);
        assert(digit_of(t[i + l - 1]) == d);
        assert(digits_val(t, i, i + l) == digits_val(t, i, i + l - 1) * 10 + d);
        assert((n / 10) * 10 + n % 10 == n) by (nonlinear_arith);
    }
}

proof fn lemma_parse_int_inverts(t: Seq<char>, i: int, v: int)
    requires
        0 <= i,
        i64::MIN <= v <= i64::MAX,
        i + spec_ser_int(v).len() <= t.len(),
        t.subrange(i, i + spec_ser_int(v).len()) == spec_ser_int(v),
        i + spec_ser_int(v).len() == t.len() || !is_digit(t[i + spec_ser_int(v).len()]),
    ensures
        parse_int_at(t, i) == Some((v, i + spec_ser_int(v).len())),
{
    let l = spec_ser_int(v).len() as int;
    if v < 0 {
        let mag = (-v) as nat;
        let dl = spec_digits(mag).len() as int;
        assert(l == dl + 1);
        assert(t[i] == spec_ser_int(v)[0]);
        assert(spec_ser_int(v)[0] == '-');
        lemma_spec_digits_are_digits(mag);
        assert(t.subrange(i + 1, i + 1 + dl) =~= spec_digits(mag)) by {
            assert forall|k: int| 0 <= k < dl implies #[trigger] t.subrange(i + 1, i + 1 + dl)[k]
                == spec_digits(mag)[k] by {
                assert(t.subrange(i, i + l)[k + 1] == spec_ser_int(v)[k + 1]);
                assert(spec_ser_int(v)[k + 1] == spec_digits(mag)[k]);
            }
        }
        assert forall|k: int| i + 1 <= k < i + 1 + dl implies is_digit(#[trigger] t[k]) by {
            assert(t[k] == spec_digits(mag)[k - i - 1]);
        }
        lemma_digits_end_of_run(t, i + 1, i + 1 + dl);
        lemma_digits_val_of_digits(t, i + 1, mag);
        assert(('-' as u32) == 45);
        assert(!is_digit('-'));
        assert(mag <= 0x8000000000000000);
    } else {
        let mag = v as nat;
        let dl = spec_digits(mag).len() as int;
        assert(l == dl);
        lemma_spec_digits_are_digits(mag);
        assert(t.subrange(i, i + dl) =~= spec_digits(mag));
        assert forall|k: int| i <= k < i + dl implies is_digit(#[trigger] t[k]) by {
            assert(t[k] == spec_digits(mag)[k - i]);
        }
        assert(t[i] == spec_digits(mag)[0]);
        assert(is_digit(t[i]));
        assert(('-' as u32) == 45);
        assert(t[i] != '-');
        lemma_digits_end_of_run(t, i, i + dl);
        lemma_digits_val_of_digits(t, i, mag);
        assert(mag <= 0x7fffffffffffffff);
    }
}


/// Splitting a matched region in two.
proof fn lemma_subrange_split(t: Seq<char>, i: int, a: Seq<char>, b: Seq<char>)
    requires
        0 <= i,
        i + a.len() + b.len() <= t.len(),
        t.subrange(i, i + a.len() + b.len()) == a + b,
    ensures
        t.subrange(i, i + a.len()) =~= a,
        t.subrange(i + a.len(), i + a.len() + b.len()) =~= b,
{
    let w = t.subrange(i, i + a.len() + b.len());
    assert forall|k: int| 0 <= k < a.len() implies #[trigger] t.subrange(i, i + a.len())[k]
        == a[k] by {
        assert(w[k] == (a + b)[k]);
    }
    assert forall|k: int| 0 <= k < b.len() implies #[trigger] t.subrange(
        i + a.len(),
        i + a.len() + b.len(),
    )[k] == b[k] by {
        assert(w[k + a.len()] == (a + b)[k + a.len()]);
    }
}

/// The body of a serialized string, read from the front.
proof fn lemma_escape_front(s: Seq<char>)
    requires
        s.len() > 0,
    ensures
        spec_escape(s) == esc_char(s[0]) + spec_escape(s.drop_first()),
    decreases s.len(),
{
    if s.len() == 1 {
        assert(s.drop_last() =~= Seq::<char>::empty());
        assert(s.drop_first() =~= Seq::<char>::empty());
        assert(spec_escape(s) =~= esc_char(s[0]) + spec_escape(s.drop_first()));
    } else {
        let p = s.drop_last();
        lemma_escape_front(p);
        assert(p[0] == s[0]);
        assert(p.drop_first() =~= s.drop_first().drop_last());
        assert(s.drop_first().last() == s.last());
        assert(spec_escape(s) == spec_escape(p) + esc_char(s.last()));
        assert(spec_escape(s.drop_first()) == spec_escape(s.drop_first().drop_last()) + esc_char(
            s.last(),
        ));
        assert((esc_char(s[0]) + spec_escape(p.drop_first())) + esc_char(s.last()) =~= esc_char(
            s[0],
        ) + spec_escape(s.drop_first()));
    }
}

proof fn lemma_hex_of_hex_char(d: int)
    requires
        0 <= d < 16,
    ensures
        hex_of(hex_char(d)) == d,
{
    if d < 10 {
        assert((((48 + d) as u8) as char) as u32 == 48 + d);
    } else {
        assert((((87 + d) as u8) as char) as u32 == 87 + d);
    }
}

/// Parsing the serialized body of a string yields the string back and
/// stops just past its closing quote.
proof fn lemma_parse_string_inverts(t: Seq<char>, i: int, s: Seq<char>)
    requires
        0 <= i,
        i + spec_escape(s).len() < t.len(),
        t.subrange(i, i + spec_escape(s).len()) == spec_escape(s),
        t[i + spec_escape(s).len()] == '"',
    ensures
        parse_string_body(t, i) == Some((s, i + spec_escape(s).len() + 1)),
    decreases s.len(),
{
    let l = spec_escape(s).len() as int;
    if s.len() == 0 {
        assert(l == 0);
        assert(t[i] == '"');
        assert(parse_string_body(t, i) == Some((Seq::<char>::empty(), i + 1)));
        assert(s =~= Seq::<char>::empty());
    } else {
        let c = s[0];
        let rest = s.drop_first();
        lemma_escape_front(s);
        let e1 = esc_char(c);
        lemma_subrange_split(t, i, e1, spec_escape(rest));
        let i2 = i + e1.len() as int;
        assert(t.subrange(i2, i2 + spec_escape(rest).len()) =~= spec_escape(rest));
        assert(t[i2 + spec_escape(rest).len()] == '"') by {
            assert(i2 + spec_escape(rest).len() == i + l);
        }
        lemma_parse_string_inverts(t, i2, rest);
        assert forall|k: int| 0 <= k < e1.len() implies #[trigger] t[i + k] == e1[k] by {
            assert(t.subrange(i, i + e1.len())[k] == e1[k]);
        }
        if c == '"' || c == BACKSLASH || c == '\n' || c == '\r' || c == '\t' {
            assert(e1.len() == 2);
            assert(t[i] == BACKSLASH);
            assert(t[i + 1] == e1[1]);
            assert(seq![c] + rest =~= s);
        } else if (c as u32) < 32 {
            assert(e1.len() == 6);
            assert(t[i] == BACKSLASH);
            assert(t[i + 1] == 'u');
            assert(t[i + 2] == '0' && t[i + 3] == '0');
            assert(('0' as u32) == 48);
            assert(hex_of('0') == 0);
            let u = c as u32;
            assert(t[i + 4] == hex_char(u as int / 16));
            assert(t[i + 5] == hex_char(u as int % 16));
            lemma_hex_of_hex_char(u as int / 16);
            lemma_hex_of_hex_char(u as int % 16);
            let code = ((0 * 16 + 0) * 16 + (u as int / 16)) * 16 + (u as int % 16);
            assert(code == (u as int / 16) * 16 + (u as int % 16));
            assert(code == u as int);
            assert(is_scalar_code(code));
            assert(((code as u32) as char) == c) by {
                vstd::utf8::char_u32_cast(c, u);
            }
            assert(seq![c] + rest =~= s);
        } else {
            assert(e1 =~= seq![c]);
            assert(e1[0] == c);
            assert(t[i + 0] == e1[0]);
            assert(t[i] == c);
            assert(c != '"' && c != BACKSLASH);
            assert(seq![c] + rest =~= s);
        }
    }
}


/// The characters a serialized value can start with.
pub open spec fn starts_value(c: char) -> bool {
    c == 'n' || c == 't' || c == 'f' || c == '"' || c == '[' || c == '{' || c == '-' || is_digit(
        c,
    )
}

proof fn lemma_ser_starts(v: JsonVal)
    ensures
        spec_ser(v).len() >= 1,
        starts_value(spec_ser(v)[0]),
    decreases v,
{
    match v {
        JsonVal::Int(i) => {
            if i < 0 {
            } else {
                lemma_spec_digits_are_digits(i as nat);
                assert(spec_ser(v)[0] == spec_digits(i as nat)[0]);
            }
        },
        _ => {},
    }
}

/// Serialized array elements, read from the front.
proof fn lemma_ser_arr_front(s: Seq<JsonVal>)
    requires
        s.len() >= 1,
    ensures
        s.len() == 1 ==> spec_ser_arr(s) == spec_ser(s[0]),
        s.len() > 1 ==> spec_ser_arr(s) == spec_ser(s[0]) + seq![','] + spec_ser_arr(
            s.drop_first(),
        ),
    decreases s.len(),
{
    if s.len() == 1 {
    } else if s.len() == 2 {
        assert(s.drop_last()[0] == s[0]);
        assert(s.drop_last().len() == 1);
        assert(s.drop_first().len() == 1);
        assert(s.drop_first()[0] == s[1]);
        assert(s.last() == s[1]);
        assert(spec_ser_arr(s) == spec_ser_arr(s.drop_last()) + seq![','] + spec_ser(s.last()));
        assert(spec_ser_arr(s.drop_last()) == spec_ser(s[0]));
        assert(spec_ser_arr(s.drop_first()) == spec_ser(s[1]));
        assert(spec_ser(s[0]) + seq![','] + spec_ser(s[1]) =~= spec_ser(s[0]) + seq![',']
            + spec_ser_arr(s.drop_first()));
    } else {
        let p = s.drop_last();
        lemma_ser_arr_front(p);
        assert(p[0] == s[0]);
        assert(p.drop_first() =~= s.drop_first().drop_last());
        assert(s.drop_first().last() == s.last());
        assert(s.drop_first().len() > 1);
        assert(spec_ser_arr(s) == spec_ser_arr(p) + seq![','] + spec_ser(s.last()));
        assert(spec_ser_arr(p) == spec_ser(s[0]) + seq![','] + spec_ser_arr(p.drop_first()));
        assert(spec_ser_arr(s.drop_first()) == spec_ser_arr(s.drop_first().drop_last())
            + seq![','] + spec_ser(s.drop_first().last()));
        assert((spec_ser(s[0]) + seq![','] + spec_ser_arr(p.drop_first())) + seq![',']
            + spec_ser(s.last()) =~= spec_ser(s[0]) + seq![','] + spec_ser_arr(s.drop_first()));
    }
}

/// Serialized object members, read from the front.
proof fn lemma_ser_obj_front(s: Seq<(Seq<char>, JsonVal)>)
    requires
        s.len() >= 1,
    ensures
        s.len() == 1 ==> spec_ser_obj(s) == spec_ser_member(s[0]),
        s.len() > 1 ==> spec_ser_obj(s) == spec_ser_member(s[0]) + seq![','] + spec_ser_obj(
            s.drop_first(),
        ),
    decreases s.len(),
{
    if s.len() == 1 {
    } else if s.len() == 2 {
        assert(s.drop_last()[0] == s[0]);
        assert(s.drop_last().len() == 1);
        assert(s.drop_first().len() == 1);
        assert(s.drop_first()[0] == s[1]);
        assert(s.last() == s[1]);
        assert(spec_ser_obj(s) == spec_ser_obj(s.drop_last()) + seq![','] + spec_ser_member(
            s.last(),
        ));
        assert(spec_ser_obj(s.drop_last()) == spec_ser_member(s[0]));
        assert(spec_ser_obj(s.drop_first()) == spec_ser_member(s[1]));
        assert(spec_ser_member(s[0]) + seq![','] + spec_ser_member(s[1]) =~= spec_ser_member(
            s[0],
        ) + seq![','] + spec_ser_obj(s.drop_first()));
    } else {
        let p = s.drop_last();
        lemma_ser_obj_front(p);
        assert(p[0] == s[0]);
        assert(p.drop_first() =~= s.drop_first().drop_last());
        assert(s.drop_first().last() == s.last());
        assert(s.drop_first().len() > 1);
        assert(spec_ser_obj(s) == spec_ser_obj(p) + seq![','] + spec_ser_member(s.last()));
        assert(spec_ser_obj(p) == spec_ser_member(s[0]) + seq![','] + spec_ser_obj(
            p.drop_first(),
        ));
        assert(spec_ser_obj(s.drop_first()) == spec_ser_obj(s.drop_first().drop_last())
            + seq![','] + spec_ser_member(s.drop_first().last()));
        assert((spec_ser_member(s[0]) + seq![','] + spec_ser_obj(p.drop_first())) + seq![',']
            + spec_ser_member(s.last()) =~= spec_ser_member(s[0]) + seq![','] + spec_ser_obj(
            s.drop_first(),
        ));
    }
}

/// A value's fuel need never exceeds its serialized length.
proof fn lemma_jsize_le_ser(v: JsonVal)
    ensures
        jsize(v) <= spec_ser(v).len(),
    decreases v,
{
    match v {
        JsonVal::Int(i) => {
            if i < 0 {
                lemma_spec_digits_are_digits((-i) as nat);
            } else {
                lemma_spec_digits_are_digits(i as nat);
            }
        },
        JsonVal::Arr(items) => {
            lemma_jsize_seq_le_ser(items);
        },
        JsonVal::Obj(ms) => {
            lemma_jsize_members_le_ser(ms);
        },
        _ => {},
    }
}

proof fn lemma_jsize_seq_le_ser(s: Seq<JsonVal>)
    ensures
        jsize_seq(s) <= spec_ser_arr(s).len() + 1,
    decreases s,
{
    if s.len() == 0 {
    } else {
        assert(decreases_to!(s => s[0]));
        lemma_jsize_le_ser(s[0]);
        lemma_jsize_seq_le_ser(s.drop_first());
        lemma_ser_arr_front(s);
        lemma_ser_starts(s[0]);
    }
}

proof fn lemma_jsize_members_le_ser(s: Seq<(Seq<char>, JsonVal)>)
    ensures
        jsize_members(s) <= spec_ser_obj(s).len() + 1,
    decreases s,
{
    if s.len() == 0 {
    } else {
        assert(decreases_to!(s => s[0]));
        assert(decreases_to!(s[0] => s[0].1));
        lemma_jsize_le_ser(s[0].1);
        lemma_jsize_members_le_ser(s.drop_first());
        lemma_ser_obj_front(s);
        lemma_ser_starts(s[0].1);
        assert(spec_ser_member(s[0]).len() >= spec_ser(s[0].1).len() + 3);
    }
}


/// Parsing a serialized value yields the value back and stops exactly at
/// its end.
proof fn lemma_parse_value_inverts(t: Seq<char>, i: int, v: JsonVal, fuel: nat)
    requires
        0 <= i,
        jval_wf(v),
        i + spec_ser(v).len() <= t.len(),
        t.subrange(i, i + spec_ser(v).len()) == spec_ser(v),
        fuel >= jsize(v),
        i + spec_ser(v).len() == t.len() || !is_digit(t[i + spec_ser(v).len()]),
    ensures
        parse_value_at(t, i, fuel) == Some((v, i + spec_ser(v).len())),
    decreases jsize(v), 0nat,
{
    let l = spec_ser(v).len() as int;
    lemma_ser_starts(v);
    assert forall|k: int| 0 <= k < l implies #[trigger] t[i + k] == spec_ser(v)[k] by {
        assert(t.subrange(i, i + l)[k] == spec_ser(v)[k]);
    }
    match v {
        JsonVal::Null => {
            assert(t[i + 0] == 'n' && t[i + 1] == 'u' && t[i + 2] == 'l' && t[i + 3] == 'l');
        },
        JsonVal::Bool(b) => {
            if b {
                assert(t[i + 0] == 't' && t[i + 1] == 'r' && t[i + 2] == 'u' && t[i + 3] == 'e');
            } else {
                assert(t[i + 0] == 'f' && t[i + 1] == 'a' && t[i + 2] == 'l' && t[i + 3] == 's'
                    && t[i + 4] == 'e');
            }
        },
        JsonVal::Int(x) => {
            assert(t[i + 0] == spec_ser_int(x)[0]);
            lemma_parse_int_inverts(t, i, x);
        },
        JsonVal::Str(str0) => {
            assert(t[i + 0] == '"');
            let esc = spec_escape(str0);
            assert(spec_ser(v) =~= seq!['"'] + (esc + seq!['"']));
            lemma_subrange_split(t, i, seq!['"'], esc + seq!['"']);
            lemma_subrange_split(t, i + 1, esc, seq!['"']);
            assert(t.subrange(i + 1 + esc.len(), i + 1 + esc.len() + 1)[0] == '"');
            assert(t[i + 1 + esc.len()] == '"');
            lemma_parse_string_inverts(t, i + 1, str0);
        },
        JsonVal::Arr(items) => {
            assert(t[i + 0] == '[');
            if items.len() == 0 {
                assert(spec_ser_arr(items) =~= Seq::<char>::empty());
                assert(spec_ser(v).len() == 2);
                assert(t[i + 1] == ']');
                assert(parse_value_at(t, i, fuel) == Some(
                    (JsonVal::Arr(Seq::empty()), i + 2),
                ));
                assert(items =~= Seq::<JsonVal>::empty());
                assert(JsonVal::Arr(Seq::<JsonVal>::empty()) == v);
            } else {
                let la = spec_ser_arr(items).len() as int;
                assert(spec_ser(v) =~= seq!['['] + (spec_ser_arr(items) + seq![']']));
                lemma_subrange_split(t, i, seq!['['], spec_ser_arr(items) + seq![']']);
                lemma_subrange_split(t, i + 1, spec_ser_arr(items), seq![']']);
                assert(t.subrange(i + 1 + la, i + 1 + la + 1)[0] == ']');
                assert(t[i + 1 + la] == ']');
                lemma_ser_arr_front(items);
                lemma_ser_starts(items[0]);
                assert(spec_ser_arr(items)[0] == spec_ser(items[0])[0]) by {
                    if items.len() > 1 {
                        assert(spec_ser_arr(items) == spec_ser(items[0]) + seq![',']
                            + spec_ser_arr(items.drop_first()));
                    }
                }
                assert(t[i + 1] == spec_ser_arr(items)[0]) by {
                    assert(t.subrange(i + 1, i + 1 + la)[0] == spec_ser_arr(items)[0]);
                }
                assert(starts_value(t[i + 1]));
                assert(t[i + 1] != ']');
                assert(jsize(v) == 1 + jsize_seq(items));
                assert(jval_wf_seq(items));
                lemma_parse_elems_inverts(t, i + 1, items, (fuel - 1) as nat);
                assert(parse_elems_at(t, i + 1, (fuel - 1) as nat) == Some(
                    (items, i + 1 + la + 1),
                ));
                assert(i + 1 + la + 1 == i + l);
            }
        },
        JsonVal::Obj(ms) => {
            assert(t[i + 0] == '{');
            if ms.len() == 0 {
                assert(spec_ser_obj(ms) =~= Seq::<char>::empty());
                assert(spec_ser(v).len() == 2);
                assert(t[i + 1] == '}');
                assert(ms =~= Seq::<(Seq<char>, JsonVal)>::empty());
                assert(JsonVal::Obj(Seq::<(Seq<char>, JsonVal)>::empty()) == v);
            } else {
                let lo = spec_ser_obj(ms).len() as int;
                assert(spec_ser(v) =~= seq!['{'] + (spec_ser_obj(ms) + seq!['}']));
                lemma_subrange_split(t, i, seq!['{'], spec_ser_obj(ms) + seq!['}']);
                lemma_subrange_split(t, i + 1, spec_ser_obj(ms), seq!['}']);
                assert(t.subrange(i + 1 + lo, i + 1 + lo + 1)[0] == '}');
                assert(t[i + 1 + lo] == '}');
                lemma_ser_obj_front(ms);
                assert(spec_ser_obj(ms)[0] == '"') by {
                    if ms.len() > 1 {
                        assert(spec_ser_obj(ms) == spec_ser_member(ms[0]) + seq![',']
                            + spec_ser_obj(ms.drop_first()));
                        assert(spec_ser_member(ms[0])[0] == '"');
                    } else {
                        assert(spec_ser_member(ms[0])[0] == '"');
                    }
                }
                assert(t[i + 1] == spec_ser_obj(ms)[0]) by {
                    assert(t.subrange(i + 1, i + 1 + lo)[0] == spec_ser_obj(ms)[0]);
                }
                assert(t[i + 1] != '}');
                assert(jsize(v) == 1 + jsize_members(ms));
                assert(jval_wf_members(ms));
                lemma_parse_members_inverts(t, i + 1, ms, (fuel - 1) as nat);
                assert(i + 1 + lo + 1 == i + l);
            }
        },
    }
}

/// Parsing serialized array elements followed by the closing bracket
/// yields the elements back.
proof fn lemma_parse_elems_inverts(t: Seq<char>, i: int, items: Seq<JsonVal>, fuel: nat)
    requires
        0 <= i,
        items.len() >= 1,
        jval_wf_seq(items),
        i + spec_ser_arr(items).len() < t.len(),
        t.subrange(i, i + spec_ser_arr(items).len()) == spec_ser_arr(items),
        t[i + spec_ser_arr(items).len()] == ']',
        fuel >= jsize_seq(items),
    ensures
        parse_elems_at(t, i, fuel) == Some((items, i + spec_ser_arr(items).len() + 1)),
    decreases jsize_seq(items), 1nat,
{
    let la = spec_ser_arr(items).len() as int;
    let v0 = items[0];
    let l0 = spec_ser(v0).len() as int;
    lemma_ser_arr_front(items);
    assert((']' as u32) == 93);
    assert((',' as u32) == 44);
    assert(!is_digit(']') && !is_digit(','));
    assert(jsize_seq(items) == 1 + jsize(v0) + jsize_seq(items.drop_first()));
    assert(jval_wf(v0));
    if items.len() == 1 {
        assert(spec_ser_arr(items) == spec_ser(v0));
        lemma_parse_value_inverts(t, i, v0, fuel);
        assert(t[i + l0] == ']');
        assert(seq![v0] =~= items);
    } else {
        let rest = items.drop_first();
        assert(spec_ser_arr(items) == spec_ser(v0) + (seq![','] + spec_ser_arr(rest))) by {
            assert(spec_ser(v0) + seq![','] + spec_ser_arr(rest) =~= spec_ser(v0) + (seq![',']
                + spec_ser_arr(rest)));
        }
        lemma_subrange_split(t, i, spec_ser(v0), seq![','] + spec_ser_arr(rest));
        lemma_subrange_split(t, i + l0, seq![','], spec_ser_arr(rest));
        assert(t.subrange(i + l0, i + l0 + 1)[0] == ',');
        assert(t[i + l0] == ',');
        lemma_parse_value_inverts(t, i, v0, fuel);
        assert(jval_wf_seq(rest));
        assert(i + l0 + 1 + spec_ser_arr(rest).len() == i + la);
        lemma_parse_elems_inverts(t, i + l0 + 1, rest, (fuel - 1) as nat);
        assert(seq![v0] + rest =~= items);
    }
}

/// Parsing serialized object members followed by the closing brace yields
/// the members back.
proof fn lemma_parse_members_inverts(
    t: Seq<char>,
    i: int,
    ms: Seq<(Seq<char>, JsonVal)>,
    fuel: nat,
)
    requires
        0 <= i,
        ms.len() >= 1,
        jval_wf_members(ms),
        i + spec_ser_obj(ms).len() < t.len(),
        t.subrange(i, i + spec_ser_obj(ms).len()) == spec_ser_obj(ms),
        t[i + spec_ser_obj(ms).len()] == '}',
        fuel >= jsize_members(ms),
    ensures
        parse_members_at(t, i, fuel) == Some((ms, i + spec_ser_obj(ms).len() + 1)),
    decreases jsize_members(ms), 1nat,
{
    let lo = spec_ser_obj(ms).len() as int;
    let m0 = ms[0];
    let lm = spec_ser_member(m0).len() as int;
    let esc = spec_escape(m0.0);
    lemma_ser_obj_front(ms);
    assert(('}' as u32) == 125);
    assert((',' as u32) == 44);
    assert((':' as u32) == 58);
    assert(!is_digit('}') && !is_digit(',') && !is_digit(':'));
    assert(jsize_members(ms) == 1 + jsize(m0.1) + jsize_members(ms.drop_first()));
    assert(jval_wf(m0.1));
    // the member's own text: quote, escaped key, quote, colon, value
    assert(spec_ser_member(m0) =~= seq!['"'] + (esc + (seq!['"', ':'] + spec_ser(m0.1))));
    let after = if ms.len() == 1 {
        seq!['}']
    } else {
        seq![','] + spec_ser_obj(ms.drop_first())
    };
    assert(t.subrange(i, i + lm) =~= spec_ser_member(m0)) by {
        if ms.len() == 1 {
            assert(spec_ser_obj(ms) == spec_ser_member(m0));
        } else {
            assert(spec_ser_obj(ms) == spec_ser_member(m0) + (seq![','] + spec_ser_obj(
                ms.drop_first(),
            ))) by {
                assert(spec_ser_member(m0) + seq![','] + spec_ser_obj(ms.drop_first())
                    =~= spec_ser_member(m0) + (seq![','] + spec_ser_obj(ms.drop_first())));
            }
            lemma_subrange_split(t, i, spec_ser_member(m0), seq![','] + spec_ser_obj(
                ms.drop_first(),
            ));
        }
    }
    lemma_subrange_split(t, i, seq!['"'], esc + (seq!['"', ':'] + spec_ser(m0.1)));
    lemma_subrange_split(t, i + 1, esc, seq!['"', ':'] + spec_ser(m0.1));
    lemma_subrange_split(t, i + 1 + esc.len(), seq!['"', ':'], spec_ser(m0.1));
    assert(t.subrange(i, i + 1)[0] == '"');
    assert(t[i] == '"');
    let jq = i + 1 + esc.len() as int;
    assert(t.subrange(jq, jq + 2)[0] == '"');
    assert(t.subrange(jq, jq + 2)[1] == ':');
    assert(t[jq] == '"' && t[jq + 1] == ':');
    lemma_parse_string_inverts(t, i + 1, m0.0);
    assert(parse_string_body(t, i + 1) == Some((m0.0, jq + 1)));
    let vstart = jq + 2;
    assert(t.subrange(vstart, vstart + spec_ser(m0.1).len()) == spec_ser(m0.1));
    assert(vstart + spec_ser(m0.1).len() == i + lm);
    if ms.len() == 1 {
        assert(t[i + lm] == '}');
        lemma_parse_value_inverts(t, vstart, m0.1, fuel);
        assert(seq![(m0.0, m0.1)] =~= ms);
        assert((m0.0, m0.1) == m0);
    } else {
        let rest = ms.drop_first();
        assert(t.subrange(i + lm, i + lm + 1 + spec_ser_obj(rest).len()) =~= seq![',']
            + spec_ser_obj(rest)) by {
            assert(spec_ser_obj(ms) == spec_ser_member(m0) + (seq![','] + spec_ser_obj(rest)));
            lemma_subrange_split(t, i, spec_ser_member(m0), seq![','] + spec_ser_obj(rest));
        }
        lemma_subrange_split(t, i + lm, seq![','], spec_ser_obj(rest));
        assert(t.subrange(i + lm, i + lm + 1)[0] == ',');
        assert(t[i + lm] == ',');
        lemma_parse_value_inverts(t, vstart, m0.1, fuel);
        assert(jval_wf_members(rest));
        assert(i + lm + 1 + spec_ser_obj(rest).len() == i + lo);
        lemma_parse_members_inverts(t, i + lm + 1, rest, (fuel - 1) as nat);
        assert(seq![(m0.0, m0.1)] + rest =~= ms);
    }
}

/// Serialising any well-formed JSON value and parsing the text back
/// yields the value unchanged.
pub proof fn lemma_text_round_trip(v: JsonVal)
    requires
        jval_wf(v),
    ensures
        spec_parse_text(spec_ser(v)) == Some(v),
{
    let t = spec_ser(v);
    lemma_jsize_le_ser(v);
    assert(t.subrange(0, t.len() as int) =~= t);
    lemma_parse_value_inverts(t, 0, v, (t.len() + 1) as nat);
}


// --- The envelope round trips, down to the wire text ---

/// An identifier the executable tree can hold.
pub open spec fn id_wf(id: RequestIdV) -> bool {
    match id {
        RequestIdV::Num(n) => i64::MIN <= n <= i64::MAX,
        RequestIdV::Str(_) => true,
    }
}

proof fn lemma_wf_push(ms: Seq<(Seq<char>, JsonVal)>, p: (Seq<char>, JsonVal))
    requires
        jval_wf(JsonVal::Obj(ms)),
        jval_wf(p.1),
    ensures
        jval_wf(JsonVal::Obj(ms.push(p))),
{
    assert forall|k: int| 0 <= k < ms.push(p).len() implies jval_wf(
        #[trigger] ms.push(p)[k].1,
    ) by {
        if k < ms.len() {
            assert(ms.push(p)[k] == ms[k]);
            lemma_wf_members_index(ms, k);
        } else {
            assert(ms.push(p)[k] == p);
        }
    }
    lemma_wf_members_build(ms.push(p));
}

proof fn lemma_wf_singleton(p: (Seq<char>, JsonVal))
    requires
        jval_wf(p.1),
    ensures
        jval_wf(JsonVal::Obj(seq![p])),
{
    assert(seq![p][0] == p);
    assert(seq![p].drop_first() =~= Seq::<(Seq<char>, JsonVal)>::empty());
    assert(jval_wf_members(Seq::<(Seq<char>, JsonVal)>::empty()));
    assert(jval_wf_members(seq![p]));
}

/// A serialized request, parsed back from its wire text, is the same
/// request.
pub proof fn lemma_request_wire_round_trip(r: RequestV)
    requires
        id_wf(r.id),
        jval_wf(r.params),
    ensures
        spec_parse_text(spec_ser(enc_request(r))) == Some(enc_request(r)),
        crate::codec::dec_request(enc_request(r)) == Some(r),
{
    let base = seq![("jsonrpc"@, JsonVal::Str(r.jsonrpc))];
    lemma_wf_singleton(("jsonrpc"@, JsonVal::Str(r.jsonrpc)));
    lemma_wf_push(base, ("id"@, enc_id(r.id)));
    lemma_wf_push(base.push(("id"@, enc_id(r.id))), ("method"@, JsonVal::Str(r.method)));
    lemma_wf_push(
        base.push(("id"@, enc_id(r.id))).push(("method"@, JsonVal::Str(r.method))),
        ("params"@, r.params),
    );
    lemma_text_round_trip(enc_request(r));
    crate::codec::lemma_request_round_trip(r);
}

/// A serialized success response, parsed back from its wire text, is the
/// same response.
pub proof fn lemma_response_wire_round_trip(r: ResponseV)
    requires
        id_wf(r.id),
        jval_wf(r.result),
    ensures
        spec_parse_text(spec_ser(enc_response(r))) == Some(enc_response(r)),
        crate::codec::dec_response(enc_response(r)) == Some(r),
{
    let base = seq![("jsonrpc"@, JsonVal::Str(r.jsonrpc))];
    lemma_wf_singleton(("jsonrpc"@, JsonVal::Str(r.jsonrpc)));
    lemma_wf_push(base, ("id"@, enc_id(r.id)));
    lemma_wf_push(base.push(("id"@, enc_id(r.id))), ("result"@, r.result));
    lemma_text_round_trip(enc_response(r));
    crate::codec::lemma_response_round_trip(r);
}

/// A serialized error response, parsed back from its wire text, is the
/// same error response.
pub proof fn lemma_error_response_wire_round_trip(r: ErrorResponseV)
    requires
        id_wf(r.id),
        i32::MIN <= r.error.code <= i32::MAX,
    ensures
        spec_parse_text(spec_ser(enc_error_response(r))) == Some(enc_error_response(r)),
        crate::codec::dec_error_response(enc_error_response(r)) == Some(r),
{
    let e = crate::codec::enc_error_data(r.error);
    assert(jval_wf(e)) by {
        let ems = seq![("code"@, JsonVal::Int(r.error.code)), ("message"@, JsonVal::Str(
            r.error.message,
        ))];
        assert forall|k: int| 0 <= k < ems.len() implies jval_wf(#[trigger] ems[k].1) by {
            if k == 0 {
                assert(ems[k] == ("code"@, JsonVal::Int(r.error.code)));
            } else {
                assert(ems[k] == ("message"@, JsonVal::Str(r.error.message)));
            }
        }
        lemma_wf_members_build(ems);
        assert(jval_wf(JsonVal::Obj(ems)));
    }
    let base = seq![("jsonrpc"@, JsonVal::Str(r.jsonrpc))];
    lemma_wf_singleton(("jsonrpc"@, JsonVal::Str(r.jsonrpc)));
    lemma_wf_push(base, ("id"@, enc_id(r.id)));
    lemma_wf_push(base.push(("id"@, enc_id(r.id))), ("error"@, e));
    lemma_text_round_trip(enc_error_response(r));
    crate::codec::lemma_error_response_round_trip(r);
}

/// A serialized notification, parsed back from its wire text, is the same
/// notification.
pub proof fn lemma_notification_wire_round_trip(n: NotificationV)
    requires
        match n.params {
            Some(p) => jval_wf(p),
            None => true,
        },
    ensures
        spec_parse_text(spec_ser(enc_notification(n))) == Some(enc_notification(n)),
        crate::codec::dec_notification(enc_notification(n)) == Some(n),
{
    let base = seq![("jsonrpc"@, JsonVal::Str(n.jsonrpc))];
    lemma_wf_singleton(("jsonrpc"@, JsonVal::Str(n.jsonrpc)));
    lemma_wf_push(base, ("method"@, JsonVal::Str(n.method)));
    match n.params {
        Some(p) => {
            lemma_wf_push(base.push(("method"@, JsonVal::Str(n.method))), ("params"@, p));
        },
        None => {},
    }
    lemma_text_round_trip(enc_notification(n));
    crate::codec::lemma_notification_round_trip(n);
}

} // verus!
