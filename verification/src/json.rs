//! The JSON value model and the wire serializer.
//!
//! Every message of the protocol is one JSON value.  `Json` is the executable
//! tree; `JsonVal` is its mathematical shadow, with sequences in place of
//! vectors and strings, and unbounded integers.  All contracts in this crate
//! speak about `JsonVal` through `deep_view`.
//!
//! The serializer emits a canonical text: no whitespace, object members in
//! the order they are stored, integers in decimal, and strings escaped with
//! `\"`, `\\`, `\n`, `\r`, `\t`, and `\u00XX` for the remaining control
//! characters.  A pretty form, for text shown to people, indents each
//! nesting level by two spaces.

use vstd::prelude::*;
use vstd::string::StrSliceExecFns;

verus! {

/// An executable JSON value.
///
/// Numbers are modelled as 64-bit integers: every number this protocol
/// carries (request identifiers, error codes) is integral.
#[derive(Debug, PartialEq)]
pub enum Json {
    Null,
    Bool(bool),
    Int(i64),
    Str(String),
    Arr(Vec<Json>),
    Obj(Vec<(String, Json)>),
}

/// The mathematical value of a `Json` tree.
pub enum JsonVal {
    Null,
    Bool(bool),
    Int(int),
    Str(Seq<char>),
    Arr(Seq<JsonVal>),
    Obj(Seq<(Seq<char>, JsonVal)>),
}

pub open spec fn jview(v: Json) -> JsonVal
    decreases v,
{
    match v {
        Json::Null => JsonVal::Null,
        Json::Bool(b) => JsonVal::Bool(b),
        Json::Int(i) => JsonVal::Int(i as int),
        Json::Str(s) => JsonVal::Str(s@),
        Json::Arr(items) => JsonVal::Arr(jview_seq(items@)),
        Json::Obj(members) => JsonVal::Obj(jview_members(members@)),
    }
}

pub open spec fn jview_seq(s: Seq<Json>) -> Seq<JsonVal>
    decreases s,
{
    if s.len() == 0 {
        Seq::empty()
    } else {
        jview_seq(s.drop_last()).push(jview(s.last()))
    }
}

pub open spec fn jview_members(s: Seq<(String, Json)>) -> Seq<(Seq<char>, JsonVal)>
    decreases s,
{
    if s.len() == 0 {
        Seq::empty()
    } else {
        jview_members(s.drop_last()).push((s.last().0@, jview(s.last().1)))
    }
}

impl DeepView for Json {
    type V = JsonVal;

    open spec fn deep_view(&self) -> JsonVal {
        jview(*self)
    }
}

pub broadcast proof fn lemma_jview_seq_len(s: Seq<Json>)
    ensures
        #[trigger] jview_seq(s).len() == s.len(),
    decreases s,
{
    if s.len() > 0 {
        lemma_jview_seq_len(s.drop_last());
    }
}

pub broadcast proof fn lemma_jview_seq_index(s: Seq<Json>, i: int)
    requires
        0 <= i < s.len(),
    ensures
        #[trigger] jview_seq(s)[i] == jview(s[i]),
    decreases s,
{
    lemma_jview_seq_len(s.drop_last());
    if i < s.len() - 1 {
        lemma_jview_seq_index(s.drop_last(), i);
    }
}

pub broadcast proof fn lemma_jview_members_len(s: Seq<(String, Json)>)
    ensures
        #[trigger] jview_members(s).len() == s.len(),
    decreases s,
{
    if s.len() > 0 {
        lemma_jview_members_len(s.drop_last());
    }
}

pub broadcast proof fn lemma_jview_members_index(s: Seq<(String, Json)>, i: int)
    requires
        0 <= i < s.len(),
    ensures
        #[trigger] jview_members(s)[i] == (s[i].0@, jview(s[i].1)),
    decreases s,
{
    lemma_jview_members_len(s.drop_last());
    if i < s.len() - 1 {
        lemma_jview_members_index(s.drop_last(), i);
    }
}

impl Clone for Json {
    /// Cloning preserves the mathematical value.
    fn clone(&self) -> (r: Json)
        ensures
            r.deep_view() == self.deep_view(),
        decreases *self,
    {
        match self {
            Json::Null => Json::Null,
            Json::Bool(b) => Json::Bool(*b),
            Json::Int(i) => Json::Int(*i),
            Json::Str(s) => Json::Str(s.clone()),
            Json::Arr(items) => {
                let n = items.len();
                let mut copy: Vec<Json> = Vec::new();
                let mut i: usize = 0;
                while i < n
                    invariant
                        n == items@.len(),
                        i <= n,
                        *self == Json::Arr(*items),
                        copy@.len() == i,
                        jview_seq(copy@) == jview_seq(items@.take(i as int)),
                    decreases n - i,
                {
                    proof {
                        assert(decreases_to!(*self => (*self)->Arr_0));
                        assert((*self)->Arr_0 == *items);
                        assert(decreases_to!(*items => items@));
                        assert(decreases_to!(items@ => items@[i as int]));
                    }
                    let c = items[i].clone();
                    let ghost prev = copy@;
                    copy.push(c);
                    proof {
                        lemma_jview_take_step(items@, i as int);
                        assert(copy@.drop_last() =~= prev);
                        assert(jview_seq(copy@) == jview_seq(items@.take(i + 1)));
                    }
                    i = i + 1;
                }
                proof {
                    assert(items@.take(n as int) =~= items@);
                }
                Json::Arr(copy)
            },
            Json::Obj(members) => {
                let n = members.len();
                let mut copy: Vec<(String, Json)> = Vec::new();
                let mut i: usize = 0;
                while i < n
                    invariant
                        n == members@.len(),
                        i <= n,
                        *self == Json::Obj(*members),
                        copy@.len() == i,
                        jview_members(copy@) == jview_members(members@.take(i as int)),
                    decreases n - i,
                {
                    proof {
                        assert(decreases_to!(*self => (*self)->Obj_0));
                        assert((*self)->Obj_0 == *members);
                        assert(decreases_to!(*members => members@));
                        assert(decreases_to!(members@ => members@[i as int]));
                        assert(decreases_to!(members@[i as int] => members@[i as int].1));
                    }
                    let k = members[i].0.clone();
                    let c = members[i].1.clone();
                    let ghost prev = copy@;
                    copy.push((k, c));
                    proof {
                        lemma_jview_members_take_step(members@, i as int);
                        assert(copy@.drop_last() =~= prev);
                        assert(jview_members(copy@) == jview_members(members@.take(i + 1)));
                    }
                    i = i + 1;
                }
                proof {
                    assert(members@.take(n as int) =~= members@);
                }
                Json::Obj(copy)
            },
        }
    }
}

// --- Canonical serialization, in specification ---

/// The character for one decimal digit.
pub open spec fn digit_char(d: int) -> char {
    ((48 + d) as u8) as char
}

/// The character for one hexadecimal digit, lower case.
pub open spec fn hex_char(d: int) -> char {
    if d < 10 {
        ((48 + d) as u8) as char
    } else {
        ((87 + d) as u8) as char
    }
}

/// Decimal digits of a non-negative integer, most significant first.
pub open spec fn spec_digits(n: nat) -> Seq<char>
    decreases n,
{
    if n < 10 {
        seq![digit_char(n as int)]
    } else {
        spec_digits(n / 10) + seq![digit_char((n % 10) as int)]
    }
}

/// Decimal text of an integer, with a leading minus sign when negative.
pub open spec fn spec_ser_int(i: int) -> Seq<char> {
    if i < 0 {
        seq!['-'] + spec_digits((-i) as nat)
    } else {
        spec_digits(i as nat)
    }
}

/// The escape sequence one character serializes to inside a JSON string.
pub open spec fn esc_char(c: char) -> Seq<char> {
    if c == '"' {
        seq!['\\', '"']
    } else if c == '\\' {
        seq!['\\', '\\']
    } else if c == '\n' {
        seq!['\\', 'n']
    } else if c == '\r' {
        seq!['\\', 'r']
    } else if c == '\t' {
        seq!['\\', 't']
    } else if (c as u32) < 32 {
        seq!['\\', 'u', '0', '0', hex_char((c as u32) as int / 16), hex_char((c as u32) as int % 16)]
    } else {
        seq![c]
    }
}

/// The body of a serialized JSON string (without the surrounding quotes).
pub open spec fn spec_escape(s: Seq<char>) -> Seq<char>
    decreases s,
{
    if s.len() == 0 {
        Seq::empty()
    } else {
        spec_escape(s.drop_last()) + esc_char(s.last())
    }
}

/// Canonical serialization of a JSON value.
pub open spec fn spec_ser(v: JsonVal) -> Seq<char>
    decreases v,
{
    match v {
        JsonVal::Null => seq!['n', 'u', 'l', 'l'],
        JsonVal::Bool(b) => if b {
            seq!['t', 'r', 'u', 'e']
        } else {
            seq!['f', 'a', 'l', 's', 'e']
        },
        JsonVal::Int(i) => spec_ser_int(i),
        JsonVal::Str(s) => seq!['"'] + spec_escape(s) + seq!['"'],
        JsonVal::Arr(items) => seq!['['] + spec_ser_arr(items) + seq![']'],
        JsonVal::Obj(members) => seq!['{'] + spec_ser_obj(members) + seq!['}'],
    }
}

/// Comma-separated serializations of array elements.
pub open spec fn spec_ser_arr(items: Seq<JsonVal>) -> Seq<char>
    decreases items,
{
    if items.len() == 0 {
        Seq::empty()
    } else if items.len() == 1 {
        spec_ser(items.last())
    } else {
        spec_ser_arr(items.drop_last()) + seq![','] + spec_ser(items.last())
    }
}

/// Comma-separated serializations of object members.
pub open spec fn spec_ser_member(m: (Seq<char>, JsonVal)) -> Seq<char>
    decreases m,
{
    seq!['"'] + spec_escape(m.0) + seq!['"', ':'] + spec_ser(m.1)
}

pub open spec fn spec_ser_obj(members: Seq<(Seq<char>, JsonVal)>) -> Seq<char>
    decreases members,
{
    if members.len() == 0 {
        Seq::empty()
    } else if members.len() == 1 {
        spec_ser_member(members.last())
    } else {
        spec_ser_obj(members.drop_last()) + seq![','] + spec_ser_member(members.last())
    }
}

// --- The executable serializer ---

fn push_digits(n: u64, out: &mut Vec<char>)
    ensures
        final(out)@ == old(out)@ + spec_digits(n as nat),
    decreases n,
{
    if n < 10 {
        out.push((48 + (n as u8)) as char);
        assert(out@ =~= old(out)@ + spec_digits(n as nat));
    } else {
        push_digits(n / 10, out);
        out.push((48 + ((n % 10) as u8)) as char);
        assert(out@ =~= old(out)@ + spec_digits(n as nat));
    }
}

/// Writes the decimal text of an integer.
pub fn push_int_chars(i: i64, out: &mut Vec<char>)
    ensures
        final(out)@ == old(out)@ + spec_ser_int(i as int),
{
    if i < 0 {
        out.push('-');
        let mag: u64 = (-(i as i128)) as u64;
        push_digits(mag, out);
        assert(out@ =~= old(out)@ + spec_ser_int(i as int));
    } else {
        push_digits(i as u64, out);
    }
}

fn push_hex(d: u8, out: &mut Vec<char>)
    requires
        d < 16,
    ensures
        final(out)@ == old(out)@ + seq![hex_char(d as int)],
{
    if d < 10 {
        out.push((48 + d) as char);
    } else {
        out.push((87 + d) as char);
    }
    assert(out@ =~= old(out)@ + seq![hex_char(d as int)]);
}

fn push_escaped_char(c: char, out: &mut Vec<char>)
    ensures
        final(out)@ == old(out)@ + esc_char(c),
{
    if c == '"' {
        out.push('\\');
        out.push('"');
    } else if c == '\\' {
        out.push('\\');
        out.push('\\');
    } else if c == '\n' {
        out.push('\\');
        out.push('n');
    } else if c == '\r' {
        out.push('\\');
        out.push('r');
    } else if c == '\t' {
        out.push('\\');
        out.push('t');
    } else if (c as u32) < 32 {
        out.push('\\');
        out.push('u');
        out.push('0');
        out.push('0');
        let u = c as u32;
        push_hex((u / 16) as u8, out);
        push_hex((u % 16) as u8, out);
    } else {
        out.push(c);
    }
    assert(out@ =~= old(out)@ + esc_char(c));
}

/// Writes the escaped body of a JSON string.
fn push_escaped(s: &str, out: &mut Vec<char>)
    ensures
        final(out)@ == old(out)@ + spec_escape(s@),
{
    let n = s.unicode_len();
    let mut i: usize = 0;
    while i < n
        invariant
            n == s@.len(),
            i <= n,
            out@ == old(out)@ + spec_escape(s@.take(i as int)),
        decreases n - i,
    {
        let c = s.get_char(i);
        push_escaped_char(c, out);
        proof {
            assert(s@.take(i + 1 as int).drop_last() =~= s@.take(i as int));
            assert(s@.take(i + 1 as int).last() == s@[i as int]);
        }
        i = i + 1;
    }
    proof {
        assert(s@.take(n as int) =~= s@);
    }
}

/// Writes the canonical serialization of `v` onto `out`.
pub fn write_json(v: &Json, out: &mut Vec<char>)
    ensures
        final(out)@ == old(out)@ + spec_ser(v.deep_view()),
    decreases *v,
{
    match v {
        Json::Null => {
            out.push('n');
            out.push('u');
            out.push('l');
            out.push('l');
            assert(out@ =~= old(out)@ + spec_ser(v.deep_view()));
        },
        Json::Bool(b) => {
            if *b {
                out.push('t');
                out.push('r');
                out.push('u');
                out.push('e');
            } else {
                out.push('f');
                out.push('a');
                out.push('l');
                out.push('s');
                out.push('e');
            }
            assert(out@ =~= old(out)@ + spec_ser(v.deep_view()));
        },
        Json::Int(i) => {
            push_int_chars(*i, out);
        },
        Json::Str(s) => {
            out.push('"');
            push_escaped(s.as_str(), out);
            out.push('"');
            assert(out@ =~= old(out)@ + spec_ser(v.deep_view()));
        },
        Json::Arr(items) => {
            out.push('[');
            let ghost base = out@;
            let n = items.len();
            let mut i: usize = 0;
            while i < n
                invariant
                    n == items@.len(),
                    i <= n,
                    *v == Json::Arr(*items),
                    out@ == base + spec_ser_arr(jview_seq(items@.take(i as int))),
                decreases n - i,
            {
                if i > 0 {
                    out.push(',');
                }
                proof {
                    assert(decreases_to!(*v => (*v)->Arr_0));
                    assert((*v)->Arr_0 == *items);
                    assert(decreases_to!(*items => items@));
                    assert(decreases_to!(items@ => items@[i as int]));
                }
                write_json(&items[i], out);
                proof {
                    lemma_jview_take_step(items@, i as int);
                    let q = jview_seq(items@.take(i as int));
                    let q2 = jview_seq(items@.take(i + 1));
                    assert(q2.drop_last() =~= q);
                    assert(out@ =~= base + spec_ser_arr(q2));
                }
                i = i + 1;
            }
            proof {
                assert(items@.take(n as int) =~= items@);
            }
            out.push(']');
            assert(out@ =~= old(out)@ + spec_ser(v.deep_view()));
        },
        Json::Obj(members) => {
            out.push('{');
            let ghost base = out@;
            let n = members.len();
            let mut i: usize = 0;
            while i < n
                invariant
                    n == members@.len(),
                    i <= n,
                    *v == Json::Obj(*members),
                    out@ == base + spec_ser_obj(jview_members(members@.take(i as int))),
                decreases n - i,
            {
                let ghost out0 = out@;
                if i > 0 {
                    out.push(',');
                }
                let ghost out1 = out@;
                out.push('"');
                push_escaped(members[i].0.as_str(), out);
                out.push('"');
                out.push(':');
                let ghost out2 = out@;
                proof {
                    assert(decreases_to!(*v => (*v)->Obj_0));
                    assert((*v)->Obj_0 == *members);
                    assert(decreases_to!(*members => members@));
                    assert(decreases_to!(members@ => members@[i as int]));
                    assert(decreases_to!(members@[i as int] => members@[i as int].1));
                }
                write_json(&members[i].1, out);
                proof {
                    lemma_jview_members_take_step(members@, i as int);
                    let q = jview_members(members@.take(i as int));
                    let q2 = jview_members(members@.take(i + 1));
                    assert(q2.drop_last() =~~= q);
                    assert(spec_ser_obj(q2.drop_last()) == spec_ser_obj(q));
                    assert(q2.last() == (members@[i as int].0@, jview(members@[i as int].1)));
                    assert(out2 =~= out1 + seq!['"'] + spec_escape(members@[i as int].0@) + seq!['"', ':']);
                    assert(out@ == out2 + spec_ser(jview(members@[i as int].1)));
                    assert(out2 + spec_ser(jview(members@[i as int].1)) =~= out1 + spec_ser_member(q2.last()));
                    assert(out@ =~= base + spec_ser_obj(q2));
                }
                i = i + 1;
            }
            proof {
                assert(members@.take(n as int) =~= members@);
            }
            out.push('}');
            assert(out@ =~= old(out)@ + spec_ser(v.deep_view()));
        },
    }
}

proof fn lemma_jview_take_step(s: Seq<Json>, i: int)
    requires
        0 <= i < s.len(),
    ensures
        jview_seq(s.take(i + 1)) == jview_seq(s.take(i)).push(jview(s[i])),
        jview_seq(s.take(i)).len() == i,
{
    assert(s.take(i + 1).drop_last() =~= s.take(i));
    assert(s.take(i + 1).last() == s[i]);
    assert(s.take(i + 1).len() == i + 1);
    lemma_jview_seq_len(s.take(i));
}

proof fn lemma_jview_members_take_step(s: Seq<(String, Json)>, i: int)
    requires
        0 <= i < s.len(),
    ensures
        jview_members(s.take(i + 1)) == jview_members(s.take(i)).push((s[i].0@, jview(s[i].1))),
        jview_members(s.take(i)).len() == i,
{
    assert(s.take(i + 1).drop_last() =~= s.take(i));
    assert(s.take(i + 1).last() == s[i]);
    lemma_jview_members_len(s.take(i));
}

/// Serializes a JSON value to its canonical text.
pub fn to_json_chars(v: &Json) -> (out: Vec<char>)
    ensures
        out@ == spec_ser(v.deep_view()),
{
    let mut out: Vec<char> = Vec::new();
    write_json(v, &mut out);
    out
}


/// Whether a character is JSON whitespace.
pub open spec fn is_json_ws(c: char) -> bool {
    c == ' ' || c == '\t' || c == '\n' || c == '\r'
}

/// Relies on `String::from_iter` over `char`: collecting characters gives
/// the string of exactly those characters, in order.
#[verifier::external_body]
pub fn string_from_chars(v: &Vec<char>) -> (s: String)
    ensures
        s@ == v@,
{
    v.iter().collect()
}

/// The characters of a string, in order.
pub fn chars_of_str(s: &str) -> (v: Vec<char>)
    ensures
        v@ == s@,
{
    let n = s.unicode_len();
    let mut v: Vec<char> = Vec::new();
    let mut i: usize = 0;
    while i < n
        invariant
            n == s@.len(),
            i <= n,
            v@ == s@.take(i as int),
        decreases n - i,
    {
        v.push(s.get_char(i));
        proof {
            assert(v@ =~= s@.take(i + 1));
        }
        i = i + 1;
    }
    proof {
        assert(s@.take(n as int) =~= s@);
    }
    v
}


// --- Pretty serialization ---

/// A run of spaces.
pub open spec fn spec_indent(n: nat) -> Seq<char>
    decreases n,
{
    if n == 0 {
        Seq::empty()
    } else {
        spec_indent((n - 1) as nat).push(' ')
    }
}

/// The indentation of the next nesting level.  Growth stops at a width no
/// real document reaches, which keeps the width within machine bounds.
pub open spec fn spec_next_indent(ind: nat) -> nat {
    if ind < 0x10000 {
        (ind + 2) as nat
    } else {
        ind
    }
}

/// Pretty serialization: as the canonical form, but arrays and objects
/// place each element on its own line, indented two spaces per level.
pub open spec fn spec_ser_pretty(v: JsonVal, ind: nat) -> Seq<char>
    decreases v, 0nat,
{
    match v {
        JsonVal::Arr(items) => if items.len() == 0 {
            seq!['[', ']']
        } else {
            seq!['['] + spec_ser_pretty_arr(items, spec_next_indent(ind)) + seq!['\n']
                + spec_indent(ind) + seq![']']
        },
        JsonVal::Obj(members) => if members.len() == 0 {
            seq!['{', '}']
        } else {
            seq!['{'] + spec_ser_pretty_obj(members, spec_next_indent(ind)) + seq!['\n']
                + spec_indent(ind) + seq!['}']
        },
        _ => spec_ser(v),
    }
}

pub open spec fn spec_ser_pretty_arr(items: Seq<JsonVal>, ind: nat) -> Seq<char>
    decreases items, 1nat,
{
    if items.len() == 0 {
        Seq::empty()
    } else if items.len() == 1 {
        seq!['\n'] + spec_indent(ind) + spec_ser_pretty(items.last(), ind)
    } else {
        spec_ser_pretty_arr(items.drop_last(), ind) + seq![',', '\n'] + spec_indent(ind)
            + spec_ser_pretty(items.last(), ind)
    }
}

pub open spec fn spec_ser_pretty_member(m: (Seq<char>, JsonVal), ind: nat) -> Seq<char>
    decreases m, 0nat,
{
    seq!['"'] + spec_escape(m.0) + seq!['"', ':', ' '] + spec_ser_pretty(m.1, ind)
}

pub open spec fn spec_ser_pretty_obj(members: Seq<(Seq<char>, JsonVal)>, ind: nat) -> Seq<char>
    decreases members, 1nat,
{
    if members.len() == 0 {
        Seq::empty()
    } else if members.len() == 1 {
        seq!['\n'] + spec_indent(ind) + spec_ser_pretty_member(members.last(), ind)
    } else {
        spec_ser_pretty_obj(members.drop_last(), ind) + seq![',', '\n'] + spec_indent(ind)
            + spec_ser_pretty_member(members.last(), ind)
    }
}

fn push_indent(n: usize, out: &mut Vec<char>)
    ensures
        final(out)@ == old(out)@ + spec_indent(n as nat),
{
    let mut i: usize = 0;
    while i < n
        invariant
            i <= n,
            out@ == old(out)@ + spec_indent(i as nat),
        decreases n - i,
    {
        out.push(' ');
        proof {
            assert(out@ =~= old(out)@ + spec_indent((i + 1) as nat));
        }
        i = i + 1;
    }
}

/// Writes the pretty serialization of `v` at the given indentation.
pub fn write_json_pretty(v: &Json, ind: usize, out: &mut Vec<char>)
    requires
        ind <= 0x10002,
    ensures
        final(out)@ == old(out)@ + spec_ser_pretty(v.deep_view(), ind as nat),
    decreases *v,
{
    match v {
        Json::Arr(items) => {
            if items.len() == 0 {
                out.push('[');
                out.push(']');
                proof {
                    assert(jview_seq(items@) =~= Seq::<JsonVal>::empty());
                    assert(out@ =~= old(out)@ + spec_ser_pretty(v.deep_view(), ind as nat));
                }
            } else {
                let inner = if ind < 0x10000 {
                    ind + 2
                } else {
                    ind
                };
                out.push('[');
                let ghost base = out@;
                let n = items.len();
                let mut i: usize = 0;
                while i < n
                    invariant
                        n == items@.len(),
                        0 < n,
                        i <= n,
                        inner <= 0x10002,
                        inner as nat == spec_next_indent(ind as nat),
                        *v == Json::Arr(*items),
                        out@ == base + spec_ser_pretty_arr(
                            jview_seq(items@.take(i as int)),
                            inner as nat,
                        ),
                    decreases n - i,
                {
                    if i > 0 {
                        out.push(',');
                    }
                    out.push('\n');
                    push_indent(inner, out);
                    proof {
                        assert(decreases_to!(*v => (*v)->Arr_0));
                        assert((*v)->Arr_0 == *items);
                        assert(decreases_to!(*items => items@));
                        assert(decreases_to!(items@ => items@[i as int]));
                    }
                    write_json_pretty(&items[i], inner, out);
                    proof {
                        lemma_jview_take_step(items@, i as int);
                        let q = jview_seq(items@.take(i as int));
                        let q2 = jview_seq(items@.take(i + 1));
                        assert(q2.drop_last() =~= q);
                        assert(out@ =~= base + spec_ser_pretty_arr(q2, inner as nat));
                    }
                    i = i + 1;
                }
                proof {
                    assert(items@.take(n as int) =~= items@);
                    crate::json::lemma_jview_seq_len(items@);
                }
                out.push('\n');
                push_indent(ind, out);
                out.push(']');
                proof {
                    assert(out@ =~= old(out)@ + spec_ser_pretty(v.deep_view(), ind as nat));
                }
            }
        },
        Json::Obj(members) => {
            if members.len() == 0 {
                out.push('{');
                out.push('}');
                proof {
                    assert(jview_members(members@) =~= Seq::<(Seq<char>, JsonVal)>::empty());
                    assert(out@ =~= old(out)@ + spec_ser_pretty(v.deep_view(), ind as nat));
                }
            } else {
                let inner = if ind < 0x10000 {
                    ind + 2
                } else {
                    ind
                };
                out.push('{');
                let ghost base = out@;
                let n = members.len();
                let mut i: usize = 0;
                while i < n
                    invariant
                        n == members@.len(),
                        0 < n,
                        i <= n,
                        inner <= 0x10002,
                        inner as nat == spec_next_indent(ind as nat),
                        *v == Json::Obj(*members),
                        out@ == base + spec_ser_pretty_obj(
                            jview_members(members@.take(i as int)),
                            inner as nat,
                        ),
                    decreases n - i,
                {
                    if i > 0 {
                        out.push(',');
                    }
                    out.push('\n');
                    push_indent(inner, out);
                    let ghost mid = out@;
                    out.push('"');
                    push_escaped(members[i].0.as_str(), out);
                    out.push('"');
                    out.push(':');
                    out.push(' ');
                    proof {
                        assert(decreases_to!(*v => (*v)->Obj_0));
                        assert((*v)->Obj_0 == *members);
                        assert(decreases_to!(*members => members@));
                        assert(decreases_to!(members@ => members@[i as int]));
                        assert(decreases_to!(members@[i as int] => members@[i as int].1));
                    }
                    write_json_pretty(&members[i].1, inner, out);
                    proof {
                        lemma_jview_members_take_step(members@, i as int);
                        let q = jview_members(members@.take(i as int));
                        let q2 = jview_members(members@.take(i + 1));
                        assert(q2.drop_last() =~= q);
                        assert(q2.last() == (members@[i as int].0@, jview(
                            members@[i as int].1,
                        )));
                        assert(out@ =~= mid + spec_ser_pretty_member(q2.last(), inner as nat));
                        assert(out@ =~= base + spec_ser_pretty_obj(q2, inner as nat));
                    }
                    i = i + 1;
                }
                proof {
                    assert(members@.take(n as int) =~= members@);
                    crate::json::lemma_jview_members_len(members@);
                }
                out.push('\n');
                push_indent(ind, out);
                out.push('}');
                proof {
                    assert(out@ =~= old(out)@ + spec_ser_pretty(v.deep_view(), ind as nat));
                }
            }
        },
        other => {
            write_json(other, out);
            proof {
                assert(spec_ser_pretty(v.deep_view(), ind as nat) == spec_ser(v.deep_view()));
            }
        },
    }
}

/// Serializes a JSON value to its pretty text.
pub fn to_json_chars_pretty(v: &Json) -> (out: Vec<char>)
    ensures
        out@ == spec_ser_pretty(v.deep_view(), 0),
{
    let mut out: Vec<char> = Vec::new();
    write_json_pretty(v, 0, &mut out);
    out
}

} // verus!
