//! The document format, as mathematics.
//!
//! A task list is persisted as one text document: a bracketed list of
//! records, each with a quoted `name`, `description` and `status` field.
//! `enc_doc` gives the canonical document for a task sequence; `dec_doc`
//! decodes a document, accepting exactly the canonical form. The two
//! theorems at the end state that decoding inverts encoding and that every
//! decodable document is a canonical encoding.
//!
//! Inside quoted strings, `"` and `\` are escaped with a backslash and
//! control characters are written `\u00` followed by two lowercase hex
//! digits; every other character stands for itself.

use vstd::prelude::*;

use crate::task::{TodoView, Status};

verus! {

/// The lowercase hex digit for a value below 16.
pub open spec fn hex_digit(v: int) -> char {
    if v == 0 {
        '0'
    } else if v == 1 {
        '1'
    } else if v == 2 {
        '2'
    } else if v == 3 {
        '3'
    } else if v == 4 {
        '4'
    } else if v == 5 {
        '5'
    } else if v == 6 {
        '6'
    } else if v == 7 {
        '7'
    } else if v == 8 {
        '8'
    } else if v == 9 {
        '9'
    } else if v == 10 {
        'a'
    } else if v == 11 {
        'b'
    } else if v == 12 {
        'c'
    } else if v == 13 {
        'd'
    } else if v == 14 {
        'e'
    } else {
        'f'
    }
}

/// Whether `c` is a lowercase hex digit.
pub open spec fn is_hex_digit(c: char) -> bool {
    ('0' <= c && c <= '9') || ('a' <= c && c <= 'f')
}

/// The value of a lowercase hex digit.
pub open spec fn hex_val(c: char) -> int {
    if '0' <= c && c <= '9' {
        (c as u32) - ('0' as u32)
    } else {
        (c as u32) - ('a' as u32) + 10
    }
}

/// Whether `c` is a control character, which the encoding always escapes.
pub open spec fn is_control(c: char) -> bool {
    (c as u32) < 0x20
}

/// The canonical encoding of one character of a string value.
pub open spec fn enc_char(c: char) -> Seq<char> {
    if c == '"' {
        seq!['\\', '"']
    } else if c == '\\' {
        seq!['\\', '\\']
    } else if is_control(c) {
        seq!['\\', 'u', '0', '0', hex_digit((c as u32) as int / 16), hex_digit((c as u32) as int % 16)]
    } else {
        seq![c]
    }
}

/// The encoding of the characters of a string value, without the quotes.
pub open spec fn enc_str_body(s: Seq<char>) -> Seq<char>
    decreases s.len(),
{
    if s.len() == 0 {
        Seq::empty()
    } else {
        enc_char(s[0]) + enc_str_body(s.drop_first())
    }
}

/// The encoding of a string value: its characters between quotes.
pub open spec fn enc_string(s: Seq<char>) -> Seq<char> {
    seq!['"'] + enc_str_body(s) + seq!['"']
}

/// The encoding of a status: one of the two fixed tags.
pub open spec fn enc_status(st: Status) -> Seq<char> {
    match st {
        Status::Done => seq!['"', 'D', 'o', 'n', 'e', '"'],
        Status::ToDo => seq!['"', 'T', 'o', 'D', 'o', '"'],
    }
}

/// The record opener together with the first field's key.
pub open spec fn key_name() -> Seq<char> {
    seq!['{', '"', 'n', 'a', 'm', 'e', '"', ':']
}

/// The separator and key before the description field.
pub open spec fn key_description() -> Seq<char> {
    seq![',', '"', 'd', 'e', 's', 'c', 'r', 'i', 'p', 't', 'i', 'o', 'n', '"', ':']
}

/// The separator and key before the status field.
pub open spec fn key_status() -> Seq<char> {
    seq![',', '"', 's', 't', 'a', 't', 'u', 's', '"', ':']
}

/// The encoding of one task record.
pub open spec fn enc_task(t: TodoView) -> Seq<char> {
    key_name() + enc_string(t.name) + key_description() + enc_string(t.description) + key_status()
        + enc_status(t.status) + seq!['}']
}

/// The encoding of every task after the first, each preceded by a comma.
pub open spec fn enc_rest(ts: Seq<TodoView>) -> Seq<char>
    decreases ts.len(),
{
    if ts.len() == 0 {
        Seq::empty()
    } else {
        seq![','] + enc_task(ts[0]) + enc_rest(ts.drop_first())
    }
}

/// The canonical document for a task sequence.
pub open spec fn enc_doc(ts: Seq<TodoView>) -> Seq<char> {
    if ts.len() == 0 {
        seq!['[', ']']
    } else {
        seq!['['] + enc_task(ts[0]) + enc_rest(ts.drop_first()) + seq![']']
    }
}

/// Decodes the characters of a string value up to and including the closing
/// quote; yields the value and the rest of the input.
pub open spec fn dec_str_body(s: Seq<char>) -> Option<(Seq<char>, Seq<char>)>
    decreases s.len(),
{
    if s.len() == 0 {
        None
    } else if s[0] == '"' {
        Some((Seq::empty(), s.skip(1)))
    } else if s[0] == '\\' {
        if s.len() >= 2 && (s[1] == '"' || s[1] == '\\') {
            match dec_str_body(s.skip(2)) {
                Some((t, r)) => Some((seq![s[1]] + t, r)),
                None => None,
            }
        } else if s.len() >= 6 && s[1] == 'u' && s[2] == '0' && s[3] == '0' && is_hex_digit(s[4])
            && is_hex_digit(s[5]) && hex_val(s[4]) * 16 + hex_val(s[5]) < 0x20 {
            let c = ((hex_val(s[4]) * 16 + hex_val(s[5])) as u8) as char;
            match dec_str_body(s.skip(6)) {
                Some((t, r)) => Some((seq![c] + t, r)),
                None => None,
            }
        } else {
            None
        }
    } else if !is_control(s[0]) {
        match dec_str_body(s.skip(1)) {
            Some((t, r)) => Some((seq![s[0]] + t, r)),
            None => None,
        }
    } else {
        None
    }
}

/// Decodes a quoted string value at the head of the input.
pub open spec fn dec_string(s: Seq<char>) -> Option<(Seq<char>, Seq<char>)> {
    if s.len() >= 1 && s[0] == '"' {
        dec_str_body(s.skip(1))
    } else {
        None
    }
}

/// Consumes the exact characters of `lit` at the head of the input.
pub open spec fn dec_lit(s: Seq<char>, lit: Seq<char>) -> Option<Seq<char>> {
    if lit.is_prefix_of(s) {
        Some(s.skip(lit.len() as int))
    } else {
        None
    }
}

/// Decodes a status tag at the head of the input.
pub open spec fn dec_status(s: Seq<char>) -> Option<(Status, Seq<char>)> {
    if enc_status(Status::Done).is_prefix_of(s) {
        Some((Status::Done, s.skip(6)))
    } else if enc_status(Status::ToDo).is_prefix_of(s) {
        Some((Status::ToDo, s.skip(6)))
    } else {
        None
    }
}

/// Decodes one task record at the head of the input.
pub open spec fn dec_task(s: Seq<char>) -> Option<(TodoView, Seq<char>)> {
    match dec_lit(s, key_name()) {
        None => None,
        Some(s1) => match dec_string(s1) {
            None => None,
            Some((n, s2)) => match dec_lit(s2, key_description()) {
                None => None,
                Some(s3) => match dec_string(s3) {
                    None => None,
                    Some((d, s4)) => match dec_lit(s4, key_status()) {
                        None => None,
                        Some(s5) => match dec_status(s5) {
                            None => None,
                            Some((st, s6)) => match dec_lit(s6, seq!['}']) {
                                None => None,
                                Some(s7) => Some(
                                    (TodoView { name: n, description: d, status: st }, s7),
                                ),
                            },
                        },
                    },
                },
            },
        },
    }
}

/// Decodes the tasks after the first, up to and including the closing
/// bracket, which must end the input.
pub open spec fn dec_rest(s: Seq<char>) -> Option<Seq<TodoView>>
    decreases s.len(),
{
    if s.len() == 1 && s[0] == ']' {
        Some(Seq::empty())
    } else if s.len() >= 1 && s[0] == ',' {
        match dec_task(s.skip(1)) {
            None => None,
            Some((t, r)) => if r.len() < s.len() {
                match dec_rest(r) {
                    None => None,
                    Some(ts) => Some(seq![t] + ts),
                }
            } else {
                None
            },
        }
    } else {
        None
    }
}

/// Decodes a whole document; the input must be exactly one document.
pub open spec fn dec_doc(s: Seq<char>) -> Option<Seq<TodoView>> {
    if s.len() >= 1 && s[0] == '[' {
        let s1 = s.skip(1);
        if s1.len() == 1 && s1[0] == ']' {
            Some(Seq::empty())
        } else {
            match dec_task(s1) {
                None => None,
                Some((t, r)) => match dec_rest(r) {
                    None => None,
                    Some(ts) => Some(seq![t] + ts),
                },
            }
        }
    } else {
        None
    }
}

proof fn lemma_char_eq(a: char, b: char)
    requires
        a as u32 == b as u32,
    ensures
        a == b,
{
}

proof fn lemma_hex_digit_round(v: int)
    requires
        0 <= v < 16,
    ensures
        is_hex_digit(hex_digit(v)),
        hex_val(hex_digit(v)) == v,
{
}

proof fn lemma_hex_char_round(c: char)
    requires
        is_hex_digit(c),
    ensures
        0 <= hex_val(c) < 16,
        hex_digit(hex_val(c)) == c,
{
}

proof fn lemma_dec_lit_prefix(lit: Seq<char>, r: Seq<char>)
    ensures
        dec_lit(lit + r, lit) == Some(r),
{
    assert(lit =~= (lit + r).subrange(0, lit.len() as int));
    assert((lit + r).skip(lit.len() as int) =~= r);
}

proof fn lemma_dec_enc_str_body(t: Seq<char>, r: Seq<char>)
    ensures
        dec_str_body(enc_str_body(t) + seq!['"'] + r) == Some((t, r)),
    decreases t.len(),
{
    let s = enc_str_body(t) + seq!['"'] + r;
    if t.len() == 0 {
        assert(s[0] == '"');
        assert(s.skip(1) =~= r);
        assert(t =~= Seq::<char>::empty());
    } else {
        let c = t[0];
        let tail = enc_str_body(t.drop_first()) + seq!['"'] + r;
        assert(s =~= enc_char(c) + tail);
        lemma_dec_enc_str_body(t.drop_first(), r);
        if c == '"' {
            assert(s[0] == '\\' && s[1] == '"');
            assert(s.skip(2) =~= tail);
            assert(seq![s[1]] + t.drop_first() =~= t);
        } else if c == '\\' {
            assert(s[0] == '\\' && s[1] == '\\');
            assert(s.skip(2) =~= tail);
            assert(seq![s[1]] + t.drop_first() =~= t);
        } else if is_control(c) {
            let v = (c as u32) as int;
            lemma_hex_digit_round(v / 16);
            lemma_hex_digit_round(v % 16);
            assert(s[0] == '\\' && s[1] == 'u' && s[2] == '0' && s[3] == '0');
            assert(s[4] == hex_digit(v / 16) && s[5] == hex_digit(v % 16));
            assert(hex_val(s[4]) * 16 + hex_val(s[5]) == v);
            let c2 = (v as u8) as char;
            assert(c2 as u32 == v);
            assert(c as u32 == v);
            lemma_char_eq(c2, c);
            assert(s.skip(6) =~= tail);
            assert(seq![c] + t.drop_first() =~= t);
        } else {
            assert(s[0] == c);
            assert(s.skip(1) =~= tail);
            assert(seq![c] + t.drop_first() =~= t);
        }
    }
}

proof fn lemma_dec_enc_string(x: Seq<char>, r: Seq<char>)
    ensures
        dec_string(enc_string(x) + r) == Some((x, r)),
{
    let s = enc_string(x) + r;
    assert(s[0] == '"');
    assert(s.skip(1) =~= enc_str_body(x) + seq!['"'] + r);
    lemma_dec_enc_str_body(x, r);
}

proof fn lemma_dec_enc_status(st: Status, r: Seq<char>)
    ensures
        dec_status(enc_status(st) + r) == Some((st, r)),
{
    let s = enc_status(st) + r;
    match st {
        Status::Done => {
            assert(enc_status(Status::Done) =~= s.subrange(0, 6));
            assert(s.skip(6) =~= r);
        },
        Status::ToDo => {
            assert(s[1] == 'T');
            assert(!enc_status(Status::Done).is_prefix_of(s));
            assert(enc_status(Status::ToDo) =~= s.subrange(0, 6));
            assert(s.skip(6) =~= r);
        },
    }
}

#[verifier::rlimit(100)]
proof fn lemma_dec_enc_task(t: TodoView, r: Seq<char>)
    ensures
        dec_task(enc_task(t) + r) == Some((t, r)),
{
    let s = enc_task(t) + r;
    let r1 = enc_string(t.name) + key_description() + enc_string(t.description) + key_status()
        + enc_status(t.status) + seq!['}'] + r;
    let r2 = key_description() + enc_string(t.description) + key_status() + enc_status(t.status)
        + seq!['}'] + r;
    let r3 = enc_string(t.description) + key_status() + enc_status(t.status) + seq!['}'] + r;
    let r4 = key_status() + enc_status(t.status) + seq!['}'] + r;
    let r5 = enc_status(t.status) + seq!['}'] + r;
    let r6 = seq!['}'] + r;
    assert(dec_lit(s, key_name()) == Some(r1)) by {
        assert(s =~= key_name() + r1);
        lemma_dec_lit_prefix(key_name(), r1);
    }
    assert(dec_string(r1) == Some((t.name, r2))) by {
        assert(r1 =~= enc_string(t.name) + r2);
        lemma_dec_enc_string(t.name, r2);
    }
    assert(dec_lit(r2, key_description()) == Some(r3)) by {
        assert(r2 =~= key_description() + r3);
        lemma_dec_lit_prefix(key_description(), r3);
    }
    assert(dec_string(r3) == Some((t.description, r4))) by {
        assert(r3 =~= enc_string(t.description) + r4);
        lemma_dec_enc_string(t.description, r4);
    }
    assert(dec_lit(r4, key_status()) == Some(r5)) by {
        assert(r4 =~= key_status() + r5);
        lemma_dec_lit_prefix(key_status(), r5);
    }
    assert(dec_status(r5) == Some((t.status, r6))) by {
        assert(r5 =~= enc_status(t.status) + r6);
        lemma_dec_enc_status(t.status, r6);
    }
    assert(dec_lit(r6, seq!['}']) == Some(r)) by {
        lemma_dec_lit_prefix(seq!['}'], r);
    }
    assert(TodoView { name: t.name, description: t.description, status: t.status } =~= t);
}

proof fn lemma_dec_enc_rest(ts: Seq<TodoView>)
    ensures
        dec_rest(enc_rest(ts) + seq![']']) == Some(ts),
    decreases ts.len(),
{
    let s = enc_rest(ts) + seq![']'];
    if ts.len() == 0 {
        assert(s =~= seq![']']);
        assert(ts =~= Seq::<TodoView>::empty());
    } else {
        let rest = enc_rest(ts.drop_first()) + seq![']'];
        assert(s =~= seq![','] + (enc_task(ts[0]) + rest));
        assert(s[0] == ',');
        assert(s.skip(1) =~= enc_task(ts[0]) + rest);
        lemma_dec_enc_task(ts[0], rest);
        assert(rest.len() < s.len());
        lemma_dec_enc_rest(ts.drop_first());
        assert(seq![ts[0]] + ts.drop_first() =~= ts);
    }
}

/// Decoding inverts encoding: the canonical document of any task sequence
/// decodes back to exactly that sequence, order and field values preserved.
#[verifier::rlimit(60)]
pub proof fn lemma_codec_round_trip(ts: Seq<TodoView>)
    ensures
        dec_doc(enc_doc(ts)) == Some(ts),
{
    let s = enc_doc(ts);
    if ts.len() == 0 {
        assert(s[0] == '[');
        assert(s.skip(1) =~= seq![']']);
        assert(ts =~= Seq::<TodoView>::empty());
    } else {
        let rest = enc_rest(ts.drop_first()) + seq![']'];
        let s1 = s.skip(1);
        assert(s[0] == '[' && s1 =~= enc_task(ts[0]) + rest) by {
            assert(s =~= seq!['['] + (enc_task(ts[0]) + rest));
        }
        assert(s1[0] == '{');
        assert(dec_task(s1) == Some((ts[0], rest))) by {
            lemma_dec_enc_task(ts[0], rest);
        }
        assert(dec_rest(rest) == Some(ts.drop_first())) by {
            lemma_dec_enc_rest(ts.drop_first());
        }
        assert(seq![ts[0]] + ts.drop_first() =~= ts);
    }
}

proof fn lemma_enc_dec_str_body(s: Seq<char>, t: Seq<char>, r: Seq<char>)
    requires
        dec_str_body(s) == Some((t, r)),
    ensures
        s == enc_str_body(t) + seq!['"'] + r,
    decreases s.len(),
{
    if s[0] == '"' {
        assert(s =~= enc_str_body(t) + seq!['"'] + r);
    } else if s[0] == '\\' {
        if s.len() >= 2 && (s[1] == '"' || s[1] == '\\') {
            match dec_str_body(s.skip(2)) {
                Some(p) => {
                    let (t2, r2) = p;
                    lemma_enc_dec_str_body(s.skip(2), t2, r2);
                    assert(t == seq![s[1]] + t2);
                    assert(t.drop_first() =~= t2);
                    assert(enc_char(t[0]) =~= seq!['\\', s[1]]);
                    assert(s =~= seq!['\\', s[1]] + s.skip(2));
                    assert(s =~= enc_str_body(t) + seq!['"'] + r);
                },
                None => {
                    assert(false);
                },
            }
        } else {
            let v = hex_val(s[4]) * 16 + hex_val(s[5]);
            match dec_str_body(s.skip(6)) {
                Some(p) => {
                    let (t2, r2) = p;
                    lemma_enc_dec_str_body(s.skip(6), t2, r2);
                    lemma_hex_char_round(s[4]);
                    lemma_hex_char_round(s[5]);
                    let c = (v as u8) as char;
                    assert(c as u32 == v);
                    assert(t == seq![c] + t2);
                    assert(t.drop_first() =~= t2);
                    assert(is_control(c));
                    assert(v / 16 == hex_val(s[4]) && v % 16 == hex_val(s[5]));
                    assert(hex_digit(v / 16) == s[4] && hex_digit(v % 16) == s[5]);
                    assert(enc_char(t[0]) =~= seq!['\\', 'u', '0', '0', s[4], s[5]]);
                    assert(s =~= seq!['\\', 'u', '0', '0', s[4], s[5]] + s.skip(6));
                    assert(s =~= enc_str_body(t) + seq!['"'] + r);
                },
                None => {
                    assert(false);
                },
            }
        }
    } else {
        match dec_str_body(s.skip(1)) {
            Some(p) => {
                let (t2, r2) = p;
                lemma_enc_dec_str_body(s.skip(1), t2, r2);
                assert(t == seq![s[0]] + t2);
                assert(t.drop_first() =~= t2);
                assert(enc_char(t[0]) =~= seq![s[0]]);
                assert(s =~= seq![s[0]] + s.skip(1));
                assert(s =~= enc_str_body(t) + seq!['"'] + r);
            },
            None => {
                assert(false);
            },
        }
    }
}

proof fn lemma_enc_dec_string(s: Seq<char>, x: Seq<char>, r: Seq<char>)
    requires
        dec_string(s) == Some((x, r)),
    ensures
        s == enc_string(x) + r,
{
    lemma_enc_dec_str_body(s.skip(1), x, r);
    assert(s =~= seq![s[0]] + s.skip(1));
    assert(s =~= (seq!['"'] + enc_str_body(x) + seq!['"']) + r);
}

proof fn lemma_enc_dec_lit(s: Seq<char>, lit: Seq<char>, r: Seq<char>)
    requires
        dec_lit(s, lit) == Some(r),
    ensures
        s == lit + r,
{
    assert(s =~= lit + r);
}

proof fn lemma_enc_dec_status(s: Seq<char>, st: Status, r: Seq<char>)
    requires
        dec_status(s) == Some((st, r)),
    ensures
        s == enc_status(st) + r,
{
    assert(s =~= enc_status(st) + r);
}

#[verifier::rlimit(100)]
proof fn lemma_enc_dec_task(s: Seq<char>, t: TodoView, r: Seq<char>)
    requires
        dec_task(s) == Some((t, r)),
    ensures
        s == enc_task(t) + r,
{
    let s1 = dec_lit(s, key_name());
    match s1 {
        None => {
            assert(false);
        },
        Some(s1) => {
            lemma_enc_dec_lit(s, key_name(), s1);
            match dec_string(s1) {
                None => {
                    assert(false);
                },
                Some(p1) => {
                    let (n, s2) = p1;
                    lemma_enc_dec_string(s1, n, s2);
                    match dec_lit(s2, key_description()) {
                        None => {
                            assert(false);
                        },
                        Some(s3) => {
                            lemma_enc_dec_lit(s2, key_description(), s3);
                            match dec_string(s3) {
                                None => {
                                    assert(false);
                                },
                                Some(p2) => {
                                    let (d, s4) = p2;
                                    lemma_enc_dec_string(s3, d, s4);
                                    match dec_lit(s4, key_status()) {
                                        None => {
                                            assert(false);
                                        },
                                        Some(s5) => {
                                            lemma_enc_dec_lit(s4, key_status(), s5);
                                            match dec_status(s5) {
                                                None => {
                                                    assert(false);
                                                },
                                                Some(p3) => {
                                                    let (st, s6) = p3;
                                                    lemma_enc_dec_status(s5, st, s6);
                                                    match dec_lit(s6, seq!['}']) {
                                                        None => {
                                                            assert(false);
                                                        },
                                                        Some(s7) => {
                                                            lemma_enc_dec_lit(s6, seq!['}'], s7);
                                                            assert(t.name == n && t.description == d
                                                                && t.status == st && r == s7);
                                                            assert(s =~= enc_task(t) + r);
                                                        },
                                                    }
                                                },
                                            }
                                        },
                                    }
                                },
                            }
                        },
                    }
                },
            }
        },
    }
}

proof fn lemma_enc_dec_rest(s: Seq<char>, ts: Seq<TodoView>)
    requires
        dec_rest(s) == Some(ts),
    ensures
        s == enc_rest(ts) + seq![']'],
    decreases s.len(),
{
    if s.len() == 1 && s[0] == ']' {
        assert(s =~= enc_rest(ts) + seq![']']);
    } else {
        match dec_task(s.skip(1)) {
            None => {
                assert(false);
            },
            Some(p) => {
                let (t, r) = p;
                lemma_enc_dec_task(s.skip(1), t, r);
                match dec_rest(r) {
                    None => {
                        assert(false);
                    },
                    Some(ts2) => {
                        lemma_enc_dec_rest(r, ts2);
                        assert(ts == seq![t] + ts2);
                        assert(ts.drop_first() =~= ts2);
                        assert(ts[0] == t);
                        assert(s =~= seq![','] + s.skip(1));
                        assert(s =~= enc_rest(ts) + seq![']']);
                    },
                }
            },
        }
    }
}

/// Every document the decoder accepts is the canonical encoding of exactly
/// the task sequence it returns.
pub proof fn lemma_decode_sound(s: Seq<char>, ts: Seq<TodoView>)
    requires
        dec_doc(s) == Some(ts),
    ensures
        s == enc_doc(ts),
{
    let s1 = s.skip(1);
    if s1.len() == 1 && s1[0] == ']' {
        assert(s =~= seq!['[', ']']);
        assert(s =~= enc_doc(ts));
    } else {
        match dec_task(s1) {
            None => {
                assert(false);
            },
            Some(p) => {
                let (t, r) = p;
                lemma_enc_dec_task(s1, t, r);
                match dec_rest(r) {
                    None => {
                        assert(false);
                    },
                    Some(ts2) => {
                        lemma_enc_dec_rest(r, ts2);
                        assert(ts == seq![t] + ts2);
                        assert(ts.drop_first() =~= ts2);
                        assert(ts[0] == t);
                        assert(s =~= seq!['['] + s1);
                        assert(s =~= enc_doc(ts));
                    },
                }
            },
        }
    }
}

/// Appending one character to a string value appends its encoding.
pub(crate) proof fn lemma_enc_str_body_snoc(t: Seq<char>, c: char)
    ensures
        enc_str_body(t.push(c)) == enc_str_body(t) + enc_char(c),
    decreases t.len(),
{
    if t.len() == 0 {
        reveal_with_fuel(enc_str_body, 2);
        assert(t.push(c)[0] == c);
        assert(t.push(c).drop_first() =~= Seq::<char>::empty());
        assert(enc_str_body(t.push(c)) =~= enc_str_body(t) + enc_char(c));
    } else {
        assert(t.push(c)[0] == t[0]);
        assert(t.push(c).drop_first() =~= t.drop_first().push(c));
        lemma_enc_str_body_snoc(t.drop_first(), c);
        assert(enc_str_body(t.push(c)) == enc_char(t[0]) + (enc_str_body(t.drop_first())
            + enc_char(c)));
        assert(enc_char(t[0]) + (enc_str_body(t.drop_first()) + enc_char(c)) =~= (enc_char(t[0])
            + enc_str_body(t.drop_first())) + enc_char(c));
    }
}

/// Appending one task to the tail tasks appends a comma and its encoding.
pub(crate) proof fn lemma_enc_rest_snoc(ts: Seq<TodoView>, t: TodoView)
    ensures
        enc_rest(ts.push(t)) == enc_rest(ts) + seq![','] + enc_task(t),
    decreases ts.len(),
{
    if ts.len() == 0 {
        reveal_with_fuel(enc_rest, 2);
        assert(ts.push(t)[0] == t);
        assert(ts.push(t).drop_first() =~= Seq::<TodoView>::empty());
        assert(enc_rest(ts.push(t)) =~= enc_rest(ts) + seq![','] + enc_task(t));
    } else {
        assert(ts.push(t)[0] == ts[0]);
        assert(ts.push(t).drop_first() =~= ts.drop_first().push(t));
        lemma_enc_rest_snoc(ts.drop_first(), t);
        assert(enc_rest(ts.push(t)) == seq![','] + enc_task(ts[0]) + (enc_rest(ts.drop_first())
            + seq![','] + enc_task(t)));
        assert(seq![','] + enc_task(ts[0]) + (enc_rest(ts.drop_first()) + seq![','] + enc_task(t))
            =~= (seq![','] + enc_task(ts[0]) + enc_rest(ts.drop_first())) + seq![','] + enc_task(t));
    }
}

} // verus!
