//! The executable decoder: it parses a document into a task collection and
//! is proved to agree exactly with [`crate::codec::dec_doc`], succeeding on
//! precisely the documents that spec decoder accepts.

use vstd::prelude::*;

use crate::task::{Todo, TodoView, Status, views};
use crate::codec::{dec_str_body, dec_string, dec_lit, dec_status, dec_task, dec_rest, dec_doc};
use crate::codec::{key_name, key_description, key_status, enc_status, is_hex_digit, hex_val};
use crate::chars::chars_to_string;

verus! {

/// Prepends already-decoded characters to a string-body decoding outcome.
pub open spec fn glue(a: Seq<char>, o: Option<(Seq<char>, Seq<char>)>) -> Option<
    (Seq<char>, Seq<char>),
> {
    match o {
        Some(p) => Some((a + p.0, p.1)),
        None => None,
    }
}

/// Prepends one decoded character to a string-body decoding outcome.
pub open spec fn lift(c: char, o: Option<(Seq<char>, Seq<char>)>) -> Option<
    (Seq<char>, Seq<char>),
> {
    match o {
        Some(p) => Some((seq![c] + p.0, p.1)),
        None => None,
    }
}

/// Prepends already-decoded tasks to a task-list decoding outcome.
pub open spec fn glue_rest(a: Seq<TodoView>, o: Option<Seq<TodoView>>) -> Option<Seq<TodoView>> {
    match o {
        Some(ts) => Some(a + ts),
        None => None,
    }
}

/// Prepends one decoded task to a task-list decoding outcome.
pub open spec fn lift_rest(t: TodoView, o: Option<Seq<TodoView>>) -> Option<Seq<TodoView>> {
    match o {
        Some(ts) => Some(seq![t] + ts),
        None => None,
    }
}

proof fn lemma_glue_empty(o: Option<(Seq<char>, Seq<char>)>)
    ensures
        glue(Seq::<char>::empty(), o) == o,
{
    match o {
        Some((t, r)) => {
            assert(Seq::<char>::empty() + t =~= t);
        },
        None => {
        },
    }
}

proof fn lemma_glue_shift(a: Seq<char>, c: char, o: Option<(Seq<char>, Seq<char>)>)
    ensures
        glue(a, lift(c, o)) == glue(a.push(c), o),
{
    match o {
        Some((t, r)) => {
            assert(a + (seq![c] + t) =~= a.push(c) + t);
        },
        None => {
        },
    }
}

proof fn lemma_glue_rest_single(t: TodoView, o: Option<Seq<TodoView>>)
    ensures
        glue_rest(seq![t], o) == lift_rest(t, o),
{
    match o {
        Some(ts) => {
        },
        None => {
        },
    }
}

proof fn lemma_glue_rest_shift(a: Seq<TodoView>, t: TodoView, o: Option<Seq<TodoView>>)
    ensures
        glue_rest(a, lift_rest(t, o)) == glue_rest(a.push(t), o),
{
    match o {
        Some(ts) => {
            assert(a + (seq![t] + ts) =~= a.push(t) + ts);
        },
        None => {
        },
    }
}

/// Whether the characters of `pat` stand at position `i` of `v`.
fn match_at(v: &Vec<char>, i: usize, pat: &Vec<char>) -> (r: bool)
    requires
        i <= v@.len(),
    ensures
        r == pat@.is_prefix_of(v@.skip(i as int)),
        r ==> i + pat@.len() <= v@.len(),
{
    if pat.len() > v.len() - i {
        return false;
    }
    let mut k: usize = 0;
    while k < pat.len()
        invariant
            i + pat@.len() <= v@.len(),
            v@.len() <= usize::MAX,
            0 <= k <= pat@.len(),
            forall|m: int| 0 <= m < k ==> pat@[m] == v@.skip(i as int)[m],
        decreases pat@.len() - k,
    {
        if v[i + k] != pat[k] {
            proof {
                assert(v@.skip(i as int)[k as int] == v@[i + k]);
            }
            return false;
        }
        proof {
            assert(v@.skip(i as int)[k as int] == v@[i + k]);
        }
        k += 1;
    }
    proof {
        assert(pat@ =~= v@.skip(i as int).subrange(0, pat@.len() as int));
    }
    true
}

/// The record opener and name key, as characters.
fn key_name_vec() -> (v: Vec<char>)
    ensures
        v@ == key_name(),
{
    let mut v: Vec<char> = Vec::new();
    v.push('{');
    v.push('"');
    v.push('n');
    v.push('a');
    v.push('m');
    v.push('e');
    v.push('"');
    v.push(':');
    proof {
        assert(v@ =~= key_name());
    }
    v
}

/// The separator and description key, as characters.
fn key_description_vec() -> (v: Vec<char>)
    ensures
        v@ == key_description(),
{
    let mut v: Vec<char> = Vec::new();
    v.push(',');
    v.push('"');
    v.push('d');
    v.push('e');
    v.push('s');
    v.push('c');
    v.push('r');
    v.push('i');
    v.push('p');
    v.push('t');
    v.push('i');
    v.push('o');
    v.push('n');
    v.push('"');
    v.push(':');
    proof {
        assert(v@ =~= key_description());
    }
    v
}

/// The separator and status key, as characters.
fn key_status_vec() -> (v: Vec<char>)
    ensures
        v@ == key_status(),
{
    let mut v: Vec<char> = Vec::new();
    v.push(',');
    v.push('"');
    v.push('s');
    v.push('t');
    v.push('a');
    v.push('t');
    v.push('u');
    v.push('s');
    v.push('"');
    v.push(':');
    proof {
        assert(v@ =~= key_status());
    }
    v
}

/// The tag of a status, as characters.
fn status_tag_vec(st: Status) -> (v: Vec<char>)
    ensures
        v@ == enc_status(st),
{
    let mut v: Vec<char> = Vec::new();
    v.push('"');
    match st {
        Status::Done => {
            v.push('D');
            v.push('o');
            v.push('n');
            v.push('e');
        },
        Status::ToDo => {
            v.push('T');
            v.push('o');
            v.push('D');
            v.push('o');
        },
    }
    v.push('"');
    proof {
        assert(v@ =~= enc_status(st));
    }
    v
}

/// The value of a lowercase hex digit, or `None` for any other character.
fn hex_value(c: char) -> (r: Option<u32>)
    ensures
        match r {
            Some(x) => is_hex_digit(c) && x == hex_val(c) && x < 16,
            None => !is_hex_digit(c),
        },
{
    let u = c as u32;
    if 48 <= u && u <= 57 {
        Some(u - 48)
    } else if 97 <= u && u <= 102 {
        Some(u - 87)
    } else {
        None
    }
}

/// Decodes a quoted string value starting at position `i`.
fn parse_string(v: &Vec<char>, i: usize) -> (r: Option<(String, usize)>)
    requires
        i <= v@.len(),
    ensures
        match r {
            Some((x, j)) => i < j <= v@.len() && dec_string(v@.skip(i as int)) == Some(
                (x@, v@.skip(j as int)),
            ),
            None => dec_string(v@.skip(i as int)) is None,
        },
{
    if i == v.len() || v[i] != '"' {
        return None;
    }
    let mut p: usize = i + 1;
    let mut acc: Vec<char> = Vec::new();
    proof {
        assert(v@.skip(i as int).skip(1) =~= v@.skip(i as int + 1));
        lemma_glue_empty(dec_str_body(v@.skip(i as int + 1)));
    }
    loop
        invariant
            i < p <= v@.len(),
            dec_string(v@.skip(i as int)) == glue(acc@, dec_str_body(v@.skip(p as int))),
        decreases v@.len() - p,
    {
        if p == v.len() {
            return None;
        }
        let c = v[p];
        if c == '"' {
            let x = chars_to_string(&acc);
            proof {
                assert(v@.skip(p as int).skip(1) =~= v@.skip(p as int + 1));
                assert(acc@ + Seq::<char>::empty() =~= acc@);
            }
            return Some((x, p + 1));
        } else if c == '\\' {
            if v.len() - p < 2 {
                return None;
            }
            let e = v[p + 1];
            if e == '"' || e == '\\' {
                let ghost acc0 = acc@;
                acc.push(e);
                proof {
                    assert(v@.skip(p as int)[1] == e);
                    assert(v@.skip(p as int).skip(2) =~= v@.skip(p as int + 2));
                    assert(dec_str_body(v@.skip(p as int)) == lift(
                        e,
                        dec_str_body(v@.skip(p as int + 2)),
                    ));
                    lemma_glue_shift(acc0, e, dec_str_body(v@.skip(p as int + 2)));
                }
                p = p + 2;
            } else if e == 'u' {
                if v.len() - p < 6 {
                    return None;
                }
                if v[p + 2] != '0' || v[p + 3] != '0' {
                    return None;
                }
                let d1 = hex_value(v[p + 4]);
                let d2 = hex_value(v[p + 5]);
                match (d1, d2) {
                    (Some(a), Some(b)) => {
                        let val = a * 16 + b;
                        if val >= 0x20 {
                            return None;
                        }
                        let dc = (val as u8) as char;
                        let ghost acc0 = acc@;
                        acc.push(dc);
                        proof {
                            assert(v@.skip(p as int).skip(6) =~= v@.skip(p as int + 6));
                            assert(dec_str_body(v@.skip(p as int)) == lift(
                                dc,
                                dec_str_body(v@.skip(p as int + 6)),
                            ));
                            lemma_glue_shift(acc0, dc, dec_str_body(v@.skip(p as int + 6)));
                        }
                        p = p + 6;
                    },
                    _ => {
                        return None;
                    },
                }
            } else {
                return None;
            }
        } else {
            let u = c as u32;
            if u < 0x20 {
                return None;
            }
            let ghost acc0 = acc@;
            acc.push(c);
            proof {
                assert(v@.skip(p as int).skip(1) =~= v@.skip(p as int + 1));
                assert(dec_str_body(v@.skip(p as int)) == lift(
                    c,
                    dec_str_body(v@.skip(p as int + 1)),
                ));
                lemma_glue_shift(acc0, c, dec_str_body(v@.skip(p as int + 1)));
            }
            p = p + 1;
        }
    }
}

/// Decodes a status tag starting at position `i`.
fn parse_status(v: &Vec<char>, i: usize) -> (r: Option<(Status, usize)>)
    requires
        i <= v@.len(),
    ensures
        match r {
            Some((st, j)) => i < j <= v@.len() && dec_status(v@.skip(i as int)) == Some(
                (st, v@.skip(j as int)),
            ),
            None => dec_status(v@.skip(i as int)) is None,
        },
{
    proof {
        vstd::std_specs::vec::axiom_spec_len(v);
    }
    let done_tag = status_tag_vec(Status::Done);
    if match_at(v, i, &done_tag) {
        proof {
            assert(v@.skip(i as int).skip(6) =~= v@.skip(i as int + 6));
        }
        return Some((Status::Done, i + 6));
    }
    let todo_tag = status_tag_vec(Status::ToDo);
    if match_at(v, i, &todo_tag) {
        proof {
            assert(v@.skip(i as int).skip(6) =~= v@.skip(i as int + 6));
        }
        return Some((Status::ToDo, i + 6));
    }
    None
}

/// Decodes one task record starting at position `i`.
#[verifier::rlimit(100)]
fn parse_task(v: &Vec<char>, i: usize) -> (r: Option<(Todo, usize)>)
    requires
        i <= v@.len(),
    ensures
        match r {
            Some((t, j)) => i < j <= v@.len() && dec_task(v@.skip(i as int)) == Some(
                (t@, v@.skip(j as int)),
            ),
            None => dec_task(v@.skip(i as int)) is None,
        },
{
    proof {
        vstd::std_specs::vec::axiom_spec_len(v);
    }
    let key1 = key_name_vec();
    if !match_at(v, i, &key1) {
        return None;
    }
    let j1 = i + key1.len();
    proof {
        assert(v@.skip(i as int).skip(key_name().len() as int) =~= v@.skip(j1 as int));
        assert(dec_lit(v@.skip(i as int), key_name()) == Some(v@.skip(j1 as int)));
    }
    let name = match parse_string(v, j1) {
        None => {
            return None;
        },
        Some(p) => p,
    };
    let (name, j2) = name;
    let key2 = key_description_vec();
    if !match_at(v, j2, &key2) {
        return None;
    }
    let j3 = j2 + key2.len();
    proof {
        assert(v@.skip(j2 as int).skip(key_description().len() as int) =~= v@.skip(j3 as int));
        assert(dec_lit(v@.skip(j2 as int), key_description()) == Some(v@.skip(j3 as int)));
    }
    let desc = match parse_string(v, j3) {
        None => {
            return None;
        },
        Some(p) => p,
    };
    let (desc, j4) = desc;
    let key3 = key_status_vec();
    if !match_at(v, j4, &key3) {
        return None;
    }
    let j5 = j4 + key3.len();
    proof {
        assert(v@.skip(j4 as int).skip(key_status().len() as int) =~= v@.skip(j5 as int));
        assert(dec_lit(v@.skip(j4 as int), key_status()) == Some(v@.skip(j5 as int)));
    }
    let st = match parse_status(v, j5) {
        None => {
            return None;
        },
        Some(p) => p,
    };
    let (st, j6) = st;
    if j6 == v.len() || v[j6] != '}' {
        proof {
            let sk = v@.skip(j6 as int);
            if seq!['}'].is_prefix_of(sk) {
                assert(seq!['}'] == sk.subrange(0, 1));
                assert(seq!['}'][0] == sk.subrange(0, 1)[0]);
                assert(sk[0] == v@[j6 as int]);
                assert(false);
            }
            assert(dec_lit(v@.skip(j6 as int), seq!['}']) is None);
        }
        return None;
    }
    proof {
        assert(seq!['}'] =~= v@.skip(j6 as int).subrange(0, 1));
        assert(v@.skip(j6 as int).skip(1) =~= v@.skip(j6 as int + 1));
        assert(dec_lit(v@.skip(j6 as int), seq!['}']) == Some(v@.skip(j6 as int + 1)));
    }
    let t = Todo { name, description: desc, status: st };
    proof {
        assert(t@ =~= (TodoView { name: t.name@, description: t.description@, status: t.status }));
    }
    Some((t, j6 + 1))
}

/// Decodes a whole document; the collection it returns views as exactly
/// what the spec decoder yields on the document.
pub fn parse_doc(v: &Vec<char>) -> (r: Option<Vec<Todo>>)
    ensures
        match r {
            Some(ts) => dec_doc(v@) == Some(views(ts@)),
            None => dec_doc(v@) is None,
        },
{
    if v.len() == 0 || v[0] != '[' {
        return None;
    }
    if v.len() == 2 && v[1] == ']' {
        let out: Vec<Todo> = Vec::new();
        proof {
            assert(v@.skip(1).len() == 1 && v@.skip(1)[0] == ']');
            assert(views(out@) =~= Seq::<TodoView>::empty());
        }
        return Some(out);
    }
    proof {
        assert(!(v@.skip(1).len() == 1 && v@.skip(1)[0] == ']'));
    }
    let first = match parse_task(v, 1) {
        None => {
            return None;
        },
        Some(p) => p,
    };
    let (t0, j0) = first;
    let mut out: Vec<Todo> = Vec::new();
    out.push(t0);
    let mut p: usize = j0;
    proof {
        assert(views(out@) =~= seq![t0@]);
        lemma_glue_rest_single(t0@, dec_rest(v@.skip(j0 as int)));
    }
    loop
        invariant
            0 < p <= v@.len(),
            dec_doc(v@) == glue_rest(views(out@), dec_rest(v@.skip(p as int))),
        decreases v@.len() - p,
    {
        if p == v.len() {
            return None;
        }
        let c = v[p];
        if c == ']' {
            if p + 1 == v.len() {
                proof {
                    assert(v@.skip(p as int).len() == 1);
                    assert(views(out@) + Seq::<TodoView>::empty() =~= views(out@));
                }
                return Some(out);
            } else {
                return None;
            }
        }
        if c != ',' {
            return None;
        }
        let next = match parse_task(v, p + 1) {
            None => {
                proof {
                    assert(v@.skip(p as int).skip(1) =~= v@.skip(p as int + 1));
                }
                return None;
            },
            Some(q) => q,
        };
        let (t2, j2) = next;
        let ghost out0 = out@;
        out.push(t2);
        proof {
            assert(v@.skip(p as int).skip(1) =~= v@.skip(p as int + 1));
            assert(v@.skip(j2 as int).len() < v@.skip(p as int).len());
            assert(dec_rest(v@.skip(p as int)) == lift_rest(t2@, dec_rest(v@.skip(j2 as int))));
            assert(views(out@) =~= views(out0).push(t2@));
            lemma_glue_rest_shift(views(out0), t2@, dec_rest(v@.skip(j2 as int)));
        }
        p = j2;
    }
}

} // verus!
