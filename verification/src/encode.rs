//! The executable encoder: it renders a task collection as its canonical
//! document, character by character, and is proved to produce exactly
//! [`crate::codec::enc_doc`] of the collection's view.

use vstd::prelude::*;

use crate::task::{Todo, views};
use crate::task::Status;
use crate::codec::{enc_char, enc_str_body, enc_string, enc_status, enc_task, enc_rest, enc_doc};
use crate::codec::{key_name, key_description, key_status, hex_digit};
use crate::codec::{lemma_enc_str_body_snoc, lemma_enc_rest_snoc};
use crate::chars::{str_to_chars, chars_to_string};

verus! {

/// The lowercase hex digit character for a value below 16.
fn hex_digit_char(v: u32) -> (c: char)
    requires
        v < 16,
    ensures
        c == hex_digit(v as int),
{
    if v == 0 {
        '0'
    } else if v == 1 {
        '1'
    } else if v == 2 {
        '2'
    } else if v == 3 {
        '3'
    } else if v == 4 {
        '4'
    } else if v == 5 {
        '5'
    } else if v == 6 {
        '6'
    } else if v == 7 {
        '7'
    } else if v == 8 {
        '8'
    } else if v == 9 {
        '9'
    } else if v == 10 {
        'a'
    } else if v == 11 {
        'b'
    } else if v == 12 {
        'c'
    } else if v == 13 {
        'd'
    } else if v == 14 {
        'e'
    } else {
        'f'
    }
}

/// Appends the canonical encoding of one string character.
fn push_enc_char(out: &mut Vec<char>, c: char)
    ensures
        final(out)@ == old(out)@ + enc_char(c),
{
    let u = c as u32;
    if c == '"' {
        out.push('\\');
        out.push('"');
    } else if c == '\\' {
        out.push('\\');
        out.push('\\');
    } else if u < 0x20 {
        out.push('\\');
        out.push('u');
        out.push('0');
        out.push('0');
        out.push(hex_digit_char(u / 16));
        out.push(hex_digit_char(u % 16));
    } else {
        out.push(c);
    }
    proof {
        assert(out@ =~= old(out)@ + enc_char(c));
    }
}

/// Appends the encoding of a string value, quotes included.
fn push_enc_string(out: &mut Vec<char>, s: &String)
    ensures
        final(out)@ == old(out)@ + enc_string(s@),
{
    let cs = str_to_chars(s.as_str());
    out.push('"');
    let mut i: usize = 0;
    while i < cs.len()
        invariant
            cs@ == s@,
            0 <= i <= cs@.len(),
            out@ == old(out)@ + seq!['"'] + enc_str_body(s@.take(i as int)),
        decreases cs@.len() - i,
    {
        push_enc_char(out, cs[i]);
        proof {
            lemma_enc_str_body_snoc(s@.take(i as int), s@[i as int]);
            assert(s@.take(i as int).push(s@[i as int]) =~= s@.take(i + 1));
        }
        i += 1;
    }
    out.push('"');
    proof {
        assert(s@.take(cs@.len() as int) =~= s@);
        assert(out@ =~= old(out)@ + enc_string(s@));
    }
}

/// Appends the fixed tag for a status.
fn push_enc_status(out: &mut Vec<char>, st: Status)
    ensures
        final(out)@ == old(out)@ + enc_status(st),
{
    out.push('"');
    match st {
        Status::Done => {
            out.push('D');
            out.push('o');
            out.push('n');
            out.push('e');
        },
        Status::ToDo => {
            out.push('T');
            out.push('o');
            out.push('D');
            out.push('o');
        },
    }
    out.push('"');
    proof {
        assert(out@ =~= old(out)@ + enc_status(st));
    }
}

/// Appends the encoding of one task record.
#[verifier::rlimit(100)]
fn push_enc_task(out: &mut Vec<char>, t: &Todo)
    ensures
        final(out)@ == old(out)@ + enc_task(t@),
{
    out.push('{');
    out.push('"');
    out.push('n');
    out.push('a');
    out.push('m');
    out.push('e');
    out.push('"');
    out.push(':');
    proof {
        assert(out@ =~= old(out)@ + key_name());
    }
    push_enc_string(out, &t.name);
    out.push(',');
    out.push('"');
    out.push('d');
    out.push('e');
    out.push('s');
    out.push('c');
    out.push('r');
    out.push('i');
    out.push('p');
    out.push('t');
    out.push('i');
    out.push('o');
    out.push('n');
    out.push('"');
    out.push(':');
    proof {
        assert(out@ =~= old(out)@ + key_name() + enc_string(t.name@) + key_description());
    }
    push_enc_string(out, &t.description);
    out.push(',');
    out.push('"');
    out.push('s');
    out.push('t');
    out.push('a');
    out.push('t');
    out.push('u');
    out.push('s');
    out.push('"');
    out.push(':');
    proof {
        assert(out@ =~= old(out)@ + key_name() + enc_string(t.name@) + key_description()
            + enc_string(t.description@) + key_status());
    }
    push_enc_status(out, t.status);
    out.push('}');
    proof {
        assert(out@ =~= old(out)@ + enc_task(t@));
    }
}

/// Renders the whole collection as its canonical document.
pub(crate) fn render_doc(tasks: &Vec<Todo>) -> (doc: String)
    ensures
        doc@ == enc_doc(views(tasks@)),
{
    let ghost vs = views(tasks@);
    let mut out: Vec<char> = Vec::new();
    out.push('[');
    if tasks.len() > 0 {
        push_enc_task(&mut out, &tasks[0]);
        let mut i: usize = 1;
        while i < tasks.len()
            invariant
                1 <= i <= tasks@.len(),
                vs == views(tasks@),
                vs.len() == tasks@.len(),
                out@ == seq!['['] + enc_task(vs[0]) + enc_rest(vs.subrange(1, i as int)),
            decreases tasks@.len() - i,
        {
            out.push(',');
            push_enc_task(&mut out, &tasks[i]);
            proof {
                lemma_enc_rest_snoc(vs.subrange(1, i as int), vs[i as int]);
                assert(vs.subrange(1, i as int).push(vs[i as int]) =~= vs.subrange(1, i + 1));
                assert(out@ =~= seq!['['] + enc_task(vs[0]) + enc_rest(vs.subrange(1, i + 1)));
            }
            i += 1;
        }
        out.push(']');
        proof {
            assert(vs.subrange(1, vs.len() as int) =~= vs.drop_first());
            assert(out@ =~= enc_doc(vs));
        }
    } else {
        out.push(']');
        proof {
            assert(out@ =~= enc_doc(vs));
        }
    }
    chars_to_string(&out)
}

} // verus!
