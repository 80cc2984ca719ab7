//! Prints a JSON document as text: the form handed to the schema validator
//! and written on the event wire. Strings are escaped so that the output
//! never holds a raw control character; in particular a printed document
//! spans a single line.

use vstd::prelude::*;

use crate::json::{jview, jview_fields, jview_seq, lemma_jview_fields, lemma_jview_seq, Json,
    JsonV};
use crate::text::{dec_digit, dec_rep, dec_rep_signed, i64_to_dec, push_char};

verus! {

/// The lower-case hexadecimal digit for a value below sixteen.
pub open spec fn hex_digit(n: int) -> char {
    if n < 10 {
        dec_digit(n)
    } else if n == 10 {
        'a'
    } else if n == 11 {
        'b'
    } else if n == 12 {
        'c'
    } else if n == 13 {
        'd'
    } else if n == 14 {
        'e'
    } else {
        'f'
    }
}

/// How one character is escaped inside a JSON string literal.
pub open spec fn esc_char(c: char) -> Seq<char> {
    if c == '"' {
        seq!['\\', '"']
    } else if c == '\\' {
        seq!['\\', '\\']
    } else if c == '\n' {
        seq!['\\', 'n']
    } else if c == '\r' {
        seq!['\\', 'r']
    } else if c == '\t' {
        seq!['\\', 't']
    } else if (c as u32) < 32 {
        seq!['\\', 'u', '0', '0', hex_digit(c as u32 as int / 16), hex_digit(
            c as u32 as int % 16,
        )]
    } else {
        seq![c]
    }
}

/// A string escaped character by character.
pub open spec fn esc_str(s: Seq<char>) -> Seq<char>
    decreases s.len(),
{
    if s.len() == 0 {
        Seq::empty()
    } else {
        esc_str(s.drop_last()) + esc_char(s.last())
    }
}

/// The text of a document.
pub open spec fn text_of(v: JsonV) -> Seq<char>
    decreases v,
{
    match v {
        JsonV::Null => seq!['n', 'u', 'l', 'l'],
        JsonV::Bool(b) => if b {
            seq!['t', 'r', 'u', 'e']
        } else {
            seq!['f', 'a', 'l', 's', 'e']
        },
        JsonV::Num(n) => dec_rep_signed(n),
        JsonV::Str(s) => seq!['"'] + esc_str(s) + seq!['"'],
        JsonV::Arr(items) => seq!['['] + texts_of(items) + seq![']'],
        JsonV::Obj(fields) => seq!['{'] + field_texts(fields) + seq!['}'],
    }
}

/// The texts of array elements, joined by commas.
pub open spec fn texts_of(items: Seq<JsonV>) -> Seq<char>
    decreases items,
{
    if items.len() == 0 {
        Seq::empty()
    } else if items.len() == 1 {
        text_of(items.last())
    } else {
        texts_of(items.drop_last()) + seq![','] + text_of(items.last())
    }
}

/// The text of one object field.
pub open spec fn field_text(f: (Seq<char>, JsonV)) -> Seq<char>
    decreases f,
{
    seq!['"'] + esc_str(f.0) + seq!['"', ':'] + text_of(f.1)
}

/// The texts of object fields, joined by commas.
pub open spec fn field_texts(fields: Seq<(Seq<char>, JsonV)>) -> Seq<char>
    decreases fields,
{
    if fields.len() == 0 {
        Seq::empty()
    } else if fields.len() == 1 {
        field_text(fields.last())
    } else {
        field_texts(fields.drop_last()) + seq![','] + field_text(fields.last())
    }
}

fn hex_digit_char(n: u32) -> (c: char)
    requires
        n < 16,
    ensures
        c == hex_digit(n as int),
{
    if n == 0 { '0' }
    else if n == 1 { '1' }
    else if n == 2 { '2' }
    else if n == 3 { '3' }
    else if n == 4 { '4' }
    else if n == 5 { '5' }
    else if n == 6 { '6' }
    else if n == 7 { '7' }
    else if n == 8 { '8' }
    else if n == 9 { '9' }
    else if n == 10 { 'a' }
    else if n == 11 { 'b' }
    else if n == 12 { 'c' }
    else if n == 13 { 'd' }
    else if n == 14 { 'e' }
    else { 'f' }
}

/// Appends the escaped form of one character.
fn push_escaped(out: &mut String, c: char)
    ensures
        final(out)@ == old(out)@ + esc_char(c),
{
    if c == '"' {
        push_char(out, '\\');
        push_char(out, '"');
        assert(final(out)@ =~= old(out)@ + esc_char(c));
    } else if c == '\\' {
        push_char(out, '\\');
        push_char(out, '\\');
        assert(final(out)@ =~= old(out)@ + esc_char(c));
    } else if c == '\n' {
        push_char(out, '\\');
        push_char(out, 'n');
        assert(final(out)@ =~= old(out)@ + esc_char(c));
    } else if c == '\r' {
        push_char(out, '\\');
        push_char(out, 'r');
        assert(final(out)@ =~= old(out)@ + esc_char(c));
    } else if c == '\t' {
        push_char(out, '\\');
        push_char(out, 't');
        assert(final(out)@ =~= old(out)@ + esc_char(c));
    } else if (c as u32) < 32 {
        let code = c as u32;
        push_char(out, '\\');
        push_char(out, 'u');
        push_char(out, '0');
        push_char(out, '0');
        push_char(out, hex_digit_char(code / 16));
        push_char(out, hex_digit_char(code % 16));
        assert(final(out)@ =~= old(out)@ + esc_char(c));
    } else {
        push_char(out, c);
        assert(final(out)@ =~= old(out)@ + esc_char(c));
    }
}

/// Appends a string in escaped form.
#[verifier::loop_isolation(false)]
fn push_escaped_str(out: &mut String, s: &String)
    ensures
        final(out)@ == old(out)@ + esc_str(s@),
{
    let n = s.as_str().unicode_len();
    let mut i: usize = 0;
    while i < n
        invariant
            i <= n,
            n == s@.len(),
            out@ == old(out)@ + esc_str(s@.take(i as int)),
        decreases n - i,
    {
        let c = s.as_str().get_char(i);
        push_escaped(out, c);
        proof {
            assert(s@.take(i + 1).drop_last() =~= s@.take(i as int));
            assert(s@.take(i + 1).last() == s@[i as int]);
        }
        i += 1;
    }
    proof {
        assert(s@.take(n as int) =~= s@);
    }
}

/// Prints a document as JSON text.
#[verifier::loop_isolation(false)]
pub fn to_text(j: &Json) -> (s: String)
    ensures
        s@ == text_of(j@),
    decreases j,
{
    match j {
        Json::Null => {
            let s = String::from_str("null");
            proof {
                reveal_strlit("null");
                assert(s@ =~= text_of(j@));
            }
            s
        }
        Json::Bool(b) => {
            if *b {
                let s = String::from_str("true");
                proof {
                    reveal_strlit("true");
                    assert(s@ =~= text_of(j@));
                }
                s
            } else {
                let s = String::from_str("false");
                proof {
                    reveal_strlit("false");
                    assert(s@ =~= text_of(j@));
                }
                s
            }
        }
        Json::Num(n) => i64_to_dec(*n),
        Json::Str(st) => {
            let mut out = String::new();
            push_char(&mut out, '"');
            push_escaped_str(&mut out, st);
            push_char(&mut out, '"');
            proof {
                assert(out@ =~= text_of(j@));
            }
            out
        }
        Json::Arr(items) => {
            proof {
                lemma_jview_seq(items@);
            }
            let ghost iv = jview_seq(items@);
            let mut out = String::new();
            push_char(&mut out, '[');
            let mut i: usize = 0;
            while i < items.len()
                invariant
                    i <= items@.len(),
                    out@ == seq!['['] + texts_of(iv.take(i as int)),
                decreases items@.len() - i,
            {
                if i > 0 {
                    push_char(&mut out, ',');
                }
                proof {
                    assert(decreases_to!(*j => j->Arr_0));
                    assert(decreases_to!(j->Arr_0 => j->Arr_0@));
                    assert(decreases_to!(j->Arr_0@ => j->Arr_0@[i as int]));
                    assert(j->Arr_0@[i as int] == items@[i as int]);
                }
                let t = to_text(&items[i]);
                out.append(t.as_str());
                proof {
                    assert(iv.take(i + 1).drop_last() =~= iv.take(i as int));
                    assert(iv.take(i + 1).last() == iv[i as int]);
                    assert(iv[i as int] == jview(items@[i as int]));
                    assert(out@ =~= seq!['['] + texts_of(iv.take(i + 1)));
                }
                i += 1;
            }
            push_char(&mut out, ']');
            proof {
                assert(iv.take(items@.len() as int) =~= iv);
                assert(out@ =~= text_of(j@));
            }
            out
        }
        Json::Obj(fields) => {
            proof {
                lemma_jview_fields(fields@);
            }
            let ghost fv = jview_fields(fields@);
            let mut out = String::new();
            push_char(&mut out, '{');
            let mut i: usize = 0;
            while i < fields.len()
                invariant
                    i <= fields@.len(),
                    out@ == seq!['{'] + field_texts(fv.take(i as int)),
                decreases fields@.len() - i,
            {
                if i > 0 {
                    push_char(&mut out, ',');
                }
                push_char(&mut out, '"');
                push_escaped_str(&mut out, &fields[i].0);
                push_char(&mut out, '"');
                push_char(&mut out, ':');
                proof {
                    assert(decreases_to!(*j => j->Obj_0));
                    assert(decreases_to!(j->Obj_0 => j->Obj_0@));
                    assert(decreases_to!(j->Obj_0@ => j->Obj_0@[i as int]));
                    assert(decreases_to!(j->Obj_0@[i as int] => j->Obj_0@[i as int].1));
                    assert(j->Obj_0@[i as int] == fields@[i as int]);
                }
                let t = to_text(&fields[i].1);
                out.append(t.as_str());
                proof {
                    assert(fv.take(i + 1).drop_last() =~= fv.take(i as int));
                    assert(fv.take(i + 1).last() == fv[i as int]);
                    assert(fv[i as int] == (fields@[i as int].0@, jview(fields@[i as int].1)));
                    assert(field_text(fv[i as int]) =~= seq!['"'] + esc_str(fields@[i as int].0@)
                        + seq!['"', ':'] + text_of(jview(fields@[i as int].1)));
                    assert(out@ =~= seq!['{'] + field_texts(fv.take(i + 1)));
                }
                i += 1;
            }
            push_char(&mut out, '}');
            proof {
                assert(fv.take(fields@.len() as int) =~= fv);
                assert(out@ =~= text_of(j@));
            }
            out
        }
    }
}

/// Whether a character sequence is free of raw newlines.
pub open spec fn no_nl(s: Seq<char>) -> bool {
    forall|i: int| 0 <= i < s.len() ==> s[i] != '\n'
}

proof fn lemma_no_nl_concat(a: Seq<char>, b: Seq<char>)
    requires
        no_nl(a),
        no_nl(b),
    ensures
        no_nl(a + b),
{
    assert forall|i: int| 0 <= i < (a + b).len() implies (a + b)[i] != '\n' by {
        if i < a.len() {
            assert((a + b)[i] == a[i]);
        } else {
            assert((a + b)[i] == b[i - a.len()]);
        }
    }
}

/// No decimal digit is a newline.
proof fn lemma_dec_rep_no_nl(n: nat)
    ensures
        no_nl(dec_rep(n)),
    decreases n,
{
    if n < 10 {
        assert forall|i: int| 0 <= i < dec_rep(n).len() implies dec_rep(n)[i] != '\n' by {
            assert(dec_rep(n)[i] == dec_digit(n as int));
        }
    } else {
        lemma_dec_rep_no_nl(n / 10);
        assert(no_nl(seq![dec_digit((n % 10) as int)]));
        lemma_no_nl_concat(dec_rep(n / 10), seq![dec_digit((n % 10) as int)]);
    }
}

/// No printed signed number holds a newline.
proof fn lemma_dec_rep_signed_no_nl(n: int)
    ensures
        no_nl(dec_rep_signed(n)),
{
    if n < 0 {
        lemma_dec_rep_no_nl((-n) as nat);
        assert(no_nl(seq!['-']));
        lemma_no_nl_concat(seq!['-'], dec_rep((-n) as nat));
    } else {
        lemma_dec_rep_no_nl(n as nat);
    }
}

/// The escape of a character holds no newline.
proof fn lemma_esc_char_no_nl(c: char)
    ensures
        no_nl(esc_char(c)),
{
}

/// An escaped string holds no newline.
proof fn lemma_esc_str_no_nl(s: Seq<char>)
    ensures
        no_nl(esc_str(s)),
    decreases s.len(),
{
    if s.len() > 0 {
        lemma_esc_str_no_nl(s.drop_last());
        lemma_esc_char_no_nl(s.last());
        lemma_no_nl_concat(esc_str(s.drop_last()), esc_char(s.last()));
    }
}

/// A printed document holds no raw newline: every control character is
/// escaped, so one line of the event wire frames exactly one document.
pub proof fn lemma_text_no_nl(v: JsonV)
    ensures
        no_nl(text_of(v)),
    decreases v, 1int,
{
    match v {
        JsonV::Null => {
            assert(no_nl(seq!['n', 'u', 'l', 'l']));
        }
        JsonV::Bool(b) => {
            assert(no_nl(seq!['t', 'r', 'u', 'e']));
            assert(no_nl(seq!['f', 'a', 'l', 's', 'e']));
        }
        JsonV::Num(n) => {
            lemma_dec_rep_signed_no_nl(n);
        }
        JsonV::Str(s) => {
            lemma_esc_str_no_nl(s);
            lemma_no_nl_concat(seq!['"'], esc_str(s));
            lemma_no_nl_concat(seq!['"'] + esc_str(s), seq!['"']);
        }
        JsonV::Arr(items) => {
            lemma_texts_of_no_nl(items);
            lemma_no_nl_concat(seq!['['], texts_of(items));
            lemma_no_nl_concat(seq!['['] + texts_of(items), seq![']']);
        }
        JsonV::Obj(fields) => {
            lemma_field_texts_no_nl(fields);
            lemma_no_nl_concat(seq!['{'], field_texts(fields));
            lemma_no_nl_concat(seq!['{'] + field_texts(fields), seq!['}']);
        }
    }
}

proof fn lemma_texts_of_no_nl(items: Seq<JsonV>)
    ensures
        no_nl(texts_of(items)),
    decreases items, 0int,
{
    if items.len() == 1 {
        lemma_text_no_nl(items.last());
    } else if items.len() > 1 {
        lemma_texts_of_no_nl(items.drop_last());
        lemma_text_no_nl(items.last());
        lemma_no_nl_concat(texts_of(items.drop_last()), seq![',']);
        lemma_no_nl_concat(texts_of(items.drop_last()) + seq![','], text_of(items.last()));
    }
}

proof fn lemma_field_text_no_nl(f: (Seq<char>, JsonV))
    ensures
        no_nl(field_text(f)),
    decreases f, 0int,
{
    lemma_esc_str_no_nl(f.0);
    lemma_text_no_nl(f.1);
    lemma_no_nl_concat(seq!['"'], esc_str(f.0));
    lemma_no_nl_concat(seq!['"'] + esc_str(f.0), seq!['"', ':']);
    lemma_no_nl_concat(seq!['"'] + esc_str(f.0) + seq!['"', ':'], text_of(f.1));
}

proof fn lemma_field_texts_no_nl(fields: Seq<(Seq<char>, JsonV)>)
    ensures
        no_nl(field_texts(fields)),
    decreases fields, 1int,
{
    if fields.len() == 1 {
        lemma_field_text_no_nl(fields.last());
    } else if fields.len() > 1 {
        lemma_field_texts_no_nl(fields.drop_last());
        lemma_field_text_no_nl(fields.last());
        lemma_no_nl_concat(field_texts(fields.drop_last()), seq![',']);
        lemma_no_nl_concat(field_texts(fields.drop_last()) + seq![','], field_text(fields.last()));
    }
}

} // verus!
