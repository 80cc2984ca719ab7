//! Building blocks for the text the core writes: appending single characters
//! and printing decimal numbers.

use vstd::prelude::*;

verus! {

/// Relies on `String::push`: appends exactly one character at the end.
#[verifier::external_body]
pub(crate) fn push_char(s: &mut String, c: char)
    ensures
        final(s)@ == old(s)@ + seq![c],
{
    s.push(c)
}

/// The decimal digit for a value below ten.
pub open spec fn dec_digit(n: int) -> char {
    if n == 0 { '0' }
    else if n == 1 { '1' }
    else if n == 2 { '2' }
    else if n == 3 { '3' }
    else if n == 4 { '4' }
    else if n == 5 { '5' }
    else if n == 6 { '6' }
    else if n == 7 { '7' }
    else if n == 8 { '8' }
    else { '9' }
}

/// The decimal representation of a natural number, most significant digit
/// first, without leading zeroes (a single `0` for zero).
pub open spec fn dec_rep(n: nat) -> Seq<char>
    decreases n,
{
    if n < 10 {
        seq![dec_digit(n as int)]
    } else {
        dec_rep(n / 10) + seq![dec_digit((n % 10) as int)]
    }
}

/// The decimal representation of a signed number: a minus sign before the
/// representation of the magnitude.
pub open spec fn dec_rep_signed(n: int) -> Seq<char> {
    if n < 0 {
        seq!['-'] + dec_rep((-n) as nat)
    } else {
        dec_rep(n as nat)
    }
}

fn dec_digit_char(n: u64) -> (c: char)
    requires
        n < 10,
    ensures
        c == dec_digit(n as int),
{
    if n == 0 { '0' }
    else if n == 1 { '1' }
    else if n == 2 { '2' }
    else if n == 3 { '3' }
    else if n == 4 { '4' }
    else if n == 5 { '5' }
    else if n == 6 { '6' }
    else if n == 7 { '7' }
    else if n == 8 { '8' }
    else { '9' }
}

/// Prints a number in decimal.
pub fn u64_to_dec(n: u64) -> (s: String)
    ensures
        s@ == dec_rep(n as nat),
    decreases n,
{
    if n < 10 {
        let mut s = String::new();
        push_char(&mut s, dec_digit_char(n));
        assert(s@ =~= dec_rep(n as nat));
        s
    } else {
        let mut s = u64_to_dec(n / 10);
        push_char(&mut s, dec_digit_char(n % 10));
        assert(s@ =~= dec_rep(n as nat));
        s
    }
}

/// Prints a signed number in decimal.
pub fn i64_to_dec(n: i64) -> (s: String)
    ensures
        s@ == dec_rep_signed(n as int),
{
    if n >= 0 {
        u64_to_dec(n as u64)
    } else {
        let mag: u64 = (-(n as i128)) as u64;
        let mut s = String::new();
        push_char(&mut s, '-');
        let rest = u64_to_dec(mag);
        s.append(rest.as_str());
        assert(s@ =~= dec_rep_signed(n as int));
        s
    }
}

/// Whether `p` is a prefix of `s`.
pub open spec fn is_prefix(p: Seq<char>, s: Seq<char>) -> bool {
    s.len() >= p.len() && s.subrange(0, p.len() as int) == p
}

/// Decides whether the string starts with the given prefix.
#[verifier::loop_isolation(false)]
pub fn has_prefix(s: &str, p: &str) -> (r: bool)
    ensures
        r == is_prefix(p@, s@),
{
    let sn = s.unicode_len();
    let pn = p.unicode_len();
    if sn < pn {
        proof {
            assert(!is_prefix(p@, s@));
        }
        return false;
    }
    let mut i: usize = 0;
    while i < pn
        invariant
            i <= pn,
            pn == p@.len(),
            sn == s@.len(),
            pn <= sn,
            forall|k: int| 0 <= k < i ==> s@[k] == p@[k],
        decreases pn - i,
    {
        if s.get_char(i) != p.get_char(i) {
            proof {
                assert(s@.subrange(0, p@.len() as int)[i as int] == s@[i as int]);
                assert(!is_prefix(p@, s@));
            }
            return false;
        }
        i += 1;
    }
    proof {
        assert(s@.subrange(0, p@.len() as int) =~= p@);
    }
    true
}

/// The contents of a list of strings.
pub open spec fn strs_view(s: Seq<String>) -> Seq<Seq<char>>
    decreases s,
{
    if s.len() == 0 {
        Seq::empty()
    } else {
        strs_view(s.drop_last()).push(s.last()@)
    }
}

/// `strs_view` maps the list element by element.
pub proof fn lemma_strs_view(s: Seq<String>)
    ensures
        strs_view(s).len() == s.len(),
        forall|i: int| 0 <= i < s.len() ==> strs_view(s)[i] == s[i]@,
    decreases s,
{
    if s.len() > 0 {
        lemma_strs_view(s.drop_last());
    }
}

/// The contents of a list of string pairs.
pub open spec fn pairs_view(s: Seq<(String, String)>) -> Seq<(Seq<char>, Seq<char>)>
    decreases s,
{
    if s.len() == 0 {
        Seq::empty()
    } else {
        pairs_view(s.drop_last()).push((s.last().0@, s.last().1@))
    }
}

/// `pairs_view` maps the list element by element.
pub proof fn lemma_pairs_view(s: Seq<(String, String)>)
    ensures
        pairs_view(s).len() == s.len(),
        forall|i: int| 0 <= i < s.len() ==> pairs_view(s)[i] == (s[i].0@, s[i].1@),
    decreases s,
{
    if s.len() > 0 {
        lemma_pairs_view(s.drop_last());
    }
}

/// Copies a list of strings.
#[verifier::loop_isolation(false)]
pub fn clone_strs(s: &Vec<String>) -> (r: Vec<String>)
    ensures
        strs_view(r@) == strs_view(s@),
        r@.len() == s@.len(),
{
    proof {
        lemma_strs_view(s@);
    }
    let mut out: Vec<String> = Vec::new();
    let mut i: usize = 0;
    while i < s.len()
        invariant
            i <= s@.len(),
            out@.len() == i,
            forall|k: int| 0 <= k < i ==> out@[k]@ == s@[k]@,
        decreases s@.len() - i,
    {
        out.push(s[i].clone());
        i += 1;
    }
    proof {
        lemma_strs_view(out@);
        assert(strs_view(out@) =~= strs_view(s@));
    }
    out
}

/// Copies a list of string pairs.
#[verifier::loop_isolation(false)]
pub fn clone_pairs(s: &Vec<(String, String)>) -> (r: Vec<(String, String)>)
    ensures
        pairs_view(r@) == pairs_view(s@),
        r@.len() == s@.len(),
{
    proof {
        lemma_pairs_view(s@);
    }
    let mut out: Vec<(String, String)> = Vec::new();
    let mut i: usize = 0;
    while i < s.len()
        invariant
            i <= s@.len(),
            out@.len() == i,
            forall|k: int| 0 <= k < i ==> out@[k].0@ == s@[k].0@ && out@[k].1@ == s@[k].1@,
        decreases s@.len() - i,
    {
        out.push((s[i].0.clone(), s[i].1.clone()));
        i += 1;
    }
    proof {
        lemma_pairs_view(out@);
        assert(pairs_view(out@) =~= pairs_view(s@));
    }
    out
}

} // verus!
