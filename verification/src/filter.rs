//! Store filters: typed clauses on row fields, with SQL-`LIKE` patterns on
//! strings and containment on JSON columns.

use vstd::prelude::*;

use crate::json::{contained_in, Json};

verus! {

/// A clause a filter puts on one field.
pub enum Clause {
    Eq(String),
    Ne(String),
    In(Vec<String>),
    NotIn(Vec<String>),
    Gt(u64),
    Lt(u64),
    Ge(u64),
    Le(u64),
    Like(String),
    Contains(Json),
}

/// A filter: every condition must hold of a row; `limit` and `offset` cut
/// the ordered result.
pub struct Filter {
    pub conditions: Vec<(String, Clause)>,
    pub limit: Option<usize>,
    pub offset: Option<usize>,
}

impl Filter {
    /// A filter with no conditions, which every row meets.
    pub fn none() -> (r: Filter)
        ensures
            r.conditions@.len() == 0,
            r.limit is None,
            r.offset is None,
    {
        Filter { conditions: Vec::new(), limit: None, offset: None }
    }
}

/// Whether a `LIKE` pattern matches a string: `%` stands for any run of
/// characters, `_` for exactly one.
pub open spec fn like_match(p: Seq<char>, s: Seq<char>) -> bool
    decreases p.len(), s.len(),
{
    if p.len() == 0 {
        s.len() == 0
    } else if p[0] == '%' {
        like_match(p.drop_first(), s) || (s.len() > 0 && like_match(p, s.drop_first()))
    } else if s.len() == 0 {
        false
    } else {
        (p[0] == '_' || p[0] == s[0]) && like_match(p.drop_first(), s.drop_first())
    }
}

#[verifier::loop_isolation(false)]
fn like_from(p: &str, s: &str, pi: usize, si: usize) -> (r: bool)
    requires
        pi <= p@.len(),
        si <= s@.len(),
    ensures
        r == like_match(p@.skip(pi as int), s@.skip(si as int)),
    decreases p@.len() - pi, s@.len() - si,
{
    let pn = p.unicode_len();
    let sn = s.unicode_len();
    let ghost pv = p@.skip(pi as int);
    let ghost sv = s@.skip(si as int);
    if pi == pn {
        proof {
            assert(pv.len() == 0);
        }
        si == sn
    } else {
        let pc = p.get_char(pi);
        proof {
            assert(pv[0] == p@[pi as int]);
            assert(pv.drop_first() =~= p@.skip(pi + 1));
            assert(sv.len() > 0 ==> sv.drop_first() =~= s@.skip(si + 1));
            assert(sv.len() > 0 ==> sv[0] == s@[si as int]);
        }
        if pc == '%' {
            if like_from(p, s, pi + 1, si) {
                return true;
            }
            if si < sn {
                return like_from(p, s, pi, si + 1);
            }
            false
        } else if si == sn {
            false
        } else {
            let sc = s.get_char(si);
            if pc == '_' || pc == sc {
                like_from(p, s, pi + 1, si + 1)
            } else {
                false
            }
        }
    }
}

/// Decides whether a `LIKE` pattern matches a string.
pub fn like_matches(pattern: &String, s: &String) -> (r: bool)
    ensures
        r == like_match(pattern@, s@),
{
    let r = like_from(pattern.as_str(), s.as_str(), 0, 0);
    proof {
        assert(pattern@.skip(0) =~= pattern@);
        assert(s@.skip(0) =~= s@);
    }
    r
}

/// Whether a sequence of strings holds a value.
pub open spec fn seq_has_str(vs: Seq<String>, v: Seq<char>) -> bool {
    exists|i: int| 0 <= i < vs.len() && #[trigger] vs[i]@ == v
}

/// Decides whether a list of strings holds a value.
#[verifier::loop_isolation(false)]
pub fn list_has_str(vs: &Vec<String>, v: &String) -> (r: bool)
    ensures
        r == seq_has_str(vs@, v@),
{
    let mut i: usize = 0;
    while i < vs.len()
        invariant
            i <= vs@.len(),
            forall|k: int| 0 <= k < i ==> #[trigger] vs@[k]@ != v@,
        decreases vs@.len() - i,
    {
        if vs[i].eq(v) {
            proof {
                assert(vs@[i as int]@ == v@);
            }
            return true;
        }
        i += 1;
    }
    false
}

/// What a clause says of a string field.
pub open spec fn clause_holds_str(c: Clause, v: Seq<char>) -> bool {
    match c {
        Clause::Eq(x) => v == x@,
        Clause::Ne(x) => v != x@,
        Clause::In(xs) => seq_has_str(xs@, v),
        Clause::NotIn(xs) => !seq_has_str(xs@, v),
        Clause::Like(p) => like_match(p@, v),
        _ => false,
    }
}

/// Decides a clause on a string field.
pub fn clause_matches_str(c: &Clause, v: &String) -> (r: bool)
    ensures
        r == clause_holds_str(*c, v@),
{
    match c {
        Clause::Eq(x) => v.eq(x),
        Clause::Ne(x) => !v.eq(x),
        Clause::In(xs) => list_has_str(xs, v),
        Clause::NotIn(xs) => !list_has_str(xs, v),
        Clause::Like(p) => like_matches(p, v),
        _ => false,
    }
}

/// What a clause says of a numeric field.
pub open spec fn clause_holds_num(c: Clause, v: u64) -> bool {
    match c {
        Clause::Gt(x) => v > x,
        Clause::Lt(x) => v < x,
        Clause::Ge(x) => v >= x,
        Clause::Le(x) => v <= x,
        _ => false,
    }
}

/// Decides a clause on a numeric field.
pub fn clause_matches_num(c: &Clause, v: u64) -> (r: bool)
    ensures
        r == clause_holds_num(*c, v),
{
    match c {
        Clause::Gt(x) => v > *x,
        Clause::Lt(x) => v < *x,
        Clause::Ge(x) => v >= *x,
        Clause::Le(x) => v <= *x,
        _ => false,
    }
}

/// What a clause says of a JSON column.
pub open spec fn clause_holds_json(c: Clause, v: crate::json::JsonV) -> bool {
    match c {
        Clause::Contains(pat) => contained_in(pat@, v),
        _ => false,
    }
}

/// Decides a clause on a JSON column.
pub fn clause_matches_json(c: &Clause, v: &Json) -> (r: bool)
    ensures
        r == clause_holds_json(*c, v@),
{
    match c {
        Clause::Contains(pat) => crate::json::json_contains(v, pat),
        _ => false,
    }
}

} // verus!
