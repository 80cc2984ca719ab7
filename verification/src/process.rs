//! The daemon's mirror of engine processes: rows keyed by the engine's
//! container id, owned by an object through `kind_key`, carrying the engine
//! inspect snapshot as JSON. Reads are filtered and come newest first.

use vstd::prelude::*;

use crate::filter::{clause_holds_json, clause_holds_num, clause_holds_str, clause_matches_json,
    clause_matches_num, clause_matches_str, list_has_str, seq_has_str, Clause, Filter};
use crate::json::{contained_in, field_contained, Json, JsonV};
use crate::text::{lemma_pairs_view, pairs_view};
use crate::keys::ProcessKind;

verus! {

/// A tracked engine process.
pub struct ProcessRow {
    /// The engine's container id.
    pub key: String,
    /// The engine-side name.
    pub name: String,
    /// The kind of owning object.
    pub kind: ProcessKind,
    /// The key of the owning object.
    pub kind_key: String,
    /// The node the process runs on.
    pub node_id: String,
    /// The engine inspect snapshot.
    pub data: Json,
    /// Insertion stamp; rows are read newest first.
    pub created_at: u64,
}

/// The mathematical value of a process row.
pub struct ProcessRowV {
    pub key: Seq<char>,
    pub name: Seq<char>,
    pub kind: ProcessKind,
    pub kind_key: Seq<char>,
    pub node_id: Seq<char>,
    pub data: JsonV,
    pub created_at: u64,
}

impl View for ProcessRow {
    type V = ProcessRowV;

    open spec fn view(&self) -> ProcessRowV {
        ProcessRowV {
            key: self.key@,
            name: self.name@,
            kind: self.kind,
            kind_key: self.kind_key@,
            node_id: self.node_id@,
            data: self.data@,
            created_at: self.created_at,
        }
    }
}

/// The values of a row sequence.
pub open spec fn rows_view(rows: Seq<ProcessRow>) -> Seq<ProcessRowV>
    decreases rows,
{
    if rows.len() == 0 {
        Seq::empty()
    } else {
        rows_view(rows.drop_last()).push(rows.last()@)
    }
}

/// `rows_view` maps the sequence element by element.
pub proof fn lemma_rows_view(rows: Seq<ProcessRow>)
    ensures
        rows_view(rows).len() == rows.len(),
        forall|i: int| 0 <= i < rows.len() ==> rows_view(rows)[i] == rows[i]@,
    decreases rows,
{
    if rows.len() > 0 {
        lemma_rows_view(rows.drop_last());
    }
}

impl ProcessRow {
    /// A copy of the row.
    pub fn clone_row(&self) -> (r: ProcessRow)
        ensures
            r@ == self@,
    {
        ProcessRow {
            key: self.key.clone(),
            name: self.name.clone(),
            kind: self.kind,
            kind_key: self.kind_key.clone(),
            node_id: self.node_id.clone(),
            data: self.data.deep_copy(),
            created_at: self.created_at,
        }
    }
}

/// The wire name of a process kind.
pub open spec fn kind_text(k: ProcessKind) -> Seq<char> {
    match k {
        ProcessKind::Cargo => seq!['c', 'a', 'r', 'g', 'o'],
        ProcessKind::Job => seq!['j', 'o', 'b'],
        ProcessKind::Vm => seq!['v', 'm'],
    }
}

/// Prints the wire name of a process kind.
pub fn kind_name(k: &ProcessKind) -> (r: String)
    ensures
        r@ == kind_text(*k),
{
    match k {
        ProcessKind::Cargo => {
            let r = String::from_str("cargo");
            proof {
                reveal_strlit("cargo");
                assert(r@ =~= kind_text(*k));
            }
            r
        }
        ProcessKind::Job => {
            let r = String::from_str("job");
            proof {
                reveal_strlit("job");
                assert(r@ =~= kind_text(*k));
            }
            r
        }
        ProcessKind::Vm => {
            let r = String::from_str("vm");
            proof {
                reveal_strlit("vm");
                assert(r@ =~= kind_text(*k));
            }
            r
        }
    }
}

/// Parses the wire name of a process kind.
pub fn parse_kind(s: &String) -> (r: Option<ProcessKind>)
    ensures
        match r {
            Some(k) => s@ == kind_text(k),
            None => forall|k: ProcessKind| s@ != kind_text(k),
        },
{
    let cargo = String::from_str("cargo");
    let job = String::from_str("job");
    let vm = String::from_str("vm");
    proof {
        reveal_strlit("cargo");
        reveal_strlit("job");
        reveal_strlit("vm");
        assert(cargo@ =~= kind_text(ProcessKind::Cargo));
        assert(job@ =~= kind_text(ProcessKind::Job));
        assert(vm@ =~= kind_text(ProcessKind::Vm));
    }
    if s.eq(&cargo) {
        Some(ProcessKind::Cargo)
    } else if s.eq(&job) {
        Some(ProcessKind::Job)
    } else if s.eq(&vm) {
        Some(ProcessKind::Vm)
    } else {
        proof {
            assert forall|k: ProcessKind| s@ != kind_text(k) by {
                match k {
                    ProcessKind::Cargo => assert(s@ != kind_text(ProcessKind::Cargo)),
                    ProcessKind::Job => assert(s@ != kind_text(ProcessKind::Job)),
                    ProcessKind::Vm => assert(s@ != kind_text(ProcessKind::Vm)),
                }
            }
        }
        None
    }
}

/// What a filter condition says of a row, by field name. An unknown field
/// matches nothing.
pub open spec fn cond_holds(r: ProcessRowV, c: (String, Clause)) -> bool {
    let f = c.0@;
    if f == seq!['k', 'e', 'y'] {
        clause_holds_str(c.1, r.key)
    } else if f == seq!['n', 'a', 'm', 'e'] {
        clause_holds_str(c.1, r.name)
    } else if f == seq!['k', 'i', 'n', 'd'] {
        clause_holds_str(c.1, kind_text(r.kind))
    } else if f == seq!['k', 'i', 'n', 'd', '_', 'k', 'e', 'y'] {
        clause_holds_str(c.1, r.kind_key)
    } else if f == seq!['n', 'o', 'd', 'e', '_', 'i', 'd'] {
        clause_holds_str(c.1, r.node_id)
    } else if f == seq!['d', 'a', 't', 'a'] {
        clause_holds_json(c.1, r.data)
    } else if f == seq!['c', 'r', 'e', 'a', 't', 'e', 'd', '_', 'a', 't'] {
        clause_holds_num(c.1, r.created_at)
    } else {
        false
    }
}

/// Decides one filter condition on a row.
pub fn eval_cond(r: &ProcessRow, c: &(String, Clause)) -> (b: bool)
    ensures
        b == cond_holds(r@, *c),
{
    let f_key = String::from_str("key");
    let f_name = String::from_str("name");
    let f_kind = String::from_str("kind");
    let f_kind_key = String::from_str("kind_key");
    let f_node_id = String::from_str("node_id");
    let f_data = String::from_str("data");
    let f_created_at = String::from_str("created_at");
    proof {
        reveal_strlit("key");
        reveal_strlit("name");
        reveal_strlit("kind");
        reveal_strlit("kind_key");
        reveal_strlit("node_id");
        reveal_strlit("data");
        reveal_strlit("created_at");
        assert(f_key@ =~= seq!['k', 'e', 'y']);
        assert(f_name@ =~= seq!['n', 'a', 'm', 'e']);
        assert(f_kind@ =~= seq!['k', 'i', 'n', 'd']);
        assert(f_kind_key@ =~= seq!['k', 'i', 'n', 'd', '_', 'k', 'e', 'y']);
        assert(f_node_id@ =~= seq!['n', 'o', 'd', 'e', '_', 'i', 'd']);
        assert(f_data@ =~= seq!['d', 'a', 't', 'a']);
        assert(f_created_at@ =~= seq!['c', 'r', 'e', 'a', 't', 'e', 'd', '_', 'a', 't']);
    }
    if c.0.eq(&f_key) {
        clause_matches_str(&c.1, &r.key)
    } else if c.0.eq(&f_name) {
        clause_matches_str(&c.1, &r.name)
    } else if c.0.eq(&f_kind) {
        let kn = kind_name(&r.kind);
        clause_matches_str(&c.1, &kn)
    } else if c.0.eq(&f_kind_key) {
        clause_matches_str(&c.1, &r.kind_key)
    } else if c.0.eq(&f_node_id) {
        clause_matches_str(&c.1, &r.node_id)
    } else if c.0.eq(&f_data) {
        clause_matches_json(&c.1, &r.data)
    } else if c.0.eq(&f_created_at) {
        clause_matches_num(&c.1, r.created_at)
    } else {
        false
    }
}

/// Whether a row meets every condition of a filter.
pub open spec fn row_meets(r: ProcessRowV, conds: Seq<(String, Clause)>) -> bool {
    forall|i: int| 0 <= i < conds.len() ==> cond_holds(r, #[trigger] conds[i])
}

/// Decides whether a row meets every condition of a filter.
#[verifier::loop_isolation(false)]
pub fn row_matches(r: &ProcessRow, f: &Filter) -> (b: bool)
    ensures
        b == row_meets(r@, f.conditions@),
{
    let mut i: usize = 0;
    while i < f.conditions.len()
        invariant
            i <= f.conditions@.len(),
            forall|k: int| 0 <= k < i ==> cond_holds(r@, #[trigger] f.conditions@[k]),
        decreases f.conditions@.len() - i,
    {
        if !eval_cond(r, &f.conditions[i]) {
            proof {
                assert(!cond_holds(r@, f.conditions@[i as int]));
            }
            return false;
        }
        i += 1;
    }
    true
}

/// The rows meeting a filter's conditions, newest first.
pub open spec fn filtered_desc(rows: Seq<ProcessRowV>, conds: Seq<(String, Clause)>) -> Seq<
    ProcessRowV,
>
    decreases rows.len(),
{
    if rows.len() == 0 {
        Seq::empty()
    } else {
        let rest = filtered_desc(rows.drop_last(), conds);
        if row_meets(rows.last(), conds) {
            seq![rows.last()] + rest
        } else {
            rest
        }
    }
}

/// Peeling the oldest row off `filtered_desc`.
pub proof fn lemma_filtered_desc_first(rows: Seq<ProcessRowV>, conds: Seq<(String, Clause)>)
    requires
        rows.len() > 0,
    ensures
        filtered_desc(rows, conds) == if row_meets(rows[0], conds) {
            filtered_desc(rows.drop_first(), conds).push(rows[0])
        } else {
            filtered_desc(rows.drop_first(), conds)
        },
    decreases rows.len(),
{
    if rows.len() == 1 {
        assert(rows.drop_first() =~= Seq::empty());
        assert(rows.drop_last() =~= Seq::empty());
        if row_meets(rows[0], conds) {
            assert(seq![rows.last()] + Seq::<ProcessRowV>::empty() =~= Seq::<
                ProcessRowV,
            >::empty().push(rows[0]));
        }
    } else {
        let dl = rows.drop_last();
        lemma_filtered_desc_first(dl, conds);
        assert(dl[0] == rows[0]);
        assert(dl.drop_first() =~= rows.drop_first().drop_last());
        assert(rows.drop_first().last() == rows.last());
        if row_meets(rows[0], conds) {
            if row_meets(rows.last(), conds) {
                assert(seq![rows.last()] + filtered_desc(dl.drop_first(), conds).push(rows[0])
                    =~= (seq![rows.last()] + filtered_desc(dl.drop_first(), conds)).push(
                    rows[0],
                ));
            }
        }
    }
}

/// Every row a filter keeps is one of the table's rows.
pub proof fn lemma_filtered_desc_member(rows: Seq<ProcessRowV>, conds: Seq<(String, Clause)>)
    ensures
        forall|i: int| 0 <= i < filtered_desc(rows, conds).len() ==> exists|j: int|
            0 <= j < rows.len() && #[trigger] filtered_desc(rows, conds)[i] == rows[j],
    decreases rows.len(),
{
    if rows.len() > 0 {
        lemma_filtered_desc_member(rows.drop_last(), conds);
        let rest = filtered_desc(rows.drop_last(), conds);
        assert forall|i: int| 0 <= i < filtered_desc(rows, conds).len() implies exists|j: int|
            0 <= j < rows.len() && #[trigger] filtered_desc(rows, conds)[i] == rows[j] by {
            if row_meets(rows.last(), conds) {
                if i == 0 {
                    assert(filtered_desc(rows, conds)[0] == rows[rows.len() - 1]);
                } else {
                    assert(filtered_desc(rows, conds)[i] == rest[i - 1]);
                    let j = choose|j: int| 0 <= j < rows.drop_last().len() && rest[i - 1]
                        == rows.drop_last()[j];
                    assert(rows[j] == rows.drop_last()[j]);
                }
            } else {
                let j = choose|j: int| 0 <= j < rows.drop_last().len() && rest[i]
                    == rows.drop_last()[j];
                assert(rows[j] == rows.drop_last()[j]);
            }
        }
    }
}

/// Reads answer newest first: with the stamps `insert` assigns growing along
/// the table, they strictly fall along any filtered read.
pub proof fn law_read_newest_first(rows: Seq<ProcessRowV>, conds: Seq<(String, Clause)>)
    requires
        forall|a: int, b: int| 0 <= a < b < rows.len() ==> rows[a].created_at
            < rows[b].created_at,
    ensures
        forall|a: int, b: int| 0 <= a < b < filtered_desc(rows, conds).len()
            ==> filtered_desc(rows, conds)[a].created_at > filtered_desc(rows, conds)[
            b
        ].created_at,
    decreases rows.len(),
{
    if rows.len() > 0 {
        law_read_newest_first(rows.drop_last(), conds);
        lemma_filtered_desc_member(rows.drop_last(), conds);
        let rest = filtered_desc(rows.drop_last(), conds);
        assert forall|a: int, b: int| 0 <= a < b < filtered_desc(rows, conds).len()
            implies filtered_desc(rows, conds)[a].created_at > filtered_desc(rows, conds)[
            b
        ].created_at by {
            if row_meets(rows.last(), conds) {
                assert(filtered_desc(rows, conds)[b] == rest[b - 1]);
                if a == 0 {
                    assert(filtered_desc(rows, conds)[0] == rows[rows.len() - 1]);
                    let j = choose|j: int| 0 <= j < rows.drop_last().len() && rest[b - 1]
                        == rows.drop_last()[j];
                    assert(rows.drop_last()[j] == rows[j]);
                    assert(rows[j].created_at < rows[rows.len() - 1].created_at);
                } else {
                    assert(filtered_desc(rows, conds)[a] == rest[a - 1]);
                }
            }
        }
    }
}

/// Under the table invariant, every read answers newest first.
pub proof fn law_table_reads_newest_first(t: ProcessTable, conds: Seq<(String, Clause)>)
    requires
        table_wf(t),
    ensures
        forall|a: int, b: int| 0 <= a < b < filtered_desc(rows_view(t.rows@), conds).len()
            ==> filtered_desc(rows_view(t.rows@), conds)[a].created_at > filtered_desc(
            rows_view(t.rows@),
            conds,
        )[b].created_at,
{
    law_read_newest_first(rows_view(t.rows@), conds);
}

/// A window over an ordered result: `offset` rows are skipped, at most
/// `limit` are kept.
pub open spec fn window(s: Seq<ProcessRowV>, offset: Option<usize>, limit: Option<usize>) -> Seq<
    ProcessRowV,
> {
    let o = match offset {
        Some(o) => if o as int <= s.len() {
            o as int
        } else {
            s.len() as int
        },
        None => 0,
    };
    let t = s.skip(o);
    match limit {
        Some(l) => t.take(if l as int <= t.len() {
            l as int
        } else {
            t.len() as int
        }),
        None => t,
    }
}

/// The table of tracked processes.
pub struct ProcessTable {
    pub rows: Vec<ProcessRow>,
    pub next_stamp: u64,
}

/// The table invariant every mutating operation keeps: stamps grow strictly
/// along the rows and stay below the counter, so a row's position is its
/// age and reads come back newest first (see `law_read_newest_first`).
pub open spec fn table_wf(t: ProcessTable) -> bool {
    &&& forall|a: int, b: int| 0 <= a < b < rows_view(t.rows@).len() ==> rows_view(t.rows@)[
        a
    ].created_at < rows_view(t.rows@)[b].created_at
    &&& forall|a: int| 0 <= a < rows_view(t.rows@).len() ==> (#[trigger] rows_view(t.rows@)[
        a
    ]).created_at < t.next_stamp
}

/// Appending a row stamped with the counter keeps the stamps ordered.
proof fn lemma_rows_push_wf(s: Seq<ProcessRowV>, r: ProcessRowV, stamp: u64)
    requires
        forall|a: int, b: int| 0 <= a < b < s.len() ==> s[a].created_at < s[b].created_at,
        forall|a: int| 0 <= a < s.len() ==> (#[trigger] s[a]).created_at < stamp,
        r.created_at == stamp,
        stamp < u64::MAX,
    ensures
        forall|a: int, b: int| 0 <= a < b < s.push(r).len() ==> s.push(r)[a].created_at < s.push(
            r,
        )[b].created_at,
        forall|a: int| 0 <= a < s.push(r).len() ==> (#[trigger] s.push(r)[a]).created_at < stamp
            + 1,
{
    assert forall|a: int, b: int| 0 <= a < b < s.push(r).len() implies s.push(r)[a].created_at
        < s.push(r)[b].created_at by {
        assert(s.push(r)[a] == s[a]);
        if b < s.len() {
            assert(s.push(r)[b] == s[b]);
        } else {
            assert(s.push(r)[b] == r);
        }
    }
    assert forall|a: int| 0 <= a < s.push(r).len() implies (#[trigger] s.push(r)[a]).created_at
        < stamp + 1 by {
        if a < s.len() {
            assert(s.push(r)[a] == s[a]);
        } else {
            assert(s.push(r)[a] == r);
        }
    }
}

/// Dropping rows keeps the remaining stamps ordered and bounded.
proof fn lemma_without_keys_ordered(rows: Seq<ProcessRowV>, keys: Seq<String>, bound: u64)
    requires
        forall|a: int, b: int| 0 <= a < b < rows.len() ==> rows[a].created_at < rows[
            b
        ].created_at,
        forall|a: int| 0 <= a < rows.len() ==> (#[trigger] rows[a]).created_at < bound,
    ensures
        forall|a: int, b: int| 0 <= a < b < without_keys(rows, keys).len() ==> without_keys(
            rows,
            keys,
        )[a].created_at < without_keys(rows, keys)[b].created_at,
        forall|a: int| 0 <= a < without_keys(rows, keys).len() ==> (#[trigger] without_keys(
            rows,
            keys,
        )[a]).created_at < bound,
    decreases rows.len(),
{
    if rows.len() > 0 {
        lemma_without_keys_ordered(rows.drop_last(), keys, bound);
        lemma_without_keys(rows.drop_last(), keys);
        let rest = without_keys(rows.drop_last(), keys);
        let w = without_keys(rows, keys);
        assert forall|a: int, b: int| 0 <= a < b < w.len() implies w[a].created_at < w[
            b
        ].created_at by {
            if seq_has_str(keys, rows.last().key) {
                assert(w[a] == rest[a]);
                assert(w[b] == rest[b]);
            } else {
                assert(w[a] == rest[a]);
                if b < w.len() - 1 {
                    assert(w[b] == rest[b]);
                } else {
                    assert(w[b] == rows.last());
                    let j = choose|j: int| 0 <= j < rows.drop_last().len() && rest[a]
                        == rows.drop_last()[j];
                    assert(rows.drop_last()[j] == rows[j]);
                    assert(rows[j].created_at < rows[rows.len() - 1].created_at);
                }
            }
        }
        assert forall|a: int| 0 <= a < w.len() implies (#[trigger] w[a]).created_at < bound by {
            if !seq_has_str(keys, rows.last().key) && a == w.len() - 1 {
                assert(w[a] == rows.last());
            } else {
                assert(w[a] == rest[a]);
            }
        }
    }
}

impl ProcessTable {
    /// An empty table.
    pub fn new() -> (r: ProcessTable)
        ensures
            r.rows@.len() == 0,
            r.next_stamp == 0,
            table_wf(r),
    {
        ProcessTable { rows: Vec::new(), next_stamp: 0 }
    }

    /// Inserts a mirror row for an engine process, stamping it as the newest.
    pub fn insert(&mut self, row: ProcessRow)
        requires
            old(self).next_stamp < u64::MAX,
            table_wf(*old(self)),
        ensures
            rows_view(final(self).rows@) == rows_view(old(self).rows@).push(
                ProcessRowV { created_at: old(self).next_stamp, ..row@ },
            ),
            final(self).next_stamp == old(self).next_stamp + 1,
            table_wf(*final(self)),
    {
        let stamp = self.next_stamp;
        let stamped = ProcessRow { created_at: stamp, ..row };
        self.rows.push(stamped);
        self.next_stamp = stamp + 1;
        proof {
            assert(self.rows@.drop_last() =~= old(self).rows@);
            lemma_rows_push_wf(
                rows_view(old(self).rows@),
                ProcessRowV { created_at: stamp, ..row@ },
                stamp,
            );
        }
    }

    /// Reads the rows meeting a filter, newest first, within the filter's
    /// window.
    #[verifier::loop_isolation(false)]
    pub fn find(&self, f: &Filter) -> (out: Vec<ProcessRow>)
        ensures
            rows_view(out@) == window(filtered_desc(rows_view(self.rows@), f.conditions@),
                f.offset, f.limit),
    {
        proof {
            lemma_rows_view(self.rows@);
        }
        let ghost rv = rows_view(self.rows@);
        let ghost conds = f.conditions@;
        let mut all: Vec<ProcessRow> = Vec::new();
        let mut i: usize = self.rows.len();
        while i > 0
            invariant
                i <= self.rows@.len(),
                rows_view(all@) == filtered_desc(rv.skip(i as int), conds),
            decreases i,
        {
            let idx = i - 1;
            let ghost pre = all@;
            if row_matches(&self.rows[idx], f) {
                let c = self.rows[idx].clone_row();
                all.push(c);
                proof {
                    assert(all@.drop_last() =~= pre);
                }
            }
            proof {
                let s = rv.skip(idx as int);
                assert(s.len() > 0);
                assert(s[0] == rv[idx as int]);
                assert(rv[idx as int] == self.rows@[idx as int]@);
                assert(s.drop_first() =~= rv.skip(i as int));
                lemma_filtered_desc_first(s, conds);
            }
            i = idx;
        }
        proof {
            assert(rv.skip(0) =~= rv);
        }
        // apply the window
        let total = all.len();
        let start = match f.offset {
            Some(o) => if o <= total {
                o
            } else {
                total
            },
            None => 0,
        };
        let end = match f.limit {
            Some(l) => if l <= total - start {
                start + l
            } else {
                total
            },
            None => total,
        };
        let mut out: Vec<ProcessRow> = Vec::new();
        proof {
            lemma_rows_view(all@);
            assert(rows_view(out@) =~= rows_view(all@).subrange(start as int, start as int));
        }
        let mut j: usize = start;
        while j < end
            invariant
                start <= j <= end,
                rows_view(out@) == rows_view(all@).subrange(start as int, j as int),
            decreases end - j,
        {
            let c = all[j].clone_row();
            let ghost pre = out@;
            out.push(c);
            proof {
                lemma_rows_view(all@);
                assert(out@.drop_last() =~= pre);
                assert(rows_view(all@).subrange(start as int, j + 1).drop_last() =~= rows_view(
                    all@,
                ).subrange(start as int, j as int));
                let ghost jj = j as int;
                assert(rows_view(all@).subrange(start as int, j + 1).last()
                    == rows_view(all@)[jj]);
            }
            j += 1;
        }
        proof {
            let s = filtered_desc(rv, conds);
            assert(s == rows_view(all@));
            assert(s.len() == total);
            assert(rows_view(out@) == s.subrange(start as int, end as int));
            assert(s.subrange(start as int, end as int) =~= window(s, f.offset, f.limit));
        }
        out
    }

    /// Reads the newest row meeting a filter.
    pub fn read_one_by(&self, f: &Filter) -> (out: Option<ProcessRow>)
        ensures
            ({
                let fd = window(filtered_desc(rows_view(self.rows@), f.conditions@), f.offset,
                    f.limit);
                match out {
                    Some(r) => fd.len() > 0 && r@ == fd[0],
                    None => fd.len() == 0,
                }
            }),
    {
        let mut found = self.find(f);
        proof {
            lemma_rows_view(found@);
        }
        if found.len() == 0 {
            None
        } else {
            let first = found.remove(0);
            Some(first)
        }
    }

    /// Drops the rows whose engine id is listed.
    #[verifier::loop_isolation(false)]
    pub fn delete_by_keys(&mut self, keys: &Vec<String>)
        requires
            table_wf(*old(self)),
        ensures
            rows_view(final(self).rows@) == without_keys(rows_view(old(self).rows@), keys@),
            final(self).next_stamp == old(self).next_stamp,
            table_wf(*final(self)),
    {
        proof {
            lemma_rows_view(self.rows@);
        }
        let ghost rv = rows_view(self.rows@);
        let mut out: Vec<ProcessRow> = Vec::new();
        let mut i: usize = 0;
        while i < self.rows.len()
            invariant
                i <= self.rows@.len(),
                rows_view(out@) == without_keys(rv.take(i as int), keys@),
            decreases self.rows@.len() - i,
        {
            let ghost pre = out@;
            if !list_has_str(keys, &self.rows[i].key) {
                let c = self.rows[i].clone_row();
                out.push(c);
                proof {
                    assert(out@.drop_last() =~= pre);
                }
            }
            proof {
                assert(rv.take(i + 1).drop_last() =~= rv.take(i as int));
                assert(rv.take(i + 1).last() == rv[i as int]);
                assert(rv[i as int] == self.rows@[i as int]@);
            }
            i += 1;
        }
        proof {
            assert(rv.take(self.rows@.len() as int) =~= rv);
            lemma_without_keys_ordered(rv, keys@, self.next_stamp);
        }
        self.rows = out;
    }
}

/// The rows left when those with a listed engine id are dropped.
pub open spec fn without_keys(rows: Seq<ProcessRowV>, keys: Seq<String>) -> Seq<ProcessRowV>
    decreases rows.len(),
{
    if rows.len() == 0 {
        Seq::empty()
    } else {
        let rest = without_keys(rows.drop_last(), keys);
        if seq_has_str(keys, rows.last().key) {
            rest
        } else {
            rest.push(rows.last())
        }
    }
}

/// Every row left by `without_keys` is one of the given rows, and none of
/// them carries a listed key.
pub proof fn lemma_without_keys(rows: Seq<ProcessRowV>, keys: Seq<String>)
    ensures
        forall|i: int| 0 <= i < without_keys(rows, keys).len()
            ==> !seq_has_str(keys, #[trigger] without_keys(rows, keys)[i].key),
        forall|i: int| 0 <= i < without_keys(rows, keys).len() ==> exists|j: int|
            0 <= j < rows.len() && #[trigger] without_keys(rows, keys)[i] == rows[j],
    decreases rows.len(),
{
    if rows.len() > 0 {
        lemma_without_keys(rows.drop_last(), keys);
        assert forall|i: int| 0 <= i < without_keys(rows, keys).len() implies exists|j: int|
            0 <= j < rows.len() && #[trigger] without_keys(rows, keys)[i] == rows[j] by {
            let rest = without_keys(rows.drop_last(), keys);
            if i < rest.len() {
                let j = choose|j: int| 0 <= j < rows.drop_last().len() && rest[i]
                    == rows.drop_last()[j];
                assert(rows[j] == rows.drop_last()[j]);
            } else {
                assert(without_keys(rows, keys)[i] == rows[rows.len() - 1]);
            }
        }
    }
}

/// Labels as JSON object fields, each value a string.
pub open spec fn labels_json(labels: Seq<(Seq<char>, Seq<char>)>) -> Seq<(Seq<char>, JsonV)>
    decreases labels.len(),
{
    if labels.len() == 0 {
        Seq::empty()
    } else {
        labels_json(labels.drop_last()).push((labels.last().0, JsonV::Str(labels.last().1)))
    }
}

/// `labels_json` maps the labels element by element.
pub proof fn lemma_labels_json(labels: Seq<(Seq<char>, Seq<char>)>)
    ensures
        labels_json(labels).len() == labels.len(),
        forall|i: int| 0 <= i < labels.len() ==> labels_json(labels)[i] == (labels[i].0,
            JsonV::Str(labels[i].1)),
    decreases labels.len(),
{
    if labels.len() > 0 {
        lemma_labels_json(labels.drop_last());
    }
}

/// The inspect snapshot stored for a container the daemon created: its
/// labels under `Config.Labels`.
pub open spec fn process_data_of(labels: Seq<(Seq<char>, Seq<char>)>) -> JsonV {
    JsonV::Obj(
        seq![
            (
                seq!['C', 'o', 'n', 'f', 'i', 'g'],
                JsonV::Obj(
                    seq![(seq!['L', 'a', 'b', 'e', 'l', 's'], JsonV::Obj(labels_json(labels)))],
                ),
            ),
        ],
    )
}

/// The containment pattern selecting processes carrying one label.
pub open spec fn label_pattern_of(label: Seq<char>, value: Seq<char>) -> JsonV {
    JsonV::Obj(
        seq![
            (
                seq!['C', 'o', 'n', 'f', 'i', 'g'],
                JsonV::Obj(
                    seq![
                        (
                            seq!['L', 'a', 'b', 'e', 'l', 's'],
                            JsonV::Obj(seq![(label, JsonV::Str(value))]),
                        ),
                    ],
                ),
            ),
        ],
    )
}

/// Builds the stored inspect snapshot from a label list.
#[verifier::loop_isolation(false)]
pub fn build_process_data(labels: &Vec<(String, String)>) -> (r: Json)
    ensures
        r@ == process_data_of(pairs_view(labels@)),
{
    proof {
        lemma_pairs_view(labels@);
    }
    let mut fields: Vec<(String, Json)> = Vec::new();
    let mut i: usize = 0;
    while i < labels.len()
        invariant
            i <= labels@.len(),
            fields@.len() == i,
            crate::json::jview_fields(fields@) == labels_json(pairs_view(labels@).take(i as int)),
        decreases labels@.len() - i,
    {
        let ghost pre = fields@;
        fields.push((labels[i].0.clone(), Json::Str(labels[i].1.clone())));
        proof {
            assert(fields@.drop_last() =~= pre);
            assert(pairs_view(labels@).take(i + 1).drop_last() =~= pairs_view(labels@).take(
                i as int,
            ));
            lemma_pairs_view(labels@);
            assert(pairs_view(labels@).take(i + 1).last() == pairs_view(labels@)[i as int]);
            assert(crate::json::jview(fields@.last().1) == JsonV::Str(labels@[i as int].1@));
            assert(crate::json::jview_fields(fields@) == crate::json::jview_fields(pre).push((
                fields@.last().0@,
                crate::json::jview(fields@.last().1),
            )));
        }
        i += 1;
    }
    proof {
        assert(pairs_view(labels@).take(labels@.len() as int) =~= pairs_view(labels@));
    }
    let labels_doc = Json::Obj(fields);
    let ghost labels_v = crate::json::jview(labels_doc);
    let mut inner: Vec<(String, Json)> = Vec::new();
    inner.push((String::from_str("Labels"), labels_doc));
    let config_doc = Json::Obj(inner);
    let mut outer: Vec<(String, Json)> = Vec::new();
    outer.push((String::from_str("Config"), config_doc));
    proof {
        reveal_strlit("Labels");
        reveal_strlit("Config");
        assert(("Labels")@ =~= seq!['L', 'a', 'b', 'e', 'l', 's']);
        assert(("Config")@ =~= seq!['C', 'o', 'n', 'f', 'i', 'g']);
        assert(labels_v == JsonV::Obj(labels_json(pairs_view(labels@))));
        crate::json::lemma_jview_fields(inner@);
        assert(crate::json::jview_fields(inner@) =~= seq![
            (seq!['L', 'a', 'b', 'e', 'l', 's'], labels_v),
        ]);
        assert(crate::json::jview(config_doc) == JsonV::Obj(
            seq![(seq!['L', 'a', 'b', 'e', 'l', 's'], labels_v)],
        ));
        crate::json::lemma_jview_fields(outer@);
        assert(crate::json::jview_fields(outer@) =~= process_data_of(pairs_view(labels@))
            ->Obj_0);
    }
    Json::Obj(outer)
}

/// Builds the containment pattern selecting processes with one label.
pub fn build_label_pattern(label: &str, value: &str) -> (r: Json)
    ensures
        r@ == label_pattern_of(label@, value@),
{
    let mut lv: Vec<(String, Json)> = Vec::new();
    lv.push((label.to_owned(), Json::Str(value.to_owned())));
    let lv_doc = Json::Obj(lv);
    let ghost lv_v = crate::json::jview(lv_doc);
    let mut inner: Vec<(String, Json)> = Vec::new();
    inner.push((String::from_str("Labels"), lv_doc));
    let cfg_doc = Json::Obj(inner);
    let ghost cfg_v = crate::json::jview(cfg_doc);
    let mut outer: Vec<(String, Json)> = Vec::new();
    outer.push((String::from_str("Config"), cfg_doc));
    proof {
        reveal_strlit("Labels");
        reveal_strlit("Config");
        assert(("Labels")@ =~= seq!['L', 'a', 'b', 'e', 'l', 's']);
        assert(("Config")@ =~= seq!['C', 'o', 'n', 'f', 'i', 'g']);
        crate::json::lemma_jview_fields(lv@);
        assert(crate::json::jview_fields(lv@) =~= seq![(label@, JsonV::Str(value@))]);
        assert(lv_v == JsonV::Obj(seq![(label@, JsonV::Str(value@))]));
        crate::json::lemma_jview_fields(inner@);
        assert(crate::json::jview_fields(inner@) =~= seq![
            (seq!['L', 'a', 'b', 'e', 'l', 's'], lv_v),
        ]);
        assert(cfg_v == JsonV::Obj(seq![(seq!['L', 'a', 'b', 'e', 'l', 's'], lv_v)]));
        crate::json::lemma_jview_fields(outer@);
        assert(crate::json::jview_fields(outer@) =~= label_pattern_of(label@, value@)->Obj_0);
    }
    Json::Obj(outer)
}

/// A stored snapshot contains the pattern of a label it carries.
pub proof fn lemma_label_contained(
    labels: Seq<(Seq<char>, Seq<char>)>,
    label: Seq<char>,
    value: Seq<char>,
)
    requires
        exists|j: int| 0 <= j < labels.len() && labels[j] == (label, value),
    ensures
        contained_in(label_pattern_of(label, value), process_data_of(labels)),
{
    let pat = label_pattern_of(label, value);
    let big = process_data_of(labels);
    lemma_labels_json(labels);
    let j = choose|j: int| 0 <= j < labels.len() && labels[j] == (label, value);
    let big_labels = labels_json(labels);
    assert(big_labels[j] == (label, JsonV::Str(value)));
    assert(contained_in(JsonV::Str(value), JsonV::Str(value)));
    assert(field_contained((label, JsonV::Str(value)), big_labels));
    let pat_inner = JsonV::Obj(seq![(label, JsonV::Str(value))]);
    let big_inner = JsonV::Obj(big_labels);
    assert forall|i: int| 0 <= i < pat_inner->Obj_0.len() implies field_contained(
        #[trigger] pat_inner->Obj_0[i],
        big_inner->Obj_0,
    ) by {
        assert(pat_inner->Obj_0[i] == (label, JsonV::Str(value)));
    }
    assert(contained_in(pat_inner, big_inner));
    let pat_cfg = JsonV::Obj(seq![(seq!['L', 'a', 'b', 'e', 'l', 's'], pat_inner)]);
    let big_cfg = JsonV::Obj(seq![(seq!['L', 'a', 'b', 'e', 'l', 's'], big_inner)]);
    assert(big_cfg->Obj_0[0] == (seq!['L', 'a', 'b', 'e', 'l', 's'], big_inner));
    assert(field_contained((seq!['L', 'a', 'b', 'e', 'l', 's'], pat_inner), big_cfg->Obj_0));
    assert forall|i: int| 0 <= i < pat_cfg->Obj_0.len() implies field_contained(
        #[trigger] pat_cfg->Obj_0[i],
        big_cfg->Obj_0,
    ) by {
        assert(pat_cfg->Obj_0[i] == (seq!['L', 'a', 'b', 'e', 'l', 's'], pat_inner));
    }
    assert(contained_in(pat_cfg, big_cfg));
    assert(big->Obj_0[0] == (seq!['C', 'o', 'n', 'f', 'i', 'g'], big_cfg));
    assert(field_contained((seq!['C', 'o', 'n', 'f', 'i', 'g'], pat_cfg), big->Obj_0));
    assert forall|i: int| 0 <= i < pat->Obj_0.len() implies field_contained(
        #[trigger] pat->Obj_0[i],
        big->Obj_0,
    ) by {
        assert(pat->Obj_0[i] == (seq!['C', 'o', 'n', 'f', 'i', 'g'], pat_cfg));
    }
    assert(contained_in(pat, big));
}

/// Whether a row belongs to the object and its snapshot contains the label.
pub open spec fn owner_row_with_label(
    r: ProcessRowV,
    kind_key: Seq<char>,
    label: Seq<char>,
    value: Seq<char>,
) -> bool {
    r.kind_key == kind_key && contained_in(label_pattern_of(label, value), r.data)
}

/// How many rows belong to the object and carry the label.
pub open spec fn count_with_label(
    rows: Seq<ProcessRowV>,
    kind_key: Seq<char>,
    label: Seq<char>,
    value: Seq<char>,
) -> nat
    decreases rows.len(),
{
    if rows.len() == 0 {
        0
    } else {
        count_with_label(rows.drop_last(), kind_key, label, value) + if owner_row_with_label(
            rows.last(),
            kind_key,
            label,
            value,
        ) {
            1nat
        } else {
            0nat
        }
    }
}

/// How many rows match while their engine id is not listed.
pub open spec fn count_with_label_excl(
    rows: Seq<ProcessRowV>,
    keys: Seq<String>,
    kind_key: Seq<char>,
    label: Seq<char>,
    value: Seq<char>,
) -> nat
    decreases rows.len(),
{
    if rows.len() == 0 {
        0
    } else {
        count_with_label_excl(rows.drop_last(), keys, kind_key, label, value)
            + if owner_row_with_label(rows.last(), kind_key, label, value) && !seq_has_str(
            keys,
            rows.last().key,
        ) {
            1nat
        } else {
            0nat
        }
    }
}

/// Deleting the listed ids leaves exactly the matches that were not listed.
pub proof fn lemma_count_after_delete(
    rows: Seq<ProcessRowV>,
    keys: Seq<String>,
    kind_key: Seq<char>,
    label: Seq<char>,
    value: Seq<char>,
)
    ensures
        count_with_label(without_keys(rows, keys), kind_key, label, value)
            == count_with_label_excl(rows, keys, kind_key, label, value),
    decreases rows.len(),
{
    if rows.len() > 0 {
        lemma_count_after_delete(rows.drop_last(), keys, kind_key, label, value);
        if !seq_has_str(keys, rows.last().key) {
            let rest = without_keys(rows.drop_last(), keys);
            assert(without_keys(rows, keys) == rest.push(rows.last()));
            assert(without_keys(rows, keys).drop_last() =~= rest);
            assert(without_keys(rows, keys).last() == rows.last());
        }
    }
}

/// Exclusion-counting distributes over concatenation.
pub proof fn lemma_count_excl_concat(
    a: Seq<ProcessRowV>,
    b: Seq<ProcessRowV>,
    keys: Seq<String>,
    kind_key: Seq<char>,
    label: Seq<char>,
    value: Seq<char>,
)
    ensures
        count_with_label_excl(a + b, keys, kind_key, label, value) == count_with_label_excl(
            a,
            keys,
            kind_key,
            label,
            value,
        ) + count_with_label_excl(b, keys, kind_key, label, value),
    decreases b.len(),
{
    if b.len() == 0 {
        assert(a + b =~= a);
    } else {
        lemma_count_excl_concat(a, b.drop_last(), keys, kind_key, label, value);
        assert((a + b).drop_last() =~= a + b.drop_last());
        assert((a + b).last() == b.last());
    }
}

/// Rows whose every match is listed for deletion count for nothing.
pub proof fn lemma_count_excl_none(
    rows: Seq<ProcessRowV>,
    keys: Seq<String>,
    kind_key: Seq<char>,
    label: Seq<char>,
    value: Seq<char>,
)
    requires
        forall|i: int| 0 <= i < rows.len() ==> (owner_row_with_label(
            #[trigger] rows[i],
            kind_key,
            label,
            value,
        ) ==> seq_has_str(keys, rows[i].key)),
    ensures
        count_with_label_excl(rows, keys, kind_key, label, value) == 0,
    decreases rows.len(),
{
    if rows.len() > 0 {
        lemma_count_excl_none(rows.drop_last(), keys, kind_key, label, value);
    }
}

/// Rows that all match and are not listed all count.
pub proof fn lemma_count_excl_full(
    rows: Seq<ProcessRowV>,
    keys: Seq<String>,
    kind_key: Seq<char>,
    label: Seq<char>,
    value: Seq<char>,
)
    requires
        forall|i: int| 0 <= i < rows.len() ==> owner_row_with_label(
            #[trigger] rows[i],
            kind_key,
            label,
            value,
        ) && !seq_has_str(keys, rows[i].key),
    ensures
        count_with_label_excl(rows, keys, kind_key, label, value) == rows.len(),
    decreases rows.len(),
{
    if rows.len() > 0 {
        lemma_count_excl_full(rows.drop_last(), keys, kind_key, label, value);
    }
}

/// Counting distributes over concatenation.
pub proof fn lemma_count_with_label_concat(
    a: Seq<ProcessRowV>,
    b: Seq<ProcessRowV>,
    kind_key: Seq<char>,
    label: Seq<char>,
    value: Seq<char>,
)
    ensures
        count_with_label(a + b, kind_key, label, value) == count_with_label(a, kind_key, label,
            value) + count_with_label(b, kind_key, label, value),
    decreases b.len(),
{
    if b.len() == 0 {
        assert(a + b =~= a);
    } else {
        lemma_count_with_label_concat(a, b.drop_last(), kind_key, label, value);
        assert((a + b).drop_last() =~= a + b.drop_last());
        assert((a + b).last() == b.last());
    }
}

impl ProcessTable {
    /// Counts the processes the object owns that carry the label.
    #[verifier::loop_isolation(false)]
    pub fn count_owner_with_label(&self, kind_key: &String, label: &str, value: &str) -> (n:
        usize)
        ensures
            n == count_with_label(rows_view(self.rows@), kind_key@, label@, value@),
    {
        proof {
            lemma_rows_view(self.rows@);
        }
        let ghost rv = rows_view(self.rows@);
        let pattern = build_label_pattern(label, value);
        let mut n: usize = 0;
        let mut i: usize = 0;
        while i < self.rows.len()
            invariant
                i <= self.rows@.len(),
                n <= i,
                n == count_with_label(rv.take(i as int), kind_key@, label@, value@),
            decreases self.rows@.len() - i,
        {
            proof {
                assert(rv.take(i + 1).drop_last() =~= rv.take(i as int));
                assert(rv.take(i + 1).last() == rv[i as int]);
                assert(rv[i as int] == self.rows@[i as int]@);
            }
            if self.rows[i].kind_key.eq(kind_key) && crate::json::json_contains(
                &self.rows[i].data,
                &pattern,
            ) {
                n += 1;
            }
            i += 1;
        }
        proof {
            assert(rv.take(rv.len() as int) =~= rv);
        }
        n
    }
}

} // verus!
