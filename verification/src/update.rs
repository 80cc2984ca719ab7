//! The zero-downtime cargo update: every current process is renamed to its
//! `tmp-` name, freeing the stable name and flagging the process for
//! deletion; new instances are created and started under fresh names; on
//! success the drained `tmp-` processes are deleted after a grace window, on
//! failure the new processes are deleted and the old names restored.

use vstd::prelude::*;

use crate::cargo::InstancePlan;
use crate::json::{field_lookup, Json, JsonV};
use crate::keys::{is_tmp_name, tmp_name_of, ProcessKind};
use crate::process::{lemma_rows_view, rows_view, without_keys, ProcessRow, ProcessRowV,
    ProcessTable};
use crate::filter::seq_has_str;
use crate::text::strs_view;

verus! {

/// Whether an engine inspect snapshot reports the process as restarting: a
/// restarting process is stopped before it is renamed.
pub open spec fn restarting_in(v: JsonV) -> bool {
    match v {
        JsonV::Obj(fields) => match field_lookup(fields, seq!['S', 't', 'a', 't', 'e']) {
            Some(JsonV::Obj(st)) => field_lookup(
                st,
                seq!['R', 'e', 's', 't', 'a', 'r', 't', 'i', 'n', 'g'],
            ) == Some(JsonV::Bool(true)),
            _ => false,
        },
        _ => false,
    }
}

/// Reads the restarting flag out of an engine inspect snapshot.
pub fn is_restarting(data: &Json) -> (r: bool)
    ensures
        r == restarting_in(data@),
{
    let state_key = String::from_str("State");
    let restarting_key = String::from_str("Restarting");
    proof {
        reveal_strlit("State");
        reveal_strlit("Restarting");
        assert(state_key@ =~= seq!['S', 't', 'a', 't', 'e']);
        assert(restarting_key@ =~= seq!['R', 'e', 's', 't', 'a', 'r', 't', 'i', 'n', 'g']);
    }
    match data.get_field(&state_key) {
        Some(state) => match state.get_field(&restarting_key) {
            Some(Json::Bool(b)) => *b,
            _ => false,
        },
        None => false,
    }
}

/// The engine ids of the rows whose snapshot reports them restarting.
pub open spec fn restarting_keys(rows: Seq<ProcessRowV>) -> Seq<Seq<char>>
    decreases rows.len(),
{
    if rows.len() == 0 {
        Seq::empty()
    } else {
        let rest = restarting_keys(rows.drop_last());
        if restarting_in(rows.last().data) {
            rest.push(rows.last().key)
        } else {
            rest
        }
    }
}

/// The processes to stop before the rename step: the update stops a
/// restarting process first, then renames it like the rest.
#[verifier::loop_isolation(false)]
pub fn select_restarting(rows: &Vec<ProcessRow>) -> (keys: Vec<String>)
    ensures
        strs_view(keys@) == restarting_keys(rows_view(rows@)),
{
    proof {
        lemma_rows_view(rows@);
    }
    let ghost rv = rows_view(rows@);
    let mut keys: Vec<String> = Vec::new();
    let mut i: usize = 0;
    while i < rows.len()
        invariant
            i <= rows@.len(),
            strs_view(keys@) == restarting_keys(rv.take(i as int)),
        decreases rows@.len() - i,
    {
        proof {
            assert(rv.take(i + 1).drop_last() =~= rv.take(i as int));
            assert(rv.take(i + 1).last() == rv[i as int]);
        }
        if is_restarting(&rows[i].data) {
            let ghost pre = keys@;
            keys.push(rows[i].key.clone());
            proof {
                assert(keys@.drop_last() =~= pre);
                assert(strs_view(keys@) == strs_view(pre).push(keys@.last()@));
            }
        }
        i += 1;
    }
    proof {
        assert(rv.take(rv.len() as int) =~= rv);
    }
    keys
}

/// The engine ids of the rows an object owns, oldest first.
pub open spec fn keys_of_owner(rows: Seq<ProcessRowV>, kind_key: Seq<char>) -> Seq<Seq<char>>
    decreases rows.len(),
{
    if rows.len() == 0 {
        Seq::empty()
    } else {
        let rest = keys_of_owner(rows.drop_last(), kind_key);
        if rows.last().kind_key == kind_key {
            rest.push(rows.last().key)
        } else {
            rest
        }
    }
}

/// What the rename step leaves of one row.
pub open spec fn renamed_row(r: ProcessRowV, kind_key: Seq<char>) -> ProcessRowV {
    if r.kind_key == kind_key {
        ProcessRowV { name: tmp_name_of(r.name), ..r }
    } else {
        r
    }
}

impl ProcessTable {
    /// Renames every process the object owns to its `tmp-` name and hands
    /// back their engine ids: the rename frees the stable names and flags
    /// the old processes for deletion.
    #[verifier::loop_isolation(false)]
    pub fn rename_owner_to_tmp(&mut self, kind_key: &String) -> (old_keys: Vec<String>)
        requires
            crate::process::table_wf(*old(self)),
        ensures
            crate::process::table_wf(*final(self)),
            final(self).rows@.len() == old(self).rows@.len(),
            final(self).next_stamp == old(self).next_stamp,
            forall|i: int| 0 <= i < old(self).rows@.len()
                ==> rows_view(final(self).rows@)[i] == renamed_row(
                    rows_view(old(self).rows@)[i],
                    kind_key@,
                ),
            strs_view(old_keys@) == keys_of_owner(rows_view(old(self).rows@), kind_key@),
    {
        proof {
            lemma_rows_view(self.rows@);
        }
        let ghost pre = rows_view(self.rows@);
        let mut out: Vec<ProcessRow> = Vec::new();
        let mut old_keys: Vec<String> = Vec::new();
        let mut i: usize = 0;
        while i < self.rows.len()
            invariant
                i <= self.rows@.len(),
                self.rows@.len() == pre.len(),
                out@.len() == i,
                forall|k: int| 0 <= k < i ==> rows_view(out@)[k] == renamed_row(pre[k], kind_key@),
                rows_view(out@).len() == i,
                strs_view(old_keys@) == keys_of_owner(pre.take(i as int), kind_key@),
            decreases self.rows@.len() - i,
        {
            let ghost pre_out = out@;
            let ghost pre_keys = old_keys@;
            let row = self.rows[i].clone_row();
            if row.kind_key.eq(kind_key) {
                let new_name = crate::keys::gen_tmp_name(row.name.as_str());
                old_keys.push(row.key.clone());
                let renamed = ProcessRow { name: new_name, ..row };
                out.push(renamed);
                proof {
                    assert(old_keys@.drop_last() =~= pre_keys);
                    assert(strs_view(old_keys@) == strs_view(pre_keys).push(
                        old_keys@.last()@,
                    ));
                }
            } else {
                out.push(row);
            }
            proof {
                assert(out@.drop_last() =~= pre_out);
                assert(rows_view(out@) == rows_view(pre_out).push(out@.last()@));
                lemma_rows_view(out@);
                assert(pre.take(i + 1).drop_last() =~= pre.take(i as int));
                assert(pre.take(i + 1).last() == pre[i as int]);
            }
            i += 1;
        }
        proof {
            assert(pre.take(pre.len() as int) =~= pre);
        }
        self.rows = out;
        proof {
            assert forall|a: int| 0 <= a < rows_view(self.rows@).len()
                implies (#[trigger] rows_view(self.rows@)[a]).created_at == pre[
                a
            ].created_at by {
                assert(rows_view(self.rows@)[a] == renamed_row(pre[a], kind_key@));
            }
        }
        old_keys
    }

    /// Restores the stable names after a failed update: every `tmp-` name
    /// the object owns loses its flag prefix.
    #[verifier::loop_isolation(false)]
    pub fn restore_owner_names(&mut self, kind_key: &String)
        requires
            crate::process::table_wf(*old(self)),
        ensures
            crate::process::table_wf(*final(self)),
            final(self).rows@.len() == old(self).rows@.len(),
            final(self).next_stamp == old(self).next_stamp,
            forall|i: int| 0 <= i < old(self).rows@.len()
                ==> rows_view(final(self).rows@)[i] == restored_row(
                    rows_view(old(self).rows@)[i],
                    kind_key@,
                ),
    {
        proof {
            lemma_rows_view(self.rows@);
        }
        let ghost pre = rows_view(self.rows@);
        let mut out: Vec<ProcessRow> = Vec::new();
        let mut i: usize = 0;
        while i < self.rows.len()
            invariant
                i <= self.rows@.len(),
                self.rows@.len() == pre.len(),
                out@.len() == i,
                forall|k: int| 0 <= k < i ==> rows_view(out@)[k] == restored_row(
                    pre[k],
                    kind_key@,
                ),
                rows_view(out@).len() == i,
            decreases self.rows@.len() - i,
        {
            let ghost pre_out = out@;
            let row = self.rows[i].clone_row();
            let is_owner = row.kind_key.eq(kind_key);
            let flagged = crate::keys::check_tmp_name(row.name.as_str());
            if is_owner && flagged {
                let n = row.name.as_str().unicode_len();
                proof {
                    assert(row.name@.len() >= 4);
                }
                let stripped = row.name.as_str().substring_char(4, n).to_owned();
                let restored = ProcessRow { name: stripped, ..row };
                out.push(restored);
            } else {
                out.push(row);
            }
            proof {
                assert(out@.drop_last() =~= pre_out);
                assert(rows_view(out@) == rows_view(pre_out).push(out@.last()@));
                lemma_rows_view(out@);
            }
            i += 1;
        }
        self.rows = out;
        proof {
            assert forall|a: int| 0 <= a < rows_view(self.rows@).len()
                implies (#[trigger] rows_view(self.rows@)[a]).created_at == pre[
                a
            ].created_at by {
                assert(rows_view(self.rows@)[a] == restored_row(pre[a], kind_key@));
            }
        }
    }

    /// Mirrors the engine containers an update or start created: one row per
    /// plan, keyed by the engine id the creation call answered with.
    #[verifier::loop_isolation(false)]
    pub fn apply_created(
        &mut self,
        plans: &Vec<InstancePlan>,
        engine_keys: &Vec<String>,
        kind: &ProcessKind,
        kind_key: &String,
        node_id: &String,
    )
        requires
            engine_keys@.len() == plans@.len(),
            old(self).next_stamp + plans@.len() < u64::MAX,
            crate::process::table_wf(*old(self)),
        ensures
            crate::process::table_wf(*final(self)),
            final(self).rows@.len() == old(self).rows@.len() + plans@.len(),
            rows_view(final(self).rows@).take(old(self).rows@.len() as int) == rows_view(
                old(self).rows@,
            ),
            forall|k: int| 0 <= k < plans@.len() ==> {
                let r = #[trigger] rows_view(final(self).rows@)[old(self).rows@.len() + k];
                &&& r.key == engine_keys@[k]@
                &&& r.name == plans@[k].name@
                &&& r.kind == *kind
                &&& r.kind_key == kind_key@
                &&& r.node_id == node_id@
                &&& r.data == crate::process::process_data_of(crate::text::pairs_view(
                    plans@[k].labels@,
                ))
            },
    {
        proof {
            lemma_rows_view(self.rows@);
        }
        let ghost pre = rows_view(self.rows@);
        let mut k: usize = 0;
        while k < plans.len()
            invariant
                k <= plans@.len(),
                self.rows@.len() == pre.len() + k,
                self.next_stamp == old(self).next_stamp + k,
                crate::process::table_wf(*self),
                rows_view(self.rows@).take(pre.len() as int) == pre,
                rows_view(self.rows@).len() == pre.len() + k,
                forall|j: int| 0 <= j < k ==> {
                    let r = #[trigger] rows_view(self.rows@)[pre.len() + j];
                    &&& r.key == engine_keys@[j]@
                    &&& r.name == plans@[j].name@
                    &&& r.kind == *kind
                    &&& r.kind_key == kind_key@
                    &&& r.node_id == node_id@
                    &&& r.data == crate::process::process_data_of(crate::text::pairs_view(
                        plans@[j].labels@,
                    ))
                },
            decreases plans@.len() - k,
        {
            let ghost pre_rows = rows_view(self.rows@);
            let data = crate::process::build_process_data(&plans[k].labels);
            let row = ProcessRow {
                key: engine_keys[k].clone(),
                name: plans[k].name.clone(),
                kind: *kind,
                kind_key: kind_key.clone(),
                node_id: node_id.clone(),
                data,
                created_at: 0,
            };
            self.insert(row);
            proof {
                assert(rows_view(self.rows@) == pre_rows.push(
                    rows_view(self.rows@).last(),
                ));
                assert(rows_view(self.rows@).take(pre.len() as int) =~= pre);
                lemma_rows_view(self.rows@);
            }
            k += 1;
        }
    }
}

/// What the failed-update restore leaves of one row.
pub open spec fn restored_row(r: ProcessRowV, kind_key: Seq<char>) -> ProcessRowV {
    if r.kind_key == kind_key && is_tmp_name(r.name) {
        ProcessRowV { name: r.name.skip(4), ..r }
    } else {
        r
    }
}

/// After the grace window of a successful update deletes the flagged old
/// processes, the object owns no `tmp-` named process: every flagged row was
/// renamed by the update and its engine id collected for deletion.
pub proof fn law_update_leaves_no_tmp(
    rows: Seq<ProcessRowV>,
    old_keys: Seq<String>,
    kind_key: Seq<char>,
)
    requires
        forall|i: int| 0 <= i < rows.len() ==> ((#[trigger] rows[i]).kind_key == kind_key
            && is_tmp_name(rows[i].name) ==> seq_has_str(old_keys, rows[i].key)),
    ensures
        forall|i: int| 0 <= i < without_keys(rows, old_keys).len() ==> !((#[trigger] without_keys(
            rows,
            old_keys,
        )[i]).kind_key == kind_key && is_tmp_name(without_keys(rows, old_keys)[i].name)),
{
    crate::process::lemma_without_keys(rows, old_keys);
    assert forall|i: int| 0 <= i < without_keys(rows, old_keys).len() implies !((
    #[trigger] without_keys(rows, old_keys)[i]).kind_key == kind_key && is_tmp_name(
        without_keys(rows, old_keys)[i].name,
    )) by {
        let r = without_keys(rows, old_keys)[i];
        let j = choose|j: int| 0 <= j < rows.len() && without_keys(rows, old_keys)[i] == rows[j];
        if r.kind_key == kind_key && is_tmp_name(r.name) {
            assert(seq_has_str(old_keys, rows[j].key));
            assert(!seq_has_str(old_keys, r.key));
        }
    }
}

/// A process name from the name grammar is a `tmp-` name exactly when its
/// stem itself flags it: the random suffix, namespace and kind tag cannot
/// make one.
pub open spec fn stem_flags_tmp(stem: Seq<char>) -> bool {
    stem == seq!['t', 'm', 'p'] || crate::text::is_prefix(seq!['t', 'm', 'p', '-'], stem)
}

pub proof fn lemma_name_tmp_iff_stem(
    stem: Seq<char>,
    suffix: Seq<char>,
    namespace: Seq<char>,
    kind: ProcessKind,
)
    requires
        stem.len() > 0,
    ensures
        is_tmp_name(crate::keys::process_name_of(stem, suffix, namespace, kind))
            == stem_flags_tmp(stem),
{
    let name = crate::keys::process_name_of(stem, suffix, namespace, kind);
    let tmp = seq!['t', 'm', 'p', '-'];
    assert(name.len() == stem.len() + suffix.len() + namespace.len() + 4);
    assert forall|i: int| 0 <= i < stem.len() implies name[i] == stem[i] by {}
    assert(name[stem.len() as int] == '-');
    if stem.len() >= 4 {
        if is_tmp_name(name) {
            assert(stem.subrange(0, 4) =~= name.subrange(0, 4));
        }
        if crate::text::is_prefix(tmp, stem) {
            assert(name.subrange(0, 4) =~= stem.subrange(0, 4));
        }
        assert(is_tmp_name(name) == stem_flags_tmp(stem));
    } else if stem.len() == 3 {
        if stem == seq!['t', 'm', 'p'] {
            assert(name.subrange(0, 4) =~= tmp);
        }
        if is_tmp_name(name) {
            assert(name.subrange(0, 4)[0] == stem[0]);
            assert(name.subrange(0, 4)[1] == stem[1]);
            assert(name.subrange(0, 4)[2] == stem[2]);
            assert(stem =~= seq!['t', 'm', 'p']);
        }
        assert(!crate::text::is_prefix(tmp, stem));
    } else {
        assert(!stem_flags_tmp(stem));
        if is_tmp_name(name) {
            assert(name.subrange(0, 4)[stem.len() as int] == '-');
            assert(tmp[stem.len() as int] != '-');
        }
    }
}

} // verus!
