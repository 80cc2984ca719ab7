//! The object lifecycle engine: desired-state mutations on cargoes, jobs and
//! virtual machines — create, put, patch, revert, delete, start, stop — with
//! append-only spec history, the `(wanted, actual)` status machine, and the
//! reconciler's transition table.

use vstd::prelude::*;

use crate::errors::{CoreError, ErrorKind};
use crate::json::{json_merge, Json, JsonV};
use crate::keys::ProcessKind;
use crate::text::strs_view;

verus! {

/// A point in the status machine.
#[derive(Clone, Copy, PartialEq, Eq, Structural, Debug)]
pub enum ObjPsStatusKind {
    Create,
    Start,
    Stop,
    Fail,
    Finish,
    Destroy,
}

/// The status of an object: what is wanted of it and what it actually is,
/// with the previous value of each.
#[derive(Clone, Copy, PartialEq, Eq, Structural, Debug)]
pub struct ObjPsStatus {
    pub wanted: ObjPsStatusKind,
    pub prev_wanted: ObjPsStatusKind,
    pub actual: ObjPsStatusKind,
    pub prev_actual: ObjPsStatusKind,
}

/// The lifecycle action an operation asks the emitter to report.
#[derive(Clone, Copy, PartialEq, Eq, Structural, Debug)]
pub enum NativeAction {
    Create,
    Update,
    Starting,
    Start,
    Stopping,
    Stop,
    Destroying,
    Destroy,
}

/// One immutable history row: a specification as it was written.
pub struct SpecRow {
    pub id: u64,
    pub kind_key: String,
    pub version: String,
    pub data: Json,
    pub created_at: u64,
}

/// The value of a history row.
pub struct SpecRowV {
    pub id: u64,
    pub kind_key: Seq<char>,
    pub version: Seq<char>,
    pub data: JsonV,
    pub created_at: u64,
}

impl View for SpecRow {
    type V = SpecRowV;

    open spec fn view(&self) -> SpecRowV {
        SpecRowV {
            id: self.id,
            kind_key: self.kind_key@,
            version: self.version@,
            data: self.data@,
            created_at: self.created_at,
        }
    }
}

/// The values of a history.
pub open spec fn specs_view(s: Seq<SpecRow>) -> Seq<SpecRowV>
    decreases s,
{
    if s.len() == 0 {
        Seq::empty()
    } else {
        specs_view(s.drop_last()).push(s.last()@)
    }
}

/// `specs_view` maps the history element by element.
pub proof fn lemma_specs_view(s: Seq<SpecRow>)
    ensures
        specs_view(s).len() == s.len(),
        forall|i: int| 0 <= i < s.len() ==> specs_view(s)[i] == s[i]@,
    decreases s,
{
    if s.len() > 0 {
        lemma_specs_view(s.drop_last());
    }
}

/// One tracked object with its history and status.
pub struct ObjectRow {
    pub key: String,
    pub name: String,
    pub namespace: String,
    pub kind: ProcessKind,
    pub specs: Vec<SpecRow>,
    pub status: ObjPsStatus,
}

/// The store of tracked objects, with the counters that stamp history rows.
pub struct ObjectStore {
    pub objects: Vec<ObjectRow>,
    pub next_spec_id: u64,
    pub next_stamp: u64,
}

/// A history is well formed under the store counters when both its ids and
/// its stamps grow strictly and stay below the counters.
pub open spec fn history_wf(s: Seq<SpecRowV>, next_id: u64, next_stamp: u64) -> bool {
    &&& forall|a: int, b: int| 0 <= a < b < s.len() ==> s[a].id < s[b].id && s[a].created_at
        < s[b].created_at
    &&& forall|a: int| 0 <= a < s.len() ==> (#[trigger] s[a]).id < next_id && s[a].created_at
        < next_stamp
}

/// The store invariant: every object's history is well formed and non-empty.
pub open spec fn store_wf(st: ObjectStore) -> bool {
    forall|i: int| 0 <= i < st.objects@.len() ==> {
        &&& history_wf(specs_view((#[trigger] st.objects@[i]).specs@), st.next_spec_id,
            st.next_stamp)
        &&& st.objects@[i].specs@.len() > 0
    }
}

/// The current specification of an object: the newest history row.
pub open spec fn current_of(specs: Seq<SpecRowV>) -> SpecRowV
    recommends
        specs.len() > 0,
{
    specs.last()
}

/// The first history row carrying an id, oldest first.
pub open spec fn spec_by_id(specs: Seq<SpecRowV>, id: u64) -> Option<SpecRowV>
    decreases specs.len(),
{
    if specs.len() == 0 {
        None
    } else if specs[0].id == id {
        Some(specs[0])
    } else {
        spec_by_id(specs.drop_first(), id)
    }
}

/// The index of the object holding a key, oldest first.
pub open spec fn obj_index(objs: Seq<ObjectRow>, key: Seq<char>) -> Option<int>
    decreases objs.len(),
{
    if objs.len() == 0 {
        None
    } else if objs[0].key@ == key {
        Some(0int)
    } else {
        match obj_index(objs.drop_first(), key) {
            Some(i) => Some(i + 1),
            None => None,
        }
    }
}

/// `obj_index` finds the first object with the key.
pub proof fn lemma_obj_index(objs: Seq<ObjectRow>, key: Seq<char>)
    ensures
        match obj_index(objs, key) {
            Some(i) => 0 <= i < objs.len() && objs[i].key@ == key && forall|k: int|
                0 <= k < i ==> objs[k].key@ != key,
            None => forall|k: int| 0 <= k < objs.len() ==> objs[k].key@ != key,
        },
    decreases objs.len(),
{
    if objs.len() > 0 && objs[0].key@ != key {
        lemma_obj_index(objs.drop_first(), key);
        match obj_index(objs.drop_first(), key) {
            Some(ip) => {
                assert(objs[ip + 1] == objs.drop_first()[ip]);
                assert forall|k: int| 0 <= k < ip + 1 implies objs[k].key@ != key by {
                    if k > 0 {
                        assert(objs[k] == objs.drop_first()[k - 1]);
                    }
                }
            }
            None => {
                assert forall|k: int| 0 <= k < objs.len() implies objs[k].key@ != key by {
                    if k > 0 {
                        assert(objs[k] == objs.drop_first()[k - 1]);
                    }
                }
            }
        }
    }
}

impl ObjectStore {
    /// An empty store.
    pub fn new() -> (r: ObjectStore)
        ensures
            r.objects@.len() == 0,
            r.next_spec_id == 0,
            r.next_stamp == 0,
            store_wf(r),
    {
        ObjectStore { objects: Vec::new(), next_spec_id: 0, next_stamp: 0 }
    }

    /// Finds the position of the object holding a key.
    #[verifier::loop_isolation(false)]
    fn position_of(&self, key: &String) -> (r: Option<usize>)
        ensures
            match r {
                Some(i) => obj_index(self.objects@, key@) == Some(i as int),
                None => obj_index(self.objects@, key@) is None,
            },
    {
        proof {
            lemma_obj_index(self.objects@, key@);
        }
        let mut i: usize = 0;
        while i < self.objects.len()
            invariant
                i <= self.objects@.len(),
                forall|k: int| 0 <= k < i ==> self.objects@[k].key@ != key@,
            decreases self.objects@.len() - i,
        {
            if self.objects[i].key.eq(key) {
                proof {
                    lemma_obj_index_at(self.objects@, key@, i as int);
                }
                return Some(i);
            }
            i += 1;
        }
        None
    }

    /// Creates an object: its first history row is written and its status
    /// starts at `(wanted: Create, actual: Create)`. A key already in use is
    /// a conflict, and the store does not change.
    pub fn create_obj(
        &mut self,
        key: String,
        name: String,
        namespace: String,
        kind: ProcessKind,
        version: String,
        data: Json,
    ) -> (r: Result<NativeAction, CoreError>)
        requires
            store_wf(*old(self)),
            old(self).next_spec_id < u64::MAX,
            old(self).next_stamp < u64::MAX,
        ensures
            store_wf(*final(self)),
            match r {
                Ok(act) => {
                    &&& act == NativeAction::Create
                    &&& obj_index(old(self).objects@, key@) is None
                    &&& final(self).objects@.len() == old(self).objects@.len() + 1
                    &&& forall|i: int| 0 <= i < old(self).objects@.len()
                        ==> final(self).objects@[i] == old(self).objects@[i]
                    &&& ({
                        let o = final(self).objects@.last();
                        &&& o.key@ == key@
                        &&& o.name@ == name@
                        &&& o.namespace@ == namespace@
                        &&& o.kind == kind
                        &&& o.status.wanted == ObjPsStatusKind::Create
                        &&& o.status.actual == ObjPsStatusKind::Create
                        &&& specs_view(o.specs@).len() == 1
                        &&& specs_view(o.specs@)[0].data == data@
                        &&& specs_view(o.specs@)[0].version == version@
                        &&& specs_view(o.specs@)[0].kind_key == key@
                        &&& specs_view(o.specs@)[0].id == old(self).next_spec_id
                    })
                    &&& final(self).next_spec_id == old(self).next_spec_id + 1
                    &&& final(self).next_stamp == old(self).next_stamp + 1
                }
                Err(e) => {
                    &&& e.kind == ErrorKind::Conflict
                    &&& obj_index(old(self).objects@, key@) is Some
                    &&& *final(self) == *old(self)
                }
            },
    {
        if let Some(_) = self.position_of(&key) {
            return Err(CoreError::conflict(String::from_str("object already exists")));
        }
        let row = SpecRow {
            id: self.next_spec_id,
            kind_key: key.clone(),
            version,
            data,
            created_at: self.next_stamp,
        };
        let mut specs: Vec<SpecRow> = Vec::new();
        specs.push(row);
        let status = ObjPsStatus {
            wanted: ObjPsStatusKind::Create,
            prev_wanted: ObjPsStatusKind::Create,
            actual: ObjPsStatusKind::Create,
            prev_actual: ObjPsStatusKind::Create,
        };
        let obj = ObjectRow { key, name, namespace, kind, specs, status };
        self.objects.push(obj);
        self.next_spec_id = self.next_spec_id + 1;
        self.next_stamp = self.next_stamp + 1;
        proof {
            assert(self.objects@.drop_last() =~= old(self).objects@);
            assert forall|i: int| 0 <= i < self.objects@.len() implies {
                &&& history_wf(specs_view((#[trigger] self.objects@[i]).specs@),
                    self.next_spec_id, self.next_stamp)
                &&& self.objects@[i].specs@.len() > 0
            } by {
                if i < self.objects@.len() - 1 {
                    assert(self.objects@[i] == old(self).objects@[i]);
                    assert(history_wf(specs_view(old(self).objects@[i].specs@),
                        old(self).next_spec_id, old(self).next_stamp));
                } else {
                    let o = self.objects@.last();
                    lemma_specs_view(o.specs@);
                    assert(o.specs@.len() == 1);
                    assert(specs_view(o.specs@)[0] == o.specs@[0]@);
                    assert(specs_view(o.specs@)[0].id == old(self).next_spec_id);
                    assert(specs_view(o.specs@)[0].created_at == old(self).next_stamp);
                }
            }
            lemma_specs_view(self.objects@.last().specs@);
            assert(specs_view(self.objects@.last().specs@)[0].data == data@);
        }
        Ok(NativeAction::Create)
    }
}

/// Looser counters keep a history well formed.
proof fn lemma_history_wf_mono(s: Seq<SpecRowV>, id0: u64, st0: u64, id1: u64, st1: u64)
    requires
        history_wf(s, id0, st0),
        id0 <= id1,
        st0 <= st1,
    ensures
        history_wf(s, id1, st1),
{
}

/// Appending a row stamped with the current counters keeps a history well
/// formed under the advanced counters.
proof fn lemma_history_push_wf(s: Seq<SpecRowV>, r: SpecRowV, id0: u64, st0: u64)
    requires
        history_wf(s, id0, st0),
        r.id == id0,
        r.created_at == st0,
        id0 < u64::MAX,
        st0 < u64::MAX,
    ensures
        history_wf(s.push(r), (id0 + 1) as u64, (st0 + 1) as u64),
{
    assert forall|a: int, b: int| 0 <= a < b < s.push(r).len() implies s.push(r)[a].id < s.push(
        r,
    )[b].id && s.push(r)[a].created_at < s.push(r)[b].created_at by {
        if b < s.len() {
            assert(s.push(r)[a] == s[a]);
            assert(s.push(r)[b] == s[b]);
        } else {
            assert(s.push(r)[b] == r);
            assert(s.push(r)[a] == s[a]);
        }
    }
    assert forall|a: int| 0 <= a < s.push(r).len() implies (#[trigger] s.push(r)[a]).id < id0 + 1
        && s.push(r)[a].created_at < st0 + 1 by {
        if a < s.len() {
            assert(s.push(r)[a] == s[a]);
        }
    }
}

/// The status after a desired-state write: `wanted` moves, `actual` stays.
pub open spec fn status_wanting(old_st: ObjPsStatus, wanted: ObjPsStatusKind) -> ObjPsStatus {
    ObjPsStatus {
        wanted,
        prev_wanted: old_st.wanted,
        actual: old_st.actual,
        prev_actual: old_st.prev_actual,
    }
}

/// The `wanted` state a replace-write moves to: keep running objects
/// running, leave the rest to an explicit start.
pub open spec fn wanted_after_put(old_st: ObjPsStatus) -> ObjPsStatusKind {
    if old_st.actual == ObjPsStatusKind::Start {
        ObjPsStatusKind::Start
    } else {
        ObjPsStatusKind::Create
    }
}

impl ObjectStore {
    /// Replaces an object's specification: a new history row is appended —
    /// history is never rewritten — and the object is left wanting `Start`
    /// when it was running, else `Create`. An unknown key is NotFound and
    /// the store does not change.
    pub fn put_obj(&mut self, key: &String, version: String, data: Json) -> (r: Result<
        NativeAction,
        CoreError,
    >)
        requires
            store_wf(*old(self)),
            old(self).next_spec_id < u64::MAX,
            old(self).next_stamp < u64::MAX,
        ensures
            store_wf(*final(self)),
            match r {
                Ok(act) => {
                    &&& act == NativeAction::Update
                    &&& obj_index(old(self).objects@, key@) is Some
                    &&& ({
                        let i = obj_index(old(self).objects@, key@)->Some_0;
                        let po = old(self).objects@[i];
                        let o = final(self).objects@[i];
                        &&& final(self).objects@.len() == old(self).objects@.len()
                        &&& forall|j: int| 0 <= j < old(self).objects@.len() && j != i
                            ==> final(self).objects@[j] == old(self).objects@[j]
                        &&& o.key == po.key
                        &&& o.name == po.name
                        &&& o.namespace == po.namespace
                        &&& o.kind == po.kind
                        &&& specs_view(o.specs@) == specs_view(po.specs@).push(
                            SpecRowV {
                                id: old(self).next_spec_id,
                                kind_key: key@,
                                version: version@,
                                data: data@,
                                created_at: old(self).next_stamp,
                            },
                        )
                        &&& o.status == status_wanting(po.status, wanted_after_put(po.status))
                        &&& final(self).next_spec_id == old(self).next_spec_id + 1
                        &&& final(self).next_stamp == old(self).next_stamp + 1
                    })
                }
                Err(e) => {
                    &&& e.kind == ErrorKind::NotFound
                    &&& obj_index(old(self).objects@, key@) is None
                    &&& *final(self) == *old(self)
                }
            },
    {
        let pos = match self.position_of(key) {
            Some(i) => i,
            None => {
                return Err(CoreError::not_found(String::from_str("object does not exist")));
            }
        };
        proof {
            lemma_obj_index(self.objects@, key@);
        }
        let mut obj = self.objects.remove(pos);
        let ghost pre_specs = specs_view(obj.specs@);
        let row = SpecRow {
            id: self.next_spec_id,
            kind_key: key.clone(),
            version,
            data,
            created_at: self.next_stamp,
        };
        obj.specs.push(row);
        let new_wanted = if matches!(obj.status.actual, ObjPsStatusKind::Start) {
            ObjPsStatusKind::Start
        } else {
            ObjPsStatusKind::Create
        };
        obj.status = ObjPsStatus {
            wanted: new_wanted,
            prev_wanted: obj.status.wanted,
            actual: obj.status.actual,
            prev_actual: obj.status.prev_actual,
        };
        proof {
            assert(obj.specs@.drop_last() =~= old(self).objects@[pos as int].specs@);
            assert(specs_view(obj.specs@) == pre_specs.push(obj.specs@.last()@));
        }
        self.objects.insert(pos, obj);
        self.next_spec_id = self.next_spec_id + 1;
        self.next_stamp = self.next_stamp + 1;
        proof {
            let ghost pp = pos as int;
            assert(self.objects@ =~= old(self).objects@.update(pp, self.objects@[pp]));
            assert forall|i: int| 0 <= i < self.objects@.len() implies {
                &&& history_wf(specs_view((#[trigger] self.objects@[i]).specs@),
                    self.next_spec_id, self.next_stamp)
                &&& self.objects@[i].specs@.len() > 0
            } by {
                if i != pos as int {
                    assert(self.objects@[i] == old(self).objects@[i]);
                    assert(history_wf(specs_view(old(self).objects@[i].specs@),
                        old(self).next_spec_id, old(self).next_stamp));
                } else {
                    assert(history_wf(pre_specs, old(self).next_spec_id, old(self).next_stamp));
                    lemma_history_push_wf(pre_specs, self.objects@[i].specs@.last()@,
                        old(self).next_spec_id, old(self).next_stamp);
                }
            }
        }
        Ok(NativeAction::Update)
    }

    /// The current specification of an object: a copy of its newest history
    /// row's data.
    pub fn read_current(&self, key: &String) -> (r: Result<Json, CoreError>)
        requires
            store_wf(*self),
        ensures
            match r {
                Ok(d) => {
                    &&& obj_index(self.objects@, key@) is Some
                    &&& d@ == current_of(specs_view(self.objects@[obj_index(self.objects@, key@)
                        ->Some_0].specs@)).data
                }
                Err(e) => {
                    &&& e.kind == ErrorKind::NotFound
                    &&& obj_index(self.objects@, key@) is None
                },
            },
    {
        let pos = match self.position_of(key) {
            Some(i) => i,
            None => {
                return Err(CoreError::not_found(String::from_str("object does not exist")));
            }
        };
        proof {
            lemma_obj_index(self.objects@, key@);
            assert(history_wf(specs_view(self.objects@[pos as int].specs@), self.next_spec_id,
                self.next_stamp));
            assert(self.objects@[pos as int].specs@.len() > 0);
        }
        let obj = &self.objects[pos];
        proof {
            lemma_specs_view(obj.specs@);
        }
        let n = obj.specs.len();
        Ok(obj.specs[n - 1].data.deep_copy())
    }

    /// Merges a patch into the current specification and writes the result
    /// forward: a patch is a put of the merged document.
    pub fn patch_obj(&mut self, key: &String, version: String, patch: &Json) -> (r: Result<
        NativeAction,
        CoreError,
    >)
        requires
            store_wf(*old(self)),
            old(self).next_spec_id < u64::MAX,
            old(self).next_stamp < u64::MAX,
        ensures
            store_wf(*final(self)),
            match r {
                Ok(act) => {
                    &&& act == NativeAction::Update
                    &&& obj_index(old(self).objects@, key@) is Some
                    &&& ({
                        let i = obj_index(old(self).objects@, key@)->Some_0;
                        let po = old(self).objects@[i];
                        let o = final(self).objects@[i];
                        &&& final(self).objects@.len() == old(self).objects@.len()
                        &&& forall|j: int| 0 <= j < old(self).objects@.len() && j != i
                            ==> final(self).objects@[j] == old(self).objects@[j]
                        &&& specs_view(o.specs@) == specs_view(po.specs@).push(
                            SpecRowV {
                                id: old(self).next_spec_id,
                                kind_key: key@,
                                version: version@,
                                data: crate::json::json_merge(
                                    current_of(specs_view(po.specs@)).data,
                                    patch@,
                                ),
                                created_at: old(self).next_stamp,
                            },
                        )
                        &&& o.status == status_wanting(po.status, wanted_after_put(po.status))
                    })
                }
                Err(e) => {
                    &&& e.kind == ErrorKind::NotFound
                    &&& obj_index(old(self).objects@, key@) is None
                    &&& *final(self) == *old(self)
                },
            },
    {
        let current = match self.read_current(key) {
            Ok(d) => d,
            Err(e) => {
                return Err(e);
            }
        };
        let merged = crate::json::merge(&current, patch);
        self.put_obj(key, version, merged)
    }
}

impl ObjectStore {
    /// Reverts an object to a historical specification: the old row is read
    /// by id and written forward as a new row — history stays append-only,
    /// older rows are never touched. The new row carries the old data and
    /// version under a fresh id and stamp.
    #[verifier::loop_isolation(false)]
    pub fn revert_obj(&mut self, key: &String, spec_id: u64) -> (r: Result<
        NativeAction,
        CoreError,
    >)
        requires
            store_wf(*old(self)),
            old(self).next_spec_id < u64::MAX,
            old(self).next_stamp < u64::MAX,
        ensures
            store_wf(*final(self)),
            match r {
                Ok(act) => {
                    &&& act == NativeAction::Update
                    &&& obj_index(old(self).objects@, key@) is Some
                    &&& ({
                        let i = obj_index(old(self).objects@, key@)->Some_0;
                        let po = old(self).objects@[i];
                        let found = spec_by_id(specs_view(po.specs@), spec_id);
                        let o = final(self).objects@[i];
                        &&& found is Some
                        &&& final(self).objects@.len() == old(self).objects@.len()
                        &&& forall|j: int| 0 <= j < old(self).objects@.len() && j != i
                            ==> final(self).objects@[j] == old(self).objects@[j]
                        &&& specs_view(o.specs@) == specs_view(po.specs@).push(
                            SpecRowV {
                                id: old(self).next_spec_id,
                                kind_key: key@,
                                version: found->Some_0.version,
                                data: found->Some_0.data,
                                created_at: old(self).next_stamp,
                            },
                        )
                        &&& o.status == status_wanting(po.status, wanted_after_put(po.status))
                    })
                }
                Err(e) => {
                    &&& e.kind == ErrorKind::NotFound
                    &&& *final(self) == *old(self)
                    &&& (obj_index(old(self).objects@, key@) is Some ==> spec_by_id(
                        specs_view(
                            old(self).objects@[obj_index(old(self).objects@, key@)
                                ->Some_0].specs@,
                        ),
                        spec_id,
                    ) is None)
                },
            },
    {
        let pos = match self.position_of(key) {
            Some(i) => i,
            None => {
                return Err(CoreError::not_found(String::from_str("object does not exist")));
            }
        };
        proof {
            lemma_obj_index(self.objects@, key@);
        }
        let ghost sv = specs_view(self.objects@[pos as int].specs@);
        proof {
            lemma_specs_view(self.objects@[pos as int].specs@);
        }
        // find the history row carrying the id
        let obj_ref = &self.objects[pos];
        let mut k: usize = 0;
        let mut found: Option<usize> = None;
        while k < obj_ref.specs.len()
            invariant
                k <= obj_ref.specs@.len(),
                sv == specs_view(obj_ref.specs@),
                sv.len() == obj_ref.specs@.len(),
                forall|a: int| 0 <= a < obj_ref.specs@.len() ==> sv[a] == obj_ref.specs@[a]@,
                match found {
                    Some(f) => f < k && sv[f as int].id == spec_id && forall|a: int|
                        0 <= a < f ==> sv[a].id != spec_id,
                    None => forall|a: int| 0 <= a < k ==> sv[a].id != spec_id,
                },
            decreases obj_ref.specs@.len() - k,
        {
            if found.is_none() && obj_ref.specs[k].id == spec_id {
                found = Some(k);
            }
            k += 1;
        }
        let fidx = match found {
            Some(f) => f,
            None => {
                proof {
                    lemma_spec_by_id_none(sv, spec_id);
                }
                return Err(CoreError::not_found(String::from_str(
                    "no history row carries this id",
                )));
            }
        };
        proof {
            lemma_spec_by_id_at(sv, spec_id, fidx as int);
        }
        let version = obj_ref.specs[fidx].version.clone();
        let data = obj_ref.specs[fidx].data.deep_copy();
        let mut obj = self.objects.remove(pos);
        let ghost pre_specs = specs_view(obj.specs@);
        let row = SpecRow {
            id: self.next_spec_id,
            kind_key: key.clone(),
            version,
            data,
            created_at: self.next_stamp,
        };
        obj.specs.push(row);
        let new_wanted = if matches!(obj.status.actual, ObjPsStatusKind::Start) {
            ObjPsStatusKind::Start
        } else {
            ObjPsStatusKind::Create
        };
        obj.status = ObjPsStatus {
            wanted: new_wanted,
            prev_wanted: obj.status.wanted,
            actual: obj.status.actual,
            prev_actual: obj.status.prev_actual,
        };
        proof {
            assert(obj.specs@.drop_last() =~= old(self).objects@[pos as int].specs@);
            assert(specs_view(obj.specs@) == pre_specs.push(obj.specs@.last()@));
        }
        self.objects.insert(pos, obj);
        self.next_spec_id = self.next_spec_id + 1;
        self.next_stamp = self.next_stamp + 1;
        proof {
            let ghost pp = pos as int;
            assert(self.objects@ =~= old(self).objects@.update(pp, self.objects@[pp]));
            assert forall|i: int| 0 <= i < self.objects@.len() implies {
                &&& history_wf(specs_view((#[trigger] self.objects@[i]).specs@),
                    self.next_spec_id, self.next_stamp)
                &&& self.objects@[i].specs@.len() > 0
            } by {
                if i != pp {
                    assert(self.objects@[i] == old(self).objects@[i]);
                    assert(history_wf(specs_view(old(self).objects@[i].specs@),
                        old(self).next_spec_id, old(self).next_stamp));
                } else {
                    assert(history_wf(pre_specs, old(self).next_spec_id, old(self).next_stamp));
                    lemma_history_push_wf(pre_specs, self.objects@[i].specs@.last()@,
                        old(self).next_spec_id, old(self).next_stamp);
                }
            }
        }
        Ok(NativeAction::Update)
    }

    /// Writes a new wanted state for the object, leaving everything else
    /// alone; this is what delete, start and stop do before the reconciler
    /// acts.
    fn want(&mut self, key: &String, wanted: ObjPsStatusKind) -> (r: Result<(), CoreError>)
        requires
            store_wf(*old(self)),
        ensures
            store_wf(*final(self)),
            match r {
                Ok(_) => {
                    &&& obj_index(old(self).objects@, key@) is Some
                    &&& ({
                        let i = obj_index(old(self).objects@, key@)->Some_0;
                        &&& final(self).objects@.len() == old(self).objects@.len()
                        &&& forall|j: int| 0 <= j < old(self).objects@.len() && j != i
                            ==> final(self).objects@[j] == old(self).objects@[j]
                        &&& final(self).objects@[i] == ObjectRow {
                            status: status_wanting(old(self).objects@[i].status, wanted),
                            ..old(self).objects@[i]
                        }
                        &&& final(self).next_spec_id == old(self).next_spec_id
                        &&& final(self).next_stamp == old(self).next_stamp
                    })
                }
                Err(e) => {
                    &&& e.kind == ErrorKind::NotFound
                    &&& obj_index(old(self).objects@, key@) is None
                    &&& *final(self) == *old(self)
                },
            },
    {
        let pos = match self.position_of(key) {
            Some(i) => i,
            None => {
                return Err(CoreError::not_found(String::from_str("object does not exist")));
            }
        };
        proof {
            lemma_obj_index(self.objects@, key@);
        }
        let mut obj = self.objects.remove(pos);
        obj.status = ObjPsStatus {
            wanted,
            prev_wanted: obj.status.wanted,
            actual: obj.status.actual,
            prev_actual: obj.status.prev_actual,
        };
        self.objects.insert(pos, obj);
        proof {
            let ghost pp = pos as int;
            assert(self.objects@ =~= old(self).objects@.update(pp, self.objects@[pp]));
            assert forall|i: int| 0 <= i < self.objects@.len() implies {
                &&& history_wf(specs_view((#[trigger] self.objects@[i]).specs@),
                    self.next_spec_id, self.next_stamp)
                &&& self.objects@[i].specs@.len() > 0
            } by {
                assert(self.objects@[i].specs@ == old(self).objects@[i].specs@);
                assert(history_wf(specs_view(old(self).objects@[i].specs@),
                    old(self).next_spec_id, old(self).next_stamp));
            }
        }
        Ok(())
    }

    /// Marks an object for destruction. Deleting an object that does not
    /// exist is NotFound, and stays NotFound when repeated: the store does
    /// not change.
    pub fn delete_obj(&mut self, key: &String) -> (r: Result<NativeAction, CoreError>)
        requires
            store_wf(*old(self)),
        ensures
            store_wf(*final(self)),
            match r {
                Ok(act) => {
                    &&& act == NativeAction::Destroying
                    &&& obj_index(old(self).objects@, key@) is Some
                    &&& ({
                        let i = obj_index(old(self).objects@, key@)->Some_0;
                        &&& final(self).objects@.len() == old(self).objects@.len()
                        &&& forall|j: int| 0 <= j < old(self).objects@.len() && j != i
                            ==> final(self).objects@[j] == old(self).objects@[j]
                        &&& final(self).objects@[i] == ObjectRow {
                            status: status_wanting(old(self).objects@[i].status,
                                ObjPsStatusKind::Destroy),
                            ..old(self).objects@[i]
                        }
                    })
                }
                Err(e) => {
                    &&& e.kind == ErrorKind::NotFound
                    &&& obj_index(old(self).objects@, key@) is None
                    &&& *final(self) == *old(self)
                },
            },
    {
        match self.want(key, ObjPsStatusKind::Destroy) {
            Ok(_) => Ok(NativeAction::Destroying),
            Err(e) => Err(e),
        }
    }

    /// Asks for the object to run; the reconciler brings replicas up.
    pub fn start_obj(&mut self, key: &String) -> (r: Result<NativeAction, CoreError>)
        requires
            store_wf(*old(self)),
        ensures
            store_wf(*final(self)),
            match r {
                Ok(act) => {
                    &&& act == NativeAction::Starting
                    &&& obj_index(old(self).objects@, key@) is Some
                    &&& ({
                        let i = obj_index(old(self).objects@, key@)->Some_0;
                        &&& final(self).objects@.len() == old(self).objects@.len()
                        &&& forall|j: int| 0 <= j < old(self).objects@.len() && j != i
                            ==> final(self).objects@[j] == old(self).objects@[j]
                        &&& final(self).objects@[i] == ObjectRow {
                            status: status_wanting(old(self).objects@[i].status,
                                ObjPsStatusKind::Start),
                            ..old(self).objects@[i]
                        }
                    })
                }
                Err(e) => {
                    &&& e.kind == ErrorKind::NotFound
                    &&& *final(self) == *old(self)
                },
            },
    {
        match self.want(key, ObjPsStatusKind::Start) {
            Ok(_) => Ok(NativeAction::Starting),
            Err(e) => Err(e),
        }
    }

    /// Asks for the object to stop; the reconciler stops engine processes.
    pub fn stop_obj(&mut self, key: &String) -> (r: Result<NativeAction, CoreError>)
        requires
            store_wf(*old(self)),
        ensures
            store_wf(*final(self)),
            match r {
                Ok(act) => {
                    &&& act == NativeAction::Stopping
                    &&& obj_index(old(self).objects@, key@) is Some
                    &&& ({
                        let i = obj_index(old(self).objects@, key@)->Some_0;
                        &&& final(self).objects@.len() == old(self).objects@.len()
                        &&& forall|j: int| 0 <= j < old(self).objects@.len() && j != i
                            ==> final(self).objects@[j] == old(self).objects@[j]
                        &&& final(self).objects@[i] == ObjectRow {
                            status: status_wanting(old(self).objects@[i].status,
                                ObjPsStatusKind::Stop),
                            ..old(self).objects@[i]
                        }
                    })
                }
                Err(e) => {
                    &&& e.kind == ErrorKind::NotFound
                    &&& *final(self) == *old(self)
                },
            },
    {
        match self.want(key, ObjPsStatusKind::Stop) {
            Ok(_) => Ok(NativeAction::Stopping),
            Err(e) => Err(e),
        }
    }

    /// Records what the object actually is now; the reconciler writes this
    /// after acting, and `Fail` after an error.
    pub fn set_actual(&mut self, key: &String, actual: ObjPsStatusKind) -> (r: Result<
        (),
        CoreError,
    >)
        requires
            store_wf(*old(self)),
        ensures
            store_wf(*final(self)),
            match r {
                Ok(_) => {
                    &&& obj_index(old(self).objects@, key@) is Some
                    &&& ({
                        let i = obj_index(old(self).objects@, key@)->Some_0;
                        &&& final(self).objects@.len() == old(self).objects@.len()
                        &&& forall|j: int| 0 <= j < old(self).objects@.len() && j != i
                            ==> final(self).objects@[j] == old(self).objects@[j]
                        &&& final(self).objects@[i] == ObjectRow {
                            status: ObjPsStatus {
                                wanted: old(self).objects@[i].status.wanted,
                                prev_wanted: old(self).objects@[i].status.prev_wanted,
                                actual,
                                prev_actual: old(self).objects@[i].status.actual,
                            },
                            ..old(self).objects@[i]
                        }
                    })
                }
                Err(e) => {
                    &&& e.kind == ErrorKind::NotFound
                    &&& *final(self) == *old(self)
                },
            },
    {
        let pos = match self.position_of(key) {
            Some(i) => i,
            None => {
                return Err(CoreError::not_found(String::from_str("object does not exist")));
            }
        };
        proof {
            lemma_obj_index(self.objects@, key@);
        }
        let mut obj = self.objects.remove(pos);
        obj.status = ObjPsStatus {
            wanted: obj.status.wanted,
            prev_wanted: obj.status.prev_wanted,
            actual,
            prev_actual: obj.status.actual,
        };
        self.objects.insert(pos, obj);
        proof {
            let ghost pp = pos as int;
            assert(self.objects@ =~= old(self).objects@.update(pp, self.objects@[pp]));
            assert forall|i: int| 0 <= i < self.objects@.len() implies {
                &&& history_wf(specs_view((#[trigger] self.objects@[i]).specs@),
                    self.next_spec_id, self.next_stamp)
                &&& self.objects@[i].specs@.len() > 0
            } by {
                assert(self.objects@[i].specs@ == old(self).objects@[i].specs@);
                assert(history_wf(specs_view(old(self).objects@[i].specs@),
                    old(self).next_spec_id, old(self).next_stamp));
            }
        }
        Ok(())
    }

    /// Tears the object down once its processes are gone: the row and its
    /// whole history leave the store, and `Destroy` is the action reported —
    /// the last event of the object's life.
    pub fn finish_destroy(&mut self, key: &String) -> (r: Result<NativeAction, CoreError>)
        requires
            store_wf(*old(self)),
        ensures
            store_wf(*final(self)),
            match r {
                Ok(act) => {
                    &&& act == NativeAction::Destroy
                    &&& obj_index(old(self).objects@, key@) is Some
                    &&& final(self).objects@ == old(self).objects@.remove(
                        obj_index(old(self).objects@, key@)->Some_0,
                    )
                    &&& obj_index(final(self).objects@, key@) is None || exists|j: int|
                        0 <= j < old(self).objects@.len() && j != obj_index(
                            old(self).objects@,
                            key@,
                        )->Some_0 && (#[trigger] old(self).objects@[j]).key@ == key@
                }
                Err(e) => {
                    &&& e.kind == ErrorKind::NotFound
                    &&& obj_index(old(self).objects@, key@) is None
                    &&& *final(self) == *old(self)
                },
            },
    {
        let pos = match self.position_of(key) {
            Some(i) => i,
            None => {
                return Err(CoreError::not_found(String::from_str("object does not exist")));
            }
        };
        proof {
            lemma_obj_index(self.objects@, key@);
        }
        let _ = self.objects.remove(pos);
        proof {
            assert forall|i: int| 0 <= i < self.objects@.len() implies {
                &&& history_wf(specs_view((#[trigger] self.objects@[i]).specs@),
                    self.next_spec_id, self.next_stamp)
                &&& self.objects@[i].specs@.len() > 0
            } by {
                let src = if i < pos as int {
                    i
                } else {
                    i + 1
                };
                assert(self.objects@[i] == old(self).objects@[src]);
                assert(history_wf(specs_view(old(self).objects@[src].specs@),
                    old(self).next_spec_id, old(self).next_stamp));
            }
            if obj_index(self.objects@, key@) is Some {
                lemma_obj_index(self.objects@, key@);
                let fi = obj_index(self.objects@, key@)->Some_0;
                let src = if fi < pos as int {
                    fi
                } else {
                    fi + 1
                };
                assert(self.objects@[fi] == old(self).objects@[src]);
            }
        }
        Ok(NativeAction::Destroy)
    }

    /// The status of an object.
    pub fn status_of(&self, key: &String) -> (r: Result<ObjPsStatus, CoreError>)
        ensures
            match r {
                Ok(st) => obj_index(self.objects@, key@) is Some && st == self.objects@[
                    obj_index(self.objects@, key@)->Some_0
                ].status,
                Err(e) => e.kind == ErrorKind::NotFound && obj_index(self.objects@, key@)
                    is None,
            },
    {
        let pos = match self.position_of(key) {
            Some(i) => i,
            None => {
                return Err(CoreError::not_found(String::from_str("object does not exist")));
            }
        };
        proof {
            lemma_obj_index(self.objects@, key@);
        }
        Ok(self.objects[pos].status)
    }

    /// The object's history rows, oldest first: each row's id, version and
    /// data.
    #[verifier::loop_isolation(false)]
    pub fn list_history(&self, key: &String) -> (r: Result<Vec<(u64, String, Json)>, CoreError>)
        ensures
            match r {
                Ok(rows) => {
                    &&& obj_index(self.objects@, key@) is Some
                    &&& ({
                        let h = specs_view(
                            self.objects@[obj_index(self.objects@, key@)->Some_0].specs@,
                        );
                        &&& rows@.len() == h.len()
                        &&& forall|i: int| 0 <= i < h.len() ==> {
                            &&& (#[trigger] rows@[i]).0 == h[i].id
                            &&& rows@[i].1@ == h[i].version
                            &&& rows@[i].2@ == h[i].data
                        }
                    })
                }
                Err(e) => e.kind == ErrorKind::NotFound && obj_index(self.objects@, key@)
                    is None,
            },
    {
        let pos = match self.position_of(key) {
            Some(i) => i,
            None => {
                return Err(CoreError::not_found(String::from_str("object does not exist")));
            }
        };
        proof {
            lemma_obj_index(self.objects@, key@);
        }
        let obj = &self.objects[pos];
        proof {
            lemma_specs_view(obj.specs@);
        }
        let mut out: Vec<(u64, String, Json)> = Vec::new();
        let mut i: usize = 0;
        while i < obj.specs.len()
            invariant
                i <= obj.specs@.len(),
                out@.len() == i,
                forall|k: int| 0 <= k < i ==> {
                    &&& (#[trigger] out@[k]).0 == obj.specs@[k]@.id
                    &&& out@[k].1@ == obj.specs@[k]@.version
                    &&& out@[k].2@ == obj.specs@[k]@.data
                },
            decreases obj.specs@.len() - i,
        {
            let row = &obj.specs[i];
            out.push((row.id, row.version.clone(), row.data.deep_copy()));
            i += 1;
        }
        Ok(out)
    }

    /// How many history rows an object holds.
    pub fn history_len(&self, key: &String) -> (r: Result<usize, CoreError>)
        ensures
            match r {
                Ok(n) => obj_index(self.objects@, key@) is Some && n == self.objects@[
                    obj_index(self.objects@, key@)->Some_0
                ].specs@.len(),
                Err(e) => e.kind == ErrorKind::NotFound && obj_index(self.objects@, key@)
                    is None,
            },
    {
        let pos = match self.position_of(key) {
            Some(i) => i,
            None => {
                return Err(CoreError::not_found(String::from_str("object does not exist")));
            }
        };
        proof {
            lemma_obj_index(self.objects@, key@);
        }
        Ok(self.objects[pos].specs.len())
    }

    /// The id of the object's current specification.
    pub fn current_spec_id(&self, key: &String) -> (r: Result<u64, CoreError>)
        requires
            store_wf(*self),
        ensures
            match r {
                Ok(id) => obj_index(self.objects@, key@) is Some && id == current_of(
                    specs_view(
                        self.objects@[obj_index(self.objects@, key@)->Some_0].specs@,
                    ),
                ).id,
                Err(e) => e.kind == ErrorKind::NotFound && obj_index(self.objects@, key@)
                    is None,
            },
    {
        let pos = match self.position_of(key) {
            Some(i) => i,
            None => {
                return Err(CoreError::not_found(String::from_str("object does not exist")));
            }
        };
        proof {
            lemma_obj_index(self.objects@, key@);
            assert(history_wf(specs_view(self.objects@[pos as int].specs@), self.next_spec_id,
                self.next_stamp));
            assert(self.objects@[pos as int].specs@.len() > 0);
            lemma_specs_view(self.objects@[pos as int].specs@);
        }
        let obj = &self.objects[pos];
        let n = obj.specs.len();
        Ok(obj.specs[n - 1].id)
    }

    /// How many objects live in a namespace; deleting a namespace is refused
    /// while this is not zero.
    #[verifier::loop_isolation(false)]
    pub fn count_in_namespace(&self, namespace: &String) -> (n: usize)
        ensures
            n == count_in_nsp(self.objects@, namespace@),
    {
        let mut n: usize = 0;
        let mut i: usize = 0;
        while i < self.objects.len()
            invariant
                i <= self.objects@.len(),
                n <= i,
                n == count_in_nsp(self.objects@.take(i as int), namespace@),
            decreases self.objects@.len() - i,
        {
            proof {
                assert(self.objects@.take(i + 1).drop_last() =~= self.objects@.take(i as int));
                assert(self.objects@.take(i + 1).last() == self.objects@[i as int]);
            }
            if self.objects[i].namespace.eq(namespace) {
                n += 1;
            }
            i += 1;
        }
        proof {
            assert(self.objects@.take(self.objects@.len() as int) =~= self.objects@);
        }
        n
    }
}

/// How many objects of a namespace carry a name the pattern matches.
pub open spec fn count_in_nsp_like(
    objs: Seq<ObjectRow>,
    namespace: Seq<char>,
    pattern: Seq<char>,
) -> nat
    decreases objs.len(),
{
    if objs.len() == 0 {
        0
    } else {
        count_in_nsp_like(objs.drop_last(), namespace, pattern) + if objs.last().namespace@
            == namespace && crate::filter::like_match(pattern, objs.last().name@) {
            1nat
        } else {
            0nat
        }
    }
}

/// How many objects live in a namespace.
pub open spec fn count_in_nsp(objs: Seq<ObjectRow>, namespace: Seq<char>) -> nat
    decreases objs.len(),
{
    if objs.len() == 0 {
        0
    } else {
        count_in_nsp(objs.drop_last(), namespace) + if objs.last().namespace@ == namespace {
            1nat
        } else {
            0nat
        }
    }
}

impl ObjectStore {
    /// Counts the objects of a namespace whose name matches a `LIKE`
    /// pattern: the filtered count behind the counting endpoints.
    #[verifier::loop_isolation(false)]
    pub fn count_in_namespace_like(&self, namespace: &String, pattern: &String) -> (n: usize)
        ensures
            n == count_in_nsp_like(self.objects@, namespace@, pattern@),
    {
        let mut n: usize = 0;
        let mut i: usize = 0;
        while i < self.objects.len()
            invariant
                i <= self.objects@.len(),
                n <= i,
                n == count_in_nsp_like(self.objects@.take(i as int), namespace@, pattern@),
            decreases self.objects@.len() - i,
        {
            proof {
                assert(self.objects@.take(i + 1).drop_last() =~= self.objects@.take(i as int));
                assert(self.objects@.take(i + 1).last() == self.objects@[i as int]);
            }
            if self.objects[i].namespace.eq(namespace) && crate::filter::like_matches(
                pattern,
                &self.objects[i].name,
            ) {
                n += 1;
            }
            i += 1;
        }
        proof {
            assert(self.objects@.take(self.objects@.len() as int) =~= self.objects@);
        }
        n
    }
}

/// What the reconciler does at a status transition.
#[derive(Clone, Copy, PartialEq, Eq, Structural, Debug)]
pub enum ReconcileAction {
    Keep,
    StartProcesses,
    Replace,
    StopProcesses,
    Teardown,
}

/// The reconciler's transition table over `(wanted, actual)`: wanting
/// `Create` keeps things as they are; wanting `Start` creates and starts
/// missing processes, or replaces them zero-downtime when the specification
/// changed under a running object; wanting `Stop` stops a running object;
/// wanting `Destroy` tears everything down.
pub open spec fn reconcile_of(
    wanted: ObjPsStatusKind,
    actual: ObjPsStatusKind,
    spec_changed: bool,
) -> ReconcileAction {
    match wanted {
        ObjPsStatusKind::Create => ReconcileAction::Keep,
        ObjPsStatusKind::Start => if actual == ObjPsStatusKind::Start {
            if spec_changed {
                ReconcileAction::Replace
            } else {
                ReconcileAction::Keep
            }
        } else {
            ReconcileAction::StartProcesses
        },
        ObjPsStatusKind::Stop => if actual == ObjPsStatusKind::Start {
            ReconcileAction::StopProcesses
        } else {
            ReconcileAction::Keep
        },
        ObjPsStatusKind::Destroy => ReconcileAction::Teardown,
        _ => ReconcileAction::Keep,
    }
}

/// Decides the reconciler's next action from a status transition.
pub fn reconcile_step(
    wanted: &ObjPsStatusKind,
    actual: &ObjPsStatusKind,
    spec_changed: bool,
) -> (a: ReconcileAction)
    ensures
        a == reconcile_of(*wanted, *actual, spec_changed),
{
    match wanted {
        ObjPsStatusKind::Create => ReconcileAction::Keep,
        ObjPsStatusKind::Start => {
            if matches!(actual, ObjPsStatusKind::Start) {
                if spec_changed {
                    ReconcileAction::Replace
                } else {
                    ReconcileAction::Keep
                }
            } else {
                ReconcileAction::StartProcesses
            }
        }
        ObjPsStatusKind::Stop => {
            if matches!(actual, ObjPsStatusKind::Start) {
                ReconcileAction::StopProcesses
            } else {
                ReconcileAction::Keep
            }
        }
        ObjPsStatusKind::Destroy => ReconcileAction::Teardown,
        _ => ReconcileAction::Keep,
    }
}

/// `spec_by_id` misses ids that no row carries.
proof fn lemma_spec_by_id_none(specs: Seq<SpecRowV>, id: u64)
    requires
        forall|a: int| 0 <= a < specs.len() ==> (#[trigger] specs[a]).id != id,
    ensures
        spec_by_id(specs, id) is None,
    decreases specs.len(),
{
    if specs.len() > 0 {
        assert(forall|a: int| 0 <= a < specs.drop_first().len()
            ==> #[trigger] specs.drop_first()[a] == specs[a + 1]);
        lemma_spec_by_id_none(specs.drop_first(), id);
    }
}

/// `spec_by_id` answers the first row carrying the id.
proof fn lemma_spec_by_id_at(specs: Seq<SpecRowV>, id: u64, i: int)
    requires
        0 <= i < specs.len(),
        specs[i].id == id,
        forall|a: int| 0 <= a < i ==> specs[a].id != id,
    ensures
        spec_by_id(specs, id) == Some(specs[i]),
    decreases i,
{
    if i > 0 {
        assert(forall|a: int| 0 <= a < specs.drop_first().len()
            ==> #[trigger] specs.drop_first()[a] == specs[a + 1]);
        lemma_spec_by_id_at(specs.drop_first(), id, i - 1);
    }
}

/// The wire name of a lifecycle action.
pub open spec fn action_text(a: NativeAction) -> Seq<char> {
    match a {
        NativeAction::Create => seq!['c', 'r', 'e', 'a', 't', 'e'],
        NativeAction::Update => seq!['u', 'p', 'd', 'a', 't', 'e'],
        NativeAction::Starting => seq!['s', 't', 'a', 'r', 't', 'i', 'n', 'g'],
        NativeAction::Start => seq!['s', 't', 'a', 'r', 't'],
        NativeAction::Stopping => seq!['s', 't', 'o', 'p', 'p', 'i', 'n', 'g'],
        NativeAction::Stop => seq!['s', 't', 'o', 'p'],
        NativeAction::Destroying => seq!['d', 'e', 's', 't', 'r', 'o', 'y', 'i', 'n', 'g'],
        NativeAction::Destroy => seq!['d', 'e', 's', 't', 'r', 'o', 'y'],
    }
}

/// Prints the wire name of a lifecycle action.
pub fn native_action_name(a: &NativeAction) -> (r: String)
    ensures
        r@ == action_text(*a),
{
    let r = match a {
        NativeAction::Create => String::from_str("create"),
        NativeAction::Update => String::from_str("update"),
        NativeAction::Starting => String::from_str("starting"),
        NativeAction::Start => String::from_str("start"),
        NativeAction::Stopping => String::from_str("stopping"),
        NativeAction::Stop => String::from_str("stop"),
        NativeAction::Destroying => String::from_str("destroying"),
        NativeAction::Destroy => String::from_str("destroy"),
    };
    proof {
        reveal_strlit("create");
        reveal_strlit("update");
        reveal_strlit("starting");
        reveal_strlit("start");
        reveal_strlit("stopping");
        reveal_strlit("stop");
        reveal_strlit("destroying");
        reveal_strlit("destroy");
        assert(r@ =~= action_text(*a));
    }
    r
}

/// Builds the event a lifecycle action is reported as: a normal event naming
/// the object as its actor.
pub fn make_obj_event(
    action: &NativeAction,
    actor_kind: crate::event::EventActorKind,
    key: &str,
    node: &str,
    at: u64,
) -> (e: crate::event::Event)
    ensures
        e.kind == crate::event::EventKind::Normal,
        e.action@ == action_text(*action),
        e.reason@ == seq!['s', 't', 'a', 't', 'e', '_', 's', 'y', 'n', 'c'],
        e.reporting_node@ == node@,
        e.reporting_controller@ == seq!['n', 'a', 'n', 'o', 'c', 'l', 'd'],
        e.actor is Some && e.actor->0.key@ == key@ && e.actor->0.kind == actor_kind
            && e.actor->0.attributes is None,
        e.related is None,
        e.note is None,
        e.metadata is None,
        e.at == at,
{
    let reason = String::from_str("state_sync");
    let controller = String::from_str("nanocld");
    proof {
        reveal_strlit("state_sync");
        reveal_strlit("nanocld");
        assert(reason@ =~= seq!['s', 't', 'a', 't', 'e', '_', 's', 'y', 'n', 'c']);
        assert(controller@ =~= seq!['n', 'a', 'n', 'o', 'c', 'l', 'd']);
    }
    crate::event::Event {
        kind: crate::event::EventKind::Normal,
        action: native_action_name(action),
        reason,
        reporting_controller: controller,
        reporting_node: node.to_owned(),
        actor: Some(crate::event::EventActor {
            key: key.to_owned(),
            kind: actor_kind,
            attributes: None,
        }),
        related: None,
        note: None,
        metadata: None,
        at,
    }
}

/// The spec history of every object is totally ordered by its stamps: older
/// rows stand strictly before newer ones, and the current specification —
/// the newest row — carries the greatest stamp of its history.
pub proof fn law_history_totally_ordered(st: ObjectStore, i: int)
    requires
        store_wf(st),
        0 <= i < st.objects@.len(),
    ensures
        ({
            let h = specs_view(st.objects@[i].specs@);
            &&& forall|a: int, b: int| 0 <= a < b < h.len()
                ==> h[a].created_at < h[b].created_at
            &&& h.len() > 0
            &&& forall|a: int| 0 <= a < h.len() ==> (#[trigger] h[a]).created_at <= current_of(
                h,
            ).created_at
        }),
{
    let h = specs_view(st.objects@[i].specs@);
    lemma_specs_view(st.objects@[i].specs@);
    assert forall|a: int| 0 <= a < h.len() implies (#[trigger] h[a]).created_at <= current_of(
        h,
    ).created_at by {
        if a < h.len() - 1 {
            assert(h[a].created_at < h[h.len() - 1].created_at);
        }
    }
}

/// Put followed by revert to the previous specification: the object's
/// current specification equals the one before the put in data and version,
/// under a fresh id and a fresh stamp.
pub proof fn law_put_then_revert(
    specs0: Seq<SpecRowV>,
    put_row: SpecRowV,
    revert_row: SpecRowV,
)
    requires
        specs0.len() > 0,
        forall|a: int, b: int| 0 <= a < b < specs0.push(put_row).len()
            ==> specs0.push(put_row)[a].id < specs0.push(put_row)[b].id,
        revert_row.id > put_row.id,
        spec_by_id(specs0.push(put_row), current_of(specs0).id) is Some,
        revert_row.data == spec_by_id(specs0.push(put_row), current_of(specs0).id)
            ->Some_0.data,
        revert_row.version == spec_by_id(specs0.push(put_row), current_of(specs0).id)
            ->Some_0.version,
    ensures
        current_of(specs0.push(put_row).push(revert_row)).data == current_of(specs0).data,
        current_of(specs0.push(put_row).push(revert_row)).version == current_of(
            specs0,
        ).version,
        current_of(specs0.push(put_row).push(revert_row)).id != current_of(specs0).id,
{
    let specs1 = specs0.push(put_row);
    let prev = current_of(specs0);
    assert(specs1[specs0.len() - 1] == prev);
    assert forall|a: int| 0 <= a < specs0.len() - 1 implies specs1[a].id != prev.id by {
        assert(specs1[a].id < specs1[specs0.len() - 1].id);
    }
    lemma_spec_by_id_at(specs1, prev.id, specs0.len() - 1);
    assert(spec_by_id(specs1, prev.id) == Some(prev));
    assert(specs1[specs0.len() - 1].id < specs1[specs0.len() as int].id);
}

/// The namespaces objects are grouped in; a namespace must be empty before
/// it goes away.
pub struct NamespaceTable {
    pub names: Vec<String>,
}

impl NamespaceTable {
    /// A table with no namespaces.
    pub fn new() -> (r: NamespaceTable)
        ensures
            r.names@.len() == 0,
    {
        NamespaceTable { names: Vec::new() }
    }

    /// Adds a namespace; a name already present is a conflict.
    pub fn create_namespace(&mut self, name: String) -> (r: Result<(), CoreError>)
        ensures
            match r {
                Ok(_) => {
                    &&& !crate::filter::seq_has_str(old(self).names@, name@)
                    &&& final(self).names@ == old(self).names@.push(name)
                }
                Err(e) => {
                    &&& e.kind == ErrorKind::Conflict
                    &&& crate::filter::seq_has_str(old(self).names@, name@)
                    &&& *final(self) == *old(self)
                },
            },
    {
        if crate::filter::list_has_str(&self.names, &name) {
            return Err(CoreError::conflict(String::from_str("namespace already exists")));
        }
        self.names.push(name);
        Ok(())
    }

    /// Removes a namespace, refused while any object still lives in it.
    #[verifier::loop_isolation(false)]
    pub fn delete_namespace(&mut self, name: &String, objects: &ObjectStore) -> (r: Result<
        (),
        CoreError,
    >)
        ensures
            match r {
                Ok(_) => {
                    &&& count_in_nsp(objects.objects@, name@) == 0
                    &&& crate::filter::seq_has_str(old(self).names@, name@)
                    &&& strs_view(final(self).names@) == without_name(
                        strs_view(old(self).names@),
                        name@,
                    )
                    &&& !crate::filter::seq_has_str(final(self).names@, name@)
                }
                Err(e) => {
                    &&& *final(self) == *old(self)
                    &&& (e.kind == ErrorKind::Conflict ==> count_in_nsp(objects.objects@, name@)
                        > 0)
                    &&& (e.kind == ErrorKind::NotFound ==> !crate::filter::seq_has_str(
                        old(self).names@,
                        name@,
                    ))
                    &&& (e.kind == ErrorKind::Conflict || e.kind == ErrorKind::NotFound)
                },
            },
    {
        if !crate::filter::list_has_str(&self.names, name) {
            return Err(CoreError::not_found(String::from_str("namespace does not exist")));
        }
        if objects.count_in_namespace(name) > 0 {
            return Err(CoreError::conflict(String::from_str("namespace is not empty")));
        }
        proof {
            crate::text::lemma_strs_view(self.names@);
        }
        let ghost pre = strs_view(self.names@);
        let mut out: Vec<String> = Vec::new();
        let mut i: usize = 0;
        while i < self.names.len()
            invariant
                i <= self.names@.len(),
                strs_view(out@) == without_name(pre.take(i as int), name@),
            decreases self.names@.len() - i,
        {
            proof {
                assert(pre.take(i + 1).drop_last() =~= pre.take(i as int));
                assert(pre.take(i + 1).last() == pre[i as int]);
            }
            if !self.names[i].eq(name) {
                let kept = self.names[i].clone();
                let ghost pre_out = out@;
                out.push(kept);
                proof {
                    assert(out@.drop_last() =~= pre_out);
                    assert(strs_view(out@) == strs_view(pre_out).push(out@.last()@));
                }
            }
            i += 1;
        }
        proof {
            assert(pre.take(pre.len() as int) =~= pre);
            lemma_without_name(pre, name@);
            crate::text::lemma_strs_view(out@);
            assert forall|k: int| 0 <= k < out@.len() implies #[trigger] out@[k]@ != name@ by {
                assert(strs_view(out@)[k] == out@[k]@);
            }
        }
        self.names = out;
        Ok(())
    }
}

/// The names left when one namespace goes away: every occurrence is removed.
pub open spec fn without_name(names: Seq<Seq<char>>, name: Seq<char>) -> Seq<Seq<char>>
    decreases names.len(),
{
    if names.len() == 0 {
        Seq::empty()
    } else {
        let rest = without_name(names.drop_last(), name);
        if names.last() == name {
            rest
        } else {
            rest.push(names.last())
        }
    }
}

/// No name survives its own removal.
proof fn lemma_without_name(names: Seq<Seq<char>>, name: Seq<char>)
    ensures
        forall|i: int| 0 <= i < without_name(names, name).len()
            ==> #[trigger] without_name(names, name)[i] != name,
    decreases names.len(),
{
    if names.len() > 0 {
        lemma_without_name(names.drop_last(), name);
        let rest = without_name(names.drop_last(), name);
        assert forall|i: int| 0 <= i < without_name(names, name).len()
            implies #[trigger] without_name(names, name)[i] != name by {
            if names.last() != name && i == without_name(names, name).len() - 1 {
                assert(without_name(names, name)[i] == names.last());
            } else {
                assert(without_name(names, name)[i] == rest[i]);
            }
        }
    }
}

/// `obj_index` answers the scan position where the key first occurs.
proof fn lemma_obj_index_at(objs: Seq<ObjectRow>, key: Seq<char>, i: int)
    requires
        0 <= i < objs.len(),
        objs[i].key@ == key,
        forall|k: int| 0 <= k < i ==> objs[k].key@ != key,
    ensures
        obj_index(objs, key) == Some(i),
    decreases i,
{
    if i > 0 {
        lemma_obj_index_at(objs.drop_first(), key, i - 1);
    } else {
        assert(objs[0].key@ == key);
    }
}

} // verus!
