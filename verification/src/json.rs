//! A model of JSON documents as the store and the validator see them.
//!
//! The store keeps the `data` column of a process and the `config` of a
//! resource as JSON; filters test containment on it and the lifecycle engine
//! merges patches into it. Numbers are modelled as signed integers: the
//! documents the core reads (labels, spec templates, kind configs) carry no
//! fractional values.

use vstd::prelude::*;

verus! {

broadcast use vstd::std_specs::vec::group_vec_axioms;

/// A JSON document.
pub enum Json {
    Null,
    Bool(bool),
    Num(i64),
    Str(String),
    Arr(Vec<Json>),
    Obj(Vec<(String, Json)>),
}

/// The mathematical value of a [`Json`] document.
pub enum JsonV {
    Null,
    Bool(bool),
    Num(int),
    Str(Seq<char>),
    Arr(Seq<JsonV>),
    Obj(Seq<(Seq<char>, JsonV)>),
}

/// The value of a document.
pub open spec fn jview(j: Json) -> JsonV
    decreases j,
{
    match j {
        Json::Null => JsonV::Null,
        Json::Bool(b) => JsonV::Bool(b),
        Json::Num(n) => JsonV::Num(n as int),
        Json::Str(s) => JsonV::Str(s@),
        Json::Arr(items) => JsonV::Arr(jview_seq(items@)),
        Json::Obj(fields) => JsonV::Obj(jview_fields(fields@)),
    }
}

/// The values of the elements of an array.
pub open spec fn jview_seq(s: Seq<Json>) -> Seq<JsonV>
    decreases s,
{
    if s.len() == 0 {
        Seq::empty()
    } else {
        jview_seq(s.drop_last()).push(jview(s.last()))
    }
}

/// The values of the fields of an object.
pub open spec fn jview_fields(s: Seq<(String, Json)>) -> Seq<(Seq<char>, JsonV)>
    decreases s,
{
    if s.len() == 0 {
        Seq::empty()
    } else {
        jview_fields(s.drop_last()).push((s.last().0@, jview(s.last().1)))
    }
}

impl View for Json {
    type V = JsonV;

    open spec fn view(&self) -> JsonV {
        jview(*self)
    }
}

/// `jview_seq` maps the sequence element by element.
pub proof fn lemma_jview_seq(s: Seq<Json>)
    ensures
        jview_seq(s).len() == s.len(),
        forall|i: int| 0 <= i < s.len() ==> jview_seq(s)[i] == jview(s[i]),
    decreases s,
{
    if s.len() > 0 {
        lemma_jview_seq(s.drop_last());
    }
}

/// `jview_fields` maps the field list element by element.
pub proof fn lemma_jview_fields(s: Seq<(String, Json)>)
    ensures
        jview_fields(s).len() == s.len(),
        forall|i: int| 0 <= i < s.len()
            ==> jview_fields(s)[i] == (s[i].0@, jview(s[i].1)),
    decreases s,
{
    if s.len() > 0 {
        lemma_jview_fields(s.drop_last());
    }
}

/// The value bound to a key in a field list: the first binding wins.
pub open spec fn field_lookup(fields: Seq<(Seq<char>, JsonV)>, key: Seq<char>) -> Option<JsonV>
    decreases fields.len(),
{
    if fields.len() == 0 {
        None
    } else if fields[0].0 == key {
        Some(fields[0].1)
    } else {
        field_lookup(fields.drop_first(), key)
    }
}

/// Whether a field list binds a key.
pub open spec fn has_field(fields: Seq<(Seq<char>, JsonV)>, key: Seq<char>) -> bool {
    field_lookup(fields, key) is Some
}

impl Json {
    /// The value of a field of an object document.
    pub open spec fn jget(self, key: Seq<char>) -> Option<JsonV> {
        match self@ {
            JsonV::Obj(fields) => field_lookup(fields, key),
            _ => None,
        }
    }

    /// Looks a field up when the document is an object.
    pub fn get_field<'a>(&'a self, key: &String) -> (r: Option<&'a Json>)
        ensures
            match r {
                Some(v) => self.jget(key@) == Some(v@),
                None => self.jget(key@) is None,
            },
    {
        match self {
            Json::Obj(fields) => obj_get(fields, key),
            _ => None,
        }
    }

    /// A structural copy of the document.
    #[verifier::loop_isolation(false)]
    pub fn deep_copy(&self) -> (r: Json)
        ensures
            r@ == self@,
        decreases self,
    {
        match self {
            Json::Null => Json::Null,
            Json::Bool(b) => Json::Bool(*b),
            Json::Num(n) => Json::Num(*n),
            Json::Str(s) => Json::Str(s.clone()),
            Json::Arr(items) => {
                let mut out: Vec<Json> = Vec::new();
                let mut i: usize = 0;
                while i < items.len()
                    invariant
                        i <= items.len(),
                        out@.len() == i,
                        forall|k: int| 0 <= k < i ==> out@[k]@ == items@[k]@,
                    decreases items.len() - i,
                {
                    proof {
                        assert(decreases_to!(*self => self->Arr_0));
                        assert(decreases_to!(self->Arr_0 => self->Arr_0@));
                        assert(decreases_to!(self->Arr_0@ => self->Arr_0@[i as int]));
                        assert(self->Arr_0@[i as int] == items@[i as int]);
                    }
                    let c = items[i].deep_copy();
                    out.push(c);
                    i += 1;
                }
                proof {
                    lemma_jview_seq(out@);
                    lemma_jview_seq(items@);
                    assert(jview_seq(out@) =~= jview_seq(items@));
                }
                Json::Arr(out)
            }
            Json::Obj(fields) => {
                let mut out: Vec<(String, Json)> = Vec::new();
                let mut i: usize = 0;
                while i < fields.len()
                    invariant
                        i <= fields.len(),
                        out@.len() == i,
                        forall|k: int| 0 <= k < i
                            ==> out@[k].0@ == fields@[k].0@ && out@[k].1@ == fields@[k].1@,
                    decreases fields.len() - i,
                {
                    proof {
                        assert(decreases_to!(*self => self->Obj_0));
                        assert(decreases_to!(self->Obj_0 => self->Obj_0@));
                        assert(decreases_to!(self->Obj_0@ => self->Obj_0@[i as int]));
                        assert(decreases_to!(self->Obj_0@[i as int] => self->Obj_0@[i as int].1));
                        assert(self->Obj_0@[i as int] == fields@[i as int]);
                    }
                    let k = fields[i].0.clone();
                    let v = fields[i].1.deep_copy();
                    out.push((k, v));
                    i += 1;
                }
                proof {
                    lemma_jview_fields(out@);
                    lemma_jview_fields(fields@);
                    assert(jview_fields(out@) =~= jview_fields(fields@));
                }
                Json::Obj(out)
            }
        }
    }
}

/// How `field_lookup` advances over a prefix that misses the key.
proof fn lemma_field_lookup_skip(fields: Seq<(Seq<char>, JsonV)>, key: Seq<char>, i: int)
    requires
        0 <= i < fields.len(),
        forall|k: int| 0 <= k < i ==> fields[k].0 != key,
    ensures
        field_lookup(fields, key) == field_lookup(fields.skip(i), key),
    decreases i,
{
    if i > 0 {
        assert(fields[0].0 != key);
        lemma_field_lookup_skip(fields.drop_first(), key, i - 1);
        assert(fields.drop_first().skip(i - 1) =~= fields.skip(i));
    } else {
        assert(fields.skip(0) =~= fields);
    }
}

/// Looks a key up in an object's field list; the first binding wins.
#[verifier::loop_isolation(false)]
pub fn obj_get<'a>(fields: &'a Vec<(String, Json)>, key: &String) -> (r: Option<&'a Json>)
    ensures
        match r {
            Some(v) => field_lookup(jview_fields(fields@), key@) == Some(v@),
            None => field_lookup(jview_fields(fields@), key@) is None,
        },
{
    proof {
        lemma_jview_fields(fields@);
    }
    let ghost fv = jview_fields(fields@);
    let mut i: usize = 0;
    while i < fields.len()
        invariant
            i <= fields.len(),
            fv == jview_fields(fields@),
            fv.len() == fields@.len(),
            forall|k: int| 0 <= k < fields@.len()
                ==> fv[k] == (fields@[k].0@, jview(fields@[k].1)),
            forall|k: int| 0 <= k < i ==> fv[k].0 != key@,
        decreases fields.len() - i,
    {
        if fields[i].0.eq(key) {
            proof {
                lemma_field_lookup_skip(fv, key@, i as int);
                assert(fv.skip(i as int).len() > 0);
                assert(fv.skip(i as int)[0] == fv[i as int]);
                assert(fv[i as int].0 == key@);
                assert(field_lookup(fv.skip(i as int), key@) == Some(fv[i as int].1));
            }
            return Some(&fields[i].1);
        }
        i += 1;
    }
    proof {
        if fv.len() > 0 {
            lemma_field_lookup_skip(fv, key@, fv.len() - 1);
            assert(fv.skip(fv.len() - 1)[0] == fv[fv.len() - 1]);
            assert(fv[fv.len() - 1].0 != key@);
            assert(fv.skip(fv.len() - 1).drop_first() =~= fv.skip(fv.len() as int));
            assert(fv.skip(fv.len() as int).len() == 0);
            assert(field_lookup(fv.skip(fv.len() as int), key@) is None);
        } else {
            assert(field_lookup(fv, key@) is None);
        }
    }
    None
}

/// The fields a merge appends: those of the patch whose key the old object
/// does not carry, in patch order.
pub open spec fn new_fields(
    of: Seq<(Seq<char>, JsonV)>,
    pf: Seq<(Seq<char>, JsonV)>,
) -> Seq<(Seq<char>, JsonV)>
    decreases pf.len(),
{
    if pf.len() == 0 {
        Seq::empty()
    } else if has_field(of, pf.last().0) {
        new_fields(of, pf.drop_last())
    } else {
        new_fields(of, pf.drop_last()).push(pf.last())
    }
}

/// The field list after a field-level merge: every old field keeps its place,
/// its value replaced when the patch binds the same key; patch-only fields
/// follow in patch order.
pub open spec fn merged_fields(
    of: Seq<(Seq<char>, JsonV)>,
    pf: Seq<(Seq<char>, JsonV)>,
) -> Seq<(Seq<char>, JsonV)> {
    Seq::new(
        of.len(),
        |i: int|
            if has_field(pf, of[i].0) {
                (of[i].0, field_lookup(pf, of[i].0)->Some_0)
            } else {
                of[i]
            },
    ) + new_fields(of, pf)
}

/// A field-level merge: two objects merge field by field, anything else is
/// replaced by the patch.
pub open spec fn json_merge(old: JsonV, patch: JsonV) -> JsonV {
    match (old, patch) {
        (JsonV::Obj(of), JsonV::Obj(pf)) => JsonV::Obj(merged_fields(of, pf)),
        _ => patch,
    }
}

/// Merges a patch document into an old one, field by field at the top level.
#[verifier::loop_isolation(false)]
pub fn merge(old: &Json, patch: &Json) -> (r: Json)
    ensures
        r@ == json_merge(old@, patch@),
{
    match (old, patch) {
        (Json::Obj(of), Json::Obj(pf)) => {
            proof {
                lemma_jview_fields(of@);
                lemma_jview_fields(pf@);
            }
            let ghost ofv = jview_fields(of@);
            let ghost pfv = jview_fields(pf@);
            let mut out: Vec<(String, Json)> = Vec::new();
            let mut i: usize = 0;
            while i < of.len()
                invariant
                    i <= of.len(),
                    ofv == jview_fields(of@),
                    pfv == jview_fields(pf@),
                    ofv.len() == of@.len(),
                    pfv.len() == pf@.len(),
                    forall|k: int| 0 <= k < of@.len()
                        ==> ofv[k] == (of@[k].0@, jview(of@[k].1)),
                    forall|k: int| 0 <= k < pf@.len()
                        ==> pfv[k] == (pf@[k].0@, jview(pf@[k].1)),
                    out@.len() == i,
                    forall|k: int| 0 <= k < i ==> (out@[k].0@, out@[k].1@)
                        == (if has_field(pfv, ofv[k].0) {
                            (ofv[k].0, field_lookup(pfv, ofv[k].0)->Some_0)
                        } else {
                            ofv[k]
                        }),
                decreases of.len() - i,
            {
                let key = of[i].0.clone();
                let merged = match obj_get(pf, &key) {
                    Some(pv) => pv.deep_copy(),
                    None => of[i].1.deep_copy(),
                };
                out.push((key, merged));
                i += 1;
            }
            let mut j: usize = 0;
            while j < pf.len()
                invariant
                    j <= pf.len(),
                    ofv == jview_fields(of@),
                    pfv == jview_fields(pf@),
                    ofv.len() == of@.len(),
                    pfv.len() == pf@.len(),
                    forall|k: int| 0 <= k < of@.len()
                        ==> ofv[k] == (of@[k].0@, jview(of@[k].1)),
                    forall|k: int| 0 <= k < pf@.len()
                        ==> pfv[k] == (pf@[k].0@, jview(pf@[k].1)),
                    out@.len() >= of@.len(),
                    forall|k: int| 0 <= k < of@.len() ==> (out@[k].0@, out@[k].1@)
                        == (if has_field(pfv, ofv[k].0) {
                            (ofv[k].0, field_lookup(pfv, ofv[k].0)->Some_0)
                        } else {
                            ofv[k]
                        }),
                    jview_fields(out@.skip(of@.len() as int))
                        =~= new_fields(ofv, pfv.take(j as int)),
                decreases pf.len() - j,
            {
                let ghost out_pre = out@;
                let key = pf[j].0.clone();
                match obj_get(of, &key) {
                    Some(_) => {}
                    None => {
                        let v = pf[j].1.deep_copy();
                        out.push((key, v));
                    }
                }
                proof {
                    assert(pfv.take(j + 1).drop_last() =~= pfv.take(j as int));
                    assert(pfv.take(j + 1).last() == pfv[j as int]);
                    lemma_jview_fields(out@.skip(of@.len() as int));
                    lemma_jview_fields(out_pre.skip(of@.len() as int));
                    if out@.len() > out_pre.len() {
                        assert(out@.skip(of@.len() as int).drop_last()
                            =~= out_pre.skip(of@.len() as int));
                    }
                }
                j += 1;
            }
            proof {
                let n = of@.len() as int;
                assert(pfv.take(pfv.len() as int) =~= pfv);
                lemma_jview_fields(out@);
                lemma_jview_fields(out@.skip(n));
                assert(jview_fields(out@.skip(n)) =~= new_fields(ofv, pfv));
                assert(new_fields(ofv, pfv).len() == out@.len() - n);
                assert(merged_fields(ofv, pfv).len() == out@.len());
                assert forall|k: int| 0 <= k < out@.len()
                    implies jview_fields(out@)[k] == merged_fields(ofv, pfv)[k] by {
                    if k >= n {
                        assert(out@.skip(n)[k - n] == out@[k]);
                        assert(jview_fields(out@.skip(n))[k - n]
                            == (out@[k].0@, jview(out@[k].1)));
                    }
                }
                assert(jview_fields(out@) =~= merged_fields(ofv, pfv));
            }
            Json::Obj(out)
        }
        _ => {
            let r = patch.deep_copy();
            proof {
                if old@ is Obj && patch@ is Obj {
                    assert(false);
                }
            }
            r
        }
    }
}

/// Whether every part of `small` occurs in `big`: an object must carry every
/// field of `small` with a contained value, an array every element of
/// `small`, and a scalar must be equal. These are the containment semantics
/// the store's `Contains` clause gives to JSON columns.
pub open spec fn contained_in(small: JsonV, big: JsonV) -> bool
    decreases small, 0int,
{
    match (big, small) {
        (JsonV::Obj(bf), JsonV::Obj(sf)) => forall|i: int| 0 <= i < sf.len()
            ==> field_contained(#[trigger] sf[i], bf),
        (JsonV::Arr(ba), JsonV::Arr(sa)) => forall|i: int| 0 <= i < sa.len()
            ==> elem_contained(#[trigger] sa[i], ba),
        _ => small == big,
    }
}

/// Whether a field list carries the key of `f` bound to a value containing
/// the value of `f`.
pub open spec fn field_contained(f: (Seq<char>, JsonV), bf: Seq<(Seq<char>, JsonV)>) -> bool
    decreases f, 1int,
{
    exists|j: int| 0 <= j < bf.len() && (#[trigger] bf[j]).0 == f.0
        && contained_in(f.1, bf[j].1)
}

/// Whether some element of `ba` contains `e`.
pub open spec fn elem_contained(e: JsonV, ba: Seq<JsonV>) -> bool
    decreases e, 1int,
{
    exists|j: int| 0 <= j < ba.len() && contained_in(e, #[trigger] ba[j])
}

/// Scans an object's fields for one that carries `key` with a value
/// containing `sv`.
#[verifier::loop_isolation(false)]
fn field_search(bf: &Vec<(String, Json)>, key: &String, sv: &Json) -> (r: bool)
    ensures
        r == field_contained((key@, sv@), jview_fields(bf@)),
    decreases sv, 1int,
{
    proof {
        lemma_jview_fields(bf@);
    }
    let ghost bfv = jview_fields(bf@);
    let mut j: usize = 0;
    while j < bf.len()
        invariant
            j <= bf@.len(),
            forall|l: int| 0 <= l < j ==> !((#[trigger] bfv[l]).0 == key@
                && contained_in(sv@, bfv[l].1)),
        decreases bf@.len() - j,
    {
        if bf[j].0.eq(key) {
            if json_contains(&bf[j].1, sv) {
                proof {
                    assert(bfv[j as int].0 == key@ && contained_in(sv@, bfv[j as int].1));
                }
                return true;
            }
        }
        j += 1;
    }
    false
}

/// Scans an array for an element that contains `sv`.
#[verifier::loop_isolation(false)]
fn elem_search(ba: &Vec<Json>, sv: &Json) -> (r: bool)
    ensures
        r == elem_contained(sv@, jview_seq(ba@)),
    decreases sv, 1int,
{
    proof {
        lemma_jview_seq(ba@);
    }
    let ghost bav = jview_seq(ba@);
    let mut j: usize = 0;
    while j < ba.len()
        invariant
            j <= ba@.len(),
            forall|l: int| 0 <= l < j ==> !contained_in(sv@, #[trigger] bav[l]),
        decreases ba@.len() - j,
    {
        if json_contains(&ba[j], sv) {
            proof {
                assert(contained_in(sv@, bav[j as int]));
            }
            return true;
        }
        j += 1;
    }
    false
}

/// Decides containment: whether `big` contains `small`.
#[verifier::loop_isolation(false)]
pub fn json_contains(big: &Json, small: &Json) -> (r: bool)
    ensures
        r == contained_in(small@, big@),
    decreases small, 0int,
{
    match (big, small) {
        (Json::Obj(bf), Json::Obj(sf)) => {
            proof {
                lemma_jview_fields(sf@);
            }
            let ghost sfv = jview_fields(sf@);
            let mut i: usize = 0;
            while i < sf.len()
                invariant
                    i <= sf@.len(),
                    forall|k: int| 0 <= k < i ==> field_contained(#[trigger] sfv[k], jview_fields(bf@)),
                decreases sf@.len() - i,
            {
                proof {
                    assert(decreases_to!(*small => small->Obj_0));
                    assert(decreases_to!(small->Obj_0 => small->Obj_0@));
                    assert(decreases_to!(small->Obj_0@ => small->Obj_0@[i as int]));
                    assert(decreases_to!(small->Obj_0@[i as int] => small->Obj_0@[i as int].1));
                    assert(small->Obj_0@[i as int] == sf@[i as int]);
                }
                if !field_search(bf, &sf[i].0, &sf[i].1) {
                    proof {
                        assert(sfv[i as int] == (sf@[i as int].0@, jview(sf@[i as int].1)));
                        assert(!field_contained(sfv[i as int], jview_fields(bf@)));
                        assert(small@ == JsonV::Obj(sfv));
                        assert(big@ == JsonV::Obj(jview_fields(bf@)));
                        assert(0 <= (i as int) && (i as int) < sfv.len());
                        assert(small@->Obj_0 == sfv);
                        assert(big@->Obj_0 == jview_fields(bf@));
                        assert(!contained_in(small@, big@)) by {
                            if contained_in(small@, big@) {
                                assert(field_contained(small@->Obj_0[i as int], big@->Obj_0));
                            }
                        }
                    }
                    return false;
                }
                i += 1;
            }
            true
        }
        (Json::Arr(ba), Json::Arr(sa)) => {
            proof {
                lemma_jview_seq(sa@);
            }
            let ghost sav = jview_seq(sa@);
            let mut i: usize = 0;
            while i < sa.len()
                invariant
                    i <= sa@.len(),
                    forall|k: int| 0 <= k < i ==> elem_contained(#[trigger] sav[k], jview_seq(ba@)),
                decreases sa@.len() - i,
            {
                proof {
                    assert(decreases_to!(*small => small->Arr_0));
                    assert(decreases_to!(small->Arr_0 => small->Arr_0@));
                    assert(decreases_to!(small->Arr_0@ => small->Arr_0@[i as int]));
                    assert(small->Arr_0@[i as int] == sa@[i as int]);
                }
                if !elem_search(ba, &sa[i]) {
                    proof {
                        assert(sav[i as int] == jview(sa@[i as int]));
                        assert(!elem_contained(sav[i as int], jview_seq(ba@)));
                        assert(small@ == JsonV::Arr(sav));
                        assert(big@ == JsonV::Arr(jview_seq(ba@)));
                        assert(0 <= (i as int) && (i as int) < sav.len());
                        assert(small@->Arr_0 == sav);
                        assert(big@->Arr_0 == jview_seq(ba@));
                        assert(!contained_in(small@, big@)) by {
                            if contained_in(small@, big@) {
                                assert(elem_contained(small@->Arr_0[i as int], big@->Arr_0));
                            }
                        }
                    }
                    return false;
                }
                i += 1;
            }
            true
        }
        (Json::Null, Json::Null) => true,
        (Json::Bool(a), Json::Bool(b)) => a == b,
        (Json::Num(a), Json::Num(b)) => a == b,
        (Json::Str(a), Json::Str(b)) => a.eq(b),
        _ => false,
    }
}

} // verus!
