//! Typed resources and their validator: a resource names a registered kind
//! and version, whose schema validates its config, or whose controller URL
//! is delegated to for apply and delete hooks. The meta-kind `Kind` is the
//! bootstrap: creating a resource of kind `Kind` registers a new kind.

use vstd::prelude::*;

use crate::errors::{CoreError, ErrorKind};
use crate::json::{Json, JsonV};
use crate::json_text::{text_of, to_text};
use crate::text::{lemma_strs_view, push_char, strs_view};

verus! {

/// A resource as a client writes it.
pub struct ResourcePartial {
    pub name: String,
    pub kind: String,
    pub version: String,
    pub config: Json,
}

/// One registered version of a resource kind: a schema to validate against,
/// a controller URL to delegate to, or both.
pub struct KindVersionRow {
    pub kind_name: String,
    pub version: String,
    pub schema: Option<Json>,
    pub url: Option<String>,
}

/// The registered resource kinds and their version rows.
pub struct ResourceKindTable {
    pub kinds: Vec<String>,
    pub versions: Vec<KindVersionRow>,
}

/// What the offline schema checker answers for a (schema, config) pair of
/// JSON texts: the inputs were rejected outright — unparseable text, a bad
/// schema, or a reference the offline build refuses to fetch — or the
/// validation failure notes, none meaning the config is valid. The checker
/// is built offline, so the answer is a function of the two texts alone.
pub uninterp spec fn schema_verdict(schema: Seq<char>, config: Seq<char>) -> Result<
    Seq<Seq<char>>,
    Seq<char>,
>;

/// The checker's answer.
pub enum SchemaCheck {
    BadSchema(String),
    Invalid(Vec<String>),
    Valid,
}

/// Relies on `jsonschema::draft7::options().offline().build` and
/// `Validator::iter_errors`: the schema text is compiled as draft 7 with the
/// offline retriever — every external reference is refused rather than
/// fetched, so neither the network nor the filesystem can sway the outcome —
/// and the config is checked against it; both texts are parsed by
/// `serde_json::from_str` first. The outcome is therefore a function of the
/// two texts alone.
#[verifier::external_body]
fn check_against_schema(schema: &str, config: &str) -> (r: SchemaCheck)
    ensures
        ({
            let v = schema_verdict(schema@, config@);
            match r {
                SchemaCheck::BadSchema(m) => v is Err && m@ == v->Err_0,
                SchemaCheck::Invalid(errs) => v is Ok && v->Ok_0.len() > 0 && strs_view(errs@)
                    == v->Ok_0,
                SchemaCheck::Valid => v == Ok::<Seq<Seq<char>>, Seq<char>>(Seq::empty()),
            }
        }),
{
    let docs = serde_json::from_str::<serde_json::Value>(schema)
        .and_then(|s| serde_json::from_str::<serde_json::Value>(config).map(|c| (s, c)));
    let (schema_doc, config_doc) = match docs {
        Ok(d) => d,
        Err(e) => return SchemaCheck::BadSchema(e.to_string()),
    };
    let validator = match jsonschema::draft7::options().offline().build(&schema_doc) {
        Ok(v) => v,
        Err(e) => return SchemaCheck::BadSchema(e.to_string()),
    };
    let errors: Vec<String> = validator.iter_errors(&config_doc).map(|e| e.to_string()).collect();
    if errors.is_empty() { SchemaCheck::Valid } else { SchemaCheck::Invalid(errors) }
}

/// The note a rejected kind payload answers with.
pub open spec fn missing_schema_note() -> Seq<char> {
    seq!['N', 'e', 'i', 't', 'h', 'e', 'r', ' ', 's', 'c', 'h', 'e', 'm', 'a', ' ', 'n', 'o',
        'r', ' ', 'u', 'r', 'l', ' ', 'p', 'r', 'o', 'v', 'i', 'd', 'e', 'd']
}

/// The note a rejected schema answers with: the checker's rejection appended.
pub open spec fn invalid_schema_note(m: Seq<char>) -> Seq<char> {
    seq!['I', 'n', 'v', 'a', 'l', 'i', 'd', ' ', 's', 'c', 'h', 'e', 'm', 'a', ' '] + m
}

/// The note a failed validation answers with: every failure, space-joined.
pub open spec fn invalid_config_note(errs: Seq<Seq<char>>) -> Seq<char>
    decreases errs.len(),
{
    if errs.len() == 0 {
        seq!['I', 'n', 'v', 'a', 'l', 'i', 'd', ' ', 'c', 'o', 'n', 'f', 'i', 'g', ' ']
    } else {
        invalid_config_note(errs.drop_last()) + errs.last() + seq![' ']
    }
}

/// Joins validation failures into the note for the caller.
#[verifier::loop_isolation(false)]
fn join_errors(errs: &Vec<String>) -> (msg: String)
    ensures
        msg@ == invalid_config_note(strs_view(errs@)),
{
    proof {
        lemma_strs_view(errs@);
    }
    let ghost ev = strs_view(errs@);
    let mut msg = String::from_str("Invalid config ");
    proof {
        reveal_strlit("Invalid config ");
        assert(msg@ =~= invalid_config_note(ev.take(0)));
    }
    let mut i: usize = 0;
    while i < errs.len()
        invariant
            i <= errs@.len(),
            msg@ == invalid_config_note(ev.take(i as int)),
        decreases errs@.len() - i,
    {
        msg.append(errs[i].as_str());
        push_char(&mut msg, ' ');
        proof {
            assert(ev.take(i + 1).drop_last() =~= ev.take(i as int));
            assert(ev.take(i + 1).last() == ev[i as int]);
            assert(msg@ =~= invalid_config_note(ev.take(i + 1)));
        }
        i += 1;
    }
    proof {
        assert(ev.take(ev.len() as int) =~= ev);
    }
    msg
}

/// Validates a config document against a schema document. The check runs on
/// their printed texts; the result is exactly the checker's verdict on
/// those texts: success when it reports no failure, a BadRequest carrying
/// the failures or the rejection otherwise.
pub fn validate_config(schema: &Json, config: &Json) -> (r: Result<(), CoreError>)
    ensures
        ({
            let v = schema_verdict(text_of(schema@), text_of(config@));
            match r {
                Ok(_) => v == Ok::<Seq<Seq<char>>, Seq<char>>(Seq::empty()),
                Err(e) => {
                    &&& e.kind == ErrorKind::BadRequest
                    &&& (v is Ok ==> v->Ok_0.len() > 0 && e.msg@ == invalid_config_note(
                        v->Ok_0,
                    ))
                    &&& (v is Err ==> e.msg@ == invalid_schema_note(v->Err_0))
                },
            }
        }),
{
    let schema_text = to_text(schema);
    let config_text = to_text(config);
    match check_against_schema(schema_text.as_str(), config_text.as_str()) {
        SchemaCheck::Valid => Ok(()),
        SchemaCheck::Invalid(errs) => Err(CoreError::bad_request(join_errors(&errs))),
        SchemaCheck::BadSchema(m) => {
            let mut msg = String::from_str("Invalid schema ");
            msg.append(m.as_str());
            proof {
                reveal_strlit("Invalid schema ");
                assert(msg@ =~= invalid_schema_note(schema_verdict(text_of(schema@), text_of(
                    config@,
                ))->Err_0));
            }
            Err(CoreError::bad_request(msg))
        }
    }
}

/// What a kind registration reads out of the payload config: the `Schema`
/// field as it stands, the `Url` field as a string — a string field is taken
/// as is, any other value is taken as its printed text.
pub open spec fn url_field_of(config: Json) -> Option<Seq<char>> {
    match config.jget(seq!['U', 'r', 'l']) {
        Some(JsonV::Str(s)) => Some(s),
        Some(other) => Some(text_of(other)),
        None => None,
    }
}

/// Reads the `Schema` field of a kind payload.
pub fn extract_schema(config: &Json) -> (r: Option<Json>)
    ensures
        match r {
            Some(s) => config.jget(seq!['S', 'c', 'h', 'e', 'm', 'a']) == Some(s@),
            None => config.jget(seq!['S', 'c', 'h', 'e', 'm', 'a']) is None,
        },
{
    let key = String::from_str("Schema");
    proof {
        reveal_strlit("Schema");
        assert(key@ =~= seq!['S', 'c', 'h', 'e', 'm', 'a']);
    }
    match config.get_field(&key) {
        Some(s) => Some(s.deep_copy()),
        None => None,
    }
}

/// Reads the `Url` field of a kind payload.
pub fn extract_url(config: &Json) -> (r: Option<String>)
    ensures
        match r {
            Some(u) => url_field_of(*config) == Some(u@),
            None => url_field_of(*config) is None,
        },
{
    let key = String::from_str("Url");
    proof {
        reveal_strlit("Url");
        assert(key@ =~= seq!['U', 'r', 'l']);
    }
    match config.get_field(&key) {
        Some(Json::Str(s)) => Some(s.clone()),
        Some(other) => Some(to_text(other)),
        None => None,
    }
}

impl ResourceKindTable {
    /// A table with nothing registered.
    pub fn new() -> (r: ResourceKindTable)
        ensures
            r.kinds@.len() == 0,
            r.versions@.len() == 0,
    {
        ResourceKindTable { kinds: Vec::new(), versions: Vec::new() }
    }

    /// Registers a kind from a `Kind` payload: the kind name is added only
    /// when it is new, while a version row is appended on every call. A
    /// payload carrying neither schema nor url is rejected.
    pub fn register_kind(
        &mut self,
        name: &String,
        version: &String,
        schema: Option<Json>,
        url: Option<String>,
    ) -> (r: Result<(), CoreError>)
        ensures
            match r {
                Ok(_) => {
                    &&& !(schema is None && url is None)
                    &&& final(self).kinds@ == (if crate::filter::seq_has_str(
                        old(self).kinds@,
                        name@,
                    ) {
                        old(self).kinds@
                    } else {
                        old(self).kinds@.push(*name)
                    })
                    &&& crate::filter::seq_has_str(final(self).kinds@, name@)
                    &&& final(self).versions@.len() == old(self).versions@.len() + 1
                    &&& final(self).versions@.drop_last() == old(self).versions@
                    &&& ({
                        let row = final(self).versions@.last();
                        &&& row.kind_name@ == name@
                        &&& row.version@ == version@
                        &&& (match (row.schema, schema) {
                            (Some(a), Some(b)) => a@ == b@,
                            (None, None) => true,
                            _ => false,
                        })
                        &&& (match (row.url, url) {
                            (Some(a), Some(b)) => a@ == b@,
                            (None, None) => true,
                            _ => false,
                        })
                    })
                }
                Err(e) => {
                    &&& e.kind == ErrorKind::BadRequest
                    &&& e.msg@ == missing_schema_note()
                    &&& schema is None && url is None
                    &&& *final(self) == *old(self)
                },
            },
    {
        if schema.is_none() && url.is_none() {
            let msg = String::from_str("Neither schema nor url provided");
            proof {
                reveal_strlit("Neither schema nor url provided");
                assert(msg@ =~= missing_schema_note());
            }
            return Err(CoreError::bad_request(msg));
        }
        if !crate::filter::list_has_str(&self.kinds, name) {
            self.kinds.push(name.clone());
            proof {
                assert(self.kinds@ =~= old(self).kinds@.push(*name));
                assert(self.kinds@.last()@ == name@);
            }
        }
        let ghost pre_versions = self.versions@;
        let row = KindVersionRow {
            kind_name: name.clone(),
            version: version.clone(),
            schema,
            url,
        };
        self.versions.push(row);
        proof {
            assert(self.versions@.drop_last() =~= pre_versions);
        }
        Ok(())
    }

    /// Resolves a (kind, version) pair to its newest registered row.
    #[verifier::loop_isolation(false)]
    pub fn resolve_version(&self, kind: &String, version: &String) -> (r: Result<
        usize,
        CoreError,
    >)
        ensures
            match r {
                Ok(i) => newest_version_at(self.versions@, kind@, version@, i as int),
                Err(e) => {
                    &&& e.kind == ErrorKind::NotFound
                    &&& !version_registered(self.versions@, kind@, version@)
                },
            },
    {
        let mut i: usize = self.versions.len();
        while i > 0
            invariant
                i <= self.versions@.len(),
                forall|j: int| i <= j < self.versions@.len() ==> !((
                #[trigger] self.versions@[j]).kind_name@ == kind@ && self.versions@[j].version@
                    == version@),
            decreases i,
        {
            let idx = i - 1;
            if self.versions[idx].kind_name.eq(kind) && self.versions[idx].version.eq(version) {
                return Ok(idx);
            }
            i = idx;
        }
        proof {
            assert(!version_registered(self.versions@, kind@, version@)) by {
                if version_registered(self.versions@, kind@, version@) {
                    let j = choose|j: int| 0 <= j < self.versions@.len() && (
                    #[trigger] self.versions@[j]).kind_name@ == kind@ && self.versions@[
                        j
                    ].version@ == version@;
                    assert(!(self.versions@[j].kind_name@ == kind@ && self.versions@[j].version@
                        == version@));
                }
            }
        }
        Err(CoreError::not_found(String::from_str("resource kind version does not exist")))
    }
}

/// Whether any registered version row matches the pair.
pub open spec fn version_registered(
    rows: Seq<KindVersionRow>,
    kind: Seq<char>,
    version: Seq<char>,
) -> bool {
    exists|i: int| 0 <= i < rows.len() && (#[trigger] rows[i]).kind_name@ == kind && rows[
        i
    ].version@ == version
}

/// Whether position `i` holds the newest row matching the pair.
pub open spec fn newest_version_at(
    rows: Seq<KindVersionRow>,
    kind: Seq<char>,
    version: Seq<char>,
    i: int,
) -> bool {
    &&& 0 <= i < rows.len()
    &&& rows[i].kind_name@ == kind
    &&& rows[i].version@ == version
    &&& forall|j: int| i < j < rows.len() ==> !((#[trigger] rows[j]).kind_name@ == kind
        && rows[j].version@ == version)
}

/// What the validator decides for a resource: store it as it stands, or
/// delegate to the kind's controller and store what it answers.
#[derive(Debug)]
pub enum HookAction {
    StoreAsIs,
    Apply { url: String },
}

/// Validates a resource before it is written. A `Kind` resource registers
/// its kind and passes. Any other resource must name a registered kind and
/// version; when that version carries a schema, the config must validate
/// against it; when it carries a controller URL, the caller must delegate
/// the apply to it.
pub fn hook_create_resource(
    kinds: &mut ResourceKindTable,
    resource: &ResourcePartial,
) -> (r: Result<HookAction, CoreError>)
    ensures
        resource.kind@ == seq!['K', 'i', 'n', 'd'] ==> match r {
            Ok(act) => {
                &&& act is StoreAsIs
                &&& !(resource.config.jget(seq!['S', 'c', 'h', 'e', 'm', 'a']) is None
                    && url_field_of(resource.config) is None)
                &&& final(kinds).kinds@ == (if crate::filter::seq_has_str(
                    old(kinds).kinds@,
                    resource.name@,
                ) {
                    old(kinds).kinds@
                } else {
                    old(kinds).kinds@.push(resource.name)
                })
                &&& crate::filter::seq_has_str(final(kinds).kinds@, resource.name@)
                &&& final(kinds).versions@.len() == old(kinds).versions@.len() + 1
                &&& final(kinds).versions@.drop_last() == old(kinds).versions@
                &&& ({
                    let row = final(kinds).versions@.last();
                    &&& row.kind_name@ == resource.name@
                    &&& row.version@ == resource.version@
                    &&& (match row.schema {
                        Some(s) => resource.config.jget(seq!['S', 'c', 'h', 'e', 'm', 'a'])
                            == Some(s@),
                        None => resource.config.jget(seq!['S', 'c', 'h', 'e', 'm', 'a'])
                            is None,
                    })
                    &&& (match row.url {
                        Some(u) => url_field_of(resource.config) == Some(u@),
                        None => url_field_of(resource.config) is None,
                    })
                })
            }
            Err(e) => {
                &&& e.kind == ErrorKind::BadRequest
                &&& e.msg@ == missing_schema_note()
                &&& resource.config.jget(seq!['S', 'c', 'h', 'e', 'm', 'a']) is None
                &&& url_field_of(resource.config) is None
                &&& *final(kinds) == *old(kinds)
            },
        },
        resource.kind@ != seq!['K', 'i', 'n', 'd'] ==> *final(kinds) == *old(kinds) && match r {
            Ok(act) => exists|i: int| {
                &&& newest_version_at(old(kinds).versions@, resource.kind@, resource.version@, i)
                &&& ((#[trigger] old(kinds).versions@[i]).schema is Some ==> schema_verdict(
                    text_of(old(kinds).versions@[i].schema->0@),
                    text_of(resource.config@),
                ) == Ok::<Seq<Seq<char>>, Seq<char>>(Seq::empty()))
                &&& (match (act, old(kinds).versions@[i].url) {
                    (HookAction::Apply { url }, Some(u)) => url@ == u@,
                    (HookAction::StoreAsIs, None) => true,
                    _ => false,
                })
            },
            Err(e) => {
                &&& (e.kind == ErrorKind::NotFound || e.kind == ErrorKind::BadRequest)
                &&& (e.kind == ErrorKind::NotFound <==> !version_registered(
                    old(kinds).versions@,
                    resource.kind@,
                    resource.version@,
                ))
                &&& (e.kind == ErrorKind::BadRequest ==> exists|i: int| {
                    &&& newest_version_at(old(kinds).versions@, resource.kind@,
                        resource.version@, i)
                    &&& (#[trigger] old(kinds).versions@[i]).schema is Some
                    &&& ({
                        let v = schema_verdict(
                            text_of(old(kinds).versions@[i].schema->0@),
                            text_of(resource.config@),
                        );
                        &&& v != Ok::<Seq<Seq<char>>, Seq<char>>(Seq::empty())
                        &&& (v is Ok ==> v->Ok_0.len() > 0 && e.msg@ == invalid_config_note(
                            v->Ok_0,
                        ))
                        &&& (v is Err ==> e.msg@ == invalid_schema_note(v->Err_0))
                    })
                })
            },
        },
{
    let kind_lit = String::from_str("Kind");
    proof {
        reveal_strlit("Kind");
        assert(kind_lit@ =~= seq!['K', 'i', 'n', 'd']);
    }
    if resource.kind.eq(&kind_lit) {
        let schema = extract_schema(&resource.config);
        let url = extract_url(&resource.config);
        match kinds.register_kind(&resource.name, &resource.version, schema, url) {
            Ok(_) => Ok(HookAction::StoreAsIs),
            Err(e) => Err(e),
        }
    } else {
        let idx = match kinds.resolve_version(&resource.kind, &resource.version) {
            Ok(i) => i,
            Err(e) => {
                return Err(e);
            }
        };
        let row = &kinds.versions[idx];
        match &row.schema {
            Some(schema) => {
                match validate_config(schema, &resource.config) {
                    Ok(_) => {}
                    Err(e) => {
                        return Err(e);
                    }
                }
            }
            None => {}
        }
        match &kinds.versions[idx].url {
            Some(u) => Ok(HookAction::Apply { url: u.clone() }),
            None => Ok(HookAction::StoreAsIs),
        }
    }
}

/// What the delete hook decides: whether the kind's controller must be told,
/// and whether a `Kind` resource cascades onto its registered versions.
pub enum DeleteAction {
    Plain,
    CallController { url: String },
}

/// Decides the delete hook for a resource: best effort — a version that no
/// longer resolves means nothing to call.
pub fn hook_delete_resource(
    kinds: &ResourceKindTable,
    kind: &String,
    version: &String,
) -> (r: DeleteAction)
    ensures
        match r {
            DeleteAction::CallController { url } => exists|i: int| {
                &&& newest_version_at(kinds.versions@, kind@, version@, i)
                &&& (#[trigger] kinds.versions@[i]).url is Some
                &&& url@ == kinds.versions@[i].url->0@
            },
            DeleteAction::Plain => !version_registered(kinds.versions@, kind@, version@)
                || exists|i: int| newest_version_at(kinds.versions@, kind@, version@, i) && (
            #[trigger] kinds.versions@[i]).url is None,
        },
{
    match kinds.resolve_version(kind, version) {
        Ok(idx) => match &kinds.versions[idx].url {
            Some(u) => DeleteAction::CallController { url: u.clone() },
            None => DeleteAction::Plain,
        },
        Err(_) => DeleteAction::Plain,
    }
}

/// Substitutes the config the kind's controller answered an apply with: the
/// resource is persisted with the controller's document, everything else as
/// the client wrote it.
pub fn apply_controller_config(resource: ResourcePartial, answered: Json) -> (r: ResourcePartial)
    ensures
        r.name == resource.name,
        r.kind == resource.kind,
        r.version == resource.version,
        r.config == answered,
{
    ResourcePartial { config: answered, ..resource }
}

/// The stored resources, keyed by name.
pub struct ResourceTable {
    pub rows: Vec<ResourcePartial>,
}

/// Whether a resource of the name is stored.
pub open spec fn has_resource(rows: Seq<ResourcePartial>, name: Seq<char>) -> bool {
    exists|i: int| 0 <= i < rows.len() && (#[trigger] rows[i]).name@ == name
}

/// The rows left when the named resource goes away.
pub open spec fn without_resource(rows: Seq<ResourcePartial>, name: Seq<char>) -> Seq<
    ResourcePartial,
>
    decreases rows.len(),
{
    if rows.len() == 0 {
        Seq::empty()
    } else {
        let rest = without_resource(rows.drop_last(), name);
        if rows.last().name@ == name {
            rest
        } else {
            rest.push(rows.last())
        }
    }
}

impl ResourceTable {
    /// An empty store.
    pub fn new() -> (r: ResourceTable)
        ensures
            r.rows@.len() == 0,
    {
        ResourceTable { rows: Vec::new() }
    }

    /// Stores a validated resource; a name already in use is a conflict.
    #[verifier::loop_isolation(false)]
    pub fn insert_resource(&mut self, resource: ResourcePartial) -> (r: Result<(), CoreError>)
        ensures
            match r {
                Ok(_) => {
                    &&& !has_resource(old(self).rows@, resource.name@)
                    &&& final(self).rows@.len() == old(self).rows@.len() + 1
                    &&& final(self).rows@.drop_last() == old(self).rows@
                    &&& final(self).rows@.last() == resource
                }
                Err(e) => {
                    &&& e.kind == ErrorKind::Conflict
                    &&& has_resource(old(self).rows@, resource.name@)
                    &&& *final(self) == *old(self)
                },
            },
    {
        let mut i: usize = 0;
        while i < self.rows.len()
            invariant
                i <= self.rows@.len(),
                forall|k: int| 0 <= k < i ==> (#[trigger] self.rows@[k]).name@
                    != resource.name@,
            decreases self.rows@.len() - i,
        {
            if self.rows[i].name.eq(&resource.name) {
                proof {
                    assert(self.rows@[i as int].name@ == resource.name@);
                }
                return Err(CoreError::conflict(String::from_str("resource already exists")));
            }
            i += 1;
        }
        let ghost pre = self.rows@;
        self.rows.push(resource);
        proof {
            assert(self.rows@.drop_last() =~= pre);
        }
        Ok(())
    }

    /// Removes a resource by name; an unknown name is NotFound.
    #[verifier::loop_isolation(false)]
    pub fn remove_resource(&mut self, name: &String) -> (r: Result<(), CoreError>)
        ensures
            match r {
                Ok(_) => {
                    &&& has_resource(old(self).rows@, name@)
                    &&& final(self).rows@ == without_resource(old(self).rows@, name@)
                }
                Err(e) => {
                    &&& e.kind == ErrorKind::NotFound
                    &&& !has_resource(old(self).rows@, name@)
                    &&& *final(self) == *old(self)
                },
            },
    {
        let mut found = false;
        let mut i: usize = 0;
        while i < self.rows.len()
            invariant
                i <= self.rows@.len(),
                found == exists|k: int| 0 <= k < i && (#[trigger] self.rows@[k]).name@ == name@,
            decreases self.rows@.len() - i,
        {
            if self.rows[i].name.eq(name) {
                found = true;
                proof {
                    assert(self.rows@[i as int].name@ == name@);
                }
            }
            i += 1;
        }
        if !found {
            return Err(CoreError::not_found(String::from_str("resource does not exist")));
        }
        let ghost pre = self.rows@;
        let mut out: Vec<ResourcePartial> = Vec::new();
        let ghost mut k: int = 0;
        while self.rows.len() > 0
            invariant
                0 <= k <= pre.len(),
                self.rows@ =~= pre.skip(k),
                out@ == without_resource(pre.take(k), name@),
            decreases self.rows@.len(),
        {
            let row = self.rows.remove(0);
            proof {
                assert(row == pre[k]);
                assert(pre.skip(k).drop_first() =~= pre.skip(k + 1));
                assert(pre.take(k + 1).drop_last() =~= pre.take(k));
                assert(pre.take(k + 1).last() == pre[k]);
            }
            let ghost pre_out = out@;
            if !row.name.eq(name) {
                out.push(row);
                proof {
                    assert(out@.drop_last() =~= pre_out);
                }
            }
            proof {
                k = k + 1;
            }
        }
        proof {
            assert(k == pre.len());
            assert(pre.take(pre.len() as int) =~= pre);
        }
        self.rows = out;
        Ok(())
    }
}

/// Registering the same kind twice is idempotent on the kind list — the
/// second registration finds the name present and leaves the list alone —
/// while each call appends one version row.
pub proof fn law_kind_registration_idempotent(
    t0: ResourceKindTable,
    t1: ResourceKindTable,
    t2: ResourceKindTable,
    name: String,
)
    requires
        t1.kinds@ == (if crate::filter::seq_has_str(t0.kinds@, name@) {
            t0.kinds@
        } else {
            t0.kinds@.push(name)
        }),
        crate::filter::seq_has_str(t1.kinds@, name@),
        t2.kinds@ == (if crate::filter::seq_has_str(t1.kinds@, name@) {
            t1.kinds@
        } else {
            t1.kinds@.push(name)
        }),
        t1.versions@.len() == t0.versions@.len() + 1,
        t2.versions@.len() == t1.versions@.len() + 1,
    ensures
        t2.kinds@ == t1.kinds@,
        t2.versions@.len() == t0.versions@.len() + 2,
{
}

} // verus!
