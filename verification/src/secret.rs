//! Secrets and how the process layer consumes them: `nanocl.io/env` secrets
//! are flattened into environment lines, `nanocl.io/tls` secrets are
//! materialised as certificate files under the state directory and mounted
//! into the container.

use vstd::prelude::*;

use crate::errors::{CoreError, ErrorKind};
use crate::filter::{list_has_str, seq_has_str};
use crate::json::{Json, JsonV};
use crate::keys::ProcessKind;
use crate::text::{push_char, strs_view};

verus! {

/// A stored secret.
pub struct SecretRow {
    pub key: String,
    pub kind: String,
    pub data: Json,
}

/// The value of a secret row.
pub struct SecretRowV {
    pub key: Seq<char>,
    pub kind: Seq<char>,
    pub data: JsonV,
}

impl View for SecretRow {
    type V = SecretRowV;

    open spec fn view(&self) -> SecretRowV {
        SecretRowV { key: self.key@, kind: self.kind@, data: self.data@ }
    }
}

/// The secret store.
pub struct SecretTable {
    pub rows: Vec<SecretRow>,
}

/// The values of the secret rows.
pub open spec fn secrets_view(rows: Seq<SecretRow>) -> Seq<SecretRowV>
    decreases rows,
{
    if rows.len() == 0 {
        Seq::empty()
    } else {
        secrets_view(rows.drop_last()).push(rows.last()@)
    }
}

/// `secrets_view` maps the rows element by element.
pub proof fn lemma_secrets_view(rows: Seq<SecretRow>)
    ensures
        secrets_view(rows).len() == rows.len(),
        forall|i: int| 0 <= i < rows.len() ==> secrets_view(rows)[i] == rows[i]@,
    decreases rows,
{
    if rows.len() > 0 {
        lemma_secrets_view(rows.drop_last());
    }
}

/// The kind of env secrets.
pub open spec fn env_kind() -> Seq<char> {
    seq!['n', 'a', 'n', 'o', 'c', 'l', '.', 'i', 'o', '/', 'e', 'n', 'v']
}

/// The strings of a document, if it is an array holding only strings.
pub open spec fn str_items(v: JsonV) -> Option<Seq<Seq<char>>> {
    match v {
        JsonV::Arr(items) => str_seq_of(items),
        _ => None,
    }
}

/// The strings of an array, if every element is a string.
pub open spec fn str_seq_of(items: Seq<JsonV>) -> Option<Seq<Seq<char>>>
    decreases items.len(),
{
    if items.len() == 0 {
        Some(Seq::empty())
    } else {
        match (str_seq_of(items.drop_last()), items.last()) {
            (Some(rest), JsonV::Str(s)) => Some(rest.push(s)),
            _ => None,
        }
    }
}

/// The rows a consumer's secret list selects among the env secrets.
pub open spec fn env_rows(rows: Seq<SecretRowV>, wanted: Seq<String>) -> Seq<SecretRowV>
    decreases rows.len(),
{
    if rows.len() == 0 {
        Seq::empty()
    } else {
        let rest = env_rows(rows.drop_last(), wanted);
        if seq_has_str(wanted, rows.last().key) && rows.last().kind == env_kind() {
            rest.push(rows.last())
        } else {
            rest
        }
    }
}

/// The selected rows' lines, flattened in order; nothing when any selected
/// row does not hold a list of strings.
pub open spec fn flat_env(sel: Seq<SecretRowV>) -> Option<Seq<Seq<char>>>
    decreases sel.len(),
{
    if sel.len() == 0 {
        Some(Seq::empty())
    } else {
        match (flat_env(sel.drop_last()), str_items(sel.last().data)) {
            (Some(rest), Some(lines)) => Some(rest + lines),
            _ => None,
        }
    }
}

/// Reads a document as a list of strings.
#[verifier::loop_isolation(false)]
fn json_str_items(v: &Json) -> (r: Result<Vec<String>, CoreError>)
    ensures
        match r {
            Ok(lines) => str_items(v@) == Some(strs_view(lines@)),
            Err(e) => str_items(v@) is None && e.kind == ErrorKind::Internal,
        },
{
    match v {
        Json::Arr(items) => {
            proof {
                crate::json::lemma_jview_seq(items@);
            }
            let ghost iv = crate::json::jview_seq(items@);
            let mut out: Vec<String> = Vec::new();
            let mut i: usize = 0;
            while i < items.len()
                invariant
                    i <= items@.len(),
                    str_seq_of(iv.take(i as int)) == Some(strs_view(out@)),
                decreases items@.len() - i,
            {
                proof {
                    assert(iv.take(i + 1).drop_last() =~= iv.take(i as int));
                    assert(iv.take(i + 1).last() == iv[i as int]);
                }
                match &items[i] {
                    Json::Str(s) => {
                        let ghost pre = out@;
                        out.push(s.clone());
                        proof {
                            assert(out@.drop_last() =~= pre);
                            assert(strs_view(out@) == strs_view(pre).push(out@.last()@));
                        }
                    }
                    _ => {
                        proof {
                            lemma_str_seq_prefix_none(iv, i as int);
                        }
                        return Err(CoreError::internal(String::from_str(
                            "env secret does not hold a list of strings",
                        )));
                    }
                }
                i += 1;
            }
            proof {
                assert(iv.take(iv.len() as int) =~= iv);
            }
            Ok(out)
        }
        _ => Err(CoreError::internal(String::from_str(
            "env secret does not hold a list of strings",
        ))),
    }
}

/// Selecting rows distributes over concatenation.
proof fn lemma_env_rows_concat(a: Seq<SecretRowV>, b: Seq<SecretRowV>, wanted: Seq<String>)
    ensures
        env_rows(a + b, wanted) == env_rows(a, wanted) + env_rows(b, wanted),
    decreases b.len(),
{
    if b.len() == 0 {
        assert(a + b =~= a);
        assert(env_rows(a, wanted) + env_rows(b, wanted) =~= env_rows(a, wanted));
    } else {
        lemma_env_rows_concat(a, b.drop_last(), wanted);
        assert((a + b).drop_last() =~= a + b.drop_last());
        assert((a + b).last() == b.last());
        if seq_has_str(wanted, b.last().key) && b.last().kind == env_kind() {
            assert(env_rows(a, wanted) + env_rows(b, wanted) =~= (env_rows(a, wanted)
                + env_rows(b.drop_last(), wanted)).push(b.last()));
        }
    }
}

/// One selected row whose data is not a list of strings spoils the flatten.
proof fn lemma_flat_env_none(sel: Seq<SecretRowV>, idx: int)
    requires
        0 <= idx < sel.len(),
        str_items(sel[idx].data) is None,
    ensures
        flat_env(sel) is None,
    decreases sel.len(),
{
    if idx < sel.len() - 1 {
        lemma_flat_env_none(sel.drop_last(), idx);
    }
}

/// An array with a non-string element yields no strings.
proof fn lemma_str_seq_prefix_none(items: Seq<JsonV>, i: int)
    requires
        0 <= i < items.len(),
        !(items[i] is Str),
    ensures
        str_seq_of(items) is None,
    decreases items.len(),
{
    if i < items.len() - 1 {
        lemma_str_seq_prefix_none(items.drop_last(), i);
    }
}

impl SecretTable {
    /// An empty store.
    pub fn new() -> (r: SecretTable)
        ensures
            r.rows@.len() == 0,
    {
        SecretTable { rows: Vec::new() }
    }

    /// Flattens the env secrets a consumer references into one list of
    /// `KEY=VALUE` lines, in store order. A referenced env secret whose data
    /// is not a list of strings fails the load.
    #[verifier::loop_isolation(false)]
    pub fn load_env_secrets(&self, wanted: &Vec<String>) -> (r: Result<Vec<String>, CoreError>)
        ensures
            match r {
                Ok(lines) => flat_env(env_rows(secrets_view(self.rows@), wanted@)) == Some(
                    strs_view(lines@),
                ),
                Err(e) => flat_env(env_rows(secrets_view(self.rows@), wanted@)) is None
                    && e.kind == ErrorKind::Internal,
            },
    {
        proof {
            lemma_secrets_view(self.rows@);
        }
        let ghost rv = secrets_view(self.rows@);
        let env_kind_str = String::from_str("nanocl.io/env");
        proof {
            reveal_strlit("nanocl.io/env");
            assert(env_kind_str@ =~= env_kind());
        }
        let mut out: Vec<String> = Vec::new();
        let mut i: usize = 0;
        while i < self.rows.len()
            invariant
                i <= self.rows@.len(),
                env_kind_str@ == env_kind(),
                flat_env(env_rows(rv.take(i as int), wanted@)) == Some(strs_view(out@)),
            decreases self.rows@.len() - i,
        {
            proof {
                assert(rv.take(i + 1).drop_last() =~= rv.take(i as int));
                assert(rv.take(i + 1).last() == rv[i as int]);
                lemma_env_rows_take(rv, wanted@, i as int);
            }
            let row = &self.rows[i];
            if list_has_str(wanted, &row.key) && row.kind.eq(&env_kind_str) {
                let lines = match json_str_items(&row.data) {
                    Ok(l) => l,
                    Err(e) => {
                        proof {
                            let sel_pre = env_rows(rv.take(i as int), wanted@);
                            let sel_i = env_rows(rv.take(i + 1), wanted@);
                            assert(sel_i == sel_pre.push(rv[i as int]));
                            assert(sel_i.last() == rv[i as int]);
                            lemma_flat_env_none(sel_i, sel_i.len() - 1);
                            assert(rv =~= rv.take(i + 1) + rv.skip(i + 1));
                            lemma_env_rows_concat(rv.take(i + 1), rv.skip(i + 1), wanted@);
                            let whole = env_rows(rv, wanted@);
                            assert(whole == sel_i + env_rows(rv.skip(i + 1), wanted@));
                            assert(whole[sel_i.len() - 1] == sel_i[sel_i.len() - 1]);
                            lemma_flat_env_none(whole, sel_i.len() - 1);
                        }
                        return Err(e);
                    }
                };
                proof {
                    crate::text::lemma_strs_view(lines@);
                }
                let ghost pre = strs_view(out@);
                let mut k: usize = 0;
                while k < lines.len()
                    invariant
                        k <= lines@.len(),
                        strs_view(out@) == pre + strs_view(lines@).take(k as int),
                    decreases lines@.len() - k,
                {
                    let ghost pre_vec = out@;
                    out.push(lines[k].clone());
                    proof {
                        assert(out@.drop_last() =~= pre_vec);
                        assert(strs_view(out@) =~= strs_view(pre_vec).push(out@.last()@));
                        assert(strs_view(lines@).take(k + 1) =~= strs_view(lines@).take(
                            k as int,
                        ).push(strs_view(lines@)[k as int]));
                    }
                    k += 1;
                }
                proof {
                    assert(strs_view(lines@).take(lines@.len() as int) =~= strs_view(lines@));
                    let sel_pre = env_rows(rv.take(i as int), wanted@);
                    let sel_i = env_rows(rv.take(i + 1), wanted@);
                    assert(sel_i == sel_pre.push(rv[i as int]));
                    assert(sel_i.drop_last() =~= sel_pre);
                    assert(sel_i.last() == rv[i as int]);
                }
            }
            i += 1;
        }
        proof {
            assert(rv.take(rv.len() as int) =~= rv);
        }
        Ok(out)
    }
}

/// How selecting env rows advances over one more row.
proof fn lemma_env_rows_take(rv: Seq<SecretRowV>, wanted: Seq<String>, i: int)
    requires
        0 <= i < rv.len(),
    ensures
        env_rows(rv.take(i + 1), wanted) == if seq_has_str(wanted, rv[i].key) && rv[i].kind
            == env_kind() {
            env_rows(rv.take(i), wanted).push(rv[i])
        } else {
            env_rows(rv.take(i), wanted)
        },
{
    assert(rv.take(i + 1).drop_last() =~= rv.take(i));
    assert(rv.take(i + 1).last() == rv[i]);
}

/// The directory a consumer's TLS secrets are materialised under.
pub open spec fn secret_dir_of(
    state_dir: Seq<char>,
    kind: ProcessKind,
    key: Seq<char>,
) -> Seq<char> {
    state_dir + seq!['/', 's', 'e', 'c', 'r', 'e', 't', 's', '/'] + crate::process::kind_text(
        kind,
    ) + seq!['/'] + key
}

/// Builds the directory TLS secret files live in.
pub fn gen_secret_dir(state_dir: &str, kind: &ProcessKind, key: &str) -> (r: String)
    ensures
        r@ == secret_dir_of(state_dir@, *kind, key@),
{
    let mut out = String::new();
    out.append(state_dir);
    out.append("/secrets/");
    let kn = crate::process::kind_name(kind);
    out.append(kn.as_str());
    push_char(&mut out, '/');
    out.append(key);
    proof {
        reveal_strlit("/secrets/");
        assert(("/secrets/")@ =~= seq!['/', 's', 'e', 'c', 'r', 'e', 't', 's', '/']);
        assert(out@ =~= secret_dir_of(state_dir@, *kind, key@));
    }
    out
}

/// The files one TLS secret materialises as: its certificate and key, and
/// the client certificate when it carries one. A secret whose data lacks the
/// certificate fields yields no files; writing is best effort.
pub open spec fn tls_row_files(name: Seq<char>, data: JsonV, dir: Seq<char>) -> Seq<
    (Seq<char>, Seq<char>),
> {
    match data {
        JsonV::Obj(fields) => {
            let cert = crate::json::field_lookup(
                fields,
                seq!['c', 'e', 'r', 't', 'i', 'f', 'i', 'c', 'a', 't', 'e'],
            );
            let key = crate::json::field_lookup(
                fields,
                seq!['c', 'e', 'r', 't', 'i', 'f', 'i', 'c', 'a', 't', 'e', '_', 'k', 'e', 'y'],
            );
            let client = crate::json::field_lookup(
                fields,
                seq!['c', 'e', 'r', 't', 'i', 'f', 'i', 'c', 'a', 't', 'e', '_', 'c', 'l', 'i',
                    'e', 'n', 't'],
            );
            match (cert, key) {
                (Some(JsonV::Str(c)), Some(JsonV::Str(k))) => {
                    let base = seq![
                        (dir + seq!['/'] + name + seq!['.', 'c', 'r', 't'], c),
                        (dir + seq!['/'] + name + seq!['.', 'k', 'e', 'y'], k),
                    ];
                    match client {
                        Some(JsonV::Str(ca)) => base.push(
                            (dir + seq!['/'] + name + seq!['.', 'c', 'a'], ca),
                        ),
                        _ => base,
                    }
                }
                _ => Seq::empty(),
            }
        }
        _ => Seq::empty(),
    }
}

/// Materialises one TLS secret as files to write under the secret directory.
pub fn plan_tls_files(name: &str, data: &Json, dir: &str) -> (files: Vec<(String, String)>)
    ensures
        crate::text::pairs_view(files@) == tls_row_files(name@, data@, dir@),
{
    let cert_key = String::from_str("certificate");
    let key_key = String::from_str("certificate_key");
    let client_key = String::from_str("certificate_client");
    proof {
        reveal_strlit("certificate");
        reveal_strlit("certificate_key");
        reveal_strlit("certificate_client");
        assert(cert_key@ =~= seq!['c', 'e', 'r', 't', 'i', 'f', 'i', 'c', 'a', 't', 'e']);
        assert(key_key@ =~= seq!['c', 'e', 'r', 't', 'i', 'f', 'i', 'c', 'a', 't', 'e', '_',
            'k', 'e', 'y']);
        assert(client_key@ =~= seq!['c', 'e', 'r', 't', 'i', 'f', 'i', 'c', 'a', 't', 'e', '_',
            'c', 'l', 'i', 'e', 'n', 't']);
    }
    let mut files: Vec<(String, String)> = Vec::new();
    let fields = match data {
        Json::Obj(fields) => fields,
        _ => {
            proof {
                crate::text::lemma_pairs_view(files@);
                assert(crate::text::pairs_view(files@) =~= tls_row_files(name@, data@, dir@));
            }
            return files;
        }
    };
    let cert = crate::json::obj_get(fields, &cert_key);
    let key = crate::json::obj_get(fields, &key_key);
    let client = crate::json::obj_get(fields, &client_key);
    match (cert, key) {
        (Some(Json::Str(c)), Some(Json::Str(k))) => {
            let mut base = String::new();
            base.append(dir);
            push_char(&mut base, '/');
            base.append(name);
            let mut crt_path = base.clone();
            crt_path.append(".crt");
            let mut key_path = base.clone();
            key_path.append(".key");
            proof {
                reveal_strlit(".crt");
                reveal_strlit(".key");
            }
            proof {
                assert(crt_path@ =~= dir@ + seq!['/'] + name@ + seq!['.', 'c', 'r', 't']);
                assert(key_path@ =~= dir@ + seq!['/'] + name@ + seq!['.', 'k', 'e', 'y']);
            }
            files.push((crt_path, c.clone()));
            files.push((key_path, k.clone()));
            match client {
                Some(Json::Str(ca)) => {
                    let mut ca_path = base.clone();
                    ca_path.append(".ca");
                    proof {
                        reveal_strlit(".ca");
                        assert(ca_path@ =~= dir@ + seq!['/'] + name@ + seq!['.', 'c', 'a']);
                    }
                    files.push((ca_path, ca.clone()));
                }
                Some(_) => {}
                None => {}
            }
            proof {
                crate::text::lemma_pairs_view(files@);
                assert(crate::text::pairs_view(files@) =~= tls_row_files(name@, data@, dir@));
            }
            files
        }
        _ => {
            proof {
                crate::text::lemma_pairs_view(files@);
                assert(crate::text::pairs_view(files@) =~= tls_row_files(name@, data@, dir@));
            }
            files
        }
    }
}

} // verus!
