//! The grammar of object keys and process names.
//!
//! An object living in a namespace is keyed `<name>.<namespace>`; a job is
//! keyed by its name alone. An engine process is named
//! `<stem>-<6-alnum>.<namespace>.<kind tag>` with tag `c`, `j` or `v`; the
//! init container of a cargo is named `init-<stem>-<6-alnum>.<namespace>.c`;
//! a process flagged for deletion during an update is renamed `tmp-<name>`.

use vstd::prelude::*;

use crate::text::{dec_rep, is_prefix, push_char, u64_to_dec};

verus! {

/// The kind of object an engine process belongs to.
#[derive(Clone, Copy, PartialEq, Eq, Structural, Debug)]
pub enum ProcessKind {
    Cargo,
    Job,
    Vm,
}

impl ProcessKind {
    /// The one-letter tag the kind appends to process names.
    pub open spec fn tag(self) -> char {
        match self {
            ProcessKind::Cargo => 'c',
            ProcessKind::Job => 'j',
            ProcessKind::Vm => 'v',
        }
    }

    /// The tag as a character.
    pub fn tag_char(&self) -> (c: char)
        ensures
            c == self.tag(),
    {
        match self {
            ProcessKind::Cargo => 'c',
            ProcessKind::Job => 'j',
            ProcessKind::Vm => 'v',
        }
    }
}

/// The key of a namespaced object.
pub open spec fn key_of(name: Seq<char>, namespace: Seq<char>) -> Seq<char> {
    name + seq!['.'] + namespace
}

/// The namespace a request resolves to: the one given, or `global`.
pub open spec fn resolved_nsp(namespace: Option<Seq<char>>) -> Seq<char> {
    match namespace {
        Some(ns) => ns,
        None => seq!['g', 'l', 'o', 'b', 'a', 'l'],
    }
}

/// The key an operation on a kind of object addresses: jobs are keyed by
/// name, cargoes and virtual machines by `<name>.<namespace>`.
pub open spec fn kind_key_of(
    kind: ProcessKind,
    name: Seq<char>,
    namespace: Option<Seq<char>>,
) -> Seq<char> {
    match kind {
        ProcessKind::Job => name,
        _ => key_of(name, resolved_nsp(namespace)),
    }
}

/// The name of an engine process.
pub open spec fn process_name_of(
    stem: Seq<char>,
    suffix: Seq<char>,
    namespace: Seq<char>,
    kind: ProcessKind,
) -> Seq<char> {
    stem + seq!['-'] + suffix + seq!['.'] + namespace + seq!['.', kind.tag()]
}

/// The name of a cargo's init container.
pub open spec fn init_name_of(stem: Seq<char>, suffix: Seq<char>, namespace: Seq<char>) -> Seq<
    char,
> {
    seq!['i', 'n', 'i', 't', '-'] + process_name_of(stem, suffix, namespace, ProcessKind::Cargo)
}

/// The name a process carries while it is flagged for deletion.
pub open spec fn tmp_name_of(name: Seq<char>) -> Seq<char> {
    seq!['t', 'm', 'p', '-'] + name
}

/// Whether a name is a `tmp-` name.
pub open spec fn is_tmp_name(name: Seq<char>) -> bool {
    is_prefix(seq!['t', 'm', 'p', '-'], name)
}

/// Whether a character may stand in a random name suffix.
pub open spec fn is_alnum(c: char) -> bool {
    ('a' <= c && c <= 'z') || ('A' <= c && c <= 'Z') || ('0' <= c && c <= '9')
}

/// Whether a string is a six-character alphanumeric suffix.
pub open spec fn is_valid_suffix(s: Seq<char>) -> bool {
    s.len() == 6 && forall|i: int| 0 <= i < s.len() ==> is_alnum(#[trigger] s[i])
}

/// Builds the key of a namespaced object.
pub fn gen_key(namespace: &str, name: &str) -> (r: String)
    ensures
        r@ == key_of(name@, namespace@),
{
    let mut out = String::new();
    out.append(name);
    push_char(&mut out, '.');
    out.append(namespace);
    proof {
        assert(out@ =~= key_of(name@, namespace@));
    }
    out
}

/// Resolves an optional namespace to the one addressed: `global` when none
/// is given.
pub fn resolve_nsp(namespace: &Option<String>) -> (r: String)
    ensures
        r@ == resolved_nsp(match namespace {
            Some(ns) => Some(ns@),
            None => None,
        }),
{
    match namespace {
        Some(ns) => ns.clone(),
        None => {
            let r = String::from_str("global");
            proof {
                reveal_strlit("global");
                assert(r@ =~= seq!['g', 'l', 'o', 'b', 'a', 'l']);
            }
            r
        }
    }
}

/// Builds the key an operation on `kind`/`name` addresses.
pub fn gen_kind_key(kind: &ProcessKind, name: &str, namespace: &Option<String>) -> (r: String)
    ensures
        r@ == kind_key_of(*kind, name@, match namespace {
            Some(ns) => Some(ns@),
            None => None,
        }),
{
    match kind {
        ProcessKind::Job => name.to_owned(),
        _ => {
            let nsp = resolve_nsp(namespace);
            gen_key(nsp.as_str(), name)
        }
    }
}

/// Builds an engine process name from its parts.
pub fn gen_process_name(stem: &str, suffix: &str, namespace: &str, kind: &ProcessKind) -> (r:
    String)
    ensures
        r@ == process_name_of(stem@, suffix@, namespace@, *kind),
{
    let mut out = String::new();
    out.append(stem);
    push_char(&mut out, '-');
    out.append(suffix);
    push_char(&mut out, '.');
    out.append(namespace);
    push_char(&mut out, '.');
    push_char(&mut out, kind.tag_char());
    proof {
        assert(out@ =~= process_name_of(stem@, suffix@, namespace@, *kind));
    }
    out
}

/// Builds the name of a cargo's init container.
pub fn gen_init_name(stem: &str, suffix: &str, namespace: &str) -> (r: String)
    ensures
        r@ == init_name_of(stem@, suffix@, namespace@),
{
    let mut out = String::from_str("init-");
    let rest = gen_process_name(stem, suffix, namespace, &ProcessKind::Cargo);
    out.append(rest.as_str());
    proof {
        reveal_strlit("init-");
        assert(out@ =~= init_name_of(stem@, suffix@, namespace@));
    }
    out
}

/// Builds the `tmp-` name a process is renamed to during an update.
pub fn gen_tmp_name(name: &str) -> (r: String)
    ensures
        r@ == tmp_name_of(name@),
{
    let mut out = String::from_str("tmp-");
    out.append(name);
    proof {
        reveal_strlit("tmp-");
        assert(out@ =~= tmp_name_of(name@));
    }
    out
}

/// Decides whether a name is a `tmp-` name.
pub fn check_tmp_name(name: &str) -> (r: bool)
    ensures
        r == is_tmp_name(name@),
{
    let r = crate::text::has_prefix(name, "tmp-");
    proof {
        reveal_strlit("tmp-");
        assert(("tmp-")@ =~= seq!['t', 'm', 'p', '-']);
    }
    r
}

/// Decides whether a string may serve as a random name suffix.
#[verifier::loop_isolation(false)]
pub fn check_suffix(s: &str) -> (r: bool)
    ensures
        r == is_valid_suffix(s@),
{
    let n = s.unicode_len();
    if n != 6 {
        return false;
    }
    let mut i: usize = 0;
    while i < n
        invariant
            i <= n,
            n == s@.len(),
            forall|k: int| 0 <= k < i ==> is_alnum(#[trigger] s@[k]),
        decreases n - i,
    {
        let c = s.get_char(i);
        let ok = ('a' <= c && c <= 'z') || ('A' <= c && c <= 'Z') || ('0' <= c && c <= '9');
        if !ok {
            proof {
                assert(!is_alnum(s@[i as int]));
            }
            return false;
        }
        i += 1;
    }
    true
}

/// The hostname of a cargo replica: the replica ordinal before the base
/// name, omitted for the first replica.
pub open spec fn replica_hostname_of(base: Seq<char>, ordinal: nat) -> Seq<char> {
    if ordinal == 0 {
        base
    } else {
        dec_rep(ordinal) + base
    }
}

/// Builds the hostname of a cargo replica.
pub fn gen_replica_hostname(base: &str, ordinal: u64) -> (r: String)
    ensures
        r@ == replica_hostname_of(base@, ordinal as nat),
{
    if ordinal == 0 {
        base.to_owned()
    } else {
        let mut out = u64_to_dec(ordinal);
        out.append(base);
        out
    }
}

} // verus!
