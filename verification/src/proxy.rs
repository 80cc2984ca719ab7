//! The in-process proxy controller's reactions: which daemon events make it
//! rewrite or drop its rules, and the bootstrap records it keeps registered.

use vstd::prelude::*;

use crate::errors::{CoreError, ErrorKind};
use crate::json::{Json, JsonV};
use crate::json_text::{text_of, to_text};
use crate::resource::ResourcePartial;

verus! {

/// A daemon event as the proxy controller reads it.
pub enum ProxyEvent {
    CargoStarted { name: String, namespace: String },
    CargoPatched { name: String, namespace: String },
    CargoStopped { name: String, namespace: String },
    CargoDeleted { name: String, namespace: String },
    ResourceCreated { name: String, kind: String },
    ResourcePatched { name: String, kind: String },
    ResourceDeleted { name: String, kind: String },
    Other,
}

/// What the controller does about an event.
pub enum RuleAction {
    UpdateCargoRules { name: String, namespace: String },
    DeleteCargoRules { name: String, namespace: String },
    UpdateResourceRule { name: String },
    DeleteResourceRule { name: String },
    Ignore,
}

/// The kind of resource the proxy owns.
pub open spec fn proxy_rule_kind() -> Seq<char> {
    seq!['P', 'r', 'o', 'x', 'y', 'R', 'u', 'l', 'e']
}

/// Decides the controller's reaction: a started or patched cargo has its
/// rules rewritten, a stopped or deleted one loses them; a resource event
/// matters only for the kind the proxy owns.
pub fn on_proxy_event(e: ProxyEvent) -> (r: RuleAction)
    ensures
        match e {
            ProxyEvent::CargoStarted { name, namespace } => r == (RuleAction::UpdateCargoRules {
                name,
                namespace,
            }),
            ProxyEvent::CargoPatched { name, namespace } => r == (RuleAction::UpdateCargoRules {
                name,
                namespace,
            }),
            ProxyEvent::CargoStopped { name, namespace } => r == (RuleAction::DeleteCargoRules {
                name,
                namespace,
            }),
            ProxyEvent::CargoDeleted { name, namespace } => r == (RuleAction::DeleteCargoRules {
                name,
                namespace,
            }),
            ProxyEvent::ResourceCreated { name, kind } => if kind@ == proxy_rule_kind() {
                r == (RuleAction::UpdateResourceRule { name })
            } else {
                r == RuleAction::Ignore
            },
            ProxyEvent::ResourcePatched { name, kind } => if kind@ == proxy_rule_kind() {
                r == (RuleAction::UpdateResourceRule { name })
            } else {
                r == RuleAction::Ignore
            },
            ProxyEvent::ResourceDeleted { name, kind } => if kind@ == proxy_rule_kind() {
                r == (RuleAction::DeleteResourceRule { name })
            } else {
                r == RuleAction::Ignore
            },
            ProxyEvent::Other => r == RuleAction::Ignore,
        },
{
    let rule_kind = String::from_str("ProxyRule");
    proof {
        reveal_strlit("ProxyRule");
        assert(rule_kind@ =~= proxy_rule_kind());
    }
    match e {
        ProxyEvent::CargoStarted { name, namespace } => RuleAction::UpdateCargoRules {
            name,
            namespace,
        },
        ProxyEvent::CargoPatched { name, namespace } => RuleAction::UpdateCargoRules {
            name,
            namespace,
        },
        ProxyEvent::CargoStopped { name, namespace } => RuleAction::DeleteCargoRules {
            name,
            namespace,
        },
        ProxyEvent::CargoDeleted { name, namespace } => RuleAction::DeleteCargoRules {
            name,
            namespace,
        },
        ProxyEvent::ResourceCreated { name, kind } => {
            if kind.eq(&rule_kind) {
                RuleAction::UpdateResourceRule { name }
            } else {
                RuleAction::Ignore
            }
        }
        ProxyEvent::ResourcePatched { name, kind } => {
            if kind.eq(&rule_kind) {
                RuleAction::UpdateResourceRule { name }
            } else {
                RuleAction::Ignore
            }
        }
        ProxyEvent::ResourceDeleted { name, kind } => {
            if kind.eq(&rule_kind) {
                RuleAction::DeleteResourceRule { name }
            } else {
                RuleAction::Ignore
            }
        }
        ProxyEvent::Other => RuleAction::Ignore,
    }
}

/// The query selecting the registered kind record carrying a name: kind
/// `Kind`, containment on `{"Name": <kind>}`.
pub struct ResourceQuery {
    pub kind: Option<String>,
    pub contains: Option<String>,
}

/// Builds the query for one registered kind.
pub fn resource_kind_query(kind: &String) -> (q: ResourceQuery)
    ensures
        q.kind is Some && q.kind->0@ == seq!['K', 'i', 'n', 'd'],
        q.contains is Some && q.contains->0@ == text_of(
            JsonV::Obj(seq![(seq!['N', 'a', 'm', 'e'], JsonV::Str(kind@))]),
        ),
{
    let kind_lit = String::from_str("Kind");
    let mut fields: Vec<(String, Json)> = Vec::new();
    fields.push((String::from_str("Name"), Json::Str(kind.clone())));
    let doc = Json::Obj(fields);
    proof {
        reveal_strlit("Kind");
        reveal_strlit("Name");
        assert(kind_lit@ =~= seq!['K', 'i', 'n', 'd']);
        assert(("Name")@ =~= seq!['N', 'a', 'm', 'e']);
        crate::json::lemma_jview_fields(doc->Obj_0@);
        assert(crate::json::jview_fields(doc->Obj_0@) =~= seq![
            (seq!['N', 'a', 'm', 'e'], JsonV::Str(kind@)),
        ]);
    }
    let contains = to_text(&doc);
    ResourceQuery { kind: Some(kind_lit), contains: Some(contains) }
}

/// A create answered with a conflict means the record already stands: the
/// bootstrap treats that as success.
pub fn bootstrap_conflict_is_ok(e: &CoreError) -> (r: bool)
    ensures
        r == (e.kind == ErrorKind::Conflict),
{
    matches!(e.kind, ErrorKind::Conflict)
}

/// The bootstrap records the proxy registers at start: its own rule kind and
/// the DNS rule kind, both delegating to the controller socket.
pub fn bootstrap_rule_kinds(controller_url: &String) -> (r: Vec<ResourcePartial>)
    ensures
        r@.len() == 2,
        r@[0].kind@ == seq!['K', 'i', 'n', 'd'],
        r@[0].name@ == proxy_rule_kind(),
        r@[1].kind@ == seq!['K', 'i', 'n', 'd'],
        r@[1].name@ == seq!['D', 'n', 's', 'R', 'u', 'l', 'e'],
        forall|i: int| 0 <= i < 2 ==> (#[trigger] r@[i]).config.jget(seq!['U', 'r', 'l'])
            == Some(JsonV::Str(controller_url@)),
        forall|i: int| 0 <= i < 2 ==> (#[trigger] r@[i]).version@ == seq!['v', '1', '.', '0'],
{
    let mut out: Vec<ResourcePartial> = Vec::new();
    let mut fields1: Vec<(String, Json)> = Vec::new();
    fields1.push((String::from_str("Url"), Json::Str(controller_url.clone())));
    let config1 = Json::Obj(fields1);
    let mut fields2: Vec<(String, Json)> = Vec::new();
    fields2.push((String::from_str("Url"), Json::Str(controller_url.clone())));
    let config2 = Json::Obj(fields2);
    proof {
        reveal_strlit("Url");
        reveal_strlit("Kind");
        reveal_strlit("ProxyRule");
        reveal_strlit("DnsRule");
        reveal_strlit("v1.0");
        crate::json::lemma_jview_fields(config1->Obj_0@);
        crate::json::lemma_jview_fields(config2->Obj_0@);
        assert(("Url")@ =~= seq!['U', 'r', 'l']);
        assert(("Kind")@ =~= seq!['K', 'i', 'n', 'd']);
        assert(("ProxyRule")@ =~= proxy_rule_kind());
        assert(("DnsRule")@ =~= seq!['D', 'n', 's', 'R', 'u', 'l', 'e']);
        assert(("v1.0")@ =~= seq!['v', '1', '.', '0']);
    }
    out.push(ResourcePartial {
        name: String::from_str("ProxyRule"),
        kind: String::from_str("Kind"),
        version: String::from_str("v1.0"),
        config: config1,
    });
    out.push(ResourcePartial {
        name: String::from_str("DnsRule"),
        kind: String::from_str("Kind"),
        version: String::from_str("v1.0"),
        config: config2,
    });
    out
}

} // verus!
