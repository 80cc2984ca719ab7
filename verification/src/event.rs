//! Domain events: what the daemon reports about an object, and the
//! newline-delimited JSON line each event crosses the wire as.

use vstd::prelude::*;

use crate::json::{Json, JsonV};
use crate::json_text::{lemma_text_no_nl, text_of, to_text};
use crate::text::push_char;

verus! {

/// The severity of an event.
#[derive(Clone, Copy, PartialEq, Eq, Structural, Debug)]
pub enum EventKind {
    Normal,
    Warning,
    Error,
}

/// What kind of object an event speaks about.
#[derive(Clone, Copy, PartialEq, Eq, Structural, Debug)]
pub enum EventActorKind {
    Cargo,
    Job,
    Vm,
    Resource,
    Secret,
    Namespace,
    Process,
    ContainerImage,
}

/// The object an event speaks about.
pub struct EventActor {
    pub key: String,
    pub kind: EventActorKind,
    pub attributes: Option<Json>,
}

/// A domain event.
pub struct Event {
    pub kind: EventKind,
    pub action: String,
    pub reason: String,
    pub reporting_controller: String,
    pub reporting_node: String,
    pub actor: Option<EventActor>,
    pub related: Option<EventActor>,
    pub note: Option<String>,
    pub metadata: Option<Json>,
    pub at: u64,
}

/// The wire name of an event kind.
pub open spec fn event_kind_text(k: EventKind) -> Seq<char> {
    match k {
        EventKind::Normal => seq!['N', 'o', 'r', 'm', 'a', 'l'],
        EventKind::Warning => seq!['W', 'a', 'r', 'n', 'i', 'n', 'g'],
        EventKind::Error => seq!['E', 'r', 'r', 'o', 'r'],
    }
}

/// The wire name of an actor kind.
pub open spec fn actor_kind_text(k: EventActorKind) -> Seq<char> {
    match k {
        EventActorKind::Cargo => seq!['C', 'a', 'r', 'g', 'o'],
        EventActorKind::Job => seq!['J', 'o', 'b'],
        EventActorKind::Vm => seq!['V', 'm'],
        EventActorKind::Resource => seq!['R', 'e', 's', 'o', 'u', 'r', 'c', 'e'],
        EventActorKind::Secret => seq!['S', 'e', 'c', 'r', 'e', 't'],
        EventActorKind::Namespace => seq!['N', 'a', 'm', 'e', 's', 'p', 'a', 'c', 'e'],
        EventActorKind::Process => seq!['P', 'r', 'o', 'c', 'e', 's', 's'],
        EventActorKind::ContainerImage => seq!['C', 'o', 'n', 't', 'a', 'i', 'n', 'e', 'r', 'I',
            'm', 'a', 'g', 'e'],
    }
}

/// The JSON document of an optional sub-document: `null` when absent.
pub open spec fn opt_json(o: Option<Json>) -> JsonV {
    match o {
        Some(j) => j@,
        None => JsonV::Null,
    }
}

/// The JSON document of an optional string: `null` when absent.
pub open spec fn opt_str_json(o: Option<String>) -> JsonV {
    match o {
        Some(s) => JsonV::Str(s@),
        None => JsonV::Null,
    }
}

/// The JSON document of an actor.
pub open spec fn actor_json(a: EventActor) -> JsonV {
    JsonV::Obj(
        seq![
            (seq!['K', 'e', 'y'], JsonV::Str(a.key@)),
            (seq!['K', 'i', 'n', 'd'], JsonV::Str(actor_kind_text(a.kind))),
            (seq!['A', 't', 't', 'r', 'i', 'b', 'u', 't', 'e', 's'], opt_json(a.attributes)),
        ],
    )
}

/// The JSON document of an optional actor: `null` when absent.
pub open spec fn opt_actor_json(o: Option<EventActor>) -> JsonV {
    match o {
        Some(a) => actor_json(a),
        None => JsonV::Null,
    }
}

/// The JSON document of an event.
pub open spec fn event_json(e: Event) -> JsonV {
    JsonV::Obj(
        seq![
            (seq!['K', 'i', 'n', 'd'], JsonV::Str(event_kind_text(e.kind))),
            (seq!['A', 'c', 't', 'i', 'o', 'n'], JsonV::Str(e.action@)),
            (seq!['R', 'e', 'a', 's', 'o', 'n'], JsonV::Str(e.reason@)),
            (
                seq!['R', 'e', 'p', 'o', 'r', 't', 'i', 'n', 'g', 'C', 'o', 'n', 't', 'r', 'o',
                    'l', 'l', 'e', 'r'],
                JsonV::Str(e.reporting_controller@),
            ),
            (
                seq!['R', 'e', 'p', 'o', 'r', 't', 'i', 'n', 'g', 'N', 'o', 'd', 'e'],
                JsonV::Str(e.reporting_node@),
            ),
            (seq!['A', 'c', 't', 'o', 'r'], opt_actor_json(e.actor)),
            (seq!['R', 'e', 'l', 'a', 't', 'e', 'd'], opt_actor_json(e.related)),
            (seq!['N', 'o', 't', 'e'], opt_str_json(e.note)),
            (seq!['M', 'e', 't', 'a', 'd', 'a', 't', 'a'], opt_json(e.metadata)),
            (seq!['A', 't'], JsonV::Num(e.at as int)),
        ],
    )
}

/// The line an event crosses the wire as: its JSON text and a newline.
pub open spec fn event_line_of(e: Event) -> Seq<char> {
    text_of(event_json(e)) + seq!['\n']
}

fn opt_json_doc(o: &Option<Json>) -> (r: Json)
    ensures
        r@ == opt_json(*o),
{
    match o {
        Some(j) => j.deep_copy(),
        None => Json::Null,
    }
}

fn actor_doc(a: &EventActor) -> (r: Json)
    ensures
        r@ == actor_json(*a),
{
    let mut fields: Vec<(String, Json)> = Vec::new();
    let kind_text = match a.kind {
        EventActorKind::Cargo => String::from_str("Cargo"),
        EventActorKind::Job => String::from_str("Job"),
        EventActorKind::Vm => String::from_str("Vm"),
        EventActorKind::Resource => String::from_str("Resource"),
        EventActorKind::Secret => String::from_str("Secret"),
        EventActorKind::Namespace => String::from_str("Namespace"),
        EventActorKind::Process => String::from_str("Process"),
        EventActorKind::ContainerImage => String::from_str("ContainerImage"),
    };
    proof {
        reveal_strlit("Cargo");
        reveal_strlit("Job");
        reveal_strlit("Vm");
        reveal_strlit("Resource");
        reveal_strlit("Secret");
        reveal_strlit("Namespace");
        reveal_strlit("Process");
        reveal_strlit("ContainerImage");
        assert(kind_text@ =~= actor_kind_text(a.kind));
    }
    fields.push((String::from_str("Key"), Json::Str(a.key.clone())));
    fields.push((String::from_str("Kind"), Json::Str(kind_text)));
    fields.push((String::from_str("Attributes"), opt_json_doc(&a.attributes)));
    proof {
        reveal_strlit("Key");
        reveal_strlit("Kind");
        reveal_strlit("Attributes");
        crate::json::lemma_jview_fields(fields@);
        assert(("Key")@ =~= seq!['K', 'e', 'y']);
        assert(("Kind")@ =~= seq!['K', 'i', 'n', 'd']);
        assert(("Attributes")@ =~= seq!['A', 't', 't', 'r', 'i', 'b', 'u', 't', 'e', 's']);
        assert(crate::json::jview_fields(fields@) =~~= actor_json(*a)->Obj_0);
    }
    Json::Obj(fields)
}

fn opt_actor_doc(o: &Option<EventActor>) -> (r: Json)
    ensures
        r@ == opt_actor_json(*o),
{
    match o {
        Some(a) => actor_doc(a),
        None => Json::Null,
    }
}

fn opt_str_doc(o: &Option<String>) -> (r: Json)
    ensures
        r@ == opt_str_json(*o),
{
    match o {
        Some(s) => Json::Str(s.clone()),
        None => Json::Null,
    }
}

impl Event {
    /// The event as a JSON document.
    pub fn to_json(&self) -> (r: Json)
        requires
            self.at <= i64::MAX as u64,
        ensures
            r@ == event_json(*self),
    {
        let mut fields: Vec<(String, Json)> = Vec::new();
        let kind_text = match self.kind {
            EventKind::Normal => String::from_str("Normal"),
            EventKind::Warning => String::from_str("Warning"),
            EventKind::Error => String::from_str("Error"),
        };
        proof {
            reveal_strlit("Normal");
            reveal_strlit("Warning");
            reveal_strlit("Error");
            assert(kind_text@ =~= event_kind_text(self.kind));
        }
        fields.push((String::from_str("Kind"), Json::Str(kind_text)));
        fields.push((String::from_str("Action"), Json::Str(self.action.clone())));
        fields.push((String::from_str("Reason"), Json::Str(self.reason.clone())));
        fields.push((
            String::from_str("ReportingController"),
            Json::Str(self.reporting_controller.clone()),
        ));
        fields.push((String::from_str("ReportingNode"), Json::Str(self.reporting_node.clone())));
        fields.push((String::from_str("Actor"), opt_actor_doc(&self.actor)));
        fields.push((String::from_str("Related"), opt_actor_doc(&self.related)));
        fields.push((String::from_str("Note"), opt_str_doc(&self.note)));
        fields.push((String::from_str("Metadata"), opt_json_doc(&self.metadata)));
        fields.push((String::from_str("At"), Json::Num(self.at as i64)));
        proof {
            reveal_strlit("Kind");
            reveal_strlit("Action");
            reveal_strlit("Reason");
            reveal_strlit("ReportingController");
            reveal_strlit("ReportingNode");
            reveal_strlit("Actor");
            reveal_strlit("Related");
            reveal_strlit("Note");
            reveal_strlit("Metadata");
            reveal_strlit("At");
            crate::json::lemma_jview_fields(fields@);
            assert(("Kind")@ =~= seq!['K', 'i', 'n', 'd']);
            assert(("Action")@ =~= seq!['A', 'c', 't', 'i', 'o', 'n']);
            assert(("Reason")@ =~= seq!['R', 'e', 'a', 's', 'o', 'n']);
            assert(("ReportingController")@ =~= seq!['R', 'e', 'p', 'o', 'r', 't', 'i', 'n', 'g',
                'C', 'o', 'n', 't', 'r', 'o', 'l', 'l', 'e', 'r']);
            assert(("ReportingNode")@ =~= seq!['R', 'e', 'p', 'o', 'r', 't', 'i', 'n', 'g', 'N',
                'o', 'd', 'e']);
            assert(("Actor")@ =~= seq!['A', 'c', 't', 'o', 'r']);
            assert(("Related")@ =~= seq!['R', 'e', 'l', 'a', 't', 'e', 'd']);
            assert(("Note")@ =~= seq!['N', 'o', 't', 'e']);
            assert(("Metadata")@ =~= seq!['M', 'e', 't', 'a', 'd', 'a', 't', 'a']);
            assert(("At")@ =~= seq!['A', 't']);
            assert(crate::json::jview_fields(fields@) =~~= event_json(*self)->Obj_0);
        }
        Json::Obj(fields)
    }

    /// The event's wire line: its JSON text, newline-terminated, with no
    /// newline before the final one.
    pub fn to_line(&self) -> (line: String)
        requires
            self.at <= i64::MAX as u64,
        ensures
            line@ == event_line_of(*self),
            line@.len() > 0,
            line@.last() == '\n',
            forall|i: int| 0 <= i < line@.len() - 1 ==> line@[i] != '\n',
    {
        let doc = self.to_json();
        let mut line = to_text(&doc);
        push_char(&mut line, '\n');
        proof {
            assert(line@ =~= event_line_of(*self));
            lemma_text_no_nl(event_json(*self));
        }
        line
    }
}

} // verus!
