//! What comes back from the container engine, and what the core decides on
//! it: wait results, image references, and the pull-progress events.

use vstd::prelude::*;

use crate::errors::{CoreError, ErrorKind};
use crate::event::{Event, EventActor, EventActorKind, EventKind};
use crate::json::Json;
use crate::text::{dec_rep_signed, i64_to_dec, push_char};

verus! {

/// What waiting on a container answered: its exit code, and the engine's
/// error note when it carries one.
pub struct WaitResult {
    pub status_code: i64,
    pub error_message: Option<String>,
}

/// The note an interrupted init container surfaces: the engine's error — or
/// `Unknown error` — and the exit code.
pub open spec fn init_error_note(w: WaitResult) -> Seq<char> {
    let base = match w.error_message {
        Some(m) => m@,
        None => seq!['U', 'n', 'k', 'n', 'o', 'w', 'n', ' ', 'e', 'r', 'r', 'o', 'r'],
    };
    base + seq![' '] + dec_rep_signed(w.status_code as int)
}

/// Judges an init container's wait result: a zero exit lets the lifecycle go
/// on; anything else interrupts it.
pub fn init_wait_outcome(w: &WaitResult) -> (r: Result<(), CoreError>)
    ensures
        w.status_code == 0 <==> r is Ok,
        r is Err ==> r->Err_0.kind == ErrorKind::Interrupted && r->Err_0.msg@
            == init_error_note(*w),
{
    if w.status_code == 0 {
        return Ok(());
    }
    let mut msg = match &w.error_message {
        Some(m) => m.clone(),
        None => {
            let m = String::from_str("Unknown error");
            proof {
                reveal_strlit("Unknown error");
                assert(m@ =~= seq!['U', 'n', 'k', 'n', 'o', 'w', 'n', ' ', 'e', 'r', 'r', 'o',
                    'r']);
            }
            m
        }
    };
    push_char(&mut msg, ' ');
    let code = i64_to_dec(w.status_code);
    msg.append(code.as_str());
    proof {
        assert(msg@ =~= init_error_note(*w));
    }
    Err(CoreError::interrupted(msg))
}

/// One item of an engine wait stream: the container finished, the engine
/// reported a wait error with an exit code, or the transport itself failed.
pub enum WaitStreamItem {
    Done(WaitResult),
    WaitError { code: i64, message: String },
    TransportError(String),
}

/// What one waited process answers on the wire.
pub struct ProcessWaitResponse {
    pub process_name: String,
    pub status_code: i64,
    pub error_message: Option<String>,
}

/// Maps a wait-stream item onto the wire response for one process: a wait
/// error still answers, with its code and note; only a transport failure
/// aborts the stream.
pub fn wait_response_from(name: &String, item: WaitStreamItem) -> (r: Result<
    ProcessWaitResponse,
    CoreError,
>)
    ensures
        match item {
            WaitStreamItem::Done(w) => {
                &&& r is Ok
                &&& r->Ok_0.process_name@ == name@
                &&& r->Ok_0.status_code == w.status_code
                &&& (match (r->Ok_0.error_message, w.error_message) {
                    (Some(a), Some(b)) => a@ == b@,
                    (None, None) => true,
                    _ => false,
                })
            }
            WaitStreamItem::WaitError { code, message } => {
                &&& r is Ok
                &&& r->Ok_0.process_name@ == name@
                &&& r->Ok_0.status_code == code
                &&& r->Ok_0.error_message is Some && r->Ok_0.error_message->0@ == message@
            }
            WaitStreamItem::TransportError(m) => r is Err && r->Err_0.kind
                == ErrorKind::Internal && r->Err_0.msg@ == m@,
        },
{
    match item {
        WaitStreamItem::Done(w) => Ok(ProcessWaitResponse {
            process_name: name.clone(),
            status_code: w.status_code,
            error_message: w.error_message,
        }),
        WaitStreamItem::WaitError { code, message } => Ok(ProcessWaitResponse {
            process_name: name.clone(),
            status_code: code,
            error_message: Some(message),
        }),
        WaitStreamItem::TransportError(m) => Err(CoreError::internal(m)),
    }
}

/// The position after the last colon of a reference, if any colon stands in
/// it.
pub open spec fn last_colon(s: Seq<char>) -> Option<int>
    decreases s.len(),
{
    if s.len() == 0 {
        None
    } else if s.last() == ':' {
        Some(s.len() - 1)
    } else {
        last_colon(s.drop_last())
    }
}

/// Splits an image reference into name and tag: the part after the last
/// colon is the tag, `latest` when no colon stands in the reference. An
/// empty name or tag is rejected.
#[verifier::loop_isolation(false)]
pub fn parse_image_name(s: &str) -> (r: Result<(String, String), CoreError>)
    ensures
        match r {
            Ok(parts) => match last_colon(s@) {
                Some(i) => i > 0 && i + 1 < s@.len() && parts.0@ == s@.take(i) && parts.1@
                    == s@.skip(i + 1),
                None => s@.len() > 0 && parts.0@ == s@ && parts.1@ == seq!['l', 'a', 't', 'e',
                    's', 't'],
            },
            Err(e) => {
                &&& e.kind == ErrorKind::BadRequest
                &&& (match last_colon(s@) {
                    Some(i) => i == 0 || i + 1 == s@.len(),
                    None => s@.len() == 0,
                })
            },
        },
{
    let n = s.unicode_len();
    let mut i: usize = n;
    while i > 0
        invariant
            i <= n,
            n == s@.len(),
            forall|k: int| i <= k < n ==> s@[k] != ':',
        decreases i,
    {
        let idx = i - 1;
        if s.get_char(idx) == ':' {
            proof {
                lemma_last_colon_at(s@, idx as int);
            }
            if idx == 0 || idx + 1 == n {
                return Err(CoreError::bad_request(String::from_str(
                    "image reference has an empty name or tag",
                )));
            }
            let name = s.substring_char(0, idx).to_owned();
            let tag = s.substring_char(idx + 1, n).to_owned();
            return Ok((name, tag));
        }
        i = idx;
    }
    proof {
        lemma_last_colon_none(s@);
    }
    if n == 0 {
        return Err(CoreError::bad_request(String::from_str(
            "image reference has an empty name or tag",
        )));
    }
    let tag = String::from_str("latest");
    proof {
        reveal_strlit("latest");
        assert(tag@ =~= seq!['l', 'a', 't', 'e', 's', 't']);
    }
    Ok((s.to_owned(), tag))
}

/// `last_colon` answers the scan position of the last colon.
proof fn lemma_last_colon_at(s: Seq<char>, i: int)
    requires
        0 <= i < s.len(),
        s[i] == ':',
        forall|k: int| i < k < s.len() ==> s[k] != ':',
    ensures
        last_colon(s) == Some(i),
    decreases s.len(),
{
    if i < s.len() - 1 {
        assert(s.last() != ':');
        assert(forall|k: int| 0 <= k < s.drop_last().len() ==> #[trigger] s.drop_last()[k]
            == s[k]);
        lemma_last_colon_at(s.drop_last(), i);
    }
}

/// A reference without a colon has no split position.
proof fn lemma_last_colon_none(s: Seq<char>)
    requires
        forall|k: int| 0 <= k < s.len() ==> s[k] != ':',
    ensures
        last_colon(s) is None,
    decreases s.len(),
{
    if s.len() > 0 {
        assert(forall|k: int| 0 <= k < s.drop_last().len() ==> #[trigger] s.drop_last()[k]
            == s[k]);
        lemma_last_colon_none(s.drop_last());
    }
}

/// Whether an image pull must run: a present image is pulled again only when
/// the policy asks for it always.
#[derive(Clone, Copy, PartialEq, Eq, Structural, Debug)]
pub enum PullPolicy {
    IfNotPresent,
    Always,
}

/// Decides whether to pull an image.
pub fn pull_needed(image_present: bool, policy: &PullPolicy) -> (r: bool)
    ensures
        r == (policy is Always || !image_present),
{
    matches!(policy, PullPolicy::Always) || !image_present
}

/// Builds the event one image-pull step reports: progress as a normal event,
/// a failure as an error event; the actor is the image itself.
pub fn image_pull_event(
    kind: EventKind,
    image: &str,
    node: &str,
    note: String,
    metadata: Option<Json>,
    related: Option<EventActor>,
    at: u64,
) -> (e: Event)
    ensures
        e.kind == kind,
        e.action@ == seq!['d', 'o', 'w', 'n', 'l', 'o', 'a', 'd', '_', 'i', 'm', 'a', 'g', 'e'],
        e.reason@ == seq!['s', 't', 'a', 't', 'e', '_', 's', 'y', 'n', 'c'],
        e.reporting_node@ == node@,
        e.reporting_controller@ == seq!['n', 'a', 'n', 'o', 'c', 'l', 'd'],
        e.actor is Some && e.actor->0.key@ == image@ && e.actor->0.kind
            == EventActorKind::ContainerImage && e.actor->0.attributes is None,
        e.note is Some && e.note->0@ == note@,
        e.metadata == metadata,
        e.related == related,
        e.at == at,
{
    let action = String::from_str("download_image");
    let reason = String::from_str("state_sync");
    let controller = String::from_str("nanocld");
    proof {
        reveal_strlit("download_image");
        reveal_strlit("state_sync");
        reveal_strlit("nanocld");
        assert(controller@ =~= seq!['n', 'a', 'n', 'o', 'c', 'l', 'd']);
        assert(action@ =~= seq!['d', 'o', 'w', 'n', 'l', 'o', 'a', 'd', '_', 'i', 'm', 'a', 'g',
            'e']);
        assert(reason@ =~= seq!['s', 't', 'a', 't', 'e', '_', 's', 'y', 'n', 'c']);
    }
    Event {
        kind,
        action,
        reason,
        reporting_controller: controller,
        reporting_node: node.to_owned(),
        actor: Some(EventActor {
            key: image.to_owned(),
            kind: EventActorKind::ContainerImage,
            attributes: None,
        }),
        related,
        note: Some(note),
        metadata,
        at,
    }
}

/// One thing the attach bridge reacts to: the client typed, the machine
/// wrote, the client pinged, the heartbeat timer fired, or the client sent
/// the detach sequence.
pub enum AttachEvent {
    ClientText(String),
    MachineChunk(Vec<u8>),
    ClientPing,
    HeartbeatDue,
    ClientDetach,
}

/// What the bridge does about it.
pub enum AttachAction {
    WriteStdin(String),
    SendFrame(Vec<u8>),
    SendPong,
    SendPing,
    Detach,
}

/// One step of the attach bridge: client text goes to the machine's stdin
/// verbatim, each machine chunk crosses as one frame, a ping is answered
/// with a pong, the heartbeat sends a ping, and the detach sequence ends the
/// session. The socket I/O around this decision is the caller's.
pub fn attach_step(e: AttachEvent) -> (a: AttachAction)
    ensures
        match e {
            AttachEvent::ClientText(t) => a == AttachAction::WriteStdin(t),
            AttachEvent::MachineChunk(c) => a == AttachAction::SendFrame(c),
            AttachEvent::ClientPing => a == AttachAction::SendPong,
            AttachEvent::HeartbeatDue => a == AttachAction::SendPing,
            AttachEvent::ClientDetach => a == AttachAction::Detach,
        },
{
    match e {
        AttachEvent::ClientText(t) => AttachAction::WriteStdin(t),
        AttachEvent::MachineChunk(c) => AttachAction::SendFrame(c),
        AttachEvent::ClientPing => AttachAction::SendPong,
        AttachEvent::HeartbeatDue => AttachAction::SendPing,
        AttachEvent::ClientDetach => AttachAction::Detach,
    }
}

/// Where a server binds: a Unix socket path or a TCP address.
pub enum HostBinding {
    Unix(String),
    Tcp(String),
}

/// Parses a listen address: `unix://<path>` or `tcp://<addr>`; anything else
/// is rejected.
pub fn parse_host_binding(host: &str) -> (r: Result<HostBinding, CoreError>)
    ensures
        ({
            let unix = seq!['u', 'n', 'i', 'x', ':', '/', '/'];
            let tcp = seq!['t', 'c', 'p', ':', '/', '/'];
            match r {
                Ok(HostBinding::Unix(p)) => crate::text::is_prefix(unix, host@) && p@
                    == host@.skip(7),
                Ok(HostBinding::Tcp(a)) => !crate::text::is_prefix(unix, host@)
                    && crate::text::is_prefix(tcp, host@) && a@ == host@.skip(6),
                Err(e) => {
                    &&& e.kind == ErrorKind::BadRequest
                    &&& !crate::text::is_prefix(unix, host@)
                    &&& !crate::text::is_prefix(tcp, host@)
                },
            }
        }),
{
    proof {
        reveal_strlit("unix://");
        reveal_strlit("tcp://");
        assert(("unix://")@ =~= seq!['u', 'n', 'i', 'x', ':', '/', '/']);
        assert(("tcp://")@ =~= seq!['t', 'c', 'p', ':', '/', '/']);
    }
    if crate::text::has_prefix(host, "unix://") {
        let n = host.unicode_len();
        let path = host.substring_char(7, n).to_owned();
        Ok(HostBinding::Unix(path))
    } else if crate::text::has_prefix(host, "tcp://") {
        let n = host.unicode_len();
        let addr = host.substring_char(6, n).to_owned();
        Ok(HostBinding::Tcp(addr))
    } else {
        Err(CoreError::bad_request(String::from_str(
            "invalid host format (must be unix:// or tcp://)",
        )))
    }
}

} // verus!
