use vstd::prelude::*;
use vstd::string::*;

verus! {

/// What the discovery store reports about a key under the watched prefix.
/// The entries already present when the watch starts are reported as
/// `Put`.
#[derive(Debug, Clone, Copy, PartialEq, Eq, Structural)]
pub enum WatchEventKind {
    Put,
    Delete,
}

/// What a discovery notification asks of the dispatcher.
#[derive(Debug, Clone, Copy, PartialEq, Eq, Structural)]
pub enum EventType {
    AddNodeEvent,
    DelNodeEvent,
}

/// A stored or updated endpoint becomes an add notification, a deleted
/// one a delete notification.
pub open spec fn spec_event_type(kind: WatchEventKind) -> EventType {
    match kind {
        WatchEventKind::Put => EventType::AddNodeEvent,
        WatchEventKind::Delete => EventType::DelNodeEvent,
    }
}

/// The notification that a change of the discovery store becomes.
pub fn event_type_for(kind: WatchEventKind) -> (typ: EventType)
    ensures
        typ == spec_event_type(kind),
{
    match kind {
        WatchEventKind::Put => EventType::AddNodeEvent,
        WatchEventKind::Delete => EventType::DelNodeEvent,
    }
}

/// The key under which the dispatcher knows an endpoint: its address and
/// port joined by a colon.
pub open spec fn spec_endpoint_key(ip: Seq<char>, port: Seq<char>) -> Seq<char> {
    ip + seq![':'] + port
}

/// Endpoints whose ports hold no colon (ports are numbers) are told apart
/// by their keys: two keys are equal only for the same address and port.
pub proof fn lemma_endpoint_key_distinguishes(
    ip1: Seq<char>,
    port1: Seq<char>,
    ip2: Seq<char>,
    port2: Seq<char>,
)
    requires
        !port1.contains(':'),
        !port2.contains(':'),
        spec_endpoint_key(ip1, port1) == spec_endpoint_key(ip2, port2),
    ensures
        ip1 == ip2,
        port1 == port2,
{
    let k: Seq<char> = spec_endpoint_key(ip1, port1);
    let n: nat = k.len();
    assert(k =~= spec_endpoint_key(ip2, port2));
    if port1.len() < port2.len() {
        let i: int = n - port1.len() - 1;
        assert(k[i] == ':');
        assert(port2[i - ip2.len() - 1] == k[i]);
    } else if port2.len() < port1.len() {
        let i: int = n - port2.len() - 1;
        assert(k[i] == ':');
        assert(port1[i - ip1.len() - 1] == k[i]);
    }
    assert(ip1.len() == ip2.len());
    assert(ip1 =~= k.subrange(0, ip1.len() as int));
    assert(ip2 =~= k.subrange(0, ip2.len() as int));
    assert(port1 =~= k.subrange(n - port1.len(), n as int));
    assert(port2 =~= k.subrange(n - port2.len(), n as int));
}

/// The key under which the dispatcher knows the endpoint at `ip`:`port`.
pub fn endpoint_key(ip: &String, port: &String) -> (key: String)
    ensures
        key@ == spec_endpoint_key(ip@, port@),
{
    proof {
        reveal_strlit(":");
    }
    let key = ip.clone().concat(":");
    key.concat(port.as_str())
}

} // verus!
