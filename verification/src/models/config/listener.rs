//! Listeners: where the broker accepts connections.

use crate::enums::protocol::ProtocolType;
use vstd::prelude::*;

verus! {

/// One listener: a name, a transport, and the address to bind.
pub struct ListenerConfig {
    pub name: String,
    pub protocol: ProtocolType,
    pub host: String,
    pub port: u16,
    pub tls: Option<TlsConfig>,
}

/// The files that a TLS listener reads its certificate and keys from.
pub struct TlsConfig {
    pub cert: String,
    pub key: String,
    pub ca: Option<String>,
}

/// The request to stop the listener on a port.
#[derive(Clone, Copy)]
pub struct StopListener {
    pub port: u16,
}

/// Whether the broker can serve a transport itself: plain TCP and
/// WebSocket, not their TLS forms.
pub open spec fn is_served(protocol: ProtocolType) -> bool {
    protocol == ProtocolType::Tcp || protocol == ProtocolType::Ws
}

/// Whether the listener at position `i` is to be started: its transport
/// can be served, nothing runs on its port, and no listener before it that
/// can be served asks for the same port.
pub open spec fn is_due(listeners: Seq<ListenerConfig>, running: Seq<u16>, i: int) -> bool {
    &&& 0 <= i < listeners.len()
    &&& is_served(listeners[i].protocol)
    &&& !running.contains(listeners[i].port)
    &&& forall|j: int|
        0 <= j < i && is_served((#[trigger] listeners[j]).protocol) ==> listeners[j].port
            != listeners[i].port
}

/// Whether a port is among those of a list.
pub fn has_port(ports: &Vec<u16>, port: u16) -> (found: bool)
    ensures
        found == ports@.contains(port),
{
    let mut k: usize = 0;
    while k < ports.len()
        invariant
            k <= ports.len(),
            forall|j: int| 0 <= j < k ==> ports@[j] != port,
        decreases ports.len() - k,
    {
        if ports[k] == port {
            return true;
        }
        k = k + 1;
    }
    false
}

/// The positions of the listeners to start, in rising order, given the
/// ports on which a listener runs already.
pub fn listeners_to_start(listeners: &Vec<ListenerConfig>, running: &Vec<u16>) -> (due: Vec<usize>)
    ensures
        forall|a: int, b: int| 0 <= a < b < due@.len() ==> due@[a] < due@[b],
        forall|i: usize| due@.contains(i) <==> is_due(listeners@, running@, i as int),
{
    let mut due: Vec<usize> = Vec::new();
    let mut taken: Vec<u16> = Vec::new();
    let mut i: usize = 0;
    while i < listeners.len()
        invariant
            i <= listeners.len(),
            forall|a: int, b: int| 0 <= a < b < due@.len() ==> due@[a] < due@[b],
            forall|a: int| 0 <= a < due@.len() ==> due@[a] < i,
            forall|k: int|
                0 <= k < i ==> (due@.contains(k as usize) <==> is_due(listeners@, running@, k)),
            forall|port: u16|
                taken@.contains(port) <==> exists|j: int|
                    0 <= j < i && is_served((#[trigger] listeners@[j]).protocol) && listeners@[j].port
                        == port && !running@.contains(port),
        decreases listeners.len() - i,
    {
        let listener = &listeners[i];
        let served = match listener.protocol {
            ProtocolType::Tcp => true,
            ProtocolType::Ws => true,
            _ => false,
        };
        let ghost before = due@;
        let ghost taken_before = taken@;
        if served && !has_port(running, listener.port) {
            if !has_port(&taken, listener.port) {
                due.push(i);
                taken.push(listener.port);
                proof {
                    assert(due@[before.len() as int] == i);
                    assert(is_due(listeners@, running@, i as int)) by {
                        assert forall|j: int|
                            0 <= j < i && is_served(
                                (#[trigger] listeners@[j]).protocol,
                            ) implies listeners@[j].port != listeners@[i as int].port by {
                            if listeners@[j].port == listeners@[i as int].port {
                                assert(taken_before.contains(listener.port));
                            }
                        }
                    }
                    assert forall|port: u16|
                        taken@.contains(port) <==> (taken_before.contains(port) || port
                            == listener.port) by {
                        if taken@.contains(port) {
                            let m = choose|m: int| 0 <= m < taken@.len() && taken@[m] == port;
                            if m < taken_before.len() {
                                assert(taken_before[m] == port);
                            }
                        }
                        if taken_before.contains(port) {
                            let m = choose|m: int|
                                0 <= m < taken_before.len() && taken_before[m] == port;
                            assert(taken@[m] == port);
                        }
                        if port == listener.port {
                            assert(taken@[taken_before.len() as int] == port);
                        }
                    }
                }
            } else {
                proof {
                    let j = choose|j: int|
                        0 <= j < i && is_served((#[trigger] listeners@[j]).protocol)
                            && listeners@[j].port == listener.port && !running@.contains(
                            listener.port,
                        );
                    assert(!is_due(listeners@, running@, i as int));
                }
            }
        }
        proof {
            assert forall|k: int| 0 <= k < i + 1 implies (due@.contains(k as usize) <==> is_due(
                listeners@,
                running@,
                k,
            )) by {
                if due@.contains(k as usize) {
                    let m = choose|m: int| 0 <= m < due@.len() && due@[m] == k as usize;
                    if m < before.len() {
                        assert(before[m] == k as usize);
                        assert(before.contains(k as usize));
                    }
                }
                if k < i && before.contains(k as usize) {
                    let m = choose|m: int| 0 <= m < before.len() && before[m] == k as usize;
                    assert(due@[m] == k as usize);
                }
                if k == i && due@.len() > before.len() {
                    assert(due@[before.len() as int] == k as usize);
                }
                if k == i && due@.len() == before.len() && due@.contains(k as usize) {
                    let m = choose|m: int| 0 <= m < due@.len() && due@[m] == k as usize;
                    assert(before[m] < i);
                }
            }
            assert forall|port: u16|
                taken@.contains(port) <==> exists|j: int|
                    0 <= j < i + 1 && is_served((#[trigger] listeners@[j]).protocol)
                        && listeners@[j].port == port && !running@.contains(port) by {
                if taken@.contains(port) {
                    if taken_before.contains(port) {
                        let j = choose|j: int|
                            0 <= j < i && is_served((#[trigger] listeners@[j]).protocol)
                                && listeners@[j].port == port && !running@.contains(port);
                        assert(0 <= j < i + 1);
                    } else {
                        assert(is_served(listeners@[i as int].protocol));
                    }
                }
                if exists|j: int|
                    0 <= j < i + 1 && is_served((#[trigger] listeners@[j]).protocol)
                        && listeners@[j].port == port && !running@.contains(port) {
                    let j = choose|j: int|
                        0 <= j < i + 1 && is_served((#[trigger] listeners@[j]).protocol)
                            && listeners@[j].port == port && !running@.contains(port);
                    if j < i {
                        assert(taken_before.contains(port));
                    }
                }
            }
        }
        i = i + 1;
    }
    proof {
        assert forall|k: usize| due@.contains(k) <==> is_due(listeners@, running@, k as int) by {
            if due@.contains(k) {
                let m = choose|m: int| 0 <= m < due@.len() && due@[m] == k;
                assert(due@[m] < i);
            }
        }
    }
    due
}

} // verus!
