//! The server's per-robot decision logic, factored out of its network loops:
//! answering pings with pongs, tracking which datagram clients are alive,
//! throttling the image stream, and dropping non-finite odometry before
//! broadcast. The loops that move bytes call these functions and perform
//! whatever they decide.

use vstd::prelude::*;
use crate::wire::{encode_udp_server, decode_udp_client, s_dec_udp_client, s_enc_udp_server,
    PongMessage, UdpClientMessage, UdpServerMessage};

verus! {

proof fn lemma_push_contains<T>(s: Seq<T>, x: T)
    ensures
        s.push(x).contains(x),
        forall|y: T| s.contains(y) ==> #[trigger] s.push(x).contains(y),
        forall|y: T| #[trigger] s.push(x).contains(y) ==> s.contains(y) || y == x,
{
    assert(s.push(x)[s.len() as int] == x);
    assert forall|y: T| s.contains(y) implies #[trigger] s.push(x).contains(y) by {
        let i = choose|i: int| 0 <= i < s.len() && s[i] == y;
        assert(s.push(x)[i] == y);
    }
    assert forall|y: T| #[trigger] s.push(x).contains(y) implies s.contains(y) || y == x by {
        let i = choose|i: int| 0 <= i < s.push(x).len() && s.push(x)[i] == y;
        if i < s.len() {
            assert(s[i] == y);
        }
    }
}

/// A datagram client is dropped after this long without a packet.
pub const CLIENT_TIMEOUT_NS: u64 = 5_000_000_000;

/// One datagram peer: an opaque address key and when it was last heard from.
#[derive(Clone, Copy, Debug, PartialEq, Eq, Structural)]
pub struct ClientEntry {
    pub addr: u128,
    pub last_seen: u64,
}

/// The datagram peers that get odometry fan-out: at most one entry per
/// address.
pub struct ClientTable {
    clients: Vec<ClientEntry>,
}

impl ClientTable {
    pub closed spec fn entries(&self) -> Seq<ClientEntry> {
        self.clients@
    }

    pub open spec fn has(&self, addr: u128) -> bool {
        exists|i: int| 0 <= i < self.entries().len() && self.entries()[i].addr == addr
    }

    pub open spec fn wf(&self) -> bool {
        forall|i: int, j: int|
            #![trigger self.entries()[i], self.entries()[j]]
            0 <= i < j < self.entries().len() ==> self.entries()[i].addr
                != self.entries()[j].addr
    }

    pub fn new() -> (r: Self)
        ensures
            r.wf(),
            r.entries() == Seq::<ClientEntry>::empty(),
    {
        ClientTable { clients: Vec::new() }
    }

    /// The current entries, for fan-out.
    pub fn clients(&self) -> (r: &Vec<ClientEntry>)
        ensures
            r@ == self.entries(),
    {
        &self.clients
    }

    /// A packet arrived from `addr`: remember it as alive at `now`. Every
    /// other entry is untouched.
    pub fn record(&mut self, addr: u128, now: u64)
        requires
            old(self).wf(),
        ensures
            final(self).wf(),
            final(self).entries().contains(ClientEntry { addr, last_seen: now }),
            forall|e: ClientEntry| #[trigger] final(self).entries().contains(e) ==> e.addr == addr || old(self).entries().contains(e),
            forall|e: ClientEntry| #[trigger] old(self).entries().contains(e) && e.addr != addr ==> final(self).entries().contains(e),
    {
        let entry = ClientEntry { addr, last_seen: now };
        let n = self.clients.len();
        let mut out: Vec<ClientEntry> = Vec::new();
        let mut found = false;
        let mut i: usize = 0;
        while i < n
            invariant
                n == self.clients@.len(),
                i <= n,
                out@.len() == i,
                self.clients@ == old(self).clients@,
                self.wf(),
                entry == (ClientEntry { addr, last_seen: now }),
                forall|t: int|
                    0 <= t < i ==> #[trigger] out@[t] == if self.clients@[t].addr == addr {
                        entry
                    } else {
                        self.clients@[t]
                    },
                found <==> exists|t: int| 0 <= t < i && #[trigger] self.clients@[t].addr == addr,
            decreases n - i,
        {
            let e = self.clients[i];
            if e.addr == addr {
                out.push(entry);
                found = true;
                proof {
                    assert(self.clients@[i as int].addr == addr);
                }
            } else {
                out.push(e);
            }
            i += 1;
        }
        let ghost pre = out@;
        if !found {
            out.push(entry);
        }
        proof {
            let outs = out@;
            let olds = self.clients@;
            assert forall|t: int| 0 <= t < olds.len() implies outs[t] == pre[t] by {
                if !found {
                    assert(pre.push(entry)[t] == pre[t]);
                }
            }
            assert forall|a: int, b: int|
                #![trigger outs[a], outs[b]]
                0 <= a < b < outs.len() implies outs[a].addr != outs[b].addr by {
                assert(outs[a].addr == olds[a].addr) by {
                    assert(outs[a] == pre[a]);
                    if olds[a].addr == addr {
                        assert(pre[a] == entry);
                    } else {
                        assert(pre[a] == olds[a]);
                    }
                }
                if b < olds.len() {
                    assert(outs[b].addr == olds[b].addr) by {
                        assert(outs[b] == pre[b]);
                        if olds[b].addr == addr {
                            assert(pre[b] == entry);
                        } else {
                            assert(pre[b] == olds[b]);
                        }
                    }
                    assert(self.entries()[a].addr != self.entries()[b].addr);
                } else {
                    assert(outs[b] == entry);
                    assert(!found);
                    if olds[a].addr == addr {
                        assert(exists|t: int|
                            0 <= t < olds.len() && #[trigger] self.clients@[t].addr == addr) by {
                            assert(self.clients@[a].addr == addr);
                        }
                        assert(false);
                    }
                }
            }
            assert(outs.contains(entry)) by {
                if found {
                    let t = choose|t: int| 0 <= t < olds.len() && #[trigger] olds[t].addr == addr;
                    assert(outs[t] == entry);
                } else {
                    assert(outs[olds.len() as int] == entry);
                }
            }
            assert forall|e: ClientEntry| #[trigger]
                outs.contains(e) implies e.addr == addr || olds.contains(e) by {
                let t = choose|t: int| 0 <= t < outs.len() && outs[t] == e;
                if t < olds.len() && olds[t].addr != addr {
                    assert(olds[t] == e);
                }
            }
            assert forall|e: ClientEntry| #[trigger]
                olds.contains(e) && e.addr != addr implies outs.contains(e) by {
                let t = choose|t: int| 0 <= t < olds.len() && olds[t] == e;
                assert(outs[t] == e);
            }
        }
        self.clients = out;
    }

    /// Forget every client not heard from within the timeout. Exactly the
    /// live entries remain.
    pub fn evict_stale(&mut self, now: u64)
        requires
            old(self).wf(),
        ensures
            final(self).wf(),
            forall|e: ClientEntry| #[trigger] final(self).entries().contains(e) <==> old(self).entries().contains(e) && (now < e.last_seen || now - e.last_seen < CLIENT_TIMEOUT_NS),
    {
        let n = self.clients.len();
        let mut kept: Vec<ClientEntry> = Vec::new();
        let mut i: usize = 0;
        while i < n
            invariant
                n == self.clients@.len(),
                i <= n,
                self.wf(),
                self.clients@ == old(self).clients@,
                forall|e: ClientEntry|
                    #[trigger] kept@.contains(e) ==> self.clients@.contains(e) && (now
                        < e.last_seen || now - e.last_seen < CLIENT_TIMEOUT_NS),
                forall|t: int|
                    0 <= t < i && (now < self.clients@[t].last_seen || now
                        - self.clients@[t].last_seen < CLIENT_TIMEOUT_NS) ==> kept@.contains(
                        #[trigger] self.clients@[t],
                    ),
                forall|j: int|
                    0 <= j < kept@.len() ==> exists|t: int|
                        0 <= t < i && self.clients@[t] == #[trigger] kept@[j],
                forall|a: int, b: int|
                    #![trigger kept@[a], kept@[b]]
                    0 <= a < b < kept@.len() ==> kept@[a].addr != kept@[b].addr,
            decreases n - i,
        {
            let e = self.clients[i];
            let live = now < e.last_seen || now - e.last_seen < CLIENT_TIMEOUT_NS;
            if live {
                proof {
                    assert(self.clients@.contains(e)) by {
                        assert(self.clients@[i as int] == e);
                    }
                    lemma_push_contains(kept@, e);
                    assert forall|j: int|
                        0 <= j < kept@.push(e).len() implies exists|t: int|
                        0 <= t < i + 1 && self.clients@[t] == #[trigger] kept@.push(e)[j] by {
                        if j < kept@.len() {
                            assert(kept@.push(e)[j] == kept@[j]);
                            let t = choose|t: int|
                                0 <= t < i && self.clients@[t] == kept@[j];
                            assert(self.clients@[t] == kept@.push(e)[j]);
                        } else {
                            assert(kept@.push(e)[j] == e);
                            assert(self.clients@[i as int] == kept@.push(e)[j]);
                        }
                    }
                    assert forall|a: int, b: int|
                        #![trigger kept@.push(e)[a], kept@.push(e)[b]]
                        0 <= a < b < kept@.push(e).len() implies kept@.push(e)[a].addr
                        != kept@.push(e)[b].addr by {
                        if b < kept@.len() {
                            assert(kept@.push(e)[a] == kept@[a] && kept@.push(e)[b] == kept@[b]);
                        } else {
                            assert(kept@.push(e)[b] == e);
                            assert(kept@.push(e)[a] == kept@[a]);
                            let t = choose|t: int|
                                0 <= t < i && self.clients@[t] == kept@[a];
                            assert(self.entries()[t].addr != self.entries()[i as int].addr);
                        }
                    }
                }
                kept.push(e);
            }
            i += 1;
        }
        proof {
            assert forall|e: ClientEntry| #[trigger]
                old(self).clients@.contains(e) && (now < e.last_seen || now - e.last_seen
                    < CLIENT_TIMEOUT_NS) implies kept@.contains(e) by {
                let t = choose|t: int|
                    0 <= t < self.clients@.len() && self.clients@[t] == e;
                assert(kept@.contains(self.clients@[t]));
            }
        }
        self.clients = kept;
    }
}

/// The reply a datagram gets: a pong for a ping, nothing otherwise.
pub open spec fn s_pong_reply(data: Seq<u8>, now: u64) -> Option<Seq<u8>> {
    match s_dec_udp_client(data) {
        Option::Some(m) => match m {
            UdpClientMessage::Ping(p) => Some(
                s_enc_udp_server(
                    UdpServerMessage::Pong(
                        PongMessage { client_time: p.client_time, server_time: now },
                    ),
                ),
            ),
        },
        Option::None => None,
    }
}

/// One datagram arrived at the server at time `now`: a well-formed ping gets
/// a pong carrying the ping's client time and the server's clock; anything
/// else is dropped.
pub fn handle_datagram(data: &[u8], now: u64) -> (r: Option<Vec<u8>>)
    ensures
        match r {
            Option::Some(reply) => s_pong_reply(data@, now) == Some(reply@),
            Option::None => s_pong_reply(data@, now) is None,
        },
{
    match decode_udp_client(data) {
        Option::Some(m) => match m {
            UdpClientMessage::Ping(p) => {
                let pong = UdpServerMessage::Pong(
                    PongMessage { client_time: p.client_time, server_time: now },
                );
                Some(encode_udp_server(&pong))
            },
        },
        Option::None => None,
    }
}

/// Image throttling: only one images frame per interval is forwarded; the
/// clock must not run backwards past the last forwarded frame.
pub struct ImageThrottle {
    last_send: u64,
}

impl ImageThrottle {
    pub closed spec fn spec_last_send(&self) -> u64 {
        self.last_send
    }

    pub fn new(now: u64) -> (r: Self)
        ensures
            r.spec_last_send() == now,
    {
        ImageThrottle { last_send: now }
    }

    /// Forward a frame stamped `now` only when a full interval has passed
    /// since the last forwarded frame, and then remember it.
    pub fn should_forward(&mut self, now: u64, interval_ns: u64) -> (r: bool)
        requires
            now >= old(self).spec_last_send(),
        ensures
            r == (now - old(self).spec_last_send() >= interval_ns),
            final(self).spec_last_send() == if r {
                now
            } else {
                old(self).spec_last_send()
            },
    {
        if now - self.last_send >= interval_ns {
            self.last_send = now;
            true
        } else {
            false
        }
    }
}

} // verus!
