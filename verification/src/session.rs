//! Per-connection session state and the control-stream binding rule.

use vstd::prelude::*;
use crate::messages::{ServerControlStreamMessage, ServerMsgView};

verus! {

/// Whether the peer is the local (loopback) master client or a remote one.
#[derive(Debug, Clone, Copy, PartialEq, Eq, Structural)]
pub enum ConnectionRole {
    LocalMaster,
    RemoteClient,
}

/// Where a session stands in the authentication protocol. `Rejected` is
/// absorbing.
#[derive(Debug, Clone, PartialEq)]
pub enum AuthState {
    WaitingForCredentials,
    Authenticated { username: String },
    Rejected(String),
}

/// The remote address of a connection, as the session logic reads it: the
/// numeric address, the port, and which family it belongs to.
#[derive(Debug, Clone, Copy, PartialEq, Eq, Hash, Structural)]
pub struct SessionAddr {
    /// The address bits: an IPv4 address in the low 32 bits when `ipv4`,
    /// else the full IPv6 address.
    pub ip: u128,
    pub port: u16,
    pub ipv4: bool,
}

impl SessionAddr {
    /// The loopback addresses: 127.0.0.0/8 for IPv4, ::1 for IPv6.
    pub open spec fn spec_is_loopback(&self) -> bool {
        if self.ipv4 {
            (self.ip >> 24u128) & 0xFF == 0x7F && self.ip <= 0xFFFF_FFFF
        } else {
            self.ip == 1
        }
    }

    pub fn is_loopback(&self) -> (r: bool)
        ensures
            r == self.spec_is_loopback(),
    {
        if self.ipv4 {
            ((self.ip >> 24) & 0xFF) == 0x7F && self.ip <= 0xFFFF_FFFF
        } else {
            self.ip == 1
        }
    }
}

/// One client's server-side record: its address, its authentication
/// progress, whether its one control stream is already bound, and which
/// character it selected.
#[derive(Debug, Clone, PartialEq)]
pub struct ServerSession {
    pub role: ConnectionRole,
    pub auth: AuthState,
    pub addr: SessionAddr,
    pub control_stream_opened: bool,
    pub selected_character: Option<i64>,
}

impl ServerSession {
    /// A fresh session: waiting for credentials, no control stream bound,
    /// the role read off the address.
    pub fn new(addr: SessionAddr) -> (r: Self)
        ensures
            r.role == (if addr.spec_is_loopback() {
                ConnectionRole::LocalMaster
            } else {
                ConnectionRole::RemoteClient
            }),
            r.auth == AuthState::WaitingForCredentials,
            r.addr == addr,
            !r.control_stream_opened,
            r.selected_character is None,
    {
        let role = if addr.is_loopback() {
            ConnectionRole::LocalMaster
        } else {
            ConnectionRole::RemoteClient
        };
        Self {
            role,
            auth: AuthState::WaitingForCredentials,
            addr,
            control_stream_opened: false,
            selected_character: None,
        }
    }
}

/// Try to bind a newly accepted stream as the session's control stream.
/// The first attempt succeeds and marks the session; every later attempt
/// returns the rejection notice to send, and changes nothing, so the
/// original control stream is unaffected.
pub fn bind_control_stream(session: &mut ServerSession) -> (r: Option<ServerControlStreamMessage>)
    ensures
        old(session).control_stream_opened ==> {
            &&& *final(session) == *old(session)
            &&& r matches Some(msg) && msg@ == ServerMsgView::Disconnected("Control stream already opened"@)
        },
        !old(session).control_stream_opened ==> {
            &&& r is None
            &&& final(session).control_stream_opened
            &&& final(session).auth == old(session).auth
            &&& final(session).role == old(session).role
            &&& final(session).addr == old(session).addr
            &&& final(session).selected_character == old(session).selected_character
        },
{
    if session.control_stream_opened {
        Some(ServerControlStreamMessage::Disconnected(
            String::from_str("Control stream already opened"),
        ))
    } else {
        session.control_stream_opened = true;
        None
    }
}

/// The sessions the server currently holds, keyed by remote address.
pub struct SessionManager {
    pub sessions: Vec<(SessionAddr, ServerSession)>,
}

impl SessionManager {
    /// No address occurs twice.
    pub open spec fn wf(&self) -> bool {
        forall|i: int, j: int|
            0 <= i < j < self.sessions@.len()
                ==> (#[trigger] self.sessions@[i]).0 != (#[trigger] self.sessions@[j]).0
    }

    pub open spec fn spec_has(&self, addr: SessionAddr) -> bool {
        exists|i: int| 0 <= i < self.sessions@.len() && (#[trigger] self.sessions@[i]).0 == addr
    }

    pub fn new() -> (r: Self)
        ensures
            r.wf(),
            r.sessions@.len() == 0,
    {
        Self { sessions: Vec::new() }
    }

    /// Index of the session for `addr`, if one is held.
    pub fn find(&self, addr: SessionAddr) -> (r: Option<usize>)
        ensures
            match r {
                Some(i) => i < self.sessions@.len() && self.sessions@[i as int].0 == addr,
                None => !self.spec_has(addr),
            },
    {
        let mut i: usize = 0;
        while i < self.sessions.len()
            invariant
                i <= self.sessions@.len(),
                forall|k: int| 0 <= k < i ==> (#[trigger] self.sessions@[k]).0 != addr,
            decreases self.sessions@.len() - i,
        {
            let a = self.sessions[i].0;
            if a.ipv4 == addr.ipv4 && a.ip == addr.ip && a.port == addr.port {
                return Some(i);
            }
            i += 1;
        }
        None
    }

    /// Record `session` under `addr`; an existing entry for the address is
    /// replaced, and every entry for a different address is untouched.
    pub fn insert(&mut self, addr: SessionAddr, session: ServerSession)
        requires
            old(self).wf(),
        ensures
            final(self).wf(),
            final(self).spec_has(addr),
            forall|a: SessionAddr| final(self).spec_has(a) <==> (old(self).spec_has(a) || a == addr),
            exists|i: int|
                0 <= i < final(self).sessions@.len() && final(self).sessions@[i] == (addr, session),
            forall|i: int|
                0 <= i < old(self).sessions@.len() && (#[trigger] old(self).sessions@[i]).0 != addr
                    ==> final(self).sessions@[i] == old(self).sessions@[i],
            old(self).spec_has(addr) ==> final(self).sessions@.len() == old(self).sessions@.len(),
            !old(self).spec_has(addr) ==> final(self).sessions@.len() == old(self).sessions@.len() + 1,
    {
        match self.find(addr) {
            Some(i) => {
                let ghost pre = self.sessions@;
                self.sessions[i] = (addr, session);
                proof {
                    assert forall|a: SessionAddr| final(self).spec_has(a)
                        implies (old(self).spec_has(a) || a == addr) by {
                        let k = choose|k: int| 0 <= k < self.sessions@.len() && (#[trigger] self.sessions@[k]).0 == a;
                        if k != i {
                            assert(pre[k].0 == a);
                        }
                    }
                    assert forall|a: SessionAddr| (old(self).spec_has(a) || a == addr)
                        implies final(self).spec_has(a) by {
                        if a == addr {
                            assert(self.sessions@[i as int].0 == a);
                        } else {
                            let k = choose|k: int| 0 <= k < pre.len() && (#[trigger] pre[k]).0 == a;
                            assert(self.sessions@[k].0 == a);
                        }
                    }
                }
            }
            None => {
                let ghost pre = self.sessions@;
                self.sessions.push((addr, session));
                proof {
                    assert forall|a: SessionAddr| final(self).spec_has(a)
                        implies (old(self).spec_has(a) || a == addr) by {
                        let k = choose|k: int| 0 <= k < self.sessions@.len() && (#[trigger] self.sessions@[k]).0 == a;
                        if k < pre.len() {
                            assert(pre[k].0 == a);
                        }
                    }
                    assert forall|a: SessionAddr| (old(self).spec_has(a) || a == addr)
                        implies final(self).spec_has(a) by {
                        if a == addr {
                            assert(self.sessions@[pre.len() as int].0 == a);
                        } else {
                            let k = choose|k: int| 0 <= k < pre.len() && (#[trigger] pre[k]).0 == a;
                            assert(self.sessions@[k].0 == a);
                        }
                    }
                }
            }
        }
    }
}

} // verus!
