//! The plugin's settings: where and how often to send, and which messages.

use vstd::prelude::*;

use vstd::std_specs::cmp::PartialEqSpecImpl;

use crate::socket::{socket_state_eq, SocketState};

verus! {

/// The settings that the window edits and that are saved between sessions.
#[derive(Debug)]
pub struct StateInner {
    pub socket: SocketState,
    pub heartbeat: bool,
    pub ownship: bool,
    pub ahrs: bool,
}

/// `bytes` when `enabled`, nothing otherwise.
pub open spec fn part_if(enabled: bool, bytes: Seq<u8>) -> Seq<u8> {
    if enabled {
        bytes
    } else {
        Seq::empty()
    }
}

/// Equality of settings: the socket settings and each message switch.
pub open spec fn state_inner_eq(a: &StateInner, b: &StateInner) -> bool {
    &&& socket_state_eq(&a.socket, &b.socket)
    &&& a.heartbeat == b.heartbeat
    &&& a.ownship == b.ownship
    &&& a.ahrs == b.ahrs
}

/// A switched-off message contributes no bytes whatever it holds, and a
/// switched-on one contributes exactly its bytes.
pub proof fn lemma_part_if(enabled: bool, bytes: Seq<u8>)
    ensures
        !enabled ==> part_if(enabled, bytes).len() == 0,
        enabled ==> part_if(enabled, bytes) == bytes,
{
}

impl StateInner {
    /// The datagram of one send: the encoded heartbeat, ownship report and
    /// AHRS message, in that order, each only when it is switched on.
    pub fn build_payload(&self, heartbeat: Vec<u8>, ownship: Vec<u8>, ahrs: Vec<u8>) -> (r: Vec<u8>)
        ensures
            r@ == part_if(self.heartbeat, heartbeat@) + part_if(self.ownship, ownship@) + part_if(
                self.ahrs,
                ahrs@,
            ),
            r@.len() == (if self.heartbeat { heartbeat@.len() } else { 0 }) + (if self.ownship { ownship@.len() } else { 0 }) + (if self.ahrs { ahrs@.len() } else { 0 }),
            !self.heartbeat && !self.ownship && !self.ahrs ==> r@.len() == 0,
            self.heartbeat ==> r@.subrange(0, heartbeat@.len() as int) == heartbeat@,
    {
        let ghost (h, o, a) = (heartbeat@, ownship@, ahrs@);
        let mut out: Vec<u8> = Vec::new();
        let mut heartbeat = heartbeat;
        let mut ownship = ownship;
        let mut ahrs = ahrs;
        if self.heartbeat {
            out.append(&mut heartbeat);
        }
        if self.ownship {
            out.append(&mut ownship);
        }
        if self.ahrs {
            out.append(&mut ahrs);
        }
        proof {
            assert(out@ =~= part_if(self.heartbeat, h) + part_if(self.ownship, o) + part_if(self.ahrs, a));
        }
        out
    }
}

impl Default for StateInner {
    fn default() -> (r: StateInner)
        ensures
            r.socket.interval == SocketState::DEFAULT_INTERVAL,
            r.socket.target is None,
            r.socket.auto_targets@.dom().len() == 0,
            r.heartbeat,
            r.ownship,
            r.ahrs,
    {
        StateInner { socket: SocketState::default(), heartbeat: true, ownship: true, ahrs: true }
    }
}

impl PartialEq for StateInner {
    fn eq(&self, other: &StateInner) -> (r: bool) {
        self.socket.eq(&other.socket) && self.heartbeat == other.heartbeat && self.ownship
            == other.ownship && self.ahrs == other.ahrs
    }
}

impl PartialEqSpecImpl for StateInner {
    open spec fn obeys_eq_spec() -> bool {
        true
    }

    open spec fn eq_spec(&self, other: &StateInner) -> bool {
        state_inner_eq(self, other)
    }
}

impl Eq for StateInner {}

} // verus!
