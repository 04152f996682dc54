//! What the plugin keeps about where to send, and the decisions of each
//! send cycle: which broadcasts to record, which targets have gone quiet,
//! and whether and to whom a payload is due.

use vstd::prelude::*;

use vstd::std_specs::cmp::PartialEqSpecImpl;

use crate::addr::{spec_with_port, TargetAddr};
use crate::targets::{
    elapsed, entries_map, recent_part, sorted_addrs, sorted_entries, stale_part, AutoTargets,
    Entry,
};

verus! {

/// The GDL90 part of a ForeFlight discovery broadcast: the port on which
/// the device listens.
#[derive(Clone, Copy, Debug, PartialEq, Eq, Structural)]
pub struct FFPort {
    pub port: u16,
}

/// A discovery broadcast received from an electronic flight bag.
///
/// `time` is the moment it was received, in nanoseconds on the plugin's
/// monotonic clock.
#[derive(Debug)]
pub struct FFBroadcast {
    pub time: u128,
    pub app: String,
    pub gdl90: FFPort,
}

/// How often data goes out, where it goes besides the discovered devices,
/// and the devices discovered so far.
///
/// Durations and instants are nanoseconds; instants are on the plugin's
/// monotonic clock.
#[derive(Debug)]
pub struct SocketState {
    pub interval: u128,
    pub target: Option<TargetAddr>,
    pub auto_targets: AutoTargets,
}

/// A discovered device that sends no broadcast for this long is dropped.
pub const STALE_AFTER: u128 = 30_000_000_000;

/// The target as a sequence of zero or one address.
pub open spec fn target_seq(target: Option<TargetAddr>) -> Seq<TargetAddr> {
    match target {
        Some(a) => seq![a],
        None => Seq::empty(),
    }
}

/// Whether the last send, if any, happened less than `interval` before `now`.
pub open spec fn throttled(last_send: Option<u128>, now: u128, interval: u128) -> bool {
    match last_send {
        Some(t) => elapsed(t, now) < interval,
        None => false,
    }
}

/// Two states are equal when their intervals and targets are; the
/// discovered devices are not compared.
pub open spec fn socket_state_eq(a: &SocketState, b: &SocketState) -> bool {
    a.interval == b.interval && a.target == b.target
}

impl SocketState {
    /// The send interval of a new state: one second.
    pub const DEFAULT_INTERVAL: u128 = 1_000_000_000;

    /// The shortest send interval accepted: ten milliseconds.
    pub const MINIMUM_INTERVAL: u128 = 10_000_000;

    /// Records a discovery broadcast heard from `addr`: the device is
    /// reached at that address with the port it announces. Returns whether
    /// the device was not known before.
    pub fn record_broadcast(&mut self, addr: TargetAddr, msg: FFBroadcast) -> (is_new: bool)
        ensures
            final(self).auto_targets@ == old(self).auto_targets@.insert(
                spec_with_port(addr, msg.gdl90.port),
                msg,
            ),
            is_new == !old(self).auto_targets@.dom().contains(spec_with_port(addr, msg.gdl90.port)),
            final(self).interval == old(self).interval,
            final(self).target == old(self).target,
    {
        let mut key = addr;
        key.set_port(msg.gdl90.port);
        let present = self.auto_targets.insert(key, msg);
        !present
    }

    /// Drops the discovered devices that have sent nothing for
    /// [`STALE_AFTER`] at `now`, and returns them in address order.
    pub fn prune_stale(&mut self, now: u128) -> (removed: Vec<Entry>)
        ensures
            final(self).auto_targets@ == recent_part(old(self).auto_targets@, now, STALE_AFTER),
            entries_map(removed@) == stale_part(old(self).auto_targets@, now, STALE_AFTER),
            sorted_entries(removed@),
            final(self).interval == old(self).interval,
            final(self).target == old(self).target,
    {
        self.auto_targets.retain_recent(now, STALE_AFTER)
    }

    /// Where a payload goes at `now`, given when the last one went.
    ///
    /// `None` while the last send is less than the interval ago, and when
    /// there is nowhere to send. Otherwise the discovered devices in address
    /// order, followed by the configured target if there is one.
    pub fn due_targets(&self, last_send: Option<u128>, now: u128) -> (r: Option<Vec<TargetAddr>>)
        ensures
            last_send matches Some(t) && now >= t && now - t < self.interval ==> r is None,
            (last_send is None || (last_send matches Some(t) && now >= t && now - t >= self.interval)) && self.target is Some ==> r is Some,
            r is Some <==> !throttled(last_send, now, self.interval) && (
            self.auto_targets@.dom().len() > 0 || self.target is Some),
            r matches Some(v) ==> {
                let n = self.auto_targets@.dom().len() as int;
                &&& self.auto_targets@.dom().finite()
                &&& n <= v@.len()
                &&& sorted_addrs(v@.take(n))
                &&& forall|k: TargetAddr| v@.take(n).contains(k) <==> self.auto_targets@.dom().contains(k)
                &&& v@.skip(n) == target_seq(self.target)
            },
    {
        let n = self.auto_targets.len();
        if let Some(t) = last_send {
            let since = if now >= t {
                now - t
            } else {
                0
            };
            if since < self.interval {
                return None;
            }
        }
        let mut v = self.auto_targets.addrs();
        proof {
            lemma_sorted_distinct_len(v@, self.auto_targets@.dom());
        }
        let ghost a = v@;
        if let Some(t) = self.target {
            v.push(t);
        }
        if v.len() == 0 {
            return None;
        }
        proof {
            assert(v@.take(n as int) =~= a);
            assert(v@.skip(n as int) =~= target_seq(self.target));
        }
        Some(v)
    }
}

/// What one send cycle decided: whether a broadcast came from a device not
/// known before, the devices dropped as stale, and where the payload goes,
/// if anywhere.
#[derive(Debug)]
pub struct SendCycle {
    pub new_device: bool,
    pub removed: Vec<Entry>,
    pub targets: Option<Vec<TargetAddr>>,
}

impl SocketState {
    /// The decisions of one send cycle at `now`: record the broadcast
    /// received since the last cycle, if any, drop the devices gone quiet,
    /// and decide where the payload goes given when the last one went.
    pub fn cycle(
        &mut self,
        received: Option<(TargetAddr, FFBroadcast)>,
        last_send: Option<u128>,
        now: u128,
    ) -> (r: SendCycle)
        ensures
            final(self).interval == old(self).interval,
            final(self).target == old(self).target,
            ({
                let recorded = match received {
                    Some((addr, msg)) => old(self).auto_targets@.insert(spec_with_port(addr, msg.gdl90.port), msg),
                    None => old(self).auto_targets@,
                };
                &&& final(self).auto_targets@ == recent_part(recorded, now, STALE_AFTER)
                &&& entries_map(r.removed@) == stale_part(recorded, now, STALE_AFTER)
                &&& sorted_entries(r.removed@)
                &&& r.new_device == match received {
                    Some((addr, msg)) => !old(self).auto_targets@.dom().contains(spec_with_port(addr, msg.gdl90.port)),
                    None => false,
                }
            }),
            r.targets is Some <==> !throttled(last_send, now, final(self).interval) && (
            final(self).auto_targets@.dom().len() > 0 || final(self).target is Some),
            r.targets matches Some(v) ==> {
                let n = final(self).auto_targets@.dom().len() as int;
                &&& final(self).auto_targets@.dom().finite()
                &&& n <= v@.len()
                &&& sorted_addrs(v@.take(n))
                &&& forall|k: TargetAddr| v@.take(n).contains(k) <==> final(self).auto_targets@.dom().contains(k)
                &&& v@.skip(n) == target_seq(final(self).target)
            },
    {
        let new_device = match received {
            Some((addr, msg)) => self.record_broadcast(addr, msg),
            None => false,
        };
        let removed = self.prune_stale(now);
        let targets = self.due_targets(last_send, now);
        SendCycle { new_device, removed, targets }
    }
}

/// A sequence of distinct addresses holding exactly the elements of a
/// finite set is as long as the set is large.
proof fn lemma_sorted_distinct_len(v: Seq<TargetAddr>, d: Set<TargetAddr>)
    requires
        sorted_addrs(v),
        d.finite(),
        forall|k: TargetAddr| v.contains(k) <==> d.contains(k),
    ensures
        v.len() == d.len(),
{
    assert forall|i: int, j: int| 0 <= i < v.len() && 0 <= j < v.len() && i != j implies v[i] != v[j] by {
        if i < j {
            assert(crate::addr::addr_lt(v[i], v[j]));
        } else {
            assert(crate::addr::addr_lt(v[j], v[i]));
        }
        crate::addr::lemma_addr_order(v[i], v[j], v[i]);
    }
    assert(v.to_set() =~= d);
    v.unique_seq_to_set();
}

impl Default for SocketState {
    fn default() -> (r: SocketState)
        ensures
            r.interval == SocketState::DEFAULT_INTERVAL,
            r.target is None,
            r.auto_targets@ == Map::<TargetAddr, FFBroadcast>::empty(),
    {
        SocketState {
            interval: SocketState::DEFAULT_INTERVAL,
            target: None,
            auto_targets: AutoTargets::new(),
        }
    }
}

impl PartialEq for SocketState {
    fn eq(&self, other: &SocketState) -> (r: bool) {
        let same_target = match (&self.target, &other.target) {
            (Some(a), Some(b)) => *a == *b,
            (None, None) => true,
            _ => false,
        };
        self.interval == other.interval && same_target
    }
}

impl PartialEqSpecImpl for SocketState {
    open spec fn obeys_eq_spec() -> bool {
        true
    }

    open spec fn eq_spec(&self, other: &SocketState) -> bool {
        socket_state_eq(self, other)
    }
}

impl Eq for SocketState {}


/// Pruning keeps exactly the devices heard from recently: every device kept
/// is recent, every device dropped is not, none is both, none is lost, and
/// pruning again at the same moment changes nothing.
pub proof fn lemma_prune_partition(m: Map<TargetAddr, FFBroadcast>, now: u128)
    ensures
        forall|k: TargetAddr| #[trigger] recent_part(m, now, STALE_AFTER).dom().contains(k) ==> elapsed(m[k].time, now) < STALE_AFTER,
        forall|k: TargetAddr| #[trigger] stale_part(m, now, STALE_AFTER).dom().contains(k) ==> elapsed(m[k].time, now) >= STALE_AFTER,
        forall|k: TargetAddr| #[trigger] m.dom().contains(k) <==> (recent_part(m, now, STALE_AFTER).dom().contains(k) || stale_part(m, now, STALE_AFTER).dom().contains(k)),
        forall|k: TargetAddr| !(#[trigger] recent_part(m, now, STALE_AFTER).dom().contains(k) && stale_part(m, now, STALE_AFTER).dom().contains(k)),
        recent_part(recent_part(m, now, STALE_AFTER), now, STALE_AFTER) == recent_part(m, now, STALE_AFTER),
{
    assert(recent_part(recent_part(m, now, STALE_AFTER), now, STALE_AFTER) =~= recent_part(m, now, STALE_AFTER));
}

/// A device whose broadcast has just been recorded is not dropped by a prune
/// at the moment of that broadcast, and keeps that broadcast.
pub proof fn lemma_recorded_survives_prune(m: Map<TargetAddr, FFBroadcast>, key: TargetAddr, msg: FFBroadcast)
    ensures
        recent_part(m.insert(key, msg), msg.time, STALE_AFTER).dom().contains(key),
        recent_part(m.insert(key, msg), msg.time, STALE_AFTER)[key] == msg,
{
}

/// Recording a second broadcast from the same device replaces the first:
/// the map is as if only the second had been recorded, and holds no more
/// devices than after the first.
pub proof fn lemma_record_replaces(m: Map<TargetAddr, FFBroadcast>, key: TargetAddr, first: FFBroadcast, second: FFBroadcast)
    ensures
        m.insert(key, first).insert(key, second) == m.insert(key, second),
        m.insert(key, first).insert(key, second).dom() == m.insert(key, first).dom(),
{
    assert(m.insert(key, first).insert(key, second) =~= m.insert(key, second));
    assert(m.insert(key, first).insert(key, second).dom() =~= m.insert(key, first).dom());
}

/// Sends are spaced by the interval: right after a send nothing is due
/// while the interval is not zero, and once the interval has passed since the
/// last send the throttle no longer holds.
pub proof fn lemma_send_spacing(t: u128, now: u128, interval: u128)
    ensures
        interval > 0 ==> throttled(Some(t), t, interval),
        now >= t && now - t >= interval ==> !throttled(Some(t), now, interval),
        now >= t && now - t < interval ==> throttled(Some(t), now, interval),
        now < t && interval > 0 ==> throttled(Some(t), now, interval),
        !throttled(None, now, interval),
{
}

/// Nothing is due while less than the configured interval has passed since
/// the last send, whatever the interval; and once it has passed, the
/// configured target is due.
pub proof fn lemma_throttle_exact(t: u128, now: u128, interval: u128)
    requires
        now >= t,
    ensures
        throttled(Some(t), now, interval) <==> now - t < interval,
{
}

/// Equality of socket settings is an equivalence, and it ignores the
/// discovered devices.
pub proof fn lemma_socket_eq_equivalence(a: &SocketState, b: &SocketState, c: &SocketState)
    ensures
        socket_state_eq(a, a),
        socket_state_eq(a, b) ==> socket_state_eq(b, a),
        socket_state_eq(a, b) && socket_state_eq(b, c) ==> socket_state_eq(a, c),
        a.interval == b.interval && a.target == b.target ==> socket_state_eq(a, b),
{
}

} // verus!
