use vstd::prelude::*;

use tokio::sync::broadcast::{Receiver, Sender};

use crate::channel_name::HubChannelName;
use crate::hub_channels::{spec_subscribe, spec_unsubscribe, HubChannels, CHANNEL_CAPACITY};
use crate::hub_message::HubMessage;
use crate::hub_users::{spec_user_subscribe, spec_user_unsubscribe, HubUsers};
use crate::runtime::{
    broadcast_channel, broadcast_resubscribe, broadcast_send, broadcast_sender_clone,
};

verus! {

/// What a local subscriber holds: its identifier, and a receiver on the
/// topic's broadcast.
pub struct HubReceiver {
    id: u128,
    receiver: Receiver<HubMessage>,
}

impl HubReceiver {
    /// The subscriber identifier this receiver was handed out under.
    pub closed spec fn spec_id(&self) -> u128 {
        self.id
    }

    /// Pair an identifier with a receiver.
    pub fn new(id: u128, receiver: Receiver<HubMessage>) -> (r: HubReceiver)
        ensures
            r.spec_id() == id,
    {
        HubReceiver { id, receiver }
    }

    /// The subscriber identifier.
    pub fn user_id(&self) -> (r: u128)
        ensures
            r == self.spec_id(),
    {
        self.id
    }

    /// A receiver on the same broadcast, seeing the messages sent from
    /// this moment on.
    pub fn receiver(&self) -> Receiver<HubMessage> {
        broadcast_resubscribe(&self.receiver)
    }

    /// Surrender the receiver itself.
    pub(crate) fn into_receiver(self) -> Receiver<HubMessage> {
        self.receiver
    }

    /// The same subscriber with a fresh receiver on its broadcast.
    pub fn resubscribe(&self) -> (r: HubReceiver)
        ensures
            r.spec_id() == self.spec_id(),
    {
        HubReceiver { id: self.id, receiver: broadcast_resubscribe(&self.receiver) }
    }
}

/// The hub manager's registry state: which topics exist, who subscribes to
/// each, and which topics each subscriber holds.  Transport adapters and
/// their tasks live outside the library; they consult the decisions this
/// state returns — in particular, when an adapter-level subscribe or
/// unsubscribe is owed upstream.
pub struct HubManager {
    channels: HubChannels,
    subscribers: HubUsers,
    hub_sender: Sender<HubMessage>,
    hub_receiver: Receiver<HubMessage>,
}

impl HubManager {
    /// The per-topic subscriber sets.
    pub closed spec fn channels_view(&self) -> Map<Seq<char>, Set<u128>> {
        self.channels@
    }

    /// The per-subscriber topic sets.
    pub closed spec fn users_view(&self) -> Map<u128, Set<Seq<char>>> {
        self.subscribers@
    }

    pub closed spec fn wf(&self) -> bool {
        self.channels.wf() && self.subscribers.wf()
    }

    /// A hub with no topics and no subscribers, and a fresh ingress
    /// broadcast that every attached adapter will publish into.
    pub fn new() -> (r: HubManager)
        ensures
            r.wf(),
            r.channels_view() == Map::<Seq<char>, Set<u128>>::empty(),
            r.users_view() == Map::<u128, Set<Seq<char>>>::empty(),
    {
        let (hub_sender, hub_receiver) = broadcast_channel(CHANNEL_CAPACITY);
        HubManager {
            channels: HubChannels::new(),
            subscribers: HubUsers::new(),
            hub_sender,
            hub_receiver,
        }
    }

    /// A sending handle on the ingress broadcast, for an adapter to publish
    /// inbound messages into.
    pub fn ingress_sender(&self) -> Sender<HubMessage> {
        broadcast_sender_clone(&self.hub_sender)
    }

    /// A receiving handle on the ingress broadcast, for the dispatcher loop.
    pub fn ingress_receiver(&self) -> Receiver<HubMessage> {
        broadcast_resubscribe(&self.hub_receiver)
    }

    /// Subscribe locally to a topic.  Returns the subscriber's receiver and
    /// whether an adapter-level subscribe is owed upstream — exactly at the
    /// topic's transition from no subscribers to some.
    pub fn register_to_channel(&mut self, channel: &HubChannelName) -> (r: (HubReceiver, bool))
        requires
            old(self).wf(),
        ensures
            final(self).wf(),
            final(self).channels_view() == spec_subscribe(
                old(self).channels_view(),
                channel@,
                r.0.spec_id(),
            ),
            final(self).users_view() == spec_user_subscribe(
                old(self).users_view(),
                r.0.spec_id(),
                channel@,
            ),
            r.1 == !old(self).channels_view().dom().contains(channel@),
    {
        let first = self.channels.is_empty(channel);
        let receiver = self.channels.subscribe_user(channel);
        self.subscribers.subscribe_user(channel, &receiver);
        let out = receiver.resubscribe();
        (out, first)
    }

    /// End a local subscription.  Returns whether an adapter-level
    /// unsubscribe is owed upstream — exactly at the topic's transition
    /// from some subscribers to none, when its entry is removed.
    pub fn unregister_from_channel(&mut self, channel: &HubChannelName, user_id: u128) -> (r: bool)
        requires
            old(self).wf(),
        ensures
            final(self).wf(),
            final(self).channels_view() == spec_unsubscribe(
                old(self).channels_view(),
                channel@,
                user_id,
            ),
            final(self).users_view() == spec_user_unsubscribe(
                old(self).users_view(),
                user_id,
                channel@,
            ),
            r == (old(self).channels_view().dom().contains(channel@) && old(
                self,
            ).channels_view()[channel@].remove(user_id) == Set::<u128>::empty()),
    {
        let ghost m0 = self.channels@;
        let existed = self.channels.contains_channel(channel);
        self.channels.unsubscribe_user(channel, user_id);
        self.subscribers.unsubscribe_user(channel, user_id);
        let removed = existed && self.channels.is_empty(channel);
        proof {
            if existed {
                if m0[channel@].remove(user_id) == Set::<u128>::empty() {
                    assert(!self.channels@.dom().contains(channel@));
                } else {
                    assert(self.channels@.dom().contains(channel@));
                }
            }
        }
        removed
    }

    /// Route one inbound message to its topic's broadcast.  A message for a
    /// topic without local subscribers is dropped, and the result is false;
    /// true means the topic's entry existed and a subscriber received it.
    pub fn dispatch(&self, message: &HubMessage) -> (r: bool)
        ensures
            r ==> self.channels_view().dom().contains(message.channel@),
    {
        match self.channels.get_sender(&message.channel) {
            Some(sender) => broadcast_send(&sender, message.clone()),
            None => false,
        }
    }

    /// How many local subscribers a topic has.
    pub fn get_number_subscribers(&self, channel: &HubChannelName) -> (r: usize)
        requires
            self.wf(),
        ensures
            self.channels_view().dom().contains(channel@) ==> r as nat
                == self.channels_view()[channel@].len(),
            !self.channels_view().dom().contains(channel@) ==> r == 0,
    {
        self.channels.get_number_subscribers(channel)
    }

    /// Whether `user_id` is subscribed to the topic.
    pub fn has_subscriber(&self, channel: &HubChannelName, user_id: u128) -> (r: bool)
        requires
            self.wf(),
        ensures
            r == (self.channels_view().dom().contains(channel@)
                && self.channels_view()[channel@].contains(user_id)),
    {
        self.channels.has_subscriber(channel, user_id)
    }
}

/// A name occurs somewhere in a list of channel lists.
pub open spec fn lists_contain(ls: Seq<Vec<HubChannelName>>, t: Seq<char>) -> bool {
    exists|a: int, b: int|
        0 <= a < ls.len() && 0 <= b < ls[a]@.len() && (#[trigger] ls[a]@[b])@ == t
}

/// A name occurs in a list of channel names.
pub open spec fn names_have(os: Seq<HubChannelName>, t: Seq<char>) -> bool {
    exists|k: int| 0 <= k < os.len() && (#[trigger] os[k])@ == t
}

/// A name occurs in the part of the lists consumed so far: any of the
/// first `i` lists, or the first `j` entries of list `i`.
spec fn consumed(ls: Seq<Vec<HubChannelName>>, i: int, j: int, t: Seq<char>) -> bool {
    lists_contain(ls.take(i), t) || (0 <= i < ls.len() && exists|b: int|
        0 <= b < j && (#[trigger] ls[i]@[b])@ == t)
}

/// The union of the channel lists the attached adapters reported, each
/// name once: what the hub's channel listing returns.
pub fn merge_channel_lists(lists: &Vec<Vec<HubChannelName>>) -> (r: Vec<HubChannelName>)
    ensures
        forall|t: Seq<char>| #[trigger] names_have(r@, t) <==> lists_contain(lists@, t),
        forall|k1: int, k2: int| 0 <= k1 < k2 < r@.len() ==> r@[k1]@ != r@[k2]@,
{
    let mut out: Vec<HubChannelName> = Vec::new();
    let n = lists.len();
    let mut i: usize = 0;
    while i < n
        invariant
            i <= n,
            n == lists@.len(),
            forall|t: Seq<char>| #[trigger] names_have(out@, t) <==> consumed(
                lists@,
                i as int,
                0,
                t,
            ),
            forall|k1: int, k2: int| 0 <= k1 < k2 < out@.len() ==> out@[k1]@ != out@[k2]@,
        decreases n - i,
    {
        let m = lists[i].len();
        let mut j: usize = 0;
        while j < m
            invariant
                i < n,
                n == lists@.len(),
                j <= m,
                m == lists@[i as int]@.len(),
                forall|t: Seq<char>| #[trigger] names_have(out@, t) <==> consumed(
                    lists@,
                    i as int,
                    j as int,
                    t,
                ),
                forall|k1: int, k2: int| 0 <= k1 < k2 < out@.len() ==> out@[k1]@ != out@[k2]@,
            decreases m - j,
        {
            let name = &lists[i][j];
            let ghost out0 = out@;
            let had = contains_name(&out, name);
            if !had {
                out.push(name.clone());
            }
            proof {
                assert forall|t: Seq<char>| #[trigger] names_have(out@, t) implies consumed(
                    lists@,
                    i as int,
                    j as int + 1,
                    t,
                ) by {
                    let k = choose|k: int| 0 <= k < out@.len() && (#[trigger] out@[k])@ == t;
                    if k < out0.len() {
                        assert(out0[k]@ == t);
                        assert(names_have(out0, t));
                        assert(consumed(lists@, i as int, j as int, t));
                        if !lists_contain(lists@.take(i as int), t) {
                            let b = choose|b: int|
                                0 <= b < j && (#[trigger] lists@[i as int]@[b])@ == t;
                            assert(lists@[i as int]@[b]@ == t);
                        }
                    } else {
                        assert(t == name@);
                        assert(lists@[i as int]@[j as int]@ == t);
                    }
                }
                assert forall|t: Seq<char>|
                    consumed(lists@, i as int, j as int + 1, t) implies #[trigger] names_have(
                    out@,
                    t,
                ) by {
                    if consumed(lists@, i as int, j as int, t) {
                        assert(names_have(out0, t));
                        let k = choose|k: int| 0 <= k < out0.len() && (#[trigger] out0[k])@ == t;
                        assert(out@[k]@ == t);
                    } else {
                        let b = choose|b: int|
                            0 <= b < j + 1 && (#[trigger] lists@[i as int]@[b])@ == t;
                        assert(b == j as int);
                        assert(t == name@);
                        if had {
                            assert(names_have(out0, name@));
                            let k = choose|k: int|
                                0 <= k < out0.len() && (#[trigger] out0[k])@ == name@;
                            assert(out@[k]@ == t);
                        } else {
                            assert(out@[out@.len() - 1]@ == t);
                        }
                    }
                }
                assert forall|k1: int, k2: int|
                    0 <= k1 < k2 < out@.len() implies out@[k1]@ != out@[k2]@ by {
                    if k2 == out0.len() as int {
                        assert(out@[k1] == out0[k1]);
                        assert(!had);
                        assert(out@[k2]@ == name@);
                        if out0[k1]@ == name@ {
                            assert(names_have(out0, name@));
                        }
                    }
                }
            }
            j = j + 1;
        }
        i = i + 1;
        proof {
            assert forall|t: Seq<char>|
                consumed(lists@, i as int - 1, m as int, t) implies consumed(
                lists@,
                i as int,
                0,
                t,
            ) by {
                if lists_contain(lists@.take(i as int - 1), t) {
                    let (a, b) = choose|a: int, b: int|
                        0 <= a < lists@.take(i as int - 1).len() && 0 <= b < lists@.take(
                            i as int - 1,
                        )[a]@.len() && (#[trigger] lists@.take(i as int - 1)[a]@[b])@ == t;
                    assert(lists@.take(i as int)[a]@[b]@ == t);
                } else {
                    let b = choose|b: int|
                        0 <= b < m && (#[trigger] lists@[i as int - 1]@[b])@ == t;
                    assert(lists@.take(i as int)[i as int - 1]@[b]@ == t);
                }
            }
            assert forall|t: Seq<char>|
                consumed(lists@, i as int, 0, t) implies consumed(
                lists@,
                i as int - 1,
                m as int,
                t,
            ) by {
                let (a, b) = choose|a: int, b: int|
                    0 <= a < lists@.take(i as int).len() && 0 <= b < lists@.take(i as int)[a]@.len()
                        && (#[trigger] lists@.take(i as int)[a]@[b])@ == t;
                if a < i as int - 1 {
                    assert(lists@.take(i as int - 1)[a]@[b]@ == t);
                } else {
                    assert(lists@[i as int - 1]@[b]@ == t);
                }
            }
        }
    }
    proof {
        assert forall|t: Seq<char>| #[trigger] names_have(out@, t) implies lists_contain(
            lists@,
            t,
        ) by {
            assert(consumed(lists@, n as int, 0, t));
            let (a, b) = choose|a: int, b: int|
                0 <= a < lists@.take(n as int).len() && 0 <= b < lists@.take(n as int)[a]@.len()
                    && (#[trigger] lists@.take(n as int)[a]@[b])@ == t;
            assert(lists@[a]@[b]@ == t);
        }
        assert forall|t: Seq<char>| lists_contain(lists@, t) implies #[trigger] names_have(
            out@,
            t,
        ) by {
            let (a, b) = choose|a: int, b: int|
                0 <= a < lists@.len() && 0 <= b < lists@[a]@.len() && (#[trigger] lists@[a]@[b])@
                    == t;
            assert(lists@.take(n as int)[a]@[b]@ == t);
            assert(consumed(lists@, n as int, 0, t));
        }
    }
    out
}

fn contains_name(v: &Vec<HubChannelName>, name: &HubChannelName) -> (r: bool)
    ensures
        r == names_have(v@, name@),
{
    let n = v.len();
    let mut k: usize = 0;
    while k < n
        invariant
            k <= n,
            n == v@.len(),
            forall|q: int| 0 <= q < k ==> (#[trigger] v@[q])@ != name@,
        decreases n - k,
    {
        if v[k].same(name) {
            return true;
        }
        k = k + 1;
    }
    proof {
        if names_have(v@, name@) {
            let q = choose|q: int| 0 <= q < v@.len() && (#[trigger] v@[q])@ == name@;
            assert(v@[q]@ != name@);
        }
    }
    false
}

/// Registering to a fresh topic and then unregistering that subscriber
/// removes the topic's entry: the channel map returns to what it was, and a
/// later subscription starts a fresh entry with a fresh broadcast.
pub proof fn lemma_register_then_unregister(m: Map<Seq<char>, Set<u128>>, t: Seq<char>, id: u128)
    requires
        !m.dom().contains(t),
    ensures
        spec_subscribe(m, t, id).dom().contains(t),
        spec_unsubscribe(spec_subscribe(m, t, id), t, id) == m,
{
    let m1 = spec_subscribe(m, t, id);
    assert(m1[t] == Set::<u128>::empty().insert(id));
    assert(m1[t].remove(id) =~= Set::<u128>::empty());
    assert(m1.remove(t) =~= m);
}

/// The upstream coupling: subscribing fires an adapter-level subscribe
/// exactly when the topic had no subscribers, and that topic then has some;
/// unsubscribing fires an adapter-level unsubscribe exactly when the last
/// subscriber leaves, and the topic's entry is then gone.  Under any
/// interleaving, the two flags alternate per topic: after a firing
/// subscribe the topic is occupied, and after a firing unsubscribe it is
/// free again.
pub proof fn lemma_upstream_coupling(m: Map<Seq<char>, Set<u128>>, t: Seq<char>, id: u128)
    ensures
        spec_subscribe(m, t, id).dom().contains(t),
        !m.dom().contains(t) ==> spec_subscribe(m, t, id)[t] == Set::<u128>::empty().insert(id),
        m.dom().contains(t) ==> ((m[t].remove(id) == Set::<u128>::empty()) <==> !spec_unsubscribe(
            m,
            t,
            id,
        ).dom().contains(t)),
        !m.dom().contains(t) ==> spec_unsubscribe(m, t, id) == m,
{
    if m.dom().contains(t) {
        if m[t].remove(id) == Set::<u128>::empty() {
        } else {
            assert(spec_unsubscribe(m, t, id).dom().contains(t));
        }
    }
}

} // verus!
