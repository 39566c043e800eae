use vstd::prelude::*;

use tokio::sync::broadcast::Sender;

use crate::channel_name::HubChannelName;
use crate::controller::HubReceiver;
use crate::hub_message::HubMessage;
use crate::kv::{
    kv_map, lemma_kv_absent, lemma_kv_lookup, lemma_kv_push, lemma_kv_remove, lemma_kv_update,
    lemma_push_fresh, lemma_remove_at, unique_keys,
};
use crate::runtime::{broadcast_channel, broadcast_sender_clone, broadcast_subscribe,
    new_subscriber_id};

verus! {

/// The fixed capacity of every broadcast in the hub: a subscriber that
/// falls more than this many messages behind is lagged, never blocking
/// the producers.
pub const CHANNEL_CAPACITY: usize = 100;

/// One topic's state: the broadcast its subscribers listen on, and the set
/// of subscriber identifiers.
struct ChannelEntry {
    name: HubChannelName,
    sender: Sender<HubMessage>,
    subscribers: Vec<u128>,
}

spec fn entry_key() -> spec_fn(ChannelEntry) -> Seq<char> {
    |e: ChannelEntry| e.name@
}

spec fn entry_val() -> spec_fn(ChannelEntry) -> Set<u128> {
    |e: ChannelEntry| e.subscribers@.to_set()
}

/// What a local subscription does to the channel map: the subscriber joins
/// the topic's set, which is created at its first subscriber.
pub open spec fn spec_subscribe(m: Map<Seq<char>, Set<u128>>, t: Seq<char>, id: u128) -> Map<
    Seq<char>,
    Set<u128>,
> {
    if m.dom().contains(t) {
        m.insert(t, m[t].insert(id))
    } else {
        m.insert(t, Set::empty().insert(id))
    }
}

/// What ending a local subscription does to the channel map: the subscriber
/// leaves the topic's set, and the entry of a topic left without
/// subscribers is removed entirely.
pub open spec fn spec_unsubscribe(m: Map<Seq<char>, Set<u128>>, t: Seq<char>, id: u128) -> Map<
    Seq<char>,
    Set<u128>,
> {
    if m.dom().contains(t) {
        if m[t].remove(id) == Set::<u128>::empty() {
            m.remove(t)
        } else {
            m.insert(t, m[t].remove(id))
        }
    } else {
        m
    }
}

/// The hub's channel registry: its meaning is the map from each topic to
/// the set of its subscribers' identifiers.  A topic entry exists exactly
/// while it has subscribers.
pub struct HubChannels {
    entries: Vec<ChannelEntry>,
}

impl View for HubChannels {
    type V = Map<Seq<char>, Set<u128>>;

    closed spec fn view(&self) -> Map<Seq<char>, Set<u128>> {
        kv_map(self.entries@, entry_key(), entry_val())
    }
}

impl HubChannels {
    /// Topics are listed once each, and no listed topic is without
    /// subscribers; a subscriber is counted once per topic.
    pub closed spec fn wf(&self) -> bool {
        &&& unique_keys(self.entries@, entry_key())
        &&& forall|i: int|
            0 <= i < self.entries@.len() ==> (#[trigger] self.entries@[i]).subscribers@.len() > 0
                && self.entries@[i].subscribers@.no_duplicates()
    }

    /// An empty registry.
    pub fn new() -> (r: HubChannels)
        ensures
            r.wf(),
            r@ == Map::<Seq<char>, Set<u128>>::empty(),
    {
        let r = HubChannels { entries: Vec::new() };
        proof {
            assert(r.entries@.len() == 0);
        }
        r
    }

    fn position_of(&self, channel: &HubChannelName) -> (r: Option<usize>)
        ensures
            match r {
                Some(i) => i < self.entries@.len() && self.entries@[i as int].name@ == channel@,
                None => forall|i: int|
                    0 <= i < self.entries@.len() ==> (#[trigger] self.entries@[i]).name@
                        != channel@,
            },
    {
        let n = self.entries.len();
        let mut k: usize = 0;
        while k < n
            invariant
                k <= n,
                n == self.entries@.len(),
                forall|i: int|
                    0 <= i < k ==> (#[trigger] self.entries@[i]).name@ != channel@,
            decreases n - k,
        {
            if self.entries[k].name.same(channel) {
                return Some(k);
            }
            k = k + 1;
        }
        None
    }

    /// Whether the topic currently has an entry (and so subscribers).
    pub fn contains_channel(&self, channel: &HubChannelName) -> (r: bool)
        ensures
            r == self@.dom().contains(channel@),
    {
        let r = self.position_of(channel);
        proof {
            match r {
                Some(i) => {
                    lemma_kv_lookup_any(self.entries@, i as int);
                },
                None => {
                    lemma_kv_absent(self.entries@, entry_key(), entry_val(), channel@);
                },
            }
        }
        r.is_some()
    }

    /// Subscribe a new user to a topic, creating the topic's entry and its
    /// broadcast at the first subscriber.  Returns the minted identifier
    /// with a receiver on the topic's broadcast.
    pub fn subscribe_user(&mut self, channel: &HubChannelName) -> (r: HubReceiver)
        requires
            old(self).wf(),
        ensures
            final(self).wf(),
            final(self)@ == spec_subscribe(old(self)@, channel@, r.spec_id()),
    {
        let id = new_subscriber_id();
        let ghost m0 = self@;
        match self.position_of(channel) {
            Some(i) => {
                proof {
                    lemma_kv_lookup(self.entries@, entry_key(), entry_val(), i as int);
                }
                let receiver = broadcast_subscribe(&self.entries[i].sender);
                if !contains_id(&self.entries[i].subscribers, id) {
                    let ghost s0 = self.entries@;
                    vstd::std_specs::vec::vec_index_mut(&mut self.entries, i).subscribers.push(id);
                    proof {
                        let e1 = self.entries@[i as int];
                        assert(self.entries@ == s0.update(i as int, e1));
                        assert(e1.name@ == s0[i as int].name@);
                        assert(e1.subscribers@ == s0[i as int].subscribers@.push(id));
                        lemma_push_fresh(s0[i as int].subscribers@, id);
                        lemma_kv_update(s0, entry_key(), entry_val(), i as int, e1);
                        assert(e1.subscribers@.to_set() =~= m0[channel@].insert(id));
                        assert(self@ =~= spec_subscribe(m0, channel@, id));
                        lemma_wf_update(s0, i as int, e1);
                    }
                } else {
                    proof {
                        assert(m0[channel@].contains(id));
                        assert(m0[channel@].insert(id) =~= m0[channel@]);
                        assert(spec_subscribe(m0, channel@, id) =~= m0);
                    }
                }
                HubReceiver::new(id, receiver)
            },
            None => {
                proof {
                    lemma_kv_absent(self.entries@, entry_key(), entry_val(), channel@);
                }
                let (sender, receiver) = broadcast_channel(CHANNEL_CAPACITY);
                let mut subscribers: Vec<u128> = Vec::new();
                subscribers.push(id);
                let ghost s0 = self.entries@;
                let entry = ChannelEntry { name: channel.clone(), sender, subscribers };
                self.entries.push(entry);
                proof {
                    let e = self.entries@.last();
                    lemma_kv_push(s0, entry_key(), entry_val(), e);
                    assert(e.subscribers@ =~= Seq::<u128>::empty().push(id));
                    assert(Seq::<u128>::empty().to_set() =~= Set::<u128>::empty());
                    lemma_push_fresh(Seq::<u128>::empty(), id);
                    assert(e.subscribers@.to_set() == Set::<u128>::empty().insert(id));
                    assert(self@ =~= spec_subscribe(m0, channel@, id));
                    assert forall|a: int, b: int|
                        0 <= a < b < self.entries@.len() implies entry_key()(
                        #[trigger] self.entries@[a],
                    ) != entry_key()(#[trigger] self.entries@[b]) by {
                        assert(s0[a] == self.entries@[a]);
                        if b < s0.len() as int {
                            assert(s0[b] == self.entries@[b]);
                        } else {
                            assert(self.entries@[b].name@ == channel@);
                        }
                    }
                    assert forall|q: int|
                        0 <= q < self.entries@.len() implies (#[trigger] self.entries@[
                        q]).subscribers@.len() > 0 && self.entries@[q].subscribers@.no_duplicates()
                        by {
                        if q < s0.len() as int {
                            assert(self.entries@[q] == s0[q]);
                        } else {
                            assert(self.entries@[q].subscribers@ =~= seq![id]);
                        }
                    }
                }
                HubReceiver::new(id, receiver)
            },
        }
    }

    /// Remove a subscriber from a topic.  The last subscriber's departure
    /// removes the topic's entry, dropping its broadcast.
    pub fn unsubscribe_user(&mut self, channel: &HubChannelName, user_id: u128)
        requires
            old(self).wf(),
        ensures
            final(self).wf(),
            final(self)@ == spec_unsubscribe(old(self)@, channel@, user_id),
    {
        let ghost m0 = self@;
        match self.position_of(channel) {
            None => {
                proof {
                    lemma_kv_absent(self.entries@, entry_key(), entry_val(), channel@);
                }
            },
            Some(i) => {
                proof {
                    lemma_kv_lookup(self.entries@, entry_key(), entry_val(), i as int);
                }
                match position_of_id(&self.entries[i].subscribers, user_id) {
                    None => {
                        proof {
                            assert(!m0[channel@].contains(user_id));
                            assert(m0[channel@].remove(user_id) =~= m0[channel@]);
                            let e = self.entries@[i as int];
                            assert(e.subscribers@.to_set().contains(e.subscribers@[0]));
                            assert(m0[channel@] != Set::<u128>::empty());
                            assert(m0.insert(channel@, m0[channel@]) =~= m0);
                        }
                    },
                    Some(j) => {
                        let ghost s0 = self.entries@;
                        vstd::std_specs::vec::vec_index_mut(
                            &mut self.entries,
                            i,
                        ).subscribers.remove(j);
                        let ghost s1 = self.entries@;
                        let ghost e1 = self.entries@[i as int];
                        proof {
                            assert(s1 == s0.update(i as int, e1));
                            assert(e1.name@ == s0[i as int].name@);
                            assert(e1.subscribers@ == s0[i as int].subscribers@.remove(j as int));
                            lemma_remove_at(s0[i as int].subscribers@, j as int);
                            assert(e1.subscribers@.to_set() =~= m0[channel@].remove(user_id));
                            lemma_kv_update(s0, entry_key(), entry_val(), i as int, e1);
                        }
                        if self.entries[i].subscribers.len() == 0 {
                            self.entries.remove(i);
                            proof {
                                assert(m0[channel@].remove(user_id) =~= Set::<u128>::empty());
                                assert forall|a: int, b: int|
                                    0 <= a < b < s1.len() implies entry_key()(#[trigger] s1[a])
                                    != entry_key()(#[trigger] s1[b]) by {
                                    assert(s1[a].name@ == s0[a].name@);
                                    assert(s1[b].name@ == s0[b].name@);
                                }
                                lemma_kv_remove(s1, entry_key(), entry_val(), i as int);
                                assert(m0.insert(channel@, m0[channel@].remove(user_id)).remove(
                                    channel@,
                                ) =~= m0.remove(channel@));
                                assert(self@ == spec_unsubscribe(m0, channel@, user_id));
                                assert forall|a: int, b: int|
                                    0 <= a < b < self.entries@.len() implies entry_key()(
                                    #[trigger] self.entries@[a],
                                ) != entry_key()(#[trigger] self.entries@[b]) by {
                                    let aa = if a < i as int {
                                        a
                                    } else {
                                        a + 1
                                    };
                                    let bb = if b < i as int {
                                        b
                                    } else {
                                        b + 1
                                    };
                                    assert(self.entries@[a].name@ == s1[aa].name@);
                                    assert(self.entries@[b].name@ == s1[bb].name@);
                                    assert(s1[aa].name@ == s0[aa].name@);
                                    assert(s1[bb].name@ == s0[bb].name@);
                                }
                                assert forall|q: int|
                                    0 <= q < self.entries@.len() implies (#[trigger] self.entries@[
                                q]).subscribers@.len() > 0
                                    && self.entries@[q].subscribers@.no_duplicates() by {
                                    let qq = if q < i as int {
                                        q
                                    } else {
                                        q + 1
                                    };
                                    assert(self.entries@[q] == s1[qq]);
                                    assert(qq != i as int);
                                    assert(s1[qq] == s0[qq]);
                                }
                            }
                        } else {
                            proof {
                                assert(e1.subscribers@.to_set().contains(e1.subscribers@[0]));
                                assert(m0[channel@].remove(user_id) != Set::<u128>::empty());
                                assert(self@ == spec_unsubscribe(m0, channel@, user_id));
                                lemma_wf_update(s0, i as int, e1);
                            }
                        }
                    },
                }
            },
        }
    }

    /// How many subscribers a topic has; zero when it has no entry.
    pub fn get_number_subscribers(&self, channel: &HubChannelName) -> (r: usize)
        requires
            self.wf(),
        ensures
            self@.dom().contains(channel@) ==> r as nat == self@[channel@].len(),
            !self@.dom().contains(channel@) ==> r == 0,
    {
        match self.position_of(channel) {
            Some(i) => {
                proof {
                    lemma_kv_lookup(self.entries@, entry_key(), entry_val(), i as int);
                    self.entries@[i as int].subscribers@.unique_seq_to_set();
                }
                self.entries[i].subscribers.len()
            },
            None => {
                proof {
                    lemma_kv_absent(self.entries@, entry_key(), entry_val(), channel@);
                }
                0
            },
        }
    }

    /// Whether a topic is without subscribers — so, without an entry.
    pub fn is_empty(&self, channel: &HubChannelName) -> (r: bool)
        requires
            self.wf(),
        ensures
            r == !self@.dom().contains(channel@),
    {
        !self.contains_channel(channel)
    }

    /// Whether `user_id` is subscribed to the topic.
    pub fn has_subscriber(&self, channel: &HubChannelName, user_id: u128) -> (r: bool)
        requires
            self.wf(),
        ensures
            r == (self@.dom().contains(channel@) && self@[channel@].contains(user_id)),
    {
        match self.position_of(channel) {
            Some(i) => {
                proof {
                    lemma_kv_lookup(self.entries@, entry_key(), entry_val(), i as int);
                }
                contains_id(&self.entries[i].subscribers, user_id)
            },
            None => {
                proof {
                    lemma_kv_absent(self.entries@, entry_key(), entry_val(), channel@);
                }
                false
            },
        }
    }

    /// A sending handle on the topic's broadcast, when the topic has one.
    pub fn get_sender(&self, channel: &HubChannelName) -> (r: Option<Sender<HubMessage>>)
        ensures
            r is Some <==> self@.dom().contains(channel@),
    {
        match self.position_of(channel) {
            Some(i) => {
                proof {
                    lemma_kv_lookup_any(self.entries@, i as int);
                }
                Some(broadcast_sender_clone(&self.entries[i].sender))
            },
            None => {
                proof {
                    lemma_kv_absent(self.entries@, entry_key(), entry_val(), channel@);
                }
                None
            },
        }
    }
}

/// Replacing one entry by a well-formed entry with the same name keeps the
/// registry well-formed.
proof fn lemma_wf_update(s0: Seq<ChannelEntry>, i: int, e1: ChannelEntry)
    requires
        unique_keys(s0, entry_key()),
        forall|q: int|
            0 <= q < s0.len() ==> (#[trigger] s0[q]).subscribers@.len() > 0
                && s0[q].subscribers@.no_duplicates(),
        0 <= i < s0.len(),
        e1.name@ == s0[i].name@,
        e1.subscribers@.len() > 0,
        e1.subscribers@.no_duplicates(),
    ensures
        unique_keys(s0.update(i, e1), entry_key()),
        forall|q: int|
            0 <= q < s0.update(i, e1).len() ==> (#[trigger] s0.update(i, e1)[q]).subscribers@.len()
                > 0 && s0.update(i, e1)[q].subscribers@.no_duplicates(),
{
    let s1 = s0.update(i, e1);
    assert forall|a: int, b: int|
        0 <= a < b < s1.len() implies entry_key()(#[trigger] s1[a]) != entry_key()(
        #[trigger] s1[b],
    ) by {
        assert(s1[a].name@ == s0[a].name@);
        assert(s1[b].name@ == s0[b].name@);
    }
    assert forall|q: int|
        0 <= q < s1.len() implies (#[trigger] s1[q]).subscribers@.len() > 0
            && s1[q].subscribers@.no_duplicates() by {
        if q != i {
            assert(s1[q] == s0[q]);
        }
    }
}

/// Membership of one entry's key in the map, without distinct keys.
proof fn lemma_kv_lookup_any(s: Seq<ChannelEntry>, i: int)
    requires
        0 <= i < s.len(),
    ensures
        kv_map(s, entry_key(), entry_val()).dom().contains(s[i].name@),
{
    crate::kv::lemma_kv_dom(s, entry_key(), entry_val(), s[i].name@);
}

fn contains_id(v: &Vec<u128>, id: u128) -> (r: bool)
    ensures
        r == v@.to_set().contains(id),
{
    match position_of_id(v, id) {
        Some(_) => true,
        None => false,
    }
}

fn position_of_id(v: &Vec<u128>, id: u128) -> (r: Option<usize>)
    ensures
        match r {
            Some(j) => j < v@.len() && v@[j as int] == id && v@.to_set().contains(id),
            None => !v@.to_set().contains(id),
        },
{
    let n = v.len();
    let mut k: usize = 0;
    while k < n
        invariant
            k <= n,
            n == v@.len(),
            forall|j: int| 0 <= j < k ==> v@[j] != id,
        decreases n - k,
    {
        if v[k] == id {
            return Some(k);
        }
        k = k + 1;
    }
    proof {
        if v@.to_set().contains(id) {
            let j = choose|j: int| 0 <= j < v@.len() && v@[j] == id;
            assert(v@[j] != id);
        }
    }
    None
}

} // verus!
