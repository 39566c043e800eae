use vstd::prelude::*;

use tokio::sync::broadcast::Receiver;

use crate::channel_name::HubChannelName;
use crate::controller::HubReceiver;
use crate::hub_message::HubMessage;
use crate::kv::{
    kv_map, lemma_kv_absent, lemma_kv_lookup, lemma_kv_push, lemma_kv_remove, lemma_kv_update,
    lemma_push_fresh, lemma_remove_at, unique_keys,
};

verus! {

/// One topic a subscriber holds, with the receiver bound to it.
struct TopicBinding {
    name: HubChannelName,
    receiver: Receiver<HubMessage>,
}

/// One local subscriber and the topics it holds.
struct UserEntry {
    id: u128,
    topics: Vec<TopicBinding>,
}

spec fn user_key() -> spec_fn(UserEntry) -> u128 {
    |u: UserEntry| u.id
}

spec fn binding_name() -> spec_fn(TopicBinding) -> Seq<char> {
    |b: TopicBinding| b.name@
}

spec fn user_val() -> spec_fn(UserEntry) -> Set<Seq<char>> {
    |u: UserEntry| u.topics@.map_values(binding_name()).to_set()
}

/// What a subscription does to the subscriber map: the topic joins the
/// subscriber's set, which is created at its first topic.
pub open spec fn spec_user_subscribe(m: Map<u128, Set<Seq<char>>>, id: u128, t: Seq<char>) -> Map<
    u128,
    Set<Seq<char>>,
> {
    if m.dom().contains(id) {
        m.insert(id, m[id].insert(t))
    } else {
        m.insert(id, Set::empty().insert(t))
    }
}

/// What ending a subscription does to the subscriber map: the topic leaves
/// the subscriber's set, and a subscriber left without topics is removed.
pub open spec fn spec_user_unsubscribe(m: Map<u128, Set<Seq<char>>>, id: u128, t: Seq<char>) -> Map<
    u128,
    Set<Seq<char>>,
> {
    if m.dom().contains(id) {
        if m[id].remove(t) == Set::<Seq<char>>::empty() {
            m.remove(id)
        } else {
            m.insert(id, m[id].remove(t))
        }
    } else {
        m
    }
}

/// The hub's subscriber registry: its meaning is the map from each
/// subscriber's identifier to the set of topics it holds.  A subscriber
/// entry exists exactly while it holds topics.
pub struct HubUsers {
    users: Vec<UserEntry>,
}

impl View for HubUsers {
    type V = Map<u128, Set<Seq<char>>>;

    closed spec fn view(&self) -> Map<u128, Set<Seq<char>>> {
        kv_map(self.users@, user_key(), user_val())
    }
}

impl HubUsers {
    /// Subscribers are listed once each, hold at least one topic, and hold
    /// each topic once.
    pub closed spec fn wf(&self) -> bool {
        &&& unique_keys(self.users@, user_key())
        &&& forall|i: int|
            0 <= i < self.users@.len() ==> (#[trigger] self.users@[i]).topics@.len() > 0
                && unique_keys(self.users@[i].topics@, binding_name())
    }

    /// An empty registry.
    pub fn new() -> (r: HubUsers)
        ensures
            r.wf(),
            r@ == Map::<u128, Set<Seq<char>>>::empty(),
    {
        let r = HubUsers { users: Vec::new() };
        proof {
            assert(r.users@.len() == 0);
        }
        r
    }

    fn position_of(&self, id: u128) -> (r: Option<usize>)
        ensures
            match r {
                Some(i) => i < self.users@.len() && self.users@[i as int].id == id,
                None => forall|i: int|
                    0 <= i < self.users@.len() ==> (#[trigger] self.users@[i]).id != id,
            },
    {
        let n = self.users.len();
        let mut k: usize = 0;
        while k < n
            invariant
                k <= n,
                n == self.users@.len(),
                forall|i: int| 0 <= i < k ==> (#[trigger] self.users@[i]).id != id,
            decreases n - k,
        {
            if self.users[k].id == id {
                return Some(k);
            }
            k = k + 1;
        }
        None
    }

    /// Whether a subscriber currently holds any topic.
    pub fn contains_user(&self, id: u128) -> (r: bool)
        ensures
            r == self@.dom().contains(id),
    {
        let r = self.position_of(id);
        proof {
            match r {
                Some(i) => {
                    crate::kv::lemma_kv_dom(
                        self.users@,
                        user_key(),
                        user_val(),
                        self.users@[i as int].id,
                    );
                },
                None => {
                    lemma_kv_absent(self.users@, user_key(), user_val(), id);
                },
            }
        }
        r.is_some()
    }

    /// Whether a subscriber holds the given topic.
    pub fn holds_topic(&self, id: u128, channel: &HubChannelName) -> (r: bool)
        requires
            self.wf(),
        ensures
            r == (self@.dom().contains(id) && self@[id].contains(channel@)),
    {
        match self.position_of(id) {
            None => {
                proof {
                    lemma_kv_absent(self.users@, user_key(), user_val(), id);
                }
                false
            },
            Some(i) => {
                proof {
                    lemma_kv_lookup(self.users@, user_key(), user_val(), i as int);
                }
                match binding_position(&self.users[i].topics, channel) {
                    Some(j) => {
                        proof {
                            let names = self.users@[i as int].topics@.map_values(binding_name());
                            assert(names[j as int] == channel@);
                        }
                        true
                    },
                    None => {
                        proof {
                            let names = self.users@[i as int].topics@.map_values(binding_name());
                            if names.to_set().contains(channel@) {
                                let k = choose|k: int|
                                    0 <= k < names.len() && names[k] == channel@;
                                assert(self.users@[i as int].topics@[k].name@ == channel@);
                            }
                        }
                        false
                    },
                }
            },
        }
    }

    /// Record that the receiver's subscriber holds the topic.  A binding
    /// the subscriber already holds is refreshed with the new receiver.
    pub fn subscribe_user(&mut self, channel: &HubChannelName, hub_receiver: &HubReceiver)
        requires
            old(self).wf(),
        ensures
            final(self).wf(),
            final(self)@ == spec_user_subscribe(old(self)@, hub_receiver.spec_id(), channel@),
    {
        let id = hub_receiver.user_id();
        let fresh = hub_receiver.resubscribe();
        let receiver = fresh.into_receiver();
        let ghost m0 = self@;
        match self.position_of(id) {
            None => {
                proof {
                    lemma_kv_absent(self.users@, user_key(), user_val(), id);
                }
                let mut topics: Vec<TopicBinding> = Vec::new();
                topics.push(TopicBinding { name: channel.clone(), receiver });
                let ghost s0 = self.users@;
                self.users.push(UserEntry { id, topics });
                proof {
                    let e = self.users@.last();
                    lemma_kv_push(s0, user_key(), user_val(), e);
                    assert(e.topics@.map_values(binding_name()) =~= Seq::<Seq<char>>::empty().push(
                        channel@,
                    ));
                    assert(Seq::<Seq<char>>::empty().to_set() =~= Set::<Seq<char>>::empty());
                    lemma_push_fresh(Seq::<Seq<char>>::empty(), channel@);
                    assert(e.topics@.map_values(binding_name()).to_set() == Set::<
                        Seq<char>,
                    >::empty().insert(channel@));
                    assert(self@ =~= spec_user_subscribe(m0, id, channel@));
                    assert forall|a: int, b: int|
                        0 <= a < b < self.users@.len() implies user_key()(
                        #[trigger] self.users@[a],
                    ) != user_key()(#[trigger] self.users@[b]) by {
                        assert(s0[a] == self.users@[a]);
                        if b < s0.len() as int {
                            assert(s0[b] == self.users@[b]);
                        } else {
                            assert(self.users@[b].id == id);
                        }
                    }
                    assert forall|q: int|
                        0 <= q < self.users@.len() implies (#[trigger] self.users@[
                    q]).topics@.len() > 0 && unique_keys(self.users@[q].topics@, binding_name())
                        by {
                        if q < s0.len() as int {
                            assert(self.users@[q] == s0[q]);
                        }
                    }
                }
            },
            Some(i) => {
                proof {
                    lemma_kv_lookup(self.users@, user_key(), user_val(), i as int);
                }
                let ghost s0 = self.users@;
                let ghost names0 = s0[i as int].topics@.map_values(binding_name());
                match binding_position(&self.users[i].topics, channel) {
                    Some(j) => {
                        vstd::std_specs::vec::vec_index_mut(
                            &mut vstd::std_specs::vec::vec_index_mut(&mut self.users, i).topics,
                            j,
                        ).receiver = receiver;
                        proof {
                            let e1 = self.users@[i as int];
                            let names1 = e1.topics@.map_values(binding_name());
                            assert(names1 =~= names0);
                            assert(names0[j as int] == channel@);
                            assert(names0.to_set().contains(channel@));
                            assert(m0[id].insert(channel@) =~= m0[id]);
                            lemma_kv_update(s0, user_key(), user_val(), i as int, e1);
                            assert(m0.insert(id, m0[id]) =~= m0);
                            assert(self@ == spec_user_subscribe(m0, id, channel@));
                            lemma_users_wf_update(s0, i as int, e1);
                        }
                    },
                    None => {
                        vstd::std_specs::vec::vec_index_mut(&mut self.users, i).topics.push(
                            TopicBinding { name: channel.clone(), receiver },
                        );
                        proof {
                            let e1 = self.users@[i as int];
                            let names1 = e1.topics@.map_values(binding_name());
                            assert(names1 =~= names0.push(channel@));
                            assert forall|k: int| 0 <= k < names0.len() implies #[trigger] names0[k]
                                != channel@ by {
                                assert(s0[i as int].topics@[k].name@ != channel@);
                            }
                            assert(!names0.to_set().contains(channel@)) by {
                                if names0.to_set().contains(channel@) {
                                    let k = choose|k: int|
                                        0 <= k < names0.len() && names0[k] == channel@;
                                    assert(names0[k] != channel@);
                                }
                            }
                            lemma_push_fresh(names0, channel@);
                            lemma_kv_update(s0, user_key(), user_val(), i as int, e1);
                            assert(self@ == spec_user_subscribe(m0, id, channel@));
                            assert forall|a: int, b: int|
                                0 <= a < b < e1.topics@.len() implies binding_name()(
                                #[trigger] e1.topics@[a],
                            ) != binding_name()(#[trigger] e1.topics@[b]) by {
                                assert(names1[a] == e1.topics@[a].name@);
                                assert(names1[b] == e1.topics@[b].name@);
                            }
                            lemma_users_wf_update(s0, i as int, e1);
                        }
                    },
                }
            },
        }
    }

    /// Drop a subscriber's binding to a topic; a subscriber left without
    /// topics is removed from the registry.
    pub fn unsubscribe_user(&mut self, channel: &HubChannelName, user_id: u128)
        requires
            old(self).wf(),
        ensures
            final(self).wf(),
            final(self)@ == spec_user_unsubscribe(old(self)@, user_id, channel@),
    {
        let ghost m0 = self@;
        match self.position_of(user_id) {
            None => {
                proof {
                    lemma_kv_absent(self.users@, user_key(), user_val(), user_id);
                }
            },
            Some(i) => {
                proof {
                    lemma_kv_lookup(self.users@, user_key(), user_val(), i as int);
                }
                let ghost s0 = self.users@;
                let ghost names0 = s0[i as int].topics@.map_values(binding_name());
                match binding_position(&self.users[i].topics, channel) {
                    None => {
                        proof {
                            assert forall|k: int| 0 <= k < names0.len() implies #[trigger] names0[k]
                                != channel@ by {
                                assert(s0[i as int].topics@[k].name@ != channel@);
                            }
                            if names0.to_set().contains(channel@) {
                                let k = choose|k: int|
                                    0 <= k < names0.len() && names0[k] == channel@;
                                assert(names0[k] != channel@);
                            }
                            assert(m0[user_id].remove(channel@) =~= m0[user_id]);
                            assert(names0.to_set().contains(names0[0]));
                            assert(m0[user_id] != Set::<Seq<char>>::empty());
                            assert(m0.insert(user_id, m0[user_id]) =~= m0);
                        }
                    },
                    Some(j) => {
                        vstd::std_specs::vec::vec_index_mut(&mut self.users, i).topics.remove(j);
                        let ghost s1 = self.users@;
                        let ghost e1 = self.users@[i as int];
                        proof {
                            let names1 = e1.topics@.map_values(binding_name());
                            assert(names1 =~= names0.remove(j as int));
                            assert(names0.no_duplicates()) by {
                                assert forall|a: int, b: int|
                                    0 <= a < b < names0.len() implies names0[a] != names0[b] by {
                                    assert(names0[a] == s0[i as int].topics@[a].name@);
                                    assert(names0[b] == s0[i as int].topics@[b].name@);
                                }
                            }
                            lemma_remove_at(names0, j as int);
                            assert(names0[j as int] == channel@);
                            assert(names1.to_set() =~= m0[user_id].remove(channel@));
                            lemma_kv_update(s0, user_key(), user_val(), i as int, e1);
                        }
                        if self.users[i].topics.len() == 0 {
                            self.users.remove(i);
                            proof {
                                assert(m0[user_id].remove(channel@) =~= Set::<Seq<char>>::empty());
                                assert forall|a: int, b: int|
                                    0 <= a < b < s1.len() implies user_key()(#[trigger] s1[a])
                                    != user_key()(#[trigger] s1[b]) by {
                                    assert(s1[a].id == s0[a].id);
                                    assert(s1[b].id == s0[b].id);
                                }
                                lemma_kv_remove(s1, user_key(), user_val(), i as int);
                                assert(m0.insert(user_id, m0[user_id].remove(channel@)).remove(
                                    user_id,
                                ) =~= m0.remove(user_id));
                                assert(self@ == spec_user_unsubscribe(m0, user_id, channel@));
                                assert forall|a: int, b: int|
                                    0 <= a < b < self.users@.len() implies user_key()(
                                    #[trigger] self.users@[a],
                                ) != user_key()(#[trigger] self.users@[b]) by {
                                    let aa = if a < i as int {
                                        a
                                    } else {
                                        a + 1
                                    };
                                    let bb = if b < i as int {
                                        b
                                    } else {
                                        b + 1
                                    };
                                    assert(self.users@[a] == s1[aa]);
                                    assert(self.users@[b] == s1[bb]);
                                    assert(s1[aa].id == s0[aa].id);
                                    assert(s1[bb].id == s0[bb].id);
                                }
                                assert forall|q: int|
                                    0 <= q < self.users@.len() implies (#[trigger] self.users@[
                                q]).topics@.len() > 0 && unique_keys(
                                    self.users@[q].topics@,
                                    binding_name(),
                                ) by {
                                    let qq = if q < i as int {
                                        q
                                    } else {
                                        q + 1
                                    };
                                    assert(self.users@[q] == s1[qq]);
                                    assert(qq != i as int);
                                    assert(s1[qq] == s0[qq]);
                                }
                            }
                        } else {
                            proof {
                                let names1 = e1.topics@.map_values(binding_name());
                                assert(names1.to_set().contains(names1[0]));
                                assert(m0[user_id].remove(channel@) != Set::<Seq<char>>::empty());
                                assert(self@ == spec_user_unsubscribe(m0, user_id, channel@));
                                assert forall|a: int, b: int|
                                    0 <= a < b < e1.topics@.len() implies binding_name()(
                                    #[trigger] e1.topics@[a],
                                ) != binding_name()(#[trigger] e1.topics@[b]) by {
                                    assert(names1[a] == e1.topics@[a].name@);
                                    assert(names1[b] == e1.topics@[b].name@);
                                }
                                lemma_users_wf_update(s0, i as int, e1);
                            }
                        }
                    },
                }
            },
        }
    }
}

fn binding_position(v: &Vec<TopicBinding>, channel: &HubChannelName) -> (r: Option<usize>)
    ensures
        match r {
            Some(j) => j < v@.len() && v@[j as int].name@ == channel@,
            None => forall|k: int| 0 <= k < v@.len() ==> (#[trigger] v@[k]).name@ != channel@,
        },
{
    let n = v.len();
    let mut k: usize = 0;
    while k < n
        invariant
            k <= n,
            n == v@.len(),
            forall|j: int| 0 <= j < k ==> (#[trigger] v@[j]).name@ != channel@,
        decreases n - k,
    {
        if v[k].name.same(channel) {
            return Some(k);
        }
        k = k + 1;
    }
    None
}

/// Replacing one subscriber's entry by a well-formed entry with the same
/// identifier keeps the registry well-formed.
proof fn lemma_users_wf_update(s0: Seq<UserEntry>, i: int, e1: UserEntry)
    requires
        unique_keys(s0, user_key()),
        forall|q: int|
            0 <= q < s0.len() ==> (#[trigger] s0[q]).topics@.len() > 0 && unique_keys(
                s0[q].topics@,
                binding_name(),
            ),
        0 <= i < s0.len(),
        e1.id == s0[i].id,
        e1.topics@.len() > 0,
        unique_keys(e1.topics@, binding_name()),
    ensures
        unique_keys(s0.update(i, e1), user_key()),
        forall|q: int|
            0 <= q < s0.update(i, e1).len() ==> (#[trigger] s0.update(i, e1)[q]).topics@.len() > 0
                && unique_keys(s0.update(i, e1)[q].topics@, binding_name()),
{
    let s1 = s0.update(i, e1);
    assert forall|a: int, b: int|
        0 <= a < b < s1.len() implies user_key()(#[trigger] s1[a]) != user_key()(
        #[trigger] s1[b],
    ) by {
        assert(s1[a].id == s0[a].id);
        assert(s1[b].id == s0[b].id);
    }
    assert forall|q: int|
        0 <= q < s1.len() implies (#[trigger] s1[q]).topics@.len() > 0 && unique_keys(
        s1[q].topics@,
        binding_name(),
    ) by {
        if q != i {
            assert(s1[q] == s0[q]);
        }
    }
}

} // verus!
