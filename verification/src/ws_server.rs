use vstd::prelude::*;

use crate::channel_name::HubChannelName;
use crate::kv::{
    kv_map, lemma_kv_absent, lemma_kv_dom, lemma_kv_dom_is_keys, lemma_kv_lookup, lemma_kv_push,
    lemma_kv_update, lemma_push_fresh, lemma_remove_at, lemma_to_set_push, unique_keys,
};
use crate::ws_message::WsMessage;

verus! {

// The WebSocket server's routing state.  The runtime outside the library
// accepts connections, numbers each peer, and owns each peer's outbound
// queue; every envelope a peer sends is handed here, and the returned
// `(peer, envelope)` pairs are what the runtime must queue in reply.

/// What a subscription does: the peer joins the topic's peer set, created
/// at first sight of the topic.
pub open spec fn spec_ws_subscribe(m: Map<Seq<char>, Set<u64>>, t: Seq<char>, p: u64) -> Map<
    Seq<char>,
    Set<u64>,
> {
    if m.dom().contains(t) {
        m.insert(t, m[t].insert(p))
    } else {
        m.insert(t, Set::empty().insert(p))
    }
}

/// What an unsubscription does: the peer leaves the topic's peer set.  The
/// entry stays, even when emptied — the server never prunes topics.
pub open spec fn spec_ws_unsubscribe(m: Map<Seq<char>, Set<u64>>, t: Seq<char>, p: u64) -> Map<
    Seq<char>,
    Set<u64>,
> {
    if m.dom().contains(t) {
        m.insert(t, m[t].remove(p))
    } else {
        m
    }
}

/// What a data frame does to the state: the topic is recorded, with no
/// subscribers yet, at first sight.
pub open spec fn spec_ws_touch(m: Map<Seq<char>, Set<u64>>, t: Seq<char>) -> Map<
    Seq<char>,
    Set<u64>,
> {
    if m.dom().contains(t) {
        m
    } else {
        m.insert(t, Set::empty())
    }
}

/// The peers subscribed to a topic; none when the topic is unknown.
pub open spec fn spec_ws_peers(m: Map<Seq<char>, Set<u64>>, t: Seq<char>) -> Set<u64> {
    if m.dom().contains(t) {
        m[t]
    } else {
        Set::empty()
    }
}

/// A data frame is delivered to every subscribed peer except its publisher,
/// whatever the topic's state.
pub proof fn lemma_broadcast_excludes_publisher(m: Map<Seq<char>, Set<u64>>, t: Seq<char>, p: u64)
    ensures
        !spec_ws_peers(m, t).remove(p).contains(p),
        forall|q: u64|
            q != p ==> (spec_ws_peers(m, t).remove(p).contains(q) == spec_ws_peers(m, t).contains(
                q,
            )),
{
}

/// One topic as the server knows it: its name and the peers subscribed.
struct WsChannelEntry {
    name: HubChannelName,
    peers: Vec<u64>,
}

spec fn ws_key() -> spec_fn(WsChannelEntry) -> Seq<char> {
    |e: WsChannelEntry| e.name@
}

spec fn ws_val() -> spec_fn(WsChannelEntry) -> Set<u64> {
    |e: WsChannelEntry| e.peers@.to_set()
}

/// The server's channel map: each known topic and the set of peers
/// subscribed to it.  Unlike the hub's local registry, entries outlive
/// their last subscriber.
pub struct WsServerState {
    channels: Vec<WsChannelEntry>,
}

impl View for WsServerState {
    type V = Map<Seq<char>, Set<u64>>;

    closed spec fn view(&self) -> Map<Seq<char>, Set<u64>> {
        kv_map(self.channels@, ws_key(), ws_val())
    }
}

impl WsServerState {
    /// Topics are listed once each; a peer is counted once per topic.
    pub closed spec fn wf(&self) -> bool {
        &&& unique_keys(self.channels@, ws_key())
        &&& forall|i: int|
            0 <= i < self.channels@.len() ==> (#[trigger] self.channels@[
            i]).peers@.no_duplicates()
    }

    /// The known topics, in the order first seen.
    pub closed spec fn names_seq(&self) -> Seq<Seq<char>> {
        self.channels@.map_values(ws_key())
    }

    /// The known topics are exactly the map's domain.
    pub proof fn lemma_names_are_dom(&self)
        ensures
            self.names_seq().to_set() == self@.dom(),
    {
        lemma_kv_dom_is_keys(self.channels@, ws_key(), ws_val());
    }

    /// A server with no topics.
    pub fn new() -> (r: WsServerState)
        ensures
            r.wf(),
            r@ == Map::<Seq<char>, Set<u64>>::empty(),
            r.names_seq() == Seq::<Seq<char>>::empty(),
    {
        let r = WsServerState { channels: Vec::new() };
        proof {
            assert(r.channels@.len() == 0);
            assert(r.names_seq() =~= Seq::<Seq<char>>::empty());
        }
        r
    }

    fn position_of(&self, channel: &HubChannelName) -> (r: Option<usize>)
        ensures
            match r {
                Some(i) => i < self.channels@.len() && self.channels@[i as int].name@ == channel@,
                None => forall|i: int|
                    0 <= i < self.channels@.len() ==> (#[trigger] self.channels@[i]).name@
                        != channel@,
            },
    {
        let n = self.channels.len();
        let mut k: usize = 0;
        while k < n
            invariant
                k <= n,
                n == self.channels@.len(),
                forall|i: int|
                    0 <= i < k ==> (#[trigger] self.channels@[i]).name@ != channel@,
            decreases n - k,
        {
            if self.channels[k].name.same(channel) {
                return Some(k);
            }
            k = k + 1;
        }
        None
    }

    /// Record that `peer` subscribes to the topic, creating the topic's
    /// entry when it is new.
    pub fn handle_subscribe(&mut self, peer: u64, channel: &HubChannelName)
        requires
            old(self).wf(),
        ensures
            final(self).wf(),
            final(self)@ == spec_ws_subscribe(old(self)@, channel@, peer),
            final(self).names_seq() == if old(self)@.dom().contains(channel@) {
                old(self).names_seq()
            } else {
                old(self).names_seq().push(channel@)
            },
    {
        let ghost m0 = self@;
        match self.position_of(channel) {
            Some(i) => {
                proof {
                    lemma_kv_lookup(self.channels@, ws_key(), ws_val(), i as int);
                }
                match peer_position(&self.channels[i].peers, peer) {
                    Some(_) => {
                        proof {
                            assert(m0[channel@].contains(peer));
                            assert(m0[channel@].insert(peer) =~= m0[channel@]);
                            assert(spec_ws_subscribe(m0, channel@, peer) =~= m0);
                        }
                    },
                    None => {
                        let ghost s0 = self.channels@;
                        vstd::std_specs::vec::vec_index_mut(&mut self.channels, i).peers.push(
                            peer,
                        );
                        proof {
                            let e1 = self.channels@[i as int];
                            assert(e1.name@ == s0[i as int].name@);
                            assert(e1.peers@ == s0[i as int].peers@.push(peer));
                            lemma_push_fresh(s0[i as int].peers@, peer);
                            lemma_kv_update(s0, ws_key(), ws_val(), i as int, e1);
                            assert(self@ =~= spec_ws_subscribe(m0, channel@, peer));
                            lemma_ws_wf_update(s0, i as int, e1);
                            assert(self.names_seq() =~= s0.map_values(ws_key()));
                        }
                    },
                }
            },
            None => {
                proof {
                    lemma_kv_absent(self.channels@, ws_key(), ws_val(), channel@);
                }
                let ghost s0 = self.channels@;
                let mut peers: Vec<u64> = Vec::new();
                peers.push(peer);
                self.channels.push(WsChannelEntry { name: channel.clone(), peers });
                proof {
                    let e = self.channels@.last();
                    lemma_kv_push(s0, ws_key(), ws_val(), e);
                    assert(e.peers@ =~= Seq::<u64>::empty().push(peer));
                    assert(Seq::<u64>::empty().to_set() =~= Set::<u64>::empty());
                    lemma_push_fresh(Seq::<u64>::empty(), peer);
                    assert(self@ =~= spec_ws_subscribe(m0, channel@, peer));
                    assert forall|a: int, b: int|
                        0 <= a < b < self.channels@.len() implies ws_key()(
                        #[trigger] self.channels@[a],
                    ) != ws_key()(#[trigger] self.channels@[b]) by {
                        assert(s0[a] == self.channels@[a]);
                        if b < s0.len() as int {
                            assert(s0[b] == self.channels@[b]);
                        } else {
                            assert(self.channels@[b].name@ == channel@);
                        }
                    }
                    assert forall|q: int|
                        0 <= q < self.channels@.len() implies (#[trigger] self.channels@[
                    q]).peers@.no_duplicates() by {
                        if q < s0.len() as int {
                            assert(self.channels@[q] == s0[q]);
                        } else {
                            assert(self.channels@[q].peers@ =~= Seq::<u64>::empty().push(peer));
                        }
                    }
                    assert(self.names_seq() =~= s0.map_values(ws_key()).push(channel@));
                }
            },
        }
    }

    /// Remove `peer` from the topic's peer set, keeping the entry.
    pub fn handle_unsubscribe(&mut self, peer: u64, channel: &HubChannelName)
        requires
            old(self).wf(),
        ensures
            final(self).wf(),
            final(self)@ == spec_ws_unsubscribe(old(self)@, channel@, peer),
            final(self).names_seq() == old(self).names_seq(),
    {
        let ghost m0 = self@;
        match self.position_of(channel) {
            None => {
                proof {
                    lemma_kv_absent(self.channels@, ws_key(), ws_val(), channel@);
                }
            },
            Some(i) => {
                proof {
                    lemma_kv_lookup(self.channels@, ws_key(), ws_val(), i as int);
                }
                match peer_position(&self.channels[i].peers, peer) {
                    None => {
                        proof {
                            assert(!m0[channel@].contains(peer));
                            assert(m0[channel@].remove(peer) =~= m0[channel@]);
                            assert(m0.insert(channel@, m0[channel@]) =~= m0);
                        }
                    },
                    Some(j) => {
                        let ghost s0 = self.channels@;
                        vstd::std_specs::vec::vec_index_mut(&mut self.channels, i).peers.remove(
                            j,
                        );
                        proof {
                            let e1 = self.channels@[i as int];
                            assert(e1.name@ == s0[i as int].name@);
                            assert(e1.peers@ == s0[i as int].peers@.remove(j as int));
                            lemma_remove_at(s0[i as int].peers@, j as int);
                            lemma_kv_update(s0, ws_key(), ws_val(), i as int, e1);
                            assert(self@ =~= spec_ws_unsubscribe(m0, channel@, peer));
                            lemma_ws_wf_update(s0, i as int, e1);
                            assert(self.names_seq() =~= s0.map_values(ws_key()));
                        }
                    },
                }
            },
        }
    }

    /// Record the topic of a data frame, creating an empty entry at first
    /// sight, and name the peers the frame is owed to: every subscriber of
    /// the topic except the publisher.
    pub fn handle_data_peers(&mut self, peer: u64, channel: &HubChannelName) -> (r: Vec<u64>)
        requires
            old(self).wf(),
        ensures
            final(self).wf(),
            final(self)@ == spec_ws_touch(old(self)@, channel@),
            r@.to_set() == spec_ws_peers(old(self)@, channel@).remove(peer),
            r@.no_duplicates(),
            forall|k: int| 0 <= k < r@.len() ==> #[trigger] r@[k] != peer,
            final(self).names_seq() == if old(self)@.dom().contains(channel@) {
                old(self).names_seq()
            } else {
                old(self).names_seq().push(channel@)
            },
    {
        let ghost m0 = self@;
        match self.position_of(channel) {
            None => {
                proof {
                    lemma_kv_absent(self.channels@, ws_key(), ws_val(), channel@);
                }
                let ghost s0 = self.channels@;
                let peers: Vec<u64> = Vec::new();
                self.channels.push(WsChannelEntry { name: channel.clone(), peers });
                proof {
                    let e = self.channels@.last();
                    lemma_kv_push(s0, ws_key(), ws_val(), e);
                    assert(e.peers@.to_set() =~= Set::<u64>::empty());
                    assert(self@ =~= spec_ws_touch(m0, channel@));
                    assert(Seq::<u64>::empty().to_set() =~= Set::<u64>::empty());
                    assert(spec_ws_peers(m0, channel@).remove(peer) =~= Set::<u64>::empty());
                    assert forall|a: int, b: int|
                        0 <= a < b < self.channels@.len() implies ws_key()(
                        #[trigger] self.channels@[a],
                    ) != ws_key()(#[trigger] self.channels@[b]) by {
                        assert(s0[a] == self.channels@[a]);
                        if b < s0.len() as int {
                            assert(s0[b] == self.channels@[b]);
                        } else {
                            assert(self.channels@[b].name@ == channel@);
                        }
                    }
                    assert forall|q: int|
                        0 <= q < self.channels@.len() implies (#[trigger] self.channels@[
                    q]).peers@.no_duplicates() by {
                        if q < s0.len() as int {
                            assert(self.channels@[q] == s0[q]);
                        }
                    }
                    assert(self.names_seq() =~= s0.map_values(ws_key()).push(channel@));
                }
                Vec::new()
            },
            Some(i) => {
                proof {
                    lemma_kv_lookup(self.channels@, ws_key(), ws_val(), i as int);
                    assert(spec_ws_touch(m0, channel@) =~= m0);
                }
                let n = self.channels[i].peers.len();
                let mut out: Vec<u64> = Vec::new();
                let mut k: usize = 0;
                while k < n
                    invariant
                        k <= n,
                        i < self.channels@.len(),
                        n == self.channels@[i as int].peers@.len(),
                        self.channels@[i as int].peers@.no_duplicates(),
                        out@.to_set() == self.channels@[i as int].peers@.take(
                            k as int,
                        ).to_set().remove(peer),
                        out@.no_duplicates(),
                        forall|q: int| 0 <= q < out@.len() ==> #[trigger] out@[q] != peer,
                    decreases n - k,
                {
                    let ghost pre = self.channels@[i as int].peers@.take(k as int);
                    let p = self.channels[i].peers[k];
                    proof {
                        assert(self.channels@[i as int].peers@.take(k + 1) =~= pre.push(p));
                        lemma_to_set_push(pre, p);
                    }
                    if p != peer {
                        proof {
                            assert(!pre.to_set().remove(peer).contains(p)) by {
                                if pre.to_set().contains(p) {
                                    let q = choose|q: int| 0 <= q < pre.len() && pre[q] == p;
                                    assert(self.channels@[i as int].peers@[q] == p);
                                    assert(self.channels@[i as int].peers@[k as int] == p);
                                }
                            }
                            lemma_push_fresh(out@, p);
                            assert(pre.push(p).to_set().remove(peer) =~= pre.to_set().remove(
                                peer,
                            ).insert(p));
                        }
                        out.push(p);
                    } else {
                        proof {
                            assert(pre.push(p).to_set().remove(peer) =~= pre.to_set().remove(
                                peer,
                            ));
                        }
                    }
                    k = k + 1;
                }
                proof {
                    assert(self.channels@[i as int].peers@.take(n as int) =~= self.channels@[
                    i as int].peers@);
                }
                out
            },
        }
    }

    /// The known topics, for a `ListChannelsResponse`.
    pub fn list_channels(&self) -> (r: Vec<HubChannelName>)
        ensures
            r@.map_values(|c: HubChannelName| c@) == self.names_seq(),
    {
        let n = self.channels.len();
        let mut out: Vec<HubChannelName> = Vec::new();
        let mut k: usize = 0;
        while k < n
            invariant
                k <= n,
                n == self.channels@.len(),
                out@.len() == k,
                forall|j: int| 0 <= j < k ==> #[trigger] out@[j]@ == self.channels@[j].name@,
            decreases n - k,
        {
            out.push(self.channels[k].name.clone());
            k = k + 1;
        }
        proof {
            assert(out@.map_values(|c: HubChannelName| c@) =~= self.names_seq());
        }
        out
    }

    /// Remove a departed peer from every topic's peer set; the topics
    /// themselves remain.  After this, the peer is subscribed nowhere.
    pub fn handle_disconnect(&mut self, peer: u64)
        requires
            old(self).wf(),
        ensures
            final(self).wf(),
            final(self)@.dom() == old(self)@.dom(),
            forall|t: Seq<char>|
                old(self)@.dom().contains(t) ==> final(self)@[t] == old(self)@[t].remove(peer),
            forall|t: Seq<char>|
                final(self)@.dom().contains(t) ==> !final(self)@[t].contains(peer),
            final(self).names_seq() == old(self).names_seq(),
    {
        let n = self.channels.len();
        let mut k: usize = 0;
        while k < n
            invariant
                k <= n,
                n == self.channels@.len(),
                old(self).wf(),
                n == old(self).channels@.len(),
                forall|q: int|
                    0 <= q < n ==> (#[trigger] self.channels@[q]).name@ == old(
                        self,
                    ).channels@[q].name@,
                forall|q: int|
                    0 <= q < k ==> (#[trigger] self.channels@[q]).peers@.to_set() == old(
                        self,
                    ).channels@[q].peers@.to_set().remove(peer) && self.channels@[
                    q].peers@.no_duplicates(),
                forall|q: int|
                    k <= q < n ==> #[trigger] self.channels@[q] == old(self).channels@[q],
            decreases n - k,
        {
            match peer_position(&self.channels[k].peers, peer) {
                Some(j) => {
                    let ghost s0 = self.channels@;
                    vstd::std_specs::vec::vec_index_mut(&mut self.channels, k).peers.remove(j);
                    proof {
                        let e1 = self.channels@[k as int];
                        assert(e1.peers@ == s0[k as int].peers@.remove(j as int));
                        lemma_remove_at(s0[k as int].peers@, j as int);
                        assert forall|q: int|
                            0 <= q < n && q != k as int implies #[trigger] self.channels@[q] == s0[
                        q] by {}
                    }
                },
                None => {
                    proof {
                        let cur = self.channels@[k as int].peers@;
                        assert(cur.to_set().remove(peer) =~= cur.to_set());
                    }
                },
            }
            k = k + 1;
        }
        proof {
            lemma_disconnect_view(old(self).channels@, self.channels@, peer);
            assert(self.names_seq() =~= old(self).names_seq());
        }
    }
}

/// Pointwise peer removal carries from the entries to the channel map.
proof fn lemma_disconnect_view(s0: Seq<WsChannelEntry>, s1: Seq<WsChannelEntry>, peer: u64)
    requires
        unique_keys(s0, ws_key()),
        s0.len() == s1.len(),
        forall|q: int| 0 <= q < s0.len() ==> (#[trigger] s1[q]).name@ == s0[q].name@,
        forall|q: int|
            0 <= q < s0.len() ==> (#[trigger] s1[q]).peers@.to_set() == s0[
            q].peers@.to_set().remove(peer),
    ensures
        unique_keys(s1, ws_key()),
        kv_map(s1, ws_key(), ws_val()).dom() == kv_map(s0, ws_key(), ws_val()).dom(),
        forall|t: Seq<char>|
            kv_map(s0, ws_key(), ws_val()).dom().contains(t) ==> kv_map(s1, ws_key(), ws_val())[t]
                == kv_map(s0, ws_key(), ws_val())[t].remove(peer),
        forall|t: Seq<char>|
            kv_map(s1, ws_key(), ws_val()).dom().contains(t) ==> !kv_map(s1, ws_key(), ws_val())[
            t].contains(peer),
{
    assert forall|a: int, b: int|
        0 <= a < b < s1.len() implies ws_key()(#[trigger] s1[a]) != ws_key()(#[trigger] s1[b]) by {
        assert(s1[a].name@ == s0[a].name@);
        assert(s1[b].name@ == s0[b].name@);
    }
    let m0 = kv_map(s0, ws_key(), ws_val());
    let m1 = kv_map(s1, ws_key(), ws_val());
    assert forall|t: Seq<char>| #[trigger] m0.dom().contains(t) implies m1.dom().contains(t)
        && m1[t] == m0[t].remove(peer) by {
        lemma_kv_dom(s0, ws_key(), ws_val(), t);
        let i = choose|i: int| 0 <= i < s0.len() && ws_key()(#[trigger] s0[i]) == t;
        lemma_kv_lookup(s0, ws_key(), ws_val(), i);
        assert(s1[i].name@ == t);
        lemma_kv_lookup(s1, ws_key(), ws_val(), i);
    }
    assert forall|t: Seq<char>| #[trigger] m1.dom().contains(t) implies m0.dom().contains(t) by {
        lemma_kv_dom(s1, ws_key(), ws_val(), t);
        let i = choose|i: int| 0 <= i < s1.len() && ws_key()(#[trigger] s1[i]) == t;
        assert(s0[i].name@ == t);
        lemma_kv_dom(s0, ws_key(), ws_val(), t);
    }
    assert(m1.dom() =~= m0.dom());
}

/// Replacing one entry by one with the same name and duplicate-free peers
/// keeps the state well-formed.
proof fn lemma_ws_wf_update(s0: Seq<WsChannelEntry>, i: int, e1: WsChannelEntry)
    requires
        unique_keys(s0, ws_key()),
        forall|q: int| 0 <= q < s0.len() ==> (#[trigger] s0[q]).peers@.no_duplicates(),
        0 <= i < s0.len(),
        e1.name@ == s0[i].name@,
        e1.peers@.no_duplicates(),
    ensures
        unique_keys(s0.update(i, e1), ws_key()),
        forall|q: int|
            0 <= q < s0.update(i, e1).len() ==> (#[trigger] s0.update(i, e1)[
            q]).peers@.no_duplicates(),
{
    let s1 = s0.update(i, e1);
    assert forall|a: int, b: int|
        0 <= a < b < s1.len() implies ws_key()(#[trigger] s1[a]) != ws_key()(#[trigger] s1[b]) by {
        assert(s1[a].name@ == s0[a].name@);
        assert(s1[b].name@ == s0[b].name@);
    }
    assert forall|q: int| 0 <= q < s1.len() implies (#[trigger] s1[q]).peers@.no_duplicates() by {
        if q != i {
            assert(s1[q] == s0[q]);
        }
    }
}

fn peer_position(v: &Vec<u64>, peer: u64) -> (r: Option<usize>)
    ensures
        match r {
            Some(j) => j < v@.len() && v@[j as int] == peer && v@.to_set().contains(peer),
            None => !v@.to_set().contains(peer),
        },
{
    let n = v.len();
    let mut k: usize = 0;
    while k < n
        invariant
            k <= n,
            n == v@.len(),
            forall|j: int| 0 <= j < k ==> v@[j] != peer,
        decreases n - k,
    {
        if v[k] == peer {
            return Some(k);
        }
        k = k + 1;
    }
    proof {
        if v@.to_set().contains(peer) {
            let j = choose|j: int| 0 <= j < v@.len() && v@[j] == peer;
            assert(v@[j] != peer);
        }
    }
    None
}

/// The pair carries a copy of the data frame, addressed to a peer other
/// than its publisher.
pub open spec fn is_data_copy(p: (u64, WsMessage), publisher: u64, t: Seq<char>, d: Seq<char>) -> bool {
    p.0 != publisher && (p.1 matches WsMessage::Data(cc, dd) && cc@ == t && dd@ == d)
}

/// Serve one inbound envelope from `peer`: update the channel map and name
/// the envelopes owed in reply — data fan-out to the other subscribers of
/// the topic, or the channel list back to the asking peer.
#[verifier::rlimit(50)]
pub fn handle_envelope(state: &mut WsServerState, peer: u64, msg: WsMessage) -> (r: Vec<
    (u64, WsMessage),
>)
    requires
        old(state).wf(),
    ensures
        final(state).wf(),
        msg matches WsMessage::Subscribe(c) ==> final(state)@ == spec_ws_subscribe(
            old(state)@,
            c@,
            peer,
        ) && r@.len() == 0,
        msg matches WsMessage::Unsubscribe(c) ==> final(state)@ == spec_ws_unsubscribe(
            old(state)@,
            c@,
            peer,
        ) && r@.len() == 0,
        msg matches WsMessage::Data(c, d) ==> final(state)@ == spec_ws_touch(old(state)@, c@)
            && r@.map_values(|p: (u64, WsMessage)| p.0).to_set() == spec_ws_peers(
            old(state)@,
            c@,
        ).remove(peer),
        msg matches WsMessage::Data(c, d) ==> forall|k: int|
            0 <= k < r@.len() ==> is_data_copy(#[trigger] r@[k], peer, c@, d@),
        msg is ListChannelsReq ==> final(state)@ == old(state)@ && r@.len() == 1 && r@[0].0 == peer
            && (r@[0].1 matches WsMessage::ListChannelsResponse(names) && names@.map_values(
            |c: HubChannelName| c@,
        ) == old(state).names_seq()),
        msg matches WsMessage::ListChannelsResponse(_) ==> final(state)@ == old(state)@
            && r@.len() == 0,
{
    match msg {
        WsMessage::Subscribe(c) => {
            state.handle_subscribe(peer, &c);
            Vec::new()
        },
        WsMessage::Unsubscribe(c) => {
            state.handle_unsubscribe(peer, &c);
            Vec::new()
        },
        WsMessage::Data(c, d) => {
            let peers = state.handle_data_peers(peer, &c);
            let n = peers.len();
            let mut out: Vec<(u64, WsMessage)> = Vec::new();
            let mut k: usize = 0;
            while k < n
                invariant
                    k <= n,
                    n == peers@.len(),
                    out@.len() == k,
                    forall|q: int|
                        0 <= q < k ==> #[trigger] out@[q].0 == peers@[q] && (out@[q].1 matches
                        WsMessage::Data(cc, dd) && cc@ == c@ && dd@ == d@),
                decreases n - k,
            {
                out.push((peers[k], WsMessage::Data(c.clone(), d.clone())));
                k = k + 1;
            }
            proof {
                assert(out@.map_values(|p: (u64, WsMessage)| p.0) =~= peers@);
                assert(out@.map_values(|p: (u64, WsMessage)| p.0).to_set() == spec_ws_peers(
                    old(state)@,
                    c@,
                ).remove(peer));
                assert forall|q: int|
                    0 <= q < out@.len() implies is_data_copy(#[trigger] out@[q], peer, c@, d@) by {
                    assert(peers@[q] != peer);
                    assert(out@[q].0 == peers@[q]);
                }
            }
            out
        },
        WsMessage::ListChannelsReq => {
            let names = state.list_channels();
            let mut out: Vec<(u64, WsMessage)> = Vec::new();
            out.push((peer, WsMessage::ListChannelsResponse(names)));
            out
        },
        WsMessage::ListChannelsResponse(_) => Vec::new(),
    }
}

} // verus!
