use vstd::prelude::*;
use crate::lookup::{first_index, lemma_first_index, lemma_first_index_at, lemma_first_index_push};

verus! {

/// An event on a channel, sent to every peer that follows the channel live.
pub enum LiveMessage {
    BlockConnected { id: String },
    BlockDisconnected { id: String },
    LabelsChanged,
    DescriptionChanged,
    BlockPinned { id: Option<String> },
    BlockChanged { id: String },
}

/// Anything that can be handed a live message: an open socket, most often.
/// It reports whether the message went out.
pub trait Peer {
    fn receive_message(&self, message: &LiveMessage) -> Result<(), String>;
}

/// Names one live subscription, so that it can be ended later.
pub struct Handle {
    pub channel_id: String,
    pub peer_id: i64,
}

/// Why a subscription could not be ended.
pub enum DisconnectError {
    ChannelNotFound(String),
    PeerNotFound(i64),
}

/// The outcome of handing one message to one peer.
pub struct Delivery {
    pub peer_id: i64,
    pub result: Result<(), String>,
}

/// The subscriptions as values: for each channel that ever had one, its
/// current peers, each with its id, in the order they connected; and the id
/// that the next peer will get.
#[verifier::reject_recursive_types(P)]
pub struct LiveView<P> {
    pub subscribers: Map<Seq<char>, Seq<(i64, P)>>,
    pub next_peer_id: int,
}

/// The ids of a list of peers.
pub open spec fn ids_of<P>(peers: Seq<(i64, P)>) -> Seq<i64> {
    peers.map_values(|p: (i64, P)| p.0)
}

/// Some peer of `peers` has the id `id`.
pub open spec fn has_peer<P>(peers: Seq<(i64, P)>, id: i64) -> bool {
    exists|i: int| 0 <= i < peers.len() && (#[trigger] peers[i]).0 == id
}

/// `peers` without the peers whose id is `id`.
pub open spec fn drop_peer<P>(peers: Seq<(i64, P)>, id: i64) -> Seq<(i64, P)>
    decreases peers.len(),
{
    if peers.len() == 0 {
        peers
    } else if peers.last().0 == id {
        drop_peer(peers.drop_last(), id)
    } else {
        drop_peer(peers.drop_last(), id).push(peers.last())
    }
}

/// Dropping an id that is absent changes nothing.
pub proof fn lemma_drop_absent<P>(peers: Seq<(i64, P)>, id: i64)
    requires
        !has_peer(peers, id),
    ensures
        drop_peer(peers, id) == peers,
    decreases peers.len(),
{
    if peers.len() > 0 {
        assert(!has_peer(peers.drop_last(), id)) by {
            if has_peer(peers.drop_last(), id) {
                let k = choose|k: int| 0 <= k < peers.len() - 1 && (#[trigger] peers.drop_last()[k]).0 == id;
                assert(peers[k].0 == id);
            }
        }
        assert(peers[peers.len() - 1].0 != id);
        lemma_drop_absent(peers.drop_last(), id);
        assert(peers.drop_last().push(peers.last()) =~= peers);
    }
}

/// Dropping an id keeps only peers of the list, and none with that id.
pub proof fn lemma_drop_keeps<P>(peers: Seq<(i64, P)>, id: i64)
    ensures
        forall|i: int|
            0 <= i < drop_peer(peers, id).len() ==> peers.contains(#[trigger] drop_peer(peers, id)[i])
                && drop_peer(peers, id)[i].0 != id,
    decreases peers.len(),
{
    if peers.len() > 0 {
        lemma_drop_keeps(peers.drop_last(), id);
        let d = drop_peer(peers, id);
        assert forall|i: int| 0 <= i < d.len() implies peers.contains(#[trigger] d[i]) && d[i].0 != id by {
            let prev = drop_peer(peers.drop_last(), id);
            if i < prev.len() {
                assert(d[i] == prev[i]);
                let k = choose|k: int| 0 <= k < peers.len() - 1 && peers.drop_last()[k] == prev[i];
                assert(peers[k] == prev[i]);
            } else {
                assert(d[i] == peers.last());
                assert(peers[peers.len() - 1] == peers.last());
            }
        }
    }
}

impl<P> LiveView<P> {
    /// The peers of channel `ch`; none where it never had any.
    pub open spec fn peers(self, ch: Seq<char>) -> Seq<(i64, P)> {
        if self.subscribers.contains_key(ch) {
            self.subscribers[ch]
        } else {
            Seq::empty()
        }
    }

    /// The state after `peer` connects to channel `ch`, under the next id.
    pub open spec fn connect(self, ch: Seq<char>, peer: P) -> LiveView<P> {
        LiveView {
            subscribers: self.subscribers.insert(
                ch,
                self.peers(ch).push((self.next_peer_id as i64, peer)),
            ),
            next_peer_id: self.next_peer_id + 1,
        }
    }

    /// The state after peer `id` leaves channel `ch`.
    pub open spec fn disconnect(self, ch: Seq<char>, id: i64) -> LiveView<P> {
        LiveView {
            subscribers: self.subscribers.insert(ch, drop_peer(self.peers(ch), id)),
            next_peer_id: self.next_peer_id,
        }
    }

    /// Every peer id in use is below the next one, and none is negative.
    pub open spec fn ids_below_next(self) -> bool {
        &&& self.next_peer_id >= 0
        &&& forall|ch: Seq<char>, i: int|
            self.subscribers.contains_key(ch) && 0 <= i < self.subscribers[ch].len() ==> 0
                <= (#[trigger] self.subscribers[ch][i]).0 < self.next_peer_id
    }
}

/// The channels' subscriber lists keyed by channel id.
pub open spec fn channel_keys<P>(entries: Seq<(String, Vec<(i64, P)>)>) -> Seq<Seq<char>> {
    entries.map_values(|e: (String, Vec<(i64, P)>)| e.0@)
}

/// The fan-out bus: for each channel the peers that follow it live, each
/// under an id drawn from one counter shared by all channels.
pub struct LiveChannel<P> {
    channels: Vec<(String, Vec<(i64, P)>)>,
    next_peer_id: i64,
}

impl<P> View for LiveChannel<P> {
    type V = LiveView<P>;

    closed spec fn view(&self) -> LiveView<P> {
        LiveView {
            subscribers: Map::new(
                |ch: Seq<char>| first_index(channel_keys(self.channels@), ch) >= 0,
                |ch: Seq<char>| self.channels@[first_index(channel_keys(self.channels@), ch)].1@,
            ),
            next_peer_id: self.next_peer_id as int,
        }
    }
}

impl<P: Peer> LiveChannel<P> {
    /// The state holds together: ids in use are below the counter.
    pub closed spec fn wf(&self) -> bool {
        self@.ids_below_next()
    }

    /// A bus with no subscriptions, whose first peer gets the id 0.
    pub fn new() -> (r: Self)
        ensures
            r.wf(),
            r@.subscribers == Map::<Seq<char>, Seq<(i64, P)>>::empty(),
            r@.next_peer_id == 0,
    {
        let r = LiveChannel { channels: Vec::new(), next_peer_id: 0 };
        assert(r@.subscribers =~= Map::<Seq<char>, Seq<(i64, P)>>::empty());
        r
    }

    /// The id that the next peer to connect will get.
    pub fn next_peer_id(&self) -> (r: i64)
        ensures
            r as int == self@.next_peer_id,
    {
        self.next_peer_id
    }

    fn channel_index(&self, channel_id: &String) -> (r: Option<usize>)
        ensures
            r is None <==> first_index(channel_keys(self.channels@), channel_id@) < 0,
            r is Some ==> r->0 as int == first_index(channel_keys(self.channels@), channel_id@)
                && r->0 < self.channels.len(),
    {
        let ghost keys = channel_keys(self.channels@);
        let mut i: usize = 0;
        while i < self.channels.len()
            invariant
                0 <= i <= self.channels.len(),
                keys == channel_keys(self.channels@),
                keys.len() == self.channels.len(),
                forall|j: int| 0 <= j < i ==> keys[j] != channel_id@,
            decreases self.channels.len() - i,
        {
            assert(keys[i as int] == self.channels@[i as int].0@);
            if self.channels[i].0 == *channel_id {
                proof {
                    lemma_first_index_at(keys, channel_id@, i as int);
                }
                return Some(i);
            }
            i += 1;
        }
        proof {
            lemma_first_index(keys, channel_id@);
            if keys.contains(channel_id@) {
                let k = choose|k: int| 0 <= k < keys.len() && keys[k] == channel_id@;
                assert(keys[k] != channel_id@);
            }
        }
        None
    }

    /// Subscribes `peer` to channel `channel_id` under the next peer id, and
    /// returns the handle that ends the subscription.
    pub fn connect(&mut self, peer: P, channel_id: &String) -> (r: Handle)
        requires
            old(self).wf(),
            old(self)@.next_peer_id < i64::MAX,
        ensures
            final(self).wf(),
            final(self)@ == old(self)@.connect(channel_id@, peer),
            r.channel_id@ == channel_id@,
            r.peer_id as int == old(self)@.next_peer_id,
    {
        let ghost old_view = self@;
        let ghost old_keys = channel_keys(self.channels@);
        let id = self.next_peer_id;
        let ghost new_peer = peer;
        match self.channel_index(channel_id) {
            Some(i) => {
                let mut entry = self.channels.remove(i);
                entry.1.push((id, peer));
                self.channels.insert(i, entry);
                assert(channel_keys(self.channels@) =~= old_keys);
            },
            None => {
                let mut peers: Vec<(i64, P)> = Vec::new();
                peers.push((id, peer));
                assert(peers@ =~= seq![(id, new_peer)]);
                self.channels.push((channel_id.clone(), peers));
                assert(channel_keys(self.channels@) =~= old_keys.push(channel_id@));
            },
        }
        self.next_peer_id = id + 1;
        proof {
            let keys = channel_keys(self.channels@);
            assert forall|ch: Seq<char>|
                #[trigger] self@.subscribers.contains_key(ch) == old_view.connect(
                    channel_id@,
                    new_peer,
                ).subscribers.contains_key(ch) by {
                lemma_first_index_push(old_keys, channel_id@, ch);
                lemma_first_index(old_keys, ch);
            }
            assert forall|ch: Seq<char>| #[trigger] self@.subscribers.contains_key(ch) implies self@.subscribers[ch]
                == old_view.connect(channel_id@, new_peer).subscribers[ch] by {
                lemma_first_index_push(old_keys, channel_id@, ch);
                lemma_first_index(old_keys, ch);
                lemma_first_index(old_keys, channel_id@);
            }
            assert(self@.subscribers =~= old_view.connect(channel_id@, new_peer).subscribers);
        }
        Handle { channel_id: channel_id.clone(), peer_id: id }
    }

    /// Ends the subscription that `handle` names. Fails where its channel has
    /// no subscriber list, or where the peer is not (or no longer) in it.
    pub fn disconnect(&mut self, handle: Handle) -> (r: Result<(), DisconnectError>)
        requires
            old(self).wf(),
        ensures
            final(self).wf(),
            !old(self)@.subscribers.contains_key(handle.channel_id@) ==> final(self)@ == old(self)@
                && r is Err && r->Err_0 is ChannelNotFound && r->Err_0->ChannelNotFound_0@
                == handle.channel_id@,
            old(self)@.subscribers.contains_key(handle.channel_id@) && !has_peer(
                old(self)@.subscribers[handle.channel_id@],
                handle.peer_id,
            ) ==> final(self)@ == old(self)@ && r == Err::<(), DisconnectError>(
                DisconnectError::PeerNotFound(handle.peer_id),
            ),
            old(self)@.subscribers.contains_key(handle.channel_id@) && has_peer(
                old(self)@.subscribers[handle.channel_id@],
                handle.peer_id,
            ) ==> r is Ok && final(self)@ == old(self)@.disconnect(handle.channel_id@, handle.peer_id),
    {
        let ghost old_view = self@;
        let ghost old_keys = channel_keys(self.channels@);
        let ghost ch = handle.channel_id@;
        let i = match self.channel_index(&handle.channel_id) {
            None => {
                return Err(DisconnectError::ChannelNotFound(handle.channel_id));
            },
            Some(i) => i,
        };
        let ghost old_channels = self.channels@;
        let mut entry = self.channels.remove(i);
        let ghost total = entry.1@;
        assert(total == old_view.subscribers[ch]);
        let mut peers: Vec<(i64, P)> = Vec::new();
        std::mem::swap(&mut peers, &mut entry.1);
        let mut kept: Vec<(i64, P)> = Vec::new();
        let mut found = false;
        let ghost mut done: Seq<(i64, P)> = Seq::empty();
        while peers.len() > 0
            invariant
                total == done + peers@,
                kept@ == drop_peer(done, handle.peer_id),
                found == has_peer(done, handle.peer_id),
            decreases peers.len(),
        {
            let ghost before = peers@;
            let ghost before_kept = kept@;
            let p = peers.remove(0);
            let ghost gp = p;
            proof {
                assert(before =~= seq![gp] + peers@);
                assert(done.push(gp).drop_last() =~= done);
                if has_peer(done.push(gp), handle.peer_id) && gp.0 != handle.peer_id {
                    let k = choose|k: int| 0 <= k < done.len() + 1 && (#[trigger] done.push(gp)[k]).0 == handle.peer_id;
                    assert(done[k].0 == handle.peer_id);
                }
                if has_peer(done, handle.peer_id) {
                    let k = choose|k: int| 0 <= k < done.len() && (#[trigger] done[k]).0 == handle.peer_id;
                    assert(done.push(gp)[k].0 == handle.peer_id);
                }
                if gp.0 == handle.peer_id {
                    assert(done.push(gp)[done.len() as int].0 == handle.peer_id);
                }
            }
            if p.0 == handle.peer_id {
                found = true;
            } else {
                kept.push(p);
                assert(kept@ =~= before_kept.push(gp));
            }
            proof {
                done = done.push(gp);
                assert(total =~= done + peers@);
            }
        }
        assert(done =~= total);
        entry.1 = kept;
        let ghost new_entry = entry;
        self.channels.insert(i, entry);
        proof {
            assert(self.channels@ =~= old_channels.update(i as int, new_entry));
            let keys = channel_keys(self.channels@);
            assert(keys =~= old_keys);
            lemma_first_index(old_keys, ch);
            let target = if found {
                old_view.disconnect(ch, handle.peer_id)
            } else {
                old_view
            };
            if !found {
                lemma_drop_absent(total, handle.peer_id);
            }
            assert forall|c: Seq<char>| #[trigger] self@.subscribers.contains_key(c) implies self@.subscribers[c]
                == target.subscribers[c] by {
                lemma_first_index(keys, c);
                if c != ch {
                    let j = first_index(keys, c);
                    assert(keys[j] == c);
                    assert(j != i);
                    assert(self.channels@[j] == old_channels[j]);
                }
            }
            assert(self@.subscribers =~= target.subscribers);
            lemma_drop_keeps(total, handle.peer_id);
        }
        if found {
            Ok(())
        } else {
            Err(DisconnectError::PeerNotFound(handle.peer_id))
        }
    }

    /// Hands `message` to every peer of channel `channel_id`, one after the
    /// other, and reports each outcome. A peer that fails does not stop the
    /// others: every current peer gets exactly one attempt, in the order they
    /// connected.
    pub fn handle_message(&self, channel_id: &String, message: &LiveMessage) -> (r: Vec<Delivery>)
        ensures
            r@.map_values(|d: Delivery| d.peer_id) == ids_of(self@.peers(channel_id@)),
    {
        let mut out: Vec<Delivery> = Vec::new();
        let i = match self.channel_index(channel_id) {
            None => {
                assert(out@.map_values(|d: Delivery| d.peer_id) =~= ids_of(self@.peers(channel_id@)));
                return out;
            },
            Some(i) => i,
        };
        let peers = &self.channels[i].1;
        let ghost ids = ids_of(peers@);
        assert(ids == ids_of(self@.peers(channel_id@)));
        let mut j: usize = 0;
        while j < peers.len()
            invariant
                0 <= j <= peers.len(),
                ids == ids_of(peers@),
                out@.map_values(|d: Delivery| d.peer_id) == ids.take(j as int),
            decreases peers.len() - j,
        {
            let result = peers[j].1.receive_message(message);
            let ghost before = out@;
            out.push(Delivery { peer_id: peers[j].0, result });
            assert(out@.map_values(|d: Delivery| d.peer_id) =~= before.map_values(|d: Delivery| d.peer_id).push(ids[j as int]));
            assert(ids.take(j as int + 1) =~= ids.take(j as int).push(ids[j as int]));
            j += 1;
        }
        assert(ids.take(peers.len() as int) =~= ids);
        out
    }
}

/// Connecting two peers to a channel and then disconnecting the first
/// leaves the channel with the peers it had before and the second one; the
/// first disconnect finds its peer, and a second one with the same handle
/// finds none. (Two connects need two ids below the largest `i64`.)
pub proof fn lemma_disconnect_leaves_other<P>(s: LiveView<P>, ch: Seq<char>, p1: P, p2: P)
    requires
        s.ids_below_next(),
        s.next_peer_id + 1 < i64::MAX,
    ensures
        ({
            let id1 = s.next_peer_id as i64;
            let id2 = (s.next_peer_id + 1) as i64;
            let s2 = s.connect(ch, p1).connect(ch, p2);
            let s3 = s2.disconnect(ch, id1);
            &&& s2.subscribers.contains_key(ch) && has_peer(s2.subscribers[ch], id1)
            &&& s3.peers(ch) == s.peers(ch).push((id2, p2))
            &&& s3.subscribers.contains_key(ch) && !has_peer(s3.subscribers[ch], id1)
        }),
{
    let id1 = s.next_peer_id as i64;
    let id2 = (s.next_peer_id + 1) as i64;
    let ps = s.peers(ch);
    let s2 = s.connect(ch, p1).connect(ch, p2);
    let both = ps.push((id1, p1)).push((id2, p2));
    assert(s2.peers(ch) == both);
    assert(both[ps.len() as int].0 == id1);
    assert(!has_peer(ps, id1)) by {
        if has_peer(ps, id1) {
            let k = choose|k: int| 0 <= k < ps.len() && (#[trigger] ps[k]).0 == id1;
            assert(s.subscribers.contains_key(ch));
            assert(s.subscribers[ch][k].0 < s.next_peer_id);
        }
    }
    lemma_drop_absent(ps, id1);
    assert(both.drop_last() =~= ps.push((id1, p1)));
    assert(ps.push((id1, p1)).drop_last() =~= ps);
    let s3 = s2.disconnect(ch, id1);
    assert(drop_peer(both, id1) == drop_peer(ps.push((id1, p1)), id1).push((id2, p2)));
    assert(drop_peer(ps.push((id1, p1)), id1) == drop_peer(ps, id1));
    assert(s3.peers(ch) == ps.push((id2, p2)));
    assert(!has_peer(ps.push((id2, p2)), id1)) by {
        if has_peer(ps.push((id2, p2)), id1) {
            let k = choose|k: int| 0 <= k < ps.len() + 1 && (#[trigger] ps.push((id2, p2))[k]).0 == id1;
            if k < ps.len() {
                assert(ps[k].0 == id1);
            }
        }
    }
}

} // verus!
