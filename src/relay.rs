use vstd::prelude::*;

use crate::registry::{
    clones_of, has_key, index_of, keys_unique, lemma_other_conns_members, other_conns, ChannelKey,
    Entry, Registry,
};

verus! {

/// What handling one inbound data event comes to: the payload echoed to the
/// sender's own channel and delivered once to each peer channel. The plan owns
/// its data, so it can be carried out after the registry has been released.
pub struct DeliveryPlan<H> {
    pub echo: ChannelKey,
    pub payload: Vec<u8>,
    pub targets: Vec<Entry<H>>,
}

/// Relays `payload`, received on channel `sender`: it is echoed to `sender`
/// and goes to every channel registered by another connection, whatever its
/// length (an empty payload is relayed like any other).
pub fn on_data<H: Clone>(registry: &Registry<H>, sender: ChannelKey, payload: &[u8]) -> (r:
    DeliveryPlan<H>)
    ensures
        r.echo == sender,
        r.payload@ == payload@,
        clones_of(other_conns(registry.entries(), sender.conn), r.targets@),
{
    let targets = registry.broadcast_targets(sender.conn);
    DeliveryPlan { echo: sender, payload: vstd::slice::slice_to_vec(payload), targets }
}

/// Whether data sent on channel `sender` reaches channel `k` while the
/// registry holds `s`: as the echo, or as a delivery to a peer.
pub open spec fn reaches<H>(s: Seq<Entry<H>>, sender: ChannelKey, k: ChannelKey) -> bool {
    k == sender || has_key(other_conns(s, sender.conn), k)
}

/// The events of `events` (each a sending channel and a payload) that reach
/// channel `k`, in the order in which they were sent.
pub open spec fn stream_to<H>(
    s: Seq<Entry<H>>,
    events: Seq<(ChannelKey, Seq<u8>)>,
    k: ChannelKey,
) -> Seq<(ChannelKey, Seq<u8>)>
    decreases events.len(),
{
    if events.len() == 0 {
        Seq::empty()
    } else {
        let rest = stream_to(s, events.drop_last(), k);
        if reaches(s, events.last().0, k) {
            rest.push(events.last())
        } else {
            rest
        }
    }
}

/// The payloads that channel `a` sent among `events`, in order.
pub open spec fn sent_by(events: Seq<(ChannelKey, Seq<u8>)>, a: ChannelKey) -> Seq<Seq<u8>>
    decreases events.len(),
{
    if events.len() == 0 {
        Seq::empty()
    } else {
        let rest = sent_by(events.drop_last(), a);
        if events.last().0 == a {
            rest.push(events.last().1)
        } else {
            rest
        }
    }
}

/// Fan-out is complete: a channel registered by any connection other than the
/// sender's is among the targets exactly once.
pub proof fn lemma_fanout_complete<H>(registry: Registry<H>, sender: ChannelKey, k: ChannelKey)
    requires
        registry.wf(),
        has_key(registry.entries(), k),
        k.conn != sender.conn,
    ensures
        ({
            let t = other_conns(registry.entries(), sender.conn);
            &&& exists|i: int| 0 <= i < t.len() && #[trigger] t[i].key == k
            &&& forall|i: int, j: int|
                0 <= i < t.len() && 0 <= j < t.len() && #[trigger] t[i].key == k && #[trigger] t[j].key
                    == k ==> i == j
        }),
{
    let s = registry.entries();
    lemma_other_conns_members(s, sender.conn);
    let j = choose|j: int| 0 <= j < s.len() && #[trigger] s[j].key == k;
    assert(s[j].key.conn != sender.conn);
    assert(keys_unique(other_conns(s, sender.conn)));
}

/// Isolation: every target is a registered channel of another connection and
/// carries the very entry registered for it, handle included, so no channel
/// of the sender's own connection (other than the echo) and no unregistered
/// channel receives the payload.
pub proof fn lemma_fanout_isolated<H>(registry: Registry<H>, sender: ChannelKey)
    requires
        registry.wf(),
    ensures
        ({
            let s = registry.entries();
            let t = other_conns(s, sender.conn);
            forall|i: int|
                0 <= i < t.len() ==> #[trigger] t[i].key.conn != sender.conn && has_key(s, t[i].key)
                    && s[index_of(s, t[i].key)] == t[i]
        }),
{
    lemma_other_conns_members(registry.entries(), sender.conn);
}

/// With no channel of another connection registered, there are no targets;
/// the sender still gets its echo (see `on_data`).
pub proof fn lemma_alone_has_no_targets<H>(registry: Registry<H>, sender: ChannelKey)
    requires
        forall|i: int|
            0 <= i < registry.entries().len() ==> #[trigger] registry.entries()[i].key.conn
                == sender.conn,
    ensures
        other_conns(registry.entries(), sender.conn).len() == 0,
        reaches(registry.entries(), sender, sender),
{
    let s = registry.entries();
    lemma_other_conns_members(s, sender.conn);
    let t = other_conns(s, sender.conn);
    if t.len() > 0 {
        assert(t[0].key.conn != sender.conn);
        let j = choose|j: int| 0 <= j < s.len() && #[trigger] s[j].key == t[0].key;
        assert(s[j].key.conn == sender.conn);
    }
}

/// Order per peer: while the registry is unchanged, a channel `k` registered
/// by another connection than `a`'s receives exactly the payloads that `a`
/// sent, in the order `a` sent them, however other senders interleave.
pub proof fn lemma_order_per_peer<H>(
    registry: Registry<H>,
    events: Seq<(ChannelKey, Seq<u8>)>,
    a: ChannelKey,
    k: ChannelKey,
)
    requires
        has_key(registry.entries(), k),
        k.conn != a.conn,
    ensures
        sent_by(stream_to(registry.entries(), events, k), a) == sent_by(events, a),
    decreases events.len(),
{
    let s = registry.entries();
    if events.len() > 0 {
        lemma_order_per_peer(registry, events.drop_last(), a, k);
        let rest = stream_to(s, events.drop_last(), k);
        if events.last().0 == a {
            lemma_other_conns_members(s, a.conn);
            let j = choose|j: int| 0 <= j < s.len() && #[trigger] s[j].key == k;
            assert(s[j].key.conn != a.conn);
            assert(reaches(s, a, k));
            assert(rest.push(events.last()).drop_last() =~= rest);
        } else if reaches(s, events.last().0, k) {
            assert(rest.push(events.last()).drop_last() =~= rest);
        }
    }
}

} // verus!
