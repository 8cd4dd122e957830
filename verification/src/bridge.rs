//! The bridge from simulation frames to a transport: it advertises every
//! topic once, before its first publication, and then publishes each frame's
//! messages in order.

use vstd::prelude::*;
use crate::convert::{BridgeConfig, Publication, TOPIC_COUNT, topic, topic_spec};
use crate::transport::{Transport, TransportCall, publish_count, lemma_publish_count_concat};

verus! {

/// The advertisements of the first `n` topics, in topic order.
pub open spec fn advertisements(n: nat) -> Seq<TransportCall> {
    Seq::new(n, |i: int| TransportCall::Advertise(topic_spec(i).0, topic_spec(i).1))
}

/// The publish requests of `pubs`, in order.
pub open spec fn publish_calls(pubs: Seq<Publication>) -> Seq<TransportCall> {
    Seq::new(pubs.len(), |i: int| TransportCall::Publish(pubs[i].topic@, pubs[i].msg_type@))
}

/// The publish requests of the messages of `frames`, frame after frame.
pub open spec fn frames_calls(frames: Seq<Seq<Publication>>) -> Seq<TransportCall>
    decreases frames.len(),
{
    if frames.len() == 0 {
        Seq::<TransportCall>::empty()
    } else {
        frames_calls(frames.drop_last()) + publish_calls(frames.last())
    }
}

/// What a transport receives from a new bridge that publishes the messages
/// of `frames`, one `publish_messages` per frame: the advertisement of every
/// topic, then the messages in order.
pub open spec fn bridge_history(frames: Seq<Seq<Publication>>) -> Seq<TransportCall> {
    if frames.len() == 0 {
        Seq::<TransportCall>::empty()
    } else {
        advertisements(TOPIC_COUNT as nat) + frames_calls(frames)
    }
}

/// Number of messages in `frames`.
pub open spec fn message_total(frames: Seq<Seq<Publication>>) -> nat
    decreases frames.len(),
{
    if frames.len() == 0 {
        0
    } else {
        message_total(frames.drop_last()) + frames.last().len()
    }
}

/// One `publish_messages` of `pubs` took the bridge `before` to `after`:
/// the transport received the advertisements (on the first frame only) and
/// then one publish request per message, in order; the naming is kept.
pub open spec fn publish_step<T: Transport>(before: Bridge<T>, after: Bridge<T>, pubs: Seq<Publication>) -> bool {
    &&& after.is_advertised()
    &&& after.sink().received() == before.sink().received() + (if before.is_advertised() {
        Seq::<TransportCall>::empty()
    } else {
        advertisements(TOPIC_COUNT as nat)
    }) + publish_calls(pubs)
    &&& after.config() == before.config()
}

/// Frame → transport bridge.
pub struct Bridge<T> {
    /// Sink for publications.
    pub transport: T,
    /// Frame/topic naming.
    pub cfg: BridgeConfig,
    advertised: bool,
}

impl<T> Bridge<T> {
    /// Have the topics been advertised?
    pub closed spec fn is_advertised(&self) -> bool {
        self.advertised
    }

    /// The transport.
    pub closed spec fn sink(&self) -> T {
        self.transport
    }

    /// The naming configuration.
    pub closed spec fn config(&self) -> BridgeConfig {
        self.cfg
    }

    /// Create a bridge over a transport.
    pub fn new(transport: T) -> (b: Self)
        ensures
            b.sink() == transport,
            b.config().map_frame@ == "odom"@,
            b.config().odom_frame@ == "odom"@,
            b.config().base_frame@ == "base_link"@,
            b.config().laser_frame@ == "laser_frame"@,
            b.config().camera_frame@ == "camera_link"@,
            !b.is_advertised(),
    {
        Bridge { transport, cfg: BridgeConfig::default(), advertised: false }
    }
}

impl<T: Transport> Bridge<T> {
    /// Advertise all topics once (no-op after the first call). Failures are
    /// left to the transport: each later publication goes through it again.
    pub fn advertise_once(&mut self)
        ensures
            final(self).is_advertised(),
            final(self).sink().received() == old(self).sink().received() + if old(self).is_advertised() {
                Seq::<TransportCall>::empty()
            } else {
                advertisements(TOPIC_COUNT as nat)
            },
            final(self).config() == old(self).config(),
    {
        if self.advertised {
            assert(self.transport.received() + Seq::<TransportCall>::empty() =~= self.transport.received());
            return;
        }
        let ghost start = self.transport.received();
        let mut i: usize = 0;
        assert(start + advertisements(0) =~= start);
        while i < TOPIC_COUNT
            invariant
                i <= TOPIC_COUNT,
                !self.advertised,
                self.transport.received() == start + advertisements(i as nat),
                self.cfg == old(self).cfg,
            decreases TOPIC_COUNT - i,
        {
            let (name, ty) = topic(i);
            let _ = self.transport.advertise(name, ty);
            i = i + 1;
            assert(self.transport.received() =~= start + advertisements(i as nat));
        }
        self.advertised = true;
    }

    /// Publish the messages of one frame, advertising the topics first if
    /// that has not happened yet. Failures are ignored, as each later frame
    /// is published again.
    pub fn publish_messages(&mut self, pubs: &Vec<Publication>)
        ensures
            final(self).is_advertised(),
            final(self).sink().received() == old(self).sink().received() + (if old(self).is_advertised() {
                Seq::<TransportCall>::empty()
            } else {
                advertisements(TOPIC_COUNT as nat)
            }) + publish_calls(pubs@),
            final(self).config() == old(self).config(),
            publish_step(*old(self), *final(self), pubs@),
            ({
                let before = old(self).sink().received();
                let after = final(self).sink().received();
                let ads: int = if old(self).is_advertised() { 0 } else { TOPIC_COUNT as int };
                &&& after.len() == before.len() + ads + pubs@.len()
                &&& forall|i: int| 0 <= i < before.len() ==> #[trigger] after[i] == before[i]
                &&& forall|i: int| 0 <= i < ads ==> #[trigger] after[before.len() + i] == TransportCall::Advertise(
                    topic_spec(i).0,
                    topic_spec(i).1,
                )
                &&& forall|k: int|
                    0 <= k < pubs@.len() ==> #[trigger] after[before.len() + ads + k] == TransportCall::Publish(
                        pubs@[k].topic@,
                        pubs@[k].msg_type@,
                    )
            }),
    {
        self.advertise_once();
        let ghost head = self.transport.received();
        let mut i: usize = 0;
        assert(head + publish_calls(pubs@.subrange(0, 0)) =~= head);
        while i < pubs.len()
            invariant
                self.advertised,
                i <= pubs@.len(),
                self.transport.received() == head + publish_calls(pubs@.subrange(0, i as int)),
                self.cfg == old(self).cfg,
            decreases pubs@.len() - i,
        {
            let p = &pubs[i];
            let _ = self.transport.publish(p);
            i = i + 1;
            assert(self.transport.received() =~= head + publish_calls(pubs@.subrange(0, i as int)));
        }
        assert(pubs@.subrange(0, pubs@.len() as int) =~= pubs@);
        proof {
            lemma_step_requests(old(self).sink().received(), !old(self).is_advertised(), pubs@);
        }
    }
}

/// One more frame through the bridge: a transport that has received
/// `before` followed by the history of `frames` (and whose bridge has
/// advertised exactly when some frame went out) receives, for the next
/// frame `pubs`, exactly what extends that history by `pubs`.
pub proof fn lemma_bridge_history_step(
    before: Seq<TransportCall>,
    frames: Seq<Seq<Publication>>,
    pubs: Seq<Publication>,
)
    ensures
        before + bridge_history(frames) + (if frames.len() > 0 {
            Seq::<TransportCall>::empty()
        } else {
            advertisements(TOPIC_COUNT as nat)
        }) + publish_calls(pubs) == before + bridge_history(frames.push(pubs)),
{
    let next = frames.push(pubs);
    assert(next.drop_last() =~= frames);
    assert(next.last() == pubs);
    if frames.len() == 0 {
        assert(frames_calls(frames) =~= Seq::<TransportCall>::empty());
        assert(frames_calls(next) =~= publish_calls(pubs));
        assert(before + Seq::<TransportCall>::empty() + advertisements(TOPIC_COUNT as nat) + publish_calls(pubs)
            =~= before + (advertisements(TOPIC_COUNT as nat) + publish_calls(pubs)));
    } else {
        assert(before + (advertisements(TOPIC_COUNT as nat) + frames_calls(frames)) + Seq::<TransportCall>::empty()
            + publish_calls(pubs) =~= before + (advertisements(TOPIC_COUNT as nat) + (frames_calls(frames)
            + publish_calls(pubs))));
    }
}

/// Publishing frame after frame through a bridge that has not advertised
/// yet: if `states[j + 1]` is the bridge after `publish_messages` of
/// `frames[j]` on `states[j]`, the transport ends up having received, after
/// what it held at the start, the advertisement of every topic once, in
/// topic order, and then every message of every frame, frame after frame;
/// it has received one publish request per message.
pub proof fn lemma_bridge_run<T: Transport>(states: Seq<Bridge<T>>, frames: Seq<Seq<Publication>>)
    requires
        states.len() == frames.len() + 1,
        !states[0].is_advertised(),
        forall|j: int| 0 <= j < frames.len() ==> publish_step(states[j], states[j + 1], #[trigger] frames[j]),
    ensures
        states.last().sink().received() == states[0].sink().received() + bridge_history(frames),
        states.last().is_advertised() == (frames.len() > 0),
        states.last().config() == states[0].config(),
        publish_count(states.last().sink().received()) == publish_count(states[0].sink().received())
            + message_total(frames),
    decreases frames.len(),
{
    let start = states[0].sink().received();
    if frames.len() == 0 {
        assert(bridge_history(frames) =~= Seq::<TransportCall>::empty());
        assert(start + bridge_history(frames) =~= start);
    } else {
        let k = frames.len() - 1;
        let prev_states = states.drop_last();
        let prev_frames = frames.drop_last();
        assert forall|j: int| 0 <= j < prev_frames.len() implies publish_step(
            prev_states[j],
            prev_states[j + 1],
            #[trigger] prev_frames[j],
        ) by {
            assert(prev_frames[j] == frames[j]);
            assert(publish_step(states[j], states[j + 1], frames[j]));
        }
        lemma_bridge_run(prev_states, prev_frames);
        assert(prev_states.last() == states[k]);
        assert(publish_step(states[k], states[k + 1], frames[k]));
        assert(frames[k] == frames.last());
        assert(prev_frames.push(frames.last()) =~= frames);
        lemma_bridge_history_step(start, prev_frames, frames.last());
        assert(states.last() == states[k + 1]);
        if prev_frames.len() > 0 {
            lemma_bridge_history(prev_frames);
        }
        lemma_bridge_history(frames);
        lemma_advertisements_count(TOPIC_COUNT as nat);
        lemma_frames_calls(prev_frames);
        lemma_publish_count_concat(start, bridge_history(prev_frames));
        lemma_publish_count_concat(start, bridge_history(frames));
        if prev_frames.len() == 0 {
            assert(bridge_history(prev_frames) =~= Seq::<TransportCall>::empty());
        }
    }
}

/// A run of frames of one message per topic carries `TOPIC_COUNT` messages
/// per frame.
pub proof fn lemma_message_total_full_frames(frames: Seq<Seq<Publication>>)
    requires
        forall|j: int| 0 <= j < frames.len() ==> (#[trigger] frames[j]).len() == TOPIC_COUNT,
    ensures
        message_total(frames) == TOPIC_COUNT * frames.len(),
    decreases frames.len(),
{
    if frames.len() > 0 {
        let prev = frames.drop_last();
        assert forall|j: int| 0 <= j < prev.len() implies (#[trigger] prev[j]).len() == TOPIC_COUNT by {
            assert(prev[j] == frames[j]);
        }
        lemma_message_total_full_frames(prev);
        assert(frames.last() == frames[frames.len() - 1]);
        assert(TOPIC_COUNT * prev.len() + TOPIC_COUNT == TOPIC_COUNT * frames.len()) by (nonlinear_arith)
            requires
                prev.len() + 1 == frames.len(),
        ;
    }
}

/// The requests of one frame, index by index: after what the transport
/// held before come the advertisements of the topics in topic order (when
/// `advertise` holds), then the `k`-th publish request carries the topic and
/// type of `pubs[k]`.
pub proof fn lemma_step_requests(before: Seq<TransportCall>, advertise: bool, pubs: Seq<Publication>)
    ensures
        ({
            let after = before + (if advertise {
                advertisements(TOPIC_COUNT as nat)
            } else {
                Seq::<TransportCall>::empty()
            }) + publish_calls(pubs);
            let ads: int = if advertise { TOPIC_COUNT as int } else { 0 };
            &&& after.len() == before.len() + ads + pubs.len()
            &&& forall|i: int| 0 <= i < before.len() ==> #[trigger] after[i] == before[i]
            &&& forall|i: int| 0 <= i < ads ==> #[trigger] after[before.len() + i] == TransportCall::Advertise(
                topic_spec(i).0,
                topic_spec(i).1,
            )
            &&& forall|k: int|
                0 <= k < pubs.len() ==> #[trigger] after[before.len() + ads + k] == TransportCall::Publish(
                    pubs[k].topic@,
                    pubs[k].msg_type@,
                )
        }),
{
    let mid = if advertise {
        advertisements(TOPIC_COUNT as nat)
    } else {
        Seq::<TransportCall>::empty()
    };
    let ads: int = if advertise { TOPIC_COUNT as int } else { 0 };
    let calls = publish_calls(pubs);
    let after = before + mid + calls;
    assert(mid.len() == ads);
    assert forall|i: int| 0 <= i < before.len() implies #[trigger] after[i] == before[i] by {
        assert((before + mid)[i] == before[i]);
    }
    assert forall|i: int| 0 <= i < ads implies #[trigger] after[before.len() + i] == TransportCall::Advertise(
        topic_spec(i).0,
        topic_spec(i).1,
    ) by {
        assert((before + mid)[before.len() + i] == mid[i]);
    }
    assert forall|k: int| 0 <= k < pubs.len() implies #[trigger] after[before.len() + ads + k] == TransportCall::Publish(
        pubs[k].topic@,
        pubs[k].msg_type@,
    ) by {
        assert(after[before.len() + ads + k] == calls[k]);
    }
}

/// The publish requests of `pubs` are `pubs.len()` publications.
proof fn lemma_publish_calls_count(pubs: Seq<Publication>)
    ensures
        publish_count(publish_calls(pubs)) == pubs.len(),
    decreases pubs.len(),
{
    if pubs.len() > 0 {
        lemma_publish_calls_count(pubs.drop_last());
        assert(publish_calls(pubs).drop_last() =~= publish_calls(pubs.drop_last()));
    }
}

/// Advertisements are no publications.
proof fn lemma_advertisements_count(n: nat)
    ensures
        publish_count(advertisements(n)) == 0,
    decreases n,
{
    if n > 0 {
        lemma_advertisements_count((n - 1) as nat);
        assert(advertisements(n).drop_last() =~= advertisements((n - 1) as nat));
    }
}

/// Only publications follow the advertisements, one per message.
proof fn lemma_frames_calls(frames: Seq<Seq<Publication>>)
    ensures
        publish_count(frames_calls(frames)) == message_total(frames),
        forall|i: int| 0 <= i < frames_calls(frames).len() ==> #[trigger] frames_calls(frames)[i] is Publish,
    decreases frames.len(),
{
    if frames.len() > 0 {
        let prev = frames_calls(frames.drop_last());
        let last = publish_calls(frames.last());
        lemma_frames_calls(frames.drop_last());
        lemma_publish_calls_count(frames.last());
        lemma_publish_count_concat(prev, last);
        assert forall|i: int| 0 <= i < (prev + last).len() implies #[trigger] (prev + last)[i] is Publish by {
            if i >= prev.len() {
                assert((prev + last)[i] == last[i - prev.len()]);
            }
        }
    }
}

/// Topics are advertised exactly once in a bridge's life, in topic order,
/// before anything is published, and then every message of every frame is
/// published once: in the history of a new bridge, the first `TOPIC_COUNT`
/// requests advertise the topics in order, all later requests are
/// publications, and there are as many of them as messages.
pub proof fn lemma_bridge_history(frames: Seq<Seq<Publication>>)
    requires
        frames.len() > 0,
    ensures
        bridge_history(frames).len() == TOPIC_COUNT + message_total(frames),
        forall|i: int|
            0 <= i < TOPIC_COUNT ==> #[trigger] bridge_history(frames)[i] == TransportCall::Advertise(
                topic_spec(i).0,
                topic_spec(i).1,
            ),
        forall|i: int| TOPIC_COUNT <= i < bridge_history(frames).len() ==> #[trigger] bridge_history(frames)[i] is Publish,
        publish_count(bridge_history(frames)) == message_total(frames),
{
    lemma_frames_calls(frames);
    lemma_frames_calls_len(frames);
    lemma_advertisements_count(TOPIC_COUNT as nat);
    lemma_publish_count_concat(advertisements(TOPIC_COUNT as nat), frames_calls(frames));
    let h = bridge_history(frames);
    assert forall|i: int| TOPIC_COUNT <= i < h.len() implies #[trigger] h[i] is Publish by {
        assert(h[i] == frames_calls(frames)[i - TOPIC_COUNT]);
    }
}

/// One request per message.
proof fn lemma_frames_calls_len(frames: Seq<Seq<Publication>>)
    ensures
        frames_calls(frames).len() == message_total(frames),
    decreases frames.len(),
{
    if frames.len() > 0 {
        lemma_frames_calls_len(frames.drop_last());
    }
}

} // verus!
