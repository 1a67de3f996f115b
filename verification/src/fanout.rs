//! Handing what one ffmpeg process puts out to any number of subscribers.
use std::collections::HashMap;

use vstd::prelude::*;

use crate::nal::FrameChunk;
use crate::pipeline;
use crate::pipeline::{EncodedFrame, FrameKind};

verus! {

broadcast use vstd::std_specs::hash::group_hash_axioms;

/// Names a subscription.
#[derive(Debug, Clone, Copy, PartialEq, Eq, PartialOrd, Ord, Hash)]
pub struct SubscriptionId(u64);

impl View for SubscriptionId {
    type V = u64;

    closed spec fn view(&self) -> u64 {
        self.0
    }
}

/// A callback, with what it is called for.
pub enum Subscriber<F, R> {
    /// For each frame.
    Frames(F),
    /// For each piece of the stream, as it was read.
    Raw(R),
}

/// The subscribers of one stream.
pub struct FanoutRegistry<F, R> {
    subscribers: HashMap<u64, Subscriber<F, R>>,
    next_id: u64,
}

/// A registry in the model.
#[verifier::ext_equal]
pub struct FanoutView<F, R> {
    pub subscribers: Map<u64, Subscriber<F, R>>,
    pub next_id: u64,
}

impl<F, R> View for FanoutRegistry<F, R> {
    type V = FanoutView<F, R>;

    closed spec fn view(&self) -> FanoutView<F, R> {
        FanoutView { subscribers: self.subscribers@, next_id: self.next_id }
    }
}

impl<F, R> FanoutView<F, R> {
    /// No subscriber, and the first number is next.
    pub open spec fn fresh() -> Self {
        FanoutView { subscribers: Map::empty(), next_id: 0 }
    }

    /// With one more subscriber, under the next number. After the highest
    /// number comes zero again.
    pub open spec fn with(self, subscriber: Subscriber<F, R>) -> Self {
        FanoutView {
            subscribers: self.subscribers.insert(self.next_id, subscriber),
            next_id: if self.next_id == u64::MAX {
                0
            } else {
                (self.next_id + 1) as u64
            },
        }
    }

    /// Without the subscriber of this number.
    pub open spec fn without(self, id: u64) -> Self {
        FanoutView { subscribers: self.subscribers.remove(id), next_id: self.next_id }
    }

    /// Only numbers below the next one are taken. So it is until all numbers
    /// have been given out.
    pub open spec fn numbered(self) -> bool {
        forall|id: u64| #[trigger] self.subscribers.contains_key(id) ==> id < self.next_id
    }

    /// The number of a subscriber to the stream as it was read.
    pub open spec fn is_raw(self, id: u64) -> bool {
        self.subscribers.contains_key(id) && self.subscribers[id] is Raw
    }

    /// The number of a subscriber to frames.
    pub open spec fn is_frames(self, id: u64) -> bool {
        self.subscribers.contains_key(id) && self.subscribers[id] is Frames
    }
}

impl<F, R> Default for FanoutRegistry<F, R> {
    fn default() -> (r: Self)
        ensures
            r@ == FanoutView::<F, R>::fresh(),
    {
        let r = FanoutRegistry { subscribers: HashMap::new(), next_id: 0 };
        assert(r@ =~= FanoutView::<F, R>::fresh());
        r
    }
}

impl<F, R> FanoutRegistry<F, R> {
    fn add_subscriber(&mut self, subscriber: Subscriber<F, R>) -> (r: SubscriptionId)
        ensures
            r@ == old(self)@.next_id,
            final(self)@ == old(self)@.with(subscriber),
    {
        let id: u64 = self.next_id;
        self.next_id = if id == u64::MAX {
            0
        } else {
            id + 1
        };
        self.subscribers.insert(id, subscriber);
        assert(self@ =~= old(self)@.with(subscriber));
        SubscriptionId(id)
    }

    /// Subscribes a callback to frames.
    pub fn subscribe_frames(&mut self, callback: F) -> (r: SubscriptionId)
        ensures
            r@ == old(self)@.next_id,
            final(self)@ == old(self)@.with(Subscriber::Frames(callback)),
    {
        self.add_subscriber(Subscriber::Frames(callback))
    }

    /// Subscribes a callback to the stream as it was read.
    pub fn subscribe_raw(&mut self, callback: R) -> (r: SubscriptionId)
        ensures
            r@ == old(self)@.next_id,
            final(self)@ == old(self)@.with(Subscriber::Raw(callback)),
    {
        self.add_subscriber(Subscriber::Raw(callback))
    }

    /// Ends a subscription of either kind. A number that is not taken is
    /// ignored.
    pub fn unsubscribe(&mut self, id: SubscriptionId)
        ensures
            final(self)@ == old(self)@.without(id@),
    {
        self.subscribers.remove(&id.0);
        assert(self@ =~= old(self)@.without(id@));
    }

    /// The numbers of the subscribers of one kind, each once.
    fn numbers(&self, raw: bool) -> (r: Vec<u64>)
        ensures
            r@.no_duplicates(),
            forall|id: u64| #[trigger]
                r@.contains(id) <==> if raw {
                    self@.is_raw(id)
                } else {
                    self@.is_frames(id)
                },
    {
        let mut r: Vec<u64> = Vec::new();
        let ghost all = vstd::std_specs::iter::IteratorSpec::remaining(
            &self.subscribers.keys(),
        ).unref();
        for id in it: self.subscribers.keys()
            invariant
                it.seq().unref() == all,
                all.to_set() == self.subscribers@.dom(),
                it.seq().no_duplicates(),
                r@.no_duplicates(),
                forall|k: u64| #[trigger]
                    r@.contains(k) <==> all.take(it.index() as int).contains(k) && if raw {
                        self@.is_raw(k)
                    } else {
                        self@.is_frames(k)
                    },
        {
            let ghost n = it.index() as int;
            let ghost before = r@;
            proof {
                assert(all[n] == *id);
                assert(all.to_set().contains(*id));
                assert(all.take(n + 1) =~= all.take(n).push(*id));
                assert(!before.contains(*id)) by {
                    if all.take(n).contains(*id) {
                        let j = choose|j: int| 0 <= j < n && all.take(n)[j] == *id;
                        assert(it.seq()[j] == it.seq()[n]);
                    }
                }
            }
            let wanted = match self.subscribers.get(id) {
                Some(Subscriber::Raw(_)) => raw,
                Some(Subscriber::Frames(_)) => !raw,
                None => false,
            };
            if wanted {
                r.push(*id);
            }
            proof {
                broadcast use vstd::seq_lib::lemma_seq_contains_after_push;

            }
        }
        assert(all.take(all.len() as int) =~= all);
        assert forall|id: u64| #[trigger] r@.contains(id) <==> if raw {
            self@.is_raw(id)
        } else {
            self@.is_frames(id)
        } by {
            assert(all.to_set().contains(id) <==> all.contains(id));
        }
        r
    }

    /// The numbers of the subscribers to the stream as it was read, each once.
    pub fn raw_subscribers(&self) -> (r: Vec<u64>)
        ensures
            r@.no_duplicates(),
            forall|id: u64| #[trigger] r@.contains(id) <==> self@.is_raw(id),
    {
        self.numbers(true)
    }

    /// The numbers of the subscribers to frames, each once.
    pub fn frame_subscribers(&self) -> (r: Vec<u64>)
        ensures
            r@.no_duplicates(),
            forall|id: u64| #[trigger] r@.contains(id) <==> self@.is_frames(id),
    {
        self.numbers(false)
    }
}

/// Each subscriber to the stream as it was read had one turn, in the order of
/// `ids`, with `chunk`. Turn `i` led from one of the states to the next.
pub open spec fn raw_turns<F, R, T, C: Fn(T, &R, &[u8]) -> T>(
    v: FanoutView<F, R>,
    chunk: &[u8],
    call: C,
    ids: Seq<u64>,
    states: Seq<T>,
) -> bool {
    &&& ids.no_duplicates()
    &&& forall|id: u64| #[trigger] ids.contains(id) <==> v.is_raw(id)
    &&& states.len() == ids.len() + 1
    &&& forall|i: int|
        0 <= i < ids.len() ==> call_ensures(
            call,
            (states[i], &v.subscribers[#[trigger] ids[i]]->Raw_0, chunk),
            states[i + 1],
        )
}

/// Each subscriber to frames had one turn, in the order of `ids`, with `frame`.
/// Turn `i` led from one of the states to the next.
pub open spec fn frame_turns<F, R, T, C: Fn(T, &F, &EncodedFrame) -> T>(
    v: FanoutView<F, R>,
    frame: &EncodedFrame,
    call: C,
    ids: Seq<u64>,
    states: Seq<T>,
) -> bool {
    &&& ids.no_duplicates()
    &&& forall|id: u64| #[trigger] ids.contains(id) <==> v.is_frames(id)
    &&& states.len() == ids.len() + 1
    &&& forall|i: int|
        0 <= i < ids.len() ==> call_ensures(
            call,
            (states[i], &v.subscribers[#[trigger] ids[i]]->Frames_0, frame),
            states[i + 1],
        )
}

impl<F, R> FanoutRegistry<F, R> {
    /// Gives every subscriber to the stream as it was read one turn, and no
    /// other. A turn is a call of `call` with the subscriber's callback. It takes
    /// the state that the turn before it left, so that none can be left out or
    /// made twice.
    pub fn broadcast_raw<T, C: Fn(T, &R, &[u8]) -> T>(&self, chunk: &[u8], state: T, call: C) -> (r:
        T)
        requires
            forall|t: T, id: u64|
                #![trigger self@.is_raw(id), call_requires(call, (t, &self@.subscribers[id]->Raw_0, chunk))]
                self@.is_raw(id) ==> call_requires(
                    call,
                    (t, &self@.subscribers[id]->Raw_0, chunk),
                ),
        ensures
            exists|ids: Seq<u64>, states: Seq<T>| #[trigger]
                raw_turns(self@, chunk, call, ids, states) && states[0] == state && states.last()
                    == r,
    {
        let ids = self.raw_subscribers();
        let ghost start = state;
        let mut state = state;
        let ghost mut states: Seq<T> = seq![state];
        let mut i: usize = 0;
        while i < ids.len()
            invariant
                0 <= i <= ids@.len(),
                forall|id: u64| #[trigger] ids@.contains(id) <==> self@.is_raw(id),
                forall|t: T, id: u64|
                    #![trigger self@.is_raw(id), call_requires(call, (t, &self@.subscribers[id]->Raw_0, chunk))]
                    self@.is_raw(id) ==> call_requires(
                        call,
                        (t, &self@.subscribers[id]->Raw_0, chunk),
                    ),
                states.len() == i + 1,
                states[0] == start,
                states.last() == state,
                forall|k: int|
                    0 <= k < i ==> call_ensures(
                        call,
                        (states[k], &self@.subscribers[#[trigger] ids@[k]]->Raw_0, chunk),
                        states[k + 1],
                    ),
            decreases ids@.len() - i,
        {
            let id: u64 = ids[i];
            assert(ids@.contains(id));
            assert(self@.is_raw(id));
            let ghost before = states;
            if let Some(Subscriber::Raw(callback)) = self.subscribers.get(&id) {
                state = call(state, callback, chunk);
            }
            proof {
                states = states.push(state);
                assert forall|k: int| 0 <= k < i + 1 implies call_ensures(
                    call,
                    (states[k], &self@.subscribers[#[trigger] ids@[k]]->Raw_0, chunk),
                    states[k + 1],
                ) by {
                    if k < i {
                        assert(states[k] == before[k] && states[k + 1] == before[k + 1]);
                    }
                }
            }
            i += 1;
        }
        assert(raw_turns(self@, chunk, call, ids@, states));
        state
    }

    /// Gives every subscriber to frames one turn, and no other. A turn is a call
    /// of `call` with the subscriber's callback. It takes the state that the turn
    /// before it left, so that none can be left out or made twice.
    pub fn broadcast_frame<T, C: Fn(T, &F, &EncodedFrame) -> T>(
        &self,
        frame: &EncodedFrame,
        state: T,
        call: C,
    ) -> (r: T)
        requires
            forall|t: T, id: u64|
                #![trigger self@.is_frames(id), call_requires(call, (t, &self@.subscribers[id]->Frames_0, frame))]
                self@.is_frames(id) ==> call_requires(
                    call,
                    (t, &self@.subscribers[id]->Frames_0, frame),
                ),
        ensures
            exists|ids: Seq<u64>, states: Seq<T>| #[trigger]
                frame_turns(self@, frame, call, ids, states) && states[0] == state && states.last()
                    == r,
    {
        let ids = self.frame_subscribers();
        let ghost start = state;
        let mut state = state;
        let ghost mut states: Seq<T> = seq![state];
        let mut i: usize = 0;
        while i < ids.len()
            invariant
                0 <= i <= ids@.len(),
                forall|id: u64| #[trigger] ids@.contains(id) <==> self@.is_frames(id),
                forall|t: T, id: u64|
                    #![trigger self@.is_frames(id), call_requires(call, (t, &self@.subscribers[id]->Frames_0, frame))]
                    self@.is_frames(id) ==> call_requires(
                        call,
                        (t, &self@.subscribers[id]->Frames_0, frame),
                    ),
                states.len() == i + 1,
                states[0] == start,
                states.last() == state,
                forall|k: int|
                    0 <= k < i ==> call_ensures(
                        call,
                        (states[k], &self@.subscribers[#[trigger] ids@[k]]->Frames_0, frame),
                        states[k + 1],
                    ),
            decreases ids@.len() - i,
        {
            let id: u64 = ids[i];
            assert(ids@.contains(id));
            assert(self@.is_frames(id));
            let ghost before = states;
            if let Some(Subscriber::Frames(callback)) = self.subscribers.get(&id) {
                state = call(state, callback, frame);
            }
            proof {
                states = states.push(state);
                assert forall|k: int| 0 <= k < i + 1 implies call_ensures(
                    call,
                    (states[k], &self@.subscribers[#[trigger] ids@[k]]->Frames_0, frame),
                    states[k + 1],
                ) by {
                    if k < i {
                        assert(states[k] == before[k] && states[k + 1] == before[k + 1]);
                    }
                }
            }
            i += 1;
        }
        assert(frame_turns(self@, frame, call, ids@, states));
        state
    }
}

// ---------------------------------------------------------------------------
// One piece of the stream
// ---------------------------------------------------------------------------

/// The frames to hand out for those that the splitter has completed: one for
/// each, in order.
pub fn encoded_frames(chunks: Vec<FrameChunk>) -> (r: Vec<EncodedFrame>)
    ensures
        r@.len() == chunks@.len(),
        forall|i: int|
            0 <= i < r@.len() ==> (#[trigger] r@[i])@ == pipeline::handed_out(chunks@[i]@),
{
    let mut r: Vec<EncodedFrame> = Vec::new();
    let ghost all = chunks@;
    for chunk in it: chunks
        invariant
            it.seq() == all,
            r@.len() == it.index(),
            forall|i: int|
                0 <= i < r@.len() ==> (#[trigger] r@[i])@ == pipeline::handed_out(all[i]@),
    {
        r.push(EncodedFrame::from_chunk(chunk));
    }
    r
}

/// `broadcast_frame` was called once with the frame that is handed out for this
/// one, and led from one state to the other.
pub open spec fn was_handed<T, B: Fn(T, &EncodedFrame) -> T>(
    broadcast_frame: B,
    before: T,
    chunk: FrameChunk,
    after: T,
) -> bool {
    exists|frame: EncodedFrame|
        frame@ == pipeline::handed_out(chunk@) && #[trigger] call_ensures(
            broadcast_frame,
            (before, &frame),
            after,
        )
}

/// `broadcast_frame` takes the frame that is handed out for this one.
pub open spec fn takes<T, B: Fn(T, &EncodedFrame) -> T>(
    broadcast_frame: B,
    chunk: FrameChunk,
) -> bool {
    forall|t: T, frame: EncodedFrame|
        frame@ == pipeline::handed_out(chunk@) ==> #[trigger] call_requires(
            broadcast_frame,
            (t, &frame),
        )
}

/// Each of these was handed out once, in order, from the first of the states to
/// the last.
pub open spec fn all_handed<T, B: Fn(T, &EncodedFrame) -> T>(
    broadcast_frame: B,
    chunks: Seq<FrameChunk>,
    states: Seq<T>,
) -> bool {
    &&& states.len() == chunks.len() + 1
    &&& forall|i: int|
        0 <= i < chunks.len() ==> was_handed(
            broadcast_frame,
            states[i],
            #[trigger] chunks[i],
            states[i + 1],
        )
}

/// Hands out one piece of the stream: first as it was read, then, after the
/// splitter has taken it, each frame that it completes, one after the other.
/// Each call takes the state that the one before it left, so that nothing can
/// be left out or handed out twice.
pub fn deliver_chunk<
    T,
    A: FnOnce(T, &[u8]) -> T,
    S: FnOnce(&[u8]) -> Vec<FrameChunk>,
    B: Fn(T, &EncodedFrame) -> T,
>(chunk: &[u8], state: T, broadcast_raw: A, split: S, broadcast_frame: B) -> (r: T)
    requires
        call_requires(broadcast_raw, (state, chunk)),
        forall|t: T| #[trigger]
            call_ensures(broadcast_raw, (state, chunk), t) ==> call_requires(split, (chunk,)),
        forall|frames: Vec<FrameChunk>, i: int|
            #![trigger call_ensures(split, (chunk,), frames), frames@[i]]
            call_ensures(split, (chunk,), frames) && 0 <= i < frames@.len() ==> takes(
                broadcast_frame,
                frames@[i],
            ),
    ensures
        exists|frames: Vec<FrameChunk>, states: Seq<T>|
            #![trigger call_ensures(split, (chunk,), frames), all_handed(broadcast_frame, frames@, states)]
            {
                &&& call_ensures(broadcast_raw, (state, chunk), states[0])
                &&& call_ensures(split, (chunk,), frames)
                &&& all_handed(broadcast_frame, frames@, states)
                &&& states.last() == r
            },
{
    let mut state = broadcast_raw(state, chunk);
    let ghost mut states: Seq<T> = seq![state];
    let ghost first = state;
    let frames = split(chunk);
    let ghost all = frames;
    let encoded = encoded_frames(frames);
    let mut i: usize = 0;
    while i < encoded.len()
        invariant
            0 <= i <= encoded@.len(),
            encoded@.len() == all@.len(),
            forall|k: int|
                0 <= k < encoded@.len() ==> (#[trigger] encoded@[k])@ == pipeline::handed_out(
                    all@[k]@,
                ),
            forall|k: int| 0 <= k < all@.len() ==> takes(broadcast_frame, #[trigger] all@[k]),
            states[0] == first,
            states.last() == state,
            all_handed(broadcast_frame, all@.take(i as int), states),
        decreases encoded@.len() - i,
    {
        let ghost before = states;
        let ghost old_state = state;
        assert(takes(broadcast_frame, all@[i as int]));
        state = broadcast_frame(state, &encoded[i]);
        proof {
            states = states.push(state);
            let n = i as int;
            let done = all@.take(n + 1);
            assert(was_handed(broadcast_frame, old_state, all@[n], state));
            assert forall|k: int| 0 <= k < done.len() implies was_handed(
                broadcast_frame,
                states[k],
                #[trigger] done[k],
                states[k + 1],
            ) by {
                if k < n {
                    assert(done[k] == all@.take(n)[k]);
                    assert(states[k] == before[k] && states[k + 1] == before[k + 1]);
                }
            }
        }
        i += 1;
    }
    assert(all@.take(i as int) =~= all@);
    state
}

// ---------------------------------------------------------------------------
// Laws
// ---------------------------------------------------------------------------

/// A new subscriber gets a number of its own, and all others stay subscribed
/// as they were.
pub proof fn subscribing_keeps_the_others<F, R>(v: FanoutView<F, R>, subscriber: Subscriber<F, R>)
    requires
        v.numbered(),
        v.next_id < u64::MAX,
    ensures
        !v.subscribers.contains_key(v.next_id),
        v.with(subscriber).numbered(),
        v.with(subscriber).subscribers[v.next_id] == subscriber,
        forall|id: u64| #[trigger]
            v.subscribers.contains_key(id) ==> v.with(subscriber).subscribers.contains_key(id)
                && v.with(subscriber).subscribers[id] == v.subscribers[id],
{
}

/// Unsubscribing undoes subscribing.
pub proof fn unsubscribing_undoes<F, R>(v: FanoutView<F, R>, subscriber: Subscriber<F, R>)
    requires
        v.numbered(),
    ensures
        v.with(subscriber).without(v.next_id).subscribers == v.subscribers,
{
    assert(!v.subscribers.contains_key(v.next_id));
    assert(v.with(subscriber).without(v.next_id).subscribers =~= v.subscribers);
}

/// Unsubscribing ends one subscription, of either kind, and no other; doing it
/// again changes nothing.
pub proof fn unsubscribing_is_exact<F, R>(v: FanoutView<F, R>, id: u64)
    ensures
        !v.without(id).is_raw(id),
        !v.without(id).is_frames(id),
        forall|other: u64|
            other != id ==> #[trigger] v.without(id).is_raw(other) == v.is_raw(other),
        forall|other: u64|
            other != id ==> #[trigger] v.without(id).is_frames(other) == v.is_frames(other),
        v.without(id).without(id) == v.without(id),
        v.numbered() ==> v.without(id).numbered(),
{
    assert(v.without(id).without(id) =~= v.without(id));
}

/// A change of the subscribers.
#[verifier::ext_equal]
pub enum Change<F, R> {
    Subscribe(Subscriber<F, R>),
    /// The subscription of this number ends.
    Unsubscribe(u64),
}

/// The registry after these changes, from the beginning on.
pub open spec fn changed<F, R>(changes: Seq<Change<F, R>>) -> FanoutView<F, R>
    decreases changes.len(),
{
    if changes.len() == 0 {
        FanoutView::fresh()
    } else {
        let before = changed(changes.drop_last());
        match changes.last() {
            Change::Subscribe(subscriber) => before.with(subscriber),
            Change::Unsubscribe(id) => before.without(id),
        }
    }
}

/// The numbers that these changes hand out, from the beginning on.
pub open spec fn handed_numbers<F, R>(changes: Seq<Change<F, R>>) -> Seq<u64>
    decreases changes.len(),
{
    if changes.len() == 0 {
        Seq::empty()
    } else {
        let before = handed_numbers(changes.drop_last());
        match changes.last() {
            Change::Subscribe(_) => before.push(changed(changes.drop_last()).next_id),
            Change::Unsubscribe(_) => before,
        }
    }
}

proof fn lemma_numbers<F, R>(changes: Seq<Change<F, R>>)
    requires
        handed_numbers(changes).len() <= u64::MAX + 1,
    ensures
        forall|i: int|
            0 <= i < handed_numbers(changes).len() ==> #[trigger] handed_numbers(changes)[i] == i,
        changed(changes).next_id == (if handed_numbers(changes).len() == u64::MAX + 1 {
            0
        } else {
            handed_numbers(changes).len() as int
        }),
        forall|id: u64| #[trigger]
            changed(changes).subscribers.contains_key(id) ==> id < handed_numbers(changes).len(),
    decreases changes.len(),
{
    if changes.len() > 0 {
        lemma_numbers(changes.drop_last());
    }
}

/// However subscriptions come and go, no number is handed out twice, until
/// there are no more numbers.
pub proof fn numbers_are_handed_out_once<F, R>(changes: Seq<Change<F, R>>)
    requires
        handed_numbers(changes).len() <= u64::MAX + 1,
    ensures
        handed_numbers(changes).no_duplicates(),
{
    lemma_numbers(changes);
}

/// A subscription that has ended stays so, whatever changes follow: its number
/// names no subscriber again, until there are no more numbers.
pub proof fn what_has_ended_stays_so<F, R>(changes: Seq<Change<F, R>>, k: int)
    requires
        handed_numbers(changes).len() <= u64::MAX + 1,
        0 <= k < changes.len(),
        changes[k] is Unsubscribe,
        handed_numbers(changes.take(k)).contains(changes[k]->Unsubscribe_0),
    ensures
        !changed(changes).subscribers.contains_key(changes[k]->Unsubscribe_0),
    decreases changes.len(),
{
    let front = changes.drop_last();
    let id = changes[k]->Unsubscribe_0;
    lemma_numbers(changes);
    lemma_numbers(front);
    if k < changes.len() - 1 {
        assert(front.take(k) =~= changes.take(k));
        what_has_ended_stays_so(front, k);
        lemma_numbers_grow(front, k);
        let i = choose|i: int|
            0 <= i < handed_numbers(changes.take(k)).len() && handed_numbers(changes.take(k))[i]
                == id;
        assert(handed_numbers(front)[i] == id);
    }
}

proof fn lemma_numbers_grow<F, R>(changes: Seq<Change<F, R>>, k: int)
    requires
        0 <= k <= changes.len(),
    ensures
        handed_numbers(changes.take(k)).is_prefix_of(handed_numbers(changes)),
    decreases changes.len(),
{
    if k < changes.len() {
        let front = changes.drop_last();
        assert(front.take(k) =~= changes.take(k));
        lemma_numbers_grow(front, k);
    } else {
        assert(changes.take(k) =~= changes);
    }
}

/// A subscriber gets what it has subscribed to: one to frames gets frames and
/// not the stream as it was read, and the other way round.
pub proof fn subscribers_get_what_they_asked_for<F, R>(
    v: FanoutView<F, R>,
    on_frame: F,
    on_raw: R,
    id: u64,
)
    ensures
        v.with(Subscriber::Frames(on_frame)).is_frames(v.next_id),
        !v.with(Subscriber::Frames(on_frame)).is_raw(v.next_id),
        v.with(Subscriber::Raw(on_raw)).is_raw(v.next_id),
        !v.with(Subscriber::Raw(on_raw)).is_frames(v.next_id),
        !(v.is_raw(id) && v.is_frames(id)),
        v.subscribers.contains_key(id) <==> v.is_raw(id) || v.is_frames(id),
        !FanoutView::<F, R>::fresh().subscribers.contains_key(id),
{
}

/// In a broadcast of the stream as it was read, each subscriber to it has just
/// one turn, with its own callback and these bytes, and no other subscriber has
/// one.
pub proof fn each_has_one_raw_turn<F, R, T, C: Fn(T, &R, &[u8]) -> T>(
    v: FanoutView<F, R>,
    chunk: &[u8],
    call: C,
    ids: Seq<u64>,
    states: Seq<T>,
    id: u64,
)
    requires
        raw_turns(v, chunk, call, ids, states),
    ensures
        match v.subscribers.contains_key(id) {
            true => match v.subscribers[id] {
                Subscriber::Raw(callback) => exists|i: int|
                    {
                        &&& 0 <= i < ids.len()
                        &&& #[trigger] ids[i] == id
                        &&& call_ensures(call, (states[i], &callback, chunk), states[i + 1])
                        &&& forall|j: int| 0 <= j < ids.len() && j != i ==> #[trigger] ids[j] != id
                    },
                Subscriber::Frames(_) => !ids.contains(id),
            },
            false => !ids.contains(id),
        },
        states.len() == ids.len() + 1,
{
    if v.is_raw(id) {
        assert(ids.contains(id));
        let i = choose|i: int| 0 <= i < ids.len() && ids[i] == id;
        assert(ids[i] == id);
    }
}

/// In a broadcast of a frame, each subscriber to frames has just one turn, with
/// its own callback and this frame, and no other subscriber has one.
pub proof fn each_has_one_frame_turn<F, R, T, C: Fn(T, &F, &EncodedFrame) -> T>(
    v: FanoutView<F, R>,
    frame: &EncodedFrame,
    call: C,
    ids: Seq<u64>,
    states: Seq<T>,
    id: u64,
)
    requires
        frame_turns(v, frame, call, ids, states),
    ensures
        match v.subscribers.contains_key(id) {
            true => match v.subscribers[id] {
                Subscriber::Frames(callback) => exists|i: int|
                    {
                        &&& 0 <= i < ids.len()
                        &&& #[trigger] ids[i] == id
                        &&& call_ensures(call, (states[i], &callback, frame), states[i + 1])
                        &&& forall|j: int| 0 <= j < ids.len() && j != i ==> #[trigger] ids[j] != id
                    },
                Subscriber::Raw(_) => !ids.contains(id),
            },
            false => !ids.contains(id),
        },
        states.len() == ids.len() + 1,
{
    if v.is_frames(id) {
        assert(ids.contains(id));
        let i = choose|i: int| 0 <= i < ids.len() && ids[i] == id;
        assert(ids[i] == id);
    }
}

/// Of the frames that a piece of the stream completes, each is handed out in its
/// turn with all its bytes, as a key frame exactly if it is one.
pub proof fn frames_are_handed_out_as_they_are<T, B: Fn(T, &EncodedFrame) -> T>(
    broadcast_frame: B,
    chunks: Seq<FrameChunk>,
    states: Seq<T>,
    i: int,
)
    requires
        all_handed(broadcast_frame, chunks, states),
        0 <= i < chunks.len(),
    ensures
        states.len() == chunks.len() + 1,
        exists|frame: EncodedFrame|
            {
                &&& #[trigger] call_ensures(broadcast_frame, (states[i], &frame), states[i + 1])
                &&& frame.payload@ == chunks[i].payload@
                &&& frame.kind == FrameKind::Key <==> chunks[i].is_key
            },
{
    assert(was_handed(broadcast_frame, states[i], chunks[i], states[i + 1]));
}

} // verus!
