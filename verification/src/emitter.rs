//! The broadcast engine: [`Emitter`], [`Events`] and the wait helper.
//!
//! An `Emitter` owns the registry of subscriber channels and fans every
//! emitted event out to all of them, without blocking and without failing: a
//! subscriber whose bounded queue is full, or whose receive side is gone,
//! gets nothing — then and ever after — and is pruned from the registry by
//! the next delivery round. Each subscription is an `Events` handle over its
//! own bounded queue, consumed independently of every other.
//!
//! The ghost model: each registry entry carries the sequence of events that
//! were successfully handed to its queue since it subscribed (its delivery
//! log), and each `Events` handle carries the sequence of events taken out
//! of its queue so far. The contracts of `emit` and `subscribe` pin down
//! exactly how one call changes the registry; which deliveries succeed
//! depends on queue room and on consumers running concurrently, so it
//! enters the contracts as an unconstrained choice.

use vstd::prelude::*;

verus! {

/// Maximum unconsumed events allowed per subscription.
pub const MAX_PENDING_EVENTS: usize = 8192;

use crate::events::Event;

/// Why a bounded receive ended without an event: the time ran out while the
/// producer was still alive, or the producer is gone for good.
#[derive(Clone, Copy, Debug, PartialEq, Eq, Structural)]
pub enum RecvTimeoutError {
    /// No event arrived in time; more may yet come.
    Timeout,
    /// The emitter was destroyed: no further event can ever arrive.
    Disconnected,
}

/// Why a non-blocking receive ended without an event.
#[derive(Clone, Copy, Debug, PartialEq, Eq, Structural)]
pub enum TryRecvError {
    /// Nothing is queued right now; more may yet come.
    Empty,
    /// The emitter was destroyed and the queue is drained.
    Disconnected,
}

#[verifier::external_type_specification]
#[verifier::external_body]
#[verifier::reject_recursive_types(T)]
pub struct ExSender<T>(crossbeam_channel::Sender<T>);

#[verifier::external_type_specification]
#[verifier::external_body]
#[verifier::reject_recursive_types(T)]
pub struct ExReceiver<T>(crossbeam_channel::Receiver<T>);

#[verifier::external_type_specification]
#[verifier::external_body]
pub struct ExInstant(std::time::Instant);

/// The ghost image of one registry entry: which subscription it is, whether
/// a delivery to it has ever failed, and its delivery log — every event
/// handed to its queue since it subscribed, oldest first.
#[verifier::ext_equal]
pub struct SubView {
    /// Distinguishes this subscription from every other of the same emitter.
    pub id: nat,
    /// Whether every delivery so far succeeded. Once a delivery fails the
    /// entry is dead: it receives no further events, and the next delivery
    /// round removes it.
    pub live: bool,
    /// The events successfully handed to this subscriber's queue, in order.
    pub sent: Seq<Event>,
}

/// One registry entry: the send side of a subscriber's queue, whether it is
/// still delivered to, and its ghost delivery log.
pub struct Subscriber {
    tx: crossbeam_channel::Sender<Event>,
    live: bool,
    id: Ghost<nat>,
    sent: Ghost<Seq<Event>>,
}

impl View for Subscriber {
    type V = SubView;

    closed spec fn view(&self) -> SubView {
        SubView { id: self.id@, live: self.live, sent: self.sent@ }
    }
}

/// The ghost images of a run of registry entries, in registry order.
pub open spec fn views(subs: Seq<Subscriber>) -> Seq<SubView> {
    subs.map_values(|s: Subscriber| s@)
}

/// The live entries of a registry, in order: what a delivery round still
/// delivers to, after it has removed the entries past deliveries gave up on.
pub open spec fn pruned(subs: Seq<SubView>) -> Seq<SubView>
    decreases subs.len(),
{
    if subs.len() == 0 {
        Seq::empty()
    } else {
        pruned(subs.drop_last()) + (if subs.last().live {
            seq![subs.last()]
        } else {
            Seq::<SubView>::empty()
        })
    }
}

/// An entry after one event was handed to its queue.
pub open spec fn delivered(v: SubView, e: Event) -> SubView {
    SubView { id: v.id, live: true, sent: v.sent.push(e) }
}

/// An entry after a delivery to it failed: its queue was full or its receive
/// side was dropped. Its log stops growing and the next round removes it.
pub open spec fn marked(v: SubView) -> SubView {
    SubView { id: v.id, live: false, sent: v.sent }
}

/// One delivery pass over a run of live entries: the entries `keep` accepts
/// get the event appended to their logs; the rest are marked dead, their
/// logs unchanged. Positions are preserved.
pub open spec fn apply_keep(before: Seq<SubView>, e: Event, keep: Seq<bool>) -> Seq<SubView>
    decreases before.len(),
{
    if before.len() == 0 {
        Seq::empty()
    } else {
        apply_keep(before.drop_last(), e, keep.drop_last()) + seq![
            if keep.len() > 0 && keep.last() {
                delivered(before.last(), e)
            } else {
                marked(before.last())
            },
        ]
    }
}

/// How one `emit` call may change the registry: the entries earlier rounds
/// marked dead are removed, then some delivery pass runs over the rest.
/// Which deliveries succeed is not pinned down: it depends on queue room and
/// on receive sides having been dropped, which consumers running
/// concurrently control.
pub open spec fn emit_step(before: Seq<SubView>, e: Event, after: Seq<SubView>) -> bool {
    exists|keep: Seq<bool>|
        keep.len() == pruned(before).len() && after == apply_keep(pruned(before), e, keep)
}

/// How a run of `emit` calls, one per event in order, may change the
/// registry.
pub open spec fn emit_trace(before: Seq<SubView>, events: Seq<Event>, after: Seq<SubView>) -> bool
    decreases events.len(),
{
    if events.len() == 0 {
        after == before
    } else {
        exists|mid: Seq<SubView>|
            emit_step(before, events.first(), mid) && emit_trace(mid, events.drop_first(), after)
    }
}

/// The sum of the delivery logs' lengths across a registry: every event ever
/// handed to some subscriber's queue, counted once per subscriber it
/// reached.
pub open spec fn total_sent(subs: Seq<SubView>) -> nat
    decreases subs.len(),
{
    if subs.len() == 0 {
        0
    } else {
        total_sent(subs.drop_last()) + subs.last().sent.len()
    }
}

/// Publishes events to subscribers.
///
/// Its view is the ghost image of the registry: one [`SubView`] per
/// registered subscriber, in registry order.
pub struct Emitter {
    subscribers: Vec<Subscriber>,
    next_id: Ghost<nat>,
}

impl View for Emitter {
    type V = Seq<SubView>;

    closed spec fn view(&self) -> Seq<SubView> {
        views(self.subscribers@)
    }
}

/// Events feed: the receive side of one subscription. Its view is the
/// sequence of events taken out of it so far, oldest first.
pub struct Events {
    rx: crossbeam_channel::Receiver<Event>,
    received: Ghost<Seq<Event>>,
}

impl View for Events {
    type V = Seq<Event>;

    closed spec fn view(&self) -> Seq<Event> {
        self.received@
    }
}

/// Relies on crossbeam_channel::bounded: a connected channel pair of fixed
/// capacity, with nothing queued yet.
#[verifier::external_body]
fn chan_bounded(cap: usize) -> (r: (
    crossbeam_channel::Sender<Event>,
    crossbeam_channel::Receiver<Event>,
))
{
    crossbeam_channel::bounded(cap)
}

/// Relies on crossbeam_channel::Sender::try_send: on success the message is
/// placed at the tail of the queue; when the queue is full or the receive
/// side is gone, nothing is sent.
#[verifier::external_body]
fn deliver(sub: &mut Subscriber, event: &Event) -> (ok: bool)
    ensures
        final(sub)@.id == old(sub)@.id,
        final(sub)@.live == old(sub)@.live,
        ok ==> final(sub)@.sent == old(sub)@.sent.push(*event),
        !ok ==> final(sub)@.sent == old(sub)@.sent,
{
    sub.tx.try_send(event.clone()).is_ok()
}

/// Relies on crossbeam_channel::Sender::len: the number of messages waiting
/// in the queue right now — never more than were ever sent into it, nor than
/// the queue's capacity.
#[verifier::external_body]
fn queued(sub: &Subscriber) -> (n: usize)
    ensures
        n <= sub@.sent.len(),
        n <= MAX_PENDING_EVENTS,
{
    sub.tx.len()
}

/// A wait budget: the instant a wait started and how long it may last. The
/// ghost fuel stands for how many more readings of the clock can still fall
/// inside the budget: the monotonic clock eventually passes any fixed
/// deadline, so only finitely many readings do, and each consumes fuel.
struct Deadline {
    start: std::time::Instant,
    timeout: std::time::Duration,
    fuel: Ghost<nat>,
}

/// Relies on std::time::Instant::now: an opaque reading of the monotonic
/// clock.
#[verifier::external_body]
fn instant_now() -> (r: std::time::Instant) {
    std::time::Instant::now()
}

/// Start the clock on a wait budget. How much fuel the budget holds nothing
/// ever needs to know: only that it is finite.
fn deadline_start(timeout: std::time::Duration) -> (d: Deadline) {
    Deadline { start: instant_now(), timeout, fuel: Ghost(arbitrary()) }
}

/// Relies on std::time::Instant::elapsed and std::time::Duration::checked_sub:
/// the part of the budget the clock has not yet spent, or nothing once it is
/// all spent. A reading that still falls inside the budget consumes fuel,
/// and no reading does once the fuel is gone.
#[verifier::external_body]
fn deadline_remaining(d: &mut Deadline) -> (r: Option<std::time::Duration>)
    ensures
        r is Some ==> old(d).fuel@ > 0 && final(d).fuel@ < old(d).fuel@,
{
    d.timeout.checked_sub(d.start.elapsed())
}

impl Default for Emitter {
    /// A fresh emitter with no subscribers.
    fn default() -> (e: Emitter)
        ensures
            e@ == Seq::<SubView>::empty(),
            e.inv(),
    {
        Emitter { subscribers: Vec::new(), next_id: Ghost(0nat) }
    }
}

impl Emitter {
    /// Registry well-formedness: subscription ids grow along the registry
    /// and stay below the next id to hand out, so no two entries — past or
    /// present — share an id.
    pub closed spec fn inv(&self) -> bool {
        &&& forall|i: int, j: int|
            #![trigger self@[i].id, self@[j].id]
            0 <= i < j < self@.len() ==> self@[i].id < self@[j].id
        &&& forall|i: int| 0 <= i < self@.len() ==> #[trigger] self@[i].id < self.next_id@
    }

    /// Emit an event to subscribers and drop those who can't receive it: the
    /// entries past rounds gave up on are removed, then one delivery pass
    /// attempts a non-blocking send of a duplicate of the event to each
    /// remaining subscriber, appending it to the logs of those that take it
    /// and marking — for good — those whose queue is full or whose receive
    /// side was dropped. Never blocks beyond the pass itself, and has no
    /// error path.
    pub fn emit(&mut self, event: Event)
        requires
            old(self).inv(),
        ensures
            final(self).inv(),
            emit_step(old(self)@, event, final(self)@),
            final(self)@.len() <= old(self)@.len(),
    {
        let ghost before = self@;
        // Prune the entries whose delivery already failed.
        let mut kept: Vec<Subscriber> = Vec::new();
        let ghost mut done: Seq<SubView> = Seq::empty();
        while self.subscribers.len() > 0
            invariant
                before == done + views(self.subscribers@),
                views(kept@) == pruned(done),
                self.next_id@ == old(self).next_id@,
            decreases self.subscribers.len(),
        {
            let ghost headvec = self.subscribers@;
            let sub = self.subscribers.remove(0);
            let ghost pre = sub@;
            proof {
                assert(views(headvec) =~= seq![pre] + views(self.subscribers@));
            }
            if sub.live {
                kept.push(sub);
            }
            proof {
                let done2 = done.push(pre);
                assert(done2.drop_last() =~= done);
                assert(done + seq![pre] =~= done2);
                if pre.live {
                    assert(views(kept@) =~= pruned(done) + seq![pre]);
                } else {
                    assert(views(kept@) =~= pruned(done));
                }
                assert(views(kept@) == pruned(done2));
                done = done2;
                assert(before =~= done + views(self.subscribers@));
            }
        }
        proof {
            assert(views(self.subscribers@) =~= Seq::<SubView>::empty());
            assert(before =~= done);
        }
        self.subscribers = kept;
        let ghost mid = self@;
        proof {
            assert(mid == pruned(before));
        }
        // Deliver to what is left, marking the entries that cannot take it.
        let mut out: Vec<Subscriber> = Vec::new();
        let ghost mut done2: Seq<SubView> = Seq::empty();
        let ghost mut keep: Seq<bool> = Seq::empty();
        while self.subscribers.len() > 0
            invariant
                done2.len() == keep.len(),
                mid == done2 + views(self.subscribers@),
                views(out@) == apply_keep(done2, event, keep),
                self.next_id@ == old(self).next_id@,
            decreases self.subscribers.len(),
        {
            let ghost headvec = self.subscribers@;
            let mut sub = self.subscribers.remove(0);
            let ghost pre = sub@;
            proof {
                assert(views(headvec) =~= seq![pre] + views(self.subscribers@));
            }
            let ok = deliver(&mut sub, &event);
            sub.live = ok;
            proof {
                if ok {
                    assert(sub@ =~= delivered(pre, event));
                } else {
                    assert(sub@ =~= marked(pre));
                }
            }
            out.push(sub);
            proof {
                let d = done2.push(pre);
                let k = keep.push(ok);
                assert(d.drop_last() =~= done2);
                assert(k.drop_last() =~= keep);
                assert(done2 + seq![pre] =~= d);
                if ok {
                    assert(views(out@) =~= apply_keep(done2, event, keep) + seq![
                        delivered(pre, event),
                    ]);
                } else {
                    assert(views(out@) =~= apply_keep(done2, event, keep) + seq![marked(pre)]);
                }
                assert(views(out@) == apply_keep(d, event, k));
                done2 = d;
                keep = k;
                assert(mid =~= done2 + views(self.subscribers@));
            }
        }
        proof {
            assert(views(self.subscribers@) =~= Seq::<SubView>::empty());
            assert(mid =~= done2);
        }
        self.subscribers = out;
        proof {
            assert(keep.len() == pruned(before).len());
            assert(self@ == apply_keep(pruned(before), event, keep));
            lemma_pruned_ordered(before);
            lemma_apply_keep_positions(pruned(before), event, keep);
            assert forall|j: int| 0 <= j < self@.len() implies #[trigger] self@[j].id
                < self.next_id@ by {
                assert(self@[j].id == pruned(before)[j].id);
                let i = choose|i: int|
                    0 <= i < before.len() && #[trigger] pruned(before)[j].id == before[i].id;
                assert(old(self)@[i].id < old(self).next_id@);
            }
            assert forall|i: int, j: int|
                #![trigger self@[i].id, self@[j].id]
                0 <= i < j < self@.len() implies self@[i].id < self@[j].id by {
                assert(self@[i].id == pruned(before)[i].id);
                assert(self@[j].id == pruned(before)[j].id);
            }
        }
    }

    /// Subscribe to the events stream: register a fresh bounded queue of
    /// capacity [`MAX_PENDING_EVENTS`] at the end of the registry, live and
    /// with an empty delivery log — a new subscription observes only events
    /// emitted after this call — and return its receive handle, which has
    /// consumed nothing yet.
    pub fn subscribe(&mut self) -> (events: Events)
        requires
            old(self).inv(),
        ensures
            final(self).inv(),
            final(self)@.len() == old(self)@.len() + 1,
            final(self)@.drop_last() == old(self)@,
            final(self)@.last().sent == Seq::<Event>::empty(),
            final(self)@.last().live,
            forall|i: int|
                0 <= i < old(self)@.len() ==> #[trigger] old(self)@[i].id
                    != final(self)@.last().id,
            events@ == Seq::<Event>::empty(),
    {
        let (tx, rx) = chan_bounded(MAX_PENDING_EVENTS);
        let ghost id = self.next_id@;
        let sub = Subscriber { tx, live: true, id: Ghost(id), sent: Ghost(Seq::empty()) };
        let ghost before = self@;
        self.subscribers.push(sub);
        self.next_id = Ghost((id + 1) as nat);
        proof {
            assert(self@ =~= before.push(SubView { id, live: true, sent: Seq::empty() }));
            assert(self@.drop_last() =~= before);
        }
        Events { rx, received: Ghost(Seq::empty()) }
    }

    /// Number of subscribers currently registered: those not yet pruned.
    /// Reflects the pruning performed by past `emit` calls — a subscriber
    /// whose delivery just failed is still counted until the next delivery
    /// round removes it — not a live probe of subscriber health.
    pub fn subscriptions(&self) -> (n: usize)
        ensures
            n == self@.len(),
    {
        self.subscribers.len()
    }

    /// Number of events enqueued and not yet consumed, summed over all
    /// registered subscribers, saturating at the machine's limit. The count
    /// is a momentary observation — consumers drain their queues
    /// concurrently — so it is bounded by, but need not reach, what the
    /// delivery logs hold: at most the queue capacity per subscriber, and at
    /// most what was ever delivered.
    pub fn pending(&self) -> (n: usize)
        ensures
            n as nat <= (MAX_PENDING_EVENTS as nat) * self@.len(),
            n as nat <= total_sent(self@),
    {
        let mut total: usize = 0;
        let mut i: usize = 0;
        while i < self.subscribers.len()
            invariant
                i <= self.subscribers@.len(),
                total as nat <= (MAX_PENDING_EVENTS as nat) * (i as nat),
                total as nat <= total_sent(self@.take(i as int)),
            decreases self.subscribers@.len() - i,
        {
            let q = queued(&self.subscribers[i]);
            proof {
                assert(self@.take(i + 1).drop_last() =~= self@.take(i as int));
                assert(self@.take(i + 1).last() == self@[i as int]);
                assert(self@[i as int].sent == self.subscribers@[i as int]@.sent);
            }
            total = if total <= usize::MAX - q {
                total + q
            } else {
                usize::MAX
            };
            i += 1;
        }
        proof {
            assert(self@.take(self.subscribers@.len() as int) =~= self@);
        }
        total
    }
}

impl Events {
    /// Receive without blocking. Relies on
    /// crossbeam_channel::Receiver::try_recv: the event at the head of the
    /// queue, or `Empty` when nothing is queued right now, or `Disconnected`
    /// when the emitter is gone and the queue is drained.
    #[verifier::external_body]
    pub fn try_recv(&mut self) -> (r: Result<Event, TryRecvError>)
        ensures
            match r {
                Result::Ok(e) => final(self)@ == old(self)@.push(e),
                Result::Err(_) => final(self)@ == old(self)@,
            },
    {
        match self.rx.try_recv() {
            Ok(e) => Ok(e),
            Err(crossbeam_channel::TryRecvError::Empty) => Err(TryRecvError::Empty),
            Err(crossbeam_channel::TryRecvError::Disconnected) => Err(TryRecvError::Disconnected),
        }
    }

    /// Receive, blocking for at most `timeout`. Relies on
    /// crossbeam_channel::Receiver::recv_timeout: the event at the head of
    /// the queue, possibly after waiting for one to arrive; `Timeout` when
    /// none arrived in time; `Disconnected` when the emitter is gone and the
    /// queue is drained.
    #[verifier::external_body]
    pub fn recv_timeout(&mut self, timeout: std::time::Duration) -> (r: Result<
        Event,
        RecvTimeoutError,
    >)
        ensures
            match r {
                Result::Ok(e) => final(self)@ == old(self)@.push(e),
                Result::Err(_) => final(self)@ == old(self)@,
            },
    {
        match self.rx.recv_timeout(timeout) {
            Ok(e) => Ok(e),
            Err(crossbeam_channel::RecvTimeoutError::Timeout) => Err(RecvTimeoutError::Timeout),
            Err(crossbeam_channel::RecvTimeoutError::Disconnected) => Err(
                RecvTimeoutError::Disconnected,
            ),
        }
    }

    /// Listen for events and wait for the given predicate to return
    /// something, or time out once the given amount of time has elapsed.
    ///
    /// Every event consumed before the match was rejected by the predicate;
    /// on success the returned value is what the predicate produced for the
    /// first satisfying event, which is the last event consumed. On
    /// `Timeout` as on `Disconnected`, no consumed event satisfied the
    /// predicate: the clock, respectively the loss of the producer, cut the
    /// wait short. Whether time runs out, and whether the producer is still
    /// there, only the run decides.
    pub fn wait<T, F: Fn(&Event) -> Option<T>>(&mut self, f: F, timeout: std::time::Duration) -> (r:
        Result<T, RecvTimeoutError>)
        requires
            forall|e: Event| call_requires(f, (&e,)),
        ensures
            old(self)@.is_prefix_of(final(self)@),
            forall|i: int|
                old(self)@.len() <= i < final(self)@.len() - 1 ==> call_ensures(
                    f,
                    (&final(self)@[i],),
                    None::<T>,
                ),
            match r {
                Result::Ok(v) => final(self)@.len() > old(self)@.len() && call_ensures(
                    f,
                    (&final(self)@.last(),),
                    Some(v),
                ),
                Result::Err(_) => final(self)@.len() == old(self)@.len() || call_ensures(
                    f,
                    (&final(self)@.last(),),
                    None::<T>,
                ),
            },
    {
        let mut deadline = deadline_start(timeout);
        loop
            invariant
                forall|e: Event| call_requires(f, (&e,)),
                old(self)@.is_prefix_of(self@),
                forall|i: int|
                    old(self)@.len() <= i < self@.len() ==> call_ensures(
                        f,
                        (&self@[i],),
                        None::<T>,
                    ),
            decreases deadline.fuel@,
        {
            match deadline_remaining(&mut deadline) {
                Some(remaining) => {
                    match self.recv_timeout(remaining) {
                        Ok(event) => {
                            match f(&event) {
                                Some(output) => {
                                    return Ok(output);
                                },
                                None => {},
                            }
                        },
                        Err(RecvTimeoutError::Disconnected) => {
                            return Err(RecvTimeoutError::Disconnected);
                        },
                        Err(RecvTimeoutError::Timeout) => {
                            // Keep trying until the remaining budget reaches zero.
                        },
                    }
                },
                None => {
                    return Err(RecvTimeoutError::Timeout);
                },
            }
        }
    }
}

/// Pruning keeps entries as they are, in registry order: every entry of
/// `pruned(subs)` is an entry of `subs`, the kept ids appear in the same
/// order, and only live entries are kept — all of them.
pub proof fn lemma_pruned_ordered(subs: Seq<SubView>)
    ensures
        pruned(subs).len() <= subs.len(),
        forall|j: int|
            0 <= j < pruned(subs).len() ==> exists|i: int|
                0 <= i < subs.len() && #[trigger] pruned(subs)[j] == subs[i],
        forall|j: int|
            0 <= j < pruned(subs).len() ==> exists|i: int|
                0 <= i < subs.len() && #[trigger] pruned(subs)[j].id == subs[i].id,
        forall|j: int| 0 <= j < pruned(subs).len() ==> #[trigger] pruned(subs)[j].live,
        (forall|i: int, j: int|
            #![trigger subs[i].id, subs[j].id]
            0 <= i < j < subs.len() ==> subs[i].id < subs[j].id) ==> (forall|i: int, j: int|
            #![trigger pruned(subs)[i].id, pruned(subs)[j].id]
            0 <= i < j < pruned(subs).len() ==> pruned(subs)[i].id < pruned(subs)[j].id),
    decreases subs.len(),
{
    if subs.len() > 0 {
        lemma_pruned_ordered(subs.drop_last());
        let prefix = pruned(subs.drop_last());
        let whole = pruned(subs);
        assert forall|j: int| 0 <= j < whole.len() implies exists|i: int|
            0 <= i < subs.len() && #[trigger] whole[j] == subs[i] by {
            if j < prefix.len() {
                let i = choose|i: int|
                    0 <= i < subs.drop_last().len() && #[trigger] prefix[j] == subs.drop_last()[i];
                assert(subs.drop_last()[i] == subs[i]);
                assert(whole[j] == subs[i]);
            } else {
                assert(whole[j] == subs[subs.len() - 1]);
            }
        }
        assert forall|j: int| 0 <= j < whole.len() implies exists|i: int|
            0 <= i < subs.len() && #[trigger] whole[j].id == subs[i].id by {
            let i = choose|i: int| 0 <= i < subs.len() && #[trigger] whole[j] == subs[i];
            assert(whole[j].id == subs[i].id);
        }
        if forall|i: int, j: int|
            #![trigger subs[i].id, subs[j].id]
            0 <= i < j < subs.len() ==> subs[i].id < subs[j].id {
            assert forall|i: int, j: int|
                #![trigger subs.drop_last()[i].id, subs.drop_last()[j].id]
                0 <= i < j < subs.drop_last().len() implies subs.drop_last()[i].id
                < subs.drop_last()[j].id by {
                assert(subs[i].id < subs[j].id);
            }
            assert forall|i: int, j: int|
                #![trigger whole[i].id, whole[j].id]
                0 <= i < j < whole.len() implies whole[i].id < whole[j].id by {
                if j < prefix.len() {
                    assert(prefix[i].id < prefix[j].id);
                } else {
                    if i < prefix.len() {
                        let k = choose|k: int|
                            0 <= k < subs.drop_last().len() && #[trigger] prefix[i].id
                                == subs.drop_last()[k].id;
                        assert(whole[i].id == subs[k].id);
                        assert(subs[k].id < subs[subs.len() - 1].id);
                    }
                }
            }
        }
    }
}

/// A delivery pass is positional: it changes no entry's place or id, appends
/// the event to the logs of the entries the pass accepts, and marks the rest
/// dead with their logs unchanged.
pub proof fn lemma_apply_keep_positions(before: Seq<SubView>, e: Event, keep: Seq<bool>)
    requires
        keep.len() == before.len(),
    ensures
        apply_keep(before, e, keep).len() == before.len(),
        forall|j: int|
            0 <= j < before.len() ==> #[trigger] apply_keep(before, e, keep)[j] == (if keep[j] {
                delivered(before[j], e)
            } else {
                marked(before[j])
            }),
    decreases before.len(),
{
    if before.len() > 0 {
        lemma_apply_keep_positions(before.drop_last(), e, keep.drop_last());
    }
}

/// Law: events emitted while nobody subscribes go nowhere — a registry with
/// no subscribers still has none after any run of emits, so no observer ever
/// sees those events; and `emit` itself is total, with no error path.
pub proof fn lemma_emit_to_empty(events: Seq<Event>, after: Seq<SubView>)
    requires
        emit_trace(Seq::empty(), events, after),
    ensures
        after == Seq::<SubView>::empty(),
    decreases events.len(),
{
    if events.len() > 0 {
        let mid = choose|mid: Seq<SubView>|
            emit_step(Seq::empty(), events.first(), mid) && emit_trace(
                mid,
                events.drop_first(),
                after,
            );
        assert(pruned(Seq::empty()) =~= Seq::<SubView>::empty());
        assert(mid =~= Seq::<SubView>::empty());
        lemma_emit_to_empty(events.drop_first(), after);
    }
}

/// Law: delivery is at-most-once, in order, with no replay — a subscriber
/// that took every event of a run of emits (it is still registered and
/// live) was handed exactly that run's events, in emission order, appended
/// to the log it already had.
pub proof fn lemma_trace_appends(
    before: Seq<SubView>,
    events: Seq<Event>,
    after: Seq<SubView>,
    j: int,
)
    requires
        emit_trace(before, events, after),
        0 <= j < after.len(),
        after[j].live,
    ensures
        exists|i: int|
            0 <= i < before.len() && after[j].id == before[i].id && before[i].live
                && after[j].sent == #[trigger] before[i].sent + events,
    decreases events.len(),
{
    if events.len() == 0 {
        assert(after[j].sent =~= before[j].sent + events);
        assert(0 <= j < before.len() && after[j].id == before[j].id && before[j].live
            && after[j].sent == before[j].sent + events);
    } else {
        let mid = choose|mid: Seq<SubView>|
            emit_step(before, events.first(), mid) && emit_trace(mid, events.drop_first(), after);
        lemma_trace_appends(mid, events.drop_first(), after, j);
        let m = choose|m: int|
            0 <= m < mid.len() && after[j].id == mid[m].id && mid[m].live && after[j].sent
                == #[trigger] mid[m].sent + events.drop_first();
        let keep = choose|keep: Seq<bool>|
            keep.len() == pruned(before).len() && mid == apply_keep(
                pruned(before),
                events.first(),
                keep,
            );
        lemma_apply_keep_positions(pruned(before), events.first(), keep);
        assert(mid[m] == if keep[m] {
            delivered(pruned(before)[m], events.first())
        } else {
            marked(pruned(before)[m])
        });
        assert(keep[m]) by {
            if !keep[m] {
                assert(!mid[m].live);
            }
        }
        assert(mid[m].sent == pruned(before)[m].sent.push(events.first()));
        lemma_pruned_ordered(before);
        let i = choose|i: int| 0 <= i < before.len() && #[trigger] pruned(before)[m] == before[i];
        assert(before[i].live);
        assert(after[j].sent =~= before[i].sent + events) by {
            assert(seq![events.first()] + events.drop_first() =~= events);
            assert(before[i].sent.push(events.first()) =~= before[i].sent + seq![events.first()]);
        }
        assert(0 <= i < before.len() && after[j].id == before[i].id && before[i].live
            && after[j].sent == before[i].sent + events);
    }
}

/// Law: independent subscribers each observe the whole run — a subscription
/// registered with an empty log before a run of emits, and still registered
/// and live afterwards, was handed exactly that run's events, in order:
/// nothing from before it subscribed, nothing doubled, nothing reordered.
pub proof fn lemma_fresh_subscriber_log(
    before: Seq<SubView>,
    id: nat,
    events: Seq<Event>,
    after: Seq<SubView>,
    j: int,
)
    requires
        forall|i: int| 0 <= i < before.len() ==> #[trigger] before[i].id != id,
        emit_trace(before.push(SubView { id, live: true, sent: Seq::empty() }), events, after),
        0 <= j < after.len(),
        after[j].id == id,
        after[j].live,
    ensures
        after[j].sent == events,
{
    let start = before.push(SubView { id, live: true, sent: Seq::empty() });
    lemma_trace_appends(start, events, after, j);
    let i = choose|i: int|
        0 <= i < start.len() && after[j].id == start[i].id && start[i].live && after[j].sent
            == #[trigger] start[i].sent + events;
    if i < before.len() {
        assert(start[i] == before[i]);
        assert(false);
    }
    assert(start[i].sent =~= Seq::<Event>::empty());
    assert(after[j].sent =~= events);
}

} // verus!
