use vstd::prelude::*;
use std::collections::VecDeque;
use std::task::Poll;

verus! {

/// `std::task::Poll`, with its two variants: ready with a value, or pending.
#[verifier::external_type_specification]
#[verifier::reject_recursive_types(T)]
pub struct ExPoll<T>(Poll<T>);

/// What a `Notify` is, as a mathematical value.
pub ghost struct NotifyView {
    /// 1 while a notification is latched for the next waiter, else 0.
    pub state: usize,
    /// The waiters that no notification has reached yet, first come first.
    pub waiters: Seq<u64>,
    /// The waiters that a notification has reached, in the order in which it did.
    pub delivered: Seq<u64>,
    /// The number of waiters that have registered so far: the next waiter's name.
    pub issued: u64,
}

impl NotifyView {
    pub open spec fn new() -> NotifyView {
        NotifyView { state: 0, waiters: Seq::empty(), delivered: Seq::empty(), issued: 0 }
    }

    /// The latch holds 0 or 1, and every waiter has registered.
    pub open spec fn wf(self) -> bool {
        &&& self.state <= 1
        &&& forall|i: int| 0 <= i < self.waiters.len() ==> #[trigger] self.waiters[i] < self.issued
        &&& forall|i: int|
            0 <= i < self.delivered.len() ==> #[trigger] self.delivered[i] < self.issued
    }

    /// The first waiter is woken; with no waiter the notification is latched.
    pub open spec fn notify_one(self) -> NotifyView {
        if self.waiters.len() > 0 {
            NotifyView {
                waiters: self.waiters.drop_first(),
                delivered: self.delivered.push(self.waiters.first()),
                ..self
            }
        } else {
            NotifyView { state: 1, ..self }
        }
    }

    /// The last waiter is woken; with no waiter the notification is latched.
    pub open spec fn notify_last(self) -> NotifyView {
        if self.waiters.len() > 0 {
            NotifyView {
                waiters: self.waiters.drop_last(),
                delivered: self.delivered.push(self.waiters.last()),
                ..self
            }
        } else {
            NotifyView { state: 1, ..self }
        }
    }

    /// Every waiter is woken, first come first; nothing is latched.
    pub open spec fn notify_waiters(self) -> NotifyView {
        NotifyView {
            waiters: Seq::empty(),
            delivered: self.delivered + self.waiters,
            ..self
        }
    }

    /// One more waiter, behind the others.
    pub open spec fn registered(self) -> NotifyView {
        NotifyView {
            waiters: self.waiters.push(self.issued),
            issued: (self.issued + 1) as u64,
            ..self
        }
    }

    /// One poll of an awaitable that holds `receiver`: the state after it,
    /// what the awaitable holds then, and whether it is ready. A latched
    /// notification is taken at once. Otherwise the awaitable registers as a
    /// waiter, unless it has, and is ready once a notification has reached it.
    pub open spec fn polled(self, receiver: Option<u64>) -> (NotifyView, Option<u64>, bool) {
        if self.state == 1 {
            (NotifyView { state: 0, ..self }, receiver, true)
        } else {
            match receiver {
                Some(waiter) => (self, receiver, self.delivered.contains(waiter)),
                None => (
                    self.registered(),
                    Some(self.issued),
                    self.delivered.contains(self.issued),
                ),
            }
        }
    }

    /// The state after `k` calls of `notify_one`.
    pub open spec fn notify_times(self, k: nat) -> NotifyView
        decreases k,
    {
        if k == 0 {
            self
        } else {
            self.notify_one().notify_times((k - 1) as nat)
        }
    }
}

/// A notification for one waiter: `notify_one` wakes the waiter that has
/// waited longest, or is kept, once, for the next to come.
#[derive(Debug)]
pub struct Notify {
    state: usize,
    waiters: VecDeque<u64>,
    delivered: Vec<u64>,
    issued: u64,
}

/// What `Notify::notified` returns: it is polled until a notification has
/// reached it. It is polled on the `Notify` that made it, and on no other:
/// the name under which it waits means nothing to another `Notify`.
#[derive(Debug)]
pub struct Notified {
    receiver: Option<u64>,
}

impl View for Notify {
    type V = NotifyView;

    closed spec fn view(&self) -> NotifyView {
        NotifyView {
            state: self.state,
            waiters: self.waiters@,
            delivered: self.delivered@,
            issued: self.issued,
        }
    }
}

impl View for Notified {
    type V = Option<u64>;

    /// The name under which this awaitable waits, once it has registered.
    closed spec fn view(&self) -> Option<u64> {
        self.receiver
    }
}

impl Notify {
    pub fn new() -> (notify: Notify)
        ensures
            notify@ == NotifyView::new(),
            notify@.wf(),
    {
        Notify { state: 0, waiters: VecDeque::new(), delivered: Vec::new(), issued: 0 }
    }

    pub fn const_new() -> (notify: Notify)
        ensures
            notify@ == NotifyView::new(),
            notify@.wf(),
    {
        Notify::new()
    }

    /// Whether a notification is latched for the next waiter.
    pub fn latched(&self) -> (latched: bool)
        ensures
            latched == (self@.state == 1),
    {
        self.state == 1
    }

    /// The number of waiters that no notification has reached yet.
    pub fn waiting(&self) -> (n: usize)
        ensures
            n == self@.waiters.len(),
    {
        self.waiters.len()
    }

    /// Whether one more waiter can register: the names of waiters have not run out.
    pub fn can_register(&self) -> (can: bool)
        ensures
            can == (self@.issued < u64::MAX),
    {
        self.issued < u64::MAX
    }

    /// Adds a waiter behind the others and returns its name.
    fn register(&mut self) -> (waiter: u64)
        requires
            old(self)@.issued < u64::MAX,
        ensures
            waiter == old(self)@.issued,
            final(self)@ == old(self)@.registered(),
    {
        let waiter = self.issued;
        self.waiters.push_back(waiter);
        self.issued = self.issued + 1;
        waiter
    }

    /// Whether a notification has reached the waiter.
    fn reached(&self, waiter: u64) -> (reached: bool)
        ensures
            reached == self@.delivered.contains(waiter),
    {
        let n = self.delivered.len();
        let mut i: usize = 0;
        while i < n
            invariant
                n == self.delivered@.len(),
                i <= n,
                forall|j: int| 0 <= j < i ==> self.delivered@[j] != waiter,
            decreases n - i,
        {
            if self.delivered[i] == waiter {
                return true;
            }
            i = i + 1;
        }
        false
    }

    /// An awaitable that has not registered yet. The `Notify` stays as it is.
    /// The awaitable is to be polled on this `Notify`, and on no other.
    pub fn notified(&self) -> (notified: Notified)
        ensures
            notified@ is None,
    {
        Notified { receiver: None }
    }

    /// Wakes the waiter that has waited longest. With no waiter the
    /// notification is latched for the next one; a latch that is set stays set.
    pub fn notify_one(&mut self)
        ensures
            final(self)@ == old(self)@.notify_one(),
            old(self)@.wf() ==> final(self)@.wf(),
    {
        proof {
            lemma_notify_wf_is_kept(self@, None);
        }
        match self.waiters.pop_front() {
            Some(waiter) => {
                self.delivered.push(waiter);
                assert(self.waiters@ =~= old(self).waiters@.drop_first());
            },
            None => {
                self.state = 1;
            },
        }
    }

    /// Wakes the waiter that came last. With no waiter the notification is
    /// latched for the next one.
    pub fn notify_last(&mut self)
        ensures
            final(self)@ == old(self)@.notify_last(),
            old(self)@.wf() ==> final(self)@.wf(),
    {
        proof {
            lemma_notify_wf_is_kept(self@, None);
        }
        match self.waiters.pop_back() {
            Some(waiter) => {
                self.delivered.push(waiter);
                assert(self.waiters@ =~= old(self).waiters@.drop_last());
            },
            None => {
                self.state = 1;
            },
        }
    }

    /// Wakes every waiter, first come first. Nothing is latched.
    pub fn notify_waiters(&mut self)
        ensures
            final(self)@ == old(self)@.notify_waiters(),
            old(self)@.wf() ==> final(self)@.wf(),
    {
        proof {
            lemma_notify_wf_is_kept(self@, None);
        }
        let ghost before = self@;
        loop
            invariant
                self.state == before.state,
                self.issued == before.issued,
                self.delivered@ + self.waiters@ == before.delivered + before.waiters,
            ensures
                self.waiters@.len() == 0,
            decreases self.waiters@.len(),
        {
            match self.waiters.pop_front() {
                Some(waiter) => {
                    let ghost queue = self.delivered@ + seq![waiter] + self.waiters@;
                    self.delivered.push(waiter);
                    assert(self.delivered@ + self.waiters@ =~= queue);
                    assert(queue =~= before.delivered + before.waiters);
                },
                None => {
                    break ;
                },
            }
        }
        assert(self.delivered@ =~= before.delivered + before.waiters);
        assert(self.waiters@ =~= Seq::<u64>::empty());
    }
}

impl Default for Notify {
    fn default() -> (notify: Notify)
        ensures
            notify@ == NotifyView::new(),
            notify@.wf(),
    {
        Notify::new()
    }
}

impl Notified {
    /// Whether the awaitable has registered as a waiter.
    pub fn is_registered(&self) -> (registered: bool)
        ensures
            registered == (self@ is Some),
    {
        self.receiver.is_some()
    }

    /// One poll, on the `Notify` that made this awaitable. A latched
    /// notification is taken at once, and the awaitable is ready. Otherwise
    /// it registers as a waiter, unless it has, and is ready once a
    /// notification has reached it. Only a poll that registers needs a name
    /// that is left.
    pub fn poll_notified(&mut self, notify: &mut Notify) -> (poll: Poll<()>)
        requires
            old(notify)@.state != 1 && old(self)@ is None ==> old(notify)@.issued < u64::MAX,
        ensures
            (final(notify)@, final(self)@, poll is Ready) == old(notify)@.polled(old(self)@),
            old(notify)@.wf() ==> final(notify)@.wf(),
    {
        proof {
            lemma_notify_wf_is_kept(old(notify)@, old(self)@);
        }
        if notify.state == 1 {
            notify.state = 0;
            return Poll::Ready(());
        }
        let waiter = match self.receiver {
            Some(waiter) => waiter,
            None => {
                let waiter = notify.register();
                self.receiver = Some(waiter);
                waiter
            },
        };
        if notify.reached(waiter) {
            Poll::Ready(())
        } else {
            Poll::Pending
        }
    }
}

/// Every operation keeps a well-formed `Notify` well-formed.
pub proof fn lemma_notify_wf_is_kept(n: NotifyView, receiver: Option<u64>)
    ensures
        n.wf() ==> n.notify_one().wf(),
        n.wf() ==> n.notify_last().wf(),
        n.wf() ==> n.notify_waiters().wf(),
        n.wf() && (n.state != 1 && receiver is None ==> n.issued < u64::MAX) ==> n.polled(
            receiver,
        ).0.wf(),
{
    if n.wf() {
        let one = n.notify_one();
        assert forall|i: int| 0 <= i < one.waiters.len() implies #[trigger] one.waiters[i]
            < one.issued by {
            assert(one.waiters[i] == n.waiters[i + 1] || one.waiters[i] == n.waiters[i]);
        }
        assert forall|i: int| 0 <= i < one.delivered.len() implies #[trigger] one.delivered[i]
            < one.issued by {
            if i < n.delivered.len() {
                assert(one.delivered[i] == n.delivered[i]);
            } else {
                assert(one.delivered[i] == n.waiters[0]);
            }
        }
        let last = n.notify_last();
        assert forall|i: int| 0 <= i < last.waiters.len() implies #[trigger] last.waiters[i]
            < last.issued by {
            assert(last.waiters[i] == n.waiters[i]);
        }
        assert forall|i: int| 0 <= i < last.delivered.len() implies #[trigger] last.delivered[i]
            < last.issued by {
            if i < n.delivered.len() {
                assert(last.delivered[i] == n.delivered[i]);
            } else {
                assert(last.delivered[i] == n.waiters[n.waiters.len() - 1]);
            }
        }
        let every = n.notify_waiters();
        assert forall|i: int| 0 <= i < every.delivered.len() implies #[trigger] every.delivered[i]
            < every.issued by {
            if i < n.delivered.len() {
                assert(every.delivered[i] == n.delivered[i]);
            } else {
                assert(every.delivered[i] == n.waiters[i - n.delivered.len()]);
            }
        }
        if n.state != 1 && receiver is None ==> n.issued < u64::MAX {
            let polled = n.polled(receiver).0;
            assert forall|i: int| 0 <= i < polled.waiters.len() implies #[trigger] polled.waiters[i]
                < polled.issued by {
                if i < n.waiters.len() {
                    assert(polled.waiters[i] == n.waiters[i]);
                }
            }
            assert forall|i: int|
                0 <= i < polled.delivered.len() implies #[trigger] polled.delivered[i]
                < polled.issued by {
                assert(polled.delivered[i] == n.delivered[i]);
            }
        }
    }
}

/// The latch holds one notification. Of two `notify_one` with no waiter the
/// second changes nothing, and the state is 1. The next poll of a new
/// awaitable is ready at once, without registering; the one after it finds
/// nothing latched, registers and is pending.
pub proof fn lemma_latch_holds_one(n: NotifyView)
    requires
        n.wf(),
        n.waiters.len() == 0,
    ensures
        n.notify_one().state == 1,
        n.notify_one().notify_one() == n.notify_one(),
        ({
            let (taken, first, ready) = n.notify_one().notify_one().polled(None);
            let (blocked, second, again) = taken.polled(None);
            &&& ready
            &&& first is None
            &&& taken == (NotifyView { state: 0, ..n })
            &&& !again
            &&& second == Some(n.issued)
            &&& blocked.waiters == seq![n.issued]
            &&& blocked.state == 0
        }),
{
    let taken = n.notify_one().notify_one().polled(None).0;
    assert(taken.waiters =~= Seq::<u64>::empty());
    assert(taken.polled(None).0.waiters =~= seq![n.issued]);
}

/// Waiters are woken in the order in which they came: `k` calls of
/// `notify_one`, with at least `k` waiters and no new one between the calls,
/// reach the first `k` waiters, in their order, leave the others waiting in
/// theirs, and latch nothing.
pub proof fn lemma_wakes_in_order(n: NotifyView, k: nat)
    requires
        k <= n.waiters.len(),
    ensures
        n.notify_times(k).delivered == n.delivered + n.waiters.take(k as int),
        n.notify_times(k).waiters == n.waiters.skip(k as int),
        n.notify_times(k).state == n.state,
        n.notify_times(k).issued == n.issued,
        forall|i: int|
            0 <= i < k ==> n.notify_times(k).delivered[n.delivered.len() + i]
                == #[trigger] n.waiters[i],
        forall|i: int|
            0 <= i < k ==> n.notify_times(k).delivered.contains(#[trigger] n.waiters[i]),
    decreases k,
{
    if k == 0 {
        assert(n.delivered + n.waiters.take(0) =~= n.delivered);
        assert(n.waiters.skip(0) =~= n.waiters);
    } else {
        let one = n.notify_one();
        lemma_wakes_in_order(one, (k - 1) as nat);
        let all = n.notify_times(k);
        assert(all == one.notify_times((k - 1) as nat));
        assert(all.delivered =~= n.delivered + n.waiters.take(k as int));
        assert(all.waiters =~= n.waiters.skip(k as int));
        assert forall|i: int| 0 <= i < k implies all.delivered.contains(
            #[trigger] n.waiters[i],
        ) by {
            assert(all.delivered[n.delivered.len() + i] == n.waiters[i]);
        }
    }
}

/// A poll that finds a notification latched is ready at once: the latch is
/// taken, nobody is enqueued, and the awaitable holds what it held.
pub proof fn lemma_latched_poll_is_ready(n: NotifyView, receiver: Option<u64>)
    requires
        n.state == 1,
    ensures
        n.polled(receiver) == ((NotifyView { state: 0, ..n }), receiver, true),
        n.polled(receiver).0.waiters == n.waiters,
        n.polled(receiver).0.delivered == n.delivered,
        n.polled(receiver).0.issued == n.issued,
{
}

/// A waiter that registers is new: no notification has reached it, so its
/// first poll without a latched notification is pending.
pub proof fn lemma_new_waiter_is_pending(n: NotifyView)
    requires
        n.wf(),
        n.state == 0,
    ensures
        !n.polled(None).2,
        n.polled(None).1 == Some(n.issued),
        n.polled(None).0.waiters == n.waiters.push(n.issued),
{
}

/// One thing that happens to a `Notify`.
pub ghost enum NotifyOp {
    /// A call of `notify_one`.
    NotifyOne,
    /// The first poll of a new awaitable.
    PollNew,
    /// One more poll of the awaitable that waits under this name.
    PollWaiter(u64),
}

/// A `Notify` with the count of what has happened to it.
pub ghost struct NotifyHistory {
    pub notify: NotifyView,
    /// The waiters whose awaitable has been ready: they are not polled again.
    pub finished: Set<u64>,
    /// The number of calls of `notify_one`.
    pub notified: nat,
    /// The number of polls that were ready.
    pub ready: nat,
}

/// The number of entries of `delivered` whose awaitable has not been ready yet.
pub open spec fn undone(delivered: Seq<u64>, finished: Set<u64>) -> nat
    decreases delivered.len(),
{
    if delivered.len() == 0 {
        0
    } else {
        undone(delivered.drop_last(), finished) + if finished.contains(delivered.last()) {
            0nat
        } else {
            1nat
        }
    }
}

impl NotifyHistory {
    pub open spec fn start() -> NotifyHistory {
        NotifyHistory { notify: NotifyView::new(), finished: Set::empty(), notified: 0, ready: 0 }
    }

    /// Whether `op` can happen: a new awaitable that would register finds a
    /// name left, and an awaitable that polls again has registered and has
    /// not been ready before.
    pub open spec fn allows(self, op: NotifyOp) -> bool {
        match op {
            NotifyOp::NotifyOne => true,
            NotifyOp::PollNew => self.notify.state == 1 || self.notify.issued < u64::MAX,
            NotifyOp::PollWaiter(waiter) => waiter < self.notify.issued && !self.finished.contains(
                waiter,
            ),
        }
    }

    /// The history after `op`; one that cannot happen changes nothing.
    pub open spec fn step(self, op: NotifyOp) -> NotifyHistory {
        if !self.allows(op) {
            self
        } else {
            match op {
                NotifyOp::NotifyOne => NotifyHistory {
                    notify: self.notify.notify_one(),
                    notified: self.notified + 1,
                    ..self
                },
                NotifyOp::PollNew => {
                    let (notify, _, ready) = self.notify.polled(None);
                    NotifyHistory {
                        notify,
                        ready: if ready {
                            self.ready + 1
                        } else {
                            self.ready
                        },
                        ..self
                    }
                },
                NotifyOp::PollWaiter(waiter) => {
                    let (notify, _, ready) = self.notify.polled(Some(waiter));
                    if ready {
                        NotifyHistory {
                            notify,
                            finished: self.finished.insert(waiter),
                            ready: self.ready + 1,
                            ..self
                        }
                    } else {
                        NotifyHistory { notify, ..self }
                    }
                },
            }
        }
    }

    /// The history after `ops`, from a new `Notify`.
    pub open spec fn after(ops: Seq<NotifyOp>) -> NotifyHistory
        decreases ops.len(),
    {
        if ops.len() == 0 {
            NotifyHistory::start()
        } else {
            NotifyHistory::after(ops.drop_last()).step(ops.last())
        }
    }

    /// The notifications that are still to be had: the latched one, and
    /// those that reached a waiter whose awaitable has not been ready yet.
    pub open spec fn in_store(self) -> nat {
        undone(self.notify.delivered, self.finished) + if self.notify.state == 1 {
            1nat
        } else {
            0nat
        }
    }
}

proof fn lemma_undone_push(delivered: Seq<u64>, finished: Set<u64>, waiter: u64)
    ensures
        undone(delivered.push(waiter), finished) == undone(delivered, finished) + if finished.contains(
            waiter,
        ) {
            0nat
        } else {
            1nat
        },
{
    assert(delivered.push(waiter).drop_last() =~= delivered);
}

proof fn lemma_undone_insert(delivered: Seq<u64>, finished: Set<u64>, waiter: u64)
    ensures
        undone(delivered, finished.insert(waiter)) <= undone(delivered, finished),
        delivered.contains(waiter) && !finished.contains(waiter) ==> undone(
            delivered,
            finished.insert(waiter),
        ) < undone(delivered, finished),
    decreases delivered.len(),
{
    if delivered.len() > 0 {
        let init = delivered.drop_last();
        lemma_undone_insert(init, finished, waiter);
        if delivered.contains(waiter) && delivered.last() != waiter {
            let i = choose|i: int| 0 <= i < delivered.len() && delivered[i] == waiter;
            assert(init[i] == waiter);
        }
    }
}

/// One step keeps the `Notify` well-formed, and takes from the store what a
/// ready poll got, or puts into it at most what a notification brought.
pub proof fn lemma_step_keeps_count(h: NotifyHistory, op: NotifyOp)
    requires
        h.notify.wf(),
        h.ready + h.in_store() <= h.notified,
    ensures
        h.step(op).notify.wf(),
        h.step(op).ready + h.step(op).in_store() <= h.step(op).notified,
{
    if h.allows(op) {
        match op {
            NotifyOp::NotifyOne => {
                lemma_notify_wf_is_kept(h.notify, None);
                if h.notify.waiters.len() > 0 {
                    lemma_undone_push(h.notify.delivered, h.finished, h.notify.waiters.first());
                }
            },
            NotifyOp::PollNew => {
                lemma_notify_wf_is_kept(h.notify, None);
                if h.notify.state != 1 {
                    assert(!h.notify.delivered.contains(h.notify.issued)) by {
                        if h.notify.delivered.contains(h.notify.issued) {
                            let i = choose|i: int|
                                0 <= i < h.notify.delivered.len() && h.notify.delivered[i]
                                    == h.notify.issued;
                            assert(h.notify.delivered[i] < h.notify.issued);
                        }
                    }
                }
            },
            NotifyOp::PollWaiter(waiter) => {
                lemma_notify_wf_is_kept(h.notify, Some(waiter));
                lemma_undone_insert(h.notify.delivered, h.finished, waiter);
            },
        }
    }
}

/// Whatever calls of `notify_one` and polls come in whatever order, where no
/// awaitable is polled again once it was ready: the polls that were ready
/// are no more than the calls of `notify_one`. What is missing from that
/// number is still in store, was merged into a latch that was set already, or
/// reached a waiter whose awaitable had been ready before.
pub proof fn lemma_ready_polls_are_notified(ops: Seq<NotifyOp>)
    ensures
        NotifyHistory::after(ops).notify.wf(),
        NotifyHistory::after(ops).ready + NotifyHistory::after(ops).in_store()
            <= NotifyHistory::after(ops).notified,
        NotifyHistory::after(ops).ready <= NotifyHistory::after(ops).notified,
    decreases ops.len(),
{
    if ops.len() == 0 {
        assert(NotifyHistory::start().notify.delivered.len() == 0);
    } else {
        lemma_ready_polls_are_notified(ops.drop_last());
        lemma_step_keeps_count(NotifyHistory::after(ops.drop_last()), ops.last());
    }
}

} // verus!
