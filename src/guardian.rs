//! The z-order guardian: a watchdog that keeps overlay surfaces on top
//! without fighting the window manager.
//!
//! A foreground change only records its time. The watchdog polls at a fixed
//! interval; it raises the surfaces again once the event stream has been
//! quiet for the debounce interval, checks every few seconds that every
//! tracked surface is still alive, and stops once nothing is tracked.
use vstd::prelude::*;

verus! {

/// How long the stream of foreground changes must stay quiet before the
/// surfaces are raised again, in milliseconds.
pub const DEBOUNCE_MS: u64 = 500;

/// Every how many polls the watchdog checks that the surfaces are alive.
pub const LIVENESS_POLLS: u32 = 25;

/// The watchdog state: when the most recent unanswered foreground change
/// happened (the reassertion clock), and the polls since the last liveness
/// check.
#[derive(Clone, Copy, Debug, PartialEq, Eq, Structural)]
pub struct ZOrderGuardian {
    pub pending_since: Option<u64>,
    pub polls: u32,
}

/// What one poll asks of the caller.
#[derive(Clone, Copy, Debug, PartialEq, Eq, Structural)]
pub struct PollAction {
    /// Nothing is tracked any more: the watchdog ends.
    pub stop: bool,
    /// Raise every tracked surface to the top again.
    pub reassert: bool,
    /// Check that every tracked surface is still alive.
    pub check_liveness: bool,
}

/// An input of the watchdog, with its time in milliseconds.
#[derive(Clone, Copy, Debug, PartialEq, Eq, Structural)]
pub enum GuardEvent {
    Foreground(u64),
    Poll(u64),
}

/// True when the quiet interval after a foreground change at `since` has
/// passed at `now`.
pub open spec fn quiet_since(since: u64, now: u64) -> bool {
    since as int + DEBOUNCE_MS as int <= now as int
}

/// The watchdog after a foreground change at `now`.
pub open spec fn after_foreground(g: ZOrderGuardian, now: u64) -> ZOrderGuardian {
    ZOrderGuardian { pending_since: Some(now), ..g }
}

/// What a poll at `now` does, with `surfaces` surfaces tracked.
pub open spec fn poll_action(g: ZOrderGuardian, now: u64, surfaces: nat) -> PollAction {
    if surfaces == 0 {
        PollAction { stop: true, reassert: false, check_liveness: false }
    } else {
        PollAction {
            stop: false,
            reassert: match g.pending_since {
                Some(t) => quiet_since(t, now),
                None => false,
            },
            check_liveness: g.polls + 1 >= LIVENESS_POLLS,
        }
    }
}

/// The watchdog after a poll at `now`, with `surfaces` surfaces tracked.
pub open spec fn after_poll(g: ZOrderGuardian, now: u64, surfaces: nat) -> ZOrderGuardian {
    let a = poll_action(g, now, surfaces);
    if a.stop {
        ZOrderGuardian { pending_since: None, polls: 0 }
    } else {
        ZOrderGuardian {
            pending_since: if a.reassert { None } else { g.pending_since },
            polls: if a.check_liveness { 0 } else { (g.polls + 1) as u32 },
        }
    }
}

/// One input applied while surfaces are tracked: the new state, and whether
/// the surfaces were raised.
pub open spec fn step(g: ZOrderGuardian, e: GuardEvent) -> (ZOrderGuardian, bool) {
    match e {
        GuardEvent::Foreground(t) => (after_foreground(g, t), false),
        GuardEvent::Poll(t) => (after_poll(g, t, 1), poll_action(g, t, 1).reassert),
    }
}

/// A run of inputs while surfaces are tracked: the final state and how many
/// times the surfaces were raised.
pub open spec fn run(g: ZOrderGuardian, evs: Seq<GuardEvent>) -> (ZOrderGuardian, nat)
    decreases evs.len(),
{
    if evs.len() == 0 {
        (g, 0)
    } else {
        let (h, n) = run(g, evs.drop_last());
        let (k, raised) = step(h, evs.last());
        (k, n + if raised { 1nat } else { 0nat })
    }
}

/// The time of the last foreground change in `evs`.
pub open spec fn last_foreground(evs: Seq<GuardEvent>) -> u64
    decreases evs.len(),
{
    if evs.len() == 0 {
        0
    } else {
        match evs.last() {
            GuardEvent::Foreground(t) => t,
            GuardEvent::Poll(_) => last_foreground(evs.drop_last()),
        }
    }
}

/// A burst: it opens with a foreground change, and every poll in it comes
/// before the quiet interval after the latest change has passed.
pub open spec fn is_burst(evs: Seq<GuardEvent>) -> bool {
    &&& evs.len() >= 1
    &&& evs[0] is Foreground
    &&& forall|i: int|
        1 <= i < evs.len() ==> match #[trigger] evs[i] {
            GuardEvent::Poll(t) => !quiet_since(last_foreground(evs.take(i)), t),
            GuardEvent::Foreground(_) => true,
        }
}

/// True when every input is a poll.
pub open spec fn all_polls(evs: Seq<GuardEvent>) -> bool {
    forall|i: int| 0 <= i < evs.len() ==> #[trigger] evs[i] is Poll
}

impl ZOrderGuardian {
    /// Polls since the last liveness check stay below the check interval.
    pub open spec fn wf(self) -> bool {
        self.polls < LIVENESS_POLLS
    }

    /// A watchdog with no foreground change pending.
    pub fn new() -> (r: ZOrderGuardian)
        ensures
            r.wf(),
            r.pending_since is None,
            r.polls == 0,
    {
        ZOrderGuardian { pending_since: None, polls: 0 }
    }

    /// Records a foreground change at `now`; a newer change replaces an
    /// older one, which restarts the quiet interval.
    pub fn on_foreground_change(&mut self, now: u64)
        ensures
            *final(self) == after_foreground(*old(self), now),
    {
        self.pending_since = Some(now);
    }

    /// Forgets a pending foreground change, as when the session is hidden.
    pub fn clear(&mut self)
        ensures
            final(self).pending_since is None,
            final(self).polls == old(self).polls,
    {
        self.pending_since = None;
    }

    /// One poll of the watchdog at `now`, while `surfaces` surfaces are
    /// tracked. A foreground change is answered, once, after the quiet
    /// interval; every `LIVENESS_POLLS` polls the surfaces are checked.
    pub fn poll(&mut self, now: u64, surfaces: usize) -> (a: PollAction)
        requires
            old(self).wf(),
        ensures
            final(self).wf(),
            a == poll_action(*old(self), now, surfaces as nat),
            *final(self) == after_poll(*old(self), now, surfaces as nat),
    {
        if surfaces == 0 {
            self.pending_since = None;
            self.polls = 0;
            return PollAction { stop: true, reassert: false, check_liveness: false };
        }
        let reassert = match self.pending_since {
            Some(t) => now >= t && now - t >= DEBOUNCE_MS,
            None => false,
        };
        if reassert {
            self.pending_since = None;
        }
        let check_liveness = self.polls + 1 >= LIVENESS_POLLS;
        self.polls = if check_liveness { 0 } else { self.polls + 1 };
        PollAction { stop: false, reassert, check_liveness }
    }
}

/// True when one of the tracked surfaces no longer exists, so that the
/// session must be torn down and built again.
pub fn needs_recreate(alive: &Vec<bool>) -> (r: bool)
    ensures
        r == exists|i: int| 0 <= i < alive@.len() && !alive@[i],
{
    let mut i: usize = 0;
    while i < alive.len()
        invariant
            i <= alive@.len(),
            forall|j: int| 0 <= j < i ==> alive@[j],
        decreases alive@.len() - i,
    {
        if !alive[i] {
            return true;
        }
        i += 1;
    }
    false
}

/// The handles whose surface is still alive (`alive[i]` for `handles[i]`),
/// in order: the surfaces to raise again.
pub fn live_handles(handles: &Vec<u64>, alive: &Vec<bool>) -> (r: Vec<u64>)
    requires
        handles@.len() == alive@.len(),
    ensures
        r@ == live_of(handles@, alive@),
{
    let mut r: Vec<u64> = Vec::new();
    let mut i: usize = 0;
    while i < handles.len()
        invariant
            i <= handles@.len() == alive@.len(),
            r@ == live_of(handles@.take(i as int), alive@.take(i as int)),
        decreases handles@.len() - i,
    {
        proof {
            assert(handles@.take(i + 1).drop_last() =~= handles@.take(i as int));
            assert(alive@.take(i + 1).drop_last() =~= alive@.take(i as int));
        }
        if alive[i] {
            r.push(handles[i]);
        }
        i += 1;
    }
    proof {
        assert(handles@.take(i as int) =~= handles@);
        assert(alive@.take(i as int) =~= alive@);
    }
    r
}

/// The handles marked alive, in order.
pub open spec fn live_of(handles: Seq<u64>, alive: Seq<bool>) -> Seq<u64>
    decreases handles.len(),
{
    if handles.len() == 0 || alive.len() == 0 {
        Seq::empty()
    } else {
        let prev = live_of(handles.drop_last(), alive.drop_last());
        if alive.last() {
            prev.push(handles.last())
        } else {
            prev
        }
    }
}

proof fn lemma_burst_prefix(g: ZOrderGuardian, evs: Seq<GuardEvent>, n: int)
    requires
        is_burst(evs),
        1 <= n <= evs.len(),
    ensures
        run(g, evs.take(n)).1 == 0,
        run(g, evs.take(n)).0.pending_since == Some(last_foreground(evs.take(n))),
    decreases n,
{
    let p = evs.take(n);
    assert(p.drop_last() =~= evs.take(n - 1));
    if n == 1 {
        assert(evs.take(0) =~= Seq::<GuardEvent>::empty());
    } else {
        lemma_burst_prefix(g, evs, n - 1);
        let e = evs[n - 1];
        if let GuardEvent::Poll(t) = e {
            assert(!quiet_since(last_foreground(evs.take(n - 1)), t));
        }
    }
}

proof fn lemma_polls_after_quiet(g: ZOrderGuardian, tail: Seq<GuardEvent>)
    requires
        g.pending_since is None,
        all_polls(tail),
    ensures
        run(g, tail).1 == 0,
        run(g, tail).0.pending_since is None,
    decreases tail.len(),
{
    if tail.len() > 0 {
        assert(tail.last() is Poll);
        lemma_polls_after_quiet(g, tail.drop_last());
    }
}

proof fn lemma_run_append(g: ZOrderGuardian, a: Seq<GuardEvent>, b: Seq<GuardEvent>)
    ensures
        run(g, a + b).0 == run(run(g, a).0, b).0,
        run(g, a + b).1 == run(g, a).1 + run(run(g, a).0, b).1,
    decreases b.len(),
{
    if b.len() == 0 {
        assert(a + b =~= a);
    } else {
        assert((a + b).drop_last() =~= a + b.drop_last());
        lemma_run_append(g, a, b.drop_last());
    }
}

/// Debounce: a burst of any number of foreground changes raises the
/// surfaces exactly once. Nothing is raised while the burst lasts; the
/// first poll after the quiet interval raises them, and later polls do not
/// raise them again.
pub proof fn lemma_burst_raises_once(
    g: ZOrderGuardian,
    burst: Seq<GuardEvent>,
    quiet: u64,
    tail: Seq<GuardEvent>,
)
    requires
        is_burst(burst),
        quiet_since(last_foreground(burst), quiet),
        all_polls(tail),
    ensures
        run(g, burst).1 == 0,
        run(g, burst.push(GuardEvent::Poll(quiet)) + tail).1 == 1,
{
    lemma_burst_prefix(g, burst, burst.len() as int);
    assert(burst.take(burst.len() as int) =~= burst);
    let after = burst.push(GuardEvent::Poll(quiet));
    assert(after.drop_last() =~= burst);
    lemma_polls_after_quiet(run(g, after).0, tail);
    lemma_run_append(g, after, tail);
}

} // verus!
