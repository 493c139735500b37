//! Bounds on the work that the world-reachable listeners take on.
use vstd::prelude::*;

verus! {

/// The most connections, and the most UDP queries in flight, at once.
pub const MAX_CONNECTIONS: usize = 512;

/// How long a client may take to send its request, in milliseconds.
pub const CLIENT_TIMEOUT_MS: u64 = 5000;

/// How long the real nscd may take to answer, in milliseconds.
pub const NSCD_TIMEOUT_MS: u64 = 5000;

/// How long to wait before `accept` is tried again after it failed, in
/// milliseconds.
pub const ACCEPT_RETRY_MS: u64 = 100;

/// What a listener does when `accept` has returned.
#[derive(Debug, Clone, Copy, PartialEq, Eq, Structural)]
pub enum AcceptStep {
    /// Serve the connection.
    Serve,
    /// Try again after this many milliseconds.
    RetryAfter(u64),
}

/// What can happen to a listener.
pub enum ListenerEvent {
    /// `accept` gave a connection.
    Accepted,
    /// `accept` failed.
    AcceptFailed,
    /// A connection is done with.
    Finished,
}

/// How many connections are being served after an event. A full listener does
/// not accept, and an idle one has nothing to finish.
pub open spec fn active_after(active: nat, event: ListenerEvent) -> nat {
    match event {
        ListenerEvent::Accepted => if active < MAX_CONNECTIONS {
            active + 1
        } else {
            active
        },
        ListenerEvent::AcceptFailed => active,
        ListenerEvent::Finished => if active > 0 {
            (active - 1) as nat
        } else {
            active
        },
    }
}

/// How many connections a listener is serving after these events, one after
/// the other.
pub open spec fn active_after_all(events: Seq<ListenerEvent>) -> nat
    decreases events.len(),
{
    if events.len() == 0 {
        0
    } else {
        active_after(active_after_all(events.drop_last()), events.last())
    }
}

/// The connections that a listener is serving, of which there are never more
/// than [`MAX_CONNECTIONS`].
#[derive(Debug)]
pub struct Slots {
    active: usize,
}

impl Slots {
    #[verifier::type_invariant]
    spec fn bounded(&self) -> bool {
        self.active <= MAX_CONNECTIONS
    }

    /// How many connections are being served.
    pub closed spec fn active(&self) -> nat {
        self.active as nat
    }

    /// A listener that serves nobody yet.
    pub fn new() -> (r: Slots)
        ensures
            r.active() == 0,
    {
        Slots { active: 0 }
    }

    /// Whether the listener may accept a connection.
    pub fn has_room(&self) -> (r: bool)
        ensures
            self.active() <= MAX_CONNECTIONS,
            r == (self.active() < MAX_CONNECTIONS),
    {
        proof {
            use_type_invariant(self);
        }
        self.active < MAX_CONNECTIONS
    }

    /// What to do when `accept` has returned, with or without a connection. A
    /// failed `accept` is tried again.
    pub fn after_accept(&mut self, accepted: bool) -> (r: AcceptStep)
        requires
            old(self).active() < MAX_CONNECTIONS,
        ensures
            accepted ==> r == AcceptStep::Serve && final(self).active() == active_after(
                old(self).active(),
                ListenerEvent::Accepted,
            ),
            !accepted ==> r == AcceptStep::RetryAfter(ACCEPT_RETRY_MS) && final(self).active()
                == active_after(old(self).active(), ListenerEvent::AcceptFailed),
    {
        if accepted {
            self.active = self.active + 1;
            AcceptStep::Serve
        } else {
            AcceptStep::RetryAfter(ACCEPT_RETRY_MS)
        }
    }

    /// A connection is done with.
    pub fn finish(&mut self)
        requires
            old(self).active() > 0,
        ensures
            final(self).active() == active_after(old(self).active(), ListenerEvent::Finished),
    {
        proof {
            use_type_invariant(&*self);
        }
        self.active = self.active - 1;
    }
}

/// What to do while a peer is waited for.
#[derive(Debug, Clone, Copy, PartialEq, Eq, Structural)]
pub enum WaitStep {
    /// Wait for this many milliseconds more.
    WaitFor(u64),
    /// The peer took too long.
    GiveUp,
}

/// What to do while a peer is waited for that may take `limit_ms` milliseconds
/// and has taken `waited_ms`: wait for the rest, if there is any.
pub open spec fn wait_step(limit_ms: u64, waited_ms: u64) -> WaitStep {
    if waited_ms < limit_ms {
        WaitStep::WaitFor((limit_ms - waited_ms) as u64)
    } else {
        WaitStep::GiveUp
    }
}

/// What to do while a peer is waited for that may take `limit_ms` milliseconds
/// and has taken `waited_ms`.
pub fn while_waiting(limit_ms: u64, waited_ms: u64) -> (r: WaitStep)
    ensures
        r == wait_step(limit_ms, waited_ms),
{
    if waited_ms < limit_ms {
        WaitStep::WaitFor(limit_ms - waited_ms)
    } else {
        WaitStep::GiveUp
    }
}

/// Whatever happens, a listener never serves more than [`MAX_CONNECTIONS`]
/// connections at once.
pub proof fn law_connections_are_bounded(events: Seq<ListenerEvent>)
    ensures
        active_after_all(events) <= MAX_CONNECTIONS,
    decreases events.len(),
{
    if events.len() > 0 {
        law_connections_are_bounded(events.drop_last());
    }
}

/// However often `accept` fails, a listener serves as many connections as
/// before, and goes on to serve the next one that comes, if it has room.
pub proof fn law_failed_accepts_are_not_fatal(
    before: Seq<ListenerEvent>,
    failures: Seq<ListenerEvent>,
)
    requires
        forall|i: int|
            0 <= i < failures.len() ==> (#[trigger] failures[i]) == ListenerEvent::AcceptFailed,
    ensures
        active_after_all(before + failures) == active_after_all(before),
        active_after_all(before) < MAX_CONNECTIONS ==> active_after_all(
            (before + failures).push(ListenerEvent::Accepted),
        ) == active_after_all(before) + 1,
    decreases failures.len(),
{
    let all = before + failures;
    if failures.len() > 0 {
        law_failed_accepts_are_not_fatal(before, failures.drop_last());
        assert(all.drop_last() =~= before + failures.drop_last());
        assert(all.last() == failures[failures.len() - 1]);
    } else {
        assert(all =~= before);
    }
    let then = all.push(ListenerEvent::Accepted);
    assert(then.drop_last() =~= all);
    assert(then.last() == ListenerEvent::Accepted);
}

/// A peer is never waited for beyond its limit, and is given up when the limit
/// is reached.
pub proof fn law_waiting_ends_at_the_limit(limit_ms: u64, waited_ms: u64)
    ensures
        wait_step(limit_ms, waited_ms) is GiveUp <==> waited_ms >= limit_ms,
        wait_step(limit_ms, waited_ms) matches WaitStep::WaitFor(ms) ==> ms > 0 && waited_ms + ms
            == limit_ms,
{
}

/// A listener serves one connection more when one is accepted, up to 512, one
/// less when one is done with, and as many as before when `accept` fails.
pub proof fn law_connections_are_counted(active: nat)
    ensures
        active < 512 ==> active_after(active, ListenerEvent::Accepted) == active + 1,
        active == 512 ==> active_after(active, ListenerEvent::Accepted) == 512,
        active_after(active, ListenerEvent::AcceptFailed) == active,
        active > 0 ==> active_after(active, ListenerEvent::Finished) == active - 1,
        CLIENT_TIMEOUT_MS == 5000 && NSCD_TIMEOUT_MS == 5000,
{
}

} // verus!
