//! The connections that a listener serves: how many there are, and when they are waited for.

use vstd::prelude::*;

use crate::numeral::{decimal, decimal_text, parse_unsigned};
use crate::stream::{clamp, clamped, set_number, setting};
use crate::text::trim;

verus! {

/// The stack of a connection's thread, in KiB, where no setting says otherwise.
pub const DEFAULT_CONNECTION_WORKER_STACK_KIB: usize = 2048;

/// The smallest stack of a connection's thread, in KiB.
pub const MIN_CONNECTION_WORKER_STACK_KIB: usize = 256;

/// The largest stack of a connection's thread, in KiB.
pub const MAX_CONNECTION_WORKER_STACK_KIB: usize = 8192;

/// How long a listener that stops waits for its connections, in milliseconds.
pub const CONNECTION_WORKER_SHUTDOWN_MILLIS: u64 = 3000;

/// The stack of a connection's thread, in bytes: what the setting says in KiB, or else the
/// default, within its bounds.
pub fn connection_worker_stack_size_from_env(value: Option<String>) -> (r: usize)
    ensures
        r == clamped(
            setting(value, DEFAULT_CONNECTION_WORKER_STACK_KIB),
            MIN_CONNECTION_WORKER_STACK_KIB as int,
            MAX_CONNECTION_WORKER_STACK_KIB as int,
        ) * 1024,
{
    let kib: usize = match set_number(&value) {
        Some(n) => n,
        None => DEFAULT_CONNECTION_WORKER_STACK_KIB,
    };
    clamp(kib, MIN_CONNECTION_WORKER_STACK_KIB, MAX_CONNECTION_WORKER_STACK_KIB) * 1024
}

/// How many threads accept connections, by how many run at once, where that is known.
pub fn tcp_accept_worker_threads(parallelism: Option<usize>) -> (r: usize)
    ensures
        r == clamped(
            match parallelism {
                Some(n) => n as int,
                None => 4,
            },
            2,
            8,
        ),
{
    let n: usize = match parallelism {
        Some(n) => n,
        None => 4,
    };
    clamp(n, 2, 8)
}

/// How many threads a QUIC endpoint has, by the setting and by how many run at once.
pub open spec fn quic_threads(value: Option<String>, parallelism: Option<usize>) -> int {
    match value {
        Some(text) if parse_unsigned(trim(text@), 10, usize::MAX as nat) is Some => clamped(
            parse_unsigned(trim(text@), 10, usize::MAX as nat)->0 as int,
            1,
            64,
        ),
        _ => match parallelism {
            Some(n) => clamped((n + 1) / 2, 2, 8),
            None => 2,
        },
    }
}

/// How many threads a QUIC endpoint has.
pub fn quic_runtime_worker_threads(value: Option<String>, parallelism: Option<usize>) -> (r: usize)
    ensures
        r == quic_threads(value, parallelism),
{
    if let Some(n) = set_number(&value) {
        return clamp(n, 1, 64);
    }
    match parallelism {
        Some(n) => clamp(n / 2 + n % 2, 2, 8),
        None => 2,
    }
}

/// How a connection is served.
#[derive(Clone, Copy, Debug, PartialEq, Eq, Structural)]
pub enum ConnectionWorkerKind {
    Blocking,
    Async,
}

/// How many connections are served.
#[derive(Clone, Copy, Debug, PartialEq, Eq, Structural)]
pub struct ConnectionWorkerGroupSnapshot {
    pub active_total: usize,
    pub active_blocking: usize,
    pub active_async: usize,
}

/// What is said of how many connections are served.
pub open spec fn snapshot_text(snapshot: ConnectionWorkerGroupSnapshot) -> Seq<char> {
    "connection_active_total="@ + decimal(snapshot.active_total as nat)
        + " connection_active_blocking="@ + decimal(snapshot.active_blocking as nat)
        + " connection_active_async="@ + decimal(snapshot.active_async as nat)
}

/// What is said of how many connections are served.
pub fn format_connection_worker_snapshot(snapshot: ConnectionWorkerGroupSnapshot) -> (r: String)
    ensures
        r@ == snapshot_text(snapshot),
{
    let total = decimal_text(snapshot.active_total as u64);
    let blocking = decimal_text(snapshot.active_blocking as u64);
    let tasks = decimal_text(snapshot.active_async as u64);
    let mut text = "connection_active_total=".to_owned();
    text.append(total.as_str());
    text.append(" connection_active_blocking=");
    text.append(blocking.as_str());
    text.append(" connection_active_async=");
    text.append(tasks.as_str());
    text
}

/// What one who waits for the connections does next.
#[derive(Clone, Copy, Debug, PartialEq, Eq, Structural)]
pub enum IdleWait {
    /// No connection is left.
    Idle,
    /// The time is up.
    TimedOut,
    /// Wait for so many milliseconds.
    Wait(u64),
}

/// The connections that a listener serves.
#[derive(Clone, Copy, Debug, PartialEq, Eq, Structural)]
pub struct ConnectionWorkerGroup {
    pub active_blocking: usize,
    pub active_async: usize,
}

impl ConnectionWorkerGroup {
    /// How many connections are served.
    pub open spec fn total(&self) -> nat {
        (self.active_blocking + self.active_async) as nat
    }

    /// How many connections are served in a way.
    pub open spec fn active(&self, kind: ConnectionWorkerKind) -> nat {
        match kind {
            ConnectionWorkerKind::Blocking => self.active_blocking as nat,
            ConnectionWorkerKind::Async => self.active_async as nat,
        }
    }

    /// The connections where those served in a way are so many.
    pub open spec fn with(self, kind: ConnectionWorkerKind, n: nat) -> ConnectionWorkerGroup {
        match kind {
            ConnectionWorkerKind::Blocking => ConnectionWorkerGroup {
                active_blocking: n as usize,
                ..self
            },
            ConnectionWorkerKind::Async => ConnectionWorkerGroup {
                active_async: n as usize,
                ..self
            },
        }
    }

    /// No connections.
    pub fn new() -> (r: ConnectionWorkerGroup)
        ensures
            r.active_blocking == 0,
            r.active_async == 0,
    {
        ConnectionWorkerGroup { active_blocking: 0, active_async: 0 }
    }

    /// Counts a connection that begins; none is turned away.
    pub fn acquire(&mut self, kind: ConnectionWorkerKind) -> (r: bool)
        requires
            old(self).total() < usize::MAX,
        ensures
            r,
            *final(self) == old(self).with(kind, old(self).active(kind) + 1),
    {
        match kind {
            ConnectionWorkerKind::Blocking => {
                self.active_blocking = self.active_blocking + 1;
            },
            ConnectionWorkerKind::Async => {
                self.active_async = self.active_async + 1;
            },
        }
        true
    }

    /// Counts a connection that ends; whether none is left.
    pub fn release(&mut self, kind: ConnectionWorkerKind) -> (r: bool)
        ensures
            *final(self) == old(self).with(
                kind,
                if old(self).active(kind) == 0 {
                    0
                } else {
                    (old(self).active(kind) - 1) as nat
                },
            ),
            r == (final(self).total() == 0),
    {
        match kind {
            ConnectionWorkerKind::Blocking => {
                self.active_blocking = self.active_blocking.saturating_sub(1);
            },
            ConnectionWorkerKind::Async => {
                self.active_async = self.active_async.saturating_sub(1);
            },
        }
        self.active_blocking == 0 && self.active_async == 0
    }

    /// How many connections are served.
    pub fn snapshot(&self) -> (r: ConnectionWorkerGroupSnapshot)
        requires
            self.total() <= usize::MAX,
        ensures
            r.active_total == self.total(),
            r.active_blocking == self.active_blocking,
            r.active_async == self.active_async,
    {
        ConnectionWorkerGroupSnapshot {
            active_total: self.active_blocking + self.active_async,
            active_blocking: self.active_blocking,
            active_async: self.active_async,
        }
    }

    /// What one who waits until a deadline does, by the time in milliseconds, and by whether a
    /// wait has just run out.
    pub open spec fn wait_of(&self, now: u64, deadline: u64, ran_out: bool) -> IdleWait {
        if self.total() == 0 {
            IdleWait::Idle
        } else if ran_out || now >= deadline {
            IdleWait::TimedOut
        } else {
            IdleWait::Wait((deadline - now) as u64)
        }
    }

    /// What one who waits until a deadline does.
    pub fn wait_until_idle_timeout(&self, now: u64, deadline: u64, ran_out: bool) -> (r: IdleWait)
        ensures
            r == self.wait_of(now, deadline, ran_out),
    {
        if self.active_blocking == 0 && self.active_async == 0 {
            IdleWait::Idle
        } else if ran_out || now >= deadline {
            IdleWait::TimedOut
        } else {
            IdleWait::Wait(deadline - now)
        }
    }
}

/// A connection that ends leaves the connections as they were before it began.
pub proof fn law_ended_connection_leaves_no_trace(
    group: ConnectionWorkerGroup,
    kind: ConnectionWorkerKind,
)
    requires
        group.total() < usize::MAX,
    ensures
        ({
            let begun = group.with(kind, group.active(kind) + 1);
            begun.with(kind, (begun.active(kind) - 1) as nat) == group
        }),
{
}

/// Whoever waits is told that no connection is left only where none is, and a wait always ends:
/// it is never longer than until the deadline.
pub proof fn law_wait_ends(group: ConnectionWorkerGroup, now: u64, deadline: u64, ran_out: bool)
    ensures
        group.wait_of(now, deadline, ran_out) is Idle <==> group.total() == 0,
        group.wait_of(now, deadline, ran_out) matches IdleWait::Wait(n) ==> 0 < n && now + n
            <= deadline,
{
}

/// One look at the connections by one who waits: what there was, when, and whether a wait had just
/// run out.
pub struct Look {
    pub group: ConnectionWorkerGroup,
    pub now: u64,
    pub ran_out: bool,
}

impl Look {
    /// What is done after the look.
    pub open spec fn next(self, deadline: u64) -> IdleWait {
        self.group.wait_of(self.now, deadline, self.ran_out)
    }
}

/// Whether these are the looks of one wait until a deadline, given how many connections there are
/// at each time. Every look but the last leads to a wait, and the last ends it; a wait that runs
/// out has taken its time; and no connection begins meanwhile.
pub open spec fn is_wait(
    looks: Seq<Look>,
    deadline: u64,
    active: spec_fn(int) -> nat,
) -> bool {
    &&& looks.len() > 0
    &&& !looks[0].ran_out
    &&& !(looks.last().next(deadline) is Wait)
    &&& forall|i: int| 0 <= i < looks.len() ==> (#[trigger] looks[i]).group.total() == active(
        looks[i].now as int,
    )
    &&& forall|i: int|
        0 <= i < looks.len() - 1 ==> (#[trigger] looks[i]).next(deadline) is Wait
    &&& forall|i: int, j: int|
        0 <= i < looks.len() && j == i + 1 && j < looks.len() && (#[trigger] looks[j]).ran_out
            ==> looks[j].now >= (#[trigger] looks[i]).now + looks[i].next(deadline)->Wait_0
    &&& forall|s: int, t: int| s <= t ==> #[trigger] active(t) <= #[trigger] active(s)
}

/// A wait says that all connections have ended where they have ended by the deadline, and only
/// where none of them is left when it says so. Where it gives up, the deadline is reached and a
/// connection outlasted it. All looks but the last come before the deadline, and the waits after
/// them are until the deadline at most, so it ends with the first look from then on.
pub proof fn law_whole_wait(looks: Seq<Look>, deadline: u64, active: spec_fn(int) -> nat)
    requires
        is_wait(looks, deadline, active),
    ensures
        ({
            let end = looks.last();
            let idle = end.next(deadline) is Idle;
            &&& active(deadline as int) == 0 ==> idle
            &&& idle <==> active(end.now as int) == 0
            &&& idle ==> end.group.active_blocking == 0 && end.group.active_async == 0
            &&& !idle ==> end.now >= deadline && active(deadline as int) > 0
        }),
        forall|i: int|
            0 <= i < looks.len() - 1 ==> (#[trigger] looks[i]).now < deadline && looks[i].now
                + looks[i].next(deadline)->Wait_0 == deadline,
{
    let end = looks.last();
    let n = looks.len() as int;
    assert forall|i: int| 0 <= i < n - 1 implies (#[trigger] looks[i]).now < deadline
        && looks[i].now + looks[i].next(deadline)->Wait_0 == deadline by {
        assert(looks[i].next(deadline) is Wait);
    }
    assert(looks[n - 1] == end);
    assert(end.group.total() == active(end.now as int));
    if end.next(deadline) is TimedOut {
        if end.ran_out {
            assert(n > 1);
            assert(looks[n - 1].ran_out);
            assert(looks[n - 2].now < deadline);
        }
        assert(end.now >= deadline);
        assert(active(end.now as int) <= active(deadline as int));
    }
}

/// A connection that begins or ends, however it ends.
pub enum ConnectionEvent {
    Begun(ConnectionWorkerKind),
    Ended(ConnectionWorkerKind),
}

/// The connections after events.
pub open spec fn after_events(events: Seq<ConnectionEvent>) -> ConnectionWorkerGroup
    decreases events.len(),
{
    if events.len() == 0 {
        ConnectionWorkerGroup { active_blocking: 0, active_async: 0 }
    } else {
        let before = after_events(events.subrange(0, events.len() - 1));
        match events[events.len() - 1] {
            ConnectionEvent::Begun(kind) => before.with(kind, before.active(kind) + 1),
            ConnectionEvent::Ended(kind) => before.with(
                kind,
                if before.active(kind) == 0 {
                    0
                } else {
                    (before.active(kind) - 1) as nat
                },
            ),
        }
    }
}

/// How many connections of a kind begin.
pub open spec fn begun(events: Seq<ConnectionEvent>, kind: ConnectionWorkerKind) -> nat
    decreases events.len(),
{
    if events.len() == 0 {
        0
    } else {
        begun(events.subrange(0, events.len() - 1), kind) + if events[events.len() - 1]
            == ConnectionEvent::Begun(kind) {
            1nat
        } else {
            0
        }
    }
}

/// How many connections of a kind end.
pub open spec fn ended(events: Seq<ConnectionEvent>, kind: ConnectionWorkerKind) -> nat
    decreases events.len(),
{
    if events.len() == 0 {
        0
    } else {
        ended(events.subrange(0, events.len() - 1), kind) + if events[events.len() - 1]
            == ConnectionEvent::Ended(kind) {
            1nat
        } else {
            0
        }
    }
}

/// Whether no connection ends that has not begun, and no more begin than can be counted.
pub open spec fn plausible(events: Seq<ConnectionEvent>) -> bool {
    forall|n: int, kind: ConnectionWorkerKind|
        0 <= n <= events.len() ==> #[trigger] ended(events.subrange(0, n), kind) <= begun(
            events.subrange(0, n),
            kind,
        ) <= usize::MAX
}

/// The connections that are counted are those that have begun and not ended. So none is counted if
/// and only if every one that began has ended.
pub proof fn law_connections_are_counted(events: Seq<ConnectionEvent>)
    requires
        plausible(events),
    ensures
        forall|kind: ConnectionWorkerKind| #[trigger]
            after_events(events).active(kind) == begun(events, kind) - ended(events, kind),
        after_events(events).total() == 0 <==> forall|kind: ConnectionWorkerKind| #[trigger]
            begun(events, kind) == ended(events, kind),
    decreases events.len(),
{
    let n = events.len() as int;
    assert(events.subrange(0, n) =~= events);
    if n > 0 {
        let init = events.subrange(0, n - 1);
        assert forall|m: int, kind: ConnectionWorkerKind| 0 <= m <= init.len() implies #[trigger]
            ended(init.subrange(0, m), kind) <= begun(init.subrange(0, m), kind)
            <= usize::MAX by {
            assert(init.subrange(0, m) =~= events.subrange(0, m));
            assert(ended(events.subrange(0, m), kind) <= begun(events.subrange(0, m), kind));
        }
        law_connections_are_counted(init);
        assert forall|kind: ConnectionWorkerKind| #[trigger]
            after_events(events).active(kind) == begun(events, kind) - ended(events, kind) by {
            let all = events.subrange(0, n);
            assert(ended(all, kind) <= begun(all, kind));
            assert(begun(all, kind) <= usize::MAX);
            assert(after_events(init).active(kind) == begun(init, kind) - ended(init, kind));
        }
    }
    let blocking = ConnectionWorkerKind::Blocking;
    let tasks = ConnectionWorkerKind::Async;
    assert(after_events(events).active(blocking) == begun(events, blocking) - ended(
        events,
        blocking,
    ));
    assert(after_events(events).active(tasks) == begun(events, tasks) - ended(events, tasks));
    if after_events(events).total() == 0 {
        assert forall|kind: ConnectionWorkerKind| #[trigger]
            begun(events, kind) == ended(events, kind) by {
            match kind {
                ConnectionWorkerKind::Blocking => {},
                ConnectionWorkerKind::Async => {},
            }
        }
    }
}

} // verus!
