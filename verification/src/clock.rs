//! A connection under the event loop's clock.
//!
//! The liveness machine never sees the time. This module puts it beside a
//! model of the loop that serves it: the loop keeps the timers that the
//! machine asks for, hands each new timer's handle to the machine, fires
//! the timer that is due first, passes on the frames that come in while
//! the connection is open, and ends the connection when it is asked to
//! close it.
//! The laws at the end say what the two do together as time goes by.

use vstd::prelude::*;
use crate::liveness::{Command, LivenessView, Signal, EXPIRE, EXPIRE_WINDOW, PING, PING_INTERVAL};

verus! {

/// A timer that is set: what it was asked with, and when it is due.
pub struct Timer {
    pub token: usize,
    pub due: int,
}

/// A connection as the event loop holds it.
pub struct Connection {
    /// The time, in milliseconds.
    pub now: int,
    /// The liveness machine of the connection.
    pub machine: LivenessView<nat>,
    /// The timers that are set, by handle.
    pub timers: Map<nat, Timer>,
    /// How many handles have been given out; the next handle.
    pub issued: nat,
    /// The times at which a ping was sent.
    pub pings: Seq<int>,
    /// The times at which the connection was asked to be closed.
    pub closes: Seq<int>,
}

/// The timers without those that the commands cancel.
pub open spec fn without_cancelled(timers: Map<nat, Timer>, commands: Seq<Command<nat>>) -> Map<
    nat,
    Timer,
>
    decreases commands.len(),
{
    if commands.len() == 0 {
        timers
    } else {
        let rest = without_cancelled(timers, commands.drop_last());
        match commands.last() {
            Command::Cancel(handle) => rest.remove(handle),
            _ => rest,
        }
    }
}

/// The loop carries out one command. A timer that it sets gets the next
/// handle, which the machine is told at once; what the machine cancels in
/// answer is cancelled. A close ends the connection: the machine is told
/// of the end, and what it cancels in answer is cancelled.
pub open spec fn obey_one(c: Connection, command: Command<nat>) -> Connection {
    match command {
        Command::Schedule { token, delay } => {
            let handle = c.issued;
            let reaction = c.machine.react(Signal::NewTimeout { token, timeout: handle });
            let set = c.timers.insert(handle, Timer { token, due: c.now + delay });
            Connection {
                machine: reaction.0,
                timers: without_cancelled(set, reaction.1),
                issued: c.issued + 1,
                ..c
            }
        },
        Command::Cancel(handle) => Connection { timers: c.timers.remove(handle), ..c },
        Command::SendPing => Connection { pings: c.pings.push(c.now), ..c },
        Command::Close => {
            let reaction = c.machine.react(Signal::Closed);
            Connection {
                machine: reaction.0,
                timers: without_cancelled(c.timers, reaction.1),
                closes: c.closes.push(c.now),
                ..c
            }
        },
        Command::Shutdown => c,
    }
}

/// The loop carries out the commands, first to last.
pub open spec fn obey(c: Connection, commands: Seq<Command<nat>>) -> Connection
    decreases commands.len(),
{
    if commands.len() == 0 {
        c
    } else {
        obey_one(obey(c, commands.drop_last()), commands.last())
    }
}

/// The loop tells the machine of something and carries out the answer.
pub open spec fn tell(c: Connection, signal: Signal<nat>) -> Connection {
    obey(Connection { machine: c.machine.react(signal).0, ..c }, c.machine.react(signal).1)
}

/// A connection that is opened at the time `at`.
pub open spec fn opened(at: int) -> Connection {
    tell(
        Connection {
            now: at,
            machine: LivenessView::start(),
            timers: Map::empty(),
            issued: 0,
            pings: Seq::empty(),
            closes: Seq::empty(),
        },
        Signal::Open,
    )
}

/// What moves a connection on in time.
pub enum Tick {
    /// A frame comes in at the time `at`.
    Frame { at: int },
    /// The timer with this handle fires.
    Fire { handle: nat },
}

/// Whether the tick can come next: time does not run backwards, and no
/// timer is passed over. A frame comes while the connection is open and
/// no later than the first timer is due, and the timer that fires is one
/// that is due first.
pub open spec fn allowed(c: Connection, tick: Tick) -> bool {
    match tick {
        Tick::Frame { at } => c.closes.len() == 0 && c.now <= at && forall|h: nat|
            c.timers.dom().contains(h) ==> at <= (#[trigger] c.timers[h]).due,
        Tick::Fire { handle } => c.timers.dom().contains(handle) && c.now <= c.timers[handle].due
            && forall|h: nat|
            c.timers.dom().contains(h) ==> c.timers[handle].due <= (#[trigger] c.timers[h]).due,
    }
}

/// The connection after the tick.
pub open spec fn advance(c: Connection, tick: Tick) -> Connection {
    match tick {
        Tick::Frame { at } => tell(Connection { now: at, ..c }, Signal::Frame),
        Tick::Fire { handle } => tell(
            Connection { now: c.timers[handle].due, timers: c.timers.remove(handle), ..c },
            Signal::Timeout { token: c.timers[handle].token },
        ),
    }
}

/// Whether the ticks can come one after the other.
pub open spec fn all_allowed(c: Connection, ticks: Seq<Tick>) -> bool
    decreases ticks.len(),
{
    ticks.len() == 0 || (all_allowed(c, ticks.drop_last()) && allowed(
        run(c, ticks.drop_last()),
        ticks.last(),
    ))
}

/// The connection after the ticks.
pub open spec fn run(c: Connection, ticks: Seq<Tick>) -> Connection
    decreases ticks.len(),
{
    if ticks.len() == 0 {
        c
    } else {
        advance(run(c, ticks.drop_last()), ticks.last())
    }
}

/// No frame is among the ticks.
pub open spec fn silent(ticks: Seq<Tick>) -> bool {
    forall|i: int| 0 <= i < ticks.len() ==> (#[trigger] ticks[i]) is Fire
}

/// The connection is alive: it has not been asked to be closed, and
/// exactly two timers are set, the ping timer, due at `ping_due`, and the
/// expire timer, due at `expire_due`, both known to the machine.
pub open spec fn alive(c: Connection, ping_due: int, expire_due: int) -> bool {
    &&& c.closes.len() == 0
    &&& c.machine.ping_timeout is Some
    &&& c.machine.expire_timeout is Some
    &&& c.machine.ping_timeout->0 != c.machine.expire_timeout->0
    &&& c.machine.ping_timeout->0 < c.issued
    &&& c.machine.expire_timeout->0 < c.issued
    &&& c.timers.dom() =~= set![c.machine.ping_timeout->0, c.machine.expire_timeout->0]
    &&& c.timers[c.machine.ping_timeout->0] == (Timer { token: PING, due: ping_due })
    &&& c.timers[c.machine.expire_timeout->0] == (Timer { token: EXPIRE, due: expire_due })
    &&& c.now <= ping_due <= c.now + PING_INTERVAL
    &&& c.now <= expire_due <= c.now + EXPIRE_WINDOW
}

/// The connection has been asked to be closed, once, at the time `at`,
/// and no timer is left.
pub open spec fn closed_at(c: Connection, at: int) -> bool {
    &&& c.closes == seq![at]
    &&& at <= c.now
    &&& c.timers.dom() =~= Set::<nat>::empty()
}

proof fn lemma_obey_none(c: Connection)
    ensures
        obey(c, Seq::empty()) == c,
{
}

proof fn lemma_obey_single(c: Connection, command: Command<nat>)
    ensures
        obey(c, seq![command]) == obey_one(c, command),
{
    assert(seq![command].drop_last() =~= Seq::<Command<nat>>::empty());
    assert(seq![command].last() == command);
    lemma_obey_none(c);
}

proof fn lemma_obey_pair(c: Connection, first: Command<nat>, second: Command<nat>)
    ensures
        obey(c, seq![first, second]) == obey_one(obey_one(c, first), second),
{
    assert(seq![first, second].drop_last() =~= seq![first]);
    assert(seq![first, second].last() == second);
    lemma_obey_single(c, first);
}

proof fn lemma_without_cancelled(timers: Map<nat, Timer>, slot: Option<nat>)
    ensures
        without_cancelled(timers, crate::liveness::cancel_of(slot)) == (match slot {
            Some(handle) => timers.remove(handle),
            None => timers,
        }),
{
    let commands = crate::liveness::cancel_of(slot);
    if commands.len() > 0 {
        assert(commands.drop_last() =~= Seq::<Command<nat>>::empty());
        assert(without_cancelled(timers, commands.drop_last()) == timers);
    }
}

proof fn lemma_without_cancelled_both(timers: Map<nat, Timer>, first: nat, second: nat)
    ensures
        without_cancelled(
            timers,
            crate::liveness::cancel_of(Some(first)) + crate::liveness::cancel_of(Some(second)),
        ) == timers.remove(first).remove(second),
{
    let commands = crate::liveness::cancel_of(Some(first)) + crate::liveness::cancel_of(
        Some(second),
    );
    assert(commands.drop_last() =~= crate::liveness::cancel_of(Some(first)));
    assert(commands.last() == Command::<nat>::Cancel(second));
    lemma_without_cancelled(timers, Some(first));
}

/// A connection that has just been opened is alive, with the ping timer
/// due after the ping interval and the expire timer after the expire
/// window.
pub proof fn lemma_opened_is_alive(at: int)
    ensures
        alive(opened(at), at + PING_INTERVAL, at + EXPIRE_WINDOW),
        opened(at).now == at,
        opened(at).pings == Seq::<int>::empty(),
{
    let start = Connection {
        now: at,
        machine: LivenessView::start(),
        timers: Map::empty(),
        issued: 0,
        pings: Seq::empty(),
        closes: Seq::empty(),
    };
    let first = Command::<nat>::Schedule { token: PING, delay: PING_INTERVAL };
    let second = Command::<nat>::Schedule { token: EXPIRE, delay: EXPIRE_WINDOW };
    assert(start.machine.react(Signal::Open).1 =~= seq![first, second]);
    lemma_obey_pair(start, first, second);
    let one = obey_one(start, first);
    lemma_without_cancelled(start.timers.insert(0, Timer { token: PING, due: at + PING_INTERVAL }), None);
    lemma_without_cancelled(
        one.timers.insert(1, Timer { token: EXPIRE, due: at + EXPIRE_WINDOW }),
        None,
    );
    let two = obey_one(one, second);
    assert(two == opened(at));
    assert(two.timers.dom() =~= set![0nat, 1nat]);
}

/// A frame on a connection that is alive sets the expire timer anew: the
/// connection stays alive, and the expire timer is due one expire window
/// after the frame. The ping timer is left as it is.
pub proof fn lemma_frame_resets_expiry(c: Connection, ping_due: int, expire_due: int, at: int)
    requires
        alive(c, ping_due, expire_due),
        allowed(c, Tick::Frame { at }),
    ensures
        alive(advance(c, Tick::Frame { at }), ping_due, at + EXPIRE_WINDOW),
        advance(c, Tick::Frame { at }).now == at,
        advance(c, Tick::Frame { at }).pings == c.pings,
{
    let hp = c.machine.ping_timeout->0;
    let he = c.machine.expire_timeout->0;
    let moved = Connection { now: at, ..c };
    let command = Command::<nat>::Schedule { token: EXPIRE, delay: EXPIRE_WINDOW };
    assert(c.machine.react(Signal::Frame).1 =~= seq![command]);
    lemma_obey_single(moved, command);
    let set = moved.timers.insert(c.issued, Timer { token: EXPIRE, due: at + EXPIRE_WINDOW });
    lemma_without_cancelled(set, Some(he));
    let after = advance(c, Tick::Frame { at });
    assert(after == obey_one(moved, command));
    assert(c.timers.dom().contains(hp));
    assert(at <= c.timers[hp].due);
    assert(after.timers.dom() =~= set![hp, c.issued]);
}

/// The timer that fires first on a connection that is alive is the ping
/// timer or the expire timer. The ping timer sends a ping, at the time it
/// was due, and is set again one ping interval later; the connection
/// stays alive. The expire timer asks for the connection to be closed, at
/// the time it was due.
pub proof fn lemma_fire(c: Connection, ping_due: int, expire_due: int, handle: nat)
    requires
        alive(c, ping_due, expire_due),
        allowed(c, Tick::Fire { handle }),
    ensures
        handle == c.machine.ping_timeout->0 || handle == c.machine.expire_timeout->0,
        handle == c.machine.ping_timeout->0 ==> ping_due <= expire_due && alive(
            advance(c, Tick::Fire { handle }),
            ping_due + PING_INTERVAL,
            expire_due,
        ) && advance(c, Tick::Fire { handle }).pings == c.pings.push(ping_due) && advance(
            c,
            Tick::Fire { handle },
        ).now == ping_due,
        handle == c.machine.expire_timeout->0 ==> expire_due <= ping_due && closed_at(
            advance(c, Tick::Fire { handle }),
            expire_due,
        ) && advance(c, Tick::Fire { handle }).pings == c.pings && advance(
            c,
            Tick::Fire { handle },
        ).now == expire_due,
{
    let hp = c.machine.ping_timeout->0;
    let he = c.machine.expire_timeout->0;
    assert(c.timers.dom().contains(hp));
    assert(c.timers.dom().contains(he));
    assert(c.timers[handle].due <= c.timers[hp].due);
    assert(c.timers[handle].due <= c.timers[he].due);
    let fired = Connection {
        now: c.timers[handle].due,
        timers: c.timers.remove(handle),
        ..c
    };
    if handle == hp {
        let ping = Command::<nat>::SendPing;
        let again = Command::<nat>::Schedule { token: PING, delay: PING_INTERVAL };
        assert(c.machine.react(Signal::Timeout { token: PING }).1 =~= seq![ping, again]);
        let told = Connection { machine: c.machine.react(Signal::Timeout { token: PING }).0, ..fired };
        lemma_obey_pair(told, ping, again);
        let sent = obey_one(told, ping);
        let set = sent.timers.insert(
            c.issued,
            Timer { token: PING, due: ping_due + PING_INTERVAL },
        );
        lemma_without_cancelled(set, None);
        let after = advance(c, Tick::Fire { handle });
        assert(after == obey_one(sent, again));
        assert(after.timers.dom() =~= set![c.issued, he]);
    } else {
        let close = Command::<nat>::Close;
        assert(c.machine.react(Signal::Timeout { token: EXPIRE }).1 =~= seq![close]);
        let told = Connection {
            machine: c.machine.react(Signal::Timeout { token: EXPIRE }).0,
            ..fired
        };
        lemma_obey_single(told, close);
        lemma_without_cancelled_both(told.timers, hp, he);
        assert(c.closes.push(expire_due) =~= seq![expire_due]);
        let after = advance(c, Tick::Fire { handle });
        assert(after == obey_one(told, close));
        assert(after.timers.dom() =~= Set::<nat>::empty());
    }
}

/// Once the connection has been closed, nothing comes any more: no timer
/// is left to fire, and no frame comes in.
pub proof fn lemma_closed_is_final(c: Connection, at: int, tick: Tick)
    requires
        closed_at(c, at),
    ensures
        !allowed(c, tick),
{
}

/// The times of `n` pings sent one ping interval apart, the first at
/// `first`.
pub open spec fn ping_times(first: int, n: nat) -> Seq<int> {
    Seq::new(n, |k: int| first + k * PING_INTERVAL)
}

/// How a connection stands that was alive with `sent` pings behind it
/// and the ping timer due at `ping_due`: it has sent `n` more pings, one
/// ping interval apart, and is still alive, with the expire timer due at
/// `expiry`, or was asked to be closed at `expiry`.
pub open spec fn stands(c: Connection, sent: Seq<int>, ping_due: int, n: nat, expiry: int) -> bool {
    &&& c.pings == sent + ping_times(ping_due, n)
    &&& if c.closes.len() == 0 {
        alive(c, ping_due + n * PING_INTERVAL, expiry)
    } else {
        closed_at(c, expiry)
    }
}

/// While no frame comes in, a connection that is alive sends its pings
/// one ping interval apart, and when the expire timer is due it is asked
/// to be closed, once, at that time and not before. Time cannot pass the
/// end of the expire window without this.
pub proof fn lemma_silence_closes_once(
    c: Connection,
    ping_due: int,
    expire_due: int,
    ticks: Seq<Tick>,
)
    requires
        alive(c, ping_due, expire_due),
        silent(ticks),
        all_allowed(c, ticks),
    ensures
        run(c, ticks).closes.len() <= 1,
        run(c, ticks).closes.len() == 0 ==> run(c, ticks).now <= expire_due,
        run(c, ticks).now > expire_due ==> run(c, ticks).closes == seq![expire_due],
        exists|n: nat| #[trigger] stands(run(c, ticks), c.pings, ping_due, n, expire_due),
    decreases ticks.len(),
{
    if ticks.len() == 0 {
        assert(c.pings + ping_times(ping_due, 0) =~= c.pings);
        assert(stands(c, c.pings, ping_due, 0, expire_due));
    } else {
        let head = ticks.drop_last();
        let tick = ticks.last();
        assert(silent(head)) by {
            assert forall|i: int| 0 <= i < head.len() implies (#[trigger] head[i]) is Fire by {
                assert(head[i] == ticks[i]);
            }
        }
        lemma_silence_closes_once(c, ping_due, expire_due, head);
        let before = run(c, head);
        let after = run(c, ticks);
        assert(after == advance(before, tick));
        let n = choose|n: nat| #[trigger] stands(before, c.pings, ping_due, n, expire_due);
        assert(stands(before, c.pings, ping_due, n, expire_due));
        if before.closes.len() != 0 {
            lemma_closed_is_final(before, expire_due, tick);
        } else {
            let due = ping_due + n * PING_INTERVAL;
            assert(tick == ticks[ticks.len() - 1]);
            let handle = tick->Fire_handle;
            lemma_fire(before, due, expire_due, handle);
            if handle == before.machine.ping_timeout->0 {
                assert(ping_times(ping_due, n).push(due) =~= ping_times(ping_due, n + 1));
                assert((c.pings + ping_times(ping_due, n)).push(due) =~= c.pings + ping_times(
                    ping_due,
                    n + 1,
                ));
                assert(due + PING_INTERVAL == ping_due + (n + 1) * PING_INTERVAL) by (nonlinear_arith)
                    requires
                        due == ping_due + n * PING_INTERVAL,
                ;
                assert(stands(after, c.pings, ping_due, n + 1, expire_due));
            } else {
                assert(stands(after, c.pings, ping_due, n, expire_due));
            }
        }
    }
}

/// Whatever comes in, and whenever: as long as the connection is alive
/// its pings go out one ping interval apart, the first when the ping
/// timer was first due, and the connection is closed at most once, when
/// an expire window has passed without a frame.
pub proof fn lemma_pings_keep_time(c: Connection, ping_due: int, expire_due: int, ticks: Seq<Tick>)
    requires
        alive(c, ping_due, expire_due),
        all_allowed(c, ticks),
    ensures
        run(c, ticks).closes.len() <= 1,
        exists|n: nat, expiry: int| #[trigger] stands(run(c, ticks), c.pings, ping_due, n, expiry),
    decreases ticks.len(),
{
    if ticks.len() == 0 {
        assert(c.pings + ping_times(ping_due, 0) =~= c.pings);
        assert(stands(c, c.pings, ping_due, 0, expire_due));
    } else {
        let head = ticks.drop_last();
        let tick = ticks.last();
        lemma_pings_keep_time(c, ping_due, expire_due, head);
        let before = run(c, head);
        let after = run(c, ticks);
        assert(after == advance(before, tick));
        let (n, expiry) = choose|n: nat, expiry: int| #[trigger]
            stands(before, c.pings, ping_due, n, expiry);
        assert(stands(before, c.pings, ping_due, n, expiry));
        if before.closes.len() != 0 {
            lemma_closed_is_final(before, expiry, tick);
        } else {
            let due = ping_due + n * PING_INTERVAL;
            match tick {
                Tick::Frame { at } => {
                    lemma_frame_resets_expiry(before, due, expiry, at);
                    assert(stands(after, c.pings, ping_due, n, at + EXPIRE_WINDOW));
                },
                Tick::Fire { handle } => {
                    lemma_fire(before, due, expiry, handle);
                    if handle == before.machine.ping_timeout->0 {
                        assert(ping_times(ping_due, n).push(due) =~= ping_times(ping_due, n + 1));
                        assert((c.pings + ping_times(ping_due, n)).push(due) =~= c.pings
                            + ping_times(ping_due, n + 1));
                        assert(due + PING_INTERVAL == ping_due + (n + 1) * PING_INTERVAL)
                            by (nonlinear_arith)
                            requires
                                due == ping_due + n * PING_INTERVAL,
                        ;
                        assert(stands(after, c.pings, ping_due, n + 1, expiry));
                    } else {
                        assert(stands(after, c.pings, ping_due, n, expiry));
                    }
                },
            }
        }
    }
}

} // verus!
