//! Keeping a connection alive: a ping at a fixed interval, and the end of
//! the connection when nothing has come from the client for a while.
//!
//! The connection's event loop owns the clock. It tells the machine here
//! what happened, and the machine answers with what the loop is to do.
//! `T` is the loop's handle for a timer that has been set.

use vstd::prelude::*;

verus! {

/// The token of the timer that asks for the next ping.
pub const PING: usize = 1;

/// The token of the timer that ends an idle connection.
pub const EXPIRE: usize = 2;

/// How long after a ping the next one is sent, in milliseconds.
pub const PING_INTERVAL: u64 = 5000;

/// How long a connection may stay silent, in milliseconds.
pub const EXPIRE_WINDOW: u64 = 30000;

/// What the event loop is to do.
#[derive(Debug)]
pub enum Command<T> {
    /// Set a timer that fires with `token` after `delay` milliseconds.
    Schedule { token: usize, delay: u64 },
    /// Cancel the timer with this handle.
    Cancel(T),
    /// Send a ping frame.
    SendPing,
    /// Close the connection, telling the client that the server goes away.
    Close,
    /// Shut the connection down at once.
    Shutdown,
}

/// What the event loop tells the machine.
pub enum Signal<T> {
    /// The connection has been opened.
    Open,
    /// The timer set with `token` has fired.
    Timeout { token: usize },
    /// A timer asked for with `token` has been set; this is its handle.
    NewTimeout { token: usize, timeout: T },
    /// A frame has come in, of whatever kind.
    Frame,
    /// The connection has been closed.
    Closed,
    /// The transport has failed.
    Error,
}

/// A timer fired with a token that no timer was set with.
#[derive(Debug, PartialEq, Eq, Structural)]
pub enum TimeoutError {
    InvalidToken,
}

/// The timers of one connection.
///
/// At most one ping timer and one expire timer are held at a time.
#[derive(Debug)]
pub struct Liveness<T> {
    ping_timeout: Option<T>,
    expire_timeout: Option<T>,
}

/// The mathematical content of a [`Liveness`].
pub struct LivenessView<T> {
    /// The handle of the ping timer that is set, if one is.
    pub ping_timeout: Option<T>,
    /// The handle of the expire timer that is set, if one is.
    pub expire_timeout: Option<T>,
}

/// The handle held in `slot`, as a command to cancel it.
pub open spec fn cancel_of<T>(slot: Option<T>) -> Seq<Command<T>> {
    match slot {
        Some(timeout) => seq![Command::Cancel(timeout)],
        None => Seq::empty(),
    }
}

impl<T> LivenessView<T> {
    /// The state of a connection that has not been opened yet.
    pub open spec fn start() -> LivenessView<T> {
        LivenessView { ping_timeout: None, expire_timeout: None }
    }

    /// The state after an event, and the commands that answer it.
    ///
    /// Opening sets both timers. The ping timer sends a ping and sets
    /// itself again; the expire timer closes the connection. A new timer
    /// takes the place of the one held for the same purpose, which is
    /// cancelled. Any frame sets the expire timer anew. The end of the
    /// connection cancels the timers held, and a failure of the transport
    /// shuts the connection down. Each of these holds in every state.
    pub open spec fn react(self, event: Signal<T>) -> (LivenessView<T>, Seq<Command<T>>) {
        match event {
            Signal::Open => (
                self,
                seq![
                    Command::Schedule { token: PING, delay: PING_INTERVAL },
                    Command::Schedule { token: EXPIRE, delay: EXPIRE_WINDOW },
                ],
            ),
            Signal::Timeout { token } => if token == PING {
                (
                    LivenessView { ping_timeout: None, ..self },
                    seq![Command::SendPing, Command::Schedule { token: PING, delay: PING_INTERVAL }],
                )
            } else if token == EXPIRE {
                (self, seq![Command::Close])
            } else {
                (self, Seq::empty())
            },
            Signal::NewTimeout { token, timeout } => if token == EXPIRE {
                (
                    LivenessView { expire_timeout: Some(timeout), ..self },
                    cancel_of(self.expire_timeout),
                )
            } else {
                (
                    LivenessView { ping_timeout: Some(timeout), ..self },
                    cancel_of(self.ping_timeout),
                )
            },
            Signal::Frame => (self, seq![Command::Schedule { token: EXPIRE, delay: EXPIRE_WINDOW }]),
            Signal::Closed => (
                LivenessView { ping_timeout: None, expire_timeout: None },
                cancel_of(self.ping_timeout) + cancel_of(self.expire_timeout),
            ),
            Signal::Error => (self, seq![Command::Shutdown]),
        }
    }

    /// Whether the timer that fired was set by this machine.
    pub open spec fn knows(token: usize) -> bool {
        token == PING || token == EXPIRE
    }
}

impl<T> View for Liveness<T> {
    type V = LivenessView<T>;

    closed spec fn view(&self) -> LivenessView<T> {
        LivenessView { ping_timeout: self.ping_timeout, expire_timeout: self.expire_timeout }
    }
}

fn take_slot<T>(slot: &mut Option<T>, commands: &mut Vec<Command<T>>)
    ensures
        *final(slot) is None,
        final(commands)@ == old(commands)@ + cancel_of(*old(slot)),
{
    let held = slot.take();
    match held {
        Some(timeout) => {
            commands.push(Command::Cancel(timeout));
        },
        None => {},
    }
    assert(commands@ =~= old(commands)@ + cancel_of(*old(slot)));
}

impl<T> Liveness<T> {
    /// The machine of a connection that has not been opened yet.
    pub fn new() -> (machine: Liveness<T>)
        ensures
            machine@ == LivenessView::<T>::start(),
    {
        Liveness { ping_timeout: None, expire_timeout: None }
    }

    /// The connection has been opened: set the ping timer and the expire
    /// timer.
    pub fn on_open(&mut self) -> (commands: Vec<Command<T>>)
        ensures
            (final(self)@, commands@) == old(self)@.react(Signal::Open),
    {
        let mut commands: Vec<Command<T>> = Vec::new();
        commands.push(Command::Schedule { token: PING, delay: PING_INTERVAL });
        commands.push(Command::Schedule { token: EXPIRE, delay: EXPIRE_WINDOW });
        assert(commands@ =~= old(self)@.react(Signal::Open).1);
        commands
    }

    /// A timer has fired. The ping timer sends a ping and sets itself
    /// again, the expire timer closes the connection. A token that the
    /// machine never set a timer with is an error, and changes nothing.
    pub fn on_timeout(&mut self, token: usize) -> (commands: Result<Vec<Command<T>>, TimeoutError>)
        ensures
            final(self)@ == old(self)@.react(Signal::Timeout { token }).0,
            match commands {
                Ok(list) => LivenessView::<T>::knows(token) && list@ == old(self)@.react(
                    Signal::Timeout { token },
                ).1,
                Err(error) => !LivenessView::<T>::knows(token) && error
                    == TimeoutError::InvalidToken,
            },
    {
        let mut commands: Vec<Command<T>> = Vec::new();
        if token == PING {
            self.ping_timeout = None;
            commands.push(Command::SendPing);
            commands.push(Command::Schedule { token: PING, delay: PING_INTERVAL });
        } else if token == EXPIRE {
            commands.push(Command::Close);
        } else {
            return Err(TimeoutError::InvalidToken);
        }
        assert(commands@ =~= old(self)@.react(Signal::Timeout { token }).1);
        Ok(commands)
    }

    /// A timer has been set. Its handle takes the place of the one held
    /// for the same purpose, which is cancelled.
    pub fn on_new_timeout(&mut self, token: usize, timeout: T) -> (commands: Vec<Command<T>>)
        ensures
            (final(self)@, commands@) == old(self)@.react(Signal::NewTimeout { token, timeout }),
            commands@.len() <= 1,
    {
        let mut commands: Vec<Command<T>> = Vec::new();
        if token == EXPIRE {
            take_slot(&mut self.expire_timeout, &mut commands);
            self.expire_timeout = Some(timeout);
        } else {
            take_slot(&mut self.ping_timeout, &mut commands);
            self.ping_timeout = Some(timeout);
        }
        commands
    }

    /// A frame has come in: the connection is alive, so the expire timer
    /// is set anew.
    pub fn on_frame(&mut self) -> (commands: Vec<Command<T>>)
        ensures
            (final(self)@, commands@) == old(self)@.react(Signal::Frame),
    {
        let mut commands: Vec<Command<T>> = Vec::new();
        commands.push(Command::Schedule { token: EXPIRE, delay: EXPIRE_WINDOW });
        assert(commands@ =~= old(self)@.react(Signal::Frame).1);
        commands
    }

    /// The connection has been closed: cancel the timers that are held.
    pub fn on_close(&mut self) -> (commands: Vec<Command<T>>)
        ensures
            (final(self)@, commands@) == old(self)@.react(Signal::Closed),
    {
        let mut commands: Vec<Command<T>> = Vec::new();
        take_slot(&mut self.ping_timeout, &mut commands);
        take_slot(&mut self.expire_timeout, &mut commands);
        commands
    }

    /// The transport has failed: shut the connection down.
    pub fn on_error(&mut self) -> (commands: Vec<Command<T>>)
        ensures
            (final(self)@, commands@) == old(self)@.react(Signal::Error),
    {
        let mut commands: Vec<Command<T>> = Vec::new();
        commands.push(Command::Shutdown);
        assert(commands@ =~= old(self)@.react(Signal::Error).1);
        commands
    }
}

/// The state after a sequence of events.
pub open spec fn state_after<T>(state: LivenessView<T>, events: Seq<Signal<T>>) -> LivenessView<T>
    decreases events.len(),
{
    if events.len() == 0 {
        state
    } else {
        state_after(state, events.drop_last()).react(events.last()).0
    }
}

/// How many of the commands close the connection.
pub open spec fn closes<T>(commands: Seq<Command<T>>) -> nat
    decreases commands.len(),
{
    if commands.len() == 0 {
        0
    } else if commands.last() is Close {
        closes(commands.drop_last()) + 1
    } else {
        closes(commands.drop_last())
    }
}

/// How often the machine asks for the connection to be closed during a
/// sequence of events.
pub open spec fn closes_during<T>(state: LivenessView<T>, events: Seq<Signal<T>>) -> nat
    decreases events.len(),
{
    if events.len() == 0 {
        0
    } else {
        closes_during(state, events.drop_last()) + closes(
            state_after(state, events.drop_last()).react(events.last()).1,
        )
    }
}

/// Whether the event is the firing of the expire timer.
pub open spec fn is_expiry<T>(event: Signal<T>) -> bool {
    event is Timeout && event->Timeout_token == EXPIRE
}

/// How often the expire timer fires in a sequence of events.
pub open spec fn expiries<T>(events: Seq<Signal<T>>) -> nat
    decreases events.len(),
{
    if events.len() == 0 {
        0
    } else if is_expiry(events.last()) {
        expiries(events.drop_last()) + 1
    } else {
        expiries(events.drop_last())
    }
}

/// The machine asks for the connection to be closed when the expire
/// timer fires, once each time, and on no other event, whatever its
/// state.
pub proof fn lemma_close_on_expiry<T>(state: LivenessView<T>, event: Signal<T>)
    ensures
        closes(state.react(event).1) == (if is_expiry(event) {
            1nat
        } else {
            0nat
        }),
{
    let commands = state.react(event).1;
    reveal_with_fuel(closes, 4);
    match event {
        Signal::Open => {
            assert(commands.drop_last() =~= seq![
                Command::<T>::Schedule { token: PING, delay: PING_INTERVAL },
            ]);
            assert(commands.drop_last().drop_last() =~= Seq::<Command<T>>::empty());
        },
        Signal::Timeout { token } => {
            if token == PING {
                assert(commands.drop_last() =~= seq![Command::<T>::SendPing]);
                assert(commands.drop_last().drop_last() =~= Seq::<Command<T>>::empty());
            } else if token == EXPIRE {
                assert(commands.drop_last() =~= Seq::<Command<T>>::empty());
            }
        },
        Signal::NewTimeout { token, timeout } => {
            if commands.len() > 0 {
                assert(commands.drop_last() =~= Seq::<Command<T>>::empty());
            }
        },
        Signal::Frame => {
            assert(commands.drop_last() =~= Seq::<Command<T>>::empty());
        },
        Signal::Closed => {
            let first = cancel_of(state.ping_timeout);
            let second = cancel_of(state.expire_timeout);
            if second.len() > 0 {
                assert(commands.drop_last() =~= first);
                if first.len() > 0 {
                    assert(first.drop_last() =~= Seq::<Command<T>>::empty());
                }
            } else {
                assert(commands =~= first);
                if first.len() > 0 {
                    assert(first.drop_last() =~= Seq::<Command<T>>::empty());
                }
            }
        },
        Signal::Error => {
            assert(commands.drop_last() =~= Seq::<Command<T>>::empty());
        },
    }
}

/// Whatever happens on a connection, the machine asks for it to be closed
/// as often as the expire timer fires. Where that timer fires once, the
/// connection is closed once.
pub proof fn lemma_closes_as_often_as_expired<T>(state: LivenessView<T>, events: Seq<Signal<T>>)
    ensures
        closes_during(state, events) == expiries(events),
    decreases events.len(),
{
    if events.len() > 0 {
        lemma_closes_as_often_as_expired(state, events.drop_last());
        lemma_close_on_expiry(state_after(state, events.drop_last()), events.last());
    }
}

/// In every state, a frame sets the expire timer anew and nothing else,
/// the ping timer sends one ping and sets itself again after the ping
/// interval, and the expire timer closes the connection.
pub proof fn lemma_reactions<T>(state: LivenessView<T>)
    ensures
        state.react(Signal::Frame).1 == seq![
            Command::<T>::Schedule { token: EXPIRE, delay: EXPIRE_WINDOW },
        ],
        state.react(Signal::Timeout { token: PING }).1 == seq![
            Command::<T>::SendPing,
            Command::<T>::Schedule { token: PING, delay: PING_INTERVAL },
        ],
        state.react(Signal::Timeout { token: EXPIRE }).1 == seq![Command::<T>::Close],
        state.react(Signal::Open).1 == seq![
            Command::<T>::Schedule { token: PING, delay: PING_INTERVAL },
            Command::<T>::Schedule { token: EXPIRE, delay: EXPIRE_WINDOW },
        ],
{
}

} // verus!
