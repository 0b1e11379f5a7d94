use vstd::prelude::*;

verus! {

/// Where the connection stands.
#[derive(Debug, Clone, Copy, PartialEq, Eq, Structural)]
pub enum Phase {
    /// No connection; the next attempt comes after the backoff.
    Disconnected,
    /// A connection is being opened.
    Connecting,
    /// Registered and reading.
    Connected,
    /// Quitting after a cancellation.
    ShuttingDown,
    /// Finished: the process may exit.
    Done,
}

/// What the outside world reports.
#[derive(Debug, Clone, Copy, PartialEq, Eq, Structural)]
pub enum Event {
    /// The backoff is over (or the process just started).
    Ready,
    /// The transport is open.
    ConnectOk,
    /// The registration lines were sent.
    Registered,
    /// Opening the transport failed.
    ConnectFailed,
    /// A read ended by its timeout: no data, no error.
    ReadTimeout,
    /// A read brought data.
    ReadData,
    /// Reading or writing failed: the session is over.
    TransportFailed,
    /// The quit was sent and the transport closed.
    Closed,
}

/// What to do next.
#[derive(Debug, Clone, Copy, PartialEq, Eq, Structural)]
pub enum Directive {
    /// Open the transport.
    Connect,
    /// Send the registration lines.
    Register,
    /// Read again.
    Read,
    /// Hand the data to the dispatcher, write its replies, then read.
    Handle,
    /// Close the transport, logging any failure, then wait the backoff.
    CloseAndWait,
    /// Wait the backoff.
    Wait,
    /// Send the quit notice and close the transport.
    QuitAndClose,
    /// Stop.
    Exit,
}

/// Milliseconds to wait before a new connection attempt.
pub const BACKOFF_MS: u64 = 5000;

/// The quit reason sent on shutdown.
pub const QUIT_REASON: &'static str = "out";

/// The supervisor's transitions. An open transport is always registered first; a
/// cancellation seen while connected then quits gracefully, and seen elsewhere ends the run.
/// Without one, a failed attempt or a failed session waits the backoff (closing the transport
/// first), timeouts read again and data is handled.
pub open spec fn step_spec(p: Phase, e: Event, cancelled: bool) -> (Phase, Directive) {
    match p {
        Phase::Done => (Phase::Done, Directive::Exit),
        Phase::ShuttingDown => if e == Event::Closed {
            (Phase::Done, Directive::Exit)
        } else {
            (Phase::ShuttingDown, Directive::QuitAndClose)
        },
        Phase::Connected => if cancelled {
            (Phase::ShuttingDown, Directive::QuitAndClose)
        } else if e == Event::ReadTimeout || e == Event::Registered {
            (Phase::Connected, Directive::Read)
        } else if e == Event::ReadData {
            (Phase::Connected, Directive::Handle)
        } else {
            (Phase::Disconnected, Directive::CloseAndWait)
        },
        Phase::Connecting => if e == Event::ConnectOk {
            (Phase::Connected, Directive::Register)
        } else if cancelled {
            (Phase::Done, Directive::Exit)
        } else {
            (Phase::Disconnected, Directive::Wait)
        },
        Phase::Disconnected => if cancelled {
            (Phase::Done, Directive::Exit)
        } else if e == Event::Ready {
            (Phase::Connecting, Directive::Connect)
        } else {
            (Phase::Disconnected, Directive::Wait)
        },
    }
}

/// The supervisor's next phase and directive.
pub fn step(p: Phase, e: Event, cancelled: bool) -> (r: (Phase, Directive))
    ensures
        r == step_spec(p, e, cancelled),
        cancelled && p == Phase::Connected ==> r == (Phase::ShuttingDown, Directive::QuitAndClose),
        r.0 == Phase::Connecting ==> p == Phase::Disconnected,
{
    match p {
        Phase::Done => (Phase::Done, Directive::Exit),
        Phase::ShuttingDown => {
            if e == Event::Closed {
                (Phase::Done, Directive::Exit)
            } else {
                (Phase::ShuttingDown, Directive::QuitAndClose)
            }
        },
        Phase::Connected => {
            if cancelled {
                (Phase::ShuttingDown, Directive::QuitAndClose)
            } else if e == Event::ReadTimeout || e == Event::Registered {
                (Phase::Connected, Directive::Read)
            } else if e == Event::ReadData {
                (Phase::Connected, Directive::Handle)
            } else {
                (Phase::Disconnected, Directive::CloseAndWait)
            }
        },
        Phase::Connecting => {
            if e == Event::ConnectOk {
                (Phase::Connected, Directive::Register)
            } else if cancelled {
                (Phase::Done, Directive::Exit)
            } else {
                (Phase::Disconnected, Directive::Wait)
            }
        },
        Phase::Disconnected => {
            if cancelled {
                (Phase::Done, Directive::Exit)
            } else if e == Event::Ready {
                (Phase::Connecting, Directive::Connect)
            } else {
                (Phase::Disconnected, Directive::Wait)
            }
        },
    }
}

/// A session ends only by closing its transport: every way out of `Connected` closes it
/// (after a failure) or quits and closes it (after a cancellation), so a new connection never
/// opens beside an old one.
pub proof fn lemma_session_closed_before_reconnect(e: Event, cancelled: bool)
    ensures
        ({
            let (q, d) = step_spec(Phase::Connected, e, cancelled);
            q != Phase::Connected ==> d == Directive::CloseAndWait || d == Directive::QuitAndClose
        }),
        forall|p: Phase, e2: Event, c: bool|
            #[trigger] step_spec(p, e2, c).0 == Phase::Connecting ==> p == Phase::Disconnected,
{
}

/// A cancellation ends the run: with the flag set, every phase reaches `Done` within three
/// steps. A transport that has just opened is registered first, then quit and closed.
pub proof fn lemma_cancellation_ends(p: Phase, e1: Event)
    ensures
        ({
            let (q, d) = step_spec(p, e1, true);
            ||| q == Phase::Done
            ||| q == Phase::ShuttingDown && d == Directive::QuitAndClose
                && step_spec(q, Event::Closed, true).0 == Phase::Done
            ||| q == Phase::Connected && d == Directive::Register
                && step_spec(q, Event::Registered, true) == (Phase::ShuttingDown, Directive::QuitAndClose)
                && step_spec(Phase::ShuttingDown, Event::Closed, true).0 == Phase::Done
        }),
{
}

} // verus!
