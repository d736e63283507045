//! The connection to the dump server: connect once per request, write without
//! waiting, and never try again after a failure.
//!
//! [`Conn`] decides what is done next; its caller owns the socket, does it,
//! and reports how it went.

use vstd::prelude::*;

verus! {

/// The address that is connected to: the loopback interface, and nothing else.
pub const LOOPBACK: [u8; 4] = [127, 0, 0, 1];

/// How long a connect may take, in milliseconds: too short to be noticed.
pub const CONNECT_TIMEOUT_MS: u64 = 50;

/// The connection of one request.
#[derive(Debug, Clone, Copy, PartialEq, Eq, Structural)]
pub enum Conn {
    /// No connect has been attempted.
    Idle,
    /// The connect is under way.
    Connecting,
    /// There is a connection.
    Live,
    /// The connect or a write failed.
    Dead,
}

/// What happens to a connection.
#[derive(Debug, Clone, Copy, PartialEq, Eq, Structural)]
pub enum ConnEvent {
    /// A line is to be sent.
    Send,
    /// A connect was attempted, and whether it succeeded.
    Connected(bool),
    /// A line was written, and whether it was written whole.
    Written(bool),
}

/// What is to be done next.
#[derive(Debug, Clone, Copy, PartialEq, Eq, Structural)]
pub enum ConnAction {
    /// Connect, and report whether that succeeded.
    Connect,
    /// Write the line, and report whether that succeeded.
    Write,
    /// Nothing more for this line.
    Done,
}

/// The connection after an event, and what is to be done next.
pub open spec fn conn_step(conn: Conn, event: ConnEvent) -> (Conn, ConnAction) {
    match (conn, event) {
        (Conn::Idle, ConnEvent::Send) => (Conn::Connecting, ConnAction::Connect),
        (Conn::Live, ConnEvent::Send) => (Conn::Live, ConnAction::Write),
        (Conn::Connecting, ConnEvent::Connected(ok)) => if ok {
            (Conn::Live, ConnAction::Write)
        } else {
            (Conn::Dead, ConnAction::Done)
        },
        (Conn::Live, ConnEvent::Written(ok)) => if ok {
            (Conn::Live, ConnAction::Done)
        } else {
            (Conn::Dead, ConnAction::Done)
        },
        _ => (conn, ConnAction::Done),
    }
}

impl Conn {
    /// Takes an event, and returns what is to be done next.
    pub fn send(&mut self, event: ConnEvent) -> (action: ConnAction)
        ensures
            (*final(self), action) == conn_step(*old(self), event),
    {
        match (*self, event) {
            (Conn::Idle, ConnEvent::Send) => {
                *self = Conn::Connecting;
                ConnAction::Connect
            },
            (Conn::Live, ConnEvent::Send) => ConnAction::Write,
            (Conn::Connecting, ConnEvent::Connected(ok)) => if ok {
                *self = Conn::Live;
                ConnAction::Write
            } else {
                *self = Conn::Dead;
                ConnAction::Done
            },
            (Conn::Live, ConnEvent::Written(ok)) => if ok {
                ConnAction::Done
            } else {
                *self = Conn::Dead;
                ConnAction::Done
            },
            _ => ConnAction::Done,
        }
    }
}

/// The connection after `events`, in order, from the start of the request.
pub open spec fn conn_after(events: Seq<ConnEvent>) -> Conn
    decreases events.len(),
{
    if events.len() == 0 {
        Conn::Idle
    } else {
        conn_step(conn_after(events.drop_last()), events.last()).0
    }
}

/// What was to be done after the event at `i`.
pub open spec fn action_at(events: Seq<ConnEvent>, i: int) -> ConnAction {
    conn_step(conn_after(events.take(i)), events[i]).1
}

proof fn lemma_conn_settled(events: Seq<ConnEvent>, i: int, j: int)
    requires
        0 <= i <= j <= events.len(),
    ensures
        conn_after(events.take(i)) is Dead ==> conn_after(events.take(j)) is Dead,
        !(conn_after(events.take(i)) is Idle) ==> !(conn_after(events.take(j)) is Idle),
    decreases j - i,
{
    if i < j {
        lemma_conn_settled(events, i, j - 1);
        assert(events.take(j).drop_last() == events.take(j - 1));
    }
}

/// A connect is attempted at most once per request, whatever happens.
pub proof fn law_at_most_one_connect(events: Seq<ConnEvent>, i: int, j: int)
    requires
        0 <= i < j < events.len(),
        action_at(events, i) is Connect,
    ensures
        !(action_at(events, j) is Connect),
{
    assert(events.take(i + 1).drop_last() == events.take(i));
    lemma_conn_settled(events, i + 1, j);
}

/// After a failed connect or a failed write nothing is done for the rest of
/// the request: no second connect, and no continuation of a broken line.
pub proof fn law_dead_stays_dead(events: Seq<ConnEvent>, i: int, j: int)
    requires
        0 <= i <= j < events.len(),
        conn_after(events.take(i)) is Dead,
    ensures
        action_at(events, j) is Done,
        conn_after(events.take(j + 1)) is Dead,
{
    lemma_conn_settled(events, i, j);
    lemma_conn_settled(events, i, j + 1);
}

/// A line is written only after a connect has succeeded.
pub proof fn law_write_needs_a_connection(events: Seq<ConnEvent>, i: int)
    requires
        0 <= i < events.len(),
        action_at(events, i) is Write,
    ensures
        exists|j: int| 0 <= j <= i && #[trigger] events[j] == ConnEvent::Connected(true),
{
    if conn_after(events.take(i)) is Live {
        lemma_live_was_connected(events, i);
    } else {
        assert(events[i] == ConnEvent::Connected(true));
    }
}

proof fn lemma_live_was_connected(events: Seq<ConnEvent>, i: int)
    requires
        0 <= i <= events.len(),
        conn_after(events.take(i)) is Live,
    ensures
        exists|j: int| 0 <= j < i && #[trigger] events[j] == ConnEvent::Connected(true),
    decreases i,
{
    if i > 0 {
        assert(events.take(i).drop_last() == events.take(i - 1));
        if conn_after(events.take(i - 1)) is Live {
            lemma_live_was_connected(events, i - 1);
        } else {
            assert(events[i - 1] == ConnEvent::Connected(true));
        }
    }
}

/// A failure kills the connection.
pub proof fn law_failure_is_final(events: Seq<ConnEvent>, i: int)
    requires
        0 <= i < events.len(),
        (conn_after(events.take(i)) is Connecting && events[i] == ConnEvent::Connected(false)) || (
        conn_after(events.take(i)) is Live && events[i] == ConnEvent::Written(false)),
    ensures
        conn_after(events.take(i + 1)) is Dead,
{
    assert(events.take(i + 1).drop_last() == events.take(i));
}

/// The first line of a request connects. Over a live connection a line is
/// written, and a line that was written whole leaves it live: no line is held
/// back without a failure.
pub proof fn law_lines_are_sent_until_a_failure(events: Seq<ConnEvent>, ok: bool)
    ensures
        conn_step(conn_after(seq![]), ConnEvent::Send).1 is Connect,
        conn_after(seq![ConnEvent::Send, ConnEvent::Connected(ok)]) == (if ok {
            Conn::Live
        } else {
            Conn::Dead
        }),
        conn_after(events) is Live ==> conn_step(conn_after(events), ConnEvent::Send).1 is Write,
        conn_after(events) is Live ==> conn_after(events.push(ConnEvent::Send)) is Live,
        conn_after(events) is Live ==> conn_after(events.push(ConnEvent::Written(true))) is Live,
        conn_after(events) is Connecting ==> conn_step(
            conn_after(events),
            ConnEvent::Connected(true),
        ).1 is Write,
{
    assert(events.push(ConnEvent::Send).drop_last() == events);
    assert(events.push(ConnEvent::Written(true)).drop_last() == events);
    let two = seq![ConnEvent::Send, ConnEvent::Connected(ok)];
    let one = seq![ConnEvent::Send];
    assert(two.drop_last() == one);
    assert(one.drop_last() == Seq::<ConnEvent>::empty());
    assert(conn_after(Seq::<ConnEvent>::empty()) is Idle);
    assert(conn_after(one) is Connecting);
}

} // verus!
