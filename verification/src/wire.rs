//! What a conversation with a proxy asks of its connection, and what it hears
//! back.
//!
//! A conversation does no input or output itself. It hands out an [`Action`],
//! the caller performs it and answers with an [`Event`], and so on until
//! [`Action::Finish`].

use vstd::prelude::*;

verus! {

/// What happened on the connection since the last action.
#[derive(Debug, PartialEq, Eq)]
pub enum Event {
    /// The conversation begins: there was no action yet.
    Started,
    /// The connection to the proxy stands.
    Connected,
    /// The time allowed has passed.
    TimedOut,
    /// All bytes were sent.
    Sent,
    /// Bytes were received.
    Received(Vec<u8>),
    /// The action failed, for the reason given.
    Failed(String),
}

/// What the conversation needs next.
#[derive(Debug, PartialEq, Eq)]
pub enum Action<T> {
    /// Connect to the proxy.
    Connect { host: String, port: u16 },
    /// Send all of these bytes.
    Send(Vec<u8>),
    /// Receive exactly this many bytes.
    Receive(usize),
    /// Receive one byte, or none at the end of the stream.
    ReceiveByte,
    /// The conversation is over, with this result.
    Finish(Result<T, String>),
}

/// The model of an [`Event`].
pub enum EventView {
    Started,
    Connected,
    TimedOut,
    Sent,
    Received(Seq<u8>),
    Failed(Seq<char>),
}

/// The model of an [`Action`].
pub enum ActionView<T> {
    Connect { host: Seq<char>, port: u16 },
    Send(Seq<u8>),
    Receive(nat),
    ReceiveByte,
    Finish(Result<T, Seq<char>>),
}

impl View for Event {
    type V = EventView;

    open spec fn view(&self) -> EventView {
        match *self {
            Event::Started => EventView::Started,
            Event::Connected => EventView::Connected,
            Event::TimedOut => EventView::TimedOut,
            Event::Sent => EventView::Sent,
            Event::Received(bytes) => EventView::Received(bytes@),
            Event::Failed(reason) => EventView::Failed(reason@),
        }
    }
}

/// The model of a result with a textual error.
pub open spec fn result_view<T: View>(result: Result<T, String>) -> Result<T::V, Seq<char>> {
    match result {
        Ok(value) => Ok(value@),
        Err(reason) => Err(reason@),
    }
}

impl<T: View> View for Action<T> {
    type V = ActionView<T::V>;

    open spec fn view(&self) -> ActionView<T::V> {
        match *self {
            Action::Connect { host, port } => ActionView::Connect { host: host@, port },
            Action::Send(bytes) => ActionView::Send(bytes@),
            Action::Receive(count) => ActionView::Receive(count as nat),
            Action::ReceiveByte => ActionView::ReceiveByte,
            Action::Finish(result) => ActionView::Finish(result_view(result)),
        }
    }
}

/// `action`, with a successful result replaced by what `judge` makes of it.
pub open spec fn concluded<T, U>(
    action: ActionView<T>,
    judge: spec_fn(T) -> Result<U, Seq<char>>,
) -> ActionView<U> {
    match action {
        ActionView::Connect { host, port } => ActionView::Connect { host, port },
        ActionView::Send(bytes) => ActionView::Send(bytes),
        ActionView::Receive(count) => ActionView::Receive(count),
        ActionView::ReceiveByte => ActionView::ReceiveByte,
        ActionView::Finish(Ok(value)) => ActionView::Finish(judge(value)),
        ActionView::Finish(Err(reason)) => ActionView::Finish(Err(reason)),
    }
}

/// Which kind of answer a conversation waits for.
#[derive(Clone, Copy, Debug, PartialEq, Eq, Structural)]
pub enum Awaiting {
    Start,
    Connection,
    Sending,
    Bytes(usize),
    Byte,
    Nothing,
}

/// The answer that `action` calls for.
pub open spec fn awaited_by<T>(action: ActionView<T>) -> Awaiting {
    match action {
        ActionView::Connect { .. } => Awaiting::Connection,
        ActionView::Send(_) => Awaiting::Sending,
        ActionView::Receive(count) => Awaiting::Bytes(count as usize),
        ActionView::ReceiveByte => Awaiting::Byte,
        ActionView::Finish(_) => Awaiting::Nothing,
    }
}

/// Whether `event` is an answer to what is awaited.
pub open spec fn is_answer(awaiting: Awaiting, event: EventView) -> bool {
    match (awaiting, event) {
        (Awaiting::Start, EventView::Started) => true,
        (Awaiting::Connection, EventView::Connected) => true,
        (Awaiting::Connection, EventView::TimedOut) => true,
        (Awaiting::Connection, EventView::Failed(_)) => true,
        (Awaiting::Sending, EventView::Sent) => true,
        (Awaiting::Sending, EventView::Failed(_)) => true,
        (Awaiting::Bytes(count), EventView::Received(bytes)) => bytes.len() == count,
        (Awaiting::Bytes(_), EventView::Failed(_)) => true,
        (Awaiting::Byte, EventView::Received(bytes)) => bytes.len() <= 1,
        (Awaiting::Byte, EventView::Failed(_)) => true,
        _ => false,
    }
}

impl Event {
    /// Whether this event is an answer to what is awaited.
    pub fn answers(&self, awaiting: Awaiting) -> (yes: bool)
        ensures
            yes == is_answer(awaiting, self@),
    {
        match (awaiting, self) {
            (Awaiting::Start, Event::Started) => true,
            (Awaiting::Connection, Event::Connected) => true,
            (Awaiting::Connection, Event::TimedOut) => true,
            (Awaiting::Connection, Event::Failed(_)) => true,
            (Awaiting::Sending, Event::Sent) => true,
            (Awaiting::Sending, Event::Failed(_)) => true,
            (Awaiting::Bytes(count), Event::Received(bytes)) => bytes.len() == count,
            (Awaiting::Bytes(_), Event::Failed(_)) => true,
            (Awaiting::Byte, Event::Received(bytes)) => bytes.len() <= 1,
            (Awaiting::Byte, Event::Failed(_)) => true,
            _ => false,
        }
    }
}

// ---------------------------------------------------------------------------
// Whole conversations
// ---------------------------------------------------------------------------

/// What a conversation hears from a proxy that is there, takes all it is sent
/// and answers with `stream`. When `stream` runs out, a byte is not there and
/// reading more fails for the reason `end`.
pub open spec fn heard(awaiting: Awaiting, stream: Seq<u8>, end: Seq<char>) -> EventView {
    match awaiting {
        Awaiting::Start => EventView::Started,
        Awaiting::Connection => EventView::Connected,
        Awaiting::Bytes(count) => if count <= stream.len() {
            EventView::Received(stream.take(count as int))
        } else {
            EventView::Failed(end)
        },
        Awaiting::Byte => if stream.len() == 0 {
            EventView::Received(stream)
        } else {
            EventView::Received(stream.take(1))
        },
        _ => EventView::Sent,
    }
}

/// The part of `stream` that is left once the conversation heard what it awaits.
pub open spec fn left_unread(awaiting: Awaiting, stream: Seq<u8>) -> Seq<u8> {
    match awaiting {
        Awaiting::Bytes(count) => if count <= stream.len() {
            stream.skip(count as int)
        } else {
            stream
        },
        Awaiting::Byte => if stream.len() == 0 {
            stream
        } else {
            stream.skip(1)
        },
        _ => stream,
    }
}

/// The course of a conversation.
pub struct Course<T> {
    /// Its result.
    pub result: Result<T, Seq<char>>,
    /// The hosts and ports that were connected to, in order.
    pub dialled: Seq<(Seq<char>, u16)>,
    /// The messages sent, in order.
    pub sent: Seq<Seq<u8>>,
    /// The part of the proxy's bytes that was not read.
    pub rest: Seq<u8>,
}

/// The course of a conversation whose next action is `action`, where `later` is
/// its course from there on and `rest` is not read yet.
pub open spec fn continued<T>(action: ActionView<T>, rest: Seq<u8>, later: Course<T>) -> Course<T> {
    match action {
        ActionView::Finish(result) => Course { result, dialled: seq![], sent: seq![], rest },
        ActionView::Connect { host, port } => Course {
            dialled: seq![(host, port)] + later.dialled,
            ..later
        },
        ActionView::Send(message) => Course { sent: seq![message] + later.sent, ..later },
        _ => later,
    }
}

/// `course`, with a successful result replaced by what `judge` makes of it.
pub open spec fn judged<T, U>(
    course: Course<T>,
    judge: spec_fn(T) -> Result<U, Seq<char>>,
) -> Course<U> {
    Course {
        result: match course.result {
            Ok(value) => judge(value),
            Err(reason) => Err(reason),
        },
        dialled: course.dialled,
        sent: course.sent,
        rest: course.rest,
    }
}

// ---------------------------------------------------------------------------
// Laws
// ---------------------------------------------------------------------------

/// What a conversation hears answers what it awaits, unless it awaits nothing.
/// A start is answered by the start alone; a failure answers everything else;
/// time may run out while the connection is made; and bytes answer a request
/// for bytes exactly when they are as many as were asked for, or one at most
/// where a byte was.
pub proof fn law_answers(awaiting: Awaiting, event: EventView, stream: Seq<u8>, end: Seq<char>)
    ensures
        !(awaiting is Nothing) ==> is_answer(awaiting, heard(awaiting, stream, end)),
        awaiting is Nothing ==> !is_answer(awaiting, event),
        event is Started ==> (is_answer(awaiting, event) <==> awaiting is Start),
        event is Connected ==> (is_answer(awaiting, event) <==> awaiting is Connection),
        event is TimedOut ==> (is_answer(awaiting, event) <==> awaiting is Connection),
        event is Sent ==> (is_answer(awaiting, event) <==> awaiting is Sending),
        event is Failed ==> (is_answer(awaiting, event) <==> !(awaiting is Start || awaiting is Nothing)),
        event matches EventView::Received(bytes) ==> (is_answer(awaiting, event) <==> awaiting
            == Awaiting::Bytes(bytes.len() as usize) && bytes.len() <= usize::MAX || awaiting is Byte
            && bytes.len() <= 1),
{
}

} // verus!
