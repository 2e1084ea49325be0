//! Reading and writing on a connection that may not be ready yet.
//!
//! On some systems a connection is handed out before its handshake is through.
//! An operation on it then fails for a while; it is tried again once the
//! connection reports itself ready.

use crate::text;
use crate::wire;
use vstd::prelude::*;

verus! {

/// Why an operation failed.
#[derive(Clone, Copy, Debug, PartialEq, Eq, Structural)]
pub enum FaultKind {
    NotConnected,
    WouldBlock,
    Other,
}

/// Which way an operation goes.
#[derive(Clone, Copy, Debug, PartialEq, Eq, Structural)]
pub enum Direction {
    Read,
    Write,
}

/// What became of the last attempt, or of waiting for the next one.
#[derive(Debug, PartialEq, Eq)]
pub enum Attempt<T> {
    /// The operation succeeded, with this value.
    Done(T),
    /// The operation failed.
    Faulted { kind: FaultKind, reason: String },
    /// The connection reports itself ready.
    Ready,
    /// Waiting for the connection failed.
    WaitFailed(String),
}

/// What to do next.
#[derive(Debug, PartialEq, Eq)]
pub enum Retry<T> {
    /// Try the whole operation again.
    Again,
    /// Wait until the connection is ready.
    Wait,
    /// Stop, with this result.
    Finish(Result<T, String>),
}

/// Whether an operation that failed so is worth another try.
pub open spec fn is_transient(kind: FaultKind) -> bool {
    kind is NotConnected || kind is WouldBlock
}

/// How a failed operation is reported.
pub open spec fn fault_report(direction: Direction, reason: Seq<char>) -> Seq<char> {
    match direction {
        Direction::Read => "read failed: "@ + reason,
        Direction::Write => "write failed: "@ + reason,
    }
}

/// How it is reported that waiting failed.
pub open spec fn wait_report(direction: Direction, reason: Seq<char>) -> Seq<char> {
    match direction {
        Direction::Read => "readable wait failed: "@ + reason,
        Direction::Write => "writable wait failed: "@ + reason,
    }
}

/// Whether `next` is what follows `attempt`.
pub open spec fn is_retry_after<T>(
    direction: Direction,
    attempt: Attempt<T>,
    next: Retry<T>,
) -> bool {
    match attempt {
        Attempt::Done(value) => next == Retry::Finish(Ok::<T, String>(value)),
        Attempt::Faulted { kind, reason } => if is_transient(kind) {
            next is Wait
        } else {
            next matches Retry::Finish(Err(message)) && message@ == fault_report(
                direction,
                reason@,
            )
        },
        Attempt::Ready => next is Again,
        Attempt::WaitFailed(reason) => next matches Retry::Finish(Err(message)) && message@
            == wait_report(direction, reason@),
    }
}

fn next_try<T>(direction: Direction, attempt: Attempt<T>) -> (next: Retry<T>)
    ensures
        is_retry_after(direction, attempt, next),
{
    match attempt {
        Attempt::Done(value) => Retry::Finish(Ok(value)),
        Attempt::Faulted { kind: FaultKind::NotConnected, .. } => Retry::Wait,
        Attempt::Faulted { kind: FaultKind::WouldBlock, .. } => Retry::Wait,
        Attempt::Faulted { kind: FaultKind::Other, reason } => Retry::Finish(
            Err(
                match direction {
                    Direction::Read => text::prefixed("read failed: ", reason.as_str()),
                    Direction::Write => text::prefixed("write failed: ", reason.as_str()),
                },
            ),
        ),
        Attempt::Ready => Retry::Again,
        Attempt::WaitFailed(reason) => Retry::Finish(
            Err(
                match direction {
                    Direction::Read => text::prefixed("readable wait failed: ", reason.as_str()),
                    Direction::Write => text::prefixed("writable wait failed: ", reason.as_str()),
                },
            ),
        ),
    }
}

/// Decides what follows an attempt to write all of a message: a transient fault
/// leads to waiting and to another attempt, any other ends the writing.
pub fn write_all_retry(attempt: Attempt<()>) -> (next: Retry<()>)
    ensures
        is_retry_after(Direction::Write, attempt, next),
{
    next_try(Direction::Write, attempt)
}

/// Decides what follows an attempt to read some bytes: a transient fault leads
/// to waiting and to another attempt, any other ends the reading.
pub fn read_byte_with_retry(attempt: Attempt<Vec<u8>>) -> (next: Retry<Vec<u8>>)
    ensures
        is_retry_after(Direction::Read, attempt, next),
{
    next_try(Direction::Read, attempt)
}

/// What came of the last read.
#[derive(Debug, PartialEq, Eq)]
pub enum Read {
    /// Nothing was read yet.
    Started,
    /// These bytes came; none at the end of the stream.
    Bytes(Vec<u8>),
    /// The read failed, for the reason given.
    Failed(String),
}

/// What an exact read does next.
#[derive(Debug, PartialEq, Eq)]
pub enum ExactRead {
    /// Read at most this many bytes, to follow those gathered so far.
    More { gathered: Vec<u8>, at_most: usize },
    /// Stop, with this result.
    Finish(Result<Vec<u8>, String>),
}

/// The model of a [`Read`].
pub enum ReadView {
    Started,
    Bytes(Seq<u8>),
    Failed(Seq<char>),
}

/// The model of an [`ExactRead`].
pub enum ExactReadView {
    More { gathered: Seq<u8>, at_most: nat },
    Finish(Result<Seq<u8>, Seq<char>>),
}

impl View for Read {
    type V = ReadView;

    open spec fn view(&self) -> ReadView {
        match *self {
            Read::Started => ReadView::Started,
            Read::Bytes(bytes) => ReadView::Bytes(bytes@),
            Read::Failed(reason) => ReadView::Failed(reason@),
        }
    }
}

impl View for ExactRead {
    type V = ExactReadView;

    open spec fn view(&self) -> ExactReadView {
        match *self {
            ExactRead::More { gathered, at_most } => ExactReadView::More {
                gathered: gathered@,
                at_most: at_most as nat,
            },
            ExactRead::Finish(result) => ExactReadView::Finish(wire::result_view(result)),
        }
    }
}

/// What follows once `gathered` was read of the `want` bytes asked for.
pub open spec fn gathered_so_far(gathered: Seq<u8>, want: nat) -> ExactReadView {
    if gathered.len() < want {
        ExactReadView::More { gathered, at_most: (want - gathered.len()) as nat }
    } else {
        ExactReadView::Finish(Ok(gathered))
    }
}

/// The step of reading exactly `want` bytes.
pub open spec fn exact_step(gathered: Seq<u8>, want: nat, read: ReadView) -> ExactReadView {
    match read {
        ReadView::Started => gathered_so_far(gathered, want),
        ReadView::Bytes(bytes) => if bytes.len() == 0 {
            ExactReadView::Finish(Err("connection closed"@))
        } else {
            gathered_so_far(gathered + bytes, want)
        },
        ReadView::Failed(reason) => ExactReadView::Finish(Err(reason)),
    }
}

/// Takes the next step of reading exactly `want` bytes: it reads on until they
/// are there, and fails when the stream ends before.
pub fn read_exact_with_retry(gathered: Vec<u8>, want: usize, read: Read) -> (next: ExactRead)
    ensures
        next@ == exact_step(gathered@, want as nat, read@),
{
    let mut gathered = gathered;
    match read {
        Read::Started => {},
        Read::Bytes(bytes) => {
            if bytes.len() == 0 {
                return ExactRead::Finish(Err("connection closed".to_owned()));
            }
            let mut bytes = bytes;
            gathered.append(&mut bytes);
        },
        Read::Failed(reason) => {
            return ExactRead::Finish(Err(reason));
        },
    }
    if gathered.len() < want {
        let at_most = want - gathered.len();
        ExactRead::More { gathered, at_most }
    } else {
        ExactRead::Finish(Ok(gathered))
    }
}

// ---------------------------------------------------------------------------
// Laws
// ---------------------------------------------------------------------------

/// How many bytes a read brings when at most `at_most` were asked for and
/// `here` are there: as many as `cuts` says next, but one at least, and no more
/// than possible.
pub open spec fn bytes_brought(cuts: Seq<nat>, at_most: nat, here: nat) -> nat {
    let most = if at_most < here {
        at_most
    } else {
        here
    };
    if cuts.len() == 0 || cuts[0] > most {
        most
    } else if cuts[0] == 0 && most > 0 {
        1
    } else {
        cuts[0]
    }
}

/// What an exact read comes to from `state` on, and the part of `stream` that
/// it leaves, when the bytes of `stream` arrive in pieces as `cuts` says.
pub open spec fn exact_run(
    state: ExactReadView,
    want: nat,
    stream: Seq<u8>,
    cuts: Seq<nat>,
) -> (Result<Seq<u8>, Seq<char>>, Seq<u8>)
    decreases stream.len(), (if state is More { 1nat } else { 0nat }),
{
    match state {
        ExactReadView::Finish(result) => (result, stream),
        ExactReadView::More { gathered, at_most } => {
            let n = bytes_brought(cuts, at_most, stream.len());
            let next = exact_step(gathered, want, ReadView::Bytes(stream.take(n as int)));
            let later = if cuts.len() == 0 {
                cuts
            } else {
                cuts.drop_first()
            };
            if n == 0 && next is More {
                arbitrary()
            } else {
                exact_run(next, want, stream.skip(n as int), later)
            }
        },
    }
}

proof fn lemma_exact_run(gathered: Seq<u8>, want: nat, stream: Seq<u8>, cuts: Seq<nat>)
    requires
        gathered.len() <= want,
    ensures
        ({
            let (result, rest) = exact_run(gathered_so_far(gathered, want), want, stream, cuts);
            let missing = want - gathered.len();
            &&& missing <= stream.len() ==> result == Ok::<Seq<u8>, Seq<char>>(
                gathered + stream.take(missing),
            ) && rest == stream.skip(missing)
            &&& missing > stream.len() ==> result == Err::<Seq<u8>, Seq<char>>(
                "connection closed"@,
            )
        }),
    decreases stream.len(),
{
    let missing = want - gathered.len();
    let at_most = missing as nat;
    if missing == 0 {
        assert(gathered + stream.take(0) =~= gathered);
        assert(stream.skip(0) =~= stream);
    } else {
        let n = bytes_brought(cuts, at_most, stream.len()) as int;
        let later = if cuts.len() == 0 {
            cuts
        } else {
            cuts.drop_first()
        };
        let piece = stream.take(n);
        let next = exact_step(gathered, want, ReadView::Bytes(piece));
        let state = gathered_so_far(gathered, want);
        if n == 0 {
            assert(next == ExactReadView::Finish(Err("connection closed"@)));
            assert(exact_run(next, want, stream.skip(n), later).0 == Err::<Seq<u8>, Seq<char>>(
                "connection closed"@,
            ));
            assert(exact_run(state, want, stream, cuts) == exact_run(
                next,
                want,
                stream.skip(n),
                later,
            ));
        } else {
            lemma_exact_run(gathered + piece, want, stream.skip(n), later);
            assert(exact_run(state, want, stream, cuts) == exact_run(
                next,
                want,
                stream.skip(n),
                later,
            ));
            if missing <= stream.len() {
                assert(gathered + piece + stream.skip(n).take(missing - n) =~= gathered
                    + stream.take(missing));
                assert(stream.skip(n).skip(missing - n) =~= stream.skip(missing));
            }
        }
    }
}

/// However the stream is cut into pieces, an exact read gives its first `want`
/// bytes and leaves the others; it fails exactly when there are fewer.
pub proof fn law_exact_read_ignores_pieces(want: nat, stream: Seq<u8>, cuts: Seq<nat>)
    ensures
        ({
            let start = exact_step(seq![], want, ReadView::Started);
            let (result, rest) = exact_run(start, want, stream, cuts);
            if want <= stream.len() {
                result == Ok::<Seq<u8>, Seq<char>>(stream.take(want as int)) && rest
                    == stream.skip(want as int)
            } else {
                result == Err::<Seq<u8>, Seq<char>>("connection closed"@)
            }
        }),
{
    lemma_exact_run(seq![], want, stream, cuts);
    if want <= stream.len() {
        assert(seq![] + stream.take(want as int) =~= stream.take(want as int));
    }
}

/// A connection that is not ready is waited for, and once it is ready the whole
/// operation is tried again; an operation that succeeded is over, with its
/// value; and any other fault ends it, told apart by what failed.
pub proof fn law_retries<T>(
    attempt: Attempt<T>,
    read: Retry<T>,
    write: Retry<T>,
)
    requires
        is_retry_after(Direction::Read, attempt, read),
        is_retry_after(Direction::Write, attempt, write),
    ensures
        attempt matches Attempt::Done(value) ==> read == Retry::Finish(Ok::<T, String>(value))
            && write == Retry::Finish(Ok::<T, String>(value)),
        attempt is Ready ==> read is Again && write is Again,
        attempt matches Attempt::Faulted { kind, reason } ==> if kind is Other {
            &&& read matches Retry::Finish(Err(message)) && message@ == "read failed: "@ + reason@
            &&& write matches Retry::Finish(Err(message)) && message@ == "write failed: "@
                + reason@
        } else {
            read is Wait && write is Wait
        },
        attempt matches Attempt::WaitFailed(reason) ==> {
            &&& read matches Retry::Finish(Err(message)) && message@ == "readable wait failed: "@
                + reason@
            &&& write matches Retry::Finish(Err(message)) && message@ == "writable wait failed: "@
                + reason@
        },
{
}

/// An exact read asks for what is missing and for no more, keeps what it has in
/// order, and passes a failure on as it is.
pub proof fn law_exact_read_asks_for_what_is_missing(
    gathered: Seq<u8>,
    want: nat,
    bytes: Seq<u8>,
    reason: Seq<char>,
)
    ensures
        exact_step(gathered, want, ReadView::Failed(reason)) == ExactReadView::Finish(
            Err::<Seq<u8>, Seq<char>>(reason),
        ),
        exact_step(gathered, want, ReadView::Bytes(seq![])) == ExactReadView::Finish(
            Err::<Seq<u8>, Seq<char>>("connection closed"@),
        ),
        bytes.len() > 0 ==> exact_step(gathered, want, ReadView::Bytes(bytes)) == exact_step(
            gathered + bytes,
            want,
            ReadView::Started,
        ),
        match exact_step(gathered, want, ReadView::Started) {
            ExactReadView::More { gathered: kept, at_most } => {
                &&& kept == gathered
                &&& at_most > 0
                &&& gathered.len() + at_most == want
            },
            ExactReadView::Finish(result) => {
                &&& result == Ok::<Seq<u8>, Seq<char>>(gathered)
                &&& gathered.len() >= want
            },
        },
{
}

} // verus!
