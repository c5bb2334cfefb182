//! The decisions of the session server: which connection an event belongs
//! to, which token a new connection gets, and what to do after each write
//! to and read from a connection. The event loop itself, with its sockets,
//! lives with the caller.
use std::collections::HashSet;

use vstd::prelude::*;

verus! {

/// An event source's token.
#[derive(Clone, Copy, PartialEq, Eq, Structural, Debug, Hash)]
pub struct Token(pub usize);

/// The token of standard input.
pub const IN: usize = 0;

/// The token reserved for standard output.
pub const OUT: usize = 1;

/// The token reserved for standard error.
pub const ERR: usize = 2;

/// The token of the listening socket.
pub const SERVER: usize = 3;

/// The token of the first accepted connection.
pub const FIRST_CONNECTION: usize = SERVER + 1;

/// One call of `next`: it handed out `t` and moved the counter from
/// `before` to `after`.
pub open spec fn hands_out(before: Token, after: Token, t: Token) -> bool {
    t == before && after.0 == before.0 + 1
}

/// Hands out the token `current` holds and moves it on by one.
pub fn next(current: &mut Token) -> (t: Token)
    requires
        old(current).0 < usize::MAX,
    ensures
        t == *old(current),
        final(current).0 == old(current).0 + 1,
        hands_out(*old(current), *final(current), t),
    no_unwind
{
    let next = current.0;
    current.0 = current.0 + 1;
    Token(next)
}

/// After `i` of the calls of `next` recorded in `counters` and `tokens`,
/// the counter has moved on by `i`.
proof fn lemma_counter_after(counters: Seq<Token>, tokens: Seq<Token>, i: int)
    requires
        counters.len() == tokens.len() + 1,
        forall|k: int| 0 <= k < tokens.len() ==> hands_out(counters[k], counters[k + 1], #[trigger] tokens[k]),
        0 <= i < counters.len(),
    ensures
        counters[i].0 == counters[0].0 + i,
    decreases i,
{
    if i > 0 {
        lemma_counter_after(counters, tokens, i - 1);
        assert(hands_out(counters[i - 1], counters[i], tokens[i - 1]));
    }
}

/// Repeated calls of `next` hand out consecutive tokens: the counter starts
/// at `counters[0]`, call `k` hands out `tokens[k]` and leaves the counter at
/// `counters[k + 1]`. The tokens are the start, the start plus one, and so
/// on, so they rise strictly and are pairwise distinct; the counter ends past
/// the last of them. Counting from the first connection's token, none of them
/// is a reserved token.
pub proof fn lemma_next_hands_out_consecutive_tokens(counters: Seq<Token>, tokens: Seq<Token>)
    requires
        counters.len() == tokens.len() + 1,
        forall|k: int| 0 <= k < tokens.len() ==> hands_out(counters[k], counters[k + 1], #[trigger] tokens[k]),
    ensures
        forall|k: int| 0 <= k < tokens.len() ==> (#[trigger] tokens[k]).0 == counters[0].0 + k,
        counters.last().0 == counters[0].0 + tokens.len(),
        forall|j: int, k: int| 0 <= j < k < tokens.len() ==> (#[trigger] tokens[j]).0 < (#[trigger] tokens[k]).0,
        counters[0].0 >= FIRST_CONNECTION ==> forall|k: int|
            0 <= k < tokens.len() ==> SERVER < (#[trigger] tokens[k]).0,
{
    assert forall|k: int| 0 <= k < tokens.len() implies (#[trigger] tokens[k]).0 == counters[0].0 + k by {
        lemma_counter_after(counters, tokens, k);
        assert(hands_out(counters[k], counters[k + 1], tokens[k]));
    }
    lemma_counter_after(counters, tokens, tokens.len() as int);
}

/// Where the event loop sends an event.
#[derive(Clone, Copy, PartialEq, Eq, Structural, Debug)]
pub enum Route {
    /// Accept the pending connections.
    Server,
    /// Read a line from standard input.
    Stdin,
    /// Handle the event on this live connection.
    Connection,
    /// The token belongs to nothing live: ignore the event.
    Unknown,
}

/// The live connections of the server and the token the next one gets.
pub struct Sessions {
    unique_token: Token,
    connections: HashSet<usize>,
}

impl Sessions {
    /// Every live token lies strictly between the reserved tokens and the
    /// next token.
    #[verifier::type_invariant]
    spec fn inv(self) -> bool {
        &&& SERVER < self.unique_token.0
        &&& forall|t: usize|
            #[trigger] self.connections@.contains(t) ==> SERVER < t < self.unique_token.0
    }

    /// The token the next accepted connection gets.
    pub closed spec fn next_token(self) -> usize {
        self.unique_token.0
    }

    /// The connection with token `t` is live.
    pub closed spec fn is_live(self, t: usize) -> bool {
        self.connections@.contains(t)
    }

    /// Where an event with `token` goes.
    pub open spec fn spec_route(self, token: Token) -> Route {
        if token.0 == SERVER {
            Route::Server
        } else if token.0 == IN {
            Route::Stdin
        } else if self.is_live(token.0) {
            Route::Connection
        } else {
            Route::Unknown
        }
    }

    /// In every state, however many connections were accepted or closed, an
    /// event on the listening socket goes to `Server` and one on standard
    /// input to `Stdin`; a live connection's event goes to its connection.
    pub proof fn lemma_reserved_tokens_always_route(self, t: usize)
        ensures
            self.spec_route(Token(SERVER)) == Route::Server,
            self.spec_route(Token(IN)) == Route::Stdin,
            self.is_live(t) && t != SERVER && t != IN ==> self.spec_route(Token(t))
                == Route::Connection,
            !self.is_live(t) && t != SERVER && t != IN ==> self.spec_route(Token(t))
                == Route::Unknown,
    {
    }

    /// No live connection; the first one accepted gets the token after the
    /// listening socket's.
    pub fn new() -> (s: Sessions)
        ensures
            s.next_token() == FIRST_CONNECTION,
            forall|t: usize| !s.is_live(t),
    {
        Sessions { unique_token: Token(FIRST_CONNECTION), connections: HashSet::new() }
    }

    /// The token the next accepted connection gets.
    pub fn peek_token(&self) -> (t: Token)
        ensures
            t.0 == self.next_token(),
            SERVER < t.0,
    {
        proof {
            use_type_invariant(self);
        }
        self.unique_token
    }

    /// Where an event with `token` goes. A live connection's token is never
    /// one of the reserved tokens, so its events always reach it.
    pub fn route(&self, token: Token) -> (r: Route)
        ensures
            r == self.spec_route(token),
            self.is_live(token.0) ==> r == Route::Connection,
            token.0 == SERVER ==> r == Route::Server,
            token.0 == IN ==> r == Route::Stdin,
            token.0 != SERVER && token.0 != IN && !self.is_live(token.0) ==> r == Route::Unknown,
    {
        broadcast use vstd::std_specs::hash::group_hash_axioms;

        proof {
            use_type_invariant(self);
        }
        if token.0 == SERVER {
            Route::Server
        } else if token.0 == IN {
            Route::Stdin
        } else if self.connections.contains(&token.0) {
            Route::Connection
        } else {
            Route::Unknown
        }
    }

    /// Registers an accepted connection: it gets the next token, which no
    /// live connection has and which is greater than every token handed out
    /// before, and becomes live.
    pub fn accept(&mut self) -> (t: Token)
        requires
            old(self).next_token() < usize::MAX,
        ensures
            t.0 == old(self).next_token(),
            final(self).next_token() == t.0 + 1,
            SERVER < t.0,
            !old(self).is_live(t.0),
            forall|u: usize| old(self).is_live(u) ==> u < t.0,
            forall|u: usize| final(self).is_live(u) <==> (old(self).is_live(u) || u == t.0),
            final(self).spec_route(t) == Route::Connection,
    {
        broadcast use vstd::std_specs::hash::group_hash_axioms;

        proof {
            use_type_invariant(&*self);
        }
        let t = next(&mut self.unique_token);
        let mut connections: HashSet<usize> = HashSet::new();
        std::mem::swap(&mut connections, &mut self.connections);
        connections.insert(t.0);
        self.connections = connections;
        t
    }

    /// Forgets a closed connection: `token` is no longer live, and the next
    /// token stays as it was.
    pub fn close(&mut self, token: Token)
        ensures
            final(self).next_token() == old(self).next_token(),
            forall|u: usize| final(self).is_live(u) <==> (old(self).is_live(u) && u != token.0),
            token.0 != SERVER && token.0 != IN ==> final(self).spec_route(token) == Route::Unknown,
    {
        broadcast use vstd::std_specs::hash::group_hash_axioms;

        proof {
            use_type_invariant(&*self);
        }
        let mut connections: HashSet<usize> = HashSet::new();
        std::mem::swap(&mut connections, &mut self.connections);
        connections.remove(&token.0);
        self.connections = connections;
    }
}

/// The kinds of I/O error that the server tells apart.
#[derive(Clone, Copy, PartialEq, Eq, Structural, Debug)]
pub enum IoErrorKind {
    /// The operation would block: nothing more to do for now.
    WouldBlock,
    /// The operation was interrupted and can be tried again.
    Interrupted,
    /// Any other error.
    Other,
}

/// The error says that the operation would block.
pub fn would_block(kind: IoErrorKind) -> (b: bool)
    ensures
        b == (kind == IoErrorKind::WouldBlock),
{
    kind == IoErrorKind::WouldBlock
}

/// The error says that the operation was interrupted.
pub fn interrupted(kind: IoErrorKind) -> (b: bool)
    ensures
        b == (kind == IoErrorKind::Interrupted),
{
    kind == IoErrorKind::Interrupted
}

/// What writing the greeting to a connection gave.
#[derive(Clone, Copy, PartialEq, Eq, Structural, Debug)]
pub enum WriteOutcome {
    /// This many bytes were written.
    Written(usize),
    /// The write failed.
    Failed(IoErrorKind),
}

/// What to do after writing the greeting to a connection.
#[derive(Clone, Copy, PartialEq, Eq, Structural, Debug)]
pub enum WriteStep {
    /// All of it went out: from now on, only wait for the connection to be readable.
    Reregister,
    /// The write would block: go on with the event as it is.
    Continue,
    /// The write was interrupted: handle the event again from the start.
    Retry,
    /// Only part of it went out: fail with a "write zero" error.
    ShortWrite,
    /// Fail with the write's error.
    Fail,
}

/// The step after writing `data_len` bytes of greeting gave `outcome`.
pub open spec fn spec_write_step(outcome: WriteOutcome, data_len: usize) -> WriteStep {
    match outcome {
        WriteOutcome::Written(n) => if n < data_len {
            WriteStep::ShortWrite
        } else {
            WriteStep::Reregister
        },
        WriteOutcome::Failed(kind) => if kind == IoErrorKind::WouldBlock {
            WriteStep::Continue
        } else if kind == IoErrorKind::Interrupted {
            WriteStep::Retry
        } else {
            WriteStep::Fail
        },
    }
}

/// After writing the greeting: a write of all of it (or more) ends the
/// writing and waits only for reads; a write of less is a short write; a
/// write that would block is left for later; an interrupted write is tried
/// again; any other error fails.
pub proof fn lemma_write_steps(outcome: WriteOutcome, data_len: usize)
    ensures
        outcome matches WriteOutcome::Written(n) ==> (n >= data_len <==> spec_write_step(
            outcome,
            data_len,
        ) == WriteStep::Reregister),
        outcome matches WriteOutcome::Written(n) ==> (n < data_len <==> spec_write_step(
            outcome,
            data_len,
        ) == WriteStep::ShortWrite),
        spec_write_step(WriteOutcome::Failed(IoErrorKind::WouldBlock), data_len)
            == WriteStep::Continue,
        spec_write_step(WriteOutcome::Failed(IoErrorKind::Interrupted), data_len)
            == WriteStep::Retry,
        spec_write_step(WriteOutcome::Failed(IoErrorKind::Other), data_len) == WriteStep::Fail,
{
}

/// Decides what to do after writing `data_len` bytes of greeting gave `outcome`.
pub fn write_step(outcome: WriteOutcome, data_len: usize) -> (s: WriteStep)
    ensures
        s == spec_write_step(outcome, data_len),
        outcome matches WriteOutcome::Written(n) ==> (n >= data_len <==> s == WriteStep::Reregister),
        outcome matches WriteOutcome::Written(n) ==> (n < data_len <==> s == WriteStep::ShortWrite),
        outcome == WriteOutcome::Failed(IoErrorKind::WouldBlock) ==> s == WriteStep::Continue,
        outcome == WriteOutcome::Failed(IoErrorKind::Interrupted) ==> s == WriteStep::Retry,
        outcome == WriteOutcome::Failed(IoErrorKind::Other) ==> s == WriteStep::Fail,
{
    proof {
        lemma_write_steps(outcome, data_len);
    }
    match outcome {
        WriteOutcome::Written(n) => if n < data_len {
            WriteStep::ShortWrite
        } else {
            WriteStep::Reregister
        },
        WriteOutcome::Failed(kind) => if would_block(kind) {
            WriteStep::Continue
        } else if interrupted(kind) {
            WriteStep::Retry
        } else {
            WriteStep::Fail
        },
    }
}

/// The size of the receive buffer when a readable event starts.
pub const READ_BUFFER_START: usize = 4096;

/// How much the receive buffer grows when a read fills it.
pub const READ_BUFFER_GROWTH: usize = 1024;

/// What one read from a connection into the free end of the receive buffer gave.
#[derive(Clone, Copy, PartialEq, Eq, Structural, Debug)]
pub enum ReadOutcome {
    /// This many bytes were read; none means that the peer closed the connection.
    Read(usize),
    /// The read failed.
    Failed(IoErrorKind),
}

/// What to do after a read.
#[derive(Clone, Copy, PartialEq, Eq, Structural, Debug)]
pub enum ReadStep {
    /// Read again, into a buffer of the size the state now gives.
    Continue,
    /// Stop reading.
    Stop,
    /// Fail with the read's error.
    Fail,
}

/// The receive buffer of a readable event: its size, how much of it holds
/// data, and whether the peer has closed the connection.
pub struct ReadState {
    buffer_len: usize,
    bytes_read: usize,
    closed: bool,
}

impl ReadState {
    /// The buffer always has room for the next read.
    #[verifier::type_invariant]
    spec fn inv(self) -> bool {
        self.bytes_read < self.buffer_len
    }

    /// The size of the buffer.
    pub closed spec fn spec_buffer_len(self) -> usize {
        self.buffer_len
    }

    /// How many bytes at the start of the buffer hold data.
    pub closed spec fn spec_bytes_read(self) -> usize {
        self.bytes_read
    }

    /// The peer has closed the connection.
    pub closed spec fn spec_closed(self) -> bool {
        self.closed
    }

    /// An empty buffer of the starting size, connection open.
    pub fn new() -> (s: ReadState)
        ensures
            s.spec_buffer_len() == READ_BUFFER_START,
            s.spec_bytes_read() == 0,
            !s.spec_closed(),
    {
        ReadState { buffer_len: READ_BUFFER_START, bytes_read: 0, closed: false }
    }

    /// The size of the buffer; more than the data it holds.
    pub fn buffer_len(&self) -> (n: usize)
        ensures
            n == self.spec_buffer_len(),
            self.spec_bytes_read() < n,
    {
        proof {
            use_type_invariant(self);
        }
        self.buffer_len
    }

    /// How many bytes at the start of the buffer hold data.
    pub fn bytes_read(&self) -> (n: usize)
        ensures
            n == self.spec_bytes_read(),
            n < self.spec_buffer_len(),
    {
        proof {
            use_type_invariant(self);
        }
        self.bytes_read
    }

    /// Whether the peer has closed the connection.
    pub fn is_closed(&self) -> (b: bool)
        ensures
            b == self.spec_closed(),
    {
        self.closed
    }

    /// Takes in what a read into the free end of the buffer gave, and says
    /// what to do next. Data read is kept; a buffer that the read fills
    /// grows, so that the next read has room.
    pub fn record(&mut self, outcome: ReadOutcome) -> (s: ReadStep)
        requires
            outcome matches ReadOutcome::Read(n) ==> n <= old(self).spec_buffer_len()
                - old(self).spec_bytes_read(),
            old(self).spec_buffer_len() <= usize::MAX - READ_BUFFER_GROWTH,
        ensures
            match outcome {
                ReadOutcome::Read(n) => if n == 0 {
                    &&& s == ReadStep::Stop
                    &&& final(self).spec_closed()
                    &&& final(self).spec_bytes_read() == old(self).spec_bytes_read()
                    &&& final(self).spec_buffer_len() == old(self).spec_buffer_len()
                } else {
                    &&& s == ReadStep::Continue
                    &&& final(self).spec_closed() == old(self).spec_closed()
                    &&& final(self).spec_bytes_read() == old(self).spec_bytes_read() + n
                    &&& final(self).spec_buffer_len() == if final(self).spec_bytes_read()
                        == old(self).spec_buffer_len() {
                        old(self).spec_buffer_len() + READ_BUFFER_GROWTH
                    } else {
                        old(self).spec_buffer_len() as int
                    }
                },
                ReadOutcome::Failed(kind) => {
                    &&& s == if kind == IoErrorKind::WouldBlock {
                        ReadStep::Stop
                    } else if kind == IoErrorKind::Interrupted {
                        ReadStep::Continue
                    } else {
                        ReadStep::Fail
                    }
                    &&& final(self).spec_closed() == old(self).spec_closed()
                    &&& final(self).spec_bytes_read() == old(self).spec_bytes_read()
                    &&& final(self).spec_buffer_len() == old(self).spec_buffer_len()
                },
            },
    {
        proof {
            use_type_invariant(&*self);
        }
        match outcome {
            ReadOutcome::Read(n) => {
                if n == 0 {
                    self.closed = true;
                    ReadStep::Stop
                } else {
                    let read = self.bytes_read + n;
                    if read == self.buffer_len {
                        let grown = self.buffer_len + READ_BUFFER_GROWTH;
                        self.buffer_len = grown;
                        self.bytes_read = read;
                    } else {
                        self.bytes_read = read;
                    }
                    ReadStep::Continue
                }
            },
            ReadOutcome::Failed(kind) => {
                if would_block(kind) {
                    ReadStep::Stop
                } else if interrupted(kind) {
                    ReadStep::Continue
                } else {
                    ReadStep::Fail
                }
            },
        }
    }
}

} // verus!
