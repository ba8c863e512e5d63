//! The serial session: at most one open connection and its line history.
//!
//! A session owns an optional connection handle and the bounded history of
//! received lines. The handle type is a parameter: the surrounding
//! application instantiates it with its open serial port and performs the
//! raw I/O, while every decision — when an operation is allowed, what enters
//! the history, what a command looks like on the wire — is made and verified
//! here.
//!
//! The session is disconnected exactly when it holds no handle. While an
//! exchange is in flight (the handle has been checked out with
//! [`Session::begin_exchange`]), every other operation fails with
//! [`SessionError::NotConnected`] instead of blocking, so only one exchange
//! is ever outstanding.

use vstd::prelude::*;

use crate::history::HISTORY_CAP;
use crate::history::all_kept;
use crate::history::check_blank;
use crate::history::concat_present;
use crate::history::copy_line;
use crate::history::ingest_all;
use crate::history::ingest_chunk;
use crate::history::ingest_chunk_exec;
use crate::history::lemma_entries_kept;
use crate::history::lemma_entries_kept_all;
use crate::history::lemma_history_capacity;
use crate::history::lemma_history_capacity_all;
use crate::history::lines_view;

verus! {

/// The failures a session operation can report. The library itself only
/// produces `NotConnected`; the transport variants carry the human-readable
/// message of the underlying I/O failure, which the surrounding application
/// observes and reports through the same taxonomy.
#[derive(Clone, Debug, PartialEq, Eq)]
pub enum SessionError {
    EnumerationFailure(String),
    OpenFailure(String),
    NotConnected,
    WriteFailure(String),
    ReadFailure(String),
    LockFailure,
}

/// What a session looks like in contracts: the handle it holds, if any,
/// whether an exchange is in flight, and the lines its history holds. The
/// session is connected exactly when `handle` is `Some`.
pub struct SessionView<H> {
    pub handle: Option<H>,
    pub busy: bool,
    pub history: Seq<Seq<u8>>,
}

/// A serial session: an optional connection handle of the application's
/// choosing and the bounded FIFO history of received lines.
pub struct Session<H> {
    handle: Option<H>,
    busy: bool,
    history: Vec<Vec<u8>>,
}

impl<H> View for Session<H> {
    type V = SessionView<H>;

    closed spec fn view(&self) -> SessionView<H> {
        SessionView { handle: self.handle, busy: self.busy, history: lines_view(self.history@) }
    }
}

impl<H> Session<H> {
    /// Holds of every session at every time: the history never exceeds its
    /// capacity, every stored line passed the line filter, and while an
    /// exchange is in flight the handle is checked out.
    #[verifier::type_invariant]
    closed spec fn wf(self) -> bool {
        &&& self.history@.len() <= HISTORY_CAP
        &&& all_kept(lines_view(self.history@))
        &&& (self.busy ==> self.handle is None)
    }

    /// A fresh session: disconnected, idle, with an empty history.
    pub fn new() -> (s: Self)
        ensures
            s@.handle is None,
            !s@.busy,
            s@.history == Seq::<Seq<u8>>::empty(),
    {
        let s = Session { handle: None, busy: false, history: Vec::new() };
        proof {
            assert(lines_view(s.history@) =~= Seq::<Seq<u8>>::empty());
        }
        s
    }

    /// Whether the session holds a handle.
    pub fn is_connected(&self) -> (r: bool)
        ensures
            r == (self@.handle is Some),
    {
        self.handle.is_some()
    }

    /// Whether an exchange is in flight.
    pub fn is_busy(&self) -> (r: bool)
        ensures
            r == self@.busy,
    {
        self.busy
    }

    /// How many lines the history holds; never more than [`HISTORY_CAP`].
    pub fn history_len(&self) -> (n: usize)
        ensures
            n == self@.history.len(),
            n <= HISTORY_CAP,
    {
        proof {
            use_type_invariant(&*self);
        }
        self.history.len()
    }

    /// A copy of the current history, oldest line first.
    pub fn history_snapshot(&self) -> (snap: Vec<Vec<u8>>)
        ensures
            lines_view(snap@) == self@.history,
    {
        let mut snap: Vec<Vec<u8>> = Vec::new();
        let mut i: usize = 0;
        while i < self.history.len()
            invariant
                0 <= i <= self.history@.len(),
                snap@.len() == i,
                forall|j: int| 0 <= j < i ==> #[trigger] snap@[j]@ == self.history@[j]@,
            decreases self.history@.len() - i,
        {
            snap.push(copy_line(&self.history[i]));
            i = i + 1;
        }
        proof {
            assert(lines_view(snap@) =~= lines_view(self.history@));
        }
        snap
    }

    /// Makes room for a new connection, exactly as a disconnect does: any
    /// held handle is dropped and the history is cleared, even if the open
    /// that follows never succeeds. Fails with `NotConnected` and changes
    /// nothing while an exchange is in flight.
    pub fn prepare_connect(&mut self) -> (r: Result<(), SessionError>)
        ensures
            old(self)@.busy ==> r == Err::<(), SessionError>(SessionError::NotConnected)
                && final(self)@ == old(self)@,
            !old(self)@.busy ==> r == Ok::<(), SessionError>(()) && final(self)@.handle is None
                && !final(self)@.busy && final(self)@.history == Seq::<Seq<u8>>::empty(),
    {
        self.disconnect()
    }

    /// Stores the handle of a connection the application has just opened.
    /// Fails with `NotConnected` and changes nothing (the handle is dropped)
    /// while an exchange is in flight.
    pub fn complete_connect(&mut self, h: H) -> (r: Result<(), SessionError>)
        ensures
            old(self)@.busy ==> r == Err::<(), SessionError>(SessionError::NotConnected)
                && final(self)@ == old(self)@,
            !old(self)@.busy ==> r == Ok::<(), SessionError>(()) && final(self)@.handle == Some(
            h) && !final(self)@.busy && final(self)@.history == old(self)@.history,
    {
        proof {
            use_type_invariant(&*self);
        }
        if self.busy {
            return Err(SessionError::NotConnected);
        }
        self.handle = Some(h);
        Ok(())
    }

    /// Drops the handle if one is held and clears the history; calling it
    /// again while already disconnected succeeds the same way. Fails with
    /// `NotConnected` and changes nothing while an exchange is in flight.
    pub fn disconnect(&mut self) -> (r: Result<(), SessionError>)
        ensures
            old(self)@.busy ==> r == Err::<(), SessionError>(SessionError::NotConnected)
                && final(self)@ == old(self)@,
            !old(self)@.busy ==> r == Ok::<(), SessionError>(()) && final(self)@.handle is None
                && !final(self)@.busy && final(self)@.history == Seq::<Seq<u8>>::empty(),
    {
        proof {
            use_type_invariant(&*self);
        }
        if self.busy {
            return Err(SessionError::NotConnected);
        }
        self.handle = None;
        self.history = Vec::new();
        proof {
            assert(lines_view(self.history@) =~= Seq::<Seq<u8>>::empty());
        }
        Ok(())
    }

    /// Checks the handle out for one exchange: a send, a read, or a timed
    /// send-and-read. Until the handle comes back through
    /// [`Session::end_exchange`], the session is busy and every operation
    /// fails with `NotConnected`. Fails with `NotConnected`, and touches
    /// neither handle nor history, when the session is disconnected or
    /// already busy.
    pub fn begin_exchange(&mut self) -> (r: Result<H, SessionError>)
        ensures
            !(old(self)@.handle is Some && !old(self)@.busy) ==> r == Err::<H, SessionError>(
                SessionError::NotConnected,
            ) && final(self)@ == old(self)@,
            (old(self)@.handle is Some && !old(self)@.busy) ==> r == Ok::<H, SessionError>(
                old(self)@.handle->Some_0,
            ) && final(self)@.handle is None && final(self)@.busy && final(self)@.history == old(
                self,
            )@.history,
    {
        proof {
            use_type_invariant(&*self);
        }
        if self.busy {
            return Err(SessionError::NotConnected);
        }
        let mut taken: Option<H> = None;
        core::mem::swap(&mut taken, &mut self.handle);
        match taken {
            Some(h) => {
                self.busy = true;
                Ok(h)
            },
            None => Err(SessionError::NotConnected),
        }
    }

    /// Returns the handle after an exchange: the session holds it again and
    /// is no longer busy. If no exchange was in flight the handle is dropped,
    /// the call fails with `NotConnected`, and nothing changes.
    pub fn end_exchange(&mut self, h: H) -> (r: Result<(), SessionError>)
        ensures
            old(self)@.busy ==> r == Ok::<(), SessionError>(()) && final(self)@.handle == Some(h)
                && !final(self)@.busy && final(self)@.history == old(self)@.history,
            !old(self)@.busy ==> r == Err::<(), SessionError>(SessionError::NotConnected)
                && final(self)@ == old(self)@,
    {
        proof {
            use_type_invariant(&*self);
        }
        if !self.busy {
            return Err(SessionError::NotConnected);
        }
        self.busy = false;
        self.handle = Some(h);
        Ok(())
    }

    /// The recovery path when an exchange never returns the handle (the
    /// poller failed or was abandoned): the session becomes disconnected
    /// rather than staying busy forever. The history is kept.
    pub fn abort_exchange(&mut self)
        ensures
            final(self)@.handle is None,
            !final(self)@.busy,
            final(self)@.history == old(self)@.history,
    {
        proof {
            use_type_invariant(&*self);
        }
        self.busy = false;
        self.handle = None;
    }

    /// Feeds one chunk of received bytes into the history: the chunk is cut
    /// into lines, blank and echoed lines are dropped, and the survivors are
    /// appended with the oldest entries evicted beyond the capacity.
    pub fn apply_chunk(&mut self, data: &[u8])
        ensures
            final(self)@.handle == old(self)@.handle,
            final(self)@.busy == old(self)@.busy,
            final(self)@.history == ingest_chunk(old(self)@.history, data@),
    {
        proof {
            use_type_invariant(&*self);
        }
        let mut hist: Vec<Vec<u8>> = Vec::new();
        proof {
            assert(lines_view(hist@) =~= Seq::<Seq<u8>>::empty());
        }
        core::mem::swap(&mut hist, &mut self.history);
        ingest_chunk_exec(&mut hist, data);
        proof {
            lemma_history_capacity(lines_view(old(self).history@), data@);
            lemma_entries_kept(lines_view(old(self).history@), data@);
        }
        self.history = hist;
    }

    /// Merges what a finished exchange collected: every chunk is fed into
    /// the history as [`Session::apply_chunk`] does, and the chunks that are
    /// not blank are concatenated, in order, into the exchange's reply.
    pub fn merge_exchange(&mut self, chunks: &Vec<Vec<u8>>) -> (out: Vec<u8>)
        ensures
            final(self)@.handle == old(self)@.handle,
            final(self)@.busy == old(self)@.busy,
            final(self)@.history == ingest_all(old(self)@.history, lines_view(chunks@)),
            out@ == concat_present(lines_view(chunks@)),
    {
        proof {
            use_type_invariant(&*self);
        }
        let ghost h0 = lines_view(old(self).history@);
        let ghost cs = lines_view(chunks@);
        let mut hist: Vec<Vec<u8>> = Vec::new();
        proof {
            assert(lines_view(hist@) =~= Seq::<Seq<u8>>::empty());
        }
        core::mem::swap(&mut hist, &mut self.history);
        let mut out: Vec<u8> = Vec::new();
        let mut i: usize = 0;
        proof {
            assert(cs.skip(0) =~= cs);
        }
        while i < chunks.len()
            invariant
                0 <= i <= chunks@.len(),
                cs == lines_view(chunks@),
                cs.len() == chunks@.len(),
                ingest_all(lines_view(hist@), cs.skip(i as int)) == ingest_all(h0, cs),
                out@ + concat_present(cs.skip(i as int)) == concat_present(cs),
            decreases chunks@.len() - i,
        {
            let chunk = &chunks[i];
            proof {
                assert(cs.skip(i as int)[0] == cs[i as int]);
                assert(cs.skip(i as int).drop_first() =~= cs.skip(i + 1));
            }
            if !check_blank(chunk.as_slice()) {
                let ghost out0 = out@;
                append_bytes(&mut out, chunk);
                proof {
                    assert((out0 + cs[i as int]) + concat_present(cs.skip(i + 1)) =~= out0 + (
                    cs[i as int] + concat_present(cs.skip(i + 1))));
                }
            }
            ingest_chunk_exec(&mut hist, chunk.as_slice());
            i = i + 1;
        }
        proof {
            assert(cs.skip(i as int) =~= Seq::<Seq<u8>>::empty());
            assert(out@ + concat_present(cs.skip(i as int)) =~= out@);
            lemma_history_capacity_all(h0, cs);
            lemma_entries_kept_all(h0, cs);
        }
        self.history = hist;
        out
    }
}

/// Frames a command for the wire: the device expects each command to be
/// terminated with a single carriage return.
pub fn frame_command(cmd: &[u8]) -> (out: Vec<u8>)
    ensures
        out@ == cmd@.push(13u8),
{
    let mut out: Vec<u8> = Vec::new();
    let mut i: usize = 0;
    while i < cmd.len()
        invariant
            0 <= i <= cmd@.len(),
            out@ == cmd@.take(i as int),
        decreases cmd@.len() - i,
    {
        out.push(cmd[i]);
        proof {
            assert(cmd@.take(i as int).push(cmd@[i as int]) =~= cmd@.take(i + 1));
        }
        i = i + 1;
    }
    proof {
        assert(cmd@.take(i as int) =~= cmd@);
    }
    out.push(13);
    out
}

/// Appends the bytes of `chunk` to `out`.
fn append_bytes(out: &mut Vec<u8>, chunk: &Vec<u8>)
    ensures
        final(out)@ == old(out)@ + chunk@,
{
    let mut i: usize = 0;
    proof {
        assert(old(out)@ + chunk@.take(0) =~= old(out)@);
    }
    while i < chunk.len()
        invariant
            0 <= i <= chunk@.len(),
            out@ == old(out)@ + chunk@.take(i as int),
        decreases chunk@.len() - i,
    {
        out.push(chunk[i]);
        proof {
            assert((old(out)@ + chunk@.take(i as int)).push(chunk@[i as int]) =~= old(out)@
                + chunk@.take(i + 1));
        }
        i = i + 1;
    }
    proof {
        assert(old(out)@ + chunk@.take(i as int) =~= old(out)@ + chunk@);
    }
}

/// What a finished timed exchange answers: `None` when nothing at all was
/// collected — the application renders that as its "no response" text — and
/// the collected reply otherwise.
pub fn exchange_reply(collected: Vec<u8>) -> (r: Option<Vec<u8>>)
    ensures
        collected@.len() == 0 ==> r is None,
        collected@.len() > 0 ==> r == Some(collected),
{
    if collected.len() == 0 {
        None
    } else {
        Some(collected)
    }
}

} // verus!
