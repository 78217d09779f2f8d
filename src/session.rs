//! One session's output path: the notifications it emits, and the decisions of
//! its background reader, which reads the terminal's output in chunks and turns
//! each read into at most one notification.

use vstd::prelude::*;

verus! {

/// Largest number of bytes taken from the terminal in one read.
pub const READ_CHUNK: usize = 4096;

/// Notification carrying output bytes of a session, verbatim.
#[derive(Debug)]
pub struct TerminalOutputPayload {
    pub session_id: String,
    pub data: Vec<u8>,
}

/// Notification that a session's output has ended.
#[derive(Debug)]
pub struct TerminalExitPayload {
    pub session_id: String,
    /// `Some(0)` at end of stream; `None` when the read failed.
    pub exit_code: Option<i32>,
}

/// A notification pushed to whoever consumes the session's events.
#[derive(Debug)]
pub enum ReaderEvent {
    Output(TerminalOutputPayload),
    Exit(TerminalExitPayload),
}

/// What one read of the terminal's output stream gave.
#[derive(Debug)]
pub enum ReadOutcome {
    /// This many bytes were placed at the start of the buffer; zero means
    /// end of stream.
    Bytes(usize),
    /// The read failed.
    Failed,
}

/// The reader's state between reads.
pub struct OutputReader {
    session_id: String,
    finished: bool,
    delivered: Ghost<Seq<u8>>,
}

impl OutputReader {
    /// The identifier that every notification carries.
    pub closed spec fn id(&self) -> Seq<char> {
        self.session_id@
    }

    /// Whether the reader has emitted its terminal notification.
    pub closed spec fn is_finished(&self) -> bool {
        self.finished
    }

    /// All bytes handed out in output notifications so far, in order.
    pub closed spec fn delivered(&self) -> Seq<u8> {
        self.delivered@
    }

    /// A reader for the session `session_id` that has read nothing yet.
    pub fn new(session_id: String) -> (r: Self)
        ensures
            r.id() == session_id@,
            !r.is_finished(),
            r.delivered() == Seq::<u8>::empty(),
    {
        OutputReader { session_id, finished: false, delivered: Ghost(Seq::empty()) }
    }

    /// Whether to read again: only while the session's liveness flag is set
    /// and the stream has not ended.
    pub fn wants_read(&self, running: bool) -> (r: bool)
        ensures
            r == (running && !self.is_finished()),
    {
        running && !self.finished
    }

    /// Turns the outcome of one read into the notification to emit.
    ///
    /// A positive count gives an output notification with exactly those bytes;
    /// zero bytes end the stream with exit code `Some(0)`; a failed read ends
    /// it with no exit code. After the end nothing more is emitted.
    pub fn on_read(&mut self, outcome: ReadOutcome, buffer: &[u8]) -> (r: Option<ReaderEvent>)
        requires
            outcome matches ReadOutcome::Bytes(n) ==> n <= buffer@.len(),
        ensures
            final(self).id() == old(self).id(),
            old(self).is_finished() ==> r is None && *final(self) == *old(self),
            !old(self).is_finished() ==> match outcome {
                ReadOutcome::Bytes(n) => if n == 0 {
                    &&& r matches Some(ReaderEvent::Exit(p))
                    &&& p.session_id@ == old(self).id()
                    &&& p.exit_code == Some(0i32)
                    &&& final(self).is_finished()
                    &&& final(self).delivered() == old(self).delivered()
                } else {
                    &&& r matches Some(ReaderEvent::Output(p))
                    &&& p.session_id@ == old(self).id()
                    &&& p.data@ == buffer@.subrange(0, n as int)
                    &&& !final(self).is_finished()
                    &&& final(self).delivered() == old(self).delivered() + buffer@.subrange(
                        0,
                        n as int,
                    )
                },
                ReadOutcome::Failed => {
                    &&& r matches Some(ReaderEvent::Exit(p))
                    &&& p.session_id@ == old(self).id()
                    &&& p.exit_code is None
                    &&& final(self).is_finished()
                    &&& final(self).delivered() == old(self).delivered()
                },
            },
    {
        if self.finished {
            return None;
        }
        match outcome {
            ReadOutcome::Bytes(n) => {
                if n == 0 {
                    self.finished = true;
                    Some(
                        ReaderEvent::Exit(
                            TerminalExitPayload {
                                session_id: self.session_id.clone(),
                                exit_code: Some(0),
                            },
                        ),
                    )
                } else {
                    let data = copy_prefix(buffer, n);
                    self.delivered = Ghost(self.delivered@ + data@);
                    Some(
                        ReaderEvent::Output(
                            TerminalOutputPayload { session_id: self.session_id.clone(), data },
                        ),
                    )
                }
            },
            ReadOutcome::Failed => {
                self.finished = true;
                Some(
                    ReaderEvent::Exit(
                        TerminalExitPayload { session_id: self.session_id.clone(), exit_code: None },
                    ),
                )
            },
        }
    }
}

/// The chunks joined end to end.
pub open spec fn concat_chunks(chunks: Seq<Seq<u8>>) -> Seq<u8>
    decreases chunks.len(),
{
    if chunks.len() == 0 {
        Seq::empty()
    } else {
        concat_chunks(chunks.drop_last()) + chunks.last()
    }
}

/// Over a run of reads that each deliver one chunk (as `on_read` does for a
/// positive count), the reader has handed out exactly the chunks joined in
/// the order they were read: no byte lost, reordered or repeated.
pub proof fn law_delivery_in_read_order(states: Seq<OutputReader>, chunks: Seq<Seq<u8>>)
    requires
        states.len() == chunks.len() + 1,
        states[0].delivered() == Seq::<u8>::empty(),
        forall|i: int|
            0 <= i < chunks.len() ==> #[trigger] states[i + 1].delivered() == states[i].delivered()
                + chunks[i],
    ensures
        states.last().delivered() == concat_chunks(chunks),
    decreases chunks.len(),
{
    if chunks.len() == 0 {
        assert(concat_chunks(chunks) =~= Seq::<u8>::empty());
    } else {
        let n = chunks.len() - 1;
        let ps = states.drop_last();
        let pc = chunks.drop_last();
        assert forall|i: int| 0 <= i < pc.len() implies #[trigger] ps[i + 1].delivered()
            == ps[i].delivered() + pc[i] by {
            assert(ps[i + 1] == states[i + 1]);
            assert(ps[i] == states[i]);
            assert(pc[i] == chunks[i]);
            assert(states[i + 1].delivered() == states[i].delivered() + chunks[i]);
        }
        law_delivery_in_read_order(ps, pc);
        assert(states[n + 1].delivered() == states[n].delivered() + chunks[n]);
        assert(ps.last() == states[n]);
    }
}

/// The first `n` bytes of `buffer`, copied.
fn copy_prefix(buffer: &[u8], n: usize) -> (r: Vec<u8>)
    requires
        n <= buffer@.len(),
    ensures
        r@ == buffer@.subrange(0, n as int),
{
    let mut r: Vec<u8> = Vec::with_capacity(n);
    let mut i: usize = 0;
    while i < n
        invariant
            n <= buffer@.len(),
            i <= n,
            r@ == buffer@.subrange(0, i as int),
        decreases n - i,
    {
        r.push(buffer[i]);
        i += 1;
        proof {
            assert(r@ =~= buffer@.subrange(0, i as int));
        }
    }
    r
}

} // verus!
