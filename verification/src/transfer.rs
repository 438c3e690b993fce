//! Transfer engine: streaming-progress accounting for one download.
//! The body arrives as an ordered, finite sequence of byte chunks;
//! each chunk is appended to storage in arrival order and the
//! cumulative written-byte counter advances by its length, then the
//! new position is reported to the progress sink. The counter always
//! equals the sum of the recorded chunk lengths, so a body delivered
//! in arbitrary chunk sizes summing to N ends with position exactly N.

use vstd::prelude::*;

verus! {

/// Receiver of progress for one transfer: an external collaborator
/// interface. Implementations live outside the library (a terminal
/// progress bar, a log); many sinks may run at once, one per transfer.
pub trait ProgressSink {
    /// Announce the total size in bytes; 0 means unknown, to be
    /// rendered as an indeterminate display.
    fn set_total(&mut self, total: u64);

    /// Report the cumulative number of bytes written so far.
    fn advance(&mut self, position: u64);

    /// Signal that the transfer completed.
    fn finish(&mut self);

    /// Signal that the transfer failed.
    fn fail(&mut self);
}

/// Sum of the recorded chunk lengths.
pub open spec fn sum(chunks: Seq<int>) -> int
    decreases chunks.len(),
{
    if chunks.len() == 0 {
        0
    } else {
        sum(chunks.drop_last()) + chunks.last()
    }
}

/// Streaming state of one transfer: the declared total size (0 when
/// the response carries none) and the bytes written so far, with the
/// lengths of the chunks received so far kept alongside in ghost form.
pub struct Transfer {
    /// Total byte size announced by the response; 0 means unknown.
    pub total: u64,
    /// Cumulative count of bytes written to storage.
    pub downloaded: u64,
    /// Lengths of the chunks recorded so far, in arrival order.
    pub chunks: Ghost<Seq<int>>,
}

impl Transfer {
    /// The written-byte counter equals the sum of the recorded chunk
    /// lengths, every chunk length is nonnegative, and a known total
    /// bounds the counter from above.
    pub open spec fn wf(self) -> bool {
        &&& self.downloaded as int == sum(self.chunks@)
        &&& forall|i: int| 0 <= i < self.chunks@.len() ==> self.chunks@[i] >= 0
        &&& self.total > 0 ==> self.downloaded <= self.total
    }

    /// Start a transfer whose response announced `total` bytes
    /// (0 when unknown) and tell the sink the total.
    pub fn begin<S: ProgressSink>(total: u64, sink: &mut S) -> (t: Transfer)
        ensures
            t.wf(),
            t.total == total,
            t.downloaded == 0,
            t.chunks@ == Seq::<int>::empty(),
    {
        sink.set_total(total);
        Transfer { total, downloaded: 0, chunks: Ghost(Seq::empty()) }
    }

    /// One body chunk of `len` bytes has been appended to storage:
    /// advance the counter by `len` and report the new position.
    pub fn on_chunk<S: ProgressSink>(&mut self, len: usize, sink: &mut S)
        requires
            old(self).wf(),
            old(self).downloaded + len <= u64::MAX,
            old(self).total > 0 ==> old(self).downloaded + len <= old(self).total,
        ensures
            final(self).wf(),
            final(self).total == old(self).total,
            final(self).downloaded == old(self).downloaded + len,
            final(self).chunks@ == old(self).chunks@.push(len as int),
    {
        proof {
            assert(self.chunks@.push(len as int).drop_last() =~= self.chunks@);
        }
        self.downloaded = self.downloaded + (len as u64);
        self.chunks = Ghost(self.chunks@.push(len as int));
        sink.advance(self.downloaded);
    }

    /// The stream is exhausted: signal completion and hand back the
    /// final position, which is the sum of every chunk written.
    pub fn complete<S: ProgressSink>(self, sink: &mut S) -> (written: u64)
        requires
            self.wf(),
        ensures
            written as int == sum(self.chunks@),
            self.total > 0 ==> written <= self.total,
    {
        sink.finish();
        self.downloaded
    }

    /// The transfer failed mid-stream: signal the sink. Bytes already
    /// written stay on disk as they are; there is no cleanup.
    pub fn abort<S: ProgressSink>(self, sink: &mut S) -> (written: u64)
        requires
            self.wf(),
        ensures
            written as int == sum(self.chunks@),
    {
        sink.fail();
        self.downloaded
    }
}

/// For a body delivered in arbitrary chunk sizes, the final reported
/// position equals the sum of the chunk lengths: with a known content
/// length N and chunks summing to N, the position — and with it the
/// count of bytes handed to storage — is exactly N.
pub proof fn lemma_final_position_is_total(t: Transfer, n: int)
    requires
        t.wf(),
        sum(t.chunks@) == n,
    ensures
        t.downloaded == n,
{
}

} // verus!
