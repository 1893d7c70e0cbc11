//! Bookkeeping of a file transfer in progress: which chunk to read next
//! on the receiving side, and when to report progress and transfer rate on
//! both sides. The application performs the reads, writes and clock reads;
//! these state machines decide what happens next.

use vstd::prelude::*;

verus! {

/// Size of the buffer a file is moved through, in bytes.
pub const TRANSMITTING_BUF_SIZE: u64 = 1024;

/// Least time between two progress reports, in milliseconds.
pub const UPDATE_PROGRESS_PERIOD_MS: u128 = 50;

/// Least time between two transfer rate reports, in milliseconds.
pub const UPDATE_DTR_PERIOD_MS: u128 = 1000;

/// Number of chunks between two looks at the progress clock.
pub const PROGRESS_CHECK_CHUNKS: u32 = 100;

/// What to show after a step of a transfer.
#[derive(Clone, Copy, Debug, PartialEq, Eq, Structural)]
pub enum ProgressReport {
    /// Nothing to show.
    Nothing,
    /// Show the fraction of the file moved so far.
    Fraction,
    /// Show the transfer as complete.
    Complete,
}

/// Receiving side of a file transfer: how much of the announced size has
/// arrived.
#[derive(Clone, Copy, Debug, PartialEq, Eq, Structural)]
pub struct ReceiveState {
    /// Size announced by the sender.
    pub file_size: u64,
    /// Bytes received so far.
    pub received: u64,
    /// Full chunks received since progress was last reported.
    pub counter: u32,
    /// The last chunk has been received.
    pub finished: bool,
}

impl ReceiveState {
    /// The states that a transfer can be in.
    pub open spec fn wf(self) -> bool {
        &&& self.received <= self.file_size
        &&& self.finished ==> self.received == self.file_size
        &&& self.file_size < TRANSMITTING_BUF_SIZE ==> (self.finished || self.received == 0)
    }

    /// The number of bytes to read next, or `None` when the file is complete.
    /// A file smaller than the buffer is read in one go (even when empty);
    /// a larger one in full buffers and then the rest.
    pub open spec fn spec_next_chunk(self) -> Option<u64> {
        if self.finished {
            None
        } else if self.file_size < TRANSMITTING_BUF_SIZE {
            Some(self.file_size)
        } else if self.received < self.file_size {
            if self.file_size - self.received >= TRANSMITTING_BUF_SIZE {
                Some(TRANSMITTING_BUF_SIZE)
            } else {
                Some((self.file_size - self.received) as u64)
            }
        } else {
            None
        }
    }

    /// The state and the report after the next chunk has arrived, with
    /// `elapsed_ms` since progress was last reported.
    pub open spec fn spec_after_chunk(self, elapsed_ms: u128) -> (ReceiveState, ProgressReport) {
        let n = self.spec_next_chunk().unwrap();
        let received = (self.received + n) as u64;
        if self.file_size < TRANSMITTING_BUF_SIZE || n < TRANSMITTING_BUF_SIZE {
            (ReceiveState { received, finished: true, ..self }, ProgressReport::Complete)
        } else if 0 < self.file_size - received < TRANSMITTING_BUF_SIZE {
            (ReceiveState { received, ..self }, ProgressReport::Nothing)
        } else {
            let c = ((self.counter + 1) % 0x1_0000_0000) as u32;
            if c % PROGRESS_CHECK_CHUNKS == 0 && elapsed_ms > UPDATE_PROGRESS_PERIOD_MS {
                (ReceiveState { received, counter: 0, ..self }, ProgressReport::Fraction)
            } else {
                (ReceiveState { received, counter: c, ..self }, ProgressReport::Nothing)
            }
        }
    }

    /// How far a transfer still has to go: the bytes missing, plus one while
    /// the last chunk has not been read.
    pub open spec fn measure(self) -> nat {
        ((self.file_size - self.received) + if self.finished { 0int } else { 1int }) as nat
    }

    /// A transfer of `file_size` bytes that has not started.
    pub fn new(file_size: u64) -> (r: ReceiveState)
        ensures
            r == (ReceiveState { file_size, received: 0, counter: 0, finished: false }),
            r.wf(),
    {
        ReceiveState { file_size, received: 0, counter: 0, finished: false }
    }

    /// The number of bytes to read next, or `None` when the file is complete.
    pub fn next_chunk(&self) -> (r: Option<u64>)
        requires
            self.wf(),
        ensures
            r == self.spec_next_chunk(),
            r matches Some(n) ==> n <= TRANSMITTING_BUF_SIZE && self.received + n
                <= self.file_size,
            r is None ==> self.received == self.file_size,
    {
        if self.finished {
            None
        } else if self.file_size < TRANSMITTING_BUF_SIZE {
            Some(self.file_size)
        } else if self.received < self.file_size {
            if self.file_size - self.received >= TRANSMITTING_BUF_SIZE {
                Some(TRANSMITTING_BUF_SIZE)
            } else {
                Some(self.file_size - self.received)
            }
        } else {
            None
        }
    }

    /// Records that the chunk `next_chunk` asked for has arrived,
    /// `elapsed_ms` after progress was last reported, and tells what to show.
    pub fn chunk_received(&mut self, elapsed_ms: u128) -> (r: ProgressReport)
        requires
            old(self).wf(),
            old(self).spec_next_chunk() is Some,
        ensures
            (*final(self), r) == old(self).spec_after_chunk(elapsed_ms),
            final(self).finished == (r == ProgressReport::Complete),
            (old(self).file_size < TRANSMITTING_BUF_SIZE || old(self).spec_next_chunk().unwrap()
                < TRANSMITTING_BUF_SIZE) ==> final(self).finished && r == ProgressReport::Complete,
            final(self).wf(),
            final(self).received == old(self).received + old(self).spec_next_chunk().unwrap(),
            final(self).measure() < old(self).measure(),
    {
        let n = match self.next_chunk() {
            Some(n) => n,
            None => 0,
        };
        self.received = self.received + n;
        if self.file_size < TRANSMITTING_BUF_SIZE || n < TRANSMITTING_BUF_SIZE {
            self.finished = true;
            ProgressReport::Complete
        } else if 0 < self.file_size - self.received && self.file_size - self.received
            < TRANSMITTING_BUF_SIZE {
            ProgressReport::Nothing
        } else {
            let c = self.counter.wrapping_add(1);
            if c % PROGRESS_CHECK_CHUNKS == 0 && elapsed_ms > UPDATE_PROGRESS_PERIOD_MS {
                self.counter = 0;
                ProgressReport::Fraction
            } else {
                self.counter = c;
                ProgressReport::Nothing
            }
        }
    }

    /// Whether the transfer shows itself complete once more after its last
    /// chunk (files of at least one buffer do).
    pub fn reports_completion_at_end(&self) -> (r: bool)
        ensures
            r == (self.file_size >= TRANSMITTING_BUF_SIZE),
    {
        self.file_size >= TRANSMITTING_BUF_SIZE
    }
}

/// Sending side of a file transfer: what has been sent, and the counters
/// behind the progress and rate reports.
#[derive(Clone, Copy, Debug, PartialEq, Eq, Structural)]
pub struct SendState {
    /// Size of the file being sent.
    pub file_size: u64,
    /// Bytes written to the connection so far.
    pub total_sent: u64,
    /// Chunks sent since progress was last looked at.
    pub iter_counter: u32,
    /// Bytes sent since the transfer rate was last reported.
    pub sent_bytes_per_second: u32,
}

/// What to do with a chunk just read from the file.
#[derive(Clone, Copy, Debug, PartialEq, Eq, Structural)]
pub struct ReadDecision {
    /// Show the fraction of the file sent so far.
    pub report_progress: bool,
    /// Write the chunk and go on; otherwise the transfer ends here.
    pub proceed: bool,
}

impl SendState {
    /// The state and decision after a chunk of `n` bytes was read from the
    /// file, with the transfer still `enabled` or not, and `elapsed_ms` since
    /// progress was last reported. Every hundredth chunk the transfer looks
    /// at the flag and at the clock; an empty read ends the transfer.
    pub open spec fn spec_on_read(self, n: usize, enabled: bool, elapsed_ms: u128) -> (SendState, ReadDecision) {
        if self.iter_counter % PROGRESS_CHECK_CHUNKS == 0 {
            if !enabled {
                (self, ReadDecision { report_progress: false, proceed: false })
            } else if elapsed_ms > UPDATE_PROGRESS_PERIOD_MS {
                (SendState { iter_counter: 0, ..self }, ReadDecision { report_progress: true, proceed: n != 0 })
            } else {
                (self, ReadDecision { report_progress: false, proceed: n != 0 })
            }
        } else {
            (self, ReadDecision { report_progress: false, proceed: n != 0 })
        }
    }

    /// The state after a chunk of `n` bytes was written, `dtr_elapsed_ms`
    /// after the rate was last reported, and the rate to report, if one is
    /// due (the bytes sent since the last report). Counters wrap around.
    pub open spec fn spec_on_written(self, n: usize, dtr_elapsed_ms: u128) -> (SendState, Option<u32>) {
        let iter_counter = ((self.iter_counter + 1) % 0x1_0000_0000) as u32;
        let total_sent = ((self.total_sent + n as u64) % 0x1_0000_0000_0000_0000) as u64;
        let rate = ((self.sent_bytes_per_second + n as u32) % 0x1_0000_0000) as u32;
        if dtr_elapsed_ms >= UPDATE_DTR_PERIOD_MS {
            (SendState { iter_counter, total_sent, sent_bytes_per_second: 0, ..self }, Some(rate))
        } else {
            (SendState { iter_counter, total_sent, sent_bytes_per_second: rate, ..self }, None)
        }
    }

    /// A transfer of a file of `file_size` bytes that has not started.
    pub fn new(file_size: u64) -> (r: SendState)
        ensures
            r == (SendState { file_size, total_sent: 0, iter_counter: 0, sent_bytes_per_second: 0 }),
    {
        SendState { file_size, total_sent: 0, iter_counter: 0, sent_bytes_per_second: 0 }
    }

    /// Decides what happens to a chunk of `n` bytes just read from the file.
    pub fn on_read(&mut self, n: usize, enabled: bool, elapsed_ms: u128) -> (r: ReadDecision)
        ensures
            (*final(self), r) == old(self).spec_on_read(n, enabled, elapsed_ms),
            r.proceed == (n > 0 && (enabled || old(self).iter_counter % PROGRESS_CHECK_CHUNKS != 0)),
            r.report_progress ==> enabled && old(self).iter_counter % PROGRESS_CHECK_CHUNKS == 0
                && elapsed_ms > UPDATE_PROGRESS_PERIOD_MS,
    {
        if self.iter_counter % PROGRESS_CHECK_CHUNKS == 0 {
            if !enabled {
                return ReadDecision { report_progress: false, proceed: false };
            }
            if elapsed_ms > UPDATE_PROGRESS_PERIOD_MS {
                self.iter_counter = 0;
                return ReadDecision { report_progress: true, proceed: n != 0 };
            }
        }
        ReadDecision { report_progress: false, proceed: n != 0 }
    }

    /// Records that a chunk of `n` bytes was written, and returns the rate to
    /// report, if one is due.
    pub fn on_written(&mut self, n: usize, dtr_elapsed_ms: u128) -> (r: Option<u32>)
        ensures
            (*final(self), r) == old(self).spec_on_written(n, dtr_elapsed_ms),
    {
        self.iter_counter = self.iter_counter.wrapping_add(1);
        self.total_sent = self.total_sent.wrapping_add(n as u64);
        self.sent_bytes_per_second = self.sent_bytes_per_second.wrapping_add(n as u32);
        if dtr_elapsed_ms >= UPDATE_DTR_PERIOD_MS {
            let rate = self.sent_bytes_per_second;
            self.sent_bytes_per_second = 0;
            Some(rate)
        } else {
            None
        }
    }
}

/// The state after writing chunks of the sizes `ns`, in order, each before
/// a rate report was due.
pub open spec fn writes_without_report(s: SendState, ns: Seq<usize>) -> SendState
    decreases ns.len(),
{
    if ns.len() == 0 {
        s
    } else {
        writes_without_report(s, ns.drop_last()).spec_on_written(ns.last(), 0).0
    }
}

/// The sum of a sequence of write sizes.
pub open spec fn total_written(ns: Seq<usize>) -> nat
    decreases ns.len(),
{
    if ns.len() == 0 {
        0
    } else {
        total_written(ns.drop_last()) + ns.last() as nat
    }
}

/// Between two rate reports, the rate counter grows by exactly the bytes
/// written (modulo its width), and so does the total sent.
pub proof fn lemma_rate_counts_bytes_written(s: SendState, ns: Seq<usize>)
    requires
        forall|i: int| 0 <= i < ns.len() ==> #[trigger] ns[i] <= TRANSMITTING_BUF_SIZE,
    ensures
        writes_without_report(s, ns).sent_bytes_per_second == (s.sent_bytes_per_second
            + total_written(ns)) % 0x1_0000_0000,
        writes_without_report(s, ns).total_sent == (s.total_sent + total_written(ns))
            % 0x1_0000_0000_0000_0000,
        writes_without_report(s, ns).file_size == s.file_size,
    decreases ns.len(),
{
    if ns.len() > 0 {
        let prefix = ns.drop_last();
        assert forall|i: int| 0 <= i < prefix.len() implies #[trigger] prefix[i] <= TRANSMITTING_BUF_SIZE by {
            assert(prefix[i] == ns[i]);
        }
        lemma_rate_counts_bytes_written(s, prefix);
        let t = writes_without_report(s, prefix);
        let n = ns.last();
        assert(ns[ns.len() - 1] <= TRANSMITTING_BUF_SIZE);
        assert(n as u32 == n);
        let a = s.sent_bytes_per_second + total_written(prefix);
        let b = s.total_sent + total_written(prefix);
        assert((a % 0x1_0000_0000 + n) % 0x1_0000_0000 == (a + n) % 0x1_0000_0000) by (nonlinear_arith)
            requires a >= 0, n >= 0;
        assert((b % 0x1_0000_0000_0000_0000 + n) % 0x1_0000_0000_0000_0000 == (b + n)
            % 0x1_0000_0000_0000_0000) by (nonlinear_arith)
            requires b >= 0, n >= 0;
    }
}

/// A sender goes on with every non-empty chunk while the transfer is
/// enabled, whatever the clock and whether progress is reported; only an
/// empty read, or a disabled transfer seen at a check, ends it.
pub proof fn lemma_enabled_send_goes_on(s: SendState, n: usize, elapsed_ms: u128)
    ensures
        s.spec_on_read(n, true, elapsed_ms).1.proceed == (n > 0),
        s.spec_on_read(n, false, elapsed_ms).1.proceed == (n > 0 && s.iter_counter
            % PROGRESS_CHECK_CHUNKS != 0),
        s.spec_on_read(n, true, elapsed_ms).0.total_sent == s.total_sent,
{
}

/// The chunk that finishes a transfer is shown as complete, whatever the
/// clock: a file smaller than the buffer, or a chunk shorter than the
/// buffer, finishes it, and a transfer is finished exactly when the
/// report is `Complete`.
pub proof fn lemma_last_chunk_completes(s: ReceiveState, e1: u128, e2: u128)
    requires
        s.wf(),
        s.spec_next_chunk() is Some,
    ensures
        s.spec_after_chunk(e1).0.finished == (s.spec_after_chunk(e1).1 == ProgressReport::Complete),
        (s.spec_after_chunk(e1).1 == ProgressReport::Complete) == (s.spec_after_chunk(e2).1
            == ProgressReport::Complete),
        (s.file_size < TRANSMITTING_BUF_SIZE || s.spec_next_chunk().unwrap() < TRANSMITTING_BUF_SIZE)
            ==> s.spec_after_chunk(e1).0.finished && s.spec_after_chunk(e1).1
            == ProgressReport::Complete,
        s.spec_after_chunk(e1).0.finished ==> s.spec_after_chunk(e1).0.received == s.file_size,
{
}

/// How many more chunks a sender whose chunk counter is `c` writes before
/// it next looks at the flag: the counter is looked at when it is a
/// multiple of a hundred, and it wraps around to 0.
pub open spec fn chunks_until_check(c: u32) -> nat {
    if c % PROGRESS_CHECK_CHUNKS == 0 {
        0
    } else if c > 4294967200 {
        (0x1_0000_0000 - c) as nat
    } else {
        (PROGRESS_CHECK_CHUNKS - c % PROGRESS_CHECK_CHUNKS) as nat
    }
}

/// A sender in state `s` reads each chunk of `steps` (its size, the time
/// since progress was reported and the time since the rate was reported)
/// with the transfer turned off, and writes it when the read lets the
/// transfer proceed: the state at the end, or `None` once a read stops the
/// transfer.
pub open spec fn sent_while_off(s: SendState, steps: Seq<(usize, u128, u128)>) -> Option<SendState>
    decreases steps.len(),
{
    if steps.len() == 0 {
        Some(s)
    } else {
        match sent_while_off(s, steps.drop_last()) {
            None => None,
            Some(t) => {
                let (n, progress_ms, dtr_ms) = steps.last();
                let (t1, d) = t.spec_on_read(n, false, progress_ms);
                if d.proceed {
                    Some(t1.spec_on_written(n, dtr_ms).0)
                } else {
                    None
                }
            },
        }
    }
}

/// Once the transfer is turned off, the sender writes fewer than a hundred
/// further chunks: no more than `chunks_until_check` of its counter, after
/// which its next read stops the transfer.
pub proof fn lemma_off_stops_within_hundred_chunks(s: SendState, steps: Seq<(usize, u128, u128)>)
    ensures
        chunks_until_check(s.iter_counter) < PROGRESS_CHECK_CHUNKS,
        sent_while_off(s, steps) is Some ==> steps.len() <= chunks_until_check(s.iter_counter),
        sent_while_off(s, steps) is Some && steps.len() == chunks_until_check(s.iter_counter) ==> forall|
            n: usize,
            progress_ms: u128,
        | !(#[trigger] sent_while_off(s, steps).unwrap().spec_on_read(n, false, progress_ms)).1.proceed,
{
    lemma_counter_after_chunks(s, steps);
}

/// While the transfer is off and goes on, the counter advances by one per
/// chunk written, and no further than the next check.
proof fn lemma_counter_after_chunks(s: SendState, steps: Seq<(usize, u128, u128)>)
    ensures
        sent_while_off(s, steps) is Some ==> steps.len() <= chunks_until_check(s.iter_counter)
            && sent_while_off(s, steps).unwrap().iter_counter == (s.iter_counter + steps.len())
            % 0x1_0000_0000,
        (s.iter_counter + chunks_until_check(s.iter_counter)) % 0x1_0000_0000
            % (PROGRESS_CHECK_CHUNKS as int) == 0,
    decreases steps.len(),
{
    let c = s.iter_counter;
    let k = chunks_until_check(c);
    if c % PROGRESS_CHECK_CHUNKS == 0 {
    } else if c > 4294967200 {
    } else {
        assert(c + k <= 4294967200);
        assert((c - c % 100) % 100 == 0);
        assert((c + k) % 100 == 0);
    }
    if steps.len() > 0 {
        let prefix = steps.drop_last();
        lemma_counter_after_chunks(s, prefix);
        if let Some(t) = sent_while_off(s, prefix) {
            let j = prefix.len();
            let a = c + j;
            assert(t.iter_counter == a % 0x1_0000_0000);
            assert((a % 0x1_0000_0000 + 1) % 0x1_0000_0000 == (a + 1) % 0x1_0000_0000) by (nonlinear_arith)
                requires a >= 0;
        }
    }
}

/// The chunks still to be read by a transfer in state `s`, in order.
pub open spec fn planned_chunks(s: ReceiveState) -> Seq<u64>
    decreases s.measure(),
    when s.wf()
{
    match s.spec_next_chunk() {
        None => Seq::empty(),
        Some(n) => seq![n] + planned_chunks(s.spec_after_chunk(0).0),
    }
}

/// The sum of a sequence of chunk sizes.
pub open spec fn total_bytes(chunks: Seq<u64>) -> nat
    decreases chunks.len(),
{
    if chunks.len() == 0 {
        0
    } else {
        chunks[0] as nat + total_bytes(chunks.drop_first())
    }
}

/// Which chunk comes next does not depend on the clock: only the progress
/// counter does.
pub proof fn lemma_plan_ignores_clock(s: ReceiveState, elapsed_ms: u128)
    requires
        s.wf(),
        s.spec_next_chunk() is Some,
    ensures
        s.spec_after_chunk(elapsed_ms).0.spec_next_chunk() == s.spec_after_chunk(0).0.spec_next_chunk(),
        s.spec_after_chunk(elapsed_ms).0.received == s.spec_after_chunk(0).0.received,
        s.spec_after_chunk(elapsed_ms).0.finished == s.spec_after_chunk(0).0.finished,
{
}

/// The receiver reads exactly the bytes still missing, in chunks no larger
/// than the buffer, and then stops.
pub proof fn lemma_receive_reads_rest(s: ReceiveState)
    requires
        s.wf(),
    ensures
        total_bytes(planned_chunks(s)) == s.file_size - s.received,
        forall|i: int|
            0 <= i < planned_chunks(s).len() ==> #[trigger] planned_chunks(s)[i]
                <= TRANSMITTING_BUF_SIZE,
    decreases s.measure(),
{
    match s.spec_next_chunk() {
        None => {
        },
        Some(n) => {
            let t = s.spec_after_chunk(0).0;
            lemma_receive_reads_rest(t);
            let p = planned_chunks(s);
            assert(p == seq![n] + planned_chunks(t));
            assert(p.drop_first() =~= planned_chunks(t));
            assert forall|i: int| 0 <= i < p.len() implies #[trigger] p[i] <= TRANSMITTING_BUF_SIZE by {
                if i > 0 {
                    assert(p[i] == planned_chunks(t)[i - 1]);
                }
            }
        },
    }
}

/// A new transfer reads exactly the announced size, in chunks no larger
/// than the buffer.
pub proof fn lemma_receive_reads_file_size(file_size: u64)
    ensures
        total_bytes(planned_chunks(ReceiveState { file_size, received: 0, counter: 0, finished: false })) == file_size,
        forall|i: int|
            0 <= i < planned_chunks(ReceiveState { file_size, received: 0, counter: 0, finished: false }).len()
                ==> #[trigger] planned_chunks(ReceiveState { file_size, received: 0, counter: 0, finished: false })[i]
                <= TRANSMITTING_BUF_SIZE,
{
    lemma_receive_reads_rest(ReceiveState { file_size, received: 0, counter: 0, finished: false });
}

} // verus!
