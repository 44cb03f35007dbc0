//! Taking in what the transport delivers: bytes become lines, lines become
//! records, and the shared state follows.
//!
//! Reading the transport is not done here. The caller reads, hands the
//! outcome to [`TelemetryIngester::on_read`], and does what the returned
//! action says.

use crate::codec::{a_record_is_one_line, decode, decode_inverts_encode, decoded, record_text};
use crate::reassembler::{
    complete_lines, lossy_text, one_line_comes_out_whole, pending, LineReassembler,
};
use crate::record::{network_views, CycleRecord, NetworkView, ObservedNetwork, RecordView, MAX_NETWORKS};
use crate::state::{appended, SharedState, StateView};
use crate::text::{decimal, push_decimal, push_str, string_of, texts};
use vstd::prelude::*;

verus! {

/// How long to wait, in milliseconds, after a read that brought nothing.
pub const BACKOFF_MS: u64 = 10;

/// What one read of the transport has brought.
#[derive(Debug)]
pub enum ReadOutcome {
    /// The bytes that were read; none if the sender was silent.
    Bytes(Vec<u8>),
    /// The read ran into its timeout.
    TimedOut,
    /// The transport has failed.
    Failed,
}

/// What the reader of the transport does next.
#[derive(Debug, Clone, Copy, PartialEq, Eq, Structural)]
pub enum IngestAction {
    /// Read again at once.
    ReadOn,
    /// Wait [`BACKOFF_MS`] milliseconds, then read again.
    BackOff,
    /// Read no more: the state stays as it last was.
    Stop,
}

/// The word that tells whether a record reports motion.
pub open spec fn motion_word(motion_detected: bool) -> Seq<char> {
    if motion_detected {
        "MOTION!"@
    } else {
        "still"@
    }
}

/// The log entry for a record: its number, the motion word and the number
/// of networks.
pub open spec fn summary_text(record: RecordView) -> Seq<char> {
    "Counter: "@ + decimal(record.sequence as nat) + " | "@ + motion_word(record.motion_detected)
        + " | "@ + decimal(record.access_points.len()) + " APs"@
}

/// The log entry for a line that is no record: the line, marked as raw.
pub open spec fn unrecognized_text(line: Seq<char>) -> Seq<char> {
    "Raw: "@ + line
}

/// The state after one line has been taken in. A line that carries a record
/// makes it the latest record and logs its summary; any other line is logged
/// as it is, marked as raw.
pub open spec fn after_line(state: StateView, line: Seq<char>) -> StateView {
    match decoded(line) {
        Some(record) => StateView {
            latest_record: Some(record),
            log: appended(state.log, summary_text(record)),
            source_name: state.source_name,
        },
        None => StateView { log: appended(state.log, unrecognized_text(line)), ..state },
    }
}

/// The state after a run of lines has been taken in, in order.
pub open spec fn after_lines(state: StateView, lines: Seq<Seq<char>>) -> StateView
    decreases lines.len(),
{
    if lines.len() == 0 {
        state
    } else {
        after_line(after_lines(state, lines.drop_last()), lines.last())
    }
}

/// The log entry for a record.
pub fn summary(record: &CycleRecord) -> (entry: String)
    ensures
        entry@ == summary_text(record@),
{
    let mut out: Vec<char> = Vec::new();
    push_str(&mut out, "Counter: ");
    push_decimal(&mut out, record.sequence as u64);
    push_str(&mut out, " | ");
    if record.motion_detected {
        push_str(&mut out, "MOTION!");
    } else {
        push_str(&mut out, "still");
    }
    push_str(&mut out, " | ");
    push_decimal(&mut out, record.access_points.len() as u64);
    push_str(&mut out, " APs");
    assert(out@ =~= summary_text(record@));
    string_of(out.as_slice())
}

/// The log entry for a line that is no record.
pub fn unrecognized(line: &str) -> (entry: String)
    ensures
        entry@ == unrecognized_text(line@),
{
    let mut out: Vec<char> = Vec::new();
    push_str(&mut out, "Raw: ");
    push_str(&mut out, line);
    assert(out@ =~= unrecognized_text(line@));
    string_of(out.as_slice())
}

/// Takes one line into the state.
pub fn accept_line(state: &mut SharedState, line: &str)
    ensures
        final(state)@ == after_line(old(state)@, line@),
{
    match decode(line) {
        Some(record) => {
            let entry = summary(&record);
            state.append(entry);
            state.set_latest(record);
        },
        None => {
            state.append(unrecognized(line));
        },
    }
}

/// What a reader outside this library has made of a line: the counter, the
/// motion number and the networks, as it found them.
#[derive(Debug)]
pub struct ReadRecord {
    /// The value under `counter`.
    pub counter: u32,
    /// The value under `motion`.
    pub motion: u8,
    /// The values under `aps`, in order.
    pub networks: Vec<ObservedNetwork>,
}

/// What a [`ReadRecord`] is, as a mathematical value.
pub struct ReadView {
    pub counter: u32,
    pub motion: u8,
    pub networks: Seq<NetworkView>,
}

impl View for ReadRecord {
    type V = ReadView;

    open spec fn view(&self) -> ReadView {
        ReadView {
            counter: self.counter,
            motion: self.motion,
            networks: network_views(self.networks@),
        }
    }
}

/// The view of a reading that may be absent.
pub open spec fn read_view(read: Option<ReadRecord>) -> Option<ReadView> {
    match read {
        Some(read) => Some(read@),
        None => None,
    }
}

/// The record that a reading stands for: one only where the motion number is
/// 0 or 1 and there are at most ten networks.
pub open spec fn record_of(read: ReadView) -> Option<RecordView> {
    if read.motion <= 1 && read.networks.len() <= MAX_NETWORKS {
        Some(
            RecordView {
                sequence: read.counter,
                motion_detected: read.motion == 1,
                access_points: read.networks,
            },
        )
    } else {
        None
    }
}

/// The record that a line is taken for, given what an outside reader made of
/// it: the record that the line carries, where it is the text of one; else
/// the record that the reading stands for, if any.
pub open spec fn accepted(line: Seq<char>, read: Option<ReadView>) -> Option<RecordView> {
    match decoded(line) {
        Some(record) => Some(record),
        None => match read {
            Some(read) => record_of(read),
            None => None,
        },
    }
}

/// The state after one line has been taken in together with what an outside
/// reader made of it.
pub open spec fn after_line_as(state: StateView, line: Seq<char>, read: Option<ReadView>) -> StateView {
    match accepted(line, read) {
        Some(record) => StateView {
            latest_record: Some(record),
            log: appended(state.log, summary_text(record)),
            source_name: state.source_name,
        },
        None => StateView { log: appended(state.log, unrecognized_text(line)), ..state },
    }
}

/// Without an outside reading a line is taken in as [`after_line`] says, and
/// the text of a record is taken for that record whatever the reading is.
pub proof fn reading_adds_only_to_strict_decoding(
    state: StateView,
    line: Seq<char>,
    read: Option<ReadView>,
)
    ensures
        after_line_as(state, line, None) == after_line(state, line),
        decoded(line) is Some ==> after_line_as(state, line, read) == after_line(state, line),
{
}

/// Takes one line into the state, together with what an outside reader made
/// of it. The line's own text decides where it is the text of a record; the
/// reading counts only where it is not.
pub fn accept_line_as(state: &mut SharedState, line: &str, read: Option<ReadRecord>)
    ensures
        final(state)@ == after_line_as(old(state)@, line@, read_view(read)),
{
    let record = match decode(line) {
        Some(record) => Some(record),
        None => match read {
            Some(read) => {
                if read.motion <= 1 && read.networks.len() <= MAX_NETWORKS {
                    Some(
                        CycleRecord {
                            sequence: read.counter,
                            motion_detected: read.motion == 1,
                            access_points: read.networks,
                        },
                    )
                } else {
                    None
                }
            },
            None => None,
        },
    };
    match record {
        Some(record) => {
            let entry = summary(&record);
            state.append(entry);
            state.set_latest(record);
        },
        None => {
            state.append(unrecognized(line));
        },
    }
}

/// The ingester: the text received so far that no newline has ended.
#[derive(Debug)]
pub struct TelemetryIngester {
    reassembler: LineReassembler,
}

impl View for TelemetryIngester {
    type V = Seq<char>;

    closed spec fn view(&self) -> Seq<char> {
        self.reassembler@
    }
}

impl TelemetryIngester {
    /// An ingester that has received nothing.
    pub fn new() -> (ingester: Self)
        ensures
            ingester@ == Seq::<char>::empty(),
    {
        TelemetryIngester { reassembler: LineReassembler::new() }
    }

    /// Takes the lines into the state, in order.
    fn accept_lines(state: &mut SharedState, lines: &Vec<String>)
        ensures
            final(state)@ == after_lines(old(state)@, texts(lines@)),
    {
        let mut i: usize = 0;
        while i < lines.len()
            invariant
                i <= lines.len(),
                state@ == after_lines(old(state)@, texts(lines@).take(i as int)),
            decreases lines.len() - i,
        {
            accept_line(state, lines[i].as_str());
            proof {
                assert(texts(lines@).take(i + 1).drop_last() =~= texts(lines@).take(i as int));
            }
            i += 1;
        }
        assert(texts(lines@).take(lines.len() as int) =~= texts(lines@));
    }

    /// Takes a chunk of bytes and returns the lines that it completes, for a
    /// caller that takes them into the state one by one.
    pub fn feed(&mut self, bytes: &[u8]) -> (lines: Vec<String>)
        ensures
            texts(lines@) == complete_lines(old(self)@ + lossy_text(bytes@)),
            final(self)@ == pending(old(self)@ + lossy_text(bytes@)),
    {
        self.reassembler.feed(bytes)
    }

    /// Takes in a chunk of text: each line that it completes goes into the
    /// state, and what follows the last newline is kept.
    pub fn ingest_text(&mut self, state: &mut SharedState, chunk: &str)
        ensures
            final(self)@ == pending(old(self)@ + chunk@),
            final(state)@ == after_lines(old(state)@, complete_lines(old(self)@ + chunk@)),
    {
        let lines = self.reassembler.feed_text(chunk);
        Self::accept_lines(state, &lines);
    }

    /// Takes in a chunk of bytes, read as UTF-8 with the replacement
    /// character for what is not.
    pub fn ingest(&mut self, state: &mut SharedState, bytes: &[u8])
        ensures
            final(self)@ == pending(old(self)@ + lossy_text(bytes@)),
            final(state)@ == after_lines(
                old(state)@,
                complete_lines(old(self)@ + lossy_text(bytes@)),
            ),
    {
        let lines = self.reassembler.feed(bytes);
        Self::accept_lines(state, &lines);
    }

    /// Answers one read of the transport. Bytes are taken in and the next
    /// read follows at once; a read that brought nothing is followed by a
    /// pause; a failed transport ends the reading, and the state stays as it
    /// last was.
    pub fn on_read(&mut self, state: &mut SharedState, outcome: &ReadOutcome) -> (action:
        IngestAction)
        ensures
            match *outcome {
                ReadOutcome::Bytes(bytes) if bytes@.len() > 0 => {
                    &&& action == IngestAction::ReadOn
                    &&& final(self)@ == pending(old(self)@ + lossy_text(bytes@))
                    &&& final(state)@ == after_lines(
                        old(state)@,
                        complete_lines(old(self)@ + lossy_text(bytes@)),
                    )
                },
                ReadOutcome::Bytes(_) | ReadOutcome::TimedOut => {
                    &&& action == IngestAction::BackOff
                    &&& final(self)@ == old(self)@
                    &&& final(state)@ == old(state)@
                },
                ReadOutcome::Failed => {
                    &&& action == IngestAction::Stop
                    &&& final(self)@ == old(self)@
                    &&& final(state)@ == old(state)@
                },
            },
    {
        match outcome {
            ReadOutcome::Bytes(bytes) => {
                if bytes.len() > 0 {
                    self.ingest(state, bytes.as_slice());
                    IngestAction::ReadOn
                } else {
                    IngestAction::BackOff
                }
            },
            ReadOutcome::TimedOut => IngestAction::BackOff,
            ReadOutcome::Failed => IngestAction::Stop,
        }
    }
}

/// What the sensor emits, the ingester takes in: the line of any record with
/// at most ten networks, given as text to an ingester that holds nothing
/// pending, leaves nothing pending and makes that record the latest.
pub proof fn an_emitted_record_arrives(state: StateView, record: RecordView)
    requires
        record.access_points.len() <= MAX_NETWORKS,
    ensures
        pending(record_text(record).push('\n')) == Seq::<char>::empty(),
        complete_lines(record_text(record).push('\n')) == seq![record_text(record)],
        after_lines(state, complete_lines(record_text(record).push('\n'))).latest_record == Some(
            record,
        ),
        after_lines(state, complete_lines(record_text(record).push('\n'))).log == appended(
            state.log,
            summary_text(record),
        ),
{
    let line = record_text(record);
    a_record_is_one_line(record);
    one_line_comes_out_whole(line);
    decode_inverts_encode(record);
    let lines = seq![line];
    assert(lines.drop_last() =~= Seq::<Seq<char>>::empty());
    assert(after_lines(state, lines.drop_last()) == state);
    assert(after_lines(state, lines) == after_line(state, line));
}

} // verus!
