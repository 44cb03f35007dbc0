//! What the display shows of the state: the decisions on plain values that
//! stand between the shared state and the screen.

use crate::record::{CycleRecord, RecordView};
use crate::text::{chars_of, string_of, texts};
use vstd::prelude::*;

verus! {

/// The most bytes of a name that the display shows in full.
pub const NAME_WIDTH: usize = 12;

/// The bytes kept of a name that is too long, before the dots.
pub const NAME_KEPT: usize = 9;

/// The number of log entries that the display shows.
pub const SHOWN_ENTRIES: usize = 8;

/// How strong a signal is, for its colour on the screen.
#[derive(Debug, Clone, Copy, PartialEq, Eq, Structural)]
pub enum SignalBand {
    /// From -50 dBm up to 0 dBm.
    Strong,
    /// From -70 dBm up to -51 dBm.
    Fair,
    /// Anything else.
    Weak,
}

/// The band of a signal level.
pub open spec fn band_of(signal: i8) -> SignalBand {
    if -50 <= signal <= 0 {
        SignalBand::Strong
    } else if -70 <= signal <= -51 {
        SignalBand::Fair
    } else {
        SignalBand::Weak
    }
}

/// The band of a signal level.
pub fn signal_band(signal: i8) -> (band: SignalBand)
    ensures
        band == band_of(signal),
{
    if -50 <= signal && signal <= 0 {
        SignalBand::Strong
    } else if -70 <= signal && signal <= -51 {
        SignalBand::Fair
    } else {
        SignalBand::Weak
    }
}

/// What the header says of motion.
#[derive(Debug, Clone, Copy, PartialEq, Eq, Structural)]
pub enum MotionStatus {
    /// No record has arrived yet.
    Waiting,
    /// The latest record reports no motion.
    Still,
    /// The latest record reports motion.
    Moving,
}

/// The status for the latest record, if there is one.
pub open spec fn status_of(latest: Option<RecordView>) -> MotionStatus {
    match latest {
        None => MotionStatus::Waiting,
        Some(record) => if record.motion_detected {
            MotionStatus::Moving
        } else {
            MotionStatus::Still
        },
    }
}

/// The view of a record that may be absent.
pub open spec fn latest_view(latest: Option<&CycleRecord>) -> Option<RecordView> {
    match latest {
        Some(record) => Some(record@),
        None => None,
    }
}

/// The status for the latest record, if there is one.
pub fn motion_status(latest: Option<&CycleRecord>) -> (status: MotionStatus)
    ensures
        status == status_of(latest_view(latest)),
{
    match latest {
        None => MotionStatus::Waiting,
        Some(record) => if record.motion_detected {
            MotionStatus::Moving
        } else {
            MotionStatus::Still
        },
    }
}

/// The number of bytes that a character takes in UTF-8.
pub open spec fn char_width(c: char) -> nat {
    let code = c as u32;
    if code < 0x80 {
        1
    } else if code < 0x800 {
        2
    } else if code < 0x10000 {
        3
    } else {
        4
    }
}

/// The number of bytes that a text takes in UTF-8.
pub open spec fn text_width(text: Seq<char>) -> nat
    decreases text.len(),
{
    if text.len() == 0 {
        0
    } else {
        text_width(text.drop_last()) + char_width(text.last())
    }
}

/// The longest run of characters at the start of a text that takes no more
/// than `budget` bytes.
pub open spec fn prefix_within(text: Seq<char>, budget: nat) -> Seq<char>
    decreases text.len(),
{
    if text.len() == 0 || char_width(text[0]) > budget {
        Seq::empty()
    } else {
        seq![text[0]] + prefix_within(text.drop_first(), (budget - char_width(text[0])) as nat)
    }
}

/// A name as the display shows it: whole if it takes at most twelve bytes,
/// else the whole characters among its first nine bytes and three dots.
pub open spec fn shortened_text(name: Seq<char>) -> Seq<char> {
    if text_width(name) > NAME_WIDTH {
        prefix_within(name, NAME_KEPT as nat) + seq!['.', '.', '.']
    } else {
        name
    }
}

/// The newest `count` entries of a log, newest first.
pub open spec fn newest_first(log: Seq<Seq<char>>, count: nat) -> Seq<Seq<char>> {
    Seq::new(
        if log.len() < count {
            log.len()
        } else {
            count
        },
        |i: int| log[log.len() - 1 - i],
    )
}

/// A part of a text takes no more bytes than the whole.
proof fn width_of_prefix(text: Seq<char>, i: int)
    requires
        0 <= i <= text.len(),
    ensures
        text_width(text.take(i)) <= text_width(text),
    decreases text.len(),
{
    if i < text.len() {
        width_of_prefix(text.drop_last(), i);
        assert(text.drop_last().take(i) =~= text.take(i));
    } else {
        assert(text.take(i) =~= text);
    }
}

/// The number of bytes that a character takes in UTF-8.
fn width(c: char) -> (w: usize)
    ensures
        w == char_width(c),
        1 <= w <= 4,
{
    let code: u32 = c as u32;
    if code < 0x80 {
        1
    } else if code < 0x800 {
        2
    } else if code < 0x10000 {
        3
    } else {
        4
    }
}

/// Whether a text takes more than twelve bytes.
fn too_wide(chars: &Vec<char>) -> (wide: bool)
    ensures
        wide == (text_width(chars@) > NAME_WIDTH),
{
    let mut total: usize = 0;
    let mut i: usize = 0;
    while i < chars.len()
        invariant
            i <= chars.len(),
            total == text_width(chars@.take(i as int)),
            total <= NAME_WIDTH,
        decreases chars.len() - i,
    {
        let w = width(chars[i]);
        proof {
            assert(chars@.take(i + 1).drop_last() =~= chars@.take(i as int));
            width_of_prefix(chars@, i + 1);
        }
        if total + w > NAME_WIDTH {
            return true;
        }
        total = total + w;
        i += 1;
    }
    assert(chars@.take(chars.len() as int) =~= chars@);
    false
}

/// A name as the display shows it.
pub fn shortened(name: &str) -> (shown: String)
    ensures
        shown@ == shortened_text(name@),
{
    let chars = chars_of(name);
    if !too_wide(&chars) {
        return string_of(chars.as_slice());
    }
    let mut shown: Vec<char> = Vec::new();
    let mut left: usize = NAME_KEPT;
    let mut i: usize = 0;
    assert(chars@.skip(0) =~= chars@);
    while i < chars.len() && width(chars[i]) <= left
        invariant
            i <= chars.len(),
            left <= NAME_KEPT,
            prefix_within(chars@, NAME_KEPT as nat) == shown@ + prefix_within(
                chars@.skip(i as int),
                left as nat,
            ),
        decreases chars.len() - i,
    {
        let ghost rest = chars@.skip(i as int);
        let ghost before = shown@;
        assert(rest[0] == chars@[i as int]);
        assert(rest.drop_first() =~= chars@.skip(i + 1));
        shown.push(chars[i]);
        left = left - width(chars[i]);
        assert(shown@ + prefix_within(chars@.skip(i + 1), left as nat) =~= before + (seq![rest[0]]
            + prefix_within(rest.drop_first(), left as nat)));
        i += 1;
    }
    proof {
        let rest = chars@.skip(i as int);
        if i < chars.len() {
            assert(rest[0] == chars@[i as int]);
        }
        assert(prefix_within(rest, left as nat) =~= Seq::<char>::empty());
        assert(shown@ + Seq::<char>::empty() =~= shown@);
    }
    let ghost kept = shown@;
    shown.push('.');
    shown.push('.');
    shown.push('.');
    assert(shown@ =~= kept + seq!['.', '.', '.']);
    string_of(shown.as_slice())
}

/// The entries of the log that the display shows: the newest eight, newest
/// first.
pub fn shown_entries(log: &Vec<String>) -> (shown: Vec<String>)
    ensures
        texts(shown@) == newest_first(texts(log@), SHOWN_ENTRIES as nat),
{
    let count = if log.len() < SHOWN_ENTRIES {
        log.len()
    } else {
        SHOWN_ENTRIES
    };
    let mut shown: Vec<String> = Vec::new();
    let mut i: usize = 0;
    while i < count
        invariant
            i <= count <= log.len(),
            shown.len() == i,
            forall|k: int| 0 <= k < i ==> (#[trigger] shown@[k])@ == log@[log.len() - 1 - k]@,
        decreases count - i,
    {
        shown.push(log[log.len() - 1 - i].clone());
        i += 1;
    }
    assert(texts(shown@) =~= newest_first(texts(log@), SHOWN_ENTRIES as nat));
    shown
}

} // verus!
