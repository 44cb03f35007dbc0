//! Reading a record back from its text.
//!
//! The reader here is generous: it takes numerals with leading zeros, any
//! number of networks, and control characters that stand in a name as they
//! are. What it returns for the text of a record is that record; the codec
//! then checks that what was read, written out again, is the line it was
//! given.

use crate::codec::{
    escaped, escaped_char, hex_char, more_networks_text, motion_text, network_text,
    networks_text, record_text,
};
use crate::record::{network_views, CycleRecord, NetworkView, ObservedNetwork, RecordView};
use crate::text::{
    decimal, digit_char, digit_value, is_digit, occurs_at, signed_decimal, string_of,
};
use vstd::prelude::*;

verus! {

/// Reads digits from `pos` on, with `acc` the value of those before; gives up
/// when the value leaves the range of `u32`.
pub(crate) open spec fn scan_number(text: Seq<char>, pos: int, acc: nat) -> Option<(nat, int)>
    decreases text.len() - pos,
{
    if 0 <= pos < text.len() && is_digit(text[pos]) {
        let next = acc * 10 + digit_value(text[pos]);
        if next > u32::MAX {
            None
        } else {
            scan_number(text, pos + 1, next)
        }
    } else {
        Some((acc, pos))
    }
}

/// A run of at least one digit at `pos`: its value, and where it ends.
pub(crate) open spec fn parse_number(text: Seq<char>, pos: int) -> Option<(nat, int)> {
    if 0 <= pos < text.len() && is_digit(text[pos]) {
        scan_number(text, pos, 0)
    } else {
        None
    }
}

/// A number at `pos`, with or without a minus sign before it.
pub(crate) open spec fn parse_signed(text: Seq<char>, pos: int) -> Option<(int, int)> {
    if 0 <= pos < text.len() && text[pos] == '-' {
        match parse_number(text, pos + 1) {
            Some((n, end)) => Some((-(n as int), end)),
            None => None,
        }
    } else {
        match parse_number(text, pos) {
            Some((n, end)) => Some((n as int, end)),
            None => None,
        }
    }
}

/// The number that a hexadecimal digit in lower case stands for.
pub(crate) open spec fn hex_value(c: char) -> Option<nat> {
    if '0' <= c <= '9' {
        Some((c as u32 - 48) as nat)
    } else if 'a' <= c <= 'f' {
        Some((c as u32 - 87) as nat)
    } else {
        None
    }
}

/// The control character that the two digits after `\u00` stand for.
pub(crate) open spec fn control_char(high: char, low: nat) -> char {
    (((high as u32 - 48) * 16 + low) as u32) as char
}

/// A name from `pos` up to the quote that ends it, with `acc` the characters
/// read before: escapes are undone, any other character is taken as it is.
pub(crate) open spec fn parse_name(text: Seq<char>, pos: int, acc: Seq<char>) -> Option<
    (Seq<char>, int),
>
    decreases text.len() - pos,
{
    if pos < 0 || pos >= text.len() {
        None
    } else if text[pos] == '"' {
        Some((acc, pos))
    } else if text[pos] == '\\' {
        if pos + 1 >= text.len() {
            None
        } else if text[pos + 1] == '"' || text[pos + 1] == '\\' {
            parse_name(text, pos + 2, acc.push(text[pos + 1]))
        } else if text[pos + 1] == 'u' && pos + 5 < text.len() && text[pos + 2] == '0' && text[pos
            + 3] == '0' && (text[pos + 4] == '0' || text[pos + 4] == '1') && hex_value(
            text[pos + 5],
        ) is Some {
            parse_name(
                text,
                pos + 6,
                acc.push(control_char(text[pos + 4], hex_value(text[pos + 5])->0)),
            )
        } else {
            None
        }
    } else {
        parse_name(text, pos + 1, acc.push(text[pos]))
    }
}

/// One network at `pos`, and where its text ends.
pub(crate) open spec fn parse_network(text: Seq<char>, pos: int) -> Option<(NetworkView, int)> {
    if !occurs_at(text, pos, "{\"ssid\":\""@) {
        None
    } else {
        match parse_name(text, pos + "{\"ssid\":\""@.len(), Seq::empty()) {
            None => None,
            Some((name, name_stop)) => {
                if !occurs_at(text, name_stop, "\",\"rssi\":"@) {
                    None
                } else {
                    match parse_signed(text, name_stop + "\",\"rssi\":"@.len()) {
                        None => None,
                        Some((signal, signal_stop)) => {
                            if signal < i8::MIN || signal > i8::MAX || !occurs_at(
                                text,
                                signal_stop,
                                ",\"ch\":"@,
                            ) {
                                None
                            } else {
                                match parse_number(text, signal_stop + ",\"ch\":"@.len()) {
                                    None => None,
                                    Some((channel, channel_stop)) => {
                                        if channel > u8::MAX || !occurs_at(
                                            text,
                                            channel_stop,
                                            "}"@,
                                        ) {
                                            None
                                        } else {
                                            Some(
                                                (
                                                    NetworkView {
                                                        name,
                                                        signal: signal as i8,
                                                        channel: channel as u8,
                                                    },
                                                    channel_stop + "}"@.len(),
                                                ),
                                            )
                                        }
                                    },
                                }
                            }
                        },
                    }
                }
            },
        }
    }
}

/// The networks that follow, each after a comma, added to `acc`.
pub(crate) open spec fn parse_more(text: Seq<char>, pos: int, acc: Seq<NetworkView>) -> Option<
    (Seq<NetworkView>, int),
>
    decreases text.len() - pos,
{
    if 0 <= pos < text.len() && text[pos] == ',' {
        match parse_network(text, pos + 1) {
            Some((network, next)) => if next > pos {
                parse_more(text, next, acc.push(network))
            } else {
                None
            },
            None => None,
        }
    } else {
        Some((acc, pos))
    }
}

/// A run of networks at `pos`, with commas between them; none where no
/// network stands at `pos`.
pub(crate) open spec fn parse_networks(text: Seq<char>, pos: int) -> Option<
    (Seq<NetworkView>, int),
> {
    match parse_network(text, pos) {
        Some((network, next)) => if next > pos {
            parse_more(text, next, seq![network])
        } else {
            None
        },
        None => Some((Seq::empty(), pos)),
    }
}

/// A whole text as one record.
pub(crate) open spec fn parse_record(text: Seq<char>) -> Option<RecordView> {
    if !occurs_at(text, 0, "{\"counter\":"@) {
        None
    } else {
        match parse_number(text, "{\"counter\":"@.len() as int) {
            None => None,
            Some((sequence, sequence_stop)) => {
                let flag = sequence_stop + ",\"motion\":"@.len();
                if !occurs_at(text, sequence_stop, ",\"motion\":"@) || flag >= text.len() || (
                text[flag] != '0' && text[flag] != '1') || !occurs_at(
                    text,
                    flag + 1,
                    ",\"aps\":["@,
                ) {
                    None
                } else {
                    match parse_networks(text, flag + 1 + ",\"aps\":["@.len()) {
                        None => None,
                        Some((networks, stop)) => {
                            if occurs_at(text, stop, "]}"@) && stop + "]}"@.len() == text.len() {
                                Some(
                                    RecordView {
                                        sequence: sequence as u32,
                                        motion_detected: text[flag] == '1',
                                        access_points: networks,
                                    },
                                )
                            } else {
                                None
                            }
                        },
                    }
                }
            },
        }
    }
}

/// Tests whether `piece` stands at `pos`, and says where it ends.
fn expect(text: &[char], pos: usize, piece: &str) -> (r: Option<usize>)
    requires
        pos <= text.len(),
    ensures
        r is Some <==> occurs_at(text@, pos as int, piece@),
        r is Some ==> r->0 == pos + piece@.len(),
{
    let mut at: usize = pos;
    for c in it: piece.chars()
        invariant
            it.seq() == piece@,
            pos <= at <= text.len(),
            at == pos + it.index(),
            text@.subrange(pos as int, at as int) == piece@.take(it.index() as int),
    {
        if at >= text.len() {
            return None;
        }
        if text[at] != c {
            proof {
                if pos + piece@.len() <= text.len() {
                    assert(text@.subrange(pos as int, pos + piece@.len())[it.index() as int]
                        == text@[at as int]);
                }
            }
            return None;
        }
        assert(text@.subrange(pos as int, at + 1) =~= piece@.take(it.index() + 1));
        at += 1;
    }
    assert(piece@.take(piece@.len() as int) =~= piece@);
    Some(at)
}

/// Reads a run of digits as a number.
fn read_number(text: &[char], pos: usize) -> (r: Option<(u32, usize)>)
    requires
        pos <= text.len(),
    ensures
        match r {
            Some((n, end)) => parse_number(text@, pos as int) == Some((n as nat, end as int))
                && pos < end <= text.len(),
            None => parse_number(text@, pos as int) is None,
        },
{
    if pos >= text.len() || !(text[pos] >= '0' && text[pos] <= '9') {
        return None;
    }
    let mut acc: u64 = 0;
    let mut at: usize = pos;
    while at < text.len() && text[at] >= '0' && text[at] <= '9'
        invariant
            pos <= at <= text.len(),
            acc <= u32::MAX,
            at == pos ==> is_digit(text@[pos as int]),
            scan_number(text@, pos as int, 0) == scan_number(text@, at as int, acc as nat),
        decreases text.len() - at,
    {
        let next: u64 = acc * 10 + (text[at] as u64 - 48);
        if next > u32::MAX as u64 {
            return None;
        }
        acc = next;
        at += 1;
    }
    Some((acc as u32, at))
}

/// Reads a number with or without a minus sign.
fn read_signed(text: &[char], pos: usize) -> (r: Option<(i64, usize)>)
    requires
        pos <= text.len(),
    ensures
        match r {
            Some((n, end)) => parse_signed(text@, pos as int) == Some((n as int, end as int))
                && pos < end <= text.len(),
            None => parse_signed(text@, pos as int) is None,
        },
{
    if pos < text.len() && text[pos] == '-' {
        match read_number(text, pos + 1) {
            Some((n, end)) => Some((-(n as i64), end)),
            None => None,
        }
    } else {
        match read_number(text, pos) {
            Some((n, end)) => Some((n as i64, end)),
            None => None,
        }
    }
}

/// Reads a name up to the quote that ends it.
fn read_name(text: &[char], pos: usize) -> (r: Option<(Vec<char>, usize)>)
    requires
        pos <= text.len(),
    ensures
        match r {
            Some((name, end)) => parse_name(text@, pos as int, Seq::empty()) == Some(
                (name@, end as int),
            ) && pos <= end < text.len(),
            None => parse_name(text@, pos as int, Seq::empty()) is None,
        },
{
    let mut name: Vec<char> = Vec::new();
    let mut at: usize = pos;
    while at < text.len() && text[at] != '"'
        invariant
            pos <= at <= text.len(),
            parse_name(text@, pos as int, Seq::empty()) == parse_name(text@, at as int, name@),
        decreases text.len() - at,
    {
        let c = text[at];
        if c == '\\' {
            if at + 1 >= text.len() {
                return None;
            }
            let next = text[at + 1];
            if next == '"' || next == '\\' {
                name.push(next);
                at += 2;
            } else if next == 'u' && text.len() - at > 5 && text[at + 2] == '0' && text[at + 3]
                == '0' && (text[at + 4] == '0' || text[at + 4] == '1') {
                let low = text[at + 5];
                let high: u8 = if text[at + 4] == '1' {
                    16
                } else {
                    0
                };
                if low >= '0' && low <= '9' {
                    name.push((high + (low as u8 - 48)) as char);
                } else if low >= 'a' && low <= 'f' {
                    name.push((high + (low as u8 - 87)) as char);
                } else {
                    return None;
                }
                at += 6;
            } else {
                return None;
            }
        } else {
            name.push(c);
            at += 1;
        }
    }
    if at >= text.len() {
        return None;
    }
    Some((name, at))
}

/// Reads one network.
fn read_network(text: &[char], pos: usize) -> (r: Option<(ObservedNetwork, usize)>)
    requires
        pos <= text.len(),
    ensures
        match r {
            Some((network, end)) => parse_network(text@, pos as int) == Some(
                (network@, end as int),
            ) && pos < end <= text.len(),
            None => parse_network(text@, pos as int) is None,
        },
{
    let name_start = match expect(text, pos, "{\"ssid\":\"") {
        Some(at) => at,
        None => { return None; },
    };
    let (name, name_stop) = match read_name(text, name_start) {
        Some(found) => found,
        None => { return None; },
    };
    let signal_start = match expect(text, name_stop, "\",\"rssi\":") {
        Some(at) => at,
        None => { return None; },
    };
    let (signal, signal_stop) = match read_signed(text, signal_start) {
        Some(found) => found,
        None => { return None; },
    };
    if signal < -128 || signal > 127 {
        return None;
    }
    let channel_start = match expect(text, signal_stop, ",\"ch\":") {
        Some(at) => at,
        None => { return None; },
    };
    let (channel, channel_stop) = match read_number(text, channel_start) {
        Some(found) => found,
        None => { return None; },
    };
    if channel > 255 {
        return None;
    }
    let end = match expect(text, channel_stop, "}") {
        Some(at) => at,
        None => { return None; },
    };
    let name = string_of(name.as_slice());
    Some((ObservedNetwork { name, signal: signal as i8, channel: channel as u8 }, end))
}

/// Reads a run of networks with commas between them.
fn read_networks(text: &[char], pos: usize) -> (r: Option<(Vec<ObservedNetwork>, usize)>)
    requires
        pos <= text.len(),
    ensures
        match r {
            Some((networks, end)) => parse_networks(text@, pos as int) == Some(
                (network_views(networks@), end as int),
            ) && pos <= end <= text.len(),
            None => parse_networks(text@, pos as int) is None,
        },
{
    let mut networks: Vec<ObservedNetwork> = Vec::new();
    let mut at: usize = match read_network(text, pos) {
        Some((network, next)) => {
            networks.push(network);
            next
        },
        None => {
            assert(network_views(networks@) =~= Seq::<NetworkView>::empty());
            return Some((networks, pos));
        },
    };
    assert(network_views(networks@) =~= seq![networks@[0]@]);
    while at < text.len() && text[at] == ','
        invariant
            pos <= at <= text.len(),
            parse_networks(text@, pos as int) == parse_more(
                text@,
                at as int,
                network_views(networks@),
            ),
        decreases text.len() - at,
    {
        let ghost before = network_views(networks@);
        match read_network(text, at + 1) {
            Some((network, next)) => {
                networks.push(network);
                assert(network_views(networks@) =~= before.push(network@));
                at = next;
            },
            None => { return None; },
        }
    }
    Some((networks, at))
}

/// Reads a whole text as one record.
pub(crate) fn read_record(text: &[char]) -> (r: Option<CycleRecord>)
    ensures
        match r {
            Some(record) => parse_record(text@) == Some(record@),
            None => parse_record(text@) is None,
        },
{
    let sequence_start = match expect(text, 0, "{\"counter\":") {
        Some(at) => at,
        None => { return None; },
    };
    let (sequence, sequence_stop) = match read_number(text, sequence_start) {
        Some(found) => found,
        None => { return None; },
    };
    let flag = match expect(text, sequence_stop, ",\"motion\":") {
        Some(at) => at,
        None => { return None; },
    };
    if flag >= text.len() || (text[flag] != '0' && text[flag] != '1') {
        return None;
    }
    let motion_detected = text[flag] == '1';
    let list_start = match expect(text, flag + 1, ",\"aps\":[") {
        Some(at) => at,
        None => { return None; },
    };
    let (access_points, stop) = match read_networks(text, list_start) {
        Some(found) => found,
        None => { return None; },
    };
    match expect(text, stop, "]}") {
        Some(end) => {
            if end == text.len() {
                Some(CycleRecord { sequence, motion_detected, access_points })
            } else {
                None
            }
        },
        None => None,
    }
}

/// Where two pieces stand in a text one after the other, each stands there.
proof fn occurs_at_concat(text: Seq<char>, pos: int, first: Seq<char>, second: Seq<char>)
    requires
        occurs_at(text, pos, first + second),
    ensures
        occurs_at(text, pos, first),
        occurs_at(text, pos + first.len(), second),
{
    let whole = text.subrange(pos, pos + (first + second).len());
    assert forall|i: int| 0 <= i < first.len() implies text.subrange(pos, pos + first.len())[i]
        == first[i] by {
        assert(whole[i] == (first + second)[i]);
    }
    assert(text.subrange(pos, pos + first.len()) =~= first);
    assert forall|i: int| 0 <= i < second.len() implies text.subrange(
        pos + first.len(),
        pos + first.len() + second.len(),
    )[i] == second[i] by {
        assert(whole[first.len() + i] == (first + second)[first.len() + i]);
    }
    assert(text.subrange(pos + first.len(), pos + first.len() + second.len()) =~= second);
}

/// The character at the head of a piece that stands in a text.
proof fn occurs_at_head(text: Seq<char>, pos: int, piece: Seq<char>)
    requires
        occurs_at(text, pos, piece),
        piece.len() > 0,
    ensures
        pos < text.len(),
        text[pos] == piece[0],
{
    assert(text.subrange(pos, pos + piece.len())[0] == text[pos]);
}

/// Scanning over a numeral adds up its value.
proof fn scan_reads_decimal(text: Seq<char>, pos: int, n: nat)
    requires
        occurs_at(text, pos, decimal(n)),
        n <= u32::MAX,
    ensures
        decimal(n).len() >= 1,
        is_digit(text[pos]),
        scan_number(text, pos, 0) == scan_number(text, pos + decimal(n).len(), n),
    decreases n,
{
    if n < 10 {
        occurs_at_head(text, pos, decimal(n));
        assert(digit_value(digit_char(n)) == n);
    } else {
        let head = decimal(n / 10);
        let last = seq![digit_char(n % 10)];
        assert(decimal(n) =~= head + last);
        occurs_at_concat(text, pos, head, last);
        scan_reads_decimal(text, pos, n / 10);
        let at = pos + head.len();
        occurs_at_head(text, at, last);
        assert(digit_value(digit_char(n % 10)) == n % 10);
        assert((n / 10) * 10 + n % 10 == n);
        assert(scan_number(text, at, n / 10) == scan_number(text, at + 1, n));
    }
}

/// A numeral that no digit follows is read back as its number.
proof fn number_reads_back(text: Seq<char>, pos: int, n: nat)
    requires
        occurs_at(text, pos, decimal(n)),
        n <= u32::MAX,
        pos + decimal(n).len() == text.len() || !is_digit(text[pos + decimal(n).len()]),
    ensures
        parse_number(text, pos) == Some((n, pos + decimal(n).len())),
{
    scan_reads_decimal(text, pos, n);
}

/// A signed numeral that no digit follows is read back as its number.
proof fn signed_reads_back(text: Seq<char>, pos: int, i: int)
    requires
        occurs_at(text, pos, signed_decimal(i)),
        -(u32::MAX as int) <= i <= u32::MAX,
        pos + signed_decimal(i).len() == text.len() || !is_digit(
            text[pos + signed_decimal(i).len()],
        ),
    ensures
        parse_signed(text, pos) == Some((i, pos + signed_decimal(i).len())),
{
    if i < 0 {
        occurs_at_concat(text, pos, seq!['-'], decimal((-i) as nat));
        occurs_at_head(text, pos, seq!['-']);
        number_reads_back(text, pos + 1, (-i) as nat);
    } else {
        scan_reads_decimal(text, pos, i as nat);
        number_reads_back(text, pos, i as nat);
    }
}

/// The character at a place within a piece that stands in a text.
proof fn occurs_at_index(text: Seq<char>, pos: int, piece: Seq<char>, k: int)
    requires
        occurs_at(text, pos, piece),
        0 <= k < piece.len(),
    ensures
        pos + k < text.len(),
        text[pos + k] == piece[k],
{
    assert(text.subrange(pos, pos + piece.len())[k] == text[pos + k]);
}

/// The two digits of an escaped control character stand for that character.
proof fn control_char_reads_back(c: char)
    requires
        (c as u32) < 32,
    ensures
        hex_char((c as u32 / 16) as nat) == '0' || hex_char((c as u32 / 16) as nat) == '1',
        hex_value(hex_char((c as u32 % 16) as nat)) == Some((c as u32 % 16) as nat),
        control_char(hex_char((c as u32 / 16) as nat), (c as u32 % 16) as nat) == c,
{
    let code = c as u32;
    let high = code / 16;
    let low = code % 16;
    assert(high == 0 || high == 1);
    assert(high * 16 + low == code);
    vstd::utf8::char_u32_cast(c, code);
}

/// An escaped name with a quote after it is read back as the name.
proof fn name_reads_back(text: Seq<char>, pos: int, acc: Seq<char>, name: Seq<char>)
    requires
        occurs_at(text, pos, escaped(name)),
        pos + escaped(name).len() < text.len(),
        text[pos + escaped(name).len()] == '"',
    ensures
        parse_name(text, pos, acc) == Some((acc + name, pos + escaped(name).len())),
    decreases name.len(),
{
    if name.len() == 0 {
        assert(acc + name =~= acc);
    } else {
        let c = name[0];
        let head = escaped_char(c);
        let rest = name.drop_first();
        occurs_at_concat(text, pos, head, escaped(rest));
        occurs_at_index(text, pos, head, 0);
        if c == '"' || c == '\\' {
            occurs_at_index(text, pos, head, 1);
        } else if (c as u32) < 32 {
            occurs_at_index(text, pos, head, 1);
            occurs_at_index(text, pos, head, 2);
            occurs_at_index(text, pos, head, 3);
            occurs_at_index(text, pos, head, 4);
            occurs_at_index(text, pos, head, 5);
            control_char_reads_back(c);
        }
        name_reads_back(text, pos + head.len(), acc.push(c), rest);
        assert(acc.push(c) + rest =~= acc + name);
    }
}

/// The text of a network is read back as that network.
proof fn network_reads_back(text: Seq<char>, pos: int, network: NetworkView)
    requires
        occurs_at(text, pos, network_text(network)),
    ensures
        parse_network(text, pos) == Some((network, pos + network_text(network).len())),
        network_text(network).len() > 0,
        text[pos] == '{',
{
    reveal_strlit("{\"ssid\":\"");
    reveal_strlit("\",\"rssi\":");
    reveal_strlit(",\"ch\":");
    reveal_strlit("}");
    let open = "{\"ssid\":\""@;
    let name = escaped(network.name);
    let signal_key = "\",\"rssi\":"@;
    let signal = signed_decimal(network.signal as int);
    let channel_key = ",\"ch\":"@;
    let channel = decimal(network.channel as nat);
    let close = "}"@;
    occurs_at_concat(text, pos, open + name + signal_key + signal + channel_key + channel, close);
    occurs_at_concat(text, pos, open + name + signal_key + signal + channel_key, channel);
    occurs_at_concat(text, pos, open + name + signal_key + signal, channel_key);
    occurs_at_concat(text, pos, open + name + signal_key, signal);
    occurs_at_concat(text, pos, open + name, signal_key);
    occurs_at_concat(text, pos, open, name);
    let name_start = pos + open.len();
    let name_stop = name_start + name.len();
    let signal_start = name_stop + signal_key.len();
    let signal_stop = signal_start + signal.len();
    let channel_start = signal_stop + channel_key.len();
    let channel_stop = channel_start + channel.len();
    occurs_at_head(text, pos, open);
    occurs_at_head(text, name_stop, signal_key);
    name_reads_back(text, name_start, Seq::empty(), network.name);
    assert(Seq::<char>::empty() + network.name =~= network.name);
    occurs_at_head(text, signal_stop, channel_key);
    signed_reads_back(text, signal_start, network.signal as int);
    occurs_at_head(text, channel_stop, close);
    number_reads_back(text, channel_start, network.channel as nat);
}

/// The text of further networks, which no comma follows, is read back as
/// those networks.
proof fn more_read_back(text: Seq<char>, pos: int, acc: Seq<NetworkView>, rest: Seq<NetworkView>)
    requires
        occurs_at(text, pos, more_networks_text(rest)),
        pos + more_networks_text(rest).len() == text.len() || text[pos + more_networks_text(
            rest,
        ).len()] != ',',
    ensures
        parse_more(text, pos, acc) == Some((acc + rest, pos + more_networks_text(rest).len())),
    decreases rest.len(),
{
    if rest.len() == 0 {
        assert(acc + rest =~= acc);
    } else {
        reveal_strlit(",");
        let comma = ","@;
        let first = network_text(rest[0]);
        let others = more_networks_text(rest.drop_first());
        occurs_at_concat(text, pos, comma + first, others);
        occurs_at_concat(text, pos, comma, first);
        occurs_at_head(text, pos, comma);
        network_reads_back(text, pos + 1, rest[0]);
        let next = pos + 1 + first.len();
        more_read_back(text, next, acc.push(rest[0]), rest.drop_first());
        assert(acc.push(rest[0]) + rest.drop_first() =~= acc + rest);
    }
}

/// The text of a run of networks, with a closing bracket after it, is read
/// back as those networks.
proof fn networks_read_back(text: Seq<char>, pos: int, networks: Seq<NetworkView>)
    requires
        occurs_at(text, pos, networks_text(networks)),
        pos + networks_text(networks).len() < text.len(),
        text[pos + networks_text(networks).len()] == ']',
    ensures
        parse_networks(text, pos) == Some((networks, pos + networks_text(networks).len())),
{
    if networks.len() == 0 {
        reveal_strlit("{\"ssid\":\"");
        if occurs_at(text, pos, "{\"ssid\":\""@) {
            occurs_at_head(text, pos, "{\"ssid\":\""@);
        }
        assert(networks =~= Seq::<NetworkView>::empty());
    } else {
        let first = network_text(networks[0]);
        let others = more_networks_text(networks.drop_first());
        occurs_at_concat(text, pos, first, others);
        network_reads_back(text, pos, networks[0]);
        more_read_back(text, pos + first.len(), seq![networks[0]], networks.drop_first());
        assert(seq![networks[0]] + networks.drop_first() =~= networks);
    }
}

/// Where each part of a record's text stands in it.
proof fn record_layout(record: RecordView)
    ensures
        ({
            let text = record_text(record);
            let sequence_start = "{\"counter\":"@.len() as int;
            let sequence_stop = sequence_start + decimal(record.sequence as nat).len();
            let flag = sequence_stop + ",\"motion\":"@.len();
            let list_start = flag + motion_text(record.motion_detected).len() + ",\"aps\":["@.len();
            let stop = list_start + networks_text(record.access_points).len();
            &&& occurs_at(text, 0, "{\"counter\":"@)
            &&& occurs_at(text, sequence_start, decimal(record.sequence as nat))
            &&& occurs_at(text, sequence_stop, ",\"motion\":"@)
            &&& occurs_at(text, flag, motion_text(record.motion_detected))
            &&& occurs_at(
                text,
                flag + motion_text(record.motion_detected).len(),
                ",\"aps\":["@,
            )
            &&& occurs_at(text, list_start, networks_text(record.access_points))
            &&& occurs_at(text, stop, "]}"@)
            &&& stop + "]}"@.len() == text.len()
        }),
{
    let text = record_text(record);
    let open = "{\"counter\":"@;
    let sequence = decimal(record.sequence as nat);
    let motion_key = ",\"motion\":"@;
    let motion = motion_text(record.motion_detected);
    let list_key = ",\"aps\":["@;
    let networks = networks_text(record.access_points);
    let close = "]}"@;
    assert(text.subrange(0, text.len() as int) =~= text);
    occurs_at_concat(text, 0, open + sequence + motion_key + motion + list_key + networks, close);
    occurs_at_concat(text, 0, open + sequence + motion_key + motion + list_key, networks);
    occurs_at_concat(text, 0, open + sequence + motion_key + motion, list_key);
    occurs_at_concat(text, 0, open + sequence + motion_key, motion);
    occurs_at_concat(text, 0, open + sequence, motion_key);
    occurs_at_concat(text, 0, open, sequence);
}

/// The text of a record is read back as that record.
pub(crate) proof fn record_reads_back(record: RecordView)
    ensures
        parse_record(record_text(record)) == Some(record),
{
    let text = record_text(record);
    let sequence_start = "{\"counter\":"@.len() as int;
    let sequence_stop = sequence_start + decimal(record.sequence as nat).len();
    let flag = sequence_stop + ",\"motion\":"@.len();
    let list_start = flag + 1 + ",\"aps\":["@.len();
    let stop = list_start + networks_text(record.access_points).len();
    record_layout(record);
    assert(text[sequence_stop] == ',') by {
        reveal_strlit(",\"motion\":");
        occurs_at_head(text, sequence_stop, ",\"motion\":"@);
    }
    number_reads_back(text, sequence_start, record.sequence as nat);
    assert(motion_text(record.motion_detected).len() == 1 && text[flag] == (if record.motion_detected {
        '1'
    } else {
        '0'
    })) by {
        reveal_strlit("0");
        reveal_strlit("1");
        occurs_at_head(text, flag, motion_text(record.motion_detected));
    }
    assert(stop < text.len() && text[stop] == ']') by {
        reveal_strlit("]}");
        occurs_at_head(text, stop, "]}"@);
    }
    networks_read_back(text, list_start, record.access_points);
    assert(parse_number(text, sequence_start) == Some((record.sequence as nat, sequence_stop)));
    assert(parse_networks(text, list_start) == Some((record.access_points, stop)));
}

} // verus!
