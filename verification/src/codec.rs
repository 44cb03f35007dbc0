//! The wire form of a cycle record: one line of text.
//!
//! A record travels as
//! `{"counter":N,"motion":M,"aps":[{"ssid":"S","rssi":R,"ch":C},...]}`,
//! with `N`, `R` and `C` in decimal, `M` either `0` or `1`, and up to ten
//! networks. In a name, a quote and a backslash carry a backslash before
//! them, and a control character travels as `\u00XX`, so that any name can be
//! carried and the line holds no newline. Decoding is strict: a line is taken
//! for a record only if it is, character for character, the text of one.

use crate::record::{network_views, CycleRecord, NetworkView, ObservedNetwork, RecordView, MAX_NETWORKS};
use crate::parse::{read_record, record_reads_back};
use crate::text::{
    chars_of, decimal, push_decimal, push_signed_decimal, push_str, same_chars, signed_decimal,
    string_of,
};
use vstd::prelude::*;
use vstd::string::StringExecFns;

verus! {

/// The digit, in lower case, for a number below sixteen.
pub open spec fn hex_char(d: nat) -> char {
    if d < 10 {
        (d + 48) as char
    } else {
        (d + 87) as char
    }
}

/// One character of a name as the wire carries it: a quote and a backslash
/// with a backslash before them, a control character as `\u00XX`, any other
/// character as it is.
pub open spec fn escaped_char(c: char) -> Seq<char> {
    if c == '"' {
        seq!['\\', '"']
    } else if c == '\\' {
        seq!['\\', '\\']
    } else if (c as u32) < 32 {
        seq!['\\', 'u', '0', '0', hex_char((c as u32 / 16) as nat), hex_char((c as u32 % 16) as nat)]
    } else {
        seq![c]
    }
}

/// A name as the wire carries it: its characters, escaped, in order.
pub open spec fn escaped(name: Seq<char>) -> Seq<char>
    decreases name.len(),
{
    if name.len() == 0 {
        Seq::empty()
    } else {
        escaped_char(name[0]) + escaped(name.drop_first())
    }
}

/// A record that the wire carries: one with at most ten networks.
pub open spec fn is_wire_record(record: RecordView) -> bool {
    record.access_points.len() <= MAX_NETWORKS
}

/// The text of one network: `{"ssid":"S","rssi":R,"ch":C}`, with the name
/// escaped.
pub open spec fn network_text(network: NetworkView) -> Seq<char> {
    "{\"ssid\":\""@ + escaped(network.name) + "\",\"rssi\":"@ + signed_decimal(
        network.signal as int,
    ) + ",\"ch\":"@ + decimal(network.channel as nat) + "}"@
}

/// The text of the networks that follow the first: each with a comma before it.
pub open spec fn more_networks_text(networks: Seq<NetworkView>) -> Seq<char>
    decreases networks.len(),
{
    if networks.len() == 0 {
        Seq::empty()
    } else {
        ","@ + network_text(networks[0]) + more_networks_text(networks.drop_first())
    }
}

/// The text of a run of networks, with commas between them.
pub open spec fn networks_text(networks: Seq<NetworkView>) -> Seq<char> {
    if networks.len() == 0 {
        Seq::empty()
    } else {
        network_text(networks[0]) + more_networks_text(networks.drop_first())
    }
}

/// The digit that carries the motion flag.
pub open spec fn motion_text(motion_detected: bool) -> Seq<char> {
    if motion_detected {
        "1"@
    } else {
        "0"@
    }
}

/// The text of a record, without the newline that ends its line.
pub open spec fn record_text(record: RecordView) -> Seq<char> {
    "{\"counter\":"@ + decimal(record.sequence as nat) + ",\"motion\":"@ + motion_text(
        record.motion_detected,
    ) + ",\"aps\":["@ + networks_text(record.access_points) + "]}"@
}

/// Adding a network at the end adds a comma and its text at the end.
proof fn more_networks_text_push(networks: Seq<NetworkView>, last: NetworkView)
    ensures
        more_networks_text(networks.push(last)) == more_networks_text(networks) + ","@
            + network_text(last),
    decreases networks.len(),
{
    if networks.len() == 0 {
        assert(networks.push(last).drop_first() =~= Seq::<NetworkView>::empty());
        assert(more_networks_text(networks.push(last)) =~= ","@ + network_text(last)
            + more_networks_text(Seq::<NetworkView>::empty()));
        assert(more_networks_text(networks.push(last)) =~= more_networks_text(networks) + ","@
            + network_text(last));
    } else {
        assert(networks.push(last).drop_first() =~= networks.drop_first().push(last));
        more_networks_text_push(networks.drop_first(), last);
        assert(more_networks_text(networks.push(last)) =~= more_networks_text(networks) + ","@
            + network_text(last));
    }
}

/// Adding a network to a run that is not empty adds a comma and its text.
proof fn networks_text_push(networks: Seq<NetworkView>, last: NetworkView)
    ensures
        networks_text(networks.push(last)) == if networks.len() == 0 {
            network_text(last)
        } else {
            networks_text(networks) + ","@ + network_text(last)
        },
{
    if networks.len() == 0 {
        assert(networks.push(last).drop_first() =~= Seq::<NetworkView>::empty());
        assert(networks_text(networks.push(last)) =~= network_text(last));
    } else {
        assert(networks.push(last).drop_first() =~= networks.drop_first().push(last));
        assert(networks.push(last)[0] == networks[0]);
        more_networks_text_push(networks.drop_first(), last);
        assert(networks_text(networks.push(last)) =~= networks_text(networks) + ","@
            + network_text(last));
    }
}

/// An escaped name with one more character is the escaped name with the
/// escaped character after it.
pub proof fn escaped_push(name: Seq<char>, last: char)
    ensures
        escaped(name.push(last)) == escaped(name) + escaped_char(last),
    decreases name.len(),
{
    if name.len() == 0 {
        assert(name.push(last).drop_first() =~= Seq::<char>::empty());
        assert(escaped(name.push(last)) =~= escaped_char(last) + escaped(Seq::<char>::empty()));
        assert(escaped(name.push(last)) =~= escaped(name) + escaped_char(last));
    } else {
        assert(name.push(last).drop_first() =~= name.drop_first().push(last));
        assert(name.push(last)[0] == name[0]);
        escaped_push(name.drop_first(), last);
        assert(escaped(name.push(last)) =~= escaped(name) + escaped_char(last));
    }
}

/// The digit, in lower case, for a number below sixteen.
fn hex_digit(d: u8) -> (c: char)
    requires
        d < 16,
    ensures
        c == hex_char(d as nat),
{
    if d < 10 {
        (48 + d) as char
    } else {
        (87 + d) as char
    }
}

/// Appends a name as the wire carries it.
fn push_escaped(out: &mut Vec<char>, name: &str)
    ensures
        final(out)@ == old(out)@ + escaped(name@),
{
    let chars = chars_of(name);
    assert(escaped(chars@.take(0)) =~= Seq::<char>::empty());
    let mut i: usize = 0;
    while i < chars.len()
        invariant
            i <= chars.len(),
            chars@ == name@,
            out@ == old(out)@ + escaped(chars@.take(i as int)),
        decreases chars.len() - i,
    {
        let c = chars[i];
        let ghost before = out@;
        proof {
            escaped_push(chars@.take(i as int), c);
            assert(chars@.take(i + 1) =~= chars@.take(i as int).push(c));
        }
        if c == '"' {
            out.push('\\');
            out.push('"');
            assert(out@ =~= before + seq!['\\', '"']);
        } else if c == '\\' {
            out.push('\\');
            out.push('\\');
            assert(out@ =~= before + seq!['\\', '\\']);
        } else if (c as u32) < 32 {
            let wide: u32 = c as u32;
            let code: u8 = wide as u8;
            let high = hex_digit(code / 16);
            let low = hex_digit(code % 16);
            out.push('\\');
            out.push('u');
            out.push('0');
            out.push('0');
            out.push(high);
            out.push(low);
            assert(out@ =~= before + seq![
                '\\',
                'u',
                '0',
                '0',
                hex_char((c as u32 / 16) as nat),
                hex_char((c as u32 % 16) as nat),
            ]);
        } else {
            out.push(c);
            assert(out@ =~= before + seq![c]);
        }
        assert(out@ =~= before + escaped_char(c));
        i += 1;
    }
    assert(chars@.take(chars.len() as int) =~= chars@);
}

/// Appends the text of one network.
fn push_network(out: &mut Vec<char>, network: &ObservedNetwork)
    ensures
        final(out)@ == old(out)@ + network_text(network@),
{
    push_str(out, "{\"ssid\":\"");
    push_escaped(out, network.name.as_str());
    push_str(out, "\",\"rssi\":");
    push_signed_decimal(out, network.signal as i32);
    push_str(out, ",\"ch\":");
    push_decimal(out, network.channel as u64);
    push_str(out, "}");
    assert(out@ =~= old(out)@ + network_text(network@));
}

/// The text of a record, as characters.
fn record_chars(record: &CycleRecord) -> (out: Vec<char>)
    ensures
        out@ == record_text(record@),
{
    let mut out: Vec<char> = Vec::new();
    push_str(&mut out, "{\"counter\":");
    push_decimal(&mut out, record.sequence as u64);
    push_str(&mut out, ",\"motion\":");
    if record.motion_detected {
        push_str(&mut out, "1");
    } else {
        push_str(&mut out, "0");
    }
    push_str(&mut out, ",\"aps\":[");
    let ghost head = out@;
    let ghost networks = network_views(record.access_points@);
    assert(head =~= "{\"counter\":"@ + decimal(record.sequence as nat) + ",\"motion\":"@
        + motion_text(record.motion_detected) + ",\"aps\":["@);
    let mut i: usize = 0;
    while i < record.access_points.len()
        invariant
            i <= record.access_points.len(),
            networks == network_views(record.access_points@),
            out@ == head + networks_text(networks.take(i as int)),
        decreases record.access_points.len() - i,
    {
        if i > 0 {
            push_str(&mut out, ",");
        }
        push_network(&mut out, &record.access_points[i]);
        proof {
            networks_text_push(networks.take(i as int), networks[i as int]);
            assert(networks.take(i + 1) =~= networks.take(i as int).push(networks[i as int]));
            assert(out@ =~= head + networks_text(networks.take(i + 1)));
        }
        i += 1;
    }
    assert(networks.take(i as int) =~= networks);
    push_str(&mut out, "]}");
    out
}

/// The line that carries a record: its text and a newline.
pub fn encode(record: &CycleRecord) -> (line: String)
    ensures
        line@ == record_text(record@).push('\n'),
        holds_no_newline(record_text(record@)),
{
    proof {
        a_record_is_one_line(record@);
    }
    let mut out = record_chars(record);
    out.push('\n');
    string_of(out.as_slice())
}

/// Whether a line is the text of some wire record.
pub open spec fn is_record_line(line: Seq<char>) -> bool {
    exists|record: RecordView| is_wire_record(record) && #[trigger] record_text(record) == line
}

/// The record that a line carries: the wire record whose text the line is,
/// where there is one.
pub open spec fn decoded(line: Seq<char>) -> Option<RecordView> {
    if is_record_line(line) {
        Some(choose|record: RecordView| is_wire_record(record) && #[trigger] record_text(record) == line)
    } else {
        None
    }
}

/// The view of a record that may be absent.
pub open spec fn record_view(record: Option<CycleRecord>) -> Option<RecordView> {
    match record {
        Some(record) => Some(record@),
        None => None,
    }
}

/// Two records with the same text are the same record.
pub proof fn record_text_is_injective(a: RecordView, b: RecordView)
    requires
        record_text(a) == record_text(b),
    ensures
        a == b,
{
    record_reads_back(a);
    record_reads_back(b);
}

/// Decoding undoes encoding: the text of a record with at most ten networks,
/// whatever its names hold, carries that record and no other.
pub proof fn decode_inverts_encode(record: RecordView)
    requires
        record.access_points.len() <= MAX_NETWORKS,
    ensures
        decoded(record_text(record)) == Some(record),
{
    let line = record_text(record);
    assert(is_record_line(line));
    let chosen = choose|other: RecordView| is_wire_record(other) && #[trigger] record_text(other) == line;
    record_text_is_injective(chosen, record);
}

/// Whether the wire carries a record: whether it has at most ten networks.
pub fn fits_wire(record: &CycleRecord) -> (fits: bool)
    ensures
        fits == is_wire_record(record@),
{
    record.access_points.len() <= MAX_NETWORKS
}

/// Decodes one line, without its newline, into the record that it carries.
///
/// The line must be the text of a record with at most ten networks,
/// character for character; anything else is no record.
pub fn decode(line: &str) -> (record: Option<CycleRecord>)
    ensures
        match record {
            Some(record) => is_wire_record(record@) && record_text(record@) == line@,
            None => !is_record_line(line@),
        },
        record_view(record) == decoded(line@),
{
    let chars = chars_of(line);
    let read = read_record(chars.as_slice());
    proof {
        if is_record_line(line@) {
            let carried = choose|other: RecordView| is_wire_record(other) && #[trigger] record_text(other) == line@;
            record_reads_back(carried);
        }
    }
    match read {
        Some(record) => {
            if fits_wire(&record) {
                let written = record_chars(&record);
                if same_chars(written.as_slice(), chars.as_slice()) {
                    proof {
                        decode_inverts_encode(record@);
                    }
                    return Some(record);
                }
            }
            None
        },
        None => None,
    }
}

/// The line that the sensor emits once, before its first cycle.
pub fn startup_line() -> (line: String)
    ensures
        line@ == "{\"status\":\"WiFi Motion Sensor Started\"}\n"@,
{
    String::from_str("{\"status\":\"WiFi Motion Sensor Started\"}\n")
}

/// The line that stands in for a record when a scan has failed.
pub fn scan_failed_line() -> (line: String)
    ensures
        line@ == "{\"error\":\"scan_failed\"}\n"@,
{
    String::from_str("{\"error\":\"scan_failed\"}\n")
}

/// Whether a text holds no newline.
pub open spec fn holds_no_newline(text: Seq<char>) -> bool {
    forall|i: int| 0 <= i < text.len() ==> #[trigger] text[i] != '\n'
}

/// Two texts without a newline make one without a newline.
proof fn no_newline_in_both(first: Seq<char>, second: Seq<char>)
    requires
        holds_no_newline(first),
        holds_no_newline(second),
    ensures
        holds_no_newline(first + second),
{
    assert forall|i: int| 0 <= i < (first + second).len() implies #[trigger] (first + second)[i]
        != '\n' by {
        if i < first.len() {
            assert((first + second)[i] == first[i]);
        } else {
            assert((first + second)[i] == second[i - first.len()]);
        }
    }
}

/// A numeral holds no newline.
proof fn no_newline_in_decimal(n: nat)
    ensures
        holds_no_newline(decimal(n)),
        holds_no_newline(signed_decimal(n as int)),
        holds_no_newline(signed_decimal(-(n as int))),
    decreases n,
{
    if n >= 10 {
        no_newline_in_decimal(n / 10);
        assert(decimal(n) =~= decimal(n / 10) + seq![crate::text::digit_char(n % 10)]);
        no_newline_in_both(decimal(n / 10), seq![crate::text::digit_char(n % 10)]);
    }
    no_newline_in_both(seq!['-'], decimal(n));
}

/// An escaped name holds no newline.
proof fn no_newline_in_escaped(name: Seq<char>)
    ensures
        holds_no_newline(escaped(name)),
    decreases name.len(),
{
    if name.len() > 0 {
        no_newline_in_escaped(name.drop_first());
        no_newline_in_both(escaped_char(name[0]), escaped(name.drop_first()));
    }
}

/// The text of a network holds no newline.
proof fn no_newline_in_network(network: NetworkView)
    ensures
        holds_no_newline(network_text(network)),
{
    let open = "{\"ssid\":\""@;
    let name = escaped(network.name);
    let signal_key = "\",\"rssi\":"@;
    let signal = signed_decimal(network.signal as int);
    let channel_key = ",\"ch\":"@;
    let channel = decimal(network.channel as nat);
    let close = "}"@;
    assert(holds_no_newline(open)) by {
        reveal_strlit("{\"ssid\":\"");
        assert forall|i: int| 0 <= i < open.len() implies #[trigger] open[i] != '\n' by {
            assert(open[0] != '\n' && open[1] != '\n' && open[2] != '\n' && open[3] != '\n'
                && open[4] != '\n' && open[5] != '\n' && open[6] != '\n' && open[7] != '\n'
                && open[8] != '\n');
        }
    }
    assert(holds_no_newline(signal_key)) by {
        reveal_strlit("\",\"rssi\":");
        assert forall|i: int| 0 <= i < signal_key.len() implies #[trigger] signal_key[i]
            != '\n' by {
            assert(signal_key[0] != '\n' && signal_key[1] != '\n' && signal_key[2] != '\n'
                && signal_key[3] != '\n' && signal_key[4] != '\n' && signal_key[5] != '\n'
                && signal_key[6] != '\n' && signal_key[7] != '\n' && signal_key[8] != '\n');
        }
    }
    assert(holds_no_newline(channel_key)) by {
        reveal_strlit(",\"ch\":");
        assert forall|i: int| 0 <= i < channel_key.len() implies #[trigger] channel_key[i]
            != '\n' by {
            assert(channel_key[0] != '\n' && channel_key[1] != '\n' && channel_key[2] != '\n'
                && channel_key[3] != '\n' && channel_key[4] != '\n' && channel_key[5] != '\n');
        }
    }
    assert(holds_no_newline(close)) by {
        reveal_strlit("}");
        assert(close[0] != '\n');
    }
    no_newline_in_escaped(network.name);
    if network.signal >= 0 {
        no_newline_in_decimal(network.signal as nat);
    } else {
        no_newline_in_decimal((-(network.signal as int)) as nat);
    }
    no_newline_in_decimal(network.channel as nat);
    no_newline_in_both(open, name);
    no_newline_in_both(open + name, signal_key);
    no_newline_in_both(open + name + signal_key, signal);
    no_newline_in_both(open + name + signal_key + signal, channel_key);
    no_newline_in_both(open + name + signal_key + signal + channel_key, channel);
    no_newline_in_both(open + name + signal_key + signal + channel_key + channel, close);
}

/// The text of further networks holds no newline.
proof fn no_newline_in_more_networks(networks: Seq<NetworkView>)
    ensures
        holds_no_newline(more_networks_text(networks)),
    decreases networks.len(),
{
    if networks.len() > 0 {
        assert(holds_no_newline(","@)) by {
            reveal_strlit(",");
            assert(","@[0] != '\n');
        }
        no_newline_in_network(networks[0]);
        no_newline_in_more_networks(networks.drop_first());
        no_newline_in_both(","@, network_text(networks[0]));
        no_newline_in_both(
            ","@ + network_text(networks[0]),
            more_networks_text(networks.drop_first()),
        );
    }
}

/// A record travels as one line: whatever its names hold, its text holds no
/// newline, starts with an opening brace and ends with a closing one.
pub proof fn a_record_is_one_line(record: RecordView)
    ensures
        holds_no_newline(record_text(record)),
        record_text(record).len() > 0,
        record_text(record)[0] == '{',
        record_text(record).last() == '}',
{
    let open = "{\"counter\":"@;
    let sequence = decimal(record.sequence as nat);
    let motion_key = ",\"motion\":"@;
    let motion = motion_text(record.motion_detected);
    let list_key = ",\"aps\":["@;
    let networks = networks_text(record.access_points);
    let close = "]}"@;
    assert(holds_no_newline(open) && open.len() == 11 && open[0] == '{') by {
        reveal_strlit("{\"counter\":");
        assert forall|i: int| 0 <= i < open.len() implies #[trigger] open[i] != '\n' by {
            assert(open[0] != '\n' && open[1] != '\n' && open[2] != '\n' && open[3] != '\n'
                && open[4] != '\n' && open[5] != '\n' && open[6] != '\n' && open[7] != '\n'
                && open[8] != '\n' && open[9] != '\n' && open[10] != '\n');
        }
    }
    assert(holds_no_newline(motion_key)) by {
        reveal_strlit(",\"motion\":");
        assert forall|i: int| 0 <= i < motion_key.len() implies #[trigger] motion_key[i]
            != '\n' by {
            assert(motion_key[0] != '\n' && motion_key[1] != '\n' && motion_key[2] != '\n'
                && motion_key[3] != '\n' && motion_key[4] != '\n' && motion_key[5] != '\n'
                && motion_key[6] != '\n' && motion_key[7] != '\n' && motion_key[8] != '\n'
                && motion_key[9] != '\n');
        }
    }
    assert(holds_no_newline(motion)) by {
        reveal_strlit("0");
        reveal_strlit("1");
        assert(motion[0] != '\n');
    }
    assert(holds_no_newline(list_key)) by {
        reveal_strlit(",\"aps\":[");
        assert forall|i: int| 0 <= i < list_key.len() implies #[trigger] list_key[i] != '\n' by {
            assert(list_key[0] != '\n' && list_key[1] != '\n' && list_key[2] != '\n'
                && list_key[3] != '\n' && list_key[4] != '\n' && list_key[5] != '\n'
                && list_key[6] != '\n' && list_key[7] != '\n');
        }
    }
    assert(holds_no_newline(close) && close.len() == 2 && close[1] == '}') by {
        reveal_strlit("]}");
        assert(close[0] != '\n' && close[1] != '\n');
    }
    no_newline_in_decimal(record.sequence as nat);
    if record.access_points.len() > 0 {
        no_newline_in_network(record.access_points[0]);
        no_newline_in_more_networks(record.access_points.drop_first());
        no_newline_in_both(
            network_text(record.access_points[0]),
            more_networks_text(record.access_points.drop_first()),
        );
    }
    no_newline_in_both(open, sequence);
    no_newline_in_both(open + sequence, motion_key);
    no_newline_in_both(open + sequence + motion_key, motion);
    no_newline_in_both(open + sequence + motion_key + motion, list_key);
    no_newline_in_both(open + sequence + motion_key + motion + list_key, networks);
    no_newline_in_both(open + sequence + motion_key + motion + list_key + networks, close);
    let text = record_text(record);
    assert(text[0] == open[0]);
    assert(text.last() == close[1]);
}

} // verus!
