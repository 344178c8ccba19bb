//! A descriptor written out as a minimal SDP document, and the way back.

use crate::descriptor::{
    lemma_address_reads_back, lemma_name_reads_back, lemma_packet_time_reads_back,
    lemma_packet_time_text, BitDepth, Ipv4Address, PacketTime, SessionDescriptor,
};
use crate::error::ParseErrorView;
use crate::pattern::{pattern_captures, spec_group};
use crate::sdp::{
    address_of, assemble, format_of, lemma_complete_document, packet_time_of, port_of,
    spec_line_field, spec_parse_line, spec_parse_value, Field, RtpMap, SdpValueView,
    CONNECTION_INFO_REGEX, MEDIA_AND_TRANSPORT_REGEX, PTIME_REGEX, RTPMAP_REGEX,
};
use crate::text::{
    append_unsigned, digits_of, has_prefix, is_digit, is_space, lemma_digits_of,
    lemma_first_index, lemma_four_pieces, lemma_number_reads_back, lemma_trim_end,
    lemma_trim_start, pieces, trim,
};
use vstd::prelude::*;

verus! {

/// The payload id under which `to_sdp` announces the stream.
pub const PAYLOAD_ID: u16 = 96;

/// The time to live that `to_sdp` writes behind the address.
pub const TIME_TO_LIVE: u8 = 32;

/// The value of a media line: audio on `port`, under the payload id `id`.
pub open spec fn media_value(port: u16, id: u16) -> Seq<char> {
    "audio "@ + digits_of(port as nat) + " RTP/AVP "@ + digits_of(id as nat)
}

/// The value of a connection line: `address` with the time to live `ttl`.
pub open spec fn connection_value(address: Ipv4Address, ttl: u8) -> Seq<char> {
    "IN IP4 "@ + address.spec_text() + seq!['/'] + digits_of(ttl as nat)
}

/// An `rtpmap` attribute: payload id, sample format, rate and channels.
pub open spec fn rtpmap_attribute(id: u16, depth: BitDepth, rate: u32, channels: u16) -> Seq<
    char,
> {
    "rtpmap:"@ + digits_of(id as nat) + seq![' '] + depth.spec_name() + seq!['/'] + digits_of(
        rate as nat,
    ) + seq!['/'] + digits_of(channels as nat)
}

/// A `ptime` attribute with the packet time written as `time`.
pub open spec fn ptime_attribute(time: Seq<char>) -> Seq<char> {
    "ptime:"@ + time
}

/// The line with the one-letter key `key` and the value `value`.
pub open spec fn key_value_line(key: char, value: Seq<char>) -> Seq<char> {
    seq![key, '='] + value
}

/// The four lines that describe the stream `d`, with its packet time
/// written as `time`: media line, connection line, `rtpmap` attribute and
/// `ptime` attribute.
pub open spec fn described_lines(d: SessionDescriptor, id: u16, ttl: u8, time: Seq<char>) -> Seq<
    Seq<char>,
> {
    seq![
        key_value_line('m', media_value(d.multicast_port, id)),
        key_value_line('c', connection_value(d.multicast_address, ttl)),
        key_value_line('a', rtpmap_attribute(id, d.bit_depth, d.sample_rate, d.channels)),
        key_value_line('a', ptime_attribute(time)),
    ]
}

/// Whether `order` places four lines: it holds each of 0, 1, 2 and 3 once.
pub open spec fn is_order(order: Seq<int>) -> bool {
    &&& order.len() == 4
    &&& forall|i: int| 0 <= i < 4 ==> 0 <= #[trigger] order[i] < 4
    &&& forall|i: int, j: int| 0 <= i < j < 4 ==> order[i] != order[j]
}

/// The document of four lines in which `lines[i]` stands at place `order[i]`.
pub open spec fn ordered_document(lines: Seq<Seq<char>>, order: Seq<int>) -> Seq<char> {
    let placed = Seq::new(
        4,
        |at: int|
            if at == order[0] {
                lines[0]
            } else if at == order[1] {
                lines[1]
            } else if at == order[2] {
                lines[2]
            } else {
                lines[3]
            },
    );
    placed[0] + seq!['\n'] + placed[1] + seq!['\n'] + placed[2] + seq!['\n'] + placed[3]
}

impl SessionDescriptor {
    /// The minimal document of the descriptor: a media line, a connection
    /// line, an `rtpmap` attribute and a `ptime` attribute, in that order.
    pub open spec fn spec_sdp(self) -> Seq<char> {
        ordered_document(
            described_lines(self, PAYLOAD_ID, TIME_TO_LIVE, self.packet_time.spec_text()),
            seq![0, 1, 2, 3],
        )
    }

    /// Writes the descriptor out as a minimal SDP document.
    pub fn to_sdp(&self) -> (text: String)
        ensures
            text@ == self.spec_sdp(),
    {
        proof {
            reveal_strlit("m=");
            reveal_strlit("c=");
            reveal_strlit("a=");
            reveal_strlit("\n");
            reveal_strlit("/");
            reveal_strlit(" ");
            assert("m="@ =~= seq!['m', '=']);
            assert("c="@ =~= seq!['c', '=']);
            assert("a="@ =~= seq!['a', '=']);
            assert("\n"@ =~= seq!['\n']);
            assert("/"@ =~= seq!['/']);
            assert(" "@ =~= seq![' ']);
        }
        let mut media = "audio ".to_owned();
        append_unsigned(&mut media, self.multicast_port as u64);
        media.append(" RTP/AVP ");
        append_unsigned(&mut media, PAYLOAD_ID as u64);
        let mut connection = "IN IP4 ".to_owned();
        connection.append(self.multicast_address.to_string().as_str());
        connection.append("/");
        append_unsigned(&mut connection, TIME_TO_LIVE as u64);
        let mut rtpmap = "rtpmap:".to_owned();
        append_unsigned(&mut rtpmap, PAYLOAD_ID as u64);
        rtpmap.append(" ");
        rtpmap.append(self.bit_depth.to_string().as_str());
        rtpmap.append("/");
        append_unsigned(&mut rtpmap, self.sample_rate as u64);
        rtpmap.append("/");
        append_unsigned(&mut rtpmap, self.channels as u64);
        let mut ptime = "ptime:".to_owned();
        ptime.append(self.packet_time.to_string().as_str());
        let mut text = "m=".to_owned();
        text.append(media.as_str());
        text.append("\n");
        text.append("c=");
        text.append(connection.as_str());
        text.append("\n");
        text.append("a=");
        text.append(rtpmap.as_str());
        text.append("\n");
        text.append("a=");
        text.append(ptime.as_str());
        proof {
            let lines = described_lines(
                *self,
                PAYLOAD_ID,
                TIME_TO_LIVE,
                self.packet_time.spec_text(),
            );
            assert(text@ =~= lines[0] + seq!['\n'] + lines[1] + seq!['\n'] + lines[2] + seq!['\n']
                + lines[3]);
        }
        text
    }
}

/// Whether `s` holds no line break.
pub open spec fn unbroken(s: Seq<char>) -> bool {
    forall|j: int| 0 <= j < s.len() ==> s[j] != '\n'
}

/// Whether `s` can stand as the value of a line: it holds no line break,
/// is not empty and ends in no white space.
pub open spec fn fit_for_a_line(s: Seq<char>) -> bool {
    unbroken(s) && s.len() > 0 && !is_space(s.last())
}

/// Texts without a line break, joined, hold no line break.
proof fn lemma_unbroken_joined(a: Seq<char>, b: Seq<char>)
    requires
        unbroken(a),
        unbroken(b),
    ensures
        unbroken(a + b),
{
    assert forall|j: int| 0 <= j < (a + b).len() implies (a + b)[j] != '\n' by {
        if j < a.len() {
            assert((a + b)[j] == a[j]);
        } else {
            assert((a + b)[j] == b[j - a.len()]);
        }
    }
}

/// The digits of a number hold no line break and end in a digit.
proof fn lemma_digits_fit(n: nat)
    ensures
        fit_for_a_line(digits_of(n)),
        is_digit(digits_of(n).last()),
{
    lemma_digits_of(n);
    let d = digits_of(n);
    assert forall|j: int| 0 <= j < d.len() implies d[j] != '\n' by {
        assert(is_digit(d[j]));
    }
    assert(is_digit(d.last()));
}

/// The line with the key `key` and the value `value` reads as that key and
/// that value.
proof fn lemma_key_value_line(key: char, value: Seq<char>)
    requires
        !is_space(key),
        key != '#',
        key != '=',
        key != '\n',
        fit_for_a_line(value),
    ensures
        unbroken(key_value_line(key, value)),
        spec_parse_line(key_value_line(key, value)) == match spec_parse_value(seq![key], value) {
            Ok(Some(v)) => Ok::<Option<(Seq<char>, SdpValueView)>, ParseErrorView>(
                Some((seq![key], v)),
            ),
            Ok(None) => Ok(None),
            Err(e) => Err(e),
        },
{
    let line = key_value_line(key, value);
    assert(line.last() == value.last());
    lemma_trim_start(line, 0);
    assert(line.skip(0) =~= line);
    lemma_trim_end(line, line.len() as int);
    assert(line.take(line.len() as int) =~= line);
    assert(trim(line) == line);
    lemma_first_index(line, '=', 1);
    assert(line.take(1) =~= seq![key]);
    assert(line.skip(2) =~= value);
    assert(unbroken(seq![key, '=']));
    lemma_unbroken_joined(seq![key, '='], value);
}

/// Whether the pattern match finds in the value of the media line what the
/// shape of the line names: the media, the port and the payload id.
pub open spec fn media_found(port: u16, id: u16) -> bool {
    match pattern_captures(MEDIA_AND_TRANSPORT_REGEX@, media_value(port, id)) {
        Some(groups) => spec_group(groups, 1) == "audio"@ && spec_group(groups, 2) == digits_of(
            port as nat,
        ) && spec_group(groups, 4) == digits_of(id as nat),
        None => false,
    }
}

/// Whether the pattern match finds the address in the value of the
/// connection line.
pub open spec fn connection_found(address: Ipv4Address, ttl: u8) -> bool {
    match pattern_captures(CONNECTION_INFO_REGEX@, connection_value(address, ttl)) {
        Some(groups) => spec_group(groups, 3) == address.spec_text(),
        None => false,
    }
}

/// Whether the pattern match finds in the `rtpmap` attribute the payload id,
/// the format, the rate and the channels.
pub open spec fn rtpmap_found(id: u16, depth: BitDepth, rate: u32, channels: u16) -> bool {
    match pattern_captures(RTPMAP_REGEX@, rtpmap_attribute(id, depth, rate, channels)) {
        Some(groups) => spec_group(groups, 1) == digits_of(id as nat) && spec_group(groups, 2)
            == depth.spec_name() && spec_group(groups, 3) == digits_of(rate as nat) && spec_group(
            groups,
            4,
        ) == digits_of(channels as nat),
        None => false,
    }
}

/// Whether the pattern match finds the packet time in the `ptime` attribute.
pub open spec fn ptime_found(time: Seq<char>) -> bool {
    match pattern_captures(PTIME_REGEX@, ptime_attribute(time)) {
        Some(groups) => spec_group(groups, 1) == time,
        None => false,
    }
}

/// Whether the pattern match finds, in each of the four lines that describe
/// `d`, the parts that the shape of the line names.
pub open spec fn shapes_found(d: SessionDescriptor, id: u16, ttl: u8, time: Seq<char>) -> bool {
    &&& media_found(d.multicast_port, id)
    &&& connection_found(d.multicast_address, ttl)
    &&& rtpmap_found(id, d.bit_depth, d.sample_rate, d.channels)
    &&& ptime_found(time)
}

/// A media line gives its port.
proof fn lemma_media_line(port: u16, id: u16)
    requires
        media_found(port, id),
    ensures
        unbroken(key_value_line('m', media_value(port, id))),
        spec_line_field(key_value_line('m', media_value(port, id))) == Ok::<
            Option<Field>,
            ParseErrorView,
        >(Some(Field::Port(port))),
{
    let value = media_value(port, id);
    reveal_strlit("audio ");
    reveal_strlit(" RTP/AVP ");
    lemma_digits_fit(port as nat);
    lemma_digits_fit(id as nat);
    assert(unbroken("audio "@));
    assert(unbroken(" RTP/AVP "@));
    lemma_unbroken_joined("audio "@, digits_of(port as nat));
    lemma_unbroken_joined("audio "@ + digits_of(port as nat), " RTP/AVP "@);
    lemma_unbroken_joined(
        "audio "@ + digits_of(port as nat) + " RTP/AVP "@,
        digits_of(id as nat),
    );
    assert(value.last() == digits_of(id as nat).last());
    lemma_key_value_line('m', value);
    reveal_strlit("o");
    reveal_strlit("s");
    reveal_strlit("m");
    assert("o"@[0] == 'o' && "s"@[0] == 's');
    assert(seq!['m'] =~= "m"@);
    lemma_number_reads_back(port as u64, u16::MAX as u64);
    lemma_number_reads_back(id as u64, u16::MAX as u64);
}

/// The dotted quad of an address holds no line break.
proof fn lemma_address_text(address: Ipv4Address)
    ensures
        unbroken(address.spec_text()),
{
    lemma_digits_fit(address.0 as nat);
    lemma_digits_fit(address.1 as nat);
    lemma_digits_fit(address.2 as nat);
    lemma_digits_fit(address.3 as nat);
    let a = digits_of(address.0 as nat);
    let b = digits_of(address.1 as nat);
    let c = digits_of(address.2 as nat);
    let d = digits_of(address.3 as nat);
    let point = seq!['.'];
    assert(unbroken(point));
    lemma_unbroken_joined(a, point);
    lemma_unbroken_joined(a + point, b);
    lemma_unbroken_joined(a + point + b, point);
    lemma_unbroken_joined(a + point + b + point, c);
    lemma_unbroken_joined(a + point + b + point + c, point);
    lemma_unbroken_joined(a + point + b + point + c + point, d);
}

/// A connection line gives its address.
proof fn lemma_connection_line(address: Ipv4Address, ttl: u8)
    requires
        connection_found(address, ttl),
    ensures
        unbroken(key_value_line('c', connection_value(address, ttl))),
        spec_line_field(key_value_line('c', connection_value(address, ttl))) == Ok::<
            Option<Field>,
            ParseErrorView,
        >(Some(Field::Address(address))),
{
    let value = connection_value(address, ttl);
    let slash = seq!['/'];
    reveal_strlit("IN IP4 ");
    lemma_address_text(address);
    lemma_digits_fit(ttl as nat);
    assert(unbroken("IN IP4 "@));
    assert(unbroken(slash));
    lemma_unbroken_joined("IN IP4 "@, address.spec_text());
    lemma_unbroken_joined("IN IP4 "@ + address.spec_text(), slash);
    lemma_unbroken_joined("IN IP4 "@ + address.spec_text() + slash, digits_of(ttl as nat));
    assert(value.last() == digits_of(ttl as nat).last());
    lemma_key_value_line('c', value);
    reveal_strlit("o");
    reveal_strlit("s");
    reveal_strlit("m");
    reveal_strlit("i");
    reveal_strlit("u");
    reveal_strlit("c");
    assert("o"@[0] == 'o' && "s"@[0] == 's' && "m"@[0] == 'm' && "i"@[0] == 'i' && "u"@[0]
        == 'u');
    assert(seq!['c'] =~= "c"@);
    lemma_address_reads_back(address);
}

/// The name of a format holds no line break.
proof fn lemma_name_text(depth: BitDepth)
    ensures
        unbroken(depth.spec_name()),
{
    reveal_strlit("L16");
    reveal_strlit("L24");
    reveal_strlit("L32");
    reveal_strlit("Floating Point");
}

/// An attribute line reads as an attribute with the text that was written.
proof fn lemma_attribute_line(attribute: Seq<char>)
    requires
        fit_for_a_line(attribute),
    ensures
        unbroken(key_value_line('a', attribute)),
        spec_parse_line(key_value_line('a', attribute)) == Ok::<
            Option<(Seq<char>, SdpValueView)>,
            ParseErrorView,
        >(Some((seq!['a'], SdpValueView::Attribute(attribute)))),
{
    lemma_key_value_line('a', attribute);
    reveal_strlit("o");
    reveal_strlit("s");
    reveal_strlit("m");
    reveal_strlit("i");
    reveal_strlit("u");
    reveal_strlit("c");
    reveal_strlit("a");
    assert("o"@[0] == 'o' && "s"@[0] == 's' && "m"@[0] == 'm' && "i"@[0] == 'i' && "u"@[0]
        == 'u' && "c"@[0] == 'c');
    assert(seq!['a'] =~= "a"@);
}

/// An `rtpmap` attribute line gives format, rate and channels.
proof fn lemma_rtpmap_line(id: u16, depth: BitDepth, rate: u32, channels: u16)
    requires
        rtpmap_found(id, depth, rate, channels),
    ensures
        unbroken(key_value_line('a', rtpmap_attribute(id, depth, rate, channels))),
        spec_line_field(key_value_line('a', rtpmap_attribute(id, depth, rate, channels))) == Ok::<
            Option<Field>,
            ParseErrorView,
        >(
            Some(
                Field::Format(
                    RtpMap { payload_id: id, bit_depth: depth, sample_rate: rate, channels },
                ),
            ),
        ),
{
    let attribute = rtpmap_attribute(id, depth, rate, channels);
    let head = "rtpmap:"@;
    let number = digits_of(id as nat);
    let name = depth.spec_name();
    let rate_text = digits_of(rate as nat);
    let channels_text = digits_of(channels as nat);
    let slash = seq!['/'];
    let blank = seq![' '];
    reveal_strlit("rtpmap:");
    lemma_name_text(depth);
    lemma_digits_fit(id as nat);
    lemma_digits_fit(rate as nat);
    lemma_digits_fit(channels as nat);
    assert(unbroken(head));
    assert(unbroken(slash));
    assert(unbroken(blank));
    lemma_unbroken_joined(head, number);
    lemma_unbroken_joined(head + number, blank);
    lemma_unbroken_joined(head + number + blank, name);
    lemma_unbroken_joined(head + number + blank + name, slash);
    lemma_unbroken_joined(head + number + blank + name + slash, rate_text);
    lemma_unbroken_joined(head + number + blank + name + slash + rate_text, slash);
    lemma_unbroken_joined(
        head + number + blank + name + slash + rate_text + slash,
        channels_text,
    );
    assert(attribute.last() == channels_text.last());
    lemma_attribute_line(attribute);
    assert(attribute.take(7) =~= head);
    lemma_number_reads_back(id as u64, u16::MAX as u64);
    lemma_name_reads_back(depth);
    lemma_number_reads_back(rate as u64, u32::MAX as u64);
    lemma_number_reads_back(channels as u64, u16::MAX as u64);
}

/// A `ptime` attribute line gives the packet time that its text writes.
proof fn lemma_ptime_line(time: Seq<char>, packet_time: PacketTime)
    requires
        fit_for_a_line(time),
        PacketTime::spec_from_text(time) == Some(packet_time),
        ptime_found(time),
    ensures
        unbroken(key_value_line('a', ptime_attribute(time))),
        spec_line_field(key_value_line('a', ptime_attribute(time))) == Ok::<
            Option<Field>,
            ParseErrorView,
        >(Some(Field::PacketTime(packet_time))),
{
    let attribute = ptime_attribute(time);
    reveal_strlit("ptime:");
    reveal_strlit("rtpmap:");
    assert(unbroken("ptime:"@));
    lemma_unbroken_joined("ptime:"@, time);
    assert(attribute.last() == time.last());
    lemma_attribute_line(attribute);
    assert(attribute.take(6) =~= "ptime:"@);
    assert(attribute[0] == 'p');
    if has_prefix(attribute, "rtpmap:"@) {
        assert(attribute.take(7)[0] == "rtpmap:"@[0]);
    }
}

/// A document of four lines of which one gives a port, one an address, one
/// a sample format and one a packet time describes the stream made of the
/// four, in whatever order the lines stand.
proof fn lemma_four_lines(
    s: Seq<char>,
    lines: Seq<Seq<char>>,
    order: Seq<int>,
    port: u16,
    address: Ipv4Address,
    format: RtpMap,
    packet_time: PacketTime,
)
    requires
        is_order(order),
        pieces(s, '\n') == lines,
        lines.len() == 4,
        spec_line_field(lines[order[0]]) == Ok::<Option<Field>, ParseErrorView>(
            Some(Field::Port(port)),
        ),
        spec_line_field(lines[order[1]]) == Ok::<Option<Field>, ParseErrorView>(
            Some(Field::Address(address)),
        ),
        spec_line_field(lines[order[2]]) == Ok::<Option<Field>, ParseErrorView>(
            Some(Field::Format(format)),
        ),
        spec_line_field(lines[order[3]]) == Ok::<Option<Field>, ParseErrorView>(
            Some(Field::PacketTime(packet_time)),
        ),
    ensures
        SessionDescriptor::spec_from_text(s) == Ok::<SessionDescriptor, ParseErrorView>(
            assemble(port, address, format, packet_time),
        ),
{
    assert forall|i: int| 0 <= i < lines.len() implies {
        &&& spec_line_field(#[trigger] lines[i]) is Ok
        &&& i != order[0] ==> port_of(lines[i]) is None
        &&& i != order[1] ==> address_of(lines[i]) is None
        &&& i != order[2] ==> format_of(lines[i]) is None
        &&& i != order[3] ==> packet_time_of(lines[i]) is None
    } by {
        assert(0 <= order[0] < 4 && 0 <= order[1] < 4 && 0 <= order[2] < 4 && 0 <= order[3] < 4);
        assert(i == order[0] || i == order[1] || i == order[2] || i == order[3]);
    }
    lemma_complete_document(s, order[0], order[1], order[2], order[3]);
}

/// An ordered document of four lines without a line break falls into its
/// lines, each at its place.
proof fn lemma_ordered_lines(lines: Seq<Seq<char>>, order: Seq<int>)
    requires
        is_order(order),
        lines.len() == 4,
        forall|i: int| 0 <= i < 4 ==> unbroken(#[trigger] lines[i]),
    ensures
        pieces(ordered_document(lines, order), '\n').len() == 4,
        forall|i: int|
            0 <= i < 4 ==> pieces(ordered_document(lines, order), '\n')[#[trigger] order[i]]
                == lines[i],
{
    let placed = Seq::new(
        4,
        |at: int|
            if at == order[0] {
                lines[0]
            } else if at == order[1] {
                lines[1]
            } else if at == order[2] {
                lines[2]
            } else {
                lines[3]
            },
    );
    assert(0 <= order[0] < 4 && 0 <= order[1] < 4 && 0 <= order[2] < 4 && 0 <= order[3] < 4);
    assert(unbroken(lines[0]) && unbroken(lines[1]) && unbroken(lines[2]) && unbroken(lines[3]));
    lemma_four_pieces(placed[0], placed[1], placed[2], placed[3], '\n');
}

/// A document made of the four lines that describe a stream, in any order,
/// reads as that stream, where the pattern match finds in each line the
/// parts that the shape of the line names. The packet time may be written in
/// any way that reads as the packet time of the stream. What the pattern
/// match finds is for the `regex` crate to say; all the rest of the way is
/// proved here.
pub proof fn lemma_described_document_reads(
    d: SessionDescriptor,
    id: u16,
    ttl: u8,
    time: Seq<char>,
    order: Seq<int>,
)
    requires
        is_order(order),
        fit_for_a_line(time),
        PacketTime::spec_from_text(time) == Some(d.packet_time),
    ensures
        shapes_found(d, id, ttl, time) ==> SessionDescriptor::spec_from_text(
            ordered_document(described_lines(d, id, ttl, time), order),
        ) == Ok::<SessionDescriptor, ParseErrorView>(d),
{
    if shapes_found(d, id, ttl, time) {
        let lines = described_lines(d, id, ttl, time);
        let document = ordered_document(lines, order);
        lemma_media_line(d.multicast_port, id);
        lemma_connection_line(d.multicast_address, ttl);
        lemma_rtpmap_line(id, d.bit_depth, d.sample_rate, d.channels);
        lemma_ptime_line(time, d.packet_time);
        assert forall|i: int| 0 <= i < 4 implies unbroken(#[trigger] lines[i]) by {
            assert(i == 0 || i == 1 || i == 2 || i == 3);
        }
        lemma_ordered_lines(lines, order);
        let found = pieces(document, '\n');
        assert(found[order[0]] == lines[0]);
        assert(found[order[1]] == lines[1]);
        assert(found[order[2]] == lines[2]);
        assert(found[order[3]] == lines[3]);
        let format = RtpMap {
            payload_id: id,
            bit_depth: d.bit_depth,
            sample_rate: d.sample_rate,
            channels: d.channels,
        };
        lemma_four_lines(
            document,
            found,
            order,
            d.multicast_port,
            d.multicast_address,
            format,
            d.packet_time,
        );
        assert(assemble(d.multicast_port, d.multicast_address, format, d.packet_time) == d);
    }
}

/// The document that `to_sdp` writes reads back as the descriptor it was
/// written from, where the descriptor holds its packet time in the one way
/// kept for each value and the pattern match finds in each of the four
/// lines the parts that the shape of the line names.
pub proof fn lemma_rendered_document_reads_back(d: SessionDescriptor)
    requires
        d.packet_time.spec_normal(),
    ensures
        shapes_found(d, PAYLOAD_ID, TIME_TO_LIVE, d.packet_time.spec_text())
            ==> SessionDescriptor::spec_from_text(d.spec_sdp()) == Ok::<
            SessionDescriptor,
            ParseErrorView,
        >(d),
{
    let time = d.packet_time.spec_text();
    lemma_packet_time_text(d.packet_time);
    lemma_packet_time_reads_back(d.packet_time);
    assert forall|j: int| 0 <= j < time.len() implies time[j] != '\n' by {
        assert(is_digit(time[j]) || time[j] == '.');
    }
    let order = seq![0int, 1, 2, 3];
    assert(is_order(order));
    lemma_described_document_reads(d, PAYLOAD_ID, TIME_TO_LIVE, time, order);
}

} // verus!
