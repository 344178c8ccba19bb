//! Session descriptions: from the lines of an SDP document to a
//! `SessionDescriptor`.

use crate::descriptor::{BitDepth, Ipv4Address, PacketTime, SessionDescriptor};
use crate::error::{plain, rejection, viewed, ParseError, ParseErrorKind, ParseErrorView};
use crate::pattern::{captures, group, pattern_captures, spec_group};
use crate::text::{
    chars_of, find_char, first_index, has_prefix, lemma_first_index_bounds, pieces, split,
    text_is, text_starts_with, text_unsigned, texts, trim, trim_bounds, unsigned_in,
};
use std::str::FromStr;
use vstd::prelude::*;

verus! {

/// The shape of an `rtpmap` attribute: payload id, format, rate, channels.
pub const RTPMAP_REGEX: &'static str = "rtpmap:([0-9]+) (.+)\\/([0-9]+)\\/([0-9]+)";

/// The shape of a media line: media, port, protocol, payload id.
pub const MEDIA_AND_TRANSPORT_REGEX: &'static str = "(.+) ([0-9]+) (.+) ([0-9]+)";

/// The shape of a connection line: net type, address type, address, ttl.
pub const CONNECTION_INFO_REGEX: &'static str =
    "(.+) (IP[4,6]) ([0-9]+\\.[0-9]+\\.[0-9]+\\.[0-9]+)\\/([0-9]+)";

/// The shape of a `ptime` attribute.
pub const PTIME_REGEX: &'static str = "ptime:(.+)";

/// The number in capture group `index`, which must not exceed `max`.
pub open spec fn spec_number(groups: Seq<Option<Seq<char>>>, index: int, max: u64) -> Result<
    u64,
    ParseErrorView,
> {
    let text = spec_group(groups, index);
    match unsigned_in(text, max) {
        Some(value) => Ok(value),
        None => Err(rejection(ParseErrorKind::InvalidNumber, text)),
    }
}

/// The number in capture group `index`, which must not exceed `max`.
pub fn number(groups: &Vec<Option<String>>, index: usize, max: u64) -> (r: Result<u64, ParseError>)
    ensures
        plain(r) == spec_number(groups.deep_view(), index as int, max),
{
    let text = group(groups, index);
    match text_unsigned(text, max) {
        Some(value) => Ok(value),
        None => Err(ParseError::new(ParseErrorKind::InvalidNumber, text)),
    }
}

/// What an `rtpmap` attribute says of the stream.
#[derive(Debug, Clone, Copy, PartialEq, Eq, Structural)]
pub struct RtpMap {
    pub payload_id: u16,
    pub bit_depth: BitDepth,
    pub sample_rate: u32,
    pub channels: u16,
}

impl RtpMap {
    /// The attribute that the capture groups of `RTPMAP_REGEX` spell out. The
    /// groups are read in the order payload id, format, rate, channels, and
    /// the first that cannot be read decides the rejection.
    pub open spec fn spec_from_groups(groups: Seq<Option<Seq<char>>>) -> Result<
        RtpMap,
        ParseErrorView,
    > {
        match spec_number(groups, 1, u16::MAX as u64) {
            Err(e) => Err(e),
            Ok(payload_id) => match BitDepth::spec_from_text(spec_group(groups, 2)) {
                None => Err(rejection(ParseErrorKind::InvalidBitDepth, spec_group(groups, 2))),
                Some(bit_depth) => match spec_number(groups, 3, u32::MAX as u64) {
                    Err(e) => Err(e),
                    Ok(sample_rate) => match spec_number(groups, 4, u16::MAX as u64) {
                        Err(e) => Err(e),
                        Ok(channels) => Ok(
                            RtpMap {
                                payload_id: payload_id as u16,
                                bit_depth,
                                sample_rate: sample_rate as u32,
                                channels: channels as u16,
                            },
                        ),
                    },
                },
            },
        }
    }

    /// What the attribute `s` says, or why it is rejected.
    pub open spec fn spec_from_text(s: Seq<char>) -> Result<RtpMap, ParseErrorView> {
        match pattern_captures(RTPMAP_REGEX@, s) {
            Some(groups) => RtpMap::spec_from_groups(groups),
            None => Err(rejection(ParseErrorKind::MalformedRtpMap, s)),
        }
    }

    /// Reads the capture groups of `RTPMAP_REGEX`.
    pub fn from_captures(groups: &Vec<Option<String>>) -> (r: Result<RtpMap, ParseError>)
        ensures
            plain(r) == RtpMap::spec_from_groups(groups.deep_view()),
    {
        let payload_id = match number(groups, 1, u16::MAX as u64) {
            Ok(v) => v as u16,
            Err(e) => {
                return Err(e);
            },
        };
        let bit_depth = match BitDepth::from_str(group(groups, 2)) {
            Ok(v) => v,
            Err(e) => {
                return Err(e);
            },
        };
        let sample_rate = match number(groups, 3, u32::MAX as u64) {
            Ok(v) => v as u32,
            Err(e) => {
                return Err(e);
            },
        };
        let channels = match number(groups, 4, u16::MAX as u64) {
            Ok(v) => v as u16,
            Err(e) => {
                return Err(e);
            },
        };
        Ok(RtpMap { payload_id, bit_depth, sample_rate, channels })
    }
}

impl FromStr for RtpMap {
    type Err = ParseError;

    /// Reads an `rtpmap` attribute such as `rtpmap:98 L16/48000/8`.
    fn from_str(s: &str) -> (r: Result<RtpMap, ParseError>)
        ensures
            plain(r) == RtpMap::spec_from_text(s@),
    {
        match captures(RTPMAP_REGEX, s) {
            Some(groups) => RtpMap::from_captures(&groups),
            None => Err(ParseError::new(ParseErrorKind::MalformedRtpMap, s)),
        }
    }
}

/// The kind of media that a media line announces.
#[derive(Debug, Clone, Copy, PartialEq, Eq, Structural)]
pub enum Media {
    Audio,
    Video,
}

impl Media {
    /// The media that `s` names.
    pub open spec fn spec_from_text(s: Seq<char>) -> Result<Media, ParseErrorView> {
        if s == "audio"@ {
            Ok(Media::Audio)
        } else if s == "video"@ {
            Ok(Media::Video)
        } else {
            Err(rejection(ParseErrorKind::UnsupportedMedia, s))
        }
    }
}

impl FromStr for Media {
    type Err = ParseError;

    /// Reads a media name: `audio` or `video`.
    fn from_str(s: &str) -> (r: Result<Media, ParseError>)
        ensures
            plain(r) == Media::spec_from_text(s@),
    {
        if text_is(s, "audio") {
            Ok(Media::Audio)
        } else if text_is(s, "video") {
            Ok(Media::Video)
        } else {
            Err(ParseError::new(ParseErrorKind::UnsupportedMedia, s))
        }
    }
}

/// What a media line says: the media, its port, the protocol and payload id.
#[derive(Debug, PartialEq, Eq)]
pub struct MediaAndTransport {
    pub media: Media,
    pub port: u16,
    pub protocol: String,
    pub payload_id: u16,
}

/// The mathematical content of a `MediaAndTransport`.
pub struct MediaAndTransportView {
    pub media: Media,
    pub port: u16,
    pub protocol: Seq<char>,
    pub payload_id: u16,
}

impl View for MediaAndTransport {
    type V = MediaAndTransportView;

    open spec fn view(&self) -> MediaAndTransportView {
        MediaAndTransportView {
            media: self.media,
            port: self.port,
            protocol: self.protocol@,
            payload_id: self.payload_id,
        }
    }
}

impl Clone for MediaAndTransport {
    fn clone(&self) -> (copy: MediaAndTransport)
        ensures
            copy@ == self@,
    {
        MediaAndTransport {
            media: self.media,
            port: self.port,
            protocol: self.protocol.clone(),
            payload_id: self.payload_id,
        }
    }
}

impl MediaAndTransport {
    /// The media line that the capture groups of `MEDIA_AND_TRANSPORT_REGEX`
    /// spell out. The groups are read in the order media, port, protocol,
    /// payload id, and the first that cannot be read decides the rejection.
    pub open spec fn spec_from_groups(groups: Seq<Option<Seq<char>>>) -> Result<
        MediaAndTransportView,
        ParseErrorView,
    > {
        match Media::spec_from_text(spec_group(groups, 1)) {
            Err(e) => Err(e),
            Ok(media) => match spec_number(groups, 2, u16::MAX as u64) {
                Err(e) => Err(e),
                Ok(port) => match spec_number(groups, 4, u16::MAX as u64) {
                    Err(e) => Err(e),
                    Ok(payload_id) => Ok(
                        MediaAndTransportView {
                            media,
                            port: port as u16,
                            protocol: spec_group(groups, 3),
                            payload_id: payload_id as u16,
                        },
                    ),
                },
            },
        }
    }

    /// What the media line `s` says, or why it is rejected.
    pub open spec fn spec_from_text(s: Seq<char>) -> Result<
        MediaAndTransportView,
        ParseErrorView,
    > {
        match pattern_captures(MEDIA_AND_TRANSPORT_REGEX@, s) {
            Some(groups) => MediaAndTransport::spec_from_groups(groups),
            None => Err(rejection(ParseErrorKind::MalformedMediaAndTransport, s)),
        }
    }

    /// Reads the capture groups of `MEDIA_AND_TRANSPORT_REGEX`.
    pub fn from_captures(groups: &Vec<Option<String>>) -> (r: Result<MediaAndTransport, ParseError>)
        ensures
            viewed(r) == MediaAndTransport::spec_from_groups(groups.deep_view()),
    {
        let media = match Media::from_str(group(groups, 1)) {
            Ok(v) => v,
            Err(e) => {
                return Err(e);
            },
        };
        let port = match number(groups, 2, u16::MAX as u64) {
            Ok(v) => v as u16,
            Err(e) => {
                return Err(e);
            },
        };
        let protocol = group(groups, 3).to_owned();
        let payload_id = match number(groups, 4, u16::MAX as u64) {
            Ok(v) => v as u16,
            Err(e) => {
                return Err(e);
            },
        };
        Ok(MediaAndTransport { media, port, protocol, payload_id })
    }
}

impl FromStr for MediaAndTransport {
    type Err = ParseError;

    /// Reads the value of a media line such as `audio 5004 RTP/AVP 98`.
    fn from_str(s: &str) -> (r: Result<MediaAndTransport, ParseError>)
        ensures
            viewed(r) == MediaAndTransport::spec_from_text(s@),
    {
        match captures(MEDIA_AND_TRANSPORT_REGEX, s) {
            Some(groups) => MediaAndTransport::from_captures(&groups),
            None => Err(ParseError::new(ParseErrorKind::MalformedMediaAndTransport, s)),
        }
    }
}

/// What a connection line says: the address that the stream is sent to.
#[derive(Debug, Clone, Copy, PartialEq, Eq, Structural)]
pub struct ConnectionInfo {
    pub multicast_address: Ipv4Address,
}

impl ConnectionInfo {
    /// The connection line that the capture groups of `CONNECTION_INFO_REGEX`
    /// spell out: the third group is the address.
    pub open spec fn spec_from_groups(groups: Seq<Option<Seq<char>>>) -> Result<
        ConnectionInfo,
        ParseErrorView,
    > {
        match Ipv4Address::spec_from_text(spec_group(groups, 3)) {
            Some(multicast_address) => Ok(ConnectionInfo { multicast_address }),
            None => Err(rejection(ParseErrorKind::InvalidAddress, spec_group(groups, 3))),
        }
    }

    /// What the connection line `s` says, or why it is rejected.
    pub open spec fn spec_from_text(s: Seq<char>) -> Result<ConnectionInfo, ParseErrorView> {
        match pattern_captures(CONNECTION_INFO_REGEX@, s) {
            Some(groups) => ConnectionInfo::spec_from_groups(groups),
            None => Err(rejection(ParseErrorKind::MalformedConnectionInfo, s)),
        }
    }

    /// Reads the capture groups of `CONNECTION_INFO_REGEX`.
    pub fn from_captures(groups: &Vec<Option<String>>) -> (r: Result<ConnectionInfo, ParseError>)
        ensures
            plain(r) == ConnectionInfo::spec_from_groups(groups.deep_view()),
    {
        match Ipv4Address::from_str(group(groups, 3)) {
            Ok(multicast_address) => Ok(ConnectionInfo { multicast_address }),
            Err(e) => Err(e),
        }
    }
}

impl FromStr for ConnectionInfo {
    type Err = ParseError;

    /// Reads the value of a connection line such as `IN IP4 239.69.0.1/32`.
    fn from_str(s: &str) -> (r: Result<ConnectionInfo, ParseError>)
        ensures
            plain(r) == ConnectionInfo::spec_from_text(s@),
    {
        match captures(CONNECTION_INFO_REGEX, s) {
            Some(groups) => ConnectionInfo::from_captures(&groups),
            None => Err(ParseError::new(ParseErrorKind::MalformedConnectionInfo, s)),
        }
    }
}

/// The packet time that the capture groups of `PTIME_REGEX` spell out: the
/// first group is the number of milliseconds.
pub open spec fn spec_packet_time_from_groups(groups: Seq<Option<Seq<char>>>) -> Result<
    PacketTime,
    ParseErrorView,
> {
    match PacketTime::spec_from_text(spec_group(groups, 1)) {
        Some(time) => Ok(time),
        None => Err(rejection(ParseErrorKind::InvalidPacketTime, spec_group(groups, 1))),
    }
}

/// The packet time that the attribute `attribute` states, or why it is rejected.
pub open spec fn spec_parse_packet_time(attribute: Seq<char>) -> Result<
    PacketTime,
    ParseErrorView,
> {
    match pattern_captures(PTIME_REGEX@, attribute) {
        Some(groups) => spec_packet_time_from_groups(groups),
        None => Err(rejection(ParseErrorKind::MalformedPacketTime, attribute)),
    }
}

/// Reads the capture groups of `PTIME_REGEX`.
pub fn packet_time_from_captures(groups: &Vec<Option<String>>) -> (r: Result<
    PacketTime,
    ParseError,
>)
    ensures
        plain(r) == spec_packet_time_from_groups(groups.deep_view()),
{
    PacketTime::from_str(group(groups, 1))
}

/// Reads a `ptime` attribute such as `ptime:0.125`.
pub fn parse_packet_time(attribute: &str) -> (r: Result<PacketTime, ParseError>)
    ensures
        plain(r) == spec_parse_packet_time(attribute@),
{
    match captures(PTIME_REGEX, attribute) {
        Some(groups) => packet_time_from_captures(&groups),
        None => Err(ParseError::new(ParseErrorKind::MalformedPacketTime, attribute)),
    }
}

/// The value of one line of a session description, by the key of the line.
#[derive(Debug, PartialEq, Eq)]
pub enum SdpValue {
    /// `o`
    OriginatorAndSessionIdentifier(String),
    /// `s`
    SessionName(String),
    /// `t`
    ActiveTime((usize, usize)),
    /// `m`
    MediaNameAndTransportAddress(MediaAndTransport),
    /// `i`
    SessionInfo(String),
    /// `u`
    SessionDescription(String),
    /// `c`
    ConnectionInformation(ConnectionInfo),
    /// `a`
    Attribute(String),
}

/// The mathematical content of an `SdpValue`.
pub enum SdpValueView {
    OriginatorAndSessionIdentifier(Seq<char>),
    SessionName(Seq<char>),
    ActiveTime((usize, usize)),
    MediaNameAndTransportAddress(MediaAndTransportView),
    SessionInfo(Seq<char>),
    SessionDescription(Seq<char>),
    ConnectionInformation(ConnectionInfo),
    Attribute(Seq<char>),
}

impl View for SdpValue {
    type V = SdpValueView;

    open spec fn view(&self) -> SdpValueView {
        match self {
            SdpValue::OriginatorAndSessionIdentifier(t) => {
                SdpValueView::OriginatorAndSessionIdentifier(t@)
            },
            SdpValue::SessionName(t) => SdpValueView::SessionName(t@),
            SdpValue::ActiveTime(t) => SdpValueView::ActiveTime(*t),
            SdpValue::MediaNameAndTransportAddress(m) => {
                SdpValueView::MediaNameAndTransportAddress(m@)
            },
            SdpValue::SessionInfo(t) => SdpValueView::SessionInfo(t@),
            SdpValue::SessionDescription(t) => SdpValueView::SessionDescription(t@),
            SdpValue::ConnectionInformation(c) => SdpValueView::ConnectionInformation(*c),
            SdpValue::Attribute(t) => SdpValueView::Attribute(t@),
        }
    }
}

impl Clone for SdpValue {
    fn clone(&self) -> (copy: SdpValue)
        ensures
            copy@ == self@,
    {
        match self {
            SdpValue::OriginatorAndSessionIdentifier(t) => {
                SdpValue::OriginatorAndSessionIdentifier(t.clone())
            },
            SdpValue::SessionName(t) => SdpValue::SessionName(t.clone()),
            SdpValue::ActiveTime(t) => SdpValue::ActiveTime(*t),
            SdpValue::MediaNameAndTransportAddress(m) => {
                SdpValue::MediaNameAndTransportAddress(m.clone())
            },
            SdpValue::SessionInfo(t) => SdpValue::SessionInfo(t.clone()),
            SdpValue::SessionDescription(t) => SdpValue::SessionDescription(t.clone()),
            SdpValue::ConnectionInformation(c) => SdpValue::ConnectionInformation(*c),
            SdpValue::Attribute(t) => SdpValue::Attribute(t.clone()),
        }
    }
}

/// What one line gives to the descriptor.
#[derive(Debug, Clone, Copy, PartialEq, Eq, Structural)]
pub enum Field {
    /// The port, from a media line.
    Port(u16),
    /// The multicast address, from a connection line.
    Address(Ipv4Address),
    /// Sample format, rate and channels, from an `rtpmap` attribute.
    Format(RtpMap),
    /// The packet duration, from a `ptime` attribute.
    PacketTime(PacketTime),
}

/// The value that the key `key` gives to the text `value`: `m` and `c` are
/// read in full, `o`, `s`, `i`, `u` and `a` keep their text, and every other
/// key has no value.
pub open spec fn spec_parse_value(key: Seq<char>, value: Seq<char>) -> Result<
    Option<SdpValueView>,
    ParseErrorView,
> {
    if key == "o"@ {
        Ok(Some(SdpValueView::OriginatorAndSessionIdentifier(value)))
    } else if key == "s"@ {
        Ok(Some(SdpValueView::SessionName(value)))
    } else if key == "m"@ {
        match MediaAndTransport::spec_from_text(value) {
            Ok(m) => Ok(Some(SdpValueView::MediaNameAndTransportAddress(m))),
            Err(e) => Err(e),
        }
    } else if key == "i"@ {
        Ok(Some(SdpValueView::SessionInfo(value)))
    } else if key == "u"@ {
        Ok(Some(SdpValueView::SessionDescription(value)))
    } else if key == "c"@ {
        match ConnectionInfo::spec_from_text(value) {
            Ok(c) => Ok(Some(SdpValueView::ConnectionInformation(c))),
            Err(e) => Err(e),
        }
    } else if key == "a"@ {
        Ok(Some(SdpValueView::Attribute(value)))
    } else {
        Ok(None)
    }
}

/// The mathematical content of what reading a value or a line returns.
pub open spec fn value_outcome(r: Result<Option<SdpValue>, ParseError>) -> Result<
    Option<SdpValueView>,
    ParseErrorView,
> {
    match r {
        Ok(Some(v)) => Ok(Some(v@)),
        Ok(None) => Ok(None),
        Err(e) => Err(e@),
    }
}

/// Reads the text `value` as the key `key` asks.
pub fn parse_value(key: &str, value: &str) -> (r: Result<Option<SdpValue>, ParseError>)
    ensures
        value_outcome(r) == spec_parse_value(key@, value@),
{
    if text_is(key, "o") {
        Ok(Some(SdpValue::OriginatorAndSessionIdentifier(value.to_owned())))
    } else if text_is(key, "s") {
        Ok(Some(SdpValue::SessionName(value.to_owned())))
    } else if text_is(key, "m") {
        match MediaAndTransport::from_str(value) {
            Ok(m) => Ok(Some(SdpValue::MediaNameAndTransportAddress(m))),
            Err(e) => Err(e),
        }
    } else if text_is(key, "i") {
        Ok(Some(SdpValue::SessionInfo(value.to_owned())))
    } else if text_is(key, "u") {
        Ok(Some(SdpValue::SessionDescription(value.to_owned())))
    } else if text_is(key, "c") {
        match ConnectionInfo::from_str(value) {
            Ok(c) => Ok(Some(SdpValue::ConnectionInformation(c))),
            Err(e) => Err(e),
        }
    } else if text_is(key, "a") {
        Ok(Some(SdpValue::Attribute(value.to_owned())))
    } else {
        Ok(None)
    }
}

/// What the line `line` says. White space around the line does not count; an
/// empty line and one that begins with `#` say nothing. Any other line is
/// parted at its first `=` into a key and a value, and is rejected, with the
/// line as it came, when it holds no `=`.
pub open spec fn spec_parse_line(line: Seq<char>) -> Result<
    Option<(Seq<char>, SdpValueView)>,
    ParseErrorView,
> {
    let t = trim(line);
    let eq = first_index(t, '=');
    if t.len() == 0 || t[0] == '#' {
        Ok(None)
    } else if eq >= t.len() {
        Err(rejection(ParseErrorKind::NotKeyValue, line))
    } else {
        match spec_parse_value(t.take(eq), t.skip(eq + 1)) {
            Ok(Some(v)) => Ok(Some((t.take(eq), v))),
            Ok(None) => Ok(None),
            Err(e) => Err(e),
        }
    }
}

/// The mathematical content of what reading a line returns.
pub open spec fn line_outcome(r: Result<Option<(&str, SdpValue)>, ParseError>) -> Result<
    Option<(Seq<char>, SdpValueView)>,
    ParseErrorView,
> {
    match r {
        Ok(Some((key, v))) => Ok(Some((key@, v@))),
        Ok(None) => Ok(None),
        Err(e) => Err(e@),
    }
}

/// Reads one line of a session description into its key and value.
pub fn parse_line(line: &str) -> (r: Result<Option<(&str, SdpValue)>, ParseError>)
    ensures
        line_outcome(r) == spec_parse_line(line@),
{
    let chars = chars_of(line);
    let (a, b) = trim_bounds(chars.as_slice());
    let trimmed = vstd::slice::slice_subrange(chars.as_slice(), a, b);
    if b == a || trimmed[0] == '#' {
        return Ok(None);
    }
    let eq: usize = find_char(trimmed, '=');
    proof {
        lemma_first_index_bounds(trimmed@, '=');
    }
    if eq >= b - a {
        return Err(ParseError::new(ParseErrorKind::NotKeyValue, line));
    }
    let key = line.substring_char(a, a + eq);
    let value = line.substring_char(a + eq + 1, b);
    proof {
        let t = trim(line@);
        assert(key@ =~= t.take(eq as int));
        assert(value@ =~= t.skip(eq + 1));
    }
    match parse_value(key, value) {
        Ok(Some(v)) => Ok(Some((key, v))),
        Ok(None) => Ok(None),
        Err(e) => Err(e),
    }
}

/// What the attribute `attribute` gives to the descriptor. One that begins
/// with `rtpmap:` must read as an `rtpmap` attribute and one that begins with
/// `ptime:` as a packet time; every other attribute gives nothing.
pub open spec fn spec_attribute_field(attribute: Seq<char>) -> Result<
    Option<Field>,
    ParseErrorView,
> {
    if has_prefix(attribute, "rtpmap:"@) {
        match RtpMap::spec_from_text(attribute) {
            Ok(map) => Ok(Some(Field::Format(map))),
            Err(e) => Err(e),
        }
    } else if has_prefix(attribute, "ptime:"@) {
        match spec_parse_packet_time(attribute) {
            Ok(time) => Ok(Some(Field::PacketTime(time))),
            Err(e) => Err(e),
        }
    } else {
        Ok(None)
    }
}

/// Reads what an attribute gives to the descriptor.
pub fn attribute_field(attribute: &str) -> (r: Result<Option<Field>, ParseError>)
    ensures
        plain(r) == spec_attribute_field(attribute@),
{
    if text_starts_with(attribute, "rtpmap:") {
        match RtpMap::from_str(attribute) {
            Ok(map) => Ok(Some(Field::Format(map))),
            Err(e) => Err(e),
        }
    } else if text_starts_with(attribute, "ptime:") {
        match parse_packet_time(attribute) {
            Ok(time) => Ok(Some(Field::PacketTime(time))),
            Err(e) => Err(e),
        }
    } else {
        Ok(None)
    }
}

impl SdpValueView {
    /// What the value gives to the descriptor: a media line its port, a
    /// connection line its address, an attribute what it states.
    pub open spec fn field(self) -> Result<Option<Field>, ParseErrorView> {
        match self {
            SdpValueView::MediaNameAndTransportAddress(m) => Ok(Some(Field::Port(m.port))),
            SdpValueView::ConnectionInformation(c) => Ok(
                Some(Field::Address(c.multicast_address)),
            ),
            SdpValueView::Attribute(a) => spec_attribute_field(a),
            _ => Ok(None),
        }
    }
}

impl SdpValue {
    /// What the value gives to the descriptor.
    pub fn field(&self) -> (r: Result<Option<Field>, ParseError>)
        ensures
            plain(r) == self@.field(),
    {
        match self {
            SdpValue::MediaNameAndTransportAddress(m) => Ok(Some(Field::Port(m.port))),
            SdpValue::ConnectionInformation(c) => Ok(Some(Field::Address(c.multicast_address))),
            SdpValue::Attribute(a) => attribute_field(a.as_str()),
            _ => Ok(None),
        }
    }
}

/// What the line `line` gives to the descriptor, or why the line is rejected.
pub open spec fn spec_line_field(line: Seq<char>) -> Result<Option<Field>, ParseErrorView> {
    match spec_parse_line(line) {
        Ok(Some((_, value))) => value.field(),
        Ok(None) => Ok(None),
        Err(e) => Err(e),
    }
}

/// Reads what one line gives to the descriptor.
pub fn line_field(line: &str) -> (r: Result<Option<Field>, ParseError>)
    ensures
        plain(r) == spec_line_field(line@),
{
    match parse_line(line) {
        Ok(Some((_, value))) => value.field(),
        Ok(None) => Ok(None),
        Err(e) => Err(e),
    }
}

/// The port that `line` gives, if it gives one.
pub open spec fn port_of(line: Seq<char>) -> Option<u16> {
    match spec_line_field(line) {
        Ok(Some(Field::Port(port))) => Some(port),
        _ => None,
    }
}

/// The address that `line` gives, if it gives one.
pub open spec fn address_of(line: Seq<char>) -> Option<Ipv4Address> {
    match spec_line_field(line) {
        Ok(Some(Field::Address(address))) => Some(address),
        _ => None,
    }
}

/// The sample format, rate and channels that `line` gives, if it gives them.
pub open spec fn format_of(line: Seq<char>) -> Option<RtpMap> {
    match spec_line_field(line) {
        Ok(Some(Field::Format(map))) => Some(map),
        _ => None,
    }
}

/// The packet time that `line` gives, if it gives one.
pub open spec fn packet_time_of(line: Seq<char>) -> Option<PacketTime> {
    match spec_line_field(line) {
        Ok(Some(Field::PacketTime(time))) => Some(time),
        _ => None,
    }
}

/// The rejection of the first of `lines` that is rejected.
pub open spec fn first_error(lines: Seq<Seq<char>>) -> Option<ParseErrorView>
    decreases lines.len(),
{
    if lines.len() == 0 {
        None
    } else {
        match first_error(lines.drop_last()) {
            Some(e) => Some(e),
            None => match spec_line_field(lines.last()) {
                Err(e) => Some(e),
                Ok(_) => None,
            },
        }
    }
}

/// What the last of `lines` that gives something under `pick` gives.
pub open spec fn last_given<T>(lines: Seq<Seq<char>>, pick: spec_fn(Seq<char>) -> Option<T>)
    -> Option<T>
    decreases lines.len(),
{
    if lines.len() == 0 {
        None
    } else {
        match pick(lines.last()) {
            Some(value) => Some(value),
            None => last_given(lines.drop_last(), pick),
        }
    }
}

/// The port that stands after `lines`.
pub open spec fn last_port(lines: Seq<Seq<char>>) -> Option<u16> {
    last_given(lines, |line: Seq<char>| port_of(line))
}

/// The address that stands after `lines`.
pub open spec fn last_address(lines: Seq<Seq<char>>) -> Option<Ipv4Address> {
    last_given(lines, |line: Seq<char>| address_of(line))
}

/// The sample format, rate and channels that stand after `lines`.
pub open spec fn last_format(lines: Seq<Seq<char>>) -> Option<RtpMap> {
    last_given(lines, |line: Seq<char>| format_of(line))
}

/// The packet time that stands after `lines`.
pub open spec fn last_packet_time(lines: Seq<Seq<char>>) -> Option<PacketTime> {
    last_given(lines, |line: Seq<char>| packet_time_of(line))
}

/// The descriptor made of what a media line, a connection line, an `rtpmap`
/// attribute and a `ptime` attribute gave.
pub open spec fn assemble(
    port: u16,
    address: Ipv4Address,
    format: RtpMap,
    packet_time: PacketTime,
) -> SessionDescriptor {
    SessionDescriptor {
        multicast_address: address,
        multicast_port: port,
        bit_depth: format.bit_depth,
        channels: format.channels,
        sample_rate: format.sample_rate,
        packet_time,
    }
}

impl SessionDescriptor {
    /// The descriptor that the document `s` describes. The document is read
    /// line by line, and the first rejected line rejects the document. Else
    /// each field is what the last line that gives it says, and a document
    /// that leaves a field open is rejected as incomplete, under its own text.
    pub open spec fn spec_from_text(s: Seq<char>) -> Result<SessionDescriptor, ParseErrorView> {
        let lines = pieces(s, '\n');
        match first_error(lines) {
            Some(e) => Err(e),
            None => match (
                last_port(lines),
                last_address(lines),
                last_format(lines),
                last_packet_time(lines),
            ) {
                (Some(port), Some(address), Some(format), Some(packet_time)) => Ok(
                    assemble(port, address, format, packet_time),
                ),
                _ => Err(rejection(ParseErrorKind::IncompleteSdp, s)),
            },
        }
    }
}

impl FromStr for SessionDescriptor {
    type Err = ParseError;

    /// Reads an SDP document into the descriptor of its stream.
    fn from_str(s: &str) -> (r: Result<SessionDescriptor, ParseError>)
        ensures
            plain(r) == SessionDescriptor::spec_from_text(s@),
    {
        let lines = split(s, '\n');
        let ghost all = pieces(s@, '\n');
        let mut port: Option<u16> = None;
        let mut address: Option<Ipv4Address> = None;
        let mut format: Option<RtpMap> = None;
        let mut packet_time: Option<PacketTime> = None;
        let mut k: usize = 0;
        proof {
            assert(all.take(0) =~= Seq::<Seq<char>>::empty());
        }
        while k < lines.len()
            invariant
                k <= lines.len(),
                texts(lines@) == all,
                all == pieces(s@, '\n'),
                first_error(all.take(k as int)) is None,
                port == last_port(all.take(k as int)),
                address == last_address(all.take(k as int)),
                format == last_format(all.take(k as int)),
                packet_time == last_packet_time(all.take(k as int)),
            decreases lines.len() - k,
        {
            proof {
                assert(all[k as int] == lines@[k as int]@);
                assert(all.take(k + 1).drop_last() =~= all.take(k as int));
                assert(all.take(k + 1).last() == all[k as int]);
            }
            match line_field(lines[k].as_str()) {
                Err(e) => {
                    proof {
                        lemma_first_error_stays(all, k + 1);
                        assert(all.take(all.len() as int) =~= all);
                    }
                    return Err(e);
                },
                Ok(Some(Field::Port(p))) => {
                    port = Some(p);
                },
                Ok(Some(Field::Address(a))) => {
                    address = Some(a);
                },
                Ok(Some(Field::Format(m))) => {
                    format = Some(m);
                },
                Ok(Some(Field::PacketTime(t))) => {
                    packet_time = Some(t);
                },
                Ok(None) => {},
            }
            k += 1;
        }
        proof {
            assert(all.take(k as int) =~= all);
        }
        match (port, address, format, packet_time) {
            (Some(port), Some(address), Some(format), Some(packet_time)) => Ok(
                SessionDescriptor {
                    multicast_address: address,
                    multicast_port: port,
                    bit_depth: format.bit_depth,
                    channels: format.channels,
                    sample_rate: format.sample_rate,
                    packet_time,
                },
            ),
            _ => Err(ParseError::new(ParseErrorKind::IncompleteSdp, s)),
        }
    }
}

/// A rejection among the first `k` lines is the rejection of all the lines.
pub proof fn lemma_first_error_stays(lines: Seq<Seq<char>>, k: int)
    requires
        0 <= k <= lines.len(),
        first_error(lines.take(k)) is Some,
    ensures
        first_error(lines) == first_error(lines.take(k)),
    decreases lines.len() - k,
{
    if k == lines.len() {
        assert(lines.take(k) =~= lines);
    } else {
        assert(lines.take(k + 1).drop_last() =~= lines.take(k));
        lemma_first_error_stays(lines, k + 1);
    }
}

/// Where no line is rejected, there is no first rejection.
pub proof fn lemma_no_error(lines: Seq<Seq<char>>)
    requires
        forall|i: int| 0 <= i < lines.len() ==> spec_line_field(#[trigger] lines[i]) is Ok,
    ensures
        first_error(lines) is None,
    decreases lines.len(),
{
    if lines.len() > 0 {
        let rest = lines.drop_last();
        assert forall|i: int| 0 <= i < rest.len() implies spec_line_field(
            #[trigger] rest[i],
        ) is Ok by {
            assert(rest[i] == lines[i]);
        }
        lemma_no_error(rest);
        assert(lines.last() == lines[lines.len() - 1]);
    }
}

/// What stands after the lines is what the last line that gives something
/// under `pick` gives: the last occurrence wins.
pub proof fn lemma_last_occurrence_wins<T>(
    lines: Seq<Seq<char>>,
    pick: spec_fn(Seq<char>) -> Option<T>,
    at: int,
)
    requires
        0 <= at < lines.len(),
        pick(lines[at]) is Some,
        forall|i: int| at < i < lines.len() ==> pick(#[trigger] lines[i]) is None,
    ensures
        last_given(lines, pick) == pick(lines[at]),
    decreases lines.len(),
{
    if at < lines.len() - 1 {
        let rest = lines.drop_last();
        assert(pick(lines[lines.len() - 1]) is None);
        assert forall|i: int| at < i < rest.len() implies pick(#[trigger] rest[i]) is None by {
            assert(rest[i] == lines[i]);
        }
        assert(rest[at] == lines[at]);
        lemma_last_occurrence_wins(rest, pick, at);
    }
}

/// Where no line gives anything under `pick`, nothing stands after the lines.
pub proof fn lemma_last_given_none<T>(
    lines: Seq<Seq<char>>,
    pick: spec_fn(Seq<char>) -> Option<T>,
)
    requires
        forall|i: int| 0 <= i < lines.len() ==> pick(#[trigger] lines[i]) is None,
    ensures
        last_given(lines, pick) is None,
    decreases lines.len(),
{
    if lines.len() > 0 {
        let rest = lines.drop_last();
        assert forall|i: int| 0 <= i < rest.len() implies pick(#[trigger] rest[i]) is None by {
            assert(rest[i] == lines[i]);
        }
        lemma_last_given_none(rest, pick);
        assert(lines.last() == lines[lines.len() - 1]);
    }
}

/// A document in which no line is rejected and each of port, address, sample
/// format and packet time is given describes the stream made of what the last
/// line that gives each of them says. So where each is given by exactly one
/// line, the stream is made of what those four lines say, in whatever order
/// the lines of the document stand.
pub proof fn lemma_complete_document(s: Seq<char>, m: int, c: int, r: int, p: int)
    requires
        forall|i: int|
            0 <= i < pieces(s, '\n').len() ==> spec_line_field(
                #[trigger] pieces(s, '\n')[i],
            ) is Ok,
        0 <= m < pieces(s, '\n').len() && port_of(pieces(s, '\n')[m]) is Some,
        0 <= c < pieces(s, '\n').len() && address_of(pieces(s, '\n')[c]) is Some,
        0 <= r < pieces(s, '\n').len() && format_of(pieces(s, '\n')[r]) is Some,
        0 <= p < pieces(s, '\n').len() && packet_time_of(pieces(s, '\n')[p]) is Some,
        forall|i: int|
            m < i < pieces(s, '\n').len() ==> port_of(#[trigger] pieces(s, '\n')[i]) is None,
        forall|i: int|
            c < i < pieces(s, '\n').len() ==> address_of(#[trigger] pieces(s, '\n')[i]) is None,
        forall|i: int|
            r < i < pieces(s, '\n').len() ==> format_of(#[trigger] pieces(s, '\n')[i]) is None,
        forall|i: int|
            p < i < pieces(s, '\n').len() ==> packet_time_of(
                #[trigger] pieces(s, '\n')[i],
            ) is None,
    ensures
        SessionDescriptor::spec_from_text(s) == Ok::<SessionDescriptor, ParseErrorView>(
            assemble(
                port_of(pieces(s, '\n')[m])->0,
                address_of(pieces(s, '\n')[c])->0,
                format_of(pieces(s, '\n')[r])->0,
                packet_time_of(pieces(s, '\n')[p])->0,
            ),
        ),
{
    let lines = pieces(s, '\n');
    lemma_no_error(lines);
    lemma_last_occurrence_wins(lines, |line: Seq<char>| port_of(line), m);
    lemma_last_occurrence_wins(lines, |line: Seq<char>| address_of(line), c);
    lemma_last_occurrence_wins(lines, |line: Seq<char>| format_of(line), r);
    lemma_last_occurrence_wins(lines, |line: Seq<char>| packet_time_of(line), p);
}

/// Whether no line of the document `s` gives the port, or none the address,
/// or none the sample format, or none the packet time.
pub open spec fn lacks_a_field(s: Seq<char>) -> bool {
    let lines = pieces(s, '\n');
    ||| forall|i: int| 0 <= i < lines.len() ==> port_of(#[trigger] lines[i]) is None
    ||| forall|i: int| 0 <= i < lines.len() ==> address_of(#[trigger] lines[i]) is None
    ||| forall|i: int| 0 <= i < lines.len() ==> format_of(#[trigger] lines[i]) is None
    ||| forall|i: int| 0 <= i < lines.len() ==> packet_time_of(#[trigger] lines[i]) is None
}

/// The key of `line`: what stands before its first `=`, white space around
/// the line apart.
pub open spec fn key_of(line: Seq<char>) -> Seq<char> {
    trim(line).take(first_index(trim(line), '='))
}

/// The value of `line`: what stands behind its first `=`.
pub open spec fn value_of(line: Seq<char>) -> Seq<char> {
    trim(line).skip(first_index(trim(line), '=') + 1)
}

/// Only a line with the key `m` gives a port, only one with the key `c` an
/// address, only an attribute that begins with `rtpmap:` a sample format, and
/// only an attribute that begins with `ptime:` a packet time.
pub proof fn lemma_field_needs_its_line(line: Seq<char>)
    ensures
        port_of(line) is Some ==> key_of(line) == "m"@,
        address_of(line) is Some ==> key_of(line) == "c"@,
        format_of(line) is Some ==> key_of(line) == "a"@ && has_prefix(
            value_of(line),
            "rtpmap:"@,
        ),
        packet_time_of(line) is Some ==> key_of(line) == "a"@ && has_prefix(
            value_of(line),
            "ptime:"@,
        ),
{
}

/// Whether the document `s` is without a media line, or without a connection
/// line, or without an `rtpmap` attribute, or without a `ptime` attribute.
pub open spec fn misses_a_line(s: Seq<char>) -> bool {
    let lines = pieces(s, '\n');
    ||| forall|i: int| 0 <= i < lines.len() ==> key_of(#[trigger] lines[i]) != "m"@
    ||| forall|i: int| 0 <= i < lines.len() ==> key_of(#[trigger] lines[i]) != "c"@
    ||| forall|i: int|
        0 <= i < lines.len() ==> !(key_of(#[trigger] lines[i]) == "a"@ && has_prefix(
            value_of(lines[i]),
            "rtpmap:"@,
        ))
    ||| forall|i: int|
        0 <= i < lines.len() ==> !(key_of(#[trigger] lines[i]) == "a"@ && has_prefix(
            value_of(lines[i]),
            "ptime:"@,
        ))
}

/// A document that misses one of the four lines lacks a field, and so is
/// rejected.
pub proof fn lemma_document_without_line(s: Seq<char>)
    requires
        misses_a_line(s),
    ensures
        lacks_a_field(s),
        SessionDescriptor::spec_from_text(s) is Err,
        first_error(pieces(s, '\n')) is None ==> SessionDescriptor::spec_from_text(s) == Err::<
            SessionDescriptor,
            ParseErrorView,
        >(rejection(ParseErrorKind::IncompleteSdp, s)),
{
    let lines = pieces(s, '\n');
    assert forall|i: int| 0 <= i < lines.len() implies {
        &&& port_of(#[trigger] lines[i]) is Some ==> key_of(lines[i]) == "m"@
        &&& address_of(lines[i]) is Some ==> key_of(lines[i]) == "c"@
        &&& format_of(lines[i]) is Some ==> key_of(lines[i]) == "a"@ && has_prefix(
            value_of(lines[i]),
            "rtpmap:"@,
        )
        &&& packet_time_of(lines[i]) is Some ==> key_of(lines[i]) == "a"@ && has_prefix(
            value_of(lines[i]),
            "ptime:"@,
        )
    } by {
        lemma_field_needs_its_line(lines[i]);
    }
    lemma_incomplete_document(s);
}

/// A document that lacks a field is rejected; where none of its lines is
/// rejected by itself, it is rejected as incomplete, under its own text.
pub proof fn lemma_incomplete_document(s: Seq<char>)
    requires
        lacks_a_field(s),
    ensures
        SessionDescriptor::spec_from_text(s) is Err,
        first_error(pieces(s, '\n')) is None ==> SessionDescriptor::spec_from_text(s) == Err::<
            SessionDescriptor,
            ParseErrorView,
        >(rejection(ParseErrorKind::IncompleteSdp, s)),
{
    let lines = pieces(s, '\n');
    if forall|i: int| 0 <= i < lines.len() ==> port_of(#[trigger] lines[i]) is None {
        lemma_last_given_none(lines, |line: Seq<char>| port_of(line));
    } else if forall|i: int| 0 <= i < lines.len() ==> address_of(#[trigger] lines[i]) is None {
        lemma_last_given_none(lines, |line: Seq<char>| address_of(line));
    } else if forall|i: int| 0 <= i < lines.len() ==> format_of(#[trigger] lines[i]) is None {
        lemma_last_given_none(lines, |line: Seq<char>| format_of(line));
    } else {
        lemma_last_given_none(lines, |line: Seq<char>| packet_time_of(line));
    }
}

} // verus!
