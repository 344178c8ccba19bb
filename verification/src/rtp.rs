//! One datagram read as an RTP packet, by the `rtp-rs` crate.

use vstd::prelude::*;

verus! {

/// Why a datagram is no RTP packet.
#[derive(Debug, Clone, Copy, PartialEq, Eq, Structural)]
pub enum RtpError {
    /// Fewer bytes than the fixed header; holds their number.
    BufferTooShort(usize),
    /// A version other than 2; holds it.
    UnsupportedVersion(u8),
    /// The headers reach beyond the bytes that are there.
    HeadersTruncated { header_len: usize, buffer_len: usize },
    /// A padding length of zero, or of more than what follows the headers.
    PaddingLengthInvalid(u8),
}

/// What comes of one attempt to receive a packet.
#[derive(Debug, Clone, PartialEq, Eq)]
pub enum RtpPacketOutcome {
    /// The audio payload and the sequence number of the packet.
    Payload(Vec<u8>, i32),
    /// A datagram without bytes, to be passed over.
    Empty,
    /// A datagram that is no RTP packet.
    Error(RtpError),
}

/// The length of the fixed RTP header.
pub const MIN_HEADER_LEN: usize = 12;

/// The version field: the two highest bits of the first byte.
pub open spec fn version(d: Seq<u8>) -> u8 {
    (d[0] & 0xc0) >> 6
}

/// Whether the padding flag is set.
pub open spec fn has_padding(d: Seq<u8>) -> bool {
    d[0] & 0x20 != 0
}

/// Whether the extension flag is set.
pub open spec fn has_extension(d: Seq<u8>) -> bool {
    d[0] & 0x10 != 0
}

/// Where the list of contributing sources ends: four bytes for each of the
/// sources that the low four bits of the first byte count.
pub open spec fn csrc_end(d: Seq<u8>) -> int {
    12 + 4 * ((d[0] & 0x0f) as int)
}

/// The length of the extension's data: its 16-bit length field counts words
/// of four bytes.
pub open spec fn extension_len(d: Seq<u8>) -> int {
    4 * (d[csrc_end(d) + 2] as int * 256 + d[csrc_end(d) + 3] as int)
}

/// Where the payload begins: behind the contributing sources and, when the
/// extension flag is set, the extension's four header bytes and its data.
pub open spec fn payload_offset(d: Seq<u8>) -> int {
    if has_extension(d) {
        csrc_end(d) + 4 + extension_len(d)
    } else {
        csrc_end(d)
    }
}

/// The number of padding bytes at the end: with the padding flag set, what
/// the last byte says.
pub open spec fn padding_len(d: Seq<u8>) -> int {
    if has_padding(d) {
        d.last() as int
    } else {
        0
    }
}

/// The sequence number: bytes 2 and 3, the high byte first.
pub open spec fn sequence_number(d: Seq<u8>) -> u16 {
    (d[2] as int * 256 + d[3] as int) as u16
}

/// The payload: what lies between the headers and the padding.
pub open spec fn payload(d: Seq<u8>) -> Seq<u8> {
    d.subrange(payload_offset(d), d.len() - padding_len(d))
}

/// Why `d` is no RTP packet, if it is none.
pub open spec fn rejection(d: Seq<u8>) -> Option<RtpError> {
    if d.len() < 12 {
        Some(RtpError::BufferTooShort(d.len() as usize))
    } else if version(d) != 2 {
        Some(RtpError::UnsupportedVersion(version(d)))
    } else if has_extension(d) && csrc_end(d) + 4 > d.len() {
        Some(
            RtpError::HeadersTruncated {
                header_len: (csrc_end(d) + 4) as usize,
                buffer_len: d.len() as usize,
            },
        )
    } else if payload_offset(d) > d.len() {
        Some(
            RtpError::HeadersTruncated {
                header_len: payload_offset(d) as usize,
                buffer_len: d.len() as usize,
            },
        )
    } else if has_padding(d) && payload_offset(d) == d.len() {
        Some(
            RtpError::HeadersTruncated {
                header_len: payload_offset(d) as usize,
                buffer_len: (d.len() - 1) as usize,
            },
        )
    } else if has_padding(d) && (d.last() == 0 || payload_offset(d) + d.last() > d.len()) {
        Some(RtpError::PaddingLengthInvalid(d.last()))
    } else {
        None
    }
}

/// Reads `datagram` with `rtp_rs::RtpReader::new` and, where that accepts it,
/// takes `RtpReader::payload` and `RtpReader::sequence_number`. Claimed of
/// them: `new` rejects exactly the datagrams that `rejection` rejects, with
/// that error; the payload is the bytes between the headers and the padding;
/// the sequence number is bytes 2 and 3 read as one big-endian number.
#[verifier::external_body]
pub(crate) fn read_packet(datagram: &[u8]) -> (r: Result<(Vec<u8>, u16), RtpError>)
    ensures
        match r {
            Ok((bytes, number)) => rejection(datagram@) is None && bytes@ == payload(datagram@)
                && number == sequence_number(datagram@),
            Err(e) => rejection(datagram@) == Some(e),
        },
{
    match rtp_rs::RtpReader::new(datagram) {
        Ok(reader) => Ok((reader.payload().to_vec(), reader.sequence_number().into())),
        Err(rtp_rs::RtpReaderError::BufferTooShort(n)) => Err(RtpError::BufferTooShort(n)),
        Err(rtp_rs::RtpReaderError::UnsupportedVersion(v)) => Err(RtpError::UnsupportedVersion(v)),
        Err(rtp_rs::RtpReaderError::HeadersTruncated { header_len, buffer_len }) => Err(
            RtpError::HeadersTruncated { header_len, buffer_len },
        ),
        Err(rtp_rs::RtpReaderError::PaddingLengthInvalid(n)) => Err(
            RtpError::PaddingLengthInvalid(n),
        ),
    }
}

/// What receiving `datagram` comes to: nothing for an empty datagram, else
/// the payload of the RTP packet with its sequence number, or the reason why
/// the datagram is no RTP packet.
pub fn receive_rtp_payload(datagram: &[u8]) -> (outcome: RtpPacketOutcome)
    ensures
        match outcome {
            RtpPacketOutcome::Empty => datagram@.len() == 0,
            RtpPacketOutcome::Payload(bytes, number) => datagram@.len() > 0 && rejection(
                datagram@,
            ) is None && bytes@ == payload(datagram@) && number == sequence_number(datagram@)
                && bytes@.len() + MIN_HEADER_LEN <= datagram@.len(),
            RtpPacketOutcome::Error(e) => datagram@.len() > 0 && rejection(datagram@) == Some(e),
        },
{
    if datagram.len() == 0 {
        return RtpPacketOutcome::Empty;
    }
    match read_packet(datagram) {
        Ok((bytes, number)) => {
            proof {
                lemma_payload_within(datagram@);
            }
            RtpPacketOutcome::Payload(bytes, number as i32)
        },
        Err(e) => RtpPacketOutcome::Error(e),
    }
}

/// The payload of an accepted packet lies within the datagram, behind the
/// fixed header.
pub proof fn lemma_payload_within(d: Seq<u8>)
    requires
        rejection(d) is None,
    ensures
        12 <= payload_offset(d) <= d.len() - padding_len(d),
        payload(d).len() == d.len() - padding_len(d) - payload_offset(d),
        payload(d).len() + 12 <= d.len(),
{
}

} // verus!
