use aes67_to_ws::rtp::{receive_rtp_payload, RtpError, RtpPacketOutcome, MIN_HEADER_LEN};

fn packet(first: u8, sequence: u16, rest: &[u8]) -> Vec<u8> {
    let mut bytes = vec![first, 0x60, (sequence >> 8) as u8, (sequence & 0xff) as u8];
    bytes.extend_from_slice(&[0, 0, 0, 1, 0xde, 0xad, 0xbe, 0xef]);
    bytes.extend_from_slice(rest);
    bytes
}

#[test]
fn fixed_header_length() {
    assert_eq!(MIN_HEADER_LEN, 12);
    assert_eq!(packet(0x80, 0, &[]).len(), MIN_HEADER_LEN);
}

#[test]
fn empty_datagram_is_passed_over() {
    assert_eq!(receive_rtp_payload(&[]), RtpPacketOutcome::Empty);
}

#[test]
fn payload_follows_the_fixed_header() {
    assert_eq!(
        receive_rtp_payload(&packet(0x80, 0x1234, &[0xaa, 0xbb, 0xcc])),
        RtpPacketOutcome::Payload(vec![0xaa, 0xbb, 0xcc], 4660)
    );
}

#[test]
fn payload_is_not_the_datagram() {
    let datagram = packet(0x80, 7, &[1, 2, 3, 4]);
    match receive_rtp_payload(&datagram) {
        RtpPacketOutcome::Payload(bytes, number) => {
            assert_eq!(bytes, vec![1, 2, 3, 4]);
            assert_ne!(bytes, datagram);
            assert_eq!(number, 7);
        }
        other => panic!("{:?}", other),
    }
}

#[test]
fn header_alone_has_an_empty_payload() {
    assert_eq!(
        receive_rtp_payload(&packet(0x80, 65535, &[])),
        RtpPacketOutcome::Payload(vec![], 65535)
    );
    assert_eq!(
        receive_rtp_payload(&packet(0x80, 0, &[])),
        RtpPacketOutcome::Payload(vec![], 0)
    );
}

#[test]
fn sequence_number_is_big_endian() {
    assert_eq!(
        receive_rtp_payload(&packet(0x80, 0x0100, &[9])),
        RtpPacketOutcome::Payload(vec![9], 256)
    );
    assert_eq!(
        receive_rtp_payload(&packet(0x80, 0x00ff, &[9])),
        RtpPacketOutcome::Payload(vec![9], 255)
    );
    assert_eq!(
        receive_rtp_payload(&packet(0x80, 0x8000, &[9])),
        RtpPacketOutcome::Payload(vec![9], 32768)
    );
}

#[test]
fn marker_and_payload_type_do_not_matter() {
    let mut datagram = packet(0x80, 3, &[5, 6]);
    datagram[1] = 0xff;
    assert_eq!(
        receive_rtp_payload(&datagram),
        RtpPacketOutcome::Payload(vec![5, 6], 3)
    );
}

#[test]
fn short_datagram() {
    assert_eq!(
        receive_rtp_payload(&packet(0x80, 1, &[])[..11]),
        RtpPacketOutcome::Error(RtpError::BufferTooShort(11))
    );
    assert_eq!(
        receive_rtp_payload(&[0x80]),
        RtpPacketOutcome::Error(RtpError::BufferTooShort(1))
    );
}

#[test]
fn other_versions() {
    assert_eq!(
        receive_rtp_payload(&packet(0x00, 1, &[1])),
        RtpPacketOutcome::Error(RtpError::UnsupportedVersion(0))
    );
    assert_eq!(
        receive_rtp_payload(&packet(0x40, 1, &[1])),
        RtpPacketOutcome::Error(RtpError::UnsupportedVersion(1))
    );
    assert_eq!(
        receive_rtp_payload(&packet(0xc0, 1, &[1])),
        RtpPacketOutcome::Error(RtpError::UnsupportedVersion(3))
    );
    assert_eq!(
        receive_rtp_payload(&packet(0x7f, 1, &[1])),
        RtpPacketOutcome::Error(RtpError::UnsupportedVersion(1))
    );
}

#[test]
fn padding_is_taken_off() {
    assert_eq!(
        receive_rtp_payload(&packet(0xa0, 10, &[1, 2, 3, 0, 2])),
        RtpPacketOutcome::Payload(vec![1, 2, 3], 10)
    );
    assert_eq!(
        receive_rtp_payload(&packet(0xa0, 10, &[1, 2, 3, 4, 1])),
        RtpPacketOutcome::Payload(vec![1, 2, 3, 4], 10)
    );
    assert_eq!(
        receive_rtp_payload(&packet(0xa0, 10, &[9, 2])),
        RtpPacketOutcome::Payload(vec![], 10)
    );
}

#[test]
fn last_byte_counts_only_with_the_flag() {
    assert_eq!(
        receive_rtp_payload(&packet(0x80, 10, &[1, 2, 3, 0, 2])),
        RtpPacketOutcome::Payload(vec![1, 2, 3, 0, 2], 10)
    );
    assert_eq!(
        receive_rtp_payload(&packet(0x80, 10, &[1, 0])),
        RtpPacketOutcome::Payload(vec![1, 0], 10)
    );
}

#[test]
fn padding_of_wrong_length() {
    assert_eq!(
        receive_rtp_payload(&packet(0xa0, 10, &[1, 0])),
        RtpPacketOutcome::Error(RtpError::PaddingLengthInvalid(0))
    );
    assert_eq!(
        receive_rtp_payload(&packet(0xa0, 10, &[1, 3])),
        RtpPacketOutcome::Error(RtpError::PaddingLengthInvalid(3))
    );
    assert_eq!(
        receive_rtp_payload(&packet(0xa0, 10, &[255])),
        RtpPacketOutcome::Error(RtpError::PaddingLengthInvalid(255))
    );
}

#[test]
fn padding_flag_without_a_byte_for_it() {
    assert_eq!(
        receive_rtp_payload(&packet(0xa0, 10, &[])),
        RtpPacketOutcome::Error(RtpError::HeadersTruncated { header_len: 12, buffer_len: 11 })
    );
}

#[test]
fn contributing_sources_come_before_the_payload() {
    assert_eq!(
        receive_rtp_payload(&packet(0x82, 10, &[0, 0, 0, 1, 0, 0, 0, 2, 7, 8])),
        RtpPacketOutcome::Payload(vec![7, 8], 10)
    );
    assert_eq!(
        receive_rtp_payload(&packet(0x81, 10, &[0, 0, 0, 1])),
        RtpPacketOutcome::Payload(vec![], 10)
    );
}

#[test]
fn contributing_sources_cut_short() {
    assert_eq!(
        receive_rtp_payload(&packet(0x82, 10, &[])),
        RtpPacketOutcome::Error(RtpError::HeadersTruncated { header_len: 20, buffer_len: 12 })
    );
    assert_eq!(
        receive_rtp_payload(&packet(0x8f, 10, &[1, 2, 3])),
        RtpPacketOutcome::Error(RtpError::HeadersTruncated { header_len: 72, buffer_len: 15 })
    );
}

#[test]
fn extension_comes_before_the_payload() {
    assert_eq!(
        receive_rtp_payload(&packet(0x90, 10, &[0xbe, 0xde, 0, 1, 1, 2, 3, 4, 7])),
        RtpPacketOutcome::Payload(vec![7], 10)
    );
    assert_eq!(
        receive_rtp_payload(&packet(0x90, 10, &[0xbe, 0xde, 0, 0, 7, 8])),
        RtpPacketOutcome::Payload(vec![7, 8], 10)
    );
    assert_eq!(
        receive_rtp_payload(&packet(0x91, 10, &[0, 0, 0, 9, 0xbe, 0xde, 0, 1, 1, 2, 3, 4, 7])),
        RtpPacketOutcome::Payload(vec![7], 10)
    );
}

#[test]
fn extension_cut_short() {
    assert_eq!(
        receive_rtp_payload(&packet(0x90, 10, &[])),
        RtpPacketOutcome::Error(RtpError::HeadersTruncated { header_len: 16, buffer_len: 12 })
    );
    assert_eq!(
        receive_rtp_payload(&packet(0x90, 10, &[0xbe, 0xde, 0])),
        RtpPacketOutcome::Error(RtpError::HeadersTruncated { header_len: 16, buffer_len: 15 })
    );
    assert_eq!(
        receive_rtp_payload(&packet(0x90, 10, &[0xbe, 0xde, 0, 2, 1, 2, 3, 4])),
        RtpPacketOutcome::Error(RtpError::HeadersTruncated { header_len: 24, buffer_len: 20 })
    );
    assert_eq!(
        receive_rtp_payload(&packet(0x90, 10, &[0xbe, 0xde, 1, 0])),
        RtpPacketOutcome::Error(RtpError::HeadersTruncated { header_len: 1040, buffer_len: 16 })
    );
}

#[test]
fn extension_and_padding_together() {
    assert_eq!(
        receive_rtp_payload(&packet(0xb0, 10, &[0xbe, 0xde, 0, 1, 1, 2, 3, 4, 7, 8, 0, 0, 3])),
        RtpPacketOutcome::Payload(vec![7, 8], 10)
    );
    assert_eq!(
        receive_rtp_payload(&packet(0xb0, 10, &[0xbe, 0xde, 0, 1, 1, 2, 3, 4])),
        RtpPacketOutcome::Error(RtpError::HeadersTruncated { header_len: 20, buffer_len: 19 })
    );
    assert_eq!(
        receive_rtp_payload(&packet(0xb0, 10, &[0xbe, 0xde, 0, 1, 1, 2, 3, 4, 7, 3])),
        RtpPacketOutcome::Error(RtpError::PaddingLengthInvalid(3))
    );
}
