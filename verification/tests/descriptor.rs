use aes67_to_ws::descriptor::{read_octet, BitDepth, Ipv4Address, PacketTime, SessionDescriptor};
use aes67_to_ws::error::{ParseError, ParseErrorKind};
use std::str::FromStr;

fn stream(bit_depth: BitDepth, channels: u16, sample_rate: u32, mantissa: u64, scale: u32) -> SessionDescriptor {
    SessionDescriptor {
        multicast_address: Ipv4Address(239, 0, 0, 1),
        multicast_port: 5004,
        bit_depth,
        channels,
        sample_rate,
        packet_time: PacketTime { mantissa, scale },
    }
}

#[test]
fn bits_of_each_depth() {
    assert_eq!(BitDepth::L16.bits(), 16);
    assert_eq!(BitDepth::L24.bits(), 24);
    assert_eq!(BitDepth::L32.bits(), 32);
    assert_eq!(BitDepth::FloatingPoint.bits(), 32);
}

#[test]
fn only_floating_point_is_floating() {
    assert!(!BitDepth::L16.floating_point());
    assert!(!BitDepth::L24.floating_point());
    assert!(!BitDepth::L32.floating_point());
    assert!(BitDepth::FloatingPoint.floating_point());
}

#[test]
fn names_of_the_depths() {
    assert_eq!(BitDepth::L16.to_string(), "L16");
    assert_eq!(BitDepth::L24.to_string(), "L24");
    assert_eq!(BitDepth::L32.to_string(), "L32");
    assert_eq!(BitDepth::FloatingPoint.to_string(), "Floating Point");
}

#[test]
fn names_read_back_as_their_depth() {
    for depth in [BitDepth::L16, BitDepth::L24, BitDepth::L32, BitDepth::FloatingPoint] {
        assert_eq!(BitDepth::from_str(&depth.to_string()), Ok(depth));
    }
}

#[test]
fn depth_from_format_token() {
    assert_eq!(BitDepth::from_str("L16"), Ok(BitDepth::L16));
    assert_eq!(BitDepth::from_str("L24"), Ok(BitDepth::L24));
    assert_eq!(BitDepth::from_str("L32"), Ok(BitDepth::L32));
    assert_eq!(BitDepth::from_str("float"), Ok(BitDepth::FloatingPoint));
    assert_eq!(BitDepth::from_str("IEEE-FLOAT"), Ok(BitDepth::FloatingPoint));
    assert_eq!(BitDepth::from_str("pcmFlOaT"), Ok(BitDepth::FloatingPoint));
}

#[test]
fn depth_by_priority() {
    assert_eq!(BitDepth::from_str("float32"), Ok(BitDepth::L32));
    assert_eq!(BitDepth::from_str("3224"), Ok(BitDepth::L24));
    assert_eq!(BitDepth::from_str("322416"), Ok(BitDepth::L16));
    assert_eq!(BitDepth::from_str("2416float"), Ok(BitDepth::L16));
}

#[test]
fn depth_unknown() {
    assert_eq!(
        BitDepth::from_str("L8"),
        Err(ParseError { kind: ParseErrorKind::InvalidBitDepth, text: "L8".to_owned() })
    );
    assert_eq!(
        BitDepth::from_str(""),
        Err(ParseError { kind: ParseErrorKind::InvalidBitDepth, text: String::new() })
    );
    assert_eq!(
        BitDepth::from_str("flo at 1 6"),
        Err(ParseError { kind: ParseErrorKind::InvalidBitDepth, text: "flo at 1 6".to_owned() })
    );
}

#[test]
fn default_descriptor() {
    assert_eq!(
        SessionDescriptor::default(),
        SessionDescriptor {
            multicast_address: Ipv4Address(127, 0, 0, 1),
            multicast_port: 5004,
            bit_depth: BitDepth::L16,
            channels: 2,
            sample_rate: 44100,
            packet_time: PacketTime { mantissa: 1, scale: 0 },
        }
    );
}

#[test]
fn frames_and_bytes_of_the_default() {
    let d = SessionDescriptor::default();
    assert_eq!(d.buffer_size_frames(), 44);
    assert_eq!(d.buffer_size_bytes(), 176);
}

#[test]
fn frames_are_rounded_down() {
    assert_eq!(stream(BitDepth::L24, 8, 48000, 125, 3).buffer_size_frames(), 6);
    assert_eq!(stream(BitDepth::L24, 8, 48000, 125, 3).buffer_size_bytes(), 144);
    assert_eq!(stream(BitDepth::L16, 2, 48000, 333, 3).buffer_size_frames(), 15);
    assert_eq!(stream(BitDepth::L16, 2, 48000, 333, 3).buffer_size_bytes(), 60);
    assert_eq!(stream(BitDepth::L32, 1, 44100, 4, 0).buffer_size_frames(), 176);
    assert_eq!(stream(BitDepth::FloatingPoint, 3, 44100, 4, 0).buffer_size_bytes(), 2112);
    assert_eq!(stream(BitDepth::L16, 2, 999, 1, 0).buffer_size_frames(), 0);
    assert_eq!(stream(BitDepth::L16, 2, 1000, 1, 0).buffer_size_frames(), 1);
    assert_eq!(stream(BitDepth::L16, 2, 1000, 10, 1).buffer_size_frames(), 1);
    assert_eq!(stream(BitDepth::L16, 2, 1000, 9, 1).buffer_size_frames(), 0);
    assert_eq!(stream(BitDepth::L16, 2, 48000, 208334, 7).buffer_size_frames(), 1);
    assert_eq!(stream(BitDepth::L16, 2, 48000, 208333, 7).buffer_size_frames(), 0);
}

#[test]
fn frames_with_nothing_to_count() {
    assert_eq!(stream(BitDepth::L16, 2, 0, 1, 0).buffer_size_frames(), 0);
    assert_eq!(stream(BitDepth::L16, 2, 48000, 0, 0).buffer_size_frames(), 0);
    assert_eq!(stream(BitDepth::L16, 0, 48000, 1, 0).buffer_size_bytes(), 0);
    assert_eq!(stream(BitDepth::L16, 2, 48000, 1, 4000000000).buffer_size_frames(), 0);
    assert_eq!(stream(BitDepth::L16, 2, 4294967295, 18446744073709551615, 4294967295).buffer_size_frames(), 0);
}

#[test]
fn frames_are_held_to_range() {
    assert_eq!(
        stream(BitDepth::L32, 65535, 4294967295, 18446744073709551615, 0).buffer_size_frames(),
        4294967295
    );
    assert_eq!(
        stream(BitDepth::L32, 65535, 4294967295, 18446744073709551615, 0).buffer_size_bytes(),
        4294967295 * 4 * 65535
    );
    assert_eq!(stream(BitDepth::L16, 1, 4294967295, 1000, 0).buffer_size_frames(), 4294967295);
    assert_eq!(stream(BitDepth::L16, 1, 4294967295, 1001, 0).buffer_size_frames(), 4294967295);
    assert_eq!(stream(BitDepth::L16, 1, 4294967295, 999, 0).buffer_size_frames(), 4290672327);
}

#[test]
fn packet_time_from_decimal() {
    assert_eq!(PacketTime::from_str("1"), Ok(PacketTime { mantissa: 1, scale: 0 }));
    assert_eq!(PacketTime::from_str("0.125"), Ok(PacketTime { mantissa: 125, scale: 3 }));
    assert_eq!(PacketTime::from_str("004"), Ok(PacketTime { mantissa: 4, scale: 0 }));
    assert_eq!(PacketTime::from_str(".5"), Ok(PacketTime { mantissa: 5, scale: 1 }));
    assert_eq!(PacketTime::from_str("5."), Ok(PacketTime { mantissa: 5, scale: 0 }));
    assert_eq!(PacketTime::from_str("0"), Ok(PacketTime { mantissa: 0, scale: 0 }));
    assert_eq!(PacketTime::from_str("120"), Ok(PacketTime { mantissa: 120, scale: 0 }));
    assert_eq!(PacketTime::from_str("+4"), Ok(PacketTime { mantissa: 4, scale: 0 }));
    assert_eq!(
        PacketTime::from_str("18446744073709.551615"),
        Ok(PacketTime { mantissa: 18446744073709551615, scale: 6 })
    );
    assert_eq!(
        PacketTime::from_str("0.000000000000000000000000000001"),
        Ok(PacketTime { mantissa: 1, scale: 30 })
    );
}

#[test]
fn packet_times_of_one_value_are_equal() {
    let one = Ok(PacketTime { mantissa: 1, scale: 0 });
    for text in ["1", "1.0", "1.", "01", "+1", "1.0000000000000000000000000", "1e0", "10e-1", "0.1e1", "100E-2", ".01e+2"] {
        assert_eq!(PacketTime::from_str(text), one);
    }
    let zero = Ok(PacketTime { mantissa: 0, scale: 0 });
    for text in ["0", "0.0", ".0", "0.", "000", "0e5", "0e-5", "0.000e4294967295"] {
        assert_eq!(PacketTime::from_str(text), zero);
    }
    let eighth = Ok(PacketTime { mantissa: 125, scale: 3 });
    for text in ["0.125", "0.1250", "125e-3", "1.25E-1", "0.0125e1", "00.125000"] {
        assert_eq!(PacketTime::from_str(text), eighth);
    }
}

#[test]
fn packet_time_with_exponent() {
    assert_eq!(PacketTime::from_str("1e3"), Ok(PacketTime { mantissa: 1000, scale: 0 }));
    assert_eq!(PacketTime::from_str("1E3"), Ok(PacketTime { mantissa: 1000, scale: 0 }));
    assert_eq!(PacketTime::from_str("2.5e-1"), Ok(PacketTime { mantissa: 25, scale: 2 }));
    assert_eq!(PacketTime::from_str("12e-1"), Ok(PacketTime { mantissa: 12, scale: 1 }));
    assert_eq!(PacketTime::from_str("1.5e+2"), Ok(PacketTime { mantissa: 150, scale: 0 }));
    assert_eq!(PacketTime::from_str("1.234e2"), Ok(PacketTime { mantissa: 1234, scale: 1 }));
    assert_eq!(
        PacketTime::from_str("1e19"),
        Ok(PacketTime { mantissa: 10000000000000000000, scale: 0 })
    );
    assert_eq!(
        PacketTime::from_str("1e-4294967295"),
        Ok(PacketTime { mantissa: 1, scale: 4294967295 })
    );
    assert_eq!(
        PacketTime::from_str("10e-4294967295"),
        Ok(PacketTime { mantissa: 1, scale: 4294967294 })
    );
}

#[test]
fn packet_time_from_parts() {
    let significand: Vec<char> = "12.50".chars().collect();
    assert_eq!(
        PacketTime::from_parts(&significand, Some(0)),
        Some(PacketTime { mantissa: 125, scale: 1 })
    );
    assert_eq!(
        PacketTime::from_parts(&significand, Some(-2)),
        Some(PacketTime { mantissa: 125, scale: 3 })
    );
    assert_eq!(
        PacketTime::from_parts(&significand, Some(3)),
        Some(PacketTime { mantissa: 12500, scale: 0 })
    );
    assert_eq!(PacketTime::from_parts(&significand, None), None);
    assert_eq!(PacketTime::from_parts(&[], Some(0)), None);
    assert_eq!(PacketTime::decimal(0, 77), Some(PacketTime { mantissa: 0, scale: 0 }));
    assert_eq!(PacketTime::decimal(7, 2), Some(PacketTime { mantissa: 700, scale: 0 }));
    assert_eq!(PacketTime::decimal(7, -2), Some(PacketTime { mantissa: 7, scale: 2 }));
    assert_eq!(PacketTime::decimal(2, 19), None);
    assert_eq!(PacketTime::decimal(1, 19), Some(PacketTime { mantissa: 10000000000000000000, scale: 0 }));
    assert_eq!(PacketTime::decimal(7, -4294967296), None);
    assert_eq!(PacketTime::decimal(1, i128::MAX), None);
}

#[test]
fn packet_time_rejected() {
    for text in [
        "", ".", "+", "+.", "1.2.3", "-1", "-0", "++1", "1e", "e5", ".e5", "1e+", "1e-", "1e1.5",
        "1e5e5", "1e+-5", "inf", "infinity", "NaN", " 1", "1 ", "1,5", "0x10", "1f",
        "18446744073709551616", "1844674407370955.1616", "1e20", "2e19", "1e4294967296",
        "1e-4294967296", "0e4294967296", "10e-4294967296",
    ] {
        assert_eq!(
            PacketTime::from_str(text),
            Err(ParseError { kind: ParseErrorKind::InvalidPacketTime, text: text.to_owned() })
        );
    }
}

#[test]
fn address_from_dotted_quad() {
    assert_eq!(Ipv4Address::from_str("239.69.0.121"), Ok(Ipv4Address(239, 69, 0, 121)));
    assert_eq!(Ipv4Address::from_str("0.0.0.0"), Ok(Ipv4Address(0, 0, 0, 0)));
    assert_eq!(Ipv4Address::from_str("255.255.255.255"), Ok(Ipv4Address(255, 255, 255, 255)));
    assert_eq!(Ipv4Address::from_str("1.20.3.40"), Ok(Ipv4Address(1, 20, 3, 40)));
}

#[test]
fn address_rejected() {
    for text in ["", "1.2.3", "1.2.3.4.5", "256.1.1.1", "1.1.1.256", "01.1.1.1", "1.1.1.00", "1..1.1", "1.1.1.", ".1.1.1", "a.b.c.d", "1.1.1.1 ", "1.1.1.1000", "+1.1.1.1"] {
        assert_eq!(
            Ipv4Address::from_str(text),
            Err(ParseError { kind: ParseErrorKind::InvalidAddress, text: text.to_owned() })
        );
    }
}

#[test]
fn octets() {
    assert_eq!(read_octet("0"), Some(0));
    assert_eq!(read_octet("9"), Some(9));
    assert_eq!(read_octet("10"), Some(10));
    assert_eq!(read_octet("255"), Some(255));
    assert_eq!(read_octet("256"), None);
    assert_eq!(read_octet("00"), None);
    assert_eq!(read_octet("025"), None);
    assert_eq!(read_octet(""), None);
    assert_eq!(read_octet("1000"), None);
    assert_eq!(read_octet("1a"), None);
}

#[test]
fn messages_name_what_was_rejected() {
    let incomplete = ParseError::new(ParseErrorKind::IncompleteSdp, "v=0");
    assert_eq!(incomplete.message(), "malformed SDP: v=0");
    assert_eq!(incomplete, ParseError { kind: ParseErrorKind::IncompleteSdp, text: "v=0".to_owned() });
    assert_eq!(ParseError::new(ParseErrorKind::InvalidBitDepth, "L8").message(), "invalid bit depth: L8");
    assert_eq!(ParseError::new(ParseErrorKind::MalformedRtpMap, "x").message(), "malformed rtpmap: x");
    assert_eq!(
        ParseError::new(ParseErrorKind::MalformedMediaAndTransport, "x").message(),
        "malformed media/transport: x"
    );
    assert_eq!(ParseError::new(ParseErrorKind::UnsupportedMedia, "x").message(), "unsupported media type: x");
    assert_eq!(
        ParseError::new(ParseErrorKind::MalformedConnectionInfo, "x").message(),
        "malformed connection info: x"
    );
    assert_eq!(ParseError::new(ParseErrorKind::MalformedPacketTime, "x").message(), "malformed ptime: x");
    assert_eq!(ParseError::new(ParseErrorKind::InvalidPacketTime, "x").message(), "invalid packet time: x");
    assert_eq!(ParseError::new(ParseErrorKind::InvalidNumber, "x").message(), "number out of range: x");
    assert_eq!(ParseError::new(ParseErrorKind::InvalidAddress, "x").message(), "invalid IPv4 address: x");
    assert_eq!(ParseError::new(ParseErrorKind::NotKeyValue, "x").message(), "line is not a key/value pair: x");
    assert_eq!(ParseErrorKind::IncompleteSdp.label(), "malformed SDP: ");
}

#[test]
fn address_as_dotted_quad() {
    assert_eq!(Ipv4Address(239, 69, 0, 121).to_string(), "239.69.0.121");
    assert_eq!(Ipv4Address(0, 0, 0, 0).to_string(), "0.0.0.0");
    assert_eq!(Ipv4Address(255, 255, 255, 255).to_string(), "255.255.255.255");
    assert_eq!(Ipv4Address(1, 20, 100, 9).to_string(), "1.20.100.9");
}

#[test]
fn address_reads_back() {
    for address in [
        Ipv4Address(239, 69, 0, 121),
        Ipv4Address(0, 0, 0, 0),
        Ipv4Address(255, 255, 255, 255),
        Ipv4Address(10, 100, 9, 99),
        Ipv4Address(127, 0, 0, 1),
    ] {
        assert_eq!(Ipv4Address::from_str(&address.to_string()), Ok(address));
    }
}

#[test]
fn packet_time_as_decimal() {
    assert_eq!(PacketTime { mantissa: 1, scale: 0 }.to_string(), "1");
    assert_eq!(PacketTime { mantissa: 0, scale: 0 }.to_string(), "0");
    assert_eq!(PacketTime { mantissa: 125, scale: 3 }.to_string(), "0.125");
    assert_eq!(PacketTime { mantissa: 10, scale: 1 }.to_string(), "1.0");
    assert_eq!(PacketTime { mantissa: 5, scale: 1 }.to_string(), "0.5");
    assert_eq!(PacketTime { mantissa: 12345, scale: 2 }.to_string(), "123.45");
    assert_eq!(PacketTime { mantissa: 5, scale: 3 }.to_string(), "0.005");
    assert_eq!(PacketTime { mantissa: 0, scale: 2 }.to_string(), "0.00");
    assert_eq!(PacketTime { mantissa: 100, scale: 2 }.to_string(), "1.00");
    assert_eq!(
        PacketTime { mantissa: 18446744073709551615, scale: 25 }.to_string(),
        "0.0000018446744073709551615"
    );
    assert_eq!(
        PacketTime { mantissa: 18446744073709551615, scale: 19 }.to_string(),
        "1.8446744073709551615"
    );
    assert_eq!(
        PacketTime { mantissa: 18446744073709551615, scale: 20 }.to_string(),
        "0.18446744073709551615"
    );
}

#[test]
fn packet_time_reads_back() {
    for time in [
        PacketTime { mantissa: 1, scale: 0 },
        PacketTime { mantissa: 0, scale: 0 },
        PacketTime { mantissa: 10, scale: 0 },
        PacketTime { mantissa: 125, scale: 3 },
        PacketTime { mantissa: 333, scale: 3 },
        PacketTime { mantissa: 4, scale: 4 },
        PacketTime { mantissa: 1001, scale: 2 },
        PacketTime { mantissa: 18446744073709551615, scale: 0 },
        PacketTime { mantissa: 18446744073709551615, scale: 20 },
        PacketTime { mantissa: 18446744073709551615, scale: 300 },
    ] {
        assert_eq!(PacketTime::from_str(&time.to_string()), Ok(time));
    }
}

#[test]
fn packet_time_written_otherwise_reads_back_as_its_value() {
    assert_eq!(
        PacketTime::from_str(&PacketTime { mantissa: 10, scale: 1 }.to_string()),
        Ok(PacketTime { mantissa: 1, scale: 0 })
    );
    assert_eq!(
        PacketTime::from_str(&PacketTime { mantissa: 0, scale: 7 }.to_string()),
        Ok(PacketTime { mantissa: 0, scale: 0 })
    );
    assert_eq!(
        PacketTime::from_str(&PacketTime { mantissa: 1500, scale: 2 }.to_string()),
        Ok(PacketTime { mantissa: 15, scale: 0 })
    );
}
