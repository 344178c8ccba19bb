//! The validated parameters of one audio stream.

use crate::error::{plain, rejection, ParseError, ParseErrorKind, ParseErrorView};
use crate::text::{
    all_digits, append_unsigned, ascii_lowered, chars_of, concat, contains, decimal_value,
    digit_char, digits_of, find_char, first_index, has_prefix, is_digit, is_digits,
    lemma_digits_of, lemma_first_index, lemma_first_index_bounds, lemma_four_pieces,
    lemma_leading_zeros, lemma_pow10_grows, lemma_trailing_zeros_value, occurs_in,
    parse_unsigned, pieces, pow10, split, texts, to_ascii_lower, trailing_zeros_start,
    unsigned_in, without_trailing_zeros, zeros,
};
use std::str::FromStr;
use vstd::prelude::*;

verus! {

/// The sample format of a stream.
#[derive(Debug, Clone, Copy, PartialEq, Eq, Structural)]
pub enum BitDepth {
    L16,
    L24,
    L32,
    FloatingPoint,
}

impl BitDepth {
    /// The width of one sample in bits.
    pub open spec fn spec_bits(&self) -> u16 {
        match self {
            BitDepth::L16 => 16,
            BitDepth::L24 => 24,
            BitDepth::L32 => 32,
            BitDepth::FloatingPoint => 32,
        }
    }

    /// The format that a format token names: the first of `16`, `24`, `32`
    /// that occurs in it, else floating point where it holds `float` in any
    /// mix of ASCII capitals and small letters.
    pub open spec fn spec_from_text(s: Seq<char>) -> Option<BitDepth> {
        if occurs_in("16"@, s) {
            Some(BitDepth::L16)
        } else if occurs_in("24"@, s) {
            Some(BitDepth::L24)
        } else if occurs_in("32"@, s) {
            Some(BitDepth::L32)
        } else if occurs_in("float"@, ascii_lowered(s)) {
            Some(BitDepth::FloatingPoint)
        } else {
            None
        }
    }

    /// The name under which the format is shown.
    pub open spec fn spec_name(self) -> Seq<char> {
        match self {
            BitDepth::L16 => "L16"@,
            BitDepth::L24 => "L24"@,
            BitDepth::L32 => "L32"@,
            BitDepth::FloatingPoint => "Floating Point"@,
        }
    }

    /// The width of one sample in bits.
    #[verifier::when_used_as_spec(spec_bits)]
    pub fn bits(&self) -> (bits: u16)
        ensures
            bits == self.spec_bits(),
    {
        match self {
            BitDepth::L16 => 16,
            BitDepth::L24 => 24,
            BitDepth::L32 => 32,
            BitDepth::FloatingPoint => 32,
        }
    }

    /// Whether samples are floating-point numbers.
    pub fn floating_point(&self) -> (floating: bool)
        ensures
            floating == (*self == BitDepth::FloatingPoint),
    {
        match self {
            BitDepth::FloatingPoint => true,
            _ => false,
        }
    }

    /// The name under which the format is shown.
    pub fn to_string(&self) -> (name: String)
        ensures
            name@ == self.spec_name(),
    {
        match self {
            BitDepth::L16 => "L16".to_owned(),
            BitDepth::L24 => "L24".to_owned(),
            BitDepth::L32 => "L32".to_owned(),
            BitDepth::FloatingPoint => "Floating Point".to_owned(),
        }
    }
}

impl FromStr for BitDepth {
    type Err = ParseError;

    /// Reads a format token.
    fn from_str(s: &str) -> (r: Result<BitDepth, ParseError>)
        ensures
            plain(r) == match BitDepth::spec_from_text(s@) {
                Some(depth) => Ok::<BitDepth, ParseErrorView>(depth),
                None => Err(rejection(ParseErrorKind::InvalidBitDepth, s@)),
            },
    {
        let chars = chars_of(s);
        if contains(chars.as_slice(), chars_of("16").as_slice()) {
            Ok(BitDepth::L16)
        } else if contains(chars.as_slice(), chars_of("24").as_slice()) {
            Ok(BitDepth::L24)
        } else if contains(chars.as_slice(), chars_of("32").as_slice()) {
            Ok(BitDepth::L32)
        } else if contains(
            to_ascii_lower(chars.as_slice()).as_slice(),
            chars_of("float").as_slice(),
        ) {
            Ok(BitDepth::FloatingPoint)
        } else {
            Err(ParseError::new(ParseErrorKind::InvalidBitDepth, s))
        }
    }
}

/// A text occurs only where its first character stands.
pub proof fn lemma_occurs_at(needle: Seq<char>, s: Seq<char>)
    requires
        needle.len() > 0,
        occurs_in(needle, s),
    ensures
        exists|i: int| 0 <= i < s.len() && s[i] == needle[0],
{
    let i = choose|i: int| 0 <= i && #[trigger] has_prefix(s.skip(i), needle) && i <= s.len();
    assert(s.skip(i).take(needle.len() as int)[0] == needle[0]);
    assert(s[i] == needle[0]);
}

/// The name under which a format is shown reads back as that format.
pub proof fn lemma_name_reads_back(depth: BitDepth)
    ensures
        BitDepth::spec_from_text(depth.spec_name()) == Some(depth),
{
    reveal_strlit("16");
    reveal_strlit("24");
    reveal_strlit("32");
    reveal_strlit("float");
    reveal_strlit("L16");
    reveal_strlit("L24");
    reveal_strlit("L32");
    reveal_strlit("Floating Point");
    let name = depth.spec_name();
    match depth {
        BitDepth::L16 => {
            assert(name.skip(1).take(2) =~= "16"@);
            assert(has_prefix(name.skip(1), "16"@));
        },
        BitDepth::L24 => {
            if occurs_in("16"@, name) {
                lemma_occurs_at("16"@, name);
            }
            assert(name.skip(1).take(2) =~= "24"@);
            assert(has_prefix(name.skip(1), "24"@));
        },
        BitDepth::L32 => {
            if occurs_in("16"@, name) {
                lemma_occurs_at("16"@, name);
            }
            if occurs_in("24"@, name) {
                let i = choose|i: int|
                    0 <= i && #[trigger] has_prefix(name.skip(i), "24"@) && i <= name.len();
                assert(name.skip(i).take(2)[0] == '2');
                assert(name.skip(i).take(2)[1] == '4');
            }
            assert(name.skip(1).take(2) =~= "32"@);
            assert(has_prefix(name.skip(1), "32"@));
        },
        BitDepth::FloatingPoint => {
            if occurs_in("16"@, name) {
                lemma_occurs_at("16"@, name);
            }
            if occurs_in("24"@, name) {
                lemma_occurs_at("24"@, name);
            }
            if occurs_in("32"@, name) {
                lemma_occurs_at("32"@, name);
            }
            let lowered = ascii_lowered(name);
            assert(lowered.skip(0).take(5) =~= "float"@);
            assert(has_prefix(lowered.skip(0), "float"@));
        },
    }
}

/// An IPv4 address, by its four octets from the first to the last.
#[derive(Debug, Clone, Copy, PartialEq, Eq, Structural)]
pub struct Ipv4Address(pub u8, pub u8, pub u8, pub u8);

/// Whether `s` writes one octet of a dotted quad: one to three decimal
/// digits, without a leading zero unless it is the single digit, at most 255.
pub open spec fn is_octet(s: Seq<char>) -> bool {
    &&& 1 <= s.len() <= 3
    &&& s.len() > 1 ==> s[0] != '0'
    &&& unsigned_in(s, 255) is Some
}

impl Ipv4Address {
    /// The address that the dotted quad `s` writes.
    pub open spec fn spec_from_text(s: Seq<char>) -> Option<Ipv4Address> {
        let parts = pieces(s, '.');
        if parts.len() == 4 && is_octet(parts[0]) && is_octet(parts[1]) && is_octet(parts[2])
            && is_octet(parts[3]) {
            Some(
                Ipv4Address(
                    decimal_value(parts[0]) as u8,
                    decimal_value(parts[1]) as u8,
                    decimal_value(parts[2]) as u8,
                    decimal_value(parts[3]) as u8,
                ),
            )
        } else {
            None
        }
    }

    /// The dotted quad that writes the address.
    pub open spec fn spec_text(self) -> Seq<char> {
        digits_of(self.0 as nat) + seq!['.'] + digits_of(self.1 as nat) + seq!['.'] + digits_of(
            self.2 as nat,
        ) + seq!['.'] + digits_of(self.3 as nat)
    }

    /// Writes the address as a dotted quad.
    pub fn to_string(&self) -> (text: String)
        ensures
            text@ == self.spec_text(),
    {
        let mut text = String::new();
        append_unsigned(&mut text, self.0 as u64);
        text.append(".");
        append_unsigned(&mut text, self.1 as u64);
        text.append(".");
        append_unsigned(&mut text, self.2 as u64);
        text.append(".");
        append_unsigned(&mut text, self.3 as u64);
        proof {
            reveal_strlit(".");
            assert("."@ =~= seq!['.']);
            assert(text@ =~= self.spec_text());
        }
        text
    }
}

/// The digits of a number below 256 write an octet, and hold no point.
pub proof fn lemma_octet_digits(n: u8)
    ensures
        is_octet(digits_of(n as nat)),
        decimal_value(digits_of(n as nat)) == n,
        forall|j: int| 0 <= j < digits_of(n as nat).len() ==> digits_of(n as nat)[j] != '.',
{
    let d = digits_of(n as nat);
    lemma_digits_of(n as nat);
    if n >= 10 {
        lemma_digits_of(n as nat / 10);
        if n >= 100 {
            lemma_digits_of(n as nat / 10 / 10);
        }
    }
    assert forall|j: int| 0 <= j < d.len() implies d[j] != '.' by {
        assert(is_digit(d[j]));
    }
}

/// The dotted quad that writes an address reads back as that address.
pub proof fn lemma_address_reads_back(address: Ipv4Address)
    ensures
        Ipv4Address::spec_from_text(address.spec_text()) == Some(address),
{
    let a = digits_of(address.0 as nat);
    let b = digits_of(address.1 as nat);
    let c = digits_of(address.2 as nat);
    let d = digits_of(address.3 as nat);
    lemma_octet_digits(address.0);
    lemma_octet_digits(address.1);
    lemma_octet_digits(address.2);
    lemma_octet_digits(address.3);
    lemma_four_pieces(a, b, c, d, '.');
    let parts = pieces(address.spec_text(), '.');
    assert(parts[0] == a && parts[1] == b && parts[2] == c && parts[3] == d);
}

impl FromStr for Ipv4Address {
    type Err = ParseError;

    /// Reads a dotted quad.
    fn from_str(s: &str) -> (r: Result<Ipv4Address, ParseError>)
        ensures
            plain(r) == match Ipv4Address::spec_from_text(s@) {
                Some(address) => Ok::<Ipv4Address, ParseErrorView>(address),
                None => Err(rejection(ParseErrorKind::InvalidAddress, s@)),
            },
    {
        let parts = split(s, '.');
        if parts.len() != 4 {
            return Err(ParseError::new(ParseErrorKind::InvalidAddress, s));
        }
        proof {
            assert(texts(parts@)[0] == parts@[0]@);
            assert(texts(parts@)[1] == parts@[1]@);
            assert(texts(parts@)[2] == parts@[2]@);
            assert(texts(parts@)[3] == parts@[3]@);
        }
        let a = read_octet(parts[0].as_str());
        let b = read_octet(parts[1].as_str());
        let c = read_octet(parts[2].as_str());
        let d = read_octet(parts[3].as_str());
        match (a, b, c, d) {
            (Some(a), Some(b), Some(c), Some(d)) => Ok(Ipv4Address(a, b, c, d)),
            _ => Err(ParseError::new(ParseErrorKind::InvalidAddress, s)),
        }
    }
}

/// Reads one octet of a dotted quad.
pub fn read_octet(s: &str) -> (octet: Option<u8>)
    ensures
        octet is Some == is_octet(s@),
        octet is Some ==> octet->0 == decimal_value(s@),
{
    let chars = chars_of(s);
    let n: usize = chars.len();
    if n < 1 || n > 3 {
        return None;
    }
    if n > 1 && chars[0] == '0' {
        return None;
    }
    match parse_unsigned(chars.as_slice(), 255) {
        Some(v) => Some(v as u8),
        None => None,
    }
}

/// Where the exponent of a number begins: at its first `e` or `E`, or at
/// its end when it has none.
pub open spec fn exponent_mark(s: Seq<char>) -> int {
    let small = first_index(s, 'e');
    let capital = first_index(s, 'E');
    if small < capital {
        small
    } else {
        capital
    }
}

/// The whole number that an exponent writes: an optional sign and digits,
/// of a value within the range of `u32` either way.
pub open spec fn spec_exponent(t: Seq<char>) -> Option<int> {
    let signed = t.len() > 0 && (t[0] == '+' || t[0] == '-');
    let digits = if signed {
        t.skip(1)
    } else {
        t
    };
    match unsigned_in(digits, u32::MAX as u64) {
        Some(value) => Some(
            if t[0] == '-' {
                -(value as int)
            } else {
                value as int
            },
        ),
        None => None,
    }
}

/// An exponent that was read, as a whole number.
pub open spec fn whole_number(e: Option<i64>) -> Option<int> {
    match e {
        Some(value) => Some(value as int),
        None => None,
    }
}

/// Reads an exponent.
pub fn read_exponent(chars: &[char]) -> (e: Option<i64>)
    ensures
        whole_number(e) == spec_exponent(chars@),
{
    let n: usize = chars.len();
    if n == 0 {
        return None;
    }
    let first: char = chars[0];
    let start: usize = if first == '+' || first == '-' {
        1
    } else {
        0
    };
    let digits = vstd::slice::slice_subrange(chars, start, n);
    proof {
        if start == 1 {
            assert(digits@ =~= chars@.skip(1));
        } else {
            assert(digits@ =~= chars@);
        }
    }
    match parse_unsigned(digits, u32::MAX as u64) {
        Some(value) => if first == '-' {
            Some(-(value as i64))
        } else {
            Some(value as i64)
        },
        None => None,
    }
}

/// A packet duration in milliseconds, as the exact decimal number
/// `mantissa / 10^scale`. Reading a text gives the one such number in which
/// no power of ten can be taken out of both.
#[derive(Debug, Clone, Copy, PartialEq, Eq, Structural)]
pub struct PacketTime {
    pub mantissa: u64,
    pub scale: u32,
}

impl PacketTime {
    /// Whether the duration is written in the one way that this type keeps
    /// for each value: with no zero at the end of what follows the point.
    pub open spec fn spec_normal(self) -> bool {
        self.scale > 0 ==> self.mantissa % 10 != 0
    }

    /// The duration `m * 10^k`, written in the one way kept for each value;
    /// none where that takes a mantissa beyond `u64` or a scale beyond `u32`.
    pub open spec fn spec_decimal(m: nat, k: int) -> Option<PacketTime> {
        if m == 0 {
            Some(PacketTime { mantissa: 0, scale: 0 })
        } else if k >= 0 {
            if m * pow10(k as nat) <= u64::MAX {
                Some(PacketTime { mantissa: (m * pow10(k as nat)) as u64, scale: 0 })
            } else {
                None
            }
        } else if m <= u64::MAX && -k <= u32::MAX {
            Some(PacketTime { mantissa: m as u64, scale: (-k) as u32 })
        } else {
            None
        }
    }

    /// The duration that a significand and an exponent write. The
    /// significand is digits with an optional point among them, at least one
    /// digit in all. With `kept` the digits without the zeros at their end,
    /// the value is `kept` times ten to the exponent, less one power for
    /// each digit behind the point, plus one for each zero left off.
    pub open spec fn spec_from_parts(significand: Seq<char>, exponent: Option<int>) -> Option<
        PacketTime,
    > {
        let dot = first_index(significand, '.');
        let whole = significand.take(dot);
        let fraction = if dot < significand.len() {
            significand.skip(dot + 1)
        } else {
            Seq::<char>::empty()
        };
        let digits = whole + fraction;
        let kept = without_trailing_zeros(digits);
        if digits.len() > 0 && all_digits(digits) && exponent is Some {
            PacketTime::spec_decimal(
                decimal_value(kept),
                exponent->0 - fraction.len() + (digits.len() - kept.len()),
            )
        } else {
            None
        }
    }

    /// The duration that the number `s` writes: an optional `+`, then digits
    /// with an optional point among them, then an optional exponent behind
    /// `e` or `E`. Texts that write the same value give the same duration.
    pub open spec fn spec_from_text(s: Seq<char>) -> Option<PacketTime> {
        let body = if s.len() > 0 && s[0] == '+' {
            s.skip(1)
        } else {
            s
        };
        let mark = exponent_mark(body);
        let exponent = if mark < body.len() {
            spec_exponent(body.skip(mark + 1))
        } else {
            Some(0int)
        };
        PacketTime::spec_from_parts(body.take(mark), exponent)
    }

    /// The duration `m * 10^k`, where the type can hold it.
    pub fn decimal(m: u64, k: i128) -> (time: Option<PacketTime>)
        ensures
            time == PacketTime::spec_decimal(m as nat, k as int),
    {
        if m == 0 {
            return Some(PacketTime { mantissa: 0, scale: 0 });
        }
        if k < 0 {
            if k < -(u32::MAX as i128) {
                return None;
            }
            return Some(PacketTime { mantissa: m, scale: (-k) as u32 });
        }
        let mut mantissa: u64 = m;
        let mut i: i128 = 0;
        proof {
            assert(pow10(0) == 1);
            assert(m * 1 == m);
        }
        while i < k
            invariant
                0 <= i <= k,
                m >= 1,
                mantissa == m * pow10(i as nat),
            decreases k - i,
        {
            if mantissa > u64::MAX / 10 {
                proof {
                    lemma_pow10_grows((i + 1) as nat, k as nat);
                    let small = pow10((i + 1) as nat);
                    let large = pow10(k as nat);
                    assert(m * small <= m * large) by (nonlinear_arith)
                        requires
                            small <= large,
                            m >= 0,
                    ;
                    assert(m * small == (m * pow10(i as nat)) * 10) by (nonlinear_arith)
                        requires
                            small == 10 * pow10(i as nat),
                    ;
                }
                return None;
            }
            proof {
                let before = pow10(i as nat);
                assert(m * (10 * before) == (m * before) * 10) by (nonlinear_arith);
            }
            mantissa = mantissa * 10;
            i += 1;
        }
        Some(PacketTime { mantissa, scale: 0 })
    }

    /// Reads a significand beside its exponent, which is none where the
    /// exponent could not be read.
    pub fn from_parts(significand: &[char], exponent: Option<i64>) -> (time: Option<PacketTime>)
        ensures
            time == PacketTime::spec_from_parts(significand@, whole_number(exponent)),
    {
        let n: usize = significand.len();
        let dot: usize = find_char(significand, '.');
        proof {
            lemma_first_index_bounds(significand@, '.');
        }
        let whole = vstd::slice::slice_subrange(significand, 0, dot);
        let fraction = if dot < n {
            vstd::slice::slice_subrange(significand, dot + 1, n)
        } else {
            vstd::slice::slice_subrange(significand, n, n)
        };
        proof {
            assert(whole@ =~= significand@.take(dot as int));
            if dot < n {
                assert(fraction@ =~= significand@.skip(dot + 1));
            } else {
                assert(fraction@ =~= Seq::<char>::empty());
            }
        }
        let digits = concat(whole, fraction);
        if digits.len() == 0 || !is_digits(digits.as_slice()) {
            return None;
        }
        let exponent: i64 = match exponent {
            Some(e) => e,
            None => {
                return None;
            },
        };
        let keep: usize = trailing_zeros_start(digits.as_slice());
        let kept = vstd::slice::slice_subrange(digits.as_slice(), 0, keep);
        proof {
            assert(kept@ =~= without_trailing_zeros(digits@));
            assert forall|j: int| 0 <= j < kept@.len() implies is_digit(#[trigger] kept@[j]) by {
                assert(kept@[j] == digits@[j]);
            }
        }
        let k: i128 = exponent as i128 - fraction.len() as i128 + (digits.len() - keep) as i128;
        if keep == 0 {
            return Some(PacketTime { mantissa: 0, scale: 0 });
        }
        match parse_unsigned(kept, u64::MAX) {
            Some(m) => PacketTime::decimal(m, k),
            None => {
                proof {
                    let m = decimal_value(kept@);
                    if k >= 0 {
                        lemma_pow10_grows(0, k as nat);
                        let power = pow10(k as nat);
                        assert(m * power >= m) by (nonlinear_arith)
                            requires
                                power >= 1,
                                m >= 0,
                        ;
                    }
                }
                None
            },
        }
    }

    /// The decimal number that writes the duration: the digits of the
    /// mantissa with a point before the last `scale` of them, behind `0.` and
    /// as many zeros as are wanting where the digits are too few, and without
    /// a point where `scale` is zero.
    pub open spec fn spec_text(self) -> Seq<char> {
        let digits = digits_of(self.mantissa as nat);
        let scale = self.scale as int;
        if scale == 0 {
            digits
        } else if digits.len() > scale {
            digits.take(digits.len() - scale) + seq!['.'] + digits.skip(digits.len() - scale)
        } else {
            seq!['0', '.'] + zeros((scale - digits.len()) as nat) + digits
        }
    }

    /// Writes the duration as a decimal number of milliseconds.
    pub fn to_string(&self) -> (text: String)
        ensures
            text@ == self.spec_text(),
    {
        let mut digits = String::new();
        append_unsigned(&mut digits, self.mantissa);
        let len: usize = digits.as_str().unicode_len();
        let scale: usize = self.scale as usize;
        proof {
            lemma_digits_of(self.mantissa as nat);
            assert(digits@ =~= digits_of(self.mantissa as nat));
            reveal_strlit(".");
            reveal_strlit("0");
            reveal_strlit("0.");
        }
        if scale == 0 {
            digits
        } else if len > scale {
            let mut text = digits.as_str().substring_char(0, len - scale).to_owned();
            text.append(".");
            text.append(digits.as_str().substring_char(len - scale, len));
            proof {
                assert(digits@.subrange(0, len - scale) =~= digits@.take(len - scale));
                assert(digits@.subrange(len - scale, len as int) =~= digits@.skip(len - scale));
                assert(text@ =~= self.spec_text());
            }
            text
        } else {
            let mut text = "0.".to_owned();
            let mut i: usize = 0;
            proof {
                assert(text@ =~= seq!['0', '.'] + zeros(0));
            }
            while i < scale - len
                invariant
                    len <= scale,
                    i <= scale - len,
                    text@ == seq!['0', '.'] + zeros(i as nat),
                decreases scale - len - i,
            {
                text.append("0");
                proof {
                    reveal_strlit("0");
                    assert(text@ =~= seq!['0', '.'] + zeros((i + 1) as nat));
                }
                i += 1;
            }
            text.append(digits.as_str());
            text
        }
    }
}

/// The decimal number that writes a duration is made of digits and at most
/// one point, and ends in a digit.
pub proof fn lemma_packet_time_text(time: PacketTime)
    ensures
        time.spec_text().len() > 0,
        is_digit(time.spec_text().last()),
        forall|j: int|
            0 <= j < time.spec_text().len() ==> is_digit(#[trigger] time.spec_text()[j])
                || time.spec_text()[j] == '.',
{
    let m = time.mantissa as nat;
    let digits = digits_of(m);
    let scale = time.scale as int;
    let text = time.spec_text();
    lemma_digits_of(m);
    assert(is_digit(digits.last()));
    assert forall|j: int| 0 <= j < text.len() implies is_digit(#[trigger] text[j]) || text[j]
        == '.' by {
        if scale == 0 {
        } else if digits.len() > scale {
            let cut = digits.len() - scale;
            if j < cut {
                assert(text[j] == digits[j]);
            } else if j > cut {
                assert(text[j] == digits[j - 1]);
            }
        } else {
            let fill = scale - digits.len();
            if j >= 2 + fill {
                assert(text[j] == digits[j - 2 - fill]);
            }
        }
    }
    assert(text.last() == digits.last());
}

/// The decimal number that writes a duration reads back as that duration,
/// where the duration is written in the one way kept for each value.
pub proof fn lemma_packet_time_reads_back(time: PacketTime)
    requires
        time.spec_normal(),
    ensures
        PacketTime::spec_from_text(time.spec_text()) == Some(time),
{
    let m = time.mantissa as nat;
    let digits = digits_of(m);
    let scale = time.scale as int;
    let text = time.spec_text();
    lemma_digits_of(m);
    lemma_packet_time_text(time);
    assert(digits.last() == digit_char(m % 10));
    lemma_first_index(text, 'e', text.len() as int);
    lemma_first_index(text, 'E', text.len() as int);
    assert(text.take(text.len() as int) =~= text);
    assert(PacketTime::spec_from_text(text) == PacketTime::spec_from_parts(text, Some(0int)));
    if scale == 0 {
        lemma_first_index(text, '.', text.len() as int);
        assert(text + Seq::<char>::empty() =~= digits);
        lemma_trailing_zeros_value(digits);
    } else {
        let joined = if digits.len() > scale {
            digits
        } else {
            zeros((scale - digits.len() + 1) as nat) + digits
        };
        if digits.len() > scale {
            let cut = digits.len() - scale;
            assert(text[cut] == '.');
            lemma_first_index(text, '.', cut);
            assert(text.take(cut) + text.skip(cut + 1) =~= joined);
            assert(text.skip(cut + 1).len() == scale);
        } else {
            let fill = (scale - digits.len()) as nat;
            assert(text[0] == '0');
            assert(text[1] == '.');
            lemma_first_index(text, '.', 1);
            assert(text.take(1) + text.skip(2) =~= joined);
            lemma_leading_zeros(fill + 1, digits);
            assert(text.skip(2).len() == scale);
        }
        assert(joined.last() == digits.last());
        assert(without_trailing_zeros(joined) == joined);
        assert(decimal_value(joined) == m);
    }
}

impl FromStr for PacketTime {
    type Err = ParseError;

    /// Reads a number of milliseconds, such as `1`, `0.125` or `2.5e-1`.
    fn from_str(s: &str) -> (r: Result<PacketTime, ParseError>)
        ensures
            plain(r) == match PacketTime::spec_from_text(s@) {
                Some(time) => Ok::<PacketTime, ParseErrorView>(time),
                None => Err(rejection(ParseErrorKind::InvalidPacketTime, s@)),
            },
    {
        let chars = chars_of(s);
        let n: usize = chars.len();
        let start: usize = if n > 0 && chars[0] == '+' {
            1
        } else {
            0
        };
        let body = vstd::slice::slice_subrange(chars.as_slice(), start, n);
        proof {
            if start == 1 {
                assert(body@ =~= s@.skip(1));
            } else {
                assert(body@ =~= s@);
            }
        }
        let small: usize = find_char(body, 'e');
        let capital: usize = find_char(body, 'E');
        let mark: usize = if small < capital {
            small
        } else {
            capital
        };
        proof {
            lemma_first_index_bounds(body@, 'e');
            lemma_first_index_bounds(body@, 'E');
        }
        let exponent: Option<i64> = if mark < body.len() {
            let written = vstd::slice::slice_subrange(body, mark + 1, body.len());
            proof {
                assert(written@ =~= body@.skip(mark + 1));
            }
            read_exponent(written)
        } else {
            Some(0)
        };
        let significand = vstd::slice::slice_subrange(body, 0, mark);
        proof {
            assert(significand@ =~= body@.take(mark as int));
        }
        match PacketTime::from_parts(significand, exponent) {
            Some(time) => Ok(time),
            None => Err(ParseError::new(ParseErrorKind::InvalidPacketTime, s)),
        }
    }
}

/// The validated parameters of one audio stream.
#[derive(Debug, Clone, Copy, PartialEq, Eq, Structural)]
pub struct SessionDescriptor {
    pub multicast_address: Ipv4Address,
    pub multicast_port: u16,
    pub bit_depth: BitDepth,
    pub channels: u16,
    pub sample_rate: u32,
    pub packet_time: PacketTime,
}

impl Default for SessionDescriptor {
    /// The fallback stream: 127.0.0.1, port 5004, 16 bits, two channels,
    /// 44100 Hz, packets of one millisecond.
    fn default() -> (d: SessionDescriptor)
        ensures
            d == (SessionDescriptor {
                multicast_address: Ipv4Address(127, 0, 0, 1),
                multicast_port: 5004,
                bit_depth: BitDepth::L16,
                channels: 2,
                sample_rate: 44100,
                packet_time: PacketTime { mantissa: 1, scale: 0 },
            }),
    {
        SessionDescriptor {
            multicast_address: Ipv4Address(127, 0, 0, 1),
            multicast_port: 5004,
            bit_depth: BitDepth::L16,
            channels: 2,
            sample_rate: 44100,
            packet_time: PacketTime { mantissa: 1, scale: 0 },
        }
    }
}

impl SessionDescriptor {
    /// The whole number of sample frames that fit in one packet,
    /// `floor(packet_time * sample_rate / 1000)`, held to the range of `u32`.
    pub open spec fn spec_buffer_size_frames(self) -> u32 {
        let exact = (self.packet_time.mantissa as nat * self.sample_rate as nat) / (1000 * pow10(
            self.packet_time.scale as nat,
        ));
        if exact > u32::MAX {
            u32::MAX
        } else {
            exact as u32
        }
    }

    /// The bytes that the frames of one packet take: frames times bytes per
    /// sample times channels.
    pub open spec fn spec_buffer_size_bytes(self) -> u64 {
        (self.spec_buffer_size_frames() as nat * (self.bit_depth.spec_bits() as nat / 8)
            * self.channels as nat) as u64
    }

    /// The bytes that the frames of one packet take.
    pub fn buffer_size_bytes(&self) -> (bytes: u64)
        ensures
            bytes == self.spec_buffer_size_bytes(),
            bytes == self.spec_buffer_size_frames() as nat * (self.bit_depth.spec_bits() as nat
                / 8) * self.channels as nat,
    {
        let frames: u64 = self.buffer_size_frames() as u64;
        let width: u64 = (self.bit_depth.bits() / 8) as u64;
        let channels: u64 = self.channels as u64;
        assert(frames * width <= 0xffff_ffff * 4) by (nonlinear_arith)
            requires
                frames <= 0xffff_ffff,
                width <= 4,
        ;
        let samples: u64 = frames * width;
        assert(samples * channels <= 0xffff_ffff * 4 * 0xffff) by (nonlinear_arith)
            requires
                samples <= 0xffff_ffff * 4,
                channels <= 0xffff,
        ;
        samples * channels
    }

    /// The whole number of sample frames that fit in one packet.
    pub fn buffer_size_frames(&self) -> (frames: u32)
        ensures
            frames == self.spec_buffer_size_frames(),
    {
        let mantissa: u128 = self.packet_time.mantissa as u128;
        let rate: u128 = self.sample_rate as u128;
        let scale: u32 = self.packet_time.scale;
        assert(mantissa * rate <= 0xffff_ffff_ffff_ffff * 0xffff_ffff) by (nonlinear_arith)
            requires
                mantissa <= 0xffff_ffff_ffff_ffff,
                rate <= 0xffff_ffff,
        ;
        let samples: u128 = mantissa * rate;
        let mut thousands: u128 = 1000;
        let mut i: u32 = 0;
        while i < scale
            invariant
                i <= scale,
                thousands == 1000 * pow10(i as nat),
                thousands >= 1000,
                samples <= 0xffff_ffff_ffff_ffff * 0xffff_ffff,
                samples == self.packet_time.mantissa as nat * self.sample_rate as nat,
                scale == self.packet_time.scale,
            decreases scale - i,
        {
            if thousands > samples {
                proof {
                    lemma_pow10_grows(i as nat, scale as nat);
                    lemma_small_quotient(
                        samples as int,
                        thousands as int,
                        1000 * pow10(scale as nat) as int,
                    );
                }
                return 0;
            }
            thousands = thousands * 10;
            i += 1;
        }
        let exact: u128 = samples / thousands;
        if exact > u32::MAX as u128 {
            u32::MAX
        } else {
            exact as u32
        }
    }
}

/// A number divided by anything larger gives zero.
pub proof fn lemma_small_quotient(x: int, d: int, e: int)
    requires
        0 <= x < d <= e,
    ensures
        x / e == 0,
{
    vstd::arithmetic::div_mod::lemma_basic_div(x, e);
}

} // verus!
