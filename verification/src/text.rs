//! Character-level text primitives: whitespace, trimming, searching,
//! splitting and unsigned decimal numbers, each with its mathematical meaning.

use vstd::prelude::*;

verus! {

/// Whether `c` has the Unicode `White_Space` property.
pub open spec fn is_space(c: char) -> bool {
    let u = c as u32;
    ||| 0x09 <= u <= 0x0d
    ||| u == 0x20
    ||| u == 0x85
    ||| u == 0xa0
    ||| u == 0x1680
    ||| 0x2000 <= u <= 0x200a
    ||| u == 0x2028
    ||| u == 0x2029
    ||| u == 0x202f
    ||| u == 0x205f
    ||| u == 0x3000
}

/// `s` without its leading white space.
pub open spec fn trim_start(s: Seq<char>) -> Seq<char>
    decreases s.len(),
{
    if s.len() > 0 && is_space(s[0]) {
        trim_start(s.drop_first())
    } else {
        s
    }
}

/// `s` without its trailing white space.
pub open spec fn trim_end(s: Seq<char>) -> Seq<char>
    decreases s.len(),
{
    if s.len() > 0 && is_space(s.last()) {
        trim_end(s.drop_last())
    } else {
        s
    }
}

/// `s` without leading and trailing white space.
pub open spec fn trim(s: Seq<char>) -> Seq<char> {
    trim_end(trim_start(s))
}

/// The position of the first `c` in `s`, or `s.len()` when there is none.
pub open spec fn first_index(s: Seq<char>, c: char) -> int
    decreases s.len(),
{
    if s.len() == 0 || s[0] == c {
        0
    } else {
        1 + first_index(s.drop_first(), c)
    }
}

/// The pieces of `s` between occurrences of `sep`; always at least one piece.
pub open spec fn pieces(s: Seq<char>, sep: char) -> Seq<Seq<char>>
    decreases s.len(),
{
    let i = first_index(s, sep);
    if 0 <= i < s.len() {
        seq![s.take(i)] + pieces(s.skip(i + 1), sep)
    } else {
        seq![s]
    }
}

/// Whether `s` begins with `prefix`.
pub open spec fn has_prefix(s: Seq<char>, prefix: Seq<char>) -> bool {
    prefix.len() <= s.len() && s.take(prefix.len() as int) == prefix
}

/// Whether `needle` occurs in `s` as a contiguous run.
pub open spec fn occurs_in(needle: Seq<char>, s: Seq<char>) -> bool {
    exists|i: int| 0 <= i && #[trigger] has_prefix(s.skip(i), needle) && i <= s.len()
}

/// `c` with the ASCII capitals mapped to their small letters.
pub open spec fn ascii_lower(c: char) -> char {
    if 'A' <= c <= 'Z' {
        ((c as u32 + 32) as u8) as char
    } else {
        c
    }
}

/// `s` with every ASCII capital mapped to its small letter.
pub open spec fn ascii_lowered(s: Seq<char>) -> Seq<char> {
    Seq::new(s.len(), |i: int| ascii_lower(s[i]))
}

/// Whether `c` is one of `0` to `9`.
pub open spec fn is_digit(c: char) -> bool {
    '0' <= c <= '9'
}

/// Whether every character of `s` is a decimal digit.
pub open spec fn all_digits(s: Seq<char>) -> bool {
    forall|i: int| 0 <= i < s.len() ==> is_digit(#[trigger] s[i])
}

/// The number that the decimal digits `s` write; the empty text writes 0.
pub open spec fn decimal_value(s: Seq<char>) -> nat
    decreases s.len(),
{
    if s.len() == 0 {
        0
    } else {
        decimal_value(s.drop_last()) * 10 + ((s.last() as u32 - 0x30) as nat)
    }
}

/// The number written by `s` when `s` is a non-empty run of decimal digits
/// whose value does not exceed `max`.
pub open spec fn unsigned_in(s: Seq<char>, max: u64) -> Option<u64> {
    if s.len() > 0 && all_digits(s) && decimal_value(s) <= max {
        Some(decimal_value(s) as u64)
    } else {
        None
    }
}

/// `first_index` is the one position before which `c` does not occur and at
/// which it does, or the length.
pub proof fn lemma_first_index(s: Seq<char>, c: char, i: int)
    requires
        0 <= i <= s.len(),
        forall|j: int| 0 <= j < i ==> s[j] != c,
        i < s.len() ==> s[i] == c,
    ensures
        first_index(s, c) == i,
    decreases s.len(),
{
    if s.len() == 0 || s[0] == c {
    } else {
        let t = s.drop_first();
        assert forall|j: int| 0 <= j < i - 1 implies t[j] != c by {
            assert(t[j] == s[j + 1]);
        }
        lemma_first_index(t, c, i - 1);
    }
}

/// `first_index` lies within the text, hits `c` when inside, and skips no `c`.
pub proof fn lemma_first_index_bounds(s: Seq<char>, c: char)
    ensures
        0 <= first_index(s, c) <= s.len(),
        first_index(s, c) < s.len() ==> s[first_index(s, c)] == c,
        forall|j: int| 0 <= j < first_index(s, c) ==> s[j] != c,
    decreases s.len(),
{
    if s.len() == 0 || s[0] == c {
    } else {
        let t = s.drop_first();
        lemma_first_index_bounds(t, c);
        assert forall|j: int| 0 <= j < first_index(s, c) implies s[j] != c by {
            if j > 0 {
                assert(s[j] == t[j - 1]);
            }
        }
    }
}

/// Trimming the start of `s` leaves the part from the first character that is
/// no white space.
pub proof fn lemma_trim_start(s: Seq<char>, a: int)
    requires
        0 <= a <= s.len(),
        forall|j: int| 0 <= j < a ==> is_space(s[j]),
        a < s.len() ==> !is_space(s[a]),
    ensures
        trim_start(s) == s.skip(a),
    decreases s.len(),
{
    if s.len() > 0 && is_space(s[0]) {
        let t = s.drop_first();
        assert forall|j: int| 0 <= j < a - 1 implies is_space(t[j]) by {
            assert(t[j] == s[j + 1]);
        }
        lemma_trim_start(t, a - 1);
        assert(t.skip(a - 1) =~= s.skip(a));
    } else {
        assert(a == 0);
        assert(s.skip(0) =~= s);
    }
}

/// Trimming the end of `s` leaves the part up to the last character that is
/// no white space.
pub proof fn lemma_trim_end(s: Seq<char>, b: int)
    requires
        0 <= b <= s.len(),
        forall|j: int| b <= j < s.len() ==> is_space(s[j]),
        b > 0 ==> !is_space(s[b - 1]),
    ensures
        trim_end(s) == s.take(b),
    decreases s.len(),
{
    if s.len() > 0 && is_space(s.last()) {
        let t = s.drop_last();
        lemma_trim_end(t, b);
        assert(t.take(b) =~= s.take(b));
    } else {
        assert(b == s.len());
        assert(s.take(b) =~= s);
    }
}

/// The characters of `s`, in order.
pub fn chars_of(s: &str) -> (chars: Vec<char>)
    ensures
        chars@ == s@,
{
    let mut chars: Vec<char> = Vec::new();
    let it = s.chars();
    for c in iter: it
        invariant
            iter.seq() == s@,
            chars@ == iter.seq().take(iter.index() as int),
    {
        chars.push(c);
    }
    chars
}

/// The texts that `strings` hold, in order.
pub open spec fn texts(strings: Seq<String>) -> Seq<Seq<char>> {
    strings.map_values(|t: String| t@)
}

/// A text without `sep` is its own single piece.
pub proof fn lemma_pieces_single(s: Seq<char>, sep: char)
    requires
        forall|j: int| 0 <= j < s.len() ==> s[j] != sep,
    ensures
        pieces(s, sep) == seq![s],
{
    lemma_first_index(s, sep, s.len() as int);
}

/// The pieces of `s` between occurrences of `sep`, as owned strings.
pub fn split(s: &str, sep: char) -> (parts: Vec<String>)
    ensures
        texts(parts@) == pieces(s@, sep),
{
    let chars = chars_of(s);
    let n: usize = chars.len();
    let mut parts: Vec<String> = Vec::new();
    let mut start: usize = 0;
    let mut i: usize = 0;
    proof {
        assert(s@.skip(0) =~= s@);
        assert(texts(parts@) + pieces(s@, sep) =~= pieces(s@, sep));
    }
    while i < n
        invariant
            start <= i <= n,
            n == chars@.len(),
            chars@ == s@,
            forall|j: int| start <= j < i ==> chars@[j] != sep,
            texts(parts@) + pieces(s@.skip(start as int), sep) == pieces(s@, sep),
        decreases n - i,
    {
        if chars[i] == sep {
            let piece = s.substring_char(start, i).to_owned();
            proof {
                let rest = s@.skip(start as int);
                assert forall|j: int| 0 <= j < i - start implies rest[j] != sep by {
                    assert(rest[j] == s@[j + start]);
                }
                lemma_first_index(rest, sep, i - start);
                assert(rest.take(i - start) =~= s@.subrange(start as int, i as int));
                assert(rest.skip(i - start + 1) =~= s@.skip(i + 1));
                assert(texts(parts@.push(piece)) =~= texts(parts@).push(piece@));
                assert(texts(parts@).push(piece@) + pieces(s@.skip(i + 1), sep) =~= texts(parts@)
                    + (seq![piece@] + pieces(s@.skip(i + 1), sep)));
            }
            parts.push(piece);
            start = i + 1;
        }
        i += 1;
    }
    let piece = s.substring_char(start, n).to_owned();
    proof {
        let rest = s@.skip(start as int);
        assert forall|j: int| 0 <= j < rest.len() implies rest[j] != sep by {
            assert(rest[j] == s@[j + start]);
        }
        lemma_pieces_single(rest, sep);
        assert(rest =~= s@.subrange(start as int, n as int));
        assert(texts(parts@.push(piece)) =~= texts(parts@).push(piece@));
        assert(texts(parts@).push(piece@) =~= texts(parts@) + seq![piece@]);
    }
    parts.push(piece);
    parts
}

/// Whether `c` is white space.
pub fn is_whitespace(c: char) -> (b: bool)
    ensures
        b == is_space(c),
{
    let u: u32 = c as u32;
    (0x09 <= u && u <= 0x0d) || u == 0x20 || u == 0x85 || u == 0xa0 || u == 0x1680 || (0x2000 <= u
        && u <= 0x200a) || u == 0x2028 || u == 0x2029 || u == 0x202f || u == 0x205f || u == 0x3000
}

/// The bounds of `chars` without its leading and trailing white space.
pub fn trim_bounds(chars: &[char]) -> (bounds: (usize, usize))
    ensures
        bounds.0 <= bounds.1 <= chars@.len(),
        chars@.subrange(bounds.0 as int, bounds.1 as int) == trim(chars@),
{
    let n: usize = chars.len();
    let mut a: usize = 0;
    while a < n && is_whitespace(chars[a])
        invariant
            a <= n,
            n == chars@.len(),
            forall|j: int| 0 <= j < a ==> is_space(chars@[j]),
        decreases n - a,
    {
        a += 1;
    }
    let mut b: usize = n;
    while b > a && is_whitespace(chars[b - 1])
        invariant
            a <= b <= n,
            n == chars@.len(),
            forall|j: int| b <= j < n ==> is_space(chars@[j]),
        decreases b,
    {
        b -= 1;
    }
    proof {
        let s = chars@;
        lemma_trim_start(s, a as int);
        let t = s.skip(a as int);
        assert forall|j: int| b - a <= j < t.len() implies is_space(t[j]) by {
            assert(t[j] == s[j + a]);
        }
        lemma_trim_end(t, b - a);
        assert(t.take(b - a) =~= s.subrange(a as int, b as int));
    }
    (a, b)
}

/// The position of the first `c` in `chars`, or the length when there is none.
pub fn find_char(chars: &[char], c: char) -> (i: usize)
    ensures
        i == first_index(chars@, c),
{
    let n: usize = chars.len();
    let mut i: usize = 0;
    while i < n && chars[i] != c
        invariant
            i <= n,
            n == chars@.len(),
            forall|j: int| 0 <= j < i ==> chars@[j] != c,
        decreases n - i,
    {
        i += 1;
    }
    proof {
        lemma_first_index(chars@, c, i as int);
    }
    i
}

/// Whether `chars` begins with `prefix`.
pub fn starts_with(chars: &[char], prefix: &[char]) -> (b: bool)
    ensures
        b == has_prefix(chars@, prefix@),
{
    let n: usize = prefix.len();
    if n > chars.len() {
        return false;
    }
    let mut i: usize = 0;
    while i < n
        invariant
            i <= n,
            n == prefix@.len(),
            n <= chars@.len(),
            chars@.take(i as int) == prefix@.take(i as int),
        decreases n - i,
    {
        if chars[i] != prefix[i] {
            proof {
                assert(chars@.take(n as int)[i as int] != prefix@[i as int]);
            }
            return false;
        }
        proof {
            assert(chars@.take(i + 1) =~= chars@.take(i as int).push(chars@[i as int]));
            assert(prefix@.take(i + 1) =~= prefix@.take(i as int).push(prefix@[i as int]));
        }
        i += 1;
    }
    proof {
        assert(prefix@.take(n as int) =~= prefix@);
    }
    true
}

/// Whether `needle` occurs in `chars`.
pub fn contains(chars: &[char], needle: &[char]) -> (b: bool)
    ensures
        b == occurs_in(needle@, chars@),
{
    let n: usize = chars.len();
    let mut i: usize = 0;
    loop
        invariant
            i <= n,
            n == chars@.len(),
            forall|j: int| 0 <= j < i ==> !has_prefix(chars@.skip(j), needle@),
        decreases n - i,
    {
        let rest = vstd::slice::slice_subrange(chars, i, n);
        proof {
            assert(rest@ =~= chars@.skip(i as int));
        }
        if starts_with(rest, needle) {
            return true;
        }
        if i == n {
            return false;
        }
        i += 1;
    }
}

/// `chars` with every ASCII capital replaced by its small letter.
pub fn to_ascii_lower(chars: &[char]) -> (lowered: Vec<char>)
    ensures
        lowered@ == ascii_lowered(chars@),
{
    let n: usize = chars.len();
    let mut lowered: Vec<char> = Vec::new();
    let mut i: usize = 0;
    while i < n
        invariant
            i <= n,
            n == chars@.len(),
            lowered@ == ascii_lowered(chars@).take(i as int),
        decreases n - i,
    {
        let c: char = chars[i];
        let l: char = if 'A' <= c && c <= 'Z' {
            ((c as u32 + 32) as u8) as char
        } else {
            c
        };
        lowered.push(l);
        proof {
            assert(lowered@ =~= ascii_lowered(chars@).take(i + 1));
        }
        i += 1;
    }
    proof {
        assert(ascii_lowered(chars@).take(n as int) =~= ascii_lowered(chars@));
    }
    lowered
}

/// Whether the two texts hold the same characters.
pub fn same_text(a: &[char], b: &[char]) -> (same: bool)
    ensures
        same == (a@ == b@),
{
    if a.len() != b.len() {
        return false;
    }
    let same = starts_with(a, b);
    proof {
        assert(a@.take(a@.len() as int) =~= a@);
    }
    same
}

/// Whether `s` holds exactly the characters of `literal`.
pub fn text_is(s: &str, literal: &str) -> (same: bool)
    ensures
        same == (s@ == literal@),
{
    same_text(chars_of(s).as_slice(), chars_of(literal).as_slice())
}

/// Whether `s` begins with the characters of `prefix`.
pub fn text_starts_with(s: &str, prefix: &str) -> (b: bool)
    ensures
        b == has_prefix(s@, prefix@),
{
    starts_with(chars_of(s).as_slice(), chars_of(prefix).as_slice())
}

/// Reads `s` as an unsigned decimal number of at most `max`.
pub fn text_unsigned(s: &str, max: u64) -> (value: Option<u64>)
    ensures
        value == unsigned_in(s@, max),
{
    parse_unsigned(chars_of(s).as_slice(), max)
}

/// Reads `chars` as an unsigned decimal number of at most `max`.
pub fn parse_unsigned(chars: &[char], max: u64) -> (value: Option<u64>)
    ensures
        value == unsigned_in(chars@, max),
{
    let n: usize = chars.len();
    if n == 0 {
        return None;
    }
    let mut acc: u64 = 0;
    let mut i: usize = 0;
    while i < n
        invariant
            i <= n,
            n == chars@.len(),
            all_digits(chars@.take(i as int)),
            acc == decimal_value(chars@.take(i as int)),
            acc <= max,
        decreases n - i,
    {
        let c: char = chars[i];
        proof {
            assert(chars@.take(i + 1).drop_last() =~= chars@.take(i as int));
            assert(chars@.take(i + 1).last() == c);
        }
        if !('0' <= c && c <= '9') {
            proof {
                assert(!is_digit(chars@[i as int]));
            }
            return None;
        }
        let d: u64 = (c as u32 - 0x30) as u64;
        if d > max || acc > (max - d) / 10 {
            proof {
                assert(decimal_value(chars@.take(i + 1)) > max);
                lemma_decimal_value_grows(chars@, i + 1);
            }
            return None;
        }
        acc = acc * 10 + d;
        proof {
            assert forall|j: int| 0 <= j < i + 1 implies is_digit(
                #[trigger] chars@.take(i + 1)[j],
            ) by {
                if j < i {
                    assert(chars@.take(i as int)[j] == chars@[j]);
                }
            }
        }
        i += 1;
    }
    proof {
        assert(chars@.take(n as int) =~= chars@);
    }
    Some(acc)
}

/// Ten to the power `n`.
pub open spec fn pow10(n: nat) -> nat
    decreases n,
{
    if n == 0 {
        1
    } else {
        10 * pow10((n - 1) as nat)
    }
}

/// Powers of ten are positive and do not shrink as the exponent grows.
pub proof fn lemma_pow10_grows(i: nat, j: nat)
    requires
        i <= j,
    ensures
        1 <= pow10(i) <= pow10(j),
    decreases j,
{
    if i == 0 {
        if j > 0 {
            lemma_pow10_grows(0, (j - 1) as nat);
        }
    } else {
        lemma_pow10_grows((i - 1) as nat, (j - 1) as nat);
    }
}

/// `s` without the zeros at its end.
pub open spec fn without_trailing_zeros(s: Seq<char>) -> Seq<char>
    decreases s.len(),
{
    if s.len() > 0 && s.last() == '0' {
        without_trailing_zeros(s.drop_last())
    } else {
        s
    }
}

/// Taking the zeros off the end of `s` leaves the part up to the last
/// character that is no zero.
pub proof fn lemma_without_trailing_zeros(s: Seq<char>, b: int)
    requires
        0 <= b <= s.len(),
        forall|j: int| b <= j < s.len() ==> s[j] == '0',
        b > 0 ==> s[b - 1] != '0',
    ensures
        without_trailing_zeros(s) == s.take(b),
    decreases s.len(),
{
    if s.len() > 0 && s.last() == '0' {
        let t = s.drop_last();
        lemma_without_trailing_zeros(t, b);
        assert(t.take(b) =~= s.take(b));
    } else {
        assert(b == s.len());
        assert(s.take(b) =~= s);
    }
}

/// Each zero at the end of a run of digits stands for one power of ten.
pub proof fn lemma_trailing_zeros_value(s: Seq<char>)
    ensures
        without_trailing_zeros(s).len() <= s.len(),
        decimal_value(s) == decimal_value(without_trailing_zeros(s)) * pow10(
            (s.len() - without_trailing_zeros(s).len()) as nat,
        ),
    decreases s.len(),
{
    if s.len() > 0 && s.last() == '0' {
        let t = s.drop_last();
        lemma_trailing_zeros_value(t);
        let kept = decimal_value(without_trailing_zeros(t));
        let power = pow10((t.len() - without_trailing_zeros(t).len()) as nat);
        assert(without_trailing_zeros(s) == without_trailing_zeros(t));
        assert(pow10((s.len() - without_trailing_zeros(s).len()) as nat) == 10 * power);
        assert(decimal_value(s) == decimal_value(t) * 10);
        assert((kept * power) * 10 == kept * (10 * power)) by (nonlinear_arith);
    } else {
        assert(pow10(0) == 1);
        assert(decimal_value(s) * 1 == decimal_value(s));
    }
}

/// Whether every character of `chars` is a decimal digit.
pub fn is_digits(chars: &[char]) -> (b: bool)
    ensures
        b == all_digits(chars@),
{
    let n: usize = chars.len();
    let mut i: usize = 0;
    while i < n
        invariant
            i <= n,
            n == chars@.len(),
            forall|j: int| 0 <= j < i ==> is_digit(#[trigger] chars@[j]),
        decreases n - i,
    {
        let c: char = chars[i];
        if !('0' <= c && c <= '9') {
            proof {
                assert(!is_digit(chars@[i as int]));
            }
            return false;
        }
        i += 1;
    }
    true
}

/// The characters of `a` followed by those of `b`.
pub fn concat(a: &[char], b: &[char]) -> (joined: Vec<char>)
    ensures
        joined@ == a@ + b@,
{
    let mut joined: Vec<char> = Vec::new();
    let mut i: usize = 0;
    while i < a.len()
        invariant
            i <= a@.len(),
            joined@ == a@.take(i as int),
        decreases a@.len() - i,
    {
        joined.push(a[i]);
        proof {
            assert(joined@ =~= a@.take(i + 1));
        }
        i += 1;
    }
    let mut k: usize = 0;
    proof {
        assert(joined@ =~= a@ + b@.take(0));
    }
    while k < b.len()
        invariant
            k <= b@.len(),
            joined@ == a@ + b@.take(k as int),
        decreases b@.len() - k,
    {
        joined.push(b[k]);
        proof {
            assert(joined@ =~= a@ + b@.take(k + 1));
        }
        k += 1;
    }
    proof {
        assert(b@.take(b@.len() as int) =~= b@);
    }
    joined
}

/// Where the zeros at the end of `chars` begin.
pub fn trailing_zeros_start(chars: &[char]) -> (b: usize)
    ensures
        b <= chars@.len(),
        chars@.take(b as int) == without_trailing_zeros(chars@),
{
    let n: usize = chars.len();
    let mut b: usize = n;
    while b > 0 && chars[b - 1] == '0'
        invariant
            b <= n,
            n == chars@.len(),
            forall|j: int| b <= j < n ==> chars@[j] == '0',
        decreases b,
    {
        b -= 1;
    }
    proof {
        lemma_without_trailing_zeros(chars@, b as int);
    }
    b
}

/// The character that writes the digit `d`.
pub open spec fn digit_char(d: nat) -> char {
    ((d + 0x30) as u8) as char
}

/// The decimal digits that write `n`, without leading zeros; zero is `0`.
pub open spec fn digits_of(n: nat) -> Seq<char>
    decreases n,
{
    if n < 10 {
        seq![digit_char(n)]
    } else {
        digits_of(n / 10).push(digit_char(n % 10))
    }
}

/// `n` zeros.
pub open spec fn zeros(n: nat) -> Seq<char> {
    Seq::new(n, |i: int| '0')
}

/// The digits of a number are digits, write the number, and begin with no
/// zero unless the number is zero.
pub proof fn lemma_digits_of(n: nat)
    ensures
        digits_of(n).len() >= 1,
        all_digits(digits_of(n)),
        decimal_value(digits_of(n)) == n,
        n > 0 ==> digits_of(n)[0] != '0',
        n < 10 ==> digits_of(n).len() == 1,
    decreases n,
{
    let s = digits_of(n);
    if n < 10 {
        assert(s.drop_last().len() == 0);
        assert(s.last() == digit_char(n));
        assert(decimal_value(s.drop_last()) == 0);
    } else {
        let t = digits_of(n / 10);
        lemma_digits_of(n / 10);
        assert(s.drop_last() =~= t);
        assert(s.last() == digit_char(n % 10));
        assert forall|i: int| 0 <= i < s.len() implies is_digit(#[trigger] s[i]) by {
            if i < t.len() {
                assert(s[i] == t[i]);
            }
        }
        assert(s[0] == t[0]);
    }
}

/// The digits of a number read back as that number, within any bound that
/// the number keeps.
pub proof fn lemma_number_reads_back(n: u64, max: u64)
    requires
        n <= max,
    ensures
        unsigned_in(digits_of(n as nat), max) == Some(n),
{
    lemma_digits_of(n as nat);
}

/// Zeros in front of a run of digits do not change what it writes.
pub proof fn lemma_leading_zeros(n: nat, s: Seq<char>)
    ensures
        decimal_value(zeros(n) + s) == decimal_value(s),
        all_digits(s) ==> all_digits(zeros(n) + s),
    decreases s.len(), n,
{
    let all = zeros(n) + s;
    if s.len() > 0 {
        lemma_leading_zeros(n, s.drop_last());
        assert(all.drop_last() =~= zeros(n) + s.drop_last());
        assert(all.last() == s.last());
    } else if n > 0 {
        lemma_leading_zeros((n - 1) as nat, s);
        assert(all.drop_last() =~= zeros((n - 1) as nat) + s);
        assert(all.last() == '0');
    } else {
        assert(all =~= s);
    }
    if all_digits(s) {
        assert forall|i: int| 0 <= i < all.len() implies is_digit(#[trigger] all[i]) by {
            if i >= n {
                assert(all[i] == s[i - n]);
            }
        }
    }
}

/// A text followed by a separator and more text falls into the text itself,
/// where it holds no separator, and the pieces of what follows.
pub proof fn lemma_pieces_first(head: Seq<char>, sep: char, rest: Seq<char>)
    requires
        forall|j: int| 0 <= j < head.len() ==> head[j] != sep,
    ensures
        pieces(head + seq![sep] + rest, sep) == seq![head] + pieces(rest, sep),
{
    let s = head + seq![sep] + rest;
    assert forall|j: int| 0 <= j < head.len() implies s[j] != sep by {
        assert(s[j] == head[j]);
    }
    assert(s[head.len() as int] == sep);
    lemma_first_index(s, sep, head.len() as int);
    assert(s.take(head.len() as int) =~= head);
    assert(s.skip(head.len() as int + 1) =~= rest);
}

/// Four texts without a separator, joined by separators, fall into those
/// four.
pub proof fn lemma_four_pieces(
    a: Seq<char>,
    b: Seq<char>,
    c: Seq<char>,
    d: Seq<char>,
    sep: char,
)
    requires
        forall|j: int| 0 <= j < a.len() ==> a[j] != sep,
        forall|j: int| 0 <= j < b.len() ==> b[j] != sep,
        forall|j: int| 0 <= j < c.len() ==> c[j] != sep,
        forall|j: int| 0 <= j < d.len() ==> d[j] != sep,
    ensures
        pieces(a + seq![sep] + b + seq![sep] + c + seq![sep] + d, sep) == seq![a, b, c, d],
{
    let from_c = c + seq![sep] + d;
    let from_b = b + seq![sep] + from_c;
    let from_a = a + seq![sep] + from_b;
    lemma_pieces_single(d, sep);
    lemma_pieces_first(c, sep, d);
    lemma_pieces_first(b, sep, from_c);
    lemma_pieces_first(a, sep, from_b);
    assert(from_a =~= a + seq![sep] + b + seq![sep] + c + seq![sep] + d);
    assert(seq![a] + (seq![b] + (seq![c] + seq![d])) =~= seq![a, b, c, d]);
}

/// The text of one decimal digit.
fn digit_text(d: u8) -> (t: &'static str)
    requires
        d < 10,
    ensures
        t@ == seq![digit_char(d as nat)],
{
    proof {
        reveal_strlit("0");
        reveal_strlit("1");
        reveal_strlit("2");
        reveal_strlit("3");
        reveal_strlit("4");
        reveal_strlit("5");
        reveal_strlit("6");
        reveal_strlit("7");
        reveal_strlit("8");
        reveal_strlit("9");
    }
    let t = match d {
        0 => "0",
        1 => "1",
        2 => "2",
        3 => "3",
        4 => "4",
        5 => "5",
        6 => "6",
        7 => "7",
        8 => "8",
        _ => "9",
    };
    proof {
        assert(t@ =~= seq![digit_char(d as nat)]);
    }
    t
}

/// Appends the decimal digits of `n` to `out`.
pub fn append_unsigned(out: &mut String, n: u64)
    ensures
        final(out)@ == old(out)@ + digits_of(n as nat),
    decreases n,
{
    if n >= 10 {
        append_unsigned(out, n / 10);
    }
    out.append(digit_text((n % 10) as u8));
    proof {
        if n >= 10 {
            assert(old(out)@ + digits_of(n as nat / 10) + seq![digit_char(n as nat % 10)] =~= old(
                out,
            )@ + digits_of(n as nat));
        }
    }
}

/// A run of digits writes at least what any of its beginnings writes.
pub proof fn lemma_decimal_value_grows(s: Seq<char>, k: int)
    requires
        0 <= k <= s.len(),
    ensures
        all_digits(s) ==> decimal_value(s.take(k)) <= decimal_value(s),
    decreases s.len() - k,
{
    if k == s.len() {
        assert(s.take(k) =~= s);
    } else if all_digits(s) {
        lemma_decimal_value_grows(s, k + 1);
        assert(s.take(k + 1).drop_last() =~= s.take(k));
        assert(is_digit(s[k]));
        assert(s.take(k + 1).last() == s[k]);
    }
}

} // verus!
