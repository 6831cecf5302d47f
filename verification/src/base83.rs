//! The base-83 text codec.
//!
//! A hash string is written over a fixed 83-character alphabet: the digits,
//! the upper-case letters, the lower-case letters and a fixed run of
//! punctuation, in that order.  The alphabet order is load-bearing: it is
//! what makes the strings interchangeable with other producers and
//! consumers of the format.
use vstd::prelude::*;
use vstd::arithmetic::div_mod::lemma_div_denominator;

verus! {

/// An error of the base-83 codec itself: a character outside the alphabet.
#[derive(Clone, Copy, Debug, PartialEq, Eq, Structural)]
pub enum Base83Error {
    InvalidSymbol,
}

pub open spec fn spec_char83(d: int) -> char {
    if d == 0 { '0'
    } else if d == 1 { '1'
    } else if d == 2 { '2'
    } else if d == 3 { '3'
    } else if d == 4 { '4'
    } else if d == 5 { '5'
    } else if d == 6 { '6'
    } else if d == 7 { '7'
    } else if d == 8 { '8'
    } else if d == 9 { '9'
    } else if d == 10 { 'A'
    } else if d == 11 { 'B'
    } else if d == 12 { 'C'
    } else if d == 13 { 'D'
    } else if d == 14 { 'E'
    } else if d == 15 { 'F'
    } else if d == 16 { 'G'
    } else if d == 17 { 'H'
    } else if d == 18 { 'I'
    } else if d == 19 { 'J'
    } else if d == 20 { 'K'
    } else if d == 21 { 'L'
    } else if d == 22 { 'M'
    } else if d == 23 { 'N'
    } else if d == 24 { 'O'
    } else if d == 25 { 'P'
    } else if d == 26 { 'Q'
    } else if d == 27 { 'R'
    } else if d == 28 { 'S'
    } else if d == 29 { 'T'
    } else if d == 30 { 'U'
    } else if d == 31 { 'V'
    } else if d == 32 { 'W'
    } else if d == 33 { 'X'
    } else if d == 34 { 'Y'
    } else if d == 35 { 'Z'
    } else if d == 36 { 'a'
    } else if d == 37 { 'b'
    } else if d == 38 { 'c'
    } else if d == 39 { 'd'
    } else if d == 40 { 'e'
    } else if d == 41 { 'f'
    } else if d == 42 { 'g'
    } else if d == 43 { 'h'
    } else if d == 44 { 'i'
    } else if d == 45 { 'j'
    } else if d == 46 { 'k'
    } else if d == 47 { 'l'
    } else if d == 48 { 'm'
    } else if d == 49 { 'n'
    } else if d == 50 { 'o'
    } else if d == 51 { 'p'
    } else if d == 52 { 'q'
    } else if d == 53 { 'r'
    } else if d == 54 { 's'
    } else if d == 55 { 't'
    } else if d == 56 { 'u'
    } else if d == 57 { 'v'
    } else if d == 58 { 'w'
    } else if d == 59 { 'x'
    } else if d == 60 { 'y'
    } else if d == 61 { 'z'
    } else if d == 62 { '#'
    } else if d == 63 { '$'
    } else if d == 64 { '%'
    } else if d == 65 { '*'
    } else if d == 66 { '+'
    } else if d == 67 { ','
    } else if d == 68 { '-'
    } else if d == 69 { '.'
    } else if d == 70 { ':'
    } else if d == 71 { ';'
    } else if d == 72 { '='
    } else if d == 73 { '?'
    } else if d == 74 { '@'
    } else if d == 75 { '['
    } else if d == 76 { ']'
    } else if d == 77 { '^'
    } else if d == 78 { '_'
    } else if d == 79 { '{'
    } else if d == 80 { '|'
    } else if d == 81 { '}'
    } else { '~'
    }
}

pub open spec fn spec_index83(c: char) -> int {
    if c == '0' { 0
    } else if c == '1' { 1
    } else if c == '2' { 2
    } else if c == '3' { 3
    } else if c == '4' { 4
    } else if c == '5' { 5
    } else if c == '6' { 6
    } else if c == '7' { 7
    } else if c == '8' { 8
    } else if c == '9' { 9
    } else if c == 'A' { 10
    } else if c == 'B' { 11
    } else if c == 'C' { 12
    } else if c == 'D' { 13
    } else if c == 'E' { 14
    } else if c == 'F' { 15
    } else if c == 'G' { 16
    } else if c == 'H' { 17
    } else if c == 'I' { 18
    } else if c == 'J' { 19
    } else if c == 'K' { 20
    } else if c == 'L' { 21
    } else if c == 'M' { 22
    } else if c == 'N' { 23
    } else if c == 'O' { 24
    } else if c == 'P' { 25
    } else if c == 'Q' { 26
    } else if c == 'R' { 27
    } else if c == 'S' { 28
    } else if c == 'T' { 29
    } else if c == 'U' { 30
    } else if c == 'V' { 31
    } else if c == 'W' { 32
    } else if c == 'X' { 33
    } else if c == 'Y' { 34
    } else if c == 'Z' { 35
    } else if c == 'a' { 36
    } else if c == 'b' { 37
    } else if c == 'c' { 38
    } else if c == 'd' { 39
    } else if c == 'e' { 40
    } else if c == 'f' { 41
    } else if c == 'g' { 42
    } else if c == 'h' { 43
    } else if c == 'i' { 44
    } else if c == 'j' { 45
    } else if c == 'k' { 46
    } else if c == 'l' { 47
    } else if c == 'm' { 48
    } else if c == 'n' { 49
    } else if c == 'o' { 50
    } else if c == 'p' { 51
    } else if c == 'q' { 52
    } else if c == 'r' { 53
    } else if c == 's' { 54
    } else if c == 't' { 55
    } else if c == 'u' { 56
    } else if c == 'v' { 57
    } else if c == 'w' { 58
    } else if c == 'x' { 59
    } else if c == 'y' { 60
    } else if c == 'z' { 61
    } else if c == '#' { 62
    } else if c == '$' { 63
    } else if c == '%' { 64
    } else if c == '*' { 65
    } else if c == '+' { 66
    } else if c == ',' { 67
    } else if c == '-' { 68
    } else if c == '.' { 69
    } else if c == ':' { 70
    } else if c == ';' { 71
    } else if c == '=' { 72
    } else if c == '?' { 73
    } else if c == '@' { 74
    } else if c == '[' { 75
    } else if c == ']' { 76
    } else if c == '^' { 77
    } else if c == '_' { 78
    } else if c == '{' { 79
    } else if c == '|' { 80
    } else if c == '}' { 81
    } else if c == '~' { 82
    } else { -1
    }
}

/// The alphabet character for a single base-83 digit.
pub fn base83_char(d: u8) -> (c: char)
    requires
        d < 83,
    ensures
        c == spec_char83(d as int),
{
    if d == 0 { '0'
    } else if d == 1 { '1'
    } else if d == 2 { '2'
    } else if d == 3 { '3'
    } else if d == 4 { '4'
    } else if d == 5 { '5'
    } else if d == 6 { '6'
    } else if d == 7 { '7'
    } else if d == 8 { '8'
    } else if d == 9 { '9'
    } else if d == 10 { 'A'
    } else if d == 11 { 'B'
    } else if d == 12 { 'C'
    } else if d == 13 { 'D'
    } else if d == 14 { 'E'
    } else if d == 15 { 'F'
    } else if d == 16 { 'G'
    } else if d == 17 { 'H'
    } else if d == 18 { 'I'
    } else if d == 19 { 'J'
    } else if d == 20 { 'K'
    } else if d == 21 { 'L'
    } else if d == 22 { 'M'
    } else if d == 23 { 'N'
    } else if d == 24 { 'O'
    } else if d == 25 { 'P'
    } else if d == 26 { 'Q'
    } else if d == 27 { 'R'
    } else if d == 28 { 'S'
    } else if d == 29 { 'T'
    } else if d == 30 { 'U'
    } else if d == 31 { 'V'
    } else if d == 32 { 'W'
    } else if d == 33 { 'X'
    } else if d == 34 { 'Y'
    } else if d == 35 { 'Z'
    } else if d == 36 { 'a'
    } else if d == 37 { 'b'
    } else if d == 38 { 'c'
    } else if d == 39 { 'd'
    } else if d == 40 { 'e'
    } else if d == 41 { 'f'
    } else if d == 42 { 'g'
    } else if d == 43 { 'h'
    } else if d == 44 { 'i'
    } else if d == 45 { 'j'
    } else if d == 46 { 'k'
    } else if d == 47 { 'l'
    } else if d == 48 { 'm'
    } else if d == 49 { 'n'
    } else if d == 50 { 'o'
    } else if d == 51 { 'p'
    } else if d == 52 { 'q'
    } else if d == 53 { 'r'
    } else if d == 54 { 's'
    } else if d == 55 { 't'
    } else if d == 56 { 'u'
    } else if d == 57 { 'v'
    } else if d == 58 { 'w'
    } else if d == 59 { 'x'
    } else if d == 60 { 'y'
    } else if d == 61 { 'z'
    } else if d == 62 { '#'
    } else if d == 63 { '$'
    } else if d == 64 { '%'
    } else if d == 65 { '*'
    } else if d == 66 { '+'
    } else if d == 67 { ','
    } else if d == 68 { '-'
    } else if d == 69 { '.'
    } else if d == 70 { ':'
    } else if d == 71 { ';'
    } else if d == 72 { '='
    } else if d == 73 { '?'
    } else if d == 74 { '@'
    } else if d == 75 { '['
    } else if d == 76 { ']'
    } else if d == 77 { '^'
    } else if d == 78 { '_'
    } else if d == 79 { '{'
    } else if d == 80 { '|'
    } else if d == 81 { '}'
    } else { '~'
    }
}

/// The digit a character stands for, or `None` for a character outside
/// the alphabet.
pub fn base83_index(c: char) -> (r: Option<u8>)
    ensures
        match r {
            Option::Some(i) => i < 83 && spec_index83(c) == i as int,
            Option::None => spec_index83(c) == -1,
        },
{
    if c == '0' { Option::Some(0)
    } else if c == '1' { Option::Some(1)
    } else if c == '2' { Option::Some(2)
    } else if c == '3' { Option::Some(3)
    } else if c == '4' { Option::Some(4)
    } else if c == '5' { Option::Some(5)
    } else if c == '6' { Option::Some(6)
    } else if c == '7' { Option::Some(7)
    } else if c == '8' { Option::Some(8)
    } else if c == '9' { Option::Some(9)
    } else if c == 'A' { Option::Some(10)
    } else if c == 'B' { Option::Some(11)
    } else if c == 'C' { Option::Some(12)
    } else if c == 'D' { Option::Some(13)
    } else if c == 'E' { Option::Some(14)
    } else if c == 'F' { Option::Some(15)
    } else if c == 'G' { Option::Some(16)
    } else if c == 'H' { Option::Some(17)
    } else if c == 'I' { Option::Some(18)
    } else if c == 'J' { Option::Some(19)
    } else if c == 'K' { Option::Some(20)
    } else if c == 'L' { Option::Some(21)
    } else if c == 'M' { Option::Some(22)
    } else if c == 'N' { Option::Some(23)
    } else if c == 'O' { Option::Some(24)
    } else if c == 'P' { Option::Some(25)
    } else if c == 'Q' { Option::Some(26)
    } else if c == 'R' { Option::Some(27)
    } else if c == 'S' { Option::Some(28)
    } else if c == 'T' { Option::Some(29)
    } else if c == 'U' { Option::Some(30)
    } else if c == 'V' { Option::Some(31)
    } else if c == 'W' { Option::Some(32)
    } else if c == 'X' { Option::Some(33)
    } else if c == 'Y' { Option::Some(34)
    } else if c == 'Z' { Option::Some(35)
    } else if c == 'a' { Option::Some(36)
    } else if c == 'b' { Option::Some(37)
    } else if c == 'c' { Option::Some(38)
    } else if c == 'd' { Option::Some(39)
    } else if c == 'e' { Option::Some(40)
    } else if c == 'f' { Option::Some(41)
    } else if c == 'g' { Option::Some(42)
    } else if c == 'h' { Option::Some(43)
    } else if c == 'i' { Option::Some(44)
    } else if c == 'j' { Option::Some(45)
    } else if c == 'k' { Option::Some(46)
    } else if c == 'l' { Option::Some(47)
    } else if c == 'm' { Option::Some(48)
    } else if c == 'n' { Option::Some(49)
    } else if c == 'o' { Option::Some(50)
    } else if c == 'p' { Option::Some(51)
    } else if c == 'q' { Option::Some(52)
    } else if c == 'r' { Option::Some(53)
    } else if c == 's' { Option::Some(54)
    } else if c == 't' { Option::Some(55)
    } else if c == 'u' { Option::Some(56)
    } else if c == 'v' { Option::Some(57)
    } else if c == 'w' { Option::Some(58)
    } else if c == 'x' { Option::Some(59)
    } else if c == 'y' { Option::Some(60)
    } else if c == 'z' { Option::Some(61)
    } else if c == '#' { Option::Some(62)
    } else if c == '$' { Option::Some(63)
    } else if c == '%' { Option::Some(64)
    } else if c == '*' { Option::Some(65)
    } else if c == '+' { Option::Some(66)
    } else if c == ',' { Option::Some(67)
    } else if c == '-' { Option::Some(68)
    } else if c == '.' { Option::Some(69)
    } else if c == ':' { Option::Some(70)
    } else if c == ';' { Option::Some(71)
    } else if c == '=' { Option::Some(72)
    } else if c == '?' { Option::Some(73)
    } else if c == '@' { Option::Some(74)
    } else if c == '[' { Option::Some(75)
    } else if c == ']' { Option::Some(76)
    } else if c == '^' { Option::Some(77)
    } else if c == '_' { Option::Some(78)
    } else if c == '{' { Option::Some(79)
    } else if c == '|' { Option::Some(80)
    } else if c == '}' { Option::Some(81)
    } else if c == '~' { Option::Some(82)
    } else { Option::None
    }
}

/// Whether a character belongs to the 83-character alphabet.
pub open spec fn is_base83_char(c: char) -> bool {
    spec_index83(c) >= 0
}

/// 83 raised to the power `k`.
pub open spec fn pow83(k: nat) -> nat
    decreases k,
{
    if k == 0 {
        1
    } else {
        83 * pow83((k - 1) as nat)
    }
}

/// The base-83 digit of `n` at position `pos`, counting from the least
/// significant digit.
pub open spec fn digit83(n: nat, pos: nat) -> int {
    ((n / pow83(pos)) % 83) as int
}

/// The fixed-length base-83 encoding of `n`: most significant digit first.
pub open spec fn spec_encode83(n: nat, len: nat) -> Seq<char> {
    Seq::new(len, |i: int| spec_char83(digit83(n, (len - 1 - i) as nat)))
}

/// The value a character sequence denotes in base 83, folding from the
/// left; characters outside the alphabet count as -1 digits, so the value
/// is only meaningful when every character is in the alphabet.
pub open spec fn spec_decode83(s: Seq<char>) -> int
    decreases s.len(),
{
    if s.len() == 0 {
        0
    } else {
        spec_decode83(s.drop_last()) * 83 + spec_index83(s.last())
    }
}

/// Every character maps to a digit below 83, or to -1.
pub proof fn lemma_index83_range(c: char)
    ensures
        -1 <= spec_index83(c) < 83,
{
}

/// The alphabet character of a digit maps back to the digit.
pub proof fn lemma_char83_index83(d: int)
    requires
        0 <= d < 83,
    ensures
        spec_index83(spec_char83(d)) == d,
{
}

/// Powers of 83 are positive.
pub proof fn lemma_pow83_pos(k: nat)
    ensures
        pow83(k) >= 1,
    decreases k,
{
    if k > 0 {
        lemma_pow83_pos((k - 1) as nat);
    }
}

/// Powers of 83 do not decrease.
pub proof fn lemma_pow83_monotonic(a: nat, b: nat)
    requires
        a <= b,
    ensures
        pow83(a) <= pow83(b),
    decreases b,
{
    if a < b {
        lemma_pow83_monotonic(a, (b - 1) as nat);
    }
}

/// A sequence of alphabet characters denotes a value in `[0, 83^len)`.
pub proof fn lemma_decode83_bound(s: Seq<char>)
    requires
        forall|i: int| 0 <= i < s.len() ==> is_base83_char(#[trigger] s[i]),
    ensures
        0 <= spec_decode83(s) < pow83(s.len()),
    decreases s.len(),
{
    if s.len() > 0 {
        lemma_decode83_bound(s.drop_last());
        lemma_index83_range(s.last());
    }
}

/// Every character of an encoding is in the alphabet.
pub proof fn lemma_encode83_chars_valid(n: nat, len: nat)
    ensures
        forall|i: int| 0 <= i < len ==> is_base83_char(#[trigger] spec_encode83(n, len)[i]),
{
    assert forall|i: int| 0 <= i < len implies is_base83_char(#[trigger] spec_encode83(n, len)[i]) by {
        let pos = (len - 1 - i) as nat;
        assert(0 <= digit83(n, pos) < 83);
        lemma_char83_index83(digit83(n, pos));
    }
}

/// A value below 83 encodes as its single alphabet character.
pub proof fn lemma_encode83_single(n: nat)
    requires
        n < 83,
    ensures
        spec_encode83(n, 1).len() == 1,
        spec_encode83(n, 1)[0] == spec_char83(n as int),
        spec_index83(spec_encode83(n, 1)[0]) == n,
{
    vstd::arithmetic::div_mod::lemma_div_basics(n as int);
    vstd::arithmetic::div_mod::lemma_small_mod(n, 83);
    assert(digit83(n, 0) == n);
    lemma_char83_index83(n as int);
}

/// Round trip: decoding the fixed-length encoding of any `n < 83^len`
/// returns `n`.
pub proof fn lemma_base83_round_trip(n: nat, len: nat)
    requires
        n < pow83(len),
    ensures
        spec_decode83(spec_encode83(n, len)) == n,
    decreases len,
{
    if len == 0 {
        assert(spec_encode83(n, len) =~= Seq::<char>::empty());
    } else {
        let e = spec_encode83(n, len);
        let m = n / 83;
        assert forall|i: int| 0 <= i < len - 1 implies e.drop_last()[i] == spec_encode83(
            m,
            (len - 1) as nat,
        )[i] by {
            let pos = (len - 2 - i) as nat;
            lemma_pow83_pos(pos);
            lemma_div_denominator(n as int, 83, pow83(pos) as int);
            assert(83 * pow83(pos) == pow83((pos + 1) as nat));
            assert(digit83(m, pos) == digit83(n, (pos + 1) as nat));
        }
        assert(e.drop_last() =~= spec_encode83(m, (len - 1) as nat));
        assert(pow83(len) == 83 * pow83((len - 1) as nat));
        assert(m < pow83((len - 1) as nat)) by {
            if m >= pow83((len - 1) as nat) {
                assert(n >= 83 * (n / 83)) by {
                    assert(n == 83 * (n / 83) + n % 83);
                }
                assert(83 * m >= 83 * pow83((len - 1) as nat)) by (nonlinear_arith)
                    requires m >= pow83((len - 1) as nat);
            }
        }
        lemma_base83_round_trip(m, (len - 1) as nat);
        assert(e.last() == spec_char83(digit83(n, 0)));
        assert(pow83(0) == 1);
        assert(n / pow83(0) == n);
        assert(digit83(n, 0) == n % 83);
        lemma_char83_index83((n % 83) as int);
        assert(spec_decode83(e) == (n / 83) * 83 + n % 83);
        assert((n / 83) * 83 + n % 83 == n) by {
            assert(n == 83 * (n / 83) + n % 83);
        }
    }
}

/// Relies on `String::push`: appends the given character to the end of
/// the string.
#[verifier::external_body]
fn push_char(s: &mut String, c: char)
    ensures
        final(s)@ == old(s)@.push(c),
{
    s.push(c)
}

/// Writes `n` in base 83 as exactly `length` characters, most significant
/// digit first, over the fixed alphabet.
pub fn encode_base83(n: u32, length: u32) -> (r: String)
    ensures
        r@ == spec_encode83(n as nat, length as nat),
{
    let mut digits: Vec<u8> = Vec::new();
    let mut m: u32 = n;
    let mut k: u32 = 0;
    proof {
        vstd::arithmetic::div_mod::lemma_div_basics(n as int);
    }
    while k < length
        invariant
            k <= length,
            digits@.len() == k as nat,
            m as nat == (n as nat) / pow83(k as nat),
            forall|j: int| 0 <= j < k ==> digits@[j] == digit83(n as nat, j as nat),
        decreases length - k,
    {
        let d: u8 = (m % 83) as u8;
        proof {
            assert(digit83(n as nat, k as nat) == (m as nat) % 83);
            lemma_pow83_pos(k as nat);
            lemma_div_denominator(n as int, pow83(k as nat) as int, 83);
            assert(pow83(k as nat) * 83 == pow83((k + 1) as nat));
        }
        digits.push(d);
        m = m / 83;
        k = k + 1;
    }
    let mut r = String::new();
    let mut i: u32 = 0;
    while i < length
        invariant
            i <= length,
            digits@.len() == length as nat,
            forall|j: int| 0 <= j < length ==> digits@[j] == digit83(n as nat, j as nat),
            r@.len() == i as nat,
            forall|t: int|
                0 <= t < i ==> r@[t] == spec_char83(digit83(n as nat, (length - 1 - t) as nat)),
        decreases length - i,
    {
        let idx = (length - 1 - i) as usize;
        let c = base83_char(digits[idx]);
        push_char(&mut r, c);
        i = i + 1;
    }
    proof {
        assert(r@ =~= spec_encode83(n as nat, length as nat));
    }
    r
}

/// Reads a string of alphabet characters as a base-83 value, folding from
/// the left.  At most five characters fit the result type.
pub fn decode_base83_str(s: &str) -> (v: u32)
    requires
        s@.len() <= 5,
        forall|i: int| 0 <= i < s@.len() ==> is_base83_char(#[trigger] s@[i]),
    ensures
        v == spec_decode83(s@),
{
    let len = s.unicode_len();
    let mut v: u32 = 0;
    let mut i: usize = 0;
    while i < len
        invariant
            len == s@.len() <= 5,
            i <= len,
            forall|j: int| 0 <= j < s@.len() ==> is_base83_char(#[trigger] s@[j]),
            v == spec_decode83(s@.subrange(0, i as int)),
            v < pow83(i as nat),
        decreases len - i,
    {
        let c = s.get_char(i);
        let d: u8 = match base83_index(c) {
            Option::Some(d) => d,
            Option::None => {
                proof {
                    assert(is_base83_char(s@[i as int]));
                }
                vstd::pervasive::unreached()
            },
        };
        proof {
            let prefix = s@.subrange(0, (i + 1) as int);
            assert(prefix.drop_last() =~= s@.subrange(0, i as int));
            assert(prefix.last() == s@[i as int]);
            assert((v * 83 + d) as int == spec_decode83(prefix));
            assert(v * 83 + d < pow83((i + 1) as nat)) by {
                assert(pow83((i + 1) as nat) == 83 * pow83(i as nat));
                assert(v * 83 + d < 83 * pow83(i as nat)) by (nonlinear_arith)
                    requires
                        v < pow83(i as nat),
                        d < 83,
                ;
            }
            lemma_pow83_monotonic((i + 1) as nat, 5);
            assert(pow83(5) == 3939040643) by {
                reveal_with_fuel(pow83, 6);
            }
        }
        v = v * 83 + (d as u32);
        i = i + 1;
    }
    proof {
        assert(s@.subrange(0, len as int) =~= s@);
    }
    v
}

/// Reads a whole string as a base-83 value; the characters must all lie
/// in the alphabet.  At most five characters fit the result type.
pub fn decode_base83(hash: &String) -> (v: u32)
    requires
        hash@.len() <= 5,
        forall|i: int| 0 <= i < hash@.len() ==> is_base83_char(#[trigger] hash@[i]),
    ensures
        v == spec_decode83(hash@),
{
    decode_base83_str(hash.as_str())
}

/// Reads a string as a base-83 value, rejecting any character outside the
/// alphabet with `InvalidSymbol`.  At most five characters fit the result
/// type.
pub fn try_decode_base83(s: &str) -> (r: Result<u32, Base83Error>)
    requires
        s@.len() <= 5,
    ensures
        match r {
            Result::Ok(v) => {
                &&& forall|i: int| 0 <= i < s@.len() ==> is_base83_char(#[trigger] s@[i])
                &&& v == spec_decode83(s@)
            },
            Result::Err(e) => {
                &&& e == Base83Error::InvalidSymbol
                &&& exists|i: int| 0 <= i < s@.len() && !is_base83_char(#[trigger] s@[i])
            },
        },
{
    let len = s.unicode_len();
    let mut i: usize = 0;
    while i < len
        invariant
            len == s@.len(),
            i <= len,
            forall|j: int| 0 <= j < i ==> is_base83_char(#[trigger] s@[j]),
        decreases len - i,
    {
        let c = s.get_char(i);
        if base83_index(c).is_none() {
            return Result::Err(Base83Error::InvalidSymbol);
        }
        i = i + 1;
    }
    Result::Ok(decode_base83_str(s))
}

} // verus!
