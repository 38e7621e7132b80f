//! Encodings of integers used in storage keys and files: big-endian bytes and decimal text.

use vstd::prelude::*;
use vstd::string::StringExecFns;

verus! {

//////////////////////////////////////////////////////////////////////////////////////////////////
// Big-endian bytes //////////////////////////////////////////////////////////////////////////////

/// The number that a big-endian byte string denotes.
pub open spec fn be_value(s: Seq<u8>) -> nat
    decreases s.len(),
{
    if s.len() == 0 {
        0
    } else {
        be_value(s.drop_last()) * 256nat + (s.last() as nat)
    }
}

/// 256 to the power `n`.
pub open spec fn pow256(n: nat) -> nat
    decreases n,
{
    if n == 0 {
        1
    } else {
        256 * pow256((n - 1) as nat)
    }
}

/// A big-endian byte string of length `n` denotes a number below `256^n`.
pub proof fn lemma_be_value_bound(s: Seq<u8>)
    ensures
        be_value(s) < pow256(s.len()),
    decreases s.len(),
{
    if s.len() > 0 {
        lemma_be_value_bound(s.drop_last());
    }
}

proof fn lemma_pow256_values()
    ensures
        pow256(7) == 0x100_0000_0000_0000,
        pow256(8) == 0x1_0000_0000_0000_0000,
{
    reveal_with_fuel(pow256, 9);
}

/// The `n` lowest big-endian bytes of a number.
pub open spec fn be_bytes_n(x: nat, n: nat) -> Seq<u8>
    decreases n,
{
    if n == 0 {
        Seq::empty()
    } else {
        be_bytes_n(x / 256, (n - 1) as nat).push((x % 256) as u8)
    }
}

/// The 8 big-endian bytes of a 64-bit number.
pub open spec fn be_bytes(x: u64) -> Seq<u8> {
    be_bytes_n(x as nat, 8)
}

/// A number below `256^n` is denoted by its `n` big-endian bytes.
pub proof fn lemma_be_bytes_n_value(x: nat, n: nat)
    requires
        x < pow256(n),
    ensures
        be_bytes_n(x, n).len() == n,
        be_value(be_bytes_n(x, n)) == x,
    decreases n,
{
    if n > 0 {
        let q = x / 256;
        assert(q < pow256((n - 1) as nat) && x == q * 256 + x % 256) by (nonlinear_arith)
            requires
                x < 256 * pow256((n - 1) as nat),
                q == x / 256,
        {
        }
        lemma_be_bytes_n_value(q, (n - 1) as nat);
        assert(be_bytes_n(x, n).drop_last() =~= be_bytes_n(q, (n - 1) as nat));
    }
}

/// The big-endian bytes of a number denote that number.
pub proof fn lemma_be_bytes_value(x: u64)
    ensures
        be_bytes(x).len() == 8,
        be_value(be_bytes(x)) == x,
{
    lemma_pow256_values();
    lemma_be_bytes_n_value(x as nat, 8);
}

fn encode_be_n(x: u64, n: usize) -> (v: Vec<u8>)
    requires
        n <= 8,
    ensures
        v@ == be_bytes_n(x as nat, n as nat),
    decreases n,
{
    if n == 0 {
        Vec::new()
    } else {
        let mut v = encode_be_n(x / 256, n - 1);
        v.push((x % 256) as u8);
        v
    }
}

/// Encode a number as its 8 big-endian bytes, so that byte-wise order is numeric order.
pub fn encode_u64(x: u64) -> (v: Vec<u8>)
    ensures
        v@ == be_bytes(x),
        v.len() == 8,
        be_value(v@) == x,
{
    proof {
        lemma_be_bytes_value(x);
    }
    encode_be_n(x, 8)
}

/// Cast the first 8 bytes of a buffer, read as big-endian, to a u64.
pub fn u64_from_be_bytes(buf: &[u8]) -> (x: u64)
    requires
        buf.len() >= 8,
    ensures
        x == be_value(buf@.take(8)),
{
    let mut acc: u64 = 0;
    let mut i: usize = 0;
    while i < 8
        invariant
            i <= 8,
            buf.len() >= 8,
            acc == be_value(buf@.take(i as int)),
        decreases 8 - i,
    {
        proof {
            lemma_be_value_bound(buf@.take(i as int));
            lemma_pow256_values();
            assert(buf@.take(i as int + 1).drop_last() =~= buf@.take(i as int));
            lemma_pow256_monotone(i as nat, 7);
        }
        acc = acc * 256 + buf[i] as u64;
        i = i + 1;
    }
    acc
}

/// Cast the first 8 bytes of a buffer, read as big-endian, to a u64, for a buffer known to hold one.
pub fn unchecked_u64_from_be_bytes(buf: &[u8]) -> (x: u64)
    requires
        buf.len() >= 8,
    ensures
        x == be_value(buf@.take(8)),
{
    u64_from_be_bytes(buf)
}

proof fn lemma_pow256_monotone(a: nat, b: nat)
    requires
        a <= b,
    ensures
        pow256(a) <= pow256(b),
    decreases b,
{
    if a < b {
        lemma_pow256_monotone(a, (b - 1) as nat);
    }
}

/// Decoding the encoding of a number gives back that number.
pub proof fn lemma_encode_decode_round_trip(x: u64)
    ensures
        be_value(be_bytes(x).take(8)) == x,
{
    lemma_be_bytes_value(x);
    assert(be_bytes(x).take(8) =~= be_bytes(x));
}

/// Two byte strings of equal length denote the same number only if they are equal.
pub proof fn lemma_be_value_injective(a: Seq<u8>, b: Seq<u8>)
    requires
        a.len() == b.len(),
        be_value(a) == be_value(b),
    ensures
        a == b,
    decreases a.len(),
{
    if a.len() > 0 {
        assert(a.last() == b.last() && be_value(a.drop_last()) == be_value(b.drop_last())) by (nonlinear_arith)
            requires
                be_value(a) == be_value(a.drop_last()) * 256 + a.last(),
                be_value(b) == be_value(b.drop_last()) * 256 + b.last(),
                be_value(a) == be_value(b),
                0 <= a.last() < 256,
                0 <= b.last() < 256,
        {
        }
        lemma_be_value_injective(a.drop_last(), b.drop_last());
        assert(a =~= a.drop_last().push(a.last()));
        assert(b =~= b.drop_last().push(b.last()));
    }
}

/// Whether one byte string precedes another of the same length in byte-wise order.
pub open spec fn bytes_lt(a: Seq<u8>, b: Seq<u8>) -> bool
    decreases a.len(),
{
    if a.len() == 0 || b.len() == 0 {
        false
    } else if a.drop_last() == b.drop_last() {
        a.last() < b.last()
    } else {
        bytes_lt(a.drop_last(), b.drop_last())
    }
}

/// For byte strings of equal length, byte-wise order is the order of the numbers they denote:
/// keys built from big-endian encodings are ordered as the numbers they encode.
pub proof fn lemma_bytes_order_is_numeric_order(a: Seq<u8>, b: Seq<u8>)
    requires
        a.len() == b.len(),
    ensures
        bytes_lt(a, b) <==> be_value(a) < be_value(b),
    decreases a.len(),
{
    if a.len() > 0 {
        let (ap, bp) = (a.drop_last(), b.drop_last());
        lemma_bytes_order_is_numeric_order(ap, bp);
        if ap == bp {
        } else {
            if be_value(ap) == be_value(bp) {
                lemma_be_value_injective(ap, bp);
            }
            assert(be_value(ap) < be_value(bp) <==> be_value(a) < be_value(b)) by (nonlinear_arith)
                requires
                    be_value(a) == be_value(ap) * 256 + a.last(),
                    be_value(b) == be_value(bp) * 256 + b.last(),
                    be_value(ap) != be_value(bp),
                    0 <= a.last() < 256,
                    0 <= b.last() < 256,
            {
            }
        }
    }
}

//////////////////////////////////////////////////////////////////////////////////////////////////
// Decimal text //////////////////////////////////////////////////////////////////////////////////

/// The character of a decimal digit.
pub open spec fn digit_char(d: nat) -> char {
    if d == 0 { '0' }
    else if d == 1 { '1' }
    else if d == 2 { '2' }
    else if d == 3 { '3' }
    else if d == 4 { '4' }
    else if d == 5 { '5' }
    else if d == 6 { '6' }
    else if d == 7 { '7' }
    else if d == 8 { '8' }
    else { '9' }
}

/// The decimal form of a number, without leading zeros.
pub open spec fn decimal(n: nat) -> Seq<char>
    decreases n,
{
    if n < 10 {
        seq![digit_char(n)]
    } else {
        decimal(n / 10).push(digit_char(n % 10))
    }
}

fn digit_str(d: u64) -> (s: &'static str)
    requires
        d < 10,
    ensures
        s@ == seq![digit_char(d as nat)],
{
    proof {
        reveal_strlit("0");
        reveal_strlit("1");
        reveal_strlit("2");
        reveal_strlit("3");
        reveal_strlit("4");
        reveal_strlit("5");
        reveal_strlit("6");
        reveal_strlit("7");
        reveal_strlit("8");
        reveal_strlit("9");
    }
    if d == 0 { "0" }
    else if d == 1 { "1" }
    else if d == 2 { "2" }
    else if d == 3 { "3" }
    else if d == 4 { "4" }
    else if d == 5 { "5" }
    else if d == 6 { "6" }
    else if d == 7 { "7" }
    else if d == 8 { "8" }
    else { "9" }
}

/// Render a number in decimal.
pub fn u64_to_decimal(n: u64) -> (s: String)
    ensures
        s@ == decimal(n as nat),
    decreases n,
{
    if n < 10 {
        String::from_str(digit_str(n))
    } else {
        let mut s = u64_to_decimal(n / 10);
        s.append(digit_str(n % 10));
        s
    }
}

/// The value of a decimal digit character.
pub open spec fn char_digit(c: char) -> nat {
    (c as nat - '0' as nat) as nat
}

/// Whether a character is a decimal digit.
pub open spec fn is_digit(c: char) -> bool {
    '0' <= c && c <= '9'
}

/// The number that a string of decimal digits denotes.
pub open spec fn digits_value(s: Seq<char>) -> nat
    decreases s.len(),
{
    if s.len() == 0 {
        0
    } else {
        digits_value(s.drop_last()) * 10 + char_digit(s.last())
    }
}

/// The digits of a text read as an unsigned number: the text without a leading `+`.
pub open spec fn unsigned_digits(s: Seq<char>) -> Seq<char> {
    if s.len() > 0 && s[0] == '+' {
        s.drop_first()
    } else {
        s
    }
}

/// Whether every character of a text is a decimal digit.
pub open spec fn all_digits(s: Seq<char>) -> bool {
    forall|i: int| 0 <= i < s.len() ==> is_digit(#[trigger] s[i])
}

/// The number that a text denotes, read as an unsigned 64-bit decimal: an optional `+` sign
/// followed by at least one digit, and a value that fits in 64 bits.
pub open spec fn parse_u64_spec(s: Seq<char>) -> Option<u64> {
    let digits = unsigned_digits(s);
    if digits.len() > 0 && all_digits(digits) && digits_value(digits) <= u64::MAX {
        Some(digits_value(digits) as u64)
    } else {
        None
    }
}

proof fn lemma_digits_value_monotone(s: Seq<char>, i: int)
    requires
        0 <= i <= s.len(),
        forall|j: int| 0 <= j < s.len() ==> is_digit(#[trigger] s[j]),
    ensures
        digits_value(s.take(i)) <= digits_value(s),
    decreases s.len() - i,
{
    if i < s.len() {
        lemma_digits_value_monotone(s, i + 1);
        assert(s.take(i + 1).drop_last() =~= s.take(i));
    } else {
        assert(s.take(i) =~= s);
    }
}

/// Parse a text as an unsigned 64-bit decimal number.
pub fn parse_u64(text: &str) -> (r: Option<u64>)
    ensures
        r == parse_u64_spec(text@),
{
    let chars = crate::auth::chars_of(text);
    let start: usize = if chars.len() > 0 && chars[0] == '+' { 1 } else { 0 };
    let ghost digits = unsigned_digits(chars@);
    proof {
        assert(digits =~= chars@.skip(start as int));
    }
    if start >= chars.len() {
        return None;
    }
    let mut acc: u64 = 0;
    let mut i: usize = start;
    while i < chars.len()
        invariant
            start <= i <= chars.len(),
            chars@ == text@,
            digits == unsigned_digits(text@),
            digits == chars@.skip(start as int),
            forall|j: int| 0 <= j < i - start ==> is_digit(#[trigger] digits[j]),
            acc == digits_value(digits.take(i - start)),
        decreases chars.len() - i,
    {
        let c = chars[i];
        if !('0' <= c && c <= '9') {
            proof {
                assert(digits[i - start] == c);
                assert(!is_digit(digits[i - start]));
                assert(!all_digits(digits));
            }
            return None;
        }
        let d = (c as u32 - '0' as u32) as u64;
        proof {
            assert(digits.take(i - start + 1).drop_last() =~= digits.take(i - start));
        }
        if acc > (u64::MAX - d) / 10 {
            proof {
                assert(acc * 10 + d > u64::MAX) by (nonlinear_arith)
                    requires
                        acc > (u64::MAX - d) / 10,
                        d < 10,
                {
                }
                assert(digits_value(digits.take(i - start + 1)) > u64::MAX);
                if all_digits(digits) {
                    lemma_digits_value_monotone(digits, i - start + 1);
                }
            }
            return None;
        }
        acc = acc * 10 + d;
        i = i + 1;
    }
    proof {
        assert(digits.take(digits.len() as int) =~= digits);
    }
    Some(acc)
}

proof fn lemma_digit_char(k: nat)
    requires
        k < 10,
    ensures
        is_digit(digit_char(k)),
        char_digit(digit_char(k)) == k,
        digit_char(k) != '+',
{
}

/// Reading back the decimal form of a number gives that number.
pub proof fn lemma_decimal_round_trip(n: u64)
    ensures
        parse_u64_spec(decimal(n as nat)) == Some(n),
{
    lemma_decimal_digits(n as nat);
}

proof fn lemma_decimal_digits(n: nat)
    ensures
        decimal(n).len() > 0,
        decimal(n)[0] != '+',
        forall|i: int| 0 <= i < decimal(n).len() ==> is_digit(#[trigger] decimal(n)[i]),
        digits_value(decimal(n)) == n,
    decreases n,
{
    lemma_digit_char(n % 10);
    vstd::arithmetic::div_mod::lemma_fundamental_div_mod(n as int, 10);
    if n >= 10 {
        lemma_decimal_digits(n / 10);
        let d = decimal(n);
        assert(d.drop_last() =~= decimal(n / 10));
        assert(d.last() == digit_char(n % 10));
        assert(digits_value(d) == digits_value(d.drop_last()) * 10 + char_digit(d.last()));
        assert(digits_value(d) == (n / 10) * 10 + n % 10);
        assert(digits_value(d) == n);
        assert forall|i: int| 0 <= i < d.len() implies is_digit(#[trigger] d[i]) by {
            if i < d.len() - 1 {
                assert(d[i] == decimal(n / 10)[i]);
            }
        }
    } else {
        assert(decimal(n).drop_last() =~= Seq::<char>::empty());
        assert(digits_value(Seq::<char>::empty()) == 0);
        assert(digits_value(decimal(n)) == n);
    }
}

} // verus!
