//! Numbers as digits and as big-endian bytes.
use vstd::prelude::*;

verus! {

/// The decimal digit `d`.
pub open spec fn digit(d: int) -> char {
    ('0' as int + d) as char
}

/// `n` in decimal, without leading zeros.
pub open spec fn decimal(n: nat) -> Seq<char>
    decreases n,
{
    if n < 10 {
        seq![digit(n as int)]
    } else {
        decimal(n / 10).push(digit((n % 10) as int))
    }
}

/// `n` in decimal with a leading minus sign where it is negative.
pub open spec fn signed_decimal(n: int) -> Seq<char> {
    if n < 0 {
        seq!['-'] + decimal((-n) as nat)
    } else {
        decimal(n as nat)
    }
}

/// `count` zeros.
pub open spec fn zeros(count: int) -> Seq<char> {
    Seq::new(if count > 0 { count as nat } else { 0 }, |i: int| '0')
}

/// `n` in decimal, filled up with leading zeros to `width` characters.
pub open spec fn padded_decimal(n: nat, width: int) -> Seq<char> {
    zeros(width - decimal(n).len()) + decimal(n)
}

/// `n` in decimal, filled up with zeros behind the sign to `width` characters.
pub open spec fn padded_signed(n: int, width: int) -> Seq<char> {
    if n < 0 {
        seq!['-'] + padded_decimal((-n) as nat, width - 1)
    } else {
        padded_decimal(n as nat, width)
    }
}

/// Whether a character is a decimal digit.
pub open spec fn is_digit(c: char) -> bool {
    '0' <= c && c <= '9'
}

/// The number that digits write.
pub open spec fn digits_value(s: Seq<char>) -> nat
    decreases s.len(),
{
    if s.len() == 0 {
        0
    } else {
        10 * digits_value(s.drop_last()) + (s.last() as nat - '0' as nat) as nat
    }
}

/// The digits of a number write it.
pub proof fn lemma_decimal_is_read_back(n: nat)
    ensures
        decimal(n).len() > 0,
        forall|i: int| 0 <= i < decimal(n).len() ==> is_digit(#[trigger] decimal(n)[i]),
        digits_value(decimal(n)) == n,
    decreases n,
{
    if n < 10 {
        assert(decimal(n).drop_last() =~= Seq::empty());
        assert(digits_value(decimal(n).drop_last()) == 0);
    } else {
        lemma_decimal_is_read_back(n / 10);
        assert(decimal(n).drop_last() =~= decimal(n / 10));
    }
}

/// Appends `n` in decimal.
pub fn push_decimal(out: &mut String, n: u64)
    ensures
        final(out)@ == old(out)@ + decimal(n as nat),
    decreases n,
{
    if n >= 10 {
        push_decimal(out, n / 10);
    }
    let d: u8 = (n % 10) as u8;
    out.push((48u8 + d) as char);
    assert(out@ =~= old(out)@ + decimal(n as nat));
}

/// The absolute value of `n`.
fn magnitude(n: i64) -> (m: u64)
    ensures
        m == if n < 0 { -n } else { n as int },
{
    if n < 0 {
        (-(n + 1)) as u64 + 1
    } else {
        n as u64
    }
}

/// Appends `n` in decimal with its sign.
pub fn push_signed(out: &mut String, n: i64)
    ensures
        final(out)@ == old(out)@ + signed_decimal(n as int),
{
    let ghost before = out@;
    if n < 0 {
        out.push('-');
    }
    push_decimal(out, magnitude(n));
    assert(out@ =~= before + signed_decimal(n as int));
}

/// How many decimal digits `n` has.
fn digit_count(n: u64) -> (c: usize)
    ensures
        c == decimal(n as nat).len(),
        1 <= c <= 20,
{
    let mut rest: u64 = n;
    let mut c: usize = 1;
    proof {
        lemma_decimal_len(n as nat);
    }
    while rest >= 10
        invariant
            decimal(n as nat).len() == decimal(rest as nat).len() + c - 1,
            1 <= c,
            decimal(n as nat).len() <= 20,
        decreases rest,
    {
        proof {
            lemma_decimal_positive((rest / 10) as nat);
        }
        rest = rest / 10;
        c += 1;
    }
    c
}

proof fn lemma_decimal_positive(n: nat)
    ensures
        decimal(n).len() >= 1,
    decreases n,
{
    if n >= 10 {
        lemma_decimal_positive(n / 10);
    }
}

/// Ten to the power `k`.
pub open spec fn pow10(k: nat) -> nat
    decreases k,
{
    if k == 0 {
        1
    } else {
        10 * pow10((k - 1) as nat)
    }
}

/// A number below a power of ten has no more digits than its exponent.
pub proof fn lemma_decimal_bound(n: nat, k: nat)
    requires
        n < pow10(k),
        k >= 1,
    ensures
        decimal(n).len() <= k,
    decreases k,
{
    if n >= 10 {
        assert(pow10(1) == 10) by {
            reveal_with_fuel(pow10, 3);
        }
        assert(n / 10 < pow10((k - 1) as nat)) by (nonlinear_arith)
            requires
                n < 10 * pow10((k - 1) as nat),
        ;
        lemma_decimal_bound(n / 10, (k - 1) as nat);
    }
}

proof fn lemma_decimal_len(n: nat)
    requires
        n <= u64::MAX,
    ensures
        decimal(n).len() <= 20,
{
    reveal_with_fuel(pow10, 22);
    assert(pow10(20) == 100000000000000000000);
    lemma_decimal_bound(n, 20);
}

/// Appends `n` in decimal, filled up with leading zeros to `width` characters.
pub fn push_padded(out: &mut String, n: u64, width: usize)
    ensures
        final(out)@ == old(out)@ + padded_decimal(n as nat, width as int),
{
    let ghost before = out@;
    let count: usize = digit_count(n);
    let mut i: usize = count;
    while i < width
        invariant
            count <= i,
            i <= width || i == count,
            out@ == before + zeros(i - count),
        decreases width - i,
    {
        out.push('0');
        i += 1;
        assert(before + zeros(i - count) =~= (before + zeros(i - count - 1)).push('0'));
    }
    assert(zeros(i - count) =~= zeros(width - count));
    push_decimal(out, n);
    assert(out@ =~= before + padded_decimal(n as nat, width as int));
}

/// Appends `n` in decimal, filled up with zeros behind the sign to `width` characters.
pub fn push_padded_signed(out: &mut String, n: i64, width: usize)
    requires
        width >= 1,
    ensures
        final(out)@ == old(out)@ + padded_signed(n as int, width as int),
{
    let ghost before = out@;
    if n < 0 {
        out.push('-');
        push_padded(out, magnitude(n), width - 1);
    } else {
        push_padded(out, n as u64, width);
    }
    assert(out@ =~= before + padded_signed(n as int, width as int));
}

// ---------------------------------------------------------------------------
// Hexadecimal
// ---------------------------------------------------------------------------

/// The lower-case hexadecimal digit of `v`.
pub open spec fn hex_digit(v: int) -> char {
    if v < 10 {
        ('0' as int + v) as char
    } else {
        ('a' as int + (v - 10)) as char
    }
}

/// Two lower-case hexadecimal digits for each byte.
pub open spec fn hex_lower(bytes: Seq<u8>) -> Seq<char> {
    Seq::new(
        2 * bytes.len(),
        |i: int| hex_digit(if i % 2 == 0 { bytes[i / 2] as int / 16 } else { bytes[i / 2] as int % 16 }),
    )
}

/// Whether `c` is a lower-case hexadecimal digit.
pub open spec fn is_hex_digit(c: char) -> bool {
    ('0' <= c && c <= '9') || ('a' <= c && c <= 'f')
}

/// Every digit written is a lower-case hexadecimal digit.
pub proof fn lemma_hex_lower_digits(bytes: Seq<u8>)
    ensures
        hex_lower(bytes).len() == 2 * bytes.len(),
        forall|i: int| 0 <= i < hex_lower(bytes).len() ==> is_hex_digit(#[trigger] hex_lower(bytes)[i]),
{
    assert forall|i: int| 0 <= i < hex_lower(bytes).len() implies is_hex_digit(
        #[trigger] hex_lower(bytes)[i],
    ) by {
        let b = bytes[i / 2];
        assert(0 <= b as int / 16 < 16);
        assert(0 <= b as int % 16 < 16);
    }
}

/// The two digits of one byte.
pub proof fn lemma_hex_lower_at(bytes: Seq<u8>, k: int)
    requires
        0 <= k < bytes.len(),
    ensures
        hex_lower(bytes)[2 * k] == hex_digit(bytes[k] as int / 16),
        hex_lower(bytes)[2 * k + 1] == hex_digit(bytes[k] as int % 16),
{
    assert((2 * k) % 2 == 0 && (2 * k) / 2 == k);
    assert((2 * k + 1) % 2 == 1 && (2 * k + 1) / 2 == k);
}

/// Different bytes have different digits.
pub proof fn lemma_hex_lower_injective(a: Seq<u8>, b: Seq<u8>)
    requires
        hex_lower(a) == hex_lower(b),
    ensures
        a == b,
{
    assert(hex_lower(a).len() == 2 * a.len());
    assert(hex_lower(b).len() == 2 * b.len());
    assert forall|k: int| 0 <= k < a.len() implies a[k] == b[k] by {
        lemma_hex_lower_at(a, k);
        lemma_hex_lower_at(b, k);
        let x = a[k] as int;
        let y = b[k] as int;
        assert(hex_digit(x / 16) == hex_digit(y / 16));
        assert(hex_digit(x % 16) == hex_digit(y % 16));
        assert(0 <= x / 16 < 16 && 0 <= y / 16 < 16);
        lemma_hex_digit_injective(x / 16, y / 16);
        lemma_hex_digit_injective(x % 16, y % 16);
        assert(x == 16 * (x / 16) + x % 16);
        assert(y == 16 * (y / 16) + y % 16);
    }
    assert(a =~= b);
}

proof fn lemma_hex_digit_injective(x: int, y: int)
    requires
        0 <= x < 16,
        0 <= y < 16,
        hex_digit(x) == hex_digit(y),
    ensures
        x == y,
{
    assert(hex_digit(x) as int == if x < 10 { 48 + x } else { 87 + x });
    assert(hex_digit(y) as int == if y < 10 { 48 + y } else { 87 + y });
}

fn hex_char(v: u8) -> (c: char)
    requires
        v < 16,
    ensures
        c == hex_digit(v as int),
{
    if v < 10 {
        (48u8 + v) as char
    } else {
        (87u8 + v) as char
    }
}

/// Appends the hexadecimal digits of `bytes[..count]`.
pub fn push_hex(out: &mut String, bytes: &[u8], count: usize)
    requires
        count <= bytes@.len(),
    ensures
        final(out)@ == old(out)@ + hex_lower(bytes@.take(count as int)),
{
    let ghost before = out@;
    let mut i: usize = 0;
    while i < count
        invariant
            0 <= i <= count <= bytes@.len(),
            out@ == before + hex_lower(bytes@.take(i as int)),
        decreases count - i,
    {
        let b: u8 = bytes[i];
        out.push(hex_char(b / 16));
        out.push(hex_char(b % 16));
        i += 1;
        proof {
            let shorter = hex_lower(bytes@.take(i - 1));
            let longer = hex_lower(bytes@.take(i as int));
            assert(longer =~= shorter.push(hex_digit(b as int / 16)).push(hex_digit(b as int % 16)));
            assert(out@ =~= before + longer);
        }
    }
    assert(out@ =~= before + hex_lower(bytes@.take(count as int)));
}

/// The lower-case hexadecimal digits of `bytes`.
pub fn hex_bytes(bytes: &[u8]) -> (s: String)
    ensures
        s@ == hex_lower(bytes@),
{
    let mut s: String = String::new();
    push_hex(&mut s, bytes, bytes.len());
    assert(bytes@.take(bytes@.len() as int) =~= bytes@);
    assert(s@ =~= hex_lower(bytes@));
    s
}

// ---------------------------------------------------------------------------
// Big-endian bytes
// ---------------------------------------------------------------------------

/// The low `width` bytes of `n`, the highest first.
pub open spec fn be_bytes(n: nat, width: nat) -> Seq<u8>
    decreases width,
{
    if width == 0 {
        Seq::empty()
    } else {
        be_bytes(n / 256, (width - 1) as nat).push((n % 256) as u8)
    }
}

/// The number whose bytes are `s`, the highest first.
pub open spec fn be_value(s: Seq<u8>) -> nat
    decreases s.len(),
{
    if s.len() == 0 {
        0
    } else {
        256 * be_value(s.drop_last()) + s.last() as nat
    }
}

/// 256 to the power `k`.
pub open spec fn pow256(k: nat) -> nat
    decreases k,
{
    if k == 0 {
        1
    } else {
        256 * pow256((k - 1) as nat)
    }
}

/// A number that fits is read back from its bytes.
pub proof fn lemma_be_round_trip(n: nat, width: nat)
    requires
        n < pow256(width),
    ensures
        be_bytes(n, width).len() == width,
        be_value(be_bytes(n, width)) == n,
    decreases width,
{
    if width > 0 {
        assert(n / 256 < pow256((width - 1) as nat)) by (nonlinear_arith)
            requires
                n < 256 * pow256((width - 1) as nat),
        ;
        lemma_be_round_trip(n / 256, (width - 1) as nat);
        let s = be_bytes(n, width);
        assert(s.drop_last() =~= be_bytes(n / 256, (width - 1) as nat));
    }
}

/// Appends the `width` low bytes of `n`, the highest first.
pub fn push_be(out: &mut Vec<u8>, n: u64, width: u8)
    ensures
        final(out)@ == old(out)@ + be_bytes(n as nat, width as nat),
    decreases width,
{
    if width > 0 {
        push_be(out, n / 256, width - 1);
        out.push((n % 256) as u8);
    }
    assert(out@ =~= old(out)@ + be_bytes(n as nat, width as nat));
}

/// The number in the four bytes at `at`.
pub fn read_be32(bytes: &[u8], at: usize) -> (n: u32)
    requires
        at + 4 <= bytes@.len(),
    ensures
        n == be_value(bytes@.subrange(at as int, at + 4)),
{
    proof {
        let s = bytes@.subrange(at as int, at + 4);
        reveal_with_fuel(be_value, 6);
        let s3 = s.drop_last();
        let s2 = s3.drop_last();
        let s1 = s2.drop_last();
        assert(s1.drop_last().len() == 0);
        assert(be_value(s1) == s[0] as nat);
        assert(be_value(s2) == 256 * be_value(s1) + s[1] as nat);
        assert(be_value(s3) == 256 * be_value(s2) + s[2] as nat);
        assert(be_value(s) == 256 * be_value(s3) + s[3] as nat);
    }
    ((bytes[at] as u32 * 256 + bytes[at + 1] as u32) * 256 + bytes[at + 2] as u32) * 256
        + bytes[at + 3] as u32
}

/// A signed 64-bit number as the unsigned one with the same bits.
pub open spec fn unsigned_bits(n: int) -> nat {
    if n < 0 {
        (n + 0x1_0000_0000_0000_0000) as nat
    } else {
        n as nat
    }
}

/// The unsigned number with the bits of `n`.
pub fn bits_of(n: i64) -> (u: u64)
    ensures
        u == unsigned_bits(n as int),
{
    if n < 0 {
        u64::MAX - (-(n + 1)) as u64
    } else {
        n as u64
    }
}

/// Appends `n` as sixteen hexadecimal digits.
pub fn push_hex16(out: &mut String, n: u64)
    ensures
        final(out)@ == old(out)@ + hex_lower(be_bytes(n as nat, 8)),
{
    let mut bytes: Vec<u8> = Vec::new();
    push_be(&mut bytes, n, 8);
    proof {
        lemma_be_len(n as nat, 8);
        assert(bytes@ =~= be_bytes(n as nat, 8));
        assert(bytes@.take(8) =~= bytes@);
    }
    push_hex(out, bytes.as_slice(), 8);
}

/// `be_bytes` has the width asked for.
pub proof fn lemma_be_len(n: nat, width: nat)
    ensures
        be_bytes(n, width).len() == width,
    decreases width,
{
    if width > 0 {
        lemma_be_len(n / 256, (width - 1) as nat);
    }
}

} // verus!
