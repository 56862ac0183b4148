//! Fixed-width integers as byte strings, in either byte order.
//!
//! The model is arithmetic: a byte string denotes a number in base 256.
//! Little-endian puts the least significant digit first; big-endian is the
//! same digits in reverse.

use crate::endian::ByteOrder;
use vstd::prelude::*;

verus! {

/// 256 to the power `n`.
pub open spec fn pow256(n: nat) -> nat
    decreases n,
{
    if n == 0 {
        1
    } else {
        256 * pow256((n - 1) as nat)
    }
}

/// The `n` low-order base-256 digits of `v`, least significant first.
pub open spec fn le_bytes(v: nat, n: nat) -> Seq<u8>
    decreases n,
{
    if n == 0 {
        Seq::empty()
    } else {
        seq![(v % 256) as u8] + le_bytes(v / 256, (n - 1) as nat)
    }
}

/// The number whose base-256 digits, least significant first, are `s`.
pub open spec fn le_value(s: Seq<u8>) -> nat
    decreases s.len(),
{
    if s.len() == 0 {
        0
    } else {
        s[0] as nat + 256 * le_value(s.drop_first())
    }
}

/// The `n`-byte encoding of the unsigned number `v` in the given order.
pub open spec fn uint_bytes(v: nat, n: nat, order: ByteOrder) -> Seq<u8> {
    match order {
        ByteOrder::Little => le_bytes(v, n),
        ByteOrder::Big => le_bytes(v, n).reverse(),
    }
}

/// The unsigned number that `s` encodes in the given order.
pub open spec fn uint_value(s: Seq<u8>, order: ByteOrder) -> nat {
    match order {
        ByteOrder::Little => le_value(s),
        ByteOrder::Big => le_value(s.reverse()),
    }
}

/// Two's complement: the unsigned number with the same `n` bytes as `x`.
pub open spec fn twos_complement(x: int, n: nat) -> nat {
    if x >= 0 {
        x as nat
    } else {
        (pow256(n) + x) as nat
    }
}

/// The signed number that the `n`-byte pattern `v` stands for.
pub open spec fn from_twos_complement(v: nat, n: nat) -> int {
    if 2 * v < pow256(n) {
        v as int
    } else {
        v - pow256(n)
    }
}

/// The `n`-byte two's complement encoding of `x` in the given order.
pub open spec fn int_bytes(x: int, n: nat, order: ByteOrder) -> Seq<u8> {
    uint_bytes(twos_complement(x, n), n, order)
}

/// The signed number that `s` encodes in the given order.
pub open spec fn int_value(s: Seq<u8>, order: ByteOrder) -> int {
    from_twos_complement(uint_value(s, order), s.len())
}

/// Whether `x` fits in `n` bytes of two's complement.
pub open spec fn fits_signed(x: int, n: nat) -> bool {
    -(pow256(n) as int) <= 2 * x < pow256(n)
}

/// A power of 256 is at least 1.
pub proof fn lemma_pow256_positive(n: nat)
    ensures
        pow256(n) >= 1,
    decreases n,
{
    if n > 0 {
        lemma_pow256_positive((n - 1) as nat);
    }
}

/// The powers of 256 grow with the exponent.
pub proof fn lemma_pow256_monotonic(a: nat, b: nat)
    requires
        a <= b,
    ensures
        pow256(a) <= pow256(b),
    decreases b,
{
    if a < b {
        lemma_pow256_monotonic(a, (b - 1) as nat);
    }
}

/// The powers of 256 at the widths of the machine integers.
pub proof fn lemma_pow256_widths()
    ensures
        pow256(0) == 1,
        pow256(1) == 0x100,
        pow256(2) == 0x1_0000,
        pow256(4) == 0x1_0000_0000,
        pow256(8) == 0x1_0000_0000_0000_0000,
        pow256(16) == 0x1_0000_0000_0000_0000_0000_0000_0000_0000,
{
    assert(pow256(2) == 0x1_0000) by {
        reveal_with_fuel(pow256, 2);
    }
    assert(pow256(4) == 0x1_0000_0000) by {
        reveal_with_fuel(pow256, 3);
    }
    assert(pow256(8) == 0x1_0000_0000_0000_0000) by {
        reveal_with_fuel(pow256, 5);
    }
    assert(pow256(12) == 0x1_0000_0000_0000_0000_0000_0000) by {
        reveal_with_fuel(pow256, 5);
    }
    assert(pow256(16) == 0x1_0000_0000_0000_0000_0000_0000_0000_0000) by {
        reveal_with_fuel(pow256, 5);
    }
}

/// The digits asked for are as many as were asked for.
pub proof fn lemma_le_bytes_len(v: nat, n: nat)
    ensures
        le_bytes(v, n).len() == n,
    decreases n,
{
    if n > 0 {
        lemma_le_bytes_len(v / 256, (n - 1) as nat);
    }
}

/// A number of so many digits is below 256 to the power of that many.
pub proof fn lemma_le_value_bound(s: Seq<u8>)
    ensures
        le_value(s) < pow256(s.len()),
    decreases s.len(),
{
    if s.len() > 0 {
        lemma_le_value_bound(s.drop_first());
    }
}

/// Decoding the little-endian digits of a number that fits gives it back.
pub proof fn lemma_le_value_of_bytes(v: nat, n: nat)
    requires
        v < pow256(n),
    ensures
        le_value(le_bytes(v, n)) == v,
    decreases n,
{
    if n > 0 {
        let rest = le_bytes(v / 256, (n - 1) as nat);
        lemma_le_value_of_bytes(v / 256, (n - 1) as nat);
        assert(le_bytes(v, n).drop_first() =~= rest);
    }
}

/// Encoding the number that a byte string denotes gives the string back.
pub proof fn lemma_le_bytes_of_value(s: Seq<u8>)
    ensures
        le_bytes(le_value(s), s.len()) == s,
    decreases s.len(),
{
    if s.len() > 0 {
        let rest = s.drop_first();
        lemma_le_bytes_of_value(rest);
    } else {
    }
}

/// Reversing twice changes nothing.
pub proof fn lemma_reverse_twice(s: Seq<u8>)
    ensures
        s.reverse().reverse() == s,
{
}

/// Every unsigned encoding has exactly the width asked for.
pub proof fn lemma_uint_bytes_len(v: nat, n: nat, order: ByteOrder)
    ensures
        uint_bytes(v, n, order).len() == n,
{
    lemma_le_bytes_len(v, n);
}

/// Round trip of unsigned numbers: a number that fits in `n` bytes is
/// decoded from its own encoding, in either byte order.
pub proof fn lemma_uint_round_trip(v: nat, n: nat, order: ByteOrder)
    requires
        v < pow256(n),
    ensures
        uint_value(uint_bytes(v, n, order), order) == v,
{
    lemma_le_value_of_bytes(v, n);
    lemma_reverse_twice(le_bytes(v, n));
}

/// Every byte string is the encoding of the number it decodes to.
pub proof fn lemma_uint_bytes_of_value(s: Seq<u8>, order: ByteOrder)
    ensures
        uint_bytes(uint_value(s, order), s.len(), order) == s,
        uint_value(s, order) < pow256(s.len()),
{
    lemma_le_bytes_of_value(s);
    lemma_le_bytes_of_value(s.reverse());
    lemma_le_value_bound(s);
    lemma_le_value_bound(s.reverse());
}

/// Round trip of signed numbers, in either byte order.
pub proof fn lemma_int_round_trip(x: int, n: nat, order: ByteOrder)
    requires
        n >= 1,
        fits_signed(x, n),
    ensures
        int_value(int_bytes(x, n, order), order) == x,
        int_bytes(x, n, order).len() == n,
{
    lemma_uint_round_trip(twos_complement(x, n), n, order);
    lemma_uint_bytes_len(twos_complement(x, n), n, order);
}

/// What a byte string decodes to as a signed number always fits its width.
pub proof fn lemma_int_value_fits(s: Seq<u8>, order: ByteOrder)
    requires
        s.len() >= 1,
    ensures
        fits_signed(int_value(s, order), s.len()),
        twos_complement(int_value(s, order), s.len()) == uint_value(s, order),
{
    lemma_uint_bytes_of_value(s, order);
}

/// The two encodings of a number differ exactly when its digits do not read
/// the same in both directions; a single byte always does.
pub proof fn lemma_orders_differ(v: nat, n: nat)
    ensures
        uint_bytes(v, n, ByteOrder::Big) != uint_bytes(v, n, ByteOrder::Little) <==> le_bytes(
            v,
            n,
        ) != le_bytes(v, n).reverse(),
        n <= 1 ==> uint_bytes(v, n, ByteOrder::Big) == uint_bytes(v, n, ByteOrder::Little),
{
    lemma_le_bytes_len(v, n);
}

/// The largest number that `n` bytes hold.
pub(crate) fn max_unsigned(n: usize) -> (r: u128)
    requires
        n <= 16,
    ensures
        r == pow256(n as nat) - 1,
{
    let mut r: u128 = 0;
    let mut i: usize = 0;
    proof {
        lemma_pow256_widths();
    }
    while i < n
        invariant
            i <= n <= 16,
            r == pow256(i as nat) - 1,
            pow256(16) == 0x1_0000_0000_0000_0000_0000_0000_0000_0000,
        decreases n - i,
    {
        proof {
            lemma_pow256_monotonic((i + 1) as nat, 16);
        }
        r = r * 256 + 255;
        i = i + 1;
    }
    r
}

/// Encodes `v` in `n` bytes in the given order. Digits of `v` beyond the
/// `n`th are dropped.
pub fn encode_uint(v: u128, n: usize, order: ByteOrder) -> (out: Vec<u8>)
    ensures
        out@ == uint_bytes(v as nat, n as nat, order),
{
    let mut little: Vec<u8> = Vec::new();
    let mut x: u128 = v;
    let mut i: usize = 0;
    while i < n
        invariant
            i <= n,
            little@.len() == i,
            little@ + le_bytes(x as nat, (n - i) as nat) == le_bytes(v as nat, n as nat),
        decreases n - i,
    {
        let digit: u8 = (x % 256) as u8;
        little.push(digit);
        x = x / 256;
        i = i + 1;
    }
    match order {
        ByteOrder::Little => little,
        ByteOrder::Big => {
            let mut big: Vec<u8> = Vec::new();
            let mut j: usize = n;
            while j > 0
                invariant
                    j <= n,
                    little@.len() == n,
                    big@.len() == n - j,
                    forall|k: int| 0 <= k < big@.len() ==> big@[k] == little@[n - 1 - k],
                decreases j,
            {
                j = j - 1;
                big.push(little[j]);
            }
            big
        },
    }
}

/// Decodes the unsigned number that at most 16 bytes encode.
pub(crate) fn decode_uint(bytes: &[u8], order: ByteOrder) -> (v: u128)
    requires
        bytes@.len() <= 16,
    ensures
        v == uint_value(bytes@, order),
{
    let n: usize = bytes.len();
    let mut acc: u128 = 0;
    let mut i: usize = 0;
    proof {
        lemma_pow256_widths();
    }
    match order {
        ByteOrder::Big => {
            while i < n
                invariant
                    i <= n <= 16,
                    n == bytes@.len(),
                    acc == le_value(bytes@.take(i as int).reverse()),
                    pow256(16) == 0x1_0000_0000_0000_0000_0000_0000_0000_0000,
                decreases n - i,
            {
                proof {
                    let done = bytes@.take(i as int);
                    let next = bytes@.take(i + 1);
                    lemma_le_value_bound(done.reverse());
                    lemma_pow256_monotonic((i + 1) as nat, 16);
                    assert(next.reverse().drop_first() =~= done.reverse());
                }
                acc = acc * 256 + bytes[i] as u128;
                i = i + 1;
            }
            assert(bytes@.take(n as int) =~= bytes@);
        },
        ByteOrder::Little => {
            while i < n
                invariant
                    i <= n <= 16,
                    n == bytes@.len(),
                    acc == le_value(bytes@.skip(n - i)),
                    pow256(16) == 0x1_0000_0000_0000_0000_0000_0000_0000_0000,
                decreases n - i,
            {
                proof {
                    let done = bytes@.skip(n - i);
                    let next = bytes@.skip(n - i - 1);
                    lemma_le_value_bound(done);
                    lemma_pow256_monotonic((i + 1) as nat, 16);
                    assert(next.drop_first() =~= done);
                }
                acc = acc * 256 + bytes[n - i - 1] as u128;
                i = i + 1;
            }
            assert(bytes@.skip(0) =~= bytes@);
        },
    }
    acc
}

/// Encodes the signed number `x` in `n` bytes of two's complement.
pub(crate) fn encode_int(x: i128, n: usize, order: ByteOrder) -> (out: Vec<u8>)
    requires
        1 <= n <= 16,
        fits_signed(x as int, n as nat),
    ensures
        out@ == int_bytes(x as int, n as nat, order),
{
    let pattern: u128 = if x >= 0 {
        x as u128
    } else {
        let top: u128 = max_unsigned(n);
        let below: u128 = (-(x + 1)) as u128;
        top - below
    };
    encode_uint(pattern, n, order)
}

/// Decodes the signed number that 1 to 16 bytes of two's complement encode.
pub(crate) fn decode_int(bytes: &[u8], order: ByteOrder) -> (x: i128)
    requires
        1 <= bytes@.len() <= 16,
    ensures
        x == int_value(bytes@, order),
{
    let n: usize = bytes.len();
    let pattern: u128 = decode_uint(bytes, order);
    let top: u128 = max_unsigned(n);
    proof {
        lemma_uint_bytes_of_value(bytes@, order);
    }
    let half: u128 = top / 2;
    if pattern <= half {
        pattern as i128
    } else {
        let below: u128 = top - pattern;
        -(below as i128) - 1
    }
}

} // verus!
