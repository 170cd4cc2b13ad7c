//! Little-endian and big-endian digit strings of unsigned integers, in base
//! two (bits) and in base 256 (bytes).

use vstd::prelude::*;
use vstd::arithmetic::power2::{lemma2_to64, lemma_pow2_unfold, pow2};

verus! {

/// The `n` low bits of `x`, least significant first.
pub open spec fn bits_le(x: nat, n: nat) -> Seq<bool>
    decreases n,
{
    if n == 0 {
        Seq::empty()
    } else {
        seq![x % 2 == 1] + bits_le(x / 2, (n - 1) as nat)
    }
}

/// The `n` low bits of `x`, most significant first.
pub open spec fn bits_be(x: nat, n: nat) -> Seq<bool> {
    bits_le(x, n).reverse()
}

/// The number that a little-endian bit string spells.
pub open spec fn value_le(bits: Seq<bool>) -> nat
    decreases bits.len(),
{
    if bits.len() == 0 {
        0
    } else {
        (if bits[0] { 1nat } else { 0nat }) + 2 * value_le(bits.skip(1))
    }
}

/// The number that a big-endian bit string spells.
pub open spec fn value_be(bits: Seq<bool>) -> nat {
    value_le(bits.reverse())
}

/// The `n` low bytes of `x`, least significant first.
pub open spec fn bytes_le(x: nat, n: nat) -> Seq<u8>
    decreases n,
{
    if n == 0 {
        Seq::empty()
    } else {
        seq![(x % 256) as u8] + bytes_le(x / 256, (n - 1) as nat)
    }
}

/// The number that a little-endian byte string spells.
pub open spec fn bytes_value_le(bytes: Seq<u8>) -> nat
    decreases bytes.len(),
{
    if bytes.len() == 0 {
        0
    } else {
        bytes[0] as nat + 256 * bytes_value_le(bytes.skip(1))
    }
}

/// Powers of two grow with the exponent.
pub proof fn lemma_pow2_le(a: nat, b: nat)
    requires
        a <= b,
    ensures
        pow2(a) <= pow2(b),
{
    if a < b {
        vstd::arithmetic::power2::lemma_pow2_strictly_increases(a, b);
    }
}

/// A bit string of `bits_le` has the length asked for.
pub proof fn lemma_bits_le_len(x: nat, n: nat)
    ensures
        bits_le(x, n).len() == n,
    decreases n,
{
    if n > 0 {
        lemma_bits_le_len(x / 2, (n - 1) as nat);
    }
}

/// Reading back the bits of a number that fits in them gives the number.
pub proof fn lemma_value_of_bits(x: nat, n: nat)
    requires
        x < pow2(n),
    ensures
        value_le(bits_le(x, n)) == x,
    decreases n,
{
    if n == 0 {
        lemma2_to64();
    } else {
        lemma_pow2_unfold(n);
        lemma_value_of_bits(x / 2, (n - 1) as nat);
        let tail = bits_le(x / 2, (n - 1) as nat);
        assert(bits_le(x, n).skip(1) =~= tail);
    }
}

/// A bit string spells a number below two to the power of its length.
pub proof fn lemma_value_bound(bits: Seq<bool>)
    ensures
        value_le(bits) < pow2(bits.len()),
    decreases bits.len(),
{
    if bits.len() == 0 {
        lemma2_to64();
    } else {
        lemma_pow2_unfold(bits.len());
        lemma_value_bound(bits.skip(1));
    }
}

/// Writing out the number that a bit string spells gives the string back.
pub proof fn lemma_bits_of_value(bits: Seq<bool>)
    ensures
        bits_le(value_le(bits), bits.len()) == bits,
    decreases bits.len(),
{
    if bits.len() > 0 {
        lemma_bits_of_value(bits.skip(1));
        assert(bits_le(value_le(bits), bits.len()) =~= bits);
    } else {
        assert(bits_le(value_le(bits), bits.len()) =~= bits);
    }
}

/// Reversing a big-endian string of `bits_be` gives the little-endian one.
pub proof fn lemma_value_of_bits_be(x: nat, n: nat)
    requires
        x < pow2(n),
    ensures
        value_be(bits_be(x, n)) == x,
        bits_be(x, n).len() == n,
{
    lemma_bits_le_len(x, n);
    lemma_value_of_bits(x, n);
    assert(bits_le(x, n).reverse().reverse() =~= bits_le(x, n));
}

/// A byte string of `bytes_le` has the length asked for.
pub proof fn lemma_bytes_le_len(x: nat, n: nat)
    ensures
        bytes_le(x, n).len() == n,
    decreases n,
{
    if n > 0 {
        lemma_bytes_le_len(x / 256, (n - 1) as nat);
    }
}

/// Reading back the bytes of a number that fits in them gives the number.
pub proof fn lemma_value_of_bytes(x: nat, n: nat)
    requires
        x < pow2(8 * n),
    ensures
        bytes_value_le(bytes_le(x, n)) == x,
    decreases n,
{
    if n == 0 {
        lemma2_to64();
    } else {
        lemma_pow2_unfold(8 * n);
        lemma_pow2_unfold((8 * n - 1) as nat);
        lemma_pow2_unfold((8 * n - 2) as nat);
        lemma_pow2_unfold((8 * n - 3) as nat);
        lemma_pow2_unfold((8 * n - 4) as nat);
        lemma_pow2_unfold((8 * n - 5) as nat);
        lemma_pow2_unfold((8 * n - 6) as nat);
        lemma_pow2_unfold((8 * n - 7) as nat);
        assert(pow2(8 * n) == 256 * pow2((8 * (n - 1)) as nat));
        lemma_value_of_bytes(x / 256, (n - 1) as nat);
        let tail = bytes_le(x / 256, (n - 1) as nat);
        assert(bytes_le(x, n).skip(1) =~= tail);
    }
}

/// Writing out the number that a byte string spells gives the string back.
pub proof fn lemma_bytes_of_value(bytes: Seq<u8>)
    ensures
        bytes_le(bytes_value_le(bytes), bytes.len()) == bytes,
    decreases bytes.len(),
{
    if bytes.len() > 0 {
        lemma_bytes_of_value(bytes.skip(1));
        assert(bytes_le(bytes_value_le(bytes), bytes.len()) =~= bytes);
    } else {
        assert(bytes_le(bytes_value_le(bytes), bytes.len()) =~= bytes);
    }
}

/// A byte string spells a number below 256 to the power of its length.
pub proof fn lemma_bytes_value_bound(bytes: Seq<u8>)
    ensures
        bytes_value_le(bytes) < pow2(8 * bytes.len()),
    decreases bytes.len(),
{
    if bytes.len() == 0 {
        lemma2_to64();
    } else {
        let n = bytes.len();
        lemma_pow2_unfold(8 * n);
        lemma_pow2_unfold((8 * n - 1) as nat);
        lemma_pow2_unfold((8 * n - 2) as nat);
        lemma_pow2_unfold((8 * n - 3) as nat);
        lemma_pow2_unfold((8 * n - 4) as nat);
        lemma_pow2_unfold((8 * n - 5) as nat);
        lemma_pow2_unfold((8 * n - 6) as nat);
        lemma_pow2_unfold((8 * n - 7) as nat);
        assert(pow2(8 * n) == 256 * pow2((8 * (n - 1)) as nat));
        lemma_bytes_value_bound(bytes.skip(1));
    }
}

/// Appends the `n` low bits of `x`, least significant first.
pub fn push_bits_le(out: &mut Vec<bool>, x: u64, n: usize)
    requires
        n <= 64,
    ensures
        final(out)@ == old(out)@ + bits_le(x as nat, n as nat),
{
    let mut rest: u64 = x;
    let mut i: usize = 0;
    while i < n
        invariant
            i <= n,
            out@ + bits_le(rest as nat, (n - i) as nat) == old(out)@ + bits_le(x as nat, n as nat),
        decreases n - i,
    {
        let ghost before = out@;
        out.push(rest % 2 == 1);
        proof {
            let tail = bits_le((rest / 2) as nat, (n - i - 1) as nat);
            assert(bits_le(rest as nat, (n - i) as nat) == seq![rest % 2 == 1] + tail);
            assert(out@ + tail =~= before + bits_le(rest as nat, (n - i) as nat));
        }
        rest = rest / 2;
        i = i + 1;
    }
    proof {
        assert(out@ + bits_le(rest as nat, 0) =~= out@);
    }
}

/// Appends the `n` low bits of `x`, most significant first.
pub fn push_bits_be(out: &mut Vec<bool>, x: u64, n: usize)
    requires
        n <= 64,
    ensures
        final(out)@ == old(out)@ + bits_be(x as nat, n as nat),
{
    let mut le: Vec<bool> = Vec::new();
    push_bits_le(&mut le, x, n);
    proof {
        lemma_bits_le_len(x as nat, n as nat);
        assert(le@ =~= bits_le(x as nat, n as nat));
    }
    let mut i: usize = n;
    while i > 0
        invariant
            i <= n,
            le@ == bits_le(x as nat, n as nat),
            le@.len() == n,
            out@ == old(out)@ + le@.reverse().subrange(0, n - i),
        decreases i,
    {
        i = i - 1;
        let ghost before = out@;
        out.push(le[i]);
        proof {
            let rev = le@.reverse();
            assert(rev[n - i - 1] == le@[i as int]);
            assert(out@ =~= old(out)@ + rev.subrange(0, n - i));
        }
    }
    proof {
        assert(le@.reverse().subrange(0, n as int) =~= le@.reverse());
    }
}

/// Reads `n` bits, least significant first, from `bits` at `start`.
pub fn read_bits_le(bits: &Vec<bool>, start: usize, n: usize) -> (r: u64)
    requires
        n <= 64,
        start + n <= bits@.len(),
    ensures
        r as nat == value_le(bits@.subrange(start as int, start + n)),
{
    let len: usize = bits.len();
    let mut acc: u64 = 0;
    let mut i: usize = n;
    while i > 0
        invariant
            i <= n,
            n <= 64,
            start + n <= len,
            len == bits@.len(),
            acc as nat == value_le(bits@.subrange(start + i, start + n)),
        decreases i,
    {
        i = i - 1;
        proof {
            let cur = bits@.subrange(start + i, start + n);
            assert(cur.skip(1) =~= bits@.subrange(start + i + 1, start + n));
            assert(cur[0] == bits@[start + i]);
            lemma_value_bound(cur);
            lemma_pow2_le(cur.len(), 64);
            lemma2_to64();
        }
        acc = 2 * acc + (if bits[start + i] { 1 } else { 0 });
    }
    acc
}

/// Appends the `n` low bytes of `x`, least significant first.
pub fn push_bytes_le(out: &mut Vec<u8>, x: u64, n: usize)
    requires
        n <= 8,
    ensures
        final(out)@ == old(out)@ + bytes_le(x as nat, n as nat),
{
    let mut rest: u64 = x;
    let mut i: usize = 0;
    while i < n
        invariant
            i <= n,
            out@ + bytes_le(rest as nat, (n - i) as nat) == old(out)@ + bytes_le(x as nat, n as nat),
        decreases n - i,
    {
        let ghost before = out@;
        out.push((rest % 256) as u8);
        proof {
            let tail = bytes_le((rest / 256) as nat, (n - i - 1) as nat);
            assert(bytes_le(rest as nat, (n - i) as nat) == seq![(rest % 256) as u8] + tail);
            assert(out@ + tail =~= before + bytes_le(rest as nat, (n - i) as nat));
        }
        rest = rest / 256;
        i = i + 1;
    }
    proof {
        assert(out@ + bytes_le(rest as nat, 0) =~= out@);
    }
}

/// Reads `n` bytes, least significant first, from `bytes` at `start`.
pub fn read_bytes_le(bytes: &Vec<u8>, start: usize, n: usize) -> (r: u64)
    requires
        n <= 8,
        start + n <= bytes@.len(),
    ensures
        r as nat == bytes_value_le(bytes@.subrange(start as int, start + n)),
{
    let len: usize = bytes.len();
    let mut acc: u64 = 0;
    let mut i: usize = n;
    while i > 0
        invariant
            i <= n,
            n <= 8,
            start + n <= len,
            len == bytes@.len(),
            acc as nat == bytes_value_le(bytes@.subrange(start + i, start + n)),
        decreases i,
    {
        i = i - 1;
        proof {
            let cur = bytes@.subrange(start + i, start + n);
            assert(cur.skip(1) =~= bytes@.subrange(start + i + 1, start + n));
            assert(cur[0] == bytes@[start + i]);
            lemma_bytes_value_bound(cur);
            lemma_pow2_le(8 * cur.len(), 64);
            lemma2_to64();
        }
        acc = 256 * acc + (bytes[start + i] as u64);
    }
    acc
}

/// Reads `n` bits, most significant first, from `bits` at `start`.
pub fn read_bits_be(bits: &Vec<bool>, start: usize, n: usize) -> (r: u64)
    requires
        n <= 64,
        start + n <= bits@.len(),
    ensures
        r as nat == value_be(bits@.subrange(start as int, start + n)),
{
    let len: usize = bits.len();
    let mut acc: u64 = 0;
    let mut i: usize = 0;
    assert(bits@.subrange(start as int, start as int).reverse() =~= Seq::<bool>::empty());
    while i < n
        invariant
            i <= n,
            n <= 64,
            start + n <= len,
            len == bits@.len(),
            acc as nat == value_be(bits@.subrange(start as int, start + i)),
        decreases n - i,
    {
        proof {
            let before = bits@.subrange(start as int, start + i).reverse();
            let cur = bits@.subrange(start as int, start + i + 1).reverse();
            assert(cur.skip(1) =~= before);
            assert(cur[0] == bits@[start + i]);
            lemma_value_bound(cur);
            lemma_pow2_le(cur.len(), 64);
            lemma2_to64();
        }
        acc = 2 * acc + (if bits[start + i] { 1 } else { 0 });
        i = i + 1;
    }
    acc
}

/// The `n` low bits of `x`, in the order that `le` selects: least
/// significant first where it holds, most significant first where not.
pub open spec fn spec_bits(x: nat, n: nat, le: bool) -> Seq<bool> {
    if le {
        bits_le(x, n)
    } else {
        bits_be(x, n)
    }
}

/// The number that a bit string spells in the order that `le` selects.
pub open spec fn spec_value(bits: Seq<bool>, le: bool) -> nat {
    if le {
        value_le(bits)
    } else {
        value_be(bits)
    }
}

/// Reading back the bits of a number that fits in them gives the number,
/// in either order.
pub proof fn lemma_spec_value_of_bits(x: nat, n: nat, le: bool)
    requires
        x < pow2(n),
    ensures
        spec_value(spec_bits(x, n, le), le) == x,
        spec_bits(x, n, le).len() == n,
{
    lemma_bits_le_len(x, n);
    lemma_value_of_bits(x, n);
    lemma_value_of_bits_be(x, n);
}

/// A bit string spells, in either order, a number below two to the power
/// of its length.
pub proof fn lemma_spec_value_bound(bits: Seq<bool>, le: bool)
    ensures
        spec_value(bits, le) < pow2(bits.len()),
{
    lemma_value_bound(bits);
    lemma_value_bound(bits.reverse());
}

/// Appends the `n` low bits of `x` in the order that `le` selects.
pub fn push_bits(out: &mut Vec<bool>, x: u64, n: usize, le: bool)
    requires
        n <= 64,
    ensures
        final(out)@ == old(out)@ + spec_bits(x as nat, n as nat, le),
{
    if le {
        push_bits_le(out, x, n);
    } else {
        push_bits_be(out, x, n);
    }
}

/// Reads `n` bits from `bits` at `start` in the order that `le` selects.
pub fn read_bits(bits: &Vec<bool>, start: usize, n: usize, le: bool) -> (r: u64)
    requires
        n <= 64,
        start + n <= bits@.len(),
    ensures
        r as nat == spec_value(bits@.subrange(start as int, start + n), le),
{
    if le {
        read_bits_le(bits, start, n)
    } else {
        read_bits_be(bits, start, n)
    }
}

} // verus!
