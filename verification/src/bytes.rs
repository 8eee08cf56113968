//! Little-endian integers in byte sequences, and edits of byte slices.

use vstd::prelude::*;

verus! {

/// The `n` low bytes of `value`, least significant first.
pub open spec fn le_bytes(value: nat, n: nat) -> Seq<u8>
    decreases n,
{
    if n == 0 {
        Seq::empty()
    } else {
        seq![(value % 256) as u8] + le_bytes(value / 256, (n - 1) as nat)
    }
}

/// The number that `s` spells in base 256, least significant byte first.
pub open spec fn le_value(s: Seq<u8>) -> nat
    decreases s.len(),
{
    if s.len() == 0 {
        0
    } else {
        s[0] as nat + 256 * le_value(s.drop_first())
    }
}

/// `256` to the power `n`.
pub open spec fn pow256(n: nat) -> nat
    decreases n,
{
    if n == 0 {
        1
    } else {
        256 * pow256((n - 1) as nat)
    }
}

/// `s` with the bytes from `at` on replaced by `part`.
pub open spec fn splice(s: Seq<u8>, at: int, part: Seq<u8>) -> Seq<u8> {
    s.take(at) + part + s.skip(at + part.len())
}

/// The `i16` that has the two bytes `low` and `high`.
pub open spec fn le_i16(low: u8, high: u8) -> i16 {
    let value = low as int + 256 * high as int;
    if value < 0x8000 {
        value as i16
    } else {
        (value - 0x1_0000) as i16
    }
}

/// The two bytes of `sample`, least significant first.
pub open spec fn le_i16_bytes(sample: i16) -> Seq<u8> {
    let value = if sample < 0 {
        sample + 0x1_0000
    } else {
        sample as int
    };
    seq![(value % 256) as u8, (value / 256) as u8]
}

pub proof fn lemma_le_bytes_len(value: nat, n: nat)
    ensures
        le_bytes(value, n).len() == n,
    decreases n,
{
    if n > 0 {
        lemma_le_bytes_len(value / 256, (n - 1) as nat);
    }
}

/// Writing a number in `n` bytes and reading it back gives the number, as long
/// as it fits in them.
pub proof fn lemma_le_round_trip(value: nat, n: nat)
    requires
        value < pow256(n),
    ensures
        le_bytes(value, n).len() == n,
        le_value(le_bytes(value, n)) == value,
    decreases n,
{
    lemma_le_bytes_len(value, n);
    if n > 0 {
        lemma_le_round_trip(value / 256, (n - 1) as nat);
        assert(le_bytes(value, n).drop_first() =~= le_bytes(value / 256, (n - 1) as nat));
    }
}

/// Every byte sequence is the encoding of the number it spells.
pub proof fn lemma_le_value_round_trip(s: Seq<u8>)
    ensures
        le_bytes(le_value(s), s.len()) == s,
        le_value(s) < pow256(s.len()),
    decreases s.len(),
{
    if s.len() > 0 {
        let rest = s.drop_first();
        lemma_le_value_round_trip(rest);
        assert(le_value(s) % 256 == s[0] as nat);
        assert(le_value(s) / 256 == le_value(rest));
        assert(seq![s[0]] + rest =~= s);
    } else {
        assert(le_bytes(0, 0) =~= s);
    }
}

pub proof fn lemma_pow256_values()
    ensures
        pow256(0) == 1,
        pow256(1) == 0x100,
        pow256(2) == 0x1_0000,
        pow256(3) == 0x100_0000,
        pow256(4) == 0x1_0000_0000,
        pow256(5) == 0x100_0000_0000,
        pow256(6) == 0x1_0000_0000_0000,
        pow256(7) == 0x100_0000_0000_0000,
        pow256(8) == 0x1_0000_0000_0000_0000,
{
    reveal_with_fuel(pow256, 9);
}

pub proof fn lemma_i16_round_trip(sample: i16)
    ensures
        le_i16(le_i16_bytes(sample)[0], le_i16_bytes(sample)[1]) == sample,
{
}

/// The number in the `n` bytes of `bytes` from `at` on.
pub fn read_le(bytes: &[u8], at: usize, n: usize) -> (value: u64)
    requires
        n <= 8,
        at + n <= bytes@.len(),
    ensures
        value == le_value(bytes@.subrange(at as int, at + n)),
{
    let total: usize = bytes.len();
    let mut value: u64 = 0;
    let mut i: usize = n;
    proof {
        lemma_pow256_values();
        assert(bytes@.subrange(at + n, at + n).len() == 0);
    }
    while i > 0
        invariant
            n <= 8,
            i <= n,
            at + n <= total == bytes@.len(),
            value == le_value(bytes@.subrange(at + i, at + n)),
        decreases i,
    {
        proof {
            let tail = bytes@.subrange(at + i, at + n);
            let whole = bytes@.subrange(at + i - 1, at + n);
            assert(whole.drop_first() =~= tail);
            assert(whole[0] == bytes@[at + i - 1]);
            lemma_le_value_round_trip(tail);
            lemma_pow256_values();
            assert(pow256(tail.len()) <= pow256(7)) by {
                reveal_with_fuel(pow256, 9);
            }
        }
        i -= 1;
        value = bytes[at + i] as u64 + 256 * value;
    }
    value
}

/// Appends the `n` low bytes of `value` to `out`.
pub fn push_le(out: &mut Vec<u8>, value: u64, n: usize)
    ensures
        final(out)@ == old(out)@ + le_bytes(value as nat, n as nat),
{
    let mut rest: u64 = value;
    let mut i: usize = 0;
    let ghost before = out@;
    let ghost whole = le_bytes(value as nat, n as nat);
    assert(before + whole =~= out@ + le_bytes(rest as nat, n as nat));
    while i < n
        invariant
            i <= n,
            before + whole == out@ + le_bytes(rest as nat, (n - i) as nat),
        decreases n - i,
    {
        let ghost so_far = out@;
        out.push((rest % 256) as u8);
        proof {
            let tail = le_bytes((rest / 256) as nat, (n - i - 1) as nat);
            assert(so_far + (seq![(rest % 256) as u8] + tail) =~= out@ + tail);
        }
        rest = rest / 256;
        i += 1;
    }
    assert(out@ =~= before + whole);
}

/// Copies `part` into `out` from `at` on.
pub fn copy_into(out: &mut [u8], at: usize, part: &[u8])
    requires
        at + part@.len() <= old(out)@.len(),
    ensures
        final(out)@ == splice(old(out)@, at as int, part@),
{
    let total: usize = out.len();
    let mut i: usize = 0;
    let ghost before = out@;
    while i < part.len()
        invariant
            i <= part@.len(),
            at + part@.len() <= total == before.len(),
            out@.len() == before.len(),
            forall|k: int| at <= k < at + i ==> out@[k] == part@[k - at],
            forall|k: int| 0 <= k < at || at + i <= k < out@.len() ==> out@[k] == before[k],
        decreases part@.len() - i,
    {
        out[at + i] = part[i];
        i += 1;
    }
    assert(out@ =~= splice(before, at as int, part@));
}

/// Appends `part` to `out`.
pub fn append_bytes(out: &mut Vec<u8>, part: &[u8])
    ensures
        final(out)@ == old(out)@ + part@,
{
    let ghost before = out@;
    out.extend_from_slice(part);
    assert(out@ =~= before + part@);
}

/// Whether `a` and `b` hold the same bytes.
pub fn bytes_equal(a: &[u8], b: &[u8]) -> (equal: bool)
    ensures
        equal == (a@ == b@),
{
    if a.len() != b.len() {
        return false;
    }
    let mut i: usize = 0;
    while i < a.len()
        invariant
            i <= a@.len(),
            a@.len() == b@.len(),
            forall|k: int| 0 <= k < i ==> a@[k] == b@[k],
        decreases a@.len() - i,
    {
        if a[i] != b[i] {
            return false;
        }
        i += 1;
    }
    assert(a@ =~= b@);
    true
}

/// The `i16` that has the two bytes `low` and `high`.
pub fn i16_from_le(low: u8, high: u8) -> (sample: i16)
    ensures
        sample == le_i16(low, high),
{
    let value: i32 = low as i32 + 256 * (high as i32);
    if value < 0x8000 {
        value as i16
    } else {
        (value - 0x1_0000) as i16
    }
}

/// The two bytes of `sample`, least significant first.
pub fn i16_to_le(sample: i16) -> (bytes: (u8, u8))
    ensures
        le_i16_bytes(sample) == seq![bytes.0, bytes.1],
{
    let value: i32 = if sample < 0 {
        sample as i32 + 0x1_0000
    } else {
        sample as i32
    };
    ((value % 256) as u8, (value / 256) as u8)
}

/// Byte `i` of a number is its digit of weight 256 to the power of `i`, so that the
/// least significant one comes first.
pub proof fn law_bytes_are_digits(value: nat, n: nat, i: nat)
    requires
        i < n,
    ensures
        le_bytes(value, n).len() == n,
        le_bytes(value, n)[i as int] == (value / pow256(i)) % 256,
    decreases n,
{
    lemma_le_bytes_len(value, n);
    lemma_le_bytes_len(value / 256, (n - 1) as nat);
    if i > 0 {
        law_bytes_are_digits(value / 256, (n - 1) as nat, (i - 1) as nat);
        lemma_pow256_positive((i - 1) as nat);
        vstd::arithmetic::div_mod::lemma_div_denominator(
            value as int,
            256,
            pow256((i - 1) as nat) as int,
        );
        assert(le_bytes(value, n)[i as int] == le_bytes(value / 256, (n - 1) as nat)[i - 1]);
    } else {
        assert(pow256(0) == 1);
        vstd::arithmetic::div_mod::lemma_div_by_multiple(value as int, 1);
        assert(value * 1 == value) by (nonlinear_arith);
    }
}

proof fn lemma_pow256_positive(n: nat)
    ensures
        pow256(n) > 0,
    decreases n,
{
    if n > 0 {
        lemma_pow256_positive((n - 1) as nat);
    }
}

/// The first of a sample's two bytes is worth one, the second 256, and the highest bit
/// of the second takes 65536 away.
pub proof fn law_samples_are_signed_little_endian(low: u8, high: u8)
    ensures
        le_i16(low, high) == low + 256 * high - if high >= 128 {
            65_536int
        } else {
            0
        },
        le_i16_bytes(le_i16(low, high)) == seq![low, high],
{
    assert(le_i16_bytes(le_i16(low, high)) =~= seq![low, high]);
}

} // verus!
