//! The layout of an observation cache file: a 24-byte header (the magic
//! `HBSFMT\0\0`, the format version, the seed and the value count, each
//! little-endian) followed by the SFMT outputs as little-endian `u64`s.

use vstd::prelude::*;

verus! {

/// The format version written in the header.
pub const OBSERVATION_CACHE_VERSION: u32 = 1;

/// Bytes before the first value.
pub const OBSERVATION_CACHE_HEADER_SIZE: u64 = 24;

/// The magic bytes `HBSFMT\0\0`.
pub open spec fn cache_magic() -> Seq<u8> {
    seq![72u8, 66u8, 83u8, 70u8, 77u8, 84u8, 0u8, 0u8]
}

/// The `n` low bytes of `v`, least significant first.
pub open spec fn le_bytes(v: int, n: nat) -> Seq<u8>
    decreases n,
{
    if n == 0 {
        Seq::empty()
    } else {
        seq![(v % 256) as u8] + le_bytes(v / 256, (n - 1) as nat)
    }
}

/// The value of little-endian bytes.
pub open spec fn le_value(bytes: Seq<u8>) -> int
    decreases bytes.len(),
{
    if bytes.len() == 0 {
        0
    } else {
        bytes[0] + 256 * le_value(bytes.drop_first())
    }
}

/// `256` to the power `k`.
pub open spec fn pow256(k: nat) -> int
    decreases k,
{
    if k == 0 {
        1
    } else {
        256 * pow256((k - 1) as nat)
    }
}

/// The header of the cache of `seed` holding `value_count` values.
pub open spec fn header_spec(seed: u32, value_count: u64) -> Seq<u8> {
    cache_magic() + le_bytes(OBSERVATION_CACHE_VERSION as int, 4) + le_bytes(seed as int, 4) + le_bytes(
        value_count as int,
        8,
    )
}

/// The bytes of `values`, each as 8 little-endian bytes, in order.
pub open spec fn values_bytes(values: Seq<u64>) -> Seq<u8>
    decreases values.len(),
{
    if values.len() == 0 {
        Seq::empty()
    } else {
        values_bytes(values.drop_last()) + le_bytes(values.last() as int, 8)
    }
}

/// Appends the `n` low bytes of `v`, least significant first.
fn push_le(out: &mut Vec<u8>, v: u64, n: usize)
    ensures
        final(out)@ == old(out)@ + le_bytes(v as int, n as nat),
{
    let ghost start = out@;
    let mut x = v;
    let mut i: usize = 0;
    while i < n
        invariant
            i <= n,
            start + le_bytes(v as int, n as nat) == out@ + le_bytes(x as int, (n - i) as nat),
        decreases n - i,
    {
        let ghost before = out@;
        proof {
            assert(le_bytes(x as int, (n - i) as nat) == seq![(x % 256) as u8] + le_bytes(
                (x / 256) as int,
                (n - i - 1) as nat,
            ));
            assert(before + (seq![(x % 256) as u8] + le_bytes((x / 256) as int, (n - i - 1) as nat)) =~= before.push(
                (x % 256) as u8,
            ) + le_bytes((x / 256) as int, (n - i - 1) as nat));
        }
        out.push((x % 256) as u8);
        x = x / 256;
        i = i + 1;
    }
    proof {
        assert(out@ + le_bytes(x as int, 0) =~= out@);
    }
}

/// The header of the cache of `seed` holding `value_count` values.
pub fn observation_cache_header(seed: u32, value_count: u64) -> (r: Vec<u8>)
    ensures
        r@ == header_spec(seed, value_count),
        r@.len() == OBSERVATION_CACHE_HEADER_SIZE,
{
    let mut out: Vec<u8> = Vec::new();
    out.push(72);
    out.push(66);
    out.push(83);
    out.push(70);
    out.push(77);
    out.push(84);
    out.push(0);
    out.push(0);
    assert(out@ =~= cache_magic());
    push_le(&mut out, OBSERVATION_CACHE_VERSION as u64, 4);
    push_le(&mut out, seed as u64, 4);
    push_le(&mut out, value_count, 8);
    proof {
        reveal_with_fuel(le_bytes, 9);
        assert(out@ =~= header_spec(seed, value_count));
    }
    out
}

/// Whether `bytes` is exactly the header of the cache of `seed` holding
/// `value_count` values.
pub fn header_matches(bytes: &[u8], seed: u32, value_count: u64) -> (r: bool)
    ensures
        r == (bytes@ == header_spec(seed, value_count)),
{
    let expected = observation_cache_header(seed, value_count);
    if bytes.len() != expected.len() {
        return false;
    }
    let mut i: usize = 0;
    while i < bytes.len()
        invariant
            i <= bytes@.len(),
            bytes@.len() == expected@.len(),
            expected@ == header_spec(seed, value_count),
            forall|j: int| 0 <= j < i ==> bytes@[j] == expected@[j],
        decreases bytes@.len() - i,
    {
        if bytes[i] != expected[i] {
            return false;
        }
        i = i + 1;
    }
    assert(bytes@ =~= expected@);
    true
}

/// The size of a complete cache file of `value_count` values, when it fits
/// in 64 bits.
pub fn cache_file_size(value_count: u64) -> (r: Option<u64>)
    ensures
        OBSERVATION_CACHE_HEADER_SIZE + 8 * value_count <= u64::MAX ==> r == Some(
            (OBSERVATION_CACHE_HEADER_SIZE + 8 * value_count) as u64,
        ),
        OBSERVATION_CACHE_HEADER_SIZE + 8 * value_count > u64::MAX ==> r is None,
{
    if value_count > (u64::MAX - OBSERVATION_CACHE_HEADER_SIZE) / 8 {
        return None;
    }
    Some(OBSERVATION_CACHE_HEADER_SIZE + 8 * value_count)
}

/// The bytes that store `values`, in order.
pub fn encode_values(values: &[u64]) -> (r: Vec<u8>)
    ensures
        r@ == values_bytes(values@),
{
    let mut out: Vec<u8> = Vec::new();
    let mut i: usize = 0;
    while i < values.len()
        invariant
            i <= values@.len(),
            out@ == values_bytes(values@.subrange(0, i as int)),
        decreases values@.len() - i,
    {
        proof {
            assert(values@.subrange(0, i + 1).drop_last() =~= values@.subrange(0, i as int));
        }
        push_le(&mut out, values[i], 8);
        i = i + 1;
    }
    proof {
        assert(values@.subrange(0, values@.len() as int) =~= values@);
    }
    out
}

proof fn lemma_le_roundtrip(bytes: Seq<u8>)
    ensures
        0 <= le_value(bytes),
        le_value(bytes) < pow256(bytes.len()),
        le_bytes(le_value(bytes), bytes.len()) == bytes,
    decreases bytes.len(),
{
    if bytes.len() > 0 {
        let rest = bytes.drop_first();
        lemma_le_roundtrip(rest);
        let y = le_value(rest);
        let b = bytes[0] as int;
        let x = b + 256 * y;
        assert(x % 256 == b && x / 256 == y) by (nonlinear_arith)
            requires
                x == b + 256 * y,
                0 <= b < 256,
                0 <= y,
        ;
        let p = pow256(rest.len());
        assert(pow256(bytes.len()) == 256 * p);
        assert(x < 256 * p) by (nonlinear_arith)
            requires
                x == b + 256 * y,
                0 <= b < 256,
                y < p,
                0 <= y,
        ;
        assert(le_bytes(x, bytes.len()) =~= seq![b as u8] + le_bytes(y, rest.len()));
        assert(seq![bytes[0]] + rest =~= bytes);
    }
}

/// The value of 8 little-endian bytes starting at `at`.
fn read_u64_le(bytes: &[u8], at: usize) -> (r: u64)
    requires
        at + 8 <= bytes@.len(),
    ensures
        le_bytes(r as int, 8) == bytes@.subrange(at as int, at + 8),
{
    let ghost chunk = bytes@.subrange(at as int, at + 8);
    let total = bytes.len();
    let mut x: u64 = 0;
    let mut k: usize = 8;
    while k > 0
        invariant
            k <= 8,
            at + 8 <= bytes@.len(),
            total == bytes@.len(),
            chunk == bytes@.subrange(at as int, at + 8),
            x as int == le_value(chunk.subrange(k as int, 8)),
            x < pow256((8 - k) as nat),
        decreases k,
    {
        let b = bytes[at + k - 1];
        let ghost tail = chunk.subrange(k as int, 8);
        let ghost longer = chunk.subrange(k - 1, 8);
        proof {
            assert(longer.drop_first() =~= tail);
            assert(longer[0] == b);
            lemma_le_roundtrip(tail);
            let p = pow256((8 - k) as nat);
            assert(pow256((8 - k + 1) as nat) == 256 * p);
            assert(p <= 0x100000000000000) by {
                reveal_with_fuel(pow256, 8);
            }
            assert(b + 256 * x < 256 * p) by (nonlinear_arith)
                requires
                    0 <= b < 256,
                    x < p,
            ;
        }
        x = b as u64 + 256 * x;
        k = k - 1;
    }
    proof {
        assert(chunk.subrange(0, 8) =~= chunk);
        lemma_le_roundtrip(chunk);
    }
    x
}

/// The values stored in `bytes`, 8 bytes each; trailing bytes that do not
/// make a whole value are ignored.
pub fn decode_values(bytes: &[u8]) -> (r: Vec<u64>)
    ensures
        r@.len() == bytes@.len() / 8,
        forall|i: int|
            0 <= i < r@.len() ==> le_bytes(#[trigger] r@[i] as int, 8) == bytes@.subrange(8 * i, 8 * i + 8),
{
    let n = bytes.len() / 8;
    let mut out: Vec<u64> = Vec::new();
    let mut i: usize = 0;
    while i < n
        invariant
            n == bytes@.len() / 8,
            bytes@.len() <= usize::MAX,
            i <= n,
            out@.len() == i,
            forall|j: int| 0 <= j < i ==> le_bytes(#[trigger] out@[j] as int, 8) == bytes@.subrange(8 * j, 8 * j + 8),
        decreases n - i,
    {
        out.push(read_u64_le(bytes, 8 * i));
        i = i + 1;
    }
    out
}

} // verus!
