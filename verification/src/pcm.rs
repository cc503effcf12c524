//! Little-endian integers, and signed 16-bit little-endian PCM: the model that
//! relates its bytes to its samples, reading and writing.

use vstd::prelude::*;

verus! {

/// The sample rate of all audio that is sent.
pub const TARGET_RATE: u32 = 16_000;

/// The 16-bit number at `i`, low byte first.
pub open spec fn le16(bytes: Seq<u8>, i: int) -> int {
    bytes[i] + 256 * bytes[i + 1]
}

/// The 32-bit number at `i`, low byte first.
pub open spec fn le32(bytes: Seq<u8>, i: int) -> int {
    le16(bytes, i) + 65536 * le16(bytes, i + 2)
}

/// The two bytes of a 16-bit number, low byte first.
pub open spec fn le16_bytes(n: int) -> Seq<u8> {
    seq![(n % 256) as u8, (n / 256 % 256) as u8]
}

/// The four bytes of a 32-bit number, low byte first.
pub open spec fn le32_bytes(n: int) -> Seq<u8> {
    le16_bytes(n % 65536) + le16_bytes(n / 65536)
}

/// A 16-bit number is read back from the bytes it was written as.
pub proof fn law_le16_round_trip(n: int)
    requires
        0 <= n < 0x1_0000,
    ensures
        le16_bytes(n).len() == 2,
        le16(le16_bytes(n), 0) == n,
{
}

/// A 32-bit number is read back from the bytes it was written as.
pub proof fn law_le32_round_trip(n: int)
    requires
        0 <= n < 0x1_0000_0000,
    ensures
        le32_bytes(n).len() == 4,
        le32(le32_bytes(n), 0) == n,
{
    let low = n % 65536;
    let high = n / 65536;
    law_le16_round_trip(low);
    law_le16_round_trip(high);
    let b = le32_bytes(n);
    assert(b[0] == le16_bytes(low)[0] && b[1] == le16_bytes(low)[1]);
    assert(b[2] == le16_bytes(high)[0] && b[3] == le16_bytes(high)[1]);
}

/// Reads the 16-bit number at `i`.
pub fn read_le16(bytes: &[u8], i: usize) -> (r: u16)
    requires
        i + 2 <= bytes.len(),
    ensures
        r == le16(bytes@, i as int),
{
    bytes[i] as u16 + 256 * (bytes[i + 1] as u16)
}

/// Reads the 32-bit number at `i`.
pub fn read_le32(bytes: &[u8], i: usize) -> (r: u32)
    requires
        i + 4 <= bytes.len(),
    ensures
        r == le32(bytes@, i as int),
{
    read_le16(bytes, i) as u32 + 65536 * (read_le16(bytes, i + 2) as u32)
}

/// Concatenation is associative.
pub(crate) proof fn lemma_concat(a: Seq<u8>, b: Seq<u8>, c: Seq<u8>)
    ensures
        a + b + c == a + (b + c),
{
    assert(a + b + c =~= a + (b + c));
}

/// Appends a 16-bit number, low byte first.
pub fn push_le16(out: &mut Vec<u8>, n: u16)
    ensures
        final(out)@ == old(out)@ + le16_bytes(n as int),
{
    out.push((n % 256) as u8);
    out.push((n / 256) as u8);
    assert(out@ =~= old(out)@ + le16_bytes(n as int));
}

/// Appends a 32-bit number, low byte first.
pub fn push_le32(out: &mut Vec<u8>, n: u32)
    ensures
        final(out)@ == old(out)@ + le32_bytes(n as int),
{
    push_le16(out, (n % 65536) as u16);
    push_le16(out, (n / 65536) as u16);
    proof {
        lemma_concat(old(out)@, le16_bytes(n as int % 65536), le16_bytes(n as int / 65536));
    }
}

/// The signed value of a 16-bit two's complement number.
pub open spec fn signed16(n: int) -> int {
    if n < 32768 {
        n
    } else {
        n - 65536
    }
}

/// The 16-bit two's complement number of a signed value.
pub open spec fn unsigned16(v: int) -> int {
    if v >= 0 {
        v
    } else {
        v + 65536
    }
}

/// The samples of `pcm`. A byte left over at the end belongs to no sample.
pub open spec fn samples(pcm: Seq<u8>) -> Seq<i16> {
    Seq::new(pcm.len() / 2, |i: int| signed16(le16(pcm, 2 * i)) as i16)
}

/// The bytes of `samples`.
pub open spec fn pcm_bytes(samples: Seq<i16>) -> Seq<u8> {
    Seq::new(
        2 * samples.len(),
        |i: int| le16_bytes(unsigned16(samples[i / 2] as int))[i % 2],
    )
}

/// A byte left over behind whole samples makes no sample.
pub proof fn law_odd_byte_makes_no_sample(pcm: Seq<u8>, x: u8)
    requires
        pcm.len() % 2 == 0,
    ensures
        samples(pcm.push(x)) == samples(pcm),
{
    assert(samples(pcm.push(x)) =~= samples(pcm));
}

/// Reading the samples of written samples gives them back.
pub proof fn law_samples_of_written_pcm(s: Seq<i16>)
    ensures
        samples(pcm_bytes(s)) == s,
{
    let b = pcm_bytes(s);
    assert forall|i: int| 0 <= i < s.len() implies samples(b)[i] == s[i] by {
        let n = unsigned16(s[i] as int);
        assert((2 * i) / 2 == i && (2 * i) % 2 == 0 && (2 * i + 1) / 2 == i && (2 * i + 1) % 2
            == 1);
        assert(b[2 * i] == (n % 256) as u8);
        assert(b[2 * i + 1] == (n / 256 % 256) as u8);
    }
    assert(samples(b) =~= s);
}

/// Writing the samples of PCM with whole samples gives its bytes back.
pub proof fn law_written_samples_of_pcm(pcm: Seq<u8>)
    requires
        pcm.len() % 2 == 0,
    ensures
        pcm_bytes(samples(pcm)) == pcm,
{
    let s = samples(pcm);
    assert forall|i: int| 0 <= i < pcm.len() implies pcm_bytes(s)[i] == pcm[i] by {
        let k = i / 2;
        let n = le16(pcm, 2 * k);
        assert(unsigned16(s[k] as int) == n);
        assert(i == 2 * k || i == 2 * k + 1);
    }
    assert(pcm_bytes(s) =~= pcm);
}

/// Appends one sample to PCM bytes.
proof fn lemma_pcm_bytes_push(s: Seq<i16>, v: i16)
    ensures
        pcm_bytes(s.push(v)) == pcm_bytes(s) + le16_bytes(unsigned16(v as int)),
{
    assert(pcm_bytes(s.push(v)) =~= pcm_bytes(s) + le16_bytes(unsigned16(v as int)));
}

/// Reads sample `i`.
fn sample_at(pcm: &[u8], i: usize) -> (r: i16)
    requires
        i < pcm.len() / 2,
    ensures
        r == samples(pcm@)[i as int],
{
    let n: u16 = read_le16(pcm, 2 * i);
    if n < 32768 {
        n as i16
    } else {
        (n as i32 - 65536) as i16
    }
}

/// Reads all samples of `pcm`.
pub fn decode_samples(pcm: &[u8]) -> (r: Vec<i16>)
    ensures
        r@ == samples(pcm@),
{
    let count: usize = pcm.len() / 2;
    let mut out: Vec<i16> = Vec::with_capacity(count);
    let mut i: usize = 0;
    while i < count
        invariant
            i <= count == pcm@.len() / 2,
            out@ == samples(pcm@).take(i as int),
        decreases count - i,
    {
        out.push(sample_at(pcm, i));
        i += 1;
        assert(out@ =~= samples(pcm@).take(i as int));
    }
    assert(out@ =~= samples(pcm@));
    out
}

/// Appends the bytes of one sample.
pub(crate) fn push_sample(out: &mut Vec<u8>, Ghost(s): Ghost<Seq<i16>>, v: i16)
    requires
        old(out)@ == pcm_bytes(s),
    ensures
        final(out)@ == pcm_bytes(s.push(v)),
{
    let n: u16 = if v >= 0 {
        v as u16
    } else {
        (v as i32 + 65536) as u16
    };
    push_le16(out, n);
    proof {
        lemma_pcm_bytes_push(s, v);
    }
}

/// `a` divided by a positive `b`, rounded toward zero.
pub open spec fn quotient(a: int, b: int) -> int {
    if a >= 0 {
        a / b
    } else {
        -((-a) / b)
    }
}

/// Divides, rounding toward zero.
pub(crate) fn divide(a: i64, b: i64) -> (r: i64)
    requires
        b > 0,
        a > i64::MIN,
    ensures
        r == quotient(a as int, b as int),
{
    if a >= 0 {
        (a as u64 / b as u64) as i64
    } else {
        -(((-a) as u64 / b as u64) as i64)
    }
}

/// The numbers at `i`: each byte counts 256 times as much as the one before it.
pub proof fn law_low_byte_comes_first(bytes: Seq<u8>, i: int)
    ensures
        le16(bytes, i) == bytes[i] + 0x100 * bytes[i + 1],
        le32(bytes, i) == bytes[i] + 0x100 * bytes[i + 1] + 0x1_0000 * bytes[i + 2] + 0x100_0000
            * bytes[i + 3],
{
}

/// PCM has one sample for every two bytes, in order: the number that they are,
/// low byte first, less 65536 where its top bit is set.
pub proof fn law_samples_in_order(pcm: Seq<u8>)
    ensures
        samples(pcm).len() == pcm.len() / 2,
        forall|i: int|
            0 <= i < pcm.len() / 2 && pcm[2 * i + 1] < 0x80 ==> #[trigger] samples(pcm)[i] == pcm[2
                * i] + 0x100 * pcm[2 * i + 1],
        forall|i: int|
            0 <= i < pcm.len() / 2 && pcm[2 * i + 1] >= 0x80 ==> #[trigger] samples(pcm)[i] == pcm[2
                * i] + 0x100 * pcm[2 * i + 1] - 0x1_0000,
{
}

/// A quotient is the number nearest to the exact one that is not farther from
/// zero.
pub proof fn law_quotient(a: int, b: int)
    requires
        b > 0,
    ensures
        a >= 0 ==> 0 <= quotient(a, b) * b <= a < (quotient(a, b) + 1) * b,
        a <= 0 ==> (quotient(a, b) - 1) * b < a <= quotient(a, b) * b <= 0,
{
    let m = if a >= 0 {
        a
    } else {
        -a
    };
    let q = m / b;
    assert(0 <= q * b <= m < (q + 1) * b) by (nonlinear_arith)
        requires
            b > 0,
            m >= 0,
            q == m / b,
    ;
    assert((-q) * b == -(q * b) && (-q - 1) * b == -((q + 1) * b)) by (nonlinear_arith);
    if a == 0 {
        assert(quotient(a, b) == 0) by (nonlinear_arith)
            requires
                b > 0,
                a == 0,
                quotient(a, b) == a / b,
        ;
        assert((0 - 1) * b == -b) by (nonlinear_arith);
    }
}

} // verus!
