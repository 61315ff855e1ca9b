//! Bit strings held in byte strings.
//!
//! Bits are numbered from the most significant bit of the first byte, so the bit string of a byte
//! string reads from left to right. A field is a range of that bit string, and its value is the
//! number that the range spells in binary.
use vstd::arithmetic::power2;
use vstd::prelude::*;

verus! {

/// Bit `i` of the byte string `s`.
pub open spec fn bit(s: Seq<u8>, i: int) -> bool {
    (s[i / 8] >> ((7 - i % 8) as u8)) & 1u8 == 1u8
}

/// The number that the bits `start..end` of `s` spell, most significant bit first.
pub open spec fn bits_value(s: Seq<u8>, start: int, end: int) -> nat
    decreases end - start,
{
    if end <= start {
        0
    } else {
        2 * bits_value(s, start, end - 1) + (if bit(s, end - 1) {
            1nat
        } else {
            0nat
        })
    }
}

/// The largest number that `n` bits can spell, for `n` up to 32. It is also the mask that keeps
/// the lowest `n` bits of a number.
pub open spec fn low_mask(n: int) -> u32 {
    (power2::pow2(n as nat) - 1) as u32
}

/// Bit `k` of the word `w`, counted from its least significant bit.
pub open spec fn word_bit(w: u64, k: int) -> bool {
    (w >> (k as u64)) & 1u64 == 1u64
}

/// Whether the lowest bits of `w` spell the bytes `first..first + len` of `s`.
pub open spec fn word_spells(w: u64, s: Seq<u8>, first: int, len: int) -> bool {
    forall|k: int|
        0 <= k < 8 * len ==> #[trigger] word_bit(w, k) == bit(s, 8 * (first + len) - 1 - k)
}

/// Equal bits spell equal numbers.
pub proof fn lemma_bits_value_frame(s: Seq<u8>, t: Seq<u8>, start: int, end: int, shift: int)
    requires
        forall|i: int| start <= i < end ==> bit(s, i) == bit(t, i + shift),
    ensures
        bits_value(s, start, end) == bits_value(t, start + shift, end + shift),
    decreases end - start,
{
    if start < end {
        lemma_bits_value_frame(s, t, start, end - 1, shift);
        assert(bit(s, end - 1) == bit(t, end - 1 + shift));
        assert(end + shift - 1 == end - 1 + shift);
    }
}

/// `n` bits spell a number below two to the power of `n`.
pub proof fn lemma_bits_value_bound(s: Seq<u8>, start: int, end: int)
    requires
        start <= end,
    ensures
        bits_value(s, start, end) < power2::pow2((end - start) as nat),
    decreases end - start,
{
    if start < end {
        lemma_bits_value_bound(s, start, end - 1);
        power2::lemma_pow2_unfold((end - start) as nat);
    } else {
        power2::lemma2_to64();
    }
}

/// Zero bytes spell zero.
pub proof fn lemma_bits_value_zero(s: Seq<u8>, start: int, end: int)
    requires
        0 <= start,
        end <= 8 * s.len(),
        forall|i: int| 0 <= i < s.len() ==> s[i] == 0u8,
    ensures
        bits_value(s, start, end) == 0,
    decreases end - start,
{
    if start < end {
        lemma_bits_value_zero(s, start, end - 1);
        let o = (7 - (end - 1) % 8) as u8;
        assert((0u8 >> o) & 1u8 == 0u8) by (bit_vector);
    }
}

/// Equal numbers are spelled by equal bits.
pub proof fn lemma_bits_value_injective(s: Seq<u8>, t: Seq<u8>, start: int, end: int, i: int)
    requires
        bits_value(s, start, end) == bits_value(t, start, end),
        start <= i < end,
    ensures
        bit(s, i) == bit(t, i),
    decreases end - start,
{
    assert(bit(s, end - 1) == bit(t, end - 1));
    if i < end - 1 {
        lemma_bits_value_injective(s, t, start, end - 1, i);
    }
}

/// Bytes are equal if all their bits are.
pub proof fn lemma_equal_bits(s: Seq<u8>, t: Seq<u8>)
    requires
        s.len() == t.len(),
        forall|i: int| 0 <= i < 8 * s.len() ==> #[trigger] bit(s, i) == bit(t, i),
    ensures
        s == t,
{
    assert forall|k: int| 0 <= k < s.len() implies s[k] == t[k] by {
        let a = s[k];
        let b = t[k];
        assert(bit(s, 8 * k) == bit(t, 8 * k));
        assert(bit(s, 8 * k + 1) == bit(t, 8 * k + 1));
        assert(bit(s, 8 * k + 2) == bit(t, 8 * k + 2));
        assert(bit(s, 8 * k + 3) == bit(t, 8 * k + 3));
        assert(bit(s, 8 * k + 4) == bit(t, 8 * k + 4));
        assert(bit(s, 8 * k + 5) == bit(t, 8 * k + 5));
        assert(bit(s, 8 * k + 6) == bit(t, 8 * k + 6));
        assert(bit(s, 8 * k + 7) == bit(t, 8 * k + 7));
        assert(a == b) by (bit_vector)
            requires
                ((a >> 7u8) & 1u8 == 1u8) == ((b >> 7u8) & 1u8 == 1u8),
                ((a >> 6u8) & 1u8 == 1u8) == ((b >> 6u8) & 1u8 == 1u8),
                ((a >> 5u8) & 1u8 == 1u8) == ((b >> 5u8) & 1u8 == 1u8),
                ((a >> 4u8) & 1u8 == 1u8) == ((b >> 4u8) & 1u8 == 1u8),
                ((a >> 3u8) & 1u8 == 1u8) == ((b >> 3u8) & 1u8 == 1u8),
                ((a >> 2u8) & 1u8 == 1u8) == ((b >> 2u8) & 1u8 == 1u8),
                ((a >> 1u8) & 1u8 == 1u8) == ((b >> 1u8) & 1u8 == 1u8),
                ((a >> 0u8) & 1u8 == 1u8) == ((b >> 0u8) & 1u8 == 1u8),
        ;
    }
    assert(s =~= t);
}

/// For up to 32 bits the mask is a run of ones.
pub proof fn lemma_low_mask(n: u64)
    requires
        n <= 32,
    ensures
        (1u64 << n) == power2::pow2(n as nat),
        low_mask(n as int) as int == power2::pow2(n as nat) - 1,
        low_mask(n as int) == ((1u64 << n) - 1) as u32,
        low_mask(n as int) as u64 == (1u64 << n) - 1,
{
    power2::lemma2_to64();
    vstd::bits::lemma_u64_shl_is_mul(1, n);
    vstd::arithmetic::power2::lemma_pow2_pos(n as nat);
    assert(1u64 << n <= 0x1_0000_0000u64) by (bit_vector)
        requires
            n <= 32,
    ;
}

/// Masking keeps a number that fits, and leaves no number above the mask.
pub proof fn lemma_mask_value(v: u32, n: u64)
    requires
        n <= 32,
    ensures
        v & low_mask(n as int) <= low_mask(n as int),
        v <= low_mask(n as int) ==> v & low_mask(n as int) == v,
{
    lemma_low_mask(n);
    let m = low_mask(n as int);
    assert(v & m <= m) by (bit_vector);
    if v <= m {
        assert(v & m == v) by (bit_vector)
            requires
                n <= 32,
                m == ((1u64 << n) - 1) as u32,
                v <= m,
        ;
    }
}

proof fn lemma_push_byte(acc: u64, b: u8, k: int)
    requires
        0 <= k < 64,
    ensures
        word_bit((acc << 8u64) | (b as u64), k) == (if k < 8 {
            (b >> (k as u8)) & 1u8 == 1u8
        } else {
            word_bit(acc, k - 8)
        }),
{
    let k64 = k as u64;
    let k8 = k as u8;
    if k < 8 {
        assert((((acc << 8u64) | (b as u64)) >> k64) & 1u64 == 1u64 <==> (b >> k8) & 1u8 == 1u8)
            by (bit_vector)
            requires
                k64 < 8,
                k64 == k8 as u64,
        ;
    } else {
        let j = (k - 8) as u64;
        assert((((acc << 8u64) | (b as u64)) >> k64) & 1u64 == (acc >> j) & 1u64) by (bit_vector)
            requires
                8 <= k64 < 64,
                j == k64 - 8,
        ;
    }
}

/// Reads the bytes `first..first + len` as one number, most significant byte first.
pub fn read_word(data: &[u8], first: usize, len: usize) -> (word: u64)
    requires
        len <= 8,
        first + len <= data@.len(),
    ensures
        word_spells(word, data@, first as int, len as int),
{
    let total: usize = data.len();
    let mut word: u64 = 0;
    let mut i: usize = 0;
    while i < len
        invariant
            i <= len <= 8,
            first + len <= total == data@.len(),
            word_spells(word, data@, first as int, i as int),
        decreases len - i,
    {
        let ghost before = word;
        let b: u8 = data[first + i];
        word = (word << 8u64) | (b as u64);
        proof {
            assert forall|k: int| 0 <= k < 8 * (i + 1) implies #[trigger] word_bit(word, k) == bit(
                data@,
                8 * (first + i + 1) - 1 - k,
            ) by {
                lemma_push_byte(before, b, k);
                let p = 8 * (first + i + 1) - 1 - k;
                if k < 8 {
                    assert(p / 8 == first + i);
                    assert(p % 8 == 7 - k);
                } else {
                    assert(word_bit(before, k - 8) == bit(data@, 8 * (first + i) - 1 - (k - 8)));
                }
            }
        }
        i = i + 1;
    }
    word
}

proof fn lemma_byte_of_word(w: u64, m: int, t: int)
    requires
        0 <= m < 8,
        0 <= t < 8,
    ensures
        (((w >> ((8 * m) as u64)) as u8) >> (t as u8)) & 1u8 == 1u8 <==> word_bit(w, 8 * m + t),
{
    let s = (8 * m) as u64;
    let t8 = t as u8;
    let k = (8 * m + t) as u64;
    assert((((w >> s) as u8) >> t8) & 1u8 == 1u8 <==> (w >> k) & 1u64 == 1u64) by (bit_vector)
        requires
            s <= 56,
            t8 < 8,
            k == s + t8 as u64,
    ;
}

/// Writes the lowest `len` bytes of a number over the bytes `first..first + len`, most significant
/// byte first.
pub fn write_word(data: &mut [u8], first: usize, len: usize, word: u64)
    requires
        len <= 8,
        first + len <= old(data)@.len(),
    ensures
        final(data)@.len() == old(data)@.len(),
        word_spells(word, final(data)@, first as int, len as int),
        forall|i: int|
            0 <= i < old(data)@.len() && !(first <= i < first + len) ==> final(data)@[i] == old(
                data,
            )@[i],
{
    let total: usize = data.len();
    let mut i: usize = 0;
    while i < len
        invariant
            i <= len <= 8,
            first + len <= total == data@.len(),
            data@.len() == old(data)@.len(),
            forall|j: int|
                0 <= j < i ==> #[trigger] data@[first + j] == (word >> ((8 * (len - 1 - j))
                    as u64)) as u8,
            forall|j: int|
                0 <= j < data@.len() && !(first <= j < first + i) ==> data@[j] == old(data)@[j],
        decreases len - i,
    {
        let shift: u64 = 8 * ((len - 1 - i) as u64);
        let b: u8 = #[verifier::truncate] ((word >> shift) as u8);
        data[first + i] = b;
        i = i + 1;
    }
    proof {
        assert forall|k: int| 0 <= k < 8 * len implies #[trigger] word_bit(word, k) == bit(
            data@,
            8 * (first + len) - 1 - k,
        ) by {
            let m = k / 8;
            let t = k % 8;
            lemma_byte_of_word(word, m, t);
            let p = 8 * (first + len) - 1 - k;
            let j = len - 1 - m;
            assert(p / 8 == first + j);
            assert(p % 8 == 7 - t);
            assert(data@[first + j] == (word >> ((8 * (len - 1 - j)) as u64)) as u8);
        }
    }
}

proof fn lemma_word_step(w: u64, t: u64, p: u64)
    by (bit_vector)
    requires
        p < 40,
        t < 64,
    ensures
        (w >> t) & (((1u64 << ((p + 1) as u64)) - 1) as u64) == 2 * ((w >> ((t + 1) as u64)) & (((
        1u64 << p) - 1) as u64)) + ((w >> t) & 1u64),
{
}

/// The value of the first bits of a field, read off the word that spells its bytes.
proof fn lemma_word_value_prefix(
    w: u64,
    s: Seq<u8>,
    first: int,
    len: int,
    start: int,
    end: int,
    p: int,
)
    requires
        word_spells(w, s, first, len),
        0 <= first,
        0 <= len <= 8,
        8 * first <= start,
        start <= end <= 8 * (first + len),
        end - start <= 32,
        0 <= p <= end - start,
    ensures
        bits_value(s, start, start + p) == (w >> ((8 * (first + len) - start - p) as u64)) & (((1u64
            << (p as u64)) - 1) as u64),
    decreases p,
{
    let t = 8 * (first + len) - start - p;
    if p == 0 {
        let t64 = t as u64;
        assert((w >> t64) & (((1u64 << 0u64) - 1) as u64) == 0u64) by (bit_vector);
    } else {
        lemma_word_value_prefix(w, s, first, len, start, end, p - 1);
        lemma_word_step(w, t as u64, (p - 1) as u64);
        assert(word_bit(w, t) == bit(s, 8 * (first + len) - 1 - t));
        let t64 = t as u64;
        assert((w >> t64) & 1u64 == 0u64 || (w >> t64) & 1u64 == 1u64) by (bit_vector);
        assert(start + p - 1 == 8 * (first + len) - 1 - t);
    }
}

/// The value of a field, read off the word that spells its bytes by masking and shifting.
pub proof fn lemma_word_value(
    w: u64,
    s: Seq<u8>,
    first: int,
    len: int,
    start: int,
    end: int,
    mask: u64,
    shift: u64,
)
    requires
        word_spells(w, s, first, len),
        0 <= first,
        0 <= len <= 8,
        8 * first <= start,
        start <= end <= 8 * (first + len),
        end - start <= 32,
        shift == 8 * (first + len) - end,
        shift < 8,
        mask == ((((1u64 << ((end - start) as u64)) - 1) as u64) << shift),
    ensures
        (w & mask) >> shift == bits_value(s, start, end),
{
    lemma_word_value_prefix(w, s, first, len, start, end, end - start);
    let n = (end - start) as u64;
    assert((w & mask) >> shift == (w >> shift) & (((1u64 << n) - 1) as u64)) by (bit_vector)
        requires
            n <= 32,
            shift < 8,
            mask == ((((1u64 << n) - 1) as u64) << shift),
    ;
}

/// Replacing the masked bits of a word leaves the others as they were.
pub proof fn lemma_replaced_bit(w: u64, v: u64, mask: u64, shift: u64, n: u64, k: int)
    requires
        n <= 32,
        shift < 8,
        mask == ((((1u64 << n) - 1) as u64) << shift),
        v <= ((1u64 << n) - 1),
        0 <= k < 64,
    ensures
        !(shift <= k < shift + n) ==> word_bit((w & !mask) | (v << shift), k) == word_bit(w, k),
        (((w & !mask) | (v << shift)) & mask) >> shift == v,
{
    let k64 = k as u64;
    if !(shift <= k < shift + n) {
        assert((((w & !mask) | (v << shift)) >> k64) & 1u64 == (w >> k64) & 1u64) by (bit_vector)
            requires
                n <= 32,
                shift < 8,
                mask == ((((1u64 << n) - 1) as u64) << shift),
                v <= (((1u64 << n) - 1) as u64),
                k64 < 64,
                k64 < shift || k64 >= shift + n,
        ;
    }
    assert((((w & !mask) | (v << shift)) & mask) >> shift == v) by (bit_vector)
        requires
            n <= 32,
            shift < 8,
            mask == ((((1u64 << n) - 1) as u64) << shift),
            v <= (((1u64 << n) - 1) as u64),
    ;
}

} // verus!
