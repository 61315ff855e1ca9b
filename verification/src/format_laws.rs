//! What bits, bytes and configurations are, in plain arithmetic, and what an export looks like byte
//! by byte.
use crate::associated_data::AccessError;
use crate::bits;
use crate::bucket;
use crate::bytes;
use crate::config::{
    BitCount, ConfigError, CounterConfig, CuckooConfiguration, CuckooConfigurationBuilder,
    LruAgingStrategy, LruConfig, TtlConfig,
};
use crate::data_block;
use crate::data_block::{DataBlockFieldConfiguration, Fingerprint};
use crate::error::Error;
use crate::exporter;
use crate::exporter::{
    ExportError, Exportable, ExportableBuildHasher, ExportableRandomState, Fault, ImportError,
};
use crate::filter::CuckooFilter;
use crate::fuzz::{AgingStrategy, CuckooConf};
use crate::numbers;
use crate::numbers::{NonZeroU32, NonZeroUsize};
use std::hash::BuildHasher;
use std::num::TryFromIntError;
use vstd::arithmetic::power2;
use vstd::prelude::*;
use vstd::std_specs::convert::{FromSpec, TryFromSpec};
use vstd::std_specs::ops::AddSpec;
use vstd::utf8;

verus! {

/// Eight bits from the start of a byte spell that byte.
pub proof fn law_bytes_are_eight_bits(s: Seq<u8>, i: int)
    requires
        0 <= i < s.len(),
    ensures
        bits::bits_value(s, 8 * i, 8 * i + 8) == s[i],
{
    reveal_with_fuel(bits::bits_value, 9);
    let b = s[i];
    assert(b == 128 * ((b >> 7u8) & 1u8) + 64 * ((b >> 6u8) & 1u8) + 32 * ((b >> 5u8) & 1u8) + 16 * (
    (b >> 4u8) & 1u8) + 8 * ((b >> 3u8) & 1u8) + 4 * ((b >> 2u8) & 1u8) + 2 * ((b >> 1u8) & 1u8) + ((
    b >> 0u8) & 1u8)) by (bit_vector);
    assert((b >> 7u8) & 1u8 <= 1 && (b >> 6u8) & 1u8 <= 1 && (b >> 5u8) & 1u8 <= 1 && (b >> 4u8)
        & 1u8 <= 1 && (b >> 3u8) & 1u8 <= 1 && (b >> 2u8) & 1u8 <= 1 && (b >> 1u8) & 1u8 <= 1 && (b
        >> 0u8) & 1u8 <= 1) by (bit_vector);
}

/// What a run of bits spells is what its first part spells, shifted by the length of its second part,
/// and what that spells. `n` bits spell a number below two to the power of `n`.
pub proof fn law_bits_are_positional(s: Seq<u8>, start: int, middle: int, end: int)
    requires
        start <= middle <= end,
    ensures
        bits::bits_value(s, start, end) == bits::bits_value(s, start, middle) * power2::pow2(
            (end - middle) as nat,
        ) + bits::bits_value(s, middle, end),
        bits::bits_value(s, start, end) < power2::pow2((end - start) as nat),
    decreases end - middle,
{
    bits::lemma_bits_value_bound(s, start, end);
    let a = bits::bits_value(s, start, middle);
    if middle < end {
        law_bits_are_positional(s, start, middle, end - 1);
        power2::lemma_pow2_unfold((end - middle) as nat);
        let p = power2::pow2((end - 1 - middle) as nat);
        assert(power2::pow2((end - middle) as nat) == 2 * p);
        assert(2 * (a * p) == a * (2 * p)) by (nonlinear_arith);
        assert(bits::bits_value(s, start, end - 1) == a * p + bits::bits_value(s, middle, end - 1));
    } else {
        power2::lemma2_to64();
        assert(a * 1 == a) by (nonlinear_arith);
    }
}

/// The largest value of a field of `n` bits is one below two to the power of `n`.
pub proof fn law_field_max(field: DataBlockFieldConfiguration)
    requires
        field.inv(),
    ensures
        field.max() + 1 == power2::pow2((field.spec_end() - field.spec_start()) as nat),
{
    bits::lemma_low_mask((field.spec_end() - field.spec_start()) as u64);
}

/// Masking with the largest value of a field of `n` bits leaves the remainder of a division by two to
/// the power of `n`.
pub proof fn law_masking_cuts_off(field: DataBlockFieldConfiguration, value: u32)
    requires
        field.inv(),
    ensures
        (value & field.max()) as int == (value as int) % (power2::pow2(
            (field.spec_end() - field.spec_start()) as nat,
        ) as int),
{
    lemma_low_mask_is_mod(value, (field.spec_end() - field.spec_start()) as nat);
}

proof fn lemma_low_mask_is_mod(value: u32, n: nat)
    requires
        n <= 32,
    ensures
        (value & bits::low_mask(n as int)) as int == (value as int) % (power2::pow2(n) as int),
{
    bits::lemma_low_mask(n as u64);
    power2::lemma2_to64();
    if n == 32 {
        assert(value & 0xffff_ffffu32 == value) by (bit_vector);
        vstd::arithmetic::div_mod::lemma_small_mod(value as nat, power2::pow2(32));
    } else {
        vstd::bits::lemma_u32_low_bits_mask_is_mod(value, n);
        vstd::bits::lemma_u32_pow2_no_overflow(n);
    }
}

/// The value of a field is what its bits spell. Storing a value changes only these bits.
pub proof fn law_field_value(field: DataBlockFieldConfiguration, block: Seq<u8>)
    requires
        field.inv(),
        field.fits(block.len() as int),
    ensures
        field.value(block) as nat == bits::bits_value(block, field.spec_start(), field.spec_end()),
        field.value(block) <= field.max(),
        field.spec_end() <= 8 * block.len(),
{
    bits::lemma_bits_value_bound(block, field.spec_start(), field.spec_end());
    bits::lemma_low_mask((field.spec_end() - field.spec_start()) as u64);
}

/// A stored field reads back, and every bit outside of it is as it was.
pub proof fn law_stored_field(
    field: DataBlockFieldConfiguration,
    before: Seq<u8>,
    after: Seq<u8>,
    value: u32,
    i: int,
)
    requires
        field.inv(),
        field.fits(before.len() as int),
        field.stored(before, after, value),
        0 <= i < 8 * before.len(),
        i < field.spec_start() || field.spec_end() <= i,
    ensures
        after.len() == before.len(),
        bits::bits_value(after, field.spec_start(), field.spec_end()) == value,
        bits::bits_value(after, i, i + 1) == bits::bits_value(before, i, i + 1),
{
    law_field_value(field, after);
    reveal_with_fuel(bits::bits_value, 2);
    assert(bits::bit(after, i) == bits::bit(before, i));
}

/// The four bytes of a number are its digits to the base 256, the highest first.
pub proof fn law_four_bytes(value: u32, input: Seq<u8>)
    requires
        input.len() == 4,
    ensures
        bytes::u32_bytes(value).len() == 4,
        value == 0x100_0000 * bytes::u32_bytes(value)[0] + 0x1_0000 * bytes::u32_bytes(value)[1]
            + 0x100 * bytes::u32_bytes(value)[2] + bytes::u32_bytes(value)[3],
        bytes::u32_of(input) == 0x100_0000 * input[0] + 0x1_0000 * input[1] + 0x100 * input[2]
            + input[3],
{
    assert(value == 0x100_0000 * ((value >> 24) as u8) + 0x1_0000 * ((value >> 16) as u8) + 0x100 * ((
    value >> 8) as u8) + (value as u8)) by (bit_vector);
    let a = input[0];
    let b = input[1];
    let c = input[2];
    let d = input[3];
    assert(((a as u32) << 24) | ((b as u32) << 16) | ((c as u32) << 8) | (d as u32) == 0x100_0000 * a
        + 0x1_0000 * b + 0x100 * c + d) by (bit_vector);
}

/// The eight bytes of a number are the four bytes of its high half and the four bytes of its low half.
pub proof fn law_eight_bytes(value: u64, input: Seq<u8>)
    requires
        input.len() == 8,
    ensures
        bytes::u64_bytes(value).len() == 8,
        ({
            let b = bytes::u64_bytes(value);
            value == 0x1_0000_0000 * (0x100_0000 * b[0] + 0x1_0000 * b[1] + 0x100 * b[2] + b[3])
                + 0x100_0000 * b[4] + 0x1_0000 * b[5] + 0x100 * b[6] + b[7]
        }),
        bytes::u64_of(input) == 0x1_0000_0000 * (0x100_0000 * input[0] + 0x1_0000 * input[1] + 0x100
            * input[2] + input[3]) + 0x100_0000 * input[4] + 0x1_0000 * input[5] + 0x100 * input[6]
            + input[7],
{
    let high = (value >> 32) as u32;
    let low = value as u32;
    law_four_bytes(high, input.subrange(0, 4));
    law_four_bytes(low, input.subrange(4, 8));
    assert(value == 0x1_0000_0000 * ((value >> 32) as u32) + (value as u32)) by (bit_vector);
    let a = bytes::u32_of(input.subrange(0, 4));
    let b = bytes::u32_of(input.subrange(4, 8));
    assert(((a as u64) << 32) | (b as u64) == 0x1_0000_0000 * a + b) by (bit_vector);
}

/// Dividing and rounding up gives the smallest number that, multiplied, is not below.
pub proof fn law_ceil_div(a: nat, b: nat)
    requires
        b > 0,
    ensures
        a <= numbers::ceil_div(a, b) * b,
        numbers::ceil_div(a, b) * b < a + b,
{
    let q = (a / b) as int;
    let r = (a % b) as int;
    vstd::arithmetic::div_mod::lemma_fundamental_div_mod(a as int, b as int);
    assert(q * b == b * q) by (nonlinear_arith);
    assert((q + 1) * b == q * b + b) by (nonlinear_arith);
    assert(0 <= r < b);
}

/// The next power of two of a number is a power of two, not below the number, and less than twice as
/// much, unless the number is 0.
pub proof fn law_next_power_of_two(n: nat, power: nat)
    requires
        numbers::is_next_power_of_two(n, power),
    ensures
        exists|k: nat| power == power2::pow2(k),
        n <= power,
        power == 1 || power < 2 * n,
{
    let k = choose|k: nat| power == power2::pow2(k);
    power2::lemma2_to64();
    if k > 0 {
        power2::lemma_pow2_unfold(k);
        let half = (k - 1) as nat;
        power2::lemma_pow2_pos(half);
        if n <= power2::pow2(half) {
            assert(power <= power2::pow2(half));
        }
    }
}

/// A power of two that fits and is not below a number exists exactly if the number is not above half
/// of what can be counted.
pub proof fn law_countable_powers_of_two(n: nat)
    ensures
        numbers::has_next_power_of_two(n) <==> n <= usize::MAX / 2 + 1,
{
    power2::lemma2_to64();
    power2::lemma_pow2_unfold(32);
    power2::lemma_pow2_unfold(64);
    let half: nat = if usize::BITS == 32 {
        31
    } else {
        63
    };
    assert(power2::pow2(half) == usize::MAX / 2 + 1);
    assert(power2::pow2(half + 1) == usize::MAX + 1);
    if numbers::has_next_power_of_two(n) {
        let k = choose|k: nat| n <= #[trigger] power2::pow2(k) <= usize::MAX;
        if k > half {
            if k > half + 1 {
                power2::lemma_pow2_strictly_increases(half + 1, k);
            }
        } else if k < half {
            power2::lemma_pow2_strictly_increases(k, half);
        }
    }
}

/// What a configuration is, for what was asked for: the fields follow each other, a slot is the least
/// number of bytes that hold them, a bucket is its slots, and the number of buckets is a power of two
/// that has room for the entries, and not for twice as many.
pub proof fn law_configuration(builder: CuckooConfigurationBuilder, cfg: CuckooConfiguration)
    requires
        builder.builds(cfg),
    ensures
        cfg.slot_count() == builder.bucket_size@,
        cfg.kick_limit() == builder.max_kicks,
        cfg.fingerprint_field().spec_start() == 0,
        cfg.fingerprint_field().spec_end() == builder.fingerprint_bits@,
        ({
            let fp_end = builder.fingerprint_bits@ as int;
            let lru_end = fp_end + (match builder.lru {
                Some(lru) => lru.counter_bits@ as int,
                None => 0,
            });
            let ttl_end = lru_end + (match builder.ttl {
                Some(ttl) => ttl.ttl_bits@ as int,
                None => 0,
            });
            let counter_end = ttl_end + (match builder.counter {
                Some(counter) => counter.counter_bits@ as int,
                None => 0,
            });
            &&& match cfg.lru_field() {
                Some((lru, field)) => builder.lru == Some(lru) && field.spec_start() == fp_end
                    && field.spec_end() == lru_end,
                None => builder.lru is None,
            }
            &&& match cfg.ttl_field() {
                Some((ttl, field)) => builder.ttl == Some(ttl) && field.spec_start() == lru_end
                    && field.spec_end() == ttl_end,
                None => builder.ttl is None,
            }
            &&& match cfg.counter_field() {
                Some((counter, field)) => builder.counter == Some(counter) && field.spec_start()
                    == ttl_end && field.spec_end() == counter_end,
                None => builder.counter is None,
            }
            &&& counter_end <= 8 * cfg.block_len() < counter_end + 8
        }),
        cfg.bucket_len() == cfg.slot_count() * cfg.block_len(),
        exists|k: nat| cfg.bucket_total() == power2::pow2(k),
        builder.max_entries <= cfg.bucket_total() * cfg.slot_count(),
        cfg.bucket_total() == 1 || cfg.bucket_total() * cfg.slot_count() < 2 * (builder.max_entries
            + cfg.slot_count()),
        cfg.bucket_total() <= 0x1_0000_0000 ==> cfg.mask() + 1 == cfg.bucket_total(),
{
    let size = builder.bucket_size@ as nat;
    let entries = builder.max_entries as nat;
    let total = cfg.bucket_total();
    let required = builder.required_buckets();
    law_ceil_div(
        (builder.fingerprint_bits@ + builder.lru_bits() + builder.ttl_bits() + builder.counter_bits())
            as nat,
        8,
    );
    law_ceil_div(entries, size);
    law_next_power_of_two(required, total as nat);
    assert(required * size <= total * size) by (nonlinear_arith)
        requires
            required <= total,
            0 <= size,
    ;
    if total != 1 {
        assert(total * size < 2 * (required * size)) by (nonlinear_arith)
            requires
                total < 2 * required,
                0 < size,
        ;
    }
    if total <= 0x1_0000_0000 {
        assert(cfg.mask() == (total - 1) as u32);
    }
}

/// A hash leads to the bucket whose index is the remainder of its division by the number of buckets,
/// if there are no more than its low half can tell apart.
pub proof fn law_first_bucket(cfg: CuckooConfiguration, hash: u64)
    requires
        cfg.inv(),
        cfg.bucket_total() <= 0x1_0000_0000,
    ensures
        cfg.hash_index(hash) == (hash as int) % cfg.bucket_total(),
{
    let k = choose|k: nat| cfg.bucket_total() == power2::pow2(k);
    power2::lemma2_to64();
    if k > 32 {
        power2::lemma_pow2_strictly_increases(32, k);
    }
    assert(cfg.mask() == bits::low_mask(k as int)) by {
        bits::lemma_low_mask(k as u64);
    }
    let low = hash as u32;
    lemma_low_mask_is_mod(low, k);
    assert(hash == 0x1_0000_0000 * ((hash >> 32) as u32) + (hash as u32)) by (bit_vector);
    let high = (hash >> 32) as u32;
    power2::lemma_pow2_adds(k, (32 - k) as nat);
    let p = power2::pow2(k) as int;
    let q = power2::pow2((32 - k) as nat) as int;
    power2::lemma_pow2_pos(k);
    assert(hash as int == p * (q * high) + low) by (nonlinear_arith)
        requires
            hash as int == 0x1_0000_0000 * high + low,
            p * q == 0x1_0000_0000,
    ;
    vstd::arithmetic::div_mod::lemma_mod_multiples_vanish(q * high, low as int, p);
}

/// The fingerprint of a hash is the remainder of its high half, divided by two to the power of the
/// number of fingerprint bits, or 1 if that is 0.
pub proof fn law_fingerprint_of_hash(cfg: CuckooConfiguration, hash: u64)
    requires
        cfg.inv(),
    ensures
        ({
            let n = (cfg.fingerprint_field().spec_end() - cfg.fingerprint_field().spec_start())
                as nat;
            let rest = ((hash as int) / 0x1_0000_0000) % (power2::pow2(n) as int);
            cfg.hash_fingerprint(hash) == (if rest == 0 {
                1
            } else {
                rest
            })
        }),
{
    let field = cfg.fingerprint_field();
    law_masking_cuts_off(field, (hash >> 32) as u32);
    assert((hash >> 32) as u32 == hash / 0x1_0000_0000) by (bit_vector);
    law_field_max(field);
    power2::lemma_pow2_pos((field.spec_end() - field.spec_start()) as nat);
}

/// The numbers of a slot are what its bits spell: the fingerprint first, then the LRU counter, the
/// TTL and the generic counter as far as they are enabled, and then what is left.
pub proof fn law_slot_layout(
    builder: CuckooConfigurationBuilder,
    cfg: CuckooConfiguration,
    block: Seq<u8>,
)
    requires
        builder.builds(cfg),
        block.len() == cfg.block_len(),
    ensures
        ({
            let slot = cfg.slot(block);
            let fp_end = builder.fingerprint_bits@ as int;
            let lru_end = fp_end + (match builder.lru {
                Some(lru) => lru.counter_bits@ as int,
                None => 0,
            });
            let ttl_end = lru_end + (match builder.ttl {
                Some(ttl) => ttl.ttl_bits@ as int,
                None => 0,
            });
            let counter_end = ttl_end + (match builder.counter {
                Some(counter) => counter.counter_bits@ as int,
                None => 0,
            });
            &&& slot.fingerprint == bits::bits_value(block, 0, fp_end)
            &&& slot.lru == bits::bits_value(block, fp_end, lru_end)
            &&& slot.ttl == bits::bits_value(block, lru_end, ttl_end)
            &&& slot.counter == bits::bits_value(block, ttl_end, counter_end)
            &&& slot.rest == bits::bits_value(block, counter_end, 8 * block.len() as int)
        }),
{
    law_configuration(builder, cfg);
    law_field_value(cfg.fingerprint_field(), block);
    if let Some((_, field)) = cfg.lru_field() {
        law_field_value(field, block);
    }
    if let Some((_, field)) = cfg.ttl_field() {
        law_field_value(field, block);
    }
    if let Some((_, field)) = cfg.counter_field() {
        law_field_value(field, block);
    }
}

/// The slots of a bucket stand one after the other in its bytes.
pub proof fn law_bucket_layout(cfg: CuckooConfiguration, data: Seq<u8>, i: int)
    requires
        cfg.inv(),
        data.len() == cfg.bucket_len(),
        0 <= i < cfg.slot_count(),
    ensures
        cfg.slots(data).len() == cfg.slot_count(),
        cfg.slots(data)[i] == cfg.slot(
            data.subrange(i * cfg.block_len(), i * cfg.block_len() + cfg.block_len()),
        ),
        bucket::block_at(data, cfg.block_len(), i) == data.subrange(
            i * cfg.block_len(),
            i * cfg.block_len() + cfg.block_len(),
        ),
        0 <= i * cfg.block_len(),
        i * cfg.block_len() + cfg.block_len() <= data.len(),
{
    bucket::lemma_slot_offset(cfg, i);
}

/// Replacing the bytes of a slot changes no byte outside of it.
pub proof fn law_replaced_slot(
    cfg: CuckooConfiguration,
    data: Seq<u8>,
    i: int,
    block: Seq<u8>,
    k: int,
)
    requires
        cfg.inv(),
        data.len() == cfg.bucket_len(),
        0 <= i < cfg.slot_count(),
        block.len() == cfg.block_len(),
        0 <= k < data.len(),
    ensures
        ({
            let after = bucket::with_block(data, cfg.block_len(), i, block);
            let start = i * cfg.block_len();
            &&& after.len() == data.len()
            &&& start <= k < start + cfg.block_len() ==> after[k] == block[k - start]
            &&& k < start || start + cfg.block_len() <= k ==> after[k] == data[k]
        }),
{
    bucket::lemma_slot_offset(cfg, i);
}

/// A block of zero bytes has zero bytes only.
pub proof fn law_zero_block(len: nat, i: int)
    requires
        0 <= i < len,
    ensures
        data_block::zero_block(len).len() == len,
        data_block::zero_block(len)[i] == 0,
{
}

/// The number that the four bytes from `at` on spell, the highest first.
pub open spec fn four_at(input: Seq<u8>, at: int) -> int {
    0x100_0000 * input[at] + 0x1_0000 * input[at + 1] + 0x100 * input[at + 2] + input[at + 3]
}

/// The number that the eight bytes from `at` on spell, the highest first.
pub open spec fn eight_at(input: Seq<u8>, at: int) -> int {
    0x1_0000_0000 * four_at(input, at) + four_at(input, at + 4)
}

/// A number that is written somewhere is spelled there.
proof fn lemma_four_at(input: Seq<u8>, at: int, value: u32)
    requires
        0 <= at,
        at + 4 <= input.len(),
        input.subrange(at, at + 4) =~= bytes::u32_bytes(value),
    ensures
        four_at(input, at) == value,
{
    let part = input.subrange(at, at + 4);
    law_four_bytes(value, part);
    assert(part[0] == input[at] && part[1] == input[at + 1] && part[2] == input[at + 2] && part[3]
        == input[at + 3]);
}

/// A number that is written somewhere is spelled there.
proof fn lemma_eight_at(input: Seq<u8>, at: int, value: u64)
    requires
        0 <= at,
        at + 8 <= input.len(),
        input.subrange(at, at + 8) =~= bytes::u64_bytes(value),
    ensures
        eight_at(input, at) == value,
{
    let part = input.subrange(at, at + 8);
    law_eight_bytes(value, part);
    assert(part[0] == input[at] && part[1] == input[at + 1] && part[2] == input[at + 2] && part[3]
        == input[at + 3] && part[4] == input[at + 4] && part[5] == input[at + 5] && part[6]
        == input[at + 6] && part[7] == input[at + 7]);
}

/// A number that is read somewhere is spelled there.
proof fn lemma_read_four(input: Seq<u8>, at: int)
    requires
        0 <= at,
        at + 4 <= input.len(),
    ensures
        bytes::u32_of(input.subrange(at, at + 4)) == four_at(input, at),
{
    law_four_bytes(0, input.subrange(at, at + 4));
}

/// A number that is read somewhere is spelled there.
proof fn lemma_read_eight(input: Seq<u8>, at: int)
    requires
        0 <= at,
        at + 8 <= input.len(),
    ensures
        bytes::u64_of(input.subrange(at, at + 8)) == eight_at(input, at),
{
    law_eight_bytes(0, input.subrange(at, at + 8));
}

/// Halving is written as a byte of 1, and decrementing as a byte of 2 and the decrement.
pub proof fn law_strategy_bytes(strategy: LruAgingStrategy)
    ensures
        match strategy {
            LruAgingStrategy::Halving => strategy.exported().len() == 1 && strategy.exported()[0]
                == 1,
            LruAgingStrategy::Decrement(by) => {
                &&& strategy.exported().len() == 5
                &&& strategy.exported()[0] == 2
                &&& four_at(strategy.exported(), 1) == by
            },
        },
{
    if let LruAgingStrategy::Decrement(by) = strategy {
        lemma_four_at(strategy.exported(), 1, by);
    }
}

/// The LRU feature is written as its bits, whether it removes items, how it ages, the starting value
/// and the increment.
pub proof fn law_lru_bytes(lru: LruConfig)
    requires
        lru.counter_bits@ <= 32,
    ensures
        ({
            let out = lru.exported();
            let n = match lru.aging_strategy {
                LruAgingStrategy::Halving => 1int,
                LruAgingStrategy::Decrement(_) => 5int,
            };
            &&& out.len() == 10 + n
            &&& out[0] == lru.counter_bits@
            &&& out[1] == (if lru.remove_on_zero {
                1int
            } else {
                0int
            })
            &&& match lru.aging_strategy {
                LruAgingStrategy::Halving => out[2] == 1,
                LruAgingStrategy::Decrement(by) => out[2] == 2 && four_at(out, 3) == by,
            }
            &&& four_at(out, 2 + n) == lru.starting_value
            &&& four_at(out, 6 + n) == lru.increment
        }),
{
    let out = lru.exported();
    let n = lru.aging_strategy.exported().len() as int;
    law_strategy_bytes(lru.aging_strategy);
    bytes::lemma_u32_bytes(lru.starting_value);
    bytes::lemma_u32_bytes(lru.increment);
    assert(out.subrange(2, 2 + n) =~= lru.aging_strategy.exported());
    assert(out[2] == lru.aging_strategy.exported()[0]);
    if let LruAgingStrategy::Decrement(by) = lru.aging_strategy {
        lemma_four_at(out, 3, by);
    }
    lemma_four_at(out, 2 + n, lru.starting_value);
    lemma_four_at(out, 6 + n, lru.increment);
}

/// The TTL feature is written as the default TTL and its bits.
pub proof fn law_ttl_bytes(ttl: TtlConfig)
    requires
        ttl.ttl_bits@ <= 32,
    ensures
        ttl.exported().len() == 5,
        four_at(ttl.exported(), 0) == ttl.ttl@,
        ttl.exported()[4] == ttl.ttl_bits@,
{
    lemma_four_at(ttl.exported(), 0, ttl.ttl@);
}

/// The counter feature is written as its bits, the change on insertions and the change on lookups. A
/// negative change is written as what it is above the smallest number that four bytes do not spell.
pub proof fn law_counter_bytes(counter: CounterConfig)
    requires
        counter.counter_bits@ <= 32,
    ensures
        ({
            let out = counter.exported();
            &&& out.len() == 9
            &&& out[0] == counter.counter_bits@
            &&& four_at(out, 1) == (if counter.change_on_insert < 0 {
                counter.change_on_insert + 0x1_0000_0000
            } else {
                counter.change_on_insert as int
            })
            &&& four_at(out, 5) == (if counter.change_on_lookup < 0 {
                counter.change_on_lookup + 0x1_0000_0000
            } else {
                counter.change_on_lookup as int
            })
        }),
{
    let a = counter.change_on_insert;
    let b = counter.change_on_lookup;
    lemma_four_at(counter.exported(), 1, a as u32);
    lemma_four_at(counter.exported(), 5, b as u32);
    lemma_signed_bits(a);
    lemma_signed_bits(b);
}

proof fn lemma_signed_bits(value: i32)
    ensures
        value < 0 ==> (value as u32) as int == value + 0x1_0000_0000,
        value >= 0 ==> (value as u32) as int == value,
{
    assert(value < 0 ==> (value as u32) == value + 0x1_0000_0000) by (bit_vector);
}

/// The state of the hasher is written as its two keys.
pub proof fn law_random_state_bytes(state: ExportableRandomState)
    ensures
        state.exported().len() == 16,
        eight_at(state.exported(), 0) == state@.0,
        eight_at(state.exported(), 8) == state@.1,
{
    law_eight_bytes(state@.0, bytes::u64_bytes(state@.0));
    bytes::lemma_u64_bytes(state@.1);
    lemma_eight_at(state.exported(), 0, state@.0);
    lemma_eight_at(state.exported(), 8, state@.1);
}

/// A configuration is written as the version of the library after a 0, the fingerprint bits, the
/// number of slots of a bucket, the number of all slots, the largest number of kicks, and then the
/// features that are enabled: the LRU feature after a 1, the TTL feature after a 2, the counter
/// feature after a 3.
pub proof fn law_configuration_bytes(cfg: CuckooConfiguration)
    requires
        cfg.inv(),
        cfg.exportable(),
    ensures
        ({
            let out = cfg.exported();
            let lru = match cfg.lru_field() {
                Some((lru, _)) => seq![1u8] + lru.exported(),
                None => Seq::empty(),
            };
            let ttl = match cfg.ttl_field() {
                Some((ttl, _)) => seq![2u8] + ttl.exported(),
                None => Seq::empty(),
            };
            let counter = match cfg.counter_field() {
                Some((counter, _)) => seq![3u8] + counter.exported(),
                None => Seq::empty(),
            };
            &&& out.len() == 29 + lru.len() + ttl.len() + counter.len()
            &&& out[0] == 0
            &&& out[1] == 0
            &&& out[2] == 2
            &&& out[3] == 4
            &&& out[4] == cfg.fingerprint_field().spec_end()
            &&& eight_at(out, 5) == cfg.slot_count()
            &&& eight_at(out, 13) == cfg.bucket_total() * cfg.slot_count()
            &&& eight_at(out, 21) == cfg.kick_limit()
            &&& out.subrange(29, out.len() as int) == lru + ttl + counter
        }),
{
    let out = cfg.exported();
    let head = cfg.exported_head();
    bytes::lemma_u64_bytes(cfg.bucket_size as u64);
    bytes::lemma_u64_bytes((cfg.bucket_count * cfg.bucket_size) as u64);
    bytes::lemma_u64_bytes(cfg.max_kicks as u64);
    assert(head.len() == 29);
    lemma_eight_at(head, 5, cfg.bucket_size as u64);
    lemma_eight_at(head, 13, (cfg.bucket_count * cfg.bucket_size) as u64);
    lemma_eight_at(head, 21, cfg.max_kicks as u64);
    assert(forall|i: int| 0 <= i < 29 ==> out[i] == head[i]);
    assert(0 <= cfg.bucket_count * cfg.bucket_size) by (nonlinear_arith)
        requires
            cfg.bucket_count >= 0,
            cfg.bucket_size >= 0,
    ;
    assert(out.subrange(29, out.len() as int) =~= cfg.exported_lru() + cfg.exported_ttl()
        + cfg.exported_counter());
}

/// A configuration can be written exactly if its slots can be counted.
pub proof fn law_countable_slots_are_written(cfg: CuckooConfiguration)
    ensures
        cfg.exportable() <==> cfg.bucket_total() * cfg.slot_count() <= usize::MAX,
{
}

/// A filter is written as the header, the hasher, the end of the header, the configuration, a line
/// end, and then the bytes of its buckets, one after the other.
pub proof fn law_filter_bytes<H: ExportableBuildHasher>(
    hasher: H,
    cfg: CuckooConfiguration,
    buckets: Seq<Seq<u8>>,
    i: int,
)
    requires
        forall|k: int|
            0 <= k < buckets.len() ==> (#[trigger] buckets[k]).len() == cfg.bucket_len(),
        0 <= i < buckets.len(),
    ensures
        ({
            let out = exporter::exported_filter(hasher, cfg, buckets);
            let head = exporter::header::<H>() + hasher.exported() + exporter::header_end()
                + cfg.exported() + seq![10u8];
            let start = head.len() + i * cfg.bucket_len();
            &&& out.len() == head.len() + buckets.len() * cfg.bucket_len()
            &&& out.subrange(0, head.len() as int) == head
            &&& 0 <= start
            &&& start + cfg.bucket_len() <= out.len()
            &&& out.subrange(start, start + cfg.bucket_len()) == buckets[i]
        }),
{
    let out = exporter::exported_filter(hasher, cfg, buckets);
    let head = exporter::header::<H>() + hasher.exported() + exporter::header_end()
        + cfg.exported() + seq![10u8];
    let n = buckets.len() as int;
    let size = cfg.bucket_len();
    lemma_joined(buckets, size, n, i);
    let all = exporter::joined(buckets, n);
    assert(out =~= head + all);
    assert(out.subrange(0, head.len() as int) =~= head);
    let start = head.len() + i * size;
    assert(out.subrange(start, start + size) =~= all.subrange(i * size, i * size + size));
}

proof fn lemma_joined(buckets: Seq<Seq<u8>>, size: int, n: int, i: int)
    requires
        0 <= size,
        0 <= i < n <= buckets.len(),
        forall|k: int| 0 <= k < buckets.len() ==> (#[trigger] buckets[k]).len() == size,
    ensures
        exporter::joined(buckets, n).len() == n * size,
        0 <= i * size,
        i * size + size <= n * size,
        exporter::joined(buckets, n).subrange(i * size, i * size + size) == buckets[i],
    decreases n,
{
    assert(0 <= i * size && i * size + size <= n * size) by (nonlinear_arith)
        requires
            0 <= i,
            i + 1 <= n,
            0 <= size,
    ;
    assert((n - 1) * size + size == n * size) by (nonlinear_arith);
    let all = exporter::joined(buckets, n);
    let rest = exporter::joined(buckets, n - 1);
    assert(buckets[n - 1].len() == size);
    if n == 1 {
        assert(0 * size == 0) by (nonlinear_arith);
        assert(rest.len() == 0);
        assert(all.subrange(i * size, i * size + size) =~= buckets[i]);
    } else if i == n - 1 {
        lemma_joined(buckets, size, n - 1, 0);
        assert(all.subrange(i * size, i * size + size) =~= buckets[i]);
    } else {
        lemma_joined(buckets, size, n - 1, i);
        assert(all.subrange(i * size, i * size + size) =~= rest.subrange(
            i * size,
            i * size + size,
        ));
    }
}

/// An aging strategy is read as a decrement after a byte of 2, and as halving after any other byte.
pub proof fn law_strategy_is_read(input: Seq<u8>)
    ensures
        match LruAgingStrategy::parsed(input) {
            Ok((LruAgingStrategy::Decrement(by), n)) => n == 5 && input.len() >= 5 && input[0] == 2
                && by == four_at(input, 1),
            Ok((LruAgingStrategy::Halving, n)) => n == 1 && input.len() >= 1 && input[0] != 2,
            Err(fault) => fault == Fault::End && (input.len() < 1 || (input[0] == 2 && input.len()
                < 5)),
        },
{
    if input.len() >= 5 {
        lemma_read_four(input, 1);
    }
}

/// A bit count is read from a byte between 1 and 32.
pub proof fn law_bits_are_read(byte: u8)
    ensures
        match exporter::parsed_bits(byte) {
            Ok(bits) => 1 <= byte <= 32 && bits@ == byte,
            Err(Fault::Config(error)) => (byte > 32 && error is BitCountTooHigh) || (byte == 0
                && error is BitCountTooLow),
            _ => false,
        },
{
    BitCount::lemma_of(byte as usize);
}

/// The LRU feature is read from what the version at hand has written. Before version 2000 that was
/// the bits only, before version 2002 nothing about aging and counting: then items are not removed,
/// counters are halved, and the starting value and the increment are 1.
pub proof fn law_lru_is_read(input: Seq<u8>, version: int)
    ensures
        LruConfig::parsed(input, version) matches Ok((lru, n)) ==> {
            &&& 1 <= n <= input.len()
            &&& 1 <= input[0] <= 32
            &&& lru.counter_bits@ == input[0]
            &&& lru.remove_on_zero == (version >= 2000 && input[1] != 0)
            &&& version < 2002 ==> {
                &&& n == (if version < 2000 {
                    1int
                } else {
                    2int
                })
                &&& lru.aging_strategy is Halving
                &&& lru.starting_value == 1
                &&& lru.increment == 1
            }
            &&& version >= 2002 ==> {
                let m = if input[2] == 2 {
                    5int
                } else {
                    1int
                };
                &&& n == 10 + m
                &&& match lru.aging_strategy {
                    LruAgingStrategy::Halving => input[2] != 2,
                    LruAgingStrategy::Decrement(by) => input[2] == 2 && by == four_at(input, 3),
                }
                &&& lru.starting_value == four_at(input, 2 + m)
                &&& lru.increment == four_at(input, 6 + m)
            }
        },
        LruConfig::parsed(input, version) is Ok <==> {
            let m = if input.len() > 2 && input[2] == 2 {
                5int
            } else {
                1int
            };
            &&& input.len() >= (if version < 2000 {
                1int
            } else if version < 2002 {
                2int
            } else {
                10 + m
            })
            &&& 1 <= input[0] <= 32
        },
{
    if input.len() >= 1 {
        law_bits_are_read(input[0]);
    }
    if version >= 2002 && input.len() >= 2 {
        let rest = exporter::after(input, 2);
        law_strategy_is_read(rest);
        if input.len() >= 3 {
            assert(rest[0] == input[2]);
        }
        if let Ok((_, n)) = LruAgingStrategy::parsed(rest) {
            if input.len() >= 10 + n {
                lemma_read_four(input, 2 + n);
                lemma_read_four(input, 6 + n);
            }
        }
    }
}

/// The TTL feature is read from a TTL that is not 0 and from its bits.
pub proof fn law_ttl_is_read(input: Seq<u8>)
    ensures
        TtlConfig::parsed(input) matches Ok((ttl, n)) ==> {
            &&& n == 5
            &&& ttl.ttl@ == four_at(input, 0)
            &&& ttl.ttl_bits@ == input[4]
        },
        TtlConfig::parsed(input) is Ok <==> input.len() >= 5 && four_at(input, 0) != 0 && 1
            <= input[4] <= 32,
{
    if input.len() >= 5 {
        lemma_read_four(input, 0);
        law_bits_are_read(input[4]);
        NonZeroU32::lemma_of(bytes::u32_of(input.subrange(0, 4)));
    }
}

/// The counter feature is read from its bits and from two changes, which may be negative.
pub proof fn law_counter_is_read(input: Seq<u8>)
    ensures
        CounterConfig::parsed(input) matches Ok((counter, n)) ==> {
            &&& n == 9
            &&& counter.counter_bits@ == input[0]
            &&& counter.change_on_insert == (if four_at(input, 1) < 0x8000_0000 {
                four_at(input, 1)
            } else {
                four_at(input, 1) - 0x1_0000_0000
            })
            &&& counter.change_on_lookup == (if four_at(input, 5) < 0x8000_0000 {
                four_at(input, 5)
            } else {
                four_at(input, 5) - 0x1_0000_0000
            })
        },
        CounterConfig::parsed(input) is Ok <==> input.len() >= 9 && 1 <= input[0] <= 32,
{
    if input.len() >= 9 {
        lemma_read_four(input, 1);
        lemma_read_four(input, 5);
        law_bits_are_read(input[0]);
        lemma_unsigned_bits(bytes::u32_of(input.subrange(1, 5)));
        lemma_unsigned_bits(bytes::u32_of(input.subrange(5, 9)));
    }
}

proof fn lemma_unsigned_bits(value: u32)
    ensures
        value < 0x8000_0000 ==> (value as i32) as int == value,
        value >= 0x8000_0000 ==> (value as i32) as int == value - 0x1_0000_0000,
{
    assert(value >= 0x8000_0000 ==> (value as i32) == value - 0x1_0000_0000) by (bit_vector);
}

/// A configuration is read from its fingerprint bits, which stand first, or after a 0 and three bytes
/// of a version, and from the three sizes that follow. What follows these are the features, as the
/// version has written them. Bytes without a version were written by version 1000.
pub proof fn law_configuration_is_read(input: Seq<u8>) -> (sizes: CuckooConfigurationBuilder)
    ensures
        ({
            let start = if input[0] == 0 {
                5int
            } else {
                1int
            };
            let version = if input[0] == 0 {
                1_000_000 * input[1] + 1_000 * input[2] + input[3]
            } else {
                1_000
            };
            let parsed = CuckooConfigurationBuilder::parsed(input);
            let features = sizes.parsed_features(
                input.subrange(start + 24, input.len() as int),
                version,
            );
            let complete = input.len() > 0 && input.len() >= start + 24;
            let valid = 1 <= input[start - 1] <= 32 && 0 < eight_at(input, start) <= usize::MAX
                && eight_at(input, start + 8) <= usize::MAX && eight_at(input, start + 16)
                <= usize::MAX;
            &&& complete && valid ==> {
                &&& sizes.fingerprint_bits@ == input[start - 1]
                &&& sizes.bucket_size@ == eight_at(input, start)
                &&& sizes.max_entries == eight_at(input, start + 8)
                &&& sizes.max_kicks == eight_at(input, start + 16)
                &&& sizes.lru is None
                &&& sizes.ttl is None
                &&& sizes.counter is None
            }
            &&& parsed is Ok <==> complete && valid && features is Ok
            &&& parsed matches Ok((builder, n)) ==> features == Ok::<
                (CuckooConfigurationBuilder, int),
                Fault,
            >((builder, n - start - 24)) && {
                &&& start + 24 <= n
                &&& builder.fingerprint_bits == sizes.fingerprint_bits
                &&& builder.bucket_size == sizes.bucket_size
                &&& builder.max_entries == sizes.max_entries
                &&& builder.max_kicks == sizes.max_kicks
            }
        }),
{
    reveal(CuckooConfigurationBuilder::parsed);
    let start = if input[0] == 0 {
        5int
    } else {
        1int
    };
    let version = if input[0] == 0 {
        1_000_000 * input[1] + 1_000 * input[2] + input[3]
    } else {
        1_000
    };
    let rest = exporter::after(input, start);
    let bucket_size = bytes::u64_of(rest.subrange(0, 8));
    let sizes = CuckooConfigurationBuilder {
        fingerprint_bits: exporter::parsed_bits(input[start - 1])->Ok_0,
        bucket_size: NonZeroUsize::of(bucket_size as usize),
        max_entries: bytes::u64_of(rest.subrange(8, 16)) as usize,
        max_kicks: bytes::u64_of(rest.subrange(16, 24)) as usize,
        lru: None,
        ttl: None,
        counter: None,
    };
    law_bits_are_read(input[start - 1]);
    NonZeroUsize::lemma_of(bucket_size as usize);
    if input.len() > 0 && input.len() >= start + 24 {
        lemma_read_eight(rest, 0);
        lemma_read_eight(rest, 8);
        lemma_read_eight(rest, 16);
        assert(eight_at(rest, 0) == eight_at(input, start));
        assert(eight_at(rest, 8) == eight_at(input, start + 8));
        assert(eight_at(rest, 16) == eight_at(input, start + 16));
        assert(exporter::after(rest, 24) =~= input.subrange(start + 24, input.len() as int));
        lemma_features(sizes, exporter::after(rest, 24), version);
    }
    sizes
}

/// Reading features changes no size.
proof fn lemma_features(builder: CuckooConfigurationBuilder, input: Seq<u8>, version: int)
    ensures
        builder.parsed_features(input, version) matches Ok((all, n)) ==> {
            &&& 0 <= n
            &&& all.fingerprint_bits == builder.fingerprint_bits
            &&& all.bucket_size == builder.bucket_size
            &&& all.max_entries == builder.max_entries
            &&& all.max_kicks == builder.max_kicks
        },
    decreases input.len(),
{
    if input.len() > 0 && 1 <= input[0] <= 3 {
        reveal(CuckooConfigurationBuilder::parsed_feature);
        let rest = exporter::after(input, 1);
        if let Ok((more, n)) = builder.parsed_feature(input[0], rest, version) {
            if 0 <= n < input.len() {
                lemma_features(more, exporter::after(input, 1 + n), version);
            }
        }
    }
}

/// Features are read one after the other: a byte of 1 starts the LRU feature, a byte of 2 the TTL
/// feature, a byte of 3 the counter feature. Any other byte ends them, and so does the end of the
/// bytes.
pub proof fn law_features_are_read(
    builder: CuckooConfigurationBuilder,
    input: Seq<u8>,
    version: int,
)
    ensures
        ({
            let parsed = builder.parsed_features(input, version);
            let rest = input.subrange(1, input.len() as int);
            &&& input.len() == 0 ==> parsed == Ok::<(CuckooConfigurationBuilder, int), Fault>(
                (builder, 0),
            )
            &&& input.len() > 0 && (input[0] == 0 || input[0] > 3) ==> parsed == Ok::<
                (CuckooConfigurationBuilder, int),
                Fault,
            >((builder, 1))
            &&& input.len() > 0 && input[0] == 1 ==> match LruConfig::parsed(rest, version) {
                Ok((lru, n)) => parsed == (match (CuckooConfigurationBuilder {
                    lru: Some(lru),
                    ..builder
                }).parsed_features(input.subrange(1 + n, input.len() as int), version) {
                    Ok((all, m)) => Ok::<(CuckooConfigurationBuilder, int), Fault>(
                        (all, 1 + n + m),
                    ),
                    Err(fault) => Err(fault),
                }),
                Err(fault) => parsed == Err::<(CuckooConfigurationBuilder, int), Fault>(fault),
            }
            &&& input.len() > 0 && input[0] == 2 ==> match TtlConfig::parsed(rest) {
                Ok((ttl, n)) => parsed == (match (CuckooConfigurationBuilder {
                    ttl: Some(ttl),
                    ..builder
                }).parsed_features(input.subrange(1 + n, input.len() as int), version) {
                    Ok((all, m)) => Ok::<(CuckooConfigurationBuilder, int), Fault>(
                        (all, 1 + n + m),
                    ),
                    Err(fault) => Err(fault),
                }),
                Err(fault) => parsed == Err::<(CuckooConfigurationBuilder, int), Fault>(fault),
            }
            &&& input.len() > 0 && input[0] == 3 ==> match CounterConfig::parsed(rest) {
                Ok((counter, n)) => parsed == (match (CuckooConfigurationBuilder {
                    counter: Some(counter),
                    ..builder
                }).parsed_features(input.subrange(1 + n, input.len() as int), version) {
                    Ok((all, m)) => Ok::<(CuckooConfigurationBuilder, int), Fault>(
                        (all, 1 + n + m),
                    ),
                    Err(fault) => Err(fault),
                }),
                Err(fault) => parsed == Err::<(CuckooConfigurationBuilder, int), Fault>(fault),
            }
        }),
{
    reveal(CuckooConfigurationBuilder::parsed_feature);
    if input.len() > 0 {
        let rest = exporter::after(input, 1);
        law_lru_is_read(rest, version);
        law_ttl_is_read(rest);
        law_counter_is_read(rest);
    }
}

/// The slots of a filter are what the bytes of its buckets spell, and there are as many buckets as the
/// configuration says.
pub proof fn law_filter_slots<H: BuildHasher>(filter: CuckooFilter<H>, i: int)
    requires
        filter.wf(),
        0 <= i < filter.bytes().len(),
    ensures
        filter.bytes().len() == filter.config().bucket_total(),
        filter@.len() == filter.config().bucket_total(),
        filter.bytes()[i].len() == filter.config().bucket_len(),
        filter@[i] == filter.config().slots(filter.bytes()[i]),
{
    filter.lemma_bytes();
}

/// A header is read if the bytes start with the header of the hasher, and the bytes of the hasher are
/// followed by the end of the header. Another start is reported with the expected name, another end
/// with what stands there.
pub proof fn law_header_is_read<H: ExportableBuildHasher>(input: Seq<u8>)
    ensures
        ({
            let header = exporter::header::<H>();
            let end = exporter::header_end();
            let rest = input.subrange(header.len() as int, input.len() as int);
            if input.len() < header.len() {
                exporter::parsed_hasher::<H>(input) == Err::<(H, int), Fault>(Fault::End)
            } else if !header.is_prefix_of(input) {
                exporter::parsed_hasher::<H>(input) matches Err(
                    Fault::HasherName { expected, found },
                ) && expected == H::NAME@
            } else {
                match H::parsed(rest) {
                    Err(fault) => exporter::parsed_hasher::<H>(input) == Err::<(H, int), Fault>(
                        fault,
                    ),
                    Ok((hasher, n)) => {
                        let at = header.len() + n;
                        if input.len() < at + end.len() {
                            exporter::parsed_hasher::<H>(input) == Err::<(H, int), Fault>(
                                Fault::End,
                            )
                        } else if input.subrange(at, at + end.len()) != end {
                            exporter::parsed_hasher::<H>(input) matches Err(
                                Fault::HasherHeader { found },
                            ) && (utf8::valid_utf8(input.subrange(at, at + end.len())) ==> found
                                == utf8::decode_utf8(input.subrange(at, at + end.len())))
                        } else {
                            exporter::parsed_hasher::<H>(input) == Ok::<(H, int), Fault>(
                                (hasher, at + end.len()),
                            )
                        }
                    },
                }
            }
        }),
{
    let header = exporter::header::<H>();
    if header.len() <= input.len() {
        if header.is_prefix_of(input) {
            assert(input.subrange(0, header.len() as int) =~= header);
        }
    }
}

/// The bytes of a filter are read if its header and its configuration are, if its buckets can be
/// counted and represented, and if they are all there.
pub proof fn law_filter_is_read<H: ExportableBuildHasher>(
    input: Seq<u8>,
    cfg: CuckooConfiguration,
)
    ensures
        exporter::parsed_filter::<H>(input) matches Ok((hasher, builder, start)) ==> {
            let n = exporter::parsed_hasher::<H>(input)->Ok_0.1;
            &&& exporter::parsed_hasher::<H>(input) matches Ok((h, _)) && h == hasher
            &&& CuckooConfigurationBuilder::parsed(
                input.subrange(n, input.len() as int),
            ) == Ok::<(CuckooConfigurationBuilder, int), Fault>((builder, start - n))
            &&& builder.builds(cfg) ==> start + cfg.bucket_total() * cfg.bucket_len() <= input.len()
        },
        ({
            let n = exporter::parsed_hasher::<H>(input)->Ok_0.1;
            let parsed = CuckooConfigurationBuilder::parsed(input.subrange(n, input.len() as int));
            let builder = parsed->Ok_0.0;
            exporter::parsed_hasher::<H>(input) is Ok && parsed is Ok && builder.builds(cfg)
                && builder.fits() && n + parsed->Ok_0.1 + cfg.bucket_total() * cfg.bucket_len()
                <= input.len() ==> exporter::parsed_filter::<H>(input) is Ok
        }),
{
    if let Ok((_, n)) = exporter::parsed_hasher::<H>(input) {
        if let Ok((builder, _)) = CuckooConfigurationBuilder::parsed(exporter::after(input, n)) {
            if builder.builds(cfg) {
                exporter::lemma_builder_builds(builder, cfg);
            }
        }
    }
}

/// Cutting off a start as often as it stands there leaves an end of the bytes that does not start with
/// it, and what was cut off is that start, repeated.
pub proof fn law_trimmed_start(input: Seq<u8>, start: Seq<u8>) -> (times: nat)
    requires
        start.len() > 0,
    ensures
        ({
            let cut = times * start.len();
            &&& cut <= input.len()
            &&& exporter::trimmed_start(input, start) == input.subrange(
                cut as int,
                input.len() as int,
            )
            &&& !start.is_prefix_of(exporter::trimmed_start(input, start))
            &&& forall|k: int|
                0 <= k < times ==> input.subrange(
                    #[trigger] (k * start.len()),
                    k * start.len() + start.len(),
                ) == start
        }),
    decreases input.len(),
{
    let len = start.len() as int;
    if start.is_prefix_of(input) {
        let rest = exporter::after(input, len);
        let times = law_trimmed_start(rest, start);
        let cut = times * len;
        assert((times + 1) * len == cut + len) by (nonlinear_arith)
            requires
                cut == times * len,
        ;
        assert(input.subrange(cut + len, input.len() as int) =~= rest.subrange(
            cut,
            rest.len() as int,
        ));
        assert forall|k: int| 0 <= k < times + 1 implies input.subrange(
            #[trigger] (k * len),
            k * len + len,
        ) == start by {
            if k == 0 {
                assert(0 * len == 0) by (nonlinear_arith);
                assert(input.subrange(0, len) =~= start);
            } else {
                assert(k * len == (k - 1) * len + len) by (nonlinear_arith);
                assert(0 <= (k - 1) * len && (k - 1) * len + len <= cut) by (nonlinear_arith)
                    requires
                        1 <= k <= times,
                        cut == times * len,
                        0 < len,
                ;
                assert(rest.subrange((k - 1) * len, (k - 1) * len + len) == start);
                assert(input.subrange(k * len, k * len + len) =~= rest.subrange(
                    (k - 1) * len,
                    (k - 1) * len + len,
                ));
            }
        }
        (times + 1) as nat
    } else {
        assert(0 * len == 0) by (nonlinear_arith);
        assert(input.subrange(0, input.len() as int) =~= input);
        0
    }
}

/// Cutting off a byte at the end as often as it stands there leaves a start of the bytes that does not
/// end with it, and what was cut off is that byte, repeated.
pub proof fn law_trimmed_end(input: Seq<u8>, end: u8)
    ensures
        ({
            let left = exporter::trimmed_end(input, end);
            &&& left.len() <= input.len()
            &&& left == input.subrange(0, left.len() as int)
            &&& left.len() > 0 ==> left.last() != end
            &&& forall|k: int| left.len() <= k < input.len() ==> input[k] == end
        }),
    decreases input.len(),
{
    if input.len() > 0 && input.last() == end {
        let shorter = input.drop_last();
        law_trimmed_end(shorter, end);
        let left = exporter::trimmed_end(shorter, end);
        assert(left =~= input.subrange(0, left.len() as int));
        assert forall|k: int| left.len() <= k < input.len() implies input[k] == end by {
            if k < shorter.len() {
                assert(shorter[k] == input[k]);
            }
        }
    } else {
        assert(input =~= input.subrange(0, input.len() as int));
    }
}

/// The configuration that arbitrary values stand for has these values, no counter, and at most 500
/// kicks. It is small if it has at most 250000000 slots.
pub proof fn law_arbitrary_configuration(conf: CuckooConf, cfg: CuckooConfiguration)
    requires
        conf.has_valid_bits(),
        conf.builder().builds(cfg),
    ensures
        1 <= conf.fingerprint_bits <= 32,
        cfg.fingerprint_field().spec_end() == conf.fingerprint_bits,
        cfg.slot_count() == conf.bucket_size@,
        cfg.kick_limit() == 500,
        cfg.counter_field() is None,
        match (cfg.lru_field(), conf.lru) {
            (Some((lru, field)), Some(asked)) => {
                &&& 1 <= asked.bits <= 32
                &&& field.spec_end() - field.spec_start() == asked.bits
                &&& lru.remove_on_zero == asked.remove_on_zero
                &&& lru.starting_value == asked.starting_value
                &&& lru.increment == asked.increment
                &&& match (lru.aging_strategy, asked.aging_strategy) {
                    (LruAgingStrategy::Halving, AgingStrategy::Halving) => true,
                    (LruAgingStrategy::Decrement(a), AgingStrategy::Decrement(b)) => a == b,
                    _ => false,
                }
            },
            (None, None) => true,
            _ => false,
        },
        match (cfg.ttl_field(), conf.ttl) {
            (Some((ttl, field)), Some(asked)) => {
                &&& 1 <= asked.bits <= 32
                &&& field.spec_end() - field.spec_start() == asked.bits
                &&& ttl.ttl == asked.ttl
            },
            (None, None) => true,
            _ => false,
        },
        conf.max_entries <= cfg.bucket_total() * cfg.slot_count(),
        conf.is_small() <==> cfg.bucket_total() * cfg.slot_count() <= 250_000_000,
{
    law_configuration(conf.builder(), cfg);
    exporter::lemma_builder_builds(conf.builder(), cfg);
    BitCount::lemma_of(conf.fingerprint_bits);
    if let Some(lru) = conf.lru {
        BitCount::lemma_of(lru.bits);
    }
    if let Some(ttl) = conf.ttl {
        BitCount::lemma_of(ttl.bits);
    }
}

/// The name of the hasher in a header that does not match is what is left of the bytes without the
/// words that every header starts with, as often as they stand there, and without the colons at the
/// end.
pub proof fn law_found_name(prefix: Seq<u8>) -> (bounds: (int, int))
    ensures
        ({
            let words = utf8::encode_utf8("cuckoo-clock::"@);
            let (start, end) = bounds;
            let name = prefix.subrange(start, end);
            &&& 0 <= start <= end <= prefix.len()
            &&& !words.is_prefix_of(prefix.subrange(start, prefix.len() as int))
            &&& start > 0 ==> start >= words.len() && prefix.subrange(start - words.len(), start)
                == words && words.is_prefix_of(prefix)
            &&& name.len() > 0 ==> name.last() != 0x3a
            &&& forall|k: int| end <= k < prefix.len() ==> prefix[k] == 0x3a
            &&& utf8::valid_utf8(name) ==> exporter::found_name(prefix) == utf8::decode_utf8(name)
            &&& !utf8::valid_utf8(name) ==> exporter::found_name(prefix) == "<non UTF-8 data>"@
        }),
{
    let words = utf8::encode_utf8("cuckoo-clock::"@);
    lemma_header_words();
    let times = law_trimmed_start(prefix, words);
    let start = (times * words.len()) as int;
    let middle = exporter::trimmed_start(prefix, words);
    law_trimmed_end(middle, 0x3a);
    let end = start + exporter::trimmed_end(middle, 0x3a).len();
    assert(middle.subrange(0, end - start) =~= prefix.subrange(start, end));
    assert forall|k: int| end <= k < prefix.len() implies prefix[k] == 0x3a by {
        assert(middle[k - start] == prefix[k]);
    }
    let len = words.len() as int;
    if start > 0 {
        let k = times - 1;
        assert(times > 0) by (nonlinear_arith)
            requires
                times * len > 0,
                times >= 0,
        ;
        assert(k * len == start - len && 0 <= k * len) by (nonlinear_arith)
            requires
                k == times - 1,
                times > 0,
                start == times * len,
                len > 0,
        ;
        assert(prefix.subrange(k * len, k * len + len) == words);
        assert(0 * len == 0) by (nonlinear_arith);
        assert(prefix.subrange(0 * len, 0 * len + len) == words);
        assert(prefix.subrange(0, len) == words);
        assert(words.is_prefix_of(prefix));
    }
    (start, end)
}

/// The words that every header starts with are not empty.
proof fn lemma_header_words()
    ensures
        utf8::encode_utf8("cuckoo-clock::"@).len() > 0,
{
    reveal_strlit("cuckoo-clock::");
    reveal_with_fuel(utf8::encode_utf8, 2);
}

/// Reading gives a value exactly if the bytes start with one, and then nothing but its bytes is used
/// up. Else it gives an error that says what is wrong.
pub proof fn law_reading<T>(
    parsed: Result<(T, int), Fault>,
    before: Seq<u8>,
    result: Result<T, ImportError>,
    rest: Seq<u8>,
)
    requires
        exporter::reads(parsed, before, result, rest),
    ensures
        parsed is Ok <==> result is Ok,
        parsed matches Ok((value, n)) ==> {
            &&& result == Ok::<T, ImportError>(value)
            &&& 0 <= n <= before.len()
            &&& rest == before.subrange(n, before.len() as int)
        },
        parsed matches Err(fault) ==> result matches Err(error) && match fault {
            Fault::End => error is Io,
            Fault::Config(inner) => error matches ImportError::Config(e) && e == inner,
            Fault::OutOfRange => error is NonZeroError,
            Fault::HasherName { expected, found } => error matches ImportError::InvalidHasherName {
                expected: e,
                found: f,
            } && e@ == expected && f@ == found,
            Fault::HasherHeader { found } => error matches ImportError::InvalidHasherHeader {
                found: f,
            } && f@ == found,
        },
{
}

/// The fingerprint of a number under a mask is the masked number, or 1 if that is 0.
pub proof fn law_masked_fingerprint(hash: u32, mask: u32)
    ensures
        hash & mask != 0 ==> Fingerprint::of_hash(hash, mask) == hash & mask,
        hash & mask == 0 ==> Fingerprint::of_hash(hash, mask) == 1,
{
}

/// Bit counts are the numbers from 1 to 32. They convert into every type of number as they are, and
/// add up with other numbers.
pub proof fn law_bit_counts(value: usize, bits: BitCount, other: usize)
    ensures
        match <BitCount as TryFromSpec<usize>>::try_from_spec(value) {
            Ok(count) => 1 <= value <= 32 && count@ == value,
            Err(error) => (value > 32 && error is BitCountTooHigh) || (value == 0
                && error is BitCountTooLow),
        },
        <usize as FromSpec<BitCount>>::from_spec(bits) == bits@,
        bits@ <= 32 ==> <u64 as FromSpec<BitCount>>::from_spec(bits) == bits@,
        bits@ <= 32 ==> <u32 as FromSpec<BitCount>>::from_spec(bits) == bits@,
        bits@ <= 32 ==> <u16 as FromSpec<BitCount>>::from_spec(bits) == bits@,
        bits@ <= 32 ==> <u8 as FromSpec<BitCount>>::from_spec(bits) == bits@,
        bits@ + other <= usize::MAX ==> <BitCount as AddSpec<usize>>::add_spec(bits, other) == bits@
            + other,
        bits@ + other <= usize::MAX ==> <usize as AddSpec<BitCount>>::add_spec(other, bits) == bits@
            + other,
{
    BitCount::lemma_of(value);
}

/// A fingerprint made from a number is that number, an arbitrary aging strategy is the one of the same
/// kind, and an error made from another one carries it.
pub proof fn law_conversions(
    value: u32,
    strategy: AgingStrategy,
    config: ConfigError,
    number: TryFromIntError,
    io: std::io::Error,
)
    ensures
        <Fingerprint as FromSpec<u32>>::from_spec(value)@ == value,
        match (<LruAgingStrategy as FromSpec<&AgingStrategy>>::from_spec(&strategy), strategy) {
            (LruAgingStrategy::Halving, AgingStrategy::Halving) => true,
            (LruAgingStrategy::Decrement(a), AgingStrategy::Decrement(b)) => a == b,
            _ => false,
        },
        <ImportError as FromSpec<ConfigError>>::from_spec(config) == ImportError::Config(config),
        <ImportError as FromSpec<TryFromIntError>>::from_spec(number) == ImportError::NonZeroError(
            number,
        ),
        <ImportError as FromSpec<std::io::Error>>::from_spec(io) == ImportError::Io(io),
        <ExportError as FromSpec<std::io::Error>>::from_spec(io) == ExportError::Io(io),
{
}

/// The text of an error holds what the error carries, after words that say what went wrong.
pub proof fn law_error_texts(
    feature: String,
    config: ConfigError,
    import: ImportError,
    export: ExportError,
    cause: Seq<char>,
)
    ensures
        AccessError::FeatureNotEnabled(feature).text() == "Feature ("@ + feature@
            + ") not enabled."@,
        Error::FeatureNotEnabled(feature).text() == AccessError::FeatureNotEnabled(feature).text(),
        Error::BucketTooBig.text() == ConfigError::BucketTooBig.text(),
        Error::BitCountTooHigh.text() == ConfigError::BitCountTooHigh.text(),
        import.text(cause) == (match import {
            ImportError::Io(_) => "IO error while importing: "@ + cause,
            ImportError::Config(inner) => "config error on imported data: "@ + inner.text(),
            ImportError::NonZeroError(_) => "conversion error in imported data: "@ + cause,
            ImportError::InvalidHasherName { expected, found } =>
                "Invalid hasher name found in header: \""@ + found@ + "\". Expected: \""@ + expected@
                + "\""@,
            ImportError::InvalidHasherHeader { found } =>
                "Invalid hasher header. Expected \""@ + ":header-end\n"@
                + "\" at the end, but found \""@ + found@ + "\""@,
        }),
        export.text(cause) == "IO error while exporting: "@ + cause,
{
}

} // verus!
