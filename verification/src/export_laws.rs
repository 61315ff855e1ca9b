//! What holds of export and import together: what was exported is imported as it was.
use crate::bytes;
use crate::config::{
    BitCount, CounterConfig, CuckooConfiguration, CuckooConfigurationBuilder, LruAgingStrategy,
    LruConfig, TtlConfig,
};
use crate::exporter;
use crate::exporter::{Exportable, ExportableBuildHasher, ExportableRandomState, Fault};
use crate::filter::CuckooFilter;
use crate::numbers;
use crate::numbers::{NonZeroU32, NonZeroUsize};
use std::hash::Hash;
use vstd::prelude::*;

verus! {

/// Bytes can be put together in any order.
proof fn lemma_joined_four(a: Seq<u8>, b: Seq<u8>, c: Seq<u8>, d: Seq<u8>, rest: Seq<u8>)
    ensures
        a + b + c + d + rest == a + ((b + c + d) + rest),
        (a + b + c + d).len() == a.len() + (b + c + d).len(),
{
    assert(a + b + c + d + rest =~= a + ((b + c + d) + rest));
}

/// Bytes can be put together in any order.
proof fn lemma_joined_three(a: Seq<u8>, b: Seq<u8>, c: Seq<u8>, d: Seq<u8>, rest: Seq<u8>)
    ensures
        a + b + c + d + rest == a + (b + (c + d + rest)),
        exporter::after(a + b + c + d + rest, a.len() as int) == b + (c + d + rest),
        (a + b + c + d).len() == a.len() + b.len() + c.len() + d.len(),
        forall|i: int, j: int|
            0 <= i <= j <= d.len() ==> #[trigger] (a + b + c + d + rest).subrange(
                a.len() + b.len() + c.len() + i,
                a.len() + b.len() + c.len() + j,
            ) == d.subrange(i, j),
{
    let all = a + b + c + d + rest;
    let n = a.len() + b.len() + c.len();
    assert(all =~= a + (b + (c + d + rest)));
    assert(exporter::after(all, a.len() as int) =~= b + (c + d + rest));
    assert forall|i: int, j: int| 0 <= i <= j <= d.len() implies #[trigger] all.subrange(
        a.len() + b.len() + c.len() + i,
        a.len() + b.len() + c.len() + j,
    ) == d.subrange(i, j) by {
        assert(all.subrange(n + i, n + j) =~= d.subrange(i, j));
    }
}

/// The number at the start of bytes, or somewhere in them.
proof fn lemma_u32_at(input: Seq<u8>, at: int, value: u32)
    requires
        0 <= at,
        at + 4 <= input.len(),
        input.subrange(at, at + 4) =~= bytes::u32_bytes(value),
    ensures
        bytes::u32_of(input.subrange(at, at + 4)) == value,
{
    bytes::lemma_u32_bytes(value);
}

/// A bit count in range is read back.
proof fn lemma_bits_read_back(bits: BitCount)
    requires
        1 <= bits@ <= 32,
    ensures
        exporter::parsed_bits(bits@ as u8) == Ok::<BitCount, Fault>(bits),
{
    BitCount::lemma_of_view(bits);
}

/// An aging strategy is read back from its bytes, whatever follows them.
pub proof fn law_strategy_reads_back(strategy: LruAgingStrategy, rest: Seq<u8>)
    ensures
        LruAgingStrategy::parsed(strategy.exported() + rest) == Ok::<
            (LruAgingStrategy, int),
            Fault,
        >((strategy, strategy.exported().len() as int)),
{
    let input = strategy.exported() + rest;
    if let LruAgingStrategy::Decrement(value) = strategy {
        lemma_u32_at(input, 1, value);
    }
}

/// An LRU configuration is read back from its bytes, whatever follows them.
pub proof fn law_lru_reads_back(lru: LruConfig, rest: Seq<u8>, version: int)
    requires
        1 <= lru.counter_bits@ <= 32,
        version >= 2002,
    ensures
        LruConfig::parsed(lru.exported() + rest, version) == Ok::<(LruConfig, int), Fault>(
            (lru, lru.exported().len() as int),
        ),
{
    let input = lru.exported() + rest;
    let n = lru.aging_strategy.exported().len() as int;
    let tail = bytes::u32_bytes(lru.starting_value) + bytes::u32_bytes(lru.increment) + rest;
    assert(exporter::after(input, 2) =~= lru.aging_strategy.exported() + tail);
    law_strategy_reads_back(lru.aging_strategy, tail);
    lemma_u32_at(input, 2 + n, lru.starting_value);
    lemma_u32_at(input, 6 + n, lru.increment);
    lemma_bits_read_back(lru.counter_bits);
}

/// A TTL configuration is read back from its bytes, whatever follows them.
pub proof fn law_ttl_reads_back(ttl: TtlConfig, rest: Seq<u8>)
    requires
        1 <= ttl.ttl_bits@ <= 32,
        ttl.ttl@ != 0,
    ensures
        TtlConfig::parsed(ttl.exported() + rest) == Ok::<(TtlConfig, int), Fault>(
            (ttl, ttl.exported().len() as int),
        ),
{
    let input = ttl.exported() + rest;
    lemma_u32_at(input, 0, ttl.ttl@);
    lemma_bits_read_back(ttl.ttl_bits);
    NonZeroU32::lemma_of_view(ttl.ttl);
}

/// A counter configuration is read back from its bytes, whatever follows them.
pub proof fn law_counter_reads_back(counter: CounterConfig, rest: Seq<u8>)
    requires
        1 <= counter.counter_bits@ <= 32,
    ensures
        CounterConfig::parsed(counter.exported() + rest) == Ok::<(CounterConfig, int), Fault>(
            (counter, counter.exported().len() as int),
        ),
{
    let input = counter.exported() + rest;
    lemma_u32_at(input, 1, counter.change_on_insert as u32);
    lemma_u32_at(input, 5, counter.change_on_lookup as u32);
    bytes::lemma_signed(counter.change_on_insert);
    bytes::lemma_signed(counter.change_on_lookup);
    lemma_bits_read_back(counter.counter_bits);
}

/// Features are read one after the other.
proof fn lemma_feature_reads_back(
    builder: CuckooConfigurationBuilder,
    kind: u8,
    feature: Seq<u8>,
    rest: Seq<u8>,
    version: int,
    more: CuckooConfigurationBuilder,
    all: CuckooConfigurationBuilder,
    n: int,
)
    requires
        1 <= kind <= 3,
        builder.parsed_feature(kind, feature + rest, version) == Ok::<
            (CuckooConfigurationBuilder, int),
            Fault,
        >((more, feature.len() as int)),
        more.parsed_features(rest, version) == Ok::<(CuckooConfigurationBuilder, int), Fault>(
            (all, n),
        ),
    ensures
        builder.parsed_features(seq![kind] + feature + rest, version) == Ok::<
            (CuckooConfigurationBuilder, int),
            Fault,
        >((all, 1 + feature.len() + n)),
{
    let input = seq![kind] + feature + rest;
    assert(exporter::after(input, 1) =~= feature + rest);
    assert(exporter::after(input, 1 + feature.len() as int) =~= rest);
}

/// How many bytes end the features.
pub open spec fn end_len(rest: Seq<u8>) -> int {
    if rest.len() == 0 {
        0
    } else {
        1
    }
}

/// The outcome of reading features.
spec fn all_read(all: CuckooConfigurationBuilder, n: int) -> Result<
    (CuckooConfigurationBuilder, int),
    Fault,
> {
    Ok((all, n))
}

/// The LRU feature is read back, and what follows it.
proof fn lemma_lru_feature(
    configuration: CuckooConfiguration,
    builder: CuckooConfigurationBuilder,
    rest: Seq<u8>,
    version: int,
    all: CuckooConfigurationBuilder,
    n: int,
)
    requires
        configuration.inv(),
        version >= 2002,
        (CuckooConfigurationBuilder {
            lru: builder_of(configuration, builder).lru,
            ..builder
        }).parsed_features(rest, version) == all_read(all, n),
        builder.lru is None,
    ensures
        builder.parsed_features(configuration.exported_lru() + rest, version) == all_read(
            all,
            configuration.exported_lru().len() + n,
        ),
{
    reveal(CuckooConfigurationBuilder::parsed_feature);
    let more = CuckooConfigurationBuilder {
        lru: builder_of(configuration, builder).lru,
        ..builder
    };
    match configuration.lru_field_config {
        Some((c, _)) => {
            law_lru_reads_back(c, rest, version);
            lemma_feature_reads_back(builder, 1, c.exported(), rest, version, more, all, n);
        },
        None => {
            assert(configuration.exported_lru() + rest =~= rest);
        },
    }
}

/// The TTL feature is read back, and what follows it.
proof fn lemma_ttl_feature(
    configuration: CuckooConfiguration,
    builder: CuckooConfigurationBuilder,
    rest: Seq<u8>,
    version: int,
    all: CuckooConfigurationBuilder,
    n: int,
)
    requires
        configuration.inv(),
        (CuckooConfigurationBuilder {
            ttl: builder_of(configuration, builder).ttl,
            ..builder
        }).parsed_features(rest, version) == all_read(all, n),
        builder.ttl is None,
    ensures
        builder.parsed_features(configuration.exported_ttl() + rest, version) == all_read(
            all,
            configuration.exported_ttl().len() + n,
        ),
{
    reveal(CuckooConfigurationBuilder::parsed_feature);
    let more = CuckooConfigurationBuilder {
        ttl: builder_of(configuration, builder).ttl,
        ..builder
    };
    match configuration.ttl_field_config {
        Some((c, _)) => {
            law_ttl_reads_back(c, rest);
            lemma_feature_reads_back(builder, 2, c.exported(), rest, version, more, all, n);
        },
        None => {
            assert(configuration.exported_ttl() + rest =~= rest);
        },
    }
}

/// The counter feature is read back, and what follows it.
proof fn lemma_counter_feature(
    configuration: CuckooConfiguration,
    builder: CuckooConfigurationBuilder,
    rest: Seq<u8>,
    version: int,
    all: CuckooConfigurationBuilder,
    n: int,
)
    requires
        configuration.inv(),
        (CuckooConfigurationBuilder {
            counter: builder_of(configuration, builder).counter,
            ..builder
        }).parsed_features(rest, version) == all_read(all, n),
        builder.counter is None,
    ensures
        builder.parsed_features(configuration.exported_counter() + rest, version) == all_read(
            all,
            configuration.exported_counter().len() + n,
        ),
{
    reveal(CuckooConfigurationBuilder::parsed_feature);
    let more = CuckooConfigurationBuilder {
        counter: builder_of(configuration, builder).counter,
        ..builder
    };
    match configuration.counter_field_config {
        Some((c, _)) => {
            law_counter_reads_back(c, rest);
            lemma_feature_reads_back(builder, 3, c.exported(), rest, version, more, all, n);
        },
        None => {
            assert(configuration.exported_counter() + rest =~= rest);
        },
    }
}

/// The features of a configuration are read back from their bytes, if what follows does not look
/// like a feature.
proof fn lemma_features_read_back(
    configuration: CuckooConfiguration,
    builder: CuckooConfigurationBuilder,
    rest: Seq<u8>,
    version: int,
)
    requires
        configuration.inv(),
        version >= 2002,
        rest.len() == 0 || !(1 <= rest[0] <= 3),
        builder.lru is None,
        builder.ttl is None,
        builder.counter is None,
    ensures
        ({
            let features = configuration.exported_lru() + configuration.exported_ttl()
                + configuration.exported_counter();
            builder.parsed_features(features + rest, version) == all_read(
                builder_of(configuration, builder),
                features.len() + end_len(rest),
            )
        }),
{
    let all = builder_of(configuration, builder);
    let lru = configuration.exported_lru();
    let ttl = configuration.exported_ttl();
    let counter = configuration.exported_counter();
    let with_lru = CuckooConfigurationBuilder { lru: all.lru, ..builder };
    let with_ttl = CuckooConfigurationBuilder { ttl: all.ttl, ..with_lru };
    let n = end_len(rest);
    assert(all.parsed_features(rest, version) == all_read(all, n));
    lemma_counter_feature(configuration, with_ttl, rest, version, all, n);
    let n = counter.len() + n;
    lemma_ttl_feature(configuration, with_lru, counter + rest, version, all, n);
    let n = ttl.len() + n;
    lemma_lru_feature(configuration, builder, ttl + (counter + rest), version, all, n);
    assert(lru + ttl + counter + rest =~= lru + (ttl + (counter + rest)));
}

/// A builder with the features of a configuration.
pub open(crate) spec fn builder_of(
    configuration: CuckooConfiguration,
    builder: CuckooConfigurationBuilder,
) -> CuckooConfigurationBuilder {
    CuckooConfigurationBuilder {
        lru: match configuration.lru_field_config {
            Some((lru, _)) => Some(lru),
            None => None,
        },
        ttl: match configuration.ttl_field_config {
            Some((ttl, _)) => Some(ttl),
            None => None,
        },
        counter: match configuration.counter_field_config {
            Some((counter, _)) => Some(counter),
            None => None,
        },
        ..builder
    }
}

/// The numbers in front of the features are read back.
proof fn lemma_head_reads_back(configuration: CuckooConfiguration, tail: Seq<u8>)
    requires
        configuration.inv(),
        configuration.exportable(),
    ensures
        ({
            let input = configuration.exported_head() + tail;
            let body = exporter::after(input, 5);
            &&& input.len() == 29 + tail.len()
            &&& input[0] == 0
            &&& input[1] == 0
            &&& input[2] == 2
            &&& input[3] == 4
            &&& input[4] == configuration.fingerprint_field_config.end as u8
            &&& bytes::u64_of(body.subrange(0, 8)) == configuration.bucket_size
            &&& bytes::u64_of(body.subrange(8, 16)) == configuration.bucket_count
                * configuration.bucket_size
            &&& bytes::u64_of(body.subrange(16, 24)) == configuration.max_kicks
            &&& exporter::after(body, 24) == tail
        }),
{
    let input = configuration.exported_head() + tail;
    let body = exporter::after(input, 5);
    let size = configuration.bucket_size as u64;
    let entries = (configuration.bucket_count * configuration.bucket_size) as u64;
    let kicks = configuration.max_kicks as u64;
    bytes::lemma_u64_bytes(size);
    bytes::lemma_u64_bytes(entries);
    bytes::lemma_u64_bytes(kicks);
    assert(body.subrange(0, 8) =~= bytes::u64_bytes(size));
    assert(body.subrange(8, 16) =~= bytes::u64_bytes(entries));
    assert(body.subrange(16, 24) =~= bytes::u64_bytes(kicks));
    assert(exporter::after(body, 24) =~= tail);
}

/// The builder that the bytes of a configuration describe.
spec fn exported_builder(configuration: CuckooConfiguration) -> CuckooConfigurationBuilder {
    builder_of(configuration, plain_builder(configuration))
}

/// The builder that the bytes of a configuration describe, without its features.
spec fn plain_builder(configuration: CuckooConfiguration) -> CuckooConfigurationBuilder {
    CuckooConfigurationBuilder {
        fingerprint_bits: BitCount::of(configuration.fingerprint_field_config.end),
        bucket_size: NonZeroUsize::of(configuration.bucket_size),
        max_entries: (configuration.bucket_count * configuration.bucket_size) as usize,
        max_kicks: configuration.max_kicks,
        lru: None,
        ttl: None,
        counter: None,
    }
}

/// The builder that the bytes of a configuration describe builds the configuration.
proof fn lemma_exported_builder(configuration: CuckooConfiguration)
    requires
        configuration.inv(),
        configuration.exportable(),
    ensures
        exported_builder(configuration).builds(configuration),
        exported_builder(configuration).fits(),
{
    let builder = exported_builder(configuration);
    let size = configuration.bucket_size;
    let count = configuration.bucket_count;
    BitCount::lemma_of(configuration.fingerprint_field_config.end);
    NonZeroUsize::lemma_of(size);
    assert(count * size >= 0) by (nonlinear_arith);
    lemma_required_buckets(count as nat, size as nat);
    assert(builder.required_buckets() == count);
    let k = choose|k: nat| count == vstd::arithmetic::power2::pow2(k);
    assert(numbers::is_next_power_of_two(count as nat, count as nat));
    assert(numbers::has_next_power_of_two(count as nat));
    assert(builder.block_bytes() == configuration.data_block_size);
}

/// The bytes of a configuration after the version are read back.
proof fn lemma_body_reads_back(
    configuration: CuckooConfiguration,
    input: Seq<u8>,
    rest: Seq<u8>,
    features: Seq<u8>,
)
    requires
        configuration.inv(),
        configuration.exportable(),
        rest.len() == 0 || !(1 <= rest[0] <= 3),
        features == configuration.exported_lru() + configuration.exported_ttl()
            + configuration.exported_counter(),
        input.len() >= 24,
        bytes::u64_of(input.subrange(0, 8)) == configuration.bucket_size,
        bytes::u64_of(input.subrange(8, 16)) == configuration.bucket_count
            * configuration.bucket_size,
        bytes::u64_of(input.subrange(16, 24)) == configuration.max_kicks,
        exporter::after(input, 24) == features + rest,
    ensures
        CuckooConfigurationBuilder::parsed_body(
            input,
            2004,
            configuration.fingerprint_field_config.end as u8,
        ) == all_read(
            exported_builder(configuration),
            24 + (features.len() + end_len(rest)),
        ),
{
    let bits = BitCount::of(configuration.fingerprint_field_config.end);
    BitCount::lemma_of(configuration.fingerprint_field_config.end);
    lemma_bits_read_back(bits);
    lemma_features_read_back(configuration, plain_builder(configuration), rest, 2004);
}

/// The bytes of a configuration are read back.
proof fn lemma_builder_reads_back(configuration: CuckooConfiguration, rest: Seq<u8>)
    requires
        configuration.inv(),
        configuration.exportable(),
        rest.len() == 0 || !(1 <= rest[0] <= 3),
    ensures
        CuckooConfigurationBuilder::parsed(configuration.exported() + rest) == all_read(
            exported_builder(configuration),
            configuration.exported().len() + end_len(rest),
        ),
{
    reveal(CuckooConfigurationBuilder::parsed);
    let head = configuration.exported_head();
    let features = configuration.exported_lru() + configuration.exported_ttl()
        + configuration.exported_counter();
    let input = configuration.exported() + rest;
    lemma_joined_four(
        head,
        configuration.exported_lru(),
        configuration.exported_ttl(),
        configuration.exported_counter(),
        rest,
    );
    lemma_head_reads_back(configuration, features + rest);
    assert(head.len() == 29);
    lemma_body_reads_back(configuration, exporter::after(input, 5), rest, features);
}

/// As many slots as there are in whole buckets take up these buckets.
proof fn lemma_required_buckets(count: nat, size: nat)
    requires
        size > 0,
    ensures
        numbers::ceil_div(count * size, size) == count,
{
    vstd::arithmetic::div_mod::lemma_div_by_multiple(count as int, size as int);
    vstd::arithmetic::div_mod::lemma_mod_multiples_basic(count as int, size as int);
}

/// A configuration is read back from its bytes, if what follows does not look like a feature. The
/// byte after it is used up.
pub proof fn law_configuration_reads_back(configuration: CuckooConfiguration, rest: Seq<u8>)
    requires
        configuration.inv(),
        configuration.exportable(),
        rest.len() == 0 || !(1 <= rest[0] <= 3),
    ensures
        CuckooConfiguration::parsed(configuration.exported() + rest) == Ok::<
            (CuckooConfiguration, int),
            Fault,
        >((configuration, configuration.exported().len() + end_len(rest))),
{
    let builder = exported_builder(configuration);
    lemma_exported_builder(configuration);
    lemma_builder_reads_back(configuration, rest);
    let built = choose|built: CuckooConfiguration| builder.builds(built);
    exporter::lemma_builds_one(builder, configuration, built);
}

/// Whether an object is read back from its bytes, whatever follows them.
pub open spec fn reads_back<T: Exportable>(object: T) -> bool {
    forall|rest: Seq<u8>| #[trigger]
        T::parsed(object.exported() + rest) == Ok::<(T, int), Fault>(
            (object, object.exported().len() as int),
        )
}

/// A hasher with its keys is read back from its bytes, whatever follows them.
pub proof fn law_random_state_reads_back(state: ExportableRandomState)
    ensures
        reads_back(state),
{
    assert forall|rest: Seq<u8>| #[trigger]
        ExportableRandomState::parsed(state.exported() + rest) == Ok::<
            (ExportableRandomState, int),
            Fault,
        >((state, state.exported().len() as int)) by {
        let input = state.exported() + rest;
        bytes::lemma_u64_bytes(state@.0);
        bytes::lemma_u64_bytes(state@.1);
        assert(input.subrange(0, 8) =~= bytes::u64_bytes(state@.0));
        assert(input.subrange(8, 16) =~= bytes::u64_bytes(state@.1));
        ExportableRandomState::lemma_of_view(state);
    }
}

/// The bytes of the buckets stand one after the other.
proof fn lemma_joined(buckets: Seq<Seq<u8>>, n: int, size: int)
    requires
        0 <= n <= buckets.len(),
        forall|i: int| 0 <= i < buckets.len() ==> #[trigger] buckets[i].len() == size,
    ensures
        exporter::joined(buckets, n).len() == n * size,
    decreases n,
{
    if n > 0 {
        lemma_joined(buckets, n - 1, size);
        assert(n * size == (n - 1) * size + size) by (nonlinear_arith);
        assert(buckets[n - 1].len() == size);
    } else {
        assert(n * size == 0) by (nonlinear_arith)
            requires
                n == 0,
        ;
    }
}

/// Where the bytes of a bucket stand.
proof fn lemma_joined_at(buckets: Seq<Seq<u8>>, n: int, size: int, i: int)
    requires
        0 <= i < n <= buckets.len(),
        0 <= size,
        forall|i: int| 0 <= i < buckets.len() ==> #[trigger] buckets[i].len() == size,
    ensures
        0 <= i * size <= i * size + size <= exporter::joined(buckets, n).len(),
        exporter::joined(buckets, n).subrange(i * size, i * size + size) == buckets[i],
    decreases n,
{
    let before = exporter::joined(buckets, n - 1);
    let all = exporter::joined(buckets, n);
    let at = i * size;
    assert(0 <= at) by (nonlinear_arith)
        requires
            0 <= i,
            0 <= size,
            at == i * size,
    ;
    assert(buckets[n - 1].len() == size);
    if i < n - 1 {
        lemma_joined_at(buckets, n - 1, size, i);
        assert(all.subrange(at, at + size) =~= before.subrange(at, at + size));
    } else {
        lemma_joined(buckets, n - 1, size);
        assert(all.subrange(at, at + size) =~= buckets[i]);
    }
}

/// The hasher of an export is read back.
proof fn lemma_hasher_reads_back<H: ExportableBuildHasher>(hasher: H, rest: Seq<u8>)
    requires
        reads_back(hasher),
    ensures
        ({
            let start = exporter::header::<H>() + hasher.exported() + exporter::header_end();
            exporter::parsed_hasher::<H>(start + rest) == Ok::<(H, int), Fault>(
                (hasher, start.len() as int),
            )
        }),
{
    let head = exporter::header::<H>();
    let end = exporter::header_end();
    let input = head + hasher.exported() + end + rest;
    let n = hasher.exported().len() as int;
    assert(input.subrange(0, head.len() as int) =~= head);
    assert(exporter::after(input, head.len() as int) =~= hasher.exported() + (end + rest));
    assert(input.subrange(head.len() + n, head.len() + n + end.len()) =~= end);
}

/// Bytes that start with those of a hasher and of a configuration are read as these.
proof fn lemma_filter_parses<H: ExportableBuildHasher>(
    hasher: H,
    configuration: CuckooConfiguration,
    middle: Seq<u8>,
    data: Seq<u8>,
    rest: Seq<u8>,
)
    requires
        configuration.inv(),
        configuration.exportable(),
        reads_back(hasher),
        middle == configuration.exported(),
        data.len() == configuration.bucket_count * configuration.bucket_len(),
    ensures
        ({
            let head = exporter::header::<H>() + hasher.exported() + exporter::header_end();
            exporter::parsed_filter::<H>(head + middle + seq![0x0au8] + data + rest) == Ok::<
                (H, CuckooConfigurationBuilder, int),
                Fault,
            >((hasher, exported_builder(configuration), (head.len() + middle.len() + 1) as int))
        }),
{
    let head = exporter::header::<H>() + hasher.exported() + exporter::header_end();
    let end = seq![0x0au8];
    lemma_joined_three(head, middle, end, data, rest);
    lemma_hasher_reads_back(hasher, middle + (end + data + rest));
    lemma_exported_builder(configuration);
    lemma_builder_reads_back(configuration, end + data + rest);
    exporter::lemma_builder_builds(exported_builder(configuration), configuration);
}

/// What is exported is imported as it was: the bytes of a filter describe its hasher, if that is
/// read back from its bytes, and its configuration, and its buckets. What follows the bytes of the
/// filter makes no difference.
pub proof fn law_import_reads_export<H: ExportableBuildHasher>(
    filter: CuckooFilter<H>,
    rest: Seq<u8>,
)
    requires
        filter.wf(),
        filter.config().exportable(),
        reads_back(filter.hasher()),
    ensures
        ({
            let exported = exporter::exported_filter(
                filter.hasher(),
                filter.config(),
                filter.bytes(),
            );
            exporter::parsed_filter::<H>(exported + rest) matches Ok((hasher, builder, start))
                && filter.is_read_from(exported + rest, hasher, builder, start) && start
                + builder.bucket_total() * builder.bucket_len() == exported.len()
        }),
{
    filter.lemma_shape();
    filter.lemma_bytes();
    let hasher = filter.hasher();
    let configuration = filter.config();
    let buckets = filter.bytes();
    let size = configuration.bucket_len();
    let head = exporter::header::<H>() + hasher.exported() + exporter::header_end();
    let middle = configuration.exported();
    let end = seq![0x0au8];
    let data = exporter::joined(buckets, buckets.len() as int);
    let input = exporter::exported_filter(hasher, configuration, buckets) + rest;
    lemma_joined(buckets, buckets.len() as int, size);
    lemma_filter_parses(hasher, configuration, middle, data, rest);
    lemma_exported_builder(configuration);
    exporter::lemma_builder_builds(exported_builder(configuration), configuration);
    lemma_joined_three(head, middle, end, data, rest);
    let start = (head.len() + middle.len() + 1) as int;
    assert forall|i: int| 0 <= i < buckets.len() implies #[trigger] buckets[i] == input.subrange(
        start + i * size,
        start + i * size + size,
    ) by {
        lemma_joined_at(buckets, buckets.len() as int, size, i);
        assert(input.subrange(
            head.len() + middle.len() + end.len() + i * size,
            head.len() + middle.len() + end.len() + (i * size + size),
        ) == data.subrange(i * size, i * size + size));
    }
}

/// A filter that was read from the bytes of another one is set up alike and stores the same.
pub proof fn law_imported_filter_is_the_same<H: ExportableBuildHasher>(
    filter: CuckooFilter<H>,
    rest: Seq<u8>,
    imported: CuckooFilter<H>,
)
    requires
        filter.wf(),
        filter.config().exportable(),
        reads_back(filter.hasher()),
        ({
            let input = exporter::exported_filter(
                filter.hasher(),
                filter.config(),
                filter.bytes(),
            ) + rest;
            exporter::parsed_filter::<H>(input) matches Ok((hasher, builder, start))
                && imported.is_read_from(input, hasher, builder, start)
        }),
    ensures
        imported.same_setup(&filter),
        imported.bytes() == filter.bytes(),
        imported@ == filter@,
{
    law_import_reads_export(filter, rest);
    let input = exporter::exported_filter(filter.hasher(), filter.config(), filter.bytes()) + rest;
    if let Ok((hasher, builder, start)) = exporter::parsed_filter::<H>(input) {
        exporter::lemma_builds_one(builder, filter.config(), imported.config());
        assert(imported.bytes() =~= filter.bytes());
        filter.lemma_bytes();
        imported.lemma_bytes();
        assert(imported@ =~= filter@);
    }
}

/// A filter that was read from the bytes of another one contains the same keys.
pub proof fn law_imported_filter_contains_the_same_keys<
    H: ExportableBuildHasher,
    K: Hash + ?Sized,
>(filter: CuckooFilter<H>, imported: CuckooFilter<H>, key: &K)
    requires
        imported.same_setup(&filter),
        imported@ == filter@,
    ensures
        imported.contains_key(key) == filter.contains_key(key),
{
}

} // verus!
