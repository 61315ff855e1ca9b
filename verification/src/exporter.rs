//! Export of a filter into bytes, and import from bytes.
use crate::bucket::Bucket;
use crate::bytes;
use crate::bytes::{push_bytes, push_u32, push_u64, same_bytes, ByteReader};
use crate::config::{
    BitCount, ConfigError, CounterConfig, CuckooConfiguration, CuckooConfigurationBuilder,
    LruAgingStrategy, LruConfig, TtlConfig,
};
use crate::data_block::DataBlockFieldConfiguration;
use crate::numbers;
use crate::numbers::{div_ceil, fits_next_power_of_two, NonZeroU32, NonZeroUsize};
use crate::random::random_u64;
use std::hash::BuildHasher;
use std::num::TryFromIntError;
use vstd::prelude::*;
use vstd::utf8;

verus! {

/// The error type of `std::io`.
#[verifier::external_type_specification]
#[verifier::external_body]
pub struct ExIoError(std::io::Error);

/// Calls `std::io::Error::from` for the kind `UnexpectedEof`, which is the error that reading past
/// the end gives. Nothing is said of the error that comes back.
#[verifier::external_body]
fn unexpected_end() -> std::io::Error {
    std::io::Error::from(std::io::ErrorKind::UnexpectedEof)
}

/// The error of bytes that end too early.
pub(crate) fn end_of_input() -> (error: ImportError)
    ensures
        error.fault() == Fault::End,
{
    ImportError::Io(unexpected_end())
}

/// Error type for import operations.
#[derive(Debug)]
pub enum ImportError {
    /// Error due to underlying IO error. Bytes that end too early give this error.
    Io(std::io::Error),
    /// Error due to reading invalid stored configuration.
    Config(ConfigError),
    /// Error due to reading a zero value for a field that does not allow zeroes, or a value that
    /// is too big.
    NonZeroError(TryFromIntError),
    /// Error due to mismatch in hasher names, between the stored and expected hasher.
    InvalidHasherName {
        /// Expected name for the hasher (defined by the type of hasher for
        /// [`crate::CuckooFilter`]).
        expected: String,
        /// Found name for the hasher (value stored in the exported data).
        found: String,
    },
    /// Error due to malformed header in the export.
    InvalidHasherHeader {
        /// Found value in the header that did not match the standard value.
        found: String,
    },
}

/// Error type for export operations.
#[derive(Debug)]
pub enum ExportError {
    /// Error due to underlying IO error.
    Io(std::io::Error),
}

/// What is wrong with bytes that cannot be imported.
pub enum Fault {
    /// The bytes end too early.
    End,
    /// The stored configuration is invalid.
    Config(ConfigError),
    /// A number is zero that must not be, or too big.
    OutOfRange,
    /// The bytes were written with a hasher of another name.
    HasherName {
        /// The expected name.
        expected: Seq<char>,
        /// The name in the bytes.
        found: Seq<char>,
    },
    /// The header does not end as it should.
    HasherHeader {
        /// What stands in the place of the end.
        found: Seq<char>,
    },
}

impl ImportError {
    /// What the error says is wrong with the bytes.
    pub open spec fn fault(&self) -> Fault {
        match self {
            ImportError::Io(_) => Fault::End,
            ImportError::Config(error) => Fault::Config(*error),
            ImportError::NonZeroError(_) => Fault::OutOfRange,
            ImportError::InvalidHasherName { expected, found } => Fault::HasherName {
                expected: expected@,
                found: found@,
            },
            ImportError::InvalidHasherHeader { found } => Fault::HasherHeader { found: found@ },
        }
    }

    /// The text of the error. The text of an underlying error of `std` is given.
    pub open spec fn text(&self, cause: Seq<char>) -> Seq<char> {
        match self {
            ImportError::Io(_) => "IO error while importing: "@ + cause,
            ImportError::Config(error) => "config error on imported data: "@ + error.text(),
            ImportError::NonZeroError(_) => "conversion error in imported data: "@ + cause,
            ImportError::InvalidHasherName { expected, found } =>
                "Invalid hasher name found in header: \""@ + found@ + "\". Expected: \""@ + expected@
                + "\""@,
            ImportError::InvalidHasherHeader { found } =>
                "Invalid hasher header. Expected \""@ + ":header-end\n"@
                + "\" at the end, but found \""@ + found@ + "\""@,
        }
    }

    /// Describes the error. The text of an underlying error of `std` is taken from the caller.
    pub fn message(&self, cause: &str) -> (text: String)
        ensures
            text@ == self.text(cause@),
    {
        match self {
            ImportError::Io(_) => "IO error while importing: ".to_owned().concat(cause),
            ImportError::Config(error) => "config error on imported data: ".to_owned().concat(
                error.message().as_str(),
            ),
            ImportError::NonZeroError(_) =>
                "conversion error in imported data: ".to_owned().concat(cause),
            ImportError::InvalidHasherName { expected, found } => {
                let text = "Invalid hasher name found in header: \"".to_owned().concat(
                    found.as_str(),
                );
                text.concat("\". Expected: \"").concat(expected.as_str()).concat("\"")
            },
            ImportError::InvalidHasherHeader { found } => {
                let text = "Invalid hasher header. Expected \"".to_owned().concat(":header-end\n");
                text.concat("\" at the end, but found \"").concat(found.as_str()).concat("\"")
            },
        }
    }
}

impl ExportError {
    /// The text of the error. The text of the underlying error of `std` is given.
    pub open spec fn text(&self, cause: Seq<char>) -> Seq<char> {
        "IO error while exporting: "@ + cause
    }

    /// Describes the error. The text of the underlying error of `std` is taken from the caller.
    pub fn message(&self, cause: &str) -> (text: String)
        ensures
            text@ == self.text(cause@),
    {
        "IO error while exporting: ".to_owned().concat(cause)
    }
}

impl From<std::io::Error> for ImportError {
    fn from(value: std::io::Error) -> (error: Self) {
        Self::Io(value)
    }
}

impl vstd::std_specs::convert::FromSpecImpl<std::io::Error> for ImportError {
    open spec fn obeys_from_spec() -> bool {
        true
    }

    open spec fn from_spec(value: std::io::Error) -> Self {
        ImportError::Io(value)
    }
}

impl From<ConfigError> for ImportError {
    fn from(value: ConfigError) -> (error: Self) {
        Self::Config(value)
    }
}

impl vstd::std_specs::convert::FromSpecImpl<ConfigError> for ImportError {
    open spec fn obeys_from_spec() -> bool {
        true
    }

    open spec fn from_spec(value: ConfigError) -> Self {
        ImportError::Config(value)
    }
}

impl From<TryFromIntError> for ImportError {
    fn from(value: TryFromIntError) -> (error: Self) {
        Self::NonZeroError(value)
    }
}

impl vstd::std_specs::convert::FromSpecImpl<TryFromIntError> for ImportError {
    open spec fn obeys_from_spec() -> bool {
        true
    }

    open spec fn from_spec(value: TryFromIntError) -> Self {
        ImportError::NonZeroError(value)
    }
}

impl From<std::io::Error> for ExportError {
    fn from(value: std::io::Error) -> (error: Self) {
        Self::Io(value)
    }
}

impl vstd::std_specs::convert::FromSpecImpl<std::io::Error> for ExportError {
    open spec fn obeys_from_spec() -> bool {
        true
    }

    open spec fn from_spec(value: std::io::Error) -> Self {
        ExportError::Io(value)
    }
}

/// What stands after the first `n` bytes.
pub open spec fn after(input: Seq<u8>, n: int) -> Seq<u8> {
    input.subrange(n, input.len() as int)
}

/// Whether reading `before` gave what `parsed` says: the value and the rest of the bytes, or the
/// fault.
pub open spec fn reads<T>(
    parsed: Result<(T, int), Fault>,
    before: Seq<u8>,
    result: Result<T, ImportError>,
    rest: Seq<u8>,
) -> bool {
    match (parsed, result) {
        (Ok((value, n)), Ok(read)) => read == value && 0 <= n <= before.len() && rest == after(
            before,
            n as int,
        ),
        (Err(fault), Err(error)) => error.fault() == fault,
        _ => false,
    }
}

/// A bit count read from a byte.
pub open spec fn parsed_bits(byte: u8) -> Result<BitCount, Fault> {
    if byte > 32 {
        Err(Fault::Config(ConfigError::BitCountTooHigh))
    } else if byte < 1 {
        Err(Fault::Config(ConfigError::BitCountTooLow))
    } else {
        Ok(BitCount::of(byte as usize))
    }
}

/// Converts a byte into a bit count.
fn bits_of(byte: u8) -> (result: Result<BitCount, ImportError>)
    ensures
        match (parsed_bits(byte), result) {
            (Ok(expected), Ok(bits)) => bits == expected,
            (Err(fault), Err(error)) => error.fault() == fault,
            _ => false,
        },
{
    match BitCount::try_from(byte as usize) {
        Ok(bits) => Ok(bits),
        Err(error) => Err(ImportError::Config(error)),
    }
}

impl LruAgingStrategy {
    /// The bytes of the strategy.
    pub open spec fn exported(self) -> Seq<u8> {
        match self {
            LruAgingStrategy::Halving => seq![1u8],
            LruAgingStrategy::Decrement(value) => seq![2u8] + bytes::u32_bytes(value),
        }
    }

    /// The strategy that bytes start with.
    pub open spec fn parsed(input: Seq<u8>) -> Result<(Self, int), Fault> {
        if input.len() < 1 {
            Err(Fault::End)
        } else if input[0] == 2 {
            if input.len() < 5 {
                Err(Fault::End)
            } else {
                Ok((LruAgingStrategy::Decrement(bytes::u32_of(input.subrange(1, 5))), 5))
            }
        } else {
            Ok((LruAgingStrategy::Halving, 1))
        }
    }

    /// Writes the strategy.
    pub fn write_to(&self, writer: &mut Vec<u8>) -> (result: Result<(), ExportError>)
        ensures
            result is Ok,
            final(writer)@ == old(writer)@ + self.exported(),
    {
        match self {
            LruAgingStrategy::Halving => {
                writer.push(1u8);
            },
            LruAgingStrategy::Decrement(value) => {
                writer.push(2u8);
                push_u32(writer, *value);
            },
        }
        assert(writer@ =~= old(writer)@ + self.exported());
        Ok(())
    }

    /// Reads a strategy. What is not known is read as the default.
    pub fn read_from(reader: &mut ByteReader) -> (result: Result<Self, ImportError>)
        ensures
            reads(Self::parsed(old(reader)@), old(reader)@, result, final(reader)@),
    {
        let strategy: u8 = match reader.read_u8() {
            Some(value) => value,
            None => {
                return Err(end_of_input());
            },
        };
        if strategy == 2 {
            match reader.read_u32() {
                Some(value) => {
                    proof {
                        let input = old(reader)@;
                        assert(after(input, 1).subrange(0, 4) =~= input.subrange(1, 5));
                        assert(after(after(input, 1), 4) =~= after(input, 5));
                    }
                    Ok(LruAgingStrategy::Decrement(value))
                },
                None => Err(end_of_input()),
            }
        } else {
            Ok(LruAgingStrategy::default())
        }
    }
}

impl LruConfig {
    /// The bytes of the configuration.
    pub open spec fn exported(self) -> Seq<u8> {
        seq![
            self.counter_bits@ as u8,
            if self.remove_on_zero {
                1u8
            } else {
                0u8
            },
        ] + self.aging_strategy.exported() + bytes::u32_bytes(self.starting_value) + bytes::u32_bytes(
            self.increment,
        )
    }

    /// The configuration that bytes start with, which were written by the given version.
    ///
    /// Versions before 2000 wrote the bits only, versions before 2002 nothing about aging and
    /// counting.
    pub open spec fn parsed(input: Seq<u8>, version: int) -> Result<(Self, int), Fault> {
        if input.len() < 1 || (version >= 2000 && input.len() < 2) {
            Err(Fault::End)
        } else {
            let plain = (LruAgingStrategy::Halving, 1u32, 1u32, if version >= 2000 {
                2int
            } else {
                1int
            });
            let aging = if version >= 2002 {
                Self::parsed_aging(input)
            } else {
                Ok(plain)
            };
            match aging {
                Err(fault) => Err(fault),
                Ok((aging_strategy, starting_value, increment, n)) => match parsed_bits(input[0]) {
                    Err(fault) => Err(fault),
                    Ok(counter_bits) => Ok(
                        (
                            LruConfig {
                                counter_bits,
                                remove_on_zero: version >= 2000 && input[1] != 0,
                                aging_strategy,
                                starting_value,
                                increment,
                            },
                            n,
                        ),
                    ),
                },
            }
        }
    }

    /// The aging strategy, the starting value and the increment, and where they end.
    pub open spec fn parsed_aging(input: Seq<u8>) -> Result<
        (LruAgingStrategy, u32, u32, int),
        Fault,
    > {
        match LruAgingStrategy::parsed(after(input, 2)) {
            Err(fault) => Err(fault),
            Ok((strategy, n)) => if input.len() < 2 + n + 8 {
                Err(Fault::End)
            } else {
                Ok(
                    (
                        strategy,
                        bytes::u32_of(input.subrange(2 + n, 6 + n)),
                        bytes::u32_of(input.subrange(6 + n, 10 + n)),
                        10 + n,
                    ),
                )
            },
        }
    }

    /// Writes the configuration.
    pub fn write_to(&self, writer: &mut Vec<u8>) -> (result: Result<(), ExportError>)
        ensures
            result is Ok,
            final(writer)@ == old(writer)@ + self.exported(),
    {
        writer.push(u8::from(self.counter_bits));
        writer.push(
            if self.remove_on_zero {
                1u8
            } else {
                0u8
            },
        );
        let _ = self.aging_strategy.write_to(writer);
        push_u32(writer, self.starting_value);
        push_u32(writer, self.increment);
        assert(writer@ =~= old(writer)@ + self.exported());
        Ok(())
    }

    /// Reads a configuration that was written by the given version.
    pub fn read_from(reader: &mut ByteReader, version: usize) -> (result: Result<
        Self,
        ImportError,
    >)
        ensures
            reads(
                Self::parsed(old(reader)@, version as int),
                old(reader)@,
                result,
                final(reader)@,
            ),
    {
        let ghost input = reader@;
        let bits: u8 = match reader.read_u8() {
            Some(value) => value,
            None => {
                return Err(end_of_input());
            },
        };
        let mut remove_on_zero = false;
        let mut aging_strategy = LruAgingStrategy::default();
        let mut starting_value: u32 = 1;
        let mut increment: u32 = 1;
        if version >= 2000 {
            remove_on_zero = match reader.read_u8() {
                Some(value) => value != 0,
                None => {
                    return Err(end_of_input());
                },
            };
            assert(reader@ =~= after(input, 2));
        }
        if version >= 2002 {
            aging_strategy = match LruAgingStrategy::read_from(reader) {
                Ok(strategy) => strategy,
                Err(error) => {
                    return Err(error);
                },
            };
            let ghost n = LruAgingStrategy::parsed(after(input, 2))->Ok_0.1;
            assert(reader@ =~= after(input, 2 + n));
            starting_value = match reader.read_u32() {
                Some(value) => value,
                None => {
                    return Err(end_of_input());
                },
            };
            assert(after(input, 2 + n).subrange(0, 4) =~= input.subrange(2 + n, 6 + n));
            assert(reader@ =~= after(input, 6 + n));
            increment = match reader.read_u32() {
                Some(value) => value,
                None => {
                    return Err(end_of_input());
                },
            };
            assert(after(input, 6 + n).subrange(0, 4) =~= input.subrange(6 + n, 10 + n));
            assert(reader@ =~= after(input, 10 + n));
        }
        let counter_bits = match bits_of(bits) {
            Ok(bits) => bits,
            Err(error) => {
                return Err(error);
            },
        };
        Ok(Self { counter_bits, remove_on_zero, aging_strategy, starting_value, increment })
    }
}

impl TtlConfig {
    /// The bytes of the configuration.
    pub open spec fn exported(self) -> Seq<u8> {
        bytes::u32_bytes(self.ttl@) + seq![self.ttl_bits@ as u8]
    }

    /// The configuration that bytes start with.
    pub open spec fn parsed(input: Seq<u8>) -> Result<(Self, int), Fault> {
        if input.len() < 5 {
            Err(Fault::End)
        } else if bytes::u32_of(input.subrange(0, 4)) == 0 {
            Err(Fault::OutOfRange)
        } else {
            match parsed_bits(input[4]) {
                Err(fault) => Err(fault),
                Ok(ttl_bits) => Ok(
                    (
                        TtlConfig { ttl: NonZeroU32::of(bytes::u32_of(input.subrange(0, 4))), ttl_bits },
                        5,
                    ),
                ),
            }
        }
    }

    /// Writes the configuration.
    pub fn write_to(&self, writer: &mut Vec<u8>) -> (result: Result<(), ExportError>)
        ensures
            result is Ok,
            final(writer)@ == old(writer)@ + self.exported(),
    {
        push_u32(writer, self.ttl.get());
        writer.push(u8::from(self.ttl_bits));
        assert(writer@ =~= old(writer)@ + self.exported());
        Ok(())
    }

    /// Reads a configuration.
    pub fn read_from(reader: &mut ByteReader) -> (result: Result<Self, ImportError>)
        ensures
            reads(Self::parsed(old(reader)@), old(reader)@, result, final(reader)@),
    {
        let ghost input = reader@;
        let ttl: u32 = match reader.read_u32() {
            Some(value) => value,
            None => {
                return Err(end_of_input());
            },
        };
        let bits: u8 = match reader.read_u8() {
            Some(value) => value,
            None => {
                return Err(end_of_input());
            },
        };
        assert(reader@ =~= after(input, 5));
        let ttl = match NonZeroU32::try_from(ttl) {
            Ok(ttl) => ttl,
            Err(error) => {
                return Err(ImportError::NonZeroError(error));
            },
        };
        let ttl_bits = match bits_of(bits) {
            Ok(bits) => bits,
            Err(error) => {
                return Err(error);
            },
        };
        Ok(Self { ttl, ttl_bits })
    }
}

impl CounterConfig {
    /// The bytes of the configuration.
    pub open spec fn exported(self) -> Seq<u8> {
        seq![self.counter_bits@ as u8] + bytes::u32_bytes(self.change_on_insert as u32) + bytes::u32_bytes(
            self.change_on_lookup as u32,
        )
    }

    /// The configuration that bytes start with.
    pub open spec fn parsed(input: Seq<u8>) -> Result<(Self, int), Fault> {
        if input.len() < 9 {
            Err(Fault::End)
        } else {
            match parsed_bits(input[0]) {
                Err(fault) => Err(fault),
                Ok(counter_bits) => Ok(
                    (
                        CounterConfig {
                            counter_bits,
                            change_on_insert: bytes::u32_of(input.subrange(1, 5)) as i32,
                            change_on_lookup: bytes::u32_of(input.subrange(5, 9)) as i32,
                        },
                        9,
                    ),
                ),
            }
        }
    }

    /// Writes the configuration.
    pub fn write_to(&self, writer: &mut Vec<u8>) -> (result: Result<(), ExportError>)
        ensures
            result is Ok,
            final(writer)@ == old(writer)@ + self.exported(),
    {
        writer.push(u8::from(self.counter_bits));
        push_u32(writer, #[verifier::truncate] (self.change_on_insert as u32));
        push_u32(writer, #[verifier::truncate] (self.change_on_lookup as u32));
        assert(writer@ =~= old(writer)@ + self.exported());
        Ok(())
    }

    /// Reads a configuration.
    pub fn read_from(reader: &mut ByteReader) -> (result: Result<Self, ImportError>)
        ensures
            reads(Self::parsed(old(reader)@), old(reader)@, result, final(reader)@),
    {
        let ghost input = reader@;
        let bits: u8 = match reader.read_u8() {
            Some(value) => value,
            None => {
                return Err(end_of_input());
            },
        };
        let change_on_insert: u32 = match reader.read_u32() {
            Some(value) => value,
            None => {
                return Err(end_of_input());
            },
        };
        assert(after(input, 1).subrange(0, 4) =~= input.subrange(1, 5));
        assert(reader@ =~= after(input, 5));
        let change_on_lookup: u32 = match reader.read_u32() {
            Some(value) => value,
            None => {
                return Err(end_of_input());
            },
        };
        assert(after(input, 5).subrange(0, 4) =~= input.subrange(5, 9));
        assert(reader@ =~= after(input, 9));
        let counter_bits = match bits_of(bits) {
            Ok(bits) => bits,
            Err(error) => {
                return Err(error);
            },
        };
        Ok(
            Self {
                counter_bits,
                change_on_insert: #[verifier::truncate] (change_on_insert as i32),
                change_on_lookup: #[verifier::truncate] (change_on_lookup as i32),
            },
        )
    }
}

/// A trait representing objects that can be exported (e.g. persisted into a file).
///
/// This trait is needed for [`CuckooFilterExporter`].
pub trait Exportable: Clone {
    /// Whether the object can be written.
    spec fn exportable(&self) -> bool;

    /// The bytes of the object.
    spec fn exported(&self) -> Seq<u8>;

    /// The object that bytes start with, and how many bytes it takes up.
    spec fn parsed(input: Seq<u8>) -> Result<(Self, int), Fault>;

    /// Writes the state of this object into the provided writer.
    fn write_to(&self, writer: &mut Vec<u8>) -> (result: Result<(), ExportError>)
        requires
            self.exportable(),
        ensures
            result is Ok,
            final(writer)@ == old(writer)@ + self.exported(),
    ;

    /// Reads the stored state to create an instance of this object.
    fn read_from(reader: &mut ByteReader) -> (result: Result<Self, ImportError>)
        ensures
            reads(Self::parsed(old(reader)@), old(reader)@, result, final(reader)@),
    ;
}

/// A trait representing [`BuildHasher`] instances that can be exported (e.g. persisted into a
/// file).
///
/// This trait is needed for [`CuckooFilterExporter`].
pub trait ExportableBuildHasher: Exportable + BuildHasher {
    /// Unique name of this [`ExportableBuildHasher`]. This will be stored in the header of exported
    /// data.
    const NAME: &'static str;
}

/// Implementation of [`ExportableBuildHasher`], similar to [`std::hash::RandomState`].
#[derive(Clone, Copy)]
pub struct ExportableRandomState {
    k0: u64,
    k1: u64,
}

/// Whether a number is one that a random draw can give.
pub closed spec fn is_random_key(key: u64) -> bool {
    call_ensures(random_u64, (), key)
}

impl ExportableRandomState {
    /// The keys of the hasher.
    pub closed spec fn view(&self) -> (u64, u64) {
        (self.k0, self.k1)
    }

    /// The hasher with the given keys.
    pub closed spec fn of(k0: u64, k1: u64) -> Self {
        ExportableRandomState { k0, k1 }
    }

    /// A hasher is known by its keys.
    pub proof fn lemma_of(k0: u64, k1: u64)
        ensures
            Self::of(k0, k1)@ == (k0, k1),
    {
    }

    /// Every hasher is that of its keys.
    pub proof fn lemma_of_view(state: Self)
        ensures
            Self::of(state@.0, state@.1) == state,
    {
    }

    /// Creates an instance with fixed keys.
    pub fn new() -> (state: Self)
        ensures
            state@ == (0u64, 0u64),
    {
        Self { k0: 0, k1: 0 }
    }

    /// Creates a new random instance. Both keys are drawn at random, and nothing is known of which
    /// they are.
    #[must_use]
    pub fn new_random() -> (state: Self)
        ensures
            is_random_key(state@.0),
            is_random_key(state@.1),
    {
        Self { k0: random_u64(), k1: random_u64() }
    }
}

impl Default for ExportableRandomState {
    fn default() -> (state: Self)
        ensures
            state@ == (0u64, 0u64),
    {
        Self::new()
    }
}

/// The hasher type of `std::hash` that takes its keys from the caller.
#[verifier::external_type_specification]
#[verifier::external_body]
#[allow(deprecated)]
pub struct ExSipHasher(std::hash::SipHasher);

/// Calls `SipHasher::new_with_keys`. Nothing is said of the hashes that it gives.
#[verifier::external_body]
#[allow(deprecated)]
fn sip_hasher(k0: u64, k1: u64) -> std::hash::SipHasher {
    std::hash::SipHasher::new_with_keys(k0, k1)
}

/// Whether a hasher is one that is made with the given keys.
#[allow(deprecated)]
pub closed spec fn is_sip_hasher(k0: u64, k1: u64, hasher: std::hash::SipHasher) -> bool {
    call_ensures(sip_hasher, (k0, k1), hasher)
}

#[allow(deprecated)]
impl BuildHasher for ExportableRandomState {
    type Hasher = std::hash::SipHasher;

    fn build_hasher(&self) -> (hasher: std::hash::SipHasher)
        ensures
            is_sip_hasher(self@.0, self@.1, hasher),
    {
        sip_hasher(self.k0, self.k1)
    }
}

impl Exportable for ExportableRandomState {
    open spec fn exportable(&self) -> bool {
        true
    }

    open spec fn exported(&self) -> Seq<u8> {
        bytes::u64_bytes(self@.0) + bytes::u64_bytes(self@.1)
    }

    open spec fn parsed(input: Seq<u8>) -> Result<(Self, int), Fault> {
        if input.len() < 16 {
            Err(Fault::End)
        } else {
            Ok(
                (
                    ExportableRandomState::of(
                        bytes::u64_of(input.subrange(0, 8)),
                        bytes::u64_of(input.subrange(8, 16)),
                    ),
                    16,
                ),
            )
        }
    }

    fn write_to(&self, writer: &mut Vec<u8>) -> (result: Result<(), ExportError>) {
        push_u64(writer, self.k0);
        push_u64(writer, self.k1);
        assert(writer@ =~= old(writer)@ + self.exported());
        Ok(())
    }

    fn read_from(reader: &mut ByteReader) -> (result: Result<Self, ImportError>) {
        let ghost input = reader@;
        let k0: u64 = match reader.read_u64() {
            Some(value) => value,
            None => {
                return Err(end_of_input());
            },
        };
        let k1: u64 = match reader.read_u64() {
            Some(value) => value,
            None => {
                return Err(end_of_input());
            },
        };
        assert(after(input, 8).subrange(0, 8) =~= input.subrange(8, 16));
        assert(reader@ =~= after(input, 16));
        Ok(Self { k0, k1 })
    }
}

impl ExportableBuildHasher for ExportableRandomState {
    const NAME: &'static str = "cuckoo_clock::exporter::ExportableRandomState";
}

/// The bytes that an export starts with, before the state of the hasher.
pub open spec fn header<H: ExportableBuildHasher>() -> Seq<u8> {
    utf8::encode_utf8("cuckoo-clock::"@) + utf8::encode_utf8(H::NAME@)
        + utf8::encode_utf8(":"@)
}

/// The bytes that stand after the state of the hasher.
pub open spec fn header_end() -> Seq<u8> {
    utf8::encode_utf8(":header-end\n"@)
}

/// Bytes as text. Bytes that are no text give a fixed text.
pub open spec fn text_of(bytes: Seq<u8>) -> Seq<char> {
    if utf8::valid_utf8(bytes) {
        utf8::decode_utf8(bytes)
    } else {
        "<non UTF-8 data>"@
    }
}

/// Calls `String::from_utf8`, which gives the text of bytes that are valid UTF-8, and an error for
/// other bytes.
#[verifier::external_body]
fn string_from_utf8(bytes: Vec<u8>) -> (text: Option<String>)
    ensures
        text is Some == utf8::valid_utf8(bytes@),
        text matches Some(text) ==> text@ == utf8::decode_utf8(bytes@),
{
    String::from_utf8(bytes).ok()
}

/// Shows bytes as text.
fn show_bytes(bytes: &[u8]) -> (text: String)
    ensures
        text@ == text_of(bytes@),
{
    match string_from_utf8(vstd::slice::slice_to_vec(bytes)) {
        Some(text) => text,
        None => "<non UTF-8 data>".to_owned(),
    }
}

impl CuckooConfigurationBuilder {
    /// Whether the configuration can be built: whether its buckets can be counted and represented.
    pub open spec fn fits(self) -> bool {
        &&& numbers::has_next_power_of_two(self.required_buckets())
        &&& self.bucket_size@ * self.block_bytes() <= usize::MAX
    }

    /// The configuration after a feature was read from bytes, which were written by the given
    /// version. The kind of the feature is 1 for LRU, 2 for TTL and 3 for the counter.
    #[verifier::opaque]
    pub open spec fn parsed_feature(self, kind: u8, input: Seq<u8>, version: int) -> Result<
        (Self, int),
        Fault,
    > {
        if kind == 1 {
            match LruConfig::parsed(input, version) {
                Ok((lru, n)) => Ok((Self { lru: Some(lru), ..self }, n)),
                Err(fault) => Err(fault),
            }
        } else if kind == 2 {
            match TtlConfig::parsed(input) {
                Ok((ttl, n)) => Ok((Self { ttl: Some(ttl), ..self }, n)),
                Err(fault) => Err(fault),
            }
        } else {
            match CounterConfig::parsed(input) {
                Ok((counter, n)) => Ok((Self { counter: Some(counter), ..self }, n)),
                Err(fault) => Err(fault),
            }
        }
    }

    /// The configuration after all features were read from bytes. The features end with a byte that
    /// stands for none of them, or with the bytes.
    pub open spec fn parsed_features(self, input: Seq<u8>, version: int) -> Result<
        (Self, int),
        Fault,
    >
        decreases input.len(),
    {
        if input.len() == 0 {
            Ok((self, 0))
        } else if !(1 <= input[0] <= 3) {
            Ok((self, 1))
        } else {
            match self.parsed_feature(input[0], after(input, 1), version) {
                Ok((builder, n)) => if 0 <= n < input.len() {
                    match builder.parsed_features(after(input, 1 + n), version) {
                        Ok((all, m)) => Ok((all, 1 + n + m)),
                        Err(fault) => Err(fault),
                    }
                } else {
                    Err(Fault::End)
                },
                Err(fault) => Err(fault),
            }
        }
    }

    /// The configuration after its first bytes, which tell the version and the fingerprint bits.
    pub open spec fn parsed_body(input: Seq<u8>, version: int, bits: u8) -> Result<
        (Self, int),
        Fault,
    > {
        match parsed_bits(bits) {
            Err(fault) => Err(fault),
            Ok(fingerprint_bits) => if input.len() < 24 {
                Err(Fault::End)
            } else {
                let bucket_size = bytes::u64_of(input.subrange(0, 8));
                let max_entries = bytes::u64_of(input.subrange(8, 16));
                let max_kicks = bytes::u64_of(input.subrange(16, 24));
                if max_entries > usize::MAX || bucket_size > usize::MAX || bucket_size == 0
                    || max_kicks > usize::MAX {
                    Err(Fault::OutOfRange)
                } else {
                    let builder = CuckooConfigurationBuilder {
                        fingerprint_bits,
                        bucket_size: NonZeroUsize::of(bucket_size as usize),
                        max_entries: max_entries as usize,
                        max_kicks: max_kicks as usize,
                        lru: None,
                        ttl: None,
                        counter: None,
                    };
                    match builder.parsed_features(after(input, 24), version) {
                        Ok((all, n)) => Ok((all, 24 + n)),
                        Err(fault) => Err(fault),
                    }
                }
            },
        }
    }

    /// The configuration that bytes start with.
    ///
    /// A first byte of 0 is followed by the version that wrote the bytes. Versions before that
    /// start with the fingerprint bits.
    #[verifier::opaque]
    pub open spec fn parsed(input: Seq<u8>) -> Result<(Self, int), Fault> {
        if input.len() < 1 {
            Err(Fault::End)
        } else if input[0] == 0 {
            if input.len() < 5 {
                Err(Fault::End)
            } else {
                match Self::parsed_body(
                    after(input, 5),
                    1_000_000 * input[1] + 1_000 * input[2] + input[3],
                    input[4],
                ) {
                    Ok((builder, n)) => Ok((builder, 5 + n)),
                    Err(fault) => Err(fault),
                }
            }
        } else {
            match Self::parsed_body(after(input, 1), 1_000, input[0]) {
                Ok((builder, n)) => Ok((builder, 1 + n)),
                Err(fault) => Err(fault),
            }
        }
    }

    /// Reads a feature.
    fn read_feature(self, kind: u8, reader: &mut ByteReader, version: usize) -> (result: Result<
        Self,
        ImportError,
    >)
        requires
            1 <= kind <= 3,
        ensures
            reads(
                self.parsed_feature(kind, old(reader)@, version as int),
                old(reader)@,
                result,
                final(reader)@,
            ),
    {
        reveal(CuckooConfigurationBuilder::parsed_feature);
        if kind == 1 {
            match LruConfig::read_from(reader, version) {
                Ok(lru) => Ok(self.with_lru(lru)),
                Err(error) => Err(error),
            }
        } else if kind == 2 {
            match TtlConfig::read_from(reader) {
                Ok(ttl) => Ok(self.with_ttl(ttl)),
                Err(error) => Err(error),
            }
        } else {
            match CounterConfig::read_from(reader) {
                Ok(counter) => Ok(self.with_counter(counter)),
                Err(error) => Err(error),
            }
        }
    }

    /// Reads features until a byte that stands for none of them, or until the bytes end.
    fn read_features(self, reader: &mut ByteReader, version: usize) -> (result: Result<
        Self,
        ImportError,
    >)
        ensures
            reads(
                self.parsed_features(old(reader)@, version as int),
                old(reader)@,
                result,
                final(reader)@,
            ),
    {
        let ghost input = reader@;
        let mut builder = self;
        let ghost mut used: int = 0;
        proof {
            assert(after(input, 0) =~= input);
        }
        loop
            invariant
                input == old(reader)@,
                0 <= used <= input.len(),
                reader@ == after(input, used),
                match builder.parsed_features(reader@, version as int) {
                    Ok((all, n)) => self.parsed_features(input, version as int) == Ok::<_, Fault>(
                        (all, used + n),
                    ),
                    Err(fault) => self.parsed_features(input, version as int) == Err::<
                        (Self, int),
                        _,
                    >(fault),
                },
            decreases input.len() - used,
        {
            let ghost before = reader@;
            let kind: u8 = match reader.read_u8() {
                Some(kind) => kind,
                None => {
                    return Ok(builder);
                },
            };
            proof {
                assert(after(after(input, used), 1) =~= after(input, used + 1));
            }
            if kind < 1 || kind > 3 {
                // Not a feature, so this is the end of the configuration
                return Ok(builder);
            }
            let ghost parsed = builder.parsed_feature(kind, after(before, 1), version as int);
            match builder.read_feature(kind, reader, version) {
                Ok(more) => {
                    builder = more;
                },
                Err(error) => {
                    return Err(error);
                },
            }
            proof {
                let n = parsed->Ok_0.1;
                assert(after(after(input, used + 1), n) =~= after(input, used + 1 + n));
                assert(after(before, 1 + n) =~= after(input, used + 1 + n));
                used = used + 1 + n;
            }
        }
    }

    /// Reads what follows the version and the fingerprint bits.
    fn read_body(reader: &mut ByteReader, version: usize, bits: u8) -> (result: Result<
        Self,
        ImportError,
    >)
        ensures
            reads(
                Self::parsed_body(old(reader)@, version as int, bits),
                old(reader)@,
                result,
                final(reader)@,
            ),
    {
        let ghost input = reader@;
        let fingerprint_bits = match bits_of(bits) {
            Ok(bits) => bits,
            Err(error) => {
                return Err(error);
            },
        };
        let bucket_size: u64 = match reader.read_u64() {
            Some(value) => value,
            None => {
                return Err(end_of_input());
            },
        };
        let max_entries: u64 = match reader.read_u64() {
            Some(value) => value,
            None => {
                return Err(end_of_input());
            },
        };
        assert(after(input, 8).subrange(0, 8) =~= input.subrange(8, 16));
        assert(reader@ =~= after(input, 16));
        let max_kicks: u64 = match reader.read_u64() {
            Some(value) => value,
            None => {
                return Err(end_of_input());
            },
        };
        assert(after(input, 16).subrange(0, 8) =~= input.subrange(16, 24));
        assert(reader@ =~= after(input, 24));
        let max_entries: usize = match usize::try_from(max_entries) {
            Ok(value) => value,
            Err(error) => {
                return Err(ImportError::NonZeroError(error));
            },
        };
        let bucket_size: usize = match usize::try_from(bucket_size) {
            Ok(value) => value,
            Err(error) => {
                return Err(ImportError::NonZeroError(error));
            },
        };
        let bucket_size = match NonZeroUsize::try_from(bucket_size) {
            Ok(size) => size,
            Err(error) => {
                return Err(ImportError::NonZeroError(error));
            },
        };
        let max_kicks: usize = match usize::try_from(max_kicks) {
            Ok(value) => value,
            Err(error) => {
                return Err(ImportError::NonZeroError(error));
            },
        };
        let builder = CuckooConfigurationBuilder {
            fingerprint_bits,
            bucket_size,
            max_entries,
            max_kicks,
            lru: None,
            ttl: None,
            counter: None,
        };
        let result = builder.read_features(reader, version);
        proof {
            if let Ok((_, n)) = builder.parsed_features(after(input, 24), version as int) {
                if result is Ok {
                    assert(after(after(input, 24), n) =~= after(input, 24 + n));
                }
            }
        }
        result
    }

    /// Reads a configuration.
    pub fn read_from(reader: &mut ByteReader) -> (result: Result<Self, ImportError>)
        ensures
            reads(Self::parsed(old(reader)@), old(reader)@, result, final(reader)@),
    {
        reveal(CuckooConfigurationBuilder::parsed);
        let ghost input = reader@;
        let first: u8 = match reader.read_u8() {
            Some(value) => value,
            None => {
                return Err(end_of_input());
            },
        };
        let mut version: usize = 1_000;
        let mut bits: u8 = first;
        let ghost mut used: int = 1;
        if first == 0 {
            // This is a version header
            let parts = match reader.read(4) {
                Some(parts) => parts,
                None => {
                    return Err(end_of_input());
                },
            };
            version = 1_000_000 * (parts[0] as usize) + 1_000 * (parts[1] as usize) + (parts[2]
                as usize);
            bits = parts[3];
            assert(reader@ =~= after(input, 5));
            proof {
                used = 5;
            }
        }
        let result = Self::read_body(reader, version, bits);
        proof {
            if let Ok((_, n)) = Self::parsed_body(after(input, used), version as int, bits) {
                if result is Ok {
                    assert(after(after(input, used), n) =~= after(input, used + n));
                }
            }
        }
        result
    }
}

/// A builder builds one configuration only.
pub(crate) proof fn lemma_builds_one(
    builder: CuckooConfigurationBuilder,
    a: CuckooConfiguration,
    b: CuckooConfiguration,
)
    requires
        builder.builds(a),
        builder.builds(b),
    ensures
        a == b,
{
    numbers::lemma_next_power_is_unique(
        builder.required_buckets(),
        a.bucket_count as nat,
        b.bucket_count as nat,
    );
    lemma_same_field(a.fingerprint_field_config, b.fingerprint_field_config);
    if let (Some((_, f)), Some((_, g))) = (a.lru_field_config, b.lru_field_config) {
        lemma_same_field(f, g);
    }
    if let (Some((_, f)), Some((_, g))) = (a.ttl_field_config, b.ttl_field_config) {
        lemma_same_field(f, g);
    }
    if let (Some((_, f)), Some((_, g))) = (a.counter_field_config, b.counter_field_config) {
        lemma_same_field(f, g);
    }
}

/// A field is known by its bits.
proof fn lemma_same_field(f: DataBlockFieldConfiguration, g: DataBlockFieldConfiguration)
    requires
        f.inv(),
        g.inv(),
        f.spec_start() == g.spec_start(),
        f.spec_end() == g.spec_end(),
    ensures
        f == g,
{
}

impl CuckooConfiguration {
    /// The bytes of the LRU feature.
    pub open(crate) spec fn exported_lru(self) -> Seq<u8> {
        match self.lru_field_config {
            Some((lru, _)) => seq![1u8] + lru.exported(),
            None => Seq::empty(),
        }
    }

    /// The bytes of the TTL feature.
    pub open(crate) spec fn exported_ttl(self) -> Seq<u8> {
        match self.ttl_field_config {
            Some((ttl, _)) => seq![2u8] + ttl.exported(),
            None => Seq::empty(),
        }
    }

    /// The bytes of the counter feature.
    pub open(crate) spec fn exported_counter(self) -> Seq<u8> {
        match self.counter_field_config {
            Some((counter, _)) => seq![3u8] + counter.exported(),
            None => Seq::empty(),
        }
    }

    /// The bytes that stand before the features: the version of the library after a 0, and the sizes
    /// of the filter.
    pub open(crate) spec fn exported_head(self) -> Seq<u8> {
        seq![0u8, 0u8, 2u8, 4u8, self.fingerprint_field_config.end as u8] + bytes::u64_bytes(
            self.bucket_size as u64,
        ) + bytes::u64_bytes((self.bucket_count * self.bucket_size) as u64) + bytes::u64_bytes(
            self.max_kicks as u64,
        )
    }

    /// Writes what stands before the features.
    fn write_head(&self, writer: &mut Vec<u8>)
        requires
            self.exportable(),
        ensures
            final(writer)@ == old(writer)@ + self.exported_head(),
    {
        proof {
            use_type_invariant(&*self);
        }
        writer.push(0u8);
        writer.push(0u8);
        writer.push(2u8);
        writer.push(4u8);
        writer.push(self.fingerprint_field_config.end as u8);
        push_u64(writer, self.bucket_size as u64);
        push_u64(writer, (self.bucket_count * self.bucket_size) as u64);
        push_u64(writer, self.max_kicks as u64);
        assert(writer@ =~= old(writer)@ + self.exported_head());
    }

    /// Checks if the configuration can be written, that is, if its slots can be counted.
    pub fn is_exportable(&self) -> (exportable: bool)
        ensures
            exportable == self.exportable(),
    {
        self.bucket_count.checked_mul(self.bucket_size).is_some()
    }

    /// Returns the number of bytes that the buckets take up, if it can be represented.
    pub fn buckets_len(&self) -> (len: Option<usize>)
        ensures
            match len {
                Some(len) => len == self.bucket_total() * self.bucket_len(),
                None => self.bucket_total() * self.bucket_len() > usize::MAX,
            },
    {
        self.bucket_count.checked_mul(self.bucket_byte_size)
    }
}

impl Exportable for CuckooConfiguration {
    open(crate) spec fn exportable(&self) -> bool {
        self.bucket_count * self.bucket_size <= usize::MAX
    }

    open(crate) spec fn exported(&self) -> Seq<u8> {
        self.exported_head() + self.exported_lru() + self.exported_ttl() + self.exported_counter()
    }

    open(crate) spec fn parsed(input: Seq<u8>) -> Result<(Self, int), Fault> {
        match CuckooConfigurationBuilder::parsed(input) {
            Ok((builder, n)) => if builder.fits() {
                Ok((choose|configuration: CuckooConfiguration| builder.builds(configuration), n))
            } else {
                Err(Fault::Config(ConfigError::BucketTooBig))
            },
            Err(fault) => Err(fault),
        }
    }

    fn write_to(&self, writer: &mut Vec<u8>) -> (result: Result<(), ExportError>) {
        self.write_head(writer);
        let ghost head = writer@;
        if let Some((lru, _)) = &self.lru_field_config {
            writer.push(1u8);
            let _ = lru.write_to(writer);
        }
        let ghost with_lru = writer@;
        assert(with_lru =~= head + self.exported_lru());
        if let Some((ttl, _)) = &self.ttl_field_config {
            writer.push(2u8);
            let _ = ttl.write_to(writer);
        }
        let ghost with_ttl = writer@;
        assert(with_ttl =~= with_lru + self.exported_ttl());
        if let Some((counter, _)) = &self.counter_field_config {
            writer.push(3u8);
            let _ = counter.write_to(writer);
        }
        assert(writer@ =~= with_ttl + self.exported_counter());
        assert(writer@ =~= old(writer)@ + self.exported());
        Ok(())
    }

    fn read_from(reader: &mut ByteReader) -> (result: Result<Self, ImportError>)
        ensures
            result matches Ok(configuration) ==> CuckooConfigurationBuilder::parsed(
                old(reader)@,
            )->Ok_0.0.builds(configuration),
    {
        let builder = match CuckooConfigurationBuilder::read_from(reader) {
            Ok(builder) => builder,
            Err(error) => {
                return Err(error);
            },
        };
        if !fits_next_power_of_two(div_ceil(builder.max_entries, builder.bucket_size.get())) {
            return Err(ImportError::Config(ConfigError::BucketTooBig));
        }
        match builder.build() {
            Ok(configuration) => {
                proof {
                    lemma_builds_one(
                        builder,
                        configuration,
                        choose|configuration: CuckooConfiguration| builder.builds(configuration),
                    );
                }
                Ok(configuration)
            },
            Err(error) => Err(ImportError::Config(error)),
        }
    }
}

/// Bytes without the given bytes at their start, as often as they stand there.
pub open spec fn trimmed_start(input: Seq<u8>, start: Seq<u8>) -> Seq<u8>
    decreases input.len(),
{
    if start.len() > 0 && start.is_prefix_of(input) {
        trimmed_start(after(input, start.len() as int), start)
    } else {
        input
    }
}

/// Bytes without the given byte at their end, as often as it stands there.
pub open spec fn trimmed_end(input: Seq<u8>, end: u8) -> Seq<u8>
    decreases input.len(),
{
    if input.len() > 0 && input.last() == end {
        trimmed_end(input.drop_last(), end)
    } else {
        input
    }
}

/// The name of the hasher in a header that does not match.
pub open spec fn found_name(prefix: Seq<u8>) -> Seq<char> {
    text_of(trimmed_end(trimmed_start(prefix, utf8::encode_utf8("cuckoo-clock::"@)), 0x3a))
}

/// The hasher that an export starts with, and how many bytes the header takes up.
pub open spec fn parsed_hasher<H: ExportableBuildHasher>(input: Seq<u8>) -> Result<
    (H, int),
    Fault,
> {
    let start = header::<H>().len() as int;
    if input.len() < start {
        Err(Fault::End)
    } else if input.subrange(0, start) != header::<H>() {
        Err(
            Fault::HasherName {
                expected: H::NAME@,
                found: found_name(input.subrange(0, start)),
            },
        )
    } else {
        match H::parsed(after(input, start)) {
            Err(fault) => Err(fault),
            Ok((hasher, n)) => {
                let end = header_end().len() as int;
                if input.len() < start + n + end {
                    Err(Fault::End)
                } else if input.subrange(start + n, start + n + end) != header_end() {
                    Err(
                        Fault::HasherHeader {
                            found: text_of(input.subrange(start + n, start + n + end)),
                        },
                    )
                } else {
                    Ok((hasher, start + n + end))
                }
            },
        }
    }
}

/// The header of an export.
fn header_bytes<H: ExportableBuildHasher>() -> (bytes: Vec<u8>)
    ensures
        bytes@ == header::<H>(),
{
    let mut bytes: Vec<u8> = Vec::new();
    push_bytes(&mut bytes, "cuckoo-clock::".as_bytes());
    push_bytes(&mut bytes, H::NAME.as_bytes());
    push_bytes(&mut bytes, ":".as_bytes());
    assert(bytes@ =~= header::<H>());
    bytes
}

/// The name of the hasher in a header that does not match.
fn show_found_name(prefix: &[u8]) -> (name: String)
    ensures
        name@ == found_name(prefix@),
{
    let mut name: &[u8] = prefix;
    let pattern: &[u8] = "cuckoo-clock::".as_bytes();
    let size: usize = pattern.len();
    while size > 0 && name.len() >= size && same_bytes(
        vstd::slice::slice_subrange(name, 0, size),
        pattern,
    )
        invariant
            size == pattern@.len(),
            trimmed_start(name@, pattern@) == trimmed_start(prefix@, pattern@),
        decreases name@.len(),
    {
        name = vstd::slice::slice_subrange(name, size, name.len());
    }
    assert(pattern@.len() > 0 && pattern@.is_prefix_of(name@) ==> name@.subrange(
        0,
        size as int,
    ) =~= pattern@);
    let ghost start = name@;
    while name.len() > 0 && name[name.len() - 1] == 0x3a
        invariant
            trimmed_end(name@, 0x3a) == trimmed_end(start, 0x3a),
        decreases name@.len(),
    {
        let len: usize = name.len();
        let ghost before = name@;
        name = vstd::slice::slice_subrange(name, 0, len - 1);
        assert(name@ =~= before.drop_last());
    }
    show_bytes(name)
}

/// Reads the header of an export and the hasher in it.
pub fn read_hasher_from<H: ExportableBuildHasher>(reader: &mut ByteReader) -> (result: Result<
    H,
    ImportError,
>)
    ensures
        reads(parsed_hasher::<H>(old(reader)@), old(reader)@, result, final(reader)@),
{
    let ghost input = reader@;
    let expected: Vec<u8> = header_bytes::<H>();
    let prefix = match reader.read(expected.len()) {
        Some(prefix) => prefix,
        None => {
            return Err(end_of_input());
        },
    };
    if !same_bytes(prefix, expected.as_slice()) {
        return Err(
            ImportError::InvalidHasherName {
                expected: H::NAME.to_owned(),
                found: show_found_name(prefix),
            },
        );
    }
    let ghost start = header::<H>().len() as int;
    let hasher = match H::read_from(reader) {
        Ok(hasher) => hasher,
        Err(error) => {
            return Err(error);
        },
    };
    let ghost n = H::parsed(after(input, start))->Ok_0.1;
    assert(reader@ =~= after(input, start + n));
    let end: &[u8] = ":header-end\n".as_bytes();
    let suffix = match reader.read(end.len()) {
        Some(suffix) => suffix,
        None => {
            return Err(end_of_input());
        },
    };
    assert(suffix@ =~= input.subrange(start + n, start + n + header_end().len()));
    assert(reader@ =~= after(input, start + n + header_end().len()));
    if !same_bytes(suffix, end) {
        return Err(ImportError::InvalidHasherHeader { found: show_bytes(suffix) });
    }
    Ok(hasher)
}

/// The bytes of the first `n` buckets.
pub open spec fn joined(buckets: Seq<Seq<u8>>, n: int) -> Seq<u8>
    decreases n,
{
    if n <= 0 {
        Seq::empty()
    } else {
        joined(buckets, n - 1) + buckets[n - 1]
    }
}

/// The bytes of a filter: the header with the hasher, the configuration, and the buckets.
pub open spec fn exported_filter<H: ExportableBuildHasher>(
    hasher: H,
    configuration: CuckooConfiguration,
    buckets: Seq<Seq<u8>>,
) -> Seq<u8> {
    header::<H>() + hasher.exported() + header_end() + configuration.exported() + seq![0x0au8]
        + joined(buckets, buckets.len() as int)
}

/// Exporter for [`crate::CuckooFilter`].
pub struct CuckooFilterExporter<'a, H: ExportableBuildHasher> {
    hasher: &'a H,
    buckets: &'a Vec<Bucket>,
    config: &'a CuckooConfiguration,
}

impl<'a, H: ExportableBuildHasher> CuckooFilterExporter<'a, H> {
    /// Whether the filter can be written.
    pub closed spec fn exportable(&self) -> bool {
        self.hasher.exportable() && self.config.exportable()
    }

    /// The bytes of the filter.
    pub closed spec fn exported(&self) -> Seq<u8> {
        exported_filter(
            *self.hasher,
            *self.config,
            Seq::new(self.buckets@.len(), |i: int| self.buckets@[i]@),
        )
    }

    pub(crate) fn new(
        hasher: &'a H,
        buckets: &'a Vec<Bucket>,
        config: &'a CuckooConfiguration,
    ) -> (exporter: Self)
        ensures
            exporter.exportable() == (hasher.exportable() && config.exportable()),
            exporter.exported() == exported_filter(
                *hasher,
                *config,
                Seq::new(buckets@.len(), |i: int| buckets@[i]@),
            ),
    {
        Self { hasher, buckets, config }
    }

    /// Writes the entire [`crate::CuckooFilter`] state at the end of the provided bytes.
    pub fn write_to(&self, writer: &mut Vec<u8>) -> (result: Result<(), ExportError>)
        requires
            self.exportable(),
        ensures
            result is Ok,
            final(writer)@ == old(writer)@ + self.exported(),
    {
        let ghost buckets = Seq::new(self.buckets@.len(), |i: int| self.buckets@[i]@);
        let name: Vec<u8> = header_bytes::<H>();
        push_bytes(writer, name.as_slice());
        let _ = self.hasher.write_to(writer);
        push_bytes(writer, ":header-end\n".as_bytes());
        let _ = self.config.write_to(writer);
        writer.push(0x0a);
        let ghost head = header::<H>() + self.hasher.exported() + header_end()
            + self.config.exported() + seq![0x0au8];
        assert(writer@ =~= old(writer)@ + head);
        let ghost start = writer@;
        let mut i: usize = 0;
        assert(writer@ =~= start + joined(buckets, 0));
        while i < self.buckets.len()
            invariant
                i <= self.buckets@.len(),
                buckets == Seq::new(self.buckets@.len(), |i: int| self.buckets@[i]@),
                writer@ == start + joined(buckets, i as int),
            decreases self.buckets@.len() - i,
        {
            self.buckets[i].export(writer);
            i = i + 1;
            assert(writer@ =~= start + joined(buckets, i as int));
        }
        assert(writer@ =~= old(writer)@ + (head + joined(buckets, buckets.len() as int)));
        Ok(())
    }

    /// Writes the entire [`crate::CuckooFilter`] state into a [`Vec`].
    pub fn snapshot(&self) -> (result: Result<Vec<u8>, ExportError>)
        requires
            self.exportable(),
        ensures
            result matches Ok(bytes) && bytes@ == self.exported(),
    {
        let mut result: Vec<u8> = Vec::new();
        match self.write_to(&mut result) {
            Ok(()) => {
                assert(result@ =~= self.exported());
                Ok(result)
            },
            Err(error) => Err(error),
        }
    }
}

impl CuckooConfigurationBuilder {
    /// The number of buckets of the configuration.
    pub open spec fn bucket_total(self) -> nat {
        choose|count: nat| numbers::is_next_power_of_two(self.required_buckets(), count)
    }

    /// The number of bytes of a bucket of the configuration.
    pub open spec fn bucket_len(self) -> int {
        self.bucket_size@ * self.block_bytes()
    }
}

/// What bytes of a filter start with: the hasher, the configuration, and where the buckets begin.
pub open spec fn parsed_filter<H: ExportableBuildHasher>(input: Seq<u8>) -> Result<
    (H, CuckooConfigurationBuilder, int),
    Fault,
> {
    match parsed_hasher::<H>(input) {
        Err(fault) => Err(fault),
        Ok((hasher, n)) => match CuckooConfigurationBuilder::parsed(after(input, n)) {
            Err(fault) => Err(fault),
            Ok((builder, m)) => if !builder.fits() {
                Err(Fault::Config(ConfigError::BucketTooBig))
            } else if input.len() < n + m + builder.bucket_total() * builder.bucket_len() {
                Err(Fault::End)
            } else {
                Ok((hasher, builder, n + m))
            },
        },
    }
}

/// The sizes of a configuration are those that its builder says.
pub(crate) proof fn lemma_builder_builds(
    builder: CuckooConfigurationBuilder,
    configuration: CuckooConfiguration,
)
    requires
        builder.builds(configuration),
    ensures
        builder.bucket_total() == configuration.bucket_count,
        builder.bucket_len() == configuration.bucket_byte_size,
{
    assert(numbers::is_next_power_of_two(
        builder.required_buckets(),
        configuration.bucket_count as nat,
    ));
    numbers::lemma_next_power_is_unique(
        builder.required_buckets(),
        builder.bucket_total(),
        configuration.bucket_count as nat,
    );
}

} // verus!
