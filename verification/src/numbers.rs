//! Numbers with a restricted range, and the arithmetic that sizes a filter.
use std::num::TryFromIntError;
use vstd::arithmetic::power2;
use vstd::prelude::*;
use vstd::std_specs::convert::TryFromSpec;

verus! {

/// A `usize` that is not zero.
#[derive(Clone, Copy, Debug, PartialEq, Eq)]
pub struct NonZeroUsize(usize);

/// A `u32` that is not zero.
#[derive(Clone, Copy, Debug, PartialEq, Eq)]
pub struct NonZeroU32(u32);

/// The error of a number conversion that is out of range: that of converting 256 into a `u8`.
pub open spec fn range_error() -> TryFromIntError {
    <u8 as TryFromSpec<u16>>::try_from_spec(256u16)->Err_0
}

/// The error of a number conversion that is out of range.
pub(crate) fn out_of_range() -> (error: TryFromIntError)
    ensures
        error == range_error(),
{
    match u8::try_from(256u16) {
        Ok(_) => vstd::pervasive::unreached(),
        Err(error) => error,
    }
}

impl NonZeroUsize {
    #[verifier::type_invariant]
    spec fn inv(self) -> bool {
        self.0 != 0
    }

    /// The number.
    pub closed spec fn view(self) -> usize {
        self.0
    }

    /// The number with the given value.
    pub closed spec fn of(value: usize) -> Self {
        NonZeroUsize(value)
    }

    /// A number is known by its value.
    pub proof fn lemma_of(value: usize)
        ensures
            Self::of(value)@ == value,
    {
    }

    /// Every number is that of its value.
    pub proof fn lemma_of_view(number: Self)
        ensures
            Self::of(number@) == number,
    {
    }

    /// A number that is known not to be zero.
    pub(crate) fn new(value: usize) -> (number: Self)
        requires
            value != 0,
        ensures
            number@ == value,
            number == Self::of(value),
    {
        Self(value)
    }

    /// Returns the number.
    pub fn get(self) -> (value: usize)
        ensures
            value == self@,
            value != 0,
    {
        proof {
            use_type_invariant(&self);
        }
        self.0
    }
}

impl NonZeroU32 {
    #[verifier::type_invariant]
    pub open(crate) spec fn inv(self) -> bool {
        self@ != 0
    }

    /// The number.
    pub closed spec fn view(self) -> u32 {
        self.0
    }

    /// The number with the given value.
    pub closed spec fn of(value: u32) -> Self {
        NonZeroU32(value)
    }

    /// A number is known by its value.
    pub proof fn lemma_of(value: u32)
        ensures
            Self::of(value)@ == value,
    {
    }

    /// Every number is that of its value.
    pub proof fn lemma_of_view(number: Self)
        ensures
            Self::of(number@) == number,
    {
    }

    /// Returns the number.
    pub fn get(self) -> (value: u32)
        ensures
            value == self@,
            value != 0,
    {
        proof {
            use_type_invariant(&self);
        }
        self.0
    }
}

impl vstd::std_specs::convert::TryFromSpecImpl<usize> for NonZeroUsize {
    open spec fn obeys_try_from_spec() -> bool {
        false
    }

    open spec fn try_from_spec(value: usize) -> Result<Self, TryFromIntError> {
        arbitrary()
    }
}

impl TryFrom<usize> for NonZeroUsize {
    type Error = TryFromIntError;

    fn try_from(value: usize) -> (result: Result<Self, TryFromIntError>)
        ensures
            result is Ok <==> value != 0,
            result matches Ok(number) ==> number@ == value && number == Self::of(value),
            result matches Err(error) ==> error == range_error(),
    {
        if value == 0 {
            Err(out_of_range())
        } else {
            Ok(Self(value))
        }
    }
}

impl vstd::std_specs::convert::TryFromSpecImpl<u32> for NonZeroU32 {
    open spec fn obeys_try_from_spec() -> bool {
        false
    }

    open spec fn try_from_spec(value: u32) -> Result<Self, TryFromIntError> {
        arbitrary()
    }
}

impl TryFrom<u32> for NonZeroU32 {
    type Error = TryFromIntError;

    fn try_from(value: u32) -> (result: Result<Self, TryFromIntError>)
        ensures
            result is Ok <==> value != 0,
            result matches Ok(number) ==> number@ == value && number == Self::of(value),
            result matches Err(error) ==> error == range_error(),
    {
        if value == 0 {
            Err(out_of_range())
        } else {
            Ok(Self(value))
        }
    }
}

/// `a` divided by `b`, rounded up.
pub open spec fn ceil_div(a: nat, b: nat) -> nat {
    (a / b + (if a % b == 0 {
        0nat
    } else {
        1nat
    })) as nat
}

/// Divides and rounds up.
pub fn div_ceil(a: usize, b: usize) -> (quotient: usize)
    requires
        b != 0,
    ensures
        quotient == ceil_div(a as nat, b as nat),
{
    proof {
        if a % b != 0 {
            assert(a / b < a) by (nonlinear_arith)
                requires
                    a % b != 0,
                    b != 0,
            ;
        }
    }
    if a % b == 0 {
        a / b
    } else {
        a / b + 1
    }
}

/// Whether `power` is the smallest power of two that is not below `n`.
pub open spec fn is_next_power_of_two(n: nat, power: nat) -> bool {
    &&& exists|k: nat| power == power2::pow2(k)
    &&& n <= power
    &&& forall|k: nat| n <= #[trigger] power2::pow2(k) ==> power <= power2::pow2(k)
}

/// There is only one next power of two.
pub proof fn lemma_next_power_is_unique(n: nat, a: nat, b: nat)
    requires
        is_next_power_of_two(n, a),
        is_next_power_of_two(n, b),
    ensures
        a == b,
{
    let k = choose|k: nat| a == power2::pow2(k);
    let l = choose|l: nat| b == power2::pow2(l);
}

/// Whether some power of two that is not below `n` fits into a `usize`.
pub open spec fn has_next_power_of_two(n: nat) -> bool {
    exists|k: nat| n <= #[trigger] power2::pow2(k) <= usize::MAX
}

/// Checks if some power of two that is not below `n` fits into a `usize`.
pub fn fits_next_power_of_two(n: usize) -> (fits: bool)
    ensures
        fits == has_next_power_of_two(n as nat),
{
    let limit: usize = usize::MAX / 2 + 1;
    proof {
        power2::lemma2_to64();
        power2::lemma_pow2_unfold(32);
        power2::lemma_pow2_unfold(64);
        let half: nat = if usize::BITS == 32 {
            31
        } else {
            63
        };
        assert(power2::pow2(half) == limit);
        assert(power2::pow2(half + 1) == usize::MAX + 1);
        assert forall|k: nat| n > limit && n <= #[trigger] power2::pow2(k) implies power2::pow2(k)
            > usize::MAX by {
            if k < half + 1 {
                if k < half {
                    power2::lemma_pow2_strictly_increases(k, half);
                }
            } else if k > half + 1 {
                power2::lemma_pow2_strictly_increases(half + 1, k);
            }
        }
    }
    n <= limit
}

/// The smallest power of two that is not below `n`.
pub fn next_power_of_two(n: usize) -> (power: usize)
    requires
        has_next_power_of_two(n as nat),
    ensures
        is_next_power_of_two(n as nat, power as nat),
        power > 0,
{
    let mut power: usize = 1;
    let ghost mut k: nat = 0;
    proof {
        power2::lemma2_to64();
        assert forall|j: nat| n <= #[trigger] power2::pow2(j) implies 1 <= power2::pow2(j) by {
            power2::lemma_pow2_pos(j);
        }
    }
    while power < n
        invariant
            has_next_power_of_two(n as nat),
            power == power2::pow2(k),
            power > 0,
            forall|j: nat| n <= #[trigger] power2::pow2(j) ==> power <= power2::pow2(j),
        decreases usize::MAX - power,
    {
        proof {
            power2::lemma_pow2_unfold(k + 1);
            assert forall|j: nat| n <= #[trigger] power2::pow2(j) implies power2::pow2(k + 1) <= power2::pow2(j) by {
                if j < k + 1 {
                    if j < k {
                        power2::lemma_pow2_strictly_increases(j, k);
                    }
                } else if j > k + 1 {
                    power2::lemma_pow2_strictly_increases(k + 1, j);
                }
            }
            k = k + 1;
        }
        power = power * 2;
    }
    power
}

} // verus!
