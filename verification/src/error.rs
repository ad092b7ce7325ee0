//! The error type shared by every pool operation.

use crate::math::MathError;
use vstd::prelude::*;
use vstd::std_specs::convert::FromSpecImpl;

verus! {

/// Every failure a pool operation can report.
///
/// The variants are grouped by the hundreds digit of their numeric code; see
/// [`AstroSwapError::code`].
#[derive(Copy, Clone, Debug, PartialEq, Eq, PartialOrd, Ord, Structural)]
pub enum AstroSwapError {
    AlreadyInitialized,
    NotInitialized,
    Unauthorized,
    InvalidArgument,
    Overflow,
    Underflow,
    DivisionByZero,
    Reentrancy,
    InvalidToken,
    SameToken,
    InsufficientBalance,
    InsufficientAllowance,
    TransferFailed,
    InsufficientLiquidity,
    InvalidAmount,
    InsufficientShares,
    MinimumNotMet,
    PoolNotFound,
    PairExists,
    PairNotFound,
    SlippageExceeded,
    DeadlineExpired,
    InsufficientOutputAmount,
    ExcessiveInputAmount,
    InvalidPath,
    PriceImpactTooHigh,
    StakingPoolNotFound,
    InsufficientStake,
    StakingNotStarted,
    StakingEnded,
    NoRewardsAvailable,
    InvalidStakingPeriod,
    StakeNotFound,
    InvalidFee,
    FeeTooHigh,
    TimelockNotExpired,
    InvalidAdmin,
    ContractPaused,
    ProtocolNotFound,
    InvalidRoute,
    RouteNotFound,
    AdapterError,
    TokenNotGraduated,
    AlreadyGraduated,
    InvalidLaunchpad,
    GraduationFailed,
    InvalidPair,
}

/// The pool error that stands for an arithmetic error.
pub open spec fn spec_from_math(e: MathError) -> AstroSwapError {
    match e {
        MathError::Overflow => AstroSwapError::Overflow,
        MathError::Underflow => AstroSwapError::Underflow,
        MathError::DivisionByZero => AstroSwapError::DivisionByZero,
        MathError::InvalidInput => AstroSwapError::InvalidArgument,
    }
}

/// An arithmetic result seen as a pool result: the value is kept and the
/// error is converted by `spec_from_math`.
pub open spec fn lift<T>(r: Result<T, MathError>) -> Result<T, AstroSwapError> {
    match r {
        Ok(v) => Ok(v),
        Err(e) => Err(spec_from_math(e)),
    }
}

impl AstroSwapError {
    /// The numeric code of each variant.
    pub open spec fn spec_code(self) -> u32 {
        match self {
            AstroSwapError::AlreadyInitialized => 1,
            AstroSwapError::NotInitialized => 2,
            AstroSwapError::Unauthorized => 3,
            AstroSwapError::InvalidArgument => 4,
            AstroSwapError::Overflow => 5,
            AstroSwapError::Underflow => 6,
            AstroSwapError::DivisionByZero => 7,
            AstroSwapError::Reentrancy => 8,
            AstroSwapError::InvalidToken => 100,
            AstroSwapError::SameToken => 101,
            AstroSwapError::InsufficientBalance => 102,
            AstroSwapError::InsufficientAllowance => 103,
            AstroSwapError::TransferFailed => 104,
            AstroSwapError::InsufficientLiquidity => 200,
            AstroSwapError::InvalidAmount => 201,
            AstroSwapError::InsufficientShares => 202,
            AstroSwapError::MinimumNotMet => 203,
            AstroSwapError::PoolNotFound => 204,
            AstroSwapError::PairExists => 205,
            AstroSwapError::PairNotFound => 206,
            AstroSwapError::SlippageExceeded => 300,
            AstroSwapError::DeadlineExpired => 301,
            AstroSwapError::InsufficientOutputAmount => 302,
            AstroSwapError::ExcessiveInputAmount => 303,
            AstroSwapError::InvalidPath => 304,
            AstroSwapError::PriceImpactTooHigh => 305,
            AstroSwapError::StakingPoolNotFound => 400,
            AstroSwapError::InsufficientStake => 401,
            AstroSwapError::StakingNotStarted => 402,
            AstroSwapError::StakingEnded => 403,
            AstroSwapError::NoRewardsAvailable => 404,
            AstroSwapError::InvalidStakingPeriod => 405,
            AstroSwapError::StakeNotFound => 406,
            AstroSwapError::InvalidFee => 500,
            AstroSwapError::FeeTooHigh => 501,
            AstroSwapError::TimelockNotExpired => 502,
            AstroSwapError::InvalidAdmin => 503,
            AstroSwapError::ContractPaused => 504,
            AstroSwapError::ProtocolNotFound => 600,
            AstroSwapError::InvalidRoute => 601,
            AstroSwapError::RouteNotFound => 602,
            AstroSwapError::AdapterError => 603,
            AstroSwapError::TokenNotGraduated => 700,
            AstroSwapError::AlreadyGraduated => 701,
            AstroSwapError::InvalidLaunchpad => 702,
            AstroSwapError::GraduationFailed => 703,
            AstroSwapError::InvalidPair => 704,
        }
    }

    /// The numeric code under which this error is reported to callers
    /// outside the library.
    pub fn code(&self) -> (c: u32)
        ensures
            c == self.spec_code(),
    {
        match self {
            AstroSwapError::AlreadyInitialized => 1,
            AstroSwapError::NotInitialized => 2,
            AstroSwapError::Unauthorized => 3,
            AstroSwapError::InvalidArgument => 4,
            AstroSwapError::Overflow => 5,
            AstroSwapError::Underflow => 6,
            AstroSwapError::DivisionByZero => 7,
            AstroSwapError::Reentrancy => 8,
            AstroSwapError::InvalidToken => 100,
            AstroSwapError::SameToken => 101,
            AstroSwapError::InsufficientBalance => 102,
            AstroSwapError::InsufficientAllowance => 103,
            AstroSwapError::TransferFailed => 104,
            AstroSwapError::InsufficientLiquidity => 200,
            AstroSwapError::InvalidAmount => 201,
            AstroSwapError::InsufficientShares => 202,
            AstroSwapError::MinimumNotMet => 203,
            AstroSwapError::PoolNotFound => 204,
            AstroSwapError::PairExists => 205,
            AstroSwapError::PairNotFound => 206,
            AstroSwapError::SlippageExceeded => 300,
            AstroSwapError::DeadlineExpired => 301,
            AstroSwapError::InsufficientOutputAmount => 302,
            AstroSwapError::ExcessiveInputAmount => 303,
            AstroSwapError::InvalidPath => 304,
            AstroSwapError::PriceImpactTooHigh => 305,
            AstroSwapError::StakingPoolNotFound => 400,
            AstroSwapError::InsufficientStake => 401,
            AstroSwapError::StakingNotStarted => 402,
            AstroSwapError::StakingEnded => 403,
            AstroSwapError::NoRewardsAvailable => 404,
            AstroSwapError::InvalidStakingPeriod => 405,
            AstroSwapError::StakeNotFound => 406,
            AstroSwapError::InvalidFee => 500,
            AstroSwapError::FeeTooHigh => 501,
            AstroSwapError::TimelockNotExpired => 502,
            AstroSwapError::InvalidAdmin => 503,
            AstroSwapError::ContractPaused => 504,
            AstroSwapError::ProtocolNotFound => 600,
            AstroSwapError::InvalidRoute => 601,
            AstroSwapError::RouteNotFound => 602,
            AstroSwapError::AdapterError => 603,
            AstroSwapError::TokenNotGraduated => 700,
            AstroSwapError::AlreadyGraduated => 701,
            AstroSwapError::InvalidLaunchpad => 702,
            AstroSwapError::GraduationFailed => 703,
            AstroSwapError::InvalidPair => 704,
        }
    }
}

impl From<MathError> for AstroSwapError {
    /// Converts an arithmetic error: the three range errors keep their
    /// names, and `InvalidInput` becomes `InvalidArgument`.
    fn from(err: MathError) -> (out: Self)
        ensures
            out == spec_from_math(err),
    {
        match err {
            MathError::Overflow => AstroSwapError::Overflow,
            MathError::Underflow => AstroSwapError::Underflow,
            MathError::DivisionByZero => AstroSwapError::DivisionByZero,
            MathError::InvalidInput => AstroSwapError::InvalidArgument,
        }
    }
}

impl FromSpecImpl<MathError> for AstroSwapError {
    open spec fn obeys_from_spec() -> bool {
        true
    }

    open spec fn from_spec(err: MathError) -> Self {
        spec_from_math(err)
    }
}

} // verus!
