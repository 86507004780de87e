use vstd::prelude::*;

verus! {

/// Reasons why a parameter set is rejected.
#[derive(Debug, Clone, Copy, PartialEq, Eq)]
pub enum ParamError {
    ZeroN,
    ZeroM,
    ZeroWidth,
    WidthTooLarge { w: usize, max: usize },
    ZeroFingerprintBits,
    ZeroRetryLimit,
    WidthExceedsM { m: usize, w: usize },
}

/// Why a single construction attempt failed.
#[derive(Debug, Clone, Copy, PartialEq, Eq)]
pub enum ConstructionFailure {
    InconsistentEquation { key_index: usize, row_index: usize },
    OutOfBounds { key_index: Option<usize>, row_index: usize, m: usize },
}

/// Why building a filter failed.
#[derive(Debug, Clone, Copy, PartialEq, Eq)]
pub enum BuildError {
    InvalidParams(ParamError),
    ConstructionFailed { final_m: usize, attempts: usize, last_failure: ConstructionFailure },
}

} // verus!
