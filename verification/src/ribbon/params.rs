use vstd::prelude::*;

use super::error::ParamError;

verus! {

/// How fingerprints are attached to keys.
#[derive(Debug, Clone, Copy, PartialEq, Eq, Structural)]
pub enum Mode {
    /// Each key carries a pseudo-random fingerprint of `r` bits.
    Standard,
    /// Every fingerprint is zero; free rows are filled with noise.
    Homogeneous,
}

/// Dimensions and policy of a ribbon filter.
#[derive(Debug, Clone, Copy, PartialEq, Eq)]
pub struct Params {
    pub m: usize,
    pub w: usize,
    pub r: usize,
    pub mode: Mode,
    pub seed: u64,
    pub retry_limit: usize,
    pub grow_limit: usize,
}

/// Largest supported band width.
pub const MAX_W: usize = 128;

/// The first rule that a parameter set breaks, in the order they are checked.
pub open spec fn spec_param_error(p: Params) -> Option<ParamError> {
    if p.m == 0 {
        Some(ParamError::ZeroM)
    } else if p.w == 0 {
        Some(ParamError::ZeroWidth)
    } else if p.w > MAX_W {
        Some(ParamError::WidthTooLarge { w: p.w, max: MAX_W })
    } else if p.r == 0 {
        Some(ParamError::ZeroFingerprintBits)
    } else if p.retry_limit == 0 {
        Some(ParamError::ZeroRetryLimit)
    } else if p.w > p.m {
        Some(ParamError::WidthExceedsM { m: p.m, w: p.w })
    } else {
        None
    }
}

/// A parameter set that `validate` accepts.
pub open spec fn spec_valid(p: Params) -> bool {
    spec_param_error(p) is None
}

/// Number of 64-bit words per fingerprint row.
pub open spec fn spec_words(r: int) -> int {
    (r + 63) / 64
}

/// Mask keeping the meaningful bits of the last fingerprint word.
pub open spec fn spec_last_word_mask(r: int) -> u64 {
    if r % 64 == 0 {
        u64::MAX
    } else {
        ((1u64 << ((r % 64) as u64)) - 1) as u64
    }
}

impl Params {
    pub fn new(m: usize, w: usize, r: usize, mode: Mode) -> (res: Result<Self, ParamError>)
        ensures
            match res {
                Ok(p) => p == (Params { m, w, r, mode, seed: 0, retry_limit: 1, grow_limit: 0 })
                    && spec_valid(p),
                Err(e) => spec_param_error(
                    Params { m, w, r, mode, seed: 0, retry_limit: 1, grow_limit: 0 },
                ) == Some(e),
            },
    {
        let params = Params { m, w, r, mode, seed: 0, retry_limit: 1, grow_limit: 0 };
        match params.validate() {
            Ok(()) => Ok(params),
            Err(e) => Err(e),
        }
    }

    pub fn with_seed(self, seed: u64) -> (res: Self)
        ensures
            res == (Params { seed, ..self }),
    {
        let mut out = self;
        out.seed = seed;
        out
    }

    pub fn with_retry_policy(self, retry_limit: usize, grow_limit: usize) -> (res: Result<
        Self,
        ParamError,
    >)
        ensures
            match res {
                Ok(p) => p == (Params { retry_limit, grow_limit, ..self }) && spec_valid(p),
                Err(e) => spec_param_error(Params { retry_limit, grow_limit, ..self }) == Some(e),
            },
    {
        let mut out = self;
        out.retry_limit = retry_limit;
        out.grow_limit = grow_limit;
        match out.validate() {
            Ok(()) => Ok(out),
            Err(e) => Err(e),
        }
    }

    pub fn validate(&self) -> (res: Result<(), ParamError>)
        ensures
            match res {
                Ok(()) => spec_valid(*self),
                Err(e) => spec_param_error(*self) == Some(e),
            },
    {
        if self.m == 0 {
            return Err(ParamError::ZeroM);
        }
        if self.w == 0 {
            return Err(ParamError::ZeroWidth);
        }
        if self.w > MAX_W {
            return Err(ParamError::WidthTooLarge { w: self.w, max: MAX_W });
        }
        if self.r == 0 {
            return Err(ParamError::ZeroFingerprintBits);
        }
        if self.retry_limit == 0 {
            return Err(ParamError::ZeroRetryLimit);
        }
        if self.w > self.m {
            return Err(ParamError::WidthExceedsM { m: self.m, w: self.w });
        }
        Ok(())
    }

    /// Number of distinct band start positions.
    pub fn start_range(&self) -> (res: usize)
        requires
            self.w <= self.m,
            self.m - self.w + 1 <= usize::MAX,
        ensures
            res == self.m - self.w + 1,
    {
        self.m - self.w + 1
    }

    pub fn fingerprint_words(&self) -> (res: usize)
        ensures
            res == spec_words(self.r as int),
    {
        self.r / 64 + if self.r % 64 == 0 { 0 } else { 1 }
    }

    pub fn fingerprint_last_word_mask(&self) -> (res: u64)
        ensures
            res == spec_last_word_mask(self.r as int),
    {
        let rem = self.r % 64;
        if rem == 0 {
            u64::MAX
        } else {
            let sh = rem as u64;
            assert(1 <= sh < 64 ==> (1u64 << sh) >= 1) by (bit_vector);
            (1u64 << sh) - 1
        }
    }
}

} // verus!
