//! Fingerprint algorithm variants.
//!
//! A variant is a named preset selecting the frame stride (and with it the
//! frame overlap) that the framer uses. All variants share the frame length
//! and band layout, so fingerprints of different variants differ in how
//! densely the stream is sampled by analysis frames.

use vstd::prelude::*;

verus! {

/// The different fingerprint algorithms available.
///
/// Defaults to `Algorithm::Test2`.
#[derive(Clone, Copy, Debug, PartialEq, Eq, Structural)]
pub enum Algorithm {
    Test1,
    Test2,
    Test3,
    Test4,
    Test5,
}

impl Algorithm {
    /// The numeric identifier of the variant.
    pub open spec fn spec_id(self) -> int {
        match self {
            Algorithm::Test1 => 0,
            Algorithm::Test2 => 1,
            Algorithm::Test3 => 2,
            Algorithm::Test4 => 3,
            Algorithm::Test5 => 4,
        }
    }

    /// The frame stride the variant selects: the distance, in decimated
    /// samples, between the start offsets of consecutive analysis frames.
    pub open spec fn spec_stride(self) -> int {
        match self {
            Algorithm::Test1 => 16,
            Algorithm::Test2 => 8,
            Algorithm::Test3 => 4,
            Algorithm::Test4 => 2,
            Algorithm::Test5 => 1,
        }
    }

    /// The variant identified by `id`; identifiers outside the known range
    /// fall back to the default variant.
    pub open spec fn spec_from_id(id: int) -> Algorithm {
        if id == 0 {
            Algorithm::Test1
        } else if id == 1 {
            Algorithm::Test2
        } else if id == 2 {
            Algorithm::Test3
        } else if id == 3 {
            Algorithm::Test4
        } else if id == 4 {
            Algorithm::Test5
        } else {
            Algorithm::Test2
        }
    }

    /// The numeric identifier of the variant.
    pub fn id(self) -> (r: i32)
        ensures
            r as int == self.spec_id(),
    {
        match self {
            Algorithm::Test1 => 0,
            Algorithm::Test2 => 1,
            Algorithm::Test3 => 2,
            Algorithm::Test4 => 3,
            Algorithm::Test5 => 4,
        }
    }

    /// The frame stride the variant selects.
    pub fn stride(self) -> (r: usize)
        ensures
            r as int == self.spec_stride(),
            1 <= r <= 16,
    {
        match self {
            Algorithm::Test1 => 16,
            Algorithm::Test2 => 8,
            Algorithm::Test3 => 4,
            Algorithm::Test4 => 2,
            Algorithm::Test5 => 1,
        }
    }
}

impl Default for Algorithm {
    /// The default variant.
    fn default() -> (r: Self)
        ensures
            r == Algorithm::Test2,
    {
        Algorithm::Test2
    }
}

impl From<i32> for Algorithm {
    /// The variant identified by `algo`, with out-of-range identifiers
    /// falling back to the default variant.
    fn from(algo: i32) -> (r: Self) {
        match algo {
            0 => Algorithm::Test1,
            1 => Algorithm::Test2,
            2 => Algorithm::Test3,
            3 => Algorithm::Test4,
            4 => Algorithm::Test5,
            _ => Algorithm::Test2,
        }
    }
}

impl vstd::std_specs::convert::FromSpecImpl<i32> for Algorithm {
    open spec fn obeys_from_spec() -> bool {
        true
    }

    open spec fn from_spec(algo: i32) -> Algorithm {
        Algorithm::spec_from_id(algo as int)
    }
}

} // verus!
