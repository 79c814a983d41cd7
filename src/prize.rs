use vstd::prelude::*;

verus! {

/// The number of distinct prizes a trial has to collect.
pub const PRIZE_COUNT: usize = 8;

/// One of the eight prizes a draw can produce.
#[derive(Debug, Clone, Copy, PartialEq, Eq, Structural)]
pub enum RollResult {
    FirstPrize,
    SecondPrize,
    ThirdPrize,
    FourthPrize,
    FifthPrize,
    SixthPrize,
    SeventhPrize,
    EighthPrize,
}

/// The reason an index could not be turned into a prize.
#[derive(Debug, Clone, Copy, PartialEq, Eq, Structural)]
pub enum PrizeIndexError {
    /// The index was not in `0..8`.
    OutOfRange,
}

impl RollResult {
    /// The dense index of a prize, in `0..8`.
    pub open spec fn spec_index(self) -> usize {
        match self {
            RollResult::FirstPrize => 0,
            RollResult::SecondPrize => 1,
            RollResult::ThirdPrize => 2,
            RollResult::FourthPrize => 3,
            RollResult::FifthPrize => 4,
            RollResult::SixthPrize => 5,
            RollResult::SeventhPrize => 6,
            RollResult::EighthPrize => 7,
        }
    }

    /// The prize whose index is `i`; meaningful for `i < 8`.
    pub open spec fn spec_from_index(i: usize) -> RollResult {
        if i == 0 {
            RollResult::FirstPrize
        } else if i == 1 {
            RollResult::SecondPrize
        } else if i == 2 {
            RollResult::ThirdPrize
        } else if i == 3 {
            RollResult::FourthPrize
        } else if i == 4 {
            RollResult::FifthPrize
        } else if i == 5 {
            RollResult::SixthPrize
        } else if i == 6 {
            RollResult::SeventhPrize
        } else {
            RollResult::EighthPrize
        }
    }

    /// Converting an index to a prize and back gives the index again, and a
    /// prize is determined by its index.
    pub proof fn lemma_index_round_trip(self, i: usize)
        requires
            i < PRIZE_COUNT,
        ensures
            Self::spec_from_index(i).spec_index() == i,
            Self::spec_from_index(self.spec_index()) == self,
            self.spec_index() < PRIZE_COUNT,
    {
    }

    /// The dense index of this prize.
    #[verifier::when_used_as_spec(spec_index)]
    pub fn index(self) -> (r: usize)
        ensures
            r == self.spec_index(),
            r < PRIZE_COUNT,
    {
        match self {
            RollResult::FirstPrize => 0,
            RollResult::SecondPrize => 1,
            RollResult::ThirdPrize => 2,
            RollResult::FourthPrize => 3,
            RollResult::FifthPrize => 4,
            RollResult::SixthPrize => 5,
            RollResult::SeventhPrize => 6,
            RollResult::EighthPrize => 7,
        }
    }

    /// The prize with the given dense index, which must be in `0..8`.
    pub fn from_index(value: usize) -> (r: RollResult)
        requires
            value < PRIZE_COUNT,
        ensures
            r.spec_index() == value,
            r == Self::spec_from_index(value),
    {
        match value {
            0 => RollResult::FirstPrize,
            1 => RollResult::SecondPrize,
            2 => RollResult::ThirdPrize,
            3 => RollResult::FourthPrize,
            4 => RollResult::FifthPrize,
            5 => RollResult::SixthPrize,
            6 => RollResult::SeventhPrize,
            _ => RollResult::EighthPrize,
        }
    }

    /// The prize with the given dense index, or an error when the index is
    /// not in `0..8`.
    pub fn try_from_index(value: usize) -> (r: Result<RollResult, PrizeIndexError>)
        ensures
            value < PRIZE_COUNT <==> r is Ok,
            r matches Ok(p) ==> p.spec_index() == value && p == Self::spec_from_index(value),
            r matches Err(e) ==> e == PrizeIndexError::OutOfRange,
    {
        match value {
            0 => Ok(RollResult::FirstPrize),
            1 => Ok(RollResult::SecondPrize),
            2 => Ok(RollResult::ThirdPrize),
            3 => Ok(RollResult::FourthPrize),
            4 => Ok(RollResult::FifthPrize),
            5 => Ok(RollResult::SixthPrize),
            6 => Ok(RollResult::SeventhPrize),
            7 => Ok(RollResult::EighthPrize),
            _ => Err(PrizeIndexError::OutOfRange),
        }
    }
}

} // verus!
