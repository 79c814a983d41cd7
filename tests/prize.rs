use uma_bingo::prize::{PrizeIndexError, RollResult, PRIZE_COUNT};

#[test]
fn index_round_trips_for_every_prize() {
    for i in 0..PRIZE_COUNT {
        let p = RollResult::try_from_index(i).unwrap();
        assert_eq!(p.index(), i);
        assert_eq!(RollResult::from_index(i), p);
    }
}

#[test]
fn indices_name_the_prizes_in_order() {
    assert_eq!(RollResult::from_index(0), RollResult::FirstPrize);
    assert_eq!(RollResult::from_index(3), RollResult::FourthPrize);
    assert_eq!(RollResult::from_index(7), RollResult::EighthPrize);
    assert_eq!(RollResult::SixthPrize.index(), 5);
}

#[test]
fn index_out_of_range_is_refused() {
    assert_eq!(RollResult::try_from_index(8), Err(PrizeIndexError::OutOfRange));
    assert_eq!(RollResult::try_from_index(usize::MAX), Err(PrizeIndexError::OutOfRange));
}
