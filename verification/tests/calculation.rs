use cr_tools::logic::calc::{CalcError, CardData, Remaining, Twentieths};
use cr_tools::logic::types::{Arena, CardEntry, CardType, Rarity};

const NOW: i64 = 1_614_556_800;

const DAY: i64 = 86_400;

fn card(rarity: Rarity, level: usize, have: usize) -> CardEntry {
    let mut card = CardEntry::blank(7);
    card.name = String::from("Knight");
    card.card_type = CardType::Troop;
    card.rarity = rarity;
    card.level = level;
    card.have = have;
    card
}

fn weeks(remaining: &Remaining) -> f64 {
    remaining.weeks_remaining.count as f64 / 20.0
}

fn days(remaining: &Remaining) -> f64 {
    remaining.days_remaining.count as f64 / 20.0
}

#[test]
fn worked_example_of_a_common_card() {
    let card = card(Rarity::Common, 5, 0);
    let remaining = card.remaining(Some(Arena::RoyalArena)).unwrap().unwrap();
    assert_eq!(remaining.cards_remaining, 50);
    assert_eq!(remaining.requests_remaining, 2);
    assert_eq!(remaining.weeks_remaining, Twentieths { count: 2 });
    assert_eq!(remaining.days_remaining, Twentieths { count: 14 });
    assert_eq!(weeks(&remaining), 2.0 / 20.0);
    assert!((days(&remaining) - (2.0 / 20.0) * 7.0).abs() < 1e-12);

    let data = card.calc_remaining(Some(Arena::RoyalArena), NOW).unwrap().unwrap();
    assert_eq!(
        data,
        CardData {
            cards_remaining: 50,
            requests_remaining: 2,
            weeks_remaining: Twentieths { count: 2 },
            days_remaining: Twentieths { count: 14 },
            done_on: NOW + DAY,
            days_in_order: None,
            done_in_order_on: None,
        }
    );
}

#[test]
fn the_values_follow_the_formulas() {
    // as the calculation in floating point has them
    for (rarity, per_week) in [(Rarity::Common, 20.0), (Rarity::Rare, 20.0), (Rarity::Epic, 1.0)] {
        for level in 6..13 {
            for have in [0, 1, 3, 17, 250] {
                let card = card(rarity, level, have);
                let needed = card.get_needed_cards().unwrap();
                let per_request = if rarity == Rarity::Common { 30.0 } else { 3.0 };
                let cards_remaining = needed.saturating_sub(have);
                let requests = (cards_remaining as f64 / per_request).ceil() as usize;
                let weeks_remaining = requests as f64 / per_week;
                let days_remaining = weeks_remaining * 7.0;

                let data = card.calc_remaining(Some(Arena::FrozenPeak), NOW).unwrap().unwrap();
                assert_eq!(data.cards_remaining, cards_remaining);
                assert_eq!(data.requests_remaining, requests);
                assert!((data.weeks_remaining.count as f64 / 20.0 - weeks_remaining).abs() < 1e-9);
                assert!((data.days_remaining.count as f64 / 20.0 - days_remaining).abs() < 1e-9);
                assert_eq!(data.done_on, NOW + days_remaining.ceil() as i64 * DAY);
            }
        }
    }
}

#[test]
fn requests_are_rounded_up() {
    let arena = Some(Arena::GoblinStadium);
    // 10 common cards come with one request
    let exact = card(Rarity::Common, 4, 0).remaining(arena).unwrap().unwrap();
    assert_eq!((exact.cards_remaining, exact.requests_remaining), (20, 2));
    let one_less = card(Rarity::Common, 4, 1).remaining(arena).unwrap().unwrap();
    assert_eq!((one_less.cards_remaining, one_less.requests_remaining), (19, 2));
    let one_more = card(Rarity::Common, 5, 29).remaining(arena).unwrap().unwrap();
    assert_eq!((one_more.cards_remaining, one_more.requests_remaining), (21, 3));
    let single = card(Rarity::Common, 5, 49).remaining(arena).unwrap().unwrap();
    assert_eq!((single.cards_remaining, single.requests_remaining), (1, 1));
}

#[test]
fn owning_enough_leaves_nothing_to_do() {
    for have in [50, 51, 10_000, usize::MAX] {
        let data = card(Rarity::Common, 5, have)
            .calc_remaining(Some(Arena::BonePit), NOW)
            .unwrap()
            .unwrap();
        assert_eq!(data.cards_remaining, 0);
        assert_eq!(data.requests_remaining, 0);
        assert_eq!(data.weeks_remaining.count, 0);
        assert_eq!(data.days_remaining.count, 0);
        assert_eq!(data.done_on, NOW);
    }
}

#[test]
fn rare_and_epic_cards_go_by_the_rare_request_size() {
    let rare = card(Rarity::Rare, 8, 0).remaining(Some(Arena::HogMountain)).unwrap().unwrap();
    assert_eq!(rare.cards_remaining, 100);
    assert_eq!(rare.requests_remaining, 25);
    assert_eq!(rare.weeks_remaining.count, 25);
    assert_eq!(rare.days_remaining.count, 175);

    let epic = card(Rarity::Epic, 8, 0).remaining(Some(Arena::HogMountain)).unwrap().unwrap();
    assert_eq!(epic.cards_remaining, 10);
    assert_eq!(epic.requests_remaining, 3);
    assert_eq!(epic.weeks_remaining.count, 60);
    assert_eq!(epic.days_remaining.count, 420);
    assert_eq!(weeks(&epic), 3.0);
    assert_eq!(days(&epic), 21.0);
}

#[test]
fn no_arena_means_the_highest() {
    for rarity in [Rarity::Common, Rarity::Rare, Rarity::Epic] {
        let card = card(rarity, 9, 3);
        assert_eq!(card.remaining(None), card.remaining(Some(Arena::LegendaryArena)));
        assert_eq!(
            card.calc_remaining(None, NOW),
            card.calc_remaining(Some(Arena::LegendaryArena), NOW)
        );
    }
    let common = card(Rarity::Common, 9, 0).remaining(None).unwrap().unwrap();
    assert_eq!(common.cards_remaining, 800);
    assert_eq!(common.requests_remaining, 20);
}

#[test]
fn level_13_needs_nothing() {
    for rarity in [Rarity::Common, Rarity::Rare, Rarity::Epic] {
        for have in [0, 1, 4999, 5000, 5001, usize::MAX] {
            for arena in [None, Some(Arena::TrainingCamp), Some(Arena::RoyalArena)] {
                let data = card(rarity, 13, have).calc_remaining(arena, NOW).unwrap().unwrap();
                assert_eq!(data.cards_remaining, 0);
                assert_eq!(data.requests_remaining, 0);
                assert_eq!(data.done_on, NOW);
            }
        }
    }
}

#[test]
fn legendary_cards_have_no_values() {
    for level in [0, 1, 8, 9, 13, 14, usize::MAX] {
        for have in [0, 1, 100] {
            for arena in [None, Some(Arena::TrainingCamp), Some(Arena::SpookyTown)] {
                let card = card(Rarity::Legendary, level, have);
                assert_eq!(card.calc_remaining(arena, NOW), Ok(None));
                assert_eq!(card.remaining(arena), Ok(None));
                assert_eq!(card.calc_remaining(arena, i64::MAX), Ok(None));
            }
        }
    }
}

#[test]
fn only_legendary_cards_have_no_values() {
    for rarity in [Rarity::Common, Rarity::Rare, Rarity::Epic] {
        for level in 5..=13 {
            assert!(card(rarity, level, 0).calc_remaining(None, NOW).unwrap().is_some());
        }
    }
}

#[test]
fn an_invalid_level_is_an_error() {
    for level in [0, 14, 15, usize::MAX] {
        for rarity in [Rarity::Common, Rarity::Rare, Rarity::Epic] {
            assert_eq!(
                card(rarity, level, 0).calc_remaining(None, NOW),
                Err(CalcError::InvalidLevel)
            );
            assert_eq!(card(rarity, level, 0).remaining(None), Err(CalcError::InvalidLevel));
        }
    }
    assert_eq!(card(Rarity::Rare, 1, 0).calc_remaining(None, NOW), Err(CalcError::InvalidLevel));
    assert_eq!(card(Rarity::Epic, 4, 0).calc_remaining(None, NOW), Err(CalcError::InvalidLevel));
}

#[test]
fn the_training_camp_has_no_requests() {
    let camp = Some(Arena::TrainingCamp);
    assert_eq!(
        card(Rarity::Common, 5, 0).calc_remaining(camp, NOW),
        Err(CalcError::RequestsUnavailable)
    );
    assert_eq!(
        card(Rarity::Epic, 7, 3).calc_remaining(camp, NOW),
        Err(CalcError::RequestsUnavailable)
    );
    let nothing_left = card(Rarity::Common, 5, 50).calc_remaining(camp, NOW).unwrap().unwrap();
    assert_eq!(nothing_left.cards_remaining, 0);
    assert_eq!(nothing_left.requests_remaining, 0);
    assert_eq!(nothing_left.done_on, NOW);
}

#[test]
fn the_date_lies_whole_days_after_now() {
    // 0.35 days are rounded up to one day
    let short = card(Rarity::Common, 1, 0).calc_remaining(None, NOW).unwrap().unwrap();
    assert_eq!(short.days_remaining.count, 7);
    assert_eq!(short.done_on, NOW + DAY);
    // 7 days stay 7 days
    let week = card(Rarity::Epic, 5, 0).calc_remaining(None, NOW).unwrap().unwrap();
    assert_eq!(week.days_remaining.count, 140);
    assert_eq!(week.done_on, NOW + 7 * DAY);
    // 43.75 days are rounded up to 44
    let long = card(Rarity::Common, 12, 0).calc_remaining(None, NOW).unwrap().unwrap();
    assert_eq!(long.requests_remaining, 125);
    assert_eq!(long.days_remaining.count, 875);
    assert_eq!(long.done_on, NOW + 44 * DAY);
    // before 1970
    let early = card(Rarity::Epic, 5, 0).calc_remaining(None, -10 * DAY).unwrap().unwrap();
    assert_eq!(early.done_on, -3 * DAY);
}

#[test]
fn a_date_outside_of_the_calendar_is_an_error() {
    assert_eq!(
        card(Rarity::Common, 5, 0).calc_remaining(None, i64::MAX),
        Err(CalcError::DateOutOfRange)
    );
    assert_eq!(
        card(Rarity::Common, 5, 0).calc_remaining(None, i64::MIN),
        Err(CalcError::DateOutOfRange)
    );
    // the last second of the year 262142, where the calendar of chrono ends
    let last: i64 = 8_210_266_876_799;
    assert_eq!(
        card(Rarity::Common, 5, 50).calc_remaining(None, last).unwrap().unwrap().done_on,
        last
    );
    assert_eq!(
        card(Rarity::Common, 5, 0).calc_remaining(None, last),
        Err(CalcError::DateOutOfRange)
    );
}

#[test]
fn dates_are_put_to_what_is_left() {
    let remaining = Remaining {
        cards_remaining: 3,
        requests_remaining: 1,
        weeks_remaining: Twentieths { count: 1 },
        days_remaining: Twentieths { count: 7 },
    };
    assert_eq!(
        CardData::dated(remaining, Some(99)),
        Ok(CardData {
            cards_remaining: 3,
            requests_remaining: 1,
            weeks_remaining: Twentieths { count: 1 },
            days_remaining: Twentieths { count: 7 },
            done_on: 99,
            days_in_order: None,
            done_in_order_on: None,
        })
    );
    assert_eq!(CardData::dated(remaining, None), Err(CalcError::DateOutOfRange));
}

#[test]
fn twentieths_are_rounded_up_to_wholes() {
    assert_eq!(Twentieths { count: 0 }.ceil(), 0);
    assert_eq!(Twentieths { count: 1 }.ceil(), 1);
    assert_eq!(Twentieths { count: 19 }.ceil(), 1);
    assert_eq!(Twentieths { count: 20 }.ceil(), 1);
    assert_eq!(Twentieths { count: 21 }.ceil(), 2);
    assert_eq!(Twentieths { count: 875 }.ceil(), 44);
    assert_eq!(Twentieths { count: u64::MAX }.ceil(), u64::MAX / 20 + 1);
    for count in 0..200u64 {
        assert_eq!(Twentieths { count }.ceil(), (count as f64 / 20.0).ceil() as u64);
    }
}

#[test]
fn computed_values_of_all_cards() {
    let mut cards = vec![
        card(Rarity::Common, 5, 0),
        card(Rarity::Legendary, 9, 0),
        card(Rarity::Epic, 8, 4),
    ];
    cards[0].computed = None;
    assert_eq!(CardEntry::compute_all(&mut cards, Some(Arena::RoyalArena), NOW), Ok(()));
    assert_eq!(cards.len(), 3);
    assert_eq!(cards[0].computed, card(Rarity::Common, 5, 0).calc_remaining(Some(Arena::RoyalArena), NOW).unwrap());
    assert_eq!(cards[0].computed.unwrap().requests_remaining, 2);
    assert_eq!(cards[1].computed, None);
    assert_eq!(cards[2].computed.unwrap().cards_remaining, 6);
    assert_eq!(cards[2].computed.unwrap().requests_remaining, 2);
    assert_eq!(cards[2].computed.unwrap().done_on, NOW + 14 * DAY);
    assert_eq!(cards[0].name, "Knight");
    assert_eq!(cards[2].have, 4);
}

#[test]
fn computed_values_are_replaced() {
    let mut cards = vec![card(Rarity::Common, 5, 0)];
    CardEntry::compute_all(&mut cards, Some(Arena::RoyalArena), NOW).unwrap();
    cards[0].have = 50;
    CardEntry::compute_all(&mut cards, Some(Arena::RoyalArena), NOW + 5).unwrap();
    assert_eq!(cards[0].computed.unwrap().cards_remaining, 0);
    assert_eq!(cards[0].computed.unwrap().done_on, NOW + 5);
}

#[test]
fn a_failing_card_leaves_all_cards_as_they_were() {
    let mut cards = vec![
        card(Rarity::Common, 5, 0),
        card(Rarity::Common, 14, 0),
        card(Rarity::Epic, 8, 4),
    ];
    assert_eq!(
        CardEntry::compute_all(&mut cards, Some(Arena::RoyalArena), NOW),
        Err(CalcError::InvalidLevel)
    );
    assert!(cards.iter().all(|card| card.computed.is_none()));
    assert_eq!(cards[1].level, 14);

    // the first failing card decides
    let mut cards = vec![card(Rarity::Common, 5, 0), card(Rarity::Common, 14, 0)];
    assert_eq!(
        CardEntry::compute_all(&mut cards, Some(Arena::TrainingCamp), NOW),
        Err(CalcError::RequestsUnavailable)
    );
    let mut none: Vec<CardEntry> = Vec::new();
    assert_eq!(CardEntry::compute_all(&mut none, None, NOW), Ok(()));
}

#[test]
fn errors_say_what_went_wrong() {
    assert_eq!(
        CalcError::MissingCalculatedValues.message(),
        "One or more cards have missing values"
    );
    let all = [
        CalcError::InvalidLevel,
        CalcError::MissingCalculatedValues,
        CalcError::RequestsUnavailable,
        CalcError::TotalTooLarge,
        CalcError::DateOutOfRange,
    ];
    for (place, error) in all.iter().enumerate() {
        assert!(!error.message().is_empty());
        assert!(all[..place].iter().all(|other| other.message() != error.message()));
    }
}

#[test]
fn the_gold_of_all_cards() {
    let cards = vec![
        card(Rarity::Common, 1, 0),
        card(Rarity::Epic, 6, 0),
        card(Rarity::Legendary, 9, 0),
        card(Rarity::Rare, 13, 0),
        card(Rarity::Common, 12, 0),
    ];
    assert_eq!(CardEntry::total_gold(&cards), Ok(5 + 400 + 5000 + 0 + 100000));
    assert_eq!(CardEntry::total_gold(&Vec::new()), Ok(0));
    let mut broken = cards.clone();
    broken.push(card(Rarity::Common, 0, 0));
    assert_eq!(CardEntry::total_gold(&broken), Err(CalcError::InvalidLevel));
}

#[test]
fn a_card_with_other_values() {
    let card = card(Rarity::Common, 5, 2);
    let data = card.calc_remaining(None, NOW).unwrap();
    let changed = card.with_computed(data);
    assert_eq!(changed.computed, data);
    assert_eq!(changed.uuid, card.uuid);
    assert_eq!(changed.name, card.name);
    assert_eq!(changed.have, 2);
    assert_eq!(changed.level, 5);
    assert_eq!(changed.card_type, CardType::Troop);
    assert_eq!(changed.rarity, Rarity::Common);
    assert_eq!(changed.with_computed(None).computed, None);
}

#[test]
fn missing_cards_of_any_card() {
    assert_eq!(card(Rarity::Common, 5, 0).cards_remaining(), Ok(50));
    assert_eq!(card(Rarity::Common, 5, 20).cards_remaining(), Ok(30));
    assert_eq!(card(Rarity::Common, 5, 50).cards_remaining(), Ok(0));
    assert_eq!(card(Rarity::Common, 5, 51).cards_remaining(), Ok(0));
    // legendary cards too, though they cannot be requested
    assert_eq!(card(Rarity::Legendary, 10, 1).cards_remaining(), Ok(3));
    assert_eq!(card(Rarity::Legendary, 13, 0).cards_remaining(), Ok(0));
    assert_eq!(card(Rarity::Legendary, 7, 0).cards_remaining(), Err(CalcError::InvalidLevel));
    assert_eq!(card(Rarity::Epic, 0, 0).cards_remaining(), Err(CalcError::InvalidLevel));
}
