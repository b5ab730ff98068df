use cr_tools::logic::calc::CalcError;
use cr_tools::logic::events::{find, Event, EventSourcingService, LogError, Origin};
use cr_tools::logic::types::{Arena, CardEntry, CardEntryV1, CardType, Rarity};

fn card(uuid: u128, name: &str, level: usize) -> CardEntry {
    let mut card = CardEntry::blank(uuid);
    card.name = String::from(name);
    card.level = level;
    card
}

fn legacy(name: &str, have: usize, level: usize, card_type: CardType, rarity: Rarity) -> CardEntryV1 {
    CardEntryV1 { name: String::from(name), have, level, card_type, rarity, computed: None }
}

fn names(cards: &[CardEntry]) -> Vec<(u128, String, usize)> {
    cards.iter().map(|card| (card.uuid, card.name.clone(), card.level)).collect()
}

fn same(first: &Event, second: &Event) -> bool {
    match (first, second) {
        (Event::Create(first), Event::Create(second))
        | (Event::Update(first), Event::Update(second)) => {
            names(&[first.clone()]) == names(&[second.clone()])
                && first.have == second.have
                && first.card_type == second.card_type
                && first.rarity == second.rarity
        }
        (Event::Delete(first), Event::Delete(second)) => first == second,
        _ => false,
    }
}

#[test]
fn a_new_log_is_empty() {
    let log = EventSourcingService::new();
    assert!(log.events().is_empty());
    assert!(log.projection().is_empty());
    assert!(log.borrow().get_projection().is_empty());
}

#[test]
fn created_cards_are_added_at_the_end() {
    let mut log = EventSourcingService::new();
    assert_eq!(log.append(Event::Create(card(1, "Knight", 3))), Ok(()));
    assert_eq!(log.append(Event::Create(card(2, "Archers", 5))), Ok(()));
    assert_eq!(log.append(Event::Create(card(3, "Giant", 7))), Ok(()));
    assert_eq!(
        names(&log.projection()),
        [(1, String::from("Knight"), 3), (2, String::from("Archers"), 5), (3, String::from("Giant"), 7)]
    );
    assert_eq!(log.events().len(), 3);
    assert!(same(&log.events()[1], &Event::Create(card(2, "Archers", 5))));
}

#[test]
fn an_update_replaces_every_field() {
    let mut log = EventSourcingService::new();
    log.append(Event::Create(card(1, "Knight", 3))).unwrap();
    log.append(Event::Create(card(2, "Archers", 5))).unwrap();
    let mut changed = card(1, "Dark Knight", 4);
    changed.have = 12;
    changed.rarity = Rarity::Epic;
    changed.card_type = CardType::Spell;
    assert_eq!(log.append(Event::Update(changed)), Ok(()));
    let cards = log.projection();
    assert_eq!(cards.len(), 2);
    assert_eq!(cards[0].uuid, 1);
    assert_eq!(cards[0].name, "Dark Knight");
    assert_eq!(cards[0].level, 4);
    assert_eq!(cards[0].have, 12);
    assert_eq!(cards[0].rarity, Rarity::Epic);
    assert_eq!(cards[0].card_type, CardType::Spell);
    assert_eq!(cards[1].name, "Archers");
    assert_eq!(log.events().len(), 3);
}

#[test]
fn a_delete_removes_the_card() {
    let mut log = EventSourcingService::new();
    log.append(Event::Create(card(1, "Knight", 3))).unwrap();
    log.append(Event::Create(card(2, "Archers", 5))).unwrap();
    log.append(Event::Create(card(3, "Giant", 7))).unwrap();
    assert_eq!(log.append(Event::Delete(2)), Ok(()));
    assert_eq!(
        names(&log.projection()),
        [(1, String::from("Knight"), 3), (3, String::from("Giant"), 7)]
    );
    assert_eq!(find(&log.projection(), 2), None);
    assert_eq!(log.events().len(), 4);
    assert!(same(&log.events()[3], &Event::Delete(2)));
}

#[test]
fn a_second_create_is_a_duplicate() {
    let mut log = EventSourcingService::new();
    log.append(Event::Create(card(1, "Knight", 3))).unwrap();
    assert_eq!(
        log.append(Event::Create(card(1, "Other", 9))),
        Err(LogError::DuplicateIdentifier)
    );
    assert_eq!(names(&log.projection()), [(1, String::from("Knight"), 3)]);
    assert_eq!(log.events().len(), 1);
}

#[test]
fn an_update_of_an_unknown_card_is_refused() {
    let mut log = EventSourcingService::new();
    assert_eq!(log.append(Event::Update(card(1, "Knight", 3))), Err(LogError::UnknownIdentifier));
    assert!(log.events().is_empty());
    assert!(log.projection().is_empty());

    log.append(Event::Create(card(1, "Knight", 3))).unwrap();
    assert_eq!(log.append(Event::Update(card(2, "Giant", 3))), Err(LogError::UnknownIdentifier));
    assert_eq!(log.events().len(), 1);
    assert_eq!(names(&log.projection()), [(1, String::from("Knight"), 3)]);
    assert!(log.borrow().get_projection().len() == 1);
}

#[test]
fn a_delete_of_an_unknown_card_is_refused() {
    let mut log = EventSourcingService::new();
    assert_eq!(log.append(Event::Delete(1)), Err(LogError::UnknownIdentifier));
    log.append(Event::Create(card(1, "Knight", 3))).unwrap();
    log.append(Event::Delete(1)).unwrap();
    assert_eq!(log.append(Event::Delete(1)), Err(LogError::UnknownIdentifier));
    assert_eq!(log.append(Event::Update(card(1, "Knight", 4))), Err(LogError::UnknownIdentifier));
    assert_eq!(log.events().len(), 2);
    assert!(log.projection().is_empty());
}

#[test]
fn a_deleted_card_can_be_created_again() {
    let mut log = EventSourcingService::new();
    log.append(Event::Create(card(1, "Knight", 3))).unwrap();
    log.append(Event::Create(card(2, "Giant", 3))).unwrap();
    log.append(Event::Delete(1)).unwrap();
    assert_eq!(log.append(Event::Create(card(1, "Knight", 9))), Ok(()));
    assert_eq!(
        names(&log.projection()),
        [(2, String::from("Giant"), 3), (1, String::from("Knight"), 9)]
    );
}

fn history() -> Vec<Event> {
    vec![
        Event::Create(card(1, "Knight", 3)),
        Event::Create(card(2, "Archers", 5)),
        Event::Update(card(1, "Knight", 4)),
        Event::Create(card(3, "Giant", 7)),
        Event::Delete(2),
        Event::Update(card(3, "Royal Giant", 8)),
        Event::Create(card(4, "Zap", 1)),
    ]
}

#[test]
fn a_replay_gives_the_cards_of_the_log() {
    let log = EventSourcingService::replace(history()).ok().unwrap();
    assert_eq!(
        names(&log.projection()),
        [
            (1, String::from("Knight"), 4),
            (3, String::from("Royal Giant"), 8),
            (4, String::from("Zap"), 1)
        ]
    );
    assert_eq!(log.events().len(), 7);
    for (kept, given) in log.events().iter().zip(history()) {
        assert!(same(kept, &given));
    }
}

#[test]
fn two_replays_give_the_same_cards() {
    let first = EventSourcingService::replace(history()).ok().unwrap();
    let second = EventSourcingService::replace(history()).ok().unwrap();
    assert_eq!(names(&first.projection()), names(&second.projection()));
    // and the same as appending one by one
    let mut third = EventSourcingService::new();
    for event in history() {
        third.append(event).unwrap();
    }
    assert_eq!(names(&first.projection()), names(&third.projection()));
    // and a replay of the events of a log
    let fourth = EventSourcingService::replace(third.events().clone()).ok().unwrap();
    assert_eq!(names(&fourth.projection()), names(&third.projection()));
}

#[test]
fn a_replay_does_not_bring_a_deleted_card_back() {
    let log = EventSourcingService::replace(history()).ok().unwrap();
    assert_eq!(find(&log.projection(), 2), None);
    assert!(log.projection().iter().all(|card| card.uuid != 2));
    let again = EventSourcingService::replace(log.events().clone()).ok().unwrap();
    assert_eq!(find(&again.projection(), 2), None);
}

#[test]
fn a_replay_refuses_events_that_break_the_rules() {
    let mut twice = history();
    twice.push(Event::Create(card(3, "Giant", 7)));
    assert_eq!(EventSourcingService::replace(twice).err(), Some(LogError::DuplicateIdentifier));

    let mut gone = history();
    gone.push(Event::Update(card(2, "Archers", 6)));
    assert_eq!(EventSourcingService::replace(gone).err(), Some(LogError::UnknownIdentifier));

    let never = vec![Event::Delete(9), Event::Create(card(9, "Knight", 1))];
    assert_eq!(EventSourcingService::replace(never).err(), Some(LogError::UnknownIdentifier));

    // the first offending event decides
    let both = vec![
        Event::Create(card(1, "Knight", 1)),
        Event::Create(card(1, "Knight", 1)),
        Event::Delete(5),
    ];
    assert_eq!(EventSourcingService::replace(both).err(), Some(LogError::DuplicateIdentifier));
    assert!(EventSourcingService::replace(Vec::new()).ok().unwrap().projection().is_empty());
}

#[test]
fn the_first_card_with_an_identifier_is_found() {
    let cards = vec![card(4, "a", 1), card(5, "b", 1), card(4, "c", 1)];
    assert_eq!(find(&cards, 4), Some(0));
    assert_eq!(find(&cards, 5), Some(1));
    assert_eq!(find(&cards, 6), None);
    assert_eq!(find(&Vec::new(), 4), None);
}

#[test]
fn events_name_their_card() {
    assert_eq!(Event::Create(card(4, "a", 1)).uuid(), 4);
    assert_eq!(Event::Update(card(5, "a", 1)).uuid(), 5);
    assert_eq!(Event::Delete(6).uuid(), 6);
}

#[test]
fn the_answer_of_the_projector_decides() {
    assert_eq!(LogError::from_push(&Ok(())), Ok(()));
    assert_eq!(
        LogError::from_push(&Err(anyhow::Error::msg("Cannot accept events before the segment started"))),
        Err(LogError::OutOfOrder)
    );
}

#[test]
fn a_log_of_given_cards() {
    let log = EventSourcingService::from_entries(vec![card(3, "c", 1), card(1, "a", 2)]).ok().unwrap();
    assert_eq!(names(&log.projection()), [(3, String::from("c"), 1), (1, String::from("a"), 2)]);
    assert_eq!(log.events().len(), 2);
    assert!(same(&log.events()[0], &Event::Create(card(3, "c", 1))));
    assert!(same(&log.events()[1], &Event::Create(card(1, "a", 2))));
    assert_eq!(
        EventSourcingService::from_entries(vec![card(3, "c", 1), card(1, "a", 2), card(3, "d", 1)]).err(),
        Some(LogError::DuplicateIdentifier)
    );
}

#[test]
fn a_record_gets_an_identifier() {
    let record = legacy("Knight", 12, 3, CardType::Troop, Rarity::Rare);
    let entry = record.clone().with_uuid(99);
    assert_eq!(entry.uuid, 99);
    assert_eq!(entry.name, "Knight");
    assert_eq!(entry.have, 12);
    assert_eq!(entry.level, 3);
    assert_eq!(entry.card_type, CardType::Troop);
    assert_eq!(entry.rarity, Rarity::Rare);
    assert_eq!(entry.computed, None);

    let first = record.clone().retrofit_uuid();
    let second = record.retrofit_uuid();
    assert_ne!(first.uuid, second.uuid);
    assert_eq!(first.name, "Knight");
    assert_eq!(first.have, 12);
    assert_eq!(first.level, 3);
    assert_eq!(first.card_type, CardType::Troop);
    assert_eq!(first.rarity, Rarity::Rare);
}

#[test]
fn old_cards_become_create_events() {
    let old = vec![
        legacy("Knight", 12, 3, CardType::Troop, Rarity::Common),
        legacy("Zap", 0, 9, CardType::Spell, Rarity::Common),
        legacy("Knight", 12, 3, CardType::Troop, Rarity::Common),
        legacy("Tesla", 7, 13, CardType::Building, Rarity::Epic),
        legacy("Miner", 1, 10, CardType::Troop, Rarity::Legendary),
    ];
    let log = EventSourcingService::migrate_from_v1(old.clone()).ok().unwrap();
    assert_eq!(log.events().len(), old.len());
    let cards = log.projection();
    assert_eq!(cards.len(), old.len());
    for ((event, card), record) in log.events().iter().zip(&cards).zip(&old) {
        match event {
            Event::Create(created) => {
                assert_eq!(created.uuid, card.uuid);
                assert_eq!(created.name, record.name);
            }
            _ => panic!("not a create event"),
        }
        assert_eq!(card.name, record.name);
        assert_eq!(card.have, record.have);
        assert_eq!(card.level, record.level);
        assert_eq!(card.card_type, record.card_type);
        assert_eq!(card.rarity, record.rarity);
        assert_eq!(card.computed, record.computed);
    }
    for (place, card) in cards.iter().enumerate() {
        assert!(cards[..place].iter().all(|earlier| earlier.uuid != card.uuid));
    }
    // a replay of the events gives the same cards
    let again = EventSourcingService::replace(log.events().clone()).ok().unwrap();
    assert_eq!(names(&again.projection()), names(&cards));
    assert!(EventSourcingService::migrate_from_v1(Vec::new()).ok().unwrap().events().is_empty());
}

#[test]
fn the_projector_holds_the_cards() {
    let mut log = EventSourcingService::replace(history()).ok().unwrap();
    assert_eq!(names(log.borrow().get_projection()), names(&log.projection()));
    assert_eq!(names(log.borrow_mut().get_projection()), names(&log.projection()));
}

#[test]
fn a_card_is_looked_up_by_its_identifier() {
    let log = EventSourcingService::replace(history()).ok().unwrap();
    let giant = log.card(3).unwrap();
    assert_eq!(giant.name, "Royal Giant");
    assert_eq!(giant.level, 8);
    assert!(log.card(2).is_none());
    assert!(log.card(99).is_none());
}

#[test]
fn a_log_is_restored_from_its_events() {
    let (log, origin) = EventSourcingService::restore(
        Some(history()),
        Some(vec![legacy("Old", 1, 1, CardType::Troop, Rarity::Common)]),
    )
    .ok()
    .unwrap();
    assert_eq!(origin, Origin::Stored);
    assert_eq!(log.events().len(), 7);
    assert_eq!(log.projection().len(), 3);
    assert!(log.projection().iter().all(|card| card.name != "Old"));
}

#[test]
fn a_log_is_restored_from_old_cards() {
    let old = vec![
        legacy("Knight", 12, 3, CardType::Troop, Rarity::Common),
        legacy("Zap", 0, 9, CardType::Spell, Rarity::Common),
    ];
    let (log, origin) = EventSourcingService::restore(None, Some(old)).ok().unwrap();
    assert_eq!(origin, Origin::Migrated);
    assert_eq!(log.events().len(), 2);
    let cards = log.projection();
    assert_eq!(cards[0].name, "Knight");
    assert_eq!(cards[0].have, 12);
    assert_eq!(cards[1].name, "Zap");
    assert_eq!(cards[1].card_type, CardType::Spell);
    assert_ne!(cards[0].uuid, cards[1].uuid);
}

#[test]
fn a_log_is_new_where_nothing_was_kept() {
    let (log, origin) = EventSourcingService::restore(None, None).ok().unwrap();
    assert_eq!(origin, Origin::Fresh);
    assert!(log.events().is_empty());
    assert!(log.projection().is_empty());
}

#[test]
fn kept_events_that_break_the_rules_are_not_repaired() {
    let broken = vec![Event::Create(card(1, "a", 1)), Event::Delete(2)];
    assert_eq!(
        EventSourcingService::restore(Some(broken), None).err(),
        Some(LogError::UnknownIdentifier)
    );
}

#[test]
fn the_cards_of_a_log_are_brought_up_to_date() {
    let now = 1_614_556_800;
    let mut log = EventSourcingService::new();
    let mut legendary = card(1, "Miner", 9);
    legendary.rarity = Rarity::Legendary;
    log.append(Event::Create(legendary)).unwrap();
    log.append(Event::Create(card(2, "Knight", 12))).unwrap();
    log.append(Event::Create(card(3, "Archers", 5))).unwrap();
    let cards = log.scheduled(Some(Arena::RoyalArena), now).unwrap();
    assert_eq!(names(&cards).iter().map(|card| card.0).collect::<Vec<u128>>(), [3, 2, 1]);
    assert_eq!(cards[0].computed.unwrap().days_in_order.unwrap().count, 14);
    assert_eq!(cards[1].computed.unwrap().days_in_order.unwrap().count, 14 + 1169);
    assert_eq!(cards[1].computed.unwrap().done_in_order_on, Some(now + 60 * 86_400));
    assert_eq!(cards[2].computed, None);
    // the log keeps the cards as they were created
    assert_eq!(names(&log.projection()).iter().map(|card| card.0).collect::<Vec<u128>>(), [1, 2, 3]);
    assert!(log.projection().iter().all(|card| card.computed.is_none()));

    log.append(Event::Update(card(3, "Archers", 14))).unwrap();
    assert_eq!(log.scheduled(None, now).err(), Some(CalcError::InvalidLevel));
}

#[test]
fn log_errors_say_what_went_wrong() {
    let all = [LogError::DuplicateIdentifier, LogError::UnknownIdentifier, LogError::OutOfOrder];
    for (place, error) in all.iter().enumerate() {
        assert!(!error.message().is_empty());
        assert!(all[..place].iter().all(|other| other.message() != error.message()));
    }
    assert_eq!(LogError::UnknownIdentifier.message(), "No card has this identifier");
}

#[test]
fn nothing_to_replay_gives_an_empty_log() {
    let replayed = EventSourcingService::replace(Vec::new()).ok().unwrap();
    assert!(replayed.events().is_empty());
    assert!(replayed.projection().is_empty());
    let created = EventSourcingService::from_entries(Vec::new()).ok().unwrap();
    assert!(created.events().is_empty());
    assert!(created.projection().is_empty());
}

#[test]
fn no_old_cards_give_an_empty_log() {
    let log = EventSourcingService::migrate_from_v1(vec![]).ok().unwrap();
    assert!(log.events().is_empty());
    assert!(log.projection().is_empty());
    assert!(log.borrow().get_projection().is_empty());
    let fresh = EventSourcingService::new();
    assert_eq!(log.events().len(), fresh.events().len());
    assert_eq!(log.projection().len(), fresh.projection().len());
}

#[test]
fn empty_lists_are_restored_as_empty_logs() {
    let (log, origin) = EventSourcingService::restore(Some(Vec::new()), None).ok().unwrap();
    assert_eq!(origin, Origin::Stored);
    assert!(log.events().is_empty());
    let (log, origin) = EventSourcingService::restore(None, Some(Vec::new())).ok().unwrap();
    assert_eq!(origin, Origin::Migrated);
    assert!(log.events().is_empty());
    assert!(log.projection().is_empty());
}

#[test]
fn a_first_event_that_breaks_a_rule_is_refused_with_it() {
    assert_eq!(
        EventSourcingService::replace(vec![Event::Update(card(1, "a", 1))]).err(),
        Some(LogError::UnknownIdentifier)
    );
    assert_eq!(
        EventSourcingService::replace(vec![Event::Delete(1), Event::Create(card(1, "a", 1))]).err(),
        Some(LogError::UnknownIdentifier)
    );
    assert_eq!(
        EventSourcingService::restore(Some(vec![Event::Delete(1)]), None).err(),
        Some(LogError::UnknownIdentifier)
    );
}
