//! The log of events, and the cards as the projection of the log.

use super::calc::{spec_arena, spec_remaining, CalcError};
use super::dates::{EVERYDAY_NOW, SECONDS_PER_DAY};
use super::schedule::{spec_schedule_fails, spec_scheduled, EVERYDAY_CARDS};
use super::types::{Arena, CardEntry, CardEntryV1, Rarity};
use vstd::string::StringExecFns;
use libocc::Projector;
use vstd::prelude::*;

verus! {

/// Why an event was not taken into the log
#[derive(Clone, Copy, Debug, PartialEq, Eq, Structural)]
pub enum LogError {
    /// A card is to be created under an identifier that a card already has
    DuplicateIdentifier,
    /// A card is to be changed or deleted under an identifier that no card has
    UnknownIdentifier,
    /// The projector refused an event that breaks no rule of the log: the
    /// clock that stamps its events went backwards
    OutOfOrder,
}

/// A change to the cards
pub enum Event {
    /// A new card
    Create(CardEntry),
    /// New values for all fields of the card with the same identifier
    Update(CardEntry),
    /// The end of the card with this identifier
    Delete(u128),
}

impl Clone for Event {
    fn clone(&self) -> (copy: Self)
        ensures
            copy == *self,
    {
        match self {
            Event::Create(card) => Event::Create(card.clone()),
            Event::Update(card) => Event::Update(card.clone()),
            Event::Delete(uuid) => Event::Delete(*uuid),
        }
    }
}

impl Event {
    /// The identifier of the card that the event is about
    pub open spec fn spec_uuid(self) -> u128 {
        match self {
            Event::Create(card) => card.uuid,
            Event::Update(card) => card.uuid,
            Event::Delete(uuid) => uuid,
        }
    }

    /// The identifier of the card that the event is about
    pub fn uuid(&self) -> (uuid: u128)
        ensures
            uuid == self.spec_uuid(),
    {
        match self {
            Event::Create(card) => card.uuid,
            Event::Update(card) => card.uuid,
            Event::Delete(uuid) => *uuid,
        }
    }
}

/// Whether one of the cards has the identifier
pub open spec fn spec_has(cards: Seq<CardEntry>, uuid: u128) -> bool {
    exists|index: int| 0 <= index < cards.len() && (#[trigger] cards[index]).uuid == uuid
}

/// Whether the card at `index` is the first one with the identifier
pub open spec fn spec_is_first(cards: Seq<CardEntry>, uuid: u128, index: int) -> bool {
    &&& 0 <= index < cards.len()
    &&& cards[index].uuid == uuid
    &&& forall|earlier: int| 0 <= earlier < index ==> (#[trigger] cards[earlier]).uuid != uuid
}

/// The index of the first card with the identifier, where there is one
pub open spec fn spec_first(cards: Seq<CardEntry>, uuid: u128) -> int {
    choose|index: int| spec_is_first(cards, uuid, index)
}

/// The rule of the log that an event breaks, if it breaks one: a card is
/// created once, and only a card that exists is changed or deleted
pub open spec fn spec_verdict(cards: Seq<CardEntry>, event: Event) -> Option<LogError> {
    match event {
        Event::Create(card) => if spec_has(cards, card.uuid) {
            Some(LogError::DuplicateIdentifier)
        } else {
            None
        },
        Event::Update(card) => if spec_has(cards, card.uuid) {
            None
        } else {
            Some(LogError::UnknownIdentifier)
        },
        Event::Delete(uuid) => if spec_has(cards, uuid) {
            None
        } else {
            Some(LogError::UnknownIdentifier)
        },
    }
}

/// The cards after an event that breaks no rule: a created card is added at
/// the end, an updated card takes the place of the card with its identifier,
/// a deleted card leaves and the cards behind it move up
pub open spec fn spec_apply(cards: Seq<CardEntry>, event: Event) -> Seq<CardEntry> {
    match event {
        Event::Create(card) => cards.push(card),
        Event::Update(card) => cards.update(spec_first(cards, card.uuid), card),
        Event::Delete(uuid) => cards.remove(spec_first(cards, uuid)),
    }
}

/// The cards that come of the events, applied in their order from no cards
/// at all, or the rule that the first offending event breaks
pub open spec fn spec_replay(events: Seq<Event>) -> Result<Seq<CardEntry>, LogError>
    decreases events.len(),
{
    if events.len() == 0 {
        Ok(Seq::empty())
    } else {
        match spec_replay(events.drop_last()) {
            Err(error) => Err(error),
            Ok(cards) => match spec_verdict(cards, events.last()) {
                Some(error) => Err(error),
                None => Ok(spec_apply(cards, events.last())),
            },
        }
    }
}

/// Where a card has the identifier, a first such card exists, and it is the
/// one that `spec_first` names.
pub proof fn lemma_first_exists(cards: Seq<CardEntry>, uuid: u128)
    requires
        spec_has(cards, uuid),
    ensures
        spec_is_first(cards, uuid, spec_first(cards, uuid)),
    decreases cards.len(),
{
    let some = choose|index: int| 0 <= index < cards.len() && (#[trigger] cards[index]).uuid == uuid;
    if exists|earlier: int| 0 <= earlier < some && (#[trigger] cards[earlier]).uuid == uuid {
        let front = cards.take(some);
        let earlier = choose|earlier: int|
            0 <= earlier < some && (#[trigger] cards[earlier]).uuid == uuid;
        assert(front[earlier].uuid == uuid);
        lemma_first_exists(front, uuid);
        let first = spec_first(front, uuid);
        assert(cards[first] == front[first]);
        assert forall|k: int| 0 <= k < first implies (#[trigger] cards[k]).uuid != uuid by {
            assert(cards[k] == front[k]);
        }
        assert(spec_is_first(cards, uuid, first));
    } else {
        assert(spec_is_first(cards, uuid, some));
    }
}

/// There is one first card with an identifier at most.
pub proof fn lemma_first_is_unique(cards: Seq<CardEntry>, uuid: u128, index: int)
    requires
        spec_is_first(cards, uuid, index),
    ensures
        spec_first(cards, uuid) == index,
        spec_has(cards, uuid),
{
    let first = spec_first(cards, uuid);
    assert(spec_is_first(cards, uuid, first));
    if first < index {
        assert(cards[first].uuid != uuid);
    } else if index < first {
        assert(cards[index].uuid != uuid);
    }
}

/// `libocc::Projector`, which projects events onto a list of entities. It
/// is carried as it is; what it holds goes by the name `projector_cards`.
#[verifier::external_type_specification]
#[verifier::external_body]
#[verifier::reject_recursive_types(T)]
pub struct ExProjector<T: Clone + PartialEq>(libocc::Projector<T>);

/// `anyhow::Error`, the error with which a projector refuses an event. It is
/// carried as it is; nothing is read from it.
#[verifier::external_type_specification]
#[verifier::external_body]
pub struct ExRefusal(anyhow::Error);

/// The cards that a projector holds: its current projection, which
/// `libocc::Projector::get_projection` gives, in its order.
pub uninterp spec fn projector_cards(projector: Projector<CardEntry>) -> Seq<CardEntry>;

/// `libocc::Projector::new`: a projector whose one segment has an empty
/// snapshot, so that it holds no cards.
#[verifier::external_body]
fn projector_new() -> (projector: Projector<CardEntry>)
    ensures
        projector_cards(projector) == Seq::<CardEntry>::empty(),
{
    Projector::new()
}

/// `libocc::Projector::get_projection`: the snapshot of the latest segment,
/// which is what the projector holds.
#[verifier::external_body]
fn projector_projection(projector: &Projector<CardEntry>) -> (cards: &Vec<CardEntry>)
    ensures
        cards@ == projector_cards(*projector),
{
    projector.get_projection()
}

/// `libocc::Projector::push` of `libocc::Event::create`.
///
/// The event is stamped with the time of the call. The projector looks for
/// the first card that equals the new one, which for cards means: has its
/// identifier. It refuses the event where it finds one, and where the stamp
/// is older than its segment or its latest event; then it is left as it was.
/// Else it adds a clone of the card at the end. The contract claims no more:
/// when the event is taken is up to the clock. The stamp comes from
/// `Utc::now`, which panics where the clock of the system stands before 1970.
#[verifier::external_body]
fn projector_push_create(projector: &mut Projector<CardEntry>, card: CardEntry) -> (pushed: Result<
    (),
    anyhow::Error,
>)
    ensures
        pushed is Ok ==> !spec_has(projector_cards(*old(projector)), card.uuid) && projector_cards(
            *final(projector),
        ) == projector_cards(*old(projector)).push(card),
        pushed is Err ==> projector_cards(*final(projector)) == projector_cards(*old(projector)),
{
    projector.push(libocc::Event::create(card))
}

/// `libocc::Projector::push` of `libocc::Event::update`.
///
/// The event is stamped with the time of the call. The projector looks for
/// the first card that equals the new one, which for cards means: has its
/// identifier. It refuses the event where it finds none, and where the stamp
/// is older than its segment or its latest event; then it is left as it was.
/// Else it puts a clone of the new card in the place of the one it found.
#[verifier::external_body]
fn projector_push_update(projector: &mut Projector<CardEntry>, card: CardEntry) -> (pushed: Result<
    (),
    anyhow::Error,
>)
    ensures
        pushed is Ok ==> exists|index: int|
            {
                &&& #[trigger] spec_is_first(projector_cards(*old(projector)), card.uuid, index)
                &&& projector_cards(*final(projector)) == projector_cards(*old(projector)).update(
                    index,
                    card,
                )
            },
        pushed is Err ==> projector_cards(*final(projector)) == projector_cards(*old(projector)),
{
    projector.push(libocc::Event::update(card))
}

/// `libocc::Projector::push` of `libocc::Event::delete`.
///
/// The event is stamped with the time of the call. The projector looks for
/// the first card that equals the given one, which for cards means: has its
/// identifier. It refuses the event where it finds none, and where the stamp
/// is older than its segment or its latest event; then it is left as it was.
/// Else it removes the card it found, and the cards behind it move up.
#[verifier::external_body]
fn projector_push_delete(projector: &mut Projector<CardEntry>, card: CardEntry) -> (pushed: Result<
    (),
    anyhow::Error,
>)
    ensures
        pushed is Ok ==> exists|index: int|
            {
                &&& #[trigger] spec_is_first(projector_cards(*old(projector)), card.uuid, index)
                &&& projector_cards(*final(projector)) == projector_cards(*old(projector)).remove(
                    index,
                )
            },
        pushed is Err ==> projector_cards(*final(projector)) == projector_cards(*old(projector)),
{
    projector.push(libocc::Event::delete(card))
}

impl LogError {
    /// What the log makes of the answer of the projector to an event that
    /// breaks no rule of the log: where the projector refused it, the event
    /// came out of order
    pub fn from_push(pushed: &Result<(), anyhow::Error>) -> (outcome: Result<(), LogError>)
        ensures
            pushed is Ok ==> outcome == Ok::<(), LogError>(()),
            pushed is Err ==> outcome == Err::<(), LogError>(LogError::OutOfOrder),
    {
        match pushed {
            Ok(_) => Ok(()),
            Err(_) => Err(LogError::OutOfOrder),
        }
    }
}

/// Looks for the first card with an identifier
pub fn find(cards: &Vec<CardEntry>, uuid: u128) -> (found: Option<usize>)
    ensures
        found matches Some(index) ==> spec_is_first(cards@, uuid, index as int),
        found is None ==> !spec_has(cards@, uuid),
        found is Some <==> spec_has(cards@, uuid),
{
    let mut index: usize = 0;
    while index < cards.len()
        invariant
            index <= cards@.len(),
            forall|earlier: int| 0 <= earlier < index ==> (#[trigger] cards@[earlier]).uuid != uuid,
        decreases cards@.len() - index,
    {
        if cards[index].uuid == uuid {
            return Some(index);
        }
        index += 1;
    }
    None
}

/// The log of all changes to the cards, and with it the cards as they are
/// now: the projection of the log, which a `libocc::Projector` keeps.
pub struct EventSourcingService {
    events: Vec<Event>,
    projector: Projector<CardEntry>,
}

impl EventSourcingService {
    /// The events of the log, in the order in which they were appended
    pub closed spec fn spec_events(&self) -> Seq<Event> {
        self.events@
    }

    /// The cards as they are after all events of the log
    pub closed spec fn spec_projection(&self) -> Seq<CardEntry> {
        projector_cards(self.projector)
    }

    /// Whether the service is in order: its cards are what comes of its
    /// events, none of which breaks a rule of the log
    pub closed spec fn wf(&self) -> bool {
        spec_replay(self.events@) == Ok::<Seq<CardEntry>, LogError>(projector_cards(self.projector))
    }

    /// The cards of a service in order are the replay of its events.
    pub proof fn lemma_projection_is_replay(&self)
        requires
            self.wf(),
        ensures
            spec_replay(self.spec_events()) == Ok::<Seq<CardEntry>, LogError>(
                self.spec_projection(),
            ),
    {
    }

    /// A log without events
    pub fn new() -> (service: Self)
        ensures
            service.wf(),
            service.spec_events() == Seq::<Event>::empty(),
            service.spec_projection() == Seq::<CardEntry>::empty(),
    {
        Self { events: Vec::new(), projector: projector_new() }
    }

    /// Appends an event to the log and applies it to the cards.
    ///
    /// An event that breaks a rule of the log is refused with that rule: a
    /// `Create` under an identifier that a card has with
    /// `DuplicateIdentifier`, an `Update` or `Delete` under an identifier
    /// that no card has with `UnknownIdentifier`. An event that breaks none
    /// is handed to the projector; where that refuses it, the outcome is
    /// `OutOfOrder`. A refused event changes neither the log nor the cards.
    pub fn append(&mut self, event: Event) -> (outcome: Result<(), LogError>)
        requires
            old(self).wf(),
        ensures
            final(self).wf(),
            spec_verdict(old(self).spec_projection(), event) matches Some(error) ==> outcome
                == Err::<(), LogError>(error),
            spec_verdict(old(self).spec_projection(), event) is None ==> outcome is Ok || outcome
                == Err::<(), LogError>(LogError::OutOfOrder),
            outcome is Ok ==> {
                &&& final(self).spec_events() == old(self).spec_events().push(event)
                &&& final(self).spec_projection() == spec_apply(
                    old(self).spec_projection(),
                    event,
                )
                &&& event is Delete ==> !spec_has(final(self).spec_projection(), event.spec_uuid())
            },
            outcome is Err ==> {
                &&& final(self).spec_events() == old(self).spec_events()
                &&& final(self).spec_projection() == old(self).spec_projection()
            },
    {
        let ghost cards = projector_cards(self.projector);
        let ghost events = self.events@;
        let found = find(projector_projection(&self.projector), event.uuid());
        let pushed = match &event {
            Event::Create(card) => {
                if found.is_some() {
                    return Err(LogError::DuplicateIdentifier);
                }
                projector_push_create(&mut self.projector, card.clone())
            },
            Event::Update(card) => {
                if found.is_none() {
                    return Err(LogError::UnknownIdentifier);
                }
                projector_push_update(&mut self.projector, card.clone())
            },
            Event::Delete(uuid) => {
                let index = match found {
                    Some(index) => index,
                    None => {
                        return Err(LogError::UnknownIdentifier);
                    },
                };
                let card = projector_projection(&self.projector)[index].clone();
                projector_push_delete(&mut self.projector, card)
            },
        };
        match LogError::from_push(&pushed) {
            Ok(()) => {
                proof {
                    if !(event is Create) {
                        let index = choose|index: int|
                            #[trigger] spec_is_first(cards, event.spec_uuid(), index);
                        lemma_first_is_unique(cards, event.spec_uuid(), index);
                    }
                    assert(events.push(event).drop_last() == events);
                    if event is Delete {
                        lemma_replay_is_distinct(events);
                        lemma_delete_removes(cards, event.spec_uuid());
                    }
                }
                self.events.push(event);
                Ok(())
            },
            Err(error) => Err(error),
        }
    }

    /// The card with an identifier, as it is after all events of the log
    pub fn card(&self, uuid: u128) -> (card: Option<CardEntry>)
        ensures
            card is Some <==> spec_has(self.spec_projection(), uuid),
            card matches Some(found) ==> found == self.spec_projection()[spec_first(
                self.spec_projection(),
                uuid,
            )] && found.uuid == uuid,
    {
        let held = projector_projection(&self.projector);
        match find(held, uuid) {
            Some(index) => {
                proof {
                    lemma_first_is_unique(held@, uuid, index as int);
                }
                Some(held[index].clone())
            },
            None => None,
        }
    }

    /// The cards as they are after all events of the log
    pub fn projection(&self) -> (cards: Vec<CardEntry>)
        ensures
            cards@ == self.spec_projection(),
    {
        let held = projector_projection(&self.projector);
        let mut cards: Vec<CardEntry> = Vec::new();
        let mut index: usize = 0;
        while index < held.len()
            invariant
                index <= held@.len(),
                cards@.len() == index,
                forall|k: int| 0 <= k < index ==> #[trigger] cards@[k] == held@[k],
            decreases held@.len() - index,
        {
            cards.push(held[index].clone());
            index += 1;
        }
        cards
    }
}

/// The events that create the cards, one for each card, in their order
pub open spec fn spec_creates(cards: Seq<CardEntry>) -> Seq<Event> {
    Seq::new(cards.len(), |index: int| Event::Create(cards[index]))
}

/// Whether no two of the cards share an identifier
pub open spec fn spec_distinct(cards: Seq<CardEntry>) -> bool {
    forall|first: int, second: int|
        0 <= first < second < cards.len() ==> (#[trigger] cards[first]).uuid != (
        #[trigger] cards[second]).uuid
}

/// Where the replay of the first events ends in an error, the replay of all
/// events ends in the same error.
pub proof fn lemma_replay_stops_at_first_error(events: Seq<Event>, count: int)
    requires
        0 <= count <= events.len(),
        spec_replay(events.take(count)) is Err,
    ensures
        spec_replay(events) == spec_replay(events.take(count)),
    decreases events.len() - count,
{
    if count < events.len() {
        assert(events.drop_last().take(count) == events.take(count));
        lemma_replay_stops_at_first_error(events.drop_last(), count);
    } else {
        assert(events.take(count) == events);
    }
}

/// The replay of events that create cards: the cards themselves where no two
/// share an identifier, else a duplicate.
pub proof fn lemma_replay_of_creates(cards: Seq<CardEntry>)
    ensures
        spec_distinct(cards) ==> spec_replay(spec_creates(cards)) == Ok::<Seq<CardEntry>, LogError>(
            cards,
        ),
        !spec_distinct(cards) ==> spec_replay(spec_creates(cards)) == Err::<
            Seq<CardEntry>,
            LogError,
        >(LogError::DuplicateIdentifier),
    decreases cards.len(),
{
    if cards.len() == 0 {
        assert(spec_replay(spec_creates(cards)) == Ok::<Seq<CardEntry>, LogError>(Seq::empty()));
        assert(cards == Seq::<CardEntry>::empty());
    } else {
        let front = cards.drop_last();
        let last = cards.last();
        assert(spec_creates(cards).drop_last() == spec_creates(front));
        assert(spec_creates(cards).last() == Event::Create(last));
        lemma_replay_of_creates(front);
        if spec_distinct(front) {
            if spec_has(front, last.uuid) {
                let index = choose|index: int|
                    0 <= index < front.len() && (#[trigger] front[index]).uuid == last.uuid;
                assert(cards[index].uuid == cards[cards.len() - 1].uuid);
            } else {
                assert(front.push(last) == cards);
                assert forall|first: int, second: int|
                    0 <= first < second < cards.len() implies (#[trigger] cards[first]).uuid != (
                #[trigger] cards[second]).uuid by {
                    if second < front.len() {
                        assert(front[first].uuid != front[second].uuid);
                    } else {
                        assert(front[first].uuid != last.uuid);
                    }
                }
            }
        } else {
            let (first, second) = choose|first: int, second: int|
                0 <= first < second < front.len() && (#[trigger] front[first]).uuid == (
                #[trigger] front[second]).uuid;
            assert(cards[first].uuid == cards[second].uuid);
        }
    }
}

impl EventSourcingService {
    /// Builds the log anew from events that were kept elsewhere, by
    /// appending them in their order. Events that do not keep to the rules of
    /// the log are not repaired: the first one that breaks a rule ends the
    /// replay with that rule, as it would on appending. No events give a log
    /// without events, whatever the clock of the projector does; and a first
    /// event that breaks a rule is refused with that rule, since the projector
    /// has not been asked by then.
    pub fn replace(events: Vec<Event>) -> (outcome: Result<Self, LogError>)
        ensures
            outcome matches Ok(service) ==> {
                &&& service.wf()
                &&& service.spec_events() == events@
                &&& spec_replay(events@) == Ok::<Seq<CardEntry>, LogError>(
                    service.spec_projection(),
                )
            },
            outcome matches Err(error) ==> error == LogError::OutOfOrder || spec_replay(events@)
                == Err::<Seq<CardEntry>, LogError>(error),
            spec_replay(events@) is Err ==> outcome is Err,
            events@.len() == 0 ==> outcome is Ok,
            events@.len() > 0 ==> (spec_verdict(Seq::<CardEntry>::empty(), events@[0]) matches Some(
                error,
            ) ==> outcome matches Err(first) && first == error),
    {
        let mut service = Self::new();
        let mut index: usize = 0;
        assert(events@.take(0) == Seq::<Event>::empty());
        while index < events.len()
            invariant
                index <= events@.len(),
                service.wf(),
                service.spec_events() == events@.take(index as int),
                index == 0 ==> service.spec_projection() == Seq::<CardEntry>::empty(),
                index > 0 ==> spec_verdict(Seq::<CardEntry>::empty(), events@[0]) is None,
            decreases events@.len() - index,
        {
            let ghost cards = service.spec_projection();
            proof {
                assert(events@.take(index + 1).drop_last() == events@.take(index as int));
                assert(events@.take(index + 1).last() == events@[index as int]);
                assert(events@.take(index as int).push(events@[index as int]) == events@.take(
                    index + 1,
                ));
            }
            match service.append(events[index].clone()) {
                Ok(()) => {},
                Err(error) => {
                    proof {
                        if error != LogError::OutOfOrder {
                            assert(spec_verdict(cards, events@[index as int]) == Some(error));
                            lemma_replay_stops_at_first_error(events@, index + 1);
                        }
                        if index == 0 {
                            assert(cards == Seq::<CardEntry>::empty());
                        }
                    }
                    return Err(error);
                },
            }
            index += 1;
        }
        assert(events@.take(index as int) == events@);
        Ok(service)
    }

    /// A log that creates the given cards, in their order. Where two of the
    /// cards share an identifier there is no such log. No cards give a log
    /// without events.
    pub fn from_entries(cards: Vec<CardEntry>) -> (outcome: Result<Self, LogError>)
        ensures
            outcome matches Ok(service) ==> {
                &&& service.wf()
                &&& service.spec_events() == spec_creates(cards@)
                &&& service.spec_projection() == cards@
                &&& spec_distinct(cards@)
            },
            outcome matches Err(error) ==> error == LogError::OutOfOrder || error
                == LogError::DuplicateIdentifier,
            !spec_distinct(cards@) ==> outcome is Err,
            spec_distinct(cards@) ==> outcome is Ok || outcome == Err::<Self, LogError>(
                LogError::OutOfOrder,
            ),
            cards@.len() == 0 ==> outcome is Ok,
    {
        let mut events: Vec<Event> = Vec::new();
        let mut index: usize = 0;
        while index < cards.len()
            invariant
                index <= cards@.len(),
                events@.len() == index,
                forall|k: int| 0 <= k < index ==> #[trigger] events@[k] == Event::Create(cards@[k]),
            decreases cards@.len() - index,
        {
            events.push(Event::Create(cards[index].clone()));
            index += 1;
        }
        proof {
            assert(events@ == spec_creates(cards@));
            lemma_replay_of_creates(cards@);
        }
        Self::replace(events)
    }

    /// Turns the cards of the first storage format into a log: every card
    /// gets a new random identifier and is created under it, in the order of
    /// the cards. Where two of the random identifiers are the same, or the
    /// projector refuses an event, there is no such log. No cards give a log
    /// without events.
    pub fn migrate_from_v1(old_cards: Vec<CardEntryV1>) -> (outcome: Result<Self, LogError>)
        ensures
            outcome matches Ok(service) ==> {
                &&& service.wf()
                &&& service.spec_events() == spec_creates(service.spec_projection())
                &&& service.spec_projection().len() == old_cards@.len()
                &&& spec_distinct(service.spec_projection())
                &&& forall|index: int|
                    0 <= index < old_cards@.len() ==> #[trigger] service.spec_projection()[index]
                        == old_cards@[index].spec_with_uuid(service.spec_projection()[index].uuid)
            },
            outcome matches Err(error) ==> error == LogError::OutOfOrder || error
                == LogError::DuplicateIdentifier,
            old_cards@.len() == 0 ==> outcome is Ok,
    {
        let mut cards: Vec<CardEntry> = Vec::new();
        let mut index: usize = 0;
        // Add all cards
        while index < old_cards.len()
            invariant
                index <= old_cards@.len(),
                cards@.len() == index,
                forall|k: int|
                    0 <= k < index ==> #[trigger] cards@[k] == old_cards@[k].spec_with_uuid(
                        cards@[k].uuid,
                    ),
            decreases old_cards@.len() - index,
        {
            cards.push(old_cards[index].clone().retrofit_uuid());
            index += 1;
        }
        Self::from_entries(cards)
    }

    /// The projector that keeps the cards
    pub fn borrow(&self) -> (projector: &Projector<CardEntry>)
        ensures
            projector_cards(*projector) == self.spec_projection(),
    {
        &self.projector
    }

    /// The projector that keeps the cards
    pub fn borrow_mut(&mut self) -> (projector: &Projector<CardEntry>)
        ensures
            projector_cards(*projector) == old(self).spec_projection(),
            *final(self) == *old(self),
    {
        &self.projector
    }

    /// The events of the log, in the order in which they were appended
    pub fn events(&self) -> (events: &Vec<Event>)
        ensures
            events@ == self.spec_events(),
    {
        &self.events
    }
}

/// Two logs with the same events have the same cards: the cards are a
/// function of the events alone.
pub proof fn lemma_replay_is_deterministic(first: EventSourcingService, second: EventSourcingService)
    requires
        first.wf(),
        second.wf(),
        first.spec_events() == second.spec_events(),
    ensures
        first.spec_projection() == second.spec_projection(),
{
    first.lemma_projection_is_replay();
    second.lemma_projection_is_replay();
}

/// Where the replay of events succeeds, the replay of the first of them
/// succeeds too.
pub proof fn lemma_replay_of_front(events: Seq<Event>, count: int)
    requires
        0 <= count <= events.len(),
        spec_replay(events) is Ok,
    ensures
        spec_replay(events.take(count)) is Ok,
{
    if spec_replay(events.take(count)) is Err {
        lemma_replay_stops_at_first_error(events, count);
    }
}

/// An event that breaks no rule leaves cards without shared identifiers
/// without shared identifiers.
pub proof fn lemma_apply_keeps_distinct(cards: Seq<CardEntry>, event: Event)
    requires
        spec_distinct(cards),
        spec_verdict(cards, event) is None,
    ensures
        spec_distinct(spec_apply(cards, event)),
{
    let after = spec_apply(cards, event);
    match event {
        Event::Create(card) => {
            assert forall|first: int, second: int| 0 <= first < second < after.len() implies (
            #[trigger] after[first]).uuid != (#[trigger] after[second]).uuid by {
                if second < cards.len() {
                    assert(cards[first].uuid != cards[second].uuid);
                } else {
                    assert(after[first] == cards[first]);
                }
            }
        },
        Event::Update(card) => {
            lemma_first_exists(cards, card.uuid);
            let index = spec_first(cards, card.uuid);
            assert forall|first: int, second: int| 0 <= first < second < after.len() implies (
            #[trigger] after[first]).uuid != (#[trigger] after[second]).uuid by {
                assert(after[first].uuid == cards[first].uuid);
                assert(after[second].uuid == cards[second].uuid);
            }
        },
        Event::Delete(uuid) => {
            lemma_first_exists(cards, uuid);
            let index = spec_first(cards, uuid);
            assert forall|first: int, second: int| 0 <= first < second < after.len() implies (
            #[trigger] after[first]).uuid != (#[trigger] after[second]).uuid by {
                let from = if first < index {
                    first
                } else {
                    first + 1
                };
                let to = if second < index {
                    second
                } else {
                    second + 1
                };
                assert(after[first] == cards[from]);
                assert(after[second] == cards[to]);
                assert(cards[from].uuid != cards[to].uuid);
            }
        },
    }
}

/// No two cards that come of a replay share an identifier.
pub proof fn lemma_replay_is_distinct(events: Seq<Event>)
    requires
        spec_replay(events) is Ok,
    ensures
        spec_distinct(spec_replay(events)->Ok_0),
    decreases events.len(),
{
    if events.len() > 0 {
        lemma_replay_is_distinct(events.drop_last());
        lemma_apply_keeps_distinct(spec_replay(events.drop_last())->Ok_0, events.last());
    }
}

/// Deleting a card from cards without shared identifiers leaves no card with
/// its identifier.
pub proof fn lemma_delete_removes(cards: Seq<CardEntry>, uuid: u128)
    requires
        spec_distinct(cards),
        spec_has(cards, uuid),
    ensures
        !spec_has(spec_apply(cards, Event::Delete(uuid)), uuid),
{
    lemma_first_exists(cards, uuid);
    let index = spec_first(cards, uuid);
    let after = cards.remove(index);
    if spec_has(after, uuid) {
        let place = choose|place: int| 0 <= place < after.len() && (#[trigger] after[place]).uuid == uuid;
        let from = if place < index {
            place
        } else {
            place + 1
        };
        assert(after[place] == cards[from]);
        if from < index {
            assert(cards[from].uuid != cards[index].uuid);
        } else {
            assert(cards[index].uuid != cards[from].uuid);
        }
    }
}

/// An identifier that no card has stays without a card through every event
/// that breaks no rule and does not create a card under it.
pub proof fn lemma_absent_stays_absent(cards: Seq<CardEntry>, event: Event, uuid: u128)
    requires
        !spec_has(cards, uuid),
        spec_verdict(cards, event) is None,
        !(event is Create && event.spec_uuid() == uuid),
    ensures
        !spec_has(spec_apply(cards, event), uuid),
{
    let after = spec_apply(cards, event);
    if spec_has(after, uuid) {
        let place = choose|place: int| 0 <= place < after.len() && (#[trigger] after[place]).uuid == uuid;
        match event {
            Event::Create(card) => {
                if place < cards.len() {
                    assert(after[place] == cards[place]);
                }
            },
            Event::Update(card) => {
                lemma_first_exists(cards, card.uuid);
                let index = spec_first(cards, card.uuid);
                assert(after[place].uuid == cards[place].uuid);
            },
            Event::Delete(other) => {
                lemma_first_exists(cards, other);
                let index = spec_first(cards, other);
                let from = if place < index {
                    place
                } else {
                    place + 1
                };
                assert(after[place] == cards[from]);
            },
        }
    }
}

/// A deleted card is gone, and a replay of the whole log does not bring it
/// back: after the events `before`, the deletion of the card `uuid` and the
/// events `after`, none of which creates a card under `uuid` again, no card
/// has the identifier.
pub proof fn lemma_deleted_stays_out(before: Seq<Event>, uuid: u128, after: Seq<Event>)
    requires
        spec_replay(before.push(Event::Delete(uuid)) + after) is Ok,
        forall|index: int|
            0 <= index < after.len() ==> !((#[trigger] after[index]) is Create
                && after[index].spec_uuid() == uuid),
    ensures
        spec_replay(before.push(Event::Delete(uuid))) is Ok,
        !spec_has(spec_replay(before.push(Event::Delete(uuid)))->Ok_0, uuid),
        !spec_has(spec_replay(before.push(Event::Delete(uuid)) + after)->Ok_0, uuid),
    decreases after.len(),
{
    let deleted = before.push(Event::Delete(uuid));
    let all = deleted + after;
    if after.len() == 0 {
        assert(all == deleted);
        assert(deleted.drop_last() == before);
        assert(deleted.last() == Event::Delete(uuid));
        lemma_replay_of_front(deleted, before.len() as int);
        assert(deleted.take(before.len() as int) == before);
        lemma_replay_is_distinct(before);
        lemma_delete_removes(spec_replay(before)->Ok_0, uuid);
    } else {
        let front = after.drop_last();
        assert(all.drop_last() == deleted + front);
        assert(all.last() == after.last());
        assert forall|index: int| 0 <= index < front.len() implies !((
        #[trigger] front[index]) is Create && front[index].spec_uuid() == uuid) by {
            assert(front[index] == after[index]);
        }
        lemma_deleted_stays_out(before, uuid, front);
        lemma_absent_stays_absent(spec_replay(deleted + front)->Ok_0, after.last(), uuid);
    }
}

/// Where the events of a restored log came from
#[derive(Clone, Copy, Debug, PartialEq, Eq, Structural)]
pub enum Origin {
    /// From the events that were kept
    Stored,
    /// From the cards of the first storage format, which were turned into
    /// events that are not kept yet
    Migrated,
    /// From nowhere: nothing was kept
    Fresh,
}

impl EventSourcingService {
    /// Restores the log from what was kept: from the events where there are
    /// any, else from the cards of the first storage format, else as a log
    /// without events. What was kept and cannot be read counts as not kept,
    /// and is handed in as `None`. Events or cards that can be read and do
    /// not make a log are an error. An empty list of events or of cards, and
    /// nothing at all, give a log without events.
    pub fn restore(stored: Option<Vec<Event>>, old_cards: Option<Vec<CardEntryV1>>) -> (outcome: Result<
        (Self, Origin),
        LogError,
    >)
        ensures
            outcome matches Ok((service, origin)) ==> {
                &&& service.wf()
                &&& match (stored, old_cards) {
                    (Some(events), _) => origin == Origin::Stored && service.spec_events()
                        == events@,
                    (None, Some(records)) => {
                        &&& origin == Origin::Migrated
                        &&& service.spec_events() == spec_creates(service.spec_projection())
                        &&& service.spec_projection().len() == records@.len()
                        &&& forall|index: int|
                            0 <= index < records@.len()
                                ==> #[trigger] service.spec_projection()[index]
                                == records@[index].spec_with_uuid(
                                service.spec_projection()[index].uuid,
                            )
                    },
                    (None, None) => origin == Origin::Fresh && service.spec_events()
                        == Seq::<Event>::empty(),
                }
            },
            outcome matches Err(error) ==> match (stored, old_cards) {
                (Some(events), _) => error == LogError::OutOfOrder || spec_replay(events@) == Err::<
                    Seq<CardEntry>,
                    LogError,
                >(error),
                (None, Some(_)) => error == LogError::OutOfOrder || error
                    == LogError::DuplicateIdentifier,
                (None, None) => false,
            },
            stored matches Some(events) && spec_replay(events@) is Err ==> outcome is Err,
            match (stored, old_cards) {
                (Some(events), _) => {
                    &&& events@.len() == 0 ==> outcome is Ok
                    &&& events@.len() > 0 ==> (spec_verdict(
                        Seq::<CardEntry>::empty(),
                        events@[0],
                    ) matches Some(error) ==> outcome matches Err(first) && first == error)
                },
                (None, Some(records)) => records@.len() == 0 ==> outcome is Ok,
                (None, None) => outcome is Ok,
            },
    {
        match stored {
            Some(events) => match Self::replace(events) {
                Ok(service) => Ok((service, Origin::Stored)),
                Err(error) => Err(error),
            },
            None => match old_cards {
                Some(records) => match Self::migrate_from_v1(records) {
                    Ok(service) => Ok((service, Origin::Migrated)),
                    Err(error) => Err(error),
                },
                None => Ok((Self::new(), Origin::Fresh)),
            },
        }
    }

    /// The cards as they are after all events of the log, brought up to date
    /// for the moment `now` and an arena: with their computed values, in
    /// their order, worked off one after the other. This succeeds for a
    /// moment between 1970 and 2100 and up to 285 cards, where the
    /// calculation for each card has a result.
    pub fn scheduled(&self, arena: Option<Arena>, now: i64) -> (outcome: Result<
        Vec<CardEntry>,
        CalcError,
    >)
        ensures
            outcome matches Ok(cards) ==> spec_scheduled(
                self.spec_projection(),
                cards@,
                spec_arena(arena),
                now,
            ),
            outcome matches Err(error) ==> spec_schedule_fails(
                self.spec_projection(),
                spec_arena(arena),
                now,
                error,
            ),
            outcome matches Ok(cards) ==> forall|index: int|
                0 <= index < cards@.len() ==> if (#[trigger] cards@[index]).rarity
                    == Rarity::Legendary {
                    cards@[index].computed is None
                } else {
                    &&& cards@[index].computed matches Some(data)
                    &&& data.done_on == now + SECONDS_PER_DAY * data.days_remaining.spec_ceil()
                    &&& data.days_in_order matches Some(days)
                    &&& data.done_in_order_on matches Some(then)
                    &&& then == now + SECONDS_PER_DAY * days.spec_ceil()
                },
            0 <= now <= EVERYDAY_NOW && self.spec_projection().len() <= EVERYDAY_CARDS && (
            forall|index: int|
                0 <= index < self.spec_projection().len() ==> spec_remaining(
                    #[trigger] self.spec_projection()[index],
                    spec_arena(arena),
                ) is Ok) ==> outcome is Ok,
    {
        let mut cards = self.projection();
        match CardEntry::schedule_all(&mut cards, arena, now) {
            Ok(()) => Ok(cards),
            Err(error) => Err(error),
        }
    }
}

impl LogError {
    /// What the error says, in words
    pub fn message(&self) -> (text: String)
        ensures
            text@ == match *self {
                LogError::DuplicateIdentifier => "A card with this identifier exists already"@,
                LogError::UnknownIdentifier => "No card has this identifier"@,
                LogError::OutOfOrder => "The event is older than the events of the log"@,
            },
    {
        match self {
            LogError::DuplicateIdentifier => String::from_str(
                "A card with this identifier exists already",
            ),
            LogError::UnknownIdentifier => String::from_str("No card has this identifier"),
            LogError::OutOfOrder => String::from_str("The event is older than the events of the log"),
        }
    }
}

} // verus!
