//! The calculation engine: what is left to do for a card until its next level.

use super::dates::{add_days, date_after, EVERYDAY_NOW, SECONDS_PER_DAY};
use super::types::{
    get_request_size, spec_level_fits, spec_needed_cards, spec_needed_gold, spec_request_size,
    spec_weekly_frequency, weekly_frequency, Arena, CardEntry, Rarity, RequestSize,
};
use vstd::prelude::*;
use vstd::string::StringExecFns;

verus! {

/// Why a calculation gave no result
#[derive(Clone, Copy, Debug, PartialEq, Eq, Structural)]
pub enum CalcError {
    /// The level of a card is not one of 1 to 13, or lies below the levels
    /// that its rarity has
    InvalidLevel,
    /// One or more cards have missing values
    MissingCalculatedValues,
    /// Cards remain to be requested in an arena whose requests hold none
    RequestsUnavailable,
    /// A running total of days does not fit into 64 bits
    TotalTooLarge,
    /// A completion date lies outside of the calendar
    DateOutOfRange,
}

impl CalcError {
    /// What the error says, in words
    pub fn message(&self) -> (text: String)
        ensures
            text@ == match *self {
                CalcError::InvalidLevel => "The level of a card is not one that its rarity has"@,
                CalcError::MissingCalculatedValues => "One or more cards have missing values"@,
                CalcError::RequestsUnavailable => "The arena has no requests for the missing cards"@,
                CalcError::TotalTooLarge => "The days of the cards add up to too many"@,
                CalcError::DateOutOfRange => "A date lies outside of the calendar"@,
            },
    {
        match self {
            CalcError::InvalidLevel => String::from_str(
                "The level of a card is not one that its rarity has",
            ),
            CalcError::MissingCalculatedValues => String::from_str(
                "One or more cards have missing values",
            ),
            CalcError::RequestsUnavailable => String::from_str(
                "The arena has no requests for the missing cards",
            ),
            CalcError::TotalTooLarge => String::from_str("The days of the cards add up to too many"),
            CalcError::DateOutOfRange => String::from_str("A date lies outside of the calendar"),
        }
    }
}

/// A span of time that is not negative, held exactly as a number of
/// twentieths of its unit (of a week, or of a day)
#[derive(Clone, Copy, Debug, PartialEq, Eq, Structural)]
pub struct Twentieths {
    pub count: u64,
}

impl Twentieths {
    /// The least whole number of units that is not below the span
    pub open spec fn spec_ceil(self) -> nat {
        ((self.count + 19) / 20) as nat
    }

    /// The least whole number of units that is not below the span
    pub fn ceil(&self) -> (whole: u64)
        ensures
            whole == self.spec_ceil(),
            20 * whole >= self.count,
            20 * whole < self.count + 20,
            whole <= i64::MAX,
    {
        let below: u64 = self.count / 20;
        if self.count % 20 == 0 {
            below
        } else {
            below + 1
        }
    }
}

/// The computed values of a card: what is left to do until its next level
#[derive(Clone, Copy, Debug, PartialEq, Eq, Structural)]
pub struct CardData {
    /// The cards that are still missing
    pub cards_remaining: usize,
    /// The requests that it takes to get them
    pub requests_remaining: usize,
    /// The weeks that these requests take
    pub weeks_remaining: Twentieths,
    /// The days that these requests take
    pub days_remaining: Twentieths,
    /// When the last request comes in, in seconds since 1970-01-01 00:00:00 UTC
    pub done_on: i64,
    /// The days until the card is done when the cards are worked off one
    /// after the other
    pub days_in_order: Option<Twentieths>,
    /// When the card is done when the cards are worked off one after the other
    pub done_in_order_on: Option<i64>,
}

/// What is left to do for a card, before any date is put to it
#[derive(Clone, Copy, Debug, PartialEq, Eq, Structural)]
pub struct Remaining {
    /// The cards that are still missing
    pub cards_remaining: usize,
    /// The requests that it takes to get them
    pub requests_remaining: usize,
    /// The weeks that these requests take
    pub weeks_remaining: Twentieths,
    /// The days that these requests take
    pub days_remaining: Twentieths,
}

/// The arena that a calculation goes by: the highest one where none is given
pub open spec fn spec_arena(arena: Option<Arena>) -> Arena {
    match arena {
        Some(arena) => arena,
        None => Arena::LegendaryArena,
    }
}

/// The cards that are still missing: what is needed and not owned
pub open spec fn spec_cards_remaining(needed: nat, have: nat) -> nat {
    if needed < have {
        0
    } else {
        (needed - have) as nat
    }
}

/// The cards that one request for a card of a rarity yields
pub open spec fn spec_per_request(rarity: Rarity, size: RequestSize) -> nat {
    if rarity == Rarity::Common {
        size.common as nat
    } else {
        size.rare as nat
    }
}

/// The requests that it takes to get a number of cards: the cards divided by
/// the size of a request, rounded up
pub open spec fn spec_requests_remaining(cards: nat, per_request: nat) -> nat
    recommends
        cards == 0 || per_request > 0,
{
    if cards == 0 {
        0
    } else {
        ((cards - 1) / (per_request as int) + 1) as nat
    }
}

/// The weeks that a number of requests takes, in twentieths: the requests
/// divided by the requests of a week
pub open spec fn spec_weeks_remaining(requests: nat, rarity: Rarity) -> nat
    recommends
        rarity != Rarity::Legendary,
{
    20 * requests / spec_weekly_frequency(rarity)
}

/// What is left to do for a card in an arena. A legendary card cannot be
/// requested and has no such value; a level that its rarity does not have is
/// an error, and so are missing cards where requests yield none.
pub open spec fn spec_remaining(card: CardEntry, arena: Arena) -> Result<Option<Remaining>, CalcError> {
    let cards = spec_cards_remaining(
        spec_needed_cards(card.rarity, card.level as nat),
        card.have as nat,
    );
    let per_request = spec_per_request(card.rarity, spec_request_size(arena));
    let requests = spec_requests_remaining(cards, per_request);
    let weeks = spec_weeks_remaining(requests, card.rarity);
    if card.rarity == Rarity::Legendary {
        Ok(None)
    } else if !spec_level_fits(card.rarity, card.level as nat) {
        Err(CalcError::InvalidLevel)
    } else if cards > 0 && per_request == 0 {
        Err(CalcError::RequestsUnavailable)
    } else {
        Ok(
            Some(
                Remaining {
                    cards_remaining: cards as usize,
                    requests_remaining: requests as usize,
                    weeks_remaining: Twentieths { count: weeks as u64 },
                    days_remaining: Twentieths { count: (7 * weeks) as u64 },
                },
            ),
        )
    }
}

/// The computed values that come of what is left to do once the date of the
/// last request is known: an error where there is no such date
pub open spec fn spec_dated(remaining: Remaining, done_on: Option<i64>) -> Result<CardData, CalcError> {
    match done_on {
        Some(done_on) => Ok(
            CardData {
                cards_remaining: remaining.cards_remaining,
                requests_remaining: remaining.requests_remaining,
                weeks_remaining: remaining.weeks_remaining,
                days_remaining: remaining.days_remaining,
                done_on,
                days_in_order: None,
                done_in_order_on: None,
            },
        ),
        None => Err(CalcError::DateOutOfRange),
    }
}

/// The computed values of a card in an arena at the moment `now`
pub open spec fn spec_calc_remaining(card: CardEntry, arena: Arena, now: i64) -> Result<
    Option<CardData>,
    CalcError,
> {
    match spec_remaining(card, arena) {
        Err(error) => Err(error),
        Ok(None) => Ok(None),
        Ok(Some(remaining)) => match spec_dated(
            remaining,
            date_after(now, remaining.days_remaining.spec_ceil() as i64),
        ) {
            Ok(data) => Ok(Some(data)),
            Err(error) => Err(error),
        },
    }
}

/// The requests are the cards divided by the size of a request, rounded up:
/// they yield all the cards, and one request less would not.
pub proof fn lemma_requests_round_up(cards: nat, per_request: nat)
    requires
        cards > 0,
        per_request > 0,
    ensures
        spec_requests_remaining(cards, per_request) * per_request >= cards,
        (spec_requests_remaining(cards, per_request) - 1) * per_request < cards,
        1 <= spec_requests_remaining(cards, per_request) <= cards,
{
    let above = (cards - 1) as int;
    let size = per_request as int;
    vstd::arithmetic::div_mod::lemma_fundamental_div_mod(above, size);
    vstd::arithmetic::div_mod::lemma_mod_bound(above, size);
    vstd::arithmetic::div_mod::lemma_div_pos_is_pos(above, size);
    let whole = above / size;
    assert(size * whole + size == (whole + 1) * size) by (nonlinear_arith);
    assert(whole * size == size * whole) by (nonlinear_arith);
    assert(whole <= above) by (nonlinear_arith)
        requires
            above == size * whole + above % size,
            0 <= above % size,
            size >= 1,
            whole >= 0,
    ;
}

/// The weeks are the requests divided by the requests of a week, and the
/// days are seven times the weeks: both are exact in twentieths.
pub proof fn lemma_weeks_exact(requests: nat, rarity: Rarity)
    requires
        rarity != Rarity::Legendary,
    ensures
        spec_weeks_remaining(requests, rarity) * spec_weekly_frequency(rarity) == 20 * requests,
        spec_weeks_remaining(requests, rarity) <= 20 * requests,
{
    if spec_weekly_frequency(rarity) == 20 {
        assert(20 * requests / 20 == requests);
    } else {
        assert(20 * requests / 1 == 20 * requests);
    }
}

impl CardData {
    /// Puts the date of the last request to what is left to do. Where there
    /// is no such date, the calculation fails.
    pub fn dated(remaining: Remaining, done_on: Option<i64>) -> (data: Result<CardData, CalcError>)
        ensures
            data == spec_dated(remaining, done_on),
    {
        match done_on {
            Some(done_on) => Ok(
                CardData {
                    cards_remaining: remaining.cards_remaining,
                    requests_remaining: remaining.requests_remaining,
                    weeks_remaining: remaining.weeks_remaining,
                    days_remaining: remaining.days_remaining,
                    done_on,
                    days_in_order: None,
                    done_in_order_on: None,
                },
            ),
            None => Err(CalcError::DateOutOfRange),
        }
    }
}

impl CardEntry {
    /// The cards that are still missing for the next level: what is needed
    /// and not owned
    pub fn cards_remaining(&self) -> (missing: Result<usize, CalcError>)
        ensures
            self.spec_has_valid_level() ==> missing == Ok::<usize, CalcError>(
                spec_cards_remaining(
                    spec_needed_cards(self.rarity, self.level as nat),
                    self.have as nat,
                ) as usize,
            ),
            !self.spec_has_valid_level() ==> missing == Err::<usize, CalcError>(
                CalcError::InvalidLevel,
            ),
            missing matches Ok(cards) ==> cards <= 5000,
    {
        match self.get_needed_cards() {
            Ok(needed) => if needed < self.have {
                Ok(0)
            } else {
                Ok(needed - self.have)
            },
            Err(error) => Err(error),
        }
    }

    /// Calculates what is left to do for the card in an arena (the highest
    /// one where none is given): the missing cards, the requests that yield
    /// them, and the weeks and days that these requests take.
    pub fn remaining(&self, arena: Option<Arena>) -> (left: Result<Option<Remaining>, CalcError>)
        ensures
            left == spec_remaining(*self, spec_arena(arena)),
            self.rarity == Rarity::Legendary <==> left == Ok::<Option<Remaining>, CalcError>(None),
            left matches Ok(Some(remaining)) ==> {
                &&& remaining.cards_remaining <= 5000
                &&& remaining.requests_remaining <= remaining.cards_remaining
                &&& remaining.cards_remaining > 0 ==> {
                    let size = spec_per_request(self.rarity, spec_request_size(spec_arena(arena)));
                    &&& remaining.requests_remaining * size >= remaining.cards_remaining
                    &&& (remaining.requests_remaining - 1) * size < remaining.cards_remaining
                }
                &&& remaining.days_remaining.count == 7 * remaining.weeks_remaining.count
                &&& remaining.weeks_remaining.count * spec_weekly_frequency(self.rarity) == 20
                    * remaining.requests_remaining
                &&& remaining.days_remaining.count <= 700_000
            },
    {
        // Cannot request legendary cards
        if self.rarity == Rarity::Legendary {
            return Ok(None);
        }
        let cards_remaining: usize = match self.cards_remaining() {
            Ok(cards_remaining) => cards_remaining,
            Err(error) => {
                return Err(error);
            },
        };

        // The arena the user is in (default to the LegendaryArena)
        let request_size = get_request_size(
            &match arena {
                Some(arena) => arena,
                None => Arena::LegendaryArena,
            },
        );

        let per_request: usize = if self.rarity == Rarity::Common {
            request_size.common
        } else {
            request_size.rare
        };

        let requests_remaining: usize = if cards_remaining == 0 {
            0
        } else if per_request == 0 {
            return Err(CalcError::RequestsUnavailable);
        } else {
            proof {
                lemma_requests_round_up(cards_remaining as nat, per_request as nat);
            }
            (cards_remaining - 1) / per_request + 1
        };

        let per_week: usize = weekly_frequency(self.rarity);
        let per_request_weeks: u64 = 20 / (per_week as u64);
        proof {
            assert(per_request_weeks == 20int / (per_week as int));
            lemma_weeks_exact(requests_remaining as nat, self.rarity);
            assert(requests_remaining * per_request_weeks == spec_weeks_remaining(
                requests_remaining as nat,
                self.rarity,
            )) by {
                if per_week == 20 {
                    assert(per_request_weeks == 1);
                } else {
                    assert(per_request_weeks == 20);
                }
            }
        }
        let weeks: u64 = requests_remaining as u64 * per_request_weeks;
        let days: u64 = 7 * weeks;

        Ok(
            Some(
                Remaining {
                    cards_remaining,
                    requests_remaining,
                    weeks_remaining: Twentieths { count: weeks },
                    days_remaining: Twentieths { count: days },
                },
            ),
        )
    }

    /// Calculates the computed values of the card at the moment `now`
    /// (seconds since 1970-01-01 00:00:00 UTC) in an arena (the highest one
    /// where none is given): what is left to do, and the date of the last
    /// request, which lies as many whole days after `now` as the remaining
    /// days rounded up. A legendary card has no such values, whatever else
    /// it holds. For a moment between 1970 and 2100 the date is in the
    /// calendar.
    pub fn calc_remaining(&self, arena: Option<Arena>, now: i64) -> (data: Result<
        Option<CardData>,
        CalcError,
    >)
        ensures
            data == spec_calc_remaining(*self, spec_arena(arena), now),
            self.rarity == Rarity::Legendary <==> data == Ok::<Option<CardData>, CalcError>(None),
            data matches Ok(Some(computed)) ==> {
                &&& computed.done_on == now + SECONDS_PER_DAY
                    * computed.days_remaining.spec_ceil()
                &&& computed.days_remaining.count <= 700_000
                &&& computed.days_in_order is None
                &&& computed.done_in_order_on is None
                &&& self.level == 13 ==> computed.cards_remaining == 0
                    && computed.requests_remaining == 0
            },
            0 <= now <= EVERYDAY_NOW && spec_remaining(*self, spec_arena(arena)) is Ok
                ==> data is Ok,
            0 <= now <= EVERYDAY_NOW ==> data != Err::<Option<CardData>, CalcError>(
                CalcError::DateOutOfRange,
            ),
    {
        let remaining = match self.remaining(arena) {
            Ok(Some(remaining)) => remaining,
            Ok(None) => {
                return Ok(None);
            },
            Err(error) => {
                return Err(error);
            },
        };
        let days: u64 = remaining.days_remaining.ceil();
        let done_on = add_days(now, days as i64);
        match CardData::dated(remaining, done_on) {
            Ok(data) => Ok(Some(data)),
            Err(error) => Err(error),
        }
    }
}

/// A card of level 13 needs no cards and no requests, however many cards are
/// owned and whatever the arena is.
pub proof fn lemma_top_level_needs_nothing(card: CardEntry, arena: Arena, now: i64)
    requires
        card.level == 13,
    ensures
        card.rarity != Rarity::Legendary ==> spec_remaining(card, arena) == Ok::<
            Option<Remaining>,
            CalcError,
        >(
            Some(
                Remaining {
                    cards_remaining: 0,
                    requests_remaining: 0,
                    weeks_remaining: Twentieths { count: 0 },
                    days_remaining: Twentieths { count: 0 },
                },
            ),
        ),
        spec_calc_remaining(card, arena, now) matches Ok(Some(data)) ==> data.cards_remaining == 0
            && data.requests_remaining == 0,
{
    if card.rarity != Rarity::Legendary {
        lemma_weeks_exact(0, card.rarity);
    }
}

/// A legendary card has no computed values, and its calculation never fails,
/// whatever else the card holds.
pub proof fn lemma_legendary_has_no_values(card: CardEntry, arena: Arena, now: i64)
    ensures
        card.rarity == Rarity::Legendary <==> spec_calc_remaining(card, arena, now) == Ok::<
            Option<CardData>,
            CalcError,
        >(None),
{
}

/// A calculation never ends in missing values.
pub proof fn lemma_calc_never_misses(card: CardEntry, arena: Arena, now: i64)
    ensures
        spec_calc_remaining(card, arena, now) != Err::<Option<CardData>, CalcError>(
            CalcError::MissingCalculatedValues,
        ),
{
}

impl CardEntry {
    /// The card with other computed values
    pub open spec fn spec_with_computed(self, computed: Option<CardData>) -> CardEntry {
        CardEntry {
            uuid: self.uuid,
            name: self.name,
            have: self.have,
            level: self.level,
            card_type: self.card_type,
            rarity: self.rarity,
            computed,
        }
    }

    /// A copy of the card with other computed values
    pub fn with_computed(&self, computed: Option<CardData>) -> (card: CardEntry)
        ensures
            card == self.spec_with_computed(computed),
    {
        let mut card = self.clone();
        card.computed = computed;
        card
    }
}

/// The error that the calculation for the card at an index ends in, if it
/// ends in one
pub open spec fn spec_compute_failure(
    cards: Seq<CardEntry>,
    arena: Arena,
    now: i64,
    index: int,
) -> Option<CalcError> {
    match spec_calc_remaining(cards[index], arena, now) {
        Err(error) => Some(error),
        Ok(_) => None,
    }
}

/// Whether calculating the computed values of the cards anew ends in the
/// error: it is the error of the first card whose calculation fails
pub open spec fn spec_compute_fails(
    cards: Seq<CardEntry>,
    arena: Arena,
    now: i64,
    error: CalcError,
) -> bool {
    exists|first: int|
        {
            &&& 0 <= first < cards.len()
            &&& #[trigger] spec_compute_failure(cards, arena, now, first) == Some(error)
            &&& forall|index: int|
                0 <= index < first ==> #[trigger] spec_compute_failure(cards, arena, now, index)
                    is None
        }
}

/// Whether the computed values of a card, where it has any, are new for the
/// moment `now`: the date of the last request lies as many whole days after
/// `now` as the remaining days, rounded up; the remaining days are no more
/// than 35000; and the card has not been worked off in order yet
pub open spec fn spec_new_values(computed: Option<CardData>, now: i64) -> bool {
    match computed {
        Some(data) => {
            &&& data.done_on == now + SECONDS_PER_DAY * data.days_remaining.spec_ceil()
            &&& data.days_remaining.count <= 700_000
            &&& data.days_in_order is None
            &&& data.done_in_order_on is None
        },
        None => true,
    }
}

/// Whether `after` holds the cards of `before`, each with its computed
/// values calculated anew
pub open spec fn spec_computed_all(
    before: Seq<CardEntry>,
    after: Seq<CardEntry>,
    arena: Arena,
    now: i64,
) -> bool {
    &&& after.len() == before.len()
    &&& forall|index: int|
        0 <= index < before.len() ==> {
            &&& spec_calc_remaining(before[index], arena, now) is Ok
            &&& #[trigger] after[index] == before[index].spec_with_computed(
                spec_calc_remaining(before[index], arena, now)->Ok_0,
            )
        }
}

impl CardEntry {
    /// Calculates the computed values of all cards anew, for the moment `now`
    /// and an arena (the highest one where none is given). Where the
    /// calculation fails for a card, the error of the first such card comes
    /// back and no card is changed. For a moment between 1970 and 2100 all
    /// dates are in the calendar.
    pub fn compute_all(list: &mut Vec<Self>, arena: Option<Arena>, now: i64) -> (done: Result<
        (),
        CalcError,
    >)
        ensures
            done is Ok ==> spec_computed_all(old(list)@, final(list)@, spec_arena(arena), now),
            done is Ok <==> forall|index: int|
                0 <= index < old(list)@.len() ==> #[trigger] spec_compute_failure(
                    old(list)@,
                    spec_arena(arena),
                    now,
                    index,
                ) is None,
            done matches Err(error) ==> final(list)@ == old(list)@ && spec_compute_fails(
                old(list)@,
                spec_arena(arena),
                now,
                error,
            ),
            done is Ok ==> forall|index: int|
                0 <= index < final(list)@.len() ==> if (#[trigger] final(list)@[index]).rarity
                    == Rarity::Legendary {
                    final(list)@[index].computed is None
                } else {
                    &&& final(list)@[index].computed matches Some(data)
                    &&& data.done_on == now + SECONDS_PER_DAY * data.days_remaining.spec_ceil()
                    &&& spec_new_values(Some(data), now)
                },
            0 <= now <= EVERYDAY_NOW && (forall|index: int|
                0 <= index < old(list)@.len() ==> spec_remaining(
                    #[trigger] old(list)@[index],
                    spec_arena(arena),
                ) is Ok) ==> done is Ok,
    {
        let mut computed: Vec<CardEntry> = Vec::new();
        let mut index: usize = 0;
        while index < list.len()
            invariant
                index <= list@.len(),
                list@ == old(list)@,
                computed@.len() == index,
                forall|k: int|
                    0 <= k < index ==> {
                        &&& spec_calc_remaining(list@[k], spec_arena(arena), now) is Ok
                        &&& #[trigger] computed@[k] == list@[k].spec_with_computed(
                            spec_calc_remaining(list@[k], spec_arena(arena), now)->Ok_0,
                        )
                    },
                forall|k: int|
                    0 <= k < index ==> #[trigger] spec_compute_failure(
                        list@,
                        spec_arena(arena),
                        now,
                        k,
                    ) is None,
                forall|k: int|
                    0 <= k < index ==> if (#[trigger] computed@[k]).rarity == Rarity::Legendary {
                        computed@[k].computed is None
                    } else {
                        computed@[k].computed is Some && spec_new_values(computed@[k].computed, now)
                    },
            decreases list@.len() - index,
        {
            match list[index].calc_remaining(arena, now) {
                Ok(data) => {
                    computed.push(list[index].with_computed(data));
                },
                Err(error) => {
                    assert(spec_compute_failure(list@, spec_arena(arena), now, index as int)
                        == Some(error));
                    return Err(error);
                },
            }
            assert(spec_compute_failure(list@, spec_arena(arena), now, index as int) is None);
            index += 1;
        }
        *list = computed;
        Ok(())
    }
}

/// The cards have one set of new computed values only.
pub proof fn lemma_computed_is_unique(
    before: Seq<CardEntry>,
    first: Seq<CardEntry>,
    second: Seq<CardEntry>,
    arena: Arena,
    now: i64,
)
    requires
        spec_computed_all(before, first, arena, now),
        spec_computed_all(before, second, arena, now),
    ensures
        first == second,
{
    assert(first =~= second);
}

/// Calculating the computed values anew ends in one error at most.
pub proof fn lemma_compute_fails_once(
    cards: Seq<CardEntry>,
    arena: Arena,
    now: i64,
    error: CalcError,
    other: CalcError,
)
    requires
        spec_compute_fails(cards, arena, now, error),
        spec_compute_fails(cards, arena, now, other),
    ensures
        error == other,
{
    let at = choose|at: int|
        {
            &&& 0 <= at < cards.len()
            &&& #[trigger] spec_compute_failure(cards, arena, now, at) == Some(error)
            &&& forall|index: int|
                0 <= index < at ==> #[trigger] spec_compute_failure(cards, arena, now, index)
                    is None
        };
    let there = choose|there: int|
        {
            &&& 0 <= there < cards.len()
            &&& #[trigger] spec_compute_failure(cards, arena, now, there) == Some(other)
            &&& forall|index: int|
                0 <= index < there ==> #[trigger] spec_compute_failure(cards, arena, now, index)
                    is None
        };
    if at < there {
        assert(spec_compute_failure(cards, arena, now, at) is None);
    } else if there < at {
        assert(spec_compute_failure(cards, arena, now, there) is None);
    }
}

/// Where the computed values of all cards were calculated, the calculation
/// did not end in an error.
pub proof fn lemma_computed_did_not_fail(
    before: Seq<CardEntry>,
    after: Seq<CardEntry>,
    arena: Arena,
    now: i64,
    error: CalcError,
)
    requires
        spec_computed_all(before, after, arena, now),
    ensures
        !spec_compute_fails(before, arena, now, error),
{
    if spec_compute_fails(before, arena, now, error) {
        let at = choose|at: int|
            {
                &&& 0 <= at < before.len()
                &&& #[trigger] spec_compute_failure(before, arena, now, at) == Some(error)
                &&& forall|index: int|
                    0 <= index < at ==> #[trigger] spec_compute_failure(before, arena, now, index)
                        is None
            };
        assert(after[at] == before[at].spec_with_computed(
            spec_calc_remaining(before[at], arena, now)->Ok_0,
        ));
    }
}

/// The gold that the first `end` cards need for their next levels together
pub open spec fn spec_gold_before(cards: Seq<CardEntry>, end: int) -> nat
    decreases end,
{
    if end <= 0 {
        0
    } else {
        spec_gold_before(cards, end - 1) + spec_needed_gold(
            cards[end - 1].rarity,
            cards[end - 1].level as nat,
        )
    }
}

/// The error that the sum of the gold ends in at the card at an index, if it
/// ends in one there: the level of the card is not one of 1 to 13, or the
/// sum up to and including the card does not fit
pub open spec fn spec_gold_failure(cards: Seq<CardEntry>, index: int) -> Option<CalcError> {
    if !(1 <= cards[index].level <= 13) {
        Some(CalcError::InvalidLevel)
    } else if spec_gold_before(cards, index + 1) > usize::MAX {
        Some(CalcError::TotalTooLarge)
    } else {
        None
    }
}

impl CardEntry {
    /// The gold that all cards need for their next levels together. Where
    /// the level of a card is not one of 1 to 13, or the sum does not fit,
    /// the error of the first such card comes back.
    pub fn total_gold(list: &Vec<Self>) -> (total: Result<usize, CalcError>)
        ensures
            total matches Ok(gold) ==> gold == spec_gold_before(list@, list@.len() as int),
            total is Ok <==> forall|index: int|
                0 <= index < list@.len() ==> #[trigger] spec_gold_failure(list@, index) is None,
            total matches Err(error) ==> exists|first: int|
                {
                    &&& 0 <= first < list@.len()
                    &&& #[trigger] spec_gold_failure(list@, first) == Some(error)
                    &&& forall|index: int|
                        0 <= index < first ==> #[trigger] spec_gold_failure(list@, index) is None
                },
    {
        let mut total: usize = 0;
        let mut index: usize = 0;
        while index < list.len()
            invariant
                index <= list@.len(),
                total == spec_gold_before(list@, index as int),
                forall|k: int| 0 <= k < index ==> #[trigger] spec_gold_failure(list@, k) is None,
            decreases list@.len() - index,
        {
            let gold = match list[index].get_needed_gold() {
                Ok(gold) => gold,
                Err(error) => {
                    assert(spec_gold_failure(list@, index as int) == Some(error));
                    return Err(error);
                },
            };
            total = match total.checked_add(gold) {
                Some(total) => total,
                None => {
                    assert(spec_gold_failure(list@, index as int) == Some(
                        CalcError::TotalTooLarge,
                    ));
                    return Err(CalcError::TotalTooLarge);
                },
            };
            assert(spec_gold_failure(list@, index as int) is None);
            index += 1;
        }
        Ok(total)
    }
}

} // verus!
