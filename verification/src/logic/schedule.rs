//! The schedule of the cards: worked off one after the other, in their order.

use super::calc::{
    lemma_calc_never_misses, lemma_compute_fails_once, lemma_computed_did_not_fail,
    lemma_computed_is_unique, spec_arena, spec_compute_failure, spec_compute_fails,
    spec_computed_all, spec_new_values, spec_remaining, CalcError, CardData, Twentieths,
};
use super::dates::{add_days, date_after, EVERYDAY_DAYS, EVERYDAY_NOW, SECONDS_PER_DAY};
use super::order::{
    lemma_computed_are_orderable, lemma_sorted_have_values, lemma_sorted_is_unique,
    lemma_sorted_keeps, spec_sorted_all,
};
use super::types::{Arena, CardEntry, Rarity};
use vstd::prelude::*;

verus! {

/// The days that a card adds to the running total: its remaining days, and
/// nothing for a legendary card or a card without computed values
pub open spec fn spec_days_counted(card: CardEntry) -> nat {
    if card.rarity == Rarity::Legendary {
        0
    } else {
        match card.computed {
            Some(data) => data.days_remaining.count as nat,
            None => 0,
        }
    }
}

/// The running total before the card at index `end`: the days of all cards
/// in front of it
pub open spec fn spec_total_before(cards: Seq<CardEntry>, end: int) -> nat
    decreases end,
{
    if end <= 0 {
        0
    } else {
        spec_total_before(cards, end - 1) + spec_days_counted(cards[end - 1])
    }
}

/// The days until the card at an index is done when the cards are worked
/// off one after the other: the running total up to and including it
pub open spec fn spec_days_in_order(cards: Seq<CardEntry>, index: int) -> nat {
    spec_total_before(cards, index + 1)
}

/// The days that each card adds to the running total, card by card
pub open spec fn spec_counted_days(cards: Seq<CardEntry>) -> Seq<nat> {
    Seq::new(cards.len(), |index: int| spec_days_counted(cards[index]))
}

/// The sum of the first `count` numbers of a sequence
pub open spec fn spec_prefix_sum(numbers: Seq<nat>, count: int) -> nat
    decreases count,
{
    if count <= 0 {
        0
    } else {
        spec_prefix_sum(numbers, count - 1) + numbers[count - 1]
    }
}

/// Whether computed values say that their card is done after `days`, in
/// twentieths, when the cards are worked off one after the other from the
/// moment `now` on: these are its days in order, and its date in order lies
/// as many whole days after `now` as they are, rounded up
pub open spec fn spec_in_order_values(computed: Option<CardData>, days: nat, now: i64) -> bool {
    &&& days <= u64::MAX
    &&& computed matches Some(data)
    &&& data.days_in_order == Some(Twentieths { count: days as u64 })
    &&& data.done_in_order_on matches Some(then)
    &&& then == now + SECONDS_PER_DAY * Twentieths { count: days as u64 }.spec_ceil()
}

/// The computed values with the days and the date in order put to them: an
/// error where there is no such date
pub open spec fn spec_in_order(data: CardData, days: Twentieths, done_on: Option<i64>) -> Result<
    CardData,
    CalcError,
> {
    match done_on {
        Some(done_on) => Ok(
            CardData {
                cards_remaining: data.cards_remaining,
                requests_remaining: data.requests_remaining,
                weeks_remaining: data.weeks_remaining,
                days_remaining: data.days_remaining,
                done_on: data.done_on,
                days_in_order: Some(days),
                done_in_order_on: Some(done_on),
            },
        ),
        None => Err(CalcError::DateOutOfRange),
    }
}

/// The error that the running total ends in at the card at an index, if it
/// ends in one there: a card that can be requested has no computed values,
/// the total does not fit, or its date is not in the calendar
pub open spec fn spec_sum_failure(cards: Seq<CardEntry>, now: i64, index: int) -> Option<
    CalcError,
> {
    let days = spec_days_in_order(cards, index);
    if cards[index].rarity == Rarity::Legendary {
        None
    } else if cards[index].computed is None {
        Some(CalcError::MissingCalculatedValues)
    } else if days > u64::MAX {
        Some(CalcError::TotalTooLarge)
    } else if date_after(now, Twentieths { count: days as u64 }.spec_ceil() as i64) is None {
        Some(CalcError::DateOutOfRange)
    } else {
        None
    }
}

/// Whether working the cards off one after the other ends in the error: it
/// is the error of the first card at which the running total fails
pub open spec fn spec_sum_fails(cards: Seq<CardEntry>, now: i64, error: CalcError) -> bool {
    exists|first: int|
        {
            &&& 0 <= first < cards.len()
            &&& #[trigger] spec_sum_failure(cards, now, first) == Some(error)
            &&& forall|index: int|
                0 <= index < first ==> #[trigger] spec_sum_failure(cards, now, index) is None
        }
}

/// The card at an index with its days and date in order, where the running
/// total does not fail there
pub open spec fn spec_summed(cards: Seq<CardEntry>, now: i64, index: int) -> CardEntry {
    let days = Twentieths { count: spec_days_in_order(cards, index) as u64 };
    if cards[index].rarity == Rarity::Legendary {
        cards[index]
    } else {
        cards[index].spec_with_computed(
            Some(
                spec_in_order(
                    cards[index].computed->Some_0,
                    days,
                    date_after(now, days.spec_ceil() as i64),
                )->Ok_0,
            ),
        )
    }
}

/// Whether `after` holds the cards of `before`, each card that can be
/// requested with its days and date in order
pub open spec fn spec_summed_all(before: Seq<CardEntry>, after: Seq<CardEntry>, now: i64) -> bool {
    &&& after.len() == before.len()
    &&& forall|index: int|
        0 <= index < before.len() ==> {
            &&& spec_sum_failure(before, now, index) is None
            &&& #[trigger] after[index] == spec_summed(before, now, index)
        }
}

impl CardData {
    /// Puts the days and the date in order to the computed values. Where
    /// there is no such date, the calculation fails.
    pub fn in_order(self, days: Twentieths, done_on: Option<i64>) -> (data: Result<
        CardData,
        CalcError,
    >)
        ensures
            data == spec_in_order(self, days, done_on),
    {
        match done_on {
            Some(done_on) => Ok(
                CardData {
                    cards_remaining: self.cards_remaining,
                    requests_remaining: self.requests_remaining,
                    weeks_remaining: self.weeks_remaining,
                    days_remaining: self.days_remaining,
                    done_on: self.done_on,
                    days_in_order: Some(days),
                    done_in_order_on: Some(done_on),
                },
            ),
            None => Err(CalcError::DateOutOfRange),
        }
    }
}

impl CardEntry {
    /// Works the cards off one after the other, as they stand: each card
    /// that can be requested gets the sum of the remaining days of all such
    /// cards up to and including it as its days in order, and the date that
    /// lies as many whole days after `now` as these days rounded up.
    /// Legendary cards are passed over. Where a card that can be requested
    /// has no computed values, a sum does not fit into 64 bits or a date is
    /// not in the calendar, the error of the first such card comes back and
    /// no card is changed. Neither happens for a moment between 1970 and
    /// 2100 and cards that take no more than ten million days together.
    pub fn sum_all(list: &mut Vec<Self>, now: i64) -> (done: Result<(), CalcError>)
        ensures
            done is Ok ==> spec_summed_all(old(list)@, final(list)@, now),
            done is Ok <==> forall|index: int|
                0 <= index < old(list)@.len() ==> #[trigger] spec_sum_failure(
                    old(list)@,
                    now,
                    index,
                ) is None,
            done matches Err(error) ==> final(list)@ == old(list)@ && spec_sum_fails(
                old(list)@,
                now,
                error,
            ),
            done is Ok ==> forall|index: int|
                0 <= index < old(list)@.len() ==> if old(list)@[index].rarity
                    == Rarity::Legendary {
                    (#[trigger] final(list)@[index]) == old(list)@[index]
                } else {
                    &&& old(list)@[index].computed matches Some(given)
                    &&& final(list)@[index] == old(list)@[index].spec_with_computed(
                        final(list)@[index].computed,
                    )
                    &&& final(list)@[index].computed matches Some(data)
                    &&& data.days_remaining == given.days_remaining
                    &&& data.done_on == given.done_on
                    &&& data.days_in_order matches Some(days)
                    &&& days.count == spec_prefix_sum(spec_counted_days(old(list)@), index + 1)
                    &&& data.done_in_order_on matches Some(then)
                    &&& then == now + SECONDS_PER_DAY * days.spec_ceil()
                },
            0 <= now <= EVERYDAY_NOW && spec_total_before(old(list)@, old(list)@.len() as int) <= 20
                * EVERYDAY_DAYS && (forall|index: int|
                0 <= index < old(list)@.len() ==> (#[trigger] old(list)@[index]).rarity
                    == Rarity::Legendary || old(list)@[index].computed is Some) ==> done is Ok,
    {
        let mut prev_time: u64 = 0;
        let mut summed: Vec<CardEntry> = Vec::new();
        let mut index: usize = 0;
        while index < list.len()
            invariant
                index <= list@.len(),
                list@ == old(list)@,
                summed@.len() == index,
                prev_time == spec_total_before(list@, index as int),
                forall|k: int|
                    0 <= k < index ==> {
                        &&& #[trigger] spec_sum_failure(list@, now, k) is None
                    },
                forall|k: int|
                    0 <= k < index ==> {
                        &&& #[trigger] summed@[k] == spec_summed(list@, now, k)
                    },
                forall|k: int|
                    0 <= k < index && list@[k].rarity != Rarity::Legendary ==> spec_in_order_values(
                        (#[trigger] summed@[k]).computed,
                        spec_days_in_order(list@, k),
                        now,
                    ),
            decreases list@.len() - index,
        {
            let card = &list[index];
            if card.rarity == Rarity::Legendary {
                summed.push(card.clone());
            } else {
                let data = match card.computed {
                    Some(data) => data,
                    None => {
                        assert(spec_sum_failure(list@, now, index as int) == Some(
                            CalcError::MissingCalculatedValues,
                        ));
                        return Err(CalcError::MissingCalculatedValues);
                    },
                };
                proof {
                    lemma_total_grows(list@, index + 1, list@.len() as int);
                }
                let current_time = match prev_time.checked_add(data.days_remaining.count) {
                    Some(current_time) => current_time,
                    None => {
                        assert(spec_sum_failure(list@, now, index as int) == Some(
                            CalcError::TotalTooLarge,
                        ));
                        return Err(CalcError::TotalTooLarge);
                    },
                };
                let days = Twentieths { count: current_time };
                let whole: u64 = days.ceil();
                let done_on = add_days(now, whole as i64);
                match data.in_order(days, done_on) {
                    Ok(data) => {
                        summed.push(card.with_computed(Some(data)));
                    },
                    Err(error) => {
                        assert(spec_sum_failure(list@, now, index as int) == Some(error));
                        return Err(error);
                    },
                }
                prev_time = current_time;
            }
            assert(spec_sum_failure(list@, now, index as int) is None);
            index += 1;
        }
        proof {
            assert forall|k: int| 0 <= k < list@.len() implies spec_days_in_order(list@, k)
                == spec_prefix_sum(spec_counted_days(list@), k + 1) by {
                lemma_total_is_prefix_sum(list@, spec_counted_days(list@), k + 1);
            }
            assert forall|k: int| 0 <= k < list@.len() implies #[trigger] summed@[k]
                == spec_summed(list@, now, k) && spec_sum_failure(list@, now, k) is None by {}
        }
        *list = summed;
        Ok(())
    }
}

/// The running total never shrinks along the cards: the days in order of a
/// card are not less than those of a card in front of it, and the last
/// running total is the total of all cards.
pub proof fn lemma_total_grows(cards: Seq<CardEntry>, fewer: int, more: int)
    requires
        fewer <= more,
    ensures
        spec_total_before(cards, fewer) <= spec_total_before(cards, more),
    decreases more - fewer,
{
    if fewer < more {
        lemma_total_grows(cards, fewer, more - 1);
    }
}

/// A copy of the cards
fn copy_of(list: &Vec<CardEntry>) -> (copy: Vec<CardEntry>)
    ensures
        copy@ == list@,
{
    let mut copy: Vec<CardEntry> = Vec::new();
    let mut index: usize = 0;
    while index < list.len()
        invariant
            index <= list@.len(),
            copy@.len() == index,
            forall|k: int| 0 <= k < index ==> #[trigger] copy@[k] == list@[k],
        decreases list@.len() - index,
    {
        copy.push(list[index].clone());
        index += 1;
    }
    copy
}

/// Whether `after` is the schedule of `before`: the cards with their
/// computed values calculated anew, then ordered, then worked off one after
/// the other
pub open spec fn spec_scheduled(
    before: Seq<CardEntry>,
    after: Seq<CardEntry>,
    arena: Arena,
    now: i64,
) -> bool {
    exists|computed: Seq<CardEntry>, sorted: Seq<CardEntry>|
        {
            &&& spec_computed_all(before, computed, arena, now)
            &&& #[trigger] spec_sorted_all(computed, sorted, arena)
            &&& spec_summed_all(sorted, after, now)
        }
}

/// Whether bringing the cards up to date ends in the error: the calculation
/// of the computed values ends in it, or the running total over the ordered
/// cards does
pub open spec fn spec_schedule_fails(
    before: Seq<CardEntry>,
    arena: Arena,
    now: i64,
    error: CalcError,
) -> bool {
    ||| spec_compute_fails(before, arena, now, error)
    ||| exists|computed: Seq<CardEntry>, sorted: Seq<CardEntry>|
        {
            &&& spec_computed_all(before, computed, arena, now)
            &&& #[trigger] spec_sorted_all(computed, sorted, arena)
            &&& spec_sum_fails(sorted, now, error)
        }
}

/// The most cards that a schedule surely has room for: so many cards take
/// no more than ten million days, whatever they need
pub const EVERYDAY_CARDS: usize = 285;

/// Whether a card has its new computed values where it can be requested,
/// and none where it is legendary
pub open spec fn spec_newly_computed(card: CardEntry, now: i64) -> bool {
    if card.rarity == Rarity::Legendary {
        card.computed is None
    } else {
        card.computed is Some && spec_new_values(card.computed, now)
    }
}

/// The running total of cards that each count no more than `most` days is
/// no more than `most` days for each card.
pub proof fn lemma_total_is_bounded(cards: Seq<CardEntry>, most: nat, count: int)
    requires
        0 <= count <= cards.len(),
        forall|index: int| 0 <= index < cards.len() ==> spec_days_counted(#[trigger] cards[index])
            <= most,
    ensures
        spec_total_before(cards, count) <= most * count,
    decreases count,
{
    if count > 0 {
        lemma_total_is_bounded(cards, most, count - 1);
        assert(most * (count - 1) + most == most * count) by (nonlinear_arith);
    }
}

impl CardEntry {
    /// Brings the cards up to date after a change, for the moment `now` and
    /// an arena (the highest one where none is given): calculates the
    /// computed values of all cards anew, orders the cards and works them
    /// off one after the other. Where any step fails, its error comes back
    /// and no card is changed. No step fails for a moment between 1970 and
    /// 2100 and up to 285 cards, where the calculation for each card has a
    /// result.
    pub fn schedule_all(list: &mut Vec<Self>, arena: Option<Arena>, now: i64) -> (done: Result<
        (),
        CalcError,
    >)
        ensures
            done is Ok ==> spec_scheduled(old(list)@, final(list)@, spec_arena(arena), now),
            done matches Err(error) ==> final(list)@ == old(list)@ && spec_schedule_fails(
                old(list)@,
                spec_arena(arena),
                now,
                error,
            ),
            done matches Err(error) ==> error != CalcError::MissingCalculatedValues,
            done is Ok ==> forall|index: int|
                0 <= index < final(list)@.len() ==> if (#[trigger] final(list)@[index]).rarity
                    == Rarity::Legendary {
                    final(list)@[index].computed is None
                } else {
                    &&& final(list)@[index].computed matches Some(data)
                    &&& data.done_on == now + SECONDS_PER_DAY * data.days_remaining.spec_ceil()
                    &&& data.days_in_order matches Some(days)
                    &&& data.done_in_order_on matches Some(then)
                    &&& then == now + SECONDS_PER_DAY * days.spec_ceil()
                },
            0 <= now <= EVERYDAY_NOW && old(list)@.len() <= EVERYDAY_CARDS && (forall|index: int|
                0 <= index < old(list)@.len() ==> spec_remaining(
                    #[trigger] old(list)@[index],
                    spec_arena(arena),
                ) is Ok) ==> done is Ok,
    {
        let mut cards = copy_of(list);
        let ghost before = list@;
        match CardEntry::compute_all(&mut cards, arena, now) {
            Ok(()) => {},
            Err(error) => {
                proof {
                    let first = choose|first: int|
                        0 <= first < before.len() && #[trigger] spec_compute_failure(
                            before,
                            spec_arena(arena),
                            now,
                            first,
                        ) == Some(error);
                    lemma_calc_never_misses(before[first], spec_arena(arena), now);
                }
                return Err(error);
            },
        }
        let ghost computed = cards@;
        proof {
            lemma_computed_are_orderable(before, computed, spec_arena(arena), now);
        }
        match CardEntry::sort_all(&mut cards, arena) {
            Ok(()) => {},
            Err(error) => {
                return Err(error);
            },
        }
        let ghost sorted = cards@;
        proof {
            lemma_sorted_keeps(
                computed,
                sorted,
                spec_arena(arena),
                |card: CardEntry| spec_newly_computed(card, now),
            );
            assert forall|index: int| 0 <= index < sorted.len() implies spec_days_counted(
                #[trigger] sorted[index],
            ) <= 700_000 by {
                assert(spec_newly_computed(sorted[index], now));
            }
            lemma_total_is_bounded(sorted, 700_000, sorted.len() as int);
            if sorted.len() <= 285 {
                assert(700_000 * sorted.len() <= 700_000 * 285) by (nonlinear_arith)
                    requires
                        sorted.len() <= 285,
                ;
            }
        }
        match CardEntry::sum_all(&mut cards, now) {
            Ok(()) => {},
            Err(error) => {
                proof {
                    lemma_sorted_have_values(computed, sorted, spec_arena(arena));
                    assert(spec_sorted_all(computed, sorted, spec_arena(arena)));
                }
                return Err(error);
            },
        }
        assert(spec_summed_all(sorted, cards@, now));
        proof {
            assert forall|index: int| 0 <= index < cards@.len() implies if (
            #[trigger] cards@[index]).rarity == Rarity::Legendary {
                cards@[index].computed is None
            } else {
                &&& cards@[index].computed matches Some(data)
                &&& data.done_on == now + SECONDS_PER_DAY * data.days_remaining.spec_ceil()
                &&& data.days_in_order matches Some(days)
                &&& data.done_in_order_on matches Some(then)
                &&& then == now + SECONDS_PER_DAY * days.spec_ceil()
            } by {
                assert(spec_newly_computed(sorted[index], now));
            }
        }
        *list = cards;
        Ok(())
    }
}

/// For cards that can all be requested and have the remaining days `days`,
/// the days in order are the running sums of `days`: the first, the first
/// two, and so on. Working such cards off misses no values: it fails only
/// where a sum does not fit into 64 bits or a date is outside of the
/// calendar, and else gives each card its running sum.
pub proof fn lemma_days_in_order_are_prefix_sums(
    before: Seq<CardEntry>,
    now: i64,
    days: Seq<nat>,
    index: int,
)
    requires
        days.len() == before.len(),
        forall|k: int|
            0 <= k < before.len() ==> {
                &&& (#[trigger] before[k]).rarity != Rarity::Legendary
                &&& before[k].computed is Some
                &&& before[k].computed->Some_0.days_remaining.count == days[k]
            },
        0 <= index < before.len(),
    ensures
        spec_days_in_order(before, index) == spec_prefix_sum(days, index + 1),
        index > 0 ==> spec_days_in_order(before, index) == spec_days_in_order(before, index - 1)
            + days[index],
        spec_sum_failure(before, now, index) != Some(CalcError::MissingCalculatedValues),
        spec_sum_failure(before, now, index) is None ==> {
            &&& spec_prefix_sum(days, index + 1) <= u64::MAX
            &&& spec_summed(before, now, index).computed matches Some(data)
            &&& data.days_in_order == Some(
                Twentieths { count: spec_prefix_sum(days, index + 1) as u64 },
            )
        },
        forall|after: Seq<CardEntry>| #[trigger]
            spec_summed_all(before, after, now) ==> {
                &&& after[index].computed matches Some(data)
                &&& data.days_in_order == Some(
                    Twentieths { count: spec_prefix_sum(days, index + 1) as u64 },
                )
            },
{
    lemma_total_is_prefix_sum(before, days, index + 1);
    assert forall|after: Seq<CardEntry>| #[trigger]
        spec_summed_all(before, after, now) implies {
        &&& after[index].computed matches Some(data)
        &&& data.days_in_order == Some(
            Twentieths { count: spec_prefix_sum(days, index + 1) as u64 },
        )
    } by {
        assert(spec_sum_failure(before, now, index) is None);
        assert(after[index] == spec_summed(before, now, index));
    }
}

/// The running total of cards that can all be requested is the sum of their
/// remaining days.
pub proof fn lemma_total_is_prefix_sum(cards: Seq<CardEntry>, days: Seq<nat>, count: int)
    requires
        days.len() == cards.len(),
        forall|k: int|
            0 <= k < cards.len() ==> spec_days_counted(#[trigger] cards[k]) == days[k],
        0 <= count <= cards.len(),
    ensures
        spec_total_before(cards, count) == spec_prefix_sum(days, count),
    decreases count,
{
    if count > 0 {
        lemma_total_is_prefix_sum(cards, days, count - 1);
    }
}

/// Working the cards off one after the other ends in one error at most.
pub proof fn lemma_sum_fails_once(cards: Seq<CardEntry>, now: i64, error: CalcError, other: CalcError)
    requires
        spec_sum_fails(cards, now, error),
        spec_sum_fails(cards, now, other),
    ensures
        error == other,
{
    let at = choose|at: int|
        {
            &&& 0 <= at < cards.len()
            &&& #[trigger] spec_sum_failure(cards, now, at) == Some(error)
            &&& forall|index: int|
                0 <= index < at ==> #[trigger] spec_sum_failure(cards, now, index) is None
        };
    let there = choose|there: int|
        {
            &&& 0 <= there < cards.len()
            &&& #[trigger] spec_sum_failure(cards, now, there) == Some(other)
            &&& forall|index: int|
                0 <= index < there ==> #[trigger] spec_sum_failure(cards, now, index) is None
        };
    if at < there {
        assert(spec_sum_failure(cards, now, at) is None);
    } else if there < at {
        assert(spec_sum_failure(cards, now, there) is None);
    }
}

/// Where all cards were worked off, the running total did not end in an
/// error.
pub proof fn lemma_summed_did_not_fail(
    before: Seq<CardEntry>,
    after: Seq<CardEntry>,
    now: i64,
    error: CalcError,
)
    requires
        spec_summed_all(before, after, now),
    ensures
        !spec_sum_fails(before, now, error),
{
    if spec_sum_fails(before, now, error) {
        let at = choose|at: int|
            {
                &&& 0 <= at < before.len()
                &&& #[trigger] spec_sum_failure(before, now, at) == Some(error)
                &&& forall|index: int|
                    0 <= index < at ==> #[trigger] spec_sum_failure(before, now, index) is None
            };
        assert(after[at] == spec_summed(before, now, at));
    }
}

/// Bringing cards up to date gives one schedule at most.
pub proof fn lemma_schedule_is_unique(
    before: Seq<CardEntry>,
    arena: Arena,
    now: i64,
    first: Seq<CardEntry>,
    second: Seq<CardEntry>,
)
    requires
        spec_scheduled(before, first, arena, now),
        spec_scheduled(before, second, arena, now),
    ensures
        first == second,
{
    let (computed, sorted) = choose|computed: Seq<CardEntry>, sorted: Seq<CardEntry>|
        {
            &&& spec_computed_all(before, computed, arena, now)
            &&& #[trigger] spec_sorted_all(computed, sorted, arena)
            &&& spec_summed_all(sorted, first, now)
        };
    let (again, resorted) = choose|again: Seq<CardEntry>, resorted: Seq<CardEntry>|
        {
            &&& spec_computed_all(before, again, arena, now)
            &&& #[trigger] spec_sorted_all(again, resorted, arena)
            &&& spec_summed_all(resorted, second, now)
        };
    lemma_computed_is_unique(before, computed, again, arena, now);
    lemma_sorted_is_unique(computed, sorted, resorted, arena);
    assert(first =~= second);
}

/// Bringing cards up to date ends in one error at most.
pub proof fn lemma_schedule_fails_once(
    before: Seq<CardEntry>,
    arena: Arena,
    now: i64,
    error: CalcError,
    other: CalcError,
)
    requires
        spec_schedule_fails(before, arena, now, error),
        spec_schedule_fails(before, arena, now, other),
    ensures
        error == other,
{
    if spec_compute_fails(before, arena, now, error) {
        if spec_compute_fails(before, arena, now, other) {
            lemma_compute_fails_once(before, arena, now, error, other);
        } else {
            let (computed, sorted) = choose|computed: Seq<CardEntry>, sorted: Seq<CardEntry>|
                {
                    &&& spec_computed_all(before, computed, arena, now)
                    &&& #[trigger] spec_sorted_all(computed, sorted, arena)
                    &&& spec_sum_fails(sorted, now, other)
                };
            lemma_computed_did_not_fail(before, computed, arena, now, error);
        }
    } else {
        let (computed, sorted) = choose|computed: Seq<CardEntry>, sorted: Seq<CardEntry>|
            {
                &&& spec_computed_all(before, computed, arena, now)
                &&& #[trigger] spec_sorted_all(computed, sorted, arena)
                &&& spec_sum_fails(sorted, now, error)
            };
        if spec_compute_fails(before, arena, now, other) {
            lemma_computed_did_not_fail(before, computed, arena, now, other);
        } else {
            let (again, resorted) = choose|again: Seq<CardEntry>, resorted: Seq<CardEntry>|
                {
                    &&& spec_computed_all(before, again, arena, now)
                    &&& #[trigger] spec_sorted_all(again, resorted, arena)
                    &&& spec_sum_fails(resorted, now, other)
                };
            lemma_computed_is_unique(before, computed, again, arena, now);
            lemma_sorted_is_unique(computed, sorted, resorted, arena);
            lemma_sum_fails_once(sorted, now, error, other);
        }
    }
}

/// Bringing cards up to date does not both give a schedule and end in an
/// error.
pub proof fn lemma_schedule_is_decided(
    before: Seq<CardEntry>,
    arena: Arena,
    now: i64,
    after: Seq<CardEntry>,
    error: CalcError,
)
    requires
        spec_scheduled(before, after, arena, now),
    ensures
        !spec_schedule_fails(before, arena, now, error),
{
    let (computed, sorted) = choose|computed: Seq<CardEntry>, sorted: Seq<CardEntry>|
        {
            &&& spec_computed_all(before, computed, arena, now)
            &&& #[trigger] spec_sorted_all(computed, sorted, arena)
            &&& spec_summed_all(sorted, after, now)
        };
    lemma_computed_did_not_fail(before, computed, arena, now, error);
    if spec_schedule_fails(before, arena, now, error) {
        let (again, resorted) = choose|again: Seq<CardEntry>, resorted: Seq<CardEntry>|
            {
                &&& spec_computed_all(before, again, arena, now)
                &&& #[trigger] spec_sorted_all(again, resorted, arena)
                &&& spec_sum_fails(resorted, now, error)
            };
        lemma_computed_is_unique(before, computed, again, arena, now);
        lemma_sorted_is_unique(computed, sorted, resorted, arena);
        lemma_summed_did_not_fail(sorted, after, now, error);
    }
}

} // verus!
