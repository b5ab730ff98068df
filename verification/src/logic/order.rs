//! The order of the cards: by their remaining days, legendary cards last.

use super::calc::{
    spec_arena, spec_calc_remaining, spec_computed_all, spec_remaining, CalcError,
};
use super::types::{Arena, CardEntry, Rarity};
use std::cmp::Ordering;
use vstd::prelude::*;

verus! {

/// What a card is ordered by: legendary cards come last, the others go by
/// their remaining days
#[derive(Clone, Copy, Debug, PartialEq, Eq, Structural)]
pub struct Rank {
    pub legendary: bool,
    pub days: u64,
}

/// The remaining days that order a card: those of its computed values, or,
/// where it has none, those of a calculation for the arena; none where that
/// gives no days
pub open spec fn spec_days_for_order(card: CardEntry, arena: Arena) -> Option<u64> {
    match card.computed {
        Some(data) => Some(data.days_remaining.count),
        None => match spec_remaining(card, arena) {
            Ok(Some(remaining)) => Some(remaining.days_remaining.count),
            _ => None,
        },
    }
}

/// Whether a card can be ordered: it is legendary, or its remaining days can
/// be had
pub open spec fn spec_orderable(card: CardEntry, arena: Arena) -> bool {
    card.rarity == Rarity::Legendary || spec_days_for_order(card, arena) is Some
}

/// What a card is ordered by
pub open spec fn spec_rank(card: CardEntry, arena: Arena) -> Rank {
    if card.rarity == Rarity::Legendary {
        Rank { legendary: true, days: 0 }
    } else {
        Rank {
            legendary: false,
            days: match spec_days_for_order(card, arena) {
                Some(days) => days,
                None => 0,
            },
        }
    }
}

/// Whether the first rank is strictly below the second: a card that can be
/// requested is below a legendary one, and fewer days are below more
pub open spec fn spec_rank_below(first: Rank, second: Rank) -> bool {
    (!first.legendary && second.legendary) || (first.legendary == second.legendary && first.days
        < second.days)
}

/// Whether the card at index `first` has its place before the card at index
/// `second` once the cards are ordered: its rank is below, or the ranks are
/// equal and it came first
pub open spec fn spec_comes_before(
    cards: Seq<CardEntry>,
    arena: Arena,
    first: int,
    second: int,
) -> bool {
    spec_rank_below(spec_rank(cards[first], arena), spec_rank(cards[second], arena)) || (spec_rank(
        cards[first],
        arena,
    ) == spec_rank(cards[second], arena) && first < second)
}

/// Whether `order` lists the indices of `before` in their order, and `after`
/// holds the cards in that order
pub open spec fn spec_is_stable_order(
    before: Seq<CardEntry>,
    after: Seq<CardEntry>,
    arena: Arena,
    order: Seq<int>,
) -> bool {
    &&& order.len() == before.len()
    &&& after.len() == before.len()
    &&& forall|place: int|
        0 <= place < order.len() ==> {
            &&& 0 <= #[trigger] order[place] < before.len()
            &&& after[place] == before[order[place]]
        }
    &&& forall|earlier: int, later: int|
        0 <= earlier < later < order.len() ==> spec_comes_before(
            before,
            arena,
            #[trigger] order[earlier],
            #[trigger] order[later],
        )
}

/// Whether `after` holds the cards of `before` in their order: every card
/// once, by rank, and cards of equal rank as they stood
pub open spec fn spec_sorted_all(before: Seq<CardEntry>, after: Seq<CardEntry>, arena: Arena) -> bool {
    exists|order: Seq<int>| spec_is_stable_order(before, after, arena, order)
}

/// How two cards compare. Legendary cards are equal among themselves and
/// greater than all others, whose remaining days decide; where those are
/// needed and cannot be had, the comparison fails.
pub open spec fn ordering_of(first: CardEntry, second: CardEntry, arena: Arena) -> Result<
    Ordering,
    CalcError,
> {
    if first.rarity == Rarity::Legendary {
        if second.rarity == Rarity::Legendary {
            Ok(Ordering::Equal)
        } else {
            Ok(Ordering::Greater)
        }
    } else if second.rarity == Rarity::Legendary {
        Ok(Ordering::Less)
    } else {
        match (spec_days_for_order(first, arena), spec_days_for_order(second, arena)) {
            (Some(first_days), Some(second_days)) => if first_days < second_days {
                Ok(Ordering::Less)
            } else if first_days == second_days {
                Ok(Ordering::Equal)
            } else {
                Ok(Ordering::Greater)
            },
            _ => Err(CalcError::MissingCalculatedValues),
        }
    }
}

impl CardEntry {
    /// The remaining days that order the card: those of its computed values,
    /// or, where it has none, those of a calculation for the arena
    pub fn days_for_order(&self, arena: Option<Arena>) -> (days: Option<u64>)
        ensures
            days == spec_days_for_order(*self, spec_arena(arena)),
    {
        match self.computed {
            Some(data) => Some(data.days_remaining.count),
            None => match self.remaining(arena) {
                Ok(Some(remaining)) => Some(remaining.days_remaining.count),
                _ => None,
            },
        }
    }

    /// Custom order algorithm for sorting CardEntries by days
    pub fn sort_remaining(first: &Self, second: &Self, arena: Option<Arena>) -> (ordering: Result<
        Ordering,
        CalcError,
    >)
        ensures
            ordering == ordering_of(*first, *second, spec_arena(arena)),
    {
        // Handle legendary cards
        if first.rarity == Rarity::Legendary {
            if second.rarity == Rarity::Legendary {
                return Ok(Ordering::Equal);
            } else {
                return Ok(Ordering::Greater);
            }
        }
        if second.rarity == Rarity::Legendary {
            return Ok(Ordering::Less);
        }
        // Compare the cards

        match (first.days_for_order(arena), second.days_for_order(arena)) {
            (Some(first_days), Some(second_days)) => if first_days < second_days {
                Ok(Ordering::Less)
            } else if first_days == second_days {
                Ok(Ordering::Equal)
            } else {
                Ok(Ordering::Greater)
            },
            _ => Err(CalcError::MissingCalculatedValues),
        }
    }

    /// What the card is ordered by, where it can be ordered
    pub fn rank(&self, arena: Option<Arena>) -> (rank: Result<Rank, CalcError>)
        ensures
            spec_orderable(*self, spec_arena(arena)) ==> rank == Ok::<Rank, CalcError>(
                spec_rank(*self, spec_arena(arena)),
            ),
            !spec_orderable(*self, spec_arena(arena)) ==> rank == Err::<Rank, CalcError>(
                CalcError::MissingCalculatedValues,
            ),
    {
        if self.rarity == Rarity::Legendary {
            return Ok(Rank { legendary: true, days: 0 });
        }
        match self.days_for_order(arena) {
            Some(days) => Ok(Rank { legendary: false, days }),
            None => Err(CalcError::MissingCalculatedValues),
        }
    }
}

/// Whether the first rank is strictly below the second
fn rank_below(first: Rank, second: Rank) -> (below: bool)
    ensures
        below == spec_rank_below(first, second),
{
    (!first.legendary && second.legendary) || (first.legendary == second.legendary && first.days
        < second.days)
}

impl CardEntry {
    /// Orders the cards: those that can be requested by their remaining days,
    /// the fewest first, then the legendary ones; cards that compare equal
    /// stay as they stood. Where the remaining days of a card that can be
    /// requested cannot be had, no card is moved.
    pub fn sort_all(list: &mut Vec<Self>, arena: Option<Arena>) -> (done: Result<(), CalcError>)
        ensures
            done is Ok <==> forall|index: int|
                0 <= index < old(list)@.len() ==> spec_orderable(
                    #[trigger] old(list)@[index],
                    spec_arena(arena),
                ),
            done is Ok ==> spec_sorted_all(old(list)@, final(list)@, spec_arena(arena)),
            done is Ok ==> forall|legendary: int, other: int|
                0 <= legendary < final(list)@.len() && 0 <= other < final(list)@.len() && (
                #[trigger] final(list)@[legendary]).rarity == Rarity::Legendary && (
                #[trigger] final(list)@[other]).rarity != Rarity::Legendary ==> other < legendary,
            done is Err ==> done == Err::<(), CalcError>(CalcError::MissingCalculatedValues)
                && final(list)@ == old(list)@,
    {
        let ghost before = list@;
        let ghost tier = spec_arena(arena);
        let count = list.len();

        // What each card is ordered by
        let mut ranks: Vec<Rank> = Vec::new();
        let mut index: usize = 0;
        while index < count
            invariant
                count == list@.len(),
                list@ == before,
                tier == spec_arena(arena),
                index <= count,
                ranks@.len() == index,
                forall|k: int|
                    0 <= k < index ==> spec_orderable(#[trigger] before[k], tier) && ranks@[k]
                        == spec_rank(before[k], tier),
            decreases count - index,
        {
            match list[index].rank(arena) {
                Ok(rank) => {
                    ranks.push(rank);
                },
                Err(error) => {
                    assert(!spec_orderable(before[index as int], tier));
                    return Err(error);
                },
            }
            index += 1;
        }

        // The indices of the cards, in the order of the cards
        let mut order: Vec<usize> = Vec::new();
        let mut next: usize = 0;
        while next < count
            invariant
                count == before.len(),
                ranks@.len() == count,
                forall|k: int| 0 <= k < count ==> #[trigger] ranks@[k] == spec_rank(before[k], tier),
                next <= count,
                order@.len() == next,
                forall|place: int| 0 <= place < next ==> #[trigger] order@[place] < next,
                forall|earlier: int, later: int|
                    0 <= earlier < later < next ==> spec_comes_before(
                        before,
                        tier,
                        #[trigger] order@[earlier] as int,
                        #[trigger] order@[later] as int,
                    ),
            decreases count - next,
        {
            let rank = ranks[next];
            let mut place: usize = next;
            while place > 0 && rank_below(rank, ranks[order[place - 1]])
                invariant
                    count == before.len(),
                    ranks@.len() == count,
                    forall|k: int|
                        0 <= k < count ==> #[trigger] ranks@[k] == spec_rank(before[k], tier),
                    next < count,
                    rank == ranks@[next as int],
                    order@.len() == next,
                    place <= next,
                    forall|k: int| 0 <= k < next ==> #[trigger] order@[k] < next,
                    forall|k: int|
                        place <= k < next ==> spec_rank_below(
                            rank,
                            spec_rank(before[#[trigger] order@[k] as int], tier),
                        ),
                decreases place,
            {
                place -= 1;
            }
            let ghost shorter = order@;
            order.insert(place, next);
            proof {
                assert forall|earlier: int, later: int| 0 <= earlier < later < next + 1 implies
                    spec_comes_before(
                        before,
                        tier,
                        #[trigger] order@[earlier] as int,
                        #[trigger] order@[later] as int,
                    ) by {
                    if later < place {
                        assert(order@[earlier] == shorter[earlier]);
                        assert(order@[later] == shorter[later]);
                    } else if later == place {
                        // the cards before the place are not above the new one
                        assert(order@[earlier] == shorter[earlier]);
                        assert(!spec_rank_below(
                            rank,
                            spec_rank(before[shorter[place - 1] as int], tier),
                        ));
                        if earlier < place - 1 {
                            assert(spec_comes_before(
                                before,
                                tier,
                                shorter[earlier] as int,
                                shorter[place - 1] as int,
                            ));
                        }
                        assert(shorter[earlier] < next);
                    } else if earlier < place {
                        assert(order@[earlier] == shorter[earlier]);
                        assert(order@[later] == shorter[later - 1]);
                    } else if earlier == place {
                        assert(order@[later] == shorter[later - 1]);
                    } else {
                        assert(order@[earlier] == shorter[earlier - 1]);
                        assert(order@[later] == shorter[later - 1]);
                    }
                }
                assert forall|k: int| 0 <= k < next + 1 implies #[trigger] order@[k] < next + 1 by {
                    if k < place {
                        assert(order@[k] == shorter[k]);
                    } else if k > place {
                        assert(order@[k] == shorter[k - 1]);
                    }
                }
            }
            next += 1;
        }

        // The cards in that order
        let mut sorted: Vec<CardEntry> = Vec::new();
        let mut place: usize = 0;
        while place < count
            invariant
                count == list@.len(),
                list@ == before,
                order@.len() == count,
                forall|k: int| 0 <= k < count ==> #[trigger] order@[k] < count,
                place <= count,
                sorted@.len() == place,
                forall|k: int| 0 <= k < place ==> #[trigger] sorted@[k] == before[order@[k] as int],
            decreases count - place,
        {
            sorted.push(list[order[place]].clone());
            place += 1;
        }
        proof {
            let witness = Seq::new(count as nat, |k: int| order@[k] as int);
            assert(spec_is_stable_order(before, sorted@, tier, witness));
            lemma_legendary_last(before, sorted@, tier);
        }
        *list = sorted;
        Ok(())
    }
}

/// Cards whose computed values were calculated anew can all be ordered.
pub proof fn lemma_computed_are_orderable(
    before: Seq<CardEntry>,
    computed: Seq<CardEntry>,
    arena: Arena,
    now: i64,
)
    requires
        spec_computed_all(before, computed, arena, now),
    ensures
        forall|index: int|
            0 <= index < computed.len() ==> spec_orderable(#[trigger] computed[index], arena),
{
    assert forall|index: int| 0 <= index < computed.len() implies spec_orderable(
        #[trigger] computed[index],
        arena,
    ) by {
        assert(computed[index] == before[index].spec_with_computed(
            spec_calc_remaining(before[index], arena, now)->Ok_0,
        ));
    }
}

/// Ordering keeps the cards: where every card that can be requested had
/// computed values before, every such card has them after.
pub proof fn lemma_sorted_have_values(before: Seq<CardEntry>, after: Seq<CardEntry>, arena: Arena)
    requires
        spec_sorted_all(before, after, arena),
        forall|index: int|
            0 <= index < before.len() ==> (#[trigger] before[index]).rarity == Rarity::Legendary
                || before[index].computed is Some,
    ensures
        forall|index: int|
            0 <= index < after.len() ==> (#[trigger] after[index]).rarity == Rarity::Legendary
                || after[index].computed is Some,
{
    let order = choose|order: Seq<int>| spec_is_stable_order(before, after, arena, order);
    assert forall|index: int| 0 <= index < after.len() implies (#[trigger] after[index]).rarity
        == Rarity::Legendary || after[index].computed is Some by {
        assert(after[index] == before[order[index]]);
    }
}

/// Once the cards are ordered, every legendary card stands behind every
/// card that can be requested.
pub proof fn lemma_legendary_last(before: Seq<CardEntry>, after: Seq<CardEntry>, arena: Arena)
    requires
        spec_sorted_all(before, after, arena),
    ensures
        forall|legendary: int, other: int|
            0 <= legendary < after.len() && 0 <= other < after.len() && (
            #[trigger] after[legendary]).rarity == Rarity::Legendary && (#[trigger] after[other]).rarity
                != Rarity::Legendary ==> other < legendary,
{
    let order = choose|order: Seq<int>| spec_is_stable_order(before, after, arena, order);
    assert forall|legendary: int, other: int|
        0 <= legendary < after.len() && 0 <= other < after.len() && (
        #[trigger] after[legendary]).rarity == Rarity::Legendary && (#[trigger] after[other]).rarity
            != Rarity::Legendary implies other < legendary by {
        assert(after[legendary] == before[order[legendary]]);
        assert(after[other] == before[order[other]]);
        if legendary < other {
            assert(spec_comes_before(before, arena, order[legendary], order[other]));
        }
    }
}

/// Once the cards are ordered, the cards that can be requested stand by
/// their remaining days, the fewest first.
pub proof fn lemma_sorted_by_days(before: Seq<CardEntry>, after: Seq<CardEntry>, arena: Arena)
    requires
        spec_sorted_all(before, after, arena),
    ensures
        forall|earlier: int, later: int|
            0 <= earlier < later < after.len() && (#[trigger] after[earlier]).rarity
                != Rarity::Legendary && (#[trigger] after[later]).rarity != Rarity::Legendary
                ==> spec_rank(after[earlier], arena).days <= spec_rank(after[later], arena).days,
{
    let order = choose|order: Seq<int>| spec_is_stable_order(before, after, arena, order);
    assert forall|earlier: int, later: int|
        0 <= earlier < later < after.len() && (#[trigger] after[earlier]).rarity
            != Rarity::Legendary && (#[trigger] after[later]).rarity
            != Rarity::Legendary implies spec_rank(after[earlier], arena).days <= spec_rank(
        after[later],
        arena,
    ).days by {
        assert(after[earlier] == before[order[earlier]]);
        assert(after[later] == before[order[later]]);
        assert(spec_comes_before(before, arena, order[earlier], order[later]));
    }
}

/// An order of the cards names every index: each card has its place.
pub proof fn lemma_order_names_every_index(
    before: Seq<CardEntry>,
    after: Seq<CardEntry>,
    arena: Arena,
    order: Seq<int>,
    index: int,
)
    requires
        spec_is_stable_order(before, after, arena, order),
        0 <= index < before.len(),
    ensures
        exists|place: int| 0 <= place < order.len() && #[trigger] order[place] == index,
{
    assert forall|earlier: int, later: int|
        0 <= earlier < order.len() && 0 <= later < order.len() && earlier != later implies order[earlier]
        != order[later] by {
        if earlier < later {
            assert(spec_comes_before(before, arena, order[earlier], order[later]));
        } else {
            assert(spec_comes_before(before, arena, order[later], order[earlier]));
        }
    }
    assert(order.no_duplicates());
    order.unique_seq_to_set();
    vstd::seq_lib::seq_to_set_is_finite(order);
    let all = vstd::set_lib::set_int_range(0, before.len() as int);
    vstd::set_lib::lemma_int_range(0, before.len() as int);
    assert forall|value: int| order.to_set().contains(value) implies all.contains(value) by {
        let place = choose|place: int| 0 <= place < order.len() && order[place] == value;
        assert(0 <= order[place] < before.len());
    }
    vstd::set_lib::lemma_subset_equality(order.to_set(), all);
    assert(all.contains(index));
    assert(order.to_set().contains(index));
}

/// Two orders of the same cards agree at every place up to `place`.
proof fn lemma_orders_agree(
    before: Seq<CardEntry>,
    arena: Arena,
    first_after: Seq<CardEntry>,
    first: Seq<int>,
    second_after: Seq<CardEntry>,
    second: Seq<int>,
    place: int,
)
    requires
        spec_is_stable_order(before, first_after, arena, first),
        spec_is_stable_order(before, second_after, arena, second),
        0 <= place < before.len(),
    ensures
        forall|earlier: int| 0 <= earlier <= place ==> first[earlier] == second[earlier],
    decreases place,
{
    if place > 0 {
        lemma_orders_agree(before, arena, first_after, first, second_after, second, place - 1);
    }
    let one = first[place];
    let other = second[place];
    if one != other {
        // the place of each index in the order of the other
        lemma_order_names_every_index(before, second_after, arena, second, one);
        lemma_order_names_every_index(before, first_after, arena, first, other);
        let there = choose|there: int| 0 <= there < second.len() && #[trigger] second[there] == one;
        let here = choose|here: int| 0 <= here < first.len() && #[trigger] first[here] == other;
        if there < place {
            assert(first[there] == second[there]);
            assert(spec_comes_before(before, arena, first[there], first[place]));
        } else if here < place {
            assert(first[here] == second[here]);
            assert(spec_comes_before(before, arena, second[here], second[place]));
        } else {
            assert(spec_comes_before(before, arena, second[place], second[there]));
            assert(spec_comes_before(before, arena, first[place], first[here]));
        }
    }
}

/// The cards have one order only: what `spec_sorted_all` says of the
/// ordered cards holds of no other sequence.
pub proof fn lemma_sorted_is_unique(
    before: Seq<CardEntry>,
    first: Seq<CardEntry>,
    second: Seq<CardEntry>,
    arena: Arena,
)
    requires
        spec_sorted_all(before, first, arena),
        spec_sorted_all(before, second, arena),
    ensures
        first == second,
{
    let first_order = choose|order: Seq<int>| spec_is_stable_order(before, first, arena, order);
    let second_order = choose|order: Seq<int>| spec_is_stable_order(before, second, arena, order);
    if before.len() > 0 {
        lemma_orders_agree(
            before,
            arena,
            first,
            first_order,
            second,
            second_order,
            before.len() - 1,
        );
    }
    assert forall|place: int| 0 <= place < first.len() implies first[place] == second[place] by {
        assert(first[place] == before[first_order[place]]);
        assert(second[place] == before[second_order[place]]);
    }
    assert(first =~= second);
}

/// Ordering keeps the cards: what holds of every card before holds of every
/// card after.
pub proof fn lemma_sorted_keeps(
    before: Seq<CardEntry>,
    after: Seq<CardEntry>,
    arena: Arena,
    holds: spec_fn(CardEntry) -> bool,
)
    requires
        spec_sorted_all(before, after, arena),
        forall|index: int| 0 <= index < before.len() ==> holds(#[trigger] before[index]),
    ensures
        after.len() == before.len(),
        forall|index: int| 0 <= index < after.len() ==> holds(#[trigger] after[index]),
{
    let order = choose|order: Seq<int>| spec_is_stable_order(before, after, arena, order);
    assert forall|index: int| 0 <= index < after.len() implies holds(#[trigger] after[index]) by {
        assert(after[index] == before[order[index]]);
    }
}

} // verus!
