//! The cards, their kinds, rarities and arenas, and the tables that go by them.

use super::calc::{CalcError, CardData};
use vstd::prelude::*;
use vstd::string::StringExecFns;

verus! {

/// What kind of card an entry is; it changes no calculation
#[derive(Clone, Copy, Debug, PartialEq, Eq, Structural)]
pub enum CardType {
    Troop,
    Spell,
    Building,
}

/// How rare a card is; every calculation rule goes by it
#[derive(Clone, Copy, Debug, PartialEq, Eq, Structural)]
pub enum Rarity {
    Common,
    Rare,
    Epic,
    Legendary,
}

/// The arenas, from the lowest to the highest
#[derive(Clone, Copy, Debug, PartialEq, Eq, Structural)]
pub enum Arena {
    TrainingCamp,
    GoblinStadium,
    BonePit,
    BarbarianBowl,
    PekkasPlayhouse,
    SpellValley,
    BuildersWorkshop,
    RoyalArena,
    FrozenPeak,
    JungleArena,
    HogMountain,
    ElectroValley,
    SpookyTown,
    LegendaryArena,
}

/// How many cards one request yields
#[derive(Clone, Copy, Debug, PartialEq, Eq, Structural)]
pub struct RequestSize {
    pub common: usize,
    pub rare: usize,
}

/// How many cards one donation may hold
#[derive(Clone, Copy, Debug, PartialEq, Eq, Structural)]
pub struct DonationSize {
    pub common: usize,
    pub rare: usize,
}

/// How many requests are placed per week, by rarity
#[derive(Clone, Copy, Debug, PartialEq, Eq, Structural)]
pub struct RequestFrequency {
    pub common: usize,
    pub rare: usize,
    pub epic: usize,
    pub legendary: usize,
}

impl Arena {
    /// The place of the arena in the order of arenas, 0 for the lowest
    pub open spec fn spec_ordinal(self) -> nat {
        match self {
            Arena::TrainingCamp => 0,
            Arena::GoblinStadium => 1,
            Arena::BonePit => 2,
            Arena::BarbarianBowl => 3,
            Arena::PekkasPlayhouse => 4,
            Arena::SpellValley => 5,
            Arena::BuildersWorkshop => 6,
            Arena::RoyalArena => 7,
            Arena::FrozenPeak => 8,
            Arena::JungleArena => 9,
            Arena::HogMountain => 10,
            Arena::ElectroValley => 11,
            Arena::SpookyTown => 12,
            Arena::LegendaryArena => 13,
        }
    }

    /// The step of the arena: the request and donation tables grow by one
    /// step every three arenas, up to the fourth step
    pub open spec fn spec_step(self) -> nat {
        let raised = (self.spec_ordinal() + 2) / 3;
        if raised < 4 {
            raised
        } else {
            4
        }
    }

    /// The place of the arena in the order of arenas, 0 for the lowest
    pub fn ordinal(&self) -> (r: usize)
        ensures
            r == self.spec_ordinal(),
            r < 14,
    {
        match self {
            Arena::TrainingCamp => 0,
            Arena::GoblinStadium => 1,
            Arena::BonePit => 2,
            Arena::BarbarianBowl => 3,
            Arena::PekkasPlayhouse => 4,
            Arena::SpellValley => 5,
            Arena::BuildersWorkshop => 6,
            Arena::RoyalArena => 7,
            Arena::FrozenPeak => 8,
            Arena::JungleArena => 9,
            Arena::HogMountain => 10,
            Arena::ElectroValley => 11,
            Arena::SpookyTown => 12,
            Arena::LegendaryArena => 13,
        }
    }
}

/// The daily donation limit of an arena: 90 cards for each step
pub open spec fn spec_donation_limit(arena: Arena) -> nat {
    90 * arena.spec_step()
}

/// The donation size of an arena: nothing in the training camp, one card of
/// either kind in the arena above it, then two common cards for each step and
/// one rare card
pub open spec fn spec_donation_size(arena: Arena) -> DonationSize {
    if arena.spec_ordinal() == 0 {
        DonationSize { common: 0, rare: 0 }
    } else if arena.spec_ordinal() == 1 {
        DonationSize { common: 1, rare: 1 }
    } else {
        DonationSize { common: (2 * arena.spec_step()) as usize, rare: 1 }
    }
}

/// The request size of an arena: ten common cards or one rare card for each
/// step
pub open spec fn spec_request_size(arena: Arena) -> RequestSize {
    RequestSize { common: (10 * arena.spec_step()) as usize, rare: arena.spec_step() as usize }
}

/// Returns the daily donation limit for a given arena
pub fn get_donation_limit(arena: &Arena) -> (limit: usize)
    ensures
        limit == spec_donation_limit(*arena),
{
    match arena {
        Arena::TrainingCamp => 0,
        Arena::GoblinStadium => 90,
        Arena::BonePit => 90,
        Arena::BarbarianBowl => 90,
        Arena::PekkasPlayhouse => 180,
        Arena::SpellValley => 180,
        Arena::BuildersWorkshop => 180,
        Arena::RoyalArena => 270,
        Arena::FrozenPeak => 270,
        Arena::JungleArena => 270,
        Arena::HogMountain => 360,
        Arena::ElectroValley => 360,
        Arena::SpookyTown => 360,
        Arena::LegendaryArena => 360,
    }
}

/// Returns the donation size limit for a given arena
pub fn get_donation_size(arena: &Arena) -> (size: DonationSize)
    ensures
        size == spec_donation_size(*arena),
{
    match arena {
        Arena::TrainingCamp => DonationSize { common: 0, rare: 0 },
        Arena::GoblinStadium => DonationSize { common: 1, rare: 1 },
        Arena::BonePit => DonationSize { common: 2, rare: 1 },
        Arena::BarbarianBowl => DonationSize { common: 2, rare: 1 },
        Arena::PekkasPlayhouse => DonationSize { common: 4, rare: 1 },
        Arena::SpellValley => DonationSize { common: 4, rare: 1 },
        Arena::BuildersWorkshop => DonationSize { common: 4, rare: 1 },
        Arena::RoyalArena => DonationSize { common: 6, rare: 1 },
        Arena::FrozenPeak => DonationSize { common: 6, rare: 1 },
        Arena::JungleArena => DonationSize { common: 6, rare: 1 },
        Arena::HogMountain => DonationSize { common: 8, rare: 1 },
        Arena::ElectroValley => DonationSize { common: 8, rare: 1 },
        Arena::SpookyTown => DonationSize { common: 8, rare: 1 },
        Arena::LegendaryArena => DonationSize { common: 8, rare: 1 },
    }
}

/// Returns the request size limit for a given arena
pub fn get_request_size(arena: &Arena) -> (size: RequestSize)
    ensures
        size == spec_request_size(*arena),
{
    match arena {
        Arena::TrainingCamp => RequestSize { common: 0, rare: 0 },
        Arena::GoblinStadium | Arena::BonePit | Arena::BarbarianBowl => RequestSize {
            common: 10,
            rare: 1,
        },
        Arena::PekkasPlayhouse | Arena::SpellValley | Arena::BuildersWorkshop => RequestSize {
            common: 20,
            rare: 2,
        },
        Arena::RoyalArena | Arena::FrozenPeak | Arena::JungleArena => RequestSize {
            common: 30,
            rare: 3,
        },
        Arena::HogMountain | Arena::ElectroValley | Arena::SpookyTown | Arena::LegendaryArena => {
            RequestSize { common: 40, rare: 4 }
        },
    }
}

/// No table shrinks from an arena to a higher one.
pub proof fn lemma_tables_monotonic(lower: Arena, higher: Arena)
    requires
        lower.spec_ordinal() <= higher.spec_ordinal(),
    ensures
        spec_donation_limit(lower) <= spec_donation_limit(higher),
        spec_donation_size(lower).common <= spec_donation_size(higher).common,
        spec_donation_size(lower).rare <= spec_donation_size(higher).rare,
        spec_request_size(lower).common <= spec_request_size(higher).common,
        spec_request_size(lower).rare <= spec_request_size(higher).rare,
{
}

/// Only the training camp has requests of size zero.
pub proof fn lemma_request_size_positive(arena: Arena)
    ensures
        spec_request_size(arena).common > 0 <==> arena != Arena::TrainingCamp,
        spec_request_size(arena).rare > 0 <==> arena != Arena::TrainingCamp,
{
}

/// How many requests for cards of a rarity are placed per week
pub open spec fn spec_weekly_frequency(rarity: Rarity) -> nat {
    match rarity {
        Rarity::Common => 20,
        Rarity::Rare => 20,
        Rarity::Epic => 1,
        Rarity::Legendary => 0,
    }
}

/**
The amount of requests to place per week

- Each day can fit three requests
- Epic cards can (and get) only be requested once per week
- Common or rare cards get requested otherwise
*/
pub fn request_frequency() -> (per_week: RequestFrequency)
    ensures
        per_week.common == spec_weekly_frequency(Rarity::Common),
        per_week.rare == spec_weekly_frequency(Rarity::Rare),
        per_week.epic == spec_weekly_frequency(Rarity::Epic),
        per_week.legendary == spec_weekly_frequency(Rarity::Legendary),
{
    RequestFrequency { common: 6 * 3 + 2, rare: 6 * 3 + 2, epic: 1, legendary: 0 }
}

/// How many requests for cards of a rarity are placed per week
pub fn weekly_frequency(rarity: Rarity) -> (per_week: usize)
    ensures
        per_week == spec_weekly_frequency(rarity),
{
    let table = request_frequency();
    match rarity {
        Rarity::Common => table.common,
        Rarity::Rare => table.rare,
        Rarity::Epic => table.epic,
        Rarity::Legendary => table.legendary,
    }
}

/// A card as the first storage format held it: without an identifier
pub struct CardEntryV1 {
    /// The name of the card
    pub name: String,
    /// The amount of cards in posession
    pub have: usize,
    /// The current level of the card
    pub level: usize,
    /// The kind of the card
    pub card_type: CardType,
    /// The rarity of the card
    pub rarity: Rarity,
    /// Computed values
    pub computed: Option<CardData>,
}

/// A card that is kept track of
pub struct CardEntry {
    /// The UUID of the card, as its 128 bits
    /// Used for tracking renames
    pub uuid: u128,
    /// The name of the card
    pub name: String,
    /// The amount of cards in posession
    pub have: usize,
    /// The current level of the card
    pub level: usize,
    /// The kind of the card
    pub card_type: CardType,
    /// The rarity of the card
    pub rarity: Rarity,
    /// Computed values
    pub computed: Option<CardData>,
}

impl Clone for CardEntryV1 {
    fn clone(&self) -> (copy: Self)
        ensures
            copy == *self,
    {
        CardEntryV1 {
            name: self.name.clone(),
            have: self.have,
            level: self.level,
            card_type: self.card_type,
            rarity: self.rarity,
            computed: self.computed,
        }
    }
}

impl Clone for CardEntry {
    fn clone(&self) -> (copy: Self)
        ensures
            copy == *self,
    {
        CardEntry {
            uuid: self.uuid,
            name: self.name.clone(),
            have: self.have,
            level: self.level,
            card_type: self.card_type,
            rarity: self.rarity,
            computed: self.computed,
        }
    }
}

/// Two entries are the same card when they carry the same identifier,
/// whatever their other fields hold.
impl PartialEq for CardEntry {
    fn eq(&self, other: &Self) -> (same: bool) {
        self.uuid == other.uuid
    }
}

impl vstd::std_specs::cmp::PartialEqSpecImpl for CardEntry {
    open spec fn obeys_eq_spec() -> bool {
        true
    }

    open spec fn eq_spec(&self, other: &Self) -> bool {
        self.uuid == other.uuid
    }
}

/// A random identifier from `uuid::Uuid::new_v4`, as the 128 bits that
/// `Uuid::as_u128` gives. Nothing is claimed of the value: it comes from the
/// random numbers of the operating system, and `new_v4` panics where those
/// cannot be had.
#[verifier::external_body]
pub(crate) fn fresh_uuid() -> (uuid: u128) {
    uuid::Uuid::new_v4().as_u128()
}

impl CardEntryV1 {
    /// The record with an identifier added to it
    pub open spec fn spec_with_uuid(self, uuid: u128) -> CardEntry {
        CardEntry {
            uuid,
            name: self.name,
            have: self.have,
            level: self.level,
            card_type: self.card_type,
            rarity: self.rarity,
            computed: self.computed,
        }
    }

    /// Turns the record into an entry with the given identifier
    pub fn with_uuid(self, uuid: u128) -> (entry: CardEntry)
        ensures
            entry == self.spec_with_uuid(uuid),
    {
        CardEntry {
            uuid,
            name: self.name,
            have: self.have,
            level: self.level,
            card_type: self.card_type,
            rarity: self.rarity,
            computed: self.computed,
        }
    }

    /// Turns the record into an entry with a new random identifier
    pub fn retrofit_uuid(self) -> (entry: CardEntry)
        ensures
            entry == self.spec_with_uuid(entry.uuid),
    {
        let uuid = fresh_uuid();
        self.with_uuid(uuid)
    }
}

impl CardEntry {
    /// An entry with the given identifier, no name and no cards: a common
    /// building of level 9
    pub fn blank(uuid: u128) -> (entry: CardEntry)
        ensures
            entry.uuid == uuid,
            entry.name@ == Seq::<char>::empty(),
            entry.have == 0,
            entry.level == 9,
            entry.card_type == CardType::Building,
            entry.rarity == Rarity::Common,
            entry.computed is None,
            entry.spec_has_valid_level(),
    {
        CardEntry {
            uuid,
            name: String::new(),
            have: 0,
            level: 9,
            card_type: CardType::Building,
            rarity: Rarity::Common,
            computed: None,
        }
    }

    /// An entry with a new random identifier, no name and no cards: a common
    /// building of level 9
    pub fn new() -> (entry: CardEntry)
        ensures
            entry.name@ == Seq::<char>::empty(),
            entry.have == 0,
            entry.level == 9,
            entry.card_type == CardType::Building,
            entry.rarity == Rarity::Common,
            entry.computed is None,
            entry.spec_has_valid_level(),
    {
        CardEntry::blank(fresh_uuid())
    }
}

/// The cards that the first thirteen steps of an upgrade path need
pub const NEEDED_CARDS: [usize; 13] = [1, 2, 4, 10, 20, 50, 100, 200, 400, 800, 1000, 2000, 5000];

/// The gold that an upgrade from each level needs
pub const NEEDED_GOLD: [usize; 13] = [
    0, 5, 20, 50, 150, 400, 1000, 2000, 4000, 8000, 20000, 50000, 100000,
];

/// Where the upgrade path of a common card starts in the table of needed cards
pub const COMMON_OFFSET: usize = 0;

/// Where the upgrade path of a rare card starts in the table of needed cards
pub const RARE_OFFSET: usize = 2;

/// Where the upgrade path of an epic card starts in the table of needed cards
pub const EPIC_OFFSET: usize = 5;

/// Where the upgrade path of a legendary card starts in the table of needed cards
pub const LEGENDARY_OFFSET: usize = 8;

/// Where the upgrade path of a rarity starts in the table of needed cards:
/// the path of a rarer card begins at a higher level
pub open spec fn spec_level_offset(rarity: Rarity) -> nat {
    match rarity {
        Rarity::Common => 0,
        Rarity::Rare => 2,
        Rarity::Epic => 5,
        Rarity::Legendary => 8,
    }
}

/// Whether a card of this rarity can have this level: one of 1 to 13, and not
/// below the start of the path of its rarity
pub open spec fn spec_level_fits(rarity: Rarity, level: nat) -> bool {
    1 <= level <= 13 && spec_level_offset(rarity) <= level
}

/// The cards needed to upgrade from a level: none at level 13, else the entry
/// of the table that lies as far in as the level is above the start of the
/// path
pub open spec fn spec_needed_cards(rarity: Rarity, level: nat) -> nat
    recommends
        spec_level_fits(rarity, level),
{
    if level == 13 {
        0
    } else {
        NEEDED_CARDS[level - spec_level_offset(rarity)] as nat
    }
}

/// The gold needed to upgrade from a level: none at level 13, 400 for an
/// epic card of level 6, 5000 for a legendary card of level 9, else the entry
/// of the table at the level
pub open spec fn spec_needed_gold(rarity: Rarity, level: nat) -> nat
    recommends
        1 <= level <= 13,
{
    if level == 13 {
        0
    } else if rarity == Rarity::Epic && level == 6 {
        400
    } else if rarity == Rarity::Legendary && level == 9 {
        5000
    } else {
        NEEDED_GOLD[level as int] as nat
    }
}

/// Where the upgrade path of a rarity starts in the table of needed cards
pub fn level_offset(rarity: Rarity) -> (offset: usize)
    ensures
        offset == spec_level_offset(rarity),
{
    match rarity {
        Rarity::Common => COMMON_OFFSET,
        Rarity::Rare => RARE_OFFSET,
        Rarity::Epic => EPIC_OFFSET,
        Rarity::Legendary => LEGENDARY_OFFSET,
    }
}

impl CardEntry {
    /// Whether the card has a level that a card of its rarity can have
    pub open spec fn spec_has_valid_level(self) -> bool {
        spec_level_fits(self.rarity, self.level as nat)
    }

    /// Whether the card has a level that a card of its rarity can have: one
    /// of 1 to 13, and not below the start of the path of its rarity
    pub fn has_valid_level(&self) -> (valid: bool)
        ensures
            valid == self.spec_has_valid_level(),
    {
        1 <= self.level && self.level <= 13 && level_offset(self.rarity) <= self.level
    }

    /// Calculates the amount of required cards to upgrade to the next level (or 0 when on 13)
    pub fn get_needed_cards(&self) -> (needed: Result<usize, CalcError>)
        ensures
            spec_level_fits(self.rarity, self.level as nat) ==> needed == Ok::<usize, CalcError>(
                spec_needed_cards(self.rarity, self.level as nat) as usize,
            ),
            !spec_level_fits(self.rarity, self.level as nat) ==> needed == Err::<usize, CalcError>(
                CalcError::InvalidLevel,
            ),
            needed matches Ok(cards) ==> cards <= 5000,
    {
        let offset = level_offset(self.rarity);
        if self.level < 1 || self.level > 13 || self.level < offset {
            return Err(CalcError::InvalidLevel);
        }
        if self.level == 13 {
            return Ok(0);
        }
        Ok(NEEDED_CARDS[self.level - offset])
    }

    /// Calculates the amount of required gold to upgrade to the next level (or 0 when on 13)
    pub fn get_needed_gold(&self) -> (needed: Result<usize, CalcError>)
        ensures
            1 <= self.level <= 13 ==> needed == Ok::<usize, CalcError>(
                spec_needed_gold(self.rarity, self.level as nat) as usize,
            ),
            !(1 <= self.level <= 13) ==> needed == Err::<usize, CalcError>(CalcError::InvalidLevel),
            needed matches Ok(gold) ==> gold <= 100000,
    {
        if self.level < 1 || self.level > 13 {
            return Err(CalcError::InvalidLevel);
        }
        if self.level == 13 {
            return Ok(0);
        }
        match self.rarity {
            Rarity::Common => Ok(NEEDED_GOLD[self.level]),
            Rarity::Rare => Ok(NEEDED_GOLD[self.level]),
            Rarity::Epic => if self.level == 6 {
                Ok(400)
            } else {
                Ok(NEEDED_GOLD[self.level])
            },
            Rarity::Legendary => if self.level == 9 {
                Ok(5000)
            } else {
                Ok(NEEDED_GOLD[self.level])
            },
        }
    }
}

/// The character of a decimal digit
pub open spec fn spec_digit(digit: nat) -> char
    recommends
        digit < 10,
{
    seq!['0', '1', '2', '3', '4', '5', '6', '7', '8', '9'][digit as int]
}

/// The decimal digits of a number, the most significant first
pub open spec fn spec_decimal(number: nat) -> Seq<char>
    decreases number,
{
    if number < 10 {
        seq![spec_digit(number)]
    } else {
        spec_decimal(number / 10).push(spec_digit(number % 10))
    }
}

/// A number of gold pieces as text: the number itself below 1000, else the
/// whole thousands in it, followed by a `K`
pub open spec fn spec_gold_string(number: nat) -> Seq<char> {
    if number < 1000 {
        spec_decimal(number)
    } else {
        spec_decimal(number / 1000).push('K')
    }
}

/// The text of one decimal digit
fn digit_text(digit: usize) -> (text: &'static str)
    requires
        digit < 10,
    ensures
        text@ == seq![spec_digit(digit as nat)],
{
    proof {
        reveal_strlit("0");
        reveal_strlit("1");
        reveal_strlit("2");
        reveal_strlit("3");
        reveal_strlit("4");
        reveal_strlit("5");
        reveal_strlit("6");
        reveal_strlit("7");
        reveal_strlit("8");
        reveal_strlit("9");
    }
    match digit {
        0 => "0",
        1 => "1",
        2 => "2",
        3 => "3",
        4 => "4",
        5 => "5",
        6 => "6",
        7 => "7",
        8 => "8",
        _ => "9",
    }
}

/// A number in decimal digits
pub fn decimal(number: usize) -> (text: String)
    ensures
        text@ == spec_decimal(number as nat),
    decreases number,
{
    if number < 10 {
        String::from_str(digit_text(number))
    } else {
        let mut text = decimal(number / 10);
        text.append(digit_text(number % 10));
        text
    }
}

/// Formats an amount of gold: a number below 1000 as it is, a larger one as
/// its whole thousands followed by `K`
pub fn gold_string(number: usize) -> (text: String)
    ensures
        text@ == spec_gold_string(number as nat),
{
    if number < 1000 {
        decimal(number)
    } else {
        proof {
            reveal_strlit("K");
        }
        let mut text = decimal(number / 1000);
        text.append("K");
        text
    }
}

impl CardEntry {
    /// Calculates the amount of required gold to upgrade to the next level (or 0 when on 13)
    /// as a String, formatting a `usize` not below 1000 as its whole thousands and a `K`
    pub fn get_needed_gold_string(&self) -> (text: Result<String, CalcError>)
        ensures
            1 <= self.level <= 13 ==> text is Ok && text->Ok_0@ == spec_gold_string(
                spec_needed_gold(self.rarity, self.level as nat),
            ),
            !(1 <= self.level <= 13) ==> text is Err && text->Err_0 == CalcError::InvalidLevel,
    {
        match self.get_needed_gold() {
            Ok(gold) => Ok(gold_string(gold)),
            Err(error) => Err(error),
        }
    }
}

impl CardType {
    /// The name of the kind
    pub open spec fn spec_name(self) -> Seq<char> {
        match self {
            CardType::Troop => "Troop"@,
            CardType::Spell => "Spell"@,
            CardType::Building => "Building"@,
        }
    }

    /// The name of the kind
    pub fn name(&self) -> (name: &'static str)
        ensures
            name@ == self.spec_name(),
    {
        match self {
            CardType::Troop => "Troop",
            CardType::Spell => "Spell",
            CardType::Building => "Building",
        }
    }
}

impl Rarity {
    /// The name of the rarity
    pub open spec fn spec_name(self) -> Seq<char> {
        match self {
            Rarity::Common => "Common"@,
            Rarity::Rare => "Rare"@,
            Rarity::Epic => "Epic"@,
            Rarity::Legendary => "Legendary"@,
        }
    }

    /// The name of the rarity
    pub fn name(&self) -> (name: &'static str)
        ensures
            name@ == self.spec_name(),
    {
        match self {
            Rarity::Common => "Common",
            Rarity::Rare => "Rare",
            Rarity::Epic => "Epic",
            Rarity::Legendary => "Legendary",
        }
    }

    /// All rarities, from the most common to the rarest
    pub fn all() -> (all: Vec<Rarity>)
        ensures
            all@ == seq![Rarity::Common, Rarity::Rare, Rarity::Epic, Rarity::Legendary],
    {
        let mut all: Vec<Rarity> = Vec::new();
        all.push(Rarity::Common);
        all.push(Rarity::Rare);
        all.push(Rarity::Epic);
        all.push(Rarity::Legendary);
        all
    }

    /// The rarity of a name, where it is the name of one
    pub fn from_name(name: &str) -> (rarity: Option<Rarity>)
        ensures
            rarity matches Some(named) ==> named.spec_name() == name@,
            rarity is None ==> forall|other: Rarity| other.spec_name() != name@,
    {
        let wanted = String::from_str(name);
        let all = Rarity::all();
        let mut index: usize = 0;
        while index < all.len()
            invariant
                index <= all@.len(),
                all@ == seq![Rarity::Common, Rarity::Rare, Rarity::Epic, Rarity::Legendary],
                wanted@ == name@,
                forall|k: int| 0 <= k < index ==> (#[trigger] all@[k]).spec_name() != name@,
            decreases all@.len() - index,
        {
            if String::from_str(all[index].name()) == wanted {
                return Some(all[index]);
            }
            index += 1;
        }
        assert forall|other: Rarity| other.spec_name() != name@ by {
            let place: int = match other {
                Rarity::Common => 0,
                Rarity::Rare => 1,
                Rarity::Epic => 2,
                Rarity::Legendary => 3,
            };
            assert(all@[place] == other);
        }
        None
    }
}

/// No two rarities have the same name: a name names one rarity at most.
pub proof fn lemma_rarity_names_differ(first: Rarity, second: Rarity)
    requires
        first != second,
    ensures
        first.spec_name() != second.spec_name(),
{
    reveal_strlit("Common");
    reveal_strlit("Rare");
    reveal_strlit("Epic");
    reveal_strlit("Legendary");
    if first.spec_name().len() == second.spec_name().len() {
        // Rare and Epic
        assert(first.spec_name()[0] != second.spec_name()[0]);
    }
}

impl Arena {
    /// The name of the arena
    pub open spec fn spec_name(self) -> Seq<char> {
        match self {
            Arena::TrainingCamp => "TrainingCamp"@,
            Arena::GoblinStadium => "GoblinStadium"@,
            Arena::BonePit => "BonePit"@,
            Arena::BarbarianBowl => "BarbarianBowl"@,
            Arena::PekkasPlayhouse => "PekkasPlayhouse"@,
            Arena::SpellValley => "SpellValley"@,
            Arena::BuildersWorkshop => "BuildersWorkshop"@,
            Arena::RoyalArena => "RoyalArena"@,
            Arena::FrozenPeak => "FrozenPeak"@,
            Arena::JungleArena => "JungleArena"@,
            Arena::HogMountain => "HogMountain"@,
            Arena::ElectroValley => "ElectroValley"@,
            Arena::SpookyTown => "SpookyTown"@,
            Arena::LegendaryArena => "LegendaryArena"@,
        }
    }

    /// The name of the arena
    pub fn name(&self) -> (name: &'static str)
        ensures
            name@ == self.spec_name(),
    {
        match self {
            Arena::TrainingCamp => "TrainingCamp",
            Arena::GoblinStadium => "GoblinStadium",
            Arena::BonePit => "BonePit",
            Arena::BarbarianBowl => "BarbarianBowl",
            Arena::PekkasPlayhouse => "PekkasPlayhouse",
            Arena::SpellValley => "SpellValley",
            Arena::BuildersWorkshop => "BuildersWorkshop",
            Arena::RoyalArena => "RoyalArena",
            Arena::FrozenPeak => "FrozenPeak",
            Arena::JungleArena => "JungleArena",
            Arena::HogMountain => "HogMountain",
            Arena::ElectroValley => "ElectroValley",
            Arena::SpookyTown => "SpookyTown",
            Arena::LegendaryArena => "LegendaryArena",
        }
    }

    /// All arenas, from the lowest to the highest
    pub fn all() -> (all: Vec<Arena>)
        ensures
            all@.len() == 14,
            forall|arena: Arena| (#[trigger] all@[arena.spec_ordinal() as int]) == arena,
    {
        let mut all: Vec<Arena> = Vec::new();
        all.push(Arena::TrainingCamp);
        all.push(Arena::GoblinStadium);
        all.push(Arena::BonePit);
        all.push(Arena::BarbarianBowl);
        all.push(Arena::PekkasPlayhouse);
        all.push(Arena::SpellValley);
        all.push(Arena::BuildersWorkshop);
        all.push(Arena::RoyalArena);
        all.push(Arena::FrozenPeak);
        all.push(Arena::JungleArena);
        all.push(Arena::HogMountain);
        all.push(Arena::ElectroValley);
        all.push(Arena::SpookyTown);
        all.push(Arena::LegendaryArena);
        all
    }

    /// The arenas that can be selected, from the lowest to the highest: all
    /// but the training camp, which has no requests
    pub fn selectable() -> (arenas: Vec<Arena>)
        ensures
            arenas@.len() == 13,
            forall|arena: Arena|
                arena != Arena::TrainingCamp ==> (#[trigger] arenas@[arena.spec_ordinal() - 1])
                    == arena,
    {
        let mut arenas = Arena::all();
        arenas.remove(0);
        arenas
    }

    /// The arena of a name, where it is the name of one
    pub fn from_name(name: &str) -> (arena: Option<Arena>)
        ensures
            arena matches Some(named) ==> named.spec_name() == name@,
            arena is None ==> forall|other: Arena| other.spec_name() != name@,
    {
        let wanted = String::from_str(name);
        let all = Arena::all();
        let mut index: usize = 0;
        while index < all.len()
            invariant
                index <= all@.len(),
                all@.len() == 14,
                forall|arena: Arena| (#[trigger] all@[arena.spec_ordinal() as int]) == arena,
                wanted@ == name@,
                forall|k: int| 0 <= k < index ==> (#[trigger] all@[k]).spec_name() != name@,
            decreases all@.len() - index,
        {
            if String::from_str(all[index].name()) == wanted {
                return Some(all[index]);
            }
            index += 1;
        }
        assert forall|other: Arena| other.spec_name() != name@ by {
            assert(all@[other.spec_ordinal() as int] == other);
        }
        None
    }
}

/// No two arenas have the same name: a name names one arena at most.
pub proof fn lemma_arena_names_differ(first: Arena, second: Arena)
    requires
        first != second,
    ensures
        first.spec_name() != second.spec_name(),
{
    reveal_strlit("TrainingCamp");
    reveal_strlit("GoblinStadium");
    reveal_strlit("BonePit");
    reveal_strlit("BarbarianBowl");
    reveal_strlit("PekkasPlayhouse");
    reveal_strlit("SpellValley");
    reveal_strlit("BuildersWorkshop");
    reveal_strlit("RoyalArena");
    reveal_strlit("FrozenPeak");
    reveal_strlit("JungleArena");
    reveal_strlit("HogMountain");
    reveal_strlit("ElectroValley");
    reveal_strlit("SpookyTown");
    reveal_strlit("LegendaryArena");
    if first.spec_name().len() == second.spec_name().len() {
        // names of one length begin with different letters
        assert(first.spec_name()[0] != second.spec_name()[0]);
    }
}

/// What was kept is not what it was kept as
#[derive(Clone, Copy, Debug, PartialEq, Eq, Structural)]
pub struct DeserializationFailure {
}

/// How the selected arena is kept: its name between double quotes
pub open spec fn spec_stored_arena(arena: Arena) -> Seq<char> {
    seq!['"'] + arena.spec_name() + seq!['"']
}

impl Arena {
    /// The arena as it is kept: its name between double quotes
    pub fn stored(&self) -> (text: String)
        ensures
            text@ == spec_stored_arena(*self),
    {
        proof {
            reveal_strlit("\"");
        }
        let mut text = String::from_str("\"");
        text.append(self.name());
        text.append("\"");
        text
    }

    /// Reads the selected arena from what was kept. Where nothing was kept
    /// the highest arena is selected; where something else than an arena was
    /// kept, reading fails.
    pub fn restore(kept: Option<&str>) -> (arena: Result<Arena, DeserializationFailure>)
        ensures
            kept is None ==> arena == Ok::<Arena, DeserializationFailure>(Arena::LegendaryArena),
            kept matches Some(text) ==> {
                &&& arena matches Ok(read) ==> spec_stored_arena(read) == text@
                &&& arena is Err ==> forall|other: Arena| spec_stored_arena(other) != text@
            },
    {
        let text = match kept {
            Some(text) => String::from_str(text),
            None => {
                return Ok(Arena::LegendaryArena);
            },
        };
        let all = Arena::all();
        let mut index: usize = 0;
        while index < all.len()
            invariant
                index <= all@.len(),
                all@.len() == 14,
                forall|arena: Arena| (#[trigger] all@[arena.spec_ordinal() as int]) == arena,
                kept matches Some(given) && given@ == text@,
                forall|k: int| 0 <= k < index ==> spec_stored_arena(#[trigger] all@[k]) != text@,
            decreases all@.len() - index,
        {
            if all[index].stored() == text {
                return Ok(all[index]);
            }
            index += 1;
        }
        assert forall|other: Arena| spec_stored_arena(other) != text@ by {
            assert(all@[other.spec_ordinal() as int] == other);
        }
        Err(DeserializationFailure {  })
    }
}

/// What is kept of an arena is kept of no other arena, so that reading gives
/// the arena back.
pub proof fn lemma_stored_arenas_differ(first: Arena, second: Arena)
    requires
        first != second,
    ensures
        spec_stored_arena(first) != spec_stored_arena(second),
{
    lemma_arena_names_differ(first, second);
    let one = spec_stored_arena(first);
    let other = spec_stored_arena(second);
    assert(one.subrange(1, one.len() - 1) == first.spec_name());
    assert(other.subrange(1, other.len() - 1) == second.spec_name());
}

} // verus!
