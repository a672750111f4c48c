//! Professions and the goods economy of the village: who works when, what
//! work produces, and how meals, ale and stock are bought and sold. Sole
//! proprietors: business income goes straight into the owner's purse, and
//! every coin moves through the ledger, so no trade creates or destroys money.

use vstd::prelude::*;

use crate::economy::{Ledger, ledger_cap};
use crate::genome::Genome;
use crate::text::concat;
use crate::weather::{Draw, SimRng};

verus! {

/// Tavern supper hours: from 17:00 until 22:00.
pub const TAVERN_OPEN_HOUR: u64 = 17;

pub const TAVERN_CLOSE_HOUR: u64 = 22;

/// Grain grown per work hour (farmer and farmhand each).
pub const GRAIN_PER_HOUR: u32 = 4;

/// Grain used per loaf.
pub const GRAIN_PER_BREAD: u32 = 2;

/// Loaves the baker bakes per work hour, grain permitting.
pub const BREAD_PER_HOUR: u32 = 4;

/// Fish caught per work hour: 2 or 3.
pub const FISH_PER_HOUR_MIN: u32 = 2;

pub const FISH_PER_HOUR_MAX: u32 = 3;

/// Evening stock the tavern aims for.
pub const TAVERN_TARGET_BREAD: u32 = 3;

pub const TAVERN_TARGET_FISH: u32 = 3;

pub const TAVERN_TARGET_ALE: u32 = 12;

/// Grain brewed into one ale.
pub const GRAIN_PER_ALE: u32 = 1;

/// Cash the keeper never spends on stock.
pub const KEEPER_CASH_RESERVE: i64 = 20;

/// Hour the keeper restocks.
pub const TAVERN_RESTOCK_HOUR: u64 = 10;

/// Hour taxes are collected and salaries paid.
pub const FISCAL_HOUR: u64 = 9;

/// A villager's trade.
#[derive(Clone, Copy, Debug, PartialEq, Eq, Structural, PartialOrd, Ord, Hash)]
pub enum Profession {
    Farmer,
    Farmhand,
    Fisher,
    Baker,
    TavernKeeper,
    Guard,
    Mayor,
    Elder,
}

/// A place of the village.
#[derive(Clone, Copy, Debug, PartialEq, Eq, Structural)]
pub enum PlaceKind {
    Farm,
    Dock,
    Bakery,
    Tavern,
    Square,
    Home,
}

impl PlaceKind {
    pub fn name(self) -> (r: &'static str)
        ensures
            r@ == (match self {
                PlaceKind::Farm => "farm"@,
                PlaceKind::Dock => "dock"@,
                PlaceKind::Bakery => "bakery"@,
                PlaceKind::Tavern => "tavern"@,
                PlaceKind::Square => "square"@,
                PlaceKind::Home => "home"@,
            }),
    {
        match self {
            PlaceKind::Farm => "farm",
            PlaceKind::Dock => "dock",
            PlaceKind::Bakery => "bakery",
            PlaceKind::Tavern => "tavern",
            PlaceKind::Square => "square",
            PlaceKind::Home => "home",
        }
    }

    /// Open-air places expose you to the weather.
    pub fn outdoors(self) -> (r: bool)
        ensures
            r == (self == PlaceKind::Farm || self == PlaceKind::Dock || self == PlaceKind::Square),
    {
        match self {
            PlaceKind::Farm | PlaceKind::Dock | PlaceKind::Square => true,
            _ => false,
        }
    }
}

pub open spec fn prof_slot(p: Profession) -> int {
    match p {
        Profession::Farmer => 0,
        Profession::Farmhand => 1,
        Profession::Fisher => 2,
        Profession::Baker => 3,
        Profession::TavernKeeper => 4,
        Profession::Guard => 5,
        Profession::Mayor => 6,
        Profession::Elder => 7,
    }
}

/// Hours of a profession's shift.
pub open spec fn on_shift_spec(p: Profession, hour: u64) -> bool {
    match p {
        Profession::Farmer | Profession::Farmhand => 7 <= hour < 15,
        Profession::Fisher => 6 <= hour < 12,
        Profession::Baker => 5 <= hour < 11,
        Profession::TavernKeeper => TAVERN_OPEN_HOUR <= hour < TAVERN_CLOSE_HOUR,
        Profession::Guard => hour >= 18 || hour < 2,
        Profession::Mayor => 9 <= hour < 13,
        Profession::Elder => false,
    }
}

impl Profession {
    pub fn name(self) -> (r: &'static str)
        ensures
            r@ == (match self {
                Profession::Farmer => "farmer"@,
                Profession::Farmhand => "farmhand"@,
                Profession::Fisher => "fisher"@,
                Profession::Baker => "baker"@,
                Profession::TavernKeeper => "tavern_keeper"@,
                Profession::Guard => "guard"@,
                Profession::Mayor => "mayor"@,
                Profession::Elder => "elder"@,
            }),
    {
        match self {
            Profession::Farmer => "farmer",
            Profession::Farmhand => "farmhand",
            Profession::Fisher => "fisher",
            Profession::Baker => "baker",
            Profession::TavernKeeper => "tavern_keeper",
            Profession::Guard => "guard",
            Profession::Mayor => "mayor",
            Profession::Elder => "elder",
        }
    }

    /// Working this job exposes you to the weather.
    pub fn outdoors(self) -> (r: bool)
        ensures
            r == (self == Profession::Farmer || self == Profession::Farmhand || self == Profession::Fisher || self
                == Profession::Guard),
    {
        match self {
            Profession::Farmer | Profession::Farmhand | Profession::Fisher | Profession::Guard => true,
            _ => false,
        }
    }

    /// Where the job is done; patrol and town business happen on the square.
    pub fn workplace(self) -> (r: PlaceKind)
        ensures
            r == (match self {
                Profession::Farmer | Profession::Farmhand => PlaceKind::Farm,
                Profession::Fisher => PlaceKind::Dock,
                Profession::Baker => PlaceKind::Bakery,
                Profession::TavernKeeper => PlaceKind::Tavern,
                _ => PlaceKind::Square,
            }),
    {
        match self {
            Profession::Farmer | Profession::Farmhand => PlaceKind::Farm,
            Profession::Fisher => PlaceKind::Dock,
            Profession::Baker => PlaceKind::Bakery,
            Profession::TavernKeeper => PlaceKind::Tavern,
            Profession::Guard | Profession::Mayor | Profession::Elder => PlaceKind::Square,
        }
    }

    /// `hour` lies within the profession's shift.
    pub fn on_shift(self, hour: u64) -> (r: bool)
        ensures
            r == on_shift_spec(self, hour),
    {
        match self {
            Profession::Farmer | Profession::Farmhand => 7 <= hour && hour < 15,
            Profession::Fisher => 6 <= hour && hour < 12,
            Profession::Baker => 5 <= hour && hour < 11,
            Profession::TavernKeeper => TAVERN_OPEN_HOUR <= hour && hour < TAVERN_CLOSE_HOUR,
            Profession::Guard => hour >= 18 || hour < 2,
            Profession::Mayor => 9 <= hour && hour < 13,
            Profession::Elder => false,
        }
    }

    /// Slot of the profession in a roster.
    pub fn slot(self) -> (r: usize)
        ensures
            r == prof_slot(self),
            r < 8,
    {
        match self {
            Profession::Farmer => 0,
            Profession::Farmhand => 1,
            Profession::Fisher => 2,
            Profession::Baker => 3,
            Profession::TavernKeeper => 4,
            Profession::Guard => 5,
            Profession::Mayor => 6,
            Profession::Elder => 7,
        }
    }
}

/// The founders come in slot order: founder `k` holds the trade of slot `k`.
pub proof fn lemma_founder_slots()
    ensures
        forall|k: int| 0 <= k < 8 ==> prof_slot(#[trigger] roster_spec()[k].1) == k,
{
    assert forall|k: int| 0 <= k < 8 implies prof_slot(#[trigger] roster_spec()[k].1) == k by {
        if k == 0 {} else if k == 1 {} else if k == 2 {} else if k == 3 {} else if k == 4 {} else if k == 5 {} else if k == 6 {} else {}
    }
}

/// The day's counters and the lifetime totals all at zero.
pub open spec fn fresh_stats() -> DailyStats {
    DailyStats {
        meals: 0,
        suppers: 0,
        ales_sold: 0,
        grain_grown: 0,
        fish_caught: 0,
        bread_baked: 0,
        total_meals: 0,
        total_ales: 0,
        total_starving_episodes: 0,
    }
}

/// The founding villagers and their jobs.
pub open spec fn roster_spec() -> Seq<(Seq<char>, Profession)> {
    seq![
        ("Aldric"@, Profession::Farmer),
        ("Berta"@, Profession::Farmhand),
        ("Cole"@, Profession::Fisher),
        ("Dagny"@, Profession::Baker),
        ("Edwin"@, Profession::TavernKeeper),
        ("Frida"@, Profession::Guard),
        ("Gareth"@, Profession::Mayor),
        ("Hilda"@, Profession::Elder),
    ]
}

/// The founding roster: `(name, profession)`.
pub fn founding_roster() -> (r: Vec<(&'static str, Profession)>)
    ensures
        r@.map_values(|e: (&str, Profession)| (e.0@, e.1)) == roster_spec(),
{
    let r = vec![
        ("Aldric", Profession::Farmer),
        ("Berta", Profession::Farmhand),
        ("Cole", Profession::Fisher),
        ("Dagny", Profession::Baker),
        ("Edwin", Profession::TavernKeeper),
        ("Frida", Profession::Guard),
        ("Gareth", Profession::Mayor),
        ("Hilda", Profession::Elder),
    ];
    assert(r@.map_values(|e: (&str, Profession)| (e.0@, e.1)) =~= roster_spec());
    r
}

/// Who currently holds each job (sellers disappear when they die).
#[derive(Clone, Debug)]
pub struct Roster {
    holders: Vec<Option<String>>,
}

impl Roster {
    /// One slot per profession.
    pub closed spec fn wf(&self) -> bool {
        self.holders@.len() == 8
    }

    /// Name of whoever holds job `p`.
    pub closed spec fn holder_spec(&self, p: Profession) -> Option<Seq<char>> {
        match self.holders@[prof_slot(p)] {
            Some(s) => Some(s@),
            None => None,
        }
    }

    /// Nobody holds any job.
    pub fn new() -> (r: Self)
        ensures
            r.wf(),
            forall|p: Profession| #[trigger] r.holder_spec(p) is None,
    {
        let r = Roster { holders: vec![None, None, None, None, None, None, None, None] };
        proof {
            assert forall|p: Profession| #[trigger] r.holder_spec(p) is None by {
                assert(r.holders@[prof_slot(p)] is None);
            }
        }
        r
    }

    /// Whoever holds job `p`.
    pub fn holder(&self, p: Profession) -> (r: Option<&str>)
        requires
            self.wf(),
        ensures
            r is Some == self.holder_spec(p) is Some,
            r is Some ==> r->0@ == self.holder_spec(p)->0,
    {
        match &self.holders[p.slot()] {
            Some(s) => Some(s.as_str()),
            None => None,
        }
    }

    /// Give job `p` to `name`.
    pub fn assign(&mut self, p: Profession, name: &str)
        requires
            old(self).wf(),
        ensures
            final(self).wf(),
            final(self).holder_spec(p) == Some(name@),
            forall|q: Profession| q != p ==> #[trigger] final(self).holder_spec(q) == old(self).holder_spec(q),
    {
        self.holders.set(p.slot(), Some(name.to_owned()));
    }

    /// Job `p` falls vacant.
    pub fn vacate(&mut self, p: Profession)
        requires
            old(self).wf(),
        ensures
            final(self).wf(),
            final(self).holder_spec(p) is None,
            forall|q: Profession| q != p ==> #[trigger] final(self).holder_spec(q) == old(self).holder_spec(q),
    {
        self.holders.set(p.slot(), None);
    }
}

/// All goods stocks of the village.
#[derive(Clone, Copy, Debug, PartialEq, Eq, Structural)]
pub struct Market {
    pub farm_grain: u32,
    pub bakery_grain: u32,
    pub bakery_bread: u32,
    pub stall_fish: u32,
    pub tavern_bread: u32,
    pub tavern_fish: u32,
    pub tavern_ale: u32,
}

/// The opening stock.
pub open spec fn opening_stock() -> Market {
    Market {
        farm_grain: 10,
        bakery_grain: 4,
        bakery_bread: 8,
        stall_fish: 4,
        tavern_bread: 2,
        tavern_fish: 2,
        tavern_ale: 6,
    }
}

impl Default for Market {
    /// The opening stock.
    fn default() -> (r: Self)
        ensures
            r == opening_stock(),
            r == (Market {
                farm_grain: 10,
                bakery_grain: 4,
                bakery_bread: 8,
                stall_fish: 4,
                tavern_bread: 2,
                tavern_fish: 2,
                tavern_ale: 6,
            }),
    {
        Market {
            farm_grain: 10,
            bakery_grain: 4,
            bakery_bread: 8,
            stall_fish: 4,
            tavern_bread: 2,
            tavern_fish: 2,
            tavern_ale: 6,
        }
    }
}

/// Room in every stock for one more call's goods (at most 16 units: an
/// hour's harvest, baking or catch, or a morning restock), below `u32::MAX`.
pub open spec fn market_roomy(m: Market) -> bool {
    &&& m.farm_grain <= u32::MAX - 16
    &&& m.bakery_grain <= u32::MAX - 16
    &&& m.bakery_bread <= u32::MAX - 16
    &&& m.stall_fish <= u32::MAX - 16
    &&& m.tavern_bread <= u32::MAX - 16
    &&& m.tavern_fish <= u32::MAX - 16
    &&& m.tavern_ale <= u32::MAX - 16
}

/// Counters of the current day, and lifetime counters for evolution fitness.
#[derive(Clone, Copy, Debug, PartialEq, Eq, Structural, Default)]
pub struct DailyStats {
    pub meals: u32,
    pub suppers: u32,
    pub ales_sold: u32,
    pub grain_grown: u32,
    pub fish_caught: u32,
    pub bread_baked: u32,
    pub total_meals: u64,
    pub total_ales: u64,
    pub total_starving_episodes: u64,
}

/// Room in every counter for one more call's events (at most 16), below
/// the counter type's maximum.
pub open spec fn stats_roomy(s: DailyStats) -> bool {
    &&& s.meals <= u32::MAX - 16 && s.suppers <= u32::MAX - 16 && s.ales_sold <= u32::MAX - 16
    &&& s.grain_grown <= u32::MAX - 16 && s.fish_caught <= u32::MAX - 16 && s.bread_baked <= u32::MAX - 16
    &&& s.total_meals <= u64::MAX - 16 && s.total_ales <= u64::MAX - 16
    &&& s.total_starving_episodes <= u64::MAX - 16
}

/// The counters at the start of a new day: the day's counters at zero, the
/// lifetime totals carried on.
pub open spec fn day_reset(s: DailyStats) -> DailyStats {
    DailyStats {
        meals: 0,
        suppers: 0,
        ales_sold: 0,
        grain_grown: 0,
        fish_caught: 0,
        bread_baked: 0,
        total_meals: s.total_meals,
        total_ales: s.total_ales,
        total_starving_episodes: s.total_starving_episodes,
    }
}

/// A new day: the day's counters start again from zero; the lifetime
/// totals carry on.
pub fn start_new_day(stats: &mut DailyStats)
    ensures
        *final(stats) == day_reset(*old(stats)),
{
    *stats = DailyStats {
        meals: 0,
        suppers: 0,
        ales_sold: 0,
        grain_grown: 0,
        fish_caught: 0,
        bread_baked: 0,
        total_meals: stats.total_meals,
        total_ales: stats.total_ales,
        total_starving_episodes: stats.total_starving_episodes,
    };
}

/// Where a meal comes from.
#[derive(Clone, Copy, Debug, PartialEq, Eq, Structural)]
pub enum MealSource {
    Bakery,
    FishStall,
    Tavern,
}

impl MealSource {
    pub fn label(self) -> (r: &'static str)
        ensures
            r@ == (match self {
                MealSource::Bakery => "bread"@,
                MealSource::FishStall => "fish"@,
                MealSource::Tavern => "supper"@,
            }),
    {
        match self {
            MealSource::Bakery => "bread",
            MealSource::FishStall => "fish",
            MealSource::Tavern => "supper",
        }
    }

    /// The job that sells this kind of meal.
    pub fn seller_job(self) -> (r: Profession)
        ensures
            r == seller_job_spec(self),
    {
        match self {
            MealSource::Bakery => Profession::Baker,
            MealSource::FishStall => Profession::Fisher,
            MealSource::Tavern => Profession::TavernKeeper,
        }
    }
}

pub open spec fn seller_job_spec(s: MealSource) -> Profession {
    match s {
        MealSource::Bakery => Profession::Baker,
        MealSource::FishStall => Profession::Fisher,
        MealSource::Tavern => Profession::TavernKeeper,
    }
}

/// Where this villager would eat now, if anywhere: producers eat their own
/// stock for free; others go to the tavern in the evening when their purse
/// feels comfortable (`comfort`), otherwise to the cheapest stocked option
/// they can afford, and to the tavern as a last resort.
pub open spec fn meal_spec(profession: Profession, comfort: i64, hour: u64, purse: i64, m: Market, roster: Roster, g: Genome) -> Option<(MealSource, i64)> {
    let tavern_stocked = m.tavern_bread + m.tavern_fish > 0;
    let tavern_open = TAVERN_OPEN_HOUR <= hour < TAVERN_CLOSE_HOUR && roster.holder_spec(Profession::TavernKeeper) is Some
        && tavern_stocked;
    if profession == Profession::Baker && m.bakery_bread > 0 {
        Some((MealSource::Bakery, 0i64))
    } else if profession == Profession::Fisher && m.stall_fish > 0 {
        Some((MealSource::FishStall, 0i64))
    } else if profession == Profession::TavernKeeper && tavern_stocked {
        Some((MealSource::Tavern, 0i64))
    } else if tavern_open && purse >= comfort {
        Some((MealSource::Tavern, g.price_supper))
    } else if m.stall_fish > 0 && roster.holder_spec(Profession::Fisher) is Some && purse >= g.price_fish {
        Some((MealSource::FishStall, g.price_fish))
    } else if m.bakery_bread > 0 && roster.holder_spec(Profession::Baker) is Some && purse >= g.price_bread {
        Some((MealSource::Bakery, g.price_bread))
    } else if tavern_open && purse >= g.price_supper {
        Some((MealSource::Tavern, g.price_supper))
    } else {
        None
    }
}

/// A villager is offered a meal whenever some stocked option is within
/// reach: bread at the bakery, fish at the stall (each with its seller on
/// the roster and the purse covering the price), or supper at an open,
/// stocked tavern the purse can pay for; producers eat their own stock.
pub proof fn law_meal_offered_when_affordable(profession: Profession, comfort: i64, hour: u64, purse: i64, m: Market, roster: Roster, g: Genome)
    requires
        (m.bakery_bread > 0 && roster.holder_spec(Profession::Baker) is Some && purse >= g.price_bread)
            || (m.stall_fish > 0 && roster.holder_spec(Profession::Fisher) is Some && purse >= g.price_fish)
            || (TAVERN_OPEN_HOUR <= hour < TAVERN_CLOSE_HOUR && roster.holder_spec(Profession::TavernKeeper) is Some
                && m.tavern_bread + m.tavern_fish > 0 && purse >= g.price_supper)
            || (profession == Profession::Baker && m.bakery_bread > 0)
            || (profession == Profession::Fisher && m.stall_fish > 0)
            || (profession == Profession::TavernKeeper && m.tavern_bread + m.tavern_fish > 0),
    ensures
        meal_spec(profession, comfort, hour, purse, m, roster, g) is Some,
{
}

/// An offered meal is one that can be had: its source is stocked, and it is
/// either free (a producer at their own stock) or sold at that source's
/// price by a seller on the roster; bread and fish only within the purse,
/// supper only while the tavern is open and the purse feels comfortable or
/// covers it.
pub proof fn law_meal_offer_is_sound(profession: Profession, comfort: i64, hour: u64, purse: i64, m: Market, roster: Roster, g: Genome)
    requires
        g.price_bread > 0 && g.price_fish > 0 && g.price_supper > 0,
    ensures
        meal_spec(profession, comfort, hour, purse, m, roster, g) matches Some((source, price)) ==> {
            &&& meal_in_stock(m, source)
            &&& price == 0 ==> source == produce_of(profession)
            &&& price != 0 ==> roster.holder_spec(seller_job_spec(source)) is Some
            &&& price != 0 && source == MealSource::Bakery ==> price == g.price_bread && price <= purse
            &&& price != 0 && source == MealSource::FishStall ==> price == g.price_fish && price <= purse
            &&& price != 0 && source == MealSource::Tavern ==> price == g.price_supper && TAVERN_OPEN_HOUR <= hour < TAVERN_CLOSE_HOUR
                && (purse >= comfort || purse >= price)
        },
{
}

/// Where a producer gets their own food (others have none).
pub open spec fn produce_of(p: Profession) -> MealSource {
    match p {
        Profession::Baker => MealSource::Bakery,
        Profession::Fisher => MealSource::FishStall,
        _ => MealSource::Tavern,
    }
}

/// Where this villager would eat right now, and at what price.
pub fn meal_option(profession: Profession, comfort: i64, hour: u64, purse: i64, market: &Market, roster: &Roster, genome: &Genome) -> (r: Option<(MealSource, i64)>)
    requires
        roster.wf(),
    ensures
        r == meal_spec(profession, comfort, hour, purse, *market, *roster, *genome),
{
    let tavern_stocked = market.tavern_bread as u64 + market.tavern_fish as u64 > 0;
    if profession == Profession::Baker && market.bakery_bread > 0 {
        return Some((MealSource::Bakery, 0));
    }
    if profession == Profession::Fisher && market.stall_fish > 0 {
        return Some((MealSource::FishStall, 0));
    }
    if profession == Profession::TavernKeeper && tavern_stocked {
        return Some((MealSource::Tavern, 0));
    }
    let tavern_open = TAVERN_OPEN_HOUR <= hour && hour < TAVERN_CLOSE_HOUR && roster.holder(Profession::TavernKeeper).is_some()
        && tavern_stocked;
    if tavern_open && purse >= comfort {
        return Some((MealSource::Tavern, genome.price_supper));
    }
    if market.stall_fish > 0 && roster.holder(Profession::Fisher).is_some() && purse >= genome.price_fish {
        return Some((MealSource::FishStall, genome.price_fish));
    }
    if market.bakery_bread > 0 && roster.holder(Profession::Baker).is_some() && purse >= genome.price_bread {
        return Some((MealSource::Bakery, genome.price_bread));
    }
    if tavern_open && purse >= genome.price_supper {
        return Some((MealSource::Tavern, genome.price_supper));
    }
    None
}

/// A completed sale, for the event log.
#[derive(Clone, Debug)]
pub struct Purchase {
    pub buyer: String,
    pub seller: String,
    pub good: String,
    pub price: i64,
}

/// The ledger is well formed and solvent.
pub open spec fn ledger_ok(l: Ledger) -> bool {
    l.wf() && l.solvent()
}

/// Everything but the purses of `a` and `b` is as before.
pub open spec fn only_moved(before: Ledger, after: Ledger, a: Seq<char>, b: Seq<char>) -> bool {
    &&& after.total_spec() == before.total_spec()
    &&& after.treasury_spec() == before.treasury_spec()
    &&& forall|k: Seq<char>| k != a && k != b ==> (#[trigger] after.has(k) == before.has(k) && after.bal(k) == before.bal(k))
}

/// What buying a meal does to the stocks.
pub open spec fn meal_stock_after(m: Market, source: MealSource) -> Market {
    match source {
        MealSource::Bakery => Market { bakery_bread: (m.bakery_bread - 1) as u32, ..m },
        MealSource::FishStall => Market { stall_fish: (m.stall_fish - 1) as u32, ..m },
        MealSource::Tavern => if m.tavern_bread > 0 {
            Market { tavern_bread: (m.tavern_bread - 1) as u32, ..m }
        } else {
            Market { tavern_fish: (m.tavern_fish - 1) as u32, ..m }
        },
    }
}

/// The meal is in stock.
pub open spec fn meal_in_stock(m: Market, source: MealSource) -> bool {
    match source {
        MealSource::Bakery => m.bakery_bread > 0,
        MealSource::FishStall => m.stall_fish > 0,
        MealSource::Tavern => m.tavern_bread > 0 || m.tavern_fish > 0,
    }
}

impl Market {
    /// Whether a meal from `source` is in stock.
    pub fn has_meal(&self, source: MealSource) -> (r: bool)
        ensures
            r == meal_in_stock(*self, source),
    {
        match source {
            MealSource::Bakery => self.bakery_bread > 0,
            MealSource::FishStall => self.stall_fish > 0,
            MealSource::Tavern => self.tavern_bread > 0 || self.tavern_fish > 0,
        }
    }
}

/// What buying a meal does: stocks `m0`/`m1`, ledger `l0`/`l1` and counters
/// `s0`/`s1` before and after, `r` the sale.
pub open spec fn meal_done(buyer: Seq<char>, source: MealSource, price: i64, roster: Roster, m0: Market, m1: Market, l0: Ledger, l1: Ledger, s0: DailyStats, s1: DailyStats, r: Option<Purchase>) -> bool {
    &&& ledger_ok(l1)
    &&& l1.total_spec() == l0.total_spec()
    &&& ({
        let seller = roster.holder_spec(seller_job_spec(source));
        let paid = seller is Some && (price <= 0 || l0.bal(buyer) >= price);
        &&& r is Some == paid
        &&& !paid ==> l1 == l0 && m1 == m0 && s1 == s0
        &&& paid ==> m1 == meal_stock_after(m0, source)
        &&& paid ==> r->0.seller@ == seller->0 && r->0.buyer@ == buyer && r->0.price == price
        &&& paid && price > 0 && buyer != seller->0 ==> l1.bal(buyer) == l0.bal(buyer) - price
            && l1.bal(seller->0) == l0.bal(seller->0) + price
        &&& paid && price > 0 ==> only_moved(l0, l1, buyer, seller->0)
        &&& paid && price > 0 && buyer == seller->0 ==> l1.bal(buyer) == l0.bal(buyer)
        &&& paid && price <= 0 ==> l1 == l0
        &&& paid ==> s1.suppers == s0.suppers + (if source == MealSource::Tavern && price > 0 { 1int } else { 0 })
    })
}

/// Buy the meal `meal_option` chose: money to the seller, goods out of stock.
/// A price of 0 is a producer eating their own stock. Returns the sale, or
/// `None` when there is no seller or the buyer cannot pay.
pub fn buy_meal(buyer: &str, source: MealSource, price: i64, market: &mut Market, ledger: &mut Ledger, roster: &Roster, stats: &mut DailyStats) -> (r: Option<Purchase>)
    requires
        roster.wf(),
        ledger_ok(*old(ledger)),
        meal_in_stock(*old(market), source),
        stats_roomy(*old(stats)),
    ensures
        meal_done(buyer@, source, price, *roster, *old(market), *final(market), *old(ledger), *final(ledger), *old(stats), *final(stats), r),

{
    let seller = match roster.holder(source.seller_job()) {
        Some(s) => s,
        None => {
            return None;
        },
    };
    if price > 0 {
        proof {
            old(ledger).lemma_solvent_bounds();
        }
        if !ledger.transfer(buyer, seller, price) {
            return None;
        }
    }
    match source {
        MealSource::Bakery => {
            market.bakery_bread = market.bakery_bread - 1;
        },
        MealSource::FishStall => {
            market.stall_fish = market.stall_fish - 1;
        },
        MealSource::Tavern => {
            if market.tavern_bread > 0 {
                market.tavern_bread = market.tavern_bread - 1;
            } else {
                market.tavern_fish = market.tavern_fish - 1;
            }
            if price > 0 {
                stats.suppers = stats.suppers + 1;
            }
        },
    }
    let label = source.label();
    Some(Purchase { buyer: buyer.to_owned(), seller: seller.to_owned(), good: label.to_owned(), price })
}


/// A tavern visit's drink.
#[derive(Clone, Debug)]
pub enum AleVisit {
    /// No ale poured: none in stock, no keeper, or the drinker is too careful
    /// or too poor.
    NoAle,
    /// The keeper drinks from his own stock.
    OwnStock,
    /// A paid ale.
    Bought(Purchase),
}

/// What a tavern visit's drink does: stocks `m0`/`m1`, ledger `l0`/`l1` and
/// counters `s0`/`s1` before and after, `r` the outcome.
pub open spec fn ale_done(buyer: Seq<char>, profession: Profession, buffer: i64, purse: i64, roster: Roster, genome: Genome, m0: Market, m1: Market, l0: Ledger, l1: Ledger, s0: DailyStats, s1: DailyStats, r: AleVisit) -> bool {
    &&& ledger_ok(l1)
    &&& l1.total_spec() == l0.total_spec()
    &&& m0.tavern_ale == 0 ==> r is NoAle
    &&& r is NoAle ==> l1 == l0 && m1 == m0 && s1 == s0
    &&& r is OwnStock <==> (m0.tavern_ale > 0 && profession == Profession::TavernKeeper)
    &&& r is OwnStock ==> l1 == l0 && m1.tavern_ale == m0.tavern_ale - 1
    &&& r is Bought <==> ({
        let keeper = roster.holder_spec(Profession::TavernKeeper);
        &&& m0.tavern_ale > 0 && profession != Profession::TavernKeeper && keeper is Some
        &&& purse >= genome.price_ale + buffer && l0.bal(buyer) >= genome.price_ale
    })
    &&& r matches AleVisit::Bought(p) ==> {
        let keeper = roster.holder_spec(Profession::TavernKeeper)->0;
        &&& p.seller@ == keeper && p.buyer@ == buyer && p.price == genome.price_ale
        &&& m1 == (Market { tavern_ale: (m0.tavern_ale - 1) as u32, ..m0 })
        &&& s1.ales_sold == s0.ales_sold + 1 && s1.total_ales == s0.total_ales + 1
        &&& only_moved(l0, l1, buyer, keeper)
        &&& buyer != keeper ==> l1.bal(buyer) == l0.bal(buyer) - genome.price_ale
            && l1.bal(keeper) == l0.bal(keeper) + genome.price_ale
    }
}

/// Buy an ale for a tavern visit. Frugal villagers want `buffer` coins on
/// top of the price in their `purse` before they spend on drink.
pub fn buy_ale(buyer: &str, profession: Profession, buffer: i64, purse: i64, market: &mut Market, ledger: &mut Ledger, roster: &Roster, genome: &Genome, stats: &mut DailyStats) -> (r: AleVisit)
    requires
        roster.wf(),
        genome.wf(),
        ledger_ok(*old(ledger)),
        stats_roomy(*old(stats)),
        -0x1000_0000_0000 <= buffer <= 0x1000_0000_0000,
    ensures
        ale_done(buyer@, profession, buffer, purse, *roster, *genome, *old(market), *final(market), *old(ledger), *final(ledger), *old(stats), *final(stats), r),

{
    if market.tavern_ale == 0 {
        return AleVisit::NoAle;
    }
    if profession == Profession::TavernKeeper {
        market.tavern_ale = market.tavern_ale - 1;
        return AleVisit::OwnStock;
    }
    let keeper = match roster.holder(Profession::TavernKeeper) {
        Some(k) => k,
        None => {
            return AleVisit::NoAle;
        },
    };
    proof {
        old(ledger).lemma_solvent_bounds();
        assert(2 <= genome.field_spec(3) <= 24);
    }
    if purse < genome.price_ale + buffer {
        return AleVisit::NoAle;
    }
    if !ledger.transfer(buyer, keeper, genome.price_ale) {
        return AleVisit::NoAle;
    }
    market.tavern_ale = market.tavern_ale - 1;
    stats.ales_sold = stats.ales_sold + 1;
    stats.total_ales = stats.total_ales + 1;
    AleVisit::Bought(Purchase { buyer: buyer.to_owned(), seller: keeper.to_owned(), good: "ale".to_owned(), price: genome.price_ale })
}


/// What one completed work hour produced and paid.
#[derive(Clone, Debug)]
pub struct WorkReport {
    /// Farmhand's wage: the farmer and whether the wage was paid.
    pub wage: Option<(String, bool)>,
    /// Grain the baker bought from the farmer.
    pub grain_bought: Option<Purchase>,
    /// Fish caught.
    pub caught: u32,
    /// Loaves baked.
    pub baked: u32,
}

/// Grain grown by an hour on the farm (nothing under blight).
pub open spec fn grown(blight: bool) -> u32 {
    if blight { 0 } else { GRAIN_PER_HOUR }
}

/// What the baker can afford of grain at `price` each with `purse` coins,
/// the count taken to 32 bits.
pub open spec fn affordable_grain(purse: int, price: int) -> u32 {
    (if purse / price >= 0 { purse / price } else { 0 }) as u32
}

/// The smallest of three counts.
pub open spec fn min3(a: u32, b: u32, c: u32) -> u32 {
    let ab = if a <= b { a } else { b };
    if ab <= c { ab } else { c }
}

fn min_u32(a: u32, b: u32) -> (r: u32)
    ensures
        r == (if a <= b { a } else { b }),
{
    if a <= b { a } else { b }
}

/// Grain the baker buys before an hour of baking: what the hour needs, as
/// far as the farm's stock and the purse `bal` at `price` allow.
pub open spec fn baker_purchase(m: Market, roster: Roster, bal: int, price: int) -> u32 {
    if m.bakery_grain < BREAD_PER_HOUR * GRAIN_PER_BREAD && roster.holder_spec(Profession::Farmer) is Some {
        min3((BREAD_PER_HOUR * GRAIN_PER_BREAD - m.bakery_grain) as u32, m.farm_grain, affordable_grain(bal, price))
    } else {
        0
    }
}

/// Loaves an hour bakes from `grain`.
pub open spec fn loaves(grain: int) -> int {
    if BREAD_PER_HOUR <= grain / 2 {
        BREAD_PER_HOUR as int
    } else {
        grain / 2
    }
}

/// One hour at the bakery, from before to after.
pub open spec fn baked_hour(m0: Market, m1: Market, l0: Ledger, l1: Ledger, s0: DailyStats, s1: DailyStats, roster: Roster, g: Genome, name: Seq<char>, r: WorkReport) -> bool {
    let amount = baker_purchase(m0, roster, l0.bal(name), g.price_grain as int);
    let grain = m0.bakery_grain + amount;
    &&& (amount > 0) == r.grain_bought is Some
    &&& m1.farm_grain == m0.farm_grain - amount
    &&& m1.bakery_grain == grain - loaves(grain) * GRAIN_PER_BREAD
    &&& m1.bakery_bread == m0.bakery_bread + loaves(grain)
    &&& r.baked == loaves(grain) && s1.bread_baked == s0.bread_baked + loaves(grain)
    &&& amount > 0 ==> only_moved(l0, l1, name, roster.holder_spec(Profession::Farmer)->0)
        && r.grain_bought->0.price == amount * g.price_grain
    &&& amount == 0 ==> l1 == l0
    &&& m1.stall_fish == m0.stall_fish && m1.tavern_ale == m0.tavern_ale
    &&& m1.tavern_bread == m0.tavern_bread && m1.tavern_fish == m0.tavern_fish
}

/// An hour at the bakery: buy the grain the hour needs, then bake.
fn bake_hour(name: &str, market: &mut Market, ledger: &mut Ledger, roster: &Roster, genome: &Genome, stats: &mut DailyStats) -> (r: WorkReport)
    requires
        roster.wf(),
        genome.wf(),
        ledger_ok(*old(ledger)),
        market_roomy(*old(market)),
        stats_roomy(*old(stats)),
    ensures
        ledger_ok(*final(ledger)),
        final(ledger).total_spec() == old(ledger).total_spec(),
        final(ledger).treasury_spec() == old(ledger).treasury_spec(),
        baked_hour(*old(market), *final(market), *old(ledger), *final(ledger), *old(stats), *final(stats), *roster, *genome, name@, r),
        r.wage is None && r.caught == 0,
        final(stats).grain_grown == old(stats).grain_grown && final(stats).fish_caught == old(stats).fish_caught,
{
    let mut bought: Option<Purchase> = None;
    let want = BREAD_PER_HOUR * GRAIN_PER_BREAD;
    if market.bakery_grain < want {
        match roster.holder(Profession::Farmer) {
            Some(farmer) => {
                proof {
                    old(ledger).lemma_solvent_bounds();
                    assert(1 <= genome.field_spec(0) <= 8);
                }
                let short = want - market.bakery_grain;
                let per = ledger.balance(name) / genome.price_grain;
                let nonneg = if per >= 0 { per } else { 0 };
                let affordable = #[verifier::truncate] (nonneg as u32);
                let amount = min_u32(min_u32(short, market.farm_grain), affordable);
                if amount > 0 {
                    assert(amount <= 8);
                    assert(1 <= genome.price_grain <= 8);
                    assert(0 <= amount * genome.price_grain <= 64) by (nonlinear_arith)
                        requires
                            amount <= 8,
                            1 <= genome.price_grain <= 8,
                    ;
                    let cost = amount as i64 * genome.price_grain;
                    proof {
                        let bal = ledger.bal(name@);
                        assert(bal >= 0);
                        assert(per == bal / (genome.price_grain as int));
                        assert(per >= 0) by (nonlinear_arith)
                            requires
                                bal >= 0,
                                genome.price_grain >= 1,
                                per == bal / (genome.price_grain as int),
                        ;
                        if nonneg > 0xffff_ffff {
                            assert(amount <= nonneg);
                        } else {
                            assert(affordable == nonneg);
                        }
                        assert(amount * genome.price_grain <= per * genome.price_grain) by (nonlinear_arith)
                            requires
                                amount <= per,
                                genome.price_grain >= 1,
                        ;
                        assert(per * genome.price_grain <= bal) by (nonlinear_arith)
                            requires
                                bal >= 0,
                                genome.price_grain >= 1,
                                per == bal / (genome.price_grain as int),
                        ;
                    }
                    if ledger.transfer(name, farmer, cost) {
                        market.farm_grain = market.farm_grain - amount;
                        market.bakery_grain = market.bakery_grain + amount;
                        let mut good = "grain x".to_owned();
                        crate::text::push_decimal(&mut good, amount as u64);
                        bought = Some(Purchase { buyer: name.to_owned(), seller: farmer.to_owned(), good, price: cost });
                    }
                }
            },
            None => {},
        }
    }
    let by_grain = market.bakery_grain / GRAIN_PER_BREAD;
    let baked = if BREAD_PER_HOUR <= by_grain { BREAD_PER_HOUR } else { by_grain };
    market.bakery_grain = market.bakery_grain - baked * GRAIN_PER_BREAD;
    market.bakery_bread = market.bakery_bread + baked;
    stats.bread_baked = stats.bread_baked + baked;
    WorkReport { wage: None, grain_bought: bought, caught: 0, baked }

}

/// What one completed work hour of `name` does: stocks `m0`/`m1`, ledger
/// `l0`/`l1`, counters `s0`/`s1` and the draw log `d0`/`d1` before and after,
/// `r` the report.
pub open spec fn work_done(name: Seq<char>, profession: Profession, roster: Roster, genome: Genome, blight: bool, m0: Market, m1: Market, l0: Ledger, l1: Ledger, s0: DailyStats, s1: DailyStats, d0: Seq<Draw>, d1: Seq<Draw>, r: WorkReport) -> bool {
    &&& ledger_ok(l1)
    &&& l1.total_spec() == l0.total_spec()
    &&& l1.treasury_spec() == l0.treasury_spec()
    &&& (profession == Profession::Farmer || profession == Profession::Farmhand) ==> {
        &&& m1.farm_grain == m0.farm_grain + grown(blight)
        &&& s1.grain_grown == s0.grain_grown + grown(blight)
    }
    &&& profession == Profession::Farmhand ==> match roster.holder_spec(Profession::Farmer) {
        None => r.wage is None && l1 == l0,
        Some(farmer) => {
            let paid = l0.bal(farmer) >= genome.farmhand_wage;
            &&& r.wage is Some && (r.wage->0).0@ == farmer && (r.wage->0).1 == paid
            &&& !paid ==> l1 == l0
            &&& paid && farmer != name ==> l1.bal(farmer) == l0.bal(farmer) - genome.farmhand_wage
                && l1.bal(name) == l0.bal(name) + genome.farmhand_wage
            &&& paid ==> only_moved(l0, l1, farmer, name)
        },
    }
    &&& profession == Profession::Fisher ==> {
        &&& blight ==> r.caught == 0
        &&& !blight ==> FISH_PER_HOUR_MIN <= r.caught <= FISH_PER_HOUR_MAX
        &&& m1.stall_fish == m0.stall_fish + r.caught
        &&& s1.fish_caught == s0.fish_caught + r.caught
        &&& l1 == l0
    }
    &&& profession == Profession::Baker ==> baked_hour(m0, m1, l0, l1, s0, s1, roster, genome, name, r)
    &&& (profession != Profession::Farmer && profession != Profession::Farmhand && profession != Profession::Fisher
        && profession != Profession::Baker) ==> l1 == l0 && m1 == m0
        && s1 == s0
    &&& d1 == if profession == Profession::Fisher && !blight {
        d0.push(Draw::Count(FISH_PER_HOUR_MIN, FISH_PER_HOUR_MAX))
    } else {
        d0
    }
}

/// Production and pay of one completed work hour. Farm work grows grain
/// (unless blighted) and the farmhand is paid by the farmer; fishing lands
/// 2 or 3 fish; the baker first buys the grain the hour needs from the farm,
/// as far as purse and farm allow, then bakes what the grain makes.
pub fn complete_work_hour(name: &str, profession: Profession, market: &mut Market, ledger: &mut Ledger, roster: &Roster, genome: &Genome, rng: &mut SimRng, blight: bool, stats: &mut DailyStats) -> (r: WorkReport)
    requires
        roster.wf(),
        genome.wf(),
        ledger_ok(*old(ledger)),
        market_roomy(*old(market)),
        stats_roomy(*old(stats)),
    ensures
        work_done(name@, profession, *roster, *genome, blight, *old(market), *final(market), *old(ledger), *final(ledger), *old(stats), *final(stats), old(rng).draws(), final(rng).draws(), r),

{
    let mut report = WorkReport { wage: None, grain_bought: None, caught: 0, baked: 0 };
    match profession {
        Profession::Farmer => {
            if !blight {
                market.farm_grain = market.farm_grain + GRAIN_PER_HOUR;
                stats.grain_grown = stats.grain_grown + GRAIN_PER_HOUR;
            }
        },
        Profession::Farmhand => {
            if !blight {
                market.farm_grain = market.farm_grain + GRAIN_PER_HOUR;
                stats.grain_grown = stats.grain_grown + GRAIN_PER_HOUR;
            }
            match roster.holder(Profession::Farmer) {
                Some(farmer) => {
                    proof {
                        old(ledger).lemma_solvent_bounds();
                        assert(1 <= genome.field_spec(10) <= 15);
                    }
                    let paid = ledger.transfer(farmer, name, genome.farmhand_wage);
                    report.wage = Some((farmer.to_owned(), paid));
                },
                None => {},
            }
        },
        Profession::Fisher => {
            if !blight {
                let caught = rng.count_in(FISH_PER_HOUR_MIN, FISH_PER_HOUR_MAX);
                market.stall_fish = market.stall_fish + caught;
                stats.fish_caught = stats.fish_caught + caught;
                report.caught = caught;
            }
        },
        Profession::Baker => {
            report = bake_hour(name, market, ledger, roster, genome, stats);
        },
        Profession::TavernKeeper | Profession::Guard | Profession::Mayor | Profession::Elder => {},
    }
    report
}


/// How much stock the keeper buys: what is wanted, as far as the supplier's
/// stock and the spendable cash at `unit` coins apiece allow (the quotient
/// narrowed to 32 bits); nothing without a supplier.
pub open spec fn restock_amount(want: u32, supply: u32, has_seller: bool, spendable: int, unit: int) -> u32 {
    if want > 0 && has_seller {
        min3(want, supply, (spendable / unit) as u32)
    } else {
        0
    }
}

/// Cash above the keeper's reserve.
pub open spec fn spendable_of(bal: int) -> int {
    if bal - KEEPER_CASH_RESERVE > 0 { bal - KEEPER_CASH_RESERVE } else { 0 }
}

/// `l1` differs from `l0` only by `keeper` paying `seller` `cost`.
pub open spec fn paid_for_stock(l0: Ledger, l1: Ledger, keeper: Seq<char>, seller: Seq<char>, cost: int) -> bool {
    &&& only_moved(l0, l1, keeper, seller)
    &&& keeper != seller ==> l1.bal(keeper) == l0.bal(keeper) - cost && l1.bal(seller) == l0.bal(seller) + cost
    &&& keeper == seller ==> l1.bal(keeper) == l0.bal(keeper)
}

/// One restock purchase from the holder of `seller_job`; returns the amount
/// bought and the sale.
fn restock_from(ledger: &mut Ledger, roster: &Roster, keeper: &str, seller_job: Profession, want: u32, supply: u32, unit: i64, what: &str) -> (r: (u32, Option<Purchase>))
    requires
        roster.wf(),
        ledger_ok(*old(ledger)),
        1 <= unit <= 1000,
        want <= 1000,
    ensures
        ledger_ok(*final(ledger)),
        final(ledger).accounts_seq().len() <= old(ledger).accounts_seq().len() + 2,
        r.0 == restock_amount(want, supply, roster.holder_spec(seller_job) is Some, spendable_of(old(ledger).bal(keeper@)), unit as int),
        r.0 == 0 ==> *final(ledger) == *old(ledger) && r.1 is None,
        r.0 > 0 ==> paid_for_stock(*old(ledger), *final(ledger), keeper@, roster.holder_spec(seller_job)->0, r.0 * unit)
            && r.1 is Some && r.1->0.price == r.0 * unit,
        final(ledger).bal(keeper@) >= (if old(ledger).bal(keeper@) <= KEEPER_CASH_RESERVE { old(ledger).bal(keeper@) } else { KEEPER_CASH_RESERVE as int }),
{
    if want == 0 {
        return (0, None);
    }
    let seller = match roster.holder(seller_job) {
        Some(s) => s,
        None => {
            return (0, None);
        },
    };
    proof {
        old(ledger).lemma_solvent_bounds();
    }
    let bal = ledger.balance(keeper);
    let spendable = if bal - KEEPER_CASH_RESERVE > 0 { bal - KEEPER_CASH_RESERVE } else { 0 };
    let per = spendable / unit;
    let affordable = #[verifier::truncate] (per as u32);
    let amount = min_u32(min_u32(want, supply), affordable);
    if amount == 0 {
        return (0, None);
    }
    proof {
        assert(per >= 0) by (nonlinear_arith)
            requires
                spendable >= 0,
                unit >= 1,
                per == spendable / unit,
        ;
        if per > 0xffff_ffff {
            assert(amount <= per);
        } else {
            assert(affordable == per);
        }
        assert(amount * unit <= per * unit) by (nonlinear_arith)
            requires
                amount <= per,
                unit >= 1,
        ;
        assert(per * unit <= spendable) by (nonlinear_arith)
            requires
                spendable >= 0,
                unit >= 1,
                per == spendable / unit,
        ;
        assert(amount * unit <= 1000 * 1000) by (nonlinear_arith)
            requires
                amount <= 1000,
                1 <= unit <= 1000,
        ;
    }
    let cost = amount as i64 * unit;
    let ok = ledger.transfer(keeper, seller, cost);
    let mut good = what.to_owned();
    vstd::string::StringExecFns::append(&mut good, " x");
    crate::text::push_decimal(&mut good, amount as u64);
    (amount, Some(Purchase { buyer: keeper.to_owned(), seller: seller.to_owned(), good, price: cost }))
}

/// Stock moved from supplier to tavern: the pair's sum is unchanged and the
/// tavern's side did not shrink.
pub open spec fn stock_moved(supplier0: u32, tavern0: u32, supplier1: u32, tavern1: u32) -> bool {
    supplier1 + tavern1 == supplier0 + tavern0 && tavern1 >= tavern0
}

/// How many units short of `target` the tavern is.
pub open spec fn shortfall(target: u32, have: u32) -> u32 {
    if target > have { (target - have) as u32 } else { 0 }
}

/// The keeper's purse after buying `amount` at `unit` from `seller`
/// (nothing moves when the keeper sells to himself).
pub open spec fn keeper_after(bal: int, keeper: Seq<char>, seller: Option<Seq<char>>, amount: u32, unit: int) -> int {
    if amount > 0 && seller is Some && seller->0 != keeper { bal - amount * unit } else { bal }
}

/// The three morning purchases in order (grain, fish, bread), each sized
/// by what the keeper can still spend after the ones before it, and the
/// keeper's purse at the end.
pub open spec fn restock_plan(m: Market, g: Genome, roster: Roster, keeper: Seq<char>, bal0: int) -> (u32, u32, u32, int) {
    let farmer = roster.holder_spec(Profession::Farmer);
    let fisher = roster.holder_spec(Profession::Fisher);
    let baker = roster.holder_spec(Profession::Baker);
    let a1 = restock_amount((shortfall(TAVERN_TARGET_ALE, m.tavern_ale) * GRAIN_PER_ALE) as u32, m.farm_grain, farmer is Some, spendable_of(bal0), g.price_grain as int);
    let bal1 = keeper_after(bal0, keeper, farmer, a1, g.price_grain as int);
    let a2 = restock_amount(shortfall(TAVERN_TARGET_FISH, m.tavern_fish), m.stall_fish, fisher is Some, spendable_of(bal1), g.wholesale_fish as int);
    let bal2 = keeper_after(bal1, keeper, fisher, a2, g.wholesale_fish as int);
    let a3 = restock_amount(shortfall(TAVERN_TARGET_BREAD, m.tavern_bread), m.bakery_bread, baker is Some, spendable_of(bal2), g.wholesale_bread as int);
    (a1, a2, a3, keeper_after(bal2, keeper, baker, a3, g.wholesale_bread as int))
}

/// How many of the amounts are purchases.
pub open spec fn purchases_made(a1: u32, a2: u32, a3: u32) -> int {
    (if a1 > 0 { 1int } else { 0int }) + (if a2 > 0 { 1int } else { 0int }) + (if a3 > 0 { 1int } else { 0int })
}

/// What the morning restock call does: `m0`/`l0` before, `m1`/`l1` after,
/// `r` the sales reported.
pub open spec fn restock_done(minute_of_day: u64, genome: Genome, roster: Roster, m0: Market, m1: Market, l0: Ledger, l1: Ledger, r: Seq<Purchase>) -> bool {
    &&& ledger_ok(l1)
    &&& (minute_of_day != TAVERN_RESTOCK_HOUR * 60 || roster.holder_spec(Profession::TavernKeeper) is None) ==> r.len() == 0
        && l1 == l0 && m1 == m0
    &&& l1.total_spec() == l0.total_spec()
    &&& l1.treasury_spec() == l0.treasury_spec()
    &&& stock_moved(m0.farm_grain, m0.tavern_ale, m1.farm_grain, m1.tavern_ale)
    &&& stock_moved(m0.stall_fish, m0.tavern_fish, m1.stall_fish, m1.tavern_fish)
    &&& stock_moved(m0.bakery_bread, m0.tavern_bread, m1.bakery_bread, m1.tavern_bread)
    &&& m1.bakery_grain == m0.bakery_grain
    &&& roster.holder_spec(Profession::TavernKeeper) is Some ==> ({
        let k = roster.holder_spec(Profession::TavernKeeper)->0;
        l1.bal(k) >= (if l0.bal(k) <= KEEPER_CASH_RESERVE { l0.bal(k) } else { KEEPER_CASH_RESERVE as int })
    })
    &&& minute_of_day == TAVERN_RESTOCK_HOUR * 60 && roster.holder_spec(Profession::TavernKeeper) is Some ==> ({
        let k = roster.holder_spec(Profession::TavernKeeper)->0;
        let plan = restock_plan(m0, genome, roster, k, l0.bal(k));
        &&& m1.farm_grain == m0.farm_grain - plan.0
        &&& m1.tavern_ale == m0.tavern_ale + plan.0 / GRAIN_PER_ALE
        &&& m1.stall_fish == m0.stall_fish - plan.1
        &&& m1.tavern_fish == m0.tavern_fish + plan.1
        &&& m1.bakery_bread == m0.bakery_bread - plan.2
        &&& m1.tavern_bread == m0.tavern_bread + plan.2
        &&& l1.bal(k) == plan.3
        &&& r.len() == purchases_made(plan.0, plan.1, plan.2)
    })
}

/// The morning restock at the restock hour: the keeper buys grain to brew
/// ale (best margin first), then fish, then bread at wholesale, never
/// touching his cash reserve. Returns the sales made.
pub fn tavern_restock(minute_of_day: u64, genome: &Genome, market: &mut Market, ledger: &mut Ledger, roster: &Roster) -> (r: Vec<Purchase>)
    requires
        roster.wf(),
        genome.wf(),
        ledger_ok(*old(ledger)),
        market_roomy(*old(market)),
    ensures
        restock_done(minute_of_day, *genome, *roster, *old(market), *final(market), *old(ledger), *final(ledger), r@),

{
    let mut sales: Vec<Purchase> = Vec::new();
    if minute_of_day != TAVERN_RESTOCK_HOUR * 60 {
        return sales;
    }
    let keeper = match roster.holder(Profession::TavernKeeper) {
        Some(k) => k,
        None => {
            return sales;
        },
    };
    proof {
        assert(1 <= genome.field_spec(0) <= 8);
        assert(1 <= genome.field_spec(5) <= 24);
        assert(1 <= genome.field_spec(6) <= 20);
    }
    let want_ale = if TAVERN_TARGET_ALE > market.tavern_ale { TAVERN_TARGET_ALE - market.tavern_ale } else { 0 };
    let (grain, s1) = restock_from(ledger, roster, keeper, Profession::Farmer, want_ale * GRAIN_PER_ALE, market.farm_grain, genome.price_grain, "grain");
    if grain > 0 {
        market.farm_grain = market.farm_grain - grain;
        market.tavern_ale = market.tavern_ale + grain / GRAIN_PER_ALE;
    }
    if let Some(p) = s1 {
        sales.push(p);
    }
    let want_fish = if TAVERN_TARGET_FISH > market.tavern_fish { TAVERN_TARGET_FISH - market.tavern_fish } else { 0 };
    let (fish, s2) = restock_from(ledger, roster, keeper, Profession::Fisher, want_fish, market.stall_fish, genome.wholesale_fish, "fish");
    if fish > 0 {
        market.stall_fish = market.stall_fish - fish;
        market.tavern_fish = market.tavern_fish + fish;
    }
    if let Some(p) = s2 {
        sales.push(p);
    }
    let want_bread = if TAVERN_TARGET_BREAD > market.tavern_bread { TAVERN_TARGET_BREAD - market.tavern_bread } else { 0 };
    let (bread, s3) = restock_from(ledger, roster, keeper, Profession::Baker, want_bread, market.bakery_bread, genome.wholesale_bread, "bread");
    if bread > 0 {
        market.bakery_bread = market.bakery_bread - bread;
        market.tavern_bread = market.tavern_bread + bread;
    }
    if let Some(p) = s3 {
        sales.push(p);
    }
    sales
}


/// Something the daily fiscal event reports.
#[derive(Clone, Debug)]
pub enum FiscalEvent {
    /// A villager could not pay all the tax owed.
    UnpaidTax { npc: String, owed: i64 },
    SalaryPaid { npc: String, amount: i64 },
    /// The treasury could not pay a salary or pension.
    UnpaidSalary { npc: String },
}

/// The salary or pension the treasury owes a profession each day.
pub open spec fn salary_of(p: Profession, g: Genome) -> Option<i64> {
    match p {
        Profession::Guard => Some(g.salary_guard),
        Profession::Mayor => Some(g.salary_mayor),
        Profession::Elder => Some(g.pension_elder),
        _ => None,
    }
}

/// Tax owed by a purse of `bal`: the poll tax plus the wealth tax on what
/// lies above the threshold.
pub open spec fn tax_owed(bal: int, g: Genome) -> int {
    g.poll_tax + (if bal - g.wealth_tax_threshold > 0 { bal - g.wealth_tax_threshold } else { 0 }) / (g.wealth_tax_divisor as int)
}

/// The tax owed is the poll tax plus one coin for every full divisor's worth
/// of purse above the wealth threshold: nothing more at or below the
/// threshold, and a fuller purse never owes less.
pub proof fn law_tax_owed(bal: int, other: int, g: Genome)
    requires
        g.wealth_tax_divisor > 0,
    ensures
        bal <= g.wealth_tax_threshold ==> tax_owed(bal, g) == g.poll_tax,
        bal > g.wealth_tax_threshold ==> (tax_owed(bal, g) - g.poll_tax) * g.wealth_tax_divisor <= bal - g.wealth_tax_threshold
            < (tax_owed(bal, g) - g.poll_tax + 1) * g.wealth_tax_divisor,
        bal <= other ==> tax_owed(bal, g) <= tax_owed(other, g),
{
    let d = g.wealth_tax_divisor as int;
    let a = if bal - g.wealth_tax_threshold > 0 { bal - g.wealth_tax_threshold } else { 0 };
    let b = if other - g.wealth_tax_threshold > 0 { other - g.wealth_tax_threshold } else { 0 };
    assert(a / d * d <= a < (a / d + 1) * d) by (nonlinear_arith)
        requires
            d > 0,
            a >= 0,
    ;
    if bal <= other {
        assert(a <= b);
        assert(a / d <= b / d) by (nonlinear_arith)
            requires
                d > 0,
                0 <= a <= b,
        ;
    }
}

/// A fiscal report as `(kind, villager, amount)`: kind 0 is an unpaid tax
/// (amount: the shortfall), 1 a paid salary, 2 an unpaid salary.
pub open spec fn note_of(e: FiscalEvent) -> (int, Seq<char>, int) {
    match e {
        FiscalEvent::UnpaidTax { npc, owed } => (0, npc@, owed as int),
        FiscalEvent::SalaryPaid { npc, amount } => (1, npc@, amount as int),
        FiscalEvent::UnpaidSalary { npc } => (2, npc@, 0),
    }
}

/// Purses (by name), treasury and reports after taxing `names` in order,
/// starting from purses `bal` and treasury `treasury`. Each villager pays
/// what is owed, or all of the purse when that is less; a shortfall is
/// reported.
pub open spec fn taxes_spec(bal: spec_fn(Seq<char>) -> int, treasury: int, g: Genome, names: Seq<Seq<char>>) -> (
    spec_fn(Seq<char>) -> int,
    int,
    Seq<(int, Seq<char>, int)>,
)
    decreases names.len(),
{
    if names.len() == 0 {
        (bal, treasury, Seq::empty())
    } else {
        let prev = taxes_spec(bal, treasury, g, names.drop_last());
        let who = names.last();
        let owed = tax_owed(prev.0(who), g);
        let paid = crate::economy::spec_tax_paid(owed, prev.0(who));
        (
            |k: Seq<char>| if k == who { prev.0(k) - paid } else { prev.0(k) },
            prev.1 + paid,
            if paid < owed { prev.2.push((0, who, owed - paid)) } else { prev.2 },
        )
    }
}

/// Purses, treasury and reports after paying the salaries and pensions of
/// `npcs` in order: each is paid from the treasury if it can afford it, and
/// reported unpaid otherwise.
pub open spec fn salaries_spec(bal: spec_fn(Seq<char>) -> int, treasury: int, g: Genome, npcs: Seq<(Seq<char>, Profession)>) -> (
    spec_fn(Seq<char>) -> int,
    int,
    Seq<(int, Seq<char>, int)>,
)
    decreases npcs.len(),
{
    if npcs.len() == 0 {
        (bal, treasury, Seq::empty())
    } else {
        let prev = salaries_spec(bal, treasury, g, npcs.drop_last());
        let who = npcs.last().0;
        match salary_of(npcs.last().1, g) {
            None => prev,
            Some(amount) => if prev.1 >= amount {
                (|k: Seq<char>| if k == who { prev.0(k) + amount } else { prev.0(k) }, prev.1 - amount, prev.2.push((1, who, amount as int)))
            } else {
                (prev.0, prev.1, prev.2.push((2, who, 0)))
            },
        }
    }
}

/// Names and professions of the villagers, as character sequences.
pub open spec fn npc_views(npcs: Seq<(String, Profession)>) -> Seq<(Seq<char>, Profession)> {
    npcs.map_values(|e: (String, Profession)| (e.0@, e.1))
}

/// Collect one villager's tax.
fn tax_one(ledger: &mut Ledger, genome: &Genome, name: &str) -> (r: Option<FiscalEvent>)
    requires
        genome.wf(),
        ledger_ok(*old(ledger)),
    ensures
        ledger_ok(*final(ledger)),
        final(ledger).accounts_seq().len() <= old(ledger).accounts_seq().len() + 1,
        final(ledger).total_spec() == old(ledger).total_spec(),
        ({
            let owed = tax_owed(old(ledger).bal(name@), *genome);
            let paid = crate::economy::spec_tax_paid(owed, old(ledger).bal(name@));
            &&& final(ledger).bal(name@) == old(ledger).bal(name@) - paid
            &&& final(ledger).treasury_spec() == old(ledger).treasury_spec() + paid
            &&& final(ledger).same_except(old(ledger), name@)
            &&& (paid < owed) == r is Some
            &&& r matches Some(e) ==> note_of(e) == (0int, name@, owed - paid)
        }),
{
    proof {
        old(ledger).lemma_solvent_bounds();
        assert(0 <= genome.field_spec(7) <= 20);
        assert(20 <= genome.field_spec(8) <= 400);
        assert(2 <= genome.field_spec(9) <= 40);
    }
    let bal = ledger.balance(name);
    let above = if bal - genome.wealth_tax_threshold > 0 { bal - genome.wealth_tax_threshold } else { 0 };
    let wealth_tax = above / genome.wealth_tax_divisor;
    proof {
        assert(0 <= wealth_tax <= above) by (nonlinear_arith)
            requires
                above >= 0,
                genome.wealth_tax_divisor >= 2,
                wealth_tax == above / genome.wealth_tax_divisor,
        ;
    }
    let owed = genome.poll_tax + wealth_tax;
    let paid = ledger.collect_tax(name, owed);
    if paid < owed {
        Some(FiscalEvent::UnpaidTax { npc: name.to_owned(), owed: owed - paid })
    } else {
        None
    }
}

/// What the fiscal-hour call does: `l0` before, `l1` after, `r` the events
/// reported.
pub open spec fn fiscal_done(minute_of_day: u64, genome: Genome, npcs: Seq<(String, Profession)>, l0: Ledger, l1: Ledger, r: Seq<FiscalEvent>) -> bool {
    &&& ledger_ok(l1)
    &&& l1.total_spec() == l0.total_spec()
    &&& minute_of_day != FISCAL_HOUR * 60 ==> r.len() == 0 && l1 == l0
    &&& minute_of_day == FISCAL_HOUR * 60 ==> ({
        let taxed = taxes_spec(
            |k: Seq<char>| l0.bal(k),
            l0.treasury_spec(),
            genome,
            npcs.map_values(|e: (String, Profession)| e.0@),
        );
        let paid = salaries_spec(taxed.0, taxed.1, genome, npc_views(npcs));
        &&& forall|k: Seq<char>| #[trigger] l1.bal(k) == paid.0(k)
        &&& l1.treasury_spec() == paid.1
        &&& r.map_values(|e: FiscalEvent| note_of(e)) == taxed.2 + paid.2
    })
}

/// The daily fiscal event at the fiscal hour: first everyone's poll and
/// wealth tax (shortfalls are reported, not covered), then the public
/// salaries and the elder's pension from the treasury, in roster order (see
/// `taxes_spec` and `salaries_spec`). No coin is created or lost.
pub fn fiscal_day(minute_of_day: u64, genome: &Genome, ledger: &mut Ledger, npcs: &Vec<(String, Profession)>) -> (r: Vec<FiscalEvent>)
    requires
        genome.wf(),
        ledger_ok(*old(ledger)),
    ensures
        fiscal_done(minute_of_day, *genome, npcs@, *old(ledger), *final(ledger), r@),

{
    let mut events: Vec<FiscalEvent> = Vec::new();
    if minute_of_day != FISCAL_HOUR * 60 {
        return events;
    }
    let ghost start = *ledger;
    let ghost names = npcs@.map_values(|e: (String, Profession)| e.0@);
    let ghost b0 = |k: Seq<char>| start.bal(k);
    let n = npcs.len();
    let mut i: usize = 0;
    while i < n
        invariant
            n == npcs@.len(),
            i <= n,
            genome.wf(),
            ledger.wf() && ledger.solvent(),
            ledger.total_spec() == start.total_spec(),
            names == npcs@.map_values(|e: (String, Profession)| e.0@),
            forall|k: Seq<char>| #[trigger] ledger.bal(k) == taxes_spec(b0, start.treasury_spec(), *genome, names.subrange(0, i as int)).0(k),
            ledger.treasury_spec() == taxes_spec(b0, start.treasury_spec(), *genome, names.subrange(0, i as int)).1,
            events@.map_values(|e: FiscalEvent| note_of(e)) == taxes_spec(b0, start.treasury_spec(), *genome, names.subrange(0, i as int)).2,
        decreases n - i,
    {
        let ghost before = *ledger;
        let ghost ev0 = events@;
        let t = tax_one(ledger, genome, npcs[i].0.as_str());
        match t {
            Some(e) => events.push(e),
            None => {},
        }
        proof {
            let pre = names.subrange(0, i as int);
            let post = names.subrange(0, i as int + 1);
            assert(post.drop_last() =~= pre);
            assert(post.last() == npcs@[i as int].0@);
            let prev = taxes_spec(b0, start.treasury_spec(), *genome, pre);
            let who = npcs@[i as int].0@;
            assert(prev.0(who) == before.bal(who));
            assert forall|k: Seq<char>| #[trigger] ledger.bal(k) == taxes_spec(b0, start.treasury_spec(), *genome, post).0(k) by {
                if k != who {
                    assert(ledger.has(k) == before.has(k));
                    assert(ledger.bal(k) == before.bal(k));
                }
            }
            assert(events@.map_values(|e: FiscalEvent| note_of(e)) =~= taxes_spec(b0, start.treasury_spec(), *genome, post).2) by {
                match t {
                    Some(e) => {
                        assert(events@ == ev0.push(e));
                        assert(events@.map_values(|e: FiscalEvent| note_of(e)) =~= ev0.map_values(|e: FiscalEvent| note_of(e)).push(note_of(e)));
                    },
                    None => {},
                }
            }
        }
        i = i + 1;
    }
    proof {
        assert(names.subrange(0, n as int) =~= names);
    }
    let ghost taxed = taxes_spec(b0, start.treasury_spec(), *genome, names);
    let ghost views = npc_views(npcs@);
    let ghost tax_events = events@.map_values(|e: FiscalEvent| note_of(e));
    let mut j: usize = 0;
    proof {
        assert(views.subrange(0, 0) =~= Seq::<(Seq<char>, Profession)>::empty());
        assert(events@.map_values(|e: FiscalEvent| note_of(e)) =~= taxed.2 + salaries_spec(taxed.0, taxed.1, *genome, views.subrange(0, 0)).2);
    }
    while j < n
        invariant
            n == npcs@.len(),
            j <= n,
            genome.wf(),
            ledger.wf() && ledger.solvent(),
            ledger.total_spec() == start.total_spec(),
            views == npc_views(npcs@),
            forall|k: Seq<char>| #[trigger] ledger.bal(k) == salaries_spec(taxed.0, taxed.1, *genome, views.subrange(0, j as int)).0(k),
            ledger.treasury_spec() == salaries_spec(taxed.0, taxed.1, *genome, views.subrange(0, j as int)).1,
            events@.map_values(|e: FiscalEvent| note_of(e)) == taxed.2 + salaries_spec(taxed.0, taxed.1, *genome, views.subrange(0, j as int)).2,
        decreases n - j,
    {
        let ghost before = *ledger;
        let ghost ev0 = events@;
        let (name, profession) = (&npcs[j].0, npcs[j].1);
        let salary = match profession {
            Profession::Guard => Some(genome.salary_guard),
            Profession::Mayor => Some(genome.salary_mayor),
            Profession::Elder => Some(genome.pension_elder),
            _ => None,
        };
        proof {
            let pre = views.subrange(0, j as int);
            let post = views.subrange(0, j as int + 1);
            assert(post.drop_last() =~= pre);
            assert(post.last() == (name@, profession));
            assert(salary == salary_of(profession, *genome));
        }
        if let Some(amount) = salary {
            proof {
                ledger.lemma_solvent_bounds();
                assert(5 <= genome.field_spec(11) <= 80);
                assert(5 <= genome.field_spec(12) <= 80);
                assert(5 <= genome.field_spec(13) <= 60);
            }
            if ledger.pay_from_treasury(name.as_str(), amount) {
                events.push(FiscalEvent::SalaryPaid { npc: name.clone(), amount });
            } else {
                events.push(FiscalEvent::UnpaidSalary { npc: name.clone() });
            }
        }
        proof {
            let pre = views.subrange(0, j as int);
            let post = views.subrange(0, j as int + 1);
            let prev = salaries_spec(taxed.0, taxed.1, *genome, pre);
            assert forall|k: Seq<char>| #[trigger] ledger.bal(k) == salaries_spec(taxed.0, taxed.1, *genome, post).0(k) by {
                if k != name@ {
                    assert(ledger.has(k) == before.has(k));
                    assert(ledger.bal(k) == before.bal(k));
                }
            }
            if salary is Some {
                let last = events@.last();
                assert(events@ == ev0.push(last));
                assert(events@.map_values(|e: FiscalEvent| note_of(e)) =~= ev0.map_values(|e: FiscalEvent| note_of(e)).push(note_of(last)));
            }
            assert(events@.map_values(|e: FiscalEvent| note_of(e)) =~= taxed.2 + salaries_spec(taxed.0, taxed.1, *genome, post).2);
        }
        j = j + 1;
    }
    proof {
        assert(views.subrange(0, n as int) =~= views);
    }
    events
}

} // verus!
