//! The village as one state: its one-minute step (the day boundary, the
//! fiscal hour, the morning restock) and what each villager's choices do
//! to stocks and purses (a work hour, a meal, an ale, a death). Which
//! villager does what, and when, is decided by the caller. No operation
//! creates or destroys money.

use vstd::prelude::*;

use crate::clock::SimClock;
use crate::economy::Ledger;
use crate::genome::Genome;
use crate::professions::{
    ale_done, buy_ale, buy_meal, complete_work_hour, day_reset, fiscal_done, fiscal_day, founding_roster, meal_done,
    meal_in_stock, meal_option, meal_spec, market_roomy, opening_stock, restock_done, start_new_day, stats_roomy,
    tavern_restock, work_done, AleVisit, DailyStats, FiscalEvent, Market, MealSource, Profession, Purchase, Roster,
    WorkReport, FISCAL_HOUR,
};
use crate::professions::prof_slot;
use crate::weather::{no_weather, roll_weather, weather_kinds, Draw, SimRng, Weather};

verus! {

/// Coins in each founder's purse.
pub const STARTING_PURSE: i64 = 60;

/// Coins in the treasury at founding.
pub const TREASURY_START: i64 = 500;

/// The whole village.
pub struct Village {
    pub clock: SimClock,
    pub rng: SimRng,
    pub weather: Weather,
    pub ledger: Ledger,
    pub roster: Roster,
    pub market: Market,
    pub stats: DailyStats,
    pub genome: Genome,
    pub villagers: Vec<(String, Profession)>,
    pub blight: bool,
}

/// Why an operation stopped: a counter would have run past what its type
/// holds. Nothing is changed when one stops.
#[derive(Clone, Copy, Debug, PartialEq, Eq)]
pub enum Halt {
    /// The minute counter is at its end.
    Clock,
    /// A stock or counter has no room for more goods.
    Stocks,
}

/// What a step reports, for the event log.
pub struct StepReport {
    /// At a day boundary: the day's counters and the stocks it ended with.
    pub day_ended: Option<(DailyStats, Market)>,
    pub fiscal: Vec<FiscalEvent>,
    pub purchases: Vec<Purchase>,
}

/// Everything in the village but the stocks, the counters, the ledger and
/// the random stream is as before.
pub open spec fn rest_same(a: Village, b: Village) -> bool {
    &&& b.clock == a.clock && b.weather == a.weather
    &&& b.roster == a.roster && b.genome == a.genome
    &&& b.villagers@ == a.villagers@ && b.blight == a.blight
}

impl Village {
    /// The village is sound: the roster and the policy are well formed and
    /// the ledger is well formed and solvent.
    pub open spec fn ok(&self) -> bool {
        &&& self.roster.wf()
        &&& self.genome.wf()
        &&& self.ledger.wf()
        &&& self.ledger.solvent()
    }

    /// Name of villager `i`.
    pub open spec fn name_of(&self, i: int) -> Seq<char> {
        self.villagers@[i].0@
    }

    /// Found the village under `genome`: every founder in their job with
    /// the starting purse, the treasury funded, the opening stock, empty
    /// counters, the first day's weather rolled from the seeded stream.
    pub fn found(seed: u64, genome: Genome) -> (r: Village)
        requires
            genome.wf(),
        ensures
            r.ok(),
            r.clock.tick == 0,
            r.genome == genome,
            !r.blight,
            r.ledger.treasury_spec() == TREASURY_START,
            r.villagers@.map_values(|e: (String, Profession)| (e.0@, e.1)) == crate::professions::roster_spec(),
            forall|i: int| 0 <= i < r.villagers@.len() ==> r.ledger.bal((#[trigger] r.villagers@[i]).0@) == STARTING_PURSE,
            forall|i: int| 0 <= i < r.villagers@.len() ==> r.roster.holder_spec((#[trigger] r.villagers@[i]).1) == Some(r.villagers@[i].0@),
            r.market == opening_stock(),
            r.stats == crate::professions::fresh_stats(),
            weather_kinds().contains(r.weather.kind@) && -5 <= r.weather.temp_c < 28,
            r.rng.draws() == seq![Draw::Index(0, 5), Draw::Int(-5i32, 28i32)],
    {
        let founders = founding_roster();
        let mut ledger = Ledger::new();
        let mut roster = Roster::new();
        let mut villagers: Vec<(String, Profession)> = Vec::new();
        proof {
            ledger.lemma_solvent_intro();
            assert(founders@.map_values(|e: (&str, Profession)| (e.0@, e.1)).len() == founders@.len());
        }
        let mut i: usize = 0;
        while i < founders.len()
            invariant
                founders@.map_values(|e: (&str, Profession)| (e.0@, e.1)) == crate::professions::roster_spec(),
                founders@.len() == 8,
                i <= founders@.len(),
                villagers@.len() == i,
                ledger.wf(),
                roster.wf(),
                ledger.solvent(),
                ledger.treasury_spec() == 0,
                ledger.total_spec() <= STARTING_PURSE * i,
                forall|j: int| 0 <= j < i ==> (#[trigger] villagers@[j]).0@ == founders@[j].0@ && villagers@[j].1 == founders@[j].1,
                forall|j: int| 0 <= j < i ==> ledger.has((#[trigger] villagers@[j]).0@),
                forall|k: Seq<char>| #[trigger] ledger.has(k) ==> ledger.bal(k) == STARTING_PURSE,
                forall|j: int| 0 <= j < i ==> roster.holder_spec((#[trigger] villagers@[j]).1) == Some(villagers@[j].0@),
            decreases founders@.len() - i,
        {
            let (name, job) = founders[i];
            let ghost l0 = ledger;
            proof {
                l0.lemma_solvent_bounds();
                crate::professions::lemma_founder_slots();
                let names = crate::professions::roster_spec();
                assert(founders@.map_values(|e: (&str, Profession)| (e.0@, e.1))[i as int] == names[i as int]);
                assert(prof_slot(job) == i);
                assert forall|j: int| 0 <= j < i implies (#[trigger] villagers@[j]).1 != job by {
                    assert(founders@.map_values(|e: (&str, Profession)| (e.0@, e.1))[j] == names[j]);
                    assert(prof_slot(names[j].1) == j);
                }
            }
            ledger.set_balance(name, STARTING_PURSE);
            proof {
                ledger.lemma_solvent_intro();
            }
            roster.assign(job, name);
            villagers.push((name.to_owned(), job));
            i = i + 1;
        }
        let ghost l1 = ledger;
        ledger.set_treasury(TREASURY_START);
        proof {
            ledger.lemma_solvent_intro();
            assert forall|j: int| 0 <= j < villagers@.len() implies ledger.bal((#[trigger] villagers@[j]).0@) == STARTING_PURSE by {
                assert(l1.has(villagers@[j].0@));
                assert(ledger.has(villagers@[j].0@));
            }
            assert(villagers@.map_values(|e: (String, Profession)| (e.0@, e.1)) =~= founders@.map_values(
                |e: (&str, Profession)| (e.0@, e.1),
            ));
        }
        let mut rng = SimRng::from_seed(seed);
        let mut weather = no_weather();
        roll_weather(&mut rng, &mut weather);
        proof {
            assert(rng.draws() =~= seq![Draw::Index(0, 5), Draw::Int(-5i32, 28i32)]);
        }
        Village {
            clock: SimClock { tick: 0 },
            rng,
            weather,
            ledger,
            roster,
            market: Market::default(),
            stats: DailyStats {
                meals: 0,
                suppers: 0,
                ales_sold: 0,
                grain_grown: 0,
                fish_caught: 0,
                bread_baked: 0,
                total_meals: 0,
                total_ales: 0,
                total_starving_episodes: 0,
            },
            genome,
            villagers,
            blight: false,
        }
    }

    /// Stocks have room for a restock or an hour's goods.
    fn market_has_room(&self) -> (r: bool)
        ensures
            r == market_roomy(self.market),
    {
        let m = &self.market;
        let cap: u32 = 0xffff_ffff - 16;
        m.farm_grain <= cap && m.bakery_grain <= cap && m.bakery_bread <= cap && m.stall_fish <= cap && m.tavern_bread
            <= cap && m.tavern_fish <= cap && m.tavern_ale <= cap
    }

    /// Counters have room for another call's events.
    fn stats_have_room(&self) -> (r: bool)
        ensures
            r == stats_roomy(self.stats),
    {
        let s = &self.stats;
        let cap: u32 = 0xffff_ffff - 16;
        let big: u64 = 0xffff_ffff_ffff_ffff - 16;
        s.meals <= cap && s.suppers <= cap && s.ales_sold <= cap && s.grain_grown <= cap && s.fish_caught <= cap
            && s.bread_baked <= cap && s.total_meals <= big && s.total_ales <= big && s.total_starving_episodes <= big
    }

    /// One sim minute. The clock advances; at a day boundary the day's
    /// counters are reported and reset and the day's weather is rolled;
    /// then comes the fiscal hour's business (taxes, then salaries and the
    /// pension) and the morning restock, each at its own minute of the day.
    /// A step stops early (`Err`, nothing changed) where the clock or a
    /// stock would run past what its type holds.
    pub fn step(&mut self) -> (r: Result<StepReport, Halt>)
        requires
            old(self).ok(),
        ensures
            final(self).ok(),
            final(self).roster == old(self).roster && final(self).genome == old(self).genome,
            final(self).villagers@ == old(self).villagers@ && final(self).blight == old(self).blight,
            final(self).ledger.total_spec() == old(self).ledger.total_spec(),
            (r == Err::<StepReport, Halt>(Halt::Clock)) <==> old(self).clock.tick == u64::MAX,
            (r == Err::<StepReport, Halt>(Halt::Stocks)) <==> old(self).clock.tick != u64::MAX && !market_roomy(old(self).market),
            r is Err ==> *final(self) == *old(self),
            r matches Ok(rep) ==> {
                let minute = (final(self).clock.tick % 1440) as u64;
                let day = minute == 0;
                &&& final(self).clock.tick == old(self).clock.tick + 1
                &&& (rep.day_ended is Some <==> day)
                &&& rep.day_ended matches Some(d) ==> d == (old(self).stats, old(self).market)
                &&& final(self).stats == if day { day_reset(old(self).stats) } else { old(self).stats }
                &&& !day ==> final(self).weather == old(self).weather && final(self).rng.draws() == old(self).rng.draws()
                &&& day ==> weather_kinds().contains(final(self).weather.kind@) && -5 <= final(self).weather.temp_c < 28
                    && final(self).rng.draws() == old(self).rng.draws().push(Draw::Index(0, 5)).push(Draw::Int(-5i32, 28i32))
                &&& minute == FISCAL_HOUR * 60 ==> rep.purchases@.len() == 0 && final(self).market == old(self).market
                    && fiscal_done(minute, old(self).genome, old(self).villagers@, old(self).ledger, final(self).ledger, rep.fiscal@)
                &&& minute != FISCAL_HOUR * 60 ==> rep.fiscal@.len() == 0 && restock_done(
                    minute,
                    old(self).genome,
                    old(self).roster,
                    old(self).market,
                    final(self).market,
                    old(self).ledger,
                    final(self).ledger,
                    rep.purchases@,
                )
            },
    {
        if self.clock.tick == 0xffff_ffff_ffff_ffff {
            return Err(Halt::Clock);
        }
        if !self.market_has_room() {
            return Err(Halt::Stocks);
        }
        self.clock.advance();
        let minute = self.clock.minute_of_day();
        let mut day_ended = None;
        if minute == 0 {
            day_ended = Some((self.stats, self.market));
            start_new_day(&mut self.stats);
            roll_weather(&mut self.rng, &mut self.weather);
        }
        let fiscal = fiscal_day(minute, &self.genome, &mut self.ledger, &self.villagers);
        let purchases = tavern_restock(minute, &self.genome, &mut self.market, &mut self.ledger, &self.roster);
        Ok(StepReport { day_ended, fiscal, purchases })
    }

    /// Villager `i` completes an hour of work at their trade (see
    /// `complete_work_hour`). Stops (`Err`, nothing changed) where a stock
    /// or counter has no room for the hour's goods.
    pub fn work_hour(&mut self, i: usize) -> (r: Result<WorkReport, Halt>)
        requires
            old(self).ok(),
            i < old(self).villagers@.len(),
        ensures
            final(self).ok(),
            rest_same(*old(self), *final(self)),
            (r == Err::<WorkReport, Halt>(Halt::Stocks)) <==> !(market_roomy(old(self).market) && stats_roomy(old(self).stats)),
            r is Err ==> *final(self) == *old(self),
            r matches Ok(rep) ==> work_done(
                old(self).name_of(i as int),
                old(self).villagers@[i as int].1,
                old(self).roster,
                old(self).genome,
                old(self).blight,
                old(self).market,
                final(self).market,
                old(self).ledger,
                final(self).ledger,
                old(self).stats,
                final(self).stats,
                old(self).rng.draws(),
                final(self).rng.draws(),
                rep,
            ),
    {
        if !self.market_has_room() || !self.stats_have_room() {
            return Err(Halt::Stocks);
        }
        let job = self.villagers[i].1;
        let report = complete_work_hour(
            self.villagers[i].0.as_str(),
            job,
            &mut self.market,
            &mut self.ledger,
            &self.roster,
            &self.genome,
            &mut self.rng,
            self.blight,
            &mut self.stats,
        );
        Ok(report)
    }

    /// Where villager `i` would eat right now, and at what price (see
    /// `meal_option`), for a purse they are comfortable spending `comfort`
    /// of on supper.
    pub fn meal_option(&self, i: usize, comfort: i64) -> (r: Option<(MealSource, i64)>)
        requires
            self.ok(),
            i < self.villagers@.len(),
        ensures
            r == meal_spec(
                self.villagers@[i as int].1,
                comfort,
                (self.clock.tick % 1440) / 60,
                self.ledger.bal(self.name_of(i as int)) as i64,
                self.market,
                self.roster,
                self.genome,
            ),
    {
        proof {
            self.ledger.lemma_solvent_bounds();
        }
        let purse = self.ledger.balance(self.villagers[i].0.as_str());
        meal_option(self.villagers[i].1, comfort, self.clock.hour(), purse, &self.market, &self.roster, &self.genome)
    }

    /// Villager `i` buys a meal from `source` at `price` (see `buy_meal`).
    /// Stops (`Err`, nothing changed) where a counter has no room.
    pub fn buy_meal(&mut self, i: usize, source: MealSource, price: i64) -> (r: Result<Option<Purchase>, Halt>)
        requires
            old(self).ok(),
            i < old(self).villagers@.len(),
            meal_in_stock(old(self).market, source),
        ensures
            final(self).ok(),
            rest_same(*old(self), *final(self)),
            final(self).rng == old(self).rng,
            (r == Err::<Option<Purchase>, Halt>(Halt::Stocks)) <==> !stats_roomy(old(self).stats),
            r is Err ==> *final(self) == *old(self),
            r matches Ok(sale) ==> meal_done(
                old(self).name_of(i as int),
                source,
                price,
                old(self).roster,
                old(self).market,
                final(self).market,
                old(self).ledger,
                final(self).ledger,
                old(self).stats,
                final(self).stats,
                sale,
            ),
    {
        if !self.stats_have_room() {
            return Err(Halt::Stocks);
        }
        let sale = buy_meal(
            self.villagers[i].0.as_str(),
            source,
            price,
            &mut self.market,
            &mut self.ledger,
            &self.roster,
            &mut self.stats,
        );
        Ok(sale)
    }

    /// Villager `i` has a tavern drink (see `buy_ale`), wanting `buffer`
    /// coins on top of the price in their purse before paying for one.
    /// Stops (`Err`, nothing changed) where a counter has no room.
    pub fn buy_ale(&mut self, i: usize, buffer: i64) -> (r: Result<AleVisit, Halt>)
        requires
            old(self).ok(),
            i < old(self).villagers@.len(),
            -0x1000_0000_0000 <= buffer <= 0x1000_0000_0000,
        ensures
            final(self).ok(),
            rest_same(*old(self), *final(self)),
            final(self).rng == old(self).rng,
            (r matches Err(h) && h == Halt::Stocks) <==> !stats_roomy(old(self).stats),
            r is Err ==> *final(self) == *old(self),
            r matches Ok(visit) ==> ale_done(
                old(self).name_of(i as int),
                old(self).villagers@[i as int].1,
                buffer,
                old(self).ledger.bal(old(self).name_of(i as int)) as i64,
                old(self).roster,
                old(self).genome,
                old(self).market,
                final(self).market,
                old(self).ledger,
                final(self).ledger,
                old(self).stats,
                final(self).stats,
                visit,
            ),
    {
        if !self.stats_have_room() {
            return Err(Halt::Stocks);
        }
        proof {
            self.ledger.lemma_solvent_bounds();
        }
        let purse = self.ledger.balance(self.villagers[i].0.as_str());
        let visit = buy_ale(
            self.villagers[i].0.as_str(),
            self.villagers[i].1,
            buffer,
            purse,
            &mut self.market,
            &mut self.ledger,
            &self.roster,
            &self.genome,
            &mut self.stats,
        );
        Ok(visit)
    }

    /// A meal was eaten: the day's meal counter goes up by one. Stops
    /// (`Err`, nothing changed) where the counter has no room.
    pub fn count_meal(&mut self) -> (r: Result<(), Halt>)
        requires
            old(self).ok(),
        ensures
            final(self).ok(),
            rest_same(*old(self), *final(self)),
            final(self).market == old(self).market && final(self).ledger == old(self).ledger && final(self).rng == old(self).rng,
            r is Err <==> old(self).stats.meals == u32::MAX,
            r is Err ==> final(self).stats == old(self).stats,
            r is Ok ==> final(self).stats == (DailyStats { meals: (old(self).stats.meals + 1) as u32, ..old(self).stats }),
    {
        if self.stats.meals == 0xffff_ffff {
            return Err(Halt::Stocks);
        }
        self.stats.meals = self.stats.meals + 1;
        Ok(())
    }

    /// Villager `i` dies: their estate goes to the treasury, their job falls
    /// vacant if they held it, and they leave the list of villagers (later
    /// villagers move up one place). Returns the estate.
    pub fn bury(&mut self, i: usize) -> (estate: i64)
        requires
            old(self).ok(),
            i < old(self).villagers@.len(),
        ensures
            final(self).ok(),
            estate == old(self).ledger.bal(old(self).name_of(i as int)),
            !final(self).ledger.has(old(self).name_of(i as int)),
            final(self).ledger.treasury_spec() == old(self).ledger.treasury_spec() + estate,
            final(self).ledger.same_except(&old(self).ledger, old(self).name_of(i as int)),
            final(self).ledger.total_spec() == old(self).ledger.total_spec(),
            final(self).villagers@ == old(self).villagers@.remove(i as int),
            ({
                let job = old(self).villagers@[i as int].1;
                &&& old(self).roster.holder_spec(job) == Some(old(self).name_of(i as int)) ==> final(self).roster.holder_spec(job) is None
                &&& old(self).roster.holder_spec(job) != Some(old(self).name_of(i as int)) ==> final(self).roster == old(self).roster
                &&& forall|q: Profession| q != job ==> #[trigger] final(self).roster.holder_spec(q) == old(self).roster.holder_spec(q)
            }),
            final(self).clock == old(self).clock && final(self).weather == old(self).weather,
            final(self).market == old(self).market && final(self).stats == old(self).stats && final(self).rng == old(self).rng,
            final(self).genome == old(self).genome && final(self).blight == old(self).blight,
    {
        proof {
            self.ledger.lemma_solvent_bounds();
            self.ledger.lemma_pair_within_total(self.name_of(i as int), self.name_of(i as int));
        }
        let estate = self.ledger.inherit(self.villagers[i].0.as_str());
        let job = self.villagers[i].1;
        let holds = match self.roster.holder(job) {
            Some(h) => crate::text::str_eq(h, self.villagers[i].0.as_str()),
            None => false,
        };
        if holds {
            self.roster.vacate(job);
        }
        self.villagers.remove(i);
        estate
    }

    /// The end-of-minute money check (see `Ledger::conservation_check`):
    /// the first time it records the total as the baseline; afterwards it
    /// reports the first departure from it as `(expected, actual)`.
    pub fn settle(&mut self) -> (r: Option<(i64, i64)>)
        requires
            old(self).ok(),
        ensures
            final(self).ok(),
            rest_same(*old(self), *final(self)),
            final(self).market == old(self).market && final(self).stats == old(self).stats && final(self).rng == old(self).rng,
            forall|k: Seq<char>| #[trigger] final(self).ledger.has(k) == old(self).ledger.has(k) && final(self).ledger.bal(k)
                == old(self).ledger.bal(k),
            final(self).ledger.treasury_spec() == old(self).ledger.treasury_spec(),
            final(self).ledger.total_spec() == old(self).ledger.total_spec(),
            old(self).ledger.baseline_spec() is None ==> final(self).ledger.baseline_spec() == Some(old(self).ledger.total_spec() as i64)
                && r is None,
            old(self).ledger.baseline_spec() matches Some(e) ==> final(self).ledger.baseline_spec() == Some(e) && (if e
                != old(self).ledger.total_spec() && !old(self).ledger.violated_spec() {
                r == Some((e, old(self).ledger.total_spec() as i64))
            } else {
                r is None
            }),
    {
        proof {
            self.ledger.lemma_solvent_bounds();
        }
        self.ledger.conservation_check()
    }
}

} // verus!
