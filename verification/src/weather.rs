//! The simulation's single seeded random stream and the daily weather it
//! rolls. Every random choice of the sim comes from this stream, so a seed
//! reproduces a run.

use vstd::prelude::*;

use rand::Rng;
use rand::SeedableRng;
use rand_chacha::ChaCha8Rng;

verus! {

#[verifier::external_type_specification]
#[verifier::external_body]
pub struct ExChaCha8Rng(rand_chacha::ChaCha8Rng);

/// The single deterministic random stream of the sim, with (in proofs)
/// the log of the draws asked of it since it was seeded.
pub struct SimRng(pub ChaCha8Rng, Ghost<Seq<Draw>>);

/// One draw asked of the stream: its type and range.
#[derive(Clone, Copy, Debug, PartialEq, Eq)]
pub enum Draw {
    /// A `usize` in `[lo, hi)`.
    Index(usize, usize),
    /// An `i32` in `[lo, hi)`.
    Int(i32, i32),
    /// A `u32` in `[lo, hi]`.
    Count(u32, u32),
}

/// `rand_chacha::ChaCha8Rng::seed_from_u64`: the stream for a seed. Nothing
/// is claimed of the stream itself.
#[verifier::external_body]
fn chacha_from_seed(seed: u64) -> ChaCha8Rng {
    ChaCha8Rng::seed_from_u64(seed)
}

/// `rand::Rng::random_range` over `lo..hi` at type `usize`: a value in
/// `[lo, hi)` (the range must not be empty, or it panics).
#[verifier::external_body]
fn random_usize(rng: &mut ChaCha8Rng, lo: usize, hi: usize) -> (r: usize)
    requires
        lo < hi,
    ensures
        lo <= r < hi,
{
    rng.random_range(lo..hi)
}

/// `rand::Rng::random_range` over `lo..hi` at type `i32`: a value in `[lo, hi)`.
#[verifier::external_body]
fn random_i32(rng: &mut ChaCha8Rng, lo: i32, hi: i32) -> (r: i32)
    requires
        lo < hi,
    ensures
        lo <= r < hi,
{
    rng.random_range(lo..hi)
}

/// `rand::Rng::random_range` over `lo..=hi` at type `u32`: a value in `[lo, hi]`.
#[verifier::external_body]
fn random_u32_inclusive(rng: &mut ChaCha8Rng, lo: u32, hi: u32) -> (r: u32)
    requires
        lo <= hi,
    ensures
        lo <= r <= hi,
{
    rng.random_range(lo..=hi)
}

impl SimRng {
    /// The draws asked of the stream since it was seeded, in order.
    pub closed spec fn draws(&self) -> Seq<Draw> {
        self.1@
    }

    /// The stream for a run seed; nothing drawn yet.
    pub fn from_seed(seed: u64) -> (r: Self)
        ensures
            r.draws().len() == 0,
    {
        SimRng(chacha_from_seed(seed), Ghost(Seq::empty()))
    }

    /// A uniform index in `[lo, hi)`.
    pub fn index_in(&mut self, lo: usize, hi: usize) -> (r: usize)
        requires
            lo < hi,
        ensures
            lo <= r < hi,
            final(self).draws() == old(self).draws().push(Draw::Index(lo, hi)),
    {
        let r = random_usize(&mut self.0, lo, hi);
        self.1 = Ghost(self.1@.push(Draw::Index(lo, hi)));
        r
    }

    /// A uniform `i32` in `[lo, hi)`.
    pub fn int_in(&mut self, lo: i32, hi: i32) -> (r: i32)
        requires
            lo < hi,
        ensures
            lo <= r < hi,
            final(self).draws() == old(self).draws().push(Draw::Int(lo, hi)),
    {
        let r = random_i32(&mut self.0, lo, hi);
        self.1 = Ghost(self.1@.push(Draw::Int(lo, hi)));
        r
    }

    /// A uniform `u32` in `[lo, hi]`.
    pub fn count_in(&mut self, lo: u32, hi: u32) -> (r: u32)
        requires
            lo <= hi,
        ensures
            lo <= r <= hi,
            final(self).draws() == old(self).draws().push(Draw::Count(lo, hi)),
    {
        let r = random_u32_inclusive(&mut self.0, lo, hi);
        self.1 = Ghost(self.1@.push(Draw::Count(lo, hi)));
        r
    }
}

/// Today's weather.
#[derive(Clone, Debug)]
pub struct Weather {
    pub kind: String,
    pub temp_c: i32,
}

/// The weather kinds a day can have.
pub open spec fn weather_kinds() -> Seq<Seq<char>> {
    seq!["clear"@, "overcast"@, "rain"@, "windy"@, "fog"@]
}

/// No weather yet (before the first roll).
pub fn no_weather() -> (r: Weather)
    ensures
        r.kind@.len() == 0,
        r.temp_c == 0,
{
    Weather { kind: String::new(), temp_c: 0 }
}

/// The weather for a rolled kind index and temperature.
pub fn weather_from(kind: usize, temp_c: i32) -> (r: Weather)
    requires
        kind < 5,
    ensures
        r.kind@ == weather_kinds()[kind as int],
        r.temp_c == temp_c,
{
    let kinds = ["clear", "overcast", "rain", "windy", "fog"];
    proof {
        assert(kinds@.map_values(|s: &str| s@) =~= weather_kinds());
        assert(kinds@[kind as int]@ == weather_kinds()[kind as int]);
    }
    Weather { kind: kinds[kind].to_owned(), temp_c }
}

/// Roll a day's weather: one of the five kinds and a temperature from -5 to
/// 27 degrees Celsius.
pub fn roll_weather(rng: &mut SimRng, weather: &mut Weather)
    ensures
        weather_kinds().contains(final(weather).kind@),
        -5 <= final(weather).temp_c < 28,
        final(rng).draws() == old(rng).draws().push(Draw::Index(0, 5)).push(Draw::Int(-5i32, 28i32)),
{
    let kind = rng.index_in(0, 5);
    let temp = rng.int_in(-5, 28);
    *weather = weather_from(kind, temp);
    proof {
        assert(weather_kinds()[kind as int] == final(weather).kind@);
    }
}

} // verus!
