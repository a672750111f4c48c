//! Simulation time. One tick is one sim minute; how fast ticks run is the
//! runner's business, never the game logic's, so a run gives the same
//! results at any speed.

use vstd::prelude::*;

use crate::text::{decimal, push_decimal};

verus! {

/// Sim minutes per day.
pub const MINUTES_PER_DAY: u64 = 1440;

/// Ticks elapsed since the start; tick 0 is day 1, 00:00.
#[derive(Clone, Copy, Debug, PartialEq, Eq, Structural, Default)]
pub struct SimClock {
    pub tick: u64,
}

impl SimClock {
    /// 1-based day number.
    pub fn day(&self) -> (r: u64)
        ensures
            r == self.tick / MINUTES_PER_DAY + 1,
    {
        self.tick / MINUTES_PER_DAY + 1
    }

    pub fn minute_of_day(&self) -> (r: u64)
        ensures
            r == self.tick % MINUTES_PER_DAY,
            r < MINUTES_PER_DAY,
    {
        self.tick % MINUTES_PER_DAY
    }

    pub fn hour(&self) -> (r: u64)
        ensures
            r == (self.tick % MINUTES_PER_DAY) / 60,
            r < 24,
    {
        self.minute_of_day() / 60
    }

    pub fn minute(&self) -> (r: u64)
        ensures
            r == (self.tick % MINUTES_PER_DAY) % 60,
            r < 60,
    {
        self.minute_of_day() % 60
    }

    /// Human-readable time stamp, such as `d003 14:25`.
    pub fn stamp(&self) -> (r: String)
        ensures
            r@ == "d"@ + pad_left(decimal((self.tick / MINUTES_PER_DAY + 1) as nat), 3) + " "@ + two_digits(
                ((self.tick % MINUTES_PER_DAY) / 60) as int,
            ) + ":"@ + two_digits(((self.tick % MINUTES_PER_DAY) % 60) as int),
    {
        let mut s = "d".to_owned();
        let d = self.day();
        let ghost p1 = s@;
        if d < 10 {
            vstd::string::StringExecFns::append(&mut s, "00");
        } else if d < 100 {
            vstd::string::StringExecFns::append(&mut s, "0");
        }
        push_decimal(&mut s, d);
        proof {
            reveal_strlit("00");
            reveal_strlit("0");
            lemma_pad3(d as nat);
            assert(s@ =~= p1 + pad_left(decimal(d as nat), 3));
        }
        let ghost p2 = s@;
        vstd::string::StringExecFns::append(&mut s, " ");
        let h = self.hour();
        if h < 10 {
            vstd::string::StringExecFns::append(&mut s, "0");
        }
        push_decimal(&mut s, h);
        proof {
            lemma_pad2(h as nat);
            assert(s@ =~= p2 + " "@ + two_digits(h as int));
        }
        let ghost p3 = s@;
        vstd::string::StringExecFns::append(&mut s, ":");
        let m = self.minute();
        if m < 10 {
            vstd::string::StringExecFns::append(&mut s, "0");
        }
        push_decimal(&mut s, m);
        proof {
            lemma_pad2(m as nat);
            assert(s@ =~= p3 + ":"@ + two_digits(m as int));
        }
        s
    }

    /// Advance by one sim minute.
    pub fn advance(&mut self)
        requires
            old(self).tick < u64::MAX,
        ensures
            final(self).tick == old(self).tick + 1,
    {
        self.tick = self.tick + 1;
    }
}

/// `s` left-padded with zeros to at least `width` characters.
pub open spec fn pad_left(s: Seq<char>, width: nat) -> Seq<char>
    decreases width,
{
    if s.len() >= width || width == 0 {
        s
    } else {
        seq!['0'] + pad_left(s, (width - 1) as nat)
    }
}

/// Two-digit rendering of `v < 100`.
pub open spec fn two_digits(v: int) -> Seq<char> {
    pad_left(decimal(v as nat), 2)
}

/// Number of decimal digits: one for numbers below ten, two below a hundred.
pub proof fn lemma_decimal_len(n: nat)
    ensures
        n < 10 ==> decimal(n).len() == 1,
        10 <= n < 100 ==> decimal(n).len() == 2,
        n >= 100 ==> decimal(n).len() >= 3,
        decimal(n).len() >= 1,
    decreases n,
{
    if n >= 10 {
        lemma_decimal_len(n / 10);
    }
}

proof fn lemma_pad3(n: nat)
    ensures
        n < 10 ==> pad_left(decimal(n), 3) == seq!['0', '0'] + decimal(n),
        10 <= n < 100 ==> pad_left(decimal(n), 3) == seq!['0'] + decimal(n),
        n >= 100 ==> pad_left(decimal(n), 3) == decimal(n),
{
    lemma_decimal_len(n);
    reveal_with_fuel(pad_left, 4);
    assert(seq!['0'] + (seq!['0'] + decimal(n)) =~= seq!['0', '0'] + decimal(n));
}

proof fn lemma_pad2(n: nat)
    ensures
        n < 10 ==> pad_left(decimal(n), 2) == seq!['0'] + decimal(n),
        n >= 10 ==> pad_left(decimal(n), 2) == decimal(n),
{
    lemma_decimal_len(n);
    reveal_with_fuel(pad_left, 3);
}

/// Day, hour and minute recompose the tick: the clock's fields are a faithful
/// reading of the minute counter.
pub proof fn law_clock_recomposes(tick: u64)
    ensures
        ((tick / MINUTES_PER_DAY + 1) - 1) * 1440 + ((tick % MINUTES_PER_DAY) / 60) * 60 + (tick
            % MINUTES_PER_DAY) % 60 == tick,
{
    let d = tick / MINUTES_PER_DAY;
    let m = tick % MINUTES_PER_DAY;
    assert(d * 1440 + m == tick);
    assert((m / 60) * 60 + m % 60 == m);
}

} // verus!
