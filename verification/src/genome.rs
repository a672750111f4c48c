//! The village policy genome: the economic knobs (prices, taxes, wages) that
//! evolution runs mutate. Every knob lives in a fixed range.

use vstd::prelude::*;

use crate::text::{decimal, push_decimal};

verus! {

/// Number of evolvable knobs.
pub const GENOME_FIELDS: usize = 14;

#[derive(Clone, Copy, Debug, PartialEq, Eq)]
pub struct Genome {
    pub price_grain: i64,
    pub price_bread: i64,
    pub price_fish: i64,
    pub price_ale: i64,
    pub price_supper: i64,
    pub wholesale_bread: i64,
    pub wholesale_fish: i64,
    pub poll_tax: i64,
    pub wealth_tax_threshold: i64,
    pub wealth_tax_divisor: i64,
    pub farmhand_wage: i64,
    pub salary_guard: i64,
    pub salary_mayor: i64,
    pub pension_elder: i64,
}

/// `(min, max)` of knob `i`.
pub open spec fn field_range(i: int) -> (int, int) {
    if i == 0 {
        (1, 8)
    } else if i == 1 {
        (2, 24)
    } else if i == 2 {
        (2, 20)
    } else if i == 3 {
        (2, 24)
    } else if i == 4 {
        (4, 40)
    } else if i == 5 {
        (1, 24)
    } else if i == 6 {
        (1, 20)
    } else if i == 7 {
        (0, 20)
    } else if i == 8 {
        (20, 400)
    } else if i == 9 {
        (2, 40)
    } else if i == 10 {
        (1, 15)
    } else if i == 11 {
        (5, 80)
    } else if i == 12 {
        (5, 80)
    } else {
        (5, 60)
    }
}

/// `(min, max)` of knob `i`.
pub fn field_bounds(i: usize) -> (r: (i64, i64))
    requires
        i < GENOME_FIELDS,
    ensures
        r.0 == field_range(i as int).0,
        r.1 == field_range(i as int).1,
{
    if i == 0 {
        (1, 8)
    } else if i == 1 {
        (2, 24)
    } else if i == 2 {
        (2, 20)
    } else if i == 3 {
        (2, 24)
    } else if i == 4 {
        (4, 40)
    } else if i == 5 {
        (1, 24)
    } else if i == 6 {
        (1, 20)
    } else if i == 7 {
        (0, 20)
    } else if i == 8 {
        (20, 400)
    } else if i == 9 {
        (2, 40)
    } else if i == 10 {
        (1, 15)
    } else if i == 11 {
        (5, 80)
    } else if i == 12 {
        (5, 80)
    } else {
        (5, 60)
    }
}

impl Genome {
    /// Value of knob `i` (in the order of the struct's fields).
    pub open spec fn field_spec(&self, i: int) -> i64 {
        if i == 0 {
            self.price_grain
        } else if i == 1 {
            self.price_bread
        } else if i == 2 {
            self.price_fish
        } else if i == 3 {
            self.price_ale
        } else if i == 4 {
            self.price_supper
        } else if i == 5 {
            self.wholesale_bread
        } else if i == 6 {
            self.wholesale_fish
        } else if i == 7 {
            self.poll_tax
        } else if i == 8 {
            self.wealth_tax_threshold
        } else if i == 9 {
            self.wealth_tax_divisor
        } else if i == 10 {
            self.farmhand_wage
        } else if i == 11 {
            self.salary_guard
        } else if i == 12 {
            self.salary_mayor
        } else {
            self.pension_elder
        }
    }

    /// Every knob is within its range, and wholesale prices do not exceed retail.
    pub open spec fn wf(&self) -> bool {
        &&& forall|i: int| 0 <= i < GENOME_FIELDS ==> field_range(i).0 <= #[trigger] self.field_spec(i) <= field_range(i).1
        &&& self.wholesale_bread <= self.price_bread
        &&& self.wholesale_fish <= self.price_fish
    }

    /// The hand-tuned policy — the baseline evolution has to beat.
    pub fn baseline() -> (g: Genome)
        ensures
            g.wf(),
            g.price_grain == 2 && g.price_bread == 8 && g.price_fish == 6 && g.price_ale == 8,
            g.price_supper == 15 && g.wholesale_bread == 5 && g.wholesale_fish == 4,
            g.poll_tax == 5 && g.wealth_tax_threshold == 50 && g.wealth_tax_divisor == 10,
            g.farmhand_wage == 5 && g.salary_guard == 35 && g.salary_mayor == 40 && g.pension_elder == 24,
    {
        Genome {
            price_grain: 2,
            price_bread: 8,
            price_fish: 6,
            price_ale: 8,
            price_supper: 15,
            wholesale_bread: 5,
            wholesale_fish: 4,
            poll_tax: 5,
            wealth_tax_threshold: 50,
            wealth_tax_divisor: 10,
            farmhand_wage: 5,
            salary_guard: 35,
            salary_mayor: 40,
            pension_elder: 24,
        }
    }

    /// Value of knob `i`.
    pub fn field(&self, i: usize) -> (r: i64)
        requires
            i < GENOME_FIELDS,
        ensures
            r == self.field_spec(i as int),
    {
        if i == 0 {
            self.price_grain
        } else if i == 1 {
            self.price_bread
        } else if i == 2 {
            self.price_fish
        } else if i == 3 {
            self.price_ale
        } else if i == 4 {
            self.price_supper
        } else if i == 5 {
            self.wholesale_bread
        } else if i == 6 {
            self.wholesale_fish
        } else if i == 7 {
            self.poll_tax
        } else if i == 8 {
            self.wealth_tax_threshold
        } else if i == 9 {
            self.wealth_tax_divisor
        } else if i == 10 {
            self.farmhand_wage
        } else if i == 11 {
            self.salary_guard
        } else if i == 12 {
            self.salary_mayor
        } else {
            self.pension_elder
        }
    }

    /// Every knob is within its range and wholesale prices do not exceed retail.
    pub fn is_valid(&self) -> (r: bool)
        ensures
            r == self.wf(),
    {
        let mut i: usize = 0;
        while i < GENOME_FIELDS
            invariant
                i <= GENOME_FIELDS,
                forall|j: int| 0 <= j < i ==> field_range(j).0 <= #[trigger] self.field_spec(j) <= field_range(j).1,
            decreases GENOME_FIELDS - i,
        {
            let (lo, hi) = field_bounds(i);
            let v = self.field(i);
            if v < lo || v > hi {
                return false;
            }
            i = i + 1;
        }
        self.wholesale_bread <= self.price_bread && self.wholesale_fish <= self.price_fish
    }

    /// Every knob is within its range (wholesale may still exceed retail).
    pub open spec fn in_ranges(&self) -> bool {
        forall|i: int| 0 <= i < GENOME_FIELDS ==> field_range(i).0 <= #[trigger] self.field_spec(i) <= field_range(i).1
    }

    /// Knob `i` set to `value` clamped into its range; the other knobs unchanged.
    pub fn with_knob(&self, i: usize, value: i64) -> (g: Genome)
        requires
            self.in_ranges(),
            i < GENOME_FIELDS,
        ensures
            g.in_ranges(),
            g.field_spec(i as int) == clamp(value as int, field_range(i as int).0, field_range(i as int).1),
            forall|j: int| 0 <= j < GENOME_FIELDS && j != i ==> #[trigger] g.field_spec(j) == self.field_spec(j),
    {
        let (lo, hi) = field_bounds(i);
        let v = if value < lo { lo } else if value > hi { hi } else { value };
        let mut g = *self;
        if i == 0 {
            g.price_grain = v;
        } else if i == 1 {
            g.price_bread = v;
        } else if i == 2 {
            g.price_fish = v;
        } else if i == 3 {
            g.price_ale = v;
        } else if i == 4 {
            g.price_supper = v;
        } else if i == 5 {
            g.wholesale_bread = v;
        } else if i == 6 {
            g.wholesale_fish = v;
        } else if i == 7 {
            g.poll_tax = v;
        } else if i == 8 {
            g.wealth_tax_threshold = v;
        } else if i == 9 {
            g.wealth_tax_divisor = v;
        } else if i == 10 {
            g.farmhand_wage = v;
        } else if i == 11 {
            g.salary_guard = v;
        } else if i == 12 {
            g.salary_mayor = v;
        } else {
            g.pension_elder = v;
        }
        proof {
            assert forall|j: int| 0 <= j < GENOME_FIELDS implies field_range(j).0 <= #[trigger] g.field_spec(j)
                <= field_range(j).1 by {
                assert(field_range(j).0 <= self.field_spec(j) <= field_range(j).1);
            }
        }
        g
    }

    /// Wholesale prices capped by retail: otherwise the tavern trade becomes
    /// a money pump for the suppliers.
    pub fn capped(&self) -> (g: Genome)
        requires
            self.in_ranges(),
        ensures
            g.wf(),
            g.wholesale_bread == min_i(self.wholesale_bread as int, self.price_bread as int),
            g.wholesale_fish == min_i(self.wholesale_fish as int, self.price_fish as int),
            forall|j: int| 0 <= j < GENOME_FIELDS && j != 5 && j != 6 ==> #[trigger] g.field_spec(j) == self.field_spec(j),
    {
        let mut g = *self;
        if g.wholesale_bread > g.price_bread {
            g.wholesale_bread = g.price_bread;
        }
        if g.wholesale_fish > g.price_fish {
            g.wholesale_fish = g.price_fish;
        }
        proof {
            assert forall|j: int| 0 <= j < GENOME_FIELDS implies field_range(j).0 <= #[trigger] g.field_spec(j)
                <= field_range(j).1 by {
                assert(field_range(j).0 <= self.field_spec(j) <= field_range(j).1);
                assert(field_range(1).0 <= self.field_spec(1) <= field_range(1).1);
                assert(field_range(2).0 <= self.field_spec(2) <= field_range(2).1);
            }
        }
        g
    }

    /// One-line summary for evolution reports.
    pub fn brief(&self) -> (r: String)
        ensures
            r@ == "bread "@ + signed_decimal(self.price_bread as int) + " fish "@ + signed_decimal(self.price_fish as int)
                + " ale "@ + signed_decimal(self.price_ale as int) + " supper "@ + signed_decimal(self.price_supper as int)
                + " | tax "@ + signed_decimal(self.poll_tax as int) + " wealth>"@ + signed_decimal(
                self.wealth_tax_threshold as int,
            ) + "÷"@ + signed_decimal(self.wealth_tax_divisor as int) + " | wage "@ + signed_decimal(
                self.farmhand_wage as int,
            ) + " guard "@ + signed_decimal(self.salary_guard as int) + " mayor "@ + signed_decimal(
                self.salary_mayor as int,
            ) + " pension "@ + signed_decimal(self.pension_elder as int),
    {
        let mut s = "bread ".to_owned();
        push_i64(&mut s, self.price_bread);
        vstd::string::StringExecFns::append(&mut s, " fish ");
        push_i64(&mut s, self.price_fish);
        vstd::string::StringExecFns::append(&mut s, " ale ");
        push_i64(&mut s, self.price_ale);
        vstd::string::StringExecFns::append(&mut s, " supper ");
        push_i64(&mut s, self.price_supper);
        vstd::string::StringExecFns::append(&mut s, " | tax ");
        push_i64(&mut s, self.poll_tax);
        vstd::string::StringExecFns::append(&mut s, " wealth>");
        push_i64(&mut s, self.wealth_tax_threshold);
        vstd::string::StringExecFns::append(&mut s, "÷");
        push_i64(&mut s, self.wealth_tax_divisor);
        vstd::string::StringExecFns::append(&mut s, " | wage ");
        push_i64(&mut s, self.farmhand_wage);
        vstd::string::StringExecFns::append(&mut s, " guard ");
        push_i64(&mut s, self.salary_guard);
        vstd::string::StringExecFns::append(&mut s, " mayor ");
        push_i64(&mut s, self.salary_mayor);
        vstd::string::StringExecFns::append(&mut s, " pension ");
        push_i64(&mut s, self.pension_elder);
        s
    }
}

/// Decimal notation of a signed integer.
pub open spec fn signed_decimal(v: int) -> Seq<char> {
    if v < 0 {
        seq!['-'] + decimal((-v) as nat)
    } else {
        decimal(v as nat)
    }
}

/// Append the decimal notation of `v` (with a minus sign when negative).
pub fn push_i64(out: &mut String, v: i64)
    ensures
        final(out)@ == old(out)@ + signed_decimal(v as int),
{
    if v < 0 {
        proof {
            reveal_strlit("-");
        }
        vstd::string::StringExecFns::append(out, "-");
        let mag: u64 = if v == i64::MIN { 9223372036854775808u64 } else { (-v) as u64 };
        push_decimal(out, mag);
        assert(final(out)@ =~= old(out)@ + signed_decimal(v as int));
    } else {
        push_decimal(out, v as u64);
    }
}

pub open spec fn clamp(v: int, lo: int, hi: int) -> int {
    if v < lo { lo } else if v > hi { hi } else { v }
}

pub open spec fn min_i(a: int, b: int) -> int {
    if a <= b { a } else { b }
}

} // verus!
