//! Proleptic Gregorian calendar dates as plain (year, month, day) triples,
//! with day arithmetic: predecessor, successor, whole-day offsets and
//! signed day differences.
//!
//! Years are restricted to `0 ..= 9999`, the range the `YYYY-MM-DD` file
//! format can carry. Every date maps to a day index, the number of days
//! since 0000-01-01; the index is proved to order dates exactly as the
//! (year, month, day) triple does.

use chrono::Datelike;
use vstd::arithmetic::div_mod::{
    lemma_fundamental_div_mod, lemma_fundamental_div_mod_converse,
};
use vstd::prelude::*;

verus! {

/// Largest year a four-digit date string can hold.
pub const MAX_YEAR: i32 = 9999;

pub open spec fn is_leap_spec(y: int) -> bool {
    (y % 4 == 0 && y % 100 != 0) || y % 400 == 0
}

pub open spec fn days_in_year_spec(y: int) -> int {
    if is_leap_spec(y) {
        366
    } else {
        365
    }
}

pub open spec fn days_in_month_spec(y: int, m: int) -> int {
    if m == 2 {
        if is_leap_spec(y) {
            29
        } else {
            28
        }
    } else if m == 4 || m == 6 || m == 9 || m == 11 {
        30
    } else {
        31
    }
}

pub open spec fn valid_ymd(y: int, m: int, d: int) -> bool {
    &&& 0 <= y <= MAX_YEAR
    &&& 1 <= m <= 12
    &&& 1 <= d <= days_in_month_spec(y, m)
}

/// Days in year `y` before the first of month `m` (so `m` may be 13,
/// giving the whole year).
pub open spec fn days_before_month(y: int, m: int) -> int
    decreases m,
{
    if m <= 1 {
        0
    } else {
        days_before_month(y, m - 1) + days_in_month_spec(y, m - 1)
    }
}

/// Days in all years before year `y`, counted from year 0.
pub open spec fn days_before_year(y: int) -> int
    decreases y,
{
    if y <= 0 {
        0
    } else {
        days_before_year(y - 1) + days_in_year_spec(y - 1)
    }
}

/// A calendar date. All operations require `is_valid`; `new` is the
/// checked constructor.
#[derive(Clone, Copy, PartialEq, Eq, Structural, Hash, Debug)]
pub struct Date {
    pub year: i32,
    pub month: u8,
    pub day: u8,
}

impl Date {
    pub open spec fn is_valid(self) -> bool {
        valid_ymd(self.year as int, self.month as int, self.day as int)
    }

    /// Number of days from 0000-01-01 to this date.
    pub open spec fn day_index(self) -> int {
        days_before_year(self.year as int) + days_before_month(
            self.year as int,
            self.month as int,
        ) + self.day - 1
    }

    /// Lexicographic order on the (year, month, day) triple.
    pub open spec fn spec_le(self, other: Date) -> bool {
        ||| self.year < other.year
        ||| (self.year == other.year && self.month < other.month)
        ||| (self.year == other.year && self.month == other.month && self.day <= other.day)
    }

    pub open spec fn spec_lt(self, other: Date) -> bool {
        self.spec_le(other) && self != other
    }

    pub fn new(year: i32, month: u8, day: u8) -> (r: Option<Date>)
        ensures
            match r {
                Some(d) => d == (Date { year, month, day }) && d.is_valid(),
                None => !valid_ymd(year as int, month as int, day as int),
            },
    {
        if 0 <= year && year <= MAX_YEAR && 1 <= month && month <= 12 && 1 <= day && day
            <= days_in_month(year, month) {
            Some(Date { year, month, day })
        } else {
            None
        }
    }
}

pub open spec fn max_date() -> Date {
    Date { year: MAX_YEAR, month: 12, day: 31 }
}

pub open spec fn min_date() -> Date {
    Date { year: 0, month: 1, day: 1 }
}

pub open spec fn max_day_index() -> int {
    max_date().day_index()
}

/// The successor triple: next day, rolling over month and year ends.
pub open spec fn spec_next(d: Date) -> Date {
    if d.day < days_in_month_spec(d.year as int, d.month as int) {
        Date { year: d.year, month: d.month, day: (d.day + 1) as u8 }
    } else if d.month < 12 {
        Date { year: d.year, month: (d.month + 1) as u8, day: 1 }
    } else {
        Date { year: (d.year + 1) as i32, month: 1, day: 1 }
    }
}

/// The valid date with a given day index, where one exists.
pub open spec fn date_of_index(i: int) -> Date {
    choose|d: Date| d.is_valid() && d.day_index() == i
}

pub proof fn lemma_dbm_monotone(y: int, m1: int, m2: int)
    requires
        m1 <= m2,
    ensures
        days_before_month(y, m1) <= days_before_month(y, m2),
    decreases m2 - m1,
{
    if m1 < m2 {
        lemma_dbm_monotone(y, m1, m2 - 1);
    }
}

pub proof fn lemma_dbm_full(y: int)
    ensures
        days_before_month(y, 13) == days_in_year_spec(y),
{
    reveal_with_fuel(days_before_month, 14);
}

pub proof fn lemma_dby_monotone(y1: int, y2: int)
    requires
        y1 <= y2,
    ensures
        days_before_year(y1) <= days_before_year(y2),
    decreases y2 - y1,
{
    if y1 < y2 {
        lemma_dby_monotone(y1, y2 - 1);
    }
}

/// A valid date's index lies inside its year's slice of the day line.
pub proof fn lemma_idx_in_year(d: Date)
    requires
        d.is_valid(),
    ensures
        days_before_year(d.year as int) <= d.day_index(),
        d.day_index() < days_before_year(d.year as int) + days_in_year_spec(d.year as int),
        d.day_index() < days_before_year(d.year as int + 1),
{
    let y = d.year as int;
    let m = d.month as int;
    lemma_dbm_monotone(y, 1, m);
    lemma_dbm_monotone(y, m + 1, 13);
    lemma_dbm_full(y);
    assert(days_before_month(y, m + 1) == days_before_month(y, m) + days_in_month_spec(y, m));
}

/// The day index orders dates exactly as the (year, month, day) triple does.
pub proof fn lemma_lt_implies_idx_lt(a: Date, b: Date)
    requires
        a.is_valid(),
        b.is_valid(),
        a.spec_lt(b),
    ensures
        a.day_index() < b.day_index(),
{
    let ya = a.year as int;
    let yb = b.year as int;
    if ya < yb {
        lemma_idx_in_year(a);
        lemma_idx_in_year(b);
        lemma_dby_monotone(ya + 1, yb);
    } else if a.month < b.month {
        let ma = a.month as int;
        let mb = b.month as int;
        assert(days_before_month(ya, ma + 1) == days_before_month(ya, ma) + days_in_month_spec(
            ya,
            ma,
        ));
        lemma_dbm_monotone(ya, ma + 1, mb);
    }
}

pub proof fn lemma_idx_injective(a: Date, b: Date)
    requires
        a.is_valid(),
        b.is_valid(),
        a.day_index() == b.day_index(),
    ensures
        a == b,
{
    if a.spec_lt(b) {
        lemma_lt_implies_idx_lt(a, b);
    } else if b.spec_lt(a) {
        lemma_lt_implies_idx_lt(b, a);
    } else {
        assert(a.spec_le(b) || b.spec_le(a));
    }
}

pub proof fn lemma_idx_le_max(d: Date)
    requires
        d.is_valid(),
    ensures
        d.day_index() <= max_day_index(),
{
    if d != max_date() {
        assert(d.spec_lt(max_date()));
        lemma_lt_implies_idx_lt(d, max_date());
    }
}

/// Stepping to the successor triple raises the day index by exactly one.
pub proof fn lemma_spec_next(d: Date)
    requires
        d.is_valid(),
        d != max_date(),
    ensures
        spec_next(d).is_valid(),
        spec_next(d).day_index() == d.day_index() + 1,
        d.spec_lt(spec_next(d)),
{
    let y = d.year as int;
    let m = d.month as int;
    if d.day < days_in_month_spec(y, m) {
    } else if d.month < 12 {
        assert(days_before_month(y, m + 1) == days_before_month(y, m) + days_in_month_spec(y, m));
    } else {
        assert(days_before_year(y + 1) == days_before_year(y) + days_in_year_spec(y));
        lemma_dbm_full(y);
        assert(days_before_month(y, 13) == days_before_month(y, 12) + days_in_month_spec(y, 12));
    }
}

/// Every index up to the largest is the index of some valid date.
pub proof fn lemma_date_of_index(i: int)
    requires
        0 <= i <= max_day_index(),
    ensures
        date_of_index(i).is_valid(),
        date_of_index(i).day_index() == i,
    decreases i,
{
    if i == 0 {
        let w = min_date();
        assert(w.is_valid());
        assert(w.day_index() == 0);
        assert(exists|d: Date| d.is_valid() && d.day_index() == i);
    } else {
        lemma_date_of_index(i - 1);
        let p = date_of_index(i - 1);
        assert(p != max_date()) by {
            if p == max_date() {
                assert(p.day_index() == max_day_index());
            }
        }
        lemma_spec_next(p);
        let w = spec_next(p);
        assert(w.is_valid() && w.day_index() == i);
        assert(exists|d: Date| d.is_valid() && d.day_index() == i);
    }
}

pub fn is_leap_year(y: i32) -> (r: bool)
    requires
        y >= 0,
    ensures
        r == is_leap_spec(y as int),
{
    (y % 4 == 0 && y % 100 != 0) || y % 400 == 0
}

pub fn days_in_month(y: i32, m: u8) -> (r: u8)
    requires
        y >= 0,
        1 <= m <= 12,
    ensures
        r == days_in_month_spec(y as int, m as int),
{
    if m == 2 {
        if is_leap_year(y) {
            29
        } else {
            28
        }
    } else if m == 4 || m == 6 || m == 9 || m == 11 {
        30
    } else {
        31
    }
}

impl Date {
    /// The next calendar day; `None` past the last representable date.
    pub fn succ(self) -> (r: Option<Date>)
        requires
            self.is_valid(),
        ensures
            r.is_some() <==> self != max_date(),
            r.is_some() ==> {
                &&& r.unwrap() == spec_next(self)
                &&& r.unwrap().is_valid()
                &&& r.unwrap().day_index() == self.day_index() + 1
            },
    {
        let dim = days_in_month(self.year, self.month);
        if self.day < dim {
            proof { lemma_spec_next(self); }
            Some(Date { year: self.year, month: self.month, day: self.day + 1 })
        } else if self.month < 12 {
            proof { lemma_spec_next(self); }
            Some(Date { year: self.year, month: self.month + 1, day: 1 })
        } else if self.year < MAX_YEAR {
            proof { lemma_spec_next(self); }
            Some(Date { year: self.year + 1, month: 1, day: 1 })
        } else {
            None
        }
    }

    /// The previous calendar day; `None` before the first representable date.
    pub fn pred(self) -> (r: Option<Date>)
        requires
            self.is_valid(),
        ensures
            r.is_some() <==> self != min_date(),
            r.is_some() ==> {
                &&& r.unwrap().is_valid()
                &&& r.unwrap().day_index() == self.day_index() - 1
            },
    {
        let p: Option<Date> = if self.day > 1 {
            Some(Date { year: self.year, month: self.month, day: self.day - 1 })
        } else if self.month > 1 {
            let dim = days_in_month(self.year, self.month - 1);
            Some(Date { year: self.year, month: self.month - 1, day: dim })
        } else if self.year > 0 {
            Some(Date { year: self.year - 1, month: 12, day: 31 })
        } else {
            None
        };
        proof {
            if p.is_some() {
                let q = p.unwrap();
                assert(q.is_valid());
                assert(q != max_date());
                assert(spec_next(q) == self);
                lemma_spec_next(q);
            }
        }
        p
    }

    /// Lexicographic comparison on the (year, month, day) triple.
    pub fn le(self, other: Date) -> (r: bool)
        ensures
            r == self.spec_le(other),
    {
        if self.year != other.year {
            self.year < other.year
        } else if self.month != other.month {
            self.month < other.month
        } else {
            self.day <= other.day
        }
    }

    pub fn lt(self, other: Date) -> (r: bool)
        ensures
            r == self.spec_lt(other),
    {
        self.le(other) && !(self.year == other.year && self.month == other.month && self.day
            == other.day)
    }
}

/// Closed form for `days_before_year`: 365 days a year, plus one for each
/// leap year among `0 .. y` (year 0 itself is leap).
pub open spec fn days_before_year_closed(y: int) -> int {
    if y <= 0 {
        0
    } else {
        365 * y + 1 + (y - 1) / 4 - (y - 1) / 100 + (y - 1) / 400
    }
}

/// For positive `y` and divisor `k`, `y / k` exceeds `(y - 1) / k` exactly
/// when `k` divides `y`.
proof fn lemma_div_step(y: int, k: int)
    requires
        y >= 1,
        k >= 1,
    ensures
        y / k - (y - 1) / k == if y % k == 0 {
            1int
        } else {
            0int
        },
{
    let q = (y - 1) / k;
    let r = (y - 1) % k;
    lemma_fundamental_div_mod(y - 1, k);
    if r == k - 1 {
        assert((q + 1) * k == q * k + k) by (nonlinear_arith);
        lemma_fundamental_div_mod_converse(y, k, q + 1, 0);
    } else {
        lemma_fundamental_div_mod_converse(y, k, q, r + 1);
    }
}

proof fn lemma_mult_divisibility(y: int)
    requires
        y >= 1,
    ensures
        y % 100 == 0 ==> y % 4 == 0,
        y % 400 == 0 ==> y % 100 == 0,
{
    if y % 100 == 0 {
        lemma_fundamental_div_mod(y, 100);
        let k = y / 100;
        assert(100 * k == 4 * (25 * k)) by (nonlinear_arith);
        lemma_fundamental_div_mod_converse(y, 4, 25 * k, 0);
    }
    if y % 400 == 0 {
        lemma_fundamental_div_mod(y, 400);
        let k = y / 400;
        assert(400 * k == 100 * (4 * k)) by (nonlinear_arith);
        lemma_fundamental_div_mod_converse(y, 100, 4 * k, 0);
    }
}

pub proof fn lemma_dby_closed(y: int)
    requires
        0 <= y <= 10000,
    ensures
        days_before_year(y) == days_before_year_closed(y),
    decreases y,
{
    if y == 0 {
    } else if y == 1 {
        reveal_with_fuel(days_before_year, 3);
        assert(is_leap_spec(0));
        assert(days_before_year(1) == 366);
    } else {
        lemma_dby_closed(y - 1);
        lemma_div_step(y - 1, 4);
        lemma_div_step(y - 1, 100);
        lemma_div_step(y - 1, 400);
        lemma_mult_divisibility(y - 1);
        assert(days_before_year_closed(y) - days_before_year_closed(y - 1) == days_in_year_spec(
            y - 1,
        ));
    }
}

/// `days_before_year` grows by at least 365 a year, so it stays within
/// easy numeric bounds on the bounded year range.
pub proof fn lemma_dby_bound(y: int)
    requires
        0 <= y <= 10000,
    ensures
        days_before_year(y) <= 366 * y,
    decreases y,
{
    if y > 0 {
        lemma_dby_bound(y - 1);
    }
}

impl Date {
    /// The day index, computed by the closed formula.
    pub fn day_number(&self) -> (n: u32)
        requires
            self.is_valid(),
        ensures
            n == self.day_index(),
    {
        proof {
            lemma_dby_closed(self.year as int);
            lemma_dby_bound(self.year as int);
            lemma_dbm_monotone(self.year as int, self.month as int, 13);
            lemma_dbm_full(self.year as int);
            lemma_idx_in_year(*self);
        }
        let y = self.year as u32;
        let before_year: u32 = if y == 0 {
            0
        } else {
            proof {
                assert((y - 1) as u32 / 4 <= 2500 && (y - 1) as u32 / 100 <= 100 && (y - 1) as u32
                    / 400 <= 25) by (nonlinear_arith)
                    requires
                        y <= 10000,
                        y >= 1,
                ;
            }
            365 * y + 1 + (y - 1) / 4 - (y - 1) / 100 + (y - 1) / 400
        };
        let before_month: u32 = self.days_before_month_exec();
        before_year + before_month + (self.day as u32 - 1)
    }

    fn days_before_month_exec(&self) -> (r: u32)
        requires
            self.is_valid(),
        ensures
            r == days_before_month(self.year as int, self.month as int),
    {
        proof {
            reveal_with_fuel(days_before_month, 14);
        }
        let base: u32 = match self.month {
            1 => 0,
            2 => 31,
            3 => 59,
            4 => 90,
            5 => 120,
            6 => 151,
            7 => 181,
            8 => 212,
            9 => 243,
            10 => 273,
            11 => 304,
            _ => 334,
        };
        if self.month > 2 && is_leap_year(self.year) {
            base + 1
        } else {
            base
        }
    }

    /// This date moved `n` days later; `None` where that leaves the
    /// representable range.
    pub fn add_days(self, n: u32) -> (r: Option<Date>)
        requires
            self.is_valid(),
        ensures
            match r {
                Some(d) => d.is_valid() && d.day_index() == self.day_index() + n,
                None => self.day_index() + n > max_day_index(),
            },
    {
        let mut cur = self;
        let mut i: u32 = 0;
        while i < n
            invariant
                self.is_valid(),
                cur.is_valid(),
                i <= n,
                cur.day_index() == self.day_index() + i,
            decreases n - i,
        {
            match cur.succ() {
                Some(nx) => {
                    cur = nx;
                    i = i + 1;
                },
                None => {
                    proof {
                        lemma_idx_le_max(cur);
                    }
                    return None;
                },
            }
        }
        Some(cur)
    }

    /// This date moved `n` days earlier; `None` where that leaves the
    /// representable range.
    pub fn sub_days(self, n: u32) -> (r: Option<Date>)
        requires
            self.is_valid(),
        ensures
            match r {
                Some(d) => d.is_valid() && d.day_index() == self.day_index() - n,
                None => self.day_index() - n < 0,
            },
    {
        let mut cur = self;
        let mut i: u32 = 0;
        while i < n
            invariant
                self.is_valid(),
                cur.is_valid(),
                i <= n,
                cur.day_index() == self.day_index() - i,
            decreases n - i,
        {
            match cur.pred() {
                Some(px) => {
                    cur = px;
                    i = i + 1;
                },
                None => {
                    proof {
                        assert(cur == min_date());
                        assert(cur.day_index() == 0);
                    }
                    return None;
                },
            }
        }
        Some(cur)
    }

    /// Signed day difference `self - other`.
    pub fn days_diff(self, other: Date) -> (r: i64)
        requires
            self.is_valid(),
            other.is_valid(),
        ensures
            r == self.day_index() - other.day_index(),
    {
        self.day_number() as i64 - other.day_number() as i64
    }
}

/// Every valid date's index fits comfortably in 32 bits.
pub proof fn lemma_idx_bound(d: Date)
    requires
        d.is_valid(),
    ensures
        0 <= d.day_index() < 3_700_000,
{
    lemma_idx_in_year(d);
    lemma_dby_monotone(0, d.year as int);
    lemma_dby_monotone(d.year as int + 1, 10000);
    lemma_dby_bound(10000);
}

/// Relies on chrono's `Local::now().date_naive()`: the local clock
/// yields a valid proleptic Gregorian (year, month, day) triple.
#[verifier::external_body]
fn today_ymd() -> (r: (i32, u32, u32))
    ensures
        1 <= r.1 <= 12,
        1 <= r.2 <= days_in_month_spec(r.0 as int, r.1 as int),
{
    let d = chrono::Local::now().date_naive();
    (d.year(), d.month(), d.day())
}

/// Today's date by the local clock, clamped into the representable
/// year range.
pub fn today_date() -> (r: Date)
    ensures
        r.is_valid(),
{
    let (y, m, d) = today_ymd();
    if 0 <= y && y <= MAX_YEAR {
        Date { year: y, month: m as u8, day: d as u8 }
    } else if y < 0 {
        Date { year: 0, month: 1, day: 1 }
    } else {
        Date { year: MAX_YEAR, month: 12, day: 31 }
    }
}

} // verus!
