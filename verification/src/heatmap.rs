//! The calendar heat-map model: a date range laid out in columns of
//! `rows` consecutive days, two terminal columns per day column, with a
//! label row on top, month separators between day columns that cross a
//! month boundary, and a set of marked (completed) dates.

use crate::activites::Activity;
use crate::date::{date_of_index, lemma_date_of_index, lemma_dbm_full, lemma_idx_bound,
    lemma_idx_injective, lemma_idx_le_max, lemma_lt_implies_idx_lt, Date};
use crate::rect::Rect;
use vstd::arithmetic::div_mod::{lemma_div_is_ordered, lemma_fundamental_div_mod,
    lemma_fundamental_div_mod_converse, lemma_mod_bound};
use vstd::prelude::*;

verus! {

/// What one heat-map tile stands for.
#[derive(PartialEq, Eq, Structural, Clone, Copy, Debug)]
pub enum HeatMapTileScale {
    Day,
}

/// The first and last date shown.
#[derive(Clone, Copy, PartialEq, Eq, Structural, Debug)]
pub struct HeatMapDateRange(pub Date, pub Date);

impl HeatMapDateRange {
    /// One year ending today; shorter only when today is close to the
    /// start of the representable range.
    pub fn one_year_ending_today() -> (r: Self)
        ensures
            r.0.is_valid(),
            r.1.is_valid(),
            r.0.spec_le(r.1),
            r.1.day_index() - r.0.day_index() <= 365,
            r.0 == crate::date::min_date() || r.1.day_index() - r.0.day_index() == 365,
    {
        let today = crate::date::today_date();
        match today.sub_days(365) {
            Some(start) => {
                proof {
                    if !start.spec_le(today) {
                        lemma_lt_implies_idx_lt(today, start);
                    }
                }
                Self(start, today)
            },
            None => {
                let start = Date { year: 0, month: 1, day: 1 };
                proof {
                    if !start.spec_le(today) {
                        lemma_lt_implies_idx_lt(today, start);
                        lemma_idx_bound(today);
                    }
                    lemma_idx_bound(today);
                }
                Self(start, today)
            },
        }
    }

    /// January 1 through December 31 of the current year.
    pub fn current_year() -> (r: Self)
        ensures
            r.0.is_valid(),
            r.1.is_valid(),
            r.0.year == r.1.year,
            r.0.month == 1 && r.0.day == 1,
            r.1.month == 12 && r.1.day == 31,
            r.0.spec_le(r.1),
            r.1.day_index() - r.0.day_index() <= 365,
    {
        let today = crate::date::today_date();
        let start = Date { year: today.year, month: 1, day: 1 };
        let finish = Date { year: today.year, month: 12, day: 31 };
        proof {
            lemma_dbm_full(today.year as int);
        }
        Self(start, finish)
    }
}

/// `d` carries positive heat: some record is dated `d`.
pub open spec fn has_heat(s: Seq<Activity>, d: Date) -> bool {
    exists|i: int| 0 <= i < s.len() && s[i].date == d
}

/// The heat-map model. Colors and drawing live with the renderer; the
/// model carries the range, the row count and the marked dates.
pub struct HeatMap {
    pub date_range: HeatMapDateRange,
    pub rows: u16,
    pub values: Vec<Activity>,
}

/// Month labels of the columns from day offset `k` on, walking one
/// column (`rows` days) at a time: a column is labeled with its month
/// exactly when that month differs from the last label.
pub open spec fn labels_from(s: &HeatMap, area: Rect, k: int, last: int) -> Seq<(u16, u8)>
    decreases s.span() + s.rows - k,
    when s.rows >= 1 && s.span() >= 0
{
    if k < 0 || k >= s.span() {
        Seq::empty()
    } else {
        let m = date_of_index(s.start().day_index() + k).month;
        let x = (area.x + 2 * (k / s.rows as int)) as u16;
        if m as int != last {
            seq![(x, m)] + labels_from(s, area, k + s.rows as int, m as int)
        } else {
            labels_from(s, area, k + s.rows as int, last)
        }
    }
}

impl HeatMap {
    pub open spec fn start(&self) -> Date {
        self.date_range.0
    }

    pub open spec fn end_date(&self) -> Date {
        self.date_range.1
    }

    /// Number of days after the first: the last date's day offset.
    pub open spec fn span(&self) -> int {
        self.end_date().day_index() - self.start().day_index()
    }

    pub open spec fn wf(&self) -> bool {
        &&& self.start().is_valid()
        &&& self.end_date().is_valid()
        &&& self.start().spec_le(self.end_date())
        &&& 1 <= self.rows
    }

    /// The area leaves room for every cell coordinate in 16 bits.
    pub open spec fn fits(&self, area: Rect) -> bool {
        &&& area.x + 2 * (self.span() / self.rows as int) + 1 <= u16::MAX
        &&& area.y + 1 + self.rows <= u16::MAX
    }

    /// The current year, seven rows, no marked dates.
    pub fn new() -> (r: Self)
        ensures
            r.wf(),
            r.rows == 7,
            r.values@ == Seq::<Activity>::empty(),
            r.date_range.0.month == 1 && r.date_range.0.day == 1,
            r.date_range.1.month == 12 && r.date_range.1.day == 31,
            r.date_range.0.year == r.date_range.1.year,
            r.span() <= 365,
    {
        let values: Vec<Activity> = Vec::new();
        proof {
            assert(values@ =~= Seq::<Activity>::empty());
        }
        HeatMap { date_range: HeatMapDateRange::current_year(), rows: 7, values }
    }

    pub fn date_range(self, start: Date, end: Date) -> (r: Self)
        requires
            start.is_valid(),
            end.is_valid(),
            start.spec_le(end),
        ensures
            r.date_range == (HeatMapDateRange(start, end)),
            r.rows == self.rows,
            r.values == self.values,
    {
        Self { date_range: HeatMapDateRange(start, end), ..self }
    }

    pub fn rows(self, rows: u16) -> (r: Self)
        requires
            rows >= 1,
        ensures
            r.rows == rows,
            r.date_range == self.date_range,
            r.values == self.values,
    {
        Self { rows, ..self }
    }

    pub fn values(self, values: Vec<Activity>) -> (r: Self)
        ensures
            r.values == values,
            r.date_range == self.date_range,
            r.rows == self.rows,
    {
        Self { values, ..self }
    }

    /// Whether any record marks `date`.
    pub fn heat_at_date(&self, date: Date) -> (r: bool)
        ensures
            r == has_heat(self.values@, date),
    {
        let mut i: usize = 0;
        while i < self.values.len()
            invariant
                0 <= i <= self.values@.len(),
                forall|j: int| 0 <= j < i ==> (#[trigger] self.values@[j]).date != date,
            decreases self.values@.len() - i,
        {
            if self.values[i].date == date {
                return true;
            }
            i = i + 1;
        }
        false
    }

    /// The cell of `date`: column pairs of terminal cells left to right,
    /// day-of-column top to bottom under the label row.
    pub fn date_to_position(&self, date: Date, area: &Rect) -> (r: (u16, u16))
        requires
            self.wf(),
            date.is_valid(),
            self.start().spec_le(date),
            date.spec_le(self.end_date()),
            self.fits(*area),
        ensures
            r.0 == area.x + 2 * ((date.day_index() - self.start().day_index())
                / self.rows as int),
            r.1 == area.y + 1 + ((date.day_index() - self.start().day_index())
                % self.rows as int),
    {
        proof {
            if self.start() != date {
                lemma_lt_implies_idx_lt(self.start(), date);
            }
            if date != self.end_date() {
                lemma_lt_implies_idx_lt(date, self.end_date());
            }
            lemma_idx_bound(date);
            lemma_idx_bound(self.start());
        }
        let k64 = date.days_diff(self.date_range.0);
        let k = k64 as u32;
        let rows = self.rows as u32;
        proof {
            lemma_div_is_ordered(k as int, self.span(), self.rows as int);
            lemma_mod_bound(k as int, self.rows as int);
        }
        let col = k / rows;
        let row = k % rows;
        let x = (area.x as u32 + 2 * col) as u16;
        let y = (area.y as u32 + 1 + row) as u16;
        (x, y)
    }

    /// The date shown at terminal position `(x, y)` inside `area`.
    pub fn position_to_date(&self, x: u16, y: u16, area: &Rect) -> (r: Date)
        requires
            self.wf(),
            x >= area.x,
            area.y + 1 <= y <= area.y + self.rows,
            ((x - area.x) as int / 2) * self.rows + (y - area.y - 1) <= self.span(),
        ensures
            r.is_valid(),
            r.day_index() == self.start().day_index() + ((x - area.x) as int / 2)
                * self.rows + (y - area.y - 1),
    {
        proof {
            lemma_idx_bound(self.start());
            lemma_idx_bound(self.end_date());
            if self.start() != self.end_date() {
                lemma_lt_implies_idx_lt(self.start(), self.end_date());
            }
            vstd::arithmetic::div_mod::lemma_div_pos_is_pos((x - area.x) as int, 2);
        }
        let dx = ((x - area.x) / 2) as u64;
        let dy = (y - area.y - 1) as u64;
        let k64 = dx * self.rows as u64 + dy;
        proof {
            assert(k64 == ((x - area.x) as int / 2) * self.rows + (y - area.y - 1));
        }
        let k = k64 as u32;
        let o = self.date_range.0.add_days(k);
        proof {
            lemma_idx_le_max(self.end_date());
            if o.is_none() {
                assert(false);
            }
        }
        o.unwrap()
    }

    /// The date one column to the right of `date` (same row), if it is
    /// still inside the range.
    pub fn next_column_date(&self, date: Date) -> (r: Option<Date>)
        requires
            self.wf(),
            date.is_valid(),
        ensures
            r.is_some() <==> date.day_index() + self.rows <= self.end_date().day_index(),
            r.is_some() ==> {
                &&& r.unwrap().is_valid()
                &&& r.unwrap().day_index() == date.day_index() + self.rows
            },
    {
        match date.add_days(self.rows as u32) {
            Some(nd) => {
                proof {
                    if nd.spec_le(self.end_date()) {
                        if nd != self.end_date() {
                            lemma_lt_implies_idx_lt(nd, self.end_date());
                        }
                    } else {
                        lemma_lt_implies_idx_lt(self.end_date(), nd);
                    }
                }
                if nd.le(self.date_range.1) {
                    Some(nd)
                } else {
                    None
                }
            },
            None => {
                proof {
                    lemma_idx_le_max(self.end_date());
                }
                None
            },
        }
    }

    /// The month-separator cell to the right of `date`'s cell, if one is
    /// drawn there: present exactly when the date one column right is
    /// still in range and lies in a different month. The flag marks the
    /// top row, whose separator uses the half-height glyph.
    pub fn month_border_at(&self, date: Date, area: &Rect) -> (r: Option<(u16, u16, bool)>)
        requires
            self.wf(),
            date.is_valid(),
            self.start().spec_le(date),
            date.spec_le(self.end_date()),
            self.fits(*area),
        ensures
            r.is_some() <==> (date.day_index() + self.rows <= self.end_date().day_index()
                && date_of_index(date.day_index() + self.rows).month != date.month),
            r.is_some() ==> ({
                let k = date.day_index() - self.start().day_index();
                &&& r.unwrap().0 == area.x + 2 * (k / self.rows as int) + 1
                &&& r.unwrap().1 == area.y + 1 + (k % self.rows as int)
                &&& r.unwrap().2 == ((k % self.rows as int) == 0)
            }),
    {
        let (x, y) = self.date_to_position(date, area);
        match self.next_column_date(date) {
            Some(nd) => {
                proof {
                    lemma_idx_bound(self.end_date());
                    lemma_idx_bound(date);
                    lemma_idx_le_max(self.end_date());
                    if date != self.end_date() {
                        lemma_lt_implies_idx_lt(date, self.end_date());
                    }
                    lemma_div_is_ordered(
                        date.day_index() - self.start().day_index(),
                        self.span(),
                        self.rows as int,
                    );
                    lemma_date_of_index(date.day_index() + self.rows);
                    lemma_idx_injective(nd, date_of_index(date.day_index() + self.rows));
                    lemma_mod_bound(
                        date.day_index() - self.start().day_index(),
                        self.rows as int,
                    );
                }
                if nd.month != date.month {
                    Some((x + 1, y, y == area.y + 1))
                } else {
                    None
                }
            },
            None => None,
        }
    }

    /// The labeled columns: x position and month number of each column
    /// whose month differs from the previous label.
    pub fn month_label_columns(&self, area: &Rect) -> (r: Vec<(u16, u8)>)
        requires
            self.wf(),
            self.fits(*area),
        ensures
            r@ == labels_from(self, *area, 0, -1),
    {
        proof {
            lemma_idx_bound(self.start());
            lemma_idx_bound(self.end_date());
            if self.start() != self.end_date() {
                lemma_lt_implies_idx_lt(self.start(), self.end_date());
            }
        }
        let span = self.date_range.1.days_diff(self.date_range.0) as u32;
        let mut acc: Vec<(u16, u8)> = Vec::new();
        let mut k: u32 = 0;
        let mut last: i32 = -1;
        proof {
            assert(acc@ + labels_from(self, *area, 0, -1) =~= labels_from(self, *area, 0, -1));
        }
        while k < span
            invariant
                self.wf(),
                self.fits(*area),
                span == self.span(),
                0 <= k,
                acc@ + labels_from(self, *area, k as int, last as int) == labels_from(
                    self,
                    *area,
                    0,
                    -1,
                ),
            decreases span + self.rows - k,
        {
            proof {
                lemma_idx_bound(self.start());
                lemma_idx_bound(self.end_date());
                lemma_idx_le_max(self.end_date());
            }
            let o = self.date_range.0.add_days(k);
            proof {
                if o.is_none() {
                    assert(false);
                }
            }
            let cur = o.unwrap();
            proof {
                lemma_date_of_index(self.start().day_index() + k);
                lemma_idx_injective(cur, date_of_index(self.start().day_index() + k));
                lemma_div_is_ordered(k as int, self.span(), self.rows as int);
            }
            let x = (area.x as u32 + 2 * (k / self.rows as u32)) as u16;
            let m = cur.month;
            let ghost prev_last = last as int;
            let ghost ghost_acc = acc@;
            if m as i32 != last {
                acc.push((x, m));
                last = m as i32;
                proof {
                    assert(labels_from(self, *area, k as int, prev_last) == seq![(x, m)]
                        + labels_from(self, *area, k + self.rows as int, m as int));
                    assert(acc@ =~= ghost_acc.push((x, m)));
                    assert(acc@ + labels_from(self, *area, k + self.rows as int, last as int)
                        =~= labels_from(self, *area, 0, -1));
                }
            } else {
                proof {
                    assert(labels_from(self, *area, k as int, prev_last) == labels_from(
                        self,
                        *area,
                        k + self.rows as int,
                        prev_last,
                    ));
                }
            }
            k = k + self.rows as u32;
        }
        proof {
            assert(labels_from(self, *area, k as int, last as int) =~= Seq::<(u16, u8)>::empty());
            assert(acc@ =~= labels_from(self, *area, 0, -1));
        }
        acc
    }

    /// Terminal columns needed: two per day column, counting the partly
    /// filled last column.
    pub fn width(&self) -> (r: u16)
        requires
            self.wf(),
            2 * ((self.span() + self.rows) / self.rows as int) <= u16::MAX,
        ensures
            r == 2 * ((self.span() + self.rows) / self.rows as int),
    {
        proof {
            lemma_idx_bound(self.start());
            lemma_idx_bound(self.end_date());
            if self.start() != self.end_date() {
                lemma_lt_implies_idx_lt(self.start(), self.end_date());
            }
            vstd::arithmetic::div_mod::lemma_div_pos_is_pos(
                self.span() + self.rows,
                self.rows as int,
            );
        }
        let days = self.date_range.1.days_diff(self.date_range.0) as u32;
        let cols = (days + self.rows as u32) / self.rows as u32;
        (2 * cols) as u16
    }

    /// Terminal rows needed: the day rows plus the label row.
    pub fn height(&self) -> (r: u16)
        requires
            self.rows < u16::MAX,
        ensures
            r == self.rows + 1,
    {
        self.rows + 1
    }
}

/// Geometry round trip: reading a date's cell position back yields
/// first the day offset it was computed from, and with it the date
/// itself, for every date in range.
pub proof fn lemma_position_round_trip(start: Date, d: Date, rows: int, area_x: int, area_y: int)
    requires
        rows >= 1,
        start.is_valid(),
        d.is_valid(),
        start.spec_le(d),
    ensures
        ({
            let k = d.day_index() - start.day_index();
            let x = area_x + 2 * (k / rows);
            let y = area_y + 1 + (k % rows);
            &&& ((x - area_x) / 2) * rows + (y - area_y - 1) == k
            &&& date_of_index(start.day_index() + ((x - area_x) / 2) * rows + (y - area_y - 1))
                == d
        }),
{
    lemma_idx_bound(d);
    lemma_idx_le_max(d);
    lemma_date_of_index(d.day_index());
    lemma_idx_injective(date_of_index(d.day_index()), d);
    let k = d.day_index() - start.day_index();
    if start != d {
        lemma_lt_implies_idx_lt(start, d);
    }
    lemma_fundamental_div_mod(k, rows);
    lemma_mod_bound(k, rows);
    let q = k / rows;
    vstd::arithmetic::div_mod::lemma_div_pos_is_pos(k, rows);
    lemma_fundamental_div_mod_converse(2 * q, 2, q, 0);
    assert((2 * q) / 2 == q);
    let x = area_x + 2 * q;
    let y = area_y + 1 + (k % rows);
    assert((x - area_x) / 2 == q);
    assert((y - area_y - 1) == k % rows);
    assert(q * rows + k % rows == k) by (nonlinear_arith)
        requires
            rows >= 1,
            q == k / rows,
            k >= 0,
            k == rows * q + k % rows,
    ;
}

} // verus!
