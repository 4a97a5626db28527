//! The activity selector: a grid of options, three per row, with a
//! wrapping/bounded 2D cursor over the flattened option list.

use vstd::arithmetic::div_mod::lemma_fundamental_div_mod_converse;
use vstd::prelude::*;

verus! {

pub const ACTIVITIES_PER_ROW: u16 = 3;

/// Cursor state over `activity_count` options. The invariant `wf` says:
/// no selection exactly when there are no options, else the selection is
/// a position inside the option list.
#[derive(Clone, Copy, PartialEq, Eq, Structural, Debug)]
pub struct ActivitySelectorState {
    pub activity_count: usize,
    pub selected_index: Option<usize>,
}

pub open spec fn moved_right(s: ActivitySelectorState) -> ActivitySelectorState {
    ActivitySelectorState {
        activity_count: s.activity_count,
        selected_index: match s.selected_index {
            None => None,
            Some(i) => Some((((i + 1) as int % s.activity_count as int)) as usize),
        },
    }
}

pub open spec fn moved_left(s: ActivitySelectorState) -> ActivitySelectorState {
    ActivitySelectorState {
        activity_count: s.activity_count,
        selected_index: match s.selected_index {
            None => None,
            Some(i) => Some(
                (((i + s.activity_count - 1) as int % s.activity_count as int)) as usize,
            ),
        },
    }
}

pub open spec fn moved_up(s: ActivitySelectorState) -> ActivitySelectorState {
    ActivitySelectorState {
        activity_count: s.activity_count,
        selected_index: match s.selected_index {
            None => None,
            Some(i) => if i >= ACTIVITIES_PER_ROW {
                Some((i - ACTIVITIES_PER_ROW) as usize)
            } else {
                Some(i)
            },
        },
    }
}

pub open spec fn moved_down(s: ActivitySelectorState) -> ActivitySelectorState {
    ActivitySelectorState {
        activity_count: s.activity_count,
        selected_index: match s.selected_index {
            None => None,
            Some(i) => if i + ACTIVITIES_PER_ROW < s.activity_count {
                Some((i + ACTIVITIES_PER_ROW) as usize)
            } else {
                Some(i)
            },
        },
    }
}

impl ActivitySelectorState {
    pub open spec fn wf(&self) -> bool {
        match self.selected_index {
            None => self.activity_count == 0,
            Some(i) => 0 <= i < self.activity_count,
        }
    }

    /// The state over `activity_count` options with the cursor reset.
    pub open spec fn spec_new(activity_count: usize) -> ActivitySelectorState {
        ActivitySelectorState {
            activity_count,
            selected_index: if activity_count == 0 {
                None
            } else {
                Some(0usize)
            },
        }
    }

    pub fn new(activity_count: usize) -> (r: Self)
        ensures
            r == Self::spec_new(activity_count),
            r.wf(),
    {
        Self {
            activity_count,
            selected_index: if activity_count == 0 {
                None
            } else {
                Some(0)
            },
        }
    }

    /// Move one right, wrapping to the start past the last option.
    pub fn select_right(&mut self)
        requires
            old(self).wf(),
        ensures
            final(self).wf(),
            *final(self) == moved_right(*old(self)),
    {
        if let Some(index) = self.selected_index {
            let n = self.activity_count;
            let next = (index + 1) % n;
            proof {
                if index + 1 == n {
                    lemma_fundamental_div_mod_converse((index + 1) as int, n as int, 1, 0);
                } else {
                    lemma_fundamental_div_mod_converse(
                        (index + 1) as int,
                        n as int,
                        0,
                        (index + 1) as int,
                    );
                }
            }
            self.selected_index = Some(next);
        }
    }

    /// Move one left, wrapping to the end before the first option.
    pub fn select_left(&mut self)
        requires
            old(self).wf(),
        ensures
            final(self).wf(),
            *final(self) == moved_left(*old(self)),
    {
        if let Some(index) = self.selected_index {
            let n = self.activity_count;
            let prev = if index == 0 {
                n - 1
            } else {
                index - 1
            };
            proof {
                if index == 0 {
                    lemma_fundamental_div_mod_converse((n - 1) as int, n as int, 0, (n - 1) as int);
                } else {
                    lemma_fundamental_div_mod_converse(
                        (index + n - 1) as int,
                        n as int,
                        1,
                        (index - 1) as int,
                    );
                }
            }
            self.selected_index = Some(prev);
        }
    }

    /// Move one row up; ignored if that would leave the grid.
    pub fn select_up(&mut self)
        requires
            old(self).wf(),
        ensures
            final(self).wf(),
            *final(self) == moved_up(*old(self)),
    {
        if let Some(index) = self.selected_index {
            if index >= ACTIVITIES_PER_ROW as usize {
                self.selected_index = Some(index - ACTIVITIES_PER_ROW as usize);
            }
        }
    }

    /// Move one row down; ignored if that would pass the last option.
    pub fn select_down(&mut self)
        requires
            old(self).wf(),
        ensures
            final(self).wf(),
            *final(self) == moved_down(*old(self)),
    {
        if let Some(index) = self.selected_index {
            if self.activity_count - index > ACTIVITIES_PER_ROW as usize {
                self.selected_index = Some(index + ACTIVITIES_PER_ROW as usize);
            }
        }
    }

    pub fn selected(&self, index: usize) -> (r: bool)
        ensures
            r == (self.selected_index == Some(index)),
    {
        match self.selected_index {
            Some(i) => i == index,
            None => false,
        }
    }

    pub fn selected_index(&self) -> (r: Option<usize>)
        ensures
            r == self.selected_index,
    {
        self.selected_index
    }
}

/// What the selector needs of an option: a label and a completion mark.
pub trait ActivitySelectorValue {
    fn name(&self) -> &str;

    fn completed(&self) -> bool;
}

/// Display data of the selector panel; drawing happens elsewhere.
pub struct ActivitySelector<'a, T: ActivitySelectorValue> {
    pub title: String,
    pub values: Vec<&'a T>,
    pub row_height: u16,
}

pub open spec fn spaces(n: int) -> Seq<char> {
    Seq::new(n as nat, |i: int| ' ')
}

pub const TITLE_WIDTH: u16 = 34;

impl<'a, T: ActivitySelectorValue> ActivitySelector<'a, T> {
    pub fn new() -> (r: Self)
        ensures
            r.title@ == "Activity Selector"@,
            r.values@ == Seq::<&'a T>::empty(),
            r.row_height == 5,
    {
        let v: Vec<&'a T> = Vec::new();
        proof {
            assert(v@ =~= Seq::<&'a T>::empty());
        }
        Self { title: String::from_str("Activity Selector"), values: v, row_height: 5 }
    }

    pub fn values(self, values: Vec<&'a T>) -> (r: Self)
        ensures
            r.values == values,
            r.title == self.title,
            r.row_height == self.row_height,
    {
        Self { values, ..self }
    }

    pub fn title(self, title: String) -> (r: Self)
        ensures
            r.title == title,
            r.values == self.values,
            r.row_height == self.row_height,
    {
        Self { title, ..self }
    }

    /// The title centered in a fixed-width strip, padded with spaces.
    pub fn formatted_title(&self) -> (r: String)
        ensures
            self.title@.len() >= TITLE_WIDTH ==> r@ == self.title@,
            self.title@.len() < TITLE_WIDTH ==> r@ == spaces(
                (TITLE_WIDTH - self.title@.len()) as int / 2,
            ) + self.title@ + spaces(
                TITLE_WIDTH - self.title@.len() - (TITLE_WIDTH - self.title@.len()) as int / 2,
            ),
    {
        let len = self.title.as_str().unicode_len();
        if len >= TITLE_WIDTH as usize {
            return self.title.clone();
        }
        let left = (TITLE_WIDTH as usize - len) / 2;
        let right = TITLE_WIDTH as usize - len - left;
        let mut out = String::new();
        let mut i: usize = 0;
        proof {
            reveal_strlit(" ");
        }
        while i < left
            invariant
                0 <= i <= left,
                out@ == spaces(i as int),
            decreases left - i,
        {
            out.append(" ");
            proof {
                reveal_strlit(" ");
                assert(out@ =~= spaces(i + 1));
            }
            i = i + 1;
        }
        out.append(self.title.as_str());
        let mut j: usize = 0;
        let ghost mid = out@;
        while j < right
            invariant
                0 <= j <= right,
                out@ == mid + spaces(j as int),
            decreases right - j,
        {
            out.append(" ");
            proof {
                reveal_strlit(" ");
                assert(out@ =~= mid + spaces(j + 1));
            }
            j = j + 1;
        }
        proof {
            assert(mid + spaces(0) =~= mid);
            assert(out@ =~= spaces(left as int) + self.title@ + spaces(right as int));
        }
        out
    }

    /// Panel height: full rows of three, a partial row if one remains,
    /// plus the two border rows.
    pub fn height(&self) -> (r: u16)
        requires
            self.values@.len() <= u16::MAX,
            (self.values@.len() as int / ACTIVITIES_PER_ROW as int + 1) * self.row_height + 2
                <= u16::MAX,
        ensures
            r == ({
                let v = self.values@.len() as int;
                let rows = if v % ACTIVITIES_PER_ROW as int != 0 {
                    v / ACTIVITIES_PER_ROW as int + 1
                } else {
                    v / ACTIVITIES_PER_ROW as int
                };
                rows * self.row_height + 2
            }),
    {
        let values = self.values.len() as u16;
        let rows = if values % ACTIVITIES_PER_ROW != 0 {
            values / ACTIVITIES_PER_ROW + 1
        } else {
            values / ACTIVITIES_PER_ROW
        };
        proof {
            assert(self.values@.len() as int / ACTIVITIES_PER_ROW as int >= 0) by {
                vstd::arithmetic::div_mod::lemma_div_pos_is_pos(
                    self.values@.len() as int,
                    ACTIVITIES_PER_ROW as int,
                );
            }
            assert(rows * self.row_height + 2 <= u16::MAX) by {
                let v = self.values@.len() as int;
                let q = v / ACTIVITIES_PER_ROW as int;
                assert(rows <= q + 1);
                assert(self.row_height >= 0);
                assert(rows * self.row_height <= (q + 1) * self.row_height)
                    by (nonlinear_arith)
                    requires
                        rows <= q + 1,
                        self.row_height >= 0,
                ;
            }
        }
        rows * self.row_height + 2
    }
}

} // verus!
