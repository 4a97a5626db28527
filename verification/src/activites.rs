//! The activity-type registry and the activity log.
//!
//! The registry maps small integer ids to named activity types; ids are
//! allocated as the smallest unused non-negative integer and listing is
//! in ascending id order. The log stores completion records grouped by
//! day; it tolerates duplicate records and keeps records whose type id
//! no longer exists in the registry.

use crate::date::Date;
use vstd::multiset::Multiset;
use vstd::prelude::*;

verus! {

#[derive(Clone, Copy, PartialEq, Eq, Structural, Hash, Debug)]
pub struct ActivityId(pub u32);

/// A completion record: the given activity type was done on the given day.
#[derive(Clone, Copy, PartialEq, Eq, Structural, Hash, Debug)]
pub struct Activity {
    pub activity_id: ActivityId,
    pub date: Date,
}

impl Activity {
    pub fn new(activity_id: ActivityId, date: Date) -> (r: Self)
        ensures
            r == (Activity { activity_id, date }),
    {
        Self { activity_id, date }
    }
}

/// A named activity type with its registry id.
pub struct ActivityType {
    pub id: ActivityId,
    pub name: String,
}

impl Clone for ActivityType {
    fn clone(&self) -> (r: Self)
        ensures
            r == *self,
    {
        ActivityType { id: self.id, name: self.name.clone() }
    }
}

impl ActivityType {
    pub fn new(id: ActivityId, name: String) -> (r: Self)
        ensures
            r == (ActivityType { id, name }),
    {
        Self { id, name }
    }
}

/// Some element of `s` carries the id `id`.
pub open spec fn has_id(s: Seq<ActivityType>, id: u32) -> bool {
    exists|i: int| 0 <= i < s.len() && s[i].id.0 == id
}

/// Ids strictly ascending along the sequence: each id occurs at most once
/// and listing order is ascending id order.
pub open spec fn ids_sorted(s: Seq<ActivityType>) -> bool {
    forall|i: int, j: int| 0 <= i < j < s.len() ==> s[i].id.0 < s[j].id.0
}

/// Registry of activity types, listed in ascending id order.
pub struct ActivityTypesStore {
    types: Vec<ActivityType>,
}

impl View for ActivityTypesStore {
    type V = Seq<ActivityType>;

    closed spec fn view(&self) -> Seq<ActivityType> {
        self.types@
    }
}

/// In a sorted registry every id at or past position `k` is at least the
/// id at `k` plus its distance from `k`; in particular `s[i].id.0 >= i`.
proof fn lemma_sorted_id_lower_bound(s: Seq<ActivityType>, i: int)
    requires
        ids_sorted(s),
        0 <= i < s.len(),
    ensures
        s[i].id.0 >= i,
    decreases i,
{
    if i > 0 {
        lemma_sorted_id_lower_bound(s, i - 1);
    }
}

/// If every id below `k` is present in a sorted registry, the first `k`
/// positions hold exactly the ids `0 .. k`.
proof fn lemma_ids_identity(s: Seq<ActivityType>, k: u32)
    requires
        ids_sorted(s),
        forall|j: u32| j < k ==> has_id(s, j),
    ensures
        k <= s.len(),
        forall|i: int| 0 <= i < k ==> (#[trigger] s[i].id.0) == i,
    decreases k,
{
    if k > 0 {
        lemma_ids_identity(s, (k - 1) as u32);
        assert(has_id(s, (k - 1) as u32));
        let w = choose|w: int| 0 <= w < s.len() && s[w].id.0 == k - 1;
        if w < k - 1 {
            assert(s[w].id.0 == w);
        } else {
            assert(k - 1 <= w < s.len());
            if w > k - 1 {
                // The element at k - 1 would repeat some smaller id.
                lemma_sorted_id_lower_bound(s, k - 1);
                assert(s[k - 1].id.0 < s[w].id.0);
            }
        }
        assert(s[k - 1].id.0 == k - 1);
    }
}

impl ActivityTypesStore {
    pub open spec fn wf(&self) -> bool {
        ids_sorted(self@)
    }

    pub fn empty() -> (r: Self)
        ensures
            r@ == Seq::<ActivityType>::empty(),
            r.wf(),
    {
        let r = ActivityTypesStore { types: Vec::new() };
        proof {
            assert(r@ =~= Seq::<ActivityType>::empty());
        }
        r
    }

    pub fn len(&self) -> (n: usize)
        ensures
            n == self@.len(),
    {
        self.types.len()
    }

    /// Whether any registered type carries `id`.
    pub fn contains_id(&self, id: ActivityId) -> (r: bool)
        ensures
            r == has_id(self@, id.0),
    {
        let mut i: usize = 0;
        while i < self.types.len()
            invariant
                0 <= i <= self@.len(),
                forall|j: int| 0 <= j < i ==> (#[trigger] self@[j].id.0) != id.0,
            decreases self@.len() - i,
        {
            if self.types[i].id.0 == id.0 {
                return true;
            }
            i = i + 1;
        }
        false
    }

    /// The smallest id not currently registered.
    fn next_unused_id(&self) -> (r: ActivityId)
        requires
            self.wf(),
            self@.len() <= u32::MAX,
        ensures
            !has_id(self@, r.0),
            forall|j: u32| j < r.0 ==> has_id(self@, j),
    {
        let mut id: u32 = 0;
        while self.contains_id(ActivityId(id))
            invariant
                self.wf(),
                self@.len() <= u32::MAX,
                id <= self@.len(),
                forall|j: u32| j < id ==> has_id(self@, j),
            decreases self@.len() - id,
        {
            proof {
                lemma_ids_identity(self@, id);
                let w = choose|w: int| 0 <= w < self@.len() && self@[w].id.0 == id;
                if w < id {
                    assert(self@[w].id.0 == w);
                }
                assert(id < self@.len());
            }
            id = id + 1;
            proof {
                lemma_ids_identity(self@, id);
            }
        }
        ActivityId(id)
    }

    /// Insert a type whose id is not yet registered, keeping id order.
    fn insert_sorted(&mut self, activity_type: ActivityType)
        requires
            old(self).wf(),
            !has_id(old(self)@, activity_type.id.0),
        ensures
            final(self).wf(),
            final(self)@.len() == old(self)@.len() + 1,
            final(self)@.contains(activity_type),
            forall|t: ActivityType| old(self)@.contains(t) ==> final(self)@.contains(t),
            forall|t: ActivityType|
                final(self)@.contains(t) ==> t == activity_type || old(self)@.contains(t),
    {
        let ghost pre = self@;
        let ghost nt = activity_type;
        let id = activity_type.id;
        // Find the first position whose id exceeds the new one.
        let mut pos: usize = 0;
        while pos < self.types.len() && self.types[pos].id.0 < id.0
            invariant
                self@ == pre,
                0 <= pos <= self@.len(),
                forall|j: int| 0 <= j < pos ==> (#[trigger] self@[j].id.0) < id.0,
            decreases self@.len() - pos,
        {
            pos = pos + 1;
        }
        proof {
            if pos < pre.len() {
                assert(pre[pos as int].id.0 != id.0);
                assert(pre[pos as int].id.0 > id.0);
            }
        }
        self.types.insert(pos, activity_type);
        proof {
            let post = self@;
            assert(post == pre.insert(pos as int, nt));
            assert forall|i: int, j: int| 0 <= i < j < post.len() implies post[i].id.0
                < post[j].id.0 by {
                if j < pos {
                } else if i >= pos + 1 {
                    assert(post[i] == pre[i - 1] && post[j] == pre[j - 1]);
                } else if i < pos && j == pos {
                    assert(post[i] == pre[i]);
                } else if i == pos && pos + 1 <= j {
                    assert(post[j] == pre[j - 1]);
                    assert(pre[j - 1].id.0 > id.0);
                } else {
                    assert(i < pos && j > pos);
                    assert(post[i] == pre[i] && post[j] == pre[j - 1]);
                    assert(pre[j - 1].id.0 > id.0);
                }
            }
            assert(post[pos as int] == nt);
            assert(post.contains(nt));
            assert forall|t: ActivityType| pre.contains(t) implies post.contains(t) by {
                let i = choose|i: int| 0 <= i < pre.len() && pre[i] == t;
                if i < pos {
                    assert(post[i] == t);
                } else {
                    assert(post[i + 1] == t);
                }
            }
            assert forall|t: ActivityType| post.contains(t) implies t == nt || pre.contains(
                t,
            ) by {
                let i = choose|i: int| 0 <= i < post.len() && post[i] == t;
                if i < pos {
                    assert(pre[i] == t);
                } else if i > pos {
                    assert(pre[i - 1] == t);
                }
            }
        }
    }

    /// Register a new type under the smallest unused id and return that id.
    pub fn create_new_activity(&mut self, name: String) -> (r: ActivityId)
        requires
            old(self).wf(),
            old(self)@.len() <= u32::MAX,
        ensures
            final(self).wf(),
            !has_id(old(self)@, r.0),
            forall|j: u32| j < r.0 ==> has_id(old(self)@, j),
            final(self)@.len() == old(self)@.len() + 1,
            final(self)@.contains((ActivityType { id: r, name })),
            forall|t: ActivityType| old(self)@.contains(t) ==> final(self)@.contains(t),
            forall|t: ActivityType|
                final(self)@.contains(t) ==> t == (ActivityType { id: r, name }) || old(
                    self,
                )@.contains(t),
    {
        let id = self.next_unused_id();
        let activity_type = ActivityType::new(id, name);
        self.insert_sorted(activity_type);
        id
    }

    /// Insert a loaded type under its own id; `false` if the id is taken.
    pub fn insert_activity_type(&mut self, activity_type: ActivityType) -> (r: bool)
        requires
            old(self).wf(),
        ensures
            final(self).wf(),
            r == !has_id(old(self)@, activity_type.id.0),
            !r ==> final(self)@ == old(self)@,
            r ==> {
                &&& final(self)@.len() == old(self)@.len() + 1
                &&& final(self)@.contains(activity_type)
                &&& forall|t: ActivityType| old(self)@.contains(t) ==> final(self)@.contains(t)
                &&& forall|t: ActivityType|
                    final(self)@.contains(t) ==> t == activity_type || old(self)@.contains(t)
            },
    {
        if self.contains_id(activity_type.id) {
            false
        } else {
            self.insert_sorted(activity_type);
            true
        }
    }

    /// Look up a type by id; `None` exactly when the id is unregistered.
    pub fn activity_type(&self, id: ActivityId) -> (r: Option<ActivityType>)
        requires
            self.wf(),
        ensures
            match r {
                Some(t) => {
                    &&& self@.contains(t)
                    &&& t.id == id
                    &&& forall|i: int|
                        0 <= i < self@.len() && (#[trigger] self@[i].id) == id ==> self@[i] == t
                },
                None => !has_id(self@, id.0),
            },
    {
        let mut i: usize = 0;
        while i < self.types.len()
            invariant
                self.wf(),
                0 <= i <= self@.len(),
                forall|j: int| 0 <= j < i ==> (#[trigger] self@[j].id.0) != id.0,
            decreases self@.len() - i,
        {
            if self.types[i].id.0 == id.0 {
                let t = self.types[i].clone();
                proof {
                    assert(self@.contains(t)) by {
                        assert(self@[i as int] == t);
                    }
                    assert forall|k: int|
                        0 <= k < self@.len() && (#[trigger] self@[k].id) == id implies self@[k]
                        == t by {
                        if k < i {
                        } else if k > i {
                            assert(self@[i as int].id.0 < self@[k].id.0);
                        }
                    }
                }
                return Some(t);
            }
            i = i + 1;
        }
        None
    }

    /// All types, in ascending id order.
    pub fn activity_types(&self) -> (r: Vec<ActivityType>)
        ensures
            r@ == self@,
    {
        let mut r: Vec<ActivityType> = Vec::new();
        let mut i: usize = 0;
        while i < self.types.len()
            invariant
                0 <= i <= self@.len(),
                r@ == self@.subrange(0, i as int),
            decreases self@.len() - i,
        {
            r.push(self.types[i].clone());
            proof {
                assert(r@ =~= self@.subrange(0, i + 1));
            }
            i = i + 1;
        }
        proof {
            assert(r@ =~= self@);
        }
        r
    }

    /// Replace the name under `id`; a silent no-op if `id` is unregistered.
    pub fn update_activity(&mut self, id: ActivityId, name: String)
        requires
            old(self).wf(),
        ensures
            final(self).wf(),
            final(self)@.len() == old(self)@.len(),
            forall|i: int|
                0 <= i < old(self)@.len() ==> (#[trigger] final(self)@[i]) == if old(
                    self,
                )@[i].id == id {
                    ActivityType { id, name }
                } else {
                    old(self)@[i]
                },
    {
        let ghost pre = self@;
        let mut i: usize = 0;
        while i < self.types.len()
            invariant
                self@ == pre,
                pre == old(self)@,
                ids_sorted(pre),
                0 <= i <= pre.len(),
                forall|j: int| 0 <= j < i ==> (#[trigger] pre[j].id.0) != id.0,
            decreases pre.len() - i,
        {
            if self.types[i].id.0 == id.0 {
                let t = ActivityType::new(id, name);
                self.types.set(i, t);
                proof {
                    assert forall|a: int, b: int|
                        0 <= a < b < self@.len() implies self@[a].id.0 < self@[b].id.0 by {
                        assert(pre[a].id.0 < pre[b].id.0);
                    }
                    assert forall|j: int|
                        0 <= j < pre.len() implies (#[trigger] self@[j]) == if pre[j].id == id {
                            ActivityType { id, name }
                        } else {
                            pre[j]
                        } by {
                        if j != i {
                            assert(self@[j] == pre[j]);
                            if j < i {
                                assert(pre[j].id.0 != id.0);
                            } else {
                                assert(pre[i as int].id.0 < pre[j].id.0);
                            }
                        }
                    }
                }
                return ;
            }
            i = i + 1;
        }
        proof {
            assert forall|j: int|
                0 <= j < pre.len() implies (#[trigger] self@[j]) == if pre[j].id == id {
                    ActivityType { id, name }
                } else {
                    pre[j]
                } by {
                assert(pre[j].id.0 != id.0);
            }
        }
    }

    /// Remove the type under `id`; a silent no-op if `id` is unregistered.
    pub fn delete_activity_type(&mut self, id: ActivityId)
        requires
            old(self).wf(),
        ensures
            final(self).wf(),
            !has_id(final(self)@, id.0),
            forall|t: ActivityType|
                final(self)@.contains(t) <==> old(self)@.contains(t) && t.id != id,
    {
        let ghost pre = self@;
        let mut i: usize = 0;
        while i < self.types.len()
            invariant
                self@ == pre,
                pre == old(self)@,
                ids_sorted(pre),
                0 <= i <= pre.len(),
                forall|j: int| 0 <= j < i ==> (#[trigger] pre[j].id.0) != id.0,
            decreases pre.len() - i,
        {
            if self.types[i].id.0 == id.0 {
                self.types.remove(i);
                proof {
                    let post = self@;
                    assert(post == pre.remove(i as int));
                    assert forall|a: int, b: int|
                        0 <= a < b < post.len() implies post[a].id.0 < post[b].id.0 by {
                        let pa: int = if a < i {
                            a
                        } else {
                            a + 1
                        };
                        let pb: int = if b < i {
                            b
                        } else {
                            b + 1
                        };
                        assert(post[a] == pre[pa] && post[b] == pre[pb]);
                        assert(pre[pa].id.0 < pre[pb].id.0);
                    }
                    assert forall|t: ActivityType| post.contains(t) implies pre.contains(t)
                        && t.id != id by {
                        let k = choose|k: int| 0 <= k < post.len() && post[k] == t;
                        let pk: int = if k < i {
                            k
                        } else {
                            k + 1
                        };
                        assert(pre[pk] == t);
                        if pk != i {
                            assert(ids_sorted(pre));
                            assert(pre[i as int].id.0 == id.0);
                            if pk < i {
                                assert(pre[pk].id.0 < pre[i as int].id.0);
                            } else {
                                assert(pre[i as int].id.0 < pre[pk].id.0);
                            }
                        }
                    }
                    assert forall|t: ActivityType|
                        pre.contains(t) && t.id != id implies post.contains(t) by {
                        let k = choose|k: int| 0 <= k < pre.len() && pre[k] == t;
                        if k < i {
                            assert(post[k] == t);
                        } else {
                            assert(k != i);
                            assert(post[k - 1] == t);
                        }
                    }
                    assert(!has_id(post, id.0)) by {
                        if has_id(post, id.0) {
                            let k = choose|k: int| 0 <= k < post.len() && post[k].id.0 == id.0;
                            assert(post.contains(post[k]));
                        }
                    }
                }
                return ;
            }
            i = i + 1;
        }
        proof {
            assert forall|t: ActivityType| self@.contains(t) implies t.id != id by {
                let k = choose|k: int| 0 <= k < self@.len() && self@[k] == t;
            }
            assert(!has_id(self@, id.0)) by {
                if has_id(self@, id.0) {
                    let k = choose|k: int| 0 <= k < self@.len() && self@[k].id.0 == id.0;
                }
            }
        }
    }
}

/// A day's worth of completion records.
struct DayLog {
    date: Date,
    entries: Vec<Activity>,
}

/// The activity log: completion records grouped by day, days in
/// ascending date order. Its mathematical view is the sequence of
/// (date, records of that day) pairs.
pub struct ActivitiesStore {
    days: Vec<DayLog>,
}

pub type LogView = Seq<(Date, Seq<Activity>)>;

/// The record `a` is somewhere in the log.
pub open spec fn log_has(s: LogView, a: Activity) -> bool {
    exists|i: int, j: int| 0 <= i < s.len() && 0 <= j < s[i].1.len() && s[i].1[j] == a
}

pub open spec fn has_day(s: LogView, d: Date) -> bool {
    exists|i: int| 0 <= i < s.len() && s[i].0 == d
}

/// The unique position of day `d`, where one exists.
pub open spec fn day_idx(s: LogView, d: Date) -> int {
    choose|i: int| 0 <= i < s.len() && s[i].0 == d
}

pub open spec fn log_wf(s: LogView) -> bool {
    &&& forall|i: int, j: int| 0 <= i < j < s.len() ==> s[i].0.spec_lt(s[j].0)
    &&& forall|i: int| 0 <= i < s.len() ==> (#[trigger] s[i].0).is_valid()
    &&& forall|i: int, j: int|
        0 <= i < s.len() && 0 <= j < s[i].1.len() ==> (#[trigger] s[i].1[j]).date == s[i].0
}

/// The records of day `d`, empty if the log has no such day.
pub open spec fn day_entries(s: LogView, d: Date) -> Seq<Activity> {
    if has_day(s, d) {
        s[day_idx(s, d)].1
    } else {
        Seq::empty()
    }
}

/// No day row is empty.
pub open spec fn no_empty_days(s: LogView) -> bool {
    forall|i: int| 0 <= i < s.len() ==> (#[trigger] s[i]).1.len() > 0
}

/// In a sorted log, `day_idx` is the one position of its day.
proof fn lemma_day_idx(s: LogView, d: Date)
    requires
        log_wf(s),
        has_day(s, d),
    ensures
        0 <= day_idx(s, d) < s.len(),
        s[day_idx(s, d)].0 == d,
        forall|w: int| 0 <= w < s.len() && s[w].0 == d ==> w == day_idx(s, d),
{
    let k = day_idx(s, d);
    assert(0 <= k < s.len() && s[k].0 == d);
    assert forall|w: int| 0 <= w < s.len() && s[w].0 == d implies w == k by {
        if w < k {
            assert(s[w].0.spec_lt(s[k].0));
        } else if w > k {
            assert(s[k].0.spec_lt(s[w].0));
        }
    }
}

/// All records in the log, days in order, each day's records in order.
pub open spec fn all_records(s: LogView) -> Seq<Activity>
    decreases s.len(),
{
    if s.len() == 0 {
        Seq::empty()
    } else {
        s[0].1 + all_records(s.drop_first())
    }
}

/// What one toggle does to the log: membership of the toggled
/// (type, date) pair flips, membership of every other pair is unchanged.
pub open spec fn toggle_rel(pre: LogView, post: LogView, id: ActivityId, date: Date) -> bool {
    &&& (log_has(post, Activity { activity_id: id, date }) <==> !log_has(
        pre,
        Activity { activity_id: id, date },
    ))
    &&& forall|x: Activity|
        x != (Activity { activity_id: id, date }) ==> (log_has(post, x) <==> log_has(pre, x))
}

/// Two toggles of the same pair restore membership of every record.
pub proof fn lemma_toggle_involution(s1: LogView, s2: LogView, s3: LogView, id: ActivityId, date: Date)
    requires
        toggle_rel(s1, s2, id, date),
        toggle_rel(s2, s3, id, date),
    ensures
        forall|x: Activity| log_has(s3, x) <==> log_has(s1, x),
{
    assert forall|x: Activity| log_has(s3, x) <==> log_has(s1, x) by {
        if x != (Activity { activity_id: id, date }) {
            assert(log_has(s3, x) <==> log_has(s2, x));
        }
    }
}

proof fn lemma_all_records_push(t: LogView, p: (Date, Seq<Activity>))
    ensures
        all_records(t.push(p)) == all_records(t) + p.1,
    decreases t.len(),
{
    if t.len() == 0 {
        assert(t.push(p).drop_first() =~= t);
        assert(all_records(t.push(p)) =~= all_records(t) + p.1);
    } else {
        assert(t.push(p).drop_first() =~= t.drop_first().push(p));
        lemma_all_records_push(t.drop_first(), p);
        assert(all_records(t.push(p)) =~= all_records(t) + p.1);
    }
}

/// Split the flattened record sequence around one day.
proof fn lemma_all_records_decompose(s: LogView, i: int)
    requires
        0 <= i < s.len(),
    ensures
        all_records(s) == all_records(s.subrange(0, i)) + s[i].1 + all_records(
            s.subrange(i + 1, s.len() as int),
        ),
    decreases s.len(),
{
    if i == 0 {
        assert(s.subrange(0, 0) =~= Seq::<(Date, Seq<Activity>)>::empty());
        assert(s.subrange(1, s.len() as int) =~= s.drop_first());
        assert(all_records(s) =~= all_records(s.subrange(0, 0)) + s[0].1 + all_records(
            s.subrange(1, s.len() as int),
        ));
    } else {
        lemma_all_records_decompose(s.drop_first(), i - 1);
        assert(s.drop_first().subrange(0, i - 1) =~= s.subrange(1, i));
        assert(s.drop_first().subrange(i, s.len() - 1) =~= s.subrange(i + 1, s.len() as int));
        assert(s.subrange(0, i).drop_first() =~= s.subrange(1, i));
        assert(all_records(s) == s[0].1 + all_records(s.drop_first()));
        assert(all_records(s.subrange(0, i)) == s.subrange(0, i)[0].1 + all_records(
            s.subrange(0, i).drop_first(),
        ));
        assert(all_records(s) =~= all_records(s.subrange(0, i)) + s[i].1 + all_records(
            s.subrange(i + 1, s.len() as int),
        ));
    }
}

impl View for ActivitiesStore {
    type V = LogView;

    closed spec fn view(&self) -> LogView {
        Seq::new(self.days@.len(), |i: int| (self.days@[i].date, self.days@[i].entries@))
    }
}

impl ActivitiesStore {
    pub open spec fn wf(&self) -> bool {
        log_wf(self@)
    }

    pub fn empty() -> (r: Self)
        ensures
            r@ == Seq::<(Date, Seq<Activity>)>::empty(),
            r.wf(),
    {
        let r = ActivitiesStore { days: Vec::new() };
        proof {
            assert(r@ =~= Seq::<(Date, Seq<Activity>)>::empty());
        }
        r
    }

    /// Index of the day `date`, if the log has it.
    fn find_day(&self, date: Date) -> (r: Option<usize>)
        requires
            self.wf(),
        ensures
            match r {
                Some(i) => i < self@.len() && self@[i as int].0 == date && i == day_idx(
                    self@,
                    date,
                ),
                None => !has_day(self@, date),
            },
    {
        let mut i: usize = 0;
        while i < self.days.len()
            invariant
                self.wf(),
                0 <= i <= self@.len(),
                forall|j: int| 0 <= j < i ==> (#[trigger] self@[j].0) != date,
            decreases self@.len() - i,
        {
            proof {
                assert(self@[i as int].0 == self.days@[i as int].date);
            }
            if self.days[i].date == date {
                proof {
                    let k = day_idx(self@, date);
                    assert(0 <= k < self@.len() && self@[k].0 == date);
                    if k != i {
                        if k < i {
                            assert(self@[k].0.spec_lt(self@[i as int].0));
                        } else {
                            assert(self@[i as int].0.spec_lt(self@[k].0));
                        }
                    }
                }
                return Some(i);
            }
            i = i + 1;
        }
        None
    }

    /// Append a completion record to its day, creating the day if absent.
    pub fn add_activity(&mut self, activity: Activity)
        requires
            old(self).wf(),
            activity.date.is_valid(),
        ensures
            final(self).wf(),
            log_has(final(self)@, activity),
            forall|x: Activity|
                log_has(final(self)@, x) <==> log_has(old(self)@, x) || x == activity,
            all_records(final(self)@).to_multiset() == all_records(old(self)@).to_multiset().insert(
                activity,
            ),
            all_records(final(self)@).len() == all_records(old(self)@).len() + 1,
            forall|dd: Date|
                #[trigger] day_entries(final(self)@, dd) == if dd == activity.date {
                    day_entries(old(self)@, dd).push(activity)
                } else {
                    day_entries(old(self)@, dd)
                },
            no_empty_days(old(self)@) ==> no_empty_days(final(self)@),
    {
        let ghost pre = self@;
        let d = activity.date;
        match self.find_day(d) {
            Some(i) => {
                let ghost oldday = pre[i as int];
                let entries = &mut self.days[i].entries;
                entries.push(activity);
                proof {
                    let post = self@;
                    assert(post =~= pre.update(i as int, (d, oldday.1.push(activity))));
                    lemma_log_update_push(pre, post, i as int, activity);
                }
            },
            None => {
                let ghost pre2 = self@;
                let mut pos: usize = 0;
                while pos < self.days.len() && self.days[pos].date.lt(d)
                    invariant
                        self@ == pre,
                        pre == old(self)@,
                        log_wf(pre),
                        0 <= pos <= pre.len(),
                        forall|j: int| 0 <= j < pos ==> (#[trigger] pre[j].0).spec_lt(d),
                    decreases pre.len() - pos,
                {
                    pos = pos + 1;
                }
                proof {
                    assert forall|j: int| pos <= j < pre.len() implies activity.date.spec_lt(
                        #[trigger] pre[j].0,
                    ) by {
                        assert(!pre[pos as int].0.spec_lt(d));
                        assert(pre[pos as int].0 != d) by {
                            assert(!has_day(pre, d));
                        }
                        assert(d.spec_lt(pre[pos as int].0));
                        if j > pos {
                            assert(pre[pos as int].0.spec_lt(pre[j].0));
                        }
                    }
                }
                let mut entries: Vec<Activity> = Vec::new();
                entries.push(activity);
                proof {
                    assert(entries@ =~= seq![activity]);
                }
                self.days.insert(pos, DayLog { date: d, entries });
                proof {
                    let post = self@;
                    assert(post =~= pre.insert(pos as int, (d, seq![activity])));
                    lemma_log_insert_day(pre, post, pos as int, activity);
                }
            },
        }
    }
}

/// Effect of appending one record to an existing day.
proof fn lemma_log_update_push(pre: LogView, post: LogView, i: int, a: Activity)
    requires
        log_wf(pre),
        0 <= i < pre.len(),
        pre[i].0 == a.date,
        post == pre.update(i, (a.date, pre[i].1.push(a))),
    ensures
        log_wf(post),
        log_has(post, a),
        forall|x: Activity| log_has(post, x) <==> log_has(pre, x) || x == a,
        all_records(post).to_multiset() == all_records(pre).to_multiset().insert(a),
        all_records(post).len() == all_records(pre).len() + 1,
        forall|dd: Date|
            #[trigger] day_entries(post, dd) == if dd == a.date {
                day_entries(pre, dd).push(a)
            } else {
                day_entries(pre, dd)
            },
        no_empty_days(pre) ==> no_empty_days(post),
{
    let day = pre[i].1;
    assert(log_wf(post)) by {
        assert forall|p: int, q: int|
            0 <= p < post.len() && 0 <= q < post[p].1.len() implies (#[trigger] post[p].1[q]).date
            == post[p].0 by {
            if p == i {
                if q < day.len() {
                    assert(pre[p].1[q].date == pre[p].0);
                } else {
                    assert(post[p].1[q] == a);
                }
            }
        }
    }
    assert(log_has(post, a)) by {
        assert(post[i].1[day.len() as int] == a);
    }
    assert forall|x: Activity| log_has(post, x) <==> log_has(pre, x) || x == a by {
        if log_has(post, x) {
            let (p, q) = choose|p: int, q: int|
                0 <= p < post.len() && 0 <= q < post[p].1.len() && post[p].1[q] == x;
            if p == i && q == day.len() {
                assert(x == a);
            } else {
                assert(pre[p].1[q] == x);
            }
        }
        if log_has(pre, x) {
            let (p, q) = choose|p: int, q: int|
                0 <= p < pre.len() && 0 <= q < pre[p].1.len() && pre[p].1[q] == x;
            assert(post[p].1[q] == x);
        }
        if x == a {
            assert(log_has(post, x));
        }
    }
    lemma_all_records_decompose(pre, i);
    lemma_all_records_decompose(post, i);
    assert(post.subrange(0, i) =~= pre.subrange(0, i));
    assert(post.subrange(i + 1, post.len() as int) =~= pre.subrange(i + 1, pre.len() as int));
    let front = all_records(pre.subrange(0, i));
    let back = all_records(pre.subrange(i + 1, pre.len() as int));
    assert(all_records(post) == front + day.push(a) + back);
    assert(all_records(pre) == front + day + back);
    assert((front + day.push(a) + back).to_multiset() == (front + day + back).to_multiset().insert(
        a,
    )) by {
        vstd::seq_lib::lemma_multiset_commutative(front + day.push(a), back);
        vstd::seq_lib::lemma_multiset_commutative(front, day.push(a));
        vstd::seq_lib::lemma_multiset_commutative(front + day, back);
        vstd::seq_lib::lemma_multiset_commutative(front, day);
        day.to_multiset_ensures();
        assert(day.push(a).to_multiset() =~= day.to_multiset().insert(a));
        assert((front + day.push(a) + back).to_multiset() =~= (front + day
            + back).to_multiset().insert(a));
    }
    assert(all_records(post).len() == all_records(pre).len() + 1) by {
        all_records(post).to_multiset_ensures();
        all_records(pre).to_multiset_ensures();
    }
    assert forall|dd: Date|
        #[trigger] day_entries(post, dd) == (if dd == a.date {
            day_entries(pre, dd).push(a)
        } else {
            day_entries(pre, dd)
        }) by {
        if dd == a.date {
            assert(has_day(pre, dd));
            lemma_day_idx(pre, dd);
            assert(day_idx(pre, dd) == i);
            assert(post[i].0 == dd);
            assert(has_day(post, dd));
            lemma_day_idx(post, dd);
            assert(day_idx(post, dd) == i);
        } else {
            if has_day(pre, dd) {
                lemma_day_idx(pre, dd);
                let w = day_idx(pre, dd);
                assert(w != i);
                assert(post[w].0 == dd);
                assert(has_day(post, dd));
                lemma_day_idx(post, dd);
                assert(day_idx(post, dd) == w);
                assert(post[w].1 == pre[w].1);
            } else {
                assert(!has_day(post, dd)) by {
                    if has_day(post, dd) {
                        let w = choose|w: int| 0 <= w < post.len() && post[w].0 == dd;
                        assert(pre[w].0 == dd);
                    }
                }
            }
        }
    }
    assert(no_empty_days(pre) ==> no_empty_days(post)) by {
        if no_empty_days(pre) {
            assert forall|j: int| 0 <= j < post.len() implies (#[trigger] post[j]).1.len() > 0 by {
                if j != i {
                    assert(post[j] == pre[j]);
                }
            }
        }
    }
}

/// Effect of inserting a fresh day holding one record.
proof fn lemma_log_insert_day(pre: LogView, post: LogView, i: int, a: Activity)
    requires
        log_wf(pre),
        0 <= i <= pre.len(),
        a.date.is_valid(),
        forall|j: int| 0 <= j < i ==> (#[trigger] pre[j].0).spec_lt(a.date),
        forall|j: int| i <= j < pre.len() ==> a.date.spec_lt(#[trigger] pre[j].0),
        post == pre.insert(i, (a.date, seq![a])),
    ensures
        log_wf(post),
        log_has(post, a),
        forall|x: Activity| log_has(post, x) <==> log_has(pre, x) || x == a,
        all_records(post).to_multiset() == all_records(pre).to_multiset().insert(a),
        all_records(post).len() == all_records(pre).len() + 1,
        forall|dd: Date|
            #[trigger] day_entries(post, dd) == if dd == a.date {
                day_entries(pre, dd).push(a)
            } else {
                day_entries(pre, dd)
            },
        no_empty_days(pre) ==> no_empty_days(post),
{
    assert(log_wf(post)) by {
        assert forall|p: int, q: int| 0 <= p < q < post.len() implies post[p].0.spec_lt(
            post[q].0,
        ) by {
            let pp: int = if p < i {
                p
            } else {
                p - 1
            };
            let qq: int = if q < i {
                q
            } else {
                q - 1
            };
            if p != i && q != i {
                assert(post[p] == pre[pp] && post[q] == pre[qq]);
                if qq < i {
                    assert(pre[pp].0.spec_lt(pre[qq].0));
                } else if pp >= i {
                    assert(pre[pp].0.spec_lt(pre[qq].0));
                } else {
                    assert(pre[pp].0.spec_lt(a.date));
                    assert(a.date.spec_lt(pre[qq].0));
                }
            } else if p == i {
                assert(post[q] == pre[qq] && qq >= i);
            } else {
                assert(post[p] == pre[pp] && pp < i);
            }
        }
        assert forall|p: int, q: int|
            0 <= p < post.len() && 0 <= q < post[p].1.len() implies (#[trigger] post[p].1[q]).date
            == post[p].0 by {
            if p < i {
                assert(post[p] == pre[p]);
            } else if p > i {
                assert(post[p] == pre[p - 1]);
            }
        }
    }
    assert(log_has(post, a)) by {
        assert(post[i].1[0] == a);
    }
    assert forall|x: Activity| log_has(post, x) <==> log_has(pre, x) || x == a by {
        if log_has(post, x) {
            let (p, q) = choose|p: int, q: int|
                0 <= p < post.len() && 0 <= q < post[p].1.len() && post[p].1[q] == x;
            if p < i {
                assert(pre[p].1[q] == x);
            } else if p > i {
                assert(pre[p - 1].1[q] == x);
            } else {
                assert(x == a);
            }
        }
        if log_has(pre, x) {
            let (p, q) = choose|p: int, q: int|
                0 <= p < pre.len() && 0 <= q < pre[p].1.len() && pre[p].1[q] == x;
            if p < i {
                assert(post[p].1[q] == x);
            } else {
                assert(post[p + 1].1[q] == x);
            }
        }
        if x == a {
            assert(log_has(post, x));
        }
    }
    lemma_all_records_decompose(post, i);
    assert(post.subrange(0, i) =~= pre.subrange(0, i));
    assert(post.subrange(i + 1, post.len() as int) =~= pre.subrange(i, pre.len() as int));
    let front = all_records(pre.subrange(0, i));
    let back = all_records(pre.subrange(i, pre.len() as int));
    assert(all_records(post) == front + seq![a] + back);
    assert(all_records(pre) == front + back) by {
        lemma_all_records_split(pre, i);
    }
    assert((front + seq![a] + back).to_multiset() == (front + back).to_multiset().insert(a)) by {
        vstd::seq_lib::lemma_multiset_commutative(front + seq![a], back);
        vstd::seq_lib::lemma_multiset_commutative(front, seq![a]);
        vstd::seq_lib::lemma_multiset_commutative(front, back);
        seq![a].to_multiset_ensures();
        let e = Seq::<Activity>::empty();
        e.to_multiset_ensures();
        assert(e.push(a) =~= seq![a]);
        assert(seq![a].to_multiset() =~= Multiset::<Activity>::empty().insert(a));
        assert((front + seq![a] + back).to_multiset() =~= (front + back).to_multiset().insert(a));
    }
    assert(all_records(post).len() == all_records(pre).len() + 1) by {
        all_records(post).to_multiset_ensures();
        all_records(pre).to_multiset_ensures();
    }
    assert forall|dd: Date|
        #[trigger] day_entries(post, dd) == (if dd == a.date {
            day_entries(pre, dd).push(a)
        } else {
            day_entries(pre, dd)
        }) by {
        if dd == a.date {
            assert(!has_day(pre, dd)) by {
                if has_day(pre, dd) {
                    let w = choose|w: int| 0 <= w < pre.len() && pre[w].0 == dd;
                    if w < i {
                        assert(pre[w].0.spec_lt(a.date));
                    } else {
                        assert(a.date.spec_lt(pre[w].0));
                    }
                }
            }
            assert(post[i].0 == dd);
            assert(has_day(post, dd));
            lemma_day_idx(post, dd);
            assert(day_idx(post, dd) == i);
            assert(day_entries(post, dd) == seq![a]);
            assert(Seq::<Activity>::empty().push(a) =~= seq![a]);
        } else {
            if has_day(pre, dd) {
                lemma_day_idx(pre, dd);
                let w = day_idx(pre, dd);
                let w2: int = if w < i {
                    w
                } else {
                    w + 1
                };
                assert(post[w2].0 == dd && post[w2].1 == pre[w].1);
                assert(has_day(post, dd));
                lemma_day_idx(post, dd);
                assert(day_idx(post, dd) == w2);
            } else {
                assert(!has_day(post, dd)) by {
                    if has_day(post, dd) {
                        let w = choose|w: int| 0 <= w < post.len() && post[w].0 == dd;
                        if w < i {
                            assert(pre[w].0 == dd);
                        } else if w > i {
                            assert(pre[w - 1].0 == dd);
                        }
                    }
                }
            }
        }
    }
    assert(no_empty_days(pre) ==> no_empty_days(post)) by {
        if no_empty_days(pre) {
            assert forall|j: int| 0 <= j < post.len() implies (#[trigger] post[j]).1.len() > 0 by {
                if j < i {
                    assert(post[j] == pre[j]);
                } else if j > i {
                    assert(post[j] == pre[j - 1]);
                }
            }
        }
    }
}

/// Concatenating the two halves of a split log flattens to the same records.
proof fn lemma_all_records_split(s: LogView, i: int)
    requires
        0 <= i <= s.len(),
    ensures
        all_records(s) == all_records(s.subrange(0, i)) + all_records(
            s.subrange(i, s.len() as int),
        ),
{
    if i == s.len() {
        assert(s.subrange(0, i) =~= s);
        assert(s.subrange(i, s.len() as int) =~= Seq::<(Date, Seq<Activity>)>::empty());
        assert(all_records(s) =~= all_records(s.subrange(0, i)) + all_records(
            s.subrange(i, s.len() as int),
        ));
    } else {
        lemma_all_records_decompose(s, i);
        assert(s.subrange(i, s.len() as int).drop_first() =~= s.subrange(i + 1, s.len() as int));
        assert(all_records(s.subrange(i, s.len() as int)) == s[i].1 + all_records(
            s.subrange(i + 1, s.len() as int),
        ));
        assert(all_records(s) =~= all_records(s.subrange(0, i)) + all_records(
            s.subrange(i, s.len() as int),
        ));
    }
}

/// The elements of `s` that satisfy `keep`, in order.
pub open spec fn seq_where(s: Seq<Activity>, keep: spec_fn(Activity) -> bool) -> Seq<Activity>
    decreases s.len(),
{
    if s.len() == 0 {
        Seq::empty()
    } else if keep(s[0]) {
        seq![s[0]] + seq_where(s.drop_first(), keep)
    } else {
        seq_where(s.drop_first(), keep)
    }
}

proof fn lemma_seq_where_push(s: Seq<Activity>, keep: spec_fn(Activity) -> bool, x: Activity)
    ensures
        seq_where(s.push(x), keep) == if keep(x) {
            seq_where(s, keep).push(x)
        } else {
            seq_where(s, keep)
        },
    decreases s.len(),
{
    if s.len() == 0 {
        assert(s.push(x).drop_first() =~= s);
        if keep(x) {
            assert(seq_where(s.push(x), keep) =~= seq_where(s, keep).push(x));
        }
    } else {
        assert(s.push(x).drop_first() =~= s.drop_first().push(x));
        lemma_seq_where_push(s.drop_first(), keep, x);
        if keep(x) {
            assert(seq_where(s.push(x), keep) =~= seq_where(s, keep).push(x));
        }
    }
}

proof fn lemma_seq_where_mem(s: Seq<Activity>, keep: spec_fn(Activity) -> bool, x: Activity)
    ensures
        seq_where(s, keep).contains(x) <==> s.contains(x) && keep(x),
    decreases s.len(),
{
    if s.len() > 0 {
        let t = s.drop_first();
        lemma_seq_where_mem(t, keep, x);
        if seq_where(s, keep).contains(x) {
            let k = choose|k: int| 0 <= k < seq_where(s, keep).len() && seq_where(s, keep)[k] == x;
            if keep(s[0]) {
                if k == 0 {
                    assert(x == s[0]);
                } else {
                    assert(seq_where(t, keep)[k - 1] == x);
                    assert(seq_where(t, keep).contains(x));
                    let j = choose|j: int| 0 <= j < t.len() && t[j] == x;
                    assert(s[j + 1] == x);
                }
            } else {
                assert(seq_where(t, keep).contains(x));
                let j = choose|j: int| 0 <= j < t.len() && t[j] == x;
                assert(s[j + 1] == x);
            }
            assert(s.contains(x) && keep(x));
        }
        if s.contains(x) && keep(x) {
            let j = choose|j: int| 0 <= j < s.len() && s[j] == x;
            if j == 0 {
                assert(keep(s[0]));
                assert(seq_where(s, keep)[0] == x);
            } else {
                assert(t[j - 1] == x);
                assert(t.contains(x));
                assert(seq_where(t, keep).contains(x));
                let k = choose|k: int|
                    0 <= k < seq_where(t, keep).len() && seq_where(t, keep)[k] == x;
                if keep(s[0]) {
                    assert(seq_where(s, keep)[k + 1] == x);
                } else {
                    assert(seq_where(s, keep)[k] == x);
                }
            }
            assert(seq_where(s, keep).contains(x));
        }
    }
}

proof fn lemma_seq_where_concat(s1: Seq<Activity>, s2: Seq<Activity>, keep: spec_fn(Activity) -> bool)
    ensures
        seq_where(s1 + s2, keep) == seq_where(s1, keep) + seq_where(s2, keep),
    decreases s1.len(),
{
    if s1.len() == 0 {
        assert(s1 + s2 =~= s2);
        assert(seq_where(s1, keep) + seq_where(s2, keep) =~= seq_where(s2, keep));
    } else {
        assert((s1 + s2).drop_first() =~= s1.drop_first() + s2);
        lemma_seq_where_concat(s1.drop_first(), s2, keep);
        assert((s1 + s2)[0] == s1[0]);
        if keep(s1[0]) {
            assert(seq_where(s1 + s2, keep) =~= seq_where(s1, keep) + seq_where(s2, keep));
        } else {
            assert(seq_where(s1 + s2, keep) =~= seq_where(s1, keep) + seq_where(s2, keep));
        }
    }
}

proof fn lemma_seq_where_all(s: Seq<Activity>, keep: spec_fn(Activity) -> bool)
    requires
        forall|j: int| 0 <= j < s.len() ==> keep(#[trigger] s[j]),
    ensures
        seq_where(s, keep) == s,
    decreases s.len(),
{
    if s.len() > 0 {
        lemma_seq_where_all(s.drop_first(), keep);
        assert(keep(s[0]));
        assert(seq_where(s, keep) =~= s);
    }
}

proof fn lemma_seq_where_none(s: Seq<Activity>, keep: spec_fn(Activity) -> bool)
    requires
        forall|j: int| 0 <= j < s.len() ==> !keep(#[trigger] s[j]),
    ensures
        seq_where(s, keep) == Seq::<Activity>::empty(),
    decreases s.len(),
{
    if s.len() > 0 {
        lemma_seq_where_none(s.drop_first(), keep);
        assert(!keep(s[0]));
    }
}

/// In a well-formed log a day's records are exactly the records of that
/// date in the flattened sequence.
pub proof fn lemma_day_entries_of_records(s: LogView, dd: Date)
    requires
        log_wf(s),
    ensures
        day_entries(s, dd) == seq_where(all_records(s), |e: Activity| e.date == dd),
    decreases s.len(),
{
    let keep = |e: Activity| e.date == dd;
    if s.len() == 0 {
        assert(!has_day(s, dd));
        assert(day_entries(s, dd) =~= seq_where(all_records(s), keep));
    } else {
        let t = s.drop_first();
        assert(log_wf(t)) by {
            assert forall|p: int, q: int| 0 <= p < q < t.len() implies t[p].0.spec_lt(t[q].0) by {
                assert(s[p + 1].0.spec_lt(s[q + 1].0));
            }
            assert forall|p: int| 0 <= p < t.len() implies (#[trigger] t[p].0).is_valid() by {
                assert(s[p + 1].0.is_valid());
            }
            assert forall|p: int, q: int|
                0 <= p < t.len() && 0 <= q < t[p].1.len() implies (#[trigger] t[p].1[q]).date
                == t[p].0 by {
                assert(s[p + 1].1[q].date == s[p + 1].0);
            }
        }
        lemma_day_entries_of_records(t, dd);
        assert(all_records(s) == s[0].1 + all_records(t));
        lemma_seq_where_concat(s[0].1, all_records(t), keep);
        if dd == s[0].0 {
            assert(seq_where(s[0].1, keep) == s[0].1) by {
                assert forall|j: int| 0 <= j < s[0].1.len() implies keep(#[trigger] s[0].1[j]) by {
                    assert(s[0].1[j].date == s[0].0);
                }
                lemma_seq_where_all(s[0].1, keep);
            }
            assert(!has_day(t, dd)) by {
                if has_day(t, dd) {
                    let w = choose|w: int| 0 <= w < t.len() && t[w].0 == dd;
                    assert(s[0].0.spec_lt(s[w + 1].0));
                }
            }
            assert(day_entries(t, dd) == Seq::<Activity>::empty());
            assert(has_day(s, dd));
            lemma_day_idx(s, dd);
            assert(day_idx(s, dd) == 0);
            assert(day_entries(s, dd) =~= seq_where(all_records(s), keep));
        } else {
            assert(seq_where(s[0].1, keep) == Seq::<Activity>::empty()) by {
                assert forall|j: int| 0 <= j < s[0].1.len() implies !keep(#[trigger] s[0].1[j]) by {
                    assert(s[0].1[j].date == s[0].0);
                }
                lemma_seq_where_none(s[0].1, keep);
            }
            assert(day_entries(s, dd) == day_entries(t, dd)) by {
                if has_day(t, dd) {
                    lemma_day_idx(t, dd);
                    let w = day_idx(t, dd);
                    assert(s[w + 1].0 == dd);
                    assert(has_day(s, dd));
                    lemma_day_idx(s, dd);
                    assert(day_idx(s, dd) == w + 1);
                    assert(s[w + 1].1 == t[w].1);
                } else {
                    assert(!has_day(s, dd)) by {
                        if has_day(s, dd) {
                            let w = choose|w: int| 0 <= w < s.len() && s[w].0 == dd;
                            assert(w != 0);
                            assert(t[w - 1].0 == dd);
                        }
                    }
                }
            }
            assert(day_entries(s, dd) =~= seq_where(all_records(s), keep));
        }
    }
}

/// Two well-formed logs without empty day rows that agree on every
/// day's records are the same sequence: reloading what was saved
/// restores the log document.
pub proof fn lemma_log_determined_by_days(s1: LogView, s2: LogView)
    requires
        log_wf(s1),
        log_wf(s2),
        no_empty_days(s1),
        no_empty_days(s2),
        forall|dd: Date| #[trigger] day_entries(s1, dd) == day_entries(s2, dd),
    ensures
        s1 == s2,
    decreases s1.len(),
{
    if s1.len() == 0 {
        if s2.len() > 0 {
            let d0 = s2[0].0;
            lemma_day_idx(s2, d0);
            assert(day_entries(s2, d0) == s2[0].1);
            assert(day_entries(s1, d0) == Seq::<Activity>::empty()) by {
                if has_day(s1, d0) {
                    let w = choose|w: int| 0 <= w < s1.len() && s1[w].0 == d0;
                }
            }
            assert(s2[0].1.len() > 0);
        }
        assert(s1 =~= s2);
    } else if s2.len() == 0 {
        let d0 = s1[0].0;
        lemma_day_idx(s1, d0);
        assert(day_entries(s1, d0) == s1[0].1);
        assert(day_entries(s2, d0) == Seq::<Activity>::empty()) by {
            if has_day(s2, d0) {
                let w = choose|w: int| 0 <= w < s2.len() && s2[w].0 == d0;
            }
        }
        assert(s1[0].1.len() > 0);
        assert(s1 =~= s2);
    } else {
        // The heads carry the same date.
        assert(s1[0].0 == s2[0].0) by {
            let d1 = s1[0].0;
            let d2 = s2[0].0;
            lemma_day_idx(s1, d1);
            assert(day_entries(s1, d1) == s1[0].1);
            assert(s1[0].1.len() > 0);
            assert(day_entries(s2, d1) == s1[0].1);
            assert(has_day(s2, d1)) by {
                if !has_day(s2, d1) {
                    assert(day_entries(s2, d1) == Seq::<Activity>::empty());
                }
            }
            lemma_day_idx(s2, d1);
            let j = day_idx(s2, d1);
            lemma_day_idx(s2, d2);
            assert(day_entries(s2, d2) == s2[0].1);
            assert(s2[0].1.len() > 0);
            assert(day_entries(s1, d2) == s2[0].1);
            assert(has_day(s1, d2)) by {
                if !has_day(s1, d2) {
                    assert(day_entries(s1, d2) == Seq::<Activity>::empty());
                }
            }
            lemma_day_idx(s1, d2);
            let k = day_idx(s1, d2);
            if j > 0 && k > 0 {
                assert(s2[0].0.spec_lt(s2[j].0));
                assert(s1[0].0.spec_lt(s1[k].0));
            }
        }
        assert(s1[0].1 == s2[0].1) by {
            let d0 = s1[0].0;
            lemma_day_idx(s1, d0);
            lemma_day_idx(s2, d0);
            assert(day_entries(s1, d0) == s1[0].1);
            assert(day_entries(s2, d0) == s2[0].1);
        }
        let t1 = s1.drop_first();
        let t2 = s2.drop_first();
        assert(log_wf(t1) && no_empty_days(t1)) by {
            lemma_log_tail_wf(s1);
        }
        assert(log_wf(t2) && no_empty_days(t2)) by {
            lemma_log_tail_wf(s2);
        }
        assert forall|dd: Date| #[trigger] day_entries(t1, dd) == day_entries(t2, dd) by {
            if dd != s1[0].0 {
                lemma_day_entries_tail(s1, dd);
                lemma_day_entries_tail(s2, dd);
                assert(day_entries(s1, dd) == day_entries(s2, dd));
            } else {
                // The head's day occurs in neither tail.
                assert(!has_day(t1, dd)) by {
                    if has_day(t1, dd) {
                        let w = choose|w: int| 0 <= w < t1.len() && t1[w].0 == dd;
                        assert(s1[0].0.spec_lt(s1[w + 1].0));
                    }
                }
                assert(!has_day(t2, dd)) by {
                    if has_day(t2, dd) {
                        let w = choose|w: int| 0 <= w < t2.len() && t2[w].0 == dd;
                        assert(s2[0].0.spec_lt(s2[w + 1].0));
                    }
                }
            }
        }
        lemma_log_determined_by_days(t1, t2);
        assert(s1 =~= s2) by {
            assert(t1.len() == t2.len());
            assert forall|i: int| 0 <= i < s1.len() implies s1[i] == s2[i] by {
                if i > 0 {
                    assert(t1[i - 1] == t2[i - 1]);
                }
            }
        }
    }
}

/// Save-then-load identity for the log: a log rebuilt from the flat
/// record sequence of a well-formed log without empty day rows (as
/// `from_records` rebuilds it) is that log.
pub proof fn lemma_log_round_trip(s: LogView, rebuilt: LogView)
    requires
        log_wf(s),
        no_empty_days(s),
        log_wf(rebuilt),
        no_empty_days(rebuilt),
        forall|dd: Date|
            #[trigger] day_entries(rebuilt, dd) == seq_where(
                all_records(s),
                |e: Activity| e.date == dd,
            ),
    ensures
        rebuilt == s,
{
    assert forall|dd: Date| #[trigger] day_entries(rebuilt, dd) == day_entries(s, dd) by {
        lemma_day_entries_of_records(s, dd);
    }
    lemma_log_determined_by_days(rebuilt, s);
}

/// A well-formed log's tail is well-formed.
proof fn lemma_log_tail_wf(s: LogView)
    requires
        log_wf(s),
        s.len() > 0,
    ensures
        log_wf(s.drop_first()),
        no_empty_days(s) ==> no_empty_days(s.drop_first()),
{
    let t = s.drop_first();
    assert forall|p: int, q: int| 0 <= p < q < t.len() implies t[p].0.spec_lt(t[q].0) by {
        assert(s[p + 1].0.spec_lt(s[q + 1].0));
    }
    assert forall|p: int| 0 <= p < t.len() implies (#[trigger] t[p].0).is_valid() by {
        assert(s[p + 1].0.is_valid());
    }
    assert forall|p: int, q: int|
        0 <= p < t.len() && 0 <= q < t[p].1.len() implies (#[trigger] t[p].1[q]).date == t[p].0 by {
        assert(s[p + 1].1[q].date == s[p + 1].0);
    }
    if no_empty_days(s) {
        assert forall|p: int| 0 <= p < t.len() implies (#[trigger] t[p]).1.len() > 0 by {
            assert(s[p + 1].1.len() > 0);
        }
    }
}

/// Days other than the head read the same in a log and its tail.
proof fn lemma_day_entries_tail(s: LogView, dd: Date)
    requires
        log_wf(s),
        s.len() > 0,
        dd != s[0].0,
    ensures
        day_entries(s.drop_first(), dd) == day_entries(s, dd),
{
    let t = s.drop_first();
    lemma_log_tail_wf(s);
    if has_day(t, dd) {
        lemma_day_idx(t, dd);
        let w = day_idx(t, dd);
        assert(s[w + 1].0 == dd);
        assert(has_day(s, dd));
        lemma_day_idx(s, dd);
        assert(day_idx(s, dd) == w + 1);
        assert(s[w + 1].1 == t[w].1);
    } else {
        assert(!has_day(s, dd)) by {
            if has_day(s, dd) {
                let w = choose|w: int| 0 <= w < s.len() && s[w].0 == dd;
                assert(w != 0);
                assert(t[w - 1].0 == dd);
            }
        }
    }
}

/// Membership in the log is membership in the flattened record sequence.
pub proof fn lemma_log_has_all_records(s: LogView)
    ensures
        forall|x: Activity| log_has(s, x) <==> all_records(s).contains(x),
    decreases s.len(),
{
    if s.len() > 0 {
        lemma_log_has_all_records(s.drop_first());
        assert forall|x: Activity| log_has(s, x) <==> all_records(s).contains(x) by {
            let t = s.drop_first();
            assert(all_records(s) == s[0].1 + all_records(t));
            if log_has(s, x) {
                let (p, q) = choose|p: int, q: int|
                    0 <= p < s.len() && 0 <= q < s[p].1.len() && s[p].1[q] == x;
                if p == 0 {
                    assert(all_records(s)[q] == x);
                } else {
                    assert(t[p - 1].1[q] == x);
                    assert(log_has(t, x));
                    let k = choose|k: int|
                        0 <= k < all_records(t).len() && all_records(t)[k] == x;
                    assert(all_records(s)[s[0].1.len() + k] == x);
                }
            }
            if all_records(s).contains(x) {
                let k = choose|k: int| 0 <= k < all_records(s).len() && all_records(s)[k] == x;
                if k < s[0].1.len() {
                    assert(s[0].1[k] == x);
                } else {
                    assert(all_records(t)[k - s[0].1.len()] == x);
                    assert(all_records(t).contains(x));
                    assert(log_has(t, x));
                    let (p, q) = choose|p: int, q: int|
                        0 <= p < t.len() && 0 <= q < t[p].1.len() && t[p].1[q] == x;
                    assert(s[p + 1].1[q] == x);
                }
            }
        }
    }
}

impl ActivitiesStore {
    /// Remove every record of the given type on the given day; days and
    /// other records are untouched.
    pub fn remove_activity(&mut self, activity: Activity)
        requires
            old(self).wf(),
        ensures
            final(self).wf(),
            final(self)@.len() == old(self)@.len(),
            !log_has(final(self)@, activity),
            forall|x: Activity|
                log_has(final(self)@, x) <==> log_has(old(self)@, x) && !(x.activity_id
                    == activity.activity_id && x.date == activity.date),
    {
        let ghost pre = self@;
        let id = activity.activity_id;
        let ghost keep = |e: Activity| e.activity_id != id;
        match self.find_day(activity.date) {
            Some(i) => {
                let ghost day = pre[i as int].1;
                let entries = &self.days[i].entries;
                let mut kept: Vec<Activity> = Vec::new();
                let mut j: usize = 0;
                while j < entries.len()
                    invariant
                        0 <= j <= entries@.len(),
                        kept@ == seq_where(entries@.subrange(0, j as int), keep),
                        keep == (|e: Activity| e.activity_id != id),
                    decreases entries@.len() - j,
                {
                    let e = entries[j];
                    proof {
                        assert(entries@.subrange(0, j + 1) =~= entries@.subrange(
                            0,
                            j as int,
                        ).push(e));
                        lemma_seq_where_push(entries@.subrange(0, j as int), keep, e);
                    }
                    if e.activity_id.0 != id.0 {
                        kept.push(e);
                    }
                    j = j + 1;
                }
                proof {
                    assert(entries@.subrange(0, entries@.len() as int) =~= entries@);
                    assert(day == entries@);
                }
                self.days[i].entries = kept;
                proof {
                    let post = self@;
                    assert(post =~= pre.update(i as int, (activity.date, seq_where(day, keep))));
                    assert(log_wf(post)) by {
                        assert forall|p: int, q: int|
                            0 <= p < post.len() && 0 <= q < post[p].1.len() implies (#[trigger]
                        post[p].1[q]).date == post[p].0 by {
                            if p == i {
                                lemma_seq_where_mem(day, keep, post[p].1[q]);
                                assert(post[p].1.contains(post[p].1[q]));
                                assert(day.contains(post[p].1[q]));
                                let w = choose|w: int| 0 <= w < day.len() && day[w] == post[p].1[q];
                                assert(pre[i as int].1[w].date == pre[i as int].0);
                            }
                        }
                    }
                    assert forall|x: Activity|
                        log_has(post, x) <==> log_has(pre, x) && !(x.activity_id
                            == activity.activity_id && x.date == activity.date) by {
                        if log_has(post, x) {
                            let (p, q) = choose|p: int, q: int|
                                0 <= p < post.len() && 0 <= q < post[p].1.len() && post[p].1[q]
                                    == x;
                            if p == i {
                                assert(post[p].1 == seq_where(day, keep));
                                assert(seq_where(day, keep).contains(x));
                                lemma_seq_where_mem(day, keep, x);
                                assert(day.contains(x) && keep(x));
                                let w = choose|w: int| 0 <= w < day.len() && day[w] == x;
                                assert(pre[i as int].1[w] == x);
                            } else {
                                assert(pre[p].1[q] == x);
                                // A record elsewhere is dated by its own day.
                                assert(x.date == pre[p].0);
                                assert(pre[p].0 != activity.date) by {
                                    if p < i {
                                        assert(pre[p].0.spec_lt(pre[i as int].0));
                                    } else {
                                        assert(pre[i as int].0.spec_lt(pre[p].0));
                                    }
                                }
                            }
                        }
                        if log_has(pre, x) && !(x.activity_id == activity.activity_id && x.date
                            == activity.date) {
                            let (p, q) = choose|p: int, q: int|
                                0 <= p < pre.len() && 0 <= q < pre[p].1.len() && pre[p].1[q] == x;
                            if p == i {
                                assert(x.date == pre[p].0);
                                assert(keep(x));
                                assert(day.contains(x));
                                lemma_seq_where_mem(day, keep, x);
                                assert(seq_where(day, keep).contains(x));
                                let w = choose|w: int|
                                    0 <= w < post[i as int].1.len() && post[i as int].1[w] == x;
                                assert(post[i as int].1[w] == x);
                            } else {
                                assert(post[p].1[q] == x);
                            }
                        }
                    }
                    assert(!log_has(post, activity)) by {
                        if log_has(post, activity) {
                        }
                    }
                }
            },
            None => {
                proof {
                    assert forall|x: Activity|
                        log_has(self@, x) implies !(x.activity_id == activity.activity_id
                        && x.date == activity.date) by {
                        let (p, q) = choose|p: int, q: int|
                            0 <= p < self@.len() && 0 <= q < self@[p].1.len() && self@[p].1[q]
                                == x;
                        assert(x.date == self@[p].0);
                        if x.date == activity.date {
                            assert(has_day(self@, activity.date));
                        }
                    }
                }
            },
        }
    }

    /// Whether any record marks type `id` completed on `date`.
    pub fn completed_on(&self, date: Date, id: ActivityId) -> (r: bool)
        requires
            self.wf(),
        ensures
            r == log_has(self@, (Activity { activity_id: id, date })),
    {
        let ghost target = Activity { activity_id: id, date };
        match self.find_day(date) {
            Some(i) => {
                let entries = &self.days[i].entries;
                let mut j: usize = 0;
                while j < entries.len()
                    invariant
                        self.wf(),
                        0 <= i < self@.len(),
                        self@[i as int].0 == date,
                        entries@ == self@[i as int].1,
                        target == (Activity { activity_id: id, date }),
                        0 <= j <= entries@.len(),
                        forall|q: int| 0 <= q < j ==> (#[trigger] entries@[q]).activity_id != id,
                    decreases entries@.len() - j,
                {
                    if entries[j].activity_id.0 == id.0 {
                        proof {
                            assert(self@[i as int].1[j as int].date == self@[i as int].0);
                            assert(self@[i as int].1[j as int] == target);
                        }
                        return true;
                    }
                    j = j + 1;
                }
                proof {
                    if log_has(self@, target) {
                        let (p, q) = choose|p: int, q: int|
                            0 <= p < self@.len() && 0 <= q < self@[p].1.len() && self@[p].1[q]
                                == target;
                        assert(self@[p].0 == target.date);
                        if p != i {
                            if p < i {
                                assert(self@[p].0.spec_lt(self@[i as int].0));
                            } else {
                                assert(self@[i as int].0.spec_lt(self@[p].0));
                            }
                        }
                        assert(entries@[q].activity_id == id);
                    }
                }
                false
            },
            None => {
                proof {
                    if log_has(self@, target) {
                        let (p, q) = choose|p: int, q: int|
                            0 <= p < self@.len() && 0 <= q < self@[p].1.len() && self@[p].1[q]
                                == target;
                        assert(self@[p].0 == target.date);
                        assert(has_day(self@, date));
                    }
                }
                false
            },
        }
    }

    /// Whether the given type is completed on `date`.
    pub fn activity_completed(&self, date: Date, activity_type: &ActivityType) -> (r: bool)
        requires
            self.wf(),
        ensures
            r == log_has(self@, (Activity { activity_id: activity_type.id, date })),
    {
        self.completed_on(date, activity_type.id)
    }

    /// Flip completion of type `id` on `date`: remove its records if any
    /// exist, else add one.
    pub fn toggle(&mut self, id: ActivityId, date: Date)
        requires
            old(self).wf(),
            date.is_valid(),
        ensures
            final(self).wf(),
            toggle_rel(old(self)@, final(self)@, id, date),
    {
        let a = Activity { activity_id: id, date };
        if self.completed_on(date, id) {
            self.remove_activity(a);
        } else {
            self.add_activity(a);
        }
    }

    /// Every record in the log, days in date order.
    pub fn activities(&self) -> (r: Vec<Activity>)
        ensures
            r@ == all_records(self@),
    {
        let mut r: Vec<Activity> = Vec::new();
        let mut i: usize = 0;
        while i < self.days.len()
            invariant
                0 <= i <= self@.len(),
                r@ == all_records(self@.subrange(0, i as int)),
            decreases self@.len() - i,
        {
            let entries = &self.days[i].entries;
            let mut j: usize = 0;
            while j < entries.len()
                invariant
                    0 <= i < self@.len(),
                    0 <= j <= entries@.len(),
                    entries@ == self@[i as int].1,
                    r@ == all_records(self@.subrange(0, i as int)) + entries@.subrange(
                        0,
                        j as int,
                    ),
                decreases entries@.len() - j,
            {
                r.push(entries[j]);
                proof {
                    assert(entries@.subrange(0, j + 1) =~= entries@.subrange(0, j as int).push(
                        entries@[j as int],
                    ));
                    assert(r@ =~= all_records(self@.subrange(0, i as int)) + entries@.subrange(
                        0,
                        j + 1,
                    ));
                }
                j = j + 1;
            }
            proof {
                assert(entries@.subrange(0, entries@.len() as int) =~= entries@);
                assert(self@.subrange(0, i + 1) =~= self@.subrange(0, i as int).push(
                    self@[i as int],
                ));
                lemma_all_records_push(self@.subrange(0, i as int), self@[i as int]);
                assert(r@ =~= all_records(self@.subrange(0, i + 1)));
            }
            i = i + 1;
        }
        proof {
            assert(self@.subrange(0, self@.len() as int) =~= self@);
        }
        r
    }

    /// The records of one day, in order; empty if the log has no such day.
    pub fn activities_on_date(&self, date: Date) -> (r: Vec<Activity>)
        requires
            self.wf(),
        ensures
            has_day(self@, date) ==> r@ == self@[day_idx(self@, date)].1,
            !has_day(self@, date) ==> r@ == Seq::<Activity>::empty(),
    {
        match self.find_day(date) {
            Some(i) => {
                let entries = &self.days[i].entries;
                let mut r: Vec<Activity> = Vec::new();
                let mut j: usize = 0;
                while j < entries.len()
                    invariant
                        0 <= j <= entries@.len(),
                        r@ == entries@.subrange(0, j as int),
                    decreases entries@.len() - j,
                {
                    r.push(entries[j]);
                    proof {
                        assert(r@ =~= entries@.subrange(0, j + 1));
                    }
                    j = j + 1;
                }
                proof {
                    assert(r@ =~= entries@);
                }
                r
            },
            None => {
                let r: Vec<Activity> = Vec::new();
                proof {
                    assert(r@ =~= Seq::<Activity>::empty());
                }
                r
            },
        }
    }

    /// All records of one type, across all days in date order.
    pub fn activities_with_type(&self, activity_type: &ActivityType) -> (r: Vec<Activity>)
        ensures
            r@ == seq_where(all_records(self@), |e: Activity| e.activity_id == activity_type.id),
    {
        let ghost keep = |e: Activity| e.activity_id == activity_type.id;
        let all = self.activities();
        let mut r: Vec<Activity> = Vec::new();
        let mut i: usize = 0;
        while i < all.len()
            invariant
                0 <= i <= all@.len(),
                r@ == seq_where(all@.subrange(0, i as int), keep),
                keep == (|e: Activity| e.activity_id == activity_type.id),
            decreases all@.len() - i,
        {
            let e = all[i];
            proof {
                assert(all@.subrange(0, i + 1) =~= all@.subrange(0, i as int).push(e));
                lemma_seq_where_push(all@.subrange(0, i as int), keep, e);
            }
            if e.activity_id.0 == activity_type.id.0 {
                r.push(e);
            }
            i = i + 1;
        }
        proof {
            assert(all@.subrange(0, all@.len() as int) =~= all@);
        }
        r
    }

    /// The log as plain (date, records) rows, for persistence.
    pub fn day_records(&self) -> (r: Vec<(Date, Vec<Activity>)>)
        ensures
            r@.len() == self@.len(),
            forall|i: int|
                0 <= i < r@.len() ==> (#[trigger] r@[i]).0 == self@[i].0 && r@[i].1@ == self@[i].1,
    {
        let mut r: Vec<(Date, Vec<Activity>)> = Vec::new();
        let mut i: usize = 0;
        while i < self.days.len()
            invariant
                0 <= i <= self@.len(),
                r@.len() == i,
                forall|k: int|
                    0 <= k < i ==> (#[trigger] r@[k]).0 == self@[k].0 && r@[k].1@ == self@[k].1,
            decreases self@.len() - i,
        {
            let entries = &self.days[i].entries;
            let mut day: Vec<Activity> = Vec::new();
            let mut j: usize = 0;
            while j < entries.len()
                invariant
                    0 <= j <= entries@.len(),
                    day@ == entries@.subrange(0, j as int),
                decreases entries@.len() - j,
            {
                day.push(entries[j]);
                proof {
                    assert(day@ =~= entries@.subrange(0, j + 1));
                }
                j = j + 1;
            }
            proof {
                assert(day@ =~= entries@);
            }
            r.push((self.days[i].date, day));
            i = i + 1;
        }
        r
    }

    /// Rebuild a log from a flat record sequence, regrouping by each
    /// record's own date; the multiset of records is preserved.
    pub fn from_records(records: &Vec<Activity>) -> (r: Self)
        requires
            forall|i: int| 0 <= i < records@.len() ==> (#[trigger] records@[i]).date.is_valid(),
        ensures
            r.wf(),
            no_empty_days(r@),
            all_records(r@).to_multiset() == records@.to_multiset(),
            forall|x: Activity| log_has(r@, x) <==> records@.contains(x),
            forall|dd: Date|
                #[trigger] day_entries(r@, dd) == seq_where(
                    records@,
                    |e: Activity| e.date == dd,
                ),
    {
        let mut r = ActivitiesStore::empty();
        let mut i: usize = 0;
        proof {
            assert(all_records(r@) =~= Seq::<Activity>::empty());
            assert(all_records(r@).to_multiset() =~= records@.subrange(0, 0).to_multiset()) by {
                all_records(r@).to_multiset_ensures();
                records@.subrange(0, 0).to_multiset_ensures();
                assert(records@.subrange(0, 0) =~= Seq::<Activity>::empty());
            }
            assert forall|dd: Date|
                #[trigger] day_entries(r@, dd) == seq_where(
                    records@.subrange(0, 0),
                    |e: Activity| e.date == dd,
                ) by {
                assert(!has_day(r@, dd));
                assert(records@.subrange(0, 0) =~= Seq::<Activity>::empty());
                assert(day_entries(r@, dd) =~= seq_where(
                    records@.subrange(0, 0),
                    |e: Activity| e.date == dd,
                ));
            }
        }
        while i < records.len()
            invariant
                r.wf(),
                no_empty_days(r@),
                0 <= i <= records@.len(),
                forall|k: int| 0 <= k < records@.len() ==> (#[trigger] records@[k]).date.is_valid(),
                all_records(r@).to_multiset() == records@.subrange(0, i as int).to_multiset(),
                forall|dd: Date|
                    #[trigger] day_entries(r@, dd) == seq_where(
                        records@.subrange(0, i as int),
                        |e: Activity| e.date == dd,
                    ),
            decreases records@.len() - i,
        {
            let ghost pre_log = r@;
            r.add_activity(records[i]);
            proof {
                let rec = records@[i as int];
                assert(records@.subrange(0, i + 1) =~= records@.subrange(0, i as int).push(rec));
                records@.subrange(0, i as int).to_multiset_ensures();
                assert(records@.subrange(0, i + 1).to_multiset() =~= records@.subrange(
                    0,
                    i as int,
                ).to_multiset().insert(rec));
                assert forall|dd: Date|
                    #[trigger] day_entries(r@, dd) == seq_where(
                        records@.subrange(0, i + 1),
                        |e: Activity| e.date == dd,
                    ) by {
                    let keep = |e: Activity| e.date == dd;
                    lemma_seq_where_push(records@.subrange(0, i as int), keep, rec);
                    assert(day_entries(pre_log, dd) == seq_where(
                        records@.subrange(0, i as int),
                        keep,
                    ));
                    if dd == rec.date {
                        assert(day_entries(r@, dd) == day_entries(pre_log, dd).push(rec));
                    } else {
                        assert(day_entries(r@, dd) == day_entries(pre_log, dd));
                    }
                }
            }
            i = i + 1;
        }
        proof {
            assert(records@.subrange(0, records@.len() as int) =~= records@);
            lemma_log_has_all_records(r@);
            all_records(r@).to_multiset_ensures();
            records@.to_multiset_ensures();
            assert forall|x: Activity| log_has(r@, x) <==> records@.contains(x) by {
                assert(log_has(r@, x) <==> all_records(r@).contains(x));
                assert(all_records(r@).contains(x) <==> all_records(r@).to_multiset().count(x)
                    > 0);
                assert(records@.contains(x) <==> records@.to_multiset().count(x) > 0);
            }
        }
        r
    }
}

/// Two sorted registries holding exactly the same types are the same
/// sequence: rebuilding a registry from its own saved rows restores it
/// exactly.
pub proof fn lemma_sorted_registry_unique(s1: Seq<ActivityType>, s2: Seq<ActivityType>)
    requires
        ids_sorted(s1),
        ids_sorted(s2),
        forall|t: ActivityType| s1.contains(t) <==> s2.contains(t),
    ensures
        s1 == s2,
    decreases s1.len(),
{
    if s1.len() == 0 {
        if s2.len() > 0 {
            assert(s2.contains(s2[0]));
            assert(s1.contains(s2[0]));
        }
        assert(s1 =~= s2);
    } else {
        assert(s1.contains(s1[0]));
        assert(s2.contains(s1[0]));
        assert(s2.len() > 0);
        assert(s1[0] == s2[0]) by {
            let j = choose|j: int| 0 <= j < s2.len() && s2[j] == s1[0];
            assert(s2.contains(s2[0]));
            assert(s1.contains(s2[0]));
            let k = choose|k: int| 0 <= k < s1.len() && s1[k] == s2[0];
            if j > 0 && k > 0 {
                assert(s2[0].id.0 < s2[j].id.0);
                assert(s1[0].id.0 < s1[k].id.0);
            }
        }
        let t1 = s1.drop_first();
        let t2 = s2.drop_first();
        assert(ids_sorted(t1)) by {
            assert forall|a: int, b: int| 0 <= a < b < t1.len() implies t1[a].id.0 < t1[b].id.0 by {
                assert(s1[a + 1].id.0 < s1[b + 1].id.0);
            }
        }
        assert(ids_sorted(t2)) by {
            assert forall|a: int, b: int| 0 <= a < b < t2.len() implies t2[a].id.0 < t2[b].id.0 by {
                assert(s2[a + 1].id.0 < s2[b + 1].id.0);
            }
        }
        assert forall|t: ActivityType| t1.contains(t) <==> t2.contains(t) by {
            if t1.contains(t) {
                let i = choose|i: int| 0 <= i < t1.len() && t1[i] == t;
                assert(s1[i + 1] == t);
                assert(s1.contains(t));
                assert(s2.contains(t));
                let j = choose|j: int| 0 <= j < s2.len() && s2[j] == t;
                assert(s1[0].id.0 < s1[i + 1].id.0);
                assert(j != 0);
                assert(t2[j - 1] == t);
                assert(t2.contains(t));
            }
            if t2.contains(t) {
                let i = choose|i: int| 0 <= i < t2.len() && t2[i] == t;
                assert(s2[i + 1] == t);
                assert(s2.contains(t));
                assert(s1.contains(t));
                let j = choose|j: int| 0 <= j < s1.len() && s1[j] == t;
                assert(s2[0].id.0 < s2[i + 1].id.0);
                assert(j != 0);
                assert(t1[j - 1] == t);
                assert(t1.contains(t));
            }
        }
        lemma_sorted_registry_unique(t1, t2);
        assert(s1 =~= s2) by {
            assert(t1.len() == t2.len());
            assert forall|i: int| 0 <= i < s1.len() implies s1[i] == s2[i] by {
                if i > 0 {
                    assert(t1[i - 1] == t2[i - 1]);
                }
            }
        }
    }
}

/// A selector entry: one activity type with its completion mark for the
/// active date.
pub struct ActivityOption {
    pub activity_type: ActivityType,
    pub completed: bool,
}

impl Clone for ActivityOption {
    fn clone(&self) -> (r: Self)
        ensures
            r == *self,
    {
        ActivityOption { activity_type: self.activity_type.clone(), completed: self.completed }
    }
}

impl crate::activity_selector::ActivitySelectorValue for ActivityOption {
    fn name(&self) -> &str {
        self.activity_type.name.as_str()
    }

    fn completed(&self) -> bool {
        self.completed
    }
}

impl ActivityOption {
    pub fn new(activity_type: ActivityType, completed: bool) -> (r: Self)
        ensures
            r == (ActivityOption { activity_type, completed }),
    {
        Self { activity_type, completed }
    }

    pub fn activity_id(&self) -> (r: ActivityId)
        ensures
            r == self.activity_type.id,
    {
        self.activity_type.id
    }
}

/// The selector entries for one date: every registered type in ascending
/// id order, each marked completed exactly when the log has a record of
/// it on that date.
pub fn activity_options(
    activity_types: &ActivityTypesStore,
    activities: &ActivitiesStore,
    date: Date,
) -> (r: Vec<ActivityOption>)
    requires
        activity_types.wf(),
        activities.wf(),
    ensures
        r@.len() == activity_types@.len(),
        forall|i: int|
            0 <= i < r@.len() ==> {
                &&& (#[trigger] r@[i]).activity_type == activity_types@[i]
                &&& r@[i].completed == log_has(
                    activities@,
                    (Activity { activity_id: activity_types@[i].id, date }),
                )
            },
{
    let types = activity_types.activity_types();
    let mut options: Vec<ActivityOption> = Vec::new();
    let mut i: usize = 0;
    while i < types.len()
        invariant
            activities.wf(),
            types@ == activity_types@,
            0 <= i <= types@.len(),
            options@.len() == i,
            forall|k: int|
                0 <= k < i ==> {
                    &&& (#[trigger] options@[k]).activity_type == activity_types@[k]
                    &&& options@[k].completed == log_has(
                        activities@,
                        (Activity { activity_id: activity_types@[k].id, date }),
                    )
                },
        decreases types@.len() - i,
    {
        let completed = activities.activity_completed(date, &types[i]);
        options.push(ActivityOption::new(types[i].clone(), completed));
        i = i + 1;
    }
    options
}

/// A persisted registry document is well-formed when each row's key
/// equals the id inside it and no id repeats.
pub open spec fn entries_ok(es: Seq<(u32, ActivityType)>) -> bool {
    &&& forall|i: int| 0 <= i < es.len() ==> (#[trigger] es[i]).0 == es[i].1.id.0
    &&& forall|i: int, j: int| 0 <= i < j < es.len() ==> es[i].1.id.0 != es[j].1.id.0
}

impl ActivityTypesStore {
    /// Rebuild a registry from persisted (key, type) rows; `None` exactly
    /// when a key disagrees with its id or an id repeats.
    pub fn from_entries(entries: &Vec<(u32, ActivityType)>) -> (r: Option<ActivityTypesStore>)
        ensures
            r.is_some() == entries_ok(entries@),
            r.is_some() ==> {
                &&& r.unwrap().wf()
                &&& r.unwrap()@.len() == entries@.len()
                &&& forall|i: int|
                    0 <= i < entries@.len() ==> r.unwrap()@.contains((#[trigger] entries@[i]).1)
                &&& forall|t: ActivityType|
                    r.unwrap()@.contains(t) ==> exists|i: int|
                        0 <= i < entries@.len() && entries@[i].1 == t
            },
    {
        let mut store = ActivityTypesStore::empty();
        let mut i: usize = 0;
        while i < entries.len()
            invariant
                store.wf(),
                0 <= i <= entries@.len(),
                store@.len() == i,
                forall|j: int| 0 <= j < i ==> store@.contains((#[trigger] entries@[j]).1),
                forall|t: ActivityType|
                    store@.contains(t) ==> exists|j: int| 0 <= j < i && entries@[j].1 == t,
                forall|j: int| 0 <= j < i ==> (#[trigger] entries@[j]).0 == entries@[j].1.id.0,
                forall|p: int, q: int| 0 <= p < q < i ==> entries@[p].1.id.0 != entries@[q].1.id.0,
            decreases entries@.len() - i,
        {
            let key = entries[i].0;
            let t = entries[i].1.clone();
            if key != t.id.0 {
                proof {
                    assert(entries@[i as int].0 != entries@[i as int].1.id.0);
                }
                return None;
            }
            let ghost pre = store@;
            let ok = store.insert_activity_type(t);
            if !ok {
                proof {
                    assert(has_id(pre, entries@[i as int].1.id.0));
                    let dup = entries@[i as int].1.id.0;
                    let w = choose|w: int| 0 <= w < pre.len() && pre[w].id.0 == dup;
                    assert(pre.contains(pre[w]));
                    let j = choose|j: int| 0 <= j < i && entries@[j].1 == pre[w];
                    assert(entries@[j].1.id.0 == entries@[i as int].1.id.0);
                }
                return None;
            }
            proof {
                assert forall|t2: ActivityType| store@.contains(t2) implies exists|j: int|
                    0 <= j < i + 1 && entries@[j].1 == t2 by {
                    if t2 == entries@[i as int].1 {
                        assert(entries@[i as int].1 == t2);
                    } else {
                        assert(pre.contains(t2));
                        let j = choose|j: int| 0 <= j < i && entries@[j].1 == t2;
                        assert(entries@[j].1 == t2);
                    }
                }
                assert forall|p: int, q: int|
                    0 <= p < q < i + 1 implies entries@[p].1.id.0 != entries@[q].1.id.0 by {
                    if q == i {
                        assert(pre.contains(entries@[p].1));
                        if entries@[p].1.id.0 == entries@[q].1.id.0 {
                            assert(has_id(pre, entries@[q].1.id.0)) by {
                                let w = choose|w: int|
                                    0 <= w < pre.len() && pre[w] == entries@[p].1;
                                assert(pre[w].id.0 == entries@[q].1.id.0);
                            }
                        }
                    }
                }
            }
            i = i + 1;
        }
        Some(store)
    }
}

} // verus!
