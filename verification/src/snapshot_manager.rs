//! A time-ordered collection of received snapshots, and the choice of which
//! one to draw for a requested time.

use std::collections::VecDeque;
use vstd::prelude::*;

verus! {

/// A point in show time, in microseconds.
#[derive(Clone, Copy, Debug, PartialEq, Eq, Structural)]
pub struct Timestamp(pub i64);

impl Default for Timestamp {
    /// The start of show time.
    fn default() -> (r: Timestamp)
        ensures
            r.0 == 0,
    {
        Timestamp(0)
    }
}

/// One frame of show state as it arrived, carrying its layers untouched.
#[derive(Debug)]
pub struct Snapshot<L> {
    pub frame_number: u64,
    pub time: Timestamp,
    pub layers: L,
}

impl<L: Clone> Clone for Snapshot<L> {
    /// The same frame and time, with the layers cloned.
    fn clone(&self) -> (r: Self)
        ensures
            r.frame_number == self.frame_number,
            r.time == self.time,
            cloned(self.layers, r.layers),
    {
        Snapshot { frame_number: self.frame_number, time: self.time, layers: self.layers.clone() }
    }
}

/// What a request for the snapshot at a given time comes back with.
pub enum SnapshotFetchResult<L> {
    /// No data is available at all.
    NoData,
    /// The requested time is bracketed by two snapshots; the newer one's
    /// layers.
    Good(L),
    /// Every snapshot held is older than the requested time; the newest one's
    /// layers.
    MissingNewer(L),
    /// The only snapshot held is newer than the requested time; its layers.
    MissingOlder(L),
    /// Nothing brackets the requested time; everything that was held.
    Error(Vec<Snapshot<L>>),
}

/// The time of each snapshot, newest first.
pub open spec fn time_of<L>(s: Seq<Snapshot<L>>, i: int) -> i64 {
    s[i].time.0
}

/// Newest first: no snapshot is newer than one before it.
pub open spec fn newest_first<L>(s: Seq<Snapshot<L>>) -> bool {
    forall|i: int, j: int| 0 <= i < j < s.len() ==> time_of(s, i) >= time_of(s, j)
}

/// The first position at or after `i` holding a snapshot older than `t`, or
/// the back when there is none.
pub open spec fn first_older_from<L>(s: Seq<Snapshot<L>>, t: i64, i: int) -> int
    decreases s.len() - i,
{
    if i < 0 || i >= s.len() {
        s.len() as int
    } else if t > time_of(s, i) {
        i
    } else {
        first_older_from(s, t, i + 1)
    }
}

/// Where a snapshot taken at `t` is inserted: the front if it is newer than
/// the front, otherwise before the first snapshot older than it (the back
/// when there is none), so that the collection stays newest first.
pub open spec fn insert_position<L>(s: Seq<Snapshot<L>>, t: i64) -> int {
    if s.len() == 0 || t > time_of(s, 0) {
        0
    } else {
        first_older_from(s, t, 0)
    }
}

/// How many snapshots are kept when those at the back older than `t` are
/// dropped, stopping at the first that is not.
pub open spec fn kept_len<L>(s: Seq<Snapshot<L>>, t: i64) -> nat
    decreases s.len(),
{
    if s.len() == 0 {
        0
    } else if time_of(s, s.len() - 1) < t {
        kept_len(s.drop_last(), t)
    } else {
        s.len()
    }
}

/// The first adjacent pair at or after `i` whose times bracket `t`, as the
/// position of the newer one.
pub open spec fn bracket_from<L>(s: Seq<Snapshot<L>>, t: i64, i: int) -> Option<int>
    decreases s.len() - i,
{
    if i < 0 || i + 1 >= s.len() {
        None
    } else if t <= time_of(s, i) && t >= time_of(s, i + 1) {
        Some(i)
    } else {
        bracket_from(s, t, i + 1)
    }
}

proof fn lemma_first_older_from_range<L>(s: Seq<Snapshot<L>>, t: i64, i: int)
    ensures
        0 <= first_older_from(s, t, i) <= s.len(),
    decreases s.len() - i,
{
    if 0 <= i < s.len() && !(t > time_of(s, i)) {
        lemma_first_older_from_range(s, t, i + 1);
    }
}

proof fn lemma_bracket_from<L>(s: Seq<Snapshot<L>>, t: i64, i: int)
    requires
        0 <= i,
    ensures
        bracket_from(s, t, i) matches Some(k) ==> i <= k && k + 1 < s.len() && t <= time_of(s, k)
            && t >= time_of(s, k + 1),
        bracket_from(s, t, i) is None ==> forall|k: int|
            i <= k && k + 1 < s.len() ==> !(t <= #[trigger] time_of(s, k) && t >= time_of(
                s,
                k + 1,
            )),
    decreases s.len() - i,
{
    if i + 1 < s.len() && !(t <= time_of(s, i) && t >= time_of(s, i + 1)) {
        lemma_bracket_from(s, t, i + 1);
    }
}


proof fn lemma_first_older_from_spec<L>(s: Seq<Snapshot<L>>, t: i64, i: int)
    requires
        0 <= i,
    ensures
        (exists|k: int| i <= k < s.len() && t > #[trigger] time_of(s, k)) ==> {
            let r = first_older_from(s, t, i);
            &&& i <= r < s.len()
            &&& t > time_of(s, r)
            &&& forall|j: int| i <= j < r ==> !(t > #[trigger] time_of(s, j))
        },
        (forall|k: int| i <= k < s.len() ==> !(t > #[trigger] time_of(s, k))) ==> first_older_from(
            s,
            t,
            i,
        ) == s.len(),
    decreases s.len() - i,
{
    if i < s.len() && !(t > time_of(s, i)) {
        lemma_first_older_from_spec(s, t, i + 1);
        if exists|k: int| i <= k < s.len() && t > #[trigger] time_of(s, k) {
            let k = choose|k: int| i <= k < s.len() && t > #[trigger] time_of(s, k);
            assert(i + 1 <= k);
        }
    }
}

/// Inserting keeps a newest-first collection newest first, and it then holds
/// exactly what it held before and the new snapshot.
pub proof fn insert_keeps_newest_first<L>(s: Seq<Snapshot<L>>, snapshot: Snapshot<L>)
    requires
        newest_first(s),
    ensures
        newest_first(s.insert(insert_position(s, snapshot.time.0), snapshot)),
        s.insert(insert_position(s, snapshot.time.0), snapshot).to_multiset() =~= s.to_multiset().insert(
            snapshot,
        ),
{
    let t = snapshot.time.0;
    lemma_first_older_from_range(s, t, 0);
    lemma_first_older_from_spec(s, t, 0);
    let p = insert_position(s, t);
    let r = s.insert(p, snapshot);
    assert(0 <= p <= s.len());
    assert forall|i: int| 0 <= i < p implies !(t > #[trigger] time_of(s, i)) by {
        if s.len() > 0 && !(t > time_of(s, 0)) {
            if exists|k: int| 0 <= k < s.len() && t > #[trigger] time_of(s, k) {
            }
        }
    }
    assert forall|j: int| p <= j < s.len() implies t >= #[trigger] time_of(s, j) by {
        if p == 0 {
            if s.len() > 0 && t > time_of(s, 0) {
                assert(time_of(s, 0) >= time_of(s, j));
            }
        } else {
            assert(t > time_of(s, p));
            assert(time_of(s, p) >= time_of(s, j) || j == p);
        }
    }
    assert forall|i: int, j: int| 0 <= i < j < r.len() implies time_of(r, i) >= time_of(r, j) by {
        if i < p {
            assert(time_of(r, i) == time_of(s, i));
        } else if i == p {
            assert(time_of(r, i) == t);
        } else {
            assert(time_of(r, i) == time_of(s, i - 1));
        }
        if j < p {
            assert(time_of(r, j) == time_of(s, j));
        } else if j == p {
            assert(time_of(r, j) == t);
        } else {
            assert(time_of(r, j) == time_of(s, j - 1));
        }
        if j == p && i < p {
            assert(!(t > time_of(s, i)));
        }
        if i == p && j > p {
            assert(t >= time_of(s, j - 1));
        }
        if i < p && j > p {
            assert(time_of(s, i) >= time_of(s, j - 1));
        }
    }
    vstd::seq_lib::to_multiset_insert(s, p, snapshot);
}

/// After stale snapshots are dropped from a newest-first collection, none of
/// those kept is older than the oldest relevant time, and every one dropped
/// was.
pub proof fn drop_leaves_nothing_stale<L>(s: Seq<Snapshot<L>>, t: i64)
    requires
        newest_first(s),
    ensures
        kept_len(s, t) <= s.len(),
        forall|i: int| 0 <= i < kept_len(s, t) ==> #[trigger] time_of(s, i) >= t,
        forall|i: int| kept_len(s, t) <= i < s.len() ==> #[trigger] time_of(s, i) < t,
    decreases s.len(),
{
    if s.len() > 0 {
        if time_of(s, s.len() - 1) < t {
            let d = s.drop_last();
            assert(newest_first(d)) by {
                assert forall|i: int, j: int| 0 <= i < j < d.len() implies time_of(d, i)
                    >= time_of(d, j) by {
                    assert(time_of(d, i) == time_of(s, i));
                    assert(time_of(d, j) == time_of(s, j));
                }
            }
            drop_leaves_nothing_stale(d, t);
            assert forall|i: int| 0 <= i < kept_len(s, t) implies #[trigger] time_of(s, i) >= t by {
                assert(time_of(d, i) == time_of(s, i));
            }
            assert forall|i: int| kept_len(s, t) <= i < s.len() implies #[trigger] time_of(s, i)
                < t by {
                if i < s.len() - 1 {
                    assert(time_of(d, i) == time_of(s, i));
                }
            }
        } else {
            assert forall|i: int| 0 <= i < kept_len(s, t) implies #[trigger] time_of(s, i) >= t by {
                assert(time_of(s, i) >= time_of(s, s.len() - 1));
            }
        }
    }
}

/// A `Good` answer is the newer of two adjacent snapshots between which the
/// requested time falls.
pub proof fn good_brackets_the_requested_time<L>(s: Seq<Snapshot<L>>, t: i64)
    ensures
        bracket_from(s, t, 0) matches Some(i) ==> 0 <= i && i + 1 < s.len() && time_of(s, i)
            >= t >= time_of(s, i + 1),
{
    lemma_bracket_from(s, t, 0);
}

proof fn lemma_no_bracket_stays_below<L>(s: Seq<Snapshot<L>>, t: i64, k: int)
    requires
        0 <= k < s.len(),
        t <= time_of(s, 0),
        forall|j: int|
            0 <= j && j + 1 < s.len() ==> !(t <= #[trigger] time_of(s, j) && t >= time_of(
                s,
                j + 1,
            )),
    ensures
        t < time_of(s, k) || k == 0,
        t <= time_of(s, k),
    decreases k,
{
    if k > 0 {
        lemma_no_bracket_stays_below(s, t, k - 1);
        assert(!(t <= time_of(s, k - 1) && t >= time_of(s, k)));
    }
}

/// A newest-first collection of two or more snapshots whose span covers the
/// requested time always brackets it, so `get` answers `Good`.
pub proof fn covered_time_is_bracketed<L>(s: Seq<Snapshot<L>>, t: i64)
    requires
        newest_first(s),
        s.len() >= 2,
        time_of(s, 0) >= t >= time_of(s, s.len() - 1),
    ensures
        bracket_from(s, t, 0) is Some,
{
    lemma_bracket_from(s, t, 0);
    if bracket_from(s, t, 0) is None {
        lemma_no_bracket_stays_below(s, t, s.len() - 1);
    }
}

/// Handle receiving and maintaining a collection of snapshots, newest at the
/// front.
pub struct SnapshotManager<L> {
    pub snapshots: VecDeque<Snapshot<L>>,
    /// The time of the oldest snapshot a draw has needed lately; anything
    /// older is stale.
    pub oldest_relevant_snapshot_time: Timestamp,
}

impl<L> Default for SnapshotManager<L> {
    /// Nothing held, and nothing stale yet.
    fn default() -> (r: Self)
        ensures
            r.snapshots@.len() == 0,
            r.oldest_relevant_snapshot_time.0 == 0,
    {
        SnapshotManager { snapshots: VecDeque::new(), oldest_relevant_snapshot_time: Timestamp(0) }
    }
}

impl<L: Clone> SnapshotManager<L> {
    /// Add a new snapshot: at the front if it is the newest, otherwise before
    /// the first snapshot older than it, or at the back if none is; a
    /// newest-first collection stays newest first.
    pub fn insert_snapshot(&mut self, snapshot: Snapshot<L>)
        ensures
            final(self).snapshots@ == old(self).snapshots@.insert(
                insert_position(old(self).snapshots@, snapshot.time.0),
                snapshot,
            ),
            newest_first(old(self).snapshots@) ==> newest_first(final(self).snapshots@),
            final(self).oldest_relevant_snapshot_time == old(self).oldest_relevant_snapshot_time,
    {
        proof {
            if newest_first(old(self).snapshots@) {
                insert_keeps_newest_first(old(self).snapshots@, snapshot);
            }
        }
        let len = self.snapshots.len();
        if len == 0 || snapshot.time.0 > self.snapshots[0].time.0 {
            self.snapshots.push_front(snapshot);
            assert(self.snapshots@ =~= old(self).snapshots@.insert(0, snapshot));
        } else {
            let ghost s = self.snapshots@;
            let t = snapshot.time.0;
            let mut insert_index: usize = len;
            let mut index: usize = 0;
            while index < len
                invariant_except_break
                    insert_index == len,
                    first_older_from(s, t, 0) == first_older_from(s, t, index as int),
                invariant
                    len == self.snapshots@.len(),
                    s == self.snapshots@,
                    0 <= index <= len,
                ensures
                    insert_index == first_older_from(s, t, 0),
                decreases len - index,
            {
                if t > self.snapshots[index].time.0 {
                    insert_index = index;
                    break;
                }
                index = index + 1;
            }
            proof {
                lemma_first_older_from_range(s, t, 0);
            }
            self.snapshots.insert(insert_index, snapshot);
        }
    }

    /// Drop stale snapshots from the back of the collection, stopping at the
    /// first that is not older than the oldest relevant time.
    fn drop_stale_snapshots(&mut self)
        ensures
            final(self).snapshots@ == old(self).snapshots@.subrange(
                0,
                kept_len(old(self).snapshots@, old(self).oldest_relevant_snapshot_time.0) as int,
            ),
            final(self).oldest_relevant_snapshot_time == old(self).oldest_relevant_snapshot_time,
    {
        let t = self.oldest_relevant_snapshot_time.0;
        loop
            invariant
                t == self.oldest_relevant_snapshot_time.0,
                self.oldest_relevant_snapshot_time == old(self).oldest_relevant_snapshot_time,
                kept_len(old(self).snapshots@, t) == kept_len(self.snapshots@, t),
                self.snapshots@ == old(self).snapshots@.subrange(0, self.snapshots@.len() as int),
                self.snapshots@.len() <= old(self).snapshots@.len(),
            ensures
                self.snapshots@.len() == kept_len(self.snapshots@, t),
                kept_len(old(self).snapshots@, t) == kept_len(self.snapshots@, t),
                self.snapshots@ == old(self).snapshots@.subrange(0, self.snapshots@.len() as int),
                self.oldest_relevant_snapshot_time == old(self).oldest_relevant_snapshot_time,
            decreases self.snapshots@.len(),
        {
            let len = self.snapshots.len();
            if len > 0 && self.snapshots[len - 1].time.0 < t {
                let ghost before = self.snapshots@;
                self.snapshots.pop_back();
                assert(self.snapshots@ =~= before.drop_last());
                assert(self.snapshots@ =~= old(self).snapshots@.subrange(
                    0,
                    self.snapshots@.len() as int,
                ));
            } else {
                break;
            }
        }
    }


    /// Given a timestamp, select the most relevant snapshot, and move the
    /// oldest relevant time up to what that selection still needs.
    pub fn get(&mut self, time: Timestamp) -> (r: SnapshotFetchResult<L>)
        ensures
            final(self).snapshots@ == old(self).snapshots@,
            ({
                let s = old(self).snapshots@;
                let t = time.0;
                let oldest = final(self).oldest_relevant_snapshot_time;
                if s.len() == 0 {
                    &&& r is NoData
                    &&& oldest == old(self).oldest_relevant_snapshot_time
                } else if time_of(s, 0) < t {
                    &&& r matches SnapshotFetchResult::MissingNewer(layers) && cloned(
                        s[0].layers,
                        layers,
                    )
                    &&& oldest == s[0].time
                } else if s.len() == 1 {
                    &&& r matches SnapshotFetchResult::MissingOlder(layers) && cloned(
                        s[0].layers,
                        layers,
                    )
                    &&& oldest == old(self).oldest_relevant_snapshot_time
                } else {
                    match bracket_from(s, t, 0) {
                        Some(i) => {
                            &&& r matches SnapshotFetchResult::Good(layers) && cloned(
                                s[i].layers,
                                layers,
                            )
                            &&& oldest == s[i + 1].time
                        },
                        None => {
                            &&& r matches SnapshotFetchResult::Error(all) && all@.len() == s.len()
                                && forall|k: int|
                                0 <= k < s.len() ==> (#[trigger] all@[k]).time == s[k].time
                                && all@[k].frame_number == s[k].frame_number && cloned(
                                s[k].layers,
                                all@[k].layers,
                            )
                            &&& oldest == old(self).oldest_relevant_snapshot_time
                        },
                    }
                }
            }),
    {
        let len = self.snapshots.len();
        if len == 0 {
            return SnapshotFetchResult::NoData;
        }
        if self.snapshots[0].time.0 < time.0 {
            let newest_time = self.snapshots[0].time;
            let layers = self.snapshots[0].layers.clone();
            self.oldest_relevant_snapshot_time = newest_time;
            return SnapshotFetchResult::MissingNewer(layers);
        }
        if len == 1 {
            // Don't move the oldest relevant time: the older snapshot is
            // exactly what is missing.
            return SnapshotFetchResult::MissingOlder(self.snapshots[0].layers.clone());
        }
        let ghost s = self.snapshots@;
        let t = time.0;
        let mut index: usize = 0;
        while index + 1 < len
            invariant
                len == s.len(),
                s == self.snapshots@,
                s.len() >= 2,
                s == old(self).snapshots@,
                t == time.0,
                !(time_of(s, 0) < t),
                0 <= index < len,
                bracket_from(s, t, 0) == bracket_from(s, t, index as int),
                self.oldest_relevant_snapshot_time == old(self).oldest_relevant_snapshot_time,
            decreases len - index,
        {
            let newer = self.snapshots[index].time.0;
            let older = self.snapshots[index + 1].time.0;
            if t <= newer && t >= older {
                assert(bracket_from(s, t, index as int) == Some(index as int));
                self.oldest_relevant_snapshot_time = self.snapshots[index + 1].time;
                let layers = self.snapshots[index].layers.clone();
                return SnapshotFetchResult::Good(layers);
            }
            index = index + 1;
        }
        assert(bracket_from(s, t, index as int) is None);
        let mut all: Vec<Snapshot<L>> = Vec::new();
        let mut k: usize = 0;
        while k < len
            invariant
                len == s.len(),
                s == self.snapshots@,
                0 <= k <= len,
                all@.len() == k,
                forall|j: int|
                    0 <= j < k ==> (#[trigger] all@[j]).time == s[j].time && all@[j].frame_number
                        == s[j].frame_number && cloned(s[j].layers, all@[j].layers),
            decreases len - k,
        {
            all.push(self.snapshots[k].clone());
            k = k + 1;
        }
        SnapshotFetchResult::Error(all)
    }

    /// Drop stale snapshots from the collection.
    pub fn update(&mut self)
        ensures
            final(self).snapshots@ == old(self).snapshots@.subrange(
                0,
                kept_len(old(self).snapshots@, old(self).oldest_relevant_snapshot_time.0) as int,
            ),
            final(self).oldest_relevant_snapshot_time == old(self).oldest_relevant_snapshot_time,
    {
        self.drop_stale_snapshots();
    }
}

} // verus!
