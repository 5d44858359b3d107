//! Which refined figure meshes a client holds: built on demand, kept while
//! something draws them, dropped when nothing has for [`MAX_AGE`] frames, and
//! shed least recently drawn first when they outgrow their byte budget.
//!
//! Refining a mesh is floating-point work done by the caller; what this
//! module decides is which meshes are held and what they weigh.

use crate::geom::RefinedMesh;
use vstd::prelude::*;

verus! {

/// Coarsest mesh worth keeping.
pub const COARSEST_LEVEL: i8 = -2;

/// Finest density a client refines to unless it is told otherwise.
pub const DEFAULT_FINEST_LEVEL: i8 = -5;

/// Finest mesh worth keeping.
pub const FINEST_LEVEL: i8 = -7;

/// How long a mesh nothing has drawn is kept, in frames.
pub const MAX_AGE: u64 = 600;

/// How often the held meshes are looked over, in frames.
pub const REAP_INTERVAL: u64 = 120;

/// Most the held meshes may weigh before the least recently drawn are
/// dropped, in bytes.
pub const BYTE_BUDGET: usize = 134217728;

/// A mesh density, as the power of two giving its target edge length.
#[derive(Clone, Copy, Debug, PartialEq, Eq, Structural, Hash, PartialOrd, Ord)]
pub struct Level(pub i8);

impl Level {
    /// The finest density a client refines to by default.
    pub fn default_finest() -> (r: Level)
        ensures
            r.0 == DEFAULT_FINEST_LEVEL,
    {
        Level(DEFAULT_FINEST_LEVEL)
    }

    /// The finest density there is.
    pub fn finest() -> (r: Level)
        ensures
            r.0 == FINEST_LEVEL,
    {
        Level(FINEST_LEVEL)
    }

    /// The bucket for a rounded power-of-two exponent: the exponent itself,
    /// held between `finest` and the coarsest level.
    pub fn bucket(exp: i8, finest: Level) -> (r: Level)
        requires
            finest.0 <= COARSEST_LEVEL,
        ensures
            r.0 == (if exp < finest.0 {
                finest.0
            } else if exp > COARSEST_LEVEL {
                COARSEST_LEVEL
            } else {
                exp
            }),
    {
        if exp < finest.0 {
            finest
        } else if exp > COARSEST_LEVEL {
            Level(COARSEST_LEVEL)
        } else {
            Level(exp)
        }
    }
}

/// A frame of the client's drawing, counted from start-up.
#[derive(Clone, Copy, Debug, PartialEq, Eq, Structural)]
pub struct Frame(pub u64);

impl Default for Frame {
    /// The first frame.
    fn default() -> (r: Frame)
        ensures
            r.0 == 0,
    {
        Frame(0)
    }
}

/// Frames from `earlier` to `later`, or none if `earlier` is not earlier.
pub open spec fn frames_since(later: u64, earlier: u64) -> u64 {
    if later >= earlier {
        (later - earlier) as u64
    } else {
        0
    }
}

impl Frame {
    /// How many frames have passed since `earlier`; zero if it is not
    /// earlier.
    pub fn since(self, earlier: Frame) -> (r: u64)
        ensures
            r == frames_since(self.0, earlier.0),
    {
        if self.0 >= earlier.0 {
            self.0 - earlier.0
        } else {
            0
        }
    }
}

/// Identifies one cached mesh: which figure (by its number in the figure
/// libraries) at which density.
#[derive(Clone, Copy, Debug, PartialEq, Eq, Structural)]
pub struct MeshId {
    pub figure: u64,
    pub level: Level,
}

/// One mesh, what it weighs, and when a draw last wanted it.
pub struct Held<M> {
    pub mesh: M,
    pub bytes: usize,
    pub last_used: Frame,
}

/// What the meshes in `s` weigh together.
pub open spec fn total<M>(s: Seq<(MeshId, Held<M>)>) -> int
    decreases s.len(),
{
    if s.len() == 0 {
        0
    } else {
        total(s.drop_last()) + s.last().1.bytes
    }
}

/// No figure and density is held twice.
pub open spec fn ids_distinct<M>(s: Seq<(MeshId, Held<M>)>) -> bool {
    forall|i: int, j: int| 0 <= i < j < s.len() ==> s[i].0 != s[j].0
}

/// The position of `id` in `s`, if it is held.
pub open spec fn position_of<M>(s: Seq<(MeshId, Held<M>)>, id: MeshId) -> Option<int>
    decreases s.len(),
{
    if s.len() == 0 {
        None
    } else if s.last().0 == id {
        Some(s.len() - 1)
    } else {
        position_of(s.drop_last(), id)
    }
}

/// The meshes a sweep at `frame` keeps: those drawn fewer than [`MAX_AGE`]
/// frames ago, in the order they were held.
pub open spec fn young<M>(s: Seq<(MeshId, Held<M>)>, frame: u64) -> Seq<(MeshId, Held<M>)>
    decreases s.len(),
{
    if s.len() == 0 {
        s
    } else if frames_since(frame, s.last().1.last_used.0) < MAX_AGE {
        young(s.drop_last(), frame).push(s.last())
    } else {
        young(s.drop_last(), frame)
    }
}

/// The first of the least recently drawn meshes, from position `i` on.
pub open spec fn oldest_from<M>(s: Seq<(MeshId, Held<M>)>, i: int) -> int
    decreases s.len() - i,
{
    if i + 1 >= s.len() {
        i
    } else {
        let rest = oldest_from(s, i + 1);
        if s[rest].1.last_used.0 < s[i].1.last_used.0 {
            rest
        } else {
            i
        }
    }
}

/// What is left after dropping the least recently drawn, one at a time, until
/// what is held fits `budget`.
pub open spec fn shed<M>(s: Seq<(MeshId, Held<M>)>, budget: int) -> Seq<(MeshId, Held<M>)>
    decreases s.len(),
{
    if s.len() == 0 || total(s) <= budget {
        s
    } else {
        proof {
            lemma_oldest_from(s, 0);
        }
        shed(s.remove(oldest_from(s, 0)), budget)
    }
}

proof fn lemma_total_nonneg<M>(s: Seq<(MeshId, Held<M>)>)
    ensures
        total(s) >= 0,
    decreases s.len(),
{
    if s.len() > 0 {
        lemma_total_nonneg(s.drop_last());
    }
}

proof fn lemma_total_push<M>(s: Seq<(MeshId, Held<M>)>, x: (MeshId, Held<M>))
    ensures
        total(s.push(x)) == total(s) + x.1.bytes,
{
    assert(s.push(x).drop_last() =~= s);
}

proof fn lemma_total_remove<M>(s: Seq<(MeshId, Held<M>)>, i: int)
    requires
        0 <= i < s.len(),
    ensures
        total(s.remove(i)) == total(s) - s[i].1.bytes,
    decreases s.len(),
{
    if i == s.len() - 1 {
        assert(s.remove(i) =~= s.drop_last());
    } else {
        let d = s.drop_last();
        lemma_total_remove(d, i);
        assert(s.remove(i) =~= d.remove(i).push(s.last()));
        lemma_total_push(d.remove(i), s.last());
    }
}

proof fn lemma_total_update<M>(s: Seq<(MeshId, Held<M>)>, i: int, x: (MeshId, Held<M>))
    requires
        0 <= i < s.len(),
    ensures
        total(s.update(i, x)) == total(s) - s[i].1.bytes + x.1.bytes,
    decreases s.len(),
{
    if i == s.len() - 1 {
        assert(s.update(i, x).drop_last() =~= s.drop_last());
    } else {
        let d = s.drop_last();
        lemma_total_update(d, i, x);
        assert(s.update(i, x).drop_last() =~= d.update(i, x));
    }
}

proof fn lemma_position_of<M>(s: Seq<(MeshId, Held<M>)>, id: MeshId)
    requires
        ids_distinct(s),
    ensures
        position_of(s, id) matches Some(i) ==> 0 <= i < s.len() && s[i].0 == id,
        position_of(s, id) is None ==> forall|k: int| 0 <= k < s.len() ==> s[k].0 != id,
        forall|k: int| 0 <= k < s.len() && s[k].0 == id ==> position_of(s, id) == Some(k),
    decreases s.len(),
{
    if s.len() > 0 {
        let d = s.drop_last();
        assert(ids_distinct(d));
        lemma_position_of(d, id);
        assert forall|k: int| 0 <= k < s.len() - 1 implies #[trigger] s[k] == d[k] by {}
        if s.last().0 != id {
            assert forall|k: int| 0 <= k < s.len() && s[k].0 == id implies position_of(s, id)
                == Some(k) by {
                assert(s[k] == d[k]);
            }
        }
    }
}

/// The mesh `oldest_from` picks is one of those from `i` on, and none of
/// them was drawn longer ago.
pub proof fn lemma_oldest_from<M>(s: Seq<(MeshId, Held<M>)>, i: int)
    requires
        0 <= i < s.len(),
    ensures
        i <= oldest_from(s, i) < s.len(),
        forall|k: int|
            i <= k < s.len() ==> s[oldest_from(s, i)].1.last_used.0 <= #[trigger] s[k].1.last_used.0,
    decreases s.len() - i,
{
    if i + 1 < s.len() {
        lemma_oldest_from(s, i + 1);
    }
}

proof fn lemma_young_total<M>(s: Seq<(MeshId, Held<M>)>, frame: u64)
    ensures
        total(young(s, frame)) <= total(s),
        young(s, frame).len() <= s.len(),
        forall|k: int|
            0 <= k < young(s, frame).len() ==> exists|j: int|
                0 <= j < s.len() && #[trigger] young(s, frame)[k] == s[j],
    decreases s.len(),
{
    if s.len() > 0 {
        let d = s.drop_last();
        lemma_young_total(d, frame);
        lemma_total_push(young(d, frame), s.last());
        let y = young(s, frame);
        let yd = young(d, frame);
        assert forall|k: int| 0 <= k < y.len() implies exists|j: int|
            0 <= j < s.len() && #[trigger] y[k] == s[j] by {
            if k < yd.len() {
                let j = choose|j: int| 0 <= j < d.len() && #[trigger] yd[k] == d[j];
                assert(y[k] == s[j]);
            } else {
                assert(y[k] == s[s.len() - 1]);
            }
        }
    }
}


proof fn lemma_total_prefix<M>(s: Seq<(MeshId, Held<M>)>, i: int)
    requires
        0 <= i <= s.len(),
    ensures
        total(s.take(i)) <= total(s),
    decreases s.len(),
{
    if i < s.len() {
        let d = s.drop_last();
        lemma_total_prefix(d, i);
        assert(d.take(i) =~= s.take(i));
        lemma_total_nonneg(s.take(0));
        assert(s.last().1.bytes >= 0);
    } else {
        assert(s.take(i) =~= s);
    }
}


/// Shedding stops as soon as what is held fits the budget, and only runs out
/// of meshes to drop when none of them would.
pub proof fn shed_fits_budget<M>(s: Seq<(MeshId, Held<M>)>, budget: int)
    ensures
        total(shed(s, budget)) <= budget || shed(s, budget).len() == 0,
        total(s) <= budget ==> shed(s, budget) == s,
    decreases s.len(),
{
    if s.len() > 0 && total(s) > budget {
        lemma_oldest_from(s, 0);
        shed_fits_budget(s.remove(oldest_from(s, 0)), budget);
    }
}

/// Everything shedding keeps was held before.
pub proof fn shed_keeps_what_was_held<M>(s: Seq<(MeshId, Held<M>)>, budget: int)
    ensures
        shed(s, budget).len() <= s.len(),
        forall|k: int| 0 <= k < shed(s, budget).len() ==> s.contains(#[trigger] shed(s, budget)[k]),
    decreases s.len(),
{
    if s.len() > 0 && total(s) > budget {
        lemma_oldest_from(s, 0);
        let m = oldest_from(s, 0);
        let r = s.remove(m);
        shed_keeps_what_was_held(r, budget);
        assert forall|k: int| 0 <= k < shed(s, budget).len() implies s.contains(
            #[trigger] shed(s, budget)[k],
        ) by {
            let x = shed(s, budget)[k];
            assert(r.contains(x));
            let j = choose|j: int| 0 <= j < r.len() && r[j] == x;
            if j < m {
                assert(s[j] == x);
            } else {
                assert(s[j + 1] == x);
            }
        }
    }
}

/// What goes is what was drawn least recently: no mesh dropped by shedding
/// was drawn later than any mesh it kept.
pub proof fn shed_drops_least_recent<M>(s: Seq<(MeshId, Held<M>)>, budget: int)
    ensures
        forall|i: int, k: int|
            0 <= i < s.len() && 0 <= k < shed(s, budget).len() && !shed(s, budget).contains(
                #[trigger] s[i],
            ) ==> s[i].1.last_used.0 <= #[trigger] shed(s, budget)[k].1.last_used.0,
    decreases s.len(),
{
    if s.len() > 0 && total(s) > budget {
        lemma_oldest_from(s, 0);
        let m = oldest_from(s, 0);
        let r = s.remove(m);
        shed_drops_least_recent(r, budget);
        shed_keeps_what_was_held(r, budget);
        let out = shed(s, budget);
        assert(out == shed(r, budget));
        assert forall|i: int, k: int|
            0 <= i < s.len() && 0 <= k < out.len() && !out.contains(#[trigger] s[i]) implies s[i].1.last_used.0
            <= #[trigger] out[k].1.last_used.0 by {
            let y = out[k];
            assert(r.contains(y));
            let j = choose|j: int| 0 <= j < r.len() && r[j] == y;
            let j2 = if j < m { j } else { j + 1 };
            assert(s[j2] == y);
            if i == m {
                assert(s[m].1.last_used.0 <= s[j2].1.last_used.0);
            } else {
                let i2 = if i < m { i } else { i - 1 };
                assert(r[i2] == s[i]);
            }
        }
    }
}

/// A sweep keeps exactly the meshes drawn within [`MAX_AGE`] frames.
pub proof fn sweep_keeps_exactly_the_recent<M>(s: Seq<(MeshId, Held<M>)>, frame: u64)
    ensures
        forall|k: int|
            0 <= k < young(s, frame).len() ==> frames_since(
                frame,
                (#[trigger] young(s, frame)[k]).1.last_used.0,
            ) < MAX_AGE,
        forall|i: int|
            0 <= i < s.len() && frames_since(frame, (#[trigger] s[i]).1.last_used.0) < MAX_AGE
                ==> young(s, frame).contains(s[i]),
    decreases s.len(),
{
    if s.len() > 0 {
        let d = s.drop_last();
        sweep_keeps_exactly_the_recent(d, frame);
        let y = young(s, frame);
        let yd = young(d, frame);
        assert forall|k: int| 0 <= k < y.len() implies frames_since(
            frame,
            (#[trigger] y[k]).1.last_used.0,
        ) < MAX_AGE by {
            if k < yd.len() {
                assert(y[k] == yd[k]);
            }
        }
        assert forall|i: int|
            0 <= i < s.len() && frames_since(frame, (#[trigger] s[i]).1.last_used.0) < MAX_AGE
                implies y.contains(s[i]) by {
            if i < s.len() - 1 {
                assert(d[i] == s[i]);
                assert(yd.contains(d[i]));
                let j = choose|j: int| 0 <= j < yd.len() && yd[j] == d[i];
                assert(y[j] == yd[j]);
            } else {
                assert(y[y.len() - 1] == s[i]);
            }
        }
    }
}

/// The meshes drawn recently, keyed by figure and density.
pub struct MeshLibrary<M> {
    built: Vec<(MeshId, Held<M>)>,
    /// What `built` weighs, carried along rather than summed.
    bytes: usize,
    budget: usize,
    reaped: Frame,
}

impl<M> Default for MeshLibrary<M> {
    /// Nothing held, under the usual byte budget.
    fn default() -> (r: Self)
        ensures
            r.wf(),
            r.held().len() == 0,
            r.budget() == BYTE_BUDGET,
            r.reaped() == 0,
    {
        MeshLibrary { built: Vec::new(), bytes: 0, budget: BYTE_BUDGET, reaped: Frame(0) }
    }
}

impl<M> MeshLibrary<M> {
    /// The meshes held, in the order they were built.
    pub closed spec fn held(&self) -> Seq<(MeshId, Held<M>)> {
        self.built@
    }

    pub closed spec fn weight(&self) -> int {
        self.bytes as int
    }

    pub closed spec fn budget(&self) -> int {
        self.budget as int
    }

    /// The frame of the last sweep.
    pub closed spec fn reaped(&self) -> u64 {
        self.reaped.0
    }

    /// Each figure and density is held once, and the weight carried along is
    /// what the held meshes weigh.
    pub closed spec fn wf(&self) -> bool {
        &&& ids_distinct(self.built@)
        &&& self.bytes as int == total(self.built@)
    }

    /// Nothing held, under a byte budget of `budget`.
    pub fn with_budget(budget: usize) -> (r: Self)
        ensures
            r.wf(),
            r.held().len() == 0,
            r.budget() == budget,
            r.reaped() == 0,
    {
        MeshLibrary { built: Vec::new(), bytes: 0, budget, reaped: Frame(0) }
    }

    /// What the meshes held weigh.
    pub fn bytes(&self) -> (r: usize)
        requires
            self.wf(),
        ensures
            r == total(self.held()),
    {
        self.bytes
    }

    /// How many meshes are held.
    pub fn len(&self) -> (r: usize)
        ensures
            r == self.held().len(),
    {
        self.built.len()
    }

    /// Whether the mesh for `id` is held.
    pub fn contains(&self, id: MeshId) -> (r: bool)
        requires
            self.wf(),
        ensures
            r == position_of(self.held(), id) is Some,
    {
        proof {
            lemma_position_of(self.built@, id);
        }
        self.find(id).is_some()
    }

    fn find(&self, id: MeshId) -> (r: Option<usize>)
        requires
            self.wf(),
        ensures
            r matches Some(i) ==> position_of(self.held(), id) == Some(i as int) && i
                < self.held().len() && self.held()[i as int].0 == id,
            r is None ==> position_of(self.held(), id) is None,
    {
        proof {
            lemma_position_of(self.built@, id);
        }
        let mut i: usize = 0;
        while i < self.built.len()
            invariant
                self.wf(),
                0 <= i <= self.built@.len(),
                forall|k: int| 0 <= k < i ==> self.built@[k].0 != id,
            decreases self.built@.len() - i,
        {
            if self.built[i].0 == id {
                proof {
                    lemma_position_of(self.built@, id);
                }
                return Some(i);
            }
            i = i + 1;
        }
        None
    }


    /// Position of the first of the least recently drawn meshes.
    fn oldest(&self) -> (r: usize)
        requires
            self.built@.len() > 0,
        ensures
            r == oldest_from(self.built@, 0),
    {
        let len = self.built.len();
        let mut best: usize = len - 1;
        let mut i: usize = len - 1;
        while i > 0
            invariant
                len == self.built@.len(),
                0 <= i < len,
                best == oldest_from(self.built@, i as int),
                i <= best < len,
            decreases i,
        {
            i = i - 1;
            proof {
                lemma_oldest_from(self.built@, i as int);
            }
            if !(self.built[best].1.last_used.0 < self.built[i].1.last_used.0) {
                best = i;
            }
        }
        best
    }

    /// Drop the least recently drawn until the budget is met.
    fn shed_to_budget(&mut self)
        requires
            old(self).wf(),
        ensures
            final(self).wf(),
            final(self).held() == shed(old(self).held(), old(self).budget()),
            final(self).budget == old(self).budget,
            final(self).reaped == old(self).reaped,
    {
        while self.bytes > self.budget && self.built.len() > 0
            invariant
                self.wf(),
                shed(self.built@, self.budget as int) == shed(old(self).built@, old(self).budget as int),
                self.budget == old(self).budget,
                self.reaped == old(self).reaped,
            decreases self.built@.len(),
        {
            let i = self.oldest();
            proof {
                lemma_oldest_from(self.built@, 0);
                lemma_total_remove(self.built@, i as int);
                lemma_total_nonneg(self.built@.remove(i as int));
            }
            let ghost before = self.built@;
            let (_, held) = self.built.remove(i);
            self.bytes = self.bytes - held.bytes;
            assert(ids_distinct(self.built@)) by {
                assert forall|a: int, b: int| 0 <= a < b < self.built@.len() implies self.built@[a].0
                    != self.built@[b].0 by {
                    let a2 = if a < i { a } else { a + 1 };
                    let b2 = if b < i { b } else { b + 1 };
                    assert(self.built@[a] == before[a2]);
                    assert(self.built@[b] == before[b2]);
                }
            }
        }
    }

    /// Hold a freshly built mesh for `id`, as drawn this frame.
    pub fn insert(&mut self, id: MeshId, mesh: M, bytes: usize, frame: Frame) -> (r: &M)
        requires
            old(self).wf(),
            position_of(old(self).held(), id) is None,
            total(old(self).held()) + bytes <= usize::MAX,
        ensures
            final(self).wf(),
            final(self).held() == old(self).held().push(
                (id, Held { mesh, bytes, last_used: frame }),
            ),
            *r == mesh,
            final(self).budget() == old(self).budget(),
            final(self).reaped() == old(self).reaped(),
    {
        proof {
            lemma_position_of(self.built@, id);
            lemma_total_push(self.built@, (id, Held { mesh, bytes, last_used: frame }));
        }
        self.bytes = self.bytes + bytes;
        self.built.push((id, Held { mesh, bytes, last_used: frame }));
        let last = self.built.len() - 1;
        &self.built[last].1.mesh
    }

    /// The mesh for `id`, if it is held, noting that this frame wanted it.
    ///
    /// When what is held is over budget, the least recently drawn are dropped
    /// first, so a mesh asked for now may be one of them.
    pub fn get(&mut self, id: MeshId, frame: Frame) -> (r: Option<&M>)
        requires
            old(self).wf(),
        ensures
            final(self).wf(),
            final(self).budget() == old(self).budget(),
            final(self).reaped() == old(self).reaped(),
            ({
                let s = if total(old(self).held()) > old(self).budget() {
                    shed(old(self).held(), old(self).budget())
                } else {
                    old(self).held()
                };
                match position_of(s, id) {
                    Some(i) => {
                        &&& 0 <= i < s.len()
                        &&& s[i].0 == id
                        &&& r == Some(&s[i].1.mesh)
                        &&& final(self).held() == s.update(
                            i,
                            (
                                id,
                                Held {
                                    mesh: s[i].1.mesh,
                                    bytes: s[i].1.bytes,
                                    last_used: frame,
                                },
                            ),
                        )
                    },
                    None => {
                        &&& r is None
                        &&& final(self).held() == s
                    },
                }
            }),
    {
        if self.bytes > self.budget {
            self.shed_to_budget();
        }
        match self.find(id) {
            Some(i) => {
                let ghost pre = self.built@;
                let (key, held) = self.built.remove(i);
                let touched = Held { mesh: held.mesh, bytes: held.bytes, last_used: frame };
                self.built.insert(i, (key, touched));
                assert(self.built@ =~= pre.update(i as int, (key, touched)));
                proof {
                    lemma_total_update(pre, i as int, (key, touched));
                    assert forall|a: int, b: int| 0 <= a < b < self.built@.len() implies
                        self.built@[a].0 != self.built@[b].0 by {
                        assert(self.built@[a].0 == pre[a].0);
                        assert(self.built@[b].0 == pre[b].0);
                    }
                }
                Some(&self.built[i].1.mesh)
            },
            None => None,
        }
    }

    /// Drop what nothing has drawn for [`MAX_AGE`] frames, every
    /// [`REAP_INTERVAL`] frames.
    pub fn reap(&mut self, frame: Frame)
        requires
            old(self).wf(),
        ensures
            final(self).wf(),
            final(self).budget() == old(self).budget(),
            frames_since(frame.0, old(self).reaped()) < REAP_INTERVAL ==> final(self).held()
                == old(self).held() && final(self).reaped() == old(self).reaped(),
            frames_since(frame.0, old(self).reaped()) >= REAP_INTERVAL ==> final(self).held()
                == young(old(self).held(), frame.0) && final(self).reaped() == frame.0,
    {
        if frame.since(self.reaped) < REAP_INTERVAL {
            return;
        }
        self.reaped = frame;
        let ghost orig = self.built@;
        let mut rest: Vec<(MeshId, Held<M>)> = Vec::new();
        std::mem::swap(&mut rest, &mut self.built);
        let mut kept: Vec<(MeshId, Held<M>)> = Vec::new();
        let mut kept_bytes: usize = 0;
        let len = rest.len();
        let mut i: usize = 0;
        proof {
            assert(orig.take(0) =~= Seq::<(MeshId, Held<M>)>::empty());
        }
        while i < len
            invariant
                len == orig.len(),
                0 <= i <= len,
                rest@ == orig.subrange(i as int, len as int),
                kept@ == young(orig.take(i as int), frame.0),
                kept_bytes as int == total(kept@),
                total(orig) <= usize::MAX,
                ids_distinct(orig),
            decreases len - i,
        {
            let ghost pre = orig.take(i as int);
            let x = rest.remove(0);
            assert(orig.take(i + 1).drop_last() =~= pre);
            assert(orig.take(i + 1).last() == x);
            proof {
                lemma_young_total(orig.take(i + 1), frame.0);
                lemma_total_prefix(orig, i + 1);
            }
            if frame.since(x.1.last_used) < MAX_AGE {
                proof {
                    lemma_total_push(kept@, x);
                }
                kept_bytes = kept_bytes + x.1.bytes;
                kept.push(x);
            }
            assert(rest@ =~= orig.subrange(i + 1, len as int));
            i = i + 1;
        }
        assert(orig.take(len as int) =~= orig);
        proof {
            young_keeps_ids_distinct(orig, frame.0);
        }
        self.built = kept;
        self.bytes = kept_bytes;
    }
}

proof fn young_keeps_ids_distinct<M>(s: Seq<(MeshId, Held<M>)>, frame: u64)
    requires
        ids_distinct(s),
    ensures
        ids_distinct(young(s, frame)),
        forall|k: int|
            0 <= k < young(s, frame).len() ==> exists|j: int|
                0 <= j < s.len() && #[trigger] young(s, frame)[k] == s[j],
    decreases s.len(),
{
    lemma_young_total(s, frame);
    if s.len() > 0 {
        let d = s.drop_last();
        assert(ids_distinct(d));
        young_keeps_ids_distinct(d, frame);
        let yd = young(d, frame);
        if frames_since(frame, s.last().1.last_used.0) < MAX_AGE {
            let y = young(s, frame);
            assert forall|a: int, b: int| 0 <= a < b < y.len() implies y[a].0 != y[b].0 by {
                if b == y.len() - 1 {
                    let j = choose|j: int| 0 <= j < d.len() && #[trigger] yd[a] == d[j];
                    assert(y[a] == s[j]);
                    assert(y[b] == s[s.len() - 1]);
                } else {
                    assert(y[a] == yd[a]);
                    assert(y[b] == yd[b]);
                }
            }
        }
    }
}

/// Most the held outlines may weigh before the whole table is dropped, in
/// bytes.
pub const STROKE_BUDGET: usize = 67108864;

/// What the outlines in `s` weigh together.
pub open spec fn outline_total<M>(s: Seq<(u64, M, usize)>) -> int
    decreases s.len(),
{
    if s.len() == 0 {
        0
    } else {
        outline_total(s.drop_last()) + s.last().2
    }
}

/// The position of the outline of figure `id` in `s`, if it is held.
pub open spec fn outline_position<M>(s: Seq<(u64, M, usize)>, id: u64) -> Option<int>
    decreases s.len(),
{
    if s.len() == 0 {
        None
    } else if s.last().0 == id {
        Some(s.len() - 1)
    } else {
        outline_position(s.drop_last(), id)
    }
}

proof fn lemma_outline_position<M>(s: Seq<(u64, M, usize)>, id: u64)
    ensures
        outline_position(s, id) matches Some(i) ==> 0 <= i < s.len() && s[i].0 == id,
        outline_position(s, id) is None ==> forall|k: int| 0 <= k < s.len() ==> s[k].0 != id,
    decreases s.len(),
{
    if s.len() > 0 {
        lemma_outline_position(s.drop_last(), id);
        assert forall|k: int| 0 <= k < s.len() - 1 implies #[trigger] s[k] == s.drop_last()[k] by {}
    }
}

/// How a figure's interior is drawn in a frame.
#[derive(Clone, Copy, Debug, PartialEq, Eq, Structural)]
pub enum InteriorPath {
    /// Straight from the tessellator's own triangles, in one colour.
    Tessellated,
    /// Through the refined mesh and the per-vertex pass.
    Refined,
}

/// Whether a layer is one colour everywhere for the whole frame, so that it
/// needs no colour ramp: a mask always, since no animation moves opaque
/// black; otherwise a uniform colour that no animation moves.
pub fn is_flat(is_mask: bool, animated: bool, uniform: bool) -> (r: bool)
    ensures
        r == (is_mask || (!animated && uniform)),
{
    is_mask || (!animated && uniform)
}

/// Where an interior is drawn from: only a flat figure that nothing
/// displaces can use the tessellator's triangles as they are.
pub fn interior_path(flat: bool, warping: bool) -> (r: InteriorPath)
    ensures
        r == (if flat && !warping {
            InteriorPath::Tessellated
        } else {
            InteriorPath::Refined
        }),
{
    if flat && !warping {
        InteriorPath::Tessellated
    } else {
        InteriorPath::Refined
    }
}

/// How many triangles the refined meshes in `s` hold together.
pub open spec fn held_triangles(s: Seq<(MeshId, Held<RefinedMesh>)>) -> int
    decreases s.len(),
{
    if s.len() == 0 {
        0
    } else {
        held_triangles(s.drop_last()) + s.last().1.mesh.indices.values().len() / 3
    }
}

proof fn lemma_held_triangles_prefix(s: Seq<(MeshId, Held<RefinedMesh>)>, i: int)
    requires
        0 <= i <= s.len(),
    ensures
        0 <= held_triangles(s.take(i)) <= held_triangles(s),
    decreases s.len() - i,
{
    if i < s.len() {
        lemma_held_triangles_prefix(s, i + 1);
        lemma_held_triangles_nonneg(s.take(i));
        assert(s.take(i + 1).drop_last() =~= s.take(i));
        assert(held_triangles(s.take(i + 1)) == held_triangles(s.take(i)) + s.take(i + 1).last().1.mesh.indices.values().len() / 3);
    } else {
        assert(s.take(i) =~= s);
        lemma_held_triangles_nonneg(s);
    }
}

proof fn lemma_held_triangles_nonneg(s: Seq<(MeshId, Held<RefinedMesh>)>)
    ensures
        held_triangles(s) >= 0,
    decreases s.len(),
{
    if s.len() > 0 {
        lemma_held_triangles_nonneg(s.drop_last());
    }
}

impl MeshLibrary<RefinedMesh> {
    /// Total triangles held, for reporting memory pressure.
    pub fn triangles(&self) -> (r: usize)
        requires
            held_triangles(self.held()) <= usize::MAX,
        ensures
            r == held_triangles(self.held()),
    {
        let mut sum: usize = 0;
        let mut i: usize = 0;
        while i < self.built.len()
            invariant
                0 <= i <= self.built@.len(),
                held_triangles(self.built@) <= usize::MAX,
                sum == held_triangles(self.built@.take(i as int)),
            decreases self.built@.len() - i,
        {
            proof {
                assert(self.built@.take(i + 1).drop_last() =~= self.built@.take(i as int));
                lemma_held_triangles_prefix(self.built@, i + 1);
            }
            sum = sum + self.built[i].1.mesh.triangle_count();
            i = i + 1;
        }
        assert(self.built@.take(self.built@.len() as int) =~= self.built@);
        sum
    }
}

/// The stroked outlines drawn so far, one per figure.
///
/// An outline is stroked once, at a reference width, and narrowed per vertex
/// at draw time, so a figure needs one whatever its thickness. When what is
/// held reaches its budget the whole table is dropped rather than picking
/// through it: a show draws a handful of figures, and those come straight
/// back.
pub struct StrokeGeometry<M> {
    outlines: Vec<(u64, M, usize)>,
    bytes: usize,
}

impl<M> Default for StrokeGeometry<M> {
    /// Nothing held.
    fn default() -> (r: Self)
        ensures
            r.wf(),
            r.outlines().len() == 0,
    {
        StrokeGeometry { outlines: Vec::new(), bytes: 0 }
    }
}

impl<M> StrokeGeometry<M> {
    /// The outlines held, by figure, with what each weighs.
    pub closed spec fn outlines(&self) -> Seq<(u64, M, usize)> {
        self.outlines@
    }

    /// Each figure has one outline, and the weight carried along is what
    /// the held outlines weigh.
    pub closed spec fn wf(&self) -> bool {
        &&& forall|a: int, b: int|
            0 <= a < b < self.outlines@.len() ==> #[trigger] self.outlines@[a].0
                != #[trigger] self.outlines@[b].0
        &&& self.bytes as int == outline_total(self.outlines@)
    }

    /// How many outlines are held.
    pub fn held(&self) -> (r: usize)
        ensures
            r == self.outlines().len(),
    {
        self.outlines.len()
    }

    fn position(&self, id: u64) -> (r: Option<usize>)
        ensures
            match r {
                Some(k) => outline_position(self.outlines(), id) == Some(k as int) && k
                    < self.outlines().len(),
                None => outline_position(self.outlines(), id) is None,
            },
    {
        proof {
            lemma_outline_position(self.outlines@, id);
        }
        let mut i = self.outlines.len();
        assert(self.outlines@.subrange(0, i as int) =~= self.outlines@);
        while i > 0
            invariant
                0 <= i <= self.outlines@.len(),
                outline_position(self.outlines@, id) == outline_position(
                    self.outlines@.subrange(0, i as int),
                    id,
                ),
            decreases i,
        {
            let ghost pre = self.outlines@.subrange(0, i as int);
            assert(pre.drop_last() =~= self.outlines@.subrange(0, i - 1));
            if self.outlines[i - 1].0 == id {
                return Some(i - 1);
            }
            i = i - 1;
        }
        assert(self.outlines@.subrange(0, 0) =~= Seq::<(u64, M, usize)>::empty());
        None
    }

    /// The outline of figure `id`, if it is held.
    pub fn get(&self, id: u64) -> (r: Option<&M>)
        ensures
            match outline_position(self.outlines(), id) {
                Some(i) => r == Some(&self.outlines()[i].1),
                None => r is None,
            },
    {
        match self.position(id) {
            Some(i) => Some(&self.outlines[i].1),
            None => None,
        }
    }

    /// The outline of figure `id`, stroked by `make` (with what it weighs) on
    /// first use, so each figure is stroked once while it stays held.
    pub fn get_or_stroke<F: FnOnce() -> (M, usize)>(&mut self, id: u64, make: F) -> (r: &M)
        requires
            old(self).wf(),
            make.requires(()),
            forall|m: M, b: usize|
                make.ensures((), (m, b)) ==> outline_total(old(self).outlines()) + b <= usize::MAX,
        ensures
            final(self).wf(),
            match outline_position(old(self).outlines(), id) {
                Some(i) => {
                    &&& final(self).outlines() == old(self).outlines()
                    &&& *r == old(self).outlines()[i].1
                },
                None => {
                    let added = final(self).outlines().last();
                    &&& added.0 == id
                    &&& make.ensures((), (added.1, added.2))
                    &&& *r == added.1
                    &&& outline_total(old(self).outlines()) >= STROKE_BUDGET ==> final(self).outlines()
                        == seq![added]
                    &&& outline_total(old(self).outlines()) < STROKE_BUDGET ==> final(self).outlines()
                        == old(self).outlines().push(added)
                },
            },
    {
        match self.position(id) {
            Some(i) => &self.outlines[i].1,
            None => {
                let (mesh, bytes) = make();
                self.insert(id, mesh, bytes)
            },
        }
    }

    /// Take in the freshly stroked outline of figure `id`, which is not held,
    /// weighing `bytes`; if what is held has reached its budget, everything
    /// held is dropped first.
    pub fn insert(&mut self, id: u64, mesh: M, bytes: usize) -> (r: &M)
        requires
            old(self).wf(),
            outline_position(old(self).outlines(), id) is None,
            outline_total(old(self).outlines()) + bytes <= usize::MAX,
        ensures
            final(self).wf(),
            outline_total(old(self).outlines()) >= STROKE_BUDGET ==> final(self).outlines() == seq![
                (id, mesh, bytes),
            ],
            outline_total(old(self).outlines()) < STROKE_BUDGET ==> final(self).outlines() == old(
                self,
            ).outlines().push((id, mesh, bytes)),
            *r == mesh,
    {
        proof {
            lemma_outline_position(self.outlines@, id);
        }
        if self.bytes >= STROKE_BUDGET {
            self.outlines.clear();
            self.bytes = 0;
        }
        let ghost pre = self.outlines@;
        self.outlines.push((id, mesh, bytes));
        assert forall|a: int, b: int| 0 <= a < b < self.outlines@.len() implies #[trigger] self.outlines@[a].0
            != #[trigger] self.outlines@[b].0 by {
            if b == pre.len() {
                assert(self.outlines@[a] == pre[a]);
            } else {
                assert(self.outlines@[a] == pre[a] && self.outlines@[b] == pre[b]);
            }
        }
        assert(self.outlines@.drop_last() =~= pre);
        assert(outline_total(self.outlines@) == outline_total(pre) + bytes);
        self.bytes = self.bytes + bytes;
        let last = self.outlines.len() - 1;
        &self.outlines[last].1
    }
}

/// Whatever is held before an outline is taken in weighs less than the
/// budget (or is dropped first), so the table never holds more than the
/// budget and one outline.
pub proof fn outlines_stay_near_budget<M>(s: Seq<(u64, M, usize)>, id: u64, mesh: M, bytes: usize)
    ensures
        outline_total(s) < STROKE_BUDGET ==> outline_total(s.push((id, mesh, bytes)))
            < STROKE_BUDGET + bytes,
        outline_total(seq![(id, mesh, bytes)]) == bytes,
{
    let one = seq![(id, mesh, bytes)];
    assert(one.drop_last() =~= Seq::<(u64, M, usize)>::empty());
    assert(outline_total(one) == outline_total(one.drop_last()) + one.last().2);
    assert(s.push((id, mesh, bytes)).drop_last() =~= s);
}

} // verus!
