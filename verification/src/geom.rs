//! Triangles as indices into shared vertices: stored in the narrowest width
//! that addresses them, cut into batches of whole triangles, and read back
//! the same whichever width was chosen.

use vstd::prelude::*;

verus! {

/// The largest number of vertices a `u16` index addresses.
pub const NARROW_VERTICES: usize = 65536;

/// Indices into a run of shared vertices, in the narrowest width that
/// addresses them.
pub enum Indices {
    Narrow(Vec<u16>),
    Wide(Vec<u32>),
}

impl Default for Indices {
    /// An empty run, which addresses no vertices and so needs no width.
    fn default() -> (r: Indices)
        ensures
            r is Narrow,
            r.values().len() == 0,
    {
        Indices::Narrow(Vec::new())
    }
}

/// `u16` indices read back as `u32`.
pub open spec fn widen(s: Seq<u16>) -> Seq<u32> {
    Seq::new(s.len(), |i: int| s[i] as u32)
}

/// `u32` indices narrowed to `u16`, keeping the low sixteen bits.
pub open spec fn narrow(s: Seq<u32>) -> Seq<u16> {
    Seq::new(s.len(), |i: int| (s[i] % 65536) as u16)
}

/// Every index in `s` names one of `vertices` vertices.
pub open spec fn all_below(s: Seq<u32>, vertices: int) -> bool {
    forall|i: int| 0 <= i < s.len() ==> (#[trigger] s[i]) < vertices
}

/// How many indices go in each batch: `max_vertices` rounded down to whole
/// triangles, and never less than one triangle.
pub open spec fn batch_run(max_vertices: usize) -> int {
    if max_vertices / 3 * 3 > 3 {
        max_vertices / 3 * 3
    } else {
        3
    }
}

/// How many batches of `run` indices cover `len` of them.
pub open spec fn batch_count(len: int, run: int) -> int {
    if len <= 0 {
        0
    } else {
        (len + run - 1) / run
    }
}

/// The `k`th batch of `run` indices out of `s`.
pub open spec fn batch_of<T>(s: Seq<T>, run: int, k: int) -> Seq<T> {
    let start = k * run;
    let end = if (k + 1) * run < s.len() {
        (k + 1) * run
    } else {
        s.len() as int
    };
    s.subrange(start, end)
}

impl Indices {
    /// Every index, read back as `u32`.
    pub open spec fn values(self) -> Seq<u32> {
        match self {
            Indices::Narrow(v) => widen(v@),
            Indices::Wide(v) => v@,
        }
    }

    /// The indices of `flat`, narrowed when `vertices` fit a `u16` index.
    pub fn of(flat: Vec<u32>, vertices: usize) -> (r: Indices)
        ensures
            vertices > NARROW_VERTICES ==> r == Indices::Wide(flat),
            vertices <= NARROW_VERTICES ==> (r matches Indices::Narrow(v) && v@ == narrow(flat@)),
    {
        if vertices > NARROW_VERTICES {
            return Indices::Wide(flat);
        }
        let mut out: Vec<u16> = Vec::with_capacity(flat.len());
        let mut i: usize = 0;
        while i < flat.len()
            invariant
                0 <= i <= flat@.len(),
                out@.len() == i,
                forall|k: int| 0 <= k < i ==> out@[k] == (flat@[k] % 65536) as u16,
            decreases flat@.len() - i,
        {
            let x = flat[i];
            let low = (x % 65536) as u16;
            out.push(low);
            i = i + 1;
        }
        assert(out@ =~= narrow(flat@));
        Indices::Narrow(out)
    }

    /// How many indices there are.
    pub fn len(&self) -> (r: usize)
        ensures
            r == self.values().len(),
    {
        match self {
            Indices::Narrow(i) => i.len(),
            Indices::Wide(i) => i.len(),
        }
    }

    /// Runs of whole triangles, each within `max_vertices` (and at least one
    /// triangle), in order.
    pub fn batches(&self, max_vertices: usize) -> (r: Vec<IndexBatch<'_>>)
        ensures
            r@.len() == batch_count(self.values().len() as int, batch_run(max_vertices)),
            forall|k: int|
                0 <= k < r@.len() ==> (#[trigger] r@[k]).values() == batch_of(
                    self.values(),
                    batch_run(max_vertices),
                    k,
                ),
            forall|k: int|
                0 <= k < r@.len() ==> ((#[trigger] r@[k]) is Narrow <==> self is Narrow),
    {
        let run: usize = if max_vertices / 3 * 3 > 3 {
            max_vertices / 3 * 3
        } else {
            3
        };
        let mut out: Vec<IndexBatch<'_>> = Vec::new();
        match self {
            Indices::Narrow(v) => {
                let chunks = chunks_of(v.as_slice(), run);
                let mut k: usize = 0;
                while k < chunks.len()
                    invariant
                        0 <= k <= chunks@.len(),
                        out@.len() == k,
                        chunks@.len() == batch_count(v@.len() as int, run as int),
                        forall|j: int|
                            0 <= j < chunks@.len() ==> (#[trigger] chunks@[j])@ == batch_of(
                                v@,
                                run as int,
                                j,
                            ),
                        forall|j: int|
                            0 <= j < k ==> (#[trigger] out@[j]) == IndexBatch::Narrow(chunks@[j]),
                    decreases chunks@.len() - k,
                {
                    out.push(IndexBatch::Narrow(chunks[k]));
                    k = k + 1;
                }
                proof {
                    assert forall|j: int| 0 <= j < out@.len() implies (#[trigger] out@[j]).values()
                        == batch_of(self.values(), run as int, j) by {
                        lemma_batch_bounds(v@.len() as int, run as int, j);
                        assert(out@[j].values() =~= batch_of(self.values(), run as int, j));
                    }
                }
            },
            Indices::Wide(v) => {
                let chunks = chunks_of(v.as_slice(), run);
                let mut k: usize = 0;
                while k < chunks.len()
                    invariant
                        0 <= k <= chunks@.len(),
                        out@.len() == k,
                        chunks@.len() == batch_count(v@.len() as int, run as int),
                        forall|j: int|
                            0 <= j < chunks@.len() ==> (#[trigger] chunks@[j])@ == batch_of(
                                v@,
                                run as int,
                                j,
                            ),
                        forall|j: int|
                            0 <= j < k ==> (#[trigger] out@[j]) == IndexBatch::Wide(chunks@[j]),
                    decreases chunks@.len() - k,
                {
                    out.push(IndexBatch::Wide(chunks[k]));
                    k = k + 1;
                }
            },
        }
        out
    }
}

proof fn lemma_batch_count(len: int, run: int, n: int)
    by (nonlinear_arith)
    requires
        run > 0,
        n >= 1,
        (n - 1) * run < len,
        len <= n * run,
    ensures
        (len + run - 1) / run == n,
{
}

/// The bounds of batch `k` lie inside the run of indices it is cut from.
proof fn lemma_batch_bounds(len: int, run: int, k: int)
    requires
        run > 0,
        0 <= k < batch_count(len, run),
    ensures
        0 <= k * run < len,
        k * run < (k + 1) * run,
{
    assert(k * run < (k + 1) * run) by (nonlinear_arith)
        requires
            run > 0,
    ;
    assert(0 <= k * run) by (nonlinear_arith)
        requires
            run > 0,
            k >= 0,
    ;
    if k * run >= len {
        assert((len + run - 1) / run <= k) by (nonlinear_arith)
            requires
                run > 0,
                k * run >= len,
                len > 0,
        ;
    }
}

/// `v` cut into consecutive pieces of `run` elements, the last possibly
/// shorter.
fn chunks_of<'a, T>(v: &'a [T], run: usize) -> (r: Vec<&'a [T]>)
    requires
        run > 0,
    ensures
        r@.len() == batch_count(v@.len() as int, run as int),
        forall|k: int|
            0 <= k < r@.len() ==> (#[trigger] r@[k])@ == batch_of(v@, run as int, k),
{
    let len = v.len();
    let mut out: Vec<&'a [T]> = Vec::new();
    let mut start: usize = 0;
    while start < len
        invariant_except_break
            start as int == out@.len() * run,
        invariant
            len == v@.len(),
            run > 0,
            start <= len,
            forall|k: int| 0 <= k < out@.len() ==> (#[trigger] out@[k])@ == batch_of(v@, run as int, k),
            out@.len() == 0 || (out@.len() - 1) * run < len,
        ensures
            out@.len() * run >= len,
            out@.len() == 0 || (out@.len() - 1) * run < len,
            forall|k: int| 0 <= k < out@.len() ==> (#[trigger] out@[k])@ == batch_of(v@, run as int, k),
        decreases len - start,
    {
        let ghost n = out@.len() as int;
        if len - start > run {
            let end = start + run;
            let chunk = &v[start..end];
            assert((n + 1) * run == start + run) by (nonlinear_arith)
                requires
                    start == n * run,
            ;
            out.push(chunk);
            assert(out@[n]@ == batch_of(v@, run as int, n));
            start = end;
        } else {
            let chunk = &v[start..len];
            assert((n + 1) * run >= len) by (nonlinear_arith)
                requires
                    start == n * run,
                    len - start <= run,
            ;
            out.push(chunk);
            assert(out@[n]@ == batch_of(v@, run as int, n));
            assert(out@.len() * run >= len);
            break;
        }
    }
    if out.len() > 0 {
        proof {
            lemma_batch_count(len as int, run as int, out@.len() as int);
        }
    }
    out
}

/// A run of whole triangles, small enough for one call into the backend.
/// Both stored widths read back as `u32`.
#[derive(Clone, Copy)]
pub enum IndexBatch<'a> {
    Narrow(&'a [u16]),
    Wide(&'a [u32]),
}

impl<'a> IndexBatch<'a> {
    /// Every index in the batch, read back as `u32`.
    pub open spec fn values(self) -> Seq<u32> {
        match self {
            IndexBatch::Narrow(v) => widen(v@),
            IndexBatch::Wide(v) => v@,
        }
    }

    /// Each triangle's three vertex indices, in order; indices past the last
    /// whole triangle are not read.
    pub fn triangles(self) -> (r: Vec<[u32; 3]>)
        ensures
            r@.len() == self.values().len() / 3,
            forall|k: int|
                0 <= k < r@.len() ==> (#[trigger] r@[k])@ == seq![
                    self.values()[3 * k],
                    self.values()[3 * k + 1],
                    self.values()[3 * k + 2],
                ],
    {
        let all = self.indices();
        let len = all.len();
        let mut out: Vec<[u32; 3]> = Vec::with_capacity(len / 3);
        let mut base: usize = 0;
        while len - base >= 3
            invariant
                len == all@.len(),
                all@ == self.values(),
                base <= len,
                base == 3 * out@.len(),
                forall|j: int|
                    0 <= j < out@.len() ==> (#[trigger] out@[j])@ == seq![
                        all@[3 * j],
                        all@[3 * j + 1],
                        all@[3 * j + 2],
                    ],
            decreases len - base,
        {
            let tri = [all[base], all[base + 1], all[base + 2]];
            assert(tri@ =~= seq![all@[base as int], all@[base + 1], all@[base + 2]]);
            out.push(tri);
            base = base + 3;
        }
        assert(out@.len() == len / 3);
        out
    }

    /// Every index in the batch, for a draw that does not need the grouping.
    pub fn indices(self) -> (r: Vec<u32>)
        ensures
            r@ == self.values(),
    {
        let (narrow, wide) = self.split();
        let mut out: Vec<u32> = Vec::with_capacity(narrow.len() + wide.len());
        let mut i: usize = 0;
        while i < narrow.len()
            invariant
                0 <= i <= narrow@.len(),
                out@ == widen(narrow@.subrange(0, i as int)),
            decreases narrow@.len() - i,
        {
            out.push(narrow[i] as u32);
            i = i + 1;
            assert(out@ =~= widen(narrow@.subrange(0, i as int)));
        }
        assert(narrow@.subrange(0, narrow@.len() as int) =~= narrow@);
        let ghost head = out@;
        let mut j: usize = 0;
        while j < wide.len()
            invariant
                0 <= j <= wide@.len(),
                out@ == head + wide@.subrange(0, j as int),
            decreases wide@.len() - j,
        {
            out.push(wide[j]);
            j = j + 1;
            assert(out@ =~= head + wide@.subrange(0, j as int));
        }
        assert(wide@.subrange(0, wide@.len() as int) =~= wide@);
        proof {
            match self {
                IndexBatch::Narrow(v) => {
                    assert(wide@.len() == 0);
                    assert(out@ =~= self.values());
                },
                IndexBatch::Wide(v) => {
                    assert(narrow@.len() == 0);
                    assert(out@ =~= self.values());
                },
            }
        }
        out
    }

    /// The batch as both widths, one of which is always empty.
    fn split(self) -> (r: (&'a [u16], &'a [u32]))
        ensures
            self matches IndexBatch::Narrow(v) ==> r.0@ == v@ && r.1@.len() == 0,
            self matches IndexBatch::Wide(v) ==> r.1@ == v@ && r.0@.len() == 0,
    {
        match self {
            IndexBatch::Narrow(i) => (i, &[]),
            IndexBatch::Wide(i) => (&[], i),
        }
    }
}

/// Narrowing loses nothing when every index names one of at most
/// [`NARROW_VERTICES`] vertices: the indices read back as they went in.
pub proof fn narrowing_reads_back_the_same(flat: Seq<u32>, vertices: int)
    requires
        vertices <= NARROW_VERTICES,
        all_below(flat, vertices),
    ensures
        widen(narrow(flat)) == flat,
{
    assert(widen(narrow(flat)) =~= flat);
}

/// Each batch holds as many whole triangles as the cap allows, and at least
/// one: every batch but the last holds the largest multiple of three not
/// above the cap (three when the cap is under a triangle), and none holds
/// more.
pub proof fn batches_fill_the_cap_with_whole_triangles<T>(s: Seq<T>, max_vertices: usize, k: int)
    requires
        0 <= k < batch_count(s.len() as int, batch_run(max_vertices)),
    ensures
        batch_run(max_vertices) % 3 == 0,
        batch_run(max_vertices) >= 3,
        max_vertices >= 3 ==> batch_run(max_vertices) <= max_vertices < batch_run(max_vertices)
            + 3,
        max_vertices < 3 ==> batch_run(max_vertices) == 3,
        k + 1 < batch_count(s.len() as int, batch_run(max_vertices)) ==> batch_of(
            s,
            batch_run(max_vertices),
            k,
        ).len() == batch_run(max_vertices),
        batch_of(s, batch_run(max_vertices), k).len() <= batch_run(max_vertices),
{
    let run = batch_run(max_vertices);
    let m = max_vertices as int;
    assert(m / 3 * 3 <= m < m / 3 * 3 + 3) by (nonlinear_arith);
    assert(run % 3 == 0) by (nonlinear_arith)
        requires
            run == if m / 3 * 3 > 3 { m / 3 * 3 } else { 3 },
            m >= 0,
    ;
    let n = s.len() as int;
    assert(k * run + run <= n || k + 1 >= (n + run - 1) / run) by (nonlinear_arith)
        requires
            run >= 3,
            k >= 0,
            n >= 0,
    {
        if k * run + run > n && k + 1 < (n + run - 1) / run {
            assert((k + 1) * run <= (n + run - 1) / run * run);
            assert((n + run - 1) / run * run <= n + run - 1);
        }
    }
    assert(0 <= k * run) by (nonlinear_arith)
        requires
            k >= 0,
            run >= 3,
    ;
    assert(k * run < n) by (nonlinear_arith)
        requires
            run >= 3,
            0 <= k < (n + run - 1) / run,
            n > 0,
    {
        assert(k + 1 <= (n + run - 1) / run);
        assert((k + 1) * run <= (n + run - 1) / run * run);
        assert((n + run - 1) / run * run <= n + run - 1);
    }
    assert((k + 1) * run == k * run + run) by (nonlinear_arith);
}

/// Every index lands in exactly one batch, at its place in the run: batch
/// `i / run`, position `i % run`.
pub proof fn batches_cover_every_index<T>(s: Seq<T>, run: int, i: int)
    requires
        run > 0,
        0 <= i < s.len(),
    ensures
        0 <= i / run < batch_count(s.len() as int, run),
        batch_of(s, run, i / run).len() > i % run,
        batch_of(s, run, i / run)[i % run] == s[i],
{
    let k = i / run;
    let m = i % run;
    assert(i == k * run + m && 0 <= m < run) by (nonlinear_arith)
        requires
            run > 0,
            k == i / run,
            m == i % run,
            i >= 0,
    ;
    assert(k < batch_count(s.len() as int, run)) by (nonlinear_arith)
        requires
            run > 0,
            i == k * run + m,
            0 <= m < run,
            i < s.len(),
    ;
    assert(0 <= k) by (nonlinear_arith)
        requires
            run > 0,
            i >= 0,
            k == i / run,
    ;
    assert((k + 1) * run == k * run + run) by (nonlinear_arith);
}

/// A batch never holds more indices than the run, and when the run and the
/// indices are both whole triangles, neither does any batch split one.
pub proof fn batches_hold_whole_triangles<T>(s: Seq<T>, max_vertices: usize, k: int)
    requires
        0 <= k < batch_count(s.len() as int, batch_run(max_vertices)),
        s.len() % 3 == 0,
    ensures
        batch_of(s, batch_run(max_vertices), k).len() <= batch_run(max_vertices),
        batch_of(s, batch_run(max_vertices), k).len() % 3 == 0,
        batch_run(max_vertices) % 3 == 0,
        batch_run(max_vertices) >= 3,
{
    let run = batch_run(max_vertices);
    lemma_batch_bounds(s.len() as int, run, k);
    assert(run % 3 == 0) by (nonlinear_arith)
        requires
            run == (if max_vertices / 3 * 3 > 3 { max_vertices / 3 * 3 } else { 3 }),
    ;
    assert((k + 1) * run == k * run + run) by (nonlinear_arith);
    let q = run / 3;
    assert(k * run == (k * q) * 3 && (k + 1) * run == ((k + 1) * q) * 3) by (nonlinear_arith)
        requires
            run % 3 == 0,
            q == run / 3,
    ;
    vstd::arithmetic::div_mod::lemma_mod_multiples_basic(k * q, 3);
    vstd::arithmetic::div_mod::lemma_mod_multiples_basic((k + 1) * q, 3);
}

/// A mesh vertex, snapped to the grid stored vertices sit on. Two vertices
/// that land in one cell are one vertex.
#[derive(Clone, Copy, Debug, PartialEq, Eq, Hash)]
pub struct StoredPoint(pub [i16; 2]);

/// A refined figure, with vertices shared between the triangles that use
/// them.
pub struct RefinedMesh {
    pub verts: Vec<StoredPoint>,
    pub indices: Indices,
}

impl RefinedMesh {
    /// A mesh of these shared vertices, with `flat` narrowed if every one of
    /// them fits a `u16` index.
    pub fn of(verts: Vec<StoredPoint>, flat: Vec<u32>) -> (r: RefinedMesh)
        ensures
            r.verts@ == verts@,
            verts@.len() > NARROW_VERTICES ==> r.indices == Indices::Wide(flat),
            verts@.len() <= NARROW_VERTICES ==> (r.indices matches Indices::Narrow(v) && v@
                == narrow(flat@)),
    {
        let n = verts.len();
        RefinedMesh { verts, indices: Indices::of(flat, n) }
    }

    pub fn triangle_count(&self) -> (r: usize)
        ensures
            r == self.indices.values().len() / 3,
    {
        self.indices.len() / 3
    }

    pub fn is_empty(&self) -> (r: bool)
        ensures
            r == (self.indices.values().len() == 0),
    {
        self.indices.len() == 0
    }

    /// Runs of whole triangles, each within `max_vertices`.
    pub fn batches(&self, max_vertices: usize) -> (r: Vec<IndexBatch<'_>>)
        ensures
            r@.len() == batch_count(self.indices.values().len() as int, batch_run(max_vertices)),
            forall|k: int|
                0 <= k < r@.len() ==> (#[trigger] r@[k]).values() == batch_of(
                    self.indices.values(),
                    batch_run(max_vertices),
                    k,
                ),
    {
        self.indices.batches(max_vertices)
    }
}

/// Whether `flat` is whole triangles each of whose indices names one of
/// `vertices` vertices.
pub open spec fn indices_within(flat: Seq<u32>, vertices: int) -> bool {
    &&& flat.len() % 3 == 0
    &&& forall|i: int| 0 <= i < flat.len() ==> #[trigger] flat[i] < vertices
}

/// A figure's outline as the tessellator hands it over, contour by contour:
/// each vertex snapped to the grid with the contour point it was offset
/// from, and the triangles that index them.
pub struct TessellatedStroke {
    positions: Vec<StoredPoint>,
    on_path: Vec<StoredPoint>,
    flat: Vec<u32>,
}

impl TessellatedStroke {
    pub closed spec fn vertex_points(&self) -> Seq<StoredPoint> {
        self.positions@
    }

    pub closed spec fn path_points(&self) -> Seq<StoredPoint> {
        self.on_path@
    }

    pub closed spec fn index_values(&self) -> Seq<u32> {
        self.flat@
    }

    /// Each vertex has its contour point, and the triangles are whole and
    /// name only vertices the stroke has.
    pub open spec fn wf(&self) -> bool {
        &&& self.vertex_points().len() == self.path_points().len()
        &&& indices_within(self.index_values(), self.vertex_points().len() as int)
    }

    /// Nothing stroked yet.
    pub fn new() -> (r: Self)
        ensures
            r.wf(),
            r.vertex_points().len() == 0,
            r.index_values().len() == 0,
    {
        TessellatedStroke { positions: Vec::new(), on_path: Vec::new(), flat: Vec::new() }
    }

    /// Take one contour's vertices, with their contour points, and its
    /// triangles, shifted past the vertices already held. A triangle naming
    /// a vertex that is not among these is dropped entire, so every later
    /// index still names the vertex it meant.
    pub fn extend(&mut self, positions: Vec<StoredPoint>, on_path: Vec<StoredPoint>, tris: &[u32])
        requires
            old(self).wf(),
            positions@.len() == on_path@.len(),
            old(self).vertex_points().len() + positions@.len() <= u32::MAX,
        ensures
            final(self).wf(),
            final(self).vertex_points() == old(self).vertex_points() + positions@,
            final(self).path_points() == old(self).path_points() + on_path@,
            final(self).index_values() == old(self).index_values() + shifted_triangles(
                tris@,
                tris@.len() as int / 3,
                positions@.len() as int,
                old(self).vertex_points().len() as int,
            ),
    {
        let base = self.positions.len() as u32;
        let held = positions.len();
        assert(base as int == self.positions@.len());
        proof {
            extending_keeps_indices_within(
                self.flat@,
                tris@,
                held as int,
                base as int,
            );
        }
        extend_indices(&mut self.flat, tris, held, base);
        let mut positions = positions;
        let mut on_path = on_path;
        self.positions.append(&mut positions);
        self.on_path.append(&mut on_path);
    }
}

/// A stroked outline, as shared vertices carrying their contour points and
/// the triangles that index them, which are whole and name only vertices the
/// outline has.
pub struct StrokeMesh {
    positions: Vec<StoredPoint>,
    on_path: Vec<StoredPoint>,
    indices: Indices,
}

impl Default for StrokeMesh {
    /// An outline with nothing in it.
    fn default() -> (r: StrokeMesh)
        ensures
            r.vertex_count() == 0,
            r.index_values().len() == 0,
    {
        StrokeMesh { positions: Vec::new(), on_path: Vec::new(), indices: Indices::default() }
    }
}

impl StrokeMesh {
    pub closed spec fn vertex_count(&self) -> nat {
        self.positions@.len()
    }

    pub closed spec fn vertex_points(&self) -> Seq<StoredPoint> {
        self.positions@
    }

    pub closed spec fn path_points(&self) -> Seq<StoredPoint> {
        self.on_path@
    }

    pub closed spec fn index_values(&self) -> Seq<u32> {
        self.indices.values()
    }

    #[verifier::type_invariant]
    spec fn whole_and_in_range(&self) -> bool {
        &&& self.on_path@.len() == self.positions@.len()
        &&& indices_within(self.indices.values(), self.positions@.len() as int)
    }

    /// Keep a tessellated stroke, its indices narrowed when its vertices fit
    /// a `u16` index.
    pub fn of(stroke: TessellatedStroke) -> (r: StrokeMesh)
        requires
            stroke.wf(),
        ensures
            r.vertex_points() == stroke.vertex_points(),
            r.path_points() == stroke.path_points(),
            r.index_values() == stroke.index_values(),
    {
        let n = stroke.positions.len();
        let ghost flat = stroke.flat@;
        let indices = Indices::of(stroke.flat, n);
        proof {
            if n <= NARROW_VERTICES {
                narrowing_reads_back_the_same(flat, n as int);
            }
        }
        StrokeMesh { positions: stroke.positions, on_path: stroke.on_path, indices }
    }

    pub fn is_empty(&self) -> (r: bool)
        ensures
            r == (self.index_values().len() == 0),
    {
        self.indices.len() == 0
    }

    /// The triangles, as indices into the vertices a pass has just walked:
    /// whole, and every one naming a vertex the outline has.
    pub fn indices(&self) -> (r: &Indices)
        ensures
            r.values() == self.index_values(),
            indices_within(r.values(), self.vertex_count() as int),
    {
        proof {
            use_type_invariant(self);
        }
        &self.indices
    }

    /// The vertices, snapped to the grid.
    pub fn positions(&self) -> (r: &Vec<StoredPoint>)
        ensures
            r@ == self.vertex_points(),
            r@.len() == self.vertex_count(),
    {
        &self.positions
    }

    /// The contour point each vertex was offset from.
    pub fn on_path(&self) -> (r: &Vec<StoredPoint>)
        ensures
            r@ == self.path_points(),
            r@.len() == self.vertex_count(),
    {
        proof {
            use_type_invariant(self);
        }
        &self.on_path
    }
}

/// Whether triangle `k` of `tris` names only vertices below `held`.
pub open spec fn triangle_present(tris: Seq<u32>, k: int, held: int) -> bool {
    tris[3 * k] < held && tris[3 * k + 1] < held && tris[3 * k + 2] < held
}

/// The indices `tris` contributes to a stroke whose vertices begin at
/// `base`: each whole triangle shifted past them, and dropped entire if it
/// names a vertex that is not there.
pub open spec fn shifted_triangles(tris: Seq<u32>, n: int, held: int, base: int) -> Seq<u32>
    decreases n,
{
    if n <= 0 {
        seq![]
    } else {
        let k = n - 1;
        let before = shifted_triangles(tris, k, held, base);
        if triangle_present(tris, k, held) {
            before + seq![
                (tris[3 * k] + base) as u32,
                (tris[3 * k + 1] + base) as u32,
                (tris[3 * k + 2] + base) as u32,
            ]
        } else {
            before
        }
    }
}

/// Append the tessellator's triangles to a stroke's index list, shifted past
/// the `base` vertices already held. A triangle naming a vertex beyond the
/// `held` just added is dropped entire, so every later index still names the
/// vertex it meant.
pub fn extend_indices(flat: &mut Vec<u32>, tris: &[u32], held: usize, base: u32)
    requires
        held + base <= u32::MAX + 1,
    ensures
        final(flat)@ == old(flat)@ + shifted_triangles(tris@, tris@.len() as int / 3, held as int, base as int),
        indices_within(old(flat)@, base as int) ==> indices_within(final(flat)@, base + held),
{
    proof {
        if indices_within(old(flat)@, base as int) {
            extending_keeps_indices_within(old(flat)@, tris@, held as int, base as int);
        }
    }
    let len = tris.len();
    let ghost start = old(flat)@;
    let mut i: usize = 0;
    while len - i >= 3
        invariant
            len == tris@.len(),
            i <= len,
            i % 3 == 0,
            held + base <= u32::MAX + 1,
            flat@ == start + shifted_triangles(tris@, i as int / 3, held as int, base as int),
        decreases len - i,
    {
        let a = tris[i];
        let b = tris[i + 1];
        let c = tris[i + 2];
        let ghost k = i as int / 3;
        assert(3 * k == i);
        if (a as usize) < held && (b as usize) < held && (c as usize) < held {
            flat.push(a + base);
            flat.push(b + base);
            flat.push(c + base);
        }
        i = i + 3;
        assert((i as int) / 3 == k + 1);
        assert(flat@ =~= start + shifted_triangles(tris@, i as int / 3, held as int, base as int));
    }
    assert(i as int / 3 == len as int / 3);
}

/// A stroke whose triangles name only the `base` vertices it held still
/// names only vertices it holds after gaining `held` more and their
/// triangles: a triangle that names a vertex that is not there is dropped
/// whole, never kept in part.
pub proof fn extending_keeps_indices_within(flat: Seq<u32>, tris: Seq<u32>, held: int, base: int)
    requires
        0 <= base,
        0 <= held,
        held + base <= u32::MAX + 1,
        indices_within(flat, base),
    ensures
        indices_within(flat + shifted_triangles(tris, tris.len() as int / 3, held, base), base + held),
{
    let n = tris.len() as int / 3;
    shifted_triangles_stay_in_range(tris, n, held, base);
    let added = shifted_triangles(tris, n, held, base);
    let all = flat + added;
    assert forall|i: int| 0 <= i < all.len() implies #[trigger] all[i] < base + held by {
        if i < flat.len() {
            assert(all[i] == flat[i]);
        } else {
            assert(all[i] == added[i - flat.len()]);
        }
    }
}

/// Every index a stroke gains names one of the vertices it gained, and the
/// gain is whole triangles.
pub proof fn shifted_triangles_stay_in_range(tris: Seq<u32>, n: int, held: int, base: int)
    requires
        0 <= n,
        3 * n <= tris.len(),
        held + base <= u32::MAX + 1,
        0 <= base,
    ensures
        shifted_triangles(tris, n, held, base).len() % 3 == 0,
        forall|i: int|
            0 <= i < shifted_triangles(tris, n, held, base).len() ==> base <= #[trigger] shifted_triangles(
                tris,
                n,
                held,
                base,
            )[i] < base + held,
    decreases n,
{
    if n > 0 {
        shifted_triangles_stay_in_range(tris, n - 1, held, base);
    }
}

} // verus!
