//! The colour ramp textures, recycled once the GPU is done reading them.
//!
//! A texture is handed out, written once, and not touched again until
//! [`FRAMES_IN_FLIGHT`] frames have passed without a draw using it: writing a
//! texture the GPU is still sampling stalls the driver until the queued draws
//! that read it retire. The pool sizes itself: a new texture is made only when
//! every one of the right width is still in flight.

use vstd::prelude::*;

verus! {

/// How many frames a texture may still be read after the last draw that used
/// it.
pub const FRAMES_IN_FLIGHT: u64 = 3;

/// One colour ramp on the GPU, when it was last drawn with, and the width it
/// was created at.
pub struct RampEntry<T> {
    pub texture: T,
    pub last_used: u64,
    /// A texture keeps the width it was created at, so an entry can only be
    /// taken back for a ramp of the same span.
    pub texels: u32,
}

/// Whether an entry can be written for a ramp of `texels` at `frame`: the
/// same width, and no draw in the last [`FRAMES_IN_FLIGHT`] frames used it.
pub open spec fn reusable(last_used: u64, entry_texels: u32, texels: u32, frame: u64) -> bool {
    entry_texels == texels && last_used + FRAMES_IN_FLIGHT <= frame
}

/// A texture drawn with fewer than [`FRAMES_IN_FLIGHT`] frames ago is never
/// handed out to be written, whatever its width.
pub proof fn in_flight_is_never_reusable(last_used: u64, entry_texels: u32, texels: u32, frame: u64)
    requires
        frame < last_used + FRAMES_IN_FLIGHT,
    ensures
        !reusable(last_used, entry_texels, texels, frame),
{
}

/// Figures drawn together never share a texture: once a texture is marked as
/// drawn with this frame, no later request in the same frame can take it.
pub proof fn drawn_this_frame_is_not_reusable(entry_texels: u32, texels: u32, frame: u64)
    ensures
        !reusable(frame, entry_texels, texels, frame),
{
}

/// A texture of the right width that has sat out [`FRAMES_IN_FLIGHT`] frames
/// comes back round, so the pool does not grow while one is available.
pub proof fn rested_is_reusable(last_used: u64, texels: u32, frame: u64)
    requires
        last_used + FRAMES_IN_FLIGHT <= frame,
    ensures
        reusable(last_used, texels, texels, frame),
{
}

/// An entry as it is once a draw at `frame` has used it.
pub open spec fn drawn_now<T>(e: RampEntry<T>, frame: u64) -> RampEntry<T> {
    RampEntry { texture: e.texture, last_used: frame, texels: e.texels }
}

/// How many textures of width `texels` were last drawn with at frame `g`.
pub open spec fn drawn_at<T>(entries: Seq<RampEntry<T>>, texels: u32, g: int) -> nat
    decreases entries.len(),
{
    if entries.len() == 0 {
        0
    } else {
        drawn_at(entries.drop_last(), texels, g) + if entries.last().texels == texels
            && entries.last().last_used == g {
            1nat
        } else {
            0nat
        }
    }
}

/// How many textures of width `texels` there are.
pub open spec fn of_width<T>(entries: Seq<RampEntry<T>>, texels: u32) -> nat
    decreases entries.len(),
{
    if entries.len() == 0 {
        0
    } else {
        of_width(entries.drop_last(), texels) + if entries.last().texels == texels {
            1nat
        } else {
            0nat
        }
    }
}

/// Where every texture of a width was drawn with in the last
/// [`FRAMES_IN_FLIGHT`] frames, those are all there are of it.
proof fn all_in_flight_are_the_last_frames<T>(entries: Seq<RampEntry<T>>, texels: u32, frame: u64)
    requires
        forall|k: int| 0 <= k < entries.len() ==> #[trigger] entries[k].last_used <= frame,
        forall|k: int|
            0 <= k < entries.len() && #[trigger] entries[k].texels == texels ==> !reusable(
                entries[k].last_used,
                entries[k].texels,
                texels,
                frame,
            ),
    ensures
        of_width(entries, texels) == drawn_at(entries, texels, frame as int) + drawn_at(
            entries,
            texels,
            frame - 1,
        ) + drawn_at(entries, texels, frame - 2),
    decreases entries.len(),
{
    if entries.len() > 0 {
        let d = entries.drop_last();
        assert forall|k: int| 0 <= k < d.len() implies #[trigger] d[k] == entries[k] by {}
        all_in_flight_are_the_last_frames(d, texels, frame);
        let e = entries.last();
        assert(e == entries[entries.len() - 1]);
    }
}

/// The pool settles at [`FRAMES_IN_FLIGHT`] textures per layer of each width.
///
/// It grows only when every texture of the width asked for is still in
/// flight. If no frame has drawn with more than `layers` of them, and this
/// frame with fewer so far, there are then fewer than `FRAMES_IN_FLIGHT *
/// layers`, so the texture it makes brings it to that many at most.
pub proof fn growth_stops_at_frames_in_flight_per_layer<T>(
    entries: Seq<RampEntry<T>>,
    texels: u32,
    frame: u64,
    layers: nat,
)
    requires
        forall|k: int| 0 <= k < entries.len() ==> #[trigger] entries[k].last_used <= frame,
        forall|g: int| g != frame ==> #[trigger] drawn_at(entries, texels, g) <= layers,
        drawn_at(entries, texels, frame as int) < layers,
        forall|k: int|
            0 <= k < entries.len() && #[trigger] entries[k].texels == texels ==> !reusable(
                entries[k].last_used,
                entries[k].texels,
                texels,
                frame,
            ),
    ensures
        of_width(entries, texels) < FRAMES_IN_FLIGHT * layers,
{
    all_in_flight_are_the_last_frames(entries, texels, frame);
    assert(drawn_at(entries, texels, frame - 1) <= layers);
    assert(drawn_at(entries, texels, frame - 2) <= layers);
}

/// Drawing with a texture moves it, and only it, to this frame's count: the
/// count of the frame it was last drawn with loses it and this frame's gains
/// it. How many there are of each width does not change.
pub proof fn drawing_moves_one_texture_to_this_frame<T>(
    entries: Seq<RampEntry<T>>,
    i: int,
    frame: u64,
    texels: u32,
    g: int,
)
    requires
        0 <= i < entries.len(),
    ensures
        drawn_at(entries.update(i, drawn_now(entries[i], frame)), texels, g) + (
        if entries[i].texels == texels && entries[i].last_used == g {
            1int
        } else {
            0int
        }) == drawn_at(entries, texels, g) + (if entries[i].texels == texels && frame == g {
            1int
        } else {
            0int
        }),
        of_width(entries.update(i, drawn_now(entries[i], frame)), texels) == of_width(
            entries,
            texels,
        ),
    decreases entries.len(),
{
    let u = entries.update(i, drawn_now(entries[i], frame));
    if i < entries.len() - 1 {
        let d = entries.drop_last();
        drawing_moves_one_texture_to_this_frame(d, i, frame, texels, g);
        assert(u.drop_last() =~= d.update(i, drawn_now(d[i], frame)));
        assert(u.last() == entries.last());
    } else {
        assert(u.drop_last() =~= entries.drop_last());
    }
}

/// `after` is `before` once a request for a ramp of `texels` at `frame` was
/// handed the texture at `i`: a rested one of that width taken back, or a new
/// one made at the end; either way drawn with at `frame`.
pub open spec fn handed_out<T>(
    before: Seq<RampEntry<T>>,
    frame: u64,
    after: Seq<RampEntry<T>>,
    i: int,
    texels: u32,
) -> bool {
    ||| {
        &&& 0 <= i < before.len()
        &&& reusable(before[i].last_used, before[i].texels, texels, frame)
        &&& after == before.update(i, drawn_now(before[i], frame))
    }
    ||| {
        &&& i == before.len()
        &&& forall|j: int|
            0 <= j < before.len() ==> !reusable(
                #[trigger] before[j].last_used,
                before[j].texels,
                texels,
                frame,
            )
        &&& after.len() == before.len() + 1
        &&& after.drop_last() == before
        &&& after[i].last_used == frame
        &&& after[i].texels == texels
    }
}

/// One step of a pool's life: a request handed the texture at `i` (and the
/// frame stayed), or nothing was handed out and time may have moved on.
pub open spec fn pool_step<T>(
    before: Seq<RampEntry<T>>,
    f0: u64,
    after: Seq<RampEntry<T>>,
    f1: u64,
    handed: Option<int>,
    texels: u32,
) -> bool {
    match handed {
        Some(i) => f1 == f0 && handed_out(before, f0, after, i, texels),
        None => f0 <= f1 && after == before,
    }
}

/// Whether `pools`, `frames`, `handed` and `widths` record a run of a pool:
/// state `k` and frame `k` go to state `k + 1` by step `k`.
pub open spec fn is_run<T>(
    pools: Seq<Seq<RampEntry<T>>>,
    frames: Seq<u64>,
    handed: Seq<Option<int>>,
    widths: Seq<u32>,
) -> bool {
    &&& pools.len() == handed.len() + 1
    &&& frames.len() == handed.len() + 1
    &&& widths.len() == handed.len()
    &&& forall|k: int|
        0 <= k < handed.len() ==> #[trigger] pool_step(
            pools[k],
            frames[k],
            pools[k + 1],
            frames[k + 1],
            handed[k],
            widths[k],
        )
}

/// After step `a` handed out the texture at `i`, it stays in the pool, is
/// drawn with no earlier than that step's frame, and time does not go back.
proof fn stays_after_handing<T>(
    pools: Seq<Seq<RampEntry<T>>>,
    frames: Seq<u64>,
    handed: Seq<Option<int>>,
    widths: Seq<u32>,
    a: int,
    i: int,
    k: int,
)
    requires
        is_run(pools, frames, handed, widths),
        0 <= a < k <= handed.len(),
        handed[a] == Some(i),
    ensures
        0 <= i < pools[k].len(),
        pools[k][i].last_used >= frames[a],
        frames[k] >= frames[a],
    decreases k - a,
{
    assert(pool_step(pools[a], frames[a], pools[a + 1], frames[a + 1], handed[a], widths[a]));
    if k > a + 1 {
        stays_after_handing(pools, frames, handed, widths, a, i, k - 1);
        let j = k - 1;
        assert(pool_step(pools[j], frames[j], pools[j + 1], frames[j + 1], handed[j], widths[j]));
        match handed[j] {
            Some(h) => {
                if h == pools[j].len() {
                    assert(pools[k][i] == pools[k].drop_last()[i]);
                }
            },
            None => {},
        }
    } else {
        if i == pools[a].len() {
            assert(pools[k].len() == pools[a].len() + 1);
        }
    }
}

/// A texture a queued draw may still be reading is never handed out to be
/// written again: two requests in a run that are handed the same texture are
/// at least [`FRAMES_IN_FLIGHT`] frames apart. So ramps drawn in one frame
/// never share a texture.
pub proof fn never_rewritten_while_in_flight<T>(
    pools: Seq<Seq<RampEntry<T>>>,
    frames: Seq<u64>,
    handed: Seq<Option<int>>,
    widths: Seq<u32>,
    a: int,
    b: int,
    i: int,
)
    requires
        is_run(pools, frames, handed, widths),
        0 <= a < b < handed.len(),
        handed[a] == Some(i),
        handed[b] == Some(i),
    ensures
        frames[b] >= frames[a] + FRAMES_IN_FLIGHT,
{
    stays_after_handing(pools, frames, handed, widths, a, i, b);
    assert(pool_step(pools[b], frames[b], pools[b + 1], frames[b + 1], handed[b], widths[b]));
}

/// How many of the first `k` steps of a run handed out a ramp of width
/// `texels` at frame `g`.
pub open spec fn requests_at(
    frames: Seq<u64>,
    handed: Seq<Option<int>>,
    widths: Seq<u32>,
    texels: u32,
    g: int,
    k: int,
) -> nat
    decreases k,
{
    if k <= 0 {
        0
    } else {
        requests_at(frames, handed, widths, texels, g, k - 1) + if handed[k - 1] is Some
            && widths[k - 1] == texels && frames[k - 1] == g {
            1nat
        } else {
            0nat
        }
    }
}

proof fn requests_only_grow(
    frames: Seq<u64>,
    handed: Seq<Option<int>>,
    widths: Seq<u32>,
    texels: u32,
    g: int,
    k: int,
    n: int,
)
    requires
        0 <= k <= n,
    ensures
        requests_at(frames, handed, widths, texels, g, k) <= requests_at(
            frames,
            handed,
            widths,
            texels,
            g,
            n,
        ),
    decreases n - k,
{
    if k < n {
        requests_only_grow(frames, handed, widths, texels, g, k, n - 1);
    }
}

/// What a run keeps true of a pool that started empty: no frame's count of
/// textures of a width exceeds the requests that frame made for that width,
/// nothing was drawn with after the current frame, and the pool holds at
/// most `FRAMES_IN_FLIGHT * layers` of the width.
proof fn settled_so_far<T>(
    pools: Seq<Seq<RampEntry<T>>>,
    frames: Seq<u64>,
    handed: Seq<Option<int>>,
    widths: Seq<u32>,
    texels: u32,
    layers: nat,
    k: int,
)
    requires
        is_run(pools, frames, handed, widths),
        pools[0].len() == 0,
        forall|g: int| #[trigger] requests_at(frames, handed, widths, texels, g, handed.len() as int) <= layers,
        0 <= k <= handed.len(),
    ensures
        forall|g: int| #[trigger] drawn_at(pools[k], texels, g) <= requests_at(frames, handed, widths, texels, g, k),
        forall|j: int| 0 <= j < pools[k].len() ==> #[trigger] pools[k][j].last_used <= frames[k],
        of_width(pools[k], texels) <= FRAMES_IN_FLIGHT * layers,
    decreases k,
{
    let n = handed.len() as int;
    if k == 0 {
        assert forall|g: int| #[trigger] drawn_at(pools[0], texels, g) <= requests_at(frames, handed, widths, texels, g, 0) by {}
    } else {
        let j = k - 1;
        settled_so_far(pools, frames, handed, widths, texels, layers, j);
        assert(pool_step(pools[j], frames[j], pools[j + 1], frames[j + 1], handed[j], widths[j]));
        let before = pools[j];
        let after = pools[k];
        let f = frames[j];
        match handed[j] {
            None => {
                assert forall|g: int| #[trigger] drawn_at(after, texels, g) <= requests_at(frames, handed, widths, texels, g, k) by {
                    assert(drawn_at(before, texels, g) <= requests_at(frames, handed, widths, texels, g, j));
                }
            },
            Some(i) => {
                if 0 <= i < before.len() && reusable(before[i].last_used, before[i].texels, widths[j], f)
                    && after == before.update(i, drawn_now(before[i], f)) {
                    assert forall|g: int| #[trigger] drawn_at(after, texels, g) <= requests_at(frames, handed, widths, texels, g, k) by {
                        drawing_moves_one_texture_to_this_frame(before, i, f, texels, g);
                        assert(drawn_at(before, texels, g) <= requests_at(frames, handed, widths, texels, g, j));
                    }
                    drawing_moves_one_texture_to_this_frame(before, i, f, texels, 0);
                    assert forall|q: int| 0 <= q < after.len() implies #[trigger] after[q].last_used <= frames[k] by {
                        if q != i {
                            assert(after[q] == before[q]);
                        }
                    }
                } else {
                    assert(i == before.len());
                    assert(after.drop_last() == before);
                    assert forall|g: int| #[trigger] drawn_at(after, texels, g) <= requests_at(frames, handed, widths, texels, g, k) by {
                        assert(drawn_at(before, texels, g) <= requests_at(frames, handed, widths, texels, g, j));
                        assert(after.last() == after[i]);
                    }
                    assert forall|q: int| 0 <= q < after.len() implies #[trigger] after[q].last_used <= frames[k] by {
                        if q < before.len() {
                            assert(after[q] == after.drop_last()[q]);
                        }
                    }
                    assert(after.last() == after[i]);
                    if widths[j] == texels {
                        assert forall|g: int| g != f implies #[trigger] drawn_at(before, texels, g) <= layers by {
                            assert(drawn_at(before, texels, g) <= requests_at(frames, handed, widths, texels, g, j));
                            requests_only_grow(frames, handed, widths, texels, g, j, n);
                            assert(requests_at(frames, handed, widths, texels, g, n) <= layers);
                        }
                        assert(drawn_at(before, texels, f as int) <= requests_at(frames, handed, widths, texels, f as int, j));
                        requests_only_grow(frames, handed, widths, texels, f as int, k, n);
                        assert(requests_at(frames, handed, widths, texels, f as int, n) <= layers);
                        assert(requests_at(frames, handed, widths, texels, f as int, k) == requests_at(frames, handed, widths, texels, f as int, j) + 1);
                        growth_stops_at_frames_in_flight_per_layer(before, texels, f, layers);
                    }
                }
            },
        }
    }
}

/// The pool settles: over any run of a pool that starts empty, in which no
/// frame asks for more than `layers` ramps of a width, it never holds more
/// than [`FRAMES_IN_FLIGHT`] × `layers` textures of that width.
pub proof fn pool_settles_at_frames_in_flight_per_layer<T>(
    pools: Seq<Seq<RampEntry<T>>>,
    frames: Seq<u64>,
    handed: Seq<Option<int>>,
    widths: Seq<u32>,
    texels: u32,
    layers: nat,
    k: int,
)
    requires
        is_run(pools, frames, handed, widths),
        pools[0].len() == 0,
        forall|g: int| #[trigger] requests_at(frames, handed, widths, texels, g, handed.len() as int) <= layers,
        0 <= k <= handed.len(),
    ensures
        of_width(pools[k], texels) <= FRAMES_IN_FLIGHT * layers,
{
    settled_so_far(pools, frames, handed, widths, texels, layers, k);
}

/// A run never goes back in time.
proof fn run_frames_rise<T>(
    pools: Seq<Seq<RampEntry<T>>>,
    frames: Seq<u64>,
    handed: Seq<Option<int>>,
    widths: Seq<u32>,
    j: int,
    k: int,
)
    requires
        is_run(pools, frames, handed, widths),
        0 <= j <= k <= handed.len(),
    ensures
        frames[j] <= frames[k],
    decreases k - j,
{
    if j < k {
        run_frames_rise(pools, frames, handed, widths, j, k - 1);
        assert(pool_step(pools[k - 1], frames[k - 1], pools[k - 1 + 1], frames[k - 1 + 1], handed[k - 1], widths[k - 1]));
    }
}

/// A frame still in flight holds one texture of a width for every request
/// of that width it made: none of them has been taken back yet.
proof fn in_flight_holds_its_requests<T>(
    pools: Seq<Seq<RampEntry<T>>>,
    frames: Seq<u64>,
    handed: Seq<Option<int>>,
    widths: Seq<u32>,
    texels: u32,
    g: int,
    k: int,
)
    requires
        is_run(pools, frames, handed, widths),
        pools[0].len() == 0,
        0 <= k <= handed.len(),
        frames[k] < g + FRAMES_IN_FLIGHT,
    ensures
        drawn_at(pools[k], texels, g) == requests_at(frames, handed, widths, texels, g, k),
    decreases k,
{
    if k > 0 {
        let j = k - 1;
        run_frames_rise(pools, frames, handed, widths, j, k);
        in_flight_holds_its_requests(pools, frames, handed, widths, texels, g, j);
        assert(pool_step(pools[j], frames[j], pools[j + 1], frames[j + 1], handed[j], widths[j]));
        let before = pools[j];
        let after = pools[k];
        let f = frames[j];
        match handed[j] {
            None => {},
            Some(i) => {
                if 0 <= i < before.len() && reusable(before[i].last_used, before[i].texels, widths[j], f)
                    && after == before.update(i, drawn_now(before[i], f)) {
                    drawing_moves_one_texture_to_this_frame(before, i, f, texels, g);
                } else {
                    assert(after.drop_last() == before);
                    assert(after.last() == after[i]);
                }
            },
        }
    }
}

/// Three frames' worth of textures of a width are at most all there are of
/// it.
proof fn three_frames_fit<T>(entries: Seq<RampEntry<T>>, texels: u32, g: int)
    ensures
        drawn_at(entries, texels, g) + drawn_at(entries, texels, g - 1) + drawn_at(
            entries,
            texels,
            g - 2,
        ) <= of_width(entries, texels),
    decreases entries.len(),
{
    if entries.len() > 0 {
        three_frames_fit(entries.drop_last(), texels, g);
    }
}

/// The pool settles at exactly [`FRAMES_IN_FLIGHT`] textures per layer of a
/// width: once the current frame and the two before it have each asked for
/// `layers` ramps of that width, in a run that never asks for more in a
/// frame, the pool holds `FRAMES_IN_FLIGHT * layers` of them.
pub proof fn pool_settles_at_exactly_frames_in_flight_per_layer<T>(
    pools: Seq<Seq<RampEntry<T>>>,
    frames: Seq<u64>,
    handed: Seq<Option<int>>,
    widths: Seq<u32>,
    texels: u32,
    layers: nat,
    k: int,
)
    requires
        is_run(pools, frames, handed, widths),
        pools[0].len() == 0,
        forall|g: int| #[trigger] requests_at(frames, handed, widths, texels, g, handed.len() as int) <= layers,
        0 <= k <= handed.len(),
        requests_at(frames, handed, widths, texels, frames[k] as int, k) == layers,
        requests_at(frames, handed, widths, texels, frames[k] - 1, k) == layers,
        requests_at(frames, handed, widths, texels, frames[k] - 2, k) == layers,
    ensures
        of_width(pools[k], texels) == FRAMES_IN_FLIGHT * layers,
{
    let f = frames[k] as int;
    settled_so_far(pools, frames, handed, widths, texels, layers, k);
    in_flight_holds_its_requests(pools, frames, handed, widths, texels, f, k);
    in_flight_holds_its_requests(pools, frames, handed, widths, texels, f - 1, k);
    in_flight_holds_its_requests(pools, frames, handed, widths, texels, f - 2, k);
    three_frames_fit(pools[k], texels, f);
}

/// The textures handed out so far, and the frame being drawn.
pub struct RampPool<T> {
    pub entries: Vec<RampEntry<T>>,
    pub frame: u64,
}

impl<T> RampPool<T> {
    pub open spec fn entry_reusable(&self, i: int, texels: u32) -> bool {
        reusable(self.entries@[i].last_used, self.entries@[i].texels, texels, self.frame)
    }

    /// An empty pool, before the first frame.
    pub fn new() -> (r: Self)
        ensures
            r.entries@.len() == 0,
            r.frame == 0,
    {
        RampPool { entries: Vec::new(), frame: 0 }
    }

    /// Move on to the next frame.
    pub fn begin_frame(&mut self)
        requires
            old(self).frame < u64::MAX,
        ensures
            final(self).frame == old(self).frame + 1,
            final(self).entries@ == old(self).entries@,
    {
        self.frame = self.frame + 1;
    }

    /// The first texture of this width that nothing can still be reading, if
    /// there is one.
    pub fn free_slot(&self, texels: u32) -> (r: Option<usize>)
        ensures
            match r {
                Some(i) => {
                    &&& i < self.entries@.len()
                    &&& self.entry_reusable(i as int, texels)
                    &&& forall|j: int| 0 <= j < i ==> !#[trigger] self.entry_reusable(j, texels)
                },
                None => forall|j: int|
                    0 <= j < self.entries@.len() ==> !#[trigger] self.entry_reusable(j, texels),
            },
    {
        let mut i: usize = 0;
        while i < self.entries.len()
            invariant
                0 <= i <= self.entries@.len(),
                forall|j: int| 0 <= j < i ==> !#[trigger] self.entry_reusable(j, texels),
            decreases self.entries@.len() - i,
        {
            let e = &self.entries[i];
            if e.texels == texels && e.last_used <= self.frame && self.frame - e.last_used
                >= FRAMES_IN_FLIGHT {
                return Some(i);
            }
            i = i + 1;
        }
        None
    }

    /// Take in a texture just made for a ramp of `texels`, as drawn with this
    /// frame; its position in the pool.
    pub fn push(&mut self, texture: T, texels: u32) -> (r: usize)
        ensures
            r == old(self).entries@.len(),
            final(self).entries@.len() == old(self).entries@.len() + 1,
            final(self).entries@.subrange(0, r as int) == old(self).entries@,
            final(self).entries@[r as int].texture == texture,
            final(self).entries@[r as int].texels == texels,
            final(self).entries@[r as int].last_used == old(self).frame,
            final(self).frame == old(self).frame,
    {
        let r = self.entries.len();
        self.entries.push(RampEntry { texture, last_used: self.frame, texels });
        assert(self.entries@.subrange(0, r as int) =~= old(self).entries@);
        r
    }

    /// Note that this frame drew with the texture at `i`.
    pub fn mark_used(&mut self, i: usize)
        requires
            i < old(self).entries@.len(),
        ensures
            final(self).entries@.len() == old(self).entries@.len(),
            final(self).frame == old(self).frame,
            final(self).entries@[i as int].last_used == old(self).frame,
            final(self).entries@[i as int].texels == old(self).entries@[i as int].texels,
            final(self).entries@[i as int].texture == old(self).entries@[i as int].texture,
            forall|j: int|
                0 <= j < final(self).entries@.len() && j != i
                    ==> #[trigger] final(self).entries@[j] == old(self).entries@[j],
    {
        let mut entry = self.entries.remove(i);
        entry.last_used = self.frame;
        self.entries.insert(i, entry);
    }

    /// Whether some texture of this width can be taken back now.
    pub open spec fn has_reusable(&self, texels: u32) -> bool {
        exists|j: int| 0 <= j < self.entries@.len() && self.entry_reusable(j, texels)
    }

    /// The texture to write a ramp of `texels` into at this frame: the first
    /// of that width nothing can still be reading, or else a new one from
    /// `make`; either way marked as drawn with this frame. `None` only when a
    /// new one was needed and `make` could not give one.
    pub fn slot_for<F: FnOnce() -> Option<T>>(&mut self, texels: u32, make: F) -> (r: Option<usize>)
        requires
            make.requires(()),
        ensures
            final(self).frame == old(self).frame,
            r matches Some(i) ==> handed_out(
                old(self).entries@,
                old(self).frame,
                final(self).entries@,
                i as int,
                texels,
            ),
            match r {
                Some(i) => if old(self).has_reusable(texels) {
                    &&& i < old(self).entries@.len()
                    &&& old(self).entry_reusable(i as int, texels)
                    &&& forall|j: int| 0 <= j < i ==> !#[trigger] old(self).entry_reusable(j, texels)
                    &&& final(self).entries@ == old(self).entries@.update(
                        i as int,
                        drawn_now(old(self).entries@[i as int], old(self).frame),
                    )
                } else {
                    &&& i == old(self).entries@.len()
                    &&& make.ensures((), Some(final(self).entries@[i as int].texture))
                    &&& final(self).entries@ == old(self).entries@.push(
                        (RampEntry {
                            texture: final(self).entries@[i as int].texture,
                            last_used: old(self).frame,
                            texels,
                        }),
                    )
                },
                None => {
                    &&& !old(self).has_reusable(texels)
                    &&& make.ensures((), None::<T>)
                    &&& final(self).entries@ == old(self).entries@
                },
            },
    {
        match self.free_slot(texels) {
            Some(i) => {
                let ghost before = self.entries@;
                self.mark_used(i);
                proof {
                    assert(self.entries@[i as int] == drawn_now(before[i as int], self.frame));
                    assert(self.entries@ =~= before.update(i as int, drawn_now(before[i as int], self.frame)));
                }
                Some(i)
            },
            None => match make() {
                Some(t) => {
                    let ghost before = self.entries@;
                    proof {
                        assert forall|j: int| 0 <= j < before.len() implies !reusable(
                            #[trigger] before[j].last_used,
                            before[j].texels,
                            texels,
                            self.frame,
                        ) by {
                            assert(!self.entry_reusable(j, texels));
                        }
                    }
                    let i = self.push(t, texels);
                    proof {
                        let e = RampEntry { texture: self.entries@[i as int].texture, last_used: self.frame, texels };
                        assert(self.entries@[i as int] == e);
                        assert forall|k: int| 0 <= k < before.len() implies self.entries@[k] == before[k] by {
                            assert(self.entries@.subrange(0, i as int)[k] == self.entries@[k]);
                        }
                        assert(self.entries@ =~= before.push(e));
                        assert(self.entries@.drop_last() =~= before);
                    }
                    Some(i)
                },
                None => None,
            },
        }
    }

    /// The texture at `i`, to be drawn with or written.
    pub fn texture_mut(&mut self, i: usize) -> (r: &mut T)
        requires
            i < old(self).entries@.len(),
        ensures
            *r == old(self).entries@[i as int].texture,
            final(self).frame == old(self).frame,
            final(self).entries@.len() == old(self).entries@.len(),
            final(self).entries@[i as int].texture == *final(r),
            final(self).entries@[i as int].last_used == old(self).entries@[i as int].last_used,
            final(self).entries@[i as int].texels == old(self).entries@[i as int].texels,
            forall|j: int|
                0 <= j < final(self).entries@.len() && j != i
                    ==> #[trigger] final(self).entries@[j] == old(self).entries@[j],
    {
        &mut self.entries[i].texture
    }

    /// The texture at `i`.
    pub fn texture(&self, i: usize) -> (r: &T)
        requires
            i < self.entries@.len(),
        ensures
            *r == self.entries@[i as int].texture,
    {
        &self.entries[i].texture
    }

    /// How many textures the pool holds.
    pub fn len(&self) -> (r: usize)
        ensures
            r == self.entries@.len(),
    {
        self.entries.len()
    }
}

} // verus!
