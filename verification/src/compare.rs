//! How far apart two rendered frames are, pixel by pixel, for the demo's
//! comparison of its two render paths. Frames are raw RGBA bytes, four to a
//! pixel.

use vstd::prelude::*;

verus! {

/// The difference between two bytes.
pub open spec fn byte_diff(x: u8, y: u8) -> u8 {
    if x >= y {
        (x - y) as u8
    } else {
        (y - x) as u8
    }
}

/// The largest difference in any channel of pixel `p`.
pub open spec fn pixel_diff(a: Seq<u8>, b: Seq<u8>, p: int) -> u8 {
    let d0 = byte_diff(a[4 * p], b[4 * p]);
    let d1 = byte_diff(a[4 * p + 1], b[4 * p + 1]);
    let d2 = byte_diff(a[4 * p + 2], b[4 * p + 2]);
    let d3 = byte_diff(a[4 * p + 3], b[4 * p + 3]);
    let m01 = if d0 >= d1 { d0 } else { d1 };
    let m23 = if d2 >= d3 { d2 } else { d3 };
    if m01 >= m23 { m01 } else { m23 }
}

/// How many pixels the two frames have in common.
pub open spec fn shared_pixels(a: Seq<u8>, b: Seq<u8>) -> int {
    if a.len() <= b.len() {
        a.len() as int / 4
    } else {
        b.len() as int / 4
    }
}

/// The largest pixel difference among the first `n` pixels.
pub open spec fn worst_of(a: Seq<u8>, b: Seq<u8>, n: int) -> u8
    decreases n,
{
    if n <= 0 {
        0
    } else {
        let w = worst_of(a, b, n - 1);
        let d = pixel_diff(a, b, n - 1);
        if d > w {
            d
        } else {
            w
        }
    }
}

/// How many of the first `n` pixels differ by more than `tolerance`.
pub open spec fn over_of(a: Seq<u8>, b: Seq<u8>, n: int, tolerance: u8) -> int
    decreases n,
{
    if n <= 0 {
        0
    } else {
        over_of(a, b, n - 1, tolerance) + if pixel_diff(a, b, n - 1) > tolerance {
            1int
        } else {
            0int
        }
    }
}

/// How far apart two frames are.
pub struct Diff {
    /// The largest difference in any channel of any pixel.
    pub worst: u8,
    /// Pixels differing by more than the tolerance, in any channel.
    pub over: usize,
    /// Pixels in the first frame.
    pub total: usize,
}

fn abs_diff(x: u8, y: u8) -> (r: u8)
    ensures
        r == byte_diff(x, y),
{
    if x >= y {
        x - y
    } else {
        y - x
    }
}

proof fn lemma_over_bounded(a: Seq<u8>, b: Seq<u8>, n: int, tolerance: u8)
    requires
        n >= 0,
    ensures
        0 <= over_of(a, b, n, tolerance) <= n,
    decreases n,
{
    if n > 0 {
        lemma_over_bounded(a, b, n - 1, tolerance);
    }
}

impl Diff {
    /// Compare two frames pixel by pixel, over the pixels they share.
    pub fn of(a: &[u8], b: &[u8], tolerance: u8) -> (r: Diff)
        ensures
            r.worst == worst_of(a@, b@, shared_pixels(a@, b@)),
            r.over == over_of(a@, b@, shared_pixels(a@, b@), tolerance),
            r.total == a@.len() / 4,
    {
        let n = if a.len() <= b.len() {
            a.len() / 4
        } else {
            b.len() / 4
        };
        let mut worst: u8 = 0;
        let mut over: usize = 0;
        let mut p: usize = 0;
        let mut base: usize = 0;
        while p < n
            invariant
                base == 4 * p,
                n == shared_pixels(a@, b@),
                4 * n <= a@.len(),
                4 * n <= b@.len(),
                0 <= p <= n,
                worst == worst_of(a@, b@, p as int),
                over == over_of(a@, b@, p as int, tolerance),
                over <= p,
            decreases n - p,
        {
            let d0 = abs_diff(a[base], b[base]);
            let d1 = abs_diff(a[base + 1], b[base + 1]);
            let d2 = abs_diff(a[base + 2], b[base + 2]);
            let d3 = abs_diff(a[base + 3], b[base + 3]);
            let m01 = if d0 >= d1 {
                d0
            } else {
                d1
            };
            let m23 = if d2 >= d3 {
                d2
            } else {
                d3
            };
            let d = if m01 >= m23 {
                m01
            } else {
                m23
            };
            assert(d == pixel_diff(a@, b@, p as int));
            if d > worst {
                worst = d;
            }
            if d > tolerance {
                over = over + 1;
            }
            p = p + 1;
            base = base + 4;
        }
        Diff { worst, over, total: a.len() / 4 }
    }
}

/// Two identical frames do not differ anywhere.
pub proof fn identical_frames_do_not_differ(a: Seq<u8>, n: int, tolerance: u8)
    requires
        0 <= n <= a.len() / 4,
    ensures
        worst_of(a, a, n) == 0,
        over_of(a, a, n, tolerance) == 0,
    decreases n,
{
    if n > 0 {
        identical_frames_do_not_differ(a, n - 1, tolerance);
    }
}

/// No more pixels are over the tolerance than there are pixels compared.
pub proof fn over_never_exceeds_the_pixels(a: Seq<u8>, b: Seq<u8>, tolerance: u8)
    ensures
        0 <= over_of(a, b, shared_pixels(a, b), tolerance) <= shared_pixels(a, b),
{
    lemma_over_bounded(a, b, shared_pixels(a, b), tolerance);
}

/// Channel `c` of pixel `p` of a frame.
pub open spec fn channel(s: Seq<u8>, p: int, c: int) -> u8 {
    s[4 * p + c]
}

/// A pixel's difference is its largest channel difference: no channel of it
/// differs by more, and one differs by exactly that much.
pub proof fn pixel_diff_is_the_largest_channel(a: Seq<u8>, b: Seq<u8>, p: int)
    ensures
        forall|c: int|
            0 <= c < 4 ==> #[trigger] channel(a, p, c) - channel(b, p, c) <= pixel_diff(a, b, p)
                && channel(b, p, c) - channel(a, p, c) <= pixel_diff(a, b, p),
        exists|c: int|
            0 <= c < 4 && (pixel_diff(a, b, p) == #[trigger] channel(a, p, c) - channel(b, p, c)
                || pixel_diff(a, b, p) == channel(b, p, c) - channel(a, p, c)),
{
    let d = pixel_diff(a, b, p);
    assert forall|c: int| 0 <= c < 4 implies #[trigger] channel(a, p, c) - channel(b, p, c) <= d
        && channel(b, p, c) - channel(a, p, c) <= d by {
        if c == 0 {
        } else if c == 1 {
        } else if c == 2 {
        } else {
        }
    }
    if d == byte_diff(a[4 * p], b[4 * p]) {
        assert(d == channel(a, p, 0) - channel(b, p, 0) || d == channel(b, p, 0) - channel(a, p, 0));
    } else if d == byte_diff(a[4 * p + 1], b[4 * p + 1]) {
        assert(d == channel(a, p, 1) - channel(b, p, 1) || d == channel(b, p, 1) - channel(a, p, 1));
    } else if d == byte_diff(a[4 * p + 2], b[4 * p + 2]) {
        assert(d == channel(a, p, 2) - channel(b, p, 2) || d == channel(b, p, 2) - channel(a, p, 2));
    } else {
        assert(d == channel(a, p, 3) - channel(b, p, 3) || d == channel(b, p, 3) - channel(a, p, 3));
    }
}

/// The worst difference reported is at least every channel difference of
/// every pixel compared, and is the difference of one of those pixels (or
/// zero when no pixel is compared).
pub proof fn worst_covers_every_channel(a: Seq<u8>, b: Seq<u8>, n: int)
    ensures
        forall|p: int, c: int|
            0 <= p < n && 0 <= c < 4 ==> #[trigger] channel(a, p, c) - channel(b, p, c) <= worst_of(
                a,
                b,
                n,
            ) && channel(b, p, c) - channel(a, p, c) <= worst_of(a, b, n),
        n <= 0 ==> worst_of(a, b, n) == 0,
        n > 0 ==> exists|p: int| 0 <= p < n && worst_of(a, b, n) == #[trigger] pixel_diff(a, b, p),
    decreases n,
{
    if n > 0 {
        worst_covers_every_channel(a, b, n - 1);
        pixel_diff_is_the_largest_channel(a, b, n - 1);
        assert forall|p: int, c: int| 0 <= p < n && 0 <= c < 4 implies #[trigger] channel(a, p, c)
            - channel(b, p, c) <= worst_of(a, b, n) && channel(b, p, c) - channel(a, p, c)
            <= worst_of(a, b, n) by {
            if p == n - 1 {
                pixel_diff_is_the_largest_channel(a, b, p);
            }
        }
        if worst_of(a, b, n) == pixel_diff(a, b, n - 1) {
            assert(0 <= n - 1 < n);
        } else if n - 1 > 0 {
            let p = choose|p: int| 0 <= p < n - 1 && worst_of(a, b, n - 1) == #[trigger] pixel_diff(a, b, p);
            assert(0 <= p < n);
        }
    }
}

} // verus!
