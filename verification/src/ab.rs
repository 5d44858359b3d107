//! Choices the side-by-side benchmark makes before it draws anything: which
//! shapes a scene is built from, and whether the GL driver is a software one.

use crate::text::{contains_seq, contains_text};
use vstd::prelude::*;
use vstd::set_lib::{lemma_int_range, lemma_subset_equality, set_int_range};

verus! {

/// Whether shape `a` comes before shape `b` when shapes are taken biggest
/// first: more fill triangles first, and of two equal ones the earlier.
pub open spec fn ranked_before(fill_lens: Seq<usize>, a: usize, b: usize) -> bool {
    ||| fill_lens[a as int] > fill_lens[b as int]
    ||| (fill_lens[a as int] == fill_lens[b as int] && a < b)
}

/// `order` lists every shape once, biggest first, equal ones in their own
/// order: what a stable sort of the shape numbers by falling size gives.
pub open spec fn is_biggest_first(fill_lens: Seq<usize>, order: Seq<usize>) -> bool {
    &&& order.len() == fill_lens.len()
    &&& forall|k: int| 0 <= k < order.len() ==> order[k] < fill_lens.len()
    &&& forall|j: int, k: int|
        0 <= j < k < order.len() ==> ranked_before(fill_lens, #[trigger] order[j], #[trigger] order[k])
}

/// `n` picks taken round and round from `pool`.
pub open spec fn cycled(pool: Seq<usize>, n: nat) -> Seq<usize> {
    Seq::new(n, |i: int| pool[i % (pool.len() as int)])
}

/// Whether a chosen shape number names a shape that exists.
pub open spec fn names_a_shape(count: nat) -> spec_fn(usize) -> bool {
    |i: usize| i < count
}

/// The chosen shape numbers that name a shape, in the order given.
pub open spec fn usable_choices(chosen: Seq<usize>, count: nat) -> Seq<usize> {
    chosen.filter(names_a_shape(count))
}

/// The shapes for `n` layers, given each shape's fill size.
///
/// With an explicit choice, the shape numbers that exist are used, repeated
/// rather than cut short so that `n` layers are always asked for. Without
/// one, the shapes are taken biggest first, again round and round; with no
/// shapes at all nothing is picked.
pub fn pick(fill_lens: &[usize], chosen: &[usize], n: usize) -> (r: Vec<usize>)
    requires
        chosen@.len() > 0 && n > 0 ==> exists|k: int|
            0 <= k < chosen@.len() && #[trigger] chosen@[k] < fill_lens@.len(),
    ensures
        chosen@.len() > 0 ==> r@ == cycled(
            usable_choices(chosen@, fill_lens@.len()),
            n as nat,
        ),
        chosen@.len() == 0 && fill_lens@.len() == 0 ==> r@.len() == 0,
        chosen@.len() == 0 && fill_lens@.len() > 0 ==> exists|order: Seq<usize>|
            is_biggest_first(fill_lens@, order) && r@ == cycled(order, n as nat),
{
    let count = fill_lens.len();
    if chosen.len() > 0 {
        let ghost keep = names_a_shape(count as nat);
        let mut pool: Vec<usize> = Vec::new();
        let mut i: usize = 0;
        while i < chosen.len()
            invariant
                0 <= i <= chosen@.len(),
                count == fill_lens@.len(),
                keep == names_a_shape(count as nat),
                pool@ == chosen@.take(i as int).filter(keep),
            decreases chosen@.len() - i,
        {
            proof {
                assert(chosen@.take(i as int + 1) =~= chosen@.take(i as int).push(chosen@[i as int]));
                chosen@.take(i as int).lemma_filter_push(chosen@[i as int], keep);
            }
            if chosen[i] < count {
                pool.push(chosen[i]);
            }
            i = i + 1;
        }
        assert(chosen@.take(chosen@.len() as int) =~= chosen@);
        if n > 0 {
            let ghost k = choose|k: int| 0 <= k < chosen@.len() && #[trigger] chosen@[k] < fill_lens@.len();
            proof {
                chosen@.lemma_filter_contains(keep, k);
            }
        }
        let mut r: Vec<usize> = Vec::new();
        let mut j: usize = 0;
        while j < n
            invariant
                0 <= j <= n,
                n > 0 ==> pool@.len() > 0,
                r@ =~= Seq::new(j as nat, |t: int| pool@[t % (pool@.len() as int)]),
            decreases n - j,
        {
            r.push(pool[j % pool.len()]);
            j = j + 1;
        }
        assert(r@ =~= cycled(usable_choices(chosen@, fill_lens@.len()), n as nat));
        return r;
    }
    let order = biggest_first(fill_lens);
    let mut r: Vec<usize> = Vec::new();
    if count == 0 {
        return r;
    }
    let mut j: usize = 0;
    while j < n
        invariant
            0 <= j <= n,
            order@.len() == count,
            count > 0,
            r@ =~= Seq::new(j as nat, |t: int| order@[t % (order@.len() as int)]),
        decreases n - j,
    {
        r.push(order[j % count]);
        j = j + 1;
    }
    assert(r@ =~= cycled(order@, n as nat));
    assert(is_biggest_first(fill_lens@, order@) && r@ == cycled(order@, n as nat));
    r
}

/// The shape numbers sorted biggest first, stably.
fn biggest_first(fill_lens: &[usize]) -> (order: Vec<usize>)
    ensures
        is_biggest_first(fill_lens@, order@),
{
    let count = fill_lens.len();
    let mut order: Vec<usize> = Vec::new();
    let mut i: usize = 0;
    while i < count
        invariant
            0 <= i <= count,
            count == fill_lens@.len(),
            order@.len() == i,
            forall|k: int| 0 <= k < order@.len() ==> order@[k] < i,
            forall|j: int, k: int|
                0 <= j < k < order@.len() ==> ranked_before(fill_lens@, #[trigger] order@[j], #[trigger] order@[k]),
        decreases count - i,
    {
        // Everything already placed is an earlier shape, so `i` goes after
        // every shape at least as big and before every smaller one.
        let mut p: usize = 0;
        while p < order.len() && fill_lens[order[p]] >= fill_lens[i]
            invariant
                0 <= p <= order@.len(),
                i < count,
                count == fill_lens@.len(),
                forall|k: int| 0 <= k < order@.len() ==> order@[k] < i,
                forall|k: int| 0 <= k < p ==> fill_lens@[#[trigger] order@[k] as int] >= fill_lens@[i as int],
            decreases order@.len() - p,
        {
            p = p + 1;
        }
        proof {
            assert forall|k: int| p <= k < order@.len() implies fill_lens@[#[trigger] order@[k] as int] < fill_lens@[i as int] by {
                if fill_lens@[order@[k] as int] >= fill_lens@[i as int] {
                    assert(ranked_before(fill_lens@, order@[p as int], order@[k]) || p as int == k);
                }
            }
        }
        let ghost before = order@;
        order.insert(p, i);
        proof {
            assert forall|j: int, k: int| 0 <= j < k < order@.len() implies ranked_before(fill_lens@, #[trigger] order@[j], #[trigger] order@[k]) by {
                if k < p {
                    assert(order@[j] == before[j] && order@[k] == before[k]);
                } else if k == p {
                    assert(order@[j] == before[j]);
                } else if j == p {
                    assert(order@[k] == before[k - 1]);
                } else if j < p {
                    assert(order@[j] == before[j] && order@[k] == before[k - 1]);
                } else {
                    assert(order@[j] == before[j - 1] && order@[k] == before[k - 1]);
                }
            }
        }
        i = i + 1;
    }
    order
}

/// A biggest-first order lists every shape.
proof fn lists_every_shape(fill_lens: Seq<usize>, order: Seq<usize>, x: usize)
    requires
        is_biggest_first(fill_lens, order),
        x < fill_lens.len(),
    ensures
        exists|j: int| 0 <= j < order.len() && order[j] == x,
{
    let len = fill_lens.len() as int;
    let as_ints = order.map_values(|v: usize| v as int);
    assert forall|j: int, k: int| 0 <= j < as_ints.len() && 0 <= k < as_ints.len() && j != k
        implies as_ints[j] != as_ints[k] by {
        if j < k {
            assert(ranked_before(fill_lens, order[j], order[k]));
        } else {
            assert(ranked_before(fill_lens, order[k], order[j]));
        }
    }
    assert(as_ints.no_duplicates());
    as_ints.unique_seq_to_set();
    lemma_int_range(0, len);
    assert(as_ints.to_set().subset_of(set_int_range(0, len))) by {
        assert forall|v: int| as_ints.to_set().contains(v) implies set_int_range(0, len).contains(v) by {
            let j = choose|j: int| 0 <= j < as_ints.len() && as_ints[j] == v;
            assert(order[j] < len);
        }
    }
    lemma_subset_equality(as_ints.to_set(), set_int_range(0, len));
    assert(set_int_range(0, len).contains(x as int));
    assert(as_ints.to_set().contains(x as int));
    let j = choose|j: int| 0 <= j < as_ints.len() && as_ints[j] == x as int;
    assert(order[j] == x);
}

/// Where two biggest-first orders agree before position `k`, the first
/// cannot put a bigger shape at `k` than the second.
proof fn no_bigger_at(fill_lens: Seq<usize>, a: Seq<usize>, b: Seq<usize>, k: int)
    requires
        is_biggest_first(fill_lens, a),
        is_biggest_first(fill_lens, b),
        0 <= k < a.len(),
        forall|j: int| 0 <= j < k ==> a[j] == b[j],
    ensures
        !ranked_before(fill_lens, a[k], b[k]),
{
    if ranked_before(fill_lens, a[k], b[k]) {
        lists_every_shape(fill_lens, b, a[k]);
        let m = choose|m: int| 0 <= m < b.len() && b[m] == a[k];
        if m < k {
            assert(a[m] == a[k]);
            assert(ranked_before(fill_lens, a[m], a[k]));
        } else if m > k {
            assert(ranked_before(fill_lens, b[k], b[m]));
        } else {
            assert(ranked_before(fill_lens, a[k], a[k]));
        }
    }
}

/// Two biggest-first orders agree on their first `k` places.
proof fn agree_before(fill_lens: Seq<usize>, a: Seq<usize>, b: Seq<usize>, k: int)
    requires
        is_biggest_first(fill_lens, a),
        is_biggest_first(fill_lens, b),
        0 <= k <= a.len(),
    ensures
        forall|j: int| 0 <= j < k ==> a[j] == b[j],
    decreases k,
{
    if k > 0 {
        agree_before(fill_lens, a, b, k - 1);
        let j = k - 1;
        no_bigger_at(fill_lens, a, b, j);
        no_bigger_at(fill_lens, b, a, j);
    }
}

/// The biggest-first order of a set of shapes is determined by their sizes:
/// any two orders that list every shape once, biggest first and equal ones
/// in their own order, are the same order.
pub proof fn biggest_first_is_unique(fill_lens: Seq<usize>, a: Seq<usize>, b: Seq<usize>)
    requires
        is_biggest_first(fill_lens, a),
        is_biggest_first(fill_lens, b),
    ensures
        a == b,
{
    agree_before(fill_lens, a, b, a.len() as int);
    assert(a =~= b);
}

/// What `str::to_lowercase` makes of a string: each character's lowercase
/// mapping as Unicode defines it.
pub uninterp spec fn lowercase_text(s: Seq<char>) -> Seq<char>;

/// `str::to_lowercase`: the result is named, not described; it depends on
/// the string alone.
#[verifier::external_body]
fn lowercase(s: &str) -> (r: String)
    ensures
        r@ == lowercase_text(s@),
{
    s.to_lowercase()
}

/// Whether a lowercased renderer description names one of the software
/// rasterizers the benchmark refuses to time.
pub open spec fn names_software_rasterizer(hay: Seq<char>) -> bool {
    ||| contains_seq(hay, "llvmpipe"@)
    ||| contains_seq(hay, "softpipe"@)
    ||| contains_seq(hay, "swrast"@)
    ||| contains_seq(hay, "software rasterizer"@)
    ||| contains_seq(hay, "software renderer"@)
    ||| contains_seq(hay, "swiftshader"@)
    ||| contains_seq(hay, "mesa offscreen"@)
    ||| contains_seq(hay, "basic render"@)
    ||| contains_seq(hay, "lavapipe"@)
}

/// Every name on the list of software rasterizers marks a driver as a
/// software one, wherever in its description the name appears.
pub proof fn every_listed_rasterizer_is_software(hay: Seq<char>)
    ensures
        contains_seq(hay, "llvmpipe"@) ==> names_software_rasterizer(hay),
        contains_seq(hay, "softpipe"@) ==> names_software_rasterizer(hay),
        contains_seq(hay, "swrast"@) ==> names_software_rasterizer(hay),
        contains_seq(hay, "software rasterizer"@) ==> names_software_rasterizer(hay),
        contains_seq(hay, "software renderer"@) ==> names_software_rasterizer(hay),
        contains_seq(hay, "swiftshader"@) ==> names_software_rasterizer(hay),
        contains_seq(hay, "mesa offscreen"@) ==> names_software_rasterizer(hay),
        contains_seq(hay, "basic render"@) ==> names_software_rasterizer(hay),
        contains_seq(hay, "lavapipe"@) ==> names_software_rasterizer(hay),
{
}

/// Whether the GL renderer and vendor strings describe a software driver,
/// whose timings say nothing about a real GPU.
pub fn is_software(renderer: &str, vendor: &str) -> (r: bool)
    ensures
        r == names_software_rasterizer(lowercase_text(renderer@ + " "@ + vendor@)),
{
    let mut both = String::from_str(renderer);
    both.append(" ");
    both.append(vendor);
    let hay = lowercase(both.as_str());
    let h = hay.as_str();
    contains_text(h, "llvmpipe") || contains_text(h, "softpipe") || contains_text(h, "swrast")
        || contains_text(h, "software rasterizer") || contains_text(h, "software renderer")
        || contains_text(h, "swiftshader") || contains_text(h, "mesa offscreen")
        || contains_text(h, "basic render") || contains_text(h, "lavapipe")
}

/// `v` rises strictly: sorted, and nothing in it twice.
pub open spec fn strictly_rising(v: Seq<usize>) -> bool {
    forall|i: int, j: int| 0 <= i < j < v.len() ==> v[i] < v[j]
}

/// Whether `x` is among the first `i` counts asked for.
pub open spec fn asked_before(layers: Seq<usize>, i: int, x: usize) -> bool {
    exists|k: int| 0 <= k < i && layers[k] == x
}

/// The layer counts a sweep runs through: each positive count asked for,
/// once, smallest first; an error if no positive count was asked for.
pub fn sweep_layers(layers: Vec<usize>) -> (r: Result<Vec<usize>, String>)
    ensures
        match r {
            Ok(v) => {
                &&& v@.len() > 0
                &&& strictly_rising(v@)
                &&& forall|x: usize| v@.contains(x) <==> (x > 0 && layers@.contains(x))
            },
            Err(e) => {
                &&& forall|k: int| 0 <= k < layers@.len() ==> layers@[k] == 0
                &&& e@ == "no layer counts to sweep"@
            },
        },
{
    let mut sweep: Vec<usize> = Vec::new();
    let mut i: usize = 0;
    while i < layers.len()
        invariant
            0 <= i <= layers@.len(),
            strictly_rising(sweep@),
            forall|y: usize| sweep@.contains(y) <==> (y > 0 && asked_before(layers@, i as int, y)),
        decreases layers@.len() - i,
    {
        let x = layers[i];
        assert forall|y: usize| asked_before(layers@, i + 1, y) <==> (asked_before(layers@, i as int, y) || y == x) by {
            if asked_before(layers@, i + 1, y) {
                let k = choose|k: int| 0 <= k < i + 1 && layers@[k] == y;
                if k < i {
                    assert(asked_before(layers@, i as int, y));
                }
            }
            if asked_before(layers@, i as int, y) {
                let k = choose|k: int| 0 <= k < i && layers@[k] == y;
                assert(0 <= k < i + 1 && layers@[k] == y);
            }
            if y == x {
                assert(0 <= i < i + 1 && layers@[i as int] == y);
            }
        }
        if x > 0 {
            let mut p: usize = 0;
            while p < sweep.len() && sweep[p] < x
                invariant
                    0 <= p <= sweep@.len(),
                    forall|k: int| 0 <= k < p ==> sweep@[k] < x,
                    strictly_rising(sweep@),
                    forall|y: usize| sweep@.contains(y) <==> (y > 0 && asked_before(layers@, i as int, y)),
                    forall|y: usize| asked_before(layers@, i + 1, y) <==> (asked_before(layers@, i as int, y) || y == x),
                decreases sweep@.len() - p,
            {
                p = p + 1;
            }
            if p < sweep.len() && sweep[p] == x {
                assert(sweep@[p as int] == x);
                assert(sweep@.contains(x));
                assert forall|y: usize| sweep@.contains(y) <==> (y > 0 && (asked_before(layers@, i as int, y) || y == x)) by {
                    if y == x {
                        assert(sweep@.contains(x));
                    }
                }
            } else {
                let ghost before = sweep@;
                proof {
                    assert forall|k: int| p <= k < before.len() implies x < #[trigger] before[k] by {
                        assert(before[p as int] > x);
                        if k > p {
                            assert(before[p as int] < before[k]);
                        }
                    }
                }
                sweep.insert(p, x);
                proof {
                    assert forall|y: usize| sweep@.contains(y) <==> (y > 0 && (asked_before(layers@, i as int, y) || y == x)) by {
                        assert(before.contains(y) <==> (y > 0 && asked_before(layers@, i as int, y)));
                        if sweep@.contains(y) {
                            let k = choose|k: int| 0 <= k < sweep@.len() && sweep@[k] == y;
                            if k < p {
                                assert(before[k] == y);
                            } else if k > p {
                                assert(before[k - 1] == y);
                            }
                        }
                        if before.contains(y) {
                            let k = choose|k: int| 0 <= k < before.len() && before[k] == y;
                            if k < p {
                                assert(sweep@[k] == y);
                            } else {
                                assert(sweep@[k + 1] == y);
                            }
                        }
                        if y == x {
                            assert(sweep@[p as int] == y);
                        }
                    }
                    assert forall|a: int, b: int| 0 <= a < b < sweep@.len() implies sweep@[a] < sweep@[b] by {
                        if b < p {
                            assert(sweep@[a] == before[a] && sweep@[b] == before[b]);
                        } else if b == p {
                            assert(sweep@[a] == before[a]);
                        } else if a == p {
                            assert(sweep@[b] == before[b - 1]);
                        } else if a < p {
                            assert(sweep@[a] == before[a] && sweep@[b] == before[b - 1]);
                        } else {
                            assert(sweep@[a] == before[a - 1] && sweep@[b] == before[b - 1]);
                        }
                    }
                }
            }
        }
        assert forall|y: usize| sweep@.contains(y) <==> (y > 0 && asked_before(layers@, i + 1, y)) by {
            assert(asked_before(layers@, i + 1, y) <==> (asked_before(layers@, i as int, y) || y == x));
            if x == 0 {
                assert(sweep@.contains(y) <==> (y > 0 && asked_before(layers@, i as int, y)));
            } else {
                assert(sweep@.contains(y) <==> (y > 0 && (asked_before(layers@, i as int, y) || y == x)));
            }
        }
        i = i + 1;
    }
    assert forall|y: usize| asked_before(layers@, layers@.len() as int, y) <==> layers@.contains(y) by {
        if layers@.contains(y) {
            let k = choose|k: int| 0 <= k < layers@.len() && layers@[k] == y;
            assert(asked_before(layers@, layers@.len() as int, y));
        }
    }
    if sweep.len() == 0 {
        proof {
            assert forall|k: int| 0 <= k < layers@.len() implies layers@[k] == 0 by {
                if layers@[k] > 0 {
                    assert(layers@.contains(layers@[k]));
                    assert(!sweep@.contains(layers@[k]));
                }
            }
        }
        return Err(String::from_str("no layer counts to sweep"));
    }
    Ok(sweep)
}

} // verus!
