use tunnelclient::fill_mesh::{interior_path, is_flat, InteriorPath};
use tunnelclient::geom::{RefinedMesh, StoredPoint};
use tunnelclient::fill_mesh::{Frame, Level, MeshId, MeshLibrary, MAX_AGE, REAP_INTERVAL};

fn id(n: u64) -> MeshId {
    MeshId { figure: n, level: Level::default_finest() }
}

/// A stand-in mesh: what matters here is what is held and what it weighs.
const WEIGHT: usize = 1000;

#[test]
fn a_mesh_outlives_a_gap_in_drawing_but_not_an_absence() {
    let mut library: MeshLibrary<u64> = MeshLibrary::default();
    assert!(library.get(id(0), Frame(0)).is_none());
    library.insert(id(0), 0, WEIGHT, Frame(0));
    assert_eq!(library.len(), 1);
    assert!(library.bytes() > 0, "a mesh was held that weighs nothing");

    // Drawn at every reap, so the gap never reaches the age.
    let mut frame = 0;
    while frame < MAX_AGE * 4 {
        assert_eq!(library.get(id(0), Frame(frame)), Some(&0));
        library.reap(Frame(frame));
        frame += REAP_INTERVAL;
    }
    assert_eq!(library.len(), 1, "a mesh drawn at every reap was dropped");

    // Reaping is periodic, so a mesh that ages out between two sweeps
    // survives until the next one.
    let last_drawn = MAX_AGE * 4;
    library.get(id(0), Frame(last_drawn));
    library.reap(Frame(last_drawn + MAX_AGE - 1));
    assert_eq!(library.len(), 1, "dropped a mesh a frame before its age");
    library.reap(Frame(last_drawn + MAX_AGE + 1));
    assert_eq!(library.len(), 1, "swept again inside the interval instead of waiting for it");
    library.reap(Frame(last_drawn + MAX_AGE + REAP_INTERVAL));
    assert_eq!(library.len(), 0, "a mesh nothing drew was kept");
    assert_eq!(library.bytes(), 0, "dropping the last mesh did not return its bytes");

    // Budgeted at one mesh, so the third figure has to shed, and what goes
    // is the one drawn least recently.
    let mut library: MeshLibrary<u64> = MeshLibrary::with_budget(WEIGHT);
    for n in 0..3 {
        if library.get(id(n), Frame(n)).is_none() {
            library.insert(id(n), n, WEIGHT, Frame(n));
        }
    }
    assert_eq!(library.len(), 2, "the budget shed the wrong number");
    assert!(!library.contains(id(0)), "the budget kept the mesh drawn longest ago");
    assert!(library.contains(id(1)) && library.contains(id(2)));
    assert_eq!(library.bytes(), 2 * WEIGHT);
}

#[test]
fn shedding_goes_least_recent_first_and_stops_at_the_budget() {
    let mut library: MeshLibrary<u64> = MeshLibrary::with_budget(2 * WEIGHT);
    for (n, frame) in [(0u64, 5u64), (1, 2), (2, 9), (3, 7)] {
        library.insert(id(n), n, WEIGHT, Frame(frame));
    }
    // Four held against a budget of two: the next request sheds the two
    // drawn longest ago, frames 2 and 5.
    assert_eq!(library.get(id(2), Frame(10)), Some(&2));
    assert_eq!(library.len(), 2);
    assert!(library.contains(id(2)) && library.contains(id(3)));
    assert_eq!(library.bytes(), 2 * WEIGHT);
}

#[test]
fn a_level_bucket_stays_between_finest_and_coarsest() {
    assert_eq!(Level::bucket(-4, Level::finest()), Level(-4));
    assert_eq!(Level::bucket(3, Level::finest()), Level(-2));
    assert_eq!(Level::bucket(i8::MIN, Level::finest()), Level(-7));
    assert_eq!(Level::bucket(-7, Level::default_finest()), Level::default_finest());
    assert!(Level::finest() < Level::default_finest());
}

#[test]
fn frames_since_an_earlier_frame() {
    assert_eq!(Frame(130).since(Frame(10)), 120);
    assert_eq!(Frame(10).since(Frame(130)), 0);
    assert_eq!(Frame::default(), Frame(0));
}

use tunnelclient::fill_mesh::{StrokeGeometry, STROKE_BUDGET};

#[test]
fn outlines_are_held_until_the_budget_is_reached_then_dropped_together() {
    let mut outlines: StrokeGeometry<u64> = StrokeGeometry::default();
    assert_eq!(outlines.get(1), None);
    outlines.insert(1, 10, STROKE_BUDGET / 2);
    outlines.insert(2, 20, STROKE_BUDGET / 2);
    assert_eq!(outlines.held(), 2);
    assert_eq!(outlines.get(1), Some(&10));
    assert_eq!(outlines.get(2), Some(&20));
    // At the budget: the next outline taken in starts a fresh table.
    outlines.insert(3, 30, 1);
    assert_eq!(outlines.held(), 1);
    assert_eq!(outlines.get(1), None);
    assert_eq!(outlines.get(3), Some(&30));
}

#[test]
fn an_outline_is_tessellated_once_per_figure() {
    let mut outlines: StrokeGeometry<u64> = StrokeGeometry::default();
    let mut strokes = 0;
    for _ in 0..64 {
        outlines.get_or_stroke(0, || {
            strokes += 1;
            (100, 4096)
        });
    }
    outlines.get_or_stroke(1, || {
        strokes += 1;
        (101, 4096)
    });
    assert_eq!(outlines.held(), 2, "two figures came to {} outlines", outlines.held());
    assert_eq!(strokes, 2);
    assert_eq!(outlines.get(0), Some(&100));
}

#[test]
fn only_a_still_flat_figure_skips_the_refined_mesh() {
    assert!(is_flat(true, true, false));
    assert!(is_flat(false, false, true));
    assert!(!is_flat(false, true, true));
    assert!(!is_flat(false, false, false));
    assert_eq!(interior_path(true, false), InteriorPath::Tessellated);
    assert_eq!(interior_path(true, true), InteriorPath::Refined);
    assert_eq!(interior_path(false, false), InteriorPath::Refined);
}

#[test]
fn the_library_counts_the_triangles_it_holds() {
    let mut library: MeshLibrary<RefinedMesh> = MeshLibrary::default();
    assert_eq!(library.triangles(), 0);
    let verts = vec![StoredPoint([0, 0]), StoredPoint([1, 0]), StoredPoint([0, 1]), StoredPoint([1, 1])];
    library.insert(id(0), RefinedMesh::of(verts.clone(), vec![0, 1, 2, 1, 3, 2]), 100, Frame(0));
    library.insert(id(1), RefinedMesh::of(verts, vec![0, 1, 2]), 100, Frame(0));
    assert_eq!(library.triangles(), 3);
}
