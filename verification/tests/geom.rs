use tunnelclient::geom::{
    extend_indices, IndexBatch, Indices, RefinedMesh, StoredPoint, StrokeMesh, TessellatedStroke,
};

fn read_triangles(mesh: &RefinedMesh, max: usize) -> Vec<[u32; 3]> {
    mesh.batches(max).into_iter().flat_map(IndexBatch::triangles).collect()
}

fn read_indices(mesh: &RefinedMesh, max: usize) -> Vec<u32> {
    mesh.batches(max).into_iter().flat_map(IndexBatch::indices).collect()
}

#[test]
fn the_index_width_follows_the_vertex_count_and_reads_back_the_same() {
    let triangles: [[u32; 3]; 3] = [[0, 1, 2], [2, 1, 3], [65_534, 3, 0]];
    let flat: Vec<u32> = triangles.iter().flatten().copied().collect();
    let mesh = |vertices: usize| RefinedMesh::of(vec![StoredPoint([0, 0]); vertices], flat.clone());
    let narrow = mesh(usize::from(u16::MAX) + 1);
    let wide = mesh(usize::from(u16::MAX) + 2);
    assert!(matches!(narrow.indices, Indices::Narrow(_)), "a mesh a u16 addresses was stored wide");
    assert!(matches!(wide.indices, Indices::Wide(_)), "a mesh a u16 cannot address was narrowed");

    for held in [&narrow, &wide] {
        assert_eq!(held.triangle_count(), triangles.len());
        assert_eq!(read_triangles(held, usize::MAX), triangles, "the triangles came back changed");
        assert_eq!(read_indices(held, usize::MAX), flat, "the indices came back changed");
        // A cap of one triangle cuts three batches of whole triangles.
        assert_eq!(held.batches(3).len(), 3);
        assert_eq!(read_triangles(held, 3), triangles, "a batched walk lost a triangle");
    }
}

#[test]
fn a_batch_cap_rounds_down_to_whole_triangles_and_never_below_one() {
    let flat: Vec<u32> = (0..21).collect();
    let mesh = RefinedMesh::of(vec![StoredPoint([0, 0]); 21], flat.clone());
    let sizes: Vec<usize> = mesh.batches(8).iter().map(|b| b.indices().len()).collect();
    assert_eq!(sizes, vec![6, 6, 6, 3]);
    let sizes: Vec<usize> = mesh.batches(0).iter().map(|b| b.indices().len()).collect();
    assert_eq!(sizes, vec![3; 7]);
    assert_eq!(read_indices(&mesh, 8), flat);
}

#[test]
fn an_empty_mesh_has_no_batches() {
    let mesh = RefinedMesh::of(Vec::new(), Vec::new());
    assert!(mesh.is_empty());
    assert_eq!(mesh.triangle_count(), 0);
    assert!(mesh.batches(300).is_empty());
    let stroke = StrokeMesh::default();
    assert!(stroke.is_empty());
    assert_eq!(stroke.indices().len(), 0);
}

#[test]
fn narrowing_keeps_the_low_bits_of_an_index_it_cannot_hold() {
    match Indices::of(vec![65_536, 70_000, 5], 10) {
        Indices::Narrow(v) => assert_eq!(v, vec![0, 4_464, 5]),
        Indices::Wide(_) => panic!("ten vertices were stored wide"),
    }
}

#[test]
fn a_triangle_naming_a_missing_vertex_is_dropped_entire() {
    let mut flat = vec![9, 9, 9];
    // Three vertices were added past the ten held; the second triangle names
    // a fourth that is not there, and the trailing pair is not a triangle.
    extend_indices(&mut flat, &[0, 1, 2, 2, 1, 3, 1, 0, 2, 0, 1], 3, 10);
    assert_eq!(flat, vec![9, 9, 9, 10, 11, 12, 11, 10, 12]);
    let mut tessellated = TessellatedStroke::new();
    tessellated.extend(vec![StoredPoint([1, 2]); 10], vec![StoredPoint([0, 0]); 10], &[9, 9, 9]);
    tessellated.extend(
        vec![StoredPoint([1, 2]); 3],
        vec![StoredPoint([0, 0]); 3],
        &[0, 1, 2, 2, 1, 3, 1, 0, 2, 0, 1],
    );
    let stroke = StrokeMesh::of(tessellated);
    assert!(!stroke.is_empty());
    assert_eq!(stroke.positions().len(), 13);
    let kept: Vec<u32> = stroke.indices().batches(usize::MAX).into_iter().flat_map(|b| b.indices()).collect();
    assert_eq!(kept, flat);
}

#[test]
fn a_stroke_built_piece_by_piece_names_only_its_own_vertices() {
    // Two pieces of three and four vertices; a triangle naming a vertex past
    // its piece is dropped whole.
    let mut flat: Vec<u32> = Vec::new();
    extend_indices(&mut flat, &[0, 1, 2, 0, 2, 5], 3, 0);
    extend_indices(&mut flat, &[0, 1, 2, 1, 2, 3, 3, 4, 0], 4, 3);
    assert_eq!(flat, vec![0, 1, 2, 3, 4, 5, 4, 5, 6]);
    assert_eq!(flat.len() % 3, 0);
    assert!(flat.iter().all(|&i| i < 7));
}
