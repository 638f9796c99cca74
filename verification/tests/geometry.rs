use gloss_renderer::geometry::{cube_faces, duplicate_face_vertices, grid_edges, index_vertices_from_edges, plane_faces};

#[test]
fn cube_has_twelve_triangles_over_eight_corners() {
    let f = cube_faces();
    assert_eq!(f.len(), 12);
    assert_eq!(f[0], [2, 1, 0]);
    assert_eq!(f[11], [6, 1, 2]);
    assert!(f.iter().all(|t| t.iter().all(|&v| v < 8)));
}

#[test]
fn duplicated_cube_vertices() {
    let (source, faces) = duplicate_face_vertices(&cube_faces());
    assert_eq!(source.len(), 36);
    assert_eq!(faces.len(), 12);
    assert_eq!(&source[0..3], &[2, 0, 1]);
    assert_eq!(faces[0], [2, 1, 0]);
    assert_eq!(faces[1], [5, 4, 3]);
    // each new face reads through its copies as the old face turned by one corner
    let old = cube_faces();
    for (i, f) in faces.iter().enumerate() {
        let t = [source[f[0] as usize], source[f[1] as usize], source[f[2] as usize]];
        assert_eq!(t, [old[i][1], old[i][2], old[i][0]]);
    }
}

#[test]
fn duplicate_of_no_faces_is_empty() {
    let (source, faces) = duplicate_face_vertices(&Vec::new());
    assert!(source.is_empty());
    assert!(faces.is_empty());
}

#[test]
fn grid_of_three_by_two() {
    let e = grid_edges(3, 2);
    // 2 rows of 2 horizontal edges, then 3 vertical edges
    assert_eq!(e, vec![(0, 1), (1, 2), (3, 4), (4, 5), (0, 3), (1, 4), (2, 5)]);
}

#[test]
fn grid_has_at_least_two_lines_each_way() {
    assert_eq!(grid_edges(0, 1), vec![(0, 1), (2, 3), (0, 2), (1, 3)]);
    assert_eq!(grid_edges(1, 1), grid_edges(2, 2));
}

#[test]
fn grid_edges_join_neighbours() {
    let nx = 5u32;
    let ny = 4u32;
    let e = grid_edges(nx, ny);
    assert_eq!(e.len() as u32, ny * (nx - 1) + (ny - 1) * nx);
    for &(a, b) in &e {
        assert!(a < nx * ny && b < nx * ny);
        assert!(b == a + 1 && a % nx != nx - 1 || b == a + nx);
    }
    let mut sorted = e.clone();
    sorted.sort();
    sorted.dedup();
    assert_eq!(sorted.len(), e.len());
}

#[test]
fn vertices_at_edge_ends() {
    // three vertices with three coordinates each, stored row by row
    let verts: Vec<f32> = vec![0.0, 0.1, 0.2, 1.0, 1.1, 1.2, 2.0, 2.1, 2.2];
    let edges = vec![(0u32, 2u32), (2, 1)];
    let first = index_vertices_from_edges(&verts, 3, &edges, 0);
    let second = index_vertices_from_edges(&verts, 3, &edges, 1);
    assert_eq!(first, vec![0.0, 0.1, 0.2, 2.0, 2.1, 2.2]);
    assert_eq!(second, vec![2.0, 2.1, 2.2, 1.0, 1.1, 1.2]);
    assert!(index_vertices_from_edges(&verts, 3, &Vec::new(), 1).is_empty());
}

#[test]
fn plane_is_two_triangles_over_four_corners() {
    assert_eq!(plane_faces(), vec![[2, 1, 0], [3, 2, 0]]);
}

#[test]
fn rows_of_no_columns_give_nothing() {
    let edges = vec![(0u32, 1u32), (1, 0)];
    assert!(index_vertices_from_edges(&Vec::<f32>::new(), 0, &edges, 0).is_empty());
}
