use wgpu_renderer::assemble::{append_mesh, join_meshes, parts_fit};
use wgpu_renderer::shapes::{fan_indices, polyline_pairs, quad_mesh, tessellate_fan};

fn resolve<V: Copy>(vertices: &[V], indices: &[u16]) -> Vec<V> {
    indices.iter().map(|&i| vertices[i as usize]).collect()
}

fn is_triangle_list(vertex_count: usize, indices: &[u16]) -> bool {
    indices.len() % 3 == 0 && indices.iter().all(|&i| (i as usize) < vertex_count)
}

#[test]
fn quad_has_two_triangles_over_its_corners() {
    let (v, i) = quad_mesh('a', 'b', 'c', 'd');
    assert_eq!(v, vec!['a', 'b', 'c', 'd']);
    assert_eq!(i, vec![0, 1, 2, 0, 2, 3]);
    assert_eq!(resolve(&v, &i), vec!['a', 'b', 'c', 'a', 'c', 'd']);
    assert!(is_triangle_list(v.len(), &i));
}

#[test]
fn fan_of_three_closes_on_first_rim_vertex() {
    assert_eq!(fan_indices(3), vec![0, 1, 2, 0, 2, 3, 0, 3, 1]);
}

#[test]
fn fan_of_one_is_degenerate_triangle() {
    assert_eq!(fan_indices(1), vec![0, 1, 1]);
}

#[test]
fn fan_of_zero_is_empty() {
    assert!(fan_indices(0).is_empty());
}

#[test]
fn largest_fan_stays_in_range() {
    let n: u16 = u16::MAX - 1;
    let ind = fan_indices(n);
    assert_eq!(ind.len(), 3 * n as usize);
    assert_eq!(*ind.last().unwrap(), 1);
    assert_eq!(ind[ind.len() - 2], n);
    assert!(is_triangle_list(n as usize + 1, &ind));
}

#[test]
fn tessellated_fan_pairs_neighbouring_rim_points_with_centre() {
    let (v, i) = tessellate_fan(0u32, vec![10u32, 20, 30, 40]);
    assert_eq!(v, vec![0, 10, 20, 30, 40]);
    assert!(is_triangle_list(v.len(), &i));
    assert_eq!(
        resolve(&v, &i),
        vec![0, 10, 20, 0, 20, 30, 0, 30, 40, 0, 40, 10]
    );
}

#[test]
fn append_moves_indices_past_existing_vertices() {
    let (mut v, mut i) = quad_mesh(1u8, 2, 3, 4);
    append_mesh(&mut v, &mut i, vec![5u8, 6, 7], vec![0, 1, 2]);
    assert_eq!(v, vec![1, 2, 3, 4, 5, 6, 7]);
    assert_eq!(i, vec![0, 1, 2, 0, 2, 3, 4, 5, 6]);
}

#[test]
fn append_to_empty_keeps_indices() {
    let mut v: Vec<u8> = Vec::new();
    let mut i: Vec<u16> = Vec::new();
    append_mesh(&mut v, &mut i, vec![9u8, 8, 7], vec![2, 1, 0]);
    assert_eq!(v, vec![9, 8, 7]);
    assert_eq!(i, vec![2, 1, 0]);
}

#[test]
fn append_offset_wraps_past_u16_vertex_count() {
    let mut v: Vec<u8> = vec![0; 65536];
    let mut i: Vec<u16> = Vec::new();
    append_mesh(&mut v, &mut i, vec![1u8, 2, 3], vec![0, 1, 2]);
    assert_eq!(v.len(), 65539);
    assert_eq!(i, vec![0, 1, 2]);
}

#[test]
fn join_packs_parts_in_order() {
    let quad = quad_mesh(1u32, 2, 3, 4);
    let fan = tessellate_fan(10u32, vec![11, 12, 13]);
    let line = quad_mesh(21u32, 22, 23, 24);
    let (v, i) = join_meshes(vec![quad.clone(), fan.clone(), line.clone()]);
    assert_eq!(v, vec![1, 2, 3, 4, 10, 11, 12, 13, 21, 22, 23, 24]);
    assert_eq!(
        i,
        vec![0, 1, 2, 0, 2, 3, 4, 5, 6, 4, 6, 7, 4, 7, 5, 8, 9, 10, 8, 10, 11]
    );
    assert!(is_triangle_list(v.len(), &i));
    let mut corners = resolve(&quad.0, &quad.1);
    corners.extend(resolve(&fan.0, &fan.1));
    corners.extend(resolve(&line.0, &line.1));
    assert_eq!(resolve(&v, &i), corners);
}

#[test]
fn join_of_nothing_is_empty() {
    let (v, i) = join_meshes::<u32>(Vec::new());
    assert!(v.is_empty());
    assert!(i.is_empty());
}

#[test]
fn join_of_one_part_is_that_part() {
    let fan = tessellate_fan(5u16, vec![6, 7]);
    let joined = join_meshes(vec![fan.clone()]);
    assert_eq!(joined, fan);
}

#[test]
fn join_skips_empty_parts() {
    let empty: (Vec<u32>, Vec<u16>) = (Vec::new(), Vec::new());
    let quad = quad_mesh(1u32, 2, 3, 4);
    let (v, i) = join_meshes(vec![empty.clone(), quad.clone(), empty, quad]);
    assert_eq!(v, vec![1, 2, 3, 4, 1, 2, 3, 4]);
    assert_eq!(i, vec![0, 1, 2, 0, 2, 3, 4, 5, 6, 4, 6, 7]);
}

#[test]
fn join_reaches_last_u16_index() {
    let filler: (Vec<u8>, Vec<u16>) = (vec![0; 65532], Vec::new());
    let quad = quad_mesh(1u8, 2, 3, 4);
    let (v, i) = join_meshes(vec![filler, quad]);
    assert_eq!(v.len(), 65536);
    assert_eq!(i, vec![65532, 65533, 65534, 65532, 65534, 65535]);
    assert_eq!(resolve(&v, &i), vec![1, 2, 3, 1, 3, 4]);
}

#[test]
fn polyline_pairs_start_at_start_and_chain() {
    let pairs = polyline_pairs(0u8, vec![1, 2, 3]);
    assert_eq!(pairs, vec![(0, 1), (1, 2), (2, 3)]);
}

#[test]
fn polyline_of_one_point_is_one_segment() {
    assert_eq!(polyline_pairs([0i32, 0], vec![[5, 7]]), vec![([0, 0], [5, 7])]);
}

#[test]
fn polyline_without_points_has_no_segments() {
    assert!(polyline_pairs(9u8, Vec::new()).is_empty());
}

#[test]
fn stroked_polyline_is_one_quad_per_segment() {
    let parts: Vec<(Vec<(u8, u8)>, Vec<u16>)> = polyline_pairs(0u8, vec![1, 2, 3])
        .into_iter()
        .map(|(a, b)| quad_mesh((a, 0), (b, 0), (b, 1), (a, 1)))
        .collect();
    assert!(parts_fit(&parts));
    let (v, i) = join_meshes(parts);
    assert_eq!(v.len(), 12);
    assert_eq!(i, vec![0, 1, 2, 0, 2, 3, 4, 5, 6, 4, 6, 7, 8, 9, 10, 8, 10, 11]);
}

#[test]
fn parts_fit_accepts_last_u16_index() {
    let filler: (Vec<u8>, Vec<u16>) = (vec![0; 65532], Vec::new());
    let quad = quad_mesh(1u8, 2, 3, 4);
    assert!(parts_fit(&vec![filler, quad]));
}

#[test]
fn parts_fit_rejects_overflowing_index() {
    let filler: (Vec<u8>, Vec<u16>) = (vec![0; 65533], Vec::new());
    let quad = quad_mesh(1u8, 2, 3, 4);
    assert!(!parts_fit(&vec![filler, quad]));
}

#[test]
fn parts_fit_wraps_vertex_count_past_u16() {
    let filler: (Vec<u8>, Vec<u16>) = (vec![0; 65536], Vec::new());
    let quad = quad_mesh(1u8, 2, 3, 4);
    assert!(parts_fit(&vec![filler, quad]));
}

#[test]
fn parts_fit_of_nothing() {
    assert!(parts_fit::<u8>(&Vec::new()));
}

#[test]
fn stroke_with_zero_length_segment_shifts_by_exact_vertex_count() {
    let parts: Vec<(Vec<(u8, u8)>, Vec<u16>)> = polyline_pairs(0u8, vec![1, 1, 2])
        .into_iter()
        .map(|(a, b)| {
            if a == b {
                (Vec::new(), Vec::new())
            } else {
                quad_mesh((a, 0), (b, 0), (b, 1), (a, 1))
            }
        })
        .collect();
    assert!(parts_fit(&parts));
    let (v, i) = join_meshes(parts);
    assert_eq!(v, vec![(0, 0), (1, 0), (1, 1), (0, 1), (1, 0), (2, 0), (2, 1), (1, 1)]);
    assert_eq!(i, vec![0, 1, 2, 0, 2, 3, 4, 5, 6, 4, 6, 7]);
}
