use vstd::prelude::*;
use crate::mesh::{is_triangle_list, resolve, tri};

verus! {

/// The index buffer of a quad `a, b, c, d`: triangles `(a, b, c)` and `(a, c, d)`.
pub open spec fn quad_index_seq() -> Seq<u16> {
    seq![0u16, 1u16, 2u16, 0u16, 2u16, 3u16]
}

/// A quad as two triangles over its corners in the order given, as used for
/// rectangles and for line segments.
pub fn quad_mesh<V>(a: V, b: V, c: V, d: V) -> (mesh: (Vec<V>, Vec<u16>))
    ensures
        mesh.0@ == seq![a, b, c, d],
        mesh.1@ == quad_index_seq(),
        mesh.1@ == seq![0u16, 1u16, 2u16, 0u16, 2u16, 3u16],
        is_triangle_list(mesh.0@.len() as int, mesh.1@),
        resolve(mesh.0@, mesh.1@) == seq![a, b, c, a, c, d],
{
    let vertices = vec![a, b, c, d];
    let indices: Vec<u16> = vec![0, 1, 2, 0, 2, 3];
    proof {
        assert(resolve(vertices@, indices@) =~= seq![a, b, c, a, c, d]);
    }
    (vertices, indices)
}

/// Triangle `k` of a closed fan around vertex 0 with `n` rim vertices
/// `1..=n`: it joins rim vertex `k + 1` to the next one, and the last
/// triangle wraps round to rim vertex 1.
pub open spec fn fan_tri(n: int, k: int) -> (u16, u16, u16) {
    (0u16, (k + 1) as u16, if k + 1 == n { 1u16 } else { (k + 2) as u16 })
}

/// The index buffer of a triangle fan: vertex 0 is the centre, vertices
/// `1..=rim_count` lie on the rim in order, and triangle `k` is
/// `(0, k + 1, k + 2)` except the last, which closes the fan on vertex 1.
pub fn fan_indices(rim_count: u16) -> (indices: Vec<u16>)
    requires
        rim_count < u16::MAX,
    ensures
        indices@.len() == 3 * rim_count,
        forall|k: int| 0 <= k < rim_count ==> #[trigger] tri(indices@, k) == fan_tri(rim_count as int, k),
        is_triangle_list(rim_count + 1, indices@),
        forall|j: int| 0 <= j < 3 * rim_count ==> #[trigger] indices@[j] == (if j % 3 == 0 {
            0u16
        } else if j % 3 == 1 {
            (j / 3 + 1) as u16
        } else if j / 3 + 1 == rim_count {
            1u16
        } else {
            (j / 3 + 2) as u16
        }),
{
    let mut indices: Vec<u16> = Vec::new();
    let mut i: u16 = 1;
    while i <= rim_count
        invariant
            1 <= i <= rim_count + 1,
            rim_count < u16::MAX,
            indices@.len() == 3 * (i - 1),
            forall|k: int| 0 <= k < i - 1 ==> #[trigger] tri(indices@, k) == (0u16, (k + 1) as u16, (k + 2) as u16),
            forall|j: int| 0 <= j < indices@.len() - 1 ==> #[trigger] indices@[j] < i,
            i > 1 ==> indices@[indices@.len() - 1] == i,
        decreases rim_count + 1 - i,
    {
        let ghost before = indices@;
        indices.push(0);
        indices.push(i);
        indices.push(i + 1);
        proof {
            assert forall|k: int| 0 <= k < i implies #[trigger] tri(indices@, k) == (0u16, (k + 1) as u16, (k + 2) as u16) by {
                if k < i - 1 {
                    assert(tri(before, k) == (0u16, (k + 1) as u16, (k + 2) as u16));
                }
            }
        }
        i = i + 1;
    }
    let ghost raw = indices@;
    let len = indices.len();
    if len > 0 {
        indices[len - 1] = 1;
    }
    proof {
        let n = rim_count as int;
        assert forall|k: int| 0 <= k < n implies #[trigger] tri(indices@, k) == fan_tri(n, k) by {
            assert(tri(raw, k) == (0u16, (k + 1) as u16, (k + 2) as u16));
            assert(3 * k + 2 <= 3 * n - 1);
        }
        assert forall|j: int| 0 <= j < 3 * n implies #[trigger] indices@[j] == (if j % 3 == 0 {
            0u16
        } else if j % 3 == 1 {
            (j / 3 + 1) as u16
        } else if j / 3 + 1 == n {
            1u16
        } else {
            (j / 3 + 2) as u16
        }) by {
            let k = j / 3;
            assert(0 <= k < n);
            assert(j == 3 * k + j % 3);
            assert(tri(indices@, k) == fan_tri(n, k));
        }
    }
    indices
}

/// A filled disc as a closed triangle fan: the centre is vertex 0, the rim
/// points follow in order, and each pair of neighbouring rim points, the
/// last with the first included, forms a triangle with the centre.
pub fn tessellate_fan<V>(center: V, rim: Vec<V>) -> (mesh: (Vec<V>, Vec<u16>))
    requires
        rim@.len() < u16::MAX,
    ensures
        mesh.0@ == seq![center] + rim@,
        mesh.1@.len() == 3 * rim@.len(),
        forall|k: int| 0 <= k < rim@.len() ==> #[trigger] tri(mesh.1@, k) == fan_tri(rim@.len() as int, k),
        is_triangle_list(mesh.0@.len() as int, mesh.1@),
        forall|k: int| 0 <= k < rim@.len() ==> #[trigger] tri(resolve(mesh.0@, mesh.1@), k)
            == (center, rim@[k], rim@[(k + 1) % (rim@.len() as int)]),
        forall|j: int| 0 <= j < 3 * rim@.len() ==> #[trigger] mesh.1@[j] == (if j % 3 == 0 {
            0u16
        } else if j % 3 == 1 {
            (j / 3 + 1) as u16
        } else if j / 3 + 1 == rim@.len() {
            1u16
        } else {
            (j / 3 + 2) as u16
        }),
        forall|j: int| 0 <= j < 3 * rim@.len() ==> mesh.0@[#[trigger] mesh.1@[j] as int] == (if j
            % 3 == 0 {
            center
        } else if j % 3 == 1 {
            rim@[j / 3]
        } else {
            rim@[(j / 3 + 1) % (rim@.len() as int)]
        }),
{
    let ghost rim_seq = rim@;
    let rim_count = rim.len() as u16;
    let mut rim = rim;
    let mut vertices = vec![center];
    vertices.append(&mut rim);
    let indices = fan_indices(rim_count);
    proof {
        let n = rim_seq.len() as int;
        let r = resolve(vertices@, indices@);
        assert forall|k: int| 0 <= k < n implies #[trigger] tri(r, k)
            == (center, rim_seq[k], rim_seq[(k + 1) % n]) by {
            assert(tri(indices@, k) == fan_tri(n, k));
            lemma_fan_closed(n, k);
        }
        assert forall|j: int| 0 <= j < 3 * n implies vertices@[#[trigger] indices@[j] as int] == (if j
            % 3 == 0 {
            center
        } else if j % 3 == 1 {
            rim_seq[j / 3]
        } else {
            rim_seq[(j / 3 + 1) % n]
        }) by {
            let k = j / 3;
            assert(j == 3 * k + j % 3);
            assert(tri(r, k) == (center, rim_seq[k], rim_seq[(k + 1) % n]));
            assert(r[j] == vertices@[indices@[j] as int]);
        }
    }
    (vertices, indices)
}

/// A fan is closed: neighbouring triangles share a rim vertex, the third
/// corner of each triangle being the second corner of the next, and the
/// last triangle hands on to the first. Every triangle has the centre,
/// vertex 0, as its first corner.
pub proof fn lemma_fan_closed(n: int, k: int)
    requires
        0 <= k < n < u16::MAX,
    ensures
        fan_tri(n, k).0 == 0,
        fan_tri(n, k).2 == fan_tri(n, (k + 1) % n).1,
        1 <= fan_tri(n, k).1 <= n,
{
    if k + 1 == n {
        vstd::arithmetic::div_mod::lemma_mod_self_0(n);
    } else {
        vstd::arithmetic::div_mod::lemma_small_mod((k + 1) as nat, n as nat);
    }
}

/// The segments of the polyline through `start` and then `points`: segment
/// `k` runs from the `k`-th point of `[start] + points` to the next one.
pub open spec fn polyline_pair_seq<P>(start: P, points: Seq<P>) -> Seq<(P, P)> {
    let all = seq![start] + points;
    Seq::new(points.len(), |k: int| (all[k], all[k + 1]))
}

/// The consecutive pairs of `[start] + points`, one per segment of the
/// polyline that starts at `start` and visits `points` in order; a curve is
/// stroked by drawing one line quad per pair.
pub fn polyline_pairs<P: Copy>(start: P, points: Vec<P>) -> (pairs: Vec<(P, P)>)
    ensures
        pairs@ == polyline_pair_seq(start, points@),
        pairs@.len() == points@.len(),
        forall|k: int| 0 <= k < points@.len() ==> #[trigger] pairs@[k]
            == ((seq![start] + points@)[k], (seq![start] + points@)[k + 1]),
{
    let ghost all = seq![start] + points@;
    let mut pairs: Vec<(P, P)> = Vec::new();
    let mut prev = start;
    let n = points.len();
    let mut i: usize = 0;
    while i < n
        invariant
            n == points@.len(),
            all == seq![start] + points@,
            i <= n,
            prev == all[i as int],
            pairs@ =~= polyline_pair_seq(start, points@).take(i as int),
        decreases n - i,
    {
        let p = points[i];
        pairs.push((prev, p));
        prev = p;
        i = i + 1;
    }
    proof {
        lemma_polyline_pairs_exact(start, points@);
    }
    pairs
}

/// The polyline through `start` and `points` has one segment per point,
/// and segment `k` runs from the `k`-th to the `(k + 1)`-th point of
/// `[start] + points`: no point is skipped, repeated or reordered.
pub proof fn lemma_polyline_pairs_exact<P>(start: P, points: Seq<P>)
    ensures
        polyline_pair_seq(start, points).len() == points.len(),
        forall|k: int| 0 <= k < points.len() ==> #[trigger] polyline_pair_seq(start, points)[k]
            == ((seq![start] + points)[k], (seq![start] + points)[k + 1]),
{
}

/// The segments of a polyline join up: the first starts at `start`, each
/// ends where the next begins, and the last ends at the last point.
pub proof fn lemma_polyline_connected<P>(start: P, points: Seq<P>)
    requires
        points.len() > 0,
    ensures
        polyline_pair_seq(start, points)[0].0 == start,
        polyline_pair_seq(start, points).last().1 == points.last(),
        forall|k: int| 0 <= k < points.len() - 1 ==>
            (#[trigger] polyline_pair_seq(start, points)[k]).1 == polyline_pair_seq(start, points)[k + 1].0,
{
}

} // verus!
