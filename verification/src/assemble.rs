use vstd::prelude::*;
use crate::mesh::{is_triangle_list, resolve, shifted, wrap16};
use crate::shapes::polyline_pair_seq;

verus! {

/// The vertex buffer and index buffer of each part, as values.
pub open spec fn part_views<V>(parts: Seq<(Vec<V>, Vec<u16>)>) -> Seq<(Seq<V>, Seq<u16>)> {
    Seq::new(parts.len(), |k: int| (parts[k].0@, parts[k].1@))
}

/// The vertex buffers of the parts, one after the other.
pub open spec fn joined_vertices<V>(parts: Seq<(Seq<V>, Seq<u16>)>) -> Seq<V>
    decreases parts.len(),
{
    if parts.len() == 0 {
        Seq::empty()
    } else {
        joined_vertices(parts.drop_last()) + parts.last().0
    }
}

/// The index buffers of the parts, one after the other, each moved up by
/// the number of vertices before its part, wrapped to a `u16`.
pub open spec fn joined_indices<V>(parts: Seq<(Seq<V>, Seq<u16>)>) -> Seq<u16>
    decreases parts.len(),
{
    if parts.len() == 0 {
        Seq::empty()
    } else {
        joined_indices(parts.drop_last()) + shifted(
            parts.last().1,
            wrap16(joined_vertices(parts.drop_last()).len() as int),
        )
    }
}

/// The corners each part draws, one part after the other.
pub open spec fn joined_corners<V>(parts: Seq<(Seq<V>, Seq<u16>)>) -> Seq<V>
    decreases parts.len(),
{
    if parts.len() == 0 {
        Seq::empty()
    } else {
        joined_corners(parts.drop_last()) + resolve(parts.last().0, parts.last().1)
    }
}

/// No index of any part overflows a `u16` when it is moved up by the number
/// of vertices before its part.
pub open spec fn join_fits<V>(parts: Seq<(Seq<V>, Seq<u16>)>) -> bool {
    forall|k: int, j: int|
        0 <= k < parts.len() && 0 <= j < parts[k].1.len() ==>
            (#[trigger] parts[k].1[j]) + (wrap16(joined_vertices(parts.take(k)).len() as int)) <= u16::MAX
}

/// Appends one mesh to another: the vertices of `v` follow those already in
/// `vertices`, and each index of `ind` is moved up by the number of vertices
/// that were there before, wrapped to a `u16` as a cast to `u16` does.
pub fn append_mesh<V>(vertices: &mut Vec<V>, indices: &mut Vec<u16>, v: Vec<V>, ind: Vec<u16>)
    requires
        forall|j: int| 0 <= j < ind@.len() ==>
            (#[trigger] ind@[j]) + (wrap16(old(vertices)@.len() as int)) <= u16::MAX,
    ensures
        final(vertices)@ == old(vertices)@ + v@,
        final(indices)@ == old(indices)@ + shifted(ind@, wrap16(old(vertices)@.len() as int)),
        final(indices)@.len() == old(indices)@.len() + ind@.len(),
        forall|j: int| 0 <= j < old(indices)@.len() ==> #[trigger] final(indices)@[j] == old(indices)@[j],
        forall|j: int| 0 <= j < ind@.len() ==> final(indices)@[old(indices)@.len() + j] as int
            == (#[trigger] ind@[j]) + old(vertices)@.len() % 65536,
{
    let offset = (vertices.len() % 65536) as u16;
    let ghost start = indices@;
    let n = ind.len();
    let mut j: usize = 0;
    while j < n
        invariant
            n == ind@.len(),
            j <= n,
            offset == wrap16(old(vertices)@.len() as int),
            forall|i: int| 0 <= i < ind@.len() ==> (#[trigger] ind@[i]) + offset <= u16::MAX,
            indices@ == start + shifted(ind@, offset).take(j as int),
        decreases n - j,
    {
        indices.push(ind[j] + offset);
        proof {
            assert(shifted(ind@, offset).take(j + 1) =~= shifted(ind@, offset).take(j as int).push(
                (ind@[j as int] + offset) as u16,
            ));
        }
        j = j + 1;
    }
    proof {
        assert(shifted(ind@, offset).take(n as int) =~= shifted(ind@, offset));
    }
    let mut v = v;
    vertices.append(&mut v);
}

/// Packs several meshes into one pair of buffers, in order: the vertices of
/// all parts one after the other, and each part's indices moved up by the
/// number of vertices before it, so that they still name that part's
/// vertices.
pub fn join_meshes<V>(parts: Vec<(Vec<V>, Vec<u16>)>) -> (mesh: (Vec<V>, Vec<u16>))
    requires
        join_fits(part_views(parts@)),
    ensures
        mesh.0@ == joined_vertices(part_views(parts@)),
        mesh.1@ == joined_indices(part_views(parts@)),
        mesh.0@.len() == parts@.fold_left(0int, |n: int, p: (Vec<V>, Vec<u16>)| n + p.0@.len()),
        mesh.1@.len() == parts@.fold_left(0int, |n: int, p: (Vec<V>, Vec<u16>)| n + p.1@.len()),
        forall|k: int, i: int|
            0 <= k < parts@.len() && 0 <= i < parts@[k].0@.len() ==> mesh.0@[parts@.take(k).fold_left(
                0int,
                |n: int, p: (Vec<V>, Vec<u16>)| n + p.0@.len(),
            ) + i] == #[trigger] parts@[k].0@[i],
        forall|k: int, j: int|
            0 <= k < parts@.len() && 0 <= j < parts@[k].1@.len() ==> mesh.1@[parts@.take(k).fold_left(
                0int,
                |n: int, p: (Vec<V>, Vec<u16>)| n + p.1@.len(),
            ) + j] as int == (#[trigger] parts@[k].1@[j]) + parts@.take(k).fold_left(
                0int,
                |n: int, p: (Vec<V>, Vec<u16>)| n + p.0@.len(),
            ) % 65536,
{
    let ghost ps = part_views(parts@);
    let ghost pv = parts@;
    let mut vertices: Vec<V> = Vec::new();
    let mut indices: Vec<u16> = Vec::new();
    for part in it: parts.into_iter()
        invariant
            it.seq() == parts@,
            ps == part_views(parts@),
            join_fits(ps),
            vertices@ == joined_vertices(ps.take(it.index() as int)),
            indices@ == joined_indices(ps.take(it.index() as int)),
    {
        let ghost k = it.index() as int;
        let (v, ind) = part;
        proof {
            assert(ps.take(k + 1).drop_last() =~= ps.take(k));
            assert forall|j: int| 0 <= j < ind@.len() implies
                (#[trigger] ind@[j]) + (wrap16(vertices@.len() as int)) <= u16::MAX by {
                assert(ps[k].1[j] == ind@[j]);
            }
        }
        append_mesh(&mut vertices, &mut indices, v, ind);
    }
    proof {
        assert(ps.take(ps.len() as int) =~= ps);
        lemma_join_layout(ps);
        lemma_part_counts(pv);
        assert forall|k: int, i: int|
            0 <= k < pv.len() && 0 <= i < pv[k].0@.len() implies vertices@[pv.take(k).fold_left(
                0int,
                |n: int, p: (Vec<V>, Vec<u16>)| n + p.0@.len(),
            ) + i] == #[trigger] pv[k].0@[i] by {
            lemma_part_counts(pv.take(k));
            assert(part_views(pv.take(k)) =~= ps.take(k));
            assert(ps[k].0[i] == pv[k].0@[i]);
        }
        assert forall|k: int, j: int|
            0 <= k < pv.len() && 0 <= j < pv[k].1@.len() implies indices@[pv.take(k).fold_left(
                0int,
                |n: int, p: (Vec<V>, Vec<u16>)| n + p.1@.len(),
            ) + j] as int == (#[trigger] pv[k].1@[j]) + pv.take(k).fold_left(
                0int,
                |n: int, p: (Vec<V>, Vec<u16>)| n + p.0@.len(),
            ) % 65536 by {
            lemma_part_counts(pv.take(k));
            assert(part_views(pv.take(k)) =~= ps.take(k));
            assert(ps[k].1[j] == pv[k].1@[j]);
            assert(ps[k].1[j] + wrap16(joined_vertices(ps.take(k)).len() as int) <= u16::MAX);
        }
    }
    (vertices, indices)
}

/// Appending a mesh to another draws exactly the triangles of the first
/// followed by those of the second, and the result is again a triangle list,
/// provided both are triangle lists and together they have at most 65536
/// vertices (every vertex can then be named by a `u16`). No index overflows
/// on the way.
pub proof fn lemma_append_draws_both<V>(va: Seq<V>, ia: Seq<u16>, vb: Seq<V>, ib: Seq<u16>)
    requires
        is_triangle_list(va.len() as int, ia),
        is_triangle_list(vb.len() as int, ib),
        va.len() + vb.len() <= u16::MAX + 1,
    ensures
        forall|j: int| 0 <= j < ib.len() ==> (#[trigger] ib[j]) + (wrap16(va.len() as int)) <= u16::MAX,
        is_triangle_list((va.len() + vb.len()) as int, ia + shifted(ib, wrap16(va.len() as int))),
        resolve(va + vb, ia + shifted(ib, wrap16(va.len() as int))) == resolve(va, ia) + resolve(vb, ib),
{
    let offset = wrap16(va.len() as int);
    let ic = ia + shifted(ib, offset);
    if ib.len() > 0 {
        assert(ib[0] < vb.len());
        assert(offset == va.len());
    }
    assert forall|j: int| 0 <= j < ib.len() implies (#[trigger] ib[j]) + (wrap16(va.len() as int)) <= u16::MAX by {
        assert(ib[j] < vb.len());
        assert(offset == va.len());
    }
    assert forall|j: int| 0 <= j < ic.len() implies (#[trigger] ic[j]) < va.len() + vb.len() by {
        if j >= ia.len() {
            assert(ib[j - ia.len()] < vb.len());
            assert(ic[j] == ib[j - ia.len()] + va.len());
        }
    }
    assert(ic.len() % 3 == 0) by {
        vstd::arithmetic::div_mod::lemma_mod_adds(ia.len() as int, ib.len() as int, 3);
    }
    assert(resolve(va + vb, ic) =~= resolve(va, ia) + resolve(vb, ib)) by {
        assert forall|j: int| 0 <= j < ic.len() implies #[trigger] resolve(va + vb, ic)[j]
            == (resolve(va, ia) + resolve(vb, ib))[j] by {
            if j < ia.len() {
                assert(ia[j] < va.len());
            } else {
                let jb = j - ia.len();
                assert(ib[jb] < vb.len());
                assert(ic[j] == ib[jb] + va.len());
            }
        }
    }
}

/// Joining meshes that are each a triangle list, with at most 65536
/// vertices in all, never overflows an index, yields a triangle list over
/// all their vertices, and draws exactly the triangles of the parts, part
/// after part.
pub proof fn lemma_join_draws_parts<V>(parts: Seq<(Seq<V>, Seq<u16>)>)
    requires
        forall|k: int| 0 <= k < parts.len() ==> is_triangle_list(
            (#[trigger] parts[k]).0.len() as int,
            parts[k].1,
        ),
        joined_vertices(parts).len() <= u16::MAX + 1,
    ensures
        join_fits(parts),
        is_triangle_list(joined_vertices(parts).len() as int, joined_indices(parts)),
        resolve(joined_vertices(parts), joined_indices(parts)) == joined_corners(parts),
    decreases parts.len(),
{
    if parts.len() == 0 {
        assert(resolve(joined_vertices(parts), joined_indices(parts)) =~= joined_corners(parts));
    } else {
        let init = parts.drop_last();
        let last = parts.last();
        assert forall|k: int| 0 <= k < init.len() implies is_triangle_list(
            (#[trigger] init[k]).0.len() as int,
            init[k].1,
        ) by {
            assert(init[k] == parts[k]);
        }
        lemma_join_draws_parts(init);
        assert(is_triangle_list(last.0.len() as int, last.1));
        lemma_append_draws_both(joined_vertices(init), joined_indices(init), last.0, last.1);
        assert forall|k: int, j: int|
            0 <= k < parts.len() && 0 <= j < parts[k].1.len() implies
                (#[trigger] parts[k].1[j]) + (wrap16(joined_vertices(parts.take(k)).len() as int))
                    <= u16::MAX by {
            if k < init.len() {
                assert(parts.take(k) =~= init.take(k));
                assert(parts[k] == init[k]);
                assert(init[k].1[j] + (wrap16(joined_vertices(init.take(k)).len() as int)) <= u16::MAX);
            } else {
                assert(parts.take(k) =~= init);
                assert(last.1[j] + (wrap16(joined_vertices(init).len() as int)) <= u16::MAX);
            }
        }
    }
}

/// Whether `join_meshes` may be called on `parts`: no index of any part
/// overflows a `u16` when moved up by the vertex count before its part.
pub fn parts_fit<V>(parts: &Vec<(Vec<V>, Vec<u16>)>) -> (ok: bool)
    ensures
        ok == join_fits(part_views(parts@)),
        ok == (forall|k: int, j: int|
            0 <= k < parts@.len() && 0 <= j < parts@[k].1@.len() ==> (#[trigger] parts@[k].1@[j])
                + parts@.take(k).fold_left(0int, |n: int, p: (Vec<V>, Vec<u16>)| n + p.0@.len()) % 65536
                <= u16::MAX),
{
    let ghost ps = part_views(parts@);
    let n = parts.len();
    let mut offset: u16 = 0;
    let mut k: usize = 0;
    proof {
        assert(ps.take(0) =~= Seq::<(Seq<V>, Seq<u16>)>::empty());
    }
    while k < n
        invariant
            n == parts@.len(),
            ps == part_views(parts@),
            k <= n,
            offset == wrap16(joined_vertices(ps.take(k as int)).len() as int),
            forall|k2: int, j: int|
                0 <= k2 < k && 0 <= j < ps[k2].1.len() ==>
                    (#[trigger] ps[k2].1[j]) + wrap16(joined_vertices(ps.take(k2)).len() as int)
                        <= u16::MAX,
        decreases n - k,
    {
        let ind = &parts[k].1;
        let m = ind.len();
        let mut j: usize = 0;
        while j < m
            invariant
                n == parts@.len(),
                ps == part_views(parts@),
                k < n,
                offset == wrap16(joined_vertices(ps.take(k as int)).len() as int),
                m == ind@.len(),
                ind@ == ps[k as int].1,
                j <= m,
                forall|j2: int| 0 <= j2 < j ==> (#[trigger] ind@[j2]) + offset <= u16::MAX,
            decreases m - j,
        {
            if ind[j] > u16::MAX - offset {
                proof {
                    assert(ps[k as int].1[j as int] + wrap16(
                        joined_vertices(ps.take(k as int)).len() as int,
                    ) > u16::MAX);
                }
                proof {
                    lemma_join_fits_exact(parts@);
                    assert(!join_fits(ps));
                }
                return false;
            }
            j = j + 1;
        }
        let len = parts[k].0.len();
        proof {
            let before = joined_vertices(ps.take(k as int)).len() as int;
            assert(ps.take(k + 1).drop_last() =~= ps.take(k as int));
            assert(ps.take(k + 1).last() == ps[k as int]);
            vstd::arithmetic::div_mod::lemma_add_mod_noop(before, len as int, 65536);
            assert forall|k2: int, j2: int|
                0 <= k2 < k + 1 && 0 <= j2 < ps[k2].1.len() implies
                    (#[trigger] ps[k2].1[j2]) + wrap16(joined_vertices(ps.take(k2)).len() as int)
                        <= u16::MAX by {
                if k2 == k {
                    assert(ps[k2].1[j2] == ind@[j2]);
                }
            }
        }
        offset = ((offset as usize + len % 65536) % 65536) as u16;
        k = k + 1;
    }
    proof {
        assert(ps.len() == n);
    }
    proof {
        lemma_join_fits_exact(parts@);
    }
    true
}

/// The parts before part `k` hold no more vertices than all parts, and
/// their joined indices are the start of the joined indices of all parts.
pub proof fn lemma_join_prefix<V>(parts: Seq<(Seq<V>, Seq<u16>)>, k: int)
    requires
        0 <= k <= parts.len(),
    ensures
        joined_vertices(parts.take(k)).len() <= joined_vertices(parts).len(),
        joined_indices(parts.take(k)).len() <= joined_indices(parts).len(),
        joined_indices(parts).subrange(0, joined_indices(parts.take(k)).len() as int)
            == joined_indices(parts.take(k)),
        joined_vertices(parts).subrange(0, joined_vertices(parts.take(k)).len() as int)
            == joined_vertices(parts.take(k)),
    decreases parts.len(),
{
    if k == parts.len() {
        assert(parts.take(k) =~= parts);
        assert(joined_indices(parts).subrange(0, joined_indices(parts).len() as int)
            =~= joined_indices(parts));
        assert(joined_vertices(parts).subrange(0, joined_vertices(parts).len() as int)
            =~= joined_vertices(parts));
    } else {
        let init = parts.drop_last();
        assert(parts.take(k) =~= init.take(k));
        lemma_join_prefix(init, k);
        let m = joined_indices(init.take(k)).len() as int;
        assert(joined_indices(parts).subrange(0, m) =~= joined_indices(init).subrange(0, m));
        let mv = joined_vertices(init.take(k)).len() as int;
        assert(joined_vertices(parts).subrange(0, mv) =~= joined_vertices(init).subrange(0, mv));
    }
}

/// Where each part lands in the joined buffers: vertex `i` of part `k`
/// follows the vertices of the parts before it, and index `j` of part `k`
/// follows their indices, moved up by their vertex count wrapped to 16 bits.
pub proof fn lemma_join_layout<V>(parts: Seq<(Seq<V>, Seq<u16>)>)
    ensures
        forall|k: int, i: int|
            0 <= k < parts.len() && 0 <= i < parts[k].0.len() ==>
                joined_vertices(parts)[joined_vertices(parts.take(k)).len() + i]
                    == #[trigger] parts[k].0[i],
        forall|k: int, j: int|
            0 <= k < parts.len() && 0 <= j < parts[k].1.len() ==>
                joined_indices(parts)[joined_indices(parts.take(k)).len() + j]
                    == ((#[trigger] parts[k].1[j]) + wrap16(
                    joined_vertices(parts.take(k)).len() as int,
                )) as u16,
{
    assert forall|k: int, i: int|
        0 <= k < parts.len() && 0 <= i < parts[k].0.len() implies
            joined_vertices(parts)[joined_vertices(parts.take(k)).len() + i]
                == #[trigger] parts[k].0[i] by {
        lemma_join_prefix(parts, k + 1);
        let pre = parts.take(k + 1);
        assert(pre.drop_last() =~= parts.take(k));
        assert(pre.last() == parts[k]);
        let p = joined_vertices(parts.take(k)).len() + i;
        assert(joined_vertices(parts)[p] == joined_vertices(parts).subrange(
            0,
            joined_vertices(pre).len() as int,
        )[p]);
    }
    assert forall|k: int, j: int|
        0 <= k < parts.len() && 0 <= j < parts[k].1.len() implies
            joined_indices(parts)[joined_indices(parts.take(k)).len() + j]
                == ((#[trigger] parts[k].1[j]) + wrap16(
                joined_vertices(parts.take(k)).len() as int,
            )) as u16 by {
        lemma_join_prefix(parts, k + 1);
        let pre = parts.take(k + 1);
        assert(pre.drop_last() =~= parts.take(k));
        assert(pre.last() == parts[k]);
        let p = joined_indices(parts.take(k)).len() + j;
        assert(joined_indices(parts)[p] == joined_indices(parts).subrange(
            0,
            joined_indices(pre).len() as int,
        )[p]);
    }
}

/// The joined buffers are as long as the parts' vertex and index buffers
/// together.
pub proof fn lemma_part_counts<V>(parts: Seq<(Vec<V>, Vec<u16>)>)
    ensures
        joined_vertices(part_views(parts)).len() == parts.fold_left(
            0int,
            |n: int, p: (Vec<V>, Vec<u16>)| n + p.0@.len(),
        ),
        joined_indices(part_views(parts)).len() == parts.fold_left(
            0int,
            |n: int, p: (Vec<V>, Vec<u16>)| n + p.1@.len(),
        ),
    decreases parts.len(),
{
    if parts.len() > 0 {
        lemma_part_counts(parts.drop_last());
        assert(part_views(parts).drop_last() =~= part_views(parts.drop_last()));
    }
}

/// When the parts are triangle lists with at most 65536 vertices in all,
/// the joined indices of each part are its own indices moved up by exactly
/// the number of vertices before it, with no wrapping.
pub proof fn lemma_join_exact_offsets<V>(parts: Seq<(Seq<V>, Seq<u16>)>)
    requires
        forall|k: int| 0 <= k < parts.len() ==> is_triangle_list(
            (#[trigger] parts[k]).0.len() as int,
            parts[k].1,
        ),
        joined_vertices(parts).len() <= u16::MAX + 1,
    ensures
        forall|k: int, j: int|
            0 <= k < parts.len() && 0 <= j < parts[k].1.len() ==>
                joined_indices(parts)[joined_indices(parts.take(k)).len() + j] as int
                    == (#[trigger] parts[k].1[j]) + joined_vertices(parts.take(k)).len(),
{
    assert forall|k: int, j: int|
        0 <= k < parts.len() && 0 <= j < parts[k].1.len() implies
            joined_indices(parts)[joined_indices(parts.take(k)).len() + j] as int
                == (#[trigger] parts[k].1[j]) + joined_vertices(parts.take(k)).len() by {
        lemma_join_prefix(parts, k + 1);
        let pre = parts.take(k + 1);
        assert(pre.drop_last() =~= parts.take(k));
        assert(pre.last() == parts[k]);
        assert(is_triangle_list(parts[k].0.len() as int, parts[k].1));
        let o = joined_vertices(parts.take(k)).len();
        assert(parts[k].1[j] < parts[k].0.len());
        vstd::arithmetic::div_mod::lemma_small_mod(o, 65536);
        let p = joined_indices(parts.take(k)).len() + j;
        assert(joined_indices(parts)[p] == joined_indices(parts).subrange(
            0,
            joined_indices(pre).len() as int,
        )[p]);
    }
}

/// A bound on the vertex count of joined parts of at most `m` vertices each.
pub proof fn lemma_joined_vertex_bound<V>(parts: Seq<(Seq<V>, Seq<u16>)>, m: nat)
    requires
        forall|k: int| 0 <= k < parts.len() ==> (#[trigger] parts[k]).0.len() <= m,
    ensures
        joined_vertices(parts).len() <= m * parts.len(),
    decreases parts.len(),
{
    if parts.len() > 0 {
        let init = parts.drop_last();
        assert forall|k: int| 0 <= k < init.len() implies (#[trigger] init[k]).0.len() <= m by {
            assert(init[k] == parts[k]);
        }
        lemma_joined_vertex_bound(init, m);
        let l = init.len();
        assert(m * l + m == m * (l + 1)) by (nonlinear_arith);
    }
}

/// A stroked polyline: with one part per segment of the polyline through
/// `start` and `points`, each part a triangle list of at most four vertices
/// (a line quad, or nothing for a zero-length segment), and at most 16384
/// segments, joining the parts never overflows an index, yields a triangle
/// list that draws exactly the parts' triangles segment after segment, and
/// moves each part's indices up by exactly the number of vertices before it.
pub proof fn lemma_stroke_layout<P, V>(
    start: P,
    points: Seq<P>,
    parts: Seq<(Seq<V>, Seq<u16>)>,
)
    requires
        parts.len() == polyline_pair_seq(start, points).len(),
        points.len() <= 16384,
        forall|k: int| 0 <= k < parts.len() ==> (#[trigger] parts[k]).0.len() <= 4
            && is_triangle_list(parts[k].0.len() as int, parts[k].1),
    ensures
        join_fits(parts),
        is_triangle_list(joined_vertices(parts).len() as int, joined_indices(parts)),
        resolve(joined_vertices(parts), joined_indices(parts)) == joined_corners(parts),
        forall|k: int, j: int|
            0 <= k < parts.len() && 0 <= j < parts[k].1.len() ==>
                joined_indices(parts)[joined_indices(parts.take(k)).len() + j] as int
                    == (#[trigger] parts[k].1[j]) + joined_vertices(parts.take(k)).len(),
{
    lemma_joined_vertex_bound(parts, 4);
    assert forall|k: int| 0 <= k < parts.len() implies is_triangle_list(
        (#[trigger] parts[k]).0.len() as int,
        parts[k].1,
    ) by {}
    lemma_join_draws_parts(parts);
    lemma_join_exact_offsets(parts);
}

/// `join_fits` says exactly this of the parts: for every part `k` and
/// every index `j` of it, the index plus the number of vertices in the parts
/// before `k`, wrapped to 16 bits, is at most `u16::MAX`.
pub proof fn lemma_join_fits_exact<V>(parts: Seq<(Vec<V>, Vec<u16>)>)
    ensures
        join_fits(part_views(parts)) <==> (forall|k: int, j: int|
            0 <= k < parts.len() && 0 <= j < parts[k].1@.len() ==> (#[trigger] parts[k].1@[j])
                + parts.take(k).fold_left(0int, |n: int, p: (Vec<V>, Vec<u16>)| n + p.0@.len())
                % 65536 <= u16::MAX),
{
    let ps = part_views(parts);
    if join_fits(ps) {
        assert forall|k: int, j: int|
            0 <= k < parts.len() && 0 <= j < parts[k].1@.len() implies (#[trigger] parts[k].1@[j])
                + parts.take(k).fold_left(0int, |n: int, p: (Vec<V>, Vec<u16>)| n + p.0@.len())
                % 65536 <= u16::MAX by {
            lemma_part_counts(parts.take(k));
            assert(part_views(parts.take(k)) =~= ps.take(k));
            assert(ps[k].1[j] == parts[k].1@[j]);
        }
    } else {
        let (k, j) = choose|k: int, j: int|
            0 <= k < ps.len() && 0 <= j < ps[k].1.len() && !((#[trigger] ps[k].1[j]) + wrap16(
                joined_vertices(ps.take(k)).len() as int,
            ) <= u16::MAX);
        lemma_part_counts(parts.take(k));
        assert(part_views(parts.take(k)) =~= ps.take(k));
        assert(ps[k].1[j] == parts[k].1@[j]);
    }
}

} // verus!
