use vstd::prelude::*;

verus! {

/// `indices` describes whole triangles, each corner naming one of the first
/// `vertex_count` vertices.
pub open spec fn is_triangle_list(vertex_count: int, indices: Seq<u16>) -> bool {
    &&& indices.len() % 3 == 0
    &&& forall|j: int| 0 <= j < indices.len() ==> (#[trigger] indices[j]) < vertex_count
}

/// Triangle `k` of a triangle list (of indices, or of the corners they
/// resolve to): its three entries in order.
pub open spec fn tri<T>(s: Seq<T>, k: int) -> (T, T, T) {
    (s[3 * k], s[3 * k + 1], s[3 * k + 2])
}

/// The corners that an index buffer draws: each index replaced by the vertex
/// it names.
pub open spec fn resolve<V>(vertices: Seq<V>, indices: Seq<u16>) -> Seq<V> {
    Seq::new(indices.len(), |j: int| vertices[indices[j] as int])
}

/// A count wrapped to 16 bits, as a cast to `u16` does.
pub open spec fn wrap16(n: int) -> u16 {
    (n % 65536) as u16
}

/// Every index moved up by `offset`, the sum taken as a `u16`.
pub open spec fn shifted(indices: Seq<u16>, offset: u16) -> Seq<u16> {
    Seq::new(indices.len(), |j: int| (indices[j] + offset) as u16)
}

} // verus!
