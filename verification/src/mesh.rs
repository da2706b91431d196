//! Topology of the dart mesh that every agent instance is drawn with.
use vstd::prelude::*;

verus! {

/// Number of vertices in the dart mesh.
pub const DART_VERTEX_COUNT: usize = 7;

/// Number of indices in the dart mesh (eight triangles).
pub const DART_INDEX_COUNT: usize = 24;

/// The dart's index list, three vertex indices per triangle.
pub open spec fn dart_index_list() -> Seq<u16> {
    seq![
        0u16, 1, 3, 0, 3, 2, 0, 4, 1, 0, 2, 4, 1, 5, 3, 2, 3, 6, 1, 4, 5, 2, 6, 4,
    ]
}

/// Triangle indices of the dart mesh.
///
/// Every index names one of the `DART_VERTEX_COUNT` vertices, so the index
/// buffer never reads past the vertex buffer.
pub fn dart_indices() -> (indices: [u16; 24])
    ensures
        indices@ == dart_index_list(),
        forall|i: int| 0 <= i < indices@.len() ==> (#[trigger] indices@[i] as int) < DART_VERTEX_COUNT,
{
    let indices: [u16; 24] = [
        0, 1, 3, 0, 3, 2, 0, 4, 1, 0, 2, 4, 1, 5, 3, 2, 3, 6, 1, 4, 5, 2, 6, 4,
    ];
    assert(indices@ =~= dart_index_list());
    indices
}

} // verus!
