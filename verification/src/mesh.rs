use vstd::prelude::*;

verus! {

/// The six indices of the two triangles `(b, b+1, b+2)` and `(b, b+2, b+3)`
/// that cover a quad whose four corners start at vertex `b`.
pub open spec fn quad_indices(b: u32) -> Seq<u32> {
    seq![b, (b + 1) as u32, (b + 2) as u32, b, (b + 2) as u32, (b + 3) as u32]
}

/// Appends the indices of a quad whose corners are vertices `base_idx` to
/// `base_idx + 3`.
pub fn push_quad_indices(indices: &mut Vec<u32>, base_idx: u32)
    requires
        base_idx + 3 <= u32::MAX,
    ensures
        final(indices)@ == old(indices)@ + quad_indices(base_idx),
{
    indices.push(base_idx);
    indices.push(base_idx + 1);
    indices.push(base_idx + 2);
    indices.push(base_idx);
    indices.push(base_idx + 2);
    indices.push(base_idx + 3);
    assert(final(indices)@ =~= old(indices)@ + quad_indices(base_idx));
}

/// Indices of the crosshair: its horizontal bar on vertices 0-3 and its
/// vertical bar on vertices 4-7.
pub fn crosshair_indices() -> (v: Vec<u32>)
    ensures
        v@ == quad_indices(0) + quad_indices(4),
        v@ == seq![0u32, 1, 2, 0, 2, 3, 4, 5, 6, 4, 6, 7],
{
    let mut v: Vec<u32> = Vec::new();
    push_quad_indices(&mut v, 0);
    push_quad_indices(&mut v, 4);
    assert(v@ =~= seq![0u32, 1, 2, 0, 2, 3, 4, 5, 6, 4, 6, 7]);
    v
}

} // verus!
