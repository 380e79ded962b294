use vstd::prelude::*;

verus! {

/// Arguments of one indexed indirect draw, laid out as the GPU reads them.
#[derive(Debug, Clone, Copy)]
pub struct DrawIndexedIndirect {
    pub index_count: u32,
    pub instance_count: u32,
    pub first_index: u32,
    pub base_vertex: i32,
    pub first_instance: u32,
}

/// Where one chunk mesh lives inside the shared vertex and index buffers.
#[derive(Debug, Clone, Copy)]
pub struct BufferAllocation {
    pub index_offset: u32,
    pub index_count: u32,
    pub vertex_count: u32,
    pub base_vertex: i32,
}

} // verus!
