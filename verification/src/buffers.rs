//! Byte buffers of vertices and indices handed to the graphics device, and the
//! description of a shader.
use vstd::prelude::*;

verus! {

/// `bytes` holds the two-byte encodings of `values`, in order, all in one byte
/// order (little-endian or big-endian, whichever the machine uses).
pub open spec fn u16_bytes(bytes: Seq<u8>, values: Seq<u16>) -> bool {
    &&& bytes.len() == 2 * values.len()
    &&& {
        ||| forall|i: int|
            0 <= i < values.len() ==> #[trigger] values[i] == bytes[2 * i] + 256 * bytes[2 * i + 1]
        ||| forall|i: int|
            0 <= i < values.len() ==> #[trigger] values[i] == 256 * bytes[2 * i] + bytes[2 * i + 1]
    }
}

/// `bytemuck::cast_slice` from `u16` to bytes: the same memory seen as bytes, two
/// per value in the machine's byte order. Casting to bytes cannot fail (a byte has
/// alignment 1 and every length is a whole number of bytes), so it never panics.
#[verifier::external_body]
fn cast_u16_to_bytes<'a>(values: &'a [u16]) -> (r: &'a [u8])
    ensures
        u16_bytes(r@, values@),
{
    bytemuck::cast_slice(values)
}

/// Appends `more` to `v`.
fn append_bytes(v: &mut Vec<u8>, more: &[u8])
    ensures
        final(v)@ == old(v)@ + more@,
{
    let mut k: usize = 0;
    while k < more.len()
        invariant
            k <= more@.len(),
            v@ == old(v)@ + more@.subrange(0, k as int),
        decreases more@.len() - k,
    {
        v.push(more[k]);
        k = k + 1;
        assert(more@.subrange(0, k as int) =~= more@.subrange(0, k - 1).push(more@[k - 1]));
    }
    assert(more@.subrange(0, more@.len() as int) =~= more@);
}

/// Something that holds bytes for a device buffer.
pub trait BufferWriter {
    fn buffer_data(&self) -> Option<&[u8]>;

    fn buffer_len(&self) -> u32;
}

/// A writer of index buffers.
pub trait IndexBufferWriter: BufferWriter {

}

/// A writer of vertex buffers.
pub trait VertexBufferWriter: BufferWriter {

}

/// The indices of a frame, as bytes, with their count.
#[derive(Debug)]
pub struct IndexBuffer {
    indices: Vec<u8>,
    num_indices: u32,
}

impl IndexBuffer {
    pub closed spec fn bytes(&self) -> Seq<u8> {
        self.indices@
    }

    pub closed spec fn count(&self) -> u32 {
        self.num_indices
    }

    pub fn new() -> (r: IndexBuffer)
        ensures
            r.bytes() == Seq::<u8>::empty(),
            r.count() == 0,
    {
        IndexBuffer { indices: Vec::new(), num_indices: 0 }
    }

    /// Appends the indices, as bytes, and counts them.
    pub fn extend_from_slice(&mut self, new_indices: &[u16])
        requires
            old(self).count() + new_indices@.len() <= u32::MAX,
        ensures
            final(self).count() == old(self).count() + new_indices@.len(),
            final(self).bytes().len() == old(self).bytes().len() + 2 * new_indices@.len(),
            final(self).bytes().subrange(0, old(self).bytes().len() as int) == old(self).bytes(),
            u16_bytes(
                final(self).bytes().subrange(
                    old(self).bytes().len() as int,
                    final(self).bytes().len() as int,
                ),
                new_indices@,
            ),
    {
        let bytes = cast_u16_to_bytes(new_indices);
        let ghost before = self.indices@;
        self.num_indices = self.num_indices + new_indices.len() as u32;
        append_bytes(&mut self.indices, bytes);
        assert(self.indices@.subrange(0, before.len() as int) =~= before);
        assert(self.indices@.subrange(before.len() as int, self.indices@.len() as int) =~= bytes@);
    }

    /// How many indices the buffer holds.
    pub fn len(&self) -> (r: u32)
        ensures
            r == self.count(),
    {
        self.num_indices
    }
}

impl BufferWriter for IndexBuffer {
    fn buffer_data(&self) -> (r: Option<&[u8]>)
        ensures
            r matches Some(b) && b@ == self.bytes(),
    {
        Some(self.indices.as_slice())
    }

    fn buffer_len(&self) -> (r: u32)
        ensures
            r == self.count(),
    {
        self.num_indices
    }
}

impl IndexBufferWriter for IndexBuffer {

}

/// The vertices of a frame, as bytes, with their count.
#[derive(Debug)]
pub struct VertexBuffer {
    vertices: Vec<u8>,
    num_vertices: u32,
}

impl VertexBuffer {
    pub closed spec fn bytes(&self) -> Seq<u8> {
        self.vertices@
    }

    pub closed spec fn count(&self) -> u32 {
        self.num_vertices
    }

    pub fn new() -> (r: VertexBuffer)
        ensures
            r.bytes() == Seq::<u8>::empty(),
            r.count() == 0,
    {
        VertexBuffer { vertices: Vec::new(), num_vertices: 0 }
    }

    /// Appends `vertex_count` vertices given by their bytes, and counts them.
    pub fn extend_from_bytes(&mut self, vertex_count: u32, bytes: &[u8])
        requires
            old(self).count() + vertex_count <= u32::MAX,
        ensures
            final(self).count() == old(self).count() + vertex_count,
            final(self).bytes() == old(self).bytes() + bytes@,
    {
        self.num_vertices = self.num_vertices + vertex_count;
        append_bytes(&mut self.vertices, bytes);
    }

    /// How many vertices the buffer holds.
    pub fn len(&self) -> (r: u32)
        ensures
            r == self.count(),
    {
        self.num_vertices
    }
}

impl BufferWriter for VertexBuffer {
    fn buffer_data(&self) -> (r: Option<&[u8]>)
        ensures
            r matches Some(b) && b@ == self.bytes(),
    {
        Some(self.vertices.as_slice())
    }

    fn buffer_len(&self) -> (r: u32)
        ensures
            r == self.count(),
    {
        self.num_vertices
    }
}

impl VertexBufferWriter for VertexBuffer {

}

/// Where a shader's source is and which entry points it uses.
#[derive(Debug, Clone, Copy)]
pub struct ShaderDescriptor {
    pub file: &'static str,
    pub vertex_shader: &'static str,
    pub fragment_shader: &'static str,
}

} // verus!
