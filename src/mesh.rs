//! The byte layout of a mesh: one blob holding an optional index stream and
//! any number of vertex streams, each found by its kind.
use vstd::prelude::*;

verus! {

/// Texture coordinates of one vertex, in normalized 16-bit units.
#[derive(Clone, Copy, Debug)]
pub struct TexCoords(pub [u16; 2]);

/// Marks an entity whose mesh carries a vertex stream of `T`.
#[derive(Debug)]
pub struct Vertex<T>(pub std::marker::PhantomData<T>);

/// Where the 16-bit indices of a mesh start in its blob, and how many.
#[derive(Clone, Copy, Debug, PartialEq, Eq, Structural)]
pub struct IndexStream {
    pub offset: u64,
    pub count: u32,
}

/// Where the vertex attribute of one kind starts in a mesh blob, and the
/// distance between consecutive vertices.
#[derive(Clone, Copy, Debug, PartialEq, Eq, Structural)]
pub struct VertexStream {
    /// Which attribute the stream holds, as the caller numbers them.
    pub kind: u32,
    pub offset: u64,
    pub stride: u64,
}

/// A mesh as laid out for upload.
#[derive(Debug)]
pub struct MeshLayout {
    pub data: Vec<u8>,
    pub index_stream: Option<IndexStream>,
    pub vertex_streams: Vec<VertexStream>,
    pub vertex_count: u32,
}

/// Collects the streams of a mesh into one blob.
#[derive(Debug)]
pub struct MeshBuilder {
    pub name: String,
    pub data: Vec<u8>,
    pub index_stream: Option<IndexStream>,
    pub vertex_streams: Vec<VertexStream>,
    /// The number of vertices of every vertex stream; 0 before the first.
    pub vertex_count: usize,
}

/// The first stream of `kind` among `streams`, if any.
pub open spec fn first_of_kind(streams: Seq<VertexStream>, kind: u32) -> Option<int>
    decreases streams.len(),
{
    if streams.len() == 0 {
        None
    } else if streams.last().kind == kind && first_of_kind(streams.drop_last(), kind).is_none() {
        Some(streams.len() - 1)
    } else {
        first_of_kind(streams.drop_last(), kind)
    }
}

impl MeshBuilder {
    /// An unnamed mesh with no streams.
    pub fn new() -> (r: MeshBuilder)
        ensures
            r.name@ == Seq::<char>::empty(),
            r.data@.len() == 0,
            r.index_stream.is_none(),
            r.vertex_streams@.len() == 0,
            r.vertex_count == 0,
    {
        MeshBuilder {
            name: String::new(),
            data: Vec::new(),
            index_stream: None,
            vertex_streams: Vec::new(),
            vertex_count: 0,
        }
    }

    /// Names the mesh.
    pub fn name(&mut self, name: &str)
        ensures
            final(self).name@ == name@,
            final(self).data@ == old(self).data@,
            final(self).index_stream == old(self).index_stream,
            final(self).vertex_streams@ == old(self).vertex_streams@,
            final(self).vertex_count == old(self).vertex_count,
    {
        self.name = name.to_owned();
    }

    /// Appends `bytes` to the blob and returns where they start.
    fn append(&mut self, bytes: &[u8]) -> (r: u64)
        requires
            old(self).data@.len() + bytes@.len() <= u64::MAX,
        ensures
            r == old(self).data@.len(),
            final(self).data@ == old(self).data@ + bytes@,
            final(self).name == old(self).name,
            final(self).index_stream == old(self).index_stream,
            final(self).vertex_streams@ == old(self).vertex_streams@,
            final(self).vertex_count == old(self).vertex_count,
    {
        let offset = self.data.len() as u64;
        let mut i: usize = 0;
        while i < bytes.len()
            invariant
                i <= bytes@.len(),
                self.data@ == old(self).data@ + bytes@.subrange(0, i as int),
                self.name == old(self).name,
                self.index_stream == old(self).index_stream,
                self.vertex_streams@ == old(self).vertex_streams@,
                self.vertex_count == old(self).vertex_count,
            decreases bytes@.len() - i,
        {
            self.data.push(bytes[i]);
            i = i + 1;
            assert(self.data@ == old(self).data@ + bytes@.subrange(0, i as int));
        }
        assert(bytes@.subrange(0, bytes@.len() as int) == bytes@);
        offset
    }

    /// Adds the index stream: `count` 16-bit indices, whose bytes are `bytes`.
    pub fn index(&mut self, bytes: &[u8], count: u32)
        requires
            old(self).index_stream.is_none(),
            bytes@.len() == 2 * count,
            old(self).data@.len() + bytes@.len() <= u64::MAX,
        ensures
            final(self).data@ == old(self).data@ + bytes@,
            final(self).index_stream == Some(
                IndexStream { offset: old(self).data@.len() as u64, count },
            ),
            final(self).name == old(self).name,
            final(self).vertex_streams@ == old(self).vertex_streams@,
            final(self).vertex_count == old(self).vertex_count,
    {
        let offset = self.append(bytes);
        self.index_stream = Some(IndexStream { offset, count });
    }

    /// Adds a vertex stream of `kind`: `count` vertices `stride` bytes apart,
    /// whose bytes are `bytes`. Every vertex stream has the same count.
    pub fn vertex(&mut self, bytes: &[u8], count: usize, stride: u64, kind: u32)
        requires
            bytes@.len() == count * stride,
            old(self).vertex_count == 0 || old(self).vertex_count == count,
            old(self).data@.len() + bytes@.len() <= u64::MAX,
        ensures
            final(self).data@ == old(self).data@ + bytes@,
            final(self).vertex_streams@ == old(self).vertex_streams@.push(
                VertexStream { kind, offset: old(self).data@.len() as u64, stride },
            ),
            final(self).vertex_count == count,
            final(self).name == old(self).name,
            final(self).index_stream == old(self).index_stream,
    {
        let offset = self.append(bytes);
        if self.vertex_count == 0 {
            self.vertex_count = count;
        }
        self.vertex_streams.push(VertexStream { kind, offset, stride });
    }

    /// The finished layout.
    pub fn build(self) -> (r: MeshLayout)
        requires
            self.vertex_count <= u32::MAX,
        ensures
            r.data@ == self.data@,
            r.index_stream == self.index_stream,
            r.vertex_streams@ == self.vertex_streams@,
            r.vertex_count == self.vertex_count,
    {
        MeshLayout {
            data: self.data,
            index_stream: self.index_stream,
            vertex_streams: self.vertex_streams,
            vertex_count: self.vertex_count as u32,
        }
    }
}

impl MeshLayout {
    /// The first vertex stream of `kind`.
    pub fn vertex_stream(&self, kind: u32) -> (r: Option<VertexStream>)
        ensures
            match first_of_kind(self.vertex_streams@, kind) {
                Some(i) => r == Some(self.vertex_streams@[i]),
                None => r.is_none(),
            },
    {
        let mut i: usize = 0;
        while i < self.vertex_streams.len()
            invariant
                i <= self.vertex_streams@.len(),
                first_of_kind(self.vertex_streams@.subrange(0, i as int), kind).is_none(),
            decreases self.vertex_streams@.len() - i,
        {
            proof {
                lemma_first_of_kind_prefix(self.vertex_streams@, kind, i as int);
            }
            if self.vertex_streams[i].kind == kind {
                proof {
                    lemma_first_of_kind_found(self.vertex_streams@, kind, i as int);
                }
                return Some(self.vertex_streams[i]);
            }
            i = i + 1;
        }
        assert(self.vertex_streams@.subrange(0, i as int) == self.vertex_streams@);
        None
    }
}

/// Extending a prefix with no stream of `kind` by one stream.
proof fn lemma_first_of_kind_prefix(streams: Seq<VertexStream>, kind: u32, i: int)
    requires
        0 <= i < streams.len(),
    ensures
        streams.subrange(0, i + 1).drop_last() == streams.subrange(0, i),
        streams.subrange(0, i + 1).last() == streams[i],
{
    assert(streams.subrange(0, i + 1).drop_last() =~= streams.subrange(0, i));
}

/// A stream of `kind` after a prefix with none is the first of its kind.
proof fn lemma_first_of_kind_found(streams: Seq<VertexStream>, kind: u32, i: int)
    requires
        0 <= i < streams.len(),
        streams[i].kind == kind,
        first_of_kind(streams.subrange(0, i), kind).is_none(),
    ensures
        first_of_kind(streams, kind) == Some(i),
    decreases streams.len(),
{
    if i == streams.len() - 1 {
        assert(streams.drop_last() =~= streams.subrange(0, i));
    } else {
        assert(streams.drop_last().subrange(0, i) =~= streams.subrange(0, i));
        lemma_first_of_kind_found(streams.drop_last(), kind, i);
    }
}

} // verus!
