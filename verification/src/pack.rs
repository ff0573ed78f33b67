//! Mesh packing pipeline and frame-renderer bookkeeping: concatenate the
//! parsed meshes' per-buffer byte ranges into shared device-ready buffers,
//! record one `MeshView` per mesh for base-vertex-offset draws, and derive
//! the per-layout binding and per-mesh draw parameters handed to the device
//! interface.

use vstd::prelude::*;

use crate::gfx::{IndexKind, Mesh, VertexLayout};

verus! {

/// Index sub-range of a packed mesh inside the shared index buffer.
#[derive(Clone, Copy, Debug, PartialEq, Eq, Structural)]
pub struct MeshIndices {
    pub count: usize,
    pub offset: usize,
    pub kind: IndexKind,
}

/// A packed mesh, ready to draw: vertex count, cumulative base-vertex
/// offset into the shared vertex buffers, and an optional index sub-range.
#[derive(Clone, Copy, Debug)]
pub struct MeshView {
    pub vertices: usize,
    pub vertex_offset: usize,
    pub indices: Option<MeshIndices>,
    pub base_index: usize,
}

/// Total vertex count of a mesh list.
pub open spec fn total_vertices(meshes: Seq<Mesh>) -> int
    decreases meshes.len(),
{
    if meshes.len() == 0 {
        0
    } else {
        total_vertices(meshes.drop_last()) + meshes.last().vertices.count
    }
}

/// Total index bytes of a mesh list.
pub open spec fn total_index_bytes(meshes: Seq<Mesh>) -> int
    decreases meshes.len(),
{
    if meshes.len() == 0 {
        0
    } else {
        total_index_bytes(meshes.drop_last()) + (match meshes.last().indices {
            Some(ind) => ind.data@.len() as int,
            None => 0,
        })
    }
}

/// The shared index buffer: every mesh's index bytes, concatenated in
/// scene order.
pub open spec fn index_buffer_content(meshes: Seq<Mesh>) -> Seq<u8>
    decreases meshes.len(),
{
    if meshes.len() == 0 {
        Seq::empty()
    } else {
        index_buffer_content(meshes.drop_last()) + (match meshes.last().indices {
            Some(ind) => ind.data@,
            None => Seq::empty(),
        })
    }
}

/// The shared vertex buffer for layout buffer `b`: every mesh's byte range
/// for `b`, sliced from the arena and concatenated in scene order.
pub open spec fn vertex_buffer_content(meshes: Seq<Mesh>, arena: Seq<u8>, b: int) -> Seq<u8>
    decreases meshes.len(),
{
    if meshes.len() == 0 {
        Seq::empty()
    } else {
        vertex_buffer_content(meshes.drop_last(), arena, b) + arena.subrange(
            meshes.last().vertices.buffers@[b].start as int,
            meshes.last().vertices.buffers@[b].end as int,
        )
    }
}

/// The view recorded for one packed mesh, given the vertex total and index
/// byte total of the meshes before it.
pub open spec fn view_of(m: Mesh, base: int, index_offset: int) -> MeshView {
    MeshView {
        vertices: m.vertices.count,
        vertex_offset: 0,
        indices: match m.indices {
            Some(ind) => Some(
                MeshIndices {
                    count: ind.count,
                    offset: index_offset as usize,
                    kind: ind.kind,
                },
            ),
            None => None,
        },
        base_index: base as usize,
    }
}

/// Structural facts packing relies on: each mesh carries one byte range per
/// layout buffer, each range lies inside the arena, and the totals fit the
/// machine word.
pub open spec fn packable_meshes(meshes: Seq<Mesh>, arena: Seq<u8>, nb: int) -> bool {
    &&& forall|k: int|
        0 <= k < meshes.len() ==> (#[trigger] meshes[k]).vertices.buffers@.len() == nb
    &&& forall|k: int, b: int|
        0 <= k < meshes.len() && 0 <= b < nb ==> {
            let rg = #[trigger] meshes[k].vertices.buffers@[b];
            rg.start <= rg.end <= arena.len()
        }
    &&& total_vertices(meshes) <= usize::MAX
    &&& total_index_bytes(meshes) <= usize::MAX
}

/// Vertex and index-byte totals are sums of non-negative contributions,
/// and the concatenated index buffer is as long as the index-byte total.
pub proof fn lemma_totals_nonneg(meshes: Seq<Mesh>)
    ensures
        0 <= total_vertices(meshes),
        0 <= total_index_bytes(meshes),
        index_buffer_content(meshes).len() == total_index_bytes(meshes),
    decreases meshes.len(),
{
    if meshes.len() > 0 {
        lemma_totals_nonneg(meshes.drop_last());
    }
}

/// Vertex totals over a prefix never exceed the total over the whole list,
/// and likewise for index bytes.
pub proof fn lemma_totals_prefix_le(meshes: Seq<Mesh>, k: int)
    requires
        0 <= k <= meshes.len(),
    ensures
        0 <= total_vertices(meshes.take(k)) <= total_vertices(meshes),
        0 <= total_index_bytes(meshes.take(k)) <= total_index_bytes(meshes),
        index_buffer_content(meshes.take(k)).len() == total_index_bytes(meshes.take(k)),
    decreases meshes.len() - k,
{
    lemma_totals_nonneg(meshes.take(k));
    if k == meshes.len() {
        assert(meshes.take(k) =~= meshes);
    } else {
        assert(meshes.take(k + 1).drop_last() =~= meshes.take(k));
        assert(meshes.take(k + 1).last() == meshes[k]);
        lemma_totals_prefix_le(meshes, k + 1);
    }
}

/// Packing is order-preserving and additive: each mesh's base vertex is the
/// base vertex of the mesh before it plus that mesh's vertex count.
pub proof fn lemma_packing_additive(views: Seq<MeshView>, meshes: Seq<Mesh>, k: int)
    requires
        views.len() == meshes.len(),
        forall|k2: int|
            0 <= k2 < meshes.len() ==> (#[trigger] views[k2]).base_index as int == total_vertices(
                meshes.take(k2),
            ) && views[k2].vertices == meshes[k2].vertices.count,
        0 <= k < meshes.len() - 1,
    ensures
        views[k + 1].base_index as int == views[k].base_index as int + views[k].vertices as int,
{
    assert(meshes.take(k + 1).drop_last() =~= meshes.take(k));
    assert(meshes.take(k + 1).last() == meshes[k]);
}

/// Pack parsed meshes into shared device-ready buffers: per layout buffer,
/// the meshes' byte ranges are sliced from the scene arena and concatenated
/// into one accumulation vector; index bytes are concatenated into one
/// shared index buffer; and one `MeshView` per mesh records its vertex
/// count, running base-vertex offset and index byte offset.
pub fn pack_meshes(meshes: &Vec<Mesh>, arena: &Vec<u8>, n_buffers: usize) -> (r: (
    Vec<MeshView>,
    Vec<Vec<u8>>,
    Vec<u8>,
))
    requires
        packable_meshes(meshes@, arena@, n_buffers as int),
    ensures
        ({
            let (views, vertex_buffers, index_buffer) = r;
            &&& views@.len() == meshes@.len()
            &&& forall|k: int|
                0 <= k < meshes@.len() ==> #[trigger] views@[k] == view_of(
                    meshes@[k],
                    total_vertices(meshes@.take(k)),
                    total_index_bytes(meshes@.take(k)),
                )
            &&& vertex_buffers@.len() == n_buffers
            &&& forall|b: int|
                0 <= b < n_buffers ==> (#[trigger] vertex_buffers@[b])@ == vertex_buffer_content(
                    meshes@,
                    arena@,
                    b,
                )
            &&& index_buffer@ == index_buffer_content(meshes@)
        }),
{
    let nm: usize = meshes.len();
    let mut views: Vec<MeshView> = Vec::new();
    let mut vertex_buffers: Vec<Vec<u8>> = Vec::new();
    let mut b0: usize = 0;
    while b0 < n_buffers
        invariant
            0 <= b0 <= n_buffers,
            vertex_buffers@.len() == b0,
            forall|b: int| 0 <= b < b0 ==> (#[trigger] vertex_buffers@[b])@ =~= Seq::<u8>::empty(),
        decreases n_buffers - b0,
    {
        vertex_buffers.push(Vec::new());
        b0 = b0 + 1;
    }
    let mut index_buffer: Vec<u8> = Vec::new();
    let mut base_index: usize = 0;
    let mut k: usize = 0;
    proof {
        assert(meshes@.take(0) =~= Seq::<Mesh>::empty());
        assert forall|b: int| 0 <= b < n_buffers implies (#[trigger] vertex_buffers@[b])@
            =~= vertex_buffer_content(meshes@.take(0), arena@, b) by {}
    }
    while k < nm
        invariant
            nm == meshes@.len(),
            packable_meshes(meshes@, arena@, n_buffers as int),
            0 <= k <= nm,
            views@.len() == k,
            base_index as int == total_vertices(meshes@.take(k as int)),
            index_buffer@ == index_buffer_content(meshes@.take(k as int)),
            vertex_buffers@.len() == n_buffers,
            forall|b: int|
                0 <= b < n_buffers ==> (#[trigger] vertex_buffers@[b])@ == vertex_buffer_content(
                    meshes@.take(k as int),
                    arena@,
                    b,
                ),
            forall|k2: int|
                0 <= k2 < k ==> #[trigger] views@[k2] == view_of(
                    meshes@[k2],
                    total_vertices(meshes@.take(k2)),
                    total_index_bytes(meshes@.take(k2)),
                ),
        decreases nm - k,
    {
        let ghost ki = k as int;
        proof {
            assert(meshes@.take(ki + 1).drop_last() =~= meshes@.take(ki));
            assert(meshes@.take(ki + 1).last() == meshes@[ki]);
            lemma_totals_prefix_le(meshes@, ki);
            lemma_totals_prefix_le(meshes@, ki + 1);
        }
        let mesh = &meshes[k];
        let view = MeshView {
            base_index,
            vertices: mesh.vertices.count,
            indices: match &mesh.indices {
                Some(ind) => Some(
                    MeshIndices { count: ind.count, offset: index_buffer.len(), kind: ind.kind },
                ),
                None => None,
            },
            vertex_offset: 0,
        };
        views.push(view);
        let nb2: usize = mesh.vertices.buffers.len();
        let mut b: usize = 0;
        while b < nb2
            invariant
                nm == meshes@.len(),
                packable_meshes(meshes@, arena@, n_buffers as int),
                0 <= ki < nm,
                ki == k as int,
                mesh == meshes@[ki],
                nb2 == mesh.vertices.buffers@.len(),
                nb2 == n_buffers,
                0 <= b <= nb2,
                vertex_buffers@.len() == n_buffers,
                forall|b2: int|
                    b as int <= b2 < n_buffers ==> (#[trigger] vertex_buffers@[b2])@
                        == vertex_buffer_content(meshes@.take(ki), arena@, b2),
                forall|b2: int|
                    0 <= b2 < b ==> (#[trigger] vertex_buffers@[b2])@ == vertex_buffer_content(
                        meshes@.take(ki + 1),
                        arena@,
                        b2,
                    ),
            decreases nb2 - b,
        {
            let rg = mesh.vertices.buffers[b];
            let ghost pre = vertex_buffers@;
            let chunk = copy_arena_range(arena, rg.start, rg.end);
            let mut vb = vertex_buffers.remove(b);
            let mut chunk2 = chunk;
            vb.append(&mut chunk2);
            vertex_buffers.insert(b, vb);
            proof {
                assert(meshes@.take(ki + 1).drop_last() =~= meshes@.take(ki));
                assert(meshes@.take(ki + 1).last() == meshes@[ki]);
                assert forall|b2: int|
                    0 <= b2 < b as int + 1 implies (#[trigger] vertex_buffers@[b2])@
                    == vertex_buffer_content(meshes@.take(ki + 1), arena@, b2) by {
                    if b2 < b as int {
                        assert(vertex_buffers@[b2] == pre[b2]);
                    }
                }
                assert forall|b2: int|
                    b as int + 1 <= b2 < n_buffers implies (#[trigger] vertex_buffers@[b2])@
                    == vertex_buffer_content(meshes@.take(ki), arena@, b2) by {
                    assert(vertex_buffers@[b2] == pre[b2]);
                }
            }
            b = b + 1;
        }
        if let Some(ind) = &mesh.indices {
            let mut idata = copy_arena_range(&ind.data, 0, ind.data.len());
            index_buffer.append(&mut idata);
        }
        base_index = base_index + mesh.vertices.count;
        proof {
            assert(index_buffer@ =~= index_buffer_content(meshes@.take(ki + 1)));
            assert(views@[ki] == view_of(
                meshes@[ki],
                total_vertices(meshes@.take(ki)),
                total_index_bytes(meshes@.take(ki)),
            ));
        }
        k = k + 1;
    }
    proof {
        assert(meshes@.take(nm as int) =~= meshes@);
    }
    (views, vertex_buffers, index_buffer)
}

/// Copy the byte range `[start, end)` of `src` into a fresh vector.
fn copy_arena_range(src: &Vec<u8>, start: usize, end: usize) -> (r: Vec<u8>)
    requires
        start <= end <= src@.len(),
    ensures
        r@ == src@.subrange(start as int, end as int),
{
    let mut r: Vec<u8> = Vec::new();
    let mut i: usize = start;
    while i < end
        invariant
            start <= i <= end <= src@.len(),
            r@ =~= src@.subrange(start as int, i as int),
        decreases end - i,
    {
        r.push(src[i]);
        proof {
            assert(r@ =~= src@.subrange(start as int, i as int + 1));
        }
        i = i + 1;
    }
    r
}

/// What one draw call needs: an indexed draw over a mesh's index sub-range
/// with its base-vertex offset, or a plain draw over its vertex range.
#[derive(Clone, Copy, Debug, PartialEq, Eq, Structural)]
pub enum DrawCmd {
    Indexed { count: usize, kind: IndexKind, byte_offset: usize, base_vertex: usize },
    Arrays { first: usize, count: usize },
}

/// The draw call a packed mesh asks for.
pub open spec fn draw_cmd_of(v: MeshView) -> DrawCmd {
    match v.indices {
        Some(ind) => DrawCmd::Indexed {
            count: ind.count,
            kind: ind.kind,
            byte_offset: ind.offset,
            base_vertex: v.base_index,
        },
        None => DrawCmd::Arrays { first: v.vertex_offset, count: v.vertices },
    }
}

/// Per-frame draw submission plan: exactly one draw call per packed mesh,
/// indexed where the mesh has an index sub-range, plain otherwise.
pub fn draw_commands(views: &Vec<MeshView>) -> (r: Vec<DrawCmd>)
    ensures
        r@.len() == views@.len(),
        forall|k: int| 0 <= k < views@.len() ==> #[trigger] r@[k] == draw_cmd_of(views@[k]),
{
    let n: usize = views.len();
    let mut r: Vec<DrawCmd> = Vec::new();
    let mut k: usize = 0;
    while k < n
        invariant
            n == views@.len(),
            0 <= k <= n,
            r@.len() == k,
            forall|k2: int| 0 <= k2 < k ==> #[trigger] r@[k2] == draw_cmd_of(views@[k2]),
        decreases n - k,
    {
        let cmd = match &views[k].indices {
            Some(ind) => DrawCmd::Indexed {
                count: ind.count,
                kind: ind.kind,
                byte_offset: ind.offset,
                base_vertex: views[k].base_index,
            },
            None => DrawCmd::Arrays { first: views[k].vertex_offset, count: views[k].vertices },
        };
        r.push(cmd);
        k = k + 1;
    }
    r
}

/// Vertex-format parameters for one attribute, bound once per layout.
#[derive(Clone, Copy, Debug, PartialEq, Eq, Structural)]
pub struct AttribBinding {
    pub location: u8,
    pub components: u8,
    pub normalized: bool,
    pub offset: usize,
    pub buffer: usize,
}

/// Stride parameters for one vertex buffer binding.
#[derive(Clone, Copy, Debug, PartialEq, Eq, Structural)]
pub struct BufferBinding {
    pub buffer: usize,
    pub stride: usize,
}

/// The one-time binding plan of a layout: one attribute pointer/format pair
/// per declared attribute and one stride per declared buffer.  It runs once
/// per layout, not once per mesh: base-vertex offsets handle per-mesh
/// addressing.
pub fn binding_commands(layout: &VertexLayout) -> (r: (Vec<AttribBinding>, Vec<BufferBinding>))
    requires
        layout.packable(),
    ensures
        r.0@.len() == layout.attributes@.len(),
        forall|i: int|
            0 <= i < layout.attributes@.len() ==> #[trigger] r.0@[i] == (AttribBinding {
                location: layout.attributes@[i].location,
                components: layout.attributes@[i].kind.spec_components(),
                normalized: layout.attributes@[i].normalized,
                offset: layout.attributes@[i].offset,
                buffer: layout.attributes@[i].buffer,
            }),
        r.1@.len() == layout.buffers@.len(),
        forall|i: int|
            0 <= i < layout.buffers@.len() ==> (#[trigger] r.1@[i]).buffer
                == layout.buffers@[i].buffer && r.1@[i].stride as int == layout.spec_stride(i),
{
    let na: usize = layout.attributes.len();
    let mut attribs: Vec<AttribBinding> = Vec::new();
    let mut i: usize = 0;
    while i < na
        invariant
            na == layout.attributes@.len(),
            0 <= i <= na,
            attribs@.len() == i,
            forall|i2: int|
                0 <= i2 < i ==> #[trigger] attribs@[i2] == (AttribBinding {
                    location: layout.attributes@[i2].location,
                    components: layout.attributes@[i2].kind.spec_components(),
                    normalized: layout.attributes@[i2].normalized,
                    offset: layout.attributes@[i2].offset,
                    buffer: layout.attributes@[i2].buffer,
                }),
        decreases na - i,
    {
        let a = &layout.attributes[i];
        attribs.push(
            AttribBinding {
                location: a.location,
                components: a.kind.components(),
                normalized: a.normalized,
                offset: a.offset,
                buffer: a.buffer,
            },
        );
        i = i + 1;
    }
    let nb: usize = layout.buffers.len();
    let mut strides: Vec<BufferBinding> = Vec::new();
    let mut i: usize = 0;
    while i < nb
        invariant
            nb == layout.buffers@.len(),
            layout.packable(),
            0 <= i <= nb,
            strides@.len() == i,
            forall|i2: int|
                0 <= i2 < i ==> (#[trigger] strides@[i2]).buffer == layout.buffers@[i2].buffer
                    && strides@[i2].stride as int == layout.spec_stride(i2),
        decreases nb - i,
    {
        let stride: usize = match layout.buffers[i].stride {
            crate::gfx::Stride::Packed => layout.buffer_vertex_size(layout.buffers[i].buffer),
            crate::gfx::Stride::Interleaved(n) => n,
        };
        strides.push(BufferBinding { buffer: layout.buffers[i].buffer, stride });
        i = i + 1;
    }
    (attribs, strides)
}

} // verus!
