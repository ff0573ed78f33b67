//! Geometry interchange parser: turns a scene document — accessor-described
//! attribute streams, index streams and primitive topology, given as plain
//! values together with the raw source buffers — into parsed meshes whose
//! vertex data is byte-packed into scratch regions of a shared arena, laid
//! out according to the target vertex layout.

use vstd::prelude::*;

use crate::gfx::{
    find_attr, lemma_find_attr_index, AttributeKind, AttributeSemantic, IndexKind, Indices, Mesh,
    Primitive, Scene, VertexAttribute, VertexLayout, Vertices,
};

verus! {

/// Errors of the parser, surfaced as recoverable results.
#[derive(Clone, Copy, Debug, PartialEq, Eq, Structural)]
pub enum Error {
    UnsupportedIndexFormat,
    UnsupportedPrimitive,
    SparseDataNotSupported,
    VerticesOutOfBounds,
    AttributeKindNotSupported,
    NoVertexData,
}

/// A source attribute whose semantic has no counterpart in the target model;
/// such attributes are skipped, not errors.
pub struct UnsupportedAttribute(pub SourceSemantic);

/// Element datatype declared by a source accessor.
#[derive(Clone, Copy, Debug, PartialEq, Eq, Structural)]
pub enum SourceDataType {
    I8,
    U8,
    I16,
    U16,
    U32,
    F32,
}

/// Element multiplicity declared by a source accessor.
#[derive(Clone, Copy, Debug, PartialEq, Eq, Structural)]
pub enum SourceDimensions {
    Scalar,
    Vec2,
    Vec3,
    Vec4,
    Mat2,
    Mat3,
    Mat4,
}

/// Meaning of a source vertex attribute.
#[derive(Clone, Copy, Debug, PartialEq, Eq, Structural)]
pub enum SourceSemantic {
    Positions,
    Normals,
    Tangents,
    Colors(u32),
    TexCoords(u32),
    Joints(u32),
    Weights(u32),
}

/// Topology declared by a source primitive.
#[derive(Clone, Copy, Debug, PartialEq, Eq, Structural)]
pub enum SourceMode {
    Points,
    Lines,
    LineLoop,
    LineStrip,
    Triangles,
    TriangleStrip,
    TriangleFan,
}

/// A view into one of the raw source buffers.
#[derive(Clone, Copy, Debug)]
pub struct SourceView {
    pub buffer: usize,
    pub offset: usize,
    pub stride: Option<usize>,
}

/// How to interpret a byte range as typed vertex or index data.  An accessor
/// without a view describes sparse data, which is unsupported.
#[derive(Clone, Copy, Debug)]
pub struct SourceAccessor {
    pub view: Option<SourceView>,
    pub offset: usize,
    pub count: usize,
    pub data_type: SourceDataType,
    pub dimensions: SourceDimensions,
}

/// One named vertex attribute of a source primitive.
#[derive(Clone, Copy, Debug)]
pub struct SourceAttribute {
    pub semantic: SourceSemantic,
    pub accessor: SourceAccessor,
}

/// One drawable primitive of a source mesh.
#[derive(Clone, Debug)]
pub struct SourcePrimitive {
    pub mode: SourceMode,
    pub material: Option<usize>,
    pub indices: Option<SourceAccessor>,
    pub attributes: Vec<SourceAttribute>,
}

/// One source mesh: a name plus its primitives.
#[derive(Clone, Debug)]
pub struct SourceMesh {
    pub name: Option<String>,
    pub primitives: Vec<SourcePrimitive>,
}

/// Parser configuration: the target vertex layout.
pub struct Config {
    pub vertex_layout: VertexLayout,
}

impl Default for Config {
    /// The default configuration packs into the default vertex layout: an
    /// interleaved position and UV channel in buffer 0, 20 bytes a vertex.
    fn default() -> (r: Self)
        ensures
            r.vertex_layout.wf(),
            r.vertex_layout.packable(),
            r.vertex_layout.attributes@.len() == 2,
            r.vertex_layout.attributes@[0] == (VertexAttribute {
                semantic: AttributeSemantic::Position,
                location: 0,
                kind: AttributeKind::Vec3,
                buffer: 0,
                offset: 0,
                normalized: false,
            }),
            r.vertex_layout.attributes@[1] == (VertexAttribute {
                semantic: AttributeSemantic::UV(0),
                location: 1,
                kind: AttributeKind::Vec2,
                buffer: 0,
                offset: 12,
                normalized: false,
            }),
            r.vertex_layout.buffers@.len() == 1,
            r.vertex_layout.buffers@[0] == (crate::gfx::VertexBuffer {
                buffer: 0,
                stride: crate::gfx::Stride::Interleaved(20),
            }),
            r.vertex_layout.spec_buffer_vertex_size(0) == 20,
    {
        Config { vertex_layout: VertexLayout::default() }
    }
}

/// Byte size of one component of a source datatype.
pub open spec fn dt_size_spec(t: SourceDataType) -> int {
    match t {
        SourceDataType::I8 => 1,
        SourceDataType::U8 => 1,
        SourceDataType::I16 => 2,
        SourceDataType::U16 => 2,
        SourceDataType::U32 => 4,
        SourceDataType::F32 => 4,
    }
}

/// Byte size of one component of a source datatype.
pub fn dt_size(t: SourceDataType) -> (r: usize)
    ensures
        r == dt_size_spec(t),
{
    match t {
        SourceDataType::I8 => 1,
        SourceDataType::U8 => 1,
        SourceDataType::I16 => 2,
        SourceDataType::U16 => 2,
        SourceDataType::U32 => 4,
        SourceDataType::F32 => 4,
    }
}

/// Number of components of a source element.
pub open spec fn dims_count_spec(d: SourceDimensions) -> int {
    match d {
        SourceDimensions::Scalar => 1,
        SourceDimensions::Vec2 => 2,
        SourceDimensions::Vec3 => 3,
        SourceDimensions::Vec4 => 4,
        SourceDimensions::Mat2 => 4,
        SourceDimensions::Mat3 => 9,
        SourceDimensions::Mat4 => 16,
    }
}

/// Number of components of a source element.
pub fn dims_count(d: SourceDimensions) -> (r: usize)
    ensures
        r == dims_count_spec(d),
{
    match d {
        SourceDimensions::Scalar => 1,
        SourceDimensions::Vec2 => 2,
        SourceDimensions::Vec3 => 3,
        SourceDimensions::Vec4 => 4,
        SourceDimensions::Mat2 => 4,
        SourceDimensions::Mat3 => 9,
        SourceDimensions::Mat4 => 16,
    }
}

/// Target semantic of a source semantic, if it has one.
pub open spec fn sem_to_attr(s: SourceSemantic) -> Option<AttributeSemantic> {
    match s {
        SourceSemantic::Positions => Some(AttributeSemantic::Position),
        SourceSemantic::TexCoords(n) => if n > 255 {
            Some(AttributeSemantic::UV(255))
        } else {
            Some(AttributeSemantic::UV(n as u8))
        },
        _ => None,
    }
}

/// Translate a source semantic into the target model; semantics without a
/// counterpart are reported, and skipped by the parser.
pub fn semantic_from_source(s: SourceSemantic) -> (r: Result<
    AttributeSemantic,
    UnsupportedAttribute,
>)
    ensures
        match r {
            Ok(a) => sem_to_attr(s) == Some(a),
            Err(u) => sem_to_attr(s) is None && u.0 == s,
        },
{
    match s {
        SourceSemantic::Positions => Ok(AttributeSemantic::Position),
        SourceSemantic::TexCoords(n) => if n > 255 {
            Ok(AttributeSemantic::UV(255))
        } else {
            Ok(AttributeSemantic::UV(n as u8))
        },
        _ => Err(UnsupportedAttribute(s)),
    }
}

/// Target topology of a source mode, if supported.
pub open spec fn mode_to_primitive(m: SourceMode) -> Option<Primitive> {
    match m {
        SourceMode::Triangles => Some(Primitive::Triangles),
        SourceMode::TriangleStrip => Some(Primitive::TriangleStrips),
        SourceMode::TriangleFan => Some(Primitive::TriangleFan),
        _ => None,
    }
}

/// Translate a source topology; anything but a triangle list, strip or fan
/// is unsupported.
pub fn primitive_from_mode(m: SourceMode) -> (r: Result<Primitive, Error>)
    ensures
        match r {
            Ok(p) => mode_to_primitive(m) == Some(p),
            Err(e) => mode_to_primitive(m) is None && e == Error::UnsupportedPrimitive,
        },
{
    match m {
        SourceMode::Triangles => Ok(Primitive::Triangles),
        SourceMode::TriangleStrip => Ok(Primitive::TriangleStrips),
        SourceMode::TriangleFan => Ok(Primitive::TriangleFan),
        _ => Err(Error::UnsupportedPrimitive),
    }
}

/// Index element kind of a source datatype, where it is one of the supported
/// unsigned index widths.
pub open spec fn index_kind_of(t: SourceDataType) -> Option<IndexKind> {
    match t {
        SourceDataType::U8 => Some(IndexKind::U8),
        SourceDataType::U16 => Some(IndexKind::U16),
        SourceDataType::U32 => Some(IndexKind::U32),
        _ => None,
    }
}

/// The source buffers as mathematical byte sequences.
pub open spec fn views(bufs: Seq<Vec<u8>>) -> Seq<Seq<u8>> {
    bufs.map_values(|b: Vec<u8>| b@)
}

/// A name as a mathematical value.
pub open spec fn name_view(n: Option<String>) -> Option<Seq<char>> {
    match n {
        Some(s) => Some(s@),
        None => None,
    }
}

/// First error of an index accessor: sparse data, an unsupported element
/// datatype, or a byte span that leaves its source buffer.
pub open spec fn index_error(acc: SourceAccessor, buffers: Seq<Seq<u8>>) -> Option<Error> {
    match acc.view {
        None => Some(Error::SparseDataNotSupported),
        Some(view) => match index_kind_of(acc.data_type) {
            None => Some(Error::UnsupportedIndexFormat),
            Some(_) => if view.buffer < buffers.len() && view.offset + acc.offset + acc.count
                * dt_size_spec(acc.data_type) <= buffers[view.buffer as int].len() {
                None
            } else {
                Some(Error::VerticesOutOfBounds)
            },
        },
    }
}

/// The raw index bytes addressed by an index accessor.
pub open spec fn index_data_spec(acc: SourceAccessor, buffers: Seq<Seq<u8>>) -> Seq<u8> {
    let view = acc.view->Some_0;
    buffers[view.buffer as int].subrange(
        view.offset + acc.offset,
        view.offset + acc.offset + acc.count * dt_size_spec(acc.data_type),
    )
}

/// The layout attribute a source attribute is packed into, if any: the
/// attribute must have a view, its semantic must translate, and the layout
/// must hold that semantic.
pub open spec fn resolve_attr(layout: VertexLayout, sa: SourceAttribute) -> Option<
    VertexAttribute,
> {
    match sa.accessor.view {
        None => None,
        Some(_) => match sem_to_attr(sa.semantic) {
            None => None,
            Some(s) => find_attr(layout.attributes@, s),
        },
    }
}

/// Bytes copied per vertex: the smaller component count of target and
/// source, times the component size.
pub open spec fn attr_copy_len(va: VertexAttribute, acc: SourceAccessor) -> int {
    if va.kind.spec_components() <= dims_count_spec(acc.dimensions) {
        4 * va.kind.spec_components()
    } else {
        4 * dims_count_spec(acc.dimensions)
    }
}

/// Source stride of an accessor: the view's own stride, or a tightly packed
/// element size when the view declares none.
pub open spec fn attr_sstride(acc: SourceAccessor) -> int {
    match acc.view->Some_0.stride {
        Some(n) => n as int,
        None => dt_size_spec(acc.data_type) * dims_count_spec(acc.dimensions),
    }
}

/// First error of one source vertex attribute.  Attributes that do not
/// resolve into the layout are skipped and never err.
pub open spec fn attr_error(
    layout: VertexLayout,
    sa: SourceAttribute,
    buffers: Seq<Seq<u8>>,
) -> Option<Error> {
    match resolve_attr(layout, sa) {
        None => None,
        Some(va) => {
            let view = sa.accessor.view->Some_0;
            if va.buffer >= layout.buffers@.len() {
                Some(Error::VerticesOutOfBounds)
            } else if view.buffer >= buffers.len() {
                Some(Error::VerticesOutOfBounds)
            } else if sa.accessor.data_type != SourceDataType::F32 {
                Some(Error::AttributeKindNotSupported)
            } else if sa.accessor.count > 0 && view.offset + sa.accessor.offset + (sa.accessor.count
                - 1) * attr_sstride(sa.accessor) + attr_copy_len(va, sa.accessor) > buffers[view.buffer as int].len() {
                Some(Error::VerticesOutOfBounds)
            } else {
                None
            }
        },
    }
}

/// First error over a primitive's attributes, in declaration order.
pub open spec fn first_attr_error(
    layout: VertexLayout,
    attrs: Seq<SourceAttribute>,
    buffers: Seq<Seq<u8>>,
) -> Option<Error>
    decreases attrs.len(),
{
    if attrs.len() == 0 {
        None
    } else if attr_error(layout, attrs.first(), buffers) is Some {
        attr_error(layout, attrs.first(), buffers)
    } else {
        first_attr_error(layout, attrs.drop_first(), buffers)
    }
}

/// The accessor of the first attribute that has a view, if any; it supplies
/// the primitive's vertex count.
pub open spec fn first_view_accessor(attrs: Seq<SourceAttribute>) -> Option<SourceAccessor>
    decreases attrs.len(),
{
    if attrs.len() == 0 {
        None
    } else if attrs.first().accessor.view is Some {
        Some(attrs.first().accessor)
    } else {
        first_view_accessor(attrs.drop_first())
    }
}

/// Vertex count of a primitive: the count declared by its first attribute
/// that has a view, zero when none has one.
pub open spec fn prim_vertex_count(prim: SourcePrimitive) -> int {
    match first_view_accessor(prim.attributes@) {
        Some(acc) => acc.count as int,
        None => 0,
    }
}

/// Structural facts the parser relies on, guaranteed by the interchange
/// format: all attribute streams of a primitive declare the same vertex
/// count, and no two attributes pack into the same layout slot.
pub open spec fn prim_wf(prim: SourcePrimitive) -> bool {
    let attrs = prim.attributes@;
    &&& forall|j: int|
        0 <= j < attrs.len() && (#[trigger] attrs[j]).accessor.view is Some
            ==> attrs[j].accessor.count as int == prim_vertex_count(prim)
    &&& forall|j1: int, j2: int|
        0 <= j1 < j2 < attrs.len() && sem_to_attr((#[trigger] attrs[j1]).semantic) is Some
            && sem_to_attr((#[trigger] attrs[j2]).semantic) is Some ==> sem_to_attr(
            attrs[j1].semantic,
        ) != sem_to_attr(attrs[j2].semantic)
}

/// Whether any attribute of the list resolves into the layout: has a view,
/// a translatable semantic, and a layout attribute for it.
pub open spec fn any_resolvable(layout: VertexLayout, attrs: Seq<SourceAttribute>) -> bool {
    exists|j: int| 0 <= j < attrs.len() && resolve_attr(layout, #[trigger] attrs[j]) is Some
}

/// First error of a whole primitive: index errors, then a vertex count too
/// large for any scratch region, then attribute errors in order, then a
/// primitive that declares no resolvable vertex attribute, then an
/// unsupported topology.
pub open spec fn prim_check(
    layout: VertexLayout,
    prim: SourcePrimitive,
    buffers: Seq<Seq<u8>>,
) -> Option<Error> {
    let ie = match prim.indices {
        Some(acc) => index_error(acc, buffers),
        None => None,
    };
    if ie is Some {
        ie
    } else if exists|b: int|
        0 <= b < layout.buffers@.len() && prim_vertex_count(prim) * #[trigger] VertexLayout::spec_buffer_size(
            layout.attributes@,
            b,
        ) > usize::MAX {
        Some(Error::VerticesOutOfBounds)
    } else if first_attr_error(layout, prim.attributes@, buffers) is Some {
        first_attr_error(layout, prim.attributes@, buffers)
    } else if !any_resolvable(layout, prim.attributes@) {
        Some(Error::NoVertexData)
    } else if mode_to_primitive(prim.mode) is None {
        Some(Error::UnsupportedPrimitive)
    } else {
        None
    }
}

/// Total per-vertex byte size of the scratch regions of all buffers below
/// `b`: the byte offset, per vertex, of buffer `b`'s region relative to the
/// primitive's first region.
pub open spec fn prefix_bvs(layout: VertexLayout, b: int) -> int
    decreases b,
{
    if b <= 0 {
        0
    } else {
        prefix_bvs(layout, b - 1) + VertexLayout::spec_buffer_size(layout.attributes@, b - 1)
    }
}

/// Arena position where buffer `b`'s scratch region of a primitive starts,
/// when the primitive's regions start at `arena_base`.
pub open spec fn range_base(layout: VertexLayout, arena_base: int, count: int, b: int) -> int {
    arena_base + count * prefix_bvs(layout, b)
}

/// Whether attribute `j` of the primitive writes byte `p` of buffer `b`'s
/// scratch region.
pub open spec fn covered_by(
    layout: VertexLayout,
    prim: SourcePrimitive,
    b: int,
    p: int,
    j: int,
) -> bool {
    match resolve_attr(layout, prim.attributes@[j]) {
        None => false,
        Some(va) => va.buffer == b && in_copy_region(
            0,
            layout.spec_stride(b),
            va.offset as int,
            attr_copy_len(va, prim.attributes@[j].accessor),
            prim_vertex_count(prim),
            p,
        ),
    }
}

/// Whether any of the first `j` attributes of the primitive writes byte `p`
/// of buffer `b`'s scratch region.
pub open spec fn covered_upto(
    layout: VertexLayout,
    prim: SourcePrimitive,
    b: int,
    p: int,
    j: int,
) -> bool {
    exists|j2: int| 0 <= j2 < j && #[trigger] covered_by(layout, prim, b, p, j2)
}

/// Whether any attribute of the primitive writes byte `p` of buffer `b`'s
/// scratch region.
pub open spec fn covered(layout: VertexLayout, prim: SourcePrimitive, b: int, p: int) -> bool {
    covered_upto(layout, prim, b, p, prim.attributes@.len() as int)
}

/// Attribute `j`'s bytes for vertex `v` stand in the arena exactly as the
/// source view holds them: byte-for-byte, for the copied component count.
pub open spec fn attr_copied(
    layout: VertexLayout,
    prim: SourcePrimitive,
    buffers: Seq<Seq<u8>>,
    arena: Seq<u8>,
    base: int,
    j: int,
    v: int,
) -> bool {
    match resolve_attr(layout, prim.attributes@[j]) {
        None => true,
        Some(va) => {
            let acc = prim.attributes@[j].accessor;
            let view = acc.view->Some_0;
            let count = prim_vertex_count(prim);
            let b = va.buffer as int;
            chunk(
                arena,
                range_base(layout, base, count, b),
                layout.spec_stride(b),
                va.offset as int,
                attr_copy_len(va, acc),
                v,
            ) == chunk(
                buffers[view.buffer as int],
                view.offset + acc.offset,
                attr_sstride(acc),
                0,
                attr_copy_len(va, acc),
                v,
            )
        },
    }
}

/// The parsed index record matches the accessor: element kind, source
/// buffer, declared count, and the exact byte span.
pub open spec fn indices_packed(
    prim: SourcePrimitive,
    buffers: Seq<Seq<u8>>,
    m: Mesh,
) -> bool {
    match prim.indices {
        None => m.indices is None,
        Some(acc) => match m.indices {
            None => false,
            Some(ind) => {
                &&& index_kind_of(acc.data_type) == Some(ind.kind)
                &&& ind.buffer == acc.view->Some_0.buffer
                &&& ind.count == acc.count
                &&& ind.data@ == index_data_spec(acc, buffers)
            },
        },
    }
}

/// The parsed vertex record matches the primitive: the vertex count, one
/// byte range per layout buffer sized `count * buffer_vertex_size`, every
/// resolved attribute copied component-wise, and every unwritten scratch
/// byte zero.
pub open spec fn vertices_packed(
    layout: VertexLayout,
    prim: SourcePrimitive,
    buffers: Seq<Seq<u8>>,
    arena: Seq<u8>,
    base: int,
    m: Mesh,
) -> bool {
    let count = prim_vertex_count(prim);
    let nb = layout.buffers@.len() as int;
    &&& m.vertices.count as int == count
    &&& m.vertices.buffers@.len() == nb
    &&& forall|b: int|
        0 <= b < nb ==> (#[trigger] m.vertices.buffers@[b]).start == range_base(
            layout,
            base,
            count,
            b,
        ) && m.vertices.buffers@[b].end == range_base(layout, base, count, b) + count
            * VertexLayout::spec_buffer_size(layout.attributes@, b)
    &&& base + count * prefix_bvs(layout, nb) <= arena.len()
    &&& forall|j: int, v: int|
        0 <= j < prim.attributes@.len() && 0 <= v < count ==> #[trigger] attr_copied(
            layout,
            prim,
            buffers,
            arena,
            base,
            j,
            v,
        )
    &&& forall|b: int, p: int|
        0 <= b < nb && 0 <= p < count * VertexLayout::spec_buffer_size(layout.attributes@, b)
            && !covered(layout, prim, b, p) ==> arena[range_base(layout, base, count, b) + p]
            == 0
}

/// Everything `pack_primitive` promises of a parsed mesh.
pub open spec fn mesh_packed(
    layout: VertexLayout,
    name: Option<Seq<char>>,
    prim: SourcePrimitive,
    buffers: Seq<Seq<u8>>,
    arena: Seq<u8>,
    base: int,
    m: Mesh,
) -> bool {
    &&& name_view(m.name) == name
    &&& mode_to_primitive(prim.mode) == Some(m.mode)
    &&& m.material == prim.material
    &&& indices_packed(prim, buffers, m)
    &&& vertices_packed(layout, prim, buffers, arena, base, m)
}

/// Copy `n` bytes of `src` starting at `start` into a fresh vector.
fn copy_range(src: &[u8], start: usize, n: usize) -> (r: Vec<u8>)
    requires
        start + n <= src@.len(),
    ensures
        r@ == src@.subrange(start as int, start + n),
{
    let src_len: usize = src.len();
    let mut r: Vec<u8> = Vec::new();
    let mut i: usize = 0;
    while i < n
        invariant
            src_len == src@.len(),
            start + n <= src@.len(),
            0 <= i <= n,
            r@ =~= src@.subrange(start as int, start + i),
        decreases n - i,
    {
        r.push(src[start + i]);
        proof {
            assert(r@ =~= src@.subrange(start as int, start + i + 1));
        }
        i = i + 1;
    }
    r
}

/// Byte position of component data for vertex `v` in a strided region that
/// starts at `base` and holds one record per vertex, `off` bytes into each
/// record.
pub open spec fn slot(base: int, stride: int, off: int, v: int) -> int {
    base + v * stride + off
}

/// The bytes of vertex `v` in such a strided region: `len` bytes starting at
/// `slot(base, stride, off, v)`.
pub open spec fn chunk(s: Seq<u8>, base: int, stride: int, off: int, len: int, v: int) -> Seq<u8> {
    s.subrange(slot(base, stride, off, v), slot(base, stride, off, v) + len)
}

/// Whether byte position `p` belongs to any of the `count` per-vertex spans
/// of a strided region.
pub open spec fn in_copy_region(
    base: int,
    stride: int,
    off: int,
    len: int,
    count: int,
    p: int,
) -> bool {
    exists|v: int|
        0 <= v < count && #[trigger] slot(base, stride, off, v) <= p < slot(base, stride, off, v)
            + len
}

/// Source byte position that a packed byte position `p` was copied from,
/// when `p` lies in the copy region.
pub open spec fn src_pos(
    base: int,
    stride: int,
    off: int,
    sbase: int,
    sstride: int,
    p: int,
) -> int {
    let v = (p - base) / stride;
    sbase + v * sstride + ((p - base) % stride - off)
}

/// Overwrite `n` bytes of `dst` at `d0` with the bytes of `src` at `s0`.
fn copy_bytes(dst: &mut Vec<u8>, d0: usize, src: &[u8], s0: usize, n: usize)
    requires
        d0 + n <= old(dst)@.len(),
        s0 + n <= src@.len(),
    ensures
        final(dst)@.len() == old(dst)@.len(),
        final(dst)@.subrange(d0 as int, d0 + n) == src@.subrange(s0 as int, s0 + n),
        forall|p: int|
            0 <= p < old(dst)@.len() && !(d0 <= p < d0 + n) ==> final(dst)@[p] == old(dst)@[p],
{
    let src_len: usize = src.len();
    let dst_len: usize = dst.len();
    let mut i: usize = 0;
    while i < n
        invariant
            src_len == src@.len(),
            dst_len == old(dst)@.len(),
            d0 + n <= old(dst)@.len(),
            s0 + n <= src@.len(),
            0 <= i <= n,
            dst@.len() == old(dst)@.len(),
            forall|p: int| d0 <= p < d0 + i ==> #[trigger] dst@[p] == src@[p - d0 + s0],
            forall|p: int| 0 <= p < old(dst)@.len() && !(d0 <= p < d0 + i) ==> dst@[p] == old(
                dst,
            )@[p],
        decreases n - i,
    {
        dst.set(d0 + i, src[s0 + i]);
        i = i + 1;
    }
    proof {
        assert(dst@.subrange(d0 as int, d0 + n) =~= src@.subrange(s0 as int, s0 + n));
    }
}

/// The bytes of attribute `j`, for vertex `v`, stand in a scratch region
/// for buffer `b` exactly as the source view holds them.
spec fn attr_copied_scratch(
    layout: VertexLayout,
    prim: SourcePrimitive,
    buffers: Seq<Seq<u8>>,
    scratch: Seq<u8>,
    b: int,
    j: int,
    v: int,
) -> bool {
    match resolve_attr(layout, prim.attributes@[j]) {
        None => true,
        Some(va) => {
            let acc = prim.attributes@[j].accessor;
            let view = acc.view->Some_0;
            va.buffer == b ==> chunk(
                scratch,
                0,
                layout.spec_stride(b),
                va.offset as int,
                attr_copy_len(va, acc),
                v,
            ) == chunk(
                buffers[view.buffer as int],
                view.offset + acc.offset,
                attr_sstride(acc),
                0,
                attr_copy_len(va, acc),
                v,
            )
        },
    }
}

/// A per-buffer vertex size is a sum of attribute sizes, so never negative.
proof fn lemma_buffer_size_nonneg(attrs: Seq<VertexAttribute>, b: int)
    ensures
        0 <= VertexLayout::spec_buffer_size(attrs, b),
{
    crate::gfx::lemma_buffer_size_prefix_le(attrs, b, 0);
    assert(attrs.take(0) =~= Seq::<VertexAttribute>::empty());
    assert(VertexLayout::spec_buffer_size(attrs.take(0), b) == 0);
}

/// When no attribute of a list errs, each one of them is error-free.
proof fn lemma_attr_errors_none(
    layout: VertexLayout,
    attrs: Seq<SourceAttribute>,
    buffers: Seq<Seq<u8>>,
    j: int,
)
    requires
        first_attr_error(layout, attrs, buffers) is None,
        0 <= j < attrs.len(),
    ensures
        attr_error(layout, attrs[j], buffers) is None,
    decreases attrs.len(),
{
    if j > 0 {
        lemma_attr_errors_none(layout, attrs.drop_first(), buffers, j - 1);
        assert(attrs.drop_first()[j - 1] == attrs[j]);
    }
}

/// The prefix sums of per-buffer vertex sizes grow with the buffer index.
proof fn lemma_prefix_bvs_mono(layout: VertexLayout, b1: int, b2: int)
    requires
        0 <= b1 <= b2,
    ensures
        prefix_bvs(layout, b1) <= prefix_bvs(layout, b2),
    decreases b2 - b1,
{
    if b1 < b2 {
        lemma_buffer_size_nonneg(layout.attributes@, b2 - 1);
        lemma_prefix_bvs_mono(layout, b1, b2 - 1);
    }
}

/// A vector of `n` zero bytes.
fn zero_vec(n: usize) -> (r: Vec<u8>)
    ensures
        r@.len() == n,
        forall|i: int| 0 <= i < n ==> r@[i] == 0,
{
    let mut r: Vec<u8> = Vec::new();
    let mut i: usize = 0;
    while i < n
        invariant
            0 <= i <= n,
            r@.len() == i,
            forall|k: int| 0 <= k < i ==> r@[k] == 0,
        decreases n - i,
    {
        r.push(0);
        i = i + 1;
    }
    r
}

/// Two attribute spans with disjoint byte ranges inside a common per-vertex
/// record never write the same byte, whatever the vertex.
proof fn lemma_regions_disjoint(
    st: int,
    off_a: int,
    cl_a: int,
    off_b: int,
    cl_b: int,
    count: int,
    p: int,
)
    requires
        0 <= off_a && 0 < cl_a && off_a + cl_a <= st,
        0 <= off_b && 0 < cl_b && off_b + cl_b <= st,
        off_a + cl_a <= off_b || off_b + cl_b <= off_a,
        in_copy_region(0, st, off_a, cl_a, count, p),
    ensures
        !in_copy_region(0, st, off_b, cl_b, count, p),
{
    let va = choose|v: int|
        0 <= v < count && #[trigger] slot(0, st, off_a, v) <= p < slot(0, st, off_a, v) + cl_a;
    if in_copy_region(0, st, off_b, cl_b, count, p) {
        let vb = choose|v: int|
            0 <= v < count && #[trigger] slot(0, st, off_b, v) <= p < slot(0, st, off_b, v) + cl_b;
        vstd::arithmetic::div_mod::lemma_fundamental_div_mod_converse(p, st, va, p - va * st);
        vstd::arithmetic::div_mod::lemma_fundamental_div_mod_converse(p, st, vb, p - vb * st);
        assert(false);
    }
}

/// `base1 + base2 + n * stride + tail`, or `None` when it does not fit.
fn checked_span(base1: usize, base2: usize, n: usize, stride: usize, tail: usize) -> (r: Option<
    usize,
>)
    ensures
        match r {
            Some(x) => x as int == base1 + base2 + n * stride + tail,
            None => base1 + base2 + n * stride + tail > usize::MAX,
        },
{
    match n.checked_mul(stride) {
        None => None,
        Some(m) => match base1.checked_add(base2) {
            None => None,
            Some(a) => match a.checked_add(m) {
                None => None,
                Some(c) => c.checked_add(tail),
            },
        },
    }
}

/// Vertex count of a primitive: the count declared by its first attribute
/// that has a view.
fn find_vertex_count(prim: &SourcePrimitive) -> (r: Option<usize>)
    ensures
        match r {
            Some(c) => first_view_accessor(prim.attributes@) matches Some(acc) && acc.count == c,
            None => first_view_accessor(prim.attributes@) is None,
        },
{
    let n: usize = prim.attributes.len();
    let mut j: usize = 0;
    proof {
        assert(prim.attributes@.skip(0) =~= prim.attributes@);
    }
    while j < n
        invariant
            n == prim.attributes@.len(),
            0 <= j <= n,
            first_view_accessor(prim.attributes@) == first_view_accessor(
                prim.attributes@.skip(j as int),
            ),
        decreases n - j,
    {
        proof {
            assert(prim.attributes@.skip(j as int).first() == prim.attributes@[j as int]);
            assert(prim.attributes@.skip(j as int).drop_first() =~= prim.attributes@.skip(
                j as int + 1,
            ));
        }
        if prim.attributes[j].accessor.view.is_some() {
            return Some(prim.attributes[j].accessor.count);
        }
        j = j + 1;
    }
    proof {
        assert(prim.attributes@.skip(n as int).len() == 0);
    }
    None
}

/// Whether any attribute of the primitive resolves into the layout.
fn find_resolvable(layout: &VertexLayout, prim: &SourcePrimitive) -> (r: bool)
    ensures
        r == any_resolvable(*layout, prim.attributes@),
{
    let n: usize = prim.attributes.len();
    let mut j: usize = 0;
    while j < n
        invariant
            n == prim.attributes@.len(),
            0 <= j <= n,
            forall|j2: int|
                0 <= j2 < j ==> resolve_attr(*layout, #[trigger] prim.attributes@[j2]) is None,
        decreases n - j,
    {
        let sa = &prim.attributes[j];
        if sa.accessor.view.is_some() {
            if let Ok(sem) = semantic_from_source(sa.semantic) {
                if layout.attribute(&sem).is_some() {
                    proof {
                        assert(resolve_attr(*layout, prim.attributes@[j as int]) is Some);
                    }
                    return true;
                }
            }
        }
        j = j + 1;
    }
    false
}

/// Check every attribute of a primitive for errors, in declaration order,
/// without packing anything.
fn scan_attributes(layout: &VertexLayout, prim: &SourcePrimitive, buffers: &[Vec<u8>]) -> (r:
    Result<(), Error>)
    ensures
        match r {
            Ok(_) => first_attr_error(*layout, prim.attributes@, views(buffers@)) is None,
            Err(e) => first_attr_error(*layout, prim.attributes@, views(buffers@)) == Some(e),
        },
{
    let ghost bviews = views(buffers@);
    let n: usize = prim.attributes.len();
    let mut j: usize = 0;
    proof {
        assert(prim.attributes@.skip(0) =~= prim.attributes@);
    }
    while j < n
        invariant
            n == prim.attributes@.len(),
            bviews == views(buffers@),
            0 <= j <= n,
            first_attr_error(*layout, prim.attributes@, bviews) == first_attr_error(
                *layout,
                prim.attributes@.skip(j as int),
                bviews,
            ),
        decreases n - j,
    {
        proof {
            assert(prim.attributes@.skip(j as int).first() == prim.attributes@[j as int]);
            assert(prim.attributes@.skip(j as int).drop_first() =~= prim.attributes@.skip(
                j as int + 1,
            ));
        }
        let sa = &prim.attributes[j];
        let ghost sa_spec = prim.attributes@[j as int];
        if let Some(view) = &sa.accessor.view {
            if let Ok(sem) = semantic_from_source(sa.semantic) {
                if let Some(va) = layout.attribute(&sem) {
                    if va.buffer >= layout.buffers.len() {
                        return Err(Error::VerticesOutOfBounds);
                    }
                    if view.buffer >= buffers.len() {
                        return Err(Error::VerticesOutOfBounds);
                    }
                    match sa.accessor.data_type {
                        SourceDataType::F32 => {},
                        _ => {
                            return Err(Error::AttributeKindNotSupported);
                        },
                    }
                    let cnt: usize = sa.accessor.count;
                    if cnt > 0 {
                        let sstride: usize = match view.stride {
                            Some(s) => s,
                            None => dt_size(sa.accessor.data_type) * dims_count(
                                sa.accessor.dimensions,
                            ),
                        };
                        let comp_t: usize = va.kind.components() as usize;
                        let comp_s: usize = dims_count(sa.accessor.dimensions);
                        let m: usize = if comp_t <= comp_s {
                            comp_t
                        } else {
                            comp_s
                        };
                        let cl: usize = 4 * m;
                        let src_len: usize = buffers[view.buffer].len();
                        proof {
                            assert(bviews[view.buffer as int] == buffers@[view.buffer as int]@);
                        }
                        match checked_span(view.offset, sa.accessor.offset, cnt - 1, sstride, cl) {
                            None => {
                                return Err(Error::VerticesOutOfBounds);
                            },
                            Some(end) => {
                                if end > src_len {
                                    return Err(Error::VerticesOutOfBounds);
                                }
                            },
                        }
                    }
                    proof {
                        assert(attr_error(*layout, sa_spec, bviews) is None);
                    }
                }
            }
        }
        j = j + 1;
    }
    proof {
        assert(prim.attributes@.skip(n as int).len() == 0);
    }
    Ok(())
}

/// Copy one vertex attribute, component-wise and byte-for-byte, for `count`
/// vertices: `copy_len` bytes per vertex, read with stride `sstride` from
/// the source view and written with stride `stride` into the target region
/// starting at `base`, `off` bytes into each per-vertex record.
fn pack_attribute(
    dst: &mut Vec<u8>,
    base: usize,
    stride: usize,
    off: usize,
    copy_len: usize,
    count: usize,
    src: &[u8],
    sbase: usize,
    sstride: usize,
)
    requires
        0 < copy_len,
        off + copy_len <= stride,
        base + count * stride <= old(dst)@.len(),
        count > 0 ==> sbase + (count - 1) * sstride + copy_len <= src@.len(),
    ensures
        final(dst)@.len() == old(dst)@.len(),
        forall|v: int|
            0 <= v < count ==> #[trigger] chunk(
                final(dst)@,
                base as int,
                stride as int,
                off as int,
                copy_len as int,
                v,
            ) == chunk(src@, sbase as int, sstride as int, 0, copy_len as int, v),
        forall|p: int|
            0 <= p < old(dst)@.len() && !in_copy_region(
                base as int,
                stride as int,
                off as int,
                copy_len as int,
                count as int,
                p,
            ) ==> final(dst)@[p] == old(dst)@[p],
{
    let ghost b = base as int;
    let ghost st = stride as int;
    let ghost o = off as int;
    let ghost cl = copy_len as int;
    let src_len: usize = src.len();
    let dst_len: usize = dst.len();
    let mut v: usize = 0;
    while v < count
        invariant
            0 < copy_len,
            off + copy_len <= stride,
            base + count * stride <= old(dst)@.len(),
            count > 0 ==> sbase + (count - 1) * sstride + copy_len <= src@.len(),
            src_len == src@.len(),
            dst_len == old(dst)@.len(),
            b == base as int && st == stride as int && o == off as int && cl == copy_len as int,
            0 <= v <= count,
            dst@.len() == old(dst)@.len(),
            forall|p: int|
                0 <= p < old(dst)@.len() && in_copy_region(b, st, o, cl, v as int, p)
                    ==> #[trigger] dst@[p] == src@[src_pos(
                    b,
                    st,
                    o,
                    sbase as int,
                    sstride as int,
                    p,
                )],
            forall|p: int|
                0 <= p < old(dst)@.len() && !in_copy_region(b, st, o, cl, v as int, p)
                    ==> #[trigger] dst@[p] == old(dst)@[p],
        decreases count - v,
    {
        proof {
            assert(v * stride + stride <= count * stride && v * stride + off + copy_len <= count
                * stride) by (nonlinear_arith)
                requires
                    0 <= v < count,
                    off + copy_len <= stride,
            ;
            assert(v * sstride <= (count - 1) * sstride) by (nonlinear_arith)
                requires
                    0 <= v <= count - 1,
                    0 <= sstride,
            ;
        }
        let d0: usize = base + v * stride + off;
        let s0: usize = sbase + v * sstride;
        let ghost pre = dst@;
        copy_bytes(dst, d0, src, s0, copy_len);
        proof {
            let vi = v as int;
            let sb = sbase as int;
            let ss = sstride as int;
            assert(slot(b, st, o, vi) == d0 as int);
            // bytes just written now hold their source bytes
            assert forall|p: int| d0 <= p < d0 + cl implies #[trigger] dst@[p] == src@[src_pos(
                b,
                st,
                o,
                sb,
                ss,
                p,
            )] by {
                let k = p - d0;
                assert(dst@.subrange(d0 as int, d0 + cl)[k] == dst@[p]);
                assert(src@.subrange(s0 as int, s0 + cl)[k] == src@[s0 + k]);
                vstd::arithmetic::div_mod::lemma_fundamental_div_mod_converse(
                    p - b,
                    st,
                    vi,
                    o + k,
                );
                assert(src_pos(b, st, o, sb, ss, p) == s0 + k);
            }
            // bytes of earlier vertices lie strictly below the span just
            // written, and bytes outside the grown region were not written
            assert forall|p: int|
                0 <= p < old(dst)@.len() && p < d0 && in_copy_region(
                    b,
                    st,
                    o,
                    cl,
                    vi,
                    p,
                ) implies p < d0 by {}
            assert forall|v2: int| 0 <= v2 < vi implies slot(b, st, o, v2) + cl <= d0 by {
                assert(v2 * st + st <= vi * st) by (nonlinear_arith)
                    requires
                        0 <= v2 < vi,
                        st >= 0,
                ;
            }
            assert forall|p: int|
                0 <= p < old(dst)@.len() && in_copy_region(b, st, o, cl, vi + 1, p)
                    implies #[trigger] dst@[p] == src@[src_pos(b, st, o, sb, ss, p)] by {
                let v2 = choose|v2: int|
                    0 <= v2 < vi + 1 && #[trigger] slot(b, st, o, v2) <= p < slot(b, st, o, v2)
                        + cl;
                if v2 < vi {
                    assert(in_copy_region(b, st, o, cl, vi, p));
                    assert(p < d0);
                    assert(dst@[p] == pre[p]);
                } else {
                    assert(d0 <= p < d0 + cl);
                }
            }
            assert forall|p: int|
                0 <= p < old(dst)@.len() && !in_copy_region(b, st, o, cl, vi + 1, p)
                    implies #[trigger] dst@[p] == old(dst)@[p] by {
                assert(!(slot(b, st, o, vi) <= p < slot(b, st, o, vi) + cl));
                assert(!in_copy_region(b, st, o, cl, vi, p));
                assert(dst@[p] == pre[p]);
            }
        }
        v = v + 1;
    }
    proof {
        let sb = sbase as int;
        let ss = sstride as int;
        assert forall|v2: int| 0 <= v2 < count implies #[trigger] chunk(
            dst@,
            b,
            st,
            o,
            cl,
            v2,
        ) == chunk(src@, sb, ss, 0, cl, v2) by {
            assert(v2 * st + o + cl <= count as int * st && 0 <= v2 * st && v2 * ss <= (count
                - 1) * ss) by (nonlinear_arith)
                requires
                    0 <= v2 < count,
                    0 <= o,
                    o + cl <= st,
                    0 <= ss,
                    0 < cl,
            ;
            let lo = slot(b, st, o, v2);
            let slo = slot(sb, ss, 0, v2);
            assert forall|k: int| 0 <= k < cl implies chunk(dst@, b, st, o, cl, v2)[k] == chunk(
                src@,
                sb,
                ss,
                0,
                cl,
                v2,
            )[k] by {
                let p = lo + k;
                assert(slot(b, st, o, v2) <= p < slot(b, st, o, v2) + cl);
                assert(in_copy_region(b, st, o, cl, count as int, p));
                vstd::arithmetic::div_mod::lemma_fundamental_div_mod_converse(
                    p - b,
                    st,
                    v2,
                    o + k,
                );
                assert(src_pos(b, st, o, sb, ss, p) == slo + k);
                assert(chunk(dst@, b, st, o, cl, v2)[k] == dst@[p]);
                assert(chunk(src@, sb, ss, 0, cl, v2)[k] == src@[slo + k]);
            }
            assert(chunk(dst@, b, st, o, cl, v2) =~= chunk(src@, sb, ss, 0, cl, v2));
        }
    }
}

/// A packed attribute chunk survives growing the arena: appending bytes
/// never moves or rewrites what stands below the old length.
proof fn lemma_attr_copied_grow(
    layout: VertexLayout,
    prim: SourcePrimitive,
    buffers: Seq<Seq<u8>>,
    a1: Seq<u8>,
    a2: Seq<u8>,
    base: int,
    j: int,
    v: int,
)
    requires
        layout.packable(),
        0 <= base,
        0 <= j < prim.attributes@.len(),
        0 <= v < prim_vertex_count(prim),
        attr_error(layout, prim.attributes@[j], buffers) is None,
        attr_copied(layout, prim, buffers, a1, base, j, v),
        a1.len() <= a2.len(),
        a2.subrange(0, a1.len() as int) == a1,
        match resolve_attr(layout, prim.attributes@[j]) {
            Some(va) => range_base(
                layout,
                base,
                prim_vertex_count(prim),
                va.buffer as int + 1,
            ) <= a1.len(),
            None => true,
        },
    ensures
        attr_copied(layout, prim, buffers, a2, base, j, v),
{
    match resolve_attr(layout, prim.attributes@[j]) {
        None => {},
        Some(va) => {
            lemma_resolved_attr_facts(layout, prim, buffers, j);
            let acc = prim.attributes@[j].accessor;
            let count = prim_vertex_count(prim);
            let b = va.buffer as int;
            let st = layout.spec_stride(b);
            let bvs = VertexLayout::spec_buffer_size(layout.attributes@, b);
            let off = va.offset as int;
            let cl = attr_copy_len(va, acc);
            let rb = range_base(layout, base, count, b);
            lemma_prefix_bvs_mono(layout, 0, b);
            assert(0 <= v * st && v * st + st <= count * st && count * st <= count * bvs && count
                * prefix_bvs(layout, b) + count * bvs == count * (prefix_bvs(layout, b) + bvs))
                by (nonlinear_arith)
                requires
                    0 <= v < count,
                    0 <= st <= bvs,
                    0 <= prefix_bvs(layout, b),
            ;
            let lo = slot(rb, st, off, v);
            assert(0 <= lo && lo + cl <= a1.len());
            assert forall|p: int| lo <= p < lo + cl implies a2[p] == a1[p] by {
                assert(a2.subrange(0, a1.len() as int)[p] == a2[p]);
            }
            assert(chunk(a2, rb, st, off, cl, v) =~= chunk(a1, rb, st, off, cl, v));
        },
    }
}

/// Facts about a source attribute that resolves into the layout and passed
/// its error checks: its target fits inside the stride, the stride fits the
/// per-vertex record, and its source span lies inside its source buffer.
proof fn lemma_resolved_attr_facts(
    layout: VertexLayout,
    prim: SourcePrimitive,
    buffers: Seq<Seq<u8>>,
    j: int,
)
    requires
        layout.packable(),
        0 <= j < prim.attributes@.len(),
        resolve_attr(layout, prim.attributes@[j]) is Some,
        attr_error(layout, prim.attributes@[j], buffers) is None,
    ensures
        ({
            let va = resolve_attr(layout, prim.attributes@[j])->Some_0;
            let acc = prim.attributes@[j].accessor;
            let view = acc.view->Some_0;
            &&& va.buffer < layout.buffers@.len()
            &&& view.buffer < buffers.len()
            &&& acc.data_type == SourceDataType::F32
            &&& 0 < attr_copy_len(va, acc) <= va.kind.spec_size()
            &&& va.offset + attr_copy_len(va, acc) <= layout.spec_stride(va.buffer as int)
            &&& layout.spec_stride(va.buffer as int) <= VertexLayout::spec_buffer_size(
                layout.attributes@,
                va.buffer as int,
            )
            &&& 0 <= attr_sstride(acc)
            &&& acc.count > 0 ==> view.offset + acc.offset + (acc.count - 1) * attr_sstride(acc)
                + attr_copy_len(va, acc) <= buffers[view.buffer as int].len()
            &&& va.semantic == sem_to_attr(prim.attributes@[j].semantic)->Some_0
            &&& exists|i: int|
                0 <= i < layout.attributes@.len() && #[trigger] layout.attributes@[i] == va
        }),
{
    let sa = prim.attributes@[j];
    let s = sem_to_attr(sa.semantic)->Some_0;
    lemma_find_attr_index(layout.attributes@, s);
}

/// Two distinct source attributes that resolve into the layout target
/// disjoint byte ranges whenever they share a buffer.
proof fn lemma_resolved_disjoint(layout: VertexLayout, prim: SourcePrimitive, j1: int, j2: int)
    requires
        layout.packable(),
        prim_wf(prim),
        0 <= j1 < prim.attributes@.len(),
        0 <= j2 < prim.attributes@.len(),
        j1 != j2,
        resolve_attr(layout, prim.attributes@[j1]) is Some,
        resolve_attr(layout, prim.attributes@[j2]) is Some,
        resolve_attr(layout, prim.attributes@[j1])->Some_0.buffer < layout.buffers@.len(),
        resolve_attr(layout, prim.attributes@[j2])->Some_0.buffer < layout.buffers@.len(),
    ensures
        ({
            let va1 = resolve_attr(layout, prim.attributes@[j1])->Some_0;
            let va2 = resolve_attr(layout, prim.attributes@[j2])->Some_0;
            va1.buffer == va2.buffer ==> va1.offset + va1.kind.spec_size() <= va2.offset
                || va2.offset + va2.kind.spec_size() <= va1.offset
        }),
{
    let va1 = resolve_attr(layout, prim.attributes@[j1])->Some_0;
    let va2 = resolve_attr(layout, prim.attributes@[j2])->Some_0;
    let s1 = sem_to_attr(prim.attributes@[j1].semantic)->Some_0;
    let s2 = sem_to_attr(prim.attributes@[j2].semantic)->Some_0;
    lemma_find_attr_index(layout.attributes@, s1);
    lemma_find_attr_index(layout.attributes@, s2);
    if va1.buffer == va2.buffer {
        assert(s1 != s2);
        let i1 = choose|i: int|
            0 <= i < layout.attributes@.len() && #[trigger] layout.attributes@[i] == va1;
        let i2 = choose|i: int|
            0 <= i < layout.attributes@.len() && #[trigger] layout.attributes@[i] == va2;
        assert(i1 != i2);
    }
}

/// Parse and pack one source primitive: copy its index bytes, validate and
/// byte-pack its vertex attributes into one fresh scratch region per layout
/// buffer, and append those regions to the shared arena.  On failure the
/// arena is left untouched.
pub fn pack_primitive(
    layout: &VertexLayout,
    name: &Option<String>,
    prim: &SourcePrimitive,
    buffers: &[Vec<u8>],
    arena: &mut Vec<u8>,
) -> (r: Result<Mesh, Error>)
    requires
        layout.packable(),
        prim_wf(*prim),
    ensures
        match r {
            Ok(m) => {
                &&& prim_check(*layout, *prim, views(buffers@)) is None
                &&& mesh_packed(
                    *layout,
                    name_view(*name),
                    *prim,
                    views(buffers@),
                    final(arena)@,
                    old(arena)@.len() as int,
                    m,
                )
                &&& final(arena)@.len() == old(arena)@.len() + prim_vertex_count(*prim)
                    * prefix_bvs(*layout, layout.buffers@.len() as int)
                &&& final(arena)@.subrange(0, old(arena)@.len() as int) == old(arena)@
            },
            Err(e) => {
                &&& prim_check(*layout, *prim, views(buffers@)) == Some(e)
                &&& final(arena)@ == old(arena)@
            },
        },
{
    let ghost bviews = views(buffers@);
    let ghost base0 = arena@.len() as int;
    let ghost attrs_spec = prim.attributes@;
    let nattrs: usize = prim.attributes.len();
    proof {
        assert(bviews.len() == buffers@.len());
    }

    // index stream: copy the exact byte span the accessor addresses
    let indices_out: Option<Indices> = match &prim.indices {
        None => None,
        Some(acc) => {
            match &acc.view {
                None => {
                    return Err(Error::SparseDataNotSupported);
                },
                Some(view) => {
                    let kind = match acc.data_type {
                        SourceDataType::U8 => IndexKind::U8,
                        SourceDataType::U16 => IndexKind::U16,
                        SourceDataType::U32 => IndexKind::U32,
                        _ => {
                            return Err(Error::UnsupportedIndexFormat);
                        },
                    };
                    if view.buffer >= buffers.len() {
                        return Err(Error::VerticesOutOfBounds);
                    }
                    let src_len: usize = buffers[view.buffer].len();
                    proof {
                        assert(bviews[view.buffer as int] == buffers@[view.buffer as int]@);
                    }
                    match checked_span(view.offset, acc.offset, acc.count, dt_size(acc.data_type), 0)
                        {
                        None => {
                            return Err(Error::VerticesOutOfBounds);
                        },
                        Some(end) => {
                            if end > src_len {
                                return Err(Error::VerticesOutOfBounds);
                            }
                            let data = copy_range(
                                &buffers[view.buffer],
                                view.offset + acc.offset,
                                acc.count * dt_size(acc.data_type),
                            );
                            Some(Indices { kind, buffer: view.buffer, count: acc.count, data })
                        },
                    }
                },
            }
        },
    };
    proof {
        assert(match prim.indices {
            Some(acc) => index_error(acc, bviews) is None,
            None => true,
        });
    }

    // vertex count: declared by the first attribute stream that has a view
    let count_opt = find_vertex_count(prim);

    // per-buffer vertex sizes and strides; a vertex count too large for a
    // scratch region is rejected before anything is allocated
    let nb: usize = layout.buffers.len();
    let count: usize = match count_opt {
        Some(c) => c,
        None => 0,
    };
    let mut sizes: Vec<usize> = Vec::new();
    let mut strides: Vec<usize> = Vec::new();
    let mut b: usize = 0;
    while b < nb
        invariant
            nb == layout.buffers@.len(),
            layout.packable(),
            bviews == views(buffers@),
            match prim.indices {
                Some(acc) => index_error(acc, bviews) is None,
                None => true,
            },
            0 <= b <= nb,
            count as int == prim_vertex_count(*prim),
            sizes@.len() == b && strides@.len() == b,
            forall|i: int|
                0 <= i < b ==> #[trigger] sizes@[i] as int == count as int
                    * VertexLayout::spec_buffer_size(layout.attributes@, i),
            forall|i: int| 0 <= i < b ==> #[trigger] strides@[i] as int == layout.spec_stride(i),
        decreases nb - b,
    {
        let bvs: usize = layout.buffer_vertex_size(b);
        match count.checked_mul(bvs) {
            None => {
                proof {
                    assert(count as int * VertexLayout::spec_buffer_size(
                        layout.attributes@,
                        b as int,
                    ) > usize::MAX);
                    assert(exists|b2: int|
                        0 <= b2 < layout.buffers@.len() && prim_vertex_count(*prim)
                            * #[trigger] VertexLayout::spec_buffer_size(layout.attributes@, b2)
                            > usize::MAX);
                    assert(prim_check(*layout, *prim, bviews) == Some(Error::VerticesOutOfBounds));
                }
                return Err(Error::VerticesOutOfBounds);
            },
            Some(sz) => {
                sizes.push(sz);
            },
        }
        let st: usize = match layout.buffers[b].stride {
            crate::gfx::Stride::Packed => bvs,
            crate::gfx::Stride::Interleaved(n) => n,
        };
        strides.push(st);
        b = b + 1;
    }
    proof {
        assert forall|b2: int|
            0 <= b2 < layout.buffers@.len() implies prim_vertex_count(*prim)
            * #[trigger] VertexLayout::spec_buffer_size(layout.attributes@, b2)
            <= usize::MAX by {
            assert(sizes@[b2] as int == count as int * VertexLayout::spec_buffer_size(
                layout.attributes@,
                b2,
            ));
        }
    }

    // validate every attribute stream before anything is packed
    if let Err(e) = scan_attributes(layout, prim, buffers) {
        return Err(e);
    }
    if !find_resolvable(layout, prim) {
        return Err(Error::NoVertexData);
    }
    let mode = match primitive_from_mode(prim.mode) {
        Ok(m) => m,
        Err(e) => {
            return Err(e);
        },
    };
    proof {
        assert(prim_check(*layout, *prim, bviews) is None);
    }

    // pack: one scratch region per layout buffer, every resolved attribute
    // copied component-wise at the buffer's stride, then appended
    let mut ranges: Vec<crate::gfx::ByteRange> = Vec::new();
    let mut b: usize = 0;
    while b < nb
        invariant
            nb == layout.buffers@.len(),
            layout.packable(),
            prim_wf(*prim),
            bviews == views(buffers@),
            attrs_spec == prim.attributes@,
            nattrs == attrs_spec.len(),
            first_attr_error(*layout, attrs_spec, bviews) is None,
            0 <= b <= nb,
            count as int == prim_vertex_count(*prim),
            sizes@.len() == nb && strides@.len() == nb,
            forall|i: int|
                0 <= i < nb ==> #[trigger] sizes@[i] as int == count as int
                    * VertexLayout::spec_buffer_size(layout.attributes@, i),
            forall|i: int| 0 <= i < nb ==> #[trigger] strides@[i] as int == layout.spec_stride(i),
            arena@.len() as int == base0 + count as int * prefix_bvs(*layout, b as int),
            arena@.subrange(0, base0) == old(arena)@,
            base0 == old(arena)@.len(),
            ranges@.len() == b,
            forall|b2: int|
                0 <= b2 < b ==> (#[trigger] ranges@[b2]).start as int == range_base(
                    *layout,
                    base0,
                    count as int,
                    b2,
                ) && ranges@[b2].end as int == range_base(*layout, base0, count as int, b2) + count
                    as int * VertexLayout::spec_buffer_size(layout.attributes@, b2),
            forall|j: int, v: int|
                0 <= j < attrs_spec.len() && 0 <= v < count && (match resolve_attr(
                    *layout,
                    attrs_spec[j],
                ) {
                    Some(va) => (va.buffer as int) < b as int,
                    None => true,
                }) ==> #[trigger] attr_copied(*layout, *prim, bviews, arena@, base0, j, v),
            forall|b2: int, p: int|
                0 <= b2 < b && 0 <= p < count as int * VertexLayout::spec_buffer_size(
                    layout.attributes@,
                    b2,
                ) && !covered(*layout, *prim, b2, p) ==> arena@[range_base(
                    *layout,
                    base0,
                    count as int,
                    b2,
                ) + p] == 0,
        decreases nb - b,
    {
        let ghost bi = b as int;
        let ghost st_spec = layout.spec_stride(bi);
        let ghost bvs_spec = VertexLayout::spec_buffer_size(layout.attributes@, bi);
        let sz: usize = sizes[b];
        let st: usize = strides[b];
        let mut scratch = zero_vec(sz);
        let mut j: usize = 0;
        while j < nattrs
            invariant
                nb == layout.buffers@.len(),
                layout.packable(),
                prim_wf(*prim),
                bviews == views(buffers@),
                attrs_spec == prim.attributes@,
                nattrs == attrs_spec.len(),
                first_attr_error(*layout, attrs_spec, bviews) is None,
                0 <= j <= nattrs,
                0 <= b < nb,
                bi == b as int,
                count as int == prim_vertex_count(*prim),
                st_spec == layout.spec_stride(bi),
                bvs_spec == VertexLayout::spec_buffer_size(layout.attributes@, bi),
                st as int == st_spec,
                sz as int == count as int * bvs_spec,
                scratch@.len() == sz,
                forall|j2: int, v: int|
                    0 <= j2 < j && 0 <= v < count ==> #[trigger] attr_copied_scratch(
                        *layout,
                        *prim,
                        bviews,
                        scratch@,
                        bi,
                        j2,
                        v,
                    ),
                forall|p: int|
                    0 <= p < sz && !covered_upto(*layout, *prim, bi, p, j as int)
                        ==> #[trigger] scratch@[p] == 0,
            decreases nattrs - j,
        {
            let ghost ji = j as int;
            let sa = &prim.attributes[j];
            proof {
                lemma_attr_errors_none(*layout, attrs_spec, bviews, ji);
            }
            let mut applies = false;
            if let Some(view) = &sa.accessor.view {
                if let Ok(sem) = semantic_from_source(sa.semantic) {
                    if let Some(va) = layout.attribute(&sem) {
                        proof {
                            lemma_resolved_attr_facts(*layout, *prim, bviews, ji);
                        }
                        if va.buffer == b && count > 0 {
                            applies = true;
                            let ghost va_spec = resolve_attr(*layout, attrs_spec[ji])->Some_0;
                            let comp_t: usize = va.kind.components() as usize;
                            let comp_s: usize = dims_count(sa.accessor.dimensions);
                            let m: usize = if comp_t <= comp_s {
                                comp_t
                            } else {
                                comp_s
                            };
                            let cl: usize = 4 * m;
                            let sstride: usize = match view.stride {
                                Some(s) => s,
                                None => dt_size(sa.accessor.data_type) * dims_count(
                                    sa.accessor.dimensions,
                                ),
                            };
                            let src_len: usize = buffers[view.buffer].len();
                            proof {
                                assert(bviews[view.buffer as int] == buffers@[view.buffer as int]@);
                                assert(0 <= (count as int - 1) * attr_sstride(
                                    attrs_spec[ji].accessor,
                                )) by (nonlinear_arith)
                                    requires
                                        count as int >= 1,
                                        0 <= attr_sstride(attrs_spec[ji].accessor),
                                ;
                            }
                            let sbase: usize = view.offset + sa.accessor.offset;
                            let ghost pre = scratch@;
                            proof {
                                assert(bviews[view.buffer as int] == buffers@[view.buffer as int]@);
                                assert(count as int * st as int <= count as int * bvs_spec)
                                    by (nonlinear_arith)
                                    requires
                                        st as int <= bvs_spec,
                                        count as int >= 0,
                                ;
                            }
                            pack_attribute(
                                &mut scratch,
                                0,
                                st,
                                va.offset,
                                cl,
                                count,
                                buffers[view.buffer].as_slice(),
                                sbase,
                                sstride,
                            );
                            proof {
                                let cli = cl as int;
                                let offi = va.offset as int;
                                // the bytes just packed match the source view
                                assert forall|v: int| 0 <= v < count implies attr_copied_scratch(
                                    *layout,
                                    *prim,
                                    bviews,
                                    scratch@,
                                    bi,
                                    ji,
                                    v,
                                ) by {
                                    assert(chunk(scratch@, 0, st as int, offi, cli, v) == chunk(
                                        buffers@[view.buffer as int]@,
                                        sbase as int,
                                        sstride as int,
                                        0,
                                        cli,
                                        v,
                                    ));
                                }
                                // earlier attributes write disjoint ranges, so
                                // their bytes are untouched
                                assert forall|j2: int, v: int|
                                    0 <= j2 < ji && 0 <= v
                                        < count implies #[trigger] attr_copied_scratch(
                                    *layout,
                                    *prim,
                                    bviews,
                                    scratch@,
                                    bi,
                                    j2,
                                    v,
                                ) by {
                                    match resolve_attr(*layout, attrs_spec[j2]) {
                                        None => {},
                                        Some(va2) => {
                                            if va2.buffer as int == bi {
                                                lemma_attr_errors_none(
                                                    *layout,
                                                    attrs_spec,
                                                    bviews,
                                                    j2,
                                                );
                                                lemma_resolved_attr_facts(
                                                    *layout,
                                                    *prim,
                                                    bviews,
                                                    j2,
                                                );
                                                lemma_resolved_disjoint(
                                                    *layout,
                                                    *prim,
                                                    j2,
                                                    ji,
                                                );
                                                let acc2 = attrs_spec[j2].accessor;
                                                let off2 = va2.offset as int;
                                                let cl2 = attr_copy_len(va2, acc2);
                                                let lo2 = slot(0, st as int, off2, v);
                                                assert(v * st as int + st as int <= count as int
                                                    * st as int && 0 <= v * st as int)
                                                    by (nonlinear_arith)
                                                    requires
                                                        0 <= v < count as int,
                                                        0 <= st as int,
                                                ;
                                                assert forall|p: int|
                                                    lo2 <= p < lo2 + cl2 implies scratch@[p]
                                                    == pre[p] by {
                                                    assert(slot(0, st as int, off2, v) <= p < slot(
                                                        0,
                                                        st as int,
                                                        off2,
                                                        v,
                                                    ) + cl2);
                                                    assert(in_copy_region(
                                                        0,
                                                        st as int,
                                                        off2,
                                                        cl2,
                                                        count as int,
                                                        p,
                                                    ));
                                                    lemma_regions_disjoint(
                                                        st as int,
                                                        off2,
                                                        cl2,
                                                        offi,
                                                        cli,
                                                        count as int,
                                                        p,
                                                    );
                                                }
                                                assert(chunk(scratch@, 0, st as int, off2, cl2, v)
                                                    =~= chunk(pre, 0, st as int, off2, cl2, v));
                                                assert(attr_copied_scratch(
                                                    *layout,
                                                    *prim,
                                                    bviews,
                                                    pre,
                                                    bi,
                                                    j2,
                                                    v,
                                                ));
                                            }
                                        },
                                    }
                                }
                                // bytes no attribute writes are still zero
                                assert forall|p: int|
                                    0 <= p < sz && !covered_upto(
                                        *layout,
                                        *prim,
                                        bi,
                                        p,
                                        ji + 1,
                                    ) implies #[trigger] scratch@[p] == 0 by {
                                    assert(!covered_by(*layout, *prim, bi, p, ji));
                                    assert(!in_copy_region(
                                        0,
                                        st as int,
                                        offi,
                                        cli,
                                        count as int,
                                        p,
                                    ));
                                    assert(!covered_upto(*layout, *prim, bi, p, ji));
                                    assert(scratch@[p] == pre[p]);
                                }
                            }
                        }
                    }
                }
            }
            proof {
                if !applies {
                    assert forall|v: int| 0 <= v < count implies attr_copied_scratch(
                        *layout,
                        *prim,
                        bviews,
                        scratch@,
                        bi,
                        ji,
                        v,
                    ) by {
                        match resolve_attr(*layout, attrs_spec[ji]) {
                            None => {},
                            Some(va) => {
                                assert(va.buffer as int != bi || count == 0);
                                if va.buffer as int == bi {
                                    assert(count == 0);
                                }
                            },
                        }
                    }
                    assert forall|p: int|
                        0 <= p < sz && !covered_upto(
                            *layout,
                            *prim,
                            bi,
                            p,
                            ji + 1,
                        ) implies #[trigger] scratch@[p] == 0 by {
                        assert(!covered_upto(*layout, *prim, bi, p, ji));
                    }
                }
            }
            j = j + 1;
        }
        // append this buffer's scratch region to the arena and record its range
        let start: usize = arena.len();
        let ghost arena_pre = arena@;
        let ghost scr = scratch@;
        arena.append(&mut scratch);
        let end: usize = arena.len();
        ranges.push(crate::gfx::ByteRange { start, end });
        proof {
            lemma_buffer_size_nonneg(layout.attributes@, bi);
            assert(arena@ == arena_pre + scr);
            assert(count as int * prefix_bvs(*layout, bi) + count as int * bvs_spec == count as int
                * (prefix_bvs(*layout, bi) + bvs_spec)) by (nonlinear_arith);
            assert(arena@.len() as int == base0 + count as int * prefix_bvs(*layout, bi + 1));
            // the old arena contents, including every earlier region, stay put
            assert forall|p: int| 0 <= p < arena_pre.len() implies arena@[p] == arena_pre[p] by {}
            lemma_prefix_bvs_mono(*layout, 0, bi);
            assert(0 <= count as int * prefix_bvs(*layout, bi)) by (nonlinear_arith)
                requires
                    0 <= count as int,
                    0 <= prefix_bvs(*layout, bi),
            ;
            assert(arena@.subrange(0, base0) =~= old(arena)@);
            assert(arena@.subrange(0, arena_pre.len() as int) =~= arena_pre);
            assert(start as int == range_base(*layout, base0, count as int, bi));
            // chunks packed for earlier buffers survive the append
            assert forall|j2: int, v: int|
                0 <= j2 < attrs_spec.len() && 0 <= v < count && (match resolve_attr(
                    *layout,
                    attrs_spec[j2],
                ) {
                    Some(va) => (va.buffer as int) < bi + 1,
                    None => true,
                }) implies #[trigger] attr_copied(*layout, *prim, bviews, arena@, base0, j2, v) by {
                match resolve_attr(*layout, attrs_spec[j2]) {
                    None => {},
                    Some(va2) => {
                        lemma_attr_errors_none(*layout, attrs_spec, bviews, j2);
                        lemma_resolved_attr_facts(*layout, *prim, bviews, j2);
                        let b2 = va2.buffer as int;
                        let acc2 = attrs_spec[j2].accessor;
                        let view2 = acc2.view->Some_0;
                        let st2 = layout.spec_stride(b2);
                        let bvs2 = VertexLayout::spec_buffer_size(layout.attributes@, b2);
                        let off2 = va2.offset as int;
                        let cl2 = attr_copy_len(va2, acc2);
                        if b2 < bi {
                            lemma_prefix_bvs_mono(*layout, b2 + 1, bi);
                            assert(count as int * prefix_bvs(*layout, b2 + 1) <= count as int
                                * prefix_bvs(*layout, bi)) by (nonlinear_arith)
                                requires
                                    0 <= count as int,
                                    prefix_bvs(*layout, b2 + 1) <= prefix_bvs(*layout, bi),
                            ;
                            lemma_attr_copied_grow(
                                *layout,
                                *prim,
                                bviews,
                                arena_pre,
                                arena@,
                                base0,
                                j2,
                                v,
                            );
                        } else {
                            // this very buffer: shift the scratch chunk into
                            // the arena at the region base
                            assert(attr_copied_scratch(*layout, *prim, bviews, scr, bi, j2, v));
                            let rb = range_base(*layout, base0, count as int, bi);
                            assert(rb == start as int);
                            assert(0 <= v * st2 && v * st2 + st2 <= count as int * st2 && count
                                as int * st2 <= count as int * bvs2) by (nonlinear_arith)
                                requires
                                    0 <= v < count as int,
                                    0 <= st2 <= bvs2,
                            ;
                            let lo = slot(0, st2, off2, v);
                            assert(lo + cl2 <= scr.len());
                            assert forall|p: int| rb + lo <= p < rb + lo + cl2 implies arena@[p]
                                == scr[p - rb] by {
                                assert(arena@[arena_pre.len() + (p - rb)] == scr[p - rb]);
                            }
                            assert(chunk(arena@, rb, st2, off2, cl2, v) =~= chunk(
                                scr,
                                0,
                                st2,
                                off2,
                                cl2,
                                v,
                            ));
                        }
                    },
                }
            }
            // unwritten bytes of every region so far are zero
            assert forall|b2: int, p: int|
                0 <= b2 < bi + 1 && 0 <= p < count as int * VertexLayout::spec_buffer_size(
                    layout.attributes@,
                    b2,
                ) && !covered(*layout, *prim, b2, p) implies arena@[range_base(
                *layout,
                base0,
                count as int,
                b2,
            ) + p] == 0 by {
                let rb = range_base(*layout, base0, count as int, b2);
                if b2 < bi {
                    let bvs2 = VertexLayout::spec_buffer_size(layout.attributes@, b2);
                    lemma_prefix_bvs_mono(*layout, 0, b2);
                    lemma_prefix_bvs_mono(*layout, b2 + 1, bi);
                    assert(prefix_bvs(*layout, b2) + bvs2 == prefix_bvs(*layout, b2 + 1));
                    assert(count as int * prefix_bvs(*layout, b2) + count as int * bvs2 == count
                        as int * (prefix_bvs(*layout, b2) + bvs2) && 0 <= count as int * prefix_bvs(
                        *layout,
                        b2,
                    ) && count as int * (prefix_bvs(*layout, b2) + bvs2) <= count as int
                        * prefix_bvs(*layout, bi)) by (nonlinear_arith)
                        requires
                            0 <= count as int,
                            0 <= prefix_bvs(*layout, b2),
                            prefix_bvs(*layout, b2) + bvs2 <= prefix_bvs(*layout, bi),
                    ;
                    assert(rb + p < arena_pre.len());
                } else {
                    assert(arena@[arena_pre.len() + p] == scr[p]);
                    assert(covered_upto(*layout, *prim, bi, p, nattrs as int) == covered(
                        *layout,
                        *prim,
                        bi,
                        p,
                    ));
                }
            }
        }
        b = b + 1;
    }
    proof {
        assert forall|j2: int, v: int|
            0 <= j2 < attrs_spec.len() && 0 <= v < count implies #[trigger] attr_copied(
            *layout,
            *prim,
            bviews,
            arena@,
            base0,
            j2,
            v,
        ) by {
            match resolve_attr(*layout, attrs_spec[j2]) {
                None => {},
                Some(va) => {
                    lemma_attr_errors_none(*layout, attrs_spec, bviews, j2);
                    assert(attr_error(*layout, attrs_spec[j2], bviews) is None);
                    assert((va.buffer as int) < nb as int);
                },
            }
        }
    }
    let vertices = Vertices { count: count, buffers: ranges };
    let out_name: Option<String> = match name {
        Some(s) => Some(s.clone()),
        None => None,
    };
    Ok(
        Mesh {
            name: out_name,
            mode: mode,
            material: prim.material,
            indices: indices_out,
            vertices: vertices,
        },
    )
}

/// The primitives of one source mesh, each paired with the mesh's name.
pub open spec fn prims_of(m: SourceMesh) -> Seq<(Option<Seq<char>>, SourcePrimitive)> {
    m.primitives@.map_values(|p: SourcePrimitive| (name_view(m.name), p))
}

/// All primitives of a document, flattened in scene order, each paired with
/// its mesh's name.  The parser emits one mesh per primitive, in this order.
pub open spec fn flat_prims(meshes: Seq<SourceMesh>) -> Seq<(Option<Seq<char>>, SourcePrimitive)>
    decreases meshes.len(),
{
    if meshes.len() == 0 {
        Seq::empty()
    } else {
        flat_prims(meshes.drop_last()) + prims_of(meshes.last())
    }
}

/// Arena bytes one primitive appends: its vertex count times the total
/// per-vertex size over all layout buffers.
pub open spec fn prim_bytes(layout: VertexLayout, prim: SourcePrimitive) -> int {
    prim_vertex_count(prim) * prefix_bvs(layout, layout.buffers@.len() as int)
}

/// Arena bytes appended by the first `k` primitives of a flattened document.
pub open spec fn flat_bytes_prefix(
    layout: VertexLayout,
    flat: Seq<(Option<Seq<char>>, SourcePrimitive)>,
    k: int,
) -> int
    decreases k,
{
    if k <= 0 {
        0
    } else {
        flat_bytes_prefix(layout, flat, k - 1) + prim_bytes(layout, flat[k - 1].1)
    }
}

/// Primitive `j` of mesh `i` of a document.
pub open spec fn prim_at(meshes: Seq<SourceMesh>, i: int, j: int) -> SourcePrimitive {
    meshes[i].primitives@[j]
}

/// Every primitive strictly before mesh `i`, primitive `j` — in scene
/// order — passes its checks.
pub open spec fn checks_ok_before(
    layout: VertexLayout,
    meshes: Seq<SourceMesh>,
    buffers: Seq<Seq<u8>>,
    i: int,
    j: int,
) -> bool {
    forall|i2: int, j2: int|
        0 <= i2 < meshes.len() && 0 <= j2 < meshes[i2].primitives@.len() && (i2 < i || (i2 == i
            && j2 < j)) ==> prim_check(layout, #[trigger] prim_at(meshes, i2, j2), buffers) is None
}

/// Every primitive of the document passes its checks.
pub open spec fn all_checks_ok(
    layout: VertexLayout,
    meshes: Seq<SourceMesh>,
    buffers: Seq<Seq<u8>>,
) -> bool {
    forall|i2: int, j2: int|
        0 <= i2 < meshes.len() && 0 <= j2 < meshes[i2].primitives@.len() ==> prim_check(
            layout,
            #[trigger] prim_at(meshes, i2, j2),
            buffers,
        ) is None
}

/// Every primitive of the document is structurally well-formed.
pub open spec fn meshes_wf(meshes: Seq<SourceMesh>) -> bool {
    forall|i2: int, j2: int|
        0 <= i2 < meshes.len() && 0 <= j2 < meshes[i2].primitives@.len() ==> prim_wf(
            #[trigger] prim_at(meshes, i2, j2),
        )
}

/// Whether two source attributes pack into the same target slot.
fn same_target(a: &Result<AttributeSemantic, UnsupportedAttribute>, b: &Result<
    AttributeSemantic,
    UnsupportedAttribute,
>) -> (r: bool)
    ensures
        r == match (a, b) {
            (Ok(x), Ok(y)) => *x == *y,
            _ => false,
        },
{
    match (a, b) {
        (Ok(x), Ok(y)) => x == y,
        _ => false,
    }
}

/// Check the structural facts the parser states of a primitive: uniform
/// vertex counts across its attribute streams, and no two attributes
/// packing into the same target slot.
fn check_primitive(prim: &SourcePrimitive) -> (r: bool)
    ensures
        r == prim_wf(*prim),
{
    let n: usize = prim.attributes.len();
    let count: usize = match find_vertex_count(prim) {
        Some(c) => c,
        None => 0,
    };
    let mut j: usize = 0;
    while j < n
        invariant
            n == prim.attributes@.len(),
            count as int == prim_vertex_count(*prim),
            0 <= j <= n,
            forall|j2: int|
                0 <= j2 < j && (#[trigger] prim.attributes@[j2]).accessor.view is Some
                    ==> prim.attributes@[j2].accessor.count as int == prim_vertex_count(*prim),
        decreases n - j,
    {
        if prim.attributes[j].accessor.view.is_some() && prim.attributes[j].accessor.count != count
        {
            return false;
        }
        j = j + 1;
    }
    let mut targets: Vec<Result<AttributeSemantic, UnsupportedAttribute>> = Vec::new();
    let mut j: usize = 0;
    while j < n
        invariant
            n == prim.attributes@.len(),
            0 <= j <= n,
            targets@.len() == j,
            forall|j2: int|
                0 <= j2 < j ==> (#[trigger] targets@[j2] matches Ok(s) && sem_to_attr(
                    prim.attributes@[j2].semantic,
                ) == Some(s)) || (targets@[j2] is Err && sem_to_attr(
                    prim.attributes@[j2].semantic,
                ) is None),
        decreases n - j,
    {
        targets.push(semantic_from_source(prim.attributes[j].semantic));
        j = j + 1;
    }
    let mut j1: usize = 0;
    while j1 < n
        invariant
            n == prim.attributes@.len(),
            targets@.len() == n,
            forall|j2: int|
                0 <= j2 < n ==> (#[trigger] targets@[j2] matches Ok(s) && sem_to_attr(
                    prim.attributes@[j2].semantic,
                ) == Some(s)) || (targets@[j2] is Err && sem_to_attr(
                    prim.attributes@[j2].semantic,
                ) is None),
            0 <= j1 <= n,
            forall|a: int, b: int|
                0 <= a < j1 && a < b < n && sem_to_attr(
                    (#[trigger] prim.attributes@[a]).semantic,
                ) is Some && sem_to_attr((#[trigger] prim.attributes@[b]).semantic) is Some
                    ==> sem_to_attr(prim.attributes@[a].semantic) != sem_to_attr(
                    prim.attributes@[b].semantic,
                ),
        decreases n - j1,
    {
        let mut j2: usize = j1 + 1;
        while j2 < n
            invariant
                n == prim.attributes@.len(),
                targets@.len() == n,
                forall|k: int|
                    0 <= k < n ==> (#[trigger] targets@[k] matches Ok(s) && sem_to_attr(
                        prim.attributes@[k].semantic,
                    ) == Some(s)) || (targets@[k] is Err && sem_to_attr(
                        prim.attributes@[k].semantic,
                    ) is None),
                0 <= j1 < n,
                j1 < j2 <= n,
                forall|b: int|
                    j1 < b < j2 && sem_to_attr(
                        (#[trigger] prim.attributes@[b]).semantic,
                    ) is Some && sem_to_attr(prim.attributes@[j1 as int].semantic) is Some
                        ==> sem_to_attr(prim.attributes@[j1 as int].semantic) != sem_to_attr(
                        prim.attributes@[b].semantic,
                    ),
            decreases n - j2,
        {
            if same_target(&targets[j1], &targets[j2]) {
                return false;
            }
            j2 = j2 + 1;
        }
        j1 = j1 + 1;
    }
    true
}

/// Check the structural facts the parser states of a whole document, so a
/// caller holding an arbitrary scene can establish them at run time rather
/// than assume them.
pub fn check_document(meshes: &[SourceMesh]) -> (r: bool)
    ensures
        r == meshes_wf(meshes@),
{
    let nm: usize = meshes.len();
    let mut i: usize = 0;
    while i < nm
        invariant
            nm == meshes@.len(),
            0 <= i <= nm,
            forall|i2: int, j2: int|
                0 <= i2 < i && 0 <= j2 < meshes@[i2].primitives@.len() ==> prim_wf(#[trigger] prim_at(meshes@, i2, j2)),
        decreases nm - i,
    {
        let np: usize = meshes[i].primitives.len();
        let mut j: usize = 0;
        while j < np
            invariant
                nm == meshes@.len(),
                0 <= i < nm,
                np == meshes@[i as int].primitives@.len(),
                0 <= j <= np,
                forall|i2: int, j2: int|
                    0 <= i2 < i && 0 <= j2 < meshes@[i2].primitives@.len() ==> prim_wf(
                        #[trigger] prim_at(meshes@, i2, j2),
                    ),
                forall|j2: int|
                    0 <= j2 < j ==> prim_wf(#[trigger] prim_at(meshes@, i as int, j2)),
            decreases np - j,
        {
            if !check_primitive(&meshes[i].primitives[j]) {
                proof {
                    assert(!prim_wf(prim_at(meshes@, i as int, j as int)));
                }
                return false;
            }
            j = j + 1;
        }
        i = i + 1;
    }
    true
}

/// A packed mesh survives growing the arena: all its byte ranges lie below
/// the old length, and appending never rewrites them.
proof fn lemma_mesh_packed_grow(
    layout: VertexLayout,
    name: Option<Seq<char>>,
    prim: SourcePrimitive,
    buffers: Seq<Seq<u8>>,
    a1: Seq<u8>,
    a2: Seq<u8>,
    base: int,
    m: Mesh,
)
    requires
        layout.packable(),
        first_attr_error(layout, prim.attributes@, buffers) is None,
        0 <= base,
        mesh_packed(layout, name, prim, buffers, a1, base, m),
        a1.len() <= a2.len(),
        a2.subrange(0, a1.len() as int) == a1,
    ensures
        mesh_packed(layout, name, prim, buffers, a2, base, m),
{
    let count = prim_vertex_count(prim);
    let nb = layout.buffers@.len() as int;
    assert forall|j: int, v: int|
        0 <= j < prim.attributes@.len() && 0 <= v < count implies #[trigger] attr_copied(
        layout,
        prim,
        buffers,
        a2,
        base,
        j,
        v,
    ) by {
        match resolve_attr(layout, prim.attributes@[j]) {
            None => {},
            Some(va) => {
                lemma_attr_errors_none(layout, prim.attributes@, buffers, j);
                lemma_resolved_attr_facts(layout, prim, buffers, j);
                let b = va.buffer as int;
                lemma_prefix_bvs_mono(layout, b + 1, nb);
                assert(count * prefix_bvs(layout, b + 1) <= count * prefix_bvs(layout, nb))
                    by (nonlinear_arith)
                    requires
                        0 <= count,
                        prefix_bvs(layout, b + 1) <= prefix_bvs(layout, nb),
                ;
                lemma_attr_copied_grow(layout, prim, buffers, a1, a2, base, j, v);
            },
        }
    }
    assert forall|b: int, p: int|
        0 <= b < nb && 0 <= p < count * VertexLayout::spec_buffer_size(layout.attributes@, b)
            && !covered(layout, prim, b, p) implies a2[range_base(layout, base, count, b) + p]
        == 0 by {
        let bvs = VertexLayout::spec_buffer_size(layout.attributes@, b);
        lemma_prefix_bvs_mono(layout, 0, b);
        lemma_prefix_bvs_mono(layout, b + 1, nb);
        assert(prefix_bvs(layout, b) + bvs == prefix_bvs(layout, b + 1));
        assert(0 <= count * prefix_bvs(layout, b) && count * prefix_bvs(layout, b) + count * bvs
            == count * (prefix_bvs(layout, b) + bvs) && count * (prefix_bvs(layout, b) + bvs)
            <= count * prefix_bvs(layout, nb)) by (nonlinear_arith)
            requires
                0 <= count,
                0 <= prefix_bvs(layout, b),
                prefix_bvs(layout, b) + bvs <= prefix_bvs(layout, nb),
        ;
        let pos = range_base(layout, base, count, b) + p;
        assert(pos < a1.len());
        assert(a2.subrange(0, a1.len() as int)[pos] == a2[pos]);
        assert(a1[pos] == 0);
    }
}

/// Parse every primitive of every mesh, in scene order, packing vertex
/// data into the shared arena `data`.  One parsed mesh is produced per
/// source primitive.  The first failing primitive, in scene order, decides
/// the error; bytes already appended for earlier primitives stay in place.
pub fn process_meshes(
    data: &mut Vec<u8>,
    layout: &VertexLayout,
    meshes: &[SourceMesh],
    data_buffers: &[Vec<u8>],
) -> (r: Result<Vec<Mesh>, Error>)
    requires
        layout.packable(),
        meshes_wf(meshes@),
    ensures
        final(data)@.len() >= old(data)@.len(),
        final(data)@.subrange(0, old(data)@.len() as int) == old(data)@,
        match r {
            Ok(out) => {
                &&& all_checks_ok(*layout, meshes@, views(data_buffers@))
                &&& out@.len() == flat_prims(meshes@).len()
                &&& forall|k: int|
                    0 <= k < flat_prims(meshes@).len() ==> mesh_packed(
                        *layout,
                        flat_prims(meshes@)[k].0,
                        flat_prims(meshes@)[k].1,
                        views(data_buffers@),
                        final(data)@,
                        old(data)@.len() + flat_bytes_prefix(*layout, flat_prims(meshes@), k),
                        #[trigger] out@[k],
                    )
                &&& final(data)@.len() == old(data)@.len() + flat_bytes_prefix(
                    *layout,
                    flat_prims(meshes@),
                    flat_prims(meshes@).len() as int,
                )
            },
            Err(e) => exists|i: int, j: int|
                0 <= i < meshes@.len() && 0 <= j < meshes@[i].primitives@.len() && prim_check(
                    *layout,
                    #[trigger] prim_at(meshes@, i, j),
                    views(data_buffers@),
                ) == Some(e) && checks_ok_before(*layout, meshes@, views(data_buffers@), i, j) && ({
                    // the arena grew by exactly the primitives before the
                    // failing one; when the first primitive fails it is
                    // unchanged
                    let packed = flat_prims(meshes@.take(i)) + prims_of(meshes@[i]).take(j);
                    final(data)@.len() == old(data)@.len() + flat_bytes_prefix(
                        *layout,
                        packed,
                        packed.len() as int,
                    )
                }),
        },
{
    let ghost bviews = views(data_buffers@);
    let ghost base00 = data@.len() as int;
    let nm: usize = meshes.len();
    let mut out: Vec<Mesh> = Vec::new();
    let ghost mut done: Seq<(Option<Seq<char>>, SourcePrimitive)> = Seq::empty();
    let mut i: usize = 0;
    proof {
        assert(meshes@.take(0) =~= Seq::<SourceMesh>::empty());
        assert(data@.subrange(0, base00) =~= old(data)@);
    }
    while i < nm
        invariant
            nm == meshes@.len(),
            layout.packable(),
            meshes_wf(meshes@),
            bviews == views(data_buffers@),
            base00 == old(data)@.len(),
            0 <= i <= nm,
            done == flat_prims(meshes@.take(i as int)),
            checks_ok_before(*layout, meshes@, bviews, i as int, 0),
            out@.len() == done.len(),
            data@.len() as int == base00 + flat_bytes_prefix(*layout, done, done.len() as int),
            data@.subrange(0, base00) == old(data)@,
            forall|k: int|
                0 <= k < done.len() ==> prim_check(*layout, done[k].1, bviews) is None
                    && first_attr_error(*layout, done[k].1.attributes@, bviews) is None,
            forall|k: int|
                0 <= k < done.len() ==> mesh_packed(
                    *layout,
                    done[k].0,
                    done[k].1,
                    bviews,
                    data@,
                    base00 + flat_bytes_prefix(*layout, done, k),
                    #[trigger] out@[k],
                ),
        decreases nm - i,
    {
        let ghost ii = i as int;
        let mesh = &meshes[i];
        let np: usize = mesh.primitives.len();
        let mut j: usize = 0;
        proof {
            assert(prims_of(meshes@[ii]).take(0) =~= Seq::<
                (Option<Seq<char>>, SourcePrimitive),
            >::empty());
            assert(done + prims_of(meshes@[ii]).take(0) =~= done);
        }
        while j < np
            invariant
                nm == meshes@.len(),
                layout.packable(),
                meshes_wf(meshes@),
                bviews == views(data_buffers@),
                base00 == old(data)@.len(),
                0 <= ii < nm,
                ii == i as int,
                mesh == meshes@[ii],
                np == meshes@[ii].primitives@.len(),
                0 <= j <= np,
                checks_ok_before(*layout, meshes@, bviews, ii, j as int),
                done == flat_prims(meshes@.take(ii)) + prims_of(meshes@[ii]).take(j as int),
                out@.len() == done.len(),
                data@.len() as int == base00 + flat_bytes_prefix(*layout, done, done.len() as int),
                data@.subrange(0, base00) == old(data)@,
                forall|k: int|
                    0 <= k < done.len() ==> prim_check(*layout, done[k].1, bviews) is None
                        && first_attr_error(*layout, done[k].1.attributes@, bviews) is None,
                forall|k: int|
                    0 <= k < done.len() ==> mesh_packed(
                        *layout,
                        done[k].0,
                        done[k].1,
                        bviews,
                        data@,
                        base00 + flat_bytes_prefix(*layout, done, k),
                        #[trigger] out@[k],
                    ),
            decreases np - j,
        {
            let ghost ji = j as int;
            let ghost prim_spec = meshes@[ii].primitives@[ji];
            let ghost data_pre = data@;
            proof {
                assert(prim_wf(prim_at(meshes@, ii, ji)));
            }
            let prim = &mesh.primitives[j];
            match pack_primitive(layout, &mesh.name, prim, data_buffers, data) {
                Err(e) => {
                    proof {
                        assert(prim_check(*layout, prim_at(meshes@, ii, ji), bviews) == Some(e));
                        lemma_flat_bytes_prefix_nonneg(*layout, done, done.len() as int);
                        assert(data@.subrange(0, base00) =~= old(data)@);
                    }
                    return Err(e);
                },
                Ok(m) => {
                    out.push(m);
                    proof {
                        lemma_flat_bytes_prefix_nonneg(*layout, done, done.len() as int);
                        lemma_prim_bytes_nonneg(*layout, prim_spec);
                        let pair = (name_view(meshes@[ii].name), prim_spec);
                        let done2 = done.push(pair);
                        assert(prims_of(meshes@[ii]).take(ji + 1) =~= prims_of(meshes@[ii]).take(
                            ji,
                        ).push(pair));
                        assert(done2 =~= flat_prims(meshes@.take(ii)) + prims_of(
                            meshes@[ii],
                        ).take(ji + 1));
                        // prefix sums over the extended list agree below its end
                        assert forall|k: int| 0 <= k <= done.len() implies flat_bytes_prefix(
                            *layout,
                            done2,
                            k,
                        ) == flat_bytes_prefix(*layout, done, k) by {
                            lemma_flat_bytes_prefix_stable(*layout, done, done2, k);
                        }
                        assert(flat_bytes_prefix(*layout, done2, done2.len() as int)
                            == flat_bytes_prefix(*layout, done, done.len() as int) + prim_bytes(
                            *layout,
                            prim_spec,
                        ));
                        // earlier packed meshes survive the append
                        assert forall|k: int| 0 <= k < done.len() implies mesh_packed(
                            *layout,
                            done2[k].0,
                            done2[k].1,
                            bviews,
                            data@,
                            base00 + flat_bytes_prefix(*layout, done2, k),
                            #[trigger] out@[k],
                        ) by {
                            assert(done2[k] == done[k]);
                            assert(out@[k] == out@.subrange(0, out@.len() - 1)[k]);
                            lemma_flat_bytes_prefix_nonneg(*layout, done, k);
                            lemma_mesh_packed_grow(
                                *layout,
                                done[k].0,
                                done[k].1,
                                bviews,
                                data_pre,
                                data@,
                                base00 + flat_bytes_prefix(*layout, done, k),
                                out@[k],
                            );
                        }
                        lemma_flat_bytes_prefix_nonneg(*layout, done, done.len() as int);
                        lemma_prefix_preserved(data_pre, data@, base00);
                        assert(data_pre.subrange(0, base00) == old(data)@);
                        done = done2;
                        // the mesh just packed stands at the end
                        assert(out@[done.len() - 1] == m);
                        assert(mesh_packed(
                            *layout,
                            pair.0,
                            pair.1,
                            bviews,
                            data@,
                            base00 + flat_bytes_prefix(*layout, done, done.len() - 1),
                            m,
                        ));
                    }
                },
            }
            j = j + 1;
        }
        proof {
            assert(meshes@.take(ii + 1).drop_last() =~= meshes@.take(ii));
            assert(meshes@.take(ii + 1).last() == meshes@[ii]);
            assert(prims_of(meshes@[ii]).take(np as int) =~= prims_of(meshes@[ii]));
            assert(done =~= flat_prims(meshes@.take(ii + 1)));
        }
        i = i + 1;
    }
    proof {
        assert(meshes@.take(nm as int) =~= meshes@);
        lemma_flat_bytes_prefix_nonneg(*layout, done, done.len() as int);
    }
    Ok(out)
}

/// A primitive appends a non-negative number of bytes.
proof fn lemma_prim_bytes_nonneg(layout: VertexLayout, prim: SourcePrimitive)
    ensures
        0 <= prim_bytes(layout, prim),
{
    let nb = layout.buffers@.len() as int;
    lemma_prefix_bvs_mono(layout, 0, nb);
    assert(0 <= prim_vertex_count(prim) * prefix_bvs(layout, nb)) by (nonlinear_arith)
        requires
            0 <= prim_vertex_count(prim),
            0 <= prefix_bvs(layout, nb),
    ;
}

/// Each primitive appends a non-negative number of bytes, so the prefix
/// sums are non-negative and grow with the prefix length.
proof fn lemma_flat_bytes_prefix_nonneg(
    layout: VertexLayout,
    flat: Seq<(Option<Seq<char>>, SourcePrimitive)>,
    k: int,
)
    ensures
        0 <= flat_bytes_prefix(layout, flat, k),
    decreases k,
{
    if k > 0 {
        lemma_flat_bytes_prefix_nonneg(layout, flat, k - 1);
        let prim = flat[k - 1].1;
        let nb = layout.buffers@.len() as int;
        lemma_prefix_bvs_mono(layout, 0, nb);
        assert(0 <= prim_vertex_count(prim) * prefix_bvs(layout, nb)) by (nonlinear_arith)
            requires
                0 <= prim_vertex_count(prim),
                0 <= prefix_bvs(layout, nb),
        ;
    }
}

/// A prefix of a grown byte sequence reads as it did before the growth.
proof fn lemma_prefix_preserved(a1: Seq<u8>, a2: Seq<u8>, n: int)
    requires
        0 <= n <= a1.len() <= a2.len(),
        a2.subrange(0, a1.len() as int) == a1,
    ensures
        a2.subrange(0, n) == a1.subrange(0, n),
{
    assert forall|p: int| 0 <= p < n implies a2[p] == a1[p] by {
        assert(a2.subrange(0, a1.len() as int)[p] == a2[p]);
    }
    assert(a2.subrange(0, n) =~= a1.subrange(0, n));
}

/// An index accessor that has a buffer view but declares an element
/// datatype outside the supported unsigned widths always decides the
/// primitive's error: index checks come before everything else.
pub proof fn lemma_index_format_error(
    layout: VertexLayout,
    prim: SourcePrimitive,
    buffers: Seq<Seq<u8>>,
)
    requires
        prim.indices matches Some(acc) && acc.view is Some && index_kind_of(acc.data_type) is None,
    ensures
        prim_check(layout, prim, buffers) == Some(Error::UnsupportedIndexFormat),
{
}

/// Prefix sums over a flattened document only depend on the entries below
/// the prefix length.
proof fn lemma_flat_bytes_prefix_stable(
    layout: VertexLayout,
    f1: Seq<(Option<Seq<char>>, SourcePrimitive)>,
    f2: Seq<(Option<Seq<char>>, SourcePrimitive)>,
    k: int,
)
    requires
        0 <= k <= f1.len(),
        f1.len() <= f2.len(),
        forall|k2: int| 0 <= k2 < f1.len() ==> f1[k2] == f2[k2],
    ensures
        flat_bytes_prefix(layout, f1, k) == flat_bytes_prefix(layout, f2, k),
    decreases k,
{
    if k > 0 {
        lemma_flat_bytes_prefix_stable(layout, f1, f2, k - 1);
    }
}

/// Parse a whole scene document: every mesh primitive becomes one parsed
/// mesh whose vertex bytes live in the scene's fresh arena.
pub fn load(config: &Config, meshes: &[SourceMesh], data_buffers: &[Vec<u8>]) -> (r: Result<
    Scene,
    Error,
>)
    requires
        config.vertex_layout.packable(),
        meshes_wf(meshes@),
    ensures
        match r {
            Ok(scene) => {
                &&& all_checks_ok(config.vertex_layout, meshes@, views(data_buffers@))
                &&& scene.meshes matches Some(out)
                &&& out@.len() == flat_prims(meshes@).len()
                &&& forall|k: int|
                    0 <= k < flat_prims(meshes@).len() ==> mesh_packed(
                        config.vertex_layout,
                        flat_prims(meshes@)[k].0,
                        flat_prims(meshes@)[k].1,
                        views(data_buffers@),
                        scene.data@,
                        flat_bytes_prefix(config.vertex_layout, flat_prims(meshes@), k),
                        #[trigger] (scene.meshes->Some_0)@[k],
                    )
                &&& scene.data@.len() == flat_bytes_prefix(
                    config.vertex_layout,
                    flat_prims(meshes@),
                    flat_prims(meshes@).len() as int,
                )
                &&& scene.images is None
                &&& scene.textures is None
                &&& scene.samplers is None
            },
            Err(e) => exists|i: int, j: int|
                0 <= i < meshes@.len() && 0 <= j < meshes@[i].primitives@.len() && prim_check(
                    config.vertex_layout,
                    #[trigger] prim_at(meshes@, i, j),
                    views(data_buffers@),
                ) == Some(e) && checks_ok_before(
                    config.vertex_layout,
                    meshes@,
                    views(data_buffers@),
                    i,
                    j,
                ),
        },
{
    let mut data: Vec<u8> = Vec::new();
    let out = process_meshes(&mut data, &config.vertex_layout, meshes, data_buffers)?;
    Ok(
        Scene {
            meshes: Some(out),
            images: None,
            textures: None,
            samplers: None,
            data: data,
        },
    )
}

} // verus!
