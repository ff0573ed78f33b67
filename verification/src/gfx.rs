//! Vertex layout engine and the data model shared by the parser, the packing
//! pipeline and the frame renderer: attribute semantics and kinds, the target
//! vertex layout, parsed meshes and scenes.

use vstd::prelude::*;

verus! {

/// Byte size of one 32-bit float component.
pub const FLOAT32_SIZE: usize = 4;

/// Sampler magnification filter.
#[derive(Default, Clone, Copy, Debug)]
pub enum MagFilter {
    #[default]
    Linear,
    Nearest,
}

/// Sampler minification filter.
#[derive(Default, Clone, Copy, Debug)]
pub enum MinFilter {
    #[default]
    Linear,
    Nearest,
    NearestMipmapNearest,
    NearestMipmapLinear,
    LinearMipmapLinear,
    LinearMipmapNearest,
}

/// Texture coordinate wrapping mode.
#[derive(Default, Clone, Copy, Debug)]
pub enum Wrap {
    Repeat,
    #[default]
    Clamp,
    Mirrored,
}

/// Sampler state for a texture.
#[derive(Clone, Copy, Debug)]
pub struct Sampler {
    pub min_filter: MinFilter,
    pub mag_filter: MagFilter,
    pub wrap_u: Wrap,
    pub wrap_v: Wrap,
}

/// A texture: an image index plus an optional sampler index.
pub struct TextureImage {
    pub image: usize,
    pub sampler: Option<usize>,
}

/// Pixel format of a decoded image.
#[derive(Clone, Copy, Debug)]
pub enum ImageFormat {
    R8,
    Rg8,
    Rgb8,
    Rgba8,
    R16,
    Rg16,
    Rgb16,
    Rgba16,
    Rf32,
    RgF32,
    RgbF32,
    RgbaF32,
}

/// A decoded image: raw pixels plus dimensions and format.
#[derive(Clone, Debug)]
pub struct Image {
    pub data: Vec<u8>,
    pub width: u32,
    pub height: u32,
    pub format: ImageFormat,
}

/// Meaning of a vertex attribute.  At most one attribute per semantic may
/// appear in a layout.
#[derive(Clone, Copy, Debug, PartialEq, Eq, Structural)]
pub enum AttributeSemantic {
    Position,
    UV(u8),
}

/// Component kind of a vertex attribute: a vector of 32-bit floats.
#[derive(Clone, Copy, Debug, PartialEq, Eq, Structural)]
pub enum AttributeKind {
    Vec2,
    Vec3,
    Vec4,
}

impl AttributeKind {
    /// Number of components, as a spec-level value.
    pub open spec fn spec_components(self) -> u8 {
        match self {
            AttributeKind::Vec2 => 2,
            AttributeKind::Vec3 => 3,
            AttributeKind::Vec4 => 4,
        }
    }

    /// Byte size of the whole attribute, as a spec-level value.
    pub open spec fn spec_size(self) -> int {
        4 * self.spec_components()
    }

    /// Byte size of one component.  Every kind is made of 32-bit floats.
    pub fn component_size(self) -> (r: usize)
        ensures
            r == FLOAT32_SIZE,
    {
        match self {
            AttributeKind::Vec2 | AttributeKind::Vec3 | AttributeKind::Vec4 => FLOAT32_SIZE,
        }
    }

    /// Number of components.
    pub fn components(self) -> (r: u8)
        ensures
            r == self.spec_components(),
    {
        match self {
            AttributeKind::Vec2 => 2,
            AttributeKind::Vec3 => 3,
            AttributeKind::Vec4 => 4,
        }
    }

    /// Byte size of the whole attribute.
    pub fn size(self) -> (r: usize)
        ensures
            r == self.spec_size(),
    {
        self.component_size() * usize::from(self.components())
    }
}

/// A parsed index stream: element kind, source buffer index, element count
/// and the raw bytes, copied verbatim from the source.
#[derive(Clone, Debug)]
pub struct Indices {
    pub kind: IndexKind,
    pub buffer: usize,
    pub count: usize,
    pub data: Vec<u8>,
}

/// Width of one index element.
#[derive(Clone, Copy, Debug, PartialEq, Eq, Structural)]
pub enum IndexKind {
    U8,
    U16,
    U32,
}

/// Primitive topology of a parsed mesh.
#[derive(Clone, Copy, Debug, PartialEq, Eq, Structural)]
pub enum Primitive {
    Triangles,
    TriangleStrips,
    TriangleFan,
}

/// A half-open byte range into the shared scene arena.
#[derive(Clone, Copy, Debug, PartialEq, Eq, Structural)]
pub struct ByteRange {
    pub start: usize,
    pub end: usize,
}

/// Vertex data of a parsed mesh: the vertex count and one byte range per
/// target-layout buffer into the shared scene arena.
#[derive(Clone, Debug)]
pub struct Vertices {
    pub count: usize,
    pub buffers: Vec<ByteRange>,
}

/// One parsed mesh, ready for packing.
#[derive(Clone, Debug)]
pub struct Mesh {
    pub name: Option<String>,
    pub mode: Primitive,
    pub material: Option<usize>,
    pub indices: Option<Indices>,
    pub vertices: Vertices,
}

/// A parsed scene: its meshes plus the shared byte arena their vertex byte
/// ranges index into.  Images, textures and samplers are part of the data
/// model but not required by the pipeline; material description is not
/// modeled at all — the parser never fills it and the pipeline never reads
/// it.
pub struct Scene {
    pub meshes: Option<Vec<Mesh>>,
    pub images: Option<Vec<Image>>,
    pub textures: Option<Vec<TextureImage>>,
    pub samplers: Option<Vec<Sampler>>,
    pub data: Vec<u8>,
}

/// One attribute of the target vertex format.
#[derive(Clone, Debug)]
pub struct VertexAttribute {
    pub semantic: AttributeSemantic,
    pub location: u8,
    pub kind: AttributeKind,
    pub buffer: usize,
    pub offset: usize,
    pub normalized: bool,
}

/// Stride policy of a vertex buffer: tightly packed from the attributes
/// assigned to it, or an explicit byte stride.
#[derive(Copy, Clone, Debug, PartialEq, Eq, Structural)]
pub enum Stride {
    Packed,
    Interleaved(usize),
}

/// One buffer of the target vertex format.
#[derive(Clone, Debug)]
pub struct VertexBuffer {
    pub buffer: usize,
    pub stride: Stride,
}

/// The target GPU vertex format: an ordered set of attributes and an ordered
/// set of buffers they are assigned to.
#[derive(Clone, Debug)]
pub struct VertexLayout {
    pub attributes: Vec<VertexAttribute>,
    pub buffers: Vec<VertexBuffer>,
}

/// Fold step for summing the byte sizes of the attributes assigned to
/// buffer `b`.
pub open spec fn add_attr_size(b: int) -> spec_fn(int, VertexAttribute) -> int {
    (|acc: int, a: VertexAttribute| if a.buffer == b {
        acc + a.kind.spec_size()
    } else {
        acc
    })
}

/// First attribute of `attrs` whose semantic is `s`, if any.
pub open spec fn find_attr(attrs: Seq<VertexAttribute>, s: AttributeSemantic) -> Option<
    VertexAttribute,
>
    decreases attrs.len(),
{
    if attrs.len() == 0 {
        None
    } else if attrs.first().semantic == s {
        Some(attrs.first())
    } else {
        find_attr(attrs.drop_first(), s)
    }
}

/// A successful first-match lookup returns one of the list's own entries,
/// and it carries the semantic that was looked up.
pub proof fn lemma_find_attr_index(attrs: Seq<VertexAttribute>, s: AttributeSemantic)
    requires
        find_attr(attrs, s) is Some,
    ensures
        exists|i: int|
            0 <= i < attrs.len() && #[trigger] attrs[i] == find_attr(attrs, s)->Some_0,
        find_attr(attrs, s)->Some_0.semantic == s,
    decreases attrs.len(),
{
    if attrs.len() > 0 {
        if attrs.first().semantic == s {
            assert(attrs[0] == find_attr(attrs, s)->Some_0);
        } else {
            lemma_find_attr_index(attrs.drop_first(), s);
            let i = choose|i: int|
                0 <= i < attrs.drop_first().len() && #[trigger] attrs.drop_first()[i] == find_attr(
                    attrs.drop_first(),
                    s,
                )->Some_0;
            assert(attrs[i + 1] == find_attr(attrs, s)->Some_0);
        }
    }
}

impl VertexLayout {
    /// Sum of the byte sizes of the attributes of `attrs` assigned to
    /// buffer `b`.
    pub open spec fn spec_buffer_size(attrs: Seq<VertexAttribute>, b: int) -> int {
        attrs.fold_left(0, add_attr_size(b))
    }

    /// Sum of the byte sizes of this layout's attributes assigned to
    /// buffer `b`.
    pub open spec fn spec_buffer_vertex_size(self, b: int) -> int {
        Self::spec_buffer_size(self.attributes@, b)
    }

    /// Every attribute points at an existing buffer.
    pub open spec fn wf(self) -> bool {
        forall|i: int|
            0 <= i < self.attributes@.len() ==> #[trigger] self.attributes@[i].buffer
                < self.buffers@.len()
    }

    /// Byte stride of buffer `b`: its per-vertex size when Packed, the
    /// declared stride when Interleaved.
    pub open spec fn spec_stride(self, b: int) -> int {
        match self.buffers@[b].stride {
            Stride::Packed => Self::spec_buffer_size(self.attributes@, b),
            Stride::Interleaved(n) => n as int,
        }
    }

    /// The layout describes scratch regions the packer can fill: the buffer
    /// list is indexed by buffer number, per-buffer vertex sizes fit the
    /// machine, every attribute fits inside its buffer's stride, which in
    /// turn fits inside the per-vertex record, and attributes sharing a
    /// buffer occupy disjoint byte ranges of the record.
    pub open spec fn packable(self) -> bool {
        let attrs = self.attributes@;
        let bufs = self.buffers@;
        &&& forall|i: int| 0 <= i < bufs.len() ==> (#[trigger] bufs[i]).buffer == i
        &&& forall|b: int|
            0 <= b < bufs.len() ==> #[trigger] Self::spec_buffer_size(attrs, b) <= usize::MAX
        &&& forall|i: int|
            0 <= i < attrs.len() && (#[trigger] attrs[i]).buffer < bufs.len() ==> {
                &&& attrs[i].offset + attrs[i].kind.spec_size() <= self.spec_stride(
                    attrs[i].buffer as int,
                )
                &&& self.spec_stride(attrs[i].buffer as int) <= Self::spec_buffer_size(
                    attrs,
                    attrs[i].buffer as int,
                )
            }
        &&& forall|i: int, j: int|
            0 <= i < j < attrs.len() && (#[trigger] attrs[i]).buffer == (
            #[trigger] attrs[j]).buffer ==> attrs[i].offset + attrs[i].kind.spec_size()
                <= attrs[j].offset || attrs[j].offset + attrs[j].kind.spec_size()
                <= attrs[i].offset
    }

    /// The construction-time invariant check: every attribute must point at
    /// an existing buffer.  A violation is a static configuration mistake;
    /// callers treat a false result as fatal.
    pub fn validate(&self) -> (r: bool)
        ensures
            r == self.wf(),
    {
        let n: usize = self.attributes.len();
        let nb: usize = self.buffers.len();
        let mut i: usize = 0;
        while i < n
            invariant
                n == self.attributes@.len(),
                nb == self.buffers@.len(),
                0 <= i <= n,
                forall|k: int|
                    0 <= k < i ==> #[trigger] self.attributes@[k].buffer < self.buffers@.len(),
            decreases n - i,
        {
            if self.attributes[i].buffer >= nb {
                return false;
            }
            i = i + 1;
        }
        true
    }

    /// The per-buffer vertex size of buffer `b`, computed exactly in wide
    /// arithmetic, so callers can test it against the machine word.
    fn buffer_size_wide(&self, b: usize) -> (r: u128)
        ensures
            r as int == Self::spec_buffer_size(self.attributes@, b as int),
    {
        let n: usize = self.attributes.len();
        let mut size: u128 = 0;
        let mut i: usize = 0;
        while i < n
            invariant
                n == self.attributes@.len(),
                0 <= i <= n,
                size as int == Self::spec_buffer_size(
                    self.attributes@.take(i as int),
                    b as int,
                ),
                size <= 16 * (i as u128),
            decreases n - i,
        {
            proof {
                assert(self.attributes@.take(i as int + 1).drop_last() =~= self.attributes@.take(
                    i as int,
                ));
                assert(self.attributes@.take(i as int + 1).last() == self.attributes@[i as int]);
            }
            if self.attributes[i].buffer == b {
                size = size + self.attributes[i].kind.size() as u128;
            }
            i = i + 1;
        }
        proof {
            assert(self.attributes@.take(n as int) =~= self.attributes@);
        }
        size
    }

    /// Check `packable` at run time, so a caller holding a custom layout
    /// can establish it rather than assume it.
    pub fn check_packable(&self) -> (r: bool)
        ensures
            r == self.packable(),
    {
        let na: usize = self.attributes.len();
        let nb: usize = self.buffers.len();
        // the buffer list must be indexed by buffer number
        let mut i: usize = 0;
        while i < nb
            invariant
                na == self.attributes@.len(),
                nb == self.buffers@.len(),
                0 <= i <= nb,
                forall|k: int| 0 <= k < i ==> (#[trigger] self.buffers@[k]).buffer == k,
            decreases nb - i,
        {
            if self.buffers[i].buffer != i {
                proof {
                    assert(!self.packable());
                }
                return false;
            }
            i = i + 1;
        }
        // every per-buffer vertex size must fit the machine word
        let mut b: usize = 0;
        while b < nb
            invariant
                na == self.attributes@.len(),
                nb == self.buffers@.len(),
                0 <= b <= nb,
                forall|k: int| 0 <= k < nb ==> (#[trigger] self.buffers@[k]).buffer == k,
                forall|k: int|
                    0 <= k < b ==> #[trigger] Self::spec_buffer_size(self.attributes@, k)
                        <= usize::MAX,
            decreases nb - b,
        {
            if self.buffer_size_wide(b) > usize::MAX as u128 {
                proof {
                    assert(!self.packable());
                }
                return false;
            }
            b = b + 1;
        }
        // every attribute must fit inside its buffer's stride, which in
        // turn must fit inside the per-vertex record
        let mut i: usize = 0;
        while i < na
            invariant
                na == self.attributes@.len(),
                nb == self.buffers@.len(),
                0 <= i <= na,
                forall|k: int| 0 <= k < nb ==> (#[trigger] self.buffers@[k]).buffer == k,
                forall|k: int|
                    0 <= k < nb ==> #[trigger] Self::spec_buffer_size(self.attributes@, k)
                        <= usize::MAX,
                forall|k: int|
                    0 <= k < i && (#[trigger] self.attributes@[k]).buffer < nb ==> {
                        &&& self.attributes@[k].offset + self.attributes@[k].kind.spec_size()
                            <= self.spec_stride(self.attributes@[k].buffer as int)
                        &&& self.spec_stride(self.attributes@[k].buffer as int)
                            <= Self::spec_buffer_size(
                            self.attributes@,
                            self.attributes@[k].buffer as int,
                        )
                    },
            decreases na - i,
        {
            let ab: usize = self.attributes[i].buffer;
            if ab < nb {
                let bvs: usize = self.buffer_vertex_size(ab);
                let st: usize = match self.buffers[ab].stride {
                    Stride::Packed => bvs,
                    Stride::Interleaved(n) => n,
                };
                let sz: usize = self.attributes[i].kind.size();
                if self.attributes[i].offset > st || st - self.attributes[i].offset < sz || st
                    > bvs {
                    proof {
                        assert(!self.packable());
                    }
                    return false;
                }
            }
            i = i + 1;
        }
        // attributes sharing a buffer must occupy disjoint byte ranges
        let mut i: usize = 0;
        while i < na
            invariant
                na == self.attributes@.len(),
                nb == self.buffers@.len(),
                0 <= i <= na,
                forall|k: int| 0 <= k < nb ==> (#[trigger] self.buffers@[k]).buffer == k,
                forall|k: int|
                    0 <= k < nb ==> #[trigger] Self::spec_buffer_size(self.attributes@, k)
                        <= usize::MAX,
                forall|k: int|
                    0 <= k < na && (#[trigger] self.attributes@[k]).buffer < nb ==> {
                        &&& self.attributes@[k].offset + self.attributes@[k].kind.spec_size()
                            <= self.spec_stride(self.attributes@[k].buffer as int)
                        &&& self.spec_stride(self.attributes@[k].buffer as int)
                            <= Self::spec_buffer_size(
                            self.attributes@,
                            self.attributes@[k].buffer as int,
                        )
                    },
                forall|k1: int, k2: int|
                    0 <= k1 < k2 < na && k1 < i && (#[trigger] self.attributes@[k1]).buffer == (
                    #[trigger] self.attributes@[k2]).buffer ==> self.attributes@[k1].offset
                        + self.attributes@[k1].kind.spec_size() <= self.attributes@[k2].offset
                        || self.attributes@[k2].offset + self.attributes@[k2].kind.spec_size()
                        <= self.attributes@[k1].offset,
            decreases na - i,
        {
            let mut j: usize = i + 1;
            while j < na
                invariant
                    na == self.attributes@.len(),
                    0 <= i < na,
                    i < j <= na,
                    forall|k2: int|
                        (i as int) < k2 < j && (#[trigger] self.attributes@[i as int]).buffer == (
                        #[trigger] self.attributes@[k2]).buffer
                        ==> self.attributes@[i as int].offset + self.attributes@[
                            i as int].kind.spec_size() <= self.attributes@[k2].offset
                            || self.attributes@[k2].offset + self.attributes@[
                            k2].kind.spec_size() <= self.attributes@[i as int].offset,
                decreases na - j,
            {
                if self.attributes[i].buffer == self.attributes[j].buffer {
                    let oi: usize = self.attributes[i].offset;
                    let oj: usize = self.attributes[j].offset;
                    let si: usize = self.attributes[i].kind.size();
                    let sj: usize = self.attributes[j].kind.size();
                    let apart = (oi <= oj && oj - oi >= si) || (oj <= oi && oi - oj >= sj);
                    if !apart {
                        proof {
                            assert(!self.packable());
                        }
                        return false;
                    }
                }
                j = j + 1;
            }
            i = i + 1;
        }
        proof {
            assert(self.packable());
        }
        true
    }

    /// First-match lookup of an attribute by semantic.
    pub fn attribute(&self, semantic: &AttributeSemantic) -> (r: Option<&VertexAttribute>)
        ensures
            match r {
                Some(a) => find_attr(self.attributes@, *semantic) == Some(*a),
                None => find_attr(self.attributes@, *semantic) is None,
            },
    {
        let n: usize = self.attributes.len();
        let mut i: usize = 0;
        proof {
            assert(self.attributes@.skip(0) =~= self.attributes@);
        }
        while i < n
            invariant
                n == self.attributes@.len(),
                0 <= i <= n,
                find_attr(self.attributes@, *semantic) == find_attr(
                    self.attributes@.skip(i as int),
                    *semantic,
                ),
            decreases n - i,
        {
            proof {
                assert(self.attributes@.skip(i as int).first() == self.attributes@[i as int]);
                assert(self.attributes@.skip(i as int).drop_first() =~= self.attributes@.skip(
                    i as int + 1,
                ));
            }
            if self.attributes[i].semantic == *semantic {
                return Some(&self.attributes[i]);
            }
            i = i + 1;
        }
        proof {
            assert(self.attributes@.skip(n as int).len() == 0);
        }
        None
    }

    /// Total byte size of one vertex in buffer `buffer`: the sum of the byte
    /// sizes of all attributes assigned to it.
    pub fn buffer_vertex_size(&self, buffer: usize) -> (r: usize)
        requires
            self.spec_buffer_vertex_size(buffer as int) <= usize::MAX,
        ensures
            r == self.spec_buffer_vertex_size(buffer as int),
    {
        let n: usize = self.attributes.len();
        let mut size: usize = 0;
        let mut i: usize = 0;
        while i < n
            invariant
                n == self.attributes@.len(),
                0 <= i <= n,
                size == Self::spec_buffer_size(self.attributes@.take(i as int), buffer as int),
                Self::spec_buffer_size(self.attributes@, buffer as int) <= usize::MAX,
            decreases n - i,
        {
            proof {
                assert(self.attributes@.take(i as int + 1).drop_last() =~= self.attributes@.take(
                    i as int,
                ));
                assert(self.attributes@.take(i as int + 1).last() == self.attributes@[i as int]);
                lemma_buffer_size_prefix_le(self.attributes@, buffer as int, i as int + 1);
            }
            if self.attributes[i].buffer == buffer {
                size = size + self.attributes[i].kind.size();
            }
            i = i + 1;
        }
        proof {
            assert(self.attributes@.take(n as int) =~= self.attributes@);
        }
        size
    }
}

impl Default for VertexLayout {
    /// The default target format: an interleaved position (three floats)
    /// followed by one UV channel (two floats), both in buffer 0, with a
    /// 20-byte stride.  The construction-time invariant — every attribute
    /// referencing an existing buffer, and fitting inside the stride — is
    /// proved rather than asserted at run time.
    fn default() -> (r: Self)
        ensures
            r.attributes@.len() == 2,
            r.attributes@[0] == (VertexAttribute {
                semantic: AttributeSemantic::Position,
                location: 0,
                kind: AttributeKind::Vec3,
                buffer: 0,
                offset: 0,
                normalized: false,
            }),
            r.attributes@[1] == (VertexAttribute {
                semantic: AttributeSemantic::UV(0),
                location: 1,
                kind: AttributeKind::Vec2,
                buffer: 0,
                offset: 12,
                normalized: false,
            }),
            r.buffers@.len() == 1,
            r.buffers@[0] == (VertexBuffer { buffer: 0, stride: Stride::Interleaved(20) }),
            r.spec_buffer_vertex_size(0) == 20,
            r.wf(),
            r.packable(),
    {
        let mut attributes: Vec<VertexAttribute> = Vec::new();
        attributes.push(
            VertexAttribute {
                semantic: AttributeSemantic::Position,
                kind: AttributeKind::Vec3,
                buffer: 0,
                offset: 0,
                normalized: false,
                location: 0,
            },
        );
        attributes.push(
            VertexAttribute {
                semantic: AttributeSemantic::UV(0),
                kind: AttributeKind::Vec2,
                buffer: 0,
                offset: FLOAT32_SIZE * 3,
                normalized: false,
                location: 1,
            },
        );
        let mut buffers: Vec<VertexBuffer> = Vec::new();
        buffers.push(
            VertexBuffer { buffer: 0, stride: Stride::Interleaved(FLOAT32_SIZE * 3 + FLOAT32_SIZE * 2) },
        );
        let r = VertexLayout { attributes, buffers };
        proof {
            let s = r.attributes@;
            let f = add_attr_size(0);
            assert(s.drop_last() =~= s.take(1));
            assert(s.take(1).drop_last() =~= Seq::<VertexAttribute>::empty());
            assert(Seq::<VertexAttribute>::empty().fold_left(0, f) == 0);
            assert(s.take(1).fold_left(0, f) == f(0, s[0]));
            assert(s.fold_left(0, f) == f(f(0, s[0]), s[1]));
            assert(Self::spec_buffer_size(s, 0) == 20);
            assert forall|b: int| 0 <= b < r.buffers@.len() implies #[trigger] Self::spec_buffer_size(
                s,
                b,
            ) <= usize::MAX by {
                assert(b == 0);
            }
            assert(r.packable());
        }
        r
    }
}

/// Each attribute contributes a non-negative byte size, so the sum over a
/// prefix never exceeds the sum over the whole attribute list.
pub proof fn lemma_buffer_size_prefix_le(attrs: Seq<VertexAttribute>, b: int, i: int)
    requires
        0 <= i <= attrs.len(),
    ensures
        VertexLayout::spec_buffer_size(attrs.take(i), b) <= VertexLayout::spec_buffer_size(
            attrs,
            b,
        ),
    decreases attrs.len() - i,
{
    if i < attrs.len() {
        assert(attrs.take(i + 1).drop_last() =~= attrs.take(i));
        assert(attrs.take(i + 1).last() == attrs[i]);
        lemma_buffer_size_prefix_le(attrs, b, i + 1);
    } else {
        assert(attrs.take(i) =~= attrs);
    }
}

/// The per-buffer vertex size only depends on which attributes a layout
/// holds, not on their order: any reordering of the attribute list yields
/// the same sum for every buffer.
pub proof fn lemma_buffer_size_reorder(s1: Seq<VertexAttribute>, s2: Seq<VertexAttribute>, b: int)
    requires
        s1.to_multiset() == s2.to_multiset(),
    ensures
        VertexLayout::spec_buffer_size(s1, b) == VertexLayout::spec_buffer_size(s2, b),
{
    assert(vstd::seq_lib::commutative_foldl(add_attr_size(b)));
    vstd::seq_lib::lemma_fold_left_permutation(s1, s2, add_attr_size(b), 0);
}

} // verus!
