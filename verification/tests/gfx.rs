use render_core::gfx::{
    AttributeKind, AttributeSemantic, Stride, VertexAttribute, VertexBuffer, VertexLayout,
};

fn attr(semantic: AttributeSemantic, kind: AttributeKind, buffer: usize, offset: usize) -> VertexAttribute {
    VertexAttribute { semantic, location: 0, kind, buffer, offset, normalized: false }
}

#[test]
fn attribute_kind_sizes() {
    assert_eq!(AttributeKind::Vec2.component_size(), 4);
    assert_eq!(AttributeKind::Vec3.component_size(), 4);
    assert_eq!(AttributeKind::Vec4.component_size(), 4);
    assert_eq!(AttributeKind::Vec2.components(), 2);
    assert_eq!(AttributeKind::Vec3.components(), 3);
    assert_eq!(AttributeKind::Vec4.components(), 4);
    assert_eq!(AttributeKind::Vec2.size(), 8);
    assert_eq!(AttributeKind::Vec3.size(), 12);
    assert_eq!(AttributeKind::Vec4.size(), 16);
}

#[test]
fn default_layout_contents() {
    let layout = VertexLayout::default();
    assert_eq!(layout.attributes.len(), 2);
    assert_eq!(layout.attributes[0].semantic, AttributeSemantic::Position);
    assert_eq!(layout.attributes[0].kind, AttributeKind::Vec3);
    assert_eq!(layout.attributes[0].offset, 0);
    assert_eq!(layout.attributes[0].location, 0);
    assert_eq!(layout.attributes[1].semantic, AttributeSemantic::UV(0));
    assert_eq!(layout.attributes[1].kind, AttributeKind::Vec2);
    assert_eq!(layout.attributes[1].offset, 12);
    assert_eq!(layout.attributes[1].location, 1);
    assert_eq!(layout.buffers.len(), 1);
    assert_eq!(layout.buffers[0].buffer, 0);
    assert_eq!(layout.buffers[0].stride, Stride::Interleaved(20));
}

#[test]
fn buffer_vertex_size_sums_assigned_attributes() {
    let layout = VertexLayout {
        attributes: vec![
            attr(AttributeSemantic::Position, AttributeKind::Vec3, 0, 0),
            attr(AttributeSemantic::UV(0), AttributeKind::Vec2, 1, 0),
            attr(AttributeSemantic::UV(1), AttributeKind::Vec4, 0, 12),
        ],
        buffers: vec![
            VertexBuffer { buffer: 0, stride: Stride::Packed },
            VertexBuffer { buffer: 1, stride: Stride::Packed },
        ],
    };
    assert_eq!(layout.buffer_vertex_size(0), 12 + 16);
    assert_eq!(layout.buffer_vertex_size(1), 8);
    assert_eq!(layout.buffer_vertex_size(2), 0);
}

#[test]
fn buffer_vertex_size_invariant_under_reordering() {
    let a = attr(AttributeSemantic::Position, AttributeKind::Vec3, 0, 0);
    let b = attr(AttributeSemantic::UV(0), AttributeKind::Vec2, 0, 12);
    let c = attr(AttributeSemantic::UV(1), AttributeKind::Vec4, 1, 0);
    let buffers = vec![
        VertexBuffer { buffer: 0, stride: Stride::Packed },
        VertexBuffer { buffer: 1, stride: Stride::Packed },
    ];
    let l1 = VertexLayout {
        attributes: vec![a.clone(), b.clone(), c.clone()],
        buffers: buffers.clone(),
    };
    let l2 = VertexLayout { attributes: vec![c, b, a], buffers };
    for bi in 0..2 {
        assert_eq!(l1.buffer_vertex_size(bi), l2.buffer_vertex_size(bi));
    }
}

#[test]
fn check_packable_accepts_and_rejects() {
    assert!(VertexLayout::default().check_packable());
    // a buffer list not indexed by buffer number
    let mut bad = VertexLayout::default();
    bad.buffers[0].buffer = 1;
    assert!(!bad.check_packable());
    // two attributes of one buffer overlapping byte ranges
    let overlapping = VertexLayout {
        attributes: vec![
            attr(AttributeSemantic::Position, AttributeKind::Vec3, 0, 0),
            attr(AttributeSemantic::UV(0), AttributeKind::Vec2, 0, 8),
        ],
        buffers: vec![VertexBuffer { buffer: 0, stride: Stride::Interleaved(20) }],
    };
    assert!(!overlapping.check_packable());
}

#[test]
fn attribute_lookup_is_first_match() {
    let layout = VertexLayout::default();
    let p = layout.attribute(&AttributeSemantic::Position).unwrap();
    assert_eq!(p.kind, AttributeKind::Vec3);
    let uv = layout.attribute(&AttributeSemantic::UV(0)).unwrap();
    assert_eq!(uv.offset, 12);
    assert!(layout.attribute(&AttributeSemantic::UV(7)).is_none());
}
