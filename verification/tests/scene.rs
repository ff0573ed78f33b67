use render_core::gfx::{
    AttributeKind, AttributeSemantic, IndexKind, Primitive, Stride, VertexAttribute, VertexBuffer,
    VertexLayout,
};
use render_core::scene::{
    check_document, load, process_meshes, Config, Error, SourceAccessor, SourceAttribute,
    SourceDataType, SourceDimensions, SourceMesh, SourceMode, SourcePrimitive, SourceSemantic,
    SourceView,
};

fn accessor(
    buffer: usize,
    view_offset: usize,
    stride: Option<usize>,
    offset: usize,
    count: usize,
    data_type: SourceDataType,
    dimensions: SourceDimensions,
) -> SourceAccessor {
    SourceAccessor {
        view: Some(SourceView { buffer, offset: view_offset, stride }),
        offset,
        count,
        data_type,
        dimensions,
    }
}

fn one_mesh(prim: SourcePrimitive) -> Vec<SourceMesh> {
    vec![SourceMesh { name: Some(String::from("mesh")), primitives: vec![prim] }]
}

fn two_vertex_primitive() -> SourcePrimitive {
    SourcePrimitive {
        mode: SourceMode::Triangles,
        material: None,
        indices: Some(accessor(1, 0, None, 0, 3, SourceDataType::U16, SourceDimensions::Scalar)),
        attributes: vec![
            SourceAttribute {
                semantic: SourceSemantic::Positions,
                accessor: accessor(0, 0, None, 0, 2, SourceDataType::F32, SourceDimensions::Vec3),
            },
            SourceAttribute {
                semantic: SourceSemantic::TexCoords(0),
                accessor: accessor(0, 24, None, 0, 2, SourceDataType::F32, SourceDimensions::Vec2),
            },
        ],
    }
}

fn source_buffers() -> Vec<Vec<u8>> {
    // buffer 0: two vec3 positions (12 bytes each), then two vec2 UVs
    let mut b0: Vec<u8> = (1..=24).collect();
    b0.extend(101..=116);
    // buffer 1: three u16 indices 0, 1, 2
    let b1 = vec![0, 0, 1, 0, 2, 0];
    vec![b0, b1]
}

#[test]
fn packs_interleaved_vertices_byte_exactly() {
    let config = Config::default();
    let scene = load(&config, &one_mesh(two_vertex_primitive()), &source_buffers()).unwrap();
    let meshes = scene.meshes.as_ref().unwrap();
    assert_eq!(meshes.len(), 1);
    let mesh = &meshes[0];
    assert_eq!(mesh.name.as_deref(), Some("mesh"));
    assert!(matches!(mesh.mode, Primitive::Triangles));
    assert_eq!(mesh.vertices.count, 2);
    assert_eq!(mesh.vertices.buffers.len(), 1);
    let rg = mesh.vertices.buffers[0];
    // the packed byte length equals vertex_count * buffer_vertex_size
    assert_eq!(rg.start, 0);
    assert_eq!(rg.end - rg.start, 2 * 20);
    let mut expected: Vec<u8> = Vec::new();
    expected.extend(1..=12); // vertex 0 position
    expected.extend(101..=108); // vertex 0 uv
    expected.extend(13..=24); // vertex 1 position
    expected.extend(109..=116); // vertex 1 uv
    assert_eq!(&scene.data[rg.start..rg.end], &expected[..]);
}

#[test]
fn copies_index_bytes_verbatim() {
    let config = Config::default();
    let scene = load(&config, &one_mesh(two_vertex_primitive()), &source_buffers()).unwrap();
    let mesh = &scene.meshes.as_ref().unwrap()[0];
    let ind = mesh.indices.as_ref().unwrap();
    assert!(matches!(ind.kind, IndexKind::U16));
    assert_eq!(ind.count, 3);
    assert_eq!(ind.buffer, 1);
    assert_eq!(ind.data, vec![0, 0, 1, 0, 2, 0]);
}

#[test]
fn drops_extra_source_components() {
    // source UVs are vec3, the target UV channel is vec2: the first two
    // components of each vertex must arrive byte-for-byte, the third is
    // dropped, never read out of bounds
    let mut prim = two_vertex_primitive();
    prim.indices = None;
    prim.attributes[1].accessor =
        accessor(0, 24, None, 0, 2, SourceDataType::F32, SourceDimensions::Vec3);
    let mut buffers = source_buffers();
    buffers[0] = (1..=24).collect();
    buffers[0].extend(101..=124); // two vec3 uvs, 12 bytes each
    let config = Config::default();
    let scene = load(&config, &one_mesh(prim), &buffers).unwrap();
    let mesh = &scene.meshes.as_ref().unwrap()[0];
    let rg = mesh.vertices.buffers[0];
    let mut expected: Vec<u8> = Vec::new();
    expected.extend(1..=12);
    expected.extend(101..=108); // first two components of uv 0
    expected.extend(13..=24);
    expected.extend(113..=120); // first two components of uv 1
    assert_eq!(&scene.data[rg.start..rg.end], &expected[..]);
}

#[test]
fn zero_fills_missing_source_components() {
    // source positions are vec2, the target position is vec3: the third
    // component of each packed vertex stays zero
    let prim = SourcePrimitive {
        mode: SourceMode::Triangles,
        material: None,
        indices: None,
        attributes: vec![SourceAttribute {
            semantic: SourceSemantic::Positions,
            accessor: accessor(0, 0, None, 0, 1, SourceDataType::F32, SourceDimensions::Vec2),
        }],
    };
    let buffers = vec![vec![9, 8, 7, 6, 5, 4, 3, 2]];
    let config = Config::default();
    let scene = load(&config, &one_mesh(prim), &buffers).unwrap();
    let mesh = &scene.meshes.as_ref().unwrap()[0];
    let rg = mesh.vertices.buffers[0];
    assert_eq!(
        &scene.data[rg.start..rg.end],
        &[9, 8, 7, 6, 5, 4, 3, 2, 0, 0, 0, 0, 0, 0, 0, 0, 0, 0, 0, 0]
    );
}

#[test]
fn honors_explicit_source_stride() {
    // positions strided 16 bytes apart: only the first 12 of each record
    // are components, the rest padding
    let prim = SourcePrimitive {
        mode: SourceMode::Triangles,
        material: None,
        indices: None,
        attributes: vec![SourceAttribute {
            semantic: SourceSemantic::Positions,
            accessor: accessor(0, 0, Some(16), 0, 2, SourceDataType::F32, SourceDimensions::Vec3),
        }],
    };
    let buffers = vec![(1..=32).collect::<Vec<u8>>()];
    let config = Config::default();
    let scene = load(&config, &one_mesh(prim), &buffers).unwrap();
    let mesh = &scene.meshes.as_ref().unwrap()[0];
    let rg = mesh.vertices.buffers[0];
    let got = &scene.data[rg.start..rg.end];
    assert_eq!(&got[0..12], &[1, 2, 3, 4, 5, 6, 7, 8, 9, 10, 11, 12]);
    assert_eq!(&got[20..32], &[17, 18, 19, 20, 21, 22, 23, 24, 25, 26, 27, 28]);
}

#[test]
fn unsupported_index_format_appends_nothing() {
    let mut prim = two_vertex_primitive();
    prim.indices = Some(accessor(1, 0, None, 0, 3, SourceDataType::F32, SourceDimensions::Scalar));
    let config = Config::default();
    let mut data: Vec<u8> = vec![0xAA];
    let r = process_meshes(&mut data, &config.vertex_layout, &one_mesh(prim), &source_buffers());
    assert!(matches!(r, Err(Error::UnsupportedIndexFormat)));
    // the arena holds exactly what it held before
    assert_eq!(data, vec![0xAA]);
}

#[test]
fn sparse_indices_are_rejected() {
    let mut prim = two_vertex_primitive();
    prim.indices = Some(SourceAccessor {
        view: None,
        offset: 0,
        count: 3,
        data_type: SourceDataType::U16,
        dimensions: SourceDimensions::Scalar,
    });
    let config = Config::default();
    let r = load(&config, &one_mesh(prim), &source_buffers());
    assert!(matches!(r, Err(Error::SparseDataNotSupported)));
}

#[test]
fn unsupported_topology_is_rejected() {
    let mut prim = two_vertex_primitive();
    prim.mode = SourceMode::Points;
    let config = Config::default();
    let r = load(&config, &one_mesh(prim), &source_buffers());
    assert!(matches!(r, Err(Error::UnsupportedPrimitive)));
}

#[test]
fn non_float_attribute_is_rejected() {
    let mut prim = two_vertex_primitive();
    prim.indices = None;
    prim.attributes[0].accessor.data_type = SourceDataType::I16;
    let config = Config::default();
    let r = load(&config, &one_mesh(prim), &source_buffers());
    assert!(matches!(r, Err(Error::AttributeKindNotSupported)));
}

#[test]
fn missing_vertex_data_is_rejected() {
    let prim = SourcePrimitive {
        mode: SourceMode::Triangles,
        material: None,
        indices: None,
        attributes: vec![],
    };
    let config = Config::default();
    let r = load(&config, &one_mesh(prim), &source_buffers());
    assert!(matches!(r, Err(Error::NoVertexData)));
}

#[test]
fn unresolvable_vertex_data_is_rejected() {
    // the only attribute has a buffer view, but its semantic maps to
    // nothing in the layout: no resolvable vertex attribute, so the
    // primitive must fail rather than pack zero-filled buffers
    let prim = SourcePrimitive {
        mode: SourceMode::Triangles,
        material: None,
        indices: None,
        attributes: vec![SourceAttribute {
            semantic: SourceSemantic::Normals,
            accessor: accessor(0, 0, None, 0, 2, SourceDataType::F32, SourceDimensions::Vec3),
        }],
    };
    let config = Config::default();
    let r = load(&config, &one_mesh(prim), &source_buffers());
    assert!(matches!(r, Err(Error::NoVertexData)));
}

#[test]
fn out_of_range_source_buffer_is_rejected() {
    let mut prim = two_vertex_primitive();
    prim.indices = None;
    prim.attributes[0].accessor.view = Some(SourceView { buffer: 5, offset: 0, stride: None });
    let config = Config::default();
    let r = load(&config, &one_mesh(prim), &source_buffers());
    assert!(matches!(r, Err(Error::VerticesOutOfBounds)));
}

#[test]
fn short_source_span_is_rejected() {
    let prim = SourcePrimitive {
        mode: SourceMode::Triangles,
        material: None,
        indices: None,
        attributes: vec![SourceAttribute {
            semantic: SourceSemantic::Positions,
            accessor: accessor(0, 0, None, 0, 2, SourceDataType::F32, SourceDimensions::Vec3),
        }],
    };
    let buffers = vec![vec![0u8; 23]]; // two vec3 vertices need 24 bytes
    let config = Config::default();
    let r = load(&config, &one_mesh(prim), &buffers);
    assert!(matches!(r, Err(Error::VerticesOutOfBounds)));
}

#[test]
fn unmapped_semantics_are_skipped() {
    let mut prim = two_vertex_primitive();
    prim.indices = None;
    prim.attributes.push(SourceAttribute {
        semantic: SourceSemantic::Normals,
        accessor: accessor(0, 0, None, 0, 2, SourceDataType::F32, SourceDimensions::Vec3),
    });
    let config = Config::default();
    let scene = load(&config, &one_mesh(prim), &source_buffers()).unwrap();
    assert_eq!(scene.meshes.as_ref().unwrap().len(), 1);
}

#[test]
fn packs_split_buffers_separately() {
    // positions in buffer 0, UVs in buffer 1, both tightly packed
    let layout = VertexLayout {
        attributes: vec![
            VertexAttribute {
                semantic: AttributeSemantic::Position,
                location: 0,
                kind: AttributeKind::Vec3,
                buffer: 0,
                offset: 0,
                normalized: false,
            },
            VertexAttribute {
                semantic: AttributeSemantic::UV(0),
                location: 1,
                kind: AttributeKind::Vec2,
                buffer: 1,
                offset: 0,
                normalized: false,
            },
        ],
        buffers: vec![
            VertexBuffer { buffer: 0, stride: Stride::Packed },
            VertexBuffer { buffer: 1, stride: Stride::Packed },
        ],
    };
    assert!(layout.validate());
    let config = Config { vertex_layout: layout };
    let mut prim = two_vertex_primitive();
    prim.indices = None;
    let scene = load(&config, &one_mesh(prim), &source_buffers()).unwrap();
    let mesh = &scene.meshes.as_ref().unwrap()[0];
    assert_eq!(mesh.vertices.buffers.len(), 2);
    let r0 = mesh.vertices.buffers[0];
    let r1 = mesh.vertices.buffers[1];
    assert_eq!((r0.start, r0.end), (0, 24));
    assert_eq!((r1.start, r1.end), (24, 40));
    let positions: Vec<u8> = (1..=24).collect();
    let uvs: Vec<u8> = (101..=116).collect();
    assert_eq!(&scene.data[r0.start..r0.end], &positions[..]);
    assert_eq!(&scene.data[r1.start..r1.end], &uvs[..]);
}

#[test]
fn zero_vertices_pack_to_empty_ranges() {
    let prim = SourcePrimitive {
        mode: SourceMode::Triangles,
        material: None,
        indices: None,
        attributes: vec![SourceAttribute {
            semantic: SourceSemantic::Positions,
            accessor: accessor(0, 0, None, 0, 0, SourceDataType::F32, SourceDimensions::Vec3),
        }],
    };
    let config = Config::default();
    let scene = load(&config, &one_mesh(prim), &vec![Vec::new()]).unwrap();
    let mesh = &scene.meshes.as_ref().unwrap()[0];
    assert_eq!(mesh.vertices.count, 0);
    let rg = mesh.vertices.buffers[0];
    assert_eq!(rg.start, rg.end);
    assert!(scene.data.is_empty());
}

#[test]
fn empty_document_parses_to_empty_scene() {
    let config = Config::default();
    let scene = load(&config, &[], &[]).unwrap();
    assert_eq!(scene.meshes.as_ref().unwrap().len(), 0);
    assert!(scene.data.is_empty());
}

#[test]
fn check_document_accepts_and_rejects() {
    assert!(check_document(&one_mesh(two_vertex_primitive())));
    // attribute streams that disagree on the vertex count
    let mut bad = two_vertex_primitive();
    bad.attributes[1].accessor.count = 3;
    assert!(!check_document(&one_mesh(bad)));
    // two texture-coordinate channels that clamp into the same target slot
    let mut collide = two_vertex_primitive();
    collide.attributes[0].semantic = SourceSemantic::TexCoords(300);
    collide.attributes[1].semantic = SourceSemantic::TexCoords(400);
    assert!(!check_document(&one_mesh(collide)));
}

#[test]
fn one_parsed_mesh_per_primitive() {
    let mut p1 = two_vertex_primitive();
    p1.indices = None;
    let p2 = p1.clone();
    let meshes = vec![SourceMesh {
        name: None,
        primitives: vec![p1, p2],
    }];
    let config = Config::default();
    let scene = load(&config, &meshes, &source_buffers()).unwrap();
    let out = scene.meshes.as_ref().unwrap();
    assert_eq!(out.len(), 2);
    assert_eq!(out[0].vertices.buffers[0].start, 0);
    assert_eq!(out[0].vertices.buffers[0].end, 40);
    assert_eq!(out[1].vertices.buffers[0].start, 40);
    assert_eq!(out[1].vertices.buffers[0].end, 80);
    assert!(out[0].name.is_none());
}
