use render_core::gfx::{ByteRange, IndexKind, Indices, Mesh, Primitive, Vertices, VertexLayout};
use render_core::pack::{binding_commands, draw_commands, pack_meshes, DrawCmd};

fn triangle_mesh(vertices: usize, range: ByteRange, index_bytes: Vec<u8>) -> Mesh {
    Mesh {
        name: None,
        mode: Primitive::Triangles,
        material: None,
        indices: Some(Indices {
            kind: IndexKind::U16,
            buffer: 0,
            count: index_bytes.len() / 2,
            data: index_bytes,
        }),
        vertices: Vertices { count: vertices, buffers: vec![range] },
    }
}

#[test]
fn two_triangles_pack_additively() {
    // two meshes of 4 vertices and 3 indices each, no shared vertices: the
    // views must carry base vertices 0 and 4, and the second mesh's index
    // offset must equal the first mesh's index byte length
    let arena: Vec<u8> = (0..160).map(|i| i as u8).collect();
    let meshes = vec![
        triangle_mesh(4, ByteRange { start: 0, end: 80 }, vec![0, 0, 1, 0, 2, 0]),
        triangle_mesh(4, ByteRange { start: 80, end: 160 }, vec![0, 0, 2, 0, 3, 0]),
    ];
    let (views, vertex_buffers, index_buffer) = pack_meshes(&meshes, &arena, 1);
    assert_eq!(views.len(), 2);
    assert_eq!(views[0].base_index, 0);
    assert_eq!(views[0].vertices, 4);
    assert_eq!(views[1].base_index, 4);
    assert_eq!(views[1].vertices, 4);
    let i0 = views[0].indices.unwrap();
    let i1 = views[1].indices.unwrap();
    assert_eq!(i0.count, 3);
    assert_eq!(i1.count, 3);
    assert_eq!(i0.offset, 0);
    assert_eq!(i1.offset, 6); // == the first mesh's index byte length
    assert_eq!(index_buffer.len(), 12); // 6 indices of 2 bytes in total
    assert_eq!(&index_buffer[..], &[0, 0, 1, 0, 2, 0, 0, 0, 2, 0, 3, 0]);
    // the shared vertex buffer is the two ranges concatenated
    assert_eq!(vertex_buffers.len(), 1);
    assert_eq!(&vertex_buffers[0][..], &arena[..]);
}

#[test]
fn meshes_without_indices_pack_too() {
    let arena: Vec<u8> = vec![7; 40];
    let meshes = vec![Mesh {
        name: None,
        mode: Primitive::Triangles,
        material: None,
        indices: None,
        vertices: Vertices { count: 2, buffers: vec![ByteRange { start: 20, end: 40 }] },
    }];
    let (views, vertex_buffers, index_buffer) = pack_meshes(&meshes, &arena, 1);
    assert!(views[0].indices.is_none());
    assert_eq!(views[0].vertices, 2);
    assert_eq!(vertex_buffers[0].len(), 20);
    assert!(index_buffer.is_empty());
}

#[test]
fn one_draw_call_per_mesh() {
    let arena: Vec<u8> = (0..160).map(|i| i as u8).collect();
    let mut meshes = vec![
        triangle_mesh(4, ByteRange { start: 0, end: 80 }, vec![0, 0, 1, 0, 2, 0]),
        triangle_mesh(4, ByteRange { start: 80, end: 160 }, vec![0, 0, 2, 0, 3, 0]),
    ];
    meshes[1].indices = None;
    let (views, _, _) = pack_meshes(&meshes, &arena, 1);
    let cmds = draw_commands(&views);
    assert_eq!(cmds.len(), 2);
    assert_eq!(
        cmds[0],
        DrawCmd::Indexed { count: 3, kind: IndexKind::U16, byte_offset: 0, base_vertex: 0 }
    );
    assert_eq!(cmds[1], DrawCmd::Arrays { first: 0, count: 4 });
}

#[test]
fn binding_plan_of_default_layout() {
    let layout = VertexLayout::default();
    let (attribs, buffers) = binding_commands(&layout);
    assert_eq!(attribs.len(), 2);
    assert_eq!(attribs[0].location, 0);
    assert_eq!(attribs[0].components, 3);
    assert_eq!(attribs[0].offset, 0);
    assert_eq!(attribs[0].buffer, 0);
    assert_eq!(attribs[1].location, 1);
    assert_eq!(attribs[1].components, 2);
    assert_eq!(attribs[1].offset, 12);
    assert_eq!(buffers.len(), 1);
    assert_eq!(buffers[0].buffer, 0);
    assert_eq!(buffers[0].stride, 20);
}
