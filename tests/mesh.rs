use baryon::{IndexStream, MeshBuilder, VertexStream};

#[test]
fn streams_are_laid_out_back_to_back() {
    let mut builder = MeshBuilder::new();
    builder.name("quad");
    let indices: Vec<u8> = [0u16, 1, 2, 2, 1, 3].iter().flat_map(|i| i.to_ne_bytes()).collect();
    builder.index(&indices, 6);
    let positions = vec![7u8; 4 * 12];
    builder.vertex(&positions, 4, 12, 0);
    let coords = vec![9u8; 4 * 4];
    builder.vertex(&coords, 4, 4, 2);
    assert_eq!(builder.name, "quad");
    let mesh = builder.build();
    assert_eq!(mesh.data.len(), 12 + 48 + 16);
    assert_eq!(mesh.index_stream, Some(IndexStream { offset: 0, count: 6 }));
    assert_eq!(mesh.vertex_count, 4);
    assert_eq!(
        mesh.vertex_streams,
        vec![
            VertexStream { kind: 0, offset: 12, stride: 12 },
            VertexStream { kind: 2, offset: 60, stride: 4 },
        ]
    );
    assert_eq!(&mesh.data[12..60], &positions[..]);
    assert_eq!(&mesh.data[60..], &coords[..]);
}

#[test]
fn vertex_stream_is_found_by_kind() {
    let mut builder = MeshBuilder::new();
    builder.vertex(&[1, 2, 3, 4, 5, 6], 2, 3, 5);
    builder.vertex(&[0; 8], 2, 4, 1);
    builder.vertex(&[0; 2], 2, 1, 5);
    let mesh = builder.build();
    assert_eq!(mesh.index_stream, None);
    assert_eq!(mesh.vertex_stream(5), Some(VertexStream { kind: 5, offset: 0, stride: 3 }));
    assert_eq!(mesh.vertex_stream(1), Some(VertexStream { kind: 1, offset: 6, stride: 4 }));
    assert_eq!(mesh.vertex_stream(9), None);
}
