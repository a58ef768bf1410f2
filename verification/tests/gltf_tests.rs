use game_engine::gltf::{
    append_indices, array_object_spans, join_primitive_indices, object_spans_on_boundaries, primitive_index_parts, find_int, parse_accessor_obj, parse_accessors,
    parse_buffer_views, parse_gltf_json, parse_meshes, parse_primitive, read_indices, read_u16,
    read_u32, Accessor, BufferView, GltfData, MeshPrimitive,
};

const SAMPLE: &str = r#"{
  "accessors": [
    {"bufferView": 0, "byteOffset": 0, "componentType": 5126, "count": 3, "type": "VEC3"},
    {"bufferView": 1, "componentType": 5123, "count": 6, "type": "SCALAR"},
    {"bufferView": 2, "byteOffset": 4, "count": 2, "componentType": 5125, "max": [1, 2]}
  ],
  "bufferViews": [
    {"buffer": 0, "byteLength": 36, "byteOffset": 0, "byteStride": 12},
    {"buffer": 0, "byteLength": 12, "byteOffset": 36}
  ],
  "meshes": [
    {"name": "a", "primitives": [{"attributes": {"NORMAL": 1, "POSITION": 0, "TEXCOORD_0": 2}, "indices": 3}]},
    {"name": "b", "primitives": [{"attributes": {"POSITION": 4}, "indices": 5}]},
    {"name": "c", "primitives": [{"attributes": {"POSITION": 6, "NORMAL": 7, "TEXCOORD_0": 8}, "indices": 9}]}
  ]
}"#;

#[test]
fn find_int_reads_first_number_after_colon() {
    assert_eq!(find_int(b"{\"count\": 42}", b"count"), Some(42));
    assert_eq!(find_int(b"{\"count\":7,\"x\":8}", b"count"), Some(7));
    assert_eq!(find_int(b"count : \"abc 15\"", b"count"), Some(15));
    assert_eq!(find_int(b"\"count\": 0012", b"count"), Some(12));
}

#[test]
fn find_int_missing_parts() {
    assert_eq!(find_int(b"{\"count\": 42}", b"bufferView"), None);
    assert_eq!(find_int(b"count 42", b"count"), None);
    assert_eq!(find_int(b"count: none", b"count"), None);
    assert_eq!(find_int(b"", b"count"), None);
}

#[test]
fn find_int_overflow_is_none() {
    assert_eq!(find_int(b"n: 99999999999999999999999", b"n"), None);
    let max = format!("n: {}", usize::MAX);
    assert_eq!(find_int(max.as_bytes(), b"n"), Some(usize::MAX));
}

#[test]
fn find_int_uses_first_key_occurrence() {
    assert_eq!(find_int(b"{\"byteOffset\": 5, \"byteOffset\": 9}", b"byteOffset"), Some(5));
    // "count" is found inside "accountant" first.
    assert_eq!(find_int(b"{\"accountant\": 3, \"count\": 9}", b"count"), Some(3));
}

#[test]
fn accessor_defaults() {
    let a = parse_accessor_obj(b"{}");
    assert_eq!(
        a,
        Accessor { buffer_view: 0, byte_offset: 0, count: 0, component_type: 5126 }
    );
    let big = parse_accessor_obj(b"{\"componentType\": 4294967301}");
    assert_eq!(big.component_type, 5);
}

#[test]
fn primitive_requires_all_attributes() {
    let p = parse_primitive(b"{\"POSITION\": 1, \"NORMAL\": 2, \"TEXCOORD_0\": 3, \"indices\": 4}");
    assert_eq!(
        p,
        Some(MeshPrimitive { position_accessor: 1, normal_accessor: 2, uv_accessor: 3, index_accessor: 4 })
    );
    assert_eq!(parse_primitive(b"{\"POSITION\": 1, \"indices\": 4}"), None);
}

#[test]
fn spans_of_top_level_objects() {
    let json = b"x \"k\": [ {\"a\": {\"b\": 1}}, [ {\"c\": 2} ], {} ] {\"d\": 3}";
    let spans = array_object_spans(json, b"\"k\"");
    assert_eq!(spans.len(), 2);
    assert_eq!(&json[spans[0].0..spans[0].1 + 1], b"{\"a\": {\"b\": 1}}");
    // A nested array does not raise the depth: its objects count as
    // top-level ones and its `]` ends the scan.
    assert_eq!(&json[spans[1].0..spans[1].1 + 1], b"{\"c\": 2}");
    assert!(array_object_spans(json, b"\"missing\"").is_empty());
    assert!(array_object_spans(b"\"k\": {}", b"\"k\"").is_empty());
}

#[test]
fn parse_sample_document() {
    let json = SAMPLE.as_bytes();
    let accessors = parse_accessors(json);
    assert_eq!(
        accessors,
        vec![
            Accessor { buffer_view: 0, byte_offset: 0, count: 3, component_type: 5126 },
            Accessor { buffer_view: 1, byte_offset: 0, count: 6, component_type: 5123 },
            Accessor { buffer_view: 2, byte_offset: 4, count: 2, component_type: 5125 },
        ]
    );
    let views = parse_buffer_views(json);
    assert_eq!(
        views,
        vec![
            BufferView { byte_offset: 0, byte_length: 36, byte_stride: 12 },
            BufferView { byte_offset: 36, byte_length: 12, byte_stride: 0 },
        ]
    );
    let (meshes, indices) = parse_meshes(json);
    assert_eq!(
        meshes,
        vec![
            MeshPrimitive { position_accessor: 0, normal_accessor: 1, uv_accessor: 2, index_accessor: 3 },
            MeshPrimitive { position_accessor: 6, normal_accessor: 7, uv_accessor: 8, index_accessor: 9 },
        ]
    );
    assert_eq!(indices, vec![0, 1]);
    let all = parse_gltf_json(json);
    assert_eq!(all.accessors, accessors);
    assert_eq!(all.buffer_views, views);
    assert_eq!(all.meshes, meshes);
    assert_eq!(all.mesh_indices, vec![0, 1]);
}

#[test]
fn parse_empty_document() {
    let all = parse_gltf_json(b"{}");
    assert!(all.accessors.is_empty());
    assert!(all.buffer_views.is_empty());
    assert!(all.meshes.is_empty());
    assert!(all.mesh_indices.is_empty());
}

#[test]
fn little_endian_reads() {
    let data = [0x01u8, 0x02, 0x03, 0x04, 0xff];
    assert_eq!(read_u16(&data, 0), 0x0201);
    assert_eq!(read_u16(&data, 3), 0xff04);
    assert_eq!(read_u32(&data, 0), 0x04030201);
    assert_eq!(read_u32(&data, 1), 0xff040302);
}

#[test]
fn read_u16_and_u32_indices() {
    let views = [
        BufferView { byte_offset: 2, byte_length: 6, byte_stride: 0 },
        BufferView { byte_offset: 0, byte_length: 8, byte_stride: 0 },
    ];
    let bin = [9u8, 9, 1, 0, 2, 0, 0, 1, 5, 0, 0, 0];
    let short = Accessor { buffer_view: 0, byte_offset: 0, count: 3, component_type: 5123 };
    assert_eq!(read_indices(&bin, &short, &views), vec![1, 2, 256]);
    let long = Accessor { buffer_view: 1, byte_offset: 4, count: 2, component_type: 5125 };
    assert_eq!(read_indices(&bin, &long, &views), vec![0x01000002, 5]);
    let none = Accessor { buffer_view: 1, byte_offset: 0, count: 0, component_type: 5125 };
    assert!(read_indices(&bin, &none, &views).is_empty());
}

#[test]
fn append_indices_shifts_and_truncates() {
    let mut all = vec![7u16];
    append_indices(&mut all, &[0, 1, 65536 + 2], 10);
    assert_eq!(all, vec![7, 10, 11, 12]);
}

#[test]
fn join_primitive_indices_shifts_by_earlier_vertex_counts() {
    let parts: Vec<(Vec<u32>, usize)> = vec![
        (vec![0, 1, 2], 3),
        (vec![0, 2, 1, 65536], 4),
        (vec![], 2),
        (vec![1], 5),
    ];
    let joined = join_primitive_indices(&parts);
    assert_eq!(joined, vec![0u16, 1, 2, 3, 5, 4, 3, 10]);
    assert!(join_primitive_indices(&[]).is_empty());
}

#[test]
fn array_objects_are_cut_at_character_counts() {
    // Each multi-byte character before an object's end shifts the cut one
    // byte to the left per extra byte, as slicing by character index does.
    let json = "\"k\": [{\"n\":\"é\"}, {\"count\": 7}]".as_bytes();
    assert_eq!(array_object_spans(json, b"\"k\""), vec![(6, 14), (17, 28)]);
    assert!(object_spans_on_boundaries(json, b"\"k\""));
    let accessors = "\"accessors\": [{\"n\":\"é\"}, {\"count\": 7}]".as_bytes();
    let parsed = parse_accessors(accessors);
    assert_eq!(parsed.len(), 2);
    assert_eq!(parsed[0].count, 0);
    assert_eq!(parsed[1].count, 7);
}

#[test]
fn object_cut_inside_a_character_is_detected() {
    let json = "\"k\": [\"ééé\",{\"b\":1}, \"x\"]".as_bytes();
    assert_eq!(array_object_spans(json, b"\"k\""), vec![(12, 18)]);
    assert!(!object_spans_on_boundaries(json, b"\"k\""));
}

#[test]
fn primitive_index_parts_reads_listed_primitives() {
    // Two u16 indices at offset 0, then three u32 indices at offset 4.
    let bin: Vec<u8> = vec![1, 0, 2, 0, 5, 0, 0, 0, 6, 0, 0, 0, 7, 0, 0, 0];
    let accessors = vec![
        Accessor { buffer_view: 0, byte_offset: 0, count: 3, component_type: 5126 },
        Accessor { buffer_view: 0, byte_offset: 0, count: 2, component_type: 5123 },
        Accessor { buffer_view: 0, byte_offset: 4, count: 3, component_type: 5125 },
        Accessor { buffer_view: 0, byte_offset: 0, count: 4, component_type: 5126 },
    ];
    let g = GltfData {
        accessors,
        buffer_views: vec![BufferView { byte_offset: 0, byte_length: 16, byte_stride: 0 }],
        meshes: vec![
            MeshPrimitive { position_accessor: 0, normal_accessor: 0, uv_accessor: 0, index_accessor: 1 },
            MeshPrimitive { position_accessor: 3, normal_accessor: 3, uv_accessor: 3, index_accessor: 2 },
        ],
        mesh_indices: vec![0, 1],
    };
    let parts = primitive_index_parts(&g, &bin);
    assert_eq!(parts, vec![(vec![1u32, 2], 3), (vec![5u32, 6, 7], 4)]);
    assert_eq!(join_primitive_indices(&parts), vec![1u16, 2, 8, 9, 10]);
}
