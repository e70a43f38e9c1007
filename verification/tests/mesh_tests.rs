use dist_render::loaders::{
    mesh_format_for, mesh_format_for_extension, vertex_count_of_positions, FbxLoader, MeshFormat, MeshLoader, ObjLoader,
};
use dist_render::error::{DistRenderError, MeshLoadError};
use dist_render::mesh::{MeshData, Subset};

#[derive(Default, Clone, Copy, Debug, PartialEq)]
struct Vertex {
    position: [f32; 3],
    normal: [f32; 3],
    texcoord: [f32; 2],
    tangent: [f32; 3],
}

#[test]
fn test_subset_creation() {
    let subset = Subset::new(0, 0, 100, 0, 50);
    assert_eq!(subset.id, 0);
    assert_eq!(subset.vertex_start, 0);
    assert_eq!(subset.vertex_count, 100);
    assert_eq!(subset.face_start, 0);
    assert_eq!(subset.face_count, 50);
}

#[test]
fn test_subset_index_helpers() {
    let subset = Subset::new(0, 0, 100, 10, 20);
    assert_eq!(subset.index_start(), 30);
    assert_eq!(subset.index_count(), 60);
}

#[test]
fn test_mesh_data_creation() {
    let mesh = MeshData::<Vertex>::new();
    assert_eq!(mesh.vertex_count(), 0);
    assert_eq!(mesh.index_count(), 0);
    assert_eq!(mesh.triangle_count(), 0);
    assert!(mesh.name.is_none());
}

#[test]
fn test_mesh_data_with_name() {
    let mesh = MeshData::<Vertex>::with_name("TestMesh");
    assert_eq!(mesh.name, Some("TestMesh".to_string()));
}

#[test]
fn test_mesh_data_with_capacity() {
    let mesh = MeshData::<Vertex>::with_capacity(100, 300);
    assert_eq!(mesh.vertices.capacity(), 100);
    assert_eq!(mesh.indices.capacity(), 300);
}

#[test]
fn test_mesh_data_counts() {
    let mut mesh = MeshData::new();
    mesh.vertices.push(Vertex::default());
    mesh.vertices.push(Vertex::default());
    mesh.vertices.push(Vertex::default());
    mesh.indices.extend_from_slice(&[0, 1, 2]);

    assert_eq!(mesh.vertex_count(), 3);
    assert_eq!(mesh.index_count(), 3);
    assert_eq!(mesh.triangle_count(), 1);
}

#[test]
fn test_mesh_data_validation_valid() {
    let mut mesh = MeshData::new();
    mesh.vertices.push(Vertex::default());
    mesh.vertices.push(Vertex::default());
    mesh.vertices.push(Vertex::default());
    mesh.indices.extend_from_slice(&[0, 1, 2]);

    assert!(mesh.validate().is_ok());
}

#[test]
fn test_mesh_data_validation_invalid_index_count() {
    let mut mesh = MeshData::new();
    mesh.vertices.push(Vertex::default());
    mesh.vertices.push(Vertex::default());
    mesh.indices.extend_from_slice(&[0, 1]);

    assert!(mesh.validate().is_err());
}

#[test]
fn test_mesh_data_validation_invalid_index_range() {
    let mut mesh = MeshData::new();
    mesh.vertices.push(Vertex::default());
    mesh.vertices.push(Vertex::default());
    mesh.indices.extend_from_slice(&[0, 1, 5]);

    let result = mesh.validate();
    assert!(result.is_err());
    assert!(result.unwrap_err().contains("超出顶点范围"));
}

#[test]
fn test_mesh_data_clear() {
    let mut mesh = MeshData::with_name("Test");
    mesh.vertices.push(Vertex::default());
    mesh.indices.push(0);

    mesh.clear();
    assert_eq!(mesh.vertex_count(), 0);
    assert_eq!(mesh.index_count(), 0);
    assert!(mesh.name.is_none());
}

#[test]
fn validation_messages_are_exact() {
    let mut mesh = MeshData::new();
    mesh.vertices.push(Vertex::default());
    mesh.vertices.push(Vertex::default());
    mesh.indices.extend_from_slice(&[0, 1]);
    assert_eq!(mesh.validate().unwrap_err(), "索引数量必须是3的倍数，当前为: 2");

    mesh.indices.push(7);
    assert_eq!(mesh.validate().unwrap_err(), "索引 2 处的值 7 超出顶点范围 (0-1)");

    mesh.indices[2] = 1;
    mesh.subsets.push(Subset::new(0, 0, 2, 0, 1));
    mesh.subsets.push(Subset::new(1, 1, 2, 0, 1));
    assert_eq!(
        mesh.validate().unwrap_err(),
        "子网格 1 的顶点范围超出边界: start=1, count=2, total=2"
    );

    mesh.subsets[1] = Subset::new(1, 0, 1, 1, 1);
    assert_eq!(
        mesh.validate().unwrap_err(),
        "子网格 1 的面范围超出边界: start=1, count=1, total=1"
    );

    mesh.subsets[1] = Subset::new(1, 0, 1, 0, 1);
    assert!(mesh.validate().is_ok());
}

#[test]
fn append_model_builds_subsets() {
    let mut mesh = MeshData::with_name("two");
    mesh.append_model(0, vec![Vertex::default(); 3], &[0, 1, 2]);
    mesh.append_model(1, vec![Vertex::default(); 4], &[0, 1, 2, 2, 3, 0]);
    assert_eq!(mesh.vertex_count(), 7);
    assert_eq!(mesh.indices, vec![0, 1, 2, 3, 4, 5, 5, 6, 3]);
    assert_eq!(mesh.subsets, vec![Subset::new(0, 0, 3, 0, 1), Subset::new(1, 3, 4, 1, 2)]);
    assert!(mesh.validate().is_ok());
}

#[test]
fn obj_loader_test_supported_extensions() {
    let exts = ObjLoader::supported_extensions();
    assert_eq!(exts, &["obj"]);
}

#[test]
fn fbx_loader_test_supported_extensions() {
    let exts = FbxLoader::supported_extensions();
    assert_eq!(exts, &["fbx"]);
}

#[test]
fn mod_test_supported_extensions() {
    let obj_exts = ObjLoader::supported_extensions();
    assert!(obj_exts.contains(&"obj"));

    let fbx_exts = FbxLoader::supported_extensions();
    assert!(fbx_exts.contains(&"fbx"));
}

#[test]
fn test_load_from_memory_unsupported() {
    let result = ObjLoader::load_from_memory::<Vertex>(&[]);
    assert!(result.is_err());
}

#[test]
fn fbx_from_memory_is_empty() {
    let mesh = FbxLoader::load_from_memory::<Vertex>(&[1, 2, 3]).unwrap();
    assert_eq!(mesh.vertex_count(), 0);
    assert!(mesh.name.is_none());
}

#[test]
fn mesh_format_by_extension() {
    assert_eq!(mesh_format_for("models/Sphere.OBJ").unwrap(), MeshFormat::Obj);
    assert_eq!(mesh_format_for("a/b.fbx").unwrap(), MeshFormat::Fbx);
    match mesh_format_for("a/b.Gltf") {
        Err(DistRenderError::MeshLoading(MeshLoadError::UnsupportedFormat(msg))) => {
            assert_eq!(msg, "不支持的文件格式: .gltf")
        }
        _ => panic!("expected an unsupported format"),
    }
    match mesh_format_for("README") {
        Err(DistRenderError::MeshLoading(MeshLoadError::UnsupportedFormat(msg))) => {
            assert_eq!(msg, "无法确定文件扩展名")
        }
        _ => panic!("expected a missing extension"),
    }
}

#[test]
fn indices_without_vertices_are_an_error() {
    let mut mesh = MeshData::<Vertex>::new();
    mesh.indices.extend_from_slice(&[0, 0, 0]);
    assert_eq!(mesh.validate().unwrap_err(), "索引 0 处的值 0 超出顶点范围 (0-4294967295)");
}

#[test]
fn positions_make_whole_vertices() {
    assert_eq!(vertex_count_of_positions(0).unwrap(), 0);
    assert_eq!(vertex_count_of_positions(9).unwrap(), 3);
    match vertex_count_of_positions(10) {
        Err(DistRenderError::MeshLoading(MeshLoadError::InvalidGeometry(msg))) => {
            assert_eq!(msg, "顶点位置数据不完整: 10 个浮点数");
        }
        _ => panic!("an incomplete vertex is invalid geometry"),
    }
}

#[test]
fn formats_by_lower_case_extension() {
    assert_eq!(mesh_format_for_extension(Some("obj")).unwrap(), MeshFormat::Obj);
    assert_eq!(mesh_format_for_extension(Some("fbx")).unwrap(), MeshFormat::Fbx);
    // the extension is expected in lower case already
    match mesh_format_for_extension(Some("OBJ")) {
        Err(DistRenderError::MeshLoading(MeshLoadError::UnsupportedFormat(m))) => {
            assert_eq!(m, "不支持的文件格式: .OBJ")
        }
        _ => panic!("an upper-case extension is not matched here"),
    }
    match mesh_format_for_extension(None) {
        Err(DistRenderError::MeshLoading(MeshLoadError::UnsupportedFormat(m))) => {
            assert_eq!(m, "无法确定文件扩展名")
        }
        _ => panic!("no extension is unsupported"),
    }
}

#[test]
fn validation_fits_unless_a_subset_range_overflows() {
    let mut mesh = MeshData::<Vertex>::new();
    mesh.vertices.push(Vertex::default());
    mesh.indices.extend_from_slice(&[0, 0, 0]);
    mesh.subsets.push(Subset::new(0, 0, 1, 0, 1));
    assert!(mesh.validation_fits());
    assert!(mesh.validate().is_ok());
    mesh.subsets.push(Subset::new(1, u32::MAX, 1, 0, 0));
    assert!(!mesh.validation_fits());
    // a subset after the first bad one is never reached
    mesh.subsets.insert(1, Subset::new(2, 0, 5, 0, 0));
    assert!(mesh.validation_fits());
    assert!(mesh.validate().is_err());
}
