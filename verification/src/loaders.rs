//! Mesh loaders: the formats they accept and the choice of a loader by file
//! extension. Reading the files themselves is left to the caller.
use vstd::prelude::*;
use crate::error::{DistRenderError, MeshLoadError};
use crate::mesh::MeshData;
use crate::scene::{opt_str_view, opt_view};
use crate::text::{append_u64, decimal, str_equals, string_append, string_from};

verus! {

/// A source of meshes in one file format.
pub trait MeshLoader {
    /// Builds a mesh from the bytes of a file.
    fn load_from_memory<V>(data: &[u8]) -> Result<MeshData<V>, DistRenderError>;

    /// The file extensions this loader reads, in lower case, without the dot.
    fn supported_extensions() -> &'static [&'static str];
}

/// Wavefront OBJ meshes.
pub struct ObjLoader;

/// FBX meshes.
pub struct FbxLoader;

/// `r` is the error "unsupported mesh format" with message `msg`.
pub open spec fn is_unsupported_format<T>(r: Result<T, DistRenderError>, msg: Seq<char>) -> bool {
    match r {
        Err(DistRenderError::MeshLoading(MeshLoadError::UnsupportedFormat(m))) => m@ == msg,
        _ => false,
    }
}

fn unsupported_format<T>(msg: &str) -> (r: Result<T, DistRenderError>)
    ensures
        is_unsupported_format(r, msg@),
{
    Err(DistRenderError::MeshLoading(MeshLoadError::UnsupportedFormat(string_from(msg))))
}

impl MeshLoader for ObjLoader {
    /// OBJ meshes are read from files only.
    fn load_from_memory<V>(data: &[u8]) -> (r: Result<MeshData<V>, DistRenderError>)
        ensures
            is_unsupported_format(r, "OBJ 加载器暂不支持从内存加载"@),
    {
        unsupported_format("OBJ 加载器暂不支持从内存加载")
    }

    fn supported_extensions() -> (r: &'static [&'static str])
        ensures
            r@.len() == 1,
            r@[0]@ == "obj"@,
    {
        &["obj"]
    }
}

impl MeshLoader for FbxLoader {
    /// FBX contents are not interpreted yet: any input gives an empty mesh.
    fn load_from_memory<V>(data: &[u8]) -> (r: Result<MeshData<V>, DistRenderError>)
        ensures
            r matches Ok(m) && m.vertices@.len() == 0 && m.indices@.len() == 0
                && m.subsets@.len() == 0 && m.name is None,
    {
        Ok(MeshData::new())
    }

    fn supported_extensions() -> (r: &'static [&'static str])
        ensures
            r@.len() == 1,
            r@[0]@ == "fbx"@,
    {
        &["fbx"]
    }
}

/// The formats `load_mesh` dispatches to.
#[derive(Debug, Clone, Copy, PartialEq, Eq, Structural)]
pub enum MeshFormat {
    Obj,
    Fbx,
}

/// `Path::extension` of a path, as text.
pub uninterp spec fn path_extension(path: Seq<char>) -> Option<Seq<char>>;

/// `str::to_lowercase` of a text.
pub uninterp spec fn text_lowercase(s: Seq<char>) -> Seq<char>;

/// Calls `std::path::Path::extension`; the extension of a `&str` path is valid
/// UTF-8 and converts back to text. The result is named, not stated.
#[verifier::external_body]
fn extension_of(path: &str) -> (r: Option<String>)
    ensures
        opt_view(r) == path_extension(path@),
{
    std::path::Path::new(path).extension().and_then(|e| e.to_str()).map(|e| e.to_string())
}

/// Calls `str::to_lowercase` (Unicode lower case). The result is named, not stated.
#[verifier::external_body]
fn lowercase_of(s: &str) -> (r: String)
    ensures
        r@ == text_lowercase(s@),
{
    s.to_lowercase()
}

/// The loader chosen for a lower-case extension (`None`: the path has no
/// extension), or the message of why there is none.
pub open spec fn format_for_extension(lower: Option<Seq<char>>) -> Result<MeshFormat, Seq<char>> {
    match lower {
        None => Err("无法确定文件扩展名"@),
        Some(lower) => {
            if lower == "obj"@ {
                Ok(MeshFormat::Obj)
            } else if lower == "fbx"@ {
                Ok(MeshFormat::Fbx)
            } else {
                Err("不支持的文件格式: ."@ + lower)
            }
        },
    }
}

/// The loader chosen for `path`, or the message of why there is none.
pub open spec fn mesh_format_choice(path: Seq<char>) -> Result<MeshFormat, Seq<char>> {
    match path_extension(path) {
        None => format_for_extension(None),
        Some(ext) => format_for_extension(Some(text_lowercase(ext))),
    }
}

/// Chooses the loader for an extension already in lower case: `obj` or `fbx`.
/// Anything else, or no extension at all, is an unsupported format.
pub fn mesh_format_for_extension(lower: Option<&str>) -> (r: Result<MeshFormat, DistRenderError>)
    ensures
        match format_for_extension(opt_str_view(lower)) {
            Ok(f) => r == Ok::<MeshFormat, DistRenderError>(f),
            Err(msg) => is_unsupported_format(r, msg),
        },
{
    match lower {
        None => unsupported_format("无法确定文件扩展名"),
        Some(lower) => {
            if str_equals(lower, "obj") {
                Ok(MeshFormat::Obj)
            } else if str_equals(lower, "fbx") {
                Ok(MeshFormat::Fbx)
            } else {
                let mut msg = string_from("不支持的文件格式: .");
                string_append(&mut msg, lower);
                Err(DistRenderError::MeshLoading(MeshLoadError::UnsupportedFormat(msg)))
            }
        },
    }
}

/// Chooses the loader for `path` by its extension, in any case: `obj` or
/// `fbx`. Anything else is an unsupported format.
pub fn mesh_format_for(path: &str) -> (r: Result<MeshFormat, DistRenderError>)
    ensures
        match mesh_format_choice(path@) {
            Ok(f) => r == Ok::<MeshFormat, DistRenderError>(f),
            Err(msg) => is_unsupported_format(r, msg),
        },
{
    match extension_of(path) {
        None => mesh_format_for_extension(None),
        Some(ext) => {
            let lower = lowercase_of(ext.as_str());
            mesh_format_for_extension(Some(lower.as_str()))
        },
    }
}

/// The message for a list of position coordinates that ends inside a vertex.
pub open spec fn incomplete_positions_message(float_count: nat) -> Seq<char> {
    "顶点位置数据不完整: "@ + decimal(float_count) + " 个浮点数"@
}

/// The number of vertices that `float_count` position coordinates make, three
/// per vertex; invalid geometry when the last vertex is incomplete.
pub fn vertex_count_of_positions(float_count: usize) -> (r: Result<usize, DistRenderError>)
    ensures
        float_count % 3 == 0 ==> r == Ok::<usize, DistRenderError>(float_count / 3),
        float_count % 3 != 0 ==> (r matches Err(
            DistRenderError::MeshLoading(MeshLoadError::InvalidGeometry(m)),
        ) && m@ == incomplete_positions_message(float_count as nat)),
{
    if float_count % 3 != 0 {
        let mut msg = string_from("顶点位置数据不完整: ");
        append_u64(&mut msg, float_count as u64);
        string_append(&mut msg, " 个浮点数");
        return Err(DistRenderError::MeshLoading(MeshLoadError::InvalidGeometry(msg)));
    }
    Ok(float_count / 3)
}

} // verus!
