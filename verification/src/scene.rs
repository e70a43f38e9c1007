//! The editor scene: game objects with ids, names, parents and components,
//! and the operations that keep the hierarchy and the editor singletons
//! (main camera, sun, local lights) consistent.
//!
//! Transforms and the floating-point parameters of components are carried as
//! opaque values chosen by the embedding application through [`SceneData`];
//! nothing here inspects them.

use vstd::prelude::*;
use crate::text::{
    sanitize_ascii_label, sanitized_label, is_clean_label, lemma_sanitized_label_is_clean,
    str_eq_ignore_ascii_case, eq_ignore_ascii_case, string_from, string_append, append_u64,
    decimal, str_equals, u64_to_decimal,
};

verus! {

// ---------------------------------------------------------------------------
// Ids and builtin kinds
// ---------------------------------------------------------------------------

/// Identifier of a game object within a scene.
#[derive(Debug, Clone, Copy, PartialEq, Eq, Hash, Structural)]
pub struct GameObjectId(pub u64);

/// The editor singletons that a scene always holds.
#[derive(Debug, Clone, Copy, PartialEq, Eq, Structural)]
pub enum BuiltinGameObjectKind {
    MainCamera,
    Sun,
    LocalLights,
}

pub open spec fn builtin_display_name(kind: BuiltinGameObjectKind) -> Seq<char> {
    match kind {
        BuiltinGameObjectKind::MainCamera => "Main Camera"@,
        BuiltinGameObjectKind::Sun => "Sun"@,
        BuiltinGameObjectKind::LocalLights => "Local Lights"@,
    }
}

impl BuiltinGameObjectKind {
    pub fn display_name(self) -> (r: &'static str)
        ensures
            r@ == builtin_display_name(self),
    {
        match self {
            BuiltinGameObjectKind::MainCamera => "Main Camera",
            BuiltinGameObjectKind::Sun => "Sun",
            BuiltinGameObjectKind::LocalLights => "Local Lights",
        }
    }

    /// Whether `component` is the kind of component this singleton carries.
    pub fn matches_component<D: SceneData>(self, component: &SceneComponent<D>) -> (r: bool)
        ensures
            r == builtin_matches(self, *component),
    {
        match (self, component) {
            (BuiltinGameObjectKind::MainCamera, SceneComponent::Camera(_)) => true,
            (BuiltinGameObjectKind::Sun, SceneComponent::Sun(_)) => true,
            (BuiltinGameObjectKind::LocalLights, SceneComponent::LocalLights(_)) => true,
            _ => false,
        }
    }
}

pub open spec fn builtin_matches<D: SceneData>(
    kind: BuiltinGameObjectKind,
    component: SceneComponent<D>,
) -> bool {
    match kind {
        BuiltinGameObjectKind::MainCamera => component is Camera,
        BuiltinGameObjectKind::Sun => component is Sun,
        BuiltinGameObjectKind::LocalLights => component is LocalLights,
    }
}

// ---------------------------------------------------------------------------
// Mesh sources and file-name handling
// ---------------------------------------------------------------------------

/// Where the mesh of a mesh renderer comes from: a source file, or an already
/// baked cache file.
#[derive(Debug, Clone, PartialEq, Eq)]
pub enum MeshSource {
    File(String),
    Cache(String),
}

/// `Path::file_stem` of a path, as text.
pub uninterp spec fn path_file_stem(path: Seq<char>) -> Option<Seq<char>>;

/// `Path::parent` of a path, as text.
pub uninterp spec fn path_parent(path: Seq<char>) -> Option<Seq<char>>;

/// `Path::file_name` of a path, as text.
pub uninterp spec fn path_file_name(path: Seq<char>) -> Option<Seq<char>>;

pub open spec fn opt_view(o: Option<String>) -> Option<Seq<char>> {
    match o {
        Some(s) => Some(s@),
        None => None,
    }
}

pub open spec fn opt_str_view(o: Option<&str>) -> Option<Seq<char>> {
    match o {
        Some(s) => Some(s@),
        None => None,
    }
}

/// Calls `std::path::Path::file_stem`; the text of a `&str` path is valid
/// UTF-8, so the stem converts back to text. The result is named, not stated.
#[verifier::external_body]
fn file_stem_of(path: &str) -> (r: Option<String>)
    ensures
        opt_view(r) == path_file_stem(path@),
{
    std::path::Path::new(path).file_stem().and_then(|s| s.to_str()).map(|s| s.to_string())
}

/// Calls `std::path::Path::parent`, converted back to text. The result is named,
/// not stated.
#[verifier::external_body]
fn parent_of(path: &str) -> (r: Option<String>)
    ensures
        opt_view(r) == path_parent(path@),
{
    std::path::Path::new(path).parent().and_then(|p| p.to_str()).map(|s| s.to_string())
}

/// Calls `std::path::Path::file_name`, converted back to text. The result is
/// named, not stated.
#[verifier::external_body]
fn file_name_of(path: &str) -> (r: Option<String>)
    ensures
        opt_view(r) == path_file_name(path@),
{
    std::path::Path::new(path).file_name().and_then(|s| s.to_str()).map(|s| s.to_string())
}

pub open spec fn mesh_source_path(source: MeshSource) -> Seq<char> {
    match source {
        MeshSource::File(p) => p@,
        MeshSource::Cache(p) => p@,
    }
}

/// The stem an object name starts from: the file stem, or `GameObject` when
/// there is none or it is empty.
pub open spec fn stem_or_default(stem: Option<Seq<char>>) -> Seq<char> {
    match stem {
        Some(s) => if s.len() > 0 {
            s
        } else {
            "GameObject"@
        },
        None => "GameObject"@,
    }
}

/// `s` is `scene` up to the case of ASCII letters.
pub open spec fn eq_ignore_ascii_case_scene(s: Seq<char>) -> bool {
    eq_ignore_ascii_case(s, "scene"@)
}

/// The base name of an object for a mesh file, before sanitizing, from the
/// file's stem and the name of the directory that holds it: the stem (or
/// `GameObject`), replaced by the directory's name when the stem is `scene` in
/// any ASCII case.
pub open spec fn base_name_from_parts(stem: Option<Seq<char>>, dir_name: Option<Seq<char>>) -> Seq<char> {
    let s = stem_or_default(stem);
    if eq_ignore_ascii_case_scene(s) {
        match dir_name {
            Some(n) => n,
            None => s,
        }
    } else {
        s
    }
}

/// The name of the directory that holds `path`.
pub open spec fn path_dir_name(path: Seq<char>) -> Option<Seq<char>> {
    match path_parent(path) {
        Some(parent) => path_file_name(parent),
        None => None,
    }
}

/// The base name chosen for an object built from a path, before sanitizing.
pub open spec fn mesh_base_name(path: Seq<char>) -> Seq<char> {
    base_name_from_parts(path_file_stem(path), path_dir_name(path))
}

/// A sanitized name, or `Imported Mesh` when nothing is left of it.
pub open spec fn imported_name(base: Seq<char>) -> Seq<char> {
    let s = sanitized_label(base);
    if s.len() == 0 {
        "Imported Mesh"@
    } else {
        s
    }
}

/// The default name of an object for a mesh at `path`.
pub open spec fn mesh_object_name(path: Seq<char>) -> Seq<char> {
    imported_name(mesh_base_name(path))
}

/// The name given to an object for a mesh file whose stem is `stem` and whose
/// directory is named `dir_name`: see `base_name_from_parts`, sanitized, or
/// `Imported Mesh` when nothing is left.
pub fn mesh_object_name_from_parts(stem: Option<&str>, dir_name: Option<&str>) -> (r: String)
    ensures
        r@ == imported_name(base_name_from_parts(opt_str_view(stem), opt_str_view(dir_name))),
        is_clean_label(r@),
        r@.len() > 0,
{
    let base: &str = match stem {
        Some(s) => if s.is_empty() {
            "GameObject"
        } else {
            s
        },
        None => "GameObject",
    };
    proof {
        reveal_strlit("GameObject");
    }
    let name: &str = if str_eq_ignore_ascii_case(base, "scene") {
        match dir_name {
            Some(n) => n,
            None => base,
        }
    } else {
        base
    };
    let sanitized = sanitize_ascii_label(name);
    proof {
        reveal_strlit("Imported Mesh");
        lemma_sanitized_label_is_clean(name@);
    }
    if sanitized.as_str().is_empty() {
        string_from("Imported Mesh")
    } else {
        sanitized
    }
}

impl MeshSource {
    pub fn path(&self) -> (r: &str)
        ensures
            r@ == mesh_source_path(*self),
    {
        match self {
            MeshSource::File(p) => p.as_str(),
            MeshSource::Cache(p) => p.as_str(),
        }
    }

    /// The name given to an object created for this mesh.
    pub fn default_game_object_name(&self) -> (r: String)
        ensures
            r@ == mesh_object_name(mesh_source_path(*self)),
            is_clean_label(r@),
            r@.len() > 0,
    {
        let path = self.path();
        let stem = file_stem_of(path);
        let dir_name = match parent_of(path) {
            Some(parent) => file_name_of(parent.as_str()),
            None => None,
        };
        let stem_ref: Option<&str> = match &stem {
            Some(s) => Some(s.as_str()),
            None => None,
        };
        let dir_ref: Option<&str> = match &dir_name {
            Some(n) => Some(n.as_str()),
            None => None,
        };
        mesh_object_name_from_parts(stem_ref, dir_ref)
    }
}

// ---------------------------------------------------------------------------
// Components
// ---------------------------------------------------------------------------

/// The values that the embedding application attaches to objects and
/// components: transforms and the numeric parameters of each component kind.
/// The scene logic moves them around but never reads them.
pub trait SceneData {
    type Transform: Copy;
    type MeshParams: Copy;
    type CameraParams: Copy;
    type SunParams: Copy;
    type LocalLightsParams: Copy;
    type RenderSettings: Copy;

    /// The transform that leaves an object where it is.
    fn identity_transform() -> Self::Transform;

    /// Where a freshly created main camera stands.
    fn main_camera_transform() -> Self::Transform;

    fn default_mesh_params() -> Self::MeshParams;

    fn default_camera_params() -> Self::CameraParams;

    fn default_sun_params() -> Self::SunParams;

    fn default_local_lights_params() -> Self::LocalLightsParams;

    fn default_render_settings() -> Self::RenderSettings;
}

pub struct MeshRendererComponent<D: SceneData> {
    pub source: MeshSource,
    pub enabled: bool,
    pub params: D::MeshParams,
}

impl<D: SceneData> MeshRendererComponent<D> {
    pub fn new(source: MeshSource) -> (r: Self)
        ensures
            r.source == source,
            r.enabled,
    {
        MeshRendererComponent { source, enabled: default_component_enabled(), params: D::default_mesh_params() }
    }
}

pub struct CameraComponent<D: SceneData> {
    pub enabled: bool,
    pub primary: bool,
    pub params: D::CameraParams,
}

impl<D: SceneData> CameraComponent<D> {
    /// An enabled primary camera with the default parameters.
    pub fn default_camera() -> (r: Self)
        ensures
            r.enabled,
            r.primary,
    {
        CameraComponent { enabled: default_component_enabled(), primary: default_camera_primary(), params: D::default_camera_params() }
    }
}

pub struct SunComponent<D: SceneData> {
    pub enabled: bool,
    pub params: D::SunParams,
}

impl<D: SceneData> SunComponent<D> {
    pub fn default_sun() -> (r: Self)
        ensures
            r.enabled,
    {
        SunComponent { enabled: default_component_enabled(), params: D::default_sun_params() }
    }
}

pub struct LocalLightsComponent<D: SceneData> {
    pub enabled: bool,
    pub count: u32,
    pub params: D::LocalLightsParams,
}

impl<D: SceneData> LocalLightsComponent<D> {
    /// Enabled local lights, none of them placed yet.
    pub fn default_local_lights() -> (r: Self)
        ensures
            r.enabled,
            r.count == 0,
    {
        LocalLightsComponent { enabled: default_component_enabled(), count: 0, params: D::default_local_lights_params() }
    }
}

pub enum SceneComponent<D: SceneData> {
    MeshRenderer(MeshRendererComponent<D>),
    Camera(CameraComponent<D>),
    Sun(SunComponent<D>),
    LocalLights(LocalLightsComponent<D>),
}

pub open spec fn component_kind_name<D: SceneData>(c: SceneComponent<D>) -> Seq<char> {
    match c {
        SceneComponent::MeshRenderer(_) => "Mesh Renderer"@,
        SceneComponent::Camera(_) => "Camera"@,
        SceneComponent::Sun(_) => "Sun"@,
        SceneComponent::LocalLights(_) => "Local Lights"@,
    }
}

impl<D: SceneData> SceneComponent<D> {
    pub fn kind_name(&self) -> (r: &'static str)
        ensures
            r@ == component_kind_name(*self),
    {
        match self {
            SceneComponent::MeshRenderer(_) => "Mesh Renderer",
            SceneComponent::Camera(_) => "Camera",
            SceneComponent::Sun(_) => "Sun",
            SceneComponent::LocalLights(_) => "Local Lights",
        }
    }

    pub fn as_mesh_renderer(&self) -> (r: Option<&MeshRendererComponent<D>>)
        ensures
            match *self {
                SceneComponent::MeshRenderer(m) => r == Some(&m),
                _ => r is None,
            },
    {
        match self {
            SceneComponent::MeshRenderer(m) => Some(m),
            _ => None,
        }
    }

    pub fn as_camera(&self) -> (r: Option<&CameraComponent<D>>)
        ensures
            match *self {
                SceneComponent::Camera(m) => r == Some(&m),
                _ => r is None,
            },
    {
        match self {
            SceneComponent::Camera(m) => Some(m),
            _ => None,
        }
    }

    pub fn as_camera_mut(&mut self) -> (r: Option<&mut CameraComponent<D>>)
        ensures
            match *old(self) {
                SceneComponent::Camera(m) => r matches Some(x) && *x == m && *final(self)
                    == SceneComponent::Camera(*final(x)),
                _ => r is None && *final(self) == *old(self),
            },
    {
        match self {
            SceneComponent::Camera(m) => Some(m),
            _ => None,
        }
    }

    pub fn as_sun(&self) -> (r: Option<&SunComponent<D>>)
        ensures
            match *self {
                SceneComponent::Sun(m) => r == Some(&m),
                _ => r is None,
            },
    {
        match self {
            SceneComponent::Sun(m) => Some(m),
            _ => None,
        }
    }

    pub fn as_sun_mut(&mut self) -> (r: Option<&mut SunComponent<D>>)
        ensures
            match *old(self) {
                SceneComponent::Sun(m) => r matches Some(x) && *x == m && *final(self)
                    == SceneComponent::Sun(*final(x)),
                _ => r is None && *final(self) == *old(self),
            },
    {
        match self {
            SceneComponent::Sun(m) => Some(m),
            _ => None,
        }
    }

    pub fn as_local_lights(&self) -> (r: Option<&LocalLightsComponent<D>>)
        ensures
            match *self {
                SceneComponent::LocalLights(m) => r == Some(&m),
                _ => r is None,
            },
    {
        match self {
            SceneComponent::LocalLights(m) => Some(m),
            _ => None,
        }
    }

    pub fn as_local_lights_mut(&mut self) -> (r: Option<&mut LocalLightsComponent<D>>)
        ensures
            match *old(self) {
                SceneComponent::LocalLights(m) => r matches Some(x) && *x == m && *final(self)
                    == SceneComponent::LocalLights(*final(x)),
                _ => r is None && *final(self) == *old(self),
            },
    {
        match self {
            SceneComponent::LocalLights(m) => Some(m),
            _ => None,
        }
    }
}

// ---------------------------------------------------------------------------
// Game objects
// ---------------------------------------------------------------------------

pub struct GameObject<D: SceneData> {
    pub id: GameObjectId,
    pub name: String,
    pub enabled: bool,
    pub builtin: Option<BuiltinGameObjectKind>,
    pub parent: Option<GameObjectId>,
    pub transform: D::Transform,
    pub components: Vec<SceneComponent<D>>,
}

/// The name an object gets: its sanitized name, or `GameObject <id>` when
/// nothing is left of it.
pub open spec fn object_name(id: GameObjectId, name: Seq<char>) -> Seq<char> {
    let s = sanitized_label(name);
    if s.len() == 0 {
        "GameObject "@ + decimal(id.0 as nat)
    } else {
        s
    }
}

/// `GameObject <id>`: the name of an object whose own name is empty.
pub fn default_game_object_name_for_id(id: GameObjectId) -> (r: String)
    ensures
        r@ == "GameObject "@ + decimal(id.0 as nat),
{
    let mut s = string_from("GameObject ");
    append_u64(&mut s, id.0);
    s
}

/// Objects are enabled unless stored otherwise.
pub fn default_game_object_enabled() -> (r: bool)
    ensures
        r,
{
    true
}

/// Components are enabled unless stored otherwise.
pub fn default_component_enabled() -> (r: bool)
    ensures
        r,
{
    true
}

/// A camera is the primary one unless stored otherwise.
pub fn default_camera_primary() -> (r: bool)
    ensures
        r,
{
    true
}

/// The id counter of a new scene.
pub fn default_next_game_object_id() -> (r: u64)
    ensures
        r == 1,
{
    1
}

pub proof fn lemma_object_name_nonempty(id: GameObjectId, name: Seq<char>)
    ensures
        object_name(id, name).len() > 0,
{
    reveal_strlit("GameObject ");
}

impl<D: SceneData> GameObject<D> {
    pub fn new(id: GameObjectId, name: &str, transform: D::Transform) -> (r: Self)
        ensures
            r.id == id,
            r.name@ == object_name(id, name@),
            r.enabled,
            r.builtin is None,
            r.parent is None,
            r.transform == transform,
            r.components@.len() == 0,
    {
        let name = Self::sanitized_name(id, name);
        GameObject {
            id,
            name,
            enabled: default_game_object_enabled(),
            builtin: None,
            parent: None,
            transform,
            components: Vec::new(),
        }
    }

    pub fn sanitized_name(id: GameObjectId, name: &str) -> (r: String)
        ensures
            r@ == object_name(id, name@),
    {
        let sanitized = sanitize_ascii_label(name);
        if sanitized.as_str().is_empty() {
            default_game_object_name_for_id(id)
        } else {
            sanitized
        }
    }

    pub fn is_builtin(&self) -> (r: bool)
        ensures
            r == self.builtin is Some,
    {
        self.builtin.is_some()
    }
}

// ---------------------------------------------------------------------------
// The scene
// ---------------------------------------------------------------------------

pub struct SceneState<D: SceneData> {
    /// The id that the next created object receives (at least 1).
    pub next_game_object_id: u64,
    pub game_objects: Vec<GameObject<D>>,
    pub render_settings: D::RenderSettings,
    /// Path of the image-based-lighting environment, if any.
    pub ibl: Option<String>,
}


/// A mesh placed in a scene file of the older format, which listed meshes
/// instead of game objects.
pub struct LegacySceneElement<D: SceneData> {
    pub source: MeshSource,
    pub transform: D::Transform,
}

// ----- finding objects by id -----

/// Index of the first object at or after `i` whose id is `id`.
pub open spec fn find_from<D: SceneData>(objs: Seq<GameObject<D>>, id: GameObjectId, i: int) -> Option<int>
    decreases objs.len() - i,
{
    if i < 0 || i >= objs.len() {
        None
    } else if objs[i].id == id {
        Some(i)
    } else {
        find_from(objs, id, i + 1)
    }
}

/// Index of the first object whose id is `id`.
pub open spec fn find_index<D: SceneData>(objs: Seq<GameObject<D>>, id: GameObjectId) -> Option<int> {
    find_from(objs, id, 0)
}

pub open spec fn has_id<D: SceneData>(objs: Seq<GameObject<D>>, id: GameObjectId) -> bool {
    exists|i: int| 0 <= i < objs.len() && (#[trigger] objs[i]).id == id
}

pub proof fn lemma_find_from<D: SceneData>(objs: Seq<GameObject<D>>, id: GameObjectId, i: int)
    requires
        0 <= i <= objs.len(),
    ensures
        match find_from(objs, id, i) {
            Some(k) => i <= k < objs.len() && objs[k].id == id && forall|j: int|
                i <= j < k ==> (#[trigger] objs[j]).id != id,
            None => forall|j: int| i <= j < objs.len() ==> (#[trigger] objs[j]).id != id,
        },
    decreases objs.len() - i,
{
    if i < objs.len() && objs[i].id != id {
        lemma_find_from(objs, id, i + 1);
    }
}

pub proof fn lemma_find_index<D: SceneData>(objs: Seq<GameObject<D>>, id: GameObjectId)
    ensures
        match find_index(objs, id) {
            Some(k) => 0 <= k < objs.len() && objs[k].id == id && forall|j: int|
                0 <= j < k ==> (#[trigger] objs[j]).id != id,
            None => !has_id(objs, id),
        },
        find_index(objs, id) is Some <==> has_id(objs, id),
{
    lemma_find_from(objs, id, 0);
}

// ----- the hierarchy -----

/// The parent of the first object with id `x`.
pub open spec fn parent_link<D: SceneData>(objs: Seq<GameObject<D>>, x: GameObjectId) -> Option<GameObjectId> {
    match find_index(objs, x) {
        Some(i) => objs[i].parent,
        None => None,
    }
}

/// The `k`-th ancestor of `x`, following the parent of the first object with
/// each id (`x` itself for `k == 0`).
pub open spec fn ancestor_at<D: SceneData>(objs: Seq<GameObject<D>>, x: GameObjectId, k: nat) -> Option<GameObjectId>
    decreases k,
{
    if k == 0 {
        Some(x)
    } else {
        match ancestor_at(objs, x, (k - 1) as nat) {
            Some(y) => parent_link(objs, y),
            None => None,
        }
    }
}

/// `a` is reached from `d` by following parents one or more times.
pub open spec fn is_descendant_of<D: SceneData>(objs: Seq<GameObject<D>>, d: GameObjectId, a: GameObjectId) -> bool {
    exists|k: nat| k >= 1 && #[trigger] ancestor_at(objs, d, k) == Some(a)
}

/// Some object with id `c` names `p` as its parent.
pub open spec fn is_child<D: SceneData>(objs: Seq<GameObject<D>>, p: GameObjectId, c: GameObjectId) -> bool {
    exists|i: int| 0 <= i < objs.len() && (#[trigger] objs[i]).id == c && objs[i].parent == Some(p)
}

/// A downward path of existing objects, each a child of the one before.
pub open spec fn is_tree_path<D: SceneData>(objs: Seq<GameObject<D>>, path: Seq<GameObjectId>) -> bool {
    &&& path.len() >= 1
    &&& has_id(objs, path[0])
    &&& forall|i: int| 0 <= i < path.len() - 1 ==> is_child(objs, #[trigger] path[i], path[i + 1])
}

/// `x` lies in the subtree rooted at `root` (`root` included, when it exists).
pub open spec fn in_subtree<D: SceneData>(objs: Seq<GameObject<D>>, root: GameObjectId, x: GameObjectId) -> bool {
    exists|path: Seq<GameObjectId>| #[trigger] is_tree_path(objs, path) && path[0] == root && path.last() == x
}

/// Whether `child` may be moved under `new_parent` (or to the top level).
pub open spec fn can_reparent<D: SceneData>(
    objs: Seq<GameObject<D>>,
    child: GameObjectId,
    new_parent: Option<GameObjectId>,
) -> bool {
    match find_index(objs, child) {
        None => false,
        Some(i) => {
            if objs[i].parent == new_parent {
                false
            } else if objs[i].builtin is Some && new_parent is Some {
                false
            } else {
                match new_parent {
                    None => true,
                    Some(p) => p != child && has_id(objs, p) && !is_descendant_of(objs, p, child),
                }
            }
        },
    }
}

pub proof fn lemma_ancestor_in_parents<D: SceneData>(objs: Seq<GameObject<D>>, x: GameObjectId, k: nat)
    requires
        k >= 1,
        ancestor_at(objs, x, k) is Some,
    ensures
        exists|i: int| 0 <= i < objs.len() && (#[trigger] objs[i]).parent == ancestor_at(objs, x, k),
{
    let y = ancestor_at(objs, x, (k - 1) as nat)->0;
    lemma_find_index(objs, y);
    let i = find_index(objs, y)->0;
    assert(objs[i].parent == ancestor_at(objs, x, k));
}

pub proof fn lemma_ancestor_shift<D: SceneData>(objs: Seq<GameObject<D>>, x: GameObjectId, i: nat, j: nat, t: nat)
    requires
        ancestor_at(objs, x, i) == ancestor_at(objs, x, j),
    ensures
        ancestor_at(objs, x, i + t) == ancestor_at(objs, x, j + t),
    decreases t,
{
    if t > 0 {
        lemma_ancestor_shift(objs, x, i, j, (t - 1) as nat);
        assert(ancestor_at(objs, x, i + t) == match ancestor_at(objs, x, (i + t - 1) as nat) {
            Some(y) => parent_link(objs, y),
            None => None,
        });
        assert(ancestor_at(objs, x, j + t) == match ancestor_at(objs, x, (j + t - 1) as nat) {
            Some(y) => parent_link(objs, y),
            None => None,
        });
    }
}

/// Once the walk up ends, it stays ended.
pub proof fn lemma_ancestor_none<D: SceneData>(objs: Seq<GameObject<D>>, x: GameObjectId, i: nat, t: nat)
    requires
        ancestor_at(objs, x, i) is None,
    ensures
        ancestor_at(objs, x, i + t) is None,
    decreases t,
{
    if t > 0 {
        lemma_ancestor_none(objs, x, i, (t - 1) as nat);
    }
}

/// When the walk up revisits `ancestor_at(j + 1)` at step `m + 1`, every later step
/// is one of the steps `j + 1 ..= m`.
pub proof fn lemma_ancestor_cycle<D: SceneData>(objs: Seq<GameObject<D>>, x: GameObjectId, j: nat, m: nat, k: nat)
    requires
        j < m,
        ancestor_at(objs, x, j + 1) == ancestor_at(objs, x, m + 1),
        k >= j + 1,
    ensures
        exists|k2: nat| j + 1 <= k2 <= m && #[trigger] ancestor_at(objs, x, k2) == ancestor_at(objs, x, k),
    decreases k,
{
    if k <= m {
        assert(ancestor_at(objs, x, k) == ancestor_at(objs, x, k));
    } else {
        let p: nat = (m - j) as nat;
        let t: nat = (k - m - 1) as nat;
        lemma_ancestor_shift(objs, x, j + 1, m + 1, t);
        assert(j + 1 + t == k - p);
        lemma_ancestor_cycle(objs, x, j, m, (k - p) as nat);
    }
}

/// Distinct ids taken from a set of at most `n` values number at most `n`.
pub proof fn lemma_distinct_bound<T>(ids: Seq<T>, pool: Seq<T>)
    requires
        ids.no_duplicates(),
        forall|k: int| 0 <= k < ids.len() ==> pool.contains(#[trigger] ids[k]),
    ensures
        ids.len() <= pool.len(),
{
    ids.unique_seq_to_set();
    pool.lemma_cardinality_of_set();
    assert(ids.to_set().subset_of(pool.to_set())) by {
        assert forall|x: T| ids.to_set().contains(x) implies pool.to_set().contains(x) by {
            let k = choose|k: int| 0 <= k < ids.len() && ids[k] == x;
            assert(pool.contains(ids[k]));
        }
    }
    vstd::set_lib::lemma_len_subset(ids.to_set(), pool.to_set());
}

pub open spec fn object_ids<D: SceneData>(objs: Seq<GameObject<D>>) -> Seq<GameObjectId> {
    objs.map_values(|o: GameObject<D>| o.id)
}

pub open spec fn parent_ids<D: SceneData>(objs: Seq<GameObject<D>>) -> Seq<GameObjectId> {
    objs.map_values(|o: GameObject<D>| match o.parent {
        Some(p) => p,
        None => o.id,
    })
}

fn contains_id(v: &Vec<GameObjectId>, id: GameObjectId) -> (r: bool)
    ensures
        r == v@.contains(id),
{
    let n = v.len();
    let mut i: usize = 0;
    while i < n
        invariant
            n == v@.len(),
            i <= n,
            forall|j: int| 0 <= j < i ==> v@[j] != id,
        decreases n - i,
    {
        if v[i] == id {
            return true;
        }
        i = i + 1;
    }
    false
}

pub proof fn lemma_path_prepend<D: SceneData>(objs: Seq<GameObject<D>>, p: GameObjectId, c: GameObjectId, x: GameObjectId)
    requires
        has_id(objs, p),
        is_child(objs, p, c),
        in_subtree(objs, c, x),
    ensures
        in_subtree(objs, p, x),
{
    let path = choose|path: Seq<GameObjectId>| #[trigger] is_tree_path(objs, path) && path[0] == c && path.last() == x;
    let path2 = seq![p] + path;
    assert forall|i: int| 0 <= i < path2.len() - 1 implies is_child(objs, #[trigger] path2[i], path2[i + 1]) by {
        if i > 0 {
            assert(path2[i] == path[i - 1] && path2[i + 1] == path[i]);
        }
    }
    assert(is_tree_path(objs, path2));
}

pub proof fn lemma_subtree_root<D: SceneData>(objs: Seq<GameObject<D>>, root: GameObjectId)
    requires
        has_id(objs, root),
    ensures
        in_subtree(objs, root, root),
{
    assert(is_tree_path(objs, seq![root]));
}

pub proof fn lemma_subtree_has_id<D: SceneData>(objs: Seq<GameObject<D>>, root: GameObjectId, x: GameObjectId)
    requires
        in_subtree(objs, root, x),
    ensures
        has_id(objs, x),
        has_id(objs, root),
{
    let path = choose|path: Seq<GameObjectId>| #[trigger] is_tree_path(objs, path) && path[0] == root && path.last() == x;
    if path.len() > 1 {
        assert(is_child(objs, path[path.len() - 2], path[path.len() - 1]));
        let i = choose|i: int| 0 <= i < objs.len() && (#[trigger] objs[i]).id == x && objs[i].parent == Some(path[path.len() - 2]);
        assert(objs[i].id == x);
    }
}

/// A set of ids that holds `root` and every child of each of its members
/// holds the whole subtree.
pub proof fn lemma_subtree_closed<D: SceneData>(objs: Seq<GameObject<D>>, root: GameObjectId, s: Seq<GameObjectId>, x: GameObjectId)
    requires
        s.contains(root),
        forall|k: int, c: GameObjectId| 0 <= k < s.len() && #[trigger] is_child(objs, s[k], c) ==> s.contains(c),
        in_subtree(objs, root, x),
    ensures
        s.contains(x),
{
    let path = choose|path: Seq<GameObjectId>| #[trigger] is_tree_path(objs, path) && path[0] == root && path.last() == x;
    lemma_path_in_closed(objs, s, path, path.len() - 1);
}

proof fn lemma_path_in_closed<D: SceneData>(objs: Seq<GameObject<D>>, s: Seq<GameObjectId>, path: Seq<GameObjectId>, i: int)
    requires
        is_tree_path(objs, path),
        s.contains(path[0]),
        forall|k: int, c: GameObjectId| 0 <= k < s.len() && #[trigger] is_child(objs, s[k], c) ==> s.contains(c),
        0 <= i < path.len(),
    ensures
        s.contains(path[i]),
    decreases i,
{
    if i > 0 {
        lemma_path_in_closed(objs, s, path, i - 1);
        assert(is_child(objs, path[i - 1], path[i]));
        let k = choose|k: int| 0 <= k < s.len() && s[k] == path[i - 1];
        assert(is_child(objs, s[k], path[i]));
    }
}

// ----- components matching a query -----

/// What the editor looks for among the components of a scene.
#[derive(Clone, Copy, PartialEq, Eq, Structural)]
pub enum ComponentQuery {
    EnabledPrimaryCamera,
    EnabledCamera,
    AnyCamera,
    EnabledSun,
    AnySun,
    EnabledLocalLights,
    AnyLocalLights,
}

pub open spec fn query_matches<D: SceneData>(q: ComponentQuery, c: SceneComponent<D>) -> bool {
    match q {
        ComponentQuery::EnabledPrimaryCamera => c matches SceneComponent::Camera(cam)
            && cam.enabled && cam.primary,
        ComponentQuery::EnabledCamera => c matches SceneComponent::Camera(cam) && cam.enabled,
        ComponentQuery::AnyCamera => c is Camera,
        ComponentQuery::EnabledSun => c matches SceneComponent::Sun(sun) && sun.enabled,
        ComponentQuery::AnySun => c is Sun,
        ComponentQuery::EnabledLocalLights => c matches SceneComponent::LocalLights(l)
            && l.enabled,
        ComponentQuery::AnyLocalLights => c is LocalLights,
    }
}

pub open spec fn component_at<D: SceneData>(objs: Seq<GameObject<D>>, g: int, c: int) -> SceneComponent<D> {
    objs[g].components@[c]
}

pub open spec fn valid_position<D: SceneData>(objs: Seq<GameObject<D>>, g: int, c: int) -> bool {
    0 <= g < objs.len() && 0 <= c < objs[g].components@.len()
}

/// `(g1, c1)` comes before `(g2, c2)` in scene order.
pub open spec fn before(g1: int, c1: int, g2: int, c2: int) -> bool {
    g1 < g2 || (g1 == g2 && c1 < c2)
}

/// `(g, c)` is the first component in scene order that `q` matches.
pub open spec fn is_first_match<D: SceneData>(objs: Seq<GameObject<D>>, q: ComponentQuery, g: int, c: int) -> bool {
    &&& valid_position(objs, g, c)
    &&& query_matches(q, component_at(objs, g, c))
    &&& forall|g2: int, c2: int|
        valid_position(objs, g2, c2) && before(g2, c2, g, c) ==> !query_matches(
            q,
            #[trigger] component_at(objs, g2, c2),
        )
}

pub open spec fn any_match<D: SceneData>(objs: Seq<GameObject<D>>, q: ComponentQuery) -> bool {
    exists|g: int, c: int| valid_position(objs, g, c) && query_matches(q, #[trigger] component_at(objs, g, c))
}

/// The first component in scene order that `q` matches.
pub open spec fn first_match<D: SceneData>(objs: Seq<GameObject<D>>, q: ComponentQuery) -> Option<(int, int)> {
    if exists|g: int, c: int| is_first_match(objs, q, g, c) {
        let (g, c) = choose|g: int, c: int| is_first_match(objs, q, g, c);
        Some((g, c))
    } else {
        None
    }
}

pub proof fn lemma_first_match_unique<D: SceneData>(
    objs: Seq<GameObject<D>>,
    q: ComponentQuery,
    g: int,
    c: int,
)
    requires
        is_first_match(objs, q, g, c),
    ensures
        first_match(objs, q) == Some((g, c)),
{
    assert(is_first_match(objs, q, g, c));
    let p = choose|g: int, c: int| is_first_match(objs, q, g, c);
    assert(is_first_match(objs, q, p.0, p.1));
    if before(p.0, p.1, g, c) {
        assert(!query_matches(q, component_at(objs, p.0, p.1)));
    } else if before(g, c, p.0, p.1) {
        assert(!query_matches(q, component_at(objs, g, c)));
    }
    assert(p == (g, c));
}

/// When some component matches, a first one does.
pub proof fn lemma_first_match_exists<D: SceneData>(
    objs: Seq<GameObject<D>>,
    q: ComponentQuery,
    g: int,
    c: int,
)
    requires
        valid_position(objs, g, c),
        query_matches(q, component_at(objs, g, c)),
    ensures
        first_match(objs, q) is Some,
    decreases g, c,
{
    if exists|g2: int, c2: int|
        valid_position(objs, g2, c2) && before(g2, c2, g, c) && query_matches(
            q,
            #[trigger] component_at(objs, g2, c2),
        ) {
        let (g2, c2) = choose|g2: int, c2: int|
            valid_position(objs, g2, c2) && before(g2, c2, g, c) && query_matches(
                q,
                #[trigger] component_at(objs, g2, c2),
            );
        lemma_first_match_exists(objs, q, g2, c2);
    } else {
        lemma_first_match_unique(objs, q, g, c);
    }
}

pub proof fn lemma_first_match_none<D: SceneData>(objs: Seq<GameObject<D>>, q: ComponentQuery)
    ensures
        first_match(objs, q) is None <==> !any_match(objs, q),
        first_match(objs, q) matches Some(p) ==> is_first_match(objs, q, p.0, p.1),
{
    if any_match(objs, q) {
        let (g, c) = choose|g: int, c: int|
            valid_position(objs, g, c) && query_matches(q, #[trigger] component_at(objs, g, c));
        lemma_first_match_exists(objs, q, g, c);
    }
}

/// The component that plays the main-camera role: the first enabled primary
/// camera, else the first enabled camera, else the first camera.
pub open spec fn camera_role<D: SceneData>(objs: Seq<GameObject<D>>) -> Option<(int, int)> {
    match first_match(objs, ComponentQuery::EnabledPrimaryCamera) {
        Some(p) => Some(p),
        None => match first_match(objs, ComponentQuery::EnabledCamera) {
            Some(p) => Some(p),
            None => first_match(objs, ComponentQuery::AnyCamera),
        },
    }
}

/// The component that plays the sun role: the first enabled sun, else the first sun.
pub open spec fn sun_role<D: SceneData>(objs: Seq<GameObject<D>>) -> Option<(int, int)> {
    match first_match(objs, ComponentQuery::EnabledSun) {
        Some(p) => Some(p),
        None => first_match(objs, ComponentQuery::AnySun),
    }
}

/// The component that plays the local-lights role.
pub open spec fn local_lights_role<D: SceneData>(objs: Seq<GameObject<D>>) -> Option<(int, int)> {
    match first_match(objs, ComponentQuery::EnabledLocalLights) {
        Some(p) => Some(p),
        None => first_match(objs, ComponentQuery::AnyLocalLights),
    }
}

pub open spec fn role_of<D: SceneData>(objs: Seq<GameObject<D>>, kind: BuiltinGameObjectKind) -> Option<(int, int)> {
    match kind {
        BuiltinGameObjectKind::MainCamera => camera_role(objs),
        BuiltinGameObjectKind::Sun => sun_role(objs),
        BuiltinGameObjectKind::LocalLights => local_lights_role(objs),
    }
}

/// The role is played by a component of the right kind, when there is one.
pub proof fn lemma_role_kind<D: SceneData>(objs: Seq<GameObject<D>>, kind: BuiltinGameObjectKind)
    ensures
        role_of(objs, kind) matches Some(p) ==> valid_position(objs, p.0, p.1) && builtin_matches(
            kind,
            component_at(objs, p.0, p.1),
        ),
        role_of(objs, kind) is None <==> !exists|g: int, c: int|
            valid_position(objs, g, c) && builtin_matches(kind, #[trigger] component_at(objs, g, c)),
{
    lemma_first_match_none(objs, ComponentQuery::EnabledPrimaryCamera);
    lemma_first_match_none(objs, ComponentQuery::EnabledCamera);
    lemma_first_match_none(objs, ComponentQuery::AnyCamera);
    lemma_first_match_none(objs, ComponentQuery::EnabledSun);
    lemma_first_match_none(objs, ComponentQuery::AnySun);
    lemma_first_match_none(objs, ComponentQuery::EnabledLocalLights);
    lemma_first_match_none(objs, ComponentQuery::AnyLocalLights);
    match kind {
        BuiltinGameObjectKind::MainCamera => {
            assert(any_match(objs, ComponentQuery::AnyCamera) <==> exists|g: int, c: int|
                valid_position(objs, g, c) && builtin_matches(kind, #[trigger] component_at(objs, g, c)));
            if any_match(objs, ComponentQuery::EnabledPrimaryCamera) || any_match(objs, ComponentQuery::EnabledCamera) {
                let (g, c) = if any_match(objs, ComponentQuery::EnabledPrimaryCamera) {
                    choose|g: int, c: int| valid_position(objs, g, c) && query_matches(ComponentQuery::EnabledPrimaryCamera, #[trigger] component_at(objs, g, c))
                } else {
                    choose|g: int, c: int| valid_position(objs, g, c) && query_matches(ComponentQuery::EnabledCamera, #[trigger] component_at(objs, g, c))
                };
                assert(query_matches(ComponentQuery::AnyCamera, component_at(objs, g, c)));
            }
        },
        BuiltinGameObjectKind::Sun => {
            assert(any_match(objs, ComponentQuery::AnySun) <==> exists|g: int, c: int|
                valid_position(objs, g, c) && builtin_matches(kind, #[trigger] component_at(objs, g, c)));
            if any_match(objs, ComponentQuery::EnabledSun) {
                let (g, c) = choose|g: int, c: int| valid_position(objs, g, c) && query_matches(ComponentQuery::EnabledSun, #[trigger] component_at(objs, g, c));
                assert(query_matches(ComponentQuery::AnySun, component_at(objs, g, c)));
            }
        },
        BuiltinGameObjectKind::LocalLights => {
            assert(any_match(objs, ComponentQuery::AnyLocalLights) <==> exists|g: int, c: int|
                valid_position(objs, g, c) && builtin_matches(kind, #[trigger] component_at(objs, g, c)));
            if any_match(objs, ComponentQuery::EnabledLocalLights) {
                let (g, c) = choose|g: int, c: int| valid_position(objs, g, c) && query_matches(ComponentQuery::EnabledLocalLights, #[trigger] component_at(objs, g, c));
                assert(query_matches(ComponentQuery::AnyLocalLights, component_at(objs, g, c)));
            }
        },
    }
}

pub open spec fn usize_pair(p: Option<(usize, usize)>) -> Option<(int, int)> {
    match p {
        Some((g, c)) => Some((g as int, c as int)),
        None => None,
    }
}

fn query_component<D: SceneData>(q: ComponentQuery, c: &SceneComponent<D>) -> (r: bool)
    ensures
        r == query_matches(q, *c),
{
    match q {
        ComponentQuery::EnabledPrimaryCamera => match c {
            SceneComponent::Camera(cam) => cam.enabled && cam.primary,
            _ => false,
        },
        ComponentQuery::EnabledCamera => match c {
            SceneComponent::Camera(cam) => cam.enabled,
            _ => false,
        },
        ComponentQuery::AnyCamera => match c {
            SceneComponent::Camera(_) => true,
            _ => false,
        },
        ComponentQuery::EnabledSun => match c {
            SceneComponent::Sun(sun) => sun.enabled,
            _ => false,
        },
        ComponentQuery::AnySun => match c {
            SceneComponent::Sun(_) => true,
            _ => false,
        },
        ComponentQuery::EnabledLocalLights => match c {
            SceneComponent::LocalLights(l) => l.enabled,
            _ => false,
        },
        ComponentQuery::AnyLocalLights => match c {
            SceneComponent::LocalLights(_) => true,
            _ => false,
        },
    }
}

/// The id that `allocate_game_object_id` hands out.
pub open spec fn allocated_id(next: u64) -> u64 {
    if next < 1 {
        1
    } else {
        next
    }
}

/// The counter after handing out `allocated_id(next)`.
pub open spec fn next_after(next: u64) -> u64 {
    if allocated_id(next) == u64::MAX {
        u64::MAX
    } else {
        (allocated_id(next) + 1) as u64
    }
}

// ----- how operations change the list of objects -----

/// `a` and `b` agree on everything but their components.
pub open spec fn same_but_components<D: SceneData>(a: GameObject<D>, b: GameObject<D>) -> bool {
    &&& a.id == b.id
    &&& a.name == b.name
    &&& a.enabled == b.enabled
    &&& a.builtin == b.builtin
    &&& a.parent == b.parent
    &&& a.transform == b.transform
}

/// `a` and `b` agree on everything but their builtin marker.
pub open spec fn same_but_builtin<D: SceneData>(a: GameObject<D>, b: GameObject<D>) -> bool {
    &&& a.id == b.id
    &&& a.name == b.name
    &&& a.enabled == b.enabled
    &&& a.parent == b.parent
    &&& a.transform == b.transform
    &&& a.components == b.components
}

/// `a` and `b` agree on everything but their builtin marker and name.
pub open spec fn same_but_marking<D: SceneData>(a: GameObject<D>, b: GameObject<D>) -> bool {
    &&& a.id == b.id
    &&& a.enabled == b.enabled
    &&& a.parent == b.parent
    &&& a.transform == b.transform
    &&& a.components == b.components
}

/// `new` is `old` with `comp` added to the first object with id `id` (unchanged
/// when there is none).
pub open spec fn component_added<D: SceneData>(
    old: Seq<GameObject<D>>,
    new: Seq<GameObject<D>>,
    id: GameObjectId,
    comp: SceneComponent<D>,
) -> bool {
    match find_index(old, id) {
        Some(i) => {
            &&& new.len() == old.len()
            &&& forall|j: int| 0 <= j < old.len() && j != i ==> #[trigger] new[j] == old[j]
            &&& same_but_components(new[i], old[i])
            &&& new[i].components@ == old[i].components@.push(comp)
        },
        None => new == old,
    }
}

/// `new` is `old` with one fresh object appended, as `create_game_object`
/// builds it.
pub open spec fn object_appended<D: SceneData>(
    old: Seq<GameObject<D>>,
    new: Seq<GameObject<D>>,
    id: GameObjectId,
    name: Seq<char>,
    transform: D::Transform,
) -> bool {
    &&& new.len() == old.len() + 1
    &&& new.drop_last() == old
    &&& new.last().id == id
    &&& new.last().name@ == object_name(id, name)
    &&& new.last().enabled
    &&& new.last().builtin is None
    &&& new.last().parent is None
    &&& new.last().transform == transform
    &&& new.last().components@.len() == 0
}

/// No two objects share an id.
pub open spec fn ids_unique<D: SceneData>(objs: Seq<GameObject<D>>) -> bool {
    forall|i: int, j: int| 0 <= i < objs.len() && 0 <= j < objs.len() && i != j ==> (#[trigger] objs[i]).id != (#[trigger] objs[j]).id
}

/// Every id is below the counter, so that the counter hands out fresh ids.
pub open spec fn ids_below<D: SceneData>(objs: Seq<GameObject<D>>, next: u64) -> bool {
    forall|i: int| 0 <= i < objs.len() ==> (#[trigger] objs[i]).id.0 < next
}

/// Some component of the scene is of the kind that `kind` stands for.
pub open spec fn has_kind<D: SceneData>(objs: Seq<GameObject<D>>, kind: BuiltinGameObjectKind) -> bool {
    exists|g: int, c: int| valid_position(objs, g, c) && builtin_matches(kind, #[trigger] component_at(objs, g, c))
}

/// Same number of objects, with the same components at each position.
pub open spec fn same_components<D: SceneData>(a: Seq<GameObject<D>>, b: Seq<GameObject<D>>) -> bool {
    a.len() == b.len() && forall|i: int| 0 <= i < a.len() ==> (#[trigger] a[i]).components@ == b[i].components@
}

/// `b` starts with the objects of `a`, with the same components, and may have more.
pub open spec fn extends_components<D: SceneData>(a: Seq<GameObject<D>>, b: Seq<GameObject<D>>) -> bool {
    a.len() <= b.len() && forall|i: int| 0 <= i < a.len() ==> (#[trigger] a[i]).components@ == b[i].components@
}

/// The singleton that object `i` stands for: later roles take precedence when
/// one object plays several.
pub open spec fn expected_builtin<D: SceneData>(objs: Seq<GameObject<D>>, i: int) -> Option<BuiltinGameObjectKind> {
    if local_lights_role(objs) matches Some(p) && p.0 == i {
        Some(BuiltinGameObjectKind::LocalLights)
    } else if sun_role(objs) matches Some(p) && p.0 == i {
        Some(BuiltinGameObjectKind::Sun)
    } else if camera_role(objs) matches Some(p) && p.0 == i {
        Some(BuiltinGameObjectKind::MainCamera)
    } else {
        None
    }
}

/// The values a new scene and its editor singletons start from: the
/// parameters of the role components, the transforms of the created
/// singletons (the main camera's, and that of the sun and the local lights),
/// and the render settings.
pub struct SceneDefaults<D: SceneData> {
    pub camera: D::CameraParams,
    pub sun: D::SunParams,
    pub local_lights: D::LocalLightsParams,
    pub camera_transform: D::Transform,
    pub light_transform: D::Transform,
    pub render_settings: D::RenderSettings,
}

/// The defaults that `D` provides.
fn scene_defaults<D: SceneData>() -> SceneDefaults<D> {
    SceneDefaults {
        camera: D::default_camera_params(),
        sun: D::default_sun_params(),
        local_lights: D::default_local_lights_params(),
        camera_transform: D::main_camera_transform(),
        light_transform: D::identity_transform(),
        render_settings: D::default_render_settings(),
    }
}

/// Object `o` was created for its role from the defaults `d`: one component,
/// whose parameters are the defaults of its kind, and the transform of its role.
pub open spec fn made_with_defaults<D: SceneData>(o: GameObject<D>, d: SceneDefaults<D>) -> bool {
    &&& o.components@.len() == 1
    &&& match o.components@[0] {
        SceneComponent::Camera(cam) => cam.params == d.camera && o.transform == d.camera_transform,
        SceneComponent::Sun(sun) => sun.params == d.sun && o.transform == d.light_transform,
        SceneComponent::LocalLights(l) => l.params == d.local_lights && o.transform == d.light_transform,
        SceneComponent::MeshRenderer(_) => false,
    }
}

/// The component a freshly created singleton of `kind` carries: an enabled
/// (primary) camera, an enabled sun, or enabled local lights with none placed.
pub open spec fn default_role_component<D: SceneData>(kind: BuiltinGameObjectKind, c: SceneComponent<D>) -> bool {
    match kind {
        BuiltinGameObjectKind::MainCamera => c matches SceneComponent::Camera(cam) && cam.enabled && cam.primary,
        BuiltinGameObjectKind::Sun => c matches SceneComponent::Sun(sun) && sun.enabled,
        BuiltinGameObjectKind::LocalLights => c matches SceneComponent::LocalLights(l) && l.enabled && l.count == 0,
    }
}

/// Object `j` after the objects `a` in `b` is a new singleton of `kind` with
/// id `id`: one default component of that kind.
pub open spec fn singleton_appended<D: SceneData>(
    a: Seq<GameObject<D>>,
    b: Seq<GameObject<D>>,
    j: int,
    kind: BuiltinGameObjectKind,
    id: u64,
) -> bool {
    &&& a.len() + j < b.len()
    &&& b[a.len() + j].id.0 == id
    &&& b[a.len() + j].components@.len() == 1
    &&& default_role_component(kind, b[a.len() + j].components@[0])
}

/// The roles that have no component in `objs`, in the order they are
/// restored: main camera, sun, local lights.
pub open spec fn missing_roles<D: SceneData>(objs: Seq<GameObject<D>>) -> Seq<BuiltinGameObjectKind> {
    let c: Seq<BuiltinGameObjectKind> = if has_kind(objs, BuiltinGameObjectKind::MainCamera) {
        Seq::empty()
    } else {
        seq![BuiltinGameObjectKind::MainCamera]
    };
    let s = if has_kind(objs, BuiltinGameObjectKind::Sun) {
        c
    } else {
        c.push(BuiltinGameObjectKind::Sun)
    };
    if has_kind(objs, BuiltinGameObjectKind::LocalLights) {
        s
    } else {
        s.push(BuiltinGameObjectKind::LocalLights)
    }
}

/// What restoring one role does, on objects with fresh ids: nothing when the
/// role is played; otherwise one new singleton of that kind is appended and
/// the counter moves past its id.
pub open spec fn role_stage<D: SceneData>(
    a: Seq<GameObject<D>>,
    na: u64,
    b: Seq<GameObject<D>>,
    nb: u64,
    kind: BuiltinGameObjectKind,
) -> bool {
    &&& extends_components(a, b)
    &&& forall|i: int| 0 <= i < a.len() ==> same_but_components(#[trigger] b[i], a[i])
    &&& has_kind(a, kind) ==> b == a && nb == na
    &&& !has_kind(a, kind) ==> {
        &&& b.len() == a.len() + 1
        &&& singleton_appended(a, b, 0, kind, allocated_id(na))
        &&& nb == next_after(na)
    }
    &&& forall|g: int, c: int| a.len() <= g && valid_position(b, g, c) ==> builtin_matches(kind, #[trigger] component_at(b, g, c))
}

/// A role other than the one restored is played after the step only if it was
/// played before.
proof fn lemma_stage_other_kind<D: SceneData>(
    a: Seq<GameObject<D>>,
    na: u64,
    b: Seq<GameObject<D>>,
    nb: u64,
    kind: BuiltinGameObjectKind,
    k: BuiltinGameObjectKind,
)
    requires
        role_stage(a, na, b, nb, kind),
        k != kind,
    ensures
        has_kind(b, k) == has_kind(a, k),
{
    if has_kind(b, k) {
        let (g, c) = choose|g: int, c: int| valid_position(b, g, c) && builtin_matches(k, #[trigger] component_at(b, g, c));
        if g >= a.len() {
            assert(builtin_matches(kind, component_at(b, g, c)));
        } else {
            assert(a[g].components@ == b[g].components@);
            assert(valid_position(a, g, c) && component_at(a, g, c) == component_at(b, g, c));
        }
    }
    if has_kind(a, k) {
        let (g, c) = choose|g: int, c: int| valid_position(a, g, c) && builtin_matches(k, #[trigger] component_at(a, g, c));
        assert(a[g].components@ == b[g].components@);
        assert(valid_position(b, g, c) && component_at(a, g, c) == component_at(b, g, c));
    }
}

/// The three steps of restoring the singletons, composed: one new singleton
/// per missing role, in the order main camera, sun, local lights, with
/// consecutive ids from the counter.
proof fn lemma_three_stages<D: SceneData>(
    o: Seq<GameObject<D>>,
    n0: u64,
    o1: Seq<GameObject<D>>,
    n1: u64,
    o2: Seq<GameObject<D>>,
    n2: u64,
    o3: Seq<GameObject<D>>,
    n3: u64,
)
    requires
        n0 <= u64::MAX - 3,
        role_stage(o, n0, o1, n1, BuiltinGameObjectKind::MainCamera),
        role_stage(o1, n1, o2, n2, BuiltinGameObjectKind::Sun),
        role_stage(o2, n2, o3, n3, BuiltinGameObjectKind::LocalLights),
    ensures
        o3.len() == o.len() + missing_roles(o).len(),
        forall|j: int| 0 <= j < missing_roles(o).len() ==> #[trigger] singleton_appended(
            o,
            o3,
            j,
            missing_roles(o)[j],
            (allocated_id(n0) + j) as u64,
        ),
        n3 == (if missing_roles(o).len() == 0 {
            n0
        } else {
            (allocated_id(n0) + missing_roles(o).len()) as u64
        }),
        forall|i: int| 0 <= i < o.len() ==> (#[trigger] o3[i]).id == o[i].id,
{
    lemma_stage_other_kind(o, n0, o1, n1, BuiltinGameObjectKind::MainCamera, BuiltinGameObjectKind::Sun);
    lemma_stage_other_kind(o, n0, o1, n1, BuiltinGameObjectKind::MainCamera, BuiltinGameObjectKind::LocalLights);
    lemma_stage_other_kind(o1, n1, o2, n2, BuiltinGameObjectKind::Sun, BuiltinGameObjectKind::LocalLights);
    let m = missing_roles(o);
    let base = allocated_id(n0);
    // counters: each step hands out the next id
    let c1: nat = if has_kind(o, BuiltinGameObjectKind::MainCamera) { 0 } else { 1 };
    let c2: nat = c1 + if has_kind(o1, BuiltinGameObjectKind::Sun) { 0nat } else { 1nat };
    let c3: nat = c2 + if has_kind(o2, BuiltinGameObjectKind::LocalLights) { 0nat } else { 1nat };
    assert(n1 == (if c1 == 0 { n0 } else { (base + c1) as u64 }));
    assert(allocated_id(n1) == base + c1);
    assert(n2 == (if c2 == 0 { n0 } else { (base + c2) as u64 }));
    assert(allocated_id(n2) == base + c2);
    assert(n3 == (if c3 == 0 { n0 } else { (base + c3) as u64 }));
    assert(m.len() == c3);
    assert(o1.len() == o.len() + c1);
    assert(o2.len() == o.len() + c2);
    assert(o3.len() == o.len() + c3);
    assert forall|i: int| 0 <= i < o.len() implies (#[trigger] o3[i]).id == o[i].id by {
        assert(same_but_components(o1[i], o[i]));
        assert(same_but_components(o2[i], o1[i]));
        assert(same_but_components(o3[i], o2[i]));
    }
    assert forall|j: int| 0 <= j < m.len() implies #[trigger] singleton_appended(o, o3, j, m[j], (base + j) as u64) by {
        let idx = o.len() + j;
        if j < c1 {
            assert(m[j] == BuiltinGameObjectKind::MainCamera);
            assert(singleton_appended(o, o1, 0, BuiltinGameObjectKind::MainCamera, base));
            assert(same_but_components(o2[idx], o1[idx]));
            assert(same_but_components(o3[idx], o2[idx]));
            assert(o1[idx].components@ == o2[idx].components@);
            assert(o2[idx].components@ == o3[idx].components@);
        } else if j < c2 {
            assert(m[j] == BuiltinGameObjectKind::Sun);
            assert(singleton_appended(o1, o2, 0, BuiltinGameObjectKind::Sun, allocated_id(n1)));
            assert(same_but_components(o3[idx], o2[idx]));
            assert(o2[idx].components@ == o3[idx].components@);
        } else {
            assert(m[j] == BuiltinGameObjectKind::LocalLights);
            assert(singleton_appended(o2, o3, 0, BuiltinGameObjectKind::LocalLights, allocated_id(n2)));
        }
    }
}

/// A default component of one kind matches that kind only.
proof fn lemma_default_component_kind<D: SceneData>(kind: BuiltinGameObjectKind, k: BuiltinGameObjectKind, c: SceneComponent<D>)
    requires
        default_role_component(kind, c),
        builtin_matches(k, c),
    ensures
        k == kind,
{
}

/// The singletons appended for the missing roles are the objects that play
/// those roles, so marking gives them their role and its name.
proof fn lemma_appended_marked<D: SceneData>(o: Seq<GameObject<D>>, f: Seq<GameObject<D>>, base: u64)
    requires
        singletons_marked(f),
        forall|k: BuiltinGameObjectKind| #[trigger] role_of(f, k) is Some,
        extends_components(o, f),
        f.len() == o.len() + missing_roles(o).len(),
        forall|j: int| 0 <= j < missing_roles(o).len() ==> #[trigger] singleton_appended(
            o,
            f,
            j,
            missing_roles(o)[j],
            (base + j) as u64,
        ),
    ensures
        forall|j: int| 0 <= j < missing_roles(o).len() ==> {
            &&& (#[trigger] f[o.len() + j]).builtin == Some(missing_roles(o)[j])
            &&& f[o.len() + j].name@ == builtin_display_name(missing_roles(o)[j])
        },
{
    let m = missing_roles(o);
    assert(m.no_duplicates());
    assert forall|j: int| 0 <= j < m.len() implies {
        &&& (#[trigger] f[o.len() + j]).builtin == Some(m[j])
        &&& f[o.len() + j].name@ == builtin_display_name(m[j])
    } by {
        let idx = o.len() + j;
        let k = m[j];
        assert(singleton_appended(o, f, j, k, (base + j) as u64));
        // where each role is played: `k` at `idx`, every other role elsewhere
        assert forall|k2: BuiltinGameObjectKind| #[trigger] role_of(f, k2) matches Some(p) && (p.0 == idx <==> k2 == k) by {
            lemma_role_kind(f, k2);
            let p = role_of(f, k2)->0;
            if p.0 < o.len() {
                assert(o[p.0].components@ == f[p.0].components@);
                assert(valid_position(o, p.0, p.1) && component_at(o, p.0, p.1) == component_at(f, p.0, p.1));
                assert(has_kind(o, k2));
                assert(!m.contains(k2));
                if k2 == k {
                    assert(m.contains(k));
                }
                assert(p.0 != idx);
            } else {
                let j2 = p.0 - o.len();
                assert(singleton_appended(o, f, j2, m[j2], (base + j2) as u64));
                assert(p.1 == 0);
                lemma_default_component_kind(m[j2], k2, component_at(f, p.0, p.1));
                if k2 == k {
                    assert(j2 == j);
                } else {
                    assert(j2 != j);
                }
            }
        }
        assert(role_of(f, BuiltinGameObjectKind::LocalLights) is Some);
        assert(role_of(f, BuiltinGameObjectKind::Sun) is Some);
        assert(role_of(f, BuiltinGameObjectKind::MainCamera) is Some);
        assert(expected_builtin(f, idx) == Some(k));
        assert(f[idx].builtin == expected_builtin(f, idx));
    }
}

/// The roles in the order a new scene creates their singletons.
pub open spec fn role_order() -> Seq<BuiltinGameObjectKind> {
    seq![BuiltinGameObjectKind::MainCamera, BuiltinGameObjectKind::Sun, BuiltinGameObjectKind::LocalLights]
}

/// Object `o` is the `j`-th singleton of a new scene: id `j + 1`, marked
/// and named after its role, at the top level, enabled, with the one
/// default component of its role.
pub open spec fn is_default_singleton<D: SceneData>(o: GameObject<D>, j: int) -> bool {
    &&& o.id == GameObjectId((j + 1) as u64)
    &&& o.builtin == Some(role_order()[j])
    &&& o.name@ == builtin_display_name(role_order()[j])
    &&& o.parent is None
    &&& o.enabled
    &&& o.components@.len() == 1
    &&& default_role_component(role_order()[j], o.components@[0])
}

/// `b` is `a`, with a name of the same text.
pub open spec fn unchanged_by_marking<D: SceneData>(b: GameObject<D>, a: GameObject<D>) -> bool {
    &&& same_but_marking(b, a)
    &&& b.builtin == a.builtin
    &&& b.name@ == a.name@
}

/// Every role is played and the objects are marked and named after their
/// roles: restoring the singletons has nothing left to do.
pub open spec fn all_roles_marked<D: SceneData>(objs: Seq<GameObject<D>>) -> bool {
    &&& forall|k: BuiltinGameObjectKind| #[trigger] has_kind(objs, k)
    &&& singletons_marked(objs)
}

/// Marking again objects that are marked already changes neither markers
/// nor the text of names.
pub proof fn lemma_remarking_unchanged<D: SceneData>(o: Seq<GameObject<D>>, f: Seq<GameObject<D>>)
    requires
        all_roles_marked(o),
        singletons_marked(f),
        same_components(o, f),
        forall|i: int| 0 <= i < o.len() ==> same_but_marking(#[trigger] f[i], o[i]),
        forall|i: int| 0 <= i < o.len() && expected_builtin(f, i) is None ==> (#[trigger] f[i]).name == o[i].name,
    ensures
        forall|i: int| 0 <= i < o.len() ==> #[trigger] unchanged_by_marking(f[i], o[i]),
{
    lemma_roles_same(o, f);
    assert forall|i: int| 0 <= i < o.len() implies #[trigger] unchanged_by_marking(f[i], o[i]) by {
        assert(same_but_marking(f[i], o[i]));
        assert(expected_builtin(f, i) == expected_builtin(o, i));
        assert(f[i].builtin == expected_builtin(f, i));
        assert(o[i].builtin == expected_builtin(o, i));
        if expected_builtin(f, i) is None {
            assert(f[i].name == o[i].name);
        }
    }
}

/// The builtin markers and names agree with the roles.
pub open spec fn singletons_marked<D: SceneData>(objs: Seq<GameObject<D>>) -> bool {
    &&& forall|i: int| 0 <= i < objs.len() ==> (#[trigger] objs[i]).builtin == expected_builtin(objs, i)
    &&& forall|i: int| 0 <= i < objs.len() && expected_builtin(objs, i) is Some ==> (#[trigger] objs[i]).name@ == builtin_display_name(expected_builtin(objs, i)->0)
}

pub proof fn lemma_first_match_same<D: SceneData>(a: Seq<GameObject<D>>, b: Seq<GameObject<D>>, q: ComponentQuery)
    requires
        same_components(a, b),
    ensures
        first_match(a, q) == first_match(b, q),
{
    assert forall|g: int, c: int| is_first_match(a, q, g, c) <==> is_first_match(b, q, g, c) by {
        assert forall|g2: int, c2: int| valid_position(a, g2, c2) <==> valid_position(b, g2, c2) by {
            if 0 <= g2 < a.len() {
                assert(a[g2].components@ == b[g2].components@);
            }
        }
        assert forall|g2: int, c2: int| valid_position(a, g2, c2) implies component_at(a, g2, c2) == component_at(b, g2, c2) by {
            assert(a[g2].components@ == b[g2].components@);
        }
    }
    lemma_first_match_none(a, q);
    lemma_first_match_none(b, q);
    if first_match(a, q) is Some {
        let p = first_match(a, q)->0;
        lemma_first_match_unique(b, q, p.0, p.1);
    } else if first_match(b, q) is Some {
        let p = first_match(b, q)->0;
        lemma_first_match_unique(a, q, p.0, p.1);
    }
}

pub proof fn lemma_roles_same<D: SceneData>(a: Seq<GameObject<D>>, b: Seq<GameObject<D>>)
    requires
        same_components(a, b),
    ensures
        camera_role(a) == camera_role(b),
        sun_role(a) == sun_role(b),
        local_lights_role(a) == local_lights_role(b),
        forall|i: int| expected_builtin(a, i) == expected_builtin(b, i),
        forall|k: BuiltinGameObjectKind| #[trigger] role_of(a, k) == role_of(b, k),
        forall|k: BuiltinGameObjectKind| #[trigger] has_kind(a, k) == has_kind(b, k),
{
    lemma_first_match_same(a, b, ComponentQuery::EnabledPrimaryCamera);
    lemma_first_match_same(a, b, ComponentQuery::EnabledCamera);
    lemma_first_match_same(a, b, ComponentQuery::AnyCamera);
    lemma_first_match_same(a, b, ComponentQuery::EnabledSun);
    lemma_first_match_same(a, b, ComponentQuery::AnySun);
    lemma_first_match_same(a, b, ComponentQuery::EnabledLocalLights);
    lemma_first_match_same(a, b, ComponentQuery::AnyLocalLights);
    assert forall|k: BuiltinGameObjectKind| #[trigger] has_kind(a, k) == has_kind(b, k) by {
        lemma_role_kind(a, k);
        lemma_role_kind(b, k);
    }
}

/// Appending objects whose components `q` does not match keeps the first match.
pub proof fn lemma_first_match_extend<D: SceneData>(a: Seq<GameObject<D>>, b: Seq<GameObject<D>>, q: ComponentQuery)
    requires
        extends_components(a, b),
        forall|g: int, c: int| a.len() <= g && valid_position(b, g, c) ==> !query_matches(q, #[trigger] component_at(b, g, c)),
    ensures
        first_match(b, q) == first_match(a, q),
{
    lemma_first_match_none(a, q);
    lemma_first_match_none(b, q);
    if first_match(a, q) is Some {
        let p = first_match(a, q)->0;
        assert(a[p.0].components@ == b[p.0].components@);
        assert forall|g2: int, c2: int| valid_position(b, g2, c2) && before(g2, c2, p.0, p.1) implies !query_matches(q, #[trigger] component_at(b, g2, c2)) by {
            assert(a[g2].components@ == b[g2].components@);
            assert(valid_position(a, g2, c2));
            assert(component_at(a, g2, c2) == component_at(b, g2, c2));
        }
        lemma_first_match_unique(b, q, p.0, p.1);
    } else if first_match(b, q) is Some {
        let p = first_match(b, q)->0;
        assert(p.0 < a.len());
        assert(a[p.0].components@ == b[p.0].components@);
        assert(valid_position(a, p.0, p.1));
        assert(component_at(a, p.0, p.1) == component_at(b, p.0, p.1));
        assert(any_match(a, q));
    }
}

/// Adding a component keeps every kind that was present and adds the new one.
pub proof fn lemma_component_added_kinds<D: SceneData>(old: Seq<GameObject<D>>, new: Seq<GameObject<D>>, id: GameObjectId, comp: SceneComponent<D>)
    requires
        component_added(old, new, id, comp),
        has_id(old, id),
    ensures
        forall|k: BuiltinGameObjectKind| #[trigger] has_kind(old, k) ==> has_kind(new, k),
        forall|k: BuiltinGameObjectKind| builtin_matches(k, comp) ==> #[trigger] has_kind(new, k),
        extends_components(old, new) || (find_index(old, id) matches Some(i) && new[i].components@ == old[i].components@.push(comp)),
{
    lemma_find_index(old, id);
    let i = find_index(old, id)->0;
    assert forall|k: BuiltinGameObjectKind| #[trigger] has_kind(old, k) implies has_kind(new, k) by {
        let (g, c) = choose|g: int, c: int| valid_position(old, g, c) && builtin_matches(k, #[trigger] component_at(old, g, c));
        if g == i {
            assert(new[g].components@[c] == old[g].components@[c]);
        } else {
            assert(new[g] == old[g]);
        }
        assert(valid_position(new, g, c));
        assert(component_at(new, g, c) == component_at(old, g, c));
    }
    assert forall|k: BuiltinGameObjectKind| builtin_matches(k, comp) implies #[trigger] has_kind(new, k) by {
        let c = old[i].components@.len() as int;
        assert(valid_position(new, i, c));
        assert(component_at(new, i, c) == comp);
    }
}

pub proof fn lemma_object_appended_kinds<D: SceneData>(old: Seq<GameObject<D>>, new: Seq<GameObject<D>>, id: GameObjectId, name: Seq<char>, t: D::Transform)
    requires
        object_appended(old, new, id, name, t),
    ensures
        forall|k: BuiltinGameObjectKind| #[trigger] has_kind(old, k) == has_kind(new, k),
        extends_components(old, new),
        has_id(new, id),
{
    assert forall|i: int| 0 <= i < old.len() implies (#[trigger] old[i]).components@ == new[i].components@ by {
        assert(new.drop_last()[i] == new[i]);
    }
    assert forall|k: BuiltinGameObjectKind| #[trigger] has_kind(old, k) == has_kind(new, k) by {
        if has_kind(old, k) {
            let (g, c) = choose|g: int, c: int| valid_position(old, g, c) && builtin_matches(k, #[trigger] component_at(old, g, c));
            assert(new.drop_last()[g] == new[g]);
            assert(valid_position(new, g, c));
            assert(component_at(new, g, c) == component_at(old, g, c));
        }
        if has_kind(new, k) {
            let (g, c) = choose|g: int, c: int| valid_position(new, g, c) && builtin_matches(k, #[trigger] component_at(new, g, c));
            assert(g < old.len());
            assert(new.drop_last()[g] == new[g]);
            assert(valid_position(old, g, c));
            assert(component_at(new, g, c) == component_at(old, g, c));
        }
    }
    assert(new[new.len() - 1].id == id);
}

pub open spec fn outside_pred<D: SceneData>(objs: Seq<GameObject<D>>, root: GameObjectId) -> spec_fn(GameObject<D>) -> bool {
    |o: GameObject<D>| !in_subtree(objs, root, o.id)
}

pub open spec fn inside_pred<D: SceneData>(objs: Seq<GameObject<D>>, root: GameObjectId) -> spec_fn(GameObject<D>) -> bool {
    |o: GameObject<D>| in_subtree(objs, root, o.id)
}

/// Objects outside the subtree under `root`, in their order.
pub open spec fn outside_subtree<D: SceneData>(objs: Seq<GameObject<D>>, root: GameObjectId) -> Seq<GameObject<D>> {
    objs.filter(outside_pred(objs, root))
}

/// Objects of the subtree under `root`, in their order.
pub open spec fn inside_subtree<D: SceneData>(objs: Seq<GameObject<D>>, root: GameObjectId) -> Seq<GameObject<D>> {
    objs.filter(inside_pred(objs, root))
}

/// Where a moved subtree goes among the remaining objects `rem`: right after
/// the last object (before position `j`) that is the new parent or lies below
/// it; at the end when there is none.
pub open spec fn attach_index_from<D: SceneData>(rem: Seq<GameObject<D>>, p: GameObjectId, j: int) -> int
    decreases j,
{
    if j <= 0 {
        rem.len() as int
    } else if rem[j - 1].id == p || is_descendant_of(rem, rem[j - 1].id, p) {
        j
    } else {
        attach_index_from(rem, p, j - 1)
    }
}

pub open spec fn attach_index<D: SceneData>(rem: Seq<GameObject<D>>, new_parent: Option<GameObjectId>) -> int {
    match new_parent {
        None => rem.len() as int,
        Some(p) => attach_index_from(rem, p, rem.len() as int),
    }
}

/// `b` is `a` with the parent of the first object with id `id` set to `parent`.
pub open spec fn parent_set<D: SceneData>(a: Seq<GameObject<D>>, b: Seq<GameObject<D>>, id: GameObjectId, parent: Option<GameObjectId>) -> bool {
    match find_index(a, id) {
        Some(i) => b == a.update(i, GameObject { parent: parent, ..a[i] }),
        None => b == a,
    }
}

/// The objects after moving the subtree under `child` below `new_parent`:
/// the subtree, with the child's parent changed, goes after the new parent and
/// its descendants (or to the end).
pub open spec fn reparented<D: SceneData>(
    old: Seq<GameObject<D>>,
    new: Seq<GameObject<D>>,
    child: GameObjectId,
    new_parent: Option<GameObjectId>,
) -> bool {
    let rem = outside_subtree(old, child);
    let k = attach_index(rem, new_parent);
    exists|moved: Seq<GameObject<D>>| #[trigger] parent_set(inside_subtree(old, child), moved, child, new_parent)
        && new == rem.take(k) + moved + rem.skip(k)
}

pub proof fn lemma_attach_index<D: SceneData>(rem: Seq<GameObject<D>>, p: GameObjectId, j: int)
    requires
        0 <= j <= rem.len(),
    ensures
        0 <= attach_index_from(rem, p, j) <= rem.len(),
    decreases j,
{
    if j > 0 {
        lemma_attach_index(rem, p, j - 1);
    }
}

/// What restoring the editor singletons does to the objects `a` (with counter
/// `na`), giving `b` (with counter `nb`): every role is played, exactly the
/// role objects are marked and named after their roles, the old objects keep
/// their ids, flags, parents and transforms, new objects are top-level, and
/// with fresh ids the old components and roles stay where they were.
pub open spec fn singletons_ensured<D: SceneData>(a: Seq<GameObject<D>>, na: u64, b: Seq<GameObject<D>>, nb: u64) -> bool {
    &&& forall|k: BuiltinGameObjectKind| #[trigger] role_of(b, k) is Some
    &&& singletons_marked(b)
    &&& a.len() <= b.len() <= a.len() + 3
    &&& forall|i: int| 0 <= i < a.len() ==> {
        let x = #[trigger] b[i];
        let y = a[i];
        &&& x.id == y.id
        &&& x.enabled == y.enabled
        &&& x.parent == y.parent
        &&& x.transform == y.transform
        &&& expected_builtin(b, i) is None ==> x.name == y.name
    }
    &&& forall|i: int| a.len() <= i < b.len() ==> {
        &&& (#[trigger] b[i]).parent is None
        &&& b[i].enabled
    }
    &&& nb >= na
    &&& ids_below(a, na) && na <= u64::MAX - 3 ==> {
        &&& ids_below(b, nb)
        &&& (ids_unique(a) ==> ids_unique(b))
        &&& forall|i: int| a.len() <= i < b.len() ==> (#[trigger] b[i]).id.0 >= na
        &&& b.len() == a.len() + missing_roles(a).len()
        &&& forall|j: int| 0 <= j < missing_roles(a).len() ==> #[trigger] singleton_appended(
            a,
            b,
            j,
            missing_roles(a)[j],
            (allocated_id(na) + j) as u64,
        )
        &&& forall|j: int| 0 <= j < missing_roles(a).len() ==> {
            &&& (#[trigger] b[a.len() + j]).builtin == Some(missing_roles(a)[j])
            &&& b[a.len() + j].name@ == builtin_display_name(missing_roles(a)[j])
        }
        &&& nb == (if missing_roles(a).len() == 0 {
            na
        } else {
            (allocated_id(na) + missing_roles(a).len()) as u64
        })
        &&& extends_components(a, b)
        &&& forall|k: BuiltinGameObjectKind| #[trigger] role_of(a, k) is Some ==> role_of(b, k) == role_of(a, k)
    }
}

// ----- normalizing a loaded scene -----

pub open spec fn sat_inc(x: u64) -> u64 {
    if x == u64::MAX {
        u64::MAX
    } else {
        (x + 1) as u64
    }
}

pub open spec fn max_u64(a: u64, b: u64) -> u64 {
    if a >= b {
        a
    } else {
        b
    }
}

/// Whether the id of an object loaded after the ids `seen` must be replaced:
/// zero, or already taken.
pub open spec fn needs_new_id(seen: Seq<GameObjectId>, id: GameObjectId) -> bool {
    id.0 == 0 || seen.contains(id)
}

/// The ids that normalizing gives the first `n` objects, and the counter after them.
pub open spec fn renumbered<D: SceneData>(objs: Seq<GameObject<D>>, next: u64, n: nat) -> (Seq<GameObjectId>, u64)
    decreases n,
{
    if n == 0 {
        (Seq::empty(), max_u64(next, 1))
    } else {
        let (ids, nx) = renumbered(objs, next, (n - 1) as nat);
        let id = objs[n - 1].id;
        let (nid, nx2) = if needs_new_id(ids, id) {
            (GameObjectId(nx), sat_inc(nx))
        } else {
            (id, nx)
        };
        (ids.push(nid), max_u64(nx2, sat_inc(nid.0)))
    }
}

/// The parent an object keeps after normalizing: dropped when it names no
/// object, the object itself, or when the object is a builtin.
pub open spec fn kept_parent<D: SceneData>(o: GameObject<D>, id: GameObjectId, ids: Seq<GameObjectId>) -> Option<GameObjectId> {
    match o.parent {
        Some(p) => if !ids.contains(p) || p == id || o.builtin is Some {
            None
        } else {
            Some(p)
        },
        None => None,
    }
}

/// `b` (with counter `nb`) is `a` (with counter `na`) after renumbering ids,
/// sanitizing names and dropping dangling parents.
pub open spec fn ids_normalized<D: SceneData>(a: Seq<GameObject<D>>, na: u64, b: Seq<GameObject<D>>, nb: u64) -> bool {
    let (ids, nx) = renumbered(a, na, a.len());
    &&& b.len() == a.len()
    &&& nb == max_u64(nx, 1)
    &&& forall|i: int| 0 <= i < a.len() ==> {
        let x = #[trigger] b[i];
        let y = a[i];
        &&& x.id == ids[i]
        &&& x.name@ == object_name(ids[i], y.name@)
        &&& x.enabled == y.enabled
        &&& x.builtin == y.builtin
        &&& x.transform == y.transform
        &&& x.components == y.components
        &&& x.parent == kept_parent(y, ids[i], ids)
    }
}

pub proof fn lemma_renumbered_len<D: SceneData>(objs: Seq<GameObject<D>>, next: u64, n: nat)
    ensures
        renumbered(objs, next, n).0.len() == n,
        renumbered(objs, next, n).1 >= 1,
    decreases n,
{
    if n > 0 {
        lemma_renumbered_len(objs, next, (n - 1) as nat);
    }
}

pub proof fn lemma_renumbered_prefix<D: SceneData>(objs: Seq<GameObject<D>>, next: u64, n: nat, m: nat)
    requires
        m <= n,
    ensures
        renumbered(objs, next, n).0.take(m as int) == renumbered(objs, next, m).0,
    decreases n,
{
    lemma_renumbered_len(objs, next, n);
    lemma_renumbered_len(objs, next, m);
    if m < n {
        lemma_renumbered_prefix(objs, next, (n - 1) as nat, m);
        lemma_renumbered_len(objs, next, (n - 1) as nat);
        let prev = renumbered(objs, next, (n - 1) as nat).0;
        let cur = renumbered(objs, next, n).0;
        assert(cur.take(n - 1) =~= prev);
        assert(cur.take(m as int) =~= prev.take(m as int));
    } else {
        assert(renumbered(objs, next, n).0.take(m as int) =~= renumbered(objs, next, n).0);
    }
}

// ----- unique names -----

/// Some object is named `name`.
pub open spec fn name_taken<D: SceneData>(objs: Seq<GameObject<D>>, name: Seq<char>) -> bool {
    exists|i: int| 0 <= i < objs.len() && (#[trigger] objs[i]).name@ == name
}

/// The `suffix`-th alternative to `base`: `base`, a space, and the number.
pub open spec fn numbered_name(base: Seq<char>, suffix: nat) -> Seq<char> {
    base + " "@ + decimal(suffix)
}

/// A name not taken by any object: `base` itself when free, else `base`
/// followed by the smallest free number from 1 on.
pub open spec fn unique_name_of<D: SceneData>(objs: Seq<GameObject<D>>, base: Seq<char>, r: Seq<char>) -> bool {
    &&& !name_taken(objs, r)
    &&& if !name_taken(objs, base) {
        r == base
    } else {
        exists|s: nat| s >= 1 && r == numbered_name(base, s) && forall|t: nat| 1 <= t < s ==> name_taken(objs, #[trigger] numbered_name(base, t))
    }
}

pub proof fn lemma_numbered_injective(base: Seq<char>, a: nat, b: nat)
    requires
        numbered_name(base, a) == numbered_name(base, b),
    ensures
        a == b,
{
    reveal_strlit(" ");
    let x = numbered_name(base, a);
    let y = numbered_name(base, b);
    assert(x.skip(base.len() + 1int) =~= decimal(a));
    assert(y.skip(base.len() + 1int) =~= decimal(b));
    crate::text::lemma_decimal_injective(a, b);
}

/// `b` is `a` with the role object of `kind` taking the transform and role
/// component of the role object of `kind` in `other`, when both exist.
pub open spec fn role_copied<D: SceneData>(a: Seq<GameObject<D>>, b: Seq<GameObject<D>>, other: Seq<GameObject<D>>, kind: BuiltinGameObjectKind) -> bool {
    match (role_of(a, kind), role_of(other, kind)) {
        (Some(p), Some(q)) => {
            &&& b.len() == a.len()
            &&& forall|j: int| 0 <= j < a.len() && j != p.0 ==> #[trigger] b[j] == a[j]
            &&& b[p.0].id == a[p.0].id
            &&& b[p.0].name == a[p.0].name
            &&& b[p.0].enabled == a[p.0].enabled
            &&& b[p.0].builtin == a[p.0].builtin
            &&& b[p.0].parent == a[p.0].parent
            &&& b[p.0].transform == other[q.0].transform
            &&& b[p.0].components@ == a[p.0].components@.update(p.1, component_at(other, q.0, q.1))
        },
        _ => b == a,
    }
}

pub proof fn lemma_create_keeps_prefix<D: SceneData>(
    old: Seq<GameObject<D>>,
    mid: Seq<GameObject<D>>,
    new: Seq<GameObject<D>>,
    id: GameObjectId,
    name: Seq<char>,
    t: D::Transform,
    comp: SceneComponent<D>,
)
    requires
        object_appended(old, mid, id, name, t),
        component_added(mid, new, id, comp),
    ensures
        new.len() == old.len() + 1,
        forall|i: int| 0 <= i < old.len() ==> same_but_components(#[trigger] new[i], old[i]),
        new.last().id == id,
        new.last().parent is None,
        new.last().builtin is None,
        new.last().enabled,
{
    lemma_find_index(mid, id);
    let k = find_index(mid, id)->0;
    assert forall|i: int| 0 <= i < old.len() implies same_but_components(#[trigger] new[i], old[i]) by {
        assert(mid.drop_last()[i] == mid[i]);
        if i != k {
            assert(new[i] == mid[i]);
        }
    }
    if k != mid.len() - 1 {
        assert(new[mid.len() - 1] == mid[mid.len() - 1]);
    }
}

pub open spec fn query_kind(q: ComponentQuery) -> BuiltinGameObjectKind {
    match q {
        ComponentQuery::EnabledPrimaryCamera => BuiltinGameObjectKind::MainCamera,
        ComponentQuery::EnabledCamera => BuiltinGameObjectKind::MainCamera,
        ComponentQuery::AnyCamera => BuiltinGameObjectKind::MainCamera,
        ComponentQuery::EnabledSun => BuiltinGameObjectKind::Sun,
        ComponentQuery::AnySun => BuiltinGameObjectKind::Sun,
        ComponentQuery::EnabledLocalLights => BuiltinGameObjectKind::LocalLights,
        ComponentQuery::AnyLocalLights => BuiltinGameObjectKind::LocalLights,
    }
}

/// Appending objects that hold no component of kind `k` keeps the role of `k`.
pub proof fn lemma_role_extend<D: SceneData>(a: Seq<GameObject<D>>, b: Seq<GameObject<D>>, k: BuiltinGameObjectKind)
    requires
        extends_components(a, b),
        forall|g: int, c: int| a.len() <= g && valid_position(b, g, c) ==> !builtin_matches(k, #[trigger] component_at(b, g, c)),
    ensures
        role_of(b, k) == role_of(a, k),
{
    let qs = seq![ComponentQuery::EnabledPrimaryCamera, ComponentQuery::EnabledCamera, ComponentQuery::AnyCamera,
        ComponentQuery::EnabledSun, ComponentQuery::AnySun, ComponentQuery::EnabledLocalLights, ComponentQuery::AnyLocalLights];
    assert forall|i: int| 0 <= i < 7 && query_kind(#[trigger] qs[i]) == k implies first_match(b, qs[i]) == first_match(a, qs[i]) by {
        let q = qs[i];
        assert forall|g: int, c: int| a.len() <= g && valid_position(b, g, c) implies !query_matches(q, #[trigger] component_at(b, g, c)) by {
            assert(!builtin_matches(k, component_at(b, g, c)));
        }
        lemma_first_match_extend(a, b, q);
    }
    match k {
        BuiltinGameObjectKind::MainCamera => {
            assert(query_kind(qs[0]) == k && query_kind(qs[1]) == k && query_kind(qs[2]) == k);
        },
        BuiltinGameObjectKind::Sun => {
            assert(query_kind(qs[3]) == k && query_kind(qs[4]) == k);
        },
        BuiltinGameObjectKind::LocalLights => {
            assert(query_kind(qs[5]) == k && query_kind(qs[6]) == k);
        },
    }
}

impl<D: SceneData> SceneState<D> {
    /// The first component in scene order for which `predicate` holds.
    pub fn first_component_index<F: Fn(&SceneComponent<D>) -> bool>(&self, predicate: F) -> (r: Option<(usize, usize)>)
        requires
            forall|c: &SceneComponent<D>| predicate.requires((c,)),
        ensures
            match r {
                Some((g, c)) => valid_position(self.game_objects@, g as int, c as int)
                    && predicate.ensures((&component_at(self.game_objects@, g as int, c as int),), true)
                    && forall|g2: int, c2: int| valid_position(self.game_objects@, g2, c2) && before(g2, c2, g as int, c as int)
                        ==> predicate.ensures((&#[trigger] component_at(self.game_objects@, g2, c2),), false),
                None => forall|g2: int, c2: int| valid_position(self.game_objects@, g2, c2)
                        ==> predicate.ensures((&#[trigger] component_at(self.game_objects@, g2, c2),), false),
            },
    {
        let n = self.game_objects.len();
        let mut g: usize = 0;
        while g < n
            invariant
                n == self.game_objects@.len(),
                g <= n,
                forall|c: &SceneComponent<D>| predicate.requires((c,)),
                forall|g2: int, c2: int| valid_position(self.game_objects@, g2, c2) && g2 < g
                    ==> predicate.ensures((&#[trigger] component_at(self.game_objects@, g2, c2),), false),
            decreases n - g,
        {
            let comps = &self.game_objects[g].components;
            let m = comps.len();
            let mut c: usize = 0;
            while c < m
                invariant
                    n == self.game_objects@.len(),
                    g < n,
                    comps == &self.game_objects@[g as int].components,
                    m == comps@.len(),
                    c <= m,
                    forall|c: &SceneComponent<D>| predicate.requires((c,)),
                    forall|g2: int, c2: int| valid_position(self.game_objects@, g2, c2) && before(g2, c2, g as int, c as int)
                        ==> predicate.ensures((&#[trigger] component_at(self.game_objects@, g2, c2),), false),
                decreases m - c,
            {
                let b = predicate(&comps[c]);
                if b {
                    return Some((g, c));
                }
                assert(predicate.ensures((&component_at(self.game_objects@, g as int, c as int),), false));
                assert forall|g2: int, c2: int| valid_position(self.game_objects@, g2, c2) && before(g2, c2, g as int, c + 1)
                    implies predicate.ensures((&#[trigger] component_at(self.game_objects@, g2, c2),), false) by {
                    if !before(g2, c2, g as int, c as int) {
                        assert(g2 == g && c2 == c);
                    }
                }
                c = c + 1;
            }
            assert forall|g2: int, c2: int| valid_position(self.game_objects@, g2, c2) && g2 < g + 1
                implies predicate.ensures((&#[trigger] component_at(self.game_objects@, g2, c2),), false) by {
                assert(before(g2, c2, g as int, c as int));
            }
            g = g + 1;
        }
        None
    }

    fn query_index(&self, q: ComponentQuery) -> (r: Option<(usize, usize)>)
        ensures
            usize_pair(r) == first_match(self.game_objects@, q),
    {
        let r = self.first_component_index(|c: &SceneComponent<D>| -> (b: bool) ensures b == query_matches(q, *c) { query_component(q, c) });
        proof {
            let objs = self.game_objects@;
            match r {
                Some((g, c)) => {
                    assert forall|g2: int, c2: int|
                        valid_position(objs, g2, c2) && before(g2, c2, g as int, c as int) implies !query_matches(
                            q,
                            #[trigger] component_at(objs, g2, c2),
                        ) by {
                        assert(component_at(objs, g2, c2) == component_at(objs, g2, c2));
                    }
                    lemma_first_match_unique(objs, q, g as int, c as int);
                },
                None => {
                    lemma_first_match_none(objs, q);
                    if any_match(objs, q) {
                        let (g, c) = choose|g: int, c: int| valid_position(objs, g, c) && query_matches(q, #[trigger] component_at(objs, g, c));
                        assert(!query_matches(q, component_at(objs, g, c)));
                    }
                },
            }
        }
        r
    }

    pub fn primary_camera_component_index(&self) -> (r: Option<(usize, usize)>)
        ensures
            usize_pair(r) == camera_role(self.game_objects@),
    {
        match self.query_index(ComponentQuery::EnabledPrimaryCamera) {
            Some(p) => Some(p),
            None => match self.query_index(ComponentQuery::EnabledCamera) {
                Some(p) => Some(p),
                None => self.query_index(ComponentQuery::AnyCamera),
            },
        }
    }

    pub fn sun_component_index(&self) -> (r: Option<(usize, usize)>)
        ensures
            usize_pair(r) == sun_role(self.game_objects@),
    {
        match self.query_index(ComponentQuery::EnabledSun) {
            Some(p) => Some(p),
            None => self.query_index(ComponentQuery::AnySun),
        }
    }

    pub fn local_lights_component_index(&self) -> (r: Option<(usize, usize)>)
        ensures
            usize_pair(r) == local_lights_role(self.game_objects@),
    {
        match self.query_index(ComponentQuery::EnabledLocalLights) {
            Some(p) => Some(p),
            None => self.query_index(ComponentQuery::AnyLocalLights),
        }
    }

    fn role_index(&self, kind: BuiltinGameObjectKind) -> (r: Option<(usize, usize)>)
        ensures
            usize_pair(r) == role_of(self.game_objects@, kind),
    {
        match kind {
            BuiltinGameObjectKind::MainCamera => self.primary_camera_component_index(),
            BuiltinGameObjectKind::Sun => self.sun_component_index(),
            BuiltinGameObjectKind::LocalLights => self.local_lights_component_index(),
        }
    }

    /// Index of the first object with id `id`.
    pub fn find_game_object_index(&self, id: GameObjectId) -> (r: Option<usize>)
        ensures
            match r {
                Some(i) => find_index(self.game_objects@, id) == Some(i as int),
                None => find_index(self.game_objects@, id) is None,
            },
    {
        let n = self.game_objects.len();
        let mut i: usize = 0;
        while i < n
            invariant
                n == self.game_objects@.len(),
                i <= n,
                find_index(self.game_objects@, id) == find_from(self.game_objects@, id, i as int),
            decreases n - i,
        {
            if self.game_objects[i].id == id {
                return Some(i);
            }
            i = i + 1;
        }
        None
    }

    pub fn find_game_object(&self, id: GameObjectId) -> (r: Option<&GameObject<D>>)
        ensures
            match find_index(self.game_objects@, id) {
                Some(i) => r == Some(&self.game_objects@[i]),
                None => r is None,
            },
    {
        proof {
            lemma_find_index(self.game_objects@, id);
        }
        match self.find_game_object_index(id) {
            Some(i) => Some(&self.game_objects[i]),
            None => None,
        }
    }

    pub fn find_game_object_mut(&mut self, id: GameObjectId) -> (r: Option<&mut GameObject<D>>)
        ensures
            match find_index(old(self).game_objects@, id) {
                Some(i) => r matches Some(x) && *x == old(self).game_objects@[i]
                    && final(self).game_objects@ == old(self).game_objects@.update(i, *final(x))
                    && final(self).next_game_object_id == old(self).next_game_object_id
                    && final(self).render_settings == old(self).render_settings
                    && final(self).ibl == old(self).ibl,
                None => r is None && *final(self) == *old(self),
            },
    {
        proof {
            lemma_find_index(self.game_objects@, id);
        }
        match self.find_game_object_index(id) {
            Some(i) => Some(&mut self.game_objects[i]),
            None => None,
        }
    }

    /// Hands out the next id: the counter (at least 1), and advances the counter
    /// (saturating at `u64::MAX`).
    pub fn allocate_game_object_id(&mut self) -> (r: GameObjectId)
        ensures
            r.0 == allocated_id(old(self).next_game_object_id),
            final(self).next_game_object_id == next_after(old(self).next_game_object_id),
            final(self).game_objects@ == old(self).game_objects@,
            final(self).render_settings == old(self).render_settings,
            final(self).ibl == old(self).ibl,
    {
        let id = if self.next_game_object_id < 1 {
            1
        } else {
            self.next_game_object_id
        };
        self.next_game_object_id = id.saturating_add(1);
        GameObjectId(id)
    }

    /// Appends a new object with a fresh id and the given (sanitized) name.
    pub fn create_game_object(&mut self, name: &str, transform: D::Transform) -> (r: GameObjectId)
        ensures
            r.0 == allocated_id(old(self).next_game_object_id),
            final(self).next_game_object_id == next_after(old(self).next_game_object_id),
            final(self).game_objects@.len() == old(self).game_objects@.len() + 1,
            final(self).game_objects@.drop_last() == old(self).game_objects@,
            ({
                let o = final(self).game_objects@.last();
                &&& o.id == r
                &&& o.name@ == object_name(r, name@)
                &&& o.enabled
                &&& o.builtin is None
                &&& o.parent is None
                &&& o.transform == transform
                &&& o.components@.len() == 0
            }),
            final(self).render_settings == old(self).render_settings,
            final(self).ibl == old(self).ibl,
    {
        let id = self.allocate_game_object_id();
        let obj = GameObject::new(id, name, transform);
        self.game_objects.push(obj);
        assert(self.game_objects@.drop_last() =~= old(self).game_objects@);
        id
    }

    /// Adds `component` to the first object with id `game_object_id`; false when
    /// there is no such object.
    pub fn add_component(&mut self, game_object_id: GameObjectId, component: SceneComponent<D>) -> (r: bool)
        ensures
            r == has_id(old(self).game_objects@, game_object_id),
            component_added(old(self).game_objects@, final(self).game_objects@, game_object_id, component),
            final(self).next_game_object_id == old(self).next_game_object_id,
            final(self).render_settings == old(self).render_settings,
            final(self).ibl == old(self).ibl,
    {
        proof {
            lemma_find_index(old(self).game_objects@, game_object_id);
        }
        match self.find_game_object_index(game_object_id) {
            Some(i) => {
                self.game_objects[i].components.push(component);
                true
            },
            None => false,
        }
    }

    /// Whether `ancestor` is reached from `descendant` by following parents.
    pub fn is_descendant_of_in(game_objects: &Vec<GameObject<D>>, descendant: GameObjectId, ancestor: GameObjectId) -> (r: bool)
        ensures
            r == is_descendant_of(game_objects@, descendant, ancestor),
    {
        let ghost objs = game_objects@;
        let mut current = Self::parent_in(game_objects, descendant);
        let mut visited: Vec<GameObjectId> = Vec::new();
        assert(ancestor_at(objs, descendant, 0) == Some(descendant));
        assert(ancestor_at(objs, descendant, 1) == parent_link(objs, descendant));
        loop
            invariant
                objs == game_objects@,
                current == ancestor_at(objs, descendant, (visited@.len() + 1) as nat),
                forall|j: int| 0 <= j < visited@.len() ==> Some(#[trigger] visited@[j]) == ancestor_at(objs, descendant, (j + 1) as nat),
                visited@.no_duplicates(),
                forall|j: int| 0 <= j < visited@.len() ==> #[trigger] visited@[j] != ancestor,
                forall|j: int| 0 <= j < visited@.len() ==> parent_ids(objs).contains(#[trigger] visited@[j]),
            decreases objs.len() - visited@.len(),
        {
            match current {
                None => {
                    proof {
                        assert forall|k: nat| k >= 1 implies #[trigger] ancestor_at(objs, descendant, k) != Some(ancestor) by {
                            let m = visited@.len();
                            if k <= m {
                                assert(Some(visited@[k - 1]) == ancestor_at(objs, descendant, k));
                            } else {
                                lemma_ancestor_none(objs, descendant, (m + 1) as nat, (k - m - 1) as nat);
                            }
                        }
                    }
                    return false;
                },
                Some(parent) => {
                    if parent == ancestor {
                        assert(ancestor_at(objs, descendant, (visited@.len() + 1) as nat) == Some(ancestor));
                        return true;
                    }
                    if contains_id(&visited, parent) {
                        proof {
                            let m = visited@.len();
                            let j = choose|j: int| 0 <= j < visited@.len() && visited@[j] == parent;
                            assert(Some(visited@[j]) == ancestor_at(objs, descendant, (j + 1) as nat));
                            assert forall|k: nat| k >= 1 implies #[trigger] ancestor_at(objs, descendant, k) != Some(ancestor) by {
                                if k <= m {
                                    assert(Some(visited@[k - 1]) == ancestor_at(objs, descendant, k));
                                } else {
                                    lemma_ancestor_cycle(objs, descendant, j as nat, m, k);
                                    let k2 = choose|k2: nat| j + 1 <= k2 <= m && #[trigger] ancestor_at(objs, descendant, k2) == ancestor_at(objs, descendant, k);
                                    assert(Some(visited@[k2 - 1]) == ancestor_at(objs, descendant, k2));
                                }
                            }
                        }
                        return false;
                    }
                    proof {
                        let m = visited@.len();
                        lemma_ancestor_in_parents(objs, descendant, (m + 1) as nat);
                        let i = choose|i: int| 0 <= i < objs.len() && (#[trigger] objs[i]).parent == ancestor_at(objs, descendant, (m + 1) as nat);
                        assert(parent_ids(objs)[i] == parent);
                        assert(parent_ids(objs).contains(parent));
                        let pushed = visited@.push(parent);
                        assert forall|j: int| 0 <= j < pushed.len() implies parent_ids(objs).contains(#[trigger] pushed[j]) by {
                            if j < m {
                                assert(pushed[j] == visited@[j]);
                            }
                        }
                        assert(pushed.no_duplicates()) by {
                            assert forall|a: int, b: int| 0 <= a < pushed.len() && 0 <= b < pushed.len() && a != b implies pushed[a] != pushed[b] by {
                                if a < m && b < m {
                                    assert(pushed[a] == visited@[a] && pushed[b] == visited@[b]);
                                } else if a < m {
                                    assert(pushed[a] == visited@[a]);
                                } else if b < m {
                                    assert(pushed[b] == visited@[b]);
                                }
                            }
                        }
                        lemma_distinct_bound(pushed, parent_ids(objs));
                    }
                    visited.push(parent);
                    current = Self::parent_in(game_objects, parent);
                    proof {
                        let m = visited@.len();
                        assert(ancestor_at(objs, descendant, (m + 1) as nat) == match ancestor_at(objs, descendant, m as nat) {
                            Some(y) => parent_link(objs, y),
                            None => None,
                        });
                    }
                },
            }
        }
    }

    /// The parent of the first object with id `id`.
    fn parent_in(game_objects: &Vec<GameObject<D>>, id: GameObjectId) -> (r: Option<GameObjectId>)
        ensures
            r == parent_link(game_objects@, id),
    {
        proof {
            lemma_find_index(game_objects@, id);
        }
        let n = game_objects.len();
        let mut i: usize = 0;
        while i < n
            invariant
                n == game_objects@.len(),
                i <= n,
                find_index(game_objects@, id) == find_from(game_objects@, id, i as int),
            decreases n - i,
        {
            if game_objects[i].id == id {
                return game_objects[i].parent;
            }
            i = i + 1;
        }
        None
    }

    /// Whether `child_id` may be moved under `new_parent` (`None`: to the top
    /// level): the child exists, its parent changes, builtins stay at the top
    /// level, and the new parent exists and is neither the child nor below it.
    pub fn can_reparent_game_object(&self, child_id: GameObjectId, new_parent: Option<GameObjectId>) -> (r: bool)
        ensures
            r == can_reparent(self.game_objects@, child_id, new_parent),
    {
        proof {
            lemma_find_index(self.game_objects@, child_id);
        }
        let child = match self.find_game_object(child_id) {
            Some(c) => c,
            None => return false,
        };
        if child.parent == new_parent {
            return false;
        }
        if child.is_builtin() && new_parent.is_some() {
            return false;
        }
        match new_parent {
            None => true,
            Some(p) => {
                proof {
                    lemma_find_index(self.game_objects@, p);
                }
                if p == child_id || self.find_game_object_index(p).is_none() {
                    return false;
                }
                !Self::is_descendant_of_in(&self.game_objects, p, child_id)
            },
        }
    }

    /// Appends to `subtree` every id of the subtree under `id` that it does not
    /// hold yet (depth first).
    pub fn collect_subtree_ids(&self, id: GameObjectId, subtree: &mut Vec<GameObjectId>)
        requires
            old(subtree)@.no_duplicates(),
            forall|k: int| 0 <= k < old(subtree)@.len() ==> has_id(self.game_objects@, #[trigger] old(subtree)@[k]),
        ensures
            final(subtree)@.len() >= old(subtree)@.len(),
            final(subtree)@.subrange(0, old(subtree)@.len() as int) == old(subtree)@,
            final(subtree)@.no_duplicates(),
            forall|k: int| 0 <= k < final(subtree)@.len() ==> has_id(self.game_objects@, #[trigger] final(subtree)@[k]),
            forall|k: int| old(subtree)@.len() <= k < final(subtree)@.len() ==> in_subtree(self.game_objects@, id, #[trigger] final(subtree)@[k]),
            forall|k: int, c: GameObjectId| old(subtree)@.len() <= k < final(subtree)@.len() && #[trigger] is_child(self.game_objects@, final(subtree)@[k], c)
                ==> final(subtree)@.contains(c),
            has_id(self.game_objects@, id) ==> final(subtree)@.contains(id),
            !has_id(self.game_objects@, id) || old(subtree)@.contains(id) ==> final(subtree)@ == old(subtree)@,
        decreases self.game_objects@.len() - old(subtree)@.len(),
    {
        let ghost objs = self.game_objects@;
        let ghost old_sub = subtree@;
        let ghost l0 = subtree@.len();
        proof {
            lemma_find_index(objs, id);
            assert forall|k: int| 0 <= k < old_sub.len() implies object_ids(objs).contains(#[trigger] old_sub[k]) by {
                let i = choose|i: int| 0 <= i < objs.len() && (#[trigger] objs[i]).id == old_sub[k];
                assert(object_ids(objs)[i] == old_sub[k]);
            }
            lemma_distinct_bound(old_sub, object_ids(objs));
        }
        if contains_id(subtree, id) || self.find_game_object_index(id).is_none() {
            return;
        }
        subtree.push(id);
        proof {
            lemma_subtree_root(objs, id);
            assert(subtree@[l0 as int] == id);
            assert(subtree@.no_duplicates()) by {
                assert forall|a: int, b: int| 0 <= a < subtree@.len() && 0 <= b < subtree@.len() && a != b implies subtree@[a] != subtree@[b] by {
                    if a < l0 && b < l0 {
                        assert(subtree@[a] == old_sub[a] && subtree@[b] == old_sub[b]);
                    } else if a < l0 {
                        assert(subtree@[a] == old_sub[a]);
                    } else if b < l0 {
                        assert(subtree@[b] == old_sub[b]);
                    }
                }
            }
            assert(subtree@.subrange(0, l0 as int) =~= old_sub);
        }
        let n = self.game_objects.len();
        let mut j: usize = 0;
        while j < n
            invariant
                objs == self.game_objects@,
                n == objs.len(),
                j <= n,
                has_id(objs, id),
                l0 == old(subtree)@.len(),
                subtree@.len() >= l0 + 1,
                subtree@.subrange(0, l0 as int) == old_sub,
                subtree@[l0 as int] == id,
                subtree@.no_duplicates(),
                forall|k: int| 0 <= k < subtree@.len() ==> has_id(objs, #[trigger] subtree@[k]),
                forall|k: int| l0 <= k < subtree@.len() ==> in_subtree(objs, id, #[trigger] subtree@[k]),
                forall|k: int, c: GameObjectId| l0 + 1 <= k < subtree@.len() && #[trigger] is_child(objs, subtree@[k], c)
                    ==> subtree@.contains(c),
                forall|i: int| 0 <= i < j && (#[trigger] objs[i]).parent == Some(id) ==> subtree@.contains(objs[i].id),
            decreases n - j,
        {
            if self.game_objects[j].parent == Some(id) {
                let c = self.game_objects[j].id;
                let ghost before = subtree@;
                proof {
                    assert forall|k: int| 0 <= k < before.len() implies object_ids(objs).contains(#[trigger] before[k]) by {
                        let i = choose|i: int| 0 <= i < objs.len() && (#[trigger] objs[i]).id == before[k];
                        assert(object_ids(objs)[i] == before[k]);
                    }
                    lemma_distinct_bound(before, object_ids(objs));
                    assert(object_ids(objs).len() == objs.len());
                    assert(before.len() <= objs.len());
                    assert(is_child(objs, id, c)) by {
                        assert(objs[j as int].id == c && objs[j as int].parent == Some(id));
                    }
                }
                self.collect_subtree_ids(c, subtree);
                proof {
                    let after = subtree@;
                    assert forall|k: int| 0 <= k < before.len() implies after[k] == before[k] by {
                        assert(after.subrange(0, before.len() as int)[k] == after[k]);
                    }
                    assert(after.subrange(0, l0 as int) =~= old_sub) by {
                        assert forall|k: int| 0 <= k < l0 implies after[k] == old_sub[k] by {
                            assert(before.subrange(0, l0 as int)[k] == before[k]);
                        }
                    }
                    assert forall|k: int| l0 <= k < after.len() implies in_subtree(objs, id, #[trigger] after[k]) by {
                        if k >= before.len() {
                            lemma_path_prepend(objs, id, c, after[k]);
                        } else {
                            assert(after[k] == before[k]);
                        }
                    }
                    assert forall|k: int, c2: GameObjectId| l0 + 1 <= k < after.len() && #[trigger] is_child(objs, after[k], c2)
                        implies after.contains(c2) by {
                        if k < before.len() {
                            assert(after[k] == before[k]);
                            assert(before.contains(c2));
                            let k2 = choose|k2: int| 0 <= k2 < before.len() && before[k2] == c2;
                            assert(after[k2] == c2);
                        }
                    }
                    assert(has_id(objs, c)) by {
                        assert(objs[j as int].id == c);
                    }
                    assert forall|i: int| 0 <= i < j + 1 && (#[trigger] objs[i]).parent == Some(id) implies after.contains(objs[i].id) by {
                        if i < j {
                            assert(before.contains(objs[i].id));
                            let k2 = choose|k2: int| 0 <= k2 < before.len() && before[k2] == objs[i].id;
                            assert(after[k2] == objs[i].id);
                        }
                    }
                }
            }
            j = j + 1;
        }
        proof {
            assert forall|k: int, c: GameObjectId| l0 <= k < subtree@.len() && #[trigger] is_child(objs, subtree@[k], c)
                implies subtree@.contains(c) by {
                if k == l0 {
                    let i = choose|i: int| 0 <= i < objs.len() && (#[trigger] objs[i]).id == c && objs[i].parent == Some(subtree@[k]);
                    assert(objs[i].parent == Some(id));
                }
            }
        }
    }

    /// The ids of the subtree under `id` (empty when there is no such object).
    pub fn subtree_ids(&self, id: GameObjectId) -> (r: Vec<GameObjectId>)
        ensures
            r@.no_duplicates(),
            forall|x: GameObjectId| r@.contains(x) <==> in_subtree(self.game_objects@, id, x),
            r@.len() == 0 <==> !has_id(self.game_objects@, id),
    {
        let mut subtree: Vec<GameObjectId> = Vec::new();
        self.collect_subtree_ids(id, &mut subtree);
        proof {
            let objs = self.game_objects@;
            assert forall|x: GameObjectId| subtree@.contains(x) <==> in_subtree(objs, id, x) by {
                if in_subtree(objs, id, x) {
                    lemma_subtree_has_id(objs, id, x);
                    lemma_subtree_closed(objs, id, subtree@, x);
                }
                if subtree@.contains(x) {
                    let k = choose|k: int| 0 <= k < subtree@.len() && subtree@[k] == x;
                    assert(in_subtree(objs, id, subtree@[k]));
                }
            }
            if has_id(objs, id) {
                assert(subtree@.contains(id));
            }
        }
        subtree
    }


    /// Appends a new object and gives it `component`. The component goes to
    /// the first object with the new id, which is the new object unless an
    /// older object already carries that id.
    pub fn create_object_with(&mut self, name: &str, transform: D::Transform, component: SceneComponent<D>) -> (r: GameObjectId)
        ensures
            r.0 == allocated_id(old(self).next_game_object_id),
            final(self).next_game_object_id == next_after(old(self).next_game_object_id),
            exists|mid: Seq<GameObject<D>>| #[trigger] object_appended(old(self).game_objects@, mid, r, name@, transform)
                && component_added(mid, final(self).game_objects@, r, component),
            ids_below(old(self).game_objects@, old(self).next_game_object_id) ==> {
                &&& final(self).game_objects@.drop_last() == old(self).game_objects@
                &&& final(self).game_objects@.last().components@ == seq![component]
            },
            forall|k: BuiltinGameObjectKind| #[trigger] has_kind(old(self).game_objects@, k) ==> has_kind(final(self).game_objects@, k),
            forall|k: BuiltinGameObjectKind| builtin_matches(k, component) ==> #[trigger] has_kind(final(self).game_objects@, k),
            final(self).game_objects@.len() == old(self).game_objects@.len() + 1,
            forall|i: int| 0 <= i < old(self).game_objects@.len() ==> (#[trigger] final(self).game_objects@[i]).id == old(self).game_objects@[i].id,
            final(self).render_settings == old(self).render_settings,
            final(self).ibl == old(self).ibl,
    {
        let ghost old_objs = self.game_objects@;
        let id = self.create_game_object(name, transform);
        let ghost mid = self.game_objects@;
        proof {
            lemma_object_appended_kinds(old_objs, mid, id, name@, transform);
            lemma_find_index(mid, id);
        }
        self.add_component(id, component);
        proof {
            let fin = self.game_objects@;
            assert(object_appended(old_objs, mid, id, name@, transform));
            lemma_component_added_kinds(mid, fin, id, component);
            assert forall|i: int| 0 <= i < old_objs.len() implies (#[trigger] fin[i]).id == old_objs[i].id by {
                assert(mid.drop_last()[i] == mid[i]);
                let k = find_index(mid, id)->0;
                if i != k {
                    assert(fin[i] == mid[i]);
                }
            }
            if ids_below(old_objs, old(self).next_game_object_id) {
                let k = find_index(mid, id)->0;
                if k < old_objs.len() {
                    assert(mid.drop_last()[k] == mid[k]);
                    assert(old_objs[k].id.0 < old(self).next_game_object_id);
                    assert(false);
                }
                assert(k == mid.len() - 1);
                assert(fin.drop_last() =~= old_objs) by {
                    assert forall|i: int| 0 <= i < old_objs.len() implies fin.drop_last()[i] == old_objs[i] by {
                        assert(fin[i] == mid[i]);
                        assert(mid.drop_last()[i] == mid[i]);
                    }
                }
                assert(fin.last().components@ =~= seq![component]);
            }
        }
        id
    }

    pub fn create_mesh_object(&mut self, name: &str, source: MeshSource, transform: D::Transform) -> (r: GameObjectId)
        ensures
            r.0 == allocated_id(old(self).next_game_object_id),
            final(self).next_game_object_id == next_after(old(self).next_game_object_id),
            exists|mid: Seq<GameObject<D>>, m: MeshRendererComponent<D>| #[trigger] object_appended(old(self).game_objects@, mid, r, name@, transform)
                && m.source == source && m.enabled
                && #[trigger] component_added(mid, final(self).game_objects@, r, SceneComponent::MeshRenderer(m)),
            final(self).render_settings == old(self).render_settings,
            final(self).ibl == old(self).ibl,
    {
        let component = MeshRendererComponent::new(source);
        let ghost m = component;
        let r = self.create_object_with(name, transform, SceneComponent::MeshRenderer(component));
        proof {
            let mid = choose|mid: Seq<GameObject<D>>| #[trigger] object_appended(old(self).game_objects@, mid, r, name@, transform)
                && component_added(mid, self.game_objects@, r, SceneComponent::MeshRenderer(m));
            assert(object_appended(old(self).game_objects@, mid, r, name@, transform) && m.source == source && m.enabled
                && component_added(mid, self.game_objects@, r, SceneComponent::MeshRenderer(m)));
        }
        r
    }

    pub fn create_camera_object(&mut self, name: &str, transform: D::Transform, component: CameraComponent<D>) -> (r: GameObjectId)
        ensures
            r.0 == allocated_id(old(self).next_game_object_id),
            final(self).next_game_object_id == next_after(old(self).next_game_object_id),
            exists|mid: Seq<GameObject<D>>| #[trigger] object_appended(old(self).game_objects@, mid, r, name@, transform)
                && component_added(mid, final(self).game_objects@, r, SceneComponent::Camera(component)),
            final(self).render_settings == old(self).render_settings,
            final(self).ibl == old(self).ibl,
    {
        self.create_object_with(name, transform, SceneComponent::Camera(component))
    }

    pub fn create_sun_object(&mut self, name: &str, transform: D::Transform, component: SunComponent<D>) -> (r: GameObjectId)
        ensures
            r.0 == allocated_id(old(self).next_game_object_id),
            final(self).next_game_object_id == next_after(old(self).next_game_object_id),
            exists|mid: Seq<GameObject<D>>| #[trigger] object_appended(old(self).game_objects@, mid, r, name@, transform)
                && component_added(mid, final(self).game_objects@, r, SceneComponent::Sun(component)),
            final(self).render_settings == old(self).render_settings,
            final(self).ibl == old(self).ibl,
    {
        self.create_object_with(name, transform, SceneComponent::Sun(component))
    }

    pub fn create_local_lights_object(&mut self, name: &str, transform: D::Transform, component: LocalLightsComponent<D>) -> (r: GameObjectId)
        ensures
            r.0 == allocated_id(old(self).next_game_object_id),
            final(self).next_game_object_id == next_after(old(self).next_game_object_id),
            exists|mid: Seq<GameObject<D>>| #[trigger] object_appended(old(self).game_objects@, mid, r, name@, transform)
                && component_added(mid, final(self).game_objects@, r, SceneComponent::LocalLights(component)),
            final(self).render_settings == old(self).render_settings,
            final(self).ibl == old(self).ibl,
    {
        self.create_object_with(name, transform, SceneComponent::LocalLights(component))
    }


    /// Creates the singleton object of `kind` when no component of that kind exists.
    fn ensure_role(&mut self, kind: BuiltinGameObjectKind, d: &SceneDefaults<D>)
        ensures
            has_kind(final(self).game_objects@, kind),
            forall|k: BuiltinGameObjectKind| #[trigger] has_kind(old(self).game_objects@, k) ==> has_kind(final(self).game_objects@, k),
            has_kind(old(self).game_objects@, kind) ==> *final(self) == *old(self),
            old(self).game_objects@.len() <= final(self).game_objects@.len() <= old(self).game_objects@.len() + 1,
            forall|i: int| 0 <= i < old(self).game_objects@.len() ==> same_but_components(#[trigger] final(self).game_objects@[i], old(self).game_objects@[i]),
            forall|i: int| old(self).game_objects@.len() <= i < final(self).game_objects@.len() ==> {
                &&& (#[trigger] final(self).game_objects@[i]).parent is None
                &&& final(self).game_objects@[i].enabled
            },
            final(self).next_game_object_id >= old(self).next_game_object_id,
            final(self).next_game_object_id <= allocated_id(old(self).next_game_object_id) + 1,
            ids_below(old(self).game_objects@, old(self).next_game_object_id) && old(self).next_game_object_id < u64::MAX ==> {
                &&& ids_below(final(self).game_objects@, final(self).next_game_object_id)
                &&& (ids_unique(old(self).game_objects@) ==> ids_unique(final(self).game_objects@))
                &&& extends_components(old(self).game_objects@, final(self).game_objects@)
                &&& forall|i: int| old(self).game_objects@.len() <= i < final(self).game_objects@.len()
                    ==> (#[trigger] final(self).game_objects@[i]).id.0 >= old(self).next_game_object_id
                &&& forall|g: int, c: int| old(self).game_objects@.len() <= g && valid_position(final(self).game_objects@, g, c)
                    ==> builtin_matches(kind, #[trigger] component_at(final(self).game_objects@, g, c))
                &&& !has_kind(old(self).game_objects@, kind) ==> singleton_appended(
                    old(self).game_objects@,
                    final(self).game_objects@,
                    0,
                    kind,
                    allocated_id(old(self).next_game_object_id),
                )
                &&& forall|i: int| old(self).game_objects@.len() <= i < final(self).game_objects@.len()
                    ==> #[trigger] made_with_defaults(final(self).game_objects@[i], *d)
            },
            !has_kind(old(self).game_objects@, kind) ==> final(self).next_game_object_id == next_after(
                old(self).next_game_object_id,
            ),
            final(self).render_settings == old(self).render_settings,
            final(self).ibl == old(self).ibl,
    {
        let ghost o = self.game_objects@;
        let present = match self.role_index(kind) {
            Some(_) => true,
            None => false,
        };
        proof {
            lemma_role_kind(o, kind);
        }
        if present {
            return;
        }
        let component = match kind {
            BuiltinGameObjectKind::MainCamera => SceneComponent::Camera(
                CameraComponent { enabled: default_component_enabled(), primary: default_camera_primary(), params: d.camera },
            ),
            BuiltinGameObjectKind::Sun => SceneComponent::Sun(
                SunComponent { enabled: default_component_enabled(), params: d.sun },
            ),
            BuiltinGameObjectKind::LocalLights => SceneComponent::LocalLights(
                LocalLightsComponent { enabled: default_component_enabled(), count: 0, params: d.local_lights },
            ),
        };
        let transform = match kind {
            BuiltinGameObjectKind::MainCamera => d.camera_transform,
            _ => d.light_transform,
        };
        let id = self.create_object_with(kind.display_name(), transform, component);
        proof {
            let f = self.game_objects@;
            let mid = choose|mid: Seq<GameObject<D>>| #[trigger] object_appended(o, mid, id, builtin_display_name(kind), transform)
                && component_added(mid, f, id, component);
            lemma_create_keeps_prefix(o, mid, f, id, builtin_display_name(kind), transform, component);
            if ids_below(o, old(self).next_game_object_id) && old(self).next_game_object_id < u64::MAX {
                assert forall|i: int| 0 <= i < f.len() implies (#[trigger] f[i]).id.0 < self.next_game_object_id by {
                    if i < o.len() {
                        assert(f[i].id == o[i].id);
                    }
                }
                if ids_unique(o) {
                    assert forall|i: int, j: int| 0 <= i < f.len() && 0 <= j < f.len() && i != j implies (#[trigger] f[i]).id != (#[trigger] f[j]).id by {
                        if i < o.len() && j < o.len() {
                            assert(f[i].id == o[i].id && f[j].id == o[j].id);
                        } else if i < o.len() {
                            assert(f[i].id == o[i].id);
                            assert(o[i].id.0 < old(self).next_game_object_id);
                        } else {
                            assert(f[j].id == o[j].id);
                            assert(o[j].id.0 < old(self).next_game_object_id);
                        }
                    }
                }
                assert forall|i: int| 0 <= i < o.len() implies (#[trigger] o[i]).components@ == f[i].components@ by {
                    assert(f.drop_last()[i] == f[i]);
                }
                assert forall|i: int| o.len() <= i < f.len() implies (#[trigger] f[i]).id.0 >= old(self).next_game_object_id by {
                    assert(i == f.len() - 1);
                }
                assert forall|g: int, c: int| o.len() <= g && valid_position(f, g, c) implies builtin_matches(kind, #[trigger] component_at(f, g, c)) by {
                    assert(g == f.len() - 1);
                    assert(f.last().components@ == seq![component]);
                }
                assert(f.last().transform == mid.last().transform);
                assert forall|i: int| o.len() <= i < f.len() implies #[trigger] made_with_defaults(f[i], *d) by {
                    assert(i == f.len() - 1);
                    assert(f.last().components@ == seq![component]);
                }
            }
        }
    }

    /// Makes sure the scene has a main camera, a sun and local lights (creating
    /// the missing ones), then marks exactly the objects that play these roles
    /// as builtins and gives them their display names.
    #[verifier::spinoff_prover]
    pub fn ensure_editor_singletons(&mut self)
        ensures
            singletons_ensured(old(self).game_objects@, old(self).next_game_object_id, final(self).game_objects@, final(self).next_game_object_id),
            all_roles_marked(old(self).game_objects@) ==> {
                &&& final(self).game_objects@.len() == old(self).game_objects@.len()
                &&& forall|i: int| 0 <= i < old(self).game_objects@.len()
                    ==> #[trigger] unchanged_by_marking(final(self).game_objects@[i], old(self).game_objects@[i])
                &&& final(self).next_game_object_id == old(self).next_game_object_id
            },
            final(self).render_settings == old(self).render_settings,
            final(self).ibl == old(self).ibl,
    {
        self.ensure_editor_singletons_with(&scene_defaults());
    }

    /// Makes sure the scene has a main camera, a sun and local lights (creating
    /// the missing ones), then marks exactly the objects that play these roles
    /// as builtins and gives them their display names. The objects it creates
    /// start from the defaults `d`.
    #[verifier::spinoff_prover]
    #[verifier::rlimit(40)]
    pub fn ensure_editor_singletons_with(&mut self, d: &SceneDefaults<D>)
        ensures
            singletons_ensured(old(self).game_objects@, old(self).next_game_object_id, final(self).game_objects@, final(self).next_game_object_id),
            all_roles_marked(old(self).game_objects@) ==> {
                &&& final(self).game_objects@.len() == old(self).game_objects@.len()
                &&& forall|i: int| 0 <= i < old(self).game_objects@.len()
                    ==> #[trigger] unchanged_by_marking(final(self).game_objects@[i], old(self).game_objects@[i])
                &&& final(self).next_game_object_id == old(self).next_game_object_id
            },
            ids_below(old(self).game_objects@, old(self).next_game_object_id) && old(self).next_game_object_id <= u64::MAX - 3
                ==> forall|i: int| old(self).game_objects@.len() <= i < final(self).game_objects@.len()
                ==> #[trigger] made_with_defaults(final(self).game_objects@[i], *d),
            final(self).render_settings == old(self).render_settings,
            final(self).ibl == old(self).ibl,
    {
        let ghost o = self.game_objects@;
        let ghost n0 = self.next_game_object_id;
        let ghost fresh = ids_below(o, self.next_game_object_id) && self.next_game_object_id <= u64::MAX - 3;
        self.ensure_role(BuiltinGameObjectKind::MainCamera, d);
        let ghost o1 = self.game_objects@;
        let ghost n1 = self.next_game_object_id;
        self.ensure_role(BuiltinGameObjectKind::Sun, d);
        let ghost o2 = self.game_objects@;
        let ghost n2 = self.next_game_object_id;
        proof {
            if fresh {
                assert(ids_below(o1, n1) && n1 < u64::MAX);
                assert(ids_below(o2, n2) && n2 < u64::MAX);
            }
        }
        self.ensure_role(BuiltinGameObjectKind::LocalLights, d);
        let ghost o3 = self.game_objects@;
        let ghost n3 = self.next_game_object_id;
        let ghost rs = self.render_settings;
        let ghost ibl = self.ibl;
        proof {
            assert forall|k: BuiltinGameObjectKind| has_kind(o3, k) by {
                match k {
                    BuiltinGameObjectKind::MainCamera => {
                        assert(has_kind(o1, k));
                        assert(has_kind(o2, k));
                    },
                    BuiltinGameObjectKind::Sun => {
                        assert(has_kind(o2, k));
                    },
                    BuiltinGameObjectKind::LocalLights => {},
                }
            }
            assert forall|i: int| 0 <= i < o.len() implies same_but_components(#[trigger] o3[i], o[i]) by {
                assert(same_but_components(o1[i], o[i]));
                assert(same_but_components(o2[i], o1[i]));
                assert(same_but_components(o3[i], o2[i]));
            }
            assert forall|i: int| o.len() <= i < o3.len() implies (#[trigger] o3[i]).parent is None && o3[i].enabled by {
                if i < o1.len() {
                    assert(same_but_components(o2[i], o1[i]));
                    assert(same_but_components(o3[i], o2[i]));
                } else if i < o2.len() {
                    assert(same_but_components(o3[i], o2[i]));
                }
            }
            if fresh {
                assert(extends_components(o, o3)) by {
                    assert forall|i: int| 0 <= i < o.len() implies (#[trigger] o[i]).components@ == o3[i].components@ by {
                        assert(o1[i].components@ == o[i].components@);
                        assert(o2[i].components@ == o1[i].components@);
                    }
                }
                assert forall|k: BuiltinGameObjectKind| #[trigger] role_of(o, k) is Some implies role_of(o3, k) == role_of(o, k) by {
                    lemma_role_kind(o, k);
                    assert(has_kind(o, k));
                    assert forall|g: int, c: int| o.len() <= g && valid_position(o3, g, c) implies !builtin_matches(k, #[trigger] component_at(o3, g, c)) by {
                        // each appended object holds one component of a kind that was missing
                        if g < o1.len() {
                            assert(o2[g].components@ == o1[g].components@);
                            assert(o3[g].components@ == o2[g].components@);
                            assert(builtin_matches(BuiltinGameObjectKind::MainCamera, component_at(o1, g, c)));
                            assert(!has_kind(o, BuiltinGameObjectKind::MainCamera));
                        } else if g < o2.len() {
                            assert(o3[g].components@ == o2[g].components@);
                            assert(builtin_matches(BuiltinGameObjectKind::Sun, component_at(o2, g, c)));
                            assert(!has_kind(o1, BuiltinGameObjectKind::Sun));
                        } else {
                            assert(builtin_matches(BuiltinGameObjectKind::LocalLights, component_at(o3, g, c)));
                            assert(!has_kind(o2, BuiltinGameObjectKind::LocalLights));
                        }
                    }
                    lemma_role_extend(o, o3, k);
                }
            }
        }
        let n = self.game_objects.len();
        let mut i: usize = 0;
        while i < n
            invariant
                n == self.game_objects@.len(),
                n == o3.len(),
                i <= n,
                self.next_game_object_id == n3,
                self.render_settings == rs,
                self.ibl == ibl,
                forall|j: int| 0 <= j < n ==> same_but_builtin(#[trigger] self.game_objects@[j], o3[j]),
                forall|j: int| 0 <= j < i ==> (#[trigger] self.game_objects@[j]).builtin is None,
            decreases n - i,
        {
            self.game_objects[i].builtin = None;
            i = i + 1;
        }
        let ghost o4 = self.game_objects@;
        proof {
            assert(same_components(o3, o4));
            lemma_roles_same(o3, o4);
        }
        self.mark_role(BuiltinGameObjectKind::MainCamera);
        let ghost o5 = self.game_objects@;
        proof {
            assert(same_components(o4, o5));
            lemma_roles_same(o4, o5);
        }
        self.mark_role(BuiltinGameObjectKind::Sun);
        let ghost o6 = self.game_objects@;
        proof {
            assert(same_components(o5, o6));
            lemma_roles_same(o5, o6);
        }
        self.mark_role(BuiltinGameObjectKind::LocalLights);
        proof {
            let f = self.game_objects@;
            assert(same_components(o6, f));
            lemma_roles_same(o6, f);
            assert(same_components(o3, f));
            lemma_roles_same(o3, f);
            assert forall|k: BuiltinGameObjectKind| #[trigger] role_of(f, k) is Some by {
                lemma_role_kind(o3, k);
            }
            let pc = camera_role(f)->0;
            let ps = sun_role(f)->0;
            let pl = local_lights_role(f)->0;
            assert(role_of(f, BuiltinGameObjectKind::MainCamera) is Some);
            assert(role_of(f, BuiltinGameObjectKind::Sun) is Some);
            assert(role_of(f, BuiltinGameObjectKind::LocalLights) is Some);
            assert forall|i: int| 0 <= i < f.len() implies (#[trigger] f[i]).builtin == expected_builtin(f, i)
                && (expected_builtin(f, i) is Some ==> f[i].name@ == builtin_display_name(expected_builtin(f, i)->0)) by {
                if i == pl.0 {
                } else if i == ps.0 {
                    assert(f[i] == o6[i]);
                } else if i == pc.0 {
                    assert(f[i] == o6[i]);
                    assert(o6[i] == o5[i]);
                } else {
                    assert(f[i] == o6[i]);
                    assert(o6[i] == o5[i]);
                    assert(o5[i] == o4[i]);
                }
            }
            assert forall|i: int| 0 <= i < o.len() implies same_but_components(#[trigger] o3[i], o[i]) && same_but_marking(f[i], o3[i]) by {
                assert(same_but_marking(f[i], o6[i]));
                assert(same_but_marking(o6[i], o5[i]));
                assert(same_but_marking(o5[i], o4[i]));
                assert(same_but_builtin(o4[i], o3[i]));
            }
            assert forall|i: int| 0 <= i < o.len() && expected_builtin(f, i) is None implies (#[trigger] f[i]).name == o[i].name by {
                assert(f[i] == o6[i]);
                assert(o6[i] == o5[i]);
                assert(o5[i] == o4[i]);
                assert(same_but_builtin(o4[i], o3[i]));
                assert(same_but_components(o3[i], o[i]));
            }
            assert forall|i: int| o.len() <= i < f.len() implies (#[trigger] f[i]).parent is None && f[i].enabled by {
                assert(same_but_marking(f[i], o6[i]));
                assert(same_but_marking(o6[i], o5[i]));
                assert(same_but_marking(o5[i], o4[i]));
                assert(same_but_builtin(o4[i], o3[i]));
            }
            if fresh {
                assert forall|i: int| 0 <= i < f.len() implies (#[trigger] f[i]).id.0 < self.next_game_object_id by {
                    assert(same_but_marking(f[i], o6[i]));
                    assert(same_but_marking(o6[i], o5[i]));
                    assert(same_but_marking(o5[i], o4[i]));
                    assert(same_but_builtin(o4[i], o3[i]));
                }
                assert forall|i: int| 0 <= i < o.len() implies (#[trigger] o[i]).components@ == f[i].components@ by {
                    assert(o3[i].components@ == f[i].components@);
                }
                assert forall|i: int| o.len() <= i < f.len() implies (#[trigger] f[i]).id.0 >= n0 by {
                    assert(same_but_marking(f[i], o6[i]));
                    assert(same_but_marking(o6[i], o5[i]));
                    assert(same_but_marking(o5[i], o4[i]));
                    assert(same_but_builtin(o4[i], o3[i]));
                    if i < o1.len() {
                        assert(same_but_components(o2[i], o1[i]));
                        assert(same_but_components(o3[i], o2[i]));
                    } else if i < o2.len() {
                        assert(same_but_components(o3[i], o2[i]));
                    }
                }
                assert forall|k: BuiltinGameObjectKind| #[trigger] role_of(o, k) is Some implies role_of(f, k) == role_of(o, k) by {
                    assert(role_of(o3, k) == role_of(o, k));
                }
            }
        }
        proof {
            if fresh {
                let f = self.game_objects@;
                assert(role_stage(o, n0, o1, n1, BuiltinGameObjectKind::MainCamera));
                assert(role_stage(o1, n1, o2, n2, BuiltinGameObjectKind::Sun));
                assert(role_stage(o2, n2, o3, n3, BuiltinGameObjectKind::LocalLights));
                lemma_three_stages(o, n0, o1, n1, o2, n2, o3, n3);
                assert forall|i: int| 0 <= i < f.len() implies (#[trigger] f[i]).id == o3[i].id && f[i].components@ == o3[i].components@ by {
                    assert(same_but_marking(f[i], o6[i]));
                    assert(same_but_marking(o6[i], o5[i]));
                    assert(same_but_marking(o5[i], o4[i]));
                    assert(same_but_builtin(o4[i], o3[i]));
                }
                assert forall|j: int| 0 <= j < missing_roles(o).len() implies #[trigger] singleton_appended(
                    o,
                    f,
                    j,
                    missing_roles(o)[j],
                    (allocated_id(n0) + j) as u64,
                ) by {
                    assert(singleton_appended(o, o3, j, missing_roles(o)[j], (allocated_id(n0) + j) as u64));
                    assert(f[o.len() + j].id == o3[o.len() + j].id);
                }
                lemma_appended_marked(o, f, allocated_id(n0));
            }
        }
        proof {
            if all_roles_marked(o) {
                assert(has_kind(o, BuiltinGameObjectKind::MainCamera));
                assert(has_kind(o1, BuiltinGameObjectKind::Sun));
                assert(has_kind(o2, BuiltinGameObjectKind::LocalLights));
                lemma_remarking_unchanged(o, self.game_objects@);
            }
            if fresh {
                let f = self.game_objects@;
                assert(ids_below(o1, n1) && n1 < u64::MAX);
                assert(ids_below(o2, n2) && n2 < u64::MAX);
                assert forall|i: int| o.len() <= i < f.len() implies #[trigger] made_with_defaults(f[i], *d) by {
                    assert(same_but_marking(f[i], o6[i]));
                    assert(same_but_marking(o6[i], o5[i]));
                    assert(same_but_marking(o5[i], o4[i]));
                    assert(same_but_builtin(o4[i], o3[i]));
                    if i < o1.len() {
                        assert(made_with_defaults(o1[i], *d));
                        assert(same_but_components(o2[i], o1[i]));
                        assert(o1[i].components@ == o2[i].components@);
                        assert(same_but_components(o3[i], o2[i]));
                        assert(o2[i].components@ == o3[i].components@);
                    } else if i < o2.len() {
                        assert(made_with_defaults(o2[i], *d));
                        assert(same_but_components(o3[i], o2[i]));
                        assert(o2[i].components@ == o3[i].components@);
                    } else {
                        assert(made_with_defaults(o3[i], *d));
                    }
                }
            }
        }
    }


    /// Marks the object that plays the role of `kind` and names it after the role.
    fn mark_role(&mut self, kind: BuiltinGameObjectKind)
        ensures
            final(self).game_objects@.len() == old(self).game_objects@.len(),
            forall|j: int| 0 <= j < old(self).game_objects@.len() ==> same_but_marking(#[trigger] final(self).game_objects@[j], old(self).game_objects@[j]),
            match role_of(old(self).game_objects@, kind) {
                Some(p) => {
                    &&& forall|j: int| 0 <= j < old(self).game_objects@.len() && j != p.0 ==> #[trigger] final(self).game_objects@[j] == old(self).game_objects@[j]
                    &&& final(self).game_objects@[p.0].builtin == Some(kind)
                    &&& final(self).game_objects@[p.0].name@ == builtin_display_name(kind)
                },
                None => final(self).game_objects@ == old(self).game_objects@,
            },
            final(self).next_game_object_id == old(self).next_game_object_id,
            final(self).render_settings == old(self).render_settings,
            final(self).ibl == old(self).ibl,
    {
        proof {
            lemma_role_kind(self.game_objects@, kind);
        }
        if let Some((gi, _)) = self.role_index(kind) {
            self.game_objects[gi].builtin = Some(kind);
            self.game_objects[gi].name = string_from(kind.display_name());
        }
    }


    /// Splits the objects into those whose id is in `ids` and the others, both
    /// in their order.
    fn partition_by_ids(objs: Vec<GameObject<D>>, ids: &Vec<GameObjectId>) -> (r: (Vec<GameObject<D>>, Vec<GameObject<D>>))
        ensures
            r.0@ == objs@.filter(|o: GameObject<D>| ids@.contains(o.id)),
            r.1@ == objs@.filter(|o: GameObject<D>| !ids@.contains(o.id)),
    {
        let ghost all = objs@;
        let ghost pin = |o: GameObject<D>| ids@.contains(o.id);
        let ghost pout = |o: GameObject<D>| !ids@.contains(o.id);
        let mut inside: Vec<GameObject<D>> = Vec::new();
        let mut outside: Vec<GameObject<D>> = Vec::new();
        proof {
            reveal(Seq::filter);
            assert(all.take(0).filter(pin) =~= Seq::<GameObject<D>>::empty());
            assert(all.take(0).filter(pout) =~= Seq::<GameObject<D>>::empty());
        }
        for o in it: objs
            invariant
                it.seq() == all,
                pin == (|o2: GameObject<D>| ids@.contains(o2.id)),
                pout == (|o2: GameObject<D>| !ids@.contains(o2.id)),
                inside@ == all.take(it.index() as int).filter(pin),
                outside@ == all.take(it.index() as int).filter(pout),
        {
            proof {
                let i = it.index() as int;
                assert(o == all[i]);
                assert(all.take(i + 1) =~= all.take(i).push(all[i]));
                all.take(i).lemma_filter_push(all[i], pin);
                all.take(i).lemma_filter_push(all[i], pout);
                assert(pin(all[i]) == ids@.contains(all[i].id));
                assert(pout(all[i]) == !ids@.contains(all[i].id));
            }
            if contains_id(ids, o.id) {
                inside.push(o);
            } else {
                outside.push(o);
            }
        }
        proof {
            assert(all.take(all.len() as int) =~= all);
        }
        (inside, outside)
    }

    /// Removes the object with id `id` together with everything below it, then
    /// restores the editor singletons. False (and nothing changes) when there is
    /// no such object.
    pub fn remove_game_object(&mut self, id: GameObjectId) -> (r: bool)
        ensures
            r == has_id(old(self).game_objects@, id),
            !r ==> *final(self) == *old(self),
            r ==> singletons_ensured(outside_subtree(old(self).game_objects@, id), old(self).next_game_object_id,
                final(self).game_objects@, final(self).next_game_object_id),
            final(self).render_settings == old(self).render_settings,
            final(self).ibl == old(self).ibl,
    {
        let subtree = self.subtree_ids(id);
        if subtree.len() == 0 {
            return false;
        }
        let ghost o = self.game_objects@;
        let mut objs: Vec<GameObject<D>> = Vec::new();
        std::mem::swap(&mut objs, &mut self.game_objects);
        let (_removed, kept) = Self::partition_by_ids(objs, &subtree);
        proof {
            assert((|o2: GameObject<D>| !subtree@.contains(o2.id)) =~= (|o2: GameObject<D>| !in_subtree(o, id, o2.id)));
            assert(kept@ == outside_subtree(o, id));
        }
        self.game_objects = kept;
        self.ensure_editor_singletons();
        true
    }

    /// Moves the object `child_id`, with everything below it, under `new_parent`
    /// (`None`: to the top level). The moved objects keep their order and go
    /// right after the new parent and its descendants. False (and nothing
    /// changes) when `can_reparent_game_object` refuses.
    pub fn reparent_game_object(&mut self, child_id: GameObjectId, new_parent: Option<GameObjectId>) -> (r: bool)
        ensures
            r == can_reparent(old(self).game_objects@, child_id, new_parent),
            !r ==> *final(self) == *old(self),
            r ==> reparented(old(self).game_objects@, final(self).game_objects@, child_id, new_parent),
            final(self).next_game_object_id == old(self).next_game_object_id,
            final(self).render_settings == old(self).render_settings,
            final(self).ibl == old(self).ibl,
    {
        if !self.can_reparent_game_object(child_id, new_parent) {
            return false;
        }
        let ghost o = self.game_objects@;
        proof {
            lemma_find_index(o, child_id);
            lemma_subtree_root(o, child_id);
        }
        let subtree_ids = self.subtree_ids(child_id);
        let mut objs: Vec<GameObject<D>> = Vec::new();
        std::mem::swap(&mut objs, &mut self.game_objects);
        let (mut subtree, mut remaining) = Self::partition_by_ids(objs, &subtree_ids);
        proof {
            assert((|o2: GameObject<D>| subtree_ids@.contains(o2.id)) =~= (|o2: GameObject<D>| in_subtree(o, child_id, o2.id)));
            assert((|o2: GameObject<D>| !subtree_ids@.contains(o2.id)) =~= (|o2: GameObject<D>| !in_subtree(o, child_id, o2.id)));
        }
        let ghost sub0 = subtree@;
        let ghost rem = remaining@;
        assert(sub0 == inside_subtree(o, child_id));
        assert(rem == outside_subtree(o, child_id));
        // set the parent of the (first) moved object with the child's id
        let m = subtree.len();
        let mut c: usize = 0;
        while c < m
            invariant
                m == subtree@.len(),
                subtree@ == sub0,
                c <= m,
                find_index(sub0, child_id) == find_from(sub0, child_id, c as int),
            ensures
                c == m || (c < m && sub0[c as int].id == child_id),
                find_index(sub0, child_id) == find_from(sub0, child_id, c as int),
            decreases m - c,
        {
            if subtree[c].id == child_id {
                break;
            }
            c = c + 1;
        }
        proof {
            lemma_find_from(sub0, child_id, c as int);
            lemma_find_index(sub0, child_id);
            // the child lies in its own subtree, so it was moved
            let i = find_index(o, child_id)->0;
            o.lemma_filter_contains(inside_pred(o, child_id), i);
            assert(sub0.contains(o[i]));
            let j = choose|j: int| 0 <= j < sub0.len() && sub0[j] == o[i];
            assert(sub0[j].id == child_id);
            assert(has_id(sub0, child_id));
            assert(c < m);
            assert(find_index(sub0, child_id) == Some(c as int));
        }
        subtree[c].parent = new_parent;
        proof {
            assert(subtree@ =~= sub0.update(c as int, GameObject { parent: new_parent, ..sub0[c as int] }));
            assert(parent_set(sub0, subtree@, child_id, new_parent));
        }
        let ghost moved = subtree@;
        let insert_index = match new_parent {
            None => remaining.len(),
            Some(p) => Self::attach_position(&remaining, p),
        };
        proof {
            lemma_attach_index(rem, new_parent->0, rem.len() as int);
        }
        let mut tail = remaining.split_off(insert_index);
        remaining.append(&mut subtree);
        remaining.append(&mut tail);
        self.game_objects = remaining;
        proof {
            let k = attach_index(rem, new_parent);
            assert(self.game_objects@ =~= rem.take(k) + moved + rem.skip(k));
            assert(parent_set(inside_subtree(o, child_id), moved, child_id, new_parent));
        }
        true
    }

    /// Index after the last object of `rem` that is `p` or lies below `p`;
    /// `rem.len()` when there is none.
    fn attach_position(rem: &Vec<GameObject<D>>, p: GameObjectId) -> (r: usize)
        ensures
            r as int == attach_index_from(rem@, p, rem@.len() as int),
    {
        let mut j: usize = rem.len();
        while j > 0
            invariant
                j <= rem@.len(),
                attach_index_from(rem@, p, rem@.len() as int) == attach_index_from(rem@, p, j as int),
            decreases j,
        {
            let id = rem[j - 1].id;
            if id == p || Self::is_descendant_of_in(rem, id, p) {
                return j;
            }
            j = j - 1;
        }
        rem.len()
    }


    /// Brings a loaded scene into shape: every object gets a non-zero id not
    /// used by an earlier object (taken from the counter), names are
    /// sanitized, parents that name no object, the object itself, or that
    /// belong to a builtin are dropped, the counter moves past every id, and
    /// the editor singletons are restored.
    pub fn normalize(&mut self)
        ensures
            exists|mid: Seq<GameObject<D>>, n1: u64| #[trigger] ids_normalized(old(self).game_objects@, old(self).next_game_object_id, mid, n1)
                && singletons_ensured(mid, n1, final(self).game_objects@, final(self).next_game_object_id),
            final(self).render_settings == old(self).render_settings,
            final(self).ibl == old(self).ibl,
    {
        let ghost o = self.game_objects@;
        let ghost n0 = self.next_game_object_id;
        let n = self.game_objects.len();
        let mut seen: Vec<GameObjectId> = Vec::new();
        let mut next: u64 = if self.next_game_object_id < 1 { 1 } else { self.next_game_object_id };
        let mut i: usize = 0;
        proof {
            lemma_renumbered_len(o, n0, 0);
        }
        while i < n
            invariant
                n == o.len(),
                n == self.game_objects@.len(),
                i <= n,
                seen@ == renumbered(o, n0, i as nat).0,
                next == renumbered(o, n0, i as nat).1,
                forall|j: int| 0 <= j < i ==> {
                    let x = #[trigger] self.game_objects@[j];
                    let y = o[j];
                    &&& x.id == seen@[j]
                    &&& x.name@ == object_name(seen@[j], y.name@)
                    &&& x.enabled == y.enabled
                    &&& x.builtin == y.builtin
                    &&& x.parent == y.parent
                    &&& x.transform == y.transform
                    &&& x.components == y.components
                },
                forall|j: int| i <= j < n ==> #[trigger] self.game_objects@[j] == o[j],
                self.render_settings == old(self).render_settings,
                self.ibl == old(self).ibl,
            decreases n - i,
        {
            proof {
                lemma_renumbered_len(o, n0, i as nat);
            }
            let id = self.game_objects[i].id;
            let mut new_id = id;
            if id.0 == 0 || contains_id(&seen, id) {
                new_id = GameObjectId(next);
                next = next.saturating_add(1);
            }
            seen.push(new_id);
            let bumped = new_id.0.saturating_add(1);
            if bumped > next {
                next = bumped;
            }
            self.game_objects[i].id = new_id;
            let name = GameObject::<D>::sanitized_name(new_id, self.game_objects[i].name.as_str());
            self.game_objects[i].name = name;
            proof {
                assert(seen@ == renumbered(o, n0, (i + 1) as nat).0);
            }
            i = i + 1;
        }
        let ghost ids = seen@;
        proof {
            lemma_renumbered_len(o, n0, n as nat);
        }
        let mut j: usize = 0;
        while j < n
            invariant
                n == o.len(),
                n == self.game_objects@.len(),
                j <= n,
                ids == seen@,
                ids == renumbered(o, n0, n as nat).0,
                ids.len() == n,
                forall|k: int| 0 <= k < n ==> {
                    let x = #[trigger] self.game_objects@[k];
                    let y = o[k];
                    &&& x.id == ids[k]
                    &&& x.name@ == object_name(ids[k], y.name@)
                    &&& x.enabled == y.enabled
                    &&& x.builtin == y.builtin
                    &&& x.transform == y.transform
                    &&& x.components == y.components
                    &&& (k < j ==> x.parent == kept_parent(y, ids[k], ids))
                    &&& (k >= j ==> x.parent == y.parent)
                },
                self.render_settings == old(self).render_settings,
                self.ibl == old(self).ibl,
            decreases n - j,
        {
            if let Some(parent) = self.game_objects[j].parent {
                if !contains_id(&seen, parent) || parent == self.game_objects[j].id || self.game_objects[j].is_builtin() {
                    self.game_objects[j].parent = None;
                }
            }
            j = j + 1;
        }
        self.next_game_object_id = if next < 1 { 1 } else { next };
        let ghost mid = self.game_objects@;
        let ghost n1 = self.next_game_object_id;
        proof {
            assert(ids_normalized(o, n0, mid, n1));
        }
        self.ensure_editor_singletons();
    }

    /// Restores the editor singletons after an edit.
    pub fn refresh_editor_singletons(&mut self)
        ensures
            singletons_ensured(old(self).game_objects@, old(self).next_game_object_id, final(self).game_objects@, final(self).next_game_object_id),
            all_roles_marked(old(self).game_objects@) ==> {
                &&& final(self).game_objects@.len() == old(self).game_objects@.len()
                &&& forall|i: int| 0 <= i < old(self).game_objects@.len()
                    ==> #[trigger] unchanged_by_marking(final(self).game_objects@[i], old(self).game_objects@[i])
                &&& final(self).next_game_object_id == old(self).next_game_object_id
            },
            final(self).render_settings == old(self).render_settings,
            final(self).ibl == old(self).ibl,
    {
        self.ensure_editor_singletons();
    }

    /// An empty scene with the editor singletons (what `Default` gives).
    pub fn new() -> (r: Self)
        ensures
            singletons_ensured(Seq::empty(), 1, r.game_objects@, r.next_game_object_id),
            ids_below(r.game_objects@, r.next_game_object_id),
            r.ibl is None,
            r.game_objects@.len() == 3,
            r.next_game_object_id == 4,
            forall|j: int| 0 <= j < 3 ==> #[trigger] is_default_singleton(r.game_objects@[j], j),
    {
        SceneState::with_defaults(scene_defaults())
    }

    /// An empty scene with the editor singletons, which start from the
    /// defaults `d`, as do the render settings.
    pub fn with_defaults(d: SceneDefaults<D>) -> (r: Self)
        ensures
            singletons_ensured(Seq::empty(), 1, r.game_objects@, r.next_game_object_id),
            ids_below(r.game_objects@, r.next_game_object_id),
            r.ibl is None,
            r.game_objects@.len() == 3,
            r.next_game_object_id == 4,
            forall|j: int| 0 <= j < 3 ==> #[trigger] is_default_singleton(r.game_objects@[j], j),
            forall|j: int| 0 <= j < 3 ==> #[trigger] made_with_defaults(r.game_objects@[j], d),
            r.render_settings == d.render_settings,
    {
        let mut scene = SceneState {
            next_game_object_id: default_next_game_object_id(),
            game_objects: Vec::new(),
            render_settings: d.render_settings,
            ibl: None,
        };
        scene.ensure_editor_singletons_with(&d);
        proof {
            lemma_role_kind(Seq::<GameObject<D>>::empty(), BuiltinGameObjectKind::MainCamera);
            let e = Seq::<GameObject<D>>::empty();
            assert(!has_kind(e, BuiltinGameObjectKind::MainCamera));
            assert(!has_kind(e, BuiltinGameObjectKind::Sun));
            assert(!has_kind(e, BuiltinGameObjectKind::LocalLights));
            assert(missing_roles(e) =~= role_order());
            let objs = scene.game_objects@;
            assert forall|j: int| 0 <= j < 3 implies #[trigger] is_default_singleton(objs[j], j) by {
                assert(singleton_appended(e, objs, j, missing_roles(e)[j], (allocated_id(1) + j) as u64));
                assert(objs[0 + j] == objs[j]);
            }
        }
        scene
    }


    /// Whether some object is named `name`.
    pub fn has_object_named(&self, name: &str) -> (r: bool)
        ensures
            r == name_taken(self.game_objects@, name@),
    {
        let n = self.game_objects.len();
        let mut i: usize = 0;
        while i < n
            invariant
                n == self.game_objects@.len(),
                i <= n,
                forall|j: int| 0 <= j < i ==> (#[trigger] self.game_objects@[j]).name@ != name@,
            decreases n - i,
        {
            if str_equals(self.game_objects[i].name.as_str(), name) {
                return true;
            }
            i = i + 1;
        }
        false
    }

    /// A name for a new object that no object has yet: `base_name`, or
    /// `base_name` followed by a space and the smallest free number from 1 on.
    pub fn unique_game_object_name(&self, base_name: String) -> (r: String)
        ensures
            unique_name_of(self.game_objects@, base_name@, r@),
    {
        let ghost objs = self.game_objects@;
        if !self.has_object_named(base_name.as_str()) {
            return base_name;
        }
        let n = self.game_objects.len();
        let mut suffix: u64 = 1;
        loop
            invariant
                objs == self.game_objects@,
                n == objs.len(),
                1 <= suffix,
                name_taken(objs, base_name@),
                forall|t: nat| 1 <= t < suffix ==> name_taken(objs, #[trigger] numbered_name(base_name@, t)),
                suffix <= n,
            decreases n + 1 - suffix,
        {
            let mut candidate = string_from(base_name.as_str());
            string_append(&mut candidate, " ");
            append_u64(&mut candidate, suffix);
            assert(candidate@ == numbered_name(base_name@, suffix as nat));
            if !self.has_object_named(candidate.as_str()) {
                return candidate;
            }
            proof {
                // the base name and `suffix` numbered names, all taken and all
                // different, among `n` objects: `suffix + 1 <= n`
                let cands = seq![base_name@] + Seq::new(suffix as nat, |t: int| numbered_name(base_name@, (t + 1) as nat));
                let names = objs.map_values(|o: GameObject<D>| o.name@);
                assert(cands.no_duplicates()) by {
                    assert forall|a: int, b: int| 0 <= a < cands.len() && 0 <= b < cands.len() && a != b implies cands[a] != cands[b] by {
                        if a == 0 {
                            assert(cands[b].len() > cands[a].len());
                        } else if b == 0 {
                            assert(cands[a].len() > cands[b].len());
                        } else if cands[a] == cands[b] {
                            lemma_numbered_injective(base_name@, a as nat, b as nat);
                        }
                    }
                }
                assert forall|k: int| 0 <= k < cands.len() implies names.contains(#[trigger] cands[k]) by {
                    if k == 0 {
                        let i = choose|i: int| 0 <= i < objs.len() && (#[trigger] objs[i]).name@ == base_name@;
                        assert(names[i] == cands[k]);
                    } else {
                        let t = k as nat;
                        if t < suffix {
                            assert(name_taken(objs, numbered_name(base_name@, t)));
                        } else {
                            assert(name_taken(objs, candidate@));
                        }
                        let i = choose|i: int| 0 <= i < objs.len() && (#[trigger] objs[i]).name@ == numbered_name(base_name@, t);
                        assert(names[i] == cands[k]);
                    }
                }
                lemma_distinct_bound(cands, names);
                assert forall|t: nat| 1 <= t < suffix + 1 implies name_taken(objs, #[trigger] numbered_name(base_name@, t)) by {
                    if t == suffix {
                        assert(candidate@ == numbered_name(base_name@, t));
                    }
                }
            }
            suffix = suffix + 1;
        }
    }


    /// A copy of a camera, sun or local-lights component.
    fn copy_role_component(c: &SceneComponent<D>) -> (r: Option<SceneComponent<D>>)
        ensures
            c is MeshRenderer ==> r is None,
            !(c is MeshRenderer) ==> r == Some(*c),
    {
        match c {
            SceneComponent::Camera(cam) => Some(SceneComponent::Camera(CameraComponent { enabled: cam.enabled, primary: cam.primary, params: cam.params })),
            SceneComponent::Sun(sun) => Some(SceneComponent::Sun(SunComponent { enabled: sun.enabled, params: sun.params })),
            SceneComponent::LocalLights(l) => Some(SceneComponent::LocalLights(LocalLightsComponent { enabled: l.enabled, count: l.count, params: l.params })),
            SceneComponent::MeshRenderer(_) => None,
        }
    }

    fn copy_role_from(&mut self, other: &SceneState<D>, kind: BuiltinGameObjectKind)
        ensures
            role_copied(old(self).game_objects@, final(self).game_objects@, other.game_objects@, kind),
            final(self).next_game_object_id == old(self).next_game_object_id,
            final(self).render_settings == old(self).render_settings,
            final(self).ibl == old(self).ibl,
    {
        proof {
            lemma_role_kind(other.game_objects@, kind);
            lemma_role_kind(self.game_objects@, kind);
        }
        if let Some((og, oc)) = other.role_index(kind) {
            if let Some((g, c)) = self.role_index(kind) {
                let t = other.game_objects[og].transform;
                if let Some(comp) = Self::copy_role_component(&other.game_objects[og].components[oc]) {
                    self.game_objects[g].transform = t;
                    self.game_objects[g].components.set(c, comp);
                }
            }
        }
    }

    /// Takes the render settings and the main camera, sun and local lights
    /// (transform and component) of `other`, wherever both scenes have them.
    pub fn copy_editor_singletons_from(&mut self, other: &SceneState<D>)
        ensures
            final(self).render_settings == other.render_settings,
            exists|a: Seq<GameObject<D>>, b: Seq<GameObject<D>>|
                #[trigger] role_copied(old(self).game_objects@, a, other.game_objects@, BuiltinGameObjectKind::MainCamera)
                && #[trigger] role_copied(a, b, other.game_objects@, BuiltinGameObjectKind::Sun)
                && role_copied(b, final(self).game_objects@, other.game_objects@, BuiltinGameObjectKind::LocalLights),
            final(self).next_game_object_id == old(self).next_game_object_id,
            final(self).ibl == old(self).ibl,
    {
        self.render_settings = other.render_settings;
        self.copy_role_from(other, BuiltinGameObjectKind::MainCamera);
        let ghost a = self.game_objects@;
        self.copy_role_from(other, BuiltinGameObjectKind::Sun);
        let ghost b = self.game_objects@;
        self.copy_role_from(other, BuiltinGameObjectKind::LocalLights);
    }




    /// The transform and camera component of the camera role, handed to `f`.
    pub fn with_primary_camera<R, F: FnOnce(&D::Transform, &CameraComponent<D>) -> R>(&self, f: F) -> (r: Option<R>)
        requires
            forall|t: &D::Transform, c: &CameraComponent<D>| f.requires((t, c)),
        ensures
            match role_of(self.game_objects@, BuiltinGameObjectKind::MainCamera) {
                Some(p) => r matches Some(x) && component_at(self.game_objects@, p.0, p.1) matches SceneComponent::Camera(comp)
                    && f.ensures((&self.game_objects@[p.0].transform, &comp), x),
                None => r is None,
            },
    {
        proof {
            lemma_role_kind(self.game_objects@, BuiltinGameObjectKind::MainCamera);
        }
        let (g, c) = match self.role_index(BuiltinGameObjectKind::MainCamera) {
            Some(p) => p,
            None => return None,
        };
        let object = &self.game_objects[g];
        match object.components[c].as_camera() {
            Some(comp) => Some(f(&object.transform, comp)),
            None => None,
        }
    }

    /// The transform and camera component of the camera role, handed to `f`
    /// for changing; the rest of the scene stays as it is.
    pub fn with_primary_camera_mut<R, F: FnOnce(&mut D::Transform, &mut CameraComponent<D>) -> R>(&mut self, f: F) -> (r: Option<R>)
        requires
            forall|t: &mut D::Transform, c: &mut CameraComponent<D>| f.requires((t, c)),
        ensures
            match role_of(old(self).game_objects@, BuiltinGameObjectKind::MainCamera) {
                Some(p) => {
                    let a = old(self).game_objects@;
                    let b = final(self).game_objects@;
                    &&& r is Some
                    &&& b.len() == a.len()
                    &&& forall|j: int| 0 <= j < a.len() && j != p.0 ==> #[trigger] b[j] == a[j]
                    &&& b[p.0].id == a[p.0].id
                    &&& b[p.0].name == a[p.0].name
                    &&& b[p.0].enabled == a[p.0].enabled
                    &&& b[p.0].builtin == a[p.0].builtin
                    &&& b[p.0].parent == a[p.0].parent
                    &&& b[p.0].components@.len() == a[p.0].components@.len()
                    &&& forall|c: int| 0 <= c < a[p.0].components@.len() && c != p.1 ==> #[trigger] b[p.0].components@[c] == a[p.0].components@[c]
                    &&& b[p.0].components@[p.1] is Camera
                    &&& exists|t: &mut D::Transform, c: &mut CameraComponent<D>|
                        *t == a[p.0].transform && a[p.0].components@[p.1] == SceneComponent::Camera(*c)
                        && #[trigger] call_ensures(f, (t, c), r->0)
                        && *final(t) == b[p.0].transform && b[p.0].components@[p.1] == SceneComponent::Camera(*final(c))
                },
                None => r is None && *final(self) == *old(self),
            },
            final(self).next_game_object_id == old(self).next_game_object_id,
            final(self).render_settings == old(self).render_settings,
            final(self).ibl == old(self).ibl,
    {
        proof {
            lemma_role_kind(self.game_objects@, BuiltinGameObjectKind::MainCamera);
        }
        let (g, c) = match self.role_index(BuiltinGameObjectKind::MainCamera) {
            Some(p) => p,
            None => return None,
        };
        let ghost a = self.game_objects@;
        let object = &mut self.game_objects[g];
        match object.components[c].as_camera_mut() {
            Some(comp) => {
                let ghost c0 = *comp;
                let t = &mut object.transform;
                let res = f(t, comp);
                let ghost ft = *final(t);
                let ghost fc = *final(comp);
                let ghost (tr, cr) = choose|tr: &mut D::Transform, cr: &mut CameraComponent<D>|
                    call_ensures(f, (tr, cr), res) && *tr == a[g as int].transform && *cr == c0
                    && *final(tr) == ft && *final(cr) == fc;
                proof {
                    assert(object.transform == ft);
                    assert(object.components@[c as int] == SceneComponent::Camera(fc));
                }
                let r = Some(res);
                proof {
                    let b = self.game_objects@;
                    assert(b[g as int].transform == ft);
                    assert(b[g as int].components@[c as int] == SceneComponent::Camera(fc));
                    assert(a[g as int].components@[c as int] == SceneComponent::Camera(c0));
                    assert(call_ensures(f, (tr, cr), r->0) && *tr == a[g as int].transform && *cr == c0
                        && *final(tr) == ft && *final(cr) == fc);
                }
                r
            },
            None => None,
        }
    }

    /// The transform and sun component of the sun role, handed to `f`.
    pub fn with_sun<R, F: FnOnce(&D::Transform, &SunComponent<D>) -> R>(&self, f: F) -> (r: Option<R>)
        requires
            forall|t: &D::Transform, c: &SunComponent<D>| f.requires((t, c)),
        ensures
            match role_of(self.game_objects@, BuiltinGameObjectKind::Sun) {
                Some(p) => r matches Some(x) && component_at(self.game_objects@, p.0, p.1) matches SceneComponent::Sun(comp)
                    && f.ensures((&self.game_objects@[p.0].transform, &comp), x),
                None => r is None,
            },
    {
        proof {
            lemma_role_kind(self.game_objects@, BuiltinGameObjectKind::Sun);
        }
        let (g, c) = match self.role_index(BuiltinGameObjectKind::Sun) {
            Some(p) => p,
            None => return None,
        };
        let object = &self.game_objects[g];
        match object.components[c].as_sun() {
            Some(comp) => Some(f(&object.transform, comp)),
            None => None,
        }
    }

    /// The transform and sun component of the sun role, handed to `f`
    /// for changing; the rest of the scene stays as it is.
    pub fn with_sun_mut<R, F: FnOnce(&mut D::Transform, &mut SunComponent<D>) -> R>(&mut self, f: F) -> (r: Option<R>)
        requires
            forall|t: &mut D::Transform, c: &mut SunComponent<D>| f.requires((t, c)),
        ensures
            match role_of(old(self).game_objects@, BuiltinGameObjectKind::Sun) {
                Some(p) => {
                    let a = old(self).game_objects@;
                    let b = final(self).game_objects@;
                    &&& r is Some
                    &&& b.len() == a.len()
                    &&& forall|j: int| 0 <= j < a.len() && j != p.0 ==> #[trigger] b[j] == a[j]
                    &&& b[p.0].id == a[p.0].id
                    &&& b[p.0].name == a[p.0].name
                    &&& b[p.0].enabled == a[p.0].enabled
                    &&& b[p.0].builtin == a[p.0].builtin
                    &&& b[p.0].parent == a[p.0].parent
                    &&& b[p.0].components@.len() == a[p.0].components@.len()
                    &&& forall|c: int| 0 <= c < a[p.0].components@.len() && c != p.1 ==> #[trigger] b[p.0].components@[c] == a[p.0].components@[c]
                    &&& b[p.0].components@[p.1] is Sun
                    &&& exists|t: &mut D::Transform, c: &mut SunComponent<D>|
                        *t == a[p.0].transform && a[p.0].components@[p.1] == SceneComponent::Sun(*c)
                        && #[trigger] call_ensures(f, (t, c), r->0)
                        && *final(t) == b[p.0].transform && b[p.0].components@[p.1] == SceneComponent::Sun(*final(c))
                },
                None => r is None && *final(self) == *old(self),
            },
            final(self).next_game_object_id == old(self).next_game_object_id,
            final(self).render_settings == old(self).render_settings,
            final(self).ibl == old(self).ibl,
    {
        proof {
            lemma_role_kind(self.game_objects@, BuiltinGameObjectKind::Sun);
        }
        let (g, c) = match self.role_index(BuiltinGameObjectKind::Sun) {
            Some(p) => p,
            None => return None,
        };
        let ghost a = self.game_objects@;
        let object = &mut self.game_objects[g];
        match object.components[c].as_sun_mut() {
            Some(comp) => {
                let ghost c0 = *comp;
                let t = &mut object.transform;
                let res = f(t, comp);
                let ghost ft = *final(t);
                let ghost fc = *final(comp);
                let ghost (tr, cr) = choose|tr: &mut D::Transform, cr: &mut SunComponent<D>|
                    call_ensures(f, (tr, cr), res) && *tr == a[g as int].transform && *cr == c0
                    && *final(tr) == ft && *final(cr) == fc;
                proof {
                    assert(object.transform == ft);
                    assert(object.components@[c as int] == SceneComponent::Sun(fc));
                }
                let r = Some(res);
                proof {
                    let b = self.game_objects@;
                    assert(b[g as int].transform == ft);
                    assert(b[g as int].components@[c as int] == SceneComponent::Sun(fc));
                    assert(a[g as int].components@[c as int] == SceneComponent::Sun(c0));
                    assert(call_ensures(f, (tr, cr), r->0) && *tr == a[g as int].transform && *cr == c0
                        && *final(tr) == ft && *final(cr) == fc);
                }
                r
            },
            None => None,
        }
    }

    /// The transform and local-lights component of the local-lights role, handed to `f`.
    pub fn with_local_lights<R, F: FnOnce(&D::Transform, &LocalLightsComponent<D>) -> R>(&self, f: F) -> (r: Option<R>)
        requires
            forall|t: &D::Transform, c: &LocalLightsComponent<D>| f.requires((t, c)),
        ensures
            match role_of(self.game_objects@, BuiltinGameObjectKind::LocalLights) {
                Some(p) => r matches Some(x) && component_at(self.game_objects@, p.0, p.1) matches SceneComponent::LocalLights(comp)
                    && f.ensures((&self.game_objects@[p.0].transform, &comp), x),
                None => r is None,
            },
    {
        proof {
            lemma_role_kind(self.game_objects@, BuiltinGameObjectKind::LocalLights);
        }
        let (g, c) = match self.role_index(BuiltinGameObjectKind::LocalLights) {
            Some(p) => p,
            None => return None,
        };
        let object = &self.game_objects[g];
        match object.components[c].as_local_lights() {
            Some(comp) => Some(f(&object.transform, comp)),
            None => None,
        }
    }

    /// The transform and local-lights component of the local-lights role, handed to `f`
    /// for changing; the rest of the scene stays as it is.
    pub fn with_local_lights_mut<R, F: FnOnce(&mut D::Transform, &mut LocalLightsComponent<D>) -> R>(&mut self, f: F) -> (r: Option<R>)
        requires
            forall|t: &mut D::Transform, c: &mut LocalLightsComponent<D>| f.requires((t, c)),
        ensures
            match role_of(old(self).game_objects@, BuiltinGameObjectKind::LocalLights) {
                Some(p) => {
                    let a = old(self).game_objects@;
                    let b = final(self).game_objects@;
                    &&& r is Some
                    &&& b.len() == a.len()
                    &&& forall|j: int| 0 <= j < a.len() && j != p.0 ==> #[trigger] b[j] == a[j]
                    &&& b[p.0].id == a[p.0].id
                    &&& b[p.0].name == a[p.0].name
                    &&& b[p.0].enabled == a[p.0].enabled
                    &&& b[p.0].builtin == a[p.0].builtin
                    &&& b[p.0].parent == a[p.0].parent
                    &&& b[p.0].components@.len() == a[p.0].components@.len()
                    &&& forall|c: int| 0 <= c < a[p.0].components@.len() && c != p.1 ==> #[trigger] b[p.0].components@[c] == a[p.0].components@[c]
                    &&& b[p.0].components@[p.1] is LocalLights
                    &&& exists|t: &mut D::Transform, c: &mut LocalLightsComponent<D>|
                        *t == a[p.0].transform && a[p.0].components@[p.1] == SceneComponent::LocalLights(*c)
                        && #[trigger] call_ensures(f, (t, c), r->0)
                        && *final(t) == b[p.0].transform && b[p.0].components@[p.1] == SceneComponent::LocalLights(*final(c))
                },
                None => r is None && *final(self) == *old(self),
            },
            final(self).next_game_object_id == old(self).next_game_object_id,
            final(self).render_settings == old(self).render_settings,
            final(self).ibl == old(self).ibl,
    {
        proof {
            lemma_role_kind(self.game_objects@, BuiltinGameObjectKind::LocalLights);
        }
        let (g, c) = match self.role_index(BuiltinGameObjectKind::LocalLights) {
            Some(p) => p,
            None => return None,
        };
        let ghost a = self.game_objects@;
        let object = &mut self.game_objects[g];
        match object.components[c].as_local_lights_mut() {
            Some(comp) => {
                let ghost c0 = *comp;
                let t = &mut object.transform;
                let res = f(t, comp);
                let ghost ft = *final(t);
                let ghost fc = *final(comp);
                let ghost (tr, cr) = choose|tr: &mut D::Transform, cr: &mut LocalLightsComponent<D>|
                    call_ensures(f, (tr, cr), res) && *tr == a[g as int].transform && *cr == c0
                    && *final(tr) == ft && *final(cr) == fc;
                proof {
                    assert(object.transform == ft);
                    assert(object.components@[c as int] == SceneComponent::LocalLights(fc));
                }
                let r = Some(res);
                proof {
                    let b = self.game_objects@;
                    assert(b[g as int].transform == ft);
                    assert(b[g as int].components@[c as int] == SceneComponent::LocalLights(fc));
                    assert(a[g as int].components@[c as int] == SceneComponent::LocalLights(c0));
                    assert(call_ensures(f, (tr, cr), r->0) && *tr == a[g as int].transform && *cr == c0
                        && *final(tr) == ft && *final(cr) == fc);
                }
                r
            },
            None => None,
        }
    }


    /// Builds a scene from its stored parts. A stored scene of the older
    /// format (no objects, only mesh elements) gets one mesh object per
    /// element, named after its mesh. The result is normalized.
    pub fn from_stored(
        next_game_object_id: u64,
        game_objects: Vec<GameObject<D>>,
        render_settings: D::RenderSettings,
        ibl: Option<String>,
        elements: Vec<LegacySceneElement<D>>,
    ) -> (r: Self)
        ensures
            r.render_settings == render_settings,
            r.ibl == ibl,
            exists|base: Seq<GameObject<D>>, nb: u64, mid: Seq<GameObject<D>>, n1: u64|
                #[trigger] ids_normalized(base, nb, mid, n1)
                && singletons_ensured(mid, n1, r.game_objects@, r.next_game_object_id)
                && (game_objects@.len() > 0 || elements@.len() == 0 ==> base == game_objects@ && nb == next_game_object_id)
                && (game_objects@.len() == 0 && elements@.len() > 0 ==> {
                    &&& base.len() == elements@.len()
                    &&& next_game_object_id as int + elements@.len() < u64::MAX ==> nb == allocated_id(next_game_object_id) + elements@.len()
                    &&& next_game_object_id as int + elements@.len() < u64::MAX ==> forall|i: int| 0 <= i < base.len() ==> {
                        &&& (#[trigger] base[i]).id.0 == allocated_id(next_game_object_id) + i
                        &&& base[i].name@ == object_name(base[i].id, mesh_object_name(mesh_source_path(elements@[i].source)))
                        &&& base[i].transform == elements@[i].transform
                        &&& base[i].parent is None
                        &&& base[i].components@.len() == 1
                        &&& base[i].components@[0] matches SceneComponent::MeshRenderer(m) && m.source == elements@[i].source && m.enabled
                    }
                }),
    {
        let legacy = game_objects.len() == 0 && elements.len() > 0;
        let mut scene = SceneState { next_game_object_id, game_objects, render_settings, ibl };
        if legacy {
            let ghost els = elements@;
            let ghost fresh = next_game_object_id as int + els.len() < u64::MAX;
            assert(scene.game_objects@.len() == 0);
            for element in it: elements
                invariant
                    it.seq() == els,
                    fresh == (next_game_object_id as int + els.len() < u64::MAX),
                    scene.game_objects@.len() == it.index(),
                    scene.render_settings == render_settings,
                    scene.ibl == ibl,
                    fresh ==> scene.next_game_object_id as int <= next_game_object_id as int + it.index() + 1,
                    fresh ==> scene.next_game_object_id == (if it.index() == 0 {
                        next_game_object_id
                    } else {
                        (allocated_id(next_game_object_id) + it.index()) as u64
                    }),
                    fresh ==> ids_below(scene.game_objects@, scene.next_game_object_id),
                    fresh ==> forall|i: int| 0 <= i < it.index() ==> {
                        let o = #[trigger] scene.game_objects@[i];
                        &&& o.id.0 == allocated_id(next_game_object_id) + i
                        &&& o.name@ == object_name(o.id, mesh_object_name(mesh_source_path(els[i].source)))
                        &&& o.transform == els[i].transform
                        &&& o.parent is None
                        &&& o.components@.len() == 1
                        &&& o.components@[0] matches SceneComponent::MeshRenderer(m) && m.source == els[i].source && m.enabled
                    },
            {
                assert(it.index() < els.len());
                let name = element.source.default_game_object_name();
                let component = MeshRendererComponent::new(element.source);
                let ghost before = scene.game_objects@;
                let ghost nbefore = scene.next_game_object_id;
                let id = scene.create_object_with(name.as_str(), element.transform, SceneComponent::MeshRenderer(component));
                proof {
                    let f = scene.game_objects@;
                    let mid = choose|mid: Seq<GameObject<D>>| #[trigger] object_appended(before, mid, id, name@, element.transform)
                        && component_added(mid, f, id, SceneComponent::MeshRenderer(component));
                    lemma_create_keeps_prefix(before, mid, f, id, name@, element.transform, SceneComponent::MeshRenderer(component));
                    if fresh {
                        assert(nbefore < u64::MAX);
                        assert(f.drop_last() == before);
                        assert forall|i: int| 0 <= i < it.index() + 1 implies ({
                            let o = #[trigger] f[i];
                            &&& o.id.0 == allocated_id(next_game_object_id) + i
                            &&& o.name@ == object_name(o.id, mesh_object_name(mesh_source_path(els[i].source)))
                            &&& o.transform == els[i].transform
                            &&& o.parent is None
                            &&& o.components@.len() == 1
                            &&& o.components@[0] matches SceneComponent::MeshRenderer(m) && m.source == els[i].source && m.enabled
                        }) by {
                            if i < before.len() {
                                assert(f.drop_last()[i] == f[i]);
                            } else {
                                assert(f[i].id == id);
                                assert(element == els[i]);
                                assert(mid.last().name@ == object_name(id, name@));
                                lemma_find_index(mid, id);
                                assert(f.last().components@ == seq![SceneComponent::MeshRenderer(component)]);
                                assert(f[i].name == mid[i].name);
                            }
                        }
                        assert forall|i: int| 0 <= i < f.len() implies (#[trigger] f[i]).id.0 < scene.next_game_object_id by {
                            if i < before.len() {
                                assert(f[i].id == before[i].id);
                            }
                        }
                    }
                }
            }
        }
        let ghost base = scene.game_objects@;
        let ghost nb = scene.next_game_object_id;
        scene.normalize();
        proof {
            let (mid, n1) = choose|mid: Seq<GameObject<D>>, n1: u64| #[trigger] ids_normalized(base, nb, mid, n1)
                && singletons_ensured(mid, n1, scene.game_objects@, scene.next_game_object_id);
            assert(ids_normalized(base, nb, mid, n1));
        }
        scene
    }

}

impl<D: SceneData> Default for SceneState<D> {
    fn default() -> (r: Self)
        ensures
            singletons_ensured(Seq::empty(), 1, r.game_objects@, r.next_game_object_id),
            ids_below(r.game_objects@, r.next_game_object_id),
            r.ibl is None,
            r.game_objects@.len() == 3,
            r.next_game_object_id == 4,
            forall|j: int| 0 <= j < 3 ==> #[trigger] is_default_singleton(r.game_objects@[j], j),
    {
        SceneState::new()
    }
}

// ----- world transforms -----

/// The objects whose transforms make up the world transform of `x`, walking up
/// from `x`: each present object in turn, up to an object without a parent or
/// with a missing parent, or up to the first object met a second time (which
/// is included once more).
pub open spec fn chain_from<D: SceneData>(
    objs: Seq<GameObject<D>>,
    x: GameObjectId,
    visited: Seq<GameObjectId>,
    fuel: nat,
) -> Seq<GameObjectId>
    decreases fuel,
{
    if fuel == 0 || !has_id(objs, x) {
        Seq::empty()
    } else if visited.contains(x) {
        seq![x]
    } else {
        match parent_link(objs, x) {
            None => seq![x],
            Some(p) => seq![x] + chain_from(objs, p, visited.push(x), (fuel - 1) as nat),
        }
    }
}

/// The chain of `id`: enough steps are allowed for the walk to end by itself.
pub open spec fn world_chain<D: SceneData>(objs: Seq<GameObject<D>>, id: GameObjectId) -> Seq<GameObjectId> {
    chain_from(objs, id, Seq::empty(), objs.len() + 1)
}

/// The transform of the first object with id `x`.
pub open spec fn transform_of<D: SceneData>(objs: Seq<GameObject<D>>, x: GameObjectId) -> D::Transform {
    objs[find_index(objs, x)->0].transform
}

impl<D: SceneData> SceneState<D> {
    /// The local transforms whose product, last one first, is the world
    /// transform of `id`: the object's own, then its parent's, and so on up
    /// the hierarchy (see [`chain_from`]); empty when there is no such object.
    pub fn world_transform_chain(&self, id: GameObjectId) -> (r: Vec<D::Transform>)
        ensures
            r@ == world_chain(self.game_objects@, id).map_values(|x: GameObjectId| transform_of(self.game_objects@, x)),
    {
        let ghost objs = self.game_objects@;
        let ghost total = objs.len() + 1;
        let ghost tf = |x: GameObjectId| transform_of(objs, x);
        let mut visited: Vec<GameObjectId> = Vec::new();
        let mut out: Vec<D::Transform> = Vec::new();
        let mut x = id;
        assert(world_chain(objs, id) == visited@ + chain_from(objs, x, visited@, total as nat));
        loop
            invariant_except_break
                out@ == visited@.map_values(tf),
            invariant
                objs == self.game_objects@,
                total == objs.len() + 1,
                tf == (|x: GameObjectId| transform_of(objs, x)),
                visited@.no_duplicates(),
                forall|k: int| 0 <= k < visited@.len() ==> has_id(objs, #[trigger] visited@[k]),
                visited@.len() <= objs.len(),
                world_chain(objs, id) == visited@ + chain_from(objs, x, visited@, (total - visited@.len()) as nat),
            ensures
                out@ == world_chain(objs, id).map_values(tf),
            decreases total - visited@.len(),
        {
            let fuel = Ghost((total - visited@.len()) as nat);
            proof {
                lemma_find_index(objs, x);
            }
            let i = match self.find_game_object_index(x) {
                Some(i) => i,
                None => {
                    assert(chain_from(objs, x, visited@, fuel@) =~= Seq::<GameObjectId>::empty());
                    assert(world_chain(objs, id) =~= visited@);
                    break;
                },
            };
            let t = self.game_objects[i].transform;
            let parent = self.game_objects[i].parent;
            assert(t == transform_of(objs, x));
            if contains_id(&visited, x) {
                out.push(t);
                proof {
                    assert(chain_from(objs, x, visited@, fuel@) == seq![x]);
                    assert(world_chain(objs, id) =~= visited@.push(x));
                    assert(out@ =~= visited@.push(x).map_values(tf));
                }
                break;
            }
            proof {
                let ext = visited@.push(x);
                assert(ext.no_duplicates());
                assert forall|k: int| 0 <= k < ext.len() implies object_ids(objs).contains(#[trigger] ext[k]) by {
                    let j = if k < visited@.len() {
                        choose|j: int| 0 <= j < objs.len() && (#[trigger] objs[j]).id == ext[k]
                    } else {
                        i as int
                    };
                    assert(object_ids(objs)[j] == ext[k]);
                }
                lemma_distinct_bound(ext, object_ids(objs));
            }
            out.push(t);
            match parent {
                None => {
                    proof {
                        assert(parent_link(objs, x) is None);
                        assert(world_chain(objs, id) =~= visited@.push(x));
                        assert(out@ =~= visited@.push(x).map_values(tf));
                    }
                    break;
                },
                Some(p) => {
                    proof {
                        assert(parent_link(objs, x) == Some(p));
                        assert(chain_from(objs, x, visited@, fuel@) == seq![x] + chain_from(
                            objs,
                            p,
                            visited@.push(x),
                            (fuel@ - 1) as nat,
                        ));
                        assert(visited@ + (seq![x] + chain_from(objs, p, visited@.push(x), (fuel@ - 1) as nat))
                            =~= visited@.push(x) + chain_from(objs, p, visited@.push(x), (fuel@ - 1) as nat));
                    }
                    visited.push(x);
                    x = p;
                    proof {
                        assert(out@ =~= visited@.map_values(tf));
                    }
                },
            }
        }
        out
    }
}

// ---------------------------------------------------------------------------
// Inspector helpers
// ---------------------------------------------------------------------------

/// The objects among the first `n` of `objs`, in order, that `child` may be
/// moved under, each with its name.
pub open spec fn reparent_candidates_upto<D: SceneData>(
    objs: Seq<GameObject<D>>,
    child: GameObjectId,
    n: int,
) -> Seq<(GameObjectId, Seq<char>)>
    decreases n,
{
    if n <= 0 {
        Seq::empty()
    } else {
        let prev = reparent_candidates_upto(objs, child, n - 1);
        let o = objs[n - 1];
        if o.id != child && can_reparent(objs, child, Some(o.id)) {
            prev.push((o.id, o.name@))
        } else {
            prev
        }
    }
}

/// Every object of the scene that `child` may be moved under, in scene order.
pub open spec fn reparent_candidate_list<D: SceneData>(
    objs: Seq<GameObject<D>>,
    child: GameObjectId,
) -> Seq<(GameObjectId, Seq<char>)> {
    reparent_candidates_upto(objs, child, objs.len() as int)
}

/// How the inspector names the parent of `id`: `<name> (<id>)`, only the
/// parent's id when no object carries it, or `<root>` at the top level.
pub open spec fn parent_label_text<D: SceneData>(objs: Seq<GameObject<D>>, id: GameObjectId) -> Seq<char> {
    let parent = match find_index(objs, id) {
        Some(i) => objs[i].parent,
        None => None,
    };
    match parent {
        None => "<root>"@,
        Some(p) => match find_index(objs, p) {
            Some(j) => objs[j].name@ + " ("@ + decimal(objs[j].id.0 as nat) + ")"@,
            None => decimal(p.0 as nat),
        },
    }
}

/// Component `c` of `o` is what makes `o` a builtin singleton: the inspector
/// protects it from removal.
pub open spec fn component_protected<D: SceneData>(o: GameObject<D>, c: int) -> bool {
    match o.builtin {
        Some(k) => builtin_matches(k, o.components@[c]),
        None => false,
    }
}

/// The object `id` exists, has a component at `c`, and that component is not
/// protected.
pub open spec fn can_remove_component<D: SceneData>(objs: Seq<GameObject<D>>, id: GameObjectId, c: int) -> bool {
    match find_index(objs, id) {
        Some(i) => 0 <= c < objs[i].components@.len() && !component_protected(objs[i], c),
        None => false,
    }
}

/// `b` is `a` with component `c` of the object at `i` taken out.
pub open spec fn component_removed<D: SceneData>(a: Seq<GameObject<D>>, b: Seq<GameObject<D>>, i: int, c: int) -> bool {
    &&& b.len() == a.len()
    &&& forall|j: int| 0 <= j < a.len() && j != i ==> #[trigger] b[j] == a[j]
    &&& same_but_components(b[i], a[i])
    &&& b[i].components@ == a[i].components@.remove(c)
}

impl<D: SceneData> SceneState<D> {
    /// The objects that `child_id` may be moved under, in scene order, each
    /// with its name: every other object for which `can_reparent_game_object`
    /// holds.
    pub fn reparent_candidates(&self, child_id: GameObjectId) -> (r: Vec<(GameObjectId, String)>)
        ensures
            r@.len() == reparent_candidate_list(self.game_objects@, child_id).len(),
            forall|k: int|
                0 <= k < r@.len() ==> {
                    let c = #[trigger] reparent_candidate_list(self.game_objects@, child_id)[k];
                    r@[k].0 == c.0 && r@[k].1@ == c.1
                },
    {
        let ghost objs = self.game_objects@;
        let mut out: Vec<(GameObjectId, String)> = Vec::new();
        let n = self.game_objects.len();
        let mut i: usize = 0;
        while i < n
            invariant
                objs == self.game_objects@,
                n == objs.len(),
                i <= n,
                out@.len() == reparent_candidates_upto(objs, child_id, i as int).len(),
                forall|k: int|
                    0 <= k < out@.len() ==> {
                        let c = #[trigger] reparent_candidates_upto(objs, child_id, i as int)[k];
                        out@[k].0 == c.0 && out@[k].1@ == c.1
                    },
            decreases n - i,
        {
            let candidate = &self.game_objects[i];
            let ghost prev = reparent_candidates_upto(objs, child_id, i as int);
            if candidate.id != child_id && self.can_reparent_game_object(child_id, Some(candidate.id)) {
                out.push((candidate.id, string_from(candidate.name.as_str())));
                proof {
                    assert(reparent_candidates_upto(objs, child_id, i + 1) == prev.push(
                        (candidate.id, candidate.name@),
                    ));
                }
            } else {
                proof {
                    assert(reparent_candidates_upto(objs, child_id, i + 1) == prev);
                }
            }
            i = i + 1;
        }
        out
    }

    /// Removes the component at `component_index` of the object `id`, unless it
    /// is the component that makes the object a builtin singleton; after a
    /// removal the editor singletons are restored. Tells whether a component
    /// was removed; otherwise nothing changes.
    pub fn remove_component_at(&mut self, id: GameObjectId, component_index: usize) -> (r: bool)
        ensures
            r == can_remove_component(old(self).game_objects@, id, component_index as int),
            r ==> exists|mid: Seq<GameObject<D>>|
                #[trigger] component_removed(
                    old(self).game_objects@,
                    mid,
                    find_index(old(self).game_objects@, id)->0,
                    component_index as int,
                ) && singletons_ensured(
                    mid,
                    old(self).next_game_object_id,
                    final(self).game_objects@,
                    final(self).next_game_object_id,
                ),
            !r ==> *final(self) == *old(self),
            final(self).render_settings == old(self).render_settings,
            final(self).ibl == old(self).ibl,
    {
        let removable = match self.find_game_object(id) {
            Some(o) => component_index < o.components.len() && !match o.builtin {
                Some(k) => k.matches_component(&o.components[component_index]),
                None => false,
            },
            None => false,
        };
        if !removable {
            return false;
        }
        let ghost before = self.game_objects@;
        let ghost i = find_index(before, id)->0;
        proof {
            lemma_find_index(before, id);
            assert(find_index(before, id) is Some);
        }
        match self.find_game_object_mut(id) {
            Some(o) => {
                o.components.remove(component_index);
            },
            None => {},
        }
        let ghost mid = self.game_objects@;
        proof {
            assert(mid == before.update(i, mid[i]));
            assert(mid[i].components@ == before[i].components@.remove(component_index as int));
            assert(same_but_components(mid[i], before[i]));
            assert forall|j: int| 0 <= j < before.len() && j != i implies #[trigger] mid[j] == before[j] by {}
            assert(component_removed(before, mid, i, component_index as int));
        }
        self.refresh_editor_singletons();
        true
    }

    /// The inspector's name for the parent of `id`: the parent's name and id,
    /// only its id when no object carries it, or `<root>` for a top-level
    /// object (or an unknown `id`).
    pub fn parent_label(&self, id: GameObjectId) -> (r: String)
        ensures
            r@ == parent_label_text(self.game_objects@, id),
    {
        let parent = match self.find_game_object(id) {
            Some(o) => o.parent,
            None => None,
        };
        match parent {
            None => string_from("<root>"),
            Some(p) => match self.find_game_object(p) {
                Some(o) => {
                    let mut label = string_from(o.name.as_str());
                    string_append(&mut label, " (");
                    append_u64(&mut label, o.id.0);
                    string_append(&mut label, ")");
                    label
                },
                None => u64_to_decimal(p.0),
            },
        }
    }
}

} // verus!
