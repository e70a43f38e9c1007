//! How objects are listed in the editor's hierarchy panel.
use vstd::prelude::*;
use crate::scene::{component_kind_name, GameObject, GameObjectId, SceneComponent, SceneData, SceneState};
use crate::text::{string_append, string_from, string_push};

verus! {

pub open spec fn component_icon<D: SceneData>(c: SceneComponent<D>) -> Seq<char> {
    match c {
        SceneComponent::Camera(_) => "\u{1F3A5}"@,
        SceneComponent::Sun(_) => "\u{2600}"@,
        SceneComponent::LocalLights(_) => "\u{1F4A1}"@,
        SceneComponent::MeshRenderer(_) => "\u{25A6}"@,
    }
}

/// The icon of an object: that of its first component, or an empty square.
pub open spec fn object_icon<D: SceneData>(o: GameObject<D>) -> Seq<char> {
    if o.components@.len() > 0 {
        component_icon(o.components@[0])
    } else {
        "\u{25A1}"@
    }
}

/// The icon shown before an object in the hierarchy.
pub fn hierarchy_icon<D: SceneData>(game_object: &GameObject<D>) -> (r: &'static str)
    ensures
        r@ == object_icon(*game_object),
{
    if game_object.components.len() > 0 {
        match &game_object.components[0] {
            SceneComponent::Camera(_) => "\u{1F3A5}",
            SceneComponent::Sun(_) => "\u{2600}",
            SceneComponent::LocalLights(_) => "\u{1F4A1}",
            SceneComponent::MeshRenderer(_) => "\u{25A6}",
        }
    } else {
        "\u{25A1}"
    }
}

/// A camera, sun or local lights component: one of the roles of the editor
/// singletons.
pub open spec fn is_role_component<D: SceneData>(c: SceneComponent<D>) -> bool {
    c is Camera || c is Sun || c is LocalLights
}

/// Whether the object holds a camera, sun or local lights component.
pub fn game_object_has_scene_role_component<D: SceneData>(game_object: &GameObject<D>) -> (r: bool)
    ensures
        r == exists|i: int| 0 <= i < game_object.components@.len() && is_role_component(#[trigger] game_object.components@[i]),
{
    let n = game_object.components.len();
    let mut i: usize = 0;
    while i < n
        invariant
            n == game_object.components@.len(),
            i <= n,
            forall|j: int| 0 <= j < i ==> !is_role_component(#[trigger] game_object.components@[j]),
        decreases n - i,
    {
        match &game_object.components[i] {
            SceneComponent::MeshRenderer(_) => {},
            _ => {
                assert(is_role_component(game_object.components@[i as int]));
                return true;
            },
        }
        i = i + 1;
    }
    false
}

/// The kind names of the components, separated by `, `.
pub open spec fn summary_text<D: SceneData>(components: Seq<SceneComponent<D>>) -> Seq<char>
    decreases components.len(),
{
    if components.len() == 0 {
        Seq::empty()
    } else if components.len() == 1 {
        component_kind_name(components[0])
    } else {
        summary_text(components.drop_last()) + ", "@ + component_kind_name(components.last())
    }
}

/// The kinds of the object's components, as in `Camera, Mesh Renderer`.
pub fn game_object_component_summary<D: SceneData>(game_object: &GameObject<D>) -> (r: String)
    ensures
        r@ == summary_text(game_object.components@),
{
    let comps = &game_object.components;
    let mut s = String::new();
    let mut i: usize = 0;
    while i < comps.len()
        invariant
            i <= comps@.len(),
            s@ == summary_text(comps@.take(i as int)),
        decreases comps@.len() - i,
    {
        proof {
            assert(comps@.take(i + 1).drop_last() =~= comps@.take(i as int));
            assert(comps@.take(i + 1).last() == comps@[i as int]);
        }
        if i > 0 {
            string_append(&mut s, ", ");
        } else {
            assert(s@ =~= Seq::<char>::empty());
        }
        string_append(&mut s, comps[i].kind_name());
        i = i + 1;
    }
    assert(comps@.take(comps@.len() as int) =~= comps@);
    s
}

/// `n` copies of four spaces.
pub open spec fn indent(n: nat) -> Seq<char>
    decreases n,
{
    if n == 0 {
        Seq::empty()
    } else {
        indent((n - 1) as nat) + "    "@
    }
}

/// The line of an object in the hierarchy: indentation by depth, a marker
/// telling whether it has children, `[off]` when disabled, the name, and the
/// component summary in brackets when there are components.
pub open spec fn hierarchy_label_text<D: SceneData>(o: GameObject<D>, depth: nat, has_children: bool) -> Seq<char> {
    let head = indent(depth) + (if has_children {
        "> "@
    } else {
        "- "@
    }) + (if !o.enabled {
        "[off] "@
    } else {
        Seq::empty()
    }) + o.name@;
    let summary = summary_text(o.components@);
    if summary.len() > 0 {
        head + " ["@ + summary + "]"@
    } else {
        head
    }
}

pub fn hierarchy_label<D: SceneData>(game_object: &GameObject<D>, depth: usize, has_children: bool) -> (r: String)
    ensures
        r@ == hierarchy_label_text(*game_object, depth as nat, has_children),
{
    let mut label = String::new();
    let mut d: usize = 0;
    while d < depth
        invariant
            d <= depth,
            label@ == indent(d as nat),
        decreases depth - d,
    {
        string_append(&mut label, "    ");
        d = d + 1;
    }
    if has_children {
        string_append(&mut label, "> ");
    } else {
        string_append(&mut label, "- ");
    }
    if !game_object.enabled {
        string_append(&mut label, "[off] ");
    } else {
        assert(label@ + Seq::<char>::empty() =~= label@);
    }
    string_append(&mut label, game_object.name.as_str());
    let summary = game_object_component_summary(game_object);
    if summary.as_str().unicode_len() > 0 {
        string_append(&mut label, " [");
        string_append(&mut label, summary.as_str());
        string_push(&mut label, ']');
        proof {
            reveal_strlit("]");
            assert(seq![']'] =~= "]"@);
        }
    }
    label
}

/// The ids of the first `n` objects whose parent is `parent`, in scene order.
pub open spec fn children_upto<D: SceneData>(
    objs: Seq<GameObject<D>>,
    parent: Option<GameObjectId>,
    n: int,
) -> Seq<GameObjectId>
    decreases n,
{
    if n <= 0 {
        Seq::empty()
    } else {
        let prev = children_upto(objs, parent, n - 1);
        if objs[n - 1].parent == parent {
            prev.push(objs[n - 1].id)
        } else {
            prev
        }
    }
}

/// The ids of the objects listed under `parent` in the hierarchy (the
/// top-level objects for `None`), in scene order.
pub open spec fn hierarchy_children_of<D: SceneData>(objs: Seq<GameObject<D>>, parent: Option<GameObjectId>) -> Seq<GameObjectId> {
    children_upto(objs, parent, objs.len() as int)
}

/// The objects the hierarchy lists under `parent`, or at the top level for
/// `None`: those whose parent it is, in scene order.
pub fn hierarchy_children<D: SceneData>(scene: &SceneState<D>, parent: Option<GameObjectId>) -> (r: Vec<GameObjectId>)
    ensures
        r@ == hierarchy_children_of(scene.game_objects@, parent),
{
    let ghost objs = scene.game_objects@;
    let mut out: Vec<GameObjectId> = Vec::new();
    let n = scene.game_objects.len();
    let mut i: usize = 0;
    while i < n
        invariant
            objs == scene.game_objects@,
            n == objs.len(),
            i <= n,
            out@ == children_upto(objs, parent, i as int),
        decreases n - i,
    {
        let o = &scene.game_objects[i];
        if o.parent == parent {
            out.push(o.id);
        }
        i = i + 1;
    }
    out
}

} // verus!
