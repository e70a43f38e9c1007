//! What the renderer holds for a scene: the meshes it has loaded, by path, and
//! the render instance it keeps for each mesh renderer component.
//!
//! The handles are the renderer's own; this bookkeeping only stores and hands
//! them back.
use vstd::prelude::*;
use crate::scene::{GameObjectId, SceneComponent, SceneData, SceneState};
use crate::text::{append_hex_padded, hex, right_aligned, str_equals, string_append, string_from};

verus! {

/// The render instance kept for one mesh renderer: the component at
/// `component_index` on the object `object`.
#[derive(Debug, Clone, Copy)]
pub struct InstanceBinding<I> {
    pub object: GameObjectId,
    pub component_index: usize,
    pub instance: I,
}

/// Loaded meshes by path, and render instances by mesh renderer component.
pub struct RuntimeScene<M, I> {
    known_meshes: Vec<(String, M)>,
    render_instances: Vec<InstanceBinding<I>>,
}

pub open spec fn binding_has_key<I>(b: InstanceBinding<I>, object: GameObjectId, component_index: usize) -> bool {
    b.object == object && b.component_index == component_index
}

/// The instance bound to a component, if any (the first binding for it).
pub open spec fn bound_instance<I>(bindings: Seq<InstanceBinding<I>>, object: GameObjectId, component_index: usize) -> Option<I>
    decreases bindings.len(),
{
    if bindings.len() == 0 {
        None
    } else if binding_has_key(bindings[0], object, component_index) {
        Some(bindings[0].instance)
    } else {
        bound_instance(bindings.drop_first(), object, component_index)
    }
}

/// The mesh remembered for a path, if any (the first entry for it).
pub open spec fn remembered_mesh<M>(meshes: Seq<(String, M)>, path: Seq<char>) -> Option<M>
    decreases meshes.len(),
{
    if meshes.len() == 0 {
        None
    } else if meshes[0].0@ == path {
        Some(meshes[0].1)
    } else {
        remembered_mesh(meshes.drop_first(), path)
    }
}

/// Whether `desired` lists the component of binding `b`.
pub open spec fn is_desired<I>(desired: Seq<(GameObjectId, usize)>, b: InstanceBinding<I>) -> bool {
    desired.contains((b.object, b.component_index))
}

pub open spec fn desired_pred<I>(desired: Seq<(GameObjectId, usize)>) -> spec_fn(InstanceBinding<I>) -> bool {
    |b: InstanceBinding<I>| is_desired(desired, b)
}

pub open spec fn stale_pred<I>(desired: Seq<(GameObjectId, usize)>) -> spec_fn(InstanceBinding<I>) -> bool {
    |b: InstanceBinding<I>| !is_desired(desired, b)
}

pub open spec fn instances_of<I>(bindings: Seq<InstanceBinding<I>>) -> Seq<I> {
    bindings.map_values(|b: InstanceBinding<I>| b.instance)
}

/// No two bindings are for the same component.
pub open spec fn binding_keys_unique<I>(bindings: Seq<InstanceBinding<I>>) -> bool {
    forall|i: int, j: int|
        0 <= i < j < bindings.len() ==> !binding_has_key(
            #[trigger] bindings[j],
            (#[trigger] bindings[i]).object,
            bindings[i].component_index,
        )
}

/// No path is remembered twice.
pub open spec fn mesh_paths_unique<M>(meshes: Seq<(String, M)>) -> bool {
    forall|i: int, j: int| 0 <= i < j < meshes.len() ==> (#[trigger] meshes[i]).0@ != (#[trigger] meshes[j]).0@
}

proof fn lemma_bound_instance_at<I>(bindings: Seq<InstanceBinding<I>>, object: GameObjectId, component_index: usize, i: int)
    requires
        0 <= i < bindings.len(),
        binding_has_key(bindings[i], object, component_index),
        forall|j: int| 0 <= j < i ==> !binding_has_key(#[trigger] bindings[j], object, component_index),
    ensures
        bound_instance(bindings, object, component_index) == Some(bindings[i].instance),
    decreases i,
{
    if i > 0 {
        assert(!binding_has_key(bindings[0], object, component_index));
        let rest = bindings.drop_first();
        assert forall|j: int| 0 <= j < i - 1 implies !binding_has_key(#[trigger] rest[j], object, component_index) by {
            assert(rest[j] == bindings[j + 1]);
        }
        lemma_bound_instance_at(rest, object, component_index, i - 1);
    }
}

proof fn lemma_bound_instance_none<I>(bindings: Seq<InstanceBinding<I>>, object: GameObjectId, component_index: usize)
    requires
        forall|j: int| 0 <= j < bindings.len() ==> !binding_has_key(#[trigger] bindings[j], object, component_index),
    ensures
        bound_instance(bindings, object, component_index) is None,
    decreases bindings.len(),
{
    if bindings.len() > 0 {
        let rest = bindings.drop_first();
        assert(!binding_has_key(bindings[0], object, component_index));
        assert forall|j: int| 0 <= j < rest.len() implies !binding_has_key(#[trigger] rest[j], object, component_index) by {
            assert(rest[j] == bindings[j + 1]);
        }
        lemma_bound_instance_none(rest, object, component_index);
    }
}

proof fn lemma_remembered_mesh_at<M>(meshes: Seq<(String, M)>, path: Seq<char>, i: int)
    requires
        0 <= i < meshes.len(),
        meshes[i].0@ == path,
        forall|j: int| 0 <= j < i ==> (#[trigger] meshes[j]).0@ != path,
    ensures
        remembered_mesh(meshes, path) == Some(meshes[i].1),
    decreases i,
{
    if i > 0 {
        let rest = meshes.drop_first();
        assert(meshes[0].0@ != path);
        assert forall|j: int| 0 <= j < i - 1 implies (#[trigger] rest[j]).0@ != path by {
            assert(rest[j] == meshes[j + 1]);
        }
        lemma_remembered_mesh_at(rest, path, i - 1);
    }
}

proof fn lemma_remembered_mesh_none<M>(meshes: Seq<(String, M)>, path: Seq<char>)
    requires
        forall|j: int| 0 <= j < meshes.len() ==> (#[trigger] meshes[j]).0@ != path,
    ensures
        remembered_mesh(meshes, path) is None,
    decreases meshes.len(),
{
    if meshes.len() > 0 {
        let rest = meshes.drop_first();
        assert(meshes[0].0@ != path);
        assert forall|j: int| 0 <= j < rest.len() implies (#[trigger] rest[j]).0@ != path by {
            assert(rest[j] == meshes[j + 1]);
        }
        lemma_remembered_mesh_none(rest, path);
    }
}

impl<M, I> RuntimeScene<M, I> {
    /// The render instances, in the order they were bound.
    pub closed spec fn bindings(&self) -> Seq<InstanceBinding<I>> {
        self.render_instances@
    }

    /// The loaded meshes with their paths, in the order they were loaded.
    pub closed spec fn meshes(&self) -> Seq<(String, M)> {
        self.known_meshes@
    }

    /// Each component has at most one render instance, and each path at most
    /// one mesh: the bindings and the meshes are maps.
    pub open spec fn keys_unique(&self) -> bool {
        binding_keys_unique(self.bindings()) && mesh_paths_unique(self.meshes())
    }

    pub fn new() -> (r: Self)
        ensures
            r.bindings().len() == 0,
            r.meshes().len() == 0,
            r.keys_unique(),
    {
        RuntimeScene { known_meshes: Vec::new(), render_instances: Vec::new() }
    }

    /// Forgets every render instance and hands them back, in binding order, for
    /// the renderer to remove. The loaded meshes stay.
    pub fn clear(&mut self) -> (removed: Vec<I>)
        ensures
            removed@ == instances_of(old(self).bindings()),
            final(self).bindings().len() == 0,
            final(self).meshes() == old(self).meshes(),
            old(self).keys_unique() ==> final(self).keys_unique(),
    {
        let mut bindings: Vec<InstanceBinding<I>> = Vec::new();
        std::mem::swap(&mut bindings, &mut self.render_instances);
        let ghost all = bindings@;
        let mut removed: Vec<I> = Vec::new();
        for b in it: bindings
            invariant
                it.seq() == all,
                removed@ == instances_of(all.take(it.index() as int)),
        {
            proof {
                let i = it.index() as int;
                assert(b == all[i]);
                assert(all.take(i + 1) =~= all.take(i).push(all[i]));
                assert(instances_of(all.take(i + 1)) =~= instances_of(all.take(i)).push(b.instance));
            }
            removed.push(b.instance);
        }
        assert(all.take(all.len() as int) =~= all);
        removed
    }

    fn find_binding(&self, object: GameObjectId, component_index: usize) -> (r: Option<usize>)
        ensures
            match r {
                Some(i) => i < self.bindings().len() && binding_has_key(self.bindings()[i as int], object, component_index)
                    && forall|j: int| 0 <= j < i ==> !binding_has_key(#[trigger] self.bindings()[j], object, component_index),
                None => forall|j: int| 0 <= j < self.bindings().len() ==> !binding_has_key(#[trigger] self.bindings()[j], object, component_index),
            },
    {
        let mut i: usize = 0;
        while i < self.render_instances.len()
            invariant
                i <= self.render_instances@.len(),
                forall|j: int| 0 <= j < i ==> !binding_has_key(#[trigger] self.render_instances@[j], object, component_index),
            decreases self.render_instances@.len() - i,
        {
            let b = &self.render_instances[i];
            if b.object == object && b.component_index == component_index {
                return Some(i);
            }
            i = i + 1;
        }
        None
    }

    /// The instance kept for the component `component_index` of `object`.
    pub fn instance_for(&self, object: GameObjectId, component_index: usize) -> (r: Option<I>)
        where I: Copy,
        ensures
            r == bound_instance(self.bindings(), object, component_index),
    {
        match self.find_binding(object, component_index) {
            Some(i) => {
                proof {
                    lemma_bound_instance_at(self.bindings(), object, component_index, i as int);
                }
                Some(self.render_instances[i].instance)
            },
            None => {
                proof {
                    lemma_bound_instance_none(self.bindings(), object, component_index);
                }
                None
            },
        }
    }

    /// Keeps `instance` for the component `component_index` of `object`,
    /// in place of the one kept before, if any.
    pub fn bind_instance(&mut self, object: GameObjectId, component_index: usize, instance: I)
        ensures
            bound_instance(final(self).bindings(), object, component_index) == Some(instance),
            forall|o: GameObjectId, c: usize| !(o == object && c == component_index) ==> #[trigger] bound_instance(
                final(self).bindings(),
                o,
                c,
            ) == bound_instance(old(self).bindings(), o, c),
            final(self).meshes() == old(self).meshes(),
            old(self).keys_unique() ==> final(self).keys_unique(),
    {
        let ghost before = self.render_instances@;
        let binding = InstanceBinding { object, component_index, instance };
        match self.find_binding(object, component_index) {
            Some(i) => {
                self.render_instances.set(i, binding);
                proof {
                    let after = self.render_instances@;
                    assert forall|j: int| 0 <= j < i implies !binding_has_key(#[trigger] after[j], object, component_index) by {
                        assert(after[j] == before[j]);
                    }
                    lemma_bound_instance_at(after, object, component_index, i as int);
                    assert forall|o: GameObjectId, c: usize| !(o == object && c == component_index) implies #[trigger] bound_instance(
                        after,
                        o,
                        c,
                    ) == bound_instance(before, o, c) by {
                        lemma_bound_instance_swap(before, after, i as int, o, c);
                    }
                    assert(binding_keys_unique(before) ==> binding_keys_unique(after)) by {
                        if binding_keys_unique(before) {
                            assert forall|a: int, b: int| 0 <= a < b < after.len() implies !binding_has_key(
                                #[trigger] after[b],
                                (#[trigger] after[a]).object,
                                after[a].component_index,
                            ) by {
                                assert(binding_has_key(after[b], after[a].object, after[a].component_index)
                                    == binding_has_key(before[b], before[a].object, before[a].component_index));
                            }
                        }
                    }
                }
            },
            None => {
                self.render_instances.push(binding);
                proof {
                    let after = self.render_instances@;
                    assert forall|j: int| 0 <= j < before.len() implies !binding_has_key(#[trigger] after[j], object, component_index) by {
                        assert(after[j] == before[j]);
                    }
                    lemma_bound_instance_at(after, object, component_index, before.len() as int);
                    assert forall|o: GameObjectId, c: usize| !(o == object && c == component_index) implies #[trigger] bound_instance(
                        after,
                        o,
                        c,
                    ) == bound_instance(before, o, c) by {
                        lemma_bound_instance_push(before, binding, o, c);
                    }
                    assert(binding_keys_unique(before) ==> binding_keys_unique(after)) by {
                        if binding_keys_unique(before) {
                            assert forall|a: int, b: int| 0 <= a < b < after.len() implies !binding_has_key(
                                #[trigger] after[b],
                                (#[trigger] after[a]).object,
                                after[a].component_index,
                            ) by {
                                if b < before.len() {
                                    assert(after[a] == before[a] && after[b] == before[b]);
                                } else {
                                    assert(after[a] == before[a]);
                                    assert(!binding_has_key(before[a], object, component_index));
                                }
                            }
                        }
                    }
                }
            },
        }
    }

    /// Drops the bindings of components that `desired` does not list, and hands
    /// back their instances, in binding order, for the renderer to remove.
    pub fn retain_bindings(&mut self, desired: &[(GameObjectId, usize)]) -> (removed: Vec<I>)
        ensures
            final(self).bindings() == old(self).bindings().filter(desired_pred(desired@)),
            removed@ == instances_of(old(self).bindings().filter(stale_pred(desired@))),
            final(self).meshes() == old(self).meshes(),
            old(self).keys_unique() ==> final(self).keys_unique(),
    {
        let mut bindings: Vec<InstanceBinding<I>> = Vec::new();
        std::mem::swap(&mut bindings, &mut self.render_instances);
        let ghost all = bindings@;
        let ghost keep = desired_pred::<I>(desired@);
        let ghost drop = stale_pred::<I>(desired@);
        let mut removed: Vec<I> = Vec::new();
        proof {
            reveal(Seq::filter);
            assert(all.take(0).filter(keep) =~= Seq::<InstanceBinding<I>>::empty());
            assert(all.take(0).filter(drop) =~= Seq::<InstanceBinding<I>>::empty());
        }
        for b in it: bindings
            invariant
                it.seq() == all,
                keep == desired_pred::<I>(desired@),
                drop == stale_pred::<I>(desired@),
                self.render_instances@ == all.take(it.index() as int).filter(keep),
                removed@ == instances_of(all.take(it.index() as int).filter(drop)),
                self.known_meshes == old(self).known_meshes,
                binding_keys_unique(all) ==> binding_keys_unique(self.render_instances@),
                binding_keys_unique(all) ==> forall|k: int, j: int|
                    0 <= k < self.render_instances@.len() && it.index() <= j < all.len() ==> !binding_has_key(
                        #[trigger] all[j],
                        (#[trigger] self.render_instances@[k]).object,
                        self.render_instances@[k].component_index,
                    ),
        {
            let ghost i = it.index() as int;
            proof {
                assert(b == all[i]);
                assert(all.take(i + 1) =~= all.take(i).push(all[i]));
                all.take(i).lemma_filter_push(all[i], keep);
                all.take(i).lemma_filter_push(all[i], drop);
            }
            let wanted = contains_key(desired, b.object, b.component_index);
            if wanted {
                let ghost kept = self.render_instances@;
                self.render_instances.push(b);
                proof {
                    let now = self.render_instances@;
                    if binding_keys_unique(all) {
                        assert forall|x: int, y: int| 0 <= x < y < now.len() implies !binding_has_key(
                            #[trigger] now[y],
                            (#[trigger] now[x]).object,
                            now[x].component_index,
                        ) by {
                            assert(now[x] == kept[x]);
                            if y < kept.len() {
                                assert(now[y] == kept[y]);
                            } else {
                                assert(now[y] == all[i]);
                                assert(!binding_has_key(all[i], kept[x].object, kept[x].component_index));
                            }
                        }
                        assert forall|k: int, j: int|
                            0 <= k < now.len() && i + 1 <= j < all.len() implies !binding_has_key(
                            #[trigger] all[j],
                            (#[trigger] now[k]).object,
                            now[k].component_index,
                        ) by {
                            if k < kept.len() {
                                assert(now[k] == kept[k]);
                            } else {
                                assert(now[k] == all[i]);
                                assert(!binding_has_key(all[j], all[i].object, all[i].component_index));
                            }
                        }
                    }
                }
            } else {
                proof {
                    assert(instances_of(all.take(i).filter(drop).push(b)) =~= instances_of(all.take(i).filter(drop)).push(b.instance));
                }
                removed.push(b.instance);
            }
        }
        assert(all.take(all.len() as int) =~= all);
        removed
    }

    /// The mesh loaded before from `path`.
    pub fn mesh_for(&self, path: &str) -> (r: Option<M>)
        where M: Copy,
        ensures
            r == remembered_mesh(self.meshes(), path@),
    {
        let mut i: usize = 0;
        while i < self.known_meshes.len()
            invariant
                i <= self.known_meshes@.len(),
                forall|j: int| 0 <= j < i ==> (#[trigger] self.known_meshes@[j]).0@ != path@,
            decreases self.known_meshes@.len() - i,
        {
            if str_equals(self.known_meshes[i].0.as_str(), path) {
                proof {
                    lemma_remembered_mesh_at(self.meshes(), path@, i as int);
                }
                return Some(self.known_meshes[i].1);
            }
            i = i + 1;
        }
        proof {
            lemma_remembered_mesh_none(self.meshes(), path@);
        }
        None
    }

    /// Remembers `mesh` as loaded from `path`, unless a mesh is remembered for
    /// that path already; hands back the mesh that is remembered afterwards.
    pub fn remember_mesh(&mut self, path: String, mesh: M) -> (r: M)
        where M: Copy,
        ensures
            match remembered_mesh(old(self).meshes(), path@) {
                Some(m) => r == m && final(self).meshes() == old(self).meshes(),
                None => r == mesh && final(self).meshes() == old(self).meshes().push((path, mesh)),
            },
            remembered_mesh(final(self).meshes(), path@) == Some(r),
            final(self).bindings() == old(self).bindings(),
            old(self).keys_unique() ==> final(self).keys_unique(),
    {
        match self.mesh_for(path.as_str()) {
            Some(m) => m,
            None => {
                let ghost before = self.known_meshes@;
                let ghost p = path@;
                self.known_meshes.push((path, mesh));
                proof {
                    let after = self.known_meshes@;
                    assert forall|j: int| 0 <= j < before.len() implies (#[trigger] after[j]).0@ != p by {
                        assert(after[j] == before[j]);
                        lemma_remembered_none_elem(before, p, j);
                    }
                    lemma_remembered_mesh_at(after, p, before.len() as int);
                    assert(mesh_paths_unique(before) ==> mesh_paths_unique(after)) by {
                        if mesh_paths_unique(before) {
                            assert forall|a: int, b: int| 0 <= a < b < after.len() implies (#[trigger] after[a]).0@
                                != (#[trigger] after[b]).0@ by {
                                assert(after[a] == before[a]);
                                if b < before.len() {
                                    assert(after[b] == before[b]);
                                }
                            }
                        }
                    }
                }
                mesh
            },
        }
    }
}

impl<M, I> Default for RuntimeScene<M, I> {
    fn default() -> (r: Self)
        ensures
            r.bindings().len() == 0,
            r.meshes().len() == 0,
            r.keys_unique(),
    {
        RuntimeScene::new()
    }
}

proof fn lemma_remembered_none_elem<M>(meshes: Seq<(String, M)>, path: Seq<char>, j: int)
    requires
        remembered_mesh(meshes, path) is None,
        0 <= j < meshes.len(),
    ensures
        meshes[j].0@ != path,
    decreases j,
{
    if j > 0 {
        let rest = meshes.drop_first();
        assert(rest[j - 1] == meshes[j]);
        lemma_remembered_none_elem(rest, path, j - 1);
    }
}

proof fn lemma_bound_instance_push<I>(before: Seq<InstanceBinding<I>>, b: InstanceBinding<I>, o: GameObjectId, c: usize)
    requires
        !binding_has_key(b, o, c),
    ensures
        bound_instance(before.push(b), o, c) == bound_instance(before, o, c),
    decreases before.len(),
{
    if before.len() == 0 {
        let s = before.push(b);
        assert(s[0] == b);
        assert(s.drop_first().len() == 0);
        assert(bound_instance(s.drop_first(), o, c) is None);
    } else {
        let s = before.push(b);
        assert(s[0] == before[0]);
        assert(s.drop_first() =~= before.drop_first().push(b));
        lemma_bound_instance_push(before.drop_first(), b, o, c);
    }
}

proof fn lemma_bound_instance_swap<I>(
    before: Seq<InstanceBinding<I>>,
    after: Seq<InstanceBinding<I>>,
    i: int,
    o: GameObjectId,
    c: usize,
)
    requires
        0 <= i < before.len(),
        after.len() == before.len(),
        forall|j: int| 0 <= j < before.len() && j != i ==> #[trigger] after[j] == before[j],
        after[i].object == before[i].object,
        after[i].component_index == before[i].component_index,
        !binding_has_key(before[i], o, c),
    ensures
        bound_instance(after, o, c) == bound_instance(before, o, c),
    decreases before.len(),
{
    if i > 0 {
        assert(after[0] == before[0]);
        let ra = after.drop_first();
        let rb = before.drop_first();
        assert forall|j: int| 0 <= j < rb.len() && j != i - 1 implies #[trigger] ra[j] == rb[j] by {
            assert(ra[j] == after[j + 1] && rb[j] == before[j + 1]);
        }
        lemma_bound_instance_swap(rb, ra, i - 1, o, c);
    } else {
        assert(after.drop_first() =~= before.drop_first());
    }
}

/// Whether `desired` lists the component `component_index` of `object`.
fn contains_key(desired: &[(GameObjectId, usize)], object: GameObjectId, component_index: usize) -> (r: bool)
    ensures
        r == desired@.contains((object, component_index)),
{
    let mut i: usize = 0;
    while i < desired.len()
        invariant
            i <= desired@.len(),
            forall|j: int| 0 <= j < i ==> desired@[j] != (object, component_index),
        decreases desired@.len() - i,
    {
        let (o, c) = desired[i];
        if o == object && c == component_index {
            assert(desired@[i as int] == (object, component_index));
            return true;
        }
        i = i + 1;
    }
    false
}

/// The component at `c` of object `g` is an enabled mesh renderer on an
/// enabled object: the renderer keeps an instance for it.
pub open spec fn renders_mesh<D: SceneData>(scene: SceneState<D>, g: int, c: int) -> bool {
    &&& 0 <= g < scene.game_objects@.len()
    &&& scene.game_objects@[g].enabled
    &&& 0 <= c < scene.game_objects@[g].components@.len()
    &&& scene.game_objects@[g].components@[c] matches SceneComponent::MeshRenderer(m) && m.enabled
}

/// The mesh renderer components that should have a render instance, as
/// (object, component index) pairs, in scene order.
pub fn desired_bindings<D: SceneData>(scene: &SceneState<D>) -> (r: Vec<(GameObjectId, usize)>)
    ensures
        forall|id: GameObjectId, c: usize| #[trigger] r@.contains((id, c)) <==> exists|g: int|
            renders_mesh(*scene, g, c as int) && #[trigger] scene.game_objects@[g].id == id,
{
    let objs = &scene.game_objects;
    let mut out: Vec<(GameObjectId, usize)> = Vec::new();
    let mut g: usize = 0;
    while g < objs.len()
        invariant
            objs == &scene.game_objects,
            g <= objs@.len(),
            forall|id: GameObjectId, c: usize| #[trigger] out@.contains((id, c)) <==> exists|g2: int|
                g2 < g && renders_mesh(*scene, g2, c as int) && #[trigger] objs@[g2].id == id,
        decreases objs@.len() - g,
    {
        let object = &objs[g];
        if object.enabled {
            let comps = &object.components;
            let mut c: usize = 0;
            while c < comps.len()
                invariant
                    objs == &scene.game_objects,
                    g < objs@.len(),
                    object == &objs@[g as int],
                    comps == &object.components,
                    object.enabled,
                    c <= comps@.len(),
                    forall|id: GameObjectId, c2: usize| #[trigger] out@.contains((id, c2)) <==> (exists|g2: int|
                        g2 < g && renders_mesh(*scene, g2, c2 as int) && #[trigger] objs@[g2].id == id) || (
                    id == object.id && c2 < c && renders_mesh(*scene, g as int, c2 as int)),
                decreases comps@.len() - c,
            {
                let wanted = match &comps[c] {
                    SceneComponent::MeshRenderer(m) => m.enabled,
                    _ => false,
                };
                if wanted {
                    let ghost before = out@;
                    out.push((object.id, c));
                    proof {
                        assert forall|id: GameObjectId, c2: usize| #[trigger] out@.contains((id, c2)) <==> before.contains((id, c2))
                            || (id == object.id && c2 == c) by {
                            if out@.contains((id, c2)) {
                                let k = choose|k: int| 0 <= k < out@.len() && out@[k] == (id, c2);
                                if k < before.len() {
                                    assert(before[k] == (id, c2));
                                }
                            }
                            if before.contains((id, c2)) {
                                let k = choose|k: int| 0 <= k < before.len() && before[k] == (id, c2);
                                assert(out@[k] == (id, c2));
                            }
                            if id == object.id && c2 == c {
                                assert(out@[before.len() as int] == (id, c2));
                            }
                        }
                    }
                }
                c = c + 1;
            }
        }
        proof {
            assert forall|id: GameObjectId, c2: usize| #[trigger] out@.contains((id, c2)) <==> exists|g2: int|
                g2 < g + 1 && renders_mesh(*scene, g2, c2 as int) && #[trigger] objs@[g2].id == id by {
                if exists|g2: int| g2 < g + 1 && renders_mesh(*scene, g2, c2 as int) && #[trigger] objs@[g2].id == id {
                    let g2 = choose|g2: int| g2 < g + 1 && renders_mesh(*scene, g2, c2 as int) && #[trigger] objs@[g2].id == id;
                    if g2 == g {
                        assert(objs@[g as int].id == id);
                    }
                }
            }
        }
        g = g + 1;
    }
    out
}

/// The name a mesh source file is baked under: the hash of its path in
/// lower-case hexadecimal, right-aligned in eight characters.
pub fn cached_mesh_name(path_hash: u64) -> (r: String)
    ensures
        r@ == right_aligned(hex(path_hash as nat), 8),
{
    let mut s = String::new();
    append_hex_padded(&mut s, path_hash, 8);
    assert(s@ =~= right_aligned(hex(path_hash as nat), 8));
    s
}

/// The virtual path of the baked mesh: `/cache/<name>.mesh`.
pub fn cached_mesh_path(path_hash: u64) -> (r: String)
    ensures
        r@ == "/cache/"@ + right_aligned(hex(path_hash as nat), 8) + ".mesh"@,
{
    let mut s = string_from("/cache/");
    append_hex_padded(&mut s, path_hash, 8);
    string_append(&mut s, ".mesh");
    s
}

} // verus!
