//! Properties of the scene hierarchy that hold across its operations.
use vstd::prelude::*;
use crate::scene::{
    any_match, camera_role, first_match, is_first_match, lemma_first_match_none, local_lights_role,
    query_matches, sun_role, ComponentQuery, SceneComponent,
    builtin_display_name, expected_builtin, missing_roles, object_name, role_of,
    BuiltinGameObjectKind,
    ancestor_at, attach_index, can_reparent, find_index, has_id, ids_below, ids_normalized,
    ids_unique, in_subtree, inside_pred, inside_subtree, is_descendant_of, kept_parent,
    lemma_ancestor_none, lemma_ancestor_shift, lemma_attach_index, lemma_find_index, lemma_subtree_root,
    max_u64, needs_new_id, outside_pred,
    outside_subtree, parent_link, parent_set, renumbered, reparented, sat_inc,
    singletons_ensured, allocated_id, next_after, GameObject, GameObjectId, SceneData,
};

use crate::text::{
    decimal, is_clean_label, lemma_decimal_digits, lemma_sanitized_label_is_clean,
};

verus! {

/// The counter never goes down while ids are handed out.
proof fn lemma_renumbered_counter_grows<D: SceneData>(objs: Seq<GameObject<D>>, next: u64, n: nat)
    requires
        n >= 1,
    ensures
        renumbered(objs, next, (n - 1) as nat).1 <= renumbered(objs, next, n).1,
{
}

/// While the counter has not reached `u64::MAX`, the ids handed out to the
/// first `n` objects are distinct, non-zero, and below the counter.
proof fn lemma_renumbered_fresh<D: SceneData>(objs: Seq<GameObject<D>>, next: u64, n: nat)
    requires
        n <= objs.len(),
        renumbered(objs, next, n).1 < u64::MAX,
    ensures
        renumbered(objs, next, n).0.len() == n,
        renumbered(objs, next, n).1 >= 1,
        renumbered(objs, next, n).0.no_duplicates(),
        forall|i: int| 0 <= i < n ==> (#[trigger] renumbered(objs, next, n).0[i]).0 != 0,
        forall|i: int| 0 <= i < n ==> (#[trigger] renumbered(objs, next, n).0[i]).0 < renumbered(objs, next, n).1,
    decreases n,
{
    if n > 0 {
        let m = (n - 1) as nat;
        lemma_renumbered_counter_grows(objs, next, n);
        lemma_renumbered_fresh(objs, next, m);
        let (ids, nx) = renumbered(objs, next, m);
        let (all, nx_all) = renumbered(objs, next, n);
        let id = objs[m as int].id;
        if needs_new_id(ids, id) {
            assert(!ids.contains(GameObjectId(nx))) by {
                if ids.contains(GameObjectId(nx)) {
                    let k = choose|k: int| 0 <= k < ids.len() && ids[k] == GameObjectId(nx);
                    assert(ids[k].0 < nx);
                }
            }
            assert(all == ids.push(GameObjectId(nx)));
        } else {
            assert(all == ids.push(id));
            assert(sat_inc(id.0) <= nx_all);
        }
        assert forall|i: int, j: int| 0 <= i < all.len() && 0 <= j < all.len() && i != j implies all[i] != all[j] by {
            if i < m && j < m {
                assert(all[i] == ids[i] && all[j] == ids[j]);
            } else if i == m && j < m {
                assert(all[j] == ids[j]);
                assert(ids.contains(all[j]));
            } else if j == m && i < m {
                assert(all[i] == ids[i]);
                assert(ids.contains(all[i]));
            }
        }
        assert forall|i: int| 0 <= i < n implies (#[trigger] all[i]).0 < nx_all && all[i].0 != 0 by {
            if i < m {
                assert(all[i] == ids[i]);
            }
        }
    }
}

/// Normalizing a loaded scene, while its counter stays below `u64::MAX`,
/// gives every object a distinct non-zero id below the new counter, and leaves
/// no parent that names a missing object or the object itself.
pub proof fn lemma_normalized_ids<D: SceneData>(
    a: Seq<GameObject<D>>,
    na: u64,
    b: Seq<GameObject<D>>,
    nb: u64,
)
    requires
        ids_normalized(a, na, b, nb),
        renumbered(a, na, a.len()).1 < u64::MAX,
    ensures
        ids_unique(b),
        ids_below(b, nb),
        forall|i: int| 0 <= i < b.len() ==> (#[trigger] b[i]).id.0 != 0,
        forall|i: int| 0 <= i < b.len() && (#[trigger] b[i]).parent is Some ==> b[i].parent->0 != b[i].id && has_id(b, b[i].parent->0),
{
    let (ids, nx) = renumbered(a, na, a.len());
    lemma_renumbered_fresh(a, na, a.len());
    assert forall|i: int| 0 <= i < b.len() && (#[trigger] b[i]).parent is Some implies b[i].parent->0 != b[i].id && has_id(b, b[i].parent->0) by {
        let p = b[i].parent->0;
        assert(b[i].parent == kept_parent(a[i], ids[i], ids));
        assert(ids.contains(p));
        let k = choose|k: int| 0 <= k < ids.len() && ids[k] == p;
        assert(b[k].id == p);
    }
    assert forall|i: int, j: int| 0 <= i < b.len() && 0 <= j < b.len() && i != j implies (#[trigger] b[i]).id != (#[trigger] b[j]).id by {
        assert(b[i].id == ids[i] && b[j].id == ids[j]);
    }
    assert forall|i: int| 0 <= i < b.len() implies (#[trigger] b[i]).id.0 < nb by {
        assert(b[i].id == ids[i]);
    }
}

/// After `normalize` (while the counter stays three below `u64::MAX`, the room
/// the editor singletons may need), ids are distinct and below the counter, and
/// every parent names another existing object.
pub proof fn lemma_normalize_well_formed<D: SceneData>(
    a: Seq<GameObject<D>>,
    na: u64,
    mid: Seq<GameObject<D>>,
    n1: u64,
    b: Seq<GameObject<D>>,
    nb: u64,
)
    requires
        ids_normalized(a, na, mid, n1),
        singletons_ensured(mid, n1, b, nb),
        renumbered(a, na, a.len()).1 <= u64::MAX - 3,
    ensures
        ids_unique(b),
        ids_below(b, nb),
        forall|i: int| 0 <= i < b.len() && (#[trigger] b[i]).parent is Some ==> b[i].parent->0 != b[i].id && has_id(b, b[i].parent->0),
{
    lemma_normalized_ids(a, na, mid, n1);
    assert forall|i: int| 0 <= i < b.len() && (#[trigger] b[i]).parent is Some implies b[i].parent->0 != b[i].id && has_id(b, b[i].parent->0) by {
        assert(i < mid.len());
        assert(b[i].parent == mid[i].parent && b[i].id == mid[i].id);
        let p = b[i].parent->0;
        assert(mid[i].parent is Some);
        assert(has_id(mid, p));
        let k = choose|k: int| 0 <= k < mid.len() && (#[trigger] mid[k]).id == p;
        assert(b[k].id == p);
    }
}

/// The object at `i` is the first one that carries its id, and that id is not zero.
pub open spec fn first_carrier<D: SceneData>(objs: Seq<GameObject<D>>, i: int) -> bool {
    objs[i].id.0 != 0 && forall|j: int| 0 <= j < i ==> (#[trigger] objs[j]).id != objs[i].id
}

/// Renumbering keeps the ids of first carriers that lie below the counter's
/// start, hands every other object either its own id or an id at or above the
/// start (fresh ones to all but first carriers), and every non-zero id met so
/// far is still in use.
proof fn lemma_renumbered_first_carriers<D: SceneData>(objs: Seq<GameObject<D>>, next: u64, n: nat)
    requires
        n <= objs.len(),
    ensures
        renumbered(objs, next, n).0.len() == n,
        renumbered(objs, next, n).1 >= max_u64(next, 1),
        forall|k: int| 0 <= k < n ==> (#[trigger] renumbered(objs, next, n).0[k]) == objs[k].id
            || renumbered(objs, next, n).0[k].0 >= max_u64(next, 1),
        forall|k: int| 0 <= k < n && first_carrier(objs, k) && objs[k].id.0 < max_u64(next, 1)
            ==> (#[trigger] renumbered(objs, next, n).0[k]) == objs[k].id,
        forall|k: int| 0 <= k < n && !first_carrier(objs, k) ==> (#[trigger] renumbered(objs, next, n).0[k]).0 >= max_u64(next, 1),
        forall|k: int| 0 <= k < n && (#[trigger] objs[k]).id.0 != 0 ==> renumbered(objs, next, n).0.contains(objs[k].id),
    decreases n,
{
    if n > 0 {
        let m = (n - 1) as nat;
        lemma_renumbered_first_carriers(objs, next, m);
        let (ids, nx) = renumbered(objs, next, m);
        let (all, nx_all) = renumbered(objs, next, n);
        let k = m as int;
        let id = objs[k].id;
        let start = max_u64(next, 1);
        if needs_new_id(ids, id) {
            assert(all == ids.push(GameObjectId(nx)));
        } else {
            assert(all == ids.push(id));
        }
        if first_carrier(objs, k) && id.0 < start {
            assert(!ids.contains(id)) by {
                if ids.contains(id) {
                    let j = choose|j: int| 0 <= j < ids.len() && ids[j] == id;
                    assert(ids[j] == objs[j].id || ids[j].0 >= start);
                }
            }
        }
        if !first_carrier(objs, k) && id.0 != 0 {
            let j = choose|j: int| 0 <= j < k && (#[trigger] objs[j]).id == objs[k].id;
            assert(objs[j].id.0 != 0);
            assert(ids.contains(objs[j].id));
        }
        assert forall|q: int| 0 <= q < n implies (#[trigger] all[q]) == objs[q].id || all[q].0 >= start by {
            if q < k {
                assert(all[q] == ids[q]);
            }
        }
        assert forall|q: int| 0 <= q < n && first_carrier(objs, q) && objs[q].id.0 < start implies (#[trigger] all[q]) == objs[q].id by {
            if q < k {
                assert(all[q] == ids[q]);
            }
        }
        assert forall|q: int| 0 <= q < n && !first_carrier(objs, q) implies (#[trigger] all[q]).0 >= start by {
            if q < k {
                assert(all[q] == ids[q]);
            }
        }
        assert forall|q: int| 0 <= q < n && (#[trigger] objs[q]).id.0 != 0 implies all.contains(objs[q].id) by {
            if q < k {
                let w = choose|w: int| 0 <= w < ids.len() && ids[w] == objs[q].id;
                assert(all[w] == ids[w]);
            } else if ids.contains(id) {
                let w = choose|w: int| 0 <= w < ids.len() && ids[w] == id;
                assert(all[w] == ids[w]);
            } else {
                assert(all[k] == id);
            }
        }
    }
}

/// Normalizing a loaded scene keeps the id of the first object that carries
/// each non-zero id below the counter; the objects with id zero and the later
/// carriers of an id get fresh ids, at or above the counter.
pub proof fn lemma_normalize_keeps_first_ids<D: SceneData>(
    a: Seq<GameObject<D>>,
    na: u64,
    b: Seq<GameObject<D>>,
    nb: u64,
)
    requires
        ids_normalized(a, na, b, nb),
    ensures
        forall|i: int| 0 <= i < a.len() && first_carrier(a, i) && a[i].id.0 < max_u64(na, 1)
            ==> (#[trigger] b[i]).id == a[i].id,
        forall|i: int| 0 <= i < a.len() && !first_carrier(a, i) ==> (#[trigger] b[i]).id.0 >= max_u64(na, 1),
{
    lemma_renumbered_first_carriers(a, na, a.len());
    let ids = renumbered(a, na, a.len()).0;
    assert forall|i: int| 0 <= i < a.len() && first_carrier(a, i) && a[i].id.0 < max_u64(na, 1)
        implies (#[trigger] b[i]).id == a[i].id by {
        assert(b[i].id == ids[i]);
    }
    assert forall|i: int| 0 <= i < a.len() && !first_carrier(a, i) implies (#[trigger] b[i]).id.0 >= max_u64(na, 1) by {
        assert(b[i].id == ids[i]);
    }
}

/// While the counter and every id lie below `bound`, renumbering `n` objects
/// moves the counter at most `n` past `bound`.
proof fn lemma_renumbered_bound<D: SceneData>(objs: Seq<GameObject<D>>, next: u64, n: nat, bound: int)
    requires
        n <= objs.len(),
        next < bound,
        forall|i: int| 0 <= i < objs.len() ==> (#[trigger] objs[i]).id.0 < bound,
    ensures
        renumbered(objs, next, n).1 <= bound + n,
    decreases n,
{
    if n > 0 {
        lemma_renumbered_bound(objs, next, (n - 1) as nat, bound);
        assert(objs[n - 1].id.0 < bound);
    }
}

/// `GameObject <id>` is a clean label.
proof fn lemma_default_name_clean(id: u64)
    ensures
        is_clean_label("GameObject "@ + decimal(id as nat)),
        ("GameObject "@ + decimal(id as nat)).len() > 0,
{
    reveal_strlit("GameObject ");
    lemma_decimal_digits(id as nat);
    let d = decimal(id as nat);
    let s = "GameObject "@ + d;
    assert forall|i: int| 0 <= i < s.len() implies crate::text::is_ascii_alnum(#[trigger] s[i]) || s[i] == ' ' by {
        if i >= 11 {
            assert(s[i] == d[i - 11]);
        }
    }
    assert forall|i: int| 0 <= i < s.len() - 1 implies !(#[trigger] s[i] == ' ' && s[i + 1] == ' ') by {
        if i >= 10 {
            assert(s[i + 1] == d[i - 10]);
        }
    }
    assert(s.last() == d.last());
}

/// The name normalizing gives an object is a non-empty clean label.
proof fn lemma_object_name_clean(id: GameObjectId, name: Seq<char>)
    ensures
        is_clean_label(object_name(id, name)),
        object_name(id, name).len() > 0,
{
    lemma_sanitized_label_is_clean(name);
    lemma_default_name_clean(id.0);
}

/// The display names of the editor singletons are non-empty clean labels.
proof fn lemma_display_name_clean(k: BuiltinGameObjectKind)
    ensures
        is_clean_label(builtin_display_name(k)),
        builtin_display_name(k).len() > 0,
{
    reveal_strlit("Main Camera");
    reveal_strlit("Sun");
    reveal_strlit("Local Lights");
    let s = builtin_display_name(k);
    assert forall|i: int| 0 <= i < s.len() implies crate::text::is_ascii_alnum(#[trigger] s[i]) || s[i] == ' ' by {}
    assert forall|i: int| 0 <= i < s.len() - 1 implies !(#[trigger] s[i] == ' ' && s[i + 1] == ' ') by {}
}

/// Normalizing a loaded scene whose counter and ids all lie more than the
/// number of objects plus three below `u64::MAX`: afterwards every id is
/// non-zero, ids are distinct and below the counter, every parent names another
/// existing object, every name is a non-empty clean label, and the three
/// editor roles are played.
pub proof fn lemma_normalize_law<D: SceneData>(
    a: Seq<GameObject<D>>,
    na: u64,
    mid: Seq<GameObject<D>>,
    n1: u64,
    b: Seq<GameObject<D>>,
    nb: u64,
)
    requires
        ids_normalized(a, na, mid, n1),
        singletons_ensured(mid, n1, b, nb),
        na < u64::MAX - a.len() - 3,
        forall|i: int| 0 <= i < a.len() ==> (#[trigger] a[i]).id.0 < u64::MAX - a.len() - 3,
    ensures
        forall|i: int| 0 <= i < b.len() ==> (#[trigger] b[i]).id.0 != 0,
        ids_unique(b),
        ids_below(b, nb),
        forall|i: int| 0 <= i < b.len() && (#[trigger] b[i]).parent is Some ==> b[i].parent->0 != b[i].id && has_id(b, b[i].parent->0),
        forall|i: int| 0 <= i < b.len() ==> is_clean_label((#[trigger] b[i]).name@) && b[i].name@.len() > 0,
        forall|k: BuiltinGameObjectKind| #[trigger] role_of(b, k) is Some,
{
    let bound = u64::MAX - a.len() - 3;
    lemma_renumbered_bound(a, na, a.len(), bound);
    lemma_normalize_well_formed(a, na, mid, n1, b, nb);
    lemma_normalized_ids(a, na, mid, n1);
    let ids = renumbered(a, na, a.len()).0;
    assert(n1 <= u64::MAX - 3);
    assert forall|i: int| 0 <= i < b.len() implies (#[trigger] b[i]).id.0 != 0 by {
        if i < mid.len() {
            assert(b[i].id == mid[i].id);
        } else {
            assert(b[i].id.0 >= n1);
        }
    }
    assert forall|i: int| 0 <= i < b.len() implies is_clean_label((#[trigger] b[i]).name@) && b[i].name@.len() > 0 by {
        if i < mid.len() {
            if expected_builtin(b, i) is Some {
                lemma_display_name_clean(expected_builtin(b, i)->0);
            } else {
                assert(b[i].name == mid[i].name);
                assert(mid[i].name@ == object_name(ids[i], a[i].name@));
                lemma_object_name_clean(ids[i], a[i].name@);
            }
        } else {
            let j = i - mid.len();
            assert(b[mid.len() + j].name@ == builtin_display_name(missing_roles(mid)[j]));
            lemma_display_name_clean(missing_roles(mid)[j]);
        }
    }
}

// ---------------------------------------------------------------------------
// Moving subtrees keeps the hierarchy a forest
// ---------------------------------------------------------------------------

/// No object is its own ancestor.
pub open spec fn acyclic<D: SceneData>(objs: Seq<GameObject<D>>) -> bool {
    forall|x: GameObjectId, k: nat| k >= 1 ==> #[trigger] ancestor_at(objs, x, k) != Some(x)
}

/// Walking `t` steps up and then `s` more is walking `t + s` steps.
proof fn lemma_ancestor_compose<D: SceneData>(objs: Seq<GameObject<D>>, x: GameObjectId, t: nat, s: nat)
    requires
        ancestor_at(objs, x, t) is Some,
    ensures
        ancestor_at(objs, x, t + s) == ancestor_at(objs, ancestor_at(objs, x, t)->0, s),
    decreases s,
{
    if s > 0 {
        lemma_ancestor_compose(objs, x, t, (s - 1) as nat);
        assert((t + s - 1) as nat == t + (s - 1) as nat);
    }
}

/// The first step of the walk up from `x` that reaches `target`.
proof fn lemma_first_hit<D: SceneData>(objs: Seq<GameObject<D>>, x: GameObjectId, target: GameObjectId, s: nat) -> (m: nat)
    requires
        ancestor_at(objs, x, s) == Some(target),
    ensures
        m <= s,
        ancestor_at(objs, x, m) == Some(target),
        forall|t: nat| t < m ==> #[trigger] ancestor_at(objs, x, t) != Some(target),
    decreases s,
{
    if exists|t: nat| t < s && #[trigger] ancestor_at(objs, x, t) == Some(target) {
        let t = choose|t: nat| t < s && #[trigger] ancestor_at(objs, x, t) == Some(target);
        lemma_first_hit(objs, x, target, t)
    } else {
        s
    }
}

/// Where only the parent of `child` differs, a walk that does not pass
/// `child` is the same in both scenes.
proof fn lemma_walk_agrees<D: SceneData>(
    a: Seq<GameObject<D>>,
    b: Seq<GameObject<D>>,
    child: GameObjectId,
    x: GameObjectId,
    k: nat,
)
    requires
        forall|y: GameObjectId| y != child ==> #[trigger] parent_link(b, y) == parent_link(a, y),
        forall|t: nat| t < k ==> #[trigger] ancestor_at(b, x, t) != Some(child),
    ensures
        ancestor_at(b, x, k) == ancestor_at(a, x, k),
    decreases k,
{
    if k > 0 {
        let j = (k - 1) as nat;
        lemma_walk_agrees(a, b, child, x, j);
        assert(ancestor_at(b, x, j) != Some(child));
    }
}

/// Giving `child` the parent `p`, which is not below `child`, keeps an acyclic
/// hierarchy acyclic.
proof fn lemma_new_link_acyclic<D: SceneData>(
    a: Seq<GameObject<D>>,
    b: Seq<GameObject<D>>,
    child: GameObjectId,
    p: Option<GameObjectId>,
)
    requires
        acyclic(a),
        forall|y: GameObjectId| y != child ==> #[trigger] parent_link(b, y) == parent_link(a, y),
        parent_link(b, child) == p,
        p matches Some(q) ==> q != child && !is_descendant_of(a, q, child),
    ensures
        acyclic(b),
{
    assert forall|x: GameObjectId, k: nat| k >= 1 implies #[trigger] ancestor_at(b, x, k) != Some(x) by {
        if ancestor_at(b, x, k) == Some(x) {
            if exists|t: nat| t < k && #[trigger] ancestor_at(b, x, t) == Some(child) {
                let t = choose|t: nat| t < k && #[trigger] ancestor_at(b, x, t) == Some(child);
                lemma_ancestor_shift(b, x, k, 0, t);
                lemma_ancestor_compose(b, x, t, k);
                assert(ancestor_at(b, child, k) == Some(child));
                assert(ancestor_at(b, child, 0) == Some(child));
                assert(ancestor_at(b, child, 1) == p);
                match p {
                    Some(q) => {
                        lemma_ancestor_compose(b, child, 1, (k - 1) as nat);
                        assert(ancestor_at(b, q, (k - 1) as nat) == Some(child));
                        let m = lemma_first_hit(b, q, child, (k - 1) as nat);
                        assert(m >= 1);
                        lemma_walk_agrees(a, b, child, q, m);
                        assert(ancestor_at(a, q, m) == Some(child));
                        assert(is_descendant_of(a, q, child));
                    },
                    None => {
                        assert(ancestor_at(b, child, 1) is None);
                        lemma_ancestor_none(b, child, 1, (k - 1) as nat);
                    },
                }
            } else {
                lemma_walk_agrees(a, b, child, x, k);
                assert(ancestor_at(a, x, k) == Some(x));
            }
        }
    }
}

/// Filtering keeps ids distinct.
proof fn lemma_filter_ids_unique<D: SceneData>(s: Seq<GameObject<D>>, pred: spec_fn(GameObject<D>) -> bool)
    requires
        ids_unique(s),
    ensures
        ids_unique(s.filter(pred)),
    decreases s.len(),
{
    if s.len() > 0 {
        let init = s.drop_last();
        let last = s.last();
        assert(ids_unique(init)) by {
            assert forall|i: int, j: int|
                0 <= i < init.len() && 0 <= j < init.len() && i != j implies (#[trigger] init[i]).id
                != (#[trigger] init[j]).id by {
                assert(init[i] == s[i] && init[j] == s[j]);
            }
        }
        lemma_filter_ids_unique(init, pred);
        init.lemma_filter_push(last, pred);
        assert(init.push(last) =~= s);
        let f = init.filter(pred);
        if pred(last) {
            assert forall|j: int| 0 <= j < f.len() implies (#[trigger] f[j]).id != last.id by {
                assert(f.contains(f[j]));
                init.lemma_filter_contains_rev(pred, f[j]);
                let m = choose|m: int| 0 <= m < init.len() && init[m] == f[j];
                assert(s[m] == init[m]);
                assert(s[s.len() - 1] == last);
            }
            let g = f.push(last);
            assert forall|i: int, j: int| 0 <= i < g.len() && 0 <= j < g.len() && i != j implies (#[trigger] g[i]).id
                != (#[trigger] g[j]).id by {
                if i < f.len() && j < f.len() {
                    assert(g[i] == f[i] && g[j] == f[j]);
                } else if i < f.len() {
                    assert(g[i] == f[i]);
                } else if j < f.len() {
                    assert(g[j] == f[j]);
                }
            }
        }
    } else {
        s.lemma_filter_len(pred);
    }
}

/// A sequence splits into the elements that pass a test and those that fail it.
proof fn lemma_filter_split_len<A>(s: Seq<A>, p: spec_fn(A) -> bool, q: spec_fn(A) -> bool)
    requires
        forall|a: A| #[trigger] p(a) == !q(a),
    ensures
        s.filter(p).len() + s.filter(q).len() == s.len(),
    decreases s.len(),
{
    if s.len() > 0 {
        let init = s.drop_last();
        lemma_filter_split_len(init, p, q);
        init.lemma_filter_push(s.last(), p);
        init.lemma_filter_push(s.last(), q);
        assert(init.push(s.last()) =~= s);
    } else {
        s.lemma_filter_len(p);
        s.lemma_filter_len(q);
    }
}

/// The element of `filter` at `j` comes from `s` and passes the test.
proof fn lemma_filter_elem<A>(s: Seq<A>, pred: spec_fn(A) -> bool, j: int)
    requires
        0 <= j < s.filter(pred).len(),
    ensures
        s.contains(s.filter(pred)[j]),
        pred(s.filter(pred)[j]),
{
    s.lemma_filter_pred(pred, j);
    assert(s.filter(pred).contains(s.filter(pred)[j]));
    s.lemma_filter_contains_rev(pred, s.filter(pred)[j]);
}

/// Two objects of a scene with distinct ids that share an id are the same object.
proof fn lemma_same_id_same_object<D: SceneData>(objs: Seq<GameObject<D>>, e: GameObject<D>, i: int)
    requires
        ids_unique(objs),
        objs.contains(e),
        0 <= i < objs.len(),
        objs[i].id == e.id,
    ensures
        e == objs[i],
{
    let m = choose|m: int| 0 <= m < objs.len() && objs[m] == e;
    assert(objs[m].id == objs[i].id);
}

/// Moving a subtree in a scene whose ids are distinct keeps the same objects
/// with distinct ids, changes only the moved object's parent, and sets it.
proof fn lemma_reparented_shape<D: SceneData>(
    old: Seq<GameObject<D>>,
    new: Seq<GameObject<D>>,
    child: GameObjectId,
    np: Option<GameObjectId>,
)
    requires
        ids_unique(old),
        has_id(old, child),
        reparented(old, new, child, np),
    ensures
        new.len() == old.len(),
        ids_unique(new),
        forall|y: GameObjectId| #[trigger] has_id(new, y) <==> has_id(old, y),
        forall|y: GameObjectId| y != child ==> #[trigger] parent_link(new, y) == parent_link(old, y),
        parent_link(new, child) == np,
{
    let rem = outside_subtree(old, child);
    let ins = inside_subtree(old, child);
    let po = outside_pred(old, child);
    let pi = inside_pred(old, child);
    let k = attach_index(rem, np);
    let moved = choose|moved: Seq<GameObject<D>>| #[trigger] parent_set(ins, moved, child, np)
        && new == rem.take(k) + moved + rem.skip(k);
    match np {
        Some(p) => lemma_attach_index(rem, p, rem.len() as int),
        None => {},
    }
    assert(0 <= k <= rem.len());
    lemma_subtree_root(old, child);
    lemma_find_index(old, child);
    let ic = find_index(old, child)->0;
    old.lemma_filter_contains(pi, ic);
    assert(ins.contains(old[ic]));
    let c0 = choose|c0: int| 0 <= c0 < ins.len() && ins[c0] == old[ic];
    lemma_find_index(ins, child);
    let c = find_index(ins, child)->0;
    lemma_filter_ids_unique(old, pi);
    lemma_filter_ids_unique(old, po);
    assert(moved == ins.update(c, GameObject { parent: np, ..ins[c] }));
    lemma_filter_elem(old, pi, c);
    lemma_same_id_same_object(old, ins[c], ic);
    lemma_filter_split_len(old, po, pi);
    let ml = moved.len();
    assert(ml == ins.len());
    assert(new.len() == rem.len() + ml);
    // where each position of `new` comes from
    assert forall|j: int| 0 <= j < new.len() implies (j < k ==> #[trigger] new[j] == rem[j]) && (k <= j < k
        + ml ==> new[j] == moved[j - k]) && (k + ml <= j ==> new[j] == rem[j - ml]) by {}
    assert forall|r: int| 0 <= r < rem.len() implies old.contains(#[trigger] rem[r]) && !in_subtree(
        old,
        child,
        rem[r].id,
    ) by {
        lemma_filter_elem(old, po, r);
    }
    assert forall|t: int| 0 <= t < ins.len() implies old.contains(#[trigger] ins[t]) && in_subtree(
        old,
        child,
        ins[t].id,
    ) by {
        lemma_filter_elem(old, pi, t);
    }
    assert forall|t: int| 0 <= t < ml implies (#[trigger] moved[t]).id == ins[t].id && (t != c ==> moved[t]
        == ins[t] && ins[t].id != child) by {
        if t != c {
            assert(ins[t].id != ins[c].id);
        }
    }
    // distinct ids
    assert forall|i: int, j: int| 0 <= i < new.len() && 0 <= j < new.len() && i != j implies (#[trigger] new[i]).id
        != (#[trigger] new[j]).id by {
        let ri = if i < k { i } else { i - ml };
        let rj = if j < k { j } else { j - ml };
        let in_i = k <= i < k + ml;
        let in_j = k <= j < k + ml;
        if !in_i && !in_j {
            assert(new[i] == rem[ri] && new[j] == rem[rj]);
            assert(rem[ri].id != rem[rj].id);
        } else if in_i && in_j {
            assert(new[i] == moved[i - k] && new[j] == moved[j - k]);
            assert(ins[i - k].id != ins[j - k].id);
        } else if in_i {
            assert(new[i] == moved[i - k] && new[j] == rem[rj]);
            assert(in_subtree(old, child, ins[i - k].id));
            assert(!in_subtree(old, child, rem[rj].id));
        } else {
            assert(new[j] == moved[j - k] && new[i] == rem[ri]);
            assert(in_subtree(old, child, ins[j - k].id));
            assert(!in_subtree(old, child, rem[ri].id));
        }
    }
    // the same ids
    assert forall|y: GameObjectId| #[trigger] has_id(new, y) <==> has_id(old, y) by {
        if has_id(new, y) {
            let j = choose|j: int| 0 <= j < new.len() && (#[trigger] new[j]).id == y;
            if k <= j < k + ml {
                assert(new[j] == moved[j - k]);
                let m = choose|m: int| 0 <= m < old.len() && old[m] == ins[j - k];
                assert(old[m].id == y);
            } else {
                let r = if j < k { j } else { j - ml };
                assert(new[j] == rem[r]);
                let m = choose|m: int| 0 <= m < old.len() && old[m] == rem[r];
                assert(old[m].id == y);
            }
        }
        if has_id(old, y) {
            let i = choose|i: int| 0 <= i < old.len() && (#[trigger] old[i]).id == y;
            if in_subtree(old, child, y) {
                old.lemma_filter_contains(pi, i);
                let t = choose|t: int| 0 <= t < ins.len() && ins[t] == old[i];
                assert(new[k + t] == moved[t]);
                assert(new[k + t].id == y);
            } else {
                old.lemma_filter_contains(po, i);
                let r = choose|r: int| 0 <= r < rem.len() && rem[r] == old[i];
                if r < k {
                    assert(new[r] == rem[r]);
                    assert(new[r].id == y);
                } else {
                    assert(new[r + ml] == rem[r]);
                    assert(new[r + ml].id == y);
                }
            }
        }
    }
    // the parents
    assert forall|y: GameObjectId| y != child implies #[trigger] parent_link(new, y) == parent_link(old, y) by {
        lemma_find_index(new, y);
        lemma_find_index(old, y);
        if has_id(old, y) {
            assert(has_id(new, y));
            let jn = find_index(new, y)->0;
            let io = find_index(old, y)->0;
            if k <= jn < k + ml {
                assert(new[jn] == moved[jn - k]);
                assert(jn - k != c);
                lemma_same_id_same_object(old, ins[jn - k], io);
            } else {
                let r = if jn < k { jn } else { jn - ml };
                assert(new[jn] == rem[r]);
                lemma_same_id_same_object(old, rem[r], io);
            }
        } else {
            assert(!has_id(new, y));
        }
    }
    lemma_find_index(new, child);
    assert(has_id(new, child));
    let jc = find_index(new, child)->0;
    if k <= jc < k + ml {
        assert(new[jc] == moved[jc - k]);
        assert(jc - k == c);
    } else {
        let r = if jc < k { jc } else { jc - ml };
        assert(new[jc] == rem[r]);
        assert(!in_subtree(old, child, rem[r].id));
    }
}

/// Moving a subtree where `can_reparent_game_object` allows it keeps the
/// objects (with distinct ids) and keeps the hierarchy free of cycles; the
/// moved object gets the requested parent.
pub proof fn lemma_reparent_keeps_forest<D: SceneData>(
    old: Seq<GameObject<D>>,
    new: Seq<GameObject<D>>,
    child: GameObjectId,
    new_parent: Option<GameObjectId>,
)
    requires
        ids_unique(old),
        acyclic(old),
        can_reparent(old, child, new_parent),
        reparented(old, new, child, new_parent),
    ensures
        new.len() == old.len(),
        ids_unique(new),
        forall|y: GameObjectId| #[trigger] has_id(new, y) <==> has_id(old, y),
        acyclic(new),
        parent_link(new, child) == new_parent,
        forall|y: GameObjectId| y != child ==> #[trigger] parent_link(new, y) == parent_link(old, y),
{
    lemma_find_index(old, child);
    lemma_reparented_shape(old, new, child, new_parent);
    lemma_new_link_acyclic(old, new, child, new_parent);
}

/// Moving an object under a new parent and then back under its old parent
/// restores every parent link (the order of the objects may differ).
pub proof fn lemma_reparent_back_restores_links<D: SceneData>(
    a: Seq<GameObject<D>>,
    b: Seq<GameObject<D>>,
    c: Seq<GameObject<D>>,
    child: GameObjectId,
    new_parent: Option<GameObjectId>,
)
    requires
        ids_unique(a),
        acyclic(a),
        can_reparent(a, child, new_parent),
        reparented(a, b, child, new_parent),
        can_reparent(b, child, parent_link(a, child)),
        reparented(b, c, child, parent_link(a, child)),
    ensures
        forall|y: GameObjectId| #[trigger] parent_link(c, y) == parent_link(a, y),
        forall|y: GameObjectId| #[trigger] has_id(c, y) <==> has_id(a, y),
        c.len() == a.len(),
{
    lemma_reparent_keeps_forest(a, b, child, new_parent);
    lemma_reparent_keeps_forest(b, c, child, parent_link(a, child));
    assert forall|y: GameObjectId| #[trigger] parent_link(c, y) == parent_link(a, y) by {
        if y != child {
            assert(parent_link(c, y) == parent_link(b, y));
        }
    }
}

// ---------------------------------------------------------------------------
// Creating and removing objects keeps the hierarchy well formed
// ---------------------------------------------------------------------------

/// A walk up in `b` that has not ended follows the same steps in `a`.
proof fn lemma_walk_within<D: SceneData>(a: Seq<GameObject<D>>, b: Seq<GameObject<D>>, x: GameObjectId, k: nat)
    requires
        forall|y: GameObjectId| #[trigger] parent_link(b, y) is None || parent_link(b, y) == parent_link(a, y),
    ensures
        ancestor_at(b, x, k) is Some ==> ancestor_at(b, x, k) == ancestor_at(a, x, k),
    decreases k,
{
    if k > 0 {
        let j = (k - 1) as nat;
        lemma_walk_within(a, b, x, j);
        if ancestor_at(b, x, j) is Some {
            let y = ancestor_at(b, x, j)->0;
            assert(parent_link(b, y) is None || parent_link(b, y) == parent_link(a, y));
        }
    }
}

/// Dropping parent links, or keeping them, cannot create a cycle.
proof fn lemma_fewer_links_acyclic<D: SceneData>(a: Seq<GameObject<D>>, b: Seq<GameObject<D>>)
    requires
        acyclic(a),
        forall|y: GameObjectId| #[trigger] parent_link(b, y) is None || parent_link(b, y) == parent_link(a, y),
    ensures
        acyclic(b),
{
    assert forall|x: GameObjectId, k: nat| k >= 1 implies #[trigger] ancestor_at(b, x, k) != Some(x) by {
        lemma_walk_within(a, b, x, k);
    }
}

/// In a scene with distinct ids, the parent of an object found in `s` is the
/// parent of the object with that id in `s`, wherever it stands.
proof fn lemma_parent_link_at<D: SceneData>(s: Seq<GameObject<D>>, j: int)
    requires
        ids_unique(s),
        0 <= j < s.len(),
    ensures
        parent_link(s, s[j].id) == s[j].parent,
{
    lemma_find_index(s, s[j].id);
    assert(has_id(s, s[j].id));
    let f = find_index(s, s[j].id)->0;
    assert(s[f].id == s[j].id);
}

/// Objects kept by a filter keep their parent links.
proof fn lemma_filter_links<D: SceneData>(s: Seq<GameObject<D>>, pred: spec_fn(GameObject<D>) -> bool)
    requires
        ids_unique(s),
    ensures
        forall|y: GameObjectId| #[trigger] parent_link(s.filter(pred), y) is None || parent_link(s.filter(pred), y) == parent_link(s, y),
{
    let f = s.filter(pred);
    lemma_filter_ids_unique(s, pred);
    assert forall|y: GameObjectId| #[trigger] parent_link(f, y) is None || parent_link(f, y) == parent_link(s, y) by {
        lemma_find_index(f, y);
        if has_id(f, y) {
            let j = find_index(f, y)->0;
            lemma_filter_elem(s, pred, j);
            let m = choose|m: int| 0 <= m < s.len() && s[m] == f[j];
            lemma_parent_link_at(s, m);
        }
    }
}

/// Restoring the editor singletons on objects with fresh ids keeps or drops
/// each parent link, never adds one.
proof fn lemma_singletons_links<D: SceneData>(a: Seq<GameObject<D>>, na: u64, b: Seq<GameObject<D>>, nb: u64)
    requires
        singletons_ensured(a, na, b, nb),
        ids_unique(a),
        ids_below(a, na),
        na <= u64::MAX - 3,
    ensures
        ids_unique(b),
        ids_below(b, nb),
        forall|y: GameObjectId| #[trigger] parent_link(b, y) is None || parent_link(b, y) == parent_link(a, y),
{
    assert forall|y: GameObjectId| #[trigger] parent_link(b, y) is None || parent_link(b, y) == parent_link(a, y) by {
        lemma_find_index(b, y);
        if has_id(b, y) {
            let j = find_index(b, y)->0;
            if j < a.len() {
                assert(b[j].id == a[j].id && b[j].parent == a[j].parent);
                lemma_parent_link_at(a, j);
            }
        }
    }
}

/// Restoring the editor singletons (what `ensure_editor_singletons` and
/// `refresh_editor_singletons` do) on objects with distinct ids below the
/// counter, with room left for three more ids, keeps the ids distinct and below
/// the counter and keeps the hierarchy acyclic.
pub proof fn lemma_singletons_keep_forest<D: SceneData>(
    a: Seq<GameObject<D>>,
    na: u64,
    b: Seq<GameObject<D>>,
    nb: u64,
)
    requires
        singletons_ensured(a, na, b, nb),
        ids_unique(a),
        ids_below(a, na),
        na <= u64::MAX - 3,
        acyclic(a),
    ensures
        ids_unique(b),
        ids_below(b, nb),
        acyclic(b),
{
    lemma_singletons_links(a, na, b, nb);
    lemma_fewer_links_acyclic(a, b);
}

/// Creating an object keeps ids distinct and below the counter, and keeps the
/// hierarchy acyclic, as long as the counter has not reached `u64::MAX`.
pub proof fn lemma_create_keeps_forest<D: SceneData>(
    old: Seq<GameObject<D>>,
    next: u64,
    new: Seq<GameObject<D>>,
    id: GameObjectId,
)
    requires
        ids_unique(old),
        ids_below(old, next),
        acyclic(old),
        allocated_id(next) < u64::MAX,
        id.0 == allocated_id(next),
        new.len() == old.len() + 1,
        new.drop_last() == old,
        new.last().id == id,
        new.last().parent is None,
    ensures
        ids_unique(new),
        ids_below(new, next_after(next)),
        acyclic(new),
        has_id(new, id),
        !has_id(old, id),
{
    assert forall|i: int| 0 <= i < old.len() implies #[trigger] new[i] == old[i] by {
        assert(new.drop_last()[i] == new[i]);
    }
    assert(new[new.len() - 1] == new.last());
    assert forall|i: int, j: int| 0 <= i < new.len() && 0 <= j < new.len() && i != j implies (#[trigger] new[i]).id
        != (#[trigger] new[j]).id by {
        if i < old.len() && j < old.len() {
            assert(old[i].id != old[j].id);
        } else if i < old.len() {
            assert(old[i].id.0 < next);
        } else {
            assert(old[j].id.0 < next);
        }
    }
    assert forall|i: int| 0 <= i < new.len() implies (#[trigger] new[i]).id.0 < next_after(next) by {
        if i < old.len() {
            assert(old[i].id.0 < next);
        }
    }
    assert forall|y: GameObjectId| #[trigger] parent_link(new, y) is None || parent_link(new, y) == parent_link(old, y) by {
        lemma_find_index(new, y);
        if has_id(new, y) {
            let j = find_index(new, y)->0;
            if j < old.len() {
                lemma_parent_link_at(old, j);
                lemma_parent_link_at(new, j);
            }
        }
    }
    lemma_fewer_links_acyclic(old, new);
    assert(has_id(new, id)) by {
        assert(new[new.len() - 1].id == id);
    }
    assert(!has_id(old, id)) by {
        if has_id(old, id) {
            let i = choose|i: int| 0 <= i < old.len() && (#[trigger] old[i]).id == id;
            assert(old[i].id.0 < next);
        }
    }
}

/// Removing an object takes it and everything below it out of the scene, and
/// (as long as the counter stays three below `u64::MAX`) keeps ids distinct and
/// below the counter and the hierarchy acyclic.
pub proof fn lemma_remove_keeps_forest<D: SceneData>(
    old: Seq<GameObject<D>>,
    na: u64,
    new: Seq<GameObject<D>>,
    nb: u64,
    id: GameObjectId,
)
    requires
        ids_unique(old),
        ids_below(old, na),
        na <= u64::MAX - 3,
        acyclic(old),
        singletons_ensured(outside_subtree(old, id), na, new, nb),
    ensures
        ids_unique(new),
        ids_below(new, nb),
        acyclic(new),
        forall|x: GameObjectId| #[trigger] in_subtree(old, id, x) ==> !has_id(new, x),
{
    let rem = outside_subtree(old, id);
    let po = outside_pred(old, id);
    lemma_filter_ids_unique(old, po);
    lemma_filter_links(old, po);
    assert forall|r: int| 0 <= r < rem.len() implies old.contains(#[trigger] rem[r]) && !in_subtree(old, id, rem[r].id) by {
        lemma_filter_elem(old, po, r);
    }
    assert(ids_below(rem, na)) by {
        assert forall|r: int| 0 <= r < rem.len() implies (#[trigger] rem[r]).id.0 < na by {
            let m = choose|m: int| 0 <= m < old.len() && old[m] == rem[r];
            assert(old[m].id.0 < na);
        }
    }
    lemma_singletons_links(rem, na, new, nb);
    assert forall|y: GameObjectId| #[trigger] parent_link(new, y) is None || parent_link(new, y) == parent_link(old, y) by {
        assert(parent_link(new, y) is None || parent_link(new, y) == parent_link(rem, y));
        assert(parent_link(rem, y) is None || parent_link(rem, y) == parent_link(old, y));
    }
    lemma_fewer_links_acyclic(old, new);
    assert forall|x: GameObjectId| #[trigger] in_subtree(old, id, x) implies !has_id(new, x) by {
        crate::scene::lemma_subtree_has_id(old, id, x);
        let i = choose|i: int| 0 <= i < old.len() && (#[trigger] old[i]).id == x;
        if has_id(new, x) {
            let j = choose|j: int| 0 <= j < new.len() && (#[trigger] new[j]).id == x;
            if j < rem.len() {
                assert(new[j].id == rem[j].id);
            } else {
                assert(new[j].id.0 >= na);
                assert(old[i].id.0 < na);
            }
        }
    }
}

// ---------------------------------------------------------------------------
// Reparenting permutes the objects
// ---------------------------------------------------------------------------

/// Splitting a sequence by a predicate and its negation keeps every element.
proof fn lemma_filter_split_multiset<A>(s: Seq<A>, p: spec_fn(A) -> bool, q: spec_fn(A) -> bool)
    requires
        forall|x: A| #[trigger] q(x) == !p(x),
    ensures
        s.to_multiset() =~= s.filter(p).to_multiset().add(s.filter(q).to_multiset()),
    decreases s.len(),
{
    broadcast use vstd::seq_lib::to_multiset_build, vstd::seq_lib::to_multiset_len,
        vstd::multiset::lemma_multiset_empty_len, vstd::multiset::group_multiset_axioms;

    if s.len() == 0 {
        reveal(Seq::filter);
        assert(s.filter(p) =~= Seq::<A>::empty());
        assert(s.filter(q) =~= Seq::<A>::empty());
        assert(s.to_multiset().len() == 0);
        assert(s.filter(p).to_multiset().len() == 0);
        assert(s.filter(q).to_multiset().len() == 0);
    } else {
        let t = s.drop_last();
        let x = s.last();
        assert(s =~= t.push(x));
        lemma_filter_split_multiset(t, p, q);
        t.lemma_filter_push(x, p);
        t.lemma_filter_push(x, q);
        assert(s.to_multiset() =~= t.to_multiset().insert(x));
        if p(x) {
            assert(s.filter(p).to_multiset() =~= t.filter(p).to_multiset().insert(x));
            assert(s.filter(q) == t.filter(q));
        } else {
            assert(s.filter(q).to_multiset() =~= t.filter(q).to_multiset().insert(x));
            assert(s.filter(p) == t.filter(p));
        }
    }
}

/// Reparenting only reorders the objects and changes one parent: the objects
/// afterwards are those before, with one object carrying the child's id
/// replaced by itself under the new parent.
pub proof fn lemma_reparent_permutes<D: SceneData>(
    a: Seq<GameObject<D>>,
    b: Seq<GameObject<D>>,
    child: GameObjectId,
    new_parent: Option<GameObjectId>,
)
    requires
        reparented(a, b, child, new_parent),
        has_id(a, child),
    ensures
        exists|y: GameObject<D>|
            #[trigger] a.to_multiset().count(y) > 0 && y.id == child
                && b.to_multiset() == a.to_multiset().remove(y).insert(GameObject { parent: new_parent, ..y }),
{
    broadcast use vstd::seq_lib::lemma_multiset_commutative, vstd::multiset::group_multiset_axioms;

    let rem = outside_subtree(a, child);
    let ins = inside_subtree(a, child);
    let k = attach_index(rem, new_parent);
    match new_parent {
        Some(p) => lemma_attach_index(rem, p, rem.len() as int),
        None => {},
    }
    let moved = choose|moved: Seq<GameObject<D>>| #[trigger] parent_set(ins, moved, child, new_parent)
        && b == rem.take(k) + moved + rem.skip(k);
    // the objects split into the subtree and the rest
    lemma_filter_split_multiset(a, inside_pred(a, child), outside_pred(a, child));
    // the rest stays whole around the moved subtree
    assert(rem =~= rem.take(k) + rem.skip(k));
    vstd::seq_lib::lemma_multiset_commutative(rem.take(k), rem.skip(k));
    vstd::seq_lib::lemma_multiset_commutative(rem.take(k), moved);
    vstd::seq_lib::lemma_multiset_commutative(rem.take(k) + moved, rem.skip(k));
    // the subtree holds an object with the child's id
    lemma_subtree_root(a, child);
    let i0 = choose|i: int| 0 <= i < a.len() && (#[trigger] a[i]).id == child;
    a.lemma_filter_contains(inside_pred(a, child), i0);
    let w = choose|w: int| 0 <= w < ins.len() && ins[w] == a[i0];
    assert(has_id(ins, child));
    lemma_find_index(ins, child);
    let j = find_index(ins, child)->0;
    let y = ins[j];
    let y2 = GameObject { parent: new_parent, ..y };
    assert(moved == ins.update(j, y2));
    vstd::seq_lib::to_multiset_update(ins, j, y2);
    assert(ins.to_multiset().count(y) > 0) by {
        vstd::seq_lib::to_multiset_contains(ins, y);
    }
    assert(a.to_multiset() =~= ins.to_multiset().add(rem.to_multiset()));
    assert(a.to_multiset().count(y) > 0);
    assert(b.to_multiset() =~= rem.to_multiset().add(moved.to_multiset()));
    assert(b.to_multiset() =~= a.to_multiset().remove(y).insert(y2));
}

// ---------------------------------------------------------------------------
// Which components play the editor roles
// ---------------------------------------------------------------------------

/// `(g, c)` is the first component in scene order (objects in order, then
/// components in order) of which `pred` holds.
pub open spec fn first_where<D: SceneData>(
    objs: Seq<GameObject<D>>,
    pred: spec_fn(SceneComponent<D>) -> bool,
    g: int,
    c: int,
) -> bool {
    &&& 0 <= g < objs.len()
    &&& 0 <= c < objs[g].components@.len()
    &&& pred(objs[g].components@[c])
    &&& forall|g2: int, c2: int|
        0 <= g2 < objs.len() && 0 <= c2 < objs[g2].components@.len() && (g2 < g || (g2 == g && c2 < c))
            ==> !pred(#[trigger] objs[g2].components@[c2])
}

/// `pred` holds of some component of the scene.
pub open spec fn some_where<D: SceneData>(objs: Seq<GameObject<D>>, pred: spec_fn(SceneComponent<D>) -> bool) -> bool {
    exists|g: int, c: int| 0 <= g < objs.len() && 0 <= c < objs[g].components@.len() && pred(#[trigger] objs[g].components@[c])
}

proof fn lemma_first_where_query<D: SceneData>(
    objs: Seq<GameObject<D>>,
    q: ComponentQuery,
    pred: spec_fn(SceneComponent<D>) -> bool,
)
    requires
        forall|x: SceneComponent<D>| #[trigger] pred(x) == query_matches(q, x),
    ensures
        first_match(objs, q) is None <==> !some_where(objs, pred),
        first_match(objs, q) matches Some(p) ==> first_where(objs, pred, p.0, p.1),
{
    lemma_first_match_none(objs, q);
    if some_where(objs, pred) {
        let (g, c) = choose|g: int, c: int| 0 <= g < objs.len() && 0 <= c < objs[g].components@.len()
            && pred(#[trigger] objs[g].components@[c]);
        assert(crate::scene::valid_position(objs, g, c));
        assert(query_matches(q, crate::scene::component_at(objs, g, c)));
        assert(any_match(objs, q));
    }
    if any_match(objs, q) {
        let (g, c) = choose|g: int, c: int| crate::scene::valid_position(objs, g, c)
            && query_matches(q, #[trigger] crate::scene::component_at(objs, g, c));
        assert(pred(objs[g].components@[c]));
    }
    if first_match(objs, q) is Some {
        let p = first_match(objs, q)->0;
        assert(is_first_match(objs, q, p.0, p.1));
        assert forall|g2: int, c2: int|
            0 <= g2 < objs.len() && 0 <= c2 < objs[g2].components@.len() && (g2 < p.0 || (g2 == p.0 && c2 < p.1))
            implies !pred(#[trigger] objs[g2].components@[c2]) by {
            assert(crate::scene::valid_position(objs, g2, c2) && crate::scene::before(g2, c2, p.0, p.1));
            assert(!query_matches(q, crate::scene::component_at(objs, g2, c2)));
        }
    }
}

/// The main camera is the first enabled primary camera in scene order; when
/// there is none, the first enabled camera; then the first camera at all; and
/// no position when the scene has no camera.
pub proof fn lemma_camera_role_choice<D: SceneData>(objs: Seq<GameObject<D>>)
    ensures
        some_where(objs, |x: SceneComponent<D>| x matches SceneComponent::Camera(cam) && cam.enabled && cam.primary)
            ==> (camera_role(objs) matches Some(p) && first_where(
            objs,
            |x: SceneComponent<D>| x matches SceneComponent::Camera(cam) && cam.enabled && cam.primary,
            p.0,
            p.1,
        )),
        !some_where(objs, |x: SceneComponent<D>| x matches SceneComponent::Camera(cam) && cam.enabled && cam.primary)
            && some_where(objs, |x: SceneComponent<D>| x matches SceneComponent::Camera(cam) && cam.enabled)
            ==> (camera_role(objs) matches Some(p) && first_where(
            objs,
            |x: SceneComponent<D>| x matches SceneComponent::Camera(cam) && cam.enabled,
            p.0,
            p.1,
        )),
        !some_where(objs, |x: SceneComponent<D>| x matches SceneComponent::Camera(cam) && cam.enabled)
            && some_where(objs, |x: SceneComponent<D>| x is Camera)
            ==> (camera_role(objs) matches Some(p) && first_where(objs, |x: SceneComponent<D>| x is Camera, p.0, p.1)),
        !some_where(objs, |x: SceneComponent<D>| x is Camera) ==> camera_role(objs) is None,
{
    lemma_first_where_query(
        objs,
        ComponentQuery::EnabledPrimaryCamera,
        |x: SceneComponent<D>| x matches SceneComponent::Camera(cam) && cam.enabled && cam.primary,
    );
    lemma_first_where_query(
        objs,
        ComponentQuery::EnabledCamera,
        |x: SceneComponent<D>| x matches SceneComponent::Camera(cam) && cam.enabled,
    );
    lemma_first_where_query(objs, ComponentQuery::AnyCamera, |x: SceneComponent<D>| x is Camera);
}

/// The sun is the first enabled sun in scene order, else the first sun, and
/// no position when the scene has no sun.
pub proof fn lemma_sun_role_choice<D: SceneData>(objs: Seq<GameObject<D>>)
    ensures
        some_where(objs, |x: SceneComponent<D>| x matches SceneComponent::Sun(sun) && sun.enabled)
            ==> (sun_role(objs) matches Some(p) && first_where(
            objs,
            |x: SceneComponent<D>| x matches SceneComponent::Sun(sun) && sun.enabled,
            p.0,
            p.1,
        )),
        !some_where(objs, |x: SceneComponent<D>| x matches SceneComponent::Sun(sun) && sun.enabled)
            && some_where(objs, |x: SceneComponent<D>| x is Sun)
            ==> (sun_role(objs) matches Some(p) && first_where(objs, |x: SceneComponent<D>| x is Sun, p.0, p.1)),
        !some_where(objs, |x: SceneComponent<D>| x is Sun) ==> sun_role(objs) is None,
{
    lemma_first_where_query(
        objs,
        ComponentQuery::EnabledSun,
        |x: SceneComponent<D>| x matches SceneComponent::Sun(sun) && sun.enabled,
    );
    lemma_first_where_query(objs, ComponentQuery::AnySun, |x: SceneComponent<D>| x is Sun);
}

/// The local lights are the first enabled local-lights component in scene
/// order, else the first one, and no position when the scene has none.
pub proof fn lemma_local_lights_role_choice<D: SceneData>(objs: Seq<GameObject<D>>)
    ensures
        some_where(objs, |x: SceneComponent<D>| x matches SceneComponent::LocalLights(l) && l.enabled)
            ==> (local_lights_role(objs) matches Some(p) && first_where(
            objs,
            |x: SceneComponent<D>| x matches SceneComponent::LocalLights(l) && l.enabled,
            p.0,
            p.1,
        )),
        !some_where(objs, |x: SceneComponent<D>| x matches SceneComponent::LocalLights(l) && l.enabled)
            && some_where(objs, |x: SceneComponent<D>| x is LocalLights)
            ==> (local_lights_role(objs) matches Some(p) && first_where(objs, |x: SceneComponent<D>| x is LocalLights, p.0, p.1)),
        !some_where(objs, |x: SceneComponent<D>| x is LocalLights) ==> local_lights_role(objs) is None,
{
    lemma_first_where_query(
        objs,
        ComponentQuery::EnabledLocalLights,
        |x: SceneComponent<D>| x matches SceneComponent::LocalLights(l) && l.enabled,
    );
    lemma_first_where_query(objs, ComponentQuery::AnyLocalLights, |x: SceneComponent<D>| x is LocalLights);
}

// ---------------------------------------------------------------------------
// Normalizing keeps the stored hierarchy
// ---------------------------------------------------------------------------

/// After normalizing a loaded scene (renumbering, then restoring the editor
/// singletons), a stored object keeps its parent exactly when that parent is
/// the id of one of the stored objects after renumbering, is not the object's
/// own id, and the object is not stored as a builtin; otherwise it ends at the
/// top level.
pub proof fn lemma_normalize_keeps_parents<D: SceneData>(
    a: Seq<GameObject<D>>,
    na: u64,
    mid: Seq<GameObject<D>>,
    n1: u64,
    b: Seq<GameObject<D>>,
    nb: u64,
)
    requires
        ids_normalized(a, na, mid, n1),
        singletons_ensured(mid, n1, b, nb),
    ensures
        forall|i: int| 0 <= i < a.len() ==> (#[trigger] b[i]).parent == (match a[i].parent {
            Some(p) => if (exists|j: int| 0 <= j < a.len() && b[j].id == p) && p != b[i].id && a[i].builtin is None {
                Some(p)
            } else {
                None
            },
            None => None,
        }),
{
    let ids = renumbered(a, na, a.len()).0;
    crate::scene::lemma_renumbered_len(a, na, a.len());
    assert forall|i: int| 0 <= i < a.len() implies (#[trigger] b[i]).parent == (match a[i].parent {
        Some(p) => if (exists|j: int| 0 <= j < a.len() && b[j].id == p) && p != b[i].id && a[i].builtin is None {
            Some(p)
        } else {
            None
        },
        None => None,
    }) by {
        assert(b[i].parent == mid[i].parent && b[i].id == mid[i].id);
        assert(mid[i].parent == kept_parent(a[i], ids[i], ids));
        assert(mid[i].id == ids[i]);
        if let Some(p) = a[i].parent {
            if ids.contains(p) {
                let j = choose|j: int| 0 <= j < ids.len() && ids[j] == p;
                assert(b[j].id == mid[j].id);
                assert(mid[j].id == ids[j]);
            }
            if exists|j: int| 0 <= j < a.len() && b[j].id == p {
                let j = choose|j: int| 0 <= j < a.len() && b[j].id == p;
                assert(b[j].id == mid[j].id);
                assert(mid[j].id == ids[j]);
                assert(ids.contains(p));
            }
        }
    }
}

// ---------------------------------------------------------------------------
// Where a reparented subtree goes
// ---------------------------------------------------------------------------

/// The remaining object at `q` is `p` or lies below `p`.
spec fn under_at<D: SceneData>(rem: Seq<GameObject<D>>, p: GameObjectId, q: int) -> bool {
    rem[q].id == p || is_descendant_of(rem, rem[q].id, p)
}

proof fn lemma_attach_from_last<D: SceneData>(rem: Seq<GameObject<D>>, p: GameObjectId, j: int)
    requires
        0 <= j <= rem.len(),
    ensures
        (exists|q: int| 0 <= q < j && #[trigger] under_at(rem, p, q)) ==> {
            let r = crate::scene::attach_index_from(rem, p, j);
            &&& 1 <= r <= j
            &&& under_at(rem, p, r - 1)
            &&& forall|q2: int| r - 1 < q2 < j ==> !#[trigger] under_at(rem, p, q2)
        },
        !(exists|q: int| 0 <= q < j && #[trigger] under_at(rem, p, q)) ==> crate::scene::attach_index_from(rem, p, j) == rem.len(),
    decreases j,
{
    if j > 0 {
        lemma_attach_from_last(rem, p, j - 1);
        if under_at(rem, p, j - 1) {
        } else {
            if exists|q: int| 0 <= q < j && #[trigger] under_at(rem, p, q) {
                let q = choose|q: int| 0 <= q < j && #[trigger] under_at(rem, p, q);
                assert(q < j - 1);
            }
        }
    }
}

/// Moving a subtree under `p` puts it, in its old order, right after the last
/// remaining object that is `p` or lies below `p`; the remaining objects keep
/// their order around it. When no remaining object is `p` or below it, the
/// subtree goes to the end.
pub proof fn lemma_reparent_attaches_after_parent<D: SceneData>(
    a: Seq<GameObject<D>>,
    b: Seq<GameObject<D>>,
    child: GameObjectId,
    p: GameObjectId,
)
    requires
        reparented(a, b, child, Some(p)),
    ensures
        (exists|q: int| 0 <= q < outside_subtree(a, child).len() && (#[trigger] outside_subtree(a, child)[q].id == p
            || is_descendant_of(outside_subtree(a, child), outside_subtree(a, child)[q].id, p)))
            ==> exists|q: int, moved: Seq<GameObject<D>>|
            #![trigger parent_set(inside_subtree(a, child), moved, child, Some(p)), outside_subtree(a, child)[q]]
            0 <= q < outside_subtree(a, child).len()
            && (outside_subtree(a, child)[q].id == p || is_descendant_of(outside_subtree(a, child), outside_subtree(a, child)[q].id, p))
            && (forall|q2: int| q < q2 < outside_subtree(a, child).len() ==> !(#[trigger] outside_subtree(a, child)[q2].id == p
                || is_descendant_of(outside_subtree(a, child), outside_subtree(a, child)[q2].id, p)))
            && parent_set(inside_subtree(a, child), moved, child, Some(p))
            && b == outside_subtree(a, child).take(q + 1) + moved + outside_subtree(a, child).skip(q + 1),
        !(exists|q: int| 0 <= q < outside_subtree(a, child).len() && (#[trigger] outside_subtree(a, child)[q].id == p
            || is_descendant_of(outside_subtree(a, child), outside_subtree(a, child)[q].id, p)))
            ==> exists|moved: Seq<GameObject<D>>| #[trigger] parent_set(inside_subtree(a, child), moved, child, Some(p))
            && b == outside_subtree(a, child) + moved,
{
    let rem = outside_subtree(a, child);
    let ins = inside_subtree(a, child);
    lemma_attach_from_last(rem, p, rem.len() as int);
    let k = attach_index(rem, Some(p));
    let moved = choose|moved: Seq<GameObject<D>>| #[trigger] parent_set(ins, moved, child, Some(p))
        && b == rem.take(k) + moved + rem.skip(k);
    if exists|q: int| 0 <= q < rem.len() && (#[trigger] rem[q].id == p || is_descendant_of(rem, rem[q].id, p)) {
        let q0 = choose|q: int| 0 <= q < rem.len() && (#[trigger] rem[q].id == p || is_descendant_of(rem, rem[q].id, p));
        assert(under_at(rem, p, q0));
        let q = k - 1;
        assert forall|q2: int| q < q2 < rem.len() implies !(#[trigger] rem[q2].id == p || is_descendant_of(rem, rem[q2].id, p)) by {
            assert(!under_at(rem, p, q2));
        }
        assert(under_at(rem, p, q));
    } else {
        assert forall|q: int| 0 <= q < rem.len() implies !#[trigger] under_at(rem, p, q) by {
            assert(!(rem[q].id == p || is_descendant_of(rem, rem[q].id, p)));
        }
        assert(rem.take(rem.len() as int) =~= rem);
        assert(rem.skip(rem.len() as int) =~= Seq::<GameObject<D>>::empty());
        assert(b =~= rem + moved);
    }
}

/// After normalizing a loaded scene, every stored object keeps its enabled
/// flag and transform; one that does not end as an editor singleton carries
/// its stored name sanitized, or `GameObject <id>` when nothing is left of it.
pub proof fn lemma_normalize_keeps_objects<D: SceneData>(
    a: Seq<GameObject<D>>,
    na: u64,
    mid: Seq<GameObject<D>>,
    n1: u64,
    b: Seq<GameObject<D>>,
    nb: u64,
)
    requires
        ids_normalized(a, na, mid, n1),
        singletons_ensured(mid, n1, b, nb),
    ensures
        b.len() >= a.len(),
        forall|i: int| 0 <= i < a.len() ==> (#[trigger] b[i]).enabled == a[i].enabled && b[i].transform == a[i].transform,
        forall|i: int| 0 <= i < a.len() && expected_builtin(b, i) is None ==> (#[trigger] b[i]).name@ == (
            if crate::text::sanitized_label(a[i].name@).len() > 0 {
                crate::text::sanitized_label(a[i].name@)
            } else {
                "GameObject "@ + decimal(b[i].id.0 as nat)
            }),
{
    let ids = renumbered(a, na, a.len()).0;
    crate::scene::lemma_renumbered_len(a, na, a.len());
    assert forall|i: int| 0 <= i < a.len() && expected_builtin(b, i) is None implies (#[trigger] b[i]).name@ == (
        if crate::text::sanitized_label(a[i].name@).len() > 0 {
            crate::text::sanitized_label(a[i].name@)
        } else {
            "GameObject "@ + decimal(b[i].id.0 as nat)
        }) by {
        assert(b[i].name == mid[i].name && b[i].id == mid[i].id);
        assert(mid[i].name@ == object_name(ids[i], a[i].name@));
    }
    assert forall|i: int| 0 <= i < a.len() implies (#[trigger] b[i]).enabled == a[i].enabled && b[i].transform == a[i].transform by {
        assert(b[i].enabled == mid[i].enabled && b[i].transform == mid[i].transform);
    }
}

/// A move is allowed exactly when the child exists, its parent changes, a
/// builtin is not put under another object, and a new parent exists and is
/// neither the child nor below it.
pub proof fn lemma_can_reparent_conditions<D: SceneData>(
    objs: Seq<GameObject<D>>,
    child: GameObjectId,
    new_parent: Option<GameObjectId>,
)
    ensures
        can_reparent(objs, child, new_parent) <==> (exists|i: int| #![trigger objs[i]]
            0 <= i < objs.len() && objs[i].id == child && (forall|j: int| 0 <= j < i ==> (#[trigger] objs[j]).id != child)
            && objs[i].parent != new_parent
            && !(objs[i].builtin is Some && new_parent is Some)
            && (new_parent matches Some(p) ==> p != child && (exists|k: int| 0 <= k < objs.len() && (#[trigger] objs[k]).id == p)
                && !(exists|n: nat| n >= 1 && #[trigger] ancestor_at(objs, p, n) == Some(child)))),
{
    lemma_find_index(objs, child);
    if can_reparent(objs, child, new_parent) {
        let i = find_index(objs, child)->0;
        assert(objs[i].id == child);
    }
    if exists|i: int| #![trigger objs[i]]
            0 <= i < objs.len() && objs[i].id == child && (forall|j: int| 0 <= j < i ==> (#[trigger] objs[j]).id != child)
            && objs[i].parent != new_parent
            && !(objs[i].builtin is Some && new_parent is Some)
            && (new_parent matches Some(p) ==> p != child && (exists|k: int| 0 <= k < objs.len() && (#[trigger] objs[k]).id == p)
                && !(exists|n: nat| n >= 1 && #[trigger] ancestor_at(objs, p, n) == Some(child))) {
        let i = choose|i: int| #![trigger objs[i]]
            0 <= i < objs.len() && objs[i].id == child && (forall|j: int| 0 <= j < i ==> (#[trigger] objs[j]).id != child)
            && objs[i].parent != new_parent
            && !(objs[i].builtin is Some && new_parent is Some)
            && (new_parent matches Some(p) ==> p != child && (exists|k: int| 0 <= k < objs.len() && (#[trigger] objs[k]).id == p)
                && !(exists|n: nat| n >= 1 && #[trigger] ancestor_at(objs, p, n) == Some(child)));
        let f = find_index(objs, child)->0;
        if f < i {
            assert(objs[f].id == child);
        }
        if i < f {
            assert(objs[i].id == child);
        }
        assert(f == i);
    }
}

// ---------------------------------------------------------------------------
// Naming objects after mesh files
// ---------------------------------------------------------------------------

/// `s` spells `scene` in any mix of ASCII upper and lower case.
pub open spec fn spells_scene(s: Seq<char>) -> bool {
    &&& s.len() == 5
    &&& (s[0] == 's' || s[0] == 'S')
    &&& (s[1] == 'c' || s[1] == 'C')
    &&& (s[2] == 'e' || s[2] == 'E')
    &&& (s[3] == 'n' || s[3] == 'N')
    &&& (s[4] == 'e' || s[4] == 'E')
}

proof fn lemma_lower_is(x: char, lower: char, upper: char)
    requires
        'a' <= lower <= 'z',
        upper as u32 + 32 == lower as u32,
    ensures
        crate::text::ascii_lower(x) == lower <==> (x == lower || x == upper),
{
    if 'A' <= x && x <= 'Z' {
        assert((((x as u32) + 32) as char) as u32 == x as u32 + 32);
    }
}

proof fn lemma_spells_scene(s: Seq<char>)
    ensures
        crate::scene::eq_ignore_ascii_case_scene(s) <==> spells_scene(s),
{
    reveal_strlit("scene");
    lemma_lower_is(s[0], 's', 'S');
    lemma_lower_is(s[1], 'c', 'C');
    lemma_lower_is(s[2], 'e', 'E');
    lemma_lower_is(s[3], 'n', 'N');
    lemma_lower_is(s[4], 'e', 'E');
    let t = "scene"@;
    assert(t[0] == 's' && t[1] == 'c' && t[2] == 'e' && t[3] == 'n' && t[4] == 'e');
    if spells_scene(s) {
        assert forall|i: int| 0 <= i < s.len() implies crate::text::ascii_lower(s[i]) == crate::text::ascii_lower(t[i]) by {
            assert(i == 0 || i == 1 || i == 2 || i == 3 || i == 4);
        }
    }
    if crate::scene::eq_ignore_ascii_case_scene(s) {
        assert(crate::text::ascii_lower(s[0]) == crate::text::ascii_lower(t[0]));
        assert(crate::text::ascii_lower(s[1]) == crate::text::ascii_lower(t[1]));
        assert(crate::text::ascii_lower(s[2]) == crate::text::ascii_lower(t[2]));
        assert(crate::text::ascii_lower(s[3]) == crate::text::ascii_lower(t[3]));
        assert(crate::text::ascii_lower(s[4]) == crate::text::ascii_lower(t[4]));
    }
}

/// The base name of an object for a mesh file is its stem; a stem that spells
/// `scene` in any case gives way to the name of the directory holding the
/// file, when there is one; a missing or empty stem gives `GameObject`.
pub proof fn lemma_mesh_base_name_rule(stem: Seq<char>, dir: Option<Seq<char>>)
    ensures
        stem.len() > 0 && !spells_scene(stem) ==> crate::scene::base_name_from_parts(Some(stem), dir) == stem,
        spells_scene(stem) ==> crate::scene::base_name_from_parts(Some(stem), dir) == (match dir {
            Some(d) => d,
            None => stem,
        }),
        crate::scene::base_name_from_parts(None, dir) == "GameObject"@,
        crate::scene::base_name_from_parts(Some(Seq::empty()), dir) == "GameObject"@,
{
    reveal_strlit("GameObject");
    lemma_spells_scene(stem);
    lemma_spells_scene("GameObject"@);
}

/// The counter after renumbering is the start counter (at least 1) or one
/// past an id handed out, whichever is largest.
proof fn lemma_renumbered_counter_exact<D: SceneData>(objs: Seq<GameObject<D>>, next: u64, n: nat)
    requires
        n <= objs.len(),
        renumbered(objs, next, n).1 < u64::MAX,
    ensures
        renumbered(objs, next, n).0.len() == n,
        renumbered(objs, next, n).1 >= max_u64(next, 1),
        forall|k: int| 0 <= k < n ==> (#[trigger] renumbered(objs, next, n).0[k]).0 < renumbered(objs, next, n).1,
        renumbered(objs, next, n).1 == max_u64(next, 1) || exists|k: int|
            0 <= k < n && (#[trigger] renumbered(objs, next, n).0[k]).0 + 1 == renumbered(objs, next, n).1,
    decreases n,
{
    if n > 0 {
        let m = (n - 1) as nat;
        lemma_renumbered_counter_grows(objs, next, n);
        lemma_renumbered_counter_exact(objs, next, m);
        let (ids, nx) = renumbered(objs, next, m);
        let (all, nx_all) = renumbered(objs, next, n);
        let id = objs[m as int].id;
        if needs_new_id(ids, id) {
            assert(all == ids.push(GameObjectId(nx)));
            assert(all[m as int].0 + 1 == nx_all);
        } else {
            assert(all == ids.push(id));
            if id.0 + 1 > nx {
                assert(all[m as int].0 + 1 == nx_all);
            } else {
                assert(nx_all == nx);
                if nx != max_u64(next, 1) {
                    let k = choose|k: int| 0 <= k < m && (#[trigger] ids[k]).0 + 1 == nx;
                    assert(all[k] == ids[k]);
                }
            }
        }
        assert forall|k: int| 0 <= k < n implies (#[trigger] all[k]).0 < nx_all by {
            if k < m {
                assert(all[k] == ids[k]);
            }
        }
    }
}

/// After renumbering a loaded scene, the counter is at least the stored
/// counter (and at least 1), lies above every id, and is the least such value:
/// the stored counter itself, or one past some id.
pub proof fn lemma_normalize_counter<D: SceneData>(a: Seq<GameObject<D>>, na: u64, mid: Seq<GameObject<D>>, n1: u64)
    requires
        ids_normalized(a, na, mid, n1),
        n1 < u64::MAX,
    ensures
        n1 >= na,
        n1 >= 1,
        forall|i: int| 0 <= i < mid.len() ==> (#[trigger] mid[i]).id.0 < n1,
        n1 == na || n1 == 1 || exists|i: int| 0 <= i < mid.len() && (#[trigger] mid[i]).id.0 + 1 == n1,
{
    crate::scene::lemma_renumbered_len(a, na, a.len());
    lemma_renumbered_counter_exact(a, na, a.len());
    let ids = renumbered(a, na, a.len()).0;
    assert forall|i: int| 0 <= i < mid.len() implies (#[trigger] mid[i]).id.0 < n1 by {
        assert(mid[i].id == ids[i]);
    }
    if exists|k: int| 0 <= k < a.len() && (#[trigger] ids[k]).0 + 1 == renumbered(a, na, a.len()).1 {
        let k = choose|k: int| 0 <= k < a.len() && (#[trigger] ids[k]).0 + 1 == renumbered(a, na, a.len()).1;
        assert(mid[k].id == ids[k]);
    }
}

} // verus!
