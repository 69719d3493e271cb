use vstd::prelude::*;
use crate::ecs::component::TransformComponent;
use crate::ecs::world::{ComponentId, World, id_of, lemma_id_of, lemma_nth_parent_shift, lemma_parent_rank, nth_parent, parent_key};

verus! {

/// Transform propagation system; the matrix work lives with the float types.
pub struct TransformSystem;

/// `c` exists and is a transform.
pub open spec fn is_transform(w: World, c: ComponentId) -> bool {
    w.contains(c) && w.component(c) is Transform
}

/// The first transform met walking up from `c` (itself included), following
/// at most `fuel` parent links.
pub open spec fn transform_walk(w: World, c: ComponentId, fuel: nat) -> Option<ComponentId>
    decreases fuel,
{
    if !w.contains(c) {
        None
    } else if w.component(c) is Transform {
        Some(c)
    } else if fuel == 0 {
        None
    } else {
        match w.parent(c) {
            Some(p) => transform_walk(w, p, (fuel - 1) as nat),
            None => None,
        }
    }
}

/// The nearest transform at or above `c`: `c` itself if it is one, else the
/// first transform among its ancestors; `None` if there is none or `c` is
/// missing.
pub open spec fn nearest_transform(w: World, c: ComponentId) -> Option<ComponentId> {
    transform_walk(w, c, w.spec_rank(c@))
}

/// Any fuel that covers the rank of `c` gives the same walk.
pub proof fn lemma_transform_walk_fuel(w: World, c: ComponentId, fuel: nat)
    requires
        w.wf(),
        fuel >= w.spec_rank(c@),
    ensures
        transform_walk(w, c, fuel) == nearest_transform(w, c),
    decreases fuel,
{
    if w.contains(c) && !(w.component(c) is Transform) && w.parent(c) is Some {
        let p = w.parent(c)->Some_0;
        lemma_parent_rank(w, c);
        lemma_transform_walk_fuel(w, p, (fuel - 1) as nat);
        lemma_transform_walk_fuel(w, p, (w.spec_rank(c@) - 1) as nat);
    }
}

proof fn lemma_transform_walk_is_transform(w: World, c: ComponentId, fuel: nat)
    ensures
        transform_walk(w, c, fuel) matches Some(t) ==> is_transform(w, t),
    decreases fuel,
{
    if fuel > 0 && w.contains(c) && w.parent(c) is Some {
        lemma_transform_walk_is_transform(w, w.parent(c)->Some_0, (fuel - 1) as nat);
    }
}

/// The nearest transform, when there is one, is a transform.
pub proof fn lemma_nearest_transform_is_transform(w: World, c: ComponentId)
    ensures
        nearest_transform(w, c) matches Some(t) ==> is_transform(w, t),
{
    lemma_transform_walk_is_transform(w, c, w.spec_rank(c@));
}

/// The nearest transform is the closest one on the way up: when the node
/// `n` links above `c` is a transform and none of the nodes from `c` up to
/// (not including) it is, the nearest transform of `c` is that node.
pub proof fn law_nearest_transform_is_closest(w: World, c: ComponentId, n: nat)
    requires
        w.wf(),
        nth_parent(w.nodes(), c@, n) matches Some(t) && is_transform(w, id_of(t)),
        forall|j: nat| j < n ==> match #[trigger] nth_parent(w.nodes(), c@, j) {
            Some(q) => !is_transform(w, id_of(q)),
            None => true,
        },
    ensures
        nearest_transform(w, c) == Some(id_of(nth_parent(w.nodes(), c@, n)->Some_0)),
    decreases n,
{
    let m = w.nodes();
    lemma_id_of(c, c@);
    if n == 0 {
        assert(nth_parent(m, c@, 0) == Some(c@));
    } else {
        assert(nth_parent(m, c@, 0) == Some(c@));
        assert(!is_transform(w, id_of(c@)));
        // The walk reaches a node, so `c` has a parent.
        assert(w.contains(c) && w.parent(c) is Some) by {
            if !(w.contains(c) && w.parent(c) is Some) {
                assert(parent_key(m, c@) is None);
                assert(nth_parent(m, c@, 1) == parent_key(m, c@)) by {
                    assert(nth_parent(m, c@, 1) == match nth_parent(m, c@, 0) {
                        Some(j) => parent_key(m, j),
                        None => None,
                    });
                }
                crate::ecs::world::lemma_nth_parent_none_persists(m, c@, 1, n);
            }
        }
        let p = w.parent(c)->Some_0;
        assert(parent_key(m, c@) == Some(p@));
        lemma_nth_parent_shift(m, c@, p@, (n - 1) as nat);
        assert forall|j: nat| j < (n - 1) as nat implies match #[trigger] nth_parent(m, p@, j) {
            Some(q) => !is_transform(w, id_of(q)),
            None => true,
        } by {
            lemma_nth_parent_shift(m, c@, p@, j);
            assert(nth_parent(m, c@, j + 1) == nth_parent(m, p@, j));
        }
        lemma_id_of(p, p@);
        law_nearest_transform_is_closest(w, p, (n - 1) as nat);
        lemma_parent_rank(w, c);
        lemma_transform_walk_fuel(w, p, (w.spec_rank(c@) - 1) as nat);
    }
}

impl TransformSystem {
    pub fn new() -> (s: Self)
        ensures
            s == TransformSystem,
    {
        TransformSystem
    }

    /// Whether `ancestor` lies strictly above `node`.
    pub fn is_descendant_of(world: &World, node: ComponentId, ancestor: ComponentId) -> (r: bool)
        requires
            world.wf(),
        ensures
            r == world.ancestor(ancestor, node),
    {
        world.is_ancestor_of(ancestor, node)
    }

    /// The nearest transform at or above `cid`.
    pub fn nearest_transform_self_or_ancestor(world: &World, cid: ComponentId) -> (r: Option<ComponentId>)
        requires
            world.wf(),
        ensures
            r == nearest_transform(*world, cid),
    {
        if world.get_component_by_id_as::<TransformComponent>(cid).is_some() {
            return Some(cid);
        }
        let mut cur = cid;
        loop
            invariant
                world.wf(),
                nearest_transform(*world, cid) == nearest_transform(*world, cur),
                !is_transform(*world, cur),
            decreases world.spec_rank(cur@),
        {
            match world.parent_of(cur) {
                None => {
                    return None;
                },
                Some(p) => {
                    proof {
                        lemma_parent_rank(*world, cur);
                        lemma_transform_walk_fuel(*world, p, (world.spec_rank(cur@) - 1) as nat);
                    }
                    if world.get_component_by_id_as::<TransformComponent>(p).is_some() {
                        return Some(p);
                    }
                    cur = p;
                },
            }
        }
    }
}

} // verus!
