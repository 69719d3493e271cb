use vstd::prelude::*;
use crate::ecs::component::ComponentKind;
use crate::ecs::component::zone::{role_names, zone_has_role};
use crate::ecs::world::{ComponentId, World, in_subtree, is_ancestor};


verus! {

/// Where a point lies relative to a zone.
#[derive(Debug, Clone, Copy, PartialEq, Eq, Structural)]
pub enum ZoneRelation {
    Outside,
    Boundary,
    Inside,
}

/// Why a zone query could not be answered.
#[derive(Debug, Clone, Copy, PartialEq, Eq)]
pub enum ZoneQueryError {
    NotZone(ComponentId),
    Disabled(ComponentId),
    UnresolvedFrame(ComponentId),
    FrameHasNoTransform { zone: ComponentId, resolved: ComponentId },
    SingularFrame(ComponentId),
}

/// The payload is an enabled zone carrying `role` (any zone when `role` is
/// `None`).
pub open spec fn zone_selected(kind: ComponentKind, role: Option<Seq<char>>) -> bool {
    match kind {
        ComponentKind::Zone(z) => z.enabled && match role {
            Some(r) => role_names(z.roles@).contains(r),
            None => true,
        },
        _ => false,
    }
}

/// The components of `w` that are enabled zones carrying `role`.
pub open spec fn selected_in(w: World, role: Option<Seq<char>>) -> spec_fn(ComponentId) -> bool {
    |x: ComponentId| w.contains(x) && zone_selected(w.component(x), role)
}

/// Enumerate the enabled zones in the subtree of `root` (`root` included),
/// optionally only those carrying `role`, in component-tree order: every zone
/// after the zones above it.
#[verifier::spinoff_prover]
pub fn zones_in_subtree(world: &World, root: ComponentId, role: Option<&str>) -> (zones: Vec<ComponentId>)
    requires
        world.wf(),
    ensures
        zones@ == (if world.contains(root) {
            world.tree_order(root).filter(selected_in(*world, match role {
                Some(r) => Some(r@),
                None => None,
            }))
        } else {
            Seq::<ComponentId>::empty()
        }),
        zones@.no_duplicates(),
        forall|x: ComponentId| #[trigger] zones@.contains(x) <==> (world.contains(root) && world.contains(x)
            && in_subtree(world.nodes(), root@, x@) && zone_selected(
            world.component(x),
            match role {
                Some(r) => Some(r@),
                None => None,
            },
        )),
        forall|i: int, j: int|
            0 <= i < zones@.len() && 0 <= j < zones@.len() && is_ancestor(world.nodes(), #[trigger] zones@[j]@, #[trigger] zones@[i]@)
                ==> j < i,
{
    let ghost want = match role {
        Some(r) => Some(r@),
        None => None,
    };
    let order = world.subtree_order(root);
    let mut zones: Vec<ComponentId> = Vec::new();
    let ghost mut idx: Seq<int> = Seq::empty();
    let n = order.len();
    let mut i: usize = 0;
    while i < n
        invariant
            world.wf(),
            n == order@.len(),
            i <= n,
            order@.no_duplicates(),
            forall|x: ComponentId| #[trigger] order@.contains(x) <==> (world.contains(root) && world.contains(x)
                && in_subtree(world.nodes(), root@, x@)),
            forall|a: int, b: int|
                0 <= a < order@.len() && 0 <= b < order@.len() && is_ancestor(world.nodes(), #[trigger] order@[b]@, #[trigger] order@[a]@)
                    ==> b < a,
            want == (match role {
                Some(r) => Some(r@),
                None => None,
            }),
            idx.len() == zones@.len(),
            forall|t: int| 0 <= t < idx.len() ==> 0 <= #[trigger] idx[t] < i && order@[idx[t]] == zones@[t],
            forall|t1: int, t2: int| 0 <= t1 < t2 < idx.len() ==> #[trigger] idx[t1] < #[trigger] idx[t2],
            forall|x: ComponentId| #[trigger] zones@.contains(x) <==> (order@.take(i as int).contains(x)
                && zone_selected(world.component(x), want)),
            zones@ == order@.take(i as int).filter(selected_in(*world, want)),
            world.contains(root) ==> order@ == world.tree_order(root),
            !world.contains(root) ==> order@.len() == 0,
        decreases n - i,
    {
        let x = order[i];
        assert(order@.contains(x));
        let selected = match world.get_component(x) {
            Some(ComponentKind::Zone(z)) => z.enabled && match role {
                Some(r) => zone_has_role(z, r),
                None => true,
            },
            _ => false,
        };
        let ghost z0 = zones@;
        proof {
            broadcast use vstd::seq_lib::group_seq_properties;
            assert(order@.take(i + 1) =~= order@.take(i as int).push(x));
            order@.take(i as int).lemma_filter_push(x, selected_in(*world, want));
        }
        if selected {
            zones.push(x);
            proof {
                idx = idx.push(i as int);
            }
        }
        proof {
            broadcast use vstd::seq_lib::group_seq_properties;
            assert forall|y: ComponentId| #[trigger] zones@.contains(y) <==> (order@.take(i + 1).contains(y)
                && zone_selected(world.component(y), want)) by {
                if zones@.contains(y) && y != x {
                    let t = choose|t: int| 0 <= t < zones@.len() && zones@[t] == y;
                    assert(z0[t] == y);
                    assert(z0.contains(y));
                }
                if z0.contains(y) {
                    let t = choose|t: int| 0 <= t < z0.len() && z0[t] == y;
                    assert(zones@[t] == y);
                }
                if y == x && selected {
                    assert(zones@[z0.len() as int] == x);
                }
                if order@.take(i + 1).contains(y) && y != x {
                    let t1 = order@.take(i + 1);
                    let k = choose|k: int| 0 <= k < t1.len() && t1[k] == y;
                    assert(order@.take(i as int)[k] == y);
                }
                if order@.take(i as int).contains(y) {
                    let t0 = order@.take(i as int);
                    let k = choose|k: int| 0 <= k < t0.len() && t0[k] == y;
                    assert(order@.take(i + 1)[k] == y);
                }
            }
        }
        i = i + 1;
    }
    proof {
        assert(order@.take(n as int) =~= order@);
        if !world.contains(root) {
            assert(zones@ =~= Seq::<ComponentId>::empty());
        }
        assert forall|a: int, b: int| 0 <= a < b < zones@.len() implies zones@[a] != zones@[b] by {
            assert(idx[a] < idx[b]);
            assert(order@[idx[a]] == zones@[a]);
            assert(order@[idx[b]] == zones@[b]);
        }
        assert forall|a: int, b: int|
            0 <= a < zones@.len() && 0 <= b < zones@.len() && is_ancestor(world.nodes(), #[trigger] zones@[b]@, #[trigger] zones@[a]@)
                implies b < a by {
            assert(order@[idx[a]] == zones@[a]);
            assert(order@[idx[b]] == zones@[b]);
            if b >= a {
                if b > a {
                    assert(idx[a] < idx[b]);
                }
                assert(idx[b] < idx[a]);
            }
        }
    }
    zones
}

} // verus!
