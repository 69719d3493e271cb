pub mod attachment_system;
pub mod avatar_control_system;
pub mod camera_system;
pub mod cursor_system;
pub mod gesture_system;
pub mod input_system;
pub mod light_system;
pub mod lit_voxel_system;
pub mod renderable_system;
pub mod system_world;
pub mod texture_system;
pub mod transform_system;
pub mod zone_query;

use vstd::prelude::*;
use crate::ecs::world::ComponentId;

verus! {

/// `ids` after registering `c` once: appended unless already present.
pub open spec fn registered(ids: Seq<ComponentId>, c: ComponentId) -> Seq<ComponentId> {
    if ids.contains(c) {
        ids
    } else {
        ids.push(c)
    }
}

/// Register `c` in a duplicate-free id list.
pub fn register_once(ids: &mut Vec<ComponentId>, c: ComponentId)
    requires
        old(ids)@.no_duplicates(),
    ensures
        final(ids)@ == registered(old(ids)@, c),
        final(ids)@.no_duplicates(),
{
    let n = ids.len();
    let mut i: usize = 0;
    while i < n
        invariant
            n == ids@.len(),
            ids@ == old(ids)@,
            ids@.no_duplicates(),
            i <= n,
            forall|j: int| 0 <= j < i ==> ids@[j] != c,
        decreases n - i,
    {
        if ids[i] == c {
            return;
        }
        i = i + 1;
    }
    let ghost before = ids@;
    ids.push(c);
    proof {
        assert forall|a: int, b: int| 0 <= a < b < ids@.len() implies ids@[a] != ids@[b] by {
            if b == ids@.len() - 1 {
                assert(before[a] != c);
            }
        }
    }
}


/// Registering a component a second time changes nothing.
pub proof fn law_register_idempotent(ids: Seq<ComponentId>, c: ComponentId)
    ensures
        registered(registered(ids, c), c) == registered(ids, c),
        registered(ids, c).contains(c),
{
    if !ids.contains(c) {
        assert(ids.push(c)[ids.len() as int] == c);
    }
}

} // verus!
