use vstd::prelude::*;
use std::collections::HashSet;
use crate::ecs::world::ComponentId;

verus! {

broadcast use vstd::std_specs::hash::group_hash_axioms;

/// Keeps the registered avatar-control components.
pub struct AvatarControlSystem {
    /// Avatars, by the 64-bit form of their ids.
    avatars: HashSet<u64>,
    /// Avatars whose settled-capsule diagnostics are still to be logged.
    pending_capsule_diagnostics: HashSet<u64>,
    alignment_diagnostic_tick: u64,
}

impl AvatarControlSystem {
    pub closed spec fn avatars(&self) -> Set<u64> {
        self.avatars@
    }

    pub closed spec fn pending_diagnostics(&self) -> Set<u64> {
        self.pending_capsule_diagnostics@
    }

    /// Frames counted for the periodic hand-alignment diagnostics.
    pub closed spec fn alignment_diagnostic_tick(&self) -> u64 {
        self.alignment_diagnostic_tick
    }

    /// Diagnostics are pending only for avatars.
    pub closed spec fn wf(&self) -> bool {
        self.pending_capsule_diagnostics@.subset_of(self.avatars@)
    }

    pub fn new() -> (s: Self)
        ensures
            s.wf(),
            s.avatars() == Set::<u64>::empty(),
            s.pending_diagnostics() == Set::<u64>::empty(),
            s.alignment_diagnostic_tick() == 0,
    {
        AvatarControlSystem {
            avatars: HashSet::new(),
            pending_capsule_diagnostics: HashSet::new(),
            alignment_diagnostic_tick: 0,
        }
    }

    pub fn register(&mut self, component: ComponentId)
        requires
            old(self).wf(),
        ensures
            final(self).wf(),
            final(self).avatars() == old(self).avatars().insert(component@),
            final(self).pending_diagnostics() == old(self).pending_diagnostics(),
            final(self).alignment_diagnostic_tick() == old(self).alignment_diagnostic_tick(),
    {
        self.avatars.insert(component.to_bits());
    }

    /// Forget an avatar and any diagnostics pending for it.
    pub fn remove(&mut self, component: ComponentId)
        requires
            old(self).wf(),
        ensures
            final(self).wf(),
            final(self).avatars() == old(self).avatars().remove(component@),
            final(self).pending_diagnostics() == old(self).pending_diagnostics().remove(component@),
            final(self).alignment_diagnostic_tick() == old(self).alignment_diagnostic_tick(),
    {
        self.avatars.remove(&component.to_bits());
        self.pending_capsule_diagnostics.remove(&component.to_bits());
    }

    /// Whether `component` is a registered avatar.
    pub fn is_avatar(&self, component: ComponentId) -> (r: bool)
        ensures
            r == self.avatars().contains(component@),
    {
        self.avatars.contains(&component.to_bits())
    }
}

/// Removing undoes registering: for a component `c` that is not an avatar,
/// registering and then removing it gives the avatar set back and leaves
/// nothing pending for it; removing a component that is not an avatar
/// changes neither set.
pub proof fn law_remove_undoes_register(s: AvatarControlSystem, c: ComponentId)
    requires
        s.wf(),
        !s.avatars().contains(c@),
    ensures
        s.avatars().insert(c@).remove(c@) == s.avatars(),
        s.avatars().remove(c@) == s.avatars(),
        s.pending_diagnostics().remove(c@) == s.pending_diagnostics(),
        !s.pending_diagnostics().contains(c@),
{
    assert(s.avatars().insert(c@).remove(c@) =~= s.avatars());
    assert(s.avatars().remove(c@) =~= s.avatars());
    assert(s.pending_diagnostics().remove(c@) =~= s.pending_diagnostics());
}

} // verus!
