//! Live rider-to-mountable attachments.
use vstd::prelude::*;
use std::collections::{HashMap, HashSet};
use vstd::std_specs::hash::spec_keys_iter;
use vstd::std_specs::iter::IteratorSpec;
use crate::ecs::component::ComponentKind;
use crate::ecs::component::TransformComponent;
use crate::ecs::system::transform_system::{TransformSystem, is_transform, lemma_nearest_transform_is_transform, nearest_transform};
use crate::ecs::world::{ComponentId, World, lemma_parent_rank};

verus! {

/// The input that a mount suspended, with what to restore.
#[derive(Debug, Clone, Copy)]
pub enum SuspendedInput {
    Desktop { component: ComponentId, enabled: bool },
    XrGamepad { component: ComponentId, locomotion: bool },
}

/// One rider attached to one mountable.
#[derive(Debug, Clone, Copy)]
pub struct ActiveMount {
    pub rider: ComponentId,
    pub mountable: ComponentId,
    pub rider_root: ComponentId,
    pub rider_anchor: ComponentId,
    pub mount_anchor: ComponentId,
    pub dismount_anchor: ComponentId,
    pub transform_parent: ComponentId,
    pub original_parent: Option<ComponentId>,
    pub suspended_input: SuspendedInput,
}

/// Owns the live rider-to-mountable relationships: one edge per rider and
/// per mountable.
pub struct AttachmentSystem {
    /// Edges by the 64-bit form of their rider's id.
    by_rider: HashMap<u64, ActiveMount>,
    /// Riders by the 64-bit form of their mountable's id.
    rider_by_mountable: HashMap<u64, ComponentId>,
    mounted_this_frame: HashSet<u64>,
}

/// The two edge maps describe the same edges: each edge is filed under its
/// rider, and its mountable names that rider, and back.
pub open spec fn edges_agree(by_rider: Map<u64, ActiveMount>, by_mountable: Map<u64, ComponentId>) -> bool {
    &&& forall|r: u64| #[trigger] by_rider.contains_key(r) ==> {
        &&& by_rider[r].rider@ == r
        &&& by_mountable.contains_key(by_rider[r].mountable@)
        &&& by_mountable[by_rider[r].mountable@] == by_rider[r].rider
    }
    &&& forall|m: u64| #[trigger] by_mountable.contains_key(m) ==> {
        &&& by_rider.contains_key(by_mountable[m]@)
        &&& by_rider[by_mountable[m]@].mountable@ == m
    }
}

/// What a grip press on a pointer does to the attachments.
pub enum DismountStep {
    /// No rider acts for the pointer, or it is not mounted: nothing.
    NotMounted,
    /// The rider mounted this frame: the press is consumed, nothing changes.
    MountedThisFrame,
    /// The rider's edge is to be dismounted.
    Dismount(ActiveMount),
}

/// The rider of an edge still exists and is enabled.
pub open spec fn rider_enabled(w: World, c: ComponentId) -> bool {
    w.contains(c) && match w.component(c) {
        ComponentKind::Rider(r) => r.enabled,
        _ => false,
    }
}

/// The mountable of an edge still exists and is enabled.
pub open spec fn mountable_enabled(w: World, c: ComponentId) -> bool {
    w.contains(c) && match w.component(c) {
        ComponentKind::Mountable(m) => m.enabled,
        _ => false,
    }
}

/// An attachment edge is still valid: both ends enabled, every node it uses
/// exists, and the rider root still hangs below the transform parent.
pub open spec fn edge_valid(w: World, e: ActiveMount) -> bool {
    &&& rider_enabled(w, e.rider)
    &&& mountable_enabled(w, e.mountable)
    &&& w.contains(e.rider_root)
    &&& w.contains(e.rider_anchor)
    &&& w.contains(e.mount_anchor)
    &&& w.contains(e.transform_parent)
    &&& w.parent(e.rider_root) == Some(e.transform_parent)
}

impl AttachmentSystem {
    /// Live edges, by the 64-bit form of the rider's id.
    pub closed spec fn edges(&self) -> Map<u64, ActiveMount> {
        self.by_rider@
    }

    /// The rider on each mounted mountable, by the 64-bit form of its id.
    pub closed spec fn riders_by_mountable(&self) -> Map<u64, ComponentId> {
        self.rider_by_mountable@
    }

    /// Riders that mounted during the current frame.
    pub closed spec fn mounted_this_frame(&self) -> Set<u64> {
        self.mounted_this_frame@
    }

    pub closed spec fn wf(&self) -> bool {
        edges_agree(self.by_rider@, self.rider_by_mountable@)
    }

    pub fn new() -> (s: Self)
        ensures
            s.wf(),
            s.edges() == Map::<u64, ActiveMount>::empty(),
            s.riders_by_mountable() == Map::<u64, ComponentId>::empty(),
            s.mounted_this_frame() == Set::<u64>::empty(),
    {
        AttachmentSystem {
            by_rider: HashMap::new(),
            rider_by_mountable: HashMap::new(),
            mounted_this_frame: HashSet::new(),
        }
    }

    /// Forget which riders mounted during the previous frame; the edges stay.
    pub fn begin_frame(&mut self)
        ensures
            final(self).mounted_this_frame() == Set::<u64>::empty(),
            final(self).edges() == old(self).edges(),
            final(self).riders_by_mountable() == old(self).riders_by_mountable(),
            old(self).wf() ==> final(self).wf(),
    {
        self.mounted_this_frame.clear();
    }

    /// Whether `rider` is mounted.
    pub fn is_mounted(&self, rider: ComponentId) -> (r: bool)
        ensures
            r == self.edges().contains_key(rider@),
    {
        self.by_rider.contains_key(&rider.to_bits())
    }

    /// The rider and mountable a grip on `pointer` with a ray hit on
    /// `renderable` may join: the rider in scope of the pointer, not mounted
    /// and enabled, and the mountable the hit selects, free, enabled and
    /// mounting on grip. `None` refuses the mount.
    pub fn mount_target(&self, world: &World, pointer: ComponentId, renderable: ComponentId)
        -> (r: Option<(ComponentId, ComponentId)>)
        requires
            world.wf(),
        ensures
            r == mount_target_of(*world, self.edges(), self.riders_by_mountable(), pointer, renderable),
    {
        let rider = match rider_for_pointer(world, pointer) {
            None => {
                return None;
            },
            Some(r) => r,
        };
        if self.by_rider.contains_key(&rider.to_bits()) {
            return None;
        }
        let mountable = match mountable_for_hit(world, renderable) {
            None => {
                return None;
            },
            Some((m, _owner)) => m,
        };
        if self.rider_by_mountable.contains_key(&mountable.to_bits()) {
            return None;
        }
        if !is_enabled_rider(world, rider) || !is_grip_mountable(world, mountable) {
            return None;
        }
        Some((rider, mountable))
    }

    /// Commit a mount: the edge joins the live edges, and its rider counts as
    /// mounted this frame. Rider and mountable must both be free.
    pub fn record_mount(&mut self, edge: ActiveMount)
        requires
            old(self).wf(),
            !old(self).edges().contains_key(edge.rider@),
            !old(self).riders_by_mountable().contains_key(edge.mountable@),
        ensures
            final(self).wf(),
            final(self).edges() == old(self).edges().insert(edge.rider@, edge),
            final(self).riders_by_mountable() == old(self).riders_by_mountable().insert(edge.mountable@, edge.rider),
            final(self).mounted_this_frame() == old(self).mounted_this_frame().insert(edge.rider@),
    {
        let ghost br = self.by_rider@;
        let ghost bm = self.rider_by_mountable@;
        self.by_rider.insert(edge.rider.to_bits(), edge);
        self.rider_by_mountable.insert(edge.mountable.to_bits(), edge.rider);
        self.mounted_this_frame.insert(edge.rider.to_bits());
        proof {
            assert forall|m: u64| #[trigger] self.rider_by_mountable@.contains_key(m) implies
                self.by_rider@.contains_key(self.rider_by_mountable@[m]@)
                && self.by_rider@[self.rider_by_mountable@[m]@].mountable@ == m by {
                if m != edge.mountable@ {
                    assert(br.contains_key(bm[m]@));
                }
            }
            assert forall|r: u64| #[trigger] self.by_rider@.contains_key(r) implies {
                &&& self.by_rider@[r].rider@ == r
                &&& self.rider_by_mountable@.contains_key(self.by_rider@[r].mountable@)
                &&& self.rider_by_mountable@[self.by_rider@[r].mountable@] == self.by_rider@[r].rider
            } by {
                if r != edge.rider@ {
                    assert(bm.contains_key(br[r].mountable@));
                }
            }
        }
    }

    /// What a grip press on `pointer` does to the attachments (see
    /// `DismountStep`).
    pub fn dismount_step(&self, world: &World, pointer: ComponentId) -> (r: DismountStep)
        requires
            world.wf(),
        ensures
            match r {
                DismountStep::NotMounted => match rider_scope(*world, pointer) {
                    Some(rider) => !self.edges().contains_key(rider@),
                    None => true,
                },
                DismountStep::MountedThisFrame => rider_scope(*world, pointer) matches Some(rider)
                    && self.edges().contains_key(rider@) && self.mounted_this_frame().contains(rider@),
                DismountStep::Dismount(e) => rider_scope(*world, pointer) matches Some(rider)
                    && self.edges().contains_key(rider@) && !self.mounted_this_frame().contains(rider@)
                    && e == self.edges()[rider@],
            },
    {
        let rider = match rider_for_pointer(world, pointer) {
            None => {
                return DismountStep::NotMounted;
            },
            Some(r) => r,
        };
        let edge = match self.by_rider.get(&rider.to_bits()) {
            None => {
                return DismountStep::NotMounted;
            },
            Some(e) => *e,
        };
        if self.mounted_this_frame.contains(&rider.to_bits()) {
            return DismountStep::MountedThisFrame;
        }
        DismountStep::Dismount(edge)
    }

    /// Drop `rider`'s edge, from both maps; returns it.
    pub fn forget_edge(&mut self, rider: ComponentId) -> (r: Option<ActiveMount>)
        requires
            old(self).wf(),
        ensures
            final(self).wf(),
            r == (if old(self).edges().contains_key(rider@) { Some(old(self).edges()[rider@]) } else { None }),
            final(self).edges() == old(self).edges().remove(rider@),
            final(self).riders_by_mountable() == (match r {
                Some(e) => old(self).riders_by_mountable().remove(e.mountable@),
                None => old(self).riders_by_mountable(),
            }),
            final(self).mounted_this_frame() == old(self).mounted_this_frame(),
    {
        let edge = match self.by_rider.get(&rider.to_bits()) {
            None => {
                proof {
                    assert(self.by_rider@.remove(rider@) =~= self.by_rider@);
                }
                return None;
            },
            Some(e) => *e,
        };
        let ghost br = self.by_rider@;
        let ghost bm = self.rider_by_mountable@;
        self.by_rider.remove(&rider.to_bits());
        self.rider_by_mountable.remove(&edge.mountable.to_bits());
        proof {
            assert forall|m: u64| #[trigger] self.rider_by_mountable@.contains_key(m) implies
                self.by_rider@.contains_key(self.rider_by_mountable@[m]@)
                && self.by_rider@[self.rider_by_mountable@[m]@].mountable@ == m by {
                assert(br.contains_key(bm[m]@));
                assert(bm[m]@ != rider@);
            }
            assert forall|r: u64| #[trigger] self.by_rider@.contains_key(r) implies {
                &&& self.by_rider@[r].rider@ == r
                &&& self.rider_by_mountable@.contains_key(self.by_rider@[r].mountable@)
                &&& self.rider_by_mountable@[self.by_rider@[r].mountable@] == self.by_rider@[r].rider
            } by {
                assert(bm.contains_key(br[r].mountable@));
                assert(br[r].mountable@ != edge.mountable@);
            }
        }
        Some(edge)
    }

    /// The riders whose edges are no longer valid in `world`, each once.
    pub fn invalid_riders(&self, world: &World) -> (r: Vec<ComponentId>)
        requires
            self.wf(),
        ensures
            r@.no_duplicates(),
            forall|c: ComponentId| #[trigger] r@.contains(c) <==> (self.edges().contains_key(c@)
                && !edge_valid(*world, self.edges()[c@])
                && self.edges()[c@].rider == c),
    {
        let mut keys: Vec<u64> = Vec::new();
        for k in it: self.by_rider.keys()
            invariant
                it.seq() == spec_keys_iter(&self.by_rider).remaining(),
                keys@ == it.seq().take(it.index() as int).unref(),
        {
            keys.push(*k);
        }
        proof {
            let ks = spec_keys_iter(&self.by_rider).remaining();
            assert(ks.take(ks.len() as int) =~= ks);
            assert(keys@ =~= ks.unref());
            assert forall|k: u64| #[trigger] keys@.contains(k) <==> self.by_rider@.contains_key(k) by {
                assert(keys@.to_set().contains(k) <==> keys@.contains(k));
            }
        }
        let mut out: Vec<ComponentId> = Vec::new();
        let n = keys.len();
        let mut i: usize = 0;
        while i < n
            invariant
                n == keys@.len(),
                i <= n,
                keys@.no_duplicates(),
                self.wf(),
                forall|k: u64| #[trigger] keys@.contains(k) <==> self.by_rider@.contains_key(k),
                out@.no_duplicates(),
                forall|c: ComponentId| #[trigger] out@.contains(c) <==> (keys@.take(i as int).contains(c@)
                    && self.by_rider@.contains_key(c@)
                    && !edge_valid(*world, self.by_rider@[c@]) && self.by_rider@[c@].rider == c),
            decreases n - i,
        {
            let k = keys[i];
            proof {
                assert(keys@.contains(k));
                assert(keys@.take(i + 1) =~= keys@.take(i as int).push(k));
                assert(!keys@.take(i as int).contains(k)) by {
                    if keys@.take(i as int).contains(k) {
                        let tk = keys@.take(i as int);
                        let j = choose|j: int| 0 <= j < tk.len() && #[trigger] tk[j] == k;
                        assert(keys@[j] == k);
                    }
                }
            }
            let e = match self.by_rider.get(&k) {
                Some(e) => *e,
                None => vstd::pervasive::unreached(),
            };
            let ghost out0 = out@;
            if !edge_is_valid(world, e) {
                out.push(e.rider);
            }
            proof {
                assert forall|c: ComponentId| #[trigger] out@.contains(c) <==> (keys@.take(i + 1).contains(c@)
                    && self.by_rider@.contains_key(c@)
                    && !edge_valid(*world, self.by_rider@[c@]) && self.by_rider@[c@].rider == c) by {
                    broadcast use vstd::seq_lib::group_seq_properties;
                    assert(e.rider@ == k);
                    assert(keys@.take(i + 1)[i as int] == k);
                    if c@ == k {
                        if self.by_rider@[c@].rider == c {
                            assert(c == e.rider);
                        }
                        if out@.contains(c) && !out0.contains(c) {
                            assert(c == e.rider);
                        }
                        assert(!keys@.take(i as int).contains(c@));
                    }
                    if out@.contains(c) && !out0.contains(c) {
                        assert(c == e.rider);
                    }
                    if keys@.take(i + 1).contains(c@) && c@ != k {
                        let t1 = keys@.take(i + 1);
                        let j = choose|j: int| 0 <= j < t1.len() && #[trigger] t1[j] == c@;
                        assert(keys@.take(i as int)[j] == c@);
                    }
                    if keys@.take(i as int).contains(c@) {
                        let t0 = keys@.take(i as int);
                        let j = choose|j: int| 0 <= j < t0.len() && #[trigger] t0[j] == c@;
                        assert(keys@.take(i + 1)[j] == c@);
                    }
                }
                assert(out@.no_duplicates()) by {
                    if out@.len() > out0.len() {
                        assert(!out0.contains(e.rider));
                        assert forall|a: int, b: int| 0 <= a < b < out@.len() implies out@[a] != out@[b] by {
                            if b == out@.len() - 1 {
                                assert(out0.contains(out0[a]));
                            }
                        }
                    }
                }
            }
            i = i + 1;
        }
        proof {
            assert(keys@.take(n as int) =~= keys@);
        }
        out
    }
}

/// The rider and mountable that `mount_target` allows, or `None`.
pub open spec fn mount_target_of(
    w: World,
    edges: Map<u64, ActiveMount>,
    by_mountable: Map<u64, ComponentId>,
    pointer: ComponentId,
    renderable: ComponentId,
) -> Option<(ComponentId, ComponentId)> {
    match rider_scope(w, pointer) {
        None => None,
        Some(rider) => if edges.contains_key(rider@) {
            None
        } else {
            match mountable_scope(w, renderable) {
                None => None,
                Some((m, _)) => if by_mountable.contains_key(m@) || !rider_enabled(w, rider) || !grip_mountable(w, m) {
                    None
                } else {
                    Some((rider, m))
                },
            }
        },
    }
}

/// One edge per rider and per mountable: two live edges of different riders
/// join different mountables, and each mountable names its one rider.
pub proof fn law_one_edge_per_rider_and_mountable(s: AttachmentSystem, r1: u64, r2: u64)
    requires
        s.wf(),
        s.edges().contains_key(r1),
        s.edges().contains_key(r2),
        r1 != r2,
    ensures
        s.edges()[r1].mountable != s.edges()[r2].mountable,
        s.riders_by_mountable()[s.edges()[r1].mountable@] == s.edges()[r1].rider,
{
    assert(s.rider_by_mountable@[s.by_rider@[r1].mountable@]@ == r1);
    assert(s.rider_by_mountable@[s.by_rider@[r2].mountable@]@ == r2);
}

/// Whether `node` is `ancestor` or lies below it.
pub fn is_descendant_or_self(world: &World, ancestor: ComponentId, node: ComponentId) -> (r: bool)
    requires
        world.wf(),
    ensures
        r == (node == ancestor || world.ancestor(ancestor, node)),
{
    node == ancestor || world.is_ancestor_of(ancestor, node)
}

/// Whether an attachment edge is still valid.
pub fn edge_is_valid(world: &World, edge: ActiveMount) -> (r: bool)
    ensures
        r == edge_valid(*world, edge),
{
    let rider_ok = match world.get_component(edge.rider) {
        Some(ComponentKind::Rider(r)) => r.enabled,
        _ => false,
    };
    let mountable_ok = match world.get_component(edge.mountable) {
        Some(ComponentKind::Mountable(m)) => m.enabled,
        _ => false,
    };
    let parent_ok = match world.parent_of(edge.rider_root) {
        Some(p) => p == edge.transform_parent,
        None => false,
    };
    rider_ok && mountable_ok && world.get_component_record(edge.rider_root).is_some()
        && world.get_component_record(edge.rider_anchor).is_some()
        && world.get_component_record(edge.mount_anchor).is_some()
        && world.get_component_record(edge.transform_parent).is_some() && parent_ok
}

/// A mountable that exists, is enabled and mounts on grip.
pub open spec fn grip_mountable(w: World, c: ComponentId) -> bool {
    w.contains(c) && match w.component(c) {
        ComponentKind::Mountable(m) => m.enabled && m.on_grip,
        _ => false,
    }
}

pub open spec fn rider_pred(w: World) -> spec_fn(ComponentId) -> bool {
    |c: ComponentId| rider_enabled(w, c)
}

pub open spec fn mountable_pred(w: World) -> spec_fn(ComponentId) -> bool {
    |c: ComponentId| grip_mountable(w, c)
}

/// The enabled riders among the children of `c`, in child order.
pub open spec fn child_riders(w: World, c: ComponentId) -> Seq<ComponentId> {
    w.children(c).filter(rider_pred(w))
}

/// The grip mountables among the children of `c`, in child order.
pub open spec fn child_mountables(w: World, c: ComponentId) -> Seq<ComponentId> {
    w.children(c).filter(mountable_pred(w))
}

/// The rider in scope of `c`, following at most `fuel` parent links: `c`
/// itself if it is an enabled rider; at a transform with enabled rider
/// children, the only one of them, or none when there are several;
/// otherwise the answer from the parent.
pub open spec fn rider_walk(w: World, c: ComponentId, fuel: nat) -> Option<ComponentId>
    decreases fuel,
{
    if !w.contains(c) {
        None
    } else if rider_enabled(w, c) {
        Some(c)
    } else if w.component(c) is Transform && child_riders(w, c).len() > 0 {
        if child_riders(w, c).len() == 1 {
            Some(child_riders(w, c)[0])
        } else {
            None
        }
    } else if fuel == 0 {
        None
    } else {
        match w.parent(c) {
            Some(p) => rider_walk(w, p, (fuel - 1) as nat),
            None => None,
        }
    }
}

/// The rider a pointer acts for: the first rider met walking up from the
/// pointer, where a transform with several enabled riders below it is
/// ambiguous and answers none.
pub open spec fn rider_scope(w: World, c: ComponentId) -> Option<ComponentId> {
    rider_walk(w, c, w.spec_rank(c@))
}

/// The mountable a ray hit on `c` selects, with its owning transform,
/// following at most `fuel` parent links: a grip mountable met on the way
/// up is taken with its nearest transform (none if it has none); at a
/// transform, its first grip mountable child is taken with that transform.
pub open spec fn mountable_walk(w: World, c: ComponentId, fuel: nat) -> Option<(ComponentId, ComponentId)>
    decreases fuel,
{
    if !w.contains(c) {
        None
    } else if grip_mountable(w, c) {
        match nearest_transform(w, c) {
            Some(o) => Some((c, o)),
            None => None,
        }
    } else if w.component(c) is Transform && child_mountables(w, c).len() > 0 {
        Some((child_mountables(w, c)[0], c))
    } else if fuel == 0 {
        None
    } else {
        match w.parent(c) {
            Some(p) => mountable_walk(w, p, (fuel - 1) as nat),
            None => None,
        }
    }
}

/// The mountable (and its owning transform) that a ray hit on `c` selects.
pub open spec fn mountable_scope(w: World, c: ComponentId) -> Option<(ComponentId, ComponentId)> {
    mountable_walk(w, c, w.spec_rank(c@))
}

pub proof fn lemma_rider_walk_fuel(w: World, c: ComponentId, fuel: nat)
    requires
        w.wf(),
        fuel >= w.spec_rank(c@),
    ensures
        rider_walk(w, c, fuel) == rider_scope(w, c),
    decreases fuel,
{
    if w.contains(c) && w.parent(c) is Some {
        let p = w.parent(c)->Some_0;
        lemma_parent_rank(w, c);
        lemma_rider_walk_fuel(w, p, (fuel - 1) as nat);
        lemma_rider_walk_fuel(w, p, (w.spec_rank(c@) - 1) as nat);
    }
}

pub proof fn lemma_mountable_walk_fuel(w: World, c: ComponentId, fuel: nat)
    requires
        w.wf(),
        fuel >= w.spec_rank(c@),
    ensures
        mountable_walk(w, c, fuel) == mountable_scope(w, c),
    decreases fuel,
{
    if w.contains(c) && w.parent(c) is Some {
        let p = w.parent(c)->Some_0;
        lemma_parent_rank(w, c);
        lemma_mountable_walk_fuel(w, p, (fuel - 1) as nat);
        lemma_mountable_walk_fuel(w, p, (w.spec_rank(c@) - 1) as nat);
    }
}

/// Whether `c` is an enabled rider.
fn is_enabled_rider(world: &World, c: ComponentId) -> (r: bool)
    ensures
        r == rider_enabled(*world, c),
{
    match world.get_component(c) {
        Some(ComponentKind::Rider(r)) => r.enabled,
        _ => false,
    }
}

/// Whether `c` is an enabled mountable that mounts on grip.
fn is_grip_mountable(world: &World, c: ComponentId) -> (r: bool)
    ensures
        r == grip_mountable(*world, c),
{
    match world.get_component(c) {
        Some(ComponentKind::Mountable(m)) => m.enabled && m.on_grip,
        _ => false,
    }
}

/// The enabled riders among `cs`, in order.
fn riders_in(world: &World, cs: &[ComponentId]) -> (r: Vec<ComponentId>)
    ensures
        r@ == cs@.filter(rider_pred(*world)),
{
    let mut out: Vec<ComponentId> = Vec::new();
    let n = cs.len();
    let mut i: usize = 0;
    while i < n
        invariant
            n == cs@.len(),
            i <= n,
            out@ == cs@.take(i as int).filter(rider_pred(*world)),
        decreases n - i,
    {
        let x = cs[i];
        proof {
            assert(cs@.take(i + 1) =~= cs@.take(i as int).push(x));
            cs@.take(i as int).lemma_filter_push(x, rider_pred(*world));
        }
        if is_enabled_rider(world, x) {
            out.push(x);
        }
        i = i + 1;
    }
    proof {
        assert(cs@.take(n as int) =~= cs@);
    }
    out
}

/// The grip mountables among `cs`, in order.
fn mountables_in(world: &World, cs: &[ComponentId]) -> (r: Vec<ComponentId>)
    ensures
        r@ == cs@.filter(mountable_pred(*world)),
{
    let mut out: Vec<ComponentId> = Vec::new();
    let n = cs.len();
    let mut i: usize = 0;
    while i < n
        invariant
            n == cs@.len(),
            i <= n,
            out@ == cs@.take(i as int).filter(mountable_pred(*world)),
        decreases n - i,
    {
        let x = cs[i];
        proof {
            assert(cs@.take(i + 1) =~= cs@.take(i as int).push(x));
            cs@.take(i as int).lemma_filter_push(x, mountable_pred(*world));
        }
        if is_grip_mountable(world, x) {
            out.push(x);
        }
        i = i + 1;
    }
    proof {
        assert(cs@.take(n as int) =~= cs@);
    }
    out
}

/// The rider a pointer acts for (see `rider_scope`).
pub fn rider_for_pointer(world: &World, pointer: ComponentId) -> (r: Option<ComponentId>)
    requires
        world.wf(),
    ensures
        r == rider_scope(*world, pointer),
{
    let mut current = pointer;
    loop
        invariant
            world.wf(),
            rider_scope(*world, pointer) == rider_scope(*world, current),
        decreases world.spec_rank(current@),
    {
        if !world.get_component_record(current).is_some() {
            return None;
        }
        if is_enabled_rider(world, current) {
            return Some(current);
        }
        if world.get_component_by_id_as::<TransformComponent>(current).is_some() {
            let riders = riders_in(world, world.children_of(current));
            if riders.len() == 1 {
                return Some(riders[0]);
            }
            if riders.len() > 1 {
                return None;
            }
        }
        match world.parent_of(current) {
            None => {
                return None;
            },
            Some(p) => {
                proof {
                    lemma_parent_rank(*world, current);
                    lemma_rider_walk_fuel(*world, p, (world.spec_rank(current@) - 1) as nat);
                }
                current = p;
            },
        }
    }
}

/// The mountable, with its owning transform, that a ray hit on
/// `renderable` selects (see `mountable_scope`).
pub fn mountable_for_hit(world: &World, renderable: ComponentId) -> (r: Option<(ComponentId, ComponentId)>)
    requires
        world.wf(),
    ensures
        r == mountable_scope(*world, renderable),
{
    let mut current = renderable;
    loop
        invariant
            world.wf(),
            mountable_scope(*world, renderable) == mountable_scope(*world, current),
        decreases world.spec_rank(current@),
    {
        if !world.get_component_record(current).is_some() {
            return None;
        }
        if is_grip_mountable(world, current) {
            return match TransformSystem::nearest_transform_self_or_ancestor(world, current) {
                Some(owner) => Some((current, owner)),
                None => None,
            };
        }
        if world.get_component_by_id_as::<TransformComponent>(current).is_some() {
            let found = mountables_in(world, world.children_of(current));
            if found.len() > 0 {
                return Some((found[0], current));
            }
        }
        match world.parent_of(current) {
            None => {
                return None;
            },
            Some(p) => {
                proof {
                    lemma_parent_rank(*world, current);
                    lemma_mountable_walk_fuel(*world, p, (world.spec_rank(current@) - 1) as nat);
                }
                current = p;
            },
        }
    }
}

proof fn lemma_rider_walk_enabled(w: World, c: ComponentId, fuel: nat)
    ensures
        rider_walk(w, c, fuel) matches Some(r) ==> rider_enabled(w, r),
    decreases fuel,
{
    if w.contains(c) && !rider_enabled(w, c) && w.component(c) is Transform && child_riders(w, c).len() == 1 {
        w.children(c).lemma_filter_pred(rider_pred(w), 0);
    } else if fuel > 0 && w.contains(c) && w.parent(c) is Some {
        lemma_rider_walk_enabled(w, w.parent(c)->Some_0, (fuel - 1) as nat);
    }
}

proof fn lemma_mountable_walk_live(w: World, c: ComponentId, fuel: nat)
    requires
        w.wf(),
    ensures
        mountable_walk(w, c, fuel) matches Some((m, o)) ==> grip_mountable(w, m) && is_transform(w, o),
    decreases fuel,
{
    if w.contains(c) && grip_mountable(w, c) {
        lemma_nearest_transform_is_transform(w, c);
    } else if w.contains(c) && w.component(c) is Transform && child_mountables(w, c).len() > 0 {
        w.children(c).lemma_filter_pred(mountable_pred(w), 0);
    } else if fuel > 0 && w.contains(c) && w.parent(c) is Some {
        lemma_mountable_walk_live(w, w.parent(c)->Some_0, (fuel - 1) as nat);
    }
}

/// What the attachment lookups find is live: the rider in scope of a
/// pointer is an enabled rider, and a hit selects an enabled grip mountable
/// together with a transform that owns it.
pub proof fn law_scopes_find_live_participants(w: World, c: ComponentId)
    requires
        w.wf(),
    ensures
        rider_scope(w, c) matches Some(r) ==> rider_enabled(w, r),
        mountable_scope(w, c) matches Some((m, o)) ==> grip_mountable(w, m) && is_transform(w, o),
{
    lemma_rider_walk_enabled(w, c, w.spec_rank(c@));
    lemma_mountable_walk_live(w, c, w.spec_rank(c@));
}

/// A mount is offered only between a free rider and a free mountable: when
/// `mount_target` allows a mount, the rider has no edge, no edge joins the
/// mountable, the rider is an enabled rider and the mountable an enabled
/// grip mountable.
pub proof fn law_mount_offers_only_free_participants(
    s: AttachmentSystem,
    w: World,
    pointer: ComponentId,
    renderable: ComponentId,
)
    requires
        s.wf(),
        w.wf(),
    ensures
        mount_target_of(w, s.edges(), s.riders_by_mountable(), pointer, renderable) matches Some((r, m)) ==> {
            &&& !s.edges().contains_key(r@)
            &&& !s.riders_by_mountable().contains_key(m@)
            &&& forall|k: u64| #[trigger] s.edges().contains_key(k) ==> s.edges()[k].mountable != m && s.edges()[k].rider != r
            &&& rider_enabled(w, r)
            &&& grip_mountable(w, m)
        },
{
    match mount_target_of(w, s.edges(), s.riders_by_mountable(), pointer, renderable) {
        Some((r, m)) => {
            assert forall|k: u64| #[trigger] s.edges().contains_key(k) implies s.edges()[k].mountable != m && s.edges()[k].rider != r by {
                assert(s.rider_by_mountable@.contains_key(s.by_rider@[k].mountable@));
                assert(s.by_rider@[k].rider@ == k);
            }
        },
        None => {},
    }
}

/// An edge is valid only while every node it uses is in the world and its
/// rider root hangs below its transform parent: a missing rider, mountable,
/// rider root, rider anchor, mount anchor or transform parent, or a rider
/// root moved elsewhere, invalidates it.
pub proof fn law_edge_needs_its_nodes(w: World, e: ActiveMount)
    ensures
        !w.contains(e.rider) ==> !edge_valid(w, e),
        !w.contains(e.mountable) ==> !edge_valid(w, e),
        !w.contains(e.rider_root) ==> !edge_valid(w, e),
        !w.contains(e.rider_anchor) ==> !edge_valid(w, e),
        !w.contains(e.mount_anchor) ==> !edge_valid(w, e),
        !w.contains(e.transform_parent) ==> !edge_valid(w, e),
        w.parent(e.rider_root) != Some(e.transform_parent) ==> !edge_valid(w, e),
{
}

} // verus!
