//! Snapshot of what the renderer draws: one instance per registered
//! renderable, with a draw order and draw batches grouped by material, mesh
//! and texture, rebuilt only when something that affects batching changed.
//!
//! The per-instance payload `T` (the instance's transform) is carried through
//! unchanged; the library never looks inside it.
use vstd::prelude::*;
use std::collections::HashMap;
use vstd::std_specs::hash::spec_keys_iter;
use vstd::std_specs::iter::IteratorSpec;
use crate::graphics::primitives::{InstanceHandle, MaterialHandle, MeshHandle, Renderable, TextureHandle};

verus! {

broadcast use vstd::std_specs::hash::group_hash_axioms;

/// Per-instance data uploaded with each draw.
#[derive(Debug, Clone, Copy)]
pub struct Instance<T> {
    pub transform: T,
    /// The texture the instance is drawn with, if any.
    pub texture: Option<TextureHandle>,
}

impl<T> From<T> for Instance<T> {
    fn from(transform: T) -> (r: Self) {
        Instance { transform, texture: None }
    }
}

impl<T> vstd::std_specs::convert::FromSpecImpl<T> for Instance<T> {
    open spec fn obeys_from_spec() -> bool {
        true
    }

    open spec fn from_spec(v: T) -> Self {
        Instance { transform: v, texture: None }
    }
}

/// A run of `count` consecutive entries of the draw order, starting at
/// `start`, that share one material, one mesh and one texture.
#[derive(Debug, Clone, Copy)]
pub struct DrawBatch {
    pub material: MaterialHandle,
    pub mesh: MeshHandle,
    pub texture: Option<TextureHandle>,
    /// Range into the draw order.
    pub start: usize,
    pub count: usize,
}

/// One (entity, component) pair and the instance registered for it.
struct Owner {
    entity: u64,
    component: u32,
    handle: InstanceHandle,
}

pub struct VisualWorld<T> {
    instances: Vec<(Renderable, Instance<T>)>,
    next_handle: u32,
    handle_to_index: HashMap<u32, usize>,
    component_to_handle: Vec<Owner>,
    owners: Ghost<Map<(u64, u32), InstanceHandle>>,
    /// The draw order and batches must be rebuilt.
    dirty_draw_cache: bool,
    /// Per-instance data changed since it was last consumed.
    dirty_instance_data: bool,
    /// Indices into `instances`, in draw order.
    draw_order: Vec<u32>,
    draw_batches: Vec<DrawBatch>,
}

impl<T> VisualWorld<T> {
    /// The registered instances, in storage order.
    pub closed spec fn items(&self) -> Seq<(Renderable, Instance<T>)> {
        self.instances@
    }

    /// Instance handle number to storage index.
    pub closed spec fn handles(&self) -> Map<u32, usize> {
        self.handle_to_index@
    }

    /// The handle registered for each (entity, component) pair.
    pub closed spec fn owners(&self) -> Map<(u64, u32), InstanceHandle> {
        self.owners@
    }

    /// The number the next registration hands out.
    pub closed spec fn next_handle(&self) -> u32 {
        self.next_handle
    }

    pub closed spec fn draw_cache_dirty(&self) -> bool {
        self.dirty_draw_cache
    }

    pub closed spec fn spec_instance_data_dirty(&self) -> bool {
        self.dirty_instance_data
    }

    pub closed spec fn spec_draw_order(&self) -> Seq<u32> {
        self.draw_order@
    }

    pub closed spec fn spec_draw_batches(&self) -> Seq<DrawBatch> {
        self.draw_batches@
    }

    /// Handles point at distinct stored instances, and the owner list is a
    /// faithful copy of the owner map.
    pub closed spec fn wf(&self) -> bool {
        &&& forall|h: u32| #[trigger] self.handle_to_index@.contains_key(h)
            ==> self.handle_to_index@[h] < self.instances@.len()
        &&& forall|h1: u32, h2: u32|
            #[trigger] self.handle_to_index@.contains_key(h1) && #[trigger] self.handle_to_index@.contains_key(h2)
            && h1 != h2 ==> self.handle_to_index@[h1] != self.handle_to_index@[h2]
        &&& self.handle_to_index@.dom().finite()
        &&& owners_match(self.component_to_handle@, self.owners@)
    }

    pub fn new() -> (v: Self)
        ensures
            v.wf(),
            v.items() == Seq::<(Renderable, Instance<T>)>::empty(),
            v.handles() == Map::<u32, usize>::empty(),
            v.owners() == Map::<(u64, u32), InstanceHandle>::empty(),
            v.next_handle() == 0,
            !v.draw_cache_dirty(),
            !v.spec_instance_data_dirty(),
            v.spec_draw_order() == Seq::<u32>::empty(),
            v.spec_draw_batches() == Seq::<DrawBatch>::empty(),
    {
        let v = VisualWorld {
            instances: Vec::new(),
            next_handle: 0,
            handle_to_index: HashMap::new(),
            component_to_handle: Vec::new(),
            owners: Ghost(Map::empty()),
            dirty_draw_cache: false,
            dirty_instance_data: false,
            draw_order: Vec::new(),
            draw_batches: Vec::new(),
        };
        proof {
            assert(v.handle_to_index@ =~= Map::<u32, usize>::empty());
        }
        v
    }

    /// Forget every instance; the draw cache and instance data become dirty.
    pub fn clear(&mut self)
        ensures
            final(self).wf(),
            final(self).items() == Seq::<(Renderable, Instance<T>)>::empty(),
            final(self).handles() == Map::<u32, usize>::empty(),
            final(self).owners() == Map::<(u64, u32), InstanceHandle>::empty(),
            final(self).next_handle() == 0,
            final(self).draw_cache_dirty(),
            final(self).spec_instance_data_dirty(),
            final(self).spec_draw_order() == Seq::<u32>::empty(),
            final(self).spec_draw_batches() == Seq::<DrawBatch>::empty(),
    {
        self.instances.clear();
        self.handle_to_index.clear();
        self.component_to_handle.clear();
        self.owners = Ghost(Map::empty());
        self.next_handle = 0;
        self.dirty_draw_cache = true;
        self.dirty_instance_data = true;
        self.draw_order.clear();
        self.draw_batches.clear();
    }

    /// Whether per-instance data changed since it was last consumed.
    pub fn instance_data_dirty(&self) -> (r: bool)
        ensures
            r == self.spec_instance_data_dirty(),
    {
        self.dirty_instance_data
    }

    /// Consume the instance-data dirty flag.
    pub fn take_instance_data_dirty(&mut self) -> (r: bool)
        ensures
            r == old(self).spec_instance_data_dirty(),
            !final(self).spec_instance_data_dirty(),
            final(self).items() == old(self).items(),
            final(self).handles() == old(self).handles(),
            final(self).owners() == old(self).owners(),
            final(self).next_handle() == old(self).next_handle(),
            final(self).draw_cache_dirty() == old(self).draw_cache_dirty(),
            final(self).spec_draw_order() == old(self).spec_draw_order(),
            final(self).spec_draw_batches() == old(self).spec_draw_batches(),
            old(self).wf() ==> final(self).wf(),
    {
        let v = self.dirty_instance_data;
        self.dirty_instance_data = false;
        v
    }

    pub fn instances(&self) -> (r: &[(Renderable, Instance<T>)])
        ensures
            r@ == self.items(),
    {
        self.instances.as_slice()
    }

    /// Indices into `instances()` in the order they are drawn.
    pub fn draw_order(&self) -> (r: &[u32])
        ensures
            r@ == self.spec_draw_order(),
    {
        self.draw_order.as_slice()
    }

    pub fn draw_batches(&self) -> (r: &[DrawBatch])
        ensures
            r@ == self.spec_draw_batches(),
    {
        self.draw_batches.as_slice()
    }
}

impl<T> VisualWorld<T> {
    /// Record `handle` as the instance of (`entity`, `component`).
    #[verifier::spinoff_prover]
    fn set_owner(&mut self, entity: u64, component: u32, handle: InstanceHandle)
        requires
            owners_match(old(self).component_to_handle@, old(self).owners@),
        ensures
            owners_match(final(self).component_to_handle@, final(self).owners@),
            final(self).owners@ == old(self).owners@.insert((entity, component), handle),
            final(self).instances@ == old(self).instances@,
            final(self).handle_to_index@ == old(self).handle_to_index@,
            final(self).next_handle == old(self).next_handle,
            final(self).dirty_draw_cache == old(self).dirty_draw_cache,
            final(self).dirty_instance_data == old(self).dirty_instance_data,
            final(self).draw_order@ == old(self).draw_order@,
            final(self).draw_batches@ == old(self).draw_batches@,
    {
        let ghost m0 = self.owners@;
        let ghost v0 = self.component_to_handle@;
        let n = self.component_to_handle.len();
        let mut i: usize = 0;
        while i < n
            invariant
                n == self.component_to_handle@.len(),
                self.component_to_handle@ == v0,
                self.owners@ == m0,
                m0 == old(self).owners@,
                self.instances@ == old(self).instances@,
                self.handle_to_index@ == old(self).handle_to_index@,
                self.next_handle == old(self).next_handle,
                self.dirty_draw_cache == old(self).dirty_draw_cache,
                self.dirty_instance_data == old(self).dirty_instance_data,
                self.draw_order@ == old(self).draw_order@,
                self.draw_batches@ == old(self).draw_batches@,
                owners_match(v0, m0),
                i <= n,
                forall|j: int| 0 <= j < i ==> (#[trigger] v0[j].entity, v0[j].component) != (entity, component),
            decreases n - i,
        {
            if self.component_to_handle[i].entity == entity && self.component_to_handle[i].component == component {
                self.component_to_handle.set(i, Owner { entity, component, handle });
                self.owners = Ghost(m0.insert((entity, component), handle));
                proof {
                    let v1 = self.component_to_handle@;
                    assert forall|a: int| 0 <= a < v1.len() implies {
                        let o = #[trigger] v1[a];
                        self.owners@.contains_key((o.entity, o.component)) && self.owners@[(o.entity, o.component)] == o.handle
                    } by {
                        if a != i {
                            assert(v1[a] == v0[a]);
                            assert((v0[a].entity, v0[a].component) != (v0[i as int].entity, v0[i as int].component));
                        }
                    }
                    assert forall|k: (u64, u32)| #[trigger] self.owners@.contains_key(k) implies exists|a: int|
                        0 <= a < v1.len() && #[trigger] v1[a].entity == k.0 && v1[a].component == k.1 by {
                        if k == (entity, component) {
                            assert(v1[i as int].entity == k.0);
                        } else {
                            let a = choose|a: int| 0 <= a < v0.len() && #[trigger] v0[a].entity == k.0 && v0[a].component == k.1;
                            assert(v1[a].entity == k.0);
                        }
                    }
                    assert forall|a: int, b: int|
                        0 <= a < v1.len() && 0 <= b < v1.len() && a != b implies (#[trigger] v1[a].entity, v1[a].component) != (
                            #[trigger] v1[b].entity,
                            v1[b].component,
                        ) by {
                        assert((v0[a].entity, v0[a].component) != (v0[b].entity, v0[b].component));
                    }
                }
                return;
            }
            i = i + 1;
        }
        self.component_to_handle.push(Owner { entity, component, handle });
        self.owners = Ghost(m0.insert((entity, component), handle));
        proof {
            let v1 = self.component_to_handle@;
            assert(!m0.contains_key((entity, component))) by {
                if m0.contains_key((entity, component)) {
                    let a = choose|a: int| 0 <= a < v0.len() && #[trigger] v0[a].entity == entity && v0[a].component == component;
                    assert((v0[a].entity, v0[a].component) != (entity, component));
                }
            }
            assert forall|a: int| 0 <= a < v1.len() implies {
                let o = #[trigger] v1[a];
                self.owners@.contains_key((o.entity, o.component)) && self.owners@[(o.entity, o.component)] == o.handle
            } by {
                if a < v0.len() {
                    assert(v1[a] == v0[a]);
                }
            }
            assert forall|k: (u64, u32)| #[trigger] self.owners@.contains_key(k) implies exists|a: int|
                0 <= a < v1.len() && #[trigger] v1[a].entity == k.0 && v1[a].component == k.1 by {
                if k == (entity, component) {
                    assert(v1[v0.len() as int].entity == k.0);
                } else {
                    let a = choose|a: int| 0 <= a < v0.len() && #[trigger] v0[a].entity == k.0 && v0[a].component == k.1;
                    assert(v1[a].entity == k.0);
                }
            }
            assert forall|a: int, b: int|
                0 <= a < v1.len() && 0 <= b < v1.len() && a != b implies (#[trigger] v1[a].entity, v1[a].component) != (
                    #[trigger] v1[b].entity,
                    v1[b].component,
                ) by {
                if a < v0.len() && b < v0.len() {
                    assert(v1[a] == v0[a]);
                    assert(v1[b] == v0[b]);
                } else if a < v0.len() {
                    assert(v1[a] == v0[a]);
                } else if b < v0.len() {
                    assert(v1[b] == v0[b]);
                }
            }
            assert(self.owners@.dom().finite());
        }
    }

    /// Store a new instance for (`id`, `cid`) and return its handle; the
    /// draw cache and instance data become dirty.
    pub fn register(&mut self, id: u64, cid: u32, renderable: Renderable, instance: Instance<T>) -> (handle: InstanceHandle)
        requires
            old(self).wf(),
        ensures
            final(self).wf(),
            handle.0 == old(self).next_handle(),
            final(self).next_handle() == (if old(self).next_handle() < u32::MAX {
                (old(self).next_handle() + 1) as u32
            } else {
                0
            }),
            final(self).items() == old(self).items().push((renderable, instance)),
            final(self).handles() == old(self).handles().insert(handle.0, old(self).items().len() as usize),
            final(self).owners() == old(self).owners().insert((id, cid), handle),
            final(self).draw_cache_dirty(),
            final(self).spec_instance_data_dirty(),
            final(self).spec_draw_order() == old(self).spec_draw_order(),
            final(self).spec_draw_batches() == old(self).spec_draw_batches(),
    {
        let handle = InstanceHandle(self.next_handle);
        self.next_handle = self.next_handle.wrapping_add(1);
        let idx = self.instances.len();
        self.instances.push((renderable, instance));
        self.handle_to_index.insert(handle.0, idx);
        self.set_owner(id, cid, handle);
        self.dirty_draw_cache = true;
        self.dirty_instance_data = true;
        proof {
            let h0 = old(self).handle_to_index@;
            let h1 = self.handle_to_index@;
            assert forall|h: u32| #[trigger] h1.contains_key(h) implies h1[h] < self.instances@.len() by {
                if h != handle.0 {
                    assert(h0.contains_key(h));
                }
            }
            assert forall|a: u32, b: u32| #[trigger] h1.contains_key(a) && #[trigger] h1.contains_key(b) && a != b
                implies h1[a] != h1[b] by {
                if a != handle.0 {
                    assert(h0.contains_key(a));
                }
                if b != handle.0 {
                    assert(h0.contains_key(b));
                }
            }
        }
        handle
    }

    /// Replace the transform of an instance; returns whether the handle is
    /// known. Batching is unaffected.
    pub fn update_transform(&mut self, handle: InstanceHandle, transform: T) -> (r: bool)
        requires
            old(self).wf(),
        ensures
            final(self).wf(),
            r == old(self).handles().contains_key(handle.0),
            r ==> final(self).items() == old(self).items().update(
                old(self).handles()[handle.0] as int,
                (
                    old(self).items()[old(self).handles()[handle.0] as int].0,
                    Instance { transform, texture: old(self).items()[old(self).handles()[handle.0] as int].1.texture },
                ),
            ),
            r ==> final(self).spec_instance_data_dirty(),
            !r ==> final(self).items() == old(self).items()
                && final(self).spec_instance_data_dirty() == old(self).spec_instance_data_dirty(),
            final(self).handles() == old(self).handles(),
            final(self).owners() == old(self).owners(),
            final(self).next_handle() == old(self).next_handle(),
            final(self).draw_cache_dirty() == old(self).draw_cache_dirty(),
            final(self).spec_draw_order() == old(self).spec_draw_order(),
            final(self).spec_draw_batches() == old(self).spec_draw_batches(),
    {
        match self.handle_to_index.get(&handle.0) {
            Some(i) => {
                let idx = *i;
                let r = self.instances[idx].0;
                let texture = self.instances[idx].1.texture;
                self.instances.set(idx, (r, Instance { transform, texture }));
                self.dirty_instance_data = true;
                true
            },
            None => false,
        }
    }

    /// Set the texture of an instance; returns whether the handle is known.
    /// The texture affects batching, so the draw cache becomes dirty.
    pub fn update_texture(&mut self, handle: InstanceHandle, texture: Option<TextureHandle>) -> (r: bool)
        where T: Copy,
        requires
            old(self).wf(),
        ensures
            final(self).wf(),
            r == old(self).handles().contains_key(handle.0),
            r ==> final(self).items() == old(self).items().update(
                old(self).handles()[handle.0] as int,
                (
                    old(self).items()[old(self).handles()[handle.0] as int].0,
                    Instance { texture, ..old(self).items()[old(self).handles()[handle.0] as int].1 },
                ),
            ),
            r ==> final(self).draw_cache_dirty() && final(self).spec_instance_data_dirty(),
            !r ==> final(self).items() == old(self).items()
                && final(self).draw_cache_dirty() == old(self).draw_cache_dirty()
                && final(self).spec_instance_data_dirty() == old(self).spec_instance_data_dirty(),
            final(self).handles() == old(self).handles(),
            final(self).owners() == old(self).owners(),
            final(self).next_handle() == old(self).next_handle(),
            final(self).spec_draw_order() == old(self).spec_draw_order(),
            final(self).spec_draw_batches() == old(self).spec_draw_batches(),
    {
        match self.handle_to_index.get(&handle.0) {
            Some(i) => {
                let idx = *i;
                let (r, inst) = self.instances[idx];
                self.instances.set(idx, (r, Instance { transform: inst.transform, texture }));
                self.dirty_draw_cache = true;
                self.dirty_instance_data = true;
                true
            },
            None => false,
        }
    }

    /// Replace an instance and what it draws; returns whether the handle is
    /// known. The draw cache and instance data become dirty.
    pub fn update(&mut self, handle: InstanceHandle, renderable: Renderable, instance: Instance<T>) -> (r: bool)
        requires
            old(self).wf(),
        ensures
            final(self).wf(),
            r == old(self).handles().contains_key(handle.0),
            r ==> final(self).items() == old(self).items().update(old(self).handles()[handle.0] as int, (renderable, instance)),
            r ==> final(self).draw_cache_dirty() && final(self).spec_instance_data_dirty(),
            !r ==> final(self).items() == old(self).items()
                && final(self).draw_cache_dirty() == old(self).draw_cache_dirty()
                && final(self).spec_instance_data_dirty() == old(self).spec_instance_data_dirty(),
            final(self).handles() == old(self).handles(),
            final(self).owners() == old(self).owners(),
            final(self).next_handle() == old(self).next_handle(),
            final(self).spec_draw_order() == old(self).spec_draw_order(),
            final(self).spec_draw_batches() == old(self).spec_draw_batches(),
    {
        match self.handle_to_index.get(&handle.0) {
            Some(i) => {
                let idx = *i;
                self.instances.set(idx, (renderable, instance));
                self.dirty_draw_cache = true;
                self.dirty_instance_data = true;
                true
            },
            None => false,
        }
    }
}

/// The owner map without the pairs registered to `h`.
pub open spec fn without_handle(m: Map<(u64, u32), InstanceHandle>, h: InstanceHandle) -> Map<(u64, u32), InstanceHandle> {
    Map::new(|k: (u64, u32)| m.contains_key(k) && m[k] != h, |k: (u64, u32)| m[k])
}

impl<T> VisualWorld<T> {
    /// Drop the owner pairs registered to `handle`.
    #[verifier::spinoff_prover]
    fn retain_owners(&mut self, handle: InstanceHandle)
        requires
            owners_match(old(self).component_to_handle@, old(self).owners@),
        ensures
            owners_match(final(self).component_to_handle@, final(self).owners@),
            final(self).owners@ == without_handle(old(self).owners@, handle),
            final(self).instances@ == old(self).instances@,
            final(self).handle_to_index@ == old(self).handle_to_index@,
            final(self).next_handle == old(self).next_handle,
            final(self).dirty_draw_cache == old(self).dirty_draw_cache,
            final(self).dirty_instance_data == old(self).dirty_instance_data,
            final(self).draw_order@ == old(self).draw_order@,
            final(self).draw_batches@ == old(self).draw_batches@,
    {
        let ghost m0 = self.owners@;
        let ghost v0 = self.component_to_handle@;
        let ghost mut mk: Map<(u64, u32), InstanceHandle> = Map::empty();
        let mut kept: Vec<Owner> = Vec::new();
        let n = self.component_to_handle.len();
        let mut i: usize = 0;
        proof {
            assert(owners_match(kept@, mk)) by {
                assert(mk.dom() =~= Set::<(u64, u32)>::empty());
            }
        }
        while i < n
            invariant
                n == v0.len(),
                self.component_to_handle@ == v0,
                owners_match(v0, m0),
                i <= n,
                owners_match(kept@, mk),
                forall|k: (u64, u32)| #[trigger] mk.contains_key(k) ==> m0.contains_key(k) && mk[k] == m0[k] && mk[k] != handle,
                forall|b: int| 0 <= b < i && (#[trigger] v0[b]).handle != handle ==> mk.contains_key((v0[b].entity, v0[b].component)),
                forall|b: int| i <= b < n ==> !mk.contains_key(((#[trigger] v0[b]).entity, v0[b].component)),
            decreases n - i,
        {
            let o = &self.component_to_handle[i];
            proof {
                assert(v0[i as int] == *o);
            }
            if o.handle != handle {
                let ghost key = (o.entity, o.component);
                let ghost k0 = kept@;
                proof {
                    lemma_owners_push(kept@, mk, *o);
                }
                kept.push(Owner { entity: o.entity, component: o.component, handle: o.handle });
                proof {
                    mk = mk.insert(key, o.handle);
                    assert(kept@ == k0.push(*o));
                }
            }
            proof {
                assert forall|b: int| i + 1 <= b < n implies !mk.contains_key(((#[trigger] v0[b]).entity, v0[b].component)) by {
                    assert((v0[b].entity, v0[b].component) != (v0[i as int].entity, v0[i as int].component));
                }
            }
            i = i + 1;
        }
        self.component_to_handle = kept;
        self.owners = Ghost(mk);
        proof {
            assert forall|k: (u64, u32)| #[trigger] without_handle(m0, handle).contains_key(k) implies mk.contains_key(k) by {
                let b = choose|b: int| 0 <= b < v0.len() && #[trigger] v0[b].entity == k.0 && v0[b].component == k.1;
                assert(v0[b].handle == m0[k]);
            }
            assert(mk =~= without_handle(m0, handle));
        }
    }

    /// Remove an instance; the last stored instance takes its place. Returns
    /// whether the handle was known; the draw cache and instance data become
    /// dirty when it was.
    #[verifier::spinoff_prover]
    pub fn remove(&mut self, handle: InstanceHandle) -> (r: bool)
        requires
            old(self).wf(),
        ensures
            final(self).wf(),
            r == old(self).handles().contains_key(handle.0),
            r ==> ({
                let idx = old(self).handles()[handle.0];
                let last = (old(self).items().len() - 1) as usize;
                &&& final(self).items() == old(self).items().update(idx as int, old(self).items().last()).drop_last()
                &&& forall|h: u32| #[trigger] final(self).handles().contains_key(h)
                    <==> (old(self).handles().contains_key(h) && h != handle.0)
                &&& forall|h: u32| #[trigger] final(self).handles().contains_key(h)
                    ==> final(self).handles()[h] == (if old(self).handles()[h] == last { idx } else { old(self).handles()[h] })
                &&& final(self).owners() == without_handle(old(self).owners(), handle)
                &&& final(self).draw_cache_dirty()
                &&& final(self).spec_instance_data_dirty()
            }),
            !r ==> final(self).items() == old(self).items() && final(self).handles() == old(self).handles()
                && final(self).owners() == old(self).owners()
                && final(self).draw_cache_dirty() == old(self).draw_cache_dirty()
                && final(self).spec_instance_data_dirty() == old(self).spec_instance_data_dirty(),
            final(self).next_handle() == old(self).next_handle(),
            final(self).spec_draw_order() == old(self).spec_draw_order(),
            final(self).spec_draw_batches() == old(self).spec_draw_batches(),
    {
        let ghost h0 = self.handle_to_index@;
        let ghost i0 = self.instances@;
        match self.handle_to_index.remove(&handle.0) {
            None => false,
            Some(idx) => {
                let _ = self.instances.swap_remove(idx);
                let ghost h1 = self.handle_to_index@;
                proof {
                    assert forall|h: u32| #[trigger] h1.contains_key(h) implies h1[h] < i0.len() by {
                        assert(h0.contains_key(h));
                    }
                }
                if idx < self.instances.len() {
                    let len = self.instances.len();
                    match self.handle_with_index(len) {
                        Some(h) => {
                            self.handle_to_index.insert(h, idx);
                        },
                        None => {},
                    }
                }
                self.retain_owners(handle);
                self.dirty_draw_cache = true;
                self.dirty_instance_data = true;
                proof {
                    let h2 = self.handle_to_index@;
                    let last = (i0.len() - 1) as usize;
                    assert forall|h: u32| #[trigger] h2.contains_key(h) <==> (h0.contains_key(h) && h != handle.0) by {
                        if h2.contains_key(h) && !h1.contains_key(h) {
                            assert(h1.contains_key(h));
                        }
                    }
                    assert forall|h: u32| #[trigger] h2.contains_key(h)
                        implies h2[h] == (if h0[h] == last { idx } else { h0[h] }) by {
                        assert(h0.contains_key(h) && h != handle.0);
                        assert(h0[h] != idx);
                    }
                    assert forall|h: u32| #[trigger] h2.contains_key(h) implies h2[h] < self.instances@.len() by {
                        assert(h0.contains_key(h) && h != handle.0);
                        assert(h0[h] != idx);
                    }
                    assert forall|a: u32, b: u32| #[trigger] h2.contains_key(a) && #[trigger] h2.contains_key(b) && a != b
                        implies h2[a] != h2[b] by {
                        assert(h0.contains_key(a) && a != handle.0);
                        assert(h0.contains_key(b) && b != handle.0);
                        assert(h0[a] != idx);
                        assert(h0[b] != idx);
                    }
                }
                true
            },
        }
    }

    /// The handle that `handle_to_index` maps to `i`, if any.
    fn handle_with_index(&self, i: usize) -> (r: Option<u32>)
        requires
            self.handle_to_index@.dom().finite(),
        ensures
            match r {
                Some(h) => self.handle_to_index@.contains_key(h) && self.handle_to_index@[h] == i,
                None => forall|h: u32| #[trigger] self.handle_to_index@.contains_key(h) ==> self.handle_to_index@[h] != i,
            },
    {
        let ghost m = self.handle_to_index@;
        for k in it: self.handle_to_index.keys()
            invariant
                m == self.handle_to_index@,
                it.seq() == spec_keys_iter(&self.handle_to_index).remaining(),
                forall|j: int| 0 <= j < it.index() ==> m[*it.seq()[j]] != i,
        {
            match self.handle_to_index.get(k) {
                Some(v) => {
                    if *v == i {
                        return Some(*k);
                    }
                },
                None => {},
            }
        }
        proof {
            let ks = spec_keys_iter(&self.handle_to_index).remaining();
            assert forall|h: u32| #[trigger] m.contains_key(h) implies m[h] != i by {
                assert(ks.unref().to_set().contains(h));
                let j = choose|j: int| 0 <= j < ks.unref().len() && ks.unref()[j] == h;
                assert(*ks[j] == h);
            }
        }
        None
    }
}

/// Appending an owner whose pair is new keeps the list and the map in step.
proof fn lemma_owners_push(v: Seq<Owner>, m: Map<(u64, u32), InstanceHandle>, o: Owner)
    requires
        owners_match(v, m),
        !m.contains_key((o.entity, o.component)),
    ensures
        owners_match(v.push(o), m.insert((o.entity, o.component), o.handle)),
{
    let v1 = v.push(o);
    let m1 = m.insert((o.entity, o.component), o.handle);
    assert forall|a: int| 0 <= a < v1.len() implies {
        let x = #[trigger] v1[a];
        m1.contains_key((x.entity, x.component)) && m1[(x.entity, x.component)] == x.handle
    } by {
        if a < v.len() {
            assert(v1[a] == v[a]);
        }
    }
    assert forall|k: (u64, u32)| #[trigger] m1.contains_key(k) implies exists|a: int|
        0 <= a < v1.len() && #[trigger] v1[a].entity == k.0 && v1[a].component == k.1 by {
        if k == (o.entity, o.component) {
            assert(v1[v.len() as int].entity == k.0);
        } else {
            let a = choose|a: int| 0 <= a < v.len() && #[trigger] v[a].entity == k.0 && v[a].component == k.1;
            assert(v1[a].entity == k.0);
        }
    }
    assert forall|a: int, b: int|
        0 <= a < v1.len() && 0 <= b < v1.len() && a != b implies (#[trigger] v1[a].entity, v1[a].component) != (
            #[trigger] v1[b].entity,
            v1[b].component,
        ) by {
        if a < v.len() {
            assert(v1[a] == v[a]);
        }
        if b < v.len() {
            assert(v1[b] == v[b]);
        }
    }
}

/// Where a texture sorts: untextured first, then by handle.
pub open spec fn texture_rank(t: Option<TextureHandle>) -> int {
    match t {
        None => 0,
        Some(h) => h.0 + 1,
    }
}

/// The batching key of an instance: its material, then its mesh, then its
/// texture.
pub open spec fn draw_key<T>(it: (Renderable, Instance<T>)) -> (u32, u32, int) {
    (it.0.material.0, it.0.mesh.0, texture_rank(it.1.texture))
}

/// Instance `a` is drawn before instance `b`: by material, then mesh, then
/// storage index, so instances with equal keys keep their storage order.
pub open spec fn drawn_before<T>(items: Seq<(Renderable, Instance<T>)>, a: u32, b: u32) -> bool {
    let ka = draw_key(items[a as int]);
    let kb = draw_key(items[b as int]);
    ||| ka.0 < kb.0
    ||| ka.0 == kb.0 && ka.1 < kb.1
    ||| ka.0 == kb.0 && ka.1 == kb.1 && ka.2 < kb.2
    ||| ka == kb && a < b
}

/// `order` lists every stored instance once, in drawing order.
pub open spec fn sorted_draw_order<T>(items: Seq<(Renderable, Instance<T>)>, order: Seq<u32>) -> bool {
    &&& order.len() == items.len()
    &&& forall|i: int| 0 <= i < order.len() ==> #[trigger] order[i] < items.len()
    &&& forall|i: int, j: int| 0 <= i < j < order.len() ==> drawn_before(items, #[trigger] order[i], #[trigger] order[j])
}

/// `batches` split the first `upto` entries of `order` into maximal runs of
/// one material, mesh and texture, in order.
pub open spec fn batches_cover<T>(
    items: Seq<(Renderable, Instance<T>)>,
    order: Seq<u32>,
    batches: Seq<DrawBatch>,
    upto: int,
) -> bool {
    &&& batches.len() == 0 ==> upto == 0
    &&& batches.len() > 0 ==> batches[0].start == 0 && batches.last().start + batches.last().count == upto
    &&& forall|k: int, l: int| 0 <= k < batches.len() && l == k + 1 && l < batches.len()
        ==> #[trigger] batches[k].start + batches[k].count == #[trigger] batches[l].start
            && (batches[k].material, batches[k].mesh, batches[k].texture) != (batches[l].material, batches[l].mesh, batches[l].texture)
    &&& forall|k: int| 0 <= k < batches.len() ==> #[trigger] batches[k].count >= 1
    &&& forall|k: int, t: int|
        0 <= k < batches.len() && batches[k].start <= t < batches[k].start + batches[k].count
            ==> #[trigger] items[order[t] as int].0.material == (#[trigger] batches[k]).material
            && items[order[t] as int].0.mesh == batches[k].mesh
            && items[order[t] as int].1.texture == batches[k].texture
}

fn texture_rank_of(t: Option<TextureHandle>) -> (r: u64)
    ensures
        r == texture_rank(t),
{
    match t {
        None => 0,
        Some(h) => h.0 as u64 + 1,
    }
}

fn same_texture(a: Option<TextureHandle>, b: Option<TextureHandle>) -> (r: bool)
    ensures
        r == (a == b),
{
    match (a, b) {
        (None, None) => true,
        (Some(x), Some(y)) => x.0 == y.0,
        _ => false,
    }
}

/// Whether instance `a` is drawn before instance `b`.
fn draws_before<T>(items: &Vec<(Renderable, Instance<T>)>, a: u32, b: u32) -> (r: bool)
    requires
        (a as int) < items@.len(),
        (b as int) < items@.len(),
    ensures
        r == drawn_before(items@, a, b),
{
    let ra = items[a as usize].0;
    let rb = items[b as usize].0;
    let ta = texture_rank_of(items[a as usize].1.texture);
    let tb = texture_rank_of(items[b as usize].1.texture);
    if ra.material.0 != rb.material.0 {
        ra.material.0 < rb.material.0
    } else if ra.mesh.0 != rb.mesh.0 {
        ra.mesh.0 < rb.mesh.0
    } else if ta != tb {
        ta < tb
    } else {
        a < b
    }
}

impl<T> VisualWorld<T> {
    /// Rebuild the draw order and batches if anything that affects batching
    /// changed; returns whether they were rebuilt. Instances are ordered by
    /// material, then mesh, then texture, keeping storage order among equal
    /// keys, and each batch is a maximal run of one material, mesh and texture.
    #[verifier::spinoff_prover]
    pub fn prepare_draw_cache(&mut self) -> (rebuilt: bool)
        requires
            old(self).wf(),
            old(self).items().len() <= u32::MAX,
        ensures
            final(self).wf(),
            rebuilt == old(self).draw_cache_dirty(),
            !rebuilt ==> final(self).spec_draw_order() == old(self).spec_draw_order()
                && final(self).spec_draw_batches() == old(self).spec_draw_batches(),
            rebuilt ==> sorted_draw_order(final(self).items(), final(self).spec_draw_order())
                && batches_cover(final(self).items(), final(self).spec_draw_order(), final(self).spec_draw_batches(),
                    final(self).spec_draw_order().len() as int),
            !final(self).draw_cache_dirty(),
            final(self).items() == old(self).items(),
            final(self).handles() == old(self).handles(),
            final(self).owners() == old(self).owners(),
            final(self).next_handle() == old(self).next_handle(),
            final(self).spec_instance_data_dirty() == old(self).spec_instance_data_dirty(),
    {
        if !self.dirty_draw_cache {
            return false;
        }
        let n = self.instances.len();
        let mut order: Vec<u32> = Vec::new();
        let mut i: usize = 0;
        while i < n
            invariant
                n == self.instances@.len(),
                n <= u32::MAX,
                i <= n,
                order@.len() == i,
                forall|k: int| 0 <= k < i ==> #[trigger] order@[k] == k,
            decreases n - i,
        {
            order.push(i as u32);
            i = i + 1;
        }
        let ghost items = self.instances@;
        // Insertion sort: the prefix [0, i) is in drawing order.
        let mut i: usize = 1;
        while i < n
            invariant
                items == self.instances@,
                n == items.len(),
                1 <= i || n == 0,
                i <= n || n == 0,
                order@.len() == n,
                forall|k: int| 0 <= k < n ==> #[trigger] order@[k] < n,
                order@.no_duplicates(),
                forall|a: int, b: int| 0 <= a < b < i && b < n ==> drawn_before(items, #[trigger] order@[a], #[trigger] order@[b]),
            decreases n - i,
        {
            let mut j: usize = i;
            while j > 0 && draws_before(&self.instances, order[j], order[j - 1])
                invariant
                    items == self.instances@,
                    n == items.len(),
                    1 <= i < n,
                    j <= i,
                    order@.len() == n,
                    forall|k: int| 0 <= k < n ==> #[trigger] order@[k] < n,
                    order@.no_duplicates(),
                    forall|a: int, b: int| 0 <= a < b <= i && a != j && b != j
                        ==> drawn_before(items, #[trigger] order@[a], #[trigger] order@[b]),
                    forall|b: int| j < b <= i ==> drawn_before(items, order@[j as int], #[trigger] order@[b]),
                decreases j,
            {
                let x = order[j];
                let y = order[j - 1];
                let ghost o0 = order@;
                order.set(j, y);
                order.set(j - 1, x);
                proof {
                    assert(order@ == o0.update(j as int, y).update(j - 1, x));
                    assert forall|a: int, b: int| 0 <= a < b < n && order@[a] == order@[b] implies false by {
                        let fa = if a == j { j - 1 } else if a == j - 1 { j as int } else { a };
                        let fb = if b == j { j - 1 } else if b == j - 1 { j as int } else { b };
                        assert(order@[a] == o0[fa]);
                        assert(order@[b] == o0[fb]);
                    }
                    assert forall|a: int, b: int| 0 <= a < b <= i && a != j - 1 && b != j - 1
                        implies drawn_before(items, #[trigger] order@[a], #[trigger] order@[b]) by {
                        let fa = if a == j { j - 1 } else { a };
                        let fb = if b == j { j - 1 } else { b };
                        assert(order@[a] == o0[fa]);
                        assert(order@[b] == o0[fb]);
                        if a == j {
                            assert(o0[j - 1] != o0[j as int]);
                        }
                    }
                    assert forall|b: int| j - 1 < b <= i implies drawn_before(items, order@[j - 1], #[trigger] order@[b]) by {
                        if b == j {
                        } else {
                            assert(order@[b] == o0[b]);
                        }
                    }
                }
                j = j - 1;
            }
            proof {
                assert forall|a: int, b: int| 0 <= a < b < i + 1 && b < n implies drawn_before(items, #[trigger] order@[a], #[trigger] order@[b]) by {
                    if b == j && a < j {
                        if a < j - 1 {
                            assert(drawn_before(items, order@[a], order@[j - 1]));
                        }
                        assert(!drawn_before(items, order@[j as int], order@[j - 1]));
                        assert(order@[j as int] != order@[j - 1]);
                    }
                }
            }
            i = i + 1;
        }
        self.draw_order = order;
        proof {
            assert(sorted_draw_order(items, self.draw_order@));
        }
        let mut batches: Vec<DrawBatch> = Vec::new();
        let mut cursor: usize = 0;
        while cursor < n
            invariant
                items == self.instances@,
                n == items.len(),
                self.draw_order@.len() == n,
                sorted_draw_order(items, self.draw_order@),
                cursor <= n,
                batches_cover(items, self.draw_order@, batches@, cursor as int),
                batches@.len() > 0 && cursor < n ==> (batches@.last().material, batches@.last().mesh, batches@.last().texture) != (
                    items[self.draw_order@[cursor as int] as int].0.material,
                    items[self.draw_order@[cursor as int] as int].0.mesh,
                    items[self.draw_order@[cursor as int] as int].1.texture,
                ),
            decreases n - cursor,
        {
            let r0 = self.instances[self.draw_order[cursor] as usize].0;
            let material = r0.material;
            let mesh = r0.mesh;
            let texture = self.instances[self.draw_order[cursor] as usize].1.texture;
            let start = cursor;
            cursor = cursor + 1;
            let mut same = true;
            while cursor < n && same
                invariant
                    items == self.instances@,
                    n == items.len(),
                    self.draw_order@.len() == n,
                    sorted_draw_order(items, self.draw_order@),
                    start < cursor <= n,
                    forall|t: int| start <= t < cursor ==> #[trigger] items[self.draw_order@[t] as int].0.material == material
                        && items[self.draw_order@[t] as int].0.mesh == mesh
                        && items[self.draw_order@[t] as int].1.texture == texture,
                    !same ==> cursor < n && (material, mesh, texture) != (
                        items[self.draw_order@[cursor as int] as int].0.material,
                        items[self.draw_order@[cursor as int] as int].0.mesh,
                        items[self.draw_order@[cursor as int] as int].1.texture,
                    ),
                decreases n - cursor, (if same { 1int } else { 0int }),
            {
                let r = self.instances[self.draw_order[cursor] as usize].0;
                let tex = self.instances[self.draw_order[cursor] as usize].1.texture;
                if r.material == material && r.mesh == mesh && same_texture(tex, texture) {
                    cursor = cursor + 1;
                } else {
                    same = false;
                }
            }
            let ghost b0 = batches@;
            batches.push(DrawBatch { material, mesh, texture, start, count: cursor - start });
            proof {
                let bs = batches@;
                assert(bs.len() == b0.len() + 1);
                assert forall|k: int, l: int| 0 <= k < bs.len() && l == k + 1 && l < bs.len()
                    implies #[trigger] bs[k].start + bs[k].count == #[trigger] bs[l].start
                        && (bs[k].material, bs[k].mesh, bs[k].texture) != (bs[l].material, bs[l].mesh, bs[l].texture) by {
                    if l < b0.len() {
                        assert(bs[k] == b0[k]);
                        assert(bs[l] == b0[l]);
                    } else {
                        assert(bs[k] == b0.last());
                    }
                }
                assert forall|k: int, t: int|
                    0 <= k < bs.len() && bs[k].start <= t < bs[k].start + bs[k].count
                        implies #[trigger] items[self.draw_order@[t] as int].0.material == (#[trigger] bs[k]).material
                        && items[self.draw_order@[t] as int].0.mesh == bs[k].mesh
                        && items[self.draw_order@[t] as int].1.texture == bs[k].texture by {
                    if k < b0.len() {
                        assert(bs[k] == b0[k]);
                    }
                }
                assert forall|k: int| 0 <= k < bs.len() implies #[trigger] bs[k].count >= 1 by {
                    if k < b0.len() {
                        assert(bs[k] == b0[k]);
                    }
                }
            }
        }
        self.draw_batches = batches;
        self.dirty_draw_cache = false;
        true
    }
}

/// Instances with the same material, mesh and texture are drawn in storage order.
pub proof fn law_draw_order_stable<T>(items: Seq<(Renderable, Instance<T>)>, order: Seq<u32>, i: int, j: int)
    requires
        sorted_draw_order(items, order),
        0 <= i < j < order.len(),
        draw_key(items[order[i] as int]) == draw_key(items[order[j] as int]),
    ensures
        order[i] < order[j],
{
    assert(drawn_before(items, order[i], order[j]));
}

/// In drawing order, instances sharing a material, mesh and texture are contiguous.
pub proof fn law_same_key_contiguous<T>(items: Seq<(Renderable, Instance<T>)>, order: Seq<u32>, i: int, m: int, k: int)
    requires
        sorted_draw_order(items, order),
        0 <= i < m < k < order.len(),
        draw_key(items[order[i] as int]) == draw_key(items[order[k] as int]),
    ensures
        draw_key(items[order[m] as int]) == draw_key(items[order[i] as int]),
{
    assert(drawn_before(items, order[i], order[m]));
    assert(drawn_before(items, order[m], order[k]));
}

proof fn lemma_batch_starts_increase(bs: Seq<DrawBatch>, k: int, l: int)
    requires
        forall|a: int, b: int| 0 <= a < bs.len() && b == a + 1 && b < bs.len()
            ==> #[trigger] bs[a].start + bs[a].count == #[trigger] bs[b].start,
        forall|a: int| 0 <= a < bs.len() ==> #[trigger] bs[a].count >= 1,
        0 <= k < l < bs.len(),
    ensures
        bs[k].start + bs[k].count <= bs[l].start,
    decreases l - k,
{
    if l > k + 1 {
        lemma_batch_starts_increase(bs, k, l - 1);
        assert(bs[l - 1].start + bs[l - 1].count == bs[l].start);
        assert(bs[l - 1].count >= 1);
    } else {
        assert(bs[k].start + bs[k].count == bs[l].start);
    }
}

/// After a rebuild each material, mesh and texture forms exactly one batch.
pub proof fn law_one_batch_per_key<T>(
    items: Seq<(Renderable, Instance<T>)>,
    order: Seq<u32>,
    batches: Seq<DrawBatch>,
    k: int,
    l: int,
)
    requires
        sorted_draw_order(items, order),
        batches_cover(items, order, batches, order.len() as int),
        0 <= k < l < batches.len(),
    ensures
        (batches[k].material, batches[k].mesh, batches[k].texture) != (batches[l].material, batches[l].mesh, batches[l].texture),
{
    if (batches[k].material, batches[k].mesh, batches[k].texture) == (batches[l].material, batches[l].mesh, batches[l].texture) {
        let k1 = k + 1;
        let ti = batches[k].start as int;
        let tm = batches[k1].start as int;
        let tl = batches[l].start as int;
        assert(batches[k].count >= 1);
        assert(batches[l].count >= 1);
        assert(batches[k].start + batches[k].count == batches[k1].start);
        if k1 < l {
            lemma_batch_starts_increase(batches, k1, l);
            assert(batches[k1].count >= 1);
        }
        lemma_batch_starts_increase(batches, k, l);
        assert(batches[l].start + batches[l].count <= order.len()) by {
            if l < batches.len() - 1 {
                lemma_batch_starts_increase(batches, l, batches.len() - 1);
            }
        }
        assert(items[order[ti] as int].0.material == batches[k].material);
        assert(items[order[tl] as int].0.material == batches[l].material);
        assert(items[order[tm] as int].0.material == batches[k1].material);
        if tm < tl {
            law_same_key_contiguous(items, order, ti, tm, tl);
        }
    }
}

impl<T> Default for VisualWorld<T> {
    fn default() -> (v: Self)
        ensures
            v.wf(),
            v.items() == Seq::<(Renderable, Instance<T>)>::empty(),
            v.handles() == Map::<u32, usize>::empty(),
            v.owners() == Map::<(u64, u32), InstanceHandle>::empty(),
            v.next_handle() == 0,
            !v.draw_cache_dirty(),
            !v.spec_instance_data_dirty(),
            v.spec_draw_order() == Seq::<u32>::empty(),
            v.spec_draw_batches() == Seq::<DrawBatch>::empty(),
    {
        Self::new()
    }
}

/// The owner list holds, once each, exactly the pairs of the owner map.
spec fn owners_match(v: Seq<Owner>, m: Map<(u64, u32), InstanceHandle>) -> bool {
    &&& m.dom().finite()
    &&& forall|i: int| 0 <= i < v.len() ==> {
        let o = #[trigger] v[i];
        m.contains_key((o.entity, o.component)) && m[(o.entity, o.component)] == o.handle
    }
    &&& forall|k: (u64, u32)| #[trigger] m.contains_key(k) ==> exists|i: int|
        0 <= i < v.len() && #[trigger] v[i].entity == k.0 && v[i].component == k.1
    &&& forall|i: int, j: int|
        0 <= i < v.len() && 0 <= j < v.len() && i != j ==> (#[trigger] v[i].entity, v[i].component) != (
            #[trigger] v[j].entity,
            v[j].component,
        )
}

} // verus!
