//! The systems of a world, and the step that performs the calls a flushed
//! command queue produces.
use vstd::prelude::*;
use crate::ecs::command_queue::{CommandQueue, SystemCall, calls_of};
use crate::ecs::component::ComponentKind;
use crate::ecs::component::camera::{Camera2DComponent, CameraComponent, CameraHandle};
use crate::ecs::world::{ComponentId, World};
use super::camera_system::CameraSystem;
use super::cursor_system::CursorSystem;
use super::input_system::InputSystem;
use super::renderable_system::{PendingRenderable, RenderableSystem, pending_for, queued_after};
use super::transform_system::TransformSystem;
use super::registered;

verus! {

/// Holds and runs all registered systems.
pub struct SystemWorld {
    pub cursor: CursorSystem,
    pub camera: CameraSystem,
    pub renderable: RenderableSystem,
    pub transform: TransformSystem,
    pub input: InputSystem,
}

/// The camera handle a component carries, if it is a camera of either kind.
pub open spec fn camera_handle_of(kind: ComponentKind) -> Option<CameraHandle> {
    match kind {
        ComponentKind::Camera(c) => c.handle,
        ComponentKind::Camera2D(c) => c.handle,
        _ => None,
    }
}

/// Calls that need float transform data, or a 2D camera registry this
/// library does not keep: the caller performs them.
pub open spec fn deferred_call<T>(call: SystemCall<T>) -> bool {
    match call {
        SystemCall::TransformChanged(_) => true,
        SystemCall::UpdateTransform(_, _) => true,
        SystemCall::RemoveTransform(_) => true,
        SystemCall::RegisterCamera2D(_) => true,
        _ => false,
    }
}

pub open spec fn is_deferred<T>() -> spec_fn(SystemCall<T>) -> bool {
    |c: SystemCall<T>| deferred_call(c)
}


/// The payload of every node of a world, by the 64-bit form of its id.
pub open spec fn payloads(w: World) -> Map<u64, ComponentKind> {
    Map::new(|k: u64| w.nodes().contains_key(k), |k: u64| w.nodes()[k].component)
}

/// Two worlds have the same nodes with the same names and links; only
/// payloads may differ.
pub open spec fn same_structure(w0: World, w1: World) -> bool {
    &&& w1.nodes().dom() == w0.nodes().dom()
    &&& forall|k: u64| #[trigger] w0.nodes().contains_key(k) ==> {
        &&& w1.nodes()[k].parent == w0.nodes()[k].parent
        &&& w1.nodes()[k].children@ == w0.nodes()[k].children@
        &&& w1.nodes()[k].name == w0.nodes()[k].name
    }
}

/// What performed calls act on: the camera registry (cameras, active
/// camera, next handle), the registered inputs, the registered renderables,
/// the renderables waiting for the visual world, and the world's payloads.
pub type CallState = (
    Seq<CameraHandle>,
    Option<CameraHandle>,
    u32,
    Seq<ComponentId>,
    Seq<ComponentId>,
    Map<u64, PendingRenderable>,
    Map<u64, ComponentKind>,
);

pub open spec fn call_state(s: SystemWorld, w: World) -> CallState {
    (
        s.camera.cameras(),
        s.camera.spec_active_camera(),
        s.camera.next_handle(),
        s.input.inputs(),
        s.renderable.renderables(),
        s.renderable.pending(),
        payloads(w),
    )
}

/// The renderables waiting after `c` is queued, read from payloads.
pub open spec fn pending_after(pending: Map<u64, PendingRenderable>, p: Map<u64, ComponentKind>, c: ComponentId) -> Map<u64, PendingRenderable> {
    if p.contains_key(c@) {
        match p[c@] {
            ComponentKind::Renderable(r) => if r.handle is None {
                pending.insert(c@, pending_for(r, c))
            } else {
                pending
            },
            _ => pending,
        }
    } else {
        pending
    }
}

/// The effect of performing one call. Calls left to the caller change
/// nothing here.
pub open spec fn call_step<T>(s: CallState, call: SystemCall<T>) -> CallState {
    match call {
        SystemCall::RegisterCamera(c) => {
            let h = CameraHandle(s.2);
            let next: u32 = if s.2 < u32::MAX { (s.2 + 1) as u32 } else { 0 };
            let p = if s.6.contains_key(c@) && s.6[c@] is Camera {
                s.6.insert(c@, ComponentKind::Camera(CameraComponent { handle: Some(h) }))
            } else {
                s.6
            };
            (s.0.push(h), Some(h), next, s.3, s.4, s.5, p)
        },
        SystemCall::MakeActiveCamera(c) => {
            let h = if s.6.contains_key(c@) { camera_handle_of(s.6[c@]) } else { None };
            let switch = h is Some && s.1 != h && s.0.contains(h->Some_0);
            (s.0, if switch { h } else { s.1 }, s.2, s.3, s.4, s.5, s.6)
        },
        SystemCall::RegisterInput(c) => (s.0, s.1, s.2, registered(s.3, c), s.4, s.5, s.6),
        SystemCall::RegisterRenderable(c) => (
            s.0,
            s.1,
            s.2,
            s.3,
            registered(s.4, c),
            pending_after(s.5, s.6, c),
            s.6,
        ),
        _ => s,
    }
}

/// The effect of performing `calls` in order.
pub open spec fn run_calls<T>(s: CallState, calls: Seq<SystemCall<T>>) -> CallState
    decreases calls.len(),
{
    if calls.len() == 0 {
        s
    } else {
        call_step(run_calls(s, calls.drop_last()), calls.last())
    }
}

impl SystemWorld {
    pub open spec fn wf(&self) -> bool {
        &&& self.renderable.wf()
        &&& self.input.wf()
    }

    pub fn new() -> (s: Self)
        ensures
            s.wf(),
            s.camera.cameras() == Seq::<CameraHandle>::empty(),
            s.camera.spec_active_camera() is None,
            s.camera.next_handle() == 0,
            s.renderable.pending() == Map::<u64, super::renderable_system::PendingRenderable>::empty(),
            s.transform == TransformSystem,
            s.input.inputs() == Seq::<ComponentId>::empty(),
            s.renderable.renderables() == Seq::<ComponentId>::empty(),
            s.cursor.cursors() == Seq::<(u64, u32)>::empty(),
    {
        SystemWorld {
            cursor: CursorSystem::new(),
            camera: CameraSystem::new(),
            renderable: RenderableSystem::new(),
            transform: TransformSystem::new(),
            input: InputSystem::new(),
        }
    }

    /// Register a cursor-driven component with the cursor system.
    pub fn register_cursor(&mut self, entity: u64, component: u32)
        ensures
            final(self).cursor.cursors() == (if old(self).cursor.cursors().contains((entity, component)) {
                old(self).cursor.cursors()
            } else {
                old(self).cursor.cursors().push((entity, component))
            }),
    {
        self.cursor.register_cursor(entity, component);
    }

    /// Register a renderable component with the renderable system.
    pub fn register_renderable(&mut self, world: &World, component: ComponentId)
        requires
            old(self).wf(),
        ensures
            final(self).wf(),
            final(self).renderable.renderables() == registered(old(self).renderable.renderables(), component),
            final(self).renderable.pending() == queued_after(old(self).renderable.pending(), *world, component),
            final(self).input == old(self).input,
            final(self).camera == old(self).camera,
            final(self).cursor == old(self).cursor,
    {
        self.renderable.register_renderable(world, component);
    }

    /// Register a camera: the camera system hands out a handle, which becomes
    /// the active camera and is stored in the component.
    pub fn register_camera(&mut self, world: &mut World, component: ComponentId)
        requires
            old(world).wf(),
        ensures
            final(world).wf(),
            final(self).camera.cameras() == old(self).camera.cameras().push(
                CameraHandle(old(self).camera.next_handle()),
            ),
            final(self).camera.spec_active_camera() == Some(CameraHandle(old(self).camera.next_handle())),
            final(self).camera.next_handle() == (if old(self).camera.next_handle() < u32::MAX {
                (old(self).camera.next_handle() + 1) as u32
            } else {
                0
            }),
            final(world).nodes().dom() == old(world).nodes().dom(),
            forall|k: u64| #[trigger] old(world).nodes().contains_key(k) && k != component@
                ==> final(world).nodes()[k] == old(world).nodes()[k],
            old(world).contains(component) ==> final(world).parent(component) == old(world).parent(component)
                && final(world).children(component) == old(world).children(component)
                && final(world).name(component) == old(world).name(component),
            old(world).contains(component) ==> final(world).component(component) == (match old(world).component(component) {
                ComponentKind::Camera(_) => ComponentKind::Camera(CameraComponent {
                    handle: Some(CameraHandle(old(self).camera.next_handle())),
                }),
                other => other,
            }),
            final(self).input == old(self).input,
            final(self).renderable == old(self).renderable,
            final(self).cursor == old(self).cursor,
    {
        let h = self.camera.register_camera();
        match world.get_component_by_id_as_mut::<CameraComponent>(component) {
            Some(c) => {
                c.handle = Some(h);
            },
            None => {},
        }
    }

    /// Register an input component with the input system.
    pub fn register_input(&mut self, component: ComponentId)
        requires
            old(self).wf(),
        ensures
            final(self).wf(),
            final(self).input.inputs() == registered(old(self).input.inputs(), component),
            final(self).camera == old(self).camera,
            final(self).renderable == old(self).renderable,
            final(self).cursor == old(self).cursor,
    {
        self.input.register_input(component);
    }

    /// Make the camera of `component` active; returns whether the active
    /// camera changed. Components without a camera handle change nothing.
    pub fn make_active_camera(&mut self, world: &World, component: ComponentId) -> (switched: bool)
        ensures
            ({
                let h = if world.contains(component) { camera_handle_of(world.component(component)) } else { None };
                &&& switched == (h is Some && old(self).camera.spec_active_camera() != h
                    && old(self).camera.cameras().contains(h->Some_0))
                &&& final(self).camera.spec_active_camera() == (if switched { h } else { old(self).camera.spec_active_camera() })
            }),
            final(self).camera.cameras() == old(self).camera.cameras(),
            final(self).camera.next_handle() == old(self).camera.next_handle(),
            final(self).input == old(self).input,
            final(self).renderable == old(self).renderable,
            final(self).cursor == old(self).cursor,
    {
        match world.get_component_by_id_as::<CameraComponent>(component) {
            Some(c) => {
                match c.handle {
                    Some(h) => {
                        return self.camera.set_active_camera(h);
                    },
                    None => {},
                }
            },
            None => {},
        }
        match world.get_component_by_id_as::<Camera2DComponent>(component) {
            Some(c) => {
                match c.handle {
                    Some(h) => self.camera.set_active_camera(h),
                    None => false,
                }
            },
            None => false,
        }
    }
}

impl SystemWorld {
    /// Perform one system call; the calls the caller must perform itself
    /// (transform updates, 2D camera registration) are handed back.
    pub fn perform<T: Copy>(&mut self, world: &mut World, call: SystemCall<T>) -> (deferred: Option<SystemCall<T>>)
        requires
            old(self).wf(),
            old(world).wf(),
        ensures
            final(self).wf(),
            final(world).wf(),
            final(world).nodes().dom() == old(world).nodes().dom(),
            deferred == (if deferred_call(call) { Some(call) } else { None }),
            call_state(*final(self), *final(world)) == call_step(call_state(*old(self), *old(world)), call),
            same_structure(*old(world), *final(world)),
            final(self).cursor == old(self).cursor,
            deferred_call(call) ==> *final(self) == *old(self) && final(world).nodes() == old(world).nodes(),
            call matches SystemCall::RegisterInput(c) ==> final(self).input.inputs() == registered(old(self).input.inputs(), c)
                && final(self).camera == old(self).camera && final(self).renderable == old(self).renderable
                && final(world).nodes() == old(world).nodes(),
            call matches SystemCall::RegisterRenderable(c) ==> final(self).renderable.renderables() == registered(
                old(self).renderable.renderables(),
                c,
            ) && final(self).renderable.pending() == queued_after(old(self).renderable.pending(), *old(world), c)
                && final(self).camera == old(self).camera && final(self).input == old(self).input
                && final(world).nodes() == old(world).nodes(),
            call matches SystemCall::MakeActiveCamera(c) ==> ({
                let h = if old(world).contains(c) { camera_handle_of(old(world).component(c)) } else { None };
                let switch = h is Some && old(self).camera.spec_active_camera() != h
                    && old(self).camera.cameras().contains(h->Some_0);
                &&& final(self).camera.spec_active_camera() == (if switch { h } else { old(self).camera.spec_active_camera() })
                &&& final(self).camera.cameras() == old(self).camera.cameras()
                &&& final(self).input == old(self).input
                &&& final(self).renderable == old(self).renderable
                &&& final(world).nodes() == old(world).nodes()
            }),
            call matches SystemCall::RegisterCamera(c) ==> ({
                let h = CameraHandle(old(self).camera.next_handle());
                &&& final(self).camera.cameras() == old(self).camera.cameras().push(h)
                &&& final(self).camera.spec_active_camera() == Some(h)
                &&& final(self).input == old(self).input
                &&& final(self).renderable == old(self).renderable
                &&& forall|k: u64| #[trigger] old(world).nodes().contains_key(k) && k != c@
                    ==> final(world).nodes()[k] == old(world).nodes()[k]
                &&& old(world).contains(c) ==> final(world).component(c) == (match old(world).component(c) {
                    ComponentKind::Camera(_) => ComponentKind::Camera(CameraComponent { handle: Some(h) }),
                    other => other,
                })
            }),
    {
        let ghost w0 = *world;
        match call {
            SystemCall::RegisterCamera(c) => {
                self.register_camera(world, c);
                proof {
                    let h = CameraHandle(old(self).camera.next_handle());
                    let p0 = payloads(w0);
                    let expect = if p0.contains_key(c@) && p0[c@] is Camera {
                        p0.insert(c@, ComponentKind::Camera(CameraComponent { handle: Some(h) }))
                    } else {
                        p0
                    };
                    assert(payloads(*world) =~= expect);
                }
                None
            },
            SystemCall::MakeActiveCamera(c) => {
                let _ = self.make_active_camera(world, c);
                None
            },
            SystemCall::RegisterInput(c) => {
                self.register_input(c);
                None
            },
            SystemCall::RegisterRenderable(c) => {
                self.register_renderable(world, c);
                None
            },
            other => Some(other),
        }
    }

    /// Flush the queue after the systems have ticked and perform its calls in
    /// queue order; returns, in order, the calls left to the caller.
    pub fn process_commands<T: Copy>(&mut self, world: &mut World, commands: &mut CommandQueue<T>) -> (deferred: Vec<SystemCall<T>>)
        requires
            old(self).wf(),
            old(world).wf(),
        ensures
            final(self).wf(),
            final(world).wf(),
            final(world).nodes().dom() == old(world).nodes().dom(),
            final(commands).queued() == Seq::<crate::ecs::command_queue::Command<T>>::empty(),
            deferred@ == calls_of(old(commands).queued()).filter(is_deferred::<T>()),
            call_state(*final(self), *final(world)) == run_calls(
                call_state(*old(self), *old(world)),
                calls_of(old(commands).queued()),
            ),
            same_structure(*old(world), *final(world)),
            final(self).cursor == old(self).cursor,
    {
        let calls = commands.flush();
        let ghost all = calls@;
        let ghost dom0 = world.nodes().dom();
        let ghost w0 = *world;
        let ghost s0 = call_state(*self, *world);
        let ghost c0 = self.cursor;
        let mut deferred: Vec<SystemCall<T>> = Vec::new();
        let n = calls.len();
        let mut i: usize = 0;
        while i < n
            invariant
                n == calls@.len(),
                all == calls@,
                i <= n,
                self.wf(),
                world.wf(),
                world.nodes().dom() == dom0,
                deferred@ == all.take(i as int).filter(is_deferred::<T>()),
                call_state(*self, *world) == run_calls(s0, all.take(i as int)),
                same_structure(w0, *world),
                self.cursor == c0,
            decreases n - i,
        {
            let call = calls[i];
            proof {
                assert(all.take(i + 1) =~= all.take(i as int).push(call));
                all.take(i as int).lemma_filter_push(call, is_deferred::<T>());
                assert(all.take(i + 1).drop_last() =~= all.take(i as int));
            }
            match self.perform(world, call) {
                Some(d) => {
                    deferred.push(d);
                },
                None => {},
            }
            i = i + 1;
        }
        proof {
            assert(all.take(n as int) =~= all);
        }
        deferred
    }
}

impl Default for SystemWorld {
    fn default() -> (s: Self)
        ensures
            s.wf(),
            s.camera.cameras() == Seq::<CameraHandle>::empty(),
            s.camera.spec_active_camera() is None,
            s.input.inputs() == Seq::<ComponentId>::empty(),
            s.renderable.renderables() == Seq::<ComponentId>::empty(),
            s.cursor.cursors() == Seq::<(u64, u32)>::empty(),
    {
        SystemWorld::new()
    }
}

} // verus!
