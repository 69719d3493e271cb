//! Queue of component commands that reach the systems after every component
//! has been interacted with, before the next frame is rendered.
use vstd::prelude::*;
use crate::ecs::world::ComponentId;

verus! {

/// A command queued by a component for the systems.
#[derive(Debug, Clone, Copy)]
pub enum Command<T> {
    RegisterInstance { component_id: ComponentId },
    RegisterRenderable { component_id: ComponentId },
    RegisterTransform { component_id: ComponentId },
    RegisterCursor { component_id: ComponentId },
    RegisterInput { component_id: ComponentId },
    RegisterCamera { component_id: ComponentId },
    RegisterCamera2D { component_id: ComponentId },
    RemoveInstance { component_id: ComponentId },
    RemoveRenderable { component_id: ComponentId },
    RemoveTransform { component_id: ComponentId },
    RemoveCursor { component_id: ComponentId },
    RemoveCamera { component_id: ComponentId },
    UpdateTransform { component_id: ComponentId, transform: T },
    MakeActiveCamera { component_id: ComponentId },
}

/// A queued command together with the component that queued it.
#[derive(Debug, Clone, Copy)]
pub struct ComponentCommand<T> {
    component_id: ComponentId,
    command: Command<T>,
}

impl<T> ComponentCommand<T> {
    pub closed spec fn spec_component_id(&self) -> ComponentId {
        self.component_id
    }

    pub closed spec fn spec_command(&self) -> Command<T> {
        self.command
    }

    pub fn component_id(&self) -> (r: ComponentId)
        ensures
            r == self.spec_component_id(),
    {
        self.component_id
    }

    pub fn command(&self) -> (r: &Command<T>)
        ensures
            *r == self.spec_command(),
    {
        &self.command
    }
}

/// The system call that flushing a command performs, in queue order.
#[derive(Debug, Clone, Copy)]
pub enum SystemCall<T> {
    TransformChanged(ComponentId),
    UpdateTransform(ComponentId, T),
    RemoveTransform(ComponentId),
    RegisterCamera(ComponentId),
    RegisterCamera2D(ComponentId),
    MakeActiveCamera(ComponentId),
    RegisterInput(ComponentId),
    RegisterRenderable(ComponentId),
}

/// The call a command makes; commands that no system handles yet make none.
pub open spec fn call_of<T>(command: Command<T>) -> Option<SystemCall<T>> {
    match command {
        Command::RegisterTransform { component_id } => Some(SystemCall::TransformChanged(component_id)),
        Command::UpdateTransform { component_id, transform } => Some(
            SystemCall::UpdateTransform(component_id, transform),
        ),
        Command::RemoveTransform { component_id } => Some(SystemCall::RemoveTransform(component_id)),
        Command::RegisterCamera { component_id } => Some(SystemCall::RegisterCamera(component_id)),
        Command::RegisterCamera2D { component_id } => Some(SystemCall::RegisterCamera2D(component_id)),
        Command::MakeActiveCamera { component_id } => Some(SystemCall::MakeActiveCamera(component_id)),
        Command::RegisterInput { component_id } => Some(SystemCall::RegisterInput(component_id)),
        Command::RegisterRenderable { component_id } => Some(
            SystemCall::RegisterRenderable(component_id),
        ),
        Command::RegisterInstance { .. } => None,
        Command::RemoveInstance { .. } => None,
        Command::RegisterCursor { .. } => None,
        Command::RemoveCursor { .. } => None,
        Command::RemoveRenderable { .. } => None,
        Command::RemoveCamera { .. } => None,
    }
}

/// The calls that a sequence of queued commands makes, in order.
pub open spec fn calls_of<T>(commands: Seq<Command<T>>) -> Seq<SystemCall<T>>
    decreases commands.len(),
{
    if commands.len() == 0 {
        Seq::empty()
    } else {
        let rest = calls_of(commands.drop_last());
        match call_of(commands.last()) {
            Some(call) => rest.push(call),
            None => rest,
        }
    }
}

pub struct CommandQueue<T> {
    commands: Vec<ComponentCommand<T>>,
}

impl<T: Copy> CommandQueue<T> {
    /// The queued commands, oldest first.
    pub closed spec fn queued(&self) -> Seq<Command<T>> {
        self.commands@.map_values(|c: ComponentCommand<T>| c.command)
    }

    /// The components that queued each command, oldest first.
    pub closed spec fn queued_by(&self) -> Seq<ComponentId> {
        self.commands@.map_values(|c: ComponentCommand<T>| c.component_id)
    }

    pub fn new() -> (q: Self)
        ensures
            q.queued() == Seq::<Command<T>>::empty(),
            q.queued_by() == Seq::<ComponentId>::empty(),
    {
        let q = CommandQueue { commands: Vec::new() };
        assert(q.queued() =~= Seq::<Command<T>>::empty());
        assert(q.queued_by() =~= Seq::<ComponentId>::empty());
        q
    }

    pub fn len(&self) -> (n: usize)
        ensures
            n == self.queued().len(),
    {
        self.commands.len()
    }

    fn push(&mut self, component_id: ComponentId, command: Command<T>)
        ensures
            final(self).queued() == old(self).queued().push(command),
            final(self).queued_by() == old(self).queued_by().push(component_id),
    {
        self.commands.push(ComponentCommand { component_id, command });
        assert(final(self).queued() =~= old(self).queued().push(command));
        assert(final(self).queued_by() =~= old(self).queued_by().push(component_id));
    }

    /// Queue a register-renderable command.
    pub fn queue_register_renderable(&mut self, component_id: ComponentId)
        ensures
            final(self).queued() == old(self).queued().push(
                Command::RegisterRenderable { component_id },
            ),
            final(self).queued_by() == old(self).queued_by().push(component_id),
    {
        self.push(component_id, Command::RegisterRenderable { component_id });
    }

    /// Queue a register-transform command.
    pub fn queue_register_transform(&mut self, component_id: ComponentId)
        ensures
            final(self).queued() == old(self).queued().push(
                Command::RegisterTransform { component_id },
            ),
            final(self).queued_by() == old(self).queued_by().push(component_id),
    {
        self.push(component_id, Command::RegisterTransform { component_id });
    }

    /// Queue an update-transform command carrying the new transform.
    pub fn queue_update_transform(&mut self, component_id: ComponentId, transform: T)
        ensures
            final(self).queued() == old(self).queued().push(
                Command::UpdateTransform { component_id, transform },
            ),
            final(self).queued_by() == old(self).queued_by().push(component_id),
    {
        self.push(component_id, Command::UpdateTransform { component_id, transform });
    }

    /// Queue a register-camera command.
    pub fn queue_register_camera(&mut self, component_id: ComponentId)
        ensures
            final(self).queued() == old(self).queued().push(
                Command::RegisterCamera { component_id },
            ),
            final(self).queued_by() == old(self).queued_by().push(component_id),
    {
        self.push(component_id, Command::RegisterCamera { component_id });
    }

    /// Queue a register-2D-camera command.
    pub fn queue_register_camera2d(&mut self, component_id: ComponentId)
        ensures
            final(self).queued() == old(self).queued().push(
                Command::RegisterCamera2D { component_id },
            ),
            final(self).queued_by() == old(self).queued_by().push(component_id),
    {
        self.push(component_id, Command::RegisterCamera2D { component_id });
    }

    /// Queue a make-active-camera command.
    pub fn queue_make_active_camera(&mut self, component_id: ComponentId)
        ensures
            final(self).queued() == old(self).queued().push(
                Command::MakeActiveCamera { component_id },
            ),
            final(self).queued_by() == old(self).queued_by().push(component_id),
    {
        self.push(component_id, Command::MakeActiveCamera { component_id });
    }

    /// Queue a register-input command.
    pub fn queue_register_input(&mut self, component_id: ComponentId)
        ensures
            final(self).queued() == old(self).queued().push(
                Command::RegisterInput { component_id },
            ),
            final(self).queued_by() == old(self).queued_by().push(component_id),
    {
        self.push(component_id, Command::RegisterInput { component_id });
    }

    /// Take every queued command and return, in queue order, the system calls
    /// they make. The queue is empty afterwards.
    pub fn flush(&mut self) -> (calls: Vec<SystemCall<T>>)
        ensures
            calls@ == calls_of(old(self).queued()),
            final(self).queued() == Seq::<Command<T>>::empty(),
            final(self).queued_by() == Seq::<ComponentId>::empty(),
    {
        let mut commands: Vec<ComponentCommand<T>> = Vec::new();
        std::mem::swap(&mut commands, &mut self.commands);
        let ghost all = commands@.map_values(|c: ComponentCommand<T>| c.command);
        assert(all == old(self).queued());
        let mut calls: Vec<SystemCall<T>> = Vec::new();
        let n = commands.len();
        let mut i: usize = 0;
        while i < n
            invariant
                n == commands@.len(),
                all == commands@.map_values(|c: ComponentCommand<T>| c.command),
                i <= n,
                calls@ == calls_of(all.take(i as int)),
            decreases n - i,
        {
            let cmd = commands[i].command;
            assert(all.take(i + 1).drop_last() =~= all.take(i as int));
            assert(all.take(i + 1).last() == cmd);
            match cmd {
                Command::RegisterTransform { component_id } => {
                    calls.push(SystemCall::TransformChanged(component_id));
                },
                Command::UpdateTransform { component_id, transform } => {
                    calls.push(SystemCall::UpdateTransform(component_id, transform));
                },
                Command::RemoveTransform { component_id } => {
                    calls.push(SystemCall::RemoveTransform(component_id));
                },
                Command::RegisterCamera { component_id } => {
                    calls.push(SystemCall::RegisterCamera(component_id));
                },
                Command::RegisterCamera2D { component_id } => {
                    calls.push(SystemCall::RegisterCamera2D(component_id));
                },
                Command::MakeActiveCamera { component_id } => {
                    calls.push(SystemCall::MakeActiveCamera(component_id));
                },
                Command::RegisterInput { component_id } => {
                    calls.push(SystemCall::RegisterInput(component_id));
                },
                Command::RegisterRenderable { component_id } => {
                    calls.push(SystemCall::RegisterRenderable(component_id));
                },
                Command::RegisterInstance { .. } => {},
                Command::RemoveInstance { .. } => {},
                Command::RegisterCursor { .. } => {},
                Command::RemoveCursor { .. } => {},
                Command::RemoveRenderable { .. } => {},
                Command::RemoveCamera { .. } => {},
            }
            i = i + 1;
        }
        assert(all.take(n as int) =~= all);
        assert(final(self).queued() =~= Seq::<Command<T>>::empty());
        assert(final(self).queued_by() =~= Seq::<ComponentId>::empty());
        calls
    }
}


/// The calls of two batches of commands are the calls of the first batch
/// followed by those of the second: flushing keeps queue order across batches.
pub proof fn law_flush_keeps_order<T>(a: Seq<Command<T>>, b: Seq<Command<T>>)
    ensures
        calls_of(a + b) == calls_of(a) + calls_of(b),
    decreases b.len(),
{
    if b.len() == 0 {
        assert(a + b =~= a);
        assert(calls_of(a) + calls_of(b) =~= calls_of(a));
    } else {
        law_flush_keeps_order(a, b.drop_last());
        assert((a + b).drop_last() =~= a + b.drop_last());
        assert((a + b).last() == b.last());
        match call_of(b.last()) {
            Some(call) => {
                assert(calls_of(a) + calls_of(b.drop_last()).push(call) =~= (calls_of(a) + calls_of(
                    b.drop_last(),
                )).push(call));
            },
            None => {},
        }
    }
}

} // verus!
