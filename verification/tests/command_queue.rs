use cat_engine::ecs::command_queue::{Command, CommandQueue, SystemCall};
use cat_engine::ecs::component::camera::{Camera2DComponent, Camera3DComponent, CameraComponent, CameraHandle};
use cat_engine::ecs::component::{ComponentKind, InstanceComponent, RenderableComponent};
use cat_engine::ecs::system::register_once;
use cat_engine::ecs::world::World;
use cat_engine::graphics::primitives::MeshHandle;

#[test]
fn flush_reports_calls_in_queue_order_and_empties_the_queue() {
    let mut world = World::new();
    let a = world.add_component(ComponentKind::Instance(InstanceComponent::new()));
    let b = world.add_component(ComponentKind::Instance(InstanceComponent::new()));
    let mut queue: CommandQueue<u8> = CommandQueue::new();
    queue.queue_register_transform(a);
    queue.queue_update_transform(b, 9);
    queue.queue_register_camera(b);
    queue.queue_register_camera2d(a);
    queue.queue_make_active_camera(b);
    queue.queue_register_input(a);
    queue.queue_register_renderable(b);
    assert_eq!(queue.len(), 7);
    let calls = queue.flush();
    assert_eq!(queue.len(), 0);
    assert_eq!(calls.len(), 7);
    assert!(matches!(calls[0], SystemCall::TransformChanged(x) if x == a));
    assert!(matches!(calls[1], SystemCall::UpdateTransform(x, 9) if x == b));
    assert!(matches!(calls[2], SystemCall::RegisterCamera(x) if x == b));
    assert!(matches!(calls[3], SystemCall::RegisterCamera2D(x) if x == a));
    assert!(matches!(calls[4], SystemCall::MakeActiveCamera(x) if x == b));
    assert!(matches!(calls[5], SystemCall::RegisterInput(x) if x == a));
    assert!(matches!(calls[6], SystemCall::RegisterRenderable(x) if x == b));
    assert!(queue.flush().is_empty());
}

#[test]
fn flushing_twice_keeps_the_order_across_batches() {
    let mut world = World::new();
    let a = world.add_component(ComponentKind::Instance(InstanceComponent::new()));
    let mut queue: CommandQueue<u8> = CommandQueue::new();
    queue.queue_register_transform(a);
    let first = queue.flush();
    queue.queue_register_camera(a);
    let second = queue.flush();
    assert_eq!(first.len(), 1);
    assert_eq!(second.len(), 1);
    assert!(matches!(first[0], SystemCall::TransformChanged(_)));
    assert!(matches!(second[0], SystemCall::RegisterCamera(_)));
}

#[test]
fn components_queue_their_registration_when_initialized() {
    let mut world = World::new();
    let r = world.add_component(ComponentKind::Renderable(RenderableComponent::cube(MeshHandle::cube())));
    let c2 = world.add_component(ComponentKind::Camera2D(Camera2DComponent::new()));
    let c3 = world.add_component(ComponentKind::Camera3D(Camera3DComponent::new()));
    let c = world.add_component(ComponentKind::Camera(CameraComponent::new()));
    let i = world.add_component(ComponentKind::Instance(InstanceComponent::new()));
    let mut queue: CommandQueue<u8> = CommandQueue::new();
    let mut kinds = vec![
        ComponentKind::Renderable(RenderableComponent::cube(MeshHandle::cube())),
        ComponentKind::Camera2D(Camera2DComponent::new()),
        ComponentKind::Camera3D(Camera3DComponent::new()),
        ComponentKind::Camera(CameraComponent::new()),
        ComponentKind::Instance(InstanceComponent::new()),
    ];
    let ids = [r, c2, c3, c, i];
    for (k, id) in kinds.iter_mut().zip(ids.iter()) {
        k.init(&mut queue, *id);
    }
    let calls = queue.flush();
    assert_eq!(calls.len(), 4);
    assert!(matches!(calls[0], SystemCall::RegisterRenderable(x) if x == r));
    assert!(matches!(calls[1], SystemCall::RegisterCamera2D(x) if x == c2));
    assert!(matches!(calls[2], SystemCall::RegisterCamera(x) if x == c3));
    assert!(matches!(calls[3], SystemCall::RegisterCamera(x) if x == c));
}

#[test]
fn active_camera_request_goes_through_the_queue() {
    let mut world = World::new();
    let c = world.add_component(ComponentKind::Camera3D(Camera3DComponent::new()));
    let mut queue: CommandQueue<u8> = CommandQueue::new();
    let mut cam = Camera3DComponent::new();
    cam.make_active_camera(&mut queue, c);
    assert_eq!(queue.len(), 0);
    cam.handle = Some(CameraHandle(0));
    cam.make_active_camera(&mut queue, c);
    assert_eq!(queue.len(), 1);
    assert!(matches!(queue.flush()[0], SystemCall::MakeActiveCamera(x) if x == c));
}

#[test]
fn commands_without_a_handler_make_no_call() {
    let mut queue: CommandQueue<u8> = CommandQueue::new();
    assert!(queue.flush().is_empty());
    let _unused: Option<Command<u8>> = None;
}

#[test]
fn registering_twice_registers_once() {
    let mut world = World::new();
    let a = world.add_component(ComponentKind::Instance(InstanceComponent::new()));
    let b = world.add_component(ComponentKind::Instance(InstanceComponent::new()));
    let mut ids = Vec::new();
    register_once(&mut ids, a);
    register_once(&mut ids, b);
    register_once(&mut ids, a);
    assert_eq!(ids, vec![a, b]);
}
