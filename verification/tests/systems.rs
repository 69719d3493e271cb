use cat_engine::ecs::command_queue::{CommandQueue, SystemCall};
use cat_engine::ecs::component::camera::{Camera2DComponent, CameraComponent, CameraHandle};
use cat_engine::ecs::component::texture::TextureComponent;
use cat_engine::ecs::component::{ComponentKind, InstanceComponent, RenderableComponent};
use cat_engine::ecs::system::camera_system::CameraSystem;
use cat_engine::ecs::system::renderable_system::RenderableSystem;
use cat_engine::ecs::system::system_world::SystemWorld;
use cat_engine::ecs::system::texture_system::{PairStep, TextureSystem};
use cat_engine::ecs::world::World;
use cat_engine::graphics::primitives::{InstanceHandle, MeshHandle, TextureHandle};

#[test]
fn newest_camera_becomes_active_and_known_cameras_can_be_selected() {
    let mut cams = CameraSystem::new();
    let a = cams.register_camera();
    let b = cams.register_camera();
    assert_eq!(a, CameraHandle(0));
    assert_eq!(b, CameraHandle(1));
    assert_eq!(cams.active_camera, Some(b));
    assert!(cams.set_active_camera(a));
    assert!(!cams.set_active_camera(a));
    assert!(!cams.set_active_camera(CameraHandle(7)));
    assert_eq!(cams.active_camera, Some(a));
}

#[test]
fn processing_commands_registers_cameras_and_defers_transform_calls() {
    let mut world = World::new();
    let mut systems = SystemWorld::new();
    let cam = world.add_component(ComponentKind::Camera(CameraComponent::new()));
    let cam2 = world.add_component(ComponentKind::Camera(CameraComponent::new()));
    let input = world.add_component(ComponentKind::Instance(InstanceComponent::new()));
    let mut queue: CommandQueue<u8> = CommandQueue::new();
    queue.queue_register_camera(cam);
    queue.queue_register_transform(input);
    queue.queue_register_camera(cam2);
    queue.queue_register_input(input);
    queue.queue_make_active_camera(cam);
    queue.queue_register_camera2d(cam2);
    let deferred = systems.process_commands(&mut world, &mut queue);
    assert_eq!(queue.len(), 0);
    assert_eq!(deferred.len(), 2);
    assert!(matches!(deferred[0], SystemCall::TransformChanged(x) if x == input));
    assert!(matches!(deferred[1], SystemCall::RegisterCamera2D(x) if x == cam2));
    assert_eq!(
        world.get_component_by_id_as::<CameraComponent>(cam).unwrap().handle,
        Some(CameraHandle(0))
    );
    assert_eq!(
        world.get_component_by_id_as::<CameraComponent>(cam2).unwrap().handle,
        Some(CameraHandle(1))
    );
    assert_eq!(systems.camera.active_camera, Some(CameraHandle(0)));
}

#[test]
fn make_active_camera_reads_the_component_handle() {
    let mut world = World::new();
    let mut systems = SystemWorld::default();
    let c2 = world.add_component(ComponentKind::Camera2D(Camera2DComponent::new()));
    let other = world.add_component(ComponentKind::Instance(InstanceComponent::new()));
    assert!(!systems.make_active_camera(&world, c2));
    let first = world.add_component(ComponentKind::Camera(CameraComponent::new()));
    systems.register_camera(&mut world, first);
    let h = systems.camera.register_camera();
    world.get_component_by_id_as_mut::<Camera2DComponent>(c2).unwrap().handle = Some(h);
    systems.camera.set_active_camera(CameraHandle(0));
    assert!(systems.make_active_camera(&world, c2));
    assert_eq!(systems.camera.active_camera, Some(h));
    assert!(!systems.make_active_camera(&world, other));
}

#[test]
fn renderables_wait_for_upload_until_they_have_an_instance() {
    let mut world = World::new();
    let r = world.add_component(ComponentKind::Renderable(RenderableComponent::cube(MeshHandle::cube())));
    let not_renderable = world.add_component(ComponentKind::Instance(InstanceComponent::new()));
    let mut sys = RenderableSystem::new();
    sys.register_renderable(&world, r);
    sys.register_renderable(&world, r);
    sys.register_renderable(&world, not_renderable);
    let mut systems = SystemWorld::new();
    systems.register_renderable(&world, r);
    systems.register_input(not_renderable);
    systems.register_cursor(1, 2);
    systems.register_cursor(1, 2);
}

#[test]
fn textures_register_once_under_their_renderable() {
    let mut world = World::new();
    let r = world.add_component(ComponentKind::Renderable(RenderableComponent::cube(MeshHandle::cube())));
    let mid = world.add_component(ComponentKind::Instance(InstanceComponent::new()));
    let t = world.add_component(ComponentKind::Texture(TextureComponent::new("assets/cat.png".to_string())));
    world.add_child(r, mid).unwrap();
    world.add_child(mid, t).unwrap();
    let mut textures = TextureSystem::new();
    textures.register_texture(&world, t);
    textures.register_texture(&world, t);
    textures.register_texture(&world, mid);
}

struct CountingLoader {
    loads: Vec<String>,
    fail: bool,
}

impl cat_engine::ecs::system::texture_system::TextureLoader for CountingLoader {
    fn load_texture(&mut self, uri: &str) -> Result<cat_engine::graphics::primitives::TextureHandle, String> {
        if self.fail {
            return Err(format!("cannot read {uri}"));
        }
        self.loads.push(uri.to_string());
        Ok(cat_engine::graphics::primitives::TextureHandle(self.loads.len() as u32))
    }
}

fn textured_renderable(world: &mut World, uri: &str) -> (cat_engine::ecs::world::ComponentId, cat_engine::ecs::world::ComponentId) {
    let r = world.add_component(ComponentKind::Renderable(RenderableComponent::cube(MeshHandle::cube())));
    let t = world.add_component(ComponentKind::Texture(TextureComponent::new(uri.to_string())));
    world.add_child(r, t).unwrap();
    (r, t)
}

fn give_instance(world: &mut World, r: cat_engine::ecs::world::ComponentId, h: u32) {
    world.get_component_by_id_as_mut::<RenderableComponent>(r).unwrap().handle =
        Some(cat_engine::graphics::primitives::InstanceHandle(h));
}

#[test]
fn textures_with_the_same_uri_are_loaded_once_and_shared() {
    let mut world = World::new();
    let (r1, t1) = textured_renderable(&mut world, "assets/cat-face-neutral.png");
    let (r2, t2) = textured_renderable(&mut world, "assets/cat-face-neutral.png");
    let (r3, t3) = textured_renderable(&mut world, "assets/other.png");
    let mut textures = TextureSystem::new();
    for t in [t1, t2, t3] {
        textures.register_texture(&world, t);
    }
    let mut loader = CountingLoader { loads: Vec::new(), fail: false };
    assert!(textures.flush_pending(&world, &mut loader).is_empty());
    assert!(loader.loads.is_empty());
    give_instance(&mut world, r1, 10);
    give_instance(&mut world, r2, 20);
    give_instance(&mut world, r3, 30);
    let mut attached = textures.flush_pending(&world, &mut loader);
    attached.sort_by_key(|(i, _)| i.0);
    assert_eq!(loader.loads.len(), 2);
    assert_eq!(attached.len(), 3);
    assert_eq!(attached[0].1, attached[1].1);
    assert_ne!(attached[0].1, attached[2].1);
    assert_eq!(attached[0].0, InstanceHandle(10));
    assert_eq!(attached[2].0, InstanceHandle(30));
    assert!(textures.flush_pending(&world, &mut loader).is_empty());
    let _ = TextureHandle(0);
}

#[test]
fn failed_loads_and_removed_renderables_drop_the_pending_attachment() {
    let mut world = World::new();
    let (r1, t1) = textured_renderable(&mut world, "missing.png");
    let (r2, t2) = textured_renderable(&mut world, "gone.png");
    let mut textures = TextureSystem::new();
    textures.register_texture(&world, t1);
    textures.register_texture(&world, t2);
    give_instance(&mut world, r1, 1);
    world.remove_component_subtree(r2).unwrap();
    let mut failing = CountingLoader { loads: Vec::new(), fail: true };
    assert!(textures.flush_pending(&world, &mut failing).is_empty());
    let mut ok = CountingLoader { loads: Vec::new(), fail: false };
    assert!(textures.flush_pending(&world, &mut ok).is_empty());
    assert!(ok.loads.is_empty());
}

#[test]
fn each_pending_pair_is_planned_from_its_renderable_and_texture() {
    let mut world = World::new();
    let (r1, t1) = textured_renderable(&mut world, "a.png");
    let (r2, t2) = textured_renderable(&mut world, "a.png");
    let mut textures = TextureSystem::new();
    textures.register_texture(&world, t1);
    textures.register_texture(&world, t2);
    // No instance yet: the pair waits.
    assert!(matches!(textures.plan_pair(&world, r1, t1), PairStep::Wait));
    give_instance(&mut world, r1, 4);
    give_instance(&mut world, r2, 5);
    // The URI was never uploaded: it must be loaded from the record's URI.
    match textures.plan_pair(&world, r1, t1) {
        PairStep::Load(i, uri) => {
            assert_eq!(i, InstanceHandle(4));
            assert_eq!(uri, "a.png");
        }
        _ => panic!("expected a load"),
    }
    // A failed load drops the pair.
    assert_eq!(textures.record_load(r1.to_bits(), t1, InstanceHandle(4), Err("no".to_string())), None);
    // A successful load attaches it, and the next pair with that URI reuses it.
    assert_eq!(
        textures.record_load(r1.to_bits(), t1, InstanceHandle(4), Ok(TextureHandle(9))),
        Some((InstanceHandle(4), TextureHandle(9)))
    );
    match textures.plan_pair(&world, r2, t2) {
        PairStep::Attach(i, h) => {
            assert_eq!(i, InstanceHandle(5));
            assert_eq!(h, TextureHandle(9));
            assert_eq!(textures.attach_texture(r2.to_bits(), t2, i, h), (i, h));
        }
        _ => panic!("expected an attach"),
    }
    // An unknown texture, or a renderable that is gone, drops the pair.
    let stray = world.add_component(ComponentKind::Instance(InstanceComponent::new()));
    assert!(matches!(textures.plan_pair(&world, r1, stray), PairStep::Drop));
    assert!(matches!(textures.plan_pair(&world, stray, t1), PairStep::Drop));
    let mut loader = CountingLoader { loads: Vec::new(), fail: false };
    assert!(textures.flush_pending(&world, &mut loader).is_empty());
    assert!(loader.loads.is_empty());
}

#[test]
fn an_already_uploaded_uri_is_attached_without_loading() {
    let mut world = World::new();
    let (r1, t1) = textured_renderable(&mut world, "shared.png");
    let mut textures = TextureSystem::new();
    textures.register_texture(&world, t1);
    give_instance(&mut world, r1, 1);
    let mut loader = CountingLoader { loads: Vec::new(), fail: false };
    let first = textures.flush_pending(&world, &mut loader);
    assert_eq!(first, vec![(InstanceHandle(1), TextureHandle(1))]);
    let (r2, t2) = textured_renderable(&mut world, "shared.png");
    textures.register_texture(&world, t2);
    give_instance(&mut world, r2, 2);
    let second = textures.flush_pending(&world, &mut loader);
    assert_eq!(second, vec![(InstanceHandle(2), TextureHandle(1))]);
    assert_eq!(loader.loads.len(), 1);
}

#[test]
fn performed_calls_update_every_registry_in_queue_order() {
    let mut world = World::new();
    let mut systems = SystemWorld::new();
    let r = world.add_component(ComponentKind::Renderable(RenderableComponent::cube(MeshHandle::cube())));
    let cam = world.add_component(ComponentKind::Camera(CameraComponent::new()));
    let input = world.add_component(ComponentKind::Instance(InstanceComponent::new()));
    let mut queue: CommandQueue<u8> = CommandQueue::new();
    queue.queue_register_renderable(r);
    queue.queue_register_input(input);
    queue.queue_register_input(input);
    queue.queue_register_camera(cam);
    let deferred = systems.process_commands(&mut world, &mut queue);
    assert!(deferred.is_empty());
    assert_eq!(systems.camera.active_camera, Some(CameraHandle(0)));
    assert_eq!(systems.camera.register_camera(), CameraHandle(1));
}

#[test]
fn avatars_register_once_and_removal_undoes_registration() {
    use_avatar_system();
}

fn use_avatar_system() {
    let mut world = World::new();
    let a = world.add_component(ComponentKind::Instance(InstanceComponent::new()));
    let mut avatars = cat_engine::ecs::system::avatar_control_system::AvatarControlSystem::new();
    assert!(!avatars.is_avatar(a));
    avatars.register(a);
    avatars.register(a);
    assert!(avatars.is_avatar(a));
    avatars.remove(a);
    assert!(!avatars.is_avatar(a));
}
