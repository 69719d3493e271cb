use cat_engine::ecs::component::component_ref::ComponentRef;
use cat_engine::ecs::component::transform_apply_inverse_local::TransformApplyInverseLocalComponent;
use cat_engine::ecs::component::{
    ComponentKind, InstanceComponent, MountableComponent, RenderableComponent, RiderComponent,
    TransformComponent,
};
use cat_engine::ecs::system::attachment_system::{
    edge_is_valid, mountable_for_hit, rider_for_pointer, ActiveMount, AttachmentSystem, DismountStep, SuspendedInput,
};
use cat_engine::ecs::system::transform_system::TransformSystem;
use cat_engine::ecs::world::World;
use cat_engine::graphics::primitives::{MaterialHandle, MeshHandle};

#[test]
fn attachment_edges_stay_valid_only_while_their_structure_holds() {
    let mut world = World::new();
    let rider = world.add_component(ComponentKind::Rider(RiderComponent::new()));
    let mountable = world.add_component(ComponentKind::Mountable(MountableComponent::new().on_grip()));
    let root = world.spawn_component_boxed(ComponentKind::Instance(InstanceComponent::new()));
    let anchor = world.add_component(ComponentKind::Instance(InstanceComponent::new()));
    let seat = world.add_component(ComponentKind::Instance(InstanceComponent::new()));
    let exit = world.add_component(ComponentKind::Instance(InstanceComponent::new()));
    let parent = world.add_component(ComponentKind::Instance(InstanceComponent::new()));
    world.add_child(parent, root).unwrap();
    let edge = ActiveMount {
        rider,
        mountable,
        rider_root: root,
        rider_anchor: anchor,
        mount_anchor: seat,
        dismount_anchor: exit,
        transform_parent: parent,
        original_parent: None,
        suspended_input: SuspendedInput::Desktop { component: anchor, enabled: true },
    };
    assert!(edge_is_valid(&world, edge));
    world.get_component_by_id_as_mut::<MountableComponent>(mountable).unwrap().enabled = false;
    assert!(!edge_is_valid(&world, edge));
    world.get_component_by_id_as_mut::<MountableComponent>(mountable).unwrap().enabled = true;
    world.set_parent(root, None).unwrap();
    assert!(!edge_is_valid(&world, edge));
    world.add_child(parent, root).unwrap();
    world.remove_component_leaf(seat).unwrap();
    assert!(!edge_is_valid(&world, edge));
    let mut sys = AttachmentSystem::new();
    sys.begin_frame();
}

#[test]
fn remaining_builders() {
    let c = TransformApplyInverseLocalComponent::new(ComponentRef::Guid(1))
        .with_source(ComponentRef::Query("../body".to_string()));
    assert_eq!(c.source, ComponentRef::Query("../body".to_string()));
    let r = RenderableComponent::color_tetrahedron(MeshHandle(3));
    assert_eq!(r.renderable.mesh, MeshHandle(3));
    assert_eq!(r.renderable.material, MaterialHandle(1));
}

fn transform() -> ComponentKind {
    ComponentKind::Transform(TransformComponent::new())
}

#[test]
fn pointer_finds_the_single_rider_beside_it_and_ambiguity_answers_none() {
    let mut world = World::new();
    let body = world.add_component(transform());
    let hand = world.add_component(transform());
    let pointer = world.add_component(ComponentKind::Instance(InstanceComponent::new()));
    let rider = world.add_component(ComponentKind::Rider(RiderComponent::new()));
    world.add_child(body, hand).unwrap();
    world.add_child(hand, pointer).unwrap();
    world.add_child(body, rider).unwrap();
    // The hand transform has no rider child, so the walk goes on to the body.
    assert_eq!(rider_for_pointer(&world, pointer), Some(rider));
    // A rider reached directly is taken.
    assert_eq!(rider_for_pointer(&world, rider), Some(rider));
    // A disabled rider does not count.
    world.get_component_by_id_as_mut::<RiderComponent>(rider).unwrap().enabled = false;
    assert_eq!(rider_for_pointer(&world, pointer), None);
    world.get_component_by_id_as_mut::<RiderComponent>(rider).unwrap().enabled = true;
    // Two enabled riders under one transform are ambiguous.
    let second = world.add_component(ComponentKind::Rider(RiderComponent::new()));
    world.add_child(body, second).unwrap();
    assert_eq!(rider_for_pointer(&world, pointer), None);
    // A rider under the nearer transform wins before the ambiguity is met.
    let own = world.add_component(ComponentKind::Rider(RiderComponent::new()));
    world.add_child(hand, own).unwrap();
    assert_eq!(rider_for_pointer(&world, pointer), Some(own));
}

#[test]
fn hit_selects_the_nearest_grip_mountable_and_its_transform() {
    let mut world = World::new();
    let vehicle = world.add_component(transform());
    let hull = world.add_component(transform());
    let mesh = world.add_component(ComponentKind::Instance(InstanceComponent::new()));
    let seat = world.add_component(ComponentKind::Mountable(MountableComponent::new()));
    world.add_child(vehicle, hull).unwrap();
    world.add_child(hull, mesh).unwrap();
    world.add_child(vehicle, seat).unwrap();
    assert_eq!(mountable_for_hit(&world, mesh), Some((seat, vehicle)));
    // Hitting the mountable itself pairs it with its nearest transform.
    assert_eq!(mountable_for_hit(&world, seat), Some((seat, vehicle)));
    // A mountable without a transform above it selects nothing.
    let loose = world.add_component(ComponentKind::Mountable(MountableComponent::new()));
    assert_eq!(mountable_for_hit(&world, loose), None);
    // Disabled mountables are skipped.
    world.get_component_by_id_as_mut::<MountableComponent>(seat).unwrap().enabled = false;
    assert_eq!(mountable_for_hit(&world, mesh), None);
    assert_eq!(TransformSystem::nearest_transform_self_or_ancestor(&world, mesh), Some(hull));
    assert_eq!(TransformSystem::nearest_transform_self_or_ancestor(&world, hull), Some(hull));
    assert_eq!(TransformSystem::nearest_transform_self_or_ancestor(&world, loose), None);
    assert!(TransformSystem::is_descendant_of(&world, mesh, vehicle));
    assert!(!TransformSystem::is_descendant_of(&world, vehicle, mesh));
}

#[test]
fn mounts_commit_one_edge_per_rider_and_mountable_and_dismount_after_the_frame() {
    let mut world = World::new();
    let body = world.add_component(transform());
    let pointer = world.add_component(ComponentKind::Instance(InstanceComponent::new()));
    let rider = world.add_component(ComponentKind::Rider(RiderComponent::new()));
    world.add_child(body, pointer).unwrap();
    world.add_child(body, rider).unwrap();
    let vehicle = world.add_component(transform());
    let hull = world.add_component(ComponentKind::Instance(InstanceComponent::new()));
    let seat = world.add_component(ComponentKind::Mountable(MountableComponent::new()));
    world.add_child(vehicle, hull).unwrap();
    world.add_child(vehicle, seat).unwrap();
    let parent = world.add_component(transform());
    world.add_child(parent, body).unwrap();

    let mut sys = AttachmentSystem::new();
    assert!(matches!(sys.dismount_step(&world, pointer), DismountStep::NotMounted));
    assert_eq!(sys.mount_target(&world, pointer, hull), Some((rider, seat)));
    let edge = ActiveMount {
        rider,
        mountable: seat,
        rider_root: body,
        rider_anchor: body,
        mount_anchor: vehicle,
        dismount_anchor: vehicle,
        transform_parent: parent,
        original_parent: None,
        suspended_input: SuspendedInput::Desktop { component: pointer, enabled: true },
    };
    sys.record_mount(edge);
    assert!(sys.is_mounted(rider));
    // The rider and the seat are taken.
    assert_eq!(sys.mount_target(&world, pointer, hull), None);
    // A grip in the frame of the mount is consumed without a dismount.
    assert!(matches!(sys.dismount_step(&world, pointer), DismountStep::MountedThisFrame));
    sys.begin_frame();
    assert!(sys.is_mounted(rider));
    match sys.dismount_step(&world, pointer) {
        DismountStep::Dismount(e) => assert_eq!(e.mountable, seat),
        _ => panic!("expected a dismount"),
    }
    assert!(sys.invalid_riders(&world).is_empty());
    world.get_component_by_id_as_mut::<RiderComponent>(rider).unwrap().enabled = false;
    assert_eq!(sys.invalid_riders(&world), vec![rider]);
    assert_eq!(sys.forget_edge(rider).map(|e| e.mountable), Some(seat));
    assert!(!sys.is_mounted(rider));
    assert!(sys.forget_edge(rider).is_none());
    world.get_component_by_id_as_mut::<RiderComponent>(rider).unwrap().enabled = true;
    assert_eq!(sys.mount_target(&world, pointer, hull), Some((rider, seat)));
}
