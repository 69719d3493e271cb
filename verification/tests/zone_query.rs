use cat_engine::ecs::component::zone::{zone_has_role, ZoneComponent, ZoneShape};
use cat_engine::ecs::component::{ComponentKind, TransformComponent};
use cat_engine::ecs::system::zone_query::zones_in_subtree;
use cat_engine::ecs::world::World;

fn sphere(radius: f32) -> ZoneComponent {
    ZoneComponent::new(ZoneShape::Sphere { radius_bits: radius.to_bits() })
}

#[test]
fn subtree_enumeration_is_stable_role_filtered_and_skips_disabled_zones() {
    let mut world = World::default();
    let root = world.add_component(ComponentKind::Transform(TransformComponent::new()));
    let legs = world.add_component(ComponentKind::Zone(sphere(1.0).role("mount".to_string())));
    let mouth = world.add_component(ComponentKind::Zone(sphere(1.0).role("socket".to_string())));
    let disabled = world.add_component(ComponentKind::Zone(
        sphere(1.0).role("mount".to_string()).enabled(false),
    ));
    world.add_child(root, legs).unwrap();
    world.add_child(root, mouth).unwrap();
    world.add_child(root, disabled).unwrap();

    assert_eq!(zones_in_subtree(&world, root, None), vec![legs, mouth]);
    assert_eq!(zones_in_subtree(&world, root, Some("mount")), vec![legs]);
}

#[test]
fn nested_zones_come_after_the_zones_above_them() {
    let mut world = World::new();
    let outer = world.add_component(ComponentKind::Zone(sphere(2.0)));
    let inner = world.add_component(ComponentKind::Zone(sphere(1.0)));
    let sibling = world.add_component(ComponentKind::Zone(sphere(1.0)));
    world.add_child(outer, inner).unwrap();
    world.add_child(outer, sibling).unwrap();
    assert_eq!(zones_in_subtree(&world, outer, None), vec![outer, inner, sibling]);
    assert_eq!(zones_in_subtree(&world, inner, None), vec![inner]);
    world.remove_component_subtree(outer).unwrap();
    assert!(zones_in_subtree(&world, outer, None).is_empty());
}

#[test]
fn roles_are_deduplicated_and_empty_roles_ignored() {
    let zone = sphere(1.0)
        .role("mount".to_string())
        .role("mount".to_string())
        .role(String::new())
        .role("socket".to_string());
    assert_eq!(zone.roles, vec!["mount".to_string(), "socket".to_string()]);
    assert!(zone_has_role(&zone, "socket"));
    assert!(!zone_has_role(&zone, "grip"));
    assert!(zone.enabled);
    assert!(zone.frame_source.is_none());
}
