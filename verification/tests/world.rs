use cat_engine::ecs::component::zone::{ZoneComponent, ZoneShape};
use cat_engine::ecs::component::{
    ComponentKind, InstanceComponent, LitVoxelComponent, RenderableComponent, RiderComponent,
};
use cat_engine::ecs::system::attachment_system::is_descendant_or_self;
use cat_engine::ecs::world::World;
use cat_engine::graphics::primitives::MeshHandle;

fn instance() -> ComponentKind {
    ComponentKind::Instance(InstanceComponent::new())
}

#[test]
fn new_world_is_empty_and_unknown_ids_have_no_links() {
    let mut world = World::new();
    let a = world.add_component(instance());
    let other = World::default();
    assert!(other.get_component_record(a).is_none());
    assert_eq!(other.parent_of(a), None);
    assert!(other.children_of(a).is_empty());
}

#[test]
fn add_child_links_parent_and_children_in_order() {
    let mut world = World::new();
    let root = world.add_component(instance());
    let a = world.add_component(instance());
    let b = world.add_component(instance());
    assert_eq!(world.add_child(root, a), Ok(()));
    assert_eq!(world.add_child(root, b), Ok(()));
    assert_eq!(world.parent_of(a), Some(root));
    assert_eq!(world.parent_of(b), Some(root));
    assert_eq!(world.parent_of(root), None);
    assert_eq!(world.children_of(root), &[a, b]);
}

#[test]
fn add_child_reports_each_error() {
    let mut world = World::new();
    let root = world.add_component(instance());
    let child = world.add_component(instance());
    let mut gone_world = World::new();
    let stranger = {
        let _ = gone_world.add_component(instance());
        gone_world.add_component(instance())
    };
    let _ = stranger;
    assert_eq!(world.add_child(root, root), Err("cannot parent component to itself"));
    assert_eq!(world.add_child(root, child), Ok(()));
    assert_eq!(world.add_child(child, root), Err("cycle detected"));
    world.remove_component_subtree(child).unwrap();
    assert_eq!(world.add_child(child, root), Err("parent does not exist"));
    assert_eq!(world.add_child(root, child), Err("child does not exist"));
}

#[test]
fn reparenting_moves_a_child_between_parents() {
    let mut world = World::new();
    let p1 = world.add_component(instance());
    let p2 = world.add_component(instance());
    let c = world.add_component(instance());
    world.add_child(p1, c).unwrap();
    world.add_child(p2, c).unwrap();
    assert!(world.children_of(p1).is_empty());
    assert_eq!(world.children_of(p2), &[c]);
    assert_eq!(world.parent_of(c), Some(p2));
}

#[test]
fn set_parent_none_detaches_without_deleting() {
    let mut world = World::new();
    let p = world.add_component(instance());
    let c = world.add_component(instance());
    world.set_parent(c, Some(p)).unwrap();
    assert_eq!(world.set_parent(c, None), Ok(()));
    assert_eq!(world.parent_of(c), None);
    assert!(world.children_of(p).is_empty());
    assert!(world.get_component_record(c).is_some());
}

#[test]
fn remove_leaf_requires_a_leaf() {
    let mut world = World::new();
    let p = world.add_component(instance());
    let c = world.add_component(instance());
    world.add_child(p, c).unwrap();
    assert_eq!(
        world.remove_component_leaf(p),
        Err("component has children; use remove_component_subtree or detach children first")
    );
    assert_eq!(world.remove_component_leaf(c), Ok(()));
    assert!(world.children_of(p).is_empty());
    assert_eq!(world.remove_component_leaf(c), Err("component does not exist"));
}

#[test]
fn remove_subtree_deletes_descendants_and_unlinks_from_parent() {
    let mut world = World::new();
    let top = world.add_component(instance());
    let mid = world.add_component(instance());
    let leaf = world.add_component(instance());
    let keep = world.add_component(instance());
    world.add_child(top, mid).unwrap();
    world.add_child(mid, leaf).unwrap();
    world.add_child(top, keep).unwrap();
    assert_eq!(world.remove_component_subtree(mid), Ok(()));
    assert!(world.get_component_record(mid).is_none());
    assert!(world.get_component_record(leaf).is_none());
    assert_eq!(world.children_of(top), &[keep]);
    assert_eq!(world.remove_component_subtree(mid), Err("component does not exist"));
}

#[test]
fn ancestry_queries_follow_parent_links() {
    let mut world = World::new();
    let a = world.add_component(instance());
    let b = world.add_component(instance());
    let c = world.add_component(instance());
    world.add_child(a, b).unwrap();
    world.add_child(b, c).unwrap();
    assert!(world.is_ancestor_of(a, c));
    assert!(!world.is_ancestor_of(c, a));
    assert!(!world.is_ancestor_of(a, a));
    assert!(is_descendant_or_self(&world, a, a));
    assert!(is_descendant_or_self(&world, a, c));
    assert!(!is_descendant_or_self(&world, c, b));
}

#[test]
fn add_component_tells_components_their_id() {
    let mut world = World::new();
    let r = world.add_component(ComponentKind::Renderable(RenderableComponent::cube(MeshHandle::cube())));
    match world.get_component(r) {
        Some(ComponentKind::Renderable(c)) => assert_eq!(c.component, Some(r)),
        _ => panic!("expected a renderable"),
    }
    let boxed = world.add_component_boxed(ComponentKind::LitVoxel(LitVoxelComponent::new()));
    match world.get_component(boxed) {
        Some(ComponentKind::LitVoxel(c)) => assert_eq!(c.component, None),
        _ => panic!("expected a lit voxel"),
    }
    assert_eq!(world.get_component_record(r).unwrap().name, "renderable");
}

#[test]
fn typed_access_reads_and_writes_only_matching_kinds() {
    let mut world = World::new();
    let parent = world.add_component(ComponentKind::Rider(RiderComponent::new()));
    let child = world.add_component(instance());
    world.add_child(parent, child).unwrap();
    assert!(world.get_component_by_id_as::<RiderComponent>(parent).unwrap().enabled);
    assert!(world.get_component_by_id_as::<RiderComponent>(child).is_none());
    let (p, rider) = world.get_parent_as::<RiderComponent>(child).unwrap();
    assert_eq!(p, parent);
    assert!(rider.enabled);
    assert!(world.get_parent_as::<InstanceComponent>(child).is_none());
    {
        let (_, rider) = world.get_parent_as_mut::<RiderComponent>(child).unwrap();
        rider.enabled = false;
    }
    assert!(!world.get_component_by_id_as::<RiderComponent>(parent).unwrap().enabled);
    assert!(world.get_component_by_id_as_mut::<InstanceComponent>(parent).is_none());
    assert_eq!(world.parent_of(child), Some(parent));
    world.get_component_record_mut(child).unwrap().name = "renamed";
    assert_eq!(world.get_component_record(child).unwrap().name, "renamed");
}

#[test]
fn subtree_order_walks_depth_first_with_children_in_order() {
    let mut world = World::new();
    let root = world.add_component(instance());
    let a = world.add_component(instance());
    let a1 = world.add_component(instance());
    let b = world.add_component(instance());
    let outside = world.add_component(instance());
    world.add_child(root, a).unwrap();
    world.add_child(a, a1).unwrap();
    world.add_child(root, b).unwrap();
    assert_eq!(world.subtree_order(root), vec![root, a, a1, b]);
    assert_eq!(world.subtree_order(a), vec![a, a1]);
    assert_eq!(world.subtree_order(outside), vec![outside]);
    world.remove_component_subtree(outside).unwrap();
    assert!(world.subtree_order(outside).is_empty());
}

#[test]
fn zones_are_plain_world_components() {
    let mut world = World::new();
    let z = world.add_component(ComponentKind::Zone(
        ZoneComponent::new(ZoneShape::Sphere { radius_bits: 1.0f32.to_bits() }).role("mount".to_string()),
    ));
    let zone = world.get_component_by_id_as::<ZoneComponent>(z).unwrap();
    assert_eq!(zone.roles, vec!["mount".to_string()]);
}
