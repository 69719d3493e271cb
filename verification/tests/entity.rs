use cat_engine::ecs::component::zone::{ZoneComponent, ZoneShape};
use cat_engine::ecs::component::{ComponentKind, InstanceComponent, LitVoxelComponent, RiderComponent};
use cat_engine::ecs::entity::Entity;

fn instance() -> ComponentKind {
    ComponentKind::Instance(InstanceComponent::new())
}

fn voxel(level: u8) -> ComponentKind {
    ComponentKind::LitVoxel(LitVoxelComponent::new().with_shade_level(level))
}

#[test]
fn new_entity_has_one_active_root_instance() {
    let e = Entity::new(7);
    assert_eq!(e.id, 7);
    assert_eq!(e.roots(), &[0]);
    assert_eq!(e.active_root(), Some(0));
    assert!(matches!(e.get_component_by_id(0), Some(ComponentKind::Instance(_))));
    assert_eq!(e.parent_of(0), None);
    assert!(e.children_of(0).is_empty());
    assert!(e.get_component_by_id(1).is_none());
}

#[test]
fn builder_attaches_under_the_active_root() {
    let e = Entity::new(1).with_component(voxel(1)).with_component(voxel(2));
    assert_eq!(e.children_of(0), &[1, 2]);
    assert_eq!(e.parent_of(1), Some(0));
    assert_eq!(e.parent_of(2), Some(0));
    assert_eq!(e.get_component_by_id_as::<LitVoxelComponent>(2).unwrap().shade_level, 2);
}

#[test]
fn ids_are_handed_out_in_sequence() {
    let mut e = Entity::new(1);
    assert_eq!(e.alloc_component_id(), 1);
    assert_eq!(e.alloc_component_id(), 2);
    let r = e.add_root(instance());
    assert_eq!(r, 3);
    assert_eq!(e.roots(), &[0, 3]);
    assert_eq!(e.active_root(), Some(3));
    e.set_active_root(0);
    assert_eq!(e.active_root(), Some(0));
    assert_eq!(e.add_component(voxel(4)), 4);
    assert_eq!(e.parent_of(4), Some(0));
}

#[test]
fn boxed_insertion_hands_back_the_stored_component() {
    let mut e = Entity::new(3);
    {
        let (cid, c) = e.add_child_boxed_and_get_mut(0, voxel(1));
        assert_eq!(cid, 1);
        if let ComponentKind::LitVoxel(v) = c {
            v.emissive = true;
        }
    }
    assert!(e.get_component_by_id_as::<LitVoxelComponent>(1).unwrap().emissive);
    let (cid, _) = e.add_under_active_root_boxed_and_get_mut(instance());
    assert_eq!(cid, 2);
    assert_eq!(e.children_of(0), &[1, 2]);
}

#[test]
fn typed_lookups_find_components_by_kind() {
    let mut e = Entity::new(9).with_component(ComponentKind::Rider(RiderComponent::new()));
    assert!(e.has_component::<RiderComponent>());
    assert!(!e.has_component::<ZoneComponent>());
    assert!(e.get_component::<RiderComponent>().unwrap().enabled);
    let (id, _) = e.get_component_with_id::<RiderComponent>().unwrap();
    assert_eq!(id, 1);
    let (p, _) = e.get_parent_as::<InstanceComponent>(1).unwrap();
    assert_eq!(p, 0);
    assert!(e.get_parent_as::<RiderComponent>(1).is_none());
    e.get_component_by_id_as_mut::<RiderComponent>(1).unwrap().enabled = false;
    assert!(!e.get_component::<RiderComponent>().unwrap().enabled);
    let (p, inst) = e.get_parent_as_mut::<InstanceComponent>(1).unwrap();
    assert_eq!(p, 0);
    assert!(inst.handle.is_none());
    assert!(matches!(e.get_component_by_id_mut(1), Some(ComponentKind::Rider(_))));
    assert!(e.get_component_by_id_mut(5).is_none());
}

#[test]
fn remove_component_deletes_the_subtree() {
    let mut e = Entity::new(2);
    let a = e.add_child(0, instance());
    let a1 = e.add_child(a, instance());
    let b = e.add_child(0, instance());
    assert!(e.remove_component(a));
    assert!(e.get_component_by_id(a).is_none());
    assert!(e.get_component_by_id(a1).is_none());
    assert_eq!(e.children_of(0), &[b]);
    assert!(!e.remove_component(a));
    let r = e.add_root(instance());
    assert!(e.remove_component(r));
    assert_eq!(e.roots(), &[0]);
}

#[test]
fn init_all_visits_roots_then_children_depth_first() {
    let mut e = Entity::new(4);
    let a = e.add_child(0, instance());
    let a1 = e.add_child(a, instance());
    let b = e.add_child(0, instance());
    let r2 = e.add_root(ComponentKind::Zone(ZoneComponent::new(ZoneShape::Sphere { radius_bits: 0 })));
    let r2c = e.add_child(r2, instance());
    assert_eq!(e.init_all(), vec![0, a, a1, b, r2, r2c]);
}

#[test]
fn every_node_is_listed_once_for_mutation() {
    let mut e = Entity::new(7);
    let a = e.add_root(instance());
    let b = e.add_child(a, voxel(2));
    let mut ids = e.iter_components_mut();
    ids.sort();
    assert_eq!(ids, vec![0, a, b]);
    for id in ids {
        assert!(e.get_component_by_id_mut(id).is_some());
    }
}
