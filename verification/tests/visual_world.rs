use cat_engine::graphics::primitives::{InstanceHandle, MaterialHandle, MeshHandle, Renderable, TextureHandle};
use cat_engine::graphics::visual_world::{Instance, VisualWorld};

fn r(material: u32, mesh: u32) -> Renderable {
    Renderable::new(MeshHandle(mesh), MaterialHandle(material))
}

#[test]
fn new_world_is_clean_and_empty() {
    let mut v: VisualWorld<u8> = VisualWorld::new();
    assert!(v.instances().is_empty());
    assert!(!v.instance_data_dirty());
    assert!(!v.prepare_draw_cache());
    assert!(v.draw_order().is_empty());
    assert!(v.draw_batches().is_empty());
}

#[test]
fn register_hands_out_sequential_handles_and_marks_dirty() {
    let mut v: VisualWorld<u8> = VisualWorld::default();
    let h0 = v.register(1, 10, r(0, 0), Instance { transform: 5, texture: None });
    let h1 = v.register(1, 11, r(0, 1), Instance::from(6));
    assert_eq!(h0, InstanceHandle(0));
    assert_eq!(h1, InstanceHandle(1));
    assert_eq!(v.instances().len(), 2);
    assert_eq!(v.instances()[1].1.transform, 6);
    assert!(v.take_instance_data_dirty());
    assert!(!v.take_instance_data_dirty());
}

#[test]
fn draw_cache_sorts_by_material_then_mesh_and_batches_runs() {
    let mut v: VisualWorld<u8> = VisualWorld::new();
    v.register(1, 0, r(2, 0), Instance { transform: 0, texture: None });
    v.register(1, 1, r(1, 5), Instance { transform: 1, texture: None });
    v.register(1, 2, r(1, 3), Instance { transform: 2, texture: None });
    v.register(1, 3, r(1, 5), Instance { transform: 3, texture: None });
    v.register(1, 4, r(2, 0), Instance { transform: 4, texture: None });
    assert!(v.prepare_draw_cache());
    assert_eq!(v.draw_order(), &[2, 1, 3, 0, 4]);
    let batches = v.draw_batches();
    assert_eq!(batches.len(), 3);
    assert_eq!((batches[0].material, batches[0].mesh, batches[0].start, batches[0].count), (MaterialHandle(1), MeshHandle(3), 0, 1));
    assert_eq!((batches[1].material, batches[1].mesh, batches[1].start, batches[1].count), (MaterialHandle(1), MeshHandle(5), 1, 2));
    assert_eq!((batches[2].material, batches[2].mesh, batches[2].start, batches[2].count), (MaterialHandle(2), MeshHandle(0), 3, 2));
    assert!(!v.prepare_draw_cache());
}

#[test]
fn transform_updates_keep_the_draw_cache_and_renderable_updates_dirty_it() {
    let mut v: VisualWorld<u8> = VisualWorld::new();
    let h = v.register(1, 0, r(0, 0), Instance { transform: 0, texture: None });
    assert!(v.prepare_draw_cache());
    v.take_instance_data_dirty();
    assert!(v.update_transform(h, 42));
    assert_eq!(v.instances()[0].1.transform, 42);
    assert!(v.instance_data_dirty());
    assert!(!v.prepare_draw_cache());
    assert!(v.update(h, r(3, 3), Instance { transform: 7, texture: None }));
    assert!(v.prepare_draw_cache());
    assert!(!v.update_transform(InstanceHandle(9), 1));
    assert!(!v.update(InstanceHandle(9), r(0, 0), Instance { transform: 1, texture: None }));
}

#[test]
fn remove_moves_the_last_instance_into_the_gap() {
    let mut v: VisualWorld<u8> = VisualWorld::new();
    let a = v.register(1, 0, r(0, 0), Instance { transform: 10, texture: None });
    let _b = v.register(1, 1, r(0, 0), Instance { transform: 11, texture: None });
    let c = v.register(1, 2, r(0, 0), Instance { transform: 12, texture: None });
    assert!(v.remove(a));
    assert_eq!(v.instances().len(), 2);
    assert_eq!(v.instances()[0].1.transform, 12);
    assert!(v.update_transform(c, 99));
    assert_eq!(v.instances()[0].1.transform, 99);
    assert!(!v.remove(a));
    assert!(v.remove(c));
    assert_eq!(v.instances().len(), 1);
    assert_eq!(v.instances()[0].1.transform, 11);
}

#[test]
fn clear_forgets_everything() {
    let mut v: VisualWorld<u8> = VisualWorld::new();
    let h = v.register(1, 0, r(0, 0), Instance { transform: 0, texture: None });
    v.prepare_draw_cache();
    v.clear();
    assert!(v.instances().is_empty());
    assert!(v.draw_order().is_empty());
    assert!(!v.remove(h));
    assert_eq!(v.register(1, 0, r(0, 0), Instance { transform: 0, texture: None }), InstanceHandle(0));
}

#[test]
fn draw_calls_are_grouped_by_material_mesh_and_texture() {
    let mut v: VisualWorld<u8> = VisualWorld::new();
    let a = v.register(1, 0, r(1, 1), Instance { transform: 0, texture: None });
    let b = v.register(1, 1, r(1, 1), Instance::from(1));
    let c = v.register(1, 2, r(1, 1), Instance { transform: 2, texture: Some(TextureHandle(4)) });
    let _ = v.prepare_draw_cache();
    assert!(v.update_texture(a, Some(TextureHandle(4))));
    assert!(!v.update_texture(InstanceHandle(9), None));
    assert!(v.prepare_draw_cache());
    // Untextured b first, then the two instances with texture 4 in storage order.
    assert_eq!(v.draw_order(), &[1, 0, 2]);
    let batches = v.draw_batches();
    assert_eq!(batches.len(), 2);
    assert_eq!(batches[0].texture, None);
    assert_eq!((batches[0].start, batches[0].count), (0, 1));
    assert_eq!(batches[1].texture, Some(TextureHandle(4)));
    assert_eq!((batches[1].start, batches[1].count), (1, 2));
    let _ = (b, c);
}
