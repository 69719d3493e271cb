use cat_engine::ecs::component::camera::{CameraComponent, CameraHandle};
use cat_engine::ecs::component::component_ref::ComponentRef;
use cat_engine::ecs::component::gizmo::{axis_ctor, TransformGizmoAxis, TransformGizmoPlane};
use cat_engine::ecs::component::texture::TextureComponent;
use cat_engine::ecs::component::{
    Component, ComponentKind, ComponentNode, CursorComponent, InstanceComponent, LitVoxelComponent,
    MountableComponent, RenderableComponent, RiderComponent,
};
use cat_engine::engine::{Networking, RenderingInspector, Signature};
use cat_engine::graphics::primitives::{InstanceHandle, MaterialHandle, MeshHandle, Renderable};
use cat_engine::text::str_eq;

#[test]
fn plane_axes_and_locked_axis() {
    assert_eq!(TransformGizmoPlane::XY.axes(), (TransformGizmoAxis::X, TransformGizmoAxis::Y));
    assert_eq!(TransformGizmoPlane::YZ.axes(), (TransformGizmoAxis::Y, TransformGizmoAxis::Z));
    assert_eq!(TransformGizmoPlane::XZ.axes(), (TransformGizmoAxis::X, TransformGizmoAxis::Z));
    assert_eq!(TransformGizmoPlane::XY.locked_axis(), TransformGizmoAxis::Z);
    assert_eq!(TransformGizmoPlane::YZ.locked_axis(), TransformGizmoAxis::X);
    assert_eq!(TransformGizmoPlane::XZ.locked_axis(), TransformGizmoAxis::Y);
    assert_eq!(axis_ctor(TransformGizmoAxis::X), "x");
    assert_eq!(axis_ctor(TransformGizmoAxis::Y), "y");
    assert_eq!(axis_ctor(TransformGizmoAxis::Z), "z");
}

#[test]
fn builtin_renderables_use_the_toon_material() {
    let cube = RenderableComponent::cube(MeshHandle::cube());
    assert_eq!(cube.renderable, Renderable::new(MeshHandle(0), MaterialHandle(1)));
    assert_eq!(cube.get_handle(), None);
    let tet = RenderableComponent::tetrahedron(MeshHandle::tetrahedron());
    assert_eq!(tet.renderable.mesh, MeshHandle(1));
    assert_eq!(tet.renderable.material, MaterialHandle::toon_mesh());
    assert_eq!(MaterialHandle::unlit_fullscreen(), MaterialHandle(0));
}

#[test]
fn component_kinds_report_their_names() {
    assert_eq!(ComponentKind::Instance(InstanceComponent::new()).name(), "instance");
    assert_eq!(ComponentKind::LitVoxel(LitVoxelComponent::new()).name(), "lit_voxel");
    assert_eq!(ComponentKind::Rider(RiderComponent::new()).name(), "rider");
    let node = ComponentNode::new(ComponentKind::Mountable(MountableComponent::new()));
    assert_eq!(node.name, "mountable");
    assert!(node.parent.is_none());
    assert!(node.children.is_empty());
    let named = ComponentNode::new_named("seat", ComponentKind::Mountable(MountableComponent::new()));
    assert_eq!(named.name, "seat");
}

#[test]
fn builders_set_only_their_field() {
    let v = LitVoxelComponent::new().with_shade_level(3).with_emissive(true);
    assert_eq!(v.shade_level, 3);
    assert!(v.emissive);
    let m = MountableComponent::new()
        .entry_zone(ComponentRef::Query("zone".to_string()))
        .on_grip()
        .enabled(false);
    assert_eq!(m.entry_zone, Some(ComponentRef::Query("zone".to_string())));
    assert!(m.on_grip);
    assert!(!m.enabled);
    assert!(m.mount_anchor.is_none());
    let r = RiderComponent::new().anchor(ComponentRef::Guid(7)).input(ComponentRef::Guid(8));
    assert_eq!(r.anchor, Some(ComponentRef::Guid(7)));
    assert_eq!(r.input, Some(ComponentRef::Guid(8)));
    assert!(r.movement_root.is_none());
    assert!(r.enabled);
    let i = InstanceComponent::new().with_handle(InstanceHandle(4));
    assert_eq!(i.get_handle(), Some(InstanceHandle(4)));
    let t = TextureComponent::from_png("assets/cat-face-neutral.png".to_string());
    assert_eq!(t.uri, "assets/cat-face-neutral.png");
    let c = CursorComponent::new().with_component(ComponentKind::Instance(InstanceComponent::new()));
    assert_eq!(c.children.len(), 1);
    let mut cam = CameraComponent::new();
    assert_eq!(cam.handle(), None);
    cam.set_handle(CameraHandle(2));
    assert_eq!(cam.handle(), Some(CameraHandle(2)));
}

#[test]
fn inspector_prints_on_change_only_unless_verbose() {
    let sig = Signature {
        instances_len: 1,
        draw_order_len: 1,
        draw_batches_len: 1,
        cached_instance_floats: 16,
        instance_buffer_capacity: 64,
    };
    let mut inspector = RenderingInspector::new();
    assert!(inspector.should_print(sig));
    assert!(!inspector.should_print(sig));
    let changed = Signature { draw_batches_len: 2, ..sig };
    assert!(inspector.should_print(changed));
    inspector.verbose_every_frame = true;
    assert!(inspector.should_print(changed));
    assert!(Networking::new().is_ok());
}

#[test]
fn string_equality_is_character_wise() {
    assert!(str_eq("cat", "cat"));
    assert!(!str_eq("cat", "cats"));
    assert!(!str_eq("cat", "cot"));
    assert!(str_eq("", ""));
}
