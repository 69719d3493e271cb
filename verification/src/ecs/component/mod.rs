pub mod anime_shading;
pub mod camera;
pub mod component_ref;
pub mod cursor;
pub mod gizmo;
pub mod instance;
pub mod lit_voxel;
pub mod mountable;
pub mod renderable;
pub mod rider;
pub mod texture;
pub mod transform;
pub mod transform_apply_inverse_local;
pub mod xr_eye_tracking;
pub mod zone;

use vstd::prelude::*;
use crate::ecs::world::ComponentId;
use crate::ecs::command_queue::{Command, CommandQueue};
pub use camera::{Camera2DComponent, Camera3DComponent, CameraComponent, CameraHandle};
pub use component_ref::ComponentRef;
pub use cursor::CursorComponent;
pub use gizmo::{
    TransformGizmoAxis, TransformGizmoPlane, TransformGizmoRotateComponent,
    TransformGizmoScaleComponent, TransformGizmoTranslateComponent,
    TransformGizmoTranslatePlaneComponent,
};
pub use instance::InstanceComponent;
pub use lit_voxel::LitVoxelComponent;
pub use mountable::MountableComponent;
pub use renderable::RenderableComponent;
pub use rider::RiderComponent;
pub use texture::TextureComponent;
pub use transform::TransformComponent;
pub use transform_apply_inverse_local::TransformApplyInverseLocalComponent;
pub use zone::ZoneComponent;

verus! {

/// Component interface: a short kind name, and the hook that tells a
/// component the id it was given when added to a world.
pub trait Component {
    /// Short debug/type name for this component kind (e.g. "renderable").
    fn name(&self) -> &'static str;

    fn set_id(&mut self, component: ComponentId);
}

/// The payload of a world node: one of the library's component kinds.
pub enum ComponentKind {
    Instance(InstanceComponent),
    LitVoxel(LitVoxelComponent),
    Renderable(RenderableComponent),
    Camera(CameraComponent),
    Camera2D(Camera2DComponent),
    Camera3D(Camera3DComponent),
    Cursor(CursorComponent),
    TransformGizmoTranslate(TransformGizmoTranslateComponent),
    TransformGizmoTranslatePlane(TransformGizmoTranslatePlaneComponent),
    TransformGizmoRotate(TransformGizmoRotateComponent),
    TransformGizmoScale(TransformGizmoScaleComponent),
    Mountable(MountableComponent),
    Rider(RiderComponent),
    Texture(TextureComponent),
    Transform(TransformComponent),
    TransformApplyInverseLocal(TransformApplyInverseLocalComponent),
    Zone(ZoneComponent),
}

/// The kind name of a component.
pub open spec fn kind_name(kind: ComponentKind) -> &'static str {
    match kind {
        ComponentKind::Instance(_) => "instance",
        ComponentKind::LitVoxel(_) => "lit_voxel",
        ComponentKind::Renderable(_) => "renderable",
        ComponentKind::Camera(_) => "camera",
        ComponentKind::Camera2D(_) => "camera2d",
        ComponentKind::Camera3D(_) => "camera3d",
        ComponentKind::Cursor(_) => "cursor",
        ComponentKind::TransformGizmoTranslate(_) => "transform_gizmo_translate",
        ComponentKind::TransformGizmoTranslatePlane(_) => "transform_gizmo_translate_plane",
        ComponentKind::TransformGizmoRotate(_) => "transform_gizmo_rotate",
        ComponentKind::TransformGizmoScale(_) => "transform_gizmo_scale",
        ComponentKind::Mountable(_) => "mountable",
        ComponentKind::Rider(_) => "rider",
        ComponentKind::Texture(_) => "texture",
        ComponentKind::Transform(_) => "transform",
        ComponentKind::TransformApplyInverseLocal(_) => "transform_apply_inverse_local",
        ComponentKind::Zone(_) => "zone",
    }
}

/// The component after it has been told its id: lit voxels, renderables and
/// transforms remember it, every other kind ignores it.
pub open spec fn with_id(kind: ComponentKind, id: ComponentId) -> ComponentKind {
    match kind {
        ComponentKind::LitVoxel(c) => ComponentKind::LitVoxel(
            LitVoxelComponent { component: Some(id), ..c },
        ),
        ComponentKind::Renderable(c) => ComponentKind::Renderable(
            RenderableComponent { component: Some(id), ..c },
        ),
        ComponentKind::Transform(_) => ComponentKind::Transform(
            TransformComponent { component: Some(id) },
        ),
        _ => kind,
    }
}

impl Component for ComponentKind {
    fn name(&self) -> (r: &'static str)
        ensures
            r == kind_name(*self),
    {
        match self {
            ComponentKind::Instance(_) => "instance",
            ComponentKind::LitVoxel(_) => "lit_voxel",
            ComponentKind::Renderable(_) => "renderable",
            ComponentKind::Camera(_) => "camera",
            ComponentKind::Camera2D(_) => "camera2d",
            ComponentKind::Camera3D(_) => "camera3d",
            ComponentKind::Cursor(_) => "cursor",
            ComponentKind::TransformGizmoTranslate(_) => "transform_gizmo_translate",
            ComponentKind::TransformGizmoTranslatePlane(_) => "transform_gizmo_translate_plane",
            ComponentKind::TransformGizmoRotate(_) => "transform_gizmo_rotate",
            ComponentKind::TransformGizmoScale(_) => "transform_gizmo_scale",
            ComponentKind::Mountable(_) => "mountable",
            ComponentKind::Rider(_) => "rider",
            ComponentKind::Texture(_) => "texture",
            ComponentKind::Transform(_) => "transform",
            ComponentKind::TransformApplyInverseLocal(_) => "transform_apply_inverse_local",
            ComponentKind::Zone(_) => "zone",
        }
    }

    fn set_id(&mut self, component: ComponentId)
        ensures
            *final(self) == with_id(*old(self), component),
    {
        match self {
            ComponentKind::LitVoxel(c) => c.set_id(component),
            ComponentKind::Renderable(c) => c.set_id(component),
            ComponentKind::Transform(c) => c.set_id(component),
            _ => {},
        }
    }
}

/// The command a component queues when it is added to a world: renderables
/// and cameras register with their systems, other kinds queue nothing.
pub open spec fn init_command<T>(kind: ComponentKind, id: ComponentId) -> Option<Command<T>> {
    match kind {
        ComponentKind::Renderable(_) => Some(Command::RegisterRenderable { component_id: id }),
        ComponentKind::Camera(_) => Some(Command::RegisterCamera { component_id: id }),
        ComponentKind::Camera3D(_) => Some(Command::RegisterCamera { component_id: id }),
        ComponentKind::Camera2D(_) => Some(Command::RegisterCamera2D { component_id: id }),
        _ => None,
    }
}

impl ComponentKind {
    /// Called when the component is added to a world.
    pub fn init<T: Copy>(&mut self, queue: &mut CommandQueue<T>, component: ComponentId)
        ensures
            *final(self) == *old(self),
            final(queue).queued() == (match init_command::<T>(*old(self), component) {
                Some(c) => old(queue).queued().push(c),
                None => old(queue).queued(),
            }),
            final(queue).queued_by() == (match init_command::<T>(*old(self), component) {
                Some(_) => old(queue).queued_by().push(component),
                None => old(queue).queued_by(),
            }),
    {
        match self {
            ComponentKind::Renderable(_) => queue.queue_register_renderable(component),
            ComponentKind::Camera(_) => queue.queue_register_camera(component),
            ComponentKind::Camera3D(_) => queue.queue_register_camera(component),
            ComponentKind::Camera2D(_) => queue.queue_register_camera2d(component),
            _ => {},
        }
    }
}

/// A component type that is one of the kinds a node can hold; gives typed
/// access to a node's payload.
pub trait ComponentVariant: Sized {
    /// The payload as this type, if it is of this kind.
    spec fn variant_of(kind: ComponentKind) -> Option<Self>;

    fn from_kind(kind: &ComponentKind) -> (r: Option<&Self>)
        ensures
            match r {
                Some(c) => Self::variant_of(*kind) == Some(*c),
                None => Self::variant_of(*kind) is None,
            },
    ;

    /// The payload of this kind, mutably; writes through it stay of this kind.
    fn from_kind_mut(kind: &mut ComponentKind) -> (r: Option<&mut Self>)
        ensures
            r is Some <==> Self::variant_of(*old(kind)) is Some,
            r is Some ==> Self::variant_of(*old(kind)) == Some(*r->Some_0)
                && Self::variant_of(*final(kind)) == Some(*final(r->Some_0)),
            r is None ==> *final(kind) == *old(kind),
    ;
}

impl ComponentVariant for TransformComponent {
    open spec fn variant_of(kind: ComponentKind) -> Option<Self> {
        match kind {
            ComponentKind::Transform(c) => Some(c),
            _ => None,
        }
    }

    fn from_kind(kind: &ComponentKind) -> (r: Option<&Self>) {
        match kind {
            ComponentKind::Transform(c) => Some(c),
            _ => None,
        }
    }

    fn from_kind_mut(kind: &mut ComponentKind) -> (r: Option<&mut Self>) {
        match kind {
            ComponentKind::Transform(c) => Some(c),
            _ => None,
        }
    }
}

impl ComponentVariant for InstanceComponent {
    open spec fn variant_of(kind: ComponentKind) -> Option<Self> {
        match kind {
            ComponentKind::Instance(c) => Some(c),
            _ => None,
        }
    }

    fn from_kind(kind: &ComponentKind) -> (r: Option<&Self>) {
        match kind {
            ComponentKind::Instance(c) => Some(c),
            _ => None,
        }
    }

    fn from_kind_mut(kind: &mut ComponentKind) -> (r: Option<&mut Self>) {
        match kind {
            ComponentKind::Instance(c) => Some(c),
            _ => None,
        }
    }
}

impl ComponentVariant for LitVoxelComponent {
    open spec fn variant_of(kind: ComponentKind) -> Option<Self> {
        match kind {
            ComponentKind::LitVoxel(c) => Some(c),
            _ => None,
        }
    }

    fn from_kind(kind: &ComponentKind) -> (r: Option<&Self>) {
        match kind {
            ComponentKind::LitVoxel(c) => Some(c),
            _ => None,
        }
    }

    fn from_kind_mut(kind: &mut ComponentKind) -> (r: Option<&mut Self>) {
        match kind {
            ComponentKind::LitVoxel(c) => Some(c),
            _ => None,
        }
    }
}

impl ComponentVariant for RenderableComponent {
    open spec fn variant_of(kind: ComponentKind) -> Option<Self> {
        match kind {
            ComponentKind::Renderable(c) => Some(c),
            _ => None,
        }
    }

    fn from_kind(kind: &ComponentKind) -> (r: Option<&Self>) {
        match kind {
            ComponentKind::Renderable(c) => Some(c),
            _ => None,
        }
    }

    fn from_kind_mut(kind: &mut ComponentKind) -> (r: Option<&mut Self>) {
        match kind {
            ComponentKind::Renderable(c) => Some(c),
            _ => None,
        }
    }
}

impl ComponentVariant for CameraComponent {
    open spec fn variant_of(kind: ComponentKind) -> Option<Self> {
        match kind {
            ComponentKind::Camera(c) => Some(c),
            _ => None,
        }
    }

    fn from_kind(kind: &ComponentKind) -> (r: Option<&Self>) {
        match kind {
            ComponentKind::Camera(c) => Some(c),
            _ => None,
        }
    }

    fn from_kind_mut(kind: &mut ComponentKind) -> (r: Option<&mut Self>) {
        match kind {
            ComponentKind::Camera(c) => Some(c),
            _ => None,
        }
    }
}

impl ComponentVariant for Camera2DComponent {
    open spec fn variant_of(kind: ComponentKind) -> Option<Self> {
        match kind {
            ComponentKind::Camera2D(c) => Some(c),
            _ => None,
        }
    }

    fn from_kind(kind: &ComponentKind) -> (r: Option<&Self>) {
        match kind {
            ComponentKind::Camera2D(c) => Some(c),
            _ => None,
        }
    }

    fn from_kind_mut(kind: &mut ComponentKind) -> (r: Option<&mut Self>) {
        match kind {
            ComponentKind::Camera2D(c) => Some(c),
            _ => None,
        }
    }
}

impl ComponentVariant for Camera3DComponent {
    open spec fn variant_of(kind: ComponentKind) -> Option<Self> {
        match kind {
            ComponentKind::Camera3D(c) => Some(c),
            _ => None,
        }
    }

    fn from_kind(kind: &ComponentKind) -> (r: Option<&Self>) {
        match kind {
            ComponentKind::Camera3D(c) => Some(c),
            _ => None,
        }
    }

    fn from_kind_mut(kind: &mut ComponentKind) -> (r: Option<&mut Self>) {
        match kind {
            ComponentKind::Camera3D(c) => Some(c),
            _ => None,
        }
    }
}

impl ComponentVariant for CursorComponent {
    open spec fn variant_of(kind: ComponentKind) -> Option<Self> {
        match kind {
            ComponentKind::Cursor(c) => Some(c),
            _ => None,
        }
    }

    fn from_kind(kind: &ComponentKind) -> (r: Option<&Self>) {
        match kind {
            ComponentKind::Cursor(c) => Some(c),
            _ => None,
        }
    }

    fn from_kind_mut(kind: &mut ComponentKind) -> (r: Option<&mut Self>) {
        match kind {
            ComponentKind::Cursor(c) => Some(c),
            _ => None,
        }
    }
}

impl ComponentVariant for TransformGizmoTranslateComponent {
    open spec fn variant_of(kind: ComponentKind) -> Option<Self> {
        match kind {
            ComponentKind::TransformGizmoTranslate(c) => Some(c),
            _ => None,
        }
    }

    fn from_kind(kind: &ComponentKind) -> (r: Option<&Self>) {
        match kind {
            ComponentKind::TransformGizmoTranslate(c) => Some(c),
            _ => None,
        }
    }

    fn from_kind_mut(kind: &mut ComponentKind) -> (r: Option<&mut Self>) {
        match kind {
            ComponentKind::TransformGizmoTranslate(c) => Some(c),
            _ => None,
        }
    }
}

impl ComponentVariant for TransformGizmoTranslatePlaneComponent {
    open spec fn variant_of(kind: ComponentKind) -> Option<Self> {
        match kind {
            ComponentKind::TransformGizmoTranslatePlane(c) => Some(c),
            _ => None,
        }
    }

    fn from_kind(kind: &ComponentKind) -> (r: Option<&Self>) {
        match kind {
            ComponentKind::TransformGizmoTranslatePlane(c) => Some(c),
            _ => None,
        }
    }

    fn from_kind_mut(kind: &mut ComponentKind) -> (r: Option<&mut Self>) {
        match kind {
            ComponentKind::TransformGizmoTranslatePlane(c) => Some(c),
            _ => None,
        }
    }
}

impl ComponentVariant for TransformGizmoRotateComponent {
    open spec fn variant_of(kind: ComponentKind) -> Option<Self> {
        match kind {
            ComponentKind::TransformGizmoRotate(c) => Some(c),
            _ => None,
        }
    }

    fn from_kind(kind: &ComponentKind) -> (r: Option<&Self>) {
        match kind {
            ComponentKind::TransformGizmoRotate(c) => Some(c),
            _ => None,
        }
    }

    fn from_kind_mut(kind: &mut ComponentKind) -> (r: Option<&mut Self>) {
        match kind {
            ComponentKind::TransformGizmoRotate(c) => Some(c),
            _ => None,
        }
    }
}

impl ComponentVariant for TransformGizmoScaleComponent {
    open spec fn variant_of(kind: ComponentKind) -> Option<Self> {
        match kind {
            ComponentKind::TransformGizmoScale(c) => Some(c),
            _ => None,
        }
    }

    fn from_kind(kind: &ComponentKind) -> (r: Option<&Self>) {
        match kind {
            ComponentKind::TransformGizmoScale(c) => Some(c),
            _ => None,
        }
    }

    fn from_kind_mut(kind: &mut ComponentKind) -> (r: Option<&mut Self>) {
        match kind {
            ComponentKind::TransformGizmoScale(c) => Some(c),
            _ => None,
        }
    }
}

impl ComponentVariant for MountableComponent {
    open spec fn variant_of(kind: ComponentKind) -> Option<Self> {
        match kind {
            ComponentKind::Mountable(c) => Some(c),
            _ => None,
        }
    }

    fn from_kind(kind: &ComponentKind) -> (r: Option<&Self>) {
        match kind {
            ComponentKind::Mountable(c) => Some(c),
            _ => None,
        }
    }

    fn from_kind_mut(kind: &mut ComponentKind) -> (r: Option<&mut Self>) {
        match kind {
            ComponentKind::Mountable(c) => Some(c),
            _ => None,
        }
    }
}

impl ComponentVariant for RiderComponent {
    open spec fn variant_of(kind: ComponentKind) -> Option<Self> {
        match kind {
            ComponentKind::Rider(c) => Some(c),
            _ => None,
        }
    }

    fn from_kind(kind: &ComponentKind) -> (r: Option<&Self>) {
        match kind {
            ComponentKind::Rider(c) => Some(c),
            _ => None,
        }
    }

    fn from_kind_mut(kind: &mut ComponentKind) -> (r: Option<&mut Self>) {
        match kind {
            ComponentKind::Rider(c) => Some(c),
            _ => None,
        }
    }
}

impl ComponentVariant for TextureComponent {
    open spec fn variant_of(kind: ComponentKind) -> Option<Self> {
        match kind {
            ComponentKind::Texture(c) => Some(c),
            _ => None,
        }
    }

    fn from_kind(kind: &ComponentKind) -> (r: Option<&Self>) {
        match kind {
            ComponentKind::Texture(c) => Some(c),
            _ => None,
        }
    }

    fn from_kind_mut(kind: &mut ComponentKind) -> (r: Option<&mut Self>) {
        match kind {
            ComponentKind::Texture(c) => Some(c),
            _ => None,
        }
    }
}

impl ComponentVariant for TransformApplyInverseLocalComponent {
    open spec fn variant_of(kind: ComponentKind) -> Option<Self> {
        match kind {
            ComponentKind::TransformApplyInverseLocal(c) => Some(c),
            _ => None,
        }
    }

    fn from_kind(kind: &ComponentKind) -> (r: Option<&Self>) {
        match kind {
            ComponentKind::TransformApplyInverseLocal(c) => Some(c),
            _ => None,
        }
    }

    fn from_kind_mut(kind: &mut ComponentKind) -> (r: Option<&mut Self>) {
        match kind {
            ComponentKind::TransformApplyInverseLocal(c) => Some(c),
            _ => None,
        }
    }
}

impl ComponentVariant for ZoneComponent {
    open spec fn variant_of(kind: ComponentKind) -> Option<Self> {
        match kind {
            ComponentKind::Zone(c) => Some(c),
            _ => None,
        }
    }

    fn from_kind(kind: &ComponentKind) -> (r: Option<&Self>) {
        match kind {
            ComponentKind::Zone(c) => Some(c),
            _ => None,
        }
    }

    fn from_kind_mut(kind: &mut ComponentKind) -> (r: Option<&mut Self>) {
        match kind {
            ComponentKind::Zone(c) => Some(c),
            _ => None,
        }
    }
}

/// World-owned record of a component payload plus its topology.
pub struct ComponentNode {
    pub name: &'static str,
    pub component: ComponentKind,
    pub parent: Option<ComponentId>,
    pub children: Vec<ComponentId>,
}

impl ComponentNode {
    /// A detached node named after its component's kind.
    pub fn new(component: ComponentKind) -> (n: Self)
        ensures
            n.name == kind_name(component),
            n.component == component,
            n.parent is None,
            n.children@.len() == 0,
    {
        let name = component.name();
        ComponentNode { name, component, parent: None, children: Vec::new() }
    }

    /// A detached node with an explicit name.
    pub fn new_named(name: &'static str, component: ComponentKind) -> (n: Self)
        ensures
            n.name == name,
            n.component == component,
            n.parent is None,
            n.children@.len() == 0,
    {
        ComponentNode { name, component, parent: None, children: Vec::new() }
    }
}

} // verus!
