use cat_engine::ecs::component::{ComponentKind, InstanceComponent};
use cat_engine::ecs::system::gesture_system::{
    DragContinuationPolicy, DragMapping, DragMappingPolicy, DragUpdatePolicy, GestureAction, GestureFrame,
    GestureHit, GestureSystem, PointerFrame,
};
use cat_engine::ecs::world::{ComponentId, World};

fn ids(n: usize) -> Vec<ComponentId> {
    let mut world = World::new();
    (0..n)
        .map(|_| world.add_component(ComponentKind::Instance(InstanceComponent::new())))
        .collect()
}

fn pointer(p: ComponentId, rc: ComponentId, desktop: bool) -> PointerFrame {
    PointerFrame {
        pointer: p,
        raycaster: Some(rc),
        desktop,
        controller: !desktop,
        controller_origin_known: true,
        attachment_consumed: false,
        click_within_threshold: true,
    }
}

fn hit(rc: ComponentId, r: ComponentId, owner: Option<ComponentId>) -> GestureHit {
    GestureHit {
        raycaster: rc,
        renderable: r,
        captures_drag: true,
        captures_click: true,
        grabbable_owner: owner,
        draggable: false,
        continuation: DragContinuationPolicy::Auto,
        mapping: DragMappingPolicy::Auto,
        start_plane_usable: true,
    }
}

fn frame(pointers: Vec<PointerFrame>, hits: Vec<GestureHit>) -> GestureFrame {
    GestureFrame {
        pointers,
        hits,
        grip_pressed: vec![],
        grip_released: vec![],
        pressed: vec![],
        released: vec![],
        down: vec![],
    }
}

#[test]
fn an_owner_is_grabbed_by_one_grip_at_a_time() {
    let v = ids(6);
    let (p1, p2, rc1, rc2, r, owner) = (v[0], v[1], v[2], v[3], v[4], v[5]);
    let mut g = GestureSystem::new();
    let mut f = frame(
        vec![pointer(p1, rc1, false), pointer(p2, rc2, false)],
        vec![hit(rc1, r, Some(owner)), hit(rc2, r, Some(owner))],
    );
    f.grip_pressed = vec![p1, p2];
    let acts = g.gesture_step(&f);
    assert_eq!(acts.len(), 1);
    assert!(matches!(acts[0], GestureAction::GrabStart { pointer, owner: o, .. } if pointer == p1 && o == owner));
    assert!(g.is_gripping(p1));
    assert!(!g.is_gripping(p2));
    let mut f2 = frame(vec![pointer(p1, rc1, false), pointer(p2, rc2, false)], vec![]);
    f2.grip_released = vec![p1];
    f2.grip_pressed = vec![];
    let acts = g.gesture_step(&f2);
    assert_eq!(acts.len(), 1);
    assert!(matches!(acts[0], GestureAction::GrabEnd { pointer, owner: o, renderable } if pointer == p1 && o == owner && renderable == r));
    assert!(!g.is_gripping(p1));
}

#[test]
fn a_consumed_mouse_press_starts_no_drag() {
    let v = ids(4);
    let (p, rc, r, owner) = (v[0], v[1], v[2], v[3]);
    // Consumed by the attachment system.
    let mut g = GestureSystem::new();
    let mut info = pointer(p, rc, true);
    info.attachment_consumed = true;
    let mut f = frame(vec![info], vec![hit(rc, r, None)]);
    f.pressed = vec![p];
    assert!(g.gesture_step(&f).is_empty());
    // Consumed by a grab: the grab starts, the drag does not.
    let mut g = GestureSystem::new();
    let mut f = frame(vec![pointer(p, rc, true)], vec![hit(rc, r, Some(owner))]);
    f.pressed = vec![p];
    let acts = g.gesture_step(&f);
    assert_eq!(acts.len(), 1);
    assert!(matches!(acts[0], GestureAction::GrabStart { .. }));
    // A mouse release ends the mouse-started grab.
    let mut f = frame(vec![pointer(p, rc, true)], vec![]);
    f.released = vec![p];
    let acts = g.gesture_step(&f);
    assert!(matches!(acts[0], GestureAction::GrabEnd { .. }));
}

#[test]
fn a_drag_starts_continues_and_ends_with_a_click() {
    let v = ids(3);
    let (p, rc, r) = (v[0], v[1], v[2]);
    let mut g = GestureSystem::new();
    let mut f = frame(vec![pointer(p, rc, true)], vec![hit(rc, r, None)]);
    f.pressed = vec![p];
    f.down = vec![p];
    let acts = g.gesture_step(&f);
    assert_eq!(acts.len(), 2);
    assert!(matches!(acts[0], GestureAction::DragStart { pointer, renderable, mapping: DragMapping::ContactHit, .. } if pointer == p && renderable == r));
    assert!(matches!(acts[1], GestureAction::DragContinue { pointer, .. } if pointer == p));
    // Without contact, a target-contact drag does not move.
    let mut f = frame(vec![pointer(p, rc, true)], vec![]);
    f.down = vec![p];
    assert!(g.gesture_step(&f).is_empty());
    // Released over the press's click target, within thresholds: a click.
    let mut f = frame(vec![pointer(p, rc, true)], vec![hit(rc, r, None)]);
    f.released = vec![p];
    let acts = g.gesture_step(&f);
    assert_eq!(acts.len(), 2);
    assert!(matches!(acts[0], GestureAction::DragEnd { .. }));
    assert!(matches!(acts[1], GestureAction::Click { renderable, .. } if renderable == r));
    // The drag is over.
    let mut f = frame(vec![pointer(p, rc, true)], vec![hit(rc, r, None)]);
    f.released = vec![p];
    assert!(g.gesture_step(&f).is_empty());
}

#[test]
fn start_plane_policy_captures_screen_drags_and_lost_pointers_cancel() {
    let v = ids(4);
    let (p, rc, r, other) = (v[0], v[1], v[2], v[3]);
    let mut g = GestureSystem::new();
    g.drag_update_policy = DragUpdatePolicy::StartPlaneProjection;
    let mut f = frame(vec![pointer(p, rc, true)], vec![hit(rc, r, None)]);
    f.pressed = vec![p];
    let acts = g.gesture_step(&f);
    assert!(matches!(acts[0], GestureAction::DragStart { mapping: DragMapping::StartRayPlane, .. }));
    // Captured: moves continue without contact.
    let mut f = frame(vec![pointer(p, rc, true)], vec![]);
    f.down = vec![p];
    let acts = g.gesture_step(&f);
    assert!(matches!(acts[0], GestureAction::DragContinue { mapping: DragMapping::StartRayPlane, .. }));
    // A release away from the click target ends without a click.
    let mut f = frame(vec![pointer(p, rc, true)], vec![hit(rc, other, None)]);
    f.released = vec![p];
    let acts = g.gesture_step(&f);
    assert_eq!(acts.len(), 1);
    assert!(matches!(acts[0], GestureAction::DragEnd { .. }));
    // A pointer that disappears cancels its drag.
    let mut f = frame(vec![pointer(p, rc, true)], vec![hit(rc, r, None)]);
    f.pressed = vec![p];
    g.gesture_step(&f);
    let acts = g.gesture_step(&frame(vec![], vec![]));
    assert!(matches!(acts[0], GestureAction::DragCancel { pointer } if pointer == p));
}
