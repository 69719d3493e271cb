//! Pointer gestures: which pointer grabs which owner, which press starts a
//! drag, how an active drag continues, and when a release is a click.
//!
//! The step is the decision half of a frame. The application measures what
//! needs floating point (ray hits sorted front to back, whether a release
//! stayed within the click thresholds, whether a drag-start plane can be
//! built) and what the attachment system did with a press, hands those in a
//! `GestureFrame`, and carries out the returned `GestureAction`s (computing
//! drag points and moves, emitting events).
use vstd::prelude::*;
use std::collections::{HashMap, HashSet};
use crate::ecs::world::{ComponentId, id_of, lemma_id_of};

verus! {

broadcast use vstd::std_specs::hash::group_hash_axioms;

/// How an active drag keeps producing moves.
#[derive(Debug, Copy, Clone, PartialEq, Eq, Structural)]
pub enum DragUpdatePolicy {
    /// Only emit drag moves while the pointer still intersects the original target.
    RequireTargetContact,
    /// After the drag starts, project the current pointer ray onto a plane
    /// captured at drag start.
    StartPlaneProjection,
}

#[derive(Debug, Copy, Clone, PartialEq, Eq, Structural)]
pub enum GesturePointerClass {
    Desktop,
    Spatial,
}

/// A target's authored choice of whether a drag needs continued contact.
#[derive(Debug, Copy, Clone, PartialEq, Eq, Structural)]
pub enum DragContinuationPolicy {
    Auto,
    RequireTargetContact,
    Captured,
}

/// A target's authored choice of how pointer motion maps to a drag point.
#[derive(Debug, Copy, Clone, PartialEq, Eq, Structural)]
pub enum DragMappingPolicy {
    Auto,
    ContactHit,
    StartRayPlane,
}

/// Whether an active drag still needs to intersect its original target.
#[derive(Debug, Copy, Clone, PartialEq, Eq, Structural)]
pub enum DragContinuation {
    RequireTargetContact,
    Captured,
}

/// How an active drag turns pointer motion into a drag point.
#[derive(Debug, Copy, Clone, PartialEq, Eq, Structural)]
pub enum DragMapping {
    /// The current hit on the target.
    ContactHit,
    /// The current ray against the plane captured at drag start.
    StartRayPlane,
    /// The controller's own translation since the last frame.
    ControllerTranslation,
}

/// One ray hit of this frame, in interaction order (priority first, then
/// front to back).
#[derive(Debug, Copy, Clone)]
pub struct GestureHit {
    pub raycaster: ComponentId,
    pub renderable: ComponentId,
    pub captures_drag: bool,
    pub captures_click: bool,
    /// The grabbable owner of the hit renderable, if any.
    pub grabbable_owner: Option<ComponentId>,
    /// Whether the hit renderable has a draggable owner.
    pub draggable: bool,
    pub continuation: DragContinuationPolicy,
    pub mapping: DragMappingPolicy,
    /// Whether the hit's ray direction gives a usable drag-start plane.
    pub start_plane_usable: bool,
}

/// What the application knows of one pointer this frame. A pointer the
/// frame does not list has no pointer component.
#[derive(Debug, Copy, Clone)]
pub struct PointerFrame {
    pub pointer: ComponentId,
    /// The pointer's raycaster, if it has one.
    pub raycaster: Option<ComponentId>,
    /// A screen pointer: driven by neither a controller, an XR camera anchor
    /// nor an XR input driver.
    pub desktop: bool,
    /// Driven by a controller.
    pub controller: bool,
    /// The controller's world position is known.
    pub controller_origin_known: bool,
    /// The attachment system consumed this pointer's grab press (a dismount,
    /// or a mount from one of its hits).
    pub attachment_consumed: bool,
    /// A release now would stay within the pointer's click thresholds.
    pub click_within_threshold: bool,
}

/// The inputs of one gesture step.
pub struct GestureFrame {
    pub pointers: Vec<PointerFrame>,
    pub hits: Vec<GestureHit>,
    pub grip_pressed: Vec<ComponentId>,
    pub grip_released: Vec<ComponentId>,
    pub pressed: Vec<ComponentId>,
    pub released: Vec<ComponentId>,
    pub down: Vec<ComponentId>,
}

/// A pointer's hold on a grabbable owner.
#[derive(Debug, Copy, Clone)]
pub struct GripGesture {
    pub renderable: ComponentId,
    pub owner: ComponentId,
    /// Started by the mouse button rather than a grip.
    pub desktop: bool,
}

/// An active drag.
#[derive(Debug, Copy, Clone)]
pub struct DragState {
    pub pointer: ComponentId,
    pub raycaster: ComponentId,
    pub renderable: ComponentId,
    /// First click-capable hit at the press; a click goes here.
    pub click_renderable: Option<ComponentId>,
    pub class: GesturePointerClass,
    pub continuation: DragContinuation,
    pub mapping: DragMapping,
}

/// What the application carries out for a step.
#[derive(Debug, Copy, Clone)]
pub enum GestureAction {
    GrabStart { pointer: ComponentId, raycaster: ComponentId, renderable: ComponentId, owner: ComponentId },
    GrabEnd { pointer: ComponentId, renderable: ComponentId, owner: ComponentId },
    DragStart { pointer: ComponentId, raycaster: ComponentId, renderable: ComponentId, mapping: DragMapping },
    /// Compute this frame's drag point by `mapping` and emit a move if it changed.
    DragContinue { pointer: ComponentId, raycaster: ComponentId, renderable: ComponentId, mapping: DragMapping },
    /// The drag ended because its pointer or raycaster is gone; no event.
    DragCancel { pointer: ComponentId },
    DragEnd { pointer: ComponentId, raycaster: ComponentId, renderable: ComponentId },
    Click { pointer: ComponentId, raycaster: ComponentId, renderable: ComponentId },
}

/// The gesture state: grips by pointer, grabbed owners, active drags.
pub type GestureModel = (Map<u64, GripGesture>, Set<u64>, Seq<DragState>);

/// The grab phase: grips, grabbed owners, mouse presses consumed, actions.
pub type GrabPhase = (Map<u64, GripGesture>, Set<u64>, Set<u64>, Seq<GestureAction>);

pub open spec fn pointer_is(p: ComponentId) -> spec_fn(PointerFrame) -> bool {
    |i: PointerFrame| i.pointer == p
}

/// What the frame says of pointer `p`: its first entry.
pub open spec fn pointer_info(f: GestureFrame, p: ComponentId) -> Option<PointerFrame> {
    let s = f.pointers@.filter(pointer_is(p));
    if s.len() > 0 { Some(s[0]) } else { None }
}

pub open spec fn grab_hit(rc: ComponentId, owners: Set<u64>) -> spec_fn(GestureHit) -> bool {
    |h: GestureHit| h.raycaster == rc && h.captures_drag && h.grabbable_owner is Some
        && !owners.contains(h.grabbable_owner->Some_0@)
}

pub open spec fn drag_hit(rc: ComponentId, controller: bool) -> spec_fn(GestureHit) -> bool {
    |h: GestureHit| h.raycaster == rc && h.captures_drag && (!controller || h.draggable || h.grabbable_owner is None)
}

pub open spec fn click_hit(rc: ComponentId) -> spec_fn(GestureHit) -> bool {
    |h: GestureHit| h.raycaster == rc && h.captures_click
}

pub open spec fn contact_hit(rc: ComponentId, r: ComponentId) -> spec_fn(GestureHit) -> bool {
    |h: GestureHit| h.raycaster == rc && h.renderable == r
}

/// One grab press (`mouse`: the left button of a screen pointer, else a
/// grip): a pointer that already holds something is ignored; one whose
/// press the attachment system consumed grabs nothing; otherwise the first
/// drag-capturing hit of its raycaster with a grabbable owner that nobody
/// holds is grabbed. A mouse press that is consumed or grabs starts no drag.
pub open spec fn grab_press(f: GestureFrame, st: GrabPhase, p: ComponentId, mouse: bool) -> GrabPhase {
    let (grips, owners, consumed, acts) = st;
    if grips.contains_key(p@) {
        st
    } else {
        match pointer_info(f, p) {
            None => st,
            Some(i) => if mouse && !i.desktop {
                st
            } else if i.attachment_consumed {
                (grips, owners, if mouse { consumed.insert(p@) } else { consumed }, acts)
            } else {
                match i.raycaster {
                    None => st,
                    Some(rc) => {
                        let hs = f.hits@.filter(grab_hit(rc, owners));
                        if hs.len() == 0 {
                            st
                        } else {
                            let h = hs[0];
                            let o = h.grabbable_owner->Some_0;
                            (
                                grips.insert(p@, GripGesture { renderable: h.renderable, owner: o, desktop: mouse }),
                                owners.insert(o@),
                                if mouse { consumed.insert(p@) } else { consumed },
                                acts.push(GestureAction::GrabStart { pointer: p, raycaster: rc, renderable: h.renderable, owner: o }),
                            )
                        }
                    },
                }
            },
        }
    }
}

pub open spec fn grab_presses(f: GestureFrame, st: GrabPhase, ps: Seq<ComponentId>, mouse: bool) -> GrabPhase
    decreases ps.len(),
{
    if ps.len() == 0 {
        st
    } else {
        grab_press(f, grab_presses(f, st, ps.drop_last(), mouse), ps.last(), mouse)
    }
}

/// One grab release: a grip release ends any hold of the pointer, a mouse
/// release only a hold the mouse started.
pub open spec fn grab_release(st: GrabPhase, p: ComponentId, mouse: bool) -> GrabPhase {
    let (grips, owners, consumed, acts) = st;
    if grips.contains_key(p@) && (!mouse || grips[p@].desktop) {
        let g = grips[p@];
        (
            grips.remove(p@),
            owners.remove(g.owner@),
            consumed,
            acts.push(GestureAction::GrabEnd { pointer: p, renderable: g.renderable, owner: g.owner }),
        )
    } else {
        st
    }
}

pub open spec fn grab_releases(st: GrabPhase, ps: Seq<ComponentId>, mouse: bool) -> GrabPhase
    decreases ps.len(),
{
    if ps.len() == 0 {
        st
    } else {
        grab_release(grab_releases(st, ps.drop_last(), mouse), ps.last(), mouse)
    }
}

pub open spec fn is_dragging(drags: Seq<DragState>, p: ComponentId) -> bool {
    exists|i: int| 0 <= i < drags.len() && #[trigger] drags[i].pointer == p
}

/// The continuation a drag starts with.
pub open spec fn continuation_for(policy: DragContinuationPolicy, controller_draggable: bool, auto_plane: bool) -> DragContinuation {
    match policy {
        DragContinuationPolicy::Auto => if controller_draggable || auto_plane {
            DragContinuation::Captured
        } else {
            DragContinuation::RequireTargetContact
        },
        DragContinuationPolicy::RequireTargetContact => DragContinuation::RequireTargetContact,
        DragContinuationPolicy::Captured => DragContinuation::Captured,
    }
}

/// The mapping a drag starts with.
pub open spec fn mapping_for(
    policy: DragMappingPolicy,
    controller_draggable: bool,
    auto_plane: bool,
    origin_known: bool,
    plane_usable: bool,
) -> DragMapping {
    match policy {
        DragMappingPolicy::Auto => if controller_draggable {
            if origin_known { DragMapping::ControllerTranslation } else { DragMapping::ContactHit }
        } else if auto_plane {
            if plane_usable { DragMapping::StartRayPlane } else { DragMapping::ContactHit }
        } else {
            DragMapping::ContactHit
        },
        DragMappingPolicy::StartRayPlane => if plane_usable { DragMapping::StartRayPlane } else { DragMapping::ContactHit },
        DragMappingPolicy::ContactHit => DragMapping::ContactHit,
    }
}

/// One trigger press: unless its mouse press was consumed by a grab or the
/// attachment system, or the pointer already drags, the first drag-capturing
/// hit of its raycaster (for a controller, one that is draggable or not
/// grabbable) starts a drag, remembering the first click-capable hit.
pub open spec fn drag_press(
    f: GestureFrame,
    policy: DragUpdatePolicy,
    consumed: Set<u64>,
    st: (Seq<DragState>, Seq<GestureAction>),
    p: ComponentId,
) -> (Seq<DragState>, Seq<GestureAction>) {
    let (drags, acts) = st;
    if consumed.contains(p@) || is_dragging(drags, p) {
        st
    } else {
        match pointer_info(f, p) {
            None => st,
            Some(i) => match i.raycaster {
                None => st,
                Some(rc) => {
                    let ds = f.hits@.filter(drag_hit(rc, i.controller));
                    if ds.len() == 0 {
                        st
                    } else {
                        let h = ds[0];
                        let cs = f.hits@.filter(click_hit(rc));
                        let click = if cs.len() > 0 { Some(cs[0].renderable) } else { None };
                        let cd = i.controller && h.draggable;
                        let auto_plane = i.desktop && policy == DragUpdatePolicy::StartPlaneProjection;
                        let mapping = mapping_for(h.mapping, cd, auto_plane, i.controller_origin_known, h.start_plane_usable);
                        let d = DragState {
                            pointer: p,
                            raycaster: rc,
                            renderable: h.renderable,
                            click_renderable: click,
                            class: if i.desktop { GesturePointerClass::Desktop } else { GesturePointerClass::Spatial },
                            continuation: continuation_for(h.continuation, cd, auto_plane),
                            mapping,
                        };
                        (drags.push(d), acts.push(GestureAction::DragStart { pointer: p, raycaster: rc, renderable: h.renderable, mapping }))
                    }
                },
            },
        }
    }
}

pub open spec fn drag_presses(
    f: GestureFrame,
    policy: DragUpdatePolicy,
    consumed: Set<u64>,
    st: (Seq<DragState>, Seq<GestureAction>),
    ps: Seq<ComponentId>,
) -> (Seq<DragState>, Seq<GestureAction>)
    decreases ps.len(),
{
    if ps.len() == 0 {
        st
    } else {
        drag_press(f, policy, consumed, drag_presses(f, policy, consumed, st, ps.drop_last()), ps.last())
    }
}

/// Whether releasing drag `d` clicks: its press had a click target, the
/// first click-capable hit of its raycaster now is that target, and the
/// release stayed within the pointer's thresholds.
pub open spec fn release_clicks(f: GestureFrame, i: PointerFrame, d: DragState) -> bool {
    let rs = f.hits@.filter(click_hit(d.raycaster));
    &&& d.click_renderable is Some
    &&& rs.len() > 0
    &&& rs[0].renderable == d.click_renderable->Some_0
    &&& i.click_within_threshold
}

/// One active drag: cancelled if its pointer or raycaster is gone;
/// continued while down, if it is captured or still touches its target;
/// ended on release, with a click when `release_clicks`.
pub open spec fn drag_tick(
    f: GestureFrame,
    st: (Seq<DragState>, Seq<GestureAction>),
    d: DragState,
) -> (Seq<DragState>, Seq<GestureAction>) {
    let (kept, acts) = st;
    match pointer_info(f, d.pointer) {
        Some(i) if i.raycaster is Some => {
            let moved = f.down@.contains(d.pointer) && (d.continuation == DragContinuation::Captured
                || f.hits@.filter(contact_hit(d.raycaster, d.renderable)).len() > 0);
            let a1 = if moved {
                acts.push(GestureAction::DragContinue { pointer: d.pointer, raycaster: d.raycaster, renderable: d.renderable, mapping: d.mapping })
            } else {
                acts
            };
            if f.released@.contains(d.pointer) {
                let a2 = a1.push(GestureAction::DragEnd { pointer: d.pointer, raycaster: d.raycaster, renderable: d.renderable });
                (kept, if release_clicks(f, i, d) {
                    a2.push(GestureAction::Click { pointer: d.pointer, raycaster: d.raycaster, renderable: d.click_renderable->Some_0 })
                } else {
                    a2
                })
            } else {
                (kept.push(d), a1)
            }
        },
        _ => (kept, acts.push(GestureAction::DragCancel { pointer: d.pointer })),
    }
}

pub open spec fn drag_ticks(
    f: GestureFrame,
    st: (Seq<DragState>, Seq<GestureAction>),
    ds: Seq<DragState>,
) -> (Seq<DragState>, Seq<GestureAction>)
    decreases ds.len(),
{
    if ds.len() == 0 {
        st
    } else {
        drag_tick(f, drag_ticks(f, st, ds.drop_last()), ds.last())
    }
}

/// The grab phase of a step: grip presses, then mouse presses, then grip
/// releases, then mouse releases.
pub open spec fn grab_phase(m: GestureModel, f: GestureFrame) -> (GrabPhase, GrabPhase) {
    let g0: GrabPhase = (m.0, m.1, Set::empty(), Seq::empty());
    let g2 = grab_presses(f, grab_presses(f, g0, f.grip_pressed@, false), f.pressed@, true);
    (g2, grab_releases(grab_releases(g2, f.grip_released@, false), f.released@, true))
}

/// The mouse presses a grab or the attachment system consumed this step.
pub open spec fn grab_consumed(m: GestureModel, f: GestureFrame) -> Set<u64> {
    grab_phase(m, f).0.2
}

/// One gesture step: the grab phase, then trigger presses start drags, then
/// every active drag (in start order) is continued, ended or cancelled.
pub open spec fn gesture_step_spec(m: GestureModel, policy: DragUpdatePolicy, f: GestureFrame) -> (GestureModel, Seq<GestureAction>) {
    let (g2, g4) = grab_phase(m, f);
    let d1 = drag_presses(f, policy, g2.2, (m.2, g4.3), f.pressed@);
    let c = drag_ticks(f, (Seq::empty(), d1.1), d1.0);
    ((g4.0, g4.1, c.0), c.1)
}

/// Per-pointer gesture state.
pub struct GestureSystem {
    grips: HashMap<u64, GripGesture>,
    grabbed_owners: HashSet<u64>,
    /// Active drags, in start order, one per pointer.
    drags: Vec<DragState>,
    pub drag_update_policy: DragUpdatePolicy,
}

impl GestureSystem {
    pub closed spec fn model(&self) -> GestureModel {
        (self.grips@, self.grabbed_owners@, self.drags@)
    }

    pub closed spec fn policy(&self) -> DragUpdatePolicy {
        self.drag_update_policy
    }

    /// Every held owner is marked grabbed, and no owner is held twice.
    pub closed spec fn wf(&self) -> bool {
        grips_ok(self.grips@, self.grabbed_owners@)
    }

    pub fn new() -> (s: Self)
        ensures
            s.wf(),
            s.model().0 == Map::<u64, GripGesture>::empty(),
            s.model().1 == Set::<u64>::empty(),
            s.model().2 == Seq::<DragState>::empty(),
            s.policy() == DragUpdatePolicy::RequireTargetContact,
    {
        GestureSystem {
            grips: HashMap::new(),
            grabbed_owners: HashSet::new(),
            drags: Vec::new(),
            drag_update_policy: DragUpdatePolicy::RequireTargetContact,
        }
    }

    /// Whether `pointer` holds a grabbable owner.
    pub fn is_gripping(&self, pointer: ComponentId) -> (r: bool)
        ensures
            r == self.model().0.contains_key(pointer@),
    {
        self.grips.contains_key(&pointer.to_bits())
    }
}

/// Which hits a search wants.
#[derive(Copy, Clone)]
enum HitQuery {
    Grab(ComponentId),
    Drag(ComponentId, bool),
    Click(ComponentId),
    Contact(ComponentId, ComponentId),
}

spec fn query_pred(q: HitQuery, owners: Set<u64>) -> spec_fn(GestureHit) -> bool {
    match q {
        HitQuery::Grab(rc) => grab_hit(rc, owners),
        HitQuery::Drag(rc, controller) => drag_hit(rc, controller),
        HitQuery::Click(rc) => click_hit(rc),
        HitQuery::Contact(rc, r) => contact_hit(rc, r),
    }
}

fn hit_matches(h: &GestureHit, q: HitQuery, owners: &HashSet<u64>) -> (r: bool)
    ensures
        r == query_pred(q, owners@)(*h),
{
    match q {
        HitQuery::Grab(rc) => h.raycaster == rc && h.captures_drag && match h.grabbable_owner {
            Some(o) => !owners.contains(&o.to_bits()),
            None => false,
        },
        HitQuery::Drag(rc, controller) => h.raycaster == rc && h.captures_drag
            && (!controller || h.draggable || h.grabbable_owner.is_none()),
        HitQuery::Click(rc) => h.raycaster == rc && h.captures_click,
        HitQuery::Contact(rc, r) => h.raycaster == rc && h.renderable == r,
    }
}

/// The hits `q` wants, in order.
fn hits_where(hits: &Vec<GestureHit>, q: HitQuery, owners: &HashSet<u64>) -> (r: Vec<GestureHit>)
    ensures
        r@ == hits@.filter(query_pred(q, owners@)),
{
    let mut out: Vec<GestureHit> = Vec::new();
    let n = hits.len();
    let mut i: usize = 0;
    while i < n
        invariant
            n == hits@.len(),
            i <= n,
            out@ == hits@.take(i as int).filter(query_pred(q, owners@)),
        decreases n - i,
    {
        let h = hits[i];
        proof {
            assert(hits@.take(i + 1) =~= hits@.take(i as int).push(h));
            hits@.take(i as int).lemma_filter_push(h, query_pred(q, owners@));
        }
        if hit_matches(&h, q, owners) {
            out.push(h);
        }
        i = i + 1;
    }
    proof {
        assert(hits@.take(n as int) =~= hits@);
    }
    out
}

/// What the frame says of `p` (see `pointer_info`).
fn find_pointer(frame: &GestureFrame, p: ComponentId) -> (r: Option<PointerFrame>)
    ensures
        r == pointer_info(*frame, p),
{
    let mut out: Vec<PointerFrame> = Vec::new();
    let n = frame.pointers.len();
    let mut i: usize = 0;
    while i < n
        invariant
            n == frame.pointers@.len(),
            i <= n,
            out@ == frame.pointers@.take(i as int).filter(pointer_is(p)),
        decreases n - i,
    {
        let x = frame.pointers[i];
        proof {
            assert(frame.pointers@.take(i + 1) =~= frame.pointers@.take(i as int).push(x));
            frame.pointers@.take(i as int).lemma_filter_push(x, pointer_is(p));
        }
        if x.pointer == p {
            out.push(x);
        }
        i = i + 1;
    }
    proof {
        assert(frame.pointers@.take(n as int) =~= frame.pointers@);
    }
    if out.len() > 0 {
        Some(out[0])
    } else {
        None
    }
}

fn contains_id(v: &Vec<ComponentId>, x: ComponentId) -> (r: bool)
    ensures
        r == v@.contains(x),
{
    let n = v.len();
    let mut i: usize = 0;
    while i < n
        invariant
            n == v@.len(),
            i <= n,
            forall|j: int| 0 <= j < i ==> v@[j] != x,
        decreases n - i,
    {
        if v[i] == x {
            return true;
        }
        i = i + 1;
    }
    false
}

fn drags_contain(drags: &Vec<DragState>, p: ComponentId) -> (r: bool)
    ensures
        r == is_dragging(drags@, p),
{
    let n = drags.len();
    let mut i: usize = 0;
    while i < n
        invariant
            n == drags@.len(),
            i <= n,
            forall|j: int| 0 <= j < i ==> drags@[j].pointer != p,
        decreases n - i,
    {
        if drags[i].pointer == p {
            return true;
        }
        i = i + 1;
    }
    false
}

fn continuation_of(policy: DragContinuationPolicy, controller_draggable: bool, auto_plane: bool) -> (r: DragContinuation)
    ensures
        r == continuation_for(policy, controller_draggable, auto_plane),
{
    match policy {
        DragContinuationPolicy::Auto => if controller_draggable || auto_plane {
            DragContinuation::Captured
        } else {
            DragContinuation::RequireTargetContact
        },
        DragContinuationPolicy::RequireTargetContact => DragContinuation::RequireTargetContact,
        DragContinuationPolicy::Captured => DragContinuation::Captured,
    }
}

fn mapping_of(
    policy: DragMappingPolicy,
    controller_draggable: bool,
    auto_plane: bool,
    origin_known: bool,
    plane_usable: bool,
) -> (r: DragMapping)
    ensures
        r == mapping_for(policy, controller_draggable, auto_plane, origin_known, plane_usable),
{
    match policy {
        DragMappingPolicy::Auto => if controller_draggable {
            if origin_known { DragMapping::ControllerTranslation } else { DragMapping::ContactHit }
        } else if auto_plane {
            if plane_usable { DragMapping::StartRayPlane } else { DragMapping::ContactHit }
        } else {
            DragMapping::ContactHit
        },
        DragMappingPolicy::StartRayPlane => if plane_usable { DragMapping::StartRayPlane } else { DragMapping::ContactHit },
        DragMappingPolicy::ContactHit => DragMapping::ContactHit,
    }
}

impl GestureSystem {
    fn grab_press_step(
        &mut self,
        frame: &GestureFrame,
        consumed: &mut HashSet<u64>,
        acts: &mut Vec<GestureAction>,
        p: ComponentId,
        mouse: bool,
    )
        requires
            old(self).wf(),
        ensures
            final(self).wf(),
            (final(self).grips@, final(self).grabbed_owners@, final(consumed)@, final(acts)@) == grab_press(
                *frame,
                (old(self).grips@, old(self).grabbed_owners@, old(consumed)@, old(acts)@),
                p,
                mouse,
            ),
            final(self).drags == old(self).drags,
            final(self).drag_update_policy == old(self).drag_update_policy,
    {
        if self.grips.contains_key(&p.to_bits()) {
            return;
        }
        let info = match find_pointer(frame, p) {
            None => {
                return;
            },
            Some(i) => i,
        };
        if mouse && !info.desktop {
            return;
        }
        if info.attachment_consumed {
            if mouse {
                consumed.insert(p.to_bits());
            }
            return;
        }
        let rc = match info.raycaster {
            None => {
                return;
            },
            Some(rc) => rc,
        };
        let hs = hits_where(&frame.hits, HitQuery::Grab(rc), &self.grabbed_owners);
        if hs.len() == 0 {
            return;
        }
        let h = hs[0];
        let o = match h.grabbable_owner {
            Some(o) => o,
            None => vstd::pervasive::unreached(),
        };
        let ghost g0 = self.grips@;
        let ghost o0 = self.grabbed_owners@;
        proof {
            assert(query_pred(HitQuery::Grab(rc), o0)(h));
        }
        self.grabbed_owners.insert(o.to_bits());
        self.grips.insert(p.to_bits(), GripGesture { renderable: h.renderable, owner: o, desktop: mouse });
        if mouse {
            consumed.insert(p.to_bits());
        }
        acts.push(GestureAction::GrabStart { pointer: p, raycaster: rc, renderable: h.renderable, owner: o });
        proof {
            assert forall|a: u64, b: u64| #[trigger] self.grips@.contains_key(a) && #[trigger] self.grips@.contains_key(b) && a != b
                implies self.grips@[a].owner@ != self.grips@[b].owner@ by {
                if a == p@ {
                    assert(o0.contains(g0[b].owner@));
                } else if b == p@ {
                    assert(o0.contains(g0[a].owner@));
                }
            }
        }
    }

    fn grab_release_step(&mut self, acts: &mut Vec<GestureAction>, p: ComponentId, mouse: bool, Ghost(consumed): Ghost<Set<u64>>)
        requires
            old(self).wf(),
        ensures
            final(self).wf(),
            (final(self).grips@, final(self).grabbed_owners@, consumed, final(acts)@) == grab_release(
                (old(self).grips@, old(self).grabbed_owners@, consumed, old(acts)@),
                p,
                mouse,
            ),
            final(self).drags == old(self).drags,
            final(self).drag_update_policy == old(self).drag_update_policy,
    {
        let g = match self.grips.get(&p.to_bits()) {
            None => {
                return;
            },
            Some(g) => *g,
        };
        if mouse && !g.desktop {
            return;
        }
        let ghost g0 = self.grips@;
        self.grips.remove(&p.to_bits());
        self.grabbed_owners.remove(&g.owner.to_bits());
        acts.push(GestureAction::GrabEnd { pointer: p, renderable: g.renderable, owner: g.owner });
        proof {
            assert forall|q: u64| #[trigger] self.grips@.contains_key(q) implies self.grabbed_owners@.contains(self.grips@[q].owner@) by {
                assert(g0.contains_key(q) && g0.contains_key(p@) && q != p@);
            }
        }
    }

    fn drag_press_step(
        &mut self,
        frame: &GestureFrame,
        consumed: &HashSet<u64>,
        acts: &mut Vec<GestureAction>,
        p: ComponentId,
    )
        ensures
            (final(self).drags@, final(acts)@) == drag_press(
                *frame,
                old(self).drag_update_policy,
                consumed@,
                (old(self).drags@, old(acts)@),
                p,
            ),
            final(self).grips == old(self).grips,
            final(self).grabbed_owners == old(self).grabbed_owners,
            final(self).drag_update_policy == old(self).drag_update_policy,
    {
        if consumed.contains(&p.to_bits()) || drags_contain(&self.drags, p) {
            return;
        }
        let info = match find_pointer(frame, p) {
            None => {
                return;
            },
            Some(i) => i,
        };
        let rc = match info.raycaster {
            None => {
                return;
            },
            Some(rc) => rc,
        };
        let ds = hits_where(&frame.hits, HitQuery::Drag(rc, info.controller), &self.grabbed_owners);
        if ds.len() == 0 {
            return;
        }
        let h = ds[0];
        let cs = hits_where(&frame.hits, HitQuery::Click(rc), &self.grabbed_owners);
        let click = if cs.len() > 0 { Some(cs[0].renderable) } else { None };
        let cd = info.controller && h.draggable;
        let auto_plane = info.desktop && self.drag_update_policy == DragUpdatePolicy::StartPlaneProjection;
        let mapping = mapping_of(h.mapping, cd, auto_plane, info.controller_origin_known, h.start_plane_usable);
        let d = DragState {
            pointer: p,
            raycaster: rc,
            renderable: h.renderable,
            click_renderable: click,
            class: if info.desktop { GesturePointerClass::Desktop } else { GesturePointerClass::Spatial },
            continuation: continuation_of(h.continuation, cd, auto_plane),
            mapping,
        };
        self.drags.push(d);
        acts.push(GestureAction::DragStart { pointer: p, raycaster: rc, renderable: h.renderable, mapping });
    }

    fn drag_tick_step(
        &self,
        frame: &GestureFrame,
        kept: &mut Vec<DragState>,
        acts: &mut Vec<GestureAction>,
        d: DragState,
    )
        ensures
            (final(kept)@, final(acts)@) == drag_tick(*frame, (old(kept)@, old(acts)@), d),
    {
        let info = match find_pointer(frame, d.pointer) {
            None => {
                acts.push(GestureAction::DragCancel { pointer: d.pointer });
                return;
            },
            Some(i) => i,
        };
        if info.raycaster.is_none() {
            acts.push(GestureAction::DragCancel { pointer: d.pointer });
            return;
        }
        if contains_id(&frame.down, d.pointer) {
            let contact = match d.continuation {
                DragContinuation::Captured => true,
                DragContinuation::RequireTargetContact => {
                    hits_where(&frame.hits, HitQuery::Contact(d.raycaster, d.renderable), &self.grabbed_owners).len() > 0
                },
            };
            if contact {
                acts.push(GestureAction::DragContinue { pointer: d.pointer, raycaster: d.raycaster, renderable: d.renderable, mapping: d.mapping });
            }
        }
        if contains_id(&frame.released, d.pointer) {
            acts.push(GestureAction::DragEnd { pointer: d.pointer, raycaster: d.raycaster, renderable: d.renderable });
            let rs = hits_where(&frame.hits, HitQuery::Click(d.raycaster), &self.grabbed_owners);
            match d.click_renderable {
                Some(c) => {
                    if rs.len() > 0 && rs[0].renderable == c && info.click_within_threshold {
                        acts.push(GestureAction::Click { pointer: d.pointer, raycaster: d.raycaster, renderable: c });
                    }
                },
                None => {},
            }
        } else {
            kept.push(d);
        }
    }

    /// One gesture step (see `gesture_step_spec`): returns what the
    /// application is to carry out, in order.
    pub fn gesture_step(&mut self, frame: &GestureFrame) -> (actions: Vec<GestureAction>)
        requires
            old(self).wf(),
        ensures
            final(self).wf(),
            (final(self).model(), actions@) == gesture_step_spec(old(self).model(), old(self).policy(), *frame),
            final(self).policy() == old(self).policy(),
    {
        let ghost m0 = self.model();
        let ghost g0: GrabPhase = (m0.0, m0.1, Set::empty(), Seq::empty());
        let mut consumed: HashSet<u64> = HashSet::new();
        let mut acts: Vec<GestureAction> = Vec::new();
        proof {
            assert(consumed@ =~= Set::<u64>::empty());
        }
        // Grip presses.
        let n = frame.grip_pressed.len();
        let mut i: usize = 0;
        while i < n
            invariant
                n == frame.grip_pressed@.len(),
                i <= n,
                self.wf(),
                self.drags@ == m0.2,
                self.drag_update_policy == old(self).drag_update_policy,
                (self.grips@, self.grabbed_owners@, consumed@, acts@) == grab_presses(*frame, g0, frame.grip_pressed@.take(i as int), false),
            decreases n - i,
        {
            proof {
                assert(frame.grip_pressed@.take(i + 1).drop_last() =~= frame.grip_pressed@.take(i as int));
            }
            self.grab_press_step(frame, &mut consumed, &mut acts, frame.grip_pressed[i], false);
            i = i + 1;
        }
        proof {
            assert(frame.grip_pressed@.take(n as int) =~= frame.grip_pressed@);
        }
        let ghost g1: GrabPhase = (self.grips@, self.grabbed_owners@, consumed@, acts@);
        // Mouse presses.
        let n = frame.pressed.len();
        let mut i: usize = 0;
        while i < n
            invariant
                n == frame.pressed@.len(),
                i <= n,
                self.wf(),
                self.drags@ == m0.2,
                self.drag_update_policy == old(self).drag_update_policy,
                (self.grips@, self.grabbed_owners@, consumed@, acts@) == grab_presses(*frame, g1, frame.pressed@.take(i as int), true),
            decreases n - i,
        {
            proof {
                assert(frame.pressed@.take(i + 1).drop_last() =~= frame.pressed@.take(i as int));
            }
            self.grab_press_step(frame, &mut consumed, &mut acts, frame.pressed[i], true);
            i = i + 1;
        }
        proof {
            assert(frame.pressed@.take(n as int) =~= frame.pressed@);
        }
        let ghost g2: GrabPhase = (self.grips@, self.grabbed_owners@, consumed@, acts@);
        // Grip releases.
        let n = frame.grip_released.len();
        let mut i: usize = 0;
        while i < n
            invariant
                n == frame.grip_released@.len(),
                i <= n,
                self.wf(),
                self.drags@ == m0.2,
                self.drag_update_policy == old(self).drag_update_policy,
                consumed@ == g2.2,
                (self.grips@, self.grabbed_owners@, consumed@, acts@) == grab_releases(g2, frame.grip_released@.take(i as int), false),
            decreases n - i,
        {
            proof {
                assert(frame.grip_released@.take(i + 1).drop_last() =~= frame.grip_released@.take(i as int));
            }
            self.grab_release_step(&mut acts, frame.grip_released[i], false, Ghost(consumed@));
            i = i + 1;
        }
        proof {
            assert(frame.grip_released@.take(n as int) =~= frame.grip_released@);
        }
        let ghost g3: GrabPhase = (self.grips@, self.grabbed_owners@, consumed@, acts@);
        // Mouse releases.
        let n = frame.released.len();
        let mut i: usize = 0;
        while i < n
            invariant
                n == frame.released@.len(),
                i <= n,
                self.wf(),
                self.drags@ == m0.2,
                self.drag_update_policy == old(self).drag_update_policy,
                consumed@ == g2.2,
                (self.grips@, self.grabbed_owners@, consumed@, acts@) == grab_releases(g3, frame.released@.take(i as int), true),
            decreases n - i,
        {
            proof {
                assert(frame.released@.take(i + 1).drop_last() =~= frame.released@.take(i as int));
            }
            self.grab_release_step(&mut acts, frame.released[i], true, Ghost(consumed@));
            i = i + 1;
        }
        proof {
            assert(frame.released@.take(n as int) =~= frame.released@);
        }
        let ghost g4: GrabPhase = (self.grips@, self.grabbed_owners@, consumed@, acts@);
        // Trigger presses start drags.
        let n = frame.pressed.len();
        let mut i: usize = 0;
        while i < n
            invariant
                n == frame.pressed@.len(),
                i <= n,
                self.wf(),
                self.grips@ == g4.0,
                self.grabbed_owners@ == g4.1,
                self.drag_update_policy == old(self).drag_update_policy,
                consumed@ == g2.2,
                (self.drags@, acts@) == drag_presses(*frame, old(self).drag_update_policy, g2.2, (m0.2, g4.3), frame.pressed@.take(i as int)),
            decreases n - i,
        {
            proof {
                assert(frame.pressed@.take(i + 1).drop_last() =~= frame.pressed@.take(i as int));
            }
            self.drag_press_step(frame, &consumed, &mut acts, frame.pressed[i]);
            i = i + 1;
        }
        proof {
            assert(frame.pressed@.take(n as int) =~= frame.pressed@);
        }
        // Every active drag, in start order.
        let mut active: Vec<DragState> = Vec::new();
        std::mem::swap(&mut active, &mut self.drags);
        let ghost d1 = (active@, acts@);
        let mut kept: Vec<DragState> = Vec::new();
        let ghost a0 = acts@;
        let n = active.len();
        let mut i: usize = 0;
        while i < n
            invariant
                n == active@.len(),
                i <= n,
                d1.0 == active@,
                (kept@, acts@) == drag_ticks(*frame, (Seq::empty(), a0), active@.take(i as int)),
            decreases n - i,
        {
            proof {
                assert(active@.take(i + 1).drop_last() =~= active@.take(i as int));
            }
            self.drag_tick_step(frame, &mut kept, &mut acts, active[i]);
            i = i + 1;
        }
        proof {
            assert(active@.take(n as int) =~= active@);
        }
        self.drags = kept;
        acts
    }
}

/// Every held owner is marked grabbed, and no owner is held by two pointers.
pub open spec fn grips_ok(grips: Map<u64, GripGesture>, owners: Set<u64>) -> bool {
    &&& forall|p: u64| #[trigger] grips.contains_key(p) ==> owners.contains(grips[p].owner@)
    &&& forall|p: u64, q: u64| #[trigger] grips.contains_key(p) && #[trigger] grips.contains_key(q) && p != q
        ==> grips[p].owner@ != grips[q].owner@
}

/// Action `a` starts `p`'s grab of `o` through renderable `r`.
pub open spec fn starts_grab(a: GestureAction, p: ComponentId, r: ComponentId, o: ComponentId) -> bool {
    a matches GestureAction::GrabStart { pointer, renderable, owner, .. } && pointer == p && renderable == r && owner == o
}

/// `p`'s hold of `o` through `r` was there before the step (in `m0`) or was
/// started by one of the first `n` actions.
pub open spec fn grab_known(m0: Map<u64, GripGesture>, acts: Seq<GestureAction>, n: int, p: ComponentId, r: ComponentId, o: ComponentId) -> bool {
    ||| (m0.contains_key(p@) && m0[p@].renderable == r && m0[p@].owner == o)
    ||| exists|j: int| 0 <= j < n && #[trigger] starts_grab(acts[j], p, r, o)
}

/// Every grab end in `acts` ends a hold that was there before the step or
/// that an earlier action started.
pub open spec fn grab_ends_known(m0: Map<u64, GripGesture>, acts: Seq<GestureAction>) -> bool {
    forall|k: int| 0 <= k < acts.len() ==> match #[trigger] acts[k] {
        GestureAction::GrabEnd { pointer, renderable, owner } => grab_known(m0, acts, k, pointer, renderable, owner),
        _ => true,
    }
}

/// No drag in `acts` starts for a pointer in `consumed`.
pub open spec fn drag_starts_unconsumed(consumed: Set<u64>, acts: Seq<GestureAction>) -> bool {
    forall|k: int| 0 <= k < acts.len() ==> match #[trigger] acts[k] {
        GestureAction::DragStart { pointer, .. } => !consumed.contains(pointer@),
        _ => true,
    }
}

/// The grab phase's invariant: every hold is known, every grab end is
/// known, and no drag starts.
pub open spec fn grab_inv(m0: Map<u64, GripGesture>, st: GrabPhase) -> bool {
    &&& forall|u: u64| #[trigger] st.0.contains_key(u)
        ==> grab_known(m0, st.3, st.3.len() as int, id_of(u), st.0[u].renderable, st.0[u].owner)
    &&& grab_ends_known(m0, st.3)
    &&& forall|k: int| 0 <= k < st.3.len() ==> !(#[trigger] st.3[k] is DragStart)
}

proof fn lemma_known_push(m0: Map<u64, GripGesture>, acts: Seq<GestureAction>, a: GestureAction, p: ComponentId, r: ComponentId, o: ComponentId)
    requires
        grab_known(m0, acts, acts.len() as int, p, r, o),
    ensures
        grab_known(m0, acts.push(a), acts.len() + 1int, p, r, o),
{
    if !(m0.contains_key(p@) && m0[p@].renderable == r && m0[p@].owner == o) {
        let j = choose|j: int| 0 <= j < acts.len() && #[trigger] starts_grab(acts[j], p, r, o);
        assert(acts.push(a)[j] == acts[j]);
    }
}

proof fn lemma_ends_push(m0: Map<u64, GripGesture>, acts: Seq<GestureAction>, a: GestureAction)
    requires
        grab_ends_known(m0, acts),
        match a {
            GestureAction::GrabEnd { pointer, renderable, owner } => grab_known(m0, acts, acts.len() as int, pointer, renderable, owner),
            _ => true,
        },
    ensures
        grab_ends_known(m0, acts.push(a)),
{
    let acts2 = acts.push(a);
    assert forall|k: int| 0 <= k < acts2.len() implies match #[trigger] acts2[k] {
        GestureAction::GrabEnd { pointer, renderable, owner } => grab_known(m0, acts2, k, pointer, renderable, owner),
        _ => true,
    } by {
        if k < acts.len() {
            assert(acts2[k] == acts[k]);
            match acts[k] {
                GestureAction::GrabEnd { pointer, renderable, owner } => {
                    if !(m0.contains_key(pointer@) && m0[pointer@].renderable == renderable && m0[pointer@].owner == owner) {
                        let j = choose|j: int| 0 <= j < k && #[trigger] starts_grab(acts[j], pointer, renderable, owner);
                        assert(acts2[j] == acts[j]);
                    }
                },
                _ => {},
            }
        } else {
            match a {
                GestureAction::GrabEnd { pointer, renderable, owner } => {
                    if !(m0.contains_key(pointer@) && m0[pointer@].renderable == renderable && m0[pointer@].owner == owner) {
                        let j = choose|j: int| 0 <= j < acts.len() && #[trigger] starts_grab(acts[j], pointer, renderable, owner);
                        assert(acts2[j] == acts[j]);
                    }
                },
                _ => {},
            }
        }
    }
}

proof fn lemma_grab_press_inv(m0: Map<u64, GripGesture>, f: GestureFrame, st: GrabPhase, p: ComponentId, mouse: bool)
    requires
        grab_inv(m0, st),
    ensures
        grab_inv(m0, grab_press(f, st, p, mouse)),
{
    let st2 = grab_press(f, st, p, mouse);
    if st2.3 != st.3 {
        let a = st2.3.last();
        assert(st2.3 == st.3.push(a));
        lemma_ends_push(m0, st.3, a);
        assert forall|u: u64| #[trigger] st2.0.contains_key(u)
            implies grab_known(m0, st2.3, st2.3.len() as int, id_of(u), st2.0[u].renderable, st2.0[u].owner) by {
            lemma_id_of(p, u);
            if u == p@ {
                assert(starts_grab(st2.3[st.3.len() as int], id_of(u), st2.0[u].renderable, st2.0[u].owner));
            } else {
                lemma_known_push(m0, st.3, a, id_of(u), st.0[u].renderable, st.0[u].owner);
            }
        }
        assert forall|k: int| 0 <= k < st2.3.len() implies !(#[trigger] st2.3[k] is DragStart) by {
            if k < st.3.len() {
                assert(st2.3[k] == st.3[k]);
            }
        }
    }
}

proof fn lemma_grab_release_inv(m0: Map<u64, GripGesture>, st: GrabPhase, p: ComponentId, mouse: bool)
    requires
        grab_inv(m0, st),
    ensures
        grab_inv(m0, grab_release(st, p, mouse)),
{
    let st2 = grab_release(st, p, mouse);
    if st.0.contains_key(p@) && (!mouse || st.0[p@].desktop) {
        let g = st.0[p@];
        let a = GestureAction::GrabEnd { pointer: p, renderable: g.renderable, owner: g.owner };
        lemma_id_of(p, p@);
        assert(grab_known(m0, st.3, st.3.len() as int, p, g.renderable, g.owner));
        lemma_ends_push(m0, st.3, a);
        assert forall|u: u64| #[trigger] st2.0.contains_key(u)
            implies grab_known(m0, st2.3, st2.3.len() as int, id_of(u), st2.0[u].renderable, st2.0[u].owner) by {
            lemma_known_push(m0, st.3, a, id_of(u), st.0[u].renderable, st.0[u].owner);
        }
        assert forall|k: int| 0 <= k < st2.3.len() implies !(#[trigger] st2.3[k] is DragStart) by {
            if k < st.3.len() {
                assert(st2.3[k] == st.3[k]);
            }
        }
    }
}

proof fn lemma_grab_presses_inv(m0: Map<u64, GripGesture>, f: GestureFrame, st: GrabPhase, ps: Seq<ComponentId>, mouse: bool)
    requires
        grab_inv(m0, st),
    ensures
        grab_inv(m0, grab_presses(f, st, ps, mouse)),
    decreases ps.len(),
{
    if ps.len() > 0 {
        lemma_grab_presses_inv(m0, f, st, ps.drop_last(), mouse);
        lemma_grab_press_inv(m0, f, grab_presses(f, st, ps.drop_last(), mouse), ps.last(), mouse);
    }
}

proof fn lemma_grab_releases_inv(m0: Map<u64, GripGesture>, st: GrabPhase, ps: Seq<ComponentId>, mouse: bool)
    requires
        grab_inv(m0, st),
    ensures
        grab_inv(m0, grab_releases(st, ps, mouse)),
    decreases ps.len(),
{
    if ps.len() > 0 {
        lemma_grab_releases_inv(m0, st, ps.drop_last(), mouse);
        lemma_grab_release_inv(m0, grab_releases(st, ps.drop_last(), mouse), ps.last(), mouse);
    }
}

/// What the drag phases keep of the actions: known grab ends and drags
/// started only for unconsumed pointers.
pub open spec fn drag_inv(m0: Map<u64, GripGesture>, consumed: Set<u64>, acts: Seq<GestureAction>) -> bool {
    grab_ends_known(m0, acts) && drag_starts_unconsumed(consumed, acts)
}

proof fn lemma_drag_inv_push(m0: Map<u64, GripGesture>, consumed: Set<u64>, acts: Seq<GestureAction>, a: GestureAction)
    requires
        drag_inv(m0, consumed, acts),
        !(a is GrabEnd),
        a matches GestureAction::DragStart { pointer, .. } ==> !consumed.contains(pointer@),
    ensures
        drag_inv(m0, consumed, acts.push(a)),
{
    lemma_ends_push(m0, acts, a);
    let acts2 = acts.push(a);
    assert forall|k: int| 0 <= k < acts2.len() implies match #[trigger] acts2[k] {
        GestureAction::DragStart { pointer, .. } => !consumed.contains(pointer@),
        _ => true,
    } by {
        if k < acts.len() {
            assert(acts2[k] == acts[k]);
        }
    }
}

proof fn lemma_drag_presses_inv(
    m0: Map<u64, GripGesture>,
    f: GestureFrame,
    policy: DragUpdatePolicy,
    consumed: Set<u64>,
    st: (Seq<DragState>, Seq<GestureAction>),
    ps: Seq<ComponentId>,
)
    requires
        drag_inv(m0, consumed, st.1),
    ensures
        drag_inv(m0, consumed, drag_presses(f, policy, consumed, st, ps).1),
    decreases ps.len(),
{
    if ps.len() > 0 {
        lemma_drag_presses_inv(m0, f, policy, consumed, st, ps.drop_last());
        let mid = drag_presses(f, policy, consumed, st, ps.drop_last());
        let out = drag_press(f, policy, consumed, mid, ps.last());
        if out.1 != mid.1 {
            lemma_drag_inv_push(m0, consumed, mid.1, out.1.last());
            assert(out.1 == mid.1.push(out.1.last()));
        }
    }
}

proof fn lemma_drag_ticks_inv(
    m0: Map<u64, GripGesture>,
    consumed: Set<u64>,
    f: GestureFrame,
    st: (Seq<DragState>, Seq<GestureAction>),
    ds: Seq<DragState>,
)
    requires
        drag_inv(m0, consumed, st.1),
    ensures
        drag_inv(m0, consumed, drag_ticks(f, st, ds).1),
    decreases ds.len(),
{
    if ds.len() > 0 {
        lemma_drag_ticks_inv(m0, consumed, f, st, ds.drop_last());
        let mid = drag_ticks(f, st, ds.drop_last());
        let d = ds.last();
        let out = drag_tick(f, mid, d);
        match pointer_info(f, d.pointer) {
            Some(i) if i.raycaster is Some => {
                let moved = f.down@.contains(d.pointer) && (d.continuation == DragContinuation::Captured
                    || f.hits@.filter(contact_hit(d.raycaster, d.renderable)).len() > 0);
                let a1 = if moved {
                    mid.1.push(GestureAction::DragContinue { pointer: d.pointer, raycaster: d.raycaster, renderable: d.renderable, mapping: d.mapping })
                } else {
                    mid.1
                };
                if moved {
                    lemma_drag_inv_push(m0, consumed, mid.1, a1.last());
                    assert(a1 == mid.1.push(a1.last()));
                }
                if f.released@.contains(d.pointer) {
                    let e = GestureAction::DragEnd { pointer: d.pointer, raycaster: d.raycaster, renderable: d.renderable };
                    lemma_drag_inv_push(m0, consumed, a1, e);
                    if release_clicks(f, i, d) {
                        lemma_drag_inv_push(m0, consumed, a1.push(e), GestureAction::Click { pointer: d.pointer, raycaster: d.raycaster, renderable: d.click_renderable->Some_0 });
                    }
                }
            },
            _ => {
                lemma_drag_inv_push(m0, consumed, mid.1, GestureAction::DragCancel { pointer: d.pointer });
            },
        }
    }
}

/// No owner is held by two pointers, and every held owner is marked grabbed.
pub proof fn law_owner_held_once(s: GestureSystem)
    requires
        s.wf(),
    ensures
        forall|p: u64, q: u64| #[trigger] s.model().0.contains_key(p) && #[trigger] s.model().0.contains_key(q) && p != q
            ==> s.model().0[p].owner != s.model().0[q].owner,
        forall|p: u64| #[trigger] s.model().0.contains_key(p) ==> s.model().1.contains(s.model().0[p].owner@),
{
}

/// In one step, a mouse press that a grab or the attachment system consumed
/// (`grab_consumed`) starts no drag, and every grab end ends a hold that was
/// there before the step or that an earlier action of the step started.
pub proof fn law_gesture_step_actions(m: GestureModel, policy: DragUpdatePolicy, f: GestureFrame)
    ensures
        drag_starts_unconsumed(grab_consumed(m, f), gesture_step_spec(m, policy, f).1),
        grab_ends_known(m.0, gesture_step_spec(m, policy, f).1),
{
    let g0: GrabPhase = (m.0, m.1, Set::empty(), Seq::empty());
    assert forall|u: u64| #[trigger] g0.0.contains_key(u)
        implies grab_known(m.0, g0.3, g0.3.len() as int, id_of(u), g0.0[u].renderable, g0.0[u].owner) by {
        lemma_id_of(id_of(u), u);
    }
    let g1 = grab_presses(f, g0, f.grip_pressed@, false);
    lemma_grab_presses_inv(m.0, f, g0, f.grip_pressed@, false);
    let g2 = grab_presses(f, g1, f.pressed@, true);
    lemma_grab_presses_inv(m.0, f, g1, f.pressed@, true);
    let g3 = grab_releases(g2, f.grip_released@, false);
    lemma_grab_releases_inv(m.0, g2, f.grip_released@, false);
    let g4 = grab_releases(g3, f.released@, true);
    lemma_grab_releases_inv(m.0, g3, f.released@, true);
    assert(drag_inv(m.0, g2.2, g4.3));
    let d1 = drag_presses(f, policy, g2.2, (m.2, g4.3), f.pressed@);
    lemma_drag_presses_inv(m.0, f, policy, g2.2, (m.2, g4.3), f.pressed@);
    lemma_drag_ticks_inv(m.0, g2.2, f, (Seq::empty(), d1.1), d1.0);
}

/// No action in `acts` is a click for pointer `p`.
pub open spec fn no_click_for(acts: Seq<GestureAction>, p: ComponentId) -> bool {
    forall|k: int| 0 <= k < acts.len() ==> match #[trigger] acts[k] {
        GestureAction::Click { pointer, .. } => pointer != p,
        _ => true,
    }
}

proof fn lemma_no_click_push(acts: Seq<GestureAction>, p: ComponentId, a: GestureAction)
    requires
        no_click_for(acts, p),
        a matches GestureAction::Click { pointer, .. } ==> pointer != p,
    ensures
        no_click_for(acts.push(a), p),
{
    let acts2 = acts.push(a);
    assert forall|k: int| 0 <= k < acts2.len() implies match #[trigger] acts2[k] {
        GestureAction::Click { pointer, .. } => pointer != p,
        _ => true,
    } by {
        if k < acts.len() {
            assert(acts2[k] == acts[k]);
        }
    }
}

/// What the frame says of a pointer is one of its own entries.
proof fn lemma_pointer_info_entry(f: GestureFrame, p: ComponentId)
    ensures
        pointer_info(f, p) matches Some(i) ==> i.pointer == p && f.pointers@.contains(i),
{
    let s = f.pointers@.filter(pointer_is(p));
    if s.len() > 0 {
        f.pointers@.lemma_filter_pred(pointer_is(p), 0);
        assert(s.contains(s[0]));
        f.pointers@.lemma_filter_contains_rev(pointer_is(p), s[0]);
    }
}

proof fn lemma_grab_presses_no_click(f: GestureFrame, st: GrabPhase, ps: Seq<ComponentId>, mouse: bool, p: ComponentId)
    requires
        no_click_for(st.3, p),
    ensures
        no_click_for(grab_presses(f, st, ps, mouse).3, p),
    decreases ps.len(),
{
    if ps.len() > 0 {
        lemma_grab_presses_no_click(f, st, ps.drop_last(), mouse, p);
        let mid = grab_presses(f, st, ps.drop_last(), mouse);
        let out = grab_press(f, mid, ps.last(), mouse);
        if out.3 != mid.3 {
            assert(out.3 == mid.3.push(out.3.last()));
            lemma_no_click_push(mid.3, p, out.3.last());
        }
    }
}

proof fn lemma_grab_releases_no_click(st: GrabPhase, ps: Seq<ComponentId>, mouse: bool, p: ComponentId)
    requires
        no_click_for(st.3, p),
    ensures
        no_click_for(grab_releases(st, ps, mouse).3, p),
    decreases ps.len(),
{
    if ps.len() > 0 {
        lemma_grab_releases_no_click(st, ps.drop_last(), mouse, p);
        let mid = grab_releases(st, ps.drop_last(), mouse);
        let out = grab_release(mid, ps.last(), mouse);
        if out.3 != mid.3 {
            assert(out.3 == mid.3.push(out.3.last()));
            lemma_no_click_push(mid.3, p, out.3.last());
        }
    }
}

proof fn lemma_drag_presses_no_click(
    f: GestureFrame,
    policy: DragUpdatePolicy,
    consumed: Set<u64>,
    st: (Seq<DragState>, Seq<GestureAction>),
    ps: Seq<ComponentId>,
    p: ComponentId,
)
    requires
        no_click_for(st.1, p),
    ensures
        no_click_for(drag_presses(f, policy, consumed, st, ps).1, p),
    decreases ps.len(),
{
    if ps.len() > 0 {
        lemma_drag_presses_no_click(f, policy, consumed, st, ps.drop_last(), p);
        let mid = drag_presses(f, policy, consumed, st, ps.drop_last());
        let out = drag_press(f, policy, consumed, mid, ps.last());
        if out.1 != mid.1 {
            assert(out.1 == mid.1.push(out.1.last()));
            lemma_no_click_push(mid.1, p, out.1.last());
        }
    }
}

proof fn lemma_drag_ticks_no_click(
    f: GestureFrame,
    st: (Seq<DragState>, Seq<GestureAction>),
    ds: Seq<DragState>,
    p: ComponentId,
)
    requires
        no_click_for(st.1, p),
        forall|j: int| 0 <= j < f.pointers@.len() && f.pointers@[j].pointer == p
            ==> !(#[trigger] f.pointers@[j]).click_within_threshold,
    ensures
        no_click_for(drag_ticks(f, st, ds).1, p),
    decreases ds.len(),
{
    if ds.len() > 0 {
        lemma_drag_ticks_no_click(f, st, ds.drop_last(), p);
        let mid = drag_ticks(f, st, ds.drop_last());
        let d = ds.last();
        lemma_pointer_info_entry(f, d.pointer);
        match pointer_info(f, d.pointer) {
            Some(i) if i.raycaster is Some => {
                let moved = f.down@.contains(d.pointer) && (d.continuation == DragContinuation::Captured
                    || f.hits@.filter(contact_hit(d.raycaster, d.renderable)).len() > 0);
                let a1 = if moved {
                    mid.1.push(GestureAction::DragContinue { pointer: d.pointer, raycaster: d.raycaster, renderable: d.renderable, mapping: d.mapping })
                } else {
                    mid.1
                };
                if moved {
                    lemma_no_click_push(mid.1, p, a1.last());
                    assert(a1 == mid.1.push(a1.last()));
                }
                if f.released@.contains(d.pointer) {
                    let e = GestureAction::DragEnd { pointer: d.pointer, raycaster: d.raycaster, renderable: d.renderable };
                    lemma_no_click_push(a1, p, e);
                    if release_clicks(f, i, d) {
                        if d.pointer == p {
                            let j = choose|j: int| 0 <= j < f.pointers@.len() && f.pointers@[j] == i;
                            assert(!f.pointers@[j].click_within_threshold);
                        }
                        lemma_no_click_push(a1.push(e), p, GestureAction::Click { pointer: d.pointer, raycaster: d.raycaster, renderable: d.click_renderable->Some_0 });
                    }
                }
            },
            _ => {
                lemma_no_click_push(mid.1, p, GestureAction::DragCancel { pointer: d.pointer });
            },
        }
    }
}

/// A release that left the click thresholds is no click: when every entry
/// of the frame for pointer `p` says the pointer moved beyond its click
/// thresholds, the step emits no click for `p`.
pub proof fn law_no_click_beyond_threshold(m: GestureModel, policy: DragUpdatePolicy, f: GestureFrame, p: ComponentId)
    requires
        forall|j: int| 0 <= j < f.pointers@.len() && f.pointers@[j].pointer == p
            ==> !(#[trigger] f.pointers@[j]).click_within_threshold,
    ensures
        forall|k: int| 0 <= k < gesture_step_spec(m, policy, f).1.len()
            ==> !(#[trigger] gesture_step_spec(m, policy, f).1[k] matches GestureAction::Click { pointer, .. } && pointer == p),
{
    let g0: GrabPhase = (m.0, m.1, Set::empty(), Seq::empty());
    let g1 = grab_presses(f, g0, f.grip_pressed@, false);
    lemma_grab_presses_no_click(f, g0, f.grip_pressed@, false, p);
    let g2 = grab_presses(f, g1, f.pressed@, true);
    lemma_grab_presses_no_click(f, g1, f.pressed@, true, p);
    let g3 = grab_releases(g2, f.grip_released@, false);
    lemma_grab_releases_no_click(g2, f.grip_released@, false, p);
    let g4 = grab_releases(g3, f.released@, true);
    lemma_grab_releases_no_click(g3, f.released@, true, p);
    let d1 = drag_presses(f, policy, g2.2, (m.2, g4.3), f.pressed@);
    lemma_drag_presses_no_click(f, policy, g2.2, (m.2, g4.3), f.pressed@, p);
    lemma_drag_ticks_no_click(f, (Seq::empty(), d1.1), d1.0, p);
    let acts = gesture_step_spec(m, policy, f).1;
    assert forall|k: int| 0 <= k < acts.len()
        implies !(#[trigger] acts[k] matches GestureAction::Click { pointer, .. } && pointer == p) by {
        assert(no_click_for(acts, p));
        match acts[k] {
            GestureAction::Click { pointer, .. } => {},
            _ => {},
        }
    }
}

} // verus!
