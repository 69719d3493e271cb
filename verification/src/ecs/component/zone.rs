use vstd::prelude::*;
use super::component_ref::ComponentRef;
use crate::text::str_eq;

verus! {

/// Collision shape of a zone. Dimensions are carried as the bit patterns of
/// their `f32` values; the library never does arithmetic on them.
#[derive(Debug, Clone, Copy, PartialEq, Eq, Structural)]
pub enum ZoneShape {
    Cube { half_x_bits: u32, half_y_bits: u32, half_z_bits: u32 },
    Sphere { radius_bits: u32 },
    CapsuleY { radius_bits: u32, half_segment_bits: u32 },
}

/// An invisible spatial region shared by interaction, collision and solver
/// consumers; a bare zone has no physical response.
#[derive(Debug, Clone)]
pub struct ZoneComponent {
    pub shape: ZoneShape,
    pub frame_source: Option<ComponentRef>,
    pub roles: Vec<String>,
    pub enabled: bool,
}

/// The role names of a zone, as character sequences.
pub open spec fn role_names(roles: Seq<String>) -> Seq<Seq<char>> {
    roles.map_values(|r: String| r@)
}

impl ZoneComponent {
    pub fn new(shape: ZoneShape) -> (c: Self)
        ensures
            c.shape == shape,
            c.frame_source is None,
            c.roles@.len() == 0,
            c.enabled,
    {
        ZoneComponent { shape, frame_source: None, roles: Vec::new(), enabled: true }
    }

    /// Place this zone at the referenced component's nearest ancestor transform.
    pub fn at(self, source: ComponentRef) -> (c: Self)
        ensures
            c.frame_source == Some(source),
            c.shape == self.shape,
            c.roles@ == self.roles@,
            c.enabled == self.enabled,
    {
        let mut s = self;
        s.frame_source = Some(source);
        s
    }

    /// Add a role; empty names and names already present are ignored.
    pub fn role(self, role: String) -> (c: Self)
        ensures
            role_names(c.roles@) == (if role@.len() > 0 && !role_names(self.roles@).contains(role@) {
                role_names(self.roles@).push(role@)
            } else {
                role_names(self.roles@)
            }),
            c.shape == self.shape,
            c.frame_source == self.frame_source,
            c.enabled == self.enabled,
    {
        let mut s = self;
        let present = zone_has_role(&s, role.as_str());
        if !role.as_str().is_empty() && !present {
            s.roles.push(role);
            assert(role_names(s.roles@) =~= role_names(self.roles@).push(role@));
        }
        s
    }

    pub fn enabled(self, enabled: bool) -> (c: Self)
        ensures
            c.enabled == enabled,
            c.shape == self.shape,
            c.frame_source == self.frame_source,
            c.roles@ == self.roles@,
    {
        let mut s = self;
        s.enabled = enabled;
        s
    }
}

/// Whether the zone carries the given role.
pub fn zone_has_role(zone: &ZoneComponent, role: &str) -> (r: bool)
    ensures
        r == role_names(zone.roles@).contains(role@),
{
    let n = zone.roles.len();
    let mut i: usize = 0;
    while i < n
        invariant
            n == zone.roles@.len(),
            i <= n,
            forall|j: int| 0 <= j < i ==> zone.roles@[j]@ != role@,
        decreases n - i,
    {
        if str_eq(zone.roles[i].as_str(), role) {
            assert(role_names(zone.roles@)[i as int] == role@);
            return true;
        }
        i = i + 1;
    }
    assert(!role_names(zone.roles@).contains(role@)) by {
        if role_names(zone.roles@).contains(role@) {
            let k = choose|k: int| 0 <= k < role_names(zone.roles@).len() && role_names(zone.roles@)[k] == role@;
            assert(zone.roles@[k]@ == role@);
        }
    }
    false
}

} // verus!
