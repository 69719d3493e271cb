use vstd::prelude::*;
use slotmap::{DefaultKey, Key, KeyData, SlotMap};
use crate::ecs::component::{Component, ComponentKind, ComponentNode, ComponentVariant, kind_name, with_id};
use crate::ecs::entity::lemma_disjoint_len;

verus! {


/// Global component identity: the 64-bit form of a slot-map key.
#[derive(Clone, Copy, PartialEq, Eq, Structural, Debug, Hash)]
pub struct ComponentId {
    raw: u64,
}

impl ComponentId {
    /// Every id is the 64-bit form of a slot-map key, whose version half is odd.
    #[verifier::type_invariant]
    spec fn inv(&self) -> bool {
        canonical_key(self.raw)
    }

    /// The 64-bit form of the id.
    pub fn to_bits(&self) -> (r: u64)
        ensures
            r == self@,
    {
        self.raw
    }
}

impl View for ComponentId {
    type V = u64;

    closed spec fn view(&self) -> u64 {
        self.raw
    }
}


/// Slot-map storage of the world's nodes: a `slotmap::SlotMap` with default
/// keys, opaque to Verus and described by `slot_nodes`.
#[verifier::external_body]
pub struct ComponentArena {
    map: SlotMap<DefaultKey, ComponentNode>,
}

/// The nodes a slot map holds, keyed by the 64-bit form (`KeyData::as_ffi`)
/// of their keys.
pub uninterp spec fn slot_nodes(arena: ComponentArena) -> Map<u64, ComponentNode>;

/// The 64-bit form of a key of an occupied slot: its version (the high half)
/// is odd.
pub open spec fn canonical_key(raw: u64) -> bool {
    (raw >> 32u64) % 2 == 1
}

/// `SlotMap::new`: claimed to hold no node.
#[verifier::external_body]
fn slot_new() -> (result: ComponentArena)
    ensures
        slot_nodes(result) =~= Map::empty(),
{
    ComponentArena { map: SlotMap::new() }
}

/// `SlotMap::insert`: claimed to store the node under a key that no stored
/// node has, and to return that key, whose version is odd. The map panics
/// once it would need its `u32::MAX`-th slot, which the requirement rules out.
#[verifier::external_body]
fn slot_insert(map: &mut ComponentArena, node: ComponentNode) -> (r: ComponentId)
    requires
        slot_nodes(*old(map)).dom().finite(),
        slot_nodes(*old(map)).len() + 1 < u32::MAX,
    ensures
        canonical_key(r.raw),
        !slot_nodes(*old(map)).contains_key(r.raw),
        slot_nodes(*final(map)) == slot_nodes(*old(map)).insert(r.raw, node),
{
    ComponentId { raw: map.map.insert(node).data().as_ffi() }
}

/// `SlotMap::get`, with the key rebuilt by `KeyData::from_ffi` (the identity
/// on odd versions): claimed to return the node stored under the id, if any.
#[verifier::external_body]
fn slot_get(map: &ComponentArena, id: ComponentId) -> (r: Option<&ComponentNode>)
    requires
        canonical_key(id.raw),
    ensures
        match r {
            Some(n) => slot_nodes(*map).contains_key(id.raw) && *n == slot_nodes(*map)[id.raw],
            None => !slot_nodes(*map).contains_key(id.raw),
        },
{
    map.map.get(KeyData::from_ffi(id.raw).into())
}

/// `SlotMap`'s `IndexMut`: claimed to give the node stored under a live id,
/// with writes through it stored back under the same id. It panics on an id
/// with no node, which the requirement rules out.
#[verifier::external_body]
fn slot_index_mut(map: &mut ComponentArena, id: ComponentId) -> (r: &mut ComponentNode)
    requires
        canonical_key(id.raw),
        slot_nodes(*old(map)).contains_key(id.raw),
    ensures
        *r == slot_nodes(*old(map))[id.raw],
        slot_nodes(*final(map)) == slot_nodes(*old(map)).insert(id.raw, *final(r)),
{
    &mut map.map[KeyData::from_ffi(id.raw).into()]
}

/// The id whose 64-bit form is `k`.
pub closed spec fn id_of(k: u64) -> ComponentId {
    ComponentId { raw: k }
}

pub proof fn lemma_id_of(id: ComponentId, k: u64)
    ensures
        id_of(id@) == id,
        id_of(k)@ == k,
{
}

/// The parent of node `k` in `m`, as a 64-bit id.
pub open spec fn parent_key(m: Map<u64, ComponentNode>, k: u64) -> Option<u64> {
    if m.contains_key(k) {
        match m[k].parent {
            Some(p) => Some(p@),
            None => None,
        }
    } else {
        None
    }
}

/// The node reached from `k` by following `n` parent links.
pub open spec fn nth_parent(m: Map<u64, ComponentNode>, k: u64, n: nat) -> Option<u64>
    decreases n,
{
    if n == 0 {
        Some(k)
    } else {
        match nth_parent(m, k, (n - 1) as nat) {
            Some(j) => parent_key(m, j),
            None => None,
        }
    }
}

/// `a` is a proper ancestor of `d`.
pub open spec fn is_ancestor(m: Map<u64, ComponentNode>, a: u64, d: u64) -> bool {
    exists|n: nat| n >= 1 && #[trigger] nth_parent(m, d, n) == Some(a)
}

/// `d` lies in the subtree rooted at `r` (including `r` itself).
pub open spec fn in_subtree(m: Map<u64, ComponentNode>, r: u64, d: u64) -> bool {
    d == r || is_ancestor(m, r, d)
}

/// Parent and child links agree, children lists are duplicate-free and every
/// referenced node exists.
pub open spec fn links_ok(m: Map<u64, ComponentNode>) -> bool {
    &&& m.dom().finite()
    &&& forall|k: u64| #[trigger] m.contains_key(k) ==> canonical_key(k)
    &&& forall|k: u64|
        #[trigger] m.contains_key(k) && m[k].parent is Some ==> {
            let p = m[k].parent->Some_0@;
            m.contains_key(p) && m[p].children@.contains(id_of(k))
        }
    &&& forall|k: u64, i: int|
        m.contains_key(k) && 0 <= i < m[k].children@.len() ==> {
            let c = #[trigger] m[k].children@[i];
            m.contains_key(c@) && m[c@].parent == Some(id_of(k))
        }
    &&& forall|k: u64| #[trigger] m.contains_key(k) ==> m[k].children@.no_duplicates()
}

/// Every parent ranks strictly below its children, so parent chains end.
pub open spec fn ranked(m: Map<u64, ComponentNode>, rank: spec_fn(u64) -> nat) -> bool {
    forall|k: u64|
        #[trigger] m.contains_key(k) && m[k].parent is Some ==> rank(m[k].parent->Some_0@) < rank(k)
}

pub proof fn lemma_nth_parent_none_persists(m: Map<u64, ComponentNode>, k: u64, n: nat, j: nat)
    requires
        nth_parent(m, k, n) is None,
        n <= j,
    ensures
        nth_parent(m, k, j) is None,
    decreases j - n,
{
    if n < j {
        lemma_nth_parent_none_persists(m, k, n, (j - 1) as nat);
    }
}

/// Walking up from a child is walking up from its parent one step later.
pub proof fn lemma_nth_parent_shift(m: Map<u64, ComponentNode>, k: u64, p: u64, n: nat)
    requires
        parent_key(m, k) == Some(p),
    ensures
        nth_parent(m, k, n + 1) == nth_parent(m, p, n),
    decreases n,
{
    if n > 0 {
        lemma_nth_parent_shift(m, k, p, (n - 1) as nat);
        assert(nth_parent(m, k, n + 1) == match nth_parent(m, k, n) {
            Some(j) => parent_key(m, j),
            None => None,
        });
        assert(nth_parent(m, p, n) == match nth_parent(m, p, (n - 1) as nat) {
            Some(j) => parent_key(m, j),
            None => None,
        });
    } else {
        assert(nth_parent(m, k, 1) == match nth_parent(m, k, 0) {
            Some(j) => parent_key(m, j),
            None => None,
        });
    }
}

/// `SlotMap::remove`: claimed to take out and return the node stored under
/// the id, if any, leaving every other node in place.
#[verifier::external_body]
fn slot_remove(map: &mut ComponentArena, id: ComponentId) -> (r: Option<ComponentNode>)
    requires
        canonical_key(id.raw),
    ensures
        slot_nodes(*final(map)) == slot_nodes(*old(map)).remove(id.raw),
        match r {
            Some(n) => slot_nodes(*old(map)).contains_key(id.raw) && n == slot_nodes(*old(map))[id.raw],
            None => !slot_nodes(*old(map)).contains_key(id.raw),
        },
{
    map.map.remove(KeyData::from_ffi(id.raw).into())
}

/// `SlotMap::keys`: claimed to list the id of every stored node, each once.
#[verifier::external_body]
fn slot_keys(map: &ComponentArena) -> (r: Vec<ComponentId>)
    ensures
        r@.no_duplicates(),
        forall|i: int| 0 <= i < r@.len() ==> slot_nodes(*map).contains_key(#[trigger] r@[i].raw),
        forall|k: u64| #[trigger] slot_nodes(*map).contains_key(k) ==> exists|i: int|
            0 <= i < r@.len() && #[trigger] r@[i].raw == k,
{
    map.map.keys().map(|k| ComponentId { raw: k.data().as_ffi() }).collect()
}

/// The world: a flat store of component nodes, each carrying its own parent
/// and children links.
pub struct World {
    components: ComponentArena,
    rank: Ghost<spec_fn(u64) -> nat>,
}

impl World {
    pub closed spec fn nodes(&self) -> Map<u64, ComponentNode> {
        slot_nodes(self.components)
    }

    pub closed spec fn wf(&self) -> bool {
        &&& links_ok(self.nodes())
        &&& ranked(self.nodes(), self.rank@)
    }

    /// A measure that every parent link strictly lowers.
    pub closed spec fn spec_rank(&self, k: u64) -> nat {
        (self.rank@)(k)
    }

    pub open spec fn contains(&self, id: ComponentId) -> bool {
        self.nodes().contains_key(id@)
    }

    pub open spec fn parent(&self, id: ComponentId) -> Option<ComponentId> {
        self.nodes()[id@].parent
    }

    pub open spec fn children(&self, id: ComponentId) -> Seq<ComponentId> {
        self.nodes()[id@].children@
    }

    pub open spec fn component(&self, id: ComponentId) -> ComponentKind {
        self.nodes()[id@].component
    }

    pub open spec fn name(&self, id: ComponentId) -> &'static str {
        self.nodes()[id@].name
    }

    /// `a` is a proper ancestor of `d`.
    pub open spec fn ancestor(&self, a: ComponentId, d: ComponentId) -> bool {
        is_ancestor(self.nodes(), a@, d@)
    }

    pub fn new() -> (w: Self)
        ensures
            w.wf(),
            w.nodes() == Map::<u64, ComponentNode>::empty(),
    {
        World { components: slot_new(), rank: Ghost(|k: u64| 0nat) }
    }

    /// The record of a component, if it exists.
    pub fn get_component_record(&self, id: ComponentId) -> (r: Option<&ComponentNode>)
        ensures
            match r {
                Some(n) => self.contains(id) && *n == self.nodes()[id@],
                None => !self.contains(id),
            },
    {
        proof {
            use_type_invariant(&id);
        }
        slot_get(&self.components, id)
    }

    /// The payload of a component, if it exists.
    pub fn get_component(&self, id: ComponentId) -> (r: Option<&ComponentKind>)
        ensures
            match r {
                Some(c) => self.contains(id) && *c == self.component(id),
                None => !self.contains(id),
            },
    {
        match self.get_component_record(id) {
            Some(n) => Some(&n.component),
            None => None,
        }
    }

    /// Parent of a component; `None` for a root or a missing component.
    pub fn parent_of(&self, c: ComponentId) -> (r: Option<ComponentId>)
        ensures
            r == (if self.contains(c) { self.parent(c) } else { None }),
    {
        match self.get_component_record(c) {
            Some(n) => n.parent,
            None => None,
        }
    }

    /// Children of a component, in attach order; empty for a missing component.
    pub fn children_of(&self, c: ComponentId) -> (r: &[ComponentId])
        ensures
            r@ == (if self.contains(c) { self.children(c) } else { Seq::<ComponentId>::empty() }),
    {
        match self.get_component_record(c) {
            Some(n) => n.children.as_slice(),
            None => &[],
        }
    }

    /// Whether `maybe_ancestor` is a proper ancestor of `node`.
    pub fn is_ancestor_of(&self, maybe_ancestor: ComponentId, node: ComponentId) -> (r: bool)
        requires
            self.wf(),
        ensures
            r == self.ancestor(maybe_ancestor, node),
    {
        let ghost m = self.nodes();
        let mut cur = node;
        let ghost mut steps: nat = 0;
        loop
            invariant
                self.wf(),
                m == self.nodes(),
                nth_parent(m, node@, steps) == Some(cur@),
                forall|j: nat| 1 <= j <= steps ==> nth_parent(m, node@, j) != Some(maybe_ancestor@),
            decreases (self.rank@)(cur@),
        {
            match self.parent_of(cur) {
                None => {
                    proof {
                        assert(nth_parent(m, node@, steps + 1) is None);
                        assert forall|n: nat| n >= 1 implies #[trigger] nth_parent(m, node@, n) != Some(maybe_ancestor@) by {
                            if n > steps {
                                lemma_nth_parent_none_persists(m, node@, steps + 1, n);
                            }
                        }
                    }
                    return false;
                },
                Some(p) => {
                    proof {
                        assert(nth_parent(m, node@, steps + 1) == Some(p@));
                    }
                    if p == maybe_ancestor {
                        return true;
                    }
                    proof {
                        assert(m.contains_key(cur@));
                        steps = steps + 1;
                    }
                    cur = p;
                },
            }
        }
    }
    /// Detach `child` from its current parent; nothing is deleted.
    #[verifier::spinoff_prover]
    pub fn detach_from_parent(&mut self, child: ComponentId)
        requires
            old(self).wf(),
        ensures
            final(self).wf(),
            detach_effect(old(self).nodes(), final(self).nodes(), child@),
    {
        let ghost m = self.nodes();
        let old_parent = match self.parent_of(child) {
            Some(p) => p,
            None => {
                return;
            },
        };
        proof {
            use_type_invariant(&child);
            use_type_invariant(&old_parent);
            lemma_id_of(child, child@);
        }
        {
            let node = slot_index_mut(&mut self.components, child);
            node.parent = None;
        }
        let ghost m1 = self.nodes();
        {
            let parent_node = slot_index_mut(&mut self.components, old_parent);
            let kept = without_id(&parent_node.children, child);
            parent_node.children = kept;
        }
        let ghost m2 = self.nodes();
        proof {
            let q = old_parent@;
            let c = child@;
            assert(m2.dom() =~= m.dom());
            assert forall|k: u64| #[trigger] m2.contains_key(k) && m2[k].parent is Some implies {
                let p = m2[k].parent->Some_0@;
                m2.contains_key(p) && m2[p].children@.contains(id_of(k))
            } by {
                let p = m[k].parent->Some_0@;
                assert(k != c);
                assert(m[p].children@.contains(id_of(k)));
                if p == q {
                    lemma_id_of(child, k);
                    assert(id_of(k) != child);
                }
            }
            assert forall|k: u64, i: int|
                m2.contains_key(k) && 0 <= i < m2[k].children@.len() implies {
                    let x = #[trigger] m2[k].children@[i];
                    m2.contains_key(x@) && m2[x@].parent == Some(id_of(k))
                } by {
                let x = m2[k].children@[i];
                if k == q {
                    assert(m2[k].children@.contains(x));
                    assert(m[q].children@.contains(x));
                    let i0 = choose|i0: int| 0 <= i0 < m[q].children@.len() && m[q].children@[i0] == x;
                    assert(m[q].children@[i0] == x);
                    assert(x != child);
                    lemma_id_of(x, k);
                } else {
                    assert(m[k].children@[i] == x);
                    if x@ == c {
                        lemma_id_of(x, k);
                        lemma_id_of(child, k);
                        assert(m[c].parent == Some(id_of(k)));
                        lemma_id_of(old_parent, k);
                    }
                }
            }
            assert(links_ok(m2));
            assert(ranked(m2, self.rank@));
        }
    }
}

/// A copy of `v` without the occurrences of `x`, order kept.
pub fn without_id(v: &Vec<ComponentId>, x: ComponentId) -> (r: Vec<ComponentId>)
    ensures
        r@ == v@.filter(not_id(x)),
        forall|y: ComponentId| r@.contains(y) <==> (v@.contains(y) && y != x),
        v@.no_duplicates() ==> r@.no_duplicates(),
{
    let mut r: Vec<ComponentId> = Vec::new();
    let n = v.len();
    let mut i: usize = 0;
    while i < n
        invariant
            n == v@.len(),
            i <= n,
            r@ == v@.take(i as int).filter(not_id(x)),
            forall|y: ComponentId| r@.contains(y) <==> (v@.take(i as int).contains(y) && y != x),
            v@.no_duplicates() ==> r@.no_duplicates(),
        decreases n - i,
    {
        let y = v[i];
        let ghost r0 = r@;
        proof {
            broadcast use vstd::seq_lib::group_seq_properties;
            assert(v@.take(i + 1) =~= v@.take(i as int).push(y));
            v@.take(i as int).lemma_filter_push(y, not_id(x));
        }
        if y != x {
            proof {
                if v@.no_duplicates() {
                    assert(!v@.take(i as int).contains(y));
                }
            }
            r.push(y);
            proof {
                broadcast use vstd::seq_lib::group_seq_properties;
                assert(r@ == r0.push(y));
                if v@.no_duplicates() {
                    assert(!r0.contains(y));
                    assert forall|a: int, b: int| 0 <= a < b < r@.len() implies r@[a] != r@[b] by {
                        if b == r@.len() - 1 {
                            assert(r0.contains(r@[a]));
                        }
                    }
                }
            }
        }
        proof {
            broadcast use vstd::seq_lib::group_seq_properties;
            assert forall|z: ComponentId| r@.contains(z) <==> (v@.take(i + 1).contains(z) && z != x) by {
                if v@.take(i + 1).contains(z) && z != x && z != y {
                    let t1 = v@.take(i + 1);
                    let k = choose|k: int| 0 <= k < t1.len() && #[trigger] t1[k] == z;
                    assert(v@.take(i as int)[k] == z);
                }
                if v@.take(i as int).contains(z) {
                    let t0 = v@.take(i as int);
                    let k = choose|k: int| 0 <= k < t0.len() && #[trigger] t0[k] == z;
                    assert(v@.take(i + 1)[k] == z);
                }
            }
        }
        i = i + 1;
    }
    assert(v@.take(n as int) =~= v@);
    r
}

pub open spec fn not_id(x: ComponentId) -> spec_fn(ComponentId) -> bool {
    |c: ComponentId| c != x
}

/// `m2` is `m` with node `c` detached from its parent (unchanged when `c` is a
/// root or missing).
pub open spec fn detach_effect(m: Map<u64, ComponentNode>, m2: Map<u64, ComponentNode>, c: u64) -> bool {
    match parent_key(m, c) {
        None => m2 == m,
        Some(q) => {
            &&& m2.dom() == m.dom()
            &&& forall|k: u64| #[trigger] m.contains_key(k) ==> m2[k].component == m[k].component
                && m2[k].name == m[k].name
            &&& forall|k: u64| #[trigger] m.contains_key(k) && k != c ==> m2[k].parent == m[k].parent
            &&& m2[c].parent is None
            &&& forall|k: u64| #[trigger] m.contains_key(k) && k != q ==> m2[k].children@ == m[k].children@
            &&& m2[q].children@ == m[q].children@.filter(not_id(id_of(c)))
        },
    }
}

/// `m2` is `m` after node `c` has been attached below `p`: detached from its
/// old parent first, then linked to `p` and appended to `p`'s children.
pub open spec fn attach_effect(
    m: Map<u64, ComponentNode>,
    m2: Map<u64, ComponentNode>,
    p: u64,
    c: u64,
) -> bool {
    &&& m2.dom() == m.dom()
    &&& forall|k: u64| #[trigger] m.contains_key(k) ==> m2[k].component == m[k].component
        && m2[k].name == m[k].name
    &&& forall|k: u64| #[trigger] m.contains_key(k) && k != c ==> m2[k].parent == m[k].parent
    &&& m2[c].parent == Some(id_of(p))
    &&& forall|k: u64|
        #[trigger] m.contains_key(k) && k != p ==> m2[k].children@ == (if parent_key(m, c) == Some(k) {
            m[k].children@.filter(not_id(id_of(c)))
        } else {
            m[k].children@
        })
    &&& m2[p].children@ == m[p].children@.filter(not_id(id_of(c))).push(id_of(c))
}

/// Ranks after moving the subtree of `c` below `p`: the whole subtree is lifted
/// above `p`.
pub open spec fn lifted_rank(
    m: Map<u64, ComponentNode>,
    rank: spec_fn(u64) -> nat,
    p: u64,
    c: u64,
) -> spec_fn(u64) -> nat {
    |k: u64| if in_subtree(m, c, k) { rank(k) + rank(p) + 1 } else { rank(k) }
}

pub proof fn lemma_lifted_rank(
    m: Map<u64, ComponentNode>,
    m2: Map<u64, ComponentNode>,
    rank: spec_fn(u64) -> nat,
    p: u64,
    c: u64,
)
    requires
        ranked(m, rank),
        m2.dom() == m.dom(),
        forall|k: u64| #[trigger] m.contains_key(k) && k != c ==> m2[k].parent == m[k].parent,
        m2[c].parent == Some(id_of(p)),
        m.contains_key(c),
        p != c,
        !is_ancestor(m, c, p),
    ensures
        ranked(m2, lifted_rank(m, rank, p, c)),
{
    let r2 = lifted_rank(m, rank, p, c);
    assert forall|k: u64| #[trigger] m2.contains_key(k) && m2[k].parent is Some implies r2(
        m2[k].parent->Some_0@,
    ) < r2(k) by {
        let pp = m2[k].parent->Some_0@;
        if k == c {
            lemma_id_of(id_of(p), p);
            assert(pp == p);
            assert(!in_subtree(m, c, p));
        } else {
            assert(m[k].parent == m2[k].parent);
            assert(parent_key(m, k) == Some(pp));
            assert(nth_parent(m, k, 1) == Some(pp)) by {
                assert(nth_parent(m, k, 1) == match nth_parent(m, k, 0) {
                    Some(j) => parent_key(m, j),
                    None => None,
                });
            }
            if in_subtree(m, c, k) {
                let n = choose|n: nat| n >= 1 && #[trigger] nth_parent(m, k, n) == Some(c);
                if n > 1 {
                    lemma_nth_parent_shift(m, k, pp, (n - 1) as nat);
                    assert(nth_parent(m, pp, (n - 1) as nat) == Some(c));
                }
                assert(in_subtree(m, c, pp));
            } else {
                if in_subtree(m, c, pp) {
                    if pp != c {
                        let n = choose|n: nat| n >= 1 && #[trigger] nth_parent(m, pp, n) == Some(c);
                        lemma_nth_parent_shift(m, k, pp, n);
                        assert(nth_parent(m, k, n + 1) == Some(c));
                    }
                    assert(is_ancestor(m, c, k));
                }
            }
        }
    }
}

impl World {
    /// Add a detached component (no parent) and return its new id.
    pub fn add_component_boxed(&mut self, c: ComponentKind) -> (id: ComponentId)
        requires
            old(self).wf(),
            old(self).nodes().len() + 1 < u32::MAX,
        ensures
            final(self).wf(),
            !old(self).contains(id),
            final(self).nodes().dom() == old(self).nodes().dom().insert(id@),
            forall|k: u64| #[trigger] old(self).nodes().contains_key(k) ==> final(self).nodes()[k] == old(self).nodes()[k],
            final(self).component(id) == c,
            final(self).name(id) == kind_name(c),
            final(self).parent(id) is None,
            final(self).children(id).len() == 0,
    {
        let ghost m = self.nodes();
        let node = ComponentNode::new(c);
        let id = slot_insert(&mut self.components, node);
        proof {
            let m2 = self.nodes();
            lemma_id_of(id, id@);
            assert(m2.dom() =~= m.dom().insert(id@));
            assert forall|k: u64| #[trigger] m2.contains_key(k) && m2[k].parent is Some implies {
                let p = m2[k].parent->Some_0@;
                m2.contains_key(p) && m2[p].children@.contains(id_of(k))
            } by {
                let p = m[k].parent->Some_0@;
                assert(m.contains_key(p));
            }
            assert forall|k: u64, i: int|
                m2.contains_key(k) && 0 <= i < m2[k].children@.len() implies {
                    let x = #[trigger] m2[k].children@[i];
                    m2.contains_key(x@) && m2[x@].parent == Some(id_of(k))
                } by {
                let x = m2[k].children@[i];
                assert(k != id@);
                assert(m.contains_key(x@));
            }
            assert(links_ok(m2));
        }
        id
    }

    /// Temporary alias of `add_component_boxed`.
    pub fn spawn_component_boxed(&mut self, c: ComponentKind) -> (id: ComponentId)
        requires
            old(self).wf(),
            old(self).nodes().len() + 1 < u32::MAX,
        ensures
            final(self).wf(),
            !old(self).contains(id),
            final(self).nodes().dom() == old(self).nodes().dom().insert(id@),
            forall|k: u64| #[trigger] old(self).nodes().contains_key(k) ==> final(self).nodes()[k] == old(self).nodes()[k],
            final(self).component(id) == c,
            final(self).name(id) == kind_name(c),
            final(self).parent(id) is None,
            final(self).children(id).len() == 0,
    {
        self.add_component_boxed(c)
    }

    /// Add a detached component and tell it its new id.
    pub fn add_component(&mut self, c: ComponentKind) -> (id: ComponentId)
        requires
            old(self).wf(),
            old(self).nodes().len() + 1 < u32::MAX,
        ensures
            final(self).wf(),
            !old(self).contains(id),
            final(self).nodes().dom() == old(self).nodes().dom().insert(id@),
            forall|k: u64| #[trigger] old(self).nodes().contains_key(k) ==> final(self).nodes()[k] == old(self).nodes()[k],
            final(self).component(id) == with_id(c, id),
            final(self).name(id) == kind_name(c),
            final(self).parent(id) is None,
            final(self).children(id).len() == 0,
    {
        let id = self.add_component_boxed(c);
        let ghost m = self.nodes();
        proof {
            use_type_invariant(&id);
        }
        {
            let node = slot_index_mut(&mut self.components, id);
            node.component.set_id(id);
        }
        proof {
            let m2 = self.nodes();
            assert(m2.dom() =~= m.dom());
            assert forall|k: u64| #[trigger] m2.contains_key(k) && m2[k].parent is Some implies {
                let p = m2[k].parent->Some_0@;
                m2.contains_key(p) && m2[p].children@.contains(id_of(k))
            } by {
                let p = m[k].parent->Some_0@;
                assert(m.contains_key(p));
            }
            assert forall|k: u64, i: int|
                m2.contains_key(k) && 0 <= i < m2[k].children@.len() implies {
                    let x = #[trigger] m2[k].children@[i];
                    m2.contains_key(x@) && m2[x@].parent == Some(id_of(k))
                } by {
                let x = m2[k].children@[i];
                assert(m.contains_key(x@));
            }
            assert(links_ok(m2));
        }
        id
    }

    /// Attach `child` under `parent`: both must exist, a component cannot be
    /// its own parent, and cycles are rejected. `child` is detached from its
    /// current parent first.
    #[verifier::spinoff_prover]
    pub fn add_child(&mut self, parent: ComponentId, child: ComponentId) -> (r: Result<(), &'static str>)
        requires
            old(self).wf(),
        ensures
            final(self).wf(),
            !old(self).contains(parent) ==> r == Err::<(), &'static str>("parent does not exist"),
            old(self).contains(parent) && !old(self).contains(child) ==> r == Err::<(), &'static str>("child does not exist"),
            old(self).contains(parent) && old(self).contains(child) && parent == child
                ==> r == Err::<(), &'static str>("cannot parent component to itself"),
            old(self).contains(parent) && old(self).contains(child) && parent != child
                && old(self).ancestor(child, parent) ==> r == Err::<(), &'static str>("cycle detected"),
            r is Err ==> final(self).nodes() == old(self).nodes(),
            r is Ok <==> (old(self).contains(parent) && old(self).contains(child) && parent != child
                && !old(self).ancestor(child, parent)),
            r is Ok ==> attach_effect(old(self).nodes(), final(self).nodes(), parent@, child@),
    {
        if self.get_component_record(parent).is_none() {
            return Err("parent does not exist");
        }
        if self.get_component_record(child).is_none() {
            return Err("child does not exist");
        }
        if parent == child {
            return Err("cannot parent component to itself");
        }
        if self.is_ancestor_of(child, parent) {
            return Err("cycle detected");
        }
        let ghost m = self.nodes();
        let ghost r0 = self.rank@;
        proof {
            use_type_invariant(&parent);
            use_type_invariant(&child);
            lemma_id_of(parent, parent@);
            lemma_id_of(child, child@);
        }
        self.detach_from_parent(child);
        let ghost m1 = self.nodes();
        {
            let child_node = slot_index_mut(&mut self.components, child);
            child_node.parent = Some(parent);
        }
        let ghost m1b = self.nodes();
        {
            let parent_node = slot_index_mut(&mut self.components, parent);
            if !contains_id(&parent_node.children, child) {
                parent_node.children.push(child);
            }
        }
        let ghost m2 = self.nodes();
        proof {
            let p = parent@;
            let c = child@;
            assert(!m1[p].children@.contains(child)) by {
                if m1[p].children@.contains(child) {
                    let i = choose|i: int| 0 <= i < m1[p].children@.len() && #[trigger] m1[p].children@[i] == child;
                    assert(m1[child@].parent == Some(id_of(p)));
                }
            }
            assert(m2[p].children@ == m1[p].children@.push(child));
            assert(m2.dom() =~= m.dom());
            assert forall|k: u64| #[trigger] m2.contains_key(k) && m2[k].parent is Some implies {
                let pp = m2[k].parent->Some_0@;
                m2.contains_key(pp) && m2[pp].children@.contains(id_of(k))
            } by {
                let pp = m2[k].parent->Some_0@;
                if k == c {
                    assert(m2[p].children@[m2[p].children@.len() - 1] == child);
                } else {
                    assert(m1[k].parent == m2[k].parent);
                    assert(m1[pp].children@.contains(id_of(k)));
                    if pp == p {
                        let i = choose|i: int| 0 <= i < m1[p].children@.len() && #[trigger] m1[p].children@[i] == id_of(k);
                        assert(m2[p].children@[i] == id_of(k));
                    }
                }
            }
            assert forall|k: u64, i: int|
                m2.contains_key(k) && 0 <= i < m2[k].children@.len() implies {
                    let x = #[trigger] m2[k].children@[i];
                    m2.contains_key(x@) && m2[x@].parent == Some(id_of(k))
                } by {
                let x = m2[k].children@[i];
                if k == p {
                    if i == m2[k].children@.len() - 1 {
                        assert(x == child);
                    } else {
                        assert(m1[p].children@[i] == x);
                        assert(x != child);
                        lemma_id_of(x, k);
                    }
                } else {
                    assert(m1[k].children@[i] == x);
                    if x == child {
                        assert(m1[c].parent == Some(id_of(k)));
                    }
                    lemma_id_of(x, k);
                }
            }
            assert forall|k: u64| #[trigger] m2.contains_key(k) implies m2[k].children@.no_duplicates() by {
                if k == p {
                    assert forall|a: int, b: int| 0 <= a < b < m2[k].children@.len() implies m2[k].children@[a] != m2[k].children@[b] by {
                        if b == m2[k].children@.len() - 1 {
                            assert(m1[p].children@.contains(m2[k].children@[a]));
                        }
                    }
                }
            }
            assert(links_ok(m2));
            assert forall|k: u64| #[trigger] m.contains_key(k) && k != c implies m2[k].parent == m[k].parent by {}
            lemma_lifted_rank(m, m2, r0, p, c);
            assert forall|k: u64| #[trigger] m.contains_key(k) && k != p implies m2[k].children@ == (if parent_key(m, c) == Some(k) {
                m[k].children@.filter(not_id(id_of(c)))
            } else {
                m[k].children@
            }) by {}
            if parent_key(m, c) != Some(p) {
                assert(!m[p].children@.contains(child)) by {
                    if m[p].children@.contains(child) {
                        let i = choose|i: int| 0 <= i < m[p].children@.len() && #[trigger] m[p].children@[i] == child;
                        assert(m[c].parent == Some(id_of(p)));
                    }
                }
                lemma_filter_absent(m[p].children@, child);
            }
            assert(m2[p].children@ == m[p].children@.filter(not_id(id_of(c))).push(id_of(c)));
        }
        self.rank = Ghost(lifted_rank(m, r0, parent@, child@));
        Ok(())
    }

    /// Change a component's parent; `None` detaches it.
    pub fn set_parent(&mut self, child: ComponentId, new_parent: Option<ComponentId>) -> (r: Result<(), &'static str>)
        requires
            old(self).wf(),
        ensures
            final(self).wf(),
            new_parent is None ==> r is Ok && detach_effect(old(self).nodes(), final(self).nodes(), child@),
            new_parent is Some ==> {
                let parent = new_parent->Some_0;
                &&& !old(self).contains(parent) ==> r == Err::<(), &'static str>("parent does not exist")
                &&& old(self).contains(parent) && !old(self).contains(child) ==> r == Err::<(), &'static str>("child does not exist")
                &&& old(self).contains(parent) && old(self).contains(child) && parent == child
                    ==> r == Err::<(), &'static str>("cannot parent component to itself")
                &&& old(self).contains(parent) && old(self).contains(child) && parent != child
                    && old(self).ancestor(child, parent) ==> r == Err::<(), &'static str>("cycle detected")
                &&& r is Err ==> final(self).nodes() == old(self).nodes()
                &&& r is Ok <==> (old(self).contains(parent) && old(self).contains(child) && parent != child
                    && !old(self).ancestor(child, parent))
                &&& r is Ok ==> attach_effect(old(self).nodes(), final(self).nodes(), parent@, child@)
            },
    {
        match new_parent {
            None => {
                self.detach_from_parent(child);
                Ok(())
            },
            Some(parent) => self.add_child(parent, child),
        }
    }
}

/// `m2` is `m` after the leaf `c` has been detached and deleted.
pub open spec fn leaf_removed(m: Map<u64, ComponentNode>, m2: Map<u64, ComponentNode>, c: u64) -> bool {
    &&& m2.dom() == m.dom().remove(c)
    &&& forall|k: u64| #[trigger] m2.contains_key(k) ==> m2[k].component == m[k].component
        && m2[k].name == m[k].name && m2[k].parent == m[k].parent
    &&& forall|k: u64| #[trigger] m2.contains_key(k) ==> m2[k].children@ == (if parent_key(m, c) == Some(k) {
        m[k].children@.filter(not_id(id_of(c)))
    } else {
        m[k].children@
    })
}

/// `m2` is `m` after the subtree rooted at `r` has been detached and deleted.
pub open spec fn subtree_removed(m: Map<u64, ComponentNode>, m2: Map<u64, ComponentNode>, r: u64) -> bool {
    &&& forall|k: u64| #[trigger] m2.contains_key(k) <==> (m.contains_key(k) && !in_subtree(m, r, k))
    &&& forall|k: u64| #[trigger] m2.contains_key(k) ==> m2[k].component == m[k].component
        && m2[k].name == m[k].name && m2[k].parent == m[k].parent
    &&& forall|k: u64| #[trigger] m2.contains_key(k) ==> m2[k].children@ == (if parent_key(m, r) == Some(k) {
        m[k].children@.filter(not_id(id_of(r)))
    } else {
        m[k].children@
    })
}

impl World {
    /// Remove a component that has no children, detaching it from its parent.
    #[verifier::spinoff_prover]
    pub fn remove_component_leaf(&mut self, c: ComponentId) -> (r: Result<(), &'static str>)
        requires
            old(self).wf(),
        ensures
            final(self).wf(),
            !old(self).contains(c) ==> r == Err::<(), &'static str>("component does not exist"),
            old(self).contains(c) && old(self).children(c).len() > 0 ==> r == Err::<(), &'static str>(
                "component has children; use remove_component_subtree or detach children first",
            ),
            r is Err ==> final(self).nodes() == old(self).nodes(),
            r is Ok <==> (old(self).contains(c) && old(self).children(c).len() == 0),
            r is Ok ==> leaf_removed(old(self).nodes(), final(self).nodes(), c@),
    {
        match self.get_component_record(c) {
            None => {
                return Err("component does not exist");
            },
            Some(node) => {
                if node.children.len() != 0 {
                    return Err("component has children; use remove_component_subtree or detach children first");
                }
            },
        }
        let ghost m = self.nodes();
        proof {
            use_type_invariant(&c);
            lemma_id_of(c, c@);
        }
        self.detach_from_parent(c);
        let ghost m1 = self.nodes();
        let _ = slot_remove(&mut self.components, c);
        let ghost m2 = self.nodes();
        proof {
            assert(m2.dom() =~= m.dom().remove(c@));
            assert forall|k: u64| #[trigger] m2.contains_key(k) && m2[k].parent is Some implies {
                let pp = m2[k].parent->Some_0@;
                m2.contains_key(pp) && m2[pp].children@.contains(id_of(k))
            } by {
                let pp = m2[k].parent->Some_0@;
                assert(m1.contains_key(pp));
                if pp == c@ {
                    assert(m1[c@].children@.contains(id_of(k)));
                    assert(m1[c@].children@ == m[c@].children@);
                }
            }
            assert forall|k: u64, i: int|
                m2.contains_key(k) && 0 <= i < m2[k].children@.len() implies {
                    let x = #[trigger] m2[k].children@[i];
                    m2.contains_key(x@) && m2[x@].parent == Some(id_of(k))
                } by {
                let x = m2[k].children@[i];
                assert(m1[k].children@[i] == x);
                if x@ == c@ {
                    lemma_id_of(x, k);
                    assert(m1[c@].parent == Some(id_of(k)));
                }
            }
            assert(links_ok(m2));
        }
        Ok(())
    }

    /// Remove a component together with all its descendants.
    #[verifier::spinoff_prover]
    pub fn remove_component_subtree(&mut self, root: ComponentId) -> (r: Result<(), &'static str>)
        requires
            old(self).wf(),
        ensures
            final(self).wf(),
            !old(self).contains(root) ==> r == Err::<(), &'static str>("component does not exist")
                && final(self).nodes() == old(self).nodes(),
            old(self).contains(root) ==> r is Ok && subtree_removed(old(self).nodes(), final(self).nodes(), root@),
    {
        if self.get_component_record(root).is_none() {
            return Err("component does not exist");
        }
        let ghost m = self.nodes();
        proof {
            use_type_invariant(&root);
            lemma_id_of(root, root@);
        }
        let ids = slot_keys(&self.components);
        let mut doomed: Vec<ComponentId> = Vec::new();
        let n = ids.len();
        let mut i: usize = 0;
        while i < n
            invariant
                self.wf(),
                self.nodes() == m,
                n == ids@.len(),
                i <= n,
                forall|j: int| 0 <= j < ids@.len() ==> m.contains_key(#[trigger] ids@[j]@),
                forall|x: ComponentId|
                    doomed@.contains(x) <==> (ids@.take(i as int).contains(x) && in_subtree(m, root@, x@)),
            decreases n - i,
        {
            let id = ids[i];
            let ghost d0 = doomed@;
            proof {
                broadcast use vstd::seq_lib::group_seq_properties;
                assert(ids@.take(i + 1) =~= ids@.take(i as int).push(id));
            }
            if id == root || self.is_ancestor_of(root, id) {
                doomed.push(id);
            }
            proof {
                broadcast use vstd::seq_lib::group_seq_properties;
                assert forall|x: ComponentId|
                    doomed@.contains(x) <==> (ids@.take(i + 1).contains(x) && in_subtree(m, root@, x@)) by {
                    if ids@.take(i + 1).contains(x) && x != id {
                        let t1 = ids@.take(i + 1);
                        let k = choose|k: int| 0 <= k < t1.len() && #[trigger] t1[k] == x;
                        assert(ids@.take(i as int)[k] == x);
                    }
                    if ids@.take(i as int).contains(x) {
                        let t0 = ids@.take(i as int);
                        let k = choose|k: int| 0 <= k < t0.len() && #[trigger] t0[k] == x;
                        assert(ids@.take(i + 1)[k] == x);
                    }
                }
            }
            i = i + 1;
        }
        proof {
            assert(ids@.take(n as int) =~= ids@);
        }
        self.detach_from_parent(root);
        let ghost m1 = self.nodes();
        let ghost r1 = self.rank@;
        assert(ranked(m1, r1));
        let nd = doomed.len();
        let mut j: usize = 0;
        while j < nd
            invariant
                nd == doomed@.len(),
                j <= nd,
                self.rank@ == r1,
                forall|x: ComponentId| #[trigger] doomed@.contains(x) ==> canonical_key(x@),
                forall|k: u64|
                    #[trigger] self.nodes().contains_key(k) <==> (m1.contains_key(k) && !doomed@.take(j as int).contains(id_of(k))),
                forall|k: u64| #[trigger] self.nodes().contains_key(k) ==> self.nodes()[k] == m1[k],
            decreases nd - j,
        {
            let d = doomed[j];
            proof {
                use_type_invariant(&d);
                broadcast use vstd::seq_lib::group_seq_properties;
                assert(doomed@.take(j + 1) =~= doomed@.take(j as int).push(d));
            }
            let ghost before = self.nodes();
            let _ = slot_remove(&mut self.components, d);
            proof {
                broadcast use vstd::seq_lib::group_seq_properties;
                assert forall|k: u64|
                    #[trigger] self.nodes().contains_key(k) <==> (m1.contains_key(k) && !doomed@.take(j + 1).contains(id_of(k))) by {
                    lemma_id_of(d, k);
                    if doomed@.take(j as int).contains(id_of(k)) {
                        let t0 = doomed@.take(j as int);
                        let q = choose|q: int| 0 <= q < t0.len() && #[trigger] t0[q] == id_of(k);
                        assert(doomed@.take(j + 1)[q] == id_of(k));
                    }
                    if doomed@.take(j + 1).contains(id_of(k)) && id_of(k) != d {
                        let t1 = doomed@.take(j + 1);
                        let q = choose|q: int| 0 <= q < t1.len() && #[trigger] t1[q] == id_of(k);
                        assert(doomed@.take(j as int)[q] == id_of(k));
                    }
                }
            }
            j = j + 1;
        }
        let ghost m2 = self.nodes();
        proof {
            assert(doomed@.take(nd as int) =~= doomed@);
            assert forall|k: u64| #[trigger] m2.contains_key(k) <==> (m.contains_key(k) && !in_subtree(m, root@, k)) by {
                lemma_id_of(id_of(k), k);
                if m.contains_key(k) {
                    let w = choose|w: int| 0 <= w < ids@.len() && #[trigger] ids@[w]@ == k;
                    lemma_id_of(ids@[w], k);
                    assert(ids@.take(n as int).contains(ids@[w]));
                }
            }
            assert forall|k: u64| #[trigger] m2.contains_key(k) && m2[k].parent is Some implies {
                let pp = m2[k].parent->Some_0@;
                m2.contains_key(pp) && m2[pp].children@.contains(id_of(k))
            } by {
                let pp = m2[k].parent->Some_0@;
                assert(k != root@);
                assert(m2[k] == m1[k]);
                assert(m1.contains_key(k));
                assert(m1.contains_key(pp));
                assert(m.contains_key(pp));
                assert(m[k].parent == m2[k].parent);
                assert(parent_key(m, k) == Some(pp));
                assert(nth_parent(m, k, 1) == Some(pp)) by {
                    assert(nth_parent(m, k, 1) == match nth_parent(m, k, 0) {
                        Some(jj) => parent_key(m, jj),
                        None => None,
                    });
                }
                if in_subtree(m, root@, pp) {
                    if pp != root@ {
                        let w = choose|w: nat| w >= 1 && #[trigger] nth_parent(m, pp, w) == Some(root@);
                        lemma_nth_parent_shift(m, k, pp, w);
                        assert(nth_parent(m, k, w + 1) == Some(root@));
                    }
                    assert(is_ancestor(m, root@, k));
                }
                assert(m1[pp].children@.contains(id_of(k)));
                assert(m2.contains_key(pp));
                assert(m2[pp] == m1[pp]);
            }
            assert forall|k: u64, ii: int|
                m2.contains_key(k) && 0 <= ii < m2[k].children@.len() implies {
                    let x = #[trigger] m2[k].children@[ii];
                    m2.contains_key(x@) && m2[x@].parent == Some(id_of(k))
                } by {
                let x = m2[k].children@[ii];
                assert(m2[k] == m1[k]);
                assert(m1[k].children@[ii] == x);
                assert(m1.contains_key(x@) && m1[x@].parent == Some(id_of(k)));
                assert(m.contains_key(x@));
                lemma_id_of(x, x@);
                lemma_id_of(id_of(k), k);
                if in_subtree(m, root@, x@) {
                    if x@ == root@ {
                        assert(m1[root@].parent is None);
                    } else {
                        assert(m[x@].parent == m1[x@].parent);
                        assert(parent_key(m, x@) == Some(k));
                        let w = choose|w: nat| w >= 1 && #[trigger] nth_parent(m, x@, w) == Some(root@);
                        assert(nth_parent(m, x@, 1) == Some(k)) by {
                            assert(nth_parent(m, x@, 1) == match nth_parent(m, x@, 0) {
                                Some(jj) => parent_key(m, jj),
                                None => None,
                            });
                        }
                        if w == 1 {
                            assert(k == root@);
                        } else {
                            lemma_nth_parent_shift(m, x@, k, (w - 1) as nat);
                            assert(nth_parent(m, k, (w - 1) as nat) == Some(root@));
                            assert(is_ancestor(m, root@, k));
                        }
                    }
                }
                assert(m2.contains_key(x@));
                assert(m2[x@] == m1[x@]);
            }
            assert forall|k: u64| #[trigger] m2.contains_key(k) implies m2[k].children@.no_duplicates() by {
                assert(m2[k] == m1[k]);
            }
            assert forall|k: u64| #[trigger] m2.contains_key(k) implies canonical_key(k) by {
                assert(m1.contains_key(k));
            }
            assert(ranked(m2, self.rank@)) by {
                assert forall|k: u64| #[trigger] m2.contains_key(k) && m2[k].parent is Some implies
                    (self.rank@)(m2[k].parent->Some_0@) < (self.rank@)(k) by {
                    assert(m2[k] == m1[k]);
                    assert(m1.contains_key(k));
                    assert(ranked(m1, r1));
                }
            }
            assert(links_ok(m2)) by {
                assert(m2.dom().subset_of(m1.dom()));
                vstd::set_lib::lemma_len_subset(m2.dom(), m1.dom());
            }
        }
        Ok(())
    }
}

impl World {
    /// The record of a component, mutably. Writes through it may change the
    /// node's links, so the world's invariant is no longer promised.
    pub fn get_component_record_mut(&mut self, id: ComponentId) -> (r: Option<&mut ComponentNode>)
        ensures
            r is Some <==> old(self).contains(id),
            r is Some ==> *r->Some_0 == old(self).nodes()[id@]
                && final(self).nodes() == old(self).nodes().insert(id@, *final(r->Some_0)),
            r is None ==> final(self).nodes() == old(self).nodes(),
    {
        proof {
            use_type_invariant(&id);
        }
        if slot_get(&self.components, id).is_none() {
            return None;
        }
        Some(slot_index_mut(&mut self.components, id))
    }

    /// The payload of `c`, if it exists and is a `T`.
    pub fn get_component_by_id_as<T: ComponentVariant>(&self, c: ComponentId) -> (r: Option<&T>)
        ensures
            match r {
                Some(t) => self.contains(c) && T::variant_of(self.component(c)) == Some(*t),
                None => !self.contains(c) || T::variant_of(self.component(c)) is None,
            },
    {
        match self.get_component_record(c) {
            Some(n) => T::from_kind(&n.component),
            None => None,
        }
    }

    /// The payload of `c`, mutably, if it exists and is a `T`; the links of
    /// the world are left as they are.
    pub fn get_component_by_id_as_mut<T: ComponentVariant>(&mut self, c: ComponentId) -> (r: Option<&mut T>)
        requires
            old(self).wf(),
        ensures
            r is Some <==> old(self).contains(c) && T::variant_of(old(self).component(c)) is Some,
            r is Some ==> T::variant_of(old(self).component(c)) == Some(*r->Some_0)
                && T::variant_of(final(self).component(c)) == Some(*final(r->Some_0)),
            final(self).nodes().dom() == old(self).nodes().dom(),
            forall|k: u64| #[trigger] old(self).nodes().contains_key(k) && k != c@ ==> final(self).nodes()[k] == old(self).nodes()[k],
            old(self).contains(c) ==> final(self).parent(c) == old(self).parent(c)
                && final(self).children(c) == old(self).children(c)
                && final(self).name(c) == old(self).name(c),
            r is None ==> final(self).nodes() == old(self).nodes(),
            final(self).wf(),
    {
        proof {
            use_type_invariant(&c);
        }
        if slot_get(&self.components, c).is_none() {
            return None;
        }
        let node = slot_index_mut(&mut self.components, c);
        T::from_kind_mut(&mut node.component)
    }

    /// The parent of `c` with its payload, if it exists and is a `T`.
    pub fn get_parent_as<T: ComponentVariant>(&self, c: ComponentId) -> (r: Option<(ComponentId, &T)>)
        ensures
            match r {
                Some((p, t)) => self.contains(c) && self.parent(c) == Some(p)
                    && self.contains(p) && T::variant_of(self.component(p)) == Some(*t),
                None => !self.contains(c) || self.parent(c) is None || !self.contains(self.parent(c)->Some_0)
                    || T::variant_of(self.component(self.parent(c)->Some_0)) is None,
            },
    {
        let parent = match self.parent_of(c) {
            Some(p) => p,
            None => return None,
        };
        match self.get_component_by_id_as::<T>(parent) {
            Some(t) => Some((parent, t)),
            None => None,
        }
    }

    /// The parent of `c` with its payload, mutably, if it is a `T`.
    pub fn get_parent_as_mut<T: ComponentVariant>(&mut self, c: ComponentId) -> (r: Option<(ComponentId, &mut T)>)
        requires
            old(self).wf(),
        ensures
            r is Some <==> old(self).contains(c) && old(self).parent(c) is Some
                && old(self).contains(old(self).parent(c)->Some_0)
                && T::variant_of(old(self).component(old(self).parent(c)->Some_0)) is Some,
            r is Some ==> ({
                let p = r->Some_0.0;
                &&& old(self).parent(c) == Some(p)
                &&& T::variant_of(old(self).component(p)) == Some(*r->Some_0.1)
                &&& T::variant_of(final(self).component(p)) == Some(*final(r->Some_0.1))
                &&& final(self).parent(p) == old(self).parent(p)
                &&& final(self).children(p) == old(self).children(p)
                &&& forall|k: u64| #[trigger] old(self).nodes().contains_key(k) && k != p@ ==> final(self).nodes()[k] == old(self).nodes()[k]
            }),
            final(self).nodes().dom() == old(self).nodes().dom(),
            r is None ==> final(self).nodes() == old(self).nodes(),
            final(self).wf(),
    {
        let parent = match self.parent_of(c) {
            Some(p) => p,
            None => return None,
        };
        match self.get_component_by_id_as_mut::<T>(parent) {
            Some(t) => Some((parent, t)),
            None => None,
        }
    }
}

/// Following parent links strictly lowers the rank.
proof fn lemma_ancestor_rank(m: Map<u64, ComponentNode>, rank: spec_fn(u64) -> nat, a: u64, d: u64, n: nat)
    requires
        ranked(m, rank),
        n >= 1,
        nth_parent(m, d, n) == Some(a),
    ensures
        rank(a) < rank(d),
    decreases n,
{
    let j = nth_parent(m, d, (n - 1) as nat);
    if n == 1 {
        assert(j == Some(d));
    } else {
        match j {
            Some(jj) => {
                lemma_ancestor_rank(m, rank, jj, d, (n - 1) as nat);
            },
            None => {},
        }
    }
}

/// No component is its own ancestor: the parent links of a world never form
/// a cycle.
pub proof fn law_world_acyclic(w: World, c: ComponentId)
    requires
        w.wf(),
    ensures
        !w.ancestor(c, c),
{
    if w.ancestor(c, c) {
        let n = choose|n: nat| n >= 1 && #[trigger] nth_parent(w.nodes(), c@, n) == Some(c@);
        lemma_ancestor_rank(w.nodes(), w.rank@, c@, c@, n);
    }
}

/// A component appears among the children of `p` exactly when `p` is its
/// parent, so every component is listed under at most one parent.
pub proof fn law_world_links_agree(w: World, p: ComponentId, c: ComponentId)
    requires
        w.wf(),
        w.contains(c),
    ensures
        (w.contains(p) && w.children(p).contains(c)) <==> w.parent(c) == Some(p),
{
    let m = w.nodes();
    lemma_id_of(p, p@);
    lemma_id_of(c, c@);
    if w.contains(p) && w.children(p).contains(c) {
        let i = choose|i: int| 0 <= i < m[p@].children@.len() && m[p@].children@[i] == c;
        assert(m[p@].children@[i] == c);
    }
    if w.parent(c) == Some(p) {
        assert(m.contains_key(c@) && m[c@].parent is Some);
    }
}

proof fn lemma_first_step(m: Map<u64, ComponentNode>, k: u64)
    ensures
        nth_parent(m, k, 1) == parent_key(m, k),
{
    assert(nth_parent(m, k, 1) == match nth_parent(m, k, 0) {
        Some(j) => parent_key(m, j),
        None => None,
    });
}

/// An ancestor of a child is its parent or an ancestor of its parent.
proof fn lemma_ancestor_step(m: Map<u64, ComponentNode>, a: u64, c: u64, p: u64)
    requires
        is_ancestor(m, a, c),
        parent_key(m, c) == Some(p),
    ensures
        a == p || is_ancestor(m, a, p),
{
    let n = choose|n: nat| n >= 1 && #[trigger] nth_parent(m, c, n) == Some(a);
    lemma_first_step(m, c);
    if n > 1 {
        lemma_nth_parent_shift(m, c, p, (n - 1) as nat);
        assert(nth_parent(m, p, (n - 1) as nat) == Some(a));
    }
}

/// A child of a node in the subtree of `a` lies strictly below `a`.
proof fn lemma_ancestor_extend(m: Map<u64, ComponentNode>, a: u64, c: u64, p: u64)
    requires
        parent_key(m, c) == Some(p),
        in_subtree(m, a, p),
    ensures
        is_ancestor(m, a, c),
{
    lemma_first_step(m, c);
    if p != a {
        let n = choose|n: nat| n >= 1 && #[trigger] nth_parent(m, p, n) == Some(a);
        lemma_nth_parent_shift(m, c, p, n);
        assert(nth_parent(m, c, n + 1) == Some(a));
    }
}

/// A node strictly below `r` has a parent, and that parent is in the subtree of `r`.
proof fn lemma_subtree_parent(m: Map<u64, ComponentNode>, r: u64, k: u64)
    requires
        is_ancestor(m, r, k),
    ensures
        parent_key(m, k) is Some,
        in_subtree(m, r, parent_key(m, k)->Some_0),
{
    let n = choose|n: nat| n >= 1 && #[trigger] nth_parent(m, k, n) == Some(r);
    lemma_first_step(m, k);
    if parent_key(m, k) is None {
        lemma_nth_parent_none_persists(m, k, 1, n);
    } else {
        lemma_ancestor_step(m, r, k, parent_key(m, k)->Some_0);
    }
}

/// The 64-bit forms of a sequence of ids.
pub open spec fn views(s: Seq<ComponentId>) -> Seq<u64> {
    s.map_values(|x: ComponentId| x@)
}

/// The 64-bit forms of distinct ids are distinct.
proof fn lemma_views(s: Seq<ComponentId>)
    requires
        s.no_duplicates(),
    ensures
        views(s).no_duplicates(),
        forall|x: ComponentId| s.contains(x) <==> #[trigger] views(s).contains(x@),
{
    let v = views(s);
    assert forall|i: int, j: int| 0 <= i < j < v.len() implies v[i] != v[j] by {
        lemma_id_of(s[i], s[i]@);
        lemma_id_of(s[j], s[j]@);
    }
    assert forall|x: ComponentId| s.contains(x) <==> #[trigger] v.contains(x@) by {
        if s.contains(x) {
            let i = choose|i: int| 0 <= i < s.len() && s[i] == x;
            assert(v[i] == x@);
        }
        if v.contains(x@) {
            let i = choose|i: int| 0 <= i < v.len() && v[i] == x@;
            lemma_id_of(s[i], s[i]@);
            lemma_id_of(x, x@);
            assert(s[i] == x);
        }
    }
}

/// A set of nodes that contains `root`, misses no node whose parent it holds
/// within the subtree, covers the whole subtree of `root`.
proof fn lemma_subtree_reached(
    m: Map<u64, ComponentNode>,
    rank: spec_fn(u64) -> nat,
    root: u64,
    s: Seq<ComponentId>,
    k: u64,
)
    requires
        links_ok(m),
        ranked(m, rank),
        forall|x: ComponentId| #[trigger] m.contains_key(x@) && in_subtree(m, root, x@) && !s.contains(x)
            ==> x@ != root && m[x@].parent is Some && !s.contains(m[x@].parent->Some_0),
        m.contains_key(k),
        in_subtree(m, root, k),
    ensures
        s.contains(id_of(k)),
    decreases rank(k),
{
    lemma_id_of(id_of(k), k);
    if !s.contains(id_of(k)) {
        assert(m.contains_key(id_of(k)@));
        let p = m[k].parent->Some_0;
        lemma_id_of(p, p@);
        assert(k != root);
        lemma_subtree_parent(m, root, k);
        lemma_subtree_reached(m, rank, root, s, p@);
    }
}

/// The concatenation of `f` applied to each element of `s`, in order.
pub open spec fn concat_map<A, B>(s: Seq<A>, f: spec_fn(A) -> Seq<B>) -> Seq<B>
    decreases s.len(),
{
    if s.len() == 0 {
        Seq::empty()
    } else {
        f(s[0]) + concat_map(s.drop_first(), f)
    }
}

pub proof fn lemma_concat_map_add<A, B>(a: Seq<A>, b: Seq<A>, f: spec_fn(A) -> Seq<B>)
    ensures
        concat_map(a + b, f) == concat_map(a, f) + concat_map(b, f),
    decreases a.len(),
{
    if a.len() == 0 {
        assert(a + b =~= b);
        assert(concat_map(a, f) + concat_map(b, f) =~= concat_map(b, f));
    } else {
        assert((a + b).drop_first() =~= a.drop_first() + b);
        assert((a + b)[0] == a[0]);
        lemma_concat_map_add(a.drop_first(), b, f);
        assert(f(a[0]) + (concat_map(a.drop_first(), f) + concat_map(b, f)) =~= (f(a[0]) + concat_map(
            a.drop_first(),
            f,
        )) + concat_map(b, f));
    }
}

/// The children of `k` in `m` (none for a missing node).
spec fn child_seq(m: Map<u64, ComponentNode>, k: u64) -> Seq<ComponentId> {
    if m.contains_key(k) {
        m[k].children@
    } else {
        Seq::empty()
    }
}

/// Depth-first preorder below `k`, cut off where ranks leave (lo, bound).
spec fn pre_r(m: Map<u64, ComponentNode>, rank: spec_fn(u64) -> nat, bound: int, k: u64) -> Seq<ComponentId>
    decreases bound - rank(k), 0int,
{
    if rank(k) < bound {
        seq![id_of(k)] + forest_r(m, rank, bound, child_seq(m, k), rank(k) as int)
    } else {
        seq![id_of(k)]
    }
}

spec fn forest_r(m: Map<u64, ComponentNode>, rank: spec_fn(u64) -> nat, bound: int, ks: Seq<ComponentId>, lo: int) -> Seq<ComponentId>
    decreases bound - lo - 1, ks.len(),
{
    if ks.len() == 0 {
        Seq::empty()
    } else if lo < rank(ks[0]@) && rank(ks[0]@) < bound {
        pre_r(m, rank, bound, ks[0]@) + forest_r(m, rank, bound, ks.drop_first(), lo)
    } else {
        forest_r(m, rank, bound, ks.drop_first(), lo)
    }
}

/// Every node of `m` ranks below `b`.
spec fn ranks_below(m: Map<u64, ComponentNode>, rank: spec_fn(u64) -> nat, b: int) -> bool {
    forall|k: u64| m.contains_key(k) ==> rank(k) < b
}

/// Some bound above the rank of every node of a finite set.
proof fn lemma_rank_bound(s: Set<u64>, rank: spec_fn(u64) -> nat) -> (b: int)
    requires
        s.finite(),
    ensures
        forall|k: u64| s.contains(k) ==> rank(k) < b,
    decreases s.len(),
{
    if s.len() == 0 {
        0
    } else {
        let x = s.choose();
        let b0 = lemma_rank_bound(s.remove(x), rank);
        let b: int = if b0 > rank(x) + 1 { b0 } else { (rank(x) + 1) as int };
        assert forall|k: u64| s.contains(k) implies rank(k) < b by {
            if k != x {
                assert(s.remove(x).contains(k));
            }
        }
        b
    }
}

impl World {
    /// A bound above every node's rank.
    closed spec fn rank_bound(&self) -> int {
        choose|b: int| ranks_below(self.nodes(), self.rank@, b)
    }

    /// The nodes below `root` in depth-first preorder, children in order:
    /// `root`, then the tree order of each child in turn.
    pub closed spec fn tree_order(&self, root: ComponentId) -> Seq<ComponentId> {
        pre_r(self.nodes(), self.rank@, self.rank_bound(), root@)
    }

    proof fn lemma_rank_bound_holds(&self)
        requires
            self.wf(),
        ensures
            forall|k: u64| self.nodes().contains_key(k) ==> (self.rank@)(k) < self.rank_bound(),
    {
        let b = lemma_rank_bound(self.nodes().dom(), self.rank@);
        assert(ranks_below(self.nodes(), self.rank@, b));
    }
}

/// The tree order below a component is the component followed by the tree
/// order below each of its children, in order.
pub proof fn law_tree_order_unfolds(w: World, k: ComponentId)
    requires
        w.wf(),
        w.contains(k),
    ensures
        w.tree_order(k) == seq![k] + concat_map(w.children(k), |c: ComponentId| w.tree_order(c)),
{
    w.lemma_rank_bound_holds();
    let m = w.nodes();
    let rank = w.rank@;
    let b = w.rank_bound();
    lemma_id_of(k, k@);
    assert(rank(k@) < b);
    lemma_forest_is_concat(w, k, m[k@].children@);
}

proof fn lemma_forest_is_concat(w: World, k: ComponentId, cs: Seq<ComponentId>)
    requires
        w.wf(),
        w.contains(k),
        forall|c: ComponentId| cs.contains(c) ==> w.children(k).contains(c),
        forall|k2: u64| w.nodes().contains_key(k2) ==> (w.rank@)(k2) < w.rank_bound(),
    ensures
        forest_r(w.nodes(), w.rank@, w.rank_bound(), cs, (w.rank@)(k@) as int)
            == concat_map(cs, |c: ComponentId| w.tree_order(c)),
    decreases cs.len(),
{
    let m = w.nodes();
    if cs.len() > 0 {
        let c = cs[0];
        assert(cs.contains(c));
        assert(w.children(k).contains(c));
        let i = choose|i: int| 0 <= i < m[k@].children@.len() && m[k@].children@[i] == c;
        assert(m[k@].children@[i] == c);
        assert(m.contains_key(c@) && m[c@].parent == Some(id_of(k@)));
        lemma_id_of(k, k@);
        assert((w.rank@)(k@) < (w.rank@)(c@));
        assert forall|x: ComponentId| cs.drop_first().contains(x) implies w.children(k).contains(x) by {
            let j = choose|j: int| 0 <= j < cs.drop_first().len() && cs.drop_first()[j] == x;
            assert(cs[j + 1] == x);
            assert(cs.contains(cs[j + 1]));
        }
        lemma_forest_is_concat(w, k, cs.drop_first());
    }
}

/// One step of the depth-first walk keeps "walked so far, then the tree
/// orders of the stack from the top down" equal.
#[verifier::spinoff_prover]
proof fn lemma_tree_order_step(w: World, o0: Seq<ComponentId>, s1: Seq<ComponentId>, id: ComponentId)
    requires
        w.wf(),
        w.contains(id),
    ensures
        o0.push(id) + concat_map((s1 + w.children(id).reverse()).reverse(), |c: ComponentId| w.tree_order(c))
            == o0 + concat_map(s1.push(id).reverse(), |c: ComponentId| w.tree_order(c)),
{
    let pre = |c: ComponentId| w.tree_order(c);
    let cs = w.children(id);
    law_tree_order_unfolds(w, id);
    assert(s1.push(id).reverse() =~= seq![id] + s1.reverse());
    assert((seq![id] + s1.reverse())[0] == id);
    assert((seq![id] + s1.reverse()).drop_first() =~= s1.reverse());
    assert(concat_map(s1.push(id).reverse(), pre) == pre(id) + concat_map(s1.reverse(), pre));
    assert((s1 + cs.reverse()).reverse() =~= cs + s1.reverse());
    lemma_concat_map_add(cs, s1.reverse(), pre);
    assert(o0.push(id) + concat_map((s1 + cs.reverse()).reverse(), pre) =~= o0 + concat_map(s1.push(id).reverse(), pre));
}

impl World {
    /// The subtree of `root` (empty when `root` is missing), each node once,
    /// every node after its ancestors, walked depth first with children in
    /// order.
    #[verifier::spinoff_prover]
    pub fn subtree_order(&self, root: ComponentId) -> (order: Vec<ComponentId>)
        requires
            self.wf(),
        ensures
            !self.contains(root) ==> order@.len() == 0,
            self.contains(root) ==> order@ == self.tree_order(root),
            order@.no_duplicates(),
            forall|x: ComponentId| #[trigger] order@.contains(x) <==> (self.contains(root) && self.contains(x)
                && in_subtree(self.nodes(), root@, x@)),
            forall|i: int, j: int|
                0 <= i < order@.len() && 0 <= j < order@.len() && is_ancestor(self.nodes(), #[trigger] order@[j]@, #[trigger] order@[i]@)
                    ==> j < i,
    {
        let ghost m = self.nodes();
        let mut order: Vec<ComponentId> = Vec::new();
        if self.get_component_record(root).is_none() {
            return order;
        }
        let mut stack: Vec<ComponentId> = Vec::new();
        stack.push(root);
        let ghost total = m.dom().len();
        proof {
            lemma_id_of(root, root@);
            assert(stack@.contains(root)) by {
                assert(stack@[0] == root);
            }
            assert forall|x: ComponentId| stack@.contains(x) implies x == root by {
                let i = choose|i: int| 0 <= i < stack@.len() && stack@[i] == x;
            }
            lemma_views(order@);
            lemma_views(stack@);
            assert forall|v: u64| views(order@).contains(v)
                || views(stack@).contains(v) implies m.dom().contains(v) by {
                if views(stack@).contains(v) {
                    let i = choose|i: int| 0 <= i < stack@.len() && views(stack@)[i] == v;
                    assert(stack@[i] == root);
                }
            }
            lemma_disjoint_len(views(order@), views(stack@), m.dom());
            let pre = |c: ComponentId| self.tree_order(c);
            assert(stack@.reverse() =~= seq![root]);
            assert(seq![root].drop_first() =~= Seq::<ComponentId>::empty());
            assert(concat_map(Seq::<ComponentId>::empty(), pre) =~= Seq::<ComponentId>::empty());
            assert(concat_map(seq![root], pre) == pre(root) + concat_map(seq![root].drop_first(), pre));
            assert(order@ + concat_map(stack@.reverse(), pre) =~= self.tree_order(root));
            assert forall|x: ComponentId| #[trigger] m.contains_key(x@) && in_subtree(m, root@, x@)
                && !order@.contains(x) && !stack@.contains(x)
                implies x@ != root@ && m[x@].parent is Some && !order@.contains(m[x@].parent->Some_0) by {
                lemma_id_of(x, x@);
                if x@ != root@ {
                    lemma_subtree_parent(m, root@, x@);
                }
            }
            assert forall|x: ComponentId, a: ComponentId|
                (order@.contains(x) || stack@.contains(x)) && #[trigger] is_ancestor(m, a@, x@)
                && in_subtree(m, root@, a@) implies order@.contains(a) by {
                assert(x == root);
                let n = choose|n: nat| n >= 1 && #[trigger] nth_parent(m, x@, n) == Some(a@);
                lemma_ancestor_rank(m, self.rank@, a@, x@, n);
                if a@ != root@ {
                    let n2 = choose|n2: nat| n2 >= 1 && #[trigger] nth_parent(m, a@, n2) == Some(root@);
                    lemma_ancestor_rank(m, self.rank@, root@, a@, n2);
                }
            }
        }
        while stack.len() > 0
            invariant
                self.wf(),
                m == self.nodes(),
                total == m.dom().len(),
                m.contains_key(root@),
                order@.no_duplicates(),
                stack@.no_duplicates(),
                forall|x: ComponentId| order@.contains(x) ==> !stack@.contains(x),
                forall|x: ComponentId| order@.contains(x) || stack@.contains(x) ==> m.contains_key(x@)
                    && in_subtree(m, root@, x@),
                forall|x: ComponentId, a: ComponentId|
                    (order@.contains(x) || stack@.contains(x)) && #[trigger] is_ancestor(m, a@, x@)
                    && in_subtree(m, root@, a@) ==> order@.contains(a),
                forall|i: int, j: int|
                    0 <= i < order@.len() && 0 <= j < order@.len() && is_ancestor(m, #[trigger] order@[j]@, #[trigger] order@[i]@)
                        ==> j < i,
                forall|x: ComponentId| #[trigger] m.contains_key(x@) && in_subtree(m, root@, x@)
                    && !order@.contains(x) && !stack@.contains(x)
                    ==> x@ != root@ && m[x@].parent is Some && !order@.contains(m[x@].parent->Some_0),
                order@.len() + stack@.len() <= total,
                order@ + concat_map(stack@.reverse(), |c: ComponentId| self.tree_order(c)) == self.tree_order(root),
            decreases total - order@.len(),
        {
            let ghost o0 = order@;
            let ghost s0 = stack@;
            let id = stack.pop().unwrap();
            let ghost s1 = stack@;
            proof {
                assert(s0 == s1.push(id));
                assert(s0[s0.len() - 1] == id);
                assert(s0.contains(id));
                assert(!s1.contains(id)) by {
                    if s1.contains(id) {
                        let i = choose|i: int| 0 <= i < s1.len() && s1[i] == id;
                        assert(s0[i] == id);
                    }
                }
                assert forall|x: ComponentId| s1.contains(x) implies s0.contains(x) by {
                    let i = choose|i: int| 0 <= i < s1.len() && s1[i] == x;
                    assert(s0[i] == x);
                }
            }
            order.push(id);
            let ghost o1 = order@;
            proof {
                assert(o1 == o0.push(id));
                assert forall|x: ComponentId| o1.contains(x) <==> (o0.contains(x) || x == id) by {
                    if o1.contains(x) && x != id {
                        let i = choose|i: int| 0 <= i < o1.len() && o1[i] == x;
                        assert(o0[i] == x);
                    }
                    if o0.contains(x) {
                        let i = choose|i: int| 0 <= i < o0.len() && o0[i] == x;
                        assert(o1[i] == x);
                    }
                    if x == id {
                        assert(o1[o0.len() as int] == id);
                    }
                }
                assert forall|a: int, b: int| 0 <= a < b < o1.len() implies o1[a] != o1[b] by {
                    if b == o0.len() {
                        assert(o0.contains(o1[a]));
                    }
                }
            }
            let children = self.children_of(id);
            let ghost cs = m[id@].children@;
            let nc = children.len();
            let mut c: usize = nc;
            while c > 0
                invariant
                    nc == cs.len(),
                    children@ == cs,
                    c <= nc,
                    stack@ == s1 + cs.subrange(c as int, nc as int).reverse(),
                decreases c,
            {
                c = c - 1;
                stack.push(children[c]);
                proof {
                    assert(stack@ =~= s1 + cs.subrange(c as int, nc as int).reverse());
                }
            }
            let ghost s2 = stack@;
            proof {
                lemma_id_of(id, id@);
                let rc = cs.subrange(0, nc as int).reverse();
                assert(cs.subrange(0, nc as int) =~= cs);
                assert(s2 == s1 + rc);
                assert forall|x: ComponentId| rc.contains(x) <==> cs.contains(x) by {
                    if rc.contains(x) {
                        let i = choose|i: int| 0 <= i < rc.len() && rc[i] == x;
                        assert(cs[nc - 1 - i] == x);
                    }
                    if cs.contains(x) {
                        let i = choose|i: int| 0 <= i < cs.len() && cs[i] == x;
                        assert(rc[nc - 1 - i] == x);
                    }
                }
                assert forall|x: ComponentId| cs.contains(x) implies m.contains_key(x@) && parent_key(m, x@) == Some(id@)
                    && is_ancestor(m, id@, x@) && in_subtree(m, root@, x@) by {
                    let i = choose|i: int| 0 <= i < cs.len() && cs[i] == x;
                    assert(m[id@].children@[i] == x);
                    assert(m[x@].parent == Some(id_of(id@)));
                    lemma_ancestor_extend(m, id@, x@, id@);
                    lemma_ancestor_extend(m, root@, x@, id@);
                }
                assert forall|x: ComponentId| cs.contains(x) implies !o1.contains(x) && !s1.contains(x) by {
                    if o0.contains(x) || s1.contains(x) {
                        assert(is_ancestor(m, id@, x@));
                        assert(o0.contains(id));
                    }
                    if x == id {
                        law_world_acyclic(*self, id);
                    }
                }
                assert(rc.no_duplicates()) by {
                    assert forall|a: int, b: int| 0 <= a < b < rc.len() implies rc[a] != rc[b] by {
                        assert(rc[a] == cs[nc - 1 - a]);
                        assert(rc[b] == cs[nc - 1 - b]);
                    }
                }
                assert forall|x: ComponentId| s2.contains(x) <==> (s1.contains(x) || cs.contains(x)) by {
                    if s2.contains(x) {
                        let i = choose|i: int| 0 <= i < s2.len() && s2[i] == x;
                        if i < s1.len() {
                            assert(s1[i] == x);
                        } else {
                            assert(rc[i - s1.len()] == x);
                            assert(rc.contains(x));
                        }
                    }
                    if s1.contains(x) {
                        let i = choose|i: int| 0 <= i < s1.len() && s1[i] == x;
                        assert(s2[i] == x);
                    }
                    if cs.contains(x) {
                        assert(rc.contains(x));
                        let i = choose|i: int| 0 <= i < rc.len() && rc[i] == x;
                        assert(s2[s1.len() + i] == x);
                    }
                }
                assert(s2.no_duplicates()) by {
                    assert forall|i: int, j: int| 0 <= i < s1.len() && 0 <= j < rc.len() implies s1[i] != rc[j] by {
                        assert(s1.contains(s1[i]));
                        assert(rc.contains(rc[j]));
                    }
                    vstd::seq_lib::lemma_no_dup_in_concat(s1, rc);
                }
                assert forall|x: ComponentId| o1.contains(x) implies !s2.contains(x) by {
                    if x != id {
                        assert(o0.contains(x));
                    }
                }
                assert forall|x: ComponentId, a: ComponentId|
                    (o1.contains(x) || s2.contains(x)) && #[trigger] is_ancestor(m, a@, x@) && in_subtree(m, root@, a@)
                    implies o1.contains(a) by {
                    if o0.contains(x) || s1.contains(x) || x == id {
                    } else {
                        assert(cs.contains(x));
                        lemma_ancestor_step(m, a@, x@, id@);
                        if a@ == id@ {
                            lemma_id_of(a, a@);
                        }
                    }
                }
                assert forall|i: int, j: int|
                    0 <= i < o1.len() && 0 <= j < o1.len() && is_ancestor(m, #[trigger] o1[j]@, #[trigger] o1[i]@)
                    implies j < i by {
                    if i == o0.len() {
                        if j == o0.len() {
                            law_world_acyclic(*self, id);
                        }
                    } else {
                        assert(o1[i] == o0[i]);
                        assert(o0.contains(o0[i]));
                        if j == o0.len() {
                            assert(in_subtree(m, root@, id@));
                            assert(o0.contains(id));
                        } else {
                            assert(o1[j] == o0[j]);
                        }
                    }
                }
                assert forall|x: ComponentId| #[trigger] m.contains_key(x@) && in_subtree(m, root@, x@)
                    && !o1.contains(x) && !s2.contains(x)
                    implies x@ != root@ && m[x@].parent is Some && !o1.contains(m[x@].parent->Some_0) by {
                    assert(!s0.contains(x));
                    assert(!o0.contains(x));
                    let p = m[x@].parent->Some_0;
                    if p == id {
                        assert(m[id@].children@.contains(id_of(x@)));
                        lemma_id_of(x, x@);
                    }
                }
                lemma_views(o1);
                lemma_views(s2);
                assert forall|v: u64| views(o1).contains(v)
                    || views(s2).contains(v) implies m.dom().contains(v) by {
                    if views(o1).contains(v) {
                        let i = choose|i: int| 0 <= i < o1.len() && views(o1)[i] == v;
                        assert(o1.contains(o1[i]));
                    } else {
                        let i = choose|i: int| 0 <= i < s2.len() && views(s2)[i] == v;
                        assert(s2.contains(s2[i]));
                    }
                }
                assert forall|v: u64| views(o1).contains(v)
                    implies !views(s2).contains(v) by {
                    let i = choose|i: int| 0 <= i < o1.len() && views(o1)[i] == v;
                    assert(o1.contains(o1[i]));
                    lemma_id_of(o1[i], v);
                }
                lemma_disjoint_len(views(o1), views(s2), m.dom());
                assert(rc =~= cs.reverse());
                lemma_tree_order_step(*self, o0, s1, id);
            }
        }
        proof {
            assert forall|x: ComponentId| #[trigger] order@.contains(x) <==> (self.contains(root) && self.contains(x)
                && in_subtree(m, root@, x@)) by {
                if self.contains(x) && in_subtree(m, root@, x@) {
                    lemma_subtree_reached(m, self.rank@, root@, order@, x@);
                    lemma_id_of(x, x@);
                }
            }
        }
        order
    }
}

impl Default for World {
    fn default() -> (w: Self)
        ensures
            w.wf(),
            w.nodes() == Map::<u64, ComponentNode>::empty(),
    {
        World::new()
    }
}

/// A parent ranks below its child, so walks up the tree end.
pub proof fn lemma_parent_rank(w: World, c: ComponentId)
    requires
        w.wf(),
        w.contains(c),
        w.parent(c) is Some,
    ensures
        w.spec_rank(w.parent(c)->Some_0@) < w.spec_rank(c@),
        w.contains(w.parent(c)->Some_0),
{
}

/// Filtering out an absent id changes nothing.
pub proof fn lemma_filter_absent(s: Seq<ComponentId>, x: ComponentId)
    requires
        !s.contains(x),
    ensures
        s.filter(not_id(x)) == s,
    decreases s.len(),
{
    reveal(Seq::filter);
    if s.len() > 0 {
        assert(!s.drop_last().contains(x)) by {
            if s.drop_last().contains(x) {
                let i = choose|i: int| 0 <= i < s.drop_last().len() && #[trigger] s.drop_last()[i] == x;
                assert(s[i] == x);
            }
        }
        lemma_filter_absent(s.drop_last(), x);
        assert(s.drop_last().push(s.last()) =~= s);
    }
}

/// Whether `x` occurs in `v`.
fn contains_id(v: &Vec<ComponentId>, x: ComponentId) -> (r: bool)
    ensures
        r == v@.contains(x),
{
    let n = v.len();
    let mut i: usize = 0;
    while i < n
        invariant
            n == v@.len(),
            i <= n,
            forall|j: int| 0 <= j < i ==> v@[j] != x,
        decreases n - i,
    {
        if v[i] == x {
            return true;
        }
        i = i + 1;
    }
    false
}

} // verus!
