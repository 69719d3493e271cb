//! An entity: a forest of components with entity-scoped ids, built from a
//! default root instance component.
use vstd::prelude::*;
use std::collections::HashMap;
use vstd::std_specs::hash::spec_keys_iter;
use vstd::std_specs::iter::IteratorSpec;
use crate::ecs::component::{ComponentKind, ComponentVariant, InstanceComponent};
use crate::ecs::world::{concat_map, lemma_concat_map_add};

verus! {

broadcast use vstd::std_specs::hash::group_hash_axioms;

pub type EntityId = u64;

/// Component identity scoped to a single entity.
pub type ComponentId = u32;

/// A component of an entity with its parent and children.
pub struct EntityNode {
    pub component: ComponentKind,
    pub parent: Option<ComponentId>,
    pub children: Vec<ComponentId>,
}

/// The parent of node `k` in `m`.
pub open spec fn e_parent(m: Map<u32, EntityNode>, k: u32) -> Option<u32> {
    if m.contains_key(k) {
        m[k].parent
    } else {
        None
    }
}

/// The node reached from `k` by following `n` parent links.
pub open spec fn e_nth_parent(m: Map<u32, EntityNode>, k: u32, n: nat) -> Option<u32>
    decreases n,
{
    if n == 0 {
        Some(k)
    } else {
        match e_nth_parent(m, k, (n - 1) as nat) {
            Some(j) => e_parent(m, j),
            None => None,
        }
    }
}

/// `a` is a proper ancestor of `d`.
pub open spec fn e_is_ancestor(m: Map<u32, EntityNode>, a: u32, d: u32) -> bool {
    exists|n: nat| n >= 1 && #[trigger] e_nth_parent(m, d, n) == Some(a)
}

/// `d` lies in the subtree rooted at `r` (including `r`).
pub open spec fn e_in_subtree(m: Map<u32, EntityNode>, r: u32, d: u32) -> bool {
    d == r || e_is_ancestor(m, r, d)
}

pub open spec fn e_links_ok(m: Map<u32, EntityNode>) -> bool {
    &&& m.dom().finite()
    &&& forall|k: u32|
        #[trigger] m.contains_key(k) && m[k].parent is Some ==> {
            let p = m[k].parent->Some_0;
            m.contains_key(p) && m[p].children@.contains(k)
        }
    &&& forall|k: u32, i: int|
        m.contains_key(k) && 0 <= i < m[k].children@.len() ==> {
            let c = #[trigger] m[k].children@[i];
            m.contains_key(c) && m[c].parent == Some(k)
        }
    &&& forall|k: u32| #[trigger] m.contains_key(k) ==> m[k].children@.no_duplicates()
}

pub open spec fn e_ranked(m: Map<u32, EntityNode>, rank: spec_fn(u32) -> nat) -> bool {
    forall|k: u32|
        #[trigger] m.contains_key(k) && m[k].parent is Some ==> rank(m[k].parent->Some_0) < rank(k)
}

pub proof fn lemma_e_none_persists(m: Map<u32, EntityNode>, k: u32, n: nat, j: nat)
    requires
        e_nth_parent(m, k, n) is None,
        n <= j,
    ensures
        e_nth_parent(m, k, j) is None,
    decreases j - n,
{
    if n < j {
        lemma_e_none_persists(m, k, n, (j - 1) as nat);
    }
}

pub proof fn lemma_e_shift(m: Map<u32, EntityNode>, k: u32, p: u32, n: nat)
    requires
        e_parent(m, k) == Some(p),
    ensures
        e_nth_parent(m, k, n + 1) == e_nth_parent(m, p, n),
    decreases n,
{
    if n > 0 {
        lemma_e_shift(m, k, p, (n - 1) as nat);
        assert(e_nth_parent(m, k, n + 1) == match e_nth_parent(m, k, n) {
            Some(j) => e_parent(m, j),
            None => None,
        });
        assert(e_nth_parent(m, p, n) == match e_nth_parent(m, p, (n - 1) as nat) {
            Some(j) => e_parent(m, j),
            None => None,
        });
    } else {
        assert(e_nth_parent(m, k, 1) == match e_nth_parent(m, k, 0) {
            Some(j) => e_parent(m, j),
            None => None,
        });
    }
}

pub proof fn lemma_e_first_step(m: Map<u32, EntityNode>, k: u32)
    ensures
        e_nth_parent(m, k, 1) == e_parent(m, k),
{
    assert(e_nth_parent(m, k, 1) == match e_nth_parent(m, k, 0) {
        Some(j) => e_parent(m, j),
        None => None,
    });
}

/// Filtering out an absent id changes nothing.
pub proof fn lemma_filter_absent_u32(s: Seq<u32>, x: u32)
    requires
        !s.contains(x),
    ensures
        s.filter(not_u32(x)) == s,
    decreases s.len(),
{
    reveal(Seq::filter);
    if s.len() > 0 {
        assert(!s.drop_last().contains(x)) by {
            if s.drop_last().contains(x) {
                let i = choose|i: int| 0 <= i < s.drop_last().len() && #[trigger] s.drop_last()[i] == x;
                assert(s[i] == x);
            }
        }
        lemma_filter_absent_u32(s.drop_last(), x);
        assert(s.drop_last().push(s.last()) =~= s);
    }
}

pub open spec fn not_u32(x: u32) -> spec_fn(u32) -> bool {
    |c: u32| c != x
}

/// A copy of `v` without the occurrences of `x`, order kept.
pub fn without_u32(v: &Vec<u32>, x: u32) -> (r: Vec<u32>)
    ensures
        r@ == v@.filter(not_u32(x)),
        forall|y: u32| r@.contains(y) <==> (v@.contains(y) && y != x),
        v@.no_duplicates() ==> r@.no_duplicates(),
{
    let mut r: Vec<u32> = Vec::new();
    let n = v.len();
    let mut i: usize = 0;
    while i < n
        invariant
            n == v@.len(),
            i <= n,
            r@ == v@.take(i as int).filter(not_u32(x)),
            forall|y: u32| r@.contains(y) <==> (v@.take(i as int).contains(y) && y != x),
            v@.no_duplicates() ==> r@.no_duplicates(),
        decreases n - i,
    {
        let y = v[i];
        let ghost r0 = r@;
        proof {
            broadcast use vstd::seq_lib::group_seq_properties;
            assert(v@.take(i + 1) =~= v@.take(i as int).push(y));
            v@.take(i as int).lemma_filter_push(y, not_u32(x));
        }
        if y != x {
            proof {
                if v@.no_duplicates() {
                    assert(!v@.take(i as int).contains(y));
                }
            }
            r.push(y);
            proof {
                broadcast use vstd::seq_lib::group_seq_properties;
                assert(r@ == r0.push(y));
                if v@.no_duplicates() {
                    assert(!r0.contains(y));
                    assert forall|a: int, b: int| 0 <= a < b < r@.len() implies r@[a] != r@[b] by {
                        if b == r@.len() - 1 {
                            assert(r0.contains(r@[a]));
                        }
                    }
                }
            }
        }
        proof {
            broadcast use vstd::seq_lib::group_seq_properties;
            assert forall|z: u32| r@.contains(z) <==> (v@.take(i + 1).contains(z) && z != x) by {
                if v@.take(i + 1).contains(z) && z != x && z != y {
                    let t1 = v@.take(i + 1);
                    let k = choose|k: int| 0 <= k < t1.len() && #[trigger] t1[k] == z;
                    assert(v@.take(i as int)[k] == z);
                }
                if v@.take(i as int).contains(z) {
                    let t0 = v@.take(i as int);
                    let k = choose|k: int| 0 <= k < t0.len() && #[trigger] t0[k] == z;
                    assert(v@.take(i + 1)[k] == z);
                }
            }
        }
        i = i + 1;
    }
    assert(v@.take(n as int) =~= v@);
    r
}

/// Whether `x` occurs in `v`.
pub fn contains_u32(v: &Vec<u32>, x: u32) -> (r: bool)
    ensures
        r == v@.contains(x),
{
    let n = v.len();
    let mut i: usize = 0;
    while i < n
        invariant
            n == v@.len(),
            i <= n,
            forall|j: int| 0 <= j < i ==> v@[j] != x,
        decreases n - i,
    {
        if v[i] == x {
            return true;
        }
        i = i + 1;
    }
    false
}

pub struct Entity {
    pub id: EntityId,
    next_component_id: ComponentId,
    /// Root component ids (a forest).
    roots: Vec<ComponentId>,
    /// Nodes by id (roots and all descendants).
    nodes: HashMap<ComponentId, EntityNode>,
    /// Builder cursor: where `with_component` attaches.
    active_root: Option<ComponentId>,
    rank: Ghost<spec_fn(u32) -> nat>,
}

impl Entity {
    pub closed spec fn spec_id(&self) -> EntityId {
        self.id
    }

    pub closed spec fn nodes(&self) -> Map<u32, EntityNode> {
        self.nodes@
    }

    pub closed spec fn spec_roots(&self) -> Seq<u32> {
        self.roots@
    }

    pub closed spec fn spec_active_root(&self) -> Option<u32> {
        self.active_root
    }

    /// The id the next allocation hands out.
    pub closed spec fn next_id(&self) -> u32 {
        self.next_component_id
    }

    pub closed spec fn wf(&self) -> bool {
        &&& e_links_ok(self.nodes@)
        &&& e_ranked(self.nodes@, self.rank@)
        &&& forall|k: u32| #[trigger] self.nodes@.contains_key(k) ==> k < self.next_component_id
        &&& self.roots@.no_duplicates()
        &&& forall|i: int| 0 <= i < self.roots@.len() ==> self.nodes@.contains_key(#[trigger] self.roots@[i])
            && self.nodes@[self.roots@[i]].parent is None
        &&& forall|k: u32| #[trigger] self.nodes@.contains_key(k) && self.nodes@[k].parent is None ==> self.roots@.contains(k)
    }

    pub open spec fn contains(&self, c: u32) -> bool {
        self.nodes().contains_key(c)
    }

    pub open spec fn parent(&self, c: u32) -> Option<u32> {
        self.nodes()[c].parent
    }

    pub open spec fn children(&self, c: u32) -> Seq<u32> {
        self.nodes()[c].children@
    }

    pub open spec fn component(&self, c: u32) -> ComponentKind {
        self.nodes()[c].component
    }

    /// Every node other than `changed` is as it was.
    pub open spec fn others_unchanged(&self, old: Entity, changed: u32) -> bool {
        forall|k: u32| #[trigger] old.nodes().contains_key(k) && k != changed ==> self.nodes()[k] == old.nodes()[k]
    }

    /// A new entity that starts with one root instance component (id 0),
    /// which is also the active root.
    pub fn new(id: EntityId) -> (e: Self)
        ensures
            e.wf(),
            e.spec_id() == id,
            e.nodes().dom() == Set::<u32>::empty().insert(0),
            e.component(0) == ComponentKind::Instance(InstanceComponent { handle: None }),
            e.parent(0) is None,
            e.children(0).len() == 0,
            e.spec_roots() == seq![0u32],
            e.spec_active_root() == Some(0u32),
            e.next_id() == 1,
    {
        let mut e = Entity {
            id,
            next_component_id: 0,
            roots: Vec::new(),
            nodes: HashMap::new(),
            active_root: None,
            rank: Ghost(|k: u32| 0nat),
        };
        proof {
            assert(e.nodes@ =~= Map::<u32, EntityNode>::empty());
        }
        let root = e.add_root(ComponentKind::Instance(InstanceComponent::default()));
        e.active_root = Some(root);
        proof {
            assert(e.nodes@.dom() =~= Set::<u32>::empty().insert(0));
            assert(e.roots@ =~= seq![0u32]);
        }
        e
    }

    /// Hand out the next entity-scoped id (wrapping after the last one).
    pub fn alloc_component_id(&mut self) -> (r: ComponentId)
        ensures
            r == old(self).next_id(),
            final(self).next_id() == (if old(self).next_id() < u32::MAX { (old(self).next_id() + 1) as u32 } else { 0 }),
            final(self).nodes() == old(self).nodes(),
            final(self).spec_roots() == old(self).spec_roots(),
            final(self).spec_active_root() == old(self).spec_active_root(),
            final(self).spec_id() == old(self).spec_id(),
            old(self).wf() && old(self).next_id() < u32::MAX ==> final(self).wf(),
    {
        let id = self.next_component_id;
        self.next_component_id = self.next_component_id.wrapping_add(1);
        id
    }

    /// Add a new root component; it becomes the active root.
    #[verifier::spinoff_prover]
    pub fn add_root(&mut self, c: ComponentKind) -> (cid: ComponentId)
        requires
            old(self).wf(),
            old(self).next_id() < u32::MAX,
        ensures
            final(self).wf(),
            cid == old(self).next_id(),
            final(self).next_id() == old(self).next_id() + 1,
            !old(self).contains(cid),
            final(self).nodes().dom() == old(self).nodes().dom().insert(cid),
            final(self).others_unchanged(*old(self), cid),
            final(self).component(cid) == c,
            final(self).parent(cid) is None,
            final(self).children(cid).len() == 0,
            final(self).spec_roots() == old(self).spec_roots().push(cid),
            final(self).spec_active_root() == Some(cid),
            final(self).spec_id() == old(self).spec_id(),
    {
        let ghost m = self.nodes@;
        let ghost r0 = self.roots@;
        let cid = self.alloc_component_id();
        self.nodes.insert(cid, EntityNode { component: c, parent: None, children: Vec::new() });
        self.roots.push(cid);
        self.active_root = Some(cid);
        proof {
            let m2 = self.nodes@;
            assert(m2.dom() =~= m.dom().insert(cid));
            assert(!m.contains_key(cid));
            assert(!r0.contains(cid));
            assert forall|k: u32| #[trigger] m2.contains_key(k) && m2[k].parent is Some implies {
                let p = m2[k].parent->Some_0;
                m2.contains_key(p) && m2[p].children@.contains(k)
            } by {
                assert(m.contains_key(m[k].parent->Some_0));
            }
            assert forall|k: u32, i: int| m2.contains_key(k) && 0 <= i < m2[k].children@.len() implies {
                let x = #[trigger] m2[k].children@[i];
                m2.contains_key(x) && m2[x].parent == Some(k)
            } by {
                assert(k != cid);
                assert(m.contains_key(m[k].children@[i]));
            }
            assert forall|a: int, b: int| 0 <= a < b < self.roots@.len() implies self.roots@[a] != self.roots@[b] by {
                if b == self.roots@.len() - 1 {
                    assert(r0.contains(self.roots@[a]));
                }
            }
            assert forall|i: int| 0 <= i < self.roots@.len() implies self.nodes@.contains_key(#[trigger] self.roots@[i])
                && self.nodes@[self.roots@[i]].parent is None by {
                if i < r0.len() {
                    assert(self.roots@[i] == r0[i]);
                }
            }
            assert forall|k: u32| #[trigger] m2.contains_key(k) && m2[k].parent is None implies self.roots@.contains(k) by {
                if k == cid {
                    assert(self.roots@[r0.len() as int] == cid);
                } else {
                    let i = choose|i: int| 0 <= i < r0.len() && #[trigger] r0[i] == k;
                    assert(self.roots@[i] == k);
                }
            }
        }
        cid
    }

    /// Add a child component under `parent` and return its id.
    #[verifier::spinoff_prover]
    #[verifier::rlimit(40)]
    pub fn add_child(&mut self, parent: ComponentId, c: ComponentKind) -> (cid: ComponentId)
        requires
            old(self).wf(),
            old(self).next_id() < u32::MAX,
            old(self).contains(parent),
        ensures
            final(self).wf(),
            cid == old(self).next_id(),
            final(self).next_id() == old(self).next_id() + 1,
            !old(self).contains(cid),
            final(self).nodes().dom() == old(self).nodes().dom().insert(cid),
            forall|k: u32| #[trigger] old(self).nodes().contains_key(k) && k != parent
                ==> final(self).nodes()[k] == old(self).nodes()[k],
            final(self).component(parent) == old(self).component(parent),
            final(self).parent(parent) == old(self).parent(parent),
            final(self).children(parent) == old(self).children(parent).push(cid),
            final(self).component(cid) == c,
            final(self).parent(cid) == Some(parent),
            final(self).children(cid).len() == 0,
            final(self).spec_roots() == old(self).spec_roots(),
            final(self).spec_active_root() == old(self).spec_active_root(),
            final(self).spec_id() == old(self).spec_id(),
    {
        let ghost m = self.nodes@;
        let ghost r0 = self.rank@;
        let cid = self.alloc_component_id();
        self.nodes.insert(cid, EntityNode { component: c, parent: Some(parent), children: Vec::new() });
        let mut p = self.nodes.remove(&parent).unwrap();
        p.children.push(cid);
        self.nodes.insert(parent, p);
        proof {
            let m2 = self.nodes@;
            assert(!m.contains_key(cid));
            assert(m2.dom() =~= m.dom().insert(cid));
            assert(!m[parent].children@.contains(cid)) by {
                if m[parent].children@.contains(cid) {
                    let i = choose|i: int| 0 <= i < m[parent].children@.len() && #[trigger] m[parent].children@[i] == cid;
                }
            }
            assert forall|k: u32| #[trigger] m2.contains_key(k) && m2[k].parent is Some implies {
                let pp = m2[k].parent->Some_0;
                m2.contains_key(pp) && m2[pp].children@.contains(k)
            } by {
                if k == cid {
                    assert(m2[parent].children@[m2[parent].children@.len() - 1] == cid);
                } else {
                    let pp = m[k].parent->Some_0;
                    assert(m[pp].children@.contains(k));
                    if pp == parent {
                        let i = choose|i: int| 0 <= i < m[parent].children@.len() && #[trigger] m[parent].children@[i] == k;
                        assert(m2[parent].children@[i] == k);
                    }
                }
            }
            assert forall|k: u32, i: int| m2.contains_key(k) && 0 <= i < m2[k].children@.len() implies {
                let x = #[trigger] m2[k].children@[i];
                m2.contains_key(x) && m2[x].parent == Some(k)
            } by {
                if k == parent && i == m2[k].children@.len() - 1 {
                } else {
                    assert(k != cid);
                    assert(m[k].children@[i] == m2[k].children@[i]);
                    assert(m.contains_key(m[k].children@[i]));
                }
            }
            assert forall|k: u32| #[trigger] m2.contains_key(k) implies m2[k].children@.no_duplicates() by {
                if k == parent {
                    assert forall|a: int, b: int| 0 <= a < b < m2[k].children@.len() implies m2[k].children@[a] != m2[k].children@[b] by {
                        if b == m2[k].children@.len() - 1 {
                            assert(m[parent].children@.contains(m2[k].children@[a]));
                        }
                    }
                }
            }
            assert(e_links_ok(m2));
            let r2 = |k: u32| if k == cid { r0(parent) + 1 } else { r0(k) };
            assert(e_ranked(m2, r2));
            assert forall|i: int| 0 <= i < self.roots@.len() implies self.nodes@.contains_key(#[trigger] self.roots@[i])
                && self.nodes@[self.roots@[i]].parent is None by {
                assert(m.contains_key(self.roots@[i]));
            }
        }
        self.rank = Ghost(|k: u32| if k == cid { r0(parent) + 1 } else { r0(k) });
        cid
    }
}


impl Entity {
    /// The component stored under `cid`, mutably, if any.
    pub fn get_component_by_id_mut(&mut self, cid: ComponentId) -> (r: Option<&mut ComponentKind>)
        requires
            old(self).wf(),
        ensures
            r is Some <==> old(self).contains(cid),
            r is Some ==> *r->Some_0 == old(self).component(cid),
            r is Some ==> final(self).nodes() == old(self).nodes().insert(
                cid,
                EntityNode { component: *final(r->Some_0), ..old(self).nodes()[cid] },
            ),
            r is None ==> final(self).nodes() == old(self).nodes(),
            final(self).spec_roots() == old(self).spec_roots(),
            final(self).spec_active_root() == old(self).spec_active_root(),
            final(self).next_id() == old(self).next_id(),
            final(self).spec_id() == old(self).spec_id(),
            final(self).wf(),
    {
        match self.nodes.entry(cid) {
            std::collections::hash_map::Entry::Occupied(o) => {
                let node = o.into_mut();
                Some(&mut node.component)
            },
            std::collections::hash_map::Entry::Vacant(_) => None,
        }
    }
}


impl Entity {
    /// The ids of all nodes, each once, in the map's walking order.
    fn node_ids(&self) -> (r: Vec<ComponentId>)
        ensures
            r@.no_duplicates(),
            r@.to_set() == self.nodes().dom(),
            forall|k: u32| #[trigger] r@.contains(k) <==> self.contains(k),
    {
        let mut r: Vec<ComponentId> = Vec::new();
        for k in it: self.nodes.keys()
            invariant
                it.seq() == spec_keys_iter(&self.nodes).remaining(),
                r@ == it.seq().take(it.index() as int).unref(),
        {
            r.push(*k);
        }
        proof {
            let ks = spec_keys_iter(&self.nodes).remaining();
            assert(ks.take(ks.len() as int) =~= ks);
            assert(r@ =~= ks.unref());
        }
        r
    }
}


impl Entity {
    /// `self` is `old` with a new child `cid` holding `c` attached last under
    /// `parent`; nothing else changed.
    pub open spec fn child_added(self, old: Entity, parent: u32, cid: u32, c: ComponentKind) -> bool {
        &&& cid == old.next_id()
        &&& self.next_id() == old.next_id() + 1
        &&& !old.contains(cid)
        &&& self.nodes().dom() == old.nodes().dom().insert(cid)
        &&& forall|k: u32| #[trigger] old.nodes().contains_key(k) && k != parent ==> self.nodes()[k] == old.nodes()[k]
        &&& self.component(parent) == old.component(parent)
        &&& self.parent(parent) == old.parent(parent)
        &&& self.children(parent) == old.children(parent).push(cid)
        &&& self.component(cid) == c
        &&& self.parent(cid) == Some(parent)
        &&& self.children(cid).len() == 0
        &&& self.spec_roots() == old.spec_roots()
        &&& self.spec_active_root() == old.spec_active_root()
        &&& self.spec_id() == old.spec_id()
    }

    /// Where components added "under the active root" go: the active root,
    /// else the first root.
    pub open spec fn attach_point(&self) -> Option<u32> {
        match self.spec_active_root() {
            Some(r) => Some(r),
            None => if self.spec_roots().len() > 0 {
                Some(self.spec_roots()[0])
            } else {
                None
            },
        }
    }

    /// The active root, if any.
    pub fn active_root(&self) -> (r: Option<ComponentId>)
        ensures
            r == self.spec_active_root(),
    {
        self.active_root
    }

    /// Make `root` the active root; it must be one of the roots.
    pub fn set_active_root(&mut self, root: ComponentId)
        requires
            old(self).spec_roots().contains(root),
        ensures
            final(self).spec_active_root() == Some(root),
            final(self).nodes() == old(self).nodes(),
            final(self).spec_roots() == old(self).spec_roots(),
            final(self).next_id() == old(self).next_id(),
            final(self).spec_id() == old(self).spec_id(),
            old(self).wf() ==> final(self).wf(),
    {
        if !contains_u32(&self.roots, root) {
            proof {
                assert(false);
            }
        }
        self.active_root = Some(root);
    }

    /// Builder style: attach `c` as a child of the active root.
    pub fn with_component(self, c: ComponentKind) -> (e: Self)
        requires
            self.wf(),
            self.next_id() < u32::MAX,
            self.spec_active_root() is Some,
            self.contains(self.spec_active_root()->Some_0),
        ensures
            e.wf(),
            e.child_added(self, self.spec_active_root()->Some_0, self.next_id(), c),
    {
        let mut e = self;
        let parent = match e.active_root {
            Some(p) => p,
            None => vstd::pervasive::unreached(),
        };
        e.add_child(parent, c);
        e
    }

    /// Insert `c` as a child under `parent`; returns the new id and the
    /// stored component, for further setup.
    pub fn add_child_boxed_and_get_mut(&mut self, parent: ComponentId, c: ComponentKind) -> (r: (ComponentId, &mut ComponentKind))
        requires
            old(self).wf(),
            old(self).next_id() < u32::MAX,
            old(self).contains(parent),
        ensures
            *r.1 == c,
            final(self).wf(),
            r.0 == old(self).next_id(),
            final(self).next_id() == old(self).next_id() + 1,
            !old(self).contains(r.0),
            final(self).nodes().dom() == old(self).nodes().dom().insert(r.0),
            forall|k: u32| #[trigger] old(self).nodes().contains_key(k) && k != parent ==> final(self).nodes()[k] == old(self).nodes()[k],
            final(self).component(parent) == old(self).component(parent),
            final(self).parent(parent) == old(self).parent(parent),
            final(self).children(parent) == old(self).children(parent).push(r.0),
            final(self).component(r.0) == *final(r.1),
            final(self).parent(r.0) == Some(parent),
            final(self).children(r.0).len() == 0,
            final(self).spec_roots() == old(self).spec_roots(),
            final(self).spec_active_root() == old(self).spec_active_root(),
            final(self).spec_id() == old(self).spec_id(),
            final(self).child_added(*old(self), parent, r.0, *final(r.1)),
    {
        let cid = self.add_child(parent, c);
        match self.get_component_by_id_mut(cid) {
            Some(r) => (cid, r),
            None => vstd::pervasive::unreached(),
        }
    }

    /// Insert `c` under the active root (or the first root when none is
    /// active); returns the new id and the stored component.
    pub fn add_under_active_root_boxed_and_get_mut(&mut self, c: ComponentKind) -> (r: (ComponentId, &mut ComponentKind))
        requires
            old(self).wf(),
            old(self).next_id() < u32::MAX,
            old(self).attach_point() is Some,
            old(self).contains(old(self).attach_point()->Some_0),
        ensures
            *r.1 == c,
            final(self).wf(),
            final(self).child_added(*old(self), old(self).attach_point()->Some_0, r.0, *final(r.1)),
    {
        let parent = match self.active_root {
            Some(p) => p,
            None => self.roots[0],
        };
        self.add_child_boxed_and_get_mut(parent, c)
    }

    /// The ids of all nodes, each once, in no particular order; write to a
    /// node's component through `get_component_by_id_mut`.
    pub fn iter_components_mut(&self) -> (r: Vec<ComponentId>)
        ensures
            r@.no_duplicates(),
            forall|c: ComponentId| #[trigger] r@.contains(c) <==> self.contains(c),
    {
        let mut r: Vec<ComponentId> = Vec::new();
        for k in it: self.nodes.keys()
            invariant
                it.seq() == spec_keys_iter(&self.nodes).remaining(),
                r@ == it.seq().take(it.index() as int).unref(),
        {
            r.push(*k);
        }
        proof {
            let ks = spec_keys_iter(&self.nodes).remaining();
            assert(ks.take(ks.len() as int) =~= ks);
            assert(r@ =~= ks.unref());
            assert forall|c: ComponentId| #[trigger] r@.contains(c) <==> self.contains(c) by {
                assert(r@.to_set().contains(c) <==> r@.contains(c));
            }
        }
        r
    }

    /// The root ids, in the order they were added.
    pub fn roots(&self) -> (r: &[ComponentId])
        ensures
            r@ == self.spec_roots(),
    {
        self.roots.as_slice()
    }

    /// The component stored under `cid`, if any.
    pub fn get_component_by_id(&self, cid: ComponentId) -> (r: Option<&ComponentKind>)
        ensures
            match r {
                Some(c) => self.contains(cid) && *c == self.component(cid),
                None => !self.contains(cid),
            },
    {
        match self.nodes.get(&cid) {
            Some(n) => Some(&n.component),
            None => None,
        }
    }

    /// The component stored under `cid`, if it exists and is a `T`.
    pub fn get_component_by_id_as<T: ComponentVariant>(&self, cid: ComponentId) -> (r: Option<&T>)
        ensures
            match r {
                Some(t) => self.contains(cid) && T::variant_of(self.component(cid)) == Some(*t),
                None => !self.contains(cid) || T::variant_of(self.component(cid)) is None,
            },
    {
        match self.nodes.get(&cid) {
            Some(n) => T::from_kind(&n.component),
            None => None,
        }
    }

    /// The component stored under `cid`, mutably, if it exists and is a `T`.
    pub fn get_component_by_id_as_mut<T: ComponentVariant>(&mut self, cid: ComponentId) -> (r: Option<&mut T>)
        requires
            old(self).wf(),
        ensures
            r is Some <==> old(self).contains(cid) && T::variant_of(old(self).component(cid)) is Some,
            r is Some ==> T::variant_of(old(self).component(cid)) == Some(*r->Some_0)
                && T::variant_of(final(self).component(cid)) == Some(*final(r->Some_0)),
            final(self).nodes().dom() == old(self).nodes().dom(),
            forall|k: u32| #[trigger] old(self).nodes().contains_key(k) && k != cid ==> final(self).nodes()[k] == old(self).nodes()[k],
            old(self).contains(cid) ==> final(self).parent(cid) == old(self).parent(cid)
                && final(self).children(cid) == old(self).children(cid),
            r is None ==> final(self).nodes() == old(self).nodes(),
            final(self).spec_roots() == old(self).spec_roots(),
            final(self).spec_active_root() == old(self).spec_active_root(),
            final(self).next_id() == old(self).next_id(),
            final(self).spec_id() == old(self).spec_id(),
            final(self).wf(),
    {
        match self.nodes.entry(cid) {
            std::collections::hash_map::Entry::Occupied(o) => {
                let node = o.into_mut();
                T::from_kind_mut(&mut node.component)
            },
            std::collections::hash_map::Entry::Vacant(_) => None,
        }
    }

    /// Parent of `cid`; `None` for a root or a missing id.
    pub fn parent_of(&self, cid: ComponentId) -> (r: Option<ComponentId>)
        ensures
            r == (if self.contains(cid) { self.parent(cid) } else { None }),
    {
        match self.nodes.get(&cid) {
            Some(n) => n.parent,
            None => None,
        }
    }

    /// The parent of `cid` with its component, if it exists and is a `T`.
    pub fn get_parent_as<T: ComponentVariant>(&self, cid: ComponentId) -> (r: Option<(ComponentId, &T)>)
        requires
            self.wf(),
        ensures
            match r {
                Some((p, t)) => self.contains(cid) && self.parent(cid) == Some(p)
                    && T::variant_of(self.component(p)) == Some(*t),
                None => !self.contains(cid) || self.parent(cid) is None
                    || T::variant_of(self.component(self.parent(cid)->Some_0)) is None,
            },
    {
        let parent_id = match self.parent_of(cid) {
            Some(p) => p,
            None => return None,
        };
        match self.get_component_by_id_as::<T>(parent_id) {
            Some(t) => Some((parent_id, t)),
            None => None,
        }
    }

    /// The parent of `cid` with its component, mutably, if it is a `T`.
    pub fn get_parent_as_mut<T: ComponentVariant>(&mut self, cid: ComponentId) -> (r: Option<(ComponentId, &mut T)>)
        requires
            old(self).wf(),
        ensures
            r is Some <==> old(self).contains(cid) && old(self).parent(cid) is Some
                && T::variant_of(old(self).component(old(self).parent(cid)->Some_0)) is Some,
            r is Some ==> ({
                let p = r->Some_0.0;
                &&& old(self).parent(cid) == Some(p)
                &&& T::variant_of(old(self).component(p)) == Some(*r->Some_0.1)
                &&& T::variant_of(final(self).component(p)) == Some(*final(r->Some_0.1))
                &&& final(self).parent(p) == old(self).parent(p)
                &&& final(self).children(p) == old(self).children(p)
                &&& forall|k: u32| #[trigger] old(self).nodes().contains_key(k) && k != p ==> final(self).nodes()[k] == old(self).nodes()[k]
            }),
            final(self).nodes().dom() == old(self).nodes().dom(),
            r is None ==> final(self).nodes() == old(self).nodes(),
            final(self).spec_roots() == old(self).spec_roots(),
            final(self).spec_active_root() == old(self).spec_active_root(),
            final(self).next_id() == old(self).next_id(),
            final(self).spec_id() == old(self).spec_id(),
            final(self).wf(),
    {
        let parent_id = match self.parent_of(cid) {
            Some(p) => p,
            None => return None,
        };
        match self.get_component_by_id_as_mut::<T>(parent_id) {
            Some(t) => Some((parent_id, t)),
            None => None,
        }
    }

    /// Child ids of `cid`, in insertion order; empty for a missing id.
    pub fn children_of(&self, cid: ComponentId) -> (r: &[ComponentId])
        ensures
            r@ == (if self.contains(cid) { self.children(cid) } else { Seq::<ComponentId>::empty() }),
    {
        match self.nodes.get(&cid) {
            Some(n) => n.children.as_slice(),
            None => &[],
        }
    }
}


/// `m2` is `m` after the subtree rooted at `r` has been deleted and `r`
/// unlinked from its parent.
pub open spec fn e_subtree_removed(m: Map<u32, EntityNode>, m2: Map<u32, EntityNode>, r: u32) -> bool {
    &&& forall|k: u32| #[trigger] m2.contains_key(k) <==> (m.contains_key(k) && !e_in_subtree(m, r, k))
    &&& forall|k: u32| #[trigger] m2.contains_key(k) ==> m2[k].component == m[k].component
        && m2[k].parent == m[k].parent
    &&& forall|k: u32| #[trigger] m2.contains_key(k) ==> m2[k].children@ == (if e_parent(m, r) == Some(k) {
        m[k].children@.filter(not_u32(r))
    } else {
        m[k].children@
    })
}

impl Entity {
    /// Whether `a` is a proper ancestor of `d`.
    fn has_ancestor(&self, a: ComponentId, d: ComponentId) -> (r: bool)
        requires
            self.wf(),
        ensures
            r == e_is_ancestor(self.nodes(), a, d),
    {
        let ghost m = self.nodes();
        let mut cur = d;
        let ghost mut steps: nat = 0;
        loop
            invariant
                self.wf(),
                m == self.nodes(),
                e_nth_parent(m, d, steps) == Some(cur),
                forall|j: nat| 1 <= j <= steps ==> e_nth_parent(m, d, j) != Some(a),
            decreases (self.rank@)(cur),
        {
            match self.parent_of(cur) {
                None => {
                    proof {
                        assert(e_nth_parent(m, d, steps + 1) is None);
                        assert forall|n: nat| n >= 1 implies #[trigger] e_nth_parent(m, d, n) != Some(a) by {
                            if n > steps {
                                lemma_e_none_persists(m, d, steps + 1, n);
                            }
                        }
                    }
                    return false;
                },
                Some(p) => {
                    proof {
                        assert(e_nth_parent(m, d, steps + 1) == Some(p));
                    }
                    if p == a {
                        return true;
                    }
                    proof {
                        assert(m.contains_key(cur));
                        steps = steps + 1;
                    }
                    cur = p;
                },
            }
        }
    }

    /// Remove `cid` and all its descendants, unlinking it from its parent
    /// (or from the roots). Returns whether `cid` existed.
    #[verifier::spinoff_prover]
    pub fn remove_component(&mut self, cid: ComponentId) -> (r: bool)
        requires
            old(self).wf(),
        ensures
            r == old(self).contains(cid),
            final(self).wf(),
            !r ==> final(self).nodes() == old(self).nodes() && final(self).spec_roots() == old(self).spec_roots(),
            r ==> e_subtree_removed(old(self).nodes(), final(self).nodes(), cid),
            r ==> final(self).spec_roots() == (if old(self).parent(cid) is None {
                old(self).spec_roots().filter(not_u32(cid))
            } else {
                old(self).spec_roots()
            }),
            final(self).spec_active_root() == old(self).spec_active_root(),
            final(self).next_id() == old(self).next_id(),
            final(self).spec_id() == old(self).spec_id(),
    {
        let ghost m = self.nodes();
        let ghost roots0 = self.roots@;
        let parent = match self.nodes.get(&cid) {
            None => return false,
            Some(n) => n.parent,
        };
        let ids = self.node_ids();
        let mut doomed: Vec<ComponentId> = Vec::new();
        let n = ids.len();
        let mut i: usize = 0;
        while i < n
            invariant
                self.wf(),
                self.nodes() == m,
                n == ids@.len(),
                i <= n,
                forall|k: u32| #[trigger] ids@.contains(k) <==> m.contains_key(k),
                forall|x: u32| doomed@.contains(x) <==> (ids@.take(i as int).contains(x) && e_in_subtree(m, cid, x)),
            decreases n - i,
        {
            let id = ids[i];
            proof {
                broadcast use vstd::seq_lib::group_seq_properties;
                assert(ids@.take(i + 1) =~= ids@.take(i as int).push(id));
            }
            if id == cid || self.has_ancestor(cid, id) {
                doomed.push(id);
            }
            proof {
                broadcast use vstd::seq_lib::group_seq_properties;
                assert forall|x: u32| doomed@.contains(x) <==> (ids@.take(i + 1).contains(x) && e_in_subtree(m, cid, x)) by {
                    if ids@.take(i + 1).contains(x) && x != id {
                        let t1 = ids@.take(i + 1);
                        let k = choose|k: int| 0 <= k < t1.len() && #[trigger] t1[k] == x;
                        assert(ids@.take(i as int)[k] == x);
                    }
                    if ids@.take(i as int).contains(x) {
                        let t0 = ids@.take(i as int);
                        let k = choose|k: int| 0 <= k < t0.len() && #[trigger] t0[k] == x;
                        assert(ids@.take(i + 1)[k] == x);
                    }
                }
            }
            i = i + 1;
        }
        proof {
            assert(ids@.take(n as int) =~= ids@);
        }
        match parent {
            Some(p) => {
                let mut pn = self.nodes.remove(&p).unwrap();
                pn.children = without_u32(&pn.children, cid);
                self.nodes.insert(p, pn);
            },
            None => {
                self.roots = without_u32(&self.roots, cid);
            },
        }
        let ghost m1 = self.nodes();
        let ghost roots1 = self.roots@;
        let ghost rank0 = self.rank@;
        let ghost next0 = self.next_component_id;
        let ghost active0 = self.active_root;
        let ghost id0 = self.id;
        proof {
            assert(m1.dom() =~= m.dom());
        }
        let nd = doomed.len();
        let mut j: usize = 0;
        while j < nd
            invariant
                nd == doomed@.len(),
                j <= nd,
                self.roots@ == roots1,
                self.rank@ == rank0,
                self.next_component_id == next0,
                self.active_root == active0,
                self.id == id0,
                forall|k: u32| #[trigger] self.nodes@.contains_key(k) <==> (m1.contains_key(k) && !doomed@.take(j as int).contains(k)),
                forall|k: u32| #[trigger] self.nodes@.contains_key(k) ==> self.nodes@[k] == m1[k],
            decreases nd - j,
        {
            let d = doomed[j];
            proof {
                broadcast use vstd::seq_lib::group_seq_properties;
                assert(doomed@.take(j + 1) =~= doomed@.take(j as int).push(d));
            }
            let ghost before = self.nodes@;
            let _ = self.nodes.remove(&d);
            proof {
                broadcast use vstd::seq_lib::group_seq_properties;
                assert(self.nodes@ == before.remove(d));
                assert forall|k: u32| #[trigger] self.nodes@.contains_key(k) implies self.nodes@[k] == m1[k] by {
                    assert(before.contains_key(k));
                }
                assert forall|k: u32| #[trigger] self.nodes@.contains_key(k) <==> (m1.contains_key(k) && !doomed@.take(j + 1).contains(k)) by {
                    assert(before.contains_key(k) <==> (m1.contains_key(k) && !doomed@.take(j as int).contains(k)));
                    if doomed@.take(j as int).contains(k) {
                        let t0 = doomed@.take(j as int);
                        let q = choose|q: int| 0 <= q < t0.len() && #[trigger] t0[q] == k;
                        assert(doomed@.take(j + 1)[q] == k);
                    }
                    if doomed@.take(j + 1).contains(k) && k != d {
                        let t1 = doomed@.take(j + 1);
                        let q = choose|q: int| 0 <= q < t1.len() && #[trigger] t1[q] == k;
                        assert(doomed@.take(j as int)[q] == k);
                    }
                }
            }
            j = j + 1;
        }
        let ghost m2 = self.nodes@;
        proof {
            assert(doomed@.take(nd as int) =~= doomed@);
            lemma_e_first_step(m, cid);
            assert forall|k: u32| #[trigger] m2.contains_key(k) <==> (m.contains_key(k) && !e_in_subtree(m, cid, k)) by {
                if m.contains_key(k) {
                    assert(ids@.contains(k));
                    assert(ids@.take(n as int).contains(k));
                }
            }
            assert forall|k: u32| #[trigger] m2.contains_key(k) implies m2[k].component == m[k].component
                && m2[k].parent == m[k].parent && m2[k].children@ == (if e_parent(m, cid) == Some(k) {
                    m[k].children@.filter(not_u32(cid))
                } else {
                    m[k].children@
                }) by {
                assert(m2[k] == m1[k]);
            }
            assert forall|k: u32| #[trigger] m2.contains_key(k) && m2[k].parent is Some implies {
                let pp = m2[k].parent->Some_0;
                m2.contains_key(pp) && m2[pp].children@.contains(k)
            } by {
                let pp = m2[k].parent->Some_0;
                assert(m2[k] == m1[k]);
                assert(m.contains_key(pp));
                lemma_e_first_step(m, k);
                assert(e_nth_parent(m, k, 1) == Some(pp));
                if e_in_subtree(m, cid, pp) {
                    if pp != cid {
                        let w = choose|w: nat| w >= 1 && #[trigger] e_nth_parent(m, pp, w) == Some(cid);
                        lemma_e_shift(m, k, pp, w);
                        assert(e_nth_parent(m, k, w + 1) == Some(cid));
                    }
                    assert(e_is_ancestor(m, cid, k));
                }
                assert(m[pp].children@.contains(k));
                assert(m2.contains_key(pp));
                assert(m2[pp] == m1[pp]);
                if parent == Some(pp) {
                    assert(k != cid);
                    assert(m1[pp].children@.contains(k));
                }
            }
            assert forall|k: u32, ii: int| m2.contains_key(k) && 0 <= ii < m2[k].children@.len() implies {
                let x = #[trigger] m2[k].children@[ii];
                m2.contains_key(x) && m2[x].parent == Some(k)
            } by {
                let x = m2[k].children@[ii];
                assert(m2[k] == m1[k]);
                assert(m1[k].children@.contains(x));
                assert(m[k].children@.contains(x));
                let i0 = choose|i0: int| 0 <= i0 < m[k].children@.len() && m[k].children@[i0] == x;
                assert(m[k].children@[i0] == x);
                assert(m.contains_key(x) && m[x].parent == Some(k));
                if e_in_subtree(m, cid, x) {
                    if x == cid {
                        assert(parent == Some(k));
                        assert(!m1[k].children@.contains(cid));
                    } else {
                        let w = choose|w: nat| w >= 1 && #[trigger] e_nth_parent(m, x, w) == Some(cid);
                        lemma_e_first_step(m, x);
                        if w == 1 {
                            assert(k == cid);
                        } else {
                            lemma_e_shift(m, x, k, (w - 1) as nat);
                            assert(e_nth_parent(m, k, (w - 1) as nat) == Some(cid));
                            assert(e_is_ancestor(m, cid, k));
                        }
                    }
                }
                assert(m2.contains_key(x));
                assert(m2[x] == m1[x]);
            }
            assert forall|k: u32| #[trigger] m2.contains_key(k) implies m2[k].children@.no_duplicates() by {
                assert(m2[k] == m1[k]);
            }
            assert(e_links_ok(m2)) by {
                assert(m2.dom().subset_of(m.dom()));
                vstd::set_lib::lemma_len_subset(m2.dom(), m.dom());
            }
            assert(e_ranked(m2, self.rank@)) by {
                assert forall|k: u32| #[trigger] m2.contains_key(k) && m2[k].parent is Some implies
                    (self.rank@)(m2[k].parent->Some_0) < (self.rank@)(k) by {
                    assert(m2[k] == m1[k]);
                }
            }
            assert forall|k: u32| #[trigger] m2.contains_key(k) implies k < self.next_component_id by {
                assert(m.contains_key(k));
            }
            assert forall|q: int| 0 <= q < self.roots@.len() implies m2.contains_key(#[trigger] self.roots@[q])
                && m2[self.roots@[q]].parent is None by {
                let x = self.roots@[q];
                assert(roots1.contains(x));
                assert(roots0.contains(x));
                let q0 = choose|q0: int| 0 <= q0 < roots0.len() && roots0[q0] == x;
                assert(roots0[q0] == x);
                assert(m.contains_key(x) && m[x].parent is None);
                lemma_e_first_step(m, x);
                if e_is_ancestor(m, cid, x) {
                    let w = choose|w: nat| w >= 1 && #[trigger] e_nth_parent(m, x, w) == Some(cid);
                    lemma_e_none_persists(m, x, 1, w);
                }
                if x == cid {
                    assert(parent is None);
                }
                assert(m2.contains_key(x));
                assert(m2[x] == m1[x]);
            }
            assert forall|k: u32| #[trigger] m2.contains_key(k) && m2[k].parent is None implies self.roots@.contains(k) by {
                assert(m2[k] == m1[k]);
                assert(roots0.contains(k));
                if parent is None {
                    assert(k != cid);
                }
            }
            if parent is Some {
                let pp = parent->Some_0;
                assert(!roots0.contains(cid)) by {
                    if roots0.contains(cid) {
                        let q0 = choose|q0: int| 0 <= q0 < roots0.len() && roots0[q0] == cid;
                        assert(roots0[q0] == cid);
                    }
                }
            }
        }
        true
    }
}


impl Entity {
    /// Some component of type `T` with its id; which one is returned when
    /// several match depends on the map's walking order.
    pub fn get_component_with_id<T: ComponentVariant>(&self) -> (r: Option<(ComponentId, &T)>)
        ensures
            match r {
                Some((k, t)) => self.contains(k) && T::variant_of(self.component(k)) == Some(*t),
                None => forall|k: u32| #[trigger] self.contains(k) ==> T::variant_of(self.component(k)) is None,
            },
    {
        let ids = self.node_ids();
        let n = ids.len();
        let mut i: usize = 0;
        while i < n
            invariant
                n == ids@.len(),
                i <= n,
                forall|k: u32| #[trigger] ids@.contains(k) <==> self.contains(k),
                forall|j: int| 0 <= j < i ==> T::variant_of(self.component(#[trigger] ids@[j])) is None,
            decreases n - i,
        {
            let k = ids[i];
            assert(ids@.contains(k));
            match self.get_component_by_id_as::<T>(k) {
                Some(t) => return Some((k, t)),
                None => {},
            }
            i = i + 1;
        }
        proof {
            assert forall|k: u32| #[trigger] self.contains(k) implies T::variant_of(self.component(k)) is None by {
                assert(ids@.contains(k));
                let j = choose|j: int| 0 <= j < ids@.len() && ids@[j] == k;
                assert(ids@[j] == k);
            }
        }
        None
    }

    /// Some component of type `T`, if the entity has one.
    pub fn get_component<T: ComponentVariant>(&self) -> (r: Option<&T>)
        ensures
            match r {
                Some(t) => exists|k: u32| #[trigger] self.contains(k) && T::variant_of(self.component(k)) == Some(*t),
                None => forall|k: u32| #[trigger] self.contains(k) ==> T::variant_of(self.component(k)) is None,
            },
    {
        match self.get_component_with_id::<T>() {
            Some((_, t)) => Some(t),
            None => None,
        }
    }

    /// Whether some component of the entity is a `T`.
    pub fn has_component<T: ComponentVariant>(&self) -> (r: bool)
        ensures
            r == exists|k: u32| #[trigger] self.contains(k) && T::variant_of(self.component(k)) is Some,
    {
        self.get_component::<T>().is_some()
    }

    /// Add `c` under the active root (or the first root when none is
    /// active) and return its id.
    pub fn add_component(&mut self, c: ComponentKind) -> (cid: ComponentId)
        requires
            old(self).wf(),
            old(self).next_id() < u32::MAX,
            old(self).attach_point() is Some,
            old(self).contains(old(self).attach_point()->Some_0),
        ensures
            final(self).wf(),
            final(self).child_added(*old(self), old(self).attach_point()->Some_0, cid, c),
    {
        let parent = match self.active_root {
            Some(p) => p,
            None => self.roots[0],
        };
        self.add_child(parent, c)
    }
}


/// Two duplicate-free, disjoint sequences drawn from a finite set are
/// together no longer than the set.
pub proof fn lemma_disjoint_len<A>(a: Seq<A>, b: Seq<A>, dom: Set<A>)
    requires
        a.no_duplicates(),
        b.no_duplicates(),
        forall|x: A| a.contains(x) ==> !b.contains(x),
        forall|x: A| a.contains(x) || b.contains(x) ==> dom.contains(x),
        dom.finite(),
    ensures
        a.len() + b.len() <= dom.len(),
{
    assert forall|i: int, j: int| 0 <= i < a.len() && 0 <= j < b.len() implies a[i] != b[j] by {
        assert(a.contains(a[i]));
        assert(b.contains(b[j]));
    }
    vstd::seq_lib::lemma_no_dup_in_concat(a, b);
    (a + b).unique_seq_to_set();
    assert forall|x: A| #[trigger] (a + b).to_set().contains(x) implies dom.contains(x) by {
        let i = choose|i: int| 0 <= i < (a + b).len() && (a + b)[i] == x;
        if i < a.len() {
            assert(a[i] == x);
            assert(a.contains(x));
        } else {
            assert(b[i - a.len()] == x);
            assert(b.contains(x));
        }
    }
    vstd::set_lib::lemma_len_subset((a + b).to_set(), dom);
}

/// A set of nodes closed under "the parent is in it" that misses no
/// parentless node contains every node.
proof fn lemma_reached(m: Map<u32, EntityNode>, rank: spec_fn(u32) -> nat, s: Seq<u32>, k: u32)
    requires
        e_links_ok(m),
        e_ranked(m, rank),
        forall|x: u32| #[trigger] m.contains_key(x) && !s.contains(x) ==> m[x].parent is Some
            && !s.contains(m[x].parent->Some_0),
        m.contains_key(k),
    ensures
        s.contains(k),
    decreases rank(k),
{
    if !s.contains(k) {
        let p = m[k].parent->Some_0;
        lemma_reached(m, rank, s, p);
    }
}

/// The children of `k` in `m` (none for a missing node).
spec fn e_child_seq(m: Map<u32, EntityNode>, k: u32) -> Seq<u32> {
    if m.contains_key(k) {
        m[k].children@
    } else {
        Seq::empty()
    }
}

/// Depth-first preorder below `k`, cut off where ranks leave (lo, bound).
spec fn e_pre_r(m: Map<u32, EntityNode>, rank: spec_fn(u32) -> nat, bound: int, k: u32) -> Seq<u32>
    decreases bound - rank(k), 0int,
{
    if rank(k) < bound {
        seq![k] + e_forest_r(m, rank, bound, e_child_seq(m, k), rank(k) as int)
    } else {
        seq![k]
    }
}

spec fn e_forest_r(m: Map<u32, EntityNode>, rank: spec_fn(u32) -> nat, bound: int, ks: Seq<u32>, lo: int) -> Seq<u32>
    decreases bound - lo - 1, ks.len(),
{
    if ks.len() == 0 {
        Seq::empty()
    } else if lo < rank(ks[0]) && rank(ks[0]) < bound {
        e_pre_r(m, rank, bound, ks[0]) + e_forest_r(m, rank, bound, ks.drop_first(), lo)
    } else {
        e_forest_r(m, rank, bound, ks.drop_first(), lo)
    }
}

/// Every node of `m` ranks below `b`.
spec fn e_ranks_below(m: Map<u32, EntityNode>, rank: spec_fn(u32) -> nat, b: int) -> bool {
    forall|k: u32| m.contains_key(k) ==> rank(k) < b
}

/// Some bound above the rank of every node of a finite set.
proof fn lemma_e_rank_bound(s: Set<u32>, rank: spec_fn(u32) -> nat) -> (b: int)
    requires
        s.finite(),
    ensures
        forall|k: u32| s.contains(k) ==> rank(k) < b,
    decreases s.len(),
{
    if s.len() == 0 {
        0
    } else {
        let x = s.choose();
        let b0 = lemma_e_rank_bound(s.remove(x), rank);
        let b: int = if b0 > rank(x) + 1 { b0 } else { (rank(x) + 1) as int };
        assert forall|k: u32| s.contains(k) implies rank(k) < b by {
            if k != x {
                assert(s.remove(x).contains(k));
            }
        }
        b
    }
}

impl Entity {
    closed spec fn rank_bound(&self) -> int {
        choose|b: int| e_ranks_below(self.nodes@, self.rank@, b)
    }

    /// The components below `root` in depth-first preorder, children in
    /// order: `root`, then the tree order of each child in turn.
    pub closed spec fn tree_order(&self, root: ComponentId) -> Seq<ComponentId> {
        e_pre_r(self.nodes@, self.rank@, self.rank_bound(), root)
    }

    proof fn lemma_rank_bound_holds(&self)
        requires
            self.wf(),
        ensures
            forall|k: u32| self.nodes@.contains_key(k) ==> (self.rank@)(k) < self.rank_bound(),
    {
        let b = lemma_e_rank_bound(self.nodes@.dom(), self.rank@);
        assert(e_ranks_below(self.nodes@, self.rank@, b));
    }
}

/// The tree order below a component is the component followed by the tree
/// order below each of its children, in order.
pub proof fn law_entity_tree_order_unfolds(e: Entity, k: ComponentId)
    requires
        e.wf(),
        e.contains(k),
    ensures
        e.tree_order(k) == seq![k] + concat_map(e.children(k), |c: ComponentId| e.tree_order(c)),
{
    e.lemma_rank_bound_holds();
    lemma_e_forest_is_concat(e, k, e.nodes@[k].children@);
}

proof fn lemma_e_forest_is_concat(e: Entity, k: ComponentId, cs: Seq<ComponentId>)
    requires
        e.wf(),
        e.contains(k),
        forall|c: ComponentId| cs.contains(c) ==> e.children(k).contains(c),
        forall|k2: u32| e.nodes@.contains_key(k2) ==> (e.rank@)(k2) < e.rank_bound(),
    ensures
        e_forest_r(e.nodes@, e.rank@, e.rank_bound(), cs, (e.rank@)(k) as int)
            == concat_map(cs, |c: ComponentId| e.tree_order(c)),
    decreases cs.len(),
{
    let m = e.nodes@;
    if cs.len() > 0 {
        let c = cs[0];
        assert(cs.contains(c));
        assert(e.children(k).contains(c));
        let i = choose|i: int| 0 <= i < m[k].children@.len() && m[k].children@[i] == c;
        assert(m[k].children@[i] == c);
        assert(m.contains_key(c) && m[c].parent == Some(k));
        assert((e.rank@)(k) < (e.rank@)(c));
        assert forall|x: ComponentId| cs.drop_first().contains(x) implies e.children(k).contains(x) by {
            let j = choose|j: int| 0 <= j < cs.drop_first().len() && cs.drop_first()[j] == x;
            assert(cs[j + 1] == x);
            assert(cs.contains(cs[j + 1]));
        }
        lemma_e_forest_is_concat(e, k, cs.drop_first());
    }
}

/// One step of the depth-first walk keeps "walked so far, then the tree
/// orders of the stack from the top down" equal.
#[verifier::spinoff_prover]
proof fn lemma_e_tree_order_step(e: Entity, o0: Seq<ComponentId>, s1: Seq<ComponentId>, id: ComponentId)
    requires
        e.wf(),
        e.contains(id),
    ensures
        o0.push(id) + concat_map((s1 + e.children(id).reverse()).reverse(), |c: ComponentId| e.tree_order(c))
            == o0 + concat_map(s1.push(id).reverse(), |c: ComponentId| e.tree_order(c)),
{
    let pre = |c: ComponentId| e.tree_order(c);
    let cs = e.children(id);
    law_entity_tree_order_unfolds(e, id);
    assert(s1.push(id).reverse() =~= seq![id] + s1.reverse());
    assert((seq![id] + s1.reverse())[0] == id);
    assert((seq![id] + s1.reverse()).drop_first() =~= s1.reverse());
    assert(concat_map(s1.push(id).reverse(), pre) == pre(id) + concat_map(s1.reverse(), pre));
    assert((s1 + cs.reverse()).reverse() =~= cs + s1.reverse());
    lemma_concat_map_add(cs, s1.reverse(), pre);
    assert(o0.push(id) + concat_map((s1 + cs.reverse()).reverse(), pre) =~= o0 + concat_map(s1.push(id).reverse(), pre));
}

impl Entity {
    /// The order in which the entity's components are initialized: every
    /// node exactly once, each node before its children, starting from the
    /// roots in order and walking each subtree depth first.
    #[verifier::spinoff_prover]
    pub fn init_all(&self) -> (order: Vec<ComponentId>)
        requires
            self.wf(),
        ensures
            order@ == concat_map(self.spec_roots(), |r: ComponentId| self.tree_order(r)),
            order@.no_duplicates(),
            forall|k: u32| #[trigger] order@.contains(k) <==> self.contains(k),
            forall|i: int, j: int|
                0 <= i < order@.len() && 0 <= j < order@.len() && #[trigger] self.parent(order@[i]) == Some(
                    #[trigger] order@[j],
                ) ==> j < i,
    {
        let ghost m = self.nodes@;
        let mut order: Vec<ComponentId> = Vec::new();
        let mut stack: Vec<ComponentId> = Vec::new();
        let nr = self.roots.len();
        let mut r: usize = nr;
        while r > 0
            invariant
                self.wf(),
                m == self.nodes@,
                nr == self.roots@.len(),
                r <= nr,
                stack@ == self.roots@.subrange(r as int, nr as int).reverse(),
            decreases r,
        {
            r = r - 1;
            stack.push(self.roots[r]);
            proof {
                assert(stack@ =~= self.roots@.subrange(r as int, nr as int).reverse());
            }
        }
        proof {
            let rs = self.roots@;
            assert forall|x: u32| stack@.contains(x) <==> rs.contains(x) by {
                if stack@.contains(x) {
                    let i = choose|i: int| 0 <= i < stack@.len() && stack@[i] == x;
                    assert(rs[nr - 1 - i] == x);
                }
                if rs.contains(x) {
                    let i = choose|i: int| 0 <= i < rs.len() && rs[i] == x;
                    assert(stack@[nr - 1 - i] == x);
                }
            }
            assert forall|a: int, b: int| 0 <= a < b < stack@.len() implies stack@[a] != stack@[b] by {
                assert(stack@[a] == rs[nr - 1 - a]);
                assert(stack@[b] == rs[nr - 1 - b]);
            }
        }
        let ghost total = m.dom().len();
        proof {
            lemma_disjoint_len(order@, stack@, m.dom());
            assert(self.roots@.subrange(0, nr as int) =~= self.roots@);
            assert(stack@.reverse() =~= self.roots@);
            assert(order@ + concat_map(stack@.reverse(), |c: ComponentId| self.tree_order(c))
                =~= concat_map(self.spec_roots(), |r: ComponentId| self.tree_order(r)));
        }
        while stack.len() > 0
            invariant
                self.wf(),
                m == self.nodes@,
                total == m.dom().len(),
                order@.no_duplicates(),
                stack@.no_duplicates(),
                forall|x: u32| order@.contains(x) ==> !stack@.contains(x),
                forall|x: u32| order@.contains(x) || stack@.contains(x) ==> m.contains_key(x),
                forall|x: u32| (order@.contains(x) || stack@.contains(x)) && m[x].parent is Some
                    ==> order@.contains(m[x].parent->Some_0),
                forall|i: int, j: int|
                    0 <= i < order@.len() && 0 <= j < order@.len() && #[trigger] m[order@[i]].parent == Some(
                        #[trigger] order@[j],
                    ) ==> j < i,
                forall|k: u32| #[trigger] m.contains_key(k) && !order@.contains(k) && !stack@.contains(k)
                    ==> m[k].parent is Some && !order@.contains(m[k].parent->Some_0),
                order@.len() + stack@.len() <= total,
                order@ + concat_map(stack@.reverse(), |c: ComponentId| self.tree_order(c))
                    == concat_map(self.spec_roots(), |r: ComponentId| self.tree_order(r)),
            decreases total - order@.len(),
        {
            let ghost o0 = order@;
            let ghost s0 = stack@;
            let id = stack.pop().unwrap();
            let ghost s1 = stack@;
            proof {
                assert(s0 == s1.push(id));
                assert(s0[s0.len() - 1] == id);
                assert(s0.contains(id));
                assert(!s1.contains(id)) by {
                    if s1.contains(id) {
                        let i = choose|i: int| 0 <= i < s1.len() && s1[i] == id;
                        assert(s0[i] == id);
                    }
                }
                assert forall|x: u32| s1.contains(x) implies s0.contains(x) by {
                    let i = choose|i: int| 0 <= i < s1.len() && s1[i] == x;
                    assert(s0[i] == x);
                }
            }
            order.push(id);
            let ghost o1 = order@;
            proof {
                assert(o1 == o0.push(id));
                assert forall|x: u32| o1.contains(x) <==> (o0.contains(x) || x == id) by {
                    if o1.contains(x) && x != id {
                        let i = choose|i: int| 0 <= i < o1.len() && o1[i] == x;
                        assert(o0[i] == x);
                    }
                    if o0.contains(x) {
                        let i = choose|i: int| 0 <= i < o0.len() && o0[i] == x;
                        assert(o1[i] == x);
                    }
                    if x == id {
                        assert(o1[o0.len() as int] == id);
                    }
                }
                assert forall|a: int, b: int| 0 <= a < b < o1.len() implies o1[a] != o1[b] by {
                    if b == o0.len() {
                        assert(o0.contains(o1[a]));
                    }
                }
            }
            let children = self.children_of(id);
            let ghost cs = m[id].children@;
            let nc = children.len();
            let mut c: usize = nc;
            while c > 0
                invariant
                    nc == cs.len(),
                    children@ == cs,
                    c <= nc,
                    stack@ == s1 + cs.subrange(c as int, nc as int).reverse(),
                decreases c,
            {
                c = c - 1;
                stack.push(children[c]);
                proof {
                    assert(stack@ =~= s1 + cs.subrange(c as int, nc as int).reverse());
                }
            }
            let ghost s2 = stack@;
            proof {
                let rc = cs.subrange(0, nc as int).reverse();
                assert(cs.subrange(0, nc as int) =~= cs);
                assert(s2 == s1 + rc);
                // Facts about the children of `id`.
                assert forall|x: u32| rc.contains(x) <==> cs.contains(x) by {
                    if rc.contains(x) {
                        let i = choose|i: int| 0 <= i < rc.len() && rc[i] == x;
                        assert(cs[nc - 1 - i] == x);
                    }
                    if cs.contains(x) {
                        let i = choose|i: int| 0 <= i < cs.len() && cs[i] == x;
                        assert(rc[nc - 1 - i] == x);
                    }
                }
                assert forall|x: u32| cs.contains(x) implies m.contains_key(x) && m[x].parent == Some(id) by {
                    let i = choose|i: int| 0 <= i < cs.len() && cs[i] == x;
                    assert(m[id].children@[i] == x);
                }
                assert forall|x: u32| cs.contains(x) implies !o1.contains(x) && !s1.contains(x) by {
                    if o0.contains(x) || s1.contains(x) {
                        assert(o0.contains(id));
                    }
                    if x == id {
                        assert((self.rank@)(id) < (self.rank@)(id));
                    }
                }
                assert(rc.no_duplicates()) by {
                    assert forall|a: int, b: int| 0 <= a < b < rc.len() implies rc[a] != rc[b] by {
                        assert(rc[a] == cs[nc - 1 - a]);
                        assert(rc[b] == cs[nc - 1 - b]);
                    }
                }
                assert forall|x: u32| s2.contains(x) <==> (s1.contains(x) || cs.contains(x)) by {
                    if s2.contains(x) {
                        let i = choose|i: int| 0 <= i < s2.len() && s2[i] == x;
                        if i < s1.len() {
                            assert(s1[i] == x);
                        } else {
                            assert(rc[i - s1.len()] == x);
                            assert(rc.contains(x));
                        }
                    }
                    if s1.contains(x) {
                        let i = choose|i: int| 0 <= i < s1.len() && s1[i] == x;
                        assert(s2[i] == x);
                    }
                    if cs.contains(x) {
                        assert(rc.contains(x));
                        let i = choose|i: int| 0 <= i < rc.len() && rc[i] == x;
                        assert(s2[s1.len() + i] == x);
                    }
                }
                assert(s2.no_duplicates()) by {
                    assert forall|i: int, j: int| 0 <= i < s1.len() && 0 <= j < rc.len() implies s1[i] != rc[j] by {
                        assert(s1.contains(s1[i]));
                        assert(rc.contains(rc[j]));
                    }
                    vstd::seq_lib::lemma_no_dup_in_concat(s1, rc);
                }
                assert forall|x: u32| o1.contains(x) implies !s2.contains(x) by {
                    if x != id {
                        assert(o0.contains(x));
                    }
                }
                assert forall|x: u32| (o1.contains(x) || s2.contains(x)) && m[x].parent is Some
                    implies o1.contains(m[x].parent->Some_0) by {
                    if o0.contains(x) || s1.contains(x) || x == id {
                    } else {
                        assert(cs.contains(x));
                    }
                }
                assert forall|i: int, j: int|
                    0 <= i < o1.len() && 0 <= j < o1.len() && #[trigger] m[o1[i]].parent == Some(#[trigger] o1[j])
                    implies j < i by {
                    if i == o0.len() {
                        if j == o0.len() {
                            assert((self.rank@)(id) < (self.rank@)(id));
                        }
                    } else {
                        assert(o1[i] == o0[i]);
                        assert(o0.contains(o0[i]));
                        if j == o0.len() {
                            assert(o0.contains(id));
                        } else {
                            assert(o1[j] == o0[j]);
                        }
                    }
                }
                assert forall|k: u32| #[trigger] m.contains_key(k) && !o1.contains(k) && !s2.contains(k)
                    implies m[k].parent is Some && !o1.contains(m[k].parent->Some_0) by {
                    assert(!s0.contains(k));
                    assert(!o0.contains(k));
                    let p = m[k].parent->Some_0;
                    if p == id {
                        assert(m[id].children@.contains(k));
                    }
                }
                lemma_disjoint_len(o1, s2, m.dom());
                assert(rc =~= cs.reverse());
                lemma_e_tree_order_step(*self, o0, s1, id);
            }
        }
        proof {
            assert forall|k: u32| #[trigger] order@.contains(k) <==> self.contains(k) by {
                if self.contains(k) {
                    lemma_reached(m, self.rank@, order@, k);
                }
            }
        }
        order
    }
}


/// Following parent links strictly lowers the rank.
proof fn lemma_e_ancestor_rank(m: Map<u32, EntityNode>, rank: spec_fn(u32) -> nat, a: u32, d: u32, n: nat)
    requires
        e_ranked(m, rank),
        n >= 1,
        e_nth_parent(m, d, n) == Some(a),
    ensures
        rank(a) < rank(d),
    decreases n,
{
    let j = e_nth_parent(m, d, (n - 1) as nat);
    if n == 1 {
        assert(j == Some(d));
    } else {
        match j {
            Some(jj) => {
                lemma_e_ancestor_rank(m, rank, jj, d, (n - 1) as nat);
            },
            None => {},
        }
    }
}

/// No component of an entity is its own ancestor: the entity is a forest.
pub proof fn law_entity_acyclic(e: Entity, c: ComponentId)
    requires
        e.wf(),
    ensures
        !e_is_ancestor(e.nodes(), c, c),
{
    if e_is_ancestor(e.nodes(), c, c) {
        let n = choose|n: nat| n >= 1 && #[trigger] e_nth_parent(e.nodes(), c, n) == Some(c);
        lemma_e_ancestor_rank(e.nodes(), e.rank@, c, c, n);
    }
}

/// A component appears among the children of `p` exactly when `p` is its
/// parent; a component without a parent is one of the roots.
pub proof fn law_entity_links_agree(e: Entity, p: ComponentId, c: ComponentId)
    requires
        e.wf(),
        e.contains(c),
    ensures
        (e.contains(p) && e.children(p).contains(c)) <==> e.parent(c) == Some(p),
        e.parent(c) is None <==> e.spec_roots().contains(c),
{
    let m = e.nodes();
    if e.contains(p) && e.children(p).contains(c) {
        let i = choose|i: int| 0 <= i < m[p].children@.len() && m[p].children@[i] == c;
        assert(m[p].children@[i] == c);
    }
    if e.spec_roots().contains(c) {
        let i = choose|i: int| 0 <= i < e.roots@.len() && e.roots@[i] == c;
        assert(e.roots@[i] == c);
    }
}

/// The roots of an entity are, once each, exactly its nodes without a
/// parent; every child list holds each child once, and each listed child
/// names its parent.
pub proof fn law_entity_roots_exact(e: Entity)
    requires
        e.wf(),
    ensures
        e.spec_roots().no_duplicates(),
        forall|c: u32| #[trigger] e.spec_roots().contains(c) <==> (e.contains(c) && e.parent(c) is None),
        forall|p: u32| #[trigger] e.contains(p) ==> e.children(p).no_duplicates(),
        forall|p: u32, c: u32| e.contains(p) && #[trigger] e.children(p).contains(c)
            ==> e.contains(c) && e.parent(c) == Some(p),
{
    assert forall|c: u32| #[trigger] e.spec_roots().contains(c) implies e.contains(c) && e.parent(c) is None by {
        let i = choose|i: int| 0 <= i < e.roots@.len() && e.roots@[i] == c;
        assert(e.roots@[i] == c);
    }
    assert forall|p: u32, c: u32| e.contains(p) && #[trigger] e.children(p).contains(c)
        implies e.contains(c) && e.parent(c) == Some(p) by {
        let i = choose|i: int| 0 <= i < e.nodes()[p].children@.len() && e.nodes()[p].children@[i] == c;
        assert(e.nodes()[p].children@[i] == c);
    }
}

} // verus!
