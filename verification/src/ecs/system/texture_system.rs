//! Tracks texture components and the renderables they texture. Textures are
//! deduplicated by URI: every texture component with the same URI shares one
//! GPU texture, which is loaded at most once.
use vstd::prelude::*;
use std::collections::HashMap;
use vstd::std_specs::hash::spec_keys_iter;
use vstd::std_specs::iter::IteratorSpec;
use crate::ecs::component::{RenderableComponent, TextureComponent};
use crate::ecs::world::{ComponentId, World, lemma_parent_rank, nth_parent};
use crate::graphics::primitives::{InstanceHandle, TextureHandle};
use crate::text::str_eq;

verus! {

broadcast use vstd::std_specs::hash::group_hash_axioms;

/// Loads the image at a URI and uploads it to the GPU; implemented by the
/// application, which owns file access, image decoding and the renderer.
pub trait TextureLoader {
    fn load_texture(&mut self, uri: &str) -> Result<TextureHandle, String>;
}

/// A texture component's source and, once uploaded, its GPU handle.
#[derive(Debug, Clone)]
pub struct TextureRecord {
    pub uri: String,
    pub gpu: Option<TextureHandle>,
}

pub struct TextureSystem {
    /// Texture records keyed by the 64-bit form of the texture component id.
    textures: HashMap<u64, TextureRecord>,
    /// Uploaded textures by URI, each URI once.
    uri_cache: Vec<(String, TextureHandle)>,
    cache: Ghost<Map<Seq<char>, TextureHandle>>,
    /// Renderable (by the 64-bit form of its id) to (renderable, texture).
    pending_attach: HashMap<u64, (ComponentId, ComponentId)>,
}

pub open spec fn is_renderable(w: World, c: u64) -> bool {
    w.nodes().contains_key(c) && w.nodes()[c].component is Renderable
}

/// `p` is the nearest renderable strictly above `c`.
pub open spec fn nearest_renderable_above(w: World, c: u64, p: u64) -> bool {
    exists|n: nat| n >= 1 && #[trigger] nth_parent(w.nodes(), c, n) == Some(p) && is_renderable(w, p)
        && forall|j: nat| 1 <= j < n ==> match #[trigger] nth_parent(w.nodes(), c, j) {
            Some(q) => !is_renderable(w, q),
            None => true,
        }
}

/// The visual-world instance of renderable `r`, if it is a renderable that
/// has one.
pub open spec fn instance_of(w: World, r: ComponentId) -> Option<InstanceHandle> {
    if w.contains(r) {
        match w.component(r) {
            crate::ecs::component::ComponentKind::Renderable(c) => c.handle,
            _ => None,
        }
    } else {
        None
    }
}

/// A pending pair that a flush leaves pending: the renderable exists but has
/// no instance yet.
pub open spec fn stays_pending(w: World, pair: (ComponentId, ComponentId)) -> bool {
    &&& w.contains(pair.0)
    &&& w.component(pair.0) is Renderable
    &&& w.component(pair.0)->Renderable_0.handle is None
}


/// What a flush does with one pending (renderable, texture) pair.
pub enum PairStep {
    /// The renderable is gone or the texture is unknown: the pair is dropped.
    Drop,
    /// The renderable has no visual-world instance yet: the pair stays.
    Wait,
    /// The texture's URI was uploaded before: attach that upload.
    Attach(InstanceHandle, TextureHandle),
    /// The texture must first be loaded from this URI.
    Load(InstanceHandle, String),
}

/// A pending pair whose renderable has an instance and whose texture's URI
/// was already uploaded (by `c0`) is attached with that upload.
pub open spec fn attaches_uploaded_at(
    w: World,
    pair: (ComponentId, ComponentId),
    textures: Map<u64, TextureRecord>,
    c0: Map<Seq<char>, TextureHandle>,
    xs: Seq<(InstanceHandle, TextureHandle)>,
) -> bool {
    let (r, t) = pair;
    instance_of(w, r) is Some && textures.contains_key(t@) && c0.contains_key(textures[t@].uri@)
        ==> xs.contains((instance_of(w, r)->Some_0, c0[textures[t@].uri@]))
}

pub open spec fn attaches_uploaded(
    w: World,
    pending: Map<u64, (ComponentId, ComponentId)>,
    textures: Map<u64, TextureRecord>,
    c0: Map<Seq<char>, TextureHandle>,
    xs: Seq<(InstanceHandle, TextureHandle)>,
) -> bool {
    forall|k: u64| #[trigger] pending.contains_key(k) ==> attaches_uploaded_at(w, pending[k], textures, c0, xs)
}

/// Why a pair left the pending map: its renderable is gone, its texture is
/// unknown, it was attached with the upload of its URI, or its URI had not
/// been uploaded (by `c0`) so a load was needed (and failed, when it was
/// not attached).
pub open spec fn drop_explained(
    w: World,
    pair: (ComponentId, ComponentId),
    textures: Map<u64, TextureRecord>,
    c0: Map<Seq<char>, TextureHandle>,
    c1: Map<Seq<char>, TextureHandle>,
    xs: Seq<(InstanceHandle, TextureHandle)>,
) -> bool {
    let (r, t) = pair;
    ||| instance_of(w, r) is None
    ||| !textures.contains_key(t@)
    ||| c1.contains_key(textures[t@].uri@) && xs.contains((instance_of(w, r)->Some_0, c1[textures[t@].uri@]))
    ||| !c0.contains_key(textures[t@].uri@)
}

pub open spec fn drops_explained(
    w: World,
    pending: Map<u64, (ComponentId, ComponentId)>,
    textures: Map<u64, TextureRecord>,
    c0: Map<Seq<char>, TextureHandle>,
    c1: Map<Seq<char>, TextureHandle>,
    after: Map<u64, (ComponentId, ComponentId)>,
    xs: Seq<(InstanceHandle, TextureHandle)>,
) -> bool {
    forall|k: u64| #[trigger] pending.contains_key(k) && !after.contains_key(k)
        ==> drop_explained(w, pending[k], textures, c0, c1, xs)
}

/// The URI cache list holds, once each, exactly the entries of the map.
pub open spec fn cache_match(v: Seq<(String, TextureHandle)>, m: Map<Seq<char>, TextureHandle>) -> bool {
    &&& m.dom().finite()
    &&& forall|i: int| 0 <= i < v.len() ==> #[trigger] m.contains_key(v[i].0@) && m[v[i].0@] == v[i].1
    &&& forall|u: Seq<char>| #[trigger] m.contains_key(u) ==> exists|i: int| 0 <= i < v.len() && #[trigger] v[i].0@ == u
    &&& forall|i: int, j: int| 0 <= i < v.len() && 0 <= j < v.len() && i != j ==> #[trigger] v[i].0@ != #[trigger] v[j].0@
}

impl TextureSystem {
    pub closed spec fn textures(&self) -> Map<u64, TextureRecord> {
        self.textures@
    }

    /// Uploaded textures by URI.
    pub closed spec fn uploaded(&self) -> Map<Seq<char>, TextureHandle> {
        self.cache@
    }

    pub closed spec fn pending_attach(&self) -> Map<u64, (ComponentId, ComponentId)> {
        self.pending_attach@
    }

    /// Every texture with a GPU handle has the handle uploaded for its URI.
    pub closed spec fn wf(&self) -> bool {
        &&& cache_match(self.uri_cache@, self.cache@)
        &&& forall|t: u64| #[trigger] self.textures@.contains_key(t) && self.textures@[t].gpu is Some
            ==> self.cache@.contains_key(self.textures@[t].uri@) && self.cache@[self.textures@[t].uri@]
            == self.textures@[t].gpu->Some_0
        &&& forall|k: u64| #[trigger] self.pending_attach@.contains_key(k) ==> self.pending_attach@[k].0@ == k
    }

    pub fn new() -> (s: Self)
        ensures
            s.wf(),
            s.textures() == Map::<u64, TextureRecord>::empty(),
            s.uploaded() == Map::<Seq<char>, TextureHandle>::empty(),
            s.pending_attach() == Map::<u64, (ComponentId, ComponentId)>::empty(),
    {
        let s = TextureSystem {
            textures: HashMap::new(),
            uri_cache: Vec::new(),
            cache: Ghost(Map::empty()),
            pending_attach: HashMap::new(),
        };
        proof {
            assert(s.cache@.dom() =~= Set::<Seq<char>>::empty());
        }
        s
    }

    /// Record a texture component (once) and, when it sits below a
    /// renderable, remember that the nearest such renderable is to be
    /// textured by it. Components that are not textures change nothing.
    #[verifier::spinoff_prover]
    pub fn register_texture(&mut self, world: &World, component: ComponentId)
        requires
            world.wf(),
            old(self).wf(),
        ensures
            final(self).wf(),
            final(self).uploaded() == old(self).uploaded(),
            !(world.contains(component) && world.component(component) is Texture) ==> final(self).textures() == old(self).textures()
                && final(self).pending_attach() == old(self).pending_attach(),
            world.contains(component) && world.component(component) is Texture ==> ({
                let t = world.component(component)->Texture_0;
                &&& final(self).textures().dom() == old(self).textures().dom().insert(component@)
                &&& old(self).textures().contains_key(component@) ==> final(self).textures() == old(self).textures()
                &&& !old(self).textures().contains_key(component@) ==> final(self).textures()[component@].uri@ == t.uri@
                    && final(self).textures()[component@].gpu is None
                    && forall|k: u64| #[trigger] old(self).textures().contains_key(k) ==> final(self).textures()[k] == old(self).textures()[k]
                &&& forall|p: ComponentId| nearest_renderable_above(*world, component@, p@)
                    ==> final(self).pending_attach() == old(self).pending_attach().insert(p@, (p, component))
                &&& (forall|p: u64| !nearest_renderable_above(*world, component@, p))
                    ==> final(self).pending_attach() == old(self).pending_attach()
            }),
    {
        let uri = match world.get_component_by_id_as::<TextureComponent>(component) {
            None => return,
            Some(t) => t.uri.clone(),
        };
        if !self.textures.contains_key(&component.to_bits()) {
            self.textures.insert(component.to_bits(), TextureRecord { uri, gpu: None });
        }
        let ghost m = world.nodes();
        let ghost c0 = component@;
        let ghost t1 = self.textures@;
        proof {
            assert(world.contains(component) && world.component(component) is Texture);
            assert(t1.dom() =~= old(self).textures@.dom().insert(component@));
        }
        let mut cur = component;
        let ghost mut steps: nat = 0;
        loop
            invariant
                world.wf(),
                m == world.nodes(),
                c0 == component@,
                nth_parent(m, c0, steps) == Some(cur@),
                world.contains(cur),
                forall|j: nat| 1 <= j <= steps ==> match #[trigger] nth_parent(m, c0, j) {
                    Some(q) => !is_renderable(*world, q),
                    None => true,
                },
                self.pending_attach@ == old(self).pending_attach@,
                self.uri_cache@ == old(self).uri_cache@,
                self.cache@ == old(self).cache@,
                old(self).wf(),
                self.textures@ == t1,
                world.contains(component) && world.component(component) is Texture,
                t1.dom() == old(self).textures@.dom().insert(component@),
                old(self).textures@.contains_key(component@) ==> t1 == old(self).textures@,
                !old(self).textures@.contains_key(component@) ==> t1[component@].uri@ == world.component(component)->Texture_0.uri@
                    && t1[component@].gpu is None
                    && forall|k: u64| #[trigger] old(self).textures@.contains_key(k) ==> t1[k] == old(self).textures@[k],
            decreases world.spec_rank(cur@),
        {
            match world.parent_of(cur) {
                None => {
                    proof {
                        assert(nth_parent(m, c0, steps + 1) is None);
                        assert forall|p: u64| !nearest_renderable_above(*world, c0, p) by {
                            if nearest_renderable_above(*world, c0, p) {
                                let n = choose|n: nat| n >= 1 && #[trigger] nth_parent(m, c0, n) == Some(p) && is_renderable(*world, p)
                                    && forall|j: nat| 1 <= j < n ==> match #[trigger] nth_parent(m, c0, j) {
                                        Some(q) => !is_renderable(*world, q),
                                        None => true,
                                    };
                                if n > steps {
                                    crate::ecs::world::lemma_nth_parent_none_persists(m, c0, steps + 1, n);
                                }
                            }
                        }
                        self.lemma_wf_textures(old(self).textures@, t1);
                    }
                    return;
                },
                Some(p) => {
                    proof {
                        assert(nth_parent(m, c0, steps + 1) == Some(p@));
                        lemma_parent_rank(*world, cur);
                    }
                    let found = match world.get_component_by_id_as::<RenderableComponent>(p) {
                        Some(_) => true,
                        None => false,
                    };
                    if found {
                        self.pending_attach.insert(p.to_bits(), (p, component));
                        proof {
                            assert(nearest_renderable_above(*world, c0, p@));
                            assert forall|q: ComponentId| nearest_renderable_above(*world, c0, q@) implies q == p by {
                                let n = choose|n: nat| n >= 1 && #[trigger] nth_parent(m, c0, n) == Some(q@) && is_renderable(*world, q@)
                                    && forall|j: nat| 1 <= j < n ==> match #[trigger] nth_parent(m, c0, j) {
                                        Some(qq) => !is_renderable(*world, qq),
                                        None => true,
                                    };
                                if n < steps + 1 {
                                } else if n > steps + 1 {
                                    assert(nth_parent(m, c0, steps + 1) == Some(p@));
                                }
                                crate::ecs::world::lemma_id_of(q, q@);
                                crate::ecs::world::lemma_id_of(p, p@);
                            }
                            self.lemma_wf_textures(old(self).textures@, t1);
                        }
                        return;
                    }
                    proof {
                        steps = steps + 1;
                    }
                    cur = p;
                },
            }
        }
    }

    /// Adding records without GPU handles keeps the invariant.
    proof fn lemma_wf_textures(&self, before: Map<u64, TextureRecord>, after: Map<u64, TextureRecord>)
        requires
            cache_match(self.uri_cache@, self.cache@),
            forall|t: u64| #[trigger] before.contains_key(t) && before[t].gpu is Some
                ==> self.cache@.contains_key(before[t].uri@) && self.cache@[before[t].uri@] == before[t].gpu->Some_0,
            self.textures@ == after,
            forall|t: u64| #[trigger] after.contains_key(t) ==> (before.contains_key(t) && after[t] == before[t]) || after[t].gpu is None,
            forall|k: u64| #[trigger] self.pending_attach@.contains_key(k) ==> self.pending_attach@[k].0@ == k,
        ensures
            self.wf(),
    {
        assert forall|t: u64| #[trigger] self.textures@.contains_key(t) && self.textures@[t].gpu is Some
            implies self.cache@.contains_key(self.textures@[t].uri@) && self.cache@[self.textures@[t].uri@]
            == self.textures@[t].gpu->Some_0 by {
            assert(before.contains_key(t));
        }
    }
}

/// An attachment `x` comes from a pending pair of `pending`: its instance is
/// the renderable's, and its texture is the one uploaded for the texture's URI.
pub open spec fn attach_justified(
    w: World,
    pending: Map<u64, (ComponentId, ComponentId)>,
    textures: Map<u64, TextureRecord>,
    uploaded: Map<Seq<char>, TextureHandle>,
    x: (InstanceHandle, TextureHandle),
) -> bool {
    exists|k: u64| #[trigger] pending.contains_key(k) && ({
        let (r, t) = pending[k];
        &&& instance_of(w, r) == Some(x.0)
        &&& textures.contains_key(t@)
        &&& uploaded.contains_key(textures[t@].uri@)
        &&& uploaded[textures[t@].uri@] == x.1
    })
}

pub open spec fn attachments_justified(
    w: World,
    pending: Map<u64, (ComponentId, ComponentId)>,
    textures: Map<u64, TextureRecord>,
    uploaded: Map<Seq<char>, TextureHandle>,
    xs: Seq<(InstanceHandle, TextureHandle)>,
) -> bool {
    forall|a: int| 0 <= a < xs.len() ==> #[trigger] attach_justified(w, pending, textures, uploaded, xs[a])
}

/// `m2` keeps every upload of `m1`.
pub open spec fn uploads_kept(m1: Map<Seq<char>, TextureHandle>, m2: Map<Seq<char>, TextureHandle>) -> bool {
    forall|u: Seq<char>| #[trigger] m1.contains_key(u) ==> m2.contains_key(u) && m2[u] == m1[u]
}

proof fn lemma_justified_kept(
    w: World,
    pending: Map<u64, (ComponentId, ComponentId)>,
    textures: Map<u64, TextureRecord>,
    m1: Map<Seq<char>, TextureHandle>,
    m2: Map<Seq<char>, TextureHandle>,
    xs: Seq<(InstanceHandle, TextureHandle)>,
)
    requires
        attachments_justified(w, pending, textures, m1, xs),
        uploads_kept(m1, m2),
    ensures
        attachments_justified(w, pending, textures, m2, xs),
{
    assert forall|a: int| 0 <= a < xs.len() implies #[trigger] attach_justified(w, pending, textures, m2, xs[a]) by {
        assert(attach_justified(w, pending, textures, m1, xs[a]));
        let k = choose|k: u64| #[trigger] pending.contains_key(k) && ({
            let (r, t) = pending[k];
            &&& instance_of(w, r) == Some(xs[a].0)
            &&& textures.contains_key(t@)
            &&& m1.contains_key(textures[t@].uri@)
            &&& m1[textures[t@].uri@] == xs[a].1
        });
        assert(pending.contains_key(k));
    }
}

impl TextureSystem {
    /// The handle already uploaded for `uri`, if any.
    fn cached(&self, uri: &str) -> (r: Option<TextureHandle>)
        requires
            cache_match(self.uri_cache@, self.cache@),
        ensures
            match r {
                Some(h) => self.cache@.contains_key(uri@) && self.cache@[uri@] == h,
                None => !self.cache@.contains_key(uri@),
            },
    {
        let n = self.uri_cache.len();
        let mut i: usize = 0;
        while i < n
            invariant
                n == self.uri_cache@.len(),
                cache_match(self.uri_cache@, self.cache@),
                i <= n,
                forall|j: int| 0 <= j < i ==> (#[trigger] self.uri_cache@[j]).0@ != uri@,
            decreases n - i,
        {
            if str_eq(self.uri_cache[i].0.as_str(), uri) {
                return Some(self.uri_cache[i].1);
            }
            i = i + 1;
        }
        proof {
            if self.cache@.contains_key(uri@) {
                let j = choose|j: int| 0 <= j < self.uri_cache@.len() && #[trigger] self.uri_cache@[j].0@ == uri@;
            }
        }
        None
    }

    /// Remember that `uri` was uploaded as `h`; the URI must be new.
    fn remember(&mut self, uri: String, h: TextureHandle)
        requires
            cache_match(old(self).uri_cache@, old(self).cache@),
            !old(self).cache@.contains_key(uri@),
        ensures
            cache_match(final(self).uri_cache@, final(self).cache@),
            final(self).cache@ == old(self).cache@.insert(uri@, h),
            final(self).textures@ == old(self).textures@,
            final(self).pending_attach@ == old(self).pending_attach@,
    {
        let ghost v0 = self.uri_cache@;
        let ghost m0 = self.cache@;
        let ghost u = uri@;
        self.uri_cache.push((uri, h));
        self.cache = Ghost(m0.insert(u, h));
        proof {
            let v1 = self.uri_cache@;
            let m1 = self.cache@;
            assert(v1[v0.len() as int].0@ == u);
            assert forall|i: int| 0 <= i < v1.len() implies #[trigger] m1.contains_key(v1[i].0@) && m1[v1[i].0@] == v1[i].1 by {
                if i < v0.len() {
                    assert(v1[i] == v0[i]);
                    assert(m0.contains_key(v0[i].0@));
                }
            }
            assert forall|w: Seq<char>| #[trigger] m1.contains_key(w) implies exists|i: int| 0 <= i < v1.len() && #[trigger] v1[i].0@ == w by {
                if w == u {
                    assert(v1[v0.len() as int].0@ == w);
                } else {
                    let i = choose|i: int| 0 <= i < v0.len() && #[trigger] v0[i].0@ == w;
                    assert(v1[i] == v0[i]);
                }
            }
            assert forall|i: int, j: int| 0 <= i < v1.len() && 0 <= j < v1.len() && i != j implies #[trigger] v1[i].0@ != #[trigger] v1[j].0@ by {
                if i < v0.len() {
                    assert(v1[i] == v0[i]);
                    assert(m0.contains_key(v0[i].0@));
                }
                if j < v0.len() {
                    assert(v1[j] == v0[j]);
                    assert(m0.contains_key(v0[j].0@));
                }
            }
        }
    }

    /// The keys of the pending map, each once.
    fn pending_keys(&self) -> (r: Vec<u64>)
        ensures
            r@.no_duplicates(),
            forall|k: u64| #[trigger] r@.contains(k) <==> self.pending_attach@.contains_key(k),
    {
        let mut r: Vec<u64> = Vec::new();
        for k in it: self.pending_attach.keys()
            invariant
                it.seq() == spec_keys_iter(&self.pending_attach).remaining(),
                r@ == it.seq().take(it.index() as int).unref(),
        {
            r.push(*k);
        }
        proof {
            let ks = spec_keys_iter(&self.pending_attach).remaining();
            assert(ks.take(ks.len() as int) =~= ks);
            assert(r@ =~= ks.unref());
            assert forall|k: u64| #[trigger] r@.contains(k) <==> self.pending_attach@.contains_key(k) by {
                assert(r@.to_set().contains(k) <==> r@.contains(k));
            }
        }
        r
    }

    /// What a flush does with the pending pair `(r, t)` (see `PairStep`).
    pub fn plan_pair(&self, world: &World, r: ComponentId, t: ComponentId) -> (step: PairStep)
        requires
            self.wf(),
        ensures
            match step {
                PairStep::Wait => stays_pending(*world, (r, t)),
                PairStep::Drop => !stays_pending(*world, (r, t))
                    && (instance_of(*world, r) is None || !self.textures().contains_key(t@)),
                PairStep::Attach(i, h) => instance_of(*world, r) == Some(i)
                    && self.textures().contains_key(t@)
                    && self.uploaded().contains_key(self.textures()[t@].uri@)
                    && h == self.uploaded()[self.textures()[t@].uri@],
                PairStep::Load(i, u) => instance_of(*world, r) == Some(i)
                    && self.textures().contains_key(t@)
                    && !self.uploaded().contains_key(self.textures()[t@].uri@)
                    && u@ == self.textures()[t@].uri@,
            },
    {
        let instance = match world.get_component_by_id_as::<RenderableComponent>(r) {
            None => {
                return PairStep::Drop;
            },
            Some(rc) => match rc.get_handle() {
                None => {
                    return PairStep::Wait;
                },
                Some(h) => h,
            },
        };
        let uri = match self.textures.get(&t.to_bits()) {
            None => {
                return PairStep::Drop;
            },
            Some(rec) => rec.uri.clone(),
        };
        match self.cached(uri.as_str()) {
            Some(h) => PairStep::Attach(instance, h),
            None => PairStep::Load(instance, uri),
        }
    }

    /// Attach texture `t`, uploaded as `h`, to `instance`: the texture
    /// records `h`, its URI is known to be uploaded as `h`, and the pending
    /// pair under `key` is done. Returns the pair to apply to the visual world.
    pub fn attach_texture(&mut self, key: u64, t: ComponentId, instance: InstanceHandle, h: TextureHandle)
        -> (x: (InstanceHandle, TextureHandle))
        requires
            old(self).wf(),
            old(self).textures().contains_key(t@),
            old(self).uploaded().contains_key(old(self).textures()[t@].uri@)
                ==> old(self).uploaded()[old(self).textures()[t@].uri@] == h,
        ensures
            final(self).wf(),
            x == (instance, h),
            final(self).uploaded() == old(self).uploaded().insert(old(self).textures()[t@].uri@, h),
            final(self).textures() == old(self).textures().insert(
                t@,
                TextureRecord { uri: old(self).textures()[t@].uri, gpu: Some(h) },
            ),
            final(self).pending_attach() == old(self).pending_attach().remove(key),
    {
        let ghost t_before = self.textures@;
        let uri = match self.textures.get(&t.to_bits()) {
            Some(rec) => rec.uri.clone(),
            None => vstd::pervasive::unreached(),
        };
        let ghost cache_before = self.cache@;
        match self.cached(uri.as_str()) {
            Some(_) => {
                proof {
                    assert(cache_before.insert(uri@, h) =~= cache_before);
                }
            },
            None => {
                self.remember(uri.clone(), h);
            },
        }
        self.textures.insert(t.to_bits(), TextureRecord { uri, gpu: Some(h) });
        self.pending_attach.remove(&key);
        proof {
            assert forall|x: u64| #[trigger] self.textures@.contains_key(x) && self.textures@[x].gpu is Some
                implies self.cache@.contains_key(self.textures@[x].uri@) && self.cache@[self.textures@[x].uri@]
                == self.textures@[x].gpu->Some_0 by {
                if x != t@ {
                    assert(cache_before.contains_key(t_before[x].uri@));
                }
            }
        }
        (instance, h)
    }

    /// Record what the loader answered for texture `t` of the pending pair
    /// under `key`, whose URI was not uploaded: a handle attaches the texture
    /// as `attach_texture` does; a failure drops the pair and changes
    /// nothing else.
    pub fn record_load(
        &mut self,
        key: u64,
        t: ComponentId,
        instance: InstanceHandle,
        loaded: Result<TextureHandle, String>,
    ) -> (x: Option<(InstanceHandle, TextureHandle)>)
        requires
            old(self).wf(),
            old(self).textures().contains_key(t@),
            !old(self).uploaded().contains_key(old(self).textures()[t@].uri@),
        ensures
            final(self).wf(),
            final(self).pending_attach() == old(self).pending_attach().remove(key),
            match loaded {
                Ok(h) => x == Some((instance, h))
                    && final(self).uploaded() == old(self).uploaded().insert(old(self).textures()[t@].uri@, h)
                    && final(self).textures() == old(self).textures().insert(
                        t@,
                        TextureRecord { uri: old(self).textures()[t@].uri, gpu: Some(h) },
                    ),
                Err(_) => x is None && final(self).uploaded() == old(self).uploaded()
                    && final(self).textures() == old(self).textures(),
            },
    {
        match loaded {
            Ok(h) => Some(self.attach_texture(key, t, instance, h)),
            Err(_) => {
                self.pending_attach.remove(&key);
                None
            },
        }
    }

    /// Attach every pending texture whose renderable now has a visual-world
    /// instance, loading each URI through `loader` only when no texture with
    /// that URI was uploaded before. Returns the (instance, texture) pairs to
    /// apply to the visual world. Each pair goes through `plan_pair`: a pair
    /// whose renderable is gone or whose texture is unknown is dropped; one
    /// whose renderable has no instance yet stays pending; one whose URI was
    /// uploaded is attached with that upload (`attach_texture`); otherwise the
    /// loader is asked for the record's URI and its answer is recorded by
    /// `record_load`, which drops the pair when the load fails.
    #[verifier::spinoff_prover]
    #[verifier::rlimit(40)]
    pub fn flush_pending<L: TextureLoader>(&mut self, world: &World, loader: &mut L) -> (attached: Vec<(InstanceHandle, TextureHandle)>)
        requires
            old(self).wf(),
        ensures
            final(self).wf(),
            uploads_kept(old(self).uploaded(), final(self).uploaded()),
            final(self).textures().dom() == old(self).textures().dom(),
            forall|t: u64| #[trigger] final(self).textures().contains_key(t) ==> final(self).textures()[t].uri@ == old(self).textures()[t].uri@,
            forall|k: u64| #[trigger] final(self).pending_attach().contains_key(k) <==> (old(self).pending_attach().contains_key(k)
                && stays_pending(*world, old(self).pending_attach()[k])),
            forall|k: u64| #[trigger] final(self).pending_attach().contains_key(k) ==> final(self).pending_attach()[k] == old(self).pending_attach()[k],
            attachments_justified(*world, old(self).pending_attach(), old(self).textures(), final(self).uploaded(), attached@),
            attaches_uploaded(*world, old(self).pending_attach(), old(self).textures(), old(self).uploaded(), attached@),
            drops_explained(
                *world,
                old(self).pending_attach(),
                old(self).textures(),
                old(self).uploaded(),
                final(self).uploaded(),
                final(self).pending_attach(),
                attached@,
            ),
    {
        let ghost p0 = self.pending_attach@;
        let ghost t0 = self.textures@;
        let ghost c0 = self.cache@;
        let keys = self.pending_keys();
        let mut attached: Vec<(InstanceHandle, TextureHandle)> = Vec::new();
        let n = keys.len();
        let mut i: usize = 0;
        while i < n
            invariant
                n == keys@.len(),
                i <= n,
                keys@.no_duplicates(),
                forall|k: u64| #[trigger] keys@.contains(k) <==> p0.contains_key(k),
                forall|k: u64| #[trigger] p0.contains_key(k) ==> p0[k].0@ == k,
                self.wf(),
                uploads_kept(c0, self.cache@),
                self.textures@.dom() == t0.dom(),
                forall|t: u64| #[trigger] self.textures@.contains_key(t) ==> self.textures@[t].uri@ == t0[t].uri@,
                forall|k: u64| #[trigger] self.pending_attach@.contains_key(k) <==> (p0.contains_key(k)
                    && (keys@.take(i as int).contains(k) ==> stays_pending(*world, p0[k]))),
                forall|k: u64| #[trigger] self.pending_attach@.contains_key(k) ==> self.pending_attach@[k] == p0[k],
                attachments_justified(*world, p0, t0, self.cache@, attached@),
                forall|k: u64| #[trigger] p0.contains_key(k) && keys@.take(i as int).contains(k)
                    ==> attaches_uploaded_at(*world, p0[k], t0, c0, attached@),
                forall|k: u64| #[trigger] p0.contains_key(k) && keys@.take(i as int).contains(k)
                    && !self.pending_attach@.contains_key(k)
                    ==> drop_explained(*world, p0[k], t0, c0, self.cache@, attached@),
            decreases n - i,
        {
            let key = keys[i];
            proof {
                broadcast use vstd::seq_lib::group_seq_properties;
                assert(keys@.take(i + 1) =~= keys@.take(i as int).push(key));
                assert(keys@.contains(key));
                assert(!keys@.take(i as int).contains(key)) by {
                    if keys@.take(i as int).contains(key) {
                        let tk = keys@.take(i as int);
                        let j = choose|j: int| 0 <= j < tk.len() && #[trigger] tk[j] == key;
                        assert(keys@[j] == key);
                    }
                }
                assert(self.pending_attach@.contains_key(key));
            }
            let ghost before = self.pending_attach@;
            let ghost cache_before = self.cache@;
            let ghost att_before = attached@;
            let (r, t) = match self.pending_attach.get(&key) {
                Some(pair) => *pair,
                None => vstd::pervasive::unreached(),
            };
            match self.plan_pair(world, r, t) {
                PairStep::Wait => {},
                PairStep::Drop => {
                    self.pending_attach.remove(&key);
                },
                PairStep::Attach(inst, h) => {
                    let x = self.attach_texture(key, t, inst, h);
                    attached.push(x);
                },
                PairStep::Load(inst, uri) => {
                    let loaded = loader.load_texture(uri.as_str());
                    match self.record_load(key, t, inst, loaded) {
                        Some(x) => {
                            attached.push(x);
                        },
                        None => {},
                    }
                },
            }
            proof {
                broadcast use vstd::seq_lib::group_seq_properties;
                assert(uploads_kept(cache_before, self.cache@));
                lemma_justified_kept(*world, p0, t0, cache_before, self.cache@, att_before);
                assert forall|a: int| 0 <= a < attached@.len() implies #[trigger] attach_justified(*world, p0, t0, self.cache@, attached@[a]) by {
                    if a < att_before.len() {
                        assert(attached@[a] == att_before[a]);
                    } else {
                        assert(p0.contains_key(key));
                    }
                }
                assert forall|y: (InstanceHandle, TextureHandle)| att_before.contains(y) implies #[trigger] attached@.contains(y) by {
                    let j = choose|j: int| 0 <= j < att_before.len() && att_before[j] == y;
                    assert(attached@[j] == y);
                }
                assert forall|k: u64| #[trigger] self.pending_attach@.contains_key(k) <==> (p0.contains_key(k)
                    && (keys@.take(i + 1).contains(k) ==> stays_pending(*world, p0[k]))) by {
                    if k != key {
                        assert(keys@.take(i + 1).contains(k) <==> keys@.take(i as int).contains(k)) by {
                            if keys@.take(i + 1).contains(k) {
                                let t1 = keys@.take(i + 1);
                                let j = choose|j: int| 0 <= j < t1.len() && #[trigger] t1[j] == k;
                                assert(keys@.take(i as int)[j] == k);
                            }
                            if keys@.take(i as int).contains(k) {
                                let tk = keys@.take(i as int);
                                let j = choose|j: int| 0 <= j < tk.len() && #[trigger] tk[j] == k;
                                assert(keys@.take(i + 1)[j] == k);
                            }
                        }
                        assert(before.contains_key(k) == self.pending_attach@.contains_key(k));
                    } else {
                        assert(keys@.take(i + 1)[i as int] == key);
                    }
                }
                assert forall|k: u64| #[trigger] p0.contains_key(k) && keys@.take(i + 1).contains(k)
                    implies attaches_uploaded_at(*world, p0[k], t0, c0, attached@) by {
                    if k != key {
                        let t1 = keys@.take(i + 1);
                        let j = choose|j: int| 0 <= j < t1.len() && #[trigger] t1[j] == k;
                        assert(keys@.take(i as int)[j] == k);
                        assert(attaches_uploaded_at(*world, p0[k], t0, c0, att_before));
                    } else {
                        assert(attached@.last() == attached@[attached@.len() - 1]);
                    }
                }
                assert forall|k: u64| #[trigger] p0.contains_key(k) && keys@.take(i + 1).contains(k)
                    && !self.pending_attach@.contains_key(k)
                    implies drop_explained(*world, p0[k], t0, c0, self.cache@, attached@) by {
                    if k != key {
                        let t1 = keys@.take(i + 1);
                        let j = choose|j: int| 0 <= j < t1.len() && #[trigger] t1[j] == k;
                        assert(keys@.take(i as int)[j] == k);
                        assert(!before.contains_key(k));
                        assert(drop_explained(*world, p0[k], t0, c0, cache_before, att_before));
                    } else {
                        assert(attached@.len() > 0 ==> attached@[attached@.len() - 1] == attached@.last());
                    }
                }
            }
            i = i + 1;
        }
        proof {
            assert(keys@.take(n as int) =~= keys@);
            assert forall|k: u64| #[trigger] p0.contains_key(k) implies attaches_uploaded_at(*world, p0[k], t0, c0, attached@) by {
                assert(keys@.contains(k));
            }
            assert forall|k: u64| #[trigger] p0.contains_key(k) && !self.pending_attach@.contains_key(k)
                implies drop_explained(*world, p0[k], t0, c0, self.cache@, attached@) by {
                assert(keys@.contains(k));
            }
        }
        attached
    }
}

/// Texture components with the same URI share one GPU texture.
pub proof fn law_textures_deduplicated_by_uri(s: TextureSystem, a: u64, b: u64)
    requires
        s.wf(),
        s.textures().contains_key(a),
        s.textures().contains_key(b),
        s.textures()[a].gpu is Some,
        s.textures()[b].gpu is Some,
        s.textures()[a].uri@ == s.textures()[b].uri@,
    ensures
        s.textures()[a].gpu == s.textures()[b].gpu,
        s.uploaded()[s.textures()[a].uri@] == s.textures()[a].gpu->Some_0,
{
}

} // verus!
