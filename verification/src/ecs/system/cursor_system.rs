use vstd::prelude::*;

verus! {

/// Keeps the cursor-driven components: (entity, entity-scoped component) pairs.
pub struct CursorSystem {
    cursors: Vec<(u64, u32)>,
}

impl CursorSystem {
    pub closed spec fn cursors(&self) -> Seq<(u64, u32)> {
        self.cursors@
    }

    pub fn new() -> (s: Self)
        ensures
            s.cursors() == Seq::<(u64, u32)>::empty(),
    {
        CursorSystem { cursors: Vec::new() }
    }

    /// Register a cursor-driven component once.
    pub fn register_cursor(&mut self, entity: u64, component: u32)
        ensures
            final(self).cursors() == (if old(self).cursors().contains((entity, component)) {
                old(self).cursors()
            } else {
                old(self).cursors().push((entity, component))
            }),
    {
        let n = self.cursors.len();
        let mut i: usize = 0;
        while i < n
            invariant
                n == self.cursors@.len(),
                i <= n,
                forall|j: int| 0 <= j < i ==> self.cursors@[j] != (entity, component),
            decreases n - i,
        {
            let (e, c) = self.cursors[i];
            if e == entity && c == component {
                return;
            }
            i = i + 1;
        }
        self.cursors.push((entity, component));
    }
}

} // verus!
