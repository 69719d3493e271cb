# cat_engine

The component core of a small game engine, written in Verus: every function
in `src/` carries a contract that Verus proves.

- `ecs::world` — the world: components in a slot map (behind a few trusted
  wrappers of the `slotmap` crate), linked into parent/child trees that never
  form a cycle; reparenting, subtree removal, typed access, subtree walks.
- `ecs::entity` — an entity: a forest of components with entity-scoped ids,
  its initialization order (parents before children) and subtree removal.
- `ecs::command_queue` — commands that components queue for the systems,
  flushed in order into system calls.
- `ecs::component` — the component kinds a world node can hold.
- `ecs::system` — the systems: camera registry, renderable and texture
  bookkeeping (textures are shared by URI), input and cursor registries, zone
  enumeration, the attachments (which rider a pointer acts for, which
  mountable a hit selects, nearest transforms, and the live rider-mountable
  edges, one per rider and per mountable), the gesture step (grabs, drags and
  clicks decided from a frame of pointer inputs and ray hits), and
  `SystemWorld`, which performs flushed calls.
- `graphics` — resource handles, the mesh upload cache, the bounded material
  cache (least recently used eviction) and the visual world, whose draw order
  is sorted by material, mesh and texture and split into batches.
- `text` — string comparison used by the parsers.

`app/` holds what is not verified: float math (camera and eye-rotation
limits, transform poses and world matrices, which also perform the transform
calls the library leaves to the application), file loading of textures, diagnostics printing, and the per-frame
loop that performs the calls the library leaves to the application.
