# ecs_inspector

The decisions of a bevy ECS world inspector, verified with Verus:

- `order`: the listing order (lexicographic on integer keys; names by their
  UTF-8 bytes, entities by generation then index) and its laws.
- `sorting`: a stable sort by key, with proofs that it only reorders, that its
  result is unique, and that sorted input comes back unchanged.
- `text`: decimal rendering of integers.
- `entity`: entities, how they are written (`5v0`) and named (`Light (6)`, `Entity (8)`).
- `registry`: which registered types are listed as resources or assets, and in
  which order.
- `components`: the components of an entity under their pretty type names,
  and what is shown for each.
- `handles`: how values that are asset handles are shown.
- `messages`: the texts shown when something cannot be displayed.

`app/` reads the bevy world and type registry, calls the library, and draws
with egui.
