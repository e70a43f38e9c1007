# dist_render

The engine-side logic of the DistRender renderer, written in Verus: Verus
checks every function in `src/`, and the public ones state in their
contracts what they return or change.

- `config`: defaults, command-line overrides, validation.
- `error`: engine errors and their messages.
- `event`: event types, descriptions and dispatch by type.
- `runtime`: the renderer backend, recorded once.
- `mesh`, `loaders`: mesh bookkeeping (index buffer, subsets, validation),
  the choice of a loader by file extension, and the vertex count of a list of
  position coordinates.
- `scene`, `scene_laws`, `hierarchy`: the editor's scene graph (ids, parents,
  editor singletons, normalization of stored scenes) and the properties its
  operations keep, such as an acyclic hierarchy with distinct ids; also the
  inspector's steps (parent candidates, parent label, removing a component)
  and the defaults new singletons start from.
- `runtime_scene`: the renderer's bookkeeping of loaded meshes and instances,
  one per path and one per component.
- `logging`, `console`: the bounded log buffer and the console that shows it.
- `gpu_memory`: choice of a GPU memory type.

`app/` is a small command-line program around the library: it reads
`config.toml` (TOML, through `serde`), sets up logging (`log`), and loads OBJ
meshes (`tobj`). Rendering and the editor UI are not part of this crate.
