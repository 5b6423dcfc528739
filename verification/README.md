# aurora

The logic of a ray-tracing renderer backend, verified with Verus.

- `src/` decides: what a mesh file means, how transforms, skins, lights and materials are kept,
  which commands a frame records and in which order. It holds plain values only. Numbers with a
  fraction are carried as bit patterns, objects of the device as handles and addresses.
- `app/` performs: it makes the objects that the library asks for, records the commands it hands
  out, and computes what needs floating point.
- `tests/` runs the library on concrete values.

## Modules

| module | what it holds |
| --- | --- |
| `cluster_mesh` | the `.cluster_mesh` format, chunking a mesh into clusters and back |
| `blas`, `blas_batch`, `omm`, `procedural_mesh` | acceleration structures, micromaps, meshes that kernels fill |
| `gpu_transform`, `skinning`, `skin_joints` | the node table, skinned instances and their joints |
| `lights`, `material`, `portal`, `env_light`, `sky`, `atmosphere` | what the rays meet |
| `restir`, `sharc`, `auto_exposure`, `dlss` | state that lives from frame to frame |
| `ray_render_plugin`, `compute`, `commands` | the frame, dispatches and the commands themselves |
| `render_device`, `render_texture`, `shader`, `aftermath` | the device layer |
| `animclip`, `collision`, `assets`, `gizmo_render`, `debug_view`, `dev_ui` | files, debugging |
| `record`, `rows`, `wire`, `bits`, `text`, `math`, `slot_map` | bytes, words, text and arithmetic |

Outside calls stand behind small trusted functions: the lz4 frame coder (`cluster_mesh::file`),
UTF-8 decoding (`animclip`) and the conversion of images (`render_texture`).
