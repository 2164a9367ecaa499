# lumina

The data and bookkeeping core of a small game engine, verified with Verus.

`src/` holds the verified library:

- `shader_parser`: reads the uniform declarations of a vertex and a fragment shader into a
  table of sizes, bindings and image kinds.
- `descriptor`: the descriptors of a shader, the bindings of their layout and their positions
  in binding order, and the buffers and images that each frame needs.
- `uniforms`: the push-constant and descriptor values of a shader, block by block, set by
  `block.field` locations and read back by type, and their bytes in a buffer.
- `layout`: the push-constant ranges, descriptor set layouts and block sizes that a shader's
  blocks call for, stage by stage.
- `files`: the archive format (length-prefixed, sealed with `simple_crypt`), the loader,
  the saver and the scene document.
- `path`, `texture`: where images and models live, on disk or in an archive.
- `object`, `ecs`: game objects with fresh ids, entities holding one component per type,
  stages and scenes, and the split of work among workers.
- `logger`, `mouse`, `window`, `light`, `camera`, `padding`, `atlas`, `buffer`: smaller
  pieces of engine state.
- `table`, `text`: a map keyed by strings, and character utilities.

`app/` holds what the library leaves to the caller: reading and writing files, the printing
thread of the logger, the JSON form of the scene document, and the floating-point types
(transforms, lights, cameras, materials, the cube mesh).
