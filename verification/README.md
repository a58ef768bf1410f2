# game_engine

The data structures and parsers of a small WebGL game engine and its
multiplayer server, written in Verus and proved against their contracts.

## Library (`src/`)

| module      | contents |
|-------------|----------|
| `memory`    | `Arena` (aligned bump allocation over a byte buffer that can be read and written), `Pool` (fixed slots with a free stack), `Handle` and `GenerationalPool` (handles that go stale when their object is released) |
| `entity`    | `EntityManager` and `Scene`: entities as generational handles over four component pools, each component stored under its entity's handle |
| `keyboard`  | held / just-pressed / just-released key sets |
| `mouse`     | the same for mouse buttons |
| `gltf`      | the glTF subset reader: integer fields after a key, the objects of a JSON array, accessors, buffer views, mesh primitives, little-endian index data, joining the index lists of several primitives |
| `mesh`      | `Mesh`, and the index patterns of the cube, quad, sphere, sun and capsule meshes |
| `textures`  | decoding an embedded image into an RGBA texture (via the `image` crate) |
| `lod`       | level-of-detail levels and the per-frame culling counters |
| `worker`    | splitting particle work into chunks |
| `rng`       | the xorshift generator of the server |
| `world`     | the shared world's limit on live particles |

Every public function states what it returns or changes; the `law_*` proof
functions state properties that span calls (a stored value is read back, a
released handle is stale, chunks partition the range, and so on).

## Around the library (`app/`)

`app/main.rs` is the WebSocket game server (tokio, tungstenite, bincode,
dashmap); `app/client.rs` holds the client-side pieces that work on floating
point (vertex data, distances) and call the library for everything else.

## Tests

The tests under `tests/` exercise the library with concrete values.
