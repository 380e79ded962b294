# render3d

The verified core of a voxel engine with multiplayer. Verus proves each
function of `src/` against its contract; `app/` is the program around it
(networking with tokio, files, noise sampling and floating-point geometry).

## Layout of `src/`

- `range_alloc`, `buffer_alloc`, `indirect`: first-fit sub-allocation of the
  unified vertex and index buffers and the slot table of indirect draws.
- `mesh`, `texture`, `atlas`: quad indices, mip chains and atlas assembly.
- `protocol`, `text`, `transport`, `server`, `client`: the wire format of
  packets, the server's player table and the client's session.
- `menu`, `settings`: main-menu text input and player settings.
- `block`, `biome`, `constants`, `chunk`, `terrain`, `trees`, `generation`,
  `world`: chunk columns, the block rules of terrain generation fed with
  noise samples, tree and cactus placement, and the loaded-chunk store.
- `meshing`: the faces of a subchunk that can be seen, split into a solid
  and a water list, from which `app/` builds the vertex buffers.
- `structures`, `loader`, `save_format`: prefabricated structures, the chunk
  and mesh worker queues, and the save-file frame.

Each module states its laws as public proof functions (`lemma_*`).
