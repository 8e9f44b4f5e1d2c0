# train_game

A model-railway game: lay tracks across a procedurally shaded terrain, run
trains on them, watch the smoke.

The crate is split in two.

* `src/` is a library verified with Verus. It holds the logic that does not
  depend on floating point or on devices:
  * `event_bus` – the per-frame event queue (`EventBus`, `TrainEvent`) and the
    font picker;
  * `entity` – entity identifiers and the spawner that hands them out;
  * `terrain` – chunk indices, terrain chunks and the chunk registry of the
    world: spawning chunks, filling the block around a position, registering
    and deregistering tracks and nodes, growing trees, mesh bookkeeping, and the
    quad tile around a point, and the vertex numbering of chunk meshes;
  * `chunk_order` – the order of chunk indices;
  * `chunk_textures` – which chunk textures a frame's events ask to redraw or
    create;
  * `world` – the library's part of the world state, selection by clicks, the
    followed car, panning and the chunk requests made from the keyboard;
  * `ui` – how a text box reacts to the mouse;
  * `sounds` – the sound kinds, their files and the commands the frame's events
    give to the sound player;
  * `render_commands` – the layered queue of drawing commands.
* `app/` is the program: window, input, audio, GPU rendering and everything
  measured in floating point, built on the library.

`tests/` exercises the library on concrete values.
