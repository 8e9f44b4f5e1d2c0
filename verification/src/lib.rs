//! The game logic of a model railway: the per-frame event bus, the terrain
//! chunks and how tracks and nodes are registered on them, selection and input
//! decisions, the UI's button logic, the sound commands, and the layered queue
//! of drawing commands. Everything here is verified with Verus; rendering,
//! audio, input devices and all floating-point geometry stay in the program
//! around it.

pub mod chunk_order;
pub mod chunk_textures;
pub mod entity;
pub mod event_bus;
pub mod render_commands;
pub mod sounds;
pub mod terrain;
pub mod ui;
pub mod world;
