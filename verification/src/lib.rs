//! The core of a windowed click-speed game: a per-frame input baker, the
//! scheduling algebra of the event loop, a stack of game states with its
//! transition processor, the model of the GPU surface and its render
//! targets, and the driver that sequences them for each platform event.
//!
//! The crate owns no window, device or clock. The embedding program owns
//! them, feeds the driver plain events and carries out the actions that
//! the driver hands back.

pub mod app;
pub mod assets;
pub mod input;
pub mod loop_state;
pub mod platform;
pub mod registry;
pub mod render;
pub mod stack;
pub mod state;
pub mod window;
