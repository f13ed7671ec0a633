//! Engine of a pixel-art editor: editing intents are translated into
//! reversible primitive effects on a sparse canvas, kept in a log that
//! drives undo, redo and checkpoints.

pub mod canvas;
pub mod clock;
pub mod command;
pub mod config;
pub mod editor;
pub mod engine;
pub mod failure;
pub mod frame;
pub mod history;
pub mod marker;
pub mod model;
pub mod names;
pub mod records;
pub mod scene;
pub mod stage;
pub mod text;
pub mod transform;
pub mod view;
pub mod window;
