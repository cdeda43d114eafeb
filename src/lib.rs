pub mod layout;
pub mod note_map;
pub mod engine;
pub mod emit;
