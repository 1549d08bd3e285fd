//! Rendering of markdown notes whose fenced code blocks can be saved to files
//! and run inside a container bound to the note's directory.

pub mod block;
pub mod channel;
pub mod clock;
pub mod docker;
pub mod events;
pub mod file_tree;
pub mod liveness;
pub mod markup;
pub mod options;
pub mod renderer;
pub mod session;
pub mod splicer;
pub mod text;
