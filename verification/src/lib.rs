//! Sandboxed shell sessions: the prompt-marker protocol that turns a shell's
//! byte stream into command results, the lifecycle of a sandbox, and the
//! registry that holds the sandboxes.

pub mod http;
pub mod sandbox;
pub mod text;
