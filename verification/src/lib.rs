//! Plugin-side support for wasmium: the length-prefixed frames that carry
//! MessagePack payloads between host and plugin, a model of the plugin's
//! linear memory with its allocator, the exports built on it, the protocol of
//! calls into host imports, the runtime's initialization and panic text, and
//! the decisions behind the plugin macros.

pub mod codegen;
pub mod exports;
pub mod frame;
pub mod import;
pub mod memory;
pub mod msgpack;
pub mod runtime;
pub mod text;
pub mod syntax;
