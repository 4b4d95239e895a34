//! Core of a per-subgraph mapping runtime: validation of a guest module, a
//! bump arena over guest linear memory, the guest object layout, the host
//! functions offered to the guest, and the per-request handler dispatch.

pub mod asc;
pub mod bigint;
pub mod call_abi;
pub mod entity;
pub mod entity_abi;
pub mod ethereum;
pub mod heap;
pub mod host;
pub mod instance;
pub mod json;
pub mod layout;
pub mod module;
pub mod resolver;
pub mod state;
pub mod text;
pub mod version;

pub use host::MappingContext;
pub use instance::{MappingRequest, WasmiModule};
pub use module::ValidModule;
pub use resolver::ModuleResolver;
