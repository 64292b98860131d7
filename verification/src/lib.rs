//! A runtime function-hooking library.
//!
//! A host program makes a function interceptable by creating a
//! [`HookableFuncMetadata`] record for it and placing the record in a
//! [`HookableFuncRegistry`], the process-wide name directory. Callers then
//! attach, order and detach [`Hook`] interceptors on the record at runtime;
//! a call routed through [`call_with_hook`] runs the record's hook chain in
//! priority order and falls back to the original function when the chain is
//! exhausted. A record whose chain is empty reports a clear fast-path flag,
//! so a call site — [`call_hookable`] is that conditional — skips dispatch
//! entirely and runs the original body.

pub mod dispatch;
pub mod registry;
pub mod sig;

pub use dispatch::call_hookable;
pub use dispatch::call_with_hook;
pub use dispatch::Hook;
pub use dispatch::HookChain;
pub use dispatch::HookEntry;
pub use registry::lookup_hookable;
pub use registry::lookup_hookable_mut;
pub use registry::HookableFuncMetadata;
pub use registry::HookableFuncRegistry;
pub use registry::SigMismatch;
pub use sig::SigTag;
