//! Cross-platform weak dynamic linkage: build-time stub generation and a
//! verified model of the runtime resolution engine.
//!
//! The build-time half inspects binary artifacts for exported or imported
//! symbols, accumulates symbol stubs in a [`Config`], and emits the source
//! text of a stub translation unit (a synthetic symbol table plus one
//! trampoline per code symbol).  The runtime half models the library handle,
//! the synthetic symbol table, group resolution with status caching, and the
//! checked-mode assertion discipline.

pub mod config;
pub mod errors;
pub mod exports;
pub mod group;
pub mod imports;
pub mod laws;
pub mod library;
pub mod loading;
pub mod object;
pub mod stub_gen;
pub mod textfmt;

pub use config::Config;
pub use config::SymbolStub;
