//! Finds the call sites of an LLVM module that matter to a security analysis:
//! those whose demangled callee a catalog lists as an LLM call, as an access
//! control check or as an access to a data store.

pub mod catalog;
pub mod catalog_laws;
pub mod matching;
pub mod matching_laws;
pub mod module;
pub mod module_laws;
pub mod path;
pub mod path_laws;
pub mod search;
pub mod signature;
pub mod signature_laws;
pub mod symbol;
pub mod symbol_laws;
pub mod text;

pub use catalog::{
    collect_signatures, entry_signature, load_signatures, CatalogEntry, CatalogError,
    CatalogLibrary,
};
pub use matching::{classify_callee, match_any, match_callsite, match_demangled};
pub use module::{
    callee_symbol, find_security_points, BasicBlock, Callee, Function, Instruction, Module,
    Terminator,
};
pub use path::{candidate_paths, last_two, matching_angle, split_as_top_level, strip_turbofish};
pub use signature::{SecurityPoint, SecurityTag, Signature};
pub use symbol::strip_symbol;
