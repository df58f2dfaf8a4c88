//! Decoder for WebAssembly binary modules: locates function bodies inside a
//! module image, decodes each body into an address-keyed instruction stream
//! with fully resolved structured-control-flow edges, and keeps the decoded
//! functions in a single-resident, range-keyed module index.

pub mod arc_identity;
pub mod bin_util;
pub mod insn;
pub mod insn_info;
pub mod func_parse;
pub mod module_data;
pub mod module_parse;
pub mod range_index;
pub mod wasm_read;
