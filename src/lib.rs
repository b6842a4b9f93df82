//! Native-interface export bindings: descriptor parsing, symbol mangling and
//! export stub generation.
pub mod jni_export;
pub mod mangling;
pub mod signature;
mod text;
