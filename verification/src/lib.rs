//! Runtime ARM64 inline-hooking engine, with verified instruction
//! relocation, plus the memory-utility modules that surround it.

pub mod a64;
pub mod arm64;
pub mod base64;
pub mod constants;
pub mod context;
pub mod fixers;
pub mod install;
pub mod kitty_utils;
pub mod maps;
pub mod mono_string;
pub mod patch;
pub mod pool;
pub mod scanner;
pub mod str_enc;
pub mod text;
pub mod tools;
pub mod vint3;
