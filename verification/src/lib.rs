//! Loading of 64-bit ELF executables: the parts of the loader that decide
//! where and how each piece of an image goes, with their contracts.

pub mod page;
pub mod error;
pub mod x64;
pub mod elf;
pub mod loader64;
