//! Lemonyde's core: the rules of a community bootstrapper for the Sober
//! flatpak, each with its behaviour stated in a contract and proved.
//!
//! The library holds the FastFlag editor and the wrapper settings of
//! Sober's `config.json`, the reading of `flatpak` output, the bookkeeping
//! of isolated instance slots, the paths under which everything lives, and
//! the small text helpers the interface needs. Reading and writing files,
//! running processes and drawing windows is left to the program around it.

pub mod text;
pub mod number;
pub mod keyed_map;
pub mod value;
pub mod paths;
pub mod editor;
pub mod slots;
pub mod flatpak;
pub mod markup;
pub mod catalog;
