//! Release assistant for map packages: generators and validators for the map
//! script, the music script and the resource manifest of a release, and the
//! index of files on disk that the validators reconcile them against.
//!
//! The library works on plain values. Reading and writing files, walking
//! directories and command-line handling belong to the caller.

pub mod argument_handler;
pub mod directory_index;
pub mod error;
pub mod folder_compressor;
pub mod line_grammar;
pub mod map_script_builder;
pub mod music_script_builder;
pub mod orchestrator;
pub mod paths;
pub mod reslist_builder;
pub mod shared;
pub mod text;
