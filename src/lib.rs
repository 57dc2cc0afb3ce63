//! A compiler from the MDFS chart language to MDF charts: a line parser, a
//! time map from tempo and subdivision, a note generator with per-lane hold
//! state, and the assembly of the final chart.

use vstd::prelude::*;

pub mod checkpoints;
pub mod cli;
pub mod compile;
pub mod error;
pub mod generate;
pub mod laws;
pub mod manifest;
pub mod numbers;
pub mod parser;
pub mod schema;
pub mod tail;
pub mod text;
pub mod time_map;

pub use cli::default_output_path;
pub use compile::{compile_parsed, compile_str, compile_str_with_manifest};
pub use error::{CompileError, CompileErrorKind, ErrorCode};
pub use generate::pass2_generate;
pub use manifest::{ManifestFile, resources_from_entries};
pub use numbers::Bpm;
pub use parser::{Directive, ParsedMdfs, TrackLine, parse_mdfs};
pub use schema::{BgmEvent, MdfChart, Metadata, Note, NoteKind, Resources};
pub use tail::{RevSpec, SoundSpec};

verus! {

/// Where the sound manifest of a source is resolved from.
#[derive(Debug, Clone, Default)]
pub struct CompileOptions {
    pub base_dir: Option<String>,
}

} // verus!
