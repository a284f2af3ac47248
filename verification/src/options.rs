//! Compiler options and language configuration.

use vstd::prelude::*;

verus! {

/// Language variant (silq vs psi).
#[derive(Debug, Clone, Copy, PartialEq, Eq, Structural)]
pub enum Language {
    Silq,
    Psi,
}

impl Default for Language {
    fn default() -> (r: Self)
        ensures
            r == Language::Silq,
    {
        Language::Silq
    }
}

/// Compiler configuration options.
#[derive(Debug)]
pub struct Options {
    /// Language variant.
    pub language: Language,
    /// Paths to search for imported modules.
    pub import_paths: Vec<String>,
    /// Maximum iterations for fixed-point computations.
    pub inference_limit: u32,
    /// Allow unsafe const capture of quantum variables.
    pub allow_unsafe_capture_const: bool,
    /// Remove loops during HQIR compilation.
    pub remove_loops: bool,
    /// Split components flag.
    pub split_components: bool,
    /// Random seed for quantum simulation.
    pub seed: Option<u64>,
    /// Repeat count for --repeat.
    pub repeat: u64,
    /// Verbose output.
    pub verbose: bool,
    /// Trace execution.
    pub trace: bool,
}

impl Default for Options {
    fn default() -> (r: Self)
        ensures
            r.language == Language::Silq,
            r.import_paths@.len() == 0,
            r.inference_limit == 30,
            !r.allow_unsafe_capture_const,
            !r.remove_loops,
            !r.split_components,
            r.seed is None,
            r.repeat == 1,
            !r.verbose,
            !r.trace,
    {
        Options {
            language: Language::Silq,
            import_paths: Vec::new(),
            inference_limit: 30,
            allow_unsafe_capture_const: false,
            remove_loops: false,
            split_components: false,
            seed: None,
            repeat: 1,
            verbose: false,
            trace: false,
        }
    }
}

} // verus!
