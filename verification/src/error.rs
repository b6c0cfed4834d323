use vstd::prelude::*;

verus! {

/// Every failure the runner surfaces. Each carries the rendered message of
/// the collaborator that failed.
#[derive(Debug, PartialEq, Eq)]
pub enum Error {
    /// The package manifest was missing or malformed, or the workspace and
    /// its export directory could not be resolved from it. Raised only
    /// during construction.
    NargoManifest(String),
    /// A filesystem failure while reading an artifact file. Raised only
    /// while running a function.
    Io(String),
    /// Artifact content that could not be parsed, including content
    /// produced by an incompatible toolchain version.
    Serde(String),
    /// An input or output shape mismatch against the function's declared
    /// interface, at either encode or decode time.
    Abi(String),
    /// The solver could not produce a satisfying witness; carries a
    /// best-effort rendered diagnostic, never a structured cause.
    Nargo(String),
}

} // verus!
