use crate::error::Error;
use crate::value::Value;
use vstd::prelude::*;
use vstd::string::StringExecFns;

verus! {

/// Runs exported functions of a compiled Noir program.
///
/// A runner holds the program root directory, where the package manifest
/// lives, and the export directory resolved from that manifest once at
/// construction, where one artifact file per exported function is
/// pre-materialized. It is immutable after construction; invocations are
/// independent of one another.
#[derive(Debug)]
pub struct NoirRunner {
    /// The root directory of the Noir program.
    pub program_dir: String,
    /// The directory holding one compiled artifact per exported function.
    pub export_directory: String,
}

/// What the external collaborators made of the steps of one invocation:
/// the single event that settles its outcome.
#[derive(Debug, PartialEq, Eq)]
pub enum RunEvent {
    /// The artifact file could not be opened or read.
    ArtifactUnreadable(String),
    /// The artifact content could not be parsed, or was produced by an
    /// incompatible toolchain version.
    ArtifactMalformed(String),
    /// The inputs could not be encoded against the declared interface.
    EncodeFailed(String),
    /// The solver could not produce a satisfying witness; the payload is
    /// the rendered best-effort diagnostic.
    SolveFailed(String),
    /// The solver succeeded with an empty witness stack: there is no frame
    /// to decode, so the invocation has no output.
    EmptyWitnessStack,
    /// The outermost witness frame could not be decoded against the
    /// declared return shape.
    DecodeFailed(String),
    /// The outermost witness frame decoded against the declared return
    /// shape: a value for a non-void function, nothing for a void one.
    Decoded(Option<Value>),
}

/// The outcome an invocation settles to for each event: failures map to
/// their member of the error taxonomy, an empty stack and a void return
/// are success without output, a decoded value is success with it.
pub open spec fn outcome_of(event: RunEvent) -> Result<Option<Value>, Error> {
    match event {
        RunEvent::ArtifactUnreadable(m) => Err(Error::Io(m)),
        RunEvent::ArtifactMalformed(m) => Err(Error::Serde(m)),
        RunEvent::EncodeFailed(m) => Err(Error::Abi(m)),
        RunEvent::SolveFailed(m) => Err(Error::Nargo(m)),
        RunEvent::EmptyWitnessStack => Ok(None),
        RunEvent::DecodeFailed(m) => Err(Error::Abi(m)),
        RunEvent::Decoded(v) => Ok(v),
    }
}

impl NoirRunner {
    /// Constructs a runner from the program root directory and the outcome
    /// of resolving the manifest found there: the resolved export
    /// directory, or the resolver's rendered failure.
    pub fn try_new(program_dir: String, resolved_export: Result<String, String>) -> (r: Result<
        NoirRunner,
        Error,
    >)
        ensures
            r == match resolved_export {
                Ok(e) => Ok::<NoirRunner, Error>(
                    NoirRunner { program_dir: program_dir, export_directory: e },
                ),
                Err(m) => Err::<NoirRunner, Error>(Error::NargoManifest(m)),
            },
    {
        match resolved_export {
            Ok(e) => Ok(NoirRunner { program_dir, export_directory: e }),
            Err(m) => Err(Error::NargoManifest(m)),
        }
    }

    /// Returns the program root directory.
    pub fn program_dir(&self) -> (r: &String)
        ensures
            r == &self.program_dir,
    {
        &self.program_dir
    }

    /// Returns the export directory.
    pub fn export_directory(&self) -> (r: &String)
        ensures
            r == &self.export_directory,
    {
        &self.export_directory
    }

    /// The path of the compiled artifact of a named function: the file
    /// named after the function, with the artifact extension, inside the
    /// export directory.
    pub fn artifact_path(&self, fn_name: &str) -> (r: String)
        ensures
            r@ == self.export_directory@ + "/"@ + fn_name@ + ".json"@,
    {
        let mut p = self.export_directory.clone();
        p.append("/");
        p.append(fn_name);
        p.append(".json");
        p
    }

    /// Settles an invocation: maps the event the external collaborators
    /// produced to the invocation's result, with no retry and no partial
    /// success.
    pub fn conclude(event: RunEvent) -> (r: Result<Option<Value>, Error>)
        ensures
            r == outcome_of(event),
    {
        match event {
            RunEvent::ArtifactUnreadable(m) => Err(Error::Io(m)),
            RunEvent::ArtifactMalformed(m) => Err(Error::Serde(m)),
            RunEvent::EncodeFailed(m) => Err(Error::Abi(m)),
            RunEvent::SolveFailed(m) => Err(Error::Nargo(m)),
            RunEvent::EmptyWitnessStack => Ok(None),
            RunEvent::DecodeFailed(m) => Err(Error::Abi(m)),
            RunEvent::Decoded(v) => Ok(v),
        }
    }
}

} // verus!
