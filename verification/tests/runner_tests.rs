use noir_runner::Error;
use noir_runner::FieldElement;
use noir_runner::NoirRunner;
use noir_runner::RunEvent;
use noir_runner::Value;

#[test]
fn test_try_new_resolves_runner() {
    let runner = NoirRunner::try_new(
        String::from("tests"),
        Ok(String::from("tests/export")),
    )
    .unwrap();

    assert_eq!(runner.program_dir().as_str(), "tests");
    assert_eq!(runner.export_directory().as_str(), "tests/export");
}

#[test]
fn test_try_new_manifest_failure() {
    let result = NoirRunner::try_new(
        String::from("tests"),
        Err(String::from("Nargo.toml not found")),
    );

    assert_eq!(
        result.unwrap_err(),
        Error::NargoManifest(String::from("Nargo.toml not found"))
    );
}

#[test]
fn test_artifact_path() {
    let runner = NoirRunner::try_new(
        String::from("tests"),
        Ok(String::from("tests/export")),
    )
    .unwrap();

    assert_eq!(runner.artifact_path("addition"), "tests/export/addition.json");
}

#[test]
fn test_missing_artifact_is_io_error() {
    let outcome = NoirRunner::conclude(RunEvent::ArtifactUnreadable(String::from(
        "No such file or directory",
    )));

    assert_eq!(
        outcome,
        Err(Error::Io(String::from("No such file or directory")))
    );
}

#[test]
fn test_malformed_artifact_is_serde_error() {
    let outcome = NoirRunner::conclude(RunEvent::ArtifactMalformed(String::from(
        "unknown artifact version",
    )));

    assert_eq!(
        outcome,
        Err(Error::Serde(String::from("unknown artifact version")))
    );
}

#[test]
fn test_missing_parameter_is_abi_error() {
    let outcome = NoirRunner::conclude(RunEvent::EncodeFailed(String::from(
        "missing parameter: y",
    )));

    assert_eq!(outcome, Err(Error::Abi(String::from("missing parameter: y"))));
}

#[test]
fn test_decode_failure_is_abi_error() {
    let outcome = NoirRunner::conclude(RunEvent::DecodeFailed(String::from(
        "return shape mismatch",
    )));

    assert_eq!(outcome, Err(Error::Abi(String::from("return shape mismatch"))));
}

#[test]
fn test_solver_failure_is_nargo_error() {
    let outcome = NoirRunner::conclude(RunEvent::SolveFailed(String::from(
        "assertion failed in circuit",
    )));

    assert_eq!(
        outcome,
        Err(Error::Nargo(String::from("assertion failed in circuit")))
    );
}

#[test]
fn test_empty_witness_stack_is_absent_output() {
    let outcome = NoirRunner::conclude(RunEvent::EmptyWitnessStack);

    assert_eq!(outcome, Ok(None));
}

#[test]
fn test_void_return_is_absent_output() {
    let outcome = NoirRunner::conclude(RunEvent::Decoded(None));

    assert_eq!(outcome, Ok(None));
}

#[test]
fn test_decoded_value_is_returned() {
    let outcome = NoirRunner::conclude(RunEvent::Decoded(Some(Value::Scalar(
        FieldElement::from_u64(5),
    ))));

    assert_eq!(outcome, Ok(Some(Value::Scalar(FieldElement::from_u64(5)))));
}
