use directive_reducer::directive::{remove_directive, replace_directive};
use directive_reducer::errors::RunError;
use directive_reducer::oracle::{classify_exit, OracleResponse};
use directive_reducer::reduce::{begin, RunOutcome, Step};

fn b(s: &str) -> Vec<u8> {
    s.as_bytes().to_vec()
}

const REPLACEMENT: &str = "// compile-flags: -Cdebug-assertions=no";

#[test]
fn file_without_directive_is_ignored_and_untouched() {
    let original = b("fn main() {}\n");
    let m = begin(original.clone());
    match m.on_oracle(OracleResponse::Pass) {
        Step::Done { outcome, final_content } => {
            assert_eq!(outcome, RunOutcome::Ignored);
            assert_eq!(final_content, original);
        },
        _ => panic!("expected a terminal outcome"),
    }
}

#[test]
fn sanity_failure_aborts_before_any_mutation() {
    let original = b("x\n// ignore-debug\ny\n");
    let m = begin(original.clone());
    match m.on_oracle(OracleResponse::Fail) {
        Step::Fatal { error, restore } => {
            assert_eq!(error, RunError::BaselineFailure);
            assert_eq!(restore, original);
        },
        _ => panic!("a failing baseline must abort the run"),
    }
}

#[test]
fn tooling_error_is_fatal_in_every_phase() {
    let original = b("x\n// ignore-debug\ny\n");

    let m = begin(original.clone());
    match m.on_oracle(OracleResponse::ToolingError) {
        Step::Fatal { error, restore } => {
            assert_eq!(error, RunError::ToolingFailure);
            assert_eq!(restore, original);
        },
        _ => panic!("a tooling error must abort the run"),
    }

    let m = begin(original.clone()).on_oracle(OracleResponse::Pass);
    let m = match m {
        Step::Continue { next, .. } => next,
        _ => panic!("expected the remove phase"),
    };
    match m.on_oracle(OracleResponse::ToolingError) {
        Step::Fatal { error, restore } => {
            assert_eq!(error, RunError::ToolingFailure);
            assert_eq!(restore, original);
        },
        _ => panic!("a tooling error must abort the run"),
    }
}

#[test]
fn failing_remove_keeps_the_original() {
    let original = b("x\n// ignore-debug\ny\n");
    let removed = remove_directive(&original).unwrap();

    let m = begin(original.clone());
    let (m, write) = match m.on_oracle(OracleResponse::Pass) {
        Step::Continue { next, write } => (next, write),
        _ => panic!("expected the remove phase"),
    };
    assert_eq!(write, removed);
    match m.on_oracle(OracleResponse::Fail) {
        Step::Done { outcome, final_content } => {
            assert_eq!(outcome, RunOutcome::UnmodifiedOk);
            assert_eq!(final_content, original);
        },
        _ => panic!("expected a terminal outcome"),
    }
}

#[test]
fn failing_replace_keeps_the_remove_transform() {
    let original = b("x\n// ignore-debug\ny\n");
    let removed = remove_directive(&original).unwrap();
    let replaced = replace_directive(&original).unwrap();

    let m = begin(original.clone());
    let m = match m.on_oracle(OracleResponse::Pass) {
        Step::Continue { next, .. } => next,
        _ => panic!("expected the remove phase"),
    };
    let (m, write) = match m.on_oracle(OracleResponse::Pass) {
        Step::Continue { next, write } => (next, write),
        _ => panic!("expected the replace phase"),
    };
    assert_eq!(write, replaced);
    match m.on_oracle(OracleResponse::Fail) {
        Step::Done { outcome, final_content } => {
            assert_eq!(outcome, RunOutcome::RemoveOk);
            assert_eq!(final_content, removed);
        },
        _ => panic!("expected a terminal outcome"),
    }
}

#[test]
fn passing_replace_keeps_the_replacement() {
    let original = b("x\n// ignore-debug\ny\n");
    let replaced = replace_directive(&original).unwrap();

    let m = begin(original.clone());
    let m = match m.on_oracle(OracleResponse::Pass) {
        Step::Continue { next, .. } => next,
        _ => panic!("expected the remove phase"),
    };
    let m = match m.on_oracle(OracleResponse::Pass) {
        Step::Continue { next, .. } => next,
        _ => panic!("expected the replace phase"),
    };
    match m.on_oracle(OracleResponse::Pass) {
        Step::Done { outcome, final_content } => {
            assert_eq!(outcome, RunOutcome::ReplaceOk);
            assert_eq!(final_content, replaced);
            assert_eq!(final_content, b(&format!("x\n{}\ny\n", REPLACEMENT)));
        },
        _ => panic!("expected a terminal outcome"),
    }
}

#[test]
fn anomalous_file_aborts_after_sanity() {
    let original = b("// ignore-debug: a\n// ignore-debug: b\n");
    let m = begin(original.clone());
    match m.on_oracle(OracleResponse::Pass) {
        Step::Fatal { error, restore } => {
            assert_eq!(error, RunError::DirectiveAnomaly);
            assert_eq!(restore, original);
        },
        _ => panic!("an anomalous file must abort the run"),
    }
}

fn run_to_outcome(original: Vec<u8>, responses: &[OracleResponse]) -> (RunOutcome, Vec<u8>) {
    let mut machine = begin(original);
    for resp in responses {
        match machine.on_oracle(*resp) {
            Step::Continue { next, .. } => machine = next,
            Step::Done { outcome, final_content } => return (outcome, final_content),
            Step::Fatal { .. } => panic!("unexpected fatal step"),
        }
    }
    panic!("ran out of oracle responses");
}

#[test]
fn second_run_over_resolved_files_ignores_them() {
    let original = b("x\n// ignore-debug\ny\n");

    // first run resolves by removal
    let (outcome, after_first) =
        run_to_outcome(original.clone(), &[OracleResponse::Pass, OracleResponse::Pass, OracleResponse::Fail]);
    assert_eq!(outcome, RunOutcome::RemoveOk);
    let (second, after_second) = run_to_outcome(after_first.clone(), &[OracleResponse::Pass]);
    assert_eq!(second, RunOutcome::Ignored);
    assert_eq!(after_second, after_first);

    // first run resolves by replacement
    let (outcome, after_first) = run_to_outcome(
        original,
        &[OracleResponse::Pass, OracleResponse::Pass, OracleResponse::Pass],
    );
    assert_eq!(outcome, RunOutcome::ReplaceOk);
    let (second, after_second) = run_to_outcome(after_first.clone(), &[OracleResponse::Pass]);
    assert_eq!(second, RunOutcome::Ignored);
    assert_eq!(after_second, after_first);
}

#[test]
fn exit_code_zero_is_a_pass() {
    assert_eq!(classify_exit(true, Some(0)), OracleResponse::Pass);
}

#[test]
fn nonzero_exit_code_is_a_test_failure() {
    assert_eq!(classify_exit(true, Some(1)), OracleResponse::Fail);
    assert_eq!(classify_exit(true, Some(101)), OracleResponse::Fail);
    assert_eq!(classify_exit(true, Some(-1)), OracleResponse::Fail);
}

#[test]
fn launch_failures_are_tooling_errors() {
    assert_eq!(classify_exit(false, None), OracleResponse::ToolingError);
    assert_eq!(classify_exit(false, Some(0)), OracleResponse::ToolingError);
    assert_eq!(classify_exit(true, None), OracleResponse::ToolingError);
}

#[test]
fn only_the_empty_target_set_is_a_warning() {
    assert!(RunError::EmptyTargetSet.is_warning());
    assert!(!RunError::BaselineFailure.is_warning());
    assert!(!RunError::ToolingFailure.is_warning());
    assert!(!RunError::DirectiveAnomaly.is_warning());
    assert!(!RunError::ReportWriteFailure.is_warning());
}

#[test]
fn every_error_has_a_message() {
    let all = [
        RunError::EmptyTargetSet,
        RunError::MissingRepoRoot,
        RunError::MissingTargetDirectory,
        RunError::ToolingUnavailable,
        RunError::BaselineFailure,
        RunError::ToolingFailure,
        RunError::DirectiveAnomaly,
        RunError::ReportWriteFailure,
    ];
    for e in all {
        assert!(!e.message().is_empty());
    }
}
