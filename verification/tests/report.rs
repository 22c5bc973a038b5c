use solana_build_tool::report::{status_message, Outcome};

fn exited(code: Option<i32>, stdout: &str, stderr: &str) -> Outcome {
    Outcome::Exited { code, stdout: stdout.to_string(), stderr: stderr.to_string() }
}

#[test]
fn status_of_exit_code_zero_is_success() {
    assert_eq!(status_message(Some(0)), "Build succeeded.");
}

#[test]
fn status_of_other_exit_codes_is_failure_with_the_code() {
    assert_eq!(status_message(Some(1)), "Build failed with code Some(1)");
    assert_eq!(status_message(Some(101)), "Build failed with code Some(101)");
    assert_eq!(status_message(Some(-1)), "Build failed with code Some(-1)");
}

#[test]
fn exit_without_code_is_told_as_failure() {
    assert_eq!(status_message(None), "Build failed with code None");
    let messages = exited(None, "", "").report();
    assert_eq!(messages, vec!["Build failed with code None".to_string()]);
    assert_ne!(messages[0], "Build succeeded.");
}

#[test]
fn report_gives_output_then_errors_then_status() {
    let messages = exited(Some(0), "compiled\n", "warning: x\n").report();
    assert_eq!(
        messages,
        vec![
            "compiled\n".to_string(),
            "warning: x\n".to_string(),
            "Build succeeded.".to_string(),
        ]
    );
}

#[test]
fn report_leaves_out_empty_streams() {
    assert_eq!(exited(Some(0), "", "").report(), vec!["Build succeeded.".to_string()]);
    assert_eq!(
        exited(Some(2), "", "error\n").report(),
        vec!["error\n".to_string(), "Build failed with code Some(2)".to_string()]
    );
    assert_eq!(
        exited(Some(0), "out", "").report(),
        vec!["out".to_string(), "Build succeeded.".to_string()]
    );
}

#[test]
fn report_of_a_failed_start_is_one_message() {
    let outcome = Outcome::SpawnFailed { reason: "No such file or directory (os error 2)".to_string() };
    assert_eq!(
        outcome.report(),
        vec!["Command failed: No such file or directory (os error 2)".to_string()]
    );
}

#[test]
fn from_capture_decodes_what_was_written() {
    let outcome = Outcome::from_capture(Some(3), "sol\u{e9}".as_bytes(), b"oops");
    assert_eq!(
        outcome.report(),
        vec![
            "sol\u{e9}".to_string(),
            "oops".to_string(),
            "Build failed with code Some(3)".to_string(),
        ]
    );
}

#[test]
fn from_capture_replaces_what_is_not_text() {
    let outcome = Outcome::from_capture(None, &[b'a', 0xff, b'b'], &[]);
    match &outcome {
        Outcome::Exited { code, stdout, stderr } => {
            assert_eq!(*code, None);
            assert_eq!(stdout, "a\u{fffd}b");
            assert_eq!(stderr, "");
        }
        Outcome::SpawnFailed { .. } => panic!("a captured run is no failed start"),
    }
    assert_eq!(
        outcome.report(),
        vec!["a\u{fffd}b".to_string(), "Build failed with code None".to_string()]
    );
}

#[test]
fn a_silent_run_is_told_by_its_status_alone() {
    let outcome = Outcome::from_capture(Some(0), &[], &[]);
    assert_eq!(outcome.report(), vec!["Build succeeded.".to_string()]);
    let outcome = Outcome::from_capture(Some(7), &[], &[]);
    assert_eq!(outcome.report(), vec!["Build failed with code Some(7)".to_string()]);
}
