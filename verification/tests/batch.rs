use solana_build_tool::batch::{Batch, Phase, Step};
use solana_build_tool::invocation::Invocation;
use solana_build_tool::model::{Feature, Preset, Program};
use solana_build_tool::report::Outcome;

fn feature(name: &str) -> Feature {
    Feature { name: name.to_string(), sub_features: Vec::new() }
}

fn program(name: &str, features: &[&str], selected: &[bool]) -> Program {
    Program {
        name: name.to_string(),
        features: features.iter().map(|f| feature(f)).collect(),
        selected: selected.to_vec(),
        path: format!("/ws/programs/{}", name),
    }
}

fn ok() -> Outcome {
    Outcome::Exited { code: Some(0), stdout: String::new(), stderr: String::new() }
}

fn failed(code: Option<i32>, stderr: &str) -> Outcome {
    Outcome::Exited { code, stdout: String::new(), stderr: stderr.to_string() }
}

/// Runs a batch to its end, ending call number `i` with `outcomes[i]`.
/// Gives every message in the order handed out, and the programs called.
fn drive(batch: &mut Batch, outcomes: Vec<Outcome>) -> (Vec<String>, Vec<Invocation>) {
    let mut log = Vec::new();
    let mut calls = Vec::new();
    let mut outcomes = outcomes.into_iter();
    let mut step: Option<Step> = batch.start();
    while let Some(current) = step {
        log.extend(current.messages);
        match current.run {
            Some(call) => {
                calls.push(call);
                let outcome = outcomes.next().expect("an outcome for every call");
                step = batch.advance(&outcome);
            }
            None => step = None,
        }
    }
    (log, calls)
}

#[test]
fn selective_build_of_one_program() {
    let programs = vec![program("vault", &["prod", "staking"], &[false, true])];
    let mut batch = Batch::selective(&programs, &None);
    let (log, calls) = drive(&mut batch, vec![ok()]);
    assert_eq!(
        log,
        vec![
            "Running: anchor build -p vault -- --features staking (from /ws/programs/vault)"
                .to_string(),
            "Build succeeded.".to_string(),
            "Build complete.".to_string(),
        ]
    );
    assert_eq!(calls.len(), 1);
    assert_eq!(calls[0].features, Some("staking".to_string()));
    assert_eq!(calls[0].directory, "/ws/programs/vault");
    assert_eq!(batch.phase(), Phase::Done);
}

#[test]
fn selective_build_of_one_program_that_fails() {
    let programs = vec![program("vault", &["prod", "staking"], &[false, true])];
    let mut batch = Batch::selective(&programs, &None);
    let (log, _) = drive(&mut batch, vec![failed(Some(101), "error: boom\n")]);
    assert_eq!(
        log,
        vec![
            "Running: anchor build -p vault -- --features staking (from /ws/programs/vault)"
                .to_string(),
            "error: boom\n".to_string(),
            "Build failed with code Some(101)".to_string(),
            "Build complete.".to_string(),
        ]
    );
}

#[test]
fn selective_build_tells_nothing_of_unselected_programs() {
    let programs = vec![
        program("quiet", &["prod", "staking"], &[false, false]),
        program("vault", &["prod"], &[true]),
        program("bare", &[], &[]),
    ];
    let mut batch = Batch::selective(&programs, &None);
    let (log, calls) = drive(&mut batch, vec![ok()]);
    assert_eq!(calls.len(), 1);
    assert_eq!(calls[0].program, "vault");
    assert_eq!(log.len(), 3);
    assert!(log.iter().all(|m| !m.contains("quiet") && !m.contains("bare")));
}

#[test]
fn selective_build_with_nothing_selected_only_closes() {
    let programs = vec![
        program("a", &["prod"], &[false]),
        program("b", &["prod", "staking"], &[false, false]),
    ];
    let mut batch = Batch::selective(&programs, &None);
    let (log, calls) = drive(&mut batch, Vec::new());
    assert_eq!(log, vec!["Build complete.".to_string()]);
    assert!(calls.is_empty());
    assert_eq!(batch.phase(), Phase::Done);
}

#[test]
fn forced_build_of_everything_ignores_the_selection() {
    let programs = vec![program("A", &[], &[]), program("B", &["x"], &[true])];
    let mut batch = Batch::everything(&programs, true, &None);
    let (log, calls) = drive(&mut batch, vec![ok(), ok()]);
    assert_eq!(calls.len(), 2);
    assert_eq!(calls[0].program, "A");
    assert_eq!(calls[0].features, Some("prod".to_string()));
    assert_eq!(calls[1].program, "B");
    assert_eq!(calls[1].features, Some("prod".to_string()));
    assert_eq!(
        log,
        vec![
            "Running: anchor build -p A -- --features prod (from /ws/programs/A)".to_string(),
            "Build succeeded.".to_string(),
            "Running: anchor build -p B -- --features prod (from /ws/programs/B)".to_string(),
            "Build succeeded.".to_string(),
            "Build complete.".to_string(),
        ]
    );
}

#[test]
fn plain_build_of_everything_names_no_feature() {
    let programs = vec![program("A", &[], &[]), program("B", &["x"], &[true])];
    let mut batch = Batch::everything(&programs, false, &Some("/out".to_string()));
    let (log, calls) = drive(&mut batch, vec![ok(), ok()]);
    assert_eq!(calls[0].arguments(), vec!["build", "-p", "A", "-t", "/out"]);
    assert_eq!(calls[1].arguments(), vec!["build", "-p", "B", "-t", "/out"]);
    assert_eq!(log[0], "Running: anchor build -p A -t /out (from /ws/programs/A)");
    assert_eq!(log[2], "Running: anchor build -p B -t /out (from /ws/programs/B)");
}

#[test]
fn a_failure_does_not_end_the_batch() {
    let programs = vec![
        program("a", &["x"], &[true]),
        program("b", &["x"], &[true]),
        program("c", &["x"], &[true]),
    ];
    let mut batch = Batch::selective(&programs, &None);
    let outcomes = vec![
        failed(Some(1), "bad\n"),
        Outcome::SpawnFailed { reason: "not found".to_string() },
        ok(),
    ];
    let (log, calls) = drive(&mut batch, outcomes);
    assert_eq!(calls.len(), 3);
    assert_eq!(
        log,
        vec![
            "Running: anchor build -p a -- --features x (from /ws/programs/a)".to_string(),
            "bad\n".to_string(),
            "Build failed with code Some(1)".to_string(),
            "Running: anchor build -p b -- --features x (from /ws/programs/b)".to_string(),
            "Command failed: not found".to_string(),
            "Running: anchor build -p c -- --features x (from /ws/programs/c)".to_string(),
            "Build succeeded.".to_string(),
            "Build complete.".to_string(),
        ]
    );
}

#[test]
fn every_batch_ends_with_one_closing_message() {
    let programs = vec![
        program("a", &["x"], &[true]),
        program("b", &["x"], &[false]),
        program("c", &["x"], &[true]),
    ];
    let batches = vec![
        (Batch::selective(&programs, &None), 2),
        (Batch::everything(&programs, false, &None), 3),
        (Batch::everything(&programs, true, &None), 3),
        (Batch::new(Vec::new()), 0),
    ];
    for (mut batch, calls_expected) in batches {
        let outcomes = (0..calls_expected).map(|_| ok()).collect();
        let (log, calls) = drive(&mut batch, outcomes);
        assert_eq!(calls.len(), calls_expected);
        assert_eq!(log.last().map(|m| m.as_str()), Some("Build complete."));
        assert_eq!(log.iter().filter(|m| m.as_str() == "Build complete.").count(), 1);
        assert_eq!(log.len(), 2 * calls_expected + 1);
    }
}

#[test]
fn replay_builds_what_the_preset_holds() {
    let programs = vec![
        program("vault", &["prod", "staking"], &[true, true]),
        program("bank", &["prod"], &[true]),
    ];
    let preset = Preset {
        name: "ship".to_string(),
        programs: vec![("vault".to_string(), vec!["staking".to_string()])],
    };
    let mut batch = Batch::replay(&preset, &programs, &None);
    let (log, calls) = drive(&mut batch, vec![ok()]);
    assert_eq!(calls.len(), 1);
    assert_eq!(
        log,
        vec![
            "Running: anchor build -p vault -- --features staking (from /ws/programs/vault)"
                .to_string(),
            "Build succeeded.".to_string(),
            "Build complete.".to_string(),
        ]
    );
}

#[test]
fn a_batch_starts_once() {
    let programs = vec![program("a", &["x"], &[true])];
    let mut batch = Batch::selective(&programs, &None);
    assert_eq!(batch.phase(), Phase::Idle);
    assert!(batch.advance(&ok()).is_none());
    assert_eq!(batch.phase(), Phase::Idle);
    let first = batch.start().expect("an idle batch starts");
    assert_eq!(first.messages.len(), 1);
    assert!(first.run.is_some());
    assert_eq!(batch.phase(), Phase::Running);
    assert!(batch.start().is_none());
    assert_eq!(batch.phase(), Phase::Running);
    let last = batch.advance(&ok()).expect("a running batch takes an outcome");
    assert!(last.run.is_none());
    assert_eq!(
        last.messages,
        vec!["Build succeeded.".to_string(), "Build complete.".to_string()]
    );
    assert_eq!(batch.phase(), Phase::Done);
    assert!(batch.start().is_none());
    assert!(batch.advance(&ok()).is_none());
    assert_eq!(batch.phase(), Phase::Done);
}

#[test]
fn a_batch_keeps_its_plan_when_the_programs_change() {
    let mut programs = vec![program("a", &["x", "y"], &[true, false])];
    let mut batch = Batch::selective(&programs, &None);
    programs[0].selected = vec![false, true];
    programs.push(program("late", &["z"], &[true]));
    let (log, calls) = drive(&mut batch, vec![ok()]);
    assert_eq!(calls.len(), 1);
    assert_eq!(log[0], "Running: anchor build -p a -- --features x (from /ws/programs/a)");
}

#[test]
fn an_abandoned_batch_hands_out_nothing_more() {
    let programs = vec![program("a", &["x"], &[true]), program("b", &["x"], &[true])];
    let mut batch = Batch::selective(&programs, &None);
    assert!(batch.start().is_some());
    batch.abandon();
    assert_eq!(batch.phase(), Phase::Done);
    assert!(batch.advance(&ok()).is_none());
    assert!(batch.start().is_none());

    let mut idle = Batch::selective(&programs, &None);
    idle.abandon();
    assert_eq!(idle.phase(), Phase::Done);
    assert!(idle.start().is_none());
}
