use solana_build_tool::invocation::{
    copy_optional, plan_all, plan_preset, plan_selected, Invocation,
};
use solana_build_tool::model::{Feature, Preset, Program};

fn feature(name: &str) -> Feature {
    Feature { name: name.to_string(), sub_features: Vec::new() }
}

fn program(name: &str, features: &[&str], selected: &[bool]) -> Program {
    Program {
        name: name.to_string(),
        features: features.iter().map(|f| feature(f)).collect(),
        selected: selected.to_vec(),
        path: format!("/ws/programs/{}", name),
    }
}

fn texts(items: &[&str]) -> Vec<String> {
    items.iter().map(|s| s.to_string()).collect()
}

fn call(program: &str, output_dir: Option<&str>, features: Option<&str>) -> Invocation {
    Invocation {
        program: program.to_string(),
        directory: format!("/ws/programs/{}", program),
        output_dir: output_dir.map(|d| d.to_string()),
        features: features.map(|f| f.to_string()),
    }
}

#[test]
fn the_tool_is_anchor() {
    assert_eq!(Invocation::tool(), "anchor");
}

#[test]
fn arguments_of_a_plain_call() {
    let c = call("vault", None, None);
    assert_eq!(c.arguments(), texts(&["build", "-p", "vault"]));
    assert_eq!(c.command_line(), "anchor build -p vault");
}

#[test]
fn arguments_with_output_directory() {
    let c = call("vault", Some("/out/idl"), None);
    assert_eq!(c.arguments(), texts(&["build", "-p", "vault", "-t", "/out/idl"]));
    assert_eq!(c.command_line(), "anchor build -p vault -t /out/idl");
}

#[test]
fn arguments_with_features() {
    let c = call("vault", None, Some("prod,staking"));
    assert_eq!(
        c.arguments(),
        texts(&["build", "-p", "vault", "--", "--features", "prod,staking"])
    );
    assert_eq!(c.command_line(), "anchor build -p vault -- --features prod,staking");
}

#[test]
fn arguments_with_output_directory_and_features() {
    let c = call("vault", Some("/out"), Some("prod"));
    assert_eq!(
        c.arguments(),
        texts(&["build", "-p", "vault", "-t", "/out", "--", "--features", "prod"])
    );
    assert_eq!(c.command_line(), "anchor build -p vault -t /out -- --features prod");
}

#[test]
fn announcement_names_command_and_directory() {
    let c = call("vault", None, Some("staking"));
    assert_eq!(
        c.announcement(),
        "Running: anchor build -p vault -- --features staking (from /ws/programs/vault)"
    );
}

#[test]
fn invocation_clone_is_equal() {
    let c = call("vault", Some("/out"), Some("prod"));
    let d = c.clone();
    assert_eq!(d.program, "vault");
    assert_eq!(d.directory, "/ws/programs/vault");
    assert_eq!(d.output_dir, Some("/out".to_string()));
    assert_eq!(d.features, Some("prod".to_string()));
    assert_eq!(copy_optional(&None), None);
    assert_eq!(copy_optional(&Some("x".to_string())), Some("x".to_string()));
}

#[test]
fn selective_plan_skips_programs_without_selection() {
    let programs = vec![
        program("a", &["prod", "staking"], &[false, false]),
        program("b", &["prod", "staking"], &[true, true]),
        program("c", &[], &[]),
        program("d", &["x"], &[true]),
    ];
    let plan = plan_selected(&programs, &None);
    assert_eq!(plan.len(), 2);
    assert_eq!(plan[0].program, "b");
    assert_eq!(plan[0].directory, "/ws/programs/b");
    assert_eq!(plan[0].features, Some("prod,staking".to_string()));
    assert_eq!(plan[0].output_dir, None);
    assert_eq!(plan[1].program, "d");
    assert_eq!(plan[1].features, Some("x".to_string()));
}

#[test]
fn selective_plan_of_unselected_programs_is_empty() {
    let programs = vec![
        program("a", &["prod", "staking"], &[false, false]),
        program("b", &["prod"], &[false]),
    ];
    assert!(plan_selected(&programs, &None).is_empty());
    assert!(plan_selected(&Vec::new(), &Some("/out".to_string())).is_empty());
}

#[test]
fn selective_plan_passes_the_output_directory() {
    let programs = vec![program("a", &["prod"], &[true])];
    let plan = plan_selected(&programs, &Some("/out".to_string()));
    assert_eq!(plan[0].output_dir, Some("/out".to_string()));
    assert_eq!(plan[0].command_line(), "anchor build -p a -t /out -- --features prod");
}

#[test]
fn full_plan_builds_every_program() {
    let programs = vec![
        program("a", &[], &[]),
        program("b", &["prod"], &[true]),
    ];
    let plain = plan_all(&programs, false, &None);
    assert_eq!(plain.len(), 2);
    assert_eq!(plain[0].program, "a");
    assert_eq!(plain[0].features, None);
    assert_eq!(plain[1].program, "b");
    assert_eq!(plain[1].features, None);
    assert_eq!(plain[1].command_line(), "anchor build -p b");

    let forced = plan_all(&programs, true, &Some("/out".to_string()));
    assert_eq!(forced.len(), 2);
    assert_eq!(forced[0].features, Some("prod".to_string()));
    assert_eq!(forced[1].features, Some("prod".to_string()));
    assert_eq!(forced[0].command_line(), "anchor build -p a -t /out -- --features prod");
    assert_eq!(forced[1].directory, "/ws/programs/b");
}

#[test]
fn replay_plan_follows_the_entries() {
    let programs = vec![
        program("a", &["x"], &[true]),
        program("b", &["y"], &[false]),
        program("c", &["z"], &[true]),
    ];
    let preset = Preset {
        name: "mine".to_string(),
        programs: vec![
            ("c".to_string(), texts(&["z", "w"])),
            ("gone".to_string(), texts(&["q"])),
            ("b".to_string(), texts(&["y"])),
        ],
    };
    let plan = plan_preset(&preset, &programs, &None);
    assert_eq!(plan.len(), 2);
    assert_eq!(plan[0].program, "c");
    assert_eq!(plan[0].directory, "/ws/programs/c");
    assert_eq!(plan[0].features, Some("z,w".to_string()));
    assert_eq!(plan[1].program, "b");
    assert_eq!(plan[1].features, Some("y".to_string()));
}

#[test]
fn replay_plan_ignores_the_current_selection() {
    let programs = vec![program("a", &["x", "y"], &[true, true])];
    let preset = Preset {
        name: "p".to_string(),
        programs: vec![("a".to_string(), texts(&["y"]))],
    };
    let plan = plan_preset(&preset, &programs, &Some("/out".to_string()));
    assert_eq!(plan.len(), 1);
    assert_eq!(plan[0].command_line(), "anchor build -p a -t /out -- --features y");
}
