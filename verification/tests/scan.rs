use solana_build_tool::scan::{discover, has_marker, list_features, scan, Candidate, ScanFailure};

fn texts(items: &[&str]) -> Vec<String> {
    items.iter().map(|s| s.to_string()).collect()
}

fn candidate(name: &str, dependencies: &[&str], manifest_path: &str) -> Candidate {
    Candidate {
        name: name.to_string(),
        dependencies: texts(dependencies),
        manifest_path: manifest_path.to_string(),
        features: vec![
            ("default".to_string(), Vec::new()),
            ("prod".to_string(), texts(&["staking", "dep:fast"])),
        ],
    }
}

#[test]
fn marker_is_found_among_dependencies() {
    assert!(has_marker(&texts(&["serde", "anchor-lang", "solana"])));
    assert!(has_marker(&texts(&["anchor-lang"])));
    assert!(!has_marker(&texts(&["anchor-spl", "anchor_lang", "anchor-lang-extra"])));
    assert!(!has_marker(&Vec::new()));
}

#[test]
fn features_keep_table_order() {
    let table = vec![
        ("b".to_string(), texts(&["x"])),
        ("a".to_string(), Vec::new()),
    ];
    let features = list_features(&table);
    assert_eq!(features.len(), 2);
    assert_eq!(features[0].name, "b");
    assert_eq!(features[0].sub_features, texts(&["x"]));
    assert_eq!(features[1].name, "a");
    assert!(features[1].sub_features.is_empty());
}

#[test]
fn discover_takes_marked_packages_under_the_root() {
    let candidates = vec![
        candidate("vault", &["anchor-lang"], "/ws/programs/vault/Cargo.toml"),
        candidate("helper", &["serde"], "/ws/crates/helper/Cargo.toml"),
        candidate("outside", &["anchor-lang"], "/elsewhere/outside/Cargo.toml"),
        candidate("bank", &["serde", "anchor-lang"], "/ws/programs/bank/Cargo.toml"),
    ];
    let programs = match discover(&candidates, "/ws") {
        Ok(programs) => programs,
        Err(_) => panic!("every manifest lies in a directory"),
    };
    assert_eq!(programs.len(), 2);
    assert_eq!(programs[0].name, "vault");
    assert_eq!(programs[0].path, "/ws/programs/vault");
    assert_eq!(programs[0].selected, vec![false, false]);
    assert_eq!(programs[0].features.len(), 2);
    assert_eq!(programs[0].features[0].name, "default");
    assert_eq!(programs[0].features[1].name, "prod");
    assert_eq!(programs[0].features[1].sub_features, texts(&["staking", "dep:fast"]));
    assert_eq!(programs[1].name, "bank");
    assert_eq!(programs[1].path, "/ws/programs/bank");
}

#[test]
fn discover_asks_for_whole_path_components() {
    let candidates = vec![
        candidate("near", &["anchor-lang"], "/ws-old/programs/near/Cargo.toml"),
        candidate("in", &["anchor-lang"], "/ws/in/Cargo.toml"),
    ];
    let programs = match discover(&candidates, "/ws") {
        Ok(programs) => programs,
        Err(_) => panic!("every manifest lies in a directory"),
    };
    assert_eq!(programs.len(), 1);
    assert_eq!(programs[0].name, "in");
}

#[test]
fn discover_of_nothing_gives_nothing() {
    match discover(&Vec::new(), "/ws") {
        Ok(programs) => assert!(programs.is_empty()),
        Err(_) => panic!("nothing can fail"),
    }
}

#[test]
fn discover_fails_on_a_manifest_without_directory() {
    let candidates = vec![
        candidate("vault", &["anchor-lang"], "/ws/vault/Cargo.toml"),
        candidate("root", &["anchor-lang"], "/"),
        candidate("bank", &["anchor-lang"], "/ws/bank/Cargo.toml"),
    ];
    match discover(&candidates, "/") {
        Ok(_) => panic!("the second candidate has no directory"),
        Err(ScanFailure::NoParentDirectory { manifest_path }) => assert_eq!(manifest_path, "/"),
        Err(ScanFailure::QueryFailed { .. }) => panic!("the query was not at fault"),
    }
}

#[test]
fn discover_passes_over_a_homeless_package_that_does_not_qualify() {
    let candidates = vec![
        candidate("root", &["serde"], "/"),
        candidate("vault", &["anchor-lang"], "/ws/vault/Cargo.toml"),
    ];
    match discover(&candidates, "/") {
        Ok(programs) => assert_eq!(programs.len(), 1),
        Err(_) => panic!("the candidate without directory does not qualify"),
    }
}

#[test]
fn scan_fails_where_the_query_failed() {
    match scan(Err("cargo not found".to_string()), "/ws") {
        Ok(_) => panic!("a failed query gives no programs"),
        Err(failure) => {
            assert_eq!(failure.message(), "Failed to run cargo metadata: cargo not found");
            match failure {
                ScanFailure::QueryFailed { reason } => assert_eq!(reason, "cargo not found"),
                ScanFailure::NoParentDirectory { .. } => panic!("the query was at fault"),
            }
        }
    }
}

#[test]
fn scan_discovers_what_the_query_gave() {
    let candidates = vec![candidate("vault", &["anchor-lang"], "/ws/vault/Cargo.toml")];
    match scan(Ok(candidates), "/ws") {
        Ok(programs) => {
            assert_eq!(programs.len(), 1);
            assert_eq!(programs[0].path, "/ws/vault");
        }
        Err(_) => panic!("the query gave a program"),
    }
}

#[test]
fn scan_failure_for_a_missing_directory_is_worded() {
    let failure = ScanFailure::NoParentDirectory { manifest_path: "/".to_string() };
    assert_eq!(failure.message(), "Failed to get parent directory: /");
}

#[test]
fn weigh_passes_over_what_is_not_a_program_here() {
    let unmarked = candidate("helper", &["serde"], "/ws/helper/Cargo.toml");
    assert!(matches!(unmarked.weigh(true, Some("/ws/helper".to_string())), Ok(None)));
    assert!(matches!(unmarked.weigh(true, None), Ok(None)));
    let outside = candidate("vault", &["anchor-lang"], "/other/vault/Cargo.toml");
    assert!(matches!(outside.weigh(false, Some("/other/vault".to_string())), Ok(None)));
    assert!(matches!(outside.weigh(false, None), Ok(None)));
}

#[test]
fn weigh_makes_a_program_in_the_directory_given() {
    let marked = candidate("vault", &["anchor-lang"], "/ws/vault/Cargo.toml");
    match marked.weigh(true, Some("/ws/vault".to_string())) {
        Ok(Some(program)) => {
            assert_eq!(program.name, "vault");
            assert_eq!(program.path, "/ws/vault");
            assert_eq!(program.selected, vec![false, false]);
            assert_eq!(program.features[1].name, "prod");
        }
        _ => panic!("a marked package under the root is a program"),
    }
}

#[test]
fn weigh_fails_without_a_directory() {
    let marked = candidate("vault", &["anchor-lang"], "Cargo.toml");
    match marked.weigh(true, None) {
        Err(ScanFailure::NoParentDirectory { manifest_path }) => {
            assert_eq!(manifest_path, "Cargo.toml")
        }
        _ => panic!("a program needs a directory"),
    }
}
