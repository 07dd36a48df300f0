use workspacer::model::{find_duplicate_name, get_workspace, workspace_names, Config, Tab, Workspace};
use workspacer::resolve::{resolve, LaunchDirective, ResolveError};

fn tab(title: Option<&str>, dir: &str, commands: Option<&[&str]>, split: Option<bool>) -> Tab {
    Tab {
        title: title.map(|t| t.to_string()),
        starting_directory: dir.to_string(),
        commands: commands.map(|cs| cs.iter().map(|c| c.to_string()).collect()),
        split_pane: split,
    }
}

fn leaf(name: &str, tabs: Vec<Tab>) -> Workspace {
    Workspace::Leaf { name: name.to_string(), tabs }
}

fn group(name: &str, members: &[&str]) -> Workspace {
    Workspace::Group {
        name: name.to_string(),
        members: members.iter().map(|m| m.to_string()).collect(),
    }
}

#[test]
fn leaf_resolution_marks_only_the_first_directive() {
    let config = Config {
        workspace: vec![leaf(
            "dev",
            vec![tab(Some("A"), "/x", None, None), tab(Some("B"), "/y", None, Some(true))],
        )],
    };
    let ds = resolve(&config, "dev").unwrap();
    assert_eq!(ds.len(), 2);
    assert_eq!(ds[0].title, Some("A".to_string()));
    assert!(ds[0].is_first_overall);
    assert!(!ds[0].split_pane);
    assert_eq!(ds[1].title, Some("B".to_string()));
    assert!(!ds[1].is_first_overall);
    assert!(ds[1].split_pane);
}

#[test]
fn group_resolution_concatenates_members_in_order() {
    let config = Config {
        workspace: vec![
            group("all", &["one", "two"]),
            leaf("one", vec![tab(None, "/a", None, None)]),
            leaf("two", vec![tab(None, "/b", None, None), tab(None, "/c", None, None)]),
        ],
    };
    let ds = resolve(&config, "all").unwrap();
    let dirs: Vec<&str> = ds.iter().map(|d| d.starting_directory.as_str()).collect();
    assert_eq!(dirs, vec!["/a", "/b", "/c"]);
    let firsts: Vec<bool> = ds.iter().map(|d| d.is_first_overall).collect();
    assert_eq!(firsts, vec![true, false, false]);
}

#[test]
fn lookup_is_case_insensitive() {
    let config = Config { workspace: vec![leaf("Dev", vec![tab(None, "/x", None, None)])] };
    assert!(resolve(&config, "dEV").is_ok());
    assert!(get_workspace(&config, "DEV".to_string()).is_some());
}

#[test]
fn lookup_folds_case_beyond_ascii() {
    // LATIN SMALL LETTER E WITH ACUTE and its capital lowercase to the same string
    let config =
        Config { workspace: vec![leaf("\u{e9}cole", vec![tab(None, "/x", None, None)])] };
    assert!(get_workspace(&config, "\u{c9}COLE".to_string()).is_some());
    assert!(resolve(&config, "\u{c9}cole").is_ok());

    let dup = Config {
        workspace: vec![leaf("\u{e9}", vec![]), leaf("\u{c9}", vec![])],
    };
    assert_eq!(find_duplicate_name(&dup), Some("\u{c9}".to_string()));
}

#[test]
fn unknown_name_is_not_found_without_a_member() {
    let config = Config { workspace: vec![leaf("dev", vec![])] };
    match resolve(&config, "nope") {
        Err(ResolveError::NotFound { name, member }) => {
            assert_eq!(name, "nope");
            assert_eq!(member, None);
        },
        other => panic!("expected NotFound, got {:?}", other),
    }
}

#[test]
fn unknown_member_is_attributed_to_the_requested_name() {
    let config = Config { workspace: vec![group("all", &["missing"])] };
    match resolve(&config, "all") {
        Err(ResolveError::NotFound { name, member }) => {
            assert_eq!(name, "all");
            assert_eq!(member, Some("missing".to_string()));
        },
        other => panic!("expected NotFound, got {:?}", other),
    }
}

#[test]
fn a_group_containing_itself_is_a_cyclic_reference() {
    let config = Config { workspace: vec![group("g", &["g"])] };
    match resolve(&config, "g") {
        Err(ResolveError::CyclicReference { path }) => {
            assert_eq!(path, vec!["g".to_string(), "g".to_string()]);
        },
        other => panic!("expected CyclicReference, got {:?}", other),
    }
}

#[test]
fn a_self_reference_after_sound_members_is_still_a_cycle() {
    let config = Config {
        workspace: vec![
            leaf("base", vec![tab(None, "/b", None, None)]),
            group("g", &["base", "g"]),
        ],
    };
    match resolve(&config, "g") {
        Err(ResolveError::CyclicReference { path }) => {
            assert_eq!(path, vec!["g".to_string(), "g".to_string()]);
        },
        other => panic!("expected CyclicReference, got {:?}", other),
    }
}

#[test]
fn a_cycle_through_another_group_is_detected_too() {
    let config = Config { workspace: vec![group("g1", &["g2"]), group("g2", &["G1"])] };
    match resolve(&config, "g1") {
        Err(ResolveError::CyclicReference { path }) => {
            assert_eq!(path, vec!["g1".to_string(), "g2".to_string(), "g1".to_string()]);
        },
        other => panic!("expected CyclicReference, got {:?}", other),
    }
}

#[test]
fn a_diamond_of_groups_is_no_cycle() {
    let config = Config {
        workspace: vec![
            group("top", &["left", "right"]),
            group("left", &["base"]),
            group("right", &["base"]),
            leaf("base", vec![tab(None, "/b", None, None)]),
        ],
    };
    let ds = resolve(&config, "top").unwrap();
    assert_eq!(ds.len(), 2);
    assert!(ds[0].is_first_overall);
    assert!(!ds[1].is_first_overall);
}

#[test]
fn empty_commands_flatten_to_no_tokens_and_missing_split_to_false() {
    let config = Config { workspace: vec![leaf("dev", vec![tab(None, "/x", None, None)])] };
    let ds = resolve(&config, "dev").unwrap();
    assert_eq!(
        ds[0],
        LaunchDirective {
            title: None,
            starting_directory: "/x".to_string(),
            commands: Vec::new(),
            split_pane: false,
            is_first_overall: true,
        }
    );
}

#[test]
fn first_matching_name_wins_and_duplicates_are_reported() {
    let config = Config {
        workspace: vec![
            leaf("dev", vec![tab(None, "/first", None, None)]),
            leaf("DEV", vec![tab(None, "/second", None, None)]),
        ],
    };
    let ds = resolve(&config, "dev").unwrap();
    assert_eq!(ds[0].starting_directory, "/first");
    assert_eq!(find_duplicate_name(&config), Some("DEV".to_string()));

    let names = workspace_names(&config);
    assert_eq!(names, vec!["dev".to_string(), "DEV".to_string()]);

    let clean = Config { workspace: vec![leaf("a", vec![]), leaf("b", vec![])] };
    assert_eq!(find_duplicate_name(&clean), None);
}
