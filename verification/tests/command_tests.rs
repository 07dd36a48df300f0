use workspacer::command::{build, launch_tokens};
use workspacer::model::{Config, Tab, Workspace};
use workspacer::resolve::{LaunchDirective, ResolveError};

fn directive(
    title: Option<&str>,
    dir: &str,
    commands: &[&str],
    split_pane: bool,
    first: bool,
) -> LaunchDirective {
    LaunchDirective {
        title: title.map(|t| t.to_string()),
        starting_directory: dir.to_string(),
        commands: commands.iter().map(|c| c.to_string()).collect(),
        split_pane,
        is_first_overall: first,
    }
}

fn tokens(ts: &[&str]) -> Vec<String> {
    ts.iter().map(|t| t.to_string()).collect()
}

#[test]
fn separator_and_mode_apply_from_the_second_directive_onward() {
    let ds = vec![
        directive(Some("A"), "/x", &[], false, true),
        directive(None, "/y", &[], true, false),
    ];
    assert_eq!(
        build(&ds),
        tokens(&[
            "--title",
            "A",
            "--startingDirectory",
            "/x",
            ";",
            "split-pane",
            "--startingDirectory",
            "/y",
        ])
    );
}

#[test]
fn non_split_follow_up_directives_open_a_new_tab() {
    let ds = vec![
        directive(None, "/x", &[], false, true),
        directive(None, "/y", &[], false, false),
    ];
    assert_eq!(
        build(&ds),
        tokens(&["--startingDirectory", "/x", ";", "new-tab", "--startingDirectory", "/y"])
    );
}

#[test]
fn commands_are_appended_as_their_own_tokens_in_order() {
    let ds = vec![directive(Some("T"), "/w", &["cargo", "run"], false, true)];
    assert_eq!(build(&ds), tokens(&["--title", "T", "--startingDirectory", "/w", "cargo", "run"]));
}

#[test]
fn an_empty_directive_sequence_builds_no_tokens() {
    assert_eq!(build(&Vec::new()), Vec::<String>::new());
}

#[test]
fn launch_tokens_resolves_and_builds_in_one_step() {
    let config = Config {
        workspace: vec![Workspace::Leaf {
            name: "dev".to_string(),
            tabs: vec![
                Tab {
                    title: Some("A".to_string()),
                    starting_directory: "/x".to_string(),
                    commands: None,
                    split_pane: None,
                },
                Tab {
                    title: None,
                    starting_directory: "/y".to_string(),
                    commands: Some(vec!["ls".to_string()]),
                    split_pane: Some(true),
                },
            ],
        }],
    };
    assert_eq!(
        launch_tokens(&config, "dev").unwrap(),
        tokens(&[
            "--title",
            "A",
            "--startingDirectory",
            "/x",
            ";",
            "split-pane",
            "--startingDirectory",
            "/y",
            "ls",
        ])
    );
    assert_eq!(
        launch_tokens(&config, "missing"),
        Err(ResolveError::NotFound { name: "missing".to_string(), member: None })
    );
}
