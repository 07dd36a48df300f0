use workspacer::cli::{parse_cli, CliCommand};
use workspacer::form::{FormStep, WorkspaceForm};
use workspacer::model::Workspace;
use workspacer::text::{split_words, trim};

#[test]
fn the_form_builds_a_leaf_from_scripted_answers() {
    let mut f = WorkspaceForm::new();
    assert_eq!(f.step, FormStep::Name);
    f.input("my workspace\n");
    f.input("editor");
    f.input("  /src  ");
    f.input("cargo run");
    f.input("Y");
    f.input("n");
    assert_eq!(f.step, FormStep::Done);
    match f.finish() {
        Workspace::Leaf { name, tabs } => {
            assert_eq!(name, "my workspace");
            assert_eq!(tabs.len(), 1);
            assert_eq!(tabs[0].title, Some("editor".to_string()));
            assert_eq!(tabs[0].starting_directory, "/src");
            assert_eq!(tabs[0].commands, Some(vec!["cargo".to_string(), "run".to_string()]));
            assert_eq!(tabs[0].split_pane, Some(true));
        },
        other => panic!("expected a leaf, got {:?}", other),
    }
}

#[test]
fn an_empty_title_becomes_no_title_and_a_second_tab_can_follow() {
    let mut f = WorkspaceForm::new();
    f.input("w");
    f.input("");
    f.input("/a");
    f.input("");
    f.input("no");
    assert_eq!(f.step, FormStep::Another);
    f.input("y");
    assert_eq!(f.step, FormStep::TabTitle);
    f.input("second");
    f.input("/b");
    f.input("ls");
    f.input("x");
    f.input("q");
    match f.finish() {
        Workspace::Leaf { tabs, .. } => {
            assert_eq!(tabs.len(), 2);
            assert_eq!(tabs[0].title, None);
            assert_eq!(tabs[0].commands, Some(vec!["".to_string()]));
            assert_eq!(tabs[0].split_pane, Some(false));
            assert_eq!(tabs[1].title, Some("second".to_string()));
            assert_eq!(tabs[1].split_pane, Some(false));
        },
        other => panic!("expected a leaf, got {:?}", other),
    }
}

#[test]
fn trim_strips_whitespace_on_both_sides() {
    assert_eq!(trim("  hello \r\n"), "hello");
    assert_eq!(trim("\t\t"), "");
    assert_eq!(trim("a"), "a");
    assert_eq!(trim(" a b "), "a b");
    // no-break space and ideographic space are White_Space too
    assert_eq!(trim("\u{a0}x\u{3000}"), "x");
}

#[test]
fn split_words_keeps_empty_segments() {
    assert_eq!(split_words("cargo run"), vec!["cargo".to_string(), "run".to_string()]);
    assert_eq!(split_words(""), vec!["".to_string()]);
    assert_eq!(
        split_words("a  b"),
        vec!["a".to_string(), "".to_string(), "b".to_string()]
    );
}

#[test]
fn the_first_argument_is_classified_case_insensitively() {
    assert_eq!(parse_cli(None), CliCommand::NoArgument);
    assert_eq!(parse_cli(Some(&"-NEW".to_string())), CliCommand::NewWorkspace);
    assert_eq!(parse_cli(Some(&"-list".to_string())), CliCommand::ListNames);
    assert_eq!(parse_cli(Some(&"List".to_string())), CliCommand::Browse);
    assert_eq!(parse_cli(Some(&"lf".to_string())), CliCommand::Browse);
    assert_eq!(parse_cli(Some(&"L".to_string())), CliCommand::Browse);
    assert_eq!(
        parse_cli(Some(&"dev".to_string())),
        CliCommand::Launch { name: "dev".to_string() }
    );
}
