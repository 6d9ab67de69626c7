use swaymsg_workspace::ipcadapter::{MockConnection, MockIPCAdapter, MockOutput, MockWorkspace};
use swaymsg_workspace::workspace::WorkspaceDetails;
use swaymsg_workspace::workspaces::Workspaces;

fn workspace(num: Option<usize>, name: &str, output: &str, focused: bool) -> MockWorkspace {
    MockWorkspace {
        num,
        name: name.to_string(),
        output: output.to_string(),
        focused,
    }
}

#[test]
fn new_workspace_inherits_details() {
    let ws = workspace(None, "3 Foo", "eDP-1", true);
    let details = WorkspaceDetails::new(&Some(&ws), || 7).unwrap();
    assert_eq!(details.number, 3);
    assert_eq!(details.name, "Foo");
    assert_eq!(details.basename, "3 Foo");
    assert!(WorkspaceDetails::new(&None, || 7).is_none());
}

#[test]
fn new_workspace_without_a_numbert_gets_one_assigned() {
    let ws = workspace(None, "Foo", "eDP-1", true);
    let details = WorkspaceDetails::new(&Some(&ws), || 7).unwrap();
    assert_eq!(details.number, 7);
    assert_eq!(details.name, "Foo");
    assert_eq!(details.basename, "Foo");
}

#[test]
fn workspace_fragment_number_extraction_edgecases_work() {
    let cast = |number: &str| WorkspaceDetails::cast_and_validate_fragments((number, "x"), || 9).0;
    assert_eq!(cast("42"), 42);
    assert_eq!(cast("007"), 7);
    assert_eq!(cast("+5"), 5);
    assert_eq!(cast(""), 9);
    assert_eq!(cast("+"), 9);
    assert_eq!(cast("-1"), 9);
    assert_eq!(cast("4294967295"), 4294967295);
    assert_eq!(cast("4294967296"), 9);
    assert_eq!(cast("\u{0663}"), 9);
    // leading digits of a full name, ASCII or not
    let ws = workspace(None, "12abc", "eDP-1", true);
    assert_eq!(WorkspaceDetails::new(&Some(&ws), || 1).unwrap().number, 12);
    let ws = workspace(None, "\u{0663}\u{0664} x", "eDP-1", true);
    let details = WorkspaceDetails::new(&Some(&ws), || 1).unwrap();
    assert_eq!(details.number, 1);
    assert_eq!(details.name, "x");
}

fn name(name: &str) -> &str {
    WorkspaceDetails::cast_and_validate_fragments(("1", name), || 9).1
}

#[test]
fn workspace_fragment_name_extraction_edgecases_work() {
    assert_eq!(name("  Foo  "), "Foo");
    assert_eq!(name("Foo Bar"), "Foo Bar");
    assert_eq!(name("\t\n"), "");
    assert_eq!(name("Foo\u{200b}"), "Foo\u{200b}");
    assert_eq!(name("\u{3000}Foo\u{a0}"), "Foo");
    let ws = workspace(None, "7   spaced  name ", "eDP-1", true);
    let details = WorkspaceDetails::new(&Some(&ws), || 1).unwrap();
    assert_eq!(details.number, 7);
    assert_eq!(details.name, "spaced  name");
    let ws = workspace(None, "", "eDP-1", true);
    let details = WorkspaceDetails::new(&Some(&ws), || 1).unwrap();
    assert_eq!(details.number, 1);
    assert_eq!(details.name, "");
}

#[test]
fn workspace_number_assignment_always_returns_the_highest_workspace_number_plus_one() {
    let ipcadapter = MockIPCAdapter {
        connection: MockConnection {
            commandhistory: vec![],
        },
        workspaces: vec![
            workspace(Some(5), "5 B", "eDP-1", false),
            workspace(None, "C", "eDP-1", true),
            workspace(Some(1), "1 A", "eDP-1", false),
            workspace(Some(9), "9 Z", "HDMI-1", false),
            workspace(None, "Other", "HDMI-1", false),
        ],
        outputs: vec![
            MockOutput {
                focused: true,
                name: "eDP-1".to_string(),
            },
            MockOutput {
                focused: false,
                name: "HDMI-1".to_string(),
            },
        ],
    };
    let workspaces = Workspaces::new(ipcadapter).unwrap();
    let same: Vec<(String, usize)> = workspaces
        .on_same_screen()
        .items()
        .iter()
        .map(|w| (w.basename.clone(), w.get_number()))
        .collect();
    assert_eq!(
        same,
        vec![
            ("C".to_string(), 6),
            ("1 A".to_string(), 1),
            ("5 B".to_string(), 5)
        ]
    );
    // the number comes from the focused screen, also for other screens
    let other: Vec<(String, usize)> = workspaces
        .on_other_screen()
        .items()
        .iter()
        .map(|w| (w.basename.clone(), w.get_number()))
        .collect();
    assert_eq!(
        other,
        vec![("Other".to_string(), 6), ("9 Z".to_string(), 9)]
    );
}
