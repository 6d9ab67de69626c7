use swaymsg_workspace::commands::Command;
use swaymsg_workspace::ipcadapter::{MockConnection, MockIPCAdapter, MockOutput, MockWorkspace};
use swaymsg_workspace::workspaces::Workspaces;

fn workspace(num: Option<usize>, name: &str, output: &str, focused: bool) -> MockWorkspace {
    MockWorkspace {
        num,
        name: name.to_string(),
        output: output.to_string(),
        focused,
    }
}

fn setup_4_workspaces_across_3_outputs() -> Workspaces<MockConnection> {
    let ipcadapter = MockIPCAdapter {
        connection: MockConnection {
            commandhistory: vec![],
        },
        workspaces: vec![
            workspace(Some(1), "1 Foo", "eDP-1", false),
            workspace(Some(2), "2 Bar", "eDP-1", true),
            workspace(Some(2), "1 Bar", "HDMI-1", false),
            workspace(Some(2), "Bak", "HDMI-2", false),
        ],
        outputs: vec![
            MockOutput {
                focused: true,
                name: "eDP-1".to_string(),
            },
            MockOutput {
                focused: false,
                name: "HDMI-1".to_string(),
            },
            MockOutput {
                focused: false,
                name: "HDMI-2".to_string(),
            },
        ],
    };
    Workspaces::new(ipcadapter).unwrap()
}

fn history(workspaces: &Workspaces<MockConnection>) -> String {
    workspaces.connection().commandhistory.join(" | ")
}

#[test]
fn test_selecting_workspace() {
    // select next workspace on same screen
    let mut workspaces = setup_4_workspaces_across_3_outputs();
    let result = swaymsg_workspace::execute_userinput(&mut workspaces, Command::Next, None);
    let expected = "workspace '1 Foo'; focus child";
    assert_eq!(&result.ok().unwrap().join(" | "), &expected);
    assert_eq!(&history(&workspaces), &expected);

    // select next workspace on same screen (wrap to start)
    let mut workspaces = setup_4_workspaces_across_3_outputs();
    let result = swaymsg_workspace::execute_userinput(&mut workspaces, Command::Next, None);
    let expected = "workspace '1 Foo'; focus child";
    assert_eq!(&result.ok().unwrap().join(" | "), &expected);
    assert_eq!(&history(&workspaces), &expected);

    // select next workspace on same screen (wrap to start)
    let mut workspaces = setup_4_workspaces_across_3_outputs();
    let result = swaymsg_workspace::execute_userinput(
        &mut workspaces,
        Command::Number,
        Some("1".to_string()),
    );
    let expected = "workspace '1 Foo'; focus child";
    assert_eq!(&result.ok().unwrap().join(" | "), &expected);
    assert_eq!(&history(&workspaces), &expected);
}

#[test]
fn test_moving_workspace() {
    let mut workspaces = setup_4_workspaces_across_3_outputs();
    let result = swaymsg_workspace::execute_userinput(&mut workspaces, Command::SwapWithNext, None);
    let expected = "rename workspace '2 Bar' to '1 Bar\u{200b}' | rename workspace '1 Foo' to '2 Foo' | rename workspace '1 Bar\u{200b}' to '1 Bar'";
    assert_eq!(&result.ok().unwrap().join(" | "), &expected);
    assert_eq!(&history(&workspaces), &expected);

    let mut workspaces = setup_4_workspaces_across_3_outputs();
    let result = swaymsg_workspace::execute_userinput(&mut workspaces, Command::SwapWithPrev, None);
    let expected = "rename workspace '1 Foo' to '2 Foo' | rename workspace '2 Bar' to '1 Bar\u{200b}' | rename workspace '1 Bar\u{200b}' to '1 Bar'";
    assert_eq!(&result.ok().unwrap().join(" | "), &expected);
    assert_eq!(&history(&workspaces), &expected);
}

#[test]
fn test_reindexing_workspace() {
    // reindex to a free workspace number
    let mut workspaces = setup_4_workspaces_across_3_outputs();
    let result = swaymsg_workspace::execute_userinput(&mut workspaces, Command::Increase, None);
    let expected = "rename workspace '2 Bar' to '3 Bar'";
    assert_eq!(&result.ok().unwrap().join(" | "), &expected);
    assert_eq!(&history(&workspaces), &expected);

    // reindex to a already taken workspace number
    let mut workspaces = setup_4_workspaces_across_3_outputs();
    let result = swaymsg_workspace::execute_userinput(&mut workspaces, Command::Decrease, None);
    let expected = "rename workspace '1 Foo' to '2 Foo' | rename workspace '2 Bar' to '1 Bar\u{200b}' | rename workspace '1 Bar\u{200b}' to '1 Bar'";
    assert_eq!(&result.ok().unwrap().join(" | "), &expected);
    assert_eq!(&history(&workspaces), &expected);
}

#[test]
fn test_renaming_workspace() {
    // rename to non existent name Baz
    let mut workspaces = setup_4_workspaces_across_3_outputs();
    let result = swaymsg_workspace::execute_userinput(
        &mut workspaces,
        Command::RenameTo,
        Some("Baz".to_string()),
    );
    let expected = "rename workspace '2 Bar' to '2 Baz'";
    assert_eq!(&result.ok().unwrap().join(" | "), &expected);
    assert_eq!(&history(&workspaces), &expected);

    // rename to existing name Foo
    let mut workspaces = setup_4_workspaces_across_3_outputs();
    let result = swaymsg_workspace::execute_userinput(
        &mut workspaces,
        Command::RenameTo,
        Some("Foo".to_string()),
    );
    let expected = "rename workspace '2 Bar' to '2 Foo'";
    assert_eq!(&result.ok().unwrap().join(" | "), &expected);
    assert_eq!(&history(&workspaces), &expected);
}
