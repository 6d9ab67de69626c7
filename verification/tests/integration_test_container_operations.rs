use swaymsg_workspace::commands::Command;
use swaymsg_workspace::ipcadapter::{MockConnection, MockIPCAdapter, MockOutput, MockWorkspace};
use swaymsg_workspace::workspaces::Workspaces;

fn workspace(num: Option<usize>, name: &str, output: &str, focused: bool) -> MockWorkspace {
    MockWorkspace {
        num,
        name: name.to_string(),
        output: output.to_string(),
        focused,
    }
}

fn setup_4_workspaces_across_3_outputs() -> Workspaces<MockConnection> {
    let ipcadapter = MockIPCAdapter {
        connection: MockConnection {
            commandhistory: vec![],
        },
        workspaces: vec![
            workspace(Some(1), "1 Foo", "eDP-1", false),
            workspace(Some(2), "2 Bar", "eDP-1", true),
            workspace(Some(2), "1 Bar", "HDMI-1", false),
            workspace(Some(2), "Bak", "HDMI-2", false),
        ],
        outputs: vec![
            MockOutput {
                focused: true,
                name: "eDP-1".to_string(),
            },
            MockOutput {
                focused: false,
                name: "HDMI-1".to_string(),
            },
            MockOutput {
                focused: false,
                name: "HDMI-2".to_string(),
            },
        ],
    };
    Workspaces::new(ipcadapter).unwrap()
}

fn history(workspaces: &Workspaces<MockConnection>) -> String {
    workspaces.connection().commandhistory.join(" | ")
}

#[test]
fn test_moving_container() {
    let mut workspaces = setup_4_workspaces_across_3_outputs();
    let result = swaymsg_workspace::execute_userinput(
        &mut workspaces,
        Command::from_argument("move_container_to_workspace_number"),
        Some("1".to_string()),
    );
    let expected = "move window to workspace '1 Foo'";
    assert_eq!(&result.ok().unwrap().join(" | "), &expected);
    assert_eq!(&history(&workspaces), &expected);
}
