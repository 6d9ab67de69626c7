use std::cmp::Ordering;
use swaymsg_workspace::commands::Command;
use swaymsg_workspace::ipcadapter::{
    ConnectionProxy, IPCAdapter, IpcError, IpcResult, MockConnection, MockIPCAdapter, MockOutput,
    MockWorkspace,
};
use swaymsg_workspace::order::sort_workspaces;
use swaymsg_workspace::text::{decimal_string, parse_usize, remove_zero_width_spaces, trim};
use swaymsg_workspace::workspaces::{
    extract_starting_number, find_free_adjecent_workspace_num, sort_ipcworkspace, Workspaces,
};
use swaymsg_workspace::{can_execute_userinput, execute_userinput, lines_to_print};

fn workspace(num: Option<usize>, name: &str, output: &str, focused: bool) -> MockWorkspace {
    MockWorkspace {
        num,
        name: name.to_string(),
        output: output.to_string(),
        focused,
    }
}

fn output(name: &str, focused: bool) -> MockOutput {
    MockOutput {
        name: name.to_string(),
        focused,
    }
}

fn setup_4_workspaces_across_3_outputs() -> Workspaces<MockConnection> {
    Workspaces::extract_workspaces(
        MockConnection {
            commandhistory: vec![],
        },
        vec![
            workspace(Some(1), "1 Foo", "eDP-1", false),
            workspace(Some(2), "2 Bar", "eDP-1", true),
            workspace(Some(2), "1 Bar", "HDMI-1", false),
            workspace(Some(2), "Bak", "HDMI-2", false),
        ],
        vec![
            output("eDP-1", true),
            output("HDMI-1", false),
            output("HDMI-2", false),
        ],
    )
}

fn history(workspaces: &Workspaces<MockConnection>) -> String {
    workspaces.connection().commandhistory.join(" | ")
}

fn run(
    workspaces: &mut Workspaces<MockConnection>,
    command: Command,
    argument: Option<&str>,
) -> String {
    execute_userinput(workspaces, command, argument.map(|a| a.to_string()))
        .ok()
        .unwrap()
        .join(" | ")
}

/// A connection whose `fail_at`-th command fails.
struct FailingConnection {
    fail_at: usize,
    seen: Vec<String>,
}

impl ConnectionProxy for FailingConnection {
    fn run_command(&mut self, payload: String) -> IpcResult {
        self.seen.push(payload.clone());
        if self.seen.len() == self.fail_at {
            Err(IpcError::Command(payload))
        } else {
            Ok(vec![payload])
        }
    }
}

fn failing_setup(fail_at: usize) -> Workspaces<FailingConnection> {
    Workspaces::extract_workspaces(
        FailingConnection {
            fail_at,
            seen: vec![],
        },
        vec![
            workspace(Some(1), "1 Foo", "eDP-1", false),
            workspace(Some(2), "2 Bar", "eDP-1", true),
            workspace(Some(2), "1 Bar", "HDMI-1", false),
        ],
        vec![output("eDP-1", true), output("HDMI-1", false)],
    )
}

#[test]
fn lists_are_split_by_output_and_sorted() {
    let workspaces = setup_4_workspaces_across_3_outputs();
    let same: Vec<&str> = workspaces
        .on_same_screen()
        .items()
        .iter()
        .map(|w| w.basename.as_str())
        .collect();
    assert_eq!(same, vec!["1 Foo", "2 Bar"]);
    let other: Vec<&str> = workspaces
        .on_other_screen()
        .items()
        .iter()
        .map(|w| w.basename.as_str())
        .collect();
    assert_eq!(other, vec!["Bak", "1 Bar"]);
    assert_eq!(workspaces.focused_index(), 1);
    assert_eq!(workspaces.get_focused().basename, "2 Bar");
    assert_eq!(workspaces.get_focused().get_name(), "Bar");
    assert_eq!(workspaces.get_focused().get_number(), 2);
    let all: Vec<String> = workspaces
        .on_all_screens()
        .items()
        .iter()
        .map(|w| w.basename.clone())
        .collect();
    assert_eq!(all, vec!["1 Foo", "2 Bar", "Bak", "1 Bar"]);
}

#[test]
fn mock_adapter_default_environment() {
    let adapter = MockIPCAdapter::new();
    let workspaces = Workspaces::new(adapter).unwrap();
    assert_eq!(workspaces.on_same_screen().len(), 2);
    assert_eq!(workspaces.get_focused().basename, "Foo");
    assert_eq!(workspaces.get_focused().get_number(), 1);
    assert_eq!(workspaces.on_other_screen().len(), 0);
}

#[test]
fn no_focused_output_gives_no_workspaces() {
    let adapter = MockIPCAdapter {
        connection: MockConnection {
            commandhistory: vec![],
        },
        workspaces: vec![workspace(Some(1), "1", "eDP-1", true)],
        outputs: vec![output("eDP-1", false)],
    };
    assert!(Workspaces::new(adapter).is_none());
}

#[test]
fn reported_number_is_cut_from_the_name() {
    let workspaces = Workspaces::extract_workspaces(
        MockConnection {
            commandhistory: vec![],
        },
        vec![
            workspace(Some(1), "11 Foo ", "eDP-1", true),
            workspace(Some(3), "Bar", "eDP-1", false),
        ],
        vec![output("eDP-1", true)],
    );
    let items = workspaces.on_same_screen().items();
    assert_eq!(items[0].basename, "Bar");
    assert_eq!(items[0].get_number(), 3);
    assert_eq!(items[0].get_name(), "Bar");
    assert_eq!(items[1].get_number(), 1);
    assert_eq!(items[1].get_name(), "Foo");
}

#[test]
fn sort_order_of_names() {
    let a = workspace(None, "Alpha", "o", false);
    let b = workspace(None, "Beta", "o", false);
    let one = workspace(None, "1 Zeta", "o", false);
    let ten = workspace(None, "10 Alpha", "o", false);
    let one_b = workspace(None, "1 Alpha", "o", false);
    assert_eq!(sort_ipcworkspace(&a, &b), Ordering::Less);
    assert_eq!(sort_ipcworkspace(&b, &a), Ordering::Greater);
    assert_eq!(sort_ipcworkspace(&a, &a), Ordering::Equal);
    assert_eq!(sort_ipcworkspace(&one, &a), Ordering::Greater);
    assert_eq!(sort_ipcworkspace(&a, &one), Ordering::Less);
    assert_eq!(sort_ipcworkspace(&one, &ten), Ordering::Less);
    assert_eq!(sort_ipcworkspace(&one_b, &one), Ordering::Less);
}

#[test]
fn starting_numbers() {
    assert_eq!(extract_starting_number("1 Foo"), Some(1));
    assert_eq!(extract_starting_number("42"), Some(42));
    assert_eq!(extract_starting_number("Foo"), None);
    assert_eq!(extract_starting_number(""), None);
    assert_eq!(extract_starting_number("007x"), Some(7));
    assert_eq!(extract_starting_number("1\u{0663} x"), None);
    assert_eq!(extract_starting_number("99999999999999999999999 x"), None);
}

#[test]
fn text_helpers() {
    assert_eq!(trim("  a b \t"), "a b");
    assert_eq!(decimal_string(0), "0");
    assert_eq!(decimal_string(1234), "1234");
    assert_eq!(parse_usize("1234"), Some(1234));
    assert_eq!(parse_usize("12a"), None);
    assert_eq!(remove_zero_width_spaces("a\u{200b}b\u{200b}"), "ab");
}

#[test]
fn dedupguard_appends_zero_width_spaces_until_free() {
    let mut workspaces = Workspaces::extract_workspaces(
        MockConnection {
            commandhistory: vec![],
        },
        vec![
            workspace(Some(1), "1 A", "eDP-1", true),
            workspace(Some(1), "1 A\u{200b}", "HDMI-1", false),
        ],
        vec![output("eDP-1", true), output("HDMI-1", false)],
    );
    assert_eq!(workspaces.dedupguard("2 A".to_string()), "2 A");
    assert_eq!(
        workspaces.dedupguard("1 A".to_string()),
        "1 A\u{200b}\u{200b}"
    );
    // the recorded pairs are renamed back in order
    let result = workspaces.cleanup().ok().unwrap().join(" | ");
    let expected = "rename workspace '1 A\u{200b}' to '1 A' | rename workspace '1 A\u{200b}\u{200b}' to '1 A\u{200b}'";
    assert_eq!(result, expected);
    assert_eq!(history(&workspaces), expected);
}

#[test]
fn prev_and_next_with_an_argument_cross_screens() {
    let mut workspaces = setup_4_workspaces_across_3_outputs();
    assert_eq!(
        run(&mut workspaces, Command::Prev, None),
        "workspace '1 Foo'; focus child"
    );
    let mut workspaces = setup_4_workspaces_across_3_outputs();
    assert_eq!(
        run(&mut workspaces, Command::Next, Some("all")),
        "workspace 'Bak'; focus child"
    );
    let mut workspaces = Workspaces::extract_workspaces(
        MockConnection {
            commandhistory: vec![],
        },
        vec![
            workspace(Some(1), "1 Foo", "eDP-1", true),
            workspace(Some(2), "2 Bar", "eDP-1", false),
            workspace(Some(3), "3 Baz", "HDMI-1", false),
        ],
        vec![output("eDP-1", true), output("HDMI-1", false)],
    );
    assert_eq!(
        run(&mut workspaces, Command::Prev, None),
        "workspace '2 Bar'; focus child"
    );
    assert_eq!(
        run(&mut workspaces, Command::Prev, Some("all")),
        "workspace '3 Baz'; focus child"
    );
}

#[test]
fn increase_swaps_with_the_next_number() {
    let mut workspaces = Workspaces::extract_workspaces(
        MockConnection {
            commandhistory: vec![],
        },
        vec![
            workspace(Some(1), "1 Foo", "eDP-1", true),
            workspace(Some(2), "2 Bar", "eDP-1", false),
        ],
        vec![output("eDP-1", true)],
    );
    assert_eq!(
        run(&mut workspaces, Command::Increase, None),
        "rename workspace '1 Foo' to '2 Foo' | rename workspace '2 Bar' to '1 Bar'"
    );
    let mut workspaces = Workspaces::extract_workspaces(
        MockConnection {
            commandhistory: vec![],
        },
        vec![workspace(Some(1), "1 Foo", "eDP-1", true)],
        vec![output("eDP-1", true)],
    );
    assert_eq!(run(&mut workspaces, Command::Decrease, None), "");
    assert_eq!(history(&workspaces), "");
}

#[test]
fn numbers_select_or_create() {
    let mut workspaces = setup_4_workspaces_across_3_outputs();
    assert_eq!(
        run(&mut workspaces, Command::Number, Some("7")),
        "workspace '7'"
    );
    let mut workspaces = setup_4_workspaces_across_3_outputs();
    assert_eq!(
        run(&mut workspaces, Command::MoveContainerToWorkspaceNumber, Some("2")),
        "move window to workspace '2 Bar'"
    );
    let mut workspaces = setup_4_workspaces_across_3_outputs();
    assert_eq!(
        run(&mut workspaces, Command::MoveContainerToWorkspaceNumber, Some("9")),
        "move window to workspace '9'"
    );
}

#[test]
fn select_and_notes() {
    let mut workspaces = setup_4_workspaces_across_3_outputs();
    assert_eq!(
        run(&mut workspaces, Command::Select, Some("Bak")),
        "workspace 'Bak'; focus child"
    );
    assert_eq!(
        run(&mut workspaces, Command::RofiSelectWorkspace, Some("1 Bar")),
        "workspace '1 Bar'; focus child"
    );
    assert_eq!(
        run(&mut workspaces, Command::RofiSelectWorkspace, None),
        "nonipc: rofi_select_workspace"
    );
    assert_eq!(
        run(&mut workspaces, Command::PrintFocusedName, None),
        "nonipc: print_focused_name"
    );
    assert_eq!(
        run(&mut workspaces, Command::PrintFocusedNumber, None),
        "nonipc: print_focused_number"
    );
    assert_eq!(
        run(&mut workspaces, Command::Usage, None),
        "nonipc: Instructions printed"
    );
    assert_eq!(
        history(&workspaces),
        "workspace 'Bak'; focus child | workspace '1 Bar'; focus child"
    );
}

#[test]
fn printed_lines() {
    let workspaces = setup_4_workspaces_across_3_outputs();
    assert_eq!(
        lines_to_print(&workspaces, &Command::PrintFocusedName, &None),
        vec!["Bar"]
    );
    assert_eq!(
        lines_to_print(&workspaces, &Command::PrintFocusedNumber, &None),
        vec!["2"]
    );
    assert_eq!(
        lines_to_print(&workspaces, &Command::RofiMoveWindow, &None),
        vec!["1 Foo", "2 Bar", "Bak", "1 Bar"]
    );
    assert!(lines_to_print(&workspaces, &Command::RofiMoveWindow, &Some("x".to_string())).is_empty());
    assert!(lines_to_print(&workspaces, &Command::Next, &None).is_empty());
}

#[test]
fn commands_from_arguments() {
    assert!(matches!(Command::from_argument("next"), Command::Next));
    assert!(matches!(Command::from_argument("rename_to"), Command::RenameTo));
    assert!(matches!(
        Command::from_argument("print_focused_number"),
        Command::PrintFocusedNumber
    ));
    assert!(matches!(Command::from_argument("bogus"), Command::Usage));
}

#[test]
fn panicking_inputs_are_recognised() {
    let workspaces = setup_4_workspaces_across_3_outputs();
    assert!(can_execute_userinput(&workspaces, &Command::Next, &None));
    assert!(!can_execute_userinput(&workspaces, &Command::Number, &None));
    assert!(!can_execute_userinput(&workspaces, &Command::Number, &Some("x".to_string())));
    assert!(can_execute_userinput(&workspaces, &Command::Number, &Some("3".to_string())));
    assert!(!can_execute_userinput(&workspaces, &Command::Select, &None));
    let empty = Workspaces::extract_workspaces(
        MockConnection {
            commandhistory: vec![],
        },
        vec![workspace(Some(1), "1", "HDMI-1", false)],
        vec![output("eDP-1", true)],
    );
    assert!(!can_execute_userinput(&empty, &Command::Next, &None));
    assert!(can_execute_userinput(&empty, &Command::Next, &Some("x".to_string())));
    assert!(!can_execute_userinput(&empty, &Command::Increase, &None));
}

#[test]
fn free_adjacent_number() {
    let workspaces = Workspaces::extract_workspaces(
        MockConnection {
            commandhistory: vec![],
        },
        vec![
            workspace(Some(1), "1 A", "eDP-1", false),
            workspace(Some(2), "2 B", "eDP-1", true),
            workspace(Some(3), "3 C", "eDP-1", false),
            workspace(Some(5), "5 D", "eDP-1", false),
        ],
        vec![output("eDP-1", true)],
    );
    assert_eq!(find_free_adjecent_workspace_num(workspaces.on_same_screen()), 4);
}

#[test]
fn a_failing_command_stops_the_rest() {
    // the first rename of the swap fails: the swap still hands over its second
    // rename, then the command stops before renaming back
    let mut workspaces = failing_setup(1);
    let result = execute_userinput(&mut workspaces, Command::SwapWithNext, None);
    assert!(matches!(result, Err(IpcError::Command(ref c)) if c == "rename workspace '2 Bar' to '1 Bar\u{200b}'"));
    assert_eq!(
        workspaces.connection().seen.join(" | "),
        "rename workspace '2 Bar' to '1 Bar\u{200b}' | rename workspace '1 Foo' to '2 Foo'"
    );
    // the renaming back fails: every rename was handed over
    let mut workspaces = failing_setup(3);
    let result = execute_userinput(&mut workspaces, Command::SwapWithNext, None);
    assert!(result.is_err());
    assert_eq!(
        workspaces.connection().seen.join(" | "),
        "rename workspace '2 Bar' to '1 Bar\u{200b}' | rename workspace '1 Foo' to '2 Foo' | rename workspace '1 Bar\u{200b}' to '1 Bar'"
    );
}

#[test]
fn numbers_match_whole_numbers() {
    let mut workspaces = Workspaces::extract_workspaces(
        MockConnection {
            commandhistory: vec![],
        },
        vec![
            workspace(Some(1), "1 Foo", "eDP-1", true),
            workspace(Some(10), "10 Baz", "eDP-1", false),
        ],
        vec![output("eDP-1", true)],
    );
    assert_eq!(
        run(&mut workspaces, Command::Number, Some("1")),
        "workspace '1 Foo'; focus child"
    );
    assert_eq!(
        run(&mut workspaces, Command::MoveContainerToWorkspaceNumber, Some("1")),
        "move window to workspace '1 Foo'"
    );
    assert_eq!(
        history(&workspaces),
        "workspace '1 Foo'; focus child | move window to workspace '1 Foo'"
    );
}

#[test]
fn renaming_keeps_the_number() {
    let mut workspaces = setup_4_workspaces_across_3_outputs();
    assert_eq!(
        run(&mut workspaces, Command::RenameTo, Some("Ba\u{200b}z")),
        "rename workspace '2 Bar' to '2 Baz'"
    );
    assert_eq!(extract_starting_number("2 Baz"), Some(2));
    let mut workspaces = setup_4_workspaces_across_3_outputs();
    assert_eq!(
        run(&mut workspaces, Command::RenameTo, None),
        "rename workspace '2 Bar' to '2'"
    );
    let mut workspaces = Workspaces::extract_workspaces(
        MockConnection {
            commandhistory: vec![],
        },
        vec![
            workspace(Some(2), "2", "eDP-1", false),
            workspace(Some(2), "2 Bar", "eDP-1", true),
        ],
        vec![output("eDP-1", true)],
    );
    let result = run(&mut workspaces, Command::RenameTo, None);
    assert_eq!(
        result,
        "rename workspace '2 Bar' to '2\u{200b}' | rename workspace '2\u{200b}' to '2'"
    );
    assert_eq!(extract_starting_number("2\u{200b}"), Some(2));
}

#[test]
fn decreasing_renames_to_the_lower_number() {
    let mut workspaces = Workspaces::extract_workspaces(
        MockConnection {
            commandhistory: vec![],
        },
        vec![
            workspace(Some(1), "1 A", "eDP-1", false),
            workspace(Some(3), "3 C", "eDP-1", true),
        ],
        vec![output("eDP-1", true)],
    );
    assert_eq!(
        run(&mut workspaces, Command::Decrease, None),
        "rename workspace '3 C' to '2 C'"
    );
    assert_eq!(extract_starting_number("2 C"), Some(2));
}

#[test]
fn rofi_move_without_a_number_takes_a_free_one() {
    let mut workspaces = Workspaces::extract_workspaces(
        MockConnection {
            commandhistory: vec![],
        },
        vec![
            workspace(Some(1), "1 A", "eDP-1", false),
            workspace(Some(2), "2 B", "eDP-1", true),
            workspace(Some(3), "3 C", "eDP-1", false),
        ],
        vec![output("eDP-1", true)],
    );
    assert_eq!(
        run(&mut workspaces, Command::RofiMoveWindow, Some("Mail")),
        "move window to workspace '4 Mail'"
    );
    assert_eq!(history(&workspaces), "move window to workspace '4 Mail'");
}

#[test]
fn sorting_keeps_every_workspace_in_order() {
    let sorted = sort_workspaces(vec![
        workspace(None, "10 a", "eDP-1", false),
        workspace(None, "b", "eDP-1", false),
        workspace(None, "2 c", "eDP-1", false),
        workspace(None, "2 b", "eDP-1", false),
        workspace(None, "a", "eDP-1", false),
    ]);
    let names: Vec<&str> = sorted.iter().map(|w| w.name.as_str()).collect();
    assert_eq!(names, vec!["a", "b", "2 b", "2 c", "10 a"]);
}

#[test]
fn printed_numbers_read_back() {
    assert_eq!(parse_usize(decimal_string(12345).as_str()), Some(12345));
    assert_eq!(parse_usize(decimal_string(usize::MAX).as_str()), Some(usize::MAX));
    assert_eq!(parse_usize(decimal_string(0).as_str()), Some(0));
}

#[test]
fn next_then_prev_returns() {
    let focused_first = || {
        Workspaces::extract_workspaces(
            MockConnection {
                commandhistory: vec![],
            },
            vec![
                workspace(Some(1), "1 Foo", "eDP-1", true),
                workspace(Some(2), "2 Bar", "eDP-1", false),
            ],
            vec![output("eDP-1", true)],
        )
    };
    let mut workspaces = focused_first();
    assert_eq!(
        run(&mut workspaces, Command::Next, None),
        "workspace '2 Bar'; focus child"
    );
    let mut workspaces = setup_4_workspaces_across_3_outputs();
    assert_eq!(
        run(&mut workspaces, Command::Prev, None),
        "workspace '1 Foo'; focus child"
    );
    let mut workspaces = focused_first();
    assert_eq!(
        run(&mut workspaces, Command::Prev, None),
        "workspace '2 Bar'; focus child"
    );
}

#[test]
fn numbers_end_at_the_first_non_digit() {
    assert_eq!(extract_starting_number("10Bar"), Some(10));
    assert_eq!(extract_starting_number("10 Bar"), Some(10));
    assert_eq!(extract_starting_number("Bar10"), None);
}

#[test]
fn trying_a_command_checks_it_first() {
    let mut workspaces = setup_4_workspaces_across_3_outputs();
    assert!(swaymsg_workspace::try_execute_userinput(&mut workspaces, Command::Number, None).is_none());
    assert_eq!(history(&workspaces), "");
    let result = swaymsg_workspace::try_execute_userinput(&mut workspaces, Command::Next, None);
    assert_eq!(
        result.unwrap().ok().unwrap().join(" | "),
        "workspace '1 Foo'; focus child"
    );
    assert_eq!(history(&workspaces), "workspace '1 Foo'; focus child");
}

#[test]
fn new_keeps_the_adapters_connection() {
    let adapter = MockIPCAdapter {
        connection: MockConnection {
            commandhistory: vec!["earlier".to_string()],
        },
        workspaces: vec![workspace(Some(1), "1 Foo", "eDP-1", true)],
        outputs: vec![output("eDP-1", true)],
    };
    let mut workspaces = Workspaces::new(adapter).unwrap();
    assert_eq!(history(&workspaces), "earlier");
    run(&mut workspaces, Command::Select, Some("1 Foo"));
    assert_eq!(history(&workspaces), "earlier | workspace '1 Foo'; focus child");
}
