//! The commands a user can give.
use vstd::prelude::*;
use crate::text::equal_text;

verus! {

#[derive(Debug, Clone, Copy)]
pub enum Command {
    Next,
    Prev,
    SwapWithPrev,
    SwapWithNext,
    Increase,
    Decrease,
    RenameTo,
    Number,
    MoveContainerToWorkspaceNumber,
    Select,
    PrintFocusedName,
    PrintFocusedNumber,
    RofiSelectWorkspace,
    RofiMoveWindow,
    Usage,
}

/// The command that the word `name` on the command line stands for; any
/// other word stands for `Usage`.
pub open spec fn command_named(name: Seq<char>) -> Command {
    if name == "next"@ {
        Command::Next
    } else if name == "prev"@ {
        Command::Prev
    } else if name == "swap_with_prev"@ {
        Command::SwapWithPrev
    } else if name == "swap_with_next"@ {
        Command::SwapWithNext
    } else if name == "increase"@ {
        Command::Increase
    } else if name == "decrease"@ {
        Command::Decrease
    } else if name == "rename_to"@ {
        Command::RenameTo
    } else if name == "number"@ {
        Command::Number
    } else if name == "move_container_to_workspace_number"@ {
        Command::MoveContainerToWorkspaceNumber
    } else if name == "select"@ {
        Command::Select
    } else if name == "print_focused_name"@ {
        Command::PrintFocusedName
    } else if name == "print_focused_number"@ {
        Command::PrintFocusedNumber
    } else if name == "rofi_select_workspace"@ {
        Command::RofiSelectWorkspace
    } else if name == "rofi_move_window"@ {
        Command::RofiMoveWindow
    } else {
        Command::Usage
    }
}

impl Command {
    /// The command that the word `name` on the command line stands for.
    pub fn from_argument(name: &str) -> (r: Command)
        ensures
            r == command_named(name@),
    {
        if equal_text(name, "next") {
            Command::Next
        } else if equal_text(name, "prev") {
            Command::Prev
        } else if equal_text(name, "swap_with_prev") {
            Command::SwapWithPrev
        } else if equal_text(name, "swap_with_next") {
            Command::SwapWithNext
        } else if equal_text(name, "increase") {
            Command::Increase
        } else if equal_text(name, "decrease") {
            Command::Decrease
        } else if equal_text(name, "rename_to") {
            Command::RenameTo
        } else if equal_text(name, "number") {
            Command::Number
        } else if equal_text(name, "move_container_to_workspace_number") {
            Command::MoveContainerToWorkspaceNumber
        } else if equal_text(name, "select") {
            Command::Select
        } else if equal_text(name, "print_focused_name") {
            Command::PrintFocusedName
        } else if equal_text(name, "print_focused_number") {
            Command::PrintFocusedNumber
        } else if equal_text(name, "rofi_select_workspace") {
            Command::RofiSelectWorkspace
        } else if equal_text(name, "rofi_move_window") {
            Command::RofiMoveWindow
        } else {
            Command::Usage
        }
    }
}

} // verus!
