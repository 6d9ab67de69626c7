//! Workspace operations for the Sway compositor that stay on the output of the
//! focused container.

pub mod commands;
pub mod fragments;
pub mod ipcadapter;
pub mod laws;
pub mod order;
pub mod plan;
pub mod text;
pub mod workspace;
pub mod workspaces;

use vstd::prelude::*;
use crate::commands::Command;
use crate::fragments::starting_number;
use crate::ipcadapter::{ConnectionProxy, IpcResult};
use crate::plan::{
    flat, lemma_single, lemma_stage_stop, lemma_stage_then, result_texts, run, taints_of, PlanItem,
};
use crate::text::{decimal, decimal_string, equal_text, parse_unsigned, parse_usize};
use crate::workspaces::{
    adjacent_defined, adjacent_free, all_names, cleanup_plan, decrease_plan,
    find_free_adjecent_workspace_num, has_free_adjecent_workspace_num, increase_plan, join,
    lemma_lift, lemma_reached_same, lemma_reached_trans, lemma_stages_log, move_cmd,
    number_move_plan, number_select_plan, performed, performed_stages, reached, rename_item,
    select_cmd, swap_defined, swap_plan, wf_view, extract_starting_number, Workspace,
    WorkspaceView, Workspaces, WorkspacesView,
};

verus! {

/// The text of an optional argument.
pub open spec fn arg_view(a: Option<String>) -> Option<Seq<char>> {
    match a {
        Some(s) => Some(s@),
        None => None,
    }
}

/// A line of text returned without a command.
pub open spec fn note(text: Seq<char>) -> PlanItem {
    PlanItem::Note { text }
}

pub open spec fn focused_view(v: WorkspacesView) -> WorkspaceView {
    v.same[v.focused_index as int]
}

/// The workspace `next` selects: the next one on the focused screen; after the
/// last one, the first one of the other screens where an argument is given and
/// there is one, else the first one of the focused screen.
pub open spec fn next_target(v: WorkspacesView, arg: Option<Seq<char>>) -> Seq<char> {
    let fi = v.focused_index as int;
    if fi + 1 < v.same.len() {
        v.same[fi + 1].basename
    } else if arg is Some && v.other.len() > 0 {
        v.other[0].basename
    } else {
        v.same[0].basename
    }
}

/// The workspace `prev` selects: the previous one on the focused screen;
/// before the first one, the last one of the other screens where an argument
/// is given and there is one, else the last one of the focused screen.
pub open spec fn prev_target(v: WorkspacesView, arg: Option<Seq<char>>) -> Seq<char> {
    let fi = v.focused_index as int;
    if fi >= 1 {
        v.same[fi - 1].basename
    } else if arg is Some && v.other.len() > 0 {
        v.other.last().basename
    } else {
        v.same.last().basename
    }
}

/// The workspace after the focused one, or the first one after the last.
pub open spec fn next_partner(v: WorkspacesView) -> WorkspaceView {
    let fi = v.focused_index as int;
    if fi + 1 < v.same.len() {
        v.same[fi + 1]
    } else {
        v.same[0]
    }
}

/// The workspace before the focused one, or the last one before the first.
pub open spec fn prev_partner(v: WorkspacesView) -> WorkspaceView {
    let fi = v.focused_index as int;
    if fi >= 1 {
        v.same[fi - 1]
    } else {
        v.same.last()
    }
}

/// The new full name `rename_to` gives the focused workspace: its number, then
/// the argument after a space.
pub open spec fn rename_to_target(v: WorkspacesView, arg: Option<Seq<char>>) -> Seq<char> {
    match arg {
        Some(n) => decimal(focused_view(v).number) + seq![' '] + n,
        None => decimal(focused_view(v).number),
    }
}

/// The workspace `rofi_move_window` moves to: the argument where it starts
/// with a number, else the argument after a free number next to the focused
/// workspace.
pub open spec fn rofi_target(v: WorkspacesView, x: Seq<char>) -> Seq<char> {
    if starting_number(x) is Some {
        x
    } else {
        decimal(adjacent_free(v.same)) + seq![' '] + x
    }
}

pub open spec fn argument_number(arg: Option<Seq<char>>) -> nat {
    parse_unsigned(arg.unwrap(), usize::MAX as nat).unwrap()
}

/// The steps of a command before the recorded names are renamed back (for
/// `rofi_select_workspace` with an argument, its first stage).
pub open spec fn main_items(v: WorkspacesView, command: Command, arg: Option<Seq<char>>) -> Seq<
    PlanItem,
> {
    let names = all_names(v);
    let fi = v.focused_index as int;
    let f = focused_view(v);
    match command {
        Command::Next => seq![run(select_cmd(next_target(v, arg)))],
        Command::Prev => seq![run(select_cmd(prev_target(v, arg)))],
        Command::SwapWithPrev => swap_plan(names, prev_partner(v), f),
        Command::SwapWithNext => swap_plan(names, f, next_partner(v)),
        Command::Increase => if fi + 1 < v.same.len() && f.number + 1 == v.same[fi + 1].number {
            swap_plan(names, f, v.same[fi + 1])
        } else {
            increase_plan(names, f)
        },
        Command::Decrease => if fi >= 1 && v.same[fi - 1].number + 1 == f.number {
            swap_plan(names, v.same[fi - 1], f)
        } else {
            decrease_plan(names, f)
        },
        Command::RenameTo => seq![rename_item(names, f.basename, rename_to_target(v, arg))],
        Command::Number => number_select_plan(v, argument_number(arg)),
        Command::MoveContainerToWorkspaceNumber => number_move_plan(v, argument_number(arg)),
        Command::Select => seq![run(select_cmd(arg.unwrap()))],
        Command::PrintFocusedName => seq![note("nonipc: print_focused_name"@)],
        Command::PrintFocusedNumber => seq![note("nonipc: print_focused_number"@)],
        Command::RofiSelectWorkspace => match arg {
            Some(x) => seq![run(select_cmd(x))],
            None => seq![note("nonipc: rofi_select_workspace"@)],
        },
        Command::RofiMoveWindow => match arg {
            Some(x) => seq![run(move_cmd(rofi_target(v, x)))],
            None => seq![note("nonipc: rofi_move_window"@)],
        },
        Command::Usage => seq![note("nonipc: Instructions printed"@)],
    }
}

/// What a command does before the recorded names are renamed back, in
/// stages: its steps; `rofi_select_workspace` with an argument selects, and
/// then, where that was carried out, renames back the names recorded before.
pub open spec fn main_plan(v: WorkspacesView, command: Command, arg: Option<Seq<char>>) -> Seq<
    Seq<PlanItem>,
> {
    if command is RofiSelectWorkspace && arg is Some {
        seq![main_items(v, command, arg), cleanup_plan(v.taints)]
    } else {
        seq![main_items(v, command, arg)]
    }
}

/// What a command does: its own stages, then, where they were carried out,
/// renaming back every recorded name.
pub open spec fn userinput_plan(v: WorkspacesView, command: Command, arg: Option<Seq<char>>) -> Seq<
    Seq<PlanItem>,
> {
    let m = main_plan(v, command, arg);
    m.push(cleanup_plan(v.taints + taints_of(flat(m))))
}

/// The command panics nowhere on `v` and `arg`: a workspace to act on exists,
/// a number that is asked for is given, and no number overflows.
pub open spec fn userinput_defined(
    v: WorkspacesView,
    command: Command,
    arg: Option<Seq<char>>,
) -> bool {
    let fi = v.focused_index as int;
    match command {
        Command::Next | Command::Prev => v.same.len() > 0 || (arg is Some && v.other.len() > 0),
        Command::SwapWithPrev => v.same.len() > 0 && swap_defined(prev_partner(v), focused_view(v)),
        Command::SwapWithNext => v.same.len() > 0 && swap_defined(focused_view(v), next_partner(v)),
        Command::Increase => v.same.len() > 0 && focused_view(v).number < usize::MAX,
        Command::Decrease => v.same.len() > 0 && (fi >= 1 ==> v.same[fi - 1].number
            < usize::MAX),
        Command::RenameTo | Command::PrintFocusedName | Command::PrintFocusedNumber => v.same.len()
            > 0,
        Command::Number | Command::MoveContainerToWorkspaceNumber => arg is Some && parse_unsigned(
            arg.unwrap(),
            usize::MAX as nat,
        ) is Some,
        Command::Select => arg is Some,
        Command::RofiMoveWindow => (arg matches Some(x) && starting_number(x) is None)
            ==> adjacent_defined(v.same),
        Command::RofiSelectWorkspace | Command::Usage => true,
    }
}

/// The lines a command prints: the focused workspace's name or number, or the
/// full names of all workspaces where a rofi command gets no argument.
pub open spec fn printout(v: WorkspacesView, command: Command, arg: Option<Seq<char>>) -> Seq<
    Seq<char>,
> {
    match command {
        Command::PrintFocusedName => seq![focused_view(v).name],
        Command::PrintFocusedNumber => seq![decimal(focused_view(v).number)],
        Command::RofiSelectWorkspace | Command::RofiMoveWindow => if arg is None {
            all_names(v)
        } else {
            seq![]
        },
        _ => seq![],
    }
}

proof fn lemma_note(v: WorkspacesView, text: Seq<char>)
    ensures
        performed(v, v, seq![note(text)], Some(seq![text])),
{
    lemma_single(note(text));
    assert(v.log.skip(v.log.len() as int) =~= Seq::<(Seq<char>, bool)>::empty());
    assert(v.log + v.log.skip(v.log.len() as int) =~= v.log);
    assert(crate::plan::payloads(v.log.skip(v.log.len() as int)) =~= Seq::<Seq<char>>::empty());
    assert(v.taints + seq![] =~= v.taints);
}

/// A result that is the line `text`, with no command run.
fn note_result(text: &str) -> (r: IpcResult)
    ensures
        result_texts(r) == Some(seq![text@]),
{
    let mut v: Vec<String> = Vec::new();
    v.push(String::from_str(text));
    assert(v@.map_values(|s: String| s@) =~= seq![text@]);
    Ok(v)
}

/// Selects `target` and then, where that was carried out, renames every
/// recorded name back.
fn select_then_cleanup<C: ConnectionProxy>(workspaces: &mut Workspaces<C>, target: &String) -> (r:
    IpcResult)
    ensures
        performed_stages(
            old(workspaces)@,
            final(workspaces)@,
            seq![seq![run(select_cmd(target@))], cleanup_plan(old(workspaces)@.taints)],
            result_texts(r),
        ),
        reached(*old(workspaces), *final(workspaces)),
{
    let ghost v0 = workspaces@;
    let ghost w0 = *workspaces;
    let ghost a = seq![run(select_cmd(target@))];
    let first = workspaces.select(target);
    proof {
        lemma_lift(v0, workspaces@, a, result_texts(first));
        assert(seq![a].push(cleanup_plan(v0.taints)) =~= seq![a, cleanup_plan(v0.taints)]);
    }
    match first {
        Err(e) => {
            proof {
                lemma_stage_stop(
                    v0.log,
                    v0.taints,
                    workspaces@.log,
                    workspaces@.taints,
                    seq![a],
                    cleanup_plan(v0.taints),
                );
            }
            Err(e)
        },
        Ok(dirty) => {
            let ghost v1 = workspaces@;
            let ghost w1 = *workspaces;
            proof {
                lemma_single(run(select_cmd(target@)));
                assert(v1.taints =~= v0.taints);
            }
            let clean = workspaces.cleanup();
            proof {
                lemma_stage_then(
                    v0.log,
                    v0.taints,
                    v1.log,
                    v1.taints,
                    workspaces@.log,
                    workspaces@.taints,
                    seq![a],
                    cleanup_plan(v0.taints),
                    dirty@.map_values(|s: String| s@),
                    result_texts(clean),
                );
                lemma_reached_trans(w0, w1, *workspaces);
            }
            join(dirty, clean)
        },
    }
}

/// Carries out a command up to, not including, the renaming back of the
/// recorded names.
fn run_main<C: ConnectionProxy>(
    workspaces: &mut Workspaces<C>,
    command: Command,
    argument_parameter: Option<String>,
) -> (r: IpcResult)
    requires
        old(workspaces).wf(),
        userinput_defined(old(workspaces)@, command, arg_view(argument_parameter)),
    ensures
        performed_stages(
            old(workspaces)@,
            final(workspaces)@,
            main_plan(old(workspaces)@, command, arg_view(argument_parameter)),
            result_texts(r),
        ),
        reached(*old(workspaces), *final(workspaces)),
{
    let ghost v = workspaces@;
    let ghost arg = arg_view(argument_parameter);
    let ghost selects_then_cleans = command is RofiSelectWorkspace && argument_parameter is Some;
    let fi = workspaces.focused_index();
    let r = match command {
        Command::Next => {
            let target = match workspaces.on_same_screen().next_of(fi) {
                Some(workspace) => workspace.basename().clone(),
                None => match argument_parameter {
                    Some(_) => match workspaces.on_other_screen().first() {
                        Some(workspace) => workspace.basename().clone(),
                        None => workspaces.on_same_screen().first().unwrap().basename().clone(),
                    },
                    None => workspaces.on_same_screen().first().unwrap().basename().clone(),
                },
            };
            workspaces.select(&target)
        },
        Command::Prev => {
            let target = match workspaces.on_same_screen().prev_of(fi) {
                Some(workspace) => workspace.basename().clone(),
                None => match argument_parameter {
                    Some(_) => match workspaces.on_other_screen().last() {
                        Some(workspace) => workspace.basename().clone(),
                        None => workspaces.on_same_screen().last().unwrap().basename().clone(),
                    },
                    None => workspaces.on_same_screen().last().unwrap().basename().clone(),
                },
            };
            workspaces.select(&target)
        },
        Command::SwapWithNext => {
            let current = workspaces.on_same_screen().get(fi).unwrap().clone();
            let next = match workspaces.on_same_screen().next_of(fi) {
                Some(workspace) => workspace.clone(),
                None => workspaces.on_same_screen().first().unwrap().clone(),
            };
            swap_workspace(workspaces, &current, &next)
        },
        Command::SwapWithPrev => {
            let current = workspaces.on_same_screen().get(fi).unwrap().clone();
            let prev = match workspaces.on_same_screen().prev_of(fi) {
                Some(workspace) => workspace.clone(),
                None => workspaces.on_same_screen().last().unwrap().clone(),
            };
            swap_workspace(workspaces, &prev, &current)
        },
        Command::Increase => {
            let focused = workspaces.get_focused().clone();
            let partner: Option<Workspace> = match workspaces.on_same_screen().next_of(fi) {
                Some(next) => if focused.get_number() + 1 == next.get_number() {
                    Some(next.clone())
                } else {
                    None
                },
                None => None,
            };
            match partner {
                Some(ws2) => workspaces.swap(&focused, &ws2),
                None => workspaces.increase_number(&focused),
            }
        },
        Command::Decrease => {
            let focused = workspaces.get_focused().clone();
            let partner: Option<Workspace> = match workspaces.on_same_screen().prev_of(fi) {
                Some(prev) => if prev.get_number() + 1 == focused.get_number() {
                    Some(prev.clone())
                } else {
                    None
                },
                None => None,
            };
            match partner {
                Some(ws1) => workspaces.swap(&ws1, &focused),
                None => workspaces.decrease_number(&focused),
            }
        },
        Command::RenameTo => {
            let focused = workspaces.get_focused().clone();
            let mut to = decimal_string(focused.get_number());
            match argument_parameter {
                Some(new_name) => {
                    to.append(" ");
                    to.append(new_name.as_str());
                    proof {
                        reveal_strlit(" ");
                        assert(to@ =~= rename_to_target(v, arg));
                    }
                },
                None => {},
            }
            workspaces.rename(focused.basename().as_str(), to.as_str())
        },
        Command::Number => {
            let number = parse_usize(argument_parameter.unwrap().as_str()).unwrap();
            workspaces.select_or_create_number(number)
        },
        Command::MoveContainerToWorkspaceNumber => {
            let number = parse_usize(argument_parameter.unwrap().as_str()).unwrap();
            workspaces.move_container_to_number(number)
        },
        Command::Select => {
            let workspace = argument_parameter.unwrap();
            workspaces.select(&workspace)
        },
        Command::PrintFocusedName => {
            proof {
                lemma_note(v, "nonipc: print_focused_name"@);
                lemma_reached_same(*workspaces, *workspaces);
            }
            note_result("nonipc: print_focused_name")
        },
        Command::PrintFocusedNumber => {
            proof {
                lemma_note(v, "nonipc: print_focused_number"@);
                lemma_reached_same(*workspaces, *workspaces);
            }
            note_result("nonipc: print_focused_number")
        },
        Command::RofiSelectWorkspace => match argument_parameter {
            Some(workspacename) => {
                select_then_cleanup(workspaces, &workspacename)
            },
            None => {
                proof {
                    lemma_note(v, "nonipc: rofi_select_workspace"@);
                lemma_reached_same(*workspaces, *workspaces);
                }
                note_result("nonipc: rofi_select_workspace")
            },
        },
        Command::RofiMoveWindow => match argument_parameter {
            Some(workspacename) => match extract_starting_number(workspacename.as_str()) {
                Some(_number) => {
                    workspaces.move_container_to(&workspacename)
                },
                None => {
                    let free = find_free_adjecent_workspace_num(workspaces.on_same_screen());
                    let mut to = decimal_string(free);
                    to.append(" ");
                    to.append(workspacename.as_str());
                    proof {
                        reveal_strlit(" ");
                        assert(to@ =~= rofi_target(v, workspacename@));
                    }
                    workspaces.move_container_to(&to)
                },
            },
            None => {
                proof {
                    lemma_note(v, "nonipc: rofi_move_window"@);
                lemma_reached_same(*workspaces, *workspaces);
                }
                note_result("nonipc: rofi_move_window")
            },
        },
        Command::Usage => {
            proof {
                lemma_note(v, "nonipc: Instructions printed"@);
                lemma_reached_same(*workspaces, *workspaces);
            }
            note_result("nonipc: Instructions printed")
        },
    };
    proof {
        if !selects_then_cleans {
            lemma_lift(v, workspaces@, main_items(v, command, arg), result_texts(r));
        }
    }
    r
}

/// Exchanges the numbers of `prev` and `next` (see `Workspaces::swap`).
fn swap_workspace<C: ConnectionProxy>(
    workspaces: &mut Workspaces<C>,
    prev: &Workspace,
    next: &Workspace,
) -> (r: IpcResult)
    requires
        swap_defined(prev@, next@),
    ensures
        performed(
            old(workspaces)@,
            final(workspaces)@,
            swap_plan(all_names(old(workspaces)@), prev@, next@),
            result_texts(r),
        ),
        reached(*old(workspaces), *final(workspaces)),
{
    workspaces.swap(prev, next)
}

/// Carries out `command` with its argument on `workspaces`: its own steps,
/// then renaming back every name that was recorded to keep names apart. Every
/// command of a stage is handed to the connection; a stage in which the
/// compositor refused one ends the command with an error. On success the
/// result holds the commands run (or the line of a command that runs none).
pub fn execute_userinput<C: ConnectionProxy>(
    workspaces: &mut Workspaces<C>,
    command: Command,
    argument_parameter: Option<String>,
) -> (r: IpcResult)
    requires
        old(workspaces).wf(),
        userinput_defined(old(workspaces)@, command, arg_view(argument_parameter)),
    ensures
        final(workspaces).wf(),
        performed_stages(
            old(workspaces)@,
            final(workspaces)@,
            userinput_plan(old(workspaces)@, command, arg_view(argument_parameter)),
            result_texts(r),
        ),
        reached(*old(workspaces), *final(workspaces)),
{
    let ghost v0 = workspaces@;
    let ghost w0 = *workspaces;
    let ghost arg = arg_view(argument_parameter);
    let ghost m = main_plan(v0, command, arg);
    let first = run_main(workspaces, command, argument_parameter);
    match first {
        Err(e) => {
            proof {
                lemma_stage_stop(
                    v0.log,
                    v0.taints,
                    workspaces@.log,
                    workspaces@.taints,
                    m,
                    cleanup_plan(v0.taints + taints_of(flat(m))),
                );
            }
            Err(e)
        },
        Ok(dirty) => {
            let ghost v1 = workspaces@;
            let ghost w1 = *workspaces;
            let clean = workspaces.cleanup();
            proof {
                lemma_stage_then(
                    v0.log,
                    v0.taints,
                    v1.log,
                    v1.taints,
                    workspaces@.log,
                    workspaces@.taints,
                    m,
                    cleanup_plan(v1.taints),
                    dirty@.map_values(|s: String| s@),
                    result_texts(clean),
                );
                lemma_stages_log(v0, v1, m, Some(dirty@.map_values(|s: String| s@)));
                lemma_reached_trans(w0, w1, *workspaces);
            }
            join(dirty, clean)
        },
    }
}

/// Carries out `command` with its argument on `workspaces` where it can be
/// carried out (see `can_execute_userinput`), as `execute_userinput` does;
/// `None`, with nothing done, where it cannot.
pub fn try_execute_userinput<C: ConnectionProxy>(
    workspaces: &mut Workspaces<C>,
    command: Command,
    argument_parameter: Option<String>,
) -> (r: Option<IpcResult>)
    requires
        old(workspaces).wf(),
    ensures
        final(workspaces).wf(),
        r is None <==> !userinput_defined(old(workspaces)@, command, arg_view(argument_parameter)),
        r is None ==> *final(workspaces) == *old(workspaces),
        r matches Some(res) ==> performed_stages(
            old(workspaces)@,
            final(workspaces)@,
            userinput_plan(old(workspaces)@, command, arg_view(argument_parameter)),
            result_texts(res),
        ) && reached(*old(workspaces), *final(workspaces)),
{
    if can_execute_userinput(workspaces, &command, &argument_parameter) {
        Some(execute_userinput(workspaces, command, argument_parameter))
    } else {
        None
    }
}

/// Whether `swap` is free of overflow on `a` and `b`.
fn swap_is_defined(a: &Workspace, b: &Workspace) -> (r: bool)
    ensures
        r == swap_defined(a@, b@),
{
    equal_text(a.basename().as_str(), b.basename().as_str()) || a.get_number() != b.get_number()
        || a.get_number() < usize::MAX
}

/// Whether `execute_userinput` can carry out `command` with its argument on
/// `workspaces` (see `userinput_defined`).
pub fn can_execute_userinput<C>(
    workspaces: &Workspaces<C>,
    command: &Command,
    argument_parameter: &Option<String>,
) -> (r: bool)
    requires
        workspaces.wf(),
    ensures
        r == userinput_defined(workspaces@, *command, arg_view(*argument_parameter)),
{
    let same = workspaces.on_same_screen();
    let n = same.len();
    let fi = workspaces.focused_index();
    match command {
        Command::Next | Command::Prev => n > 0 || (argument_parameter.is_some()
            && workspaces.on_other_screen().len() > 0),
        Command::SwapWithPrev => {
            if n == 0 {
                false
            } else {
                let current = same.get(fi).unwrap();
                let prev = match same.prev_of(fi) {
                    Some(workspace) => workspace,
                    None => same.last().unwrap(),
                };
                swap_is_defined(prev, current)
            }
        },
        Command::SwapWithNext => {
            if n == 0 {
                false
            } else {
                let current = same.get(fi).unwrap();
                let next = match same.next_of(fi) {
                    Some(workspace) => workspace,
                    None => same.first().unwrap(),
                };
                swap_is_defined(current, next)
            }
        },
        Command::Increase => n > 0 && workspaces.get_focused().get_number() < usize::MAX,
        Command::Decrease => n > 0 && match same.prev_of(fi) {
            Some(prev) => prev.get_number() < usize::MAX,
            None => true,
        },
        Command::RenameTo | Command::PrintFocusedName | Command::PrintFocusedNumber => n > 0,
        Command::Number | Command::MoveContainerToWorkspaceNumber => match argument_parameter {
            Some(a) => parse_usize(a.as_str()).is_some(),
            None => false,
        },
        Command::Select => argument_parameter.is_some(),
        Command::RofiMoveWindow => match argument_parameter {
            Some(x) => if extract_starting_number(x.as_str()).is_none() {
                has_free_adjecent_workspace_num(same)
            } else {
                true
            },
            None => true,
        },
        Command::RofiSelectWorkspace | Command::Usage => true,
    }
}

/// The lines `command` prints (see `printout`).
pub fn lines_to_print<C>(
    workspaces: &Workspaces<C>,
    command: &Command,
    argument_parameter: &Option<String>,
) -> (r: Vec<String>)
    requires
        workspaces.wf(),
        (*command is PrintFocusedName || *command is PrintFocusedNumber) ==> workspaces@.same.len()
            > 0,
    ensures
        r@.map_values(|s: String| s@) == printout(workspaces@, *command, arg_view(*argument_parameter)),
{
    match command {
        Command::PrintFocusedName => {
            let mut v: Vec<String> = Vec::new();
            v.push(workspaces.get_focused().get_name());
            assert(v@.map_values(|s: String| s@) =~= seq![focused_view(workspaces@).name]);
            v
        },
        Command::PrintFocusedNumber => {
            let mut v: Vec<String> = Vec::new();
            v.push(decimal_string(workspaces.get_focused().get_number()));
            assert(v@.map_values(|s: String| s@) =~= seq![decimal(focused_view(workspaces@).number)]);
            v
        },
        Command::RofiSelectWorkspace | Command::RofiMoveWindow => {
            let mut v: Vec<String> = Vec::new();
            if argument_parameter.is_none() {
                let all = workspaces.on_all_screens();
                let items = all.items();
                let n = items.len();
                let mut i: usize = 0;
                while i < n
                    invariant
                        n == items@.len(),
                        i <= n,
                        items@.map_values(|w: Workspace| w@) == workspaces@.same + workspaces@.other,
                        v@.map_values(|s: String| s@) == all_names(workspaces@).subrange(0, i as int),
                    decreases n - i,
                {
                    assert(all_names(workspaces@)[i as int] == items@[i as int]@.basename);
                    let b = items[i].basename().clone();
                    let ghost before = v@;
                    v.push(b);
                    assert(v@ == before.push(b));
                    assert(v@.map_values(|s: String| s@) =~= before.map_values(|s: String| s@).push(b@));
                    assert(v@.map_values(|s: String| s@) =~= all_names(workspaces@).subrange(0, i + 1));
                    i = i + 1;
                }
                assert(all_names(workspaces@).subrange(0, n as int) =~= all_names(workspaces@));
            } else {
                assert(v@.map_values(|s: String| s@) =~= Seq::<Seq<char>>::empty());
            }
            v
        },
        _ => {
            let v: Vec<String> = Vec::new();
            assert(v@.map_values(|s: String| s@) =~= Seq::<Seq<char>>::empty());
            v
        },
    }
}

} // verus!
