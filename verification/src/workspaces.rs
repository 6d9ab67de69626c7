//! The workspaces of the compositor and the operations on them.
use vstd::prelude::*;
use crate::fragments::{is_number_cut, number_and_rest, split_number_fragment, starting_number};
use crate::ipcadapter::{
    same_output, same_workspace, ConnectionProxy, IPCAdapter, IpcResult, MockOutput, MockWorkspace,
    OutputProxy, WorkspaceProxy,
};
use crate::order::{
    goes_after, in_workspace_order, lemma_sorted_same, lemma_sorted_workspaces, same_workspaces,
    sort_workspaces, sorted_workspaces,
};
use crate::plan::{
    all_accepted, both_outcome, carried_out, carried_out_stages, flat, item_taints,
    lemma_batch_then, lemma_nothing, lemma_one_stage, lemma_untainted, lemma_single, payloads,
    result_texts, run, runs, Log, PlanItem, Taints,
};
use crate::text::{
    decimal, decimal_string, equal_text, has_prefix, numbered, numbered_name, parse_usize,
    parsed_as, remove_zero_width_spaces, starts_with, strip_leading_repeats, trim, trim_seq,
    trim_start_matches, without_zero_width_space, zero_width_space,
};
pub use crate::order::sort_ipcworkspace;

verus! {

////////////////////////////////////////////////////////////////////////////////
// A SINGLE WORKSPACE
////////////////////////////////////////////////////////////////////////////////

/// A workspace as the library sees it: its full name (`basename`), the number
/// and the name that the full name stands for, and whether it has the focus.
pub struct WorkspaceView {
    pub basename: Seq<char>,
    pub number: nat,
    pub name: Seq<char>,
    pub focused: bool,
}

#[derive(Debug)]
pub struct Workspace {
    number: usize,
    name: String,
    pub basename: String,
    focused: bool,
}

impl View for Workspace {
    type V = WorkspaceView;

    closed spec fn view(&self) -> WorkspaceView {
        WorkspaceView {
            basename: self.basename@,
            number: self.number as nat,
            name: self.name@,
            focused: self.focused,
        }
    }
}

impl Clone for Workspace {
    fn clone(&self) -> (r: Self)
        ensures
            r@ == self@,
    {
        Workspace {
            number: self.number,
            name: self.name.clone(),
            basename: self.basename.clone(),
            focused: self.focused,
        }
    }
}

impl Workspace {
    /// The full name.
    pub fn basename(&self) -> (r: &String)
        ensures
            r@ == self@.basename,
    {
        &self.basename
    }

    /// The name without the number.
    pub fn get_name(&self) -> (r: String)
        ensures
            r@ == self@.name,
    {
        self.name.clone()
    }

    /// The number.
    pub fn get_number(&self) -> (r: usize)
        ensures
            r == self@.number,
    {
        self.number
    }

    /// Renames this workspace to `to` through `workspaces` (see
    /// `Workspaces::rename`).
    pub fn rename<C: ConnectionProxy>(&self, workspaces: &mut Workspaces<C>, to: &str) -> (r:
        IpcResult)
        ensures
            performed(
                old(workspaces)@,
                final(workspaces)@,
                seq![rename_item(all_names(old(workspaces)@), self@.basename, to@)],
                result_texts(r),
            ),
            reached(*old(workspaces), *final(workspaces)),
    {
        workspaces.rename(self.basename.as_str(), to)
    }
}

/// The number a workspace name starts with (see `starting_number`).
///
/// The group `number` of `^(?P<number>(\d*)).*` is the longest prefix of
/// decimal digits, as is the group `number` that `split_number_fragment` cuts
/// out; it is read as a `usize`.
pub fn extract_starting_number(source: &str) -> (r: Option<usize>)
    ensures
        parsed_as(r, starting_number(source@)),
        is_number_cut(source@, number_and_rest(source@).0),
{
    let (number, _rest) = split_number_fragment(source);
    parse_usize(number.as_str())
}

////////////////////////////////////////////////////////////////////////////////
// A LIST OF WORKSPACES
////////////////////////////////////////////////////////////////////////////////

/// The index of the last workspace in `s` that has the focus.
pub open spec fn last_focused(s: Seq<WorkspaceView>) -> Option<int>
    decreases s.len(),
{
    if s.len() == 0 {
        None
    } else if s.last().focused {
        Some(s.len() - 1)
    } else {
        last_focused(s.drop_last())
    }
}

pub proof fn lemma_last_focused(s: Seq<WorkspaceView>)
    ensures
        match last_focused(s) {
            Some(i) => 0 <= i < s.len() && s[i].focused && forall|j: int|
                i < j < s.len() ==> !(#[trigger] s[j]).focused,
            None => forall|j: int| 0 <= j < s.len() ==> !(#[trigger] s[j]).focused,
        },
    decreases s.len(),
{
    if s.len() > 0 {
        lemma_last_focused(s.drop_last());
        if !s.last().focused {
            assert forall|j: int| 0 <= j < s.len() - 1 implies s.drop_last()[j] == s[j] by {}
        }
    }
}

pub proof fn lemma_push_view(s: Seq<Workspace>, w: Workspace)
    ensures
        s.push(w).map_values(|x: Workspace| x@) == s.map_values(|x: Workspace| x@).push(w@),
{
    assert(s.push(w).map_values(|x: Workspace| x@) =~= s.map_values(|x: Workspace| x@).push(w@));
}

#[derive(Debug)]
pub struct VecOfWorkspaces {
    items: Vec<Workspace>,
}

impl View for VecOfWorkspaces {
    type V = Seq<WorkspaceView>;

    closed spec fn view(&self) -> Seq<WorkspaceView> {
        self.items@.map_values(|w: Workspace| w@)
    }
}

impl VecOfWorkspaces {
    /// The workspaces, in order.
    pub fn items(&self) -> (r: &Vec<Workspace>)
        ensures
            r@.map_values(|w: Workspace| w@) == self@,
    {
        &self.items
    }

    pub fn len(&self) -> (r: usize)
        ensures
            r == self@.len(),
    {
        self.items.len()
    }

    /// The workspace at `index`, if there is one.
    pub fn get(&self, index: isize) -> (r: Option<&Workspace>)
        ensures
            match r {
                Some(w) => 0 <= index < self@.len() && w@ == self@[index as int],
                None => !(0 <= index < self@.len()),
            },
    {
        if index < 0 {
            None
        } else if index as usize >= self.items.len() {
            None
        } else {
            Some(&self.items[index as usize])
        }
    }

    /// The last workspace that has the focus, if any has it.
    pub fn focused(&self) -> (r: Option<&Workspace>)
        ensures
            match r {
                Some(w) => last_focused(self@) matches Some(i) && w@ == self@[i],
                None => last_focused(self@) is None,
            },
    {
        let n = self.items.len();
        let mut i = n;
        proof {
            assert(self@.subrange(0, n as int) =~= self@);
        }
        while i > 0 && !self.items[i - 1].focused
            invariant
                i <= n,
                n == self@.len(),
                last_focused(self@) == last_focused(self@.subrange(0, i as int)),
            decreases i,
        {
            proof {
                let t = self@.subrange(0, i as int);
                assert(t.drop_last() =~= self@.subrange(0, i - 1));
                assert(t.last() == self@[i - 1]);
            }
            i = i - 1;
        }
        proof {
            assert(self@.subrange(0, n as int) =~= self@);
        }
        if i == 0 {
            None
        } else {
            proof {
                let t = self@.subrange(0, i as int);
                assert(t.last() == self@[i - 1]);
            }
            Some(&self.items[i - 1])
        }
    }

    pub fn first(&self) -> (r: Option<&Workspace>)
        ensures
            match r {
                Some(w) => self@.len() > 0 && w@ == self@[0],
                None => self@.len() == 0,
            },
    {
        if self.items.len() == 0 {
            None
        } else {
            Some(&self.items[0])
        }
    }

    pub fn last(&self) -> (r: Option<&Workspace>)
        ensures
            match r {
                Some(w) => self@.len() > 0 && w@ == self@.last(),
                None => self@.len() == 0,
            },
    {
        let n = self.items.len();
        if n == 0 {
            None
        } else {
            Some(&self.items[n - 1])
        }
    }

    /// The workspace after the one at `index`, if there is one.
    pub fn next_of(&self, index: isize) -> (r: Option<&Workspace>)
        requires
            index < isize::MAX,
        ensures
            match r {
                Some(w) => 0 <= index + 1 < self@.len() && w@ == self@[index + 1],
                None => !(0 <= index + 1 < self@.len()),
            },
    {
        self.get(index + 1)
    }

    /// The workspace before the one at `index`, if there is one.
    pub fn prev_of(&self, index: isize) -> (r: Option<&Workspace>)
        ensures
            match r {
                Some(w) => 1 <= index <= self@.len() && w@ == self@[index - 1],
                None => !(1 <= index <= self@.len()),
            },
    {
        if index < 0 {
            None
        } else {
            self.get(index - 1)
        }
    }
}

////////////////////////////////////////////////////////////////////////////////
// THE WORKSPACES OF ALL SCREENS
////////////////////////////////////////////////////////////////////////////////

/// The workspaces on the focused screen and on the other screens, the index of
/// the focused workspace among the former, the pairs of names recorded by
/// `dedupguard`, and every command handed to the connection so far, with
/// whether it was carried out.
pub struct WorkspacesView {
    pub same: Seq<WorkspaceView>,
    pub other: Seq<WorkspaceView>,
    pub focused_index: nat,
    pub taints: Taints,
    pub log: Log,
}

pub struct Workspaces<C> {
    same_screen_focused_index: usize,
    connection: C,
    taints: Vec<(String, String)>,
    on_same_screen: VecOfWorkspaces,
    on_other_screen: VecOfWorkspaces,
    log: Ghost<Log>,
}

pub open spec fn taints_view(t: Seq<(String, String)>) -> Taints {
    t.map_values(|p: (String, String)| (p.0@, p.1@))
}

impl<C> View for Workspaces<C> {
    type V = WorkspacesView;

    closed spec fn view(&self) -> WorkspacesView {
        WorkspacesView {
            same: self.on_same_screen@,
            other: self.on_other_screen@,
            focused_index: self.same_screen_focused_index as nat,
            taints: taints_view(self.taints@),
            log: self.log@,
        }
    }
}

/// The focused index points into the workspaces of the focused screen (or is 0
/// where there are none), and the indices fit in an `isize`.
pub open spec fn wf_view(v: WorkspacesView) -> bool {
    &&& v.same.len() < isize::MAX
    &&& v.same.len() > 0 ==> v.focused_index < v.same.len()
    &&& v.same.len() == 0 ==> v.focused_index == 0
}

/// Going from `before` to `after` carried out `items` with the outcome given,
/// and left the workspaces as they were.
pub open spec fn performed(
    before: WorkspacesView,
    after: WorkspacesView,
    items: Seq<PlanItem>,
    outcome: Option<Seq<Seq<char>>>,
) -> bool {
    &&& after.same == before.same
    &&& after.other == before.other
    &&& after.focused_index == before.focused_index
    &&& carried_out(before.log, before.taints, after.log, after.taints, items, outcome)
}

/// Going from `before` to `after` carried out the `stages` one after the other
/// (see `carried_out_stages`), and left the workspaces as they were.
pub open spec fn performed_stages(
    before: WorkspacesView,
    after: WorkspacesView,
    stages: Seq<Seq<PlanItem>>,
    outcome: Option<Seq<Seq<char>>>,
) -> bool {
    &&& after.same == before.same
    &&& after.other == before.other
    &&& after.focused_index == before.focused_index
    &&& carried_out_stages(before.log, before.taints, after.log, after.taints, stages, outcome)
}

/// Carrying out one stage as a sequence of stages.
pub proof fn lemma_lift(
    before: WorkspacesView,
    after: WorkspacesView,
    items: Seq<PlanItem>,
    outcome: Option<Seq<Seq<char>>>,
)
    requires
        performed(before, after, items, outcome),
    ensures
        performed_stages(before, after, seq![items], outcome),
{
    lemma_one_stage(before.log, before.taints, after.log, after.taints, items, outcome);
}

/// Carrying out stages only adds to the log.
pub proof fn lemma_stages_log(
    before: WorkspacesView,
    after: WorkspacesView,
    stages: Seq<Seq<PlanItem>>,
    outcome: Option<Seq<Seq<char>>>,
)
    requires
        performed_stages(before, after, stages, outcome),
    ensures
        after.log == before.log + after.log.skip(before.log.len() as int),
{
    if outcome is None {
        let k = choose|k: int|
            #![trigger stages.take(k + 1)]
            0 <= k < stages.len() && carried_out(
                before.log,
                before.taints,
                after.log,
                after.taints,
                flat(stages.take(k + 1)),
                None,
            ) && all_accepted(
                after.log.skip(before.log.len() as int).take(
                    runs(flat(stages.take(k))).len() as int,
                ),
            );
    }
}

pub open spec fn basenames(s: Seq<WorkspaceView>) -> Seq<Seq<char>> {
    s.map_values(|w: WorkspaceView| w.basename)
}

/// The full names of all workspaces, those of the focused screen first.
pub open spec fn all_names(v: WorkspacesView) -> Seq<Seq<char>> {
    basenames(v.same + v.other)
}

/// The length of the longest of `names`.
pub open spec fn longest(names: Seq<Seq<char>>) -> nat
    decreases names.len(),
{
    if names.len() == 0 {
        0
    } else if names.last().len() > longest(names.drop_last()) {
        names.last().len()
    } else {
        longest(names.drop_last())
    }
}

pub proof fn lemma_longest(names: Seq<Seq<char>>, i: int)
    requires
        0 <= i < names.len(),
    ensures
        names[i].len() <= longest(names),
    decreases names.len(),
{
    if i < names.len() - 1 {
        assert(names.drop_last()[i] == names[i]);
        lemma_longest(names.drop_last(), i);
    }
}

/// The name that `dedupguard` gives for `desired` when `names` are taken, and
/// the pairs it records: while the name is taken, a zero width space is
/// appended, and the pair of the taken name and the longer one is recorded.
pub open spec fn guard(names: Seq<Seq<char>>, desired: Seq<char>) -> (Seq<char>, Taints)
    decreases longest(names) + 1 - desired.len(),
{
    if names.contains(desired) {
        proof {
            let i = choose|i: int| 0 <= i < names.len() && names[i] == desired;
            lemma_longest(names, i);
        }
        let next = desired.push(zero_width_space());
        let rest = guard(names, next);
        (rest.0, seq![(desired, next)] + rest.1)
    } else {
        (desired, seq![])
    }
}

/// `d` followed by `k` zero width spaces.
pub open spec fn with_zero_width_spaces(d: Seq<char>, k: nat) -> Seq<char> {
    d + Seq::new(k, |i: int| zero_width_space())
}

/// The name `guard` gives is taken by none of `names`; it is `desired` with
/// zero width spaces appended, and the pairs it records are, one for each
/// appended space, the name before and after that space was appended.
pub proof fn lemma_guard(names: Seq<Seq<char>>, desired: Seq<char>)
    ensures
        !names.contains(guard(names, desired).0),
        guard(names, desired).0 == with_zero_width_spaces(desired, guard(names, desired).1.len()),
        forall|i: int|
            0 <= i < guard(names, desired).1.len() ==> #[trigger] guard(names, desired).1[i] == (
                with_zero_width_spaces(desired, i as nat),
                with_zero_width_spaces(desired, (i + 1) as nat),
            ),
    decreases longest(names) + 1 - desired.len(),
{
    let g = guard(names, desired);
    if names.contains(desired) {
        let i = choose|i: int| 0 <= i < names.len() && names[i] == desired;
        lemma_longest(names, i);
        let next = desired.push(zero_width_space());
        lemma_guard(names, next);
        let r = guard(names, next);
        assert(g.1 == seq![(desired, next)] + r.1);
        assert(g.0 == r.0);
        assert(with_zero_width_spaces(next, r.1.len()) =~= with_zero_width_spaces(
            desired,
            g.1.len(),
        ));
        assert(with_zero_width_spaces(desired, 0) =~= desired);
        assert(with_zero_width_spaces(desired, 1) =~= next);
        assert forall|j: int| 0 <= j < g.1.len() implies #[trigger] g.1[j] == (
            with_zero_width_spaces(desired, j as nat),
            with_zero_width_spaces(desired, (j + 1) as nat),
        ) by {
            if j > 0 {
                assert(g.1[j] == r.1[j - 1]);
                assert(with_zero_width_spaces(next, (j - 1) as nat) =~= with_zero_width_spaces(
                    desired,
                    j as nat,
                ));
                assert(with_zero_width_spaces(next, j as nat) =~= with_zero_width_spaces(
                    desired,
                    (j + 1) as nat,
                ));
            }
        }
    } else {
        assert(with_zero_width_spaces(desired, 0) =~= desired);
    }
}

pub open spec fn select_cmd(name: Seq<char>) -> Seq<char> {
    "workspace '"@ + name + "'; focus child"@
}

pub open spec fn plain_select_cmd(name: Seq<char>) -> Seq<char> {
    "workspace '"@ + name + "'"@
}

pub open spec fn move_cmd(name: Seq<char>) -> Seq<char> {
    "move window to workspace '"@ + name + "'"@
}

pub open spec fn rename_cmd(from: Seq<char>, to: Seq<char>) -> Seq<char> {
    "rename workspace '"@ + from + "' to '"@ + to + "'"@
}

/// Renaming `from` to `to` (without zero width spaces, kept apart from the
/// taken `names`).
pub open spec fn rename_item(names: Seq<Seq<char>>, from: Seq<char>, to: Seq<char>) -> PlanItem {
    let g = guard(names, without_zero_width_space(to));
    PlanItem::Run { payload: rename_cmd(from, g.0), taints: g.1 }
}

/// Selecting a new workspace named `basename`, kept apart from `names`.
pub open spec fn select_new_item(names: Seq<Seq<char>>, basename: Seq<char>) -> PlanItem {
    let g = guard(names, basename);
    PlanItem::Run { payload: plain_select_cmd(g.0), taints: g.1 }
}

/// Moving the focused container to a new workspace named `basename`, kept
/// apart from `names`.
pub open spec fn move_to_new_item(names: Seq<Seq<char>>, basename: Seq<char>) -> PlanItem {
    let g = guard(names, basename);
    PlanItem::Run { payload: move_cmd(g.0), taints: g.1 }
}

/// Giving `w` the next higher number.
pub open spec fn increase_plan(names: Seq<Seq<char>>, w: WorkspaceView) -> Seq<PlanItem> {
    seq![rename_item(names, w.basename, numbered(w.number + 1, w.name))]
}

/// Giving `w` the next lower number, where that is still positive.
pub open spec fn decrease_plan(names: Seq<Seq<char>>, w: WorkspaceView) -> Seq<PlanItem> {
    if w.number > 1 {
        seq![rename_item(names, w.basename, numbered((w.number - 1) as nat, w.name))]
    } else {
        seq![]
    }
}

/// Exchanging the numbers of `a` and `b`; where they are equal, `a` gets the
/// next higher one.
pub open spec fn swap_plan(names: Seq<Seq<char>>, a: WorkspaceView, b: WorkspaceView) -> Seq<
    PlanItem,
> {
    if a.basename == b.basename {
        seq![]
    } else if a.number == b.number {
        increase_plan(names, a)
    } else {
        seq![
            rename_item(names, a.basename, numbered(b.number, a.name)),
            rename_item(names, b.basename, numbered(a.number, b.name)),
        ]
    }
}

/// `swap` does not overflow on `a` and `b`.
pub open spec fn swap_defined(a: WorkspaceView, b: WorkspaceView) -> bool {
    a.basename == b.basename || a.number != b.number || a.number < usize::MAX
}

/// Renaming every recorded name back to the one that was wanted.
pub open spec fn cleanup_plan(taints: Taints) -> Seq<PlanItem> {
    taints.map_values(|t: (Seq<char>, Seq<char>)| run(rename_cmd(t.1, t.0)))
}

/// The index of the last workspace in `s` whose full name starts with the
/// number `n`.
pub open spec fn last_numbered(s: Seq<WorkspaceView>, n: nat) -> Option<int>
    decreases s.len(),
{
    if s.len() == 0 {
        None
    } else if starting_number(s.last().basename) == Some(n) {
        Some(s.len() - 1)
    } else {
        last_numbered(s.drop_last(), n)
    }
}

/// Whether the full name of `w` starts with the number `number`.
fn carries_number(w: &Workspace, number: usize) -> (r: bool)
    ensures
        r == (starting_number(w@.basename) == Some(number as nat)),
{
    match extract_starting_number(w.basename.as_str()) {
        Some(k) => k == number,
        None => false,
    }
}

/// Selecting the last workspace of the focused screen whose name starts with
/// the number `n`, or else a new workspace named `n`.
pub open spec fn number_select_plan(v: WorkspacesView, n: nat) -> Seq<PlanItem> {
    match last_numbered(v.same, n) {
        Some(i) => seq![run(select_cmd(v.same[i].basename))],
        None => seq![select_new_item(all_names(v), decimal(n))],
    }
}

/// Moving the focused container to the last workspace of the focused screen
/// whose name starts with the number `n`, or else to a new workspace named `n`.
pub open spec fn number_move_plan(v: WorkspacesView, n: nat) -> Seq<PlanItem> {
    match last_numbered(v.same, n) {
        Some(i) => seq![run(move_cmd(v.same[i].basename))],
        None => seq![move_to_new_item(all_names(v), decimal(n))],
    }
}

proof fn lemma_record_then_run(
    before: WorkspacesView,
    mid: WorkspacesView,
    after: WorkspacesView,
    payload: Seq<char>,
    t: Taints,
    outcome: Option<Seq<Seq<char>>>,
)
    requires
        mid.same == before.same,
        mid.other == before.other,
        mid.focused_index == before.focused_index,
        mid.log == before.log,
        mid.taints == before.taints + t,
        performed(mid, after, seq![run(payload)], outcome),
    ensures
        performed(before, after, seq![PlanItem::Run { payload, taints: t }], outcome),
{
    let item = PlanItem::Run { payload, taints: t };
    lemma_single(run(payload));
    lemma_single(item);
    assert(mid.taints + seq![] =~= mid.taints);
}

/// The replies `first` of a success followed by the result `second`.
pub(crate) fn join(first: Vec<String>, second: IpcResult) -> (r: IpcResult)
    ensures
        result_texts(r) == crate::plan::then_outcome(first@.map_values(|s: String| s@), result_texts(second)),
{
    match second {
        Ok(v) => {
            let mut f = first;
            let mut v = v;
            let ghost fv = f@;
            let ghost vv = v@;
            f.append(&mut v);
            assert(f@.map_values(|s: String| s@) =~= fv.map_values(|s: String| s@)
                + vv.map_values(|s: String| s@));
            Ok(f)
        },
        Err(e) => Err(e),
    }
}

/// Both results together: the replies of both where both succeeded, else
/// the first error.
fn join_both(first: IpcResult, second: IpcResult) -> (r: IpcResult)
    ensures
        result_texts(r) == both_outcome(result_texts(first), result_texts(second)),
{
    match first {
        Ok(v) => join(v, second),
        Err(e) => Err(e),
    }
}

/// A success with no replies.
fn nothing() -> (r: IpcResult)
    ensures
        result_texts(r) == Some(Seq::<Seq<char>>::empty()),
{
    let v: Vec<String> = Vec::new();
    assert(v@.map_values(|s: String| s@) =~= Seq::<Seq<char>>::empty());
    Ok(v)
}

fn select_command(name: &str) -> (r: String)
    ensures
        r@ == select_cmd(name@),
{
    let mut s = String::from_str("workspace '");
    s.append(name);
    s.append("'; focus child");
    s
}

fn plain_select_command(name: &str) -> (r: String)
    ensures
        r@ == plain_select_cmd(name@),
{
    let mut s = String::from_str("workspace '");
    s.append(name);
    s.append("'");
    s
}

fn move_command(name: &str) -> (r: String)
    ensures
        r@ == move_cmd(name@),
{
    let mut s = String::from_str("move window to workspace '");
    s.append(name);
    s.append("'");
    s
}

fn rename_command(from: &str, to: &str) -> (r: String)
    ensures
        r@ == rename_cmd(from@, to@),
{
    let mut s = String::from_str("rename workspace '");
    s.append(from);
    s.append("' to '");
    s.append(to);
    s.append("'");
    s
}

impl<C> Workspaces<C> {
    pub open spec fn wf(&self) -> bool {
        wf_view(self@)
    }

    /// The connection the commands are handed to.
    pub fn connection(&self) -> (r: &C)
        ensures
            *r == self.held_connection(),
    {
        &self.connection
    }

    /// The focused workspace.
    pub fn get_focused(&self) -> (r: &Workspace)
        requires
            self.wf(),
            self@.same.len() > 0,
        ensures
            r@ == self@.same[self@.focused_index as int],
    {
        &self.on_same_screen.items[self.same_screen_focused_index]
    }

    /// The index of the focused workspace among those of the focused screen.
    pub fn focused_index(&self) -> (r: isize)
        requires
            self.wf(),
        ensures
            r == self@.focused_index,
    {
        self.same_screen_focused_index as isize
    }

    /// The workspaces of the focused screen.
    pub fn on_same_screen(&self) -> (r: &VecOfWorkspaces)
        ensures
            r@ == self@.same,
    {
        &self.on_same_screen
    }

    /// The workspaces of the other screens.
    pub fn on_other_screen(&self) -> (r: &VecOfWorkspaces)
        ensures
            r@ == self@.other,
    {
        &self.on_other_screen
    }

    /// The workspaces of all screens, those of the focused screen first.
    pub fn on_all_screens(&self) -> (r: VecOfWorkspaces)
        ensures
            r@ == self@.same + self@.other,
    {
        let mut items: Vec<Workspace> = Vec::new();
        let n = self.on_same_screen.items.len();
        let m = self.on_other_screen.items.len();
        let mut i: usize = 0;
        while i < n
            invariant
                n == self@.same.len(),
                i <= n,
                items@.map_values(|w: Workspace| w@) == self@.same.subrange(0, i as int),
            decreases n - i,
        {
            let w = self.on_same_screen.items[i].clone();
            assert(self@.same[i as int] == self.on_same_screen.items@[i as int]@);
            proof {
                lemma_push_view(items@, w);
            }
            items.push(w);
            assert(items@.map_values(|w: Workspace| w@) =~= self@.same.subrange(0, i + 1));
            i = i + 1;
        }
        let mut j: usize = 0;
        while j < m
            invariant
                n == self@.same.len(),
                m == self@.other.len(),
                j <= m,
                items@.map_values(|w: Workspace| w@) == self@.same + self@.other.subrange(
                    0,
                    j as int,
                ),
            decreases m - j,
        {
            let w = self.on_other_screen.items[j].clone();
            assert(self@.other[j as int] == self.on_other_screen.items@[j as int]@);
            proof {
                lemma_push_view(items@, w);
            }
            items.push(w);
            assert(items@.map_values(|w: Workspace| w@) =~= self@.same + self@.other.subrange(
                0,
                j + 1,
            ));
            j = j + 1;
        }
        assert(self@.same.subrange(0, n as int) =~= self@.same);
        assert(self@.other.subrange(0, m as int) =~= self@.other);
        VecOfWorkspaces { items }
    }

    /// The index of the last workspace of the focused screen whose full name
    /// starts with the number `number`.
    fn find_last_numbered(&self, number: usize) -> (r: Option<usize>)
        ensures
            match r {
                Some(i) => i < self@.same.len() && last_numbered(self@.same, number as nat) == Some(
                    i as int,
                ),
                None => last_numbered(self@.same, number as nat) is None,
            },
    {
        let n = self.on_same_screen.items.len();
        let mut i = n;
        proof {
            assert(self@.same.subrange(0, n as int) =~= self@.same);
        }
        while i > 0 && !carries_number(&self.on_same_screen.items[i - 1], number)
            invariant
                i <= n,
                n == self@.same.len(),
                self@.same == self.on_same_screen.items@.map_values(|w: Workspace| w@),
                last_numbered(self@.same, number as nat) == last_numbered(
                    self@.same.subrange(0, i as int),
                    number as nat,
                ),
            decreases i,
        {
            proof {
                let t = self@.same.subrange(0, i as int);
                assert(t.drop_last() =~= self@.same.subrange(0, i - 1));
                assert(t.last() == self@.same[i - 1]);
            }
            i = i - 1;
        }
        if i == 0 {
            None
        } else {
            proof {
                let t = self@.same.subrange(0, i as int);
                assert(t.last() == self@.same[i - 1]);
            }
            Some(i - 1)
        }
    }

    /// Whether a workspace of any screen has the full name `name`.
    fn is_taken(&self, name: &str) -> (r: bool)
        ensures
            r == all_names(self@).contains(name@),
    {
        let ghost names = all_names(self@);
        let n = self.on_same_screen.items.len();
        let m = self.on_other_screen.items.len();
        assert(names.len() == n + m);
        let mut i: usize = 0;
        while i < n
            invariant
                names == all_names(self@),
                n == self@.same.len(),
                m == self@.other.len(),
                names.len() == n + m,
                i <= n,
                forall|k: int| 0 <= k < i ==> names[k] != name@,
            decreases n - i,
        {
            assert(names[i as int] == self@.same[i as int].basename);
            if equal_text(self.on_same_screen.items[i].basename.as_str(), name) {
                return true;
            }
            i = i + 1;
        }
        let mut j: usize = 0;
        while j < m
            invariant
                names == all_names(self@),
                n == self@.same.len(),
                m == self@.other.len(),
                names.len() == n + m,
                j <= m,
                forall|k: int| 0 <= k < n + j ==> names[k] != name@,
            decreases m - j,
        {
            assert(names[n + j] == self@.other[j as int].basename);
            if equal_text(self.on_other_screen.items[j].basename.as_str(), name) {
                return true;
            }
            j = j + 1;
        }
        false
    }
}

/// Where the connection keeps a record of the commands it is handed, that
/// record grew from `before` to `after` by exactly the commands logged in
/// between, each with its reply.
pub open spec fn reached<C: ConnectionProxy>(before: Workspaces<C>, after: Workspaces<C>) -> bool {
    before.held_connection().keeps_history() ==> {
        &&& after.held_connection().keeps_history()
        &&& after.held_connection().history() == before.held_connection().history()
            + after@.log.skip(before@.log.len() as int)
    }
}

/// Leaving the connection and the log as they were keeps the record as it was.
pub proof fn lemma_reached_same<C: ConnectionProxy>(a: Workspaces<C>, b: Workspaces<C>)
    requires
        a.held_connection() == b.held_connection(),
        a@.log == b@.log,
    ensures
        reached(a, b),
        b@.log == a@.log + b@.log.skip(a@.log.len() as int),
{
    assert(b@.log.skip(a@.log.len() as int) =~= Seq::<(Seq<char>, bool)>::empty());
    assert(a.held_connection().history() + b@.log.skip(a@.log.len() as int)
        =~= a.held_connection().history());
    assert(a@.log + b@.log.skip(a@.log.len() as int) =~= b@.log);
}

/// What reached the connection from `a` to `b` and from `b` to `c` reached it
/// from `a` to `c`.
pub proof fn lemma_reached_trans<C: ConnectionProxy>(
    a: Workspaces<C>,
    b: Workspaces<C>,
    c: Workspaces<C>,
)
    requires
        reached(a, b),
        reached(b, c),
        b@.log == a@.log + b@.log.skip(a@.log.len() as int),
        c@.log == b@.log + c@.log.skip(b@.log.len() as int),
    ensures
        reached(a, c),
        c@.log == a@.log + c@.log.skip(a@.log.len() as int),
{
    let nb = b@.log.skip(a@.log.len() as int);
    let nc = c@.log.skip(b@.log.len() as int);
    assert(c@.log =~= a@.log + (nb + nc));
    assert(c@.log.skip(a@.log.len() as int) =~= nb + nc);
    if a.held_connection().keeps_history() {
        assert(c.held_connection().history() =~= a.held_connection().history() + (nb + nc));
    }
}

impl<C: ConnectionProxy> Workspaces<C> {
    /// Hands `payload` to the connection and logs it with the reply.
    fn send(&mut self, payload: String) -> (r: IpcResult)
        ensures
            performed(old(self)@, final(self)@, seq![run(payload@)], result_texts(r)),
            final(self)@.log == old(self)@.log.push((payload@, r is Ok)),
            reached(*old(self), *final(self)),
    {
        let ghost p = payload@;
        let r = self.connection.run_command(payload);
        let ghost entry = (p, r is Ok);
        self.log = Ghost(self.log@.push(entry));
        proof {
            let items = seq![run(p)];
            lemma_single(run(p));
            assert(old(self)@.taints + seq![] =~= old(self)@.taints);
            let new = self@.log.skip(old(self)@.log.len() as int);
            assert(new =~= seq![entry]);
            assert(self@.log =~= old(self)@.log + new);
            assert(payloads(new) =~= seq![p]);
            if old(self).held_connection().keeps_history() {
                assert(self.held_connection().history() =~= old(self).held_connection().history()
                    + new);
            }
            match &r {
                Ok(v) => {
                    assert(v@.map_values(|s: String| s@) =~= seq![p]);
                    assert(new[0].1);
                    assert(all_accepted(new));
                },
                Err(_) => {
                    assert(!new[0].1);
                },
            }
        }
        assert(self@.same == old(self)@.same);
        assert(self@.taints == old(self)@.taints);
        assert(self@.focused_index == old(self)@.focused_index);
        r
    }

    /// The name to use in place of `desired` so that it differs from the full
    /// name of every workspace: `desired` with as many zero width spaces
    /// appended as it takes. Each time one is appended, the taken name and the
    /// longer one are recorded, so that `cleanup` can rename back.
    pub fn dedupguard(&mut self, desired: String) -> (r: String)
        ensures
            r@ == guard(all_names(old(self)@), desired@).0,
            !all_names(old(self)@).contains(r@),
            final(self)@.same == old(self)@.same,
            final(self)@.other == old(self)@.other,
            final(self)@.focused_index == old(self)@.focused_index,
            final(self)@.log == old(self)@.log,
            final(self)@.taints == old(self)@.taints + guard(all_names(old(self)@), desired@).1,
            final(self).held_connection() == old(self).held_connection(),
    {
        let ghost names = all_names(self@);
        let ghost t0 = self@.taints;
        let ghost mut acc: Taints = seq![];
        let mut current = desired;
        proof {
            reveal_strlit("\u{200B}");
            assert(t0 + acc =~= t0);
            assert(acc + guard(names, current@).1 =~= guard(names, current@).1);
        }
        while self.is_taken(current.as_str())
            invariant
                names == all_names(self@),
                self@.same == old(self)@.same,
                self@.other == old(self)@.other,
                self@.focused_index == old(self)@.focused_index,
                self@.log == old(self)@.log,
                self.held_connection() == old(self).held_connection(),
                self@.taints == t0 + acc,
                guard(names, desired@).0 == guard(names, current@).0,
                guard(names, desired@).1 == acc + guard(names, current@).1,
                "\u{200B}"@ == seq![zero_width_space()],
            decreases longest(names) + 1 - current@.len(),
        {
            proof {
                let i = choose|i: int| 0 <= i < names.len() && names[i] == current@;
                lemma_longest(names, i);
            }
            let mut next = current.clone();
            next.append("\u{200B}");
            let ghost pair = (current@, next@);
            proof {
                assert(next@ == current@.push(zero_width_space()));
                assert(guard(names, current@).1 == seq![pair] + guard(names, next@).1);
                assert(acc + guard(names, current@).1 =~= (acc + seq![pair]) + guard(
                    names,
                    next@,
                ).1);
            }
            self.taints.push((current, next.clone()));
            proof {
                assert(taints_view(self.taints@) =~= t0 + acc + seq![pair]);
                acc = acc + seq![pair];
            }
            current = next;
        }
        proof {
            lemma_guard(names, desired@);
        }
        current
    }

    /// Renames the workspace `from` to `to`, without zero width spaces and kept
    /// apart from the names of all workspaces (see `dedupguard`).
    pub fn rename(&mut self, from: &str, to: &str) -> (r: IpcResult)
        ensures
            reached(*old(self), *final(self)),
            performed(
                old(self)@,
                final(self)@,
                seq![rename_item(all_names(old(self)@), from@, to@)],
                result_texts(r),
            ),
    {
        let ghost before = self@;
        let ghost w0 = *self;
        let guarded = self.dedupguard(remove_zero_width_spaces(to));
        let ghost mid = self@;
        let ghost w1 = *self;
        let payload = rename_command(from, guarded.as_str());
        let r = self.send(payload);
        proof {
            lemma_reached_same(w0, w1);
            lemma_reached_trans(w0, w1, *self);
            let g = guard(all_names(before), without_zero_width_space(to@));
            lemma_record_then_run(before, mid, self@, rename_cmd(from@, g.0), g.1, result_texts(r));
        }
        r
    }

    /// Moves the focused container to the workspace `to`.
    pub fn move_container_to(&mut self, to: &String) -> (r: IpcResult)
        ensures
            reached(*old(self), *final(self)),
            performed(old(self)@, final(self)@, seq![run(move_cmd(to@))], result_texts(r)),
    {
        self.send(move_command(to.as_str()))
    }

    /// Selects the workspace `name` and focuses its child.
    pub fn select(&mut self, name: &String) -> (r: IpcResult)
        ensures
            reached(*old(self), *final(self)),
            performed(old(self)@, final(self)@, seq![run(select_cmd(name@))], result_texts(r)),
    {
        self.send(select_command(name.as_str()))
    }

    /// Selects a new workspace named `basename`, kept apart from the names of
    /// all workspaces.
    pub fn select_new(&mut self, basename: String) -> (r: IpcResult)
        ensures
            reached(*old(self), *final(self)),
            performed(
                old(self)@,
                final(self)@,
                seq![select_new_item(all_names(old(self)@), basename@)],
                result_texts(r),
            ),
    {
        let ghost before = self@;
        let ghost w0 = *self;
        let guarded = self.dedupguard(basename);
        let ghost mid = self@;
        let ghost w1 = *self;
        let r = self.send(plain_select_command(guarded.as_str()));
        proof {
            lemma_reached_same(w0, w1);
            lemma_reached_trans(w0, w1, *self);
            let g = guard(all_names(before), basename@);
            lemma_record_then_run(before, mid, self@, plain_select_cmd(g.0), g.1, result_texts(r));
        }
        r
    }

    /// Moves the focused container to a new workspace named `basename`, kept
    /// apart from the names of all workspaces.
    pub fn move_to_new(&mut self, basename: String) -> (r: IpcResult)
        ensures
            reached(*old(self), *final(self)),
            performed(
                old(self)@,
                final(self)@,
                seq![move_to_new_item(all_names(old(self)@), basename@)],
                result_texts(r),
            ),
    {
        let ghost before = self@;
        let ghost w0 = *self;
        let guarded = self.dedupguard(basename);
        let ghost mid = self@;
        let ghost w1 = *self;
        let r = self.send(move_command(guarded.as_str()));
        proof {
            lemma_reached_same(w0, w1);
            lemma_reached_trans(w0, w1, *self);
            let g = guard(all_names(before), basename@);
            lemma_record_then_run(before, mid, self@, move_cmd(g.0), g.1, result_texts(r));
        }
        r
    }

    /// Gives `ws` the next higher number.
    pub fn increase_number(&mut self, ws: &Workspace) -> (r: IpcResult)
        requires
            ws@.number < usize::MAX,
        ensures
            reached(*old(self), *final(self)),
            performed(
                old(self)@,
                final(self)@,
                increase_plan(all_names(old(self)@), ws@),
                result_texts(r),
            ),
    {
        let to = numbered_name(ws.number + 1, ws.name.as_str());
        self.rename(ws.basename.as_str(), to.as_str())
    }

    /// Gives `ws` the next lower number, where that is still positive.
    pub fn decrease_number(&mut self, ws: &Workspace) -> (r: IpcResult)
        ensures
            reached(*old(self), *final(self)),
            performed(
                old(self)@,
                final(self)@,
                decrease_plan(all_names(old(self)@), ws@),
                result_texts(r),
            ),
    {
        if ws.number > 1 {
            let to = numbered_name(ws.number - 1, ws.name.as_str());
            self.rename(ws.basename.as_str(), to.as_str())
        } else {
            proof {
                lemma_nothing(self@.log, self@.taints);
                lemma_reached_same(*self, *self);
            }
            nothing()
        }
    }

    /// Exchanges the numbers of `ws1` and `ws2`; where they are equal, `ws1`
    /// gets the next higher one. Both renames are handed over whatever the
    /// reply to the first; the result is the first error, if any.
    pub fn swap(&mut self, ws1: &Workspace, ws2: &Workspace) -> (r: IpcResult)
        requires
            swap_defined(ws1@, ws2@),
        ensures
            reached(*old(self), *final(self)),
            performed(
                old(self)@,
                final(self)@,
                swap_plan(all_names(old(self)@), ws1@, ws2@),
                result_texts(r),
            ),
    {
        if equal_text(ws1.basename.as_str(), ws2.basename.as_str()) {
            proof {
                lemma_nothing(self@.log, self@.taints);
                lemma_reached_same(*self, *self);
            }
            return nothing();
        }
        if ws1.number == ws2.number {
            return self.increase_number(ws1);
        }
        let ghost s0 = self@;
        let ghost w0 = *self;
        let ghost names = all_names(s0);
        let to1 = numbered_name(ws2.number, ws1.name.as_str());
        let r1 = self.rename(ws1.basename.as_str(), to1.as_str());
        let ghost s1 = self@;
        let ghost w1 = *self;
        let to2 = numbered_name(ws1.number, ws2.name.as_str());
        let r2 = self.rename(ws2.basename.as_str(), to2.as_str());
        proof {
            let a = seq![rename_item(names, ws1@.basename, numbered(ws2@.number, ws1@.name))];
            let b = seq![rename_item(names, ws2@.basename, numbered(ws1@.number, ws2@.name))];
            assert(a + b =~= swap_plan(names, ws1@, ws2@));
            lemma_batch_then(
                s0.log,
                s0.taints,
                s1.log,
                s1.taints,
                self@.log,
                self@.taints,
                a,
                b,
                result_texts(r1),
                result_texts(r2),
            );
            lemma_reached_trans(w0, w1, *self);
        }
        join_both(r1, r2)
    }

    /// Selects the last workspace of the focused screen whose name starts with
    /// `number`, or else a new workspace named `number`.
    pub fn select_or_create_number(&mut self, number: usize) -> (r: IpcResult)
        ensures
            reached(*old(self), *final(self)),
            performed(
                old(self)@,
                final(self)@,
                number_select_plan(old(self)@, number as nat),
                result_texts(r),
            ),
    {
        match self.find_last_numbered(number) {
            Some(i) => {
                let name = self.on_same_screen.items[i].basename.clone();
                self.select(&name)
            },
            None => self.select_new(decimal_string(number)),
        }
    }

    /// Moves the focused container to the last workspace of the focused screen
    /// whose name starts with `number`, or else to a new workspace named
    /// `number`.
    pub fn move_container_to_number(&mut self, number: usize) -> (r: IpcResult)
        ensures
            reached(*old(self), *final(self)),
            performed(
                old(self)@,
                final(self)@,
                number_move_plan(old(self)@, number as nat),
                result_texts(r),
            ),
    {
        match self.find_last_numbered(number) {
            Some(i) => {
                let name = self.on_same_screen.items[i].basename.clone();
                self.move_container_to(&name)
            },
            None => self.move_to_new(decimal_string(number)),
        }
    }

    /// Renames every recorded name back to the one that was wanted, handing
    /// over every rename whatever the replies; the result is the first error,
    /// if any.
    pub fn cleanup(&mut self) -> (r: IpcResult)
        ensures
            reached(*old(self), *final(self)),
            performed(old(self)@, final(self)@, cleanup_plan(old(self)@.taints), result_texts(r)),
    {
        let ghost s0 = self@;
        let ghost w0 = *self;
        let ghost plan = cleanup_plan(s0.taints);
        let n = self.taints.len();
        let empty: Vec<String> = Vec::new();
        proof {
            assert(empty@.map_values(|s: String| s@) =~= Seq::<Seq<char>>::empty());
        }
        let mut out: IpcResult = Ok(empty);
        let mut i: usize = 0;
        proof {
            lemma_nothing(s0.log, s0.taints);
            lemma_reached_same(w0, w0);
            assert(plan.take(0) =~= seq![]);
        }
        while i < n
            invariant
                n == self.taints@.len(),
                n == s0.taints.len(),
                plan == cleanup_plan(s0.taints),
                s0 == old(self)@,
                w0 == *old(self),
                i <= n,
                self@.taints == s0.taints,
                performed(s0, self@, plan.take(i as int), result_texts(out)),
                reached(w0, *self),
            decreases n - i,
        {
            let ghost s1 = self@;
            let ghost w1 = *self;
            let payload = rename_command(self.taints[i].1.as_str(), self.taints[i].0.as_str());
            let ghost pv = payload@;
            let r = self.send(payload);
            let ghost a = plan.take(i as int);
            let ghost b = seq![plan[i as int]];
            proof {
                assert(self@.taints == taints_view(self.taints@));
                assert(taints_view(self.taints@)[i as int] == (self.taints@[i as int].0@, self.taints@[i as int].1@));
                assert(s0.taints[i as int] == (self.taints@[i as int].0@, self.taints@[i as int].1@));
                assert(plan[i as int] == run(rename_cmd(s0.taints[i as int].1, s0.taints[i as int].0)));
                assert(a + b =~= plan.take(i + 1));
                assert(b =~= seq![run(pv)]);
                lemma_batch_then(
                    s0.log,
                    s0.taints,
                    s1.log,
                    s1.taints,
                    self@.log,
                    self@.taints,
                    a,
                    b,
                    result_texts(out),
                    result_texts(r),
                );
                lemma_reached_trans(w0, w1, *self);
                let t = plan.take(i + 1);
                assert forall|k: int| 0 <= k < t.len() implies item_taints(#[trigger] t[k])
                    == Seq::<(Seq<char>, Seq<char>)>::empty() by {
                    assert(t[k] == plan[k]);
                }
                lemma_untainted(t);
                assert(self@.taints =~= s0.taints);
            }
            out = join_both(out, r);
            i = i + 1;
        }
        assert(plan.take(n as int) =~= plan);
        out
    }
}


////////////////////////////////////////////////////////////////////////////////
// BUILDING THE WORKSPACES FROM WHAT THE COMPOSITOR REPORTS
////////////////////////////////////////////////////////////////////////////////

/// The name of the last output that has the focus.
pub open spec fn focused_output(outputs: Seq<MockOutput>) -> Option<Seq<char>>
    decreases outputs.len(),
{
    if outputs.len() == 0 {
        None
    } else if outputs.last().focused {
        Some(outputs.last().name@)
    } else {
        focused_output(outputs.drop_last())
    }
}

/// The workspaces of `s` on the output `out`, in order.
pub open spec fn on_output(s: Seq<MockWorkspace>, out: Seq<char>) -> Seq<MockWorkspace>
    decreases s.len(),
{
    if s.len() == 0 {
        s
    } else if s.last().output@ == out {
        on_output(s.drop_last(), out).push(s.last())
    } else {
        on_output(s.drop_last(), out)
    }
}

/// The workspaces of `s` on other outputs than `out`, in order.
pub open spec fn off_output(s: Seq<MockWorkspace>, out: Seq<char>) -> Seq<MockWorkspace>
    decreases s.len(),
{
    if s.len() == 0 {
        s
    } else if s.last().output@ != out {
        off_output(s.drop_last(), out).push(s.last())
    } else {
        off_output(s.drop_last(), out)
    }
}

/// The number that the name of the last workspace of `s` having one starts
/// with.
pub open spec fn last_starting_number(s: Seq<MockWorkspace>) -> Option<nat>
    decreases s.len(),
{
    if s.len() == 0 {
        None
    } else if starting_number(s.last().name@) is Some {
        starting_number(s.last().name@)
    } else {
        last_starting_number(s.drop_last())
    }
}

/// The number for a workspace whose name gives none: one above the number of
/// the last numbered workspace of the focused screen `same`, or 1.
pub open spec fn free_number(same: Seq<MockWorkspace>) -> nat {
    match last_starting_number(same) {
        Some(n) => n + 1,
        None => 1,
    }
}

/// The workspace `w` has neither a number nor a name that starts with one.
pub open spec fn needs_free_number(w: MockWorkspace) -> bool {
    w.num is None && starting_number(w.name@) is None
}

/// The view of the reported workspace `w`, with `free` as the number where it
/// has none: a reported number is taken, and its leading repetitions are cut
/// from the name; otherwise the name is cut into its leading number and the
/// rest.
pub open spec fn workspace_view_of(w: MockWorkspace, free: nat) -> WorkspaceView {
    match w.num {
        Some(n) => WorkspaceView {
            basename: w.name@,
            number: n as nat,
            name: trim_seq(strip_leading_repeats(w.name@, decimal(n as nat))),
            focused: w.focused,
        },
        None => WorkspaceView {
            basename: w.name@,
            number: match starting_number(w.name@) {
                Some(k) => k,
                None => free,
            },
            name: trim_seq(number_and_rest(w.name@).1),
            focused: w.focused,
        },
    }
}

pub open spec fn views_of(s: Seq<MockWorkspace>, free: nat) -> Seq<WorkspaceView> {
    s.map_values(|w: MockWorkspace| workspace_view_of(w, free))
}

/// The workspaces built from the workspaces `sorted` (already in workspace
/// order) and the `outputs`: those on the focused output and the others, in
/// order, with the last focused one of the former as the focused workspace.
pub open spec fn assembled(sorted: Seq<MockWorkspace>, outputs: Seq<MockOutput>) -> WorkspacesView {
    let out = focused_output(outputs).unwrap();
    let same = on_output(sorted, out);
    let free = free_number(same);
    let same_views = views_of(same, free);
    WorkspacesView {
        same: same_views,
        other: views_of(off_output(sorted, out), free),
        focused_index: match last_focused(same_views) {
            Some(i) => i as nat,
            None => 0,
        },
        taints: seq![],
        log: seq![],
    }
}

/// Building from `sorted` and `outputs` panics nowhere: an output has the
/// focus, and the number for a workspace that has none fits.
pub open spec fn assemble_defined(sorted: Seq<MockWorkspace>, outputs: Seq<MockOutput>) -> bool {
    &&& sorted.len() < isize::MAX
    &&& focused_output(outputs) is Some
    &&& last_starting_number(on_output(sorted, focused_output(outputs).unwrap())) == Some(
        usize::MAX as nat,
    ) ==> forall|i: int| 0 <= i < sorted.len() ==> !needs_free_number(#[trigger] sorted[i])
}

/// The workspaces built from the reported `workspaces` and `outputs`.
pub open spec fn extracted(workspaces: Seq<MockWorkspace>, outputs: Seq<MockOutput>) -> WorkspacesView {
    assembled(sorted_workspaces(workspaces), outputs)
}

/// The two lists report the same outputs, in the same order.
pub open spec fn same_outputs(s: Seq<MockOutput>, t: Seq<MockOutput>) -> bool {
    s.len() == t.len() && forall|i: int| 0 <= i < s.len() ==> same_output(#[trigger] s[i], t[i])
}

proof fn lemma_drop_last_same(s: Seq<MockWorkspace>, t: Seq<MockWorkspace>)
    requires
        same_workspaces(s, t),
        s.len() > 0,
    ensures
        same_workspaces(s.drop_last(), t.drop_last()),
        same_workspace(s.last(), t.last()),
{
    assert(same_workspace(s[s.len() - 1], t[t.len() - 1]));
    assert forall|i: int| 0 <= i < s.len() - 1 implies same_workspace(
        #[trigger] s.drop_last()[i],
        t.drop_last()[i],
    ) by {
        assert(s.drop_last()[i] == s[i] && t.drop_last()[i] == t[i]);
    }
}

proof fn lemma_push_same(s: Seq<MockWorkspace>, t: Seq<MockWorkspace>, x: MockWorkspace, y: MockWorkspace)
    requires
        same_workspaces(s, t),
        same_workspace(x, y),
    ensures
        same_workspaces(s.push(x), t.push(y)),
{
    assert forall|i: int| 0 <= i < s.push(x).len() implies same_workspace(
        #[trigger] s.push(x)[i],
        t.push(y)[i],
    ) by {
        if i < s.len() {
            assert(s.push(x)[i] == s[i] && t.push(y)[i] == t[i]);
        }
    }
}

proof fn lemma_focused_output_same(s: Seq<MockOutput>, t: Seq<MockOutput>)
    requires
        same_outputs(s, t),
    ensures
        focused_output(s) == focused_output(t),
    decreases s.len(),
{
    if s.len() > 0 {
        assert(same_output(s[s.len() - 1], t[t.len() - 1]));
        assert(s.last() == s[s.len() - 1] && t.last() == t[t.len() - 1]);
        assert forall|i: int| 0 <= i < s.len() - 1 implies same_output(
            #[trigger] s.drop_last()[i],
            t.drop_last()[i],
        ) by {
            assert(s.drop_last()[i] == s[i] && t.drop_last()[i] == t[i]);
        }
        lemma_focused_output_same(s.drop_last(), t.drop_last());
    }
}

proof fn lemma_filters_same(s: Seq<MockWorkspace>, t: Seq<MockWorkspace>, out: Seq<char>)
    requires
        same_workspaces(s, t),
    ensures
        same_workspaces(on_output(s, out), on_output(t, out)),
        same_workspaces(off_output(s, out), off_output(t, out)),
        last_starting_number(s) == last_starting_number(t),
    decreases s.len(),
{
    if s.len() > 0 {
        lemma_drop_last_same(s, t);
        lemma_filters_same(s.drop_last(), t.drop_last(), out);
        lemma_push_same(on_output(s.drop_last(), out), on_output(t.drop_last(), out), s.last(), t.last());
        lemma_push_same(off_output(s.drop_last(), out), off_output(t.drop_last(), out), s.last(), t.last());
    }
}

proof fn lemma_views_same(s: Seq<MockWorkspace>, t: Seq<MockWorkspace>, free: nat)
    requires
        same_workspaces(s, t),
    ensures
        views_of(s, free) == views_of(t, free),
{
    assert forall|i: int| 0 <= i < s.len() implies #[trigger] views_of(s, free)[i] == views_of(t, free)[i] by {
        assert(same_workspace(s[i], t[i]));
    }
    assert(views_of(s, free) =~= views_of(t, free));
}

/// Workspaces and outputs reported the same way are built into the same
/// workspaces, and can be built alike.
pub proof fn lemma_extracted_same(
    ws1: Seq<MockWorkspace>,
    os1: Seq<MockOutput>,
    ws2: Seq<MockWorkspace>,
    os2: Seq<MockOutput>,
)
    requires
        same_workspaces(ws1, ws2),
        same_outputs(os1, os2),
    ensures
        assemble_defined(sorted_workspaces(ws1), os1) == assemble_defined(sorted_workspaces(ws2), os2),
        extracted(ws1, os1) == extracted(ws2, os2),
{
    let s1 = sorted_workspaces(ws1);
    let s2 = sorted_workspaces(ws2);
    lemma_sorted_same(ws1, ws2);
    lemma_focused_output_same(os1, os2);
    let out = focused_output(os1).unwrap();
    lemma_filters_same(s1, s2, out);
    lemma_filters_same(on_output(s1, out), on_output(s2, out), out);
    let free = free_number(on_output(s1, out));
    lemma_views_same(on_output(s1, out), on_output(s2, out), free);
    lemma_views_same(off_output(s1, out), off_output(s2, out), free);
    if forall|i: int| 0 <= i < s1.len() ==> !needs_free_number(#[trigger] s1[i]) {
        assert forall|i: int| 0 <= i < s2.len() implies !needs_free_number(#[trigger] s2[i]) by {
            assert(same_workspace(s1[i], s2[i]));
            assert(!needs_free_number(s1[i]));
        }
    }
    if forall|i: int| 0 <= i < s2.len() ==> !needs_free_number(#[trigger] s2[i]) {
        assert forall|i: int| 0 <= i < s1.len() implies !needs_free_number(#[trigger] s1[i]) by {
            assert(same_workspace(s1[i], s2[i]));
            assert(!needs_free_number(s2[i]));
        }
    }
}

proof fn lemma_filters_len(s: Seq<MockWorkspace>, out: Seq<char>)
    ensures
        on_output(s, out).len() + off_output(s, out).len() == s.len(),
    decreases s.len(),
{
    if s.len() > 0 {
        lemma_filters_len(s.drop_last(), out);
    }
}

/// The view of the reported workspace; `free` is the number for a workspace
/// that has none.
fn map_ipcworkspace_to_workspace(ipc_workspace: &MockWorkspace, free: Option<usize>) -> (r:
    Workspace)
    requires
        needs_free_number(*ipc_workspace) ==> free is Some,
    ensures
        r@ == workspace_view_of(
            *ipc_workspace,
            match free {
                Some(f) => f as nat,
                None => 0,
            },
        ),
{
    match ipc_workspace.num {
        Some(n) => {
            let prefix = decimal_string(n);
            assert(prefix@.len() > 0);
            let stripped = trim_start_matches(ipc_workspace.name.as_str(), prefix.as_str());
            Workspace {
                number: n,
                name: trim(stripped.as_str()),
                basename: ipc_workspace.name.clone(),
                focused: ipc_workspace.focused,
            }
        },
        None => {
            let (number, rest) = split_number_fragment(ipc_workspace.name.as_str());
            let value = match parse_usize(number.as_str()) {
                Some(k) => k,
                None => free.unwrap(),
            };
            Workspace {
                number: value,
                name: trim(rest.as_str()),
                basename: ipc_workspace.name.clone(),
                focused: ipc_workspace.focused,
            }
        },
    }
}

/// A workspace held as plain values, read from what `w` reports.
fn snapshot_workspace<W: WorkspaceProxy>(w: &W) -> (r: MockWorkspace)
    ensures
        w.reports_record() ==> same_workspace(r, w.record()),
{
    MockWorkspace {
        num: w.get_num(),
        name: String::from_str(w.get_name()),
        output: String::from_str(w.get_output()),
        focused: w.get_focused(),
    }
}

/// An output held as plain values, read from what `o` reports.
fn snapshot_output<O: OutputProxy>(o: &O) -> (r: MockOutput)
    ensures
        o.reports_record() ==> same_output(r, o.record()),
{
    MockOutput { name: String::from_str(o.get_name()), focused: o.get_focused() }
}

/// The name of the last output that has the focus.
fn find_focused_output(outputs: &Vec<MockOutput>) -> (r: Option<String>)
    ensures
        match r {
            Some(name) => focused_output(outputs@) == Some(name@),
            None => focused_output(outputs@) is None,
        },
{
    let n = outputs.len();
    let mut i = n;
    assert(outputs@.subrange(0, n as int) =~= outputs@);
    while i > 0 && !outputs[i - 1].focused
        invariant
            i <= n,
            n == outputs@.len(),
            focused_output(outputs@) == focused_output(outputs@.subrange(0, i as int)),
        decreases i,
    {
        proof {
            let t = outputs@.subrange(0, i as int);
            assert(t.drop_last() =~= outputs@.subrange(0, i - 1));
        }
        i = i - 1;
    }
    if i == 0 {
        None
    } else {
        proof {
            let t = outputs@.subrange(0, i as int);
            assert(t.last() == outputs@[i - 1]);
        }
        Some(outputs[i - 1].name.clone())
    }
}

/// Whether building from `sorted` and `outputs` panics nowhere.
fn assemblable(sorted: &Vec<MockWorkspace>, outputs: &Vec<MockOutput>) -> (r: bool)
    ensures
        r == assemble_defined(sorted@, outputs@),
{
    if sorted.len() >= isize::MAX as usize {
        return false;
    }
    let out = match find_focused_output(outputs) {
        Some(name) => name,
        None => return false,
    };
    let n = sorted.len();
    let mut same_last: Option<usize> = None;
    let mut needed = false;
    let mut i: usize = 0;
    let ghost o = out@;
    while i < n
        invariant
            n == sorted@.len(),
            i <= n,
            o == out@,
            match same_last {
                Some(k) => last_starting_number(on_output(sorted@.subrange(0, i as int), o))
                    == Some(k as nat),
                None => last_starting_number(on_output(sorted@.subrange(0, i as int), o)) is None,
            },
            needed == exists|k: int| 0 <= k < i && needs_free_number(#[trigger] sorted@[k]),
        decreases n - i,
    {
        let w = &sorted[i];
        let start = extract_starting_number(w.name.as_str());
        proof {
            let t = sorted@.subrange(0, i + 1);
            assert(t.drop_last() =~= sorted@.subrange(0, i as int));
            assert(t.last() == sorted@[i as int]);
        }
        proof {
            let t = sorted@.subrange(0, i + 1);
            let p = sorted@.subrange(0, i as int);
            if w.output@ == o {
                assert(on_output(t, o) == on_output(p, o).push(*w));
                assert(on_output(t, o).drop_last() =~= on_output(p, o));
            } else {
                assert(on_output(t, o) == on_output(p, o));
            }
        }
        if equal_text(w.output.as_str(), out.as_str()) {
            if start.is_some() {
                same_last = start;
            }
        }
        if w.num.is_none() && start.is_none() {
            needed = true;
        }
        i = i + 1;
    }
    assert(sorted@.subrange(0, n as int) =~= sorted@);
    !(same_last == Some(usize::MAX) && needed)
}

/// The index of the last workspace of `items` that has the focus.
fn focused_position(items: &Vec<Workspace>) -> (r: Option<usize>)
    ensures
        match r {
            Some(i) => last_focused(items@.map_values(|w: Workspace| w@)) == Some(i as int),
            None => last_focused(items@.map_values(|w: Workspace| w@)) is None,
        },
{
    let ghost s = items@.map_values(|w: Workspace| w@);
    let n = items.len();
    let mut i = n;
    assert(s.subrange(0, n as int) =~= s);
    while i > 0 && !items[i - 1].focused
        invariant
            i <= n,
            n == items@.len(),
            s == items@.map_values(|w: Workspace| w@),
            last_focused(s) == last_focused(s.subrange(0, i as int)),
        decreases i,
    {
        proof {
            let t = s.subrange(0, i as int);
            assert(t.drop_last() =~= s.subrange(0, i - 1));
            assert(t.last() == items@[i - 1]@);
        }
        i = i - 1;
    }
    if i == 0 {
        None
    } else {
        proof {
            let t = s.subrange(0, i as int);
            assert(t.last() == items@[i - 1]@);
        }
        Some(i - 1)
    }
}

/// The views of `records`, with `free` as the number where one has none.
fn build_workspaces(records: &Vec<MockWorkspace>, free: Option<usize>) -> (r: Vec<Workspace>)
    requires
        forall|i: int| 0 <= i < records@.len() && needs_free_number(#[trigger] records@[i])
            ==> free is Some,
    ensures
        r@.map_values(|w: Workspace| w@) == views_of(
            records@,
            match free {
                Some(f) => f as nat,
                None => 0,
            },
        ),
{
    let ghost fv: nat = match free {
        Some(f) => f as nat,
        None => 0,
    };
    let n = records.len();
    let mut out: Vec<Workspace> = Vec::new();
    let mut i: usize = 0;
    while i < n
        invariant
            n == records@.len(),
            i <= n,
            fv == match free {
                Some(f) => f as nat,
                None => 0,
            },
            forall|k: int| 0 <= k < records@.len() && needs_free_number(#[trigger] records@[k])
                ==> free is Some,
            out@.map_values(|w: Workspace| w@) == views_of(records@.subrange(0, i as int), fv),
        decreases n - i,
    {
        assert(needs_free_number(records@[i as int]) ==> free is Some);
        let w = map_ipcworkspace_to_workspace(&records[i], free);
        proof {
            lemma_push_view(out@, w);
            assert(views_of(records@.subrange(0, i + 1), fv) =~= views_of(
                records@.subrange(0, i as int),
                fv,
            ).push(w@));
        }
        out.push(w);
        i = i + 1;
    }
    assert(records@.subrange(0, n as int) =~= records@);
    out
}

impl<C> Workspaces<C> {
    /// The connection that the workspaces hold.
    pub closed spec fn held_connection(&self) -> C {
        self.connection
    }

    /// Builds the workspaces from `sorted` (in workspace order) and `outputs`.
    fn assemble(connection: C, sorted: Vec<MockWorkspace>, ipcoutputs: Vec<MockOutput>) -> (r:
        Workspaces<C>)
        requires
            assemble_defined(sorted@, ipcoutputs@),
        ensures
            r.wf(),
            r@ == assembled(sorted@, ipcoutputs@),
            r.held_connection() == connection,
    {
        let ghost s = sorted@;
        let out = find_focused_output(&ipcoutputs).unwrap();
        let ghost o = out@;
        let mut rest = sorted;
        let mut same: Vec<MockWorkspace> = Vec::new();
        let mut other: Vec<MockWorkspace> = Vec::new();
        let ghost mut k: int = 0;
        assert(s.subrange(0, s.len() as int) =~= s);
        assert(s.subrange(0, 0) =~= Seq::<MockWorkspace>::empty());
        while rest.len() > 0
            invariant
                0 <= k <= s.len(),
                o == out@,
                rest@ == s.subrange(k, s.len() as int),
                same@ == on_output(s.subrange(0, k), o),
                other@ == off_output(s.subrange(0, k), o),
            decreases rest.len(),
        {
            let x = rest.remove(0);
            proof {
                let t = s.subrange(0, k + 1);
                assert(t.drop_last() =~= s.subrange(0, k));
                assert(t.last() == x);
            }
            if equal_text(x.output.as_str(), out.as_str()) {
                same.push(x);
            } else {
                other.push(x);
            }
            proof {
                k = k + 1;
                assert(rest@ =~= s.subrange(k, s.len() as int));
            }
        }
        assert(s.subrange(0, k) =~= s);
        proof {
            lemma_filters_len(s, o);
        }
        // the number of the last numbered workspace of the focused screen
        let n = same.len();
        let mut i = n;
        assert(same@.subrange(0, n as int) =~= same@);
        while i > 0 && extract_starting_number(same[i - 1].name.as_str()).is_none()
            invariant
                i <= n,
                n == same@.len(),
                last_starting_number(same@) == last_starting_number(same@.subrange(0, i as int)),
            decreases i,
        {
            proof {
                let t = same@.subrange(0, i as int);
                assert(t.drop_last() =~= same@.subrange(0, i - 1));
                assert(t.last() == same@[i - 1]);
            }
            i = i - 1;
        }
        let free: Option<usize> = if i == 0 {
            Some(1)
        } else {
            proof {
                let t = same@.subrange(0, i as int);
                assert(t.last() == same@[i - 1]);
            }
            let last = extract_starting_number(same[i - 1].name.as_str()).unwrap();
            if last < usize::MAX {
                Some(last + 1)
            } else {
                None
            }
        };
        proof {
            if free is None {
                assert forall|j: int| 0 <= j < same@.len() implies !needs_free_number(
                    #[trigger] same@[j],
                ) by {
                    lemma_on_output_member(s, o, j);
                }
                assert forall|j: int| 0 <= j < other@.len() implies !needs_free_number(
                    #[trigger] other@[j],
                ) by {
                    lemma_off_output_member(s, o, j);
                }
            }
        }
        let same_items = build_workspaces(&same, free);
        let other_items = build_workspaces(&other, free);
        let ghost fv: nat = match free {
            Some(f) => f as nat,
            None => 0,
        };
        proof {
            let fr = free_number(same@);
            assert forall|j: int| 0 <= j < same@.len() implies workspace_view_of(
                #[trigger] same@[j],
                fv,
            ) == workspace_view_of(same@[j], fr) by {
                if free is None {
                    lemma_on_output_member(s, o, j);
                }
            }
            assert forall|j: int| 0 <= j < other@.len() implies workspace_view_of(
                #[trigger] other@[j],
                fv,
            ) == workspace_view_of(other@[j], fr) by {
                if free is None {
                    lemma_off_output_member(s, o, j);
                }
            }
            assert(views_of(same@, fv) =~= views_of(same@, fr));
            assert(views_of(other@, fv) =~= views_of(other@, fr));
        }
        let fi = match focused_position(&same_items) {
            Some(p) => p,
            None => 0,
        };
        proof {
            lemma_last_focused(same_items@.map_values(|w: Workspace| w@));
        }
        let r = Workspaces {
            same_screen_focused_index: fi,
            connection,
            taints: Vec::new(),
            on_same_screen: VecOfWorkspaces { items: same_items },
            on_other_screen: VecOfWorkspaces { items: other_items },
            log: Ghost(Seq::empty()),
        };
        proof {
            let a = assembled(s, ipcoutputs@);
            assert(r@.same == a.same);
            assert(r@.other == a.other);
            assert(r@.focused_index == a.focused_index);
            assert(r@.taints =~= a.taints);
            assert(r@.log =~= a.log);
        }
        r
    }

    /// Builds the workspaces from the reported workspaces and outputs: sorted
    /// in workspace order, split into those on the (last) focused output and
    /// the others, each with its number and name.
    pub fn extract_workspaces(
        connection: C,
        ipcworkspaces: Vec<MockWorkspace>,
        ipcoutputs: Vec<MockOutput>,
    ) -> (r: Workspaces<C>)
        requires
            assemble_defined(sorted_workspaces(ipcworkspaces@), ipcoutputs@),
        ensures
            r.wf(),
            r@ == extracted(ipcworkspaces@, ipcoutputs@),
            r.held_connection() == connection,
    {
        let sorted = sort_workspaces(ipcworkspaces);
        Self::assemble(connection, sorted, ipcoutputs)
    }

    /// Builds the workspaces from what the parts of `ipcadapter` report (see
    /// `extract_workspaces`); `None` where no output has the focus or where a
    /// workspace without a number would need one that does not fit.
    pub fn new<A: IPCAdapter<Connection = C>>(ipcadapter: A) -> (r: Option<Workspaces<C>>)
        ensures
            r matches Some(w) ==> w.wf() && w@.taints.len() == 0 && w@.log.len() == 0 && exists|
                workspaces: Seq<MockWorkspace>,
                outputs: Seq<MockOutput>,
            |
                assemble_defined(sorted_workspaces(workspaces), outputs) && #[trigger] extracted(
                    workspaces,
                    outputs,
                ) == w@,
            ipcadapter.reports() ==> (r is Some <==> assemble_defined(
                sorted_workspaces(ipcadapter.reported_workspaces()),
                ipcadapter.reported_outputs(),
            )),
            ipcadapter.reports() ==> (r matches Some(w) ==> w@ == extracted(
                ipcadapter.reported_workspaces(),
                ipcadapter.reported_outputs(),
            ) && w.held_connection() == ipcadapter.reported_connection()),
    {
        let ghost reports = ipcadapter.reports();
        let ghost rws = ipcadapter.reported_workspaces();
        let ghost ros = ipcadapter.reported_outputs();
        let ghost rc = ipcadapter.reported_connection();
        let (connection, ipcworkspaces, ipcoutputs) = ipcadapter.explode();
        let mut records: Vec<MockWorkspace> = Vec::new();
        let mut i: usize = 0;
        while i < ipcworkspaces.len()
            invariant
                i <= ipcworkspaces@.len(),
                records@.len() == i,
                reports ==> ipcworkspaces@.len() == rws.len() && forall|k: int|
                    0 <= k < ipcworkspaces@.len() ==> #[trigger] ipcworkspaces@[k].reports_record()
                        && same_workspace(ipcworkspaces@[k].record(), rws[k]),
                reports ==> forall|k: int| 0 <= k < i ==> same_workspace(#[trigger] records@[k], rws[k]),
            decreases ipcworkspaces.len() - i,
        {
            let rec = snapshot_workspace(&ipcworkspaces[i]);
            let ghost before = records@;
            records.push(rec);
            proof {
                assert forall|k: int| 0 <= k < i implies records@[k] == before[k] by {}
            }
            i = i + 1;
        }
        let mut outputs: Vec<MockOutput> = Vec::new();
        let mut j: usize = 0;
        while j < ipcoutputs.len()
            invariant
                j <= ipcoutputs@.len(),
                outputs@.len() == j,
                reports ==> ipcoutputs@.len() == ros.len() && forall|k: int|
                    0 <= k < ipcoutputs@.len() ==> #[trigger] ipcoutputs@[k].reports_record()
                        && same_output(ipcoutputs@[k].record(), ros[k]),
                reports ==> forall|k: int| 0 <= k < j ==> same_output(#[trigger] outputs@[k], ros[k]),
            decreases ipcoutputs.len() - j,
        {
            let rec = snapshot_output(&ipcoutputs[j]);
            let ghost before = outputs@;
            outputs.push(rec);
            proof {
                assert forall|k: int| 0 <= k < j implies outputs@[k] == before[k] by {}
            }
            j = j + 1;
        }
        let ghost reported = records@;
        let ghost outs = outputs@;
        proof {
            if reports {
                lemma_extracted_same(reported, outs, rws, ros);
            }
        }
        let sorted = sort_workspaces(records);
        if assemblable(&sorted, &outputs) {
            let w = Self::assemble(connection, sorted, outputs);
            assert(extracted(reported, outs) == w@);
            Some(w)
        } else {
            None
        }
    }
}

proof fn lemma_on_output_member(s: Seq<MockWorkspace>, out: Seq<char>, j: int)
    requires
        0 <= j < on_output(s, out).len(),
    ensures
        exists|i: int| 0 <= i < s.len() && s[i] == on_output(s, out)[j],
    decreases s.len(),
{
    let t = s.drop_last();
    if s.last().output@ == out && j == on_output(s, out).len() - 1 {
        assert(s[s.len() - 1] == on_output(s, out)[j]);
    } else {
        lemma_on_output_member(t, out, j);
        let i = choose|i: int| 0 <= i < t.len() && t[i] == on_output(t, out)[j];
        assert(s[i] == t[i]);
    }
}

proof fn lemma_off_output_member(s: Seq<MockWorkspace>, out: Seq<char>, j: int)
    requires
        0 <= j < off_output(s, out).len(),
    ensures
        exists|i: int| 0 <= i < s.len() && s[i] == off_output(s, out)[j],
    decreases s.len(),
{
    let t = s.drop_last();
    if s.last().output@ != out && j == off_output(s, out).len() - 1 {
        assert(s[s.len() - 1] == off_output(s, out)[j]);
    } else {
        lemma_off_output_member(t, out, j);
        let i = choose|i: int| 0 <= i < t.len() && t[i] == off_output(t, out)[j];
        assert(s[i] == t[i]);
    }
}


/// Every reported workspace is listed once: among those of the output `out`
/// where it is on that output, else among the others.
pub proof fn law_split_by_output(s: Seq<MockWorkspace>, out: Seq<char>)
    ensures
        on_output(s, out).to_multiset().add(off_output(s, out).to_multiset()) == s.to_multiset(),
        forall|i: int| 0 <= i < on_output(s, out).len() ==> #[trigger] on_output(s, out)[i].output@ == out,
        forall|i: int| 0 <= i < off_output(s, out).len() ==> #[trigger] off_output(s, out)[i].output@ != out,
    decreases s.len(),
{
    broadcast use vstd::seq_lib::group_to_multiset_ensures;
    broadcast use vstd::multiset::group_multiset_axioms;

    if s.len() == 0 {
        assert(on_output(s, out).to_multiset().add(off_output(s, out).to_multiset()) =~= s.to_multiset());
    } else {
        let t = s.drop_last();
        law_split_by_output(t, out);
        assert(s =~= t.push(s.last()));
        let a = on_output(t, out);
        let b = off_output(t, out);
        if s.last().output@ == out {
            assert(on_output(s, out) == a.push(s.last()));
            assert(on_output(s, out).to_multiset().add(off_output(s, out).to_multiset())
                =~= s.to_multiset());
            assert forall|i: int| 0 <= i < on_output(s, out).len() implies #[trigger] on_output(
                s,
                out,
            )[i].output@ == out by {
                if i < a.len() {
                    assert(on_output(s, out)[i] == a[i]);
                }
            }
        } else {
            assert(off_output(s, out) == b.push(s.last()));
            assert(on_output(s, out).to_multiset().add(off_output(s, out).to_multiset())
                =~= s.to_multiset());
            assert forall|i: int| 0 <= i < off_output(s, out).len() implies #[trigger] off_output(
                s,
                out,
            )[i].output@ != out by {
                if i < b.len() {
                    assert(off_output(s, out)[i] == b[i]);
                }
            }
        }
    }
}

proof fn lemma_on_output_order(s: Seq<MockWorkspace>, out: Seq<char>)
    requires
        in_workspace_order(s),
    ensures
        in_workspace_order(on_output(s, out)),
    decreases s.len(),
{
    if s.len() > 0 {
        let t = s.drop_last();
        assert forall|i: int, j: int| 0 <= i < j < t.len() implies !goes_after(
            #[trigger] t[i],
            #[trigger] t[j],
        ) by {
            assert(t[i] == s[i] && t[j] == s[j]);
        }
        lemma_on_output_order(t, out);
        if s.last().output@ == out {
            let u = on_output(t, out);
            let r = u.push(s.last());
            assert forall|i: int, j: int| 0 <= i < j < r.len() implies !goes_after(
                #[trigger] r[i],
                #[trigger] r[j],
            ) by {
                assert(r[i] == u[i]);
                if j < u.len() {
                    assert(r[j] == u[j]);
                } else {
                    lemma_on_output_member(t, out, i);
                    let k = choose|k: int| 0 <= k < t.len() && t[k] == u[i];
                    assert(s[k] == t[k] && s[s.len() - 1] == s.last());
                }
            }
        }
    }
}

proof fn lemma_last_starting_number(s: Seq<MockWorkspace>)
    requires
        in_workspace_order(s),
    ensures
        forall|i: int|
            0 <= i < s.len() && #[trigger] starting_number(s[i].name@) is Some ==> last_starting_number(s)
                is Some && starting_number(s[i].name@).unwrap() <= last_starting_number(s).unwrap(),
        last_starting_number(s) is Some ==> exists|i: int|
            0 <= i < s.len() && #[trigger] starting_number(s[i].name@) == last_starting_number(s),
    decreases s.len(),
{
    if s.len() > 0 {
        let t = s.drop_last();
        let n = s.len() - 1;
        assert(s[n] == s.last());
        if starting_number(s.last().name@) is Some {
            assert forall|i: int|
                0 <= i < s.len() && #[trigger] starting_number(s[i].name@) is Some implies starting_number(
                s[i].name@,
            ).unwrap() <= last_starting_number(s).unwrap() by {
                if i < n {
                    assert(!goes_after(s[i], s[n]));
                }
            }
        } else {
            assert forall|i: int, j: int| 0 <= i < j < t.len() implies !goes_after(
                #[trigger] t[i],
                #[trigger] t[j],
            ) by {
                assert(t[i] == s[i] && t[j] == s[j]);
            }
            lemma_last_starting_number(t);
            assert forall|i: int|
                0 <= i < s.len() && #[trigger] starting_number(s[i].name@) is Some implies last_starting_number(
                s,
            ) is Some && starting_number(s[i].name@).unwrap() <= last_starting_number(s).unwrap() by {
                assert(t[i] == s[i]);
            }
            if last_starting_number(s) is Some {
                let i = choose|i: int|
                    0 <= i < t.len() && #[trigger] starting_number(t[i].name@) == last_starting_number(t);
                assert(t[i] == s[i]);
            }
        }
    }
}

/// The workspaces reported on the output `out`, in workspace order.
pub open spec fn records_on(workspaces: Seq<MockWorkspace>, out: Seq<char>) -> Seq<MockWorkspace> {
    on_output(sorted_workspaces(workspaces), out)
}

/// The number a workspace without one gets is one above the highest number
/// that a name of the focused screen starts with, or 1 where none does: the
/// workspaces are sorted, so the last numbered one holds the highest.
pub proof fn law_free_number_is_highest_plus_one(workspaces: Seq<MockWorkspace>, out: Seq<char>)
    ensures
        forall|i: int|
            0 <= i < records_on(workspaces, out).len() && #[trigger] starting_number(
                records_on(workspaces, out)[i].name@,
            ) is Some ==> starting_number(records_on(workspaces, out)[i].name@).unwrap()
                < free_number(records_on(workspaces, out)),
        free_number(records_on(workspaces, out)) == 1 || exists|i: int|
            0 <= i < records_on(workspaces, out).len() && #[trigger] starting_number(
                records_on(workspaces, out)[i].name@,
            ) == Some((free_number(records_on(workspaces, out)) - 1) as nat),
{
    lemma_sorted_workspaces(workspaces);
    lemma_on_output_order(sorted_workspaces(workspaces), out);
    lemma_last_starting_number(records_on(workspaces, out));
}

////////////////////////////////////////////////////////////////////////////////
// A FREE NUMBER NEXT TO THE FOCUSED WORKSPACE
////////////////////////////////////////////////////////////////////////////////

/// Where the search for a free number starts in `s`: the index of the last
/// focused workspace and its number, or the start and 0.
pub open spec fn adjacent_base(s: Seq<WorkspaceView>) -> (int, nat) {
    match last_focused(s) {
        Some(i) => (i, s[i].number),
        None => (0, 0),
    }
}

/// A workspace of `s` from index `from` on has the number `k`.
pub open spec fn number_taken(s: Seq<WorkspaceView>, from: int, k: nat) -> bool {
    exists|j: int| from <= j < s.len() && #[trigger] s[j].number == k
}

/// `k` is the least number above the base that no workspace from the base on
/// has.
pub open spec fn is_adjacent_free(s: Seq<WorkspaceView>, k: nat) -> bool {
    let (from, base) = adjacent_base(s);
    &&& base < k
    &&& !number_taken(s, from, k)
    &&& forall|m: nat| base < m < k ==> number_taken(s, from, m)
}

/// Such a number exists within `usize`.
pub open spec fn adjacent_defined(s: Seq<WorkspaceView>) -> bool {
    let (from, base) = adjacent_base(s);
    exists|k: nat| base < k <= usize::MAX && !number_taken(s, from, k)
}

/// The least number above the focused workspace's number that no workspace
/// from the focused one on has (above 0 from the start where none has the
/// focus).
pub open spec fn adjacent_free(s: Seq<WorkspaceView>) -> nat {
    choose|k: nat| is_adjacent_free(s, k)
}

proof fn lemma_adjacent_unique(s: Seq<WorkspaceView>, k: nat)
    requires
        is_adjacent_free(s, k),
    ensures
        adjacent_free(s) == k,
{
    let c = adjacent_free(s);
    assert(is_adjacent_free(s, c));
    let (from, base) = adjacent_base(s);
    if c < k {
        assert(number_taken(s, from, c));
    } else if k < c {
        assert(number_taken(s, from, k));
    }
}

/// Whether a workspace of `items` from index `from` on has the number `k`.
fn has_number_from(items: &Vec<Workspace>, from: usize, k: usize) -> (r: bool)
    ensures
        r == number_taken(items@.map_values(|w: Workspace| w@), from as int, k as nat),
{
    let ghost s = items@.map_values(|w: Workspace| w@);
    let n = items.len();
    let mut j = from;
    while j < n
        invariant
            n == items@.len(),
            s == items@.map_values(|w: Workspace| w@),
            from <= j,
            forall|m: int| from <= m < j && m < n ==> s[m].number != k,
        decreases n - j,
    {
        assert(s[j as int] == items@[j as int]@);
        if items[j].number == k {
            assert(s[j as int].number == k as nat);
            return true;
        }
        j = j + 1;
    }
    false
}

/// The least number above the focused workspace's number that no workspace
/// from the focused one on has, if there is one within `usize`.
fn search_adjacent_free(on_same_screen: &VecOfWorkspaces) -> (r: Option<usize>)
    ensures
        match r {
            Some(k) => adjacent_defined(on_same_screen@) && is_adjacent_free(
                on_same_screen@,
                k as nat,
            ),
            None => !adjacent_defined(on_same_screen@),
        },
{
    let ghost s = on_same_screen@;
    let items = on_same_screen.items();
    proof {
        lemma_last_focused(s);
    }
    let (from, base) = match focused_position(items) {
        Some(i) => (i, items[i].number),
        None => (0, 0),
    };
    proof {
        if last_focused(s) is Some {
            assert(s[from as int] == items@[from as int]@);
        }
        assert(adjacent_base(s) == (from as int, base as nat));
    }
    if base == usize::MAX {
        return None;
    }
    let mut k = base + 1;
    while has_number_from(items, from, k)
        invariant
            s == on_same_screen@,
            s == items@.map_values(|w: Workspace| w@),
            adjacent_base(s) == (from as int, base as nat),
            base < k <= usize::MAX,
            forall|m: nat| base < m < k ==> number_taken(s, from as int, m),
        decreases usize::MAX - k,
    {
        if k == usize::MAX {
            proof {
                assert forall|m: nat| base < m <= usize::MAX implies number_taken(
                    s,
                    from as int,
                    m,
                ) by {
                    if m == k {
                        assert(number_taken(s, from as int, k as nat));
                    }
                }
            }
            return None;
        }
        k = k + 1;
    }
    assert(!number_taken(s, from as int, k as nat));
    Some(k)
}

/// The least number above the focused workspace's number that no workspace
/// from the focused one on has; where none has the focus, the least positive
/// number that none has.
pub fn find_free_adjecent_workspace_num(on_same_screen: &VecOfWorkspaces) -> (r: usize)
    requires
        adjacent_defined(on_same_screen@),
    ensures
        r == adjacent_free(on_same_screen@),
        is_adjacent_free(on_same_screen@, r as nat),
{
    let k = search_adjacent_free(on_same_screen).unwrap();
    proof {
        lemma_adjacent_unique(on_same_screen@, k as nat);
    }
    k
}

/// Whether a free number next to the focused workspace exists within `usize`.
pub fn has_free_adjecent_workspace_num(on_same_screen: &VecOfWorkspaces) -> (r: bool)
    ensures
        r == adjacent_defined(on_same_screen@),
{
    search_adjacent_free(on_same_screen).is_some()
}

} // verus!
