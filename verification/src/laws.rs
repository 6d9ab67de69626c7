//! What holds of the commands across all inputs: which workspace they act on,
//! which number a renamed workspace carries, and what a result reports.
use vstd::prelude::*;
use crate::commands::Command;
use crate::fragments::{is_number_cut, lemma_cut_of_decimal};
use crate::text::{
    decimal, ends_number, lemma_decimal, lemma_numbered_form, lemma_without_zero_width_space_add,
    lemma_without_zero_width_space_none, numbered, parse_unsigned, without_zero_width_space,
    zero_width_space,
};
use crate::plan::{
    accepted, all_accepted, carried_out, flat, item_text, lemma_flat_push, payloads, run, runs,
    taints_of, texts, PlanItem,
};
use crate::workspaces::{
    all_names, cleanup_plan, guard, increase_plan, last_numbered, lemma_guard, move_cmd,
    performed_stages,
    move_to_new_item, number_move_plan, number_select_plan, rename_cmd, rename_item, select_cmd,
    select_new_item, swap_plan, WorkspaceView, WorkspacesView, wf_view, with_zero_width_spaces,
};
use crate::fragments::starting_number;
use crate::workspaces::{adjacent_base, adjacent_defined, adjacent_free, is_adjacent_free, number_taken};
use crate::{
    focused_view, main_items, main_plan, next_partner, prev_partner, rename_to_target,
    rofi_target, userinput_plan, printout,
};

verus! {

/// The name that renaming to `to` gives where `names` are taken: `to` without
/// zero width spaces, kept apart from `names`.
pub open spec fn given_name(names: Seq<Seq<char>>, to: Seq<char>) -> Seq<char> {
    guard(names, without_zero_width_space(to)).0
}

/// However the leading number of `name` is cut out as the pattern `\d*` cuts
/// it, it reads as `n`.
pub open spec fn reads_as(name: Seq<char>, n: nat) -> bool {
    forall|number: Seq<char>|
        #[trigger] is_number_cut(name, number) ==> parse_unsigned(number, usize::MAX as nat) == Some(
            n,
        )
}

proof fn lemma_given_reads_as(names: Seq<Seq<char>>, to: Seq<char>, m: nat, t: Seq<char>)
    requires
        m <= usize::MAX,
        without_zero_width_space(to) == decimal(m) + t,
        t.len() == 0 || t[0] == ' ',
    ensures
        reads_as(given_name(names, to), m),
        !names.contains(given_name(names, to)),
{
    let w = without_zero_width_space(to);
    lemma_guard(names, w);
    let g = guard(names, w);
    let k = g.1.len();
    let zs = Seq::new(k, |i: int| zero_width_space());
    let u = t + zs;
    assert(g.0 == with_zero_width_spaces(w, k));
    assert(g.0 =~= decimal(m) + u);
    if t.len() > 0 {
        assert(u[0] == ' ');
    } else if k > 0 {
        assert(u[0] == zs[0]);
    }
    assert(ends_number(u));
    assert forall|number: Seq<char>| #[trigger] is_number_cut(g.0, number) implies parse_unsigned(
        number,
        usize::MAX as nat,
    ) == Some(m) by {
        lemma_cut_of_decimal(m, u, number);
    }
}

/// Giving a workspace the number `m` in front of `name` gives a name that no
/// workspace has and that reads as `m`.
pub proof fn law_numbered_name(names: Seq<Seq<char>>, m: nat, name: Seq<char>)
    requires
        m <= usize::MAX,
    ensures
        reads_as(given_name(names, numbered(m, name)), m),
        !names.contains(given_name(names, numbered(m, name))),
{
    lemma_numbered_form(m, name);
    let t = choose|t: Seq<char>|
        without_zero_width_space(numbered(m, name)) == decimal(m) + t && (t.len() == 0 || t[0]
            == ' ');
    lemma_given_reads_as(names, numbered(m, name), m, t);
}

/// Renaming the focused workspace keeps its number: `rename_to` renames it,
/// and only it, to a name that no workspace has and that reads as the
/// number it had.
pub proof fn law_rename_keeps_number(v: WorkspacesView, arg: Option<Seq<char>>)
    requires
        wf_view(v),
        v.same.len() > 0,
        focused_view(v).number <= usize::MAX,
    ensures
        main_items(v, Command::RenameTo, arg) == seq![
            rename_item(all_names(v), focused_view(v).basename, rename_to_target(v, arg)),
        ],
        reads_as(given_name(all_names(v), rename_to_target(v, arg)), focused_view(v).number),
        !all_names(v).contains(given_name(all_names(v), rename_to_target(v, arg))),
{
    let n = focused_view(v).number;
    let d = decimal(n);
    lemma_decimal(n);
    assert forall|i: int| 0 <= i < d.len() implies #[trigger] d[i] != zero_width_space() by {
        assert(crate::text::is_ascii_digit(d[i]));
    }
    lemma_without_zero_width_space_none(d);
    match arg {
        Some(x) => {
            let sp = seq![' '];
            lemma_without_zero_width_space_none(sp);
            lemma_without_zero_width_space_add(d + sp, x);
            lemma_without_zero_width_space_add(d, sp);
            let t = sp + without_zero_width_space(x);
            assert(without_zero_width_space(rename_to_target(v, arg)) =~= d + t);
            lemma_given_reads_as(all_names(v), rename_to_target(v, arg), n, t);
        },
        None => {
            assert(d =~= d + Seq::<char>::empty());
            lemma_given_reads_as(all_names(v), rename_to_target(v, arg), n, Seq::<char>::empty());
        },
    }
}


/// Swapping two workspaces exchanges their numbers: each is renamed to a name
/// that no workspace has and that reads as the other's number. Where the two
/// carry the same number, the first gets the next higher one.
pub proof fn law_swap_exchanges_numbers(names: Seq<Seq<char>>, a: WorkspaceView, b: WorkspaceView)
    requires
        a.basename != b.basename,
        a.number <= usize::MAX,
        b.number <= usize::MAX,
    ensures
        a.number != b.number ==> swap_plan(names, a, b) == seq![
            rename_item(names, a.basename, numbered(b.number, a.name)),
            rename_item(names, b.basename, numbered(a.number, b.name)),
        ],
        a.number != b.number ==> reads_as(given_name(names, numbered(b.number, a.name)), b.number),
        a.number != b.number ==> reads_as(given_name(names, numbered(a.number, b.name)), a.number),
        a.number == b.number ==> swap_plan(names, a, b) == increase_plan(names, a),
        a.number == b.number && a.number < usize::MAX ==> reads_as(
            given_name(names, numbered(a.number + 1, a.name)),
            a.number + 1,
        ),
{
    law_numbered_name(names, b.number, a.name);
    law_numbered_name(names, a.number, b.name);
    if a.number < usize::MAX {
        law_numbered_name(names, a.number + 1, a.name);
    }
}

/// `increase` gives the focused workspace the next higher number: where the
/// next workspace of the focused screen holds that number, the two exchange
/// their numbers; else the focused one alone is renamed, to a name that reads
/// as its number plus one.
pub proof fn law_increase(v: WorkspacesView, arg: Option<Seq<char>>)
    requires
        wf_view(v),
        v.same.len() > 0,
        focused_view(v).number < usize::MAX,
    ensures
        v.focused_index + 1 < v.same.len() && v.same[v.focused_index + 1int].number == focused_view(
            v,
        ).number + 1 ==> main_items(v, Command::Increase, arg) == swap_plan(
            all_names(v),
            focused_view(v),
            v.same[v.focused_index + 1int],
        ),
        !(v.focused_index + 1 < v.same.len() && v.same[v.focused_index + 1int].number
            == focused_view(v).number + 1) ==> main_items(v, Command::Increase, arg) == seq![
            rename_item(
                all_names(v),
                focused_view(v).basename,
                numbered(focused_view(v).number + 1, focused_view(v).name),
            ),
        ],
        reads_as(
            given_name(all_names(v), numbered(focused_view(v).number + 1, focused_view(v).name)),
            focused_view(v).number + 1,
        ),
{
    law_numbered_name(all_names(v), focused_view(v).number + 1, focused_view(v).name);
}

/// `decrease` gives the focused workspace the next lower number: where the
/// previous workspace of the focused screen holds that number, the two
/// exchange their numbers; else the focused one alone is renamed, to a name
/// that reads as its number minus one, as long as that stays positive, and
/// nothing happens at 1 or below.
pub proof fn law_decrease(v: WorkspacesView, arg: Option<Seq<char>>)
    requires
        wf_view(v),
        v.same.len() > 0,
        focused_view(v).number <= usize::MAX,
    ensures
        v.focused_index >= 1 && v.same[v.focused_index - 1].number + 1 == focused_view(v).number
            ==> main_items(v, Command::Decrease, arg) == swap_plan(
            all_names(v),
            v.same[v.focused_index - 1],
            focused_view(v),
        ),
        !(v.focused_index >= 1 && v.same[v.focused_index - 1].number + 1 == focused_view(v).number)
            && focused_view(v).number > 1 ==> main_items(v, Command::Decrease, arg) == seq![
            rename_item(
                all_names(v),
                focused_view(v).basename,
                numbered((focused_view(v).number - 1) as nat, focused_view(v).name),
            ),
        ],
        !(v.focused_index >= 1 && v.same[v.focused_index - 1].number + 1 == focused_view(v).number)
            && focused_view(v).number <= 1 ==> main_items(v, Command::Decrease, arg) == Seq::<
            crate::plan::PlanItem,
        >::empty(),
        focused_view(v).number > 1 ==> reads_as(
            given_name(
                all_names(v),
                numbered((focused_view(v).number - 1) as nat, focused_view(v).name),
            ),
            (focused_view(v).number - 1) as nat,
        ),
{
    if focused_view(v).number > 1 {
        law_numbered_name(
            all_names(v),
            (focused_view(v).number - 1) as nat,
            focused_view(v).name,
        );
    }
}

/// `next` and `prev` without an argument select a workspace of the focused
/// screen, and the swaps exchange the focused workspace with one of the
/// focused screen: the operations stay on the output that has the focus.
pub proof fn law_stays_on_screen(v: WorkspacesView, arg: Option<Seq<char>>)
    requires
        wf_view(v),
        v.same.len() > 0,
    ensures
        exists|i: int|
            0 <= i < v.same.len() && main_items(v, Command::Next, None) == seq![
                run(select_cmd(#[trigger] v.same[i].basename)),
            ],
        exists|i: int|
            0 <= i < v.same.len() && main_items(v, Command::Prev, None) == seq![
                run(select_cmd(#[trigger] v.same[i].basename)),
            ],
        exists|i: int|
            0 <= i < v.same.len() && #[trigger] v.same[i] == next_partner(v) && main_items(
                v,
                Command::SwapWithNext,
                arg,
            ) == swap_plan(all_names(v), focused_view(v), v.same[i]),
        exists|i: int|
            0 <= i < v.same.len() && #[trigger] v.same[i] == prev_partner(v) && main_items(
                v,
                Command::SwapWithPrev,
                arg,
            ) == swap_plan(all_names(v), v.same[i], focused_view(v)),
{
    let fi = v.focused_index as int;
    let n = v.same.len() as int;
    let next = if fi + 1 < n { fi + 1 } else { 0 };
    let prev = if fi >= 1 { fi - 1 } else { n - 1 };
    assert(main_items(v, Command::Next, None) == seq![run(select_cmd(v.same[next].basename))]);
    assert(main_items(v, Command::Prev, None) == seq![run(select_cmd(v.same[prev].basename))]);
    assert(v.same[next] == next_partner(v));
    assert(v.same[prev] == prev_partner(v));
}

proof fn lemma_last_numbered(s: Seq<WorkspaceView>, n: nat)
    ensures
        match last_numbered(s, n) {
            Some(i) => 0 <= i < s.len() && starting_number(s[i].basename) == Some(n) && forall|
                j: int,
            | i < j < s.len() ==> starting_number(#[trigger] s[j].basename) != Some(n),
            None => forall|j: int|
                0 <= j < s.len() ==> starting_number(#[trigger] s[j].basename) != Some(n),
        },
    decreases s.len(),
{
    if s.len() > 0 && starting_number(s.last().basename) != Some(n) {
        let t = s.drop_last();
        lemma_last_numbered(t, n);
        assert(s[s.len() - 1] == s.last());
        match last_numbered(t, n) {
            Some(i) => {
                assert(s[i] == t[i]);
                assert forall|j: int| i < j < s.len() implies starting_number(
                    #[trigger] s[j].basename,
                ) != Some(n) by {
                    if j < t.len() {
                        assert(s[j] == t[j]);
                    }
                }
            },
            None => {
                assert forall|j: int| 0 <= j < s.len() implies starting_number(
                    #[trigger] s[j].basename,
                ) != Some(n) by {
                    if j < t.len() {
                        assert(s[j] == t[j]);
                    }
                }
            },
        }
    }
}

/// `number n` and `move_container_to_workspace_number n` act on the last
/// workspace of the focused screen whose name starts with the number `n`;
/// where there is none, on a new workspace whose name no workspace has and
/// reads as `n`.
pub proof fn law_number_stays_on_screen(v: WorkspacesView, n: nat)
    requires
        n <= usize::MAX,
    ensures
        match last_numbered(v.same, n) {
            Some(i) => {
                &&& 0 <= i < v.same.len()
                &&& starting_number(v.same[i].basename) == Some(n)
                &&& forall|j: int|
                    i < j < v.same.len() ==> starting_number(#[trigger] v.same[j].basename) != Some(
                        n,
                    )
                &&& number_select_plan(v, n) == seq![run(select_cmd(v.same[i].basename))]
                &&& number_move_plan(v, n) == seq![run(move_cmd(v.same[i].basename))]
            },
            None => {
                &&& forall|j: int|
                    0 <= j < v.same.len() ==> starting_number(#[trigger] v.same[j].basename) != Some(
                        n,
                    )
                &&& number_select_plan(v, n) == seq![select_new_item(all_names(v), decimal(n))]
                &&& number_move_plan(v, n) == seq![move_to_new_item(all_names(v), decimal(n))]
                &&& guard(all_names(v), decimal(n)).0 == given_name(all_names(v), decimal(n))
                &&& reads_as(given_name(all_names(v), decimal(n)), n)
                &&& !all_names(v).contains(given_name(all_names(v), decimal(n)))
            },
        },
{
    lemma_last_numbered(v.same, n);
    let d = decimal(n);
    lemma_decimal(n);
    assert forall|i: int| 0 <= i < d.len() implies #[trigger] d[i] != zero_width_space() by {
        assert(crate::text::is_ascii_digit(d[i]));
    }
    lemma_without_zero_width_space_none(d);
    assert(d =~= d + Seq::<char>::empty());
    lemma_given_reads_as(all_names(v), d, n, Seq::<char>::empty());
}


/// The commands that answer with the commands they hand to the compositor:
/// all but the printing ones, `usage`, and the rofi ones without an argument,
/// which answer with a line of text.
pub open spec fn answers_with_commands(command: Command, arg: Option<Seq<char>>) -> bool {
    match command {
        Command::PrintFocusedName | Command::PrintFocusedNumber | Command::Usage => false,
        Command::RofiSelectWorkspace | Command::RofiMoveWindow => arg is Some,
        _ => true,
    }
}

spec fn all_runs(items: Seq<PlanItem>) -> bool {
    forall|i: int| 0 <= i < items.len() ==> #[trigger] items[i] is Run
}

proof fn lemma_texts_of_runs(items: Seq<PlanItem>)
    requires
        all_runs(items),
    ensures
        texts(items) == runs(items),
    decreases items.len(),
{
    if items.len() > 0 {
        let t = items.drop_last();
        assert forall|i: int| 0 <= i < t.len() implies #[trigger] t[i] is Run by {
            assert(t[i] == items[i]);
        }
        lemma_texts_of_runs(t);
        assert(items[items.len() - 1] is Run);
        assert(texts(items) =~= texts(t).push(item_text(items.last())));
    } else {
        assert(texts(items) =~= Seq::<Seq<char>>::empty());
    }
}

proof fn lemma_cleanup_runs(taints: crate::plan::Taints)
    ensures
        all_runs(cleanup_plan(taints)),
{
}

proof fn lemma_all_runs_add(a: Seq<PlanItem>, b: Seq<PlanItem>)
    requires
        all_runs(a),
        all_runs(b),
    ensures
        all_runs(a + b),
{
    assert forall|i: int| 0 <= i < (a + b).len() implies #[trigger] (a + b)[i] is Run by {
        if i < a.len() {
            assert((a + b)[i] == a[i]);
        } else {
            assert((a + b)[i] == b[i - a.len()]);
        }
    }
}

proof fn lemma_main_items_runs(v: WorkspacesView, command: Command, arg: Option<Seq<char>>)
    requires
        answers_with_commands(command, arg),
    ensures
        all_runs(flat(userinput_plan(v, command, arg))),
{
    let i = main_items(v, command, arg);
    let m = main_plan(v, command, arg);
    lemma_flat_push(Seq::empty(), i);
    assert(Seq::<Seq<PlanItem>>::empty().push(i) =~= seq![i]);
    assert(flat(Seq::<Seq<PlanItem>>::empty()) =~= Seq::<PlanItem>::empty());
    assert(flat(seq![i]) =~= i);
    if command is RofiSelectWorkspace {
        lemma_cleanup_runs(v.taints);
        lemma_flat_push(seq![i], cleanup_plan(v.taints));
        assert(seq![i].push(cleanup_plan(v.taints)) =~= m);
        lemma_all_runs_add(i, cleanup_plan(v.taints));
    }
    let c = cleanup_plan(v.taints + taints_of(flat(m)));
    lemma_cleanup_runs(v.taints + taints_of(flat(m)));
    lemma_flat_push(m, c);
    lemma_all_runs_add(flat(m), c);
}

/// A command that answers with commands answers, on success, with exactly the
/// commands it handed to the compositor, in order, each carried out.
pub proof fn law_result_lists_commands(
    before: WorkspacesView,
    after: WorkspacesView,
    command: Command,
    arg: Option<Seq<char>>,
    result: Seq<Seq<char>>,
)
    requires
        answers_with_commands(command, arg),
        performed_stages(before, after, userinput_plan(before, command, arg), Some(result)),
    ensures
        after.log == before.log + accepted(result),
{
    let items = flat(userinput_plan(before, command, arg));
    lemma_main_items_runs(before, command, arg);
    lemma_texts_of_runs(items);
    let new = after.log.skip(before.log.len() as int);
    assert(carried_out(before.log, before.taints, after.log, after.taints, items, Some(result)));
    assert(payloads(new) == result);
    assert(new =~= accepted(result)) by {
        assert forall|k: int| 0 <= k < new.len() implies new[k] == accepted(result)[k] by {
            assert(payloads(new)[k] == new[k].0);
            assert(new[k].1);
        }
    }
}

/// A command that prints, or a rofi command without an argument, hands
/// nothing to the compositor where no renamed name waits to be renamed back,
/// and succeeds.
pub proof fn law_printing_sends_nothing(
    before: WorkspacesView,
    after: WorkspacesView,
    command: Command,
    arg: Option<Seq<char>>,
    outcome: Option<Seq<Seq<char>>>,
)
    requires
        !answers_with_commands(command, arg),
        before.taints.len() == 0,
        performed_stages(before, after, userinput_plan(before, command, arg), outcome),
    ensures
        after.log == before.log,
        outcome is Some,
{
    let i = main_items(before, command, arg);
    let m = main_plan(before, command, arg);
    assert(m =~= seq![i]);
    crate::plan::lemma_single(i[0]);
    assert(i =~= seq![i[0]]);
    lemma_flat_push(Seq::empty(), i);
    assert(Seq::<Seq<PlanItem>>::empty().push(i) =~= seq![i]);
    assert(flat(Seq::<Seq<PlanItem>>::empty()) =~= Seq::<PlanItem>::empty());
    assert(flat(m) =~= i);
    assert(taints_of(i) =~= Seq::<(Seq<char>, Seq<char>)>::empty());
    assert(before.taints + taints_of(flat(m)) =~= Seq::<(Seq<char>, Seq<char>)>::empty());
    let c = cleanup_plan(before.taints + taints_of(flat(m)));
    assert(c =~= Seq::<PlanItem>::empty());
    let u = userinput_plan(before, command, arg);
    lemma_flat_push(m, c);
    assert(flat(u) =~= i);
    assert(runs(i) =~= Seq::<Seq<char>>::empty()) by {
        assert(i.drop_last() =~= Seq::<PlanItem>::empty());
    }
    match outcome {
        Some(t) => {
            let new = after.log.skip(before.log.len() as int);
            assert(new.len() == 0);
            assert(after.log =~= before.log);
        },
        None => {
            let k = choose|k: int|
                #![trigger u.take(k + 1)]
                0 <= k < u.len() && carried_out(
                    before.log,
                    before.taints,
                    after.log,
                    after.taints,
                    flat(u.take(k + 1)),
                    None,
                ) && all_accepted(
                    after.log.skip(before.log.len() as int).take(runs(flat(u.take(k))).len() as int),
                );
            if k == 0 {
                assert(u.take(1) =~= m);
            } else {
                assert(u.take(k + 1) =~= u);
            }
            assert(false);
        },
    }
}

/// The cleanup renames back every name that was given in place of a wanted
/// one, one zero width space at a time: for each space the guard appended, the
/// name with it goes back to the name without it. Where one space was
/// appended, the given name goes back to the wanted one.
pub proof fn law_cleanup_renames_back(names: Seq<Seq<char>>, desired: Seq<char>)
    ensures
        cleanup_plan(guard(names, desired).1).len() == guard(names, desired).1.len(),
        forall|i: int|
            0 <= i < guard(names, desired).1.len() ==> #[trigger] cleanup_plan(
                guard(names, desired).1,
            )[i] == run(
                rename_cmd(
                    with_zero_width_spaces(desired, (i + 1) as nat),
                    with_zero_width_spaces(desired, i as nat),
                ),
            ),
        guard(names, desired).1.len() == 1 ==> cleanup_plan(guard(names, desired).1) == seq![
            run(rename_cmd(guard(names, desired).0, desired)),
        ],
{
    lemma_guard(names, desired);
    let g = guard(names, desired);
    assert forall|i: int| 0 <= i < g.1.len() implies #[trigger] cleanup_plan(g.1)[i] == run(
        rename_cmd(
            with_zero_width_spaces(desired, (i + 1) as nat),
            with_zero_width_spaces(desired, i as nat),
        ),
    ) by {
        assert(g.1[i] == (
            with_zero_width_spaces(desired, i as nat),
            with_zero_width_spaces(desired, (i + 1) as nat),
        ));
    }
    if g.1.len() == 1 {
        assert(with_zero_width_spaces(desired, 0) =~= desired);
        assert(cleanup_plan(g.1)[0] == run(rename_cmd(g.0, desired)));
        assert(cleanup_plan(g.1) =~= seq![run(rename_cmd(g.0, desired))]);
    }
}


proof fn lemma_least_free(s: Seq<WorkspaceView>, k: nat)
    requires
        adjacent_base(s).1 < k,
        !number_taken(s, adjacent_base(s).0, k),
    ensures
        is_adjacent_free(s, adjacent_free(s)),
        adjacent_free(s) <= k,
    decreases k - adjacent_base(s).1,
{
    let (from, base) = adjacent_base(s);
    if exists|m: nat| base < m < k && !number_taken(s, from, m) {
        let m = choose|m: nat| base < m < k && !number_taken(s, from, m);
        lemma_least_free(s, m);
    } else {
        assert(is_adjacent_free(s, k));
        let c = adjacent_free(s);
        assert(is_adjacent_free(s, c));
        if c > k {
            assert(number_taken(s, from, k));
        }
    }
}

/// `rofi_move_window` with a name that starts with no number moves the
/// focused container to a workspace named by the least number above the
/// focused workspace's that no workspace from the focused one on carries,
/// followed by the name; that name reads as the number.
pub proof fn law_rofi_move_to_free_number(v: WorkspacesView, x: Seq<char>)
    requires
        starting_number(x) is None,
        adjacent_defined(v.same),
    ensures
        main_items(v, Command::RofiMoveWindow, Some(x)) == seq![run(move_cmd(rofi_target(v, x)))],
        rofi_target(v, x) == decimal(adjacent_free(v.same)) + seq![' '] + x,
        is_adjacent_free(v.same, adjacent_free(v.same)),
        adjacent_free(v.same) <= usize::MAX,
        reads_as(rofi_target(v, x), adjacent_free(v.same)),
{
    let (from, base) = adjacent_base(v.same);
    let k = choose|k: nat| base < k <= usize::MAX && !number_taken(v.same, from, k);
    lemma_least_free(v.same, k);
    let n = adjacent_free(v.same);
    let t = seq![' '] + x;
    assert(rofi_target(v, x) =~= decimal(n) + t);
    assert(t[0] == ' ');
    assert forall|number: Seq<char>| #[trigger] is_number_cut(rofi_target(v, x), number) implies parse_unsigned(
        number,
        usize::MAX as nat,
    ) == Some(n) by {
        lemma_cut_of_decimal(n, t, number);
    }
}


/// The index of the workspace that `next` selects: the one after the focused
/// one, or the first after the last.
pub open spec fn next_index(v: WorkspacesView) -> nat {
    if v.focused_index + 1 < v.same.len() {
        (v.focused_index + 1) as nat
    } else {
        0
    }
}

/// The index of the workspace that `prev` selects: the one before the focused
/// one, or the last before the first.
pub open spec fn prev_index(v: WorkspacesView) -> nat {
    if v.focused_index >= 1 {
        (v.focused_index - 1) as nat
    } else {
        (v.same.len() - 1) as nat
    }
}

/// Stepping to the next workspace of the focused screen and then back to the
/// previous one returns to the workspace one started from, and so does
/// stepping back and then on.
pub proof fn law_next_then_prev_returns(v: WorkspacesView)
    requires
        wf_view(v),
        v.same.len() > 0,
    ensures
        main_items(v, Command::Next, None) == seq![
            run(select_cmd(v.same[next_index(v) as int].basename)),
        ],
        main_items(v, Command::Prev, None) == seq![
            run(select_cmd(v.same[prev_index(v) as int].basename)),
        ],
        prev_index(WorkspacesView { focused_index: next_index(v), ..v }) == v.focused_index,
        next_index(WorkspacesView { focused_index: prev_index(v), ..v }) == v.focused_index,
{
}


/// `swap_with_next` exchanges the focused workspace with the one right after
/// it on the focused screen; only the last one is exchanged with the first.
/// `swap_with_prev` exchanges it with the one right before it; only the first
/// one is exchanged with the last.
pub proof fn law_swap_partners(v: WorkspacesView, arg: Option<Seq<char>>)
    requires
        wf_view(v),
        v.same.len() > 0,
    ensures
        v.focused_index + 1 < v.same.len() ==> main_items(v, Command::SwapWithNext, arg)
            == swap_plan(
            all_names(v),
            v.same[v.focused_index as int],
            v.same[v.focused_index + 1int],
        ),
        v.focused_index + 1 == v.same.len() ==> main_items(v, Command::SwapWithNext, arg)
            == swap_plan(all_names(v), v.same[v.focused_index as int], v.same[0]),
        v.focused_index >= 1 ==> main_items(v, Command::SwapWithPrev, arg) == swap_plan(
            all_names(v),
            v.same[v.focused_index - 1int],
            v.same[v.focused_index as int],
        ),
        v.focused_index == 0 ==> main_items(v, Command::SwapWithPrev, arg) == swap_plan(
            all_names(v),
            v.same[v.same.len() - 1],
            v.same[0],
        ),
{
}

/// `next` selects the workspace right after the focused one on the focused
/// screen; after the last one, the first workspace of the other screens where
/// an argument is given and they hold one, else the first of the focused
/// screen. `prev` selects the one right before; before the first one, the last
/// workspace of the other screens where an argument is given and they hold
/// one, else the last of the focused screen.
pub proof fn law_next_and_prev_targets(v: WorkspacesView, arg: Option<Seq<char>>)
    requires
        wf_view(v),
        v.same.len() > 0,
    ensures
        v.focused_index + 1 < v.same.len() ==> main_items(v, Command::Next, arg) == seq![
            run(select_cmd(v.same[v.focused_index + 1int].basename)),
        ],
        v.focused_index + 1 == v.same.len() && arg is Some && v.other.len() > 0 ==> main_items(
            v,
            Command::Next,
            arg,
        ) == seq![run(select_cmd(v.other[0].basename))],
        v.focused_index + 1 == v.same.len() && (arg is None || v.other.len() == 0) ==> main_items(
            v,
            Command::Next,
            arg,
        ) == seq![run(select_cmd(v.same[0].basename))],
        v.focused_index >= 1 ==> main_items(v, Command::Prev, arg) == seq![
            run(select_cmd(v.same[v.focused_index - 1int].basename)),
        ],
        v.focused_index == 0 && arg is Some && v.other.len() > 0 ==> main_items(
            v,
            Command::Prev,
            arg,
        ) == seq![run(select_cmd(v.other[v.other.len() - 1].basename))],
        v.focused_index == 0 && (arg is None || v.other.len() == 0) ==> main_items(
            v,
            Command::Prev,
            arg,
        ) == seq![run(select_cmd(v.same[v.same.len() - 1].basename))],
{
}

/// `number` and `move_container_to_workspace_number` act on the whole number
/// that their argument reads as, as `str::parse` reads it.
pub proof fn law_number_argument(v: WorkspacesView, x: Seq<char>, n: nat)
    requires
        parse_unsigned(x, usize::MAX as nat) == Some(n),
    ensures
        main_items(v, Command::Number, Some(x)) == number_select_plan(v, n),
        main_items(v, Command::MoveContainerToWorkspaceNumber, Some(x)) == number_move_plan(v, n),
{
}

/// `print_focused_name` prints one line, the name of the focused workspace
/// without its number; `print_focused_number` prints one line, which reads
/// back as the focused workspace's number.
pub proof fn law_printed_focus(v: WorkspacesView, arg: Option<Seq<char>>)
    requires
        wf_view(v),
        v.same.len() > 0,
        v.same[v.focused_index as int].number <= usize::MAX,
    ensures
        printout(v, Command::PrintFocusedName, arg) == seq![v.same[v.focused_index as int].name],
        printout(v, Command::PrintFocusedNumber, arg).len() == 1,
        parse_unsigned(printout(v, Command::PrintFocusedNumber, arg)[0], usize::MAX as nat) == Some(
            v.same[v.focused_index as int].number,
        ),
{
    crate::text::lemma_decimal_parses(v.same[v.focused_index as int].number, usize::MAX as nat);
}

/// The rofi commands without an argument print the full name of every
/// workspace, once each: first those of the focused screen, in order, then
/// those of the other screens, in order. With an argument they print nothing.
pub proof fn law_rofi_lists_all(v: WorkspacesView, arg: Option<Seq<char>>)
    ensures
        printout(v, Command::RofiSelectWorkspace, None) == printout(
            v,
            Command::RofiMoveWindow,
            None,
        ),
        printout(v, Command::RofiSelectWorkspace, None).len() == v.same.len() + v.other.len(),
        forall|i: int|
            0 <= i < v.same.len() ==> #[trigger] printout(v, Command::RofiSelectWorkspace, None)[i]
                == v.same[i].basename,
        forall|j: int|
            0 <= j < v.other.len() ==> #[trigger] printout(v, Command::RofiSelectWorkspace, None)[v.same.len()
                + j] == v.other[j].basename,
        arg is Some ==> printout(v, Command::RofiSelectWorkspace, arg).len() == 0 && printout(
            v,
            Command::RofiMoveWindow,
            arg,
        ).len() == 0,
{
    let p = printout(v, Command::RofiSelectWorkspace, None);
    assert forall|i: int| 0 <= i < v.same.len() implies #[trigger] p[i] == v.same[i].basename by {
        assert((v.same + v.other)[i] == v.same[i]);
    }
    assert forall|j: int| 0 <= j < v.other.len() implies #[trigger] p[v.same.len() + j]
        == v.other[j].basename by {
        assert((v.same + v.other)[v.same.len() + j] == v.other[j]);
    }
}

} // verus!
