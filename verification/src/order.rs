//! The order in which workspaces are listed.
use std::cmp::Ordering;
use vstd::prelude::*;
use crate::fragments::starting_number;
use crate::ipcadapter::{same_workspace, MockWorkspace};
use crate::workspaces::extract_starting_number;

verus! {

/// The order of `str::cmp` on texts: character by character, a proper prefix
/// first.
pub open spec fn lex_order(a: Seq<char>, b: Seq<char>) -> Ordering
    decreases a.len(),
{
    if a.len() == 0 {
        if b.len() == 0 {
            Ordering::Equal
        } else {
            Ordering::Less
        }
    } else if b.len() == 0 {
        Ordering::Greater
    } else if a[0] < b[0] {
        Ordering::Less
    } else if a[0] > b[0] {
        Ordering::Greater
    } else {
        lex_order(a.drop_first(), b.drop_first())
    }
}

/// The order of workspace names: names without a leading number first, in
/// text order; then numbered names by their number, and by text where the
/// numbers are equal.
pub open spec fn workspace_order(a: Seq<char>, b: Seq<char>) -> Ordering {
    match (starting_number(a), starting_number(b)) {
        (Some(n1), Some(n2)) => if n1 < n2 {
            Ordering::Less
        } else if n1 > n2 {
            Ordering::Greater
        } else {
            lex_order(a, b)
        },
        (Some(_), None) => Ordering::Greater,
        (None, Some(_)) => Ordering::Less,
        (None, None) => lex_order(a, b),
    }
}

/// `a` is to be listed after `b`.
pub open spec fn goes_after(a: MockWorkspace, b: MockWorkspace) -> bool {
    workspace_order(a.name@, b.name@) == Ordering::Greater
}

/// `x` inserted into `s` behind every element that does not go after it.
pub open spec fn insert_sorted(s: Seq<MockWorkspace>, x: MockWorkspace) -> Seq<MockWorkspace>
    decreases s.len(),
{
    if s.len() == 0 {
        seq![x]
    } else if goes_after(s.last(), x) {
        insert_sorted(s.drop_last(), x).push(s.last())
    } else {
        s.push(x)
    }
}

/// `s` in workspace order, as the stable `sort_by` with `sort_ipcworkspace`
/// lists it: each element is inserted in turn behind the elements before it
/// that do not go after it.
pub open spec fn sorted_workspaces(s: Seq<MockWorkspace>) -> Seq<MockWorkspace>
    decreases s.len(),
{
    if s.len() == 0 {
        s
    } else {
        insert_sorted(sorted_workspaces(s.drop_last()), s.last())
    }
}

/// `s` from position `i` on.
pub open spec fn tail(s: Seq<char>, i: usize) -> Seq<char> {
    s.subrange(i as int, s.len() as int)
}

proof fn lemma_tail_whole(s: Seq<char>)
    ensures
        tail(s, 0) == s,
{
    assert(s.subrange(0, s.len() as int) =~= s);
}

proof fn lemma_tail_step(s: Seq<char>, i: usize)
    requires
        i < s.len(),
        i < usize::MAX,
    ensures
        tail(s, i).len() > 0,
        tail(s, i)[0] == s[i as int],
        tail(s, i).drop_first() == tail(s, (i + 1) as usize),
{
    assert(tail(s, i).drop_first() =~= tail(s, (i + 1) as usize));
}

/// `a.cmp(b)` on texts.
pub fn compare_names(a: &str, b: &str) -> (r: Ordering)
    ensures
        r == lex_order(a@, b@),
{
    let n = a.unicode_len();
    let m = b.unicode_len();
    let mut i: usize = 0;
    proof {
        lemma_tail_whole(a@);
        lemma_tail_whole(b@);
    }
    while i < n && i < m && a.get_char(i) == b.get_char(i)
        invariant
            n == a@.len(),
            m == b@.len(),
            i <= n,
            i <= m,
            lex_order(a@, b@) == lex_order(tail(a@, i), tail(b@, i)),
        decreases n - i,
    {
        proof {
            lemma_tail_step(a@, i);
            lemma_tail_step(b@, i);
        }
        i = i + 1;
    }
    proof {
        if i < n {
            lemma_tail_step(a@, i);
        }
        if i < m {
            lemma_tail_step(b@, i);
        }
    }
    if i == n {
        if i == m {
            Ordering::Equal
        } else {
            Ordering::Less
        }
    } else if i == m {
        Ordering::Greater
    } else if a.get_char(i) < b.get_char(i) {
        Ordering::Less
    } else {
        Ordering::Greater
    }
}

/// Compares two workspaces by their names in workspace order.
pub fn sort_ipcworkspace(workspace1: &MockWorkspace, workspace2: &MockWorkspace) -> (r: Ordering)
    ensures
        r == workspace_order(workspace1.name@, workspace2.name@),
{
    match (
        extract_starting_number(workspace1.name.as_str()),
        extract_starting_number(workspace2.name.as_str()),
    ) {
        (Some(number1), Some(number2)) => {
            if number1 < number2 {
                Ordering::Less
            } else if number1 > number2 {
                Ordering::Greater
            } else {
                compare_names(workspace1.name.as_str(), workspace2.name.as_str())
            }
        },
        (Some(_num), None) => Ordering::Greater,
        (None, Some(_num)) => Ordering::Less,
        (None, None) => compare_names(workspace1.name.as_str(), workspace2.name.as_str()),
    }
}

fn is_after(a: &MockWorkspace, b: &MockWorkspace) -> (r: bool)
    ensures
        r == goes_after(*a, *b),
{
    match sort_ipcworkspace(a, b) {
        Ordering::Greater => true,
        _ => false,
    }
}

proof fn lemma_insert_at(s: Seq<MockWorkspace>, x: MockWorkspace, j: int)
    requires
        0 <= j <= s.len(),
        forall|k: int| j <= k < s.len() ==> goes_after(#[trigger] s[k], x),
        j > 0 ==> !goes_after(s[j - 1], x),
    ensures
        insert_sorted(s, x) == s.insert(j, x),
    decreases s.len(),
{
    if s.len() == j {
        if j == 0 {
            assert(s.insert(j, x) =~= seq![x]);
        } else {
            assert(s.last() == s[j - 1]);
            assert(s.insert(j, x) =~= s.push(x));
        }
    } else {
        let t = s.drop_last();
        assert(goes_after(s[s.len() - 1], x));
        assert forall|k: int| j <= k < t.len() implies goes_after(#[trigger] t[k], x) by {
            assert(t[k] == s[k]);
        }
        if j > 0 {
            assert(t[j - 1] == s[j - 1]);
        }
        lemma_insert_at(t, x, j);
        assert(t.insert(j, x).push(s.last()) =~= s.insert(j, x));
    }
}

/// No element of `s` goes after an element that follows it.
pub open spec fn in_workspace_order(s: Seq<MockWorkspace>) -> bool {
    forall|i: int, j: int| 0 <= i < j < s.len() ==> !goes_after(#[trigger] s[i], #[trigger] s[j])
}

proof fn lemma_lex_flip(a: Seq<char>, b: Seq<char>)
    ensures
        lex_order(a, b) == Ordering::Greater ==> lex_order(b, a) == Ordering::Less,
    decreases a.len(),
{
    if a.len() > 0 && b.len() > 0 && a[0] == b[0] {
        lemma_lex_flip(a.drop_first(), b.drop_first());
    }
}

proof fn lemma_lex_trans(a: Seq<char>, b: Seq<char>, c: Seq<char>)
    ensures
        lex_order(a, b) != Ordering::Greater && lex_order(b, c) != Ordering::Greater
            ==> lex_order(a, c) != Ordering::Greater,
    decreases a.len(),
{
    if a.len() > 0 && b.len() > 0 && c.len() > 0 && a[0] == b[0] && b[0] == c[0] {
        lemma_lex_trans(a.drop_first(), b.drop_first(), c.drop_first());
    }
}

proof fn lemma_order_flip(a: MockWorkspace, b: MockWorkspace)
    ensures
        goes_after(a, b) ==> !goes_after(b, a),
{
    lemma_lex_flip(a.name@, b.name@);
}

proof fn lemma_order_trans(a: MockWorkspace, b: MockWorkspace, c: MockWorkspace)
    ensures
        !goes_after(a, b) && !goes_after(b, c) ==> !goes_after(a, c),
{
    lemma_lex_trans(a.name@, b.name@, c.name@);
}

proof fn lemma_insert_sorted(s: Seq<MockWorkspace>, x: MockWorkspace)
    requires
        in_workspace_order(s),
    ensures
        in_workspace_order(insert_sorted(s, x)),
        insert_sorted(s, x).to_multiset() == s.to_multiset().insert(x),
    decreases s.len(),
{
    broadcast use vstd::seq_lib::group_to_multiset_ensures;

    if s.len() == 0 {
        assert(seq![x] =~= Seq::<MockWorkspace>::empty().push(x));
    } else if goes_after(s.last(), x) {
        let t = s.drop_last();
        let last = s.last();
        assert(in_workspace_order(t)) by {
            assert forall|i: int, j: int| 0 <= i < j < t.len() implies !goes_after(
                #[trigger] t[i],
                #[trigger] t[j],
            ) by {
                assert(t[i] == s[i] && t[j] == s[j]);
            }
        }
        lemma_insert_sorted(t, x);
        let u = insert_sorted(t, x);
        assert(s =~= t.push(last));
        assert forall|i: int| 0 <= i < u.len() implies !goes_after(#[trigger] u[i], last) by {
            assert(u.contains(u[i]));
            assert(u.to_multiset().count(u[i]) > 0);
            if u[i] == x {
                lemma_order_flip(last, x);
            } else {
                assert(t.to_multiset().count(u[i]) > 0);
                assert(t.contains(u[i]));
                let k = choose|k: int| 0 <= k < t.len() && t[k] == u[i];
                assert(s[k] == t[k] && s[s.len() - 1] == last);
            }
        }
        let r = u.push(last);
        assert forall|i: int, j: int| 0 <= i < j < r.len() implies !goes_after(
            #[trigger] r[i],
            #[trigger] r[j],
        ) by {
            assert(r[i] == u[i]);
            if j < u.len() {
                assert(r[j] == u[j]);
            }
        }
    } else {
        let last = s.last();
        let r = s.push(x);
        assert forall|i: int, j: int| 0 <= i < j < r.len() implies !goes_after(
            #[trigger] r[i],
            #[trigger] r[j],
        ) by {
            assert(r[i] == s[i]);
            if j < s.len() {
                assert(r[j] == s[j]);
            } else if i < s.len() - 1 {
                assert(!goes_after(s[i], s[s.len() - 1]));
                lemma_order_trans(s[i], last, x);
            }
        }
    }
}

/// Sorting keeps every workspace, as often as it occurs, and lists them in
/// workspace order: none goes after one that follows it.
pub proof fn lemma_sorted_workspaces(s: Seq<MockWorkspace>)
    ensures
        in_workspace_order(sorted_workspaces(s)),
        sorted_workspaces(s).to_multiset() == s.to_multiset(),
    decreases s.len(),
{
    broadcast use vstd::seq_lib::group_to_multiset_ensures;

    if s.len() > 0 {
        lemma_sorted_workspaces(s.drop_last());
        lemma_insert_sorted(sorted_workspaces(s.drop_last()), s.last());
        assert(s =~= s.drop_last().push(s.last()));
    }
}

/// The two lists report the same workspaces, in the same order.
pub open spec fn same_workspaces(s: Seq<MockWorkspace>, t: Seq<MockWorkspace>) -> bool {
    s.len() == t.len() && forall|i: int| 0 <= i < s.len() ==> same_workspace(#[trigger] s[i], t[i])
}

proof fn lemma_insert_sorted_same(s: Seq<MockWorkspace>, t: Seq<MockWorkspace>, x: MockWorkspace, y: MockWorkspace)
    requires
        same_workspaces(s, t),
        same_workspace(x, y),
    ensures
        same_workspaces(insert_sorted(s, x), insert_sorted(t, y)),
    decreases s.len(),
{
    if s.len() > 0 {
        let n = s.len() - 1;
        assert(same_workspace(s[n], t[n]));
        assert(s.last() == s[n] && t.last() == t[n]);
        let s1 = s.drop_last();
        let t1 = t.drop_last();
        assert forall|i: int| 0 <= i < s1.len() implies same_workspace(#[trigger] s1[i], t1[i]) by {
            assert(s1[i] == s[i] && t1[i] == t[i]);
        }
        if goes_after(s.last(), x) {
            lemma_insert_sorted_same(s1, t1, x, y);
            let a = insert_sorted(s1, x);
            let b = insert_sorted(t1, y);
            assert forall|i: int| 0 <= i < a.push(s.last()).len() implies same_workspace(
                #[trigger] a.push(s.last())[i],
                b.push(t.last())[i],
            ) by {
                if i < a.len() {
                    assert(a.push(s.last())[i] == a[i] && b.push(t.last())[i] == b[i]);
                }
            }
        } else {
            assert forall|i: int| 0 <= i < s.push(x).len() implies same_workspace(
                #[trigger] s.push(x)[i],
                t.push(y)[i],
            ) by {
                if i < s.len() {
                    assert(s.push(x)[i] == s[i] && t.push(y)[i] == t[i]);
                }
            }
        }
    } else {
        assert(seq![x][0] == x && seq![y][0] == y);
    }
}

/// Sorting lists that report the same workspaces lists the same workspaces.
pub proof fn lemma_sorted_same(s: Seq<MockWorkspace>, t: Seq<MockWorkspace>)
    requires
        same_workspaces(s, t),
    ensures
        same_workspaces(sorted_workspaces(s), sorted_workspaces(t)),
    decreases s.len(),
{
    if s.len() > 0 {
        let s1 = s.drop_last();
        let t1 = t.drop_last();
        assert forall|i: int| 0 <= i < s1.len() implies same_workspace(#[trigger] s1[i], t1[i]) by {
            assert(s1[i] == s[i] && t1[i] == t[i]);
        }
        lemma_sorted_same(s1, t1);
        assert(same_workspace(s[s.len() - 1], t[t.len() - 1]));
        lemma_insert_sorted_same(sorted_workspaces(s1), sorted_workspaces(t1), s.last(), t.last());
    }
}

/// `v` sorted stably in workspace order (`sort_by` with `sort_ipcworkspace`).
pub fn sort_workspaces(v: Vec<MockWorkspace>) -> (r: Vec<MockWorkspace>)
    ensures
        r@ == sorted_workspaces(v@),
        in_workspace_order(r@),
        r@.to_multiset() == v@.to_multiset(),
{
    let ghost orig = v@;
    let mut rest = v;
    let mut res: Vec<MockWorkspace> = Vec::new();
    let ghost mut k: int = 0;
    assert(orig.subrange(0, 0) =~= Seq::<MockWorkspace>::empty());
    assert(orig.subrange(0, orig.len() as int) =~= orig);
    while rest.len() > 0
        invariant
            0 <= k <= orig.len(),
            rest@ == orig.subrange(k, orig.len() as int),
            res@ == sorted_workspaces(orig.subrange(0, k)),
        decreases rest.len(),
    {
        let x = rest.remove(0);
        let mut j = res.len();
        while j > 0 && is_after(&res[j - 1], &x)
            invariant
                j <= res@.len(),
                forall|m: int| j <= m < res@.len() ==> goes_after(#[trigger] res@[m], x),
            decreases j,
        {
            j = j - 1;
        }
        proof {
            lemma_insert_at(res@, x, j as int);
            let p = orig.subrange(0, k + 1);
            assert(p.drop_last() =~= orig.subrange(0, k));
            assert(p.last() == x);
        }
        res.insert(j, x);
        proof {
            k = k + 1;
            assert(rest@ =~= orig.subrange(k, orig.len() as int));
        }
    }
    assert(orig.subrange(0, k) =~= orig);
    proof {
        lemma_sorted_workspaces(orig);
    }
    res
}

} // verus!
