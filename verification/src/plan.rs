//! What an operation hands to the compositor, as a sequence of steps, and what
//! it means for an operation to have carried such a sequence out.
use vstd::prelude::*;
use crate::ipcadapter::IpcResult;

verus! {

/// Pairs of a name that was wanted and the name that was given in its place.
pub type Taints = Seq<(Seq<char>, Seq<char>)>;

/// One step of an operation: a command handed to the connection (after the
/// given pairs were recorded), or a line of text returned without a command.
pub enum PlanItem {
    Run { payload: Seq<char>, taints: Taints },
    Note { text: Seq<char> },
}

/// A command step that records nothing.
pub open spec fn run(payload: Seq<char>) -> PlanItem {
    PlanItem::Run { payload, taints: seq![] }
}

/// The text that a step contributes to the result.
pub open spec fn item_text(item: PlanItem) -> Seq<char> {
    match item {
        PlanItem::Run { payload, .. } => payload,
        PlanItem::Note { text } => text,
    }
}

/// The texts of the steps, in order.
pub open spec fn texts(items: Seq<PlanItem>) -> Seq<Seq<char>> {
    items.map_values(|item: PlanItem| item_text(item))
}

/// The commands of the steps, in order.
pub open spec fn runs(items: Seq<PlanItem>) -> Seq<Seq<char>>
    decreases items.len(),
{
    if items.len() == 0 {
        seq![]
    } else {
        runs(items.drop_last()) + match items.last() {
            PlanItem::Run { payload, .. } => seq![payload],
            PlanItem::Note { .. } => seq![],
        }
    }
}

/// The pairs that the steps record, in order.
pub open spec fn taints_of(items: Seq<PlanItem>) -> Taints
    decreases items.len(),
{
    if items.len() == 0 {
        seq![]
    } else {
        taints_of(items.drop_last()) + match items.last() {
            PlanItem::Run { taints, .. } => taints,
            PlanItem::Note { .. } => seq![],
        }
    }
}

/// The texts of a successful result, or `None` for an error.
pub open spec fn result_texts(r: IpcResult) -> Option<Seq<Seq<char>>> {
    match r {
        Ok(v) => Some(v@.map_values(|s: String| s@)),
        Err(_) => None,
    }
}

/// The commands handed to the connection, each with whether it was carried
/// out.
pub type Log = Seq<(Seq<char>, bool)>;

/// `cmds`, each carried out.
pub open spec fn accepted(cmds: Seq<Seq<char>>) -> Log {
    cmds.map_values(|c: Seq<char>| (c, true))
}

/// The commands of a log.
pub open spec fn payloads(log: Log) -> Seq<Seq<char>> {
    log.map_values(|e: (Seq<char>, bool)| e.0)
}

/// Every command of `log` was carried out.
pub open spec fn all_accepted(log: Log) -> bool {
    forall|i: int| 0 <= i < log.len() ==> #[trigger] log[i].1
}

/// Going from the log `log0` and the pairs `taints0` to `log1` and `taints1`
/// carried out every step of `items`: each command was handed to the
/// connection and logged with its reply, and the pairs were recorded. The
/// outcome is the steps' texts where every command was carried out, and an
/// error where one was refused.
pub open spec fn carried_out(
    log0: Log,
    taints0: Taints,
    log1: Log,
    taints1: Taints,
    items: Seq<PlanItem>,
    outcome: Option<Seq<Seq<char>>>,
) -> bool {
    let new = log1.skip(log0.len() as int);
    &&& log0.len() <= log1.len()
    &&& log1 == log0 + new
    &&& payloads(new) == runs(items)
    &&& taints1 == taints0 + taints_of(items)
    &&& match outcome {
        Some(t) => all_accepted(new) && t == texts(items),
        None => !all_accepted(new),
    }
}

/// The steps of all stages, in order.
pub open spec fn flat(stages: Seq<Seq<PlanItem>>) -> Seq<PlanItem>
    decreases stages.len(),
{
    if stages.len() == 0 {
        seq![]
    } else {
        flat(stages.drop_last()) + stages.last()
    }
}

/// Going from `log0` and `taints0` to `log1` and `taints1` carried out the
/// `stages` one after the other, each in full, and stopped after the first
/// stage in which a command was refused: on success every stage was carried
/// out and the result holds all texts; on an error the stages up to one were
/// carried out, all commands before that stage were carried out, and one of
/// its commands was refused.
pub open spec fn carried_out_stages(
    log0: Log,
    taints0: Taints,
    log1: Log,
    taints1: Taints,
    stages: Seq<Seq<PlanItem>>,
    outcome: Option<Seq<Seq<char>>>,
) -> bool {
    match outcome {
        Some(t) => carried_out(log0, taints0, log1, taints1, flat(stages), Some(t)),
        None => exists|k: int|
            #![trigger stages.take(k + 1)]
            0 <= k < stages.len() && carried_out(
                log0,
                taints0,
                log1,
                taints1,
                flat(stages.take(k + 1)),
                None,
            ) && all_accepted(
                log1.skip(log0.len() as int).take(runs(flat(stages.take(k))).len() as int),
            ),
    }
}

/// The outcome of a success followed by `second`.
pub open spec fn then_outcome(
    first: Seq<Seq<char>>,
    second: Option<Seq<Seq<char>>>,
) -> Option<Seq<Seq<char>>> {
    match second {
        Some(t) => Some(first + t),
        None => None,
    }
}

/// The outcome of `a` and `b` both carried out in full.
pub open spec fn both_outcome(
    a: Option<Seq<Seq<char>>>,
    b: Option<Seq<Seq<char>>>,
) -> Option<Seq<Seq<char>>> {
    match (a, b) {
        (Some(x), Some(y)) => Some(x + y),
        _ => None,
    }
}

pub proof fn lemma_runs_add(a: Seq<PlanItem>, b: Seq<PlanItem>)
    ensures
        runs(a + b) == runs(a) + runs(b),
        taints_of(a + b) == taints_of(a) + taints_of(b),
        texts(a + b) == texts(a) + texts(b),
    decreases b.len(),
{
    if b.len() == 0 {
        assert(a + b =~= a);
        assert(runs(b) =~= seq![]);
        assert(runs(a) + runs(b) =~= runs(a));
        assert(taints_of(a) + taints_of(b) =~= taints_of(a));
    } else {
        lemma_runs_add(a, b.drop_last());
        assert((a + b).drop_last() =~= a + b.drop_last());
        assert((a + b).last() == b.last());
        assert(runs(a + b) =~= runs(a) + runs(b));
        assert(taints_of(a + b) =~= taints_of(a) + taints_of(b));
    }
    assert(texts(a + b) =~= texts(a) + texts(b));
}

pub proof fn lemma_single(item: PlanItem)
    ensures
        runs(seq![item]) == match item {
            PlanItem::Run { payload, .. } => seq![payload],
            PlanItem::Note { .. } => Seq::<Seq<char>>::empty(),
        },
        taints_of(seq![item]) == match item {
            PlanItem::Run { taints, .. } => taints,
            PlanItem::Note { .. } => Seq::<(Seq<char>, Seq<char>)>::empty(),
        },
        texts(seq![item]) == seq![item_text(item)],
{
    assert(seq![item].drop_last() =~= Seq::<PlanItem>::empty());
    assert(runs(seq![item]) =~= runs(Seq::<PlanItem>::empty()) + match item {
        PlanItem::Run { payload, .. } => seq![payload],
        PlanItem::Note { .. } => Seq::<Seq<char>>::empty(),
    });
    assert(taints_of(seq![item]) =~= taints_of(Seq::<PlanItem>::empty()) + match item {
        PlanItem::Run { taints, .. } => taints,
        PlanItem::Note { .. } => Seq::<(Seq<char>, Seq<char>)>::empty(),
    });
    assert(texts(seq![item]) =~= seq![item_text(item)]);
}

/// The pairs that one step records.
pub open spec fn item_taints(item: PlanItem) -> Taints {
    match item {
        PlanItem::Run { taints, .. } => taints,
        PlanItem::Note { .. } => seq![],
    }
}

/// Steps that record no pairs record none together.
pub proof fn lemma_untainted(items: Seq<PlanItem>)
    requires
        forall|i: int| 0 <= i < items.len() ==> item_taints(#[trigger] items[i]) == Seq::<
            (Seq<char>, Seq<char>),
        >::empty(),
    ensures
        taints_of(items) == Seq::<(Seq<char>, Seq<char>)>::empty(),
    decreases items.len(),
{
    if items.len() > 0 {
        let t = items.drop_last();
        assert forall|i: int| 0 <= i < t.len() implies item_taints(#[trigger] t[i]) == Seq::<
            (Seq<char>, Seq<char>),
        >::empty() by {
            assert(t[i] == items[i]);
        }
        lemma_untainted(t);
        assert(item_taints(items[items.len() - 1]) == Seq::<(Seq<char>, Seq<char>)>::empty());
        assert(taints_of(items) =~= Seq::<(Seq<char>, Seq<char>)>::empty());
    }
}

/// Doing nothing carries out the empty plan.
pub proof fn lemma_nothing(log: Log, taints: Taints)
    ensures
        carried_out(log, taints, log, taints, seq![], Some(seq![])),
{
    assert(texts(seq![]) =~= seq![]);
    assert(log.skip(log.len() as int) =~= Seq::<(Seq<char>, bool)>::empty());
    assert(log + log.skip(log.len() as int) =~= log);
    assert(payloads(log.skip(log.len() as int)) =~= runs(seq![]));
    assert(taints + taints_of(seq![]) =~= taints);
}

proof fn lemma_skip_add(l0: Log, new: Log)
    ensures
        (l0 + new).skip(l0.len() as int) == new,
{
    assert((l0 + new).skip(l0.len() as int) =~= new);
}

/// Carrying out `a` in full and then `b` in full carries out `a + b`.
pub proof fn lemma_batch_then(
    l0: Log,
    t0: Taints,
    l1: Log,
    t1: Taints,
    l2: Log,
    t2: Taints,
    a: Seq<PlanItem>,
    b: Seq<PlanItem>,
    oa: Option<Seq<Seq<char>>>,
    ob: Option<Seq<Seq<char>>>,
)
    requires
        carried_out(l0, t0, l1, t1, a, oa),
        carried_out(l1, t1, l2, t2, b, ob),
    ensures
        carried_out(l0, t0, l2, t2, a + b, both_outcome(oa, ob)),
{
    lemma_runs_add(a, b);
    let na = l1.skip(l0.len() as int);
    let nb = l2.skip(l1.len() as int);
    let n = na + nb;
    assert(l2 =~= l0 + n);
    lemma_skip_add(l0, n);
    assert(payloads(n) =~= payloads(na) + payloads(nb));
    assert(t2 =~= t0 + taints_of(a + b));
    if all_accepted(na) && all_accepted(nb) {
        assert forall|i: int| 0 <= i < n.len() implies #[trigger] n[i].1 by {
            if i < na.len() {
                assert(n[i] == na[i]);
            } else {
                assert(n[i] == nb[i - na.len()]);
            }
        }
    } else if !all_accepted(na) {
        let i = choose|i: int| 0 <= i < na.len() && !na[i].1;
        assert(n[i] == na[i]);
    } else {
        let i = choose|i: int| 0 <= i < nb.len() && !nb[i].1;
        assert(n[i + na.len()] == nb[i]);
    }
}

/// The stages up to the last one are those before it.
pub proof fn lemma_flat_push(stages: Seq<Seq<PlanItem>>, b: Seq<PlanItem>)
    ensures
        flat(stages.push(b)) == flat(stages) + b,
{
    assert(stages.push(b).drop_last() =~= stages);
}

/// Carrying out one stage.
pub proof fn lemma_one_stage(
    l0: Log,
    t0: Taints,
    l1: Log,
    t1: Taints,
    items: Seq<PlanItem>,
    o: Option<Seq<Seq<char>>>,
)
    requires
        carried_out(l0, t0, l1, t1, items, o),
    ensures
        carried_out_stages(l0, t0, l1, t1, seq![items], o),
{
    let st = seq![items];
    lemma_flat_push(Seq::empty(), items);
    assert(Seq::<Seq<PlanItem>>::empty().push(items) =~= st);
    assert(flat(Seq::<Seq<PlanItem>>::empty()) =~= Seq::<PlanItem>::empty());
    assert(flat(st) =~= items);
    if o is None {
        assert(st.take(0int + 1) =~= st);
        assert(st.take(0) =~= Seq::<Seq<PlanItem>>::empty());
        assert(l1.skip(l0.len() as int).take(0) =~= Seq::<(Seq<char>, bool)>::empty());
    }
}

/// A success with the stages `stages`, then a further stage `b`.
pub proof fn lemma_stage_then(
    l0: Log,
    t0: Taints,
    l1: Log,
    t1: Taints,
    l2: Log,
    t2: Taints,
    stages: Seq<Seq<PlanItem>>,
    b: Seq<PlanItem>,
    ta: Seq<Seq<char>>,
    ob: Option<Seq<Seq<char>>>,
)
    requires
        carried_out_stages(l0, t0, l1, t1, stages, Some(ta)),
        carried_out(l1, t1, l2, t2, b, ob),
    ensures
        carried_out_stages(l0, t0, l2, t2, stages.push(b), then_outcome(ta, ob)),
{
    lemma_flat_push(stages, b);
    lemma_batch_then(l0, t0, l1, t1, l2, t2, flat(stages), b, Some(ta), ob);
    if ob is None {
        let k = stages.len() as int;
        let st = stages.push(b);
        assert(st.take(k + 1) =~= st);
        assert(st.take(k) =~= stages);
        let na = l1.skip(l0.len() as int);
        let n = l2.skip(l0.len() as int);
        assert(n =~= na + l2.skip(l1.len() as int));
        assert(payloads(na).len() == na.len());
        assert(n.take(runs(flat(stages)).len() as int) =~= na);
    }
}

/// An error in the stages `stages` is an error of the stages followed by `b`.
pub proof fn lemma_stage_stop(
    l0: Log,
    t0: Taints,
    l1: Log,
    t1: Taints,
    stages: Seq<Seq<PlanItem>>,
    b: Seq<PlanItem>,
)
    requires
        carried_out_stages(l0, t0, l1, t1, stages, None),
    ensures
        carried_out_stages(l0, t0, l1, t1, stages.push(b), None),
{
    let k = choose|k: int|
        #![trigger stages.take(k + 1)]
        0 <= k < stages.len() && carried_out(l0, t0, l1, t1, flat(stages.take(k + 1)), None)
            && all_accepted(
            l1.skip(l0.len() as int).take(runs(flat(stages.take(k))).len() as int),
        );
    let st = stages.push(b);
    assert(st.take(k + 1) =~= stages.take(k + 1));
    assert(st.take(k) =~= stages.take(k));
}

} // verus!
