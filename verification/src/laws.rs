use vstd::prelude::*;
use crate::task::TaskV;
use crate::todo_list::{
    TodoListV, list_wf, add_post, contains_id, find_in, complete_in, remove_id, overdue_of,
    by_priority_of, rank_of, lemma_find_in,
};
use crate::task::overdue_at_spec;

verus! {

/// Every element a filter keeps is an element of the sequence it was
/// filtered from.
pub proof fn lemma_filter_membership<A>(s: Seq<A>, pred: spec_fn(A) -> bool)
    ensures
        forall|k: int| 0 <= k < s.filter(pred).len() ==> exists|j: int|
            0 <= j < s.len() && s[j] == #[trigger] s.filter(pred)[k],
    decreases s.len(),
{
    reveal(Seq::filter);
    if s.len() > 0 {
        let prefix = s.drop_last();
        lemma_filter_membership(prefix, pred);
        let f = s.filter(pred);
        let fp = prefix.filter(pred);
        assert forall|k: int| 0 <= k < f.len() implies exists|j: int|
            0 <= j < s.len() && s[j] == #[trigger] f[k] by {
            if k < fp.len() {
                let j = choose|j: int| 0 <= j < prefix.len() && prefix[j] == fp[k];
                assert(s[j] == f[k]);
            } else {
                assert(s[s.len() - 1] == f[k]);
            }
        }
    }
}

/// A chain of `add` calls: `states[0]` is where it starts, each step is
/// one add, and `ids[k]` is what the add of step `k` returned.
pub open spec fn adds_chain(states: Seq<TodoListV>, ids: Seq<u32>) -> bool {
    &&& states.len() == ids.len() + 1
    &&& forall|k: int| 0 <= k < ids.len() ==> add_post(states[k], states[k + 1], ids[k])
}

proof fn lemma_chain_next_id(states: Seq<TodoListV>, ids: Seq<u32>, k: int)
    requires
        adds_chain(states, ids),
        0 <= k < states.len(),
    ensures
        states[k].next_id == states[0].next_id + k,
    decreases k,
{
    if k > 0 {
        lemma_chain_next_id(states, ids, k - 1);
        assert(add_post(states[k - 1], states[k], ids[k - 1]));
    }
}

/// Law: over any sequence of `add` calls, the returned identifiers are
/// strictly increasing, hence pairwise distinct; and starting from a
/// well-formed collection, each returned identifier is fresh — no task
/// of the starting collection already carries it.
pub proof fn lemma_add_ids_strictly_increase(states: Seq<TodoListV>, ids: Seq<u32>)
    requires
        adds_chain(states, ids),
        list_wf(states[0]),
    ensures
        forall|p: int, q: int| 0 <= p < q < ids.len() ==> ids[p] < ids[q],
        ids.len() > 0 ==> !contains_id(states[0].tasks, ids[0]),
{
    assert forall|p: int, q: int| 0 <= p < q < ids.len() implies ids[p] < ids[q] by {
        lemma_chain_next_id(states, ids, p);
        lemma_chain_next_id(states, ids, q);
        assert(ids[p] == states[p].next_id);
        assert(ids[q] == states[q].next_id);
    }
    if ids.len() > 0 {
        assert(ids[0] == states[0].next_id);
    }
}

/// Law: after deleting an identifier, no lookup of it succeeds.
pub proof fn lemma_delete_then_find(ts: Seq<TaskV>, id: u32)
    ensures
        !contains_id(remove_id(ts, id), id),
        find_in(remove_id(ts, id), id) is None,
{
    broadcast use vstd::seq_lib::group_filter_ensures;

    let kept = remove_id(ts, id);
    assert forall|i: int| 0 <= i < kept.len() implies (#[trigger] kept[i]).id != id by {
        assert((|t: TaskV| t.id != id)(kept[i]));
    }
    lemma_find_in(kept, id);
}

/// Law: after completing an identifier that some task carries, looking
/// it up finds a task that carries it and is completed.
pub proof fn lemma_complete_then_find(ts: Seq<TaskV>, id: u32)
    requires
        contains_id(ts, id),
    ensures
        find_in(complete_in(ts, id), id) matches Some(t) && t.id == id && t.completed,
{
    let cts = complete_in(ts, id);
    let w = choose|i: int| 0 <= i < ts.len() && (#[trigger] ts[i]).id == id;
    assert(cts[w].id == id);
    assert(contains_id(cts, id));
    lemma_find_in(cts, id);
    let t = find_in(cts, id)->Some_0;
    let i = choose|i: int| 0 <= i < cts.len() && cts[i] == t;
    assert(cts[i] == if ts[i].id == id {
        TaskV { completed: true, ..ts[i] }
    } else {
        ts[i]
    });
}

/// Law: at any instant, a pending task with a due date strictly in the
/// past is among the overdue tasks; a task without a due date never is;
/// and after completing an identifier, no overdue task carries it.
pub proof fn lemma_overdue_rule(ts: Seq<TaskV>, i: int, id: u32, now: i64)
    requires
        0 <= i < ts.len(),
    ensures
        overdue_at_spec(ts[i], now) ==> overdue_of(ts, now).contains(ts[i]),
        ts[i].due_date is None ==> !overdue_of(ts, now).contains(ts[i]),
        forall|k: int| 0 <= k < overdue_of(complete_in(ts, id), now).len() ==> (
        #[trigger] overdue_of(complete_in(ts, id), now)[k]).id != id,
{
    broadcast use vstd::seq_lib::group_filter_ensures;

    if ts[i].due_date is None {
        if overdue_of(ts, now).contains(ts[i]) {
            let k = choose|k: int|
                0 <= k < overdue_of(ts, now).len() && overdue_of(ts, now)[k] == ts[i];
            assert((|t: TaskV| overdue_at_spec(t, now))(overdue_of(ts, now)[k]));
        }
    }
    let cts = complete_in(ts, id);
    lemma_filter_membership(cts, |t: TaskV| overdue_at_spec(t, now));
    assert forall|k: int| 0 <= k < overdue_of(cts, now).len() implies (#[trigger] overdue_of(
        cts,
        now,
    )[k]).id != id by {
        let e = overdue_of(cts, now)[k];
        assert((|t: TaskV| overdue_at_spec(t, now))(e));
        let j = choose|j: int| 0 <= j < cts.len() && cts[j] == e;
        assert(cts[j] == if ts[j].id == id {
            TaskV { completed: true, ..ts[j] }
        } else {
            ts[j]
        });
    }
}

/// Law: `by_priority_of` is sorted by rank — every High task stands
/// before every Medium one, which stands before every Low one — and,
/// being the concatenation of the three rank filters, keeps insertion
/// order among tasks of equal priority.
pub proof fn lemma_by_priority_sorted(ts: Seq<TaskV>)
    ensures
        forall|p: int, q: int| 0 <= p < q < by_priority_of(ts).len() ==> by_priority_of(
            ts,
        )[p].priority.rank_spec() <= by_priority_of(ts)[q].priority.rank_spec(),
{
    let s = by_priority_of(ts);
    assert forall|p: int, q: int| 0 <= p < q < s.len() implies s[p].priority.rank_spec()
        <= s[q].priority.rank_spec() by {
        lemma_rank_at(ts, p);
        lemma_rank_at(ts, q);
    }
}

proof fn lemma_rank_at(ts: Seq<TaskV>, i: int)
    requires
        0 <= i < by_priority_of(ts).len(),
    ensures
        by_priority_of(ts)[i].priority.rank_spec() == rank_at(ts, i),
{
    broadcast use vstd::seq_lib::group_filter_ensures;

    let s = by_priority_of(ts);
    let h = rank_of(ts, 0);
    let m = rank_of(ts, 1);
    let l = rank_of(ts, 2);
    if i < h.len() {
        assert(s[i] == h[i]);
        assert((|t: TaskV| t.priority.rank_spec() == 0)(h[i]));
    } else if i < h.len() + m.len() {
        assert(s[i] == m[i - h.len()]);
        assert((|t: TaskV| t.priority.rank_spec() == 1)(m[i - h.len()]));
    } else {
        assert(s[i] == l[i - h.len() - m.len()]);
        assert((|t: TaskV| t.priority.rank_spec() == 2)(l[i - h.len() - m.len()]));
    }
}

/// The rank of the element at position `i` of `by_priority_of(ts)`:
/// 0 in the High segment, 1 in the Medium one, 2 in the Low one.
pub open spec fn rank_at(ts: Seq<TaskV>, i: int) -> int {
    if i < rank_of(ts, 0).len() {
        0
    } else if i < rank_of(ts, 0).len() + rank_of(ts, 1).len() {
        1
    } else {
        2
    }
}

} // verus!
