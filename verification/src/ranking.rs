//! The order in which tasks are to be done.
//!
//! Tasks are ranked by importance, the higher first; among tasks of one
//! importance by difficulty, the higher first, so that the hardest important
//! work is met while the section's energy is fresh; among tasks of one
//! importance and difficulty the one that was written down first comes first.

use crate::task::{models, TaskEntry, TaskModel};
use vstd::prelude::*;

verus! {

/// `a` has the higher importance, or the same importance and the higher
/// difficulty.
pub open spec fn outranks(a: TaskModel, b: TaskModel) -> bool {
    a.importance > b.importance || (a.importance == b.importance && a.difficulty
        > b.difficulty)
}

/// Among `tasks`, the one at `i` is to be done before the one at `j`: it
/// outranks the other, or neither outranks the other and it stands first.
pub open spec fn precedes(tasks: Seq<TaskModel>, i: int, j: int) -> bool {
    outranks(tasks[i], tasks[j]) || (!outranks(tasks[j], tasks[i]) && i < j)
}

/// `order` names every place of `tasks` once, each before all those that it
/// precedes.
pub open spec fn is_ranking(tasks: Seq<TaskModel>, order: Seq<int>) -> bool {
    &&& order.len() == tasks.len()
    &&& forall|k: int| 0 <= k < order.len() ==> 0 <= #[trigger] order[k] < tasks.len()
    &&& forall|i: int| 0 <= i < tasks.len() ==> #[trigger] order.contains(i)
    &&& forall|k: int, l: int|
        0 <= k < l < order.len() ==> precedes(tasks, #[trigger] order[k], #[trigger] order[l])
}

/// The places of `tasks` in the order in which the tasks are to be done.
pub open spec fn ranking(tasks: Seq<TaskModel>) -> Seq<int> {
    choose|order: Seq<int>| is_ranking(tasks, order)
}

/// The tasks in the order in which they are to be done.
pub open spec fn ranked(tasks: Seq<TaskModel>) -> Seq<TaskModel> {
    Seq::new(tasks.len(), |k: int| tasks[ranking(tasks)[k]])
}

/// The first `limit` of the ranked tasks, or all of them if they are fewer.
pub open spec fn shortlist(tasks: Seq<TaskModel>, limit: nat) -> Seq<TaskModel> {
    ranked(tasks).take(if limit <= tasks.len() { limit as int } else { tasks.len() as int })
}

/// A ranking of all tasks but the last stays one when the place of the last
/// task is put behind those that the last task does not outrank and before
/// those that it outranks.
proof fn lemma_insert_ranks(tasks: Seq<TaskModel>, order: Seq<int>, at: int)
    requires
        tasks.len() > 0,
        is_ranking(tasks.drop_last(), order),
        0 <= at <= order.len(),
        forall|k: int| 0 <= k < at ==> !outranks(tasks.last(), tasks[#[trigger] order[k]]),
        forall|k: int|
            at <= k < order.len() ==> outranks(tasks.last(), tasks[#[trigger] order[k]]),
    ensures
        is_ranking(tasks, order.insert(at, tasks.len() - 1)),
{
    let last = tasks.len() - 1;
    let longer = order.insert(at, last);
    let before = tasks.drop_last();
    assert forall|i: int| 0 <= i < tasks.len() implies #[trigger] longer.contains(i) by {
        if i == last {
            assert(longer[at] == i);
        } else {
            assert(order.contains(i));
            let k = choose|k: int| 0 <= k < order.len() && order[k] == i;
            if k < at {
                assert(longer[k] == i);
            } else {
                assert(longer[k + 1] == i);
            }
        }
    }
    assert forall|k: int, l: int| 0 <= k < l < longer.len() implies precedes(
        tasks,
        #[trigger] longer[k],
        #[trigger] longer[l],
    ) by {
        let from_k = if k < at { k } else { k - 1 };
        let from_l = if l < at { l } else { l - 1 };
        if k == at {
            assert(longer[l] == order[from_l]);
        } else if l == at {
            assert(longer[k] == order[from_k]);
        } else {
            assert(longer[k] == order[from_k]);
            assert(longer[l] == order[from_l]);
            assert(precedes(before, order[from_k], order[from_l]));
        }
    }
}

/// Every list of tasks has a ranking.
proof fn lemma_ranking_exists(tasks: Seq<TaskModel>) -> (order: Seq<int>)
    ensures
        is_ranking(tasks, order),
    decreases tasks.len(),
{
    if tasks.len() == 0 {
        Seq::<int>::empty()
    } else {
        let shorter = lemma_ranking_exists(tasks.drop_last());
        let at = lemma_insertion_point(tasks, shorter, shorter.len() as int);
        lemma_insert_ranks(tasks, shorter, at);
        shorter.insert(at, tasks.len() - 1)
    }
}

/// Where the place of the last task goes into a ranking of the others.
proof fn lemma_insertion_point(tasks: Seq<TaskModel>, order: Seq<int>, upto: int) -> (at: int)
    requires
        tasks.len() > 0,
        is_ranking(tasks.drop_last(), order),
        0 <= upto <= order.len(),
        forall|k: int|
            upto <= k < order.len() ==> outranks(tasks.last(), tasks[#[trigger] order[k]]),
    ensures
        0 <= at <= order.len(),
        forall|k: int| 0 <= k < at ==> !outranks(tasks.last(), tasks[#[trigger] order[k]]),
        forall|k: int|
            at <= k < order.len() ==> outranks(tasks.last(), tasks[#[trigger] order[k]]),
    decreases upto,
{
    if upto == 0 {
        0
    } else if outranks(tasks.last(), tasks[order[upto - 1]]) {
        lemma_insertion_point(tasks, order, upto - 1)
    } else {
        lemma_not_outranked_before(tasks, order, upto);
        upto
    }
}

/// In a ranking of all tasks but the last, what stands before a place that
/// the last task does not outrank is not outranked by it either.
proof fn lemma_not_outranked_before(tasks: Seq<TaskModel>, order: Seq<int>, upto: int)
    requires
        tasks.len() > 0,
        is_ranking(tasks.drop_last(), order),
        0 < upto <= order.len(),
        !outranks(tasks.last(), tasks[order[upto - 1]]),
    ensures
        forall|k: int| 0 <= k < upto ==> !outranks(tasks.last(), tasks[#[trigger] order[k]]),
{
    let before = tasks.drop_last();
    assert forall|k: int| 0 <= k < upto implies !outranks(
        tasks.last(),
        tasks[#[trigger] order[k]],
    ) by {
        if k < upto - 1 {
            assert(precedes(before, order[k], order[upto - 1]));
        }
    }
}

/// Two rankings of the same tasks agree on their first `upto` places.
proof fn lemma_rankings_agree(tasks: Seq<TaskModel>, a: Seq<int>, b: Seq<int>, upto: int)
    requires
        is_ranking(tasks, a),
        is_ranking(tasks, b),
        0 <= upto <= tasks.len(),
    ensures
        forall|k: int| 0 <= k < upto ==> a[k] == b[k],
    decreases upto,
{
    if upto > 0 {
        let m = upto - 1;
        lemma_rankings_agree(tasks, a, b, m);
        assert(b.contains(a[m]));
        let in_b = choose|q: int| 0 <= q < b.len() && b[q] == a[m];
        assert(a.contains(b[m]));
        let in_a = choose|q: int| 0 <= q < a.len() && a[q] == b[m];
        if in_b < m {
            assert(precedes(tasks, a[in_b], a[m]));
        } else if in_a < m {
            assert(precedes(tasks, b[in_a], b[m]));
        } else if in_b > m && in_a > m {
            assert(precedes(tasks, b[m], b[in_b]));
            assert(precedes(tasks, a[m], a[in_a]));
        }
    }
}

/// Every list of tasks has one ranking and no other.
pub proof fn law_ranking_is_determined(tasks: Seq<TaskModel>)
    ensures
        is_ranking(tasks, ranking(tasks)),
        forall|order: Seq<int>| is_ranking(tasks, order) ==> order == ranking(tasks),
{
    let some = lemma_ranking_exists(tasks);
    assert forall|order: Seq<int>| is_ranking(tasks, order) implies order == ranking(tasks) by {
        lemma_rankings_agree(tasks, order, ranking(tasks), tasks.len() as int);
        assert(order =~= ranking(tasks));
    }
}

/// A shortlist holds as many tasks as it may and as there are, whichever is
/// less; of an empty backlog it holds none.
pub proof fn law_shortlist_length(tasks: Seq<TaskModel>, limit: nat)
    ensures
        shortlist(tasks, limit).len() == (if limit <= tasks.len() {
            limit
        } else {
            tasks.len()
        }),
        tasks.len() == 0 ==> shortlist(tasks, limit) == Seq::<TaskModel>::empty(),
{
    if tasks.len() == 0 {
        assert(shortlist(tasks, limit) =~= Seq::<TaskModel>::empty());
    }
}

/// A shortlist is taken from the tasks and stands in order: of two of its
/// tasks the earlier has the higher importance; or the same importance and
/// the higher difficulty; or the same importance and difficulty, and stood
/// earlier among the tasks.
pub proof fn law_shortlist_order(tasks: Seq<TaskModel>, limit: nat)
    ensures
        forall|k: int|
            0 <= k < shortlist(tasks, limit).len() ==> {
                &&& 0 <= ranking(tasks)[k] < tasks.len()
                &&& #[trigger] shortlist(tasks, limit)[k] == tasks[ranking(tasks)[k]]
            },
        forall|k: int, l: int|
            0 <= k < l < shortlist(tasks, limit).len() ==> {
                let a = #[trigger] shortlist(tasks, limit)[k];
                let b = #[trigger] shortlist(tasks, limit)[l];
                ||| a.importance > b.importance
                ||| a.importance == b.importance && a.difficulty > b.difficulty
                ||| a.importance == b.importance && a.difficulty == b.difficulty && ranking(
                    tasks,
                )[k] < ranking(tasks)[l]
            },
{
    law_ranking_is_determined(tasks);
    let order = ranking(tasks);
    assert forall|k: int, l: int| 0 <= k < l < shortlist(tasks, limit).len() implies {
        let a = #[trigger] shortlist(tasks, limit)[k];
        let b = #[trigger] shortlist(tasks, limit)[l];
        ||| a.importance > b.importance
        ||| a.importance == b.importance && a.difficulty > b.difficulty
        ||| a.importance == b.importance && a.difficulty == b.difficulty && order[k] < order[l]
    } by {
        assert(precedes(tasks, order[k], order[l]));
    }
}

/// A shortlist leaves out no task that is to be done before one that it
/// holds.
pub proof fn law_shortlist_holds_the_first(tasks: Seq<TaskModel>, limit: nat)
    ensures
        forall|k: int, l: int|
            0 <= k < shortlist(tasks, limit).len() <= l < tasks.len() ==> precedes(
                tasks,
                #[trigger] ranking(tasks)[k],
                #[trigger] ranking(tasks)[l],
            ),
{
    law_ranking_is_determined(tasks);
}

/// The places that a vector of indices holds, as integers.
pub open spec fn places(order: Seq<usize>) -> Seq<int> {
    order.map_values(|i: usize| i as int)
}

/// Whether `a` has the higher importance, or the same importance and the
/// higher difficulty.
pub fn ranks_above(a: &TaskEntry, b: &TaskEntry) -> (r: bool)
    ensures
        r == outranks(a@, b@),
{
    a.importance > b.importance || (a.importance == b.importance && a.difficulty > b.difficulty)
}

/// The places of the tasks in the order in which the tasks are to be done.
pub fn rank(tasks: &Vec<TaskEntry>) -> (order: Vec<usize>)
    ensures
        places(order@) == ranking(models(tasks@)),
{
    let ghost all = models(tasks@);
    let mut order: Vec<usize> = Vec::new();
    let mut i: usize = 0;
    assert(is_ranking(all.take(0), places(order@)));
    while i < tasks.len()
        invariant
            i <= tasks.len(),
            all == models(tasks@),
            is_ranking(all.take(i as int), places(order@)),
        decreases tasks.len() - i,
    {
        let ghost before = places(order@);
        let ghost upto = all.take(i + 1);
        assert(upto.drop_last() =~= all.take(i as int));
        let mut at: usize = order.len();
        assert forall|k: int| 0 <= k < order.len() implies #[trigger] order@[k] < i by {
            assert(before[k] == order@[k]);
        }
        while at > 0 && ranks_above(&tasks[i], &tasks[order[at - 1]])
            invariant
                i < tasks.len(),
                forall|k: int| 0 <= k < order.len() ==> #[trigger] order@[k] < i,
                all == models(tasks@),
                before == places(order@),
                upto == all.take(i + 1),
                is_ranking(upto.drop_last(), before),
                at <= order.len(),
                forall|k: int|
                    at <= k < before.len() ==> outranks(upto.last(), upto[#[trigger] before[k]]),
            decreases at,
        {
            assert(before[at - 1] == order@[at - 1]);
            at -= 1;
        }
        proof {
            if at > 0 {
                assert(before[at - 1] == order@[at - 1]);
                lemma_not_outranked_before(upto, before, at as int);
            }
            lemma_insert_ranks(upto, before, at as int);
        }
        order.insert(at, i);
        assert(places(order@) =~= before.insert(at as int, i as int));
        i += 1;
    }
    proof {
        assert(all.take(tasks.len() as int) =~= all);
        law_ranking_is_determined(all);
    }
    order
}

/// The first `limit` of the tasks in the order in which they are to be done,
/// or all of them if they are fewer.
pub fn shortlist_of(tasks: &Vec<TaskEntry>, limit: usize) -> (first: Vec<TaskEntry>)
    ensures
        models(first@) == shortlist(models(tasks@), limit as nat),
{
    let order = rank(tasks);
    let ghost all = models(tasks@);
    proof {
        law_ranking_is_determined(all);
    }
    let count = if limit <= tasks.len() {
        limit
    } else {
        tasks.len()
    };
    let mut first: Vec<TaskEntry> = Vec::new();
    let mut k: usize = 0;
    while k < count
        invariant
            k <= count <= tasks.len(),
            all == models(tasks@),
            places(order@) == ranking(all),
            is_ranking(all, ranking(all)),
            first.len() == k,
            forall|j: int| 0 <= j < k ==> (#[trigger] first@[j])@ == all[ranking(all)[j]],
        decreases count - k,
    {
        assert(places(order@)[k as int] == order@[k as int]);
        first.push(tasks[order[k]].clone());
        k += 1;
    }
    assert(models(first@) =~= shortlist(all, limit as nat));
    first
}

} // verus!
