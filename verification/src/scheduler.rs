//! How packets are spread over workers.
use crate::class;
use crate::class::PacketClass;
use crate::text::{characters, same_text};
use std::sync::Arc;
use vstd::prelude::*;

verus! {

/// A worker that carries packets.
#[derive(Debug)]
pub struct WorkerChannels {
    pub id: usize,
    /// Which run of the worker this is.
    pub incarnation_id: u64,
    /// The relay that the worker goes through.
    pub turn_path: String,
    /// Names the queues of the worker.
    pub channel: u64,
}

/// What [`WorkerChannels`] say.
#[verifier::ext_equal]
pub struct WorkerView {
    pub id: usize,
    pub incarnation_id: u64,
    pub turn_path: Seq<char>,
    pub channel: u64,
}

impl View for WorkerChannels {
    type V = WorkerView;

    open spec fn view(&self) -> WorkerView {
        WorkerView {
            id: self.id,
            incarnation_id: self.incarnation_id,
            turn_path: self.turn_path@,
            channel: self.channel,
        }
    }
}

impl WorkerChannels {
    /// The same worker once more.
    pub fn copy(&self) -> (worker: WorkerChannels)
        ensures
            worker@ == self@,
    {
        WorkerChannels {
            id: self.id,
            incarnation_id: self.incarnation_id,
            turn_path: self.turn_path.clone(),
            channel: self.channel,
        }
    }
}

/// What workers say.
pub open spec fn worker_views(workers: Seq<WorkerChannels>) -> Seq<WorkerView> {
    Seq::new(workers.len(), |i: int| workers[i]@)
}

/// No two workers have the same number.
pub open spec fn distinct_ids(workers: Seq<WorkerView>) -> bool {
    forall|i: int, j: int|
        0 <= i < j < workers.len() ==> #[trigger] workers[i].id != #[trigger] workers[j].id
}

/// One text comes before another in the order of their characters.
pub open spec fn text_less(left: Seq<char>, right: Seq<char>) -> bool
    decreases left.len(),
{
    if right.len() == 0 {
        false
    } else if left.len() == 0 {
        true
    } else if left[0] != right[0] {
        left[0] < right[0]
    } else {
        text_less(left.skip(1), right.skip(1))
    }
}

/// How many of the first `upto` workers go through the same relay as `worker` and have a
/// smaller number.
pub open spec fn rank_upto(workers: Seq<WorkerView>, worker: WorkerView, upto: nat) -> nat
    decreases upto,
{
    if upto == 0 {
        0
    } else {
        let other = workers[upto - 1];
        rank_upto(workers, worker, (upto - 1) as nat) + if other.turn_path == worker.turn_path
            && other.id < worker.id {
            1nat
        } else {
            0nat
        }
    }
}

/// The place of a worker among those of its relay.
pub open spec fn rank(workers: Seq<WorkerView>, worker: WorkerView) -> nat {
    rank_upto(workers, worker, workers.len())
}

/// One worker's turn comes before another's: it has a lower place among those of its relay,
/// or the same place and its relay comes first.
pub open spec fn turn_before(workers: Seq<WorkerView>, left: WorkerView, right: WorkerView) -> bool {
    rank(workers, left) < rank(workers, right) || (rank(workers, left) == rank(workers, right)
        && text_less(left.turn_path, right.turn_path))
}

/// `order` lists the numbers below `count`, each once.
pub open spec fn arranges(order: Seq<int>, count: nat) -> bool {
    &&& order.len() == count
    &&& order.no_duplicates()
    &&& forall|i: int| 0 <= i < order.len() ==> 0 <= #[trigger] order[i] < count
}

/// `arranged` holds the same workers in the order of their turns, so that as many workers as
/// possible go through different relays one after the other.
pub open spec fn interleaved(workers: Seq<WorkerView>, arranged: Seq<WorkerView>) -> bool {
    &&& exists|order: Seq<int>|
        {
            &&& #[trigger] arranges(order, workers.len())
            &&& arranged == Seq::new(workers.len(), |i: int| workers[order[i]])
        }
    &&& forall|i: int, j: int|
        0 <= i < j < arranged.len() ==> turn_before(
            workers,
            #[trigger] arranged[i],
            #[trigger] arranged[j],
        )
}

/// The order of texts is total.
proof fn lemma_text_total(left: Seq<char>, right: Seq<char>)
    ensures
        left == right || text_less(left, right) || text_less(right, left),
        !text_less(left, left),
    decreases left.len(),
{
    if left.len() > 0 && right.len() > 0 {
        lemma_text_total(left.skip(1), right.skip(1));
        if left[0] == right[0] && left.skip(1) == right.skip(1) {
            assert(left =~= seq![left[0]] + left.skip(1));
            assert(right =~= seq![right[0]] + right.skip(1));
        }
    } else if left.len() == 0 && right.len() == 0 {
        assert(left =~= right);
    }
    if left.len() > 0 {
        lemma_text_total(left.skip(1), left.skip(1));
    }
}

/// The order of texts is transitive.
proof fn lemma_text_transitive(a: Seq<char>, b: Seq<char>, c: Seq<char>)
    requires
        text_less(a, b),
        text_less(b, c),
    ensures
        text_less(a, c),
    decreases a.len(),
{
    if a.len() > 0 && a[0] == b[0] && b[0] == c[0] {
        lemma_text_transitive(a.skip(1), b.skip(1), c.skip(1));
    }
}

/// Of two workers of a relay, the one with the smaller number has the lower place.
proof fn lemma_rank_grows(workers: Seq<WorkerView>, left: WorkerView, right: WorkerView, upto: nat)
    requires
        upto <= workers.len(),
        left.turn_path == right.turn_path,
        left.id < right.id,
    ensures
        rank_upto(workers, left, upto) <= rank_upto(workers, right, upto),
        workers.take(upto as int).contains(left) ==> rank_upto(workers, left, upto) < rank_upto(
            workers,
            right,
            upto,
        ),
    decreases upto,
{
    if upto > 0 {
        let before = workers.take(upto - 1);
        let now = workers.take(upto as int);
        lemma_rank_grows(workers, left, right, (upto - 1) as nat);
        if now.contains(left) && workers[upto - 1] != left {
            let i = choose|i: int| 0 <= i < now.len() && now[i] == left;
            assert(before[i] == left);
        }
    }
}

/// The order of turns is total on different workers.
proof fn lemma_turns_total(workers: Seq<WorkerView>, i: int, j: int)
    requires
        distinct_ids(workers),
        0 <= i < workers.len(),
        0 <= j < workers.len(),
        i != j,
    ensures
        turn_before(workers, workers[i], workers[j]) || turn_before(
            workers,
            workers[j],
            workers[i],
        ),
{
    let left = workers[i];
    let right = workers[j];
    lemma_text_total(left.turn_path, right.turn_path);
    assert(workers.take(workers.len() as int) =~= workers);
    assert(workers.contains(left) && workers.contains(right));
    if i < j {
        assert(workers[i].id != workers[j].id);
    } else {
        assert(workers[j].id != workers[i].id);
    }
    if left.turn_path == right.turn_path {
        if left.id < right.id {
            lemma_rank_grows(workers, left, right, workers.len());
        } else {
            lemma_rank_grows(workers, right, left, workers.len());
        }
    }
}

/// The order of turns is transitive.
proof fn lemma_turns_transitive(
    workers: Seq<WorkerView>,
    a: WorkerView,
    b: WorkerView,
    c: WorkerView,
)
    requires
        turn_before(workers, a, b),
        turn_before(workers, b, c),
    ensures
        turn_before(workers, a, c),
{
    if rank(workers, a) == rank(workers, c) {
        lemma_text_transitive(a.turn_path, b.turn_path, c.turn_path);
    }
}

/// Whether one text comes before another.
fn is_text_less(left: &str, right: &str) -> (less: bool)
    ensures
        less == text_less(left@, right@),
{
    let l = characters(left);
    let r = characters(right);
    let mut i: usize = 0;
    assert(left@.skip(0) =~= left@);
    assert(right@.skip(0) =~= right@);
    while i < l.len() && i < r.len() && l[i] == r[i]
        invariant
            i <= l@.len(),
            i <= r@.len(),
            l@ == left@,
            r@ == right@,
            text_less(left@, right@) == text_less(left@.skip(i as int), right@.skip(i as int)),
        decreases l.len() - i,
    {
        assert(left@.skip(i as int).skip(1) =~= left@.skip(i + 1));
        assert(right@.skip(i as int).skip(1) =~= right@.skip(i + 1));
        i += 1;
    }
    if i >= r.len() {
        false
    } else if i >= l.len() {
        true
    } else {
        l[i] < r[i]
    }
}

/// The place of a worker among those of its relay.
fn rank_of(workers: &Vec<WorkerChannels>, at: usize) -> (place: usize)
    requires
        at < workers@.len(),
    ensures
        place == rank(worker_views(workers@), workers@[at as int]@),
        place <= workers@.len(),
{
    let ghost views = worker_views(workers@);
    let worker = &workers[at];
    let mut place: usize = 0;
    let mut i: usize = 0;
    while i < workers.len()
        invariant
            i <= workers@.len(),
            at < workers@.len(),
            views == worker_views(workers@),
            *worker == workers@[at as int],
            place == rank_upto(views, worker@, i as nat),
            place <= i,
        decreases workers.len() - i,
    {
        let other = &workers[i];
        if same_text(other.turn_path.as_str(), worker.turn_path.as_str()) && other.id < worker.id {
            place += 1;
        }
        i += 1;
        assert(views[i - 1] == workers@[i - 1]@);
    }
    place
}

/// Puts workers in the order of their turns.
pub fn interleave_turn_paths(workers: &Vec<WorkerChannels>) -> (arranged: Vec<WorkerChannels>)
    requires
        distinct_ids(worker_views(workers@)),
    ensures
        interleaved(worker_views(workers@), worker_views(arranged@)),
{
    let ghost views = worker_views(workers@);
    let n: usize = workers.len();
    let mut ranks: Vec<usize> = Vec::new();
    let mut k: usize = 0;
    while k < n
        invariant
            k <= n == workers@.len(),
            views == worker_views(workers@),
            ranks@.len() == k,
            forall|i: int| 0 <= i < k ==> #[trigger] ranks@[i] == rank(views, views[i]),
        decreases n - k,
    {
        ranks.push(rank_of(workers, k));
        k += 1;
    }
    let mut order: Vec<usize> = Vec::new();
    let mut next: usize = 0;
    while next < n
        invariant
            next <= n == workers@.len() == views.len(),
            views == worker_views(workers@),
            distinct_ids(views),
            ranks@.len() == n,
            forall|i: int| 0 <= i < n ==> #[trigger] ranks@[i] == rank(views, views[i]),
            order@.len() == next,
            order@.no_duplicates(),
            forall|i: int| 0 <= i < order@.len() ==> #[trigger] order@[i] < next,
            forall|i: int, j: int|
                0 <= i < j < order@.len() ==> turn_before(
                    views,
                    views[#[trigger] order@[i] as int],
                    views[#[trigger] order@[j] as int],
                ),
        decreases n - next,
    {
        let mut at: usize = 0;
        let ghost given = order@;
        // Everything before `at` comes before the worker that is placed now.
        while at < order.len() && (ranks[order[at]] < ranks[next] || (ranks[order[at]]
            == ranks[next] && is_text_less(
            workers[order[at]].turn_path.as_str(),
            workers[next].turn_path.as_str(),
        )))
            invariant
                at <= order@.len(),
                order@ == given,
                next < n == workers@.len() == views.len(),
                views == worker_views(workers@),
                ranks@.len() == n,
                forall|i: int| 0 <= i < n ==> #[trigger] ranks@[i] == rank(views, views[i]),
                order@.len() == next,
                forall|i: int| 0 <= i < order@.len() ==> #[trigger] order@[i] < next,
                forall|i: int|
                    0 <= i < at ==> turn_before(
                        views,
                        views[#[trigger] order@[i] as int],
                        views[next as int],
                    ),
            decreases order.len() - at,
        {
            at += 1;
        }
        order.insert(at, next);
        proof {
            assert(order@ == given.insert(at as int, next));
            assert forall|i: int, j: int|
                0 <= i < j < order@.len() implies turn_before(
                views,
                views[#[trigger] order@[i] as int],
                views[#[trigger] order@[j] as int],
            ) by {
                let x = if i < at {
                    given[i]
                } else if i == at {
                    next
                } else {
                    given[i - 1]
                };
                let y = if j < at {
                    given[j]
                } else if j == at {
                    next
                } else {
                    given[j - 1]
                };
                assert(order@[i] == x && order@[j] == y);
                if i == at {
                    let first = given[at as int];
                    lemma_turns_total(views, first as int, next as int);
                    assert(turn_before(views, views[next as int], views[first as int]));
                    if j - 1 > at {
                        assert(turn_before(views, views[first as int], views[given[j - 1] as int]));
                        lemma_turns_transitive(
                            views,
                            views[next as int],
                            views[first as int],
                            views[y as int],
                        );
                    }
                } else if j == at {
                    assert(turn_before(views, views[given[i] as int], views[next as int]));
                } else {
                    let a = if i < at {
                        i
                    } else {
                        i - 1
                    };
                    let b = if j < at {
                        j
                    } else {
                        j - 1
                    };
                    assert(given[a] == x && given[b] == y);
                    assert(turn_before(views, views[given[a] as int], views[given[b] as int]));
                }
            }
            assert forall|i: int, j: int|
                0 <= i < order@.len() && 0 <= j < order@.len() && i != j implies order@[i]
                != order@[j] by {
                let a = if i < at {
                    i
                } else {
                    i - 1
                };
                let b = if j < at {
                    j
                } else {
                    j - 1
                };
                if i != at {
                    assert(given[a] == order@[i]);
                }
                if j != at {
                    assert(given[b] == order@[j]);
                }
            }
            assert forall|i: int| 0 <= i < order@.len() implies #[trigger] order@[i] < next + 1 by {
                if i < at {
                    assert(order@[i] == given[i]);
                } else if i > at {
                    assert(order@[i] == given[i - 1]);
                }
            }
        }
        next += 1;
    }
    let mut arranged: Vec<WorkerChannels> = Vec::new();
    let mut m: usize = 0;
    while m < n
        invariant
            m <= n == workers@.len() == views.len(),
            views == worker_views(workers@),
            order@.len() == n,
            forall|i: int| 0 <= i < order@.len() ==> #[trigger] order@[i] < n,
            arranged@.len() == m,
            forall|i: int| 0 <= i < m ==> (#[trigger] arranged@[i])@ == views[order@[i] as int],
        decreases n - m,
    {
        arranged.push(workers[order[m]].copy());
        m += 1;
    }
    proof {
        let places = Seq::new(n as nat, |i: int| order@[i] as int);
        assert(arranges(places, views.len())) by {
            assert forall|i: int, j: int|
                0 <= i < places.len() && 0 <= j < places.len() && i != j implies places[i]
                != places[j] by {
                assert(order@[i] != order@[j]);
            }
        }
        assert(worker_views(arranged@) =~= Seq::new(views.len(), |i: int| views[places[i]]));
        assert forall|i: int, j: int|
            0 <= i < j < arranged@.len() implies turn_before(
            views,
            #[trigger] worker_views(arranged@)[i],
            #[trigger] worker_views(arranged@)[j],
        ) by {
            assert(turn_before(views, views[order@[i] as int], views[order@[j] as int]));
        }
    }
    arranged
}

/// The workers without those of which `gone` holds.
pub open spec fn kept(
    workers: Seq<WorkerView>,
    gone: spec_fn(WorkerView) -> bool,
) -> Seq<WorkerView> {
    workers.filter(|worker: WorkerView| !gone(worker))
}

/// The workers that are left when those with a number, or one run of it, are taken out.
fn without(workers: &Vec<WorkerChannels>, id: usize, incarnation: Option<u64>) -> (rest: Vec<
    WorkerChannels,
>)
    ensures
        worker_views(rest@) == kept(
            worker_views(workers@),
            |worker: WorkerView|
                worker.id == id && (incarnation matches Some(run) ==> worker.incarnation_id == run),
        ),
{
    let ghost views = worker_views(workers@);
    let ghost chosen = |worker: WorkerView|
        !(worker.id == id && (incarnation matches Some(run) ==> worker.incarnation_id == run));
    let mut rest: Vec<WorkerChannels> = Vec::new();
    let mut i: usize = 0;
    proof {
        reveal(Seq::filter);
        assert(views.take(0) =~= Seq::<WorkerView>::empty());
        assert(worker_views(rest@) =~= views.take(0).filter(chosen));
    }
    while i < workers.len()
        invariant
            i <= workers@.len(),
            views == worker_views(workers@),
            chosen == (|worker: WorkerView|
                !(worker.id == id && (incarnation matches Some(run) ==> worker.incarnation_id
                    == run))),
            worker_views(rest@) == views.take(i as int).filter(chosen),
        decreases workers.len() - i,
    {
        let worker = &workers[i];
        let ghost before = worker_views(rest@);
        proof {
            let next = views.take(i + 1);
            assert(next.drop_last() =~= views.take(i as int));
            assert(next.last() == worker@);
            reveal(Seq::filter);
        }
        let same_run = match incarnation {
            Some(run) => worker.incarnation_id == run,
            None => true,
        };
        if worker.id != id || !same_run {
            rest.push(worker.copy());
            assert(worker_views(rest@) =~= before.push(worker@));
        }
        i += 1;
        assert(worker_views(rest@) =~= views.take(i as int).filter(chosen));
    }
    proof {
        assert(views.take(i as int) =~= views);
        let gone = |worker: WorkerView|
            worker.id == id && (incarnation matches Some(run) ==> worker.incarnation_id == run);
        assert(chosen =~= (|worker: WorkerView| !gone(worker)));
    }
    rest
}

/// Taking workers out leaves the others' numbers different.
proof fn lemma_kept_distinct(workers: Seq<WorkerView>, chosen: spec_fn(WorkerView) -> bool)
    requires
        distinct_ids(workers),
    ensures
        distinct_ids(workers.filter(chosen)),
        forall|worker: WorkerView| #[trigger]
            workers.filter(chosen).contains(worker) <==> workers.contains(worker) && chosen(worker),
    decreases workers.len(),
{
    reveal(Seq::filter);
    if workers.len() > 0 {
        let rest = workers.drop_last();
        let last = workers.last();
        assert(distinct_ids(rest)) by {
            assert forall|i: int, j: int| 0 <= i < j < rest.len() implies #[trigger] rest[i].id
                != #[trigger] rest[j].id by {
                assert(workers[i].id != workers[j].id);
            }
        }
        lemma_kept_distinct(rest, chosen);
        let some = rest.filter(chosen);
        let all = workers.filter(chosen);
        assert forall|worker: WorkerView| #[trigger] workers.contains(worker) <==> rest.contains(
            worker,
        ) || worker == last by {
            if workers.contains(worker) && worker != last {
                let i = choose|i: int| 0 <= i < workers.len() && workers[i] == worker;
                assert(rest[i] == worker);
            }
            if rest.contains(worker) {
                let i = choose|i: int| 0 <= i < rest.len() && rest[i] == worker;
                assert(workers[i] == worker);
            }
            assert(workers[workers.len() - 1] == last);
        }
        if chosen(last) {
            assert(all == some.push(last));
            assert forall|i: int, j: int| 0 <= i < j < all.len() implies #[trigger] all[i].id
                != #[trigger] all[j].id by {
                if j < some.len() {
                    assert(some[i].id != some[j].id);
                } else {
                    assert(some.contains(some[i]));
                    assert(rest.contains(some[i]));
                    let k = choose|k: int| 0 <= k < rest.len() && rest[k] == some[i];
                    assert(workers[k].id != workers[workers.len() - 1].id);
                }
            }
            assert forall|worker: WorkerView| #[trigger] all.contains(worker) <==> some.contains(
                worker,
            ) || worker == last by {
                if some.contains(worker) {
                    let i = choose|i: int| 0 <= i < some.len() && some[i] == worker;
                    assert(all[i] == worker);
                }
                if all.contains(worker) && worker != last {
                    let i = choose|i: int| 0 <= i < all.len() && all[i] == worker;
                    assert(some[i] == worker);
                }
                assert(all[all.len() - 1] == last);
            }
        }
    }
}

/// Putting workers in order loses none and adds none.
pub proof fn interleaving_keeps_workers(workers: Seq<WorkerView>, arranged: Seq<WorkerView>)
    requires
        interleaved(workers, arranged),
        distinct_ids(workers),
    ensures
        arranged.len() == workers.len(),
        distinct_ids(arranged),
        forall|worker: WorkerView| #[trigger]
            arranged.contains(worker) <==> workers.contains(worker),
{
    let order = choose|order: Seq<int>|
        {
            &&& #[trigger] arranges(order, workers.len())
            &&& arranged == Seq::new(workers.len(), |i: int| workers[order[i]])
        };
    assert forall|i: int, j: int| 0 <= i < j < arranged.len() implies #[trigger] arranged[i].id
        != #[trigger] arranged[j].id by {
        assert(order[i] != order[j]);
        if order[i] < order[j] {
            assert(workers[order[i]].id != workers[order[j]].id);
        } else {
            assert(workers[order[j]].id != workers[order[i]].id);
        }
    }
    assert forall|worker: WorkerView| #[trigger] arranged.contains(worker) <==> workers.contains(
        worker,
    ) by {
        if arranged.contains(worker) {
            let i = choose|i: int| 0 <= i < arranged.len() && arranged[i] == worker;
            assert(workers[order[i]] == worker);
        }
        if workers.contains(worker) {
            let k = choose|k: int| 0 <= k < workers.len() && workers[k] == worker;
            lemma_arrangement_is_onto(order, workers.len(), k);
            let i = choose|i: int| 0 <= i < order.len() && order[i] == k;
            assert(arranged[i] == worker);
        }
    }
}

/// An arrangement of the numbers below `count` holds each of them.
proof fn lemma_arrangement_is_onto(order: Seq<int>, count: nat, k: int)
    requires
        arranges(order, count),
        0 <= k < count,
    ensures
        order.contains(k),
{
    let all = vstd::set_lib::set_int_range(0, count as int);
    vstd::set_lib::lemma_int_range(0, count as int);
    order.unique_seq_to_set();
    let held = order.to_set();
    assert(held.subset_of(all)) by {
        assert forall|x: int| held.contains(x) implies all.contains(x) by {
            let i = choose|i: int| 0 <= i < order.len() && order[i] == x;
            assert(0 <= order[i] < count);
        }
    }
    vstd::set_lib::lemma_subset_equality(held, all);
    assert(held.contains(k));
}

/// The workers once one was registered, in place of the one with the same number.
pub open spec fn registered(
    workers: Seq<WorkerView>,
    worker: WorkerView,
    after: Seq<WorkerView>,
) -> bool {
    interleaved(kept(workers, |other: WorkerView| other.id == worker.id).push(worker), after)
}

/// The workers once one run of a worker was taken out.
pub open spec fn unregistered(
    workers: Seq<WorkerView>,
    id: usize,
    incarnation_id: u64,
    after: Seq<WorkerView>,
) -> bool {
    interleaved(
        kept(
            workers,
            |other: WorkerView| other.id == id && other.incarnation_id == incarnation_id,
        ),
        after,
    )
}

/// The workers once one was registered, in place of the one with the same number.
pub fn register(workers: &Vec<WorkerChannels>, worker: WorkerChannels) -> (after: Vec<
    WorkerChannels,
>)
    requires
        distinct_ids(worker_views(workers@)),
    ensures
        registered(worker_views(workers@), worker@, worker_views(after@)),
        distinct_ids(worker_views(after@)),
{
    let ghost views = worker_views(workers@);
    let ghost added = worker@;
    let mut updated = without(workers, worker.id, None);
    let ghost rest = worker_views(updated@);
    updated.push(worker);
    proof {
        let gone = |other: WorkerView| other.id == added.id;
        let none: Option<u64> = None;
        let gone_run = |other: WorkerView|
            other.id == added.id && (none matches Some(run) ==> other.incarnation_id == run);
        assert((|other: WorkerView| !gone(other)) =~= (|other: WorkerView| !gone_run(other)));
        let chosen = |other: WorkerView| !gone(other);
        assert(rest == views.filter(chosen));
        lemma_kept_distinct(views, chosen);
        assert(worker_views(updated@) =~= rest.push(added));
        assert forall|i: int, j: int|
            0 <= i < j < rest.push(added).len() implies #[trigger] rest.push(added)[i].id
            != #[trigger] rest.push(added)[j].id by {
            if j == rest.len() {
                assert(rest.contains(rest[i]));
            } else {
                assert(rest[i].id != rest[j].id);
            }
        }
    }
    let after = interleave_turn_paths(&updated);
    proof {
        interleaving_keeps_workers(worker_views(updated@), worker_views(after@));
    }
    after
}

/// The workers once one run of a worker was taken out. Another run of it stays.
pub fn unregister(workers: &Vec<WorkerChannels>, id: usize, incarnation_id: u64) -> (after: Vec<
    WorkerChannels,
>)
    requires
        distinct_ids(worker_views(workers@)),
    ensures
        unregistered(worker_views(workers@), id, incarnation_id, worker_views(after@)),
        distinct_ids(worker_views(after@)),
{
    let ghost views = worker_views(workers@);
    let updated = without(workers, id, Some(incarnation_id));
    proof {
        let gone = |other: WorkerView| other.id == id && other.incarnation_id == incarnation_id;
        let some: Option<u64> = Some(incarnation_id);
        let gone_run = |other: WorkerView|
            other.id == id && (some matches Some(run) ==> other.incarnation_id == run);
        assert((|other: WorkerView| !gone(other)) =~= (|other: WorkerView| !gone_run(other)));
        let chosen = |other: WorkerView| !gone(other);
        assert(worker_views(updated@) == views.filter(chosen));
        lemma_kept_distinct(views, chosen);
    }
    let after = interleave_turn_paths(&updated);
    proof {
        interleaving_keeps_workers(worker_views(updated@), worker_views(after@));
    }
    after
}

/// Registering a worker puts it in and takes out the one that had its number; the others are
/// not touched.
pub proof fn registering_leaves_the_others(
    workers: Seq<WorkerView>,
    worker: WorkerView,
    after: Seq<WorkerView>,
    other: WorkerView,
)
    requires
        distinct_ids(workers),
        registered(workers, worker, after),
    ensures
        after.contains(worker),
        other.id == worker.id ==> (after.contains(other) <==> other == worker),
        other.id != worker.id ==> (after.contains(other) <==> workers.contains(other)),
{
    let gone = |o: WorkerView| o.id == worker.id;
    let chosen = |o: WorkerView| !gone(o);
    let rest = workers.filter(chosen);
    let all = rest.push(worker);
    lemma_kept_distinct(workers, chosen);
    assert forall|i: int, j: int| 0 <= i < j < all.len() implies #[trigger] all[i].id
        != #[trigger] all[j].id by {
        if j == rest.len() {
            assert(rest.contains(rest[i]));
        } else {
            assert(rest[i].id != rest[j].id);
        }
    }
    interleaving_keeps_workers(all, after);
    assert forall|o: WorkerView| #[trigger] all.contains(o) <==> rest.contains(o) || o
        == worker by {
        if rest.contains(o) {
            let i = choose|i: int| 0 <= i < rest.len() && rest[i] == o;
            assert(all[i] == o);
        }
        if all.contains(o) && o != worker {
            let i = choose|i: int| 0 <= i < all.len() && all[i] == o;
            assert(rest[i] == o);
        }
        assert(all[all.len() - 1] == worker);
    }
    assert(all.contains(worker));
    assert(all.contains(other) <==> rest.contains(other) || other == worker);
}

/// Taking one run of a worker out takes out that run and nothing else: a later run with the
/// same number stays, and so do the other workers.
pub proof fn unregistering_leaves_the_others(
    workers: Seq<WorkerView>,
    id: usize,
    incarnation_id: u64,
    after: Seq<WorkerView>,
    other: WorkerView,
)
    requires
        distinct_ids(workers),
        unregistered(workers, id, incarnation_id, after),
    ensures
        after.contains(other) <==> workers.contains(other) && !(other.id == id
            && other.incarnation_id == incarnation_id),
{
    let gone = |o: WorkerView| o.id == id && o.incarnation_id == incarnation_id;
    let chosen = |o: WorkerView| !gone(o);
    lemma_kept_distinct(workers, chosen);
    interleaving_keeps_workers(workers.filter(chosen), after);
    assert(after.contains(other) <==> workers.filter(chosen).contains(other));
}

/// Whose turn it is, and for how many more packets.
#[derive(Clone, Copy, Debug, PartialEq, Eq, Structural)]
pub struct RoundRobinCursor {
    pub current_worker: usize,
    pub remaining: usize,
}

impl RoundRobinCursor {
    /// It is the first worker's turn.
    pub open spec fn fresh() -> RoundRobinCursor {
        RoundRobinCursor { current_worker: 0, remaining: 0 }
    }

    /// The cursor once a packet was given to the worker whose turn it is.
    pub open spec fn advanced(self, worker_count: usize, chunk: usize) -> RoundRobinCursor {
        let left = (if self.remaining == 0 {
            chunk
        } else {
            self.remaining
        }) - 1;
        RoundRobinCursor {
            current_worker: if left != 0 {
                self.current_worker
            } else if self.current_worker + 1 == worker_count {
                0
            } else {
                (self.current_worker + 1) as usize
            },
            remaining: left as usize,
        }
    }
}

impl Default for RoundRobinCursor {
    fn default() -> (cursor: RoundRobinCursor)
        ensures
            cursor == RoundRobinCursor::fresh(),
    {
        RoundRobinCursor { current_worker: 0, remaining: 0 }
    }
}

/// Which worker a packet goes to, and how urgent it is.
#[derive(Clone, Copy, Debug, PartialEq, Eq, Structural)]
pub struct DispatchTicket {
    pub start_slot: usize,
    pub class: PacketClass,
}

/// Hands packets to workers by turns, for each class by itself.
pub struct FastPathScheduler {
    workers: Arc<Vec<WorkerChannels>>,
    worker_count: usize,
    small: RoundRobinCursor,
    medium: RoundRobinCursor,
    bulk: RoundRobinCursor,
}

/// What a [`FastPathScheduler`] says.
#[verifier::ext_equal]
pub struct SchedulerView {
    pub workers: Seq<WorkerView>,
    pub worker_count: usize,
    pub small: RoundRobinCursor,
    pub medium: RoundRobinCursor,
    pub bulk: RoundRobinCursor,
}

impl View for FastPathScheduler {
    type V = SchedulerView;

    closed spec fn view(&self) -> SchedulerView {
        SchedulerView {
            workers: worker_views((*self.workers)@),
            worker_count: self.worker_count,
            small: self.small,
            medium: self.medium,
            bulk: self.bulk,
        }
    }
}

impl SchedulerView {
    /// The cursor of a class.
    pub open spec fn cursor(self, class: PacketClass) -> RoundRobinCursor {
        match class {
            PacketClass::Small => self.small,
            PacketClass::Medium => self.medium,
            PacketClass::Bulk => self.bulk,
        }
    }

    /// The scheduler with another cursor for a class.
    pub open spec fn with_cursor(self, class: PacketClass, cursor: RoundRobinCursor) -> SchedulerView {
        match class {
            PacketClass::Small => SchedulerView { small: cursor, ..self },
            PacketClass::Medium => SchedulerView { medium: cursor, ..self },
            PacketClass::Bulk => SchedulerView { bulk: cursor, ..self },
        }
    }

    /// The turns are those of workers that there are.
    pub open spec fn valid(self) -> bool {
        forall|class: PacketClass|
            {
                let cursor = #[trigger] self.cursor(class);
                &&& cursor.remaining < class::chunk_of(class)
                &&& cursor.current_worker < self.worker_count || cursor
                    == RoundRobinCursor::fresh()
            }
    }

    /// The scheduler once it knows how many workers there are. Where that changed, all turns
    /// start anew.
    pub open spec fn synced(self, worker_count: usize) -> SchedulerView {
        if self.worker_count == worker_count {
            self
        } else {
            SchedulerView {
                workers: self.workers,
                worker_count,
                small: RoundRobinCursor::fresh(),
                medium: RoundRobinCursor::fresh(),
                bulk: RoundRobinCursor::fresh(),
            }
        }
    }

    /// The scheduler once a packet of a class was handed to one of `worker_count` workers.
    pub open spec fn advanced(self, worker_count: usize, class: PacketClass) -> SchedulerView {
        let synced = self.synced(worker_count);
        if worker_count == 0 {
            self
        } else {
            synced.with_cursor(
                class,
                synced.cursor(class).advanced(worker_count, class::chunk_of(class)),
            )
        }
    }

    /// Where a packet of a class goes, of `worker_count` workers.
    pub open spec fn ticket(self, worker_count: usize, class: PacketClass) -> Option<
        DispatchTicket,
    > {
        if worker_count == 0 {
            None
        } else {
            Some(
                DispatchTicket {
                    start_slot: self.synced(worker_count).cursor(class).current_worker,
                    class,
                },
            )
        }
    }

    /// The scheduler once it has looked at the workers, which it does when a turn of the class
    /// is over.
    pub open spec fn refreshed(self, source: Seq<WorkerView>, class: PacketClass) -> SchedulerView {
        if self.cursor(class).remaining == 0 {
            SchedulerView { workers: source, ..self }.synced(source.len() as usize)
        } else {
            self
        }
    }
}

impl FastPathScheduler {
    /// The turns are those of workers that there are.
    pub closed spec fn wf(&self) -> bool {
        self@.valid()
    }

    /// The turns of a scheduler that is in order are those of workers that there are.
    pub proof fn turns_are_valid(&self)
        requires
            self.wf(),
        ensures
            self@.valid(),
    {
    }

    /// A scheduler that knows of no workers.
    pub fn new() -> (scheduler: FastPathScheduler)
        ensures
            scheduler.wf(),
            scheduler@ == (SchedulerView {
                workers: Seq::<WorkerView>::empty(),
                worker_count: 0,
                small: RoundRobinCursor::fresh(),
                medium: RoundRobinCursor::fresh(),
                bulk: RoundRobinCursor::fresh(),
            }),
    {
        let scheduler = FastPathScheduler {
            workers: Arc::new(Vec::new()),
            worker_count: 0,
            small: RoundRobinCursor::default(),
            medium: RoundRobinCursor::default(),
            bulk: RoundRobinCursor::default(),
        };
        assert(scheduler@.workers =~= Seq::<WorkerView>::empty());
        scheduler
    }

    fn cursor(&self, class: PacketClass) -> (cursor: RoundRobinCursor)
        ensures
            cursor == self@.cursor(class),
    {
        match class {
            PacketClass::Small => self.small,
            PacketClass::Medium => self.medium,
            PacketClass::Bulk => self.bulk,
        }
    }

    fn sync_worker_count(&mut self, worker_count: usize)
        requires
            old(self).wf(),
        ensures
            final(self).wf(),
            final(self)@ == old(self)@.synced(worker_count),
    {
        if self.worker_count != worker_count {
            self.worker_count = worker_count;
            self.small = RoundRobinCursor::default();
            self.medium = RoundRobinCursor::default();
            self.bulk = RoundRobinCursor::default();
        }
    }

    /// Hands a packet of a class to one of `worker_count` workers.
    pub fn begin_for_class(&mut self, worker_count: usize, class: PacketClass) -> (ticket: Option<
        DispatchTicket,
    >)
        requires
            old(self).wf(),
        ensures
            final(self).wf(),
            ticket == old(self)@.ticket(worker_count, class),
            final(self)@ == old(self)@.advanced(worker_count, class),
    {
        if worker_count == 0 {
            return None;
        }
        self.sync_worker_count(worker_count);
        let ghost synced = self@;
        let mut cursor = self.cursor(class);
        assert(synced.cursor(class).remaining < class::chunk_of(class));
        if cursor.remaining == 0 {
            cursor.remaining = class.stream_chunk();
        }
        let start_slot: usize = cursor.current_worker;
        cursor.remaining = cursor.remaining - 1;
        if cursor.remaining == 0 {
            cursor.current_worker = cursor.current_worker + 1;
            if cursor.current_worker == worker_count {
                cursor.current_worker = 0;
            }
        }
        match class {
            PacketClass::Small => self.small = cursor,
            PacketClass::Medium => self.medium = cursor,
            PacketClass::Bulk => self.bulk = cursor,
        }
        proof {
            assert(self@ =~= synced.with_cursor(class, cursor));
            assert forall|other: PacketClass|
                {
                    let turn = #[trigger] self@.cursor(other);
                    &&& turn.remaining < class::chunk_of(other)
                    &&& turn.current_worker < self@.worker_count || turn
                        == RoundRobinCursor::fresh()
                } by {
                if other != class {
                    assert(self@.cursor(other) == synced.cursor(other));
                }
            }
        }
        Some(DispatchTicket { start_slot, class })
    }

    /// Hands a packet of a class to one of the workers. When a turn of the class is over, the
    /// scheduler goes by `source` from then on.
    pub fn begin(&mut self, source: &Arc<Vec<WorkerChannels>>, class: PacketClass) -> (ticket:
        Option<DispatchTicket>)
        requires
            old(self).wf(),
        ensures
            final(self).wf(),
            ({
                let ready = old(self)@.refreshed(worker_views((**source)@), class);
                &&& ticket == ready.ticket(ready.worker_count, class)
                &&& final(self)@ == ready.advanced(ready.worker_count, class)
            }),
    {
        let ghost before = self@;
        if self.cursor(class).remaining == 0 {
            self.workers = source.clone();
            let count: usize = self.workers.len();
            proof {
                assert forall|other: PacketClass| #[trigger]
                    self@.cursor(other) == before.cursor(other) by {}
                assert(self@.valid()) by {
                    assert(before.valid());
                }
            }
            self.sync_worker_count(count);
        }
        assert(self@ =~= before.refreshed(worker_views((**source)@), class));
        self.begin_for_class(self.worker_count, class)
    }

    /// How many workers the scheduler goes by.
    pub fn worker_total(&self) -> (count: usize)
        ensures
            count == self@.workers.len(),
    {
        self.workers.len()
    }

    /// The worker that a packet goes to.
    pub fn selected(&self, ticket: DispatchTicket) -> (worker: Option<&WorkerChannels>)
        ensures
            worker is Some <==> ticket.start_slot < self@.workers.len(),
            worker matches Some(found) ==> found@ == self@.workers[ticket.start_slot as int],
    {
        if ticket.start_slot < self.workers.len() {
            Some(&self.workers[ticket.start_slot])
        } else {
            None
        }
    }
}

/// The scheduler once packets of these classes were handed out, one after the other.
pub open spec fn advanced_all(
    scheduler: SchedulerView,
    worker_count: usize,
    classes: Seq<PacketClass>,
) -> SchedulerView
    decreases classes.len(),
{
    if classes.len() == 0 {
        scheduler
    } else {
        advanced_all(scheduler, worker_count, classes.drop_last()).advanced(
            worker_count,
            classes.last(),
        )
    }
}

/// How many of the packets are of a class.
pub open spec fn count_of(classes: Seq<PacketClass>, class: PacketClass) -> nat
    decreases classes.len(),
{
    if classes.len() == 0 {
        0
    } else {
        count_of(classes.drop_last(), class) + if classes.last() == class {
            1nat
        } else {
            0
        }
    }
}

/// How many of the packets of a class went to a worker.
pub open spec fn share_of(
    scheduler: SchedulerView,
    worker_count: usize,
    classes: Seq<PacketClass>,
    class: PacketClass,
    worker: usize,
) -> nat
    decreases classes.len(),
{
    if classes.len() == 0 {
        0
    } else {
        let before = advanced_all(scheduler, worker_count, classes.drop_last());
        share_of(scheduler, worker_count, classes.drop_last(), class, worker) + if classes.last()
            == class && before.ticket(worker_count, class) == Some(
            DispatchTicket { start_slot: worker, class },
        ) {
            1nat
        } else {
            0
        }
    }
}

/// Packets of a class go to the workers in turn, each worker getting a full chunk before it is
/// the next one's turn, whatever packets of other classes come between: once `count` packets of
/// the class were handed out, the next goes to worker `count / chunk`, counted round and round.
pub proof fn chunks_go_round(
    scheduler: SchedulerView,
    worker_count: usize,
    classes: Seq<PacketClass>,
    class: PacketClass,
)
    requires
        worker_count > 0,
        scheduler.synced(worker_count).cursor(class) == RoundRobinCursor::fresh(),
    ensures
        advanced_all(scheduler, worker_count, classes).ticket(worker_count, class) == Some(
            DispatchTicket {
                start_slot: ((count_of(classes, class) / class::chunk_of(class) as nat) % (
                worker_count as nat)) as usize,
                class,
            },
        ),
{
    lemma_cursor_after(scheduler, worker_count, classes, class);
}

/// Once all workers have had `rounds` turns with a class, each has got as many packets of it
/// as the others, whatever packets of other classes came between.
pub proof fn workers_share_evenly(
    scheduler: SchedulerView,
    worker_count: usize,
    classes: Seq<PacketClass>,
    class: PacketClass,
    rounds: nat,
    worker: usize,
)
    requires
        worker < worker_count,
        scheduler.synced(worker_count).cursor(class) == RoundRobinCursor::fresh(),
        count_of(classes, class) == worker_count * class::chunk_of(class) * rounds,
    ensures
        share_of(scheduler, worker_count, classes, class, worker) == class::chunk_of(class)
            * rounds,
{
    let chunk = class::chunk_of(class) as nat;
    lemma_share(scheduler, worker_count, classes, class, worker);
    lemma_rounds(rounds, chunk, worker_count as nat, worker as nat);
}

/// How many of the numbers below `count` fall to a worker, where chunks of them go round.
spec fn turns(count: nat, chunk: nat, n: nat, worker: nat) -> nat
    decreases count,
{
    if count == 0 {
        0
    } else {
        let last = (count - 1) as nat;
        turns(last, chunk, n, worker) + if (last / chunk) % n == worker {
            1nat
        } else {
            0
        }
    }
}

proof fn lemma_share(
    scheduler: SchedulerView,
    worker_count: usize,
    classes: Seq<PacketClass>,
    class: PacketClass,
    worker: usize,
)
    requires
        worker < worker_count,
        scheduler.synced(worker_count).cursor(class) == RoundRobinCursor::fresh(),
    ensures
        share_of(scheduler, worker_count, classes, class, worker) == turns(
            count_of(classes, class),
            class::chunk_of(class) as nat,
            worker_count as nat,
            worker as nat,
        ),
    decreases classes.len(),
{
    if classes.len() > 0 {
        let rest = classes.drop_last();
        lemma_share(scheduler, worker_count, rest, class, worker);
        chunks_go_round(scheduler, worker_count, rest, class);
        let slot = (count_of(rest, class) / class::chunk_of(class) as nat) % (worker_count as nat);
        assert(slot < worker_count) by (nonlinear_arith)
            requires
                worker_count > 0,
                slot == (count_of(rest, class) / class::chunk_of(class) as nat) % (
                worker_count as nat),
        ;
    }
}

/// Of the numbers that follow full rounds, a worker gets its chunk when its turn comes.
proof fn lemma_round(rounds: nat, upto: nat, chunk: nat, n: nat, worker: nat)
    requires
        chunk > 0,
        worker < n,
        upto <= n * chunk,
    ensures
        turns(n * chunk * rounds + upto, chunk, n, worker) == turns(
            n * chunk * rounds,
            chunk,
            n,
            worker,
        ) + if upto <= worker * chunk {
            0
        } else if upto <= (worker + 1) * chunk {
            upto - worker * chunk
        } else {
            chunk as int
        },
    decreases upto,
{
    if upto > 0 {
        let last = (upto - 1) as nat;
        lemma_round(rounds, last, chunk, n, worker);
        let number = n * chunk * rounds + last;
        let q = last / chunk;
        let r = last % chunk;
        vstd::arithmetic::div_mod::lemma_fundamental_div_mod(last as int, chunk as int);
        assert(number == (n * rounds + q) * chunk + r) by (nonlinear_arith)
            requires
                number == n * chunk * rounds + last,
                last == chunk * q + r,
        ;
        vstd::arithmetic::div_mod::lemma_fundamental_div_mod_converse(
            number as int,
            chunk as int,
            (n * rounds + q) as int,
            r as int,
        );
        assert(q < n) by (nonlinear_arith)
            requires
                last == chunk * q + r,
                last < n * chunk,
                0 <= r,
        ;
        assert(n * rounds + q == rounds * n + q) by (nonlinear_arith);
        vstd::arithmetic::div_mod::lemma_fundamental_div_mod_converse(
            (n * rounds + q) as int,
            n as int,
            rounds as int,
            q as int,
        );
        assert((q == worker) == (worker * chunk <= last < (worker + 1) * chunk)) by (nonlinear_arith)
            requires
                last == chunk * q + r,
                0 <= r < chunk,
        ;
        assert((worker + 1) * chunk == worker * chunk + chunk) by (nonlinear_arith);
        assert(turns(number + 1, chunk, n, worker) == turns(number, chunk, n, worker) + if q == worker {
            1nat
        } else {
            0
        });
    }
}

proof fn lemma_rounds(rounds: nat, chunk: nat, n: nat, worker: nat)
    requires
        chunk > 0,
        worker < n,
    ensures
        turns(n * chunk * rounds, chunk, n, worker) == chunk * rounds,
    decreases rounds,
{
    if rounds > 0 {
        let before = (rounds - 1) as nat;
        lemma_rounds(before, chunk, n, worker);
        lemma_round(before, n * chunk, chunk, n, worker);
        assert(n * chunk * rounds == n * chunk * before + n * chunk) by (nonlinear_arith)
            requires
                rounds == before + 1,
        ;
        assert(chunk * rounds == chunk * before + chunk) by (nonlinear_arith)
            requires
                rounds == before + 1,
        ;
        assert(n * chunk >= (worker + 1) * chunk) by (nonlinear_arith)
            requires
                n >= worker + 1,
        ;
        assert((worker + 1) * chunk == worker * chunk + chunk) by (nonlinear_arith);
    } else {
        assert(n * chunk * 0 == 0) by (nonlinear_arith);
        assert(chunk * 0 == 0) by (nonlinear_arith);
    }
}

proof fn lemma_cursor_after(
    scheduler: SchedulerView,
    worker_count: usize,
    classes: Seq<PacketClass>,
    class: PacketClass,
)
    requires
        worker_count > 0,
        scheduler.synced(worker_count).cursor(class) == RoundRobinCursor::fresh(),
    ensures
        ({
            let after = advanced_all(scheduler, worker_count, classes).synced(worker_count);
            let count = count_of(classes, class);
            let chunk = class::chunk_of(class) as nat;
            let n = worker_count as nat;
            &&& after.cursor(class).current_worker == (count / chunk) % n
            &&& after.cursor(class).remaining == if count % chunk == 0 {
                0
            } else {
                chunk - count % chunk
            }
        }),
    decreases classes.len(),
{
    let count = count_of(classes, class);
    let chunk = class::chunk_of(class) as nat;
    let n = worker_count as nat;
    if classes.len() > 0 {
        let rest = classes.drop_last();
        let prev = count_of(rest, class);
        lemma_cursor_after(scheduler, worker_count, rest, class);
        if classes.last() == class {
            vstd::arithmetic::div_mod::lemma_fundamental_div_mod(prev as int, chunk as int);
            if prev % chunk == chunk - 1 {
                vstd::arithmetic::div_mod::lemma_fundamental_div_mod_converse(
                    count as int,
                    chunk as int,
                    (prev / chunk + 1) as int,
                    0,
                );
                lemma_next_mod((prev / chunk) as nat, n);
            } else {
                vstd::arithmetic::div_mod::lemma_fundamental_div_mod_converse(
                    count as int,
                    chunk as int,
                    (prev / chunk) as int,
                    (prev % chunk + 1) as int,
                );
            }
        }
    } else {
        vstd::arithmetic::div_mod::lemma_div_basics(chunk as int);
        assert(0nat % n == 0) by (nonlinear_arith)
            requires
                n > 0,
        ;
    }
}

/// The next number, counted round and round.
proof fn lemma_next_mod(value: nat, n: nat)
    requires
        n > 0,
    ensures
        (value + 1) % n == if value % n + 1 == n {
            0
        } else {
            value % n + 1
        },
{
    vstd::arithmetic::div_mod::lemma_fundamental_div_mod(value as int, n as int);
    vstd::arithmetic::div_mod::lemma_mod_bound(value as int, n as int);
    vstd::arithmetic::mul::lemma_mul_is_commutative(n as int, (value / n) as int);
    if value % n + 1 == n {
        assert(value + 1 == (value / n) * n + n);
        assert((value / n) * n + n == (value / n + 1) * n) by (nonlinear_arith);
        vstd::arithmetic::div_mod::lemma_fundamental_div_mod_converse(
            (value + 1) as int,
            n as int,
            (value / n + 1) as int,
            0,
        );
    } else {
        vstd::arithmetic::div_mod::lemma_fundamental_div_mod_converse(
            (value + 1) as int,
            n as int,
            (value / n) as int,
            (value % n + 1) as int,
        );
    }
}

} // verus!
