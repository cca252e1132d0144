//! The slots that sessions live in, which the `slab` crate hands out.
use crate::session::HotSession;
use slab::Slab;
use vstd::prelude::*;

verus! {

/// The slot allocator of the `slab` crate.
#[verifier::external_type_specification]
#[verifier::external_body]
#[verifier::reject_recursive_types(T)]
pub struct ExSlab<T>(Slab<T>);

/// The sessions that a slab holds, by slot.
pub uninterp spec fn slab_sessions(slab: Slab<HotSession>) -> Map<usize, HotSession>;

/// Slots in ascending order, each once.
pub open spec fn ascending(slots: Seq<usize>) -> bool {
    forall|i: int, j: int| 0 <= i < j < slots.len() ==> slots[i] < slots[j]
}

/// The slots of `set` in ascending order.
pub open spec fn sorted(set: Set<usize>) -> Seq<usize> {
    choose|slots: Seq<usize>|
        ascending(slots) && forall|slot: usize| slots.contains(slot) <==> set.contains(slot)
}

/// Sessions after some moves from slot to slot, one after the other.
pub open spec fn relocated<S>(sessions: Map<usize, S>, moves: Seq<(usize, usize)>) -> Map<
    usize,
    S,
>
    decreases moves.len(),
{
    if moves.len() == 0 {
        sessions
    } else {
        let before = relocated(sessions, moves.drop_last());
        let (from, to) = moves.last();
        before.remove(from).insert(to, before[from])
    }
}

/// The most slots that room is made for at once.
pub const SLOTS_AT_ONCE: usize = 65_536;

/// `Slab::with_capacity`: a slab without sessions. It panics where so much memory cannot be
/// addressed.
#[verifier::external_body]
pub(crate) fn slab_with_capacity(capacity: usize) -> (made: Slab<HotSession>)
    requires
        capacity <= SLOTS_AT_ONCE,
    ensures
        forall|slot: usize| !#[trigger] slab_sessions(made).contains_key(slot),
{
    Slab::with_capacity(capacity)
}

/// `Slab::len`: how many sessions there are.
#[verifier::external_body]
pub(crate) fn slab_len(slab: &Slab<HotSession>) -> (len: usize)
    ensures
        len == slab_sessions(*slab).dom().len(),
{
    slab.len()
}

/// `Slab::contains`: whether a slot holds a session.
#[verifier::external_body]
pub(crate) fn slab_contains(slab: &Slab<HotSession>, slot: usize) -> (found: bool)
    ensures
        found == slab_sessions(*slab).contains_key(slot),
{
    slab.contains(slot)
}

/// `Slab::get`: the session in a slot.
#[verifier::external_body]
pub(crate) fn slab_get(slab: &Slab<HotSession>, slot: usize) -> (session: Option<&HotSession>)
    ensures
        session is Some <==> slab_sessions(*slab).contains_key(slot),
        session is Some ==> *session->0 == slab_sessions(*slab)[slot],
{
    slab.get(slot)
}

/// `Slab::get_mut`: the session in a slot, to be changed.
#[verifier::external_body]
pub(crate) fn slab_get_mut(slab: &mut Slab<HotSession>, slot: usize) -> (session: &mut HotSession)
    requires
        slab_sessions(*old(slab)).contains_key(slot),
    ensures
        *session == slab_sessions(*old(slab))[slot],
        slab_sessions(*final(slab)) == slab_sessions(*old(slab)).insert(slot, *final(session)),
{
    slab.get_mut(slot).unwrap()
}

/// `Slab::insert`: puts a session into a slot that was free.
#[verifier::external_body]
pub(crate) fn slab_insert(slab: &mut Slab<HotSession>, session: HotSession) -> (slot: usize)
    ensures
        !slab_sessions(*old(slab)).contains_key(slot),
        slab_sessions(*final(slab)) == slab_sessions(*old(slab)).insert(slot, session),
{
    slab.insert(session)
}

/// `Slab::remove`: takes the session out of a slot.
#[verifier::external_body]
pub(crate) fn slab_remove(slab: &mut Slab<HotSession>, slot: usize) -> (session: HotSession)
    requires
        slab_sessions(*old(slab)).contains_key(slot),
    ensures
        session == slab_sessions(*old(slab))[slot],
        slab_sessions(*final(slab)) == slab_sessions(*old(slab)).remove(slot),
{
    slab.remove(slot)
}

/// `Slab::iter`: the slots that hold a session, in ascending order.
#[verifier::external_body]
pub(crate) fn slab_slots(slab: &Slab<HotSession>) -> (slots: Vec<usize>)
    ensures
        ascending(slots@),
        forall|slot: usize|
            #![trigger slots@.contains(slot)]
            #![trigger slab_sessions(*slab).contains_key(slot)]
            slots@.contains(slot) <==> slab_sessions(*slab).contains_key(slot),
{
    slab.iter().map(|(slot, _)| slot).collect()
}

/// `Slab::capacity`: how many sessions fit without allocating, at least those that are held.
/// How many that is beyond them, the allocator decides.
#[verifier::external_body]
pub(crate) fn slab_capacity(slab: &Slab<HotSession>) -> (capacity: usize)
    ensures
        capacity >= slab_sessions(*slab).dom().len(),
{
    slab.capacity()
}

/// Takes note of a move, which is to be made.
fn note_move(moves: &mut Vec<(usize, usize)>, from: usize, to: usize) -> (made: bool)
    ensures
        made,
        final(moves)@ == old(moves)@.push((from, to)),
{
    moves.push((from, to));
    true
}

/// `Slab::compact`: moves sessions from the last slots into free ones until the occupied
/// slots are the first ones. The moves are returned in the order in which they were made:
/// each is from an occupied slot beyond the first ones to a free one among them.
#[verifier::external_body]
pub(crate) fn slab_compact(slab: &mut Slab<HotSession>) -> (moves: Vec<(usize, usize)>)
    ensures
        slab_sessions(*final(slab)) == relocated(slab_sessions(*old(slab)), moves@),
        forall|i: int|
            0 <= i < moves@.len() ==> {
                let before = relocated(slab_sessions(*old(slab)), #[trigger] moves@.take(i));
                before.contains_key(moves@[i].0) && !before.contains_key(moves@[i].1)
            },
        forall|i: int|
            0 <= i < moves@.len() ==> (#[trigger] moves@[i]).1 < slab_sessions(
                *final(slab),
            ).dom().len() <= moves@[i].0,
        forall|slot: usize| #[trigger]
            slab_sessions(*final(slab)).contains_key(slot) ==> slot < slab_sessions(
                *final(slab),
            ).dom().len(),
{
    let mut moves = Vec::new();
    slab.compact(|_, from, to| note_move(&mut moves, from, to));
    moves
}

/// `Slab::shrink_to_fit`: gives back memory that holds no session.
#[verifier::external_body]
pub(crate) fn slab_shrink(slab: &mut Slab<HotSession>)
    ensures
        slab_sessions(*final(slab)) == slab_sessions(*old(slab)),
{
    slab.shrink_to_fit();
}

/// `Slab::reserve`: makes room for `additional` more sessions. It panics where so much memory
/// cannot be addressed.
#[verifier::external_body]
pub(crate) fn slab_reserve(slab: &mut Slab<HotSession>, additional: usize)
    requires
        additional <= SLOTS_AT_ONCE,
    ensures
        slab_sessions(*final(slab)) == slab_sessions(*old(slab)),
{
    slab.reserve(additional);
}

/// Two ascending lists of the same slots are the same.
pub proof fn lemma_ascending_unique(left: Seq<usize>, right: Seq<usize>)
    requires
        ascending(left),
        ascending(right),
        forall|slot: usize| left.contains(slot) <==> right.contains(slot),
    ensures
        left == right,
    decreases left.len(),
{
    if left.len() == 0 {
        if right.len() > 0 {
            assert(right.contains(right[0]));
            assert(left.contains(right[0]));
        }
        assert(left =~= right);
    } else {
        let last = left.last();
        assert(left.contains(last));
        assert(right.contains(last));
        assert(right.contains(right.last()));
        assert(left.contains(right.last()));
        assert(right.last() == last);
        let l = left.drop_last();
        let r = right.drop_last();
        assert forall|slot: usize| l.contains(slot) <==> r.contains(slot) by {
            if l.contains(slot) {
                let i = choose|i: int| 0 <= i < l.len() && l[i] == slot;
                assert(left[i] == slot);
                assert(left.contains(slot));
                assert(right.contains(slot));
                let j = choose|j: int| 0 <= j < right.len() && right[j] == slot;
                assert(j < r.len());
                assert(r[j] == slot);
            }
            if r.contains(slot) {
                let i = choose|i: int| 0 <= i < r.len() && r[i] == slot;
                assert(right[i] == slot);
                assert(right.contains(slot));
                assert(left.contains(slot));
                let j = choose|j: int| 0 <= j < left.len() && left[j] == slot;
                assert(j < l.len());
                assert(l[j] == slot);
            }
        }
        lemma_ascending_unique(l, r);
        assert(left =~= l.push(last));
        assert(right =~= r.push(last));
    }
}

/// The slots of `set` below `bound`, in ascending order.
spec fn listed_below(set: Set<usize>, bound: nat) -> Seq<usize>
    decreases bound,
{
    if bound == 0 {
        Seq::empty()
    } else {
        let rest = listed_below(set, (bound - 1) as nat);
        if set.contains((bound - 1) as usize) {
            rest.push((bound - 1) as usize)
        } else {
            rest
        }
    }
}

proof fn lemma_listed_below(set: Set<usize>, bound: nat)
    requires
        bound <= usize::MAX + 1,
    ensures
        ascending(listed_below(set, bound)),
        forall|slot: usize| #[trigger]
            listed_below(set, bound).contains(slot) <==> slot < bound && set.contains(slot),
    decreases bound,
{
    if bound > 0 {
        let last = (bound - 1) as usize;
        let rest = listed_below(set, (bound - 1) as nat);
        let all = listed_below(set, bound);
        lemma_listed_below(set, (bound - 1) as nat);
        assert forall|i: int, j: int| 0 <= i < j < all.len() implies all[i] < all[j] by {
            assert(rest.contains(rest[i]));
        }
        assert forall|slot: usize| #[trigger] all.contains(slot) <==> slot < bound && set.contains(
            slot,
        ) by {
            if rest.contains(slot) {
                let i = choose|i: int| 0 <= i < rest.len() && rest[i] == slot;
                assert(all[i] == slot);
            }
            if all.contains(slot) && slot != last {
                let i = choose|i: int| 0 <= i < all.len() && all[i] == slot;
                assert(rest[i] == slot);
            }
            if slot == last && set.contains(slot) {
                assert(all[all.len() - 1] == slot);
            }
        }
    }
}

/// The slots of a set in ascending order are those of the set.
pub proof fn lemma_sorted_lists(set: Set<usize>)
    ensures
        ascending(sorted(set)),
        forall|slot: usize| #[trigger] sorted(set).contains(slot) <==> set.contains(slot),
{
    let all = listed_below(set, (usize::MAX + 1) as nat);
    lemma_listed_below(set, (usize::MAX + 1) as nat);
    assert(ascending(all) && forall|slot: usize| all.contains(slot) <==> set.contains(slot));
}

/// An ascending list of the slots of `set` is the sorted one.
pub proof fn lemma_sorted(slots: Seq<usize>, set: Set<usize>)
    requires
        ascending(slots),
        forall|slot: usize| slots.contains(slot) <==> set.contains(slot),
    ensures
        slots == sorted(set),
{
    lemma_ascending_unique(slots, sorted(set));
}

/// A session that was moved stays where it was moved to, as long as the slots that sessions
/// are moved to are not those that they are moved from.
pub proof fn lemma_settled<S>(
    sessions: Map<usize, S>,
    moves: Seq<(usize, usize)>,
    bound: nat,
    i: int,
)
    requires
        0 <= i < moves.len(),
        forall|j: int| 0 <= j < moves.len() ==> (#[trigger] moves[j]).1 < bound <= moves[j].0,
        forall|j: int|
            0 <= j < moves.len() ==> {
                let before = relocated(sessions, #[trigger] moves.take(j));
                before.contains_key(moves[j].0) && !before.contains_key(moves[j].1)
            },
    ensures
        relocated(sessions, moves).contains_key(moves[i].1),
        relocated(sessions, moves)[moves[i].1] == relocated(sessions, moves.take(i))[moves[i].0],
    decreases moves.len(),
{
    let last = moves.len() - 1;
    let rest = moves.drop_last();
    assert(rest =~= moves.take(last));
    let before = relocated(sessions, moves.take(last));
    if i < last {
        assert forall|j: int| 0 <= j < rest.len() implies {
            let before = relocated(sessions, #[trigger] rest.take(j));
            before.contains_key(rest[j].0) && !before.contains_key(rest[j].1)
        } by {
            assert(rest.take(j) =~= moves.take(j));
        }
        lemma_settled(sessions, rest, bound, i);
        assert(rest.take(i) =~= moves.take(i));
        assert(!before.contains_key(moves[last].1));
    }
}

/// Whatever holds of all sessions still holds of them once they were moved.
pub proof fn lemma_relocated_values<S>(
    sessions: Map<usize, S>,
    moves: Seq<(usize, usize)>,
    slot: usize,
)
    requires
        relocated(sessions, moves).contains_key(slot),
        forall|j: int|
            0 <= j < moves.len() ==> relocated(sessions, #[trigger] moves.take(j)).contains_key(
                moves[j].0,
            ),
    ensures
        exists|from: usize|
            sessions.contains_key(from) && #[trigger] sessions[from] == relocated(
                sessions,
                moves,
            )[slot],
    decreases moves.len(),
{
    if moves.len() > 0 {
        let last = moves.len() - 1;
        let rest = moves.drop_last();
        assert(rest =~= moves.take(last));
        assert forall|j: int| 0 <= j < rest.len() implies relocated(
            sessions,
            #[trigger] rest.take(j),
        ).contains_key(rest[j].0) by {
            assert(rest.take(j) =~= moves.take(j));
        }
        if slot == moves[last].1 {
            lemma_relocated_values(sessions, rest, moves[last].0);
        } else {
            lemma_relocated_values(sessions, rest, slot);
        }
    } else {
        assert(sessions[slot] == relocated(sessions, moves)[slot]);
    }
}

} // verus!
