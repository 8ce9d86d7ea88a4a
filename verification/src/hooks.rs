//! What a surface remembers of the seats whose keyboard focus it has.
//!
//! A surface that is given a seat's keyboard focus gets a destruction hook, so that its client is
//! told `leave` when the surface goes away with the focus still on it. The hook names the seat by
//! its [`SeatId`] alone: the focused surface keeps no seat alive.
use crate::objects::{HookId, Liveness, ObjectId, SeatId, Serial};
use crate::sequences::{
    first_index, is_first, lemma_filter_all, lemma_filter_contains, lemma_filter_push,
    lemma_filter_take, lemma_first_index_found,
};
use vstd::prelude::*;

verus! {

/// The destruction hook of each seat that has its keyboard focus on a surface.
///
/// Few seats are expected, so a list with linear comparison is fine.
#[derive(Debug)]
pub struct FocusDestroyHook {
    entries: Vec<(SeatId, HookId)>,
}

/// No seat stands in the list twice.
pub open spec fn distinct_seats(entries: Seq<(SeatId, HookId)>) -> bool {
    forall|i: int, j: int|
        0 <= i < j < entries.len() ==> (#[trigger] entries[i]).0 != (#[trigger] entries[j]).0
}

/// The entry at `i` is that of the seat.
spec fn entry_of(entries: Seq<(SeatId, HookId)>, seat: SeatId, i: int) -> bool {
    0 <= i < entries.len() && entries[i].0 == seat
}

/// The hook that a list gives each seat.
spec fn hooks_by_seat(entries: Seq<(SeatId, HookId)>) -> Map<SeatId, HookId> {
    Map::new(
        |seat: SeatId| exists|i: int| entry_of(entries, seat, i),
        |seat: SeatId| entries[choose|i: int| entry_of(entries, seat, i)].1,
    )
}

proof fn lemma_hook_at(entries: Seq<(SeatId, HookId)>, i: int)
    requires
        distinct_seats(entries),
        0 <= i < entries.len(),
    ensures
        hooks_by_seat(entries).dom().contains(entries[i].0),
        hooks_by_seat(entries)[entries[i].0] == entries[i].1,
{
    let seat = entries[i].0;
    assert(entry_of(entries, seat, i));
    let k = choose|k: int| entry_of(entries, seat, k);
    assert(entry_of(entries, seat, k));
    assert(k == i);
}

proof fn lemma_hook_from(entries: Seq<(SeatId, HookId)>, seat: SeatId) -> (i: int)
    requires
        hooks_by_seat(entries).dom().contains(seat),
    ensures
        entry_of(entries, seat, i),
{
    choose|i: int| entry_of(entries, seat, i)
}

/// Two lists give the seats the same hooks if each entry of one is matched.
proof fn lemma_hooks_equal(entries: Seq<(SeatId, HookId)>, hooks: Map<SeatId, HookId>)
    requires
        distinct_seats(entries),
        forall|i: int|
            0 <= i < entries.len() ==> hooks.dom().contains((#[trigger] entries[i]).0)
                && hooks[entries[i].0] == entries[i].1,
        forall|seat: SeatId| #[trigger]
            hooks.dom().contains(seat) ==> exists|i: int| entry_of(entries, seat, i),
    ensures
        hooks_by_seat(entries) == hooks,
{
    let by_seat = hooks_by_seat(entries);
    assert forall|seat: SeatId| by_seat.dom().contains(seat) == hooks.dom().contains(seat) by {
        if by_seat.dom().contains(seat) {
            let i = lemma_hook_from(entries, seat);
            assert(entries[i].0 == seat);
        }
    }
    assert forall|seat: SeatId| by_seat.dom().contains(seat) implies by_seat[seat]
        == hooks[seat] by {
        let i = lemma_hook_from(entries, seat);
        lemma_hook_at(entries, i);
    }
    assert(by_seat =~= hooks);
}

/// The hook that is remembered for a seat, while the seat exists.
pub open spec fn remembered(
    hooks: Map<SeatId, HookId>,
    seat: SeatId,
    live: &Liveness,
) -> Option<HookId> {
    if hooks.dom().contains(seat) && live.seat_exists(seat) {
        Some(hooks[seat])
    } else {
        None
    }
}

/// What is remembered once the hook of a seat was inserted.
pub open spec fn with_hook(
    hooks: Map<SeatId, HookId>,
    seat: SeatId,
    hook_id: HookId,
    live: &Liveness,
) -> Map<SeatId, HookId> {
    hooks.restrict(live.seats@.to_set()).insert(seat, hook_id)
}

/// What is remembered once the hook of a seat was removed.
pub open spec fn without_hook(
    hooks: Map<SeatId, HookId>,
    seat: SeatId,
    live: &Liveness,
) -> Map<SeatId, HookId> {
    hooks.restrict(live.seats@.to_set()).remove(seat)
}

/// The entry is that of a seat that exists.
pub open spec fn of_live_seat(live: &Liveness) -> spec_fn((SeatId, HookId)) -> bool {
    |entry: (SeatId, HookId)| live.seat_exists(entry.0)
}

/// The entry is that of the seat.
pub open spec fn of_seat(seat: SeatId) -> spec_fn((SeatId, HookId)) -> bool {
    |entry: (SeatId, HookId)| entry.0 == seat
}

/// The entry is that of another seat.
pub open spec fn of_other_seat(seat: SeatId) -> spec_fn((SeatId, HookId)) -> bool {
    |entry: (SeatId, HookId)| entry.0 != seat
}

/// The list once the hook of a seat was inserted: those of seats that are gone are dropped, and
/// the new one stands where the seat stood, or at the end.
pub open spec fn entries_with(
    entries: Seq<(SeatId, HookId)>,
    seat: SeatId,
    hook_id: HookId,
    live: &Liveness,
) -> Seq<(SeatId, HookId)> {
    let kept = entries.filter(of_live_seat(live));
    match first_index(kept, of_seat(seat)) {
        Some(i) => kept.update(i, (seat, hook_id)),
        None => kept.push((seat, hook_id)),
    }
}

/// The list once the hook of a seat was removed: those of seats that are gone are dropped too, and
/// the others stand as they stood.
pub open spec fn entries_without(
    entries: Seq<(SeatId, HookId)>,
    seat: SeatId,
    live: &Liveness,
) -> Seq<(SeatId, HookId)> {
    entries.filter(of_live_seat(live)).filter(of_other_seat(seat))
}

/// Taking out the one entry of a seat leaves those of the others.
proof fn lemma_remove_is_filter(entries: Seq<(SeatId, HookId)>, i: int)
    requires
        distinct_seats(entries),
        0 <= i < entries.len(),
    ensures
        entries.filter(of_other_seat(entries[i].0)) == entries.remove(i),
{
    let pred = of_other_seat(entries[i].0);
    let front = entries.take(i);
    let back = entries.skip(i + 1);
    assert(entries =~= front.push(entries[i]) + back);
    Seq::filter_distributes_over_add(front.push(entries[i]), back, pred);
    lemma_filter_push(front, pred, entries[i]);
    assert forall|j: int| 0 <= j < front.len() implies pred(#[trigger] front[j]) by {
        assert(front[j] == entries[j]);
    }
    lemma_filter_all(front, pred);
    assert forall|j: int| 0 <= j < back.len() implies pred(#[trigger] back[j]) by {
        assert(back[j] == entries[i + 1 + j]);
    }
    lemma_filter_all(back, pred);
    assert(entries.remove(i) =~= front + back);
}

impl View for FocusDestroyHook {
    type V = Map<SeatId, HookId>;

    closed spec fn view(&self) -> Map<SeatId, HookId> {
        hooks_by_seat(self.entries@)
    }
}

impl Default for FocusDestroyHook {
    /// No seat has its focus here.
    fn default() -> (r: FocusDestroyHook)
        ensures
            r.wf(),
            r@ == Map::<SeatId, HookId>::empty(),
            r.listed() == Seq::<(SeatId, HookId)>::empty(),
    {
        let r = FocusDestroyHook { entries: Vec::new() };
        assert(r@ =~= Map::<SeatId, HookId>::empty()) by {
            assert forall|seat: SeatId| !r@.dom().contains(seat) by {
                if r@.dom().contains(seat) {
                    let i = lemma_hook_from(r.entries@, seat);
                }
            }
        }
        r
    }
}

impl FocusDestroyHook {
    /// Each seat has at most one hook.
    pub closed spec fn wf(&self) -> bool {
        distinct_seats(self.entries@)
    }

    /// The hooks with their seats, as they stand in the list.
    pub closed spec fn listed(&self) -> Seq<(SeatId, HookId)> {
        self.entries@
    }

    /// Forget the seats that are gone.
    fn retain_alive(&mut self, live: &Liveness)
        requires
            old(self).wf(),
        ensures
            final(self).wf(),
            final(self)@ == old(self)@.restrict(live.seats@.to_set()),
            final(self).listed() == old(self).listed().filter(of_live_seat(live)),
    {
        let mut kept: Vec<(SeatId, HookId)> = Vec::new();
        let mut i: usize = 0;
        let ghost entries = self.entries@;
        let ghost pred = of_live_seat(live);
        proof {
            reveal(Seq::filter);
            assert(entries.take(0).filter(pred) =~= seq![]);
        }
        while i < self.entries.len()
            invariant
                i <= self.entries.len(),
                self.entries@ == entries,
                pred == of_live_seat(live),
                kept@ == entries.take(i as int).filter(pred),
                distinct_seats(entries),
                distinct_seats(kept@),
                forall|k: int|
                    0 <= k < kept@.len() ==> live.seat_exists((#[trigger] kept@[k]).0) && exists|
                        j: int,
                    |
                        0 <= j < i && entries[j] == kept@[k],
                forall|j: int|
                    0 <= j < i && live.seat_exists((#[trigger] entries[j]).0) ==> kept@.contains(
                        entries[j],
                    ),
            decreases self.entries.len() - i,
        {
            let ghost before = kept@;
            proof {
                lemma_filter_take(entries, pred, i as int);
            }
            if live.seat_alive(&self.entries[i].0) {
                kept.push(self.entries[i]);
                proof {
                    assert(kept@[before.len() as int] == entries[i as int]);
                    assert forall|j: int|
                        0 <= j < i + 1 && live.seat_exists(
                            (#[trigger] entries[j]).0,
                        ) implies kept@.contains(entries[j]) by {
                        if j < i {
                            let k = choose|k: int| 0 <= k < before.len() && before[k] == entries[j];
                            assert(kept@[k] == entries[j]);
                        }
                    }
                }
            }
            i += 1;
        }
        assert(entries.take(i as int) =~= entries);
        self.entries = kept;
        proof {
            let hooks = hooks_by_seat(entries).restrict(live.seats@.to_set());
            assert forall|k: int| 0 <= k < kept@.len() implies hooks.dom().contains(
                (#[trigger] kept@[k]).0,
            ) && hooks[kept@[k].0] == kept@[k].1 by {
                let j = choose|j: int| 0 <= j < entries.len() && entries[j] == kept@[k];
                lemma_hook_at(entries, j);
            }
            assert forall|seat: SeatId| #[trigger] hooks.dom().contains(seat) implies exists|k: int|
                entry_of(kept@, seat, k) by {
                let j = lemma_hook_from(entries, seat);
                assert(kept@.contains(entries[j]));
                let k = choose|k: int| 0 <= k < kept@.len() && kept@[k] == entries[j];
                assert(entry_of(kept@, seat, k));
            }
            lemma_hooks_equal(kept@, hooks);
        }
    }

    /// Where the seat stands in the list.
    fn position(&self, seat: &SeatId) -> (r: Option<usize>)
        ensures
            match r {
                Some(i) => entry_of(self.entries@, *seat, i as int),
                None => forall|i: int| !entry_of(self.entries@, *seat, i),
            },
    {
        let mut i: usize = 0;
        while i < self.entries.len()
            invariant
                i <= self.entries.len(),
                forall|j: int| j < i ==> !entry_of(self.entries@, *seat, j),
            decreases self.entries.len() - i,
        {
            if self.entries[i].0 == *seat {
                return Some(i);
            }
            i += 1;
        }
        None
    }

    /// Remember the hook of a seat, and return the one that was remembered before.
    ///
    /// Seats that are gone are forgotten first. A seat that had a hook keeps its place in the list;
    /// a new one comes last.
    pub fn insert(&mut self, seat: SeatId, hook_id: HookId, live: &Liveness) -> (r: Option<HookId>)
        requires
            old(self).wf(),
        ensures
            final(self).wf(),
            final(self)@ == with_hook(old(self)@, seat, hook_id, live),
            final(self).listed() == entries_with(old(self).listed(), seat, hook_id, live),
            r == remembered(old(self)@, seat, live),
    {
        self.retain_alive(live);
        let ghost entries = self.entries@;
        let ghost hooks = self@.insert(seat, hook_id);
        match self.position(&seat) {
            Some(i) => {
                let replaced = self.entries[i].1;
                proof {
                    lemma_hook_at(entries, i as int);
                    assert(is_first(entries, of_seat(seat), i as int));
                    lemma_first_index_found(entries, of_seat(seat), i as int);
                }
                self.entries.set(i, (seat, hook_id));
                proof {
                    let after = self.entries@;
                    assert forall|j: int| 0 <= j < after.len() implies hooks.dom().contains(
                        (#[trigger] after[j]).0,
                    ) && hooks[after[j].0] == after[j].1 by {
                        lemma_hook_at(entries, j);
                    }
                    assert forall|s: SeatId| #[trigger] hooks.dom().contains(s) implies exists|
                        j: int,
                    | entry_of(after, s, j) by {
                        if s == seat {
                            assert(entry_of(after, s, i as int));
                        } else {
                            let j = lemma_hook_from(entries, s);
                            assert(entry_of(after, s, j));
                        }
                    }
                    lemma_hooks_equal(after, hooks);
                }
                Some(replaced)
            },
            None => {
                self.entries.push((seat, hook_id));
                proof {
                    let after = self.entries@;
                    assert forall|j: int| !is_first(entries, of_seat(seat), j) by {
                        assert(!entry_of(entries, seat, j));
                    }
                    if hooks_by_seat(entries).dom().contains(seat) {
                        let j = lemma_hook_from(entries, seat);
                    }
                    assert forall|i: int, j: int| 0 <= i < j < after.len() implies (
                    #[trigger] after[i]).0 != (#[trigger] after[j]).0 by {
                        assert(!entry_of(entries, seat, i));
                    }
                    assert forall|j: int| 0 <= j < after.len() implies hooks.dom().contains(
                        (#[trigger] after[j]).0,
                    ) && hooks[after[j].0] == after[j].1 by {
                        if j < entries.len() {
                            lemma_hook_at(entries, j);
                        }
                    }
                    assert forall|s: SeatId| #[trigger] hooks.dom().contains(s) implies exists|
                        j: int,
                    | entry_of(after, s, j) by {
                        if s == seat {
                            assert(entry_of(after, s, entries.len() as int));
                        } else {
                            let j = lemma_hook_from(entries, s);
                            assert(entry_of(after, s, j));
                        }
                    }
                    lemma_hooks_equal(after, hooks);
                }
                None
            },
        }
    }

    /// Forget the hook of a seat, and return it.
    ///
    /// Seats that are gone are forgotten too. The others keep their order in the list.
    pub fn remove(&mut self, seat: &SeatId, live: &Liveness) -> (r: Option<HookId>)
        requires
            old(self).wf(),
        ensures
            final(self).wf(),
            final(self)@ == without_hook(old(self)@, *seat, live),
            final(self).listed() == entries_without(old(self).listed(), *seat, live),
            r == remembered(old(self)@, *seat, live),
    {
        self.retain_alive(live);
        let ghost entries = self.entries@;
        let ghost hooks = self@.remove(*seat);
        match self.position(seat) {
            Some(i) => {
                proof {
                    lemma_hook_at(entries, i as int);
                    lemma_remove_is_filter(entries, i as int);
                }
                let removed = self.entries.remove(i);
                proof {
                    let after = self.entries@;
                    assert forall|j: int| 0 <= j < after.len() implies hooks.dom().contains(
                        (#[trigger] after[j]).0,
                    ) && hooks[after[j].0] == after[j].1 by {
                        lemma_hook_at(entries, if j < i { j } else { j + 1 });
                    }
                    assert forall|s: SeatId| #[trigger] hooks.dom().contains(s) implies exists|
                        j: int,
                    | entry_of(after, s, j) by {
                        let j = lemma_hook_from(entries, s);
                        assert(entry_of(after, s, if j < i { j } else { j - 1 }));
                    }
                    lemma_hooks_equal(after, hooks);
                }
                Some(removed.1)
            },
            None => {
                proof {
                    if hooks_by_seat(entries).dom().contains(*seat) {
                        let j = lemma_hook_from(entries, *seat);
                    }
                    assert(self@ =~= hooks);
                    assert forall|j: int| 0 <= j < entries.len() implies of_other_seat(*seat)(
                        #[trigger] entries[j],
                    ) by {
                        assert(!entry_of(entries, *seat, j));
                    }
                    lemma_filter_all(entries, of_other_seat(*seat));
                }
                None
            },
        }
    }
}

/// The hooks of the seats are those in the list, in which no seat stands twice.
pub proof fn lemma_listed(hooks: &FocusDestroyHook)
    ensures
        hooks.wf() <==> distinct_seats(hooks.listed()),
        hooks.wf() ==> forall|i: int|
            0 <= i < hooks.listed().len() ==> hooks@.dom().contains((#[trigger] hooks.listed()[i]).0)
                && hooks@[hooks.listed()[i].0] == hooks.listed()[i].1,
        forall|seat: SeatId| #[trigger]
            hooks@.dom().contains(seat) ==> exists|i: int|
                0 <= i < hooks.listed().len() && (#[trigger] hooks.listed()[i]).0 == seat,
{
    let entries = hooks.listed();
    if hooks.wf() {
        assert forall|i: int| 0 <= i < entries.len() implies hooks@.dom().contains(
            (#[trigger] entries[i]).0,
        ) && hooks@[entries[i].0] == entries[i].1 by {
            lemma_hook_at(entries, i);
        }
    }
    assert forall|seat: SeatId| #[trigger] hooks@.dom().contains(seat) implies exists|i: int|
        0 <= i < entries.len() && (#[trigger] entries[i]).0 == seat by {
        let i = lemma_hook_from(entries, seat);
        assert(entries[i].0 == seat);
    }
}

/// The hook that was inserted last for a seat is the one that is returned, a removed one is
/// returned no more, other seats keep theirs, and seats that are gone are forgotten.
pub proof fn law_last_hook_is_returned(
    hooks: Map<SeatId, HookId>,
    seat: SeatId,
    other: SeatId,
    hook_id: HookId,
    live: &Liveness,
)
    requires
        other != seat,
    ensures
        live.seat_exists(seat) ==> remembered(with_hook(hooks, seat, hook_id, live), seat, live)
            == Some(hook_id),
        remembered(without_hook(hooks, seat, live), seat, live) is None,
        remembered(with_hook(hooks, seat, hook_id, live), other, live) == remembered(
            hooks,
            other,
            live,
        ),
        remembered(without_hook(hooks, seat, live), other, live) == remembered(hooks, other, live),
        !live.seat_exists(other) ==> !with_hook(hooks, seat, hook_id, live).dom().contains(other)
            && !without_hook(hooks, seat, live).dom().contains(other),
{
}

/// Removing undoes inserting: a list that had no hook for a seat is, once one was inserted and
/// removed, what it was before but for seats that are gone, in the same order. Removing once more
/// changes nothing.
pub proof fn law_removing_undoes_inserting(
    entries: Seq<(SeatId, HookId)>,
    seat: SeatId,
    hook_id: HookId,
    live: &Liveness,
)
    requires
        live.seat_exists(seat),
        forall|i: int| 0 <= i < entries.len() ==> (#[trigger] entries[i]).0 != seat,
    ensures
        entries_without(entries_with(entries, seat, hook_id, live), seat, live) == entries.filter(
            of_live_seat(live),
        ),
        entries_without(entries.filter(of_live_seat(live)), seat, live) == entries.filter(
            of_live_seat(live),
        ),
{
    let alive = of_live_seat(live);
    let other = of_other_seat(seat);
    let kept = entries.filter(alive);
    let entry = (seat, hook_id);
    assert forall|i: int| 0 <= i < kept.len() implies alive(#[trigger] kept[i]) && other(kept[i]) by {
        assert(kept.contains(kept[i]));
        lemma_filter_contains(entries, alive, kept[i]);
    }
    lemma_filter_all(kept, alive);
    lemma_filter_all(kept, other);
    lemma_filter_push(kept, alive, entry);
    lemma_filter_push(kept, other, entry);
    assert forall|i: int| !is_first(kept, of_seat(seat), i) by {
        if 0 <= i < kept.len() {
            assert(other(kept[i]));
        }
    }
}

/// What is to be done when a focused surface is destroyed.
#[derive(Clone, Copy, Debug, PartialEq, Eq, Structural)]
pub struct DestructionHook {
    /// The seat that has its keyboard focus on the surface. Naming it does not keep it alive.
    pub seat: SeatId,
    /// The serial with which the surface got the focus.
    pub serial: Serial,
}

/// A surface, as far as keyboard focus is concerned.
#[derive(Debug)]
pub struct SurfaceData {
    /// The surface.
    pub id: ObjectId,
    /// What is to be done when it is destroyed, oldest first.
    pub destruction_hooks: Vec<(HookId, DestructionHook)>,
    /// The hook of each seat that has its focus here.
    pub focus_hooks: FocusDestroyHook,
}

/// A surface, as contracts speak of it.
#[verifier::ext_equal]
pub struct SurfaceView {
    /// The surface.
    pub id: ObjectId,
    /// What is to be done when it is destroyed, oldest first.
    pub destruction_hooks: Seq<(HookId, DestructionHook)>,
    /// The hook of each seat that has its focus here.
    pub focus_hooks: Map<SeatId, HookId>,
}

impl View for SurfaceData {
    type V = SurfaceView;

    open spec fn view(&self) -> SurfaceView {
        SurfaceView {
            id: self.id,
            destruction_hooks: self.destruction_hooks@,
            focus_hooks: self.focus_hooks@,
        }
    }
}

/// The hook has another name.
pub open spec fn named_otherwise(id: HookId) -> spec_fn((HookId, DestructionHook)) -> bool {
    |hook: (HookId, DestructionHook)| hook.0 != id
}

/// The hooks but for one.
pub open spec fn hooks_without(
    hooks: Seq<(HookId, DestructionHook)>,
    id: HookId,
) -> Seq<(HookId, DestructionHook)> {
    hooks.filter(named_otherwise(id))
}

impl SurfaceView {
    /// The hooks of the seats that still exist.
    pub open spec fn live_hooks(self, live: &Liveness) -> Map<SeatId, HookId> {
        self.focus_hooks.restrict(live.seats@.to_set())
    }

    /// The surface after it got the focus of a seat: it has a hook for that seat, in place of the
    /// one that it may have had.
    pub open spec fn entered(
        self,
        seat: SeatId,
        serial: Serial,
        hook_id: HookId,
        live: &Liveness,
    ) -> SurfaceView {
        let hooks = self.destruction_hooks.push((hook_id, DestructionHook { seat, serial }));
        SurfaceView {
            id: self.id,
            destruction_hooks: if self.live_hooks(live).dom().contains(seat) {
                hooks_without(hooks, self.focus_hooks[seat])
            } else {
                hooks
            },
            focus_hooks: self.live_hooks(live).insert(seat, hook_id),
        }
    }

    /// The surface after it lost the focus of a seat: the hook for that seat is gone.
    pub open spec fn left(self, seat: SeatId, live: &Liveness) -> SurfaceView {
        SurfaceView {
            id: self.id,
            destruction_hooks: if self.live_hooks(live).dom().contains(seat) {
                hooks_without(self.destruction_hooks, self.focus_hooks[seat])
            } else {
                self.destruction_hooks
            },
            focus_hooks: self.live_hooks(live).remove(seat),
        }
    }

    /// No hook has this name.
    pub open spec fn is_fresh(self, hook_id: HookId) -> bool {
        &&& forall|i: int|
            0 <= i < self.destruction_hooks.len() ==> (#[trigger] self.destruction_hooks[i]).0
                != hook_id
        &&& forall|seat: SeatId|
            self.focus_hooks.dom().contains(seat) ==> #[trigger] self.focus_hooks[seat] != hook_id
    }

    /// Each hook has its own name, the hook of a seat that exists is the one that is remembered for
    /// that seat, and a hook that is remembered for a seat is a hook of that seat.
    pub open spec fn consistent(self, live: &Liveness) -> bool {
        &&& forall|i: int, j: int|
            0 <= i < j < self.destruction_hooks.len() ==> (#[trigger] self.destruction_hooks[i]).0
                != (#[trigger] self.destruction_hooks[j]).0
        &&& forall|i: int|
            0 <= i < self.destruction_hooks.len() && live.seat_exists(
                (#[trigger] self.destruction_hooks[i]).1.seat,
            ) ==> self.focus_hooks.dom().contains(self.destruction_hooks[i].1.seat)
                && self.focus_hooks[self.destruction_hooks[i].1.seat]
                == self.destruction_hooks[i].0
        &&& forall|i: int, seat: SeatId|
            0 <= i < self.destruction_hooks.len() && self.focus_hooks.dom().contains(seat) && (
            #[trigger] self.destruction_hooks[i]).0 == #[trigger] self.focus_hooks[seat]
                ==> self.destruction_hooks[i].1.seat == seat
    }
}

impl SurfaceData {
    /// Each seat has at most one hook.
    pub open spec fn wf(&self) -> bool {
        self.focus_hooks.wf()
    }

    /// A surface that no seat has its focus on.
    pub fn new(id: ObjectId) -> (r: SurfaceData)
        ensures
            r.wf(),
            r@ == (SurfaceView { id, destruction_hooks: seq![], focus_hooks: Map::empty() }),
            r.focus_hooks.listed() == Seq::<(SeatId, HookId)>::empty(),
    {
        SurfaceData {
            id,
            destruction_hooks: Vec::new(),
            focus_hooks: FocusDestroyHook::default(),
        }
    }

    /// Remove a destruction hook.
    pub fn remove_destruction_hook(&mut self, hook_id: &HookId)
        ensures
            final(self)@ == (SurfaceView {
                destruction_hooks: hooks_without(old(self)@.destruction_hooks, *hook_id),
                ..old(self)@
            }),
            final(self).focus_hooks == old(self).focus_hooks,
    {
        let ghost pred = named_otherwise(*hook_id);
        let ghost hooks = self.destruction_hooks@;
        let mut kept: Vec<(HookId, DestructionHook)> = Vec::new();
        let mut i: usize = 0;
        proof {
            reveal(Seq::filter);
            assert(hooks.take(0).filter(pred) =~= seq![]);
        }
        while i < self.destruction_hooks.len()
            invariant
                i <= self.destruction_hooks.len(),
                hooks == self.destruction_hooks@,
                pred == named_otherwise(*hook_id),
                kept@ == hooks.take(i as int).filter(pred),
            decreases self.destruction_hooks.len() - i,
        {
            proof {
                lemma_filter_take(hooks, pred, i as int);
            }
            if self.destruction_hooks[i].0 != *hook_id {
                kept.push(self.destruction_hooks[i]);
            }
            i += 1;
        }
        assert(hooks.take(i as int) =~= hooks);
        self.destruction_hooks = kept;
    }

    /// Install a hook for a seat that gives its focus to the surface, in place of the one that
    /// the seat may have had here.
    pub fn install_focus_hook(
        &mut self,
        seat: SeatId,
        serial: Serial,
        hook_id: HookId,
        live: &Liveness,
    )
        requires
            old(self).wf(),
        ensures
            final(self).wf(),
            final(self)@ == old(self)@.entered(seat, serial, hook_id, live),
            final(self).focus_hooks.listed() == entries_with(
                old(self).focus_hooks.listed(),
                seat,
                hook_id,
                live,
            ),
    {
        self.destruction_hooks.push((hook_id, DestructionHook { seat, serial }));
        if let Some(old_hook_id) = self.focus_hooks.insert(seat, hook_id, live) {
            self.remove_destruction_hook(&old_hook_id);
        }
    }

    /// Remove the hook of a seat that takes its focus away.
    pub fn remove_focus_hook(&mut self, seat: &SeatId, live: &Liveness)
        requires
            old(self).wf(),
        ensures
            final(self).wf(),
            final(self)@ == old(self)@.left(*seat, live),
            final(self).focus_hooks.listed() == entries_without(
                old(self).focus_hooks.listed(),
                *seat,
                live,
            ),
    {
        if let Some(hook_id) = self.focus_hooks.remove(seat, live) {
            self.remove_destruction_hook(&hook_id);
        }
    }
}

/// Hooks that all have other names stay.
proof fn lemma_hooks_without_absent(hooks: Seq<(HookId, DestructionHook)>, id: HookId)
    requires
        forall|i: int| 0 <= i < hooks.len() ==> (#[trigger] hooks[i]).0 != id,
    ensures
        hooks_without(hooks, id) == hooks,
{
    lemma_filter_all(hooks, named_otherwise(id));
}

/// Losing the focus undoes getting it: a surface that had no hook for a seat, got the focus of
/// that seat and lost it again has the hooks that it had before.
pub proof fn law_leaving_undoes_entering(
    surface: SurfaceView,
    seat: SeatId,
    serial: Serial,
    hook_id: HookId,
    live: &Liveness,
)
    requires
        live.seat_exists(seat),
        surface.is_fresh(hook_id),
        !surface.focus_hooks.dom().contains(seat),
    ensures
        surface.entered(seat, serial, hook_id, live).left(seat, live) == (SurfaceView {
            focus_hooks: surface.live_hooks(live),
            ..surface
        }),
{
    let entered = surface.entered(seat, serial, hook_id, live);
    let left = entered.left(seat, live);
    let hook = (hook_id, DestructionHook { seat, serial });
    let pred = named_otherwise(hook_id);
    assert(entered.live_hooks(live).dom().contains(seat));
    lemma_filter_push(surface.destruction_hooks, pred, hook);
    lemma_hooks_without_absent(surface.destruction_hooks, hook_id);
    assert(left.focus_hooks =~= surface.live_hooks(live));
}

/// Getting the focus again replaces the hook: the surface has one hook for the seat, the new one,
/// and all hooks of other seats.
pub proof fn law_entering_again_replaces_the_hook(
    surface: SurfaceView,
    seat: SeatId,
    first: Serial,
    second: Serial,
    first_hook: HookId,
    second_hook: HookId,
    live: &Liveness,
)
    requires
        live.seat_exists(seat),
        surface.is_fresh(first_hook),
        surface.is_fresh(second_hook),
        first_hook != second_hook,
        !surface.focus_hooks.dom().contains(seat),
    ensures
        surface.entered(seat, first, first_hook, live).entered(seat, second, second_hook, live)
            == surface.entered(seat, second, second_hook, live),
{
    let once = surface.entered(seat, first, first_hook, live);
    let twice = once.entered(seat, second, second_hook, live);
    let pred = named_otherwise(first_hook);
    let hook1 = (first_hook, DestructionHook { seat, serial: first });
    let hook2 = (second_hook, DestructionHook { seat, serial: second });
    assert(once.live_hooks(live).dom().contains(seat));
    lemma_filter_push(surface.destruction_hooks.push(hook1), pred, hook2);
    lemma_filter_push(surface.destruction_hooks, pred, hook1);
    lemma_hooks_without_absent(surface.destruction_hooks, first_hook);
    assert(twice.focus_hooks =~= surface.entered(
        seat,
        second,
        second_hook,
        live,
    ).focus_hooks);
}

/// A filter keeps names apart that were apart.
proof fn lemma_without_keeps_names_apart(hooks: Seq<(HookId, DestructionHook)>, id: HookId)
    requires
        forall|i: int, j: int|
            0 <= i < j < hooks.len() ==> (#[trigger] hooks[i]).0 != (#[trigger] hooks[j]).0,
    ensures
        forall|i: int, j: int|
            0 <= i < j < hooks_without(hooks, id).len() ==> (#[trigger] hooks_without(
                hooks,
                id,
            )[i]).0 != (#[trigger] hooks_without(hooks, id)[j]).0,
    decreases hooks.len(),
{
    let pred = named_otherwise(id);
    reveal(Seq::filter);
    if hooks.len() > 0 {
        let init = hooks.drop_last();
        lemma_without_keeps_names_apart(init, id);
        let kept = hooks_without(init, id);
        assert forall|i: int| 0 <= i < kept.len() implies (#[trigger] kept[i]).0
            != hooks.last().0 by {
            lemma_filter_contains(init, pred, kept[i]);
            assert(kept.contains(kept[i]));
            let k = choose|k: int| 0 <= k < init.len() && init[k] == kept[i];
            assert(hooks[k] == kept[i]);
        }
    }
}

/// A surface that gets the focus of a seat stays consistent.
proof fn lemma_entered_is_consistent(
    surface: SurfaceView,
    seat: SeatId,
    serial: Serial,
    hook_id: HookId,
    live: &Liveness,
)
    requires
        surface.consistent(live),
        surface.is_fresh(hook_id),
        live.seat_exists(seat),
    ensures
        surface.entered(seat, serial, hook_id, live).consistent(live),
{
    let entered = surface.entered(seat, serial, hook_id, live);
    let hook = (hook_id, DestructionHook { seat, serial });
    let hooks = surface.destruction_hooks;
    let pushed = hooks.push(hook);
    let replaced = surface.focus_hooks[seat];
    let other = named_otherwise(replaced);
    let known = surface.live_hooks(live).dom().contains(seat);
    lemma_without_keeps_names_apart(pushed, replaced);
    assert forall|i: int|
        0 <= i < entered.destruction_hooks.len() && live.seat_exists(
            (#[trigger] entered.destruction_hooks[i]).1.seat,
        ) implies entered.focus_hooks.dom().contains(entered.destruction_hooks[i].1.seat)
        && entered.focus_hooks[entered.destruction_hooks[i].1.seat]
        == entered.destruction_hooks[i].0 by {
        let h = entered.destruction_hooks[i];
        assert(entered.destruction_hooks.contains(h));
        if known {
            lemma_filter_contains(pushed, other, h);
        }
        assert(pushed.contains(h));
        let k = choose|k: int| 0 <= k < pushed.len() && pushed[k] == h;
        if k < hooks.len() {
            assert(hooks[k] == h);
        }
    }
    assert forall|i: int, s: SeatId|
        0 <= i < entered.destruction_hooks.len() && entered.focus_hooks.dom().contains(s) && (
        #[trigger] entered.destruction_hooks[i]).0
            == #[trigger] entered.focus_hooks[s] implies entered.destruction_hooks[i].1.seat == s by {
        let h = entered.destruction_hooks[i];
        assert(entered.destruction_hooks.contains(h));
        if known {
            lemma_filter_contains(pushed, other, h);
        }
        assert(pushed.contains(h));
        let k = choose|k: int| 0 <= k < pushed.len() && pushed[k] == h;
        if k < hooks.len() {
            assert(hooks[k] == h);
            if s != seat {
                assert(surface.focus_hooks[s] == entered.focus_hooks[s]);
            }
        }
    }
}

/// A surface that loses the focus of a seat stays consistent.
proof fn lemma_left_is_consistent(surface: SurfaceView, seat: SeatId, live: &Liveness)
    requires
        surface.consistent(live),
        live.seat_exists(seat),
    ensures
        surface.left(seat, live).consistent(live),
{
    let left = surface.left(seat, live);
    let hooks = surface.destruction_hooks;
    let replaced = surface.focus_hooks[seat];
    let other = named_otherwise(replaced);
    let known = surface.live_hooks(live).dom().contains(seat);
    lemma_without_keeps_names_apart(hooks, replaced);
    assert forall|i: int|
        0 <= i < left.destruction_hooks.len() && live.seat_exists(
            (#[trigger] left.destruction_hooks[i]).1.seat,
        ) implies left.focus_hooks.dom().contains(left.destruction_hooks[i].1.seat)
        && left.focus_hooks[left.destruction_hooks[i].1.seat]
        == left.destruction_hooks[i].0 by {
        let h = left.destruction_hooks[i];
        assert(left.destruction_hooks.contains(h));
        if known {
            lemma_filter_contains(hooks, other, h);
        }
        assert(hooks.contains(h));
        let k = choose|k: int| 0 <= k < hooks.len() && hooks[k] == h;
        assert(hooks[k] == h);
    }
    assert forall|i: int, s: SeatId|
        0 <= i < left.destruction_hooks.len() && left.focus_hooks.dom().contains(s) && (
        #[trigger] left.destruction_hooks[i]).0
            == #[trigger] left.focus_hooks[s] implies left.destruction_hooks[i].1.seat == s by {
        let h = left.destruction_hooks[i];
        assert(left.destruction_hooks.contains(h));
        if known {
            lemma_filter_contains(hooks, other, h);
        }
        assert(hooks.contains(h));
        let k = choose|k: int| 0 <= k < hooks.len() && hooks[k] == h;
        assert(surface.focus_hooks[s] == left.focus_hooks[s]);
        assert(hooks[k] == h);
    }
}

/// A surface never has two hooks for one seat that exists: getting and losing focus keeps hook
/// names apart and keeps the hook of each seat that exists the remembered one.
pub proof fn law_one_hook_per_seat(
    surface: SurfaceView,
    seat: SeatId,
    serial: Serial,
    hook_id: HookId,
    live: &Liveness,
)
    requires
        surface.consistent(live),
        live.seat_exists(seat),
    ensures
        surface.is_fresh(hook_id) ==> surface.entered(seat, serial, hook_id, live).consistent(live),
        surface.left(seat, live).consistent(live),
        forall|i: int, j: int|
            0 <= i < surface.destruction_hooks.len() && 0 <= j < surface.destruction_hooks.len()
                && live.seat_exists((#[trigger] surface.destruction_hooks[i]).1.seat)
                && surface.destruction_hooks[i].1.seat == (
            #[trigger] surface.destruction_hooks[j]).1.seat ==> i == j,
{
    if surface.is_fresh(hook_id) {
        lemma_entered_is_consistent(surface, seat, serial, hook_id, live);
    }
    lemma_left_is_consistent(surface, seat, live);
}

/// Seats that are gone only take hooks out of account: what is consistent stays so when any seats
/// go, and when seats come that have no hook here.
pub proof fn law_consistent_when_seats_go(surface: SurfaceView, before: &Liveness, after: &Liveness)
    requires
        surface.consistent(before),
        forall|i: int|
            0 <= i < surface.destruction_hooks.len() && after.seat_exists(
                (#[trigger] surface.destruction_hooks[i]).1.seat,
            ) ==> before.seat_exists(surface.destruction_hooks[i].1.seat),
    ensures
        surface.consistent(after),
{
}

} // verus!
