//! What holds of the destruction hooks of a surface, whichever seats give and take their focus.
use crate::hooks::{
    entries_with, entries_without, hooks_without, law_consistent_when_seats_go,
    law_one_hook_per_seat, named_otherwise, of_live_seat, of_other_seat, of_seat, remembered,
    with_hook, without_hook, DestructionHook, SurfaceData, SurfaceView,
};
use crate::objects::{HookId, Liveness, SeatId, Serial};
use crate::sequences::{
    is_first, lemma_filter_all, lemma_filter_contains, lemma_filter_none, lemma_filter_push,
    lemma_filter_twice, lemma_first_index_found,
};
use vstd::prelude::*;

verus! {

/// The hook that is returned is the one that the seat had, while the seat is listed as existing.
/// Afterwards a seat has a hook if it had one and still exists; the one that was inserted has the
/// new hook in any case, and the one that was removed has none.
pub proof fn law_hooks_seat_by_seat(
    hooks: Map<SeatId, HookId>,
    seat: SeatId,
    other: SeatId,
    hook_id: HookId,
    live: &Liveness,
)
    requires
        other != seat,
    ensures
        remembered(hooks, seat, live) is Some <==> hooks.dom().contains(seat)
            && live.seats@.contains(seat),
        remembered(hooks, seat, live) matches Some(hook) ==> hook == hooks[seat],
        ({
            let with = with_hook(hooks, seat, hook_id, live);
            let without = without_hook(hooks, seat, live);
            let stays = hooks.dom().contains(other) && live.seats@.contains(other);
            &&& with.dom().contains(seat)
            &&& with[seat] == hook_id
            &&& with.dom().contains(other) <==> stays
            &&& stays ==> with[other] == hooks[other]
            &&& !without.dom().contains(seat)
            &&& without.dom().contains(other) <==> stays
            &&& stays ==> without[other] == hooks[other]
        }),
{
}

/// The list is gone through one by one: one more entry stays, at the end, exactly if its seat exists
/// and, where a seat is removed, is another one.
pub proof fn law_entries_one_by_one(
    entries: Seq<(SeatId, HookId)>,
    entry: (SeatId, HookId),
    seat: SeatId,
    live: &Liveness,
)
    ensures
        entries.len() == 0 ==> entries.filter(of_live_seat(live)).len() == 0,
        entries.len() == 0 ==> entries_without(entries, seat, live).len() == 0,
        entries.push(entry).filter(of_live_seat(live)) == if live.seats@.contains(entry.0) {
            entries.filter(of_live_seat(live)).push(entry)
        } else {
            entries.filter(of_live_seat(live))
        },
        entries_without(entries.push(entry), seat, live) == if live.seats@.contains(entry.0)
            && entry.0 != seat {
            entries_without(entries, seat, live).push(entry)
        } else {
            entries_without(entries, seat, live)
        },
{
    reveal(Seq::filter);
    let kept = entries.filter(of_live_seat(live));
    lemma_filter_push(entries, of_live_seat(live), entry);
    lemma_filter_push(kept, of_other_seat(seat), entry);
}

/// A hook that is inserted stands where its seat stood first among the seats that exist, or at the
/// end if it stood nowhere, and the others stand as they stood.
pub proof fn law_inserted_in_place(
    entries: Seq<(SeatId, HookId)>,
    seat: SeatId,
    hook_id: HookId,
    live: &Liveness,
    i: int,
)
    ensures
        ({
            let kept = entries.filter(of_live_seat(live));
            let after = entries_with(entries, seat, hook_id, live);
            &&& (0 <= i < kept.len() && kept[i].0 == seat && forall|j: int|
                0 <= j < i ==> (#[trigger] kept[j]).0 != seat) ==> after.len() == kept.len()
                && after[i] == (seat, hook_id) && forall|j: int|
                0 <= j < kept.len() && j != i ==> #[trigger] after[j] == kept[j]
            &&& (forall|j: int| 0 <= j < kept.len() ==> (#[trigger] kept[j]).0 != seat)
                ==> after.len() == kept.len() + 1 && after.last() == (seat, hook_id) && forall|
                j: int,
            |
                0 <= j < kept.len() ==> #[trigger] after[j] == kept[j]
        }),
{
    let kept = entries.filter(of_live_seat(live));
    let pred = of_seat(seat);
    if 0 <= i < kept.len() && kept[i].0 == seat && forall|j: int|
        0 <= j < i ==> (#[trigger] kept[j]).0 != seat {
        assert(is_first(kept, pred, i)) by {
            assert forall|j: int| 0 <= j < i implies !pred(#[trigger] kept[j]) by {
                assert(kept[j].0 != seat);
            }
        }
        lemma_first_index_found(kept, pred, i);
    }
    if forall|j: int| 0 <= j < kept.len() ==> (#[trigger] kept[j]).0 != seat {
        assert forall|j: int| !is_first(kept, pred, j) by {
            if 0 <= j < kept.len() {
                assert(kept[j].0 != seat);
            }
        }
    }
}

/// Removing a destruction hook goes through them one by one: one more stays, at the end, exactly if
/// it has another name.
pub proof fn law_hooks_removed_one_by_one(
    hooks: Seq<(HookId, DestructionHook)>,
    hook: (HookId, DestructionHook),
    id: HookId,
)
    ensures
        hooks.len() == 0 ==> hooks_without(hooks, id).len() == 0,
        hook.0 == id ==> hooks_without(hooks.push(hook), id) == hooks_without(hooks, id),
        hook.0 != id ==> hooks_without(hooks.push(hook), id) == hooks_without(hooks, id).push(hook),
{
    reveal(Seq::filter);
    lemma_filter_push(hooks, named_otherwise(id), hook);
}

/// A surface that gets or loses the focus of a seat stays the surface that it is. It gets a hook with
/// that seat and serial, at the end, and loses the one that was remembered for the seat, if the seat
/// exists; and what it remembers of other seats stays for as long as they exist.
pub proof fn law_surface_seat_by_seat(
    surface: SurfaceView,
    seat: SeatId,
    other: SeatId,
    serial: Serial,
    hook_id: HookId,
    live: &Liveness,
)
    requires
        other != seat,
    ensures
        ({
            let entered = surface.entered(seat, serial, hook_id, live);
            let left = surface.left(seat, live);
            let new = (hook_id, DestructionHook { seat, serial });
            let old_hook = surface.focus_hooks[seat];
            let had = surface.focus_hooks.dom().contains(seat) && live.seats@.contains(seat);
            let stays = surface.focus_hooks.dom().contains(other) && live.seats@.contains(other);
            &&& entered.id == surface.id
            &&& left.id == surface.id
            &&& had ==> entered.destruction_hooks == hooks_without(
                surface.destruction_hooks.push(new),
                old_hook,
            )
            &&& had ==> left.destruction_hooks == hooks_without(
                surface.destruction_hooks,
                old_hook,
            )
            &&& !had ==> entered.destruction_hooks == surface.destruction_hooks.push(new)
            &&& !had ==> left.destruction_hooks == surface.destruction_hooks
            &&& entered.focus_hooks.dom().contains(seat)
            &&& entered.focus_hooks[seat] == hook_id
            &&& !left.focus_hooks.dom().contains(seat)
            &&& entered.focus_hooks.dom().contains(other) <==> stays
            &&& left.focus_hooks.dom().contains(other) <==> stays
            &&& stays ==> entered.focus_hooks[other] == surface.focus_hooks[other]
            &&& stays ==> left.focus_hooks[other] == surface.focus_hooks[other]
        }),
{
}

/// Contracts see every part of a surface as it is.
pub proof fn law_surfaces_are_seen_whole(surface: SurfaceData)
    ensures
        surface@.id == surface.id,
        surface@.destruction_hooks == surface.destruction_hooks@,
        surface@.focus_hooks == surface.focus_hooks@,
        surface.wf() <==> surface.focus_hooks.wf(),
{
}

/// The hook is one of the seat.
pub open spec fn hook_of(seat: SeatId) -> spec_fn((HookId, DestructionHook)) -> bool {
    |hook: (HookId, DestructionHook)| hook.1.seat == seat
}

/// The hook is one of another seat.
pub open spec fn hook_of_other(seat: SeatId) -> spec_fn((HookId, DestructionHook)) -> bool {
    |hook: (HookId, DestructionHook)| hook.1.seat != seat
}

/// The destruction hooks of a seat on a surface, oldest first.
pub open spec fn own_hooks(surface: SurfaceView, seat: SeatId) -> Seq<(HookId, DestructionHook)> {
    surface.destruction_hooks.filter(hook_of(seat))
}

/// The destruction hooks of all other seats on a surface, oldest first.
pub open spec fn other_hooks(surface: SurfaceView, seat: SeatId) -> Seq<
    (HookId, DestructionHook),
> {
    surface.destruction_hooks.filter(hook_of_other(seat))
}

/// A seat that gives its focus to a surface has exactly one destruction hook there, the new one,
/// however often it did so before; a seat that takes its focus away has none. The hooks of all
/// other seats stay, and a seat that has no hook takes none away.
pub proof fn law_other_hooks_stay(
    surface: SurfaceView,
    seat: SeatId,
    serial: Serial,
    hook_id: HookId,
    live: &Liveness,
)
    requires
        surface.consistent(live),
        live.seat_exists(seat),
    ensures
        surface.is_fresh(hook_id) ==> own_hooks(surface.entered(seat, serial, hook_id, live), seat)
            == seq![(hook_id, DestructionHook { seat, serial })],
        surface.is_fresh(hook_id) ==> other_hooks(
            surface.entered(seat, serial, hook_id, live),
            seat,
        ) == other_hooks(surface, seat),
        own_hooks(surface.left(seat, live), seat) == Seq::<(HookId, DestructionHook)>::empty(),
        other_hooks(surface.left(seat, live), seat) == other_hooks(surface, seat),
        own_hooks(surface, seat).len() == 0 ==> surface.left(seat, live).destruction_hooks
            == surface.destruction_hooks,
{
    let hooks = surface.destruction_hooks;
    let hook = (hook_id, DestructionHook { seat, serial });
    let known = surface.live_hooks(live).dom().contains(seat);
    let replaced = surface.focus_hooks[seat];
    let kept = hooks_without(hooks, replaced);
    let own = hook_of(seat);
    let other = hook_of_other(seat);
    let named = named_otherwise(replaced);
    if known {
        assert forall|i: int| 0 <= i < hooks.len() && other(#[trigger] hooks[i]) implies named(
            hooks[i],
        ) by {
            if hooks[i].0 == surface.focus_hooks[seat] {
                assert(hooks[i].1.seat == seat);
            }
        }
        lemma_filter_twice(hooks, named, other);
        lemma_kept_are_others(hooks, seat, replaced);
        lemma_filter_push(hooks, named, hook);
        lemma_filter_push(kept, own, hook);
        lemma_filter_push(kept, other, hook);
        if own_hooks(surface, seat).len() == 0 {
            assert forall|i: int| 0 <= i < hooks.len() implies named(#[trigger] hooks[i]) by {
                if hooks[i].0 == surface.focus_hooks[seat] {
                    lemma_filter_contains(hooks, own, hooks[i]);
                    assert(hooks.contains(hooks[i]));
                }
            }
            lemma_filter_all(hooks, named);
        }
    } else {
        assert forall|i: int| 0 <= i < hooks.len() implies !own(#[trigger] hooks[i]) by {}
        lemma_filter_none(hooks, own);
        lemma_filter_push(hooks, own, hook);
        lemma_filter_push(hooks, other, hook);
    }
}

/// Where all hooks of a seat have one name, those that are named otherwise are those of others.
proof fn lemma_kept_are_others(
    hooks: Seq<(HookId, DestructionHook)>,
    seat: SeatId,
    name: HookId,
)
    requires
        forall|i: int|
            0 <= i < hooks.len() && (#[trigger] hooks[i]).1.seat == seat ==> hooks[i].0 == name,
    ensures
        hooks_without(hooks, name).filter(hook_of(seat)) == Seq::<
            (HookId, DestructionHook),
        >::empty(),
{
    let kept = hooks_without(hooks, name);
    assert forall|i: int| 0 <= i < kept.len() implies !hook_of(seat)(#[trigger] kept[i]) by {
        assert(kept.contains(kept[i]));
        lemma_filter_contains(hooks, named_otherwise(name), kept[i]);
        let k = choose|k: int| 0 <= k < hooks.len() && hooks[k] == kept[i];
        assert(hooks[k] == kept[i]);
    }
    lemma_filter_none(kept, hook_of(seat));
}

/// What a seat does to the focus of a surface.
pub enum FocusChange {
    /// The seat gives its focus to the surface.
    Enter {
        /// The serial of the event.
        serial: Serial,
        /// The name of the new destruction hook.
        hook_id: HookId,
    },
    /// The seat takes its focus away.
    Leave,
}

/// A seat gives its focus to a surface, or takes it away.
pub struct FocusStep {
    /// The seat.
    pub seat: SeatId,
    /// What it does.
    pub change: FocusChange,
    /// What is alive at that moment.
    pub live: Liveness,
}

/// The surface after a step.
pub open spec fn after_step(surface: SurfaceView, step: FocusStep) -> SurfaceView {
    match step.change {
        FocusChange::Enter { serial, hook_id } => surface.entered(
            step.seat,
            serial,
            hook_id,
            &step.live,
        ),
        FocusChange::Leave => surface.left(step.seat, &step.live),
    }
}

/// The surface after steps, oldest first.
pub open spec fn after_steps(surface: SurfaceView, steps: Seq<FocusStep>) -> SurfaceView
    decreases steps.len(),
{
    if steps.len() == 0 {
        surface
    } else {
        after_step(after_steps(surface, steps.drop_last()), steps.last())
    }
}

/// A step can come: its seat exists, a new hook has a new name, and no seat that has a hook on the
/// surface came back to life since the last step.
pub open spec fn can_come(surface: SurfaceView, before: &Liveness, step: FocusStep) -> bool {
    &&& step.live.seat_exists(step.seat)
    &&& step.change matches FocusChange::Enter { hook_id, .. } ==> surface.is_fresh(hook_id)
    &&& forall|i: int|
        0 <= i < surface.destruction_hooks.len() && step.live.seat_exists(
            (#[trigger] surface.destruction_hooks[i]).1.seat,
        ) ==> before.seat_exists(surface.destruction_hooks[i].1.seat)
}

/// What was alive at the last of the first `k` steps, or at the start.
pub open spec fn alive_before(start: &Liveness, steps: Seq<FocusStep>, k: int) -> Liveness {
    if k == 0 {
        *start
    } else {
        steps[k - 1].live
    }
}

/// Each step can come when it does.
pub open spec fn all_can_come(
    surface: SurfaceView,
    start: &Liveness,
    steps: Seq<FocusStep>,
) -> bool {
    forall|k: int|
        0 <= k < steps.len() ==> can_come(
            after_steps(surface, #[trigger] steps.take(k)),
            &alive_before(start, steps, k),
            steps[k],
        )
}

/// The steps but for the last can come.
proof fn lemma_all_but_last(surface: SurfaceView, start: &Liveness, steps: Seq<FocusStep>)
    requires
        all_can_come(surface, start, steps),
        steps.len() > 0,
    ensures
        all_can_come(surface, start, steps.drop_last()),
        can_come(
            after_steps(surface, steps.drop_last()),
            &alive_before(start, steps.drop_last(), steps.len() - 1),
            steps.last(),
        ),
{
    let init = steps.drop_last();
    assert forall|k: int| 0 <= k < init.len() implies can_come(
        after_steps(surface, #[trigger] init.take(k)),
        &alive_before(start, init, k),
        init[k],
    ) by {
        assert(steps.take(k) =~= init.take(k));
        assert(steps[k] == init[k]);
    }
    assert(steps.take(steps.len() - 1) =~= init);
}

/// Names stay apart, and the hook of each seat that exists stays the remembered one, whichever
/// seats give and take their focus.
pub proof fn law_always_consistent(surface: SurfaceView, start: &Liveness, steps: Seq<FocusStep>)
    requires
        surface.consistent(start),
        all_can_come(surface, start, steps),
    ensures
        after_steps(surface, steps).consistent(
            &alive_before(start, steps, steps.len() as int),
        ),
    decreases steps.len(),
{
    if steps.len() > 0 {
        let init = steps.drop_last();
        let step = steps.last();
        lemma_all_but_last(surface, start, steps);
        law_always_consistent(surface, start, init);
        let before = after_steps(surface, init);
        law_consistent_when_seats_go(
            before,
            &alive_before(start, init, init.len() as int),
            &step.live,
        );
        lemma_step_consistent(before, step);
    }
}

/// A step keeps what is consistent so.
proof fn lemma_step_consistent(surface: SurfaceView, step: FocusStep)
    requires
        surface.consistent(&step.live),
        step.live.seat_exists(step.seat),
        step.change matches FocusChange::Enter { hook_id, .. } ==> surface.is_fresh(hook_id),
    ensures
        after_step(surface, step).consistent(&step.live),
{
    match step.change {
        FocusChange::Enter { serial, hook_id } => {
            law_one_hook_per_seat(surface, step.seat, serial, hook_id, &step.live);
        },
        FocusChange::Leave => {
            law_one_hook_per_seat(surface, step.seat, Serial(0), HookId(0), &step.live);
        },
    }
}

/// What a seat did last, if it did anything.
pub open spec fn last_change(steps: Seq<FocusStep>, seat: SeatId) -> Option<FocusChange>
    decreases steps.len(),
{
    if steps.len() == 0 {
        None
    } else if steps.last().seat == seat {
        Some(steps.last().change)
    } else {
        last_change(steps.drop_last(), seat)
    }
}

/// The hooks that a seat is to have after steps: the one of its last `Enter`, none after its last
/// `Leave`, and those that it had if it took no step.
pub open spec fn hooks_due(
    surface: SurfaceView,
    steps: Seq<FocusStep>,
    seat: SeatId,
) -> Seq<(HookId, DestructionHook)> {
    match last_change(steps, seat) {
        Some(FocusChange::Enter { serial, hook_id }) => seq![
            (hook_id, DestructionHook { seat, serial }),
        ],
        Some(FocusChange::Leave) => seq![],
        None => own_hooks(surface, seat),
    }
}

/// Each seat has its own hooks: whatever other seats do, and however often the seat itself gives its
/// focus to the surface, it has exactly the hook of its last `enter` there, and none once it left.
pub proof fn law_each_seat_has_its_hook(
    surface: SurfaceView,
    start: &Liveness,
    steps: Seq<FocusStep>,
    seat: SeatId,
)
    requires
        surface.consistent(start),
        all_can_come(surface, start, steps),
    ensures
        own_hooks(after_steps(surface, steps), seat) == hooks_due(surface, steps, seat),
    decreases steps.len(),
{
    if steps.len() > 0 {
        let init = steps.drop_last();
        let step = steps.last();
        lemma_all_but_last(surface, start, steps);
        law_each_seat_has_its_hook(surface, start, init, seat);
        law_always_consistent(surface, start, init);
        let before = after_steps(surface, init);
        law_consistent_when_seats_go(
            before,
            &alive_before(start, init, init.len() as int),
            &step.live,
        );
        let after = after_step(before, step);
        match step.change {
            FocusChange::Enter { serial, hook_id } => {
                law_other_hooks_stay(before, step.seat, serial, hook_id, &step.live);
            },
            FocusChange::Leave => {
                law_other_hooks_stay(before, step.seat, Serial(0), HookId(0), &step.live);
            },
        }
        if step.seat != seat {
            lemma_filter_twice(
                before.destruction_hooks,
                hook_of_other(step.seat),
                hook_of(seat),
            );
            lemma_filter_twice(after.destruction_hooks, hook_of_other(step.seat), hook_of(seat));
        }
    }
}

} // verus!
