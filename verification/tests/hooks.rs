use wayland_seat::hooks::{FocusDestroyHook, SurfaceData};
use wayland_seat::objects::{ClientId, HookId, Liveness, ObjectId, SeatId, Serial};

fn seats(ids: &[u64]) -> Liveness {
    Liveness {
        objects: Vec::new(),
        clients: Vec::new(),
        seats: ids.iter().map(|id| SeatId(*id)).collect(),
    }
}

fn hook_names(surface: &SurfaceData) -> Vec<HookId> {
    surface.destruction_hooks.iter().map(|hook| hook.0).collect()
}

#[test]
fn insert_returns_the_hook_before() {
    let live = seats(&[1, 2]);
    let mut hooks = FocusDestroyHook::default();
    assert_eq!(hooks.insert(SeatId(1), HookId(10), &live), None);
    assert_eq!(hooks.insert(SeatId(2), HookId(20), &live), None);
    assert_eq!(hooks.insert(SeatId(1), HookId(11), &live), Some(HookId(10)));
    assert_eq!(hooks.remove(&SeatId(1), &live), Some(HookId(11)));
    assert_eq!(hooks.remove(&SeatId(1), &live), None);
    assert_eq!(hooks.remove(&SeatId(2), &live), Some(HookId(20)));
}

#[test]
fn seats_that_are_gone_are_forgotten() {
    let mut hooks = FocusDestroyHook::default();
    hooks.insert(SeatId(1), HookId(10), &seats(&[1, 2]));
    hooks.insert(SeatId(2), HookId(20), &seats(&[1, 2]));
    // Seat 1 goes; whatever happens next drops its hook for good.
    assert_eq!(hooks.remove(&SeatId(1), &seats(&[2])), None);
    assert_eq!(hooks.remove(&SeatId(1), &seats(&[1, 2])), None);
    assert_eq!(hooks.remove(&SeatId(2), &seats(&[1, 2])), Some(HookId(20)));
}

#[test]
fn a_hook_is_installed_replaced_and_removed() {
    let live = seats(&[1, 2]);
    let mut surface = SurfaceData::new(ObjectId { client: ClientId(1), object: 7 });
    surface.install_focus_hook(SeatId(1), Serial(5), HookId(10), &live);
    surface.install_focus_hook(SeatId(2), Serial(6), HookId(20), &live);
    assert_eq!(hook_names(&surface), vec![HookId(10), HookId(20)]);
    surface.install_focus_hook(SeatId(1), Serial(7), HookId(11), &live);
    assert_eq!(hook_names(&surface), vec![HookId(20), HookId(11)]);
    assert_eq!(surface.destruction_hooks[1].1.seat, SeatId(1));
    assert_eq!(surface.destruction_hooks[1].1.serial, Serial(7));
    surface.remove_focus_hook(&SeatId(1), &live);
    assert_eq!(hook_names(&surface), vec![HookId(20)]);
    surface.remove_focus_hook(&SeatId(1), &live);
    assert_eq!(hook_names(&surface), vec![HookId(20)]);
}
