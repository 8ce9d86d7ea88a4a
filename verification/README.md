# wayland_seat

The keyboard focus and text-input state of a Wayland seat, verified with Verus.

The library in `src/` decides what happens when a surface gets or loses the keyboard focus, when a
key or the modifiers change, when a `zwp_text_input_v3` client makes a request, and when one of the
objects involved is destroyed. It sends nothing itself: each operation takes the state and a
snapshot of what is alive on the display, and hands back the messages that are to be sent, in order.
Contracts say exactly what those messages are; the `law_` functions state what holds across
operations.

- `src/objects.rs`: names for clients, objects, seats and hooks, and the snapshot of what is alive
- `src/keys.rs`: keycodes, key states and the wire form of pressed keys
- `src/hooks.rs`: what a surface remembers of the seats that have their focus on it
- `src/hook_laws.rs`: what holds of those hooks, whichever seats come and go
- `src/keyboard.rs`: the keyboard of a seat
- `src/text_input/`: the text-input state of a seat
- `src/seat.rs`: entering, leaving, keys and modifiers
- `tests/`: tests of the library
- `app/`: the library wired to `wayland-server`, with the locks and the real protocol objects
