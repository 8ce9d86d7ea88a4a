//! Keycodes, key states and the wire form of a list of pressed keys.
use vstd::prelude::*;
use vstd::std_specs::convert::FromSpecImpl;
use vstd::std_specs::convert::TryFromSpecImpl;

verus! {

/// An XKB keycode: the evdev code of the key, shifted up by eight.
#[derive(Clone, Copy, Debug, PartialEq, Eq, Structural)]
pub struct Keycode(pub u32);

impl Keycode {
    /// There is an evdev code below this keycode.
    pub open spec fn has_evdev(self) -> bool {
        self.0 >= 8
    }

    /// The evdev code that the `wl_keyboard` interface speaks of.
    pub open spec fn evdev_code(self) -> u32
        recommends
            self.has_evdev(),
    {
        (self.0 - 8) as u32
    }

    /// The keycode as a number.
    pub fn raw(&self) -> (r: u32)
        ensures
            r == self.0,
    {
        self.0
    }

    /// The evdev code of the key.
    pub fn evdev(&self) -> (r: u32)
        requires
            self.has_evdev(),
        ensures
            r == self.evdev_code(),
    {
        self.raw() - 8
    }
}

/// The order in which the bytes of a number stand in memory.
#[derive(Clone, Copy, Debug, PartialEq, Eq, Structural)]
pub enum ByteOrder {
    /// The least significant byte stands first.
    Little,
    /// The most significant byte stands first.
    Big,
}

/// The bytes of a number in the given order.
pub open spec fn number_bytes(order: ByteOrder, x: u32) -> Seq<u8> {
    let b0 = (x % 256) as u8;
    let b1 = (x / 256 % 256) as u8;
    let b2 = (x / 65536 % 256) as u8;
    let b3 = (x / 16777216) as u8;
    match order {
        ByteOrder::Little => seq![b0, b1, b2, b3],
        ByteOrder::Big => seq![b3, b2, b1, b0],
    }
}

/// The number that four bytes stand for in the given order.
pub open spec fn number_of_bytes(order: ByteOrder, bytes: Seq<u8>) -> int {
    match order {
        ByteOrder::Little => bytes[0] + 256 * bytes[1] + 65536 * bytes[2] + 16777216 * bytes[3],
        ByteOrder::Big => bytes[3] + 256 * bytes[2] + 65536 * bytes[1] + 16777216 * bytes[0],
    }
}

/// The wire form of pressed keys: the evdev codes one after the other, four bytes each.
pub open spec fn keys_bytes(order: ByteOrder, keys: Seq<Keycode>) -> Seq<u8>
    decreases keys.len(),
{
    if keys.len() == 0 {
        seq![]
    } else {
        keys_bytes(order, keys.drop_last()) + number_bytes(order, keys.last().evdev_code())
    }
}

/// All keys have an evdev code.
pub open spec fn all_evdev(keys: Seq<Keycode>) -> bool {
    forall|i: int| 0 <= i < keys.len() ==> (#[trigger] keys[i]).has_evdev()
}

/// The byte order of the machine that the program runs on. Nothing says which of the two it is.
pub open spec fn native_order() -> ByteOrder {
    match vstd::endian::endianness() {
        vstd::endian::Endian::Little => ByteOrder::Little,
        vstd::endian::Endian::Big => ByteOrder::Big,
    }
}

/// [`u32::to_ne_bytes`]: the bytes of a number as this machine keeps them in memory, that is, in
/// its native byte order.
#[verifier::external_body]
fn native_bytes(x: u32) -> (r: [u8; 4])
    ensures
        r@ == number_bytes(native_order(), x),
{
    x.to_ne_bytes()
}

/// The byte order of a machine, told by how the number one stands in its memory.
pub fn byte_order_of(one: &[u8; 4]) -> (order: ByteOrder)
    requires
        one@ == number_bytes(ByteOrder::Little, 1) || one@ == number_bytes(ByteOrder::Big, 1),
    ensures
        one@ == number_bytes(order, 1),
{
    if one[0] == 1 {
        ByteOrder::Little
    } else {
        ByteOrder::Big
    }
}

/// The byte order of this machine.
pub(crate) fn native_byte_order() -> (order: ByteOrder)
    ensures
        order == native_order(),
{
    let one = native_bytes(1);
    let order = byte_order_of(&one);
    // The number one stands differently in the two orders.
    assert(number_bytes(ByteOrder::Little, 1)[0] == 1);
    assert(number_bytes(ByteOrder::Big, 1)[0] == 0);
    order
}

/// Serialize keycodes for the `wl_keyboard` interface, in the given byte order.
pub fn serialize_pressed_keys_in(order: ByteOrder, keys: &[Keycode]) -> (bytes: Vec<u8>)
    requires
        all_evdev(keys@),
    ensures
        bytes@ == keys_bytes(order, keys@),
{
    let mut bytes: Vec<u8> = Vec::new();
    let mut i: usize = 0;
    while i < keys.len()
        invariant
            i <= keys.len(),
            all_evdev(keys@),
            bytes@ == keys_bytes(order, keys@.take(i as int)),
        decreases keys.len() - i,
    {
        let x: u32 = keys[i].evdev();
        let b0: u8 = (x % 256) as u8;
        let b1: u8 = (x / 256 % 256) as u8;
        let b2: u8 = (x / 65536 % 256) as u8;
        let b3: u8 = (x / 16777216) as u8;
        match order {
            ByteOrder::Little => {
                bytes.push(b0);
                bytes.push(b1);
                bytes.push(b2);
                bytes.push(b3);
            },
            ByteOrder::Big => {
                bytes.push(b3);
                bytes.push(b2);
                bytes.push(b1);
                bytes.push(b0);
            },
        }
        assert(keys@.take(i + 1).drop_last() =~= keys@.take(i as int));
        assert(bytes@ =~= keys_bytes(order, keys@.take(i as int)) + number_bytes(order, x));
        i += 1;
    }
    assert(keys@.take(i as int) =~= keys@);
    bytes
}

/// Serialize keycodes for the `wl_keyboard` interface.
///
/// All of them stand in one byte order, that of this machine.
pub fn serialize_pressed_keys(keys: &[Keycode]) -> (bytes: Vec<u8>)
    requires
        all_evdev(keys@),
    ensures
        bytes@ == keys_bytes(native_order(), keys@),
{
    serialize_pressed_keys_in(native_byte_order(), keys)
}

/// A number is read back from its bytes.
pub proof fn lemma_number_read_back(order: ByteOrder, x: u32)
    ensures
        number_bytes(order, x).len() == 4,
        number_of_bytes(order, number_bytes(order, x)) == x,
{
}

/// Pressed keys take four bytes each, and each key is read back from its own four.
pub proof fn law_keys_read_back(order: ByteOrder, keys: Seq<Keycode>)
    requires
        all_evdev(keys),
    ensures
        keys_bytes(order, keys).len() == 4 * keys.len(),
        forall|i: int|
            0 <= i < keys.len() ==> number_of_bytes(
                order,
                #[trigger] keys_bytes(order, keys).subrange(4 * i, 4 * i + 4),
            ) == keys[i].0 - 8,
        order is Little ==> forall|i: int|
            0 <= i < keys.len() ==> (#[trigger] keys[i]).0 - 8 == keys_bytes(order, keys)[4 * i]
                + 256 * keys_bytes(order, keys)[4 * i + 1] + 65536 * keys_bytes(order, keys)[4 * i
                + 2] + 16777216 * keys_bytes(order, keys)[4 * i + 3],
        order is Big ==> forall|i: int|
            0 <= i < keys.len() ==> (#[trigger] keys[i]).0 - 8 == keys_bytes(order, keys)[4 * i + 3]
                + 256 * keys_bytes(order, keys)[4 * i + 2] + 65536 * keys_bytes(order, keys)[4 * i
                + 1] + 16777216 * keys_bytes(order, keys)[4 * i],
    decreases keys.len(),
{
    if keys.len() > 0 {
        let init = keys.drop_last();
        law_keys_read_back(order, init);
        let tail = number_bytes(order, keys.last().evdev_code());
        lemma_number_read_back(order, keys.last().evdev_code());
        let all = keys_bytes(order, keys);
        assert forall|i: int| 0 <= i < keys.len() implies number_of_bytes(
            order,
            #[trigger] all.subrange(4 * i, 4 * i + 4),
        ) == keys[i].0 - 8 by {
            if i == keys.len() - 1 {
                assert(all.subrange(4 * i, 4 * i + 4) =~= tail);
            } else {
                assert(all.subrange(4 * i, 4 * i + 4) =~= keys_bytes(order, init).subrange(
                    4 * i,
                    4 * i + 4,
                ));
            }
        }
        assert forall|i: int| 0 <= i < keys.len() implies number_of_bytes(
            order,
            all.subrange(4 * i, 4 * i + 4),
        ) == (#[trigger] keys[i]).0 - 8 by {
            assert(all.subrange(4 * i, 4 * i + 4)[0] == all[4 * i]);
        }
    }
}

/// Exactly the keycodes from eight on have an evdev code, which is eight less.
pub proof fn law_evdev_codes(key: Keycode, keys: Seq<Keycode>)
    ensures
        key.has_evdev() <==> key.0 >= 8,
        key.0 >= 8 ==> key.evdev_code() + 8 == key.0,
        all_evdev(keys) <==> forall|i: int| 0 <= i < keys.len() ==> (#[trigger] keys[i]).0 >= 8,
{
    if forall|i: int| 0 <= i < keys.len() ==> (#[trigger] keys[i]).0 >= 8 {
        assert forall|i: int| 0 <= i < keys.len() implies (#[trigger] keys[i]).has_evdev() by {
            assert(keys[i].0 >= 8);
        }
    }
    if all_evdev(keys) {
        assert forall|i: int| 0 <= i < keys.len() implies (#[trigger] keys[i]).0 >= 8 by {
            assert(keys[i].has_evdev());
        }
    }
}

/// The native byte order is the endianness of the machine.
pub proof fn law_native_order()
    ensures
        native_order() is Little <==> vstd::endian::endianness() is Little,
        native_order() is Big <==> vstd::endian::endianness() is Big,
{
}

/// The state of a key, as input devices report it.
#[derive(Clone, Copy, Debug, PartialEq, Eq, Structural)]
pub enum KeyState {
    /// The key is up.
    Released,
    /// The key is down.
    Pressed,
}

/// The state of a key, as the `wl_keyboard` interface tells it.
#[derive(Clone, Copy, Debug, PartialEq, Eq, Structural)]
pub enum WlKeyState {
    /// The key is up.
    Released,
    /// The key is down.
    Pressed,
    /// The key is down and repeats.
    Repeated,
}

/// A `wl_keyboard` key state that no input device reports.
#[derive(Clone, Copy, Debug, PartialEq, Eq, Structural)]
pub struct UnknownKeyState(pub WlKeyState);

impl UnknownKeyState {
    /// What the error says, in words.
    pub open spec fn text(self) -> Seq<char> {
        "Unknown KeyState "@ + match self.0 {
            WlKeyState::Released => "Released"@,
            WlKeyState::Pressed => "Pressed"@,
            WlKeyState::Repeated => "Repeated"@,
        }
    }

    /// The error, in words.
    pub fn message(&self) -> (r: String)
        ensures
            r@ == self.text(),
    {
        let mut r = String::new();
        let name = match self.0 {
            WlKeyState::Released => "Released",
            WlKeyState::Pressed => "Pressed",
            WlKeyState::Repeated => "Repeated",
        };
        r.append("Unknown KeyState ");
        r.append(name);
        r
    }
}

/// The `wl_keyboard` state of a key.
pub open spec fn wl_state_of(state: KeyState) -> WlKeyState {
    match state {
        KeyState::Pressed => WlKeyState::Pressed,
        KeyState::Released => WlKeyState::Released,
    }
}

/// The state of a key behind a `wl_keyboard` state.
pub open spec fn key_state_of(state: WlKeyState) -> Result<KeyState, UnknownKeyState> {
    match state {
        WlKeyState::Pressed => Ok(KeyState::Pressed),
        WlKeyState::Released => Ok(KeyState::Released),
        other => Err(UnknownKeyState(other)),
    }
}

impl FromSpecImpl<KeyState> for WlKeyState {
    open spec fn obeys_from_spec() -> bool {
        true
    }

    open spec fn from_spec(state: KeyState) -> WlKeyState {
        wl_state_of(state)
    }
}

impl From<KeyState> for WlKeyState {
    fn from(state: KeyState) -> (r: WlKeyState) {
        match state {
            KeyState::Pressed => WlKeyState::Pressed,
            KeyState::Released => WlKeyState::Released,
        }
    }
}

impl TryFromSpecImpl<WlKeyState> for KeyState {
    open spec fn obeys_try_from_spec() -> bool {
        true
    }

    open spec fn try_from_spec(state: WlKeyState) -> Result<KeyState, UnknownKeyState> {
        key_state_of(state)
    }
}

impl TryFrom<WlKeyState> for KeyState {
    type Error = UnknownKeyState;

    fn try_from(state: WlKeyState) -> (r: Result<KeyState, UnknownKeyState>) {
        match state {
            WlKeyState::Pressed => Ok(KeyState::Pressed),
            WlKeyState::Released => Ok(KeyState::Released),
            other => Err(UnknownKeyState(other)),
        }
    }
}

/// A key state survives the way to the `wl_keyboard` interface and back, and a state of that
/// interface is refused exactly if no key state stands behind it.
pub proof fn law_key_states_read_back(state: KeyState, wl_state: WlKeyState)
    ensures
        key_state_of(wl_state_of(state)) == Ok::<KeyState, UnknownKeyState>(state),
        key_state_of(wl_state) is Err <==> forall|s: KeyState| #[trigger]
            wl_state_of(s) != wl_state,
        wl_state_of(state) is Pressed <==> state is Pressed,
        wl_state_of(state) is Released <==> state is Released,
{
    assert(wl_state_of(KeyState::Pressed) == WlKeyState::Pressed);
    assert(wl_state_of(KeyState::Released) == WlKeyState::Released);
}

} // verus!
