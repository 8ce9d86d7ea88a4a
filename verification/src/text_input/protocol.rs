//! The requests, events and messages of the text-input protocol, as plain data.
//!
//! Types that carry text take the type of the text as a parameter: `String` in the program,
//! `Seq<char>` in contracts.
use crate::objects::ObjectId;
use vstd::prelude::*;
use wayland_protocols::wp::text_input::zv3::server::zwp_text_input_v3;
use wayland_server::WEnum;

verus! {

/// Why the surrounding text changed.
#[derive(Clone, Copy, Debug, PartialEq, Eq, Structural)]
pub enum ChangeCause {
    /// The input method caused the change.
    InputMethod,
    /// Something else than the input method caused the change.
    Other,
}

/// Behavior hints of a text field, one bit each.
#[derive(Clone, Copy, Debug, PartialEq, Eq, Structural)]
pub struct ContentHint {
    /// The hints that are set.
    pub bits: u32,
}

/// The purpose of a text field.
#[derive(Clone, Copy, Debug, PartialEq, Eq, Structural)]
pub enum ContentPurpose {
    /// Default input, allowing all characters.
    Normal,
    /// Only alphabetic characters.
    Alpha,
    /// Only digits.
    Digits,
    /// A number, with decimal separator and sign.
    Number,
    /// A phone number.
    Phone,
    /// An URL.
    Url,
    /// An email address.
    Email,
    /// The name of a person.
    Name,
    /// A password.
    Password,
    /// A numeric password.
    Pin,
    /// A date.
    Date,
    /// A time.
    Time,
    /// A date and time.
    Datetime,
    /// Input for a terminal.
    Terminal,
}

/// A rectangle in surface-local coordinates.
#[derive(Clone, Copy, Debug, PartialEq, Eq, Structural)]
pub struct Rectangle {
    /// The left edge.
    pub x: i32,
    /// The upper edge.
    pub y: i32,
    /// The width.
    pub width: i32,
    /// The height.
    pub height: i32,
}

/// All hints that the protocol defines.
pub const ALL_CONTENT_HINTS: u32 = 0x1fff;

/// `WEnum::<zwp_text_input_v3::ChangeCause>::from` and `WEnum::into_result`: whether the protocol
/// defines a change cause with this number. It defines 0 and 1.
#[verifier::external_body]
fn known_change_cause(raw: u32) -> (r: Option<u32>)
    ensures
        r == if raw <= 1 {
            Some(raw)
        } else {
            None
        },
{
    let cause: WEnum<zwp_text_input_v3::ChangeCause> = WEnum::from(raw);
    cause.into_result().ok().map(u32::from)
}

/// `WEnum::<zwp_text_input_v3::ContentPurpose>::from` and `WEnum::into_result`: whether the
/// protocol defines a content purpose with this number. It defines 0 to 13.
#[verifier::external_body]
fn known_content_purpose(raw: u32) -> (r: Option<u32>)
    ensures
        r == if raw <= 13 {
            Some(raw)
        } else {
            None
        },
{
    let purpose: WEnum<zwp_text_input_v3::ContentPurpose> = WEnum::from(raw);
    purpose.into_result().ok().map(u32::from)
}

/// `zwp_text_input_v3::ContentHint::from_bits_truncate`: the bits that the protocol defines stay
/// and all others go.
#[verifier::external_body]
fn known_content_hints(raw: u32) -> (r: u32)
    ensures
        r == raw & ALL_CONTENT_HINTS,
{
    zwp_text_input_v3::ContentHint::from_bits_truncate(raw).bits()
}

impl ChangeCause {
    /// The cause with this number; one that the protocol does not define counts as `Other`.
    pub open spec fn of_raw(raw: u32) -> ChangeCause {
        if raw == 0 {
            ChangeCause::InputMethod
        } else {
            ChangeCause::Other
        }
    }

    /// Read a cause that a client sent. Clients of future versions may send unknown values, which
    /// count as `Other`.
    pub fn from_raw(raw: u32) -> (r: ChangeCause)
        ensures
            r == ChangeCause::of_raw(raw),
    {
        match known_change_cause(raw) {
            Some(0) => ChangeCause::InputMethod,
            _ => ChangeCause::Other,
        }
    }
}

impl ContentHint {
    /// The hints with these bits; bits that the protocol does not define are dropped.
    pub open spec fn of_raw(raw: u32) -> ContentHint {
        ContentHint { bits: raw & ALL_CONTENT_HINTS }
    }

    /// Read hints that a client sent. Clients of future versions may send unknown bits, which are
    /// dropped.
    pub fn from_raw(raw: u32) -> (r: ContentHint)
        ensures
            r == ContentHint::of_raw(raw),
    {
        ContentHint { bits: known_content_hints(raw) }
    }
}

impl ContentPurpose {
    /// The purpose with this number; one that the protocol does not define counts as `Normal`.
    pub open spec fn of_raw(raw: u32) -> ContentPurpose {
        if raw == 1 {
            ContentPurpose::Alpha
        } else if raw == 2 {
            ContentPurpose::Digits
        } else if raw == 3 {
            ContentPurpose::Number
        } else if raw == 4 {
            ContentPurpose::Phone
        } else if raw == 5 {
            ContentPurpose::Url
        } else if raw == 6 {
            ContentPurpose::Email
        } else if raw == 7 {
            ContentPurpose::Name
        } else if raw == 8 {
            ContentPurpose::Password
        } else if raw == 9 {
            ContentPurpose::Pin
        } else if raw == 10 {
            ContentPurpose::Date
        } else if raw == 11 {
            ContentPurpose::Time
        } else if raw == 12 {
            ContentPurpose::Datetime
        } else if raw == 13 {
            ContentPurpose::Terminal
        } else {
            ContentPurpose::Normal
        }
    }

    /// Read a purpose that a client sent. Clients of future versions may send unknown values,
    /// which count as `Normal`.
    pub fn from_raw(raw: u32) -> (r: ContentPurpose)
        ensures
            r == ContentPurpose::of_raw(raw),
    {
        match known_content_purpose(raw) {
            Some(1) => ContentPurpose::Alpha,
            Some(2) => ContentPurpose::Digits,
            Some(3) => ContentPurpose::Number,
            Some(4) => ContentPurpose::Phone,
            Some(5) => ContentPurpose::Url,
            Some(6) => ContentPurpose::Email,
            Some(7) => ContentPurpose::Name,
            Some(8) => ContentPurpose::Password,
            Some(9) => ContentPurpose::Pin,
            Some(10) => ContentPurpose::Date,
            Some(11) => ContentPurpose::Time,
            Some(12) => ContentPurpose::Datetime,
            Some(13) => ContentPurpose::Terminal,
            _ => ContentPurpose::Normal,
        }
    }
}

/// A request on a `zwp_text_input_v3` object, with enumerations as they came over the wire.
#[derive(Debug)]
pub enum Request<Text = String> {
    /// The client destroys the object.
    Destroy,
    /// Request text input to be enabled.
    Enable,
    /// Request text input to be disabled.
    Disable,
    /// Set the text around the cursor.
    SetSurroundingText {
        /// The surrounding text itself.
        text: Text,
        /// Byte offset of the cursor within `text`.
        cursor: i32,
        /// Byte offset of the selection anchor within `text`.
        anchor: i32,
    },
    /// Say why the surrounding text changed.
    SetTextChangeCause {
        /// The number of the cause.
        cause: u32,
    },
    /// Set what kind of text is expected.
    SetContentType {
        /// The bits of the hints.
        hint: u32,
        /// The number of the purpose.
        purpose: u32,
    },
    /// Say where the cursor is.
    SetCursorRectangle {
        /// The left edge.
        x: i32,
        /// The upper edge.
        y: i32,
        /// The width.
        width: i32,
        /// The height.
        height: i32,
    },
    /// Apply what was set since the last commit.
    Commit,
}

/// What a `zwp_text_input_v3` client asked for, as plain data.
///
/// Emitted only to an input method that is part of the compositor. A Wayland input method gets
/// the same information through its own protocol objects instead; both are driven from the same
/// place so the two cannot drift.
///
/// These arrive in the order the client's atomic `commit` applied them, followed by
/// [`TextInputEvent::Done`].
#[derive(Debug, Clone, PartialEq)]
pub enum TextInputEvent<Text = String> {
    /// The client enabled text input on the focused surface.
    Enabled,
    /// The client disabled text input. No further state applies until the next `Enabled`.
    Disabled,
    /// Text around the cursor. `cursor` and `anchor` are **byte** offsets into `text`.
    SurroundingText {
        /// The surrounding text itself.
        text: Text,
        /// Byte offset of the cursor within `text`.
        cursor: u32,
        /// Byte offset of the selection anchor within `text`.
        anchor: u32,
    },
    /// Why the surrounding text changed.
    TextChangeCause(ChangeCause),
    /// What kind of text the client expects.
    ContentType {
        /// Behavior hints.
        hint: ContentHint,
        /// The purpose of the field.
        purpose: ContentPurpose,
    },
    /// Where the cursor is, in surface-local coordinates: where a candidate popup goes.
    CursorRectangle(Rectangle),
    /// End of one atomic batch. Everything since the previous `Done` applies together.
    Done,
}

/// A call on the Wayland input method of a seat.
///
/// A call that comes while no input method is bound goes nowhere.
#[derive(Debug, Clone, PartialEq)]
pub enum InputMethodCall<Text = String> {
    /// Activate the input method for a surface.
    Activate {
        /// The surface that has the text-input focus.
        surface: ObjectId,
    },
    /// Deactivate the input method. Nothing else belongs to its batch.
    Deactivate,
    /// Send the text around the cursor.
    SurroundingText {
        /// The surrounding text itself.
        text: Text,
        /// Byte offset of the cursor within `text`.
        cursor: u32,
        /// Byte offset of the selection anchor within `text`.
        anchor: u32,
    },
    /// Send why the surrounding text changed.
    TextChangeCause(ChangeCause),
    /// Send what kind of text is expected.
    ContentType {
        /// Behavior hints.
        hint: ContentHint,
        /// The purpose of the field.
        purpose: ContentPurpose,
    },
    /// Move the popups of the input method to the cursor.
    SetTextInputRectangle(Rectangle),
    /// Send the end of one atomic batch.
    Done,
}

/// Something that is to be done because of a request.
#[derive(Debug, Clone, PartialEq)]
pub enum Effect<Text = String> {
    /// Hand an event to the input method that is part of the compositor.
    Notify(TextInputEvent<Text>),
    /// Call the Wayland input method.
    InputMethod(InputMethodCall<Text>),
}

/// A message to a `zwp_text_input_v3` object.
#[derive(Clone, Copy, Debug, PartialEq, Eq, Structural)]
pub enum TextInputMessage {
    /// The surface has the text-input focus.
    Enter {
        /// The object that is told.
        text_input: ObjectId,
        /// The focused surface.
        surface: ObjectId,
    },
    /// The surface no longer has the text-input focus.
    Leave {
        /// The object that is told.
        text_input: ObjectId,
        /// The surface that had the focus.
        surface: ObjectId,
    },
    /// End of one batch of changes by the input method.
    Done {
        /// The object that is told.
        text_input: ObjectId,
        /// The number of commits that the changes are based on.
        serial: u32,
    },
}

impl View for Request<String> {
    type V = Request<Seq<char>>;

    open spec fn view(&self) -> Request<Seq<char>> {
        match *self {
            Request::Destroy => Request::Destroy,
            Request::Enable => Request::Enable,
            Request::Disable => Request::Disable,
            Request::SetSurroundingText { text, cursor, anchor } => Request::SetSurroundingText {
                text: text@,
                cursor,
                anchor,
            },
            Request::SetTextChangeCause { cause } => Request::SetTextChangeCause { cause },
            Request::SetContentType { hint, purpose } => Request::SetContentType { hint, purpose },
            Request::SetCursorRectangle { x, y, width, height } => Request::SetCursorRectangle {
                x,
                y,
                width,
                height,
            },
            Request::Commit => Request::Commit,
        }
    }
}

impl View for TextInputEvent<String> {
    type V = TextInputEvent<Seq<char>>;

    open spec fn view(&self) -> TextInputEvent<Seq<char>> {
        match *self {
            TextInputEvent::Enabled => TextInputEvent::Enabled,
            TextInputEvent::Disabled => TextInputEvent::Disabled,
            TextInputEvent::SurroundingText { text, cursor, anchor } =>
                TextInputEvent::SurroundingText { text: text@, cursor, anchor },
            TextInputEvent::TextChangeCause(cause) => TextInputEvent::TextChangeCause(cause),
            TextInputEvent::ContentType { hint, purpose } => TextInputEvent::ContentType {
                hint,
                purpose,
            },
            TextInputEvent::CursorRectangle(rect) => TextInputEvent::CursorRectangle(rect),
            TextInputEvent::Done => TextInputEvent::Done,
        }
    }
}

impl View for InputMethodCall<String> {
    type V = InputMethodCall<Seq<char>>;

    open spec fn view(&self) -> InputMethodCall<Seq<char>> {
        match *self {
            InputMethodCall::Activate { surface } => InputMethodCall::Activate { surface },
            InputMethodCall::Deactivate => InputMethodCall::Deactivate,
            InputMethodCall::SurroundingText { text, cursor, anchor } =>
                InputMethodCall::SurroundingText { text: text@, cursor, anchor },
            InputMethodCall::TextChangeCause(cause) => InputMethodCall::TextChangeCause(cause),
            InputMethodCall::ContentType { hint, purpose } => InputMethodCall::ContentType {
                hint,
                purpose,
            },
            InputMethodCall::SetTextInputRectangle(rect) =>
                InputMethodCall::SetTextInputRectangle(rect),
            InputMethodCall::Done => InputMethodCall::Done,
        }
    }
}

impl View for Effect<String> {
    type V = Effect<Seq<char>>;

    open spec fn view(&self) -> Effect<Seq<char>> {
        match *self {
            Effect::Notify(event) => Effect::Notify(event@),
            Effect::InputMethod(call) => Effect::InputMethod(call@),
        }
    }
}

/// A list of effects, with the text in them as sequences of characters.
pub open spec fn effects_view(effects: Seq<Effect<String>>) -> Seq<Effect<Seq<char>>> {
    effects.map_values(|effect: Effect<String>| effect@)
}

} // verus!
