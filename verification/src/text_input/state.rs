//! The text-input state of a seat.
use crate::objects::{Liveness, ObjectId};
use crate::sequences::{first_index, is_first, lemma_filter_take, lemma_first_index_found};
use crate::text_input::protocol::{ChangeCause, ContentHint, ContentPurpose, Rectangle};
use vstd::prelude::*;

verus! {

/// What a client has set since its last commit.
#[derive(Debug)]
pub struct TextInputState<Text = String> {
    /// Whether text input is to be enabled or disabled.
    pub enable: Option<bool>,
    /// The text around the cursor, with the byte offsets of cursor and anchor.
    pub surrounding_text: Option<(Text, u32, u32)>,
    /// The kind of text that is expected.
    pub content_type: Option<(ContentHint, ContentPurpose)>,
    /// Where the cursor is.
    pub cursor_rectangle: Option<Rectangle>,
    /// Why the surrounding text changed.
    pub text_change_cause: Option<ChangeCause>,
}

/// A `zwp_text_input_v3` object of the seat.
#[derive(Debug)]
pub struct Instance<Text = String> {
    /// The object.
    pub instance: ObjectId,
    /// The surface that the object was told `enter` for and not yet `leave`.
    pub entered: Option<ObjectId>,
    /// How often the client has committed.
    pub serial: u32,
    /// What the client has set since its last commit.
    pub pending_state: TextInputState<Text>,
}

/// The text-input state of a seat.
///
/// `Sink` is whatever the compositor hands events to when it acts as the input method itself.
#[derive(Debug)]
pub struct TextInput<Sink> {
    /// The objects of the seat, in the order of their creation.
    pub instances: Vec<Instance>,
    /// The surface with the text-input focus.
    pub focus: Option<ObjectId>,
    /// The object that text input is enabled for.
    pub active_text_input_id: Option<ObjectId>,
    /// The input method that is part of the compositor.
    pub internal_im: Option<Sink>,
}

/// The text-input state of a seat, as contracts speak of it.
#[verifier::ext_equal]
pub struct TextInputView<Sink> {
    /// The objects of the seat, in the order of their creation.
    pub instances: Seq<Instance<Seq<char>>>,
    /// The surface with the text-input focus.
    pub focus: Option<ObjectId>,
    /// The object that text input is enabled for.
    pub active_text_input_id: Option<ObjectId>,
    /// The input method that is part of the compositor.
    pub internal_im: Option<Sink>,
}

/// Nothing is set.
pub open spec fn nothing_pending() -> TextInputState<Seq<char>> {
    TextInputState {
        enable: None,
        surrounding_text: None,
        content_type: None,
        cursor_rectangle: None,
        text_change_cause: None,
    }
}

impl View for TextInputState<String> {
    type V = TextInputState<Seq<char>>;

    open spec fn view(&self) -> TextInputState<Seq<char>> {
        TextInputState {
            enable: self.enable,
            surrounding_text: match self.surrounding_text {
                Some((text, cursor, anchor)) => Some((text@, cursor, anchor)),
                None => None,
            },
            content_type: self.content_type,
            cursor_rectangle: self.cursor_rectangle,
            text_change_cause: self.text_change_cause,
        }
    }
}

impl Default for TextInputState<String> {
    /// Nothing is set.
    fn default() -> (r: TextInputState<String>)
        ensures
            r@ == nothing_pending(),
    {
        TextInputState {
            enable: None,
            surrounding_text: None,
            content_type: None,
            cursor_rectangle: None,
            text_change_cause: None,
        }
    }
}

impl View for Instance<String> {
    type V = Instance<Seq<char>>;

    open spec fn view(&self) -> Instance<Seq<char>> {
        Instance {
            instance: self.instance,
            entered: self.entered,
            serial: self.serial,
            pending_state: self.pending_state@,
        }
    }
}

impl<Sink> View for TextInput<Sink> {
    type V = TextInputView<Sink>;

    open spec fn view(&self) -> TextInputView<Sink> {
        TextInputView {
            instances: self.instances@.map_values(|instance: Instance<String>| instance@),
            focus: self.focus,
            active_text_input_id: self.active_text_input_id,
            internal_im: self.internal_im,
        }
    }
}

/// Where an object stands among the objects of the seat.
pub open spec fn position_of(instances: Seq<Instance<Seq<char>>>, id: ObjectId) -> Option<int> {
    first_index(instances, |instance: Instance<Seq<char>>| instance.instance == id)
}

/// The object belongs to the client of the surface.
pub open spec fn beside(surface: ObjectId) -> spec_fn(Instance<Seq<char>>) -> bool {
    |instance: Instance<Seq<char>>| instance.instance.client == surface.client
}

/// The object, with the surface and its serial.
pub open spec fn with_surface(surface: ObjectId) -> spec_fn(Instance<Seq<char>>) -> (
    ObjectId,
    ObjectId,
    u32,
) {
    |instance: Instance<Seq<char>>| (instance.instance, surface, instance.serial)
}

/// The object belongs to the client of the surface and was told `enter` for it, and not yet
/// `leave`.
pub open spec fn told_of(surface: ObjectId) -> spec_fn(Instance<Seq<char>>) -> bool {
    |instance: Instance<Seq<char>>|
        instance.instance.client == surface.client && instance.entered == Some(surface)
}

/// The objects, with another `entered` for some of them.
pub open spec fn marked(
    instances: Seq<Instance<Seq<char>>>,
    pred: spec_fn(Instance<Seq<char>>) -> bool,
    entered: Option<ObjectId>,
) -> Seq<Instance<Seq<char>>> {
    instances.map_values(
        |instance: Instance<Seq<char>>|
            if pred(instance) {
                Instance { entered, ..instance }
            } else {
                instance
            },
    )
}

impl<Sink> TextInputView<Sink> {
    /// Where an object stands among the objects of the seat.
    pub open spec fn position(self, id: ObjectId) -> Option<int> {
        position_of(self.instances, id)
    }

    /// The focused surface, while it exists.
    pub open spec fn live_focus(self, live: &Liveness) -> Option<ObjectId> {
        match self.focus {
            Some(surface) => if live.object_alive(surface) {
                Some(surface)
            } else {
                None
            },
            None => None,
        }
    }

    /// The objects of the client of the focused surface, each with that surface and its serial.
    pub open spec fn focused(self, live: &Liveness) -> Seq<(ObjectId, ObjectId, u32)> {
        match self.live_focus(live) {
            Some(surface) => self.instances.filter(beside(surface)).map_values(
                with_surface(surface),
            ),
            None => seq![],
        }
    }

    /// The object that text input is enabled for, if it belongs to the client of the focused
    /// surface, with that surface and its serial.
    pub open spec fn active(self, live: &Liveness) -> Option<(ObjectId, ObjectId, u32)> {
        match (self.active_text_input_id, self.live_focus(live)) {
            (Some(id), Some(surface)) => if id.client == surface.client {
                match self.position(id) {
                    Some(i) => Some((id, surface, self.instances[i].serial)),
                    None => None,
                }
            } else {
                None
            },
            _ => None,
        }
    }
}

impl<Sink> Default for TextInput<Sink> {
    /// No objects, no focus and no input method.
    fn default() -> (r: TextInput<Sink>)
        ensures
            r@ == (TextInputView::<Sink> {
                instances: seq![],
                focus: None,
                active_text_input_id: None,
                internal_im: None,
            }),
    {
        TextInput {
            instances: Vec::new(),
            focus: None,
            active_text_input_id: None,
            internal_im: None,
        }
    }
}

impl<Sink> TextInput<Sink> {
    /// Where an object stands among the objects of the seat.
    pub fn find(&self, id: &ObjectId) -> (r: Option<usize>)
        ensures
            match r {
                Some(i) => self@.position(*id) == Some(i as int) && i < self.instances.len()
                    && self.instances[i as int].instance == *id,
                None => self@.position(*id) is None,
            },
    {
        let ghost pred = |instance: Instance<Seq<char>>| instance.instance == *id;
        let ghost instances = self@.instances;
        let mut i: usize = 0;
        while i < self.instances.len()
            invariant
                i <= self.instances.len(),
                instances == self.instances@.map_values(|instance: Instance<String>| instance@),
                pred == (|instance: Instance<Seq<char>>| instance.instance == *id),
                forall|j: int| 0 <= j < i ==> !pred(#[trigger] instances[j]),
            decreases self.instances.len() - i,
        {
            if self.instances[i].instance == *id {
                proof {
                    assert(is_first(instances, pred, i as int));
                    lemma_first_index_found(instances, pred, i as int);
                }
                return Some(i);
            }
            i += 1;
        }
        None
    }

    /// The focused surface, while it exists.
    pub(crate) fn alive_focus(&self, live: &Liveness) -> (r: Option<ObjectId>)
        ensures
            r == self@.live_focus(live),
    {
        match self.focus {
            Some(surface) => if live.is_alive(&surface) {
                Some(surface)
            } else {
                None
            },
            None => None,
        }
    }

    /// The objects of the client of the focused surface, each with that surface and its serial.
    pub fn with_focused_client_all_text_inputs(&self, live: &Liveness) -> (r: Vec<
        (ObjectId, ObjectId, u32),
    >)
        ensures
            r@ == self@.focused(live),
    {
        let mut found: Vec<(ObjectId, ObjectId, u32)> = Vec::new();
        if let Some(surface) = self.alive_focus(live) {
            let ghost pred = beside(surface);
            let ghost triple = with_surface(surface);
            let ghost instances = self@.instances;
            assert(instances.take(0) =~= seq![]);
            assert(seq![].filter(pred) =~= Seq::<Instance<Seq<char>>>::empty()) by {
                reveal(Seq::filter);
            }
            let mut i: usize = 0;
            while i < self.instances.len()
                invariant
                    i <= self.instances.len(),
                    instances == self.instances@.map_values(|instance: Instance<String>| instance@),
                    pred == beside(surface),
                    triple == with_surface(surface),
                    found@ == instances.take(i as int).filter(pred).map_values(triple),
                decreases self.instances.len() - i,
            {
                let instance = &self.instances[i];
                if instance.instance.same_client_as(&surface) {
                    found.push((instance.instance, surface, instance.serial));
                }
                proof {
                    lemma_filter_take(instances, pred, i as int);
                    assert(found@ =~= instances.take(i + 1).filter(pred).map_values(triple));
                }
                i += 1;
            }
            assert(instances.take(i as int) =~= instances);
        }
        found
    }

    /// Note for each object of the client of a surface that it was told `enter` for the surface, or
    /// that it was told `leave`.
    pub(crate) fn mark_beside(&mut self, surface: ObjectId, entered: Option<ObjectId>)
        ensures
            final(self)@ == (TextInputView::<Sink> {
                instances: marked(old(self)@.instances, beside(surface), entered),
                ..old(self)@
            }),
    {
        let ghost before = self@.instances;
        let ghost after = marked(before, beside(surface), entered);
        let mut i: usize = 0;
        while i < self.instances.len()
            invariant
                i <= self.instances.len(),
                self.instances@.len() == before.len(),
                after == marked(before, beside(surface), entered),
                forall|j: int| 0 <= j < i ==> (#[trigger] self.instances@[j])@ == after[j],
                forall|j: int|
                    i <= j < before.len() ==> (#[trigger] self.instances@[j])@ == before[j],
                self.focus == old(self).focus,
                self.active_text_input_id == old(self).active_text_input_id,
                self.internal_im == old(self).internal_im,
            decreases self.instances.len() - i,
        {
            assert(self.instances@[i as int]@ == before[i as int]);
            if self.instances[i].instance.same_client_as(&surface) {
                self.instances[i].entered = entered;
            }
            i += 1;
        }
        assert(self@.instances =~= after);
    }

    /// Take the objects of the client of a surface that were told `enter` for it, and note that
    /// they were told `leave`.
    pub(crate) fn take_told(&mut self, surface: ObjectId) -> (told: Vec<ObjectId>)
        ensures
            told@ == old(self)@.instances.filter(told_of(surface)).map_values(
                |instance: Instance<Seq<char>>| instance.instance,
            ),
            final(self)@ == (TextInputView::<Sink> {
                instances: marked(old(self)@.instances, told_of(surface), None),
                ..old(self)@
            }),
    {
        let ghost before = self@.instances;
        let ghost pred = told_of(surface);
        let ghost after = marked(before, pred, None);
        let ghost id = |instance: Instance<Seq<char>>| instance.instance;
        let mut told: Vec<ObjectId> = Vec::new();
        let mut i: usize = 0;
        proof {
            reveal(Seq::filter);
            assert(before.take(0).filter(pred) =~= seq![]);
        }
        while i < self.instances.len()
            invariant
                i <= self.instances.len(),
                self.instances@.len() == before.len(),
                pred == told_of(surface),
                id == (|instance: Instance<Seq<char>>| instance.instance),
                after == marked(before, pred, None),
                told@ == before.take(i as int).filter(pred).map_values(id),
                forall|j: int| 0 <= j < i ==> (#[trigger] self.instances@[j])@ == after[j],
                forall|j: int|
                    i <= j < before.len() ==> (#[trigger] self.instances@[j])@ == before[j],
                self.focus == old(self).focus,
                self.active_text_input_id == old(self).active_text_input_id,
                self.internal_im == old(self).internal_im,
            decreases self.instances.len() - i,
        {
            assert(self.instances@[i as int]@ == before[i as int]);
            proof {
                lemma_filter_take(before, pred, i as int);
            }
            if self.instances[i].instance.same_client_as(&surface) && self.instances[i].entered
                == Some(surface) {
                told.push(self.instances[i].instance);
                self.instances[i].entered = None;
            }
            assert(told@ =~= before.take(i + 1).filter(pred).map_values(id));
            i += 1;
        }
        assert(before.take(i as int) =~= before);
        assert(self@.instances =~= after);
        told
    }

    /// The object that text input is enabled for, if it belongs to the client of the focused
    /// surface, with that surface and its serial.
    pub fn with_active_text_input(&self, live: &Liveness) -> (r: Option<(ObjectId, ObjectId, u32)>)
        ensures
            r == self@.active(live),
    {
        match (self.active_text_input_id, self.alive_focus(live)) {
            (Some(active_id), Some(surface)) => {
                if active_id.same_client_as(&surface) {
                    match self.find(&active_id) {
                        Some(i) => Some((active_id, surface, self.instances[i].serial)),
                        None => None,
                    }
                } else {
                    None
                }
            },
            _ => None,
        }
    }
}

} // verus!
