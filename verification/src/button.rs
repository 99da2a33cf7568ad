//! Button action queries, modeled over plain values.
//!
//! A button lives in a widget tree and learns of pointer events through a
//! list of actions, each addressed to one widget by its identifier. The
//! drawing and event plumbing belong to the surrounding framework; what is
//! modeled and verified here is the logic that reads such an action list:
//! which button was clicked, pressed or released, with which key
//! modifiers, and the visibility, enabledness and hover state the queries
//! and setters touch.

use vstd::prelude::*;

verus! {

/// The keyboard modifiers held during a pointer event.
#[derive(Clone, Copy, Debug, Default, Eq, PartialEq, Structural)]
pub struct KeyModifiers {
    pub shift: bool,
    pub control: bool,
    pub alt: bool,
    pub logo: bool,
}

/// What happened to a button.
#[derive(Clone, Copy, Debug, Eq, PartialEq, Structural)]
pub enum ButtonAction {
    /// The pointer went down on the button.
    Pressed(KeyModifiers),
    /// The pointer went up over the button.
    Clicked(KeyModifiers),
    /// The pointer went up away from the button.
    Released(KeyModifiers),
}

/// One action in flight, addressed to one widget.
#[derive(Clone, Copy, Debug, Eq, PartialEq, Structural)]
pub struct WidgetAction {
    /// The identifier of the widget the action belongs to.
    pub widget_uid: u64,
    /// What happened there.
    pub action: ButtonAction,
}

/// The list of actions produced by one round of event handling.
pub type Actions = Vec<WidgetAction>;

/// The first action addressed to the given widget, if any.
pub open spec fn spec_find_action(actions: Seq<WidgetAction>, uid: u64) -> Option<ButtonAction>
    decreases actions.len(),
{
    if actions.len() == 0 {
        None
    } else if actions[0].widget_uid == uid {
        Some(actions[0].action)
    } else {
        spec_find_action(actions.drop_first(), uid)
    }
}

/// Finds the first action addressed to `uid`.
fn find_action(actions: &Actions, uid: u64) -> (r: Option<ButtonAction>)
    ensures
        r == spec_find_action(actions@, uid),
{
    let mut i: usize = 0;
    proof {
        assert(actions@.skip(0) =~= actions@);
    }
    while i < actions.len()
        invariant
            i <= actions@.len(),
            spec_find_action(actions@, uid) == spec_find_action(actions@.skip(i as int), uid),
        decreases actions@.len() - i,
    {
        let entry = actions[i];
        proof {
            assert(actions@.skip(i as int)[0] == actions@[i as int]);
            assert(actions@.skip(i as int).drop_first() =~= actions@.skip(i as int + 1));
        }
        if entry.widget_uid == uid {
            return Some(entry.action);
        }
        i = i + 1;
    }
    proof {
        assert(actions@.skip(i as int).len() == 0);
    }
    None
}

/// A clickable button: its identity in the widget tree and the state its
/// queries and setters read and write.
#[derive(Clone, Copy, Debug, Eq, PartialEq, Structural)]
pub struct Button {
    /// The identifier actions addressed to this button carry.
    pub widget_uid: u64,
    /// Whether the button reacts to events.
    pub enabled: bool,
    /// Whether the button is drawn at all.
    pub visible: bool,
    /// Whether the pointer currently hovers the button.
    pub hover: bool,
}

impl Default for Button {
    /// A fresh button: enabled and visible, not hovered, addressed as
    /// widget zero.
    fn default() -> (r: Button)
        ensures
            r == (Button { widget_uid: 0, enabled: true, visible: true, hover: false }),
    {
        Button { widget_uid: 0, enabled: true, visible: true, hover: false }
    }
}

/// Whether the given action list clicks this button.
pub open spec fn spec_clicked(b: Button, actions: Seq<WidgetAction>) -> bool {
    spec_find_action(actions, b.widget_uid) matches Some(ButtonAction::Clicked(_))
}

/// Whether the given action list presses this button.
pub open spec fn spec_pressed(b: Button, actions: Seq<WidgetAction>) -> bool {
    spec_find_action(actions, b.widget_uid) matches Some(ButtonAction::Pressed(_))
}

/// Whether the given action list releases this button.
pub open spec fn spec_released(b: Button, actions: Seq<WidgetAction>) -> bool {
    spec_find_action(actions, b.widget_uid) matches Some(ButtonAction::Released(_))
}

/// The modifiers of a click of this button, if the action list holds one.
pub open spec fn spec_clicked_modifiers(b: Button, actions: Seq<WidgetAction>) -> Option<
    KeyModifiers,
> {
    match spec_find_action(actions, b.widget_uid) {
        Some(ButtonAction::Clicked(m)) => Some(m),
        _ => None,
    }
}

/// The modifiers of a press of this button, if the action list holds one.
pub open spec fn spec_pressed_modifiers(b: Button, actions: Seq<WidgetAction>) -> Option<
    KeyModifiers,
> {
    match spec_find_action(actions, b.widget_uid) {
        Some(ButtonAction::Pressed(m)) => Some(m),
        _ => None,
    }
}

/// The modifiers of a release of this button, if the action list holds
/// one.
pub open spec fn spec_released_modifiers(b: Button, actions: Seq<WidgetAction>) -> Option<
    KeyModifiers,
> {
    match spec_find_action(actions, b.widget_uid) {
        Some(ButtonAction::Released(m)) => Some(m),
        _ => None,
    }
}

impl Button {
    /// Whether `actions` holds a click of this button.
    pub fn clicked(&self, actions: &Actions) -> (r: bool)
        ensures
            r == spec_clicked(*self, actions@),
    {
        match find_action(actions, self.widget_uid) {
            Some(ButtonAction::Clicked(_)) => true,
            _ => false,
        }
    }

    /// Whether `actions` holds a press of this button.
    pub fn pressed(&self, actions: &Actions) -> (r: bool)
        ensures
            r == spec_pressed(*self, actions@),
    {
        match find_action(actions, self.widget_uid) {
            Some(ButtonAction::Pressed(_)) => true,
            _ => false,
        }
    }

    /// Whether `actions` holds a release of this button.
    pub fn released(&self, actions: &Actions) -> (r: bool)
        ensures
            r == spec_released(*self, actions@),
    {
        match find_action(actions, self.widget_uid) {
            Some(ButtonAction::Released(_)) => true,
            _ => false,
        }
    }

    /// The modifiers of a click of this button, if `actions` holds one.
    pub fn clicked_modifiers(&self, actions: &Actions) -> (r: Option<KeyModifiers>)
        ensures
            r == spec_clicked_modifiers(*self, actions@),
    {
        match find_action(actions, self.widget_uid) {
            Some(ButtonAction::Clicked(m)) => Some(m),
            _ => None,
        }
    }

    /// The modifiers of a press of this button, if `actions` holds one.
    pub fn pressed_modifiers(&self, actions: &Actions) -> (r: Option<KeyModifiers>)
        ensures
            r == spec_pressed_modifiers(*self, actions@),
    {
        match find_action(actions, self.widget_uid) {
            Some(ButtonAction::Pressed(m)) => Some(m),
            _ => None,
        }
    }

    /// The modifiers of a release of this button, if `actions` holds one.
    pub fn released_modifiers(&self, actions: &Actions) -> (r: Option<KeyModifiers>)
        ensures
            r == spec_released_modifiers(*self, actions@),
    {
        match find_action(actions, self.widget_uid) {
            Some(ButtonAction::Released(m)) => Some(m),
            _ => None,
        }
    }
}

/// A handle to a button that may be empty, as a handle into a widget tree
/// is when the widget it names does not exist.
#[derive(Clone, Copy, Debug, Eq, PartialEq, Structural)]
pub struct ButtonRef {
    /// The button the handle reaches, if any.
    pub inner: Option<Button>,
}

impl ButtonRef {
    /// Whether `actions` holds a click of the button; an empty handle was
    /// never clicked.
    pub fn clicked(&self, actions: &Actions) -> (r: bool)
        ensures
            r == match self.inner {
                Some(b) => spec_clicked(b, actions@),
                None => false,
            },
    {
        match &self.inner {
            Some(inner) => inner.clicked(actions),
            None => false,
        }
    }

    /// Whether `actions` holds a press of the button.
    pub fn pressed(&self, actions: &Actions) -> (r: bool)
        ensures
            r == match self.inner {
                Some(b) => spec_pressed(b, actions@),
                None => false,
            },
    {
        match &self.inner {
            Some(inner) => inner.pressed(actions),
            None => false,
        }
    }

    /// Whether `actions` holds a release of the button.
    pub fn released(&self, actions: &Actions) -> (r: bool)
        ensures
            r == match self.inner {
                Some(b) => spec_released(b, actions@),
                None => false,
            },
    {
        match &self.inner {
            Some(inner) => inner.released(actions),
            None => false,
        }
    }

    /// The modifiers of a click of the button, if any.
    pub fn clicked_modifiers(&self, actions: &Actions) -> (r: Option<KeyModifiers>)
        ensures
            r == match self.inner {
                Some(b) => spec_clicked_modifiers(b, actions@),
                None => None,
            },
    {
        match &self.inner {
            Some(inner) => inner.clicked_modifiers(actions),
            None => None,
        }
    }

    /// The modifiers of a press of the button, if any.
    pub fn pressed_modifiers(&self, actions: &Actions) -> (r: Option<KeyModifiers>)
        ensures
            r == match self.inner {
                Some(b) => spec_pressed_modifiers(b, actions@),
                None => None,
            },
    {
        match &self.inner {
            Some(inner) => inner.pressed_modifiers(actions),
            None => None,
        }
    }

    /// The modifiers of a release of the button, if any.
    pub fn released_modifiers(&self, actions: &Actions) -> (r: Option<KeyModifiers>)
        ensures
            r == match self.inner {
                Some(b) => spec_released_modifiers(b, actions@),
                None => None,
            },
    {
        match &self.inner {
            Some(inner) => inner.released_modifiers(actions),
            None => None,
        }
    }

    /// Shows or hides the button; an empty handle stays empty.
    pub fn set_visible(&mut self, visible: bool)
        ensures
            final(self).inner == match old(self).inner {
                Some(b) => Some(Button { visible, ..b }),
                None => None::<Button>,
            },
    {
        match &mut self.inner {
            Some(inner) => {
                inner.visible = visible;
            },
            None => {},
        }
    }

    /// Enables or disables the button; an empty handle stays empty.
    pub fn set_enabled(&mut self, enabled: bool)
        ensures
            final(self).inner == match old(self).inner {
                Some(b) => Some(Button { enabled, ..b }),
                None => None::<Button>,
            },
    {
        match &mut self.inner {
            Some(inner) => {
                inner.enabled = enabled;
            },
            None => {},
        }
    }

    /// Clears the button's hover state; an empty handle stays empty.
    pub fn reset_hover(&mut self)
        ensures
            final(self).inner == match old(self).inner {
                Some(b) => Some(Button { hover: false, ..b }),
                None => None::<Button>,
            },
    {
        match &mut self.inner {
            Some(inner) => {
                inner.hover = false;
            },
            None => {},
        }
    }
}

/// A group of button handles queried and updated together.
#[derive(Clone, Debug, Eq, PartialEq)]
pub struct ButtonSet {
    /// The handles, in order.
    pub buttons: Vec<ButtonRef>,
}

/// Whether one handle of the group sees a click in `actions`.
pub open spec fn spec_ref_clicked(r: ButtonRef, actions: Seq<WidgetAction>) -> bool {
    match r.inner {
        Some(b) => spec_clicked(b, actions),
        None => false,
    }
}

/// Whether one handle of the group sees a press in `actions`.
pub open spec fn spec_ref_pressed(r: ButtonRef, actions: Seq<WidgetAction>) -> bool {
    match r.inner {
        Some(b) => spec_pressed(b, actions),
        None => false,
    }
}

/// Whether one handle of the group sees a release in `actions`.
pub open spec fn spec_ref_released(r: ButtonRef, actions: Seq<WidgetAction>) -> bool {
    match r.inner {
        Some(b) => spec_released(b, actions),
        None => false,
    }
}

/// The click modifiers one handle of the group sees in `actions`.
pub open spec fn spec_ref_clicked_modifiers(r: ButtonRef, actions: Seq<WidgetAction>) -> Option<
    KeyModifiers,
> {
    match r.inner {
        Some(b) => spec_clicked_modifiers(b, actions),
        None => None,
    }
}

impl ButtonSet {
    /// Whether any button of the group was clicked.
    pub fn clicked(&self, actions: &Actions) -> (r: bool)
        ensures
            r == exists|i: int|
                0 <= i < self.buttons@.len() && spec_ref_clicked(#[trigger] self.buttons@[i], actions@),
    {
        let mut i: usize = 0;
        while i < self.buttons.len()
            invariant
                i <= self.buttons@.len(),
                forall|j: int| 0 <= j < i ==> !spec_ref_clicked(#[trigger] self.buttons@[j], actions@),
            decreases self.buttons@.len() - i,
        {
            if self.buttons[i].clicked(actions) {
                return true;
            }
            i = i + 1;
        }
        false
    }

    /// Whether any button of the group was pressed.
    pub fn pressed(&self, actions: &Actions) -> (r: bool)
        ensures
            r == exists|i: int|
                0 <= i < self.buttons@.len() && spec_ref_pressed(#[trigger] self.buttons@[i], actions@),
    {
        let mut i: usize = 0;
        while i < self.buttons.len()
            invariant
                i <= self.buttons@.len(),
                forall|j: int| 0 <= j < i ==> !spec_ref_pressed(#[trigger] self.buttons@[j], actions@),
            decreases self.buttons@.len() - i,
        {
            if self.buttons[i].pressed(actions) {
                return true;
            }
            i = i + 1;
        }
        false
    }

    /// Whether any button of the group was released.
    pub fn released(&self, actions: &Actions) -> (r: bool)
        ensures
            r == exists|i: int|
                0 <= i < self.buttons@.len() && spec_ref_released(#[trigger] self.buttons@[i], actions@),
    {
        let mut i: usize = 0;
        while i < self.buttons.len()
            invariant
                i <= self.buttons@.len(),
                forall|j: int| 0 <= j < i ==> !spec_ref_released(#[trigger] self.buttons@[j], actions@),
            decreases self.buttons@.len() - i,
        {
            if self.buttons[i].released(actions) {
                return true;
            }
            i = i + 1;
        }
        false
    }

    /// The index and modifiers of the first button of the group that was
    /// clicked, if any.
    pub fn which_clicked_modifiers(&self, actions: &Actions) -> (r: Option<(usize, KeyModifiers)>)
        ensures
            match r {
                Some(hit) => {
                    &&& hit.0 < self.buttons@.len()
                    &&& spec_ref_clicked_modifiers(self.buttons@[hit.0 as int], actions@)
                        == Some(hit.1)
                    &&& forall|j: int|
                        0 <= j < hit.0 ==> spec_ref_clicked_modifiers(
                            #[trigger] self.buttons@[j],
                            actions@,
                        ) is None
                },
                None => forall|j: int|
                    0 <= j < self.buttons@.len() ==> spec_ref_clicked_modifiers(
                        #[trigger] self.buttons@[j],
                        actions@,
                    ) is None,
            },
    {
        let mut i: usize = 0;
        while i < self.buttons.len()
            invariant
                i <= self.buttons@.len(),
                forall|j: int|
                    0 <= j < i ==> spec_ref_clicked_modifiers(
                        #[trigger] self.buttons@[j],
                        actions@,
                    ) is None,
            decreases self.buttons@.len() - i,
        {
            match self.buttons[i].clicked_modifiers(actions) {
                Some(m) => {
                    return Some((i, m));
                },
                None => {},
            }
            i = i + 1;
        }
        None
    }

    /// Clears the hover state of every button of the group.
    pub fn reset_hover(&mut self)
        ensures
            final(self).buttons@.len() == old(self).buttons@.len(),
            forall|i: int|
                0 <= i < old(self).buttons@.len() ==> (#[trigger] final(self).buttons@[i]).inner
                    == match old(self).buttons@[i].inner {
                    Some(b) => Some(Button { hover: false, ..b }),
                    None => None::<Button>,
                },
    {
        let mut i: usize = 0;
        while i < self.buttons.len()
            invariant
                i <= self.buttons@.len(),
                self.buttons@.len() == old(self).buttons@.len(),
                forall|j: int|
                    i <= j < self.buttons@.len() ==> #[trigger] self.buttons@[j] == old(
                        self,
                    ).buttons@[j],
                forall|j: int|
                    0 <= j < i ==> (#[trigger] self.buttons@[j]).inner == match old(
                        self,
                    ).buttons@[j].inner {
                        Some(b) => Some(Button { hover: false, ..b }),
                        None => None::<Button>,
                    },
            decreases self.buttons@.len() - i,
        {
            let entry = &mut self.buttons[i];
            entry.reset_hover();
            i = i + 1;
        }
    }

    /// Shows or hides every button of the group.
    pub fn set_visible(&mut self, visible: bool)
        ensures
            final(self).buttons@.len() == old(self).buttons@.len(),
            forall|i: int|
                0 <= i < old(self).buttons@.len() ==> (#[trigger] final(self).buttons@[i]).inner
                    == match old(self).buttons@[i].inner {
                    Some(b) => Some(Button { visible, ..b }),
                    None => None::<Button>,
                },
    {
        let mut i: usize = 0;
        while i < self.buttons.len()
            invariant
                i <= self.buttons@.len(),
                self.buttons@.len() == old(self).buttons@.len(),
                forall|j: int|
                    i <= j < self.buttons@.len() ==> #[trigger] self.buttons@[j] == old(
                        self,
                    ).buttons@[j],
                forall|j: int|
                    0 <= j < i ==> (#[trigger] self.buttons@[j]).inner == match old(
                        self,
                    ).buttons@[j].inner {
                        Some(b) => Some(Button { visible, ..b }),
                        None => None::<Button>,
                    },
            decreases self.buttons@.len() - i,
        {
            let entry = &mut self.buttons[i];
            entry.set_visible(visible);
            i = i + 1;
        }
    }

    /// Enables or disables every button of the group.
    pub fn set_enabled(&mut self, enabled: bool)
        ensures
            final(self).buttons@.len() == old(self).buttons@.len(),
            forall|i: int|
                0 <= i < old(self).buttons@.len() ==> (#[trigger] final(self).buttons@[i]).inner
                    == match old(self).buttons@[i].inner {
                    Some(b) => Some(Button { enabled, ..b }),
                    None => None::<Button>,
                },
    {
        let mut i: usize = 0;
        while i < self.buttons.len()
            invariant
                i <= self.buttons@.len(),
                self.buttons@.len() == old(self).buttons@.len(),
                forall|j: int|
                    i <= j < self.buttons@.len() ==> #[trigger] self.buttons@[j] == old(
                        self,
                    ).buttons@[j],
                forall|j: int|
                    0 <= j < i ==> (#[trigger] self.buttons@[j]).inner == match old(
                        self,
                    ).buttons@[j].inner {
                        Some(b) => Some(Button { enabled, ..b }),
                        None => None::<Button>,
                    },
            decreases self.buttons@.len() - i,
        {
            let entry = &mut self.buttons[i];
            entry.set_enabled(enabled);
            i = i + 1;
        }
    }
}

} // verus!
