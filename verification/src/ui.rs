use vstd::prelude::*;

use crate::event_bus::EventBus;

verus! {

/// What a widget of the immediate-mode UI reports when it is clicked.
#[derive(Debug, Clone, Copy, PartialEq, Eq, Structural)]
pub enum UiEvent {
    ButtonClicked,
    CheckboxClicked,
}

/// How much a text box is darkened: most while pressed, a little while hovered.
#[derive(Debug, Clone, Copy, PartialEq, Eq, Structural)]
pub enum Shade {
    Pressed,
    Hovered,
    Plain,
}

/// How the mouse interacts with a text box this frame.
#[derive(Debug, Clone, Copy, PartialEq, Eq, Structural)]
pub struct ButtonState {
    pub is_hovered: bool,
    pub is_clicked: bool,
    pub is_pressed: bool,
    pub shade: Shade,
}

impl ButtonState {
    pub fn clicked(&self) -> (b: bool)
        ensures
            b == self.is_clicked,
    {
        self.is_clicked
    }
}

/// The interaction of a text box that the cursor is over or not: a click is a
/// press of the left button that starts this frame over the box, a press is the
/// left button held over it. A click of a box that reports an event queues it.
pub fn text_box_response(
    events: &mut EventBus<UiEvent>,
    is_hovered: bool,
    left_just_pressed: bool,
    left_held: bool,
    on_click: Option<UiEvent>,
) -> (r: ButtonState)
    ensures
        r.is_hovered == is_hovered,
        r.is_clicked == (is_hovered && left_just_pressed),
        r.is_pressed == (is_hovered && left_held),
        r.shade == (if r.is_pressed {
            Shade::Pressed
        } else if is_hovered {
            Shade::Hovered
        } else {
            Shade::Plain
        }),
        final(events)@ == (match on_click {
            Some(e) => if r.is_clicked {
                old(events)@.push(e)
            } else {
                old(events)@
            },
            None => old(events)@,
        }),
{
    let is_clicked = is_hovered && left_just_pressed;
    let is_pressed = is_hovered && left_held;
    let shade = if is_pressed {
        Shade::Pressed
    } else if is_hovered {
        Shade::Hovered
    } else {
        Shade::Plain
    };
    if is_clicked {
        if let Some(e) = on_click {
            events.enqueue(e);
        }
    }
    ButtonState { is_hovered, is_clicked, is_pressed, shade }
}

} // verus!
