//! Detected interactive UI elements: a three-kind model of what an agent
//! can act on — buttons to click, inputs to type into, toggles to flip.

use vstd::prelude::*;

verus! {

/// Kind of interactive element.
#[derive(Debug, Clone, Copy, PartialEq, Eq, Hash, Structural)]
pub enum ElementKind {
    /// Clickable element (buttons, menu items, tabs): inverse video or a
    /// bracket pattern such as `[OK]` or `<Cancel>`.
    Button,
    /// Text entry field: the cursor position or an underscore run.
    Input,
    /// Checkbox or radio button with an on/off state.
    Toggle,
}

/// A detected interactive UI element. Coordinates are 0-based `(row, col)`
/// from the top-left; elements span a single row.
#[derive(Debug, Clone)]
pub struct Element {
    /// Kind of interactive element.
    pub kind: ElementKind,
    /// Row index (0-based, from the top).
    pub row: u16,
    /// Column index (0-based, from the left).
    pub col: u16,
    /// Width in terminal display columns.
    pub width: u16,
    /// Text content of the element.
    pub text: String,
    /// Detection confidence in hundredths: 100 for cursor, inverse video
    /// and checkbox patterns; 80 for bracket patterns; 60 for underscore
    /// runs.
    pub confidence: u8,
    /// Whether this element currently has focus.
    pub focused: bool,
    /// Checked state, present only for toggles.
    pub checked: Option<bool>,
}

impl Element {
    /// A new element with no focus and no checked state.
    pub fn new(kind: ElementKind, row: u16, col: u16, width: u16, text: String, confidence: u8) -> (
        r: Element)
        ensures
            r == (Element { kind, row, col, width, text, confidence, focused: false, checked: None }),
    {
        Element { kind, row, col, width, text, confidence, focused: false, checked: None }
    }

    /// The same element with its checked state set (for toggles).
    pub fn with_checked(self, checked: bool) -> (r: Element)
        ensures
            r == (Element { checked: Some(checked), ..self }),
    {
        Element { checked: Some(checked), ..self }
    }

    /// The same element with its focus flag set.
    pub fn with_focused(self, focused: bool) -> (r: Element)
        ensures
            r == (Element { focused, ..self }),
    {
        Element { focused, ..self }
    }
}

} // verus!
