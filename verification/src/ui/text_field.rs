//! Text field input element.

use vstd::prelude::*;
use vstd::utf8::*;

use crate::geometry::{rect_contains, Point, Size};
use crate::keyboard::{
    is_latin, key_char, keysym_char, Keysym, Modifiers, BACK_SPACE, DELETE, LEFT, RETURN, RIGHT, UPPER_C, UPPER_V,
    XF86_COPY, XF86_PASTE,
};
use crate::text::{
    boundary_after, boundary_before, byte_count, byte_len, char_offset, char_width, chars_of,
    find_boundary_after, find_boundary_before, is_boundary, lemma_boundary_after,
    lemma_boundary_before, lemma_boundary_concat, lemma_boundary_prefix, lemma_char_offset_boundary,
    lemma_encode_concat, lemma_encode_injective, lemma_scalar_len, slice, slice_text, splice, splice_text, spliced, str_eq,
};

verus! {

/// Maximum number of surrounding bytes submitted to IME.
///
/// The value `4000` is chosen to match the maximum Wayland protocol message
/// size, a higher value will lead to errors.
pub const MAX_SURROUNDING_BYTES: usize = 4000;

/// Selected byte range.
#[derive(Copy, Clone, Debug, PartialEq, Eq, Structural)]
pub struct Selection {
    pub start: usize,
    pub end: usize,
}

/// Intention of a touch sequence.
#[derive(Copy, Clone, Debug, PartialEq, Eq, Structural)]
pub enum TouchAction {
    Tap,
    Drag,
    DoubleTap,
    TripleTap,
    DragSelectionStart,
    DragSelectionEnd,
}

/// Edit requested by a key press.
#[derive(Copy, Clone, Debug, PartialEq, Eq, Structural)]
pub enum KeyCommand {
    Left,
    Right,
    BackSpace,
    Delete,
    Submit,
    Copy,
    Paste,
    Insert(char),
    Ignored,
}

/// Reaction that a key press requires from the application.
#[derive(Debug)]
pub enum KeyAction {
    /// Nothing needs to be done.
    Nothing,
    /// Submit the current text.
    Submit,
    /// Put this text into the clipboard.
    Copy(String),
    /// Read the clipboard and hand its text to [`TextField::paste`].
    Paste,
}

/// Origin from which a touch motion's distance is measured.
#[derive(Copy, Clone, Debug, PartialEq, Eq, Structural)]
pub enum MotionOrigin {
    /// Position of the last motion or press.
    LastMotion,
    /// Position of the last press.
    LastPress,
}

/// Touch tracking state.
#[derive(Copy, Clone, Debug, PartialEq, Eq, Structural)]
pub struct TouchState {
    pub action: TouchAction,
    pub last_time: u32,
    pub start_offset: usize,
}

/// Distance between two byte offsets.
pub open spec fn offset_distance(a: usize, b: usize) -> int {
    if a >= b {
        a - b
    } else {
        b - a
    }
}

/// Action of a touch sequence once it left the tap deadzone.
pub open spec fn drag_action(start_offset: usize, selection: Option<Selection>) -> TouchAction {
    match selection {
        Some(selection) => {
            let start_delta = offset_distance(start_offset, selection.start);
            let end_delta = offset_distance(start_offset, selection.end);
            if end_delta <= start_delta && end_delta < 2 {
                TouchAction::DragSelectionEnd
            } else if start_delta < 2 {
                TouchAction::DragSelectionStart
            } else {
                TouchAction::Drag
            }
        },
        None => TouchAction::Drag,
    }
}

/// Action of a touch sequence after a press.
///
/// A press close to the previous one, in time and space, advances the number of
/// taps.
pub open spec fn press_action(
    state: TouchState,
    max_multi_tap: u32,
    time: u32,
    near: bool,
) -> TouchAction {
    if state.last_time + max_multi_tap >= time && near {
        match state.action {
            TouchAction::Tap => TouchAction::DoubleTap,
            TouchAction::DoubleTap => TouchAction::TripleTap,
            _ => TouchAction::Tap,
        }
    } else {
        TouchAction::Tap
    }
}

impl TouchState {
    pub fn new() -> (state: Self)
        ensures
            state == (TouchState { action: TouchAction::Tap, last_time: 0, start_offset: 0 }),
    {
        TouchState { action: TouchAction::Tap, last_time: 0, start_offset: 0 }
    }

    /// Update state from touch down event.
    ///
    /// The press counts as `near` if it is within the tap distance of the
    /// previous press.
    pub fn down(&mut self, max_multi_tap: u32, time: u32, near: bool, offset: usize)
        requires
            old(self).last_time + max_multi_tap <= u32::MAX,
        ensures
            *final(self) == (TouchState {
                action: press_action(*old(self), max_multi_tap, time, near),
                last_time: time,
                start_offset: offset,
            }),
    {
        self.action =
        if self.last_time + max_multi_tap >= time && near {
            match self.action {
                TouchAction::Tap => TouchAction::DoubleTap,
                TouchAction::DoubleTap => TouchAction::TripleTap,
                _ => TouchAction::Tap,
            }
        } else {
            TouchAction::Tap
        };

        self.start_offset = offset;
        self.last_time = time;
    }

    /// Update state from touch motion event.
    ///
    /// Motion within the tap distance of the press is `near`. Returns the
    /// origin from which the moved distance is measured.
    pub fn motion(&mut self, near: bool, selection: Option<Selection>) -> (origin: MotionOrigin)
        ensures
            final(self).last_time == old(self).last_time,
            final(self).start_offset == old(self).start_offset,
            final(self).action == (if old(self).action == TouchAction::Tap && !near {
                drag_action(old(self).start_offset, selection)
            } else {
                old(self).action
            }),
            origin == (if old(self).action == TouchAction::Tap {
                MotionOrigin::LastPress
            } else {
                MotionOrigin::LastMotion
            }),
    {
        // Never transfer out of drag/multi-tap states.
        if self.action != TouchAction::Tap {
            return MotionOrigin::LastMotion;
        }

        // Ignore drags below the tap deadzone.
        if near {
            return MotionOrigin::LastPress;
        }

        // Check if touch motion started on selection caret, with one character leeway.
        self.action =
        match selection {
            Some(selection) => {
                let start_delta = distance(self.start_offset, selection.start);
                let end_delta = distance(self.start_offset, selection.end);

                if end_delta <= start_delta && end_delta < 2 {
                    TouchAction::DragSelectionEnd
                } else if start_delta < 2 {
                    TouchAction::DragSelectionStart
                } else {
                    TouchAction::Drag
                }
            },
            None => TouchAction::Drag,
        };

        MotionOrigin::LastPress
    }
}

/// Calculate the distance between two byte offsets.
fn distance(a: usize, b: usize) -> (delta: usize)
    ensures
        delta == offset_distance(a, b),
{
    if a >= b {
        a - b
    } else {
        b - a
    }
}

/// Edit requested by a key with the specified character.
pub open spec fn command_of(keysym: u32, key_char: Option<char>, modifiers: Modifiers) -> KeyCommand {
    let plain = !modifiers.shift && !modifiers.ctrl;
    let both = modifiers.shift && modifiers.ctrl;
    if keysym == LEFT && plain {
        KeyCommand::Left
    } else if keysym == RIGHT && plain {
        KeyCommand::Right
    } else if keysym == BACK_SPACE && plain {
        KeyCommand::BackSpace
    } else if keysym == DELETE && plain {
        KeyCommand::Delete
    } else if keysym == RETURN && plain {
        KeyCommand::Submit
    } else if keysym == XF86_COPY || (keysym == UPPER_C && both) {
        KeyCommand::Copy
    } else if keysym == XF86_PASTE || (keysym == UPPER_V && both) {
        KeyCommand::Paste
    } else if !modifiers.ctrl && key_char is Some {
        KeyCommand::Insert(key_char->0)
    } else {
        KeyCommand::Ignored
    }
}

/// Determine the edit requested by a key press with a known character.
pub fn command_for(keysym: Keysym, key_char: Option<char>, modifiers: Modifiers) -> (command:
    KeyCommand)
    ensures
        command == command_of(keysym.raw, key_char, modifiers),
{
    let plain = !modifiers.shift && !modifiers.ctrl;
    let both = modifiers.shift && modifiers.ctrl;
    let raw: u32 = keysym.raw;
    if raw == LEFT && plain {
        KeyCommand::Left
    } else if raw == RIGHT && plain {
        KeyCommand::Right
    } else if raw == BACK_SPACE && plain {
        KeyCommand::BackSpace
    } else if raw == DELETE && plain {
        KeyCommand::Delete
    } else if raw == RETURN && plain {
        KeyCommand::Submit
    } else if raw == XF86_COPY || (raw == UPPER_C && both) {
        KeyCommand::Copy
    } else if raw == XF86_PASTE || (raw == UPPER_V && both) {
        KeyCommand::Paste
    } else {
        match key_char {
            Some(c) if !modifiers.ctrl => KeyCommand::Insert(c),
            _ => KeyCommand::Ignored,
        }
    }
}

/// Determine the edit requested by a key press.
pub fn key_command(keysym: Keysym, modifiers: Modifiers) -> (command: KeyCommand)
    ensures
        command == command_of(keysym.raw, keysym_char(keysym.raw), modifiers),
        is_latin(keysym.raw) ==> command == command_of(
            keysym.raw,
            Some(keysym.raw as char),
            modifiers,
        ),
{
    command_for(keysym, key_char(keysym), modifiers)
}

/// Whether a character is a letter or a number.
pub uninterp spec fn alphanumeric(c: char) -> bool;

/// Check whether a character is a letter or a number.
///
/// This is `char::is_alphanumeric`, which depends on nothing but the character.
/// Which characters count as letters and numbers is left to Unicode.
#[verifier::external_body]
fn is_alphanumeric(c: char) -> (result: bool)
    ensures
        result == alphanumeric(c),
{
    c.is_alphanumeric()
}

/// Contents of a text field.
pub struct TextFieldView {
    pub placeholder: Seq<char>,
    pub preedit_text: Seq<char>,
    pub text: Seq<char>,
    pub selection: Option<Selection>,
    pub cursor_index: int,
    pub touch_state: TouchState,
    pub keyboard_focused: bool,
    pub focus_cursor: bool,
    pub ime_focused: bool,
    pub point: Point<i32>,
    pub size: Size<u32>,
    pub text_input_dirty: bool,
    pub dirty: bool,
}

impl TextFieldView {
    /// Field with a different keyboard focus.
    pub open spec fn with_keyboard_focus(self, focused: bool) -> Self {
        TextFieldView {
            keyboard_focused: focused,
            dirty: self.dirty || self.keyboard_focused != focused,
            ..self
        }
    }

    /// Field with a different IME focus.
    pub open spec fn with_ime_focus(self, focused: bool) -> Self {
        TextFieldView {
            ime_focused: focused,
            dirty: self.dirty || self.ime_focused != focused,
            ..self
        }
    }

    /// Field at a different position.
    pub open spec fn with_point(self, point: Point<i32>) -> Self {
        TextFieldView { point, dirty: self.dirty || self.point != point, ..self }
    }

    /// Field with a different size.
    pub open spec fn with_size(self, size: Size<u32>) -> Self {
        if self.size == size {
            self
        } else {
            TextFieldView { size, dirty: true, focus_cursor: true, ..self }
        }
    }

    /// Field with a different text, and the cursor at its end.
    pub open spec fn with_text(self, text: Seq<char>) -> Self {
        if self.text == text {
            self
        } else {
            TextFieldView {
                text,
                cursor_index: byte_len(text) as int,
                focus_cursor: true,
                selection: None,
                ..self
            }.touched()
        }
    }

    /// Cursor and selection lie within the text, and no selection is empty.
    pub open spec fn valid(self) -> bool {
        &&& 0 <= self.cursor_index <= byte_len(self.text)
        &&& self.selection matches Some(selection) ==> selection.start < selection.end
            && selection.end <= byte_len(self.text)
    }

    /// The selection lies on character boundaries.
    pub open spec fn selection_aligned(self) -> bool {
        self.selection matches Some(selection) ==> {
            &&& is_boundary(self.text, selection.start as int)
            &&& is_boundary(self.text, selection.end as int)
        }
    }

    /// Text can be inserted, replacing the selection if there is one.
    pub open spec fn insertable(self) -> bool {
        &&& self.selection_aligned()
        &&& self.selection is None ==> is_boundary(self.text, self.cursor_index)
    }

    /// Cursor and selection lie on character boundaries.
    pub open spec fn aligned(self) -> bool {
        &&& self.selection_aligned()
        &&& is_boundary(self.text, self.cursor_index)
    }

    /// Field with its redraw and IME update flags set.
    pub open spec fn touched(self) -> Self {
        TextFieldView { text_input_dirty: true, dirty: true, ..self }
    }

    /// Field without selection.
    pub open spec fn deselected(self) -> Self {
        if self.selection is Some {
            TextFieldView { selection: None, ..self }.touched()
        } else {
            self
        }
    }

    /// Field without the bytes `start..end`, with the cursor in their place.
    pub open spec fn without(self, start: int, end: int) -> Self {
        TextFieldView {
            text: splice_text(self.text, start, end, Seq::empty()),
            cursor_index: start,
            ..self
        }.touched()
    }

    /// Field after removing the selected text, if there is any.
    pub open spec fn selection_deleted(self) -> Self {
        match self.selection {
            Some(selection) => TextFieldView {
                selection: None,
                focus_cursor: true,
                ..self
            }.without(selection.start as int, selection.end as int),
            None => self,
        }
    }

    /// Field after replacing the selection with a text at the cursor.
    pub open spec fn inserted(self, text: Seq<char>) -> Self {
        let cleared = self.selection_deleted();
        TextFieldView {
            text: splice_text(cleared.text, cleared.cursor_index, cleared.cursor_index, text),
            cursor_index: cleared.cursor_index + byte_len(text),
            ..cleared
        }.touched()
    }

    /// Field after an edit.
    pub open spec fn edited(self, command: KeyCommand) -> Self {
        match command {
            KeyCommand::Left => TextFieldView {
                cursor_index: match self.selection {
                    Some(selection) => selection.start as int,
                    None => if self.cursor_index > 0 {
                        self.cursor_index - 1
                    } else {
                        0
                    },
                },
                selection: None,
                ..self
            }.touched(),
            KeyCommand::Right => TextFieldView {
                cursor_index: match self.selection {
                    Some(selection) => selection.end as int,
                    None => if self.cursor_index < byte_len(self.text) {
                        self.cursor_index + 1
                    } else {
                        byte_len(self.text) as int
                    },
                },
                selection: None,
                ..self
            }.touched(),
            KeyCommand::BackSpace => if self.selection is Some {
                self.selection_deleted()
            } else if self.cursor_index > 0 {
                let start = boundary_before(self.text, self.cursor_index - 1);
                self.without(start, boundary_after(self.text, start + 1))
            } else {
                self
            },
            KeyCommand::Delete => if self.selection is Some {
                self.selection_deleted()
            } else if self.cursor_index < byte_len(self.text) {
                self.without(
                    self.cursor_index,
                    boundary_after(self.text, self.cursor_index + 1),
                )
            } else {
                self
            },
            KeyCommand::Insert(c) => self.inserted(seq![c]),
            _ => self,
        }
    }

    /// An edit does not cut any character in half.
    pub open spec fn accepts(self, command: KeyCommand) -> bool {
        match command {
            KeyCommand::BackSpace | KeyCommand::Copy => self.selection_aligned(),
            KeyCommand::Delete => {
                &&& self.selection_aligned()
                &&& self.selection is None && self.cursor_index < byte_len(self.text)
                    ==> is_boundary(self.text, self.cursor_index)
            },
            KeyCommand::Insert(_) => self.insertable(),
            _ => true,
        }
    }

    /// Range of an IME removal around the cursor.
    pub open spec fn surrounding_range(self, before: u32, after: u32) -> (int, int) {
        let start = if self.cursor_index >= before {
            self.cursor_index - before
        } else {
            0
        };
        let end = if self.cursor_index + after <= byte_len(self.text) {
            self.cursor_index + after
        } else {
            byte_len(self.text) as int
        };
        (start, end)
    }

    /// Range of the text submitted to IME.
    pub open spec fn submitted_range(self) -> (int, int) {
        let half = MAX_SURROUNDING_BYTES / 2;
        let end = if self.cursor_index + half >= byte_len(self.text) {
            byte_len(self.text) as int
        } else {
            boundary_before(self.text, self.cursor_index + half)
        };
        let remaining = MAX_SURROUNDING_BYTES - (end - self.cursor_index);
        let start = if self.cursor_index >= remaining {
            self.cursor_index - remaining
        } else {
            0
        };
        (boundary_after(self.text, start), end)
    }

    /// Selection or cursor, as a range.
    pub open spec fn cursor_range(self) -> (int, int) {
        match self.selection {
            Some(selection) => (selection.start as int, selection.end as int),
            None => (self.cursor_index, self.cursor_index),
        }
    }

    /// Field after moving the dragged side of the selection to an offset.
    ///
    /// The selection never becomes empty. When one side overtakes the other,
    /// the dragged side changes.
    pub open spec fn selection_dragged(self, offset: usize) -> Self {
        let selection = self.selection->0;
        let drags_start = self.touch_state.action == TouchAction::DragSelectionStart;
        let moved = if drags_start && offset != selection.end {
            Selection { start: offset, end: selection.end }
        } else if !drags_start && offset != selection.start {
            Selection { start: selection.start, end: offset }
        } else {
            selection
        };
        let swapped = moved.start > moved.end;
        TextFieldView {
            selection: Some(
                if swapped {
                    Selection { start: moved.end, end: moved.start }
                } else {
                    moved
                },
            ),
            touch_state: TouchState {
                action: if !swapped {
                    self.touch_state.action
                } else if drags_start {
                    TouchAction::DragSelectionEnd
                } else {
                    TouchAction::DragSelectionStart
                },
                ..self.touch_state
            },
            focus_cursor: true,
            ..self
        }.touched()
    }

    /// Field after a touch release at an offset.
    pub open spec fn released(self, offset: int, word: Seq<bool>) -> Self {
        match self.touch_state.action {
            TouchAction::Tap => TextFieldView {
                cursor_index: offset,
                focus_cursor: true,
                selection: None,
                ..self
            }.touched(),
            TouchAction::DoubleTap => self.selected(
                word_start(self.text, word, offset, self.text.len() as int),
                word_end(self.text, word, offset, 0),
            ),
            TouchAction::TripleTap => self.selected(
                line_start(encode_utf8(self.text), offset),
                line_end(encode_utf8(self.text), offset),
            ),
            _ => self,
        }
    }

    /// Cursor after moving it between the first and last visible offset.
    ///
    /// The acceptable range is shrunk by one at each end.
    pub open spec fn visible_cursor(self, first: Option<usize>, last: Option<usize>) -> int {
        let min: int = match first {
            Some(first) => first + 1,
            None => 0,
        };
        let max: int = match last {
            Some(last) => last - 1,
            None => usize::MAX as int,
        };
        if self.cursor_index < min {
            min
        } else if self.cursor_index > max {
            max
        } else {
            self.cursor_index
        }
    }

    /// Text content of the field's frame.
    ///
    /// The text is split around the selection, and followed by the preedit text.
    /// The placeholder is only visible while there is no other text.
    pub open spec fn runs(self) -> Seq<(RunStyle, Seq<char>)> {
        let len = byte_len(self.text) as int;
        let text = match self.selection {
            Some(selection) => {
                let start = selection.start as int;
                let end = selection.end as int;
                (if start > 0 {
                    seq![(RunStyle::Normal, slice_text(self.text, 0, start))]
                } else {
                    Seq::empty()
                }) + seq![
                    (RunStyle::Selection, slice_text(self.text, start, end)),
                    (RunStyle::Normal, slice_text(self.text, end, len)),
                ]
            },
            None => if self.text.len() > 0 {
                seq![(RunStyle::Normal, self.text)]
            } else {
                Seq::empty()
            },
        };
        if self.preedit_text.len() > 0 {
            text.push((RunStyle::Preedit, self.preedit_text))
        } else if self.text.len() == 0 {
            text.push((RunStyle::Placeholder, self.placeholder))
        } else {
            text
        }
    }

    /// Cursor of the field's frame.
    pub open spec fn cursor_shape(self) -> CursorShape {
        if !self.keyboard_focused && !self.ime_focused {
            CursorShape::Hidden
        } else {
            match self.selection {
                Some(selection) => CursorShape::Carets(selection.start, selection.end),
                None => CursorShape::Bar(self.cursor_index as usize),
            }
        }
    }

    /// Field after changing the selected range.
    pub open spec fn selected(self, start: int, end: int) -> Self {
        let end = if end < byte_len(self.text) {
            end
        } else {
            byte_len(self.text) as int
        };
        if start < end {
            TextFieldView {
                selection: Some(Selection { start: start as usize, end: end as usize }),
                focus_cursor: true,
                ..self
            }.touched()
        } else {
            self.deselected()
        }
    }
}

/// Start of the word at an offset, within the first `n` characters.
///
/// Words start behind the last character which is not part of a word and ends
/// in front of the offset.
pub open spec fn word_start(s: Seq<char>, word: Seq<bool>, offset: int, n: int) -> int
    decreases n,
{
    if n <= 0 {
        0
    } else if char_offset(s, n) < offset && !word[n - 1] {
        char_offset(s, n)
    } else {
        word_start(s, word, offset, n - 1)
    }
}

/// End of the word at an offset, behind the first `n` characters.
///
/// Words end at the first character which is not part of a word and starts
/// behind the offset.
pub open spec fn word_end(s: Seq<char>, word: Seq<bool>, offset: int, n: int) -> int
    decreases s.len() - n,
{
    if n >= s.len() {
        byte_len(s) as int
    } else if char_offset(s, n) > offset && !word[n] {
        char_offset(s, n)
    } else {
        word_end(s, word, offset, n + 1)
    }
}

/// Start of the line at an offset.
pub open spec fn line_start(bytes: Seq<u8>, offset: int) -> int
    decreases offset,
{
    if offset <= 0 {
        0
    } else if bytes[offset - 1] == 0x0a {
        offset
    } else {
        line_start(bytes, offset - 1)
    }
}

/// End of the line at an offset.
pub open spec fn line_end(bytes: Seq<u8>, offset: int) -> int
    decreases bytes.len() - offset,
{
    if offset >= bytes.len() {
        bytes.len() as int
    } else if bytes[offset] == 0x0a {
        offset
    } else {
        line_end(bytes, offset + 1)
    }
}

/// Whether every character is part of a word.
pub open spec fn word_classes(s: Seq<char>) -> Seq<bool> {
    s.map_values(|c: char| alphanumeric(c))
}

/// Style of a piece of text.
#[derive(Copy, Clone, Debug, PartialEq, Eq, Structural)]
pub enum RunStyle {
    Normal,
    Selection,
    Preedit,
    Placeholder,
}

/// Piece of text with its style.
#[derive(Debug)]
pub struct TextRun {
    pub style: RunStyle,
    pub text: String,
}

/// Cursor shape.
#[derive(Copy, Clone, Debug, PartialEq, Eq, Structural)]
pub enum CursorShape {
    /// No cursor is shown.
    Hidden,
    /// Carets at both ends of the selection.
    Carets(usize, usize),
    /// Cursor at a byte offset.
    Bar(usize),
}

/// Frame of a text field.
#[derive(Debug)]
pub struct TextFrame {
    /// Text content.
    pub runs: Vec<TextRun>,
    /// Byte offset that must be scrolled into view.
    pub scroll_to: Option<usize>,
    /// Input or selection cursors.
    pub cursor: CursorShape,
}

/// Styled text of a frame.
pub open spec fn run_views(runs: Seq<TextRun>) -> Seq<(RunStyle, Seq<char>)> {
    runs.map_values(|run: TextRun| (run.style, run.text@))
}

/// Reaction required by an edit.
pub open spec fn is_reaction(field: TextFieldView, command: KeyCommand, action: KeyAction) -> bool {
    match command {
        KeyCommand::Submit => action is Submit,
        KeyCommand::Paste => action is Paste,
        KeyCommand::Copy => match field.selection {
            Some(selection) => action matches KeyAction::Copy(text) && text@ == slice_text(
                field.text,
                selection.start as int,
                selection.end as int,
            ),
            None => action is Nothing,
        },
        _ => action is Nothing,
    }
}

/// Single line text input field.
pub struct TextField {
    placeholder: String,
    preedit_text: String,
    text: String,
    selection: Option<Selection>,
    cursor_index: usize,
    touch_state: TouchState,
    keyboard_focused: bool,
    focus_cursor: bool,
    ime_focused: bool,
    point: Point<i32>,
    size: Size<u32>,
    text_input_dirty: bool,
    dirty: bool,
}

impl View for TextField {
    type V = TextFieldView;

    closed spec fn view(&self) -> TextFieldView {
        TextFieldView {
            placeholder: self.placeholder@,
            preedit_text: self.preedit_text@,
            text: self.text@,
            selection: self.selection,
            cursor_index: self.cursor_index as int,
            touch_state: self.touch_state,
            keyboard_focused: self.keyboard_focused,
            focus_cursor: self.focus_cursor,
            ime_focused: self.ime_focused,
            point: self.point,
            size: self.size,
            text_input_dirty: self.text_input_dirty,
            dirty: self.dirty,
        }
    }
}

impl TextField {
    pub fn new(point: Point<i32>, size: Size<u32>) -> (field: Self)
        ensures
            field@ == (TextFieldView {
                placeholder: Seq::empty(),
                preedit_text: Seq::empty(),
                text: Seq::empty(),
                selection: None,
                cursor_index: 0,
                touch_state: TouchState {
                    action: TouchAction::Tap,
                    last_time: 0,
                    start_offset: 0,
                },
                keyboard_focused: false,
                focus_cursor: false,
                ime_focused: false,
                point,
                size,
                text_input_dirty: true,
                dirty: true,
            }),
            field@.valid(),
            field@.aligned(),
    {
        TextField {
            placeholder: String::new(),
            preedit_text: String::new(),
            text: String::new(),
            selection: None,
            cursor_index: 0,
            touch_state: TouchState::new(),
            keyboard_focused: false,
            focus_cursor: false,
            ime_focused: false,
            point,
            size,
            text_input_dirty: true,
            dirty: true,
        }
    }

    /// Handle new key press.
    pub fn press_key(&mut self, keysym: Keysym, modifiers: Modifiers) -> (action: KeyAction)
        requires
            old(self)@.valid(),
            modifiers.logo || modifiers.alt || old(self)@.accepts(
                command_of(keysym.raw, keysym_char(keysym.raw), modifiers),
            ),
        ensures
            final(self)@.valid(),
            modifiers.logo || modifiers.alt ==> final(self)@ == old(self)@ && action is Nothing,
            !modifiers.logo && !modifiers.alt ==> {
                let field = TextFieldView { focus_cursor: true, ..old(self)@ };
                let command = command_of(keysym.raw, keysym_char(keysym.raw), modifiers);
                &&& final(self)@ == field.edited(command)
                &&& is_reaction(field, command, action)
                &&& is_latin(keysym.raw) ==> command == command_of(
                    keysym.raw,
                    Some(keysym.raw as char),
                    modifiers,
                )
            },
    {
        // Ignore input with logo/alt key held.
        if modifiers.logo || modifiers.alt {
            return KeyAction::Nothing;
        }

        // Ensure cursor is visible after keyboard input.
        self.focus_cursor = true;

        let command = key_command(keysym, modifiers);
        self.edit(command)
    }

    /// Handle new key press, unless its edit would cut a character in half.
    ///
    /// Returns nothing and leaves the field unchanged if the key press cannot
    /// be handled.
    pub fn try_press_key(&mut self, keysym: Keysym, modifiers: Modifiers) -> (action: Option<
        KeyAction,
    >)
        requires
            old(self)@.valid(),
        ensures
            final(self)@.valid(),
            modifiers.logo || modifiers.alt ==> final(self)@ == old(self)@ && action matches Some(
                KeyAction::Nothing,
            ),
            !modifiers.logo && !modifiers.alt ==> {
                let field = TextFieldView { focus_cursor: true, ..old(self)@ };
                let command = command_of(keysym.raw, keysym_char(keysym.raw), modifiers);
                match action {
                    Some(action) => {
                        &&& old(self)@.accepts(command)
                        &&& final(self)@ == field.edited(command)
                        &&& is_reaction(field, command, action)
                    },
                    None => !old(self)@.accepts(command) && final(self)@ == old(self)@,
                }
            },
            !modifiers.logo && !modifiers.alt && is_latin(keysym.raw) ==> command_of(
                keysym.raw,
                keysym_char(keysym.raw),
                modifiers,
            ) == command_of(keysym.raw, Some(keysym.raw as char), modifiers),
    {
        if modifiers.logo || modifiers.alt || self.accepts(key_command(keysym, modifiers)) {
            Some(self.press_key(keysym, modifiers))
        } else {
            None
        }
    }

    /// Check whether an edit leaves all characters whole.
    pub fn accepts(&self, command: KeyCommand) -> (accepted: bool)
        ensures
            accepted == self@.accepts(command),
    {
        let text = self.text.as_str();
        let selection_aligned = match self.selection {
            Some(selection) => text.is_char_boundary(selection.start) && text.is_char_boundary(
                selection.end,
            ),
            None => true,
        };
        let cursor_aligned = self.selection.is_some() || text.is_char_boundary(self.cursor_index);
        match command {
            KeyCommand::BackSpace | KeyCommand::Copy => selection_aligned,
            KeyCommand::Delete => selection_aligned && (cursor_aligned || self.cursor_index
                >= byte_count(text)),
            KeyCommand::Insert(_) => selection_aligned && cursor_aligned,
            _ => true,
        }
    }

    /// Apply the edit requested by a key press.
    pub fn edit(&mut self, command: KeyCommand) -> (action: KeyAction)
        requires
            old(self)@.valid(),
            old(self)@.accepts(command),
        ensures
            final(self)@.valid(),
            final(self)@ == old(self)@.edited(command),
            is_reaction(old(self)@, command, action),
    {
        match command {
            KeyCommand::Left => {
                self.cursor_index =
                match self.selection {
                    Some(selection) => selection.start,
                    None => self.cursor_index.saturating_sub(1),
                };
                self.selection = None;
                self.text_input_dirty = true;
                self.dirty = true;
            },
            KeyCommand::Right => {
                let text_len = byte_count(self.text.as_str());
                self.cursor_index =
                match self.selection {
                    Some(selection) => selection.end,
                    None => if self.cursor_index < text_len {
                        self.cursor_index + 1
                    } else {
                        text_len
                    },
                };
                self.selection = None;
                self.text_input_dirty = true;
                self.dirty = true;
            },
            KeyCommand::BackSpace => {
                if self.selection.is_some() {
                    self.delete_selected();
                } else if self.cursor_index > 0 {
                    // Jump to the previous character.
                    let start = find_boundary_before(self.text.as_str(), self.cursor_index - 1);

                    // Remove the character after the cursor.
                    let end = find_boundary_after(self.text.as_str(), start + 1);
                    self.remove(start, end);
                }
            },
            KeyCommand::Delete => {
                if self.selection.is_some() {
                    self.delete_selected();
                } else if self.cursor_index < byte_count(self.text.as_str()) {
                    // Remove the character after the cursor.
                    let end = find_boundary_after(self.text.as_str(), self.cursor_index + 1);
                    self.remove(self.cursor_index, end);
                }
            },
            KeyCommand::Submit => return KeyAction::Submit,
            KeyCommand::Copy => {
                if let Some(text) = self.selection_text() {
                    return KeyAction::Copy(text);
                }
            },
            KeyCommand::Paste => return KeyAction::Paste,
            KeyCommand::Insert(c) => {
                let mut text = String::new();
                text.push(c);
                proof {
                    assert(text@ =~= seq![c]);
                }
                self.insert(text.as_str());
            },
            KeyCommand::Ignored => (),
        }
        KeyAction::Nothing
    }

    /// Remove the bytes `start..end` and put the cursor in their place.
    fn remove(&mut self, start: usize, end: usize)
        requires
            start <= end <= byte_len(old(self)@.text),
            is_boundary(old(self)@.text, start as int),
            is_boundary(old(self)@.text, end as int),
            old(self)@.selection is None,
        ensures
            final(self)@ == old(self)@.without(start as int, end as int),
            final(self)@.valid(),
    {
        proof {
            lemma_splice(self.text@, start as int, end as int, Seq::empty());
            reveal_strlit("");
            assert(""@ =~= Seq::<char>::empty());
        }
        self.text = splice(self.text.as_str(), start, end, "");
        self.cursor_index = start;
        self.text_input_dirty = true;
        self.dirty = true;
    }

    /// Replace the selection with text at the cursor.
    fn insert(&mut self, text: &str)
        requires
            old(self)@.valid(),
            old(self)@.insertable(),
        ensures
            final(self)@ == old(self)@.inserted(text@),
            final(self)@.valid(),
    {
        // Delete selection before writing new text.
        if self.selection.is_some() {
            self.delete_selected();
        }

        // Add text at cursor position.
        let cursor: usize = self.cursor_index;
        proof {
            lemma_splice(self.text@, cursor as int, cursor as int, text@);
        }
        self.text = splice(self.text.as_str(), cursor, cursor, text);
        let text_len = byte_count(self.text.as_str());

        // Move cursor behind the new characters.
        let count = byte_count(text);
        assert(cursor + count <= text_len);
        self.cursor_index = cursor + count;

        self.text_input_dirty = true;
        self.dirty = true;
    }

    /// Delete the selected text.
    ///
    /// This automatically places the cursor at the start of the selection.
    fn delete_selected(&mut self)
        requires
            old(self)@.valid(),
            old(self)@.selection_aligned(),
        ensures
            final(self)@ == old(self)@.selection_deleted(),
            final(self)@.valid(),
            final(self)@.selection is None,
            old(self)@.selection is Some ==> is_boundary(
                final(self)@.text,
                final(self)@.cursor_index,
            ),
    {
        if let Some(selection) = self.selection {
            proof {
                lemma_splice(
                    self.text@,
                    selection.start as int,
                    selection.end as int,
                    Seq::empty(),
                );
            }
            self.selection = None;
            self.focus_cursor = true;
            self.remove(selection.start, selection.end);
        }
    }

    /// Get selection text.
    fn selection_text(&self) -> (text: Option<String>)
        requires
            self@.valid(),
            self@.selection_aligned(),
        ensures
            text is Some <==> self@.selection is Some,
            text matches Some(text) ==> text@ == slice_text(
                self@.text,
                self@.selection->0.start as int,
                self@.selection->0.end as int,
            ),
    {
        match self.selection {
            Some(selection) => Some(slice(self.text.as_str(), selection.start, selection.end)),
            None => None,
        }
    }

    /// Handle touch press events.
    ///
    /// The press is at the byte `offset`, and `near` if it is within the tap
    /// distance of the previous one.
    pub fn touch_down(&mut self, max_multi_tap: u32, time: u32, near: bool, offset: usize)
        requires
            old(self)@.touch_state.last_time + max_multi_tap <= u32::MAX,
        ensures
            final(self)@ == (TextFieldView {
                touch_state: TouchState {
                    action: press_action(old(self)@.touch_state, max_multi_tap, time, near),
                    last_time: time,
                    start_offset: offset,
                },
                ..old(self)@
            }),
    {
        self.touch_state.down(max_multi_tap, time, near, offset);
    }

    /// Handle touch motion.
    ///
    /// Returns the origin of the motion's distance and the resulting action. The
    /// application calls [`Self::scrolled`] for drags and
    /// [`Self::drag_selection`] for selection drags.
    pub fn touch_motion(&mut self, near: bool) -> (motion: (MotionOrigin, TouchAction))
        ensures
            final(self)@ == (TextFieldView {
                touch_state: TouchState { action: motion.1, ..old(self)@.touch_state },
                ..old(self)@
            }),
            motion.1 == (if old(self)@.touch_state.action == TouchAction::Tap && !near {
                drag_action(old(self)@.touch_state.start_offset, old(self)@.selection)
            } else {
                old(self)@.touch_state.action
            }),
            motion.0 == (if old(self)@.touch_state.action == TouchAction::Tap {
                MotionOrigin::LastPress
            } else {
                MotionOrigin::LastMotion
            }),
    {
        let origin = self.touch_state.motion(near, self.selection);
        (origin, self.touch_state.action)
    }

    /// Update the field after its text was scrolled.
    ///
    /// The offset has `moved` if it is different from the one before scrolling,
    /// and was `clamped` if scrolling went beyond the text. The cursor is forced
    /// to move between the `first` and the `last` visible byte offset.
    pub fn scrolled(&mut self, moved: bool, clamped: bool, first: Option<usize>, last: Option<usize>)
        requires
            first matches Some(first) ==> first < usize::MAX,
            last matches Some(last) ==> last > 0,
            first matches Some(first) ==> (last matches Some(last) ==> first + 2 <= last),
        ensures
            final(self)@ == ({
                let cursor_index = old(self)@.visible_cursor(first, last);
                TextFieldView {
                    cursor_index,
                    text_input_dirty: old(self)@.text_input_dirty || moved,
                    dirty: old(self)@.dirty || moved || clamped || cursor_index
                        != old(self)@.cursor_index,
                    ..old(self)@
                }
            }),
            old(self)@.valid() && (last matches Some(last) ==> last <= byte_len(old(self)@.text))
                && (last is None ==> first is None) ==> final(self)@.valid(),
    {
        if clamped {
            self.dirty = true;
        }

        // Force cursor to move within the new visible area.
        self.clamp_cursor(first, last);

        if moved {
            self.text_input_dirty = true;
            self.dirty = true;
        }
    }

    /// Move cursor within the visible text section.
    fn clamp_cursor(&mut self, first: Option<usize>, last: Option<usize>)
        requires
            first matches Some(first) ==> first < usize::MAX,
            last matches Some(last) ==> last > 0,
            first matches Some(first) ==> (last matches Some(last) ==> first + 2 <= last),
        ensures
            final(self)@ == ({
                let cursor_index = old(self)@.visible_cursor(first, last);
                TextFieldView {
                    cursor_index,
                    dirty: old(self)@.dirty || cursor_index != old(self)@.cursor_index,
                    ..old(self)@
                }
            }),
    {
        // The acceptable cursor range is shrunk by 1 at each end, to avoid the case
        // where the index is rounded due to the position within the glyph and the
        // cursor reverts the scroll offset change by scrolling back into view.
        let min: usize = match first {
            Some(first) => first + 1,
            None => 0,
        };
        let max: usize = match last {
            Some(last) => last - 1,
            None => usize::MAX,
        };

        let new_index: usize = if self.cursor_index < min {
            min
        } else if self.cursor_index > max {
            max
        } else {
            self.cursor_index
        };
        if new_index != self.cursor_index {
            self.dirty = true;
        }
        self.cursor_index = new_index;
    }

    /// Move the dragged side of the selection to a byte offset.
    pub fn drag_selection(&mut self, offset: usize)
        requires
            old(self)@.selection is Some,
        ensures
            final(self)@ == old(self)@.selection_dragged(offset),
            old(self)@.valid() && offset <= byte_len(old(self)@.text) ==> final(self)@.valid(),
    {
        if let Some(mut selection) = self.selection {
            // Update selection if it is at least one character wide.
            let modifies_start = self.touch_state.action == TouchAction::DragSelectionStart;
            if modifies_start && offset != selection.end {
                selection.start = offset;
            } else if !modifies_start && offset != selection.start {
                selection.end = offset;
            }

            // Swap modified side when input carets "overtake" each other.
            if selection.start > selection.end {
                selection = Selection { start: selection.end, end: selection.start };
                self.touch_state.action =
                if modifies_start {
                    TouchAction::DragSelectionEnd
                } else {
                    TouchAction::DragSelectionStart
                };
            }
            self.selection = Some(selection);
        }

        // Ensure cursor is visible after selection change.
        self.focus_cursor = true;

        self.text_input_dirty = true;
        self.dirty = true;
    }

    /// Handle touch release at a byte offset.
    pub fn touch_up(&mut self, offset: usize)
        requires
            old(self)@.valid(),
            offset <= byte_len(old(self)@.text),
            old(self)@.touch_state.action == TouchAction::TripleTap ==> is_boundary(
                old(self)@.text,
                offset as int,
            ),
        ensures
            final(self)@ == old(self)@.released(offset as int, word_classes(old(self)@.text)),
            final(self)@.valid(),
    {
        // Handle tap actions.
        match self.touch_state.action {
            TouchAction::Tap => {
                self.cursor_index = offset;
                self.focus_cursor = true;

                self.clear_selection();

                self.text_input_dirty = true;
                self.dirty = true;
            },
            // Select word at touch position.
            TouchAction::DoubleTap => {
                let chars = chars_of(self.text.as_str());
                let mut word: Vec<bool> = Vec::new();
                let mut i: usize = 0;
                while i < chars.len()
                    invariant
                        i <= chars.len(),
                        chars@ == self.text@,
                        word@ == word_classes(self.text@).take(i as int),
                    decreases chars.len() - i,
                {
                    word.push(is_alphanumeric(chars[i]));
                    i += 1;
                    proof {
                        assert(word@ =~= word_classes(self.text@).take(i as int));
                    }
                }
                proof {
                    assert(word@ =~= word_classes(self.text@));
                }
                let text_len = byte_count(self.text.as_str());
                assert(byte_len(chars@) == text_len);
                let (start, end) = word_bounds(&chars, &word, offset);
                self.select(start, end);
            },
            // Select everything.
            TouchAction::TripleTap => {
                let (start, end) = line_bounds(self.text.as_str(), offset);
                self.select(start, end);
            },
            // Ignore release handling for drag/focus actions.
            _ => (),
        }
    }

    /// Paste text into the input element.
    pub fn paste(&mut self, text: &str)
        requires
            old(self)@.valid(),
            old(self)@.insertable(),
        ensures
            final(self)@ == (TextFieldView {
                focus_cursor: true,
                ..old(self)@.inserted(text@)
            }),
            final(self)@.valid(),
    {
        self.insert(text);
        self.focus_cursor = true;
    }

    /// Delete text around the current cursor position.
    pub fn delete_surrounding_text(&mut self, before_length: u32, after_length: u32)
        requires
            old(self)@.valid(),
            ({
                let (start, end) = old(self)@.surrounding_range(before_length, after_length);
                is_boundary(old(self)@.text, start) && is_boundary(old(self)@.text, end)
            }),
        ensures
            ({
                let (start, end) = old(self)@.surrounding_range(before_length, after_length);
                final(self)@ == (TextFieldView {
                    focus_cursor: true,
                    ..old(self)@.without(start, end)
                })
            }),
            old(self)@.selection is None ==> final(self)@.valid(),
    {
        // Calculate removal boundaries.
        let text_len = byte_count(self.text.as_str());
        let end: usize = if after_length as usize <= text_len - self.cursor_index {
            self.cursor_index + after_length as usize
        } else {
            text_len
        };
        let start: usize = self.cursor_index.saturating_sub(before_length as usize);

        // Remove all bytes in the range from the text.
        proof {
            lemma_splice(self.text@, start as int, end as int, Seq::empty());
            reveal_strlit("");
            assert(""@ =~= Seq::<char>::empty());
        }
        self.text = splice(self.text.as_str(), start, end, "");

        // Update cursor position.
        self.cursor_index = start;
        self.focus_cursor = true;

        self.text_input_dirty = true;
        self.dirty = true;
    }

    /// Insert text at the current cursor position.
    pub fn commit_string(&mut self, text: &str)
        requires
            old(self)@.valid(),
            old(self)@.insertable(),
        ensures
            final(self)@ == (TextFieldView {
                focus_cursor: true,
                ..old(self)@.inserted(text@)
            }),
            final(self)@.valid(),
    {
        self.paste(text);
    }

    /// Set preedit text at the current cursor position.
    pub fn set_preedit_string(&mut self, text: String)
        requires
            old(self)@.valid(),
            text@ != old(self)@.preedit_text && text@.len() > 0 ==> old(self)@.selection_aligned(),
        ensures
            final(self)@ == (if text@ == old(self)@.preedit_text {
                old(self)@
            } else {
                TextFieldView {
                    preedit_text: text@,
                    focus_cursor: true,
                    dirty: true,
                    ..(if text@.len() > 0 {
                        old(self)@.selection_deleted()
                    } else {
                        old(self)@
                    })
                }
            }),
            final(self)@.valid(),
    {
        // Ignore if preedit text did not change.
        if str_eq(self.preedit_text.as_str(), text.as_str()) {
            return ;
        }

        // Delete selection as soon as preedit starts.
        if !text.as_str().is_empty() && self.selection.is_some() {
            self.delete_selected();
        }

        self.preedit_text = text;
        self.focus_cursor = true;

        self.dirty = true;
    }

    /// Get surrounding text for IME.
    ///
    /// This will return at most `MAX_SURROUNDING_BYTES` bytes plus the current
    /// cursor positions relative to the surrounding text's origin.
    pub fn surrounding_text(&self) -> (surrounding: (String, i32, i32))
        requires
            self@.valid(),
            byte_len(self@.text) <= i32::MAX,
        ensures
            ({
                let (start, end) = self@.submitted_range();
                let (cursor_start, cursor_end) = self@.cursor_range();
                &&& surrounding.0@ == slice_text(self@.text, start, end)
                &&& encode_utf8(surrounding.0@) == encode_utf8(self@.text).subrange(start, end)
                &&& surrounding.1 == cursor_start - start
                &&& surrounding.2 == cursor_end - start
            }),
            byte_len(surrounding.0@) <= MAX_SURROUNDING_BYTES,
    {
        let text = self.text.as_str();
        let text_len = byte_count(text);
        let half: usize = MAX_SURROUNDING_BYTES / 2;
        proof {
            encode_utf8_valid_utf8(self.text@);
            is_char_boundary_start_end_of_seq(encode_utf8(self.text@));
            if self.cursor_index + half < text_len {
                lemma_boundary_before(self.text@, self.cursor_index + half);
            }
        }

        // Get up to half of `MAX_SURROUNDING_BYTES` after the cursor.
        let end: usize = if text_len - self.cursor_index <= half {
            text_len
        } else {
            find_boundary_before(text, self.cursor_index + half)
        };

        // Get as many bytes as available before the cursor.
        let remaining: usize = MAX_SURROUNDING_BYTES - (end - self.cursor_index);
        let first: usize = self.cursor_index.saturating_sub(remaining);
        proof {
            lemma_boundary_after(self.text@, first as int);
        }
        let start: usize = find_boundary_after(text, first);

        let (cursor_start, cursor_end) = match self.selection {
            Some(selection) => (selection.start, selection.end),
            None => (self.cursor_index, self.cursor_index),
        };

        (
            slice(text, start, end),
            cursor_start as i32 - start as i32,
            cursor_end as i32 - start as i32,
        )
    }

    /// Modify text selection.
    fn select(&mut self, start: usize, end: usize)
        requires
            old(self)@.valid(),
        ensures
            final(self)@ == old(self)@.selected(start as int, end as int),
            final(self)@.valid(),
    {
        let text_len = byte_count(self.text.as_str());
        let end: usize = if end < text_len {
            end
        } else {
            text_len
        };

        if start < end {
            self.selection = Some(Selection { start, end });

            // Ensure cursor is visible after selection change.
            self.focus_cursor = true;

            self.text_input_dirty = true;
            self.dirty = true;
        } else {
            self.clear_selection();
        }
    }

    /// Clear text selection.
    fn clear_selection(&mut self)
        ensures
            final(self)@ == old(self)@.deselected(),
    {
        if self.selection.is_none() {
            return ;
        }

        self.selection = None;

        self.text_input_dirty = true;
        self.dirty = true;
    }

    /// Get the content for rendering the field.
    pub fn draw(&mut self) -> (frame: TextFrame)
        requires
            old(self)@.valid(),
            old(self)@.selection_aligned(),
        ensures
            final(self)@ == (TextFieldView { dirty: false, ..old(self)@ }),
            run_views(frame.runs@) == old(self)@.runs(),
            frame.cursor == old(self)@.cursor_shape(),
            frame.scroll_to == (if old(self)@.selection is None {
                Some(old(self)@.cursor_index as usize)
            } else {
                None
            }),
    {
        let ghost field = self@;
        let text = self.text.as_str();
        let text_len = byte_count(text);
        let mut runs: Vec<TextRun> = Vec::new();
        proof {
            encode_utf8_valid_utf8(self.text@);
            is_char_boundary_start_end_of_seq(encode_utf8(self.text@));
            lemma_byte_len_zero(self.text@);
        }

        match self.selection {
            Some(selection) => {
                // Draw text before the selection.
                if selection.start > 0 {
                    let before = slice(text, 0, selection.start);
                    runs.push(TextRun { style: RunStyle::Normal, text: before });
                }

                // Draw selection and text after it.
                let selected = slice(text, selection.start, selection.end);
                runs.push(TextRun { style: RunStyle::Selection, text: selected });
                let after = slice(text, selection.end, text_len);
                runs.push(TextRun { style: RunStyle::Normal, text: after });
            },
            // Draw entire text without selection.
            None => if !text.is_empty() {
                runs.push(TextRun { style: RunStyle::Normal, text: text.to_owned() });
            },
        }

        // Handle preedit text and placeholder.
        if !self.preedit_text.as_str().is_empty() {
            runs.push(TextRun { style: RunStyle::Preedit, text: self.preedit_text.clone() });
        } else if text.is_empty() {
            runs.push(TextRun { style: RunStyle::Placeholder, text: self.placeholder.clone() });
        }
        proof {
            assert(run_views(runs@) =~= field.runs());
        }

        // Ensure cursor is within visible text section.
        let scroll_to: Option<usize> = if self.selection.is_none() {
            Some(self.cursor_index)
        } else {
            None
        };

        // Draw cursor or selection carets while focused.
        let cursor = if !self.keyboard_focused && !self.ime_focused {
            CursorShape::Hidden
        } else {
            match self.selection {
                Some(selection) => CursorShape::Carets(selection.start, selection.end),
                None => CursorShape::Bar(self.cursor_index),
            }
        };

        self.dirty = false;

        TextFrame { runs, scroll_to, cursor }
    }

    /// Check whether the text box requires a redraw.
    pub fn dirty(&self) -> (dirty: bool)
        ensures
            dirty == self@.dirty,
    {
        self.dirty
    }

    /// Retrieve and reset current IME dirtiness state.
    pub fn take_text_input_dirty(&mut self) -> (dirty: bool)
        ensures
            dirty == old(self)@.text_input_dirty,
            final(self)@ == (TextFieldView { text_input_dirty: false, ..old(self)@ }),
    {
        let dirty = self.text_input_dirty;
        self.text_input_dirty = false;
        dirty
    }

    /// Update the text field's position.
    pub fn set_point(&mut self, point: Point<i32>)
        ensures
            final(self)@ == old(self)@.with_point(point),
    {
        if self.point.x == point.x && self.point.y == point.y {
            return ;
        }

        self.point = point;
        self.dirty = true;
    }

    /// Set the text box's physical size.
    pub fn set_size(&mut self, size: Size<u32>)
        ensures
            final(self)@ == old(self)@.with_size(size),
    {
        if self.size.width == size.width && self.size.height == size.height {
            return ;
        }

        self.size = size;
        self.dirty = true;

        // Ensure cursor is visible after resize.
        self.focus_cursor = true;
    }

    /// Redraw the text field after its font scale `changed`.
    pub fn set_scale_factor(&mut self, changed: bool)
        ensures
            final(self)@ == (TextFieldView { dirty: old(self)@.dirty || changed, ..old(self)@ }),
    {
        if changed {
            self.dirty = true;
        }
    }

    /// Check if a point lies within this text field.
    pub fn contains(&self, point: Point<i32>) -> (inside: bool)
        requires
            self@.size.width <= i32::MAX,
            self@.size.height <= i32::MAX,
            self@.point.x + self@.size.width <= i32::MAX,
            self@.point.y + self@.size.height <= i32::MAX,
        ensures
            inside == (self@.point.x <= point.x < self@.point.x + self@.size.width
                && self@.point.y <= point.y < self@.point.y + self@.size.height),
    {
        let size = Size::new(self.size.width as i32, self.size.height as i32);
        rect_contains(self.point, size, point)
    }

    /// Set keyboard focus state.
    pub fn set_keyboard_focus(&mut self, focused: bool)
        ensures
            final(self)@ == old(self)@.with_keyboard_focus(focused),
    {
        if self.keyboard_focused != focused {
            self.dirty = true;
        }
        self.keyboard_focused = focused;
    }

    /// Set IME focus state.
    pub fn set_ime_focus(&mut self, focused: bool)
        ensures
            final(self)@ == old(self)@.with_ime_focus(focused),
    {
        if self.ime_focused != focused {
            self.dirty = true;
        }
        self.ime_focused = focused;
    }

    /// Replace the entire text box content.
    pub fn set_text(&mut self, text: String)
        ensures
            final(self)@ == old(self)@.with_text(text@),
            old(self)@.valid() ==> final(self)@.valid(),
    {
        if str_eq(self.text.as_str(), text.as_str()) {
            return ;
        }

        self.cursor_index = byte_count(text.as_str());
        self.focus_cursor = true;
        self.text = text;

        self.clear_selection();

        self.text_input_dirty = true;
        self.dirty = true;
    }

    /// Get the field's current text content.
    pub fn text(&self) -> (text: &str)
        ensures
            text@ == self@.text,
    {
        self.text.as_str()
    }

    /// Set placeholder text, if no text is present.
    pub fn set_placeholder(&mut self, placeholder: &str)
        ensures
            final(self)@ == (TextFieldView { placeholder: placeholder@, ..old(self)@ }),
    {
        self.placeholder = placeholder.to_owned();
    }
}

/// Only the empty text takes no space.
proof fn lemma_byte_len_zero(s: Seq<char>)
    ensures
        byte_len(s) == 0 <==> s.len() == 0,
{
    if s.len() > 0 {
        lemma_scalar_len(s[0]);
    }
}

/// Get the byte range of the word at an offset.
///
/// The list of word characters says for each character whether it is part of a
/// word.
pub fn word_bounds(chars: &Vec<char>, word: &Vec<bool>, offset: usize) -> (bounds: (usize, usize))
    requires
        word.len() == chars.len(),
        byte_len(chars@) <= usize::MAX,
    ensures
        bounds.0 == word_start(chars@, word@, offset as int, chars.len() as int),
        bounds.1 == word_end(chars@, word@, offset as int, 0),
{
    let mut start: usize = 0;
    let mut end: usize = 0;
    let mut found = false;
    let mut position: usize = 0;
    let mut i: usize = 0;
    proof {
        assert(chars@.take(0) =~= Seq::<char>::empty());
    }
    while i < chars.len()
        invariant
            i <= chars.len(),
            word.len() == chars.len(),
            byte_len(chars@) <= usize::MAX,
            position == char_offset(chars@, i as int),
            start == word_start(chars@, word@, offset as int, i as int),
            found ==> end == word_end(chars@, word@, offset as int, 0),
            !found ==> word_end(chars@, word@, offset as int, 0) == word_end(
                chars@,
                word@,
                offset as int,
                i as int,
            ),
        decreases chars.len() - i,
    {
        proof {
            lemma_char_offset_step(chars@, i as int);
            lemma_char_offset_boundary(chars@, i + 1);
        }
        let next: usize = position + char_width(chars[i]);
        if next < offset && !word[i] {
            start = next;
        }
        if !found && position > offset && !word[i] {
            end = position;
            found = true;
        }
        position = next;
        i += 1;
    }
    if !found {
        end = position;
        proof {
            assert(chars@.take(chars.len() as int) =~= chars@);
        }
    }
    (start, end)
}

/// Every character moves the offset by its width.
proof fn lemma_char_offset_step(s: Seq<char>, n: int)
    requires
        0 <= n < s.len(),
    ensures
        char_offset(s, n + 1) == char_offset(s, n) + encode_scalar(s[n] as u32).len(),
{
    assert(s.take(n + 1) =~= s.take(n) + seq![s[n]]);
    lemma_encode_concat(s.take(n), seq![s[n]]);
    lemma_scalar_len(s[n]);
}

/// Get the byte range of the line at an offset.
fn line_bounds(text: &str, offset: usize) -> (bounds: (usize, usize))
    requires
        offset <= byte_len(text@),
    ensures
        bounds.0 == line_start(encode_utf8(text@), offset as int),
        bounds.1 == line_end(encode_utf8(text@), offset as int),
        bounds.0 <= offset <= bounds.1 <= byte_len(text@),
{
    let bytes = text.as_bytes();
    let mut start: usize = offset;
    while start > 0 && bytes[start - 1] != 0x0a
        invariant
            bytes@ == encode_utf8(text@),
            0 <= start <= offset <= bytes.len(),
            line_start(bytes@, start as int) == line_start(bytes@, offset as int),
        decreases start,
    {
        start -= 1;
    }
    let mut end: usize = offset;
    while end < bytes.len() && bytes[end] != 0x0a
        invariant
            bytes@ == encode_utf8(text@),
            offset <= end <= bytes.len(),
            line_end(bytes@, end as int) == line_end(bytes@, offset as int),
        decreases bytes.len() - end,
    {
        end += 1;
    }
    (start, end)
}

/// Replacing text keeps the seams on character boundaries.
proof fn lemma_splice(s: Seq<char>, start: int, end: int, with: Seq<char>)
    requires
        0 <= start <= end <= byte_len(s),
        is_boundary(s, start),
        is_boundary(s, end),
    ensures
        encode_utf8(splice_text(s, start, end, with)) == spliced(
            encode_utf8(s),
            start,
            end,
            encode_utf8(with),
        ),
        byte_len(splice_text(s, start, end, with)) == byte_len(s) - (end - start) + byte_len(with),
        is_boundary(splice_text(s, start, end, with), start),
        is_boundary(splice_text(s, start, end, with), start + byte_len(with)),
{
    let bytes = encode_utf8(s);
    let head = bytes.subrange(0, start);
    let middle = encode_utf8(with);
    let tail = bytes.subrange(end, bytes.len() as int);
    encode_utf8_valid_utf8(s);
    encode_utf8_valid_utf8(with);
    valid_utf8_split(bytes, start);
    valid_utf8_split(bytes, end);
    lemma_boundary_concat(head, middle);
    lemma_boundary_concat(head + middle, tail);
    lemma_boundary_concat(middle, tail);
    lemma_boundary_concat(head, middle + tail);
    assert(head + (middle + tail) =~= head + middle + tail);
    decode_utf8_encode_utf8(spliced(bytes, start, end, middle));
}

/// Typing a character and deleting it again restores the text and the cursor.
pub proof fn law_insert_then_backspace(field: TextFieldView, c: char)
    requires
        field.valid(),
        field.selection is None,
        field.aligned(),
    ensures
        ({
            let restored = field.edited(KeyCommand::Insert(c)).edited(KeyCommand::BackSpace);
            &&& restored.text == field.text
            &&& restored.cursor_index == field.cursor_index
            &&& restored.selection is None
        }),
{
    let start = field.cursor_index;
    let typed = field.edited(KeyCommand::Insert(c));
    lemma_scalar_len(c);
    lemma_splice(field.text, start, start, seq![c]);
    let end = start + byte_len(seq![c]);
    encode_utf8_valid_utf8(typed.text);
    encode_utf8_valid_utf8(field.text);
    valid_utf8_split(encode_utf8(field.text), start);

    // No boundary lies between the character's first byte and its end.
    assert forall|j: int| start < j < end implies !is_boundary(typed.text, j) by {
        lemma_inside_scalar(encode_utf8(field.text).subrange(0, start), c, encode_utf8(
            field.text,
        ).subrange(start, byte_len(field.text) as int), j - start);
    }
    lemma_boundary_before(typed.text, end - 1);
    assert(boundary_before(typed.text, end - 1) == start);
    lemma_boundary_after(typed.text, start + 1);
    assert(boundary_after(typed.text, start + 1) == end);
    lemma_splice(typed.text, start, end, Seq::empty());
    assert(encode_utf8(Seq::<char>::empty()) =~= Seq::<u8>::empty());
    let restored = typed.edited(KeyCommand::BackSpace);
    assert(encode_utf8(restored.text) =~= encode_utf8(field.text));
    lemma_encode_injective(restored.text, field.text);
}

/// Offsets inside of an encoded character are no character boundaries.
proof fn lemma_inside_scalar(head: Seq<u8>, c: char, tail: Seq<u8>, offset: int)
    requires
        valid_utf8(head),
        valid_utf8(tail),
        0 < offset < encode_scalar(c as u32).len(),
    ensures
        !is_char_boundary(head + encode_utf8(seq![c]) + tail, head.len() + offset),
{
    lemma_scalar_len(c);
    let middle = encode_utf8(seq![c]);
    encode_utf8_valid_utf8(seq![c]);
    encode_utf8_first_scalar(seq![c]);
    assert(middle == encode_scalar(c as u32));
    valid_utf8_concat(head, middle);
    valid_utf8_concat(head + middle, tail);
    let bytes = head + middle + tail;
    assert(bytes[head.len() + offset] == middle[offset]);
    assert(is_continuation_byte(middle[offset]));
    is_char_boundary_iff_not_is_continuation_byte(bytes, head.len() + offset);
}

/// Text committed through IME is removed again by deleting its length in front
/// of the cursor.
pub proof fn law_commit_then_delete(field: TextFieldView, text: Seq<char>)
    requires
        field.valid(),
        field.selection is None,
        field.aligned(),
        byte_len(text) <= u32::MAX,
    ensures
        ({
            let committed = field.inserted(text);
            let (start, end) = committed.surrounding_range(byte_len(text) as u32, 0);
            let restored = committed.without(start, end);
            &&& is_boundary(committed.text, start)
            &&& is_boundary(committed.text, end)
            &&& restored.text == field.text
            &&& restored.cursor_index == field.cursor_index
        }),
{
    let start = field.cursor_index;
    let committed = field.inserted(text);
    lemma_splice(field.text, start, start, text);
    let end = start + byte_len(text);
    lemma_splice(committed.text, start, end, Seq::empty());
    assert(encode_utf8(Seq::<char>::empty()) =~= Seq::<u8>::empty());
    let restored = committed.without(start, end);
    assert(encode_utf8(restored.text) =~= encode_utf8(field.text));
    lemma_encode_injective(restored.text, field.text);
}

/// Edits which do not move the cursor by single bytes keep the cursor and the
/// selection on character boundaries.
pub proof fn law_edits_keep_alignment(field: TextFieldView, command: KeyCommand)
    requires
        field.valid(),
        field.aligned(),
        field.selection is None ==> !(command is Left) && !(command is Right),
    ensures
        field.edited(command).aligned(),
{
    encode_utf8_valid_utf8(field.text);
    let cleared = field.selection_deleted();
    if let Some(selection) = field.selection {
        lemma_splice(field.text, selection.start as int, selection.end as int, Seq::empty());
    }
    match command {
        KeyCommand::BackSpace => {
            if field.selection is None && field.cursor_index > 0 {
                lemma_boundary_before(field.text, field.cursor_index - 1);
                let start = boundary_before(field.text, field.cursor_index - 1);
                lemma_boundary_after(field.text, start + 1);
                lemma_splice(
                    field.text,
                    start,
                    boundary_after(field.text, start + 1),
                    Seq::empty(),
                );
            }
        },
        KeyCommand::Delete => {
            if field.selection is None && field.cursor_index < byte_len(field.text) {
                lemma_boundary_after(field.text, field.cursor_index + 1);
                lemma_splice(
                    field.text,
                    field.cursor_index,
                    boundary_after(field.text, field.cursor_index + 1),
                    Seq::empty(),
                );
            }
        },
        KeyCommand::Insert(c) => {
            lemma_splice(cleared.text, cleared.cursor_index, cleared.cursor_index, seq![c]);
        },
        _ => {},
    }
}

/// The text submitted to IME lies around the cursor: it never starts behind or
/// ends in front of it, as long as the cursor is between two characters.
pub proof fn law_submitted_text_surrounds_cursor(field: TextFieldView)
    requires
        field.valid(),
        is_boundary(field.text, field.cursor_index),
    ensures
        ({
            let (start, end) = field.submitted_range();
            &&& 0 <= start <= field.cursor_index <= end <= byte_len(field.text)
            &&& end - start <= MAX_SURROUNDING_BYTES
        }),
{
    let half = MAX_SURROUNDING_BYTES / 2;
    if field.cursor_index + half < byte_len(field.text) {
        lemma_boundary_before(field.text, field.cursor_index + half);
    }
    let (_, end) = field.submitted_range();
    let remaining = MAX_SURROUNDING_BYTES - (end - field.cursor_index);
    let first = if field.cursor_index >= remaining {
        field.cursor_index - remaining
    } else {
        0
    };
    lemma_boundary_after(field.text, first);
}

/// Deleting while text is selected removes exactly the selected bytes and leaves
/// the cursor in their place, no matter which key was pressed.
pub proof fn law_selection_is_deleted(field: TextFieldView)
    requires
        field.valid(),
        field.selection is Some,
        field.selection_aligned(),
    ensures
        ({
            let bytes = encode_utf8(field.text);
            let start = field.selection->0.start as int;
            let end = field.selection->0.end as int;
            let after = field.edited(KeyCommand::BackSpace);
            &&& encode_utf8(after.text) == bytes.take(start) + bytes.skip(end)
            &&& encode_utf8(after.text).len() == bytes.len() - (end - start)
            &&& after.text != field.text
            &&& after.cursor_index == start
            &&& after.selection is None
            &&& after.dirty && after.text_input_dirty
            &&& field.edited(KeyCommand::Delete) == after
        }),
{
    let bytes = encode_utf8(field.text);
    let start = field.selection->0.start as int;
    let end = field.selection->0.end as int;
    let after = field.edited(KeyCommand::BackSpace);
    lemma_splice(field.text, start, end, Seq::empty());
    assert(encode_utf8(Seq::<char>::empty()) =~= Seq::<u8>::empty());
    assert(encode_utf8(after.text) =~= bytes.take(start) + bytes.skip(end));
}

/// Inserted text replaces the selection, or nothing at the cursor, and is
/// followed by the cursor.
pub proof fn law_inserted_text_replaces_selection(field: TextFieldView, text: Seq<char>)
    requires
        field.valid(),
        field.insertable(),
    ensures
        ({
            let bytes = encode_utf8(field.text);
            let (start, end) = match field.selection {
                Some(selection) => (selection.start as int, selection.end as int),
                None => (field.cursor_index, field.cursor_index),
            };
            let after = field.inserted(text);
            &&& encode_utf8(after.text) == bytes.take(start) + encode_utf8(text) + bytes.skip(end)
            &&& after.cursor_index == start + encode_utf8(text).len()
            &&& after.selection is None
            &&& after.dirty && after.text_input_dirty
        }),
{
    let bytes = encode_utf8(field.text);
    let cleared = field.selection_deleted();
    if field.selection is Some {
        law_selection_is_deleted(field);
        lemma_splice(
            field.text,
            field.selection->0.start as int,
            field.selection->0.end as int,
            Seq::empty(),
        );
    }
    let start = cleared.cursor_index;
    lemma_splice(cleared.text, start, start, text);
    let end = match field.selection {
        Some(selection) => selection.end as int,
        None => start,
    };
    assert(encode_utf8(cleared.text) =~= bytes.take(start) + bytes.skip(end));
    assert(encode_utf8(field.inserted(text).text) =~= bytes.take(start) + encode_utf8(text)
        + bytes.skip(end));
}

/// Typing a character replaces the selection, or nothing at the cursor, with
/// exactly that character.
pub proof fn law_typed_character_is_inserted(field: TextFieldView, c: char)
    requires
        field.valid(),
        field.insertable(),
    ensures
        ({
            let bytes = encode_utf8(field.text);
            let (start, end) = match field.selection {
                Some(selection) => (selection.start as int, selection.end as int),
                None => (field.cursor_index, field.cursor_index),
            };
            let after = field.edited(KeyCommand::Insert(c));
            &&& encode_utf8(after.text) == bytes.take(start) + encode_scalar(c as u32)
                + bytes.skip(end)
            &&& after.cursor_index == start + encode_scalar(c as u32).len()
            &&& after.selection is None
        }),
{
    lemma_scalar_len(c);
    law_inserted_text_replaces_selection(field, seq![c]);
}

/// No offset between the start and end of a character is a boundary.
proof fn lemma_inside_character(s: Seq<char>, n: int, offset: int)
    requires
        0 <= n < s.len(),
        char_offset(s, n) < offset < char_offset(s, n + 1),
    ensures
        !is_boundary(s, offset),
{
    lemma_char_offset_step(s, n);
    let head = s.take(n);
    let tail = s.skip(n + 1);
    encode_utf8_valid_utf8(head);
    encode_utf8_valid_utf8(tail);
    assert(s =~= head + seq![s[n]] + tail);
    lemma_encode_concat(head + seq![s[n]], tail);
    lemma_encode_concat(head, seq![s[n]]);
    lemma_inside_scalar(encode_utf8(head), s[n], encode_utf8(tail), offset - char_offset(s, n));
}

/// Removing the bytes of a character removes that character from the text.
proof fn lemma_splice_character(s: Seq<char>, n: int)
    requires
        0 <= n < s.len(),
    ensures
        splice_text(s, char_offset(s, n), char_offset(s, n + 1), Seq::empty()) == s.remove(n),
{
    let start = char_offset(s, n);
    let end = char_offset(s, n + 1);
    lemma_char_offset_step(s, n);
    lemma_char_offset_boundary(s, n);
    lemma_char_offset_boundary(s, n + 1);
    lemma_splice(s, start, end, Seq::empty());
    assert(encode_utf8(Seq::<char>::empty()) =~= Seq::<u8>::empty());
    lemma_encode_concat(s.take(n), s.skip(n + 1));
    assert(s.remove(n) =~= s.take(n) + s.skip(n + 1));
    let removed = splice_text(s, start, end, Seq::empty());
    assert(encode_utf8(removed) =~= encode_utf8(s.remove(n)));
    lemma_encode_injective(removed, s.remove(n));
}

/// With the cursor behind the first `n` characters and nothing selected,
/// backspace removes the character in front of the cursor and delete the one
/// behind it. At the ends of the text, there is nothing to remove.
pub proof fn law_single_character_is_deleted(field: TextFieldView, n: int)
    requires
        field.valid(),
        field.selection is None,
        0 <= n <= field.text.len(),
        field.cursor_index == encode_utf8(field.text.take(n)).len(),
    ensures
        ({
            let backspace = field.edited(KeyCommand::BackSpace);
            let delete = field.edited(KeyCommand::Delete);
            &&& n > 0 ==> backspace.text == field.text.remove(n - 1) && backspace.cursor_index
                == encode_utf8(field.text.take(n - 1)).len()
            &&& n == 0 ==> backspace == field
            &&& n < field.text.len() ==> delete.text == field.text.remove(n)
                && delete.cursor_index == field.cursor_index
            &&& n == field.text.len() ==> delete == field
            &&& backspace.selection is None && delete.selection is None
        }),
{
    let s = field.text;
    let cursor = field.cursor_index;
    lemma_char_offset_boundary(s, n);
    if n > 0 {
        let start = char_offset(s, n - 1);
        lemma_char_offset_boundary(s, n - 1);
        lemma_char_offset_step(s, n - 1);
        lemma_scalar_len(s[n - 1]);
        lemma_boundary_before(s, cursor - 1);
        let found = boundary_before(s, cursor - 1);
        if found > start {
            lemma_inside_character(s, n - 1, found);
        }
        lemma_boundary_after(s, start + 1);
        let end = boundary_after(s, start + 1);
        if end < cursor {
            lemma_inside_character(s, n - 1, end);
        }
        lemma_splice_character(s, n - 1);
    } else {
        assert(s.take(0) =~= Seq::<char>::empty());
    }
    if n < s.len() {
        let end = char_offset(s, n + 1);
        lemma_char_offset_boundary(s, n + 1);
        lemma_char_offset_step(s, n);
        lemma_scalar_len(s[n]);
        lemma_boundary_after(s, cursor + 1);
        let found = boundary_after(s, cursor + 1);
        if found < end {
            lemma_inside_character(s, n, found);
        }
        lemma_splice_character(s, n);
    } else {
        assert(s.take(n) =~= s);
    }
}

/// Arrow keys never change the text. They go to the side of the selection which
/// they point to, or move the cursor by one, and the opposite key undoes that.
pub proof fn law_arrow_keys_move_cursor(field: TextFieldView)
    requires
        field.valid(),
    ensures
        ({
            let left = field.edited(KeyCommand::Left);
            let right = field.edited(KeyCommand::Right);
            let len = encode_utf8(field.text).len();
            &&& left.text == field.text && right.text == field.text
            &&& left.selection is None && right.selection is None
            &&& left.dirty && right.dirty
            &&& field.selection matches Some(selection) ==> left.cursor_index == selection.start
                && right.cursor_index == selection.end
            &&& field.selection is None ==> {
                &&& field.cursor_index > 0 ==> left.cursor_index + 1 == field.cursor_index
                    && left.edited(KeyCommand::Right).cursor_index == field.cursor_index
                &&& field.cursor_index == 0 ==> left.cursor_index == 0
                &&& field.cursor_index < len ==> right.cursor_index == field.cursor_index + 1
                    && right.edited(KeyCommand::Left).cursor_index == field.cursor_index
                &&& field.cursor_index == len ==> right.cursor_index == len
            }
        }),
{
}

/// Submitting, copying, and pasting are left to the application: they leave the
/// field as it is, and only copying hands out the selected bytes.
pub proof fn law_reactions(field: TextFieldView, command: KeyCommand, action: KeyAction)
    requires
        field.valid(),
        field.accepts(command),
        is_reaction(field, command, action),
    ensures
        action is Submit <==> command is Submit,
        action is Paste <==> command is Paste,
        action is Copy <==> command is Copy && field.selection is Some,
        action matches KeyAction::Copy(text) ==> encode_utf8(text@) == encode_utf8(
            field.text,
        ).subrange(field.selection->0.start as int, field.selection->0.end as int),
        command is Submit || command is Paste || command is Copy || command is Ignored
            ==> field.edited(command) == field,
{
    if command is Copy && field.selection is Some {
        lemma_slice(
            field.text,
            field.selection->0.start as int,
            field.selection->0.end as int,
        );
    }
}

/// A slice between two boundaries has the bytes between them.
proof fn lemma_slice(s: Seq<char>, start: int, end: int)
    requires
        0 <= start <= end <= byte_len(s),
        is_boundary(s, start),
        is_boundary(s, end),
    ensures
        encode_utf8(slice_text(s, start, end)) == encode_utf8(s).subrange(start, end),
{
    let bytes = encode_utf8(s);
    encode_utf8_valid_utf8(s);
    lemma_boundary_prefix(bytes, start, end);
    let head = bytes.subrange(0, end);
    valid_utf8_split(head, start);
    assert(head.subrange(start, head.len() as int) =~= bytes.subrange(start, end));
    decode_utf8_encode_utf8(bytes.subrange(start, end));
}

/// Pasting copied text over its selection restores the text, with the cursor
/// behind the pasted text.
pub proof fn law_copy_then_paste(field: TextFieldView, copied: Seq<char>)
    requires
        field.valid(),
        field.selection is Some,
        field.selection_aligned(),
        encode_utf8(copied) == encode_utf8(field.text).subrange(
            field.selection->0.start as int,
            field.selection->0.end as int,
        ),
    ensures
        field.inserted(copied).text == field.text,
        field.inserted(copied).cursor_index == field.selection->0.end,
{
    law_inserted_text_replaces_selection(field, copied);
    assert(encode_utf8(field.inserted(copied).text) =~= encode_utf8(field.text));
    lemma_encode_injective(field.inserted(copied).text, field.text);
}

/// Editing keys only have an effect without shift and control, copying and
/// pasting need both of these unless there is a dedicated key, and all other keys
/// insert their character as long as control is not pressed.
pub proof fn law_keys_have_commands(keysym: u32, key_char: Option<char>, modifiers: Modifiers)
    ensures
        ({
            let command = command_of(keysym, key_char, modifiers);
            let plain = !modifiers.shift && !modifiers.ctrl;
            let both = modifiers.shift && modifiers.ctrl;
            &&& command is Left <==> keysym == 0xff51 && plain
            &&& command is Right <==> keysym == 0xff53 && plain
            &&& command is BackSpace <==> keysym == 0xff08 && plain
            &&& command is Delete <==> keysym == 0xffff && plain
            &&& command is Submit <==> keysym == 0xff0d && plain
            &&& command is Copy <==> keysym == 0x1008_ff57 || keysym == 0x43 && both
            &&& command is Paste <==> keysym == 0x1008_ff6d || keysym == 0x56 && both
            &&& command matches KeyCommand::Insert(c) ==> key_char == Some(c) && !modifiers.ctrl
            &&& command is Ignored ==> key_char is None || modifiers.ctrl
        }),
{
}

/// Quick presses in one place count up to a triple tap and start again behind
/// it, all others are the first tap.
pub proof fn law_quick_presses_are_counted(
    state: TouchState,
    max_multi_tap: u32,
    time: u32,
    near: bool,
)
    ensures
        ({
            let action = press_action(state, max_multi_tap, time, near);
            let quick = near && time - state.last_time <= max_multi_tap;
            &&& action is DoubleTap <==> quick && state.action is Tap
            &&& action is TripleTap <==> quick && state.action is DoubleTap
            &&& action is Tap || action is DoubleTap || action is TripleTap
        }),
{
}

/// Dragging from a caret of the selection, or right next to it, moves that
/// caret. Dragging from anywhere else scrolls the text.
pub proof fn law_carets_are_dragged(start_offset: usize, selection: Selection)
    requires
        selection.start < selection.end,
    ensures
        drag_action(start_offset, None) is Drag,
        start_offset == selection.start ==> drag_action(start_offset, Some(selection))
            is DragSelectionStart,
        start_offset == selection.end ==> drag_action(start_offset, Some(selection))
            is DragSelectionEnd,
        drag_action(start_offset, Some(selection)) is Drag <==> (start_offset + 1 < selection.start
            || start_offset > selection.start + 1) && (start_offset + 1 < selection.end
            || start_offset > selection.end + 1),
        drag_action(start_offset, Some(selection)) is DragSelectionStart ==> start_offset
            <= selection.start + 1,
        drag_action(start_offset, Some(selection)) is DragSelectionEnd ==> selection.end
            <= start_offset + 1,
{
}

/// Dragging one side of the selection moves it to the touched offset while the
/// other side stays in place. The selection is never empty, and the dragged side
/// keeps being dragged when both sides are swapped.
pub proof fn law_dragged_selection_keeps_other_side(field: TextFieldView, offset: usize)
    requires
        field.valid(),
        field.selection is Some,
        field.touch_state.action is DragSelectionStart || field.touch_state.action
            is DragSelectionEnd,
    ensures
        ({
            let selection = field.selection->0;
            let drags_start = field.touch_state.action is DragSelectionStart;
            let fixed = if drags_start {
                selection.end
            } else {
                selection.start
            };
            let after = field.selection_dragged(offset);
            &&& after.selection is Some
            &&& after.text == field.text
            &&& offset == fixed ==> after.selection == field.selection && after.touch_state
                == field.touch_state
            &&& offset < fixed ==> after.selection == Some(
                Selection { start: offset, end: fixed },
            ) && after.touch_state.action is DragSelectionStart
            &&& offset > fixed ==> after.selection == Some(
                Selection { start: fixed, end: offset },
            ) && after.touch_state.action is DragSelectionEnd
        }),
{
}

/// A single tap puts the cursor where it was and clears the selection, without
/// changing the text.
pub proof fn law_tap_places_cursor(field: TextFieldView, offset: int, word: Seq<bool>)
    requires
        field.touch_state.action is Tap,
    ensures
        field.released(offset, word).cursor_index == offset,
        field.released(offset, word).selection is None,
        field.released(offset, word).text == field.text,
{
}

/// The text between a word's start and the tapped offset, and between the offset
/// and the word's end, consists of word characters only. Behind both ends, the
/// text ends or there is another character.
pub proof fn law_word_is_complete(s: Seq<char>, word: Seq<bool>, offset: int)
    requires
        word.len() == s.len(),
        0 <= offset <= encode_utf8(s).len(),
    ensures
        ({
            let start = word_start(s, word, offset, s.len() as int);
            let end = word_end(s, word, offset, 0);
            &&& 0 <= start <= offset <= end <= encode_utf8(s).len()
            &&& forall|i: int|
                0 <= i < s.len() && start <= char_offset(s, i) && char_offset(s, i + 1) < offset
                    ==> #[trigger] word[i]
            &&& start == 0 || exists|i: int|
                0 <= i < s.len() && start == char_offset(s, i + 1) && !#[trigger] word[i]
            &&& forall|i: int|
                0 <= i < s.len() && offset < char_offset(s, i) < end ==> #[trigger] word[i]
            &&& end == encode_utf8(s).len() || exists|i: int|
                0 <= i < s.len() && end == char_offset(s, i) && !#[trigger] word[i]
        }),
{
    lemma_word_start(s, word, offset, s.len() as int);
    lemma_word_end(s, word, offset, 0);
}

/// Offsets grow with the number of characters.
proof fn lemma_char_offset_order(s: Seq<char>, i: int, j: int)
    requires
        0 <= i <= j <= s.len(),
    ensures
        char_offset(s, i) <= char_offset(s, j) <= byte_len(s),
        i < j ==> char_offset(s, i) < char_offset(s, j),
    decreases j - i,
{
    lemma_char_offset_boundary(s, j);
    if i < j {
        lemma_char_offset_order(s, i, j - 1);
        lemma_char_offset_step(s, j - 1);
        lemma_scalar_len(s[j - 1]);
    }
}

proof fn lemma_word_start(s: Seq<char>, word: Seq<bool>, offset: int, n: int)
    requires
        word.len() == s.len(),
        0 <= n <= s.len(),
        0 <= offset,
    ensures
        ({
            let start = word_start(s, word, offset, n);
            &&& 0 <= start <= offset
            &&& forall|i: int|
                0 <= i < n && start <= char_offset(s, i) && char_offset(s, i + 1) < offset
                    ==> #[trigger] word[i]
            &&& start == 0 || exists|i: int|
                0 <= i < n && start == char_offset(s, i + 1) && !#[trigger] word[i]
        }),
    decreases n,
{
    if n > 0 {
        lemma_word_start(s, word, offset, n - 1);
        if char_offset(s, n) < offset && !word[n - 1] {
            assert forall|i: int| 0 <= i < n && char_offset(s, n) <= char_offset(s, i) implies
                #[trigger] word[i] by {
                lemma_char_offset_order(s, i, n);
            }
        }
    }
}

proof fn lemma_word_end(s: Seq<char>, word: Seq<bool>, offset: int, n: int)
    requires
        word.len() == s.len(),
        0 <= n <= s.len(),
        0 <= offset <= byte_len(s),
    ensures
        ({
            let end = word_end(s, word, offset, n);
            &&& offset <= end <= byte_len(s)
            &&& forall|i: int|
                n <= i < s.len() && offset < char_offset(s, i) < end ==> #[trigger] word[i]
            &&& end == byte_len(s) || exists|i: int|
                n <= i < s.len() && end == char_offset(s, i) && !#[trigger] word[i]
        }),
    decreases s.len() - n,
{
    if n < s.len() {
        lemma_char_offset_order(s, n, n);
        lemma_word_end(s, word, offset, n + 1);
        if char_offset(s, n) > offset && !word[n] {
            assert forall|i: int| n <= i < s.len() && char_offset(s, i) < char_offset(s, n) implies
                #[trigger] word[i] by {
                lemma_char_offset_order(s, n, i);
            }
        }
    }
}

/// A line around an offset has no line feed, and ends in front of one or at the
/// ends of the text.
pub proof fn law_line_is_complete(bytes: Seq<u8>, offset: int)
    requires
        0 <= offset <= bytes.len(),
    ensures
        ({
            let start = line_start(bytes, offset);
            let end = line_end(bytes, offset);
            &&& 0 <= start <= offset <= end <= bytes.len()
            &&& forall|i: int| start <= i < end ==> #[trigger] bytes[i] != 0x0a
            &&& start == 0 || bytes[start - 1] == 0x0a
            &&& end == bytes.len() || bytes[end] == 0x0a
        }),
{
    lemma_line_start(bytes, offset);
    lemma_line_end(bytes, offset);
}

proof fn lemma_line_start(bytes: Seq<u8>, offset: int)
    requires
        0 <= offset <= bytes.len(),
    ensures
        ({
            let start = line_start(bytes, offset);
            &&& 0 <= start <= offset
            &&& forall|i: int| start <= i < offset ==> #[trigger] bytes[i] != 0x0a
            &&& start == 0 || bytes[start - 1] == 0x0a
        }),
    decreases offset,
{
    if offset > 0 && bytes[offset - 1] != 0x0a {
        lemma_line_start(bytes, offset - 1);
    }
}

proof fn lemma_line_end(bytes: Seq<u8>, offset: int)
    requires
        0 <= offset <= bytes.len(),
    ensures
        ({
            let end = line_end(bytes, offset);
            &&& offset <= end <= bytes.len()
            &&& forall|i: int| offset <= i < end ==> #[trigger] bytes[i] != 0x0a
            &&& end == bytes.len() || bytes[end] == 0x0a
        }),
    decreases bytes.len() - offset,
{
    if offset < bytes.len() && bytes[offset] != 0x0a {
        lemma_line_end(bytes, offset + 1);
    }
}

/// Double taps select the tapped word and triple taps the tapped line, both
/// without changing the text.
pub proof fn law_multiple_taps_select(field: TextFieldView, offset: int, word: Seq<bool>)
    requires
        field.valid(),
        word.len() == field.text.len(),
        0 <= offset <= encode_utf8(field.text).len() <= usize::MAX,
        field.touch_state.action is DoubleTap || field.touch_state.action is TripleTap,
    ensures
        ({
            let after = field.released(offset, word);
            let bytes = encode_utf8(field.text);
            let (start, end) = if field.touch_state.action is DoubleTap {
                (
                    word_start(field.text, word, offset, field.text.len() as int),
                    word_end(field.text, word, offset, 0),
                )
            } else {
                (line_start(bytes, offset), line_end(bytes, offset))
            };
            &&& after.text == field.text
            &&& start < end ==> after.selection == Some(
                Selection { start: start as usize, end: end as usize },
            )
            &&& start == end ==> after.selection is None
            &&& start <= end
        }),
{
    law_word_is_complete(field.text, word, offset);
    law_line_is_complete(encode_utf8(field.text), offset);
}

/// Bytes of all pieces which are part of the field's text.
pub open spec fn run_bytes(runs: Seq<(RunStyle, Seq<char>)>) -> Seq<u8>
    decreases runs.len(),
{
    if runs.len() == 0 {
        Seq::empty()
    } else {
        run_bytes(runs.drop_last()) + (match runs.last().0 {
            RunStyle::Normal | RunStyle::Selection => encode_utf8(runs.last().1),
            RunStyle::Preedit | RunStyle::Placeholder => Seq::empty(),
        })
    }
}

/// A frame shows the entire text in order, with the selected bytes highlighted.
/// It ends with the preedit text, and has a placeholder exactly if there is
/// nothing else to show.
pub proof fn law_frame_shows_text(field: TextFieldView)
    requires
        field.valid(),
        field.selection_aligned(),
    ensures
        ({
            let runs = field.runs();
            &&& run_bytes(runs) == encode_utf8(field.text)
            &&& field.selection matches Some(selection) ==> exists|i: int|
                0 <= i < runs.len() && (#[trigger] runs[i]).0 is Selection && encode_utf8(runs[i].1)
                    == encode_utf8(field.text).subrange(selection.start as int, selection.end as int)
                    && run_bytes(runs.take(i)) == encode_utf8(field.text).take(
                    selection.start as int,
                )
            &&& field.selection is None ==> forall|i: int|
                0 <= i < runs.len() ==> !((#[trigger] runs[i]).0 is Selection)
            &&& field.preedit_text.len() > 0 ==> runs.len() > 0 && runs.last() == (
                RunStyle::Preedit,
                field.preedit_text,
            )
            &&& field.preedit_text.len() == 0 && field.text.len() == 0 ==> runs == seq![
                (RunStyle::Placeholder, field.placeholder),
            ]
            &&& field.preedit_text.len() > 0 || field.text.len() > 0 ==> forall|i: int|
                0 <= i < runs.len() ==> !((#[trigger] runs[i]).0 is Placeholder)
        }),
{
    let runs = field.runs();
    let bytes = encode_utf8(field.text);
    let len = bytes.len() as int;
    encode_utf8_valid_utf8(field.text);
    is_char_boundary_start_end_of_seq(bytes);
    lemma_byte_len_zero(field.text);
    reveal_with_fuel(run_bytes, 5);
    match field.selection {
        Some(selection) => {
            let start = selection.start as int;
            let end = selection.end as int;
            lemma_slice(field.text, 0, start);
            lemma_slice(field.text, start, end);
            lemma_slice(field.text, end, len);
            let before = if start > 0 {
                seq![(RunStyle::Normal, slice_text(field.text, 0, start))]
            } else {
                Seq::empty()
            };
            let highlighted = (RunStyle::Selection, slice_text(field.text, start, end));
            let behind = (RunStyle::Normal, slice_text(field.text, end, len));
            assert(before.push(highlighted).drop_last() =~= before);
            assert(before.push(highlighted).push(behind).drop_last() =~= before.push(highlighted));
            let text = before.push(highlighted).push(behind);
            assert(before + seq![highlighted, behind] =~= text);
            assert(run_bytes(before) =~= bytes.take(start)) by {
                if start > 0 {
                    assert(before.drop_last() =~= Seq::<(RunStyle, Seq<char>)>::empty());
                }
            }
            assert(run_bytes(before.push(highlighted)) =~= bytes.take(end));
            assert(run_bytes(text) =~= bytes);
            let i = before.len() as int;
            if field.preedit_text.len() > 0 {
                assert(runs =~= text.push((RunStyle::Preedit, field.preedit_text)));
                assert(runs.drop_last() =~= text);
                assert(run_bytes(runs) =~= run_bytes(text));
            } else {
                assert(runs =~= text);
            }
            assert(runs.take(i) =~= before);
            assert(runs[i] == highlighted);
        },
        None => {
            let text = if field.text.len() > 0 {
                seq![(RunStyle::Normal, field.text)]
            } else {
                Seq::empty()
            };
            assert(run_bytes(text) =~= bytes) by {
                if field.text.len() > 0 {
                    assert(text.drop_last() =~= Seq::<(RunStyle, Seq<char>)>::empty());
                }
            }
            if field.preedit_text.len() > 0 || field.text.len() == 0 {
                assert(runs.drop_last() =~= text);
                assert(run_bytes(runs) =~= run_bytes(text));
            }
        },
    }
}

/// The cursor is visible exactly if the field has focus, at the sides of the
/// selection if there is one.
pub proof fn law_focused_field_has_cursor(field: TextFieldView)
    requires
        field.valid(),
        encode_utf8(field.text).len() <= usize::MAX,
    ensures
        field.cursor_shape() is Hidden <==> !field.keyboard_focused && !field.ime_focused,
        field.cursor_shape() matches CursorShape::Bar(index) ==> field.selection is None && index
            == field.cursor_index,
        field.cursor_shape() matches CursorShape::Carets(start, end) ==> field.selection == Some(
            Selection { start, end },
        ),
{
}

/// Replacing the text puts the cursor behind it and clears the selection.
pub proof fn law_replaced_text(field: TextFieldView, text: Seq<char>)
    ensures
        field.with_text(text).text == text,
        field.text != text ==> field.with_text(text).cursor_index == encode_utf8(text).len()
            && field.with_text(text).selection is None && field.with_text(text).dirty
            && field.with_text(text).text_input_dirty,
{
}

/// Deletion around the cursor removes the requested number of bytes on both
/// sides of it, or as many as there are.
pub proof fn law_surrounding_text_is_deleted(field: TextFieldView, before: u32, after: u32)
    requires
        field.valid(),
        ({
            let (start, end) = field.surrounding_range(before, after);
            is_boundary(field.text, start) && is_boundary(field.text, end)
        }),
    ensures
        ({
            let bytes = encode_utf8(field.text);
            let head = if before <= field.cursor_index {
                field.cursor_index - before
            } else {
                0
            };
            let tail = if after <= bytes.len() - field.cursor_index {
                field.cursor_index + after
            } else {
                bytes.len() as int
            };
            let (start, end) = field.surrounding_range(before, after);
            let deleted = field.without(start, end);
            &&& encode_utf8(deleted.text) == bytes.take(head) + bytes.skip(tail)
            &&& deleted.cursor_index == head
        }),
{
    let bytes = encode_utf8(field.text);
    let (start, end) = field.surrounding_range(before, after);
    lemma_splice(field.text, start, end, Seq::empty());
    assert(encode_utf8(Seq::<char>::empty()) =~= Seq::<u8>::empty());
    assert(encode_utf8(field.without(start, end).text) =~= bytes.take(start) + bytes.skip(end));
}

/// The text submitted to IME consists of whole characters and is as long as
/// possible: it covers half of the maximum behind the cursor and the entire
/// maximum in total, unless the text ends before.
pub proof fn law_submitted_text_is_maximal(field: TextFieldView)
    requires
        field.valid(),
    ensures
        ({
            let (start, end) = field.submitted_range();
            let len = encode_utf8(field.text).len();
            &&& is_boundary(field.text, start) && is_boundary(field.text, end)
            &&& end == len || end - field.cursor_index > 2000 - 4
            &&& start == 0 || end - start > 4000 - 4
            &&& len <= 2000 ==> start == 0 && end == len
        }),
{
    let s = field.text;
    let half = MAX_SURROUNDING_BYTES / 2;
    encode_utf8_valid_utf8(s);
    is_char_boundary_start_end_of_seq(encode_utf8(s));
    if field.cursor_index + half < byte_len(s) {
        lemma_boundary_before(s, field.cursor_index + half);
    }
    let (start, end) = field.submitted_range();
    let remaining = MAX_SURROUNDING_BYTES - (end - field.cursor_index);
    let first = if field.cursor_index >= remaining {
        field.cursor_index - remaining
    } else {
        0
    };
    lemma_boundary_after(s, first);
    if first + 3 <= byte_len(s) {
        lemma_boundary_before(s, first + 3);
        let nearby = boundary_before(s, first + 3);
        assert(first <= nearby);
        assert(start <= nearby);
    }
}

/// Scrolling moves the cursor just enough to keep it between the first and last
/// visible index.
pub proof fn law_scrolled_cursor_is_visible(
    field: TextFieldView,
    first: Option<usize>,
    last: Option<usize>,
)
    requires
        first matches Some(first) ==> first < usize::MAX,
        last matches Some(last) ==> last > 0,
        first matches Some(first) ==> (last matches Some(last) ==> first + 2 <= last),
        0 <= field.cursor_index <= usize::MAX,
    ensures
        ({
            let cursor = field.visible_cursor(first, last);
            &&& first matches Some(first) ==> cursor > first
            &&& last matches Some(last) ==> cursor < last
            &&& cursor < field.cursor_index ==> last is Some && cursor + 1 == last->0
            &&& cursor > field.cursor_index ==> first is Some && cursor == first->0 + 1
        }),
        ({
            let cursor = field.visible_cursor(first, last);
            (first matches Some(first) ==> first < field.cursor_index) && (last matches Some(last)
                ==> field.cursor_index < last) ==> cursor == field.cursor_index
        }),
{
}

/// Changes of focus, position, and size are redrawn, without changing the text or
/// its selection. Without any change, nothing is redrawn.
pub proof fn law_changes_are_redrawn(
    field: TextFieldView,
    focused: bool,
    point: Point<i32>,
    size: Size<u32>,
)
    ensures
        ({
            let ime = field.with_ime_focus(focused);
            let keyboard = field.with_keyboard_focus(focused);
            let moved = field.with_point(point);
            let resized = field.with_size(size);
            &&& ime.ime_focused == focused && ime.keyboard_focused == field.keyboard_focused
            &&& keyboard.keyboard_focused == focused && keyboard.ime_focused == field.ime_focused
            &&& moved.point == point && resized.size == size
            &&& field.ime_focused != focused ==> ime.dirty
            &&& field.keyboard_focused != focused ==> keyboard.dirty
            &&& field.point != point ==> moved.dirty
            &&& field.size != size ==> resized.dirty && resized.focus_cursor
            &&& field.ime_focused == focused ==> ime == field
            &&& field.keyboard_focused == focused ==> keyboard == field
            &&& field.point == point ==> moved == field
            &&& field.size == size ==> resized == field
            &&& ime.text == field.text && ime.cursor_index == field.cursor_index
            &&& keyboard.text == field.text && keyboard.selection == field.selection
            &&& moved.text == field.text && resized.text == field.text
            &&& resized.cursor_index == field.cursor_index && resized.selection == field.selection
        }),
{
}

/// The distance of two offsets does not depend on their order, and is zero only
/// without any.
pub proof fn law_offset_distance(a: usize, b: usize)
    ensures
        offset_distance(a, b) == offset_distance(b, a),
        offset_distance(a, b) >= 0,
        offset_distance(a, b) == 0 <==> a == b,
        a <= b ==> a + offset_distance(a, b) == b,
{
}

/// The submitted cursor is that of the selection, or both ends are the text cursor.
pub proof fn law_submitted_cursor(field: TextFieldView)
    ensures
        ({
            let (start, end) = field.cursor_range();
            &&& field.selection is None ==> start == field.cursor_index && end
                == field.cursor_index
            &&& field.selection is Some ==> start == field.selection->0.start && end
                == field.selection->0.end
        }),
{
}

/// Words start in front of the offset and end behind it, except for the start and
/// end of the text.
pub proof fn law_word_surrounds_offset(s: Seq<char>, word: Seq<bool>, offset: int, n: int)
    requires
        0 <= n <= s.len(),
    ensures
        ({
            let start = word_start(s, word, offset, n);
            let end = word_end(s, word, offset, n);
            &&& start == 0 || start < offset
            &&& end == byte_len(s) || offset < end
        }),
{
    lemma_word_starts_before(s, word, offset, n);
    lemma_word_ends_behind(s, word, offset, n);
}

proof fn lemma_word_starts_before(s: Seq<char>, word: Seq<bool>, offset: int, n: int)
    ensures
        word_start(s, word, offset, n) == 0 || word_start(s, word, offset, n) < offset,
    decreases n,
{
    if n > 0 {
        lemma_word_starts_before(s, word, offset, n - 1);
    }
}

proof fn lemma_word_ends_behind(s: Seq<char>, word: Seq<bool>, offset: int, n: int)
    ensures
        word_end(s, word, offset, n) == byte_len(s) || offset < word_end(s, word, offset, n),
    decreases s.len() - n,
{
    if n < s.len() {
        lemma_word_ends_behind(s, word, offset, n + 1);
    }
}

} // verus!
