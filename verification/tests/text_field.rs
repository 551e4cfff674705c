use charon::geometry::{Point, Size};
use charon::keyboard::{
    Keysym, Modifiers, BACK_SPACE, DELETE, LEFT, RETURN, RIGHT, UPPER_C, UPPER_V, XF86_COPY,
    XF86_PASTE,
};
use charon::ui::text_field::{
    command_for, key_command, CursorShape, KeyAction, KeyCommand, MotionOrigin, RunStyle, TextField,
    TouchAction, MAX_SURROUNDING_BYTES,
};

const NONE: Modifiers = Modifiers { ctrl: false, alt: false, shift: false, logo: false };
const SHIFT: Modifiers = Modifiers { ctrl: false, alt: false, shift: true, logo: false };
const CTRL_SHIFT: Modifiers = Modifiers { ctrl: true, alt: false, shift: true, logo: false };

fn field(text: &str) -> TextField {
    let mut field = TextField::new(Point::new(10, 20), Size::new(100, 30));
    field.set_text(text.to_owned());
    field
}

fn press(field: &mut TextField, raw: u32) -> KeyAction {
    field.press_key(Keysym { raw }, NONE)
}

fn copied(action: KeyAction) -> String {
    match action {
        KeyAction::Copy(text) => text,
        _ => panic!("no text was copied"),
    }
}

#[test]
fn typing() {
    let mut field = field("");
    for c in "ab".chars() {
        press(&mut field, c as u32);
    }
    field.press_key(Keysym { raw: 'C' as u32 }, SHIFT);
    assert_eq!(field.text(), "abC");
    press(&mut field, LEFT);
    press(&mut field, 0xe9);
    assert_eq!(field.text(), "abéC");
    press(&mut field, BACK_SPACE);
    assert_eq!(field.text(), "abC");
    press(&mut field, DELETE);
    assert_eq!(field.text(), "ab");
    press(&mut field, RIGHT);
    press(&mut field, LEFT);
    press(&mut field, LEFT);
    press(&mut field, LEFT);
    press(&mut field, BACK_SPACE);
    assert_eq!(field.text(), "ab");
    assert!(matches!(press(&mut field, RETURN), KeyAction::Submit));
    assert_eq!(field.text(), "ab");
}

#[test]
fn ignored_keys() {
    let mut field = field("a");
    let alt = Modifiers { alt: true, ..NONE };
    let logo = Modifiers { logo: true, ..NONE };
    let ctrl = Modifiers { ctrl: true, ..NONE };
    for modifiers in [alt, logo, ctrl] {
        let action = field.press_key(Keysym { raw: 'b' as u32 }, modifiers);
        assert!(matches!(action, KeyAction::Nothing));
        assert_eq!(field.text(), "a");
    }
    assert!(matches!(press(&mut field, 0xffbe), KeyAction::Nothing));
    assert_eq!(field.text(), "a");
    assert_eq!(key_command(Keysym { raw: 'x' as u32 }, NONE), KeyCommand::Insert('x'));
    let euro = Keysym { raw: 0x20ac };
    assert_eq!(key_command(euro, NONE), KeyCommand::Insert('€'));
    assert_eq!(command_for(euro, Some('€'), SHIFT), KeyCommand::Insert('€'));
    assert_eq!(command_for(euro, Some('€'), CTRL_SHIFT), KeyCommand::Ignored);
    assert_eq!(command_for(euro, None, NONE), KeyCommand::Ignored);
    assert_eq!(command_for(Keysym { raw: LEFT }, None, NONE), KeyCommand::Left);
    assert_eq!(command_for(Keysym { raw: LEFT }, None, SHIFT), KeyCommand::Ignored);
}

#[test]
fn clipboard() {
    let mut field = field("some text");
    let action = field.press_key(Keysym { raw: UPPER_V }, CTRL_SHIFT);
    assert!(matches!(action, KeyAction::Paste));
    assert!(matches!(press(&mut field, XF86_PASTE), KeyAction::Paste));
    field.paste("!");
    assert_eq!(field.text(), "some text!");

    // Select the first word.
    field.touch_down(300, 0, false, 2);
    field.touch_up(2);
    field.touch_down(300, 10, true, 2);
    field.touch_up(2);
    assert_eq!(copied(field.press_key(Keysym { raw: UPPER_C }, CTRL_SHIFT)), "some");
    assert_eq!(copied(press(&mut field, XF86_COPY)), "some");
    field.paste("more");
    assert_eq!(field.text(), "more text!");
}

#[test]
fn triple_tap_selects_line() {
    let mut field = field("first\nsecond line\nthird");
    for time in [0, 10, 20] {
        field.touch_down(300, time, time > 0, 8);
        field.touch_up(8);
    }
    assert_eq!(copied(press(&mut field, XF86_COPY)), "second line");
}

#[test]
fn dragged_selection() {
    let mut field = field("some text");
    for time in [0, 10] {
        field.touch_down(300, time, time > 0, 6);
        field.touch_up(6);
    }
    assert_eq!(copied(press(&mut field, XF86_COPY)), "text");
    field.touch_down(300, 1000, false, 5);
    let (origin, action) = field.touch_motion(false);
    assert_eq!(origin, MotionOrigin::LastPress);
    assert_eq!(action, TouchAction::DragSelectionStart);
    field.drag_selection(2);
    assert_eq!(copied(press(&mut field, XF86_COPY)), "me text");
}

#[test]
fn input_method() {
    let mut field = field("ab");
    assert!(field.take_text_input_dirty());
    assert!(!field.take_text_input_dirty());
    field.commit_string("cd");
    assert_eq!(field.text(), "abcd");
    assert!(field.take_text_input_dirty());
    field.delete_surrounding_text(3, 0);
    assert_eq!(field.text(), "a");
    assert_eq!(field.surrounding_text(), ("a".to_owned(), 1, 1));

    field.set_preedit_string("xyz".to_owned());
    let frame = field.draw();
    assert_eq!(frame.runs.len(), 2);
    assert_eq!(frame.runs[1].text, "xyz");
    assert_eq!(frame.runs[1].style, RunStyle::Preedit);
    assert!(!field.dirty());
}

#[test]
fn surrounding_text_is_limited() {
    let mut text = "é".repeat(5_000);
    text.insert(0, 'a');
    let field = field(&text);
    let (surrounding, start, end) = field.surrounding_text();
    assert!(surrounding.len() <= MAX_SURROUNDING_BYTES);
    assert!(text.contains(&surrounding));
    assert_eq!(start, end);
    assert_eq!(start as usize, surrounding.len());
}

#[test]
fn text_frames() {
    let mut field = field("");
    field.set_placeholder("Search");
    let frame = field.draw();
    assert_eq!(frame.runs.len(), 1);
    assert_eq!(frame.runs[0].text, "Search");
    assert_eq!(frame.runs[0].style, RunStyle::Placeholder);
    assert_eq!(frame.cursor, CursorShape::Hidden);

    field.set_keyboard_focus(true);
    assert!(field.dirty());
    field.set_text("ab".to_owned());
    let frame = field.draw();
    assert_eq!(frame.cursor, CursorShape::Bar(2));
    assert_eq!(frame.scroll_to, Some(2));

    for time in [0, 10] {
        field.touch_down(300, time, time > 0, 1);
        field.touch_up(1);
    }
    let frame = field.draw();
    assert_eq!(frame.cursor, CursorShape::Carets(0, 2));
    assert_eq!(frame.scroll_to, None);
    assert_eq!(frame.runs[0].style, RunStyle::Selection);
}

#[test]
fn field_geometry() {
    let mut field = field("");
    assert!(field.contains(Point::new(10, 20)));
    assert!(!field.contains(Point::new(110, 20)));
    field.set_point(Point::new(50, 50));
    field.set_size(Size::new(10, 10));
    assert!(field.contains(Point::new(59, 59)));
    assert!(!field.contains(Point::new(60, 59)));
}

#[test]
fn characters_are_not_split() {
    let mut field = field("é");
    field.scrolled(true, false, None, Some(2));
    let before = field.text().to_owned();
    assert!(field.try_press_key(Keysym { raw: 'a' as u32 }, NONE).is_none());
    assert_eq!(field.text(), before);
    assert!(!field.accepts(KeyCommand::Insert('a')));
}
