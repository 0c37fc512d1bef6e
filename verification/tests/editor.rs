use ptl::bitmap::LabelBitmap;
use ptl::editor::{App, AppMode, Key, KeyAction};

fn key(c: char) -> Key {
    Key::Char { c, control_only: false }
}

fn app() -> App {
    App::new("sans-serif".to_string(), 76, 12)
}

#[test]
fn new_app_is_empty_and_editing() {
    let a = app();
    assert_eq!(a.focused_line, 0);
    assert_eq!(a.mode, AppMode::Editing);
    assert!(a.lines.iter().all(|l| l.is_empty()));
    assert_eq!(a.active_lines(), vec![""]);
    assert_eq!(a.tape_width_px, 76);
    assert_eq!(a.tape_width_mm, 12);
}

#[test]
fn typing_edits_focused_line() {
    let mut a = app();
    assert_eq!(a.handle_key(key('H')), KeyAction::RefreshPreview);
    assert_eq!(a.handle_key(key('i')), KeyAction::RefreshPreview);
    assert_eq!(a.lines[0], "Hi");
    assert_eq!(a.handle_key(Key::Tab), KeyAction::Nothing);
    assert_eq!(a.handle_key(Key::Tab), KeyAction::Nothing);
    a.handle_key(key('x'));
    assert_eq!(a.lines[2], "x");
    assert_eq!(a.active_lines(), vec!["Hi", "x"]);
    assert_eq!(a.handle_key(Key::Backspace), KeyAction::RefreshPreview);
    assert_eq!(a.lines[2], "");
    a.handle_key(Key::Backspace); // nothing left to erase
    assert_eq!(a.lines[2], "");
}

#[test]
fn type_then_erase_restores_text() {
    let mut a = app();
    a.handle_key(key('a'));
    let before = a.lines.clone();
    a.handle_key(key('z'));
    a.handle_key(Key::Backspace);
    assert_eq!(a.lines, before);
}

#[test]
fn tab_cycles_and_backtab_stops_at_first() {
    let mut a = app();
    for expected in [1, 2, 3, 0] {
        a.handle_key(Key::Tab);
        assert_eq!(a.focused_line, expected);
    }
    a.handle_key(Key::BackTab);
    assert_eq!(a.focused_line, 0);
    a.handle_key(Key::Tab);
    a.handle_key(Key::BackTab);
    assert_eq!(a.focused_line, 0);
}

#[test]
fn quit_keys() {
    let mut a = app();
    assert_eq!(a.handle_key(key('q')), KeyAction::Quit);
    assert_eq!(a.mode, AppMode::Quit);
    assert_eq!(a.handle_key(key('x')), KeyAction::Nothing);
    let mut b = app();
    assert_eq!(b.handle_key(Key::Char { c: 'c', control_only: true }), KeyAction::Quit);
    let mut c = app();
    assert_eq!(c.handle_key(key('c')), KeyAction::RefreshPreview);
    assert_eq!(c.lines[0], "c");
}

#[test]
fn print_flow_reports_outcome() {
    let mut a = app();
    assert_eq!(a.handle_key(Key::Enter), KeyAction::Print);
    assert_eq!(a.mode, AppMode::Printing);
    assert_eq!(a.status_msg, "Printing...");
    a.print_finished(Ok(()));
    assert_eq!(a.mode, AppMode::Editing);
    assert_eq!(a.status_msg, "Printed!");
    a.handle_key(Key::Enter);
    a.print_finished(Err("no font".to_string()));
    assert_eq!(a.status_msg, "Error: no font");
    assert_eq!(a.mode, AppMode::Editing);
}

#[test]
fn preview_and_save() {
    let mut a = app();
    assert_eq!(a.handle_key(key('p')), KeyAction::Nothing);
    a.set_preview(Ok(LabelBitmap::new_white(3, 76)));
    assert!(a.preview.is_some());
    assert_eq!(a.handle_key(key('p')), KeyAction::SavePreview);
    a.set_preview(Err("boom".to_string()));
    assert!(a.preview.is_none());
    assert_eq!(a.status_msg, "Preview error: boom");
    a.preview_after_edit(Err("again".to_string()));
    assert_eq!(a.status_msg, "");
    a.set_status("Saved label_preview.png".to_string());
    assert_eq!(a.status_msg, "Saved label_preview.png");
    a.handle_key(Key::Tab);
    assert_eq!(a.status_msg, "");
}
