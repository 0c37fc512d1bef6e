use vstd::prelude::*;

use crate::bitmap::LabelBitmap;
use crate::text::{pop_char, push_char};

verus! {

/// Number of text lines the interactive editor offers.
pub const EDITOR_LINES: usize = 4;

#[derive(Debug, Clone, Copy, PartialEq, Eq, Structural)]
pub enum AppMode {
    Editing,
    Printing,
    Quit,
}

/// A key press, as the editor distinguishes them.
#[derive(Debug, Clone, Copy, PartialEq, Eq, Structural)]
pub enum Key {
    /// A character key; `control_only` holds when Control is the only modifier.
    Char { c: char, control_only: bool },
    Tab,
    BackTab,
    Enter,
    Backspace,
    /// Any other key.
    Other,
}

/// What the caller must do after a key press.
#[derive(Debug, Clone, Copy, PartialEq, Eq, Structural)]
pub enum KeyAction {
    /// Nothing beyond redrawing.
    Nothing,
    /// Leave the editor.
    Quit,
    /// Render the active lines, print them, then call `print_finished`.
    Print,
    /// Save the preview as a PNG, then report the outcome with `set_status`.
    SavePreview,
    /// Render the active lines, then call `preview_after_edit`.
    RefreshPreview,
}

/// The editor's state as contracts see it.
pub struct EditorModel {
    pub lines: Seq<Seq<char>>,
    pub focused: nat,
    pub mode: AppMode,
    pub status: Seq<char>,
    pub preview: Option<LabelBitmap>,
}

/// The next state and the caller's action after a key press.
pub open spec fn key_step(m: EditorModel, key: Key) -> (EditorModel, KeyAction) {
    if m.mode != AppMode::Editing {
        (m, KeyAction::Nothing)
    } else {
        match key {
            Key::Char { c, control_only } => if c == 'q' || (c == 'c' && control_only) {
                (EditorModel { mode: AppMode::Quit, ..m }, KeyAction::Quit)
            } else if c == 'p' {
                (m, if m.preview is Some {
                    KeyAction::SavePreview
                } else {
                    KeyAction::Nothing
                })
            } else {
                (
                    EditorModel {
                        lines: m.lines.update(m.focused as int, m.lines[m.focused as int].push(c)),
                        ..m
                    },
                    KeyAction::RefreshPreview,
                )
            },
            Key::Tab => (
                EditorModel {
                    focused: ((m.focused + 1) % (EDITOR_LINES as nat)) as nat,
                    status: Seq::empty(),
                    ..m
                },
                KeyAction::Nothing,
            ),
            Key::BackTab => (
                EditorModel {
                    focused: if m.focused > 0 {
                        (m.focused - 1) as nat
                    } else {
                        0
                    },
                    status: Seq::empty(),
                    ..m
                },
                KeyAction::Nothing,
            ),
            Key::Enter => (
                EditorModel { mode: AppMode::Printing, status: "Printing..."@, ..m },
                KeyAction::Print,
            ),
            Key::Backspace => (
                EditorModel {
                    lines: m.lines.update(
                        m.focused as int,
                        if m.lines[m.focused as int].len() > 0 {
                            m.lines[m.focused as int].drop_last()
                        } else {
                            m.lines[m.focused as int]
                        },
                    ),
                    ..m
                },
                KeyAction::RefreshPreview,
            ),
            Key::Other => (m, KeyAction::Nothing),
        }
    }
}

/// The non-empty lines, or a single empty line when all are empty.
pub open spec fn spec_active_lines(lines: Seq<Seq<char>>) -> Seq<Seq<char>> {
    let ne = lines.filter(|l: Seq<char>| l.len() > 0);
    if ne.len() == 0 {
        seq![Seq::empty()]
    } else {
        ne
    }
}

pub struct App {
    pub lines: [String; 4],
    pub focused_line: usize,
    pub font: String,
    pub tape_width_px: u32,
    pub tape_width_mm: u8,
    pub preview: Option<LabelBitmap>,
    pub mode: AppMode,
    pub status_msg: String,
}

impl App {
    /// The focused line is one of the editor's lines.
    pub open spec fn wf(&self) -> bool {
        self.focused_line < EDITOR_LINES
    }

    pub open spec fn line_views(&self) -> Seq<Seq<char>> {
        self.lines@.map_values(|s: String| s@)
    }

    pub open spec fn model(&self) -> EditorModel {
        EditorModel {
            lines: self.line_views(),
            focused: self.focused_line as nat,
            mode: self.mode,
            status: self.status_msg@,
            preview: self.preview,
        }
    }

    pub fn new(font: String, tape_width_px: u32, tape_width_mm: u8) -> (r: Self)
        ensures
            r.wf(),
            r.line_views() == seq![Seq::<char>::empty(), Seq::empty(), Seq::empty(), Seq::empty()],
            r.focused_line == 0,
            r.font == font,
            r.tape_width_px == tape_width_px,
            r.tape_width_mm == tape_width_mm,
            r.preview is None,
            r.mode == AppMode::Editing,
            r.status_msg@ == Seq::<char>::empty(),
    {
        let r = Self {
            lines: [String::new(), String::new(), String::new(), String::new()],
            focused_line: 0,
            font,
            tape_width_px,
            tape_width_mm,
            preview: None,
            mode: AppMode::Editing,
            status_msg: String::new(),
        };
        assert(r.line_views() =~= seq![
            Seq::<char>::empty(),
            Seq::empty(),
            Seq::empty(),
            Seq::empty(),
        ]);
        r
    }

    /// Active (non-empty) text lines
    pub fn active_lines(&self) -> (r: Vec<&str>)
        ensures
            r@.map_values(|s: &str| s@) == spec_active_lines(self.line_views()),
    {
        let ghost all = self.line_views();
        let mut v: Vec<&str> = Vec::new();
        let mut i: usize = 0;
        while i < EDITOR_LINES
            invariant
                0 <= i <= EDITOR_LINES,
                all == self.line_views(),
                all.len() == EDITOR_LINES,
                v@.map_values(|s: &str| s@) == all.take(i as int).filter(|l: Seq<char>| l.len() > 0),
            decreases EDITOR_LINES - i,
        {
            let ghost before = v@;
            let s = self.lines[i].as_str();
            proof {
                let f = |l: Seq<char>| l.len() > 0;
                assert(all.take(i + 1).drop_last() =~= all.take(i as int));
                assert(all.take(i + 1).last() == s@);
                reveal(Seq::filter);
                assert(all.take(i + 1).filter(f) == if f(s@) {
                    all.take(i as int).filter(f).push(s@)
                } else {
                    all.take(i as int).filter(f)
                });
            }
            if !s.is_empty() {
                v.push(s);
                assert(v@.map_values(|s: &str| s@) =~= before.map_values(|s: &str| s@).push(s@));
            }
            i = i + 1;
        }
        assert(all.take(EDITOR_LINES as int) =~= all);
        if v.len() == 0 {
            let mut one: Vec<&str> = Vec::new();
            let empty: &str = "";
            proof {
                reveal_strlit("");
                assert(empty@ =~= Seq::<char>::empty());
            }
            one.push(empty);
            assert(one@.map_values(|s: &str| s@) =~= seq![Seq::<char>::empty()]);
            one
        } else {
            v
        }
    }

    /// Apply a key press (case of the interactive loop); the result tells the
    /// caller what to do next.
    pub fn handle_key(&mut self, key: Key) -> (r: KeyAction)
        requires
            old(self).wf(),
        ensures
            final(self).wf(),
            (final(self).model(), r) == key_step(old(self).model(), key),
            final(self).font == old(self).font,
            final(self).tape_width_px == old(self).tape_width_px,
            final(self).tape_width_mm == old(self).tape_width_mm,
    {
        if self.mode != AppMode::Editing {
            return KeyAction::Nothing;
        }
        match key {
            Key::Char { c, control_only } => {
                if c == 'q' || (c == 'c' && control_only) {
                    self.mode = AppMode::Quit;
                    KeyAction::Quit
                } else if c == 'p' {
                    if self.preview.is_some() {
                        KeyAction::SavePreview
                    } else {
                        KeyAction::Nothing
                    }
                } else {
                    let f = self.focused_line;
                    let ghost before = self.line_views();
                    let mut s = self.lines[f].clone();
                    push_char(&mut s, c);
                    let ghost sv = s@;
                    self.lines[f] = s;
                    assert(self.line_views() =~= before.update(f as int, sv));
                    KeyAction::RefreshPreview
                }
            },
            Key::Tab => {
                self.focused_line = (self.focused_line + 1) % EDITOR_LINES;
                self.status_msg = String::new();
                KeyAction::Nothing
            },
            Key::BackTab => {
                self.focused_line = if self.focused_line > 0 {
                    self.focused_line - 1
                } else {
                    0
                };
                self.status_msg = String::new();
                KeyAction::Nothing
            },
            Key::Enter => {
                self.mode = AppMode::Printing;
                self.status_msg = String::from_str("Printing...");
                KeyAction::Print
            },
            Key::Backspace => {
                let f = self.focused_line;
                let ghost before = self.line_views();
                let mut s = self.lines[f].clone();
                let _ = pop_char(&mut s);
                let ghost sv = s@;
                self.lines[f] = s;
                assert(self.line_views() =~= before.update(f as int, sv));
                KeyAction::RefreshPreview
            },
            Key::Other => KeyAction::Nothing,
        }
    }

    /// Record a freshly rendered preview (or the rendering error's message).
    pub fn set_preview(&mut self, rendered: Result<LabelBitmap, String>)
        ensures
            final(self).lines == old(self).lines,
            final(self).focused_line == old(self).focused_line,
            final(self).font == old(self).font,
            final(self).tape_width_px == old(self).tape_width_px,
            final(self).tape_width_mm == old(self).tape_width_mm,
            final(self).mode == old(self).mode,
            match rendered {
                Ok(bm) => final(self).preview == Some(bm) && final(self).status_msg
                    == old(self).status_msg,
                Err(e) => final(self).preview is None && final(self).status_msg@ == "Preview error: "@
                    + e@,
            },
    {
        match rendered {
            Ok(bm) => self.preview = Some(bm),
            Err(e) => {
                let mut msg = String::from_str("Preview error: ");
                msg.append(e.as_str());
                self.status_msg = msg;
                self.preview = None;
            },
        }
    }

    /// After an edit: record the new preview and clear the status line.
    pub fn preview_after_edit(&mut self, rendered: Result<LabelBitmap, String>)
        ensures
            final(self).lines == old(self).lines,
            final(self).focused_line == old(self).focused_line,
            final(self).font == old(self).font,
            final(self).tape_width_px == old(self).tape_width_px,
            final(self).tape_width_mm == old(self).tape_width_mm,
            final(self).mode == old(self).mode,
            final(self).status_msg@ == Seq::<char>::empty(),
            match rendered {
                Ok(bm) => final(self).preview == Some(bm),
                Err(_) => final(self).preview is None,
            },
    {
        self.set_preview(rendered);
        self.status_msg = String::new();
    }

    /// After a print request: report the outcome and resume editing.
    pub fn print_finished(&mut self, outcome: Result<(), String>)
        ensures
            final(self).lines == old(self).lines,
            final(self).focused_line == old(self).focused_line,
            final(self).font == old(self).font,
            final(self).tape_width_px == old(self).tape_width_px,
            final(self).tape_width_mm == old(self).tape_width_mm,
            final(self).preview == old(self).preview,
            final(self).mode == AppMode::Editing,
            match outcome {
                Ok(()) => final(self).status_msg@ == "Printed!"@,
                Err(e) => final(self).status_msg@ == "Error: "@ + e@,
            },
    {
        match outcome {
            Ok(()) => self.status_msg = String::from_str("Printed!"),
            Err(e) => {
                let mut msg = String::from_str("Error: ");
                msg.append(e.as_str());
                self.status_msg = msg;
            },
        }
        self.mode = AppMode::Editing;
    }

    /// Replace the status line.
    pub fn set_status(&mut self, msg: String)
        ensures
            final(self).status_msg == msg,
            final(self).lines == old(self).lines,
            final(self).focused_line == old(self).focused_line,
            final(self).font == old(self).font,
            final(self).tape_width_px == old(self).tape_width_px,
            final(self).tape_width_mm == old(self).tape_width_mm,
            final(self).preview == old(self).preview,
            final(self).mode == old(self).mode,
    {
        self.status_msg = msg;
    }
}

} // verus!
