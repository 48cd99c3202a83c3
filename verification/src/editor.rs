//! The editing session: the cursor and viewport coordinates, the
//! insert/command mode state machine, and the handling of each input
//! signal. `editor_step` is the whole transition table as one relation;
//! `keypress` realises it and then recomputes the scroll offset, so the
//! cursor is visible after every step.

use vstd::prelude::*;

verus! {

use vstd::string::StringExecFns;
use vstd::string::StrSliceExecFns;
use crate::content::Content;
use crate::content::clean;
use crate::content::content_delete_spec;
use crate::content::content_insert_spec;
use crate::content::lemma_delete_preserves_clean;
use crate::content::lemma_insert_preserves_clean;
use crate::content::serialize_spec;
use crate::seg::cluster_count;
use crate::seg::push_char;
use crate::text::split_spaces;
use crate::text::split_on_spaces;
use crate::text::str_eq;

/// The two modes of the session: direct editing, or accumulating a
/// command line.
#[derive(Debug, Clone, Copy, PartialEq, Eq, Structural)]
pub enum Mode {
    Insert,
    Command,
}

/// A (column, row) coordinate: `x` is a grapheme-cluster column within a
/// line, `y` a zero-based line index.
#[derive(Debug, Clone, Copy, PartialEq, Eq, Structural)]
pub struct Position {
    pub x: usize,
    pub y: usize,
}

impl Default for Position {
    /// The origin.
    fn default() -> (r: Position)
        ensures
            r.x == 0 && r.y == 0,
    {
        Position { x: 0, y: 0 }
    }
}

/// One discrete input signal from the terminal collaborator: a typed
/// character (a newline commits or splits), an editing or navigation
/// signal, or a shortcut.
#[derive(Debug, Clone, Copy, PartialEq, Eq, Structural)]
pub enum Signal {
    Char(char),
    Delete,
    Backspace,
    Esc,
    Up,
    Down,
    Left,
    Right,
    Save,
    Quit,
}

/// The cluster count of row `y`, or zero for a row out of range.
pub open spec fn row_len(lines: Seq<Seq<char>>, y: int) -> nat {
    if 0 <= y < lines.len() {
        cluster_count(lines[y])
    } else {
        0
    }
}

/// Where one cursor move lands: vertical moves clamp to the line range,
/// a rightward move stops at the line end, a leftward move stops at
/// column zero (it does not wrap to the previous line), and after the
/// move the column is pulled back to the destination line's length.
pub open spec fn move_cursor_spec(p: Position, key: Signal, lines: Seq<Seq<char>>) -> Position {
    let h = lines.len() as int;
    let y1: int = if key is Up {
        if p.y > 0 {
            p.y - 1
        } else {
            0
        }
    } else if key is Down {
        if p.y < h - 1 {
            p.y + 1
        } else {
            p.y as int
        }
    } else {
        p.y as int
    };
    let w0 = row_len(lines, p.y as int) as int;
    let x1: int = if key is Right {
        if p.x < w0 {
            p.x + 1
        } else {
            p.x as int
        }
    } else if key is Left {
        if p.x > 0 {
            p.x - 1
        } else {
            0
        }
    } else {
        p.x as int
    };
    let w1 = row_len(lines, y1) as int;
    let x2: int = if x1 > w1 {
        w1
    } else {
        x1
    };
    Position { x: x2 as usize, y: y1 as usize }
}

/// `n` cursor moves with the same key, one after the other.
pub open spec fn move_cursor_iter(p: Position, key: Signal, lines: Seq<Seq<char>>, n: nat) -> Position
    decreases n,
{
    if n == 0 {
        p
    } else {
        move_cursor_iter(move_cursor_spec(p, key, lines), key, lines, (n - 1) as nat)
    }
}

/// Moving left as many times as the column holds drains it to zero, for
/// a column within its line.
pub proof fn lemma_left_drain(p: Position, lines: Seq<Seq<char>>, n: nat)
    requires
        p.x == n,
        p.x <= row_len(lines, p.y as int),
    ensures
        move_cursor_iter(p, Signal::Left, lines, n) == (Position { x: 0, y: p.y }),
    decreases n,
{
    if n > 0 {
        let p1 = move_cursor_spec(p, Signal::Left, lines);
        assert(p1 == (Position { x: (p.x - 1) as usize, y: p.y }));
        lemma_left_drain(p1, lines, (n - 1) as nat);
    }
}

/// The scroll offset after a move: each axis is pulled up to the cursor
/// when the cursor is above or left of the window, and pushed down just
/// far enough when the cursor is at or beyond the far edge.
pub open spec fn scroll_spec(pos: Position, off: Position, width: usize, height: usize) -> Position
    recommends
        1 <= width,
        2 <= height,
{
    let oy: usize = if pos.y < off.y {
        pos.y
    } else if pos.y >= off.y.saturating_add((height - 1) as usize) {
        pos.y.saturating_sub((height - 2) as usize)
    } else {
        off.y
    };
    let ox: usize = if pos.x < off.x {
        pos.x
    } else if pos.x >= off.x.saturating_add(width) {
        pos.x.saturating_sub(width).saturating_add(1)
    } else {
        off.x
    };
    Position { x: ox, y: oy }
}

/// The name shown for a mode.
pub open spec fn mode_name(m: Mode) -> Seq<char> {
    if m is Insert {
        "INSERT"@
    } else {
        "COMMAND"@
    }
}

/// `n` spaces of padding.
pub open spec fn spaces(n: int) -> Seq<char> {
    Seq::new(n as nat, |i: int| ' ')
}

/// The first status row: the destination and the mode name in brackets,
/// padded with spaces or cut to exactly `width` columns.
pub open spec fn status_bar_spec(filename: Seq<char>, mode: Mode, width: int) -> Seq<char> {
    let full = "["@ + filename + "] ["@ + mode_name(mode) + "]"@;
    if full.len() >= width {
        full.take(width)
    } else {
        full + spaces(width - full.len())
    }
}

/// The session: the buffer, the cursor, the scroll offset, the mode
/// state machine with its command accumulator and status line, and the
/// visible window's size.
#[derive(Debug)]
pub struct Editor {
    pub quitting: bool,
    pub position: Position,
    pub content: Content,
    pub offset: Position,
    pub status_message: String,
    pub mode: Mode,
    pub command_buf: String,
    pub width: usize,
    pub height: usize,
}

/// The window size is never changed by a step.
pub open spec fn keeps_frame(pre: Editor, post: Editor) -> bool {
    &&& post.width == pre.width
    &&& post.height == pre.height
}

/// A step that changes nothing but, possibly, the scroll offset.
pub open spec fn same_core(pre: Editor, post: Editor) -> bool {
    &&& post.content == pre.content
    &&& post.position == pre.position
    &&& post.mode == pre.mode
    &&& post.status_message == pre.status_message
    &&& post.command_buf == pre.command_buf
    &&& post.quitting == pre.quitting
    &&& keeps_frame(pre, post)
}

/// The first token selects a save.
pub open spec fn is_save_token(t: Seq<char>) -> bool {
    t == "s"@ || t == "save"@
}

/// The first token selects a quit.
pub open spec fn is_quit_token(t: Seq<char>) -> bool {
    t == "q"@ || t == "quit"@
}

/// What one character does in command mode. A newline commits: the
/// accumulator is split on spaces, the first token picks save, quit or
/// the error status, the accumulator is cleared, and the mode returns to
/// insert. Any other character is accumulated and echoed after the
/// prompt. The scroll offset is not constrained here.
pub open spec fn command_step(pre: Editor, post: Editor, c: char, r: Option<String>) -> bool {
    if c == '\n' {
        let toks = split_spaces(pre.command_buf@);
        &&& post.command_buf@ == Seq::<char>::empty()
        &&& post.mode is Insert
        &&& post.position == pre.position
        &&& keeps_frame(pre, post)
        &&& if is_save_token(toks[0]) {
            let fname = if toks.len() > 1 {
                toks[1]
            } else {
                pre.content.spec_filename()
            };
            &&& post.content@ == pre.content@
            &&& post.content.spec_filename() == fname
            &&& post.quitting == pre.quitting
            &&& if fname.len() == 0 {
                r is None && post.status_message@ == "Not saved! Need to specify the file name!"@
            } else {
                (r matches Some(text) && text@ == serialize_spec(pre.content@))
                    && post.status_message == pre.status_message
            }
        } else if is_quit_token(toks[0]) {
            &&& post.quitting == true
            &&& post.content == pre.content
            &&& post.status_message == pre.status_message
            &&& r is None
        } else {
            &&& post.content == pre.content
            &&& post.quitting == pre.quitting
            &&& post.status_message@ == "Invalid command: "@ + pre.command_buf@
            &&& r is None
        }
    } else {
        &&& post.command_buf@ == pre.command_buf@ + seq![c]
        &&& post.status_message@ == "> "@ + pre.command_buf@ + seq![c]
        &&& post.mode == pre.mode
        &&& post.content == pre.content
        &&& post.position == pre.position
        &&& post.quitting == pre.quitting
        &&& keeps_frame(pre, post)
        &&& r is None
    }
}

/// What a save request does: with no destination set it only reports the
/// failure; otherwise it yields the text to persist and leaves the
/// status to the write's outcome. The scroll offset is not constrained.
pub open spec fn save_step(pre: Editor, post: Editor, r: Option<String>) -> bool {
    &&& post.content == pre.content
    &&& post.position == pre.position
    &&& post.mode == pre.mode
    &&& post.command_buf == pre.command_buf
    &&& post.quitting == pre.quitting
    &&& keeps_frame(pre, post)
    &&& if pre.content.spec_filename().len() == 0 {
        r is None && post.status_message@ == "Not saved! Need to specify the file name!"@
    } else {
        (r matches Some(text) && text@ == serialize_spec(pre.content@)) && post.status_message
            == pre.status_message
    }
}

/// The whole transition table for one input signal, scroll offset aside:
/// which fields change, to what, and what text (if any) is handed out to
/// be persisted.
pub open spec fn editor_step(pre: Editor, post: Editor, key: Signal, r: Option<String>) -> bool {
    match (key, pre.mode) {
        (Signal::Quit, Mode::Insert) => {
            &&& post.quitting == true
            &&& post.content == pre.content
            &&& post.position == pre.position
            &&& post.mode == pre.mode
            &&& post.status_message == pre.status_message
            &&& post.command_buf == pre.command_buf
            &&& keeps_frame(pre, post)
            &&& r is None
        },
        (Signal::Delete, Mode::Insert) => {
            &&& post.content@ == content_delete_spec(
                pre.content@,
                pre.position.x as int,
                pre.position.y as int,
            )
            &&& post.content.spec_filename() == pre.content.spec_filename()
            &&& post.position == pre.position
            &&& post.mode == pre.mode
            &&& post.status_message == pre.status_message
            &&& post.command_buf == pre.command_buf
            &&& post.quitting == pre.quitting
            &&& keeps_frame(pre, post)
            &&& r is None
        },
        (Signal::Backspace, Mode::Insert) => {
            if pre.position.x > 0 || pre.position.y > 0 {
                let p1 = move_cursor_spec(pre.position, Signal::Left, pre.content@);
                &&& post.position == p1
                &&& post.content@ == content_delete_spec(pre.content@, p1.x as int, p1.y as int)
                &&& post.content.spec_filename() == pre.content.spec_filename()
                &&& post.mode == pre.mode
                &&& post.status_message == pre.status_message
                &&& post.command_buf == pre.command_buf
                &&& post.quitting == pre.quitting
                &&& keeps_frame(pre, post)
                &&& r is None
            } else {
                same_core(pre, post) && r is None
            }
        },
        (Signal::Char(c), Mode::Command) => command_step(pre, post, c, r),
        (Signal::Esc, Mode::Command) => {
            &&& post.mode is Insert
            &&& post.command_buf@ == Seq::<char>::empty()
            &&& post.content == pre.content
            &&& post.position == pre.position
            &&& post.status_message == pre.status_message
            &&& post.quitting == pre.quitting
            &&& keeps_frame(pre, post)
            &&& r is None
        },
        (Signal::Esc, Mode::Insert) => {
            &&& post.mode is Command
            &&& post.status_message@ == ">"@
            &&& post.command_buf == pre.command_buf
            &&& post.content == pre.content
            &&& post.position == pre.position
            &&& post.quitting == pre.quitting
            &&& keeps_frame(pre, post)
            &&& r is None
        },
        (Signal::Char(c), Mode::Insert) => {
            &&& post.content@ == content_insert_spec(
                pre.content@,
                pre.position.x as int,
                pre.position.y as int,
                c,
            )
            &&& post.content.spec_filename() == pre.content.spec_filename()
            &&& post.mode == pre.mode
            &&& post.status_message == pre.status_message
            &&& post.command_buf == pre.command_buf
            &&& post.quitting == pre.quitting
            &&& keeps_frame(pre, post)
            &&& r is None
            &&& if c == '\n' {
                post.position == (Position {
                    x: 0usize,
                    y: move_cursor_spec(pre.position, Signal::Down, post.content@).y,
                })
            } else {
                post.position == move_cursor_spec(pre.position, Signal::Right, post.content@)
            }
        },
        (Signal::Save, Mode::Insert) => save_step(pre, post, r),
        (Signal::Up, Mode::Insert)
        | (Signal::Down, Mode::Insert)
        | (Signal::Left, Mode::Insert)
        | (Signal::Right, Mode::Insert) => {
            &&& post.position == move_cursor_spec(pre.position, key, pre.content@)
            &&& post.content == pre.content
            &&& post.mode == pre.mode
            &&& post.status_message == pre.status_message
            &&& post.command_buf == pre.command_buf
            &&& post.quitting == pre.quitting
            &&& keeps_frame(pre, post)
            &&& r is None
        },
        _ => same_core(pre, post) && r is None,
    }
}

impl Editor {
    /// The buffer is well-formed and the window is big enough to show a
    /// text row, a status row, and at least one column.
    pub open spec fn wf(self) -> bool {
        &&& self.content.wf()
        &&& 1 <= self.width
        &&& 2 <= self.height
    }

    /// The cursor lies inside the visible window on both axes (the last
    /// window row is the status bar).
    pub open spec fn cursor_visible(self) -> bool {
        &&& self.offset.y <= self.position.y
        &&& self.position.y < self.offset.y + self.height - 1
        &&& self.offset.x <= self.position.x
        &&& self.position.x < self.offset.x + self.width
    }

    /// A fresh session over `content` in a window of `width` columns and
    /// `height` rows: cursor and offset at the origin, insert mode, no
    /// status, empty command accumulator.
    pub fn new(content: Content, width: usize, height: usize) -> (r: Editor)
        requires
            content.wf(),
            1 <= width,
            2 <= height,
        ensures
            r.wf(),
            r.content == content,
            r.position == (Position { x: 0, y: 0 }),
            r.offset == (Position { x: 0, y: 0 }),
            r.mode is Insert,
            r.quitting == false,
            r.status_message@ == Seq::<char>::empty(),
            r.command_buf@ == Seq::<char>::empty(),
            r.width == width,
            r.height == height,
    {
        Editor {
            quitting: false,
            position: Position { x: 0, y: 0 },
            content,
            offset: Position { x: 0, y: 0 },
            status_message: String::new(),
            mode: Mode::Insert,
            command_buf: String::new(),
            width,
            height,
        }
    }

    /// The visible window's width in columns.
    pub fn width(&self) -> (r: usize)
        ensures
            r == self.width,
    {
        self.width
    }

    /// The visible window's height in rows.
    pub fn height(&self) -> (r: usize)
        ensures
            r == self.height,
    {
        self.height
    }

    /// Moves the cursor one step; any signal that is not an arrow leaves
    /// it in place (but still re-clamps the column).
    pub fn move_cursor(&mut self, key: Signal)
        requires
            old(self).wf(),
        ensures
            final(self).wf(),
            final(self).position == move_cursor_spec(old(self).position, key, old(self).content@),
            final(self).content == old(self).content,
            final(self).offset == old(self).offset,
            final(self).mode == old(self).mode,
            final(self).status_message == old(self).status_message,
            final(self).command_buf == old(self).command_buf,
            final(self).quitting == old(self).quitting,
            keeps_frame(*old(self), *final(self)),
    {
        let mut y = self.position.y;
        let mut x = self.position.x;
        let height = self.content.lines_count();
        let width = match self.content.line(y) {
            Some(line) => line.len(),
            None => 0,
        };
        match key {
            Signal::Up => {
                if y > 0 {
                    y = y - 1;
                }
            },
            Signal::Down => {
                if height > 0 && y < height - 1 {
                    y = y + 1;
                }
            },
            Signal::Right => {
                if x < width {
                    x = x + 1;
                }
            },
            Signal::Left => {
                if x > 0 {
                    x = x - 1;
                }
            },
            _ => {},
        }
        let width2 = match self.content.line(y) {
            Some(line) => line.len(),
            None => 0,
        };
        if x > width2 {
            x = width2;
        }
        self.position = Position { x, y };
    }

    /// Moves the cursor `repeat` steps with the same key.
    pub fn move_cursor_repeat(&mut self, key: Signal, repeat: usize)
        requires
            old(self).wf(),
        ensures
            final(self).wf(),
            final(self).position == move_cursor_iter(
                old(self).position,
                key,
                old(self).content@,
                repeat as nat,
            ),
            final(self).content == old(self).content,
            final(self).offset == old(self).offset,
            final(self).mode == old(self).mode,
            final(self).status_message == old(self).status_message,
            final(self).command_buf == old(self).command_buf,
            final(self).quitting == old(self).quitting,
            keeps_frame(*old(self), *final(self)),
    {
        let mut i: usize = 0;
        while i < repeat
            invariant
                i <= repeat,
                self.wf(),
                self.content == old(self).content,
                self.offset == old(self).offset,
                self.mode == old(self).mode,
                self.status_message == old(self).status_message,
                self.command_buf == old(self).command_buf,
                self.quitting == old(self).quitting,
                self.width == old(self).width,
                self.height == old(self).height,
                move_cursor_iter(self.position, key, old(self).content@, (repeat - i) as nat)
                    == move_cursor_iter(old(self).position, key, old(self).content@, repeat as nat),
            decreases repeat - i,
        {
            self.move_cursor(key);
            i = i + 1;
        }
    }

    /// Recomputes the scroll offset from the cursor; afterwards the
    /// cursor is visible.
    pub fn scroll(&mut self)
        requires
            old(self).wf(),
        ensures
            final(self).wf(),
            final(self).offset == scroll_spec(
                old(self).position,
                old(self).offset,
                old(self).width,
                old(self).height,
            ),
            final(self).cursor_visible(),
            final(self).content == old(self).content,
            final(self).position == old(self).position,
            final(self).mode == old(self).mode,
            final(self).status_message == old(self).status_message,
            final(self).command_buf == old(self).command_buf,
            final(self).quitting == old(self).quitting,
            keeps_frame(*old(self), *final(self)),
    {
        let y = self.position.y;
        let x = self.position.x;
        if y < self.offset.y {
            self.offset.y = y;
        } else if y >= self.offset.y.saturating_add(self.height - 1) {
            self.offset.y = y.saturating_sub(self.height - 2);
        }
        if x < self.offset.x {
            self.offset.x = x;
        } else if x >= self.offset.x.saturating_add(self.width) {
            self.offset.x = x.saturating_sub(self.width).saturating_add(1);
        }
    }

    /// Switches mode: entering insert discards any accumulated command;
    /// entering command shows the prompt.
    pub fn enter_mode(&mut self, mode: Mode)
        requires
            old(self).wf(),
        ensures
            final(self).wf(),
            final(self).mode == mode,
            mode is Insert ==> final(self).command_buf@ == Seq::<char>::empty(),
            mode is Insert ==> final(self).status_message == old(self).status_message,
            mode is Command ==> final(self).status_message@ == ">"@,
            mode is Command ==> final(self).command_buf == old(self).command_buf,
            final(self).content == old(self).content,
            final(self).position == old(self).position,
            final(self).offset == old(self).offset,
            final(self).quitting == old(self).quitting,
            keeps_frame(*old(self), *final(self)),
    {
        match mode {
            Mode::Insert => {
                self.command_buf = String::new();
                self.mode = Mode::Insert;
            },
            Mode::Command => {
                self.mode = Mode::Command;
                self.status_message = String::from_str(">");
            },
        }
    }

    /// The name of a mode, for the status bar.
    pub fn return_mode(mode: &Mode) -> (r: String)
        ensures
            mode is Insert ==> r@ == "INSERT"@,
            mode is Command ==> r@ == "COMMAND"@,
    {
        match mode {
            Mode::Insert => String::from_str("INSERT"),
            Mode::Command => String::from_str("COMMAND"),
        }
    }

    /// Decides a save request: with no destination set it reports the
    /// failure and hands nothing out; otherwise it hands back the text
    /// to persist, and the shell reports the write's outcome through
    /// `save_finish`.
    pub fn save_file(&mut self) -> (r: Option<String>)
        requires
            old(self).wf(),
        ensures
            final(self).wf(),
            save_step(*old(self), *final(self), r),
            final(self).offset == old(self).offset,
    {
        match self.content.save() {
            Ok(text) => Some(text),
            Err(_) => {
                self.status_message = String::from_str(
                    "Not saved! Need to specify the file name!",
                );
                None
            },
        }
    }

    /// Records the outcome the shell reports after writing the text a
    /// save handed out.
    pub fn save_finish(&mut self, ok: bool)
        requires
            old(self).wf(),
        ensures
            final(self).wf(),
            ok ==> final(self).status_message@ == "File saved as: "@ + old(self).content.spec_filename(),
            !ok ==> final(self).status_message@ == "Not saved! Error saving the file!"@,
            final(self).content == old(self).content,
            final(self).position == old(self).position,
            final(self).offset == old(self).offset,
            final(self).mode == old(self).mode,
            final(self).command_buf == old(self).command_buf,
            final(self).quitting == old(self).quitting,
            keeps_frame(*old(self), *final(self)),
    {
        if ok {
            let mut msg = String::from_str("File saved as: ");
            msg.append(self.content.filename().as_str());
            self.status_message = msg;
        } else {
            self.status_message = String::from_str("Not saved! Error saving the file!");
        }
    }

    /// Takes one character in command mode: a newline commits the
    /// accumulated command, anything else is accumulated and echoed.
    pub fn enter_command(&mut self, c: char) -> (r: Option<String>)
        requires
            old(self).wf(),
        ensures
            final(self).wf(),
            command_step(*old(self), *final(self), c, r),
            final(self).offset == old(self).offset,
    {
        if c == '\n' {
            let ghost toks_spec = split_spaces(self.command_buf@);
            let toks = split_on_spaces(self.command_buf.as_str());
            proof {
                assert(toks@.len() == toks_spec.len());
                assert(toks_spec.len() >= 1);
                assert(toks@[0]@ == toks_spec[0]);
            }
            let r: Option<String>;
            if str_eq(toks[0].as_str(), "s") || str_eq(toks[0].as_str(), "save") {
                if toks.len() > 1 {
                    proof {
                        assert(toks@[1]@ == toks_spec[1]);
                    }
                    self.content.set_file_name(toks[1].as_str());
                }
                r = self.save_file();
            } else if str_eq(toks[0].as_str(), "q") || str_eq(toks[0].as_str(), "quit") {
                self.quitting = true;
                r = None;
            } else {
                let mut msg = String::from_str("Invalid command: ");
                msg.append(self.command_buf.as_str());
                self.status_message = msg;
                r = None;
            }
            self.command_buf = String::new();
            self.enter_mode(Mode::Insert);
            r
        } else {
            push_char(&mut self.command_buf, c);
            let mut msg = String::from_str("> ");
            msg.append(self.command_buf.as_str());
            self.status_message = msg;
            proof {
                assert("> "@ + (old(self).command_buf@ + seq![c]) =~= "> "@ + old(
                    self,
                ).command_buf@ + seq![c]);
            }
            None
        }
    }

    /// The first status row, exactly as wide as the window.
    pub fn status_bar_text(&self) -> (r: String)
        requires
            self.wf(),
        ensures
            r@ == status_bar_spec(self.content.spec_filename(), self.mode, self.width as int),
    {
        let mut s = String::from_str("[");
        s.append(self.content.filename().as_str());
        s.append("] [");
        let m = Editor::return_mode(&self.mode);
        s.append(m.as_str());
        s.append("]");
        let ghost full = "["@ + self.content.spec_filename() + "] ["@ + mode_name(self.mode)
            + "]"@;
        proof {
            assert(s@ =~= full);
        }
        let n = s.as_str().unicode_len();
        if n >= self.width {
            let t = s.as_str().substring_char(0, self.width);
            let r = String::from_str(t);
            proof {
                assert(r@ =~= full.take(self.width as int));
            }
            r
        } else {
            let ghost base = s@;
            let mut i = n;
            proof {
                assert(base + spaces(0) =~= base);
            }
            while i < self.width
                invariant
                    n <= i <= self.width,
                    base.len() == n,
                    base == full,
                    s@ == base + spaces(i - n),
                decreases self.width - i,
            {
                s.append(" ");
                proof {
                    reveal_strlit(" ");
                    assert(base + spaces(i + 1 - n) =~= (base + spaces(i - n)) + " "@);
                }
                i = i + 1;
            }
            s
        }
    }

    /// The second status row: the last status message in brackets.
    pub fn status_message_text(&self) -> (r: String)
        ensures
            r@ == "["@ + self.status_message@ + "]"@,
    {
        let mut s = String::from_str("[");
        s.append(self.status_message.as_str());
        s.append("]");
        s
    }

    /// Handles one input signal as the transition table says, then
    /// recomputes the scroll offset, so the cursor ends visible. A save
    /// request hands back the text to persist.
    pub fn keypress(&mut self, key: Signal) -> (r: Option<String>)
        requires
            old(self).wf(),
        ensures
            final(self).wf(),
            editor_step(*old(self), *final(self), key, r),
            final(self).offset == scroll_spec(
                final(self).position,
                old(self).offset,
                old(self).width,
                old(self).height,
            ),
            final(self).cursor_visible(),
    {
        let r: Option<String>;
        match (key, self.mode) {
            (Signal::Quit, Mode::Insert) => {
                self.quitting = true;
                r = None;
            },
            (Signal::Delete, Mode::Insert) => {
                let p = self.position;
                self.content.delete(&p);
                r = None;
            },
            (Signal::Backspace, Mode::Insert) => {
                if self.position.x > 0 || self.position.y > 0 {
                    self.move_cursor(Signal::Left);
                    let p = self.position;
                    self.content.delete(&p);
                }
                r = None;
            },
            (Signal::Char(c), Mode::Command) => {
                r = self.enter_command(c);
            },
            (Signal::Esc, Mode::Command) => {
                self.enter_mode(Mode::Insert);
                r = None;
            },
            (Signal::Esc, Mode::Insert) => {
                self.enter_mode(Mode::Command);
                r = None;
            },
            (Signal::Char(c), Mode::Insert) => {
                let p = self.position;
                self.content.insert(&p, c);
                if c == '\n' {
                    let hc = self.content.lines_count();
                    self.move_cursor(Signal::Down);
                    let ghost pdown = self.position;
                    let n = self.position.x;
                    self.move_cursor_repeat(Signal::Left, n);
                    proof {
                        let lines = self.content@;
                        assert(lines.len() == hc);
                        let w1 = row_len(lines, pdown.y as int) as int;
                        assert(pdown.x <= w1) by {
                            assert(pdown == move_cursor_spec(old(self).position, Signal::Down, lines));
                        }
                        lemma_left_drain(pdown, lines, n as nat);
                    }
                } else {
                    self.move_cursor(Signal::Right);
                }
                r = None;
            },
            (Signal::Save, Mode::Insert) => {
                r = self.save_file();
            },
            (Signal::Up, Mode::Insert)
            | (Signal::Down, Mode::Insert)
            | (Signal::Left, Mode::Insert)
            | (Signal::Right, Mode::Insert) => {
                self.move_cursor(key);
                r = None;
            },
            _ => {
                r = None;
            },
        }
        self.scroll();
        r
    }
}

/// No keypress ever puts a terminator or carriage return into a line:
/// any step of the transition table keeps a clean buffer clean, as long
/// as the typed character is no carriage return. With the buffer laws
/// on persisting, a buffer typed from an empty one always round-trips
/// through its saved text.
pub proof fn lemma_keypress_preserves_clean(
    pre: Editor,
    post: Editor,
    key: Signal,
    r: Option<String>,
)
    requires
        pre.wf(),
        clean(pre.content@),
        editor_step(pre, post, key, r),
        key matches Signal::Char(c) ==> c != '\r',
    ensures
        clean(post.content@),
{
    match (key, pre.mode) {
        (Signal::Delete, Mode::Insert) => {
            lemma_delete_preserves_clean(pre.content, pre.position);
        },
        (Signal::Backspace, Mode::Insert) => {
            if pre.position.x > 0 || pre.position.y > 0 {
                let p1 = move_cursor_spec(pre.position, Signal::Left, pre.content@);
                lemma_delete_preserves_clean(pre.content, p1);
            }
        },
        (Signal::Char(c), Mode::Insert) => {
            lemma_insert_preserves_clean(pre.content, pre.position, c);
        },
        _ => {},
    }
}

} // verus!
