//! The state behind the interactive console: two scrollback views side by
//! side (program output and diagnostics) and the prompt's input line.
//!
//! Everything here is pure buffer bookkeeping — which messages are kept,
//! what the top line holds, where a view is scrolled to. Drawing that state
//! onto a terminal is left to the binary that owns one.

use vstd::prelude::*;
use vstd::string::StringExecFns;

verus! {

/// A rectangular region of the screen, in character cells.
#[derive(Clone, Copy, Debug, PartialEq, Eq, Structural)]
pub struct Rect {
    pub x: u16,
    pub y: u16,
    pub width: u16,
    pub height: u16,
}

/// A scrollback over a region: messages newest first, capped at `max`,
/// with `top` the index of the message shown on the region's first row.
pub struct Scrollback {
    pub messages: Vec<String>,
    pub top: usize,
    pub max: usize,
    pub layout: Rect,
}

/// The view keeps at most `max` messages (ten screens' worth), is at least a
/// row tall, and is scrolled to a message it holds.
pub open spec fn view_wf(v: Scrollback) -> bool {
    &&& v.layout.height >= 1
    &&& v.max == v.layout.height as int * 10
    &&& v.messages@.len() <= v.max
    &&& v.top <= v.messages@.len()
}

/// Whether the cell at `(col, row)` lies inside `r`.
pub open spec fn rect_contains(r: Rect, col: u16, row: u16) -> bool {
    &&& r.x <= col
    &&& col < r.x + r.width
    &&& r.y <= row
    &&& row < r.y + r.height
}

/// `v1` is `v0` with `data` appended to the newest message (a first message
/// is opened when there is none); nothing else moved.
pub open spec fn write_post(v0: Scrollback, v1: Scrollback, data: Seq<char>) -> bool {
    &&& v1.top == v0.top
    &&& v1.max == v0.max
    &&& v1.layout == v0.layout
    &&& if v0.messages@.len() == 0 {
        v1.messages@.len() == 1 && v1.messages@[0]@ == data
    } else {
        &&& v1.messages@.len() == v0.messages@.len()
        &&& v1.messages@[0]@ == v0.messages@[0]@ + data
        &&& forall|i: int| 1 <= i < v0.messages@.len() ==> v1.messages@[i] == v0.messages@[i]
    }
}

/// `v1` is `v0` with a fresh empty message in front; at the cap, the oldest
/// message makes room for it.
pub open spec fn shift_post(v0: Scrollback, v1: Scrollback) -> bool {
    &&& v1.top == v0.top
    &&& v1.max == v0.max
    &&& v1.layout == v0.layout
    &&& v1.messages@.len() as int == if v0.messages@.len() < v0.max {
        v0.messages@.len() as int + 1
    } else {
        v0.messages@.len() as int
    }
    &&& v1.messages@[0]@ == Seq::<char>::empty()
    &&& forall|i: int| 1 <= i < v1.messages@.len() ==> v1.messages@[i] == v0.messages@[i - 1]
}

/// `v1` is `v0` with `data` as a new newest message; at the cap, the oldest
/// message makes room for it.
pub open spec fn writeln_post(v0: Scrollback, v1: Scrollback, data: Seq<char>) -> bool {
    &&& v1.top == v0.top
    &&& v1.max == v0.max
    &&& v1.layout == v0.layout
    &&& v1.messages@.len() as int == if v0.messages@.len() < v0.max {
        v0.messages@.len() as int + 1
    } else {
        v0.messages@.len() as int
    }
    &&& v1.messages@[0]@ == data
    &&& forall|i: int| 1 <= i < v1.messages@.len() ==> v1.messages@[i] == v0.messages@[i - 1]
}

/// Where a view scrolled by `delta` ends up: unmoved when everything fits on
/// the region, else clamped between the newest message and the oldest
/// position that still fills the region.
pub open spec fn scroll_top(v: Scrollback, delta: int) -> int {
    if v.messages@.len() <= v.layout.height as int {
        v.top as int
    } else {
        let top_max = v.messages@.len() - v.layout.height as int;
        let want = v.top - delta;
        if want < 0 {
            0
        } else if want > top_max {
            top_max
        } else {
            want
        }
    }
}

/// Relies on `String::push`: appends exactly the one character.
#[verifier::external_body]
fn string_push_char(s: &mut String, c: char)
    ensures
        final(s)@ == old(s)@.push(c),
{
    s.push(c);
}

impl Scrollback {
    /// A view of the region, holding up to ten screens of messages.
    pub fn new(layout: Rect) -> (v: Scrollback)
        requires
            layout.height >= 1,
        ensures
            view_wf(v),
            v.messages@.len() == 0,
            v.top == 0,
            v.layout == layout,
    {
        let max = layout.height as usize * 10;
        Scrollback { messages: Vec::new(), top: 0, max, layout }
    }

    /// Whether the cell at `(col, row)` lies inside this view's region.
    pub fn contains(&self, col: u16, row: u16) -> (r: bool)
        ensures
            r == rect_contains(self.layout, col, row),
    {
        let x = self.layout.x as u32;
        let y = self.layout.y as u32;
        col as u32 >= x && (col as u32) < x + self.layout.width as u32 && row as u32 >= y && (row
            as u32) < y + self.layout.height as u32
    }

    /// Appends `data` to the newest message.
    pub fn write(&mut self, data: &str)
        requires
            view_wf(*old(self)),
        ensures
            view_wf(*final(self)),
            write_post(*old(self), *final(self), data@),
    {
        if self.messages.len() == 0 {
            self.messages.insert(0, data.to_owned());
        } else {
            let mut line = self.messages[0].clone();
            line.append(data);
            self.messages.set(0, line);
        }
    }

    /// Appends one character to the newest message.
    pub fn write_char(&mut self, c: char)
        requires
            view_wf(*old(self)),
        ensures
            view_wf(*final(self)),
            write_post(*old(self), *final(self), seq![c]),
    {
        if self.messages.len() == 0 {
            let mut line = String::new();
            string_push_char(&mut line, c);
            proof {
                assert(line@ =~= seq![c]);
            }
            self.messages.insert(0, line);
        } else {
            let mut line = self.messages[0].clone();
            string_push_char(&mut line, c);
            proof {
                assert(line@ =~= old(self).messages@[0]@ + seq![c]);
            }
            self.messages.set(0, line);
        }
    }

    /// Opens a fresh empty message in front of the others.
    pub fn shift(&mut self)
        requires
            view_wf(*old(self)),
        ensures
            view_wf(*final(self)),
            shift_post(*old(self), *final(self)),
    {
        if self.messages.len() >= self.max {
            let n = self.messages.len();
            self.messages.remove(n - 1);
        }
        self.messages.insert(0, String::new());
    }

    /// Starts `data` as the newest message.
    pub fn writeln(&mut self, data: &str)
        requires
            view_wf(*old(self)),
        ensures
            view_wf(*final(self)),
            writeln_post(*old(self), *final(self), data@),
    {
        self.shift();
        self.messages.set(0, data.to_owned());
    }

    /// Scrolls by `delta`: positive toward newer messages, negative toward
    /// older ones, staying inside the scrollback.
    pub fn scroll(&mut self, delta: i8)
        requires
            view_wf(*old(self)),
        ensures
            view_wf(*final(self)),
            final(self).messages == old(self).messages,
            final(self).max == old(self).max,
            final(self).layout == old(self).layout,
            final(self).top == scroll_top(*old(self), delta as int),
    {
        let height = self.layout.height as usize;
        if self.messages.len() <= height {
            return ;
        }
        let top_max = self.messages.len() - height;
        let want: i64 = self.top as i64 - delta as i64;
        let new_top: usize = if want < 0 {
            0
        } else if want > top_max as i64 {
            top_max
        } else {
            want as usize
        };
        self.top = new_top;
    }

    /// The index of the message shown on the region's first row.
    pub fn top_line(&self) -> (r: usize)
        ensures
            r == self.top,
    {
        self.top
    }
}

/// Which of the two screen areas a message is for.
pub enum Area {
    Output,
    Debug,
}

/// The console's state: the prompt's input line with its cursor, the two
/// scrollback views, a dirty flag for the renderer, and the screen size.
pub struct Stdio {
    pub input: String,
    pub cursor: u16,
    pub output: Scrollback,
    pub debug: Scrollback,
    pub dirty: bool,
    pub width: u16,
    pub height: u16,
}

/// Both views are well formed.
pub open spec fn stdio_wf(s: Stdio) -> bool {
    view_wf(s.output) && view_wf(s.debug)
}

impl Stdio {
    /// A console for a screen of `width` by `height` cells: the output view
    /// on the left half, the diagnostics view on the right, both under the
    /// prompt row and above the footer rows.
    pub fn new(width: u16, height: u16) -> (s: Stdio)
        requires
            height >= 6,
        ensures
            stdio_wf(s),
            s.input@.len() == 0,
            s.cursor == 0,
            s.dirty,
            s.width == width,
            s.height == height,
            s.output.messages@.len() == 0,
            s.debug.messages@.len() == 0,
            s.output.layout == (Rect {
                x: 0,
                y: 2,
                width: (width / 2) as u16,
                height: (height - 5) as u16,
            }),
            s.debug.layout == (Rect {
                x: (width / 2) as u16,
                y: 2,
                width: (width - width / 2) as u16,
                height: (height - 5) as u16,
            }),
    {
        let output_width = width / 2;
        let debug_width = width - output_width;
        let view_height = height - 5;
        let output = Scrollback::new(Rect { x: 0, y: 2, width: output_width, height: view_height });
        let debug = Scrollback::new(
            Rect { x: output_width, y: 2, width: debug_width, height: view_height },
        );
        Stdio {
            input: String::new(),
            cursor: 0,
            output,
            debug,
            dirty: true,
            width,
            height,
        }
    }

    /// Starts `data` as the newest message of the chosen area.
    pub fn writeln(&mut self, data: &str, target: Area) -> (r: Result<(), ()>)
        requires
            stdio_wf(*old(self)),
        ensures
            stdio_wf(*final(self)),
            r is Ok,
            final(self).dirty,
            final(self).input == old(self).input,
            final(self).cursor == old(self).cursor,
            match target {
                Area::Output => writeln_post(old(self).output, final(self).output, data@) && final(self).debug == old(self).debug,
                Area::Debug => writeln_post(old(self).debug, final(self).debug, data@) && final(self).output == old(self).output,
            },
    {
        self.dirty = true;
        match target {
            Area::Output => self.output.writeln(data),
            Area::Debug => self.debug.writeln(data),
        }
        Ok(())
    }

    /// Appends `data` to the newest message of the chosen area.
    pub fn write(&mut self, data: &str, target: Area) -> (r: Result<(), ()>)
        requires
            stdio_wf(*old(self)),
        ensures
            stdio_wf(*final(self)),
            r is Ok,
            final(self).dirty,
            final(self).input == old(self).input,
            final(self).cursor == old(self).cursor,
            match target {
                Area::Output => write_post(old(self).output, final(self).output, data@) && final(self).debug == old(self).debug,
                Area::Debug => write_post(old(self).debug, final(self).debug, data@) && final(self).output == old(self).output,
            },
    {
        self.dirty = true;
        match target {
            Area::Output => self.output.write(data),
            Area::Debug => self.debug.write(data),
        }
        Ok(())
    }

    /// Appends one character to the newest message of the chosen area.
    pub fn write_char(&mut self, c: char, target: Area) -> (r: Result<(), ()>)
        requires
            stdio_wf(*old(self)),
        ensures
            stdio_wf(*final(self)),
            r is Ok,
            final(self).dirty,
            final(self).input == old(self).input,
            final(self).cursor == old(self).cursor,
            match target {
                Area::Output => write_post(old(self).output, final(self).output, seq![c]) && final(self).debug == old(self).debug,
                Area::Debug => write_post(old(self).debug, final(self).debug, seq![c]) && final(self).output == old(self).output,
            },
    {
        self.dirty = true;
        match target {
            Area::Output => self.output.write_char(c),
            Area::Debug => self.debug.write_char(c),
        }
        Ok(())
    }

    /// Ends the newest message of the chosen area: the next write starts a
    /// fresh one.
    pub fn endl(&mut self, target: Area) -> (r: Result<(), ()>)
        requires
            stdio_wf(*old(self)),
        ensures
            stdio_wf(*final(self)),
            r is Ok,
            final(self).dirty,
            final(self).input == old(self).input,
            final(self).cursor == old(self).cursor,
            match target {
                Area::Output => shift_post(old(self).output, final(self).output) && final(self).debug == old(self).debug,
                Area::Debug => shift_post(old(self).debug, final(self).debug) && final(self).output == old(self).output,
            },
    {
        self.dirty = true;
        match target {
            Area::Output => self.output.shift(),
            Area::Debug => self.debug.shift(),
        }
        Ok(())
    }
}

} // verus!
