//! What to draw: the renderer compares the framebuffer with what it drew
//! last and gives the commands that bring the physical terminal up to date.
//! Sending the commands to the terminal is left to the caller.

use crate::terminal::{spec_blank, Attributes, Cell, Color, Framebuffer};
use vstd::prelude::*;
use vstd::string::StringSliceAdditionalSpecFns;

verus! {

/// A rendition attribute of the physical terminal.
#[derive(Debug, Clone, Copy, PartialEq, Eq, Structural)]
pub enum TextAttribute {
    Bold,
    Italic,
    Underlined,
    SlowBlink,
    Reverse,
    Hidden,
    CrossedOut,
}

/// One command to the physical terminal.
#[derive(Debug, Clone, Copy, PartialEq, Eq, Structural)]
pub enum DrawCommand {
    HideCursor,
    ShowCursor,
    ClearAll,
    MoveTo { col: u16, row: u16 },
    SetForeground(Color),
    SetBackground(Color),
    /// Resets the attributes, and with them the colours.
    ResetAttributes,
    ResetColor,
    SetAttribute(TextAttribute),
    Print(char),
}

/// The rendition that the physical terminal is in while cells are drawn.
#[derive(Debug, Clone, Copy, PartialEq, Eq, Structural)]
pub struct DrawState {
    pub fg: Color,
    pub bg: Color,
    pub attrs: Attributes,
}

/// A list of commands with one more where a condition holds.
pub open spec fn spec_push_if(
    commands: Seq<DrawCommand>,
    wanted: bool,
    command: DrawCommand,
) -> Seq<DrawCommand> {
    if wanted {
        commands.push(command)
    } else {
        commands
    }
}

/// A list of commands with those that set the attributes of a cell after a
/// reset.
pub open spec fn spec_with_attributes(commands: Seq<DrawCommand>, a: Attributes) -> Seq<
    DrawCommand,
> {
    let c1 = spec_push_if(commands, a.bold, DrawCommand::SetAttribute(TextAttribute::Bold));
    let c2 = spec_push_if(c1, a.italic, DrawCommand::SetAttribute(TextAttribute::Italic));
    let c3 = spec_push_if(c2, a.underline, DrawCommand::SetAttribute(TextAttribute::Underlined));
    let c4 = spec_push_if(c3, a.blink, DrawCommand::SetAttribute(TextAttribute::SlowBlink));
    let c5 = spec_push_if(c4, a.inverse, DrawCommand::SetAttribute(TextAttribute::Reverse));
    let c6 = spec_push_if(c5, a.invisible, DrawCommand::SetAttribute(TextAttribute::Hidden));
    spec_push_if(c6, a.strikethrough, DrawCommand::SetAttribute(TextAttribute::CrossedOut))
}

/// A list of commands with those that draw one cell from a given
/// rendition.
///
/// A colour that differs from the last one is set. Attributes that differ
/// are reset and set anew, and with them the colours that are not the
/// default. The character is printed last.
pub open spec fn spec_with_cell(commands: Seq<DrawCommand>, cell: Cell, last: DrawState) -> Seq<
    DrawCommand,
> {
    let c1 = spec_push_if(commands, cell.fg != last.fg, DrawCommand::SetForeground(cell.fg));
    let c2 = spec_push_if(c1, cell.bg != last.bg, DrawCommand::SetBackground(cell.bg));
    let c3 = if cell.attrs != last.attrs {
        spec_with_attributes(
            spec_push_if(
                spec_push_if(
                    c2.push(DrawCommand::ResetAttributes),
                    cell.fg != Color::Default,
                    DrawCommand::SetForeground(cell.fg),
                ),
                cell.bg != Color::Default,
                DrawCommand::SetBackground(cell.bg),
            ),
            cell.attrs,
        )
    } else {
        c2
    };
    c3.push(DrawCommand::Print(cell.character))
}

/// The rendition that the physical terminal is in after a cell is drawn.
pub open spec fn spec_state_after(cell: Cell, last: DrawState) -> DrawState {
    DrawState { fg: cell.fg, bg: cell.bg, attrs: cell.attrs }
}

/// Appends a command where a condition holds.
fn push_if(out: &mut Vec<DrawCommand>, wanted: bool, command: DrawCommand)
    ensures
        final(out)@ == spec_push_if(old(out)@, wanted, command),
{
    if wanted {
        out.push(command);
    }
}

/// Appends the commands that set the attributes of a cell after a reset.
fn push_attributes(out: &mut Vec<DrawCommand>, a: Attributes)
    ensures
        final(out)@ == spec_with_attributes(old(out)@, a),
{
    push_if(out, a.bold, DrawCommand::SetAttribute(TextAttribute::Bold));
    push_if(out, a.italic, DrawCommand::SetAttribute(TextAttribute::Italic));
    push_if(out, a.underline, DrawCommand::SetAttribute(TextAttribute::Underlined));
    push_if(out, a.blink, DrawCommand::SetAttribute(TextAttribute::SlowBlink));
    push_if(out, a.inverse, DrawCommand::SetAttribute(TextAttribute::Reverse));
    push_if(out, a.invisible, DrawCommand::SetAttribute(TextAttribute::Hidden));
    push_if(out, a.strikethrough, DrawCommand::SetAttribute(TextAttribute::CrossedOut));
}

/// Appends the commands that draw one cell, and notes the rendition that
/// the terminal is in afterwards.
pub fn emit_cell(out: &mut Vec<DrawCommand>, cell: &Cell, last: &mut DrawState)
    ensures
        final(out)@ == spec_with_cell(old(out)@, *cell, *old(last)),
        *final(last) == spec_state_after(*cell, *old(last)),
{
    let changed_fg = cell.fg != last.fg;
    let changed_bg = cell.bg != last.bg;
    let changed_attrs = cell.attrs != last.attrs;
    push_if(out, changed_fg, DrawCommand::SetForeground(cell.fg));
    push_if(out, changed_bg, DrawCommand::SetBackground(cell.bg));
    if changed_attrs {
        out.push(DrawCommand::ResetAttributes);
        push_if(out, cell.fg != Color::Default, DrawCommand::SetForeground(cell.fg));
        push_if(out, cell.bg != Color::Default, DrawCommand::SetBackground(cell.bg));
        push_attributes(out, cell.attrs);
    }
    out.push(DrawCommand::Print(cell.character));
    last.fg = cell.fg;
    last.bg = cell.bg;
    last.attrs = cell.attrs;
}

/// A position on the physical terminal: the low sixteen bits of a row or
/// column.
pub open spec fn spec_coordinate(at: usize) -> u16 {
    (at % 0x1_0000) as u16
}

/// A position on the physical terminal.
pub fn coordinate(at: usize) -> (c: u16)
    ensures
        c == spec_coordinate(at),
{
    (at % 0x1_0000) as u16
}

/// One pass over the screen, as far as it has come: the commands given,
/// the rendition that the terminal is in, and the place after the cell
/// that was drawn last, if one was drawn.
pub ghost struct Drawing {
    pub commands: Seq<DrawCommand>,
    pub state: DrawState,
    pub at: Option<(usize, usize)>,
}

/// A pass with one more cell drawn.
pub open spec fn spec_draw_cell(d: Drawing, cell: Cell) -> Drawing {
    Drawing {
        commands: spec_with_cell(d.commands, cell, d.state),
        state: spec_state_after(cell, d.state),
        at: d.at,
    }
}

/// A pass that draws all, after the first `upto` cells of a row: the
/// terminal's cursor is moved to the start of the row, then each cell is
/// drawn.
pub open spec fn spec_full_row(fb: &Framebuffer, row: int, upto: int, d: Drawing) -> Drawing
    decreases upto,
{
    if upto <= 0 {
        Drawing {
            commands: d.commands.push(
                DrawCommand::MoveTo { col: 0, row: spec_coordinate(row as usize) },
            ),
            ..d
        }
    } else {
        spec_draw_cell(spec_full_row(fb, row, upto - 1, d), fb.cell(row, upto - 1))
    }
}

/// A pass that draws all, after the first `upto` rows.
pub open spec fn spec_full_rows(fb: &Framebuffer, upto: int, d: Drawing) -> Drawing
    decreases upto,
{
    if upto <= 0 {
        d
    } else {
        spec_full_row(fb, upto - 1, fb.width as int, spec_full_rows(fb, upto - 1, d))
    }
}

/// A pass that draws what has changed, after one more cell: a cell that
/// is as it was drawn last is passed over; for another the terminal's
/// cursor is moved to it, unless it stands there already, and the cell is
/// drawn.
pub open spec fn spec_changed_cell(d: Drawing, cell: Cell, drawn: Cell, row: usize, col: usize) -> Drawing {
    if cell == drawn {
        d
    } else {
        Drawing {
            commands: spec_with_cell(
                spec_push_if(
                    d.commands,
                    d.at != Some((row, col)),
                    DrawCommand::MoveTo { col: spec_coordinate(col), row: spec_coordinate(row) },
                ),
                cell,
                d.state,
            ),
            state: spec_state_after(cell, d.state),
            at: Some((row, (col + 1) as usize)),
        }
    }
}

/// A pass that draws what has changed, after the first `upto` cells of a
/// row; `drawn` is the grid as it was drawn last.
pub open spec fn spec_changed_row(
    fb: &Framebuffer,
    drawn: Seq<Vec<Cell>>,
    row: int,
    upto: int,
    d: Drawing,
) -> Drawing
    decreases upto,
{
    if upto <= 0 {
        d
    } else {
        spec_changed_cell(
            spec_changed_row(fb, drawn, row, upto - 1, d),
            fb.cell(row, upto - 1),
            drawn[row]@[upto - 1],
            row as usize,
            (upto - 1) as usize,
        )
    }
}

/// A pass that draws what has changed, after the first `upto` rows.
pub open spec fn spec_changed_rows(fb: &Framebuffer, drawn: Seq<Vec<Cell>>, upto: int, d: Drawing) -> Drawing
    decreases upto,
{
    if upto <= 0 {
        d
    } else {
        spec_changed_row(
            fb,
            drawn,
            upto - 1,
            fb.width as int,
            spec_changed_rows(fb, drawn, upto - 1, d),
        )
    }
}

/// The rendition that a pass begins in.
pub open spec fn spec_plain_state() -> DrawState {
    DrawState {
        fg: Color::Default,
        bg: Color::Default,
        attrs: crate::terminal::spec_plain(),
    }
}

/// The renderer: what it drew last, and whether all is to be drawn again.
pub struct Renderer {
    pub prev_cells: Vec<Vec<Cell>>,
    pub prev_cursor: (usize, usize),
    pub prev_cursor_visible: bool,
    pub width: usize,
    pub height: usize,
    pub force_redraw: bool,
}

/// A grid of empty cells.
fn empty_grid(width: usize, height: usize) -> (cells: Vec<Vec<Cell>>)
    ensures
        cells@.len() == height,
        forall|r: int| 0 <= r < height ==> (#[trigger] cells@[r])@.len() == width,
        forall|r: int, c: int|
            0 <= r < height && 0 <= c < width ==> #[trigger] cells@[r]@[c] == spec_blank(
                Color::Default,
            ),
{
    let fb = Framebuffer::new(width, height);
    assert forall|r: int, c: int| 0 <= r < height && 0 <= c < width implies #[trigger] fb.cells@[r]@[c]
        == spec_blank(Color::Default) by {
        assert(fb.cell(r, c) == spec_blank(Color::Default));
    }
    fb.cells
}

impl Renderer {
    /// Whether the renderer has drawn a grid of its size.
    pub open spec fn wf(&self) -> bool {
        &&& self.prev_cells@.len() == self.height
        &&& forall|r: int| 0 <= r < self.height ==> (#[trigger] self.prev_cells@[r])@.len() == self.width
    }

    /// A renderer that has drawn nothing and draws all the first time.
    pub fn new(width: usize, height: usize) -> (r: Renderer)
        ensures
            r.wf(),
            r.width == width,
            r.height == height,
            r.force_redraw,
            r.prev_cursor == (0usize, 0usize),
            r.prev_cursor_visible,
            forall|row: int, col: int|
                0 <= row < height && 0 <= col < width ==> #[trigger] r.prev_cells@[row]@[col]
                    == spec_blank(Color::Default),
    {
        Renderer {
            prev_cells: empty_grid(width, height),
            prev_cursor: (0, 0),
            prev_cursor_visible: true,
            width,
            height,
            force_redraw: true,
        }
    }

    /// Takes a new size, forgets what was drawn and draws all next time.
    pub fn resize(&mut self, width: usize, height: usize)
        ensures
            final(self).wf(),
            final(self).width == width,
            final(self).height == height,
            final(self).force_redraw,
            final(self).prev_cursor == old(self).prev_cursor,
            final(self).prev_cursor_visible == old(self).prev_cursor_visible,
            forall|row: int, col: int|
                0 <= row < height && 0 <= col < width ==> #[trigger] final(self).prev_cells@[row]@[col] == spec_blank(Color::Default),
    {
        self.width = width;
        self.height = height;
        self.prev_cells = empty_grid(width, height);
        self.force_redraw = true;
    }

    /// Asks for all to be drawn next time.
    pub fn force_redraw(&mut self)
        ensures
            *final(self) == (Renderer { force_redraw: true, ..*old(self) }),
    {
        self.force_redraw = true;
    }

    /// Whether the next rendering of `fb` draws all of it: where that was
    /// asked for, or the size has changed.
    pub open spec fn spec_full_redraw(&self, fb: &Framebuffer) -> bool {
        self.force_redraw || fb.width != self.width || fb.height != self.height
    }

    /// The commands that the next rendering of `fb` gives.
    ///
    /// The cursor is hidden first. Where all is drawn, the screen is
    /// cleared, the rows are drawn and the rendition is reset; else the
    /// cells that have changed are drawn, and the rendition is reset if
    /// there was one. Last the cursor is put in its place, and shown if it
    /// is visible.
    pub open spec fn spec_rendered(&self, fb: &Framebuffer) -> Seq<DrawCommand> {
        let cells = if self.spec_full_redraw(fb) {
            spec_full_rows(
                fb,
                fb.height as int,
                Drawing {
                    commands: seq![
                        DrawCommand::HideCursor,
                        DrawCommand::ClearAll,
                        DrawCommand::MoveTo { col: 0, row: 0 },
                    ],
                    state: spec_plain_state(),
                    at: None,
                },
            ).commands.push(DrawCommand::ResetColor).push(DrawCommand::ResetAttributes)
        } else {
            let d = spec_changed_rows(
                fb,
                self.prev_cells@,
                fb.height as int,
                Drawing {
                    commands: seq![DrawCommand::HideCursor],
                    state: spec_plain_state(),
                    at: None,
                },
            );
            if d.at.is_some() {
                d.commands.push(DrawCommand::ResetColor).push(DrawCommand::ResetAttributes)
            } else {
                d.commands
            }
        };
        spec_push_if(
            cells.push(
                DrawCommand::MoveTo {
                    col: spec_coordinate(crate::terminal::spec_clamp_to(fb.cursor_col, fb.width)),
                    row: spec_coordinate(crate::terminal::spec_clamp_to(fb.cursor_row, fb.height)),
                },
            ),
            fb.cursor_visible,
            DrawCommand::ShowCursor,
        )
    }

    /// Gives the commands that bring the physical terminal from what was
    /// drawn last to the framebuffer, and remembers the framebuffer as
    /// drawn.
    ///
    /// The cursor is hidden first. Where all is drawn, the screen is
    /// cleared and each row drawn from its first column; else only the
    /// cells that differ from what was drawn are drawn. Last the cursor is
    /// put in its place, and shown if it is visible.
    pub fn render(&mut self, fb: &Framebuffer) -> (commands: Vec<DrawCommand>)
        requires
            old(self).wf(),
            fb.grid_ok(),
        ensures
            commands@ == old(self).spec_rendered(fb),
            final(self).wf(),
            final(self).width == fb.width,
            final(self).height == fb.height,
            !final(self).force_redraw,
            final(self).prev_cursor == (
                crate::terminal::spec_clamp_to(fb.cursor_row, fb.height),
                crate::terminal::spec_clamp_to(fb.cursor_col, fb.width),
            ),
            final(self).prev_cursor_visible == fb.cursor_visible,
            forall|row: int, col: int|
                0 <= row < fb.height && 0 <= col < fb.width ==> #[trigger] final(self).prev_cells@[row]@[col] == fb.cell(row, col),
    {
        let mut out: Vec<DrawCommand> = Vec::new();
        out.push(DrawCommand::HideCursor);
        let full_redraw = self.force_redraw || fb.width != self.width || fb.height != self.height;
        let mut last = DrawState {
            fg: Color::Default,
            bg: Color::Default,
            attrs: Attributes::default(),
        };
        let ghost drawn = self.prev_cells@;
        if full_redraw {
            out.push(DrawCommand::ClearAll);
            out.push(DrawCommand::MoveTo { col: 0, row: 0 });
            self.width = fb.width;
            self.height = fb.height;
            let ghost start = Drawing { commands: out@, state: last, at: None };
            assert(out@ =~= seq![
                DrawCommand::HideCursor,
                DrawCommand::ClearAll,
                DrawCommand::MoveTo { col: 0, row: 0 },
            ]);
            let mut grid: Vec<Vec<Cell>> = Vec::new();
            let mut row: usize = 0;
            while row < fb.height
                invariant
                    fb.grid_ok(),
                    row <= fb.height,
                    spec_full_rows(fb, row as int, start) == (Drawing {
                        commands: out@,
                        state: last,
                        at: None,
                    }),
                    grid@.len() == row,
                    forall|r: int| 0 <= r < row ==> (#[trigger] grid@[r])@.len() == fb.width,
                    forall|r: int, c: int|
                        0 <= r < row && 0 <= c < fb.width ==> #[trigger] grid@[r]@[c] == fb.cell(
                            r,
                            c,
                        ),
                decreases fb.height - row,
            {
                let ghost before = spec_full_rows(fb, row as int, start);
                out.push(DrawCommand::MoveTo { col: 0, row: coordinate(row) });
                let mut line: Vec<Cell> = Vec::new();
                let mut col: usize = 0;
                while col < fb.width
                    invariant
                        fb.grid_ok(),
                        row < fb.height,
                        col <= fb.width,
                        spec_full_row(fb, row as int, col as int, before) == (Drawing {
                            commands: out@,
                            state: last,
                            at: None,
                        }),
                        line@.len() == col,
                        forall|c: int| 0 <= c < col ==> #[trigger] line@[c] == fb.cell(row as int, c),
                    decreases fb.width - col,
                {
                    let cell = fb.cells[row][col];
                    emit_cell(&mut out, &cell, &mut last);
                    line.push(cell);
                    col = col + 1;
                }
                grid.push(line);
                row = row + 1;
            }
            out.push(DrawCommand::ResetColor);
            out.push(DrawCommand::ResetAttributes);
            self.prev_cells = grid;
            self.force_redraw = false;
        } else {
            let ghost start = Drawing { commands: out@, state: last, at: None };
            assert(out@ =~= seq![DrawCommand::HideCursor]);
            let mut last_row: Option<usize> = None;
            let mut last_col: usize = 0;
            let mut row: usize = 0;
            while row < fb.height
                invariant
                    fb.grid_ok(),
                    self.wf(),
                    self.width == fb.width,
                    self.height == fb.height,
                    !self.force_redraw,
                    row <= fb.height,
                    drawn.len() == fb.height,
                    forall|r: int| 0 <= r < fb.height ==> (#[trigger] drawn[r])@.len() == fb.width,
                    spec_changed_rows(fb, drawn, row as int, start) == (Drawing {
                        commands: out@,
                        state: last,
                        at: match last_row {
                            Some(r) => Some((r, last_col)),
                            None => None,
                        },
                    }),
                    forall|r: int, c: int|
                        0 <= r < row && 0 <= c < fb.width ==> #[trigger] self.prev_cells@[r]@[c]
                            == fb.cell(r, c),
                    forall|r: int|
                        row <= r < fb.height ==> #[trigger] self.prev_cells@[r] == drawn[r],
                decreases fb.height - row,
            {
                let ghost before = spec_changed_rows(fb, drawn, row as int, start);
                let mut col: usize = 0;
                while col < fb.width
                    invariant
                        fb.grid_ok(),
                        self.wf(),
                        self.width == fb.width,
                        self.height == fb.height,
                        !self.force_redraw,
                        row < fb.height,
                        col <= fb.width,
                        drawn.len() == fb.height,
                        drawn[row as int]@.len() == fb.width,
                        spec_changed_row(fb, drawn, row as int, col as int, before) == (Drawing {
                            commands: out@,
                            state: last,
                            at: match last_row {
                                Some(r) => Some((r, last_col)),
                                None => None,
                            },
                        }),
                        forall|r: int, c: int|
                            0 <= r < row && 0 <= c < fb.width ==> #[trigger] self.prev_cells@[r]@[c]
                                == fb.cell(r, c),
                        forall|c: int|
                            0 <= c < col ==> #[trigger] self.prev_cells@[row as int]@[c] == fb.cell(
                                row as int,
                                c,
                            ),
                        forall|c: int|
                            col <= c < fb.width ==> #[trigger] self.prev_cells@[row as int]@[c]
                                == drawn[row as int]@[c],
                        forall|r: int|
                            row < r < fb.height ==> #[trigger] self.prev_cells@[r] == drawn[r],
                    decreases fb.width - col,
                {
                    let cell = fb.cells[row][col];
                    let prev = self.prev_cells[row][col];
                    if cell != prev {
                        let at_place = match last_row {
                            Some(r) => r == row && last_col == col,
                            None => false,
                        };
                        push_if(
                            &mut out,
                            !at_place,
                            DrawCommand::MoveTo { col: coordinate(col), row: coordinate(row) },
                        );
                        emit_cell(&mut out, &cell, &mut last);
                        last_row = Some(row);
                        last_col = col + 1;
                        self.prev_cells[row][col] = cell;
                    }
                    col = col + 1;
                }
                row = row + 1;
            }
            if last_row.is_some() {
                out.push(DrawCommand::ResetColor);
                out.push(DrawCommand::ResetAttributes);
            }
        }
        let cursor_row = crate::terminal::clamp_to(fb.cursor_row, fb.height);
        let cursor_col = crate::terminal::clamp_to(fb.cursor_col, fb.width);
        out.push(DrawCommand::MoveTo { col: coordinate(cursor_col), row: coordinate(cursor_row) });
        push_if(&mut out, fb.cursor_visible, DrawCommand::ShowCursor);
        self.prev_cursor = (cursor_row, cursor_col);
        self.prev_cursor_visible = fb.cursor_visible;
        out
    }
}

/// The colour of the notification bar: dark blue.
pub const BAR_BACKGROUND: u8 = 4;

/// The colour of the text of the notification bar: white.
pub const BAR_FOREGROUND: u8 = 15;

/// What column `k` of the notification bar shows: the character of the
/// message there, among the first `shown`, and a space after them.
pub open spec fn spec_bar_cell(message: Seq<char>, shown: int, k: int) -> DrawCommand {
    DrawCommand::Print(
        if k < shown {
            message[k]
        } else {
            ' '
        },
    )
}

/// The commands that draw the notification bar on the last row of a
/// screen: bold white on dark blue, the message cut to the width of the
/// screen and filled up with spaces, and the rendition reset.
pub open spec fn spec_bar_commands(message: Seq<char>, width: usize, height: usize) -> Seq<
    DrawCommand,
> {
    let shown = if message.len() > width {
        width as int
    } else {
        message.len() as int
    };
    seq![
        DrawCommand::MoveTo { col: 0, row: spec_coordinate((height - 1) as usize) },
        DrawCommand::SetBackground(Color::Indexed(BAR_BACKGROUND)),
        DrawCommand::SetForeground(Color::Indexed(BAR_FOREGROUND)),
        DrawCommand::SetAttribute(TextAttribute::Bold),
    ] + Seq::new(width as nat, |k: int| spec_bar_cell(message, shown, k)) + seq![
        DrawCommand::ResetColor,
        DrawCommand::ResetAttributes,
    ]
}

/// The bar that tells the user of the state of the connection.
pub struct NotificationBar {
    pub message: String,
    pub visible: bool,
}

impl NotificationBar {
    /// A bar that says nothing and is not shown.
    pub fn new() -> (bar: NotificationBar)
        ensures
            bar.message@ == Seq::<char>::empty(),
            !bar.visible,
    {
        NotificationBar { message: String::new(), visible: false }
    }

    /// Sets what the bar says; it is shown unless it says nothing.
    pub fn set_message(&mut self, msg: &str)
        ensures
            final(self).message@ == msg@,
            final(self).visible == (msg@.len() > 0),
    {
        self.message = msg.to_owned();
        self.visible = !msg.is_empty();
    }

    /// Empties the bar and hides it.
    pub fn clear(&mut self)
        ensures
            final(self).message@ == Seq::<char>::empty(),
            !final(self).visible,
    {
        self.message = String::new();
        self.visible = false;
    }

    /// Gives the commands that draw the bar on the last row of a screen of
    /// the given size; none where the bar is not shown or the screen has no
    /// row.
    pub fn render(&self, width: usize, height: usize) -> (commands: Vec<DrawCommand>)
        ensures
            commands@ == if self.visible && height > 0 {
                spec_bar_commands(self.message@, width, height)
            } else {
                Seq::<DrawCommand>::empty()
            },
    {
        let mut out: Vec<DrawCommand> = Vec::new();
        if !self.visible || height == 0 {
            return out;
        }
        out.push(DrawCommand::MoveTo { col: 0, row: coordinate(height - 1) });
        out.push(DrawCommand::SetBackground(Color::Indexed(BAR_BACKGROUND)));
        out.push(DrawCommand::SetForeground(Color::Indexed(BAR_FOREGROUND)));
        out.push(DrawCommand::SetAttribute(TextAttribute::Bold));
        let ghost head = out@;
        let text = self.message.as_str();
        let len = text.unicode_len();
        let shown = if len > width {
            width
        } else {
            len
        };
        let mut i: usize = 0;
        while i < width
            invariant
                i <= width,
                shown <= width,
                shown <= text@.len(),
                text@ == self.message@,
                out@ == head + Seq::new(i as nat, |k: int| spec_bar_cell(text@, shown as int, k)),
            decreases width - i,
        {
            let c = if i < shown {
                text.get_char(i)
            } else {
                ' '
            };
            let ghost before = out@;
            out.push(DrawCommand::Print(c));
            i = i + 1;
            assert(out@ =~= head + Seq::new(
                i as nat,
                |k: int| spec_bar_cell(text@, shown as int, k),
            ));
        }
        out.push(DrawCommand::ResetColor);
        out.push(DrawCommand::ResetAttributes);
        assert(out@ =~= spec_bar_commands(self.message@, width, height));
        out
    }

    /// Whether the bar is drawn on a screen of the given height.
    pub fn is_shown(&self, height: usize) -> (shown: bool)
        ensures
            shown == (self.visible && height > 0),
    {
        self.visible && height > 0
    }
}

} // verus!
