//! The character-cell framebuffer of the remote terminal, and the effect on
//! it of each thing a VT parser reports: a printed character, a control
//! octet, a CSI, ESC or OSC sequence.

use vstd::prelude::*;

verus! {

/// Rendition flags of a cell.
#[derive(Debug, Clone, Copy, PartialEq, Eq, Structural)]
pub struct Attributes {
    pub bold: bool,
    pub italic: bool,
    pub underline: bool,
    pub blink: bool,
    pub inverse: bool,
    pub invisible: bool,
    pub strikethrough: bool,
}

/// A colour of the terminal.
#[derive(Debug, Clone, Copy, PartialEq, Eq, Structural)]
pub enum Color {
    Default,
    Indexed(u8),
    Rgb(u8, u8, u8),
}

/// One character cell.
#[derive(Debug, Clone, Copy, PartialEq, Eq, Structural)]
pub struct Cell {
    pub character: char,
    pub fg: Color,
    pub bg: Color,
    pub attrs: Attributes,
    /// Whether the cell has changed since it was last drawn.
    pub dirty: bool,
}

/// The shape of the cursor.
#[derive(Debug, Clone, Copy, PartialEq, Eq, Structural)]
pub enum CursorStyle {
    Block,
    Underline,
    Bar,
}

/// No rendition flag set.
pub open spec fn spec_plain() -> Attributes {
    Attributes {
        bold: false,
        italic: false,
        underline: false,
        blink: false,
        inverse: false,
        invisible: false,
        strikethrough: false,
    }
}

/// An empty cell on the given background, to be drawn.
pub open spec fn spec_blank(bg: Color) -> Cell {
    Cell { character: ' ', fg: Color::Default, bg, attrs: spec_plain(), dirty: true }
}

impl Default for Attributes {
    fn default() -> (a: Attributes)
        ensures
            a == spec_plain(),
    {
        Attributes {
            bold: false,
            italic: false,
            underline: false,
            blink: false,
            inverse: false,
            invisible: false,
            strikethrough: false,
        }
    }
}

impl Default for Color {
    fn default() -> (c: Color)
        ensures
            c == Color::Default,
    {
        Color::Default
    }
}

impl Default for Cell {
    fn default() -> (c: Cell)
        ensures
            c == spec_blank(Color::Default),
    {
        blank_cell(Color::Default)
    }
}

impl Default for CursorStyle {
    fn default() -> (s: CursorStyle)
        ensures
            s == CursorStyle::Block,
    {
        CursorStyle::Block
    }
}

/// An empty cell on the given background.
pub fn blank_cell(bg: Color) -> (c: Cell)
    ensures
        c == spec_blank(bg),
{
    Cell {
        character: ' ',
        fg: Color::Default,
        bg,
        attrs: Attributes {
            bold: false,
            italic: false,
            underline: false,
            blink: false,
            inverse: false,
            invisible: false,
            strikethrough: false,
        },
        dirty: true,
    }
}

/// Whether a grid has `height` rows of `width` cells.
pub open spec fn spec_grid_ok(cells: Seq<Vec<Cell>>, width: usize, height: usize) -> bool {
    &&& cells.len() == height
    &&& forall|r: int| 0 <= r < height ==> (#[trigger] cells[r])@.len() == width
}

/// A row of empty cells.
fn blank_row(width: usize, bg: Color) -> (row: Vec<Cell>)
    ensures
        row@.len() == width,
        forall|c: int| 0 <= c < width ==> #[trigger] row@[c] == spec_blank(bg),
{
    let mut row: Vec<Cell> = Vec::new();
    while row.len() < width
        invariant
            row@.len() <= width,
            forall|c: int| 0 <= c < row@.len() ==> #[trigger] row@[c] == spec_blank(bg),
        decreases width - row@.len(),
    {
        row.push(blank_cell(bg));
    }
    row
}

/// A grid of empty cells on the default background.
fn blank_grid(width: usize, height: usize) -> (cells: Vec<Vec<Cell>>)
    ensures
        spec_grid_ok(cells@, width, height),
        forall|r: int, c: int|
            0 <= r < height && 0 <= c < width ==> #[trigger] cells@[r]@[c] == spec_blank(
                Color::Default,
            ),
{
    let mut cells: Vec<Vec<Cell>> = Vec::new();
    while cells.len() < height
        invariant
            cells@.len() <= height,
            forall|r: int| 0 <= r < cells@.len() ==> (#[trigger] cells@[r])@.len() == width,
            forall|r: int, c: int|
                0 <= r < cells@.len() && 0 <= c < width ==> #[trigger] cells@[r]@[c]
                    == spec_blank(Color::Default),
        decreases height - cells@.len(),
    {
        cells.push(blank_row(width, Color::Default));
    }
    cells
}

/// Tab stops at every eighth column.
fn default_tab_stops(width: usize) -> (stops: Vec<bool>)
    ensures
        stops@.len() == width,
        forall|c: int| 0 <= c < width ==> #[trigger] stops@[c] == (c % 8 == 0),
{
    let mut stops: Vec<bool> = Vec::new();
    while stops.len() < width
        invariant
            stops@.len() <= width,
            forall|c: int| 0 <= c < stops@.len() ==> #[trigger] stops@[c] == (c % 8 == 0),
        decreases width - stops@.len(),
    {
        let at = stops.len();
        stops.push(at % 8 == 0);
    }
    stops
}

/// A copy of a grid.
fn clone_grid(cells: &Vec<Vec<Cell>>) -> (copy: Vec<Vec<Cell>>)
    ensures
        copy@.len() == cells@.len(),
        forall|r: int| 0 <= r < cells@.len() ==> (#[trigger] copy@[r])@ == cells@[r]@,
{
    let mut copy: Vec<Vec<Cell>> = Vec::new();
    let mut r: usize = 0;
    while r < cells.len()
        invariant
            r <= cells@.len(),
            copy@.len() == r,
            forall|k: int| 0 <= k < r ==> (#[trigger] copy@[k])@ == cells@[k]@,
        decreases cells@.len() - r,
    {
        let mut row: Vec<Cell> = Vec::new();
        let mut c: usize = 0;
        while c < cells[r].len()
            invariant
                r < cells@.len(),
                c <= cells@[r as int]@.len(),
                row@ == cells@[r as int]@.take(c as int),
            decreases cells@[r as int]@.len() - c,
        {
            row.push(cells[r][c]);
            c = c + 1;
            assert(row@ =~= cells@[r as int]@.take(c as int));
        }
        assert(cells@[r as int]@.take(c as int) =~= cells@[r as int]@);
        copy.push(row);
        r = r + 1;
    }
    copy
}

/// A grid of the given size that keeps what fits of `old_cells` and is
/// empty elsewhere.
fn resized_grid(old_cells: &Vec<Vec<Cell>>, width: usize, height: usize) -> (cells: Vec<
    Vec<Cell>,
>)
    ensures
        spec_grid_ok(cells@, width, height),
        forall|r: int, c: int|
            0 <= r < height && 0 <= c < width ==> #[trigger] cells@[r]@[c] == if r
                < old_cells@.len() && c < old_cells@[r]@.len() {
                old_cells@[r]@[c]
            } else {
                spec_blank(Color::Default)
            },
{
    let mut cells: Vec<Vec<Cell>> = Vec::new();
    while cells.len() < height
        invariant
            cells@.len() <= height,
            forall|r: int| 0 <= r < cells@.len() ==> (#[trigger] cells@[r])@.len() == width,
            forall|r: int, c: int|
                0 <= r < cells@.len() && 0 <= c < width ==> #[trigger] cells@[r]@[c] == if r
                    < old_cells@.len() && c < old_cells@[r]@.len() {
                    old_cells@[r]@[c]
                } else {
                    spec_blank(Color::Default)
                },
        decreases height - cells@.len(),
    {
        let r = cells.len();
        let mut row: Vec<Cell> = Vec::new();
        while row.len() < width
            invariant
                row@.len() <= width,
                r == cells@.len(),
                forall|c: int|
                    0 <= c < row@.len() ==> #[trigger] row@[c] == if r < old_cells@.len() && c
                        < old_cells@[r as int]@.len() {
                        old_cells@[r as int]@[c]
                    } else {
                        spec_blank(Color::Default)
                    },
            decreases width - row@.len(),
        {
            let c = row.len();
            if r < old_cells.len() && c < old_cells[r].len() {
                row.push(old_cells[r][c]);
            } else {
                row.push(blank_cell(Color::Default));
            }
        }
        cells.push(row);
    }
    cells
}

/// Sets the dirty flag of every cell of a grid.
fn set_dirty(cells: &mut Vec<Vec<Cell>>, dirty: bool)
    ensures
        final(cells)@.len() == old(cells)@.len(),
        forall|r: int|
            0 <= r < old(cells)@.len() ==> (#[trigger] final(cells)@[r])@.len() == old(cells)@[r]@.len(),
        forall|r: int, c: int|
            0 <= r < old(cells)@.len() && 0 <= c < old(cells)@[r]@.len() ==> #[trigger] final(cells)@[r]@[c] == (Cell { dirty, ..old(cells)@[r]@[c] }),
{
    let mut r: usize = 0;
    while r < cells.len()
        invariant
            cells@.len() == old(cells)@.len(),
            r <= cells@.len(),
            forall|k: int|
                0 <= k < cells@.len() ==> (#[trigger] cells@[k])@.len() == old(cells)@[k]@.len(),
            forall|k: int, c: int|
                0 <= k < r && 0 <= c < cells@[k]@.len() ==> #[trigger] cells@[k]@[c] == (Cell {
                    dirty,
                    ..old(cells)@[k]@[c]
                }),
            forall|k: int| r <= k < cells@.len() ==> (#[trigger] cells@[k])@ == old(cells)@[k]@,
        decreases cells@.len() - r,
    {
        let mut c: usize = 0;
        while c < cells[r].len()
            invariant
                cells@.len() == old(cells)@.len(),
                r < cells@.len(),
                c <= cells@[r as int]@.len(),
                forall|k: int|
                    0 <= k < cells@.len() ==> (#[trigger] cells@[k])@.len() == old(cells)@[k]@.len(),
                forall|k: int, j: int|
                    0 <= k < r && 0 <= j < cells@[k]@.len() ==> #[trigger] cells@[k]@[j] == (Cell {
                        dirty,
                        ..old(cells)@[k]@[j]
                    }),
                forall|j: int|
                    0 <= j < c ==> #[trigger] cells@[r as int]@[j] == (Cell {
                        dirty,
                        ..old(cells)@[r as int]@[j]
                    }),
                forall|j: int|
                    c <= j < cells@[r as int]@.len() ==> #[trigger] cells@[r as int]@[j] == old(cells)@[r as int]@[j],
                forall|k: int| r < k < cells@.len() ==> (#[trigger] cells@[k])@ == old(cells)@[k]@,
            decreases cells@[r as int]@.len() - c,
        {
            cells[r][c].dirty = dirty;
            c = c + 1;
        }
        r = r + 1;
    }
}

/// The values of the rows of a grid.
pub open spec fn spec_rows(cells: Seq<Vec<Cell>>) -> Seq<Seq<Cell>> {
    Seq::new(cells.len(), |r: int| cells[r]@)
}

/// The screen of the terminal: a grid of cells, the cursor, and the modes
/// that decide how input acts on them.
#[derive(Debug)]
pub struct Framebuffer {
    pub width: usize,
    pub height: usize,
    pub cells: Vec<Vec<Cell>>,
    pub cursor_row: usize,
    pub cursor_col: usize,
    pub cursor_visible: bool,
    pub cursor_style: CursorStyle,
    /// Attributes given to characters that are written.
    pub current_attrs: Attributes,
    /// Foreground given to characters that are written.
    pub current_fg: Color,
    /// Background given to characters that are written and to erased cells.
    pub current_bg: Color,
    /// First row of the scroll region.
    pub scroll_top: usize,
    /// Last row of the scroll region.
    pub scroll_bottom: usize,
    /// The main screen, while the alternate one is shown.
    pub alternate_screen: Option<Vec<Vec<Cell>>>,
    /// Row and column of the saved cursor.
    pub saved_cursor: (usize, usize),
    /// Whether rows are counted from the top of the scroll region.
    pub origin_mode: bool,
    /// Whether writing past the last column goes on in the next row.
    pub auto_wrap: bool,
    /// Whether written characters push the rest of the row right.
    pub insert_mode: bool,
    /// Whether the next character written begins a new row.
    pub wrap_pending: bool,
    /// Which columns are tab stops.
    pub tab_stops: Vec<bool>,
    pub title: String,
}

impl Framebuffer {
    /// Whether the grid has `height` rows of `width` cells.
    pub open spec fn grid_ok(&self) -> bool {
        spec_grid_ok(self.cells@, self.width, self.height)
    }

    /// Whether the modes fit the size of the screen: a tab stop flag for
    /// each column, a scroll region within the rows, a saved main screen of
    /// the same size.
    pub open spec fn modes_ok(&self) -> bool {
        &&& self.tab_stops@.len() == self.width
        &&& self.scroll_top <= self.scroll_bottom
        &&& self.height > 0 ==> self.scroll_bottom < self.height
        &&& self.height == 0 ==> self.scroll_bottom == 0
        &&& self.alternate_screen is Some ==> spec_grid_ok(
            self.alternate_screen->Some_0@,
            self.width,
            self.height,
        )
    }

    /// What every operation on a framebuffer keeps true of it.
    pub open spec fn wf(&self) -> bool {
        self.grid_ok() && self.modes_ok()
    }

    /// The cell at a row and column.
    pub open spec fn cell(&self, r: int, c: int) -> Cell {
        self.cells@[r]@[c]
    }

    /// The saved main screen, if there is one.
    pub open spec fn spec_alternate(&self) -> Option<Seq<Seq<Cell>>> {
        match self.alternate_screen {
            Some(alt) => Some(spec_rows(alt@)),
            None => None,
        }
    }

    /// Whether two framebuffers are in the same modes: pen, scroll region,
    /// saved cursor, tab stops and the flags.
    pub open spec fn same_modes(&self, other: &Framebuffer) -> bool {
        &&& self.current_attrs == other.current_attrs
        &&& self.current_fg == other.current_fg
        &&& self.current_bg == other.current_bg
        &&& self.scroll_top == other.scroll_top
        &&& self.scroll_bottom == other.scroll_bottom
        &&& self.saved_cursor == other.saved_cursor
        &&& self.origin_mode == other.origin_mode
        &&& self.auto_wrap == other.auto_wrap
        &&& self.insert_mode == other.insert_mode
        &&& self.wrap_pending == other.wrap_pending
        &&& self.tab_stops@ == other.tab_stops@
    }

    /// Whether two framebuffers show the same and are in the same modes.
    pub open spec fn same_as(&self, other: &Framebuffer) -> bool {
        &&& self.width == other.width
        &&& self.height == other.height
        &&& spec_rows(self.cells@) == spec_rows(other.cells@)
        &&& self.cursor_row == other.cursor_row
        &&& self.cursor_col == other.cursor_col
        &&& self.cursor_visible == other.cursor_visible
        &&& self.cursor_style == other.cursor_style
        &&& self.title@ == other.title@
        &&& self.spec_alternate() == other.spec_alternate()
        &&& self.same_modes(other)
    }

    /// Whether a framebuffer is in the modes that a screen starts in.
    pub open spec fn initial_modes(&self) -> bool {
        &&& self.current_attrs == spec_plain()
        &&& self.current_fg == Color::Default
        &&& self.current_bg == Color::Default
        &&& self.scroll_top == 0
        &&& self.scroll_bottom == if self.height == 0 {
            0
        } else {
            (self.height - 1) as usize
        }
        &&& self.alternate_screen is None
        &&& self.saved_cursor == (0usize, 0usize)
        &&& !self.origin_mode
        &&& self.auto_wrap
        &&& !self.insert_mode
        &&& !self.wrap_pending
        &&& forall|c: int| 0 <= c < self.width ==> #[trigger] self.tab_stops@[c] == (c % 8 == 0)
    }

    /// An empty screen with the cursor in its top left corner, a tab stop at
    /// every eighth column and the whole screen as scroll region.
    pub fn new(width: usize, height: usize) -> (fb: Framebuffer)
        ensures
            fb.wf(),
            fb.width == width,
            fb.height == height,
            forall|r: int, c: int|
                0 <= r < height && 0 <= c < width ==> #[trigger] fb.cell(r, c) == spec_blank(
                    Color::Default,
                ),
            fb.cursor_row == 0,
            fb.cursor_col == 0,
            fb.cursor_visible,
            fb.cursor_style == CursorStyle::Block,
            fb.title@ == Seq::<char>::empty(),
            fb.initial_modes(),
    {
        let fb = Framebuffer {
            width,
            height,
            cells: blank_grid(width, height),
            cursor_row: 0,
            cursor_col: 0,
            cursor_visible: true,
            cursor_style: CursorStyle::Block,
            current_attrs: Attributes::default(),
            current_fg: Color::Default,
            current_bg: Color::Default,
            scroll_top: 0,
            scroll_bottom: if height == 0 {
                0
            } else {
                height - 1
            },
            alternate_screen: None,
            saved_cursor: (0, 0),
            origin_mode: false,
            auto_wrap: true,
            insert_mode: false,
            wrap_pending: false,
            tab_stops: default_tab_stops(width),
            title: String::new(),
        };
        fb
    }

    /// Whether `after` is the framebuffer in a new size. Cells that are in
    /// both sizes keep their contents, the others are empty; every cell is
    /// to be drawn again. The cursor is brought inside, the scroll region
    /// is the whole screen, the tab stops are at every eighth column, no
    /// wrap is pending, and a saved main screen is resized in the same
    /// way, but for the drawing.
    pub open spec fn spec_resized(&self, after: &Framebuffer, width: usize, height: usize) -> bool {
        &&& *after == (Framebuffer {
            width,
            height,
            cells: after.cells,
            alternate_screen: after.alternate_screen,
            tab_stops: after.tab_stops,
            cursor_row: spec_clamp_to(self.cursor_row, height),
            cursor_col: spec_clamp_to(self.cursor_col, width),
            scroll_top: 0,
            scroll_bottom: spec_clamp_to(height, height),
            wrap_pending: false,
            ..*self
        })
        &&& after.wf()
        &&& forall|r: int, c: int|
            0 <= r < height && 0 <= c < width ==> #[trigger] after.cell(r, c) == if r
                < self.height && c < self.width {
                Cell { dirty: true, ..self.cell(r, c) }
            } else {
                spec_blank(Color::Default)
            }
        &&& forall|c: int| 0 <= c < width ==> #[trigger] after.tab_stops@[c] == (c % 8 == 0)
        &&& match self.alternate_screen {
            Some(main) => after.alternate_screen is Some && forall|r: int, c: int|
                0 <= r < height && 0 <= c < width ==> #[trigger] after.alternate_screen->Some_0@[r]@[c]
                    == if r < main@.len() && c < main@[r]@.len() {
                    main@[r]@[c]
                } else {
                    spec_blank(Color::Default)
                },
            None => after.alternate_screen is None,
        }
    }

    /// Gives the screen a new size.
    pub fn resize(&mut self, new_width: usize, new_height: usize)
        requires
            old(self).grid_ok(),
        ensures
            old(self).spec_resized(final(self), new_width, new_height),
            final(self).wf(),
            final(self).width == new_width,
            final(self).height == new_height,
            forall|r: int, c: int|
                0 <= r < new_height && 0 <= c < new_width ==> #[trigger] final(self).cell(r, c)
                    == if r < old(self).height && c < old(self).width {
                    Cell { dirty: true, ..old(self).cell(r, c) }
                } else {
                    spec_blank(Color::Default)
                },
            final(self).cursor_row == spec_clamp_to(old(self).cursor_row, new_height),
            final(self).cursor_col == spec_clamp_to(old(self).cursor_col, new_width),
            final(self).cursor_visible == old(self).cursor_visible,
            final(self).cursor_style == old(self).cursor_style,
            final(self).title@ == old(self).title@,
            final(self).scroll_top == 0,
            final(self).scroll_bottom == spec_clamp_to(new_height, new_height),
            forall|c: int|
                0 <= c < new_width ==> #[trigger] final(self).tab_stops@[c] == (c % 8 == 0),
            !final(self).wrap_pending,
            final(self).current_attrs == old(self).current_attrs,
            final(self).current_fg == old(self).current_fg,
            final(self).current_bg == old(self).current_bg,
            final(self).saved_cursor == old(self).saved_cursor,
            final(self).origin_mode == old(self).origin_mode,
            final(self).auto_wrap == old(self).auto_wrap,
            final(self).insert_mode == old(self).insert_mode,
            final(self).alternate_screen is Some == old(self).alternate_screen is Some,
    {
        let mut new_cells = resized_grid(&self.cells, new_width, new_height);
        set_dirty(&mut new_cells, true);
        self.cells = new_cells;
        let new_alternate = match &self.alternate_screen {
            Some(alt) => Some(resized_grid(alt, new_width, new_height)),
            None => None,
        };
        self.alternate_screen = new_alternate;
        self.width = new_width;
        self.height = new_height;
        self.scroll_top = 0;
        self.scroll_bottom = if new_height == 0 {
            0
        } else {
            new_height - 1
        };
        self.cursor_row = if new_height == 0 {
            0
        } else if self.cursor_row < new_height {
            self.cursor_row
        } else {
            new_height - 1
        };
        self.cursor_col = if new_width == 0 {
            0
        } else if self.cursor_col < new_width {
            self.cursor_col
        } else {
            new_width - 1
        };
        self.wrap_pending = false;
        self.tab_stops = default_tab_stops(new_width);
    }

    /// Marks every cell as to be drawn again.
    pub fn mark_all_dirty(&mut self)
        requires
            old(self).grid_ok(),
        ensures
            final(self).grid_ok(),
            final(self).same_modes(old(self)),
            final(self).spec_alternate() == old(self).spec_alternate(),
            old(self).wf() ==> final(self).wf(),
            final(self).width == old(self).width,
            final(self).height == old(self).height,
            final(self).cursor_row == old(self).cursor_row,
            final(self).cursor_col == old(self).cursor_col,
            final(self).cursor_visible == old(self).cursor_visible,
            final(self).cursor_style == old(self).cursor_style,
            final(self).title@ == old(self).title@,
            *final(self) == (Framebuffer { cells: final(self).cells, ..*old(self) }),
            forall|r: int, c: int|
                0 <= r < old(self).height && 0 <= c < old(self).width ==> #[trigger] final(self).cell(r, c) == (Cell { dirty: true, ..old(self).cell(r, c) }),
    {
        set_dirty(&mut self.cells, true);
    }

    /// Marks every cell as drawn.
    pub fn clear_dirty(&mut self)
        requires
            old(self).grid_ok(),
        ensures
            final(self).grid_ok(),
            final(self).same_modes(old(self)),
            final(self).spec_alternate() == old(self).spec_alternate(),
            old(self).wf() ==> final(self).wf(),
            final(self).width == old(self).width,
            final(self).height == old(self).height,
            final(self).cursor_row == old(self).cursor_row,
            final(self).cursor_col == old(self).cursor_col,
            final(self).cursor_visible == old(self).cursor_visible,
            final(self).cursor_style == old(self).cursor_style,
            final(self).title@ == old(self).title@,
            forall|r: int, c: int|
                0 <= r < old(self).height && 0 <= c < old(self).width ==> #[trigger] final(self).cell(r, c) == (Cell { dirty: false, ..old(self).cell(r, c) }),
    {
        set_dirty(&mut self.cells, false);
    }

    /// Replaces one cell.
    pub fn put_cell(&mut self, row: usize, col: usize, cell: Cell)
        requires
            old(self).grid_ok(),
            row < old(self).height,
            col < old(self).width,
        ensures
            final(self).grid_ok(),
            final(self).same_modes(old(self)),
            final(self).spec_alternate() == old(self).spec_alternate(),
            old(self).wf() ==> final(self).wf(),
            final(self).width == old(self).width,
            final(self).height == old(self).height,
            final(self).cursor_row == old(self).cursor_row,
            final(self).cursor_col == old(self).cursor_col,
            final(self).cursor_visible == old(self).cursor_visible,
            final(self).cursor_style == old(self).cursor_style,
            final(self).title@ == old(self).title@,
            final(self).cell(row as int, col as int) == cell,
            forall|r: int, c: int|
                0 <= r < old(self).height && 0 <= c < old(self).width && !(r == row && c == col)
                    ==> #[trigger] final(self).cell(r, c) == old(self).cell(r, c),
    {
        self.cells[row][col] = cell;
    }

    /// First and last row of the scroll region.
    pub fn scroll_region(&self) -> (region: (usize, usize))
        ensures
            region == (self.scroll_top, self.scroll_bottom),
    {
        (self.scroll_top, self.scroll_bottom)
    }
}

impl Clone for Framebuffer {
    fn clone(&self) -> (copy: Self)
        ensures
            copy.same_as(self),
            self.wf() ==> copy.wf(),
            self.grid_ok() ==> copy.grid_ok(),
    {
        let copy = Framebuffer {
            width: self.width,
            height: self.height,
            cells: clone_grid(&self.cells),
            cursor_row: self.cursor_row,
            cursor_col: self.cursor_col,
            cursor_visible: self.cursor_visible,
            cursor_style: self.cursor_style,
            current_attrs: self.current_attrs,
            current_fg: self.current_fg,
            current_bg: self.current_bg,
            scroll_top: self.scroll_top,
            scroll_bottom: self.scroll_bottom,
            alternate_screen: match &self.alternate_screen {
                Some(alt) => Some(clone_grid(alt)),
                None => None,
            },
            saved_cursor: self.saved_cursor,
            origin_mode: self.origin_mode,
            auto_wrap: self.auto_wrap,
            insert_mode: self.insert_mode,
            wrap_pending: self.wrap_pending,
            tab_stops: self.tab_stops.clone(),
            title: self.title.clone(),
        };
        proof {
            assert(spec_rows(copy.cells@) =~= spec_rows(self.cells@));
            assert(copy.tab_stops@ =~= self.tab_stops@);
            if self.alternate_screen is Some && self.wf() {
                let a = copy.alternate_screen->Some_0;
                let b = self.alternate_screen->Some_0;
                assert forall|r: int| 0 <= r < copy.height implies (#[trigger] a@[r])@.len()
                    == copy.width by {
                    assert(a@[r]@ == b@[r]@);
                }
            }
            if self.alternate_screen is Some {
                assert(spec_rows(copy.alternate_screen->Some_0@) =~= spec_rows(
                    self.alternate_screen->Some_0@,
                ));
            }
            if self.grid_ok() {
                assert forall|r: int| 0 <= r < copy.height implies (#[trigger] copy.cells@[r])@.len()
                    == copy.width by {
                    assert(spec_rows(copy.cells@)[r] == spec_rows(self.cells@)[r]);
                }
            }
        }
        copy
    }
}

/// Whether `after` is `before` with some cells changed and nothing else.
pub open spec fn spec_only_cells(after: &Framebuffer, before: &Framebuffer) -> bool {
    &&& after.grid_ok()
    &&& after.width == before.width
    &&& after.height == before.height
    &&& after.cursor_row == before.cursor_row
    &&& after.cursor_col == before.cursor_col
    &&& after.cursor_visible == before.cursor_visible
    &&& after.cursor_style == before.cursor_style
    &&& after.title@ == before.title@
    &&& after.same_modes(before)
    &&& after.spec_alternate() == before.spec_alternate()
    &&& before.wf() ==> after.wf()
}

/// Whether `after` is `before` with the cursor moved and nothing else.
pub open spec fn spec_only_cursor(after: &Framebuffer, before: &Framebuffer) -> bool {
    &&& after.width == before.width
    &&& after.height == before.height
    &&& after.cells == before.cells
    &&& after.cursor_visible == before.cursor_visible
    &&& after.cursor_style == before.cursor_style
    &&& after.current_attrs == before.current_attrs
    &&& after.current_fg == before.current_fg
    &&& after.current_bg == before.current_bg
    &&& after.scroll_top == before.scroll_top
    &&& after.scroll_bottom == before.scroll_bottom
    &&& after.alternate_screen == before.alternate_screen
    &&& after.saved_cursor == before.saved_cursor
    &&& after.origin_mode == before.origin_mode
    &&& after.auto_wrap == before.auto_wrap
    &&& after.insert_mode == before.insert_mode
    &&& after.tab_stops == before.tab_stops
    &&& after.title == before.title
}

/// The column of the `remaining`-th tab stop from column `from` on, if
/// there are as many.
pub open spec fn spec_stop_after(stops: Seq<bool>, from: int, remaining: int) -> Option<usize>
    decreases stops.len() - from,
{
    if from < 0 || from >= stops.len() {
        None
    } else if stops[from] {
        if remaining == 1 {
            Some(from as usize)
        } else {
            spec_stop_after(stops, from + 1, remaining - 1)
        }
    } else {
        spec_stop_after(stops, from + 1, remaining)
    }
}

/// The column of the tab stop that is `-remaining` stops before column
/// `below`, the first column not counted; column zero where there are not
/// as many.
pub open spec fn spec_stop_before(stops: Seq<bool>, below: int, remaining: int) -> usize
    decreases below,
{
    if below <= 1 {
        0
    } else if below - 1 < stops.len() && stops[below - 1] {
        if remaining == -1 {
            (below - 1) as usize
        } else {
            spec_stop_before(stops, below - 1, remaining + 1)
        }
    } else {
        spec_stop_before(stops, below - 1, remaining)
    }
}

/// The smaller of two positions.
pub open spec fn spec_min(a: usize, b: usize) -> usize {
    if a <= b {
        a
    } else {
        b
    }
}

/// The position `base + n`, held to the range from `low` to `high` and to
/// zero.
pub open spec fn spec_moved(base: usize, n: int, low: usize, high: usize) -> usize {
    let target = if base + n < 0 {
        0
    } else {
        base + n
    };
    if target < low {
        low
    } else if target > high {
        high
    } else {
        target as usize
    }
}

/// The position `base + n`, held to the range from `low` to `high` and to
/// zero.
fn moved(base: usize, n: isize, low: usize, high: usize) -> (at: usize)
    requires
        low <= high,
    ensures
        at == spec_moved(base, n as int, low, high),
{
    let target: i128 = base as i128 + n as i128;
    if target < low as i128 {
        low
    } else if target > high as i128 {
        high
    } else {
        target as usize
    }
}

impl Framebuffer {
    /// The first row that the cursor can be moved to.
    pub open spec fn spec_limit_top(&self) -> usize {
        if self.origin_mode {
            self.scroll_top
        } else {
            0
        }
    }

    /// The last row that the cursor can be moved to.
    pub open spec fn spec_limit_bottom(&self) -> usize {
        if self.origin_mode {
            self.scroll_bottom
        } else if self.height == 0 {
            0
        } else {
            (self.height - 1) as usize
        }
    }

    /// The last column, or zero on a screen without columns.
    pub open spec fn spec_last_col(&self) -> usize {
        if self.width == 0 {
            0
        } else {
            (self.width - 1) as usize
        }
    }

    /// The first row that the cursor can be moved to.
    pub fn limit_top(&self) -> (top: usize)
        ensures
            top == self.spec_limit_top(),
    {
        if self.origin_mode {
            self.scroll_top
        } else {
            0
        }
    }

    /// The last row that the cursor can be moved to.
    pub fn limit_bottom(&self) -> (bottom: usize)
        ensures
            bottom == self.spec_limit_bottom(),
    {
        if self.origin_mode {
            self.scroll_bottom
        } else if self.height == 0 {
            0
        } else {
            self.height - 1
        }
    }

    /// Marks the cells of the rows from `top` to `bottom` as to be drawn
    /// again.
    pub fn mark_region_dirty(&mut self, top: usize, bottom: usize)
        requires
            old(self).grid_ok(),
        ensures
            spec_only_cells(final(self), old(self)),
            forall|r: int, c: int|
                0 <= r < old(self).height && 0 <= c < old(self).width ==> #[trigger] final(self).cell(r, c) == if top <= r <= bottom {
                    Cell { dirty: true, ..old(self).cell(r, c) }
                } else {
                    old(self).cell(r, c)
                },
    {
        if self.height == 0 {
            return ;
        }
        let end: usize = if bottom < self.height - 1 {
            bottom
        } else {
            self.height - 1
        };
        let mut r: usize = top;
        while r <= end
            invariant
                end < self.height,
                end == spec_min(bottom, (self.height - 1) as usize),
                top <= r,
                spec_only_cells(self, old(self)),
                forall|x: int, c: int|
                    0 <= x < self.height && 0 <= c < self.width ==> #[trigger] self.cell(x, c)
                        == if top <= x < r && x <= bottom {
                        Cell { dirty: true, ..old(self).cell(x, c) }
                    } else {
                        old(self).cell(x, c)
                    },
            decreases end + 1 - r,
        {
            let mut c: usize = 0;
            while c < self.width
                invariant
                    end < self.height,
                    top <= r <= end,
                    end == spec_min(bottom, (self.height - 1) as usize),
                    c <= self.width,
                    spec_only_cells(self, old(self)),
                    forall|x: int, y: int|
                        0 <= x < self.height && 0 <= y < self.width ==> #[trigger] self.cell(x, y)
                            == if (top <= x < r && x <= bottom) || (x == r && y < c) {
                            Cell { dirty: true, ..old(self).cell(x, y) }
                        } else {
                            old(self).cell(x, y)
                        },
                decreases self.width - c,
            {
                let shown = self.cells[r][c];
                self.put_cell(r, c, Cell { dirty: true, ..shown });
                c = c + 1;
            }
            r = r + 1;
        }
    }

    /// Brings the cursor into the rows it can be moved to and into the
    /// columns of the screen.
    pub fn snap_cursor_to_border(&mut self)
        requires
            old(self).wf(),
        ensures
            final(self).wf(),
            spec_only_cursor(final(self), old(self)),
            final(self).wrap_pending == old(self).wrap_pending,
            final(self).cursor_row == spec_moved(
                old(self).cursor_row,
                0,
                old(self).spec_limit_top(),
                old(self).spec_limit_bottom(),
            ),
            final(self).cursor_col == spec_min(old(self).cursor_col, old(self).spec_last_col()),
    {
        let top = self.limit_top();
        let bottom = self.limit_bottom();
        self.cursor_row = moved(self.cursor_row, 0, top, bottom);
        let last = if self.width == 0 {
            0
        } else {
            self.width - 1
        };
        if self.cursor_col > last {
            self.cursor_col = last;
        }
    }

    /// Moves the cursor by `n` rows, or to row `n` counted from the first
    /// row it can be moved to; it stays within the rows it can be moved to.
    pub fn move_row(&mut self, n: isize, relative: bool)
        requires
            old(self).wf(),
        ensures
            final(self).wf(),
            spec_only_cursor(final(self), old(self)),
            !final(self).wrap_pending,
            final(self).cursor_row == spec_moved(
                if relative {
                    old(self).cursor_row
                } else {
                    old(self).spec_limit_top()
                },
                n as int,
                old(self).spec_limit_top(),
                old(self).spec_limit_bottom(),
            ),
            final(self).cursor_col == spec_min(old(self).cursor_col, old(self).spec_last_col()),
    {
        let top = self.limit_top();
        let bottom = self.limit_bottom();
        let base = if relative {
            self.cursor_row
        } else {
            top
        };
        self.cursor_row = moved(base, n, top, bottom);
        let last = if self.width == 0 {
            0
        } else {
            self.width - 1
        };
        if self.cursor_col > last {
            self.cursor_col = last;
        }
        self.wrap_pending = false;
    }

    /// Moves the cursor by `n` columns, or to column `n`; it stays within
    /// the screen. A move that a written character implies notes where it
    /// would have left the screen.
    pub fn move_col(&mut self, n: isize, relative: bool, implicit: bool)
        requires
            old(self).wf(),
        ensures
            final(self).wf(),
            spec_only_cursor(final(self), old(self)),
            final(self).cursor_row == spec_moved(
                old(self).cursor_row,
                0,
                old(self).spec_limit_top(),
                old(self).spec_limit_bottom(),
            ),
            final(self).cursor_col == spec_moved(
                if relative {
                    old(self).cursor_col
                } else {
                    0
                },
                n as int,
                0,
                old(self).spec_last_col(),
            ),
            final(self).wrap_pending == (implicit && (if relative {
                old(self).cursor_col
            } else {
                0
            }) + n >= old(self).width),
    {
        let base = if relative {
            self.cursor_col
        } else {
            0
        };
        let target: i128 = base as i128 + n as i128;
        let last = if self.width == 0 {
            0
        } else {
            self.width - 1
        };
        self.cursor_col = moved(base, n, 0, last);
        self.wrap_pending = implicit && target >= self.width as i128;
        let top = self.limit_top();
        let bottom = self.limit_bottom();
        self.cursor_row = moved(self.cursor_row, 0, top, bottom);
    }

    /// The column that the cursor is tabbed to: the `count`-th tab stop
    /// after it, or, for a negative count, before it.
    pub open spec fn spec_next_tab_stop(&self, count: int) -> Option<usize> {
        if count >= 0 {
            if self.cursor_col >= self.width {
                None
            } else {
                spec_stop_after(self.tab_stops@, self.cursor_col + 1, count)
            }
        } else {
            Some(spec_stop_before(self.tab_stops@, self.cursor_col as int, count))
        }
    }

    /// The column of the `count`-th tab stop after the cursor, or, for a
    /// negative count, before it; column zero where there are not as many
    /// before it, and none where there are not as many after it.
    pub fn next_tab_stop(&self, count: i32) -> (stop: Option<usize>)
        requires
            self.wf(),
        ensures
            stop == self.spec_next_tab_stop(count as int),
            match stop {
                Some(col) => if count >= 0 {
                    self.cursor_col < col < self.width
                } else {
                    col == 0 || col < self.cursor_col
                },
                None => count >= 0,
            },
    {
        if count >= 0 {
            let mut remaining: i128 = count as i128;
            if self.cursor_col >= self.width {
                return None;
            }
            let mut i: usize = self.cursor_col + 1;
            while i < self.width
                invariant
                    self.wf(),
                    self.cursor_col < i <= self.width,
                    count - i <= remaining <= count,
                    spec_stop_after(self.tab_stops@, i as int, remaining as int) == spec_stop_after(
                        self.tab_stops@,
                        self.cursor_col + 1,
                        count as int,
                    ),
                decreases self.width - i,
            {
                if self.tab_stops[i] {
                    remaining = remaining - 1;
                    if remaining == 0 {
                        return Some(i);
                    }
                }
                i = i + 1;
            }
            None
        } else {
            let mut remaining: i128 = count as i128;
            let mut i: usize = self.cursor_col;
            while i > 1
                invariant
                    self.wf(),
                    i <= self.cursor_col,
                    count <= remaining < 0,
                    spec_stop_before(self.tab_stops@, i as int, remaining as int)
                        == spec_stop_before(
                        self.tab_stops@,
                        self.cursor_col as int,
                        count as int,
                    ),
                decreases i,
            {
                i = i - 1;
                if i < self.width && self.tab_stops[i] {
                    remaining = remaining + 1;
                    if remaining == 0 {
                        return Some(i);
                    }
                }
            }
            Some(0)
        }
    }
}

impl Framebuffer {
    /// Empties the cells of a row from column `from` up to, not including,
    /// column `to`, on the current background.
    pub fn erase_cells(&mut self, row: usize, from: usize, to: usize)
        requires
            old(self).grid_ok(),
            row < old(self).height,
            to <= old(self).width,
        ensures
            spec_only_cells(final(self), old(self)),
            forall|r: int, c: int|
                0 <= r < old(self).height && 0 <= c < old(self).width ==> #[trigger] final(self).cell(r, c) == if r == row && from <= c < to {
                    spec_blank(old(self).current_bg)
                } else {
                    old(self).cell(r, c)
                },
    {
        let mut c: usize = from;
        while c < to
            invariant
                row < self.height,
                to <= self.width,
                from <= c,
                spec_only_cells(self, old(self)),
                forall|r: int, x: int|
                    0 <= r < self.height && 0 <= x < self.width ==> #[trigger] self.cell(r, x)
                        == if r == row && from <= x < c && x < to {
                        spec_blank(old(self).current_bg)
                    } else {
                        old(self).cell(r, x)
                    },
            decreases to - c,
        {
            let blank = blank_cell(self.current_bg);
            self.put_cell(row, c, blank);
            c = c + 1;
        }
    }

    /// Empties the rows from `from` up to, not including, `to`.
    pub fn erase_rows(&mut self, from: usize, to: usize)
        requires
            old(self).grid_ok(),
            to <= old(self).height,
        ensures
            spec_only_cells(final(self), old(self)),
            forall|r: int, c: int|
                0 <= r < old(self).height && 0 <= c < old(self).width ==> #[trigger] final(self).cell(r, c) == if from <= r < to {
                    spec_blank(old(self).current_bg)
                } else {
                    old(self).cell(r, c)
                },
    {
        let mut r: usize = from;
        while r < to
            invariant
                to <= self.height,
                from <= r,
                spec_only_cells(self, old(self)),
                forall|x: int, c: int|
                    0 <= x < self.height && 0 <= c < self.width ==> #[trigger] self.cell(x, c)
                        == if from <= x < r && x < to {
                        spec_blank(old(self).current_bg)
                    } else {
                        old(self).cell(x, c)
                    },
            decreases to - r,
        {
            let width = self.width;
            self.erase_cells(r, 0, width);
            r = r + 1;
        }
    }

    /// Empties the row of the cursor from the cursor on.
    pub fn erase_to_eol(&mut self)
        requires
            old(self).grid_ok(),
        ensures
            spec_only_cells(final(self), old(self)),
            forall|r: int, c: int|
                0 <= r < old(self).height && 0 <= c < old(self).width ==> #[trigger] final(self).cell(r, c) == if r == old(self).cursor_row && c >= old(self).cursor_col {
                    spec_blank(old(self).current_bg)
                } else {
                    old(self).cell(r, c)
                },
    {
        if self.cursor_row < self.height && self.cursor_col < self.width {
            let (row, from, to) = (self.cursor_row, self.cursor_col, self.width);
            self.erase_cells(row, from, to);
        }
    }

    /// Empties the row of the cursor up to and including the cursor.
    pub fn erase_to_bol(&mut self)
        requires
            old(self).grid_ok(),
        ensures
            spec_only_cells(final(self), old(self)),
            forall|r: int, c: int|
                0 <= r < old(self).height && 0 <= c < old(self).width ==> #[trigger] final(self).cell(r, c) == if r == old(self).cursor_row && c <= old(self).cursor_col {
                    spec_blank(old(self).current_bg)
                } else {
                    old(self).cell(r, c)
                },
    {
        if self.cursor_row < self.height && self.width > 0 {
            let to = if self.cursor_col < self.width - 1 {
                self.cursor_col + 1
            } else {
                self.width
            };
            let row = self.cursor_row;
            self.erase_cells(row, 0, to);
        }
    }

    /// Empties the row of the cursor.
    pub fn erase_line(&mut self)
        requires
            old(self).grid_ok(),
        ensures
            spec_only_cells(final(self), old(self)),
            forall|r: int, c: int|
                0 <= r < old(self).height && 0 <= c < old(self).width ==> #[trigger] final(self).cell(r, c) == if r == old(self).cursor_row {
                    spec_blank(old(self).current_bg)
                } else {
                    old(self).cell(r, c)
                },
    {
        if self.cursor_row < self.height {
            let (row, to) = (self.cursor_row, self.width);
            self.erase_cells(row, 0, to);
        }
    }

    /// Empties the screen from the cursor on.
    pub fn erase_below(&mut self)
        requires
            old(self).grid_ok(),
        ensures
            spec_only_cells(final(self), old(self)),
            forall|r: int, c: int|
                0 <= r < old(self).height && 0 <= c < old(self).width ==> #[trigger] final(self).cell(r, c) == if r > old(self).cursor_row || (r == old(self).cursor_row && c
                    >= old(self).cursor_col) {
                    spec_blank(old(self).current_bg)
                } else {
                    old(self).cell(r, c)
                },
    {
        self.erase_to_eol();
        if self.cursor_row < self.height {
            let (from, to) = (self.cursor_row + 1, self.height);
            self.erase_rows(from, to);
        }
    }

    /// Empties the screen up to and including the cursor.
    pub fn erase_above(&mut self)
        requires
            old(self).grid_ok(),
        ensures
            spec_only_cells(final(self), old(self)),
            forall|r: int, c: int|
                0 <= r < old(self).height && 0 <= c < old(self).width ==> #[trigger] final(self).cell(r, c) == if r < old(self).cursor_row || (r == old(self).cursor_row && c
                    <= old(self).cursor_col) {
                    spec_blank(old(self).current_bg)
                } else {
                    old(self).cell(r, c)
                },
    {
        self.erase_to_bol();
        let to = if self.cursor_row < self.height {
            self.cursor_row
        } else {
            self.height
        };
        self.erase_rows(0, to);
    }

    /// Empties the screen.
    pub fn erase_all(&mut self)
        requires
            old(self).grid_ok(),
        ensures
            spec_only_cells(final(self), old(self)),
            forall|r: int, c: int|
                0 <= r < old(self).height && 0 <= c < old(self).width ==> #[trigger] final(self).cell(r, c) == spec_blank(old(self).current_bg),
    {
        let to = self.height;
        self.erase_rows(0, to);
    }

    /// Empties `n` cells from the cursor on, as far as the row goes.
    pub fn erase_chars(&mut self, n: usize)
        requires
            old(self).grid_ok(),
        ensures
            spec_only_cells(final(self), old(self)),
            forall|r: int, c: int|
                0 <= r < old(self).height && 0 <= c < old(self).width ==> #[trigger] final(self).cell(r, c) == if r == old(self).cursor_row && old(self).cursor_col <= c < old(self).cursor_col + n {
                    spec_blank(old(self).current_bg)
                } else {
                    old(self).cell(r, c)
                },
    {
        if self.cursor_row < self.height && self.cursor_col < self.width {
            let to = if n < self.width - self.cursor_col {
                self.cursor_col + n
            } else {
                self.width
            };
            let (row, from) = (self.cursor_row, self.cursor_col);
            self.erase_cells(row, from, to);
        }
    }

    /// Whether `after` is `before` with the rows from `first` to `last`
    /// changed and nothing else.
    pub open spec fn only_rows(&self, before: &Framebuffer, first: usize, last: usize) -> bool {
        &&& spec_only_cells(self, before)
        &&& forall|r: int, c: int|
            0 <= r < before.height && 0 <= c < before.width && !(first <= r <= last)
                ==> #[trigger] self.cell(r, c) == before.cell(r, c)
    }

    /// The cell in row `r` and column `c` after the rows from `first` to
    /// `last` have moved up by `n`: the cell `n` rows below, to be drawn
    /// again, or an empty cell where that is past `last`.
    pub open spec fn spec_shifted_up(&self, first: usize, last: usize, n: usize, r: int, c: int) -> Cell {
        if first <= r <= last {
            if r + n <= last {
                Cell { dirty: true, ..self.cell(r + n, c) }
            } else {
                spec_blank(self.current_bg)
            }
        } else {
            self.cell(r, c)
        }
    }

    /// The cell in row `r` and column `c` after the rows from `first` to
    /// `last` have moved down by `n`: the cell `n` rows above, to be drawn
    /// again, or an empty cell where that is before `first`.
    pub open spec fn spec_shifted_down(
        &self,
        first: usize,
        last: usize,
        n: usize,
        r: int,
        c: int,
    ) -> Cell {
        if first <= r <= last {
            if r - n >= first {
                Cell { dirty: true, ..self.cell(r - n, c) }
            } else {
                spec_blank(self.current_bg)
            }
        } else {
            self.cell(r, c)
        }
    }

    /// Moves the rows from `first` to `last` up by `n`, filling in empty
    /// rows at the end, and marks them as to be drawn again.
    pub fn shift_rows_up(&mut self, first: usize, last: usize, n: usize)
        requires
            old(self).grid_ok(),
            first <= last < old(self).height,
        ensures
            final(self).only_rows(old(self), first, last),
            forall|r: int, c: int|
                0 <= r < old(self).height && 0 <= c < old(self).width ==> #[trigger] final(self).cell(r, c) == old(self).spec_shifted_up(first, last, n, r, c),
    {
        let mut k: usize = 0;
        while k < n
            invariant
                first <= last < self.height,
                k <= n,
                old(self).grid_ok(),
                spec_only_cells(self, old(self)),
                forall|r: int, c: int|
                    0 <= r < self.height && 0 <= c < self.width ==> #[trigger] self.cell(r, c)
                        == if first <= r <= last {
                        if r + k <= last {
                            old(self).cell(r + k, c)
                        } else {
                            spec_blank(old(self).current_bg)
                        }
                    } else {
                        old(self).cell(r, c)
                    },
            decreases n - k,
        {
            let ghost prev = *self;
            let row = blank_row(self.width, self.current_bg);
            self.cells.remove(first);
            self.cells.insert(last, row);
            proof {
                assert forall|r: int| 0 <= r < self.height implies (#[trigger] self.cells@[r])@.len()
                    == self.width by {
                    if r < first {
                        assert(self.cells@[r] == prev.cells@[r]);
                    } else if r < last {
                        assert(self.cells@[r] == prev.cells@[r + 1]);
                    } else if r > last {
                        assert(self.cells@[r] == prev.cells@[r]);
                    }
                }
                assert forall|r: int, c: int|
                    0 <= r < self.height && 0 <= c < self.width implies #[trigger] self.cell(r, c)
                    == if first <= r <= last {
                    if r + (k + 1) <= last {
                        old(self).cell(r + (k + 1), c)
                    } else {
                        spec_blank(old(self).current_bg)
                    }
                } else {
                    old(self).cell(r, c)
                } by {
                    if r < first || r > last {
                        assert(self.cells@[r] == prev.cells@[r]);
                        assert(prev.cell(r, c) == old(self).cell(r, c));
                    } else if r < last {
                        assert(self.cells@[r] == prev.cells@[r + 1]);
                        assert(self.cell(r, c) == prev.cell(r + 1, c));
                    }
                }
            }
            k = k + 1;
        }
        let ghost mid = *self;
        self.mark_region_dirty(first, last);
        proof {
            assert forall|r: int, c: int|
                0 <= r < self.height && 0 <= c < self.width implies #[trigger] self.cell(r, c)
                == old(self).spec_shifted_up(first, last, n, r, c) by {
                assert(mid.cell(r, c) == if first <= r <= last {
                    if r + n <= last {
                        old(self).cell(r + n, c)
                    } else {
                        spec_blank(old(self).current_bg)
                    }
                } else {
                    old(self).cell(r, c)
                });
            }
        }
    }

    /// Moves the rows from `first` to `last` down by `n`, filling in empty
    /// rows at the beginning, and marks them as to be drawn again.
    pub fn shift_rows_down(&mut self, first: usize, last: usize, n: usize)
        requires
            old(self).grid_ok(),
            first <= last < old(self).height,
        ensures
            final(self).only_rows(old(self), first, last),
            forall|r: int, c: int|
                0 <= r < old(self).height && 0 <= c < old(self).width ==> #[trigger] final(self).cell(r, c) == old(self).spec_shifted_down(first, last, n, r, c),
    {
        let mut k: usize = 0;
        while k < n
            invariant
                first <= last < self.height,
                k <= n,
                old(self).grid_ok(),
                spec_only_cells(self, old(self)),
                forall|r: int, c: int|
                    0 <= r < self.height && 0 <= c < self.width ==> #[trigger] self.cell(r, c)
                        == if first <= r <= last {
                        if r - k >= first {
                            old(self).cell(r - k, c)
                        } else {
                            spec_blank(old(self).current_bg)
                        }
                    } else {
                        old(self).cell(r, c)
                    },
            decreases n - k,
        {
            let ghost prev = *self;
            let row = blank_row(self.width, self.current_bg);
            self.cells.remove(last);
            self.cells.insert(first, row);
            proof {
                assert forall|r: int| 0 <= r < self.height implies (#[trigger] self.cells@[r])@.len()
                    == self.width by {
                    if r < first {
                        assert(self.cells@[r] == prev.cells@[r]);
                    } else if first < r <= last {
                        assert(self.cells@[r] == prev.cells@[r - 1]);
                    } else if r > last {
                        assert(self.cells@[r] == prev.cells@[r]);
                    }
                }
                assert forall|r: int, c: int|
                    0 <= r < self.height && 0 <= c < self.width implies #[trigger] self.cell(r, c)
                    == if first <= r <= last {
                    if r - (k + 1) >= first {
                        old(self).cell(r - (k + 1), c)
                    } else {
                        spec_blank(old(self).current_bg)
                    }
                } else {
                    old(self).cell(r, c)
                } by {
                    if r < first || r > last {
                        assert(self.cells@[r] == prev.cells@[r]);
                        assert(prev.cell(r, c) == old(self).cell(r, c));
                    } else if r > first {
                        assert(self.cells@[r] == prev.cells@[r - 1]);
                        assert(self.cell(r, c) == prev.cell(r - 1, c));
                    }
                }
            }
            k = k + 1;
        }
        let ghost mid = *self;
        self.mark_region_dirty(first, last);
        proof {
            assert forall|r: int, c: int|
                0 <= r < self.height && 0 <= c < self.width implies #[trigger] self.cell(r, c)
                == old(self).spec_shifted_down(first, last, n, r, c) by {
                assert(mid.cell(r, c) == if first <= r <= last {
                    if r - n >= first {
                        old(self).cell(r - n, c)
                    } else {
                        spec_blank(old(self).current_bg)
                    }
                } else {
                    old(self).cell(r, c)
                });
            }
        }
    }

    /// Scrolls the scroll region up by `n` rows.
    pub fn scroll_up(&mut self, n: usize)
        requires
            old(self).wf(),
        ensures
            final(self).wf(),
            final(self).only_rows(old(self), old(self).scroll_top, old(self).scroll_bottom),
            forall|r: int, c: int|
                0 <= r < old(self).height && 0 <= c < old(self).width ==> #[trigger] final(self).cell(r, c) == if old(self).scroll_top < old(self).scroll_bottom {
                    old(self).spec_shifted_up(
                        old(self).scroll_top,
                        old(self).scroll_bottom,
                        n,
                        r,
                        c,
                    )
                } else if r == old(self).scroll_top {
                    Cell { dirty: true, ..old(self).cell(r, c) }
                } else {
                    old(self).cell(r, c)
                },
    {
        if self.height == 0 {
            return ;
        }
        let (top, bottom) = (self.scroll_top, self.scroll_bottom);
        if top < bottom {
            self.shift_rows_up(top, bottom, n);
        } else {
            self.mark_region_dirty(top, bottom);
        }
    }

    /// Scrolls the scroll region down by `n` rows.
    pub fn scroll_down(&mut self, n: usize)
        requires
            old(self).wf(),
        ensures
            final(self).wf(),
            final(self).only_rows(old(self), old(self).scroll_top, old(self).scroll_bottom),
            forall|r: int, c: int|
                0 <= r < old(self).height && 0 <= c < old(self).width ==> #[trigger] final(self).cell(r, c) == if old(self).scroll_top < old(self).scroll_bottom {
                    old(self).spec_shifted_down(
                        old(self).scroll_top,
                        old(self).scroll_bottom,
                        n,
                        r,
                        c,
                    )
                } else if r == old(self).scroll_top {
                    Cell { dirty: true, ..old(self).cell(r, c) }
                } else {
                    old(self).cell(r, c)
                },
    {
        if self.height == 0 {
            return ;
        }
        let (top, bottom) = (self.scroll_top, self.scroll_bottom);
        if top < bottom {
            self.shift_rows_down(top, bottom, n);
        } else {
            self.mark_region_dirty(top, bottom);
        }
    }

    /// Puts `n` empty rows in at the cursor, moving the rows from there to
    /// the end of the scroll region down; nothing outside the region.
    pub fn insert_lines(&mut self, n: usize)
        requires
            old(self).wf(),
        ensures
            final(self).wf(),
            final(self).only_rows(old(self), old(self).cursor_row, old(self).scroll_bottom),
            forall|r: int, c: int|
                0 <= r < old(self).height && 0 <= c < old(self).width ==> #[trigger] final(self).cell(r, c) == if old(self).scroll_top <= old(self).cursor_row <= old(self).scroll_bottom {
                    old(self).spec_shifted_down(
                        old(self).cursor_row,
                        old(self).scroll_bottom,
                        n,
                        r,
                        c,
                    )
                } else {
                    old(self).cell(r, c)
                },
    {
        let save = self.cursor_row;
        if self.height > 0 && save >= self.scroll_top && save <= self.scroll_bottom {
            let bottom = self.scroll_bottom;
            self.shift_rows_down(save, bottom, n);
        }
    }

    /// Takes `n` rows out at the cursor, moving the rows after them, to the
    /// end of the scroll region, up; nothing outside the region.
    pub fn delete_lines(&mut self, n: usize)
        requires
            old(self).wf(),
        ensures
            final(self).wf(),
            final(self).only_rows(old(self), old(self).cursor_row, old(self).scroll_bottom),
            forall|r: int, c: int|
                0 <= r < old(self).height && 0 <= c < old(self).width ==> #[trigger] final(self).cell(r, c) == if old(self).scroll_top <= old(self).cursor_row <= old(self).scroll_bottom {
                    old(self).spec_shifted_up(
                        old(self).cursor_row,
                        old(self).scroll_bottom,
                        n,
                        r,
                        c,
                    )
                } else {
                    old(self).cell(r, c)
                },
    {
        let save = self.cursor_row;
        if self.height > 0 && save >= self.scroll_top && save <= self.scroll_bottom {
            let bottom = self.scroll_bottom;
            self.shift_rows_up(save, bottom, n);
        }
    }

    /// The cell in row `r` and column `c` after `n` empty cells are put in
    /// at the cursor: in the row of the cursor every cell is to be drawn
    /// again, and from the cursor on each shows what was `n` columns to its
    /// left, or nothing.
    pub open spec fn spec_chars_inserted(&self, n: usize, r: int, c: int) -> Cell {
        if r == self.cursor_row {
            if c < self.cursor_col || self.cursor_col >= self.width {
                Cell { dirty: true, ..self.cell(r, c) }
            } else if c - n >= self.cursor_col {
                Cell { dirty: true, ..self.cell(r, c - n) }
            } else {
                spec_blank(self.current_bg)
            }
        } else {
            self.cell(r, c)
        }
    }

    /// The cell in row `r` and column `c` after `n` cells are taken out at
    /// the cursor: in the row of the cursor every cell is to be drawn
    /// again, and from the cursor on each shows what was `n` columns to its
    /// right, or nothing.
    pub open spec fn spec_chars_deleted(&self, n: usize, r: int, c: int) -> Cell {
        if r == self.cursor_row {
            if c < self.cursor_col || self.cursor_col >= self.width {
                Cell { dirty: true, ..self.cell(r, c) }
            } else if c + n < self.width {
                Cell { dirty: true, ..self.cell(r, c + n) }
            } else {
                spec_blank(self.current_bg)
            }
        } else {
            self.cell(r, c)
        }
    }

    /// Puts `n` empty cells in at the cursor, moving the rest of the row
    /// right and off the screen.
    pub fn insert_chars(&mut self, n: usize)
        requires
            old(self).grid_ok(),
        ensures
            final(self).only_rows(old(self), old(self).cursor_row, old(self).cursor_row),
            forall|r: int, c: int|
                0 <= r < old(self).height && 0 <= c < old(self).width ==> #[trigger] final(self).cell(r, c) == old(self).spec_chars_inserted(n, r, c),
    {
        if self.cursor_row < self.height {
            let row = self.cursor_row;
            let col = self.cursor_col;
            if col < self.width {
                let mut k: usize = 0;
                while k < n
                    invariant
                        row == self.cursor_row,
                        col == self.cursor_col,
                        row < self.height,
                        col < self.width,
                        k <= n,
                        old(self).grid_ok(),
                        spec_only_cells(self, old(self)),
                        forall|r: int, c: int|
                            0 <= r < self.height && 0 <= c < self.width ==> #[trigger] self.cell(
                                r,
                                c,
                            ) == if r == row && c >= col {
                                if c - k >= col {
                                    old(self).cell(r, c - k)
                                } else {
                                    spec_blank(old(self).current_bg)
                                }
                            } else {
                                old(self).cell(r, c)
                            },
                    decreases n - k,
                {
                    let ghost prev = *self;
                    let blank = blank_cell(self.current_bg);
                    self.cells[row].pop();
                    self.cells[row].insert(col, blank);
                    proof {
                        assert forall|r: int| 0 <= r < self.height implies (
                        #[trigger] self.cells@[r])@.len() == self.width by {
                            if r != row {
                                assert(self.cells@[r] == prev.cells@[r]);
                            }
                        }
                        assert forall|r: int, c: int|
                            0 <= r < self.height && 0 <= c < self.width implies #[trigger] self.cell(
                            r,
                            c,
                        ) == if r == row && c >= col {
                            if c - (k + 1) >= col {
                                old(self).cell(r, c - (k + 1))
                            } else {
                                spec_blank(old(self).current_bg)
                            }
                        } else {
                            old(self).cell(r, c)
                        } by {
                            if r != row {
                                assert(self.cells@[r] == prev.cells@[r]);
                                assert(prev.cell(r, c) == old(self).cell(r, c));
                            } else if c < col {
                                assert(self.cell(r, c) == prev.cell(r, c));
                            } else if c > col {
                                assert(self.cell(r, c) == prev.cell(r, c - 1));
                            }
                        }
                    }
                    k = k + 1;
                }
            }
            let ghost mid = *self;
            self.mark_region_dirty(row, row);
            proof {
                assert forall|r: int, c: int|
                    0 <= r < self.height && 0 <= c < self.width implies #[trigger] self.cell(r, c)
                    == old(self).spec_chars_inserted(n, r, c) by {
                    assert(mid.cell(r, c) == if r == row && c >= col && col < self.width {
                        if c - n >= col {
                            old(self).cell(r, c - n)
                        } else {
                            spec_blank(old(self).current_bg)
                        }
                    } else {
                        old(self).cell(r, c)
                    });
                }
            }
        }
    }

    /// Takes `n` cells out at the cursor, moving the rest of the row left
    /// and filling in empty cells at its end.
    pub fn delete_chars(&mut self, n: usize)
        requires
            old(self).grid_ok(),
        ensures
            final(self).only_rows(old(self), old(self).cursor_row, old(self).cursor_row),
            forall|r: int, c: int|
                0 <= r < old(self).height && 0 <= c < old(self).width ==> #[trigger] final(self).cell(r, c) == old(self).spec_chars_deleted(n, r, c),
    {
        if self.cursor_row < self.height {
            let row = self.cursor_row;
            let col = self.cursor_col;
            if col < self.width {
                let mut k: usize = 0;
                while k < n
                    invariant
                        row == self.cursor_row,
                        col == self.cursor_col,
                        row < self.height,
                        col < self.width,
                        k <= n,
                        old(self).grid_ok(),
                        spec_only_cells(self, old(self)),
                        forall|r: int, c: int|
                            0 <= r < self.height && 0 <= c < self.width ==> #[trigger] self.cell(
                                r,
                                c,
                            ) == if r == row && c >= col {
                                if c + k < self.width {
                                    old(self).cell(r, c + k)
                                } else {
                                    spec_blank(old(self).current_bg)
                                }
                            } else {
                                old(self).cell(r, c)
                            },
                    decreases n - k,
                {
                    let ghost prev = *self;
                    let blank = blank_cell(self.current_bg);
                    self.cells[row].remove(col);
                    self.cells[row].push(blank);
                    proof {
                        assert forall|r: int| 0 <= r < self.height implies (
                        #[trigger] self.cells@[r])@.len() == self.width by {
                            if r != row {
                                assert(self.cells@[r] == prev.cells@[r]);
                            }
                        }
                        assert forall|r: int, c: int|
                            0 <= r < self.height && 0 <= c < self.width implies #[trigger] self.cell(
                            r,
                            c,
                        ) == if r == row && c >= col {
                            if c + (k + 1) < self.width {
                                old(self).cell(r, c + (k + 1))
                            } else {
                                spec_blank(old(self).current_bg)
                            }
                        } else {
                            old(self).cell(r, c)
                        } by {
                            if r != row {
                                assert(self.cells@[r] == prev.cells@[r]);
                                assert(prev.cell(r, c) == old(self).cell(r, c));
                            } else if c < col {
                                assert(self.cell(r, c) == prev.cell(r, c));
                            } else if c + 1 < self.width {
                                assert(self.cell(r, c) == prev.cell(r, c + 1));
                            }
                        }
                    }
                    k = k + 1;
                }
            }
            let ghost mid = *self;
            self.mark_region_dirty(row, row);
            proof {
                assert forall|r: int, c: int|
                    0 <= r < self.height && 0 <= c < self.width implies #[trigger] self.cell(r, c)
                    == old(self).spec_chars_deleted(n, r, c) by {
                    assert(mid.cell(r, c) == if r == row && c >= col && col < self.width {
                        if c + n < self.width {
                            old(self).cell(r, c + n)
                        } else {
                            spec_blank(old(self).current_bg)
                        }
                    } else {
                        old(self).cell(r, c)
                    });
                }
            }
        }
    }
}

/// The pen: the attributes, foreground and background given to characters
/// that are written.
#[derive(Debug, Clone, Copy, PartialEq, Eq, Structural)]
pub struct Pen {
    pub attrs: Attributes,
    pub fg: Color,
    pub bg: Color,
}

/// The low eight bits of a parameter.
pub open spec fn spec_low_octet(p: u16) -> u8 {
    (p % 256) as u8
}

/// The pen after the rendition parameters from index `i` on.
///
/// 0 resets; 1, 3, 4, 5, 7, 8, 9 set bold, italic, underline, blink,
/// inverse, invisible and strikethrough, and 21 to 29 clear them; 30 to 37
/// and 40 to 47 choose one of the first eight colours, 90 to 97 and 100 to
/// 107 one of the next eight; 38 and 48 take a colour from the parameters
/// that follow, by index after 5 and by red, green and blue after 2; 39
/// and 49 choose the default colour. Other parameters are passed over.
pub open spec fn spec_sgr(pen: Pen, params: Seq<u16>, i: int) -> Pen
    decreases params.len() - i,
{
    if i < 0 || i >= params.len() {
        pen
    } else {
        let (next, step) = spec_sgr_step(pen, params, i);
        if step >= 1 {
            spec_sgr(next, params, i + step)
        } else {
            pen
        }
    }
}

/// The pen after the rendition parameter at index `i`, and the number of
/// parameters that it takes.
pub open spec fn spec_sgr_step(pen: Pen, params: Seq<u16>, i: int) -> (Pen, int) {
    {
        let p = params[i];
        let extended = (p == 38 || p == 48) && i + 1 < params.len();
        let indexed = extended && params[i + 1] == 5 && i + 2 < params.len();
        let rgb = extended && params[i + 1] == 2 && i + 4 < params.len();
        let colour = if indexed {
            Color::Indexed(spec_low_octet(params[i + 2]))
        } else if rgb {
            Color::Rgb(
                spec_low_octet(params[i + 2]),
                spec_low_octet(params[i + 3]),
                spec_low_octet(params[i + 4]),
            )
        } else if 30 <= p <= 37 {
            Color::Indexed((p - 30) as u8)
        } else if 40 <= p <= 47 {
            Color::Indexed((p - 40) as u8)
        } else if 90 <= p <= 97 {
            Color::Indexed((p - 90 + 8) as u8)
        } else if 100 <= p <= 107 {
            Color::Indexed((p - 100 + 8) as u8)
        } else {
            Color::Default
        };
        let a = pen.attrs;
        let next = if p == 0 {
            Pen { attrs: spec_plain(), fg: Color::Default, bg: Color::Default }
        } else if p == 1 {
            Pen { attrs: Attributes { bold: true, ..a }, ..pen }
        } else if p == 3 {
            Pen { attrs: Attributes { italic: true, ..a }, ..pen }
        } else if p == 4 {
            Pen { attrs: Attributes { underline: true, ..a }, ..pen }
        } else if p == 5 {
            Pen { attrs: Attributes { blink: true, ..a }, ..pen }
        } else if p == 7 {
            Pen { attrs: Attributes { inverse: true, ..a }, ..pen }
        } else if p == 8 {
            Pen { attrs: Attributes { invisible: true, ..a }, ..pen }
        } else if p == 9 {
            Pen { attrs: Attributes { strikethrough: true, ..a }, ..pen }
        } else if p == 21 || p == 22 {
            Pen { attrs: Attributes { bold: false, ..a }, ..pen }
        } else if p == 23 {
            Pen { attrs: Attributes { italic: false, ..a }, ..pen }
        } else if p == 24 {
            Pen { attrs: Attributes { underline: false, ..a }, ..pen }
        } else if p == 25 {
            Pen { attrs: Attributes { blink: false, ..a }, ..pen }
        } else if p == 27 {
            Pen { attrs: Attributes { inverse: false, ..a }, ..pen }
        } else if p == 28 {
            Pen { attrs: Attributes { invisible: false, ..a }, ..pen }
        } else if p == 29 {
            Pen { attrs: Attributes { strikethrough: false, ..a }, ..pen }
        } else if (30 <= p <= 37) || (90 <= p <= 97) || p == 39 || (p == 38 && (indexed || rgb)) {
            Pen { fg: colour, ..pen }
        } else if (40 <= p <= 47) || (100 <= p <= 107) || p == 49 || (p == 48 && (indexed
            || rgb)) {
            Pen { bg: colour, ..pen }
        } else {
            pen
        };
        let step = if indexed {
            3
        } else if rgb {
            5
        } else {
            1int
        };
        (next, step)
    }
}

/// Takes the rendition parameter at index `i` into a pen.
fn sgr_step(pen: Pen, params: &[u16], i: usize) -> (out: (Pen, usize))
    requires
        i < params@.len(),
    ensures
        (out.0, out.1 as int) == spec_sgr_step(pen, params@, i as int),
        1 <= out.1 <= 5,
{
    let n = params.len();
    let p = params[i];
    let mut next = pen;
    let mut step: usize = 1;
    if p == 0 {
        next = Pen { attrs: Attributes::default(), fg: Color::Default, bg: Color::Default };
    } else if p == 1 {
        next.attrs.bold = true;
    } else if p == 3 {
        next.attrs.italic = true;
    } else if p == 4 {
        next.attrs.underline = true;
    } else if p == 5 {
        next.attrs.blink = true;
    } else if p == 7 {
        next.attrs.inverse = true;
    } else if p == 8 {
        next.attrs.invisible = true;
    } else if p == 9 {
        next.attrs.strikethrough = true;
    } else if p == 21 || p == 22 {
        next.attrs.bold = false;
    } else if p == 23 {
        next.attrs.italic = false;
    } else if p == 24 {
        next.attrs.underline = false;
    } else if p == 25 {
        next.attrs.blink = false;
    } else if p == 27 {
        next.attrs.inverse = false;
    } else if p == 28 {
        next.attrs.invisible = false;
    } else if p == 29 {
        next.attrs.strikethrough = false;
    } else if 30 <= p && p <= 37 {
        next.fg = Color::Indexed((p - 30) as u8);
    } else if 40 <= p && p <= 47 {
        next.bg = Color::Indexed((p - 40) as u8);
    } else if 90 <= p && p <= 97 {
        next.fg = Color::Indexed((p - 90 + 8) as u8);
    } else if 100 <= p && p <= 107 {
        next.bg = Color::Indexed((p - 100 + 8) as u8);
    } else if p == 39 {
        next.fg = Color::Default;
    } else if p == 49 {
        next.bg = Color::Default;
    } else if (p == 38 || p == 48) && n - i > 1 {
        let kind = params[i + 1];
        let mut colour: Option<Color> = None;
        if kind == 5 && n - i > 2 {
            colour = Some(Color::Indexed((params[i + 2] % 256) as u8));
            step = 3;
        } else if kind == 2 && n - i > 4 {
            colour = Some(
                Color::Rgb(
                    (params[i + 2] % 256) as u8,
                    (params[i + 3] % 256) as u8,
                    (params[i + 4] % 256) as u8,
                ),
            );
            step = 5;
        }
        match colour {
            Some(chosen) => {
                if p == 38 {
                    next.fg = chosen;
                } else {
                    next.bg = chosen;
                }
            },
            None => {},
        }
    }
    (next, step)
}

/// Whether `states` are the states of a framebuffer before, between and
/// after the private modes of `modes` are set or reset, one after the
/// other.
pub open spec fn spec_mode_chain(states: Seq<Framebuffer>, modes: Seq<u16>, on: bool) -> bool {
    &&& states.len() == modes.len() + 1
    &&& forall|k: int|
        0 <= k < modes.len() ==> (#[trigger] states[k]).spec_private_mode(
            &states[k + 1],
            modes[k],
            on,
        )
}

/// Whether `states` are the states of a framebuffer before, between and
/// after the things that a parser reports, taken one after the other.
pub open spec fn spec_event_chain(states: Seq<Framebuffer>, events: Seq<TerminalEvent>) -> bool {
    &&& states.len() == events.len() + 1
    &&& forall|k: int|
        0 <= k < events.len() ==> (#[trigger] states[k]).spec_event_effect(
            &states[k + 1],
            &events[k],
        )
}

/// One thing that a VT parser reports of the host's output.
#[derive(Debug)]
pub enum TerminalEvent {
    /// A character to be written.
    Print(char),
    /// A control octet.
    Execute(u8),
    /// A CSI sequence: its parameters, with their sub-parameters, in
    /// order; its intermediate octets; and its final character.
    Csi { params: Vec<u16>, intermediates: Vec<u8>, action: char },
    /// An ESC sequence: its intermediate octets and its final octet.
    Esc { intermediates: Vec<u8>, byte: u8 },
    /// An OSC sequence: its parameters.
    Osc { strings: Vec<Vec<u8>> },
}

impl Framebuffer {
    /// The pen of the framebuffer.
    pub open spec fn spec_pen(&self) -> Pen {
        Pen { attrs: self.current_attrs, fg: self.current_fg, bg: self.current_bg }
    }

    /// Whether `after` is `before` with another pen and nothing else.
    pub open spec fn only_pen(&self, before: &Framebuffer) -> bool {
        &&& self.width == before.width
        &&& self.height == before.height
        &&& self.cells == before.cells
        &&& self.cursor_row == before.cursor_row
        &&& self.cursor_col == before.cursor_col
        &&& self.cursor_visible == before.cursor_visible
        &&& self.cursor_style == before.cursor_style
        &&& self.scroll_top == before.scroll_top
        &&& self.scroll_bottom == before.scroll_bottom
        &&& self.alternate_screen == before.alternate_screen
        &&& self.saved_cursor == before.saved_cursor
        &&& self.origin_mode == before.origin_mode
        &&& self.auto_wrap == before.auto_wrap
        &&& self.insert_mode == before.insert_mode
        &&& self.wrap_pending == before.wrap_pending
        &&& self.tab_stops == before.tab_stops
        &&& self.title == before.title
    }

    /// Whether the screen has the size of `before`, and is well-formed.
    pub open spec fn same_size(&self, before: &Framebuffer) -> bool {
        self.wf() && self.width == before.width && self.height == before.height
    }

    /// Whether nothing but the cells, the cursor and the pending wrap
    /// differ from `before`.
    pub open spec fn keeps_settings(&self, before: &Framebuffer) -> bool {
        &&& self.width == before.width
        &&& self.height == before.height
        &&& self.cursor_visible == before.cursor_visible
        &&& self.cursor_style == before.cursor_style
        &&& self.current_attrs == before.current_attrs
        &&& self.current_fg == before.current_fg
        &&& self.current_bg == before.current_bg
        &&& self.scroll_top == before.scroll_top
        &&& self.scroll_bottom == before.scroll_bottom
        &&& self.spec_alternate() == before.spec_alternate()
        &&& self.saved_cursor == before.saved_cursor
        &&& self.origin_mode == before.origin_mode
        &&& self.auto_wrap == before.auto_wrap
        &&& self.insert_mode == before.insert_mode
        &&& self.tab_stops@ == before.tab_stops@
        &&& self.title@ == before.title@
    }

    /// How far the scroll region is scrolled up where the cursor is moved
    /// from row `row` by `rows` rows: by as much as it would leave the
    /// region at its end; a negative number where it is scrolled down, by
    /// as much as the cursor would leave the region at its start. A
    /// cursor outside the region scrolls nothing.
    pub open spec fn spec_autoscroll_by(&self, row: usize, rows: int) -> int {
        if row < self.scroll_top || row > self.scroll_bottom {
            0
        } else if row + rows > self.scroll_bottom {
            row + rows - self.scroll_bottom
        } else if row + rows < self.scroll_top && self.scroll_top - (row + rows) <= isize::MAX {
            row + rows - self.scroll_top
        } else {
            0
        }
    }

    /// The cell in row `r` and column `c` after the cursor is moved from
    /// row `row` by `rows` rows, scrolling the scroll region where the
    /// cursor would leave it.
    pub open spec fn spec_autoscroll_cell(&self, row: usize, rows: int, r: int, c: int) -> Cell {
        let by = self.spec_autoscroll_by(row, rows);
        if by > 0 {
            self.spec_csi_cell('S', 0, by as usize, r, c)
        } else if by < 0 {
            self.spec_csi_cell('T', 0, (-by) as usize, r, c)
        } else {
            self.cell(r, c)
        }
    }

    /// The row of the cursor after it is moved from row `row` by `rows`
    /// rows, scrolling the scroll region where it would leave it: the
    /// cursor goes back by as much as was scrolled, and then on by `rows`.
    pub open spec fn spec_autoscroll_row(&self, row: usize, rows: int) -> usize {
        let top = self.spec_limit_top();
        let bottom = self.spec_limit_bottom();
        let by = self.spec_autoscroll_by(row, rows);
        if by == 0 {
            spec_moved(row, rows, top, bottom)
        } else {
            spec_moved(spec_moved(row, -by, top, bottom), rows, top, bottom)
        }
    }

    /// Whether `after` is what moving the cursor from row `row` and
    /// column `col` by `rows` rows makes of the framebuffer, scrolling the
    /// scroll region where the cursor would leave it: the cells of the
    /// region move, the cursor comes to stand in its row, held to the
    /// screen in its column, and no wrap is pending.
    #[verifier::opaque]
    pub open spec fn spec_autoscrolled(
        &self,
        after: &Framebuffer,
        row: usize,
        col: usize,
        rows: int,
    ) -> bool {
        &&& after.same_size(self)
        &&& after.keeps_settings(self)
        &&& !after.wrap_pending
        &&& after.cursor_col == spec_min(col, self.spec_last_col())
        &&& after.cursor_row == self.spec_autoscroll_row(row, rows)
        &&& forall|r: int, c: int|
            0 <= r < self.height && 0 <= c < self.width ==> #[trigger] after.cell(r, c)
                == self.spec_autoscroll_cell(row, rows, r, c)
    }

    /// Moves the cursor by `rows` rows, scrolling the scroll region where
    /// the cursor would leave it.
    pub fn move_rows_autoscroll(&mut self, rows: isize)
        requires
            old(self).wf(),
        ensures
            final(self).same_size(old(self)),
            final(self).keeps_settings(old(self)),
            old(self).spec_autoscrolled(
                final(self),
                old(self).cursor_row,
                old(self).cursor_col,
                rows as int,
            ),
    {
        reveal(Framebuffer::spec_autoscrolled);
        if self.cursor_row < self.scroll_top || self.cursor_row > self.scroll_bottom {
            self.move_row(rows, true);
            return ;
        }
        let target: i128 = self.cursor_row as i128 + rows as i128;
        let ghost mut scrolled = *self;
        if target > self.scroll_bottom as i128 {
            let n: i128 = target - self.scroll_bottom as i128;
            self.scroll_up(n as usize);
            proof {
                scrolled = *self;
            }
            self.move_row(-(n as isize), true);
        } else if target < self.scroll_top as i128 {
            let n: i128 = self.scroll_top as i128 - target;
            if n <= isize::MAX as i128 {
                self.scroll_down(n as usize);
                proof {
                    scrolled = *self;
                }
                self.move_row(n as isize, true);
            }
        }
        self.move_row(rows, true);
        proof {
            let before = old(self);
            assert forall|r: int, c: int|
                0 <= r < before.height && 0 <= c < before.width implies #[trigger] self.cell(r, c)
                == before.spec_autoscroll_cell(before.cursor_row, rows as int, r, c) by {
                assert(self.cell(r, c) == scrolled.cell(r, c));
            }
        }
    }

    /// Whether a character is written where the cursor is, with nothing
    /// else done: no wrap is pending that wrapping would carry out, insert
    /// mode is off, and the cursor is on the screen, in a row that it can
    /// be moved to.
    pub open spec fn spec_writes_in_place(&self) -> bool {
        &&& !(self.wrap_pending && self.auto_wrap)
        &&& !self.insert_mode
        &&& self.cursor_row < self.height
        &&& self.cursor_col < self.width
        &&& self.spec_limit_top() <= self.cursor_row <= self.spec_limit_bottom()
    }

    /// The cell that a character is written as.
    pub open spec fn spec_written(&self, c: char) -> Cell {
        Cell {
            character: c,
            fg: self.current_fg,
            bg: self.current_bg,
            attrs: self.current_attrs,
            dirty: true,
        }
    }

    /// Whether `after` is the framebuffer with a pending wrap carried out,
    /// where wrapping is on: the cursor stands at the start of the next
    /// row, the scroll region scrolled where the row was its last. Else
    /// nothing is done.
    pub open spec fn spec_wrap_taken(&self, after: &Framebuffer) -> bool {
        if self.wrap_pending && self.auto_wrap {
            self.spec_autoscrolled(after, self.cursor_row, 0, 1)
        } else {
            *after == *self
        }
    }

    /// Whether `after` is the framebuffer with a character placed at the
    /// cursor in the current rendition; in insert mode the rest of the row
    /// moves right first. A cursor outside the screen places nothing.
    pub open spec fn spec_char_placed(&self, after: &Framebuffer, c: char) -> bool {
        if self.cursor_row < self.height && self.cursor_col < self.width {
            &&& spec_only_cells(after, self)
            &&& forall|r: int, col: int|
                0 <= r < self.height && 0 <= col < self.width ==> #[trigger] after.cell(r, col)
                    == if r == self.cursor_row && col == self.cursor_col {
                    self.spec_written(c)
                } else if self.insert_mode {
                    self.spec_chars_inserted(1, r, col)
                } else {
                    self.cell(r, col)
                }
        } else {
            *after == *self
        }
    }

    /// Whether `after` is the framebuffer with the cursor moved on after a
    /// character: one column, or, in the last column, nowhere, with a wrap
    /// pending.
    pub open spec fn spec_cursor_advanced(&self, after: &Framebuffer) -> bool {
        if self.width == 0 || self.cursor_col >= self.width - 1 {
            *after == (Framebuffer { wrap_pending: true, ..*self })
        } else {
            self.spec_col_moved(after, 1, true)
        }
    }

    /// Whether `after` is what writing a character makes of the
    /// framebuffer: a pending wrap is carried out, the character is placed
    /// at the cursor, and the cursor moves on.
    pub open spec fn spec_char_put(&self, after: &Framebuffer, c: char) -> bool {
        exists|wrapped: Framebuffer, placed: Framebuffer|
            #![trigger self.spec_wrap_taken(&wrapped), placed.spec_cursor_advanced(after)]
            self.spec_wrap_taken(&wrapped) && wrapped.spec_char_placed(&placed, c)
                && placed.spec_cursor_advanced(after)
    }

    /// Writes a character at the cursor in the current rendition and moves
    /// the cursor on. A character written in the last column leaves the
    /// cursor there and a wrap pending, which the next character carries
    /// out where wrapping is on.
    pub fn put_char(&mut self, c: char)
        requires
            old(self).wf(),
        ensures
            final(self).same_size(old(self)),
            final(self).keeps_settings(old(self)),
            old(self).spec_char_put(final(self), c),
            old(self).spec_writes_in_place() ==> {
                &&& final(self).cell(old(self).cursor_row as int, old(self).cursor_col as int)
                    == old(self).spec_written(c)
                &&& forall|r: int, col: int|
                    0 <= r < old(self).height && 0 <= col < old(self).width && !(r == old(self).cursor_row && col == old(self).cursor_col) ==> #[trigger] final(self).cell(
                        r,
                        col,
                    ) == old(self).cell(r, col)
                &&& final(self).cursor_row == old(self).cursor_row
                &&& final(self).cursor_col == if old(self).cursor_col + 1 < old(self).width {
                    (old(self).cursor_col + 1) as usize
                } else {
                    old(self).cursor_col
                }
                &&& final(self).wrap_pending == (old(self).cursor_col + 1 >= old(self).width)
            },
    {
        self.take_wrap();
        let ghost wrapped = *self;
        self.place_char(c);
        let ghost placed = *self;
        if self.width == 0 || self.cursor_col >= self.width - 1 {
            self.wrap_pending = true;
        } else {
            self.move_col(1, true, true);
        }
        proof {
            assert(old(self).spec_wrap_taken(&wrapped) && wrapped.spec_char_placed(&placed, c)
                && placed.spec_cursor_advanced(self));
            if old(self).spec_writes_in_place() {
                assert(wrapped == *old(self));
                assert(self.cells == placed.cells);
                assert forall|r: int, col: int|
                    0 <= r < old(self).height && 0 <= col < old(self).width && !(r == old(self).cursor_row && col == old(self).cursor_col) implies #[trigger] self.cell(
                    r,
                    col,
                ) == old(self).cell(r, col) by {
                    assert(placed.cell(r, col) == old(self).cell(r, col));
                }
                assert(self.cell(old(self).cursor_row as int, old(self).cursor_col as int)
                    == placed.cell(old(self).cursor_row as int, old(self).cursor_col as int));
            }
        }
    }

    /// Carries out a pending wrap, where wrapping is on.
    pub fn take_wrap(&mut self)
        requires
            old(self).wf(),
        ensures
            final(self).same_size(old(self)),
            final(self).keeps_settings(old(self)),
            old(self).spec_wrap_taken(final(self)),
    {
        if self.wrap_pending && self.auto_wrap {
            let ghost start = *self;
            self.cursor_col = 0;
            let ghost at_start = *self;
            self.move_rows_autoscroll(1);
            self.wrap_pending = false;
            proof {
                reveal(Framebuffer::spec_autoscrolled);
                assert forall|r: int, col: int|
                    0 <= r < start.height && 0 <= col < start.width implies #[trigger] self.cell(
                    r,
                    col,
                ) == start.spec_autoscroll_cell(start.cursor_row, 1, r, col) by {
                    assert(at_start.spec_autoscroll_cell(at_start.cursor_row, 1, r, col)
                        == start.spec_autoscroll_cell(start.cursor_row, 1, r, col));
                }
            }
        }
    }

    /// Places a character at the cursor in the current rendition; in
    /// insert mode the rest of the row moves right first.
    pub fn place_char(&mut self, c: char)
        requires
            old(self).wf(),
        ensures
            final(self).same_size(old(self)),
            final(self).keeps_settings(old(self)),
            final(self).cursor_row == old(self).cursor_row,
            final(self).cursor_col == old(self).cursor_col,
            final(self).wrap_pending == old(self).wrap_pending,
            old(self).spec_char_placed(final(self), c),
    {
        if self.cursor_row < self.height && self.cursor_col < self.width {
            if self.insert_mode {
                self.insert_chars(1);
            }
            let ghost opened = *self;
            let cell = Cell {
                character: c,
                fg: self.current_fg,
                bg: self.current_bg,
                attrs: self.current_attrs,
                dirty: true,
            };
            let (row, col) = (self.cursor_row, self.cursor_col);
            self.put_cell(row, col, cell);
            proof {
                assert forall|r: int, k: int|
                    0 <= r < self.height && 0 <= k < self.width && !(r == row && k == col) implies #[trigger] self.cell(
                    r,
                    k,
                ) == if old(self).insert_mode {
                    old(self).spec_chars_inserted(1, r, k)
                } else {
                    old(self).cell(r, k)
                } by {
                    assert(self.cell(r, k) == opened.cell(r, k));
                }
            }
        }
    }

    /// Takes rendition parameters into the pen.
    pub fn apply_sgr(&mut self, params: &[u16])
        ensures
            final(self).only_pen(old(self)),
            final(self).spec_pen() == spec_sgr(old(self).spec_pen(), params@, 0),
            old(self).wf() ==> final(self).wf(),
    {
        let n = params.len();
        let mut pen = Pen { attrs: self.current_attrs, fg: self.current_fg, bg: self.current_bg };
        let ghost start = pen;
        let mut i: usize = 0;
        while i < n
            invariant
                n == params@.len(),
                i <= n + 4,
                spec_sgr(start, params@, 0) == spec_sgr(pen, params@, i as int),
            decreases n + 4 - i,
        {
            let (next, step) = sgr_step(pen, params, i);
            pen = next;
            i = i + step;
        }
        self.current_attrs = pen.attrs;
        self.current_fg = pen.fg;
        self.current_bg = pen.bg;
    }
}

/// Whether a list of octets holds a given one.
fn holds_octet(octets: &[u8], wanted: u8) -> (found: bool)
    ensures
        found == octets@.contains(wanted),
{
    let mut i: usize = 0;
    while i < octets.len()
        invariant
            i <= octets@.len(),
            forall|k: int| 0 <= k < i ==> octets@[k] != wanted,
        decreases octets@.len() - i,
    {
        if octets[i] == wanted {
            return true;
        }
        i = i + 1;
    }
    false
}

/// The first `n` parameters of a sequence with their sub-parameters, in
/// one list.
pub open spec fn spec_flat_params(params: Seq<Vec<u16>>, n: nat) -> Seq<u16>
    decreases n,
{
    if n == 0 {
        Seq::empty()
    } else {
        spec_flat_params(params, (n - 1) as nat) + params[n - 1]@
    }
}

/// The parameters of a sequence with their sub-parameters, in one list.
pub fn flatten_params(params: &Vec<Vec<u16>>) -> (flat: Vec<u16>)
    ensures
        flat@ == spec_flat_params(params@, params@.len()),
{
    let mut flat: Vec<u16> = Vec::new();
    let mut i: usize = 0;
    while i < params.len()
        invariant
            i <= params@.len(),
            flat@ == spec_flat_params(params@, i as nat),
        decreases params@.len() - i,
    {
        let group = &params[i];
        let ghost before = flat@;
        let mut j: usize = 0;
        assert(flat@ =~= before + group@.take(0));
        while j < group.len()
            invariant
                j <= group@.len(),
                flat@ == before + group@.take(j as int),
            decreases group@.len() - j,
        {
            flat.push(group[j]);
            j = j + 1;
            assert(flat@ =~= before + group@.take(j as int));
        }
        assert(group@.take(j as int) =~= group@);
        i = i + 1;
    }
    flat
}

impl Framebuffer {
    /// Restores the saved cursor, held to the screen.
    pub fn restore_cursor(&mut self)
        ensures
            spec_only_cursor(final(self), old(self)),
            !final(self).wrap_pending,
            final(self).cursor_row == spec_clamp_to(old(self).saved_cursor.0, old(self).height),
            final(self).cursor_col == spec_clamp_to(old(self).saved_cursor.1, old(self).width),
            old(self).wf() ==> final(self).wf(),
    {
        let (row, col) = self.saved_cursor;
        self.cursor_row = clamp_to(row, self.height);
        self.cursor_col = clamp_to(col, self.width);
        self.wrap_pending = false;
    }

    /// Writes a character, as `put_char` does.
    pub fn print(&mut self, c: char)
        requires
            old(self).wf(),
        ensures
            final(self).same_size(old(self)),
            final(self).keeps_settings(old(self)),
            old(self).spec_char_put(final(self), c),
            old(self).spec_writes_in_place() ==> {
                &&& final(self).cell(old(self).cursor_row as int, old(self).cursor_col as int)
                    == old(self).spec_written(c)
                &&& forall|r: int, col: int|
                    0 <= r < old(self).height && 0 <= col < old(self).width && !(r == old(self).cursor_row && col == old(self).cursor_col) ==> #[trigger] final(self).cell(
                        r,
                        col,
                    ) == old(self).cell(r, col)
                &&& final(self).cursor_row == old(self).cursor_row
                &&& final(self).cursor_col == if old(self).cursor_col + 1 < old(self).width {
                    (old(self).cursor_col + 1) as usize
                } else {
                    old(self).cursor_col
                }
                &&& final(self).wrap_pending == (old(self).cursor_col + 1 >= old(self).width)
            },
    {
        self.put_char(c);
    }

    /// Whether `after` is the framebuffer with the cursor moved by `n`
    /// columns, or to column `n`, and held to the rows it can be moved to.
    pub open spec fn spec_col_moved(&self, after: &Framebuffer, n: int, relative: bool) -> bool {
        &&& spec_only_cursor(after, self)
        &&& !after.wrap_pending
        &&& after.cursor_row == spec_moved(
            self.cursor_row,
            0,
            self.spec_limit_top(),
            self.spec_limit_bottom(),
        )
        &&& after.cursor_col == spec_moved(
            if relative {
                self.cursor_col
            } else {
                0
            },
            n,
            0,
            self.spec_last_col(),
        )
    }

    /// Whether `after` is what a control octet makes of the framebuffer:
    /// backspace moves the cursor one column back, tab to the next tab
    /// stop, line feed, vertical tab and form feed one row on, scrolling
    /// at the end of the scroll region, carriage return to the first
    /// column; tab set puts a tab stop where the cursor is; the others do
    /// nothing.
    pub open spec fn spec_execute_effect(&self, after: &Framebuffer, byte: u8) -> bool {
        if byte == 0x08 {
            self.spec_col_moved(after, -1, true)
        } else if byte == 0x09 {
            self.spec_tabbed(after, true, 1)
        } else if byte == 0x0A || byte == 0x0B || byte == 0x0C {
            self.spec_autoscrolled(after, self.cursor_row, self.cursor_col, 1)
        } else if byte == 0x0D {
            self.spec_col_moved(after, 0, false)
        } else if byte == 0x88 {
            &&& *after == (Framebuffer { tab_stops: after.tab_stops, ..*self })
            &&& after.tab_stops@ == if self.cursor_col < self.tab_stops@.len() {
                self.tab_stops@.update(self.cursor_col as int, true)
            } else {
                self.tab_stops@
            }
        } else {
            *after == *self
        }
    }

    /// Takes a control octet: backspace, tab, line feed, carriage return
    /// and tab set act; the others do nothing.
    pub fn execute(&mut self, byte: u8)
        requires
            old(self).wf(),
        ensures
            final(self).same_size(old(self)),
            old(self).spec_execute_effect(final(self), byte),
    {
        if byte == 0x08 {
            self.move_col(-1, true, false);
        } else if byte == 0x09 {
            self.tab_by(true, 1);
        } else if byte == 0x0A || byte == 0x0B || byte == 0x0C {
            self.move_rows_autoscroll(1);
        } else if byte == 0x0D {
            self.move_col(0, false, false);
        } else if byte == 0x88 {
            if self.cursor_col < self.tab_stops.len() {
                let col = self.cursor_col;
                self.tab_stops[col] = true;
            }
        }
    }

    /// Moves the cursor to a column, held to the screen.
    pub fn move_to_col(&mut self, col: usize)
        requires
            old(self).wf(),
        ensures
            final(self).wf(),
            spec_only_cursor(final(self), old(self)),
            !final(self).wrap_pending,
            final(self).cursor_col == spec_min(col, old(self).spec_last_col()),
            final(self).cursor_row == spec_moved(
                old(self).cursor_row,
                0,
                old(self).spec_limit_top(),
                old(self).spec_limit_bottom(),
            ),
    {
        let last = if self.width == 0 {
            0
        } else {
            self.width - 1
        };
        self.move_col(0, false, false);
        self.cursor_col = if col < last {
            col
        } else {
            last
        };
    }

    /// Whether `after` is what an OSC sequence makes of the framebuffer:
    /// one that begins with 0 or 2 sets the title, where the title is
    /// valid UTF-8; any other does nothing.
    pub open spec fn spec_osc_effect(&self, after: &Framebuffer, params: Seq<Vec<u8>>) -> bool {
        &&& *after == (Framebuffer { title: after.title, ..*self })
        &&& after.title@ == if params.len() >= 2 && (params[0]@ == seq![0x30u8] || params[0]@
            == seq![0x32u8]) && vstd::utf8::valid_utf8(params[1]@) {
            vstd::utf8::decode_utf8(params[1]@)
        } else {
            self.title@
        }
    }

    /// Takes an OSC sequence: one that begins with 0 or 2 sets the title,
    /// where the title is valid UTF-8.
    pub fn osc_dispatch(&mut self, params: &Vec<Vec<u8>>, _bell_terminated: bool)
        requires
            old(self).wf(),
        ensures
            final(self).same_size(old(self)),
            old(self).spec_osc_effect(final(self), params@),
    {
        if params.len() >= 2 {
            let first = &params[0];
            let names_title = first.len() == 1 && (first[0] == 0x30 || first[0] == 0x32);
            proof {
                if names_title {
                    assert(first@ =~= seq![first@[0]]);
                } else if first@.len() == 1 {
                    assert(seq![0x30u8][0] == 0x30u8);
                    assert(seq![0x32u8][0] == 0x32u8);
                }
            }
            if names_title {
                match crate::bytes::utf8_string(params[1].as_slice()) {
                    Some(title) => {
                        self.title = title;
                    },
                    None => {},
                }
            }
        }
    }

    /// Whether the framebuffer is a screen that nothing has been done to:
    /// empty cells, the cursor in the top left corner and shown as a block,
    /// no title, and the modes that a screen starts in.
    pub open spec fn is_fresh(&self) -> bool {
        &&& self.wf()
        &&& forall|r: int, c: int|
            0 <= r < self.height && 0 <= c < self.width ==> #[trigger] self.cell(r, c)
                == spec_blank(Color::Default)
        &&& self.cursor_row == 0
        &&& self.cursor_col == 0
        &&& self.cursor_visible
        &&& self.cursor_style == CursorStyle::Block
        &&& self.title@ == Seq::<char>::empty()
        &&& self.initial_modes()
    }

    /// Whether `after` is the framebuffer with the saved cursor restored,
    /// held to the screen.
    pub open spec fn spec_cursor_restored(&self, after: &Framebuffer) -> bool {
        &&& spec_only_cursor(after, self)
        &&& !after.wrap_pending
        &&& after.cursor_row == spec_clamp_to(self.saved_cursor.0, self.height)
        &&& after.cursor_col == spec_clamp_to(self.saved_cursor.1, self.width)
    }

    /// Whether `after` is what an ESC sequence makes of the framebuffer.
    ///
    /// A sequence with intermediate octets does nothing. Of the others, 7
    /// saves the cursor and 8 restores it; M moves the cursor one row up
    /// and D one row down, scrolling at the ends of the scroll region; E
    /// moves it to the start of the next row; c makes the screen anew.
    /// Any other does nothing.
    pub open spec fn spec_esc_effect(
        &self,
        after: &Framebuffer,
        intermediates: Seq<u8>,
        byte: u8,
    ) -> bool {
        if intermediates.len() > 0 {
            *after == *self
        } else if byte == 0x37 {
            *after == (Framebuffer { saved_cursor: (self.cursor_row, self.cursor_col), ..*self })
        } else if byte == 0x38 {
            self.spec_cursor_restored(after)
        } else if byte == 0x4D {
            self.spec_autoscrolled(after, self.cursor_row, self.cursor_col, -1)
        } else if byte == 0x44 {
            self.spec_autoscrolled(after, self.cursor_row, self.cursor_col, 1)
        } else if byte == 0x45 {
            self.spec_autoscrolled(
                after,
                spec_moved(self.cursor_row, 0, self.spec_limit_top(), self.spec_limit_bottom()),
                0,
                1,
            )
        } else if byte == 0x63 {
            after.is_fresh() && after.width == self.width && after.height == self.height
        } else {
            *after == *self
        }
    }

    /// Takes an ESC sequence.
    pub fn esc_dispatch(&mut self, intermediates: &[u8], _ignore: bool, byte: u8)
        requires
            old(self).wf(),
        ensures
            final(self).same_size(old(self)),
            old(self).spec_esc_effect(final(self), intermediates@, byte),
    {
        if intermediates.len() != 0 {
            return ;
        }
        if byte == 0x37 {
            self.saved_cursor = (self.cursor_row, self.cursor_col);
        } else if byte == 0x38 {
            self.restore_cursor();
        } else if byte == 0x4D {
            self.move_rows_autoscroll(-1);
        } else if byte == 0x44 {
            self.move_rows_autoscroll(1);
        } else if byte == 0x45 {
            self.move_col(0, false, false);
            let ghost mid = *self;
            self.move_rows_autoscroll(1);
            proof {
                reveal(Framebuffer::spec_autoscrolled);
                let before = old(self);
                assert forall|r: int, c: int|
                    0 <= r < before.height && 0 <= c < before.width implies #[trigger] self.cell(
                    r,
                    c,
                ) == before.spec_autoscroll_cell(mid.cursor_row, 1, r, c) by {
                    assert(mid.spec_autoscroll_cell(mid.cursor_row, 1, r, c)
                        == before.spec_autoscroll_cell(mid.cursor_row, 1, r, c));
                }
            }
        } else if byte == 0x63 {
            let (w, h) = (self.width, self.height);
            *self = Framebuffer::new(w, h);
        }
    }

    /// Whether `after` is what setting or resetting one private mode
    /// makes of the framebuffer.
    ///
    /// Mode 3 empties the screen. Mode 25 shows or hides the cursor. Mode
    /// 1049 shows the alternate screen, empty, with the cursor at home,
    /// and keeps the main screen; reset, it shows the main screen again,
    /// to be drawn anew. Mode 7 is wrapping at the end of a row. Mode 6
    /// counts rows from the start of the scroll region, and moves the
    /// cursor home. Any other mode changes nothing.
    pub open spec fn spec_private_mode(&self, after: &Framebuffer, mode: u16, on: bool) -> bool {
        if mode == 3 {
            &&& spec_only_cells(after, self)
            &&& forall|r: int, c: int|
                0 <= r < self.height && 0 <= c < self.width ==> #[trigger] after.cell(r, c)
                    == spec_blank(self.current_bg)
        } else if mode == 25 {
            *after == (Framebuffer { cursor_visible: on, ..*self })
        } else if mode == 1049 && on {
            &&& *after == (Framebuffer {
                cells: after.cells,
                alternate_screen: Some(self.cells),
                cursor_row: spec_moved(
                    self.spec_limit_top(),
                    0,
                    self.spec_limit_top(),
                    self.spec_limit_bottom(),
                ),
                cursor_col: 0,
                wrap_pending: false,
                ..*self
            })
            &&& after.grid_ok()
            &&& forall|r: int, c: int|
                0 <= r < self.height && 0 <= c < self.width ==> #[trigger] after.cell(r, c)
                    == spec_blank(Color::Default)
        } else if mode == 1049 {
            match self.alternate_screen {
                Some(main) => {
                    &&& *after == (Framebuffer {
                        cells: after.cells,
                        alternate_screen: None,
                        ..*self
                    })
                    &&& after.grid_ok()
                    &&& forall|r: int, c: int|
                        0 <= r < self.height && 0 <= c < self.width ==> #[trigger] after.cell(r, c)
                            == (Cell { dirty: true, ..main@[r]@[c] })
                },
                None => *after == *self,
            }
        } else if mode == 7 {
            *after == (Framebuffer { auto_wrap: on, ..*self })
        } else if mode == 6 {
            *after == (Framebuffer {
                origin_mode: on,
                cursor_row: spec_moved(
                    self.spec_limit_top(),
                    0,
                    self.spec_limit_top(),
                    self.spec_limit_bottom(),
                ),
                cursor_col: 0,
                wrap_pending: false,
                ..*self
            })
        } else {
            *after == *self
        }
    }

    /// Shows the alternate screen, empty, with the cursor at home, and
    /// keeps the main screen.
    pub fn show_alternate(&mut self)
        requires
            old(self).wf(),
        ensures
            final(self).same_size(old(self)),
            old(self).spec_private_mode(final(self), 1049, true),
    {
        let mut screen = blank_grid(self.width, self.height);
        std::mem::swap(&mut self.cells, &mut screen);
        self.alternate_screen = Some(screen);
        let ghost swapped = *self;
        self.move_row(0, false);
        self.move_col(0, false, false);
        proof {
            assert forall|r: int, c: int|
                0 <= r < self.height && 0 <= c < self.width implies #[trigger] self.cell(r, c)
                == spec_blank(Color::Default) by {
                assert(self.cell(r, c) == swapped.cells@[r]@[c]);
            }
        }
    }

    /// Shows the main screen again, to be drawn anew, where the alternate
    /// screen is shown.
    pub fn show_main(&mut self)
        requires
            old(self).wf(),
        ensures
            final(self).same_size(old(self)),
            old(self).spec_private_mode(final(self), 1049, false),
    {
        let mut saved: Option<Vec<Vec<Cell>>> = None;
        std::mem::swap(&mut self.alternate_screen, &mut saved);
        match saved {
            Some(main) => {
                let ghost kept = main;
                self.cells = main;
                let ghost restored = *self;
                self.mark_all_dirty();
                proof {
                    assert forall|r: int, c: int|
                        0 <= r < self.height && 0 <= c < self.width implies #[trigger] self.cell(
                        r,
                        c,
                    ) == (Cell { dirty: true, ..kept@[r]@[c] }) by {
                        assert(restored.cell(r, c) == kept@[r]@[c]);
                    }
                }
            },
            None => {},
        }
    }

    /// Sets or resets origin mode, and moves the cursor home.
    pub fn set_origin_mode(&mut self, on: bool)
        requires
            old(self).wf(),
        ensures
            final(self).same_size(old(self)),
            old(self).spec_private_mode(final(self), 6, on),
    {
        self.move_row(0, false);
        self.move_col(0, false, false);
        self.origin_mode = on;
    }

    /// Sets or resets one private mode.
    pub fn set_private_mode(&mut self, mode: u16, on: bool)
        requires
            old(self).wf(),
        ensures
            final(self).same_size(old(self)),
            old(self).spec_private_mode(final(self), mode, on),
    {
        if mode == 3 {
            self.erase_all();
        } else if mode == 25 {
            self.cursor_visible = on;
        } else if mode == 1049 {
            if on {
                self.show_alternate();
            } else {
                self.show_main();
            }
        } else if mode == 7 {
            self.auto_wrap = on;
        } else if mode == 6 {
            self.set_origin_mode(on);
        }
    }

    /// Whether `after` is what setting or resetting the private modes of
    /// `modes`, one after the other, makes of the framebuffer.
    pub open spec fn spec_private_modes(&self, after: &Framebuffer, modes: Seq<u16>, on: bool) -> bool {
        exists|states: Seq<Framebuffer>| #[trigger]
            spec_mode_chain(states, modes, on) && states[0] == *self && states.last() == *after
    }

    /// Sets or resets private modes, one after the other.
    pub fn set_private_modes(&mut self, params: &[u16], on: bool)
        requires
            old(self).wf(),
        ensures
            final(self).same_size(old(self)),
            old(self).spec_private_modes(final(self), params@, on),
    {
        let mut i: usize = 0;
        let ghost mut states: Seq<Framebuffer> = seq![*self];
        while i < params.len()
            invariant
                i <= params@.len(),
                self.same_size(old(self)),
                spec_mode_chain(states, params@.take(i as int), on),
                states[0] == *old(self),
                states.last() == *self,
            decreases params@.len() - i,
        {
            let ghost earlier = states;
            self.set_private_mode(params[i], on);
            proof {
                states = earlier.push(*self);
                let taken = params@.take(i + 1);
                assert forall|k: int| 0 <= k < taken.len() implies (
                #[trigger] states[k]).spec_private_mode(&states[k + 1], taken[k], on) by {
                    if k < i {
                        assert(earlier[k].spec_private_mode(
                            &earlier[k + 1],
                            params@.take(i as int)[k],
                            on,
                        ));
                    }
                }
            }
            i = i + 1;
        }
        assert(params@.take(i as int) =~= params@);
    }

    /// The row of the cursor after a CSI sequence that moves it by or to
    /// `n`: A and F go up, B and E down, H, f and d to row `n` counted from
    /// the first row the cursor can be moved to; the others keep the row,
    /// held to the rows the cursor can be moved to.
    pub open spec fn spec_csi_row(&self, action: char, n: int) -> usize {
        let top = self.spec_limit_top();
        let bottom = self.spec_limit_bottom();
        let snapped = spec_moved(self.cursor_row, 0, top, bottom);
        if action == 'A' {
            spec_moved(self.cursor_row, -n, top, bottom)
        } else if action == 'B' {
            spec_moved(self.cursor_row, n, top, bottom)
        } else if action == 'E' {
            spec_moved(snapped, n, top, bottom)
        } else if action == 'F' {
            spec_moved(snapped, -n, top, bottom)
        } else if action == 'H' || action == 'f' || action == 'd' {
            spec_moved(top, n - 1, top, bottom)
        } else {
            snapped
        }
    }

    /// The column of the cursor after a CSI sequence that moves it by `n`
    /// or to column `m`: C goes right, D left, E and F to the first
    /// column, G to column `n`, H and f to column `m`; the others keep the
    /// column, held to the screen.
    pub open spec fn spec_csi_col(&self, action: char, n: int, m: int) -> usize {
        let last = self.spec_last_col();
        if action == 'C' {
            spec_moved(self.cursor_col, n, 0, last)
        } else if action == 'D' {
            spec_moved(self.cursor_col, -n, 0, last)
        } else if action == 'E' || action == 'F' {
            0
        } else if action == 'G' {
            spec_moved(0, n - 1, 0, last)
        } else if action == 'H' || action == 'f' {
            spec_moved(0, m - 1, 0, last)
        } else {
            spec_min(self.cursor_col, last)
        }
    }

    /// Whether a CSI sequence with this final character moves the cursor
    /// and does nothing else.
    pub open spec fn spec_csi_moves(action: char) -> bool {
        action == 'A' || action == 'B' || action == 'C' || action == 'D' || action == 'E'
            || action == 'F' || action == 'G' || action == 'H' || action == 'f' || action == 'd'
    }

    /// Moves the cursor as a CSI sequence with final character `action`
    /// and counts `n` and `m` says.
    pub fn csi_move(&mut self, action: char, n: u16, m: u16)
        requires
            old(self).wf(),
            Framebuffer::spec_csi_moves(action),
            n >= 1,
            m >= 1,
        ensures
            final(self).wf(),
            spec_only_cursor(final(self), old(self)),
            !final(self).wrap_pending,
            final(self).cursor_row == old(self).spec_csi_row(action, n as int),
            final(self).cursor_col == old(self).spec_csi_col(action, n as int, m as int),
    {
        let step: isize = n as isize;
        if action == 'A' {
            self.move_row(-step, true);
        } else if action == 'B' {
            self.move_row(step, true);
        } else if action == 'C' {
            self.move_col(step, true, false);
        } else if action == 'D' {
            self.move_col(-step, true, false);
        } else if action == 'E' {
            self.move_col(0, false, false);
            self.move_row(step, true);
        } else if action == 'F' {
            self.move_col(0, false, false);
            self.move_row(-step, true);
        } else if action == 'G' {
            self.move_col(step - 1, false, false);
        } else if action == 'H' || action == 'f' {
            self.move_row(step - 1, false);
            self.move_col(m as isize - 1, false, false);
        } else {
            self.move_row(step - 1, false);
        }
    }

    /// Whether a CSI sequence with this final character changes cells and
    /// nothing else: it erases, or inserts or deletes cells or rows, or
    /// scrolls.
    pub open spec fn spec_csi_draws(action: char, private: bool) -> bool {
        action == 'J' || action == 'K' || action == 'X' || action == 'L' || action == 'M'
            || action == 'P' || action == '@' || ((action == 'S' || action == 'T') && !private)
    }

    /// The cell in row `r` and column `c` after a CSI sequence that changes
    /// cells, with first parameter `first` and count `n`.
    pub open spec fn spec_csi_cell(&self, action: char, first: u16, n: usize, r: int, c: int) -> Cell {
        let blank = spec_blank(self.current_bg);
        let row = self.cursor_row;
        let col = self.cursor_col;
        let in_region = self.scroll_top <= row <= self.scroll_bottom;
        let scrolls = self.scroll_top < self.scroll_bottom;
        if action == 'J' {
            if (first == 0 && (r > row || (r == row && c >= col))) || (first == 1 && (r < row || (r
                == row && c <= col))) || first == 2 || first == 3 {
                blank
            } else {
                self.cell(r, c)
            }
        } else if action == 'K' {
            if r == row && ((first == 0 && c >= col) || (first == 1 && c <= col) || first == 2) {
                blank
            } else {
                self.cell(r, c)
            }
        } else if action == 'X' {
            if r == row && col <= c < col + n {
                blank
            } else {
                self.cell(r, c)
            }
        } else if action == 'L' {
            if in_region {
                self.spec_shifted_down(row, self.scroll_bottom, n, r, c)
            } else {
                self.cell(r, c)
            }
        } else if action == 'M' {
            if in_region {
                self.spec_shifted_up(row, self.scroll_bottom, n, r, c)
            } else {
                self.cell(r, c)
            }
        } else if action == 'P' {
            self.spec_chars_deleted(n, r, c)
        } else if action == '@' {
            self.spec_chars_inserted(n, r, c)
        } else if scrolls {
            if action == 'S' {
                self.spec_shifted_up(self.scroll_top, self.scroll_bottom, n, r, c)
            } else {
                self.spec_shifted_down(self.scroll_top, self.scroll_bottom, n, r, c)
            }
        } else if r == self.scroll_top {
            Cell { dirty: true, ..self.cell(r, c) }
        } else {
            self.cell(r, c)
        }
    }

    /// Changes cells as a CSI sequence with final character `action`, first
    /// parameter `first` and count `n` says.
    pub fn csi_draw(&mut self, action: char, first: u16, n: usize)
        requires
            old(self).wf(),
            Framebuffer::spec_csi_draws(action, false),
        ensures
            final(self).wf(),
            spec_only_cells(final(self), old(self)),
            forall|r: int, c: int|
                0 <= r < old(self).height && 0 <= c < old(self).width ==> #[trigger] final(self).cell(r, c) == old(self).spec_csi_cell(action, first, n, r, c),
    {
        if action == 'J' {
            if first == 0 {
                self.erase_below();
            } else if first == 1 {
                self.erase_above();
            } else if first == 2 || first == 3 {
                self.erase_all();
            }
        } else if action == 'K' {
            if first == 0 {
                self.erase_to_eol();
            } else if first == 1 {
                self.erase_to_bol();
            } else if first == 2 {
                self.erase_line();
            }
        } else if action == 'L' {
            self.insert_lines(n);
        } else if action == 'M' {
            self.delete_lines(n);
        } else if action == 'P' {
            self.delete_chars(n);
        } else if action == 'S' {
            self.scroll_up(n);
        } else if action == 'T' {
            self.scroll_down(n);
        } else if action == 'X' {
            self.erase_chars(n);
        } else {
            self.insert_chars(n);
        }
    }

    /// The column that the cursor is tabbed to, forward or backward by
    /// `count` tab stops: the last column where there are not as many
    /// after it, the first where there are not as many before it.
    pub open spec fn spec_tab_col(&self, forward: bool, count: int) -> usize {
        let stop = self.spec_next_tab_stop(
            if forward {
                count
            } else {
                -count
            },
        );
        spec_min(
            match stop {
                Some(col) => col,
                None => self.spec_last_col(),
            },
            self.spec_last_col(),
        )
    }

    /// Whether `after` is the framebuffer with the cursor tabbed forward
    /// or backward by `count` tab stops. A pending wrap stays pending.
    pub open spec fn spec_tabbed(&self, after: &Framebuffer, forward: bool, count: int) -> bool {
        &&& spec_only_cursor(after, self)
        &&& after.wrap_pending == self.wrap_pending
        &&& after.cursor_col == self.spec_tab_col(forward, count)
        &&& after.cursor_row == spec_moved(
            self.cursor_row,
            0,
            self.spec_limit_top(),
            self.spec_limit_bottom(),
        )
    }

    /// Moves the cursor by `count` tab stops, forward or backward.
    pub fn tab_by(&mut self, forward: bool, count: u16)
        requires
            old(self).wf(),
        ensures
            final(self).wf(),
            old(self).spec_tabbed(final(self), forward, count as int),
    {
        let wrap_state = self.wrap_pending;
        let stop = if forward {
            self.next_tab_stop(count as i32)
        } else {
            self.next_tab_stop(-(count as i32))
        };
        let col = match stop {
            Some(c) => c,
            None => if self.width == 0 {
                0
            } else {
                self.width - 1
            },
        };
        self.move_to_col(col);
        self.wrap_pending = wrap_state;
    }

    /// Clears tab stops: the one under the cursor for 0, all for 3.
    pub fn csi_clear_tabs(&mut self, which: u16)
        requires
            old(self).wf(),
        ensures
            final(self).wf(),
            *final(self) == (Framebuffer { tab_stops: final(self).tab_stops, ..*old(self) }),
            final(self).tab_stops@.len() == old(self).tab_stops@.len(),
            forall|c: int|
                0 <= c < old(self).tab_stops@.len() ==> #[trigger] final(self).tab_stops@[c] == (
                old(self).tab_stops@[c] && !(which == 3 || (which == 0 && c == old(self).cursor_col))),
    {
        if which == 0 {
            if self.cursor_col < self.tab_stops.len() {
                let col = self.cursor_col;
                self.tab_stops[col] = false;
            }
        } else if which == 3 {
            let mut i: usize = 0;
            while i < self.tab_stops.len()
                invariant
                    i <= self.tab_stops@.len(),
                    old(self).wf(),
                    *self == (Framebuffer { tab_stops: self.tab_stops, ..*old(self) }),
                    self.tab_stops@.len() == old(self).tab_stops@.len(),
                    forall|c: int| 0 <= c < i ==> !(#[trigger] self.tab_stops@[c]),
                    forall|c: int|
                        i <= c < self.tab_stops@.len() ==> #[trigger] self.tab_stops@[c] == old(self).tab_stops@[c],
                decreases self.tab_stops@.len() - i,
            {
                self.tab_stops[i] = false;
                i = i + 1;
            }
        }
    }

    /// Sets or resets insert mode where the parameters name mode 4.
    pub fn csi_set_modes(&mut self, params: &[u16], on: bool)
        ensures
            *final(self) == (Framebuffer {
                insert_mode: if params@.contains(4u16) {
                    on
                } else {
                    old(self).insert_mode
                },
                ..*old(self)
            }),
    {
        let mut i: usize = 0;
        while i < params.len()
            invariant
                i <= params@.len(),
                *self == (Framebuffer {
                    insert_mode: if params@.take(i as int).contains(4u16) {
                        on
                    } else {
                        old(self).insert_mode
                    },
                    ..*old(self)
                }),
            decreases params@.len() - i,
        {
            proof {
                let before = params@.take(i as int);
                let after = params@.take(i + 1);
                assert(after =~= before.push(params@[i as int]));
                if before.contains(4u16) {
                    let k = choose|k: int| 0 <= k < before.len() && before[k] == 4u16;
                    assert(after[k] == 4u16);
                }
                if params@[i as int] == 4u16 {
                    assert(after[i as int] == 4u16);
                }
                if after.contains(4u16) && !before.contains(4u16) {
                    let k = choose|k: int| 0 <= k < after.len() && after[k] == 4u16;
                    if k < i {
                        assert(before[k] == 4u16);
                    }
                }
            }
            if params[i] == 4 {
                self.insert_mode = on;
            }
            i = i + 1;
        }
        assert(params@.take(i as int) =~= params@);
    }

    /// Sets the scroll region to the rows from `top` to `bottom`, counted
    /// from one, and moves the cursor home; a region of fewer than two
    /// rows, or one that ends past the screen, is refused.
    pub fn csi_set_region(&mut self, top: usize, bottom: usize)
        requires
            old(self).wf(),
            top >= 1,
        ensures
            final(self).wf(),
            !(top < bottom <= old(self).height) ==> *final(self) == *old(self),
            top < bottom <= old(self).height ==> {
                &&& final(self).scroll_top == top - 1
                &&& final(self).scroll_bottom == bottom - 1
                &&& final(self).cursor_col == 0
                &&& final(self).cursor_row == final(self).spec_limit_top()
                &&& !final(self).wrap_pending
                &&& *final(self) == (Framebuffer {
                    scroll_top: final(self).scroll_top,
                    scroll_bottom: final(self).scroll_bottom,
                    cursor_row: final(self).cursor_row,
                    cursor_col: final(self).cursor_col,
                    wrap_pending: final(self).wrap_pending,
                    ..*old(self)
                })
            },
    {
        if top < bottom && bottom <= self.height {
            self.scroll_top = top - 1;
            self.scroll_bottom = bottom - 1;
            self.move_row(0, false);
            self.move_col(0, false, false);
        }
    }

    /// Whether `after` is what a CSI sequence makes of the framebuffer.
    ///
    /// A to G, H, f and d move the cursor; I and Z move it to tab stops;
    /// J, K and X erase; L, M, P and @ insert and delete rows and cells; S
    /// and T scroll; g clears tab stops; m sets the rendition; h and l set
    /// and reset modes; r sets the scroll region; s and u save and restore
    /// the cursor. A count of zero stands for one. Any other sequence does
    /// nothing.
    pub open spec fn spec_csi_effect(
        &self,
        after: &Framebuffer,
        params: Seq<u16>,
        intermediates: Seq<u8>,
        action: char,
    ) -> bool {
        let first = if params.len() > 0 {
            params[0]
        } else {
            0u16
        };
        let second = if params.len() > 1 {
            params[1]
        } else {
            0u16
        };
        let n: u16 = if first == 0 {
            1
        } else {
            first
        };
        let m: u16 = if second == 0 {
            1
        } else {
            second
        };
        let private = intermediates.contains(0x3Fu8);
        if Framebuffer::spec_csi_moves(action) {
            &&& spec_only_cursor(after, self)
            &&& !after.wrap_pending
            &&& after.cursor_row == self.spec_csi_row(action, n as int)
            &&& after.cursor_col == self.spec_csi_col(action, n as int, m as int)
        } else if Framebuffer::spec_csi_draws(action, private) {
            &&& spec_only_cells(after, self)
            &&& forall|r: int, c: int|
                0 <= r < self.height && 0 <= c < self.width ==> #[trigger] after.cell(r, c)
                    == self.spec_csi_cell(action, first, n as usize, r, c)
        } else if action == 'I' || action == 'Z' {
            self.spec_tabbed(after, action == 'I', n as int)
        } else if action == 'm' {
            &&& after.only_pen(self)
            &&& after.spec_pen() == spec_sgr(
                self.spec_pen(),
                if params.len() == 0 {
                    seq![0u16]
                } else {
                    params
                },
                0,
            )
        } else if (action == 'h' || action == 'l') && !private {
            *after == (Framebuffer {
                insert_mode: if params.contains(4u16) {
                    action == 'h'
                } else {
                    self.insert_mode
                },
                ..*self
            })
        } else if action == 's' {
            *after == (Framebuffer { saved_cursor: (self.cursor_row, self.cursor_col), ..*self })
        } else if action == 'u' {
            self.spec_cursor_restored(after)
        } else if action == 'g' {
            &&& *after == (Framebuffer { tab_stops: after.tab_stops, ..*self })
            &&& after.tab_stops@.len() == self.tab_stops@.len()
            &&& forall|c: int|
                0 <= c < self.tab_stops@.len() ==> #[trigger] after.tab_stops@[c] == (
                self.tab_stops@[c] && !(first == 3 || (first == 0 && c == self.cursor_col)))
        } else if action == 'r' && !private {
            let bottom = if second == 0 {
                self.height
            } else {
                second as usize
            };
            if n < bottom <= self.height {
                &&& *after == (Framebuffer {
                    scroll_top: (n - 1) as usize,
                    scroll_bottom: (bottom - 1) as usize,
                    cursor_row: after.cursor_row,
                    cursor_col: 0,
                    wrap_pending: false,
                    ..*self
                })
                &&& after.cursor_row == after.spec_limit_top()
            } else {
                *after == *self
            }
        } else if (action == 'h' || action == 'l') && private {
            self.spec_private_modes(after, params, action == 'h')
        } else {
            *after == *self
        }
    }

    /// Takes a CSI sequence.
    ///
    /// A to G, H, f and d move the cursor; I and Z move it to tab stops;
    /// J, K and X erase; L, M, P and @ insert and delete rows and cells; S
    /// and T scroll; g clears tab stops; m sets the rendition; h and l set
    /// and reset modes; r sets the scroll region; s and u save and restore
    /// the cursor. A count of zero stands for one. Other sequences do
    /// nothing.
    pub fn csi_dispatch(&mut self, params: &[u16], intermediates: &[u8], _ignore: bool, action: char)
        requires
            old(self).wf(),
        ensures
            final(self).same_size(old(self)),
            old(self).spec_csi_effect(final(self), params@, intermediates@, action),
    {
        let first: u16 = if params.len() > 0 {
            params[0]
        } else {
            0
        };
        let second: u16 = if params.len() > 1 {
            params[1]
        } else {
            0
        };
        let has_question = holds_octet(intermediates, 0x3F);
        let n: u16 = if first == 0 {
            1
        } else {
            first
        };
        let m: u16 = if second == 0 {
            1
        } else {
            second
        };
        if action == 'A' || action == 'B' || action == 'C' || action == 'D' || action == 'E'
            || action == 'F' || action == 'G' || action == 'H' || action == 'f' || action == 'd' {
            self.csi_move(action, n, m);
        } else if action == 'J' || action == 'K' || action == 'X' || action == 'L' || action == 'M'
            || action == 'P' || action == '@' || ((action == 'S' || action == 'T')
            && !has_question) {
            self.csi_draw(action, first, n as usize);
        } else if action == 'I' || action == 'Z' {
            self.tab_by(action == 'I', n);
        } else if action == 'g' {
            self.csi_clear_tabs(first);
        } else if action == 'm' {
            if params.len() == 0 {
                let reset: [u16; 1] = [0];
                assert(reset@ =~= seq![0u16]);
                self.apply_sgr(reset.as_slice());
            } else {
                self.apply_sgr(params);
            }
        } else if (action == 'h' || action == 'l') && has_question {
            self.set_private_modes(params, action == 'h');
        } else if action == 'h' || action == 'l' {
            self.csi_set_modes(params, action == 'h');
        } else if action == 'r' && !has_question {
            let bottom: usize = if second == 0 {
                self.height
            } else {
                second as usize
            };
            self.csi_set_region(n as usize, bottom);
        } else if action == 's' {
            self.saved_cursor = (self.cursor_row, self.cursor_col);
        } else if action == 'u' {
            self.restore_cursor();
        }
    }

    /// Whether `after` is what one thing that the parser reports makes of
    /// the framebuffer.
    pub open spec fn spec_event_effect(&self, after: &Framebuffer, event: &TerminalEvent) -> bool {
        match event {
            TerminalEvent::Print(c) => self.spec_char_put(after, *c),
            TerminalEvent::Execute(byte) => self.spec_execute_effect(after, *byte),
            TerminalEvent::Csi { params, intermediates, action } => self.spec_csi_effect(
                after,
                params@,
                intermediates@,
                *action,
            ),
            TerminalEvent::Esc { intermediates, byte } => self.spec_esc_effect(
                after,
                intermediates@,
                *byte,
            ),
            TerminalEvent::Osc { strings } => self.spec_osc_effect(after, strings@),
        }
    }

    /// Takes one thing that the parser reports.
    pub fn apply_event(&mut self, event: &TerminalEvent)
        requires
            old(self).wf(),
        ensures
            final(self).same_size(old(self)),
            old(self).spec_event_effect(final(self), event),
    {
        match event {
            TerminalEvent::Print(c) => {
                self.print(*c);
            },
            TerminalEvent::Execute(byte) => {
                self.execute(*byte);
            },
            TerminalEvent::Csi { params, intermediates, action } => {
                self.csi_dispatch(params.as_slice(), intermediates.as_slice(), false, *action);
            },
            TerminalEvent::Esc { intermediates, byte } => {
                self.esc_dispatch(intermediates.as_slice(), false, *byte);
            },
            TerminalEvent::Osc { strings } => {
                self.osc_dispatch(strings, false);
            },
        }
    }

    /// Whether `after` is what the things that the parser reports make of
    /// the framebuffer, one after the other.
    pub open spec fn spec_events_effect(&self, after: &Framebuffer, events: Seq<TerminalEvent>) -> bool {
        exists|states: Seq<Framebuffer>| #[trigger]
            spec_event_chain(states, events) && states[0] == *self && states.last() == *after
    }

    /// Takes what the parser reports, in order.
    pub fn apply_events(&mut self, events: &Vec<TerminalEvent>)
        requires
            old(self).wf(),
        ensures
            final(self).same_size(old(self)),
            old(self).spec_events_effect(final(self), events@),
    {
        let mut i: usize = 0;
        let ghost mut states: Seq<Framebuffer> = seq![*self];
        while i < events.len()
            invariant
                i <= events@.len(),
                self.same_size(old(self)),
                spec_event_chain(states, events@.take(i as int)),
                states[0] == *old(self),
                states.last() == *self,
            decreases events@.len() - i,
        {
            let ghost earlier = states;
            self.apply_event(&events[i]);
            proof {
                states = earlier.push(*self);
                let taken = events@.take(i + 1);
                assert forall|k: int| 0 <= k < taken.len() implies (
                #[trigger] states[k]).spec_event_effect(&states[k + 1], &taken[k]) by {
                    if k < i {
                        assert(earlier[k].spec_event_effect(
                            &earlier[k + 1],
                            &events@.take(i as int)[k],
                        ));
                    }
                }
            }
            i = i + 1;
        }
        assert(events@.take(i as int) =~= events@);
    }
}

/// A position held to an extent: the position, or the last one of the
/// extent, or zero where the extent is empty.
pub open spec fn spec_clamp_to(at: usize, extent: usize) -> usize {
    if extent == 0 {
        0
    } else if at < extent {
        at
    } else {
        (extent - 1) as usize
    }
}

/// A position held to an extent.
pub fn clamp_to(at: usize, extent: usize) -> (c: usize)
    ensures
        c == spec_clamp_to(at, extent),
{
    if extent == 0 {
        0
    } else if at < extent {
        at
    } else {
        extent - 1
    }
}

/// What a VT parser drives: each thing it reports acts on the framebuffer.
pub struct VtPerformer<'a> {
    pub fb: &'a mut Framebuffer,
}

impl<'a> VtPerformer<'a> {
    /// Writes a character.
    pub fn print(&mut self, c: char)
        requires
            old(self).fb.wf(),
        ensures
            final(self).fb.same_size(old(self).fb),
            old(self).fb.spec_char_put(final(self).fb, c),
    {
        self.fb.print(c);
    }

    /// Takes a control octet.
    pub fn execute(&mut self, byte: u8)
        requires
            old(self).fb.wf(),
        ensures
            final(self).fb.same_size(old(self).fb),
            old(self).fb.spec_execute_effect(final(self).fb, byte),
    {
        self.fb.execute(byte);
    }

    /// Begins a device control string: nothing is done with it.
    pub fn hook(&mut self, _params: &Vec<Vec<u16>>, _intermediates: &[u8], _ignore: bool, _action: char)
        ensures
            *final(self).fb == *old(self).fb,
    {
    }

    /// Takes an octet of a device control string: nothing is done with it.
    pub fn put(&mut self, _byte: u8)
        ensures
            *final(self).fb == *old(self).fb,
    {
    }

    /// Ends a device control string: nothing is done with it.
    pub fn unhook(&mut self)
        ensures
            *final(self).fb == *old(self).fb,
    {
    }

    /// Takes an OSC sequence.
    pub fn osc_dispatch(&mut self, params: &Vec<Vec<u8>>, bell_terminated: bool)
        requires
            old(self).fb.wf(),
        ensures
            final(self).fb.same_size(old(self).fb),
            old(self).fb.spec_osc_effect(final(self).fb, params@),
    {
        self.fb.osc_dispatch(params, bell_terminated);
    }

    /// Takes a CSI sequence, with the sub-parameters of each parameter.
    pub fn csi_dispatch(
        &mut self,
        params: &Vec<Vec<u16>>,
        intermediates: &[u8],
        ignore: bool,
        action: char,
    )
        requires
            old(self).fb.wf(),
        ensures
            final(self).fb.same_size(old(self).fb),
            old(self).fb.spec_csi_effect(
                final(self).fb,
                spec_flat_params(params@, params@.len()),
                intermediates@,
                action,
            ),
    {
        let flat = flatten_params(params);
        self.fb.csi_dispatch(flat.as_slice(), intermediates, ignore, action);
    }

    /// Takes an ESC sequence.
    pub fn esc_dispatch(&mut self, intermediates: &[u8], ignore: bool, byte: u8)
        requires
            old(self).fb.wf(),
        ensures
            final(self).fb.same_size(old(self).fb),
            old(self).fb.spec_esc_effect(final(self).fb, intermediates@, byte),
    {
        self.fb.esc_dispatch(intermediates, ignore, byte);
    }
}

} // verus!
