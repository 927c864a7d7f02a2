//! The predictive local echo: an overlay on the authoritative framebuffer
//! that shows the likely effect of input the server has not echoed yet.
//!
//! Each prediction is stamped with the frame that will carry the input to
//! the server, one past the last frame sent, and is judged once the server
//! has echoed that frame. Risky predictions are staged in epochs: an overlay
//! made in an epoch that has not been confirmed is kept but not shown.
//!
//! The fields of the engine and of its parts are public so that contracts
//! can speak of them.

use crate::clock::{elapsed_millis, instant_now};
use crate::terminal::{blank_cell, spec_blank, Attributes, Cell, Color, Framebuffer};
use vstd::prelude::*;
use vstd::string::StringSliceAdditionalSpecFns;

verus! {

/// When predictions are shown.
#[derive(Debug, Clone, Copy, PartialEq, Eq, Structural)]
pub enum PredictionMode {
    /// Never: the engine does nothing.
    Never,
    /// Whenever there are any.
    Always,
    /// Where the link is slow or predictions have been late.
    Adaptive,
}

impl Default for PredictionMode {
    fn default() -> (m: PredictionMode)
        ensures
            m == PredictionMode::Adaptive,
    {
        PredictionMode::Adaptive
    }
}

/// The octets of the name `always`.
pub open spec fn spec_name_always() -> Seq<u8> {
    seq![0x61u8, 0x6Cu8, 0x77u8, 0x61u8, 0x79u8, 0x73u8]
}

/// The octets of the name `never`.
pub open spec fn spec_name_never() -> Seq<u8> {
    seq![0x6Eu8, 0x65u8, 0x76u8, 0x65u8, 0x72u8]
}

impl PredictionMode {
    /// The mode that a name stands for: `always`, `never`, and the adaptive
    /// mode for any other name.
    pub fn from_name(name: &str) -> (mode: PredictionMode)
        ensures
            mode == if name.spec_bytes() == spec_name_always() {
                PredictionMode::Always
            } else if name.spec_bytes() == spec_name_never() {
                PredictionMode::Never
            } else {
                PredictionMode::Adaptive
            },
    {
        let octets = name.as_bytes();
        let always: [u8; 6] = [0x61, 0x6C, 0x77, 0x61, 0x79, 0x73];
        let never: [u8; 5] = [0x6E, 0x65, 0x76, 0x65, 0x72];
        assert(always@ =~= spec_name_always());
        assert(never@ =~= spec_name_never());
        if crate::bytes::bytes_equal(octets, always.as_slice()) {
            PredictionMode::Always
        } else if crate::bytes::bytes_equal(octets, never.as_slice()) {
            PredictionMode::Never
        } else {
            PredictionMode::Adaptive
        }
    }
}

/// What the authoritative framebuffer says of a prediction.
#[derive(Debug, Clone, Copy, PartialEq, Eq, Structural)]
pub enum Validity {
    /// The server has not echoed the prediction's frame yet.
    Pending,
    /// Echoed, and the screen shows what was predicted.
    Correct,
    /// Echoed, and the screen shows what was predicted, but it would have
    /// shown that anyway.
    CorrectNoCredit,
    /// Echoed, and the screen shows something else; or out of the screen.
    IncorrectOrExpired,
    /// No prediction.
    Inactive,
}

/// Send interval at or below which predictions stop being shown.
pub const SRTT_TRIGGER_LOW_MS: u64 = 20;

/// Send interval above which predictions are shown.
pub const SRTT_TRIGGER_HIGH_MS: u64 = 30;

/// Send interval at or below which predictions stop being underlined.
pub const FLAG_TRIGGER_LOW_MS: u64 = 50;

/// Send interval above which predictions are underlined.
pub const FLAG_TRIGGER_HIGH_MS: u64 = 80;

/// Age from which a pending prediction counts as a glitch.
pub const GLITCH_THRESHOLD_MS: u64 = 250;

/// Quick confirmations that make up for a glitch.
pub const GLITCH_REPAIR_COUNT: u32 = 10;

/// Least time between two quick confirmations that count.
pub const GLITCH_REPAIR_MIN_INTERVAL_MS: u64 = 150;

/// Age from which a pending prediction counts as a long glitch.
pub const GLITCH_FLAG_THRESHOLD_MS: u64 = 5000;

/// Longest batch of input that is predicted.
pub const MAX_PREDICTED_BATCH: usize = 100;

/// The prediction for one cell of a row.
#[derive(Debug)]
pub struct PredictedCell {
    /// The frame whose echo decides the prediction.
    pub expiration_frame: u64,
    /// The column of the cell.
    pub col: usize,
    /// Whether there is a prediction.
    pub active: bool,
    /// The epoch that has to be confirmed before the prediction is shown.
    pub tentative_until_epoch: u64,
    /// When the prediction was made, in milliseconds.
    pub prediction_time: u64,
    /// What the cell is predicted to show.
    pub replacement: Cell,
    /// Whether the prediction is only that the cell changes.
    pub unknown: bool,
    /// What the cell showed before each prediction made for it.
    pub original_contents: Vec<Cell>,
}

/// The predictions for one row of the screen.
#[derive(Debug)]
pub struct PredictedRow {
    pub row_num: usize,
    pub overlay_cells: Vec<PredictedCell>,
}

/// A predicted position of the cursor.
#[derive(Debug, Clone, Copy, PartialEq, Eq, Structural)]
pub struct PredictedCursor {
    pub expiration_frame: u64,
    pub row: usize,
    pub col: usize,
    pub active: bool,
    pub tentative_until_epoch: u64,
}

/// Whether a cell shows nothing.
pub open spec fn spec_cell_is_blank(cell: Cell) -> bool {
    cell.character == ' '
}

/// Whether two cells show the same character.
pub open spec fn spec_cell_contents_match(a: Cell, b: Cell) -> bool {
    (spec_cell_is_blank(a) && spec_cell_is_blank(b)) || a.character == b.character
}

/// Whether a cell shows nothing.
pub fn cell_is_blank(cell: &Cell) -> (blank: bool)
    ensures
        blank == spec_cell_is_blank(*cell),
{
    cell.character == ' '
}

/// Whether two cells show the same character.
pub fn cell_contents_match(a: &Cell, b: &Cell) -> (same: bool)
    ensures
        same == spec_cell_contents_match(*a, *b),
{
    (cell_is_blank(a) && cell_is_blank(b)) || a.character == b.character
}

/// `n + 1`, or the largest value where there is none.
pub open spec fn spec_next_frame(n: u64) -> u64 {
    if n == u64::MAX {
        n
    } else {
        (n + 1) as u64
    }
}

/// `n + 1`, or the largest value where there is none.
pub fn next_frame(n: u64) -> (m: u64)
    ensures
        m == spec_next_frame(n),
{
    if n == u64::MAX {
        n
    } else {
        n + 1
    }
}

/// Whether one of the earlier contents of a cell shows the same as its
/// prediction.
pub open spec fn spec_seen_before(pc: PredictedCellView) -> bool {
    exists|k: int|
        0 <= k < pc.original_contents.len() && spec_cell_contents_match(
            #[trigger] pc.original_contents[k],
            pc.replacement,
        )
}

impl PredictedCell {
    /// An empty prediction for a column.
    pub fn new(col: usize) -> (cell: PredictedCell)
        ensures
            cell@ == spec_fresh_cell(col),
    {
        let cell = PredictedCell {
            expiration_frame: 0,
            col,
            active: false,
            tentative_until_epoch: 0,
            prediction_time: 0,
            replacement: blank_cell(Color::Default),
            unknown: false,
            original_contents: Vec::new(),
        };
        assert(cell@.original_contents =~= Seq::empty());
        cell
    }

    /// Whether the prediction waits for an epoch later than the confirmed
    /// one.
    pub open spec fn spec_tentative(&self, confirmed_epoch: u64) -> bool {
        self.tentative_until_epoch > confirmed_epoch
    }

    /// Whether the prediction waits for an epoch later than the confirmed
    /// one.
    pub fn tentative(&self, confirmed_epoch: u64) -> (t: bool)
        ensures
            t == self.spec_tentative(confirmed_epoch),
    {
        self.tentative_until_epoch > confirmed_epoch
    }

    /// Drops the prediction and the memory of earlier contents.
    pub fn reset(&mut self)
        ensures
            final(self)@ == spec_cell_reset(old(self)@),
    {
        self.expiration_frame = 0;
        self.tentative_until_epoch = 0;
        self.active = false;
        self.unknown = false;
        self.original_contents = Vec::new();
        assert(self@.original_contents =~= Seq::empty());
    }

    /// Drops the prediction, and remembers what it showed where it showed
    /// something.
    pub fn reset_with_orig(&mut self)
        ensures
            final(self)@ == spec_cell_reset_with_orig(old(self)@),
    {
        if !self.active || self.unknown {
            self.reset();
            return ;
        }
        self.original_contents.push(self.replacement);
        self.expiration_frame = 0;
        self.tentative_until_epoch = 0;
        self.active = false;
    }

    /// Stamps the prediction with its frame and the time it was made.
    pub fn expire(&mut self, expiration_frame: u64, now: u64)
        ensures
            final(self)@ == (PredictedCellView {
                expiration_frame,
                prediction_time: now,
                ..old(self)@
            }),
    {
        self.expiration_frame = expiration_frame;
        self.prediction_time = now;
    }
}

impl PredictedCursor {
    /// Whether the prediction waits for an epoch later than the confirmed
    /// one.
    pub open spec fn spec_tentative(&self, confirmed_epoch: u64) -> bool {
        self.tentative_until_epoch > confirmed_epoch
    }

    /// Whether the prediction waits for an epoch later than the confirmed
    /// one.
    pub fn tentative(&self, confirmed_epoch: u64) -> (t: bool)
        ensures
            t == self.spec_tentative(confirmed_epoch),
    {
        self.tentative_until_epoch > confirmed_epoch
    }

    /// Stamps the prediction with its frame.
    pub fn expire(&mut self, expiration_frame: u64)
        ensures
            *final(self) == (PredictedCursor { expiration_frame, ..*old(self) }),
    {
        self.expiration_frame = expiration_frame;
    }
}

/// What the framebuffer says of a predicted cell in row `row`, the cell
/// given as a value.
pub open spec fn spec_validity(late_ack: u64, fb: &Framebuffer, row: usize, pc: PredictedCellView) -> Validity {
    if !pc.active {
        Validity::Inactive
    } else if row >= fb.height || pc.col >= fb.width {
        Validity::IncorrectOrExpired
    } else if late_ack < pc.expiration_frame {
        Validity::Pending
    } else if pc.unknown {
        Validity::CorrectNoCredit
    } else if spec_cell_is_blank(pc.replacement) {
        Validity::CorrectNoCredit
    } else if spec_cell_contents_match(fb.cell(row as int, pc.col as int), pc.replacement) {
        if spec_seen_before(pc) {
            Validity::CorrectNoCredit
        } else {
            Validity::Correct
        }
    } else {
        Validity::IncorrectOrExpired
    }
}

/// What the framebuffer says of a predicted cell in row `row`.
pub open spec fn spec_cell_validity(
    late_ack: u64,
    fb: &Framebuffer,
    row: usize,
    cell: &PredictedCell,
) -> Validity {
    spec_validity(late_ack, fb, row, cell@)
}

/// What the framebuffer says of a predicted cursor.
pub open spec fn spec_cursor_validity(
    late_ack: u64,
    fb: &Framebuffer,
    cursor: PredictedCursor,
) -> Validity {
    if !cursor.active {
        Validity::Inactive
    } else if cursor.row >= fb.height || cursor.col >= fb.width {
        Validity::IncorrectOrExpired
    } else if late_ack >= cursor.expiration_frame {
        if fb.cursor_row == cursor.row && fb.cursor_col == cursor.col {
            Validity::Correct
        } else {
            Validity::IncorrectOrExpired
        }
    } else {
        Validity::Pending
    }
}

/// Judges a predicted cell of row `row` against the framebuffer.
#[verifier::loop_isolation(false)]
pub fn cell_validity(late_ack: u64, fb: &Framebuffer, row: usize, cell: &PredictedCell) -> (v:
    Validity)
    requires
        fb.grid_ok(),
    ensures
        v == spec_cell_validity(late_ack, fb, row, cell),
{
    if !cell.active {
        return Validity::Inactive;
    }
    if row >= fb.height || cell.col >= fb.width {
        return Validity::IncorrectOrExpired;
    }
    if late_ack < cell.expiration_frame {
        return Validity::Pending;
    }
    if cell.unknown {
        return Validity::CorrectNoCredit;
    }
    let current = &fb.cells[row][cell.col];
    if cell_is_blank(&cell.replacement) {
        return Validity::CorrectNoCredit;
    }
    if cell_contents_match(current, &cell.replacement) {
        let mut k: usize = 0;
        while k < cell.original_contents.len()
            invariant
                k <= cell.original_contents@.len(),
                forall|j: int|
                    0 <= j < k ==> !spec_cell_contents_match(
                        #[trigger] cell.original_contents@[j],
                        cell.replacement,
                    ),
            decreases cell.original_contents@.len() - k,
        {
            if cell_contents_match(&cell.original_contents[k], &cell.replacement) {
                assert(spec_cell_contents_match(
                    cell@.original_contents[k as int],
                    cell@.replacement,
                ));
                return Validity::CorrectNoCredit;
            }
            k = k + 1;
        }
        Validity::Correct
    } else {
        Validity::IncorrectOrExpired
    }
}

/// Judges a predicted cursor against the framebuffer.
pub fn cursor_validity(late_ack: u64, fb: &Framebuffer, cursor: &PredictedCursor) -> (v: Validity)
    ensures
        v == spec_cursor_validity(late_ack, fb, *cursor),
{
    if !cursor.active {
        return Validity::Inactive;
    }
    if cursor.row >= fb.height || cursor.col >= fb.width {
        return Validity::IncorrectOrExpired;
    }
    if late_ack >= cursor.expiration_frame {
        if fb.cursor_row == cursor.row && fb.cursor_col == cursor.col {
            Validity::Correct
        } else {
            Validity::IncorrectOrExpired
        }
    } else {
        Validity::Pending
    }
}

/// A predicted cell as a mathematical value.
pub struct PredictedCellView {
    pub expiration_frame: u64,
    pub col: usize,
    pub active: bool,
    pub tentative_until_epoch: u64,
    pub prediction_time: u64,
    pub replacement: Cell,
    pub unknown: bool,
    pub original_contents: Seq<Cell>,
}

impl View for PredictedCell {
    type V = PredictedCellView;

    open spec fn view(&self) -> PredictedCellView {
        PredictedCellView {
            expiration_frame: self.expiration_frame,
            col: self.col,
            active: self.active,
            tentative_until_epoch: self.tentative_until_epoch,
            prediction_time: self.prediction_time,
            replacement: self.replacement,
            unknown: self.unknown,
            original_contents: self.original_contents@,
        }
    }
}

/// The values of a list of predicted cells.
pub open spec fn spec_cell_views(cells: Seq<PredictedCell>) -> Seq<PredictedCellView> {
    Seq::new(cells.len(), |j: int| cells[j]@)
}

/// A row of the overlay as a mathematical value.
pub struct PredictedRowView {
    pub row_num: usize,
    pub overlay_cells: Seq<PredictedCellView>,
}

impl View for PredictedRow {
    type V = PredictedRowView;

    open spec fn view(&self) -> PredictedRowView {
        PredictedRowView {
            row_num: self.row_num,
            overlay_cells: spec_cell_views(self.overlay_cells@),
        }
    }
}

/// The values of a list of rows.
pub open spec fn spec_row_views(rows: Seq<PredictedRow>) -> Seq<PredictedRowView> {
    Seq::new(rows.len(), |i: int| rows[i]@)
}

/// The slot of a column that holds no prediction yet.
pub open spec fn spec_fresh_cell(col: usize) -> PredictedCellView {
    PredictedCellView {
        expiration_frame: 0,
        col,
        active: false,
        tentative_until_epoch: 0,
        prediction_time: 0,
        replacement: spec_blank(Color::Default),
        unknown: false,
        original_contents: Seq::empty(),
    }
}

/// A cell with its prediction dropped.
pub open spec fn spec_cell_reset(c: PredictedCellView) -> PredictedCellView {
    PredictedCellView {
        expiration_frame: 0,
        tentative_until_epoch: 0,
        active: false,
        unknown: false,
        original_contents: Seq::empty(),
        ..c
    }
}

/// A cell with its prediction dropped, but remembered where it showed
/// something.
pub open spec fn spec_cell_reset_with_orig(c: PredictedCellView) -> PredictedCellView {
    if !c.active || c.unknown {
        spec_cell_reset(c)
    } else {
        PredictedCellView {
            expiration_frame: 0,
            tentative_until_epoch: 0,
            active: false,
            original_contents: c.original_contents.push(c.replacement),
            ..c
        }
    }
}

/// The prediction made for the cell `c` in epoch `epoch` for frame `frame`
/// at time `now`, over a screen cell `actual`: unknown, or showing
/// `replacement`; with no `replacement`, what the cell was last predicted
/// to show stays.
pub open spec fn spec_cell_predicted(
    c: PredictedCellView,
    epoch: u64,
    frame: u64,
    now: u64,
    actual: Cell,
    unknown: bool,
    replacement: Option<Cell>,
) -> PredictedCellView {
    let r = spec_cell_reset_with_orig(c);
    PredictedCellView {
        expiration_frame: frame,
        col: c.col,
        active: true,
        tentative_until_epoch: epoch,
        prediction_time: now,
        replacement: match replacement {
            Some(cell) => cell,
            None => c.replacement,
        },
        unknown,
        original_contents: r.original_contents.push(actual),
    }
}

/// Makes a prediction for a cell.
fn predict_cell(
    cell: &mut PredictedCell,
    epoch: u64,
    frame: u64,
    now: u64,
    actual: Cell,
    unknown: bool,
    replacement: Option<Cell>,
)
    ensures
        final(cell)@ == spec_cell_predicted(old(cell)@, epoch, frame, now, actual, unknown, replacement),
{
    cell.reset_with_orig();
    cell.active = true;
    cell.tentative_until_epoch = epoch;
    cell.expire(frame, now);
    cell.original_contents.push(actual);
    cell.unknown = unknown;
    match replacement {
        Some(r) => {
            cell.replacement = r;
        },
        None => {},
    }
}

/// The smaller of a position and the last position of an extent.
pub open spec fn spec_clamped(at: usize, extent: usize) -> usize {
    if extent == 0 {
        0
    } else if at < extent {
        at
    } else {
        (extent - 1) as usize
    }
}

/// The smaller of a position and the last position of an extent.
fn clamped(at: usize, extent: usize) -> (c: usize)
    ensures
        c == spec_clamped(at, extent),
{
    if extent == 0 {
        0
    } else if at < extent {
        at
    } else {
        extent - 1
    }
}

/// The predicted cursors that do not wait for an epoch after `epoch`,
/// among the first `n`.
pub open spec fn spec_cursors_settled(cursors: Seq<PredictedCursor>, epoch: u64, n: nat) -> Seq<
    PredictedCursor,
>
    decreases n,
{
    if n == 0 {
        Seq::empty()
    } else {
        let before = spec_cursors_settled(cursors, epoch, (n - 1) as nat);
        if cursors[n - 1].spec_tentative(epoch) {
            before
        } else {
            before.push(cursors[n - 1])
        }
    }
}

/// The predicted cursors that the framebuffer leaves pending, among the
/// first `n`.
pub open spec fn spec_cursors_pending(
    cursors: Seq<PredictedCursor>,
    late_ack: u64,
    fb: &Framebuffer,
    n: nat,
) -> Seq<PredictedCursor>
    decreases n,
{
    if n == 0 {
        Seq::empty()
    } else {
        let before = spec_cursors_pending(cursors, late_ack, fb, (n - 1) as nat);
        if spec_cursor_validity(late_ack, fb, cursors[n - 1]) == Validity::Pending {
            before.push(cursors[n - 1])
        } else {
            before
        }
    }
}

/// `epoch - 1`, or zero where there is none.
pub open spec fn spec_epoch_before(epoch: u64) -> u64 {
    if epoch == 0 {
        0
    } else {
        (epoch - 1) as u64
    }
}

/// The index of the first of the first `n` rows that is for `row_num`.
pub open spec fn spec_find_row(rows: Seq<PredictedRowView>, row_num: usize, n: nat) -> Option<int>
    decreases n,
{
    if n == 0 {
        None
    } else {
        match spec_find_row(rows, row_num, (n - 1) as nat) {
            Some(i) => Some(i),
            None => if rows[n - 1].row_num == row_num {
                Some(n - 1)
            } else {
                None
            },
        }
    }
}

/// The state of the engine as a mathematical value.
pub struct EngineView {
    pub mode: PredictionMode,
    pub overlays: Seq<PredictedRowView>,
    pub cursors: Seq<PredictedCursor>,
    pub local_frame_sent: u64,
    pub local_frame_acked: u64,
    pub local_frame_late_acked: u64,
    pub prediction_epoch: u64,
    pub confirmed_epoch: u64,
    pub send_interval_ms: u64,
    pub srtt_trigger: bool,
    pub flagging: bool,
    pub glitch_trigger: u32,
    pub last_quick_confirmation: Option<u64>,
    pub esc_state: u8,
    pub width: usize,
    pub height: usize,
    pub last_width: usize,
    pub last_height: usize,
    pub predict_overwrite: bool,
}

impl EngineView {
    /// What the engine keeps true of itself: each row of the overlay is
    /// listed once, lies within the framebuffer that the predictions were
    /// made for and has a slot for each of its columns; each predicted
    /// cursor lies within it; and no more quick confirmations are owed
    /// than a long glitch asks for.
    pub open spec fn wf(self) -> bool {
        &&& forall|i: int|
            0 <= i < self.overlays.len() ==> {
                let row = #[trigger] self.overlays[i];
                &&& row.row_num < self.last_height
                &&& row.overlay_cells.len() == self.last_width
                &&& forall|j: int|
                    0 <= j < self.last_width ==> (#[trigger] row.overlay_cells[j]).col == j
            }
        &&& forall|i: int, k: int|
            0 <= i < self.overlays.len() && 0 <= k < self.overlays.len() && i != k ==> (
            #[trigger] self.overlays[i]).row_num != (#[trigger] self.overlays[k]).row_num
        &&& forall|i: int|
            0 <= i < self.cursors.len() ==> (#[trigger] self.cursors[i]).row < self.last_height
                && self.cursors[i].col < self.last_width
        &&& self.glitch_trigger <= GLITCH_REPAIR_COUNT * 2
    }

    /// Whether two states differ in nothing but overlay, cursors, escape
    /// state and prediction epoch.
    pub open spec fn same_settings(self, other: EngineView) -> bool {
        self == (EngineView {
            overlays: self.overlays,
            cursors: self.cursors,
            esc_state: self.esc_state,
            prediction_epoch: self.prediction_epoch,
            ..other
        })
    }

    /// Whether the engine holds any prediction.
    pub open spec fn active(self) -> bool {
        self.cursors.len() > 0 || exists|i: int, j: int|
            0 <= i < self.overlays.len() && 0 <= j < self.overlays[i].overlay_cells.len() && (
            #[trigger] self.overlays[i].overlay_cells[j]).active
    }

    /// Whether predictions are shown.
    pub open spec fn should_display(self) -> bool {
        match self.mode {
            PredictionMode::Never => false,
            PredictionMode::Always => true,
            PredictionMode::Adaptive => self.srtt_trigger || self.glitch_trigger > 0,
        }
    }

    /// The engine in the next epoch.
    pub open spec fn become_tentative(self) -> EngineView {
        EngineView { prediction_epoch: spec_next_frame(self.prediction_epoch), ..self }
    }

    /// The engine without predictions, outside any escape sequence, in the
    /// next epoch.
    pub open spec fn reset(self) -> EngineView {
        EngineView {
            overlays: Seq::empty(),
            cursors: Seq::empty(),
            esc_state: 0,
            ..self
        }.become_tentative()
    }

    /// The cursor that the framebuffer's cursor is predicted as.
    pub open spec fn fresh_cursor(self, fb: &Framebuffer) -> PredictedCursor {
        PredictedCursor {
            expiration_frame: spec_next_frame(self.local_frame_sent),
            row: spec_clamped(fb.cursor_row, fb.height),
            col: spec_clamped(fb.cursor_col, fb.width),
            active: true,
            tentative_until_epoch: self.prediction_epoch,
        }
    }

    /// The engine once there is a predicted cursor for the current epoch:
    /// the framebuffer's where there was none at all, a copy of the latest
    /// where that belonged to another epoch.
    pub open spec fn init_cursor(self, fb: &Framebuffer) -> EngineView {
        if fb.width == 0 || fb.height == 0 {
            self
        } else if self.cursors.len() == 0 {
            EngineView { cursors: seq![self.fresh_cursor(fb)], ..self }
        } else if self.cursors.last().tentative_until_epoch != self.prediction_epoch {
            EngineView {
                cursors: self.cursors.push(
                    PredictedCursor {
                        expiration_frame: spec_next_frame(self.local_frame_sent),
                        row: self.cursors.last().row,
                        col: self.cursors.last().col,
                        active: true,
                        tentative_until_epoch: self.prediction_epoch,
                    },
                ),
                ..self
            }
        } else {
            self
        }
    }

    /// The index of the overlay's row for `row_num`: that of the first such
    /// row, or the number of rows where there is none.
    pub open spec fn row_index(self, row_num: usize) -> int {
        match spec_find_row(self.overlays, row_num, self.overlays.len()) {
            Some(i) => i,
            None => self.overlays.len() as int,
        }
    }

    /// The engine with a row for `row_num` in its overlay: as it is where
    /// it has one, with an empty row of `width` slots added where not.
    pub open spec fn with_row(self, row_num: usize, width: usize) -> EngineView {
        if spec_find_row(self.overlays, row_num, self.overlays.len()) is Some {
            self
        } else {
            EngineView {
                overlays: self.overlays.push(
                    PredictedRowView {
                        row_num,
                        overlay_cells: Seq::new(width as nat, |j: int| spec_fresh_cell(j as usize)),
                    },
                ),
                ..self
            }
        }
    }

    /// The engine with the cells of one row of its overlay replaced.
    pub open spec fn with_cells(self, idx: int, cells: Seq<PredictedCellView>) -> EngineView {
        EngineView {
            overlays: self.overlays.update(
                idx,
                PredictedRowView { row_num: self.overlays[idx].row_num, overlay_cells: cells },
            ),
            ..self
        }
    }

    /// The engine with its latest predicted cursor replaced.
    pub open spec fn with_cursor(self, c: PredictedCursor) -> EngineView {
        EngineView { cursors: self.cursors.update(self.cursors.len() - 1, c), ..self }
    }

    /// The engine after an epoch is given up: every predicted cursor and
    /// every predicted cell that waits for `epoch` or a later one is
    /// dropped, the cursor is predicted anew from the framebuffer, and a
    /// new epoch begins.
    pub open spec fn kill_epoch(self, epoch: u64, fb: &Framebuffer) -> EngineView {
        let confirmed = spec_epoch_before(epoch);
        EngineView {
            cursors: spec_cursors_settled(self.cursors, confirmed, self.cursors.len()) + if fb.width
                > 0 && fb.height > 0 {
                seq![self.fresh_cursor(fb)]
            } else {
                Seq::empty()
            },
            overlays: Seq::new(
                self.overlays.len(),
                |i: int|
                    PredictedRowView {
                        row_num: self.overlays[i].row_num,
                        overlay_cells: Seq::new(
                            self.overlays[i].overlay_cells.len(),
                            |j: int|
                                if self.overlays[i].overlay_cells[j].tentative_until_epoch
                                    > confirmed {
                                    spec_cell_reset(self.overlays[i].overlay_cells[j])
                                } else {
                                    self.overlays[i].overlay_cells[j]
                                },
                        ),
                    },
            ),
            ..self
        }.become_tentative()
    }
}

/// A cell that is predicted to be blanked.
pub open spec fn spec_cell_blanked(
    c: PredictedCellView,
    epoch: u64,
    frame: u64,
    now: u64,
) -> PredictedCellView {
    PredictedCellView {
        active: true,
        tentative_until_epoch: epoch,
        expiration_frame: frame,
        prediction_time: now,
        unknown: false,
        replacement: spec_blank(Color::Default),
        ..c
    }
}

/// What a cell is predicted to show when its neighbour's contents move
/// into it: unknown where the neighbour's are, else the neighbour's
/// prediction or, without one, what the screen shows there.
pub open spec fn spec_moved_in(neighbour: PredictedCellView, actual: Cell) -> (bool, Option<Cell>) {
    if neighbour.active {
        if neighbour.unknown {
            (true, None)
        } else {
            (false, Some(neighbour.replacement))
        }
    } else {
        (false, Some(actual))
    }
}

/// The cell that a typed character is predicted as: the character, to be
/// drawn, in the rendition of the cell to its left, as predicted or as
/// shown; in column zero in the rendition of the cell itself.
pub open spec fn spec_typed_cell(
    ch: char,
    cells: Seq<PredictedCellView>,
    fb: &Framebuffer,
    row: usize,
    col: usize,
) -> Cell {
    let here = fb.cell(row as int, col as int);
    let style = if col > 0 {
        if cells[col - 1].active && !cells[col - 1].unknown {
            cells[col - 1].replacement
        } else {
            fb.cell(row as int, col - 1)
        }
    } else {
        here
    };
    Cell { character: ch, fg: style.fg, bg: style.bg, attrs: style.attrs, dirty: true }
}

/// The cells of a row after a backspace before column `col + 1`: each cell
/// from `col` on takes what its right neighbour shows, the last two become
/// unknown. Where typing overwrites, only the cell in `col` is blanked.
pub open spec fn spec_backspaced_cells(
    cells: Seq<PredictedCellView>,
    fb: &Framebuffer,
    row: usize,
    col: usize,
    epoch: u64,
    frame: u64,
    now: u64,
    overwrite: bool,
) -> Seq<PredictedCellView> {
    Seq::new(
        fb.width as nat,
        |i: int|
            if i < col {
                cells[i]
            } else if overwrite {
                if i == col {
                    spec_cell_predicted(
                        cells[i],
                        epoch,
                        frame,
                        now,
                        fb.cell(row as int, i),
                        false,
                        Some(Cell { character: ' ', dirty: true, ..fb.cell(row as int, i) }),
                    )
                } else {
                    cells[i]
                }
            } else {
                let moved = if i + 2 < fb.width {
                    spec_moved_in(cells[i + 1], fb.cell(row as int, i + 1))
                } else {
                    (true, None)
                };
                spec_cell_predicted(
                    cells[i],
                    epoch,
                    frame,
                    now,
                    fb.cell(row as int, i),
                    moved.0,
                    moved.1,
                )
            },
    )
}

/// The cells of a row after a character is typed in column `col` in epoch
/// `epoch`: the cell shows the character, and unless typing overwrites,
/// each cell to its right takes what its left neighbour shows, the last one
/// becoming unknown.
pub open spec fn spec_typed_cells(
    cells: Seq<PredictedCellView>,
    ch: char,
    fb: &Framebuffer,
    row: usize,
    col: usize,
    epoch: u64,
    frame: u64,
    now: u64,
    overwrite: bool,
) -> Seq<PredictedCellView> {
    let rightmost = if overwrite {
        col as int
    } else {
        fb.width - 1
    };
    Seq::new(
        fb.width as nat,
        |i: int|
            if i < col || i > rightmost {
                cells[i]
            } else if i == col {
                spec_cell_predicted(
                    cells[i],
                    epoch,
                    frame,
                    now,
                    fb.cell(row as int, i),
                    false,
                    Some(spec_typed_cell(ch, cells, fb, row, col)),
                )
            } else {
                let moved = if i == fb.width - 1 {
                    (true, None)
                } else {
                    spec_moved_in(cells[i - 1], fb.cell(row as int, i - 1))
                };
                spec_cell_predicted(
                    cells[i],
                    epoch,
                    frame,
                    now,
                    fb.cell(row as int, i),
                    moved.0,
                    moved.1,
                )
            },
    )
}

/// The cells of a row that is predicted to be blanked.
pub open spec fn spec_blanked_cells(
    cells: Seq<PredictedCellView>,
    epoch: u64,
    frame: u64,
    now: u64,
) -> Seq<PredictedCellView> {
    Seq::new(cells.len(), |j: int| spec_cell_blanked(cells[j], epoch, frame, now))
}

impl EngineView {
    /// The engine after a carriage return and line feed is predicted: the
    /// cursor goes to column zero of the next row, or, on the last row,
    /// stays there while that row is predicted blank.
    #[verifier::opaque]
    pub open spec fn newline_carriage_return(self, fb: &Framebuffer, now: u64) -> EngineView {
        if fb.width == 0 || fb.height == 0 {
            self
        } else {
            let s1 = self.init_cursor(fb);
            let frame = spec_next_frame(self.local_frame_sent);
            let c = PredictedCursor { col: 0, expiration_frame: frame, ..s1.cursors.last() };
            let s2 = s1.with_cursor(c);
            if c.row == fb.height - 1 {
                let s3 = s2.with_row(c.row, fb.width);
                let idx = s3.row_index(c.row);
                s3.with_cells(
                    idx,
                    spec_blanked_cells(
                        s3.overlays[idx].overlay_cells,
                        self.prediction_epoch,
                        frame,
                        now,
                    ),
                )
            } else {
                s2.with_cursor(PredictedCursor { row: (c.row + 1) as usize, ..c })
            }
        }
    }

    /// The engine after a move of the cursor to the right is predicted.
    #[verifier::opaque]
    pub open spec fn predict_move_right(self, fb: &Framebuffer) -> EngineView {
        if fb.width == 0 || fb.height == 0 {
            self
        } else {
            let s1 = self.init_cursor(fb);
            let c = s1.cursors.last();
            if c.col < fb.width - 1 {
                s1.with_cursor(
                    PredictedCursor {
                        col: (c.col + 1) as usize,
                        expiration_frame: spec_next_frame(self.local_frame_sent),
                        ..c
                    },
                )
            } else {
                s1
            }
        }
    }

    /// The engine after a move of the cursor to the left is predicted.
    #[verifier::opaque]
    pub open spec fn predict_move_left(self, fb: &Framebuffer) -> EngineView {
        if fb.width == 0 || fb.height == 0 {
            self
        } else {
            let s1 = self.init_cursor(fb);
            let c = s1.cursors.last();
            if c.col > 0 {
                s1.with_cursor(
                    PredictedCursor {
                        col: (c.col - 1) as usize,
                        expiration_frame: spec_next_frame(self.local_frame_sent),
                        ..c
                    },
                )
            } else {
                s1
            }
        }
    }

    /// The engine after a backspace is predicted: nothing in column zero;
    /// else the cursor moves left and the rest of the row moves with it.
    #[verifier::opaque]
    pub open spec fn predict_backspace(self, fb: &Framebuffer, now: u64) -> EngineView {
        if fb.width == 0 || fb.height == 0 {
            self
        } else {
            let s1 = self.init_cursor(fb);
            let c = s1.cursors.last();
            if c.col == 0 || c.row >= fb.height {
                s1
            } else {
                let col = (c.col - 1) as usize;
                let s2 = s1.with_cursor(
                    PredictedCursor {
                        col,
                        expiration_frame: spec_next_frame(self.local_frame_sent),
                        ..c
                    },
                );
                let s3 = s2.with_row(c.row, fb.width);
                let idx = s3.row_index(c.row);
                s3.with_cells(
                    idx,
                    spec_backspaced_cells(
                        s3.overlays[idx].overlay_cells,
                        fb,
                        c.row,
                        col,
                        self.prediction_epoch,
                        spec_next_frame(self.local_frame_sent),
                        now,
                        self.predict_overwrite,
                    ),
                )
            }
        }
    }

    /// The engine after a typed character is predicted: the character
    /// appears under the cursor and the cursor moves right; in the last
    /// column the prediction becomes tentative and a carriage return and
    /// line feed is predicted after it.
    #[verifier::opaque]
    pub open spec fn predict_printable(self, ch: char, fb: &Framebuffer, now: u64) -> EngineView {
        if fb.width == 0 || fb.height == 0 {
            self
        } else {
            let s1 = self.init_cursor(fb);
            let c = s1.cursors.last();
            if c.row >= fb.height || c.col >= fb.width {
                s1
            } else {
                let frame = spec_next_frame(self.local_frame_sent);
                let epoch = s1.prediction_epoch;
                let s1b = if c.col + 1 >= fb.width {
                    s1.become_tentative()
                } else {
                    s1
                };
                let s2 = s1b.with_row(c.row, fb.width);
                let idx = s2.row_index(c.row);
                let s3 = s2.with_cells(
                    idx,
                    spec_typed_cells(
                        s2.overlays[idx].overlay_cells,
                        ch,
                        fb,
                        c.row,
                        c.col,
                        epoch,
                        frame,
                        now,
                        self.predict_overwrite,
                    ),
                );
                let stamped = PredictedCursor { expiration_frame: frame, ..c };
                if c.col < fb.width - 1 {
                    s3.with_cursor(PredictedCursor { col: (c.col + 1) as usize, ..stamped })
                } else {
                    s3.with_cursor(stamped).become_tentative().newline_carriage_return(fb, now)
                }
            }
        }
    }

    /// The engine after one octet of input, judged against a framebuffer
    /// that the predictions have just been culled with. Printable
    /// characters, backspace, carriage return and the two horizontal cursor
    /// keys are predicted; anything else begins a new epoch.
    pub open spec fn user_byte(self, byte: u8, fb: &Framebuffer, now: u64) -> EngineView {
        let b = if self.esc_state == 1 && byte == 0x4F {
            0x5Bu8
        } else {
            byte
        };
        if self.esc_state == 0 {
            if b == 0x1B {
                EngineView { esc_state: 1, ..self }
            } else if b == 0x7F {
                self.predict_backspace(fb, now)
            } else if b == 0x0D {
                self.become_tentative().newline_carriage_return(fb, now)
            } else if 0x20 <= b <= 0x7E {
                self.predict_printable(b as char, fb, now)
            } else {
                self.become_tentative()
            }
        } else if self.esc_state == 1 {
            if b == 0x5B {
                EngineView { esc_state: 2, ..self }
            } else {
                EngineView { esc_state: 0, ..self.become_tentative() }
            }
        } else if 0x40 <= b <= 0x7E {
            EngineView {
                esc_state: 0,
                ..if b == 0x43 {
                    self.predict_move_right(fb)
                } else if b == 0x44 {
                    self.predict_move_left(fb)
                } else {
                    self.become_tentative()
                }
            }
        } else {
            self
        }
    }
}

/// The prediction engine.
pub struct PredictionEngine {
    pub mode: PredictionMode,
    /// The rows that have predictions, each once.
    pub overlays: Vec<PredictedRow>,
    /// The predicted cursor positions, the latest last.
    pub cursors: Vec<PredictedCursor>,
    /// The last frame sent to the server.
    pub local_frame_sent: u64,
    /// The last frame the server has acknowledged.
    pub local_frame_acked: u64,
    /// The last frame whose effect the server has echoed.
    pub local_frame_late_acked: u64,
    /// The epoch that new predictions are made in.
    pub prediction_epoch: u64,
    /// The latest epoch that a correct prediction has confirmed.
    pub confirmed_epoch: u64,
    pub send_interval_ms: u64,
    /// Whether the link is slow enough for predictions to be shown.
    pub srtt_trigger: bool,
    /// Whether predictions are underlined.
    pub flagging: bool,
    /// How many quick confirmations are owed for late predictions.
    pub glitch_trigger: u32,
    /// When a quick confirmation last counted, in milliseconds.
    pub last_quick_confirmation: Option<u64>,
    /// How far into an escape sequence the input is: 0 outside, 1 after
    /// ESC, 2 after ESC and an opening bracket.
    pub esc_state: u8,
    pub width: usize,
    pub height: usize,
    /// The size of the framebuffer that the predictions were made for.
    pub last_width: usize,
    pub last_height: usize,
    /// Whether typed characters replace what is under the cursor.
    pub predict_overwrite: bool,
    /// The start of the engine's clock.
    pub started: std::time::Instant,
}

impl View for PredictionEngine {
    type V = EngineView;

    open spec fn view(&self) -> EngineView {
        EngineView {
            mode: self.mode,
            overlays: spec_row_views(self.overlays@),
            cursors: self.cursors@,
            local_frame_sent: self.local_frame_sent,
            local_frame_acked: self.local_frame_acked,
            local_frame_late_acked: self.local_frame_late_acked,
            prediction_epoch: self.prediction_epoch,
            confirmed_epoch: self.confirmed_epoch,
            send_interval_ms: self.send_interval_ms,
            srtt_trigger: self.srtt_trigger,
            flagging: self.flagging,
            glitch_trigger: self.glitch_trigger,
            last_quick_confirmation: self.last_quick_confirmation,
            esc_state: self.esc_state,
            width: self.width,
            height: self.height,
            last_width: self.last_width,
            last_height: self.last_height,
            predict_overwrite: self.predict_overwrite,
        }
    }
}

/// The first row for `row_num` stays the first when more rows are looked
/// at.
pub proof fn lemma_find_row_found(rows: Seq<PredictedRowView>, row_num: usize, i: int, n: nat)
    requires
        0 <= i < n <= rows.len(),
        spec_find_row(rows, row_num, i as nat).is_none(),
        rows[i].row_num == row_num,
    ensures
        spec_find_row(rows, row_num, n) == Some(i),
    decreases n,
{
    if n > i + 1 {
        lemma_find_row_found(rows, row_num, i, (n - 1) as nat);
    }
}

/// Which row is found first among the first `n` depends on those alone.
pub proof fn lemma_find_row_prefix(
    a: Seq<PredictedRowView>,
    b: Seq<PredictedRowView>,
    row_num: usize,
    n: nat,
)
    requires
        n <= a.len(),
        n <= b.len(),
        forall|i: int| 0 <= i < n ==> a[i].row_num == b[i].row_num,
    ensures
        spec_find_row(a, row_num, n) == spec_find_row(b, row_num, n),
    decreases n,
{
    if n > 0 {
        lemma_find_row_prefix(a, b, row_num, (n - 1) as nat);
    }
}

/// A row that is found is for `row_num`, and no row before it is.
pub proof fn lemma_find_row_is(rows: Seq<PredictedRowView>, row_num: usize, n: nat)
    requires
        n <= rows.len(),
    ensures
        match spec_find_row(rows, row_num, n) {
            Some(i) => 0 <= i < n && rows[i].row_num == row_num,
            None => forall|i: int| 0 <= i < n ==> (#[trigger] rows[i]).row_num != row_num,
        },
    decreases n,
{
    if n > 0 {
        lemma_find_row_is(rows, row_num, (n - 1) as nat);
    }
}

/// Predicts every cell of a row blank.
fn blank_row_cells(cells: &mut Vec<PredictedCell>, epoch: u64, frame: u64, now: u64)
    ensures
        spec_cell_views(final(cells)@) == spec_blanked_cells(
            spec_cell_views(old(cells)@),
            epoch,
            frame,
            now,
        ),
{
    let ghost before = spec_cell_views(cells@);
    let n = cells.len();
    let mut j: usize = 0;
    while j < n
        invariant
            n == cells@.len(),
            before.len() == n,
            j <= n,
            forall|k: int|
                0 <= k < j ==> (#[trigger] cells@[k])@ == spec_cell_blanked(
                    before[k],
                    epoch,
                    frame,
                    now,
                ),
            forall|k: int| j <= k < n ==> (#[trigger] cells@[k])@ == before[k],
        decreases n - j,
    {
        cells[j].active = true;
        cells[j].tentative_until_epoch = epoch;
        cells[j].expire(frame, now);
        cells[j].unknown = false;
        cells[j].replacement = blank_cell(Color::Default);
        j = j + 1;
    }
    assert(spec_cell_views(cells@) =~= spec_blanked_cells(before, epoch, frame, now));
}

/// Predicts a backspace before column `col + 1` in a row.
fn backspace_row(
    cells: &mut Vec<PredictedCell>,
    fb: &Framebuffer,
    row: usize,
    col: usize,
    epoch: u64,
    frame: u64,
    now: u64,
    overwrite: bool,
)
    requires
        fb.grid_ok(),
        row < fb.height,
        col < fb.width,
        old(cells)@.len() == fb.width,
    ensures
        spec_cell_views(final(cells)@) == spec_backspaced_cells(
            spec_cell_views(old(cells)@),
            fb,
            row,
            col,
            epoch,
            frame,
            now,
            overwrite,
        ),
{
    let ghost before = spec_cell_views(cells@);
    let ghost want = spec_backspaced_cells(before, fb, row, col, epoch, frame, now, overwrite);
    let width = fb.width;
    if overwrite {
        let actual = fb.cells[row][col];
        predict_cell(
            &mut cells[col],
            epoch,
            frame,
            now,
            actual,
            false,
            Some(Cell { character: ' ', dirty: true, ..actual }),
        );
        assert(spec_cell_views(cells@) =~= want);
        return ;
    }
    let mut i: usize = col;
    while i < width
        invariant
            fb.grid_ok(),
            row < fb.height,
            width == fb.width,
            cells@.len() == width,
            before.len() == width,
            col <= i <= width,
            !overwrite,
            want == spec_backspaced_cells(before, fb, row, col, epoch, frame, now, overwrite),
            forall|k: int| 0 <= k < col ==> (#[trigger] cells@[k])@ == before[k],
            forall|k: int| col <= k < i ==> (#[trigger] cells@[k])@ == want[k],
            forall|k: int| i <= k < width ==> (#[trigger] cells@[k])@ == before[k],
        decreases width - i,
    {
        let (unknown, replacement): (bool, Option<Cell>) = if width - i > 2 {
            let next = &cells[i + 1];
            if next.active {
                if next.unknown {
                    (true, None)
                } else {
                    (false, Some(next.replacement))
                }
            } else {
                (false, Some(fb.cells[row][i + 1]))
            }
        } else {
            (true, None)
        };
        let actual = fb.cells[row][i];
        predict_cell(&mut cells[i], epoch, frame, now, actual, unknown, replacement);
        i = i + 1;
    }
    assert(spec_cell_views(cells@) =~= want);
}

/// Predicts a character typed in column `col` of a row.
fn type_into_row(
    cells: &mut Vec<PredictedCell>,
    ch: char,
    fb: &Framebuffer,
    row: usize,
    col: usize,
    epoch: u64,
    frame: u64,
    now: u64,
    overwrite: bool,
)
    requires
        fb.grid_ok(),
        row < fb.height,
        col < fb.width,
        old(cells)@.len() == fb.width,
    ensures
        spec_cell_views(final(cells)@) == spec_typed_cells(
            spec_cell_views(old(cells)@),
            ch,
            fb,
            row,
            col,
            epoch,
            frame,
            now,
            overwrite,
        ),
{
    let ghost before = spec_cell_views(cells@);
    let ghost want = spec_typed_cells(before, ch, fb, row, col, epoch, frame, now, overwrite);
    let width = fb.width;
    let rightmost: usize = if overwrite {
        col
    } else {
        width - 1
    };
    let mut i: usize = rightmost;
    while i > col
        invariant
            fb.grid_ok(),
            row < fb.height,
            width == fb.width,
            cells@.len() == width,
            before.len() == width,
            col <= i <= rightmost < width,
            rightmost == if overwrite {
                col
            } else {
                (width - 1) as usize
            },
            want == spec_typed_cells(before, ch, fb, row, col, epoch, frame, now, overwrite),
            forall|k: int| 0 <= k <= i ==> (#[trigger] cells@[k])@ == before[k],
            forall|k: int| i < k <= rightmost ==> (#[trigger] cells@[k])@ == want[k],
            forall|k: int| rightmost < k < width ==> (#[trigger] cells@[k])@ == before[k],
        decreases i,
    {
        let (unknown, replacement): (bool, Option<Cell>) = if i == width - 1 {
            (true, None)
        } else {
            let prev = &cells[i - 1];
            if prev.active {
                if prev.unknown {
                    (true, None)
                } else {
                    (false, Some(prev.replacement))
                }
            } else {
                (false, Some(fb.cells[row][i - 1]))
            }
        };
        let actual = fb.cells[row][i];
        predict_cell(&mut cells[i], epoch, frame, now, actual, unknown, replacement);
        i = i - 1;
    }
    let here = fb.cells[row][col];
    let style: Cell = if col > 0 {
        let prev = &cells[col - 1];
        if prev.active && !prev.unknown {
            prev.replacement
        } else {
            fb.cells[row][col - 1]
        }
    } else {
        here
    };
    let typed = Cell { character: ch, fg: style.fg, bg: style.bg, attrs: style.attrs, dirty: true };
    predict_cell(&mut cells[col], epoch, frame, now, here, false, Some(typed));
    assert(spec_cell_views(cells@) =~= want);
}

/// Adding the row for `row_num` keeps the engine well-formed, and the row
/// is then found where `row_index` says.
pub proof fn lemma_with_row(s: EngineView, row_num: usize, width: usize)
    requires
        s.wf(),
        width == s.last_width,
        row_num < s.last_height,
    ensures
        s.with_row(row_num, width).wf(),
        0 <= s.row_index(row_num) < s.with_row(row_num, width).overlays.len(),
        s.with_row(row_num, width).row_index(row_num) == s.row_index(row_num),
        s.with_row(row_num, width).overlays[s.row_index(row_num)].row_num == row_num,
        s.with_row(row_num, width).overlays[s.row_index(row_num)].overlay_cells.len() == width,
{
    let t = s.with_row(row_num, width);
    let n = s.overlays.len();
    lemma_find_row_is(s.overlays, row_num, n);
    if spec_find_row(s.overlays, row_num, n) is None {
        lemma_find_row_prefix(t.overlays, s.overlays, row_num, n);
        assert(t.overlays[n as int].row_num == row_num);
        assert(spec_find_row(t.overlays, row_num, (n + 1) as nat) == Some(n as int));
        assert forall|i: int| 0 <= i < t.overlays.len() implies {
            let row = #[trigger] t.overlays[i];
            &&& row.row_num < t.last_height
            &&& row.overlay_cells.len() == t.last_width
            &&& forall|j: int| 0 <= j < t.last_width ==> (#[trigger] row.overlay_cells[j]).col == j
        } by {
            if i < n {
                assert(t.overlays[i] == s.overlays[i]);
            }
        }
        assert forall|i: int, k: int|
            0 <= i < t.overlays.len() && 0 <= k < t.overlays.len() && i != k implies (
        #[trigger] t.overlays[i]).row_num != (#[trigger] t.overlays[k]).row_num by {
            if i < n {
                assert(t.overlays[i] == s.overlays[i]);
            }
            if k < n {
                assert(t.overlays[k] == s.overlays[k]);
            }
        }
    }
}

/// Replacing the cells of a row by as many, each in its column, keeps the
/// engine well-formed.
pub proof fn lemma_with_cells(s: EngineView, idx: int, cells: Seq<PredictedCellView>)
    requires
        s.wf(),
        0 <= idx < s.overlays.len(),
        cells.len() == s.last_width,
        forall|j: int| 0 <= j < cells.len() ==> (#[trigger] cells[j]).col == j,
    ensures
        s.with_cells(idx, cells).wf(),
{
    let t = s.with_cells(idx, cells);
    assert forall|i: int| 0 <= i < t.overlays.len() implies {
        let row = #[trigger] t.overlays[i];
        &&& row.row_num < t.last_height
        &&& row.overlay_cells.len() == t.last_width
        &&& forall|j: int| 0 <= j < t.last_width ==> (#[trigger] row.overlay_cells[j]).col == j
    } by {
        if i != idx {
            assert(t.overlays[i] == s.overlays[i]);
        } else {
            assert(s.overlays[idx].row_num < s.last_height);
        }
    }
    assert forall|i: int, k: int|
        0 <= i < t.overlays.len() && 0 <= k < t.overlays.len() && i != k implies (
    #[trigger] t.overlays[i]).row_num != (#[trigger] t.overlays[k]).row_num by {
        assert(t.overlays[i].row_num == s.overlays[i].row_num);
        assert(t.overlays[k].row_num == s.overlays[k].row_num);
    }
}

impl PredictionEngine {
    /// An engine without predictions for a screen of the given size. It
    /// starts in epoch 1 with no epoch confirmed, and takes the link to be
    /// slow until it is told otherwise.
    pub fn new(mode: PredictionMode, width: usize, height: usize) -> (engine: PredictionEngine)
        ensures
            engine@.wf(),
            engine@ == (EngineView {
                mode,
                overlays: Seq::empty(),
                cursors: Seq::empty(),
                local_frame_sent: 0,
                local_frame_acked: 0,
                local_frame_late_acked: 0,
                prediction_epoch: 1,
                confirmed_epoch: 0,
                send_interval_ms: 250,
                srtt_trigger: false,
                flagging: false,
                glitch_trigger: 0,
                last_quick_confirmation: None,
                esc_state: 0,
                width,
                height,
                last_width: width,
                last_height: height,
                predict_overwrite: false,
            }),
    {
        let engine = PredictionEngine {
            mode,
            overlays: Vec::new(),
            cursors: Vec::new(),
            local_frame_sent: 0,
            local_frame_acked: 0,
            local_frame_late_acked: 0,
            prediction_epoch: 1,
            confirmed_epoch: 0,
            send_interval_ms: 250,
            srtt_trigger: false,
            flagging: false,
            glitch_trigger: 0,
            last_quick_confirmation: None,
            esc_state: 0,
            width,
            height,
            last_width: width,
            last_height: height,
            predict_overwrite: false,
            started: instant_now(),
        };
        assert(engine@.overlays =~= Seq::empty());
        assert(engine@.cursors =~= Seq::empty());
        engine
    }

    /// Takes a new screen size and drops all predictions.
    pub fn resize(&mut self, width: usize, height: usize)
        ensures
            old(self)@.glitch_trigger <= GLITCH_REPAIR_COUNT * 2 ==> final(self)@.wf(),
            final(self)@ == (EngineView {
                width,
                height,
                last_width: width,
                last_height: height,
                ..old(self)@
            }).reset(),
    {
        self.width = width;
        self.height = height;
        self.last_width = width;
        self.last_height = height;
        self.reset();
    }

    /// Drops all predictions, leaves any escape sequence and begins a new
    /// epoch.
    pub fn reset(&mut self)
        ensures
            old(self)@.glitch_trigger <= GLITCH_REPAIR_COUNT * 2 ==> final(self)@.wf(),
            final(self)@ == old(self)@.reset(),
    {
        self.overlays = Vec::new();
        self.cursors = Vec::new();
        self.esc_state = 0;
        self.become_tentative();
        assert(self@.overlays =~= Seq::empty());
        assert(self@.cursors =~= Seq::empty());
    }

    /// Does nothing: the cursor is taken from the framebuffer that is
    /// handed to each operation.
    pub fn set_cursor_from_server(&mut self, _row: usize, _col: usize)
        ensures
            final(self)@ == old(self)@,
    {
    }

    /// Records the last frame sent.
    pub fn set_local_frame_sent(&mut self, frame_num: u64)
        ensures
            final(self)@ == (EngineView { local_frame_sent: frame_num, ..old(self)@ }),
    {
        self.local_frame_sent = frame_num;
    }

    /// Records the last frame acknowledged.
    pub fn set_local_frame_acked(&mut self, frame_num: u64)
        ensures
            final(self)@ == (EngineView { local_frame_acked: frame_num, ..old(self)@ }),
    {
        self.local_frame_acked = frame_num;
    }

    /// Records the last frame echoed; the record never goes back.
    pub fn set_local_frame_late_acked(&mut self, frame_num: u64)
        ensures
            final(self)@ == (EngineView {
                local_frame_late_acked: if frame_num > old(self)@.local_frame_late_acked {
                    frame_num
                } else {
                    old(self)@.local_frame_late_acked
                },
                ..old(self)@
            }),
    {
        if frame_num > self.local_frame_late_acked {
            self.local_frame_late_acked = frame_num;
        }
    }

    /// Records the interval between frames sent.
    pub fn set_send_interval(&mut self, send_interval_ms: u64)
        ensures
            final(self)@ == (EngineView { send_interval_ms, ..old(self)@ }),
    {
        self.send_interval_ms = send_interval_ms;
    }

    /// Records the last frame echoed, as `set_local_frame_late_acked` does.
    pub fn server_ack(&mut self, echo_ack_num: u64)
        ensures
            final(self)@ == (EngineView {
                local_frame_late_acked: if echo_ack_num > old(self)@.local_frame_late_acked {
                    echo_ack_num
                } else {
                    old(self)@.local_frame_late_acked
                },
                ..old(self)@
            }),
    {
        self.set_local_frame_late_acked(echo_ack_num);
    }

    /// Begins a new epoch: predictions made from now on are not shown
    /// before one of them has proved correct.
    pub fn become_tentative(&mut self)
        ensures
            final(self)@ == old(self)@.become_tentative(),
    {
        self.prediction_epoch = next_frame(self.prediction_epoch);
    }

    /// Whether the engine holds any prediction.
    #[verifier::loop_isolation(false)]
    pub fn active(&self) -> (any: bool)
        ensures
            any == self@.active(),
    {
        if self.cursors.len() > 0 {
            return true;
        }
        let mut i: usize = 0;
        while i < self.overlays.len()
            invariant
                i <= self.overlays@.len(),
                forall|r: int, j: int|
                    0 <= r < i && 0 <= j < self@.overlays[r].overlay_cells.len() ==> !(
                    #[trigger] self@.overlays[r].overlay_cells[j]).active,
            decreases self.overlays@.len() - i,
        {
            let mut j: usize = 0;
            while j < self.overlays[i].overlay_cells.len()
                invariant
                    i < self.overlays@.len(),
                    j <= self.overlays@[i as int].overlay_cells@.len(),
                    forall|k: int|
                        0 <= k < j ==> !(#[trigger] self@.overlays[i as int].overlay_cells[k]).active,
                decreases self.overlays@[i as int].overlay_cells@.len() - j,
            {
                if self.overlays[i].overlay_cells[j].active {
                    assert(self@.overlays[i as int].overlay_cells[j as int].active);
                    return true;
                }
                j = j + 1;
            }
            i = i + 1;
        }
        false
    }

    /// Whether predictions are shown.
    pub fn should_display_predictions(&self) -> (show: bool)
        ensures
            show == self@.should_display(),
    {
        match self.mode {
            PredictionMode::Never => false,
            PredictionMode::Always => true,
            PredictionMode::Adaptive => self.srtt_trigger || self.glitch_trigger > 0,
        }
    }

    /// Whether the engine holds any prediction.
    pub fn has_predictions(&self) -> (any: bool)
        ensures
            any == self@.active(),
    {
        self.active()
    }

    /// The latest predicted cursor.
    pub fn cursor(&self) -> (c: PredictedCursor)
        requires
            self@.cursors.len() > 0,
        ensures
            c == self@.cursors.last(),
    {
        self.cursors[self.cursors.len() - 1]
    }

    /// The latest predicted cursor, to be changed in place.
    pub fn cursor_mut(&mut self) -> (c: &mut PredictedCursor)
        requires
            old(self)@.cursors.len() > 0,
        ensures
            *c == old(self)@.cursors.last(),
            final(self)@ == (EngineView {
                cursors: old(self)@.cursors.update(old(self)@.cursors.len() - 1, *final(c)),
                ..old(self)@
            }),
    {
        let n = self.cursors.len();
        &mut self.cursors[n - 1]
    }

    /// Finds the row of the overlay for a row of the screen, or adds an
    /// empty one: gives its index.
    #[verifier::loop_isolation(false)]
    pub fn get_or_make_row(&mut self, row_num: usize, num_cols: usize) -> (idx: usize)
        requires
            old(self)@.wf(),
            num_cols == old(self)@.last_width,
            row_num < old(self)@.last_height,
        ensures
            final(self)@.wf(),
            final(self)@ == old(self)@.with_row(row_num, num_cols),
            idx == old(self)@.row_index(row_num),
            idx == final(self)@.row_index(row_num),
            idx < final(self).overlays@.len(),
            final(self).overlays@[idx as int].row_num == row_num,
            final(self).overlays@[idx as int].overlay_cells@.len() == num_cols,
    {
        let ghost before = self@;
        proof {
            lemma_with_row(before, row_num, num_cols);
        }
        let mut i: usize = 0;
        while i < self.overlays.len()
            invariant
                i <= self.overlays@.len(),
                *self == *old(self),
                spec_find_row(before.overlays, row_num, i as nat).is_none(),
            decreases self.overlays@.len() - i,
        {
            if self.overlays[i].row_num == row_num {
                proof {
                    lemma_find_row_found(before.overlays, row_num, i as int, before.overlays.len());
                }
                return i;
            }
            i = i + 1;
        }
        let mut cells: Vec<PredictedCell> = Vec::new();
        while cells.len() < num_cols
            invariant
                cells@.len() <= num_cols,
                forall|j: int|
                    0 <= j < cells@.len() ==> (#[trigger] cells@[j])@ == spec_fresh_cell(j as usize),
            decreases num_cols - cells@.len(),
        {
            let col = cells.len();
            cells.push(PredictedCell::new(col));
        }
        let ghost row_view = PredictedRowView {
            row_num,
            overlay_cells: Seq::new(num_cols as nat, |j: int| spec_fresh_cell(j as usize)),
        };
        assert(spec_cell_views(cells@) =~= row_view.overlay_cells);
        self.overlays.push(PredictedRow { row_num, overlay_cells: cells });
        assert(self@.overlays =~= before.overlays.push(row_view));
        self.overlays.len() - 1
    }

    /// Makes sure there is a predicted cursor for the current epoch: the
    /// framebuffer's where there is none at all, a copy of the latest where
    /// that belongs to another epoch.
    pub fn init_cursor(&mut self, fb: &Framebuffer)
        requires
            old(self)@.wf(),
            fb.width == old(self)@.last_width,
            fb.height == old(self)@.last_height,
        ensures
            final(self)@.wf(),
            final(self)@ == old(self)@.init_cursor(fb),
            fb.width > 0 && fb.height > 0 ==> final(self)@.cursors.len() > 0,
    {
        if fb.width == 0 || fb.height == 0 {
            return ;
        }
        if self.cursors.len() == 0 {
            self.cursors.push(
                PredictedCursor {
                    expiration_frame: next_frame(self.local_frame_sent),
                    row: clamped(fb.cursor_row, fb.height),
                    col: clamped(fb.cursor_col, fb.width),
                    active: true,
                    tentative_until_epoch: self.prediction_epoch,
                },
            );
            assert(self@.cursors =~= seq![old(self)@.fresh_cursor(fb)]);
        } else {
            let prev = self.cursors[self.cursors.len() - 1];
            if prev.tentative_until_epoch != self.prediction_epoch {
                self.cursors.push(
                    PredictedCursor {
                        expiration_frame: next_frame(self.local_frame_sent),
                        row: prev.row,
                        col: prev.col,
                        active: true,
                        tentative_until_epoch: self.prediction_epoch,
                    },
                );
            }
        }
    }

    /// Gives up an epoch: drops every predicted cursor and every predicted
    /// cell that waits for `epoch` or a later one, predicts the cursor anew
    /// from the framebuffer, and begins a new epoch.
    #[verifier::loop_isolation(false)]
    pub fn kill_epoch(&mut self, epoch: u64, fb: &Framebuffer)
        requires
            old(self)@.wf(),
            fb.width == old(self)@.last_width,
            fb.height == old(self)@.last_height,
        ensures
            final(self)@.wf(),
            final(self)@ == old(self)@.kill_epoch(epoch, fb),
    {
        let ghost before = self@;
        let ghost want = before.kill_epoch(epoch, fb);
        let confirmed: u64 = if epoch == 0 {
            0
        } else {
            epoch - 1
        };
        let mut kept: Vec<PredictedCursor> = Vec::new();
        let mut k: usize = 0;
        while k < self.cursors.len()
            invariant
                *self == *old(self),
                k <= self.cursors@.len(),
                kept@ == spec_cursors_settled(self.cursors@, confirmed, k as nat),
                forall|i: int|
                    0 <= i < kept@.len() ==> (#[trigger] kept@[i]).row < self.last_height
                        && kept@[i].col < self.last_width,
            decreases self.cursors@.len() - k,
        {
            let c = self.cursors[k];
            if !c.tentative(confirmed) {
                kept.push(c);
            }
            k = k + 1;
        }
        if fb.width > 0 && fb.height > 0 {
            kept.push(
                PredictedCursor {
                    expiration_frame: next_frame(self.local_frame_sent),
                    row: clamped(fb.cursor_row, fb.height),
                    col: clamped(fb.cursor_col, fb.width),
                    active: true,
                    tentative_until_epoch: self.prediction_epoch,
                },
            );
        }
        assert(kept@ =~= want.cursors);
        self.cursors = kept;
        let mut i: usize = 0;
        while i < self.overlays.len()
            invariant
                i <= self.overlays@.len(),
                self@ == (EngineView { overlays: self@.overlays, cursors: want.cursors, ..before }),
                self.overlays@.len() == before.overlays.len(),
                forall|r: int| 0 <= r < i ==> (#[trigger] self.overlays@[r])@ == want.overlays[r],
                forall|r: int|
                    i <= r < self.overlays@.len() ==> (#[trigger] self.overlays@[r])@
                        == before.overlays[r],
            decreases self.overlays@.len() - i,
        {
            let n = self.overlays[i].overlay_cells.len();
            let mut j: usize = 0;
            while j < n
                invariant
                    i < self.overlays@.len(),
                    n == self.overlays@[i as int].overlay_cells@.len(),
                    n == before.overlays[i as int].overlay_cells.len(),
                    j <= n,
                    self@ == (EngineView {
                        overlays: self@.overlays,
                        cursors: want.cursors,
                        ..before
                    }),
                    self.overlays@.len() == before.overlays.len(),
                    self.overlays@[i as int].row_num == before.overlays[i as int].row_num,
                    forall|r: int|
                        0 <= r < i ==> (#[trigger] self.overlays@[r])@ == want.overlays[r],
                    forall|r: int|
                        i < r < self.overlays@.len() ==> (#[trigger] self.overlays@[r])@
                            == before.overlays[r],
                    forall|c: int|
                        0 <= c < j ==> (#[trigger] self.overlays@[i as int].overlay_cells@[c])@
                            == want.overlays[i as int].overlay_cells[c],
                    forall|c: int|
                        j <= c < n ==> (#[trigger] self.overlays@[i as int].overlay_cells@[c])@
                            == before.overlays[i as int].overlay_cells[c],
                decreases n - j,
            {
                if self.overlays[i].overlay_cells[j].tentative(confirmed) {
                    self.overlays[i].overlay_cells[j].reset();
                }
                j = j + 1;
            }
            assert(self.overlays@[i as int]@.overlay_cells =~= want.overlays[i as int].overlay_cells);
            i = i + 1;
        }
        assert(self@.overlays =~= want.overlays);
        self.become_tentative();
        proof {
            let t = self@;
            assert(t == want);
            assert forall|r: int| 0 <= r < t.overlays.len() implies {
                let row = #[trigger] t.overlays[r];
                &&& row.row_num < t.last_height
                &&& row.overlay_cells.len() == t.last_width
                &&& forall|c: int|
                    0 <= c < t.last_width ==> (#[trigger] row.overlay_cells[c]).col == c
            } by {
                let row0 = before.overlays[r];
                assert(row0.row_num < before.last_height);
                assert forall|c: int| 0 <= c < t.last_width implies (
                #[trigger] t.overlays[r].overlay_cells[c]).col == c by {
                    assert(row0.overlay_cells[c].col == c);
                }
            }
            assert forall|a: int, b: int|
                0 <= a < t.overlays.len() && 0 <= b < t.overlays.len() && a != b implies (
            #[trigger] t.overlays[a]).row_num != (#[trigger] t.overlays[b]).row_num by {
                assert(before.overlays[a].row_num != before.overlays[b].row_num);
            }
        }
    }
}

impl PredictionEngine {
    /// Predicts a carriage return and line feed: the cursor goes to column
    /// zero of the next row, or, on the last row, stays there while that
    /// row is predicted blank.
    pub fn newline_carriage_return(&mut self, fb: &Framebuffer, now: u64)
        requires
            old(self)@.wf(),
            fb.width == old(self)@.last_width,
            fb.height == old(self)@.last_height,
        ensures
            final(self)@.wf(),
            final(self)@ == old(self)@.newline_carriage_return(fb, now),
            final(self)@.same_settings(old(self)@),
    {
        reveal(EngineView::newline_carriage_return);
        if fb.width == 0 || fb.height == 0 {
            return ;
        }
        let ghost want = self@.newline_carriage_return(fb, now);
        self.init_cursor(fb);
        let ghost s1 = self@;
        let frame = next_frame(self.local_frame_sent);
        let n = self.cursors.len();
        self.cursors[n - 1].col = 0;
        self.cursors[n - 1].expiration_frame = frame;
        let row = self.cursors[n - 1].row;
        let ghost c = PredictedCursor { col: 0, expiration_frame: frame, ..s1.cursors.last() };
        assert(self@.cursors =~= s1.with_cursor(c).cursors);
        assert(self@ == s1.with_cursor(c));
        if row == fb.height - 1 {
            let tentative = self.prediction_epoch;
            let ghost s2 = self@;
            let idx = self.get_or_make_row(row, fb.width);
            let ghost s3 = self@;
            blank_row_cells(&mut self.overlays[idx].overlay_cells, tentative, frame, now);
            proof {
                let cells = spec_blanked_cells(
                    s3.overlays[idx as int].overlay_cells,
                    tentative,
                    frame,
                    now,
                );
                assert(self@.overlays =~= s3.with_cells(idx as int, cells).overlays);
                lemma_with_cells(s3, idx as int, cells);
                assert(self@ == s3.with_cells(idx as int, cells));
                assert(self@ == want);
            }
        } else {
            let ghost s2 = self@;
            self.cursors[n - 1].row = row + 1;
            assert(self@.cursors =~= s2.with_cursor(
                PredictedCursor { row: (c.row + 1) as usize, ..c },
            ).cursors);
            assert(self@ == want);
        }
    }

    /// Predicts a move of the cursor to the right.
    pub fn predict_move_right(&mut self, fb: &Framebuffer)
        requires
            old(self)@.wf(),
            fb.width == old(self)@.last_width,
            fb.height == old(self)@.last_height,
        ensures
            final(self)@.wf(),
            final(self)@ == old(self)@.predict_move_right(fb),
            final(self)@.same_settings(old(self)@),
    {
        reveal(EngineView::predict_move_right);
        if fb.width == 0 || fb.height == 0 {
            return ;
        }
        self.init_cursor(fb);
        let ghost s1 = self@;
        let n = self.cursors.len();
        if self.cursors[n - 1].col < fb.width - 1 {
            let frame = next_frame(self.local_frame_sent);
            let col = self.cursors[n - 1].col;
            self.cursors[n - 1].col = col + 1;
            self.cursors[n - 1].expiration_frame = frame;
            assert(self@.cursors =~= s1.with_cursor(
                PredictedCursor {
                    col: (col + 1) as usize,
                    expiration_frame: frame,
                    ..s1.cursors.last()
                },
            ).cursors);
        }
    }

    /// Predicts a move of the cursor to the left.
    pub fn predict_move_left(&mut self, fb: &Framebuffer)
        requires
            old(self)@.wf(),
            fb.width == old(self)@.last_width,
            fb.height == old(self)@.last_height,
        ensures
            final(self)@.wf(),
            final(self)@ == old(self)@.predict_move_left(fb),
            final(self)@.same_settings(old(self)@),
    {
        reveal(EngineView::predict_move_left);
        if fb.width == 0 || fb.height == 0 {
            return ;
        }
        self.init_cursor(fb);
        let ghost s1 = self@;
        let n = self.cursors.len();
        if self.cursors[n - 1].col > 0 {
            let frame = next_frame(self.local_frame_sent);
            let col = self.cursors[n - 1].col;
            self.cursors[n - 1].col = col - 1;
            self.cursors[n - 1].expiration_frame = frame;
            assert(self@.cursors =~= s1.with_cursor(
                PredictedCursor {
                    col: (col - 1) as usize,
                    expiration_frame: frame,
                    ..s1.cursors.last()
                },
            ).cursors);
        }
    }

    /// Predicts a backspace: nothing in column zero; else the cursor moves
    /// left and the rest of the row moves with it.
    pub fn predict_backspace(&mut self, fb: &Framebuffer, now: u64)
        requires
            old(self)@.wf(),
            fb.grid_ok(),
            fb.width == old(self)@.last_width,
            fb.height == old(self)@.last_height,
        ensures
            final(self)@.wf(),
            final(self)@ == old(self)@.predict_backspace(fb, now),
            final(self)@.same_settings(old(self)@),
    {
        reveal(EngineView::predict_backspace);
        if fb.width == 0 || fb.height == 0 {
            return ;
        }
        self.init_cursor(fb);
        let n = self.cursors.len();
        let c = self.cursors[n - 1];
        if c.col == 0 || c.row >= fb.height {
            return ;
        }
        let ghost s1 = self@;
        let frame = next_frame(self.local_frame_sent);
        let col = c.col - 1;
        self.cursors[n - 1].col = col;
        self.cursors[n - 1].expiration_frame = frame;
        assert(self@.cursors =~= s1.with_cursor(
            PredictedCursor { col, expiration_frame: frame, ..c },
        ).cursors);
        assert(self@ == s1.with_cursor(PredictedCursor { col, expiration_frame: frame, ..c }));
        let tentative = self.prediction_epoch;
        let overwrite = self.predict_overwrite;
        let idx = self.get_or_make_row(c.row, fb.width);
        let ghost s3 = self@;
        backspace_row(
            &mut self.overlays[idx].overlay_cells,
            fb,
            c.row,
            col,
            tentative,
            frame,
            now,
            overwrite,
        );
        proof {
            let cells = spec_backspaced_cells(
                s3.overlays[idx as int].overlay_cells,
                fb,
                c.row,
                col,
                tentative,
                frame,
                now,
                overwrite,
            );
            assert(self@.overlays =~= s3.with_cells(idx as int, cells).overlays);
            assert forall|j: int| 0 <= j < cells.len() implies (#[trigger] cells[j]).col == j by {
                assert(s3.overlays[idx as int].overlay_cells[j].col == j);
            }
            lemma_with_cells(s3, idx as int, cells);
            assert(self@ == s3.with_cells(idx as int, cells));
        }
    }

    /// Predicts a typed character: it appears under the cursor and the
    /// cursor moves right; in the last column the prediction becomes
    /// tentative and a carriage return and line feed is predicted after it.
    #[verifier::rlimit(60)]
    pub fn predict_printable(&mut self, ch: char, fb: &Framebuffer, now: u64)
        requires
            old(self)@.wf(),
            fb.grid_ok(),
            fb.width == old(self)@.last_width,
            fb.height == old(self)@.last_height,
        ensures
            final(self)@.wf(),
            final(self)@ == old(self)@.predict_printable(ch, fb, now),
            final(self)@.same_settings(old(self)@),
    {
        reveal(EngineView::predict_printable);
        if fb.width == 0 || fb.height == 0 {
            return ;
        }
        self.init_cursor(fb);
        let n = self.cursors.len();
        let c = self.cursors[n - 1];
        if c.row >= fb.height || c.col >= fb.width {
            return ;
        }
        let ghost want = old(self)@.predict_printable(ch, fb, now);
        let frame = next_frame(self.local_frame_sent);
        let tentative = self.prediction_epoch;
        if fb.width - c.col <= 1 {
            self.become_tentative();
        }
        let overwrite = self.predict_overwrite;
        let idx = self.get_or_make_row(c.row, fb.width);
        let ghost s2 = self@;
        type_into_row(
            &mut self.overlays[idx].overlay_cells,
            ch,
            fb,
            c.row,
            c.col,
            tentative,
            frame,
            now,
            overwrite,
        );
        proof {
            let cells = spec_typed_cells(
                s2.overlays[idx as int].overlay_cells,
                ch,
                fb,
                c.row,
                c.col,
                tentative,
                frame,
                now,
                overwrite,
            );
            assert(self@.overlays =~= s2.with_cells(idx as int, cells).overlays);
            assert forall|j: int| 0 <= j < cells.len() implies (#[trigger] cells[j]).col == j by {
                assert(s2.overlays[idx as int].overlay_cells[j].col == j);
            }
            lemma_with_cells(s2, idx as int, cells);
            assert(self@ == s2.with_cells(idx as int, cells));
        }
        let ghost s3 = self@;
        let ghost stamped = PredictedCursor { expiration_frame: frame, ..c };
        self.cursors[n - 1].expiration_frame = frame;
        assert(self@.cursors =~= s3.with_cursor(stamped).cursors);
        if c.col < fb.width - 1 {
            self.cursors[n - 1].col = c.col + 1;
            assert(self@.cursors =~= s3.with_cursor(
                PredictedCursor { col: (c.col + 1) as usize, ..stamped },
            ).cursors);
            assert(self@ == want);
            return ;
        }
        assert(self@ == s3.with_cursor(stamped));
        self.become_tentative();
        self.newline_carriage_return(fb, now);
        assert(self@ == want);
    }

    /// Takes one octet of input against a framebuffer that the predictions
    /// have just been culled with.
    pub fn predict_byte(&mut self, byte: u8, fb: &Framebuffer, now: u64)
        requires
            old(self)@.wf(),
            fb.grid_ok(),
            fb.width == old(self)@.last_width,
            fb.height == old(self)@.last_height,
        ensures
            final(self)@.wf(),
            final(self)@ == old(self)@.user_byte(byte, fb, now),
            final(self)@.same_settings(old(self)@),
    {
        let the_byte: u8 = if self.esc_state == 1 && byte == 0x4F {
            0x5B
        } else {
            byte
        };
        if self.esc_state == 0 {
            if the_byte == 0x1B {
                self.esc_state = 1;
            } else if the_byte == 0x7F {
                self.predict_backspace(fb, now);
            } else if the_byte == 0x0D {
                self.become_tentative();
                self.newline_carriage_return(fb, now);
            } else if 0x20 <= the_byte && the_byte <= 0x7E {
                self.predict_printable(the_byte as char, fb, now);
            } else {
                self.become_tentative();
            }
        } else if self.esc_state == 1 {
            if the_byte == 0x5B {
                self.esc_state = 2;
            } else {
                self.become_tentative();
                self.esc_state = 0;
            }
        } else if 0x40 <= the_byte && the_byte <= 0x7E {
            if the_byte == 0x43 {
                self.predict_move_right(fb);
            } else if the_byte == 0x44 {
                self.predict_move_left(fb);
            } else {
                self.become_tentative();
            }
            self.esc_state = 0;
        }
    }
}

/// How many of the first `n` cells hold a prediction.
pub open spec fn spec_active_cells(cells: Seq<PredictedCellView>, n: nat) -> nat
    decreases n,
{
    if n == 0 {
        0
    } else {
        spec_active_cells(cells, (n - 1) as nat) + if cells[n - 1].active {
            1nat
        } else {
            0nat
        }
    }
}

/// How many cells of the first `n` rows hold a prediction.
pub open spec fn spec_active_count(rows: Seq<PredictedRowView>, n: nat) -> nat
    decreases n,
{
    if n == 0 {
        0
    } else {
        spec_active_count(rows, (n - 1) as nat) + spec_active_cells(
            rows[n - 1].overlay_cells,
            rows[n - 1].overlay_cells.len(),
        )
    }
}

/// Whether a cell has come out of an earlier one by judging: in its
/// column, and either without prediction or with the earlier prediction,
/// changed at most in its rendition.
pub open spec fn spec_cell_survives(after: PredictedCellView, before: PredictedCellView) -> bool {
    &&& after.col == before.col
    &&& after.active ==> {
        &&& before.active
        &&& after.expiration_frame == before.expiration_frame
        &&& after.tentative_until_epoch == before.tentative_until_epoch
        &&& after.prediction_time == before.prediction_time
        &&& after.unknown == before.unknown
        &&& after.original_contents == before.original_contents
        &&& after.replacement.character == before.replacement.character
        &&& after.replacement.dirty == before.replacement.dirty
    }
}

/// Whether the rows of an overlay have come out of earlier ones by
/// judging: the same rows, each cell surviving.
pub open spec fn spec_rows_survive(
    after: Seq<PredictedRowView>,
    before: Seq<PredictedRowView>,
) -> bool {
    &&& after.len() == before.len()
    &&& forall|i: int|
        0 <= i < after.len() ==> {
            &&& (#[trigger] after[i]).row_num == before[i].row_num
            &&& after[i].overlay_cells.len() == before[i].overlay_cells.len()
            &&& forall|j: int|
                0 <= j < after[i].overlay_cells.len() ==> spec_cell_survives(
                    #[trigger] after[i].overlay_cells[j],
                    before[i].overlay_cells[j],
                )
        }
}

/// Whether no prediction of the rows is as old as a glitch.
pub open spec fn spec_all_quick(rows: Seq<PredictedRowView>, now: u64) -> bool {
    forall|i: int, j: int|
        0 <= i < rows.len() && 0 <= j < rows[i].overlay_cells.len() && (
        #[trigger] rows[i].overlay_cells[j]).active ==> now - rows[i].overlay_cells[j].prediction_time
            < GLITCH_THRESHOLD_MS
}

/// Of surviving cells no more hold a prediction than before.
pub proof fn lemma_active_cells_le(a: Seq<PredictedCellView>, b: Seq<PredictedCellView>, n: nat)
    requires
        n <= a.len(),
        n <= b.len(),
        forall|j: int| 0 <= j < n ==> ((#[trigger] a[j]).active ==> b[j].active),
    ensures
        spec_active_cells(a, n) <= spec_active_cells(b, n),
    decreases n,
{
    if n > 0 {
        lemma_active_cells_le(a, b, (n - 1) as nat);
    }
}

/// Of surviving cells fewer hold a prediction than before where one has
/// lost its prediction.
pub proof fn lemma_active_cells_lt(
    a: Seq<PredictedCellView>,
    b: Seq<PredictedCellView>,
    n: nat,
    lost: int,
)
    requires
        n <= a.len(),
        n <= b.len(),
        forall|j: int| 0 <= j < n ==> ((#[trigger] a[j]).active ==> b[j].active),
        0 <= lost < n,
        b[lost].active,
        !a[lost].active,
    ensures
        spec_active_cells(a, n) < spec_active_cells(b, n),
    decreases n,
{
    if lost == n - 1 {
        lemma_active_cells_le(a, b, (n - 1) as nat);
    } else {
        lemma_active_cells_lt(a, b, (n - 1) as nat, lost);
    }
}

/// Of surviving rows no more cells hold a prediction than before.
pub proof fn lemma_active_count_le(a: Seq<PredictedRowView>, b: Seq<PredictedRowView>, n: nat)
    requires
        spec_rows_survive(a, b),
        n <= a.len(),
    ensures
        spec_active_count(a, n) <= spec_active_count(b, n),
    decreases n,
{
    if n > 0 {
        lemma_active_count_le(a, b, (n - 1) as nat);
        let i = n - 1;
        assert(a[i].row_num == b[i].row_num);
        assert forall|j: int|
            0 <= j < a[i].overlay_cells.len() && (
            #[trigger] a[i].overlay_cells[j]).active implies b[i].overlay_cells[j].active by {
            assert(spec_cell_survives(a[i].overlay_cells[j], b[i].overlay_cells[j]));
        }
        lemma_active_cells_le(a[i].overlay_cells, b[i].overlay_cells, a[i].overlay_cells.len());
    }
}

/// Of surviving rows fewer cells hold a prediction than before where one
/// has lost its prediction.
pub proof fn lemma_active_count_lt(
    a: Seq<PredictedRowView>,
    b: Seq<PredictedRowView>,
    n: nat,
    row: int,
    col: int,
)
    requires
        spec_rows_survive(a, b),
        n <= a.len(),
        0 <= row < n,
        0 <= col < b[row].overlay_cells.len(),
        b[row].overlay_cells[col].active,
        !a[row].overlay_cells[col].active,
    ensures
        spec_active_count(a, n) < spec_active_count(b, n),
    decreases n,
{
    let i = n - 1;
    assert(a[i].row_num == b[i].row_num);
    assert forall|j: int|
        0 <= j < a[i].overlay_cells.len() && (
        #[trigger] a[i].overlay_cells[j]).active implies b[i].overlay_cells[j].active by {
        assert(spec_cell_survives(a[i].overlay_cells[j], b[i].overlay_cells[j]));
    }
    if row == i {
        lemma_active_count_le(a, b, (n - 1) as nat);
        lemma_active_cells_lt(
            a[i].overlay_cells,
            b[i].overlay_cells,
            a[i].overlay_cells.len(),
            col,
        );
    } else {
        lemma_active_count_lt(a, b, (n - 1) as nat, row, col);
        lemma_active_cells_le(a[i].overlay_cells, b[i].overlay_cells, a[i].overlay_cells.len());
    }
}

/// What judging the overlay against the framebuffer has found.
#[derive(Debug, Clone, Copy, PartialEq, Eq, Structural)]
pub enum ScanOutcome {
    /// Every prediction seen is pending, or was correct and is dropped.
    Clean,
    /// A prediction of this epoch is wrong, and the epoch unconfirmed.
    Kill(u64),
    /// A prediction of a confirmed epoch is wrong.
    FullReset,
}

/// Whether at most one quick confirmation has been counted at time `now`
/// between two states of the engine: either none was, and the glitch
/// count has not gone down; or the first one at that time was, and the
/// count has gone down by one at most.
pub open spec fn spec_credited_once(after: EngineView, before: EngineView, now: u64) -> bool {
    ||| after.last_quick_confirmation == before.last_quick_confirmation && after.glitch_trigger
        >= before.glitch_trigger
    ||| before.last_quick_confirmation != Some(now) && after.last_quick_confirmation == Some(now)
        && after.glitch_trigger + 1 >= before.glitch_trigger
}

/// Whether the engine has come out of an earlier state by judging cells:
/// the rows survive, the confirmed epoch has not gone back, the glitch
/// count has gone up only where a prediction was as old as a glitch, and
/// nothing else has changed but the time of the last quick confirmation.
pub open spec fn spec_judged(after: EngineView, before: EngineView, now: u64) -> bool {
    &&& after == (EngineView {
        overlays: after.overlays,
        confirmed_epoch: after.confirmed_epoch,
        glitch_trigger: after.glitch_trigger,
        last_quick_confirmation: after.last_quick_confirmation,
        ..before
    })
    &&& spec_rows_survive(after.overlays, before.overlays)
    &&& after.confirmed_epoch >= before.confirmed_epoch
    &&& spec_all_quick(before.overlays, now) ==> after.glitch_trigger <= before.glitch_trigger
    &&& spec_credited_once(after, before, now)
}

/// Surviving is transitive.
pub proof fn lemma_rows_survive_trans(
    a: Seq<PredictedRowView>,
    b: Seq<PredictedRowView>,
    c: Seq<PredictedRowView>,
)
    requires
        spec_rows_survive(a, b),
        spec_rows_survive(b, c),
    ensures
        spec_rows_survive(a, c),
{
    assert forall|i: int| 0 <= i < a.len() implies {
        &&& (#[trigger] a[i]).row_num == c[i].row_num
        &&& a[i].overlay_cells.len() == c[i].overlay_cells.len()
        &&& forall|j: int|
            0 <= j < a[i].overlay_cells.len() ==> spec_cell_survives(
                #[trigger] a[i].overlay_cells[j],
                c[i].overlay_cells[j],
            )
    } by {
        assert(b[i].row_num == c[i].row_num);
        assert forall|j: int| 0 <= j < a[i].overlay_cells.len() implies spec_cell_survives(
            #[trigger] a[i].overlay_cells[j],
            c[i].overlay_cells[j],
        ) by {
            assert(spec_cell_survives(a[i].overlay_cells[j], b[i].overlay_cells[j]));
            assert(spec_cell_survives(b[i].overlay_cells[j], c[i].overlay_cells[j]));
        }
    }
}

/// Predictions that survive are no older than they were: if none was as
/// old as a glitch before, none is after.
pub proof fn lemma_all_quick_survives(
    after: Seq<PredictedRowView>,
    before: Seq<PredictedRowView>,
    now: u64,
)
    requires
        spec_rows_survive(after, before),
        spec_all_quick(before, now),
    ensures
        spec_all_quick(after, now),
{
    assert forall|i: int, j: int|
        0 <= i < after.len() && 0 <= j < after[i].overlay_cells.len() && (
        #[trigger] after[i].overlay_cells[j]).active implies now
        - after[i].overlay_cells[j].prediction_time < GLITCH_THRESHOLD_MS by {
        assert(after[i].row_num == before[i].row_num);
        assert(spec_cell_survives(after[i].overlay_cells[j], before[i].overlay_cells[j]));
        assert(before[i].overlay_cells[j].active);
    }
}

/// Judging twice is judging.
pub proof fn lemma_judged_trans(a: EngineView, b: EngineView, c: EngineView, now: u64)
    requires
        spec_judged(a, b, now),
        spec_judged(b, c, now),
    ensures
        spec_judged(a, c, now),
{
    lemma_rows_survive_trans(a.overlays, b.overlays, c.overlays);
    if spec_all_quick(c.overlays, now) {
        lemma_all_quick_survives(b.overlays, c.overlays, now);
    }
}

/// A predicted cell in the rendition of `actual`.
pub open spec fn spec_restyled(pc: PredictedCellView, actual: Cell) -> PredictedCellView {
    PredictedCellView {
        replacement: Cell { fg: actual.fg, bg: actual.bg, attrs: actual.attrs, ..pc.replacement },
        ..pc
    }
}

/// How long ago, at time `now`, a prediction was made; nothing where the
/// clock has gone back.
pub open spec fn spec_age(now: u64, made: u64) -> u64 {
    if now >= made {
        (now - made) as u64
    } else {
        0
    }
}

impl EngineView {
    /// What judging slot `j` of row `i` of the overlay finds: a wrong
    /// prediction of an unconfirmed epoch kills the epoch, one of a
    /// confirmed epoch resets the engine, anything else lets the scan go
    /// on.
    pub open spec fn verdict(self, i: int, j: int, fb: &Framebuffer) -> ScanOutcome {
        let pc = self.overlays[i].overlay_cells[j];
        if spec_validity(self.local_frame_late_acked, fb, self.overlays[i].row_num, pc)
            == Validity::IncorrectOrExpired {
            if pc.tentative_until_epoch > self.confirmed_epoch {
                ScanOutcome::Kill(pc.tentative_until_epoch)
            } else {
                ScanOutcome::FullReset
            }
        } else {
            ScanOutcome::Clean
        }
    }

    /// Whether a correct prediction made at `made` counts as a quick
    /// confirmation: it is younger than a glitch, confirmations are owed,
    /// and the last one that counted is long enough ago.
    pub open spec fn quick_confirmation(self, made: u64, now: u64) -> bool {
        &&& spec_age(now, made) < GLITCH_THRESHOLD_MS
        &&& self.glitch_trigger > 0
        &&& match self.last_quick_confirmation {
            Some(last) => now >= last && now - last >= GLITCH_REPAIR_MIN_INTERVAL_MS,
            None => true,
        }
    }

    /// The engine after the correct prediction in slot `j` of row `i` is
    /// credited: its epoch is confirmed, a quick confirmation is counted,
    /// the prediction and those after it in the row take the rendition
    /// that the screen shows, and the prediction is dropped.
    pub open spec fn credited(self, i: int, j: int, fb: &Framebuffer, now: u64) -> EngineView {
        let row = self.overlays[i];
        let pc = row.overlay_cells[j];
        let quick = self.quick_confirmation(pc.prediction_time, now);
        let actual = fb.cell(row.row_num as int, j);
        EngineView {
            confirmed_epoch: if pc.tentative_until_epoch > self.confirmed_epoch {
                pc.tentative_until_epoch
            } else {
                self.confirmed_epoch
            },
            glitch_trigger: if quick {
                (self.glitch_trigger - 1) as u32
            } else {
                self.glitch_trigger
            },
            last_quick_confirmation: if quick {
                Some(now)
            } else {
                self.last_quick_confirmation
            },
            overlays: self.overlays.update(
                i,
                PredictedRowView {
                    row_num: row.row_num,
                    overlay_cells: Seq::new(
                        row.overlay_cells.len(),
                        |k: int|
                            if k < j {
                                row.overlay_cells[k]
                            } else if k == j {
                                spec_cell_reset(spec_restyled(row.overlay_cells[k], actual))
                            } else {
                                spec_restyled(row.overlay_cells[k], actual)
                            },
                    ),
                },
            ),
            ..self
        }
    }

    /// The glitch count after a pending prediction made at `made` is
    /// seen: twice the repair count where it is old enough to be flagged,
    /// at least the repair count where it is as old as a glitch.
    pub open spec fn glitch_after_pending(self, made: u64, now: u64) -> u32 {
        if spec_age(now, made) >= GLITCH_FLAG_THRESHOLD_MS {
            (GLITCH_REPAIR_COUNT * 2) as u32
        } else if spec_age(now, made) >= GLITCH_THRESHOLD_MS && self.glitch_trigger
            < GLITCH_REPAIR_COUNT {
            GLITCH_REPAIR_COUNT
        } else {
            self.glitch_trigger
        }
    }

    /// The engine after slot `j` of row `i` of the overlay is judged and
    /// the scan goes on: a correct prediction is credited, one that is
    /// correct without credit is dropped, a pending one is counted as a
    /// glitch where it is old.
    pub open spec fn judged(self, i: int, j: int, fb: &Framebuffer, now: u64) -> EngineView {
        let row = self.overlays[i];
        let pc = row.overlay_cells[j];
        match spec_validity(self.local_frame_late_acked, fb, row.row_num, pc) {
            Validity::Correct => self.credited(i, j, fb, now),
            Validity::CorrectNoCredit => EngineView {
                overlays: self.overlays.update(
                    i,
                    PredictedRowView {
                        row_num: row.row_num,
                        overlay_cells: row.overlay_cells.update(j, spec_cell_reset(pc)),
                    },
                ),
                ..self
            },
            Validity::Pending => EngineView {
                glitch_trigger: self.glitch_after_pending(pc.prediction_time, now),
                ..self
            },
            _ => self,
        }
    }

    /// The engine after the overlay is scanned from slot `j` of row `i`
    /// on, row by row, and what the scan found: it ends at the first
    /// wrong prediction.
    pub open spec fn scan_from(self, i: int, j: int, fb: &Framebuffer, now: u64) -> (
        EngineView,
        ScanOutcome,
    )
        decreases self.overlays.len() - i, self.last_width - j,
    {
        if i < 0 || j < 0 || i >= self.overlays.len() {
            (self, ScanOutcome::Clean)
        } else if j >= self.last_width {
            self.scan_from(i + 1, 0, fb, now)
        } else if self.verdict(i, j, fb) is Clean {
            self.judged(i, j, fb, now).scan_from(i, j + 1, fb, now)
        } else {
            (self, self.verdict(i, j, fb))
        }
    }

    /// The engine with the predicted cursors judged: a latest one that is
    /// wrong resets the engine; else those that are pending stay.
    pub open spec fn settle_cursors(self, fb: &Framebuffer) -> EngineView {
        if self.cursors.len() > 0 && spec_cursor_validity(
            self.local_frame_late_acked,
            fb,
            self.cursors.last(),
        ) == Validity::IncorrectOrExpired {
            self.reset()
        } else {
            EngineView {
                cursors: spec_cursors_pending(
                    self.cursors,
                    self.local_frame_late_acked,
                    fb,
                    self.cursors.len(),
                ),
                ..self
            }
        }
    }

    /// The engine after the overlay is scanned, and scanned again after
    /// each epoch that a scan kills, at most `rounds` times more; then the
    /// predicted cursors are judged.
    pub open spec fn cull_rounds(self, fb: &Framebuffer, now: u64, rounds: nat) -> EngineView
        decreases rounds,
    {
        let (scanned, found) = self.scan_from(0, 0, fb, now);
        match found {
            ScanOutcome::FullReset => scanned.reset(),
            ScanOutcome::Kill(epoch) => if rounds == 0 {
                scanned
            } else {
                scanned.kill_epoch(epoch, fb).cull_rounds(fb, now, (rounds - 1) as nat)
            },
            ScanOutcome::Clean => scanned.settle_cursors(fb),
        }
    }

    /// The engine after its predictions are judged against the
    /// framebuffer at time `now`.
    ///
    /// In mode `Never` nothing changes. A framebuffer of another size than
    /// the predictions were made for resets the engine. Otherwise the two
    /// triggers follow the send interval, and the overlay is scanned until
    /// a scan finds no wrong prediction: each scan that kills an epoch
    /// drops a prediction, so there are no more scans than predictions.
    pub open spec fn culled(self, fb: &Framebuffer, now: u64) -> EngineView {
        if self.mode == PredictionMode::Never {
            self
        } else if self.last_height != fb.height || self.last_width != fb.width {
            (EngineView { last_height: fb.height, last_width: fb.width, ..self }).reset()
        } else {
            (EngineView {
                srtt_trigger: spec_srtt_trigger(self),
                flagging: spec_flagging(self),
                ..self
            }).cull_rounds(fb, now, spec_active_count(self.overlays, self.overlays.len()))
        }
    }
}

/// Gives the cells from `from` on the rendition of `actual`.
fn restyle_from(cells: &mut Vec<PredictedCell>, from: usize, actual: Cell)
    ensures
        final(cells)@.len() == old(cells)@.len(),
        forall|k: int|
            0 <= k < old(cells)@.len() ==> (#[trigger] final(cells)@[k])@ == if k < from {
                old(cells)@[k]@
            } else {
                PredictedCellView {
                    replacement: Cell {
                        fg: actual.fg,
                        bg: actual.bg,
                        attrs: actual.attrs,
                        ..old(cells)@[k]@.replacement
                    },
                    ..old(cells)@[k]@
                }
            },
{
    let n = cells.len();
    let mut k: usize = from;
    while k < n
        invariant
            n == cells@.len(),
            n == old(cells)@.len(),
            from <= k,
            forall|x: int|
                0 <= x < n && (x < from || x >= k) ==> (#[trigger] cells@[x])@ == old(cells)@[x]@,
            forall|x: int|
                from <= x < k && x < n ==> (#[trigger] cells@[x])@ == (PredictedCellView {
                    replacement: Cell {
                        fg: actual.fg,
                        bg: actual.bg,
                        attrs: actual.attrs,
                        ..old(cells)@[x]@.replacement
                    },
                    ..old(cells)@[x]@
                }),
        decreases n - k,
    {
        let shown = cells[k].replacement;
        cells[k].replacement = Cell { fg: actual.fg, bg: actual.bg, attrs: actual.attrs, ..shown };
        k = k + 1;
    }
}

impl PredictionEngine {
    /// Judges one predicted cell against the framebuffer. A correct
    /// prediction confirms its epoch, gives the later cells of the row the
    /// rendition that the screen shows, and is dropped; a pending one that
    /// is old counts as a glitch; a wrong one is reported.
    fn judge_cell(&mut self, i: usize, j: usize, fb: &Framebuffer, now: u64) -> (outcome:
        ScanOutcome)
        requires
            old(self)@.wf(),
            fb.grid_ok(),
            fb.width == old(self)@.last_width,
            fb.height == old(self)@.last_height,
            i < old(self)@.overlays.len(),
            j < old(self)@.last_width,
        ensures
            final(self)@.wf(),
            spec_judged(final(self)@, old(self)@, now),
            forall|r: int|
                0 <= r < old(self)@.overlays.len() && r != i ==> #[trigger] final(self)@.overlays[r]
                    == old(self)@.overlays[r],
            forall|k: int|
                0 <= k < j ==> #[trigger] final(self)@.overlays[i as int].overlay_cells[k] == old(self)@.overlays[i as int].overlay_cells[k],
            outcome is Clean ==> !final(self)@.overlays[i as int].overlay_cells[j as int].active
                || final(self)@.local_frame_late_acked < final(self)@.overlays[i as int].overlay_cells[j as int].expiration_frame,
            !(outcome is Clean) ==> final(self)@ == old(self)@,
            outcome == old(self)@.verdict(i as int, j as int, fb),
            outcome is Clean ==> final(self)@ == old(self)@.judged(i as int, j as int, fb, now),
            outcome is Kill ==> outcome->Kill_0 >= 1 && old(self)@.overlays[i as int].overlay_cells[j as int].active && old(self)@.overlays[i as int].overlay_cells[j as int].tentative_until_epoch
                == outcome->Kill_0,
    {
        let ghost before = self@;
        let row_num = self.overlays[i].row_num;
        assert(before.overlays[i as int].row_num == row_num);
        assert(before.overlays[i as int].overlay_cells[j as int] == self.overlays@[i as int].overlay_cells@[j as int]@);
        let validity = cell_validity(
            self.local_frame_late_acked,
            fb,
            row_num,
            &self.overlays[i].overlay_cells[j],
        );
        match validity {
            Validity::IncorrectOrExpired => {
                let epoch = self.overlays[i].overlay_cells[j].tentative_until_epoch;
                proof {
                    self.lemma_row_changed(before, i as int, now);
                }
                if epoch > self.confirmed_epoch {
                    ScanOutcome::Kill(epoch)
                } else {
                    ScanOutcome::FullReset
                }
            },
            Validity::Correct => {
                let epoch = self.overlays[i].overlay_cells[j].tentative_until_epoch;
                let made = self.overlays[i].overlay_cells[j].prediction_time;
                let col = self.overlays[i].overlay_cells[j].col;
                assert(col == j);
                if epoch > self.confirmed_epoch {
                    self.confirmed_epoch = epoch;
                }
                let age: u64 = if now >= made {
                    now - made
                } else {
                    0
                };
                if age < GLITCH_THRESHOLD_MS {
                    let enough = match self.last_quick_confirmation {
                        Some(last) => now >= last && now - last >= GLITCH_REPAIR_MIN_INTERVAL_MS,
                        None => true,
                    };
                    if self.glitch_trigger > 0 && enough {
                        self.glitch_trigger = self.glitch_trigger - 1;
                        self.last_quick_confirmation = Some(now);
                    }
                }
                let actual = fb.cells[row_num][col];
                restyle_from(&mut self.overlays[i].overlay_cells, j, actual);
                self.overlays[i].overlay_cells[j].reset();
                proof {
                    self.lemma_row_changed(before, i as int, now);
                    let want = before.credited(i as int, j as int, fb, now);
                    assert(actual == fb.cell(row_num as int, j as int));
                    assert(self@.overlays[i as int].overlay_cells
                        =~= want.overlays[i as int].overlay_cells);
                    assert(self@.overlays =~= want.overlays);
                    assert(self@ == want);
                }
                ScanOutcome::Clean
            },
            Validity::CorrectNoCredit => {
                self.overlays[i].overlay_cells[j].reset();
                proof {
                    self.lemma_row_changed(before, i as int, now);
                    let want = before.judged(i as int, j as int, fb, now);
                    assert(self@.overlays[i as int].overlay_cells
                        =~= want.overlays[i as int].overlay_cells);
                    assert(self@.overlays =~= want.overlays);
                    assert(self@ == want);
                }
                ScanOutcome::Clean
            },
            Validity::Pending => {
                let made = self.overlays[i].overlay_cells[j].prediction_time;
                let age: u64 = if now >= made {
                    now - made
                } else {
                    0
                };
                if age >= GLITCH_FLAG_THRESHOLD_MS {
                    self.glitch_trigger = GLITCH_REPAIR_COUNT * 2;
                } else if age >= GLITCH_THRESHOLD_MS && self.glitch_trigger < GLITCH_REPAIR_COUNT {
                    self.glitch_trigger = GLITCH_REPAIR_COUNT;
                }
                proof {
                    assert(self@.overlays =~= before.overlays);
                    self.lemma_row_changed(before, i as int, now);
                    if spec_all_quick(before.overlays, now) {
                        assert(before.overlays[i as int].overlay_cells[j as int].active);
                    }
                }
                ScanOutcome::Clean
            },
            Validity::Inactive => {
                proof {
                    self.lemma_row_changed(before, i as int, now);
                }
                ScanOutcome::Clean
            },
        }
    }

    /// Where one row of the overlay has changed so that its cells survive,
    /// the engine has come out of the earlier state by judging, and is
    /// well-formed as that was.
    proof fn lemma_row_changed(&self, before: EngineView, i: int, now: u64)
        requires
            before.wf(),
            0 <= i < before.overlays.len(),
            self@ == (EngineView {
                overlays: self@.overlays,
                confirmed_epoch: self@.confirmed_epoch,
                glitch_trigger: self@.glitch_trigger,
                last_quick_confirmation: self@.last_quick_confirmation,
                ..before
            }),
            self@.overlays.len() == before.overlays.len(),
            forall|r: int|
                0 <= r < before.overlays.len() && r != i ==> #[trigger] self@.overlays[r]
                    == before.overlays[r],
            self@.glitch_trigger <= GLITCH_REPAIR_COUNT * 2,
            self@.overlays[i].row_num == before.overlays[i].row_num,
            self@.overlays[i].overlay_cells.len() == before.overlays[i].overlay_cells.len(),
            forall|k: int|
                0 <= k < before.overlays[i].overlay_cells.len() ==> spec_cell_survives(
                    #[trigger] self@.overlays[i].overlay_cells[k],
                    before.overlays[i].overlay_cells[k],
                ),
        ensures
            self@.wf(),
            spec_rows_survive(self@.overlays, before.overlays),
    {
        let t = self@;
        assert forall|r: int| 0 <= r < t.overlays.len() implies {
            &&& (#[trigger] t.overlays[r]).row_num == before.overlays[r].row_num
            &&& t.overlays[r].overlay_cells.len() == before.overlays[r].overlay_cells.len()
            &&& forall|k: int|
                0 <= k < t.overlays[r].overlay_cells.len() ==> spec_cell_survives(
                    #[trigger] t.overlays[r].overlay_cells[k],
                    before.overlays[r].overlay_cells[k],
                )
        } by {
            if r != i {
                assert(t.overlays[r] == before.overlays[r]);
            }
        }
        assert forall|r: int| 0 <= r < t.overlays.len() implies {
            let row = #[trigger] t.overlays[r];
            &&& row.row_num < t.last_height
            &&& row.overlay_cells.len() == t.last_width
            &&& forall|c: int| 0 <= c < t.last_width ==> (#[trigger] row.overlay_cells[c]).col == c
        } by {
            let row0 = before.overlays[r];
            assert(row0.row_num < before.last_height);
            assert(t.overlays[r].row_num == row0.row_num);
            assert forall|c: int| 0 <= c < t.last_width implies (
            #[trigger] t.overlays[r].overlay_cells[c]).col == c by {
                assert(row0.overlay_cells[c].col == c);
                assert(spec_cell_survives(t.overlays[r].overlay_cells[c], row0.overlay_cells[c]));
            }
        }
        assert forall|a: int, b: int|
            0 <= a < t.overlays.len() && 0 <= b < t.overlays.len() && a != b implies (
        #[trigger] t.overlays[a]).row_num != (#[trigger] t.overlays[b]).row_num by {
            assert(t.overlays[a].row_num == before.overlays[a].row_num);
            assert(t.overlays[b].row_num == before.overlays[b].row_num);
        }
    }
}

/// Whether predictions are shown once the send interval has been looked
/// at: above 30 ms they are, at or below 20 ms they are no more once there
/// are none left, in between nothing changes.
pub open spec fn spec_srtt_trigger(s: EngineView) -> bool {
    if s.send_interval_ms > SRTT_TRIGGER_HIGH_MS {
        true
    } else if s.srtt_trigger && s.send_interval_ms <= SRTT_TRIGGER_LOW_MS && !s.active() {
        false
    } else {
        s.srtt_trigger
    }
}

/// Whether predictions are underlined once the send interval and the
/// glitch count have been looked at: above 80 ms they are, at or below
/// 50 ms they are not, in between nothing changes; and they are wherever
/// more than ten quick confirmations are owed.
pub open spec fn spec_flagging(s: EngineView) -> bool {
    (if s.send_interval_ms > FLAG_TRIGGER_HIGH_MS {
        true
    } else if s.send_interval_ms <= FLAG_TRIGGER_LOW_MS {
        false
    } else {
        s.flagging
    }) || s.glitch_trigger > GLITCH_REPAIR_COUNT
}

/// Whether every prediction of the rows still waits for its frame.
pub open spec fn spec_all_pending(rows: Seq<PredictedRowView>, late_ack: u64) -> bool {
    forall|i: int, j: int|
        0 <= i < rows.len() && 0 <= j < rows[i].overlay_cells.len() && (
        #[trigger] rows[i].overlay_cells[j]).active ==> late_ack
            < rows[i].overlay_cells[j].expiration_frame
}

/// What holds of the engine `after` its predictions are culled against
/// the framebuffer at time `now`, whatever the predictions are.
///
/// In mode `Never` nothing changes. A framebuffer of another size than the
/// predictions were made for resets the engine. Otherwise the two triggers
/// follow the send interval; the overlay is either empty or has survived,
/// and every prediction left in it still waits for its frame; every
/// predicted cursor left is pending; neither the confirmed epoch nor the
/// prediction epoch has gone back; the glitch count has gone up only
/// where a prediction was as old as a glitch, and has gone down by one
/// quick confirmation at most.
pub open spec fn spec_culled(
    before: EngineView,
    after: EngineView,
    fb: &Framebuffer,
    now: u64,
) -> bool {
    if before.mode == PredictionMode::Never {
        after == before
    } else if before.last_height != fb.height || before.last_width != fb.width {
        after == (EngineView { last_height: fb.height, last_width: fb.width, ..before }).reset()
    } else {
        &&& after == (EngineView {
            overlays: after.overlays,
            cursors: after.cursors,
            confirmed_epoch: after.confirmed_epoch,
            glitch_trigger: after.glitch_trigger,
            last_quick_confirmation: after.last_quick_confirmation,
            prediction_epoch: after.prediction_epoch,
            esc_state: after.esc_state,
            srtt_trigger: spec_srtt_trigger(before),
            flagging: spec_flagging(before),
            ..before
        })
        &&& after.confirmed_epoch >= before.confirmed_epoch
        &&& after.prediction_epoch >= before.prediction_epoch
        &&& after.esc_state == before.esc_state || after.esc_state == 0
        &&& after.overlays.len() == 0 || spec_rows_survive(after.overlays, before.overlays)
        &&& spec_all_pending(after.overlays, after.local_frame_late_acked)
        &&& forall|k: int|
            0 <= k < after.cursors.len() ==> spec_cursor_validity(
                after.local_frame_late_acked,
                fb,
                #[trigger] after.cursors[k],
            ) == Validity::Pending
        &&& spec_all_quick(before.overlays, now) ==> after.glitch_trigger <= before.glitch_trigger
        &&& spec_credited_once(after, before, now)
    }
}

impl PredictionEngine {
    /// Judges every predicted cell, row by row, until one is wrong.
    fn scan_overlays(&mut self, fb: &Framebuffer, now: u64) -> (outcome: ScanOutcome)
        requires
            old(self)@.wf(),
            fb.grid_ok(),
            fb.width == old(self)@.last_width,
            fb.height == old(self)@.last_height,
        ensures
            final(self)@.wf(),
            spec_judged(final(self)@, old(self)@, now),
            (final(self)@, outcome) == old(self)@.scan_from(0, 0, fb, now),
            outcome is Clean ==> spec_all_pending(
                final(self)@.overlays,
                final(self)@.local_frame_late_acked,
            ),
            outcome is Kill ==> outcome->Kill_0 >= 1 && exists|i: int, j: int|
                0 <= i < final(self)@.overlays.len() && 0 <= j < final(self)@.last_width && (
                #[trigger] final(self)@.overlays[i].overlay_cells[j]).active && final(self)@.overlays[i].overlay_cells[j].tentative_until_epoch == outcome->Kill_0,
    {
        let ghost before = self@;
        let rows = self.overlays.len();
        let width = self.last_width;
        let mut i: usize = 0;
        proof {
            assert(spec_rows_survive(before.overlays, before.overlays));
        }
        while i < rows
            invariant
                rows == self@.overlays.len(),
                width == self@.last_width,
                before == old(self)@,
                self@.wf(),
                fb.grid_ok(),
                fb.width == self@.last_width,
                fb.height == self@.last_height,
                spec_judged(self@, before, now),
                self@.scan_from(i as int, 0, fb, now) == before.scan_from(0, 0, fb, now),
                i <= rows,
                forall|r: int, c: int|
                    0 <= r < i && 0 <= c < width && (#[trigger] self@.overlays[r].overlay_cells[c]).active
                        ==> self@.local_frame_late_acked
                        < self@.overlays[r].overlay_cells[c].expiration_frame,
            decreases rows - i,
        {
            let mut j: usize = 0;
            while j < width
                invariant
                    rows == self@.overlays.len(),
                    width == self@.last_width,
                    before == old(self)@,
                    self@.wf(),
                    fb.grid_ok(),
                    fb.width == self@.last_width,
                    fb.height == self@.last_height,
                    spec_judged(self@, before, now),
                    self@.scan_from(i as int, j as int, fb, now) == before.scan_from(
                        0,
                        0,
                        fb,
                        now,
                    ),
                    i < rows,
                    j <= width,
                    forall|r: int, c: int|
                        0 <= r < i && 0 <= c < width && (
                        #[trigger] self@.overlays[r].overlay_cells[c]).active
                            ==> self@.local_frame_late_acked
                            < self@.overlays[r].overlay_cells[c].expiration_frame,
                    forall|c: int|
                        0 <= c < j && (#[trigger] self@.overlays[i as int].overlay_cells[c]).active
                            ==> self@.local_frame_late_acked
                            < self@.overlays[i as int].overlay_cells[c].expiration_frame,
                decreases width - j,
            {
                let ghost mid = self@;
                let outcome = self.judge_cell(i, j, fb, now);
                proof {
                    assert(mid.scan_from(i as int, j as int, fb, now) == if outcome is Clean {
                        self@.scan_from(i as int, j + 1, fb, now)
                    } else {
                        (mid, outcome)
                    });
                    lemma_judged_trans(self@, mid, before, now);
                    assert forall|r: int, c: int|
                        0 <= r < i && 0 <= c < width && (
                        #[trigger] self@.overlays[r].overlay_cells[c]).active implies self@.local_frame_late_acked
                        < self@.overlays[r].overlay_cells[c].expiration_frame by {
                        assert(self@.overlays[r] == mid.overlays[r]);
                        assert(mid.overlays[r].overlay_cells[c].active);
                    }
                    assert forall|c: int|
                        0 <= c < j && (
                        #[trigger] self@.overlays[i as int].overlay_cells[c]).active implies self@.local_frame_late_acked
                        < self@.overlays[i as int].overlay_cells[c].expiration_frame by {
                        assert(self@.overlays[i as int].overlay_cells[c]
                            == mid.overlays[i as int].overlay_cells[c]);
                    }
                }
                match outcome {
                    ScanOutcome::Clean => {},
                    _ => {
                        assert(self@ == mid);
                        assert(mid.overlays[i as int].overlay_cells[j as int].active
                            || !(outcome is Kill));
                        return outcome;
                    },
                }
                j = j + 1;
            }
            assert(self@.scan_from(i as int, width as int, fb, now) == self@.scan_from(
                i + 1,
                0,
                fb,
                now,
            ));
            i = i + 1;
        }
        assert(self@.scan_from(rows as int, 0, fb, now) == (self@, ScanOutcome::Clean));
        proof {
            assert forall|r: int, c: int|
                0 <= r < self@.overlays.len() && 0 <= c < self@.overlays[r].overlay_cells.len() && (
                #[trigger] self@.overlays[r].overlay_cells[c]).active implies self@.local_frame_late_acked
                < self@.overlays[r].overlay_cells[c].expiration_frame by {
                assert(self@.overlays[r].overlay_cells.len() == width);
            }
        }
        ScanOutcome::Clean
    }

    /// Judges the predictions against the authoritative framebuffer at time
    /// `now`, in milliseconds on the engine's clock, and drops what is
    /// settled or wrong.
    pub fn cull_at(&mut self, server_fb: &Framebuffer, now: u64)
        requires
            old(self)@.wf(),
            server_fb.grid_ok(),
        ensures
            final(self)@.wf(),
            final(self)@ == old(self)@.culled(server_fb, now),
            spec_culled(old(self)@, final(self)@, server_fb, now),
            final(self)@.mode == old(self)@.mode,
            old(self)@.mode != PredictionMode::Never ==> final(self)@.last_width
                == server_fb.width && final(self)@.last_height == server_fb.height,
    {
        let ghost before = self@;
        if self.mode == PredictionMode::Never {
            return ;
        }
        if self.last_height != server_fb.height || self.last_width != server_fb.width {
            self.last_height = server_fb.height;
            self.last_width = server_fb.width;
            self.reset();
            return ;
        }
        let any = self.active();
        if self.send_interval_ms > SRTT_TRIGGER_HIGH_MS {
            self.srtt_trigger = true;
        } else if self.srtt_trigger && self.send_interval_ms <= SRTT_TRIGGER_LOW_MS && !any {
            self.srtt_trigger = false;
        }
        if self.send_interval_ms > FLAG_TRIGGER_HIGH_MS {
            self.flagging = true;
        } else if self.send_interval_ms <= FLAG_TRIGGER_LOW_MS {
            self.flagging = false;
        }
        if self.glitch_trigger > GLITCH_REPAIR_COUNT {
            self.flagging = true;
        }
        let ghost base = self@;
        let ghost target = before.culled(server_fb, now);
        let ghost mut rounds: nat = spec_active_count(before.overlays, before.overlays.len());
        proof {
            assert(spec_rows_survive(base.overlays, before.overlays));
        }
        let mut done = false;
        while !done
            invariant
                self@.wf(),
                server_fb.grid_ok(),
                server_fb.width == self@.last_width,
                server_fb.height == self@.last_height,
                before == old(self)@,
                before.last_width == server_fb.width,
                before.last_height == server_fb.height,
                base == (EngineView {
                    srtt_trigger: spec_srtt_trigger(before),
                    flagging: spec_flagging(before),
                    ..before
                }),
                before.mode != PredictionMode::Never,
                self@ == (EngineView {
                    overlays: self@.overlays,
                    cursors: self@.cursors,
                    confirmed_epoch: self@.confirmed_epoch,
                    glitch_trigger: self@.glitch_trigger,
                    last_quick_confirmation: self@.last_quick_confirmation,
                    prediction_epoch: self@.prediction_epoch,
                    ..base
                }),
                self@.confirmed_epoch >= base.confirmed_epoch,
                self@.prediction_epoch >= base.prediction_epoch,
                spec_rows_survive(self@.overlays, base.overlays),
                spec_all_quick(base.overlays, now) ==> self@.glitch_trigger <= base.glitch_trigger,
                spec_credited_once(self@, base, now),
                done ==> spec_all_pending(self@.overlays, self@.local_frame_late_acked),
                rounds >= spec_active_count(self@.overlays, self@.overlays.len()),
                target == before.culled(server_fb, now),
                target == if done {
                    self@.settle_cursors(server_fb)
                } else {
                    self@.cull_rounds(server_fb, now, rounds)
                },
            decreases
                    spec_active_count(self@.overlays, self@.overlays.len()) + if done {
                        0nat
                    } else {
                        1nat
                    },
        {
            let ghost start = self@;
            let outcome = self.scan_overlays(server_fb, now);
            let ghost mid = self@;
            proof {
                lemma_rows_survive_trans(mid.overlays, start.overlays, base.overlays);
                if spec_all_quick(base.overlays, now) {
                    lemma_all_quick_survives(start.overlays, base.overlays, now);
                }
                lemma_active_count_le(mid.overlays, start.overlays, mid.overlays.len());
            }
            match outcome {
                ScanOutcome::FullReset => {
                    assert(start.scan_from(0, 0, server_fb, now) == (mid, outcome));
                    assert(start.cull_rounds(server_fb, now, rounds) == mid.reset());
                    self.reset();
                    return ;
                },
                ScanOutcome::Kill(epoch) => {
                    self.kill_epoch(epoch, server_fb);
                    proof {
                        let killed = self@;
                        assert forall|i: int| 0 <= i < killed.overlays.len() implies {
                            &&& (#[trigger] killed.overlays[i]).row_num == mid.overlays[i].row_num
                            &&& killed.overlays[i].overlay_cells.len()
                                == mid.overlays[i].overlay_cells.len()
                            &&& forall|j: int|
                                0 <= j < killed.overlays[i].overlay_cells.len()
                                    ==> spec_cell_survives(
                                    #[trigger] killed.overlays[i].overlay_cells[j],
                                    mid.overlays[i].overlay_cells[j],
                                )
                        } by {}
                        assert(spec_rows_survive(killed.overlays, mid.overlays));
                        let (wi, wj) = choose|i: int, j: int|
                            0 <= i < mid.overlays.len() && 0 <= j < mid.last_width && (
                            #[trigger] mid.overlays[i].overlay_cells[j]).active
                                && mid.overlays[i].overlay_cells[j].tentative_until_epoch == epoch;
                        assert(!killed.overlays[wi].overlay_cells[wj].active);
                        lemma_active_count_lt(
                            killed.overlays,
                            mid.overlays,
                            mid.overlays.len(),
                            wi,
                            wj,
                        );
                        lemma_rows_survive_trans(killed.overlays, mid.overlays, base.overlays);
                        rounds = (rounds - 1) as nat;
                    }
                },
                ScanOutcome::Clean => {
                    done = true;
                },
            }
        }
        let n = self.cursors.len();
        if n > 0 {
            let last = self.cursors[n - 1];
            match cursor_validity(self.local_frame_late_acked, server_fb, &last) {
                Validity::IncorrectOrExpired => {
                    self.reset();
                    return ;
                },
                _ => {},
            }
        }
        let mut kept: Vec<PredictedCursor> = Vec::new();
        let mut k: usize = 0;
        while k < n
            invariant
                n == self.cursors@.len(),
                k <= n,
                self@.wf(),
                kept@ == spec_cursors_pending(
                    self.cursors@,
                    self.local_frame_late_acked,
                    server_fb,
                    k as nat,
                ),
                forall|x: int|
                    0 <= x < kept@.len() ==> spec_cursor_validity(
                        self.local_frame_late_acked,
                        server_fb,
                        #[trigger] kept@[x],
                    ) == Validity::Pending && kept@[x].row < self.last_height && kept@[x].col
                        < self.last_width,
            decreases n - k,
        {
            let c = self.cursors[k];
            assert(self@.cursors[k as int] == c);
            match cursor_validity(self.local_frame_late_acked, server_fb, &c) {
                Validity::Pending => {
                    kept.push(c);
                },
                _ => {},
            }
            k = k + 1;
        }
        self.cursors = kept;
    }
}

impl EngineView {
    /// The engine after one octet of input is taken against the
    /// framebuffer at time `now`: nothing changes in mode `Never`; else
    /// the predictions are culled and the octet is then predicted.
    pub open spec fn after_byte(self, byte: u8, fb: &Framebuffer, now: u64) -> EngineView {
        if self.mode == PredictionMode::Never {
            self
        } else {
            self.culled(fb, now).user_byte(byte, fb, now)
        }
    }

    /// The engine after the octets of `data` are taken one after the
    /// other.
    pub open spec fn after_bytes(self, data: Seq<u8>, fb: &Framebuffer, now: u64) -> EngineView
        decreases data.len(),
    {
        if data.len() == 0 {
            self
        } else {
            self.after_bytes(data.drop_last(), fb, now).after_byte(data.last(), fb, now)
        }
    }

    /// The engine after a batch of input: a batch of more than a hundred
    /// octets resets it; the octets of a shorter one are taken one after
    /// the other.
    pub open spec fn after_batch(self, data: Seq<u8>, fb: &Framebuffer, now: u64) -> EngineView {
        if data.len() > MAX_PREDICTED_BATCH {
            self.reset()
        } else {
            self.after_bytes(data, fb, now)
        }
    }
}

/// The predicted cursor that is shown: the latest of the first `n` that is
/// active, belongs to a confirmed epoch and lies within the screen.
pub open spec fn spec_shown_cursor(
    cursors: Seq<PredictedCursor>,
    confirmed: u64,
    width: usize,
    height: usize,
    n: nat,
) -> Option<(usize, usize)>
    decreases n,
{
    if n == 0 {
        None
    } else {
        let c = cursors[n - 1];
        if c.active && !c.spec_tentative(confirmed) && c.row < height && c.col < width {
            Some((c.row, c.col))
        } else {
            spec_shown_cursor(cursors, confirmed, width, height, (n - 1) as nat)
        }
    }
}

/// What a cell of the screen shows under a prediction: itself where the
/// prediction is inactive or of an unconfirmed epoch; itself, underlined
/// where predictions are flagged, under an unknown prediction outside the
/// last column; else the prediction, to be drawn, underlined where
/// predictions are flagged and not both are blank. A cell that shows
/// exactly the prediction already stays as it is.
pub open spec fn spec_overlaid(
    pc: PredictedCellView,
    shown: Cell,
    confirmed: u64,
    flagging: bool,
    width: usize,
) -> Cell {
    if !pc.active || pc.tentative_until_epoch > confirmed {
        shown
    } else if pc.unknown {
        if flagging && pc.col != width - 1 {
            Cell { attrs: Attributes { underline: true, ..shown.attrs }, dirty: true, ..shown }
        } else {
            shown
        }
    } else if shown != pc.replacement {
        let underline = flagging && !(spec_cell_is_blank(pc.replacement) && spec_cell_is_blank(
            shown,
        ));
        Cell {
            attrs: if underline {
                Attributes { underline: true, ..pc.replacement.attrs }
            } else {
                pc.replacement.attrs
            },
            dirty: true,
            ..pc.replacement
        }
    } else {
        shown
    }
}

/// What the cell in row `r` and column `c` shows once the first `n` rows
/// of the overlay are applied to the framebuffer.
pub open spec fn spec_overlay_cell(s: EngineView, fb: &Framebuffer, r: int, c: int, n: nat) -> Cell {
    match spec_find_row(s.overlays, r as usize, n) {
        Some(i) => if c < s.overlays[i].overlay_cells.len() {
            spec_overlaid(
                s.overlays[i].overlay_cells[c],
                fb.cell(r, c),
                s.confirmed_epoch,
                s.flagging,
                fb.width,
            )
        } else {
            fb.cell(r, c)
        },
        None => fb.cell(r, c),
    }
}

impl PredictionEngine {
    /// Takes one octet of input at time `now`: culls the predictions with
    /// the framebuffer, then predicts the effect of the octet.
    pub fn new_user_byte(&mut self, the_byte: u8, fb: &Framebuffer, now: u64)
        requires
            old(self)@.wf(),
            fb.grid_ok(),
        ensures
            final(self)@.wf(),
            final(self)@.mode == old(self)@.mode,
            final(self)@ == old(self)@.after_byte(the_byte, fb, now),
    {
        if self.mode == PredictionMode::Never {
            return ;
        }
        self.cull_at(fb, now);
        self.predict_byte(the_byte, fb, now);
    }

    /// Takes a batch of input at time `now`, in milliseconds on the
    /// engine's clock. A batch of more than a hundred octets is not
    /// predicted: it resets the engine.
    pub fn new_user_input_batch_at(&mut self, data: &[u8], base_fb: &Framebuffer, now: u64)
        requires
            old(self)@.wf(),
            base_fb.grid_ok(),
        ensures
            final(self)@.wf(),
            final(self)@ == old(self)@.after_batch(data@, base_fb, now),
    {
        if data.len() > MAX_PREDICTED_BATCH {
            self.reset();
            return ;
        }
        let mut i: usize = 0;
        while i < data.len()
            invariant
                i <= data@.len(),
                self@.wf(),
                base_fb.grid_ok(),
                self@ == old(self)@.after_bytes(data@.take(i as int), base_fb, now),
            decreases data@.len() - i,
        {
            assert(data@.take(i + 1).drop_last() =~= data@.take(i as int));
            self.new_user_byte(data[i], base_fb, now);
            i = i + 1;
        }
        assert(data@.take(i as int) =~= data@);
    }

    /// Takes a batch of input now: reads the engine's clock and does what
    /// `new_user_input_batch_at` does at that time.
    pub fn new_user_input_batch(&mut self, data: &[u8], base_fb: &Framebuffer)
        requires
            old(self)@.wf(),
            base_fb.grid_ok(),
        ensures
            final(self)@.wf(),
            exists|now: u64|
                final(self)@ == #[trigger] old(self)@.after_batch(data@, base_fb, now),
    {
        let now = elapsed_millis(&self.started);
        self.new_user_input_batch_at(data, base_fb, now);
    }

    /// Culls the predictions now: reads the engine's clock and does what
    /// `cull_at` does at that time.
    pub fn cull(&mut self, server_fb: &Framebuffer)
        requires
            old(self)@.wf(),
            server_fb.grid_ok(),
        ensures
            final(self)@.wf(),
            exists|now: u64|
                final(self)@ == #[trigger] old(self)@.culled(server_fb, now) && spec_culled(
                    old(self)@,
                    final(self)@,
                    server_fb,
                    now,
                ),
    {
        let now = elapsed_millis(&self.started);
        self.cull_at(server_fb, now);
    }
}

/// Predictions that are due are not shown after culling: where the server
/// has echoed the frame of every prediction in the overlay, culling leaves
/// no prediction in it.
pub proof fn lemma_cull_drops_acked(
    before: EngineView,
    after: EngineView,
    fb: &Framebuffer,
    now: u64,
)
    requires
        spec_culled(before, after, fb, now),
        before.mode != PredictionMode::Never,
        forall|i: int, j: int|
            0 <= i < before.overlays.len() && 0 <= j < before.overlays[i].overlay_cells.len() && (
            #[trigger] before.overlays[i].overlay_cells[j]).active
                ==> before.local_frame_late_acked
                >= before.overlays[i].overlay_cells[j].expiration_frame,
    ensures
        forall|i: int, j: int|
            0 <= i < after.overlays.len() && 0 <= j < after.overlays[i].overlay_cells.len() ==> !(
            #[trigger] after.overlays[i].overlay_cells[j]).active,
{
    assert forall|i: int, j: int|
        0 <= i < after.overlays.len() && 0 <= j < after.overlays[i].overlay_cells.len() implies !(
    #[trigger] after.overlays[i].overlay_cells[j]).active by {
        if after.overlays[i].overlay_cells[j].active {
            assert(spec_rows_survive(after.overlays, before.overlays));
            assert(after.overlays[i].row_num == before.overlays[i].row_num);
            assert(spec_cell_survives(
                after.overlays[i].overlay_cells[j],
                before.overlays[i].overlay_cells[j],
            ));
            assert(before.overlays[i].overlay_cells[j].active);
        }
    }
}

/// Whether every row of the overlay has a slot for each column.
pub open spec fn spec_rows_fit(s: EngineView) -> bool {
    forall|a: int|
        0 <= a < s.overlays.len() ==> (#[trigger] s.overlays[a]).overlay_cells.len()
            == s.last_width
}

/// Whether a scan that has come to slot `j` of row `i` has only settled
/// predictions before it: no prediction is left in the slots it has
/// passed, and every prediction in the slots to come is due and not wrong.
pub open spec fn spec_settles(s: EngineView, fb: &Framebuffer, i: int, j: int) -> bool {
    forall|a: int, b: int|
        0 <= a < s.overlays.len() && 0 <= b < s.last_width ==> {
            let pc = #[trigger] s.overlays[a].overlay_cells[b];
            if a < i || (a == i && b < j) {
                !pc.active
            } else {
                spec_validity(s.local_frame_late_acked, fb, s.overlays[a].row_num, pc)
                    != Validity::IncorrectOrExpired && spec_validity(
                    s.local_frame_late_acked,
                    fb,
                    s.overlays[a].row_num,
                    pc,
                ) != Validity::Pending
            }
        }
}

/// Judging a prediction that is due and not wrong drops it, and leaves
/// the predictions to come due and not wrong.
pub proof fn lemma_judged_settles(s: EngineView, fb: &Framebuffer, now: u64, i: int, j: int)
    requires
        spec_rows_fit(s),
        0 <= i < s.overlays.len(),
        0 <= j < s.last_width,
        spec_settles(s, fb, i, j),
    ensures
        s.verdict(i, j, fb) is Clean,
        ({
            let t = s.judged(i, j, fb, now);
            &&& spec_rows_fit(t)
            &&& spec_settles(t, fb, i, j + 1)
            &&& t.glitch_trigger <= s.glitch_trigger
            &&& t == (EngineView {
                overlays: t.overlays,
                confirmed_epoch: t.confirmed_epoch,
                glitch_trigger: t.glitch_trigger,
                last_quick_confirmation: t.last_quick_confirmation,
                ..s
            })
            &&& t.overlays.len() == s.overlays.len()
        }),
{
    let t = s.judged(i, j, fb, now);
    let row = s.overlays[i];
    let pc = row.overlay_cells[j];
    let late = s.local_frame_late_acked;
    let v = spec_validity(late, fb, row.row_num, pc);
    assert(v != Validity::IncorrectOrExpired && v != Validity::Pending);
    assert forall|a: int| 0 <= a < t.overlays.len() implies (#[trigger] t.overlays[a]).overlay_cells.len()
        == t.last_width by {
        assert(s.overlays[a].overlay_cells.len() == s.last_width);
    }
    assert forall|a: int, b: int| 0 <= a < t.overlays.len() && 0 <= b < t.last_width implies {
        let qc = #[trigger] t.overlays[a].overlay_cells[b];
        if a < i || (a == i && b < j + 1) {
            !qc.active
        } else {
            spec_validity(t.local_frame_late_acked, fb, t.overlays[a].row_num, qc)
                != Validity::IncorrectOrExpired && spec_validity(
                t.local_frame_late_acked,
                fb,
                t.overlays[a].row_num,
                qc,
            ) != Validity::Pending
        }
    } by {
        let before = s.overlays[a].overlay_cells[b];
        assert(s.overlays[a].overlay_cells.len() == s.last_width);
        let was = spec_validity(late, fb, s.overlays[a].row_num, before);
        if a == i && b > j && v == Validity::Correct {
            let actual = fb.cell(row.row_num as int, j);
            assert(t.overlays[a].overlay_cells[b] == spec_restyled(before, actual));
            assert(spec_seen_before(spec_restyled(before, actual)) == spec_seen_before(before)) by {
                if spec_seen_before(before) {
                    let k = choose|k: int|
                        0 <= k < before.original_contents.len() && spec_cell_contents_match(
                            #[trigger] before.original_contents[k],
                            before.replacement,
                        );
                    assert(spec_cell_contents_match(
                        spec_restyled(before, actual).original_contents[k],
                        spec_restyled(before, actual).replacement,
                    ));
                }
                if spec_seen_before(spec_restyled(before, actual)) {
                    let k = choose|k: int|
                        0 <= k < before.original_contents.len() && spec_cell_contents_match(
                            #[trigger] spec_restyled(before, actual).original_contents[k],
                            spec_restyled(before, actual).replacement,
                        );
                    assert(spec_cell_contents_match(
                        before.original_contents[k],
                        before.replacement,
                    ));
                }
            }
        }
    }
}

/// A scan of predictions that are all due and none wrong finds nothing
/// wrong, drops them all, and does not raise the glitch count.
pub proof fn lemma_scan_settles(s: EngineView, fb: &Framebuffer, now: u64, i: int, j: int)
    requires
        spec_rows_fit(s),
        0 <= i <= s.overlays.len(),
        0 <= j <= s.last_width,
        spec_settles(s, fb, i, j),
    ensures
        ({
            let (t, found) = s.scan_from(i, j, fb, now);
            &&& found is Clean
            &&& t.glitch_trigger <= s.glitch_trigger
            &&& t == (EngineView {
                overlays: t.overlays,
                confirmed_epoch: t.confirmed_epoch,
                glitch_trigger: t.glitch_trigger,
                last_quick_confirmation: t.last_quick_confirmation,
                ..s
            })
            &&& t.overlays.len() == s.overlays.len()
            &&& spec_rows_fit(t)
            &&& forall|a: int, b: int|
                0 <= a < t.overlays.len() && 0 <= b < t.last_width ==> !(
                #[trigger] t.overlays[a].overlay_cells[b]).active
        }),
    decreases s.overlays.len() - i, s.last_width - j,
{
    if i >= s.overlays.len() {
    } else if j >= s.last_width {
        assert(spec_settles(s, fb, i + 1, 0));
        lemma_scan_settles(s, fb, now, i + 1, 0);
    } else {
        lemma_judged_settles(s, fb, now, i, j);
        lemma_scan_settles(s.judged(i, j, fb, now), fb, now, i, j + 1);
    }
}

/// No predicted cursor is left pending where the server has echoed the
/// frame of each.
pub proof fn lemma_no_cursor_waits(
    cursors: Seq<PredictedCursor>,
    late_ack: u64,
    fb: &Framebuffer,
    n: nat,
)
    requires
        n <= cursors.len(),
        forall|k: int| 0 <= k < cursors.len() ==> late_ack >= (#[trigger] cursors[k]).expiration_frame,
    ensures
        spec_cursors_pending(cursors, late_ack, fb, n).len() == 0,
    decreases n,
{
    if n > 0 {
        lemma_no_cursor_waits(cursors, late_ack, fb, (n - 1) as nat);
    }
}

/// Where the server has echoed the frame of every prediction and none is
/// wrong, culling leaves no prediction, cell or cursor, and does not raise
/// the glitch count: a character that was typed and has come back as
/// predicted is settled by one culling.
pub proof fn lemma_cull_settles(s: EngineView, fb: &Framebuffer, now: u64)
    requires
        spec_rows_fit(s),
        s.mode != PredictionMode::Never,
        spec_settles(s, fb, 0, 0),
        forall|k: int|
            0 <= k < s.cursors.len() ==> s.local_frame_late_acked >= (
            #[trigger] s.cursors[k]).expiration_frame,
    ensures
        !s.culled(fb, now).active(),
        s.culled(fb, now).glitch_trigger <= s.glitch_trigger,
{
    if s.last_height != fb.height || s.last_width != fb.width {
    } else {
        let base = EngineView {
            srtt_trigger: spec_srtt_trigger(s),
            flagging: spec_flagging(s),
            ..s
        };
        let rounds = spec_active_count(s.overlays, s.overlays.len());
        assert(spec_rows_fit(base)) by {
            assert forall|a: int| 0 <= a < base.overlays.len() implies (
            #[trigger] base.overlays[a]).overlay_cells.len() == base.last_width by {
                assert(s.overlays[a].overlay_cells.len() == s.last_width);
            }
        }
        assert(spec_settles(base, fb, 0, 0));
        lemma_scan_settles(base, fb, now, 0, 0);
        let (t, found) = base.scan_from(0, 0, fb, now);
        lemma_no_cursor_waits(t.cursors, t.local_frame_late_acked, fb, t.cursors.len());
        let u = t.settle_cursors(fb);
        assert(base.cull_rounds(fb, now, rounds) == u);
        assert(u.cursors.len() == 0);
        assert forall|a: int, b: int|
            0 <= a < u.overlays.len() && 0 <= b < u.overlays[a].overlay_cells.len() implies !(
        #[trigger] u.overlays[a].overlay_cells[b]).active by {
            if u.overlays.len() > 0 {
                assert(u.overlays == t.overlays);
                assert(t.overlays[a].overlay_cells.len() == t.last_width);
            }
        }
    }
}

/// A backspace is predicted by erasing the cell before the cursor: where
/// the engine held no prediction and the cell under the cursor is blank,
/// the predicted cursor stands one column to the left, and the cell there
/// is predicted to be a space.
pub proof fn lemma_backspace_erases_previous_cell(s: EngineView, fb: &Framebuffer, now: u64)
    requires
        s.overlays.len() == 0,
        s.cursors.len() == 0,
        fb.cursor_row < fb.height,
        1 <= fb.cursor_col,
        fb.cursor_col + 1 < fb.width,
        spec_cell_is_blank(fb.cell(fb.cursor_row as int, fb.cursor_col as int)),
    ensures
        ({
            let t = s.predict_backspace(fb, now);
            let at = fb.cursor_col - 1;
            &&& t.cursors.len() == 1
            &&& t.cursors.last().row == fb.cursor_row
            &&& t.cursors.last().col == at
            &&& t.overlays.len() == 1
            &&& t.overlays[0].row_num == fb.cursor_row
            &&& t.overlays[0].overlay_cells.len() == fb.width
            &&& t.overlays[0].overlay_cells[at].active
            &&& !t.overlays[0].overlay_cells[at].unknown
            &&& t.overlays[0].overlay_cells[at].replacement.character == ' '
            &&& t.overlays[0].overlay_cells[at].expiration_frame == spec_next_frame(
                s.local_frame_sent,
            )
        }),
{
    reveal(EngineView::predict_backspace);
    reveal_with_fuel(spec_find_row, 2);
    let r = fb.cursor_row;
    let k = fb.cursor_col;
    let s1 = s.init_cursor(fb);
    let c = s1.cursors.last();
    assert(c.row == r && c.col == k);
    let s2 = s1.with_cursor(
        PredictedCursor {
            col: (k - 1) as usize,
            expiration_frame: spec_next_frame(s.local_frame_sent),
            ..c
        },
    );
    let s3 = s2.with_row(r, fb.width);
    assert(s3.overlays.len() == 1);
    assert(s3.row_index(r) == 0);
    let fresh = s3.overlays[0].overlay_cells;
    assert(fresh[k as int] == spec_fresh_cell(k));
    assert(fresh[k - 1] == spec_fresh_cell((k - 1) as usize));
}

/// A character typed into the blank rest of a row is settled by one
/// culling once the server has echoed it: where the engine held no
/// prediction, the character was predicted at the cursor, and the server's
/// screen shows it there with the cursor behind it, culling leaves no
/// prediction and does not raise the glitch count.
pub proof fn lemma_typed_character_settles(
    s: EngineView,
    ch: char,
    fb: &Framebuffer,
    server: &Framebuffer,
    late: u64,
    now: u64,
    later: u64,
)
    requires
        s.mode != PredictionMode::Never,
        s.overlays.len() == 0,
        s.cursors.len() == 0,
        fb.width == s.last_width,
        fb.height == s.last_height,
        fb.cursor_row < fb.height,
        fb.cursor_col + 1 < fb.width,
        forall|c: int|
            fb.cursor_col <= c < fb.width ==> spec_cell_is_blank(
                #[trigger] fb.cell(fb.cursor_row as int, c),
            ),
        server.width == fb.width,
        server.height == fb.height,
        server.cell(fb.cursor_row as int, fb.cursor_col as int).character == ch,
        server.cursor_row == fb.cursor_row,
        server.cursor_col == fb.cursor_col + 1,
        late >= spec_next_frame(s.local_frame_sent),
    ensures
        ({
            let typed = s.predict_printable(ch, fb, now);
            let due = EngineView { local_frame_late_acked: late, ..typed };
            &&& typed.active()
            &&& !due.culled(server, later).active()
            &&& due.culled(server, later).glitch_trigger <= s.glitch_trigger
        }),
{
    reveal(EngineView::predict_printable);
    reveal_with_fuel(spec_find_row, 2);
    let typed = s.predict_printable(ch, fb, now);
    let due = EngineView { local_frame_late_acked: late, ..typed };
    let r = fb.cursor_row;
    let k = fb.cursor_col;
    let s1 = s.init_cursor(fb);
    let c = s1.cursors.last();
    assert(c.row == r && c.col == k);
    let s2 = s1.with_row(r, fb.width);
    assert(s2.overlays.len() == 1);
    assert(s2.row_index(r) == 0);
    let fresh = s2.overlays[0].overlay_cells;
    let cells = spec_typed_cells(
        fresh,
        ch,
        fb,
        r,
        k,
        s1.prediction_epoch,
        spec_next_frame(s.local_frame_sent),
        now,
        s.predict_overwrite,
    );
    assert(typed.overlays.len() == 1);
    assert(typed.overlays[0].overlay_cells == cells);
    assert(typed.overlays[0].row_num == r);
    assert(typed.cursors.len() == 1);
    assert(spec_rows_fit(due)) by {
        assert forall|a: int| 0 <= a < due.overlays.len() implies (
        #[trigger] due.overlays[a]).overlay_cells.len() == due.last_width by {}
    }
    assert forall|a: int, b: int| 0 <= a < due.overlays.len() && 0 <= b < due.last_width implies {
        let pc = #[trigger] due.overlays[a].overlay_cells[b];
        spec_validity(due.local_frame_late_acked, server, due.overlays[a].row_num, pc)
            != Validity::IncorrectOrExpired && spec_validity(
            due.local_frame_late_acked,
            server,
            due.overlays[a].row_num,
            pc,
        ) != Validity::Pending
    } by {
        let pc = due.overlays[a].overlay_cells[b];
        assert(pc == cells[b]);
        assert(fresh[b] == spec_fresh_cell(b as usize));
        if b > k && b < fb.width - 1 && !s.predict_overwrite {
            assert(fresh[b - 1] == spec_fresh_cell((b - 1) as usize));
            assert(spec_cell_is_blank(fb.cell(r as int, b - 1)));
        }
    }
    assert(spec_settles(due, server, 0, 0));
    lemma_cull_settles(due, server, later);
}

/// Culling leaves only what still waits: every predicted cell and every
/// predicted cursor that is left after it belongs to a frame that the
/// server has not echoed yet.
pub proof fn lemma_cull_leaves_waiting(
    before: EngineView,
    after: EngineView,
    fb: &Framebuffer,
    now: u64,
)
    requires
        spec_culled(before, after, fb, now),
        before.mode != PredictionMode::Never,
    ensures
        after.local_frame_late_acked == before.local_frame_late_acked,
        forall|i: int, j: int|
            0 <= i < after.overlays.len() && 0 <= j < after.overlays[i].overlay_cells.len() && (
            #[trigger] after.overlays[i].overlay_cells[j]).active
                ==> after.local_frame_late_acked
                < after.overlays[i].overlay_cells[j].expiration_frame,
        forall|k: int|
            0 <= k < after.cursors.len() ==> after.local_frame_late_acked < (
            #[trigger] after.cursors[k]).expiration_frame,
{
    assert forall|k: int| 0 <= k < after.cursors.len() implies after.local_frame_late_acked < (
    #[trigger] after.cursors[k]).expiration_frame by {
        assert(spec_cursor_validity(after.local_frame_late_acked, fb, after.cursors[k])
            == Validity::Pending);
    }
}

/// Culling counts at most one quick confirmation: the glitch count
/// after it is at most one below the count before.
pub proof fn lemma_cull_credits_once(
    before: EngineView,
    after: EngineView,
    fb: &Framebuffer,
    now: u64,
)
    requires
        spec_culled(before, after, fb, now),
    ensures
        after.glitch_trigger + 1 >= before.glitch_trigger,
{
}

/// Culling with quick predictions does not raise the glitch count: where
/// no prediction in the overlay is 250 ms old, the count after culling is
/// at most the count before.
pub proof fn lemma_cull_keeps_glitch_count(
    before: EngineView,
    after: EngineView,
    fb: &Framebuffer,
    now: u64,
)
    requires
        spec_culled(before, after, fb, now),
        spec_all_quick(before.overlays, now),
    ensures
        after.glitch_trigger <= before.glitch_trigger,
{
}

/// The cell that a prediction makes of a cell of the screen.
fn overlaid(pc: &PredictedCell, shown: Cell, confirmed: u64, flagging: bool, width: usize) -> (out:
    Cell)
    requires
        pc.col < width,
    ensures
        out == spec_overlaid(pc@, shown, confirmed, flagging, width),
{
    if !pc.active || pc.tentative(confirmed) {
        return shown;
    }
    if pc.unknown {
        if flagging && pc.col != width - 1 {
            let mut out = shown;
            out.attrs.underline = true;
            out.dirty = true;
            return out;
        }
        return shown;
    }
    let mut underline = flagging;
    if cell_is_blank(&pc.replacement) && cell_is_blank(&shown) {
        underline = false;
    }
    if shown != pc.replacement {
        let mut out = pc.replacement;
        if underline {
            out.attrs.underline = true;
        }
        out.dirty = true;
        out
    } else {
        shown
    }
}

impl PredictionEngine {
    /// Shows the predictions on a copy of the authoritative framebuffer and
    /// gives the predicted position of the cursor, if one is shown. Nothing
    /// is shown where predictions are not displayed. Only cells change; a
    /// row of the overlay outside the framebuffer is passed over.
    pub fn apply_overlays(&self, fb: &mut Framebuffer) -> (cursor: Option<(usize, usize)>)
        requires
            self@.wf(),
            old(fb).grid_ok(),
        ensures
            final(fb).grid_ok(),
            old(fb).wf() ==> final(fb).wf(),
            final(fb).width == old(fb).width,
            final(fb).height == old(fb).height,
            final(fb).cursor_row == old(fb).cursor_row,
            final(fb).cursor_col == old(fb).cursor_col,
            final(fb).cursor_visible == old(fb).cursor_visible,
            final(fb).cursor_style == old(fb).cursor_style,
            final(fb).title@ == old(fb).title@,
            final(fb).same_modes(old(fb)),
            final(fb).spec_alternate() == old(fb).spec_alternate(),
            cursor == if self@.should_display() {
                spec_shown_cursor(
                    self@.cursors,
                    self@.confirmed_epoch,
                    old(fb).width,
                    old(fb).height,
                    self@.cursors.len(),
                )
            } else {
                None
            },
            forall|r: int, c: int|
                0 <= r < old(fb).height && 0 <= c < old(fb).width ==> #[trigger] final(fb).cell(
                    r,
                    c,
                ) == if self@.should_display() {
                    spec_overlay_cell(self@, old(fb), r, c, self@.overlays.len())
                } else {
                    old(fb).cell(r, c)
                },
    {
        if !self.should_display_predictions() {
            return None;
        }
        let width = fb.width;
        let height = fb.height;
        let mut predicted_cursor: Option<(usize, usize)> = None;
        let mut k: usize = 0;
        while k < self.cursors.len()
            invariant
                k <= self.cursors@.len(),
                predicted_cursor == spec_shown_cursor(
                    self@.cursors,
                    self@.confirmed_epoch,
                    width,
                    height,
                    k as nat,
                ),
            decreases self.cursors@.len() - k,
        {
            let c = self.cursors[k];
            if c.active && !c.tentative(self.confirmed_epoch) && c.row < height && c.col < width {
                predicted_cursor = Some((c.row, c.col));
            }
            k = k + 1;
        }
        let rows = self.overlays.len();
        let mut i: usize = 0;
        proof {
            assert forall|r: int, c: int| 0 <= r < height && 0 <= c < width implies fb.cell(r, c)
                == spec_overlay_cell(self@, old(fb), r, c, 0) by {}
        }
        while i < rows
            invariant
                rows == self@.overlays.len(),
                i <= rows,
                self@.wf(),
                width == old(fb).width,
                height == old(fb).height,
                old(fb).grid_ok(),
                fb.grid_ok(),
                old(fb).wf() ==> fb.wf(),
                fb.width == old(fb).width,
                fb.height == old(fb).height,
                fb.cursor_row == old(fb).cursor_row,
                fb.cursor_col == old(fb).cursor_col,
                fb.cursor_visible == old(fb).cursor_visible,
                fb.cursor_style == old(fb).cursor_style,
                fb.title@ == old(fb).title@,
                fb.same_modes(old(fb)),
                fb.spec_alternate() == old(fb).spec_alternate(),
                forall|r: int, c: int|
                    0 <= r < height && 0 <= c < width ==> #[trigger] fb.cell(r, c)
                        == spec_overlay_cell(self@, old(fb), r, c, i as nat),
            decreases rows - i,
        {
            let row_num = self.overlays[i].row_num;
            let ghost row_view = self@.overlays[i as int];
            assert(row_view.row_num == row_num);
            proof {
                lemma_find_row_is(self@.overlays, row_num, i as nat);
            }
            if row_num < height {
                let cells = self.overlays[i].overlay_cells.len();
                let ghost start = *fb;
                let mut j: usize = 0;
                while j < cells && j < width
                    invariant
                        rows == self@.overlays.len(),
                        i < rows,
                        self@.wf(),
                        row_view == self@.overlays[i as int],
                        row_num == row_view.row_num,
                        row_num < height,
                        cells == row_view.overlay_cells.len(),
                        j <= cells,
                        j <= width,
                        width == old(fb).width,
                        height == old(fb).height,
                        old(fb).grid_ok(),
                        fb.grid_ok(),
                        old(fb).wf() ==> fb.wf(),
                        fb.width == old(fb).width,
                        fb.height == old(fb).height,
                        fb.cursor_row == old(fb).cursor_row,
                        fb.cursor_col == old(fb).cursor_col,
                        fb.cursor_visible == old(fb).cursor_visible,
                        fb.cursor_style == old(fb).cursor_style,
                        fb.title@ == old(fb).title@,
                        fb.same_modes(old(fb)),
                        fb.spec_alternate() == old(fb).spec_alternate(),
                        spec_find_row(self@.overlays, row_num, i as nat).is_none(),
                        forall|r: int, c: int|
                            0 <= r < height && 0 <= c < width && r != row_num ==> #[trigger] fb.cell(
                                r,
                                c,
                            ) == spec_overlay_cell(self@, old(fb), r, c, i as nat),
                        forall|c: int|
                            0 <= c < j ==> #[trigger] fb.cell(row_num as int, c) == spec_overlaid(
                                row_view.overlay_cells[c],
                                old(fb).cell(row_num as int, c),
                                self@.confirmed_epoch,
                                self@.flagging,
                                width,
                            ),
                        forall|c: int|
                            j <= c < width ==> #[trigger] fb.cell(row_num as int, c) == old(fb).cell(row_num as int, c),
                    decreases width - j,
                {
                    assert(row_view.overlay_cells[j as int]
                        == self.overlays@[i as int].overlay_cells@[j as int]@);
                    assert(row_view.overlay_cells[j as int].col == j);
                    let shown = fb.cells[row_num][j];
                    let next = overlaid(
                        &self.overlays[i].overlay_cells[j],
                        shown,
                        self.confirmed_epoch,
                        self.flagging,
                        width,
                    );
                    let ghost prior = *fb;
                    assert(shown == prior.cell(row_num as int, j as int));
                    fb.put_cell(row_num, j, next);
                    proof {
                        assert forall|c: int| 0 <= c < j + 1 implies #[trigger] fb.cell(
                            row_num as int,
                            c,
                        ) == spec_overlaid(
                            row_view.overlay_cells[c],
                            old(fb).cell(row_num as int, c),
                            self@.confirmed_epoch,
                            self@.flagging,
                            width,
                        ) by {
                            if c < j {
                                assert(fb.cell(row_num as int, c) == prior.cell(row_num as int, c));
                            } else {
                                assert(fb.cell(row_num as int, c) == next);
                                assert(prior.cell(row_num as int, c) == old(fb).cell(
                                    row_num as int,
                                    c,
                                ));
                            }
                        }
                    }
                    j = j + 1;
                }
            }
            proof {
                assert forall|r: int, c: int| 0 <= r < height && 0 <= c < width implies #[trigger] fb.cell(
                    r,
                    c,
                ) == spec_overlay_cell(self@, old(fb), r, c, (i + 1) as nat) by {
                    lemma_find_row_is(self@.overlays, r as usize, i as nat);
                    if r == row_num {
                        assert(spec_find_row(self@.overlays, r as usize, (i + 1) as nat) == Some(
                            i as int,
                        ));
                    } else {
                        assert(spec_find_row(self@.overlays, r as usize, (i + 1) as nat)
                            == spec_find_row(self@.overlays, r as usize, i as nat));
                    }
                }
            }
            i = i + 1;
        }
        predicted_cursor
    }
}

} // verus!
