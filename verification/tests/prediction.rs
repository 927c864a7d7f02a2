use mosh_client::prediction::{
    cell_contents_match, cell_is_blank, cell_validity, cursor_validity, PredictedCell,
    PredictedCursor, PredictionEngine, PredictionMode, Validity,
};
use mosh_client::terminal::{Cell, Framebuffer};

fn blank_fb() -> Framebuffer {
    Framebuffer::new(80, 24)
}

#[test]
fn clears_predictions_on_late_ack_frame() {
    let mut p = PredictionEngine::new(PredictionMode::Always, 80, 24);
    p.set_local_frame_sent(0);
    let fb = blank_fb();
    p.new_user_input_batch(b"abc", &fb);
    assert!(p.has_predictions());

    p.set_local_frame_late_acked(1);
    p.cull(&fb);
    assert!(!p.has_predictions());
}

#[test]
fn keeps_predictions_when_late_ack_not_reached() {
    let mut p = PredictionEngine::new(PredictionMode::Always, 80, 24);
    p.set_local_frame_sent(5);
    let fb = blank_fb();
    p.new_user_input_batch(b"a", &fb);
    assert!(p.has_predictions());

    p.set_local_frame_late_acked(5);
    p.cull(&fb);
    assert!(p.has_predictions());
}

#[test]
fn adaptive_mode_uses_srtt_hysteresis() {
    let mut p = PredictionEngine::new(PredictionMode::Adaptive, 80, 24);
    p.set_send_interval(31);
    p.set_local_frame_sent(0);
    let fb = blank_fb();
    p.new_user_input_batch(b"a", &fb);
    assert!(p.has_predictions());

    p.set_local_frame_late_acked(1);
    p.cull(&fb);
    p.set_send_interval(20);
    p.cull(&fb);
    assert!(!p.should_display_predictions());
}

#[test]
fn does_not_cull_on_early_transport_ack_only() {
    let mut p = PredictionEngine::new(PredictionMode::Always, 80, 24);
    let fb = blank_fb();
    p.set_local_frame_sent(10);
    p.new_user_input_batch(b"d", &fb);
    assert!(p.has_predictions());

    p.set_local_frame_acked(11);
    p.cull(&fb);
    assert!(p.has_predictions());
}

#[test]
fn predicts_backspace_by_erasing_previous_cell() {
    let mut p = PredictionEngine::new(PredictionMode::Always, 80, 24);
    let prime_fb = blank_fb();
    p.set_local_frame_sent(0);
    p.new_user_input_batch(b"x", &prime_fb);

    // Confirm epoch 1 so subsequent safe predictions are displayable.
    let mut confirmed_fb = prime_fb.clone();
    confirmed_fb.cells[0][0].character = 'x';
    confirmed_fb.cursor_col = 1;
    p.set_local_frame_late_acked(1);
    p.cull(&confirmed_fb);

    let mut fb = blank_fb();
    fb.cells[0][0].character = 'a';
    fb.cells[0][1].character = 'b';
    fb.cells[0][2].character = 'c';
    fb.cursor_row = 0;
    fb.cursor_col = 3;

    p.set_local_frame_sent(1);
    p.new_user_input_batch(&[0x7f], &fb);

    let mut overlay = fb.clone();
    let predicted_cursor = p.apply_overlays(&mut overlay).unwrap();
    assert_eq!(predicted_cursor, (0, 2));
    assert_eq!(overlay.cells[0][2].character, ' ');
}

fn row_of(p: &PredictionEngine, row_num: usize) -> usize {
    p.overlays.iter().position(|r| r.row_num == row_num).unwrap()
}

#[test]
fn new_engine_starts_in_epoch_one() {
    let p = PredictionEngine::new(PredictionMode::default(), 80, 24);
    assert_eq!(p.mode, PredictionMode::Adaptive);
    assert_eq!(p.prediction_epoch, 1);
    assert_eq!(p.confirmed_epoch, 0);
    assert_eq!(p.send_interval_ms, 250);
    assert!(!p.has_predictions());
    assert!(!p.should_display_predictions());
}

#[test]
fn printable_is_stamped_with_the_next_frame() {
    let mut p = PredictionEngine::new(PredictionMode::Always, 80, 24);
    p.set_local_frame_sent(7);
    let fb = blank_fb();
    p.new_user_input_batch_at(b"q", &fb, 1000);
    let r = row_of(&p, 0);
    let cell = &p.overlays[r].overlay_cells[0];
    assert!(cell.active);
    assert!(!cell.unknown);
    assert_eq!(cell.expiration_frame, 8);
    assert_eq!(cell.prediction_time, 1000);
    assert_eq!(cell.tentative_until_epoch, 1);
    assert_eq!(cell.replacement.character, 'q');
    assert!(cell.replacement.dirty);
    assert_eq!(cell.original_contents, vec![fb.cells[0][0]]);
    // The cells to the right take what their left neighbour shows; the
    // last one is unknown.
    assert!(p.overlays[r].overlay_cells[1].active);
    assert_eq!(p.overlays[r].overlay_cells[1].replacement.character, ' ');
    assert!(p.overlays[r].overlay_cells[79].unknown);
    let c = p.cursor();
    assert_eq!((c.row, c.col, c.expiration_frame), (0, 1, 8));
}

#[test]
fn frame_number_saturates() {
    let mut p = PredictionEngine::new(PredictionMode::Always, 4, 2);
    p.set_local_frame_sent(u64::MAX);
    let fb = Framebuffer::new(4, 2);
    p.new_user_input_batch_at(b"a", &fb, 0);
    assert_eq!(p.cursor().expiration_frame, u64::MAX);
}

#[test]
fn batch_of_more_than_a_hundred_octets_resets() {
    let mut p = PredictionEngine::new(PredictionMode::Always, 80, 24);
    let fb = blank_fb();
    p.new_user_input_batch_at(b"abc", &fb, 0);
    assert!(p.has_predictions());
    let epoch = p.prediction_epoch;
    p.new_user_input_batch_at(&[b'x'; 101], &fb, 1);
    assert!(!p.has_predictions());
    assert!(p.overlays.is_empty());
    assert!(p.cursors.is_empty());
    assert_eq!(p.prediction_epoch, epoch + 1);
    // A hundred octets are still predicted.
    p.new_user_input_batch_at(&[b'x'; 100], &fb, 2);
    assert!(p.has_predictions());
}

#[test]
fn never_mode_predicts_nothing() {
    let mut p = PredictionEngine::new(PredictionMode::Never, 80, 24);
    let fb = blank_fb();
    p.new_user_input_batch_at(b"abc", &fb, 0);
    assert!(!p.has_predictions());
    p.cull_at(&fb, 1);
    let mut shown = fb.clone();
    assert_eq!(p.apply_overlays(&mut shown), None);
    assert_eq!(shown.cells, fb.cells);
}

#[test]
fn correct_prediction_confirms_its_epoch_once() {
    let mut p = PredictionEngine::new(PredictionMode::Always, 80, 24);
    p.set_local_frame_sent(0);
    p.glitch_trigger = 3;
    let fb = blank_fb();
    p.new_user_input_batch_at(b"x", &fb, 100);
    let mut server = fb.clone();
    server.cells[0][0].character = 'x';
    server.cursor_col = 1;
    p.set_local_frame_late_acked(1);
    p.cull_at(&server, 150);
    assert_eq!(p.confirmed_epoch, 1);
    // One quick confirmation is credited, and the count is not raised.
    assert_eq!(p.glitch_trigger, 2);
    assert_eq!(p.last_quick_confirmation, Some(150));
    assert!(!p.has_predictions());
}

#[test]
fn wrong_prediction_of_a_confirmed_epoch_resets() {
    let mut p = PredictionEngine::new(PredictionMode::Always, 80, 24);
    p.confirmed_epoch = 5;
    p.prediction_epoch = 5;
    let fb = blank_fb();
    p.new_user_input_batch_at(b"x", &fb, 0);
    let mut server = fb.clone();
    server.cells[0][0].character = 'y';
    p.set_local_frame_late_acked(1);
    p.cull_at(&server, 10);
    assert!(p.overlays.is_empty());
    assert!(p.cursors.is_empty());
    assert_eq!(p.prediction_epoch, 6);
}

#[test]
fn wrong_tentative_prediction_kills_its_epoch() {
    let mut p = PredictionEngine::new(PredictionMode::Always, 80, 24);
    let fb = blank_fb();
    // Epoch 1 is not confirmed: the prediction is tentative.
    p.new_user_input_batch_at(b"x", &fb, 0);
    let mut server = fb.clone();
    server.cells[0][0].character = 'y';
    server.cursor_col = 1;
    p.set_local_frame_late_acked(1);
    p.cull_at(&server, 10);
    assert_eq!(p.overlays.len(), 1);
    assert!(p.overlays[0].overlay_cells.iter().all(|c| !c.active));
    assert_eq!(p.prediction_epoch, 2);
    assert_eq!(p.confirmed_epoch, 0);
}

#[test]
fn old_pending_prediction_arms_the_glitch_trigger() {
    let mut p = PredictionEngine::new(PredictionMode::Adaptive, 80, 24);
    p.set_send_interval(10);
    let fb = blank_fb();
    p.new_user_input_batch_at(b"x", &fb, 0);
    p.cull_at(&fb, 249);
    assert_eq!(p.glitch_trigger, 0);
    assert!(!p.should_display_predictions());
    p.cull_at(&fb, 250);
    assert_eq!(p.glitch_trigger, 10);
    assert!(p.should_display_predictions());
    p.cull_at(&fb, 5000);
    assert_eq!(p.glitch_trigger, 20);
    p.cull_at(&fb, 5001);
    assert!(p.flagging);
}

#[test]
fn flagging_follows_the_send_interval() {
    let mut p = PredictionEngine::new(PredictionMode::Always, 80, 24);
    let fb = blank_fb();
    p.set_send_interval(81);
    p.cull_at(&fb, 0);
    assert!(p.flagging);
    assert!(p.srtt_trigger);
    p.set_send_interval(51);
    p.cull_at(&fb, 0);
    assert!(p.flagging);
    p.set_send_interval(50);
    p.cull_at(&fb, 0);
    assert!(!p.flagging);
    assert!(p.srtt_trigger);
    p.set_send_interval(20);
    p.cull_at(&fb, 0);
    assert!(!p.srtt_trigger);
}

#[test]
fn framebuffer_of_another_size_resets() {
    let mut p = PredictionEngine::new(PredictionMode::Always, 80, 24);
    let fb = blank_fb();
    p.new_user_input_batch_at(b"x", &fb, 0);
    let other = Framebuffer::new(40, 10);
    p.cull_at(&other, 1);
    assert!(!p.has_predictions());
    assert_eq!((p.last_width, p.last_height), (40, 10));
}

#[test]
fn carriage_return_moves_to_the_next_row_tentatively() {
    let mut p = PredictionEngine::new(PredictionMode::Always, 80, 24);
    let mut fb = blank_fb();
    fb.cursor_row = 3;
    fb.cursor_col = 5;
    p.new_user_input_batch_at(&[0x0D], &fb, 0);
    let c = p.cursor();
    assert_eq!((c.row, c.col), (4, 0));
    assert_eq!(c.tentative_until_epoch, 2);
    assert_eq!(p.prediction_epoch, 2);
    // Tentative predictions are not shown.
    let mut shown = fb.clone();
    assert_eq!(p.apply_overlays(&mut shown), None);
}

#[test]
fn carriage_return_on_the_last_row_blanks_it() {
    let mut p = PredictionEngine::new(PredictionMode::Always, 10, 3);
    let mut fb = Framebuffer::new(10, 3);
    fb.cursor_row = 2;
    fb.cursor_col = 4;
    p.new_user_input_batch_at(&[0x0D], &fb, 9);
    let c = p.cursor();
    assert_eq!((c.row, c.col), (2, 0));
    let r = row_of(&p, 2);
    assert!(p.overlays[r].overlay_cells.iter().all(|c| c.active
        && !c.unknown
        && c.replacement == Cell::default()
        && c.prediction_time == 9));
}

#[test]
fn printable_at_the_right_margin_wraps_tentatively() {
    let mut p = PredictionEngine::new(PredictionMode::Always, 5, 3);
    let mut fb = Framebuffer::new(5, 3);
    fb.cursor_col = 4;
    p.new_user_input_batch_at(b"z", &fb, 0);
    let r = row_of(&p, 0);
    assert_eq!(p.overlays[r].overlay_cells[4].replacement.character, 'z');
    assert_eq!(p.overlays[r].overlay_cells[4].tentative_until_epoch, 1);
    let c = p.cursor();
    assert_eq!((c.row, c.col), (1, 0));
    assert_eq!(p.prediction_epoch, 3);
}

#[test]
fn cursor_keys_move_the_predicted_cursor() {
    let mut p = PredictionEngine::new(PredictionMode::Always, 80, 24);
    let mut fb = blank_fb();
    fb.cursor_col = 10;
    p.new_user_input_batch_at(b"\x1b[C", &fb, 0);
    assert_eq!(p.cursor().col, 11);
    assert_eq!(p.esc_state, 0);
    // Application cursor keys are taken as the same.
    p.new_user_input_batch_at(b"\x1bOD", &fb, 0);
    assert_eq!(p.cursor().col, 10);
    p.new_user_input_batch_at(b"\x1bOD", &fb, 0);
    assert_eq!(p.cursor().col, 9);
    assert_eq!(p.prediction_epoch, 1);
    // Any other sequence begins a new epoch.
    p.new_user_input_batch_at(b"\x1b[A", &fb, 0);
    assert_eq!(p.prediction_epoch, 2);
    p.new_user_input_batch_at(&[0x01], &fb, 0);
    assert_eq!(p.prediction_epoch, 3);
    p.new_user_input_batch_at(b"\x1bx", &fb, 0);
    assert_eq!(p.prediction_epoch, 4);
    assert_eq!(p.esc_state, 0);
}

#[test]
fn cursor_does_not_leave_the_row() {
    let mut p = PredictionEngine::new(PredictionMode::Always, 3, 2);
    let fb = Framebuffer::new(3, 2);
    p.new_user_input_batch_at(b"\x1b[D", &fb, 0);
    assert_eq!(p.cursor().col, 0);
    p.new_user_input_batch_at(b"\x1b[C\x1b[C\x1b[C", &fb, 0);
    assert_eq!(p.cursor().col, 2);
    // Backspace in column zero predicts nothing.
    let mut q = PredictionEngine::new(PredictionMode::Always, 3, 2);
    q.new_user_input_batch_at(&[0x7F], &fb, 0);
    assert!(q.overlays.is_empty());
}

#[test]
fn backspace_moves_the_rest_of_the_row_left() {
    let mut p = PredictionEngine::new(PredictionMode::Always, 6, 2);
    let mut fb = Framebuffer::new(6, 2);
    for (i, ch) in "abcdef".chars().enumerate() {
        fb.cells[0][i].character = ch;
    }
    fb.cursor_col = 2;
    p.new_user_input_batch_at(&[0x7F], &fb, 0);
    let r = row_of(&p, 0);
    let cells = &p.overlays[r].overlay_cells;
    assert!(!cells[0].active);
    assert_eq!(cells[1].replacement.character, 'c');
    assert_eq!(cells[2].replacement.character, 'd');
    assert_eq!(cells[3].replacement.character, 'e');
    assert!(cells[4].unknown);
    assert!(cells[5].unknown);
    assert_eq!(p.cursor().col, 1);
}

#[test]
fn overlay_underlines_when_flagging() {
    let mut p = PredictionEngine::new(PredictionMode::Always, 80, 24);
    p.confirmed_epoch = 1;
    p.flagging = true;
    let fb = blank_fb();
    p.predict_printable('k', &fb, 0);
    let mut shown = fb.clone();
    shown.clear_dirty();
    let cursor = p.apply_overlays(&mut shown);
    assert_eq!(cursor, Some((0, 1)));
    assert_eq!(shown.cells[0][0].character, 'k');
    assert!(shown.cells[0][0].attrs.underline);
    assert!(shown.cells[0][0].dirty);
    // Blank over blank is not underlined, and not touched where equal.
    assert!(!shown.cells[0][1].attrs.underline);
    // An unknown cell in the last column is not marked.
    assert!(!shown.cells[0][79].attrs.underline);
    assert!(!shown.cells[1][0].dirty);
}

#[test]
fn validity_of_cells_and_cursors() {
    let mut fb = Framebuffer::new(4, 2);
    fb.cells[0][1].character = 'a';
    let mut cell = PredictedCell::new(1);
    assert_eq!(cell_validity(0, &fb, 0, &cell), Validity::Inactive);
    cell.active = true;
    cell.expiration_frame = 3;
    cell.replacement.character = 'a';
    assert_eq!(cell_validity(2, &fb, 0, &cell), Validity::Pending);
    assert_eq!(cell_validity(3, &fb, 0, &cell), Validity::Correct);
    assert_eq!(cell_validity(3, &fb, 2, &cell), Validity::IncorrectOrExpired);
    cell.original_contents.push(fb.cells[0][1]);
    assert_eq!(cell_validity(3, &fb, 0, &cell), Validity::CorrectNoCredit);
    cell.original_contents.clear();
    cell.replacement.character = 'b';
    assert_eq!(cell_validity(3, &fb, 0, &cell), Validity::IncorrectOrExpired);
    cell.unknown = true;
    assert_eq!(cell_validity(3, &fb, 0, &cell), Validity::CorrectNoCredit);
    cell.unknown = false;
    cell.replacement.character = ' ';
    assert_eq!(cell_validity(3, &fb, 0, &cell), Validity::CorrectNoCredit);
    assert!(cell.tentative(0) == (cell.tentative_until_epoch > 0));

    let mut cursor = PredictedCursor {
        expiration_frame: 2,
        row: 0,
        col: 0,
        active: true,
        tentative_until_epoch: 1,
    };
    assert_eq!(cursor_validity(1, &fb, &cursor), Validity::Pending);
    assert_eq!(cursor_validity(2, &fb, &cursor), Validity::Correct);
    cursor.col = 3;
    assert_eq!(cursor_validity(2, &fb, &cursor), Validity::IncorrectOrExpired);
    cursor.col = 4;
    assert_eq!(cursor_validity(0, &fb, &cursor), Validity::IncorrectOrExpired);
    cursor.active = false;
    assert_eq!(cursor_validity(0, &fb, &cursor), Validity::Inactive);
    assert!(cursor.tentative(0));
    assert!(!cursor.tentative(1));
}

#[test]
fn blank_cells_match_each_other() {
    let blank = Cell::default();
    let mut a = Cell::default();
    a.character = 'a';
    assert!(cell_is_blank(&blank));
    assert!(!cell_is_blank(&a));
    assert!(cell_contents_match(&blank, &blank));
    assert!(cell_contents_match(&a, &a));
    assert!(!cell_contents_match(&a, &blank));
}

#[test]
fn late_ack_never_goes_back() {
    let mut p = PredictionEngine::new(PredictionMode::Always, 80, 24);
    p.set_local_frame_late_acked(5);
    p.server_ack(3);
    assert_eq!(p.local_frame_late_acked, 5);
    p.server_ack(9);
    assert_eq!(p.local_frame_late_acked, 9);
    p.set_cursor_from_server(1, 1);
    p.resize(10, 5);
    assert_eq!((p.width, p.height, p.last_width, p.last_height), (10, 5, 10, 5));
    assert_eq!(p.local_frame_late_acked, 9);
}

#[test]
fn latest_cursor_can_be_changed_in_place() {
    let fb = Framebuffer::new(10, 4);
    let mut engine = PredictionEngine::new(PredictionMode::Always, 10, 4);
    engine.init_cursor(&fb);
    assert_eq!(engine.cursor().col, 0);
    engine.cursor_mut().col = 3;
    assert_eq!(engine.cursor().col, 3);
    assert_eq!(engine.cursors.len(), 1);
}
