use mosh_client::terminal::{
    flatten_params, Attributes, Cell, Color, CursorStyle, Framebuffer, TerminalEvent, VtPerformer,
};

struct Recorder {
    events: Vec<TerminalEvent>,
}

impl vte::Perform for Recorder {
    fn print(&mut self, c: char) {
        self.events.push(TerminalEvent::Print(c));
    }

    fn execute(&mut self, byte: u8) {
        self.events.push(TerminalEvent::Execute(byte));
    }

    fn osc_dispatch(&mut self, params: &[&[u8]], _bell_terminated: bool) {
        self.events.push(TerminalEvent::Osc {
            strings: params.iter().map(|p| p.to_vec()).collect(),
        });
    }

    fn csi_dispatch(
        &mut self,
        params: &vte::Params,
        intermediates: &[u8],
        _ignore: bool,
        action: char,
    ) {
        let nested: Vec<Vec<u16>> = params.iter().map(|sub| sub.to_vec()).collect();
        self.events.push(TerminalEvent::Csi {
            params: flatten_params(&nested),
            intermediates: intermediates.to_vec(),
            action,
        });
    }

    fn esc_dispatch(&mut self, intermediates: &[u8], _ignore: bool, byte: u8) {
        self.events.push(TerminalEvent::Esc { intermediates: intermediates.to_vec(), byte });
    }
}

fn feed(fb: &mut Framebuffer, data: &[u8]) {
    let mut parser = vte::Parser::new();
    let mut recorder = Recorder { events: Vec::new() };
    for &byte in data {
        parser.advance(&mut recorder, byte);
    }
    fb.apply_events(&recorder.events);
}

fn row_text(fb: &Framebuffer, row: usize) -> String {
    fb.cells[row].iter().map(|c| c.character).collect::<String>().trim_end().to_string()
}

#[test]
fn new_framebuffer_is_blank() {
    let fb = Framebuffer::new(10, 4);
    assert_eq!((fb.width, fb.height), (10, 4));
    assert_eq!(fb.cells.len(), 4);
    assert!(fb.cells.iter().all(|r| r.len() == 10 && r.iter().all(|c| *c == Cell::default())));
    assert_eq!(Cell::default().character, ' ');
    assert!(Cell::default().dirty);
    assert_eq!(Cell::default().fg, Color::Default);
    assert_eq!(Color::default(), Color::Default);
    assert_eq!(CursorStyle::default(), CursorStyle::Block);
    assert!(!Attributes::default().bold);
    assert_eq!((fb.cursor_row, fb.cursor_col), (0, 0));
    assert!(fb.cursor_visible);
    assert_eq!(fb.scroll_region(), (0, 3));
    assert_eq!(
        fb.tab_stops,
        vec![true, false, false, false, false, false, false, false, true, false]
    );
    assert_eq!(fb.title, "");
}

#[test]
fn text_is_written_at_the_cursor() {
    let mut fb = Framebuffer::new(10, 3);
    feed(&mut fb, b"hello");
    assert_eq!(row_text(&fb, 0), "hello");
    assert_eq!((fb.cursor_row, fb.cursor_col), (0, 5));
    feed(&mut fb, b"\r\nworld");
    assert_eq!(row_text(&fb, 1), "world");
    assert_eq!((fb.cursor_row, fb.cursor_col), (1, 5));
}

#[test]
fn text_wraps_at_the_right_margin() {
    let mut fb = Framebuffer::new(4, 3);
    feed(&mut fb, b"abcd");
    assert_eq!((fb.cursor_row, fb.cursor_col), (0, 3));
    assert!(fb.wrap_pending);
    feed(&mut fb, b"e");
    assert_eq!(row_text(&fb, 0), "abcd");
    assert_eq!(row_text(&fb, 1), "e");
    assert_eq!((fb.cursor_row, fb.cursor_col), (1, 1));
    // Without wrapping the last column is overwritten.
    let mut fb = Framebuffer::new(4, 3);
    feed(&mut fb, b"\x1b[?7labcdef");
    assert_eq!(row_text(&fb, 0), "abcf");
    assert_eq!(fb.cursor_row, 0);
}

#[test]
fn line_feed_scrolls_at_the_bottom() {
    let mut fb = Framebuffer::new(3, 2);
    feed(&mut fb, b"a\r\nb\r\nc");
    assert_eq!(row_text(&fb, 0), "b");
    assert_eq!(row_text(&fb, 1), "c");
    assert_eq!(fb.cursor_row, 1);
    // Reverse index at the top scrolls down.
    feed(&mut fb, b"\x1b[H\x1bM");
    assert_eq!(row_text(&fb, 0), "");
    assert_eq!(row_text(&fb, 1), "b");
}

#[test]
fn cursor_movement() {
    let mut fb = Framebuffer::new(10, 5);
    feed(&mut fb, b"\x1b[3;4H");
    assert_eq!((fb.cursor_row, fb.cursor_col), (2, 3));
    feed(&mut fb, b"\x1b[A");
    assert_eq!((fb.cursor_row, fb.cursor_col), (1, 3));
    feed(&mut fb, b"\x1b[2B");
    assert_eq!(fb.cursor_row, 3);
    feed(&mut fb, b"\x1b[3C");
    assert_eq!(fb.cursor_col, 6);
    feed(&mut fb, b"\x1b[10D");
    assert_eq!(fb.cursor_col, 0);
    feed(&mut fb, b"\x1b[99;99H");
    assert_eq!((fb.cursor_row, fb.cursor_col), (4, 9));
    feed(&mut fb, b"\x1b[2G");
    assert_eq!(fb.cursor_col, 1);
    feed(&mut fb, b"\x1b[2d");
    assert_eq!(fb.cursor_row, 1);
    feed(&mut fb, b"\x1b[E");
    assert_eq!((fb.cursor_row, fb.cursor_col), (2, 0));
    feed(&mut fb, b"\x1b[5C\x1b[2F");
    assert_eq!((fb.cursor_row, fb.cursor_col), (0, 0));
    feed(&mut fb, b"abc\x08");
    assert_eq!(fb.cursor_col, 2);
    feed(&mut fb, b"\x1b[4;5f\x1b7\x1b[H\x1b8");
    assert_eq!((fb.cursor_row, fb.cursor_col), (3, 4));
    feed(&mut fb, b"\x1b[s\x1b[H\x1b[u");
    assert_eq!((fb.cursor_row, fb.cursor_col), (3, 4));
}

#[test]
fn tabs() {
    let mut fb = Framebuffer::new(20, 2);
    feed(&mut fb, b"\t");
    assert_eq!(fb.cursor_col, 8);
    feed(&mut fb, b"\t");
    assert_eq!(fb.cursor_col, 16);
    feed(&mut fb, b"\t");
    assert_eq!(fb.cursor_col, 19);
    feed(&mut fb, b"\x1b[Z");
    assert_eq!(fb.cursor_col, 16);
    feed(&mut fb, b"\x1b[2Z");
    assert_eq!(fb.cursor_col, 0);
    feed(&mut fb, b"\x1b[2I");
    assert_eq!(fb.cursor_col, 16);
    // Clear the stop under the cursor, then all.
    feed(&mut fb, b"\x1b[g\x1b[1G\x1b[2I");
    assert_eq!(fb.cursor_col, 19);
    feed(&mut fb, b"\x1b[3g");
    assert!(fb.tab_stops.iter().all(|t| !t));
    assert_eq!(fb.next_tab_stop(1), None);
    assert_eq!(fb.next_tab_stop(-1), Some(0));
}

#[test]
fn erasing() {
    let mut fb = Framebuffer::new(5, 3);
    feed(&mut fb, b"aaaaa\r\nbbbbb\r\nccccc");
    feed(&mut fb, b"\x1b[2;3H\x1b[K");
    assert_eq!(row_text(&fb, 1), "bb");
    feed(&mut fb, b"\x1b[1K");
    assert_eq!(row_text(&fb, 1), "");
    feed(&mut fb, b"\x1b[1;2H\x1b[1J");
    assert_eq!(fb.cells[0].iter().map(|c| c.character).collect::<String>(), "  aaa");
    feed(&mut fb, b"\x1b[3;4H\x1b[J");
    assert_eq!(row_text(&fb, 2), "ccc");
    feed(&mut fb, b"\x1b[3;1H\x1b[2X");
    assert_eq!(fb.cells[2].iter().map(|c| c.character).collect::<String>(), "  c  ");
    feed(&mut fb, b"\x1b[2K");
    assert_eq!(row_text(&fb, 2), "");
    feed(&mut fb, b"\x1b[44m\x1b[2J");
    assert!(fb.cells.iter().all(|r| r.iter().all(|c| c.character == ' '
        && c.bg == Color::Indexed(4)
        && c.dirty)));
}

#[test]
fn inserting_and_deleting() {
    let mut fb = Framebuffer::new(6, 4);
    feed(&mut fb, b"abcdef\x1b[1;2H\x1b[2@");
    assert_eq!(fb.cells[0].iter().map(|c| c.character).collect::<String>(), "a  bcd");
    feed(&mut fb, b"\x1b[3P");
    assert_eq!(fb.cells[0].iter().map(|c| c.character).collect::<String>(), "acd   ");
    feed(&mut fb, b"\x1b[4hX\x1b[4l");
    assert_eq!(fb.cells[0].iter().map(|c| c.character).collect::<String>(), "aXcd  ");
    feed(&mut fb, b"\x1b[2;1H1\r\n2\r\n3\x1b[2;1H\x1b[L");
    assert_eq!(
        (0..4).map(|r| row_text(&fb, r)).collect::<Vec<_>>(),
        vec!["aXcd", "", "1", "2"]
    );
    feed(&mut fb, b"\x1b[2M");
    assert_eq!(
        (0..4).map(|r| row_text(&fb, r)).collect::<Vec<_>>(),
        vec!["aXcd", "2", "", ""]
    );
}

#[test]
fn scroll_region() {
    let mut fb = Framebuffer::new(3, 5);
    feed(&mut fb, b"0\r\n1\r\n2\r\n3\r\n4");
    feed(&mut fb, b"\x1b[2;4r");
    assert_eq!(fb.scroll_region(), (1, 3));
    assert_eq!((fb.cursor_row, fb.cursor_col), (0, 0));
    feed(&mut fb, b"\x1b[S");
    assert_eq!(
        (0..5).map(|r| row_text(&fb, r)).collect::<Vec<_>>(),
        vec!["0", "2", "3", "", "4"]
    );
    feed(&mut fb, b"\x1b[2T");
    assert_eq!(
        (0..5).map(|r| row_text(&fb, r)).collect::<Vec<_>>(),
        vec!["0", "", "", "2", "4"]
    );
    // Origin mode counts rows from the region.
    feed(&mut fb, b"\x1b[?6h\x1b[1;1H");
    assert_eq!(fb.cursor_row, 1);
    feed(&mut fb, b"\x1b[9;1H");
    assert_eq!(fb.cursor_row, 3);
    feed(&mut fb, b"\x1b[?6l\x1b[5;1H");
    assert_eq!(fb.cursor_row, 4);
    // A region that is no region is refused.
    feed(&mut fb, b"\x1b[4;2r");
    assert_eq!(fb.scroll_region(), (1, 3));
}

#[test]
fn rendition() {
    let mut fb = Framebuffer::new(10, 2);
    feed(&mut fb, b"\x1b[1;3;4;5;7;8;9;31;42mA");
    let a = fb.cells[0][0];
    assert!(a.attrs.bold && a.attrs.italic && a.attrs.underline && a.attrs.blink);
    assert!(a.attrs.inverse && a.attrs.invisible && a.attrs.strikethrough);
    assert_eq!((a.fg, a.bg), (Color::Indexed(1), Color::Indexed(2)));
    feed(&mut fb, b"\x1b[22;23;24;25;27;28;29;39;49mB");
    assert_eq!(fb.cells[0][1], Cell { character: 'B', ..Cell::default() });
    feed(&mut fb, b"\x1b[38;5;200;48;2;1;2;3mC");
    assert_eq!(fb.cells[0][2].fg, Color::Indexed(200));
    assert_eq!(fb.cells[0][2].bg, Color::Rgb(1, 2, 3));
    feed(&mut fb, b"\x1b[95;107mD");
    assert_eq!(fb.cells[0][3].fg, Color::Indexed(13));
    assert_eq!(fb.cells[0][3].bg, Color::Indexed(15));
    feed(&mut fb, b"\x1b[1m\x1b[mE");
    assert_eq!(fb.cells[0][4], Cell { character: 'E', ..Cell::default() });
    feed(&mut fb, b"\x1b[1m\x1b[21mF");
    assert!(!fb.cells[0][5].attrs.bold);
    // A colour without its parameters is passed over.
    let mut direct = Framebuffer::new(2, 1);
    direct.apply_sgr(&[38, 5]);
    direct.apply_sgr(&[48, 2, 1, 2]);
    direct.apply_sgr(&[38]);
    assert_eq!(direct.current_fg, Color::Default);
    assert_eq!(direct.current_bg, Color::Default);
    direct.apply_sgr(&[38, 5, 300, 1]);
    assert_eq!(direct.current_fg, Color::Indexed(44));
    assert!(direct.current_attrs.bold);
}

#[test]
fn modes_and_alternate_screen() {
    let mut fb = Framebuffer::new(4, 2);
    feed(&mut fb, b"main\x1b[?25l");
    assert!(!fb.cursor_visible);
    feed(&mut fb, b"\x1b[?25h\x1b[?1049h");
    assert!(fb.cursor_visible);
    assert_eq!(row_text(&fb, 0), "");
    assert_eq!((fb.cursor_row, fb.cursor_col), (0, 0));
    feed(&mut fb, b"alt");
    // A resize while the alternate screen is shown resizes the saved one.
    fb.resize(6, 3);
    feed(&mut fb, b"\x1b[?1049l");
    assert_eq!(row_text(&fb, 0), "main");
    assert_eq!(fb.cells.len(), 3);
    assert!(fb.cells.iter().all(|r| r.len() == 6));
    assert!(fb.alternate_screen.is_none());
    feed(&mut fb, b"\x1b[?3h");
    assert_eq!(row_text(&fb, 0), "");
}

#[test]
fn title_and_reset() {
    let mut fb = Framebuffer::new(4, 2);
    feed(&mut fb, b"\x1b]0;hello\x07");
    assert_eq!(fb.title, "hello");
    feed(&mut fb, b"\x1b]2;w\xc3\xb6rld\x07");
    assert_eq!(fb.title, "wörld");
    feed(&mut fb, b"\x1b]1;icon\x07");
    assert_eq!(fb.title, "wörld");
    fb.osc_dispatch(&vec![b"0".to_vec(), vec![0xFF, 0xFE]], true);
    assert_eq!(fb.title, "wörld");
    feed(&mut fb, b"x\x1b[1m\x1bc");
    assert_eq!(fb.title, "");
    assert_eq!(row_text(&fb, 0), "");
    assert!(!fb.current_attrs.bold);
    assert_eq!((fb.width, fb.height), (4, 2));
}

#[test]
fn resize_keeps_what_fits() {
    let mut fb = Framebuffer::new(4, 3);
    feed(&mut fb, b"abcd\r\nefgh\r\nijkl");
    fb.clear_dirty();
    assert!(fb.cells.iter().all(|r| r.iter().all(|c| !c.dirty)));
    fb.resize(2, 4);
    assert_eq!((fb.width, fb.height), (2, 4));
    assert_eq!(row_text(&fb, 0), "ab");
    assert_eq!(row_text(&fb, 2), "ij");
    assert_eq!(row_text(&fb, 3), "");
    assert!(fb.cells.iter().all(|r| r.len() == 2 && r.iter().all(|c| c.dirty)));
    assert_eq!((fb.cursor_row, fb.cursor_col), (2, 1));
    assert_eq!(fb.scroll_region(), (0, 3));
    fb.resize(0, 0);
    assert_eq!((fb.cursor_row, fb.cursor_col), (0, 0));
    feed(&mut fb, b"x\r\n\x1b[2J\x1b[K\x1b[1K\x1b[H\x1b[L\x1b[M\x1b[P\x1b[@\x1b[S\x1b[T\x1b8\t");
    assert!(fb.cells.is_empty());
    fb.mark_all_dirty();
}

#[test]
fn performer_acts_on_its_framebuffer() {
    let mut fb = Framebuffer::new(5, 2);
    {
        let mut performer = VtPerformer { fb: &mut fb };
        performer.print('a');
        performer.execute(0x0D);
        performer.csi_dispatch(&vec![vec![2], vec![3]], &[], false, 'H');
        performer.print('b');
        performer.esc_dispatch(&[], false, b'7');
        performer.osc_dispatch(&vec![b"2".to_vec(), b"t".to_vec()], false);
        performer.hook(&vec![], &[], false, 'q');
        performer.put(0);
        performer.unhook();
    }
    assert_eq!(fb.cells[0][0].character, 'a');
    assert_eq!(fb.cells[1][2].character, 'b');
    assert_eq!(fb.saved_cursor, (1, 3));
    assert_eq!(fb.title, "t");
    assert_eq!(flatten_params(&vec![vec![1, 2], vec![], vec![3]]), vec![1, 2, 3]);
}

#[test]
fn tab_by_moves_to_the_counted_stop() {
    let mut fb = Framebuffer::new(40, 4);
    fb.tab_by(true, 1);
    assert_eq!(fb.cursor_col, 8);
    fb.tab_by(true, 2);
    assert_eq!(fb.cursor_col, 24);
    fb.tab_by(false, 1);
    assert_eq!(fb.cursor_col, 16);
    fb.tab_by(false, 5);
    assert_eq!(fb.cursor_col, 0);
    fb.tab_by(true, 9);
    assert_eq!(fb.cursor_col, 39);
}

#[test]
fn next_tab_stop_counts_stops_from_the_cursor() {
    let mut fb = Framebuffer::new(40, 4);
    fb.cursor_col = 8;
    assert_eq!(fb.next_tab_stop(1), Some(16));
    assert_eq!(fb.next_tab_stop(3), Some(32));
    assert_eq!(fb.next_tab_stop(4), None);
    assert_eq!(fb.next_tab_stop(0), None);
    fb.cursor_col = 20;
    assert_eq!(fb.next_tab_stop(-1), Some(16));
    assert_eq!(fb.next_tab_stop(-2), Some(8));
    assert_eq!(fb.next_tab_stop(-3), Some(0));
}

#[test]
fn tab_keeps_a_pending_wrap() {
    let mut fb = Framebuffer::new(10, 2);
    fb.cursor_col = 9;
    fb.wrap_pending = true;
    fb.tab_by(true, 1);
    assert_eq!(fb.cursor_col, 9);
    assert!(fb.wrap_pending);
}

#[test]
fn autoscroll_at_the_end_of_the_region_scrolls() {
    let mut fb = Framebuffer::new(4, 3);
    fb.print('a');
    fb.cursor_row = 2;
    fb.cursor_col = 0;
    fb.print('c');
    fb.move_rows_autoscroll(1);
    assert_eq!(fb.cursor_row, 2);
    assert_eq!(fb.cells[1][0].character, 'c');
    assert_eq!(fb.cells[2][0].character, ' ');
    assert_eq!(fb.cells[0][0].character, ' ');
    fb.cursor_row = 0;
    fb.move_rows_autoscroll(-1);
    assert_eq!(fb.cursor_row, 0);
    assert_eq!(fb.cells[2][0].character, 'c');
    assert_eq!(fb.cells[0][0].character, ' ');
}

#[test]
fn wrap_is_taken_by_the_next_character() {
    let mut fb = Framebuffer::new(3, 2);
    fb.print('a');
    fb.print('b');
    fb.print('c');
    assert!(fb.wrap_pending);
    assert_eq!((fb.cursor_row, fb.cursor_col), (0, 2));
    fb.print('d');
    assert!(!fb.wrap_pending);
    assert_eq!((fb.cursor_row, fb.cursor_col), (1, 1));
    assert_eq!(fb.cells[1][0].character, 'd');
}

#[test]
fn insert_mode_moves_the_row_right() {
    let mut fb = Framebuffer::new(4, 1);
    fb.print('a');
    fb.print('b');
    fb.cursor_col = 0;
    fb.insert_mode = true;
    fb.place_char('x');
    let row: String = fb.cells[0].iter().map(|c| c.character).collect();
    assert_eq!(row, "xab ");
    assert_eq!(fb.cursor_col, 0);
}

#[test]
fn alternate_screen_keeps_the_main_screen() {
    let mut fb = Framebuffer::new(4, 2);
    fb.print('m');
    fb.set_private_mode(1049, true);
    assert_eq!(fb.cells[0][0].character, ' ');
    assert_eq!((fb.cursor_row, fb.cursor_col), (0, 0));
    assert!(fb.alternate_screen.is_some());
    fb.print('a');
    fb.set_private_mode(1049, false);
    assert_eq!(fb.cells[0][0].character, 'm');
    assert!(fb.cells[0][0].dirty);
    assert!(fb.alternate_screen.is_none());
    fb.set_private_mode(1049, false);
    assert_eq!(fb.cells[0][0].character, 'm');
}

#[test]
fn private_modes_set_flags() {
    let mut fb = Framebuffer::new(4, 4);
    fb.set_private_modes(&[25, 7], false);
    assert!(!fb.cursor_visible);
    assert!(!fb.auto_wrap);
    fb.cursor_row = 2;
    fb.cursor_col = 3;
    fb.set_origin_mode(true);
    assert!(fb.origin_mode);
    assert_eq!((fb.cursor_row, fb.cursor_col), (0, 0));
    fb.print('x');
    fb.set_private_mode(3, true);
    assert_eq!(fb.cells[0][0].character, ' ');
    fb.set_private_mode(12, true);
    assert!(fb.origin_mode);
}

#[test]
fn reset_sequence_makes_the_screen_anew() {
    let mut fb = Framebuffer::new(4, 2);
    fb.print('x');
    fb.insert_mode = true;
    fb.esc_dispatch(&[], false, b'c');
    assert_eq!(fb.cells[0][0].character, ' ');
    assert_eq!((fb.cursor_row, fb.cursor_col), (0, 0));
    assert!(!fb.insert_mode);
    assert_eq!((fb.width, fb.height), (4, 2));
}

#[test]
fn esc_with_intermediates_does_nothing() {
    let mut fb = Framebuffer::new(4, 2);
    fb.print('x');
    fb.esc_dispatch(b"(", false, b'c');
    assert_eq!(fb.cells[0][0].character, 'x');
    assert_eq!(fb.cursor_col, 1);
}

#[test]
fn next_line_goes_to_the_start_of_the_next_row() {
    let mut fb = Framebuffer::new(4, 2);
    fb.print('a');
    fb.print('b');
    fb.esc_dispatch(&[], false, b'E');
    assert_eq!((fb.cursor_row, fb.cursor_col), (1, 0));
    fb.esc_dispatch(&[], false, b'E');
    assert_eq!((fb.cursor_row, fb.cursor_col), (1, 0));
    assert_eq!(fb.cells[0][0].character, ' ');
}

#[test]
fn tab_set_puts_a_stop_under_the_cursor() {
    let mut fb = Framebuffer::new(20, 1);
    fb.cursor_col = 3;
    fb.execute(0x88);
    fb.cursor_col = 0;
    fb.execute(0x09);
    assert_eq!(fb.cursor_col, 3);
    fb.execute(0x07);
    assert_eq!(fb.cursor_col, 3);
}
