use mosh_client::input::{
    encode_ctrl_char, handle_key_event, is_command_key, KeyCode, KeyEvent, KeyEventKind,
    MOSH_COMMAND_KEY,
};

fn key(code: KeyCode, control: bool, alt: bool, kind: KeyEventKind) -> KeyEvent {
    KeyEvent { code, control, alt, kind }
}

#[test]
fn test_ignores_key_release_events() {
    let release = key(KeyCode::Char('a'), false, false, KeyEventKind::Release);
    assert!(handle_key_event(&release).is_none());
}

#[test]
fn test_accepts_press_and_repeat() {
    let press = key(KeyCode::Char('a'), false, false, KeyEventKind::Press);
    let repeat = key(KeyCode::Char('a'), false, false, KeyEventKind::Repeat);
    assert!(matches!(handle_key_event(&press), Some(v) if v == b"a"));
    assert!(matches!(handle_key_event(&repeat), Some(v) if v == b"a"));
}

#[test]
fn test_alt_prefixes_escape() {
    let alt_x = key(KeyCode::Char('x'), false, true, KeyEventKind::Press);
    assert!(matches!(handle_key_event(&alt_x), Some(v) if v == b"\x1Bx"));
}

#[test]
fn test_ctrl_c_is_sent_to_remote() {
    let ctrl_c = key(KeyCode::Char('c'), true, false, KeyEventKind::Press);
    assert!(matches!(handle_key_event(&ctrl_c), Some(v) if v == vec![0x03]));
}

#[test]
fn test_ctrl_digit_mappings_match_terminal_conventions() {
    let ctrl_2 = key(KeyCode::Char('2'), true, false, KeyEventKind::Press);
    let ctrl_3 = key(KeyCode::Char('3'), true, false, KeyEventKind::Press);
    assert!(matches!(handle_key_event(&ctrl_2), Some(v) if v == vec![0x00]));
    assert!(matches!(handle_key_event(&ctrl_3), Some(v) if v == vec![0x1B]));
}

#[test]
fn test_command_key_detection() {
    let cmd = key(KeyCode::Char('6'), true, false, KeyEventKind::Press);
    let normal = key(KeyCode::Char('6'), false, false, KeyEventKind::Press);
    assert!(is_command_key(&cmd));
    assert!(!is_command_key(&normal));
}

#[test]
fn control_octets() {
    assert_eq!(encode_ctrl_char(b'a'), Some(1));
    assert_eq!(encode_ctrl_char(b'z'), Some(26));
    assert_eq!(encode_ctrl_char(b'A'), Some(1));
    assert_eq!(encode_ctrl_char(b'Z'), Some(26));
    assert_eq!(encode_ctrl_char(b' '), Some(0));
    assert_eq!(encode_ctrl_char(b'@'), Some(0));
    assert_eq!(encode_ctrl_char(b'['), Some(0x1B));
    assert_eq!(encode_ctrl_char(b'4'), Some(0x1C));
    assert_eq!(encode_ctrl_char(b'\\'), Some(0x1C));
    assert_eq!(encode_ctrl_char(b'5'), Some(0x1D));
    assert_eq!(encode_ctrl_char(b']'), Some(0x1D));
    assert_eq!(encode_ctrl_char(b'6'), Some(MOSH_COMMAND_KEY));
    assert_eq!(encode_ctrl_char(b'^'), Some(0x1E));
    assert_eq!(encode_ctrl_char(b'7'), Some(0x1F));
    assert_eq!(encode_ctrl_char(b'_'), Some(0x1F));
    assert_eq!(encode_ctrl_char(b'8'), Some(0x7F));
    assert_eq!(encode_ctrl_char(b'?'), Some(0x7F));
    assert_eq!(encode_ctrl_char(b'1'), None);
    assert_eq!(encode_ctrl_char(b'-'), None);
}

#[test]
fn keys_send_their_sequences() {
    let press = |code| handle_key_event(&key(code, false, false, KeyEventKind::Press));
    assert_eq!(press(KeyCode::Enter), Some(vec![0x0D]));
    assert_eq!(press(KeyCode::Backspace), Some(vec![0x7F]));
    assert_eq!(press(KeyCode::Tab), Some(vec![0x09]));
    assert_eq!(press(KeyCode::BackTab), Some(b"\x1B[Z".to_vec()));
    assert_eq!(press(KeyCode::Esc), Some(vec![0x1B]));
    assert_eq!(press(KeyCode::Up), Some(b"\x1BOA".to_vec()));
    assert_eq!(press(KeyCode::Down), Some(b"\x1BOB".to_vec()));
    assert_eq!(press(KeyCode::Right), Some(b"\x1BOC".to_vec()));
    assert_eq!(press(KeyCode::Left), Some(b"\x1BOD".to_vec()));
    assert_eq!(press(KeyCode::Home), Some(b"\x1BOH".to_vec()));
    assert_eq!(press(KeyCode::End), Some(b"\x1BOF".to_vec()));
    assert_eq!(press(KeyCode::PageUp), Some(b"\x1B[5~".to_vec()));
    assert_eq!(press(KeyCode::PageDown), Some(b"\x1B[6~".to_vec()));
    assert_eq!(press(KeyCode::Insert), Some(b"\x1B[2~".to_vec()));
    assert_eq!(press(KeyCode::Delete), Some(b"\x1B[3~".to_vec()));
    assert_eq!(press(KeyCode::F(1)), Some(b"\x1BOP".to_vec()));
    assert_eq!(press(KeyCode::F(4)), Some(b"\x1BOS".to_vec()));
    assert_eq!(press(KeyCode::F(5)), Some(b"\x1B[15~".to_vec()));
    assert_eq!(press(KeyCode::F(6)), Some(b"\x1B[17~".to_vec()));
    assert_eq!(press(KeyCode::F(10)), Some(b"\x1B[21~".to_vec()));
    assert_eq!(press(KeyCode::F(11)), Some(b"\x1B[23~".to_vec()));
    assert_eq!(press(KeyCode::F(12)), Some(b"\x1B[24~".to_vec()));
    assert_eq!(press(KeyCode::F(13)), None);
    assert_eq!(press(KeyCode::Other), None);
    assert_eq!(press(KeyCode::Char('é')), Some("é".as_bytes().to_vec()));
}

#[test]
fn modifiers() {
    let ev = |code, control, alt| handle_key_event(&key(code, control, alt, KeyEventKind::Press));
    assert_eq!(ev(KeyCode::Char('c'), true, true), Some(vec![0x1B, 0x03]));
    assert_eq!(ev(KeyCode::Esc, false, true), Some(vec![0x1B]));
    assert_eq!(ev(KeyCode::Up, false, true), Some(b"\x1B\x1BOA".to_vec()));
    // Ctrl with a character that has no control octet sends the character.
    assert_eq!(ev(KeyCode::Char('1'), true, false), Some(b"1".to_vec()));
    assert_eq!(ev(KeyCode::Char('é'), true, false), Some("é".as_bytes().to_vec()));
    assert_eq!(ev(KeyCode::Enter, true, false), Some(vec![0x0D]));
    assert!(is_command_key(&key(KeyCode::Char('^'), true, false, KeyEventKind::Press)));
    assert!(!is_command_key(&key(KeyCode::Char('5'), true, false, KeyEventKind::Press)));
    assert!(!is_command_key(&key(KeyCode::Enter, true, false, KeyEventKind::Press)));
}
