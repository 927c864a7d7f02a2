use mosh_client::input::{KeyCode, KeyEvent, KeyEventKind, MOSH_COMMAND_KEY};
use mosh_client::session::{
    connection_notice, decide_key, decide_paste, session_over, ConnectionNotice, Notice,
    NoticeChange,
};

fn press(code: KeyCode) -> KeyEvent {
    KeyEvent { code, control: false, alt: false, kind: KeyEventKind::Press }
}

fn command_key() -> KeyEvent {
    KeyEvent { code: KeyCode::Char('^'), control: true, alt: false, kind: KeyEventKind::Press }
}

#[test]
fn plain_key_is_sent() {
    let d = decide_key(false, false, &press(KeyCode::Char('a')));
    assert!(!d.command_pending);
    assert_eq!(d.send, Some(vec![b'a']));
    assert_eq!(d.notice, NoticeChange::Keep);
    assert!(!d.shutdown);
}

#[test]
fn released_key_changes_nothing() {
    let mut event = press(KeyCode::Char('a'));
    event.kind = KeyEventKind::Release;
    let d = decide_key(true, false, &event);
    assert!(d.command_pending);
    assert_eq!(d.send, None);
    assert_eq!(d.notice, NoticeChange::Keep);
    assert!(!d.shutdown);
}

#[test]
fn repeated_key_is_sent() {
    let mut event = press(KeyCode::Char('b'));
    event.kind = KeyEventKind::Repeat;
    let d = decide_key(false, false, &event);
    assert_eq!(d.send, Some(vec![b'b']));
}

#[test]
fn keys_are_ignored_during_shutdown() {
    let d = decide_key(false, true, &press(KeyCode::Char('a')));
    assert_eq!(d.send, None);
    assert_eq!(d.notice, NoticeChange::Keep);
    assert!(!d.command_pending);
    let d = decide_key(true, true, &command_key());
    assert!(d.command_pending);
    assert_eq!(d.send, None);
}

#[test]
fn command_key_announces_a_command() {
    let d = decide_key(false, false, &command_key());
    assert!(d.command_pending);
    assert_eq!(d.send, None);
    assert_eq!(d.notice, NoticeChange::Show(Notice::CommandHelp));
    assert!(!d.shutdown);
}

#[test]
fn command_key_twice_sends_itself() {
    let d = decide_key(true, false, &command_key());
    assert!(!d.command_pending);
    assert_eq!(d.send, Some(vec![MOSH_COMMAND_KEY]));
    assert_eq!(d.notice, NoticeChange::Clear);
}

#[test]
fn full_stop_after_command_key_leaves() {
    let d = decide_key(true, false, &press(KeyCode::Char('.')));
    assert!(!d.command_pending);
    assert_eq!(d.send, None);
    assert_eq!(d.notice, NoticeChange::Show(Notice::Exiting));
    assert!(d.shutdown);
}

#[test]
fn control_z_after_command_key_cannot_suspend() {
    let event =
        KeyEvent { code: KeyCode::Char('z'), control: true, alt: false, kind: KeyEventKind::Press };
    let d = decide_key(true, false, &event);
    assert!(!d.command_pending);
    assert_eq!(d.send, None);
    assert_eq!(d.notice, NoticeChange::Show(Notice::SuspendUnsupported));
    assert!(!d.shutdown);
}

#[test]
fn caret_after_command_key_sends_the_command_key_alone() {
    let d = decide_key(true, false, &press(KeyCode::Char('^')));
    assert!(!d.command_pending);
    assert_eq!(d.send, Some(vec![MOSH_COMMAND_KEY]));
    assert_eq!(d.notice, NoticeChange::Keep);
}

#[test]
fn other_key_after_command_key_follows_it() {
    let d = decide_key(true, false, &press(KeyCode::Char('x')));
    assert!(!d.command_pending);
    assert_eq!(d.send, Some(vec![MOSH_COMMAND_KEY, b'x']));
    let d = decide_key(true, false, &press(KeyCode::Up));
    assert_eq!(d.send, Some(vec![MOSH_COMMAND_KEY, 0x1b, b'O', b'A']));
}

#[test]
fn key_without_octets_after_command_key_clears_the_bar() {
    let d = decide_key(true, false, &press(KeyCode::Other));
    assert!(!d.command_pending);
    assert_eq!(d.send, None);
    assert_eq!(d.notice, NoticeChange::Clear);
}

#[test]
fn paste_is_sent_and_cancels_a_command() {
    let d = decide_paste(true, false, b"text".to_vec());
    assert!(!d.command_pending);
    assert_eq!(d.send, Some(b"text".to_vec()));
    assert_eq!(d.notice, NoticeChange::Show(Notice::CommandCanceled));
    let d = decide_paste(false, false, b"text".to_vec());
    assert_eq!(d.send, Some(b"text".to_vec()));
    assert_eq!(d.notice, NoticeChange::Keep);
}

#[test]
fn empty_paste_sends_nothing() {
    let d = decide_paste(false, false, Vec::new());
    assert_eq!(d.send, None);
    assert_eq!(d.notice, NoticeChange::Keep);
}

#[test]
fn paste_is_ignored_during_shutdown() {
    let d = decide_paste(true, true, b"text".to_vec());
    assert!(d.command_pending);
    assert_eq!(d.send, None);
    assert_eq!(d.notice, NoticeChange::Keep);
}

#[test]
fn silence_is_told_after_fifteen_seconds() {
    assert_eq!(connection_notice(15_000, true), ConnectionNotice::Keep);
    assert_eq!(connection_notice(15_001, true), ConnectionNotice::LastContact(15_001));
    assert_eq!(connection_notice(20_000, false), ConnectionNotice::LastContact(20_000));
    assert_eq!(connection_notice(0, false), ConnectionNotice::Connecting);
    assert_eq!(connection_notice(0, true), ConnectionNotice::Keep);
}

#[test]
fn session_ends_on_each_exit_condition() {
    assert!(!session_over(false, false, false, false));
    assert!(!session_over(true, false, false, false));
    assert!(session_over(true, true, false, false));
    assert!(session_over(true, false, true, false));
    assert!(session_over(false, false, false, true));
    assert!(!session_over(false, true, false, false));
}
