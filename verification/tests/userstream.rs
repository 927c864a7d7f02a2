use mosh_client::transport::proto::userinput;
use mosh_client::userstream::{StreamError, UserStream};

#[test]
fn test_diff_empty() {
    let a = UserStream::new();
    let b = UserStream::new();
    assert!(a.diff_from(&b).is_empty());
}

#[test]
fn test_diff_roundtrip() {
    let mut a = UserStream::new();
    a.push_keystroke(b'h');
    a.push_keystroke(b'i');

    let existing = UserStream::new();
    let diff = a.diff_from(&existing);
    assert!(!diff.is_empty());

    let mut b = UserStream::new();
    b.apply_string(&diff).unwrap();
    assert_eq!(a, b);
}

#[test]
fn test_diff_incremental() {
    let mut state = UserStream::new();
    state.push_keystroke(b'a');
    state.push_keystroke(b'b');

    let snapshot = state.clone();
    state.push_keystroke(b'c');

    let diff = state.diff_from(&snapshot);
    let mut reconstructed = snapshot.clone();
    reconstructed.apply_string(&diff).unwrap();
    assert_eq!(state, reconstructed);
}

#[test]
fn test_subtract() {
    let mut state = UserStream::new();
    state.push_keystroke(b'a');
    state.push_keystroke(b'b');
    state.push_keystroke(b'c');

    let mut prefix = UserStream::new();
    prefix.push_keystroke(b'a');
    prefix.push_keystroke(b'b');

    state.subtract(&prefix);
    assert_eq!(state.len(), 1);
}

#[test]
fn test_keystroke_batching() {
    let mut a = UserStream::new();
    a.push_keystroke(b'h');
    a.push_keystroke(b'e');
    a.push_keystroke(b'l');
    a.push_keystroke(b'l');
    a.push_keystroke(b'o');

    let diff = a.init_diff();
    let msg = userinput::UserMessage::decode(diff.as_slice()).unwrap();
    // All keystrokes should be batched into a single instruction
    assert_eq!(msg.instruction.len(), 1);
    assert_eq!(
        msg.instruction[0].keystroke.as_ref().unwrap().keys.as_ref().unwrap(),
        b"hello"
    );
}

#[test]
fn test_resize_breaks_batch() {
    let mut a = UserStream::new();
    a.push_keystroke(b'a');
    a.push_resize(80, 24);
    a.push_keystroke(b'b');

    let diff = a.init_diff();
    let msg = userinput::UserMessage::decode(diff.as_slice()).unwrap();
    // Should be 3 instructions: keystroke, resize, keystroke
    assert_eq!(msg.instruction.len(), 3);
}

#[test]
fn diff_has_the_wire_form_of_the_schema() {
    let mut a = UserStream::new();
    a.push_keystrokes(b"hi");
    a.push_resize(80, 24);
    // instruction{ keystroke{ keys = "hi" } }, instruction{ resize{ 80, 24 } }
    let want: Vec<u8> = vec![
        0x0A, 0x06, 0x12, 0x04, 0x22, 0x02, b'h', b'i', // field 1 > field 2 > field 4
        0x0A, 0x06, 0x1A, 0x04, 0x28, 80, 0x30, 24, // field 1 > field 3 > fields 5, 6
    ];
    assert_eq!(a.init_diff(), want);
}

#[test]
fn negative_sizes_round_trip() {
    let mut a = UserStream::new();
    a.push_resize(-1, i32::MIN);
    a.push_resize(i32::MAX, 0);
    let diff = a.init_diff();
    let mut b = UserStream::new();
    b.apply_string(&diff).unwrap();
    assert_eq!(a, b);
}

#[test]
fn diff_then_apply_gives_the_stream_back() {
    let mut whole = UserStream::new();
    whole.push_keystrokes(b"ab");
    whole.push_resize(10, 20);
    let prefix = whole.clone();
    whole.push_keystrokes(b"cd");
    whole.push_resize(30, 40);
    whole.push_resize(50, 60);
    whole.push_keystroke(b'e');
    assert!(whole.starts_with(&prefix));
    let diff = whole.diff_from(&prefix);
    let mut copy = prefix.clone();
    copy.apply_string(&diff).unwrap();
    assert_eq!(copy, whole);
    assert_eq!(copy.len(), 8);
}

#[test]
fn subtract_shortens_by_the_prefix() {
    let mut state = UserStream::new();
    state.push_keystrokes(b"abc");
    state.push_resize(1, 2);
    let mut prefix = UserStream::new();
    prefix.push_keystrokes(b"abc");
    let mut rest = UserStream::new();
    rest.push_resize(1, 2);
    state.subtract(&prefix);
    assert_eq!(state, rest);
    let same = state.clone();
    state.subtract(&same);
    assert!(state.is_empty());
    state.subtract(&UserStream::new());
    assert_eq!(state.len(), 0);
}

#[test]
fn empty_diff_applies_to_nothing() {
    let mut a = UserStream::new();
    a.push_keystroke(b'x');
    let before = a.clone();
    assert_eq!(a.apply_string(&[]), Ok(()));
    assert_eq!(a, before);
}

#[test]
fn malformed_diff_is_refused_and_changes_nothing() {
    let mut a = UserStream::new();
    a.push_keystroke(b'x');
    let before = a.clone();
    // A length that runs past the end.
    assert_eq!(a.apply_string(&[0x0A, 0x05, 0x12]), Err(StreamError::BadUserDiff));
    // Field 1 with the wrong wire type.
    assert_eq!(a.apply_string(&[0x08, 0x01]), Err(StreamError::BadUserDiff));
    // An instruction that holds nothing.
    assert_eq!(a.apply_string(&[0x0A, 0x00]), Err(StreamError::BadUserDiff));
    // A keystroke record without octets.
    assert_eq!(a.apply_string(&[0x0A, 0x02, 0x12, 0x00]), Err(StreamError::BadUserDiff));
    // A window size without height.
    assert_eq!(
        a.apply_string(&[0x0A, 0x04, 0x1A, 0x02, 0x28, 80]),
        Err(StreamError::BadUserDiff)
    );
    assert_eq!(a, before);
}

#[test]
fn unknown_fields_are_passed_over() {
    let mut a = UserStream::new();
    // field 9 (varint 1), then instruction{ keystroke{ keys = "z" } }
    a.apply_string(&[0x48, 0x01, 0x0A, 0x05, 0x12, 0x03, 0x22, 0x01, b'z']).unwrap();
    let mut want = UserStream::new();
    want.push_keystroke(b'z');
    assert_eq!(a, want);
}

#[test]
fn streams_compare_by_their_events() {
    let mut a = UserStream::new();
    let mut b = UserStream::new();
    assert_eq!(a, b);
    a.push_keystroke(b'a');
    assert_ne!(a, b);
    b.push_keystroke(b'a');
    assert_eq!(a, b);
    b.push_resize(1, 1);
    assert_ne!(a, b);
    assert!(!a.starts_with(&b));
    assert!(b.starts_with(&a));
}
