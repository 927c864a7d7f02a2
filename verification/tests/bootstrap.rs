use mosh_client::bootstrap::{
    is_space, parse_mosh_connect, parse_port, split_user_host, BootstrapError,
};
use mosh_client::prediction::PredictionMode;

#[test]
fn test_parse_mosh_connect() {
    let output = "\n\nMOSH CONNECT 60001 AbCdEfGhIjKlMnOpQrStUv\n\n";
    let (port, key) = parse_mosh_connect(output).unwrap();
    assert_eq!(port, 60001);
    assert_eq!(key, "AbCdEfGhIjKlMnOpQrStUv");
}

#[test]
fn test_parse_mosh_connect_with_noise() {
    let output = "Some debug output\nWarning: something\n\nMOSH CONNECT 60042 AAAAAAAAAAAAAAAAAAAAAA\nmore stuff";
    let (port, key) = parse_mosh_connect(output).unwrap();
    assert_eq!(port, 60042);
    assert_eq!(key, "AAAAAAAAAAAAAAAAAAAAAA");
}

#[test]
fn test_parse_mosh_connect_missing() {
    let output = "no connect line here\n";
    assert!(parse_mosh_connect(output).is_err());
}

#[test]
fn connect_line_details() {
    assert_eq!(parse_mosh_connect(""), Err(BootstrapError::NoConnectLine));
    assert_eq!(parse_mosh_connect("MOSH CONNECT"), Err(BootstrapError::NoConnectLine));
    assert_eq!(parse_mosh_connect("MOSH CONNECT 1"), Err(BootstrapError::NoConnectLine));
    assert_eq!(parse_mosh_connect("MOSH  CONNECT 1 k"), Err(BootstrapError::NoConnectLine));
    assert_eq!(parse_mosh_connect("xMOSH CONNECT 1 k"), Err(BootstrapError::NoConnectLine));
    assert_eq!(parse_mosh_connect("  \tMOSH CONNECT   7\t key  extra \r\n"), Ok((7, "key".to_string())));
    assert_eq!(parse_mosh_connect("MOSH CONNECT +65535 k"), Ok((65535, "k".to_string())));
    assert_eq!(parse_mosh_connect("MOSH CONNECT 65536 k"), Err(BootstrapError::InvalidPort));
    assert_eq!(parse_mosh_connect("MOSH CONNECT x k\nMOSH CONNECT 1 k"), Err(BootstrapError::InvalidPort));
    // A line that is too short does not hide a later one.
    assert_eq!(parse_mosh_connect("MOSH CONNECT 5\nMOSH CONNECT 6 k"), Ok((6, "k".to_string())));
    assert_eq!(parse_port(b"0012"), Some(12));
    assert_eq!(parse_port(b""), None);
    assert_eq!(parse_port(b"+"), None);
    assert_eq!(parse_port(b"-1"), None);
    assert_eq!(parse_port(b"1 "), None);
    assert_eq!(parse_port(b"99999"), None);
    assert!(is_space(b' ') && is_space(b'\n') && is_space(0x0B) && !is_space(b'a') && !is_space(0));
}

#[test]
fn user_and_host() {
    assert_eq!(split_user_host("me@example.org"), (Some(b"me".to_vec()), b"example.org".to_vec()));
    assert_eq!(split_user_host("example.org"), (None, b"example.org".to_vec()));
    assert_eq!(split_user_host("a@b@c"), (Some(b"a".to_vec()), b"b@c".to_vec()));
    assert_eq!(split_user_host("@h"), (Some(Vec::new()), b"h".to_vec()));
    assert_eq!(split_user_host(""), (None, Vec::new()));
}

#[test]
fn prediction_mode_names() {
    assert_eq!(PredictionMode::from_name("always"), PredictionMode::Always);
    assert_eq!(PredictionMode::from_name("never"), PredictionMode::Never);
    assert_eq!(PredictionMode::from_name("adaptive"), PredictionMode::Adaptive);
    assert_eq!(PredictionMode::from_name("Always"), PredictionMode::Adaptive);
    assert_eq!(PredictionMode::from_name(""), PredictionMode::Adaptive);
}
