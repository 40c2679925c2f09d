use atfuzz::codec::{escape, unescape};
use atfuzz::errors::FuzzError;
use atfuzz::generator::make_random_at_command;

#[test]
fn escape_exact_values() {
    assert_eq!(escape(&b"AT+CMD".to_vec()), b"AT+CMD".to_vec());
    assert_eq!(escape(&vec![0x0D]), b"\\r".to_vec());
    assert_eq!(escape(&vec![0x0A]), b"\\n".to_vec());
    assert_eq!(escape(&vec![0x09]), b"\\t".to_vec());
    assert_eq!(escape(&vec![b'\\']), b"\\\\".to_vec());
    assert_eq!(escape(&vec![b'\'']), b"\\'".to_vec());
    assert_eq!(escape(&vec![b'"']), b"\\\"".to_vec());
    assert_eq!(escape(&vec![0x00]), b"\\x00".to_vec());
    assert_eq!(escape(&vec![0x9B]), b"\\x9b".to_vec());
    assert_eq!(escape(&vec![0xFF]), b"\\xff".to_vec());
}

#[test]
fn unescape_exact_values() {
    assert_eq!(unescape(&b"AT".to_vec()), Ok(b"AT".to_vec()));
    assert_eq!(unescape(&b"\\r\\n\\t".to_vec()), Ok(vec![0x0D, 0x0A, 0x09]));
    assert_eq!(unescape(&b"\\x00a".to_vec()), Ok(vec![0x00, b'a']));
    assert_eq!(unescape(&b"\\x4a".to_vec()), Ok(vec![0x4A]));
    // Decoding accepts both letter cases in hex escapes.
    assert_eq!(unescape(&b"\\x4A".to_vec()), Ok(vec![0x4A]));
    assert_eq!(unescape(&b"".to_vec()), Ok(Vec::new()));
}

#[test]
fn unescape_rejects_malformed_lines() {
    // A trailing lone backslash.
    assert_eq!(unescape(&b"abc\\".to_vec()), Err(FuzzError::DecodeError));
    // An unknown escape code.
    assert_eq!(unescape(&b"\\q".to_vec()), Err(FuzzError::DecodeError));
    // A truncated hex escape.
    assert_eq!(unescape(&b"\\x4".to_vec()), Err(FuzzError::DecodeError));
    // Bad hex digits.
    assert_eq!(unescape(&b"\\xzz".to_vec()), Err(FuzzError::DecodeError));
    // A bare non-printable byte.
    assert_eq!(unescape(&vec![0x01]), Err(FuzzError::DecodeError));
    assert_eq!(unescape(&vec![b'A', 0x0D]), Err(FuzzError::DecodeError));
}

#[test]
fn round_trip_every_byte_value() {
    let all: Vec<u8> = (0u8..=255u8).collect();
    let encoded = escape(&all);
    assert!(encoded.iter().all(|&b| (0x20..=0x7E).contains(&b)));
    assert_eq!(unescape(&encoded), Ok(all));
}

#[test]
fn round_trip_generated_commands() {
    let words = vec![b"hello".to_vec(), b"unlock".to_vec()];
    for _ in 0..25 {
        let cmd = make_random_at_command(&words).expect("non-empty list");
        let encoded = escape(&cmd);
        assert_eq!(unescape(&encoded), Ok(cmd));
    }
}

#[test]
fn smashquote_decodes_escaped_lines() {
    // The log lines this codec writes stay decodable by the general-purpose
    // unescaper the replay format is modelled on.
    let all: Vec<u8> = (0u8..=255u8).collect();
    let samples: [&[u8]; 4] = [b"AT+RESET", &[0x0D, 0x0A, 0x00], b"\\mixed\"quotes'", &all];
    for sample in samples {
        let encoded = escape(&sample.to_vec());
        let decoded = smashquote::unescape_bytes(&encoded).expect("well-formed line");
        assert_eq!(decoded, sample.to_vec());
    }
}
