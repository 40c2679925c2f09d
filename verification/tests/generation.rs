use atfuzz::dictionary::{pick_random_word, to_upper};
use atfuzz::errors::FuzzError;
use atfuzz::generator::{build_command, make_random_at_command};

fn word_list(words: &[&str]) -> Vec<Vec<u8>> {
    words.iter().map(|w| w.as_bytes().to_vec()).collect()
}

#[test]
fn generated_command_shape() {
    let words = word_list(&["hello", "world", "reset"]);
    for _ in 0..50 {
        let cmd = make_random_at_command(&words).expect("non-empty list must succeed");
        assert_eq!(cmd.len(), 1000);
        assert!(cmd.iter().all(|&b| b != 0x0D));
        assert_eq!(&cmd[0..2], b"AT");
    }
}

#[test]
fn generated_command_with_empty_list() {
    let words: Vec<Vec<u8>> = Vec::new();
    let mut saw_ok = false;
    let mut saw_err = false;
    for _ in 0..200 {
        match make_random_at_command(&words) {
            Ok(cmd) => {
                saw_ok = true;
                assert_eq!(cmd.len(), 1000);
                assert_eq!(&cmd[0..2], b"AT");
            }
            Err(e) => {
                saw_err = true;
                assert_eq!(e, FuzzError::EmptyResource);
            }
        }
    }
    // The coin is fair: 200 flips all landing the same way is vanishingly rare.
    assert!(saw_ok && saw_err);
}

#[test]
fn word_follows_prefix() {
    // Word-list file with exactly one line `hello`, word inclusion forced on:
    // the command holds `HELLO` immediately after the `AT` + splitter prefix.
    let words = word_list(&["hello"]);
    let word = pick_random_word(&words).expect("one line");
    assert_eq!(word, b"HELLO".to_vec());

    let with_empty_splitter = build_command(0, Some(&word));
    assert_eq!(&with_empty_splitter[0..2], b"AT");
    assert_eq!(&with_empty_splitter[2..7], b"HELLO");

    let with_plus_splitter = build_command(1, Some(&word));
    assert_eq!(&with_plus_splitter[0..8], b"AT+HELLO");
}

#[test]
fn splitter_set_is_fixed() {
    let splitters: [&[u8]; 8] = [b"", b"+", b"%", b"!", b"$", b"#", b"^", b"*"];
    for (i, s) in splitters.iter().enumerate() {
        let cmd = build_command(i, None);
        assert_eq!(cmd.len(), 1000);
        assert_eq!(&cmd[0..2], b"AT");
        assert_eq!(&cmd[2..2 + s.len()], *s);
        assert!(cmd.iter().all(|&b| b != 0x0D));
    }
}

#[test]
fn long_word_is_truncated() {
    let long_word = vec![b'Z'; 1500];
    let cmd = build_command(1, Some(&long_word));
    assert_eq!(cmd.len(), 1000);
    assert_eq!(&cmd[0..3], b"AT+");
    assert!(cmd[3..1000].iter().all(|&b| b == b'Z'));
}

#[test]
fn pick_random_word_uppercases() {
    let words = word_list(&["mixedCase42!"]);
    let word = pick_random_word(&words).expect("one line");
    assert_eq!(word, b"MIXEDCASE42!".to_vec());
}

#[test]
fn pick_random_word_picks_a_line() {
    let words = word_list(&["alpha", "beta", "gamma"]);
    for _ in 0..30 {
        let word = pick_random_word(&words).expect("non-empty list");
        assert!(
            word == b"ALPHA".to_vec() || word == b"BETA".to_vec() || word == b"GAMMA".to_vec()
        );
    }
}

#[test]
fn pick_random_word_empty_list() {
    let words: Vec<Vec<u8>> = Vec::new();
    assert_eq!(pick_random_word(&words), Err(FuzzError::EmptyResource));
}

#[test]
fn to_upper_touches_only_lowercase() {
    let mixed = vec![b'a', b'z', b'A', b'0', 0x7F, b'~'];
    assert_eq!(to_upper(&mixed), vec![b'A', b'Z', b'A', b'0', 0x7F, b'~']);
}
