use db_cli::keys::{decode_escape, read_key, ByteRead, Key, KeyState, KeyStep};

#[test]
fn esc_followed_by_bracket_is_a_csi_sequence() {
    assert_eq!(decode_escape(b'['), None);
}

#[test]
fn esc_followed_by_non_bracket_decodes_as_alt() {
    assert_eq!(decode_escape(b'b'), Some('b'));
    assert_eq!(decode_escape(b'f'), Some('f'));
    assert_eq!(decode_escape(b'x'), Some('x'));
}

/// The key that the bytes make, and how many of them it took.
fn key(bytes: &[u8]) -> (KeyStep, usize) {
    let mut state = KeyState::Start;
    for (i, b) in bytes.iter().enumerate() {
        match read_key(state, ByteRead::Byte(*b)) {
            KeyStep::More(next) => state = next,
            step => return (step, i + 1),
        }
    }
    (KeyStep::More(state), bytes.len())
}

#[test]
fn arrows_and_the_like_are_control_sequences() {
    assert_eq!(key(b"\x1b[A"), (KeyStep::Done(Key::Up), 3));
    assert_eq!(key(b"\x1b[B"), (KeyStep::Done(Key::Down), 3));
    assert_eq!(key(b"\x1b[C"), (KeyStep::Done(Key::Right), 3));
    assert_eq!(key(b"\x1b[D"), (KeyStep::Done(Key::Left), 3));
    assert_eq!(key(b"\x1b[H"), (KeyStep::Done(Key::Home), 3));
    assert_eq!(key(b"\x1b[F"), (KeyStep::Done(Key::End), 3));
    assert_eq!(key(b"\x1b[3~"), (KeyStep::Done(Key::Delete), 4));
}

#[test]
fn other_control_sequences_are_unknown_keys() {
    assert_eq!(key(b"\x1b[Z"), (KeyStep::Done(Key::Unknown), 3));
    assert_eq!(key(b"\x1b[3x"), (KeyStep::Done(Key::Unknown), 4));
}

#[test]
fn plain_bytes_are_characters() {
    assert_eq!(key(b"a"), (KeyStep::Done(Key::Char('a')), 1));
    assert_eq!(key(b"\x01"), (KeyStep::Done(Key::Char('\x01')), 1));
    assert_eq!(key(b"\x7f"), (KeyStep::Done(Key::Backspace), 1));
    assert_eq!(key(b"\xe9"), (KeyStep::Done(Key::Char('é')), 1));
    assert_eq!(key(b"\x1bb"), (KeyStep::Done(Key::Alt('b')), 2));
}

#[test]
fn a_key_that_is_cut_short_is_unknown_or_fails() {
    assert_eq!(key(b"\x1b"), (KeyStep::More(KeyState::Escape), 1));
    assert_eq!(key(b"\x1b["), (KeyStep::More(KeyState::Bracket), 2));
    assert_eq!(key(b"\x1b[3"), (KeyStep::More(KeyState::Three), 3));

    assert_eq!(read_key(KeyState::Start, ByteRead::End), KeyStep::Fail);
    assert_eq!(read_key(KeyState::Escape, ByteRead::End), KeyStep::Done(Key::Unknown));
    assert_eq!(read_key(KeyState::Bracket, ByteRead::End), KeyStep::Done(Key::Unknown));
    assert_eq!(read_key(KeyState::Three, ByteRead::End), KeyStep::Done(Key::Unknown));

    assert_eq!(read_key(KeyState::Start, ByteRead::Failed), KeyStep::Fail);
    assert_eq!(read_key(KeyState::Escape, ByteRead::Failed), KeyStep::Fail);
    assert_eq!(read_key(KeyState::Bracket, ByteRead::Failed), KeyStep::Fail);
    assert_eq!(read_key(KeyState::Three, ByteRead::Failed), KeyStep::Done(Key::Unknown));
}

#[test]
fn no_key_takes_more_than_four_bytes() {
    for a in [0x1bu8, b'[', b'3', b'x'] {
        for b in [0x1bu8, b'[', b'3', b'x'] {
            for c in [0x1bu8, b'[', b'3', b'x'] {
                for d in [0x1bu8, b'[', b'3', b'~'] {
                    assert!(matches!(key(&[a, b, c, d]).0, KeyStep::Done(_)));
                }
            }
        }
    }
}
