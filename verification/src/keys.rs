//! The keys that a terminal in raw mode sends, and the bytes that make them up.

use vstd::prelude::*;

verus! {

/// A key, as the line editor sees it.
#[derive(Debug, Clone, Copy, PartialEq, Eq, Structural)]
pub enum Key {
    /// A character, control characters among them.
    Char(char),
    /// `ESC` and a character: a key pressed together with Alt.
    Alt(char),
    Up,
    Down,
    Left,
    Right,
    Backspace,
    Delete,
    Home,
    End,
    /// An escape sequence that stands for no key of the editor.
    Unknown,
}

/// How much of a key has been read.
#[derive(Debug, Clone, Copy, PartialEq, Eq, Structural)]
pub enum KeyState {
    /// Nothing yet.
    Start,
    /// `ESC`.
    Escape,
    /// `ESC [`.
    Bracket,
    /// `ESC [ 3`.
    Three,
}

/// What an attempt to read one more byte came to.
#[derive(Debug, Clone, Copy, PartialEq, Eq, Structural)]
pub enum ByteRead {
    Byte(u8),
    /// The input has ended.
    End,
    /// Reading failed.
    Failed,
}

/// What follows from a byte that was read.
#[derive(Debug, Clone, Copy, PartialEq, Eq, Structural)]
pub enum KeyStep {
    /// One more byte is needed.
    More(KeyState),
    /// The key is complete.
    Done(Key),
    /// There is no key: the reading itself has failed.
    Fail,
}

/// What the byte behind `ESC` means: `None` for the bracket that begins a control
/// sequence, and otherwise the character of a key pressed together with Alt.
pub fn decode_escape(first: u8) -> (r: Option<char>)
    ensures
        first == 0x5b ==> r is None,
        first != 0x5b ==> r == Some(first as char),
{
    if first == 0x5b {
        None
    } else {
        Some(first as char)
    }
}

/// The key that a control sequence of one letter stands for.
pub open spec fn letter_key(b: u8) -> Key {
    if b == 0x41 {
        Key::Up
    } else if b == 0x42 {
        Key::Down
    } else if b == 0x43 {
        Key::Right
    } else if b == 0x44 {
        Key::Left
    } else if b == 0x48 {
        Key::Home
    } else if b == 0x46 {
        Key::End
    } else {
        Key::Unknown
    }
}

/// The step from a state on one more attempt to read. A key must have a first
/// byte; an escape sequence that the input cuts short is an unknown key.
pub open spec fn key_step(state: KeyState, read: ByteRead) -> KeyStep {
    match (state, read) {
        (KeyState::Start, ByteRead::Byte(b)) => if b == 0x1b {
            KeyStep::More(KeyState::Escape)
        } else if b == 0x7f {
            KeyStep::Done(Key::Backspace)
        } else {
            KeyStep::Done(Key::Char(b as char))
        },
        (KeyState::Start, _) => KeyStep::Fail,
        (KeyState::Escape, ByteRead::Byte(b)) => if b == 0x5b {
            KeyStep::More(KeyState::Bracket)
        } else {
            KeyStep::Done(Key::Alt(b as char))
        },
        (KeyState::Bracket, ByteRead::Byte(b)) => if b == 0x33 {
            KeyStep::More(KeyState::Three)
        } else {
            KeyStep::Done(letter_key(b))
        },
        (KeyState::Escape, ByteRead::End) => KeyStep::Done(Key::Unknown),
        (KeyState::Bracket, ByteRead::End) => KeyStep::Done(Key::Unknown),
        (KeyState::Escape, ByteRead::Failed) => KeyStep::Fail,
        (KeyState::Bracket, ByteRead::Failed) => KeyStep::Fail,
        (KeyState::Three, ByteRead::Byte(b)) => if b == 0x7e {
            KeyStep::Done(Key::Delete)
        } else {
            KeyStep::Done(Key::Unknown)
        },
        (KeyState::Three, _) => KeyStep::Done(Key::Unknown),
    }
}

/// Takes one attempt to read a byte into account, and says whether that makes a
/// key. A caller starts in `KeyState::Start` and reads on while told to.
pub fn read_key(state: KeyState, read: ByteRead) -> (r: KeyStep)
    ensures
        r == key_step(state, read),
{
    match state {
        KeyState::Start => match read {
            ByteRead::Byte(b) => {
                if b == 0x1b {
                    KeyStep::More(KeyState::Escape)
                } else if b == 0x7f {
                    KeyStep::Done(Key::Backspace)
                } else {
                    KeyStep::Done(Key::Char(b as char))
                }
            },
            ByteRead::End => KeyStep::Fail,
            ByteRead::Failed => KeyStep::Fail,
        },
        KeyState::Escape => match read {
            ByteRead::Byte(b) => match decode_escape(b) {
                None => KeyStep::More(KeyState::Bracket),
                Some(c) => KeyStep::Done(Key::Alt(c)),
            },
            ByteRead::End => KeyStep::Done(Key::Unknown),
            ByteRead::Failed => KeyStep::Fail,
        },
        KeyState::Bracket => match read {
            ByteRead::Byte(b) => {
                if b == 0x33 {
                    KeyStep::More(KeyState::Three)
                } else if b == 0x41 {
                    KeyStep::Done(Key::Up)
                } else if b == 0x42 {
                    KeyStep::Done(Key::Down)
                } else if b == 0x43 {
                    KeyStep::Done(Key::Right)
                } else if b == 0x44 {
                    KeyStep::Done(Key::Left)
                } else if b == 0x48 {
                    KeyStep::Done(Key::Home)
                } else if b == 0x46 {
                    KeyStep::Done(Key::End)
                } else {
                    KeyStep::Done(Key::Unknown)
                }
            },
            ByteRead::End => KeyStep::Done(Key::Unknown),
            ByteRead::Failed => KeyStep::Fail,
        },
        KeyState::Three => match read {
            ByteRead::Byte(b) => {
                if b == 0x7e {
                    KeyStep::Done(Key::Delete)
                } else {
                    KeyStep::Done(Key::Unknown)
                }
            },
            ByteRead::End => KeyStep::Done(Key::Unknown),
            ByteRead::Failed => KeyStep::Done(Key::Unknown),
        },
    }
}

/// How many more bytes a key can take at most, in a given state.
pub open spec fn bytes_left(state: KeyState) -> nat {
    match state {
        KeyState::Start => 4,
        KeyState::Escape => 3,
        KeyState::Bracket => 2,
        KeyState::Three => 1,
    }
}

/// Reading a key comes to an end: each step that asks for one more byte leaves
/// fewer bytes to ask for, and no key takes more than four.
pub proof fn law_a_key_takes_at_most_four_bytes(state: KeyState, read: ByteRead)
    ensures
        key_step(state, read) matches KeyStep::More(next) ==> bytes_left(next) < bytes_left(state),
        1 <= bytes_left(state) <= 4,
{
}

/// What some bytes come to, read one after the other: nothing may follow a key.
pub open spec fn bytes_read(state: KeyState, bytes: Seq<u8>) -> KeyStep
    decreases bytes.len(),
{
    if bytes.len() == 0 {
        KeyStep::More(state)
    } else {
        match key_step(state, ByteRead::Byte(bytes[0])) {
            KeyStep::More(next) => bytes_read(next, bytes.drop_first()),
            step => if bytes.len() == 1 {
                step
            } else {
                KeyStep::Fail
            },
        }
    }
}

/// Which bytes make which key: a byte by itself is a character, but for the one that
/// erases and the one that begins a sequence; behind that one a byte is a key with Alt;
/// and there are seven sequences with a bracket. All others make an unknown key.
pub proof fn law_bytes_make_keys(b: u8)
    ensures
        b != 0x1b && b != 0x7f ==> bytes_read(KeyState::Start, seq![b]) == KeyStep::Done(
            Key::Char(b as char),
        ),
        bytes_read(KeyState::Start, seq![0x7f]) == KeyStep::Done(Key::Backspace),
        b != 0x5b ==> bytes_read(KeyState::Start, seq![0x1b, b]) == KeyStep::Done(
            Key::Alt(b as char),
        ),
        bytes_read(KeyState::Start, seq![0x1b, 0x5b, 0x41]) == KeyStep::Done(Key::Up),
        bytes_read(KeyState::Start, seq![0x1b, 0x5b, 0x42]) == KeyStep::Done(Key::Down),
        bytes_read(KeyState::Start, seq![0x1b, 0x5b, 0x43]) == KeyStep::Done(Key::Right),
        bytes_read(KeyState::Start, seq![0x1b, 0x5b, 0x44]) == KeyStep::Done(Key::Left),
        bytes_read(KeyState::Start, seq![0x1b, 0x5b, 0x48]) == KeyStep::Done(Key::Home),
        bytes_read(KeyState::Start, seq![0x1b, 0x5b, 0x46]) == KeyStep::Done(Key::End),
        bytes_read(KeyState::Start, seq![0x1b, 0x5b, 0x33, 0x7e]) == KeyStep::Done(Key::Delete),
        b != 0x33 && !(0x41 <= b <= 0x44) && b != 0x46 && b != 0x48 ==> bytes_read(
            KeyState::Start,
            seq![0x1b, 0x5b, b],
        ) == KeyStep::Done(Key::Unknown),
        b != 0x7e ==> bytes_read(KeyState::Start, seq![0x1b, 0x5b, 0x33, b]) == KeyStep::Done(
            Key::Unknown,
        ),
{
    reveal_with_fuel(bytes_read, 3);
    assert(seq![0x1bu8, b].drop_first() =~= seq![b]);
    lemma_three(0x41);
    lemma_three(0x42);
    lemma_three(0x43);
    lemma_three(0x44);
    lemma_three(0x48);
    lemma_three(0x46);
    if b != 0x33 {
        lemma_three(b);
    }
    lemma_four(0x7e);
    lemma_four(b);
}

proof fn lemma_three(c: u8)
    requires
        c != 0x33,
    ensures
        bytes_read(KeyState::Start, seq![0x1b, 0x5b, c]) == key_step(
            KeyState::Bracket,
            ByteRead::Byte(c),
        ),
{
    reveal_with_fuel(bytes_read, 4);
    assert(seq![0x1bu8, 0x5b, c].drop_first() =~= seq![0x5b, c]);
    assert(seq![0x5bu8, c].drop_first() =~= seq![c]);
}

proof fn lemma_four(c: u8)
    ensures
        bytes_read(KeyState::Start, seq![0x1b, 0x5b, 0x33, c]) == key_step(
            KeyState::Three,
            ByteRead::Byte(c),
        ),
{
    reveal_with_fuel(bytes_read, 5);
    assert(seq![0x1bu8, 0x5b, 0x33, c].drop_first() =~= seq![0x5b, 0x33, c]);
    assert(seq![0x5bu8, 0x33, c].drop_first() =~= seq![0x33, c]);
    assert(seq![0x33u8, c].drop_first() =~= seq![c]);
}

/// A key that has not begun fails where nothing can be read. One that has begun is
/// unknown where the input ends; where reading fails, so does the key, unless it could
/// only have been the one that deletes.
pub proof fn law_keys_that_are_cut_short()
    ensures
        key_step(KeyState::Start, ByteRead::End) is Fail,
        key_step(KeyState::Start, ByteRead::Failed) is Fail,
        key_step(KeyState::Escape, ByteRead::End) == KeyStep::Done(Key::Unknown),
        key_step(KeyState::Bracket, ByteRead::End) == KeyStep::Done(Key::Unknown),
        key_step(KeyState::Three, ByteRead::End) == KeyStep::Done(Key::Unknown),
        key_step(KeyState::Escape, ByteRead::Failed) is Fail,
        key_step(KeyState::Bracket, ByteRead::Failed) is Fail,
        key_step(KeyState::Three, ByteRead::Failed) == KeyStep::Done(Key::Unknown),
{
}

} // verus!
