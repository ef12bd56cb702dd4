//! Terminal control sequences: how they are written, and what is visible of a
//! text that holds some.

use vstd::prelude::*;

use crate::highlight::{
    highlighted, lemma_token_end, painted, token_end, token_shown, tokens_shown, BOLD_BLUE, CYAN,
    GREEN, RESET, YELLOW,
};
use crate::text::{decimal, law_decimal_is_read_back, number, push_decimal};

verus! {

/// The character that begins a control sequence.
pub const ESC: char = '\x1b';

/// The control sequence with the number `n`, or nothing where `n` is zero.
pub open spec fn csi(n: int, letter: char) -> Seq<char> {
    if n > 0 {
        seq![ESC, '['] + decimal(n as nat) + seq![letter]
    } else {
        seq![]
    }
}

/// Appends a control sequence with a number, where that is not zero.
pub fn push_csi(out: &mut String, n: usize, letter: char)
    ensures
        final(out)@ == old(out)@ + csi(n as int, letter),
{
    if n > 0 {
        out.push(ESC);
        out.push('[');
        push_decimal(out, n);
        out.push(letter);
    }
    assert(out@ =~= old(out)@ + csi(n as int, letter));
}

/// Where in a text that holds colour codes a reader stands.
pub enum Scan {
    /// In visible text.
    Text,
    /// Behind the character that begins a control sequence.
    Escape,
    /// Among the numbers of a colour code.
    Code,
    /// Behind something that is no colour code.
    Lost,
}

/// What has been read of a text with colour codes.
pub struct Reading {
    pub scan: Scan,
    pub seen: Seq<char>,
}

/// Reads one more character.
pub open spec fn read_char(r: Reading, c: char) -> Reading {
    match r.scan {
        Scan::Text => if c == ESC {
            Reading { scan: Scan::Escape, seen: r.seen }
        } else {
            Reading { scan: Scan::Text, seen: r.seen.push(c) }
        },
        Scan::Escape => if c == '[' {
            Reading { scan: Scan::Code, seen: r.seen }
        } else {
            Reading { scan: Scan::Lost, seen: r.seen }
        },
        Scan::Code => if '0' <= c <= '9' || c == ';' {
            r
        } else if c == 'm' {
            Reading { scan: Scan::Text, seen: r.seen }
        } else {
            Reading { scan: Scan::Lost, seen: r.seen }
        },
        Scan::Lost => r,
    }
}

/// Reads on through `s`.
pub open spec fn read_text(r: Reading, s: Seq<char>) -> Reading
    decreases s.len(),
{
    if s.len() == 0 {
        r
    } else {
        read_char(read_text(r, s.drop_last()), s.last())
    }
}

/// The characters of `s` that a terminal shows: all but its colour codes. `None`
/// if `s` holds any other control sequence, or an unfinished one.
pub open spec fn visible(s: Seq<char>) -> Option<Seq<char>> {
    let r = read_text(Reading { scan: Scan::Text, seen: seq![] }, s);
    if r.scan is Text {
        Some(r.seen)
    } else {
        None
    }
}

pub proof fn lemma_read_text_add(r: Reading, a: Seq<char>, b: Seq<char>)
    ensures
        read_text(r, a + b) == read_text(read_text(r, a), b),
    decreases b.len(),
{
    if b.len() == 0 {
        assert(a + b == a);
    } else {
        lemma_read_text_add(r, a, b.drop_last());
        assert((a + b).drop_last() == a + b.drop_last());
        assert((a + b).last() == b.last());
    }
}

/// Text without control sequences is visible as it is.
pub proof fn lemma_read_plain(r: Reading, s: Seq<char>)
    requires
        r.scan is Text,
        !s.contains(ESC),
    ensures
        read_text(r, s) == (Reading { scan: Scan::Text, seen: r.seen + s }),
    decreases s.len(),
{
    if s.len() == 0 {
        assert(r.seen + s == r.seen);
    } else {
        assert forall|c: char| s.drop_last().contains(c) implies s.contains(c) by {
            let k = choose|k: int| 0 <= k < s.drop_last().len() && s.drop_last()[k] == c;
            assert(s[k] == c);
        }
        lemma_read_plain(r, s.drop_last());
        assert(s.contains(s.last()));
        assert((r.seen + s.drop_last()).push(s.last()) == r.seen + s);
    }
}

/// A colour code, by its parts.
spec fn color_code(code: Seq<char>) -> bool {
    &&& code.len() >= 3
    &&& code[0] == ESC
    &&& code[1] == '['
    &&& code.last() == 'm'
    &&& forall|i: int| 2 <= i < code.len() - 1 ==> '0' <= #[trigger] code[i] <= '9' || code[i] == ';'
}

proof fn lemma_read_code_part(r: Reading, code: Seq<char>, n: int)
    requires
        r.scan is Text,
        color_code(code),
        2 <= n <= code.len() - 1,
    ensures
        read_text(r, code.take(n)) == (Reading { scan: Scan::Code, seen: r.seen }),
    decreases n,
{
    if n == 2 {
        assert(code.take(2).drop_last().drop_last() == Seq::<char>::empty());
        reveal_with_fuel(read_text, 3);
    } else {
        lemma_read_code_part(r, code, n - 1);
        assert(code.take(n).drop_last() == code.take(n - 1));
        assert(code.take(n).last() == code[n - 1]);
    }
}

proof fn lemma_read_code(r: Reading, code: Seq<char>)
    requires
        r.scan is Text,
        color_code(code),
    ensures
        read_text(r, code) == r,
{
    let n = code.len() - 1;
    lemma_read_code_part(r, code, n);
    assert(code.drop_last() == code.take(n));
}

proof fn lemma_color_codes()
    ensures
        color_code(RESET@),
        color_code(BOLD_BLUE@),
        color_code(GREEN@),
        color_code(CYAN@),
        color_code(YELLOW@),
{
    reveal_strlit("\x1b[0m");
    reveal_strlit("\x1b[1;34m");
    reveal_strlit("\x1b[32m");
    reveal_strlit("\x1b[36m");
    reveal_strlit("\x1b[33m");
}

proof fn lemma_read_painted(r: Reading, color: Seq<char>, s: Seq<char>)
    requires
        r.scan is Text,
        !s.contains(ESC),
        color_code(color),
    ensures
        read_text(r, painted(color, s)) == (Reading { scan: Scan::Text, seen: r.seen + s }),
{
    lemma_color_codes();
    lemma_read_text_add(r, color + s, RESET@);
    lemma_read_text_add(r, color, s);
    lemma_read_code(r, color);
    lemma_read_plain(r, s);
    lemma_read_code(Reading { scan: Scan::Text, seen: r.seen + s }, RESET@);
}

proof fn lemma_read_tokens(r: Reading, s: Seq<char>, starts: Seq<bool>, parts: Seq<bool>, i: int)
    requires
        r.scan is Text,
        !s.contains(ESC),
        starts.len() == s.len(),
        parts.len() == s.len(),
        0 <= i <= s.len(),
    ensures
        read_text(r, tokens_shown(s, starts, parts, i)) == (Reading {
            scan: Scan::Text,
            seen: r.seen + s.skip(i),
        }),
    decreases s.len() - i,
{
    if i < s.len() {
        lemma_token_end(s, starts, parts, i);
        let e = token_end(s, starts, parts, i);
        let token = s.subrange(i, e);
        let shown = token_shown(s, starts, i, e);
        let next = Reading { scan: Scan::Text, seen: r.seen + token };
        assert(!token.contains(ESC)) by {
            if token.contains(ESC) {
                let k = choose|k: int| 0 <= k < token.len() && token[k] == ESC;
                assert(s[i + k] == ESC);
            }
        }
        lemma_color_codes();
        lemma_read_plain(r, token);
        lemma_read_painted(r, GREEN@, token);
        lemma_read_painted(r, CYAN@, token);
        lemma_read_painted(r, BOLD_BLUE@, token);
        assert(read_text(r, shown) == next);
        lemma_read_text_add(r, shown, tokens_shown(s, starts, parts, e));
        lemma_read_tokens(next, s, starts, parts, e);
        assert(r.seen + token + s.skip(e) == r.seen + s.skip(i));
    } else {
        assert(r.seen + s.skip(i) == r.seen);
    }
}

/// Colouring changes nothing that is visible: the text that a terminal shows of a
/// coloured line is the line, character for character. The line itself holds no
/// control sequence.
pub proof fn law_highlighting_keeps_the_visible_text(
    s: Seq<char>,
    starts: Seq<bool>,
    parts: Seq<bool>,
)
    requires
        !s.contains(ESC),
        starts.len() == s.len(),
        parts.len() == s.len(),
    ensures
        visible(highlighted(s, starts, parts)) == Some(s),
{
    let r = Reading { scan: Scan::Text, seen: seq![] };
    lemma_color_codes();
    lemma_read_painted(r, YELLOW@, s);
    lemma_read_tokens(r, s, starts, parts, 0);
    assert(r.seen + s == s);
    assert(s.skip(0) == s);
}

/// A control sequence is the character that begins it, a bracket, a number in decimal
/// notation without leading zeros, and a letter. There is none for zero.
pub proof fn law_control_sequences_hold_their_number(n: int, letter: char)
    ensures
        n <= 0 ==> csi(n, letter).len() == 0,
        n > 0 ==> ({
            let s = csi(n, letter);
            &&& s.len() >= 4
            &&& s[0] == '\x1b'
            &&& s[1] == '['
            &&& s[2] != '0'
            &&& number(s.subrange(2, s.len() - 1)) == n
            &&& s.last() == letter
        }),
{
    if n > 0 {
        let s = csi(n, letter);
        let d = decimal(n as nat);
        law_decimal_is_read_back(n as nat);
        assert(s.subrange(2, s.len() - 1) =~= d);
        assert(s[2] == d[0]);
    }
}

} // verus!
