//! Colouring of SQL input for display.

use vstd::prelude::*;

use crate::text::{
    chars_of, raised, same_text, substring, to_ascii_uppercase, trim_start, trim_start_at,
};

verus! {

/// Back to the terminal's own colours.
pub const RESET: &'static str = "\x1b[0m";

/// The colour of keywords.
pub const BOLD_BLUE: &'static str = "\x1b[1;34m";

/// The colour of string literals.
pub const GREEN: &'static str = "\x1b[32m";

/// The colour of numbers.
pub const CYAN: &'static str = "\x1b[36m";

/// The colour of dot-commands.
pub const YELLOW: &'static str = "\x1b[33m";

/// Whether `char::is_alphabetic` holds of a character.
pub uninterp spec fn alphabetic(c: char) -> bool;

/// Whether `char::is_alphanumeric` holds of a character.
pub uninterp spec fn alphanumeric(c: char) -> bool;

/// The ASCII letters.
pub open spec fn ascii_letter(c: char) -> bool {
    'a' <= c <= 'z' || 'A' <= c <= 'Z'
}

/// The ASCII digits.
pub open spec fn ascii_digit(c: char) -> bool {
    '0' <= c <= '9'
}

/// Trusted: `char::is_alphabetic` tells from the character alone whether it has
/// the Unicode property `Alphabetic`, which in ASCII only the letters have.
pub assume_specification[ char::is_alphabetic ](c: char) -> (b: bool)
    ensures
        b == alphabetic(c),
        c < '\u{80}' ==> b == ascii_letter(c),
;

/// Trusted: `char::is_alphanumeric` tells from the character alone whether it is
/// alphabetic or numeric, which in ASCII only the letters and the digits are.
pub assume_specification[ char::is_alphanumeric ](c: char) -> (b: bool)
    ensures
        b == alphanumeric(c),
        c < '\u{80}' ==> b == (ascii_letter(c) || ascii_digit(c)),
;

/// The SQL keywords, in capitals.
pub open spec fn keyword(w: Seq<char>) -> bool {
    ||| w == "SELECT"@
    ||| w == "FROM"@
    ||| w == "WHERE"@
    ||| w == "GROUP"@
    ||| w == "BY"@
    ||| w == "ORDER"@
    ||| w == "LIMIT"@
    ||| w == "AND"@
    ||| w == "OR"@
    ||| w == "NOT"@
    ||| w == "IN"@
    ||| w == "AS"@
    ||| w == "JOIN"@
    ||| w == "INNER"@
    ||| w == "LEFT"@
    ||| w == "RIGHT"@
    ||| w == "OUTER"@
    ||| w == "ON"@
    ||| w == "NULL"@
    ||| w == "TRUE"@
    ||| w == "FALSE"@
    ||| w == "ASC"@
    ||| w == "DESC"@
    ||| w == "COUNT"@
    ||| w == "SUM"@
    ||| w == "AVG"@
    ||| w == "MIN"@
    ||| w == "MAX"@
    ||| w == "OVER"@
    ||| w == "PARTITION"@
    ||| w == "ROW_NUMBER"@
    ||| w == "RANK"@
    ||| w == "DENSE_RANK"@
    ||| w == "LAG"@
    ||| w == "LEAD"@
    ||| w == "FIRST_VALUE"@
    ||| w == "LAST_VALUE"@
}

fn is_keyword(w: &str) -> (b: bool)
    ensures
        b == keyword(w@),
{
    same_text(w, "SELECT")
        || same_text(w, "FROM")
        || same_text(w, "WHERE")
        || same_text(w, "GROUP")
        || same_text(w, "BY")
        || same_text(w, "ORDER")
        || same_text(w, "LIMIT")
        || same_text(w, "AND")
        || same_text(w, "OR")
        || same_text(w, "NOT")
        || same_text(w, "IN")
        || same_text(w, "AS")
        || same_text(w, "JOIN")
        || same_text(w, "INNER")
        || same_text(w, "LEFT")
        || same_text(w, "RIGHT")
        || same_text(w, "OUTER")
        || same_text(w, "ON")
        || same_text(w, "NULL")
        || same_text(w, "TRUE")
        || same_text(w, "FALSE")
        || same_text(w, "ASC")
        || same_text(w, "DESC")
        || same_text(w, "COUNT")
        || same_text(w, "SUM")
        || same_text(w, "AVG")
        || same_text(w, "MIN")
        || same_text(w, "MAX")
        || same_text(w, "OVER")
        || same_text(w, "PARTITION")
        || same_text(w, "ROW_NUMBER")
        || same_text(w, "RANK")
        || same_text(w, "DENSE_RANK")
        || same_text(w, "LAG")
        || same_text(w, "LEAD")
        || same_text(w, "FIRST_VALUE")
        || same_text(w, "LAST_VALUE")
}

/// Where in `s` a word may begin: at a letter or an underscore.
pub open spec fn word_starts(s: Seq<char>) -> Seq<bool> {
    s.map_values(|c: char| alphabetic(c) || c == '_')
}

/// Where in `s` a word may go on: at a letter, a digit or an underscore.
pub open spec fn word_parts(s: Seq<char>) -> Seq<bool> {
    s.map_values(|c: char| alphanumeric(c) || c == '_')
}

/// Where the string literal that begins with the quote at `i` ends: behind the
/// next quote, or with the line.
pub open spec fn quote_end(s: Seq<char>, i: int) -> int
    decreases s.len() - i,
{
    if i >= s.len() {
        s.len() as int
    } else if s[i] == '\'' {
        i + 1
    } else {
        quote_end(s, i + 1)
    }
}

/// Where the digits and dots from `i` on end.
pub open spec fn number_end(s: Seq<char>, i: int) -> int
    decreases s.len() - i,
{
    if 0 <= i < s.len() && (ascii_digit(s[i]) || s[i] == '.') {
        number_end(s, i + 1)
    } else {
        i
    }
}

/// Where the word parts from `i` on end.
pub open spec fn word_end(parts: Seq<bool>, i: int) -> int
    decreases parts.len() - i,
{
    if 0 <= i < parts.len() && parts[i] {
        word_end(parts, i + 1)
    } else {
        i
    }
}

/// `s` between a colour code and the code that ends it.
pub open spec fn painted(color: Seq<char>, s: Seq<char>) -> Seq<char> {
    color + s + RESET@
}

/// The end of the token that begins at `i`: a string literal, a number, a word or
/// a single character. `starts` and `parts` say where words may begin and go on.
pub open spec fn token_end(s: Seq<char>, starts: Seq<bool>, parts: Seq<bool>, i: int) -> int {
    if s[i] == '\'' {
        quote_end(s, i + 1)
    } else if ascii_digit(s[i]) {
        number_end(s, i + 1)
    } else if starts[i] {
        word_end(parts, i + 1)
    } else {
        i + 1
    }
}

/// How the token `s[i..e]` is displayed.
pub open spec fn token_shown(s: Seq<char>, starts: Seq<bool>, i: int, e: int) -> Seq<char> {
    let token = s.subrange(i, e);
    if s[i] == '\'' {
        painted(GREEN@, token)
    } else if ascii_digit(s[i]) {
        painted(CYAN@, token)
    } else if starts[i] && keyword(raised(token)) {
        painted(BOLD_BLUE@, token)
    } else {
        token
    }
}

/// How the tokens of `s` from `i` on are displayed.
pub open spec fn tokens_shown(
    s: Seq<char>,
    starts: Seq<bool>,
    parts: Seq<bool>,
    i: int,
) -> Seq<char>
    decreases s.len() - i,
{
    if 0 <= i < s.len() {
        let e = token_end(s, starts, parts, i);
        if i < e <= s.len() {
            token_shown(s, starts, i, e) + tokens_shown(s, starts, parts, e)
        } else {
            seq![]
        }
    } else {
        seq![]
    }
}

/// How a line is displayed: a dot-command in one colour, any other line token by
/// token.
pub open spec fn highlighted(s: Seq<char>, starts: Seq<bool>, parts: Seq<bool>) -> Seq<char> {
    if trim_start(s).len() > 0 && trim_start(s)[0] == '.' {
        painted(YELLOW@, s)
    } else {
        tokens_shown(s, starts, parts, 0)
    }
}

proof fn lemma_quote_end(s: Seq<char>, i: int)
    requires
        0 <= i <= s.len(),
    ensures
        i <= quote_end(s, i) <= s.len(),
    decreases s.len() - i,
{
    if i < s.len() && s[i] != '\'' {
        lemma_quote_end(s, i + 1);
    }
}

proof fn lemma_number_end(s: Seq<char>, i: int)
    requires
        0 <= i <= s.len(),
    ensures
        i <= number_end(s, i) <= s.len(),
    decreases s.len() - i,
{
    if i < s.len() && (ascii_digit(s[i]) || s[i] == '.') {
        lemma_number_end(s, i + 1);
    }
}

proof fn lemma_word_end(parts: Seq<bool>, i: int)
    requires
        0 <= i <= parts.len(),
    ensures
        i <= word_end(parts, i) <= parts.len(),
    decreases parts.len() - i,
{
    if i < parts.len() && parts[i] {
        lemma_word_end(parts, i + 1);
    }
}

pub proof fn lemma_token_end(s: Seq<char>, starts: Seq<bool>, parts: Seq<bool>, i: int)
    requires
        0 <= i < s.len(),
        starts.len() == s.len(),
        parts.len() == s.len(),
    ensures
        i < token_end(s, starts, parts, i) <= s.len(),
{
    lemma_quote_end(s, i + 1);
    lemma_number_end(s, i + 1);
    lemma_word_end(parts, i + 1);
}

fn end_of_token(chars: &[char], starts: &[bool], parts: &[bool], i: usize) -> (e: usize)
    requires
        i < chars@.len(),
        starts@.len() == chars@.len(),
        parts@.len() == chars@.len(),
    ensures
        e == token_end(chars@, starts@, parts@, i as int),
        i < e <= chars@.len(),
{
    let c = chars[i];
    let mut e: usize = i + 1;
    if c == '\'' {
        while e < chars.len() && chars[e] != '\''
            invariant
                i < e <= chars@.len(),
                quote_end(chars@, i + 1) == quote_end(chars@, e as int),
            decreases chars@.len() - e,
        {
            e = e + 1;
        }
        if e < chars.len() {
            e = e + 1;
        }
    } else if '0' <= c && c <= '9' {
        while e < chars.len() && (('0' <= chars[e] && chars[e] <= '9') || chars[e] == '.')
            invariant
                i < e <= chars@.len(),
                number_end(chars@, i + 1) == number_end(chars@, e as int),
            decreases chars@.len() - e,
        {
            e = e + 1;
        }
    } else if starts[i] {
        while e < chars.len() && parts[e]
            invariant
                i < e <= chars@.len(),
                parts@.len() == chars@.len(),
                word_end(parts@, i + 1) == word_end(parts@, e as int),
            decreases chars@.len() - e,
        {
            e = e + 1;
        }
    }
    e
}

fn push_painted(out: &mut String, color: &str, s: &str)
    ensures
        final(out)@ == old(out)@ + painted(color@, s@),
{
    out.append(color);
    out.append(s);
    out.append(RESET);
    assert(out@ == old(out)@ + painted(color@, s@));
}

/// Colours a line, given where words may begin and where they may go on.
pub fn highlight_words(line: &str, starts: &[bool], parts: &[bool]) -> (r: String)
    requires
        starts@.len() == line@.len(),
        parts@.len() == line@.len(),
    ensures
        r@ == highlighted(line@, starts@, parts@),
{
    let chars = chars_of(line);
    let mut result = String::new();
    let first = trim_start_at(chars.as_slice());
    if first < chars.len() && chars[first] == '.' {
        push_painted(&mut result, YELLOW, line);
        assert(result@ == painted(YELLOW@, line@));
        return result;
    }
    let mut i: usize = 0;
    while i < chars.len()
        invariant
            chars@ == line@,
            starts@.len() == chars@.len(),
            parts@.len() == chars@.len(),
            i <= chars@.len(),
            tokens_shown(line@, starts@, parts@, 0) == result@ + tokens_shown(
                line@,
                starts@,
                parts@,
                i as int,
            ),
        decreases chars@.len() - i,
    {
        let e = end_of_token(chars.as_slice(), starts, parts, i);
        let token = substring(chars.as_slice(), i, e);
        let c = chars[i];
        let ghost before = result@;
        if c == '\'' {
            push_painted(&mut result, GREEN, token.as_str());
        } else if '0' <= c && c <= '9' {
            push_painted(&mut result, CYAN, token.as_str());
        } else if starts[i] && is_keyword(to_ascii_uppercase(token.as_str()).as_str()) {
            push_painted(&mut result, BOLD_BLUE, token.as_str());
        } else {
            result.append(token.as_str());
        }
        proof {
            let shown = token_shown(line@, starts@, i as int, e as int);
            let rest = tokens_shown(line@, starts@, parts@, e as int);
            assert(result@ == before + shown);
            assert(before + (shown + rest) == result@ + rest);
        }
        i = e;
    }
    assert(result@ + tokens_shown(line@, starts@, parts@, i as int) == result@);
    result
}

/// Colours SQL input for display: keywords, string literals, numbers, and
/// dot-commands as a whole.
pub fn highlight(line: &str) -> (r: String)
    ensures
        r@ == highlighted(line@, word_starts(line@), word_parts(line@)),
{
    let mut starts: Vec<bool> = Vec::new();
    let mut parts: Vec<bool> = Vec::new();
    for c in it: line.chars()
        invariant
            it.seq() == line@,
            starts@ == word_starts(line@.take(it.index())),
            parts@ == word_parts(line@.take(it.index())),
    {
        starts.push(c.is_alphabetic() || c == '_');
        parts.push(c.is_alphanumeric() || c == '_');
        proof {
            assert(line@.take(it.index() + 1) == line@.take(it.index()).push(c));
        }
    }
    proof {
        assert(line@.take(line@.len() as int) == line@);
    }
    highlight_words(line, starts.as_slice(), parts.as_slice())
}

} // verus!
