//! How a line of SQL is coloured, token by token.

use vstd::prelude::*;

use crate::highlight::{
    alphabetic, alphanumeric, ascii_digit, highlighted, keyword, lemma_token_end, number_end,
    quote_end, token_end, token_shown, tokens_shown, word_end, word_parts, word_starts,
};
use crate::text::{blank, lemma_trim_start, raised, white_space};

verus! {

proof fn lemma_quote_shift(s: Seq<char>, i: int, k: int)
    requires
        0 <= k <= i <= s.len(),
    ensures
        quote_end(s.skip(k), i - k) == quote_end(s, i) - k,
    decreases s.len() - i,
{
    if i < s.len() && s[i] != '\'' {
        lemma_quote_shift(s, i + 1, k);
    }
}

proof fn lemma_number_shift(s: Seq<char>, i: int, k: int)
    requires
        0 <= k <= i <= s.len(),
    ensures
        number_end(s.skip(k), i - k) == number_end(s, i) - k,
    decreases s.len() - i,
{
    if i < s.len() && (ascii_digit(s[i]) || s[i] == '.') {
        lemma_number_shift(s, i + 1, k);
    }
}

proof fn lemma_word_shift(parts: Seq<bool>, i: int, k: int)
    requires
        0 <= k <= i <= parts.len(),
    ensures
        word_end(parts.skip(k), i - k) == word_end(parts, i) - k,
    decreases parts.len() - i,
{
    if i < parts.len() && parts[i] {
        lemma_word_shift(parts, i + 1, k);
    }
}

proof fn lemma_shift(s: Seq<char>, starts: Seq<bool>, parts: Seq<bool>, i: int, k: int)
    requires
        0 <= k <= i <= s.len(),
        starts.len() == s.len(),
        parts.len() == s.len(),
    ensures
        tokens_shown(s, starts, parts, i) == tokens_shown(
            s.skip(k),
            starts.skip(k),
            parts.skip(k),
            i - k,
        ),
    decreases s.len() - i,
{
    if i < s.len() {
        let e = token_end(s, starts, parts, i);
        lemma_token_end(s, starts, parts, i);
        lemma_quote_shift(s, i + 1, k);
        lemma_number_shift(s, i + 1, k);
        lemma_word_shift(parts, i + 1, k);
        assert(token_end(s.skip(k), starts.skip(k), parts.skip(k), i - k) == e - k);
        assert(s.skip(k).subrange(i - k, e - k) =~= s.subrange(i, e));
        lemma_shift(s, starts, parts, e, k);
    }
}

/// A token and what follows it.
proof fn lemma_first_token(
    token: Seq<char>,
    rest: Seq<char>,
    starts: Seq<bool>,
    parts: Seq<bool>,
)
    requires
        token.len() > 0,
        starts.len() == token.len() + rest.len(),
        parts.len() == token.len() + rest.len(),
        token_end(token + rest, starts, parts, 0) == token.len(),
    ensures
        tokens_shown(token + rest, starts, parts, 0) == token_shown(
            token + rest,
            starts,
            0,
            token.len() as int,
        ) + tokens_shown(
            rest,
            starts.skip(token.len() as int),
            parts.skip(token.len() as int),
            0,
        ),
        (token + rest).subrange(0, token.len() as int) == token,
{
    let s = token + rest;
    let n = token.len() as int;
    lemma_shift(s, starts, parts, n, n);
    assert(s.skip(n) =~= rest);
    assert(s.subrange(0, n) =~= token);
}

proof fn lemma_quote_end_is(s: Seq<char>, i: int, e: int)
    requires
        0 <= i <= e <= s.len(),
        forall|k: int| i <= k < e ==> #[trigger] s[k] != '\'',
        e < s.len() ==> s[e] == '\'',
    ensures
        quote_end(s, i) == if e < s.len() {
            e + 1
        } else {
            e
        },
    decreases e - i,
{
    if i < e {
        assert(s[i] != '\'');
        lemma_quote_end_is(s, i + 1, e);
    }
}

proof fn lemma_number_end_is(s: Seq<char>, i: int, e: int)
    requires
        0 <= i <= e <= s.len(),
        forall|k: int| i <= k < e ==> '0' <= #[trigger] s[k] <= '9' || s[k] == '.',
        e < s.len() ==> !('0' <= s[e] <= '9') && s[e] != '.',
    ensures
        number_end(s, i) == e,
    decreases e - i,
{
    if i < e {
        assert('0' <= s[i] <= '9' || s[i] == '.');
        lemma_number_end_is(s, i + 1, e);
    }
}

proof fn lemma_word_end_is(parts: Seq<bool>, i: int, e: int)
    requires
        0 <= i <= e <= parts.len(),
        forall|k: int| i <= k < e ==> #[trigger] parts[k],
        e < parts.len() ==> !parts[e],
    ensures
        word_end(parts, i) == e,
    decreases e - i,
{
    if i < e {
        assert(parts[i]);
        lemma_word_end_is(parts, i + 1, e);
    }
}

/// A string literal is green from its quote to the next, or to the end of the line if
/// there is none. What is inside does not matter.
pub proof fn law_literals_are_green(
    body: Seq<char>,
    rest: Seq<char>,
    starts: Seq<bool>,
    parts: Seq<bool>,
)
    requires
        !body.contains('\''),
    ensures
        starts.len() == body.len() + 2 + rest.len() && parts.len() == starts.len() ==> tokens_shown(
            seq!['\''] + body + seq!['\''] + rest,
            starts,
            parts,
            0,
        ) == "\x1b[32m"@ + (seq!['\''] + body + seq!['\'']) + "\x1b[0m"@ + tokens_shown(
            rest,
            starts.skip(body.len() + 2 as int),
            parts.skip(body.len() + 2 as int),
            0,
        ),
        starts.len() == body.len() + 1 && parts.len() == starts.len() ==> tokens_shown(
            seq!['\''] + body,
            starts,
            parts,
            0,
        ) == "\x1b[32m"@ + (seq!['\''] + body) + "\x1b[0m"@,
{
    let n = body.len() as int;
    assert forall|k: int| 0 <= k < n implies #[trigger] body[k] != '\'' by {
        if body[k] == '\'' {
            assert(body.contains('\''));
        }
    }
    if starts.len() == n + 2 + rest.len() && parts.len() == starts.len() {
        let token = seq!['\''] + body + seq!['\''];
        let s = token + rest;
        assert forall|k: int| 1 <= k < n + 1 implies #[trigger] s[k] != '\'' by {
            assert(s[k] == body[k - 1]);
        }
        lemma_quote_end_is(s, 1, n + 1);
        lemma_first_token(token, rest, starts, parts);
    }
    if starts.len() == n + 1 && parts.len() == starts.len() {
        let token = seq!['\''] + body;
        let none = Seq::<char>::empty();
        assert(token + none =~= token);
        assert forall|k: int| 1 <= k < n + 1 implies #[trigger] token[k] != '\'' by {
            assert(token[k] == body[k - 1]);
        }
        lemma_quote_end_is(token, 1, n + 1);
        lemma_first_token(token, none, starts, parts);
        assert(tokens_shown(none, starts.skip(n + 1), parts.skip(n + 1), 0) == none);
        assert(tokens_shown(token, starts, parts, 0) =~= "\x1b[32m"@ + token + "\x1b[0m"@);
    }
}

/// A number, which is a digit and the digits and dots that follow it, is cyan.
pub proof fn law_numbers_are_cyan(
    number: Seq<char>,
    rest: Seq<char>,
    starts: Seq<bool>,
    parts: Seq<bool>,
)
    requires
        number.len() > 0,
        '0' <= number[0] <= '9',
        forall|k: int|
            0 <= k < number.len() ==> '0' <= #[trigger] number[k] <= '9' || number[k] == '.',
        rest.len() > 0 ==> !('0' <= rest[0] <= '9') && rest[0] != '.',
        starts.len() == number.len() + rest.len(),
        parts.len() == number.len() + rest.len(),
    ensures
        tokens_shown(number + rest, starts, parts, 0) == "\x1b[36m"@ + number + "\x1b[0m"@
            + tokens_shown(
            rest,
            starts.skip(number.len() as int),
            parts.skip(number.len() as int),
            0,
        ),
{
    let s = number + rest;
    assert forall|k: int| 1 <= k < number.len() implies '0' <= #[trigger] s[k] <= '9' || s[k]
        == '.' by {
        assert(s[k] == number[k]);
    }
    lemma_number_end_is(s, 1, number.len() as int);
    lemma_first_token(number, rest, starts, parts);
}

/// A word begins where one may begin and goes on as long as it may. It is blue and bold
/// if it is a keyword, in small letters or capitals, and otherwise stands as it is.
pub proof fn law_words_are_blue_if_they_are_keywords(
    word: Seq<char>,
    rest: Seq<char>,
    starts: Seq<bool>,
    parts: Seq<bool>,
)
    requires
        word.len() > 0,
        word[0] != '\'' && !('0' <= word[0] <= '9'),
        starts.len() == word.len() + rest.len(),
        parts.len() == word.len() + rest.len(),
        starts[0],
        forall|k: int| 1 <= k < word.len() ==> #[trigger] parts[k],
        rest.len() > 0 ==> !parts[word.len() as int],
    ensures
        tokens_shown(word + rest, starts, parts, 0) == (if keyword(raised(word)) {
            "\x1b[1;34m"@ + word + "\x1b[0m"@
        } else {
            word
        }) + tokens_shown(rest, starts.skip(word.len() as int), parts.skip(word.len() as int), 0),
{
    lemma_word_end_is(parts, 1, word.len() as int);
    lemma_first_token(word, rest, starts, parts);
}

/// Any other character stands as it is.
pub proof fn law_other_characters_have_no_colour(
    c: char,
    rest: Seq<char>,
    starts: Seq<bool>,
    parts: Seq<bool>,
)
    requires
        c != '\'' && !('0' <= c <= '9'),
        starts.len() == 1 + rest.len(),
        parts.len() == 1 + rest.len(),
        !starts[0],
    ensures
        tokens_shown(seq![c] + rest, starts, parts, 0) == seq![c] + tokens_shown(
            rest,
            starts.skip(1),
            parts.skip(1),
            0,
        ),
        tokens_shown(seq![], seq![], seq![], 0) == Seq::<char>::empty(),
{
    lemma_first_token(seq![c], rest, starts, parts);
}

/// A line whose first character that is no white space is a dot is yellow as a whole. Any
/// other line is coloured token by token, from its start.
pub proof fn law_dot_commands_are_yellow(
    lead: Seq<char>,
    rest: Seq<char>,
    starts: Seq<bool>,
    parts: Seq<bool>,
)
    requires
        blank(lead),
    ensures
        rest.len() > 0 && rest[0] == '.' ==> highlighted(lead + rest, starts, parts) == "\x1b[33m"@
            + (lead + rest) + "\x1b[0m"@,
        rest.len() > 0 && rest[0] != '.' && !white_space(rest[0]) ==> highlighted(
            lead + rest,
            starts,
            parts,
        ) == tokens_shown(lead + rest, starts, parts, 0),
        highlighted(lead, starts, parts) == tokens_shown(lead, starts, parts, 0),
{
    let s = lead + rest;
    let n = lead.len() as int;
    if rest.len() > 0 && !white_space(rest[0]) {
        let i = lemma_trim_start(s);
        assert(s[n] == rest[0]);
        if i < n {
            assert(s[i] == lead[i]);
        }
        assert(i == n);
        assert(s.skip(n) =~= rest);
    }
    if rest.len() > 0 && rest[0] == '.' {
        assert(!white_space('.'));
        assert(highlighted(s, starts, parts) =~= "\x1b[33m"@ + s + "\x1b[0m"@);
    }
    let j = lemma_trim_start(lead);
    if j < lead.len() {
        assert(white_space(lead[j]));
    }
}

/// A word may begin at a letter or an underscore, and go on at those and at digits and
/// other numerals.
pub proof fn law_words_are_letters_digits_and_underscores(s: Seq<char>, i: int)
    requires
        0 <= i < s.len(),
    ensures
        word_starts(s).len() == s.len(),
        word_parts(s).len() == s.len(),
        word_starts(s)[i] <==> alphabetic(s[i]) || s[i] == '_',
        word_parts(s)[i] <==> alphanumeric(s[i]) || s[i] == '_',
{
}

/// The keywords are these and no others.
pub proof fn law_keywords_are_these(w: Seq<char>)
    ensures
        keyword(w) <==> seq![
            "AND"@, "AS"@, "ASC"@, "AVG"@, "BY"@, "COUNT"@, "DENSE_RANK"@, "DESC"@, "FALSE"@,
            "FIRST_VALUE"@, "FROM"@, "GROUP"@, "IN"@, "INNER"@, "JOIN"@, "LAG"@, "LAST_VALUE"@,
            "LEAD"@, "LEFT"@, "LIMIT"@, "MAX"@, "MIN"@, "NOT"@, "NULL"@, "ON"@, "OR"@, "ORDER"@,
            "OUTER"@, "OVER"@, "PARTITION"@, "RANK"@, "RIGHT"@, "ROW_NUMBER"@, "SELECT"@, "SUM"@,
            "TRUE"@, "WHERE"@,
        ].contains(w),
{
    let list = seq![
        "AND"@, "AS"@, "ASC"@, "AVG"@, "BY"@, "COUNT"@, "DENSE_RANK"@, "DESC"@, "FALSE"@,
        "FIRST_VALUE"@, "FROM"@, "GROUP"@, "IN"@, "INNER"@, "JOIN"@, "LAG"@, "LAST_VALUE"@,
        "LEAD"@, "LEFT"@, "LIMIT"@, "MAX"@, "MIN"@, "NOT"@, "NULL"@, "ON"@, "OR"@, "ORDER"@,
        "OUTER"@, "OVER"@, "PARTITION"@, "RANK"@, "RIGHT"@, "ROW_NUMBER"@, "SELECT"@, "SUM"@,
        "TRUE"@, "WHERE"@,
    ];
    assert(list[0] == "AND"@ && list[1] == "AS"@ && list[2] == "ASC"@ && list[3] == "AVG"@);
    assert(list[4] == "BY"@ && list[5] == "COUNT"@ && list[6] == "DENSE_RANK"@);
    assert(list[7] == "DESC"@ && list[8] == "FALSE"@ && list[9] == "FIRST_VALUE"@);
    assert(list[10] == "FROM"@ && list[11] == "GROUP"@ && list[12] == "IN"@);
    assert(list[13] == "INNER"@ && list[14] == "JOIN"@ && list[15] == "LAG"@);
    assert(list[16] == "LAST_VALUE"@ && list[17] == "LEAD"@ && list[18] == "LEFT"@);
    assert(list[19] == "LIMIT"@ && list[20] == "MAX"@ && list[21] == "MIN"@ && list[22] == "NOT"@);
    assert(list[23] == "NULL"@ && list[24] == "ON"@ && list[25] == "OR"@ && list[26] == "ORDER"@);
    assert(list[27] == "OUTER"@ && list[28] == "OVER"@ && list[29] == "PARTITION"@);
    assert(list[30] == "RANK"@ && list[31] == "RIGHT"@ && list[32] == "ROW_NUMBER"@);
    assert(list[33] == "SELECT"@ && list[34] == "SUM"@ && list[35] == "TRUE"@);
    assert(list[36] == "WHERE"@);
    assert(list.len() == 37);
}

} // verus!
