//! The line that is being entered, and what each key does to it.

use vstd::prelude::*;

use crate::history::{newer, older, History, MAX_HISTORY};
use crate::keys::Key;
use crate::text::{chars_of, control, is_control, string_of, texts, white_space};
use crate::words::{
    common_prefix, law_common_prefix_is_the_longest, law_word_left_goes_over_one_word,
    law_word_left_stops_at_a_word, law_word_right_goes_over_one_word,
    law_word_right_stops_at_a_word, longest_common_prefix, word_left, word_right, word_start_after,
    word_start_before,
};

verus! {

/// A line, the position of the cursor in it, counted in characters, and the
/// history entry that is shown in its place, if any.
pub struct Line {
    pub text: Seq<char>,
    pub cursor: int,
    pub entry: Option<usize>,
}

impl Line {
    /// The cursor lies within the line or right behind it, and the entry is one
    /// that a history can have.
    pub open spec fn valid(self) -> bool {
        &&& 0 <= self.cursor <= self.text.len()
        &&& self.entry matches Some(i) ==> i < MAX_HISTORY
    }

    /// The same line with the cursor elsewhere.
    pub open spec fn at(self, cursor: int) -> Line {
        Line { cursor, ..self }
    }

    /// The line without the characters `from..to`, and the cursor at `from`.
    pub open spec fn cut(self, from: int, to: int) -> Line {
        Line { text: self.text.take(from) + self.text.skip(to), cursor: from, ..self }
    }

    /// The line with `with` in place of the characters `from..to`, and the cursor
    /// behind it.
    pub open spec fn replaced(self, from: int, to: int, with: Seq<char>) -> Line {
        Line {
            text: self.text.take(from) + with + self.text.skip(to),
            cursor: from + with.len(),
            ..self
        }
    }
}

/// A line that shows `text`, with the cursor at its end.
pub open spec fn recalled(text: Seq<char>, entry: Option<usize>) -> Line {
    Line { text, cursor: text.len() as int, entry }
}

/// What a key asks for.
pub enum Action {
    /// The line becomes this one, and nothing is displayed.
    Still(Line),
    /// The line becomes this one and is displayed.
    Show(Line),
    /// The screen is cleared, and the line displayed at its top.
    Clear,
    /// The line is handed over.
    Submit,
    /// Entering the line is given up.
    Interrupt,
    /// The input ends.
    Finish,
    /// The word at the cursor is completed.
    Complete,
}

pub open spec fn erase_before(l: Line) -> Action {
    if l.cursor > 0 {
        Action::Show(l.cut(l.cursor - 1, l.cursor))
    } else {
        Action::Still(l)
    }
}

pub open spec fn erase_at(l: Line) -> Action {
    if l.cursor < l.text.len() {
        Action::Show(l.cut(l.cursor, l.cursor + 1))
    } else {
        Action::Still(l)
    }
}

pub open spec fn step_left(l: Line) -> Action {
    if l.cursor > 0 {
        Action::Show(l.at(l.cursor - 1))
    } else {
        Action::Still(l)
    }
}

pub open spec fn step_right(l: Line) -> Action {
    if l.cursor < l.text.len() {
        Action::Show(l.at(l.cursor + 1))
    } else {
        Action::Still(l)
    }
}

/// Shows the entry before the one that is shown, if there is any history.
pub open spec fn step_older(l: Line, history: Seq<Seq<char>>) -> Action {
    let i = older(history.len(), l.entry);
    if history.len() == 0 {
        Action::Still(l)
    } else if i < history.len() {
        Action::Show(recalled(history[i], Some(i as usize)))
    } else {
        Action::Still(Line { entry: Some(i as usize), ..l })
    }
}

/// Shows the entry after the one that is shown; behind the newest, an empty line.
pub open spec fn step_newer(l: Line, history: Seq<Seq<char>>) -> Action {
    match newer(history.len(), l.entry) {
        Some(i) => Action::Show(recalled(history[i], Some(i as usize))),
        None => Action::Show(recalled(seq![], None)),
    }
}

/// What a character does: control characters are the usual Emacs bindings, any
/// other character is inserted.
pub open spec fn char_action(l: Line, history: Seq<Seq<char>>, c: char) -> Action {
    let end = l.text.len() as int;
    if c == '\n' || c == '\r' {
        Action::Submit
    } else if c == '\x03' {
        Action::Interrupt
    } else if c == '\x04' {
        if end == 0 {
            Action::Finish
        } else {
            Action::Still(l)
        }
    } else if c == '\x7f' {
        erase_before(l)
    } else if c == '\x01' {
        Action::Show(l.at(0))
    } else if c == '\x05' {
        Action::Show(l.at(end))
    } else if c == '\x02' {
        step_left(l)
    } else if c == '\x06' {
        step_right(l)
    } else if c == '\x0b' {
        Action::Show(l.cut(l.cursor, end))
    } else if c == '\x15' {
        Action::Show(l.cut(0, l.cursor))
    } else if c == '\x17' {
        Action::Show(l.cut(word_left(l.text, l.cursor), l.cursor))
    } else if c == '\x0c' {
        Action::Clear
    } else if c == '\t' {
        Action::Complete
    } else if c == '\x10' {
        step_older(l, history)
    } else if c == '\x0e' {
        step_newer(l, history)
    } else if control(c) {
        Action::Still(l)
    } else {
        Action::Show(l.replaced(l.cursor, l.cursor, seq![c]))
    }
}

/// What a key does to a line, with a given history behind it.
pub open spec fn key_action(l: Line, history: Seq<Seq<char>>, key: Key) -> Action {
    match key {
        Key::Char(c) => char_action(l, history, c),
        Key::Alt(c) => if c == 'b' {
            Action::Show(l.at(word_left(l.text, l.cursor)))
        } else if c == 'f' {
            Action::Show(l.at(word_right(l.text, l.cursor)))
        } else {
            Action::Still(l)
        },
        Key::Up => step_older(l, history),
        Key::Down => step_newer(l, history),
        Key::Left => step_left(l),
        Key::Right => step_right(l),
        Key::Backspace => erase_before(l),
        Key::Delete => erase_at(l),
        Key::Home => Action::Show(l.at(0)),
        Key::End => Action::Show(l.at(l.text.len() as int)),
        Key::Unknown => Action::Still(l),
    }
}

/// What is put in place of the word that is completed: the only candidate, or as
/// much as several candidates share, if that is longer than the `typed`
/// characters.
pub open spec fn replacement(found: Seq<Seq<char>>, typed: int) -> Option<Seq<char>> {
    if found.len() == 0 {
        None
    } else if found.len() == 1 {
        Some(found[0])
    } else if common_prefix(found).len() > typed {
        Some(common_prefix(found))
    } else {
        None
    }
}

/// The line with the word from `start` to the cursor completed, if it can be.
pub open spec fn completed(l: Line, start: int, found: Seq<Seq<char>>) -> Option<Line> {
    match replacement(found, l.cursor - start) {
        Some(with) => Some(l.replaced(start, l.cursor, with)),
        None => None,
    }
}

/// What remains to be done once a key has been applied to a line.
#[derive(Debug, Clone, Copy, PartialEq, Eq, Structural)]
pub enum Effect {
    Still,
    Show,
    Clear,
    Submit,
    Interrupt,
    Finish,
    Complete,
}

/// `effect` and the line `after` are what `action` asks for, from the line `before`.
pub open spec fn carried_out(action: Action, before: Line, effect: Effect, after: Line) -> bool {
    match action {
        Action::Still(l) => effect is Still && after == l,
        Action::Show(l) => effect is Show && after == l,
        Action::Clear => effect is Clear && after == before,
        Action::Submit => effect is Submit && after == before,
        Action::Interrupt => effect is Interrupt && after == before,
        Action::Finish => effect is Finish && after == before,
        Action::Complete => effect is Complete && after == before,
    }
}

/// The line that is being entered.
pub struct LineBuffer {
    text: Vec<char>,
    cursor: usize,
    entry: Option<usize>,
}

impl View for LineBuffer {
    type V = Line;

    closed spec fn view(&self) -> Line {
        Line { text: self.text@, cursor: self.cursor as int, entry: self.entry }
    }
}

impl LineBuffer {
    /// An empty line.
    pub fn new() -> (b: Self)
        ensures
            b@ == recalled(seq![], None),
            b@.valid(),
    {
        LineBuffer { text: Vec::new(), cursor: 0, entry: None }
    }

    /// The text of the line.
    pub fn text(&self) -> (s: String)
        ensures
            s@ == self@.text,
    {
        string_of(self.text.as_slice())
    }

    /// The position of the cursor, in characters.
    pub fn cursor(&self) -> (n: usize)
        ensures
            n == self@.cursor,
    {
        self.cursor
    }

    fn cut(&mut self, from: usize, to: usize)
        requires
            from <= to <= old(self)@.text.len(),
        ensures
            final(self)@ == old(self)@.cut(from as int, to as int),
    {
        let mut tail = self.text.split_off(to);
        self.text.truncate(from);
        self.text.append(&mut tail);
        self.cursor = from;
        assert(self@.text =~= old(self)@.cut(from as int, to as int).text);
    }

    fn replace(&mut self, from: usize, to: usize, with: &str)
        requires
            from <= to <= old(self)@.text.len(),
        ensures
            final(self)@ == old(self)@.replaced(from as int, to as int, with@),
    {
        let mut tail = self.text.split_off(to);
        self.text.truncate(from);
        let mut middle = chars_of(with);
        self.text.append(&mut middle);
        self.cursor = self.text.len();
        self.text.append(&mut tail);
        assert(self@.text =~= old(self)@.replaced(from as int, to as int, with@).text);
    }

    fn recall(&mut self, text: &str)
        ensures
            final(self)@ == recalled(text@, old(self)@.entry),
    {
        self.text = chars_of(text);
        self.cursor = self.text.len();
    }

    fn older(&mut self, history: &History) -> (effect: Effect)
        requires
            old(self)@.valid(),
            history.wf(),
        ensures
            carried_out(step_older(old(self)@, history@), old(self)@, effect, final(self)@),
    {
        let mut entry = self.entry;
        let found = history.prev(&mut entry);
        self.entry = entry;
        match found {
            Some(text) => {
                self.recall(text);
                Effect::Show
            },
            None => Effect::Still,
        }
    }

    fn newer(&mut self, history: &History) -> (effect: Effect)
        requires
            old(self)@.valid(),
            history.wf(),
        ensures
            carried_out(step_newer(old(self)@, history@), old(self)@, effect, final(self)@),
    {
        let mut entry = self.entry;
        let found = history.next(&mut entry);
        self.entry = entry;
        match found {
            Some(text) => {
                self.recall(text);
            },
            None => {
                self.text.clear();
                self.cursor = 0;
            },
        }
        Effect::Show
    }

    fn erase_before(&mut self) -> (effect: Effect)
        requires
            old(self)@.valid(),
        ensures
            carried_out(erase_before(old(self)@), old(self)@, effect, final(self)@),
    {
        if self.cursor > 0 {
            let cursor = self.cursor;
            self.cut(cursor - 1, cursor);
            Effect::Show
        } else {
            Effect::Still
        }
    }

    fn left(&mut self) -> (effect: Effect)
        requires
            old(self)@.valid(),
        ensures
            carried_out(step_left(old(self)@), old(self)@, effect, final(self)@),
    {
        if self.cursor > 0 {
            self.cursor = self.cursor - 1;
            Effect::Show
        } else {
            Effect::Still
        }
    }

    fn right(&mut self) -> (effect: Effect)
        requires
            old(self)@.valid(),
        ensures
            carried_out(step_right(old(self)@), old(self)@, effect, final(self)@),
    {
        if self.cursor < self.text.len() {
            self.cursor = self.cursor + 1;
            Effect::Show
        } else {
            Effect::Still
        }
    }

    fn apply_char(&mut self, history: &History, c: char) -> (effect: Effect)
        requires
            old(self)@.valid(),
            history.wf(),
        ensures
            carried_out(char_action(old(self)@, history@, c), old(self)@, effect, final(self)@),
    {
        let cursor = self.cursor;
        let end = self.text.len();
        if c == '\n' || c == '\r' {
            Effect::Submit
        } else if c == '\x03' {
            Effect::Interrupt
        } else if c == '\x04' {
            if end == 0 {
                Effect::Finish
            } else {
                Effect::Still
            }
        } else if c == '\x7f' {
            self.erase_before()
        } else if c == '\x01' {
            self.cursor = 0;
            Effect::Show
        } else if c == '\x05' {
            self.cursor = end;
            Effect::Show
        } else if c == '\x02' {
            self.left()
        } else if c == '\x06' {
            self.right()
        } else if c == '\x0b' {
            self.cut(cursor, end);
            Effect::Show
        } else if c == '\x15' {
            self.cut(0, cursor);
            Effect::Show
        } else if c == '\x17' {
            let start = word_start_before(self.text.as_slice(), cursor);
            self.cut(start, cursor);
            Effect::Show
        } else if c == '\x0c' {
            Effect::Clear
        } else if c == '\t' {
            Effect::Complete
        } else if c == '\x10' {
            self.older(history)
        } else if c == '\x0e' {
            self.newer(history)
        } else if is_control(c) {
            Effect::Still
        } else {
            self.text.insert(cursor, c);
            assert(self.text.len() == end + 1);
            self.cursor = cursor + 1;
            assert(self@.text =~= old(self)@.replaced(
                cursor as int,
                cursor as int,
                seq![c],
            ).text);
            Effect::Show
        }
    }

    /// Applies a key to the line, and says what remains to be done.
    pub fn apply(&mut self, history: &History, key: Key) -> (effect: Effect)
        requires
            old(self)@.valid(),
            history.wf(),
        ensures
            carried_out(key_action(old(self)@, history@, key), old(self)@, effect, final(self)@),
            final(self)@.valid(),
    {
        proof {
            law_keys_keep_the_line_valid(self@, history@, key);
        }
        match key {
            Key::Char(c) => self.apply_char(history, c),
            Key::Alt(c) => {
                if c == 'b' {
                    self.cursor = word_start_before(self.text.as_slice(), self.cursor);
                    Effect::Show
                } else if c == 'f' {
                    self.cursor = word_start_after(self.text.as_slice(), self.cursor);
                    Effect::Show
                } else {
                    Effect::Still
                }
            },
            Key::Up => self.older(history),
            Key::Down => self.newer(history),
            Key::Left => self.left(),
            Key::Right => self.right(),
            Key::Backspace => self.erase_before(),
            Key::Delete => {
                let cursor = self.cursor;
                if cursor < self.text.len() {
                    self.cut(cursor, cursor + 1);
                    Effect::Show
                } else {
                    Effect::Still
                }
            },
            Key::Home => {
                self.cursor = 0;
                Effect::Show
            },
            Key::End => {
                self.cursor = self.text.len();
                Effect::Show
            },
            Key::Unknown => Effect::Still,
        }
    }

    /// Completes the word that begins at `start` and ends at the cursor, given its
    /// candidates. Says whether there was anything to complete it with.
    pub fn complete(&mut self, start: usize, candidates: &[String]) -> (changed: bool)
        requires
            old(self)@.valid(),
            candidates@.len() > 0 ==> start <= old(self)@.cursor,
        ensures
            match completed(old(self)@, start as int, texts(candidates@)) {
                Some(l) => changed && final(self)@ == l,
                None => !changed && final(self)@ == old(self)@,
            },
            final(self)@.valid(),
    {
        let cursor = self.cursor;
        if candidates.len() == 0 {
            false
        } else if candidates.len() == 1 {
            self.replace(start, cursor, candidates[0].as_str());
            true
        } else {
            let shared = longest_common_prefix(candidates);
            if shared.as_str().unicode_len() > cursor - start {
                self.replace(start, cursor, shared.as_str());
                true
            } else {
                false
            }
        }
    }
}

/// The line that an action leads to, if it leads to one.
pub open spec fn outcome(action: Action) -> Option<Line> {
    match action {
        Action::Still(l) => Some(l),
        Action::Show(l) => Some(l),
        _ => None,
    }
}

/// Whatever the key, the cursor stays within the line.
pub proof fn law_keys_keep_the_line_valid(l: Line, history: Seq<Seq<char>>, key: Key)
    requires
        l.valid(),
        history.len() <= MAX_HISTORY,
    ensures
        outcome(key_action(l, history, key)) matches Some(next) ==> next.valid(),
{
    law_word_left_stops_at_a_word(l.text, l.cursor);
    law_word_right_stops_at_a_word(l.text, l.cursor);
}

/// Completing a word leaves the cursor within the line.
pub proof fn law_completion_keeps_the_line_valid(l: Line, start: int, found: Seq<Seq<char>>)
    requires
        l.valid(),
        found.len() > 0 ==> 0 <= start <= l.cursor,
    ensures
        completed(l, start, found) matches Some(next) ==> next.valid(),
{
}

/// The control characters that name a key do what the key does.
pub proof fn law_control_characters_name_keys(l: Line, history: Seq<Seq<char>>)
    ensures
        key_action(l, history, Key::Char('\x01')) == key_action(l, history, Key::Home),
        key_action(l, history, Key::Char('\x05')) == key_action(l, history, Key::End),
        key_action(l, history, Key::Char('\x02')) == key_action(l, history, Key::Left),
        key_action(l, history, Key::Char('\x06')) == key_action(l, history, Key::Right),
        key_action(l, history, Key::Char('\x10')) == key_action(l, history, Key::Up),
        key_action(l, history, Key::Char('\x0e')) == key_action(l, history, Key::Down),
        key_action(l, history, Key::Char('\x7f')) == key_action(l, history, Key::Backspace),
{
}

/// Erasing backwards takes back the character that was just typed.
pub proof fn law_backspace_undoes_typing(l: Line, history: Seq<Seq<char>>, c: char)
    requires
        l.valid(),
        !control(c),
    ensures
        key_action(l, history, Key::Char(c)) matches Action::Show(typed) && key_action(
            typed,
            history,
            Key::Backspace,
        ) == Action::Show(l),
{
    let typed = l.replaced(l.cursor, l.cursor, seq![c]);
    assert(typed.cut(typed.cursor - 1, typed.cursor).text == l.text);
}

/// A step to the left undoes a step to the right.
pub proof fn law_left_undoes_right(l: Line, history: Seq<Seq<char>>)
    requires
        l.valid(),
        l.cursor < l.text.len(),
    ensures
        key_action(l, history, Key::Right) matches Action::Show(moved) && key_action(
            moved,
            history,
            Key::Left,
        ) == Action::Show(l),
{
}

/// Killing a word backwards takes out what a step back by a word goes over, and
/// leaves the cursor where that step leaves it.
pub proof fn law_word_kill_follows_word_motion(l: Line, history: Seq<Seq<char>>)
    ensures
        key_action(l, history, Key::Alt('b')) matches Action::Show(moved) && key_action(
            l,
            history,
            Key::Char('\x17'),
        ) == Action::Show(l.cut(moved.cursor, l.cursor)),
{
}

/// Killing to the start and killing to the end of the line together leave nothing.
pub proof fn law_kills_empty_the_line(l: Line, history: Seq<Seq<char>>)
    requires
        l.valid(),
    ensures
        key_action(l, history, Key::Char('\x15')) matches Action::Show(rest) && (key_action(
            rest,
            history,
            Key::Char('\x0b'),
        ) matches Action::Show(none) && none.text.len() == 0 && none.cursor == 0),
{
}

/// Going up and then down again from a fresh line ends with an empty line, below
/// the newest entry.
pub proof fn law_down_after_up_is_a_blank_line(l: Line, history: Seq<Seq<char>>)
    requires
        0 < history.len() <= MAX_HISTORY,
        l.entry is None,
    ensures
        key_action(l, history, Key::Up) matches Action::Show(newest) && newest.text
            == history.last() && key_action(newest, history, Key::Down) == Action::Show(
            recalled(seq![], None),
        ),
{
}

/// A character that is typed stands in the line at the cursor, and the cursor behind it.
pub proof fn law_typing_inserts_at_the_cursor(l: Line, history: Seq<Seq<char>>, c: char)
    requires
        l.valid(),
        !control(c),
    ensures
        key_action(l, history, Key::Char(c)) matches Action::Show(n) && n.text == l.text.insert(
            l.cursor,
            c,
        ) && n.cursor == l.cursor + 1 && n.entry == l.entry,
{
    assert(l.replaced(l.cursor, l.cursor, seq![c]).text =~= l.text.insert(l.cursor, c));
}

/// Backspace takes out the one character in front of the cursor, if there is one.
pub proof fn law_backspace_takes_out_the_character_before(l: Line, history: Seq<Seq<char>>)
    requires
        l.valid(),
    ensures
        l.cursor > 0 ==> (key_action(l, history, Key::Backspace) matches Action::Show(n) && n.text
            == l.text.remove(l.cursor - 1) && n.cursor == l.cursor - 1 && n.entry == l.entry),
        l.cursor == 0 ==> key_action(l, history, Key::Backspace) == Action::Still(l),
{
    if l.cursor > 0 {
        assert(l.cut(l.cursor - 1, l.cursor).text =~= l.text.remove(l.cursor - 1));
    }
}

/// Delete takes out the one character at the cursor, if there is one, and the cursor
/// stays.
pub proof fn law_delete_takes_out_the_character_at_the_cursor(l: Line, history: Seq<Seq<char>>)
    requires
        l.valid(),
    ensures
        l.cursor < l.text.len() ==> (key_action(l, history, Key::Delete) matches Action::Show(n)
            && n.text == l.text.remove(l.cursor) && n.cursor == l.cursor && n.entry == l.entry),
        l.cursor == l.text.len() ==> key_action(l, history, Key::Delete) == Action::Still(l),
{
    if l.cursor < l.text.len() {
        assert(l.cut(l.cursor, l.cursor + 1).text =~= l.text.remove(l.cursor));
    }
}

/// The keys that move the cursor leave the text alone. They go to the start, to the end,
/// or one character on, as far as there is one.
pub proof fn law_motions_move_only_the_cursor(l: Line, history: Seq<Seq<char>>)
    requires
        l.valid(),
    ensures
        key_action(l, history, Key::Home) matches Action::Show(n) && n.text == l.text && n.cursor
            == 0 && n.entry == l.entry,
        key_action(l, history, Key::End) matches Action::Show(n) && n.text == l.text && n.cursor
            == l.text.len() && n.entry == l.entry,
        l.cursor > 0 ==> (key_action(l, history, Key::Left) matches Action::Show(n) && n.text
            == l.text && n.cursor == l.cursor - 1 && n.entry == l.entry),
        l.cursor == 0 ==> key_action(l, history, Key::Left) == Action::Still(l),
        l.cursor < l.text.len() ==> (key_action(l, history, Key::Right) matches Action::Show(n)
            && n.text == l.text && n.cursor == l.cursor + 1 && n.entry == l.entry),
        l.cursor == l.text.len() ==> key_action(l, history, Key::Right) == Action::Still(l),
{
}

/// Killing to the end leaves what is in front of the cursor and nothing behind it.
pub proof fn law_kill_to_the_end(l: Line, history: Seq<Seq<char>>)
    requires
        l.valid(),
    ensures
        key_action(l, history, Key::Char('\x0b')) matches Action::Show(n) && n.text == l.text.take(
            l.cursor,
        ) && n.cursor == l.cursor && n.entry == l.entry,
{
    assert(l.cut(l.cursor, l.text.len() as int).text =~= l.text.take(l.cursor));
}

/// Killing to the start leaves what is behind the cursor and nothing in front of it.
pub proof fn law_kill_to_the_start(l: Line, history: Seq<Seq<char>>)
    requires
        l.valid(),
    ensures
        key_action(l, history, Key::Char('\x15')) matches Action::Show(n) && n.text == l.text.skip(
            l.cursor,
        ) && n.cursor == 0 && n.entry == l.entry,
{
    assert(l.cut(0, l.cursor).text =~= l.text.skip(l.cursor));
}

/// Killing a word takes out the word in front of the cursor and the white space between
/// them: `p..m` is the word, `m` to the cursor the white space. The rest stays, and the
/// cursor goes to where the word began.
pub proof fn law_kill_the_word_before(l: Line, history: Seq<Seq<char>>) -> (r: (int, int))
    requires
        l.valid(),
    ensures
        ({
            let (p, m) = r;
            &&& 0 <= p <= m <= l.cursor
            &&& forall|k: int| p <= k < m ==> !white_space(#[trigger] l.text[k])
            &&& forall|k: int| m <= k < l.cursor ==> white_space(#[trigger] l.text[k])
            &&& p > 0 ==> white_space(l.text[p - 1]) && p < m
            &&& key_action(l, history, Key::Char('\x17')) matches Action::Show(n) && n.text
                == l.text.take(p) + l.text.skip(l.cursor) && n.cursor == p && n.entry == l.entry
        }),
{
    let m = law_word_left_goes_over_one_word(l.text, l.cursor);
    (word_left(l.text, l.cursor), m)
}

/// A step back by a word goes over the white space in front of the cursor, which begins
/// at `m`, and over the word in front of that. It leaves the text alone.
pub proof fn law_step_back_by_a_word(l: Line, history: Seq<Seq<char>>) -> (m: int)
    requires
        l.valid(),
    ensures
        key_action(l, history, Key::Alt('b')) matches Action::Show(n) && n.text == l.text && n.entry
            == l.entry && 0 <= n.cursor <= m <= l.cursor && (forall|k: int|
            n.cursor <= k < m ==> !white_space(#[trigger] l.text[k])) && (forall|k: int|
            m <= k < l.cursor ==> white_space(#[trigger] l.text[k])) && (n.cursor > 0
            ==> white_space(l.text[n.cursor - 1]) && n.cursor < m),
{
    law_word_left_goes_over_one_word(l.text, l.cursor)
}

/// A step on by a word goes over the rest of the word at the cursor, which ends at `m`,
/// and over the white space behind that. It leaves the text alone.
pub proof fn law_step_on_by_a_word(l: Line, history: Seq<Seq<char>>) -> (m: int)
    requires
        l.valid(),
    ensures
        key_action(l, history, Key::Alt('f')) matches Action::Show(n) && n.text == l.text && n.entry
            == l.entry && l.cursor <= m <= n.cursor <= l.text.len() && (forall|k: int|
            l.cursor <= k < m ==> !white_space(#[trigger] l.text[k])) && (forall|k: int|
            m <= k < n.cursor ==> white_space(#[trigger] l.text[k])) && (n.cursor < l.text.len()
            ==> !white_space(l.text[n.cursor]) && m < n.cursor),
{
    law_word_right_goes_over_one_word(l.text, l.cursor)
}

/// Going up shows the newest entry first, and from an entry the one before it; at the
/// oldest it stays. The cursor is at the end. Without a history nothing happens.
pub proof fn law_up_shows_the_entry_before(l: Line, history: Seq<Seq<char>>)
    requires
        l.valid(),
        history.len() <= MAX_HISTORY,
    ensures
        history.len() == 0 ==> key_action(l, history, Key::Up) == Action::Still(l),
        history.len() > 0 && l.entry is None ==> key_action(l, history, Key::Up) == Action::Show(
            (Line {
                text: history.last(),
                cursor: history.last().len() as int,
                entry: Some((history.len() - 1) as usize),
            }),
        ),
        l.entry matches Some(i) ==> (0 < i <= history.len() ==> key_action(l, history, Key::Up)
            == Action::Show(
            (Line {
                text: history[i - 1],
                cursor: history[i - 1].len() as int,
                entry: Some((i - 1) as usize),
            }),
        )),
        l.entry == Some(0usize) && history.len() > 0 ==> key_action(l, history, Key::Up)
            == Action::Show(
            (Line { text: history[0], cursor: history[0].len() as int, entry: Some(0usize) }),
        ),
        l.entry matches Some(i) ==> (i > history.len() > 0 ==> key_action(l, history, Key::Up)
            == Action::Still(
            (Line { text: l.text, cursor: l.cursor, entry: Some((i - 1) as usize) }),
        )),
{
}

/// Going down from an entry shows the one behind it. From the newest, and from a line
/// that is no entry, it leads to an empty line.
pub proof fn law_down_shows_the_entry_behind(l: Line, history: Seq<Seq<char>>)
    requires
        l.valid(),
        history.len() <= MAX_HISTORY,
    ensures
        l.entry matches Some(i) ==> (i + 1 < history.len() ==> key_action(l, history, Key::Down)
            == Action::Show(
            (Line {
                text: history[i + 1],
                cursor: history[i + 1].len() as int,
                entry: Some((i + 1) as usize),
            }),
        )),
        (l.entry is None || l.entry->0 + 1 >= history.len()) ==> key_action(l, history, Key::Down)
            == Action::Show((Line { text: seq![], cursor: 0, entry: None })),
{
}

/// Enter hands the line over, Ctrl-C gives it up, and Ctrl-D ends the input where the
/// line is empty and does nothing where it is not; Ctrl-L clears the screen, and Tab
/// completes a word.
pub proof fn law_keys_that_do_not_edit(l: Line, history: Seq<Seq<char>>)
    ensures
        key_action(l, history, Key::Char('\n')) is Submit,
        key_action(l, history, Key::Char('\r')) is Submit,
        key_action(l, history, Key::Char('\x03')) is Interrupt,
        l.text.len() == 0 ==> key_action(l, history, Key::Char('\x04')) is Finish,
        l.text.len() > 0 ==> key_action(l, history, Key::Char('\x04')) == Action::Still(l),
        key_action(l, history, Key::Char('\x0c')) is Clear,
        key_action(l, history, Key::Char('\t')) is Complete,
{
}

/// Every other control character, every other key with Alt and every unknown key does
/// nothing.
pub proof fn law_other_keys_do_nothing(l: Line, history: Seq<Seq<char>>, c: char)
    ensures
        control(c) && c != '\n' && c != '\r' && c != '\t' && c != '\x7f' && !('\x01' <= c <= '\x06')
            && c != '\x0b' && c != '\x0c' && c != '\x0e' && c != '\x10' && c != '\x15' && c
            != '\x17' ==> key_action(l, history, Key::Char(c)) == Action::Still(l),
        c != 'b' && c != 'f' ==> key_action(l, history, Key::Alt(c)) == Action::Still(l),
        key_action(l, history, Key::Unknown) == Action::Still(l),
{
}

/// What is left to do once a key was applied is what the key asks for, and the line is
/// then the one that the key leads to, or the same.
pub proof fn law_effects_are_what_keys_ask_for(
    action: Action,
    before: Line,
    effect: Effect,
    after: Line,
)
    requires
        carried_out(action, before, effect, after),
    ensures
        action matches Action::Still(l) ==> effect is Still && after == l,
        action matches Action::Show(l) ==> effect is Show && after == l,
        action is Clear ==> effect is Clear && after == before,
        action is Submit ==> effect is Submit && after == before,
        action is Interrupt ==> effect is Interrupt && after == before,
        action is Finish ==> effect is Finish && after == before,
        action is Complete ==> effect is Complete && after == before,
{
}

/// A single candidate is put whole in place of the word, with the cursor behind it.
/// Without candidates the line stays as it is.
pub proof fn law_one_candidate_is_put_in_whole(l: Line, start: int, candidate: Seq<char>)
    requires
        l.valid(),
        0 <= start <= l.cursor,
    ensures
        completed(l, start, seq![candidate]) matches Some(n) && n.text == l.text.take(start)
            + candidate + l.text.skip(l.cursor) && n.cursor == start + candidate.len() && n.entry
            == l.entry,
        completed(l, start, seq![]) is None,
{
}

/// Several candidates put in place of the word the longest text that all of them begin
/// with, if that is longer than the word. If not, the line stays as it is.
pub proof fn law_several_candidates_put_in_what_they_share(
    l: Line,
    start: int,
    found: Seq<Seq<char>>,
) -> (common: Seq<char>)
    requires
        l.valid(),
        0 <= start <= l.cursor,
        found.len() >= 2,
    ensures
        forall|i: int| 0 <= i < found.len() ==> common.is_prefix_of(#[trigger] found[i]),
        forall|p: Seq<char>|
            (forall|i: int| 0 <= i < found.len() ==> p.is_prefix_of(#[trigger] found[i]))
                ==> #[trigger] p.is_prefix_of(common),
        common.len() <= l.cursor - start ==> completed(l, start, found) is None,
        common.len() > l.cursor - start ==> (completed(l, start, found) matches Some(n) && n.text
            == l.text.take(start) + common + l.text.skip(l.cursor) && n.cursor == start
            + common.len() && n.entry == l.entry),
{
    law_common_prefix_is_the_longest(found);
    common_prefix(found)
}

} // verus!
