//! What is gathered while the user types: the word in progress and the words before it.

use vstd::prelude::*;

use std::collections::VecDeque;

use crate::text;
use crate::unicode;

verus! {

/// What a [`WordBuffer`] holds.
#[verifier::ext_equal]
pub struct Typed {
    /// The characters of the word, in the order of typing.
    pub chars: Seq<char>,
    /// The key that gave each character.
    pub keycodes: Seq<u16>,
    /// The layout that was active at the first character; none while the word is empty.
    pub layout: Option<Seq<char>>,
}

impl Typed {
    /// No word has been started.
    pub open spec fn nothing() -> Typed {
        Typed { chars: Seq::empty(), keycodes: Seq::empty(), layout: None }
    }

    /// One key for each character, and a layout exactly when there is a character.
    pub open spec fn wf(self) -> bool {
        &&& self.chars.len() == self.keycodes.len()
        &&& self.layout is Some <==> self.chars.len() > 0
    }

    /// After one more character. The first one fixes the layout.
    pub open spec fn pushed(self, ch: char, layout: Seq<char>, evdev_code: u16) -> Typed {
        Typed {
            chars: self.chars.push(ch),
            keycodes: self.keycodes.push(evdev_code),
            layout: if self.chars.len() == 0 {
                Some(layout)
            } else {
                self.layout
            },
        }
    }

    /// After the last character was removed. The layout goes with the last one.
    pub open spec fn popped(self) -> Typed {
        if self.chars.len() <= 1 {
            Typed::nothing()
        } else {
            Typed {
                chars: self.chars.drop_last(),
                keycodes: self.keycodes.drop_last(),
                layout: self.layout,
            }
        }
    }

    /// After a series of keystrokes, each a character, a layout and a key.
    pub open spec fn after(self, strokes: Seq<(char, Seq<char>, u16)>) -> Typed
        decreases strokes.len(),
    {
        if strokes.len() == 0 {
            self
        } else {
            let (ch, layout, code) = strokes.last();
            self.after(strokes.drop_last()).pushed(ch, layout, code)
        }
    }
}

/// The word in progress. It ends at a word boundary, where [`WordBuffer::take`] hands it out.
#[derive(Debug)]
pub struct WordBuffer {
    chars: String,
    /// The raw evdev code of each character's key. To rewrite a word in the other layout the
    /// same keys are sent again after the system layout was switched.
    keycodes: Vec<u16>,
    /// The layout in which the word was started. A later switch does not change it.
    started_in_layout: Option<String>,
}

impl View for WordBuffer {
    type V = Typed;

    closed spec fn view(&self) -> Typed {
        Typed {
            chars: self.chars@,
            keycodes: self.keycodes@,
            layout: match self.started_in_layout {
                Some(l) => Some(l@),
                None => None,
            },
        }
    }
}

impl Default for WordBuffer {
    /// A buffer with no word in it.
    fn default() -> (b: WordBuffer)
        ensures
            b@ == Typed::nothing(),
            b.wf(),
    {
        WordBuffer { chars: String::new(), keycodes: Vec::new(), started_in_layout: None }
    }
}

impl WordBuffer {
    /// One key for each character, and a layout exactly when there is a character.
    pub open spec fn wf(&self) -> bool {
        self@.wf()
    }

    /// Adds a character that the key `evdev_code` gave in `layout`.
    pub fn push(&mut self, ch: char, layout: &str, evdev_code: u16)
        requires
            old(self).wf(),
        ensures
            final(self).wf(),
            final(self)@ == old(self)@.pushed(ch, layout@, evdev_code),
    {
        if self.chars.as_str().is_empty() {
            self.started_in_layout = Some(text::owned(layout));
        }
        self.chars.push(ch);
        self.keycodes.push(evdev_code);
    }

    /// Removes the last character, if there is one, and returns it.
    pub fn pop(&mut self) -> (c: Option<char>)
        requires
            old(self).wf(),
        ensures
            final(self).wf(),
            final(self)@ == old(self)@.popped(),
            c == (if old(self)@.chars.len() == 0 {
                None
            } else {
                Some(old(self)@.chars.last())
            }),
    {
        let c = self.chars.pop();
        let _ = self.keycodes.pop();
        if self.chars.as_str().is_empty() {
            self.started_in_layout = None;
        }
        proof {
            if old(self)@.chars.len() <= 1 {
                assert(self@ =~= Typed::nothing());
            }
        }
        c
    }

    /// Hands out the word and starts anew.
    pub fn take(&mut self) -> (t: TakenWord)
        requires
            old(self).wf(),
        ensures
            final(self).wf(),
            final(self)@ == Typed::nothing(),
            t.word@ == old(self)@.chars,
            t.keycodes@ == old(self)@.keycodes,
            t.layout@ == (match old(self)@.layout {
                Some(l) => l,
                None => Seq::empty(),
            }),
            t.wf(),
    {
        let mut word = String::new();
        std::mem::swap(&mut word, &mut self.chars);
        let layout = match self.started_in_layout.take() {
            Some(l) => l,
            None => String::new(),
        };
        let mut keycodes: Vec<u16> = Vec::new();
        std::mem::swap(&mut keycodes, &mut self.keycodes);
        TakenWord { word, layout, keycodes }
    }

    /// The number of characters.
    pub fn len(&self) -> (n: usize)
        ensures
            n == self@.chars.len(),
    {
        self.chars.as_str().unicode_len()
    }

    /// Whether no word has been started.
    pub fn is_empty(&self) -> (r: bool)
        ensures
            r == (self@.chars.len() == 0),
    {
        self.chars.as_str().is_empty()
    }

    /// The word so far.
    pub fn as_str(&self) -> (s: &str)
        ensures
            s@ == self@.chars,
    {
        self.chars.as_str()
    }

    /// The layout in which the word was started.
    pub fn layout(&self) -> (l: Option<&str>)
        ensures
            l is Some <==> self@.layout is Some,
            l is Some ==> l->0@ == self@.layout->0,
    {
        match &self.started_in_layout {
            Some(l) => Some(l.as_str()),
            None => None,
        }
    }
}

/// A finished word.
#[derive(Debug, Clone)]
pub struct TakenWord {
    pub word: String,
    pub layout: String,
    /// The raw evdev codes of the keys, one for each character of `word`.
    pub keycodes: Vec<u16>,
}

impl TakenWord {
    /// One key for each character.
    pub open spec fn wf(&self) -> bool {
        self.keycodes@.len() == self.word@.len()
    }
}

/// The signs that end a word. The apostrophe and the dash are not among them: they stand inside
/// words.
pub open spec fn is_boundary_sign(ch: char) -> bool {
    ch == '.' || ch == ',' || ch == ';' || ch == ':' || ch == '!' || ch == '?' || ch == '(' || ch
        == ')' || ch == '[' || ch == ']' || ch == '{' || ch == '}' || ch == '<' || ch == '>' || ch
        == '"' || ch == '`' || ch == '|' || ch == '\\' || ch == '/' || ch == '@' || ch == '#' || ch
        == '$' || ch == '%' || ch == '^' || ch == '&' || ch == '*' || ch == '+' || ch == '=' || ch
        == '~'
}

/// White space and the signs of [`is_boundary_sign`].
pub open spec fn is_boundary(ch: char) -> bool {
    unicode::is_space(ch) || is_boundary_sign(ch)
}

/// Whether a character ends a word.
pub fn is_word_boundary_char(ch: char) -> (r: bool)
    ensures
        r == is_boundary(ch),
{
    if ch.is_whitespace() {
        return true;
    }
    matches!(
        ch,
        '.' | ',' | ';' | ':' | '!' | '?' |
        '(' | ')' | '[' | ']' | '{' | '}' |
        '<' | '>' | '"' | '`' | '|' | '\\' |
        '/' | '@' | '#' | '$' | '%' | '^' |
        '&' | '*' | '+' | '=' | '~'
    )
}

/// The last `n` items of a list, or all of them if there are fewer.
pub open spec fn last_n<T>(items: Seq<T>, n: nat) -> Seq<T> {
    if items.len() <= n {
        items
    } else {
        items.skip(items.len() - n)
    }
}

/// The last words that were finished, oldest first, at most as many as the capacity.
#[derive(Debug)]
pub struct WordHistory {
    cap: usize,
    words: VecDeque<String>,
}

impl View for WordHistory {
    type V = Seq<Seq<char>>;

    closed spec fn view(&self) -> Seq<Seq<char>> {
        text::texts(self.words@)
    }
}

impl WordHistory {
    /// How many words are kept.
    pub closed spec fn capacity(&self) -> nat {
        self.cap as nat
    }

    /// No more words than the capacity.
    pub open spec fn wf(&self) -> bool {
        self@.len() <= self.capacity()
    }

    /// An empty history that keeps the last `cap` words.
    pub fn new(cap: usize) -> (h: WordHistory)
        ensures
            h.wf(),
            h.capacity() == cap,
            h@ == Seq::<Seq<char>>::empty(),
    {
        let h = WordHistory { cap, words: VecDeque::new() };
        proof {
            assert(h@ =~= Seq::<Seq<char>>::empty());
        }
        h
    }

    /// Adds a word. When the history is full, the oldest one leaves.
    pub fn push(&mut self, word: String)
        requires
            old(self).wf(),
        ensures
            final(self).wf(),
            final(self).capacity() == old(self).capacity(),
            final(self)@ == last_n(old(self)@.push(word@), old(self).capacity()),
    {
        if self.cap == 0 {
            proof {
                assert(self@ =~= last_n(self@.push(word@), 0));
            }
            return;
        }
        let ghost before = self@;
        if self.words.len() == self.cap {
            let _ = self.words.pop_front();
            proof {
                assert(self@ =~= before.skip(1));
            }
        }
        self.words.push_back(word);
        proof {
            assert(self@ =~= last_n(before.push(word@), self.cap as nat));
        }
    }

    /// The words, oldest first.
    pub fn recent(&self) -> (words: Vec<String>)
        ensures
            text::texts(words@) == self@,
    {
        let mut words: Vec<String> = Vec::new();
        let mut i: usize = 0;
        while i < self.words.len()
            invariant
                0 <= i <= self.words@.len(),
                text::texts(words@) == self@.take(i as int),
            decreases self.words@.len() - i,
        {
            let w = self.words[i].clone();
            proof {
                assert(text::texts(words@.push(w)) =~= text::texts(words@).push(w@));
                assert(self@.take(i + 1) =~= self@.take(i as int).push(self@[i as int]));
            }
            words.push(w);
            i += 1;
        }
        proof {
            assert(self@.take(self@.len() as int) =~= self@);
        }
        words
    }
}

/// The history after a series of words.
pub open spec fn history_after(cap: nat, words: Seq<Seq<char>>) -> Seq<Seq<char>>
    decreases words.len(),
{
    if words.len() == 0 {
        Seq::empty()
    } else {
        last_n(history_after(cap, words.drop_last()).push(words.last()), cap)
    }
}

/// Removing the last character undoes adding it: the buffer is as it was before.
pub proof fn law_pop_undoes_push(t: Typed, ch: char, layout: Seq<char>, evdev_code: u16)
    requires
        t.wf(),
    ensures
        t.pushed(ch, layout, evdev_code).popped() == t,
{
    let p = t.pushed(ch, layout, evdev_code);
    if t.chars.len() == 0 {
        assert(t =~= Typed::nothing());
    } else {
        assert(p.chars.drop_last() =~= t.chars);
        assert(p.keycodes.drop_last() =~= t.keycodes);
    }
}

/// A buffer that started empty holds the characters and the keys of all the keystrokes, in
/// order, and the layout of the first one.
pub proof fn law_buffer_holds_what_was_typed(strokes: Seq<(char, Seq<char>, u16)>)
    ensures
        Typed::nothing().after(strokes).wf(),
        Typed::nothing().after(strokes).chars == strokes.map_values(
            |s: (char, Seq<char>, u16)| s.0,
        ),
        Typed::nothing().after(strokes).keycodes == strokes.map_values(
            |s: (char, Seq<char>, u16)| s.2,
        ),
        Typed::nothing().after(strokes).layout == (if strokes.len() == 0 {
            None
        } else {
            Some(strokes[0].1)
        }),
    decreases strokes.len(),
{
    let after = Typed::nothing().after(strokes);
    if strokes.len() > 0 {
        law_buffer_holds_what_was_typed(strokes.drop_last());
    }
    assert(after.chars =~= strokes.map_values(|s: (char, Seq<char>, u16)| s.0));
    assert(after.keycodes =~= strokes.map_values(|s: (char, Seq<char>, u16)| s.2));
}

/// The history is a ring: it always holds the last words, as many as fit.
pub proof fn law_history_keeps_the_last_words(cap: nat, words: Seq<Seq<char>>)
    ensures
        history_after(cap, words) == last_n(words, cap),
    decreases words.len(),
{
    if words.len() > 0 {
        law_history_keeps_the_last_words(cap, words.drop_last());
        assert(last_n(last_n(words.drop_last(), cap).push(words.last()), cap) =~= last_n(
            words,
            cap,
        ));
    }
}

/// A word ends at white space and at the signs listed here, and nowhere else.
pub proof fn law_where_words_end(c: char)
    ensures
        is_boundary(c) <==> unicode::is_space(c)
            || ".,;:!?()[]{}<>\"`|\\/@#$%^&*+=~"@.contains(c),
{
    reveal_strlit(".,;:!?()[]{}<>\"`|\\/@#$%^&*+=~");
    let signs = ".,;:!?()[]{}<>\"`|\\/@#$%^&*+=~"@;
    assert(signs.len() == 29);
    if signs.contains(c) {
        let k = signs.index_of(c);
        assert(signs[k] == c);
    }
    if is_boundary_sign(c) {
        assert(signs[0] == '.' && signs[1] == ',' && signs[2] == ';' && signs[3] == ':');
        assert(signs[4] == '!' && signs[5] == '?' && signs[6] == '(' && signs[7] == ')');
        assert(signs[8] == '[' && signs[9] == ']' && signs[10] == '{' && signs[11] == '}');
        assert(signs[12] == '<' && signs[13] == '>' && signs[14] == '"' && signs[15] == '`');
        assert(signs[16] == '|' && signs[17] == '\\' && signs[18] == '/' && signs[19] == '@');
        assert(signs[20] == '#' && signs[21] == '$' && signs[22] == '%' && signs[23] == '^');
        assert(signs[24] == '&' && signs[25] == '*' && signs[26] == '+' && signs[27] == '=');
        assert(signs[28] == '~');
    }
}

/// No letter, no digit, no dash and no apostrophe ends a word.
pub proof fn law_letters_do_not_end_words(c: char)
    requires
        'a' <= c <= 'z' || 'A' <= c <= 'Z' || '0' <= c <= '9' || 'а' <= c <= 'я' || 'А' <= c <= 'Я'
            || c == 'ё' || c == 'Ё' || c == '-' || c == '\'',
    ensures
        !is_boundary(c),
{
}

/// The last items of a list are those at its end: what stands before them does not matter, and a
/// list that is short enough is whole.
pub proof fn law_last_items<T>(before: Seq<T>, end: Seq<T>)
    ensures
        last_n(before + end, end.len()) == end,
        forall|n: nat| n >= end.len() ==> #[trigger] last_n(end, n) == end,
{
    assert(last_n(before + end, end.len()) =~= end);
}

/// A character is added behind the others, with its key, and changes nothing before it. It fixes
/// the layout only if it is the first.
pub proof fn law_a_character_is_added_at_the_end(
    t: Typed,
    ch: char,
    layout: Seq<char>,
    evdev_code: u16,
)
    ensures
        t.pushed(ch, layout, evdev_code).chars == t.chars + seq![ch],
        t.pushed(ch, layout, evdev_code).keycodes == t.keycodes + seq![evdev_code],
        t.chars.len() == 0 ==> t.pushed(ch, layout, evdev_code).layout == Some(layout),
        t.chars.len() > 0 ==> t.pushed(ch, layout, evdev_code).layout == t.layout,
{
    assert(t.chars.push(ch) =~= t.chars + seq![ch]);
    assert(t.keycodes.push(evdev_code) =~= t.keycodes + seq![evdev_code]);
}

/// Removing takes the last character and its key and keeps all before them. The layout stays as
/// long as a character does. From nothing, nothing is taken.
pub proof fn law_only_the_last_character_is_removed(t: Typed)
    requires
        t.wf(),
    ensures
        t.chars.len() > 0 ==> t.chars == t.popped().chars + seq![t.chars[t.chars.len() - 1]],
        t.chars.len() > 0 ==> t.keycodes == t.popped().keycodes
            + seq![t.keycodes[t.chars.len() - 1]],
        t.chars.len() > 1 ==> t.popped().layout == t.layout,
        t.chars.len() <= 1 ==> t.popped().layout is None,
        t.chars.len() == 0 ==> t.popped().chars.len() == 0 && t.popped().keycodes.len() == 0,
        Typed::nothing().chars.len() == 0,
        Typed::nothing().keycodes.len() == 0,
        Typed::nothing().layout is None,
{
    if t.chars.len() > 0 {
        assert(t.chars =~= t.popped().chars + seq![t.chars[t.chars.len() - 1]]);
        assert(t.keycodes =~= t.popped().keycodes + seq![t.keycodes[t.chars.len() - 1]]);
    }
}

} // verus!
