//! The judgement of a word: keep it, flip it, or leave it to the user.
//!
//! First the form of the word is looked at: numbers, identifiers, addresses and words in mixed
//! scripts are kept, whatever the dictionaries say. Then the dictionaries decide: a word of the
//! current language is kept, a text that is a word of the other language after the flip is
//! flipped. Where both hold, the words before it decide, if they speak clearly for one language.

use vstd::prelude::*;

use crate::context;
use crate::mapper;
use crate::text;
use crate::unicode;

verus! {

/// What to do with a word.
#[derive(Debug, Clone, Copy, PartialEq, Eq, Structural)]
pub enum Verdict {
    /// The word is in the right layout.
    Keep,
    /// The word is in the wrong layout: rewrite it and switch the layout.
    Flip,
    /// There is no telling. The word is left as it is.
    Uncertain,
}

/// A language with a dictionary.
#[derive(Debug, Clone, Copy, PartialEq, Eq, Structural)]
pub enum Lang {
    En,
    Ru,
}

/// A word and its surroundings.
#[derive(Debug, Clone)]
pub struct ClassifyInput<'a> {
    /// What was typed up to a space, an enter or a punctuation mark.
    pub word: &'a str,
    /// The active layout: `us` or `ru`.
    pub active_layout: &'a str,
    /// The words before it in the window, oldest first.
    pub recent_words: &'a [String],
    /// The class of the active window.
    pub window_class: Option<&'a str>,
}

/// The words that the spell checker accepts in one language, as far as they were asked for.
#[derive(Debug, Clone)]
pub struct Dictionary {
    words: Vec<String>,
}

impl View for Dictionary {
    type V = Set<Seq<char>>;

    closed spec fn view(&self) -> Set<Seq<char>> {
        text::texts(self.words@).to_set()
    }
}

impl Dictionary {
    /// The dictionary that accepts the given words.
    pub fn new(words: Vec<String>) -> (d: Dictionary)
        ensures
            d@ == text::texts(words@).to_set(),
    {
        Dictionary { words }
    }

    /// Whether the word is accepted.
    pub fn check(&self, word: &str) -> (r: bool)
        ensures
            r == self@.contains(word@),
    {
        let ghost list = text::texts(self.words@);
        let mut i: usize = 0;
        while i < self.words.len()
            invariant
                list == text::texts(self.words@),
                0 <= i <= self.words@.len(),
                forall|k: int| 0 <= k < i ==> list[k] != word@,
            decreases self.words@.len() - i,
        {
            if text::same_text(self.words[i].as_str(), word) {
                proof {
                    assert(list[i as int] == word@);
                }
                return true;
            }
            i += 1;
        }
        false
    }
}

/// A character of the Latin alphabet.
pub open spec fn is_latin(c: char) -> bool {
    unicode::is_latin_small(c) || unicode::is_latin_capital(c)
}

/// A character of the Russian alphabet.
pub open spec fn is_cyrillic(c: char) -> bool {
    unicode::is_russian_small(c) || unicode::is_russian_capital(c)
}

/// A sign that stands in addresses and paths.
pub open spec fn is_address_sign(c: char) -> bool {
    c == '@' || c == '.' || c == ':' || c == '/' || c == '\\'
}

/// There is a digit in the word.
pub open spec fn has_digit(word: Seq<char>) -> bool {
    exists|i: int| 0 <= i < word.len() && unicode::is_digit(#[trigger] word[i])
}

/// There is a letter in the word.
pub open spec fn has_letter(word: Seq<char>) -> bool {
    exists|i: int| 0 <= i < word.len() && unicode::is_letter(#[trigger] word[i])
}

/// There is a sign of addresses and paths in the word.
pub open spec fn has_address_sign(word: Seq<char>) -> bool {
    exists|i: int| 0 <= i < word.len() && is_address_sign(#[trigger] word[i])
}

/// There is a Latin letter in the word.
pub open spec fn has_latin(word: Seq<char>) -> bool {
    exists|i: int| 0 <= i < word.len() && is_latin(#[trigger] word[i])
}

/// There is a Russian letter in the word.
pub open spec fn has_cyrillic(word: Seq<char>) -> bool {
    exists|i: int| 0 <= i < word.len() && is_cyrillic(#[trigger] word[i])
}

/// A word that is never rewritten, whatever the dictionaries say: a number, an identifier with
/// letters and digits, an address or a path, or a word in mixed scripts.
pub open spec fn is_protected(word: Seq<char>) -> bool {
    ||| text::all_digits(word)
    ||| has_digit(word) && has_letter(word)
    ||| has_address_sign(word)
    ||| has_latin(word) && has_cyrillic(word)
}

/// The language typed in a layout and the other one, if the layout is known.
pub open spec fn languages(layout: Seq<char>) -> Option<(Lang, Lang)> {
    if layout == "us"@ {
        Some((Lang::En, Lang::Ru))
    } else if layout == "ru"@ {
        Some((Lang::Ru, Lang::En))
    } else {
        None
    }
}

/// The text that the same keys give in the other language.
pub open spec fn flipped_from(word: Seq<char>, lang: Lang) -> Seq<char> {
    mapper::flipped(word, lang is Ru)
}

/// The words of the two languages.
#[verifier::ext_equal]
pub struct Lexicon {
    pub en: Set<Seq<char>>,
    pub ru: Set<Seq<char>>,
}

impl Lexicon {
    /// A text that is a word of the language.
    pub open spec fn valid(self, word: Seq<char>, lang: Lang) -> bool {
        word.len() > 0 && match lang {
            Lang::En => self.en.contains(word),
            Lang::Ru => self.ru.contains(word),
        }
    }

    /// How many of the words count as words of the language. Numbers, words with digits and
    /// single characters say nothing.
    pub open spec fn score(self, words: Seq<Seq<char>>, lang: Lang) -> nat
        decreases words.len(),
    {
        if words.len() == 0 {
            0
        } else {
            let w = words.last();
            self.score(words.drop_last(), lang) + if is_telling(w) && self.valid(w, lang) {
                1nat
            } else {
                0nat
            }
        }
    }

    /// The verdict on a text that is a word both as typed and after the flip: the last five
    /// words decide, if one language is ahead by two.
    pub open spec fn bias(self, recent: Seq<Seq<char>>, current: Lang, other: Lang) -> Verdict {
        let last = context::last_n(recent, 5);
        let a = self.score(last, current);
        let b = self.score(last, other);
        if a >= b + 2 {
            Verdict::Keep
        } else if b >= a + 2 {
            Verdict::Flip
        } else {
            Verdict::Uncertain
        }
    }

    /// The verdict on a word.
    pub open spec fn verdict(
        self,
        word: Seq<char>,
        layout: Seq<char>,
        recent: Seq<Seq<char>>,
    ) -> Verdict {
        if word.len() <= 1 {
            Verdict::Uncertain
        } else if is_protected(word) {
            Verdict::Keep
        } else {
            match languages(layout) {
                None => Verdict::Uncertain,
                Some((current, other)) => {
                    let as_typed = self.valid(word, current);
                    let as_flipped = self.valid(flipped_from(word, current), other);
                    if as_typed && as_flipped {
                        self.bias(recent, current, other)
                    } else if as_typed {
                        Verdict::Keep
                    } else if as_flipped {
                        Verdict::Flip
                    } else if unicode::is_capital(word[0]) {
                        Verdict::Keep
                    } else {
                        Verdict::Uncertain
                    }
                },
            }
        }
    }
}

/// A word before the current one that can tell the language: longer than one character, and
/// without digits.
pub open spec fn is_telling(word: Seq<char>) -> bool {
    word.len() > 1 && !has_digit(word)
}

/// What the characters of a word tell about its form.
struct Form {
    only_digits: bool,
    digit: bool,
    letter: bool,
    address_sign: bool,
    latin: bool,
    cyrillic: bool,
}

impl Form {
    spec fn of(self, word: Seq<char>) -> bool {
        &&& self.only_digits == text::all_digits(word)
        &&& self.digit == has_digit(word)
        &&& self.letter == has_letter(word)
        &&& self.address_sign == has_address_sign(word)
        &&& self.latin == has_latin(word)
        &&& self.cyrillic == has_cyrillic(word)
    }
}

/// What one more character adds to the form of a word.
proof fn lemma_form_step(word: Seq<char>, c: char)
    ensures
        text::all_digits(word.push(c)) == (text::all_digits(word) && unicode::is_digit(c)),
        has_digit(word.push(c)) == (has_digit(word) || unicode::is_digit(c)),
        has_letter(word.push(c)) == (has_letter(word) || unicode::is_letter(c)),
        has_address_sign(word.push(c)) == (has_address_sign(word) || is_address_sign(c)),
        has_latin(word.push(c)) == (has_latin(word) || is_latin(c)),
        has_cyrillic(word.push(c)) == (has_cyrillic(word) || is_cyrillic(c)),
{
    let longer = word.push(c);
    assert(longer[word.len() as int] == c);
    assert forall|i: int| 0 <= i < word.len() implies #[trigger] word[i] == longer[i] by {}
    if text::all_digits(longer) {
        assert forall|i: int| 0 <= i < word.len() implies unicode::is_digit(
            #[trigger] word[i],
        ) by {
            assert(unicode::is_digit(longer[i]));
        }
    }
    if has_digit(word) {
        let i = choose|i: int| 0 <= i < word.len() && unicode::is_digit(#[trigger] word[i]);
        assert(unicode::is_digit(longer[i]));
    }
    if has_letter(word) {
        let i = choose|i: int| 0 <= i < word.len() && unicode::is_letter(#[trigger] word[i]);
        assert(unicode::is_letter(longer[i]));
    }
    if has_address_sign(word) {
        let i = choose|i: int| 0 <= i < word.len() && is_address_sign(#[trigger] word[i]);
        assert(is_address_sign(longer[i]));
    }
    if has_latin(word) {
        let i = choose|i: int| 0 <= i < word.len() && is_latin(#[trigger] word[i]);
        assert(is_latin(longer[i]));
    }
    if has_cyrillic(word) {
        let i = choose|i: int| 0 <= i < word.len() && is_cyrillic(#[trigger] word[i]);
        assert(is_cyrillic(longer[i]));
    }
}

/// The form of a word.
fn form_of(word: &str) -> (f: Form)
    ensures
        f.of(word@),
{
    let mut f = Form {
        only_digits: true,
        digit: false,
        letter: false,
        address_sign: false,
        latin: false,
        cyrillic: false,
    };
    for c in it: word.chars()
        invariant
            it.seq() == word@,
            f.of(word@.take(it.index())),
    {
        proof {
            lemma_form_step(word@.take(it.index()), c);
            assert(word@.take(it.index() + 1) =~= word@.take(it.index()).push(c));
        }
        if c >= '0' && c <= '9' {
            f.digit = true;
        } else {
            f.only_digits = false;
        }
        if c.is_alphabetic() {
            f.letter = true;
        }
        if matches!(c, '@' | '.' | ':' | '/' | '\\') {
            f.address_sign = true;
        }
        if (c >= 'a' && c <= 'z') || (c >= 'A' && c <= 'Z') {
            f.latin = true;
        }
        if (c >= 'а' && c <= 'я') || (c >= 'А' && c <= 'Я') || c == 'ё' || c == 'Ё' {
            f.cyrillic = true;
        }
    }
    proof {
        assert(word@.take(word@.len() as int) =~= word@);
    }
    f
}

/// The language typed in a layout and the other one, if the layout is known.
fn languages_of(layout: &str) -> (r: Option<(Lang, Lang)>)
    ensures
        r == languages(layout@),
{
    if text::same_text(layout, "us") {
        Some((Lang::En, Lang::Ru))
    } else if text::same_text(layout, "ru") {
        Some((Lang::Ru, Lang::En))
    } else {
        None
    }
}

/// The text that the same keys give in the other language.
fn flip_from(word: &str, lang: Lang) -> (r: String)
    ensures
        r@ == flipped_from(word@, lang),
{
    match lang {
        Lang::En => mapper::en_to_ru(word),
        Lang::Ru => mapper::ru_to_en(word),
    }
}

/// Judges words by the dictionaries of both languages.
#[derive(Debug, Clone)]
pub struct DictClassifier {
    en: Dictionary,
    ru: Dictionary,
}

impl View for DictClassifier {
    type V = Lexicon;

    closed spec fn view(&self) -> Lexicon {
        Lexicon { en: self.en@, ru: self.ru@ }
    }
}

impl DictClassifier {
    /// A classifier with the given dictionaries.
    pub fn new(en: Dictionary, ru: Dictionary) -> (d: DictClassifier)
        ensures
            d@ == (Lexicon { en: en@, ru: ru@ }),
    {
        DictClassifier { en, ru }
    }

    /// Whether the text is a word of the language. The empty text is none.
    pub fn is_valid(&self, word: &str, lang: Lang) -> (r: bool)
        ensures
            r == self@.valid(word@, lang),
    {
        if word.is_empty() {
            return false;
        }
        match lang {
            Lang::En => self.en.check(word),
            Lang::Ru => self.ru.check(word),
        }
    }

    /// The verdict on a word.
    ///
    /// 1. A single character is ambiguous.
    /// 2. A number is kept.
    /// 3. A word with letters and digits is kept: it is an identifier.
    /// 4. A word with `@`, `.`, `:`, `/` or `\` is kept: it is an address or a path.
    /// 5. A word with Latin and Russian letters is kept: it is mixed on purpose.
    /// 6. A word that is in no dictionary is kept if it starts with a capital: it is a name.
    ///
    /// Else a word of the current language is kept, a text that is a word of the other language
    /// after the flip is flipped, and the words before it decide where both hold.
    pub fn classify(&self, input: &ClassifyInput<'_>) -> (v: Verdict)
        ensures
            v == self@.verdict(
                input.word@,
                input.active_layout@,
                text::texts(input.recent_words@),
            ),
    {
        let chars = text::chars_of(input.word);
        if chars.len() <= 1 {
            return Verdict::Uncertain;
        }
        let form = form_of(input.word);
        if form.only_digits {
            return Verdict::Keep;
        }
        if form.digit && form.letter {
            return Verdict::Keep;
        }
        if form.address_sign {
            return Verdict::Keep;
        }
        if form.latin && form.cyrillic {
            return Verdict::Keep;
        }
        let (current, other) = match languages_of(input.active_layout) {
            Some(pair) => pair,
            None => {
                return Verdict::Uncertain;
            },
        };
        let flipped = flip_from(input.word, current);
        let as_typed = self.is_valid(input.word, current);
        let as_flipped = self.is_valid(flipped.as_str(), other);
        if chars[0].is_uppercase() && !as_typed && !as_flipped {
            return Verdict::Keep;
        }
        match (as_typed, as_flipped) {
            (true, false) => Verdict::Keep,
            (false, true) => Verdict::Flip,
            (true, true) => self.context_bias(input, current, other),
            (false, false) => Verdict::Uncertain,
        }
    }

    /// The verdict on a text that is a word both as typed and after the flip.
    pub fn context_bias(&self, input: &ClassifyInput<'_>, current: Lang, other: Lang) -> (v: Verdict)
        ensures
            v == self@.bias(text::texts(input.recent_words@), current, other),
    {
        let words = input.recent_words;
        let ghost recent = text::texts(words@);
        let ghost last = context::last_n(recent, 5);
        let start: usize = if words.len() > 5 {
            words.len() - 5
        } else {
            0
        };
        let mut current_score: usize = 0;
        let mut other_score: usize = 0;
        let mut i: usize = start;
        proof {
            assert(last.take(0) =~= Seq::<Seq<char>>::empty());
        }
        while i < words.len()
            invariant
                recent == text::texts(words@),
                last == context::last_n(recent, 5),
                start == (if words@.len() > 5 {
                    words@.len() - 5
                } else {
                    0
                }),
                start <= i <= words@.len(),
                current_score == self@.score(last.take(i - start), current),
                other_score == self@.score(last.take(i - start), other),
                current_score <= i - start,
                other_score <= i - start,
            decreases words@.len() - i,
        {
            let w = words[i].as_str();
            proof {
                let seen = last.take(i - start);
                assert(last[i - start] == recent[i as int]);
                assert(last.take(i - start + 1) =~= seen.push(w@));
                assert(last.take(i - start + 1).drop_last() =~= seen);
            }
            let form = form_of(w);
            if text::chars_of(w).len() > 1 && !form.digit {
                if self.is_valid(w, current) {
                    current_score += 1;
                }
                if self.is_valid(w, other) {
                    other_score += 1;
                }
            }
            i += 1;
        }
        proof {
            assert(last.take(last.len() as int) =~= last);
        }
        if current_score >= other_score + 2 {
            Verdict::Keep
        } else if other_score >= current_score + 2 {
            Verdict::Flip
        } else {
            Verdict::Uncertain
        }
    }
}

/// A question to the spell checker: is this a word of that language?
#[derive(Debug, Clone)]
pub struct Lookup {
    pub word: String,
    pub lang: Lang,
}

/// The questions of a list.
pub open spec fn asked(lookups: Seq<Lookup>) -> Seq<(Seq<char>, Lang)> {
    lookups.map_values(|l: Lookup| (l.word@, l.lang))
}

/// The questions about the words before the current one: each that can tell is looked up in both
/// languages.
pub open spec fn context_questions(
    words: Seq<Seq<char>>,
    current: Lang,
    other: Lang,
) -> Seq<(Seq<char>, Lang)>
    decreases words.len(),
{
    if words.len() == 0 {
        Seq::empty()
    } else {
        let before = context_questions(words.drop_last(), current, other);
        let w = words.last();
        if is_telling(w) {
            before.push((w, current)).push((w, other))
        } else {
            before
        }
    }
}

/// All questions on which the verdict on a word can depend.
pub open spec fn questions(
    word: Seq<char>,
    layout: Seq<char>,
    recent: Seq<Seq<char>>,
) -> Seq<(Seq<char>, Lang)> {
    if word.len() <= 1 || is_protected(word) {
        Seq::empty()
    } else {
        match languages(layout) {
            None => Seq::empty(),
            Some((current, other)) => seq![
                (word, current),
                (flipped_from(word, current), other),
            ] + context_questions(context::last_n(recent, 5), current, other),
        }
    }
}

/// The words of a language that the answers confirm.
pub open spec fn confirmed(
    questions: Seq<(Seq<char>, Lang)>,
    found: Seq<bool>,
    lang: Lang,
) -> Set<Seq<char>> {
    Set::new(
        |w: Seq<char>|
            exists|i: int|
                0 <= i < questions.len() && #[trigger] questions[i] == (w, lang) && found[i],
    )
}

/// What the answers tell about both languages.
pub open spec fn lexicon_of(questions: Seq<(Seq<char>, Lang)>, found: Seq<bool>) -> Lexicon {
    Lexicon {
        en: confirmed(questions, found, Lang::En),
        ru: confirmed(questions, found, Lang::Ru),
    }
}

/// The questions to put to the spell checker before a word can be judged.
pub fn lookups(input: &ClassifyInput<'_>) -> (list: Vec<Lookup>)
    ensures
        asked(list@) == questions(
            input.word@,
            input.active_layout@,
            text::texts(input.recent_words@),
        ),
{
    let mut list: Vec<Lookup> = Vec::new();
    let form = form_of(input.word);
    if text::chars_of(input.word).len() <= 1 || form.only_digits || (form.digit && form.letter)
        || form.address_sign || (form.latin && form.cyrillic) {
        proof {
            assert(asked(list@) =~= Seq::empty());
        }
        return list;
    }
    let (current, other) = match languages_of(input.active_layout) {
        Some(pair) => pair,
        None => {
            proof {
                assert(asked(list@) =~= Seq::empty());
            }
            return list;
        },
    };
    list.push(Lookup { word: text::owned(input.word), lang: current });
    list.push(Lookup { word: flip_from(input.word, current), lang: other });
    let words = input.recent_words;
    let ghost recent = text::texts(words@);
    let ghost last = context::last_n(recent, 5);
    let ghost first = seq![
        (input.word@, current),
        (flipped_from(input.word@, current), other),
    ];
    let start: usize = if words.len() > 5 {
        words.len() - 5
    } else {
        0
    };
    let mut i: usize = start;
    proof {
        assert(last.take(0) =~= Seq::<Seq<char>>::empty());
        assert(asked(list@) =~= first + context_questions(last.take(0), current, other));
    }
    while i < words.len()
        invariant
            recent == text::texts(words@),
            last == context::last_n(recent, 5),
            start == (if words@.len() > 5 {
                words@.len() - 5
            } else {
                0
            }),
            start <= i <= words@.len(),
            asked(list@) == first + context_questions(last.take(i - start), current, other),
        decreases words@.len() - i,
    {
        let w = words[i].as_str();
        let ghost seen = context_questions(last.take(i - start), current, other);
        proof {
            assert(last[i - start] == recent[i as int]);
            assert(last.take(i - start + 1) =~= last.take(i - start).push(w@));
            assert(last.take(i - start + 1).drop_last() =~= last.take(i - start));
        }
        if text::chars_of(w).len() > 1 && !form_of(w).digit {
            let ghost before = list@;
            list.push(Lookup { word: text::owned(w), lang: current });
            list.push(Lookup { word: text::owned(w), lang: other });
            proof {
                assert(asked(list@) =~= asked(before).push((w@, current)).push((w@, other)));
                assert(asked(list@) =~= first + seen.push((w@, current)).push((w@, other)));
            }
        }
        i += 1;
    }
    proof {
        assert(last.take(last.len() as int) =~= last);
    }
    list
}

impl DictClassifier {
    /// The classifier that knows the answers to the questions and nothing else.
    pub fn from_answers(lookups: &[Lookup], found: &[bool]) -> (d: DictClassifier)
        requires
            lookups@.len() == found@.len(),
        ensures
            d@ == lexicon_of(asked(lookups@), found@),
    {
        let mut en: Vec<String> = Vec::new();
        let mut ru: Vec<String> = Vec::new();
        let ghost q = asked(lookups@);
        let mut i: usize = 0;
        proof {
            assert(text::texts(en@).to_set() =~= confirmed(q.take(0), found@, Lang::En));
            assert(text::texts(ru@).to_set() =~= confirmed(q.take(0), found@, Lang::Ru));
        }
        while i < lookups.len()
            invariant
                q == asked(lookups@),
                lookups@.len() == found@.len(),
                0 <= i <= lookups@.len(),
                text::texts(en@).to_set() == confirmed(q.take(i as int), found@, Lang::En),
                text::texts(ru@).to_set() == confirmed(q.take(i as int), found@, Lang::Ru),
            decreases lookups@.len() - i,
        {
            let ghost (en_before, ru_before) = (en@, ru@);
            proof {
                lemma_one_more_answer(q, found@, i as int, Lang::En);
                lemma_one_more_answer(q, found@, i as int, Lang::Ru);
            }
            if found[i] {
                let word = lookups[i].word.clone();
                match lookups[i].lang {
                    Lang::En => {
                        en.push(word);
                        proof {
                            lemma_one_more_word(en_before, word);
                        }
                    },
                    Lang::Ru => {
                        ru.push(word);
                        proof {
                            lemma_one_more_word(ru_before, word);
                        }
                    },
                }
            }
            i += 1;
        }
        proof {
            assert(q.take(q.len() as int) =~= q);
        }
        DictClassifier { en: Dictionary::new(en), ru: Dictionary::new(ru) }
    }
}

proof fn lemma_one_more_word(words: Seq<String>, word: String)
    ensures
        text::texts(words.push(word)).to_set() == text::texts(words).to_set().insert(word@),
{
    let before = text::texts(words);
    let after = text::texts(words.push(word));
    assert(after =~= before.push(word@));
    assert forall|w: Seq<char>| after.contains(w) == (before.contains(w) || w == word@) by {
        if before.contains(w) {
            let k = before.index_of(w);
            assert(after[k] == w);
        }
        if w == word@ {
            assert(after[before.len() as int] == w);
        }
    }
    assert(after.to_set() =~= before.to_set().insert(word@));
}

proof fn lemma_one_more_answer(
    q: Seq<(Seq<char>, Lang)>,
    found: Seq<bool>,
    i: int,
    lang: Lang,
)
    requires
        0 <= i < q.len(),
    ensures
        confirmed(q.take(i + 1), found, lang) == (if found[i] && q[i].1 == lang {
            confirmed(q.take(i), found, lang).insert(q[i].0)
        } else {
            confirmed(q.take(i), found, lang)
        }),
{
    let before = confirmed(q.take(i), found, lang);
    let after = confirmed(q.take(i + 1), found, lang);
    assert forall|w: Seq<char>|
        after.contains(w) == (before.contains(w) || found[i] && q[i] == (w, lang)) by {
        if before.contains(w) {
            let k = choose|k: int|
                0 <= k < q.take(i).len() && #[trigger] q.take(i)[k] == (w, lang) && found[k];
            assert(q.take(i + 1)[k] == (w, lang));
        }
        if after.contains(w) {
            let k = choose|k: int|
                0 <= k < q.take(i + 1).len() && #[trigger] q.take(i + 1)[k] == (w, lang)
                    && found[k];
            if k < i {
                assert(q.take(i)[k] == (w, lang));
            }
        }
        if found[i] && q[i] == (w, lang) {
            assert(q.take(i + 1)[i] == (w, lang));
        }
    }
    assert(after =~= if found[i] && q[i].1 == lang {
        before.insert(q[i].0)
    } else {
        before
    });
}

/// Answers given by a lexicon tell about each question what the lexicon says.
proof fn lemma_answers_agree(
    truth: Lexicon,
    q: Seq<(Seq<char>, Lang)>,
    found: Seq<bool>,
    word: Seq<char>,
    lang: Lang,
)
    requires
        found.len() == q.len(),
        forall|i: int| 0 <= i < q.len() ==> found[i] == truth.valid((#[trigger] q[i]).0, q[i].1),
        q.contains((word, lang)),
    ensures
        lexicon_of(q, found).valid(word, lang) == truth.valid(word, lang),
{
    let k = q.index_of((word, lang));
    assert(q[k] == (word, lang));
    let learnt = confirmed(q, found, lang);
    if learnt.contains(word) {
        let i = choose|i: int|
            0 <= i < q.len() && #[trigger] q[i] == (word, lang) && found[i];
        assert(truth.valid(q[i].0, q[i].1));
    }
}

/// Lexicons that agree on the questions about some words score these words alike.
proof fn lemma_scores_agree(
    a: Lexicon,
    b: Lexicon,
    words: Seq<Seq<char>>,
    current: Lang,
    other: Lang,
)
    requires
        forall|w: Seq<char>, l: Lang|
            #[trigger] context_questions(words, current, other).contains((w, l)) ==> a.valid(w, l)
                == b.valid(w, l),
    ensures
        a.score(words, current) == b.score(words, current),
        a.score(words, other) == b.score(words, other),
    decreases words.len(),
{
    if words.len() > 0 {
        let q = context_questions(words, current, other);
        let before = context_questions(words.drop_last(), current, other);
        let w = words.last();
        assert forall|v: Seq<char>, l: Lang| #[trigger] before.contains((v, l)) implies a.valid(
            v,
            l,
        ) == b.valid(v, l) by {
            let k = before.index_of((v, l));
            assert(q[k] == (v, l));
            assert(q.contains((v, l)));
        }
        lemma_scores_agree(a, b, words.drop_last(), current, other);
        if is_telling(w) {
            assert(q[before.len() as int] == (w, current));
            assert(q[before.len() as int + 1] == (w, other));
            assert(q.contains((w, current)));
            assert(q.contains((w, other)));
        }
    }
}

/// The questions are all that the verdict needs: a classifier made of the answers that a lexicon
/// gives judges the word as the lexicon does.
pub proof fn law_lookups_suffice(
    truth: Lexicon,
    word: Seq<char>,
    layout: Seq<char>,
    recent: Seq<Seq<char>>,
    found: Seq<bool>,
)
    requires
        found.len() == questions(word, layout, recent).len(),
        forall|i: int|
            0 <= i < found.len() ==> #[trigger] found[i] == truth.valid(
                questions(word, layout, recent)[i].0,
                questions(word, layout, recent)[i].1,
            ),
    ensures
        lexicon_of(questions(word, layout, recent), found).verdict(word, layout, recent)
            == truth.verdict(word, layout, recent),
{
    let q = questions(word, layout, recent);
    let learnt = lexicon_of(q, found);
    if word.len() > 1 && !is_protected(word) && languages(layout) is Some {
        let (current, other) = languages(layout)->0;
        let last = context::last_n(recent, 5);
        let cq = context_questions(last, current, other);
        assert forall|w: Seq<char>, l: Lang| q.contains((w, l)) implies learnt.valid(w, l)
            == truth.valid(w, l) by {
            lemma_answers_agree(truth, q, found, w, l);
        }
        assert(q[0] == (word, current));
        assert(q[1] == (flipped_from(word, current), other));
        assert(q.contains(q[0]));
        assert(q.contains(q[1]));
        assert forall|w: Seq<char>, l: Lang| #[trigger] cq.contains((w, l)) implies learnt.valid(
            w,
            l,
        ) == truth.valid(w, l) by {
            let k = cq.index_of((w, l));
            assert(q[k + 2] == (w, l));
            assert(q.contains((w, l)));
        }
        lemma_scores_agree(learnt, truth, last, current, other);
    }
}

/// Numbers, identifiers with digits, addresses, paths and words in mixed scripts are kept, in
/// every layout, with every dictionary and after any words, unless they are a single character.
pub proof fn law_protected_words_are_kept(
    lexicon: Lexicon,
    word: Seq<char>,
    layout: Seq<char>,
    recent: Seq<Seq<char>>,
)
    requires
        word.len() > 1,
        is_protected(word),
    ensures
        lexicon.verdict(word, layout, recent) is Keep,
{
}

/// No verdict is given on a single character.
pub proof fn law_single_characters_are_left(
    lexicon: Lexicon,
    word: Seq<char>,
    layout: Seq<char>,
    recent: Seq<Seq<char>>,
)
    requires
        word.len() <= 1,
    ensures
        lexicon.verdict(word, layout, recent) is Uncertain,
{
}

/// A word is flipped only in a known layout, and only into a word of the other language.
pub proof fn law_a_flip_gives_a_word(
    lexicon: Lexicon,
    word: Seq<char>,
    layout: Seq<char>,
    recent: Seq<Seq<char>>,
)
    requires
        lexicon.verdict(word, layout, recent) is Flip,
    ensures
        languages(layout) matches Some((current, other)) && lexicon.valid(
            flipped_from(word, current),
            other,
        ),
{
}

/// A word of the current language is flipped only where the words before it speak for the other
/// language: at least two of them are words of it.
pub proof fn law_known_words_need_context_to_flip(
    lexicon: Lexicon,
    word: Seq<char>,
    layout: Seq<char>,
    recent: Seq<Seq<char>>,
)
    requires
        languages(layout) matches Some((current, other)) && lexicon.valid(word, current),
        lexicon.verdict(word, layout, recent) is Flip,
    ensures
        languages(layout) matches Some((current, other)) && lexicon.score(
            context::last_n(recent, 5),
            other,
        ) >= 2 + lexicon.score(context::last_n(recent, 5), current),
        recent.len() >= 2,
{
    let (current, other) = languages(layout)->0;
    lemma_score_bound(lexicon, context::last_n(recent, 5), other);
}

proof fn lemma_score_bound(lexicon: Lexicon, words: Seq<Seq<char>>, lang: Lang)
    ensures
        lexicon.score(words, lang) <= words.len(),
    decreases words.len(),
{
    if words.len() > 0 {
        lemma_score_bound(lexicon, words.drop_last(), lang);
    }
}

/// A capitalised text that no dictionary knows is taken for a name and kept.
pub proof fn law_unknown_names_are_kept(
    lexicon: Lexicon,
    word: Seq<char>,
    layout: Seq<char>,
    recent: Seq<Seq<char>>,
)
    requires
        word.len() > 1,
        unicode::is_capital(word[0]),
        languages(layout) matches Some((current, other)) && !lexicon.valid(word, current)
            && !lexicon.valid(flipped_from(word, current), other),
    ensures
        lexicon.verdict(word, layout, recent) is Keep,
{
}

/// Only the last five words before a word matter to the verdict on it.
pub proof fn law_only_the_last_five_words_count(
    lexicon: Lexicon,
    word: Seq<char>,
    layout: Seq<char>,
    recent: Seq<Seq<char>>,
    others: Seq<Seq<char>>,
)
    requires
        context::last_n(recent, 5) == context::last_n(others, 5),
    ensures
        lexicon.verdict(word, layout, recent) == lexicon.verdict(word, layout, others),
{
}

/// The name of the layout in which a language is typed.
pub open spec fn layout_of(lang: Lang) -> Seq<char> {
    match lang {
        Lang::En => "us"@,
        Lang::Ru => "ru"@,
    }
}

/// The word holds only glyphs that the flip to the other language and back gives again.
pub open spec fn comes_back(word: Seq<char>, lang: Lang) -> bool {
    forall|i: int|
        0 <= i < word.len() ==> mapper::off_table(#[trigger] word[i]) || match lang {
            Lang::En => mapper::is_qwerty_glyph(word[i]),
            Lang::Ru => mapper::is_cased_jcuken_glyph(word[i]),
        }
}

/// A corrected word stays as it is: a text that is no word of the current language and was
/// flipped is kept in the other layout, whatever the words before it.
pub proof fn law_a_corrected_word_is_kept(
    lexicon: Lexicon,
    word: Seq<char>,
    layout: Seq<char>,
    recent: Seq<Seq<char>>,
    later: Seq<Seq<char>>,
)
    requires
        languages(layout) matches Some((current, other)) && !lexicon.valid(word, current)
            && comes_back(word, current),
        lexicon.verdict(word, layout, recent) is Flip,
    ensures
        languages(layout) matches Some((current, other)) && lexicon.verdict(
            flipped_from(word, current),
            layout_of(other),
            later,
        ) is Keep,
{
    reveal_strlit("us");
    reveal_strlit("ru");
    assert("us"@[0] != "ru"@[0]);
    let (current, other) = languages(layout)->0;
    let corrected = flipped_from(word, current);
    assert(languages(layout_of(other)) == Some((other, current)));
    match current {
        Lang::En => mapper::law_en_ru_en(word),
        Lang::Ru => mapper::law_ru_en_ru(word),
    }
    assert(flipped_from(corrected, other) == word);
    assert(corrected.len() == word.len());
}

/// Which words are never flipped: those of digits alone, those with a digit and a letter, those
/// with one of the signs of addresses and paths, and those with letters of both alphabets. No
/// other word is protected: not one with a dash, nor a long one, nor a capitalised one.
pub proof fn law_which_words_are_protected(word: Seq<char>)
    ensures
        is_protected(word) <==> {
            ||| forall|i: int| 0 <= i < word.len() ==> '0' <= #[trigger] word[i] <= '9'
            ||| (exists|i: int| 0 <= i < word.len() && '0' <= #[trigger] word[i] <= '9') && (
            exists|i: int| 0 <= i < word.len() && unicode::is_letter(#[trigger] word[i]))
            ||| word.contains('@') || word.contains('.') || word.contains(':') || word.contains('/')
                || word.contains('\\')
            ||| (exists|i: int|
                0 <= i < word.len() && ('a' <= #[trigger] word[i] <= 'z' || 'A' <= word[i] <= 'Z'))
                && (exists|i: int|
                0 <= i < word.len() && ('а' <= #[trigger] word[i] <= 'я' || 'А' <= word[i] <= 'Я'
                    || word[i] == 'ё' || word[i] == 'Ё'))
        },
{
    text::law_all_digits(word);
    if has_address_sign(word) {
        let i = choose|i: int| 0 <= i < word.len() && is_address_sign(#[trigger] word[i]);
        assert(word.contains(word[i]));
    }
    if word.contains('@') {
        assert(is_address_sign(word[word.index_of('@')]));
    }
    if word.contains('.') {
        assert(is_address_sign(word[word.index_of('.')]));
    }
    if word.contains(':') {
        assert(is_address_sign(word[word.index_of(':')]));
    }
    if word.contains('/') {
        assert(is_address_sign(word[word.index_of('/')]));
    }
    if word.contains('\\') {
        assert(is_address_sign(word[word.index_of('\\')]));
    }
    if exists|i: int| 0 <= i < word.len() && '0' <= #[trigger] word[i] <= '9' {
        let i = choose|i: int| 0 <= i < word.len() && '0' <= #[trigger] word[i] <= '9';
        assert(unicode::is_digit(word[i]));
    }
}

/// The layouts us and ru are typed in English and in Russian; the other language is the other one.
/// No other layout is known.
pub proof fn law_known_layouts(layout: Seq<char>)
    ensures
        languages("us"@) == Some((Lang::En, Lang::Ru)),
        languages("ru"@) == Some((Lang::Ru, Lang::En)),
        layout != "us"@ && layout != "ru"@ ==> languages(layout) is None,
        layout_of(Lang::En) == "us"@,
        layout_of(Lang::Ru) == "ru"@,
{
    reveal_strlit("us");
    reveal_strlit("ru");
    assert("us"@[0] != "ru"@[0]);
}

/// A text is a word of a language exactly if it is not empty and the dictionary of that language
/// holds it. Its flip goes to the other layout.
pub proof fn law_words_are_in_their_dictionary(lexicon: Lexicon, word: Seq<char>)
    ensures
        lexicon.valid(word, Lang::En) <==> word != Seq::<char>::empty() && lexicon.en.contains(
            word,
        ),
        lexicon.valid(word, Lang::Ru) <==> word != Seq::<char>::empty() && lexicon.ru.contains(
            word,
        ),
        flipped_from(word, Lang::En) == mapper::flipped(word, false),
        flipped_from(word, Lang::Ru) == mapper::flipped(word, true),
{
    if word.len() == 0 {
        assert(word =~= Seq::<char>::empty());
    }
}

/// A text that is no word of its language, and whose keys give a word of the other one, is
/// flipped: in either layout, in any case of its letters, and whatever the words before it.
pub proof fn law_a_word_in_the_wrong_layout_is_flipped(
    lexicon: Lexicon,
    word: Seq<char>,
    recent: Seq<Seq<char>>,
)
    requires
        word.len() >= 2,
        !is_protected(word),
    ensures
        !lexicon.en.contains(word) && lexicon.ru.contains(mapper::flipped(word, false))
            ==> lexicon.verdict(word, "us"@, recent) == Verdict::Flip,
        !lexicon.ru.contains(word) && lexicon.en.contains(mapper::flipped(word, true))
            ==> lexicon.verdict(word, "ru"@, recent) == Verdict::Flip,
{
    law_known_layouts("us"@);
    mapper::law_flip_keeps_length(word, false);
    mapper::law_flip_keeps_length(word, true);
}

/// A word of its language whose keys give no word of the other one is kept, whatever the words
/// before it.
pub proof fn law_a_word_in_the_right_layout_is_kept(
    lexicon: Lexicon,
    word: Seq<char>,
    recent: Seq<Seq<char>>,
)
    requires
        word.len() >= 2,
    ensures
        lexicon.en.contains(word) && !lexicon.ru.contains(mapper::flipped(word, false))
            ==> lexicon.verdict(word, "us"@, recent) == Verdict::Keep,
        lexicon.ru.contains(word) && !lexicon.en.contains(mapper::flipped(word, true))
            ==> lexicon.verdict(word, "ru"@, recent) == Verdict::Keep,
{
    law_known_layouts("us"@);
}

/// A text that neither language knows is kept if it starts with a capital, and left open if not;
/// it is never flipped.
pub proof fn law_a_text_that_no_language_knows(
    lexicon: Lexicon,
    word: Seq<char>,
    recent: Seq<Seq<char>>,
)
    requires
        word.len() >= 2,
        !is_protected(word),
    ensures
        !lexicon.en.contains(word) && !lexicon.ru.contains(mapper::flipped(word, false))
            ==> lexicon.verdict(word, "us"@, recent) == (if unicode::is_capital(word[0]) {
            Verdict::Keep
        } else {
            Verdict::Uncertain
        }),
        !lexicon.ru.contains(word) && !lexicon.en.contains(mapper::flipped(word, true))
            ==> lexicon.verdict(word, "ru"@, recent) == (if unicode::is_capital(word[0]) {
            Verdict::Keep
        } else {
            Verdict::Uncertain
        }),
{
    law_known_layouts("us"@);
}

/// A word that both languages know goes to the language that is ahead by two among the last five
/// words, in either layout, and is left open if neither is.
pub proof fn law_the_words_before_decide(
    lexicon: Lexicon,
    word: Seq<char>,
    earlier: Seq<Seq<char>>,
    last: Seq<Seq<char>>,
)
    requires
        word.len() >= 2,
        !is_protected(word),
        last.len() == 5 || last.len() < 5 && earlier.len() == 0,
    ensures
        ({
            let en = lexicon.score(last, Lang::En);
            let ru = lexicon.score(last, Lang::Ru);
            let us = lexicon.verdict(word, "us"@, earlier + last);
            &&& lexicon.en.contains(word) && lexicon.ru.contains(mapper::flipped(word, false)) ==> {
                &&& us == Verdict::Flip <==> ru >= en + 2
                &&& us == Verdict::Keep <==> en >= ru + 2
            }
        }),
        ({
            let en = lexicon.score(last, Lang::En);
            let ru = lexicon.score(last, Lang::Ru);
            let typed_ru = lexicon.verdict(word, "ru"@, earlier + last);
            &&& lexicon.ru.contains(word) && lexicon.en.contains(mapper::flipped(word, true)) ==> {
                &&& typed_ru == Verdict::Flip <==> en >= ru + 2
                &&& typed_ru == Verdict::Keep <==> ru >= en + 2
            }
        }),
{
    law_known_layouts("us"@);
    mapper::law_flip_keeps_length(word, false);
    mapper::law_flip_keeps_length(word, true);
    lemma_last_five(earlier, last);
}

proof fn lemma_last_five(earlier: Seq<Seq<char>>, last: Seq<Seq<char>>)
    requires
        last.len() == 5 || last.len() < 5 && earlier.len() == 0,
    ensures
        context::last_n(earlier + last, 5) == last,
{
    if earlier.len() == 0 {
        assert(earlier + last =~= last);
    }
    context::law_last_items(earlier, last);
}

/// The bias is for the language that is ahead by two among the last five words, whichever it is.
pub proof fn law_the_bias_is_for_the_language_ahead(
    lexicon: Lexicon,
    earlier: Seq<Seq<char>>,
    last: Seq<Seq<char>>,
    current: Lang,
    other: Lang,
)
    requires
        last.len() == 5 || last.len() < 5 && earlier.len() == 0,
    ensures
        lexicon.bias(earlier + last, current, other) == Verdict::Flip <==> lexicon.score(
            last,
            other,
        ) >= lexicon.score(last, current) + 2,
        lexicon.bias(earlier + last, current, other) == Verdict::Keep <==> lexicon.score(
            last,
            current,
        ) >= lexicon.score(last, other) + 2,
{
    lemma_last_five(earlier, last);
}

/// The two languages are alike: with the languages exchanged, what spoke for keeping speaks for
/// flipping, and the other way round; and with the dictionaries exchanged too, nothing changes.
pub proof fn law_the_languages_are_alike(lexicon: Lexicon, recent: Seq<Seq<char>>)
    ensures
        lexicon.bias(recent, Lang::En, Lang::Ru) == Verdict::Flip <==> lexicon.bias(
            recent,
            Lang::Ru,
            Lang::En,
        ) == Verdict::Keep,
        lexicon.bias(recent, Lang::En, Lang::Ru) == Verdict::Keep <==> lexicon.bias(
            recent,
            Lang::Ru,
            Lang::En,
        ) == Verdict::Flip,
        (Lexicon { en: lexicon.ru, ru: lexicon.en }).bias(recent, Lang::Ru, Lang::En)
            == lexicon.bias(recent, Lang::En, Lang::Ru),
        (Lexicon { en: lexicon.ru, ru: lexicon.en }).score(recent, Lang::Ru) == lexicon.score(
            recent,
            Lang::En,
        ),
{
    lemma_swapped_score(lexicon, recent);
    lemma_swapped_score(lexicon, context::last_n(recent, 5));
}

proof fn lemma_swapped_score(lexicon: Lexicon, words: Seq<Seq<char>>)
    ensures
        (Lexicon { en: lexicon.ru, ru: lexicon.en }).score(words, Lang::Ru) == lexicon.score(
            words,
            Lang::En,
        ),
        (Lexicon { en: lexicon.ru, ru: lexicon.en }).score(words, Lang::En) == lexicon.score(
            words,
            Lang::Ru,
        ),
    decreases words.len(),
{
    if words.len() > 0 {
        lemma_swapped_score(lexicon, words.drop_last());
    }
}

/// Each word counts for itself: the scores of two lists add up, and a single word counts one
/// exactly if it is longer than a character, holds no digit and is in the dictionary.
pub proof fn law_scores_add_up(
    lexicon: Lexicon,
    a: Seq<Seq<char>>,
    b: Seq<Seq<char>>,
    w: Seq<char>,
    lang: Lang,
)
    ensures
        lexicon.score(a + b, lang) == lexicon.score(a, lang) + lexicon.score(b, lang),
        lexicon.score(seq![w], lang) == (if w.len() > 1 && (forall|i: int|
            0 <= i < w.len() ==> !('0' <= #[trigger] w[i] <= '9')) && (match lang {
            Lang::En => lexicon.en.contains(w),
            Lang::Ru => lexicon.ru.contains(w),
        }) {
            1nat
        } else {
            0nat
        }),
        lexicon.score(Seq::empty(), lang) == 0,
    decreases b.len(),
{
    let one = seq![w];
    assert(one.drop_last() =~= Seq::<Seq<char>>::empty());
    assert(one.last() == w);
    assert(lexicon.score(one.drop_last(), lang) == 0);
    lemma_no_digit(w);
    if b.len() > 0 {
        law_scores_add_up(lexicon, a, b.drop_last(), w, lang);
        assert((a + b).drop_last() =~= a + b.drop_last());
        assert((a + b).last() == b.last());
    } else {
        assert(a + b =~= a);
    }
}

/// In an unknown layout a word is left open, unless it is protected, and never flipped.
pub proof fn law_unknown_layouts_are_left_open(
    lexicon: Lexicon,
    word: Seq<char>,
    layout: Seq<char>,
    recent: Seq<Seq<char>>,
)
    requires
        layout != "us"@,
        layout != "ru"@,
    ensures
        word.len() >= 2 && is_protected(word) ==> lexicon.verdict(word, layout, recent)
            == Verdict::Keep,
        !(word.len() >= 2 && is_protected(word)) ==> lexicon.verdict(word, layout, recent)
            == Verdict::Uncertain,
{
}

/// Nothing is asked about a single character, about a protected word, or in an unknown layout.
pub proof fn law_when_nothing_is_asked(
    word: Seq<char>,
    layout: Seq<char>,
    recent: Seq<Seq<char>>,
)
    ensures
        word.len() < 2 ==> questions(word, layout, recent).len() == 0,
        is_protected(word) ==> questions(word, layout, recent).len() == 0,
        layout != "us"@ && layout != "ru"@ ==> questions(word, layout, recent).len() == 0,
{
}

/// The word is asked for in its own language and its flip in the other one; then each of the last
/// five words that is longer than a character and holds no digit, in both; and nothing else.
pub proof fn law_what_is_asked(
    word: Seq<char>,
    earlier: Seq<Seq<char>>,
    last: Seq<Seq<char>>,
    w: Seq<char>,
    lang: Lang,
)
    requires
        word.len() >= 2,
        !is_protected(word),
        last.len() == 5 || last.len() < 5 && earlier.len() == 0,
    ensures
        ({
            let us = questions(word, "us"@, earlier + last);
            let ru = questions(word, "ru"@, earlier + last);
            let telling = w.len() > 1 && forall|i: int|
                0 <= i < w.len() ==> !('0' <= #[trigger] w[i] <= '9');
            &&& us.take(2) == seq![(word, Lang::En), (mapper::flipped(word, false), Lang::Ru)]
            &&& ru.take(2) == seq![(word, Lang::Ru), (mapper::flipped(word, true), Lang::En)]
            &&& us.skip(2).contains((w, lang)) <==> last.contains(w) && telling
            &&& ru.skip(2).contains((w, lang)) <==> last.contains(w) && telling
        }),
{
    lemma_questions(word, earlier, last, Lang::En, Lang::Ru);
    lemma_questions(word, earlier, last, Lang::Ru, Lang::En);
    lemma_asked_about(last, Lang::En, Lang::Ru, w, lang);
    lemma_asked_about(last, Lang::Ru, Lang::En, w, lang);
    lemma_no_digit(w);
}

proof fn lemma_no_digit(w: Seq<char>)
    ensures
        !has_digit(w) <==> forall|i: int| 0 <= i < w.len() ==> !('0' <= #[trigger] w[i] <= '9'),
{
    if has_digit(w) {
        let i = choose|i: int| 0 <= i < w.len() && unicode::is_digit(#[trigger] w[i]);
        assert('0' <= w[i] <= '9');
    } else {
        assert forall|i: int| 0 <= i < w.len() implies !('0' <= #[trigger] w[i] <= '9') by {
            assert(!unicode::is_digit(w[i]));
        }
    }
}

proof fn lemma_questions(
    word: Seq<char>,
    earlier: Seq<Seq<char>>,
    last: Seq<Seq<char>>,
    current: Lang,
    other: Lang,
)
    requires
        word.len() >= 2,
        !is_protected(word),
        last.len() == 5 || last.len() < 5 && earlier.len() == 0,
        current != other,
    ensures
        questions(word, layout_of(current), earlier + last).take(2) == seq![
            (word, current),
            (flipped_from(word, current), other),
        ],
        questions(word, layout_of(current), earlier + last).skip(2) == context_questions(
            last,
            current,
            other,
        ),
{
    law_known_layouts("us"@);
    lemma_last_five(earlier, last);
    let q = questions(word, layout_of(current), earlier + last);
    let first = seq![(word, current), (flipped_from(word, current), other)];
    assert(languages(layout_of(current)) == Some((current, other)));
    assert(q == first + context_questions(last, current, other));
    assert(q.take(2) =~= first);
    assert(q.skip(2) =~= context_questions(last, current, other));
}

proof fn lemma_asked_about(
    words: Seq<Seq<char>>,
    current: Lang,
    other: Lang,
    w: Seq<char>,
    lang: Lang,
)
    requires
        current != other,
    ensures
        context_questions(words, current, other).contains((w, lang)) <==> words.contains(w)
            && is_telling(w),
    decreases words.len(),
{
    let q = context_questions(words, current, other);
    if words.len() > 0 {
        let front = words.drop_last();
        let before = context_questions(front, current, other);
        lemma_asked_about(front, current, other, w, lang);
        let n = before.len() as int;
        if before.contains((w, lang)) {
            let k = before.index_of((w, lang));
            assert(q[k] == (w, lang));
        }
        if front.contains(w) {
            assert(words[front.index_of(w)] == w);
        }
        if words.contains(w) && words.last() != w {
            let k = words.index_of(w);
            assert(front[k] == w);
        }
        if words.last() == w {
            assert(words[words.len() - 1] == w);
            if is_telling(w) {
                assert(q[n] == (w, current));
                assert(q[n + 1] == (w, other));
                assert(q.contains((w, current)));
                assert(q.contains((w, other)));
                assert(lang == current || lang == other);
            }
        }
        if q.contains((w, lang)) && !before.contains((w, lang)) {
            let k = q.index_of((w, lang));
            if k < n {
                assert(before[k] == (w, lang));
            }
        }
    }
}

/// A list of questions holds the words and the languages asked for, one by one.
pub proof fn law_questions_of_a_list(list: Seq<Lookup>)
    ensures
        asked(list).len() == list.len(),
        forall|i: int|
            0 <= i < list.len() ==> (#[trigger] asked(list)[i]).0 == list[i].word@ && asked(
                list,
            )[i].1 == list[i].lang,
{
}

/// The answers make known exactly the words that were confirmed, each in the language that it was
/// asked for.
pub proof fn law_answers_make_known_what_they_confirm(
    q: Seq<(Seq<char>, Lang)>,
    found: Seq<bool>,
    w: Seq<char>,
)
    ensures
        lexicon_of(q, found).en.contains(w) <==> exists|i: int|
            0 <= i < q.len() && (#[trigger] q[i]).0 == w && q[i].1 == Lang::En && found[i],
        lexicon_of(q, found).ru.contains(w) <==> exists|i: int|
            0 <= i < q.len() && (#[trigger] q[i]).0 == w && q[i].1 == Lang::Ru && found[i],
{
    if exists|i: int|
        0 <= i < q.len() && (#[trigger] q[i]).0 == w && q[i].1 == Lang::En && found[i] {
        let i = choose|i: int|
            0 <= i < q.len() && (#[trigger] q[i]).0 == w && q[i].1 == Lang::En && found[i];
        assert(q[i] == (w, Lang::En));
    }
    if exists|i: int|
        0 <= i < q.len() && (#[trigger] q[i]).0 == w && q[i].1 == Lang::Ru && found[i] {
        let i = choose|i: int|
            0 <= i < q.len() && (#[trigger] q[i]).0 == w && q[i].1 == Lang::Ru && found[i];
        assert(q[i] == (w, Lang::Ru));
    }
}

} // verus!
