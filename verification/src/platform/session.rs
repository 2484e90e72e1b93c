//! The daemon at work: from key events to rewritten words.
//!
//! The keys are turned into glyphs. The glyphs gather in the word buffer until one ends the word;
//! then the word is judged. A word in the wrong layout is rewritten, unless rewriting is switched
//! off or the focus is where nothing may be rewritten. A hotkey switches rewriting off and on.

use vstd::prelude::*;

use crate::classifier::{lookups, ClassifyInput, DictClassifier, Lookup, Verdict};
use crate::config::{Config, Hotkey};
use crate::context::{is_word_boundary_char, TakenWord, WordBuffer, WordHistory};
use crate::mapper::{en_to_ru, ru_to_en};
use crate::platform::atspi::FocusContext;
use crate::platform::kwin::KwinLayout;
use crate::platform::linux::{
    check_toggle_hotkey_v2, do_flip, FlipAction, ModState, RawKeyEvent, Skipped, StartError,
};
use crate::platform::uinput::{KeyEvent, Rewriter};
use crate::platform::xkb::layout_name;
use crate::{classifier, config, context, mapper, platform, text};

verus! {

/// How many words before the current one are kept.
pub const HISTORY_LEN: usize = 10;

/// What a key gives.
#[derive(Debug, Clone)]
pub struct Glyph {
    /// The characters; none for a modifier, an arrow and the like.
    pub utf8: String,
    /// The xkb name of the symbol.
    pub keysym: String,
    /// The active group of the keymap.
    pub group: u32,
}

/// What a [`Glyph`] holds.
pub struct GlyphView {
    pub utf8: Seq<char>,
    pub keysym: Seq<char>,
    pub group: u32,
}

impl View for Glyph {
    type V = GlyphView;

    open spec fn view(&self) -> GlyphView {
        GlyphView { utf8: self.utf8@, keysym: self.keysym@, group: self.group }
    }
}

impl GlyphView {
    /// The key removes the last character.
    pub open spec fn is_backspace(self) -> bool {
        self.keysym == "BackSpace"@
    }

    /// The key gives a character that is part of a word.
    pub open spec fn is_word_char(self) -> bool {
        !self.is_backspace() && self.utf8.len() > 0 && !context::is_boundary(self.utf8[0])
    }

    /// The key gives a character that ends a word.
    pub open spec fn is_end(self) -> bool {
        !self.is_backspace() && self.utf8.len() > 0 && context::is_boundary(self.utf8[0])
    }
}

/// What a [`Session`] knows.
#[verifier::ext_equal]
pub struct SessionState {
    /// The word in progress.
    pub typed: context::Typed,
    /// The last finished words, oldest first.
    pub history: Seq<Seq<char>>,
    /// The sent key presses that are expected back.
    pub echo: Option<platform::uinput::Echo>,
    /// The modifiers that are held.
    pub mods: ModState,
    /// Whether words are rewritten.
    pub enabled: bool,
    /// Switches rewriting off and on.
    pub toggle: Hotkey,
    /// The layouts to switch between.
    pub pair: Seq<Seq<char>>,
}

/// What to do with a finished word.
pub enum Decision {
    /// The word is not to be flipped.
    Leave,
    /// Rewriting is switched off.
    Disabled,
    /// Nothing may be rewritten where the focus is.
    FocusBlocks,
    /// There is no layout to switch to.
    Skip(Skipped),
    /// The word is rewritten by these steps.
    Rewrite(Seq<platform::linux::Step>),
}

impl SessionState {
    /// The word in progress holds no character that would have ended it, and the history is not
    /// too long.
    pub open spec fn wf(self) -> bool {
        &&& self.typed.wf()
        &&& forall|i: int|
            0 <= i < self.typed.chars.len() ==> !context::is_boundary(
                #[trigger] self.typed.chars[i],
            )
        &&& self.history.len() <= HISTORY_LEN
    }

    /// The event is the toggle hotkey.
    pub open spec fn toggles(self, code: u16, pressed: bool) -> bool {
        platform::linux::is_hotkey(code, pressed, self.mods.after(code, pressed), self.toggle)
    }

    /// What is known after a key event was received.
    ///
    /// The hotkey switches rewriting and drops the word in progress. Any other press may be one
    /// that was sent and is expected back.
    pub open spec fn received(self, code: u16, pressed: bool, now: u64) -> SessionState {
        let mods = self.mods.after(code, pressed);
        if self.toggles(code, pressed) {
            SessionState {
                mods,
                enabled: !self.enabled,
                typed: context::Typed::nothing(),
                ..self
            }
        } else if pressed {
            SessionState { mods, echo: platform::uinput::consumed(self.echo, now), ..self }
        } else {
            SessionState { mods, ..self }
        }
    }

    /// The layout in which the word was started.
    pub open spec fn layout(self) -> Seq<char> {
        match self.typed.layout {
            Some(l) => l,
            None => Seq::empty(),
        }
    }

    /// A key with that glyph ends a word.
    pub open spec fn ends_word(self, glyph: GlyphView) -> bool {
        glyph.is_end() && self.typed.chars.len() > 0
    }

    /// The verdict on the word in progress.
    pub open spec fn verdict(self, lexicon: classifier::Lexicon) -> Verdict {
        lexicon.verdict(self.typed.chars, self.layout(), self.history)
    }

    /// What to do with the word in progress when it ends.
    pub open spec fn decision(
        self,
        lexicon: classifier::Lexicon,
        allowed: bool,
        layouts: Seq<Seq<char>>,
    ) -> Decision {
        if !(self.verdict(lexicon) is Flip) {
            Decision::Leave
        } else if !self.enabled {
            Decision::Disabled
        } else if !allowed {
            Decision::FocusBlocks
        } else {
            match platform::linux::flip_target(self.layout(), self.pair, layouts) {
                Err(e) => Decision::Skip(e),
                Ok(index) => Decision::Rewrite(
                    platform::linux::flip_steps(self.typed.keycodes, index),
                ),
            }
        }
    }

    /// The text that the keys of the word give in the other layout; empty if there is none.
    pub open spec fn flipped_word(self) -> Seq<char> {
        match classifier::languages(self.layout()) {
            Some((current, other)) => classifier::flipped_from(self.typed.chars, current),
            None => Seq::empty(),
        }
    }

    /// What the history takes of the word in progress when it ends.
    ///
    /// A word that is to be flipped goes in flipped. One that is not, or that is left because
    /// rewriting is switched off, goes in as it was typed. Of a word that the focus keeps from
    /// being flipped, nothing goes in.
    pub open spec fn recorded(
        self,
        lexicon: classifier::Lexicon,
        allowed: bool,
        layouts: Seq<Seq<char>>,
    ) -> Option<Seq<char>> {
        match self.decision(lexicon, allowed, layouts) {
            Decision::Leave => Some(self.typed.chars),
            Decision::Disabled => Some(self.typed.chars),
            Decision::FocusBlocks => None,
            Decision::Skip(_) => Some(self.flipped_word()),
            Decision::Rewrite(_) => Some(self.flipped_word()),
        }
    }

    /// What is known after a key with that glyph was pressed.
    pub open spec fn handled(
        self,
        code: u16,
        glyph: GlyphView,
        lexicon: classifier::Lexicon,
        allowed: bool,
        layouts: Seq<Seq<char>>,
    ) -> SessionState {
        if glyph.is_backspace() {
            SessionState { typed: self.typed.popped(), ..self }
        } else if glyph.is_word_char() {
            SessionState {
                typed: self.typed.pushed(
                    glyph.utf8[0],
                    platform::xkb::layout_of_group(glyph.group),
                    code,
                ),
                ..self
            }
        } else if self.ends_word(glyph) {
            SessionState {
                typed: context::Typed::nothing(),
                history: match self.recorded(lexicon, allowed, layouts) {
                    Some(word) => context::last_n(self.history.push(word), HISTORY_LEN as nat),
                    None => self.history,
                },
                ..self
            }
        } else {
            self
        }
    }
}

/// What a key event is.
#[derive(Debug, Clone, Copy, PartialEq, Eq, Structural)]
pub enum Received {
    /// The hotkey: rewriting is now on or off.
    Toggled { enabled: bool },
    /// A press that this program sent itself. It is ignored.
    Echo,
    /// A release.
    Release,
    /// A press by the user, to be handled.
    Press,
}

/// What is done with a finished word.
#[derive(Debug, Clone)]
pub enum WordAction {
    /// The word is not to be flipped.
    Leave,
    /// Rewriting is switched off.
    Disabled,
    /// Nothing may be rewritten where the focus is.
    FocusBlocks,
    /// There is no layout to switch to.
    Skip(Skipped),
    /// The word is rewritten by these steps.
    Rewrite(Vec<FlipAction>),
}

impl View for WordAction {
    type V = Decision;

    open spec fn view(&self) -> Decision {
        match self {
            WordAction::Leave => Decision::Leave,
            WordAction::Disabled => Decision::Disabled,
            WordAction::FocusBlocks => Decision::FocusBlocks,
            WordAction::Skip(e) => Decision::Skip(*e),
            WordAction::Rewrite(actions) => Decision::Rewrite(
                platform::linux::steps_of(actions@),
            ),
        }
    }
}

/// A finished word, and what is done with it.
#[derive(Debug, Clone)]
pub struct WordReport {
    /// The word as it was typed.
    pub word: String,
    /// What its keys give in the other layout; empty if the layout is not known.
    pub flipped: String,
    /// The layout in which the word was started.
    pub layout: String,
    pub verdict: Verdict,
    pub action: WordAction,
}

/// What a press was.
#[derive(Debug, Clone)]
pub enum Outcome {
    /// The last character was removed, if there was one.
    Erased,
    /// The key gives no character.
    NoGlyph,
    /// The character was added to the word in progress.
    Added,
    /// The character would have ended a word, but none was started.
    Separator,
    /// The character ended the word.
    Word(WordReport),
}

/// The daemon at work.
#[derive(Debug)]
pub struct Session {
    buffer: WordBuffer,
    history: WordHistory,
    rewriter: Rewriter,
    mods: ModState,
    enabled: bool,
    toggle: Hotkey,
    pair: Vec<String>,
}

impl View for Session {
    type V = SessionState;

    closed spec fn view(&self) -> SessionState {
        SessionState {
            typed: self.buffer@,
            history: self.history@,
            echo: self.rewriter@,
            mods: self.mods,
            enabled: self.enabled,
            toggle: self.toggle,
            pair: text::texts(self.pair@),
        }
    }
}

impl Session {
    /// The word in progress holds no character that would have ended it, and the history keeps
    /// the last ten words.
    pub closed spec fn wf(&self) -> bool {
        &&& self@.wf()
        &&& self.history.wf()
        &&& self.history.capacity() == HISTORY_LEN
    }

    /// In every session the word in progress holds no character that would have ended it, and
    /// has a key for each character; and the history is not too long.
    pub proof fn law_state_is_valid(&self)
        requires
            self.wf(),
        ensures
            self@.wf(),
    {
    }

    /// Starts with the given settings. It is an error if the toggle hotkey cannot be read.
    pub fn new(cfg: &Config) -> (r: Result<Session, StartError>)
        ensures
            match r {
                Ok(s) => {
                    &&& s.wf()
                    &&& config::is_reading(
                        config::hotkey_parts(cfg.hotkeys.toggle@),
                        Ok(s@.toggle),
                    )
                    &&& s@ == SessionState {
                        typed: context::Typed::nothing(),
                        history: Seq::empty(),
                        echo: None,
                        mods: ModState::none(),
                        enabled: cfg.general.enabled,
                        toggle: s@.toggle,
                        pair: text::texts(cfg.layouts.pair@),
                    }
                },
                Err(StartError::InvalidHotkey { hotkey, error }) => {
                    &&& hotkey@ == cfg.hotkeys.toggle@
                    &&& config::is_reading(
                        config::hotkey_parts(cfg.hotkeys.toggle@),
                        Err(error),
                    )
                },
                Err(StartError::NoKeyboards) => false,
            },
    {
        let toggle = match Hotkey::parse(cfg.hotkeys.toggle.as_str()) {
            Ok(h) => h,
            Err(error) => {
                let hotkey = text::owned(cfg.hotkeys.toggle.as_str());
                return Err(StartError::InvalidHotkey { hotkey, error });
            },
        };
        let mut pair: Vec<String> = Vec::new();
        let mut i: usize = 0;
        while i < cfg.layouts.pair.len()
            invariant
                0 <= i <= cfg.layouts.pair@.len(),
                pair@.len() == i,
                forall|k: int| 0 <= k < i ==> (#[trigger] pair@[k])@ == cfg.layouts.pair@[k]@,
            decreases cfg.layouts.pair@.len() - i,
        {
            pair.push(text::owned(cfg.layouts.pair[i].as_str()));
            i += 1;
        }
        let s = Session {
            buffer: WordBuffer::default(),
            history: WordHistory::new(HISTORY_LEN),
            rewriter: Rewriter::new(),
            mods: ModState::default(),
            enabled: cfg.general.enabled,
            toggle,
            pair,
        };
        proof {
            assert(s@.pair =~= text::texts(cfg.layouts.pair@));
        }
        Ok(s)
    }

    /// Whether words are rewritten.
    pub fn enabled(&self) -> (r: bool)
        ensures
            r == self@.enabled,
    {
        self.enabled
    }

    /// Takes note of a key event that was received at the time `now`, in nanoseconds on a clock
    /// that does not go back.
    pub fn receive(&mut self, ev: &RawKeyEvent, now: u64) -> (r: Received)
        requires
            old(self).wf(),
        ensures
            final(self).wf(),
            final(self)@ == old(self)@.received(ev.evdev_code, ev.pressed, now),
            r == (if old(self)@.toggles(ev.evdev_code, ev.pressed) {
                Received::Toggled { enabled: !old(self)@.enabled }
            } else if !ev.pressed {
                Received::Release
            } else if platform::uinput::is_pending(old(self)@.echo, now) {
                Received::Echo
            } else {
                Received::Press
            }),
    {
        self.mods.update(ev);
        if check_toggle_hotkey_v2(ev, &self.mods, &self.toggle) {
            self.enabled = !self.enabled;
            let _ = self.buffer.take();
            return Received::Toggled { enabled: self.enabled };
        }
        if !ev.pressed {
            return Received::Release;
        }
        if self.rewriter.maybe_consume_self_echo(now) {
            Received::Echo
        } else {
            Received::Press
        }
    }

    /// The questions to put to the spell checker before a press with that glyph is handled.
    pub fn lookups(&self, glyph: &Glyph) -> (list: Vec<Lookup>)
        requires
            self.wf(),
        ensures
            classifier::asked(list@) == (if self@.ends_word(glyph@) {
                classifier::questions(self@.typed.chars, self@.layout(), self@.history)
            } else {
                Seq::empty()
            }),
    {
        if !self.ends_word(glyph) {
            let list: Vec<Lookup> = Vec::new();
            proof {
                assert(classifier::asked(list@) =~= Seq::empty());
            }
            return list;
        }
        let recent = self.history.recent();
        let layout = match self.buffer.layout() {
            Some(l) => l,
            None => "",
        };
        lookups(
            &ClassifyInput {
                word: self.buffer.as_str(),
                active_layout: layout,
                recent_words: recent.as_slice(),
                window_class: None,
            },
        )
    }

    /// Whether a key with that glyph ends a word.
    fn ends_word(&self, glyph: &Glyph) -> (r: bool)
        ensures
            r == self@.ends_word(glyph@),
    {
        if text::same_text(glyph.keysym.as_str(), "BackSpace") || self.buffer.is_empty() {
            return false;
        }
        match first_char(glyph.utf8.as_str()) {
            Some(c) => is_word_boundary_char(c),
            None => false,
        }
    }

    /// Handles a press by the user.
    ///
    /// The dictionaries have to know the answers to [`Session::lookups`].
    pub fn handle_event(
        &mut self,
        evdev_code: u16,
        glyph: &Glyph,
        dict: &DictClassifier,
        focus: &FocusContext,
        kwin: &KwinLayout,
    ) -> (r: Outcome)
        requires
            old(self).wf(),
            kwin.wf(),
        ensures
            final(self).wf(),
            final(self)@ == old(self)@.handled(
                evdev_code,
                glyph@,
                dict@,
                focus.allows(),
                kwin@,
            ),
            match r {
                Outcome::Erased => glyph@.is_backspace(),
                Outcome::NoGlyph => !glyph@.is_backspace() && glyph@.utf8.len() == 0,
                Outcome::Added => glyph@.is_word_char(),
                Outcome::Separator => glyph@.is_end() && !old(self)@.ends_word(glyph@),
                Outcome::Word(report) => {
                    &&& old(self)@.ends_word(glyph@)
                    &&& report.word@ == old(self)@.typed.chars
                    &&& report.flipped@ == old(self)@.flipped_word()
                    &&& report.layout@ == old(self)@.layout()
                    &&& report.verdict == old(self)@.verdict(dict@)
                    &&& report.action@ == old(self)@.decision(dict@, focus.allows(), kwin@)
                },
            },
    {
        if text::same_text(glyph.keysym.as_str(), "BackSpace") {
            let _ = self.buffer.pop();
            return Outcome::Erased;
        }
        let first = match first_char(glyph.utf8.as_str()) {
            Some(c) => c,
            None => {
                return Outcome::NoGlyph;
            },
        };
        if !is_word_boundary_char(first) {
            self.buffer.push(first, layout_name(glyph.group), evdev_code);
            return Outcome::Added;
        }
        if self.buffer.is_empty() {
            return Outcome::Separator;
        }
        let t = self.buffer.take();
        let recent = self.history.recent();
        let verdict = dict.classify(
            &ClassifyInput {
                word: t.word.as_str(),
                active_layout: t.layout.as_str(),
                recent_words: recent.as_slice(),
                window_class: None,
            },
        );
        let flipped = flipped_text(&t);
        let action = match verdict {
            Verdict::Flip => {
                if !self.enabled {
                    WordAction::Disabled
                } else if !focus.allows_flip() {
                    WordAction::FocusBlocks
                } else {
                    match do_flip(&t, self.pair.as_slice(), kwin) {
                        Ok(actions) => WordAction::Rewrite(actions),
                        Err(e) => WordAction::Skip(e),
                    }
                }
            },
            _ => WordAction::Leave,
        };
        match &action {
            WordAction::Leave | WordAction::Disabled => {
                self.history.push(text::owned(t.word.as_str()));
            },
            WordAction::FocusBlocks => {},
            WordAction::Skip(_) | WordAction::Rewrite(_) => {
                self.history.push(text::owned(flipped.as_str()));
            },
        }
        Outcome::Word(WordReport { word: t.word, flipped, layout: t.layout, verdict, action })
    }

    /// The events that erase `n` characters. They are expected back.
    pub fn erase(&mut self, n: usize, now: u64) -> (events: Vec<KeyEvent>)
        requires
            old(self).wf(),
        ensures
            final(self).wf(),
            events@ == platform::uinput::taps(
                platform::uinput::repeated(platform::uinput::KEY_BACKSPACE, n as nat),
            ),
            final(self)@ == (SessionState {
                echo: platform::uinput::armed(old(self)@.echo, n as nat, now),
                ..old(self)@
            }),
    {
        self.rewriter.backspace(n, now)
    }

    /// The events that send the keys again. They are expected back.
    pub fn replay(&mut self, keycodes: &[u16], now: u64) -> (events: Vec<KeyEvent>)
        requires
            old(self).wf(),
        ensures
            final(self).wf(),
            events@ == platform::uinput::taps(keycodes@),
            final(self)@ == (SessionState {
                echo: platform::uinput::armed(old(self)@.echo, keycodes@.len(), now),
                ..old(self)@
            }),
    {
        self.rewriter.replay_keycodes(keycodes, now)
    }

    /// The word that was not finished, if there is one. The buffer is empty afterwards.
    pub fn shutdown(&mut self) -> (r: Option<TakenWord>)
        requires
            old(self).wf(),
        ensures
            final(self).wf(),
            final(self)@ == (SessionState { typed: context::Typed::nothing(), ..old(self)@ }),
            r is Some <==> old(self)@.typed.chars.len() > 0,
            r matches Some(t) ==> t.word@ == old(self)@.typed.chars && t.layout@
                == old(self)@.layout() && t.keycodes@ == old(self)@.typed.keycodes,
    {
        let started = !self.buffer.is_empty();
        let t = self.buffer.take();
        if started {
            Some(t)
        } else {
            None
        }
    }
}

/// The first character of a text.
fn first_char(s: &str) -> (r: Option<char>)
    ensures
        r == (if s@.len() == 0 {
            None
        } else {
            Some(s@[0])
        }),
{
    let chars = text::chars_of(s);
    if chars.len() == 0 {
        None
    } else {
        Some(chars[0])
    }
}

/// The text that the keys of a word give in the other layout; empty if there is none.
fn flipped_text(t: &TakenWord) -> (r: String)
    ensures
        r@ == (match classifier::languages(t.layout@) {
            Some((current, other)) => classifier::flipped_from(t.word@, current),
            None => Seq::empty(),
        }),
{
    if text::same_text(t.layout.as_str(), "us") {
        en_to_ru(t.word.as_str())
    } else if text::same_text(t.layout.as_str(), "ru") {
        ru_to_en(t.word.as_str())
    } else {
        String::new()
    }
}

/// A word is rewritten only if it is judged to be in the wrong layout, rewriting is switched on,
/// and the focus allows it.
pub proof fn law_rewrites_only_when_allowed(
    s: SessionState,
    lexicon: classifier::Lexicon,
    allowed: bool,
    layouts: Seq<Seq<char>>,
)
    requires
        s.decision(lexicon, allowed, layouts) is Rewrite,
    ensures
        s.enabled,
        allowed,
        s.verdict(lexicon) is Flip,
{
}

/// A layout to switch to is one of the pair, and not the current one.
proof fn lemma_target(pair: Seq<Seq<char>>, layout: Seq<char>)
    ensures
        platform::linux::target_of(pair, layout) matches Some(t) ==> t != layout && pair.contains(
            t,
        ),
    decreases pair.len(),
{
    if pair.len() > 0 {
        if pair[0] == layout {
            let rest = pair.drop_first();
            lemma_target(rest, layout);
            if let Some(t) = platform::linux::target_of(rest, layout) {
                let k = rest.index_of(t);
                assert(pair[k + 1] == t);
            }
        } else {
            assert(pair.contains(pair[0]));
        }
    }
}

/// A word is rewritten by exactly the keys it was typed with: as many characters are erased as
/// there are keys, and the keys are sent again in a layout of the pair, other than the one that
/// the word was typed in.
pub proof fn law_a_rewrite_sends_the_typed_keys(
    s: SessionState,
    lexicon: classifier::Lexicon,
    allowed: bool,
    layouts: Seq<Seq<char>>,
) -> (index: int)
    requires
        s.decision(lexicon, allowed, layouts) is Rewrite,
    ensures
        s.decision(lexicon, allowed, layouts) == Decision::Rewrite(
            platform::linux::flip_steps(s.typed.keycodes, index),
        ),
        0 <= index < layouts.len(),
        layouts[index] != s.layout(),
        s.pair.contains(layouts[index]),
{
    let name = platform::linux::target_of(s.pair, s.layout())->0;
    lemma_target(s.pair, s.layout());
    platform::kwin::law_place_holds_the_name(layouts, name);
    platform::kwin::place_of(layouts, name)->0
}

/// Only the hotkey switches rewriting on or off: no glyph and no other key does.
pub proof fn law_only_the_hotkey_switches(
    s: SessionState,
    code: u16,
    pressed: bool,
    now: u64,
    glyph: GlyphView,
    lexicon: classifier::Lexicon,
    allowed: bool,
    layouts: Seq<Seq<char>>,
)
    ensures
        s.received(code, pressed, now).enabled != s.enabled <==> s.toggles(code, pressed),
        s.handled(code, glyph, lexicon, allowed, layouts).enabled == s.enabled,
{
}

/// Switching twice brings back what was before, whatever was typed in between.
pub proof fn law_switching_twice_undoes_it(
    s: SessionState,
    code: u16,
    now: u64,
    between: SessionState,
    later: u64,
)
    requires
        s.toggles(code, true),
        between.enabled == s.received(code, true, now).enabled,
        between.toggles(code, true),
    ensures
        between.received(code, true, later).enabled == s.enabled,
{
}

/// After the hotkey the word in progress is dropped, so that no part of it is rewritten later.
pub proof fn law_the_hotkey_drops_the_word(s: SessionState, code: u16, pressed: bool, now: u64)
    requires
        s.toggles(code, pressed),
    ensures
        s.received(code, pressed, now).typed == context::Typed::nothing(),
{
}

/// Switching rewriting off changes no verdict.
pub proof fn law_verdicts_are_given_while_off(
    s: SessionState,
    lexicon: classifier::Lexicon,
    enabled: bool,
)
    ensures
        (SessionState { enabled, ..s }).verdict(lexicon) == s.verdict(lexicon),
{
}

/// A backspace after a character of a word undoes it.
pub proof fn law_backspace_undoes_a_character(
    s: SessionState,
    code: u16,
    glyph: GlyphView,
    back_code: u16,
    back: GlyphView,
    lexicon: classifier::Lexicon,
    allowed: bool,
    layouts: Seq<Seq<char>>,
)
    requires
        s.wf(),
        glyph.is_word_char(),
        back.is_backspace(),
    ensures
        s.handled(code, glyph, lexicon, allowed, layouts).handled(
            back_code,
            back,
            lexicon,
            allowed,
            layouts,
        ) == s,
{
    context::law_pop_undoes_push(
        s.typed,
        glyph.utf8[0],
        platform::xkb::layout_of_group(glyph.group),
        code,
    );
}

/// Every key event and every glyph leaves the session valid.
pub proof fn law_the_session_stays_valid(
    s: SessionState,
    code: u16,
    pressed: bool,
    now: u64,
    glyph: GlyphView,
    lexicon: classifier::Lexicon,
    allowed: bool,
    layouts: Seq<Seq<char>>,
)
    requires
        s.wf(),
    ensures
        s.received(code, pressed, now).wf(),
        s.handled(code, glyph, lexicon, allowed, layouts).wf(),
{
}

/// What is known after a series of presses, each a key and its glyph.
pub open spec fn handled_all(
    s: SessionState,
    strokes: Seq<(u16, GlyphView)>,
    lexicon: classifier::Lexicon,
    allowed: bool,
    layouts: Seq<Seq<char>>,
) -> SessionState
    decreases strokes.len(),
{
    if strokes.len() == 0 {
        s
    } else {
        let (code, glyph) = strokes.last();
        handled_all(s, strokes.drop_last(), lexicon, allowed, layouts).handled(
            code,
            glyph,
            lexicon,
            allowed,
            layouts,
        )
    }
}

/// A word is judged whole: after presses that all give characters of a word, the word in progress
/// holds these characters and their keys, in order, and the layout of the first one; and nothing
/// else has changed.
pub proof fn law_a_typed_word_is_judged_whole(
    s: SessionState,
    strokes: Seq<(u16, GlyphView)>,
    lexicon: classifier::Lexicon,
    allowed: bool,
    layouts: Seq<Seq<char>>,
)
    requires
        s.typed == context::Typed::nothing(),
        forall|i: int| 0 <= i < strokes.len() ==> (#[trigger] strokes[i]).1.is_word_char(),
        strokes.len() > 0,
    ensures
        handled_all(s, strokes, lexicon, allowed, layouts) == (SessionState {
            typed: context::Typed {
                chars: strokes.map_values(|k: (u16, GlyphView)| k.1.utf8[0]),
                keycodes: strokes.map_values(|k: (u16, GlyphView)| k.0),
                layout: Some(platform::xkb::layout_of_group(strokes[0].1.group)),
            },
            ..s
        }),
    decreases strokes.len(),
{
    let front = strokes.drop_last();
    let chars = strokes.map_values(|k: (u16, GlyphView)| k.1.utf8[0]);
    let keycodes = strokes.map_values(|k: (u16, GlyphView)| k.0);
    let front_chars = front.map_values(|k: (u16, GlyphView)| k.1.utf8[0]);
    let front_codes = front.map_values(|k: (u16, GlyphView)| k.0);
    assert(strokes.last() == strokes[strokes.len() - 1]);
    assert(chars =~= front_chars.push(strokes.last().1.utf8[0]));
    assert(keycodes =~= front_codes.push(strokes.last().0));
    if front.len() > 0 {
        assert forall|i: int| 0 <= i < front.len() implies (
        #[trigger] front[i]).1.is_word_char() by {
            assert(front[i] == strokes[i]);
        }
        law_a_typed_word_is_judged_whole(s, front, lexicon, allowed, layouts);
        assert(front[0] == strokes[0]);
    } else {
        assert(handled_all(s, front, lexicon, allowed, layouts) == s);
        assert(front_chars =~= Seq::empty());
        assert(front_codes =~= Seq::empty());
    }
}

/// The answers of the spell checker are all that is needed: with them the session goes on as with
/// the whole dictionaries.
pub proof fn law_answers_suffice(
    s: SessionState,
    code: u16,
    glyph: GlyphView,
    truth: classifier::Lexicon,
    found: Seq<bool>,
    allowed: bool,
    layouts: Seq<Seq<char>>,
)
    requires
        s.ends_word(glyph),
        found.len() == classifier::questions(s.typed.chars, s.layout(), s.history).len(),
        forall|i: int|
            0 <= i < found.len() ==> #[trigger] found[i] == truth.valid(
                classifier::questions(s.typed.chars, s.layout(), s.history)[i].0,
                classifier::questions(s.typed.chars, s.layout(), s.history)[i].1,
            ),
    ensures
        ({
            let learnt = classifier::lexicon_of(
                classifier::questions(s.typed.chars, s.layout(), s.history),
                found,
            );
            &&& s.decision(learnt, allowed, layouts) == s.decision(truth, allowed, layouts)
            &&& s.handled(code, glyph, learnt, allowed, layouts) == s.handled(
                code,
                glyph,
                truth,
                allowed,
                layouts,
            )
        }),
{
    classifier::law_lookups_suffice(truth, s.typed.chars, s.layout(), s.history, found);
}

/// The history takes a finished word flipped exactly if it is to be flipped, rewriting is switched
/// on and the focus allows it. A word that the focus keeps from being flipped leaves the history
/// as it was; any other one goes in as it was typed.
pub proof fn law_the_history_takes_the_word(
    s: SessionState,
    code: u16,
    glyph: GlyphView,
    lexicon: classifier::Lexicon,
    allowed: bool,
    layouts: Seq<Seq<char>>,
)
    requires
        s.ends_word(glyph),
    ensures
        ({
            let after = s.handled(code, glyph, lexicon, allowed, layouts).history;
            let flip = s.verdict(lexicon) is Flip && s.enabled;
            &&& flip && !allowed ==> after == s.history
            &&& flip && allowed ==> after.len() > 0 && after.last() == s.flipped_word()
            &&& !flip ==> after.len() > 0 && after.last() == s.typed.chars
        }),
{
}

/// What is known after a series of presses was received, each a key and a time.
pub open spec fn received_all(s: SessionState, presses: Seq<(u16, u64)>) -> SessionState
    decreases presses.len(),
{
    if presses.len() == 0 {
        s
    } else {
        let (code, now) = presses.last();
        received_all(s, presses.drop_last()).received(code, true, now)
    }
}

/// What the program sends does not start a new word: when a word was erased with `n` presses and
/// `m` presses were sent in its place, as many presses that come back in time are ignored one by
/// one, and the word in progress and the history stay as they were. The hotkey is not ignored.
pub proof fn law_own_presses_are_ignored(
    s: SessionState,
    n: nat,
    erased: u64,
    m: nat,
    replayed: u64,
    presses: Seq<(u16, u64)>,
    k: int,
)
    requires
        0 < n,
        n + m <= u64::MAX,
        replayed < erased + platform::uinput::ECHO_WINDOW_NS,
        s.echo == platform::uinput::armed(
            platform::uinput::armed(None, n, erased),
            m,
            replayed,
        ),
        presses.len() == n + m,
        forall|i: int|
            0 <= i < presses.len() ==> (#[trigger] presses[i]).1 < replayed
                + platform::uinput::ECHO_WINDOW_NS && !received_all(s, presses.take(i)).toggles(
                presses[i].0,
                true,
            ),
        0 <= k <= presses.len(),
    ensures
        k < presses.len() ==> platform::uinput::is_pending(
            received_all(s, presses.take(k)).echo,
            presses[k].1,
        ),
        received_all(s, presses.take(k)).typed == s.typed,
        received_all(s, presses.take(k)).history == s.history,
        received_all(s, presses.take(k)).enabled == s.enabled,
{
    lemma_own_presses(s, (n + m) as nat, replayed, presses, k);
}

proof fn lemma_own_presses(
    s: SessionState,
    n: nat,
    sent: u64,
    presses: Seq<(u16, u64)>,
    k: int,
)
    requires
        s.echo == Some(platform::uinput::Echo { since: sent, count: n }),
        presses.len() == n,
        forall|i: int|
            0 <= i < presses.len() ==> (#[trigger] presses[i]).1 < sent
                + platform::uinput::ECHO_WINDOW_NS && !received_all(s, presses.take(i)).toggles(
                presses[i].0,
                true,
            ),
        0 <= k <= presses.len(),
    ensures
        received_all(s, presses.take(k)).echo == Some(
            platform::uinput::Echo { since: sent, count: (n - k) as nat },
        ),
        received_all(s, presses.take(k)).typed == s.typed,
        received_all(s, presses.take(k)).history == s.history,
        received_all(s, presses.take(k)).enabled == s.enabled,
    decreases k,
{
    if k > 0 {
        lemma_own_presses(s, n, sent, presses, k - 1);
        assert(presses.take(k).drop_last() =~= presses.take(k - 1));
        assert(presses.take(k).last() == presses[k - 1]);
    } else {
        assert(presses.take(0) =~= Seq::empty());
    }
}

/// What a key gives is what the glyph holds.
pub proof fn law_what_a_glyph_holds(g: Glyph)
    ensures
        g@.utf8 == g.utf8@,
        g@.keysym == g.keysym@,
        g@.group == g.group,
{
}

/// What a press is goes by the symbol and the first character: the backspace key removes, a
/// character that ends words ends one, any other character is part of a word, and a key without a
/// character is none of these.
pub proof fn law_what_a_press_is(g: GlyphView)
    ensures
        g.is_backspace() <==> g.keysym == "BackSpace"@,
        g.is_word_char() <==> g.keysym != "BackSpace"@ && g.utf8.len() > 0 && !context::is_boundary(
            g.utf8[0],
        ),
        g.is_end() <==> g.keysym != "BackSpace"@ && g.utf8.len() > 0 && context::is_boundary(
            g.utf8[0],
        ),
{
}

/// A key event that is not the hotkey leaves the word in progress, the history, the switch and the
/// settings as they were: a release, a press by the user, and a press that was sent and came back.
/// Only a press touches the account of expected presses.
pub proof fn law_key_events_leave_the_word_alone(
    s: SessionState,
    code: u16,
    pressed: bool,
    now: u64,
)
    requires
        !s.toggles(code, pressed),
    ensures
        s.received(code, pressed, now).typed == s.typed,
        s.received(code, pressed, now).history == s.history,
        s.received(code, pressed, now).enabled == s.enabled,
        s.received(code, pressed, now).toggle == s.toggle,
        s.received(code, pressed, now).pair == s.pair,
        s.received(code, pressed, now).mods == s.mods.after(code, pressed),
        !pressed ==> s.received(code, pressed, now).echo == s.echo,
        pressed ==> s.received(code, pressed, now).echo == platform::uinput::consumed(s.echo, now),
{
}

/// The hotkey is pressed when its key goes down while exactly its modifiers are held, that key
/// itself counted. It turns the switch over and empties the word in progress, and touches nothing
/// else.
pub proof fn law_what_the_hotkey_does(s: SessionState, code: u16, pressed: bool, now: u64)
    ensures
        s.toggles(code, pressed) <==> pressed && code == s.toggle.keycode && s.mods.after(
            code,
            pressed,
        ) == (ModState {
            ctrl: s.toggle.ctrl,
            shift: s.toggle.shift,
            alt: s.toggle.alt,
            meta: s.toggle.meta,
        }),
        s.toggles(code, pressed) ==> {
            let after = s.received(code, pressed, now);
            &&& after.enabled == !s.enabled
            &&& after.typed.chars.len() == 0
            &&& after.typed.keycodes.len() == 0
            &&& after.typed.layout is None
            &&& after.history == s.history
            &&& after.echo == s.echo
            &&& after.mods == s.mods.after(code, pressed)
            &&& after.toggle == s.toggle
            &&& after.pair == s.pair
        },
{
}

/// A press that gives a character of a word adds it, with its key and layout, behind the word in
/// progress; the backspace key takes the last character away; and a press that gives nothing, or
/// ends no word, changes nothing. The history takes no word from any of them.
pub proof fn law_presses_inside_a_word(
    s: SessionState,
    code: u16,
    glyph: GlyphView,
    lexicon: classifier::Lexicon,
    allowed: bool,
    layouts: Seq<Seq<char>>,
)
    ensures
        ({
            let after = s.handled(code, glyph, lexicon, allowed, layouts);
            let ends = glyph.keysym != "BackSpace"@ && glyph.utf8.len() > 0 && context::is_boundary(
                glyph.utf8[0],
            );
            &&& glyph.keysym == "BackSpace"@ ==> after.typed == s.typed.popped()
            &&& glyph.keysym != "BackSpace"@ && glyph.utf8.len() == 0 ==> after.typed == s.typed
            &&& glyph.keysym != "BackSpace"@ && glyph.utf8.len() > 0 && !ends ==> {
                &&& after.typed.chars == s.typed.chars + seq![glyph.utf8[0]]
                &&& after.typed.keycodes == s.typed.keycodes + seq![code]
                &&& s.typed.chars.len() > 0 ==> after.typed.layout == s.typed.layout
                &&& s.typed.chars.len() == 0 ==> after.typed.layout == Some(
                    platform::xkb::layout_of_group(glyph.group),
                )
            }
            &&& ends && s.typed.chars.len() == 0 ==> after.typed == s.typed
            &&& !ends || s.typed.chars.len() == 0 ==> after.history == s.history
            &&& after.echo == s.echo
            &&& after.mods == s.mods
            &&& after.enabled == s.enabled
            &&& after.toggle == s.toggle
            &&& after.pair == s.pair
        }),
{
    context::law_a_character_is_added_at_the_end(
        s.typed,
        glyph.utf8[0],
        platform::xkb::layout_of_group(glyph.group),
        code,
    );
}

/// When a word ends nothing of it stays behind, and the history takes at most one word, behind the
/// others, of which the last nine at least stay.
pub proof fn law_the_end_of_a_word(
    s: SessionState,
    code: u16,
    glyph: GlyphView,
    lexicon: classifier::Lexicon,
    allowed: bool,
    layouts: Seq<Seq<char>>,
)
    requires
        glyph.keysym != "BackSpace"@,
        glyph.utf8.len() > 0,
        context::is_boundary(glyph.utf8[0]),
        s.typed.chars.len() > 0,
        s.history.len() <= 10,
    ensures
        ({
            let after = s.handled(code, glyph, lexicon, allowed, layouts);
            let kept = if s.history.len() < 10 {
                s.history
            } else {
                s.history.skip(1)
            };
            let flip = s.verdict(lexicon) == Verdict::Flip && s.enabled;
            &&& s.ends_word(glyph)
            &&& after.typed.chars.len() == 0
            &&& after.typed.keycodes.len() == 0
            &&& after.typed.layout is None
            &&& flip && !allowed ==> after.history == s.history
            &&& flip && allowed ==> after.history == kept + seq![s.flipped_word()]
            &&& !flip ==> after.history == kept + seq![s.typed.chars]
        }),
{
    let after = s.handled(code, glyph, lexicon, allowed, layouts);
    let kept = if s.history.len() < 10 {
        s.history
    } else {
        s.history.skip(1)
    };
    assert(context::last_n(s.history.push(s.typed.chars), 10) =~= kept + seq![s.typed.chars]);
    assert(context::last_n(s.history.push(s.flipped_word()), 10) =~= kept
        + seq![s.flipped_word()]);
}

/// The word in progress is judged as it stands: its characters, in the layout in which it was
/// started, after the words of the history.
pub proof fn law_the_word_is_judged_as_it_stands(
    s: SessionState,
    lexicon: classifier::Lexicon,
    layout: Seq<char>,
)
    requires
        s.typed.layout == Some(layout),
    ensures
        s.verdict(lexicon) == lexicon.verdict(s.typed.chars, layout, s.history),
        s.layout() == layout,
        layout == "us"@ ==> s.flipped_word() == mapper::flipped(s.typed.chars, false),
        layout == "ru"@ ==> s.flipped_word() == mapper::flipped(s.typed.chars, true),
        layout != "us"@ && layout != "ru"@ ==> s.flipped_word().len() == 0,
{
    classifier::law_known_layouts(layout);
    classifier::law_words_are_in_their_dictionary(lexicon, s.typed.chars);
}

/// What is done with a finished word. It is rewritten exactly if it is to be flipped, rewriting is
/// switched on, the focus allows it, and there is a layout to switch to; and it is rewritten by
/// erasing a character for each of its keys and sending the same keys again. Each other outcome has
/// its own reason.
pub proof fn law_what_is_done_with_a_word(
    s: SessionState,
    lexicon: classifier::Lexicon,
    allowed: bool,
    layouts: Seq<Seq<char>>,
)
    ensures
        ({
            let d = s.decision(lexicon, allowed, layouts);
            let flip = s.verdict(lexicon) == Verdict::Flip;
            let target = platform::linux::flip_target(s.layout(), s.pair, layouts);
            &&& d is Leave <==> !flip
            &&& d is Disabled <==> flip && !s.enabled
            &&& d is FocusBlocks <==> flip && s.enabled && !allowed
            &&& d is Skip <==> flip && s.enabled && allowed && target is Err
            &&& d is Rewrite <==> flip && s.enabled && allowed && target is Ok
            &&& d matches Decision::Skip(e) ==> target == Err::<int, Skipped>(e)
            &&& d matches Decision::Rewrite(steps) ==> {
                &&& steps.len() == 6
                &&& steps[0] is Grab
                &&& steps[1] == platform::linux::Step::Erase(s.typed.keycodes.len())
                &&& steps[2] == platform::linux::Step::SetLayout(target->Ok_0)
                &&& steps[3] == platform::linux::Step::Wait(50)
                &&& steps[4] == platform::linux::Step::Replay(s.typed.keycodes)
                &&& steps[5] is Ungrab
            }
        }),
{
}

/// The outcome that is reported is the one that was decided.
pub proof fn law_actions_are_decisions(actions: Vec<FlipAction>, reason: Skipped)
    ensures
        WordAction::Leave@ == Decision::Leave,
        WordAction::Disabled@ == Decision::Disabled,
        WordAction::FocusBlocks@ == Decision::FocusBlocks,
        WordAction::Skip(reason)@ == Decision::Skip(reason),
        WordAction::Rewrite(actions)@ == Decision::Rewrite(platform::linux::steps_of(actions@)),
{
}

/// What is known after keys were typed, each pressed, handled and released before the next.
pub open spec fn typed_key_by_key(
    s: SessionState,
    keys: Seq<(u16, GlyphView, u64)>,
    lexicon: classifier::Lexicon,
    allowed: bool,
    layouts: Seq<Seq<char>>,
) -> SessionState
    decreases keys.len(),
{
    if keys.len() == 0 {
        s
    } else {
        let (code, glyph, now) = keys.last();
        typed_key_by_key(s, keys.drop_last(), lexicon, allowed, layouts).received(
            code,
            true,
            now,
        ).handled(code, glyph, lexicon, allowed, layouts).received(code, false, now)
    }
}

/// A word that is typed key by key, each key pressed and released before the next, is there as a
/// whole when it ends: all its characters, all its keys, and the layout of the first. Nothing of it
/// is lost on the way, and the history is as it was.
pub proof fn law_a_word_typed_key_by_key_is_whole(
    s: SessionState,
    keys: Seq<(u16, GlyphView, u64)>,
    lexicon: classifier::Lexicon,
    allowed: bool,
    layouts: Seq<Seq<char>>,
)
    requires
        s.typed.chars.len() == 0,
        s.typed.keycodes.len() == 0,
        forall|i: int|
            0 <= i < keys.len() ==> (#[trigger] keys[i]).1.keysym != "BackSpace"@
                && keys[i].1.utf8.len() > 0 && !context::is_boundary(keys[i].1.utf8[0])
                && keys[i].0 != s.toggle.keycode,
    ensures
        ({
            let after = typed_key_by_key(s, keys, lexicon, allowed, layouts);
            &&& after.typed.chars.len() == keys.len()
            &&& after.typed.keycodes.len() == keys.len()
            &&& forall|i: int|
                0 <= i < keys.len() ==> after.typed.chars[i] == (#[trigger] keys[i]).1.utf8[0]
                    && after.typed.keycodes[i] == keys[i].0
            &&& keys.len() > 0 ==> after.typed.layout == Some(
                platform::xkb::layout_of_group(keys[0].1.group),
            )
            &&& after.history == s.history
            &&& after.enabled == s.enabled
            &&& after.toggle == s.toggle
            &&& after.pair == s.pair
        }),
    decreases keys.len(),
{
    if keys.len() > 0 {
        let front = keys.drop_last();
        assert forall|i: int| 0 <= i < front.len() implies (#[trigger] front[i]).1.keysym
            != "BackSpace"@ && front[i].1.utf8.len() > 0 && !context::is_boundary(
            front[i].1.utf8[0],
        ) && front[i].0 != s.toggle.keycode by {
            assert(front[i] == keys[i]);
        }
        law_a_word_typed_key_by_key_is_whole(s, front, lexicon, allowed, layouts);
        let before = typed_key_by_key(s, front, lexicon, allowed, layouts);
        let after = typed_key_by_key(s, keys, lexicon, allowed, layouts);
        assert(keys.last() == keys[keys.len() - 1]);
        assert forall|i: int| 0 <= i < keys.len() implies after.typed.chars[i] == (
        #[trigger] keys[i]).1.utf8[0] && after.typed.keycodes[i] == keys[i].0 by {
            if i < front.len() {
                assert(front[i] == keys[i]);
            }
        }
        if front.len() > 0 {
            assert(front[0] == keys[0]);
        }
    }
}

} // verus!
