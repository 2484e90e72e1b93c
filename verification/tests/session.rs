use matea_switcher::classifier::{DictClassifier, Dictionary, Verdict};
use matea_switcher::config::Config;
use matea_switcher::platform::atspi::FocusContext;
use matea_switcher::platform::kwin::KwinLayout;
use matea_switcher::platform::linux::{FlipAction, RawKeyEvent, Skipped, StartError};
use matea_switcher::platform::session::{
    Glyph, Outcome, Received, Session, WordAction, WordReport, HISTORY_LEN,
};

fn words(list: &[&str]) -> Vec<String> {
    list.iter().map(|s| s.to_string()).collect()
}

fn dict() -> DictClassifier {
    DictClassifier::new(
        Dictionary::new(words(&["hello", "ye", "good", "weather"])),
        Dictionary::new(words(&["привет", "ну", "сегодня", "хорошо"])),
    )
}

fn layouts() -> KwinLayout {
    KwinLayout::new(words(&["us", "ru"]))
}

fn session() -> Session {
    Session::new(&Config::default()).unwrap()
}

fn key(code: u16, pressed: bool) -> RawKeyEvent {
    RawKeyEvent { kbd_name: "test".into(), evdev_code: code, pressed }
}

fn glyph(utf8: &str, group: u32) -> Glyph {
    Glyph { utf8: utf8.into(), keysym: utf8.into(), group }
}

fn backspace() -> Glyph {
    Glyph { utf8: "\u{8}".into(), keysym: "BackSpace".into(), group: 0 }
}

/// Types the characters of a text, each with the key code 100 and up, and returns what the last
/// one gave.
fn type_text(s: &mut Session, text: &str, group: u32, focus: &FocusContext) -> Outcome {
    let mut last = Outcome::NoGlyph;
    for (i, c) in text.chars().enumerate() {
        last = s.handle_event(
            100 + i as u16,
            &glyph(&c.to_string(), group),
            &dict(),
            focus,
            &layouts(),
        );
    }
    last
}

fn typed_word(s: &mut Session, text: &str, group: u32) -> WordReport {
    match type_text(s, text, group, &FocusContext::default()) {
        Outcome::Word(report) => report,
        other => panic!("{other:?}"),
    }
}

#[test]
fn a_word_in_the_wrong_layout_is_rewritten() {
    let mut s = session();
    let report = typed_word(&mut s, "ghbdtn ", 0);
    assert_eq!(report.word, "ghbdtn");
    assert_eq!(report.flipped, "привет");
    assert_eq!(report.layout, "us");
    assert_eq!(report.verdict, Verdict::Flip);
    let WordAction::Rewrite(actions) = report.action else {
        panic!("not rewritten");
    };
    assert_eq!(actions.len(), 6);
    assert!(matches!(actions[0], FlipAction::Grab));
    assert!(matches!(actions[1], FlipAction::Erase(6)));
    assert!(matches!(actions[2], FlipAction::SetLayout(1)));
    assert!(matches!(actions[3], FlipAction::Wait(50)));
    assert!(matches!(&actions[4], FlipAction::Replay(k) if *k == vec![100, 101, 102, 103, 104, 105]));
    assert!(matches!(actions[5], FlipAction::Ungrab));
}

#[test]
fn a_word_in_the_right_layout_is_left() {
    let mut s = session();
    let report = typed_word(&mut s, "hello,", 0);
    assert_eq!(report.word, "hello");
    assert_eq!(report.verdict, Verdict::Keep);
    assert!(matches!(report.action, WordAction::Leave));
    let report = typed_word(&mut s, "руддщ\n", 1);
    assert_eq!(report.flipped, "hello");
    assert_eq!(report.layout, "ru");
    assert!(matches!(report.action, WordAction::Rewrite(_)));
}

#[test]
fn nothing_is_rewritten_where_the_focus_blocks() {
    let mut s = session();
    let password = FocusContext { window_class: "firefox".into(), is_password: true };
    let terminal = FocusContext { window_class: "konsole".into(), is_password: false };
    for focus in [password, terminal] {
        match type_text(&mut s, "ghbdtn ", 0, &focus) {
            Outcome::Word(report) => {
                assert_eq!(report.verdict, Verdict::Flip);
                assert!(matches!(report.action, WordAction::FocusBlocks));
            }
            other => panic!("{other:?}"),
        }
    }
}

#[test]
fn the_hotkey_switches_rewriting() {
    let mut s = session();
    assert!(s.enabled());
    assert_eq!(s.receive(&key(29, true), 0), Received::Press);
    assert_eq!(s.receive(&key(42, true), 0), Received::Press);
    assert_eq!(s.receive(&key(50, true), 0), Received::Toggled { enabled: false });
    assert!(!s.enabled());
    assert_eq!(s.receive(&key(50, false), 0), Received::Release);
    let report = typed_word(&mut s, "ghbdtn ", 0);
    assert_eq!(report.verdict, Verdict::Flip);
    assert!(matches!(report.action, WordAction::Disabled));
    assert_eq!(s.receive(&key(50, true), 0), Received::Toggled { enabled: true });
    let report = typed_word(&mut s, "ghbdtn ", 0);
    assert!(matches!(report.action, WordAction::Rewrite(_)));
}

#[test]
fn the_hotkey_drops_the_word() {
    let mut s = session();
    type_text(&mut s, "ghb", 0, &FocusContext::default());
    s.receive(&key(29, true), 0);
    s.receive(&key(54, true), 0);
    assert_eq!(s.receive(&key(50, true), 0), Received::Toggled { enabled: false });
    assert!(s.shutdown().is_none());
}

#[test]
fn a_modifier_too_many_is_no_hotkey() {
    let mut s = session();
    for code in [29, 42, 56] {
        s.receive(&key(code, true), 0);
    }
    assert_eq!(s.receive(&key(50, true), 0), Received::Press);
    s.receive(&key(100, false), 0);
    assert_eq!(s.receive(&key(50, true), 0), Received::Toggled { enabled: false });
}

#[test]
fn settings_are_applied() {
    let mut cfg = Config::default();
    cfg.general.enabled = false;
    cfg.hotkeys.toggle = "Pause".into();
    cfg.layouts.pair = words(&["us", "de"]);
    let mut s = Session::new(&cfg).unwrap();
    assert!(!s.enabled());
    assert_eq!(s.receive(&key(119, true), 0), Received::Toggled { enabled: true });
    let report = typed_word(&mut s, "ghbdtn ", 0);
    assert!(matches!(report.action, WordAction::Skip(Skipped::NoTarget)));
}

#[test]
fn a_bad_hotkey_stops_the_start() {
    let mut cfg = Config::default();
    cfg.hotkeys.toggle = "Ctrl+Foo".into();
    let e = Session::new(&cfg).unwrap_err();
    assert_eq!(e.message(), "invalid config.hotkeys.toggle = 'Ctrl+Foo'");
    match e {
        StartError::InvalidHotkey { hotkey, error } => {
            assert_eq!(error.message(&hotkey), "неизвестная клавиша 'foo' в hotkey 'Ctrl+Foo'");
        }
        other => panic!("{other:?}"),
    }
}

#[test]
fn backspace_undoes_a_character() {
    let mut s = session();
    type_text(&mut s, "ghbx", 0, &FocusContext::default());
    let o = s.handle_event(14, &backspace(), &dict(), &FocusContext::default(), &layouts());
    assert!(matches!(o, Outcome::Erased));
    let t = s.shutdown().unwrap();
    assert_eq!(t.word, "ghb");
    assert_eq!(t.layout, "us");
    assert_eq!(t.keycodes, vec![100, 101, 102]);
    assert!(s.shutdown().is_none());
    let o = s.handle_event(14, &backspace(), &dict(), &FocusContext::default(), &layouts());
    assert!(matches!(o, Outcome::Erased));
}

#[test]
fn keys_without_a_glyph_and_separators() {
    let mut s = session();
    let focus = FocusContext::default();
    assert!(matches!(type_text(&mut s, " ", 0, &focus), Outcome::Separator));
    let o = s.handle_event(42, &glyph("", 0), &dict(), &focus, &layouts());
    assert!(matches!(o, Outcome::NoGlyph));
    assert!(matches!(type_text(&mut s, "x", 0, &focus), Outcome::Added));
    let report = typed_word(&mut s, " ", 0);
    assert_eq!(report.word, "x");
    assert_eq!(report.verdict, Verdict::Uncertain);
}

#[test]
fn an_unknown_group_is_never_rewritten() {
    let mut s = session();
    let report = typed_word(&mut s, "ghbdtn ", 2);
    assert_eq!(report.layout, "??");
    assert_eq!(report.flipped, "");
    assert_eq!(report.verdict, Verdict::Uncertain);
    assert!(matches!(report.action, WordAction::Leave));
}

#[test]
fn words_before_decide_what_both_languages_know() {
    let mut s = session();
    assert_eq!(typed_word(&mut s, "ye ", 0).verdict, Verdict::Uncertain);
    typed_word(&mut s, "сегодня ", 1);
    typed_word(&mut s, "ctujlyz ", 0);
    typed_word(&mut s, "ghbdtn ", 0);
    assert_eq!(typed_word(&mut s, "ye ", 0).verdict, Verdict::Flip);
}

#[test]
fn the_history_takes_the_finished_words() {
    let mut s = session();
    typed_word(&mut s, "ghbdtn ", 0);
    typed_word(&mut s, "hello ", 0);
    typed_word(&mut s, "сегодня ", 1);
    type_text(&mut s, "ye", 0, &FocusContext::default());
    let asked: Vec<String> = s.lookups(&glyph(" ", 0)).into_iter().map(|l| l.word).collect();
    assert_eq!(
        asked,
        vec!["ye", "ну", "привет", "привет", "hello", "hello", "сегодня", "сегодня"]
    );
    assert!(s.lookups(&glyph("x", 0)).is_empty());
    assert!(s.lookups(&backspace()).is_empty());
    assert_eq!(HISTORY_LEN, 10);
}

/// The words of the history that are asked for at the end of `ye`.
fn asked_history(s: &mut Session) -> Vec<String> {
    type_text(s, "ye", 0, &FocusContext::default());
    let asked = s.lookups(&glyph(" ", 0)).into_iter().map(|l| l.word);
    let mut history: Vec<String> = asked.skip(2).collect();
    history.dedup();
    history
}

#[test]
fn a_blocked_flip_leaves_the_history_as_it_was() {
    let mut s = session();
    typed_word(&mut s, "hello ", 0);
    let terminal = FocusContext { window_class: "konsole".into(), is_password: false };
    type_text(&mut s, "ghbdtn ", 0, &terminal);
    assert_eq!(asked_history(&mut s), vec!["hello"]);
    // Without a flip the focus does not matter.
    let mut s = session();
    type_text(&mut s, "hello ", 0, &terminal);
    assert_eq!(asked_history(&mut s), vec!["hello"]);
}

#[test]
fn a_flip_while_switched_off_goes_into_the_history_as_typed() {
    let mut cfg = Config::default();
    cfg.general.enabled = false;
    let mut s = Session::new(&cfg).unwrap();
    let terminal = FocusContext { window_class: "konsole".into(), is_password: false };
    type_text(&mut s, "ghbdtn ", 0, &terminal);
    assert_eq!(asked_history(&mut s), vec!["ghbdtn"]);
}

#[test]
fn a_flip_without_a_target_goes_into_the_history_flipped() {
    let mut cfg = Config::default();
    cfg.layouts.pair = words(&["us", "de"]);
    let mut s = Session::new(&cfg).unwrap();
    let report = typed_word(&mut s, "ghbdtn ", 0);
    assert!(matches!(report.action, WordAction::Skip(Skipped::NoTarget)));
    assert_eq!(asked_history(&mut s), vec!["привет"]);
}

#[test]
fn the_answers_are_enough_for_a_session() {
    let mut a = session();
    let mut b = session();
    let focus = FocusContext::default();
    for word in ["ghbdtn", "hello", "ye", "xqzkpw", "ghbdtn", "ye"] {
        type_text(&mut a, word, 0, &focus);
        type_text(&mut b, word, 0, &focus);
        let list = b.lookups(&glyph(" ", 0));
        let found: Vec<bool> = list.iter().map(|l| dict().is_valid(&l.word, l.lang)).collect();
        let small = DictClassifier::from_answers(&list, &found);
        let x = a.handle_event(57, &glyph(" ", 0), &dict(), &focus, &layouts());
        let y = b.handle_event(57, &glyph(" ", 0), &small, &focus, &layouts());
        assert_eq!(format!("{x:?}"), format!("{y:?}"));
    }
}

#[test]
fn own_presses_are_ignored() {
    let mut s = session();
    assert_eq!(s.erase(3, 1000).len(), 6);
    assert_eq!(s.replay(&[34, 35, 48], 2000).len(), 6);
    for code in [14, 14, 14, 34, 35, 48] {
        assert_eq!(s.receive(&key(code, true), 3000), Received::Echo);
        assert_eq!(s.receive(&key(code, false), 3000), Received::Release);
    }
    assert_eq!(s.receive(&key(30, true), 3000), Received::Press);
}
