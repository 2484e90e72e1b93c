use matea_switcher::config::{
    default_file_text, default_layout_pair, default_toggle_hotkey, default_true, load,
    parse_keyname, Config, ConfigFile, Hotkey, HotkeyError,
};

#[test]
fn hotkey_parse_default() {
    let h = Hotkey::parse("Ctrl+Shift+M").unwrap();
    assert!(h.ctrl);
    assert!(h.shift);
    assert!(!h.alt);
    assert!(!h.meta);
    assert_eq!(h.keycode, 50);
}

#[test]
fn hotkey_parse_case_insensitive() {
    let h = Hotkey::parse("ctrl+shift+m").unwrap();
    assert!(h.ctrl);
    assert!(h.shift);
    assert_eq!(h.keycode, 50);
}

#[test]
fn hotkey_parse_meta_aliases() {
    for s in ["Meta+Space", "Super+Space", "Win+Space"] {
        let h = Hotkey::parse(s).unwrap();
        assert!(h.meta);
        assert_eq!(h.keycode, 57);
    }
}

#[test]
fn hotkey_parse_pause() {
    let h = Hotkey::parse("Pause").unwrap();
    assert!(!h.ctrl && !h.shift && !h.alt && !h.meta);
    assert_eq!(h.keycode, 119);
}

#[test]
fn hotkey_parse_unknown_key() {
    assert!(Hotkey::parse("Ctrl+Foo").is_err());
}

#[test]
fn hotkey_parse_no_main_key() {
    assert!(Hotkey::parse("Ctrl+Shift").is_err());
}

#[test]
fn hotkey_with_every_modifier_and_spaces() {
    let h = Hotkey::parse(" Control + shift+ALT +Windows+ F12 ").unwrap();
    assert_eq!(h, Hotkey { ctrl: true, shift: true, alt: true, meta: true, keycode: 88 });
}

#[test]
fn a_respelled_hotkey_reads_the_same() {
    let h = Hotkey::parse("Ctrl+Shift+M").unwrap();
    for s in [
        "M+Shift+Ctrl",
        "Shift+M+Ctrl",
        "cTRL+sHIFT+m",
        " Ctrl\t+  Shift+M\u{3000}",
        "Ctrl+Shift+Shift+M",
        "Ctrl+Shift+M+Ctrl",
        "Control+Shift+M",
        " m + SHIFT+control+Ctrl ",
    ] {
        assert_eq!(Hotkey::parse(s).unwrap(), h, "{s}");
    }
    let w = Hotkey::parse("Win+Space").unwrap();
    for s in ["Windows+Space", "space+SUPER", "Meta+Win+Space+Super"] {
        assert_eq!(Hotkey::parse(s).unwrap(), w, "{s}");
    }
}

#[test]
fn a_respelled_error_stays_an_error() {
    for s in ["Ctrl+Foo", "foo + CONTROL", "Foo+Ctrl+Ctrl", "A+B", "b+a", "A+A", "Shift+Ctrl", "ctrl+Ctrl"] {
        assert!(Hotkey::parse(s).is_err(), "{s}");
    }
}

#[test]
fn hotkey_errors_are_told_apart() {
    match Hotkey::parse("Ctrl+Foo") {
        Err(HotkeyError::UnknownKey { key }) => assert_eq!(key, "foo"),
        other => panic!("{other:?}"),
    }
    assert!(matches!(Hotkey::parse("A+B"), Err(HotkeyError::SeveralKeys)));
    assert!(matches!(Hotkey::parse("Ctrl+Alt"), Err(HotkeyError::NoMainKey)));
    assert!(matches!(Hotkey::parse("A+Foo+B"), Err(HotkeyError::UnknownKey { .. })));
    assert!(matches!(Hotkey::parse("A+B+Foo"), Err(HotkeyError::SeveralKeys)));
    assert!(matches!(Hotkey::parse(""), Err(HotkeyError::UnknownKey { .. })));
    assert!(matches!(Hotkey::parse("Ctrl++M"), Err(HotkeyError::UnknownKey { .. })));
}

#[test]
fn hotkey_error_messages() {
    let e = Hotkey::parse("Ctrl+Foo").unwrap_err();
    assert_eq!(e.message("Ctrl+Foo"), "неизвестная клавиша 'foo' в hotkey 'Ctrl+Foo'");
    let e = Hotkey::parse("A+B").unwrap_err();
    assert_eq!(e.message("A+B"), "в hotkey 'A+B' больше одной не-модификаторной клавиши");
    let e = Hotkey::parse("Alt").unwrap_err();
    assert_eq!(e.message("Alt"), "в hotkey 'Alt' не указана главная клавиша");
}

#[test]
fn key_names_in_any_case() {
    assert_eq!(parse_keyname("A"), Some(30));
    assert_eq!(parse_keyname("z"), Some(44));
    assert_eq!(parse_keyname("0"), Some(11));
    assert_eq!(parse_keyname("1"), Some(2));
    assert_eq!(parse_keyname("F1"), Some(59));
    assert_eq!(parse_keyname("f11"), Some(87));
    assert_eq!(parse_keyname("Return"), Some(28));
    assert_eq!(parse_keyname("ENTER"), Some(28));
    assert_eq!(parse_keyname("Esc"), Some(1));
    assert_eq!(parse_keyname("Escape"), Some(1));
    assert_eq!(parse_keyname("Caps"), Some(58));
    assert_eq!(parse_keyname("CapsLock"), Some(58));
    assert_eq!(parse_keyname("Backspace"), Some(14));
    assert_eq!(parse_keyname("Tab"), Some(15));
    assert_eq!(parse_keyname("f13"), None);
    assert_eq!(parse_keyname("ы"), None);
}

#[test]
fn default_settings() {
    let c = Config::default();
    assert!(c.general.enabled);
    assert_eq!(c.layouts.pair, vec!["us", "ru"]);
    assert_eq!(c.hotkeys.toggle, "Ctrl+Shift+M");
    assert!(default_true());
    assert_eq!(default_layout_pair(), vec!["us", "ru"]);
    assert_eq!(default_toggle_hotkey(), "Ctrl+Shift+M");
}

#[test]
fn loading_settings() {
    let l = load(ConfigFile::Missing);
    assert!(l.write_default);
    assert!(l.config.general.enabled);

    let l = load(ConfigFile::Broken);
    assert!(!l.write_default);
    assert_eq!(l.config.hotkeys.toggle, "Ctrl+Shift+M");

    let mut c = Config::default();
    c.general.enabled = false;
    c.hotkeys.toggle = "Pause".to_string();
    let l = load(ConfigFile::Parsed(c));
    assert!(!l.write_default);
    assert!(!l.config.general.enabled);
    assert_eq!(l.config.hotkeys.toggle, "Pause");
}

#[test]
fn the_default_file_has_a_header() {
    let text = default_file_text("[general]\nenabled = true\n");
    assert!(text.starts_with("# matea-switcher config"));
    assert!(text.ends_with("# Удали — будет пересоздан с дефолтами.\n\n[general]\nenabled = true\n"));
}
