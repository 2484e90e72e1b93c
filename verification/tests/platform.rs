use matea_switcher::config::Hotkey;
use matea_switcher::context::TakenWord;
use matea_switcher::platform::atspi::{
    focus_of, is_blacklisted_class, is_parent, wants_parent, FocusContext, FocusFilter, Role,
    StateChange, Widget, FOCUS_PAUSE_NS,
};
use matea_switcher::platform::keyd_detect::{
    is_keyd_present, is_process, keyd_binary_exists, keyd_process_running, warn_if_keyd_active,
    ProcEntry,
};
use matea_switcher::platform::kwin::KwinLayout;
use matea_switcher::platform::linux::{
    check_toggle_hotkey, check_toggle_hotkey_v2, discover_keyboards, do_flip, raw_event,
    update_modifiers, DeviceInfo, FlipAction, LinuxPlatform, ModState, RawKeyEvent, Skipped,
    StartError,
};
use matea_switcher::platform::uinput::{
    supported_keys, KeyEvent, Rewriter, DEVICE_NAME, ECHO_WINDOW_NS, KEY_BACKSPACE,
    MATEA_PRODUCT_ID, MATEA_VENDOR_ID,
};
use matea_switcher::platform::xkb::{layout_name, xkb_keycode};
use matea_switcher::platform::Platform;

#[test]
fn blacklist_terminals() {
    assert!(is_blacklisted_class("konsole"));
    assert!(is_blacklisted_class("alacritty"));
    assert!(is_blacklisted_class("org.kde.konsole"));
}

#[test]
fn blacklist_ide() {
    assert!(is_blacklisted_class("jetbrains-pycharm"));
    assert!(is_blacklisted_class("code-oss"));
}

#[test]
fn blacklist_password_managers() {
    assert!(is_blacklisted_class("keepassxc"));
}

#[test]
fn blacklist_normal_apps_pass() {
    assert!(!is_blacklisted_class("firefox"));
    assert!(!is_blacklisted_class("telegram-desktop"));
    assert!(!is_blacklisted_class("kate"));
    assert!(!is_blacklisted_class("gedit"));
}

#[test]
fn empty_class_passes() {
    assert!(!is_blacklisted_class(""));
}

#[test]
fn focus_context_allows_normal() {
    let c = FocusContext { window_class: "firefox".into(), is_password: false };
    assert!(c.allows_flip());
}

#[test]
fn focus_context_denies_password() {
    let c = FocusContext { window_class: "firefox".into(), is_password: true };
    assert!(!c.allows_flip());
}

#[test]
fn focus_context_denies_terminal() {
    let c = FocusContext { window_class: "konsole".into(), is_password: false };
    assert!(!c.allows_flip());
}

#[test]
fn focus_context_default_allows() {
    let c = FocusContext::default();
    assert!(c.allows_flip());
}

#[test]
fn the_whole_blacklist() {
    for name in [
        "konsole", "yakuake", "alacritty", "kitty", "wezterm", "gnome-terminal", "xterm", "tilix",
        "terminator", "code", "codium", "vscodium", "jetbrains", "intellij", "pycharm", "webstorm",
        "rider", "clion", "sublime_text", "keepassxc", "bitwarden", "1password",
    ] {
        assert!(is_blacklisted_class(name), "{name}");
        assert!(is_blacklisted_class(&format!("org.{name}.app")), "{name}");
    }
    assert!(!is_blacklisted_class("Konsole"));
    assert!(!is_blacklisted_class("konsol"));
}

fn change(at: u64, focused: bool, enabled: bool) -> StateChange {
    StateChange { at, focused, enabled }
}

#[test]
fn bursts_of_focus_events_are_handled_once() {
    let mut f = FocusFilter::new();
    assert!(!f.accept(change(0, false, true)));
    assert!(!f.accept(change(0, true, false)));
    assert!(f.accept(change(5, true, true)));
    assert!(!f.accept(change(6, true, true)));
    assert!(!f.accept(change(5 + FOCUS_PAUSE_NS - 1, true, true)));
    assert!(!f.accept(change(5 + FOCUS_PAUSE_NS, true, false)));
    assert!(f.accept(change(5 + FOCUS_PAUSE_NS, true, true)));
    assert!(!f.accept(change(5 + FOCUS_PAUSE_NS, true, true)));
    assert_eq!(FOCUS_PAUSE_NS, 50_000_000);
}

fn widget(role: Role, name: &str) -> Widget {
    Widget { role, name: name.into() }
}

#[test]
fn the_way_up_to_the_application() {
    let mut chain = vec![widget(Role::PasswordText, "")];
    assert!(wants_parent(&chain));
    chain.push(widget(Role::Other, ""));
    assert!(wants_parent(&chain));
    chain.push(widget(Role::Application, "Firefox"));
    assert!(!wants_parent(&chain));
    let c = focus_of(&chain);
    assert_eq!(c.window_class, "firefox");
    assert!(c.is_password);

    let c = focus_of(&[widget(Role::Other, ""), widget(Role::Application, "Яндекс ÉTUDE")]);
    assert_eq!(c.window_class, "яндекс étude");
    assert_eq!(focus_of(&[widget(Role::Application, "Ёлка KATE")]).window_class, "ёлка kate");
    assert!(!c.is_password);
}

#[test]
fn the_way_up_is_not_endless() {
    let mut chain: Vec<Widget> = (0..15).map(|_| widget(Role::Other, "")).collect();
    assert!(wants_parent(&chain));
    chain.push(widget(Role::Application, "Kate"));
    assert_eq!(focus_of(&chain).window_class, "kate");
    chain.insert(0, widget(Role::Other, ""));
    assert!(!wants_parent(&chain));
    assert_eq!(focus_of(&chain).window_class, "");
    assert!(!wants_parent(&[]));
    assert_eq!(focus_of(&[]).window_class, "");
}

#[test]
fn parents_have_a_name_and_a_path() {
    assert!(is_parent(true, "/org/a11y/atspi/accessible/1"));
    assert!(!is_parent(false, "/org/a11y/atspi/accessible/1"));
    assert!(!is_parent(true, "/"));
}

fn proc_entry(name: &str, comm: Option<&str>) -> ProcEntry {
    ProcEntry { name: name.into(), comm: comm.map(|c| c.into()) }
}

#[test]
fn detect_does_not_panic() {
    let _ = is_keyd_present(&[], &[]);
}

#[test]
fn keyd_is_found_by_its_binary() {
    assert!(keyd_binary_exists(&["/usr/bin/keyd".to_string()]));
    assert!(keyd_binary_exists(&["/x".to_string(), "/usr/local/bin/keyd".to_string()]));
    assert!(keyd_binary_exists(&["/opt/keyd/bin/keyd".to_string()]));
    assert!(!keyd_binary_exists(&["/bin/keyd".to_string()]));
    assert!(!keyd_binary_exists(&[]));
    assert!(is_keyd_present(&["/usr/bin/keyd".to_string()], &[]));
}

#[test]
fn keyd_is_found_by_its_process() {
    assert!(is_process("4711"));
    assert!(!is_process("self"));
    assert!(!is_process("47a"));
    assert!(keyd_process_running(&[proc_entry("1", Some("init")), proc_entry("12", Some("keyd\n"))]));
    assert!(!keyd_process_running(&[proc_entry("sys", Some("keyd\n"))]));
    assert!(!keyd_process_running(&[proc_entry("12", None), proc_entry("13", Some("keyd2"))]));
    assert!(is_keyd_present(&[], &[proc_entry("12", Some("keyd"))]));
    assert!(!is_keyd_present(&[], &[proc_entry("12", Some("key d"))]));
}

#[test]
fn the_user_is_warned_about_keyd() {
    assert!(warn_if_keyd_active(&[], &[]).is_none());
    let n = warn_if_keyd_active(&["/usr/bin/keyd".to_string()], &[]).unwrap();
    assert!(n.warning.starts_with("keyd detected"));
    assert!(n.advice.contains("`-6d61:7465`"));
    assert_eq!((MATEA_VENDOR_ID, MATEA_PRODUCT_ID), (0x6d61, 0x7465));
}

#[test]
fn layouts_by_their_place() {
    let k = KwinLayout::new(vec!["us".into(), "ru".into(), "de".into()]);
    assert_eq!(k.index_of("us"), Some(0));
    assert_eq!(k.index_of("ru"), Some(1));
    assert_eq!(k.index_of("de"), Some(2));
    assert_eq!(k.index_of("fr"), None);
    let k = KwinLayout::new(vec!["us".into(), "ru".into(), "us".into()]);
    assert_eq!(k.index_of("us"), Some(2));
    assert_eq!(KwinLayout::new(vec![]).index_of("us"), None);
}

#[test]
fn keycodes_and_groups_of_xkb() {
    assert_eq!(xkb_keycode(30), 38);
    assert_eq!(xkb_keycode(65535), 65543);
    assert_eq!(layout_name(0), "us");
    assert_eq!(layout_name(1), "ru");
    assert_eq!(layout_name(2), "??");
}

fn press(code: u16) -> KeyEvent {
    KeyEvent { code, value: 1 }
}

fn release(code: u16) -> KeyEvent {
    KeyEvent { code, value: 0 }
}

#[test]
fn taps_are_a_press_and_a_release() {
    let mut r = Rewriter::new();
    assert_eq!(r.tap(30), vec![press(30), release(30)]);
    assert_eq!(KEY_BACKSPACE, 14);
    assert_eq!(r.backspace(2, 0), vec![press(14), release(14), press(14), release(14)]);
    assert_eq!(
        r.replay_keycodes(&[34, 35], 0),
        vec![press(34), release(34), press(35), release(35)]
    );
    assert!(r.backspace(0, 0).is_empty());
}

#[test]
fn sent_presses_are_ignored_when_they_come_back() {
    let mut r = Rewriter::new();
    assert!(!r.maybe_consume_self_echo(0));
    r.backspace(2, 1000);
    r.replay_keycodes(&[34, 35], 2000);
    for _ in 0..4 {
        assert!(r.maybe_consume_self_echo(2000 + ECHO_WINDOW_NS - 1));
    }
    assert!(!r.maybe_consume_self_echo(2000 + ECHO_WINDOW_NS - 1));
}

#[test]
fn expected_presses_are_given_up() {
    let mut r = Rewriter::new();
    r.arm_self_echo(3, 1000);
    assert!(r.maybe_consume_self_echo(1001));
    assert!(!r.maybe_consume_self_echo(1000 + ECHO_WINDOW_NS));
    assert!(!r.maybe_consume_self_echo(1002));
    r.arm_self_echo(3, 1000);
    r.arm_self_echo(1, 1000 + ECHO_WINDOW_NS);
    assert!(r.maybe_consume_self_echo(1000 + ECHO_WINDOW_NS));
    assert!(!r.maybe_consume_self_echo(1000 + ECHO_WINDOW_NS));
    r.arm_self_echo(u64::MAX, 0);
    r.arm_self_echo(u64::MAX, 0);
    assert!(r.maybe_consume_self_echo(1));
    assert_eq!(ECHO_WINDOW_NS, 500_000_000);
}

#[test]
fn the_virtual_keyboard_has_all_plain_keys() {
    let keys = supported_keys();
    assert_eq!(keys.len(), 255);
    assert_eq!(keys[0], 1);
    assert_eq!(keys[254], 255);
    assert_eq!(DEVICE_NAME, "matea-switcher virtual keyboard");
}

fn ev(code: u16, pressed: bool) -> RawKeyEvent {
    RawKeyEvent { kbd_name: "test".into(), evdev_code: code, pressed }
}

#[test]
fn modifiers_track_ctrl() {
    let mut ctrl = false;
    let mut shift = false;
    update_modifiers(&ev(29, true), &mut ctrl, &mut shift);
    assert!(ctrl);
    update_modifiers(&ev(29, false), &mut ctrl, &mut shift);
    assert!(!ctrl);
}

#[test]
fn modifiers_track_shift() {
    let mut ctrl = false;
    let mut shift = false;
    update_modifiers(&ev(42, true), &mut ctrl, &mut shift);
    assert!(shift);
    update_modifiers(&ev(54, false), &mut ctrl, &mut shift);
    assert!(!shift);
}

#[test]
fn hotkey_requires_both_modifiers() {
    assert!(!check_toggle_hotkey(&ev(50, true), false, false));
    assert!(!check_toggle_hotkey(&ev(50, true), true, false));
    assert!(!check_toggle_hotkey(&ev(50, true), false, true));
    assert!(check_toggle_hotkey(&ev(50, true), true, true));
    assert!(!check_toggle_hotkey(&ev(50, false), true, true));
}

#[test]
fn mod_state_tracks_all_modifiers() {
    let mut m = ModState::default();
    for (left, right) in [(29, 97), (42, 54), (56, 100), (125, 126)] {
        m.update(&ev(left, true));
        let held = [m.ctrl, m.shift, m.alt, m.meta];
        assert_eq!(held.iter().filter(|h| **h).count(), 1);
        m.update(&ev(right, false));
        assert_eq!(m, ModState::default());
        m.update(&ev(right, true));
        assert_eq!([m.ctrl, m.shift, m.alt, m.meta], held);
        m.update(&ev(left, false));
        assert_eq!(m, ModState::default());
    }
    m.update(&ev(30, true));
    assert_eq!(m, ModState::default());
}

#[test]
fn hotkey_v2_exact_modifier_match() {
    let h = Hotkey::parse("Ctrl+Shift+M").unwrap();
    let mut m = ModState { ctrl: true, shift: true, alt: false, meta: false };
    assert!(check_toggle_hotkey_v2(&ev(50, true), &m, &h));
    assert!(!check_toggle_hotkey_v2(&ev(50, false), &m, &h));
    assert!(!check_toggle_hotkey_v2(&ev(49, true), &m, &h));
    m.alt = true;
    assert!(!check_toggle_hotkey_v2(&ev(50, true), &m, &h));
    m.alt = false;
    m.shift = false;
    assert!(!check_toggle_hotkey_v2(&ev(50, true), &m, &h));
}

#[test]
fn hotkey_v2_pause_no_modifiers() {
    let h = Hotkey::parse("Pause").unwrap();
    assert!(check_toggle_hotkey_v2(&ev(119, true), &ModState::default(), &h));
    let m = ModState { meta: true, ..ModState::default() };
    assert!(!check_toggle_hotkey_v2(&ev(119, true), &m, &h));
}

#[test]
fn repeats_of_a_held_key_are_no_events() {
    let e = raw_event("kbd", 30, 1).unwrap();
    assert_eq!((e.kbd_name.as_str(), e.evdev_code, e.pressed), ("kbd", 30, true));
    assert!(!raw_event("kbd", 30, 0).unwrap().pressed);
    assert!(raw_event("kbd", 30, 2).is_none());
    assert!(raw_event("kbd", 30, -1).is_none());
}

fn device(path: &str, name: Option<&str>, has_key_a: bool) -> DeviceInfo {
    DeviceInfo { path: path.into(), name: name.map(|n| n.into()), has_key_a }
}

#[test]
fn keyboards_are_picked() {
    let devices = [
        device("/dev/input/event0", Some("Power Button"), false),
        device("/dev/input/event3", Some("AT Translated Set 2 keyboard"), true),
        device("/dev/input/event14", Some(DEVICE_NAME), true),
        device("/dev/input/event15", None, true),
        device("/dev/input/event16", Some("matea virtual keyboard"), true),
    ];
    let found = discover_keyboards(&devices);
    let found: Vec<(String, String)> = found.into_iter().map(|k| (k.path, k.name)).collect();
    let expected = vec![
        ("/dev/input/event3".to_string(), "AT Translated Set 2 keyboard".to_string()),
        ("/dev/input/event15".to_string(), "<unnamed>".to_string()),
    ];
    assert_eq!(found, expected);
    let p = LinuxPlatform::new(&devices).unwrap();
    assert_eq!(p.keyboards().len(), 2);
    assert_eq!(p.name(), "linux (Wayland)");
}

#[test]
fn without_keyboards_there_is_no_start() {
    let e = LinuxPlatform::new(&[device("/dev/input/event0", Some("Mouse"), false)]).unwrap_err();
    assert!(matches!(e, StartError::NoKeyboards));
    assert!(e.message().starts_with("не нашёл ни одной клавиатуры через evdev. Проверь"));
}

fn taken(layout: &str) -> TakenWord {
    TakenWord { word: "ghb".into(), layout: layout.into(), keycodes: vec![34, 35, 48] }
}

fn names(list: &[&str]) -> Vec<String> {
    list.iter().map(|s| s.to_string()).collect()
}

fn plan(layout: &str, pair: &[&str], layouts: &[&str]) -> Result<(usize, u32, u64, Vec<u16>), Skipped> {
    let actions = do_flip(&taken(layout), &names(pair), &KwinLayout::new(names(layouts)))?;
    match actions.as_slice() {
        [FlipAction::Grab, FlipAction::Erase(n), FlipAction::SetLayout(i), FlipAction::Wait(ms), FlipAction::Replay(codes), FlipAction::Ungrab] => {
            Ok((*n, *i, *ms, codes.clone()))
        }
        other => panic!("{other:?}"),
    }
}

#[test]
fn a_word_is_rewritten_in_the_other_layout() {
    let keys = vec![34, 35, 48];
    assert_eq!(plan("us", &["us", "ru"], &["us", "ru"]), Ok((3, 1, 50, keys.clone())));
    assert_eq!(plan("ru", &["us", "ru"], &["us", "ru"]), Ok((3, 0, 50, keys.clone())));
    assert_eq!(plan("us", &["us", "ru"], &["ru", "us"]), Ok((3, 0, 50, keys.clone())));
    assert_eq!(plan("us", &["us", "de"], &["us", "ru", "de"]), Ok((3, 2, 50, keys.clone())));
    assert_eq!(plan("us", &["us", "de", "ru"], &["us", "ru", "de"]), Ok((3, 2, 50, keys)));
}

#[test]
fn without_a_target_nothing_is_rewritten() {
    assert_eq!(plan("??", &["us", "ru"], &["us", "ru"]), Err(Skipped::UnknownLayout));
    assert_eq!(plan("us", &["us", "ru"], &["us", "de"]), Err(Skipped::NoTarget));
    assert_eq!(plan("us", &["us"], &["us", "ru"]), Err(Skipped::NoTarget));
    assert_eq!(plan("us", &[], &["us", "ru"]), Err(Skipped::NoTarget));
}
