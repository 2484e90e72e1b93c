//! The keyboards of a Linux system, the modifiers and hotkeys on them, and the steps by which a
//! word is rewritten.

use vstd::prelude::*;

use crate::config::{Hotkey, HotkeyError};
use crate::context::TakenWord;
use crate::platform::kwin::KwinLayout;
use crate::platform::Platform;
use crate::{classifier, platform, text};

verus! {

/// A press or a release of a key.
#[derive(Debug, Clone)]
pub struct RawKeyEvent {
    /// The keyboard it came from.
    pub kbd_name: String,
    pub evdev_code: u16,
    pub pressed: bool,
}

/// The key event that a keyboard reports with a value: 1 is a press, 0 a release. The repeats of
/// a held key, with the value 2, are none.
pub fn raw_event(kbd_name: &str, evdev_code: u16, value: i32) -> (r: Option<RawKeyEvent>)
    ensures
        r is Some <==> value == 0 || value == 1,
        r matches Some(ev) ==> ev.kbd_name@ == kbd_name@ && ev.evdev_code == evdev_code
            && ev.pressed == (value == 1),
{
    if value == 0 || value == 1 {
        Some(RawKeyEvent { kbd_name: text::owned(kbd_name), evdev_code, pressed: value == 1 })
    } else {
        None
    }
}

/// The left or the right control key.
pub open spec fn is_ctrl(code: u16) -> bool {
    code == 29 || code == 97
}

/// The left or the right shift key.
pub open spec fn is_shift(code: u16) -> bool {
    code == 42 || code == 54
}

/// The left or the right alt key.
pub open spec fn is_alt(code: u16) -> bool {
    code == 56 || code == 100
}

/// The left or the right meta key.
pub open spec fn is_meta(code: u16) -> bool {
    code == 125 || code == 126
}

/// Keeps track of the control and the shift keys. The left and the right key of a kind are one.
pub fn update_modifiers(ev: &RawKeyEvent, ctrl: &mut bool, shift: &mut bool)
    ensures
        *final(ctrl) == (if is_ctrl(ev.evdev_code) {
            ev.pressed
        } else {
            *old(ctrl)
        }),
        *final(shift) == (if is_shift(ev.evdev_code) {
            ev.pressed
        } else {
            *old(shift)
        }),
{
    match ev.evdev_code {
        29 | 97 => {
            *ctrl = ev.pressed;
        },
        42 | 54 => {
            *shift = ev.pressed;
        },
        _ => {},
    }
}

/// Whether the event is the press of M while the control and the shift key are held.
pub fn check_toggle_hotkey(ev: &RawKeyEvent, ctrl: bool, shift: bool) -> (r: bool)
    ensures
        r == (ev.pressed && ev.evdev_code == 50 && ctrl && shift),
{
    ev.pressed && ev.evdev_code == 50 && ctrl && shift
}

/// The modifiers that are held.
#[derive(Debug, Clone, Copy, PartialEq, Eq, Structural)]
pub struct ModState {
    pub ctrl: bool,
    pub shift: bool,
    pub alt: bool,
    pub meta: bool,
}

impl Default for ModState {
    /// No modifier is held.
    fn default() -> (m: ModState)
        ensures
            m == ModState::none(),
    {
        ModState { ctrl: false, shift: false, alt: false, meta: false }
    }
}

impl ModState {
    /// No modifier is held.
    pub open spec fn none() -> ModState {
        ModState { ctrl: false, shift: false, alt: false, meta: false }
    }

    /// The modifiers after a key was pressed or released.
    pub open spec fn after(self, code: u16, pressed: bool) -> ModState {
        ModState {
            ctrl: if is_ctrl(code) {
                pressed
            } else {
                self.ctrl
            },
            shift: if is_shift(code) {
                pressed
            } else {
                self.shift
            },
            alt: if is_alt(code) {
                pressed
            } else {
                self.alt
            },
            meta: if is_meta(code) {
                pressed
            } else {
                self.meta
            },
        }
    }

    /// Takes note of a key event. The left and the right key of a kind are one.
    pub fn update(&mut self, ev: &RawKeyEvent)
        ensures
            *final(self) == old(self).after(ev.evdev_code, ev.pressed),
    {
        match ev.evdev_code {
            29 | 97 => {
                self.ctrl = ev.pressed;
            },
            42 | 54 => {
                self.shift = ev.pressed;
            },
            56 | 100 => {
                self.alt = ev.pressed;
            },
            125 | 126 => {
                self.meta = ev.pressed;
            },
            _ => {},
        }
    }
}

/// The event is the press of the hotkey's key while exactly its modifiers are held.
pub open spec fn is_hotkey(code: u16, pressed: bool, mods: ModState, hotkey: Hotkey) -> bool {
    &&& pressed
    &&& code == hotkey.keycode
    &&& mods.ctrl == hotkey.ctrl
    &&& mods.shift == hotkey.shift
    &&& mods.alt == hotkey.alt
    &&& mods.meta == hotkey.meta
}

/// Whether the event is the press of the hotkey's key while exactly its modifiers are held.
pub fn check_toggle_hotkey_v2(ev: &RawKeyEvent, mods: &ModState, hotkey: &Hotkey) -> (r: bool)
    ensures
        r == is_hotkey(ev.evdev_code, ev.pressed, *mods, *hotkey),
{
    ev.pressed && ev.evdev_code == hotkey.keycode && mods.ctrl == hotkey.ctrl && mods.shift
        == hotkey.shift && mods.alt == hotkey.alt && mods.meta == hotkey.meta
}

/// An input device of the system.
#[derive(Debug, Clone)]
pub struct DeviceInfo {
    pub path: String,
    pub name: Option<String>,
    /// Whether the device has the key A.
    pub has_key_a: bool,
}

/// A keyboard to read.
#[derive(Debug, Clone)]
pub struct KeyboardDevice {
    pub path: String,
    pub name: String,
}

/// The name of a device; a device without one is called unnamed.
pub open spec fn name_of(device: DeviceInfo) -> Seq<char> {
    match device.name {
        Some(name) => name@,
        None => "<unnamed>"@,
    }
}

/// The device is a keyboard, and not one of this program's own.
pub open spec fn is_read(device: DeviceInfo) -> bool {
    !platform::uinput::is_own_name(name_of(device)) && device.has_key_a
}

/// The paths and names of the keyboards to read, in the order of the devices.
pub open spec fn read_devices(devices: Seq<DeviceInfo>) -> Seq<(Seq<char>, Seq<char>)>
    decreases devices.len(),
{
    if devices.len() == 0 {
        Seq::empty()
    } else {
        let before = read_devices(devices.drop_last());
        let d = devices.last();
        if is_read(d) {
            before.push((d.path@, name_of(d)))
        } else {
            before
        }
    }
}

/// The paths and names of keyboards.
pub open spec fn listed(keyboards: Seq<KeyboardDevice>) -> Seq<(Seq<char>, Seq<char>)> {
    keyboards.map_values(|k: KeyboardDevice| (k.path@, k.name@))
}

/// The keyboards to read: the devices with the key A, without this program's own.
///
/// What the program sends would come back through its own keyboard and be rewritten again.
pub fn discover_keyboards(devices: &[DeviceInfo]) -> (found: Vec<KeyboardDevice>)
    ensures
        listed(found@) == read_devices(devices@),
{
    let mut found: Vec<KeyboardDevice> = Vec::new();
    let mut i: usize = 0;
    proof {
        assert(devices@.take(0) =~= Seq::empty());
        assert(listed(found@) =~= Seq::empty());
    }
    while i < devices.len()
        invariant
            0 <= i <= devices@.len(),
            listed(found@) == read_devices(devices@.take(i as int)),
        decreases devices@.len() - i,
    {
        proof {
            let front = devices@.take(i + 1);
            assert(front.last() == devices@[i as int]);
            assert(front.drop_last() =~= devices@.take(i as int));
        }
        let name = match &devices[i].name {
            Some(name) => text::owned(name.as_str()),
            None => text::owned("<unnamed>"),
        };
        if !text::contains_text(name.as_str(), "matea") && devices[i].has_key_a {
            let k = KeyboardDevice { path: text::owned(devices[i].path.as_str()), name };
            proof {
                assert(listed(found@.push(k)) =~= listed(found@).push((k.path@, k.name@)));
            }
            found.push(k);
        }
        i += 1;
    }
    proof {
        assert(devices@.take(devices@.len() as int) =~= devices@);
    }
    found
}

/// Why the daemon cannot start.
#[derive(Debug, Clone)]
pub enum StartError {
    /// There is no keyboard to read.
    NoKeyboards,
    /// The toggle hotkey in the settings cannot be read.
    InvalidHotkey { hotkey: String, error: HotkeyError },
}

impl StartError {
    /// What the user is told.
    pub open spec fn message_text(&self) -> Seq<char> {
        match self {
            StartError::NoKeyboards => "не нашёл ни одной клавиатуры через evdev. Проверь что юзер в группе `input` (groups | grep input) и что /dev/input/event* читаемы."@,
            StartError::InvalidHotkey { hotkey, error } => "invalid config.hotkeys.toggle = '"@
                + hotkey@ + "'"@,
        }
    }

    /// What the user is told.
    pub fn message(&self) -> (m: String)
        ensures
            m@ == self.message_text(),
            match self {
                StartError::NoKeyboards => m@
                    == "не нашёл ни одной клавиатуры через evdev. Проверь что юзер в группе `input` (groups | grep input) и что /dev/input/event* читаемы."@,
                StartError::InvalidHotkey { hotkey, error } => m@
                    == "invalid config.hotkeys.toggle = '"@ + hotkey@ + "'"@,
            },
    {
        match self {
            StartError::NoKeyboards => text::owned(
                "не нашёл ни одной клавиатуры через evdev. Проверь что юзер в группе `input` (groups | grep input) и что /dev/input/event* читаемы.",
            ),
            StartError::InvalidHotkey { hotkey, error } => {
                let mut m = String::new();
                m.append("invalid config.hotkeys.toggle = '");
                m.append(hotkey.as_str());
                m.append("'");
                proof {
                    assert(m@ =~= self.message_text());
                }
                m
            },
        }
    }
}

/// The keyboards of a Linux system.
#[derive(Debug)]
pub struct LinuxPlatform {
    keyboards: Vec<KeyboardDevice>,
}

impl View for LinuxPlatform {
    type V = Seq<(Seq<char>, Seq<char>)>;

    closed spec fn view(&self) -> Seq<(Seq<char>, Seq<char>)> {
        listed(self.keyboards@)
    }
}

impl LinuxPlatform {
    /// Picks the keyboards to read. It is an error if there is none.
    pub fn new(devices: &[DeviceInfo]) -> (r: Result<LinuxPlatform, StartError>)
        ensures
            match r {
                Ok(p) => p@ == read_devices(devices@) && p@.len() > 0,
                Err(e) => e is NoKeyboards && read_devices(devices@).len() == 0,
            },
    {
        let keyboards = discover_keyboards(devices);
        proof {
            assert(listed(keyboards@).len() == keyboards@.len());
        }
        if keyboards.len() == 0 {
            return Err(StartError::NoKeyboards);
        }
        Ok(LinuxPlatform { keyboards })
    }

    /// The keyboards to read.
    pub fn keyboards(&self) -> (k: &[KeyboardDevice])
        ensures
            listed(k@) == self@,
    {
        self.keyboards.as_slice()
    }
}

impl Platform for LinuxPlatform {
    fn name(&self) -> (r: &'static str)
        ensures
            r@ == "linux (Wayland)"@,
    {
        "linux (Wayland)"
    }
}

/// One step of rewriting a word.
#[derive(Debug, Clone)]
pub enum FlipAction {
    /// Keep the keyboards from being read by anyone, so that nothing is typed in between.
    Grab,
    /// Send that many taps on the backspace key.
    Erase(usize),
    /// Switch the desktop to the layout at that place in its list.
    SetLayout(u32),
    /// Wait so many milliseconds, until the new layout holds.
    Wait(u64),
    /// Send taps on these keys.
    Replay(Vec<u16>),
    /// Let the keyboards be read again.
    Ungrab,
}

/// What a [`FlipAction`] does.
pub enum Step {
    Grab,
    Erase(nat),
    SetLayout(int),
    Wait(nat),
    Replay(Seq<u16>),
    Ungrab,
}

impl View for FlipAction {
    type V = Step;

    open spec fn view(&self) -> Step {
        match self {
            FlipAction::Grab => Step::Grab,
            FlipAction::Erase(n) => Step::Erase(*n as nat),
            FlipAction::SetLayout(i) => Step::SetLayout(*i as int),
            FlipAction::Wait(ms) => Step::Wait(*ms as nat),
            FlipAction::Replay(codes) => Step::Replay(codes@),
            FlipAction::Ungrab => Step::Ungrab,
        }
    }
}

/// What a list of actions does.
pub open spec fn steps_of(actions: Seq<FlipAction>) -> Seq<Step> {
    actions.map_values(|a: FlipAction| a@)
}

/// How a word that was typed with the given keys is rewritten in the layout at that place.
pub open spec fn flip_steps(keycodes: Seq<u16>, index: int) -> Seq<Step> {
    seq![
        Step::Grab,
        Step::Erase(keycodes.len()),
        Step::SetLayout(index),
        Step::Wait(50),
        Step::Replay(keycodes),
        Step::Ungrab,
    ]
}

/// Why a word is not rewritten though it should be.
#[derive(Debug, Clone, Copy, PartialEq, Eq, Structural)]
pub enum Skipped {
    /// The layout of the word is not known.
    UnknownLayout,
    /// The desktop does not have the layout to switch to, or the settings name none.
    NoTarget,
}

/// The first layout of the pair that is not the current one.
pub open spec fn target_of(pair: Seq<Seq<char>>, layout: Seq<char>) -> Option<Seq<char>>
    decreases pair.len(),
{
    if pair.len() == 0 {
        None
    } else if pair[0] != layout {
        Some(pair[0])
    } else {
        target_of(pair.drop_first(), layout)
    }
}

/// The place of the layout to switch to, or why there is none.
pub open spec fn flip_target(
    layout: Seq<char>,
    pair: Seq<Seq<char>>,
    layouts: Seq<Seq<char>>,
) -> Result<int, Skipped> {
    if classifier::languages(layout) is None {
        Err(Skipped::UnknownLayout)
    } else {
        match target_of(pair, layout) {
            None => Err(Skipped::NoTarget),
            Some(name) => match platform::kwin::place_of(layouts, name) {
                None => Err(Skipped::NoTarget),
                Some(i) => Ok(i),
            },
        }
    }
}

/// The first layout of the pair that is not the current one.
fn find_target(pair: &[String], layout: &str) -> (r: Option<usize>)
    ensures
        match r {
            Some(i) => i < pair@.len() && target_of(text::texts(pair@), layout@) == Some(
                pair@[i as int]@,
            ),
            None => target_of(text::texts(pair@), layout@) is None,
        },
{
    let ghost names = text::texts(pair@);
    let mut i: usize = 0;
    proof {
        assert(names.skip(0) =~= names);
    }
    while i < pair.len()
        invariant
            names == text::texts(pair@),
            0 <= i <= pair@.len(),
            target_of(names.skip(i as int), layout@) == target_of(names, layout@),
        decreases pair@.len() - i,
    {
        proof {
            assert(names.skip(i as int)[0] == pair@[i as int]@);
            assert(names.skip(i as int).drop_first() =~= names.skip(i + 1));
        }
        if !text::same_text(pair[i].as_str(), layout) {
            return Some(i);
        }
        i += 1;
    }
    None
}

/// How to rewrite a word: erase it, switch the layout, and send its keys again.
///
/// The character that ended the word is not part of it.
pub fn do_flip(t: &TakenWord, pair: &[String], kwin: &KwinLayout) -> (r: Result<
    Vec<FlipAction>,
    Skipped,
>)
    requires
        kwin.wf(),
    ensures
        match (r, flip_target(t.layout@, text::texts(pair@), kwin@)) {
            (Ok(actions), Ok(index)) => steps_of(actions@) == flip_steps(t.keycodes@, index),
            (Err(e), Err(f)) => e == f,
            _ => false,
        },
        r matches Ok(actions) ==> {
            &&& actions@.len() == 6
            &&& actions@[0] is Grab
            &&& actions@[1] matches FlipAction::Erase(n) && n == t.keycodes@.len()
            &&& actions@[2] matches FlipAction::SetLayout(i) && i < kwin@.len() && kwin@[i as int]
                != t.layout@ && text::texts(pair@).contains(kwin@[i as int])
            &&& actions@[3] matches FlipAction::Wait(ms) && ms == 50
            &&& actions@[4] matches FlipAction::Replay(codes) && codes@ == t.keycodes@
            &&& actions@[5] is Ungrab
        },
        r is Err && (t.layout@ == "us"@ || t.layout@ == "ru"@) ==> r->Err_0 == Skipped::NoTarget,
        t.layout@ != "us"@ && t.layout@ != "ru"@ ==> r == Err::<Vec<FlipAction>, Skipped>(
            Skipped::UnknownLayout,
        ),
{
    let layout = t.layout.as_str();
    if !text::same_text(layout, "us") && !text::same_text(layout, "ru") {
        return Err(Skipped::UnknownLayout);
    }
    let target = match find_target(pair, layout) {
        Some(i) => pair[i].as_str(),
        None => {
            return Err(Skipped::NoTarget);
        },
    };
    let index: u32 = match kwin.index_of(target) {
        Some(index) => index,
        None => {
            return Err(Skipped::NoTarget);
        },
    };
    let mut keycodes: Vec<u16> = Vec::new();
    keycodes.extend_from_slice(t.keycodes.as_slice());
    let mut actions: Vec<FlipAction> = Vec::new();
    actions.push(FlipAction::Grab);
    actions.push(FlipAction::Erase(t.keycodes.len()));
    actions.push(FlipAction::SetLayout(index));
    actions.push(FlipAction::Wait(50));
    actions.push(FlipAction::Replay(keycodes));
    actions.push(FlipAction::Ungrab);
    proof {
        assert(keycodes@ =~= t.keycodes@);
        assert(steps_of(actions@) =~= flip_steps(t.keycodes@, index as int));
        lemma_target(text::texts(pair@), layout@);
        platform::kwin::law_place_holds_the_name(kwin@, target@);
    }
    Ok(actions)
}

/// While neither alt nor meta is held, the hotkey of control, shift and M is the one that
/// [`check_toggle_hotkey`] knows.
pub proof fn law_default_hotkey(code: u16, pressed: bool, mods: ModState, hotkey: Hotkey)
    requires
        !mods.alt,
        !mods.meta,
        hotkey == (Hotkey { ctrl: true, shift: true, alt: false, meta: false, keycode: 50 }),
    ensures
        is_hotkey(code, pressed, mods, hotkey) == (pressed && code == 50 && mods.ctrl
            && mods.shift),
{
}

/// A modifier too many, or one too few, and the hotkey is none.
pub proof fn law_modifiers_match_exactly(
    code: u16,
    pressed: bool,
    mods: ModState,
    hotkey: Hotkey,
)
    requires
        mods != (ModState {
            ctrl: hotkey.ctrl,
            shift: hotkey.shift,
            alt: hotkey.alt,
            meta: hotkey.meta,
        }),
    ensures
        !is_hotkey(code, pressed, mods, hotkey),
{
}

/// No keyboard of this program is read, whatever devices there are.
pub proof fn law_own_keyboards_are_not_read(devices: Seq<DeviceInfo>)
    ensures
        forall|i: int|
            0 <= i < read_devices(devices).len() ==> !platform::uinput::is_own_name(
                (#[trigger] read_devices(devices)[i]).1,
            ),
    decreases devices.len(),
{
    if devices.len() > 0 {
        let before = read_devices(devices.drop_last());
        law_own_keyboards_are_not_read(devices.drop_last());
        assert forall|i: int| 0 <= i < read_devices(devices).len() implies
            !platform::uinput::is_own_name((#[trigger] read_devices(devices)[i]).1) by {
            if i < before.len() {
                assert(read_devices(devices)[i] == before[i]);
            }
        }
    }
}

/// A layout to switch to is one of the pair, and not the current one.
proof fn lemma_target(pair: Seq<Seq<char>>, layout: Seq<char>)
    ensures
        target_of(pair, layout) matches Some(t) ==> t != layout && pair.contains(t),
    decreases pair.len(),
{
    if pair.len() > 0 {
        if pair[0] == layout {
            let rest = pair.drop_first();
            lemma_target(rest, layout);
            if let Some(t) = target_of(rest, layout) {
                let k = rest.index_of(t);
                assert(pair[k + 1] == t);
            }
        } else {
            assert(pair.contains(pair[0]));
        }
    }
}

/// The layout to switch to is the first of the pair that is not the current one. There is none
/// exactly if the pair names no other.
pub proof fn law_the_first_other_layout_is_the_target(
    pair: Seq<Seq<char>>,
    layout: Seq<char>,
    i: int,
)
    ensures
        0 <= i < pair.len() && pair[i] != layout && (forall|j: int|
            0 <= j < i ==> #[trigger] pair[j] == layout) ==> target_of(pair, layout) == Some(
            pair[i],
        ),
        (forall|j: int| 0 <= j < pair.len() ==> #[trigger] pair[j] == layout) ==> target_of(
            pair,
            layout,
        ) is None,
        target_of(pair, layout) is None ==> forall|j: int|
            0 <= j < pair.len() ==> #[trigger] pair[j] == layout,
    decreases pair.len(),
{
    if pair.len() > 0 && pair[0] == layout {
        let rest = pair.drop_first();
        law_the_first_other_layout_is_the_target(rest, layout, i - 1);
        if 0 <= i < pair.len() && pair[i] != layout && (forall|j: int|
            0 <= j < i ==> #[trigger] pair[j] == layout) {
            assert(rest[i - 1] == pair[i]);
            assert forall|j: int| 0 <= j < i - 1 implies #[trigger] rest[j] == layout by {
                assert(rest[j] == pair[j + 1]);
            }
        }
        if forall|j: int| 0 <= j < pair.len() ==> #[trigger] pair[j] == layout {
            assert forall|j: int| 0 <= j < rest.len() implies #[trigger] rest[j] == layout by {
                assert(rest[j] == pair[j + 1]);
            }
        }
        if target_of(pair, layout) is None {
            assert forall|j: int| 0 <= j < pair.len() implies #[trigger] pair[j] == layout by {
                if j > 0 {
                    assert(rest[j - 1] == pair[j]);
                }
            }
        }
    }
}

/// A word typed in us or ru can be rewritten exactly if the desktop has the layout to switch to,
/// and is rewritten at its place; a word of an unknown layout never can.
pub proof fn law_when_there_is_a_target(
    layout: Seq<char>,
    pair: Seq<Seq<char>>,
    layouts: Seq<Seq<char>>,
)
    ensures
        layout != "us"@ && layout != "ru"@ ==> flip_target(layout, pair, layouts) == Err::<
            int,
            Skipped,
        >(Skipped::UnknownLayout),
        layout == "us"@ || layout == "ru"@ ==> {
            &&& flip_target(layout, pair, layouts) is Ok <==> (target_of(pair, layout) matches Some(
                name,
            ) && layouts.contains(name))
            &&& flip_target(layout, pair, layouts) matches Ok(i) ==> 0 <= i < layouts.len()
                && target_of(pair, layout) == Some(layouts[i]) && (forall|k: int|
                i < k < layouts.len() ==> #[trigger] layouts[k] != layouts[i])
            &&& flip_target(layout, pair, layouts) matches Err(e) ==> e == Skipped::NoTarget
        },
{
    classifier::law_known_layouts(layout);
    if let Some(name) = target_of(pair, layout) {
        platform::kwin::law_place_holds_the_name(layouts, name);
    }
}

/// What a rewrite does, step by step: nobody else reads the keys meanwhile; one character is
/// erased for each key that was typed, however often a key occurs; then the layout is switched,
/// fifty milliseconds pass, and exactly the typed keys are sent, in their order.
pub proof fn law_the_steps_of_a_rewrite(keycodes: Seq<u16>, index: int)
    ensures
        flip_steps(keycodes, index).len() == 6,
        flip_steps(keycodes, index)[0] is Grab,
        flip_steps(keycodes, index)[1] == Step::Erase(keycodes.len()),
        flip_steps(keycodes, index)[2] == Step::SetLayout(index),
        flip_steps(keycodes, index)[3] == Step::Wait(50),
        flip_steps(keycodes, index)[4] == Step::Replay(keycodes),
        flip_steps(keycodes, index)[5] is Ungrab,
{
}

/// Each action does what it says, and a list of actions does them one by one.
pub proof fn law_actions_are_steps(
    actions: Seq<FlipAction>,
    n: usize,
    index: u32,
    ms: u64,
    codes: Vec<u16>,
)
    ensures
        steps_of(actions).len() == actions.len(),
        forall|i: int| 0 <= i < actions.len() ==> #[trigger] steps_of(actions)[i] == actions[i]@,
        FlipAction::Grab@ == Step::Grab,
        FlipAction::Erase(n)@ == Step::Erase(n as nat),
        FlipAction::SetLayout(index)@ == Step::SetLayout(index as int),
        FlipAction::Wait(ms)@ == Step::Wait(ms as nat),
        FlipAction::Replay(codes)@ == Step::Replay(codes@),
        FlipAction::Ungrab@ == Step::Ungrab,
{
}

/// The modifiers that are held follow the keys: the left and the right key of a kind, pressed or
/// released, and no other key.
pub proof fn law_modifiers_follow_their_keys(m: ModState, code: u16, pressed: bool)
    ensures
        m.after(code, pressed).ctrl == (if code == 29 || code == 97 {
            pressed
        } else {
            m.ctrl
        }),
        m.after(code, pressed).shift == (if code == 42 || code == 54 {
            pressed
        } else {
            m.shift
        }),
        m.after(code, pressed).alt == (if code == 56 || code == 100 {
            pressed
        } else {
            m.alt
        }),
        m.after(code, pressed).meta == (if code == 125 || code == 126 {
            pressed
        } else {
            m.meta
        }),
        !ModState::none().ctrl && !ModState::none().shift && !ModState::none().alt
            && !ModState::none().meta,
{
}

/// The hotkey is its key going down while its modifiers, and only they, are held.
pub proof fn law_when_the_hotkey_is_pressed(
    code: u16,
    pressed: bool,
    mods: ModState,
    hotkey: Hotkey,
)
    ensures
        is_hotkey(code, pressed, mods, hotkey) <==> pressed && code == hotkey.keycode && mods == (
        ModState { ctrl: hotkey.ctrl, shift: hotkey.shift, alt: hotkey.alt, meta: hotkey.meta }),
{
}

/// Each device is chosen on its own: those of two lists are chosen together or apart, and a single
/// device is read exactly if it has the key A and its name does not hold the text matea.
pub proof fn law_devices_are_chosen_one_by_one(
    a: Seq<DeviceInfo>,
    b: Seq<DeviceInfo>,
    d: DeviceInfo,
)
    ensures
        read_devices(a + b) == read_devices(a) + read_devices(b),
        ({
            let name = match d.name {
                Some(name) => name@,
                None => "<unnamed>"@,
            };
            read_devices(seq![d]) == (if d.has_key_a && !text::occurs_in("matea"@, name) {
                seq![(d.path@, name)]
            } else {
                Seq::empty()
            })
        }),
    decreases b.len(),
{
    let one = seq![d];
    assert(one.drop_last() =~= Seq::<DeviceInfo>::empty());
    assert(one.last() == d);
    assert(read_devices(one.drop_last()) =~= Seq::empty());
    if is_read(d) {
        assert(read_devices(one) =~= seq![(d.path@, name_of(d))]);
    } else {
        assert(read_devices(one) =~= Seq::empty());
    }
    if b.len() > 0 {
        law_devices_are_chosen_one_by_one(a, b.drop_last(), d);
        assert((a + b).drop_last() =~= a + b.drop_last());
        assert((a + b).last() == b.last());
        assert(read_devices(a + b) =~= read_devices(a) + read_devices(b));
    } else {
        assert(a + b =~= a);
        assert(read_devices(a + b) =~= read_devices(a) + read_devices(b));
    }
}

/// A list of keyboards holds their paths and names, one by one.
pub proof fn law_listed_keyboards(keyboards: Seq<KeyboardDevice>)
    ensures
        listed(keyboards).len() == keyboards.len(),
        forall|i: int|
            0 <= i < keyboards.len() ==> (#[trigger] listed(keyboards)[i]).0 == keyboards[i].path@
                && listed(keyboards)[i].1 == keyboards[i].name@,
{
}

} // verus!
