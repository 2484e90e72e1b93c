//! The settings of the user, and the hotkeys written in them.
//!
//! The settings are read once, at the start. A missing file is created with the defaults; a
//! broken one is left alone and the defaults are used, so that the daemon lives on.

use vstd::prelude::*;

use crate::text;

verus! {

/// All settings.
#[derive(Debug, Clone)]
pub struct Config {
    pub general: General,
    pub layouts: Layouts,
    pub hotkeys: Hotkeys,
}

/// The global settings.
#[derive(Debug, Clone)]
pub struct General {
    /// Whether words are rewritten. When false, keys are read and words are judged, and nothing
    /// is rewritten.
    pub enabled: bool,
}

/// The layouts that are switched between.
#[derive(Debug, Clone)]
pub struct Layouts {
    /// The xkb names of the pair.
    pub pair: Vec<String>,
}

/// The hotkeys, as the user writes them.
#[derive(Debug, Clone)]
pub struct Hotkeys {
    /// Switches rewriting on and off.
    pub toggle: String,
}

/// Rewriting is on unless the user says otherwise.
pub fn default_true() -> (r: bool)
    ensures
        r,
{
    true
}

/// The pair of layouts unless the user says otherwise.
pub fn default_layout_pair() -> (pair: Vec<String>)
    ensures
        text::texts(pair@) == seq!["us"@, "ru"@],
{
    let mut pair: Vec<String> = Vec::new();
    pair.push(text::owned("us"));
    pair.push(text::owned("ru"));
    proof {
        assert(text::texts(pair@) =~= seq!["us"@, "ru"@]);
    }
    pair
}

/// The toggle hotkey unless the user says otherwise.
pub fn default_toggle_hotkey() -> (r: String)
    ensures
        r@ == "Ctrl+Shift+M"@,
{
    text::owned("Ctrl+Shift+M")
}

impl Default for General {
    fn default() -> (r: General)
        ensures
            r.enabled,
    {
        General { enabled: default_true() }
    }
}

impl Default for Layouts {
    fn default() -> (r: Layouts)
        ensures
            text::texts(r.pair@) == seq!["us"@, "ru"@],
    {
        Layouts { pair: default_layout_pair() }
    }
}

impl Default for Hotkeys {
    fn default() -> (r: Hotkeys)
        ensures
            r.toggle@ == "Ctrl+Shift+M"@,
    {
        Hotkeys { toggle: default_toggle_hotkey() }
    }
}

/// The settings that hold when the user has written none.
pub open spec fn is_default(c: Config) -> bool {
    &&& c.general.enabled
    &&& text::texts(c.layouts.pair@) == seq!["us"@, "ru"@]
    &&& c.hotkeys.toggle@ == "Ctrl+Shift+M"@
}

impl Default for Config {
    fn default() -> (r: Config)
        ensures
            is_default(r),
    {
        Config {
            general: General::default(),
            layouts: Layouts::default(),
            hotkeys: Hotkeys::default(),
        }
    }
}

/// The names of the keys that can end a hotkey, in small letters, with their evdev codes. The
/// codes belong to places on the keyboard and so do not depend on the layout.
pub const KEY_NAMES: [(&'static str, u16); 58] = [
    ("a", 30), ("b", 48), ("c", 46), ("d", 32), ("e", 18), ("f", 33), ("g", 34), ("h", 35),
    ("i", 23), ("j", 36), ("k", 37), ("l", 38), ("m", 50), ("n", 49), ("o", 24), ("p", 25),
    ("q", 16), ("r", 19), ("s", 31), ("t", 20), ("u", 22), ("v", 47), ("w", 17), ("x", 45),
    ("y", 21), ("z", 44),
    ("0", 11), ("1", 2), ("2", 3), ("3", 4), ("4", 5), ("5", 6), ("6", 7), ("7", 8), ("8", 9),
    ("9", 10),
    ("space", 57), ("tab", 15), ("enter", 28), ("return", 28), ("esc", 1), ("escape", 1),
    ("pause", 119), ("backspace", 14), ("capslock", 58), ("caps", 58),
    ("f1", 59), ("f2", 60), ("f3", 61), ("f4", 62), ("f5", 63), ("f6", 64), ("f7", 65),
    ("f8", 66), ("f9", 67), ("f10", 68), ("f11", 87), ("f12", 88),
];

/// The code of the first row with that name, if there is one.
pub open spec fn code_in(table: Seq<(&'static str, u16)>, name: Seq<char>) -> Option<u16>
    decreases table.len(),
{
    if table.len() == 0 {
        None
    } else if table[0].0@ == name {
        Some(table[0].1)
    } else {
        code_in(table.drop_first(), name)
    }
}

/// The evdev code of a key, by its name in any case.
pub open spec fn keycode_of(name: Seq<char>) -> Option<u16> {
    code_in(KEY_NAMES@, text::ascii_lower(name))
}

/// The evdev code of a key, by its name in any case.
pub fn parse_keyname(name: &str) -> (code: Option<u16>)
    ensures
        code == keycode_of(name@),
{
    let lower = text::to_ascii_lower(name);
    let table = KEY_NAMES.as_slice();
    let mut i: usize = 0;
    proof {
        assert(KEY_NAMES@.skip(0) =~= KEY_NAMES@);
    }
    while i < table.len()
        invariant
            table@ == KEY_NAMES@,
            lower@ == text::ascii_lower(name@),
            0 <= i <= table@.len(),
            code_in(KEY_NAMES@.skip(i as int), lower@) == keycode_of(name@),
        decreases table@.len() - i,
    {
        proof {
            assert(KEY_NAMES@.skip(i as int)[0] == KEY_NAMES@[i as int]);
            assert(KEY_NAMES@.skip(i as int).drop_first() =~= KEY_NAMES@.skip(i + 1));
        }
        let (key, code) = table[i];
        if text::same_text(key, lower.as_str()) {
            return Some(code);
        }
        i += 1;
    }
    None
}

/// A hotkey: the modifiers that must be held, and one key.
#[derive(Debug, Clone, Copy, PartialEq, Eq, Structural)]
pub struct Hotkey {
    pub ctrl: bool,
    pub shift: bool,
    pub alt: bool,
    pub meta: bool,
    /// The evdev code of the key.
    pub keycode: u16,
}

/// Why a text is no hotkey.
#[derive(Debug, Clone)]
pub enum HotkeyError {
    /// A part is neither a modifier nor a known key.
    UnknownKey {
        /// The part, in small letters.
        key: String,
    },
    /// There is more than one part that is no modifier.
    SeveralKeys,
    /// All parts are modifiers.
    NoMainKey,
}

/// What one part of a hotkey stands for.
pub enum PartKind {
    Ctrl,
    Shift,
    Alt,
    Meta,
    Key(u16),
    Unknown,
}

/// What a part of a hotkey, trimmed and in small letters, stands for.
pub open spec fn kind_of(part: Seq<char>) -> PartKind {
    if part == "ctrl"@ || part == "control"@ {
        PartKind::Ctrl
    } else if part == "shift"@ {
        PartKind::Shift
    } else if part == "alt"@ {
        PartKind::Alt
    } else if part == "meta"@ || part == "super"@ || part == "win"@ || part == "windows"@ {
        PartKind::Meta
    } else {
        match keycode_of(part) {
            Some(code) => PartKind::Key(code),
            None => PartKind::Unknown,
        }
    }
}

/// The parts of a hotkey: what stands between the plus signs, trimmed, in small letters.
pub open spec fn hotkey_parts(s: Seq<char>) -> Seq<Seq<char>> {
    text::split_on(s, '+').map_values(|p: Seq<char>| text::ascii_lower(text::trimmed(p)))
}

/// One of the first `n` parts names a key.
pub open spec fn key_before(parts: Seq<Seq<char>>, n: int) -> bool {
    exists|j: int| 0 <= j < n && kind_of(#[trigger] parts[j]) is Key
}

/// Part `i` cannot stand there: it is unknown, or a second key.
pub open spec fn stops_at(parts: Seq<Seq<char>>, i: int) -> bool {
    kind_of(parts[i]) is Unknown || kind_of(parts[i]) is Key && key_before(parts, i)
}

/// None of the first `n` parts stops the reading.
pub open spec fn reads_up_to(parts: Seq<Seq<char>>, n: int) -> bool {
    forall|j: int| 0 <= j < n ==> !#[trigger] stops_at(parts, j)
}

/// A part of that kind is among the first `n`.
pub open spec fn has_kind(parts: Seq<Seq<char>>, n: int, kind: PartKind) -> bool {
    exists|j: int| 0 <= j < n && kind_of(#[trigger] parts[j]) == kind
}

/// What reading a hotkey gives, from its parts.
///
/// A hotkey is read when every part is a modifier or a known key and exactly one is a key. Else
/// the first part that cannot stand where it does gives the error; if there is none, the key is
/// missing.
pub open spec fn is_reading(parts: Seq<Seq<char>>, r: Result<Hotkey, HotkeyError>) -> bool {
    match r {
        Ok(h) => {
            &&& reads_up_to(parts, parts.len() as int)
            &&& has_kind(parts, parts.len() as int, PartKind::Key(h.keycode))
            &&& h.ctrl == has_kind(parts, parts.len() as int, PartKind::Ctrl)
            &&& h.shift == has_kind(parts, parts.len() as int, PartKind::Shift)
            &&& h.alt == has_kind(parts, parts.len() as int, PartKind::Alt)
            &&& h.meta == has_kind(parts, parts.len() as int, PartKind::Meta)
        },
        Err(HotkeyError::UnknownKey { key }) => exists|i: int|
            {
                &&& 0 <= i < parts.len()
                &&& reads_up_to(parts, i)
                &&& kind_of(#[trigger] parts[i]) is Unknown
                &&& key@ == parts[i]
            },
        Err(HotkeyError::SeveralKeys) => exists|i: int|
            {
                &&& 0 <= i < parts.len()
                &&& reads_up_to(parts, i)
                &&& kind_of(#[trigger] parts[i]) is Key
                &&& key_before(parts, i)
            },
        Err(HotkeyError::NoMainKey) => {
            &&& reads_up_to(parts, parts.len() as int)
            &&& !key_before(parts, parts.len() as int)
        },
    }
}

impl Hotkey {
    /// Reads a hotkey such as `Ctrl+Shift+M`. The case of the letters does not matter.
    ///
    /// The modifiers are Ctrl, Shift, Alt and Meta (also Super, Win); the keys are those of
    /// [`KEY_NAMES`].
    pub fn parse(s: &str) -> (r: Result<Hotkey, HotkeyError>)
        ensures
            is_reading(hotkey_parts(s@), r),
    {
        let pieces = text::split_text(s, '+');
        let ghost parts = hotkey_parts(s@);
        let mut ctrl = false;
        let mut shift = false;
        let mut alt = false;
        let mut meta = false;
        let mut keycode: Option<u16> = None;
        let mut i: usize = 0;
        while i < pieces.len()
            invariant
                text::texts(pieces@) == text::split_on(s@, '+'),
                parts == hotkey_parts(s@),
                pieces@.len() == parts.len(),
                0 <= i <= pieces@.len(),
                reads_up_to(parts, i as int),
                ctrl == has_kind(parts, i as int, PartKind::Ctrl),
                shift == has_kind(parts, i as int, PartKind::Shift),
                alt == has_kind(parts, i as int, PartKind::Alt),
                meta == has_kind(parts, i as int, PartKind::Meta),
                keycode is Some <==> key_before(parts, i as int),
                keycode is Some ==> has_kind(parts, i as int, PartKind::Key(keycode->0)),
            decreases pieces@.len() - i,
        {
            let piece = text::trim_text(pieces[i].as_str());
            let part = text::to_ascii_lower(piece.as_str());
            proof {
                assert(text::texts(pieces@)[i as int] == pieces@[i as int]@);
                assert(part@ == parts[i as int]);
                lemma_kinds_step(parts, i as int);
            }
            let p = part.as_str();
            if text::same_text(p, "ctrl") || text::same_text(p, "control") {
                ctrl = true;
            } else if text::same_text(p, "shift") {
                shift = true;
            } else if text::same_text(p, "alt") {
                alt = true;
            } else if text::same_text(p, "meta") || text::same_text(p, "super")
                || text::same_text(p, "win") || text::same_text(p, "windows") {
                meta = true;
            } else {
                match parse_keyname(p) {
                    None => {
                        return Err(HotkeyError::UnknownKey { key: part });
                    },
                    Some(code) => {
                        if keycode.is_some() {
                            return Err(HotkeyError::SeveralKeys);
                        }
                        keycode = Some(code);
                    },
                }
            }
            i += 1;
        }
        match keycode {
            None => Err(HotkeyError::NoMainKey),
            Some(keycode) => Ok(Hotkey { ctrl, shift, alt, meta, keycode }),
        }
    }
}

/// What one more part adds to what has been seen.
proof fn lemma_kinds_step(parts: Seq<Seq<char>>, i: int)
    requires
        0 <= i < parts.len(),
    ensures
        forall|kind: PartKind|
            #[trigger] has_kind(parts, i + 1, kind) == (has_kind(parts, i, kind) || kind_of(
                parts[i],
            ) == kind),
        key_before(parts, i + 1) == (key_before(parts, i) || kind_of(parts[i]) is Key),
        reads_up_to(parts, i) && !stops_at(parts, i) ==> reads_up_to(parts, i + 1),
{
    assert forall|kind: PartKind|
        #[trigger] has_kind(parts, i + 1, kind) == (has_kind(parts, i, kind) || kind_of(parts[i])
            == kind) by {
        if has_kind(parts, i, kind) {
            let j = choose|j: int| 0 <= j < i && kind_of(#[trigger] parts[j]) == kind;
            assert(0 <= j < i + 1 && kind_of(parts[j]) == kind);
        }
    }
    if key_before(parts, i) {
        let j = choose|j: int| 0 <= j < i && kind_of(#[trigger] parts[j]) is Key;
        assert(0 <= j < i + 1 && kind_of(parts[j]) is Key);
    }
}

impl HotkeyError {
    /// What the user is told about the text `hotkey`.
    pub open spec fn message_text(&self, hotkey: Seq<char>) -> Seq<char> {
        match self {
            HotkeyError::UnknownKey { key } => "неизвестная клавиша '"@ + key@ + "' в hotkey '"@
                + hotkey + "'"@,
            HotkeyError::SeveralKeys => "в hotkey '"@ + hotkey
                + "' больше одной не-модификаторной клавиши"@,
            HotkeyError::NoMainKey => "в hotkey '"@ + hotkey + "' не указана главная клавиша"@,
        }
    }

    /// What the user is told about the text `hotkey`.
    pub fn message(&self, hotkey: &str) -> (m: String)
        ensures
            m@ == self.message_text(hotkey@),
            match self {
                HotkeyError::UnknownKey { key } => m@ == "неизвестная клавиша '"@ + key@
                    + "' в hotkey '"@ + hotkey@ + "'"@,
                HotkeyError::SeveralKeys => m@ == "в hotkey '"@ + hotkey@
                    + "' больше одной не-модификаторной клавиши"@,
                HotkeyError::NoMainKey => m@ == "в hotkey '"@ + hotkey@
                    + "' не указана главная клавиша"@,
            },
    {
        let mut m = String::new();
        match self {
            HotkeyError::UnknownKey { key } => {
                m.append("неизвестная клавиша '");
                m.append(key.as_str());
                m.append("' в hotkey '");
                m.append(hotkey);
                m.append("'");
            },
            HotkeyError::SeveralKeys => {
                m.append("в hotkey '");
                m.append(hotkey);
                m.append("' больше одной не-модификаторной клавиши");
            },
            HotkeyError::NoMainKey => {
                m.append("в hotkey '");
                m.append(hotkey);
                m.append("' не указана главная клавиша");
            },
        }
        proof {
            assert(m@ =~= self.message_text(hotkey@));
        }
        m
    }
}

/// What was found where the settings should be.
#[derive(Debug, Clone)]
pub enum ConfigFile {
    /// There is no file.
    Missing,
    /// The file was read.
    Parsed(Config),
    /// There is a file that cannot be read as settings.
    Broken,
}

/// The settings to use, and whether the defaults are to be written to the file.
#[derive(Debug, Clone)]
pub struct Loaded {
    pub config: Config,
    pub write_default: bool,
}

/// The settings to use for what was found.
///
/// A file that was read gives its settings. Without one the defaults hold and are written. A
/// broken file is no failure: the defaults hold, and the file is not overwritten.
pub fn load(found: ConfigFile) -> (l: Loaded)
    ensures
        l.write_default <==> found is Missing,
        match found {
            ConfigFile::Parsed(c) => l.config == c,
            _ => is_default(l.config),
        },
{
    match found {
        ConfigFile::Missing => Loaded { config: Config::default(), write_default: true },
        ConfigFile::Parsed(config) => Loaded { config, write_default: false },
        ConfigFile::Broken => Loaded { config: Config::default(), write_default: false },
    }
}

/// The lines above the settings in a file that was created with the defaults.
pub open spec fn default_header() -> Seq<char> {
    "# matea-switcher config — см. AGENTS.md в репе для полного списка опций\n"@
        + "# Этот файл создан автоматически при первом запуске.\n"@
        + "# Удали — будет пересоздан с дефолтами.\n\n"@
}

/// The text of a file that is created with the defaults: the header, then the settings.
pub fn default_file_text(body: &str) -> (r: String)
    ensures
        r@ == default_header() + body@,
        r@ == "# matea-switcher config — см. AGENTS.md в репе для полного списка опций\n"@
            + "# Этот файл создан автоматически при первом запуске.\n"@
            + "# Удали — будет пересоздан с дефолтами.\n\n"@ + body@,
{
    let mut r = String::new();
    r.append("# matea-switcher config — см. AGENTS.md в репе для полного списка опций\n");
    r.append("# Этот файл создан автоматически при первом запуске.\n");
    r.append("# Удали — будет пересоздан с дефолтами.\n\n");
    r.append(body);
    proof {
        assert(r@ =~= default_header() + body@);
    }
    r
}

/// A text has one reading: two results that are both readings of the same parts are the same
/// hotkey, or the same error.
pub proof fn law_one_reading(
    parts: Seq<Seq<char>>,
    a: Result<Hotkey, HotkeyError>,
    b: Result<Hotkey, HotkeyError>,
)
    requires
        is_reading(parts, a),
        is_reading(parts, b),
    ensures
        a is Ok <==> b is Ok,
        a is Ok ==> a->Ok_0 == b->Ok_0,
        a matches Err(HotkeyError::UnknownKey { key: x }) ==> (b matches Err(
            HotkeyError::UnknownKey { key: y },
        ) && x@ == y@),
        a matches Err(HotkeyError::SeveralKeys) ==> b matches Err(HotkeyError::SeveralKeys),
        a matches Err(HotkeyError::NoMainKey) ==> b matches Err(HotkeyError::NoMainKey),
{
    let n = parts.len() as int;
    let (sa, sb) = (stop_of(parts, a), stop_of(parts, b));
    if sa < sb {
        assert(stops_at(parts, sa));
    } else if sb < sa {
        assert(stops_at(parts, sb));
    }
    if a is Ok && b is Ok {
        let (x, y) = (a->Ok_0, b->Ok_0);
        let i = choose|j: int|
            0 <= j < n && kind_of(#[trigger] parts[j]) == PartKind::Key(x.keycode);
        let k = choose|j: int|
            0 <= j < n && kind_of(#[trigger] parts[j]) == PartKind::Key(y.keycode);
        if i < k {
            assert(key_before(parts, k));
            assert(stops_at(parts, k));
        } else if k < i {
            assert(key_before(parts, i));
            assert(stops_at(parts, i));
        }
    }
}

/// Where a reading stopped: at the part that gave the error, else behind the last one.
spec fn stop_of(parts: Seq<Seq<char>>, r: Result<Hotkey, HotkeyError>) -> int {
    match r {
        Err(HotkeyError::UnknownKey { key }) => choose|i: int|
            {
                &&& 0 <= i < parts.len()
                &&& reads_up_to(parts, i)
                &&& kind_of(#[trigger] parts[i]) is Unknown
                &&& key@ == parts[i]
            },
        Err(HotkeyError::SeveralKeys) => choose|i: int|
            {
                &&& 0 <= i < parts.len()
                &&& reads_up_to(parts, i)
                &&& kind_of(#[trigger] parts[i]) is Key
                &&& key_before(parts, i)
            },
        _ => parts.len() as int,
    }
}

/// The case of the letters does not matter: a hotkey in small letters has the same parts, and so
/// the same reading.
pub proof fn law_hotkey_ignores_case(s: Seq<char>)
    ensures
        hotkey_parts(text::ascii_lower(s)) == hotkey_parts(s),
{
    text::lemma_split_of_lower(s, '+');
    let pieces = text::split_on(s, '+');
    assert forall|i: int| 0 <= i < pieces.len() implies hotkey_parts(text::ascii_lower(s))[i]
        == #[trigger] hotkey_parts(s)[i] by {
        text::lemma_trim_of_lower(pieces[i]);
        text::lemma_lower_twice(text::trimmed(pieces[i]));
    }
    assert(hotkey_parts(text::ascii_lower(s)) =~= hotkey_parts(s));
}

/// The case of the letters does not matter in the name of a key.
pub proof fn law_key_name_ignores_case(name: Seq<char>)
    ensures
        keycode_of(text::ascii_lower(name)) == keycode_of(name),
{
    text::lemma_lower_twice(name);
}

/// How many of the parts name a key.
pub open spec fn key_count(parts: Seq<Seq<char>>) -> nat
    decreases parts.len(),
{
    if parts.len() == 0 {
        0
    } else {
        key_count(parts.drop_last()) + if kind_of(parts.last()) is Key {
            1nat
        } else {
            0nat
        }
    }
}

/// The parts are of the same kinds, and as many of them name a key. How often a modifier is
/// named, by which of its names, and in what order, does not matter.
pub open spec fn same_spelling(a: Seq<Seq<char>>, b: Seq<Seq<char>>) -> bool {
    &&& forall|kind: PartKind|
        #[trigger] has_kind(a, a.len() as int, kind) == has_kind(b, b.len() as int, kind)
    &&& key_count(a) == key_count(b)
}

/// Two readings are the same hotkey, or both are errors.
pub open spec fn agree(a: Result<Hotkey, HotkeyError>, b: Result<Hotkey, HotkeyError>) -> bool {
    match (a, b) {
        (Ok(x), Ok(y)) => x == y,
        (Err(_), Err(_)) => true,
        _ => false,
    }
}

/// The number of keys among the first parts tells whether there is one, and only grows.
proof fn lemma_key_count(parts: Seq<Seq<char>>, i: int)
    requires
        0 <= i <= parts.len(),
    ensures
        key_before(parts, i) <==> key_count(parts.take(i)) > 0,
        key_count(parts.take(i)) <= key_count(parts),
        reads_up_to(parts, i) ==> key_count(parts.take(i)) <= 1,
        i < parts.len() ==> key_count(parts.take(i + 1)) == key_count(parts.take(i)) + (
        if kind_of(parts[i]) is Key {
            1nat
        } else {
            0nat
        }),
    decreases parts.len(), i,
{
    let front = parts.take(i);
    if i < parts.len() {
        assert(parts.take(i + 1).drop_last() =~= front);
        let less = parts.drop_last();
        lemma_key_count(less, i);
        assert(less.take(i) =~= front);
    } else {
        assert(front =~= parts);
    }
    if i > 0 {
        lemma_key_count(parts, i - 1);
        lemma_kinds_step(parts, i - 1);
        assert(parts.take(i).drop_last() =~= parts.take(i - 1));
        if reads_up_to(parts, i) {
            assert(reads_up_to(parts, i - 1));
            assert(!stops_at(parts, i - 1));
        }
    }
}

/// A text is a hotkey exactly if every part is a modifier or a known key and one part is a key.
pub proof fn law_when_a_hotkey_is_read(parts: Seq<Seq<char>>, r: Result<Hotkey, HotkeyError>)
    requires
        is_reading(parts, r),
    ensures
        r is Ok <==> key_count(parts) == 1 && !has_kind(
            parts,
            parts.len() as int,
            PartKind::Unknown,
        ),
{
    let n = parts.len() as int;
    lemma_key_count(parts, n);
    assert(parts.take(n) =~= parts);
    match r {
        Ok(h) => {
            let j = choose|j: int|
                0 <= j < n && kind_of(#[trigger] parts[j]) == PartKind::Key(h.keycode);
            assert(key_before(parts, n));
            if has_kind(parts, n, PartKind::Unknown) {
                let k = choose|k: int|
                    0 <= k < n && kind_of(#[trigger] parts[k]) == PartKind::Unknown;
                assert(stops_at(parts, k));
            }
        },
        Err(HotkeyError::UnknownKey { key }) => {
            let i = stop_of(parts, r);
            assert(kind_of(parts[i]) == PartKind::Unknown);
        },
        Err(HotkeyError::SeveralKeys) => {
            let i = stop_of(parts, r);
            lemma_key_count(parts, i);
            lemma_key_count(parts, i + 1);
        },
        Err(HotkeyError::NoMainKey) => {},
    }
}

/// Texts of the same spelling read the same: both are errors, or both are the same hotkey.
pub proof fn law_same_spelling_same_reading(
    a: Seq<Seq<char>>,
    b: Seq<Seq<char>>,
    ra: Result<Hotkey, HotkeyError>,
    rb: Result<Hotkey, HotkeyError>,
)
    requires
        same_spelling(a, b),
        is_reading(a, ra),
        is_reading(b, rb),
    ensures
        agree(ra, rb),
{
    law_when_a_hotkey_is_read(a, ra);
    law_when_a_hotkey_is_read(b, rb);
    let (n, m) = (a.len() as int, b.len() as int);
    assert(has_kind(a, n, PartKind::Unknown) == has_kind(b, m, PartKind::Unknown));
    if ra is Ok {
        let (x, y) = (ra->Ok_0, rb->Ok_0);
        assert(has_kind(a, n, PartKind::Ctrl) == has_kind(b, m, PartKind::Ctrl));
        assert(has_kind(a, n, PartKind::Shift) == has_kind(b, m, PartKind::Shift));
        assert(has_kind(a, n, PartKind::Alt) == has_kind(b, m, PartKind::Alt));
        assert(has_kind(a, n, PartKind::Meta) == has_kind(b, m, PartKind::Meta));
        assert(has_kind(a, n, PartKind::Key(x.keycode)) == has_kind(
            b,
            m,
            PartKind::Key(x.keycode),
        ));
        let i = choose|j: int|
            0 <= j < m && kind_of(#[trigger] b[j]) == PartKind::Key(x.keycode);
        let k = choose|j: int|
            0 <= j < m && kind_of(#[trigger] b[j]) == PartKind::Key(y.keycode);
        if i < k {
            assert(key_before(b, k));
            assert(stops_at(b, k));
        } else if k < i {
            assert(key_before(b, i));
            assert(stops_at(b, i));
        }
    }
}

/// What stands between the plus signs of a hotkey.
pub open spec fn hotkey_pieces(s: Seq<char>) -> Seq<Seq<char>> {
    text::split_on(s, '+')
}

/// What a piece between plus signs stands for.
pub open spec fn piece_kind(piece: Seq<char>) -> PartKind {
    kind_of(text::ascii_lower(text::trimmed(piece)))
}

/// The part is a modifier.
pub open spec fn is_modifier(kind: PartKind) -> bool {
    kind is Ctrl || kind is Shift || kind is Alt || kind is Meta
}

/// The same pieces, in any order.
pub open spec fn is_reordered(s: Seq<char>, t: Seq<char>) -> bool {
    hotkey_pieces(s).to_multiset() == hotkey_pieces(t).to_multiset()
}

/// The same text, but for the case of Latin letters.
pub open spec fn is_recased(s: Seq<char>, t: Seq<char>) -> bool {
    text::ascii_lower(s) == text::ascii_lower(t)
}

/// The piece with white space around it.
pub open spec fn is_padded_piece(piece: Seq<char>, padded: Seq<char>) -> bool {
    exists|before: Seq<char>, after: Seq<char>|
        text::is_blank(before) && text::is_blank(after) && padded == #[trigger] (before + piece
            + after)
}

/// The same pieces, with white space around any of them.
pub open spec fn is_padded(s: Seq<char>, t: Seq<char>) -> bool {
    &&& hotkey_pieces(s).len() == hotkey_pieces(t).len()
    &&& forall|i: int|
        0 <= i < hotkey_pieces(s).len() ==> is_padded_piece(
            #[trigger] hotkey_pieces(s)[i],
            hotkey_pieces(t)[i],
        )
}

/// One more piece, anywhere, that names a modifier which is named already.
pub open spec fn repeats_modifier(s: Seq<char>, t: Seq<char>) -> bool {
    exists|i: int, j: int, piece: Seq<char>|
        {
            &&& 0 <= i <= hotkey_pieces(s).len()
            &&& 0 <= j < hotkey_pieces(s).len()
            &&& is_modifier(piece_kind(piece))
            &&& piece_kind(piece) == piece_kind(#[trigger] hotkey_pieces(s)[j])
            &&& hotkey_pieces(t) == #[trigger] hotkey_pieces(s).insert(i, piece)
        }
}

/// One piece that names a modifier is replaced by another name of the same modifier.
pub open spec fn swaps_alias(s: Seq<char>, t: Seq<char>) -> bool {
    exists|i: int, piece: Seq<char>|
        {
            &&& 0 <= i < hotkey_pieces(s).len()
            &&& is_modifier(piece_kind(piece))
            &&& piece_kind(piece) == piece_kind(hotkey_pieces(s)[i])
            &&& hotkey_pieces(t) == #[trigger] hotkey_pieces(s).update(i, piece)
        }
}

/// `t` is another way to write `s`: the parts in another order, letters in another case, parts
/// with white space around them, a modifier named once more, or by another of its names.
pub open spec fn is_respelled(s: Seq<char>, t: Seq<char>) -> bool {
    ||| is_reordered(s, t)
    ||| is_recased(s, t)
    ||| is_padded(s, t)
    ||| repeats_modifier(s, t)
    ||| swaps_alias(s, t)
}

/// Each part is of the kind of its piece.
proof fn lemma_parts_of_pieces(s: Seq<char>)
    ensures
        hotkey_parts(s).len() == hotkey_pieces(s).len(),
        forall|i: int|
            0 <= i < hotkey_parts(s).len() ==> kind_of(#[trigger] hotkey_parts(s)[i])
                == piece_kind(hotkey_pieces(s)[i]),
{
}

/// The number of keys does not depend on where a part stands.
proof fn lemma_key_count_remove(parts: Seq<Seq<char>>, j: int)
    requires
        0 <= j < parts.len(),
    ensures
        key_count(parts) == key_count(parts.remove(j)) + (if kind_of(parts[j]) is Key {
            1nat
        } else {
            0nat
        }),
    decreases parts.len(),
{
    if j == parts.len() - 1 {
        assert(parts.remove(j) =~= parts.drop_last());
    } else {
        lemma_key_count_remove(parts.drop_last(), j);
        assert(parts.remove(j).drop_last() =~= parts.drop_last().remove(j));
        assert(parts.remove(j).last() == parts.last());
    }
}

/// The parts that pieces give.
spec fn parts_of(pieces: Seq<Seq<char>>) -> Seq<Seq<char>> {
    pieces.map_values(|p: Seq<char>| text::ascii_lower(text::trimmed(p)))
}

/// Pieces in another order name as many keys.
proof fn lemma_key_count_of_reordered(a: Seq<Seq<char>>, b: Seq<Seq<char>>)
    requires
        a.to_multiset() == b.to_multiset(),
    ensures
        key_count(parts_of(a)) == key_count(parts_of(b)),
    decreases a.len(),
{
    a.to_multiset_ensures();
    b.to_multiset_ensures();
    if a.len() > 0 {
        let last = a.len() - 1;
        let x = a[last];
        assert(a.contains(x));
        assert(b.to_multiset().count(x) > 0);
        assert(b.contains(x));
        let j = b.index_of(x);
        assert(a.remove(last).to_multiset() == b.remove(j).to_multiset());
        lemma_key_count_of_reordered(a.remove(last), b.remove(j));
        lemma_key_count_remove(parts_of(a), last);
        lemma_key_count_remove(parts_of(b), j);
        assert(parts_of(a).remove(last) =~= parts_of(a.remove(last)));
        assert(parts_of(b).remove(j) =~= parts_of(b.remove(j)));
    }
}

/// A kind among the pieces that are all in another list is in that list too.
proof fn lemma_kind_moves(a: Seq<Seq<char>>, b: Seq<Seq<char>>, kind: PartKind)
    requires
        forall|i: int| 0 <= i < a.len() ==> b.contains(#[trigger] a[i]),
        has_kind(parts_of(a), a.len() as int, kind),
    ensures
        has_kind(parts_of(b), b.len() as int, kind),
{
    let j = choose|j: int| 0 <= j < a.len() && kind_of(#[trigger] parts_of(a)[j]) == kind;
    assert(b.contains(a[j]));
    let k = b.index_of(a[j]);
    assert(parts_of(b)[k] == parts_of(a)[j]);
}

proof fn lemma_reordered(s: Seq<char>, t: Seq<char>)
    requires
        is_reordered(s, t),
    ensures
        same_spelling(hotkey_parts(s), hotkey_parts(t)),
{
    let (a, b) = (hotkey_pieces(s), hotkey_pieces(t));
    assert(hotkey_parts(s) =~= parts_of(a));
    assert(hotkey_parts(t) =~= parts_of(b));
    lemma_key_count_of_reordered(a, b);
    a.to_multiset_ensures();
    b.to_multiset_ensures();
    assert forall|i: int| 0 <= i < a.len() implies b.contains(#[trigger] a[i]) by {
        assert(a.contains(a[i]));
        assert(a.to_multiset().count(a[i]) > 0);
    }
    assert forall|i: int| 0 <= i < b.len() implies a.contains(#[trigger] b[i]) by {
        assert(b.contains(b[i]));
        assert(b.to_multiset().count(b[i]) > 0);
    }
    assert forall|kind: PartKind|
        #[trigger] has_kind(hotkey_parts(s), a.len() as int, kind) == has_kind(
            hotkey_parts(t),
            b.len() as int,
            kind,
        ) by {
        if has_kind(parts_of(a), a.len() as int, kind) {
            lemma_kind_moves(a, b, kind);
        }
        if has_kind(parts_of(b), b.len() as int, kind) {
            lemma_kind_moves(b, a, kind);
        }
    }
}

/// White space around any part of a hotkey does not change its parts.
pub proof fn law_hotkey_ignores_padding(s: Seq<char>, t: Seq<char>)
    requires
        is_padded(s, t),
    ensures
        hotkey_parts(t) == hotkey_parts(s),
{
    let (a, b) = (hotkey_pieces(s), hotkey_pieces(t));
    assert forall|i: int| 0 <= i < a.len() implies hotkey_parts(t)[i] == hotkey_parts(s)[i] by {
        assert(is_padded_piece(a[i], b[i]));
        let (before, after) = choose|before: Seq<char>, after: Seq<char>|
            text::is_blank(before) && text::is_blank(after) && b[i] == #[trigger] (before + a[i]
                + after);
        text::lemma_trim_of_padded(before, a[i], after);
    }
    assert(hotkey_parts(t) =~= hotkey_parts(s));
}

/// Parts that are one by one of the same kind are of the same spelling.
proof fn lemma_same_kinds(a: Seq<Seq<char>>, b: Seq<Seq<char>>)
    requires
        a.len() == b.len(),
        forall|i: int| 0 <= i < a.len() ==> kind_of(#[trigger] a[i]) == kind_of(b[i]),
    ensures
        same_spelling(a, b),
    decreases a.len(),
{
    let n = a.len() as int;
    assert forall|kind: PartKind| #[trigger] has_kind(a, n, kind) == has_kind(b, n, kind) by {
        if has_kind(a, n, kind) {
            let j = choose|j: int| 0 <= j < n && kind_of(#[trigger] a[j]) == kind;
            assert(kind_of(b[j]) == kind);
        }
        if has_kind(b, n, kind) {
            let j = choose|j: int| 0 <= j < n && kind_of(#[trigger] b[j]) == kind;
            assert(kind_of(a[j]) == kind);
        }
    }
    if n > 0 {
        let (c, d) = (a.drop_last(), b.drop_last());
        assert forall|i: int| 0 <= i < c.len() implies kind_of(#[trigger] c[i]) == kind_of(
            d[i],
        ) by {
            assert(c[i] == a[i]);
        }
        lemma_same_kinds(c, d);
        assert(a.last() == a[n - 1]);
        assert(b.last() == b[n - 1]);
    }
}

proof fn lemma_repeated_modifier(s: Seq<char>, t: Seq<char>)
    requires
        repeats_modifier(s, t),
    ensures
        same_spelling(hotkey_parts(s), hotkey_parts(t)),
{
    let (i, j, piece) = choose|i: int, j: int, piece: Seq<char>|
        {
            &&& 0 <= i <= hotkey_pieces(s).len()
            &&& 0 <= j < hotkey_pieces(s).len()
            &&& is_modifier(piece_kind(piece))
            &&& piece_kind(piece) == piece_kind(#[trigger] hotkey_pieces(s)[j])
            &&& hotkey_pieces(t) == #[trigger] hotkey_pieces(s).insert(i, piece)
        };
    let (a, b) = (hotkey_parts(s), hotkey_parts(t));
    let (n, m) = (a.len() as int, b.len() as int);
    lemma_parts_of_pieces(s);
    lemma_parts_of_pieces(t);
    assert(hotkey_pieces(t)[i] == piece);
    assert forall|k: int| 0 <= k < i implies b[k] == a[k] by {
        assert(hotkey_pieces(t)[k] == hotkey_pieces(s)[k]);
    }
    assert forall|k: int| i <= k < n implies b[k + 1] == a[k] by {
        assert(hotkey_pieces(t)[k + 1] == hotkey_pieces(s)[k]);
    }
    lemma_key_count_remove(b, i);
    assert(b.remove(i) =~= a);
    assert forall|kind: PartKind| #[trigger] has_kind(a, n, kind) == has_kind(b, m, kind) by {
        if has_kind(a, n, kind) {
            let k = choose|k: int| 0 <= k < n && kind_of(#[trigger] a[k]) == kind;
            if k < i {
                assert(kind_of(b[k]) == kind);
            } else {
                assert(kind_of(b[k + 1]) == kind);
            }
        }
        if has_kind(b, m, kind) {
            let k = choose|k: int| 0 <= k < m && kind_of(#[trigger] b[k]) == kind;
            if k < i {
                assert(kind_of(a[k]) == kind);
            } else if k == i {
                assert(kind_of(a[j]) == kind);
            } else {
                assert(b[(k - 1) + 1] == a[k - 1]);
                assert(kind_of(a[k - 1]) == kind);
            }
        }
    }
}

proof fn lemma_swapped_alias(s: Seq<char>, t: Seq<char>)
    requires
        swaps_alias(s, t),
    ensures
        same_spelling(hotkey_parts(s), hotkey_parts(t)),
{
    let (i, piece) = choose|i: int, piece: Seq<char>|
        {
            &&& 0 <= i < hotkey_pieces(s).len()
            &&& is_modifier(piece_kind(piece))
            &&& piece_kind(piece) == piece_kind(hotkey_pieces(s)[i])
            &&& hotkey_pieces(t) == #[trigger] hotkey_pieces(s).update(i, piece)
        };
    let (a, b) = (hotkey_parts(s), hotkey_parts(t));
    lemma_parts_of_pieces(s);
    lemma_parts_of_pieces(t);
    assert forall|k: int| 0 <= k < a.len() implies kind_of(#[trigger] a[k]) == kind_of(b[k]) by {
        if k == i {
            assert(hotkey_pieces(t)[k] == piece);
        } else {
            assert(hotkey_pieces(t)[k] == hotkey_pieces(s)[k]);
        }
    }
    lemma_same_kinds(a, b);
}

/// Another way to write a hotkey is of the same spelling.
pub proof fn law_respelled_hotkey_has_the_same_spelling(s: Seq<char>, t: Seq<char>)
    requires
        is_respelled(s, t),
    ensures
        same_spelling(hotkey_parts(s), hotkey_parts(t)),
{
    if is_reordered(s, t) {
        lemma_reordered(s, t);
    } else if is_recased(s, t) {
        law_hotkey_ignores_case(s);
        law_hotkey_ignores_case(t);
    } else if is_padded(s, t) {
        law_hotkey_ignores_padding(s, t);
    } else if repeats_modifier(s, t) {
        lemma_repeated_modifier(s, t);
    } else {
        lemma_swapped_alias(s, t);
    }
}

/// A hotkey may be written in many ways. Change it as often as you like, each time by putting the
/// parts in another order, changing the case of letters, adding white space around parts, naming a
/// modifier once more or by another of its names: the last text reads as the first, as the same
/// hotkey or as an error.
pub proof fn law_a_respelled_hotkey_reads_the_same(
    texts: Seq<Seq<char>>,
    first: Result<Hotkey, HotkeyError>,
    last: Result<Hotkey, HotkeyError>,
)
    requires
        texts.len() > 0,
        forall|i: int, j: int|
            0 <= i && j == i + 1 && j < texts.len() ==> is_respelled(
                #[trigger] texts[i],
                #[trigger] texts[j],
            ),
        is_reading(hotkey_parts(texts.first()), first),
        is_reading(hotkey_parts(texts.last()), last),
    ensures
        agree(first, last),
{
    lemma_spelling_of_series(texts);
    law_same_spelling_same_reading(
        hotkey_parts(texts.first()),
        hotkey_parts(texts.last()),
        first,
        last,
    );
}

proof fn lemma_spelling_of_series(texts: Seq<Seq<char>>)
    requires
        texts.len() > 0,
        forall|i: int, j: int|
            0 <= i && j == i + 1 && j < texts.len() ==> is_respelled(
                #[trigger] texts[i],
                #[trigger] texts[j],
            ),
    ensures
        same_spelling(hotkey_parts(texts.first()), hotkey_parts(texts.last())),
    decreases texts.len(),
{
    if texts.len() > 1 {
        let front = texts.drop_last();
        assert forall|i: int, j: int| 0 <= i && j == i + 1 && j < front.len() implies is_respelled(
            #[trigger] front[i],
            #[trigger] front[j],
        ) by {
            assert(front[i] == texts[i]);
            assert(front[j] == texts[j]);
        }
        lemma_spelling_of_series(front);
        assert(is_respelled(texts[texts.len() - 2], texts[texts.len() - 1]));
        law_respelled_hotkey_has_the_same_spelling(front.last(), texts.last());
        let (a, b, c) = (
            hotkey_parts(texts.first()),
            hotkey_parts(front.last()),
            hotkey_parts(texts.last()),
        );
        assert forall|kind: PartKind|
            #[trigger] has_kind(a, a.len() as int, kind) == has_kind(c, c.len() as int, kind) by {
            assert(has_kind(a, a.len() as int, kind) == has_kind(b, b.len() as int, kind));
            assert(has_kind(b, b.len() as int, kind) == has_kind(c, c.len() as int, kind));
        }
    }
}

/// The parts of a hotkey are what stands between the plus signs, without the white space around it
/// and in small letters.
pub proof fn law_parts_stand_between_plus_signs(s: Seq<char>)
    ensures
        hotkey_parts(s).len() == text::split_on(s, '+').len(),
        forall|i: int|
            0 <= i < hotkey_parts(s).len() ==> #[trigger] hotkey_parts(s)[i] == text::ascii_lower(
                text::trimmed(text::split_on(s, '+')[i]),
            ),
{
}

/// The first row with a name gives its code.
proof fn lemma_code_in(table: Seq<(&'static str, u16)>, name: Seq<char>, i: int)
    requires
        0 <= i < table.len(),
        table[i].0@ == name,
        forall|j: int| 0 <= j < i ==> (#[trigger] table[j]).0@ != name,
    ensures
        code_in(table, name) == Some(table[i].1),
    decreases table.len(),
{
    if i > 0 {
        let rest = table.drop_first();
        assert(table[0].0@ != name);
        assert(rest[i - 1] == table[i]);
        assert forall|j: int| 0 <= j < i - 1 implies (#[trigger] rest[j]).0@ != name by {
            assert(rest[j] == table[j + 1]);
        }
        lemma_code_in(rest, name, i - 1);
    }
}

/// A name with a code stands in a row.
proof fn lemma_row_of_code(table: Seq<(&'static str, u16)>, name: Seq<char>) -> (i: int)
    requires
        code_in(table, name) is Some,
    ensures
        0 <= i < table.len(),
        table[i].0@ == name,
        code_in(table, name) == Some(table[i].1),
    decreases table.len(),
{
    if table[0].0@ == name {
        0
    } else {
        let k = lemma_row_of_code(table.drop_first(), name);
        assert(table.drop_first()[k] == table[k + 1]);
        k + 1
    }
}

/// The length, the first and the last character of each name.
proof fn lemma_names_told_apart()
    ensures
        forall|i: int, j: int|
            0 <= i < j < 58 ==> (#[trigger] KEY_NAMES@[i]).0@ != (#[trigger] KEY_NAMES@[j]).0@,
{
    reveal_strlit("a");
    reveal_strlit("b");
    reveal_strlit("c");
    reveal_strlit("d");
    reveal_strlit("e");
    reveal_strlit("f");
    reveal_strlit("g");
    reveal_strlit("h");
    reveal_strlit("i");
    reveal_strlit("j");
    reveal_strlit("k");
    reveal_strlit("l");
    reveal_strlit("m");
    reveal_strlit("n");
    reveal_strlit("o");
    reveal_strlit("p");
    reveal_strlit("q");
    reveal_strlit("r");
    reveal_strlit("s");
    reveal_strlit("t");
    reveal_strlit("u");
    reveal_strlit("v");
    reveal_strlit("w");
    reveal_strlit("x");
    reveal_strlit("y");
    reveal_strlit("z");
    reveal_strlit("0");
    reveal_strlit("1");
    reveal_strlit("2");
    reveal_strlit("3");
    reveal_strlit("4");
    reveal_strlit("5");
    reveal_strlit("6");
    reveal_strlit("7");
    reveal_strlit("8");
    reveal_strlit("9");
    reveal_strlit("space");
    reveal_strlit("tab");
    reveal_strlit("enter");
    reveal_strlit("return");
    reveal_strlit("esc");
    reveal_strlit("escape");
    reveal_strlit("pause");
    reveal_strlit("backspace");
    reveal_strlit("capslock");
    reveal_strlit("caps");
    reveal_strlit("f1");
    reveal_strlit("f2");
    reveal_strlit("f3");
    reveal_strlit("f4");
    reveal_strlit("f5");
    reveal_strlit("f6");
    reveal_strlit("f7");
    reveal_strlit("f8");
    reveal_strlit("f9");
    reveal_strlit("f10");
    reveal_strlit("f11");
    reveal_strlit("f12");
    let t = KEY_NAMES@;
    let tag = |i: int| (t[i].0@.len(), t[i].0@[0], t[i].0@[t[i].0@.len() - 1]);
    assert forall|i: int, j: int| 0 <= i < j < 58 implies (#[trigger] t[i]).0@ != (
    #[trigger] t[j]).0@ by {
        assert(tag(i) != tag(j));
    }
}

proof fn lemma_key_row(i: int)
    requires
        0 <= i < 58,
    ensures
        code_in(KEY_NAMES@, KEY_NAMES@[i].0@) == Some(KEY_NAMES@[i].1),
{
    lemma_names_told_apart();
    lemma_code_in(KEY_NAMES@, KEY_NAMES@[i].0@, i);
}

/// The letters and digits of a key name row, as one-letter names.
proof fn lemma_letter_rows(k: int)
    requires
        0 <= k < 36,
    ensures
        KEY_NAMES@[k].0@ == seq!["abcdefghijklmnopqrstuvwxyz0123456789"@[k]],
{
    reveal_strlit("a");
    reveal_strlit("b");
    reveal_strlit("c");
    reveal_strlit("d");
    reveal_strlit("e");
    reveal_strlit("f");
    reveal_strlit("g");
    reveal_strlit("h");
    reveal_strlit("i");
    reveal_strlit("j");
    reveal_strlit("k");
    reveal_strlit("l");
    reveal_strlit("m");
    reveal_strlit("n");
    reveal_strlit("o");
    reveal_strlit("p");
    reveal_strlit("q");
    reveal_strlit("r");
    reveal_strlit("s");
    reveal_strlit("t");
    reveal_strlit("u");
    reveal_strlit("v");
    reveal_strlit("w");
    reveal_strlit("x");
    reveal_strlit("y");
    reveal_strlit("z");
    reveal_strlit("0");
    reveal_strlit("1");
    reveal_strlit("2");
    reveal_strlit("3");
    reveal_strlit("4");
    reveal_strlit("5");
    reveal_strlit("6");
    reveal_strlit("7");
    reveal_strlit("8");
    reveal_strlit("9");
    reveal_strlit("abcdefghijklmnopqrstuvwxyz0123456789");
    assert(KEY_NAMES@[k].0@ =~= seq!["abcdefghijklmnopqrstuvwxyz0123456789"@[k]]);
}

/// The keys of each row of letters, and those of the digits, have codes that follow one another,
/// and their letters may be written small or as capitals.
pub proof fn law_codes_follow_the_rows_of_the_keyboard(i: int)
    ensures
        0 <= i < 10 ==> keycode_of(seq!["1234567890"@[i]]) == Some((2 + i) as u16),
        0 <= i < 10 ==> keycode_of(seq!["qwertyuiop"@[i]]) == Some((16 + i) as u16),
        0 <= i < 9 ==> keycode_of(seq!["asdfghjkl"@[i]]) == Some((30 + i) as u16),
        0 <= i < 7 ==> keycode_of(seq!["zxcvbnm"@[i]]) == Some((44 + i) as u16),
        0 <= i < 10 ==> keycode_of(seq!["QWERTYUIOP"@[i]]) == Some((16 + i) as u16),
        0 <= i < 9 ==> keycode_of(seq!["ASDFGHJKL"@[i]]) == Some((30 + i) as u16),
        0 <= i < 7 ==> keycode_of(seq!["ZXCVBNM"@[i]]) == Some((44 + i) as u16),
{
    reveal_strlit("1234567890");
    reveal_strlit("qwertyuiop");
    reveal_strlit("asdfghjkl");
    reveal_strlit("zxcvbnm");
    reveal_strlit("QWERTYUIOP");
    reveal_strlit("ASDFGHJKL");
    reveal_strlit("ZXCVBNM");
    reveal_strlit("abcdefghijklmnopqrstuvwxyz0123456789");
    let order = "abcdefghijklmnopqrstuvwxyz0123456789"@;
    assert forall|k: int| 0 <= k < 36 implies code_in(KEY_NAMES@, seq![#[trigger] order[k]])
        == Some(KEY_NAMES@[k].1) by {
        lemma_letter_rows(k);
        lemma_key_row(k);
    }
    if 0 <= i < 10 {
        let d = "1234567890"@[i];
        let k: int = if i == 9 {
            26
        } else {
            27 + i
        };
        assert(order[k] == d);
        assert(text::ascii_lower(seq![d]) =~= seq![d]);
        lemma_one_letter("qwertyuiop"@[i], "QWERTYUIOP"@[i]);
        assert(order["qwertyuiop"@[i] as u32 - 97] == "qwertyuiop"@[i]);
    }
    if 0 <= i < 9 {
        lemma_one_letter("asdfghjkl"@[i], "ASDFGHJKL"@[i]);
        assert(order["asdfghjkl"@[i] as u32 - 97] == "asdfghjkl"@[i]);
    }
    if 0 <= i < 7 {
        lemma_one_letter("zxcvbnm"@[i], "ZXCVBNM"@[i]);
        assert(order["zxcvbnm"@[i] as u32 - 97] == "zxcvbnm"@[i]);
    }
}

proof fn lemma_one_letter(small: char, capital: char)
    requires
        'a' <= small <= 'z',
        capital as u32 + 32 == small as u32,
    ensures
        text::ascii_lower(seq![small]) == seq![small],
        text::ascii_lower(seq![capital]) == seq![small],
{
    assert(text::ascii_lower(seq![small]) =~= seq![small]);
    assert(text::ascii_lower(seq![capital]) =~= seq![small]);
}

/// The codes of the keys with longer names, and that there are no others: a name with a code is a
/// letter, a digit or one of these, in any case.
pub proof fn law_keys_with_longer_names(name: Seq<char>)
    ensures
        keycode_of("space"@) == Some(57u16),
        keycode_of("tab"@) == Some(15u16),
        keycode_of("enter"@) == Some(28u16),
        keycode_of("return"@) == Some(28u16),
        keycode_of("esc"@) == Some(1u16),
        keycode_of("escape"@) == Some(1u16),
        keycode_of("pause"@) == Some(119u16),
        keycode_of("backspace"@) == Some(14u16),
        keycode_of("capslock"@) == Some(58u16),
        keycode_of("caps"@) == Some(58u16),
        keycode_of("f1"@) == Some(59u16),
        keycode_of("f2"@) == Some(60u16),
        keycode_of("f3"@) == Some(61u16),
        keycode_of("f4"@) == Some(62u16),
        keycode_of("f5"@) == Some(63u16),
        keycode_of("f6"@) == Some(64u16),
        keycode_of("f7"@) == Some(65u16),
        keycode_of("f8"@) == Some(66u16),
        keycode_of("f9"@) == Some(67u16),
        keycode_of("f10"@) == Some(68u16),
        keycode_of("f11"@) == Some(87u16),
        keycode_of("f12"@) == Some(88u16),
        keycode_of(name) is Some ==> {
            ||| name.len() == 1 && ('a' <= name[0] <= 'z' || 'A' <= name[0] <= 'Z' || '0' <= name[0]
                <= '9')
            ||| seq![
                "space"@,
                "tab"@,
                "enter"@,
                "return"@,
                "esc"@,
                "escape"@,
                "pause"@,
                "backspace"@,
                "capslock"@,
                "caps"@,
                "f1"@,
                "f2"@,
                "f3"@,
                "f4"@,
                "f5"@,
                "f6"@,
                "f7"@,
                "f8"@,
                "f9"@,
                "f10"@,
                "f11"@,
                "f12"@,
            ].contains(
                text::ascii_lower(name),
            )
        },
{
    reveal_strlit("space");
    reveal_strlit("tab");
    reveal_strlit("enter");
    reveal_strlit("return");
    reveal_strlit("esc");
    reveal_strlit("escape");
    reveal_strlit("pause");
    reveal_strlit("backspace");
    reveal_strlit("capslock");
    reveal_strlit("caps");
    reveal_strlit("f1");
    reveal_strlit("f2");
    reveal_strlit("f3");
    reveal_strlit("f4");
    reveal_strlit("f5");
    reveal_strlit("f6");
    reveal_strlit("f7");
    reveal_strlit("f8");
    reveal_strlit("f9");
    reveal_strlit("f10");
    reveal_strlit("f11");
    reveal_strlit("f12");
    lemma_key_row(36);
    assert(text::ascii_lower("space"@) =~= "space"@);
    lemma_key_row(37);
    assert(text::ascii_lower("tab"@) =~= "tab"@);
    lemma_key_row(38);
    assert(text::ascii_lower("enter"@) =~= "enter"@);
    lemma_key_row(39);
    assert(text::ascii_lower("return"@) =~= "return"@);
    lemma_key_row(40);
    assert(text::ascii_lower("esc"@) =~= "esc"@);
    lemma_key_row(41);
    assert(text::ascii_lower("escape"@) =~= "escape"@);
    lemma_key_row(42);
    assert(text::ascii_lower("pause"@) =~= "pause"@);
    lemma_key_row(43);
    assert(text::ascii_lower("backspace"@) =~= "backspace"@);
    lemma_key_row(44);
    assert(text::ascii_lower("capslock"@) =~= "capslock"@);
    lemma_key_row(45);
    assert(text::ascii_lower("caps"@) =~= "caps"@);
    lemma_key_row(46);
    assert(text::ascii_lower("f1"@) =~= "f1"@);
    lemma_key_row(47);
    assert(text::ascii_lower("f2"@) =~= "f2"@);
    lemma_key_row(48);
    assert(text::ascii_lower("f3"@) =~= "f3"@);
    lemma_key_row(49);
    assert(text::ascii_lower("f4"@) =~= "f4"@);
    lemma_key_row(50);
    assert(text::ascii_lower("f5"@) =~= "f5"@);
    lemma_key_row(51);
    assert(text::ascii_lower("f6"@) =~= "f6"@);
    lemma_key_row(52);
    assert(text::ascii_lower("f7"@) =~= "f7"@);
    lemma_key_row(53);
    assert(text::ascii_lower("f8"@) =~= "f8"@);
    lemma_key_row(54);
    assert(text::ascii_lower("f9"@) =~= "f9"@);
    lemma_key_row(55);
    assert(text::ascii_lower("f10"@) =~= "f10"@);
    lemma_key_row(56);
    assert(text::ascii_lower("f11"@) =~= "f11"@);
    lemma_key_row(57);
    assert(text::ascii_lower("f12"@) =~= "f12"@);
    if keycode_of(name) is Some {
        let low = text::ascii_lower(name);
        let i = lemma_row_of_code(KEY_NAMES@, low);
        let longer = seq![
            "space"@,
            "tab"@,
            "enter"@,
            "return"@,
            "esc"@,
            "escape"@,
            "pause"@,
            "backspace"@,
            "capslock"@,
            "caps"@,
            "f1"@,
            "f2"@,
            "f3"@,
            "f4"@,
            "f5"@,
            "f6"@,
            "f7"@,
            "f8"@,
            "f9"@,
            "f10"@,
            "f11"@,
            "f12"@,
        ];
        if i < 36 {
            reveal_strlit("abcdefghijklmnopqrstuvwxyz0123456789");
            lemma_letter_rows(i);
            assert(low == seq!["abcdefghijklmnopqrstuvwxyz0123456789"@[i]]);
            assert(low.len() == 1 && low[0] == "abcdefghijklmnopqrstuvwxyz0123456789"@[i]);
            assert(name.len() == low.len());
            text::law_lower_goes_by_characters(name, 0);
        } else {
            assert(longer[i - 36] == KEY_NAMES@[i].0@);
            assert(longer.contains(low));
        }
    }
}

/// What a hotkey says: a modifier is held exactly if one of its names is among the parts, and the
/// one part that names no modifier gives the key.
pub proof fn law_what_a_hotkey_says(parts: Seq<Seq<char>>, h: Hotkey)
    requires
        is_reading(parts, Ok(h)),
    ensures
        h.ctrl <==> parts.contains("ctrl"@) || parts.contains("control"@),
        h.shift <==> parts.contains("shift"@),
        h.alt <==> parts.contains("alt"@),
        h.meta <==> parts.contains("meta"@) || parts.contains("super"@) || parts.contains("win"@)
            || parts.contains("windows"@),
        exists|i: int|
            0 <= i < parts.len() && keycode_of(#[trigger] parts[i]) == Some(h.keycode) && !seq![
                "ctrl"@,
                "control"@,
                "shift"@,
                "alt"@,
                "meta"@,
                "super"@,
                "win"@,
                "windows"@,
            ].contains(parts[i]),
{
    lemma_modifier_names();
    let n = parts.len() as int;
    assert(h.ctrl == has_kind(parts, n, PartKind::Ctrl));
    lemma_named(parts, "ctrl"@, PartKind::Ctrl);
    lemma_named(parts, "control"@, PartKind::Ctrl);
    lemma_named(parts, "shift"@, PartKind::Shift);
    lemma_named(parts, "alt"@, PartKind::Alt);
    lemma_named(parts, "meta"@, PartKind::Meta);
    lemma_named(parts, "super"@, PartKind::Meta);
    lemma_named(parts, "win"@, PartKind::Meta);
    lemma_named(parts, "windows"@, PartKind::Meta);
    if h.ctrl {
        let j = choose|j: int| 0 <= j < n && kind_of(#[trigger] parts[j]) == PartKind::Ctrl;
        assert(parts.contains(parts[j]));
    }
    if h.shift {
        let j = choose|j: int| 0 <= j < n && kind_of(#[trigger] parts[j]) == PartKind::Shift;
        assert(parts.contains(parts[j]));
    }
    if h.alt {
        let j = choose|j: int| 0 <= j < n && kind_of(#[trigger] parts[j]) == PartKind::Alt;
        assert(parts.contains(parts[j]));
    }
    if h.meta {
        let j = choose|j: int| 0 <= j < n && kind_of(#[trigger] parts[j]) == PartKind::Meta;
        assert(parts.contains(parts[j]));
    }
    let i = choose|j: int|
        0 <= j < n && kind_of(#[trigger] parts[j]) == PartKind::Key(h.keycode);
    lemma_modifier_list(parts[i]);
    assert(keycode_of(parts[i]) == Some(h.keycode));
}

proof fn lemma_named(parts: Seq<Seq<char>>, name: Seq<char>, kind: PartKind)
    requires
        kind_of(name) == kind,
    ensures
        parts.contains(name) ==> has_kind(parts, parts.len() as int, kind),
{
    if parts.contains(name) {
        let k = parts.index_of(name);
        assert(kind_of(parts[k]) == kind);
    }
}

/// The names of the modifiers all differ.
proof fn lemma_modifier_names()
    ensures
        kind_of("ctrl"@) == PartKind::Ctrl,
        kind_of("control"@) == PartKind::Ctrl,
        kind_of("shift"@) == PartKind::Shift,
        kind_of("alt"@) == PartKind::Alt,
        kind_of("meta"@) == PartKind::Meta,
        kind_of("super"@) == PartKind::Meta,
        kind_of("win"@) == PartKind::Meta,
        kind_of("windows"@) == PartKind::Meta,
{
    reveal_strlit("ctrl");
    reveal_strlit("control");
    reveal_strlit("shift");
    reveal_strlit("alt");
    reveal_strlit("meta");
    reveal_strlit("super");
    reveal_strlit("win");
    reveal_strlit("windows");
    assert("ctrl"@.len() == 4 && "control"@.len() == 7 && "shift"@.len() == 5 && "alt"@.len() == 3);
    assert("meta"@.len() == 4 && "super"@.len() == 5 && "win"@.len() == 3 && "windows"@.len() == 7);
    assert("ctrl"@[0] == 'c' && "control"@[0] == 'c' && "alt"@[0] == 'a' && "meta"@[0] == 'm');
    assert("windows"@[0] == 'w' && "win"@[0] == 'w' && "shift"@[1] == 'h' && "super"@[1] == 'u');
}

/// A part is a modifier exactly if it is one of the names.
proof fn lemma_modifier_list(part: Seq<char>)
    ensures
        is_modifier(kind_of(part)) <==> seq![
            "ctrl"@,
            "control"@,
            "shift"@,
            "alt"@,
            "meta"@,
            "super"@,
            "win"@,
            "windows"@,
        ].contains(part),
        !is_modifier(kind_of(part)) ==> (kind_of(part) is Key <==> keycode_of(part) is Some),
        !is_modifier(kind_of(part)) ==> (kind_of(part) is Unknown <==> keycode_of(part) is None),
        kind_of(part) is Key ==> !is_modifier(kind_of(part)) && kind_of(part) == PartKind::Key(
            keycode_of(part)->0,
        ),
        kind_of(part) is Unknown ==> !is_modifier(kind_of(part)),
{
    let names = seq![
        "ctrl"@,
        "control"@,
        "shift"@,
        "alt"@,
        "meta"@,
        "super"@,
        "win"@,
        "windows"@,
    ];
    lemma_modifier_names();
    assert(names[0] == "ctrl"@ && names[1] == "control"@ && names[2] == "shift"@);
    assert(names[3] == "alt"@ && names[4] == "meta"@ && names[5] == "super"@);
    assert(names[6] == "win"@ && names[7] == "windows"@);
    if names.contains(part) {
        let k = names.index_of(part);
        assert(names[k] == part);
    }
}

/// When a text is a hotkey: exactly if one part names a key and all others name modifiers.
pub proof fn law_one_key_and_modifiers(parts: Seq<Seq<char>>, r: Result<Hotkey, HotkeyError>)
    requires
        is_reading(parts, r),
    ensures
        ({
            let modifiers = seq![
                "ctrl"@,
                "control"@,
                "shift"@,
                "alt"@,
                "meta"@,
                "super"@,
                "win"@,
                "windows"@,
            ];
            r is Ok <==> exists|i: int|
                {
                    &&& 0 <= i < parts.len()
                    &&& keycode_of(#[trigger] parts[i]) is Some
                    &&& !modifiers.contains(parts[i])
                    &&& forall|j: int|
                        0 <= j < parts.len() && j != i ==> modifiers.contains(#[trigger] parts[j])
                }
        }),
{
    let n = parts.len() as int;
    let modifiers = seq![
        "ctrl"@,
        "control"@,
        "shift"@,
        "alt"@,
        "meta"@,
        "super"@,
        "win"@,
        "windows"@,
    ];
    assert forall|j: int| 0 <= j < n implies is_modifier(kind_of(#[trigger] parts[j]))
        == modifiers.contains(parts[j]) by {
        lemma_modifier_list(parts[j]);
    }
    if r is Ok {
        let h = r->Ok_0;
        let i = choose|j: int|
            0 <= j < n && kind_of(#[trigger] parts[j]) == PartKind::Key(h.keycode);
        lemma_modifier_list(parts[i]);
        assert forall|j: int| 0 <= j < n && j != i implies modifiers.contains(
            #[trigger] parts[j],
        ) by {
            lemma_modifier_list(parts[j]);
            assert(!stops_at(parts, j));
            assert(!stops_at(parts, i));
            if kind_of(parts[j]) is Key {
                if j < i {
                    assert(key_before(parts, i));
                } else {
                    assert(key_before(parts, j));
                }
            }
        }
        assert(keycode_of(parts[i]) is Some && !modifiers.contains(parts[i]));
    }
    if exists|i: int|
        {
            &&& 0 <= i < n
            &&& keycode_of(#[trigger] parts[i]) is Some
            &&& !modifiers.contains(parts[i])
            &&& forall|j: int| 0 <= j < n && j != i ==> modifiers.contains(#[trigger] parts[j])
        } {
        let i = choose|i: int|
            {
                &&& 0 <= i < n
                &&& keycode_of(#[trigger] parts[i]) is Some
                &&& !modifiers.contains(parts[i])
                &&& forall|j: int| 0 <= j < n && j != i ==> modifiers.contains(#[trigger] parts[j])
            };
        lemma_modifier_list(parts[i]);
        assert(kind_of(parts[i]) is Key);
        assert(key_before(parts, n));
        assert forall|j: int| 0 <= j < n && j != i implies is_modifier(
            kind_of(#[trigger] parts[j]),
        ) by {
            assert(modifiers.contains(parts[j]));
        }
        assert forall|j: int| 0 <= j < n implies !#[trigger] stops_at(parts, j) by {
            if j != i {
                assert(is_modifier(kind_of(parts[j])));
            }
        }
        if r is Err {
            let k = stop_of(parts, r);
            if k < n {
                assert(stops_at(parts, k));
            }
        }
    }
}

/// Which error comes: for the first part that names nothing, unless two keys came before it; for
/// the second key; or for want of a key when all parts name modifiers.
pub proof fn law_which_error_comes(parts: Seq<Seq<char>>, e: HotkeyError)
    requires
        is_reading(parts, Err(e)),
    ensures
        ({
            let modifiers = seq![
                "ctrl"@,
                "control"@,
                "shift"@,
                "alt"@,
                "meta"@,
                "super"@,
                "win"@,
                "windows"@,
            ];
            match e {
                HotkeyError::UnknownKey { key } => exists|i: int|
                    {
                        &&& 0 <= i < parts.len()
                        &&& key@ == #[trigger] parts[i]
                        &&& keycode_of(parts[i]) is None && !modifiers.contains(parts[i])
                        &&& forall|j: int|
                            0 <= j < i ==> modifiers.contains(#[trigger] parts[j]) || keycode_of(
                                parts[j],
                            ) is Some
                    },
                HotkeyError::SeveralKeys => exists|i: int, j: int|
                    {
                        &&& 0 <= i < j < parts.len()
                        &&& keycode_of(#[trigger] parts[i]) is Some && !modifiers.contains(parts[i])
                        &&& keycode_of(#[trigger] parts[j]) is Some && !modifiers.contains(parts[j])
                        &&& forall|k: int|
                            0 <= k < j && k != i ==> modifiers.contains(#[trigger] parts[k])
                    },
                HotkeyError::NoMainKey => forall|i: int|
                    0 <= i < parts.len() ==> modifiers.contains(#[trigger] parts[i]),
            }
        }),
{
    let modifiers = seq![
        "ctrl"@,
        "control"@,
        "shift"@,
        "alt"@,
        "meta"@,
        "super"@,
        "win"@,
        "windows"@,
    ];
    let r: Result<Hotkey, HotkeyError> = Err(e);
    let n = parts.len() as int;
    let s = stop_of(parts, r);
    assert forall|j: int| 0 <= j < n implies is_modifier(kind_of(#[trigger] parts[j]))
        == modifiers.contains(parts[j]) && (kind_of(parts[j]) is Key ==> keycode_of(
        parts[j],
    ) is Some) && (kind_of(parts[j]) is Unknown ==> keycode_of(parts[j]) is None) && (kind_of(
        parts[j],
    ) is Unknown || kind_of(parts[j]) is Key ==> !modifiers.contains(parts[j])) by {
        lemma_modifier_list(parts[j]);
    }
    assert forall|j: int| 0 <= j < s implies modifiers.contains(#[trigger] parts[j]) || kind_of(
        parts[j],
    ) is Key by {
        assert(!stops_at(parts, j));
    }
    match e {
        HotkeyError::UnknownKey { key } => {
            assert(key@ == parts[s]);
        },
        HotkeyError::SeveralKeys => {
            let i = choose|i: int| 0 <= i < s && kind_of(#[trigger] parts[i]) is Key;
            assert forall|k: int| 0 <= k < s && k != i implies modifiers.contains(
                #[trigger] parts[k],
            ) by {
                assert(!stops_at(parts, k));
                assert(!stops_at(parts, i));
                if kind_of(parts[k]) is Key {
                    if k < i {
                        assert(key_before(parts, i));
                    } else {
                        assert(key_before(parts, k));
                    }
                }
            }
            assert(keycode_of(parts[i]) is Some && keycode_of(parts[s]) is Some);
        },
        HotkeyError::NoMainKey => {
            assert forall|i: int| 0 <= i < n implies modifiers.contains(#[trigger] parts[i]) by {
                if kind_of(parts[i]) is Key {
                    assert(key_before(parts, n));
                }
            }
        },
    }
}

/// The settings without a word from the user: rewriting is on, between us and ru, and
/// Ctrl+Shift+M switches it.
pub proof fn law_default_settings(c: Config)
    ensures
        is_default(c) <==> {
            &&& c.general.enabled
            &&& c.layouts.pair@.len() == 2 && c.layouts.pair@[0]@ == "us"@ && c.layouts.pair@[1]@
                == "ru"@
            &&& c.hotkeys.toggle@ == "Ctrl+Shift+M"@
        },
{
    let pair = text::texts(c.layouts.pair@);
    text::law_texts_of_a_list(c.layouts.pair@);
    if c.layouts.pair@.len() == 2 && c.layouts.pair@[0]@ == "us"@ && c.layouts.pair@[1]@ == "ru"@ {
        assert(pair =~= seq!["us"@, "ru"@]);
    }
    if pair == seq!["us"@, "ru"@] {
        assert(pair.len() == 2);
        assert(pair[0] == "us"@ && pair[1] == "ru"@);
        assert(c.layouts.pair@[0]@ == pair[0] && c.layouts.pair@[1]@ == pair[1]);
    }
}

} // verus!
