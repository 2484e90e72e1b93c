//! Where the keyboard focus is, and whether rewriting is allowed there.
//!
//! The accessibility bus tells when a widget gets the focus. From the widget the chain of its
//! parents leads to the application. In password fields, terminals, development tools and
//! password managers nothing is rewritten. When the bus says nothing, rewriting is allowed.

use vstd::prelude::*;

use crate::text;
use crate::unicode;

verus! {

/// Parts of the names of applications in which nothing is rewritten.
pub const BLACKLIST: [&'static str; 22] = [
    "konsole", "yakuake", "alacritty", "kitty", "wezterm", "gnome-terminal", "xterm", "tilix",
    "terminator",
    "code", "codium", "vscodium", "jetbrains", "intellij", "pycharm", "webstorm", "rider", "clion",
    "sublime_text",
    "keepassxc", "bitwarden", "1password",
];

/// One of the parts occurs in the name. An unknown application, with an empty name, passes.
pub open spec fn is_blacklisted(class: Seq<char>) -> bool {
    class.len() > 0 && exists|i: int|
        0 <= i < BLACKLIST@.len() && text::occurs_in(#[trigger] BLACKLIST@[i]@, class)
}

/// Whether nothing is rewritten in the application with that name.
pub fn is_blacklisted_class(class: &str) -> (r: bool)
    ensures
        r == is_blacklisted(class@),
{
    if class.is_empty() {
        return false;
    }
    let list = BLACKLIST.as_slice();
    let mut i: usize = 0;
    while i < list.len()
        invariant
            list@ == BLACKLIST@,
            class@.len() > 0,
            0 <= i <= list@.len(),
            forall|k: int| 0 <= k < i ==> !text::occurs_in(#[trigger] BLACKLIST@[k]@, class@),
        decreases list@.len() - i,
    {
        if text::contains_text(class, list[i]) {
            proof {
                assert(text::occurs_in(BLACKLIST@[i as int]@, class@));
            }
            return true;
        }
        i += 1;
    }
    false
}

/// Where the keyboard focus is.
#[derive(Debug, Clone)]
pub struct FocusContext {
    /// The name of the application in small letters; empty if it is not known.
    pub window_class: String,
    /// Whether the widget takes a password.
    pub is_password: bool,
}

impl Default for FocusContext {
    /// Nothing is known about the focus.
    fn default() -> (c: FocusContext)
        ensures
            c.window_class@ == Seq::<char>::empty(),
            !c.is_password,
    {
        FocusContext { window_class: String::new(), is_password: false }
    }
}

impl FocusContext {
    /// Rewriting is allowed: the widget takes no password, and the application is not on the
    /// blacklist.
    pub open spec fn allows(&self) -> bool {
        !self.is_password && !is_blacklisted(self.window_class@)
    }

    /// Whether a word may be rewritten here.
    pub fn allows_flip(&self) -> (r: bool)
        ensures
            r == self.allows(),
    {
        if self.is_password {
            return false;
        }
        if is_blacklisted_class(self.window_class.as_str()) {
            return false;
        }
        true
    }
}

/// How long after a focus event others are dropped, in nanoseconds. Switching windows gives a
/// burst of them.
pub const FOCUS_PAUSE_NS: u64 = 50_000_000;

/// A change of a state of a widget.
#[derive(Debug, Clone, Copy, PartialEq, Eq, Structural)]
pub struct StateChange {
    /// When it was received, in nanoseconds on a clock that does not go back.
    pub at: u64,
    /// The state is the focus.
    pub focused: bool,
    /// The state was entered, not left.
    pub enabled: bool,
}

/// The event tells that a widget got the focus, and comes late enough after the last one that
/// was handled.
pub open spec fn is_handled(last: Option<u64>, ev: StateChange) -> bool {
    &&& ev.focused
    &&& ev.enabled
    &&& match last {
        Some(t) => ev.at >= t + FOCUS_PAUSE_NS,
        None => true,
    }
}

/// Picks the focus events that are handled.
#[derive(Debug)]
pub struct FocusFilter {
    last: Option<u64>,
}

impl View for FocusFilter {
    /// When the last handled event was received.
    type V = Option<u64>;

    closed spec fn view(&self) -> Option<u64> {
        self.last
    }
}

impl FocusFilter {
    /// No event has been handled.
    pub fn new() -> (f: FocusFilter)
        ensures
            f@ is None,
    {
        FocusFilter { last: None }
    }

    /// Whether to handle the event.
    pub fn accept(&mut self, ev: StateChange) -> (r: bool)
        ensures
            r == is_handled(old(self)@, ev),
            final(self)@ == (if r {
                Some(ev.at)
            } else {
                old(self)@
            }),
    {
        if !ev.focused || !ev.enabled {
            return false;
        }
        if let Some(t) = self.last {
            if ev.at < t || ev.at - t < FOCUS_PAUSE_NS {
                return false;
            }
        }
        self.last = Some(ev.at);
        true
    }
}

/// The last event that is handled out of a series.
pub open spec fn last_handled(events: Seq<StateChange>) -> Option<u64>
    decreases events.len(),
{
    if events.len() == 0 {
        None
    } else {
        let before = last_handled(events.drop_last());
        if is_handled(before, events.last()) {
            Some(events.last().at)
        } else {
            before
        }
    }
}

/// When the events were received that are handled out of a series.
pub open spec fn handled_times(events: Seq<StateChange>) -> Seq<u64>
    decreases events.len(),
{
    if events.len() == 0 {
        Seq::empty()
    } else {
        let before = handled_times(events.drop_last());
        if is_handled(last_handled(events.drop_last()), events.last()) {
            before.push(events.last().at)
        } else {
            before
        }
    }
}

/// The role of a widget, as far as it matters here.
#[derive(Debug, Clone, Copy, PartialEq, Eq, Structural)]
pub enum Role {
    Application,
    PasswordText,
    Other,
}

/// A widget on the way from the focus up to the application.
#[derive(Debug, Clone)]
pub struct Widget {
    pub role: Role,
    /// The name of an application. The names of other widgets are not asked for.
    pub name: String,
}

/// How many widgets are looked at on the way up.
pub const WALK_LIMIT: usize = 16;

/// The first application on the way up, if it is near enough, else none.
pub open spec fn application_in(chain: Seq<Widget>) -> Option<int> {
    if exists|i: int| is_first_application(chain, i) {
        Some(choose|i: int| is_first_application(chain, i))
    } else {
        None
    }
}

/// Widget `i` is an application, is near enough, and no widget before it is one.
pub open spec fn is_first_application(chain: Seq<Widget>, i: int) -> bool {
    &&& 0 <= i < chain.len()
    &&& i < WALK_LIMIT
    &&& chain[i].role is Application
    &&& forall|k: int| 0 <= k < i ==> !((#[trigger] chain[k]).role is Application)
}

/// The name of the application for the blacklist: in small letters, and empty if none was
/// reached.
pub open spec fn window_class_of(chain: Seq<Widget>) -> Seq<char> {
    match application_in(chain) {
        Some(i) => unicode::lowercase_text(chain[i].name@),
        None => Seq::empty(),
    }
}

/// Whether the parent of the last widget has to be asked for: no application was reached, and
/// the way is not too long yet.
pub fn wants_parent(chain: &[Widget]) -> (r: bool)
    ensures
        r == (chain@.len() > 0 && chain@.len() < WALK_LIMIT && application_in(chain@) is None),
{
    if chain.len() == 0 || chain.len() >= WALK_LIMIT {
        return false;
    }
    first_application(chain).is_none()
}

/// Whether the answer leads to a parent: it has a bus name, and the path is not the root.
pub fn is_parent(has_name: bool, path: &str) -> (r: bool)
    ensures
        r == (has_name && path@ != "/"@),
{
    has_name && !text::same_text(path, "/")
}

/// The first application on the way up, if it is near enough.
fn first_application(chain: &[Widget]) -> (r: Option<usize>)
    ensures
        match r {
            Some(i) => application_in(chain@) == Some(i as int),
            None => application_in(chain@) is None,
        },
{
    let mut i: usize = 0;
    while i < chain.len() && i < WALK_LIMIT
        invariant
            0 <= i <= chain@.len(),
            i <= WALK_LIMIT,
            forall|k: int| 0 <= k < i ==> !((#[trigger] chain@[k]).role is Application),
        decreases chain@.len() - i,
    {
        if let Role::Application = chain[i].role {
            proof {
                assert(is_first_application(chain@, i as int));
                let j = choose|j: int| is_first_application(chain@, j);
                if j < i {
                    assert(!(chain@[j].role is Application));
                } else if i < j {
                    assert(!(chain@[i as int].role is Application));
                }
            }
            return Some(i);
        }
        i += 1;
    }
    None
}

/// Where the focus is, from the widget that got it and its parents.
pub fn focus_of(chain: &[Widget]) -> (c: FocusContext)
    ensures
        c.is_password == (chain@.len() > 0 && chain@[0].role is PasswordText),
        c.window_class@ == window_class_of(chain@),
{
    let is_password = if chain.len() == 0 {
        false
    } else {
        match chain[0].role {
            Role::PasswordText => true,
            _ => false,
        }
    };
    let window_class = match first_application(chain) {
        Some(i) => chain[i].name.as_str().to_lowercase(),
        None => String::new(),
    };
    FocusContext { window_class, is_password }
}

/// The focus events that are handled lie apart: each comes at least the pause after the one
/// before it.
pub proof fn law_handled_events_lie_apart(events: Seq<StateChange>)
    ensures
        forall|i: int, j: int|
            0 <= i < j < handled_times(events).len() ==> #[trigger] handled_times(events)[j]
                >= #[trigger] handled_times(events)[i] + FOCUS_PAUSE_NS,
{
    lemma_handled_times(events);
}

proof fn lemma_handled_times(events: Seq<StateChange>)
    ensures
        handled_times(events).len() == 0 ==> last_handled(events) is None,
        handled_times(events).len() > 0 ==> last_handled(events) == Some(
            handled_times(events).last(),
        ),
        forall|i: int, j: int|
            0 <= i < j < handled_times(events).len() ==> #[trigger] handled_times(events)[j]
                >= #[trigger] handled_times(events)[i] + FOCUS_PAUSE_NS,
    decreases events.len(),
{
    if events.len() > 0 {
        lemma_handled_times(events.drop_last());
    }
}

/// The first widget that gets the focus is handled, whatever other changes came before.
pub proof fn law_first_focus_is_handled(events: Seq<StateChange>, ev: StateChange)
    requires
        ev.focused,
        ev.enabled,
        forall|i: int|
            0 <= i < events.len() ==> !((#[trigger] events[i]).focused && events[i].enabled),
    ensures
        is_handled(last_handled(events), ev),
    decreases events.len(),
{
    if events.len() > 0 {
        let before = events.drop_last();
        assert forall|i: int| 0 <= i < before.len() implies !((#[trigger] before[i]).focused
            && before[i].enabled) by {
            assert(before[i] == events[i]);
        }
        law_first_focus_is_handled(before, ev);
        assert(events[events.len() - 1] == events.last());
    }
}

/// In a password field nothing may be rewritten, whatever the application.
pub proof fn law_passwords_are_left_alone(focus: FocusContext)
    requires
        focus.is_password,
    ensures
        !focus.allows(),
{
}

/// A longer name of a blacklisted application is blacklisted too.
pub proof fn law_blacklist_covers_longer_names(
    class: Seq<char>,
    before: Seq<char>,
    after: Seq<char>,
)
    requires
        is_blacklisted(class),
    ensures
        is_blacklisted(before + class + after),
{
    let k = choose|k: int|
        0 <= k < BLACKLIST@.len() && text::occurs_in(#[trigger] BLACKLIST@[k]@, class);
    let part = BLACKLIST@[k]@;
    let whole = before + class + after;
    let i = choose|i: int|
        0 <= i <= class.len() - part.len() && #[trigger] class.subrange(i, i + part.len()) == part;
    let at = before.len() + i;
    assert(whole.subrange(at, at + part.len()) =~= class.subrange(i, i + part.len()));
    assert(text::occurs_in(part, whole));
}

/// The applications in which nothing is rewritten are those whose name holds one of these texts,
/// and no others.
pub proof fn law_the_blacklist(class: Seq<char>)
    ensures
        ({
            let names = seq![
                "konsole"@,
                "yakuake"@,
                "alacritty"@,
                "kitty"@,
                "wezterm"@,
                "gnome-terminal"@,
                "xterm"@,
                "tilix"@,
                "terminator"@,
                "code"@,
                "codium"@,
                "vscodium"@,
                "jetbrains"@,
                "intellij"@,
                "pycharm"@,
                "webstorm"@,
                "rider"@,
                "clion"@,
                "sublime_text"@,
                "keepassxc"@,
                "bitwarden"@,
                "1password"@,
            ];
            is_blacklisted(class) <==> exists|i: int|
                0 <= i < names.len() && text::occurs_in(#[trigger] names[i], class)
        }),
{
    let names = seq![
        "konsole"@,
        "yakuake"@,
        "alacritty"@,
        "kitty"@,
        "wezterm"@,
        "gnome-terminal"@,
        "xterm"@,
        "tilix"@,
        "terminator"@,
        "code"@,
        "codium"@,
        "vscodium"@,
        "jetbrains"@,
        "intellij"@,
        "pycharm"@,
        "webstorm"@,
        "rider"@,
        "clion"@,
        "sublime_text"@,
        "keepassxc"@,
        "bitwarden"@,
        "1password"@,
    ];
    reveal_strlit("konsole");
    reveal_strlit("yakuake");
    reveal_strlit("alacritty");
    reveal_strlit("kitty");
    reveal_strlit("wezterm");
    reveal_strlit("gnome-terminal");
    reveal_strlit("xterm");
    reveal_strlit("tilix");
    reveal_strlit("terminator");
    reveal_strlit("code");
    reveal_strlit("codium");
    reveal_strlit("vscodium");
    reveal_strlit("jetbrains");
    reveal_strlit("intellij");
    reveal_strlit("pycharm");
    reveal_strlit("webstorm");
    reveal_strlit("rider");
    reveal_strlit("clion");
    reveal_strlit("sublime_text");
    reveal_strlit("keepassxc");
    reveal_strlit("bitwarden");
    reveal_strlit("1password");
    assert(names.len() == 22);
    assert forall|i: int| 0 <= i < 22 implies #[trigger] names[i] == BLACKLIST@[i]@ && names[i].len()
        > 0 by {}
    if is_blacklisted(class) {
        let i = choose|i: int|
            0 <= i < BLACKLIST@.len() && text::occurs_in(#[trigger] BLACKLIST@[i]@, class);
        assert(text::occurs_in(names[i], class));
    }
    if exists|i: int| 0 <= i < names.len() && text::occurs_in(#[trigger] names[i], class) {
        let i = choose|i: int| 0 <= i < names.len() && text::occurs_in(#[trigger] names[i], class);
        assert(text::occurs_in(BLACKLIST@[i]@, class));
        assert(class.len() > 0);
    }
}

/// Rewriting is allowed exactly where no password is typed and the application is not on the
/// blacklist; so it is allowed where nothing is known of the focus.
pub proof fn law_where_rewriting_is_allowed(focus: FocusContext)
    ensures
        focus.allows() <==> !focus.is_password && !is_blacklisted(focus.window_class@),
        !is_blacklisted(Seq::empty()),
{
}

/// A focus event is handled exactly if a widget got the focus and none was handled in the fifty
/// milliseconds before.
pub proof fn law_which_focus_events_are_handled(last: u64, ev: StateChange)
    ensures
        is_handled(None, ev) <==> ev.focused && ev.enabled,
        is_handled(Some(last), ev) <==> ev.focused && ev.enabled && ev.at - last >= 50_000_000,
{
}

/// The application is the first one among the first sixteen widgets on the way up: its name in
/// small letters is what counts. Without one there the name is empty.
pub proof fn law_the_first_application_counts(chain: Seq<Widget>, i: int)
    ensures
        0 <= i < chain.len() && i < 16 && chain[i].role == Role::Application && (forall|k: int|
            0 <= k < i ==> (#[trigger] chain[k]).role != Role::Application) ==> application_in(
            chain,
        ) == Some(i) && window_class_of(chain) == unicode::lowercase_text(chain[i].name@),
        (forall|k: int|
            0 <= k < chain.len() && k < 16 ==> (#[trigger] chain[k]).role != Role::Application)
            ==> application_in(chain) is None && window_class_of(chain) == Seq::<char>::empty(),
        application_in(chain) is None ==> forall|k: int|
            0 <= k < chain.len() && k < 16 ==> (#[trigger] chain[k]).role != Role::Application,
        WALK_LIMIT == 16,
{
    if 0 <= i < chain.len() && i < 16 && chain[i].role == Role::Application && (forall|k: int|
        0 <= k < i ==> (#[trigger] chain[k]).role != Role::Application) {
        assert(is_first_application(chain, i));
        let j = choose|j: int| is_first_application(chain, j);
        if j < i {
            assert(chain[j].role != Role::Application);
        } else if i < j {
            assert(!(chain[i].role is Application));
        }
    }
    if forall|k: int|
        0 <= k < chain.len() && k < 16 ==> (#[trigger] chain[k]).role != Role::Application {
        if exists|j: int| is_first_application(chain, j) {
            let j = choose|j: int| is_first_application(chain, j);
            assert(chain[j].role != Role::Application);
        }
    }
    if application_in(chain) is None {
        lemma_no_application(chain, if chain.len() < 16 {
            chain.len() as int
        } else {
            16
        });
    }
}

proof fn lemma_no_application(chain: Seq<Widget>, n: int)
    requires
        application_in(chain) is None,
        0 <= n <= chain.len(),
        n <= 16,
    ensures
        forall|k: int| 0 <= k < n ==> (#[trigger] chain[k]).role != Role::Application,
    decreases n,
{
    if n > 0 {
        lemma_no_application(chain, n - 1);
        if chain[n - 1].role == Role::Application {
            assert(is_first_application(chain, n - 1));
        }
    }
}

} // verus!
