//! The keys that the virtual keyboard sends.
//!
//! A word is rewritten by its keys, not by its characters: after the layout was switched the
//! same keys are sent again, and give the glyphs of the new layout.
//!
//! What the virtual keyboard sends may come back through another virtual keyboard, such as that
//! of keyd. So as many key presses as were sent are expected back and ignored, for a while.

use vstd::prelude::*;

use crate::text;

verus! {

/// The name of the virtual keyboard.
pub const DEVICE_NAME: &'static str = "matea-switcher virtual keyboard";

/// The vendor number of the virtual keyboard: the letters `ma`.
pub const MATEA_VENDOR_ID: u16 = 0x6d61;

/// The product number of the virtual keyboard: the letters `te`.
pub const MATEA_PRODUCT_ID: u16 = 0x7465;

/// The evdev code of the backspace key.
pub const KEY_BACKSPACE: u16 = 14;

/// How long key presses are expected back, in nanoseconds.
pub const ECHO_WINDOW_NS: u64 = 500_000_000;

/// A key event of the virtual keyboard.
#[derive(Debug, Clone, Copy, PartialEq, Eq, Structural)]
pub struct KeyEvent {
    pub code: u16,
    /// 1 for a press, 0 for a release.
    pub value: i32,
}

/// A press and a release of the key.
pub open spec fn tap_events(code: u16) -> Seq<KeyEvent> {
    seq![KeyEvent { code, value: 1 }, KeyEvent { code, value: 0 }]
}

/// The events of several taps, one after the other.
pub open spec fn taps(codes: Seq<u16>) -> Seq<KeyEvent>
    decreases codes.len(),
{
    if codes.len() == 0 {
        Seq::empty()
    } else {
        taps(codes.drop_last()) + tap_events(codes.last())
    }
}

/// The same key, `n` times.
pub open spec fn repeated(code: u16, n: nat) -> Seq<u16> {
    Seq::new(n, |i: int| code)
}

/// The codes of all keys that the virtual keyboard has: 1 to 255.
pub fn supported_keys() -> (codes: Vec<u16>)
    ensures
        codes@ == Seq::new(255, |i: int| (i + 1) as u16),
{
    let mut codes: Vec<u16> = Vec::new();
    let mut code: u16 = 1;
    while code <= 255
        invariant
            1 <= code <= 256,
            codes@ == Seq::new((code - 1) as nat, |i: int| (i + 1) as u16),
        decreases 256 - code,
    {
        codes.push(code);
        code += 1;
    }
    codes
}

/// The key presses that are expected back: since when, and how many.
#[verifier::ext_equal]
pub struct Echo {
    pub since: u64,
    pub count: nat,
}

/// Presses are still expected back at the time `now`.
pub open spec fn is_pending(echo: Option<Echo>, now: u64) -> bool {
    echo matches Some(e) && e.count > 0 && now < e.since + ECHO_WINDOW_NS
}

/// The expectation after `n` more presses were sent. What was not seen in time is given up.
pub open spec fn armed(echo: Option<Echo>, n: nat, now: u64) -> Option<Echo> {
    let count = if is_pending(echo, now) {
        echo->0.count + n
    } else {
        n
    };
    Some(
        Echo {
            since: now,
            count: if count > u64::MAX {
                u64::MAX as nat
            } else {
                count
            },
        },
    )
}

/// The expectation after a press was received.
pub open spec fn consumed(echo: Option<Echo>, now: u64) -> Option<Echo> {
    if is_pending(echo, now) {
        Some(Echo { since: echo->0.since, count: (echo->0.count - 1) as nat })
    } else {
        None
    }
}

/// The keys to send, and the account of those that may come back.
#[derive(Debug)]
pub struct Rewriter {
    pending_echo: Option<(u64, u64)>,
}

impl View for Rewriter {
    /// The presses that are expected back.
    type V = Option<Echo>;

    closed spec fn view(&self) -> Option<Echo> {
        match self.pending_echo {
            Some((since, count)) => Some(Echo { since, count: count as nat }),
            None => None,
        }
    }
}

impl Rewriter {
    /// Nothing has been sent.
    pub fn new() -> (r: Rewriter)
        ensures
            r@ is None,
    {
        Rewriter { pending_echo: None }
    }

    /// The events of one tap.
    pub fn tap(&self, keycode: u16) -> (events: Vec<KeyEvent>)
        ensures
            events@ == tap_events(keycode),
    {
        let mut events: Vec<KeyEvent> = Vec::new();
        events.push(KeyEvent { code: keycode, value: 1 });
        events.push(KeyEvent { code: keycode, value: 0 });
        proof {
            assert(events@ =~= tap_events(keycode));
        }
        events
    }

    /// The events of `n` taps on the backspace key. They are expected back.
    pub fn backspace(&mut self, n: usize, now: u64) -> (events: Vec<KeyEvent>)
        ensures
            events@ == taps(repeated(KEY_BACKSPACE, n as nat)),
            final(self)@ == armed(old(self)@, n as nat, now),
    {
        self.arm_self_echo(n as u64, now);
        let mut events: Vec<KeyEvent> = Vec::new();
        let mut i: usize = 0;
        proof {
            assert(repeated(KEY_BACKSPACE, 0) =~= Seq::empty());
        }
        while i < n
            invariant
                0 <= i <= n,
                events@ == taps(repeated(KEY_BACKSPACE, i as nat)),
            decreases n - i,
        {
            let mut tap = self.tap(KEY_BACKSPACE);
            events.append(&mut tap);
            proof {
                let longer = repeated(KEY_BACKSPACE, (i + 1) as nat);
                assert(longer.drop_last() =~= repeated(KEY_BACKSPACE, i as nat));
            }
            i += 1;
        }
        events
    }

    /// The events of taps on the given keys. They are expected back.
    pub fn replay_keycodes(&mut self, keycodes: &[u16], now: u64) -> (events: Vec<KeyEvent>)
        ensures
            events@ == taps(keycodes@),
            final(self)@ == armed(old(self)@, keycodes@.len(), now),
    {
        self.arm_self_echo(keycodes.len() as u64, now);
        let mut events: Vec<KeyEvent> = Vec::new();
        let mut i: usize = 0;
        proof {
            assert(keycodes@.take(0) =~= Seq::empty());
        }
        while i < keycodes.len()
            invariant
                0 <= i <= keycodes@.len(),
                events@ == taps(keycodes@.take(i as int)),
            decreases keycodes@.len() - i,
        {
            let mut tap = self.tap(keycodes[i]);
            events.append(&mut tap);
            proof {
                let longer = keycodes@.take(i + 1);
                assert(longer.drop_last() =~= keycodes@.take(i as int));
            }
            i += 1;
        }
        proof {
            assert(keycodes@.take(keycodes@.len() as int) =~= keycodes@);
        }
        events
    }

    /// Expects `n` more presses back.
    pub fn arm_self_echo(&mut self, n: u64, now: u64)
        ensures
            final(self)@ == armed(old(self)@, n as nat, now),
    {
        let before: u64 = match self.pending_echo {
            Some((since, count)) => {
                if now < since || now - since < ECHO_WINDOW_NS {
                    count
                } else {
                    0
                }
            },
            None => 0,
        };
        let count: u64 = if n > u64::MAX - before {
            u64::MAX
        } else {
            before + n
        };
        self.pending_echo = Some((now, count));
    }

    /// Whether a press that was received is one that is expected back. It is then counted off.
    pub fn maybe_consume_self_echo(&mut self, now: u64) -> (r: bool)
        ensures
            r == is_pending(old(self)@, now),
            final(self)@ == consumed(old(self)@, now),
    {
        if let Some((since, count)) = self.pending_echo {
            if count > 0 && (now < since || now - since < ECHO_WINDOW_NS) {
                self.pending_echo = Some((since, count - 1));
                return true;
            }
        }
        self.pending_echo = None;
        false
    }
}

/// The expectation after presses were received at the given times.
pub open spec fn consumed_all(echo: Option<Echo>, times: Seq<u64>) -> Option<Echo>
    decreases times.len(),
{
    if times.len() == 0 {
        echo
    } else {
        consumed(consumed_all(echo, times.drop_last()), times.last())
    }
}

/// As many presses as were sent are ignored when they come back in time, and the next one is
/// not.
pub proof fn law_as_many_echoes_are_ignored_as_were_sent(n: nat, now: u64, times: Seq<u64>, k: int)
    requires
        n <= u64::MAX,
        times.len() == n + 1,
        forall|i: int| 0 <= i < times.len() ==> #[trigger] times[i] < now + ECHO_WINDOW_NS,
        0 <= k <= n,
    ensures
        is_pending(consumed_all(armed(None, n, now), times.take(k)), times[k]) <==> k < n,
{
    lemma_counted_off(n, now, times, k);
}

proof fn lemma_counted_off(n: nat, now: u64, times: Seq<u64>, k: int)
    requires
        n <= u64::MAX,
        times.len() == n + 1,
        forall|i: int| 0 <= i < times.len() ==> #[trigger] times[i] < now + ECHO_WINDOW_NS,
        0 <= k <= n,
    ensures
        consumed_all(armed(None, n, now), times.take(k)) == Some(
            Echo { since: now, count: (n - k) as nat },
        ),
    decreases k,
{
    if k > 0 {
        lemma_counted_off(n, now, times, k - 1);
        assert(times.take(k).drop_last() =~= times.take(k - 1));
        assert(times.take(k).last() == times[k - 1]);
    } else {
        assert(times.take(0) =~= Seq::empty());
    }
}

/// Erasing a word and sending its keys again adds up: both are expected back.
pub proof fn law_expected_presses_add_up(n: nat, erased: u64, m: nat, replayed: u64)
    requires
        0 < n,
        n + m <= u64::MAX,
        replayed < erased + ECHO_WINDOW_NS,
    ensures
        armed(armed(None, n, erased), m, replayed) == armed(None, n + m, replayed),
{
}

/// When the time is over, no press is ignored, however many were expected.
pub proof fn law_echoes_are_given_up_in_time(n: nat, sent: u64, now: u64)
    requires
        now >= sent + ECHO_WINDOW_NS,
    ensures
        !is_pending(armed(None, n, sent), now),
{
}

/// The events at the place of tap `i` are a press and a release of the key.
pub open spec fn is_tap(events: Seq<KeyEvent>, i: int, code: u16) -> bool {
    &&& 0 <= 2 * i < events.len() - 1
    &&& events[2 * i] == KeyEvent { code, value: 1 }
    &&& events[2 * i + 1] == KeyEvent { code, value: 0 }
}

/// Each key is pressed and released before the next one, in the order of the keys.
pub proof fn law_keys_are_tapped_in_order(codes: Seq<u16>)
    ensures
        taps(codes).len() == 2 * codes.len(),
        forall|i: int| 0 <= i < codes.len() ==> is_tap(taps(codes), i, #[trigger] codes[i]),
    decreases codes.len(),
{
    if codes.len() > 0 {
        let front = codes.drop_last();
        law_keys_are_tapped_in_order(front);
        assert forall|i: int| 0 <= i < codes.len() implies is_tap(
            taps(codes),
            i,
            #[trigger] codes[i],
        ) by {
            if i < codes.len() - 1 {
                assert(front[i] == codes[i]);
                assert(is_tap(taps(front), i, front[i]));
            }
        }
    }
}

/// Nothing but presses and releases of the given keys is sent: the events of key `i` are the two
/// at its place, whatever the other keys are.
pub proof fn law_each_key_has_its_two_events(codes: Seq<u16>, i: int)
    requires
        0 <= i < codes.len(),
    ensures
        taps(codes).len() == 2 * codes.len(),
        taps(codes)[2 * i].code == codes[i],
        taps(codes)[2 * i].value == 1,
        taps(codes)[2 * i + 1].code == codes[i],
        taps(codes)[2 * i + 1].value == 0,
{
    law_keys_are_tapped_in_order(codes);
    assert(is_tap(taps(codes), i, codes[i]));
}

/// A key that is repeated is sent as often as asked for, and no other key.
pub proof fn law_a_repeated_key(code: u16, n: nat)
    ensures
        repeated(code, n).len() == n,
        forall|i: int| 0 <= i < n ==> #[trigger] repeated(code, n)[i] == code,
        tap_events(code).len() == 2,
        tap_events(code)[0].code == code && tap_events(code)[0].value == 1,
        tap_events(code)[1].code == code && tap_events(code)[1].value == 0,
{
}

/// Presses are expected for half a second after the last ones were sent, as long as not all came
/// back.
pub proof fn law_how_long_presses_are_expected(e: Echo, now: u64)
    ensures
        is_pending(Some(e), now) <==> e.count > 0 && now - e.since < 500_000_000,
        !is_pending(None, now),
{
}

/// What is sent adds to what is still expected, and starts the half second anew. What is not
/// expected any more does not count.
pub proof fn law_sent_presses_are_expected(echo: Option<Echo>, n: nat, now: u64)
    requires
        n <= u64::MAX,
    ensures
        armed(echo, n, now) is Some,
        armed(echo, n, now)->0.since == now,
        is_pending(echo, now) && echo->0.count + n <= u64::MAX ==> armed(echo, n, now)->0.count
            == echo->0.count + n,
        is_pending(echo, now) && echo->0.count + n > u64::MAX ==> armed(echo, n, now)->0.count
            == u64::MAX,
        !is_pending(echo, now) ==> armed(echo, n, now)->0.count == n,
{
}

/// Each press that comes back is counted off, and does not lengthen the half second. After it
/// nothing is expected.
pub proof fn law_presses_are_counted_off(echo: Option<Echo>, now: u64)
    ensures
        is_pending(echo, now) ==> consumed(echo, now) is Some && consumed(echo, now)->0.count + 1
            == echo->0.count && consumed(echo, now)->0.since == echo->0.since,
        !is_pending(echo, now) ==> consumed(echo, now) is None,
{
}

/// The part of a device's name by which the keyboards of this program are known.
pub open spec fn is_own_name(name: Seq<char>) -> bool {
    text::occurs_in("matea"@, name)
}

/// The virtual keyboard has a name by which it is known.
pub proof fn law_own_keyboard_is_known()
    ensures
        is_own_name(DEVICE_NAME@),
{
    reveal_strlit("matea");
    reveal_strlit("matea-switcher virtual keyboard");
    assert(DEVICE_NAME@.subrange(0, 0int + "matea"@.len()) =~= "matea"@);
}

/// A device is one of this program's own exactly if its name holds the text matea.
pub proof fn law_own_devices(before: Seq<char>, after: Seq<char>, name: Seq<char>)
    ensures
        is_own_name(before + "matea"@ + after),
        is_own_name(name) <==> text::occurs_in("matea"@, name),
{
    text::law_parts_stand_inside("matea"@, before + "matea"@ + after);
}

} // verus!
