//! One turn of the click loop: what to click and how long to wait.
use vstd::prelude::*;

use crate::config::Config;
use crate::text::{chars_of, has_tag, is_exactly};

verus! {

/// Start of every identifier that names a keyboard key.
pub const KEY_FAMILY: &'static str = "Key";

/// The click trigger that types the letter `a`.
pub const KEY_A: &'static str = "Key::A";

/// The click trigger that types the letter `b`.
pub const KEY_B: &'static str = "Key::B";

/// The click trigger for the left mouse button.
pub const LEFT_BUTTON: &'static str = "Left";

/// The click trigger for the right mouse button.
pub const RIGHT_BUTTON: &'static str = "Right";

/// The click trigger for the middle mouse button.
pub const MIDDLE_BUTTON: &'static str = "Middle";

/// Nanoseconds in one second.
pub const NANOS_PER_SECOND: u64 = 1_000_000_000;

/// How long the loop waits before it looks at the flag again while not clicking.
pub const IDLE_PAUSE_NANOS: u64 = 10_000_000;

/// What one click of the loop produces.
#[derive(PartialEq, Eq, Structural, Clone, Copy, Debug)]
pub enum ClickTarget {
    /// Type the letter `a`.
    KeyA,
    /// Type the letter `b`.
    KeyB,
    Left,
    Right,
    Middle,
    /// A keyboard key that cannot be clicked: nothing is injected.
    UnknownKey,
    /// A mouse button that cannot be clicked: nothing is injected.
    UnknownButton,
}

/// Whether `c` is an ASCII letter.
pub open spec fn is_letter(c: char) -> bool {
    ('a' <= c && c <= 'z') || ('A' <= c && c <= 'Z')
}

/// Whether `k` names a keyboard key: it starts with `Key`, or it is a single letter.
pub open spec fn names_key(k: Seq<char>) -> bool {
    KEY_FAMILY@.is_prefix_of(k) || (k.len() == 1 && is_letter(k[0]))
}

/// What clicking `k` does: a keyboard key, of which only two are known, or
/// else a mouse button, of which three are known.
pub open spec fn target_of(k: Seq<char>) -> ClickTarget {
    if names_key(k) {
        if k == KEY_A@ {
            ClickTarget::KeyA
        } else if k == KEY_B@ {
            ClickTarget::KeyB
        } else {
            ClickTarget::UnknownKey
        }
    } else if k == LEFT_BUTTON@ {
        ClickTarget::Left
    } else if k == RIGHT_BUTTON@ {
        ClickTarget::Right
    } else if k == MIDDLE_BUTTON@ {
        ClickTarget::Middle
    } else {
        ClickTarget::UnknownButton
    }
}

impl ClickTarget {
    /// Whether this target injects a click at all.
    pub open spec fn spec_injects(self) -> bool {
        self != ClickTarget::UnknownKey && self != ClickTarget::UnknownButton
    }

    /// Whether this target injects a click at all.
    pub fn injects(&self) -> (r: bool)
        ensures
            r == self.spec_injects(),
    {
        match self {
            ClickTarget::UnknownKey | ClickTarget::UnknownButton => false,
            _ => true,
        }
    }
}

/// What clicking the trigger `k` does.
pub fn click_target(k: &str) -> (r: ClickTarget)
    ensures
        r == target_of(k@),
{
    let s = chars_of(k);
    let n = s.len();
    assert(s@.subrange(0, n as int) =~= k@);
    let single_letter = n == 1 && (('a' <= s[0] && s[0] <= 'z') || ('A' <= s[0] && s[0] <= 'Z'));
    if has_tag(&s, 0, n, KEY_FAMILY) || single_letter {
        if is_exactly(&s, 0, n, KEY_A) {
            ClickTarget::KeyA
        } else if is_exactly(&s, 0, n, KEY_B) {
            ClickTarget::KeyB
        } else {
            ClickTarget::UnknownKey
        }
    } else if is_exactly(&s, 0, n, LEFT_BUTTON) {
        ClickTarget::Left
    } else if is_exactly(&s, 0, n, RIGHT_BUTTON) {
        ClickTarget::Right
    } else if is_exactly(&s, 0, n, MIDDLE_BUTTON) {
        ClickTarget::Middle
    } else {
        ClickTarget::UnknownButton
    }
}

/// The pause between two clicks at `cps` clicks per second, in whole nanoseconds.
pub open spec fn interval_of(cps: u32) -> u64 {
    (NANOS_PER_SECOND / (cps as u64)) as u64
}

/// The settled part of the click loop: what it clicks and how often.
pub struct Clicker {
    pub target: ClickTarget,
    pub interval_nanos: u64,
}

/// One turn of the click loop: the click to make, if any, then the pause.
#[derive(PartialEq, Eq, Structural, Clone, Copy, Debug)]
pub struct Tick {
    pub target: Option<ClickTarget>,
    pub pause_nanos: u64,
}

impl Clicker {
    /// The click loop for `config`.
    pub fn new(config: &Config) -> (r: Clicker)
        requires
            config.cps >= 1,
        ensures
            r.target == target_of(config.click_key@),
            r.interval_nanos == interval_of(config.cps),
    {
        Clicker {
            target: click_target(config.click_key.as_str()),
            interval_nanos: NANOS_PER_SECOND / (config.cps as u64),
        }
    }

    /// One turn of the loop: while clicking, one click of the target and then
    /// the interval between clicks; otherwise no click and the idle pause.
    pub fn tick(&self, clicking: bool) -> (r: Tick)
        ensures
            clicking ==> r == (Tick { target: Some(self.target), pause_nanos: self.interval_nanos }),
            !clicking ==> r == (Tick { target: None, pause_nanos: IDLE_PAUSE_NANOS }),
    {
        if clicking {
            Tick { target: Some(self.target), pause_nanos: self.interval_nanos }
        } else {
            Tick { target: None, pause_nanos: IDLE_PAUSE_NANOS }
        }
    }
}

} // verus!
