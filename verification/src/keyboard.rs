//! Keyboard input.

use vstd::prelude::*;

verus! {

/// Keyboard symbol.
#[derive(Copy, Clone, Debug, PartialEq, Eq, Structural)]
pub struct Keysym {
    pub raw: u32,
}

/// Raw value of the `BackSpace` key.
pub const BACK_SPACE: u32 = 0xff08;

/// Raw value of the `Return` key.
pub const RETURN: u32 = 0xff0d;

/// Raw value of the `Left` key.
pub const LEFT: u32 = 0xff51;

/// Raw value of the `Right` key.
pub const RIGHT: u32 = 0xff53;

/// Raw value of the `Delete` key.
pub const DELETE: u32 = 0xffff;

/// Raw value of the `C` key.
pub const UPPER_C: u32 = 0x43;

/// Raw value of the `V` key.
pub const UPPER_V: u32 = 0x56;

/// Raw value of the `XF86_Copy` key.
pub const XF86_COPY: u32 = 0x1008ff57;

/// Raw value of the `XF86_Paste` key.
pub const XF86_PASTE: u32 = 0x1008ff6d;

/// Active keyboard modifiers.
#[derive(Copy, Clone, Debug, PartialEq, Eq, Structural)]
pub struct Modifiers {
    pub ctrl: bool,
    pub alt: bool,
    pub shift: bool,
    pub logo: bool,
}

/// Printable Latin-1 symbol.
pub open spec fn is_latin(raw: u32) -> bool {
    0x20 <= raw <= 0x7e || 0xa0 <= raw <= 0xff
}

/// Character that a raw keyboard symbol stands for.
pub uninterp spec fn keysym_char(raw: u32) -> Option<char>;

/// Translate a keyboard symbol to its character.
///
/// This is `xkeysym::Keysym::key_char`, a fixed table over the raw symbol. The
/// printable Latin-1 symbols stand for the character of the same number; what
/// the table holds for other symbols is left unsaid.
#[verifier::external_body]
pub(crate) fn key_char(keysym: Keysym) -> (c: Option<char>)
    ensures
        c == keysym_char(keysym.raw),
        is_latin(keysym.raw) ==> c == Some(keysym.raw as char),
{
    xkeysym::Keysym::new(keysym.raw).key_char()
}

/// Keyboard symbol of a modifier key.
///
/// These are the keys from `Shift_L` to `Hyper_R` and from `ISO_Lock` to
/// `ISO_Level5_Lock`, as well as `Mode_switch` and `Num_Lock`.
pub open spec fn is_modifier(raw: u32) -> bool {
    ||| 0xffe1 <= raw <= 0xffee
    ||| 0xfe01 <= raw <= 0xfe13
    ||| raw == 0xff7e
    ||| raw == 0xff7f
}

/// Check whether a keyboard symbol is a modifier key.
///
/// This is `xkeysym::Keysym::is_modifier_key`, which accepts the same ranges of
/// raw symbols.
#[verifier::external_body]
fn is_modifier_key(keysym: Keysym) -> (modifier: bool)
    ensures
        modifier == is_modifier(keysym.raw),
{
    xkeysym::Keysym::new(keysym.raw).is_modifier_key()
}

/// Keyboard repeat parameters.
#[derive(Copy, Clone, Debug, PartialEq, Eq, Structural)]
pub enum RepeatInfo {
    /// Keys are repeated with a rate in keys per second, after an initial delay
    /// in milliseconds.
    Repeat { rate: u32, delay: u32 },
    /// Keys are not repeated.
    Disable,
}

/// Active keyboard repeat state.
#[derive(Copy, Clone, Debug, PartialEq, Eq, Structural)]
pub struct CurrentRepeat {
    pub interval: u32,
    pub time: u32,
    pub raw: u32,
}

impl CurrentRepeat {
    pub fn new(raw: u32, time: u32, interval: u32) -> (repeat: Self)
        ensures
            repeat == (CurrentRepeat { interval, time, raw }),
    {
        CurrentRepeat { interval, time, raw }
    }

    /// Get the next key event timestamp.
    pub fn next_time(&mut self) -> (time: u32)
        requires
            old(self).time + old(self).interval <= u32::MAX,
        ensures
            time == old(self).time + old(self).interval,
            *final(self) == (CurrentRepeat { time, ..*old(self) }),
    {
        self.time += self.interval;
        self.time
    }
}

/// Change of the staged key repetition.
#[derive(Copy, Clone, Debug, PartialEq, Eq, Structural)]
pub enum RepeatAction {
    /// Keep the staged key repetition, if there is one.
    Keep,
    /// Cancel the staged key repetition.
    Cancel,
    /// Replace the staged key repetition, with times in milliseconds.
    Stage { delay: u32, interval: u32 },
}

/// Key status tracking.
#[derive(Copy, Clone, Debug, PartialEq, Eq)]
pub struct KeyboardState {
    pub repeat_info: RepeatInfo,
    pub modifiers: Modifiers,
    pub current_repeat: Option<CurrentRepeat>,
}

impl KeyboardState {
    pub fn new() -> (state: Self)
        ensures
            state == (KeyboardState {
                repeat_info: RepeatInfo::Disable,
                modifiers: Modifiers { ctrl: false, alt: false, shift: false, logo: false },
                current_repeat: None,
            }),
    {
        KeyboardState {
            repeat_info: RepeatInfo::Disable,
            modifiers: Modifiers { ctrl: false, alt: false, shift: false, logo: false },
            current_repeat: None,
        }
    }

    /// Handle new key press.
    ///
    /// Modifier keys do not affect the repetition of other keys.
    pub fn press_key(&mut self, time: u32, raw: u32, keysym: Keysym) -> (action: RepeatAction)
        requires
            old(self).repeat_info matches RepeatInfo::Repeat { rate, .. } ==> rate > 0,
        ensures
            is_modifier(keysym.raw) ==> action == RepeatAction::Keep && *final(self) == *old(self),
            !is_modifier(keysym.raw) ==> {
                &&& action == old(self).repeat_request()
                &&& *final(self) == old(self).repeating(time, raw)
            },
    {
        // Update key repeat timers.
        if is_modifier_key(keysym) {
            RepeatAction::Keep
        } else {
            self.request_repeat(time, raw)
        }
    }

    /// Handle new key release.
    pub fn release_key(&mut self, raw: u32) -> (action: RepeatAction)
        ensures
            match old(self).current_repeat {
                Some(repeat) if repeat.raw == raw => {
                    &&& action == RepeatAction::Cancel
                    &&& *final(self) == (KeyboardState { current_repeat: None, ..*old(self) })
                },
                _ => action == RepeatAction::Keep && *final(self) == *old(self),
            },
    {
        // Cancel repetition if released key is being repeated.
        match self.current_repeat {
            Some(repeat) => {
                if repeat.raw == raw {
                    self.current_repeat = None;
                    RepeatAction::Cancel
                } else {
                    RepeatAction::Keep
                }
            },
            None => RepeatAction::Keep,
        }
    }

    /// Change of the key repetition for a pressed key.
    pub open spec fn repeat_request(self) -> RepeatAction {
        match self.repeat_info {
            RepeatInfo::Repeat { rate, delay } => RepeatAction::Stage {
                delay,
                interval: (1000int / rate as int) as u32,
            },
            RepeatInfo::Disable => RepeatAction::Cancel,
        }
    }

    /// State with a repeating key.
    pub open spec fn repeating(self, time: u32, raw: u32) -> Self {
        KeyboardState {
            current_repeat: match self.repeat_info {
                RepeatInfo::Repeat { delay, .. } => Some(
                    CurrentRepeat { interval: delay, time, raw },
                ),
                RepeatInfo::Disable => None,
            },
            ..self
        }
    }

    /// Stage new key repetition.
    pub fn request_repeat(&mut self, time: u32, raw: u32) -> (action: RepeatAction)
        requires
            old(self).repeat_info matches RepeatInfo::Repeat { rate, .. } ==> rate > 0,
        ensures
            action == old(self).repeat_request(),
            *final(self) == old(self).repeating(time, raw),
    {
        // Ensure all previous events are cleared.
        self.cancel_repeat();

        match self.repeat_info {
            RepeatInfo::Repeat { rate, delay } => {
                self.current_repeat = Some(CurrentRepeat::new(raw, time, delay));
                RepeatAction::Stage { delay, interval: 1000 / rate }
            },
            RepeatInfo::Disable => RepeatAction::Cancel,
        }
    }

    /// Cancel currently staged key repetition.
    pub fn cancel_repeat(&mut self)
        ensures
            *final(self) == (KeyboardState { current_repeat: None, ..*old(self) }),
    {
        self.current_repeat = None;
    }
}

/// Clipboard content cache.
#[derive(Debug)]
pub struct ClipboardState {
    pub serial: u32,
    pub text: String,
}

impl ClipboardState {
    pub fn new() -> (clipboard: Self)
        ensures
            clipboard.serial == 0,
            clipboard.text@ == Seq::<char>::empty(),
    {
        let text = String::new();
        proof {
            assert(text@ =~= Seq::<char>::empty());
        }
        ClipboardState { serial: 0, text }
    }

    /// Get the next event serial.
    pub fn next_serial(&mut self) -> (serial: u32)
        requires
            old(self).serial < u32::MAX,
        ensures
            serial == old(self).serial + 1,
            *final(self) == (ClipboardState { serial, ..*old(self) }),
    {
        self.serial += 1;
        self.serial
    }
}

/// Keys repeat as often as requested in a second, after the initial delay, and not
/// at all if repetition is disabled.
pub proof fn law_keys_repeat_at_rate(state: KeyboardState, time: u32, raw: u32)
    requires
        state.repeat_info matches RepeatInfo::Repeat { rate, .. } ==> rate > 0,
    ensures
        match state.repeat_info {
            RepeatInfo::Repeat { rate, delay } => {
                &&& state.repeat_request() matches RepeatAction::Stage { delay: first, interval }
                    && first == delay && interval * rate <= 1000 < (interval + 1) * rate
                &&& state.repeating(time, raw).current_repeat matches Some(repeat) && repeat.raw
                    == raw && repeat.time == time && repeat.interval == delay
            },
            RepeatInfo::Disable => {
                &&& state.repeat_request() is Cancel
                &&& state.repeating(time, raw).current_repeat is None
            },
        },
        state.repeating(time, raw).modifiers == state.modifiers,
        state.repeating(time, raw).repeat_info == state.repeat_info,
{
    if let RepeatInfo::Repeat { rate, delay } = state.repeat_info {
        let interval = 1000int / rate as int;
        vstd::arithmetic::div_mod::lemma_fundamental_div_mod(1000, rate as int);
        vstd::arithmetic::div_mod::lemma_mod_bound(1000, rate as int);
        vstd::arithmetic::div_mod::lemma_div_is_ordered_by_denominator(1000, 1, rate as int);
        vstd::arithmetic::div_mod::lemma_div_pos_is_pos(1000, rate as int);
        assert(interval * rate <= 1000 < (interval + 1) * rate) by (nonlinear_arith)
            requires
                1000 == rate * interval + 1000int % rate as int,
                0 <= 1000int % rate as int,
                1000int % (rate as int) < rate,
        ;
    }
}

} // verus!
