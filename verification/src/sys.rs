//! Handheld/system integration: battery state from the power-supply
//! class, master volume from the mixer tools' output, power actions.

use vstd::prelude::*;
use crate::text::{
    chars_of, contains, contains_str, dec_scaled, find_char, find_char_from, is_digit,
    parse_scaled, parse_uint, parse_uint_str, seq_eq, slice, split_ws, tokens, trim, trim_of, views,
    lemma_find_char_from,
};

verus! {

#[derive(Clone, Copy, Debug, PartialEq, Eq, Structural)]
pub enum BatState {
    Discharging,
    Charging,
    Full,
    Unknown,
}

#[derive(Clone, Copy, Debug, PartialEq, Eq, Structural)]
pub struct Battery {
    pub percent: u8,
    pub state: BatState,
}

/// One power-supply entry, as read: the attribute files that could be read.
#[derive(Clone, Debug)]
pub struct PowerSupply {
    pub kind: Option<String>,
    pub capacity: Option<String>,
    pub status: Option<String>,
}

pub open spec fn is_battery(p: PowerSupply) -> bool {
    p.kind matches Some(t) && trim(t@) == "Battery"@
}

pub open spec fn bat_state(status: Option<String>) -> BatState {
    let s = match status {
        Some(t) => trim(t@),
        None => seq![],
    };
    if s == "Charging"@ {
        BatState::Charging
    } else if s == "Discharging"@ {
        BatState::Discharging
    } else if s == "Full"@ {
        BatState::Full
    } else {
        BatState::Unknown
    }
}

/// The first battery decides: its capacity (a `u8` percentage) and status;
/// none when there is no battery or its capacity cannot be read.
pub open spec fn spec_battery(ps: Seq<PowerSupply>) -> Option<Battery>
    decreases ps.len(),
{
    if ps.len() == 0 {
        None
    } else if is_battery(ps[0]) {
        match ps[0].capacity {
            Some(c) => match parse_uint(trim(c@), 255) {
                Some(v) => Some(Battery { percent: v as u8, state: bat_state(ps[0].status) }),
                None => None,
            },
            None => None,
        }
    } else {
        spec_battery(ps.skip(1))
    }
}

fn trimmed_is(o: &Option<String>, want: &str) -> (b: bool)
    ensures
        b == (o matches Some(t) && trim(t@) == want@),
{
    match o {
        Some(t) => {
            let v = trim_of(&chars_of(t.as_str()));
            seq_eq(&v, &chars_of(want))
        },
        None => false,
    }
}

fn bat_state_of(status: &Option<String>) -> (s: BatState)
    ensures
        s == bat_state(*status),
{
    let t = match status {
        Some(t) => trim_of(&chars_of(t.as_str())),
        None => Vec::new(),
    };
    if seq_eq(&t, &chars_of("Charging")) {
        BatState::Charging
    } else if seq_eq(&t, &chars_of("Discharging")) {
        BatState::Discharging
    } else if seq_eq(&t, &chars_of("Full")) {
        BatState::Full
    } else {
        BatState::Unknown
    }
}

/// The battery among the power-supply entries, in the order they were read.
pub fn battery_from(ps: &Vec<PowerSupply>) -> (r: Option<Battery>)
    ensures
        r == spec_battery(ps@),
{
    let mut i: usize = 0;
    assert(ps@.skip(0) == ps@);
    while i < ps.len()
        invariant
            i <= ps@.len(),
            spec_battery(ps@) == spec_battery(ps@.skip(i as int)),
        decreases ps.len() - i,
    {
        assert(ps@.skip(i as int)[0] == ps@[i as int]);
        if trimmed_is(&ps[i].kind, "Battery") {
            return match &ps[i].capacity {
                Some(c) => match parse_uint_str(&trim_of(&chars_of(c.as_str())), 255) {
                    Some(v) => Some(Battery { percent: v as u8, state: bat_state_of(&ps[i].status) }),
                    None => None,
                },
                None => None,
            };
        }
        assert(ps@.skip(i as int).skip(1) == ps@.skip(i + 1));
        i += 1;
    }
    None
}

// ---------------------------------------------------------------- mixers

/// Index one past the last non-digit before `j` (start of the trailing
/// digit run of `s[..j]`).
pub open spec fn digits_start(s: Seq<char>, j: int) -> int
    decreases j,
{
    if j <= 0 || j > s.len() {
        0
    } else if is_digit(s[j - 1]) {
        digits_start(s, j - 1)
    } else {
        j
    }
}

/// `pactl get-sink-volume`: the digits right before the first `%`.
pub open spec fn spec_pactl_volume(out: Seq<char>) -> Option<u8> {
    let k = find_char_from(out, '%', 0);
    match parse_uint(out.subrange(digits_start(out, k), k), 255) {
        Some(v) => Some(v as u8),
        None => None,
    }
}

pub fn pactl_volume(out: &str) -> (r: Option<u8>)
    ensures
        r == spec_pactl_volume(out@),
{
    let v = chars_of(out);
    let k = find_char(&v, '%', 0);
    proof {
        lemma_find_char_from(v@, '%', 0);
    }
    let mut a: usize = k;
    while a > 0 && crate::text::digit(v[a - 1])
        invariant
            a <= k <= v@.len(),
            digits_start(v@, k as int) == digits_start(v@, a as int),
        decreases a,
    {
        a -= 1;
    }
    match crate::text::parse_uint_at(&v, a, k, 255) {
        Some(x) => Some(x as u8),
        None => None,
    }
}

/// `amixer get Master`: after the first `[`, the number before the next
/// `%` (`Some(None)` when it does not parse); `None` when there is no
/// such bracket.
pub open spec fn spec_amixer_volume(out: Seq<char>) -> Option<Option<u8>> {
    let i = find_char_from(out, '[', 0);
    if i < out.len() {
        let rest = out.skip(i + 1);
        let j = find_char_from(rest, '%', 0);
        if j < rest.len() {
            Some(
                match parse_uint(rest.take(j), 255) {
                    Some(v) => Some(v as u8),
                    None => None,
                },
            )
        } else {
            None
        }
    } else {
        None
    }
}

pub fn amixer_volume(out: &str) -> (r: Option<Option<u8>>)
    ensures
        r == spec_amixer_volume(out@),
{
    let v = chars_of(out);
    let i = find_char(&v, '[', 0);
    proof {
        lemma_find_char_from(v@, '[', 0);
    }
    if i >= v.len() {
        return None;
    }
    let rest = slice(&v, i + 1, v.len());
    assert(rest@ == v@.skip(i + 1));
    let j = find_char(&rest, '%', 0);
    proof {
        lemma_find_char_from(rest@, '%', 0);
    }
    if j >= rest.len() {
        return None;
    }
    let head = slice(&rest, 0, j);
    assert(head@ == rest@.take(j as int));
    Some(
        match parse_uint_str(&head, 255) {
            Some(x) => Some(x as u8),
            None => None,
        },
    )
}

/// `wpctl get-volume` (`Volume: 0.65 [MUTED]`): the second word as a
/// level, in percent rounded half away from zero, kept within 0..=150.
pub open spec fn spec_wpctl_volume(out: Seq<char>) -> Option<u8> {
    let t = tokens(out);
    if t.len() >= 2 {
        match dec_scaled(t[1], 3) {
            Some(m) => Some(
                if m < 0 {
                    0u8
                } else if (m + 5) / 10 > 150 {
                    150u8
                } else {
                    ((m + 5) / 10) as u8
                },
            ),
            None => None,
        }
    } else {
        None
    }
}

pub fn wpctl_volume(out: &str) -> (r: Option<u8>)
    ensures
        r == spec_wpctl_volume(out@),
{
    let v = chars_of(out);
    let t = split_ws(&v);
    assert(views(t@) == tokens(out@));
    if t.len() < 2 {
        return None;
    }
    assert(views(t@)[1] == t@[1]@);
    match parse_scaled(&t[1], 3) {
        Some(m) => Some(
            if m < 0 {
                0
            } else if m >= 1500 - 5 + 10 {
                150
            } else {
                ((m + 5) / 10) as u8
            },
        ),
        None => None,
    }
}

/// Mute flags in the mixer tools' output.
pub fn amixer_muted(out: &str) -> (b: bool)
    ensures
        b == contains(out@, "[off]"@),
{
    contains_str(&chars_of(out), "[off]")
}

pub fn pactl_muted(out: &str) -> (b: bool)
    ensures
        b == contains(out@, "yes"@),
{
    contains_str(&chars_of(out), "yes")
}

pub fn wpctl_muted(out: &str) -> (b: bool)
    ensures
        b == contains(out@, "MUTED"@),
{
    contains_str(&chars_of(out), "MUTED")
}

// ----------------------------------------------------------------- power

#[derive(Clone, Copy, PartialEq, Eq, Debug, Structural)]
pub enum PowerAction {
    PowerOff,
    Reboot,
    Suspend,
}

pub open spec fn spec_verb(a: PowerAction) -> &'static str {
    match a {
        PowerAction::PowerOff => "poweroff",
        PowerAction::Reboot => "reboot",
        PowerAction::Suspend => "suspend",
    }
}

impl PowerAction {
    /// The systemd-logind verb (`systemctl <verb>`).
    pub fn verb(self) -> (s: &'static str)
        ensures
            s == spec_verb(self),
    {
        match self {
            PowerAction::PowerOff => "poweroff",
            PowerAction::Reboot => "reboot",
            PowerAction::Suspend => "suspend",
        }
    }
}

// ----------------------------------------------------------------- mixer

/// The mixer tools, in the order they are looked for.
#[derive(Clone, Copy, PartialEq, Eq, Debug, Structural)]
pub enum MixerKind {
    Wpctl,
    Pactl,
    Amixer,
}

pub open spec fn spec_mixer_bin(k: MixerKind) -> &'static str {
    match k {
        MixerKind::Wpctl => "wpctl",
        MixerKind::Pactl => "pactl",
        MixerKind::Amixer => "amixer",
    }
}

pub open spec fn spec_step_args(k: MixerKind, up: bool) -> Seq<&'static str> {
    match k {
        MixerKind::Wpctl => seq!["set-volume", "-l", "1.2", "@DEFAULT_AUDIO_SINK@", if up { "5%+" } else { "5%-" }],
        MixerKind::Pactl => seq!["set-sink-volume", "@DEFAULT_SINK@", if up { "+5%" } else { "-5%" }],
        MixerKind::Amixer => seq!["-q", "set", "Master", if up { "5%+" } else { "5%-" }],
    }
}

pub open spec fn spec_mute_args(k: MixerKind) -> Seq<&'static str> {
    match k {
        MixerKind::Wpctl => seq!["set-mute", "@DEFAULT_AUDIO_SINK@", "toggle"],
        MixerKind::Pactl => seq!["set-sink-mute", "@DEFAULT_SINK@", "toggle"],
        MixerKind::Amixer => seq!["-q", "set", "Master", "toggle"],
    }
}

/// The preference order: PipeWire's, then PulseAudio's, then ALSA's.
pub fn mixer_order() -> (r: Vec<MixerKind>)
    ensures
        r@ == seq![MixerKind::Wpctl, MixerKind::Pactl, MixerKind::Amixer],
{
    let r = vec![MixerKind::Wpctl, MixerKind::Pactl, MixerKind::Amixer];
    assert(r@ =~= seq![MixerKind::Wpctl, MixerKind::Pactl, MixerKind::Amixer]);
    r
}

impl MixerKind {
    /// The tool's program name.
    pub fn bin(self) -> (s: &'static str)
        ensures
            s == spec_mixer_bin(self),
    {
        match self {
            MixerKind::Wpctl => "wpctl",
            MixerKind::Pactl => "pactl",
            MixerKind::Amixer => "amixer",
        }
    }

    /// Arguments that move the master volume five percent up or down
    /// (PipeWire's capped at 120 %).
    pub fn step_args(self, up: bool) -> (r: Vec<&'static str>)
        ensures
            r@ == spec_step_args(self, up),
    {
        let r = match self {
            MixerKind::Wpctl => vec!["set-volume", "-l", "1.2", "@DEFAULT_AUDIO_SINK@", if up { "5%+" } else { "5%-" }],
            MixerKind::Pactl => vec!["set-sink-volume", "@DEFAULT_SINK@", if up { "+5%" } else { "-5%" }],
            MixerKind::Amixer => vec!["-q", "set", "Master", if up { "5%+" } else { "5%-" }],
        };
        assert(r@ =~= spec_step_args(self, up));
        r
    }

    /// Arguments that toggle the master mute.
    pub fn mute_args(self) -> (r: Vec<&'static str>)
        ensures
            r@ == spec_mute_args(self),
    {
        let r = match self {
            MixerKind::Wpctl => vec!["set-mute", "@DEFAULT_AUDIO_SINK@", "toggle"],
            MixerKind::Pactl => vec!["set-sink-mute", "@DEFAULT_SINK@", "toggle"],
            MixerKind::Amixer => vec!["-q", "set", "Master", "toggle"],
        };
        assert(r@ =~= spec_mute_args(self));
        r
    }
}

} // verus!
