//! Screen-independent pieces of the user interface: the menu tiles, the
//! control stack of each mode, the preset picker's rows and the
//! screenshot set.

use vstd::prelude::*;
use crate::config::{find_key, lookup, Chan, Config, Memory};
use crate::modes::{mode_def, modes, spec_mode_def, spec_modes, Demod, ModeId, PipeKind, Section, ViewKind};
use crate::text::{chars_of, dec_chars, dec_str, push_all, push_str, seq_eq, string_of};
use crate::freq::{fmt_short, spec_fmt_short};

verus! {

#[derive(Clone, Copy, PartialEq, Eq, Debug, Structural)]
pub enum Screen {
    Menu,
    Mode(ModeId),
    Devices,
    Doctor,
}

/// A menu entry: a mode tile or a tool tile.
#[derive(Clone, Copy, PartialEq, Eq, Debug, Structural)]
pub enum Tile {
    Mode(ModeId),
    Devices,
    Doctor,
    Power,
}

/// Every mode in registry order under its section, then the tools.
pub open spec fn spec_tiles() -> Seq<(Section, Tile)> {
    spec_modes().map_values(|m: crate::modes::ModeDef| (m.section, Tile::Mode(m.id))) + seq![
        (Section::Tools, Tile::Devices),
        (Section::Tools, Tile::Doctor),
        (Section::Tools, Tile::Power),
    ]
}

pub fn tiles() -> (v: Vec<(Section, Tile)>)
    ensures
        v@ == spec_tiles(),
{
    let ms = modes();
    let ghost head = spec_modes().map_values(|m: crate::modes::ModeDef| (m.section, Tile::Mode(m.id)));
    let mut v: Vec<(Section, Tile)> = Vec::new();
    let mut i: usize = 0;
    while i < ms.len()
        invariant
            i <= ms@.len(),
            ms@ == spec_modes(),
            head == spec_modes().map_values(|m: crate::modes::ModeDef| (m.section, Tile::Mode(m.id))),
            v@ == head.take(i as int),
        decreases ms.len() - i,
    {
        v.push((ms[i].section, Tile::Mode(ms[i].id)));
        assert(head.take(i + 1) == head.take(i as int).push(head[i as int]));
        i += 1;
    }
    assert(head.take(ms@.len() as int) == head);
    v.push((Section::Tools, Tile::Devices));
    v.push((Section::Tools, Tile::Doctor));
    v.push((Section::Tools, Tile::Power));
    v
}

#[derive(Clone, Copy, PartialEq, Eq, Debug, Structural)]
pub enum Ctl {
    Rx,
    Preset,
    Gain,
    Sql,
    Nr,
    Nb,
    Notch,
    Hp,
    Lp,
    Det,
    Mon,
    Rec,
    Viz,
    Pause,
    Log,
    /// waterfall hand-off: open the tuned frequency in another mode
    OpenIn,
    /// waterfall display zoom (span)
    Span,
    /// save the tuned frequency as a memory channel
    MemSave,
}

pub open spec fn when(c: bool, s: Seq<Ctl>) -> Seq<Ctl> {
    if c {
        s
    } else {
        seq![]
    }
}

/// The monitor audio chain's controls.
pub open spec fn audio_chain(pipe: PipeKind, decoder: bool) -> Seq<Ctl> {
    seq![Ctl::Sql, Ctl::Nr, Ctl::Nb, Ctl::Notch, Ctl::Hp, Ctl::Lp] + when(
        pipe == PipeKind::Iq(Demod::Am),
        seq![Ctl::Det],
    ) + when(decoder, seq![Ctl::Mon]) + seq![Ctl::Rec, Ctl::Viz]
}

/// The controls of a mode that reads IQ.
pub open spec fn iq_controls(mode: ModeId, pipe: PipeKind, view: ViewKind, decoder: bool) -> Seq<Ctl> {
    seq![Ctl::Gain] + when(view != ViewKind::Waterfall, audio_chain(pipe, decoder)) + when(
        mode == ModeId::Scanner,
        seq![Ctl::Pause],
    ) + when(mode == ModeId::Waterfall, seq![Ctl::Span, Ctl::OpenIn]) + seq![Ctl::MemSave]
}

/// The control stack for a mode with these registry traits: RX and
/// presets; for IQ modes gain, the audio chain (not on the waterfall),
/// scan pause, waterfall span and hand-off, and memory save; a viz switch
/// for the aircraft/ship maps; the log last.
pub open spec fn ctl_stack(mode: ModeId, presets: bool, pipe: PipeKind, view: ViewKind, decoder: bool) -> Seq<Ctl> {
    seq![Ctl::Rx] + when(presets, seq![Ctl::Preset]) + when(pipe is Iq, iq_controls(mode, pipe, view, decoder))
        + when(mode == ModeId::Adsb || mode == ModeId::Ais, seq![Ctl::Viz]) + seq![Ctl::Log]
}

pub open spec fn spec_controls(mode: ModeId) -> Seq<Ctl> {
    let d = spec_mode_def(mode);
    ctl_stack(mode, d.presets@.len() > 0, d.pipe, d.view, d.decoder is Some)
}

fn push_when(v: &mut Vec<Ctl>, c: bool, w: &[Ctl])
    ensures
        final(v)@ == old(v)@ + when(c, w@),
{
    if c {
        let mut i: usize = 0;
        while i < w.len()
            invariant
                i <= w@.len(),
                v@ == old(v)@ + w@.take(i as int),
            decreases w.len() - i,
        {
            v.push(w[i]);
            assert(w@.take(i + 1) == w@.take(i as int).push(w@[i as int]));
            i += 1;
        }
        assert(w@.take(w@.len() as int) == w@);
    } else {
        assert(old(v)@ + Seq::<Ctl>::empty() == old(v)@);
    }
}

fn audio_chain_of(pipe: PipeKind, decoder: bool) -> (v: Vec<Ctl>)
    ensures
        v@ == audio_chain(pipe, decoder),
{
    let mut v: Vec<Ctl> = Vec::new();
    push_when(&mut v, true, &[Ctl::Sql, Ctl::Nr, Ctl::Nb, Ctl::Notch, Ctl::Hp, Ctl::Lp]);
    push_when(&mut v, pipe == PipeKind::Iq(Demod::Am), &[Ctl::Det]);
    push_when(&mut v, decoder, &[Ctl::Mon]);
    push_when(&mut v, true, &[Ctl::Rec, Ctl::Viz]);
    v
}

fn iq_controls_of(mode: ModeId, pipe: PipeKind, view: ViewKind, decoder: bool) -> (v: Vec<Ctl>)
    ensures
        v@ == iq_controls(mode, pipe, view, decoder),
{
    let mut v: Vec<Ctl> = Vec::new();
    v.push(Ctl::Gain);
    if view != ViewKind::Waterfall {
        let a = audio_chain_of(pipe, decoder);
        push_when(&mut v, true, a.as_slice());
    } else {
        assert(v@ + Seq::<Ctl>::empty() == v@);
    }
    push_when(&mut v, mode == ModeId::Scanner, &[Ctl::Pause]);
    push_when(&mut v, mode == ModeId::Waterfall, &[Ctl::Span, Ctl::OpenIn]);
    v.push(Ctl::MemSave);
    v
}

fn ctl_stack_of(mode: ModeId, presets: bool, pipe: PipeKind, view: ViewKind, decoder: bool) -> (v: Vec<Ctl>)
    ensures
        v@ == ctl_stack(mode, presets, pipe, view, decoder),
{
    let mut v: Vec<Ctl> = Vec::new();
    v.push(Ctl::Rx);
    push_when(&mut v, presets, &[Ctl::Preset]);
    let iq = match pipe {
        PipeKind::Iq(_) => true,
        PipeKind::Extern => false,
    };
    if iq {
        let w = iq_controls_of(mode, pipe, view, decoder);
        push_when(&mut v, true, w.as_slice());
    } else {
        assert(v@ + Seq::<Ctl>::empty() == v@);
    }
    push_when(&mut v, mode == ModeId::Adsb || mode == ModeId::Ais, &[Ctl::Viz]);
    v.push(Ctl::Log);
    v
}

pub fn controls_for(mode: ModeId) -> (v: Vec<Ctl>)
    ensures
        v@ == spec_controls(mode),
{
    let d = mode_def(mode);
    ctl_stack_of(mode, d.presets.len() > 0, d.pipe, d.view, d.decoder.is_some())
}

/// Modes a waterfall frequency can be handed off to: all but the
/// waterfall itself, the scanner and ADS-B, in registry order.
pub open spec fn openin_ok(id: ModeId) -> bool {
    id != ModeId::Waterfall && id != ModeId::Scanner && id != ModeId::Adsb
}

pub open spec fn spec_openin(ms: Seq<crate::modes::ModeDef>) -> Seq<ModeId>
    decreases ms.len(),
{
    if ms.len() == 0 {
        seq![]
    } else if openin_ok(ms.last().id) {
        spec_openin(ms.drop_last()).push(ms.last().id)
    } else {
        spec_openin(ms.drop_last())
    }
}

pub fn openin_candidates() -> (v: Vec<ModeId>)
    ensures
        v@ == spec_openin(spec_modes()),
{
    let ms = modes();
    let mut v: Vec<ModeId> = Vec::new();
    let mut i: usize = 0;
    while i < ms.len()
        invariant
            i <= ms@.len(),
            ms@ == spec_modes(),
            v@ == spec_openin(spec_modes().take(i as int)),
        decreases ms.len() - i,
    {
        assert(spec_modes().take(i + 1).drop_last() == spec_modes().take(i as int));
        let id = ms[i].id;
        if id != ModeId::Waterfall && id != ModeId::Scanner && id != ModeId::Adsb {
            v.push(id);
        }
        i += 1;
    }
    assert(spec_modes().take(ms@.len() as int) == spec_modes());
    v
}

/// Views that show a selectable list.
pub open spec fn spec_has_list(view: ViewKind) -> bool {
    match view {
        ViewKind::Pager | ViewKind::Aprs | ViewKind::Adsb | ViewKind::Ais | ViewKind::Scanner
        | ViewKind::Voice | ViewKind::Waterfall => true,
        _ => false,
    }
}

pub fn has_list(view: ViewKind) -> (b: bool)
    ensures
        b == spec_has_list(view),
{
    match view {
        ViewKind::Pager | ViewKind::Aprs | ViewKind::Adsb | ViewKind::Ais | ViewKind::Scanner
        | ViewKind::Voice | ViewKind::Waterfall => true,
        _ => false,
    }
}

pub open spec fn spec_ctl_label(c: Ctl) -> &'static str {
    match c {
        Ctl::Rx => "RX",
        Ctl::Preset => "PRESETS",
        Ctl::Gain => "GAIN",
        Ctl::Sql => "SQUELCH",
        Ctl::Nr => "NOISE REDUCE",
        Ctl::Nb => "NOISE BLANK",
        Ctl::Notch => "AUTO NOTCH",
        Ctl::Hp => "HP FILTER",
        Ctl::Lp => "LP FILTER",
        Ctl::Det => "AM DETECTOR",
        Ctl::Mon => "MONITOR",
        Ctl::Rec => "RECORD",
        Ctl::Viz => "VIZ",
        Ctl::Pause => "SCAN",
        Ctl::Log => "LOG",
        Ctl::OpenIn => "OPEN IN",
        Ctl::Span => "SPAN",
        Ctl::MemSave => "MEMORY",
    }
}

pub fn ctl_label(c: Ctl) -> (s: &'static str)
    ensures
        s == spec_ctl_label(c),
{
    match c {
        Ctl::Rx => "RX",
        Ctl::Preset => "PRESETS",
        Ctl::Gain => "GAIN",
        Ctl::Sql => "SQUELCH",
        Ctl::Nr => "NOISE REDUCE",
        Ctl::Nb => "NOISE BLANK",
        Ctl::Notch => "AUTO NOTCH",
        Ctl::Hp => "HP FILTER",
        Ctl::Lp => "LP FILTER",
        Ctl::Det => "AM DETECTOR",
        Ctl::Mon => "MONITOR",
        Ctl::Rec => "RECORD",
        Ctl::Viz => "VIZ",
        Ctl::Pause => "SCAN",
        Ctl::Log => "LOG",
        Ctl::OpenIn => "OPEN IN",
        Ctl::Span => "SPAN",
        Ctl::MemSave => "MEMORY",
    }
}

pub open spec fn spec_viz_label(v: u8) -> &'static str {
    if v == 0 {
        "spectrum"
    } else if v == 1 {
        "audio fall"
    } else if v == 2 {
        "band scope"
    } else {
        "band fall"
    }
}

pub fn viz_label(v: u8) -> (s: &'static str)
    ensures
        s == spec_viz_label(v),
{
    match v {
        0 => "spectrum",
        1 => "audio fall",
        2 => "band scope",
        _ => "band fall",
    }
}

// ---------------------------------------------------------------- presets

/// A row in the preset picker: built-in/config presets + starred memories.
#[derive(Clone, Debug)]
pub struct PresetItem {
    pub label: String,
    pub hz: u64,
    /// Some(index into the saved memories) when this row is a memory
    pub mem_idx: Option<usize>,
}

/// A mode's presets: the registry's, then the config's extras for its key.
pub fn mode_presets(mode: ModeId, cfg: &Config) -> (v: Vec<Chan>)
    ensures
        v@.len() == spec_mode_def(mode).presets@.len() + match lookup(cfg.presets@, spec_mode_def(mode).key@) {
            Some(x) => x@.len() as int,
            None => 0int,
        },
        forall|i: int|
            0 <= i < spec_mode_def(mode).presets@.len() ==> (#[trigger] v@[i]).label@
                == spec_mode_def(mode).presets@[i].0@ && v@[i].hz == spec_mode_def(mode).presets@[i].1,
        lookup(cfg.presets@, spec_mode_def(mode).key@) matches Some(x) ==> forall|j: int|
            0 <= j < x@.len() ==> #[trigger] v@[spec_mode_def(mode).presets@.len() + j].label@
                == x@[j].label@ && v@[spec_mode_def(mode).presets@.len() + j].hz == x@[j].hz,
{
    let m = mode_def(mode);
    let mut v: Vec<Chan> = Vec::new();
    let mut i: usize = 0;
    while i < m.presets.len()
        invariant
            m == spec_mode_def(mode),
            i <= m.presets@.len(),
            v@.len() == i,
            forall|k: int| 0 <= k < i ==> (#[trigger] v@[k]).label@ == m.presets@[k].0@ && v@[k].hz
                == m.presets@[k].1,
        decreases m.presets.len() - i,
    {
        let (label, hz) = m.presets[i];
        v.push(Chan { label: String::from_str(label), hz });
        i += 1;
    }
    match find_key(&cfg.presets, m.key) {
        Some(k) => {
            let extra = &cfg.presets[k].1;
            let n0 = v.len();
            let mut j: usize = 0;
            while j < extra.len()
                invariant
                    m == spec_mode_def(mode),
                    n0 == m.presets@.len(),
                    j <= extra@.len(),
                    v@.len() == n0 + j,
                    forall|q: int| 0 <= q < n0 ==> (#[trigger] v@[q]).label@ == m.presets@[q].0@ && v@[q].hz
                        == m.presets@[q].1,
                    forall|q: int| 0 <= q < j ==> #[trigger] v@[n0 + q].label@ == extra@[q].label@ && v@[n0 + q].hz
                        == extra@[q].hz,
                decreases extra.len() - j,
            {
                v.push(Chan { label: extra[j].label.clone(), hz: extra[j].hz });
                j += 1;
            }
        },
        None => {},
    }
    v
}

pub open spec fn item_views(v: Seq<PresetItem>) -> Seq<(Seq<char>, u64, Option<usize>)> {
    v.map_values(|p: PresetItem| (p.label@, p.hz, p.mem_idx))
}

/// The starred memory rows of mode key `key`, memories scanned from `i`.
pub open spec fn memory_rows(ms: Seq<Memory>, key: Seq<char>, n: int) -> Seq<(Seq<char>, u64, Option<usize>)>
    decreases n,
{
    if n <= 0 || n > ms.len() {
        seq![]
    } else {
        let i = n - 1;
        let r = memory_rows(ms, key, i);
        if ms[i].mode@ == key {
            r.push(("* "@ + ms[i].label@, ms[i].hz, Some(i as usize)))
        } else {
            r
        }
    }
}

/// The preset picker's rows: the mode's presets, then every memory saved
/// from this mode, starred, with its index.
pub fn preset_items(presets: &Vec<Chan>, memories: &Vec<Memory>, mode: ModeId) -> (v: Vec<PresetItem>)
    ensures
        item_views(v@) == presets@.map_values(|c: Chan| (c.label@, c.hz, None::<usize>)) + memory_rows(
            memories@,
            spec_mode_def(mode).key@,
            memories@.len() as int,
        ),
{
    let ghost head = presets@.map_values(|c: Chan| (c.label@, c.hz, None::<usize>));
    let mut v: Vec<PresetItem> = Vec::new();
    let mut i: usize = 0;
    while i < presets.len()
        invariant
            i <= presets@.len(),
            head == presets@.map_values(|c: Chan| (c.label@, c.hz, None::<usize>)),
            item_views(v@) == head.take(i as int),
        decreases presets.len() - i,
    {
        let ghost before = item_views(v@);
        v.push(PresetItem { label: presets[i].label.clone(), hz: presets[i].hz, mem_idx: None });
        assert(item_views(v@) == before.push(head[i as int]));
        assert(head.take(i + 1) == head.take(i as int).push(head[i as int]));
        i += 1;
    }
    assert(head.take(presets@.len() as int) == head);
    let key = chars_of(mode_def(mode).key);
    let mut j: usize = 0;
    while j < memories.len()
        invariant
            j <= memories@.len(),
            key@ == spec_mode_def(mode).key@,
            item_views(v@) == head + memory_rows(memories@, key@, j as int),
        decreases memories.len() - j,
    {
        let mk = chars_of(memories[j].mode.as_str());
        if seq_eq(&mk, &key) {
            let mut label = chars_of("* ");
            crate::text::push_all(&mut label, &chars_of(memories[j].label.as_str()));
            let ghost before = item_views(v@);
            v.push(PresetItem { label: string_of(&label), hz: memories[j].hz, mem_idx: Some(j) });
            assert(item_views(v@) == before.push(("* "@ + memories@[j as int].label@, memories@[j as int].hz, Some(j))));
        }
        j += 1;
    }
    v
}

// ------------------------------------------------------------ misc types

/// A flat, tappable control row: `label ......... value`.
pub struct ControlRow<'a> {
    pub label: &'a str,
    pub value: String,
    pub active: bool,
    pub focused: bool,
    pub enabled: bool,
}

/// What the frequency tuner did this frame.
#[derive(Clone, Copy, Debug)]
pub struct TunerOut {
    pub changed: bool,
    pub tapped: bool,
}

pub struct ShotSpec {
    pub name: &'static str,
    pub scene: &'static str,
    pub dark: bool,
    pub w: u32,
    pub h: u32,
}

pub open spec fn shot_views(v: Seq<ShotSpec>) -> Seq<(&'static str, &'static str, bool, u32, u32)> {
    v.map_values(|s: ShotSpec| (s.name, s.scene, s.dark, s.w, s.h))
}

/// The documentation screenshot set: eight dark scenes, three light ones
/// and two square handheld ones.
pub open spec fn spec_default_shots() -> Seq<(&'static str, &'static str, bool, u32, u32)> {
    seq![
        ("menu", "menu", true, 880u32, 520u32),
        ("nfm", "nfm", true, 880u32, 520u32),
        ("waterfall", "waterfall", true, 880u32, 520u32),
        ("dmr", "dmr", true, 880u32, 520u32),
        ("pocsag", "pocsag", true, 880u32, 520u32),
        ("aprs", "aprs", true, 880u32, 520u32),
        ("adsb", "adsb", true, 880u32, 520u32),
        ("scanner", "scanner", true, 880u32, 520u32),
        ("menu", "menu", false, 880u32, 520u32),
        ("nfm", "nfm", false, 880u32, 520u32),
        ("pocsag", "pocsag", false, 880u32, 520u32),
        ("menu", "menu", true, 480u32, 480u32),
        ("nfm", "nfm", true, 480u32, 480u32),
    ]
}

fn shot(scene: &'static str, dark: bool, w: u32, h: u32) -> (s: ShotSpec)
    ensures
        (s.name, s.scene, s.dark, s.w, s.h) == (scene, scene, dark, w, h),
{
    ShotSpec { name: scene, scene, dark, w, h }
}

pub fn default_shots() -> (v: Vec<ShotSpec>)
    ensures
        shot_views(v@) == spec_default_shots(),
{
    let mut v: Vec<ShotSpec> = Vec::new();
    v.push(shot("menu", true, 880, 520));
    v.push(shot("nfm", true, 880, 520));
    v.push(shot("waterfall", true, 880, 520));
    v.push(shot("dmr", true, 880, 520));
    v.push(shot("pocsag", true, 880, 520));
    v.push(shot("aprs", true, 880, 520));
    v.push(shot("adsb", true, 880, 520));
    v.push(shot("scanner", true, 880, 520));
    v.push(shot("menu", false, 880, 520));
    v.push(shot("nfm", false, 880, 520));
    v.push(shot("pocsag", false, 880, 520));
    v.push(shot("menu", true, 480, 480));
    v.push(shot("nfm", true, 480, 480));
    assert(shot_views(v@) == spec_default_shots());
    v
}

/// The label a new memory gets: `M`, its number (counting from one), and
/// the frequency.
pub open spec fn memory_label(n: nat, hz: u64) -> Seq<char> {
    "M"@ + dec_str(n) + " "@ + spec_fmt_short(hz)
}

/// Save `hz` as a memory channel of `mode`; gives its label.
pub fn save_memory(memories: &mut Vec<Memory>, mode: ModeId, hz: u64) -> (label: String)
    requires
        old(memories)@.len() < u64::MAX,
    ensures
        label@ == memory_label((old(memories)@.len() + 1) as nat, hz),
        final(memories)@.len() == old(memories)@.len() + 1,
        final(memories)@.take(old(memories)@.len() as int) == old(memories)@,
        ({
            let m = final(memories)@.last();
            m.label@ == label@ && m.hz == hz && m.mode@ == spec_mode_def(mode).key@
        }),
{
    let n = memories.len() as u64 + 1;
    let mut l = dec_chars(n);
    push_str(&mut l, " ");
    let f = fmt_short(hz);
    push_str(&mut l, f.as_str());
    let mut out: Vec<char> = Vec::new();
    push_str(&mut out, "M");
    push_all(&mut out, &l);
    assert(out@ =~= memory_label((old(memories)@.len() + 1) as nat, hz));
    let label = string_of(&out);
    let def = mode_def(mode);
    memories.push(Memory { label: string_of(&out), hz, mode: String::from_str(def.key) });
    assert(memories@.take(old(memories)@.len() as int) =~= old(memories)@);
    label
}

} // verus!
