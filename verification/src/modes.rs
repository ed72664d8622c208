//! The mode registry. Adding a new mode is: one `ModeId` variant, one arm
//! in `mode_def` (demod + decoder template), and optionally a parser arm in
//! `parse/` plus a sim profile.

use vstd::prelude::*;

verus! {

#[derive(Clone, Copy, PartialEq, Eq, Hash, Debug, Structural)]
pub enum ModeId {
    // analog listening
    Nfm,
    Wfm,
    Am,
    Usb,
    Lsb,
    // digital voice (dsd-neo)
    Dmr,
    Ysf,
    Dstar,
    Nxdn,
    P25,
    M17,
    // data
    Pocsag,
    Aprs,
    Rtty,
    Adsb,
    Ais,
    // tools
    Scanner,
    Waterfall,
}

/// How the right-hand pane renders while this mode runs.
#[derive(Clone, Copy, PartialEq, Eq, Debug, Structural)]
pub enum ViewKind {
    Voice,
    Pager,
    Aprs,
    Adsb,
    /// AIS ships — same table/radar as ADS-B, marine labels
    Ais,
    TextFeed,
    Audio,
    Scanner,
    Waterfall,
}

/// Internal demodulator applied to the IQ stream.
#[derive(Clone, Copy, PartialEq, Eq, Debug, Structural)]
pub enum Demod {
    Nfm,
    Wfm,
    Am,
    Usb,
    Lsb,
    /// no demod — waterfall/band-scope only
    Raw,
}

/// Plumbing class.
#[derive(Clone, Copy, PartialEq, Eq, Debug, Structural)]
pub enum PipeKind {
    /// deck reads IQ from the SDR, demodulates internally, and (optionally)
    /// pipes audio into a decoder's stdin. The default for everything.
    Iq(Demod),
    /// A fully external pipeline (ADS-B via dump1090, sim line feeds).
    Extern,
}

#[derive(Clone, Copy, PartialEq, Eq, Debug, Structural)]
pub enum Section {
    Analog,
    Voice,
    Data,
    Tools,
}

pub open spec fn spec_section_label(s: Section) -> &'static str {
    match s {
        Section::Analog => "ANALOG",
        Section::Voice => "DIGITAL VOICE",
        Section::Data => "DATA / BEACONS",
        Section::Tools => "TOOLS",
    }
}

impl Section {
    pub fn label(self) -> (s: &'static str)
        ensures
            s == spec_section_label(self),
    {
        match self {
            Section::Analog => "ANALOG",
            Section::Voice => "DIGITAL VOICE",
            Section::Data => "DATA / BEACONS",
            Section::Tools => "TOOLS",
        }
    }
}

#[derive(Clone, Copy, Debug)]
pub struct ModeDef {
    pub id: ModeId,
    /// stable key used in config files ("dmr", "pocsag", ...)
    pub key: &'static str,
    pub label: &'static str,
    pub section: Section,
    pub desc: &'static str,
    /// 2-cell pictogram + ascii fallback (spare metadata for text UIs;
    /// the GUI paints vector icons by `key`)
    pub icon: &'static str,
    pub icon_ascii: &'static str,
    pub view: ViewKind,
    pub pipe: PipeKind,
    /// stdin-audio decoder command (s16le mono at `decoder_rate`)
    pub decoder: Option<&'static str>,
    pub decoder_rate: u32,
    /// monitor demodulated audio on the speaker by default
    pub audio_out: bool,
    pub default_hz: u64,
    pub presets: &'static [(&'static str, u64)],
}

pub const MULTIMON_POCSAG: &'static str = "multimon-ng -t raw -a POCSAG512 -a POCSAG1200 -a POCSAG2400 -";

pub const MULTIMON_AFSK: &'static str = "multimon-ng -t raw -a AFSK1200 -";

pub const RTTY_DECODER: &'static str = "sox -t raw -r 22050 -e signed -b 16 -c 1 - -t wav - | minimodem --rx --quiet rtty --file /dev/stdin";

// dsd-neo reads raw PCM16LE mono on stdin; the rate MUST be given with -s or
// symbol timing is wrong and nothing syncs. deck feeds 48 kHz.
pub const DSD_DMR: &'static str = "dsd-neo -fs -i - -s 48000 -o pulse";

pub const DSD_YSF: &'static str = "dsd-neo -fy -i - -s 48000 -o pulse";

pub const DSD_DSTAR: &'static str = "dsd-neo -fd -i - -s 48000 -o pulse";

pub const DSD_NXDN: &'static str = "dsd-neo -fi -i - -s 48000 -o pulse";

pub const DSD_P25: &'static str = "dsd-neo -f1 -i - -s 48000 -o pulse";

pub const DSD_M17: &'static str = "dsd-neo -fz -i - -s 48000 -o pulse";

/// The registry entry of a mode.
pub open spec fn spec_mode_def(id: ModeId) -> ModeDef {
    match id {
        ModeId::Nfm => ModeDef {
            id: ModeId::Nfm,
            key: "nfm",
            label: "NFM",
            section: Section::Analog,
            desc: "Narrow FM voice — PMR446, ham repeaters, marine",
            icon: "◖◗",
            icon_ascii: "((",
            view: ViewKind::Audio,
            pipe: PipeKind::Iq(Demod::Nfm),
            decoder: None,
            decoder_rate: 0,
            audio_out: true,
            default_hz: 145_500_000,
            presets: &[("2m calling", 145_500_000u64), ("PMR446 ch1", 446_006_250u64), ("70cm calling", 433_500_000u64), ("Marine ch16", 156_800_000u64)],
        },
        ModeId::Wfm => ModeDef {
            id: ModeId::Wfm,
            key: "wfm",
            label: "WFM",
            section: Section::Analog,
            desc: "Wideband FM — broadcast radio",
            icon: "♫ ",
            icon_ascii: "))",
            view: ViewKind::Audio,
            pipe: PipeKind::Iq(Demod::Wfm),
            decoder: None,
            decoder_rate: 0,
            audio_out: true,
            default_hz: 100_000_000,
            presets: &[("98.8", 98_800_000u64), ("100.0", 100_000_000u64)],
        },
        ModeId::Am => ModeDef {
            id: ModeId::Am,
            key: "am",
            label: "AM",
            section: Section::Analog,
            desc: "AM — airband, MW/SW broadcast",
            icon: "∿ ",
            icon_ascii: "~",
            view: ViewKind::Audio,
            pipe: PipeKind::Iq(Demod::Am),
            decoder: None,
            decoder_rate: 0,
            audio_out: true,
            default_hz: 121_500_000,
            presets: &[("Air guard", 121_500_000u64), ("Airband", 118_105_000u64), ("SW 49m", 6_070_000u64)],
        },
        ModeId::Usb => ModeDef {
            id: ModeId::Usb,
            key: "usb",
            label: "USB",
            section: Section::Analog,
            desc: "Upper sideband — HF voice/digi, 20m/10m",
            icon: "⊓∿",
            icon_ascii: "us",
            view: ViewKind::Audio,
            pipe: PipeKind::Iq(Demod::Usb),
            decoder: None,
            decoder_rate: 0,
            audio_out: true,
            default_hz: 14_230_000,
            presets: &[("20m SSB", 14_230_000u64), ("10m SSB", 28_400_000u64)],
        },
        ModeId::Lsb => ModeDef {
            id: ModeId::Lsb,
            key: "lsb",
            label: "LSB",
            section: Section::Analog,
            desc: "Lower sideband — HF voice, 40m/80m",
            icon: "∿⊔",
            icon_ascii: "ls",
            view: ViewKind::Audio,
            pipe: PipeKind::Iq(Demod::Lsb),
            decoder: None,
            decoder_rate: 0,
            audio_out: true,
            default_hz: 7_100_000,
            presets: &[("40m SSB", 7_100_000u64), ("80m SSB", 3_700_000u64)],
        },
        ModeId::Dmr => ModeDef {
            id: ModeId::Dmr,
            key: "dmr",
            label: "DMR",
            section: Section::Voice,
            desc: "DMR digital voice — TG, slot, color code",
            icon: "◉◉",
            icon_ascii: "oo",
            view: ViewKind::Voice,
            pipe: PipeKind::Iq(Demod::Nfm),
            decoder: Some(DSD_DMR),
            decoder_rate: 48000,
            audio_out: false,
            default_hz: 433_450_000,
            presets: &[("UHF simplex", 433_450_000u64), ("Hotspot", 438_800_000u64)],
        },
        ModeId::Ysf => ModeDef {
            id: ModeId::Ysf,
            key: "ysf",
            label: "YSF",
            section: Section::Voice,
            desc: "Yaesu System Fusion C4FM",
            icon: "◈ ",
            icon_ascii: "<>",
            view: ViewKind::Voice,
            pipe: PipeKind::Iq(Demod::Nfm),
            decoder: Some(DSD_YSF),
            decoder_rate: 48000,
            audio_out: false,
            default_hz: 433_450_000,
            presets: &[("UHF simplex", 433_450_000u64), ("Hotspot", 434_000_000u64)],
        },
        ModeId::Dstar => ModeDef {
            id: ModeId::Dstar,
            key: "dstar",
            label: "D-STAR",
            section: Section::Voice,
            desc: "Icom D-STAR digital voice",
            icon: "✦ ",
            icon_ascii: "*",
            view: ViewKind::Voice,
            pipe: PipeKind::Iq(Demod::Nfm),
            decoder: Some(DSD_DSTAR),
            decoder_rate: 48000,
            audio_out: false,
            default_hz: 145_375_000,
            presets: &[("2m", 145_375_000u64), ("70cm", 439_562_500u64)],
        },
        ModeId::Nxdn => ModeDef {
            id: ModeId::Nxdn,
            key: "nxdn",
            label: "NXDN",
            section: Section::Voice,
            desc: "NXDN48 digital voice (RAN, TG)",
            icon: "◧ ",
            icon_ascii: "[]",
            view: ViewKind::Voice,
            pipe: PipeKind::Iq(Demod::Nfm),
            decoder: Some(DSD_NXDN),
            decoder_rate: 48000,
            audio_out: false,
            default_hz: 451_000_000,
            presets: &[("UHF", 451_000_000u64)],
        },
        ModeId::P25 => ModeDef {
            id: ModeId::P25,
            key: "p25",
            label: "P25",
            section: Section::Voice,
            desc: "APCO P25 Phase 1 (NAC, TG)",
            icon: "◬ ",
            icon_ascii: "/\\",
            view: ViewKind::Voice,
            pipe: PipeKind::Iq(Demod::Nfm),
            decoder: Some(DSD_P25),
            decoder_rate: 48000,
            audio_out: false,
            default_hz: 460_100_000,
            presets: &[("UHF", 460_100_000u64), ("800", 851_012_500u64)],
        },
        ModeId::M17 => ModeDef {
            id: ModeId::M17,
            key: "m17",
            label: "M17",
            section: Section::Voice,
            desc: "M17 open digital voice",
            icon: "Ⓜ ",
            icon_ascii: "M",
            view: ViewKind::Voice,
            pipe: PipeKind::Iq(Demod::Nfm),
            decoder: Some(DSD_M17),
            decoder_rate: 48000,
            audio_out: false,
            default_hz: 433_475_000,
            presets: &[("70cm", 433_475_000u64)],
        },
        ModeId::Pocsag => ModeDef {
            id: ModeId::Pocsag,
            key: "pocsag",
            label: "POCSAG",
            section: Section::Data,
            desc: "Pager messages — 512/1200/2400 baud",
            icon: "▤ ",
            icon_ascii: "=",
            view: ViewKind::Pager,
            pipe: PipeKind::Iq(Demod::Nfm),
            decoder: Some(MULTIMON_POCSAG),
            decoder_rate: 22050,
            audio_out: false,
            default_hz: 169_650_000,
            presets: &[("P2000 NL", 169_650_000u64), ("e*Msg DE", 466_075_000u64), ("VHF", 148_562_500u64)],
        },
        ModeId::Aprs => ModeDef {
            id: ModeId::Aprs,
            key: "aprs",
            label: "APRS",
            section: Section::Data,
            desc: "APRS AFSK1200 packets",
            icon: "⌖ ",
            icon_ascii: "@",
            view: ViewKind::Aprs,
            pipe: PipeKind::Iq(Demod::Nfm),
            decoder: Some(MULTIMON_AFSK),
            decoder_rate: 22050,
            audio_out: false,
            default_hz: 144_800_000,
            presets: &[("EU", 144_800_000u64), ("NA", 144_390_000u64), ("ISS", 145_825_000u64)],
        },
        ModeId::Rtty => ModeDef {
            id: ModeId::Rtty,
            key: "rtty",
            label: "RTTY",
            section: Section::Data,
            desc: "Baudot RTTY 45.45Bd (via minimodem)",
            icon: "⌨ ",
            icon_ascii: "ry",
            view: ViewKind::TextFeed,
            pipe: PipeKind::Iq(Demod::Usb),
            decoder: Some(RTTY_DECODER),
            decoder_rate: 22050,
            audio_out: false,
            default_hz: 7_646_000,
            presets: &[("DWD 7.646", 7_646_000u64), ("DWD 10.100k8", 10_100_800u64)],
        },
        ModeId::Adsb => ModeDef {
            id: ModeId::Adsb,
            key: "adsb",
            label: "ADS-B",
            section: Section::Data,
            desc: "1090 MHz aircraft (dump1090/SBS)",
            icon: "✈ ",
            icon_ascii: "^",
            view: ViewKind::Adsb,
            pipe: PipeKind::Extern,
            decoder: None,
            decoder_rate: 0,
            audio_out: false,
            default_hz: 1_090_000_000,
            presets: &[("1090ES", 1_090_000_000u64)],
        },
        ModeId::Ais => ModeDef {
            id: ModeId::Ais,
            key: "ais",
            label: "AIS",
            section: Section::Data,
            desc: "Ship positions — marine VHF (rtl_ais)",
            icon: "⛵",
            icon_ascii: "~^",
            view: ViewKind::Ais,
            pipe: PipeKind::Extern,
            decoder: None,
            decoder_rate: 0,
            audio_out: false,
            default_hz: 161_975_000,
            presets: &[("AIS ch A", 161_975_000u64), ("AIS ch B", 162_025_000u64)],
        },
        ModeId::Scanner => ModeDef {
            id: ModeId::Scanner,
            key: "scanner",
            label: "SCAN",
            section: Section::Tools,
            desc: "NFM channel scanner with lockout",
            icon: "⇄ ",
            icon_ascii: "<->",
            view: ViewKind::Scanner,
            pipe: PipeKind::Iq(Demod::Nfm),
            decoder: None,
            decoder_rate: 0,
            audio_out: true,
            default_hz: 446_006_250,
            presets: &[],
        },
        ModeId::Waterfall => ModeDef {
            id: ModeId::Waterfall,
            key: "waterfall",
            label: "WFALL",
            section: Section::Tools,
            desc: "RF spectrum waterfall (raw IQ)",
            icon: "▓▒",
            icon_ascii: "#:",
            view: ViewKind::Waterfall,
            pipe: PipeKind::Iq(Demod::Raw),
            decoder: None,
            decoder_rate: 0,
            audio_out: false,
            default_hz: 433_920_000,
            presets: &[("ISM 433", 433_920_000u64), ("2m", 145_000_000u64), ("Airband", 124_000_000u64)],
        },
    }
}

/// Registry order: menu order.
pub open spec fn spec_mode_ids() -> Seq<ModeId> {
    seq![ModeId::Nfm, ModeId::Wfm, ModeId::Am, ModeId::Usb, ModeId::Lsb, ModeId::Dmr, ModeId::Ysf, ModeId::Dstar, ModeId::Nxdn, ModeId::P25, ModeId::M17, ModeId::Pocsag, ModeId::Aprs, ModeId::Rtty, ModeId::Adsb, ModeId::Ais, ModeId::Scanner, ModeId::Waterfall]
}

pub open spec fn spec_modes() -> Seq<ModeDef> {
    spec_mode_ids().map_values(|id: ModeId| spec_mode_def(id))
}

pub fn mode_def(id: ModeId) -> (m: ModeDef)
    ensures
        m == spec_mode_def(id),
{
    match id {
        ModeId::Nfm => ModeDef {
            id: ModeId::Nfm,
            key: "nfm",
            label: "NFM",
            section: Section::Analog,
            desc: "Narrow FM voice — PMR446, ham repeaters, marine",
            icon: "◖◗",
            icon_ascii: "((",
            view: ViewKind::Audio,
            pipe: PipeKind::Iq(Demod::Nfm),
            decoder: None,
            decoder_rate: 0,
            audio_out: true,
            default_hz: 145_500_000,
            presets: &[("2m calling", 145_500_000), ("PMR446 ch1", 446_006_250), ("70cm calling", 433_500_000), ("Marine ch16", 156_800_000)],
        },
        ModeId::Wfm => ModeDef {
            id: ModeId::Wfm,
            key: "wfm",
            label: "WFM",
            section: Section::Analog,
            desc: "Wideband FM — broadcast radio",
            icon: "♫ ",
            icon_ascii: "))",
            view: ViewKind::Audio,
            pipe: PipeKind::Iq(Demod::Wfm),
            decoder: None,
            decoder_rate: 0,
            audio_out: true,
            default_hz: 100_000_000,
            presets: &[("98.8", 98_800_000), ("100.0", 100_000_000)],
        },
        ModeId::Am => ModeDef {
            id: ModeId::Am,
            key: "am",
            label: "AM",
            section: Section::Analog,
            desc: "AM — airband, MW/SW broadcast",
            icon: "∿ ",
            icon_ascii: "~",
            view: ViewKind::Audio,
            pipe: PipeKind::Iq(Demod::Am),
            decoder: None,
            decoder_rate: 0,
            audio_out: true,
            default_hz: 121_500_000,
            presets: &[("Air guard", 121_500_000), ("Airband", 118_105_000), ("SW 49m", 6_070_000)],
        },
        ModeId::Usb => ModeDef {
            id: ModeId::Usb,
            key: "usb",
            label: "USB",
            section: Section::Analog,
            desc: "Upper sideband — HF voice/digi, 20m/10m",
            icon: "⊓∿",
            icon_ascii: "us",
            view: ViewKind::Audio,
            pipe: PipeKind::Iq(Demod::Usb),
            decoder: None,
            decoder_rate: 0,
            audio_out: true,
            default_hz: 14_230_000,
            presets: &[("20m SSB", 14_230_000), ("10m SSB", 28_400_000)],
        },
        ModeId::Lsb => ModeDef {
            id: ModeId::Lsb,
            key: "lsb",
            label: "LSB",
            section: Section::Analog,
            desc: "Lower sideband — HF voice, 40m/80m",
            icon: "∿⊔",
            icon_ascii: "ls",
            view: ViewKind::Audio,
            pipe: PipeKind::Iq(Demod::Lsb),
            decoder: None,
            decoder_rate: 0,
            audio_out: true,
            default_hz: 7_100_000,
            presets: &[("40m SSB", 7_100_000), ("80m SSB", 3_700_000)],
        },
        ModeId::Dmr => ModeDef {
            id: ModeId::Dmr,
            key: "dmr",
            label: "DMR",
            section: Section::Voice,
            desc: "DMR digital voice — TG, slot, color code",
            icon: "◉◉",
            icon_ascii: "oo",
            view: ViewKind::Voice,
            pipe: PipeKind::Iq(Demod::Nfm),
            decoder: Some(DSD_DMR),
            decoder_rate: 48000,
            audio_out: false,
            default_hz: 433_450_000,
            presets: &[("UHF simplex", 433_450_000), ("Hotspot", 438_800_000)],
        },
        ModeId::Ysf => ModeDef {
            id: ModeId::Ysf,
            key: "ysf",
            label: "YSF",
            section: Section::Voice,
            desc: "Yaesu System Fusion C4FM",
            icon: "◈ ",
            icon_ascii: "<>",
            view: ViewKind::Voice,
            pipe: PipeKind::Iq(Demod::Nfm),
            decoder: Some(DSD_YSF),
            decoder_rate: 48000,
            audio_out: false,
            default_hz: 433_450_000,
            presets: &[("UHF simplex", 433_450_000), ("Hotspot", 434_000_000)],
        },
        ModeId::Dstar => ModeDef {
            id: ModeId::Dstar,
            key: "dstar",
            label: "D-STAR",
            section: Section::Voice,
            desc: "Icom D-STAR digital voice",
            icon: "✦ ",
            icon_ascii: "*",
            view: ViewKind::Voice,
            pipe: PipeKind::Iq(Demod::Nfm),
            decoder: Some(DSD_DSTAR),
            decoder_rate: 48000,
            audio_out: false,
            default_hz: 145_375_000,
            presets: &[("2m", 145_375_000), ("70cm", 439_562_500)],
        },
        ModeId::Nxdn => ModeDef {
            id: ModeId::Nxdn,
            key: "nxdn",
            label: "NXDN",
            section: Section::Voice,
            desc: "NXDN48 digital voice (RAN, TG)",
            icon: "◧ ",
            icon_ascii: "[]",
            view: ViewKind::Voice,
            pipe: PipeKind::Iq(Demod::Nfm),
            decoder: Some(DSD_NXDN),
            decoder_rate: 48000,
            audio_out: false,
            default_hz: 451_000_000,
            presets: &[("UHF", 451_000_000)],
        },
        ModeId::P25 => ModeDef {
            id: ModeId::P25,
            key: "p25",
            label: "P25",
            section: Section::Voice,
            desc: "APCO P25 Phase 1 (NAC, TG)",
            icon: "◬ ",
            icon_ascii: "/\\",
            view: ViewKind::Voice,
            pipe: PipeKind::Iq(Demod::Nfm),
            decoder: Some(DSD_P25),
            decoder_rate: 48000,
            audio_out: false,
            default_hz: 460_100_000,
            presets: &[("UHF", 460_100_000), ("800", 851_012_500)],
        },
        ModeId::M17 => ModeDef {
            id: ModeId::M17,
            key: "m17",
            label: "M17",
            section: Section::Voice,
            desc: "M17 open digital voice",
            icon: "Ⓜ ",
            icon_ascii: "M",
            view: ViewKind::Voice,
            pipe: PipeKind::Iq(Demod::Nfm),
            decoder: Some(DSD_M17),
            decoder_rate: 48000,
            audio_out: false,
            default_hz: 433_475_000,
            presets: &[("70cm", 433_475_000)],
        },
        ModeId::Pocsag => ModeDef {
            id: ModeId::Pocsag,
            key: "pocsag",
            label: "POCSAG",
            section: Section::Data,
            desc: "Pager messages — 512/1200/2400 baud",
            icon: "▤ ",
            icon_ascii: "=",
            view: ViewKind::Pager,
            pipe: PipeKind::Iq(Demod::Nfm),
            decoder: Some(MULTIMON_POCSAG),
            decoder_rate: 22050,
            audio_out: false,
            default_hz: 169_650_000,
            presets: &[("P2000 NL", 169_650_000), ("e*Msg DE", 466_075_000), ("VHF", 148_562_500)],
        },
        ModeId::Aprs => ModeDef {
            id: ModeId::Aprs,
            key: "aprs",
            label: "APRS",
            section: Section::Data,
            desc: "APRS AFSK1200 packets",
            icon: "⌖ ",
            icon_ascii: "@",
            view: ViewKind::Aprs,
            pipe: PipeKind::Iq(Demod::Nfm),
            decoder: Some(MULTIMON_AFSK),
            decoder_rate: 22050,
            audio_out: false,
            default_hz: 144_800_000,
            presets: &[("EU", 144_800_000), ("NA", 144_390_000), ("ISS", 145_825_000)],
        },
        ModeId::Rtty => ModeDef {
            id: ModeId::Rtty,
            key: "rtty",
            label: "RTTY",
            section: Section::Data,
            desc: "Baudot RTTY 45.45Bd (via minimodem)",
            icon: "⌨ ",
            icon_ascii: "ry",
            view: ViewKind::TextFeed,
            pipe: PipeKind::Iq(Demod::Usb),
            decoder: Some(RTTY_DECODER),
            decoder_rate: 22050,
            audio_out: false,
            default_hz: 7_646_000,
            presets: &[("DWD 7.646", 7_646_000), ("DWD 10.100k8", 10_100_800)],
        },
        ModeId::Adsb => ModeDef {
            id: ModeId::Adsb,
            key: "adsb",
            label: "ADS-B",
            section: Section::Data,
            desc: "1090 MHz aircraft (dump1090/SBS)",
            icon: "✈ ",
            icon_ascii: "^",
            view: ViewKind::Adsb,
            pipe: PipeKind::Extern,
            decoder: None,
            decoder_rate: 0,
            audio_out: false,
            default_hz: 1_090_000_000,
            presets: &[("1090ES", 1_090_000_000)],
        },
        ModeId::Ais => ModeDef {
            id: ModeId::Ais,
            key: "ais",
            label: "AIS",
            section: Section::Data,
            desc: "Ship positions — marine VHF (rtl_ais)",
            icon: "⛵",
            icon_ascii: "~^",
            view: ViewKind::Ais,
            pipe: PipeKind::Extern,
            decoder: None,
            decoder_rate: 0,
            audio_out: false,
            default_hz: 161_975_000,
            presets: &[("AIS ch A", 161_975_000), ("AIS ch B", 162_025_000)],
        },
        ModeId::Scanner => ModeDef {
            id: ModeId::Scanner,
            key: "scanner",
            label: "SCAN",
            section: Section::Tools,
            desc: "NFM channel scanner with lockout",
            icon: "⇄ ",
            icon_ascii: "<->",
            view: ViewKind::Scanner,
            pipe: PipeKind::Iq(Demod::Nfm),
            decoder: None,
            decoder_rate: 0,
            audio_out: true,
            default_hz: 446_006_250,
            presets: &[],
        },
        ModeId::Waterfall => ModeDef {
            id: ModeId::Waterfall,
            key: "waterfall",
            label: "WFALL",
            section: Section::Tools,
            desc: "RF spectrum waterfall (raw IQ)",
            icon: "▓▒",
            icon_ascii: "#:",
            view: ViewKind::Waterfall,
            pipe: PipeKind::Iq(Demod::Raw),
            decoder: None,
            decoder_rate: 0,
            audio_out: false,
            default_hz: 433_920_000,
            presets: &[("ISM 433", 433_920_000), ("2m", 145_000_000), ("Airband", 124_000_000)],
        },
    }
}

/// All registered modes in menu order.
pub fn modes() -> (v: Vec<ModeDef>)
    ensures
        v@ == spec_modes(),
{
    let ids = [ModeId::Nfm, ModeId::Wfm, ModeId::Am, ModeId::Usb, ModeId::Lsb, ModeId::Dmr, ModeId::Ysf, ModeId::Dstar, ModeId::Nxdn, ModeId::P25, ModeId::M17, ModeId::Pocsag, ModeId::Aprs, ModeId::Rtty, ModeId::Adsb, ModeId::Ais, ModeId::Scanner, ModeId::Waterfall];
    let mut v: Vec<ModeDef> = Vec::new();
    let mut i: usize = 0;
    while i < 18
        invariant
            i <= 18,
            ids@ == spec_mode_ids(),
            v@ == spec_modes().take(i as int),
        decreases 18 - i,
    {
        v.push(mode_def(ids[i]));
        assert(spec_modes().take(i + 1) == spec_modes().take(i as int).push(spec_mode_def(ids@[i as int])));
        i += 1;
    }
    assert(spec_modes().take(18) == spec_modes());
    v
}

/// First registered mode whose key is `key`.
pub open spec fn spec_mode_by_key(key: Seq<char>) -> Option<ModeDef> {
    let i = spec_key_index(spec_modes(), key, 0);
    if i < spec_modes().len() {
        Some(spec_modes()[i])
    } else {
        None
    }
}

pub open spec fn spec_key_index(ms: Seq<ModeDef>, key: Seq<char>, i: int) -> int
    decreases ms.len() - i,
{
    if i < 0 || i >= ms.len() {
        ms.len() as int
    } else if ms[i].key@ == key {
        i
    } else {
        spec_key_index(ms, key, i + 1)
    }
}

pub fn mode_by_key(key: &str) -> (r: Option<ModeDef>)
    ensures
        r == spec_mode_by_key(key@),
{
    let all = modes();
    let k = crate::text::chars_of(key);
    let mut i: usize = 0;
    while i < all.len()
        invariant
            i <= all@.len(),
            all@ == spec_modes(),
            k@ == key@,
            spec_key_index(spec_modes(), key@, 0) == spec_key_index(spec_modes(), key@, i as int),
        decreases all.len() - i,
    {
        let mk = crate::text::chars_of(all[i].key);
        if crate::text::seq_eq(&mk, &k) {
            return Some(all[i]);
        }
        i += 1;
    }
    None
}

proof fn lemma_key_index_skip(ms: Seq<ModeDef>, key: Seq<char>, j: int, i: int)
    requires
        0 <= j <= i < ms.len(),
        forall|k: int| j <= k < i ==> ms[k].key@ != key,
        ms[i].key@ == key,
    ensures
        spec_key_index(ms, key, j) == i,
    decreases i - j,
{
    if j < i {
        lemma_key_index_skip(ms, key, j + 1, i);
    }
}

/// Registry consistency: every entry is found again by its id and by its
/// key, keys are unique, and every decoder-backed mode names a decoder rate.
pub proof fn lemma_registry_consistent()
    ensures
        forall|i: int| 0 <= i < spec_modes().len() ==> (#[trigger] spec_modes()[i]).key@.len() > 0,
        forall|i: int| 0 <= i < spec_modes().len() ==> spec_mode_def(#[trigger] spec_modes()[i].id) == spec_modes()[i],
        forall|i: int| 0 <= i < spec_modes().len() ==> spec_mode_by_key(#[trigger] spec_modes()[i].key@) == Some(spec_modes()[i]),
        forall|i: int| 0 <= i < spec_modes().len() ==> (#[trigger] spec_modes()[i]).decoder is Some ==> spec_modes()[i].decoder_rate > 0,
        forall|id: ModeId| spec_mode_def(id).id == id,
{
    reveal_strlit("nfm");
    reveal_strlit("wfm");
    reveal_strlit("am");
    reveal_strlit("usb");
    reveal_strlit("lsb");
    reveal_strlit("dmr");
    reveal_strlit("ysf");
    reveal_strlit("dstar");
    reveal_strlit("nxdn");
    reveal_strlit("p25");
    reveal_strlit("m17");
    reveal_strlit("pocsag");
    reveal_strlit("aprs");
    reveal_strlit("rtty");
    reveal_strlit("adsb");
    reveal_strlit("ais");
    reveal_strlit("scanner");
    reveal_strlit("waterfall");
    assert("nfm"@ =~= seq!['n', 'f', 'm']);
    assert("wfm"@ =~= seq!['w', 'f', 'm']);
    assert("am"@ =~= seq!['a', 'm']);
    assert("usb"@ =~= seq!['u', 's', 'b']);
    assert("lsb"@ =~= seq!['l', 's', 'b']);
    assert("dmr"@ =~= seq!['d', 'm', 'r']);
    assert("ysf"@ =~= seq!['y', 's', 'f']);
    assert("dstar"@ =~= seq!['d', 's', 't', 'a', 'r']);
    assert("nxdn"@ =~= seq!['n', 'x', 'd', 'n']);
    assert("p25"@ =~= seq!['p', '2', '5']);
    assert("m17"@ =~= seq!['m', '1', '7']);
    assert("pocsag"@ =~= seq!['p', 'o', 'c', 's', 'a', 'g']);
    assert("aprs"@ =~= seq!['a', 'p', 'r', 's']);
    assert("rtty"@ =~= seq!['r', 't', 't', 'y']);
    assert("adsb"@ =~= seq!['a', 'd', 's', 'b']);
    assert("ais"@ =~= seq!['a', 'i', 's']);
    assert("scanner"@ =~= seq!['s', 'c', 'a', 'n', 'n', 'e', 'r']);
    assert("waterfall"@ =~= seq!['w', 'a', 't', 'e', 'r', 'f', 'a', 'l', 'l']);
    let ms = spec_modes();
    assert(ms.len() == 18);
    assert forall|i: int| 0 <= i < ms.len() implies spec_mode_by_key(#[trigger] ms[i].key@) == Some(ms[i]) by {
        assert forall|j: int| 0 <= j < i implies ms[j].key@ != ms[i].key@ by {}
        lemma_key_index_skip(ms, ms[i].key@, 0, i);
    }
}

} // verus!
