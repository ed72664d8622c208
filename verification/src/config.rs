//! Configuration model: built-in defaults that a config file only
//! overrides, and the annotated default file written by `config --write`.
//!
//! Fractional settings are kept in fixed point: gains and offsets in
//! tenths of a dB, coordinates in millionths of a degree. Maps keyed by
//! name are lists of `(key, value)` pairs in which the first entry with a
//! key is the one that counts.

use vstd::prelude::*;
use crate::text::{chars_of, dec_chars, dec_str, push_all, seq_eq, string_of};

verus! {

// ------------------------------------------------------------ keyed lists

/// The value of the first entry keyed `k`.
pub open spec fn lookup<V>(m: Seq<(String, V)>, k: Seq<char>) -> Option<V>
    decreases m.len(),
{
    if m.len() == 0 {
        None
    } else if m[0].0@ == k {
        Some(m[0].1)
    } else {
        lookup(m.skip(1), k)
    }
}

/// Index of the first entry keyed `k`.
pub fn find_key<V>(m: &Vec<(String, V)>, k: &str) -> (r: Option<usize>)
    ensures
        r is None <==> lookup(m@, k@) is None,
        r matches Some(i) ==> i < m@.len() && lookup(m@, k@) == Some(m@[i as int].1),
{
    let kv = chars_of(k);
    let mut i: usize = 0;
    assert(m@.skip(0) == m@);
    while i < m.len()
        invariant
            i <= m@.len(),
            kv@ == k@,
            lookup(m@.skip(i as int), k@) == lookup(m@, k@),
        decreases m.len() - i,
    {
        let key = chars_of(m[i].0.as_str());
        assert(m@.skip(i as int)[0] == m@[i as int]);
        if seq_eq(&key, &kv) {
            return Some(i);
        }
        assert(m@.skip(i as int).skip(1) == m@.skip(i + 1));
        i += 1;
    }
    None
}

// ----------------------------------------------------------------- tables

#[derive(Clone, Debug)]
pub struct SdrCfg {
    pub ppm: i32,
    /// default tuner gain, tenths of a dB
    pub gain_tenths: i32,
    /// display calibration offset added to band level readouts, tenths of a dB
    pub cal_tenths: i32,
}

impl Default for SdrCfg {
    fn default() -> (r: Self)
        ensures
            r.ppm == 0,
            r.gain_tenths == 328,
            r.cal_tenths == 0,
    {
        SdrCfg { ppm: 0, gain_tenths: 328, cal_tenths: 0 }
    }
}

#[derive(Clone, Debug)]
pub struct UiCfg {
    /// "dark" | "light"
    pub theme: String,
    /// "unicode" | "ascii"
    pub icons: String,
    pub splash: bool,
    /// enable mouse/touch input
    pub mouse: bool,
}

impl Default for UiCfg {
    fn default() -> (r: Self)
        ensures
            r.theme@ == "dark"@,
            r.icons@ == "unicode"@,
            r.splash,
            r.mouse,
    {
        UiCfg {
            theme: String::from_str("dark"),
            icons: String::from_str("unicode"),
            splash: true,
            mouse: true,
        }
    }
}

#[derive(Clone, Debug)]
pub struct AudioCfg {
    /// "auto" or a sink command template
    pub sink: String,
    /// recordings directory ("" = the music dir's `deck` folder)
    pub record_dir: String,
}

impl Default for AudioCfg {
    fn default() -> (r: Self)
        ensures
            r.sink@ == "auto"@,
            r.record_dir@ == Seq::<char>::empty(),
    {
        AudioCfg { sink: String::from_str("auto"), record_dir: String::new() }
    }
}

#[derive(Clone, Debug)]
pub struct AdsbCfg {
    pub sbs_host: String,
    pub sbs_port: u16,
    /// home position for the radar map, millionths of a degree (0,0 = auto)
    pub lat_micro: i64,
    pub lon_micro: i64,
}

impl Default for AdsbCfg {
    fn default() -> (r: Self)
        ensures
            r.sbs_host@ == "127.0.0.1"@,
            r.sbs_port == 30003,
            r.lat_micro == 0,
            r.lon_micro == 0,
    {
        AdsbCfg {
            sbs_host: String::from_str("127.0.0.1"),
            sbs_port: 30003,
            lat_micro: 0,
            lon_micro: 0,
        }
    }
}

#[derive(Clone, Debug)]
pub struct Chan {
    pub label: String,
    pub hz: u64,
}

#[derive(Clone, Debug)]
pub struct SweepCfg {
    /// search-between-limits range for the waterfall sweep
    pub from: u64,
    pub to: u64,
    pub dwell_ms: u64,
}

impl Default for SweepCfg {
    fn default() -> (r: Self)
        ensures
            r.from == 430_000_000,
            r.to == 440_000_000,
            r.dwell_ms == 1200,
    {
        SweepCfg { from: 430_000_000, to: 440_000_000, dwell_ms: 1200 }
    }
}

#[derive(Clone, Debug)]
pub struct ScanCfg {
    /// ms to listen on a silent channel before hopping
    pub dwell_ms: u64,
    /// ms to keep holding after the signal disappears
    pub hold_ms: u64,
    pub channels: Vec<Chan>,
}

/// The built-in scan list: the eight PMR446 channels, then the 2 m and
/// 70 cm calling frequencies.
pub open spec fn default_channel(i: int) -> (Seq<char>, u64) {
    if 0 <= i < 8 {
        ("PMR446 ch"@ + dec_str((i + 1) as nat), (446_006_250 + i * 12_500) as u64)
    } else if i == 8 {
        ("2m calling"@, 145_500_000u64)
    } else {
        ("70cm calling"@, 433_500_000u64)
    }
}

fn chan(label: Vec<char>, hz: u64) -> (c: Chan)
    ensures
        c.label@ == label@,
        c.hz == hz,
{
    Chan { label: string_of(&label), hz }
}

impl Default for ScanCfg {
    fn default() -> (r: Self)
        ensures
            r.dwell_ms == 450,
            r.hold_ms == 2500,
            r.channels@.len() == 10,
            forall|i: int|
                0 <= i < 10 ==> (#[trigger] r.channels@[i]).label@ == default_channel(i).0
                    && r.channels@[i].hz == default_channel(i).1,
    {
        let mut channels: Vec<Chan> = Vec::new();
        let mut i: u64 = 0;
        while i < 8
            invariant
                i <= 8,
                channels@.len() == i,
                forall|j: int|
                    0 <= j < i ==> (#[trigger] channels@[j]).label@ == default_channel(j).0
                        && channels@[j].hz == default_channel(j).1,
            decreases 8 - i,
        {
            let mut label = chars_of("PMR446 ch");
            let n = dec_chars(i + 1);
            push_all(&mut label, &n);
            channels.push(chan(label, 446_006_250 + i * 12_500));
            i += 1;
        }
        channels.push(chan(chars_of("2m calling"), 145_500_000));
        channels.push(chan(chars_of("70cm calling"), 433_500_000));
        ScanCfg { dwell_ms: 450, hold_ms: 2500, channels }
    }
}

/// A saved memory channel.
#[derive(Clone, Debug)]
pub struct Memory {
    pub label: String,
    pub hz: u64,
    /// mode key it was saved from
    pub mode: String,
}

#[derive(Clone, Debug)]
pub struct Config {
    pub sdr: SdrCfg,
    pub ui: UiCfg,
    pub audio: AudioCfg,
    pub adsb: AdsbCfg,
    pub scanner: ScanCfg,
    pub sweep: SweepCfg,
    /// extra frequency presets per mode key, appended to built-ins
    pub presets: Vec<(String, Vec<Chan>)>,
    /// decoder command overrides per mode key (stdin s16le audio decoders)
    pub decoders: Vec<(String, String)>,
    /// pipeline overrides per device key: `iq_source` and per-mode templates
    pub pipelines: Vec<(String, Vec<(String, String)>)>,
}

impl Default for Config {
    fn default() -> (r: Self)
        ensures
            r.sdr.ppm == 0,
            r.sdr.gain_tenths == 328,
            r.ui.theme@ == "dark"@,
            r.ui.splash,
            r.audio.sink@ == "auto"@,
            r.adsb.sbs_port == 30003,
            r.scanner.channels@.len() == 10,
            r.presets@.len() == 0,
            r.decoders@.len() == 0,
            r.pipelines@.len() == 0,
    {
        Config {
            sdr: SdrCfg::default(),
            ui: UiCfg::default(),
            audio: AudioCfg::default(),
            adsb: AdsbCfg::default(),
            scanner: ScanCfg::default(),
            sweep: SweepCfg::default(),
            presets: Vec::new(),
            decoders: Vec::new(),
            pipelines: Vec::new(),
        }
    }
}

/// The annotated default config file.
pub const DEFAULT_CONFIG_TOML: &'static str = r##"# deck — configuration
# Everything here is optional; delete anything to fall back to defaults.

[sdr]
ppm = 0        # frequency correction, applied where the tool supports it
gain = 32.8    # default tuner gain in dB (adjust live with +/-)

[ui]
theme = "dark"    # "dark" (hacker phosphor) | "light"
icons = "unicode" # "unicode" | "ascii" (for spartan fonts)
splash = true
mouse = true      # tap/scroll support (touchscreen decks)

[audio]
# "auto" picks the first of: aplay, paplay. Override with a template:
# sink = "aplay -q -t raw -f S16_LE -r {rate} -c 1 -"
# sink = "paplay --raw --rate={rate} --format=s16le --channels=1"
# sink = "pw-cat -p --rate {rate} --channels 1 --format s16 -"
sink = "auto"

[adsb]
sbs_host = "127.0.0.1"
sbs_port = 30003
# deck reads BaseStation (SBS) from this TCP port, so ANY 1090 decoder works:
# dump1090, readsb — or rtl1090 under wine (it serves the same feed on 30003).

[scanner]
dwell_ms = 450   # listen time per silent channel
hold_ms = 2500   # linger after a signal drops
# [[scanner.channels]]
# label = "PMR446 ch1"
# hz = 446006250

# Extra presets per mode (appended to built-ins):
# [[presets.nfm]]
# label = "Local repeater"
# hz = 438725000

# ── Advanced plumbing ────────────────────────────────────────────────
# deck reads raw IQ from the SDR, demodulates internally, and pipes audio
# into decoders' stdin. Template placeholders:
#   {device} {freq_hz} {freq_mhz} {freq_khz} {center_hz} {center_mhz}
#   {gain} {gain_int} {ppm} {rate} {sbs_port} {profile}
#   {deck} = path to this binary
#
# Decoder overrides (they receive s16le mono audio on stdin):
# [decoders]
# pocsag = "multimon-ng -t raw -a POCSAG1200 -"
# dmr    = "dsd-neo -fs -i - -o pulse -N"
#
# IQ source / external pipeline overrides per device:
# [pipelines.rtlsdr]
# iq_source = "rtl_sdr -d {device} -f {center_hz} -g {gain} -p {ppm} -s 2400000 -"
# adsb      = "readsb --device {device} --gain {gain} --quiet --net --net-sbs-port {sbs_port}"
#
# [pipelines.airspyhf]
# # airspyhf_rx builds differ; adjust flags if yours needs them:
# iq_source = "airspyhf_rx -f {center_mhz} -a 768000 -r /dev/stdout"
"##;

/// Annotated default config, written by `deck config --write`.
pub fn default_config_toml() -> (s: String)
    ensures
        s@ == DEFAULT_CONFIG_TOML@,
{
    String::from_str(DEFAULT_CONFIG_TOML)
}

} // verus!
