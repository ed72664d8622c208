//! Pipeline resolution: which source process, demodulator and decoder a
//! mode runs on a device, with every command line rendered from its
//! template.
//!
//! deck owns the SDR through exactly one source process per session
//! (`rtl_sdr` / `airspyhf_rx` / the simulator) emitting raw IQ on stdout;
//! it tunes, decimates and demodulates internally, then feeds demodulated
//! audio to a decoder's stdin and/or the audio sink. Only ADS-B and AIS run
//! as fully external pipelines that own the device themselves.

use vstd::prelude::*;
use crate::config::{find_key, lookup, Config};
use crate::device::{in_ranges, spec_kind_key, spec_ranges, SdrDevice, SdrKind};
use crate::freq::{fmt_mhz, spec_fmt_mhz, trimmed_decimal};
use crate::modes::{mode_def, spec_mode_def, Demod, ModeId, PipeKind, ViewKind};
use crate::text::{
    dec_chars, dec_padded, dec_str, digit_char, digit_of, int_chars, int_str, pad_left, push_all,
    replace_all, replace_str, strip_end_of, chars_of, join, join_strs, contains, contains_str, is_alpha, is_control, lower_all, lower_seq, next_token, push_str,
    slice, split_char, split_on, string_of, strip_both, strip_both_of, tokens, views, alpha, control,
};

verus! {

#[derive(Clone, Copy, PartialEq, Eq, Debug, Structural)]
pub enum IqFormat {
    /// unsigned 8-bit I/Q pairs
    Cu8,
    /// signed 16-bit little-endian I/Q pairs
    Cs16,
    /// 32-bit float I/Q pairs (the Airspy HF+ stream)
    Cf32,
}

pub const RTL_IQ_SOURCE: &'static str = "rtl_sdr -d {device} -f {center_hz} -g {gain} -p {ppm} -s 2400000 -";

pub const AIRSPY_IQ_SOURCE: &'static str = "airspyhf_rx -f {center_mhz} -a 768000 -r /dev/stdout";

pub const SIM_IQ_SOURCE: &'static str = "'{deck}' simgen --mode iq-band --profile {profile} --center {center_hz} --channel {freq_hz} --rate 2400000 --format cu8";

pub const DUMP1090: &'static str = "dump1090 --device-index {device} --gain {gain} --quiet --net --net-sbs-port {sbs_port}";

pub const RTL_AIS: &'static str = "rtl_ais -d {device} -n -g {gain} -p {ppm}";

pub const AISCATCHER_RTL: &'static str = "AIS-catcher -d:{device} -gr TUNER {gain} -p {ppm} -o 1";

pub const AISCATCHER_AIRSPY: &'static str = "AIS-catcher -d:{device} -o 1";

pub open spec fn spec_iq_source(dev: SdrKind) -> (&'static str, IqFormat, u32) {
    match dev {
        SdrKind::RtlSdr => (RTL_IQ_SOURCE, IqFormat::Cu8, 2_400_000u32),
        SdrKind::AirspyHf => (AIRSPY_IQ_SOURCE, IqFormat::Cf32, 768_000u32),
        SdrKind::Sim => (SIM_IQ_SOURCE, IqFormat::Cu8, 2_400_000u32),
    }
}

/// Per-device IQ front-end: (source template, format, sample rate).
pub fn iq_source(dev: SdrKind) -> (r: (&'static str, IqFormat, u32))
    ensures
        r == spec_iq_source(dev),
{
    match dev {
        SdrKind::RtlSdr => (RTL_IQ_SOURCE, IqFormat::Cu8, 2_400_000),
        SdrKind::AirspyHf => (AIRSPY_IQ_SOURCE, IqFormat::Cf32, 768_000),
        SdrKind::Sim => (SIM_IQ_SOURCE, IqFormat::Cu8, 2_400_000),
    }
}

/// The simulator's decoded-line feed for a mode key.
pub open spec fn sim_lines(key: Seq<char>) -> Seq<char> {
    "'{deck}' simgen --mode "@ + key + " --lines"@
}

fn sim_lines_of(key: &str) -> (r: String)
    ensures
        r@ == sim_lines(key@),
{
    let mut v = chars_of("'{deck}' simgen --mode ");
    push_str(&mut v, key);
    push_str(&mut v, " --lines");
    string_of(&v)
}

/// External (non-IQ) pipelines: ADS-B on an RTL-SDR, AIS through
/// AIS-catcher on any real device, and the simulator's decoded-line feeds.
/// The Airspy HF+ has no ADS-B (1090 MHz is out of its range).
pub open spec fn spec_extern_template(dev: SdrKind, mode: ModeId) -> Option<Seq<char>> {
    match (dev, mode) {
        (SdrKind::RtlSdr, ModeId::Adsb) => Some(DUMP1090@),
        (SdrKind::RtlSdr, ModeId::Ais) => Some(AISCATCHER_RTL@),
        (SdrKind::AirspyHf, ModeId::Ais) => Some(AISCATCHER_AIRSPY@),
        (SdrKind::Sim, m) => Some(sim_lines(spec_mode_def(m).key@)),
        _ => None,
    }
}

pub fn extern_template(dev: SdrKind, mode: ModeId) -> (r: Option<String>)
    ensures
        r matches Some(t) ==> spec_extern_template(dev, mode) == Some(t@),
        r is None ==> spec_extern_template(dev, mode) is None,
{
    match (dev, mode) {
        (SdrKind::RtlSdr, ModeId::Adsb) => Some(String::from_str(DUMP1090)),
        (SdrKind::RtlSdr, ModeId::Ais) => Some(String::from_str(AISCATCHER_RTL)),
        (SdrKind::AirspyHf, ModeId::Ais) => Some(String::from_str(AISCATCHER_AIRSPY)),
        (SdrKind::Sim, m) => Some(sim_lines_of(mode_def(m).key)),
        _ => None,
    }
}

/// The external pipeline deck runs: the device's template, except that AIS
/// on an RTL-SDR falls back to rtl_ais when AIS-catcher is not installed.
pub open spec fn extern_choice(dev: SdrKind, mode: ModeId, found: Seq<(String, bool)>) -> Option<
    Seq<char>,
> {
    if dev == SdrKind::RtlSdr && mode == ModeId::Ais && !spec_has(found, "AIS-catcher"@) {
        Some(RTL_AIS@)
    } else {
        spec_extern_template(dev, mode)
    }
}

fn choose_extern(dev: SdrKind, mode: ModeId, tools: &ToolReport) -> (r: Option<String>)
    ensures
        r matches Some(t) ==> extern_choice(dev, mode, tools.found@) == Some(t@),
        r is None ==> extern_choice(dev, mode, tools.found@) is None,
{
    if dev == SdrKind::RtlSdr && mode == ModeId::Ais && !tools.has("AIS-catcher") {
        Some(String::from_str(RTL_AIS))
    } else {
        extern_template(dev, mode)
    }
}

/// Tune offset: the device centers rate/4 away from the wanted signal so
/// the DC spike never sits on it; the NCO shifts it back to baseband.
pub fn tune_offset(rate: u32) -> (r: i64)
    ensures
        r == rate / 4,
{
    (rate / 4) as i64
}

/// Center for `freq`: rate/4 above it when the device can tune there,
/// else rate/4 below it (both saturating).
pub open spec fn spec_center_for(kind: SdrKind, freq: u64, rate: u32) -> u64 {
    let up: u64 = if freq + rate / 4 > u64::MAX { u64::MAX } else { (freq + rate / 4) as u64 };
    if in_ranges(spec_ranges(kind), up) {
        up
    } else if freq < rate / 4 {
        0
    } else {
        (freq - rate / 4) as u64
    }
}

/// Pick a device center for `freq`, staying inside the device's range.
pub fn center_for(dev: &SdrDevice, freq: u64, rate: u32) -> (c: u64)
    ensures
        c == spec_center_for(dev.kind, freq, rate),
{
    let off = tune_offset(rate);
    let up = freq.saturating_add(off as u64);
    if dev.freq_ok(up) {
        up
    } else {
        freq.saturating_sub(off as u64)
    }
}

/// `freq` lies inside the passband around `center`, a sixteenth of the
/// rate kept clear at each edge.
pub open spec fn spec_in_band(center: u64, rate: u32, freq: u64) -> bool {
    let d = freq - center;
    let ad = if d < 0 { -d } else { d };
    ad < rate / 2 - rate / 16
}

/// Can `freq` be reached from `center` without retuning the device?
pub fn in_band(center: u64, rate: u32, freq: u64) -> (b: bool)
    requires
        center <= i64::MAX,
        freq <= i64::MAX,
    ensures
        b == spec_in_band(center, rate, freq),
{
    let guard = (rate / 16) as i64;
    let d = freq as i64 - center as i64;
    let ad = if d < 0 {
        -d
    } else {
        d
    };
    ad < (rate as i64) / 2 - guard
}

// ------------------------------------------------------------ stderr text

/// What marks a stderr line (lower-cased) as "another process owns the SDR".
pub open spec fn busy_text(l: Seq<char>) -> bool {
    ||| contains(l, "usb_claim_interface"@)
    ||| contains(l, "resource busy"@)
    ||| contains(l, "device or resource busy"@)
    ||| contains(l, "failed to open"@)
    ||| contains(l, "no supported devices"@)
    ||| contains(l, "device not found"@)
    ||| contains(l, "acquire"@) && contains(l, "fail"@)
}

/// Does this stderr line look like "another process owns the SDR"?
pub fn looks_like_device_busy(line: &str) -> (b: bool)
    ensures
        b == busy_text(lower_seq(line@)),
{
    let raw = chars_of(line);
    let l = lower_all(&raw);
    contains_str(&l, "usb_claim_interface") || contains_str(&l, "resource busy") || contains_str(
        &l,
        "device or resource busy",
    ) || contains_str(&l, "failed to open") || contains_str(&l, "no supported devices")
        || contains_str(&l, "device not found") || (contains_str(&l, "acquire") && contains_str(
        &l,
        "fail",
    ))
}

#[derive(Clone, Copy, PartialEq, Eq, Debug, Structural)]
pub enum LineSrc {
    Stdout,
    Stderr,
    Sbs,
}

/// Chars that survive in a cleaned line: no carriage returns and no
/// control chars other than tab.
pub open spec fn keep_char(c: char) -> bool {
    c != '\r' && (c == '\t' || !is_control(c))
}

/// Index just past the first ASCII letter at or after `i` (the end of an
/// escape sequence's parameters), or the length.
pub open spec fn skip_csi(s: Seq<char>, i: int) -> int
    decreases s.len() - i,
{
    if i < 0 || i >= s.len() {
        s.len() as int
    } else if is_alpha(s[i]) {
        i + 1
    } else {
        skip_csi(s, i + 1)
    }
}

pub proof fn lemma_skip_csi(s: Seq<char>, i: int)
    requires
        0 <= i <= s.len(),
    ensures
        i <= skip_csi(s, i) <= s.len(),
    decreases s.len() - i,
{
    if i < s.len() && !is_alpha(s[i]) {
        lemma_skip_csi(s, i + 1);
    }
}

/// `s[i..]` with ANSI escapes dropped: ESC `[` up to and including the
/// next ASCII letter; a lone ESC drops only itself.
pub open spec fn ansi_from(s: Seq<char>, i: int) -> Seq<char>
    decreases s.len() - i,
{
    if i < 0 || i >= s.len() {
        seq![]
    } else if s[i] == '\u{1b}' {
        if i + 1 < s.len() && s[i + 1] == '[' {
            proof {
                lemma_skip_csi(s, i + 2);
            }
            ansi_from(s, skip_csi(s, i + 2))
        } else {
            ansi_from(s, i + 1)
        }
    } else if keep_char(s[i]) {
        seq![s[i]] + ansi_from(s, i + 1)
    } else {
        ansi_from(s, i + 1)
    }
}

/// Every char of `t` is one that [`strip_ansi`] keeps.
pub open spec fn kept_text(t: Seq<char>) -> bool {
    forall|k: int| 0 <= k < t.len() ==> keep_char(#[trigger] t[k])
}

/// `a` sits in `b` at the increasing positions `idx`.
pub open spec fn subseq_at(a: Seq<char>, b: Seq<char>, idx: Seq<int>) -> bool {
    &&& idx.len() == a.len()
    &&& forall|k: int| 0 <= k < a.len() ==> 0 <= #[trigger] idx[k] < b.len() && b[idx[k]] == a[k]
    &&& forall|k: int, l: int| 0 <= k < l < a.len() ==> #[trigger] idx[k] < #[trigger] idx[l]
}

proof fn lemma_ansi_kept(s: Seq<char>, i: int)
    ensures
        kept_text(ansi_from(s, i)),
    decreases s.len() - i,
{
    if 0 <= i < s.len() {
        if s[i] == '\u{1b}' {
            if i + 1 < s.len() && s[i + 1] == '[' {
                lemma_skip_csi(s, i + 2);
                lemma_ansi_kept(s, skip_csi(s, i + 2));
            } else {
                lemma_ansi_kept(s, i + 1);
            }
        } else {
            lemma_ansi_kept(s, i + 1);
            let r = ansi_from(s, i + 1);
            if keep_char(s[i]) {
                assert forall|k: int| 0 <= k < (seq![s[i]] + r).len() implies keep_char(#[trigger] (seq![s[i]] + r)[k]) by {
                    if k > 0 {
                        assert((seq![s[i]] + r)[k] == r[k - 1]);
                    }
                }
            }
        }
    }
}

proof fn lemma_ansi_fixed(t: Seq<char>, i: int)
    requires
        kept_text(t),
        0 <= i <= t.len(),
    ensures
        ansi_from(t, i) == t.skip(i),
    decreases t.len() - i,
{
    if i < t.len() {
        assert(keep_char(t[i]));
        assert(t[i] != '\u{1b}');
        lemma_ansi_fixed(t, i + 1);
        assert(seq![t[i]] + t.skip(i + 1) == t.skip(i));
    } else {
        assert(t.skip(i) == Seq::<char>::empty());
    }
}

proof fn lemma_ansi_sub(s: Seq<char>, i: int) -> (idx: Seq<int>)
    requires
        0 <= i <= s.len(),
    ensures
        subseq_at(ansi_from(s, i), s, idx),
        forall|k: int| 0 <= k < idx.len() ==> i <= #[trigger] idx[k],
    decreases s.len() - i,
{
    if i == s.len() {
        Seq::<int>::empty()
    } else if s[i] == '\u{1b}' {
        if i + 1 < s.len() && s[i + 1] == '[' {
            lemma_skip_csi(s, i + 2);
            lemma_ansi_sub(s, skip_csi(s, i + 2))
        } else {
            lemma_ansi_sub(s, i + 1)
        }
    } else if keep_char(s[i]) {
        let rest = lemma_ansi_sub(s, i + 1);
        let r = ansi_from(s, i + 1);
        let idx = seq![i] + rest;
        let a = seq![s[i]] + r;
        assert(ansi_from(s, i) == a);
        assert forall|k: int| 0 <= k < a.len() implies 0 <= #[trigger] idx[k] < s.len() && s[idx[k]] == a[k] by {
            if k > 0 {
                assert(idx[k] == rest[k - 1]);
                assert(a[k] == r[k - 1]);
            }
        }
        assert forall|k: int, l: int| 0 <= k < l < a.len() implies #[trigger] idx[k] < #[trigger] idx[l] by {
            assert(idx[l] == rest[l - 1]);
            if k > 0 {
                assert(idx[k] == rest[k - 1]);
            }
        }
        assert forall|k: int| 0 <= k < idx.len() implies i <= #[trigger] idx[k] by {
            if k > 0 {
                assert(idx[k] == rest[k - 1]);
            }
        }
        idx
    } else {
        lemma_ansi_sub(s, i + 1)
    }
}

/// What [`strip_ansi`] returns keeps only tabs and printable chars (no ESC,
/// no carriage return), is a subsequence of its input, and is left as it
/// is by a second pass.
pub proof fn lemma_strip_ansi_laws(s: Seq<char>)
    ensures
        kept_text(ansi_from(s, 0)),
        ansi_from(ansi_from(s, 0), 0) == ansi_from(s, 0),
        exists|idx: Seq<int>| subseq_at(ansi_from(s, 0), s, idx),
{
    let r = ansi_from(s, 0);
    lemma_ansi_kept(s, 0);
    lemma_ansi_fixed(r, 0);
    assert(r.skip(0) == r);
    let idx = lemma_ansi_sub(s, 0);
    assert(subseq_at(r, s, idx));
}

fn skip_csi_at(s: &Vec<char>, i: usize) -> (r: usize)
    requires
        i <= s@.len(),
    ensures
        r == skip_csi(s@, i as int),
{
    let mut j: usize = i;
    while j < s.len()
        invariant
            i <= j <= s@.len(),
            skip_csi(s@, i as int) == skip_csi(s@, j as int),
        decreases s.len() - j,
    {
        if alpha(s[j]) {
            return j + 1;
        }
        j += 1;
    }
    j
}

/// A tool's output line with ANSI escapes, carriage returns and control
/// chars removed.
pub fn strip_ansi(s: &str) -> (r: String)
    ensures
        r@ == ansi_from(s@, 0),
{
    let v = chars_of(s);
    let mut out: Vec<char> = Vec::new();
    let mut i: usize = 0;
    while i < v.len()
        invariant
            i <= v@.len(),
            v@ == s@,
            out@ + ansi_from(v@, i as int) == ansi_from(v@, 0),
        decreases v.len() - i,
    {
        let c = v[i];
        if c == '\u{1b}' {
            if i + 1 < v.len() && v[i + 1] == '[' {
                proof {
                    lemma_skip_csi(v@, i + 2);
                }
                i = skip_csi_at(&v, i + 2);
            } else {
                i += 1;
            }
        } else {
            if c != '\r' && (c == '\t' || !control(c)) {
                out.push(c);
            }
            i += 1;
        }
    }
    assert(out@ + Seq::<char>::empty() == out@);
    string_of(&out)
}

// ------------------------------------------------------- required tools

/// The binary a pipe segment runs: its first word, quotes trimmed; none
/// for the deck binary itself or an empty segment.
pub open spec fn seg_head(seg: Seq<char>) -> Option<Seq<char>> {
    let toks = tokens(seg);
    if toks.len() == 0 {
        None
    } else {
        let h = strip_both(toks[0], '\'');
        if contains(h, "{deck}"@) || h.len() == 0 {
            None
        } else {
            Some(h)
        }
    }
}

pub open spec fn heads(segs: Seq<Seq<char>>) -> Seq<Seq<char>>
    decreases segs.len(),
{
    if segs.len() == 0 {
        seq![]
    } else {
        let r = heads(segs.drop_last());
        match seg_head(segs.last()) {
            Some(h) => r.push(h),
            None => r,
        }
    }
}

/// Binaries a template needs: the head of every pipe segment.
pub open spec fn spec_requires_of(t: Seq<char>) -> Seq<Seq<char>> {
    heads(split_char(t, '|'))
}

pub open spec fn string_views(v: Seq<String>) -> Seq<Seq<char>> {
    v.map_values(|x: String| x@)
}

fn seg_head_of(seg: &Vec<char>) -> (r: Option<String>)
    ensures
        r matches Some(h) ==> seg_head(seg@) == Some(h@),
        r is None ==> seg_head(seg@) is None,
{
    match next_token(seg, 0) {
        None => None,
        Some((a, b)) => {
            let tok = slice(seg, a, b);
            assert(tokens(seg@)[0] == tok@);
            let h = strip_both_of(&tok, '\'');
            if contains_str(&h, "{deck}") || h.len() == 0 {
                None
            } else {
                Some(string_of(&h))
            }
        },
    }
}

pub fn requires_of(template: &str) -> (r: Vec<String>)
    ensures
        string_views(r@) == spec_requires_of(template@),
{
    let t = chars_of(template);
    let segs = split_on(&t, '|');
    let ghost sv = views(segs@);
    let mut r: Vec<String> = Vec::new();
    let mut i: usize = 0;
    while i < segs.len()
        invariant
            i <= segs@.len(),
            sv == views(segs@),
            sv == split_char(template@, '|'),
            string_views(r@) == heads(sv.take(i as int)),
        decreases segs.len() - i,
    {
        assert(sv.take(i + 1).drop_last() == sv.take(i as int));
        assert(sv.take(i + 1).last() == segs@[i as int]@);
        match seg_head_of(&segs[i]) {
            Some(h) => {
                assert(string_views(r@.push(h)) == string_views(r@).push(h@));
                r.push(h);
            },
            None => {},
        }
        i += 1;
    }
    assert(sv.take(segs@.len() as int) == sv);
    r
}

/// Which of the known tools were found on `PATH`.
#[derive(Clone, Debug)]
pub struct ToolReport {
    /// `(binary, found)`; a binary without an entry counts as not found
    pub found: Vec<(String, bool)>,
}

impl Default for ToolReport {
    fn default() -> (r: Self)
        ensures
            r.found@.len() == 0,
    {
        ToolReport { found: Vec::new() }
    }
}

pub open spec fn spec_has(found: Seq<(String, bool)>, bin: Seq<char>) -> bool {
    lookup(found, bin) == Some(true)
}

/// The binaries of `bins` that are not known to be present, in order.
pub open spec fn absent(found: Seq<(String, bool)>, bins: Seq<Seq<char>>) -> Seq<Seq<char>>
    decreases bins.len(),
{
    if bins.len() == 0 {
        seq![]
    } else {
        let r = absent(found, bins.drop_last());
        if spec_has(found, bins.last()) {
            r
        } else {
            r.push(bins.last())
        }
    }
}

pub open spec fn spec_missing_for(found: Seq<(String, bool)>, template: Seq<char>) -> Seq<Seq<char>> {
    absent(found, spec_requires_of(template))
}

impl ToolReport {
    pub fn has(&self, bin: &str) -> (b: bool)
        ensures
            b == spec_has(self.found@, bin@),
    {
        match find_key(&self.found, bin) {
            Some(i) => self.found[i].1,
            None => false,
        }
    }

    pub fn missing_for(&self, template: &str) -> (r: Vec<String>)
        ensures
            string_views(r@) == spec_missing_for(self.found@, template@),
    {
        let req = requires_of(template);
        let ghost rv = string_views(req@);
        let mut r: Vec<String> = Vec::new();
        let mut i: usize = 0;
        while i < req.len()
            invariant
                i <= req@.len(),
                rv == string_views(req@),
                rv == spec_requires_of(template@),
                string_views(r@) == absent(self.found@, rv.take(i as int)),
            decreases req.len() - i,
        {
            assert(rv.take(i + 1).drop_last() == rv.take(i as int));
            assert(rv.take(i + 1).last() == req@[i as int]@);
            if !self.has(req[i].as_str()) {
                let b = req[i].clone();
                assert(string_views(r@.push(b)) == string_views(r@).push(b@));
                r.push(b);
            }
            i += 1;
        }
        assert(rv.take(req@.len() as int) == rv);
        r
    }
}


// -------------------------------------------------------------- templates

/// Values a command template can name.
#[derive(Clone, Debug)]
pub struct TemplateVars {
    pub device: u32,
    pub freq_hz: u64,
    pub center_hz: u64,
    /// tuner gain, tenths of a dB
    pub gain_tenths: i32,
    pub ppm: i32,
    pub rate: u32,
    pub sbs_port: u16,
    pub profile: String,
}

pub struct VarsView {
    pub device: u32,
    pub freq_hz: u64,
    pub center_hz: u64,
    pub gain_tenths: i32,
    pub ppm: i32,
    pub rate: u32,
    pub sbs_port: u16,
    pub profile: Seq<char>,
}

impl View for TemplateVars {
    type V = VarsView;

    open spec fn view(&self) -> VarsView {
        VarsView {
            device: self.device,
            freq_hz: self.freq_hz,
            center_hz: self.center_hz,
            gain_tenths: self.gain_tenths,
            ppm: self.ppm,
            rate: self.rate,
            sbs_port: self.sbs_port,
            profile: self.profile@,
        }
    }
}

/// `n` tenths written with one decimal (`{:.1}`).
pub open spec fn tenths_text(n: nat) -> Seq<char> {
    dec_str(n / 10) + seq!['.', digit_char(n % 10)]
}

pub open spec fn gain_text(t: int) -> Seq<char> {
    if t < 0 {
        seq!['-'] + tenths_text((-t) as nat)
    } else {
        tenths_text(t as nat)
    }
}

/// Gain in tenths rounded to whole dB, halves away from zero.
pub open spec fn gain_round(t: int) -> int {
    if t < 0 {
        -((-t + 5) / 10)
    } else {
        (t + 5) / 10
    }
}

/// Hz as kHz with the fraction written only as far as it goes.
pub open spec fn khz_text(hz: u64) -> Seq<char> {
    trimmed_decimal((hz / 1000) as nat, (hz % 1000) as nat, 3)
}

/// Every placeholder of `t` replaced, in this order.
pub open spec fn spec_render(t: Seq<char>, v: VarsView, deck: Seq<char>) -> Seq<char> {
    let s = replace_all(t, "{device}"@, dec_str(v.device as nat));
    let s = replace_all(s, "{freq_hz}"@, dec_str(v.freq_hz as nat));
    let s = replace_all(s, "{freq_mhz}"@, spec_fmt_mhz(v.freq_hz));
    let s = replace_all(s, "{freq_khz}"@, khz_text(v.freq_hz));
    let s = replace_all(s, "{center_hz}"@, dec_str(v.center_hz as nat));
    let s = replace_all(s, "{center_mhz}"@, spec_fmt_mhz(v.center_hz));
    let s = replace_all(s, "{gain_int}"@, int_str(gain_round(v.gain_tenths as int)));
    let s = replace_all(s, "{gain}"@, gain_text(v.gain_tenths as int));
    let s = replace_all(s, "{ppm}"@, int_str(v.ppm as int));
    let s = replace_all(s, "{rate}"@, dec_str(v.rate as nat));
    let s = replace_all(s, "{sbs_port}"@, dec_str(v.sbs_port as nat));
    let s = replace_all(s, "{profile}"@, v.profile);
    replace_all(s, "{deck}"@, deck)
}

fn gain_text_of(t: i32) -> (r: Vec<char>)
    ensures
        r@ == gain_text(t as int),
{
    let n: u64 = if t < 0 {
        (-(t as i64)) as u64
    } else {
        t as u64
    };
    let mut r: Vec<char> = Vec::new();
    if t < 0 {
        r.push('-');
    }
    let ip = dec_chars(n / 10);
    push_all(&mut r, &ip);
    r.push('.');
    r.push(digit_of(n % 10));
    r
}

fn gain_round_of(t: i32) -> (r: i64)
    ensures
        r == gain_round(t as int),
{
    let w = t as i64;
    if w < 0 {
        -((-w + 5) / 10)
    } else {
        (w + 5) / 10
    }
}

fn khz_text_of(hz: u64) -> (r: Vec<char>)
    ensures
        r@ == khz_text(hz),
{
    let mut out = dec_chars(hz / 1000);
    out.push('.');
    let f = dec_padded(hz % 1000, 3);
    push_all(&mut out, &f);
    assert(out@ == dec_str((hz / 1000) as nat) + seq!['.'] + pad_left(dec_str((hz % 1000) as nat), 3, '0'));
    strip_end_of(&mut out, '0');
    strip_end_of(&mut out, '.');
    out
}

/// `t` with every placeholder filled in; `deck` is the path of this
/// binary, for templates that run the simulator.
pub fn render_template(t: &str, v: &TemplateVars, deck: &str) -> (r: String)
    ensures
        r@ == spec_render(t@, v@, deck@),
{
    proof {
        reveal_strlit("{device}");
        reveal_strlit("{freq_hz}");
        reveal_strlit("{freq_mhz}");
        reveal_strlit("{freq_khz}");
        reveal_strlit("{center_hz}");
        reveal_strlit("{center_mhz}");
        reveal_strlit("{gain_int}");
        reveal_strlit("{gain}");
        reveal_strlit("{ppm}");
        reveal_strlit("{rate}");
        reveal_strlit("{sbs_port}");
        reveal_strlit("{profile}");
        reveal_strlit("{deck}");
    }
    let s = chars_of(t);
    let s = replace_str(&s, "{device}", &dec_chars(v.device as u64));
    let s = replace_str(&s, "{freq_hz}", &dec_chars(v.freq_hz));
    let s = replace_str(&s, "{freq_mhz}", &chars_of(fmt_mhz(v.freq_hz).as_str()));
    let s = replace_str(&s, "{freq_khz}", &khz_text_of(v.freq_hz));
    let s = replace_str(&s, "{center_hz}", &dec_chars(v.center_hz));
    let s = replace_str(&s, "{center_mhz}", &chars_of(fmt_mhz(v.center_hz).as_str()));
    let s = replace_str(&s, "{gain_int}", &int_chars(gain_round_of(v.gain_tenths)));
    let s = replace_str(&s, "{gain}", &gain_text_of(v.gain_tenths));
    let s = replace_str(&s, "{ppm}", &int_chars(v.ppm as i64));
    let s = replace_str(&s, "{rate}", &dec_chars(v.rate as u64));
    let s = replace_str(&s, "{sbs_port}", &dec_chars(v.sbs_port as u64));
    let s = replace_str(&s, "{profile}", &chars_of(v.profile.as_str()));
    let s = replace_str(&s, "{deck}", &chars_of(deck));
    string_of(&s)
}


// ------------------------------------------------------------- resolution

/// A fully resolved, ready-to-run plan.
#[derive(Clone, Debug)]
pub enum Plan {
    Extern {
        cmdline: String,
        /// read stdout as raw chunks (char feeds) instead of lines
        char_mode: bool,
        /// also connect the SBS TCP client
        sbs: bool,
    },
    Iq {
        source_cmdline: String,
        format: IqFormat,
        rate: u32,
        center_hz: u64,
        demod: Demod,
        decoder_cmd: Option<String>,
        decoder_rate: u32,
        decoder_char_mode: bool,
        audio_out: bool,
    },
}

#[derive(Clone, Debug)]
pub struct Resolved {
    pub plan: Plan,
    pub missing: Vec<String>,
    pub note: Option<String>,
}

pub enum PlanView {
    Extern { cmdline: Seq<char>, char_mode: bool, sbs: bool },
    Iq {
        source_cmdline: Seq<char>,
        format: IqFormat,
        rate: u32,
        center_hz: u64,
        demod: Demod,
        decoder_cmd: Option<Seq<char>>,
        decoder_rate: u32,
        decoder_char_mode: bool,
        audio_out: bool,
    },
}

pub struct ResolvedView {
    pub plan: PlanView,
    pub missing: Seq<Seq<char>>,
    pub note: Option<Seq<char>>,
}

pub open spec fn opt_view(o: Option<String>) -> Option<Seq<char>> {
    match o {
        Some(s) => Some(s@),
        None => None,
    }
}

impl View for Plan {
    type V = PlanView;

    open spec fn view(&self) -> PlanView {
        match self {
            Plan::Extern { cmdline, char_mode, sbs } => PlanView::Extern {
                cmdline: cmdline@,
                char_mode: *char_mode,
                sbs: *sbs,
            },
            Plan::Iq {
                source_cmdline,
                format,
                rate,
                center_hz,
                demod,
                decoder_cmd,
                decoder_rate,
                decoder_char_mode,
                audio_out,
            } => PlanView::Iq {
                source_cmdline: source_cmdline@,
                format: *format,
                rate: *rate,
                center_hz: *center_hz,
                demod: *demod,
                decoder_cmd: opt_view(*decoder_cmd),
                decoder_rate: *decoder_rate,
                decoder_char_mode: *decoder_char_mode,
                audio_out: *audio_out,
            },
        }
    }
}

impl View for Resolved {
    type V = ResolvedView;

    open spec fn view(&self) -> ResolvedView {
        ResolvedView {
            plan: self.plan@,
            missing: string_views(self.missing@),
            note: opt_view(self.note),
        }
    }
}

/// Template values for `mode` on `dev` with the device centered at `center`.
pub open spec fn vars_for(
    mode: ModeId,
    dev: SdrDevice,
    cfg: Config,
    freq_hz: u64,
    center: u64,
    rate: u32,
    gain_tenths: i32,
) -> VarsView {
    VarsView {
        device: dev.index,
        freq_hz,
        center_hz: center,
        gain_tenths,
        ppm: cfg.sdr.ppm,
        rate,
        sbs_port: cfg.adsb.sbs_port,
        profile: spec_mode_def(mode).key@,
    }
}

/// An external pipeline: the template rendered around `freq_hz`.
pub open spec fn extern_plan(
    mode: ModeId,
    dev: SdrDevice,
    cfg: Config,
    found: Seq<(String, bool)>,
    freq_hz: u64,
    gain_tenths: i32,
    deck: Seq<char>,
    template: Seq<char>,
    note: Option<Seq<char>>,
) -> ResolvedView {
    ResolvedView {
        plan: PlanView::Extern {
            cmdline: spec_render(
                template,
                vars_for(mode, dev, cfg, freq_hz, freq_hz, 0, gain_tenths),
                deck,
            ),
            char_mode: mode == ModeId::Rtty,
            sbs: mode == ModeId::Adsb && dev.kind != SdrKind::Sim,
        },
        missing: spec_missing_for(found, template),
        note,
    }
}

/// The device's pipeline overrides from the config.
pub open spec fn dev_overrides(cfg: Config, dev: SdrDevice) -> Option<Vec<(String, String)>> {
    lookup(cfg.pipelines@, spec_kind_key(dev.kind)@)
}

pub open spec fn override_for(cfg: Config, dev: SdrDevice, key: Seq<char>) -> Option<Seq<char>> {
    match dev_overrides(cfg, dev) {
        Some(o) => opt_view(lookup(o@, key)),
        None => None,
    }
}

/// The IQ source template: the device's `iq_source` override, else the
/// built-in one.
pub open spec fn source_template(cfg: Config, dev: SdrDevice) -> Seq<char> {
    match override_for(cfg, dev, "iq_source"@) {
        Some(t) => t,
        None => spec_iq_source(dev.kind).0@,
    }
}

/// The decoder template: the config's override for the mode, else the
/// registry's.
pub open spec fn decoder_template(cfg: Config, mode: ModeId) -> Option<Seq<char>> {
    match lookup(cfg.decoders@, spec_mode_def(mode).key@) {
        Some(d) => Some(d@),
        None => match spec_mode_def(mode).decoder {
            Some(d) => Some(d@),
            None => None,
        },
    }
}

pub open spec fn iq_missing(cfg: Config, dev: SdrDevice, mode: ModeId, found: Seq<(String, bool)>) -> Seq<Seq<char>> {
    spec_missing_for(found, source_template(cfg, dev)) + match decoder_template(cfg, mode) {
        Some(d) => spec_missing_for(found, d),
        None => seq![],
    }
}

/// What `resolve` plans for `mode` on `dev`:
/// 1. a per-device override for the mode runs as an external pipeline;
/// 2. digital voice on the simulator runs its decoded-line feed;
/// 3. external modes run their device template (none: unsupported);
/// 4. IQ modes read the device, demodulate and feed the decoder — except
///    that the simulator falls back to its line feed when a tool is missing.
pub open spec fn spec_resolve(
    mode: ModeId,
    dev: SdrDevice,
    cfg: Config,
    found: Seq<(String, bool)>,
    freq_hz: u64,
    gain_tenths: i32,
    deck: Seq<char>,
) -> Option<ResolvedView> {
    let m = spec_mode_def(mode);
    let plan = |t: Seq<char>, note: Option<Seq<char>>|
        extern_plan(mode, dev, cfg, found, freq_hz, gain_tenths, deck, t, note);
    if override_for(cfg, dev, m.key@) is Some {
        Some(plan(override_for(cfg, dev, m.key@)->0, Some("external pipeline from config"@)))
    } else if dev.kind == SdrKind::Sim && m.view == ViewKind::Voice {
        match spec_extern_template(dev.kind, mode) {
            Some(t) => Some(plan(t, Some("voice sim runs as a decoder feed"@))),
            None => None,
        }
    } else {
        match m.pipe {
            PipeKind::Extern => match extern_choice(dev.kind, mode, found) {
                Some(t) => Some(plan(t, None)),
                None => None,
            },
            PipeKind::Iq(demod) => {
                let (_, format, rate) = spec_iq_source(dev.kind);
                let missing = iq_missing(cfg, dev, mode, found);
                if dev.kind == SdrKind::Sim && missing.len() > 0 {
                    Some(
                        plan(
                            sim_lines(m.key@),
                            Some(
                                "simulating decoder output ("@ + join(missing, ", "@)
                                    + " not installed)"@,
                            ),
                        ),
                    )
                } else {
                    let center = spec_center_for(dev.kind, freq_hz, rate);
                    Some(
                        ResolvedView {
                            plan: PlanView::Iq {
                                source_cmdline: spec_render(
                                    source_template(cfg, dev),
                                    vars_for(mode, dev, cfg, freq_hz, center, rate, gain_tenths),
                                    deck,
                                ),
                                format,
                                rate,
                                center_hz: center,
                                demod,
                                decoder_cmd: decoder_template(cfg, mode),
                                decoder_rate: m.decoder_rate,
                                decoder_char_mode: mode == ModeId::Rtty,
                                audio_out: m.audio_out,
                            },
                            missing,
                            note: if spec_in_band(center, rate, freq_hz) {
                                None
                            } else {
                                Some("tuned frequency outside device band"@)
                            },
                        },
                    )
                }
            },
        }
    }
}

/// A deck-run receiver's plan centers the device within a quarter of the
/// sample rate above the wanted frequency.
pub(crate) proof fn lemma_iq_center_bound(
    mode: ModeId,
    dev: SdrDevice,
    cfg: Config,
    found: Seq<(String, bool)>,
    freq_hz: u64,
    gain_tenths: i32,
    deck: Seq<char>,
)
    ensures
        match spec_resolve(mode, dev, cfg, found, freq_hz, gain_tenths, deck) {
            Some(r) => match r.plan {
                PlanView::Iq { center_hz, .. } => center_hz <= freq_hz + u32::MAX,
                _ => true,
            },
            None => true,
        },
{
}

fn make_vars(mode: ModeId, dev: &SdrDevice, cfg: &Config, freq_hz: u64, center: u64, rate: u32, gain_tenths: i32) -> (v: TemplateVars)
    ensures
        v@ == vars_for(mode, *dev, *cfg, freq_hz, center, rate, gain_tenths),
{
    TemplateVars {
        device: dev.index,
        freq_hz,
        center_hz: center,
        gain_tenths,
        ppm: cfg.sdr.ppm,
        rate,
        sbs_port: cfg.adsb.sbs_port,
        profile: String::from_str(mode_def(mode).key),
    }
}

fn make_extern(
    mode: ModeId,
    dev: &SdrDevice,
    cfg: &Config,
    tools: &ToolReport,
    freq_hz: u64,
    gain_tenths: i32,
    deck: &str,
    template: String,
    note: Option<String>,
) -> (r: Resolved)
    ensures
        r@ == extern_plan(mode, *dev, *cfg, tools.found@, freq_hz, gain_tenths, deck@, template@, opt_view(note)),
{
    let missing = tools.missing_for(template.as_str());
    let v = make_vars(mode, dev, cfg, freq_hz, freq_hz, 0, gain_tenths);
    Resolved {
        plan: Plan::Extern {
            cmdline: render_template(template.as_str(), &v, deck),
            char_mode: mode == ModeId::Rtty,
            sbs: mode == ModeId::Adsb && dev.kind != SdrKind::Sim,
        },
        missing,
        note,
    }
}

fn override_of(cfg: &Config, dev: &SdrDevice, key: &str) -> (r: Option<String>)
    ensures
        opt_view(r) == override_for(*cfg, *dev, key@),
{
    match find_key(&cfg.pipelines, dev.kind.key()) {
        Some(i) => match find_key(&cfg.pipelines[i].1, key) {
            Some(j) => Some(cfg.pipelines[i].1[j].1.clone()),
            None => None,
        },
        None => None,
    }
}

/// Plan how `mode` runs on `dev` at `freq_hz` with the given gain; `None`
/// when the device cannot run the mode at all. `deck` is the path of this
/// binary, for templates that run the simulator.
pub fn resolve(
    mode: ModeId,
    dev: &SdrDevice,
    cfg: &Config,
    tools: &ToolReport,
    freq_hz: u64,
    gain_tenths: i32,
    deck: &str,
) -> (r: Option<Resolved>)
    requires
        freq_hz <= i64::MAX - u32::MAX,
    ensures
        r matches Some(x) ==> spec_resolve(mode, *dev, *cfg, tools.found@, freq_hz, gain_tenths, deck@)
            == Some(x@),
        r is None ==> spec_resolve(mode, *dev, *cfg, tools.found@, freq_hz, gain_tenths, deck@) is None,
{
    let m = mode_def(mode);
    if let Some(t) = override_of(cfg, dev, m.key) {
        return Some(
            make_extern(
                mode,
                dev,
                cfg,
                tools,
                freq_hz,
                gain_tenths,
                deck,
                t,
                Some(String::from_str("external pipeline from config")),
            ),
        );
    }
    if dev.kind == SdrKind::Sim && m.view == ViewKind::Voice {
        return match extern_template(dev.kind, mode) {
            Some(t) => Some(
                make_extern(
                    mode,
                    dev,
                    cfg,
                    tools,
                    freq_hz,
                    gain_tenths,
                    deck,
                    t,
                    Some(String::from_str("voice sim runs as a decoder feed")),
                ),
            ),
            None => None,
        };
    }
    match m.pipe {
        PipeKind::Extern => match choose_extern(dev.kind, mode, tools) {
            Some(t) => Some(make_extern(mode, dev, cfg, tools, freq_hz, gain_tenths, deck, t, None)),
            None => None,
        },
        PipeKind::Iq(demod) => {
            let (src_t0, format, rate) = iq_source(dev.kind);
            let src_t = match override_of(cfg, dev, "iq_source") {
                Some(t) => t,
                None => String::from_str(src_t0),
            };
            let decoder_t: Option<String> = match find_key(&cfg.decoders, m.key) {
                Some(i) => Some(cfg.decoders[i].1.clone()),
                None => match m.decoder {
                    Some(d) => Some(String::from_str(d)),
                    None => None,
                },
            };
            let mut missing = tools.missing_for(src_t.as_str());
            let ghost m0 = string_views(missing@);
            match &decoder_t {
                Some(d) => {
                    let more = tools.missing_for(d.as_str());
                    let mut k: usize = 0;
                    while k < more.len()
                        invariant
                            k <= more@.len(),
                            string_views(missing@) == m0 + string_views(more@).take(k as int),
                        decreases more.len() - k,
                    {
                        assert(string_views(more@).take(k + 1) == string_views(more@).take(
                            k as int,
                        ).push(more@[k as int]@));
                        let b = more[k].clone();
                        assert(string_views(missing@.push(b)) == string_views(missing@).push(b@));
                        missing.push(b);
                        k += 1;
                    }
                    assert(string_views(more@).take(more@.len() as int) == string_views(more@));
                },
                None => {
                    assert(m0 + Seq::<Seq<char>>::empty() == m0);
                },
            }
            assert(string_views(missing@) == iq_missing(*cfg, *dev, mode, tools.found@));
            if dev.kind == SdrKind::Sim && missing.len() > 0 {
                let mut note = chars_of("simulating decoder output (");
                let names = join_strs(&missing, ", ");
                push_all(&mut note, &names);
                push_str(&mut note, " not installed)");
                return Some(
                    make_extern(
                        mode,
                        dev,
                        cfg,
                        tools,
                        freq_hz,
                        gain_tenths,
                        deck,
                        sim_lines_of(m.key),
                        Some(string_of(&note)),
                    ),
                );
            }
            let center = center_for(dev, freq_hz, rate);
            let note = if in_band(center, rate, freq_hz) {
                None
            } else {
                Some(String::from_str("tuned frequency outside device band"))
            };
            let v = make_vars(mode, dev, cfg, freq_hz, center, rate, gain_tenths);
            Some(
                Resolved {
                    plan: Plan::Iq {
                        source_cmdline: render_template(src_t.as_str(), &v, deck),
                        format,
                        rate,
                        center_hz: center,
                        demod,
                        decoder_cmd: decoder_t,
                        decoder_rate: m.decoder_rate,
                        decoder_char_mode: mode == ModeId::Rtty,
                        audio_out: m.audio_out,
                    },
                    missing,
                    note,
                },
            )
        },
    }
}

} // verus!
