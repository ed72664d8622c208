//! Session stores that outlive single lines: capped newest-first
//! histories, the waterfall row buffer and the live digital-voice call;
//! the autorecord decisions and the comment recordings carry.
//! Time is milliseconds on a monotonic clock supplied by the caller.

use vstd::prelude::*;
use std::collections::VecDeque;
use crate::parse::dsd::{call_is_empty, merged, CallFields, CallView};
use crate::freq::{fmt_short, spec_fmt_short};
use crate::modes::{mode_def, spec_mode_def, Demod, ModeId, ViewKind};
use crate::config::Config;
use crate::device::{in_ranges, spec_kind_label, spec_ranges, SdrDevice};
use crate::pipeline::{
    busy_text, in_band, lemma_iq_center_bound, looks_like_device_busy, resolve, LineSrc, spec_in_band, spec_resolve, string_views, Plan, PlanView, Resolved,
    ResolvedView, ToolReport,
};
use crate::text::{dec_chars, dec_str, join, join_strs, lower_seq, push_all, push_str, string_of};

verus! {

/// `x` in front of `s`, then only the newest `cap` kept.
pub open spec fn capped_front<T>(s: Seq<T>, x: T, cap: nat) -> Seq<T> {
    let t = seq![x] + s;
    if t.len() > cap {
        t.take(cap as int)
    } else {
        t
    }
}

/// Push `x` as the newest entry and drop the oldest beyond `cap`.
pub fn push_capped<T>(q: &mut VecDeque<T>, x: T, cap: usize)
    requires
        old(q)@.len() <= cap,
    ensures
        final(q)@ == capped_front(old(q)@, x, cap as nat),
{
    let ghost t = seq![x] + old(q)@;
    q.push_front(x);
    while q.len() > cap
        invariant
            q@ == t.take(q@.len() as int),
            q@.len() <= t.len(),
            q@.len() == t.len() || q@.len() >= cap,
            t.len() == old(q)@.len() + 1,
            old(q)@.len() <= cap,
        decreases q@.len(),
    {
        q.pop_back();
    }
    assert(t.len() <= cap ==> q@ == t.take(t.len() as int));
    assert(t.take(t.len() as int) == t);
}

/// Newest-first rows of a scrolling waterfall, at most `cap` of them.
pub struct WaterfallBuf {
    pub rows: VecDeque<Vec<u8>>,
    pub width: usize,
    pub cap: usize,
    /// bumped on every push — cheap change detection for texture uploads
    pub rev: u64,
}

impl WaterfallBuf {
    pub fn new(cap: usize) -> (w: Self)
        ensures
            w.rows@.len() == 0,
            w.width == 0,
            w.cap == cap,
            w.rev == 0,
    {
        WaterfallBuf { rows: VecDeque::new(), width: 0, cap, rev: 0 }
    }

    /// Add a row of intensities (0..=255) as the newest.
    pub fn push_row(&mut self, row: Vec<u8>)
        requires
            old(self).rows@.len() <= old(self).cap,
        ensures
            final(self).rows@ == capped_front(old(self).rows@, row, old(self).cap as nat),
            final(self).width == row@.len(),
            final(self).cap == old(self).cap,
            final(self).rev == old(self).rev.wrapping_add(1),
    {
        self.width = row.len();
        self.rev = self.rev.wrapping_add(1);
        let cap = self.cap;
        push_capped(&mut self.rows, row, cap);
    }
}

/// A digital-voice call in progress.
pub struct LiveCall {
    pub fields: CallFields,
    /// ms when the call was first heard
    pub started: u64,
    /// ms when the call was last heard
    pub last: u64,
}

/// How long a call may stay silent before it counts as over, ms.
pub const CALL_TIMEOUT_MS: u64 = 2500;

/// A decoder line's fields reach the live call: nothing when the line had
/// none, else they extend the call in progress or start one. Says whether
/// the line counted as decoded.
pub fn feed_call(call: &mut Option<LiveCall>, fields: CallFields, now: u64) -> (decoded: bool)
    ensures
        decoded == !call_is_empty(fields@),
        !decoded ==> match (*old(call), *final(call)) {
            (Some(a), Some(b)) => a.fields@ == b.fields@ && a.started == b.started && a.last == b.last,
            (None, None) => true,
            _ => false,
        },
        decoded ==> match *old(call) {
            Some(a) => match *final(call) {
                Some(b) => b.fields@ == merged(a.fields@, fields@) && b.started == a.started && b.last == now,
                None => false,
            },
            None => match *final(call) {
                Some(b) => b.fields@ == fields@ && b.started == now && b.last == now,
                None => false,
            },
        },
{
    if fields.is_empty() {
        return false;
    }
    match call.take() {
        Some(mut c) => {
            c.fields.merge(fields);
            c.last = now;
            *call = Some(c);
        },
        None => {
            *call = Some(LiveCall { fields, started: now, last: now });
        },
    }
    true
}

/// Close the call once it has been silent longer than the timeout: its
/// fields and how long it lasted (ms).
pub fn expire_call(call: &mut Option<LiveCall>, now: u64) -> (ended: Option<(CallFields, u64)>)
    ensures
        match *old(call) {
            Some(a) => if (if now >= a.last { now - a.last } else { 0 }) > CALL_TIMEOUT_MS {
                &&& (*final(call)) is None
                &&& ended matches Some((f, d)) && f@ == a.fields@ && d == (if a.last >= a.started {
                    a.last - a.started
                } else {
                    0
                })
            } else {
                &&& ended is None
                &&& (*final(call)) matches Some(b) && b.fields@ == a.fields@ && b.started == a.started
                    && b.last == a.last
            },
            None => ended is None && (*final(call)) is None,
        },
{
    match call.take() {
        Some(c) => {
            if now.saturating_sub(c.last) > CALL_TIMEOUT_MS {
                let d = c.last.saturating_sub(c.started);
                Some((c.fields, d))
            } else {
                *call = Some(c);
                None
            }
        },
        None => None,
    }
}

// ------------------------------------------------------------- recording

/// `tag` and the value, when there is one.
pub open spec fn tagged(tag: Seq<char>, v: Option<Seq<char>>) -> Seq<char> {
    match v {
        Some(x) => tag + x,
        None => Seq::empty(),
    }
}

/// The comment a recording carries: mode, frequency, the local time
/// `stamp`, then the fields of the call in progress, if any.
pub open spec fn spec_rec_meta(label: Seq<char>, freq_hz: u64, stamp: Seq<char>, call: Option<CallView>) -> Seq<char> {
    let head = "deck "@ + label + " "@ + spec_fmt_short(freq_hz) + " "@ + stamp;
    match call {
        Some(c) => head + tagged(" SRC="@, c.src) + tagged(" DST="@, c.dst) + tagged(" TG="@, c.tg) + (
        match c.slot {
            Some(v) => " SLOT="@ + dec_str(v as nat),
            None => Seq::empty(),
        }) + tagged(" CC="@, c.cc),
        None => head,
    }
}

fn push_tagged(out: &mut Vec<char>, tag: &str, v: &Option<String>)
    ensures
        final(out)@ == old(out)@ + tagged(tag@, crate::parse::dsd::opt_str(*v)),
{
    match v {
        Some(x) => {
            push_str(out, tag);
            push_str(out, x.as_str());
        },
        None => {
            assert(old(out)@ + Seq::<char>::empty() =~= old(out)@);
        },
    }
}

/// The recording comment for `mode` at `freq_hz`, stamped `stamp` (the
/// local time as `YYYY-MM-DD HH:MM`), with the live call's fields.
pub fn rec_meta(mode: ModeId, freq_hz: u64, stamp: &str, call: &Option<LiveCall>) -> (m: String)
    ensures
        m@ == spec_rec_meta(
            spec_mode_def(mode).label@,
            freq_hz,
            stamp@,
            match *call {
                Some(c) => Some(c.fields@),
                None => None,
            },
        ),
{
    let def = mode_def(mode);
    let mut out: Vec<char> = Vec::new();
    push_str(&mut out, "deck ");
    push_str(&mut out, def.label);
    push_str(&mut out, " ");
    let f = fmt_short(freq_hz);
    push_str(&mut out, f.as_str());
    push_str(&mut out, " ");
    push_str(&mut out, stamp);
    let ghost head = out@;
    match call {
        Some(c) => {
            let fl = &c.fields;
            push_tagged(&mut out, " SRC=", &fl.src);
            push_tagged(&mut out, " DST=", &fl.dst);
            push_tagged(&mut out, " TG=", &fl.tg);
            let ghost before_slot = out@;
            match fl.slot {
                Some(v) => {
                    push_str(&mut out, " SLOT=");
                    let d = dec_chars(v as u64);
                    push_all(&mut out, &d);
                },
                None => {},
            }
            assert(out@ == before_slot + match fl.slot {
                Some(v) => " SLOT="@ + dec_str(v as nat),
                None => Seq::<char>::empty(),
            });
            push_tagged(&mut out, " CC=", &fl.cc);
        },
        None => {},
    }
    string_of(&out)
}

/// What the recorder is told to do.
#[derive(Clone, Copy, Debug, PartialEq, Eq, Structural)]
pub enum RecAction {
    Keep,
    Start,
    Stop,
}

/// Autorecord's own state: whether it started the recording in progress,
/// and when signal was last heard (ms).
pub struct AutoRec {
    pub active: bool,
    pub last_signal: u64,
}

/// How long autorecord keeps recording after the signal goes, ms.
pub const AUTOREC_HANG_MS: u64 = 2500;

/// One autorecord decision at `now`. `running`: a mode is running;
/// `enabled`: autorecord is on; `is_iq`: the mode runs deck's own
/// receiver (external pipelines are not recordable); `signal`: something
/// is heard; `recording`: a recording is in progress.
pub fn autorecord_step(
    a: &mut AutoRec,
    running: bool,
    enabled: bool,
    is_iq: bool,
    signal: bool,
    recording: bool,
    now: u64,
) -> (act: RecAction)
    ensures
        !running ==> act == RecAction::Keep && !final(a).active && final(a).last_signal == old(
            a,
        ).last_signal,
        running && !enabled ==> act == (if old(a).active {
            RecAction::Stop
        } else {
            RecAction::Keep
        }) && !final(a).active && final(a).last_signal == old(a).last_signal,
        running && enabled && !is_iq ==> act == RecAction::Keep && final(a).active == old(a).active
            && final(a).last_signal == old(a).last_signal,
        running && enabled && is_iq ==> {
            let last = if signal {
                now
            } else {
                old(a).last_signal
            };
            let quiet = if now >= last {
                now - last
            } else {
                0
            };
            &&& final(a).last_signal == last
            &&& if signal && !recording {
                act == RecAction::Start && final(a).active
            } else if old(a).active && recording && !signal && quiet > AUTOREC_HANG_MS {
                act == RecAction::Stop && !final(a).active
            } else {
                act == RecAction::Keep && final(a).active == old(a).active
            }
        },
{
    if !running {
        a.active = false;
        return RecAction::Keep;
    }
    if !enabled {
        if a.active {
            a.active = false;
            return RecAction::Stop;
        }
        return RecAction::Keep;
    }
    if !is_iq {
        return RecAction::Keep;
    }
    if signal {
        a.last_signal = now;
    }
    if signal && !recording {
        a.active = true;
        RecAction::Start
    } else if a.active && recording && !signal && now.saturating_sub(a.last_signal) > AUTOREC_HANG_MS {
        a.active = false;
        RecAction::Stop
    } else {
        RecAction::Keep
    }
}

// ---------------------------------------------------------------- start

/// The frequency a mode starts on: the one saved for it, or the mode's
/// default when none was saved (zero).
pub open spec fn start_freq(mode: ModeId, saved_hz: u64) -> u64 {
    if saved_hz == 0 {
        spec_mode_def(mode).default_hz
    } else {
        saved_hz
    }
}

/// Starting `mode` on `dev`: the frequency and the resolved plan, or the
/// message saying why it cannot start (no plan for the device, tools
/// missing, or a deck-run receiver asked for a frequency the device cannot
/// tune).
pub open spec fn spec_prepare_start(
    mode: ModeId,
    dev: SdrDevice,
    cfg: Config,
    found: Seq<(String, bool)>,
    saved_hz: u64,
    gain_tenths: i32,
    deck: Seq<char>,
) -> Result<(u64, ResolvedView), Seq<char>> {
    let f = start_freq(mode, saved_hz);
    let dl = spec_kind_label(dev.kind)@;
    match spec_resolve(mode, dev, cfg, found, f, gain_tenths, deck) {
        None => Err(spec_mode_def(mode).label@ + " is not supported on "@ + dl),
        Some(r) => if r.missing.len() > 0 {
            Err("missing tools: "@ + join(r.missing, ", "@))
        } else if !in_ranges(spec_ranges(dev.kind), f) && !(r.plan is Extern) {
            Err(spec_fmt_short(f) + " is outside "@ + dl + "'s tuning range"@)
        } else {
            Ok((f, r))
        },
    }
}

/// Everything `start` decides before it spawns anything: see
/// `spec_prepare_start`.
pub fn prepare_start(
    mode: ModeId,
    dev: &SdrDevice,
    cfg: &Config,
    tools: &ToolReport,
    saved_hz: u64,
    gain_tenths: i32,
    deck: &str,
) -> (r: Result<(u64, Resolved), String>)
    requires
        start_freq(mode, saved_hz) <= i64::MAX - u32::MAX,
    ensures
        match (r, spec_prepare_start(mode, *dev, *cfg, tools.found@, saved_hz, gain_tenths, deck@)) {
            (Ok((f, x)), Ok((g, y))) => f == g && x@ == y,
            (Err(e), Err(m)) => e@ == m,
            _ => false,
        },
{
    let def = mode_def(mode);
    let freq = if saved_hz == 0 {
        def.default_hz
    } else {
        saved_hz
    };
    let dl = dev.kind.label();
    match resolve(mode, dev, cfg, tools, freq, gain_tenths, deck) {
        None => {
            let mut m: Vec<char> = Vec::new();
            push_str(&mut m, def.label);
            push_str(&mut m, " is not supported on ");
            push_str(&mut m, dl);
            Err(string_of(&m))
        },
        Some(res) => {
            if res.missing.len() > 0 {
                let mut m: Vec<char> = Vec::new();
                push_str(&mut m, "missing tools: ");
                let j = join_strs(&res.missing, ", ");
                assert(res.missing@.map_values(|x: String| x@) == string_views(res.missing@));
                push_all(&mut m, &j);
                return Err(string_of(&m));
            }
            let is_extern = match res.plan {
                Plan::Extern { .. } => true,
                _ => false,
            };
            if !dev.freq_ok(freq) && !is_extern {
                let mut m: Vec<char> = Vec::new();
                let fs = fmt_short(freq);
                push_str(&mut m, fs.as_str());
                push_str(&mut m, " is outside ");
                push_str(&mut m, dl);
                push_str(&mut m, "'s tuning range");
                return Err(string_of(&m));
            }
            Ok((freq, res))
        },
    }
}

/// How a deck-run receiver routes its audio.
pub struct AudioRoute {
    /// the monitor switch means something for this mode
    pub monitorable: bool,
    /// audio is played (not muted)
    pub play: bool,
    /// an audio sink is wanted at all
    pub wants_audio: bool,
}

/// Audio routing for a deck-run receiver. Voice decoders' decoded audio is
/// always played; otherwise audio plays for audio modes or when monitoring
/// is on, and monitoring only applies to non-voice decoders.
pub fn audio_route(
    mode: ModeId,
    demod: Demod,
    audio_out: bool,
    has_decoder: bool,
    decoder_audio: bool,
    monitor: bool,
) -> (r: AudioRoute)
    ensures
        r.monitorable == (audio_out || (has_decoder && !decoder_audio)),
        r.play == (decoder_audio || audio_out || monitor),
        r.wants_audio == (demod != Demod::Raw && (audio_out || has_decoder || mode == ModeId::Scanner)),
{
    let monitorable = audio_out || (has_decoder && !decoder_audio);
    let play = if decoder_audio {
        true
    } else {
        audio_out || monitor
    };
    let wants_audio = demod != Demod::Raw && (audio_out || has_decoder || mode == ModeId::Scanner);
    AudioRoute { monitorable, play, wants_audio }
}

// ---------------------------------------------------------------- retune

/// What a retune of a running deck receiver does.
pub enum Retune {
    /// the frequency is inside the band already received: only the
    /// receiver's offset from the center changes
    Offset { offset_hz: i64 },
    /// the device moves: its new center, the command that restarts the IQ
    /// source there, and the offset from that center
    Recenter { center_hz: u64, source_cmdline: String, offset_hz: i64 },
}

pub enum RetuneView {
    Offset { offset_hz: int },
    Recenter { center_hz: u64, source_cmdline: Seq<char>, offset_hz: int },
}

impl View for Retune {
    type V = RetuneView;

    open spec fn view(&self) -> RetuneView {
        match self {
            Retune::Offset { offset_hz } => RetuneView::Offset { offset_hz: *offset_hz as int },
            Retune::Recenter { center_hz, source_cmdline, offset_hz } => RetuneView::Recenter {
                center_hz: *center_hz,
                source_cmdline: source_cmdline@,
                offset_hz: *offset_hz as int,
            },
        }
    }
}

/// Retuning the running `mode` to `freq` on `dev`: external pipelines
/// cannot retune; the device must reach the frequency; within the band
/// around `center_hz` only the offset moves, else the plan is resolved
/// again (with the configured gain) and the device recenters.
pub open spec fn spec_plan_retune(
    mode: ModeId,
    dev: SdrDevice,
    cfg: Config,
    found: Seq<(String, bool)>,
    is_extern: bool,
    center_hz: u64,
    rate: u32,
    freq: u64,
    deck: Seq<char>,
) -> Result<RetuneView, Seq<char>> {
    if is_extern {
        Err("stop and restart to change ADS-B tuning"@)
    } else if !in_ranges(spec_ranges(dev.kind), freq) {
        Err(spec_fmt_short(freq) + " is outside "@ + spec_kind_label(dev.kind)@ + "'s range"@)
    } else if spec_in_band(center_hz, rate, freq) {
        Ok(RetuneView::Offset { offset_hz: freq - center_hz })
    } else {
        match spec_resolve(mode, dev, cfg, found, freq, cfg.sdr.gain_tenths, deck) {
            None => Err("mode unsupported"@),
            Some(r) => match r.plan {
                PlanView::Iq { source_cmdline, center_hz: c, .. } => Ok(
                    RetuneView::Recenter { center_hz: c, source_cmdline, offset_hz: freq - c },
                ),
                _ => Err("plan changed shape"@),
            },
        }
    }
}

pub fn plan_retune(
    mode: ModeId,
    dev: &SdrDevice,
    cfg: &Config,
    tools: &ToolReport,
    is_extern: bool,
    center_hz: u64,
    rate: u32,
    freq: u64,
    deck: &str,
) -> (r: Result<Retune, String>)
    requires
        center_hz <= i64::MAX,
        freq <= i64::MAX - u32::MAX,
    ensures
        match (r, spec_plan_retune(mode, *dev, *cfg, tools.found@, is_extern, center_hz, rate, freq, deck@)) {
            (Ok(x), Ok(y)) => x@ == y,
            (Err(e), Err(m)) => e@ == m,
            _ => false,
        },
{
    if is_extern {
        return Err(String::from_str("stop and restart to change ADS-B tuning"));
    }
    if !dev.freq_ok(freq) {
        let mut m: Vec<char> = Vec::new();
        let fs = fmt_short(freq);
        push_str(&mut m, fs.as_str());
        push_str(&mut m, " is outside ");
        push_str(&mut m, dev.kind.label());
        push_str(&mut m, "'s range");
        return Err(string_of(&m));
    }
    if in_band(center_hz, rate, freq) {
        return Ok(Retune::Offset { offset_hz: freq as i64 - center_hz as i64 });
    }
    proof {
        lemma_iq_center_bound(mode, *dev, *cfg, tools.found@, freq, cfg.sdr.gain_tenths, deck@);
    }
    match resolve(mode, dev, cfg, tools, freq, cfg.sdr.gain_tenths, deck) {
        None => Err(String::from_str("mode unsupported")),
        Some(res) => match res.plan {
            Plan::Iq { source_cmdline, center_hz: c, .. } => {
                Ok(Retune::Recenter { center_hz: c, source_cmdline, offset_hz: freq as i64 - c as i64 })
            },
            _ => Err(String::from_str("plan changed shape")),
        },
    }
}

// ------------------------------------------------------------- events

/// Where a decoder line goes, by the view of the running mode.
#[derive(Clone, Copy, PartialEq, Eq, Debug, Structural)]
pub enum LineRoute {
    /// multimon-ng POCSAG parser, into the pager history
    Pager,
    /// APRS parser, into the APRS history
    Aprs,
    /// SBS parser, into the aircraft table
    Adsb,
    /// AIVDM parser
    Ais,
    /// appended to the text feed
    TextFeed,
    /// dsd call fields, into the live call
    Voice,
    /// only kept in the raw log
    RawOnly,
}

/// What one decoder line does: whether it reports a busy device, and where
/// it is parsed (every line also goes to the raw log).
#[derive(Clone, Copy, PartialEq, Eq, Debug, Structural)]
pub struct LineAction {
    pub device_busy: bool,
    pub route: LineRoute,
}

pub open spec fn spec_route_line(mode: ModeId, src: LineSrc, text: Seq<char>) -> LineAction {
    let not_err = src != LineSrc::Stderr;
    LineAction {
        device_busy: src == LineSrc::Stderr && busy_text(lower_seq(text)),
        route: match spec_mode_def(mode).view {
            ViewKind::Pager => if not_err { LineRoute::Pager } else { LineRoute::RawOnly },
            ViewKind::Aprs => if not_err { LineRoute::Aprs } else { LineRoute::RawOnly },
            ViewKind::Adsb => if not_err { LineRoute::Adsb } else { LineRoute::RawOnly },
            ViewKind::Ais => if not_err { LineRoute::Ais } else { LineRoute::RawOnly },
            ViewKind::TextFeed => if src == LineSrc::Stdout { LineRoute::TextFeed } else { LineRoute::RawOnly },
            // dsd-neo prints its call info on stderr: both streams count
            ViewKind::Voice => if src != LineSrc::Sbs { LineRoute::Voice } else { LineRoute::RawOnly },
            _ => LineRoute::RawOnly,
        },
    }
}

/// Route one line of the running `mode`'s pipeline.
pub fn route_line(mode: ModeId, src: LineSrc, text: &str) -> (r: LineAction)
    ensures
        r == spec_route_line(mode, src, text@),
{
    let busy = src == LineSrc::Stderr && looks_like_device_busy(text);
    let not_err = src != LineSrc::Stderr;
    let route = match mode_def(mode).view {
        ViewKind::Pager => if not_err { LineRoute::Pager } else { LineRoute::RawOnly },
        ViewKind::Aprs => if not_err { LineRoute::Aprs } else { LineRoute::RawOnly },
        ViewKind::Adsb => if not_err { LineRoute::Adsb } else { LineRoute::RawOnly },
        ViewKind::Ais => if not_err { LineRoute::Ais } else { LineRoute::RawOnly },
        ViewKind::TextFeed => if src == LineSrc::Stdout { LineRoute::TextFeed } else { LineRoute::RawOnly },
        ViewKind::Voice => if src != LineSrc::Sbs { LineRoute::Voice } else { LineRoute::RawOnly },
        _ => LineRoute::RawOnly,
    };
    LineAction { device_busy: busy, route }
}

/// An event from a pipeline run, without its float payloads.
pub enum RunEvent {
    Line { run: u64, src: LineSrc, text: String },
    /// demodulated-audio levels and spectrum
    Audio { run: u64 },
    /// an IQ spectrum row
    Iq { run: u64 },
    SbsStatus { run: u64 },
    /// recording started (true) or stopped (false)
    Rec { run: u64, started: bool },
    /// a rig-control client asked for this frequency
    RigTune { run: u64, hz: u64 },
}

pub open spec fn event_run(ev: RunEvent) -> u64 {
    match ev {
        RunEvent::Line { run, .. } => run,
        RunEvent::Audio { run } => run,
        RunEvent::Iq { run } => run,
        RunEvent::SbsStatus { run } => run,
        RunEvent::Rec { run, .. } => run,
        RunEvent::RigTune { run, .. } => run,
    }
}

/// What the session does with an event.
#[derive(Clone, Copy, PartialEq, Eq, Debug, Structural)]
pub enum EventAction {
    /// nothing runs, or the event is from an earlier run: dropped
    Ignore,
    Line(LineAction),
    /// store the audio levels and spectrum (and its waterfall row)
    Audio,
    /// store the IQ spectrum row; `peaks` when the waterfall tracks peaks
    Iq { peaks: bool },
    SbsNote,
    /// recording state: `Some(true)` started, `Some(false)` stopped
    Rec(bool),
    Retune(u64),
}

pub open spec fn spec_event_step(running: Option<(u64, ModeId)>, ev: RunEvent) -> EventAction {
    match running {
        None => EventAction::Ignore,
        Some((run, mode)) => if event_run(ev) != run {
            EventAction::Ignore
        } else {
            match ev {
                RunEvent::Line { src, text, .. } => EventAction::Line(spec_route_line(mode, src, text@)),
                RunEvent::Audio { .. } => EventAction::Audio,
                RunEvent::Iq { .. } => EventAction::Iq { peaks: mode == ModeId::Waterfall },
                RunEvent::SbsStatus { .. } => EventAction::SbsNote,
                RunEvent::Rec { started, .. } => EventAction::Rec(started),
                RunEvent::RigTune { hz, .. } => EventAction::Retune(hz),
            }
        },
    }
}

/// The session's handling of one pipeline event: `running` is the current
/// run's id and mode, if any. Events of any other run leave the session
/// as it is.
pub fn event_step(running: Option<(u64, ModeId)>, ev: &RunEvent) -> (a: EventAction)
    ensures
        a == spec_event_step(running, *ev),
        (running matches Some((run, _)) ==> event_run(*ev) != run) ==> a == EventAction::Ignore,
        running is None ==> a == EventAction::Ignore,
{
    match running {
        None => EventAction::Ignore,
        Some((run, mode)) => {
            let er = match ev {
                RunEvent::Line { run, .. } => *run,
                RunEvent::Audio { run } => *run,
                RunEvent::Iq { run } => *run,
                RunEvent::SbsStatus { run } => *run,
                RunEvent::Rec { run, .. } => *run,
                RunEvent::RigTune { run, .. } => *run,
            };
            if er != run {
                return EventAction::Ignore;
            }
            match ev {
                RunEvent::Line { src, text, .. } => EventAction::Line(route_line(mode, *src, text.as_str())),
                RunEvent::Audio { .. } => EventAction::Audio,
                RunEvent::Iq { .. } => EventAction::Iq { peaks: mode == ModeId::Waterfall },
                RunEvent::SbsStatus { .. } => EventAction::SbsNote,
                RunEvent::Rec { started, .. } => EventAction::Rec(*started),
                RunEvent::RigTune { hz, .. } => EventAction::Retune(*hz),
            }
        },
    }
}

} // verus!
