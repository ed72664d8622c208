//! The receive engine's plan: what a session's IQ run needs to start, and
//! which command plays its audio.

use vstd::prelude::*;
use crate::config::Config;
use crate::modes::Demod;
use crate::pipeline::{spec_has, IqFormat, ToolReport};
use crate::text::{chars_of, replace_all, replace_str, seq_eq, string_of};

verus! {

/// Everything the receive engine needs to start a run.
#[derive(Clone, Debug)]
pub struct EngineParams {
    pub run: u64,
    pub source_cmdline: String,
    pub format: IqFormat,
    pub rate: u32,
    pub demod: Demod,
    pub decoder_cmd: Option<String>,
    pub decoder_rate: u32,
    pub decoder_char_mode: bool,
    pub sink_cmd: Option<String>,
    /// the decoder writes decoded audio to stdout: deck plays and records
    /// it, and the IQ pump only feeds the decoder
    pub decoder_audio: bool,
}

pub const PAPLAY_SINK: &'static str = "paplay --raw --rate={rate} --format=s16le --channels=1";

pub const PWCAT_SINK: &'static str = "pw-cat -p --rate {rate} --channels 1 --format s16 -";

pub const APLAY_SINK: &'static str = "aplay -q -t raw -f S16_LE -r {rate} -c 1 -";

/// The sink template: the configured one, or with "auto" the first player
/// found of paplay, pw-cat, aplay (none: no sink).
pub open spec fn sink_template(cfg: Config, found: Seq<(String, bool)>) -> Option<Seq<char>> {
    if cfg.audio.sink@ == "auto"@ {
        if spec_has(found, "paplay"@) {
            Some(PAPLAY_SINK@)
        } else if spec_has(found, "pw-cat"@) {
            Some(PWCAT_SINK@)
        } else if spec_has(found, "aplay"@) {
            Some(APLAY_SINK@)
        } else {
            None
        }
    } else {
        Some(cfg.audio.sink@)
    }
}

/// The audio sink command for 48 kHz s16le mono.
pub fn resolve_sink(cfg: &Config, tools: &ToolReport) -> (r: Option<String>)
    ensures
        r matches Some(s) ==> sink_template(*cfg, tools.found@) matches Some(t) && s@ == replace_all(
            t,
            "{rate}"@,
            "48000"@,
        ),
        r is None ==> sink_template(*cfg, tools.found@) is None,
{
    let sink = chars_of(cfg.audio.sink.as_str());
    let t: &str = if seq_eq(&sink, &chars_of("auto")) {
        if tools.has("paplay") {
            PAPLAY_SINK
        } else if tools.has("pw-cat") {
            PWCAT_SINK
        } else if tools.has("aplay") {
            APLAY_SINK
        } else {
            return None;
        }
    } else {
        cfg.audio.sink.as_str()
    };
    proof {
        reveal_strlit("{rate}");
    }
    let out = replace_str(&chars_of(t), "{rate}", &chars_of("48000"));
    Some(string_of(&out))
}

} // verus!
