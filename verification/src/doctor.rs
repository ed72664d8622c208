//! The environment report's verdicts: how a mode would run on a device,
//! what is missing and why, and whether the host is set up for USB SDRs.

use vstd::prelude::*;
use crate::modes::Demod;
use crate::pipeline::{PlanView, Plan, Resolved, ResolvedView};
use crate::text::{
    chars_of, contains, contains_str, join, join_strs, next_token, push_all, push_str, slice, string_of, tokens,
};

verus! {

pub open spec fn demod_name(d: Demod) -> Seq<char> {
    match d {
        Demod::Nfm => "Nfm"@,
        Demod::Wfm => "Wfm"@,
        Demod::Am => "Am"@,
        Demod::Usb => "Usb"@,
        Demod::Lsb => "Lsb"@,
        Demod::Raw => "Raw"@,
    }
}

fn demod_name_of(d: Demod) -> (s: &'static str)
    ensures
        s@ == demod_name(d),
{
    match d {
        Demod::Nfm => "Nfm",
        Demod::Wfm => "Wfm",
        Demod::Am => "Am",
        Demod::Usb => "Usb",
        Demod::Lsb => "Lsb",
        Demod::Raw => "Raw",
    }
}

/// The first word of a command line, or `dflt` when it has none.
pub open spec fn first_word_or(s: Seq<char>, dflt: Seq<char>) -> Seq<char> {
    if tokens(s).len() > 0 {
        tokens(s)[0]
    } else {
        dflt
    }
}

fn first_word_or_of(s: &str, dflt: &str) -> (r: Vec<char>)
    ensures
        r@ == first_word_or(s@, dflt@),
{
    let v = chars_of(s);
    match next_token(&v, 0) {
        Some((a, b)) => slice(&v, a, b),
        None => chars_of(dflt),
    }
}

/// What runs: `iq/<Demod>[ → <decoder binary>]` or `extern: <binary>`.
pub open spec fn plan_text(p: PlanView) -> Seq<char> {
    match p {
        PlanView::Iq { demod, decoder_cmd, .. } => "iq/"@ + demod_name(demod) + match decoder_cmd {
            Some(c) => " → "@ + first_word_or(c, "decoder"@),
            None => seq![],
        },
        PlanView::Extern { cmdline, .. } => "extern: "@ + first_word_or(cmdline, "?"@),
    }
}

/// One line of the mode-support matrix (without the mode's label): the
/// plan, then missing tools, an out-of-range default frequency and the
/// plan's note.
pub open spec fn spec_support_line(r: Option<ResolvedView>, range_ok: bool) -> Seq<char> {
    match r {
        None => "unsupported on this device"@,
        Some(v) => plan_text(v.plan) + (if v.missing.len() > 0 {
            "  MISSING: "@ + join(v.missing, ", "@)
        } else {
            seq![]
        }) + (if !range_ok {
            "  (default freq out of range)"@
        } else {
            seq![]
        }) + match v.note {
            Some(n) => "  ["@ + n + "]"@,
            None => seq![],
        },
    }
}

pub fn support_line(r: &Option<Resolved>, range_ok: bool) -> (s: String)
    ensures
        s@ == spec_support_line(
            match r {
                Some(x) => Some(x@),
                None => None,
            },
            range_ok,
        ),
{
    match r {
        None => String::from_str("unsupported on this device"),
        Some(x) => {
            let mut v: Vec<char> = match &x.plan {
                Plan::Iq { demod, decoder_cmd, .. } => {
                    let mut t = chars_of("iq/");
                    push_str(&mut t, demod_name_of(*demod));
                    match decoder_cmd {
                        Some(c) => {
                            push_str(&mut t, " → ");
                            push_all(&mut t, &first_word_or_of(c.as_str(), "decoder"));
                        },
                        None => {},
                    }
                    t
                },
                Plan::Extern { cmdline, .. } => {
                    let mut t = chars_of("extern: ");
                    push_all(&mut t, &first_word_or_of(cmdline.as_str(), "?"));
                    t
                },
            };
            assert(v@ == plan_text(x.plan@));
            if x.missing.len() > 0 {
                push_str(&mut v, "  MISSING: ");
                push_all(&mut v, &join_strs(&x.missing, ", "));
            }
            if !range_ok {
                push_str(&mut v, "  (default freq out of range)");
            }
            match &x.note {
                Some(n) => {
                    push_str(&mut v, "  [");
                    push_str(&mut v, n.as_str());
                    push_str(&mut v, "]");
                },
                None => {},
            }
            string_of(&v)
        },
    }
}

/// A udev rules file grants SDR access when it names the RTL2832 (its
/// product id `2832`) or RTL dongles.
pub fn udev_rules_mention_sdr(rules: &str) -> (b: bool)
    ensures
        b == (contains(rules@, "2832"@) || contains(rules@, "rtl"@) || contains(rules@, "RTL"@)),
{
    let v = chars_of(rules);
    contains_str(&v, "2832") || contains_str(&v, "rtl") || contains_str(&v, "RTL")
}

/// The kernel's DVB driver, which grabs RTL dongles, is loaded
/// (`/proc/modules` text).
pub fn dvb_driver_loaded(modules: &str) -> (b: bool)
    ensures
        b == contains(modules@, "dvb_usb_rtl28xxu"@),
{
    contains_str(&chars_of(modules), "dvb_usb_rtl28xxu")
}

} // verus!
