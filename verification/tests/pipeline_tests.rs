use deck::config::Config;
use deck::device::{SdrDevice, SdrKind};
use deck::modes::{Demod, ModeId};
use deck::session::{audio_route, plan_retune, prepare_start, Retune};
use deck::pipeline::{
    center_for, in_band, looks_like_device_busy, render_template, requires_of, resolve, strip_ansi,
    tune_offset, Plan, TemplateVars, ToolReport,
};

fn rtl() -> SdrDevice {
    SdrDevice {
        kind: SdrKind::RtlSdr,
        index: 0,
        product: "test".into(),
        serial: None,
        usb_path: String::new(),
    }
}

#[test]
fn template_render() {
    let v = TemplateVars {
        device: 0,
        freq_hz: 145_800_000,
        center_hz: 146_400_000,
        gain_tenths: 328,
        ppm: 1,
        rate: 2_400_000,
        sbs_port: 30003,
        profile: "nfm".into(),
    };
    let s = render_template("rtl_sdr -d {device} -f {center_hz} -g {gain} ({freq_mhz})", &v, "deck");
    assert_eq!(s, "rtl_sdr -d 0 -f 146400000 -g 32.8 (145.800000)");
}

#[test]
fn template_fills_every_placeholder() {
    let v = TemplateVars {
        device: 2,
        freq_hz: 446_006_250,
        center_hz: 446_606_250,
        gain_tenths: -15,
        ppm: -3,
        rate: 768_000,
        sbs_port: 30005,
        profile: "pmr".into(),
    };
    let s = render_template(
        "{deck} {freq_khz} {gain_int} {gain} {ppm} {rate} {sbs_port} {profile} {center_mhz} {unknown}",
        &v,
        "/usr/bin/deck",
    );
    assert_eq!(s, "/usr/bin/deck 446006.25 -2 -1.5 -3 768000 30005 pmr 446.606250 {unknown}");
    let w = TemplateVars { freq_hz: 145_000_000, gain_tenths: 0, ..v };
    assert_eq!(render_template("{freq_khz}/{gain_int}/{gain}", &w, ""), "145000/0/0.0");
}

#[test]
fn center_and_in_band() {
    let d = rtl();
    let c = center_for(&d, 145_500_000, 2_400_000);
    assert_eq!(c, 146_100_000);
    assert!(in_band(c, 2_400_000, 145_500_000));
    assert!(in_band(c, 2_400_000, 146_800_000));
    assert!(!in_band(c, 2_400_000, 148_000_000));
    let c2 = center_for(&d, 1_766_000_000, 2_400_000);
    assert_eq!(c2, 1_765_400_000);
    assert_eq!(tune_offset(2_400_000), 600_000);
}

#[test]
fn resolve_iq_and_extern() {
    let cfg = Config::default();
    let tools = ToolReport::default();
    let d = rtl();
    let r = resolve(ModeId::Nfm, &d, &cfg, &tools, 145_500_000, 300, "deck").unwrap();
    match r.plan {
        Plan::Iq { rate, demod, audio_out, decoder_cmd, .. } => {
            assert_eq!(rate, 2_400_000);
            assert_eq!(demod, Demod::Nfm);
            assert!(audio_out);
            assert!(decoder_cmd.is_none());
        },
        _ => panic!("expected iq plan"),
    }
    assert!(r.missing.contains(&"rtl_sdr".to_string()));

    let r = resolve(ModeId::Adsb, &d, &cfg, &tools, 1_090_000_000, 400, "deck").unwrap();
    match r.plan {
        Plan::Extern { cmdline, sbs, .. } => {
            assert!(cmdline.contains("dump1090"));
            assert!(cmdline.contains("--net-sbs-port 30003"));
            assert!(sbs);
        },
        _ => panic!("expected extern plan"),
    }
}

#[test]
fn sim_falls_back_to_lines_without_decoder() {
    let cfg = Config::default();
    let tools = ToolReport::default();
    let d = SdrDevice::sim();
    let r = resolve(ModeId::Pocsag, &d, &cfg, &tools, 169_650_000, 0, "deck").unwrap();
    match r.plan {
        Plan::Extern { cmdline, .. } => {
            assert!(cmdline.contains("simgen --mode pocsag --lines"), "{cmdline}");
        },
        _ => panic!("expected fallback extern plan"),
    }
    assert!(r.missing.is_empty());
    assert!(r.note.unwrap().contains("multimon-ng"));
}

#[test]
fn decoder_override_wins() {
    let mut cfg = Config::default();
    cfg.decoders.push(("pocsag".into(), "my-decoder --flag -".into()));
    let mut tools = ToolReport::default();
    tools.found.push(("rtl_sdr".into(), true));
    tools.found.push(("my-decoder".into(), true));
    let r = resolve(ModeId::Pocsag, &rtl(), &cfg, &tools, 169_650_000, 300, "deck").unwrap();
    match r.plan {
        Plan::Iq { decoder_cmd, .. } => {
            assert_eq!(decoder_cmd.unwrap(), "my-decoder --flag -");
        },
        _ => panic!(),
    }
    assert!(r.missing.is_empty());
}

#[test]
fn config_pipeline_override_and_unsupported() {
    let mut cfg = Config::default();
    cfg.pipelines.push(("rtlsdr".into(), vec![("nfm".into(), "my-rx -f {freq_hz}".into())]));
    let r = resolve(ModeId::Nfm, &rtl(), &cfg, &ToolReport::default(), 145_500_000, 0, "deck").unwrap();
    match r.plan {
        Plan::Extern { cmdline, char_mode, sbs } => {
            assert_eq!(cmdline, "my-rx -f 145500000");
            assert!(!char_mode && !sbs);
        },
        _ => panic!(),
    }
    assert_eq!(r.note.as_deref(), Some("external pipeline from config"));
    assert_eq!(r.missing, vec!["my-rx".to_string()]);
    let hf = SdrDevice { kind: SdrKind::AirspyHf, ..rtl() };
    assert!(resolve(ModeId::Adsb, &hf, &Config::default(), &ToolReport::default(), 1_090_000_000, 0, "d").is_none());
}

#[test]
fn out_of_band_note() {
    let hf = SdrDevice { kind: SdrKind::AirspyHf, ..rtl() };
    // 31 MHz sits at the top of the HF range: the center flips below and
    // the wanted frequency is still reachable
    let r = resolve(ModeId::Usb, &hf, &Config::default(), &ToolReport::default(), 30_990_000, 0, "d").unwrap();
    match r.plan {
        Plan::Iq { center_hz, .. } => assert_eq!(center_hz, 30_990_000 - 192_000),
        _ => panic!(),
    }
    assert!(r.note.is_none());
}

#[test]
fn requires_and_busy() {
    let r = requires_of("rtl_sdr -f 1 - | multimon-ng -a AFSK1200 -");
    assert_eq!(r, vec!["rtl_sdr", "multimon-ng"]);
    assert!(looks_like_device_busy("usb_claim_interface error -6"));
    assert!(looks_like_device_busy("rtlsdr: Device or resource busy"));
    assert!(!looks_like_device_busy("Tuned to 146400000 Hz."));
}

#[test]
fn requires_skips_deck_and_empty_segments() {
    assert_eq!(requires_of("'{deck}' simgen --mode pocsag --lines"), Vec::<String>::new());
    assert_eq!(requires_of("| 'sox' -t raw ||"), vec!["sox"]);
    assert!(looks_like_device_busy("Failed to ACQUIRE device"));
}

#[test]
fn ansi_strip() {
    assert_eq!(strip_ansi("\u{1b}[1;32mok\u{1b}[0m\r"), "ok");
    assert_eq!(strip_ansi("plain"), "plain");
}

#[test]
fn ansi_strip_edges() {
    assert_eq!(strip_ansi("a\tb\u{7}c"), "a\tbc");
    assert_eq!(strip_ansi("x\u{1b}y"), "xy");
    assert_eq!(strip_ansi("\u{1b}[12"), "");
}

#[test]
fn tool_report_lookup() {
    let mut t = ToolReport::default();
    t.found.push(("sox".into(), true));
    t.found.push(("rtl_sdr".into(), false));
    assert!(t.has("sox"));
    assert!(!t.has("rtl_sdr"));
    assert!(!t.has("unknown"));
    assert_eq!(t.missing_for("rtl_sdr - | sox -"), vec!["rtl_sdr".to_string()]);
}

#[test]
fn start_checks() {
    let cfg = Config::default();
    let mut tools = ToolReport::default();
    // nothing installed: the receiver's tool is missing
    assert_eq!(
        prepare_start(ModeId::Nfm, &rtl(), &cfg, &tools, 0, 300, "deck").err().as_deref(),
        Some("missing tools: rtl_sdr")
    );
    tools.found.push(("rtl_sdr".into(), true));
    // the saved frequency, or the mode's default when none was saved
    let (f, r) = prepare_start(ModeId::Nfm, &rtl(), &cfg, &tools, 0, 300, "deck").unwrap();
    assert_eq!(f, 145_500_000);
    assert!(r.missing.is_empty());
    let (f, _) = prepare_start(ModeId::Nfm, &rtl(), &cfg, &tools, 446_006_250, 300, "deck").unwrap();
    assert_eq!(f, 446_006_250);
    // below what an RTL-SDR tunes
    assert_eq!(
        prepare_start(ModeId::Nfm, &rtl(), &cfg, &tools, 7_100_000, 300, "deck").err().as_deref(),
        Some("7.1 MHz is outside RTL-SDR's tuning range")
    );
    // no plan on this device
    let hf = SdrDevice { kind: SdrKind::AirspyHf, ..rtl() };
    assert_eq!(
        prepare_start(ModeId::Adsb, &hf, &cfg, &tools, 0, 0, "deck").err().as_deref(),
        Some("ADS-B is not supported on Airspy HF+")
    );
}

#[test]
fn audio_routing() {
    // plain audio mode: played, monitor switch meaningful
    let r = audio_route(ModeId::Nfm, Demod::Nfm, true, false, false, false);
    assert!(r.play && r.monitorable && r.wants_audio);
    // pager decoder: silent unless monitored
    let r = audio_route(ModeId::Pocsag, Demod::Nfm, false, true, false, false);
    assert!(!r.play && r.monitorable && r.wants_audio);
    assert!(audio_route(ModeId::Pocsag, Demod::Nfm, false, true, false, true).play);
    // voice decoder: its decoded audio always plays, no monitor switch
    let r = audio_route(ModeId::Dmr, Demod::Nfm, false, true, true, false);
    assert!(r.play && !r.monitorable);
    // raw IQ wants no sink
    assert!(!audio_route(ModeId::Scanner, Demod::Raw, true, true, false, false).wants_audio);
    assert!(audio_route(ModeId::Scanner, Demod::Nfm, false, false, false, false).wants_audio);
}

#[test]
fn retune_plans() {
    let cfg = Config::default();
    let mut tools = ToolReport::default();
    tools.found.push(("rtl_sdr".into(), true));
    let d = rtl();
    // inside the received band: only the offset moves
    match plan_retune(ModeId::Nfm, &d, &cfg, &tools, false, 146_100_000, 2_400_000, 145_500_000, "deck") {
        Ok(Retune::Offset { offset_hz }) => assert_eq!(offset_hz, -600_000),
        _ => panic!("expected an offset-only retune"),
    }
    // far away: the device recenters rate/4 above the frequency
    match plan_retune(ModeId::Nfm, &d, &cfg, &tools, false, 146_100_000, 2_400_000, 433_920_000, "deck") {
        Ok(Retune::Recenter { center_hz, source_cmdline, offset_hz }) => {
            assert_eq!(center_hz, 434_520_000);
            assert_eq!(offset_hz, -600_000);
            assert!(source_cmdline.contains("434520000"), "{source_cmdline}");
        },
        _ => panic!("expected a recentering retune"),
    }
    assert_eq!(
        plan_retune(ModeId::Nfm, &d, &cfg, &tools, false, 146_100_000, 2_400_000, 7_100_000, "deck").err().as_deref(),
        Some("7.1 MHz is outside RTL-SDR's range")
    );
    assert_eq!(
        plan_retune(ModeId::Adsb, &d, &cfg, &tools, true, 1_090_000_000, 0, 1_091_000_000, "deck").err().as_deref(),
        Some("stop and restart to change ADS-B tuning")
    );
}

#[test]
fn ais_runs_on_any_device_through_ais_catcher() {
    let hf = SdrDevice { kind: SdrKind::AirspyHf, ..rtl() };
    let r = resolve(ModeId::Ais, &hf, &Config::default(), &ToolReport::default(), 161_975_000, 300, "d").unwrap();
    match r.plan {
        Plan::Extern { cmdline, .. } => assert_eq!(cmdline, "AIS-catcher -d:0 -o 1"),
        _ => panic!(),
    }
    assert_eq!(r.missing, vec!["AIS-catcher".to_string()]);
    // RTL with AIS-catcher installed uses it
    let with = ToolReport { found: vec![("AIS-catcher".to_string(), true)] };
    let r = resolve(ModeId::Ais, &rtl(), &Config::default(), &with, 161_975_000, 300, "d").unwrap();
    match r.plan {
        Plan::Extern { cmdline, .. } => assert!(cmdline.starts_with("AIS-catcher -d:0")),
        _ => panic!(),
    }
    // RTL without it falls back to rtl_ais
    let r = resolve(ModeId::Ais, &rtl(), &Config::default(), &ToolReport::default(), 161_975_000, 300, "d").unwrap();
    match r.plan {
        Plan::Extern { cmdline, .. } => assert!(cmdline.starts_with("rtl_ais -d 0")),
        _ => panic!(),
    }
}

#[test]
fn airspy_iq_is_float32() {
    let (_, f, rate) = deck::pipeline::iq_source(SdrKind::AirspyHf);
    assert_eq!(f, deck::pipeline::IqFormat::Cf32);
    assert_eq!(rate, 768_000);
    assert_eq!(deck::pipeline::iq_source(SdrKind::RtlSdr).1, deck::pipeline::IqFormat::Cu8);
}
