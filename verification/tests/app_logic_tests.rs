use deck::audio::resolve_sink;
use deck::config::{default_config_toml, Chan, Config, Memory, ScanCfg, DEFAULT_CONFIG_TOML};
use deck::modes::{ModeId, ViewKind};
use deck::parse::dsd::parse_line;
use deck::pipeline::ToolReport;
use deck::rec::fmt_size;
use deck::scan::{ScanEvent, ScanPhase, ScanState};
use deck::session::{
    autorecord_step, expire_call, feed_call, push_capped, rec_meta, AutoRec, LiveCall, RecAction, WaterfallBuf,
};
use deck::sys::{
    amixer_volume, battery_from, mixer_order, pactl_volume, wpctl_volume, BatState, MixerKind, PowerAction,
    PowerSupply,
};
use deck::ui::{
    controls_for, ctl_label, default_shots, has_list, mode_presets, openin_candidates, preset_items,
    tiles, viz_label, Ctl, Tile,
};
use std::collections::VecDeque;

fn chans(hz: &[u64]) -> Vec<Chan> {
    hz.iter().enumerate().map(|(i, h)| Chan { label: format!("c{i}"), hz: *h }).collect()
}

#[test]
fn default_config_values() {
    let cfg = Config::default();
    assert_eq!(cfg.adsb.sbs_port, 30003);
    assert_eq!(cfg.ui.theme, "dark");
    assert_eq!(cfg.scanner.channels.len(), 10);
    assert_eq!(cfg.scanner.channels[0].label, "PMR446 ch1");
    assert_eq!(cfg.scanner.channels[7].hz, 446_006_250 + 7 * 12_500);
    assert_eq!(cfg.scanner.channels[9].label, "70cm calling");
    assert_eq!(cfg.sdr.gain_tenths, 328);
    assert_eq!(default_config_toml(), DEFAULT_CONFIG_TOML);
    assert!(DEFAULT_CONFIG_TOML.contains("sbs_port = 30003"));
}

#[test]
fn scanner_skips_lockouts_and_wraps() {
    let mut s = ScanState::from_cfg(&chans(&[1, 2, 3, 4]), &vec![2, 3], None, 0);
    assert!(s.channels[1].locked && s.channels[2].locked);
    s.begin(0);
    assert_eq!(s.cur, 0);
    assert_eq!(s.scan_step(1, 10), Some(4));
    assert_eq!(s.cur, 3);
    assert_eq!(s.scan_step(1, 20), Some(1));
    assert_eq!(s.scan_step(-1, 30), Some(4));
}

#[test]
fn scanner_revisits_priority() {
    let mut s = ScanState::from_cfg(&chans(&[10, 20, 30, 40, 50, 60]), &vec![], Some(10), 0);
    s.begin(0);
    let mut visits = Vec::new();
    for t in 0..12 {
        visits.push(s.scan_step(1, t).unwrap());
    }
    // never more than five hops without the priority channel
    let mut since = 0;
    for hz in visits {
        if hz == 10 {
            since = 0;
        } else {
            since += 1;
            assert!(since <= 5);
        }
    }
}

#[test]
fn scanner_ticks_hold_and_move_on() {
    let mut s = ScanState::from_cfg(&chans(&[100, 200]), &vec![], None, 0);
    assert_eq!(s.tick(100, false, 450, 2500), ScanEvent::Idle);
    assert_eq!(s.tick(500, false, 450, 2500), ScanEvent::Retune(200));
    assert_eq!(s.tick(600, true, 450, 2500), ScanEvent::Hit(1));
    assert_eq!(s.phase, ScanPhase::Hold);
    assert_eq!(s.channels[1].hits, 1);
    assert_eq!(s.tick(2000, true, 450, 2500), ScanEvent::Idle);
    assert_eq!(s.tick(4000, false, 450, 2500), ScanEvent::Idle);
    assert_eq!(s.tick(4600, false, 450, 2500), ScanEvent::Retune(100));
    assert_eq!(s.phase, ScanPhase::Sampling);
    // a short configured dwell is raised to 150 ms
    assert_eq!(s.tick(4700, false, 10, 10), ScanEvent::Idle);
    s.phase = ScanPhase::Paused;
    assert_eq!(s.tick(99_999, true, 450, 2500), ScanEvent::Idle);
}

#[test]
fn scanner_toggles() {
    let mut s = ScanState::from_cfg(&chans(&[100, 200, 100]), &vec![], None, 0);
    let mut pri = None;
    s.toggle_priority(0, &mut pri);
    assert_eq!(pri, Some(100));
    assert!(s.channels[0].priority && !s.channels[1].priority && s.channels[2].priority);
    s.toggle_priority(2, &mut pri);
    assert_eq!(pri, None);
    assert!(s.channels.iter().all(|c| !c.priority));
    let mut locks = vec![7];
    s.toggle_lockout(1, &mut locks);
    assert_eq!(locks, vec![7, 200]);
    s.toggle_lockout(1, &mut locks);
    assert_eq!(locks, vec![7]);
    s.toggle_lockout(9, &mut locks);
    assert_eq!(locks, vec![7]);
}

#[test]
fn waterfall_caps_rows_newest_first() {
    let mut wf = WaterfallBuf::new(3);
    for i in 0..5u8 {
        wf.push_row(vec![i, 255]);
    }
    assert_eq!(wf.rows.len(), 3);
    assert_eq!(wf.rows[0], vec![4, 255]);
    assert_eq!(wf.rows[2], vec![2, 255]);
    assert_eq!(wf.rev, 5);
    assert_eq!(wf.width, 2);
    let mut q: VecDeque<u32> = VecDeque::new();
    for i in 0..10 {
        push_capped(&mut q, i, 4);
    }
    assert_eq!(q, VecDeque::from(vec![9, 8, 7, 6]));
}

#[test]
fn calls_start_merge_and_expire() {
    let mut call: Option<LiveCall> = None;
    assert!(!feed_call(&mut call, parse_line("Sync: no sync"), 0));
    assert!(call.is_none());
    assert!(feed_call(&mut call, parse_line("TG: 91"), 1000));
    assert!(feed_call(&mut call, parse_line("RID: 2621234"), 2000));
    assert!(expire_call(&mut call, 4000).is_none());
    let (f, dur) = expire_call(&mut call, 4501).unwrap();
    assert_eq!(f.tg.as_deref(), Some("91"));
    assert_eq!(f.src.as_deref(), Some("2621234"));
    assert_eq!(dur, 1000);
    assert!(call.is_none());
}

#[test]
fn menu_and_controls() {
    let t = tiles();
    assert_eq!(t.len(), 21);
    assert_eq!(t[0].1, Tile::Mode(ModeId::Nfm));
    assert_eq!(t[20].1, Tile::Power);
    let c = controls_for(ModeId::Nfm);
    assert_eq!(c.first(), Some(&Ctl::Rx));
    assert_eq!(c.last(), Some(&Ctl::Log));
    assert!(c.contains(&Ctl::Sql) && c.contains(&Ctl::MemSave) && !c.contains(&Ctl::Mon));
    assert!(controls_for(ModeId::Am).contains(&Ctl::Det));
    assert!(controls_for(ModeId::Pocsag).contains(&Ctl::Mon));
    let w = controls_for(ModeId::Waterfall);
    assert!(w.contains(&Ctl::OpenIn) && w.contains(&Ctl::Span) && !w.contains(&Ctl::Sql));
    assert_eq!(controls_for(ModeId::Adsb), vec![Ctl::Rx, Ctl::Preset, Ctl::Viz, Ctl::Log]);
    let o = openin_candidates();
    assert!(!o.contains(&ModeId::Waterfall) && !o.contains(&ModeId::Adsb) && o.contains(&ModeId::Nfm));
    assert!(has_list(ViewKind::Pager) && !has_list(ViewKind::Audio));
    assert_eq!(ctl_label(Ctl::Nr), "NOISE REDUCE");
    assert_eq!(viz_label(7), "band fall");
    assert_eq!(default_shots().len(), 13);
}

#[test]
fn presets_and_memories() {
    let mut cfg = Config::default();
    cfg.presets.push(("nfm".into(), vec![Chan { label: "Local".into(), hz: 438_725_000 }]));
    let p = mode_presets(ModeId::Nfm, &cfg);
    assert_eq!(p.last().unwrap().label, "Local");
    let mems = vec![
        Memory { label: "M1 145.5 MHz".into(), hz: 145_500_000, mode: "nfm".into() },
        Memory { label: "M2".into(), hz: 1, mode: "am".into() },
    ];
    let items = preset_items(&p, &mems, ModeId::Nfm);
    assert_eq!(items.len(), p.len() + 1);
    let last = items.last().unwrap();
    assert_eq!(last.label, "* M1 145.5 MHz");
    assert_eq!(last.mem_idx, Some(0));
}

#[test]
fn battery_parse() {
    let ps = vec![
        PowerSupply { kind: Some("Mains\n".into()), capacity: None, status: None },
        PowerSupply {
            kind: Some("Battery\n".into()),
            capacity: Some("87\n".into()),
            status: Some("Charging\n".into()),
        },
    ];
    let b = battery_from(&ps).unwrap();
    assert_eq!(b.percent, 87);
    assert_eq!(b.state, BatState::Charging);
}

#[test]
fn mixer_outputs() {
    assert_eq!(pactl_volume("Volume: front-left: 42598 /  65% / -11.23 dB"), Some(65));
    assert_eq!(pactl_volume("no percent"), None);
    assert_eq!(amixer_volume("  Front Left: Playback 65 [65%] [on]"), Some(Some(65)));
    assert_eq!(amixer_volume("nothing"), None);
    assert_eq!(PowerAction::Reboot.verb(), "reboot");
    let none = vec![PowerSupply { kind: Some("Battery".into()), capacity: None, status: None }];
    assert!(battery_from(&none).is_none());
}

#[test]
fn sizes() {
    assert_eq!(fmt_size(512), "512 B");
    assert_eq!(fmt_size(1536), "2 kB");
    assert_eq!(fmt_size(2560), "2 kB");
    assert_eq!(fmt_size(5 * 1024 * 1024), "5.0 MB");
    assert_eq!(fmt_size(1_288_490_188), "1.2 GB");
    assert_eq!(fmt_size(5 << 28), "1.2 GB");
}

#[test]
fn sink_selection() {
    let cfg = Config::default();
    let mut tools = ToolReport::default();
    assert_eq!(resolve_sink(&cfg, &tools), None);
    tools.found.push(("aplay".into(), true));
    assert_eq!(resolve_sink(&cfg, &tools).as_deref(), Some("aplay -q -t raw -f S16_LE -r 48000 -c 1 -"));
    let mut custom = Config::default();
    custom.audio.sink = "my-sink {rate} {rate}".into();
    assert_eq!(resolve_sink(&custom, &tools).as_deref(), Some("my-sink 48000 48000"));
    assert_eq!(ScanCfg::default().dwell_ms, 450);
}

#[test]
fn recording_comment() {
    let none: Option<LiveCall> = None;
    assert_eq!(rec_meta(ModeId::Nfm, 145_500_000, "2026-07-06 14:03", &none), "deck NFM 145.5 MHz 2026-07-06 14:03");
    let mut call = None;
    assert!(feed_call(
        &mut call,
        parse_line("Slot 2  TLC  DMR  | Color Code=01 | Group Call | TG: 91 | RID: 2621234"),
        10
    ));
    let m = rec_meta(ModeId::Dmr, 438_612_500, "2026-07-06 14:03", &call);
    assert_eq!(m, "deck DMR 438.6125 MHz 2026-07-06 14:03 SRC=2621234 TG=91 SLOT=2 CC=01");
}

#[test]
fn autorecord_decisions() {
    let mut a = AutoRec { active: false, last_signal: 0 };
    // nothing heard: keep
    assert_eq!(autorecord_step(&mut a, true, true, true, false, false, 1_000), RecAction::Keep);
    // signal starts a recording
    assert_eq!(autorecord_step(&mut a, true, true, true, true, false, 2_000), RecAction::Start);
    assert!(a.active);
    assert_eq!(a.last_signal, 2_000);
    // quiet, but within the hang time
    assert_eq!(autorecord_step(&mut a, true, true, true, false, true, 4_500), RecAction::Keep);
    // quiet past the hang time stops it
    assert_eq!(autorecord_step(&mut a, true, true, true, false, true, 4_501), RecAction::Stop);
    assert!(!a.active);
    // a recording autorecord did not start is left alone
    assert_eq!(autorecord_step(&mut a, true, true, true, false, true, 99_000), RecAction::Keep);
    // turning autorecord off stops its own recording only
    assert_eq!(autorecord_step(&mut a, true, true, true, true, false, 100_000), RecAction::Start);
    assert_eq!(autorecord_step(&mut a, true, false, true, true, true, 100_100), RecAction::Stop);
    assert_eq!(autorecord_step(&mut a, true, false, true, true, true, 100_200), RecAction::Keep);
    // external pipelines are not recorded
    assert_eq!(autorecord_step(&mut a, true, true, false, true, false, 100_300), RecAction::Keep);
    // nothing running resets
    a.active = true;
    assert_eq!(autorecord_step(&mut a, false, true, true, true, false, 100_400), RecAction::Keep);
    assert!(!a.active);
}

#[test]
fn memories_are_numbered() {
    let mut mem: Vec<Memory> = Vec::new();
    assert_eq!(deck::ui::save_memory(&mut mem, ModeId::Nfm, 145_500_000), "M1 145.5 MHz");
    assert_eq!(deck::ui::save_memory(&mut mem, ModeId::Dmr, 438_612_500), "M2 438.6125 MHz");
    assert_eq!(mem.len(), 2);
    assert_eq!(mem[1].label, "M2 438.6125 MHz");
    assert_eq!(mem[1].hz, 438_612_500);
    assert_eq!(mem[1].mode, "dmr");
}

#[test]
fn wpctl_levels() {
    assert_eq!(wpctl_volume("Volume: 0.65 [MUTED]"), Some(65));
    assert_eq!(wpctl_volume("Volume: 0.655"), Some(66));
    assert_eq!(wpctl_volume("Volume: 0.6549"), Some(65));
    assert_eq!(wpctl_volume("Volume: 1.80"), Some(150));
    assert_eq!(wpctl_volume("Volume: -0.2"), Some(0));
    assert_eq!(wpctl_volume("Volume:"), None);
    assert_eq!(wpctl_volume("Volume: loud"), None);
}

#[test]
fn mixer_commands() {
    assert_eq!(mixer_order(), vec![MixerKind::Wpctl, MixerKind::Pactl, MixerKind::Amixer]);
    assert_eq!(MixerKind::Wpctl.step_args(true), vec!["set-volume", "-l", "1.2", "@DEFAULT_AUDIO_SINK@", "5%+"]);
    assert_eq!(MixerKind::Pactl.step_args(false), vec!["set-sink-volume", "@DEFAULT_SINK@", "-5%"]);
    assert_eq!(MixerKind::Amixer.mute_args(), vec!["-q", "set", "Master", "toggle"]);
    assert_eq!(MixerKind::Amixer.bin(), "amixer");
}

#[test]
fn scanner_hit_log_line() {
    let s = ScanState::from_cfg(&chans(&[446_006_250]), &vec![], None, 0);
    assert_eq!(deck::scan::hit_label(&s.channels[0]), "c0 (446.0063 MHz)");
}

#[test]
fn usb_setup_checks() {
    assert!(deck::doctor::udev_rules_mention_sdr("SUBSYSTEM==\"usb\", ATTRS{idProduct}==\"2832\""));
    assert!(deck::doctor::udev_rules_mention_sdr("# rtl-sdr dongles"));
    assert!(!deck::doctor::udev_rules_mention_sdr("KERNEL==\"ttyUSB*\""));
    assert!(deck::doctor::dvb_driver_loaded("dvb_usb_rtl28xxu 36864 0 - Live 0x0\n"));
    assert!(!deck::doctor::dvb_driver_loaded("snd_usb_audio 1 0 - Live\n"));
}
