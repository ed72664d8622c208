use deck::bands::{bands, in_range};
use deck::device::{detect_from, usb_kind, SdrDevice, SdrKind, UsbEntry};
use deck::dsp::{decim_factors, Rng};
use deck::freq::{fmt_hz, fmt_mhz, fmt_short, FreqInput, MAX_HZ};
use deck::modes::{mode_by_key, mode_def, modes, ModeId, Section};

#[test]
fn lookup() {
    let hits: Vec<&str> = in_range(433_000_000, 447_000_000).iter().map(|b| b.label).collect();
    assert!(hits.contains(&"70cm"));
    assert!(hits.contains(&"ISM433"));
    assert!(hits.contains(&"PMR446"));
    assert!(!hits.contains(&"2m"));
}

#[test]
fn band_plan_is_ordered_and_overlap_is_strict() {
    let all = bands();
    assert!(!all.is_empty());
    for b in &all {
        assert!(b.from < b.to);
    }
    // a range that only touches a band's edge does not overlap it
    let first = all[0];
    assert!(in_range(first.to, first.to + 1).iter().all(|b| b.label != first.label));
    assert!(in_range(first.from, first.to).iter().any(|b| b.label == first.label));
}

#[test]
fn ranges() {
    let rtl = SdrDevice {
        kind: SdrKind::RtlSdr,
        index: 0,
        product: String::new(),
        serial: None,
        usb_path: String::new(),
    };
    assert!(rtl.freq_ok(1_090_000_000));
    assert!(!rtl.freq_ok(7_100_000));
    let hf = SdrDevice { kind: SdrKind::AirspyHf, ..rtl.clone() };
    assert!(hf.freq_ok(7_100_000));
    assert!(hf.freq_ok(144_800_000));
    assert!(!hf.freq_ok(1_090_000_000));
}

#[test]
fn range_edges_are_inclusive() {
    let rtl = SdrDevice {
        kind: SdrKind::RtlSdr,
        index: 0,
        product: String::new(),
        serial: None,
        usb_path: String::new(),
    };
    assert!(rtl.freq_ok(24_000_000));
    assert!(rtl.freq_ok(1_766_000_000));
    assert!(!rtl.freq_ok(23_999_999));
    assert!(!rtl.freq_ok(1_766_000_001));
    assert!(SdrDevice::sim().freq_ok(0));
}

fn entry(name: &str, vid: &str, pid: &str, product: &str, serial: &str) -> UsbEntry {
    UsbEntry {
        name: name.to_string(),
        id_vendor: Some(vid.to_string()),
        id_product: Some(pid.to_string()),
        product: Some(product.to_string()),
        serial: Some(serial.to_string()),
    }
}

#[test]
fn detects_and_indexes() {
    let entries = vec![
        entry("1-2", "0bda", "2838", "RTL2838UHIDIR", "00000001"),
        entry("1-3", "03eb", "800c", "AIRSPY HF+", "AH123"),
        entry("1-4", "0bda", "2838", "RTL2838UHIDIR", "00000002"),
        entry("1-5", "dead", "beef", "not an sdr", "x"),
    ];
    let devs = detect_from(&entries);
    assert_eq!(devs.len(), 4);
    assert_eq!(devs[0].kind, SdrKind::RtlSdr);
    assert_eq!(devs[0].index, 0);
    assert_eq!(devs[2].index, 1);
    assert_eq!(devs[1].kind, SdrKind::AirspyHf);
    assert_eq!(devs[3].kind, SdrKind::Sim);
    assert_eq!(devs[0].stable_id(), "rtlsdr:0");
    assert_eq!(devs[3].stable_id(), "sim");
}

#[test]
fn detection_sorts_by_path_and_keeps_only_sim_when_empty() {
    let entries = vec![
        entry("1-4", "0bda", "2838", "B", "2"),
        entry("1-2", "0bda", "2838", "A", "1"),
    ];
    let devs = detect_from(&entries);
    assert_eq!(devs[0].usb_path, "1-2");
    assert_eq!(devs[1].usb_path, "1-4");
    assert_eq!(devs[1].index, 1);
    assert_eq!(devs[1].stable_id(), "rtlsdr:1");
    let none = detect_from(&Vec::new());
    assert_eq!(none.len(), 1);
    assert_eq!(none[0].kind, SdrKind::Sim);
    assert_eq!(usb_kind(0x0bda, 0x2838), Some(SdrKind::RtlSdr));
    assert_eq!(usb_kind(0xdead, 0xbeef), None);
}

#[test]
fn rng_deterministic() {
    let mut a = Rng::new(42);
    let mut b = Rng::new(42);
    for _ in 0..100 {
        assert_eq!(a.next_u64(), b.next_u64());
    }
    let mut c = Rng::new(43);
    assert_ne!(a.next_u64(), c.next_u64());
}

#[test]
fn rng_ranges_stay_inside() {
    let mut r = Rng::new(0);
    for _ in 0..1000 {
        let v = r.range_u32(6, 22);
        assert!((6..22).contains(&v));
    }
    let xs = [1u8, 2, 3];
    for _ in 0..50 {
        assert!(xs.contains(r.pick(&xs)));
    }
    let mut always = Rng::new(5);
    assert!(always.chance(1u64 << 53));
    assert!(!always.chance(0));
}

#[test]
fn rng_exact_first_draw() {
    // seed 1: state 1 → xorshift → output times the multiplier
    let mut r = Rng::new(0);
    let mut x: u64 = 1;
    x ^= x >> 12;
    x ^= x << 25;
    x ^= x >> 27;
    assert_eq!(r.next_u64(), x.wrapping_mul(0x2545_F491_4F6C_DD1D));
}

#[test]
fn decim_factor_plans() {
    assert_eq!(decim_factors(2_400_000, 48_000), Some(vec![5, 5, 2]));
    assert_eq!(decim_factors(768_000, 48_000), Some(vec![4, 4]));
    assert_eq!(decim_factors(2_400_000, 240_000), Some(vec![5, 2]));
    assert_eq!(decim_factors(48_000, 48_000), Some(vec![]));
    assert_eq!(decim_factors(44_100, 48_000), None);
}

#[test]
fn decim_plans_multiply_back() {
    for (from, to) in [(2_400_000u32, 48_000u32), (768_000, 48_000), (1_000, 1), (7, 1)] {
        if let Some(p) = decim_factors(from, to) {
            let prod: u64 = p.iter().map(|f| *f as u64).product();
            assert_eq!(prod * to as u64, from as u64);
        }
    }
    assert_eq!(decim_factors(7, 1), None);
}

#[test]
fn digit_editing() {
    let mut f = FreqInput::new(145_800_000);
    f.cursor = 3;
    f.up();
    assert_eq!(f.hz, 145_801_000);
    f.down();
    f.down();
    assert_eq!(f.hz, 145_799_000);
    f.cursor = 6;
    f.type_digit(9);
    assert_eq!(f.hz, 149_799_000);
    assert_eq!(f.cursor, 5);
}

#[test]
fn clamps() {
    let mut f = FreqInput::new(MAX_HZ);
    f.cursor = 9;
    f.up();
    assert_eq!(f.hz, MAX_HZ);
    let mut f = FreqInput::new(500);
    f.cursor = 3;
    f.down();
    assert_eq!(f.hz, 0);
}

#[test]
fn down_undoes_up_and_cursor_moves() {
    let mut f = FreqInput::new(433_920_000);
    f.cursor = 4;
    f.up();
    f.down();
    assert_eq!(f.hz, 433_920_000);
    f.left();
    assert_eq!(f.cursor, 5);
    f.right();
    f.right();
    assert_eq!(f.cursor, 3);
    let g = FreqInput::new(u64::MAX);
    assert_eq!(g.hz, MAX_HZ);
}

#[test]
fn formatting() {
    assert_eq!(fmt_hz(1_090_000_000), "1.090.000.000");
    assert_eq!(fmt_hz(169_650_000), "169.650.000");
    assert_eq!(fmt_mhz(145_800_000), "145.800000");
    assert_eq!(fmt_short(446_006_250), "446.0063 MHz");
    assert_eq!(fmt_short(145_500_000), "145.5 MHz");
}

#[test]
fn short_forms_for_small_frequencies() {
    assert_eq!(fmt_short(7_646_000), "7.646 MHz");
    assert_eq!(fmt_short(7_646), "7.646 kHz");
    assert_eq!(fmt_short(999), "999 Hz");
    assert_eq!(fmt_short(1_000_000), "1 MHz");
    // the double hz / 1e6 is rounded to four decimals, as `{:.4}` does
    assert_eq!(fmt_short(1_001_050), "1.001 MHz");
    assert_eq!(fmt_short(145_000_050), "145 MHz");
    assert_eq!(fmt_short(145_000_051), "145.0001 MHz");
    assert_eq!(fmt_short(u64::MAX), "18446744073709.5508 MHz");
    assert_eq!(fmt_hz(0), "0");
    assert_eq!(fmt_mhz(9_000), "0.009000");
}

#[test]
fn digits_roundtrip() {
    let f = FreqInput::new(1_090_000_000);
    let d = f.digits();
    assert_eq!(d, [1, 0, 9, 0, 0, 0, 0, 0, 0, 0]);
}

#[test]
fn registry_consistent() {
    for m in modes() {
        assert!(!m.key.is_empty());
        assert!(mode_def(m.id).key == m.key);
        assert_eq!(mode_by_key(m.key).unwrap().id, m.id);
        if m.decoder.is_some() {
            assert!(m.decoder_rate > 0, "{} needs decoder_rate", m.key);
        }
    }
}

#[test]
fn registry_lookups() {
    assert!(mode_by_key("nope").is_none());
    assert_eq!(mode_by_key("dmr").unwrap().id, ModeId::Dmr);
    assert_eq!(Section::Tools.label(), "TOOLS");
    assert_eq!(modes().len(), 18);
}
