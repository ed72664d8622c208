use deck::dsp::Rng;
use deck::parse::dsd;
use deck::sim::ax25::{crc_x25, frame_bytes, hdlc_bits, nrzi};
use deck::sim::baudot::{decode, encode};
use deck::sim::pocsag::{codeword, payload_chunks, syndrome, transmission_bits, Content, IDLE, SYNC};
use deck::sim::voice::VoiceSim;

#[test]
fn crc_vector() {
    assert_eq!(crc_x25(b"123456789"), 0x906E);
}

fn nrzi_decode(levels: &[bool]) -> Vec<bool> {
    let mut prev = levels[0];
    let mut out = Vec::new();
    for &l in &levels[1..] {
        out.push(l == prev);
        prev = l;
    }
    out
}

fn unstuff_between_flags(bits: &[bool], lead: usize, tail: usize) -> Vec<u8> {
    let span = &bits[lead * 8..bits.len() - tail * 8];
    let mut out = Vec::new();
    let mut ones = 0;
    let mut skip = false;
    for &b in span {
        if skip {
            skip = false;
            assert!(!b, "stuffed bit must be zero");
            continue;
        }
        out.push(b);
        if b {
            ones += 1;
            if ones == 5 {
                skip = true;
                ones = 0;
            }
        } else {
            ones = 0;
        }
    }
    out.chunks(8)
        .map(|ch| ch.iter().enumerate().fold(0u8, |v, (i, b)| v | ((*b as u8) << i)))
        .collect()
}

fn call_of(b: &[u8]) -> String {
    let base: String = b[..6].iter().map(|c| (c >> 1) as char).collect::<String>().trim_end().to_string();
    let ssid = (b[6] >> 1) & 0x0F;
    if ssid == 0 { base } else { format!("{base}-{ssid}") }
}

#[test]
fn frame_roundtrip_through_hdlc() {
    let f = frame_bytes("N0DECK-9", "APDECK", &["WIDE1-1"], "!4447.40N/02027.60E>test");
    let bits = hdlc_bits(&f, 4, 2);
    let inner = &bits[4 * 8..bits.len() - 2 * 8];
    let mut run = 0;
    for b in inner {
        run = if *b { run + 1 } else { 0 };
        assert!(run < 6, "bit stuffing failed");
    }
    let frame = unstuff_between_flags(&bits, 4, 2);
    let body = &frame[..frame.len() - 2];
    let fcs = crc_x25(body);
    assert_eq!(frame[frame.len() - 2], (fcs & 0xFF) as u8);
    assert_eq!(frame[frame.len() - 1], (fcs >> 8) as u8);
    assert_eq!(call_of(&frame[0..7]), "APDECK");
    assert_eq!(call_of(&frame[7..14]), "N0DECK-9");
    assert_eq!(frame[21], 0x03);
    assert_eq!(frame[22], 0xF0);
    assert_eq!(&body[23..], b"!4447.40N/02027.60E>test");
}

#[test]
fn nrzi_zero_toggles() {
    let lv = nrzi(&[true, false, false, true]);
    assert_eq!(lv, vec![true, false, true, true]);
    let back = nrzi_decode(&[true, lv[0], lv[1], lv[2], lv[3]]);
    assert_eq!(back, vec![true, false, false, true]);
}

#[test]
fn roundtrip_with_shifts() {
    let text = "RYRYRY DE DECK 599 QTH BEOGRAD";
    let bits = encode(text);
    assert_eq!(decode(&bits), text);
}

#[test]
fn digits_need_figs() {
    let bits = encode("A1B2");
    assert_eq!(decode(&bits), "A1B2");
}

#[test]
fn baudot_frames_and_drops_unknown() {
    // one start bit, five data bits, stop bits per code
    let bits = encode("E");
    assert!(!bits.is_empty());
    assert_eq!(decode(&encode("a~b")), "AB");
}

#[test]
fn idle_word_is_self_consistent() {
    assert_eq!(codeword(IDLE >> 11), IDLE);
    assert_eq!(syndrome(IDLE), 0);
    assert_eq!(syndrome(SYNC), 0, "sync word is also a valid codeword");
}

#[test]
fn random_codewords_have_zero_syndrome() {
    let mut rng = Rng::new(99);
    for _ in 0..500 {
        let data = (rng.next_u64() & 0x1F_FFFF) as u32;
        let w = codeword(data);
        assert_eq!(syndrome(w), 0);
        let bad = w ^ (1 << (rng.next_u64() % 32));
        assert_ne!(syndrome(bad), 0);
    }
}

#[test]
fn transmission_structure() {
    let bits = transmission_bits(1_234_567, 0, Content::Alpha("HI"));
    assert!(bits[..576].iter().enumerate().all(|(i, b)| *b == (i % 2 == 0)));
    let word_at = |start: usize| -> u32 {
        bits[start..start + 32].iter().fold(0, |acc, b| acc << 1 | u32::from(*b))
    };
    assert_eq!(word_at(576), SYNC);
    let addr_cw = word_at(576 + 32 + 14 * 32);
    assert_eq!(addr_cw >> 31, 0, "address codeword");
    assert_eq!(syndrome(addr_cw), 0);
    let recovered_addr = ((addr_cw >> 13) & 0x3_FFFF) << 3 | 7;
    assert_eq!(recovered_addr, 1_234_567);
    let msg_cw = word_at(576 + 32 + 15 * 32);
    assert_eq!(msg_cw >> 31, 1, "message codeword");
    assert_eq!(syndrome(msg_cw), 0);
}

#[test]
fn alpha_bits_decode_back() {
    let chunks = payload_chunks(Content::Alpha("HI"));
    let mut bits: Vec<bool> = Vec::new();
    for c in &chunks {
        for i in (0..20).rev() {
            bits.push(c >> i & 1 == 1);
        }
    }
    let mut chars = Vec::new();
    for ch in bits.chunks(7) {
        if ch.len() < 7 {
            break;
        }
        let mut v = 0u8;
        for (i, b) in ch.iter().enumerate() {
            if *b {
                v |= 1 << i;
            }
        }
        chars.push(v);
    }
    assert_eq!(&chars[..2], b"HI");
}

#[test]
fn sim_lines_satisfy_the_parser() {
    for proto in ["dmr", "ysf", "dstar", "nxdn", "p25", "m17"] {
        let mut sim = VoiceSim::new(proto, 3);
        let lines = sim.call();
        assert!(!lines.is_empty());
        let mut merged = dsd::CallFields::default();
        for l in &lines {
            merged.merge(dsd::parse_line(&l.text));
        }
        assert!(merged.tg.is_some() || merged.src.is_some(), "{proto}: no TG/SRC extracted");
        if proto == "dmr" {
            assert!(merged.slot.is_some(), "dmr slot");
            assert!(merged.cc.is_some(), "dmr color code");
            assert!(merged.kind.is_some(), "dmr call kind");
        }
    }
}

#[test]
fn voice_sim_is_deterministic_and_gaps_bounded() {
    let mut a = VoiceSim::new("dmr", 7);
    let mut b = VoiceSim::new("dmr", 7);
    let la: Vec<String> = a.call().into_iter().map(|l| l.text).collect();
    let lb: Vec<String> = b.call().into_iter().map(|l| l.text).collect();
    assert_eq!(la, lb);
    assert!(la[0].starts_with("Sync: +DMR  [slot"));
    assert!(la.last().unwrap().contains("Call End"));
    for _ in 0..20 {
        let g = a.idle_gap_ms();
        assert!((1200..5000).contains(&g));
    }
}
