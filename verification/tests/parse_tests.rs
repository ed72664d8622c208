use deck::parse::ais::{checksum_ok, AisParser};
use deck::parse::dsd::{is_event_line, parse_line, CallFields};
use deck::parse::ft8::{callers, parse_spot, Spot};
use deck::parse::multimon::{parse_pocsag, AprsParser, PagerContent};
use deck::sim::ais::{encode_name24, encode_type1};

#[test]
fn checksum_and_type() {
    let s = "!AIVDM,1,1,,B,177KQJ5000G?tO`K>RA1wUbN0TKH,0*5C";
    assert!(checksum_ok(s));
    let m = AisParser::new().push(s).unwrap();
    assert_eq!(m.msg_type, 1);
    assert_eq!(m.mmsi, 477553000);
    assert!(m.lat.is_some() && m.lon.is_some());
}

#[test]
fn rejects_bad_checksum() {
    let s = "!AIVDM,1,1,,B,177KQJ5000G?tO`K>RA1wUbN0TKH,0*5D";
    assert!(AisParser::new().push(s).is_none());
}

fn raw_deg(v: f64) -> i32 {
    (v * 600_000.0).round() as i32
}

#[test]
fn roundtrip_with_sim_encoder() {
    let sentences = encode_type1(
        244_123_456,
        raw_deg(44.87),
        raw_deg(13.85),
        (8.4f32 * 10.0).round() as u32,
        (231.0f32 * 10.0).round() as u32,
    );
    let mut p = AisParser::new();
    let m = p.push(&sentences).expect("decodes");
    assert_eq!(m.mmsi, 244_123_456);
    assert!((m.lat.unwrap() as f64 / 600_000.0 - 44.87).abs() < 0.0002);
    assert!((m.lon.unwrap() as f64 / 600_000.0 - 13.85).abs() < 0.0002);
    assert!((m.sog.unwrap() as f32 / 10.0 - 8.4).abs() < 0.11);
    assert!((m.cog.unwrap() as f32 / 10.0 - 231.0).abs() < 0.11);

    let name = encode_name24(244_123_456, "SEA DECK");
    let m2 = p.push(&name).expect("name decodes");
    assert_eq!(m2.name.as_deref(), Some("SEA DECK"));
}

#[test]
fn negative_positions_roundtrip() {
    let s = encode_type1(1, raw_deg(-33.9), raw_deg(-70.5), 0, 3599);
    let m = AisParser::new().push(&s).unwrap();
    assert_eq!(m.lat, Some(raw_deg(-33.9)));
    assert_eq!(m.lon, Some(raw_deg(-70.5)));
    assert_eq!(m.sog, Some(0));
    assert_eq!(m.cog, Some(3599));
}

#[test]
fn names_are_uppercased_and_cut() {
    let s = encode_name24(7, "a very long vessel name indeed");
    let m = AisParser::new().push(&s).unwrap();
    assert_eq!(m.msg_type, 24);
    assert_eq!(m.name.as_deref(), Some("A VERY LONG VESSEL N"));
}

#[test]
fn fragments_reassemble_in_any_order() {
    // a real two-part type 5 message
    let p1 = "!AIVDM,2,1,3,B,55P5TL01VIaAL@7WKO@mBplU@<PDhh000000001S;AJ::4A80?4i@E53,0*3E";
    let p2 = "!AIVDM,2,2,3,B,1@0000000000000,2*55";
    assert!(checksum_ok(p1) && checksum_ok(p2));
    let mut a = AisParser::new();
    assert!(a.push(p1).is_none());
    let m = a.push(p2).expect("complete");
    assert_eq!(m.msg_type, 5);
    let mut b = AisParser::new();
    assert!(b.push(p2).is_none());
    let m2 = b.push(p1).expect("complete, reversed");
    assert_eq!(m2.mmsi, m.mmsi);
    assert_eq!(m2.name, m.name);
}

#[test]
fn non_ais_lines_are_ignored() {
    let mut p = AisParser::new();
    assert!(p.push("$GPGGA,123519,4807.038,N,01131.000,E,1,08,0.9,545.4,M,46.9,M,,*47").is_none());
    assert!(p.push("").is_none());
    assert!(!checksum_ok("AIVDM,1,1,,A,x,0*00"));
}

#[test]
fn dmr_full_line() {
    let f = parse_line("Slot 2  TLC  DMR  | Color Code=01 | Group Call | TG: 91 | RID: 2621234");
    assert_eq!(f.slot, Some(2));
    assert_eq!(f.cc.as_deref(), Some("01"));
    assert_eq!(f.tg.as_deref(), Some("91"));
    assert_eq!(f.src.as_deref(), Some("2621234"));
    assert_eq!(f.kind.as_deref(), Some("Group Call"));
}

#[test]
fn dmr_ts_variant() {
    let f = parse_line("DMR TS1 CC 3 TGT=2311 Src=1234567 Private Call");
    assert_eq!(f.slot, Some(1));
    assert_eq!(f.cc.as_deref(), Some("3"));
    assert_eq!(f.tg.as_deref(), Some("2311"));
    assert_eq!(f.src.as_deref(), Some("1234567"));
    assert_eq!(f.kind.as_deref(), Some("Private Call"));
}

#[test]
fn ysf_and_dstar() {
    let f = parse_line("YSF DN | DST: ALL        | SRC: YU1ABC");
    assert_eq!(f.src.as_deref(), Some("YU1ABC"));
    assert_eq!(f.dst.as_deref(), Some("ALL"));

    let f = parse_line("DSTAR HD | UR: CQCQCQ | MY: YU1ABC/ID51 | RPT1: YU0RPT");
    assert_eq!(f.dst.as_deref(), Some("CQCQCQ"));
    assert_eq!(f.src.as_deref(), Some("YU1ABC/ID51"));
    assert!(f.extra.iter().any(|(k, v)| k == "RPT1" && v == "YU0RPT"));
}

#[test]
fn p25_nac() {
    let f = parse_line("P25 LDU1 NAC: 293 TG: 10101 SRC: 5551234");
    assert!(f.extra.iter().any(|(k, v)| k == "NAC" && v == "293"));
    assert_eq!(f.tg.as_deref(), Some("10101"));
}

#[test]
fn noise_is_boring() {
    assert!(!is_event_line("Sync: no sync"));
    assert!(!is_event_line("DSD-FME digital speech decoder"));
    assert!(is_event_line("TG: 91 RID: 1234"));
}

#[test]
fn merge_keeps_latest() {
    let mut a = parse_line("Slot 2 | Color Code=01 | TG: 91");
    a.merge(parse_line("RID: 2621234 | Group Call"));
    assert_eq!(a.slot, Some(2));
    assert_eq!(a.src.as_deref(), Some("2621234"));
    assert_eq!(a.tg.as_deref(), Some("91"));
}

#[test]
fn keys_need_token_boundaries_and_values() {
    // "DST" inside "DSTAR" is no key; "TG:" with nothing after has no value
    let f = parse_line("DSTAR HD | TG:   ");
    assert!(f.dst.is_none());
    assert!(f.tg.is_none());
    assert!(CallFields::default().is_empty());
    assert!(parse_line("nothing here").is_empty());
}

#[test]
fn merge_updates_extras_by_key() {
    let mut a = parse_line("NAC: 293");
    a.merge(parse_line("NAC: 2F0 | RAN: 5"));
    assert_eq!(a.extra, vec![("NAC".to_string(), "2F0".to_string()), ("RAN".to_string(), "5".to_string())]);
}

#[test]
fn pocsag_alpha() {
    let m = parse_pocsag("POCSAG1200: Address: 1234567  Function: 0  Alpha:   A2 Ambulancepost Aalsmeer")
        .unwrap();
    assert_eq!(m.baud, 1200);
    assert_eq!(m.address, "1234567");
    assert_eq!(m.function, "0");
    assert_eq!(m.content, PagerContent::Alpha("A2 Ambulancepost Aalsmeer".into()));
}

#[test]
fn pocsag_numeric_and_tone() {
    let m = parse_pocsag("POCSAG512: Address: 200042  Function: 3  Numeric: 0612345678").unwrap();
    assert_eq!(m.baud, 512);
    assert_eq!(m.content, PagerContent::Numeric("0612345678".into()));

    let m = parse_pocsag("POCSAG2400: Address: 88  Function: 1").unwrap();
    assert_eq!(m.content, PagerContent::ToneOnly);
}

#[test]
fn pocsag_rejects_other_lines() {
    assert!(parse_pocsag("AFSK1200: fm X to Y UI").is_none());
    assert!(parse_pocsag("random noise").is_none());
}

#[test]
fn pocsag_control_chars_and_bad_baud() {
    let m = parse_pocsag("POCSAG1200: Address: 5 Function: 2 Alpha: a\u{1}b ").unwrap();
    assert_eq!(m.content, PagerContent::Alpha("a·b".into()));
    assert!(parse_pocsag("POCSAGxyz: Address: 5").is_none());
    assert!(parse_pocsag("POCSAG1200: Addr 5").is_none());
}

#[test]
fn aprs_two_line() {
    let mut p = AprsParser::new();
    assert!(p.push("AFSK1200: fm YU1ABC-9 to APDECK-0 via WIDE1-1,WIDE2-2 UI pid=F0").is_none());
    let m = p.push("!4447.40N/02027.60E>deck rocks").unwrap();
    assert_eq!(m.from, "YU1ABC-9");
    assert_eq!(m.to, "APDECK-0");
    assert_eq!(m.path, "WIDE1-1,WIDE2-2");
    assert_eq!(m.info, "!4447.40N/02027.60E>deck rocks");
    assert!(p.push("orphan line").is_none());
}

#[test]
fn aprs_blank_payload_keeps_waiting() {
    let mut p = AprsParser::new();
    assert!(p.push("AFSK1200: fm N0CALL to APRS UI").is_none());
    assert!(p.push("   ").is_none());
    assert!(p.push("AFSK1200: something else").is_none());
    let m = p.push(">status").unwrap();
    assert_eq!(m.from, "N0CALL");
    assert_eq!(m.to, "APRS");
    assert_eq!(m.path, "");
}

fn dt_of(s: &Spot) -> f32 {
    s.dt as f32 / 1000.0
}

#[test]
fn jt9_line() {
    let s = parse_spot("134500  -8  0.3 1500 ~  CQ DL1ABC JO31").unwrap();
    assert_eq!(s.snr, -8);
    assert!((dt_of(&s) - 0.3).abs() < 1e-4);
    assert_eq!(s.freq, 1500);
    assert_eq!(s.msg, "CQ DL1ABC JO31");
    assert_eq!(callers(&s.msg).as_deref(), Some("DL1ABC"));
}

#[test]
fn ft8lib_line_no_timestamp() {
    let s = parse_spot("-21  0.5 1000 ~ CQ K1ABC FN42").unwrap();
    assert_eq!(s.snr, -21);
    assert_eq!(s.freq, 1000);
    assert_eq!(s.msg, "CQ K1ABC FN42");
}

#[test]
fn reply_message() {
    let s = parse_spot("000000  2 -0.1  700 ~ YU1ABC DL1ABC -05").unwrap();
    assert_eq!(s.snr, 2);
    assert_eq!(s.msg, "YU1ABC DL1ABC -05");
    assert_eq!(callers(&s.msg).as_deref(), Some("DL1ABC"));
}

#[test]
fn rejects_noise() {
    assert!(parse_spot("").is_none());
    assert!(parse_spot("Decoding...").is_none());
    assert!(parse_spot("134500 -8 0.3").is_none());
    assert!(parse_spot("134500 999 0.3 1500 ~ x").is_none());
}

#[test]
fn time_offset_must_be_a_number() {
    assert!(parse_spot("134500 -8 soon 1500 ~ CQ DL1ABC").is_none());
    // exponent forms are numbers too
    let e = parse_spot("134500 -8 3e-1 1500 ~ CQ DL1ABC").unwrap();
    assert_eq!(e.dt, 300);
    let s = parse_spot("134500 -8 -1.25 1500 ~ CQ DL1ABC").unwrap();
    assert_eq!(s.dt, -1_250);
    assert!((dt_of(&s) + 1.25).abs() < 1e-6);
}

#[test]
fn callers_forms() {
    assert_eq!(callers("CQ DX YU1ABC KN04").as_deref(), Some("YU1ABC"));
    assert_eq!(callers("CQ DX").as_deref(), Some("DX"));
    assert_eq!(callers("CQ").as_deref(), None);
    assert_eq!(callers("").as_deref(), None);
}

#[test]
fn encoder_sentence_leaves_pending_fragments() {
    let p1 = "!AIVDM,2,1,3,B,55P5TL01VIaAL@7WKO@mBplU@<PDhh000000001S;AJ::4A80?4i@E53,0*3E";
    let p2 = "!AIVDM,2,2,3,B,1@0000000000000,2*55";
    let mut a = AisParser::new();
    assert!(a.push(p1).is_none());
    // a report in between decodes at once
    let m = a.push(&encode_type1(123_456_789, 0x3412140, 5, 1023, 7200)).unwrap();
    assert_eq!(m.mmsi, 123_456_789);
    assert_eq!(m.msg_type, 1);
    // latitude 91 degrees means "not available": no position at all
    assert_eq!(m.lat, None);
    assert_eq!(m.lon, None);
    // speed 102.3 knots means "not available"; the course is taken mod 360
    assert_eq!(m.sog, None);
    assert_eq!(m.cog, Some(0));
    // and the pending first part still completes
    assert_eq!(a.push(p2).expect("complete").msg_type, 5);
}

#[test]
fn names_read_back_trimmed_or_absent() {
    let m = AisParser::new().push(&encode_name24(211_222_333, " sea deck ")).unwrap();
    assert_eq!(m.msg_type, 24);
    assert_eq!(m.mmsi, 211_222_333);
    assert_eq!(m.name.as_deref(), Some("SEA DECK"));
    let m = AisParser::new().push(&encode_name24(211_222_333, "    ")).unwrap();
    assert_eq!(m.name, None);
    let m = AisParser::new().push(&encode_name24(5, "")).unwrap();
    assert_eq!(m.name, None);
}
