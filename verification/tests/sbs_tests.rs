use deck::parse::sbs::AircraftStore;
use deck::text::parse_scaled;

fn chars(s: &str) -> Vec<char> {
    s.chars().collect()
}

#[test]
fn accumulates_fields_across_messages() {
    let mut st = AircraftStore::new();
    let t0 = 5_000_000u64;
    assert!(st.push_line(
        "MSG,1,1,1,4CA9E2,1,2026/07/06,14:03:22.000,2026/07/06,14:03:22.000,JAT204  ,,,,,,,,,,,0",
        t0
    ));
    assert!(st.push_line(
        "MSG,3,1,1,4CA9E2,1,2026/07/06,14:03:23.000,2026/07/06,14:03:23.000,,37000,,,44.8125,20.3110,,,0,0,0,0",
        t0
    ));
    assert!(st.push_line(
        "MSG,4,1,1,4CA9E2,1,2026/07/06,14:03:24.000,2026/07/06,14:03:24.000,,,412.3,178.0,,,-640,,,,,",
        t0
    ));
    assert_eq!(st.len(), 1);
    let rows = st.rows(t0);
    let ac = &rows[0].0;
    assert_eq!(ac.callsign, "JAT204");
    assert_eq!(ac.alt, Some(37000));
    assert_eq!(ac.gs.map(|v| v as f32 / 1000.0), Some(412.3));
    assert_eq!(ac.trk.map(|v| v as f32 / 1000.0), Some(178.0));
    assert_eq!(ac.lat.map(|v| v as f64 / 1e7), Some(44.8125));
    assert_eq!(ac.vr, Some(-640));
    assert_eq!(ac.msgs, 3);
}

#[test]
fn rejects_garbage_and_purges() {
    let mut st = AircraftStore::new();
    let t0 = 5_000_000u64;
    assert!(!st.push_line("not,a,message", t0));
    assert!(!st.push_line("", t0));
    assert!(st.push_line(
        "MSG,3,1,1,ABCDEF,1,2026/07/06,14:00:00.000,2026/07/06,14:00:00.000,,1000,,,1.0,2.0,,,,,,",
        t0
    ));
    st.purge(t0 + 120_000, 60);
    assert!(st.is_empty());
}

#[test]
fn fixed_point_fields() {
    let mut st = AircraftStore::new();
    assert!(st.push_line("MSG,3,1,1,ab12cd,1,,,,,,35000.9,,,44.81250,-20.31105,,,,,,", 10));
    let rows = st.rows(10);
    let ac = &rows[0].0;
    assert_eq!(ac.icao, "AB12CD");
    assert_eq!(ac.alt, Some(35000));
    assert_eq!(ac.lat, Some(448_125_000));
    assert_eq!(ac.lon, Some(-203_110_500));
    assert_eq!(ac.trail, vec![(448_125_000, -203_110_500)]);
    assert_eq!(st.total_msgs(), 1);
}

#[test]
fn decimal_forms() {
    assert_eq!(parse_scaled(&chars("-12.3456"), 3), Some(-12_345));
    assert_eq!(parse_scaled(&chars("+.5"), 1), Some(5));
    assert_eq!(parse_scaled(&chars("5."), 0), Some(5));
    assert_eq!(parse_scaled(&chars("0.25"), 7), Some(2_500_000));
    assert_eq!(parse_scaled(&chars("-0.9"), 0), Some(0));
    assert_eq!(parse_scaled(&chars("1e3"), 0), Some(1000));
    assert_eq!(parse_scaled(&chars("3e-1"), 3), Some(300));
    assert_eq!(parse_scaled(&chars("-1.25E+2"), 1), Some(-1250));
    assert_eq!(parse_scaled(&chars("7e-5"), 3), Some(0));
    assert_eq!(parse_scaled(&chars("1e400"), 0), Some(i64::MAX));
    assert_eq!(parse_scaled(&chars("0e99999999999999999999999"), 0), Some(0));
    assert_eq!(parse_scaled(&chars("5e-99999999999999999999999"), 0), Some(0));
    assert_eq!(parse_scaled(&chars("1e"), 0), None);
    assert_eq!(parse_scaled(&chars("e5"), 0), None);
    assert_eq!(parse_scaled(&chars("1e+"), 0), None);
    assert_eq!(parse_scaled(&chars("inf"), 0), None);
    assert_eq!(parse_scaled(&chars("."), 0), None);
    assert_eq!(parse_scaled(&chars(""), 0), None);
    assert_eq!(parse_scaled(&chars("-"), 0), None);
    assert_eq!(parse_scaled(&chars("1.2.3"), 0), None);
    assert_eq!(parse_scaled(&chars("99999999999999999999999"), 0), Some(i64::MAX));
    assert_eq!(parse_scaled(&chars("-99999999999999999999999"), 0), Some(i64::MIN));
}

#[test]
fn altitude_saturates_like_a_cast() {
    let mut st = AircraftStore::new();
    assert!(st.push_line("MSG,3,1,1,AAAAAA,1,,,,,,3000000000,,,,,-4000000000,,,,,", 0));
    let rows = st.rows(0);
    assert_eq!(rows[0].0.alt, Some(i32::MAX));
    assert_eq!(rows[0].0.vr, Some(i32::MIN));
}

#[test]
fn trail_grows_on_moves_and_is_capped() {
    let mut st = AircraftStore::new();
    for i in 0..30 {
        let line = format!("MSG,3,1,1,AAAAAA,1,,,,,,,,,{}.0,20.0,,,,,,", 10 + i);
        assert!(st.push_line(&line, i));
        // a repeat of the same fix does not extend the trail
        assert!(st.push_line(&line, i));
    }
    let rows = st.rows(30);
    let ac = &rows[0].0;
    assert_eq!(ac.trail.len(), 24);
    assert_eq!(ac.trail[0], (160_000_000, 200_000_000));
    assert_eq!(ac.trail[23], (390_000_000, 200_000_000));
    assert_eq!(ac.msgs, 60);
    // a move of one step (1e-5 degree) is not enough, a bit more is
    assert!(st.push_line("MSG,3,1,1,AAAAAA,1,,,,,,,,,39.00001,20.0,,,,,,", 31));
    assert_eq!(st.rows(31)[0].0.trail.len(), 24);
    assert_eq!(st.rows(31)[0].0.trail[23], (390_000_000, 200_000_000));
    assert!(st.push_line("MSG,3,1,1,AAAAAA,1,,,,,,,,,39.000011,20.0,,,,,,", 32));
    assert_eq!(st.rows(32)[0].0.trail[23], (390_000_110, 200_000_000));
}

#[test]
fn rows_fresher_first_then_busier() {
    let mut st = AircraftStore::new();
    assert!(st.push_line("MSG,1,1,1,000001,1,,,,,A,,,,,,,,,,,", 1_000));
    assert!(st.push_line("MSG,1,1,1,000002,1,,,,,B,,,,,,,,,,,", 3_000));
    assert!(st.push_line("MSG,1,1,1,000003,1,,,,,C,,,,,,,,,,,", 3_000));
    assert!(st.push_line("MSG,1,1,1,000003,1,,,,,C,,,,,,,,,,,", 3_000));
    assert!(st.push_line("MSG,1,1,1,000004,1,,,,,D,,,,,,,,,,,", 9_000));
    let rows = st.rows(10_000);
    let order: Vec<&str> = rows.iter().map(|r| r.0.callsign.as_str()).collect();
    assert_eq!(order, vec!["D", "C", "B", "A"]);
    assert_eq!(rows.iter().map(|r| r.1).collect::<Vec<_>>(), vec![1_000, 7_000, 7_000, 9_000]);
    // heard "in the future" counts as age zero
    assert_eq!(st.rows(0)[0].1, 0);
    st.purge(10_000, 7);
    assert_eq!(st.len(), 3);
    st.purge(10_000, 1);
    assert_eq!(st.len(), 1);
    assert_eq!(st.total_msgs(), 5);
}

#[test]
fn message_shape_checks() {
    let mut st = AircraftStore::new();
    // too few fields
    assert!(!st.push_line("MSG,3,1,1,AAAAAA,1,,,,", 0));
    // not MSG
    assert!(!st.push_line("STA,3,1,1,AAAAAA,1,,,,,,,,,,,,,,,,", 0));
    // blank ident
    assert!(!st.push_line("MSG,3,1,1,  ,1,,,,,,,,,,,,,,,,", 0));
    assert!(st.is_empty());
    assert_eq!(st.total_msgs(), 0);
    // exactly eleven fields is enough
    assert!(st.push_line("MSG,3,1,1,AAAAAA,1,,,,,CALL", 0));
    assert_eq!(st.rows(0)[0].0.callsign, "CALL");
}

#[test]
fn message_fields_with_given_ident() {
    let line = "MSG,1,1,1,ignored,1,,,,,CALL1,,,,,,,,,,,";
    let fields: Vec<Vec<char>> = line.split(',').map(chars).collect();
    let mut st = AircraftStore::new();
    assert!(st.push_message(&fields, &"Ab12".to_string(), 7));
    assert!(!st.push_message(&fields, &String::new(), 7));
    let rows = st.rows(7);
    assert_eq!(rows.len(), 1);
    assert_eq!(rows[0].0.icao, "Ab12");
    assert_eq!(rows[0].0.callsign, "CALL1");
}
