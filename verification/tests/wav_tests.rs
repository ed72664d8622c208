use deck::modes::ModeId;
use deck::rec::{comment_from_text, finished_header, info_chunk, recording_name, wav_comment, wav_fields, wav_header};

fn le32(b: &[u8], at: usize) -> u32 {
    u32::from_le_bytes([b[at], b[at + 1], b[at + 2], b[at + 3]])
}

/// A finished file as the recorder writes it.
fn file(rate: u32, samples: &[u8], comment: &str) -> Vec<u8> {
    let trailer = info_chunk(comment);
    let mut f = finished_header(rate, samples.len() as u32, trailer.len() as u32);
    f.extend_from_slice(samples);
    f.extend_from_slice(&trailer);
    f
}

#[test]
fn wav_header_is_valid() {
    let samples: Vec<u8> = (0..1000i16).flat_map(|v| v.to_le_bytes()).collect();
    let bytes = file(48_000, &samples, "deck test src=YT7OP tg=91");
    assert_eq!(&bytes[..4], b"RIFF");
    assert_eq!(&bytes[8..12], b"WAVE");
    let riff = le32(&bytes, 4);
    assert_eq!(riff as usize, bytes.len() - 8);
    let data = le32(&bytes, 40);
    assert_eq!(data, 2000);
    let rate = le32(&bytes, 24);
    assert_eq!(rate, 48_000);
    // embedded RIFF INFO comment reads back
    assert_eq!(wav_comment(&bytes).as_deref(), Some("deck test src=YT7OP tg=91"));
}

#[test]
fn fresh_header_layout() {
    let h = wav_header(48_000, 0, 0);
    assert_eq!(h.len(), 44);
    assert_eq!(&h[..4], b"RIFF");
    assert_eq!(&h[8..16], b"WAVEfmt ");
    assert_eq!(le32(&h, 16), 16);
    assert_eq!(u16::from_le_bytes([h[20], h[21]]), 1);
    assert_eq!(u16::from_le_bytes([h[22], h[23]]), 1);
    assert_eq!(le32(&h, 24), 48_000);
    assert_eq!(le32(&h, 28), 96_000);
    assert_eq!(u16::from_le_bytes([h[32], h[33]]), 2);
    assert_eq!(u16::from_le_bytes([h[34], h[35]]), 16);
    assert_eq!(&h[36..40], b"data");
    assert_eq!(le32(&h, 4), 0);
    assert_eq!(le32(&h, 40), 0);
}

#[test]
fn header_fields_read_back() {
    let f = file(22_050, &[0u8; 96_000], "");
    assert_eq!(wav_fields(&f), Some((22_050, 96_000)));
    assert_eq!(wav_fields(&f[..43]), None);
    let mut bad = f.clone();
    bad[0] = b'X';
    assert_eq!(wav_fields(&bad), None);
}

#[test]
fn comment_chunk_layout() {
    assert!(info_chunk("").is_empty());
    // odd text + NUL is even: no pad
    let c = info_chunk("abc");
    assert_eq!(&c[..4], b"LIST");
    assert_eq!(le32(&c, 4), 4 + 8 + 4);
    assert_eq!(&c[8..16], b"INFOICMT");
    assert_eq!(le32(&c, 16), 4);
    assert_eq!(&c[20..], b"abc\0");
    // even text + NUL is odd: one pad byte
    let c = info_chunk("ab");
    assert_eq!(le32(&c, 16), 4);
    assert_eq!(&c[20..], b"ab\0\0");
}

#[test]
fn comment_absent_or_blank() {
    let samples = [1u8, 2, 3, 4];
    assert_eq!(wav_comment(&file(8_000, &samples, "")), None);
    assert_eq!(wav_comment(&file(8_000, &samples, "   ")), None);
    assert_eq!(wav_comment(&file(8_000, &samples, "  padded ")).as_deref(), Some("padded"));
    assert_eq!(wav_comment(b"not a wav file at all"), None);
    assert_eq!(wav_comment(&[]), None);
}

#[test]
fn comment_after_other_chunks() {
    // RIFF/WAVE with an odd-sized junk chunk (padded), then LIST/INFO with
    // another sub-chunk before ICMT
    let mut f = Vec::new();
    f.extend_from_slice(b"RIFF\0\0\0\0WAVE");
    f.extend_from_slice(b"junk");
    f.extend_from_slice(&3u32.to_le_bytes());
    f.extend_from_slice(b"xyz\0");
    let mut list = Vec::new();
    list.extend_from_slice(b"INFO");
    list.extend_from_slice(b"INAM");
    list.extend_from_slice(&5u32.to_le_bytes());
    list.extend_from_slice(b"name\0\0");
    list.extend_from_slice(b"ICMT");
    list.extend_from_slice(&8u32.to_le_bytes());
    list.extend_from_slice("séance".as_bytes());
    list.push(0);
    f.extend_from_slice(b"LIST");
    f.extend_from_slice(&(list.len() as u32).to_le_bytes());
    f.extend_from_slice(&list);
    assert_eq!(wav_comment(&f).as_deref(), Some("séance"));
}

#[test]
fn non_ascii_comment_round_trips() {
    let f = file(48_000, &[0u8; 8], "DMR TG 2622 – Čačak");
    assert_eq!(wav_comment(&f).as_deref(), Some("DMR TG 2622 – Čačak"));
}

#[test]
fn recording_names() {
    assert_eq!(
        recording_name(ModeId::Dmr, 438_612_500, "20260706-140322"),
        "deck_dmr_438.612500_20260706-140322.wav"
    );
    assert_eq!(
        recording_name(ModeId::Waterfall, 433_920_000, "20260706-140322"),
        "deck_iq_433.920000_20260706-140322"
    );
}

#[test]
fn comment_text_cleanup() {

    assert_eq!(comment_from_text("  deck FM \0\0").as_deref(), Some("deck FM"));
    assert_eq!(comment_from_text("\0\0"), None);
    assert_eq!(comment_from_text(" \t "), None);
}

#[test]
fn invalid_utf8_comment_is_read_lossily() {
    let mut f = Vec::new();
    f.extend_from_slice(b"RIFF\0\0\0\0WAVE");
    let mut list = Vec::new();
    list.extend_from_slice(b"INFO");
    list.extend_from_slice(b"ICMT");
    list.extend_from_slice(&6u32.to_le_bytes());
    list.extend_from_slice(b"ab\xffcd\0");
    f.extend_from_slice(b"LIST");
    f.extend_from_slice(&(list.len() as u32).to_le_bytes());
    f.extend_from_slice(&list);
    assert_eq!(wav_comment(&f).as_deref(), Some("ab\u{FFFD}cd"));
}
