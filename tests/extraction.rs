use std::io::Write;

use flate2::write::ZlibEncoder;
use flate2::Compression;
use jpeg_extract::{
    artifact_path, decimal_string, extract_images, find_terminator, has_marker_at,
    output_dir_for, process, sanitize_title, HexError, Outcome,
};

const MARKER: &[u8] = b"TJPEGImage\r\n";

fn record(hex_text: &[u8]) -> Vec<u8> {
    let mut v = MARKER.to_vec();
    v.extend_from_slice(hex_text);
    v.push(b'\r');
    v
}

fn compress(data: &[u8]) -> Vec<u8> {
    let mut e = ZlibEncoder::new(Vec::new(), Compression::default());
    e.write_all(data).unwrap();
    e.finish().unwrap()
}

fn image(index: usize, path: &str, data: &[u8]) -> Outcome {
    Outcome::Image { index, path: path.to_string(), data: data.to_vec() }
}

#[test]
fn single_record_in_default_folder_with_sanitized_title() {
    let mut buf = record(b"FFD8FF");
    buf.extend_from_slice(b"trailing junk");
    let r = extract_images(&buf, "a.b?c", "");
    assert_eq!(r, vec![image(1, "out/a_b_c_1.jpg", &[0xFF, 0xD8, 0xFF])]);
}

#[test]
fn bad_hex_is_reported_and_not_counted() {
    let mut buf = record(b"Z");
    buf.extend_from_slice(&record(b"ab"));
    let r = extract_images(&buf, "t", "o");
    assert_eq!(
        r,
        vec![
            Outcome::BadHex { error: HexError::OddLength },
            image(1, "o/t_1.jpg", &[0xAB]),
        ]
    );
    let only_bad = record(b"zz");
    let r = extract_images(&only_bad, "t", "o");
    assert_eq!(
        r,
        vec![Outcome::BadHex { error: HexError::InvalidHexCharacter { byte: b'z', index: 0 } }]
    );
    assert_eq!(r.iter().filter(|o| matches!(o, Outcome::Image { .. })).count(), 0);
}

#[test]
fn rows_are_numbered_separately() {
    let mut a = record(b"01");
    a.extend_from_slice(&record(b"02"));
    let mut b = b"xx".to_vec();
    b.extend_from_slice(&record(b"03"));
    b.extend_from_slice(&record(b"04"));
    let ra = extract_images(&a, "first", "d");
    let rb = extract_images(&b, "second", "d");
    assert_eq!(ra, vec![image(1, "d/first_1.jpg", &[1]), image(2, "d/first_2.jpg", &[2])]);
    assert_eq!(rb, vec![image(1, "d/second_1.jpg", &[3]), image(2, "d/second_2.jpg", &[4])]);
}

#[test]
fn embedded_hex_decodes_to_image_bytes_bytes() {
    let image_bytes: Vec<u8> = (0u8..=255).collect();
    let mut buf = b"some leading bytes\r\n".to_vec();
    buf.extend_from_slice(&record(hex::encode(&image_bytes).as_bytes()));
    buf.extend_from_slice(b"more \r bytes after");
    let r = extract_images(&buf, "img", "dir");
    assert_eq!(r, vec![image(1, "dir/img_1.jpg", &image_bytes)]);
}

#[test]
fn marker_without_terminator_gives_nothing() {
    let mut buf = record(b"aa");
    buf.extend_from_slice(MARKER);
    buf.extend_from_slice(b"bbcc");
    let r = extract_images(&buf, "t", "o");
    assert_eq!(r, vec![image(1, "o/t_1.jpg", &[0xAA])]);
}

#[test]
fn one_outcome_per_terminated_marker() {
    let mut buf = Vec::new();
    for t in [&b"10"[..], b"2", b"30", b"4g"] {
        buf.extend_from_slice(&record(t));
        buf.extend_from_slice(b"..");
    }
    let r = extract_images(&buf, "n", "o");
    assert_eq!(r.len(), 4);
    assert_eq!(
        r,
        vec![
            image(1, "o/n_1.jpg", &[0x10]),
            Outcome::BadHex { error: HexError::OddLength },
            image(2, "o/n_2.jpg", &[0x30]),
            Outcome::BadHex { error: HexError::InvalidHexCharacter { byte: b'g', index: 1 } },
        ]
    );
}

#[test]
fn following_marker_ends_the_previous_text() {
    let mut buf = MARKER.to_vec();
    buf.extend_from_slice(b"ff");
    buf.extend_from_slice(&record(b"aa"));
    let r = extract_images(&buf, "t", "o");
    assert_eq!(
        r,
        vec![
            Outcome::BadHex { error: HexError::InvalidHexCharacter { byte: b'T', index: 2 } },
            image(1, "o/t_1.jpg", &[0xAA]),
        ]
    );
}

#[test]
fn upper_and_lower_case_hex_decode() {
    let r = extract_images(&record(b"aBcD"), "t", "o");
    assert_eq!(r, vec![image(1, "o/t_1.jpg", &[0xAB, 0xCD])]);
}

#[test]
fn empty_hex_text_is_an_empty_image() {
    let r = extract_images(&record(b""), "t", "o");
    assert_eq!(r, vec![image(1, "o/t_1.jpg", &[])]);
}

#[test]
fn empty_and_short_buffers_have_no_records() {
    assert_eq!(extract_images(&[], "t", "o"), vec![]);
    assert_eq!(extract_images(b"TJPEG", "t", "o"), vec![]);
    assert_eq!(extract_images(&MARKER[..11], "t", "o"), vec![]);
    assert_eq!(extract_images(MARKER, "t", "o"), vec![]);
}

#[test]
fn extraction_is_repeatable() {
    let buf = record(b"0102");
    assert_eq!(extract_images(&buf, "t", "o"), extract_images(&buf, "t", "o"));
}

#[test]
fn sanitize_replaces_dot_and_question_mark() {
    assert_eq!(sanitize_title("a.b?c").as_str(), "a_b_c");
    assert_eq!(sanitize_title("..??").as_str(), "____");
    assert_eq!(sanitize_title("plain title/x").as_str(), "plain title/x");
    assert_eq!(sanitize_title("标题.一").as_str(), "标题_一");
    assert_eq!(sanitize_title("").as_str(), "");
}

#[test]
fn decimal_text() {
    assert_eq!(decimal_string(0).as_str(), "0");
    assert_eq!(decimal_string(7).as_str(), "7");
    assert_eq!(decimal_string(10).as_str(), "10");
    assert_eq!(decimal_string(1234).as_str(), "1234");
    assert_eq!(decimal_string(usize::MAX), usize::MAX.to_string());
}

#[test]
fn output_folder_defaults_to_out() {
    assert_eq!(output_dir_for("").as_str(), "out");
    assert_eq!(output_dir_for("images").as_str(), "images");
}

#[test]
fn artifact_path_layout() {
    assert_eq!(artifact_path("dir", "a.b", 12).as_str(), "dir/a_b_12.jpg");
    assert_eq!(artifact_path("", "x?", 3).as_str(), "out/x__3.jpg");
}

#[test]
fn marker_and_terminator_search() {
    let mut buf = b"ab".to_vec();
    buf.extend_from_slice(MARKER);
    assert!(!has_marker_at(&buf, 0));
    assert!(has_marker_at(&buf, 2));
    assert!(!has_marker_at(&buf, 3));
    assert!(!has_marker_at(&buf, 100));
    assert_eq!(find_terminator(&buf, 0), Some(12));
    assert_eq!(find_terminator(&buf, 13), None);
    assert_eq!(find_terminator(&buf, 100), None);
}

#[test]
fn process_inflates_then_extracts() {
    let mut raw = b"header ".to_vec();
    raw.extend_from_slice(&record(b"FFD8FF"));
    raw.extend_from_slice(&record(b"00"));
    let r = process(&compress(&raw), "row.1", "");
    assert!(r.decompress_error.is_none());
    assert_eq!(r.inflated, raw);
    assert_eq!(
        r.outcomes,
        vec![image(1, "out/row_1_1.jpg", &[0xFF, 0xD8, 0xFF]), image(2, "out/row_1_2.jpg", &[0])]
    );
}

#[test]
fn process_reports_bad_payload_and_goes_on() {
    let r = process(b"not zlib at all", "t", "o");
    assert!(r.decompress_error.is_some());
    assert_eq!(r.outcomes, vec![]);
}

#[test]
fn process_of_empty_stream() {
    let r = process(&compress(b""), "t", "o");
    assert!(r.decompress_error.is_none());
    assert_eq!(r.outcomes, vec![]);
}

#[test]
fn process_of_truncated_stream_reports_error() {
    let mut raw = record(b"0a0b");
    raw.extend_from_slice(&[7u8; 4000]);
    let mut z = compress(&raw);
    z.truncate(z.len() - 6);
    let r = process(&z, "t", "o");
    assert!(r.decompress_error.is_some());
    assert!(raw.starts_with(&r.inflated));
    assert_eq!(r.outcomes, extract_images(&r.inflated, "t", "o"));
}

#[test]
fn invalid_string_length_is_never_given_for_records() {
    let r = extract_images(&record(b"abc"), "t", "o");
    assert_eq!(r, vec![Outcome::BadHex { error: HexError::OddLength }]);
}

#[test]
fn trailing_unterminated_marker_changes_nothing() {
    let mut b = b"x".to_vec();
    b.extend_from_slice(&record(b"0102"));
    b.extend_from_slice(&record(b"q"));
    let mut longer = b.clone();
    longer.extend_from_slice(MARKER);
    longer.extend_from_slice(b"abab\n");
    assert_eq!(extract_images(&longer, "t", "o"), extract_images(&b, "t", "o"));
    assert_eq!(extract_images(&b, "t", "o").len(), 2);
}

#[test]
fn upper_case_encoding_round_trips() {
    let bytes: Vec<u8> = vec![0x00, 0x7F, 0xAB, 0xFF];
    let mut buf = b"lead".to_vec();
    buf.extend_from_slice(&record(hex::encode_upper(&bytes).as_bytes()));
    buf.extend_from_slice(b"tail");
    assert_eq!(extract_images(&buf, "u", ""), vec![image(1, "out/u_1.jpg", &bytes)]);
}
