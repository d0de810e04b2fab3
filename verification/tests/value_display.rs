use std::io::Write;

use flate2::write::GzEncoder;
use flate2::Compression;
use ramag_tools::value_display::{
    pretty_json, render_bytes, render_text, to_hex_dump, try_decompress_gzip, ViewMode,
};

#[test]
fn gzip_detect_and_decompress() {
    let mut enc = GzEncoder::new(Vec::new(), Compression::default());
    enc.write_all(b"hello world").unwrap();
    let compressed = enc.finish().unwrap();

    let out = try_decompress_gzip(&compressed).unwrap();
    assert_eq!(&out, b"hello world");
}

#[test]
fn gzip_non_gzip_returns_none() {
    assert!(try_decompress_gzip(b"not gzip").is_none());
    assert!(try_decompress_gzip(&[0x1f]).is_none());
}

#[test]
fn gzip_magic_but_corrupt_returns_none() {
    assert!(try_decompress_gzip(&[0x1f, 0x8b, 0x00, 0x01]).is_none());
}

#[test]
fn pretty_json_valid() {
    let out = pretty_json(br#"{"a":1,"b":[2,3]}"#);
    assert!(out.contains("\n  \"a\": 1"));
}

#[test]
fn pretty_json_invalid_returns_preview() {
    let out = pretty_json(b"not json");
    assert!(out.contains("无法解析"));
    assert!(out.contains("not json"));
}

#[test]
fn pretty_json_invalid_non_utf8_notes_it() {
    let out = pretty_json(&[0xff, 0xfe]);
    assert!(out.starts_with("(无法解析为 JSON："));
    assert!(out.ends_with(")\n\n（非 UTF-8）"));
}

#[test]
fn hex_dump_format() {
    let out = to_hex_dump(b"AB12");
    assert!(out.starts_with("00000000  41 42 31 32"));
    assert!(out.contains("|AB12|"));
}

#[test]
fn hex_dump_exact_line() {
    let out = to_hex_dump(b"AB12");
    let expected = format!("00000000  41 42 31 32 {}  |AB12|\n", "   ".repeat(12));
    assert_eq!(out, expected);
}

#[test]
fn hex_dump_two_lines_and_dots() {
    let data: Vec<u8> = (0u8..17).collect();
    let out = to_hex_dump(&data);
    let lines: Vec<&str> = out.lines().collect();
    assert_eq!(lines.len(), 2);
    assert_eq!(
        lines[0],
        "00000000  00 01 02 03 04 05 06 07  08 09 0a 0b 0c 0d 0e 0f  |................|"
    );
    assert!(lines[1].starts_with("00000010  10 "));
    assert!(lines[1].ends_with("|.|"));
}

#[test]
fn hex_dump_empty() {
    assert_eq!(to_hex_dump(b""), "");
}

#[test]
fn render_text_modes() {
    assert_eq!(render_text("hi", ViewMode::Raw), "hi");
    assert_eq!(render_text("hi", ViewMode::Base64), "aGk=");
}

#[test]
fn render_text_base64_lengths() {
    assert_eq!(render_text("", ViewMode::Base64), "");
    assert_eq!(render_text("h", ViewMode::Base64), "aA==");
    assert_eq!(render_text("hey", ViewMode::Base64), "aGV5");
    assert_eq!(render_text("hello?>", ViewMode::Base64), "aGVsbG8/Pg==");
}

#[test]
fn render_bytes_non_utf8_raw() {
    let s = render_bytes(&[0xff, 0xfe], ViewMode::Raw);
    assert!(s.contains("非 UTF-8"));
    assert_eq!(s, "[2 bytes：非 UTF-8，请切到 Hex/base64 查看]");
}

#[test]
fn render_bytes_hex_matches_dump() {
    assert_eq!(render_bytes(b"AB12", ViewMode::Hex), to_hex_dump(b"AB12"));
}

#[test]
fn view_mode_labels() {
    let labels: Vec<&str> = ViewMode::all().iter().map(|m| m.label()).collect();
    assert_eq!(labels, vec!["Raw", "JSON", "Hex", "base64"]);
    assert_eq!(ViewMode::default_mode(), ViewMode::Raw);
}

#[test]
fn text_renders_as_its_bytes() {
    for text in ["{\"b\":[1,2],\"a\":null}", "not json", "héllo"] {
        for mode in [ViewMode::Json, ViewMode::Hex, ViewMode::Base64] {
            assert_eq!(render_text(text, mode), render_bytes(text.as_bytes(), mode));
        }
        assert_eq!(render_text(text, ViewMode::Raw), text);
        assert_eq!(render_bytes(text.as_bytes(), ViewMode::Raw), text);
    }
    assert_eq!(pretty_json(b"[1]"), "[\n  1\n]");
}
