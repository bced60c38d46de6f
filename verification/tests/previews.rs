use base64::Engine;
use iyam_dsh::file_preview::{data_preview, file_name_of, text_preview};

/// Image preview: the base64 of a data URL decodes back to the file's bytes.
#[test]
fn image_data_url_round_trip() {
    let png: Vec<u8> = vec![
        0x89, 0x50, 0x4E, 0x47, 0x0D, 0x0A, 0x1A, 0x0A, 0x00, 0x00, 0x00, 0x0D,
        0x49, 0x48, 0x44, 0x52, 0x00, 0x00, 0x00, 0x01, 0x00, 0x00, 0x00, 0x01,
    ];
    let path = "/tmp/iyam-dsh-test-img.png";
    let preview = data_preview(path, png.len() as u64, &png);
    assert_eq!(preview.size as usize, png.len());
    assert_eq!(preview.name, "iyam-dsh-test-img.png");

    let data_url = format!("data:image/png;base64,{}", preview.base64);
    let b64 = data_url.split(',').nth(1).expect("data url");
    let decoded = base64::engine::general_purpose::STANDARD.decode(b64).expect("base64");
    assert_eq!(decoded, png);
}

/// Text preview: UTF-8 content (Chinese included) comes back whole.
#[test]
fn text_file_content_round_trip() {
    let content = "你好，世界\nline2\n```rust\nlet x = 1;\n```\n";
    let path = "C:\\Users\\u\\iyam-dsh-test-notes.md";
    let preview = text_preview(path, content.len() as u64, content.as_bytes());
    assert_eq!(preview.content, content);
    assert_eq!(preview.name, "iyam-dsh-test-notes.md");
}

#[test]
fn base64_padding_cases() {
    assert_eq!(data_preview("a", 0, b"").base64, "");
    assert_eq!(data_preview("a", 1, b"M").base64, "TQ==");
    assert_eq!(data_preview("a", 2, b"Ma").base64, "TWE=");
    assert_eq!(data_preview("a", 3, b"Man").base64, "TWFu");
    assert_eq!(data_preview("a", 3, &[0xff, 0xfe, 0x3f]).base64, "//4/");
    assert_eq!(data_preview("a", 4, &[0xfb, 0xff, 0xbf, 0x00]).base64, "+/+/AA==");
}

#[test]
fn invalid_utf8_is_replaced() {
    let p = text_preview("x.bin", 3, &[0x61, 0xff, 0x62]);
    assert_eq!(p.content, "a\u{fffd}b");
    assert_eq!(p.size, 3);
}

#[test]
fn file_names_after_either_separator() {
    assert_eq!(file_name_of("/a/b/c.txt"), "c.txt");
    assert_eq!(file_name_of("C:\\a\\b.txt"), "b.txt");
    assert_eq!(file_name_of("a/b\\c"), "c");
    assert_eq!(file_name_of("plain"), "plain");
    assert_eq!(file_name_of("dir/"), "");
    assert_eq!(file_name_of(""), "");
}
