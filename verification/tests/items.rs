use std::collections::hash_map::DefaultHasher;
use std::hash::Hasher;

use clipboard::convert::{non_empty_raw, raw_to_clipboard_item, text_only_item};
use clipboard::item::{
    hash, ClipboardEntry, ClipboardItem, ClipboardString, ExternalPaths, Image, ImageFormat,
    RawClipboardEntry, RawClipboardItem,
};
use clipboard::text::{decode, joined, push_decimal, unix_line_endings};

fn string(text: &str) -> ClipboardEntry {
    ClipboardEntry::String(ClipboardString::new(text.to_string()))
}

fn paths(paths: &[&str]) -> ClipboardEntry {
    ClipboardEntry::ExternalPaths(ExternalPaths(
        paths.iter().map(|path| path.to_string()).collect(),
    ))
}

fn image(format: ImageFormat, bytes: &[u8]) -> ClipboardEntry {
    ClipboardEntry::Image(Image::from_bytes(format, bytes.to_vec()))
}

fn raw(format: &str, bytes: &[u8]) -> RawClipboardEntry {
    RawClipboardEntry { format: format.to_string(), bytes: bytes.to_vec() }
}

#[test]
fn image_formats_and_mime_types() {
    let expected = [
        (ImageFormat::Png, "image/png"),
        (ImageFormat::Jpeg, "image/jpeg"),
        (ImageFormat::Webp, "image/webp"),
        (ImageFormat::Gif, "image/gif"),
        (ImageFormat::Svg, "image/svg+xml"),
        (ImageFormat::Bmp, "image/bmp"),
        (ImageFormat::Tiff, "image/tiff"),
        (ImageFormat::Ico, "image/ico"),
    ];
    let formats: Vec<ImageFormat> = expected.iter().map(|(format, _)| *format).collect();
    assert_eq!(ImageFormat::iter(), formats);
    for (format, mime_type) in expected {
        assert_eq!(format.mime_type(), mime_type);
        assert_eq!(ImageFormat::from_mime_type(mime_type), Some(format));
    }
    assert_eq!(ImageFormat::from_mime_type("image/jpg"), Some(ImageFormat::Jpeg));
    assert_eq!(ImageFormat::from_mime_type("image/tif"), Some(ImageFormat::Tiff));
    assert_eq!(ImageFormat::from_mime_type("image/PNG"), None);
    assert_eq!(ImageFormat::from_mime_type("text/plain"), None);
    assert_eq!(ImageFormat::from_mime_type(""), None);
}

#[test]
fn hashes_follow_the_bytes() {
    let mut hasher = DefaultHasher::new();
    hasher.write(&[1, 2]);
    assert_eq!(hash(&vec![1, 2]), hasher.finish());
    assert_ne!(hash(&vec![1, 2]), hash(&vec![2, 1]));
    assert_eq!(
        Image::from_bytes(ImageFormat::Gif, vec![9]),
        Image { format: ImageFormat::Gif, bytes: vec![9], id: hash(&vec![9]) }
    );
}

#[test]
fn text_of_items() {
    let item = ClipboardItem {
        entries: vec![string("a"), paths(&["/p"]), image(ImageFormat::Png, &[1]), string("b")],
    };
    assert_eq!(item.text(), Some("ab".to_string()));
    assert_eq!(item.entries().len(), 4);
    let item = ClipboardItem { entries: vec![paths(&["/p", "/q"]), string(""), paths(&["/r"])] };
    assert_eq!(item.text(), Some("/p/q/r".to_string()));
    assert_eq!(ClipboardItem { entries: vec![string("")] }.text(), None);
    assert_eq!(ClipboardItem { entries: vec![image(ImageFormat::Png, &[1])] }.text(), None);
    assert_eq!(ClipboardItem { entries: vec![] }.text(), None);
}

#[test]
fn text_only_items() {
    let item = ClipboardItem { entries: vec![string("a"), paths(&["/p"])] };
    assert_eq!(text_only_item(&item), Some("a".to_string()));
    assert_eq!(text_only_item(&ClipboardItem { entries: vec![] }), Some(String::new()));
    let item = ClipboardItem { entries: vec![string("a"), image(ImageFormat::Png, &[1])] };
    assert_eq!(text_only_item(&item), None);
}

#[test]
fn items_become_payloads() {
    let item = ClipboardItem {
        entries: vec![
            string("h\u{e9}"),
            paths(&["/p"]),
            image(ImageFormat::Jpeg, &[1, 2]),
            string(""),
        ],
    };
    assert_eq!(
        RawClipboardItem::from_clipboard_item(&item).entries,
        vec![
            raw("text/plain", "h\u{e9}".as_bytes()),
            raw("image/jpeg", &[1, 2]),
            raw("text/plain", b""),
        ]
    );
}

#[test]
fn payloads_become_items() {
    let item = raw_to_clipboard_item(&RawClipboardItem {
        entries: vec![
            raw("image/jpg", &[3]),
            raw("text/html", b"<b>"),
            raw("text/plain", &[0xff]),
            raw("text/plain", b"x\r\n"),
            raw("", b"x"),
        ],
    });
    assert_eq!(
        item,
        Some(ClipboardItem { entries: vec![image(ImageFormat::Jpeg, &[3]), string("x\r\n")] })
    );
    assert_eq!(
        raw_to_clipboard_item(&RawClipboardItem { entries: vec![raw("text/html", b"<b>")] }),
        None
    );
    assert_eq!(raw_to_clipboard_item(&RawClipboardItem { entries: vec![] }), None);
}

#[test]
fn texts_and_images_survive_payloads() {
    let item = ClipboardItem {
        entries: vec![
            string("a"),
            image(ImageFormat::Svg, &[4]),
            string("\u{1f343}"),
            image(ImageFormat::Tiff, &[]),
        ],
    };
    let payloads = RawClipboardItem::from_clipboard_item(&item);
    assert_eq!(raw_to_clipboard_item(&payloads), Some(item));
}

#[test]
fn foreign_identifiers_and_paths_do_not_survive_payloads() {
    let item = ClipboardItem {
        entries: vec![
            paths(&["/p"]),
            ClipboardEntry::Image(Image { format: ImageFormat::Png, bytes: vec![1], id: 0 }),
        ],
    };
    let payloads = RawClipboardItem::from_clipboard_item(&item);
    assert_eq!(
        raw_to_clipboard_item(&payloads),
        Some(ClipboardItem { entries: vec![image(ImageFormat::Png, &[1])] })
    );
}

#[test]
fn raw_items_are_not_empty() {
    assert_eq!(non_empty_raw(vec![]), None);
    assert_eq!(
        non_empty_raw(vec![raw("a", &[])]),
        Some(RawClipboardItem { entries: vec![raw("a", &[])] })
    );
}

#[test]
fn copies_are_equal() {
    let item = ClipboardItem {
        entries: vec![string("a"), image(ImageFormat::Png, &[1, 2]), paths(&["/p", "/q"])],
    };
    assert_eq!(item.clone(), item);
    let payloads = RawClipboardItem { entries: vec![raw("a", &[1]), raw("b", &[])] };
    assert_eq!(payloads.clone(), payloads);
}

#[test]
fn line_endings() {
    assert_eq!(unix_line_endings(""), "");
    assert_eq!(unix_line_endings("a\nb\rc"), "a\nb\rc");
    assert_eq!(unix_line_endings("\r\n"), "\n");
    assert_eq!(unix_line_endings("\r\n\r\n"), "\n\n");
    assert_eq!(unix_line_endings("\n\r"), "\n\r");
    assert_eq!(unix_line_endings("\r\r\n"), "\r\n");
    assert_eq!(unix_line_endings("a\r"), "a\r");
    assert_eq!(unix_line_endings("\u{e9}\r\n\u{1f343}"), "\u{e9}\n\u{1f343}");
    for text in ["", "\r\r\r\n\n", "a\r\nb\r\n", "\r", "\u{e9}\r\n"] {
        assert_eq!(unix_line_endings(text), text.replace("\r\n", "\n"));
    }
    let once = unix_line_endings("a\r\nb\rc\r\n");
    assert_eq!(unix_line_endings(&once), once);
}

#[test]
fn decoding() {
    assert_eq!(decode(b"abc".to_vec()), Some("abc".to_string()));
    assert_eq!(decode("l\u{f6}ve".as_bytes().to_vec()), Some("l\u{f6}ve".to_string()));
    assert_eq!(decode(vec![0xed, 0xa0, 0x80]), None);
    assert_eq!(decode(vec![0xc3]), None);
}

#[test]
fn small_text_helpers() {
    let mut out = "n".to_string();
    push_decimal(&mut out, 1203);
    push_decimal(&mut out, 0);
    assert_eq!(out, "n12030");
    assert_eq!(joined("a", "b", "c"), "abc");
}
