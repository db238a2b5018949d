use std::cell::RefCell;
use std::collections::hash_map::DefaultHasher;
use std::hash::Hasher;

use clipboard::item::{
    ClipboardEntry, ClipboardItem, ClipboardString, ExternalPaths, Image, ImageFormat,
    RawClipboardEntry, RawClipboardItem,
};
use clipboard::offer::{
    image_item, is_allowed_text_type, text_item, DataOffer, ALLOWED_TEXT_MIME_TYPES,
    FILE_LIST_MIME_TYPE, TEXT_MIME_TYPES,
};
use clipboard::reader::Reader;
use clipboard::transfer::{Transfer, TransferStep, WriteOutcome};
use clipboard::wayland::{process_mime_type, Clipboard};

#[derive(Clone, Debug)]
struct TestOffer;

fn offer_of(mime_types: &[&str]) -> DataOffer<TestOffer> {
    let mut offer = DataOffer::new(TestOffer);
    for mime_type in mime_types {
        offer.add_mime_type(mime_type.to_string());
    }
    offer
}

fn hash_of(bytes: &[u8]) -> u64 {
    let mut hasher = DefaultHasher::new();
    hasher.write(bytes);
    hasher.finish()
}

fn nothing(_mime_type: &str) -> Option<Vec<u8>> {
    panic!("nothing should be fetched")
}

#[test]
fn read_raw_preserves_mime_type_order_and_payloads() {
    let mut offer = DataOffer::new(TestOffer);
    offer.add_mime_type("text/plain;charset=utf-8".to_string());
    offer.add_mime_type("image/png".to_string());
    offer.add_mime_type("application/missing".to_string());

    let item = offer
        .read_raw_with(&mut Reader::new(|mime_type| match mime_type {
            "text/plain;charset=utf-8" => Some(b"hello".to_vec()),
            "image/png" => Some(vec![0x89, b'P', b'N', b'G']),
            "application/missing" => None,
            _ => unreachable!("unexpected MIME type {mime_type}"),
        }))
        .expect("raw MIME entries");

    assert_eq!(
        item,
        RawClipboardItem {
            entries: vec![
                RawClipboardEntry {
                    format: "text/plain;charset=utf-8".to_string(),
                    bytes: b"hello".to_vec(),
                },
                RawClipboardEntry {
                    format: "image/png".to_string(),
                    bytes: vec![0x89, b'P', b'N', b'G'],
                },
            ],
        }
    );
}

#[test]
fn raw_read_without_payloads_gives_nothing() {
    assert_eq!(offer_of(&["a", "b"]).read_raw_with(&mut Reader::new(|_| None)), None);
    assert_eq!(offer_of(&[]).read_raw_with(&mut Reader::new(nothing)), None);
}

#[test]
fn raw_read_takes_a_closure_with_state() {
    let mut asked = Vec::new();
    let raw = offer_of(&["b", "a"]).read_raw_with(&mut Reader::new(|mime_type| {
        asked.push(mime_type.to_string());
        Some(vec![asked.len() as u8])
    }));
    assert_eq!(asked, vec!["b".to_string(), "a".to_string()]);
    assert_eq!(
        raw,
        Some(RawClipboardItem {
            entries: vec![
                RawClipboardEntry { format: "b".to_string(), bytes: vec![1] },
                RawClipboardEntry { format: "a".to_string(), bytes: vec![2] },
            ],
        })
    );
}

#[test]
fn raw_read_asks_as_often_as_a_type_was_announced() {
    let mut asked = Vec::new();
    let raw = offer_of(&["x", "y", "x"]).read_raw_with(&mut Reader::new(|mime_type: &str| {
        asked.push(mime_type.to_string());
        None
    }));
    assert_eq!(raw, None);
    assert_eq!(asked, vec!["x".to_string(), "y".to_string(), "x".to_string()]);
}

#[test]
fn a_reader_serves_several_reads() {
    let mut asked = Vec::new();
    let mut reader = Reader::new(|mime_type: &str| {
        asked.push(mime_type.to_string());
        None
    });
    let offer = offer_of(&["image/png", "UTF8_STRING"]);
    assert_eq!(offer.read_text(&mut reader), None);
    assert_eq!(offer.read_image(&mut reader), None);
    assert_eq!(reader.ask("a/b"), None);
    assert_eq!(
        asked,
        vec!["UTF8_STRING".to_string(), "image/png".to_string(), "a/b".to_string()]
    );
}

#[test]
fn raw_item_pairs_types_with_replies() {
    let offer = offer_of(&["x", "y", "x"]);
    assert_eq!(
        offer.raw_item(vec![Some(vec![1]), None, Some(vec![3])]),
        Some(RawClipboardItem {
            entries: vec![
                RawClipboardEntry { format: "x".to_string(), bytes: vec![1] },
                RawClipboardEntry { format: "x".to_string(), bytes: vec![3] },
            ],
        })
    );
    assert_eq!(offer.raw_item(vec![None, None, None]), None);
}

#[test]
fn mime_types_of_text() {
    assert_eq!(TEXT_MIME_TYPES, ["text/plain;charset=utf-8", "UTF8_STRING", "text/plain"]);
    assert_eq!(ALLOWED_TEXT_MIME_TYPES, ["text/plain;charset=utf-8", "UTF8_STRING"]);
    assert_eq!(FILE_LIST_MIME_TYPE, "text/uri-list");
    assert!(is_allowed_text_type("UTF8_STRING"));
    assert!(is_allowed_text_type("text/plain;charset=utf-8"));
    assert!(!is_allowed_text_type("text/plain"));
    assert!(!is_allowed_text_type("utf8_string"));
    for allowed in ALLOWED_TEXT_MIME_TYPES {
        assert!(TEXT_MIME_TYPES.contains(&allowed));
    }
}

#[test]
fn offers_keep_their_types() {
    let offer = offer_of(&["text/html", "UTF8_STRING", "text/plain;charset=utf-8"]);
    assert!(offer.has_mime_type("text/html"));
    assert!(!offer.has_mime_type("text/plain"));
    assert_eq!(offer.text_mime_type(), Some("UTF8_STRING"));
    assert_eq!(offer_of(&["text/plain"]).text_mime_type(), None);
    let copy = offer.clone();
    assert!(copy.has_mime_type("UTF8_STRING"));
}

#[test]
fn text_is_read_with_unix_line_endings() {
    let offer = offer_of(&["image/png", "UTF8_STRING"]);
    let item = offer.read_text(&mut Reader::new(|mime_type: &str| {
        assert_eq!(mime_type, "UTF8_STRING");
        Some("one\r\ntwo\rthree\n\u{e9}\r\n".as_bytes().to_vec())
    }));
    assert_eq!(
        item,
        Some(ClipboardItem::new_string("one\ntwo\rthree\n\u{e9}\n".to_string()))
    );
}

#[test]
fn text_is_asked_for_once() {
    let asked = RefCell::new(Vec::new());
    let offer = offer_of(&["text/html", "UTF8_STRING", "text/plain;charset=utf-8", "image/png"]);
    let item = offer.read_text(&mut Reader::new(|mime_type: &str| {
        asked.borrow_mut().push(mime_type.to_string());
        None
    }));
    assert_eq!(item, None);
    assert_eq!(asked.into_inner(), vec!["UTF8_STRING".to_string()]);

    let item = offer.read_text(&mut Reader::new(|mime_type: &str| {
        assert_eq!(mime_type, "UTF8_STRING");
        Some(vec![0xff])
    }));
    assert_eq!(item, None);
}

#[test]
fn text_that_is_not_accepted_is_not_asked_for() {
    let offer = offer_of(&["text/plain", "text/html", "utf8_string"]);
    assert_eq!(offer.read_text(&mut Reader::new(nothing)), None);
}

#[test]
fn only_images_are_asked_for_as_images() {
    let offer = offer_of(&["text/html", "image/png"]);
    let item = offer.read_image(&mut Reader::new(|mime_type: &str| {
        assert_eq!(mime_type, "image/png");
        Some(vec![0x89, 0x50, 0x4e, 0x47])
    }));
    assert_eq!(
        item,
        Some(ClipboardItem {
            entries: vec![ClipboardEntry::Image(Image {
                format: ImageFormat::Png,
                bytes: vec![0x89, 0x50, 0x4e, 0x47],
                id: hash_of(&[0x89, 0x50, 0x4e, 0x47]),
            })],
        })
    );
}

#[test]
fn images_are_asked_for_only_without_text() {
    let mut clipboard: Clipboard<TestOffer, TestOffer> = Clipboard::new(12);
    clipboard.set_offer(Some(offer_of(&["image/png", "UTF8_STRING"])));
    let item = clipboard.read(&mut Reader::new(|mime_type| {
        assert_eq!(mime_type, "UTF8_STRING");
        Some(b"text".to_vec())
    }));
    assert_eq!(item, Some(ClipboardItem::new_string("text".to_string())));

    let asked = RefCell::new(Vec::new());
    clipboard.set_primary_offer(Some(offer_of(&["image/gif", "UTF8_STRING", "image/png"])));
    let item = clipboard.read_primary(&mut Reader::new(|mime_type| {
        asked.borrow_mut().push(mime_type.to_string());
        None
    }));
    assert_eq!(item, None);
    assert_eq!(
        asked.into_inner(),
        vec!["UTF8_STRING".to_string(), "image/png".to_string(), "image/gif".to_string()]
    );
}

#[test]
fn text_that_is_not_utf8_is_no_text() {
    assert_eq!(text_item(vec![0xff, 0xfe]), None);
    assert_eq!(text_item(vec![0xc0, 0x80]), None);
    assert_eq!(text_item(vec![]), Some(ClipboardItem::new_string(String::new())));
    assert_eq!(
        text_item(vec![0xf0, 0x9f, 0x8d, 0x83]),
        Some(ClipboardItem::new_string("\u{1f343}".to_string()))
    );
}

#[test]
fn images_are_tried_in_order() {
    let asked = RefCell::new(Vec::new());
    let offer = offer_of(&["image/gif", "image/webp", "image/png"]);
    let item = offer.read_image(&mut Reader::new(|mime_type: &str| {
        asked.borrow_mut().push(mime_type.to_string());
        if mime_type == "image/png" {
            None
        } else {
            Some(vec![7, 8])
        }
    }));
    assert_eq!(asked.into_inner(), vec!["image/png".to_string(), "image/webp".to_string()]);
    assert_eq!(
        item,
        Some(ClipboardItem {
            entries: vec![ClipboardEntry::Image(Image {
                format: ImageFormat::Webp,
                bytes: vec![7, 8],
                id: hash_of(&[7, 8]),
            })],
        })
    );
    assert_eq!(offer_of(&["text/plain"]).read_image(&mut Reader::new(nothing)), None);
    assert_eq!(offer.read_image(&mut Reader::new(|_: &str| None)), None);
}

#[test]
fn image_payloads_get_an_identifier() {
    let item = image_item(ImageFormat::Bmp, vec![1, 2, 3]);
    assert_eq!(
        item.entries,
        vec![ClipboardEntry::Image(Image {
            format: ImageFormat::Bmp,
            bytes: vec![1, 2, 3],
            id: hash_of(&[1, 2, 3]),
        })]
    );
}

#[test]
fn processes_have_their_own_type() {
    assert_eq!(process_mime_type(0), "pid/0");
    assert_eq!(process_mime_type(7), "pid/7");
    assert_eq!(process_mime_type(10), "pid/10");
    assert_eq!(process_mime_type(4294967295), "pid/4294967295");
    assert_ne!(process_mime_type(1), process_mime_type(11));
}

#[test]
fn without_an_offer_there_is_nothing_to_read() {
    let mut clipboard: Clipboard<TestOffer, TestOffer> = Clipboard::new(12);
    clipboard.set(ClipboardItem::new_string("mine".to_string()));
    assert_eq!(clipboard.self_mime(), "pid/12");
    assert!(clipboard.current_offer().is_none());
    assert_eq!(clipboard.read(&mut Reader::new(nothing)), None);
    assert_eq!(clipboard.read_raw(&mut Reader::new(nothing)), None);
    assert_eq!(clipboard.read_primary(&mut Reader::new(nothing)), None);
    assert_eq!(clipboard.read_primary_raw(&mut Reader::new(nothing)), None);
}

#[test]
fn own_items_are_read_back() {
    let mut clipboard: Clipboard<TestOffer, TestOffer> = Clipboard::new(12);
    let item = ClipboardItem {
        entries: vec![
            ClipboardEntry::String(ClipboardString::new("a\r\n".to_string())),
            ClipboardEntry::ExternalPaths(ExternalPaths(vec!["/tmp/x".to_string()])),
        ],
    };
    clipboard.set_offer(Some(offer_of(&["text/plain", "pid/12"])));
    assert_eq!(clipboard.read(&mut Reader::new(nothing)), None);
    clipboard.set(item.clone());
    assert_eq!(clipboard.read(&mut Reader::new(nothing)), Some(item.clone()));
    assert_eq!(clipboard.read(&mut Reader::new(nothing)), Some(item));
    assert_eq!(
        clipboard.read_raw(&mut Reader::new(nothing)),
        Some(RawClipboardItem {
            entries: vec![RawClipboardEntry {
                format: "text/plain".to_string(),
                bytes: b"a\r\n".to_vec(),
            }],
        })
    );
    clipboard.set(ClipboardItem::new_string("b".to_string()));
    assert_eq!(clipboard.read(&mut Reader::new(nothing)), Some(ClipboardItem::new_string("b".to_string())));
}

#[test]
fn offers_of_other_processes_are_fetched_once() {
    let mut clipboard: Clipboard<TestOffer, TestOffer> = Clipboard::new(12);
    clipboard.set(ClipboardItem::new_string("mine".to_string()));
    clipboard.set_offer(Some(offer_of(&["pid/13", "UTF8_STRING"])));
    let first = clipboard.read(&mut Reader::new(|_| Some(b"theirs".to_vec())));
    assert_eq!(first, Some(ClipboardItem::new_string("theirs".to_string())));
    assert_eq!(clipboard.read(&mut Reader::new(nothing)), first);

    let raw = clipboard.read_raw(&mut Reader::new(|mime_type| Some(mime_type.as_bytes().to_vec())));
    assert_eq!(
        raw,
        Some(RawClipboardItem {
            entries: vec![
                RawClipboardEntry { format: "pid/13".to_string(), bytes: b"pid/13".to_vec() },
                RawClipboardEntry {
                    format: "UTF8_STRING".to_string(),
                    bytes: b"UTF8_STRING".to_vec(),
                },
            ],
        })
    );
    assert_eq!(clipboard.read_raw(&mut Reader::new(nothing)), raw);

    clipboard.set_offer(Some(offer_of(&["UTF8_STRING"])));
    assert_eq!(clipboard.read(&mut Reader::new(|_| None)), None);
    assert_eq!(
        clipboard.read(&mut Reader::new(|_| Some(b"later".to_vec()))),
        Some(ClipboardItem::new_string("later".to_string()))
    );
    clipboard.set_offer(None);
    assert_eq!(clipboard.read(&mut Reader::new(nothing)), None);
}

#[test]
fn images_are_read_where_text_cannot_be() {
    let mut clipboard: Clipboard<TestOffer, TestOffer> = Clipboard::new(12);
    clipboard.set_offer(Some(offer_of(&["image/png", "UTF8_STRING"])));
    let item = clipboard.read(&mut Reader::new(|mime_type| {
        if mime_type == "UTF8_STRING" {
            Some(vec![0xff])
        } else {
            Some(vec![1])
        }
    }));
    assert_eq!(item, Some(image_item(ImageFormat::Png, vec![1])));
}

#[test]
fn the_two_clipboards_do_not_mix() {
    let mut clipboard: Clipboard<TestOffer, u8> = Clipboard::new(12);
    clipboard.set(ClipboardItem::new_string("regular".to_string()));
    clipboard.set_primary(ClipboardItem::new_string("primary".to_string()));
    let mut primary_offer = DataOffer::new(5u8);
    primary_offer.add_mime_type("pid/12".to_string());
    clipboard.set_primary_offer(Some(primary_offer));
    assert_eq!(clipboard.read(&mut Reader::new(nothing)), None);
    assert_eq!(
        clipboard.read_primary(&mut Reader::new(nothing)),
        Some(ClipboardItem::new_string("primary".to_string()))
    );
    assert_eq!(clipboard.current_primary_offer().map(|offer| offer.inner), Some(5));
    assert_eq!(
        clipboard.read_primary_raw(&mut Reader::new(nothing)),
        Some(RawClipboardItem {
            entries: vec![RawClipboardEntry {
                format: "text/plain".to_string(),
                bytes: b"primary".to_vec(),
            }],
        })
    );
    let regular = clipboard.send("text/plain".to_string()).unwrap();
    assert_eq!(regular.remaining(), b"regular");
    let primary = clipboard.send_primary("image/png".to_string()).unwrap();
    assert_eq!(primary.remaining(), b"primary");
}

#[test]
fn primary_offers_of_other_processes_are_fetched_once() {
    let mut clipboard: Clipboard<TestOffer, TestOffer> = Clipboard::new(12);
    clipboard.set_primary_offer(Some(offer_of(&["UTF8_STRING"])));
    let item = clipboard.read_primary(&mut Reader::new(|_| Some(b"p".to_vec())));
    assert_eq!(item, Some(ClipboardItem::new_string("p".to_string())));
    assert_eq!(clipboard.read_primary(&mut Reader::new(nothing)), item);
    let raw = clipboard.read_primary_raw(&mut Reader::new(|_| Some(b"q".to_vec())));
    assert_eq!(raw.as_ref().map(|raw| raw.entries[0].bytes.clone()), Some(b"q".to_vec()));
    assert_eq!(clipboard.read_primary_raw(&mut Reader::new(nothing)), raw);
}

#[test]
fn nothing_is_sent_without_text() {
    let mut clipboard: Clipboard<TestOffer, TestOffer> = Clipboard::new(12);
    assert_eq!(clipboard.send("text/plain".to_string()), None);
    clipboard.set(image_item(ImageFormat::Png, vec![1]));
    assert_eq!(clipboard.send("image/png".to_string()), None);
    assert_eq!(clipboard.send_primary("text/plain".to_string()), None);
}

#[test]
fn sent_text_is_read_by_another_process() {
    let mut sender: Clipboard<TestOffer, TestOffer> = Clipboard::new(1);
    let mut receiver: Clipboard<TestOffer, TestOffer> = Clipboard::new(2);
    sender.set(ClipboardItem::new_string("l\u{f6}ve\r\nit".to_string()));
    receiver.set_offer(Some(offer_of(&["pid/1", "UTF8_STRING"])));
    let item = receiver.read(&mut Reader::new(|mime_type| {
        sender
            .send(mime_type.to_string())
            .map(|transfer| transfer.remaining().to_vec())
    }));
    assert_eq!(item, Some(ClipboardItem::new_string("l\u{f6}ve\nit".to_string())));
}

#[test]
fn transfers_hand_over_every_byte() {
    let mut transfer = Transfer::new(b"abcdef".to_vec());
    assert_eq!(transfer.remaining(), b"abcdef");
    assert_eq!(transfer.record(WriteOutcome::Wrote(2)), TransferStep::WriteMore);
    assert_eq!(transfer.remaining(), b"cdef");
    assert_eq!(transfer.record(WriteOutcome::WouldBlock), TransferStep::Wait);
    assert_eq!(transfer.remaining(), b"cdef");
    assert_eq!(transfer.record(WriteOutcome::Wrote(0)), TransferStep::WriteMore);
    assert_eq!(transfer.record(WriteOutcome::Wrote(4)), TransferStep::Close);
    assert_eq!(transfer.remaining(), b"");
}

#[test]
fn transfers_end_when_the_reader_is_gone() {
    let mut transfer = Transfer::new(b"abc".to_vec());
    assert_eq!(transfer.record(WriteOutcome::Failed), TransferStep::Close);
    assert_eq!(transfer.remaining(), b"abc");
    let mut empty = Transfer::new(Vec::new());
    assert_eq!(empty.record(WriteOutcome::Wrote(0)), TransferStep::Close);
}
