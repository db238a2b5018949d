use clipboard::item::{
    ClipboardEntry, ClipboardItem, ClipboardString, ExternalPaths, Image, ImageFormat,
    RawClipboardEntry, RawClipboardItem,
};
use clipboard::web::{
    browser_clipboard, finish_read, finish_read_text, finish_read_text_raw, finish_write,
    get_type_failed, js_error, open_blob_failed, put_entry, read, read_raw,
    start_raw_write_with_clipboard,
    start_write_text_with_clipboard, start_write_with_clipboard, BrowserClipboard, JsAction,
    JsFailure, StartedRawRead, StartedWrite, WebError, Window,
};
use clipboard::web_items::{ItemsRequest, PayloadReply, RawItemsRead};

const ALL: BrowserClipboard =
    BrowserClipboard { read: true, read_text: true, write: true, write_text: true };
const NONE: BrowserClipboard =
    BrowserClipboard { read: false, read_text: false, write: false, write_text: false };

fn window(clipboard: BrowserClipboard) -> Window {
    Window { clipboard: Some(clipboard) }
}

fn failed(text: &str) -> JsFailure {
    JsFailure { text: Some(text.to_string()), message: None, debug: "debug".to_string() }
}

fn js(action: &str, message: &str) -> WebError {
    WebError::Js { action: action.to_string(), message: message.to_string() }
}

fn raw(format: &str, bytes: &[u8]) -> RawClipboardEntry {
    RawClipboardEntry { format: format.to_string(), bytes: bytes.to_vec() }
}

fn picture() -> ClipboardItem {
    ClipboardItem {
        entries: vec![
            ClipboardEntry::String(ClipboardString::new("a".to_string())),
            ClipboardEntry::Image(Image::from_bytes(ImageFormat::Png, vec![1, 2])),
        ],
    }
}

#[test]
fn a_window_needs_a_clipboard() {
    assert_eq!(browser_clipboard(&window(ALL)), Ok(ALL));
    let bare = Window { clipboard: None };
    assert_eq!(browser_clipboard(&bare), Err(WebError::ClipboardUnavailable));
    assert_eq!(read_raw(&bare), Err(WebError::ClipboardUnavailable));
    assert_eq!(read(&bare), Err(WebError::ClipboardUnavailable));
    assert_eq!(clipboard::web::write(&bare, picture()), Err(WebError::ClipboardUnavailable));
}

#[test]
fn reads_prefer_payloads_to_text() {
    assert_eq!(read_raw(&window(ALL)), Ok(StartedRawRead::Raw));
    let text = BrowserClipboard { read: false, ..ALL };
    assert_eq!(read_raw(&window(text)), Ok(StartedRawRead::Text));
    assert_eq!(read(&window(text)), Ok(StartedRawRead::Text));
    assert_eq!(read_raw(&window(NONE)), Err(WebError::ReadTextUnavailable));
    let payloads = BrowserClipboard { read: true, ..NONE };
    assert_eq!(read(&window(payloads)), Ok(StartedRawRead::Raw));
}

#[test]
fn text_goes_through_the_text_function() {
    let item = ClipboardItem {
        entries: vec![
            ClipboardEntry::String(ClipboardString::new("a".to_string())),
            ClipboardEntry::ExternalPaths(ExternalPaths(vec!["/p".to_string()])),
        ],
    };
    let text_only = BrowserClipboard { write_text: true, ..NONE };
    assert_eq!(
        clipboard::web::write(&window(text_only), item.clone()),
        Ok(StartedWrite::Text("a".to_string()))
    );
    let no_text = BrowserClipboard { write_text: false, ..ALL };
    assert_eq!(
        start_write_with_clipboard(&no_text, item),
        Err(WebError::WriteTextUnavailable)
    );
    assert_eq!(
        start_write_text_with_clipboard(&ALL, "t".to_string()),
        Ok(StartedWrite::Text("t".to_string()))
    );
    assert_eq!(
        start_write_with_clipboard(&ALL, ClipboardItem { entries: vec![] }),
        Ok(StartedWrite::Text(String::new()))
    );
}

#[test]
fn images_go_as_payloads() {
    let payloads = RawClipboardItem {
        entries: vec![raw("text/plain", b"a"), raw("image/png", &[1, 2])],
    };
    assert_eq!(
        clipboard::web::write(&window(ALL), picture()),
        Ok(StartedWrite::Raw(payloads.clone()))
    );
    let no_write = BrowserClipboard { write: false, ..ALL };
    assert_eq!(
        clipboard::web::write(&window(no_write), picture()),
        Err(WebError::WriteUnavailable)
    );
    assert_eq!(finish_read(Ok(Some(payloads))), Ok(Some(picture())));
}

#[test]
fn payloads_without_a_format_are_not_written() {
    let given = RawClipboardItem { entries: vec![raw("", &[1]), raw("a", &[2]), raw("", &[3])] };
    assert_eq!(
        start_raw_write_with_clipboard(&ALL, given),
        Ok(StartedWrite::Raw(RawClipboardItem { entries: vec![raw("a", &[2])] }))
    );
    let nameless = RawClipboardItem { entries: vec![raw("", &[1])] };
    assert_eq!(
        start_raw_write_with_clipboard(&ALL, nameless.clone()),
        Ok(StartedWrite::Text(String::new()))
    );
    assert_eq!(
        start_raw_write_with_clipboard(&NONE, nameless),
        Err(WebError::WriteTextUnavailable)
    );
}

#[test]
fn the_last_payload_of_a_format_is_written() {
    let given = RawClipboardItem {
        entries: vec![raw("a", &[1]), raw("b", &[2]), raw("a", &[3]), raw("c", &[4])],
    };
    let record = RawClipboardItem { entries: vec![raw("a", &[3]), raw("b", &[2]), raw("c", &[4])] };
    assert_eq!(start_raw_write_with_clipboard(&ALL, given), Ok(StartedWrite::Raw(record.clone())));
    assert_eq!(
        start_raw_write_with_clipboard(&ALL, record.clone()),
        Ok(StartedWrite::Raw(record))
    );
    let mut record = RawClipboardItem { entries: vec![] };
    put_entry(&mut record, raw("a", &[1]));
    put_entry(&mut record, raw("b", &[2]));
    put_entry(&mut record, raw("b", &[3]));
    assert_eq!(record.entries, vec![raw("a", &[1]), raw("b", &[3])]);
}

#[test]
fn failed_writes_name_the_function() {
    let text = StartedWrite::Text("a".to_string());
    let payloads = StartedWrite::Raw(RawClipboardItem { entries: vec![] });
    assert_eq!(finish_write(&text, Ok(())), Ok(()));
    assert_eq!(finish_write(&payloads, Ok(())), Ok(()));
    assert_eq!(
        finish_write(&text, Err(failed("denied"))),
        Err(js("navigator.clipboard.writeText failed", "denied"))
    );
    assert_eq!(
        finish_write(&payloads, Err(failed("denied"))),
        Err(js("navigator.clipboard.write failed", "denied"))
    );
}

#[test]
fn text_replies() {
    assert_eq!(finish_read_text(Ok(Some("a".to_string()))), Ok("a".to_string()));
    assert_eq!(finish_read_text(Ok(None)), Err(WebError::ReadTextNotAString));
    assert_eq!(
        finish_read_text(Err(failed("no"))),
        Err(js("navigator.clipboard.readText failed", "no"))
    );
    assert_eq!(finish_read_text_raw(Ok(Some(String::new()))), Ok(None));
    assert_eq!(
        finish_read_text_raw(Ok(Some("\u{e9}".to_string()))),
        Ok(Some(RawClipboardItem { entries: vec![raw("text/plain", &[0xc3, 0xa9])] }))
    );
    assert_eq!(finish_read_text_raw(Ok(None)), Err(WebError::ReadTextNotAString));
}

#[test]
fn written_text_is_read_back() {
    let item = ClipboardItem::new_string("a\r\n\u{e9}".to_string());
    let text = match clipboard::web::write(&window(ALL), item.clone()) {
        Ok(StartedWrite::Text(text)) => text,
        _ => panic!("text is written as text"),
    };
    assert_eq!(finish_read(finish_read_text_raw(Ok(Some(text)))), Ok(Some(item)));
    assert_eq!(finish_read(finish_read_text_raw(Ok(Some(String::new())))), Ok(None));
}

#[test]
fn reads_pass_on_nothing_and_errors() {
    assert_eq!(finish_read(Ok(None)), Ok(None));
    assert_eq!(
        finish_read(Err(WebError::ReadTextUnavailable)),
        Err(WebError::ReadTextUnavailable)
    );
    let html = RawClipboardItem { entries: vec![raw("text/html", b"<b>")] };
    assert_eq!(finish_read(Ok(Some(html))), Ok(None));
}

#[test]
fn error_messages() {
    assert_eq!(
        WebError::ClipboardUnavailable.message(),
        "navigator.clipboard is not available; clipboard access requires a supported browser and secure context"
    );
    assert_eq!(
        WebError::ReadTextUnavailable.message(),
        "navigator.clipboard.readText is not available in this browser context"
    );
    assert_eq!(
        WebError::WriteTextUnavailable.message(),
        "navigator.clipboard.writeText is not available in this browser context"
    );
    assert_eq!(
        WebError::WriteUnavailable.message(),
        "navigator.clipboard.write is not available in this browser context"
    );
    assert_eq!(
        WebError::ReadTextNotAString.message(),
        "navigator.clipboard.readText did not return a string"
    );
    assert_eq!(js("doing", "bad").message(), "doing: bad");
}

#[test]
fn failures_are_described() {
    let action = "failed to construct Blob";
    let all = JsFailure {
        text: Some("text".to_string()),
        message: Some("message".to_string()),
        debug: "debug".to_string(),
    };
    assert_eq!(js_error(JsAction::MakeBlob, all), js(action, "text"));
    let message = JsFailure {
        text: None,
        message: Some("message".to_string()),
        debug: "debug".to_string(),
    };
    assert_eq!(js_error(JsAction::MakeBlob, message), js(action, "message"));
    let debug = JsFailure { text: None, message: None, debug: "debug".to_string() };
    assert_eq!(js_error(JsAction::MakeBlob, debug), js(action, "debug"));
}

#[test]
fn actions_are_described() {
    let expected = [
        (JsAction::Read, "navigator.clipboard.read failed"),
        (JsAction::ReadText, "navigator.clipboard.readText failed"),
        (JsAction::Write, "navigator.clipboard.write failed"),
        (JsAction::WriteText, "navigator.clipboard.writeText failed"),
        (JsAction::OpenItem, "clipboard.read returned a non-ClipboardItem"),
        (
            JsAction::GetType("a\"b\n".to_string()),
            "ClipboardItem.getType(\"a\\\"b\\n\") failed",
        ),
        (
            JsAction::OpenBlob("image/png".to_string()),
            "ClipboardItem.getType(\"image/png\") did not return a Blob",
        ),
        (JsAction::ReadBlob, "Blob.arrayBuffer failed"),
        (JsAction::MakeBlob, "failed to construct Blob"),
        (JsAction::AddToRecord, "failed to build ClipboardItem MIME record"),
        (JsAction::MakeItem, "failed to construct ClipboardItem"),
    ];
    for (action, words) in expected {
        assert_eq!(action.describe(), words);
    }
    assert_eq!(get_type_failed("x"), "ClipboardItem.getType(x) failed");
    assert_eq!(open_blob_failed("x"), "ClipboardItem.getType(x) did not return a Blob");
}

#[test]
fn every_payload_is_asked_for() {
    let mut read = RawItemsRead::new(Ok(2)).unwrap();
    assert_eq!(read.request(), ItemsRequest::OpenItem(0));
    let types = vec![Some("text/plain".to_string()), None, Some("image/png".to_string())];
    assert_eq!(read.item_opened(Ok(types)), Ok(()));
    assert_eq!(
        read.request(),
        ItemsRequest::FetchPayload { item: 0, mime_type: "text/plain".to_string() }
    );
    assert_eq!(read.payload_fetched(PayloadReply::Bytes(vec![1])), Ok(()));
    assert_eq!(
        read.request(),
        ItemsRequest::FetchPayload { item: 0, mime_type: "image/png".to_string() }
    );
    assert_eq!(read.payload_fetched(PayloadReply::Bytes(vec![2, 3])), Ok(()));
    assert_eq!(read.request(), ItemsRequest::OpenItem(1));
    assert_eq!(read.item_opened(Ok(vec![Some("text/html".to_string())])), Ok(()));
    assert_eq!(
        read.request(),
        ItemsRequest::FetchPayload { item: 1, mime_type: "text/html".to_string() }
    );
    assert_eq!(read.payload_fetched(PayloadReply::Bytes(vec![])), Ok(()));
    assert_eq!(read.request(), ItemsRequest::Finished);
    assert_eq!(
        read.finish(),
        Some(RawClipboardItem {
            entries: vec![
                raw("text/plain", &[1]),
                raw("image/png", &[2, 3]),
                raw("text/html", &[]),
            ],
        })
    );
}

#[test]
fn an_empty_clipboard_gives_nothing() {
    let read = RawItemsRead::new(Ok(0)).unwrap();
    assert_eq!(read.request(), ItemsRequest::Finished);
    assert_eq!(read.finish(), None);
    let mut read = RawItemsRead::new(Ok(1)).unwrap();
    assert_eq!(read.item_opened(Ok(vec![None])), Ok(()));
    assert_eq!(read.request(), ItemsRequest::Finished);
    assert_eq!(read.finish(), None);
}

#[test]
fn failures_end_a_read() {
    assert_eq!(
        RawItemsRead::new(Err(failed("denied"))),
        Err(js("navigator.clipboard.read failed", "denied"))
    );
    let mut read = RawItemsRead::new(Ok(2)).unwrap();
    assert_eq!(
        read.item_opened(Err(failed("odd"))),
        Err(js("clipboard.read returned a non-ClipboardItem", "odd"))
    );
    assert_eq!(read.item_opened(Ok(vec![Some("a".to_string())])), Ok(()));
    assert_eq!(
        read.payload_fetched(PayloadReply::GetTypeFailed(failed("x"))),
        Err(js("ClipboardItem.getType(\"a\") failed", "x"))
    );
    assert_eq!(
        read.payload_fetched(PayloadReply::NotABlob(failed("x"))),
        Err(js("ClipboardItem.getType(\"a\") did not return a Blob", "x"))
    );
    assert_eq!(
        read.payload_fetched(PayloadReply::ReadBlobFailed(failed("x"))),
        Err(js("Blob.arrayBuffer failed", "x"))
    );
    assert_eq!(
        read.request(),
        ItemsRequest::FetchPayload { item: 0, mime_type: "a".to_string() }
    );
}
