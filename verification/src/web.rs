//! The clipboard of a browser: which of its functions to call, with what, and what to make
//! of its replies.
//!
//! A browser answers through promises. The functions here decide what to start before the
//! first wait and what to return once a promise has settled.

use vstd::prelude::*;
use vstd::string::StrSliceExecFns;
use vstd::utf8::*;

use crate::convert::{
    all_textual, is_textual, law_raw_round_trip_is_exact, non_empty, raw_form, raw_forms,
    raw_to_clipboard_item, survives_raw, text_only_item, text_or_empty, typed_form, typed_forms,
};
use crate::item::{
    item_text, law_image_mime_types, law_text_of_one_string, ClipboardItem, EntryView,
    RawClipboardEntry, RawClipboardItem, RawEntryView, PLAIN_TEXT_MIME_TYPE,
};
use crate::text::{joined, law_encoded_text_decodes_to_itself, opt_view, quoted, quoted_text};

verus! {

broadcast use vstd::std_specs::vec::group_vec_axioms;

/// The functions that the clipboard of a browser has.
#[derive(Clone, Copy, Debug, PartialEq, Eq, Structural)]
pub struct BrowserClipboard {
    /// `navigator.clipboard.read`
    pub read: bool,
    /// `navigator.clipboard.readText`
    pub read_text: bool,
    /// `navigator.clipboard.write`
    pub write: bool,
    /// `navigator.clipboard.writeText`
    pub write_text: bool,
}

/// A browser window, as far as the clipboard goes.
#[derive(Clone, Copy, Debug, PartialEq, Eq, Structural)]
pub struct Window {
    /// `navigator.clipboard`, which is missing in an insecure context and in old browsers.
    pub clipboard: Option<BrowserClipboard>,
}

/// What is known of a value that was thrown or that a promise was rejected with.
#[derive(Debug, PartialEq, Eq)]
pub struct JsFailure {
    /// The value itself, where it is a string.
    pub text: Option<String>,
    /// Its `message` property, where that is a string.
    pub message: Option<String>,
    /// The value as it is printed for debugging.
    pub debug: String,
}

impl JsFailure {
    /// What is said of the failure: the string, the message, or what is printed.
    pub open spec fn described(self) -> Seq<char> {
        match self.text {
            Some(text) => text@,
            None => match self.message {
                Some(message) => message@,
                None => self.debug@,
            },
        }
    }

    /// What is said of the failure.
    pub fn describe(self) -> (message: String)
        ensures
            message@ == self.described(),
    {
        match self.text {
            Some(text) => text,
            None => match self.message {
                Some(message) => message,
                None => self.debug,
            },
        }
    }
}

/// What was being done when a failure came up.
#[derive(Debug, PartialEq, Eq)]
pub enum JsAction {
    /// Reading the clipboard.
    Read,
    /// Reading the text of the clipboard.
    ReadText,
    /// Writing to the clipboard.
    Write,
    /// Writing text to the clipboard.
    WriteText,
    /// Taking what was read for a clipboard item.
    OpenItem,
    /// Getting the payload of this type.
    GetType(String),
    /// Taking the payload of this type for a blob.
    OpenBlob(String),
    /// Getting the bytes of a blob.
    ReadBlob,
    /// Making a blob.
    MakeBlob,
    /// Putting a blob under its type.
    AddToRecord,
    /// Making a clipboard item.
    MakeItem,
}

/// The words for a failure to get the payload of a type, given the quoted type.
pub open spec fn get_type_words(quoted_type: Seq<char>) -> Seq<char> {
    "ClipboardItem.getType("@ + quoted_type + ") failed"@
}

/// The words for a payload that is no blob, given the quoted type.
pub open spec fn open_blob_words(quoted_type: Seq<char>) -> Seq<char> {
    "ClipboardItem.getType("@ + quoted_type + ") did not return a Blob"@
}

/// The words for a failure to get the payload of a type, given the quoted type.
pub fn get_type_failed(quoted_type: &str) -> (words: String)
    ensures
        words@ == get_type_words(quoted_type@),
{
    joined("ClipboardItem.getType(", quoted_type, ") failed")
}

/// The words for a payload that is no blob, given the quoted type.
pub fn open_blob_failed(quoted_type: &str) -> (words: String)
    ensures
        words@ == open_blob_words(quoted_type@),
{
    joined("ClipboardItem.getType(", quoted_type, ") did not return a Blob")
}

impl JsAction {
    /// The words for a failure of the action.
    pub open spec fn words(self) -> Seq<char> {
        match self {
            JsAction::Read => "navigator.clipboard.read failed"@,
            JsAction::ReadText => "navigator.clipboard.readText failed"@,
            JsAction::Write => "navigator.clipboard.write failed"@,
            JsAction::WriteText => "navigator.clipboard.writeText failed"@,
            JsAction::OpenItem => "clipboard.read returned a non-ClipboardItem"@,
            JsAction::GetType(mime_type) => get_type_words(quoted_text(mime_type@)),
            JsAction::OpenBlob(mime_type) => open_blob_words(quoted_text(mime_type@)),
            JsAction::ReadBlob => "Blob.arrayBuffer failed"@,
            JsAction::MakeBlob => "failed to construct Blob"@,
            JsAction::AddToRecord => "failed to build ClipboardItem MIME record"@,
            JsAction::MakeItem => "failed to construct ClipboardItem"@,
        }
    }

    /// The words for a failure of the action.
    pub fn describe(&self) -> (words: String)
        ensures
            words@ == self.words(),
    {
        match self {
            JsAction::Read => "navigator.clipboard.read failed".to_owned(),
            JsAction::ReadText => "navigator.clipboard.readText failed".to_owned(),
            JsAction::Write => "navigator.clipboard.write failed".to_owned(),
            JsAction::WriteText => "navigator.clipboard.writeText failed".to_owned(),
            JsAction::OpenItem => "clipboard.read returned a non-ClipboardItem".to_owned(),
            JsAction::GetType(mime_type) => get_type_failed(quoted(mime_type.as_str()).as_str()),
            JsAction::OpenBlob(mime_type) => open_blob_failed(quoted(mime_type.as_str()).as_str()),
            JsAction::ReadBlob => "Blob.arrayBuffer failed".to_owned(),
            JsAction::MakeBlob => "failed to construct Blob".to_owned(),
            JsAction::AddToRecord => "failed to build ClipboardItem MIME record".to_owned(),
            JsAction::MakeItem => "failed to construct ClipboardItem".to_owned(),
        }
    }
}

/// Why a clipboard operation of a browser did not work.
#[derive(Debug, PartialEq, Eq)]
pub enum WebError {
    /// There is no `navigator.clipboard`.
    ClipboardUnavailable,
    /// There is no `navigator.clipboard.readText`.
    ReadTextUnavailable,
    /// There is no `navigator.clipboard.writeText`.
    WriteTextUnavailable,
    /// There is no `navigator.clipboard.write`.
    WriteUnavailable,
    /// `navigator.clipboard.readText` gave something that is no string.
    ReadTextNotAString,
    /// The browser refused or failed: what was being done, and what it said.
    Js { action: String, message: String },
}

/// What an error says.
pub enum WebErrorView {
    ClipboardUnavailable,
    ReadTextUnavailable,
    WriteTextUnavailable,
    WriteUnavailable,
    ReadTextNotAString,
    Js { action: Seq<char>, message: Seq<char> },
}

impl View for WebError {
    type V = WebErrorView;

    open spec fn view(&self) -> WebErrorView {
        match self {
            WebError::ClipboardUnavailable => WebErrorView::ClipboardUnavailable,
            WebError::ReadTextUnavailable => WebErrorView::ReadTextUnavailable,
            WebError::WriteTextUnavailable => WebErrorView::WriteTextUnavailable,
            WebError::WriteUnavailable => WebErrorView::WriteUnavailable,
            WebError::ReadTextNotAString => WebErrorView::ReadTextNotAString,
            WebError::Js { action, message } => WebErrorView::Js {
                action: action@,
                message: message@,
            },
        }
    }
}

impl WebErrorView {
    /// The error in words.
    pub open spec fn words(self) -> Seq<char> {
        match self {
            WebErrorView::ClipboardUnavailable => "navigator.clipboard is not available; clipboard access requires a supported browser and secure context"@,
            WebErrorView::ReadTextUnavailable => "navigator.clipboard.readText is not available in this browser context"@,
            WebErrorView::WriteTextUnavailable => "navigator.clipboard.writeText is not available in this browser context"@,
            WebErrorView::WriteUnavailable => "navigator.clipboard.write is not available in this browser context"@,
            WebErrorView::ReadTextNotAString => "navigator.clipboard.readText did not return a string"@,
            WebErrorView::Js { action, message } => action + ": "@ + message,
        }
    }
}

impl WebError {
    /// The error in words.
    pub fn message(&self) -> (words: String)
        ensures
            words@ == self@.words(),
    {
        match self {
            WebError::ClipboardUnavailable => "navigator.clipboard is not available; clipboard access requires a supported browser and secure context".to_owned(),
            WebError::ReadTextUnavailable => "navigator.clipboard.readText is not available in this browser context".to_owned(),
            WebError::WriteTextUnavailable => "navigator.clipboard.writeText is not available in this browser context".to_owned(),
            WebError::WriteUnavailable => "navigator.clipboard.write is not available in this browser context".to_owned(),
            WebError::ReadTextNotAString => "navigator.clipboard.readText did not return a string".to_owned(),
            WebError::Js { action, message } => joined(action.as_str(), ": ", message.as_str()),
        }
    }
}

/// The error that a failure amounts to.
pub open spec fn js_failure(action: JsAction, failure: JsFailure) -> WebErrorView {
    WebErrorView::Js { action: action.words(), message: failure.described() }
}

/// The error that a failure amounts to.
pub fn js_error(action: JsAction, failure: JsFailure) -> (error: WebError)
    ensures
        error@ == js_failure(action, failure),
{
    WebError::Js { action: action.describe(), message: failure.describe() }
}

/// A result, with its error as it reads.
pub open spec fn result_view<T>(result: Result<T, WebError>) -> Result<T, WebErrorView> {
    match result {
        Ok(value) => Ok(value),
        Err(error) => Err(error@),
    }
}

/// A result, with its value and its error as they read.
pub open spec fn full_view<T: View>(result: Result<T, WebError>) -> Result<T::V, WebErrorView> {
    match result {
        Ok(value) => Ok(value@),
        Err(error) => Err(error@),
    }
}

/// A result that may be empty, with its value and its error as they read.
pub open spec fn optional_view<T: View>(result: Result<Option<T>, WebError>) -> Result<
    Option<T::V>,
    WebErrorView,
> {
    match result {
        Ok(value) => Ok(opt_view(value)),
        Err(error) => Err(error@),
    }
}

/// The clipboard of a window, if it has one.
pub open spec fn clipboard_of(window: Window) -> Result<BrowserClipboard, WebErrorView> {
    match window.clipboard {
        Some(clipboard) => Ok(clipboard),
        None => Err(WebErrorView::ClipboardUnavailable),
    }
}

/// The clipboard of a window, if it has one.
pub fn browser_clipboard(window: &Window) -> (clipboard: Result<BrowserClipboard, WebError>)
    ensures
        result_view(clipboard) == clipboard_of(*window),
{
    match window.clipboard {
        Some(clipboard) => Ok(clipboard),
        None => Err(WebError::ClipboardUnavailable),
    }
}

/// The function that a read starts.
#[derive(Clone, Copy, Debug, PartialEq, Eq, Structural)]
pub enum StartedRawRead {
    /// `navigator.clipboard.read`, for every payload.
    Raw,
    /// `navigator.clipboard.readText`, for the text alone.
    Text,
}

/// What a read starts: all payloads are preferred, and text is what is left where they
/// cannot be read.
pub open spec fn started_read(window: Window) -> Result<StartedRawRead, WebErrorView> {
    match clipboard_of(window) {
        Ok(clipboard) => if clipboard.read {
            Ok(StartedRawRead::Raw)
        } else if clipboard.read_text {
            Ok(StartedRawRead::Text)
        } else {
            Err(WebErrorView::ReadTextUnavailable)
        },
        Err(error) => Err(error),
    }
}

/// Tells whether the text of the clipboard can be read.
fn start_read_text_with_clipboard(clipboard: &BrowserClipboard) -> (started: Result<(), WebError>)
    ensures
        result_view(started) == (if clipboard.read_text {
            Ok(())
        } else {
            Err(WebErrorView::ReadTextUnavailable)
        }),
{
    if clipboard.read_text {
        Ok(())
    } else {
        Err(WebError::ReadTextUnavailable)
    }
}

/// What to start in order to read the payloads of the clipboard.
pub fn read_raw(window: &Window) -> (started: Result<StartedRawRead, WebError>)
    ensures
        result_view(started) == started_read(*window),
{
    match browser_clipboard(window) {
        Ok(clipboard) => {
            if clipboard.read {
                Ok(StartedRawRead::Raw)
            } else {
                match start_read_text_with_clipboard(&clipboard) {
                    Ok(_) => Ok(StartedRawRead::Text),
                    Err(error) => Err(error),
                }
            }
        },
        Err(error) => Err(error),
    }
}

/// What to start in order to read the clipboard. The payloads are read, and
/// [`finish_read`] makes an item of them.
pub fn read(window: &Window) -> (started: Result<StartedRawRead, WebError>)
    ensures
        result_view(started) == started_read(*window),
{
    read_raw(window)
}

/// What a read gives, given what the raw read under it gave.
pub fn finish_read(raw: Result<Option<RawClipboardItem>, WebError>) -> (item: Result<
    Option<ClipboardItem>,
    WebError,
>)
    ensures
        optional_view(item) == (match raw {
            Ok(Some(raw)) => Ok(non_empty(typed_forms(raw@))),
            Ok(None) => Ok(None),
            Err(error) => Err(error@),
        }),
{
    match raw {
        Ok(Some(raw)) => Ok(raw_to_clipboard_item(&raw)),
        Ok(None) => Ok(None),
        Err(error) => Err(error),
    }
}

/// The text that was read: a reply without a string is an error.
pub open spec fn read_text(reply: Result<Option<String>, JsFailure>) -> Result<
    Seq<char>,
    WebErrorView,
> {
    match reply {
        Ok(Some(text)) => Ok(text@),
        Ok(None) => Err(WebErrorView::ReadTextNotAString),
        Err(failure) => Err(js_failure(JsAction::ReadText, failure)),
    }
}

/// The text that was read. The reply holds the value that `readText` gave, where it is a
/// string.
pub fn finish_read_text(reply: Result<Option<String>, JsFailure>) -> (text: Result<
    String,
    WebError,
>)
    ensures
        full_view(text) == read_text(reply),
{
    match reply {
        Ok(Some(text)) => Ok(text),
        Ok(None) => Err(WebError::ReadTextNotAString),
        Err(failure) => Err(js_error(JsAction::ReadText, failure)),
    }
}

/// The raw item that text stands for, unless the text is empty.
pub open spec fn plain_text_entries(text: Seq<char>) -> Option<Seq<RawEntryView>> {
    if text.len() == 0 {
        None
    } else {
        Some(seq![RawEntryView { format: PLAIN_TEXT_MIME_TYPE@, bytes: encode_utf8(text) }])
    }
}

/// The raw item that a read of text gives.
pub fn finish_read_text_raw(reply: Result<Option<String>, JsFailure>) -> (raw: Result<
    Option<RawClipboardItem>,
    WebError,
>)
    ensures
        optional_view(raw) == (match read_text(reply) {
            Ok(text) => Ok(plain_text_entries(text)),
            Err(error) => Err(error),
        }),
{
    match finish_read_text(reply) {
        Ok(text) => {
            if text.as_str().is_empty() {
                return Ok(None);
            }
            let raw = RawClipboardItem {
                entries: vec![
                    RawClipboardEntry {
                        format: PLAIN_TEXT_MIME_TYPE.to_owned(),
                        bytes: text.as_str().as_bytes_vec(),
                    },
                ],
            };
            assert(raw@ =~= plain_text_entries(text@)->0);
            Ok(Some(raw))
        },
        Err(error) => Err(error),
    }
}

/// What a write hands over.
#[derive(Debug, PartialEq, Eq)]
pub enum StartedWrite {
    /// This text, through `navigator.clipboard.writeText`.
    Text(String),
    /// These payloads, as one item, through `navigator.clipboard.write`. No type occurs twice.
    Raw(RawClipboardItem),
}

/// What a write hands over.
pub enum StartedWriteView {
    Text(Seq<char>),
    Raw(Seq<RawEntryView>),
}

impl View for StartedWrite {
    type V = StartedWriteView;

    open spec fn view(&self) -> StartedWriteView {
        match self {
            StartedWrite::Text(text) => StartedWriteView::Text(text@),
            StartedWrite::Raw(raw) => StartedWriteView::Raw(raw@),
        }
    }
}

/// What a write of text hands over.
pub open spec fn started_text_write(clipboard: BrowserClipboard, text: Seq<char>) -> Result<
    StartedWriteView,
    WebErrorView,
> {
    if clipboard.write_text {
        Ok(StartedWriteView::Text(text))
    } else {
        Err(WebErrorView::WriteTextUnavailable)
    }
}

/// A record of payloads, by format, after a payload was put into it: it takes the place of
/// the one that has the same format, or comes last.
pub open spec fn with_entry(record: Seq<RawEntryView>, entry: RawEntryView) -> Seq<RawEntryView>
    decreases record.len(),
{
    if record.len() == 0 {
        seq![entry]
    } else if record[0].format == entry.format {
        record.update(0, entry)
    } else {
        seq![record[0]] + with_entry(record.drop_first(), entry)
    }
}

/// The record that payloads make up. Payloads without a format are left out.
pub open spec fn record_of(raw: Seq<RawEntryView>) -> Seq<RawEntryView>
    decreases raw.len(),
{
    if raw.len() == 0 {
        Seq::empty()
    } else if raw.last().format.len() == 0 {
        record_of(raw.drop_last())
    } else {
        with_entry(record_of(raw.drop_last()), raw.last())
    }
}

/// What a write of payloads hands over: the record that they make up, or empty text where
/// there is nothing in it.
pub open spec fn started_raw_write(clipboard: BrowserClipboard, raw: Seq<RawEntryView>) -> Result<
    StartedWriteView,
    WebErrorView,
> {
    if record_of(raw).len() == 0 {
        started_text_write(clipboard, Seq::empty())
    } else {
        Ok(StartedWriteView::Raw(record_of(raw)))
    }
}

/// What a write of an item hands over: text where the item holds nothing else, and
/// payloads where it does.
pub open spec fn started_write(clipboard: BrowserClipboard, item: Seq<EntryView>) -> Result<
    StartedWriteView,
    WebErrorView,
> {
    if all_textual(item) {
        started_text_write(clipboard, text_or_empty(item))
    } else if !clipboard.write {
        Err(WebErrorView::WriteUnavailable)
    } else {
        started_raw_write(clipboard, raw_forms(item))
    }
}

/// What a write of text hands over.
pub fn start_write_text_with_clipboard(clipboard: &BrowserClipboard, text: String) -> (started:
    Result<StartedWrite, WebError>)
    ensures
        full_view(started) == started_text_write(*clipboard, text@),
{
    if clipboard.write_text {
        Ok(StartedWrite::Text(text))
    } else {
        Err(WebError::WriteTextUnavailable)
    }
}

/// Where a payload is put into a record: at the first entry of the same format.
proof fn lemma_with_entry(record: Seq<RawEntryView>, entry: RawEntryView, position: int)
    requires
        0 <= position <= record.len(),
        forall|i: int| 0 <= i < position ==> (#[trigger] record[i]).format != entry.format,
        position < record.len() ==> record[position].format == entry.format,
    ensures
        position < record.len() ==> with_entry(record, entry) == record.update(position, entry),
        position == record.len() ==> with_entry(record, entry) == record.push(entry),
    decreases record.len(),
{
    if record.len() == 0 {
        assert(seq![entry] =~= record.push(entry));
    } else if position > 0 {
        let rest = record.drop_first();
        assert(record[0].format != entry.format);
        assert forall|i: int| 0 <= i < position - 1 implies (#[trigger] rest[i]).format
            != entry.format by {
            assert(rest[i] == record[i + 1]);
        }
        lemma_with_entry(rest, entry, position - 1);
        if position < record.len() {
            assert(seq![record[0]] + rest.update(position - 1, entry) =~= record.update(
                position,
                entry,
            ));
        } else {
            assert(seq![record[0]] + rest.push(entry) =~= record.push(entry));
        }
    }
}

/// Puts a payload into a record: it takes the place of the one that has the same format, or
/// comes last.
pub fn put_entry(record: &mut RawClipboardItem, entry: RawClipboardEntry)
    ensures
        final(record)@ == with_entry(old(record)@, entry@),
{
    let count: usize = record.entries.len();
    for i in 0..count
        invariant
            count == record.entries@.len(),
            record@ == old(record)@,
            forall|j: int| 0 <= j < i ==> (#[trigger] record@[j]).format != entry@.format,
    {
        assert(record@[i as int] == record.entries@[i as int]@);
        if *record.entries[i].format.as_str() == *entry.format.as_str() {
            proof {
                lemma_with_entry(record@, entry@, i as int);
            }
            record.entries.set(i, entry);
            assert(record@ =~= old(record)@.update(i as int, entry@));
            return ;
        }
    }
    proof {
        lemma_with_entry(record@, entry@, count as int);
    }
    record.entries.push(entry);
    assert(record@ =~= old(record)@.push(entry@));
}

/// What a write of payloads hands over. Payloads without a format are left out, and of those
/// with the same format the last one counts.
pub fn start_raw_write_with_clipboard(clipboard: &BrowserClipboard, raw: RawClipboardItem) -> (started:
    Result<StartedWrite, WebError>)
    ensures
        full_view(started) == started_raw_write(*clipboard, raw@),
{
    let ghost all = raw.entries@;
    let ghost given = raw@;
    let mut record = RawClipboardItem { entries: Vec::new() };
    assert(record@ =~= record_of(given.take(0)));
    for entry in iter: raw.entries
        invariant
            iter.seq() == all,
            given == all.map_values(|entry: RawClipboardEntry| entry@),
            record@ == record_of(given.take(iter.index() as int)),
    {
        let ghost i = iter.index() as int;
        assert(given.take(i + 1).drop_last() =~= given.take(i));
        assert(given[i] == entry@);
        if !entry.format.as_str().is_empty() {
            put_entry(&mut record, entry);
        }
    }
    assert(given.take(given.len() as int) =~= given);
    if record.entries.is_empty() {
        start_write_text_with_clipboard(clipboard, String::new())
    } else {
        Ok(StartedWrite::Raw(record))
    }
}

/// What a write of an item hands over.
pub fn start_write_with_clipboard(clipboard: &BrowserClipboard, item: ClipboardItem) -> (started:
    Result<StartedWrite, WebError>)
    ensures
        full_view(started) == started_write(*clipboard, item@),
{
    if let Some(text) = text_only_item(&item) {
        return start_write_text_with_clipboard(clipboard, text);
    }
    if !clipboard.write {
        return Err(WebError::WriteUnavailable);
    }
    start_raw_write_with_clipboard(clipboard, RawClipboardItem::from_clipboard_item(&item))
}

/// What to start in order to put an item on the clipboard.
pub fn write(window: &Window, item: ClipboardItem) -> (started: Result<StartedWrite, WebError>)
    ensures
        full_view(started) == (match clipboard_of(*window) {
            Ok(clipboard) => started_write(clipboard, item@),
            Err(error) => Err(error),
        }),
{
    match browser_clipboard(window) {
        Ok(clipboard) => start_write_with_clipboard(&clipboard, item),
        Err(error) => Err(error),
    }
}

/// What a write gives once the browser has replied.
pub fn finish_write(write: &StartedWrite, reply: Result<(), JsFailure>) -> (written: Result<
    (),
    WebError,
>)
    ensures
        result_view(written) == (match reply {
            Ok(_) => Ok(()),
            Err(failure) => Err(
                match write {
                    StartedWrite::Text(_) => js_failure(JsAction::WriteText, failure),
                    StartedWrite::Raw(_) => js_failure(JsAction::Write, failure),
                },
            ),
        }),
{
    match reply {
        Ok(_) => Ok(()),
        Err(failure) => match write {
            StartedWrite::Text(_) => Err(js_error(JsAction::WriteText, failure)),
            StartedWrite::Raw(_) => Err(js_error(JsAction::Write, failure)),
        },
    }
}

/// Text that is read back from a browser is the text that was written, unless it is empty,
/// which reads as nothing.
pub proof fn law_text_is_read_back(text: Seq<char>)
    ensures
        text.len() == 0 ==> plain_text_entries(text) is None,
        text.len() > 0 ==> typed_forms(plain_text_entries(text)->0) == seq![
            EntryView::String(text),
        ],
{
    if text.len() > 0 {
        let raw = plain_text_entries(text)->0;
        law_encoded_text_decodes_to_itself(text);
        assert(raw =~= seq![raw[0]]);
        Seq::lemma_filter_map_singleton(raw[0], |entry: RawEntryView| typed_form(entry));
    }
}

/// No two of the payloads have the same format.
pub open spec fn formats_differ(raw: Seq<RawEntryView>) -> bool {
    forall|i: int, j: int|
        0 <= i < j < raw.len() ==> (#[trigger] raw[i]).format != (#[trigger] raw[j]).format
}

/// No two of the payloads have the same format, and each of them has one.
pub open spec fn is_record(raw: Seq<RawEntryView>) -> bool {
    &&& forall|i: int| 0 <= i < raw.len() ==> (#[trigger] raw[i]).format.len() > 0
    &&& formats_differ(raw)
}

/// Where a payload of this format is in a record, or the end of the record.
proof fn lemma_position(record: Seq<RawEntryView>, format: Seq<char>) -> (position: int)
    ensures
        0 <= position <= record.len(),
        forall|i: int| 0 <= i < position ==> (#[trigger] record[i]).format != format,
        position < record.len() ==> record[position].format == format,
    decreases record.len(),
{
    if record.len() == 0 {
        0
    } else {
        let position = lemma_position(record.drop_last(), format);
        assert forall|i: int| 0 <= i < position implies (#[trigger] record[i]).format != format by {
            assert(record.drop_last()[i] == record[i]);
        }
        if position < record.len() - 1 {
            assert(record.drop_last()[position] == record[position]);
            position
        } else if record.last().format == format {
            record.len() - 1
        } else {
            record.len() as int
        }
    }
}

/// What is handed to the browser holds no format twice and no payload without a format.
pub proof fn law_written_payloads_are_a_record(raw: Seq<RawEntryView>)
    ensures
        is_record(record_of(raw)),
    decreases raw.len(),
{
    if raw.len() > 0 {
        law_written_payloads_are_a_record(raw.drop_last());
        if raw.last().format.len() > 0 {
            let rest = record_of(raw.drop_last());
            let position = lemma_position(rest, raw.last().format);
            lemma_with_entry(rest, raw.last(), position);
        }
    }
}

/// Payloads with a format each, no two of them the same, are handed to the browser as they
/// are.
pub proof fn law_records_are_written_unchanged(raw: Seq<RawEntryView>)
    requires
        is_record(raw),
    ensures
        record_of(raw) == raw,
    decreases raw.len(),
{
    if raw.len() > 0 {
        let rest = raw.drop_last();
        assert forall|i: int| 0 <= i < rest.len() implies (#[trigger] rest[i]).format.len() > 0 by {
            assert(rest[i] == raw[i]);
        }
        assert forall|i: int, j: int| 0 <= i < j < rest.len() implies (#[trigger] rest[i]).format
            != (#[trigger] rest[j]).format by {
            assert(rest[i] == raw[i] && rest[j] == raw[j]);
        }
        law_records_are_written_unchanged(rest);
        assert(raw[raw.len() - 1].format.len() > 0);
        assert forall|i: int| 0 <= i < rest.len() implies (#[trigger] rest[i]).format
            != raw.last().format by {
            assert(raw[i].format != raw[raw.len() - 1].format);
        }
        lemma_with_entry(rest, raw.last(), rest.len() as int);
        assert(rest.push(raw.last()) =~= raw);
    }
}

/// Of the payloads with the same format, the last one is handed to the browser.
pub proof fn law_last_payload_counts(raw: Seq<RawEntryView>, i: int)
    requires
        0 <= i < raw.len(),
        raw[i].format.len() > 0,
        forall|j: int| i < j < raw.len() ==> (#[trigger] raw[j]).format != raw[i].format,
    ensures
        record_of(raw).contains(raw[i]),
    decreases raw.len(),
{
    let rest = record_of(raw.drop_last());
    let last = raw.last();
    let position = lemma_position(rest, last.format);
    lemma_with_entry(rest, last, position);
    if i == raw.len() - 1 {
        assert(record_of(raw)[position] == last);
    } else {
        assert forall|j: int| i < j < raw.drop_last().len() implies (
        #[trigger] raw.drop_last()[j]).format != raw.drop_last()[i].format by {
            assert(raw[j].format != raw[i].format);
        }
        law_last_payload_counts(raw.drop_last(), i);
        let k = choose|k: int| 0 <= k < rest.len() && rest[k] == raw.drop_last()[i];
        assert(raw[raw.len() - 1].format != raw[i].format);
        assert(record_of(raw)[k] == raw[i]);
    }
}

/// Nothing is handed to the browser that is not among the payloads.
pub proof fn law_record_comes_from_payloads(raw: Seq<RawEntryView>, entry: RawEntryView)
    requires
        record_of(raw).contains(entry),
    ensures
        raw.contains(entry),
    decreases raw.len(),
{
    if raw.len() > 0 {
        let rest = record_of(raw.drop_last());
        let last = raw.last();
        let position = lemma_position(rest, last.format);
        lemma_with_entry(rest, last, position);
        if entry == last {
            assert(raw[raw.len() - 1] == entry);
        } else {
            let k = choose|k: int| 0 <= k < record_of(raw).len() && record_of(raw)[k] == entry;
            assert(rest[k] == entry);
            law_record_comes_from_payloads(raw.drop_last(), entry);
            let i = choose|i: int| 0 <= i < raw.len() - 1 && raw.drop_last()[i] == entry;
            assert(raw[i] == entry);
        }
    }
}

/// Every payload of an item has a format.
proof fn lemma_raw_forms_are_named(item: Seq<EntryView>)
    ensures
        forall|i: int|
            0 <= i < raw_forms(item).len() ==> (#[trigger] raw_forms(item)[i]).format.len() > 0,
    decreases item.len(),
{
    if item.len() > 0 {
        lemma_raw_forms_are_named(item.drop_last());
        if let Some(payload) = raw_form(item.last()) {
            let rest = raw_forms(item.drop_last());
            assert(raw_forms(item) =~= rest.push(payload));
            match item.last() {
                EntryView::Image { format, bytes, id } => law_image_mime_types(format),
                _ => {
                    reveal_strlit("text/plain");
                },
            }
            assert forall|i: int| 0 <= i < raw_forms(item).len() implies (
            #[trigger] raw_forms(item)[i]).format.len() > 0 by {
                if i < rest.len() {
                    assert(raw_forms(item)[i] == rest[i]);
                }
            }
        } else {
            assert(raw_forms(item) =~= raw_forms(item.drop_last()));
        }
    }
}

/// Payloads that have a format make up a record with something in it.
proof fn lemma_record_is_not_empty(raw: Seq<RawEntryView>)
    requires
        raw.len() > 0,
        raw.last().format.len() > 0,
    ensures
        record_of(raw).len() > 0,
{
    let rest = record_of(raw.drop_last());
    let position = lemma_position(rest, raw.last().format);
    lemma_with_entry(rest, raw.last(), position);
}

/// An item with an image in it has a payload.
proof fn lemma_raw_forms_of_images(item: Seq<EntryView>)
    requires
        !all_textual(item),
    ensures
        raw_forms(item).len() > 0,
    decreases item.len(),
{
    let i = choose|i: int| 0 <= i < item.len() && !is_textual(#[trigger] item[i]);
    if i < item.len() - 1 {
        assert(item.drop_last()[i] == item[i]);
        lemma_raw_forms_of_images(item.drop_last());
    }
}

/// Where payloads can be written, an item that is not all text is handed over as the record
/// of its payloads.
pub proof fn law_images_are_written_as_payloads(clipboard: BrowserClipboard, item: Seq<EntryView>)
    requires
        clipboard.write,
        !all_textual(item),
    ensures
        started_write(clipboard, item) == Ok::<StartedWriteView, WebErrorView>(
            StartedWriteView::Raw(record_of(raw_forms(item))),
        ),
{
    let raw = raw_forms(item);
    lemma_raw_forms_are_named(item);
    lemma_raw_forms_of_images(item);
    assert(raw[raw.len() - 1].format.len() > 0);
    lemma_record_is_not_empty(raw);
}

/// An item that is not all text reads back unchanged from what the browser is handed, if no
/// two of its payloads have the same format, it has no external paths and its images carry the
/// hash of their bytes.
pub proof fn law_written_payloads_read_back(clipboard: BrowserClipboard, item: Seq<EntryView>)
    requires
        clipboard.write,
        !all_textual(item),
        formats_differ(raw_forms(item)),
        forall|i: int| 0 <= i < item.len() ==> survives_raw(#[trigger] item[i]),
    ensures
        started_write(clipboard, item) matches Ok(StartedWriteView::Raw(raw)) && non_empty(
            typed_forms(raw),
        ) == Some(item),
{
    law_images_are_written_as_payloads(clipboard, item);
    lemma_raw_forms_are_named(item);
    law_records_are_written_unchanged(raw_forms(item));
    law_raw_round_trip_is_exact(item);
}

/// An item goes through `navigator.clipboard.write` exactly where it is not all text and that
/// function is there. Without it, such an item cannot be written at all.
pub proof fn law_write_function(clipboard: BrowserClipboard, item: Seq<EntryView>)
    ensures
        (started_write(clipboard, item) is Ok && started_write(clipboard, item)->Ok_0 is Raw)
            <==> !all_textual(item) && clipboard.write,
        !all_textual(item) ==> (started_write(clipboard, item) is Ok <==> clipboard.write),
        all_textual(item) ==> (started_write(clipboard, item) is Ok <==> clipboard.write_text),
{
    if !all_textual(item) && clipboard.write {
        law_images_are_written_as_payloads(clipboard, item);
    }
}

/// What is said of a failure is the value itself where it is a string, its message where it
/// has one, and what is printed otherwise, word for word.
pub proof fn law_failures_are_told_in_their_own_words(failure: JsFailure, message: String)
    requires
        call_ensures(JsFailure::describe, (failure,), message),
    ensures
        failure.text matches Some(text) ==> message@ == text@,
        failure.text is None ==> (failure.message matches Some(text) ==> message@ == text@),
        failure.text is None && failure.message is None ==> message@ == failure.debug@,
{
}

/// An error of the browser names what was being done, and then says what is said of the
/// failure.
pub proof fn law_browser_errors_tell_what_failed(
    action: JsAction,
    failure: JsFailure,
    error: WebError,
    words: String,
    said: String,
    told: String,
)
    requires
        call_ensures(js_error, (action, failure), error),
        call_ensures(JsAction::describe, (&action,), words),
        call_ensures(JsFailure::describe, (failure,), said),
        call_ensures(WebError::message, (&error,), told),
    ensures
        error matches WebError::Js { action: doing, message } && doing@ == words@ && message@
            == said@,
        told@ == words@ + seq![':', ' '] + said@,
{
    reveal_strlit(": ");
    assert(": "@ =~= seq![':', ' ']);
}

/// The words for a payload that could not be had hold the quoted type as it is, between the
/// name of the function and what became of it.
pub proof fn law_payload_errors_name_the_type(quoted_type: &str, failed: String, no_blob: String)
    requires
        call_ensures(get_type_failed, (quoted_type,), failed),
        call_ensures(open_blob_failed, (quoted_type,), no_blob),
    ensures
        failed@ == "ClipboardItem.getType("@ + quoted_type@ + ") failed"@,
        no_blob@ == "ClipboardItem.getType("@ + quoted_type@ + ") did not return a Blob"@,
{
}

/// The words for a failure to get a payload, or to take it for a blob, hold the type in quotes.
pub proof fn law_payload_actions_name_the_type(action: JsAction, words: String)
    requires
        call_ensures(JsAction::describe, (&action,), words),
    ensures
        action matches JsAction::GetType(mime_type) ==> words@ == "ClipboardItem.getType("@
            + quoted_text(mime_type@) + ") failed"@,
        action matches JsAction::OpenBlob(mime_type) ==> words@ == "ClipboardItem.getType("@
            + quoted_text(mime_type@) + ") did not return a Blob"@,
{
}

/// A window has the clipboard that it has, and without one there is an error that says so.
pub proof fn law_windows_give_their_clipboard(
    window: Window,
    clipboard: Result<BrowserClipboard, WebError>,
)
    requires
        call_ensures(browser_clipboard, (&window,), clipboard),
    ensures
        window.clipboard matches Some(functions) ==> clipboard is Ok && clipboard->Ok_0
            == functions,
        window.clipboard is None ==> clipboard is Err && clipboard->Err_0
            is ClipboardUnavailable,
{
}

/// A read starts the function for payloads wherever there is one, whatever else there is. The
/// function for text is what is left, and without both, or without a clipboard, there is an
/// error that says what is missing. A read of an item starts what a raw read starts.
pub proof fn law_reads_prefer_payloads(
    window: Window,
    raw: Result<StartedRawRead, WebError>,
    typed: Result<StartedRawRead, WebError>,
)
    requires
        call_ensures(read_raw, (&window,), raw),
        call_ensures(read, (&window,), typed),
    ensures
        window.clipboard is None ==> raw is Err && raw->Err_0 is ClipboardUnavailable,
        window.clipboard matches Some(functions) ==> {
            &&& functions.read ==> raw is Ok && raw->Ok_0 is Raw
            &&& !functions.read && functions.read_text ==> raw is Ok && raw->Ok_0 is Text
            &&& !functions.read && !functions.read_text ==> raw is Err && raw->Err_0
                is ReadTextUnavailable
        },
        raw is Ok <==> typed is Ok,
        raw is Ok ==> raw->Ok_0 == typed->Ok_0,
        raw is Err ==> raw->Err_0@ == typed->Err_0@,
{
}

/// A read passes on that there is nothing, and errors as they are. Payloads give the item that
/// they are converted to.
pub proof fn law_reads_convert_payloads(
    raw: Result<Option<RawClipboardItem>, WebError>,
    item: Result<Option<ClipboardItem>, WebError>,
    converted: Option<ClipboardItem>,
)
    requires
        call_ensures(finish_read, (raw,), item),
        raw is Ok && raw->Ok_0 is Some ==> call_ensures(
            raw_to_clipboard_item,
            (&raw->Ok_0->0,),
            converted,
        ),
    ensures
        raw matches Err(error) ==> item is Err && item->Err_0@ == error@,
        raw matches Ok(None) ==> item is Ok && item->Ok_0 is None,
        raw is Ok && raw->Ok_0 is Some ==> item is Ok && opt_view(item->Ok_0) == opt_view(
            converted,
        ),
{
}

/// Text that the browser gives is read as it is, all of it. A reply that is no string is an
/// error that says so, and a refusal says what was refused and why.
pub proof fn law_text_replies_are_read_as_they_are(
    reply: Result<Option<String>, JsFailure>,
    text: Result<String, WebError>,
    said: String,
)
    requires
        call_ensures(finish_read_text, (reply,), text),
        reply is Err ==> call_ensures(JsFailure::describe, (reply->Err_0,), said),
    ensures
        reply matches Ok(Some(given)) ==> text is Ok && text->Ok_0@ == given@,
        reply matches Ok(None) ==> text is Err && text->Err_0 is ReadTextNotAString,
        reply is Err ==> {
            &&& text matches Err(WebError::Js { action, message })
            &&& action@ == "navigator.clipboard.readText failed"@
            &&& message@ == said@
        },
{
}

/// Text that the browser gives becomes one payload, the text in UTF-8 as plain text, all of
/// it. Empty text becomes nothing, and errors stay what they are.
pub proof fn law_text_replies_become_one_payload(
    reply: Result<Option<String>, JsFailure>,
    text: Result<String, WebError>,
    raw: Result<Option<RawClipboardItem>, WebError>,
)
    requires
        call_ensures(finish_read_text, (reply,), text),
        call_ensures(finish_read_text_raw, (reply,), raw),
    ensures
        text matches Err(error) ==> raw is Err && raw->Err_0@ == error@,
        reply matches Ok(Some(given)) ==> {
            &&& raw is Ok
            &&& raw->Ok_0 is None <==> given@.len() == 0
            &&& raw->Ok_0 matches Some(raw) ==> {
                &&& raw@.len() == 1
                &&& raw@[0].format == "text/plain"@
                &&& raw@[0].bytes == encode_utf8(given@)
            }
        },
        reply matches Ok(None) ==> raw is Err && raw->Err_0 is ReadTextNotAString,
{
}

/// Where there is a function for it, text is handed over exactly as it is, however long.
/// Without that function there is an error that says so.
pub proof fn law_text_is_written_as_it_is(
    clipboard: BrowserClipboard,
    text: String,
    started: Result<StartedWrite, WebError>,
)
    requires
        call_ensures(start_write_text_with_clipboard, (&clipboard, text), started),
    ensures
        clipboard.write_text ==> (started matches Ok(StartedWrite::Text(written)) && written@
            == text@),
        !clipboard.write_text ==> started is Err && started->Err_0 is WriteTextUnavailable,
{
}

/// An item of one string is handed over as exactly that string, whatever it is.
pub proof fn law_one_string_is_written_as_it_is(clipboard: BrowserClipboard, chars: Seq<char>)
    requires
        clipboard.write_text,
    ensures
        started_text_write(clipboard, chars) == Ok::<StartedWriteView, WebErrorView>(
            StartedWriteView::Text(chars),
        ),
        started_write(clipboard, seq![EntryView::String(chars)]) == Ok::<
            StartedWriteView,
            WebErrorView,
        >(StartedWriteView::Text(chars)),
{
    law_text_of_one_string(chars);
    assert(chars.len() == 0 ==> chars =~= Seq::empty());
}

/// What a write starts. An item without images goes as its text, which may be empty. One with
/// an image goes as the record of its payloads. Where the function for it is missing, or the
/// clipboard, there is an error that says which.
pub proof fn law_writes_hand_over_the_item(
    window: Window,
    item: ClipboardItem,
    started: Result<StartedWrite, WebError>,
)
    requires
        call_ensures(crate::web::write, (&window, item), started),
    ensures
        ({
            let has_image = exists|i: int|
                0 <= i < item@.len() && (#[trigger] item@[i]) is Image;
            &&& window.clipboard is None ==> started is Err && started->Err_0
                is ClipboardUnavailable
            &&& window.clipboard matches Some(functions) ==> {
                &&& !has_image && functions.write_text ==> {
                    &&& started matches Ok(StartedWrite::Text(text))
                    &&& item_text(item@) is Some ==> text@ == item_text(item@)->0
                    &&& item_text(item@) is None ==> text@.len() == 0
                }
                &&& !has_image && !functions.write_text ==> started is Err && started->Err_0
                    is WriteTextUnavailable
                &&& has_image && !functions.write ==> started is Err && started->Err_0
                    is WriteUnavailable
                &&& has_image && functions.write ==> {
                    &&& started matches Ok(StartedWrite::Raw(raw))
                    &&& raw@ == record_of(raw_forms(item@))
                }
            }
        }),
{
    let has_image = exists|i: int| 0 <= i < item@.len() && (#[trigger] item@[i]) is Image;
    if has_image {
        let i = choose|i: int| 0 <= i < item@.len() && (#[trigger] item@[i]) is Image;
        assert(!is_textual(item@[i]));
        if window.clipboard is Some && window.clipboard->0.write {
            law_images_are_written_as_payloads(window.clipboard->0, item@);
        }
    }
}

/// A write of a window starts what a write of its clipboard starts.
pub proof fn law_windows_write_to_their_clipboard(
    functions: BrowserClipboard,
    window: Window,
    item: ClipboardItem,
    through_window: Result<StartedWrite, WebError>,
    direct: Result<StartedWrite, WebError>,
)
    requires
        window.clipboard == Some(functions),
        call_ensures(crate::web::write, (&window, item), through_window),
        call_ensures(start_write_with_clipboard, (&functions, item), direct),
    ensures
        full_view(through_window) == full_view(direct),
{
}

/// Putting a payload into a record replaces the first of the same format, in its place, or
/// adds the payload at the end. The other payloads stay where they are.
pub proof fn law_payload_is_put_in_its_place(
    record: &mut RawClipboardItem,
    entry: RawClipboardEntry,
    done: (),
    i: int,
)
    requires
        call_ensures(put_entry, (record, entry), done),
    ensures
        (forall|j: int| 0 <= j < old(record)@.len() ==> (#[trigger] old(record)@[j]).format
            != entry.format@) ==> final(record)@ == old(record)@.push(entry@),
        0 <= i < old(record)@.len() && old(record)@[i].format == entry.format@ && (forall|j: int|
            0 <= j < i ==> (#[trigger] old(record)@[j]).format != entry.format@)
            ==> final(record)@ == old(record)@.update(i, entry@),
        0 <= i < old(record)@.len() && old(record)@[i].format != entry.format@
            ==> final(record)@[i] == old(record)@[i],
        final(record)@.contains(entry@),
{
    let position = lemma_position(old(record)@, entry.format@);
    lemma_with_entry(old(record)@, entry@, position);
    assert(final(record)@[position] == entry@);
    if 0 <= i < old(record)@.len() && old(record)@[i].format == entry.format@ && (forall|j: int|
        0 <= j < i ==> (#[trigger] old(record)@[j]).format != entry.format@) {
        assert(position == i) by {
            if position < i {
                assert(old(record)@[position].format != entry.format@);
            }
            if i < position {
                assert(old(record)@[i].format != entry.format@);
            }
        }
    }
    if forall|j: int| 0 <= j < old(record)@.len() ==> (#[trigger] old(record)@[j]).format
        != entry.format@ {
        if position < old(record)@.len() {
            assert(old(record)@[position].format != entry.format@);
        }
    }
}

/// The record of payloads grows one payload at a time. One without a format is left out,
/// another replaces the first of its format, or comes last.
pub proof fn law_records_grow_by_payloads(raw: Seq<RawEntryView>, entry: RawEntryView, i: int)
    ensures
        record_of(Seq::empty()).len() == 0,
        entry.format.len() == 0 ==> record_of(raw.push(entry)) == record_of(raw),
        entry.format.len() > 0 && (forall|j: int|
            0 <= j < record_of(raw).len() ==> (#[trigger] record_of(raw)[j]).format
                != entry.format) ==> record_of(raw.push(entry)) == record_of(raw).push(entry),
        entry.format.len() > 0 && 0 <= i < record_of(raw).len() && record_of(raw)[i].format
            == entry.format ==> record_of(raw.push(entry)) == record_of(raw).update(i, entry),
{
    assert(raw.push(entry).drop_last() =~= raw);
    if entry.format.len() > 0 {
        let position = lemma_position(record_of(raw), entry.format);
        lemma_with_entry(record_of(raw), entry, position);
        if forall|j: int| 0 <= j < record_of(raw).len() ==> (#[trigger] record_of(raw)[j]).format
            != entry.format {
            if position < record_of(raw).len() {
                assert(record_of(raw)[position].format != entry.format);
            }
        }
        if 0 <= i < record_of(raw).len() && record_of(raw)[i].format == entry.format {
            law_written_payloads_are_a_record(raw);
            if position < i {
                assert(record_of(raw)[position].format != record_of(raw)[i].format);
            }
            if i < position {
                assert(record_of(raw)[i].format != entry.format);
            }
        }
    }
}

/// A write of payloads hands over their record wherever one of them has a format. Where none
/// has, it is a write of empty text.
pub proof fn law_payloads_are_written_as_a_record(
    clipboard: BrowserClipboard,
    raw: RawClipboardItem,
    started: Result<StartedWrite, WebError>,
)
    requires
        call_ensures(start_raw_write_with_clipboard, (&clipboard, raw), started),
    ensures
        ({
            let named = exists|i: int|
                0 <= i < raw@.len() && (#[trigger] raw@[i]).format.len() > 0;
            &&& named ==> (started matches Ok(StartedWrite::Raw(record)) && record@ == record_of(
                raw@,
            ))
            &&& !named && clipboard.write_text ==> (started matches Ok(StartedWrite::Text(text))
                && text@.len() == 0)
            &&& !named && !clipboard.write_text ==> started is Err && started->Err_0
                is WriteTextUnavailable
        }),
{
    lemma_records_of_named_payloads(raw@);
}

/// There is something in a record exactly where one of the payloads has a format.
proof fn lemma_records_of_named_payloads(raw: Seq<RawEntryView>)
    ensures
        record_of(raw).len() > 0 <==> exists|i: int|
            0 <= i < raw.len() && (#[trigger] raw[i]).format.len() > 0,
    decreases raw.len(),
{
    if raw.len() > 0 {
        let rest = raw.drop_last();
        lemma_records_of_named_payloads(rest);
        assert(raw.last() == raw[raw.len() - 1]);
        if raw.last().format.len() > 0 {
            lemma_record_is_not_empty(raw);
        } else {
            if record_of(rest).len() > 0 {
                let i = choose|i: int| 0 <= i < rest.len() && (#[trigger] rest[i]).format.len() > 0;
                assert(raw[i] == rest[i]);
            }
            if exists|i: int| 0 <= i < raw.len() && (#[trigger] raw[i]).format.len() > 0 {
                let i = choose|i: int| 0 <= i < raw.len() && (#[trigger] raw[i]).format.len() > 0;
                assert(rest[i] == raw[i]);
            }
        }
    }
}

/// A write succeeds where the browser says so. Where it refuses, the error names the function
/// that was called and says why.
pub proof fn law_refused_writes_are_errors(
    write: StartedWrite,
    reply: Result<(), JsFailure>,
    written: Result<(), WebError>,
    said: String,
)
    requires
        call_ensures(finish_write, (&write, reply), written),
        reply is Err ==> call_ensures(JsFailure::describe, (reply->Err_0,), said),
    ensures
        written is Ok <==> reply is Ok,
        reply is Err ==> {
            &&& written matches Err(WebError::Js { action, message })
            &&& message@ == said@
            &&& write is Text ==> action@ == "navigator.clipboard.writeText failed"@
            &&& write is Raw ==> action@ == "navigator.clipboard.write failed"@
        },
{
}

} // verus!
