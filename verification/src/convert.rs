//! Conversions between typed items and raw payloads.

use vstd::prelude::*;
use vstd::string::StrSliceExecFns;
use vstd::utf8::*;

use crate::item::{
    content_hash, image_format_of, image_of, item_text, law_image_mime_types,
    law_text_of_one_string, ClipboardEntry, ClipboardItem, ClipboardString, EntryView, Image,
    ImageFormat, RawClipboardEntry, RawClipboardItem, RawEntryView, PLAIN_TEXT_MIME_TYPE,
};
use crate::text::{
    decode, decoded, law_decoded_text_encodes_to_the_payload, law_encoded_text_decodes_to_itself,
    opt_view,
};

verus! {

broadcast use vstd::std_specs::vec::group_vec_axioms;

/// The payload that stands for an entry. External paths have none.
pub open spec fn raw_form(entry: EntryView) -> Option<RawEntryView> {
    match entry {
        EntryView::String(text) => Some(
            RawEntryView { format: PLAIN_TEXT_MIME_TYPE@, bytes: encode_utf8(text) },
        ),
        EntryView::Image { format, bytes, .. } => Some(RawEntryView { format: format.mime(), bytes }),
        EntryView::ExternalPaths(_) => None,
    }
}

/// The payloads that stand for the entries of an item.
pub open spec fn raw_forms(entries: Seq<EntryView>) -> Seq<RawEntryView> {
    entries.filter_map(|entry: EntryView| raw_form(entry))
}

/// The entry that a payload stands for: plain text if it is well-formed UTF-8, or an
/// image of a known format.
pub open spec fn typed_form(entry: RawEntryView) -> Option<EntryView> {
    if entry.format == PLAIN_TEXT_MIME_TYPE@ {
        match decoded(entry.bytes) {
            Some(text) => Some(EntryView::String(text)),
            None => None,
        }
    } else {
        match image_format_of(entry.format) {
            Some(format) => Some(image_of(format, entry.bytes)),
            None => None,
        }
    }
}

/// The entries that the payloads of a raw item stand for.
pub open spec fn typed_forms(raw: Seq<RawEntryView>) -> Seq<EntryView> {
    raw.filter_map(|entry: RawEntryView| typed_form(entry))
}

/// The sequence, unless there is nothing in it.
pub open spec fn non_empty<T>(entries: Seq<T>) -> Option<Seq<T>> {
    if entries.len() == 0 {
        None
    } else {
        Some(entries)
    }
}

impl RawClipboardItem {
    /// The payloads of an item. This loses what has no payload: external paths and the
    /// identifiers of images.
    pub fn from_clipboard_item(item: &ClipboardItem) -> (raw: RawClipboardItem)
        ensures
            raw@ == raw_forms(item@),
    {
        let mut raw = RawClipboardItem { entries: Vec::new() };
        assert(raw@ =~= raw_forms(item@.take(0)));
        for i in 0..item.entries.len()
            invariant
                raw@ == raw_forms(item@.take(i as int)),
        {
            proof {
                item@.lemma_filter_map_take_succ(|entry: EntryView| raw_form(entry), i as int);
            }
            let ghost before = raw@;
            match &item.entries[i] {
                ClipboardEntry::String(string) => {
                    raw.entries.push(
                        RawClipboardEntry {
                            format: PLAIN_TEXT_MIME_TYPE.to_owned(),
                            bytes: string.text.as_str().as_bytes_vec(),
                        },
                    );
                    assert(raw@ =~= before.push(raw.entries@.last()@));
                },
                ClipboardEntry::Image(image) => {
                    let bytes = image.bytes.clone();
                    assert(bytes@ =~= image.bytes@);
                    raw.entries.push(
                        RawClipboardEntry { format: image.format.mime_type().to_owned(), bytes },
                    );
                    assert(raw@ =~= before.push(raw.entries@.last()@));
                },
                ClipboardEntry::ExternalPaths(_) => {},
            }
            assert(raw@ =~= raw_forms(item@.take(i + 1)));
        }
        assert(item@.take(item@.len() as int) =~= item@);
        raw
    }
}

/// The typed item that a raw item stands for, if any of its payloads is understood.
pub fn raw_to_clipboard_item(raw: &RawClipboardItem) -> (item: Option<ClipboardItem>)
    ensures
        opt_view(item) == non_empty(typed_forms(raw@)),
{
    let mut item = ClipboardItem { entries: Vec::new() };
    assert(item@ =~= typed_forms(raw@.take(0)));
    for i in 0..raw.entries.len()
        invariant
            item@ == typed_forms(raw@.take(i as int)),
    {
        proof {
            raw@.lemma_filter_map_take_succ(|entry: RawEntryView| typed_form(entry), i as int);
        }
        let ghost before = item@;
        let entry = &raw.entries[i];
        let bytes = entry.bytes.clone();
        assert(bytes@ =~= entry.bytes@);
        if *entry.format.as_str() == *PLAIN_TEXT_MIME_TYPE {
            if let Some(text) = decode(bytes) {
                item.entries.push(ClipboardEntry::String(ClipboardString::new(text)));
                assert(item@ =~= before.push(item.entries@.last()@));
            }
        } else if let Some(format) = ImageFormat::from_mime_type(entry.format.as_str()) {
            item.entries.push(ClipboardEntry::Image(Image::from_bytes(format, bytes)));
            assert(item@ =~= before.push(item.entries@.last()@));
        }
        assert(item@ =~= typed_forms(raw@.take(i + 1)));
    }
    assert(raw@.take(raw@.len() as int) =~= raw@);
    if item.entries.is_empty() {
        None
    } else {
        Some(item)
    }
}

/// The raw item with these entries, unless there are none.
pub fn non_empty_raw(entries: Vec<RawClipboardEntry>) -> (raw: Option<RawClipboardItem>)
    ensures
        opt_view(raw) == non_empty(entries@.map_values(|entry: RawClipboardEntry| entry@)),
{
    if entries.is_empty() {
        None
    } else {
        Some(RawClipboardItem { entries })
    }
}

/// The entry can be handed over as text.
pub open spec fn is_textual(entry: EntryView) -> bool {
    entry is String || entry is ExternalPaths
}

/// Every entry can be handed over as text.
pub open spec fn all_textual(entries: Seq<EntryView>) -> bool {
    forall|i: int| 0 <= i < entries.len() ==> is_textual(#[trigger] entries[i])
}

/// The text of an item, which is empty where the item holds none.
pub open spec fn text_or_empty(entries: Seq<EntryView>) -> Seq<char> {
    match item_text(entries) {
        Some(text) => text,
        None => Seq::empty(),
    }
}

/// The text of an item all of whose entries can be handed over as text.
pub fn text_only_item(item: &ClipboardItem) -> (text: Option<String>)
    ensures
        opt_view(text) == (if all_textual(item@) {
            Some(text_or_empty(item@))
        } else {
            None
        }),
{
    for i in 0..item.entries.len()
        invariant
            forall|j: int| 0 <= j < i ==> is_textual(#[trigger] item@[j]),
    {
        assert(item@[i as int] == item.entries@[i as int]@);
        match &item.entries[i] {
            ClipboardEntry::Image(_) => {
                return None;
            },
            _ => {},
        }
    }
    match item.text() {
        Some(text) => Some(text),
        None => Some(String::new()),
    }
}

/// What is left of an entry after it was turned into a payload and back: an image gets the
/// identifier that its bytes call for, and external paths are lost.
pub open spec fn round_trip(entry: EntryView) -> Option<EntryView> {
    match entry {
        EntryView::String(_) => Some(entry),
        EntryView::Image { format, bytes, .. } => Some(image_of(format, bytes)),
        EntryView::ExternalPaths(_) => None,
    }
}

/// Turning an item into payloads and back keeps its texts and images, in their order.
pub proof fn law_raw_round_trip(entries: Seq<EntryView>)
    ensures
        typed_forms(raw_forms(entries)) == entries.filter_map(
            |entry: EntryView| round_trip(entry),
        ),
    decreases entries.len(),
{
    if entries.len() > 0 {
        let rest = entries.drop_last();
        law_raw_round_trip(rest);
        match entries.last() {
            EntryView::String(text) => law_encoded_text_decodes_to_itself(text),
            EntryView::Image { format, bytes, id } => law_image_mime_types(format),
            EntryView::ExternalPaths(_) => {},
        }
        if let Some(payload) = raw_form(entries.last()) {
            let raw = raw_forms(entries);
            assert(raw =~= raw_forms(rest).push(payload));
            assert(raw.drop_last() =~= raw_forms(rest));
        }
    }
}

/// The entry comes back unchanged when it is turned into a payload and back.
pub open spec fn survives_raw(entry: EntryView) -> bool {
    match entry {
        EntryView::String(_) => true,
        EntryView::Image { bytes, id, .. } => id == content_hash(bytes),
        EntryView::ExternalPaths(_) => false,
    }
}

/// An item of texts and of images that carry the hash of their bytes comes back unchanged
/// when it is turned into payloads and back.
pub proof fn law_raw_round_trip_is_exact(entries: Seq<EntryView>)
    requires
        forall|i: int| 0 <= i < entries.len() ==> survives_raw(#[trigger] entries[i]),
    ensures
        typed_forms(raw_forms(entries)) == entries,
    decreases entries.len(),
{
    law_raw_round_trip(entries);
    if entries.len() > 0 {
        let rest = entries.drop_last();
        assert forall|i: int| 0 <= i < rest.len() implies survives_raw(#[trigger] rest[i]) by {
            assert(rest[i] == entries[i]);
        }
        law_raw_round_trip_is_exact(rest);
        law_raw_round_trip(rest);
        assert(survives_raw(entries[entries.len() - 1]));
        assert(entries.drop_last().push(entries.last()) =~= entries);
    }
}

/// Converting payloads keeps their order: what two lists of payloads stand for together is
/// what the first stands for, followed by what the second stands for.
pub proof fn law_typed_forms_keep_order(first: Seq<RawEntryView>, second: Seq<RawEntryView>)
    ensures
        typed_forms(first + second) == typed_forms(first) + typed_forms(second),
    decreases second.len(),
{
    if second.len() == 0 {
        assert(first + second =~= first);
    } else {
        law_typed_forms_keep_order(first, second.drop_last());
        assert((first + second).drop_last() =~= first + second.drop_last());
        assert((first + second).last() == second.last());
    }
}

/// Every image that comes out of payloads carries the hash of its bytes, and no external
/// paths come out.
pub proof fn law_typed_forms_survive(raw: Seq<RawEntryView>)
    ensures
        forall|i: int|
            0 <= i < typed_forms(raw).len() ==> survives_raw(#[trigger] typed_forms(raw)[i]),
    decreases raw.len(),
{
    if raw.len() > 0 {
        let rest = typed_forms(raw.drop_last());
        law_typed_forms_survive(raw.drop_last());
        assert forall|i: int| 0 <= i < typed_forms(raw).len() implies survives_raw(
            #[trigger] typed_forms(raw)[i],
        ) by {
            if i < rest.len() {
                assert(typed_forms(raw)[i] == rest[i]);
            } else {
                assert(Some(typed_forms(raw)[i]) == typed_form(raw.last()));
            }
        }
    }
}

/// The payload of a string is its text in UTF-8, as plain text. That of an image is its bytes
/// as they are, under the MIME type of its format. External paths have none.
pub proof fn law_payloads_are_what_entries_hold(
    text: Seq<char>,
    format: ImageFormat,
    bytes: Seq<u8>,
    id: u64,
    paths: Seq<Seq<char>>,
)
    ensures
        raw_form(EntryView::String(text)) == Some(
            RawEntryView { format: "text/plain"@, bytes: encode_utf8(text) },
        ),
        raw_form(EntryView::Image { format, bytes, id }) == Some(
            RawEntryView { format: format.mime(), bytes },
        ),
        raw_form(EntryView::ExternalPaths(paths)) is None,
{
}

/// Plain text is understood exactly where it is UTF-8, and gives the text that it encodes.
/// A payload under the MIME type of an image gives an image with its bytes. Nothing else is
/// understood.
pub proof fn law_payloads_are_understood(raw: RawEntryView, entry: EntryView)
    ensures
        typed_form(raw) == Some(entry) <==> {
            ||| {
                &&& raw.format == "text/plain"@
                &&& entry is String
                &&& raw.bytes == encode_utf8(entry->String_0)
            }
            ||| {
                &&& raw.format != "text/plain"@
                &&& image_format_of(raw.format) is Some
                &&& entry == image_of(image_format_of(raw.format)->0, raw.bytes)
            }
        },
{
    if entry is String {
        law_decoded_text_encodes_to_the_payload(raw.bytes, entry->String_0);
    }
}

/// Turning entries into payloads keeps their order, and what two lists of entries have for
/// payloads together is what each has by itself.
pub proof fn law_raw_forms_keep_order(first: Seq<EntryView>, second: Seq<EntryView>)
    ensures
        raw_forms(first + second) == raw_forms(first) + raw_forms(second),
    decreases second.len(),
{
    if second.len() == 0 {
        assert(first + second =~= first);
    } else {
        law_raw_forms_keep_order(first, second.drop_last());
        assert((first + second).drop_last() =~= first + second.drop_last());
        assert((first + second).last() == second.last());
    }
}

/// Each entry of an item without external paths has its payload, in the same place.
pub proof fn law_every_entry_has_its_payload(entries: Seq<EntryView>)
    requires
        forall|i: int| 0 <= i < entries.len() ==> !((#[trigger] entries[i]) is ExternalPaths),
    ensures
        raw_forms(entries).len() == entries.len(),
        forall|i: int|
            0 <= i < entries.len() ==> #[trigger] raw_forms(entries)[i] == match entries[i] {
                EntryView::Image { format, bytes, .. } => RawEntryView {
                    format: format.mime(),
                    bytes,
                },
                _ => RawEntryView {
                    format: "text/plain"@,
                    bytes: encode_utf8(entries[i]->String_0),
                },
            },
    decreases entries.len(),
{
    if entries.len() > 0 {
        let rest = entries.drop_last();
        assert forall|i: int| 0 <= i < rest.len() implies !((#[trigger] rest[i]) is ExternalPaths) by {
            assert(rest[i] == entries[i]);
        }
        law_every_entry_has_its_payload(rest);
        assert(!(entries[entries.len() - 1] is ExternalPaths));
        let payload = raw_form(entries.last())->0;
        assert(raw_forms(entries) =~= raw_forms(rest).push(payload));
        assert forall|i: int| 0 <= i < rest.len() implies #[trigger] raw_forms(entries)[i]
            == raw_forms(rest)[i] && rest[i] == entries[i] by {}
    }
}

/// The payload of one entry by itself, and of none.
pub proof fn law_payload_of_one_entry(entry: EntryView)
    ensures
        raw_forms(seq![entry]) == match entry {
            EntryView::String(text) => seq![
                RawEntryView { format: "text/plain"@, bytes: encode_utf8(text) },
            ],
            EntryView::Image { format, bytes, .. } => seq![
                RawEntryView { format: format.mime(), bytes },
            ],
            EntryView::ExternalPaths(_) => Seq::empty(),
        },
        raw_forms(Seq::empty()) == Seq::<RawEntryView>::empty(),
{
    Seq::lemma_filter_map_singleton(entry, |entry: EntryView| raw_form(entry));
}

/// One payload by itself gives its entry, if it is understood, and nothing otherwise.
pub proof fn law_entry_of_one_payload(raw: RawEntryView)
    ensures
        typed_forms(seq![raw]) == match typed_form(raw) {
            Some(entry) => seq![entry],
            None => Seq::empty(),
        },
        typed_forms(Seq::empty()) == Seq::<EntryView>::empty(),
{
    Seq::lemma_filter_map_singleton(raw, |entry: RawEntryView| typed_form(entry));
}

/// A raw item gives an item wherever one of its payloads is understood: it holds the text of
/// every plain text payload that is UTF-8 and the image of every payload that is one.
pub proof fn law_every_known_payload_is_converted(
    raw: RawClipboardItem,
    item: Option<ClipboardItem>,
    i: int,
    entry: EntryView,
)
    requires
        call_ensures(raw_to_clipboard_item, (&raw,), item),
        0 <= i < raw@.len(),
        typed_form(raw@[i]) == Some(entry),
    ensures
        item matches Some(item) && item@.contains(entry),
{
    lemma_typed_forms_contain(raw@, i, entry);
}

/// What a payload stands for is among what all the payloads stand for.
proof fn lemma_typed_forms_contain(raw: Seq<RawEntryView>, i: int, entry: EntryView)
    requires
        0 <= i < raw.len(),
        typed_form(raw[i]) == Some(entry),
    ensures
        typed_forms(raw).contains(entry),
{
    let before = raw.take(i);
    let after = raw.skip(i + 1);
    assert(raw =~= before + seq![raw[i]] + after);
    law_typed_forms_keep_order(before, seq![raw[i]]);
    law_typed_forms_keep_order(before + seq![raw[i]], after);
    law_entry_of_one_payload(raw[i]);
    assert(typed_forms(raw)[typed_forms(before).len() as int] == entry);
}

/// Every entry of a converted item is the text or the image of one of the payloads.
pub proof fn law_nothing_else_is_converted(
    raw: RawClipboardItem,
    item: Option<ClipboardItem>,
    entry: EntryView,
)
    requires
        call_ensures(raw_to_clipboard_item, (&raw,), item),
        item is Some,
        item->0@.contains(entry),
    ensures
        exists|i: int| 0 <= i < raw@.len() && typed_form(#[trigger] raw@[i]) == Some(entry),
{
    raw@.lemma_filter_map_contains(|entry: RawEntryView| typed_form(entry), entry);
    let payload = choose|payload: RawEntryView| #[trigger]
        raw@.contains(payload) && typed_form(payload) == Some(entry);
    let i = choose|i: int| 0 <= i < raw@.len() && raw@[i] == payload;
    assert(typed_form(raw@[i]) == Some(entry));
}

/// A raw item is made of entries as they are, and of no entries none is made.
pub proof fn law_raw_items_hold_their_entries(
    entries: Vec<RawClipboardEntry>,
    raw: Option<RawClipboardItem>,
)
    requires
        call_ensures(non_empty_raw, (entries,), raw),
    ensures
        raw is None <==> entries@.len() == 0,
        raw matches Some(raw) ==> {
            &&& raw@.len() == entries@.len()
            &&& forall|i: int| 0 <= i < entries@.len() ==> #[trigger] raw@[i] == entries@[i]@
        },
{
}

/// Something is left as it is, and only what is empty is taken for nothing.
pub proof fn law_non_empty_keeps_everything<T>(entries: Seq<T>)
    ensures
        entries.len() == 0 ==> non_empty(entries) is None,
        entries.len() > 0 ==> non_empty(entries) == Some(entries),
{
}

/// An item can be handed over as text exactly where there is no image in it, and then its
/// text is handed over, which is empty where it has none.
pub proof fn law_items_without_images_are_text(item: ClipboardItem, text: Option<String>)
    requires
        call_ensures(text_only_item, (&item,), text),
    ensures
        text is None <==> exists|i: int| 0 <= i < item@.len() && (#[trigger] item@[i]) is Image,
        text matches Some(text) ==> text@ == match item_text(item@) {
            Some(chars) => chars,
            None => Seq::empty(),
        },
        text is Some && item@.len() == 1 && item@[0] is String ==> text->0@ == item@[0]->String_0,
{
    if exists|i: int| 0 <= i < item@.len() && (#[trigger] item@[i]) is Image {
        let i = choose|i: int| 0 <= i < item@.len() && (#[trigger] item@[i]) is Image;
        assert(!is_textual(item@[i]));
    }
    if item@.len() == 1 && item@[0] is String {
        law_text_of_one_string(item@[0]->String_0);
        assert(item@ =~= seq![EntryView::String(item@[0]->String_0)]);
        assert(item@[0]->String_0.len() == 0 ==> item@[0]->String_0 =~= Seq::empty());
    }
}

} // verus!
