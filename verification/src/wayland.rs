//! The two clipboards of a Wayland client: the regular one and the primary selection.

use vstd::prelude::*;
use vstd::string::StrSliceExecFns;
use vstd::utf8::*;

use crate::convert::raw_forms;
use crate::item::{
    image_formats, item_text, ClipboardItem, EntryView, RawClipboardItem, RawEntryView,
};
use crate::offer::{
    answered_by, can_ask, can_ask_images, can_ask_text, can_lack_text, image_outcome, image_read,
    image_requests, law_encoded_text_is_read, law_image_read_follows_replies,
    law_text_is_asked_for_at_most_once, law_text_read_follows_replies,
    law_text_read_gives_the_first_text, offered, raw_read, text_entries, text_found, text_outcome,
    text_read, text_requests, DataOffer, OfferView,
};
use crate::reader::{
    can_reply, law_record_holds_every_request, law_requests_add_up, types_asked, Exchange, Reader,
};
use crate::text::{
    decimal, law_decimal_is_injective, law_decimal_reads_as_the_number, number_of, opt_view,
    push_decimal, unix_text,
};
use crate::transfer::{Transfer, TransferView};

verus! {

/// What one clipboard holds.
pub struct SelectionView<T> {
    /// What this program put on the clipboard.
    pub contents: Option<Seq<EntryView>>,
    /// What was read from the current offer.
    pub cached_read: Option<Seq<EntryView>>,
    /// The payloads that were read from the current offer.
    pub cached_raw_read: Option<Seq<RawEntryView>>,
    /// The current offer.
    pub offer: Option<OfferView<T>>,
}

/// A read from an offer of these types makes these requests and gives `item`: the text is
/// asked for first and, only where there is none, the image.
pub open spec fn external_read(
    mime_types: Seq<Seq<char>>,
    exchanges: Seq<Exchange>,
    item: Option<Seq<EntryView>>,
) -> bool {
    let count = text_requests(mime_types).len() as int;
    let text = exchanges.take(count);
    let images = exchanges.skip(count);
    &&& count <= exchanges.len()
    &&& text_read(mime_types, text, text_found(text))
    &&& match text_found(text) {
        Some(found) => item == Some(found) && images.len() == 0,
        None => image_read(mime_types, images, item),
    }
}

/// `read_bytes` can be asked for what a read of an offer of these types asks for: its text
/// and, only where no text can be had, its images.
pub open spec fn can_ask_to_read<F: FnMut(&str) -> Option<Vec<u8>>>(
    read_bytes: F,
    mime_types: Seq<Seq<char>>,
) -> bool {
    &&& can_ask_text(read_bytes, mime_types)
    &&& can_lack_text(read_bytes, mime_types) ==> can_ask_images(
        read_bytes,
        offered(mime_types, image_formats()),
    )
}

impl<T> SelectionView<T> {
    /// A clipboard that holds nothing.
    pub open spec fn empty() -> SelectionView<T> {
        SelectionView { contents: None, cached_read: None, cached_raw_read: None, offer: None }
    }

    /// The clipboard after this program put an item on it.
    pub open spec fn with_contents(self, item: Seq<EntryView>) -> SelectionView<T> {
        SelectionView { contents: Some(item), ..self }
    }

    /// The clipboard after the offer changed: what was read from the one before is dropped.
    pub open spec fn with_offer(self, offer: Option<OfferView<T>>) -> SelectionView<T> {
        SelectionView { cached_read: None, cached_raw_read: None, offer, ..self }
    }

    /// The clipboard after a read from the offer.
    pub open spec fn with_read(self, item: Option<Seq<EntryView>>) -> SelectionView<T> {
        SelectionView { cached_read: item, ..self }
    }

    /// The clipboard after a raw read from the offer.
    pub open spec fn with_raw_read(self, raw: Option<Seq<RawEntryView>>) -> SelectionView<T> {
        SelectionView { cached_raw_read: raw, ..self }
    }

    /// The current offer is one that this program made.
    pub open spec fn is_own(self, self_mime: Seq<char>) -> bool {
        self.offer is Some && self.offer->0.mime_types.contains(self_mime)
    }

    /// What a read gives where no payload has to be fetched for it.
    pub open spec fn local_read(self, self_mime: Seq<char>) -> Option<Option<Seq<EntryView>>> {
        if self.offer is None {
            Some(None)
        } else if self.cached_read is Some {
            Some(self.cached_read)
        } else if self.is_own(self_mime) {
            Some(self.contents)
        } else {
            None
        }
    }

    /// What a raw read gives where no payload has to be fetched for it.
    pub open spec fn local_raw_read(self, self_mime: Seq<char>) -> Option<
        Option<Seq<RawEntryView>>,
    > {
        if self.offer is None {
            Some(None)
        } else if self.cached_raw_read is Some {
            Some(self.cached_raw_read)
        } else if self.is_own(self_mime) {
            Some(
                match self.contents {
                    Some(item) => Some(raw_forms(item)),
                    None => None,
                },
            )
        } else {
            None
        }
    }

    /// Something was read only where there is an offer of another program.
    pub open spec fn wf(self, self_mime: Seq<char>) -> bool {
        self.cached_read is Some || self.cached_raw_read is Some ==> self.offer is Some
            && !self.is_own(self_mime)
    }

    /// What a read does: it answers out of what is there and asks for nothing, or it makes
    /// these requests and keeps what it made of the replies.
    pub open spec fn reads(
        self,
        self_mime: Seq<char>,
        exchanges: Seq<Exchange>,
        item: Option<Seq<EntryView>>,
        after: SelectionView<T>,
    ) -> bool {
        match self.local_read(self_mime) {
            Some(local) => item == local && after == self && exchanges.len() == 0,
            None => {
                &&& external_read(self.offer->0.mime_types, exchanges, item)
                &&& after == self.with_read(item)
            },
        }
    }

    /// What a raw read does: it answers out of what is there and asks for nothing, or it makes
    /// these requests and keeps the payloads.
    pub open spec fn reads_raw(
        self,
        self_mime: Seq<char>,
        exchanges: Seq<Exchange>,
        raw: Option<Seq<RawEntryView>>,
        after: SelectionView<T>,
    ) -> bool {
        match self.local_raw_read(self_mime) {
            Some(local) => raw == local && after == self && exchanges.len() == 0,
            None => {
                &&& raw_read(self.offer->0.mime_types, exchanges, raw)
                &&& after == self.with_raw_read(raw)
            },
        }
    }

    /// What is handed to another program that asks for the contents: their text.
    pub open spec fn sent(self) -> Option<TransferView> {
        match self.contents {
            Some(item) => match item_text(item) {
                Some(text) => Some(TransferView { bytes: encode_utf8(text), written: 0 }),
                None => None,
            },
            None => None,
        }
    }
}

/// One clipboard.
pub(crate) struct Selection<T> {
    contents: Option<ClipboardItem>,
    cached_read: Option<ClipboardItem>,
    cached_raw_read: Option<RawClipboardItem>,
    current_offer: Option<DataOffer<T>>,
}

impl<T> View for Selection<T> {
    type V = SelectionView<T>;

    closed spec fn view(&self) -> SelectionView<T> {
        SelectionView {
            contents: opt_view(self.contents),
            cached_read: opt_view(self.cached_read),
            cached_raw_read: opt_view(self.cached_raw_read),
            offer: opt_view(self.current_offer),
        }
    }
}

impl<T> Selection<T> {
    fn new() -> (res: Selection<T>)
        ensures
            res@ == SelectionView::<T>::empty(),
    {
        Selection { contents: None, cached_read: None, cached_raw_read: None, current_offer: None }
    }

    fn set(&mut self, item: ClipboardItem)
        ensures
            final(self)@ == old(self)@.with_contents(item@),
    {
        self.contents = Some(item);
    }

    fn set_offer(&mut self, offer: Option<DataOffer<T>>)
        ensures
            final(self)@ == old(self)@.with_offer(opt_view(offer)),
    {
        self.cached_read = None;
        self.cached_raw_read = None;
        self.current_offer = offer;
    }

    fn send(&self) -> (transfer: Option<Transfer>)
        ensures
            opt_view(transfer) == self@.sent(),
    {
        match &self.contents {
            Some(item) => match item.text() {
                Some(text) => Some(Transfer::new(text.as_str().as_bytes_vec())),
                None => None,
            },
            None => None,
        }
    }

    fn read<F: FnMut(&str) -> Option<Vec<u8>>>(
        &mut self,
        self_mime: &str,
        reader: &mut Reader<F>,
    ) -> (item: Option<ClipboardItem>)
        requires
            old(self)@.local_read(self_mime@) is None ==> can_ask_to_read(
                old(reader)@.read_bytes,
                old(self)@.offer->0.mime_types,
            ),
        ensures
            final(reader)@.continues(old(reader)@),
            old(self)@.reads(
                self_mime@,
                final(reader)@.since(old(reader)@),
                opt_view(item),
                final(self)@,
            ),
    {
        let offer = match &self.current_offer {
            Some(offer) => offer,
            None => {
                return None;
            },
        };
        if let Some(cached) = &self.cached_read {
            return Some(cached.clone());
        }
        if offer.has_mime_type(self_mime) {
            return self.contents.clone();
        }
        let ghost mime_types = offer@.mime_types;
        let ghost start = reader@;
        let item = offer.read_text(reader);
        let ghost asked = reader@;
        let ghost text = asked.since(start);
        proof {
            law_text_is_asked_for_at_most_once(mime_types, text, opt_view(item));
        }
        let item = match item {
            Some(item) => {
                assert(text.take(text.len() as int) =~= text);
                Some(item)
            },
            None => {
                proof {
                    if text.len() > 0 {
                        assert(text[0] == asked.exchanges[start.exchanges.len() as int]);
                        assert(can_reply(start.read_bytes, text[0].mime_type, text[0].reply));
                    }
                }
                let item = offer.read_image(reader);
                proof {
                    law_requests_add_up(start, asked, reader@);
                    let exchanges = reader@.since(start);
                    assert(exchanges.take(text.len() as int) =~= text);
                    assert(exchanges.skip(text.len() as int) =~= reader@.since(asked));
                }
                item
            },
        };
        self.cached_read = item.clone();
        item
    }

    fn read_raw<F: FnMut(&str) -> Option<Vec<u8>>>(
        &mut self,
        self_mime: &str,
        reader: &mut Reader<F>,
    ) -> (raw: Option<RawClipboardItem>)
        requires
            old(self)@.local_raw_read(self_mime@) is None ==> can_ask(
                old(reader)@.read_bytes,
                old(self)@.offer->0.mime_types,
            ),
        ensures
            final(reader)@.continues(old(reader)@),
            old(self)@.reads_raw(
                self_mime@,
                final(reader)@.since(old(reader)@),
                opt_view(raw),
                final(self)@,
            ),
    {
        let offer = match &self.current_offer {
            Some(offer) => offer,
            None => {
                return None;
            },
        };
        if let Some(cached) = &self.cached_raw_read {
            return Some(cached.clone());
        }
        if offer.has_mime_type(self_mime) {
            return match &self.contents {
                Some(item) => Some(RawClipboardItem::from_clipboard_item(item)),
                None => None,
            };
        }
        let raw = offer.read_raw_with(reader);
        self.cached_raw_read = raw.clone();
        raw
    }
}

/// The type by which a program recognizes its own offers.
pub open spec fn process_mime(process_id: u32) -> Seq<char> {
    "pid/"@ + decimal(process_id as int)
}

/// The type by which the process with this identifier recognizes its own offers.
pub fn process_mime_type(process_id: u32) -> (mime_type: String)
    ensures
        mime_type@ == process_mime(process_id),
{
    let mut mime_type = "pid/".to_owned();
    push_decimal(&mut mime_type, process_id);
    mime_type
}

/// What both clipboards hold.
pub struct ClipboardView<T, P> {
    /// The type by which this program recognizes its own offers.
    pub self_mime: Seq<char>,
    /// The regular clipboard.
    pub regular: SelectionView<T>,
    /// The primary selection.
    pub primary: SelectionView<P>,
}

/// The regular clipboard and the primary selection of a client.
///
/// `T` and `P` are the handles of offers on them.
pub struct Clipboard<T, P> {
    self_mime: String,
    regular: Selection<T>,
    primary: Selection<P>,
}

impl<T, P> View for Clipboard<T, P> {
    type V = ClipboardView<T, P>;

    closed spec fn view(&self) -> ClipboardView<T, P> {
        ClipboardView {
            self_mime: self.self_mime@,
            regular: self.regular@,
            primary: self.primary@,
        }
    }
}

impl<T, P> Clipboard<T, P> {
    /// Clipboards that hold nothing, for the process with this identifier.
    pub fn new(process_id: u32) -> (clipboard: Clipboard<T, P>)
        ensures
            clipboard@ == (ClipboardView::<T, P> {
                self_mime: process_mime(process_id),
                regular: SelectionView::empty(),
                primary: SelectionView::empty(),
            }),
    {
        Clipboard {
            self_mime: process_mime_type(process_id),
            regular: Selection::new(),
            primary: Selection::new(),
        }
    }

    /// Puts an item on the regular clipboard.
    pub fn set(&mut self, item: ClipboardItem)
        ensures
            final(self)@ == (ClipboardView {
                regular: old(self)@.regular.with_contents(item@),
                ..old(self)@
            }),
    {
        self.regular.set(item);
    }

    /// Puts an item on the primary selection.
    pub fn set_primary(&mut self, item: ClipboardItem)
        ensures
            final(self)@ == (ClipboardView {
                primary: old(self)@.primary.with_contents(item@),
                ..old(self)@
            }),
    {
        self.primary.set(item);
    }

    /// Takes over the current offer on the regular clipboard. What was read from the one
    /// before is dropped.
    pub fn set_offer(&mut self, data_offer: Option<DataOffer<T>>)
        ensures
            final(self)@ == (ClipboardView {
                regular: old(self)@.regular.with_offer(opt_view(data_offer)),
                ..old(self)@
            }),
    {
        self.regular.set_offer(data_offer);
    }

    /// Takes over the current offer on the primary selection. What was read from the one
    /// before is dropped.
    pub fn set_primary_offer(&mut self, data_offer: Option<DataOffer<P>>)
        ensures
            final(self)@ == (ClipboardView {
                primary: old(self)@.primary.with_offer(opt_view(data_offer)),
                ..old(self)@
            }),
    {
        self.primary.set_offer(data_offer);
    }

    /// The current offer on the regular clipboard.
    pub fn current_offer(&self) -> (offer: Option<&DataOffer<T>>)
        ensures
            opt_view(offer) == self@.regular.offer,
    {
        self.regular.current_offer.as_ref()
    }

    /// The current offer on the primary selection.
    pub fn current_primary_offer(&self) -> (offer: Option<&DataOffer<P>>)
        ensures
            opt_view(offer) == self@.primary.offer,
    {
        self.primary.current_offer.as_ref()
    }

    /// The type by which this program recognizes its own offers.
    pub fn self_mime(&self) -> (mime_type: String)
        ensures
            mime_type@ == self@.self_mime,
    {
        self.self_mime.clone()
    }

    /// What to hand to a program that asks for the regular clipboard, if anything. The text
    /// is the same for every type.
    pub fn send(&self, _mime_type: String) -> (transfer: Option<Transfer>)
        ensures
            opt_view(transfer) == self@.regular.sent(),
    {
        self.regular.send()
    }

    /// What to hand to a program that asks for the primary selection, if anything. The text
    /// is the same for every type.
    pub fn send_primary(&self, _mime_type: String) -> (transfer: Option<Transfer>)
        ensures
            opt_view(transfer) == self@.primary.sent(),
    {
        self.primary.send()
    }

    /// Reads the regular clipboard.
    ///
    /// The reader fetches payloads from the current offer. It is asked only where nothing that
    /// is there answers the read: once for the first type whose text is accepted and, where no
    /// text can be had, for the offered image formats in order, up to the first payload.
    pub fn read<F: FnMut(&str) -> Option<Vec<u8>>>(
        &mut self,
        reader: &mut Reader<F>,
    ) -> (item: Option<ClipboardItem>)
        requires
            old(self)@.regular.local_read(old(self)@.self_mime) is None ==> can_ask_to_read(
                old(reader)@.read_bytes,
                old(self)@.regular.offer->0.mime_types,
            ),
        ensures
            final(reader)@.continues(old(reader)@),
            old(self)@.regular.reads(
                old(self)@.self_mime,
                final(reader)@.since(old(reader)@),
                opt_view(item),
                final(self)@.regular,
            ),
            final(self)@ == (ClipboardView { regular: final(self)@.regular, ..old(self)@ }),
    {
        self.regular.read(self.self_mime.as_str(), reader)
    }

    /// Reads the payloads of the regular clipboard.
    ///
    /// The reader fetches payloads from the current offer. It is asked only where nothing that
    /// is there answers the read: for each type of that offer, in order, once for each time the
    /// type was announced.
    pub fn read_raw<F: FnMut(&str) -> Option<Vec<u8>>>(
        &mut self,
        reader: &mut Reader<F>,
    ) -> (raw: Option<RawClipboardItem>)
        requires
            old(self)@.regular.local_raw_read(old(self)@.self_mime) is None ==> can_ask(
                old(reader)@.read_bytes,
                old(self)@.regular.offer->0.mime_types,
            ),
        ensures
            final(reader)@.continues(old(reader)@),
            old(self)@.regular.reads_raw(
                old(self)@.self_mime,
                final(reader)@.since(old(reader)@),
                opt_view(raw),
                final(self)@.regular,
            ),
            final(self)@ == (ClipboardView { regular: final(self)@.regular, ..old(self)@ }),
    {
        self.regular.read_raw(self.self_mime.as_str(), reader)
    }

    /// Reads the primary selection.
    ///
    /// The reader fetches payloads from the current offer. It is asked only where nothing that
    /// is there answers the read: once for the first type whose text is accepted and, where no
    /// text can be had, for the offered image formats in order, up to the first payload.
    pub fn read_primary<F: FnMut(&str) -> Option<Vec<u8>>>(
        &mut self,
        reader: &mut Reader<F>,
    ) -> (item: Option<ClipboardItem>)
        requires
            old(self)@.primary.local_read(old(self)@.self_mime) is None ==> can_ask_to_read(
                old(reader)@.read_bytes,
                old(self)@.primary.offer->0.mime_types,
            ),
        ensures
            final(reader)@.continues(old(reader)@),
            old(self)@.primary.reads(
                old(self)@.self_mime,
                final(reader)@.since(old(reader)@),
                opt_view(item),
                final(self)@.primary,
            ),
            final(self)@ == (ClipboardView { primary: final(self)@.primary, ..old(self)@ }),
    {
        self.primary.read(self.self_mime.as_str(), reader)
    }

    /// Reads the payloads of the primary selection.
    ///
    /// The reader fetches payloads from the current offer. It is asked only where nothing that
    /// is there answers the read: for each type of that offer, in order, once for each time the
    /// type was announced.
    pub fn read_primary_raw<F: FnMut(&str) -> Option<Vec<u8>>>(
        &mut self,
        reader: &mut Reader<F>,
    ) -> (raw: Option<RawClipboardItem>)
        requires
            old(self)@.primary.local_raw_read(old(self)@.self_mime) is None ==> can_ask(
                old(reader)@.read_bytes,
                old(self)@.primary.offer->0.mime_types,
            ),
        ensures
            final(reader)@.continues(old(reader)@),
            old(self)@.primary.reads_raw(
                old(self)@.self_mime,
                final(reader)@.since(old(reader)@),
                opt_view(raw),
                final(self)@.primary,
            ),
            final(self)@ == (ClipboardView { primary: final(self)@.primary, ..old(self)@ }),
    {
        self.primary.read_raw(self.self_mime.as_str(), reader)
    }
}

/// Two processes recognize their own offers by different types.
pub proof fn law_process_mimes_differ(first: u32, second: u32)
    requires
        first != second,
    ensures
        process_mime(first) != process_mime(second),
{
    if process_mime(first) == process_mime(second) {
        let prefix = "pid/"@;
        assert(process_mime(first).skip(prefix.len() as int) =~= decimal(first as int));
        assert(process_mime(second).skip(prefix.len() as int) =~= decimal(second as int));
        law_decimal_is_injective(first as int, second as int);
    }
}

/// Something read is kept only for an offer of another program: this holds at the start, and
/// no operation breaks it.
pub proof fn law_reads_are_kept_for_other_programs<T>(
    selection: SelectionView<T>,
    self_mime: Seq<char>,
    contents: Seq<EntryView>,
    offer: Option<OfferView<T>>,
    exchanges: Seq<Exchange>,
    item: Option<Seq<EntryView>>,
    raw: Option<Seq<RawEntryView>>,
    after: SelectionView<T>,
)
    requires
        selection.wf(self_mime),
    ensures
        SelectionView::<T>::empty().wf(self_mime),
        selection.with_contents(contents).wf(self_mime),
        selection.with_offer(offer).wf(self_mime),
        selection.reads(self_mime, exchanges, item, after) ==> after.wf(self_mime),
        selection.reads_raw(self_mime, exchanges, raw, after) ==> after.wf(self_mime),
{
}

/// Where the current offer is this program's own, a read gives back the item that it put on
/// the clipboard, and a raw read the payloads of that item. Nothing is fetched.
pub proof fn law_own_offer_reads_own_contents<T>(selection: SelectionView<T>, self_mime: Seq<char>)
    requires
        selection.wf(self_mime),
        selection.is_own(self_mime),
    ensures
        selection.local_read(self_mime) == Some(selection.contents),
        selection.local_raw_read(self_mime) == Some(
            match selection.contents {
                Some(item) => Some(raw_forms(item)),
                None => None,
            },
        ),
{
}

/// An item that is put on the clipboard is read back once the offer that this program made
/// for it has come in, whichever of the two happens first.
pub proof fn law_item_is_read_back<T>(
    selection: SelectionView<T>,
    self_mime: Seq<char>,
    item: Seq<EntryView>,
    offer: OfferView<T>,
)
    requires
        offer.mime_types.contains(self_mime),
    ensures
        selection.with_contents(item).with_offer(Some(offer)).local_read(self_mime) == Some(
            Some(item),
        ),
        selection.with_offer(Some(offer)).with_contents(item).local_read(self_mime) == Some(
            Some(item),
        ),
        selection.with_contents(item).with_offer(Some(offer)).local_raw_read(self_mime) == Some(
            Some(raw_forms(item)),
        ),
        selection.with_offer(Some(offer)).with_contents(item).local_raw_read(self_mime) == Some(
            Some(raw_forms(item)),
        ),
{
}

/// Once a read has found an item, the next read gives the same item, fetches nothing and
/// changes nothing, whatever the offer would reply by then.
pub proof fn law_second_read_is_the_same<T>(
    selection: SelectionView<T>,
    self_mime: Seq<char>,
    exchanges: Seq<Exchange>,
    item: Seq<EntryView>,
    after: SelectionView<T>,
    next_exchanges: Seq<Exchange>,
    next_item: Option<Seq<EntryView>>,
    next_after: SelectionView<T>,
)
    requires
        selection.reads(self_mime, exchanges, Some(item), after),
        after.reads(self_mime, next_exchanges, next_item, next_after),
    ensures
        after.local_read(self_mime) == Some(Some(item)),
        next_item == Some(item),
        next_after == after,
        next_exchanges.len() == 0,
{
}

/// Once a raw read has found payloads, the next one gives the same payloads, fetches nothing
/// and changes nothing.
pub proof fn law_second_raw_read_is_the_same<T>(
    selection: SelectionView<T>,
    self_mime: Seq<char>,
    exchanges: Seq<Exchange>,
    raw: Seq<RawEntryView>,
    after: SelectionView<T>,
    next_exchanges: Seq<Exchange>,
    next_raw: Option<Seq<RawEntryView>>,
    next_after: SelectionView<T>,
)
    requires
        selection.reads_raw(self_mime, exchanges, Some(raw), after),
        after.reads_raw(self_mime, next_exchanges, next_raw, next_after),
    ensures
        after.local_raw_read(self_mime) == Some(Some(raw)),
        next_raw == Some(raw),
        next_after == after,
        next_exchanges.len() == 0,
{
}

/// A new offer takes the place of what was read before: nothing of it is answered any more,
/// and without an offer there is nothing to read.
pub proof fn law_new_offer_drops_reads<T>(
    selection: SelectionView<T>,
    self_mime: Seq<char>,
    offer: Option<OfferView<T>>,
)
    ensures
        offer is None ==> selection.with_offer(offer).local_read(self_mime) == Some(
            None::<Seq<EntryView>>,
        ),
        offer is None ==> selection.with_offer(offer).local_raw_read(self_mime) == Some(
            None::<Seq<RawEntryView>>,
        ),
        offer is Some && !offer->0.mime_types.contains(self_mime) ==> {
            &&& selection.with_offer(offer).local_read(self_mime) is None
            &&& selection.with_offer(offer).local_raw_read(self_mime) is None
        },
{
}

/// What a read from an offer of these types asks for, given the payload of each type: the
/// first type whose text is accepted and, where that gives no text, the offered image formats
/// up to the first that has a payload.
pub open spec fn read_requests(
    mime_types: Seq<Seq<char>>,
    replies: spec_fn(Seq<char>) -> Option<Seq<u8>>,
) -> Seq<Seq<char>> {
    text_requests(mime_types) + match text_outcome(mime_types, replies) {
        Some(text) => Seq::empty(),
        None => image_requests(offered(mime_types, image_formats()), replies),
    }
}

/// The payloads of an offer decide what a read of it asks for and what it gives: the text or,
/// where no text can be had, the image in the first format that has a payload.
pub proof fn law_read_follows_replies(
    mime_types: Seq<Seq<char>>,
    exchanges: Seq<Exchange>,
    replies: spec_fn(Seq<char>) -> Option<Seq<u8>>,
    item: Option<Seq<EntryView>>,
)
    requires
        answered_by(exchanges, replies),
        external_read(mime_types, exchanges, item),
    ensures
        types_asked(exchanges) == read_requests(mime_types, replies),
        item == match text_outcome(mime_types, replies) {
            Some(text) => Some(text),
            None => image_outcome(offered(mime_types, image_formats()), replies),
        },
{
    let count = text_requests(mime_types).len() as int;
    let text = exchanges.take(count);
    let images = exchanges.skip(count);
    assert(answered_by(text, replies));
    assert forall|i: int| 0 <= i < images.len() implies (#[trigger] images[i]).reply == replies(
        images[i].mime_type,
    ) by {
        assert(images[i] == exchanges[count + i]);
    }
    law_text_read_follows_replies(mime_types, text, replies, text_found(text));
    if text_found(text) is None {
        law_image_read_follows_replies(mime_types, images, replies, item);
    }
    assert(types_asked(exchanges) =~= types_asked(text) + types_asked(images));
}

/// The text that one program hands over is the text that another program reads, with its
/// line endings normalized.
pub proof fn law_sent_text_is_read<T>(selection: SelectionView<T>)
    requires
        selection.sent() is Some,
    ensures
        text_entries(selection.sent()->0.remaining()) == Some(
            seq![EntryView::String(unix_text(item_text(selection.contents->0)->0))],
        ),
{
    let transfer = selection.sent()->0;
    assert(transfer.remaining() =~= transfer.bytes);
    law_encoded_text_is_read(item_text(selection.contents->0)->0);
}

/// Where the current offer is another program's and nothing was read from it, a read has to
/// ask for it, whatever a raw read has kept, and the other way round.
pub proof fn law_other_offers_have_to_be_fetched<T>(
    selection: SelectionView<T>,
    self_mime: Seq<char>,
)
    requires
        selection.offer is Some,
        !selection.offer->0.mime_types.contains(self_mime),
    ensures
        selection.cached_read is None ==> selection.local_read(self_mime) is None,
        selection.cached_raw_read is None ==> selection.local_raw_read(self_mime) is None,
        selection.cached_read is Some ==> selection.local_read(self_mime) == Some(
            selection.cached_read,
        ),
        selection.cached_raw_read is Some ==> selection.local_raw_read(self_mime) == Some(
            selection.cached_raw_read,
        ),
{
}

/// What a raw read keeps never changes what a read gives, and what a read keeps never changes
/// what a raw read gives.
pub proof fn law_reads_and_raw_reads_are_independent<T>(
    selection: SelectionView<T>,
    self_mime: Seq<char>,
    exchanges: Seq<Exchange>,
    item: Option<Seq<EntryView>>,
    raw: Option<Seq<RawEntryView>>,
    after: SelectionView<T>,
)
    ensures
        selection.reads_raw(self_mime, exchanges, raw, after) ==> after.local_read(self_mime)
            == selection.local_read(self_mime),
        selection.reads(self_mime, exchanges, item, after) ==> after.local_raw_read(self_mime)
            == selection.local_raw_read(self_mime),
        selection.with_raw_read(raw).local_read(self_mime) == selection.local_read(self_mime),
        selection.with_read(item).local_raw_read(self_mime) == selection.local_raw_read(self_mime),
{
}

/// An item that this program put on the clipboard is not read back from the offer of another
/// program, and does not change what was read from it.
pub proof fn law_own_contents_stay_out_of_other_offers<T>(
    selection: SelectionView<T>,
    self_mime: Seq<char>,
    item: Seq<EntryView>,
)
    requires
        selection.offer is Some,
        !selection.offer->0.mime_types.contains(self_mime),
    ensures
        selection.with_contents(item).local_read(self_mime) == selection.local_read(self_mime),
        selection.with_contents(item).local_raw_read(self_mime) == selection.local_raw_read(
            self_mime,
        ),
{
}

/// A read of another program's offer asks first for the first announced type under which text
/// is accepted. Where that gives a text, the text is what is read and nothing more is asked
/// for. Otherwise the image is read, behind that request.
pub proof fn law_text_is_read_before_images(
    mime_types: Seq<Seq<char>>,
    exchanges: Seq<Exchange>,
    item: Option<Seq<EntryView>>,
    chars: Seq<char>,
)
    requires
        external_read(mime_types, exchanges, item),
    ensures
        (forall|i: int|
            0 <= i < mime_types.len() ==> #[trigger] mime_types[i] != "text/plain;charset=utf-8"@
                && mime_types[i] != "UTF8_STRING"@) ==> image_read(mime_types, exchanges, item),
        (exists|i: int|
            0 <= i < mime_types.len() && (#[trigger] mime_types[i] == "text/plain;charset=utf-8"@
                || mime_types[i] == "UTF8_STRING"@)) ==> {
            &&& exchanges.len() > 0
            &&& exists|i: int|
                {
                    &&& 0 <= i < mime_types.len()
                    &&& #[trigger] mime_types[i] == exchanges[0].mime_type
                    &&& mime_types[i] == "text/plain;charset=utf-8"@ || mime_types[i]
                        == "UTF8_STRING"@
                    &&& forall|j: int|
                        0 <= j < i ==> #[trigger] mime_types[j] != "text/plain;charset=utf-8"@
                            && mime_types[j] != "UTF8_STRING"@
                }
            &&& exchanges[0].reply == Some(encode_utf8(chars)) ==> {
                &&& item == Some(seq![EntryView::String(unix_text(chars))])
                &&& exchanges.len() == 1
            }
            &&& (forall|text: Seq<char>|
                exchanges[0].reply != Some(#[trigger] encode_utf8(text))) ==> image_read(
                mime_types,
                exchanges.skip(1),
                item,
            )
        },
{
    let count = text_requests(mime_types).len() as int;
    let text = exchanges.take(count);
    law_text_read_gives_the_first_text(mime_types, text, text_found(text), chars);
    law_text_is_asked_for_at_most_once(mime_types, text, text_found(text));
    if count == 0 {
        assert(exchanges.skip(0) =~= exchanges);
    } else {
        assert(text[0] == exchanges[0]);
    }
}

/// A clipboard of a new client holds nothing, and knows its own offers by a type that names the
/// process.
pub proof fn law_new_clipboards_are_empty<T, P>(process_id: u32, clipboard: Clipboard<T, P>)
    requires
        call_ensures(Clipboard::<T, P>::new, (process_id,), clipboard),
    ensures
        clipboard@.self_mime.take(4) == "pid/"@,
        number_of(clipboard@.self_mime.skip(4)) == process_id,
        clipboard@.regular.contents is None && clipboard@.primary.contents is None,
        clipboard@.regular.offer is None && clipboard@.primary.offer is None,
        clipboard@.regular.cached_read is None && clipboard@.primary.cached_read is None,
        clipboard@.regular.cached_raw_read is None && clipboard@.primary.cached_raw_read is None,
{
    law_process_mime_names_the_process(process_id);
}

/// The type by which a program recognizes its own offers is its process identifier, in decimal
/// digits, behind `pid/`.
pub proof fn law_process_mime_names_the_process(process_id: u32)
    ensures
        process_mime(process_id).take(4) == "pid/"@,
        number_of(process_mime(process_id).skip(4)) == process_id,
        forall|i: int|
            4 <= i < process_mime(process_id).len() ==> '0' <= #[trigger] process_mime(
                process_id,
            )[i] <= '9',
        process_mime(process_id).len() > 5 ==> process_mime(process_id)[4] != '0',
{
    reveal_strlit("pid/");
    law_decimal_reads_as_the_number(process_id as int);
    assert(process_mime(process_id).take(4) =~= "pid/"@);
    assert(process_mime(process_id).skip(4) =~= decimal(process_id as int));
    assert forall|i: int| 4 <= i < process_mime(process_id).len() implies '0'
        <= #[trigger] process_mime(process_id)[i] <= '9' by {
        assert(process_mime(process_id)[i] == decimal(process_id as int)[i - 4]);
    }
}

/// Putting an item on the regular clipboard replaces the one before, and changes nothing else.
pub proof fn law_item_is_put_on_the_regular_clipboard<T, P>(
    clipboard: &mut Clipboard<T, P>,
    item: ClipboardItem,
    done: (),
)
    requires
        call_ensures(Clipboard::<T, P>::set, (clipboard, item), done),
    ensures
        final(clipboard)@.regular.contents == Some(item@),
        final(clipboard)@.regular.offer == old(clipboard)@.regular.offer,
        final(clipboard)@.regular.cached_read == old(clipboard)@.regular.cached_read,
        final(clipboard)@.regular.cached_raw_read == old(clipboard)@.regular.cached_raw_read,
        final(clipboard)@.primary == old(clipboard)@.primary,
        final(clipboard)@.self_mime == old(clipboard)@.self_mime,
{
}

/// Putting an item on the primary selection replaces the one before, and changes nothing else.
pub proof fn law_item_is_put_on_the_primary_selection<T, P>(
    clipboard: &mut Clipboard<T, P>,
    item: ClipboardItem,
    done: (),
)
    requires
        call_ensures(Clipboard::<T, P>::set_primary, (clipboard, item), done),
    ensures
        final(clipboard)@.primary.contents == Some(item@),
        final(clipboard)@.primary.offer == old(clipboard)@.primary.offer,
        final(clipboard)@.primary.cached_read == old(clipboard)@.primary.cached_read,
        final(clipboard)@.primary.cached_raw_read == old(clipboard)@.primary.cached_raw_read,
        final(clipboard)@.regular == old(clipboard)@.regular,
        final(clipboard)@.self_mime == old(clipboard)@.self_mime,
{
}

/// Taking over an offer on the regular clipboard drops what was read from the one before, and
/// changes nothing else.
pub proof fn law_offer_is_taken_over_on_the_regular_clipboard<T, P>(
    clipboard: &mut Clipboard<T, P>,
    offer: Option<DataOffer<T>>,
    done: (),
)
    requires
        call_ensures(Clipboard::<T, P>::set_offer, (clipboard, offer), done),
    ensures
        final(clipboard)@.regular.offer == opt_view(offer),
        final(clipboard)@.regular.cached_read is None,
        final(clipboard)@.regular.cached_raw_read is None,
        final(clipboard)@.regular.contents == old(clipboard)@.regular.contents,
        final(clipboard)@.primary == old(clipboard)@.primary,
        final(clipboard)@.self_mime == old(clipboard)@.self_mime,
{
}

/// Taking over an offer on the primary selection drops what was read from the one before, and
/// changes nothing else.
pub proof fn law_offer_is_taken_over_on_the_primary_selection<T, P>(
    clipboard: &mut Clipboard<T, P>,
    offer: Option<DataOffer<P>>,
    done: (),
)
    requires
        call_ensures(Clipboard::<T, P>::set_primary_offer, (clipboard, offer), done),
    ensures
        final(clipboard)@.primary.offer == opt_view(offer),
        final(clipboard)@.primary.cached_read is None,
        final(clipboard)@.primary.cached_raw_read is None,
        final(clipboard)@.primary.contents == old(clipboard)@.primary.contents,
        final(clipboard)@.regular == old(clipboard)@.regular,
        final(clipboard)@.self_mime == old(clipboard)@.self_mime,
{
}

/// What is handed over for the regular clipboard, under every type, is the text of what this
/// program put there, all of it and in UTF-8. Without text nothing is handed over.
pub proof fn law_regular_text_is_handed_over<T, P>(
    clipboard: Clipboard<T, P>,
    mime_type: String,
    transfer: Option<Transfer>,
)
    requires
        call_ensures(Clipboard::<T, P>::send, (&clipboard, mime_type), transfer),
    ensures
        clipboard@.regular.contents is None ==> transfer is None,
        clipboard@.regular.contents matches Some(item) ==> {
            &&& transfer is Some <==> item_text(item) is Some
            &&& transfer matches Some(transfer) ==> transfer@.bytes == encode_utf8(
                item_text(item)->0,
            ) && transfer@.written == 0
        },
{
}

/// What is handed over for the primary selection, under every type, is the text of what this
/// program put there, all of it and in UTF-8. Without text nothing is handed over.
pub proof fn law_primary_text_is_handed_over<T, P>(
    clipboard: Clipboard<T, P>,
    mime_type: String,
    transfer: Option<Transfer>,
)
    requires
        call_ensures(Clipboard::<T, P>::send_primary, (&clipboard, mime_type), transfer),
    ensures
        clipboard@.primary.contents is None ==> transfer is None,
        clipboard@.primary.contents matches Some(item) ==> {
            &&& transfer is Some <==> item_text(item) is Some
            &&& transfer matches Some(transfer) ==> transfer@.bytes == encode_utf8(
                item_text(item)->0,
            ) && transfer@.written == 0
        },
{
}

/// What a read of the regular clipboard gives: nothing without an offer, what was read before
/// from the same offer, what this program put there where the offer is its own, and otherwise
/// what the other program has. Only then is anything asked for, and what came is kept. Nothing
/// else changes.
pub proof fn law_regular_read<T, P, F: FnMut(&str) -> Option<Vec<u8>>>(
    clipboard: &mut Clipboard<T, P>,
    reader: &mut Reader<F>,
    item: Option<ClipboardItem>,
)
    requires
        call_ensures(Clipboard::<T, P>::read::<F>, (clipboard, reader), item),
    ensures
        old(clipboard)@.regular.offer is None ==> item is None && final(reader)@.exchanges
            == old(reader)@.exchanges,
        old(clipboard)@.regular.offer is Some && old(clipboard)@.regular.cached_read is Some ==> {
            &&& opt_view(item) == old(clipboard)@.regular.cached_read
            &&& final(reader)@.exchanges == old(reader)@.exchanges
        },
        old(clipboard)@.regular.offer is Some && old(clipboard)@.regular.cached_read is None
            && old(clipboard)@.regular.offer->0.mime_types.contains(
            old(clipboard)@.self_mime,
        ) ==> {
            &&& opt_view(item) == old(clipboard)@.regular.contents
            &&& final(reader)@.exchanges == old(reader)@.exchanges
        },
        old(clipboard)@.regular.offer is Some && old(clipboard)@.regular.cached_read is None
            && !old(clipboard)@.regular.offer->0.mime_types.contains(
            old(clipboard)@.self_mime,
        ) ==> {
            &&& external_read(
                old(clipboard)@.regular.offer->0.mime_types,
                final(reader)@.exchanges.skip(old(reader)@.exchanges.len() as int),
                opt_view(item),
            )
            &&& final(clipboard)@.regular.cached_read == opt_view(item)
        },
        final(reader)@.exchanges.take(old(reader)@.exchanges.len() as int)
            == old(reader)@.exchanges,
        old(clipboard)@.regular.offer is None || old(clipboard)@.regular.cached_read is Some
            || old(clipboard)@.regular.offer->0.mime_types.contains(old(clipboard)@.self_mime)
            ==> final(clipboard)@.regular.cached_read == old(clipboard)@.regular.cached_read,
        final(clipboard)@.regular.cached_raw_read == old(clipboard)@.regular.cached_raw_read,
        final(clipboard)@.regular.contents == old(clipboard)@.regular.contents,
        final(clipboard)@.regular.offer == old(clipboard)@.regular.offer,
        final(clipboard)@.primary == old(clipboard)@.primary,
        final(clipboard)@.self_mime == old(clipboard)@.self_mime,
{
    law_record_holds_every_request(old(reader)@, final(reader)@);
    assert(final(reader)@.exchanges.take(old(reader)@.exchanges.len() as int)
        =~= old(reader)@.exchanges);
    if final(reader)@.since(old(reader)@).len() == 0 {
        assert(final(reader)@.exchanges =~= old(reader)@.exchanges);
    }
}

/// What a read of the primary selection gives: nothing without an offer, what was read before
/// from the same offer, what this program put there where the offer is its own, and otherwise
/// what the other program has. Only then is anything asked for, and what came is kept. Nothing
/// else changes.
pub proof fn law_primary_read<T, P, F: FnMut(&str) -> Option<Vec<u8>>>(
    clipboard: &mut Clipboard<T, P>,
    reader: &mut Reader<F>,
    item: Option<ClipboardItem>,
)
    requires
        call_ensures(Clipboard::<T, P>::read_primary::<F>, (clipboard, reader), item),
    ensures
        old(clipboard)@.primary.offer is None ==> item is None && final(reader)@.exchanges
            == old(reader)@.exchanges,
        old(clipboard)@.primary.offer is Some && old(clipboard)@.primary.cached_read is Some ==> {
            &&& opt_view(item) == old(clipboard)@.primary.cached_read
            &&& final(reader)@.exchanges == old(reader)@.exchanges
        },
        old(clipboard)@.primary.offer is Some && old(clipboard)@.primary.cached_read is None
            && old(clipboard)@.primary.offer->0.mime_types.contains(
            old(clipboard)@.self_mime,
        ) ==> {
            &&& opt_view(item) == old(clipboard)@.primary.contents
            &&& final(reader)@.exchanges == old(reader)@.exchanges
        },
        old(clipboard)@.primary.offer is Some && old(clipboard)@.primary.cached_read is None
            && !old(clipboard)@.primary.offer->0.mime_types.contains(
            old(clipboard)@.self_mime,
        ) ==> {
            &&& external_read(
                old(clipboard)@.primary.offer->0.mime_types,
                final(reader)@.exchanges.skip(old(reader)@.exchanges.len() as int),
                opt_view(item),
            )
            &&& final(clipboard)@.primary.cached_read == opt_view(item)
        },
        final(reader)@.exchanges.take(old(reader)@.exchanges.len() as int)
            == old(reader)@.exchanges,
        old(clipboard)@.primary.offer is None || old(clipboard)@.primary.cached_read is Some
            || old(clipboard)@.primary.offer->0.mime_types.contains(old(clipboard)@.self_mime)
            ==> final(clipboard)@.primary.cached_read == old(clipboard)@.primary.cached_read,
        final(clipboard)@.primary.cached_raw_read == old(clipboard)@.primary.cached_raw_read,
        final(clipboard)@.primary.contents == old(clipboard)@.primary.contents,
        final(clipboard)@.primary.offer == old(clipboard)@.primary.offer,
        final(clipboard)@.regular == old(clipboard)@.regular,
        final(clipboard)@.self_mime == old(clipboard)@.self_mime,
{
    law_record_holds_every_request(old(reader)@, final(reader)@);
    assert(final(reader)@.exchanges.take(old(reader)@.exchanges.len() as int)
        =~= old(reader)@.exchanges);
    if final(reader)@.since(old(reader)@).len() == 0 {
        assert(final(reader)@.exchanges =~= old(reader)@.exchanges);
    }
}

/// What a raw read of the regular clipboard gives: nothing without an offer, what was read before
/// from the same offer, what this program put there where the offer is its own, and otherwise
/// what the other program has. Only then is anything asked for, and what came is kept. Nothing
/// else changes.
pub proof fn law_regular_raw_read<T, P, F: FnMut(&str) -> Option<Vec<u8>>>(
    clipboard: &mut Clipboard<T, P>,
    reader: &mut Reader<F>,
    raw: Option<RawClipboardItem>,
)
    requires
        call_ensures(Clipboard::<T, P>::read_raw::<F>, (clipboard, reader), raw),
    ensures
        old(clipboard)@.regular.offer is None ==> raw is None && final(reader)@.exchanges
            == old(reader)@.exchanges,
        old(clipboard)@.regular.offer is Some && old(clipboard)@.regular.cached_raw_read is Some ==> {
            &&& opt_view(raw) == old(clipboard)@.regular.cached_raw_read
            &&& final(reader)@.exchanges == old(reader)@.exchanges
        },
        old(clipboard)@.regular.offer is Some && old(clipboard)@.regular.cached_raw_read is None
            && old(clipboard)@.regular.offer->0.mime_types.contains(
            old(clipboard)@.self_mime,
        ) ==> {
            &&& opt_view(raw) == match old(clipboard)@.regular.contents {
                Some(item) => Some(raw_forms(item)),
                None => None,
            }
            &&& final(reader)@.exchanges == old(reader)@.exchanges
        },
        old(clipboard)@.regular.offer is Some && old(clipboard)@.regular.cached_raw_read is None
            && !old(clipboard)@.regular.offer->0.mime_types.contains(
            old(clipboard)@.self_mime,
        ) ==> {
            &&& raw_read(
                old(clipboard)@.regular.offer->0.mime_types,
                final(reader)@.exchanges.skip(old(reader)@.exchanges.len() as int),
                opt_view(raw),
            )
            &&& final(clipboard)@.regular.cached_raw_read == opt_view(raw)
        },
        final(reader)@.exchanges.take(old(reader)@.exchanges.len() as int)
            == old(reader)@.exchanges,
        old(clipboard)@.regular.offer is None || old(clipboard)@.regular.cached_raw_read is Some
            || old(clipboard)@.regular.offer->0.mime_types.contains(old(clipboard)@.self_mime)
            ==> final(clipboard)@.regular.cached_raw_read == old(clipboard)@.regular.cached_raw_read,
        final(clipboard)@.regular.cached_read == old(clipboard)@.regular.cached_read,
        final(clipboard)@.regular.contents == old(clipboard)@.regular.contents,
        final(clipboard)@.regular.offer == old(clipboard)@.regular.offer,
        final(clipboard)@.primary == old(clipboard)@.primary,
        final(clipboard)@.self_mime == old(clipboard)@.self_mime,
{
    law_record_holds_every_request(old(reader)@, final(reader)@);
    assert(final(reader)@.exchanges.take(old(reader)@.exchanges.len() as int)
        =~= old(reader)@.exchanges);
    if final(reader)@.since(old(reader)@).len() == 0 {
        assert(final(reader)@.exchanges =~= old(reader)@.exchanges);
    }
}

/// What a raw read of the primary selection gives: nothing without an offer, what was read before
/// from the same offer, what this program put there where the offer is its own, and otherwise
/// what the other program has. Only then is anything asked for, and what came is kept. Nothing
/// else changes.
pub proof fn law_primary_raw_read<T, P, F: FnMut(&str) -> Option<Vec<u8>>>(
    clipboard: &mut Clipboard<T, P>,
    reader: &mut Reader<F>,
    raw: Option<RawClipboardItem>,
)
    requires
        call_ensures(Clipboard::<T, P>::read_primary_raw::<F>, (clipboard, reader), raw),
    ensures
        old(clipboard)@.primary.offer is None ==> raw is None && final(reader)@.exchanges
            == old(reader)@.exchanges,
        old(clipboard)@.primary.offer is Some && old(clipboard)@.primary.cached_raw_read is Some ==> {
            &&& opt_view(raw) == old(clipboard)@.primary.cached_raw_read
            &&& final(reader)@.exchanges == old(reader)@.exchanges
        },
        old(clipboard)@.primary.offer is Some && old(clipboard)@.primary.cached_raw_read is None
            && old(clipboard)@.primary.offer->0.mime_types.contains(
            old(clipboard)@.self_mime,
        ) ==> {
            &&& opt_view(raw) == match old(clipboard)@.primary.contents {
                Some(item) => Some(raw_forms(item)),
                None => None,
            }
            &&& final(reader)@.exchanges == old(reader)@.exchanges
        },
        old(clipboard)@.primary.offer is Some && old(clipboard)@.primary.cached_raw_read is None
            && !old(clipboard)@.primary.offer->0.mime_types.contains(
            old(clipboard)@.self_mime,
        ) ==> {
            &&& raw_read(
                old(clipboard)@.primary.offer->0.mime_types,
                final(reader)@.exchanges.skip(old(reader)@.exchanges.len() as int),
                opt_view(raw),
            )
            &&& final(clipboard)@.primary.cached_raw_read == opt_view(raw)
        },
        final(reader)@.exchanges.take(old(reader)@.exchanges.len() as int)
            == old(reader)@.exchanges,
        old(clipboard)@.primary.offer is None || old(clipboard)@.primary.cached_raw_read is Some
            || old(clipboard)@.primary.offer->0.mime_types.contains(old(clipboard)@.self_mime)
            ==> final(clipboard)@.primary.cached_raw_read == old(clipboard)@.primary.cached_raw_read,
        final(clipboard)@.primary.cached_read == old(clipboard)@.primary.cached_read,
        final(clipboard)@.primary.contents == old(clipboard)@.primary.contents,
        final(clipboard)@.primary.offer == old(clipboard)@.primary.offer,
        final(clipboard)@.regular == old(clipboard)@.regular,
        final(clipboard)@.self_mime == old(clipboard)@.self_mime,
{
    law_record_holds_every_request(old(reader)@, final(reader)@);
    assert(final(reader)@.exchanges.take(old(reader)@.exchanges.len() as int)
        =~= old(reader)@.exchanges);
    if final(reader)@.since(old(reader)@).len() == 0 {
        assert(final(reader)@.exchanges =~= old(reader)@.exchanges);
    }
}

/// A reader that can be asked for every type serves every read.
pub proof fn law_total_readers_serve_every_read<F: FnMut(&str) -> Option<Vec<u8>>>(
    read_bytes: F,
    mime_types: Seq<Seq<char>>,
)
    requires
        forall|mime_type: &str| #[trigger] call_requires(read_bytes, (mime_type,)),
    ensures
        can_ask(read_bytes, mime_types),
        can_ask_text(read_bytes, mime_types),
        can_ask_images(read_bytes, offered(mime_types, image_formats())),
        can_ask_to_read(read_bytes, mime_types),
{
}

} // verus!
