//! Offers of another client: which types it offers, and what is made of its payloads.

use vstd::prelude::*;
use vstd::utf8::*;

use crate::convert::{non_empty, non_empty_raw};
use crate::item::{
    content_hash, image_formats, image_of, law_image_formats_are_complete, law_image_mime_types,
    texts, ClipboardEntry, ClipboardItem, EntryView, Image, ImageFormat, RawClipboardEntry,
    RawClipboardItem, RawEntryView,
};
use crate::reader::{
    can_reply, law_record_holds_every_request, law_requests_add_up, replies_got, reply_bytes,
    types_asked, Exchange, Reader, ReaderView,
};
use crate::text::{
    decode, decoded, law_decoded_text_encodes_to_the_payload, law_encoded_text_decodes_to_itself,
    opt_view, unix_line_endings, unix_text,
};

verus! {

broadcast use vstd::std_specs::vec::group_vec_axioms;

/// The MIME types of text that are offered to other programs.
pub const TEXT_MIME_TYPES: [&'static str; 3] = [
    "text/plain;charset=utf-8",
    "UTF8_STRING",
    "text/plain",
];

/// The MIME type of a list of files.
pub const FILE_LIST_MIME_TYPE: &'static str = "text/uri-list";

/// The MIME types of text that are accepted from other programs.
pub const ALLOWED_TEXT_MIME_TYPES: [&'static str; 2] = ["text/plain;charset=utf-8", "UTF8_STRING"];

/// Text of this type is accepted from other programs.
pub open spec fn is_allowed_text(mime_type: Seq<char>) -> bool {
    exists|i: int|
        0 <= i < ALLOWED_TEXT_MIME_TYPES@.len() && #[trigger] ALLOWED_TEXT_MIME_TYPES@[i]@
            == mime_type
}

/// Tells whether text of this type is accepted from other programs.
pub fn is_allowed_text_type(mime_type: &str) -> (allowed: bool)
    ensures
        allowed == is_allowed_text(mime_type@),
{
    for i in 0..ALLOWED_TEXT_MIME_TYPES.len()
        invariant
            forall|j: int| 0 <= j < i ==> #[trigger] ALLOWED_TEXT_MIME_TYPES@[j]@ != mime_type@,
    {
        if *ALLOWED_TEXT_MIME_TYPES[i] == *mime_type {
            return true;
        }
    }
    false
}

/// The first of the offered types whose text is accepted.
pub open spec fn text_type(mime_types: Seq<Seq<char>>) -> Option<Seq<char>>
    decreases mime_types.len(),
{
    if mime_types.len() == 0 {
        None
    } else if is_allowed_text(mime_types[0]) {
        Some(mime_types[0])
    } else {
        text_type(mime_types.drop_first())
    }
}

/// `read_bytes` can be asked for each of the types, as a read of every payload does.
pub open spec fn can_ask<F: FnMut(&str) -> Option<Vec<u8>>>(
    read_bytes: F,
    mime_types: Seq<Seq<char>>,
) -> bool {
    forall|mime_type: &str|
        mime_types.contains(mime_type@) ==> #[trigger] call_requires(read_bytes, (mime_type,))
}

/// `read_bytes` can be asked for what a read of text asks for: the first of the types whose
/// text is accepted, and nothing where there is none.
pub open spec fn can_ask_text<F: FnMut(&str) -> Option<Vec<u8>>>(
    read_bytes: F,
    mime_types: Seq<Seq<char>>,
) -> bool {
    forall|mime_type: &str|
        text_type(mime_types) == Some(mime_type@) ==> #[trigger] call_requires(
            read_bytes,
            (mime_type,),
        )
}

/// `read_bytes` can be asked for what a read of an image asks for, where `formats` are on
/// offer: each of the formats once there was no payload for those before it.
pub open spec fn can_ask_images<F: FnMut(&str) -> Option<Vec<u8>>>(
    read_bytes: F,
    formats: Seq<ImageFormat>,
) -> bool {
    forall|mime_type: &str, i: int|
        #![trigger call_requires(read_bytes, (mime_type,)), formats[i]]
        {
            &&& 0 <= i < formats.len()
            &&& formats[i].mime() == mime_type@
            &&& forall|j: int|
                0 <= j < i ==> can_reply(read_bytes, (#[trigger] formats[j]).mime(), None)
        } ==> call_requires(read_bytes, (mime_type,))
}

/// The item that a text payload stands for: its text with line endings normalized, if it
/// is well-formed UTF-8.
pub open spec fn text_entries(bytes: Seq<u8>) -> Option<Seq<EntryView>> {
    match decoded(bytes) {
        Some(text) => Some(seq![EntryView::String(unix_text(text))]),
        None => None,
    }
}

/// The item that a text payload stands for.
///
/// Line endings are normalized, since some programs put in carriage returns that would
/// show up as blank lines.
pub fn text_item(bytes: Vec<u8>) -> (item: Option<ClipboardItem>)
    ensures
        opt_view(item) == text_entries(bytes@),
{
    match decode(bytes) {
        Some(text) => Some(ClipboardItem::new_string(unix_line_endings(text.as_str()))),
        None => None,
    }
}

/// The item that an image payload stands for.
pub fn image_item(format: ImageFormat, bytes: Vec<u8>) -> (item: ClipboardItem)
    ensures
        item@ == seq![image_of(format, bytes@)],
{
    let item = ClipboardItem { entries: vec![ClipboardEntry::Image(Image::from_bytes(format, bytes))] };
    assert(item@ =~= seq![image_of(format, bytes@)]);
    item
}

/// The item in the reply to a request for text.
pub open spec fn text_in(reply: Option<Seq<u8>>) -> Option<Seq<EntryView>> {
    match reply {
        Some(bytes) => text_entries(bytes),
        None => None,
    }
}

/// What a read of text asks for: the first type whose text is accepted, if there is one.
pub open spec fn text_requests(mime_types: Seq<Seq<char>>) -> Seq<Seq<char>> {
    match text_type(mime_types) {
        Some(mime_type) => seq![mime_type],
        None => Seq::empty(),
    }
}

/// The item in what came of a read of text.
pub open spec fn text_found(exchanges: Seq<Exchange>) -> Option<Seq<EntryView>> {
    if exchanges.len() == 0 {
        None
    } else {
        text_in(exchanges[0].reply)
    }
}

/// A read of text from an offer of these types makes these requests and gives `item`.
pub open spec fn text_read(
    mime_types: Seq<Seq<char>>,
    exchanges: Seq<Exchange>,
    item: Option<Seq<EntryView>>,
) -> bool {
    &&& types_asked(exchanges) == text_requests(mime_types)
    &&& item == text_found(exchanges)
}

/// A read of text from an offer of these types can come out without text.
pub open spec fn can_lack_text<F: FnMut(&str) -> Option<Vec<u8>>>(
    read_bytes: F,
    mime_types: Seq<Seq<char>>,
) -> bool {
    match text_type(mime_types) {
        Some(mime_type) => exists|reply: Option<Seq<u8>>| #[trigger]
            can_reply(read_bytes, mime_type, reply) && text_in(reply) is None,
        None => true,
    }
}

/// Those of the formats that are offered.
pub open spec fn offered(mime_types: Seq<Seq<char>>, formats: Seq<ImageFormat>) -> Seq<ImageFormat>
    decreases formats.len(),
{
    if formats.len() == 0 {
        Seq::empty()
    } else if mime_types.contains(formats.last().mime()) {
        offered(mime_types, formats.drop_last()).push(formats.last())
    } else {
        offered(mime_types, formats.drop_last())
    }
}

/// The image in the last of the replies, where it has a payload. There is one reply for
/// each format that was asked for.
pub open spec fn image_entries(formats: Seq<ImageFormat>, replies: Seq<Option<Seq<u8>>>) -> Option<
    Seq<EntryView>,
> {
    if replies.len() == 0 {
        None
    } else {
        match replies.last() {
            Some(bytes) => Some(seq![image_of(formats[replies.len() - 1], bytes)]),
            None => None,
        }
    }
}

/// The formats are asked for in order, each once, up to the first payload.
pub open spec fn asks_until_payload(formats: Seq<ImageFormat>, exchanges: Seq<Exchange>) -> bool {
    &&& exchanges.len() <= formats.len()
    &&& forall|i: int|
        0 <= i < exchanges.len() ==> (#[trigger] exchanges[i]).mime_type == formats[i].mime()
    &&& forall|i: int|
        0 <= i < exchanges.len() - 1 ==> (#[trigger] exchanges[i]).reply is None
    &&& exchanges.len() < formats.len() ==> exchanges.len() > 0 && exchanges.last().reply is Some
}

/// A read of an image from an offer of these types makes these requests and gives `item`.
pub open spec fn image_read(
    mime_types: Seq<Seq<char>>,
    exchanges: Seq<Exchange>,
    item: Option<Seq<EntryView>>,
) -> bool {
    &&& asks_until_payload(offered(mime_types, image_formats()), exchanges)
    &&& item == image_entries(offered(mime_types, image_formats()), replies_got(exchanges))
}

/// The formats offered out of the first few come first among all those offered.
proof fn lemma_offered_prefix(mime_types: Seq<Seq<char>>, formats: Seq<ImageFormat>, n: int)
    requires
        0 <= n <= formats.len(),
    ensures
        offered(mime_types, formats.take(n)).is_prefix_of(offered(mime_types, formats)),
    decreases formats.len(),
{
    if n == formats.len() {
        assert(formats.take(n) =~= formats);
    } else {
        lemma_offered_prefix(mime_types, formats.drop_last(), n);
        assert(formats.drop_last().take(n) =~= formats.take(n));
    }
}

/// The payloads that were had, each with its type, in the order of the types.
pub open spec fn raw_entries(mime_types: Seq<Seq<char>>, replies: Seq<Option<Seq<u8>>>) -> Seq<
    RawEntryView,
>
    decreases mime_types.len(),
{
    if mime_types.len() == 0 || replies.len() == 0 {
        Seq::empty()
    } else {
        raw_entries(mime_types.drop_last(), replies.drop_last()) + match replies.last() {
            Some(bytes) => seq![RawEntryView { format: mime_types.last(), bytes }],
            None => Seq::empty(),
        }
    }
}

/// A read of every payload of an offer of these types makes these requests and gives `raw`:
/// each type is asked for once for each time it was announced, in that order.
pub open spec fn raw_read(
    mime_types: Seq<Seq<char>>,
    exchanges: Seq<Exchange>,
    raw: Option<Seq<RawEntryView>>,
) -> bool {
    &&& types_asked(exchanges) == mime_types
    &&& raw == non_empty(raw_entries(mime_types, replies_got(exchanges)))
}

/// What an offer is: the handle that it was made for and the types it was given.
pub struct OfferView<T> {
    /// The handle of the offer.
    pub inner: T,
    /// The offered types, in the order in which they were announced.
    pub mime_types: Seq<Seq<char>>,
}

/// The offer of another client, with the types that it announced.
#[derive(Debug)]
pub struct DataOffer<T> {
    /// The handle of the offer.
    pub inner: T,
    mime_types: Vec<String>,
}

impl<T> View for DataOffer<T> {
    type V = OfferView<T>;

    closed spec fn view(&self) -> OfferView<T> {
        OfferView { inner: self.inner, mime_types: texts(self.mime_types@) }
    }
}

impl<T: Clone> Clone for DataOffer<T> {
    fn clone(&self) -> (res: Self)
        ensures
            res@.mime_types == self@.mime_types,
            cloned(self@.inner, res@.inner),
    {
        let res = DataOffer { inner: self.inner.clone(), mime_types: self.mime_types.clone() };
        assert(res@.mime_types =~= self@.mime_types);
        res
    }
}

impl<T> DataOffer<T> {
    /// An offer without types.
    pub fn new(offer: T) -> (res: DataOffer<T>)
        ensures
            res@ == (OfferView { inner: offer, mime_types: Seq::empty() }),
    {
        let res = DataOffer { inner: offer, mime_types: Vec::new() };
        assert(res@.mime_types =~= Seq::empty());
        res
    }

    /// Adds a type behind those that were announced before.
    pub fn add_mime_type(&mut self, mime_type: String)
        ensures
            final(self)@ == (OfferView {
                inner: old(self)@.inner,
                mime_types: old(self)@.mime_types.push(mime_type@),
            }),
    {
        self.mime_types.push(mime_type);
        assert(self@.mime_types =~= old(self)@.mime_types.push(mime_type@));
    }

    /// Tells whether the type was announced.
    pub fn has_mime_type(&self, mime_type: &str) -> (has: bool)
        ensures
            has == self@.mime_types.contains(mime_type@),
    {
        for i in 0..self.mime_types.len()
            invariant
                forall|j: int| 0 <= j < i ==> #[trigger] self@.mime_types[j] != mime_type@,
        {
            assert(self@.mime_types[i as int] == self.mime_types@[i as int]@);
            if *self.mime_types[i].as_str() == *mime_type {
                return true;
            }
        }
        false
    }

    /// The first announced type whose text is accepted.
    pub fn text_mime_type(&self) -> (mime_type: Option<&str>)
        ensures
            opt_view(mime_type) == text_type(self@.mime_types),
    {
        assert(self@.mime_types.skip(0) =~= self@.mime_types);
        for i in 0..self.mime_types.len()
            invariant
                text_type(self@.mime_types) == text_type(self@.mime_types.skip(i as int)),
        {
            assert(self@.mime_types.skip(i as int).drop_first() =~= self@.mime_types.skip(i + 1));
            if is_allowed_text_type(self.mime_types[i].as_str()) {
                return Some(self.mime_types[i].as_str());
            }
        }
        None
    }

    /// Reads the text of the offer, if it offers text that is accepted.
    ///
    /// The reader is asked once for the first announced type whose text is accepted, and not at
    /// all where there is none.
    pub fn read_text<F: FnMut(&str) -> Option<Vec<u8>>>(&self, reader: &mut Reader<F>) -> (item:
        Option<ClipboardItem>)
        requires
            can_ask_text(old(reader)@.read_bytes, self@.mime_types),
        ensures
            final(reader)@.continues(old(reader)@),
            text_read(self@.mime_types, final(reader)@.since(old(reader)@), opt_view(item)),
    {
        match self.text_mime_type() {
            Some(mime_type) => {
                let reply = reader.ask(mime_type);
                assert(types_asked(reader@.since(old(reader)@)) =~= seq![mime_type@]);
                match reply {
                    Some(bytes) => text_item(bytes),
                    None => None,
                }
            },
            None => {
                assert(types_asked(reader@.since(old(reader)@)) =~= Seq::empty());
                None
            },
        }
    }

    /// Reads the image of the offer, in the first format that it offers and for which
    /// there is a payload.
    ///
    /// The reader is asked for the offered formats in their order, for each of them once, up to
    /// the first payload.
    pub fn read_image<F: FnMut(&str) -> Option<Vec<u8>>>(&self, reader: &mut Reader<F>) -> (item:
        Option<ClipboardItem>)
        requires
            can_ask_images(old(reader)@.read_bytes, offered(self@.mime_types, image_formats())),
        ensures
            final(reader)@.continues(old(reader)@),
            image_read(self@.mime_types, final(reader)@.since(old(reader)@), opt_view(item)),
    {
        let ghost mime_types = self@.mime_types;
        let ghost all = offered(mime_types, image_formats());
        let ghost start = reader@;
        let formats = ImageFormat::iter();
        for i in 0..formats.len()
            invariant
                start == old(reader)@,
                mime_types == self@.mime_types,
                all == offered(mime_types, image_formats()),
                formats@ == image_formats(),
                can_ask_images(start.read_bytes, all),
                reader@.continues(start),
                reader@.since(start).len() == offered(mime_types, formats@.take(i as int)).len(),
                forall|j: int|
                    0 <= j < reader@.since(start).len() ==> {
                        &&& (#[trigger] reader@.since(start)[j]).mime_type == all[j].mime()
                        &&& reader@.since(start)[j].reply is None
                    },
        {
            let format = formats[i];
            let mime_type = format.mime_type();
            let ghost asked = reader@;
            let ghost before = offered(mime_types, formats@.take(i as int));
            let ghost after = offered(mime_types, formats@.take(i + 1));
            assert(formats@.take(i + 1).drop_last() =~= formats@.take(i as int));
            if self.has_mime_type(mime_type) {
                proof {
                    lemma_offered_prefix(mime_types, formats@, i + 1);
                    assert(after == before.push(format));
                    assert(all[before.len() as int] == after[before.len() as int]);
                    assert forall|j: int| 0 <= j < before.len() implies can_reply(
                        start.read_bytes,
                        (#[trigger] all[j]).mime(),
                        None,
                    ) by {
                        let exchange = asked.since(start)[j];
                        assert(exchange == asked.exchanges[start.exchanges.len() + j]);
                    }
                }
                let reply = reader.ask(mime_type);
                proof {
                    law_requests_add_up(start, asked, reader@);
                    assert(reader@.since(asked) =~= seq![reader@.exchanges.last()]);
                }
                if let Some(bytes) = reply {
                    return Some(image_item(format, bytes));
                }
            }
        }
        assert(formats@.take(formats@.len() as int) =~= image_formats());
        None
    }

    /// The raw item that the replies to the announced types make up.
    pub fn raw_item(&self, replies: Vec<Option<Vec<u8>>>) -> (raw: Option<RawClipboardItem>)
        requires
            replies@.len() == self@.mime_types.len(),
        ensures
            opt_view(raw) == non_empty(
                raw_entries(
                    self@.mime_types,
                    replies@.map_values(|reply: Option<Vec<u8>>| reply_bytes(reply)),
                ),
            ),
    {
        let ghost mime_types = self@.mime_types;
        let ghost got = replies@.map_values(|reply: Option<Vec<u8>>| reply_bytes(reply));
        let ghost all = replies@;
        let mut entries: Vec<RawClipboardEntry> = Vec::new();
        let count: usize = self.mime_types.len();
        let mut i: usize = 0;
        assert(entries@.map_values(|entry: RawClipboardEntry| entry@) =~= Seq::empty());
        for reply in iter: replies
            invariant
                iter.seq() == all,
                i == iter.index(),
                mime_types == self@.mime_types,
                mime_types.len() == all.len() == count,
                got == all.map_values(|reply: Option<Vec<u8>>| reply_bytes(reply)),
                entries@.map_values(|entry: RawClipboardEntry| entry@) == raw_entries(
                    mime_types.take(i as int),
                    got.take(i as int),
                ),
        {
            let ghost before = entries@.map_values(|entry: RawClipboardEntry| entry@);
            assert(mime_types.take(i + 1).drop_last() =~= mime_types.take(i as int));
            assert(got.take(i + 1).drop_last() =~= got.take(i as int));
            assert(mime_types[i as int] == self.mime_types@[i as int]@);
            if let Some(bytes) = reply {
                entries.push(RawClipboardEntry { format: self.mime_types[i].clone(), bytes });
                assert(entries@.map_values(|entry: RawClipboardEntry| entry@) =~= before.push(
                    entries@.last()@,
                ));
            }
            i = i + 1;
        }
        assert(mime_types.take(i as int) =~= mime_types);
        assert(got.take(i as int) =~= got);
        non_empty_raw(entries)
    }

    /// Reads every payload of the offer, in the order in which the types were announced.
    /// Types without a payload are left out.
    ///
    /// The reader is asked for each announced type, once for each time it was announced.
    pub fn read_raw_with<F: FnMut(&str) -> Option<Vec<u8>>>(&self, reader: &mut Reader<F>) -> (raw:
        Option<RawClipboardItem>)
        requires
            can_ask(old(reader)@.read_bytes, self@.mime_types),
        ensures
            final(reader)@.continues(old(reader)@),
            raw_read(self@.mime_types, final(reader)@.since(old(reader)@), opt_view(raw)),
    {
        let ghost start = reader@;
        let mut replies: Vec<Option<Vec<u8>>> = Vec::new();
        for i in 0..self.mime_types.len()
            invariant
                can_ask(start.read_bytes, self@.mime_types),
                reader@.continues(start),
                replies@.len() == i,
                reader@.since(start).len() == i,
                forall|j: int|
                    0 <= j < i ==> (#[trigger] reader@.since(start)[j]) == (Exchange {
                        mime_type: self@.mime_types[j],
                        reply: reply_bytes(replies@[j]),
                    }),
        {
            let ghost asked = reader@;
            let mime_type = self.mime_types[i].as_str();
            assert(self@.mime_types[i as int] == mime_type@);
            let reply = reader.ask(mime_type);
            proof {
                law_requests_add_up(start, asked, reader@);
                assert(reader@.since(asked) =~= seq![reader@.exchanges.last()]);
            }
            replies.push(reply);
        }
        proof {
            let got = replies@.map_values(|reply: Option<Vec<u8>>| reply_bytes(reply));
            assert(types_asked(reader@.since(start)) =~= self@.mime_types);
            assert(replies_got(reader@.since(start)) =~= got);
        }
        self.raw_item(replies)
    }
}

/// The text that is read is of the first type on offer that is accepted, and there is none
/// only where no such type is on offer.
pub proof fn law_text_type_is_the_first_allowed(mime_types: Seq<Seq<char>>)
    ensures
        match text_type(mime_types) {
            Some(mime_type) => exists|i: int|
                {
                    &&& 0 <= i < mime_types.len()
                    &&& #[trigger] mime_types[i] == mime_type
                    &&& is_allowed_text(mime_type)
                    &&& forall|j: int| 0 <= j < i ==> !is_allowed_text(#[trigger] mime_types[j])
                },
            None => forall|i: int|
                0 <= i < mime_types.len() ==> !is_allowed_text(#[trigger] mime_types[i]),
        },
    decreases mime_types.len(),
{
    if mime_types.len() > 0 {
        let rest = mime_types.drop_first();
        law_text_type_is_the_first_allowed(rest);
        if is_allowed_text(mime_types[0]) {
            assert(mime_types[0] == mime_types[0]);
        } else {
            match text_type(rest) {
                Some(mime_type) => {
                    let i = choose|i: int|
                        {
                            &&& 0 <= i < rest.len()
                            &&& #[trigger] rest[i] == mime_type
                            &&& is_allowed_text(mime_type)
                            &&& forall|j: int| 0 <= j < i ==> !is_allowed_text(#[trigger] rest[j])
                        };
                    assert(mime_types[i + 1] == mime_type);
                    assert forall|j: int| 0 <= j < i + 1 implies !is_allowed_text(
                        #[trigger] mime_types[j],
                    ) by {
                        if j > 0 {
                            assert(rest[j - 1] == mime_types[j]);
                        }
                    }
                },
                None => {
                    assert forall|i: int| 0 <= i < mime_types.len() implies !is_allowed_text(
                        #[trigger] mime_types[i],
                    ) by {
                        if i > 0 {
                            assert(rest[i - 1] == mime_types[i]);
                        }
                    }
                },
            }
        }
    }
}

/// Text that is accepted from other programs is of a type that is also offered to them.
pub proof fn law_allowed_text_is_offered(mime_type: Seq<char>)
    requires
        is_allowed_text(mime_type),
    ensures
        exists|i: int|
            0 <= i < TEXT_MIME_TYPES@.len() && #[trigger] TEXT_MIME_TYPES@[i]@ == mime_type,
{
    assert(ALLOWED_TEXT_MIME_TYPES@.len() == 2);
    assert(TEXT_MIME_TYPES@[0]@ == ALLOWED_TEXT_MIME_TYPES@[0]@);
    assert(TEXT_MIME_TYPES@[1]@ == ALLOWED_TEXT_MIME_TYPES@[1]@);
}

/// Text that one side encodes is read by the other side with its line endings normalized.
pub proof fn law_encoded_text_is_read(text: Seq<char>)
    ensures
        text_entries(encode_utf8(text)) == Some(seq![EntryView::String(unix_text(text))]),
{
    law_encoded_text_decodes_to_itself(text);
}

/// Where every type has a payload, the raw item holds all of them, each under its type, in
/// the order of the offer.
pub proof fn law_raw_entries_hold_every_payload(
    mime_types: Seq<Seq<char>>,
    replies: Seq<Option<Seq<u8>>>,
)
    requires
        mime_types.len() == replies.len(),
        forall|i: int| 0 <= i < replies.len() ==> #[trigger] replies[i] is Some,
    ensures
        raw_entries(mime_types, replies).len() == mime_types.len(),
        forall|i: int|
            0 <= i < mime_types.len() ==> #[trigger] raw_entries(mime_types, replies)[i] == (
            RawEntryView { format: mime_types[i], bytes: replies[i]->0 }),
    decreases mime_types.len(),
{
    if mime_types.len() > 0 {
        assert forall|i: int| 0 <= i < replies.drop_last().len() implies
            #[trigger] replies.drop_last()[i] is Some by {
            assert(replies[i] is Some);
        }
        law_raw_entries_hold_every_payload(mime_types.drop_last(), replies.drop_last());
        assert(replies[replies.len() - 1] is Some);
    }
}

/// Every entry of a raw item is an offered type with the payload that came for it.
pub proof fn law_raw_entries_come_from_the_offer(
    mime_types: Seq<Seq<char>>,
    replies: Seq<Option<Seq<u8>>>,
    entry: RawEntryView,
)
    requires
        mime_types.len() == replies.len(),
        raw_entries(mime_types, replies).contains(entry),
    ensures
        exists|i: int|
            0 <= i < mime_types.len() && #[trigger] mime_types[i] == entry.format && replies[i]
                == Some(entry.bytes),
    decreases mime_types.len(),
{
    if mime_types.len() > 0 {
        let all = raw_entries(mime_types, replies);
        let rest = raw_entries(mime_types.drop_last(), replies.drop_last());
        let k = choose|k: int| 0 <= k < all.len() && all[k] == entry;
        if k < rest.len() {
            assert(rest[k] == entry);
            law_raw_entries_come_from_the_offer(
                mime_types.drop_last(),
                replies.drop_last(),
                entry,
            );
            let i = choose|i: int|
                0 <= i < mime_types.len() - 1 && #[trigger] mime_types.drop_last()[i]
                    == entry.format && replies.drop_last()[i] == Some(entry.bytes);
            assert(mime_types[i] == entry.format);
        } else {
            assert(mime_types[mime_types.len() - 1] == entry.format);
        }
    }
}

/// The order of an offer carries over to its raw item: the payloads of the first types come
/// before those of the types behind them.
pub proof fn law_raw_entries_keep_order(
    first: Seq<Seq<char>>,
    second: Seq<Seq<char>>,
    first_replies: Seq<Option<Seq<u8>>>,
    second_replies: Seq<Option<Seq<u8>>>,
)
    requires
        first.len() == first_replies.len(),
        second.len() == second_replies.len(),
    ensures
        raw_entries(first + second, first_replies + second_replies) == raw_entries(
            first,
            first_replies,
        ) + raw_entries(second, second_replies),
    decreases second.len(),
{
    let mime_types = first + second;
    let replies = first_replies + second_replies;
    if second.len() == 0 {
        assert(mime_types =~= first);
        assert(replies =~= first_replies);
    } else {
        law_raw_entries_keep_order(
            first,
            second.drop_last(),
            first_replies,
            second_replies.drop_last(),
        );
        assert(mime_types.drop_last() =~= first + second.drop_last());
        assert(replies.drop_last() =~= first_replies + second_replies.drop_last());
        assert(replies.last() == second_replies.last());
        assert(mime_types.last() == second.last());
    }
}

/// Every reply is the one that `replies` lists for the type.
pub open spec fn answered_by(
    exchanges: Seq<Exchange>,
    replies: spec_fn(Seq<char>) -> Option<Seq<u8>>,
) -> bool {
    forall|i: int|
        0 <= i < exchanges.len() ==> (#[trigger] exchanges[i]).reply == replies(
            exchanges[i].mime_type,
        )
}

/// A function that gives one reply for each type answers every request with it.
pub proof fn law_replies_answer_requests<F: FnMut(&str) -> Option<Vec<u8>>>(
    before: ReaderView<F>,
    after: ReaderView<F>,
    replies: spec_fn(Seq<char>) -> Option<Seq<u8>>,
)
    requires
        after.continues(before),
        forall|mime_type: Seq<char>, reply: Option<Seq<u8>>| #[trigger]
            can_reply(before.read_bytes, mime_type, reply) ==> reply == replies(mime_type),
    ensures
        answered_by(after.since(before), replies),
{
    let exchanges = after.since(before);
    assert forall|i: int| 0 <= i < exchanges.len() implies (#[trigger] exchanges[i]).reply
        == replies(exchanges[i].mime_type) by {
        assert(exchanges[i] == after.exchanges[before.exchanges.len() + i]);
    }
}

/// The text item of an offer of these types, given the payload of each type.
pub open spec fn text_outcome(
    mime_types: Seq<Seq<char>>,
    replies: spec_fn(Seq<char>) -> Option<Seq<u8>>,
) -> Option<Seq<EntryView>> {
    match text_type(mime_types) {
        Some(mime_type) => match replies(mime_type) {
            Some(bytes) => text_entries(bytes),
            None => None,
        },
        None => None,
    }
}

/// The image item in the first of the formats that has a payload.
pub open spec fn image_outcome(
    formats: Seq<ImageFormat>,
    replies: spec_fn(Seq<char>) -> Option<Seq<u8>>,
) -> Option<Seq<EntryView>>
    decreases formats.len(),
{
    if formats.len() == 0 {
        None
    } else {
        match replies(formats[0].mime()) {
            Some(bytes) => Some(seq![image_of(formats[0], bytes)]),
            None => image_outcome(formats.drop_first(), replies),
        }
    }
}

/// What a read of an image asks for, given the payload of each type: the formats in order, up
/// to the first that has one.
pub open spec fn image_requests(
    formats: Seq<ImageFormat>,
    replies: spec_fn(Seq<char>) -> Option<Seq<u8>>,
) -> Seq<Seq<char>>
    decreases formats.len(),
{
    if formats.len() == 0 {
        Seq::empty()
    } else {
        seq![formats[0].mime()] + match replies(formats[0].mime()) {
            Some(bytes) => Seq::empty(),
            None => image_requests(formats.drop_first(), replies),
        }
    }
}

/// A read of text asks at most once.
pub proof fn law_text_is_asked_for_at_most_once(
    mime_types: Seq<Seq<char>>,
    exchanges: Seq<Exchange>,
    item: Option<Seq<EntryView>>,
)
    requires
        text_read(mime_types, exchanges, item),
    ensures
        exchanges.len() <= 1,
        exchanges.len() == 1 <==> text_type(mime_types) is Some,
        exchanges.len() == 1 ==> text_type(mime_types) == Some(exchanges[0].mime_type),
{
    assert(types_asked(exchanges).len() == exchanges.len());
    if exchanges.len() == 1 {
        assert(types_asked(exchanges)[0] == exchanges[0].mime_type);
    }
}

/// The payloads decide what reading text gives.
pub proof fn law_text_read_follows_replies(
    mime_types: Seq<Seq<char>>,
    exchanges: Seq<Exchange>,
    replies: spec_fn(Seq<char>) -> Option<Seq<u8>>,
    item: Option<Seq<EntryView>>,
)
    requires
        answered_by(exchanges, replies),
        text_read(mime_types, exchanges, item),
    ensures
        item == text_outcome(mime_types, replies),
{
    law_text_is_asked_for_at_most_once(mime_types, exchanges, item);
}

/// Without the first format, which had no payload, the other requests are those of a read of
/// the formats behind it.
proof fn lemma_asks_behind_first(formats: Seq<ImageFormat>, exchanges: Seq<Exchange>)
    requires
        asks_until_payload(formats, exchanges),
        exchanges.len() > 0,
        exchanges[0].reply is None,
    ensures
        asks_until_payload(formats.drop_first(), exchanges.drop_first()),
        image_entries(formats, replies_got(exchanges)) == image_entries(
            formats.drop_first(),
            replies_got(exchanges.drop_first()),
        ),
{
    let rest = exchanges.drop_first();
    assert forall|i: int| 0 <= i < rest.len() implies (#[trigger] rest[i]).mime_type
        == formats.drop_first()[i].mime() by {
        assert(rest[i] == exchanges[i + 1]);
    }
    assert forall|i: int| 0 <= i < rest.len() - 1 implies (#[trigger] rest[i]).reply is None by {
        assert(rest[i] == exchanges[i + 1]);
    }
    if rest.len() > 0 {
        assert(rest.last() == exchanges.last());
        assert(replies_got(rest).last() == replies_got(exchanges).last());
    } else {
        assert(exchanges.last() == exchanges[0]);
    }
}

/// The payloads decide what asking for the formats gives.
proof fn lemma_image_requests(
    formats: Seq<ImageFormat>,
    exchanges: Seq<Exchange>,
    replies: spec_fn(Seq<char>) -> Option<Seq<u8>>,
)
    requires
        answered_by(exchanges, replies),
        asks_until_payload(formats, exchanges),
    ensures
        types_asked(exchanges) == image_requests(formats, replies),
        image_entries(formats, replies_got(exchanges)) == image_outcome(formats, replies),
    decreases formats.len(),
{
    if formats.len() == 0 {
        assert(types_asked(exchanges) =~= Seq::empty());
    } else {
        let first = exchanges[0];
        assert(first.mime_type == formats[0].mime());
        if first.reply is None {
            let rest = exchanges.drop_first();
            assert forall|i: int| 0 <= i < rest.len() implies (#[trigger] rest[i]).reply == replies(
                rest[i].mime_type,
            ) by {
                assert(rest[i] == exchanges[i + 1]);
            }
            lemma_asks_behind_first(formats, exchanges);
            lemma_image_requests(formats.drop_first(), rest, replies);
            assert(types_asked(exchanges) =~= seq![first.mime_type] + types_asked(rest));
        } else {
            assert(exchanges.len() == 1);
            assert(types_asked(exchanges) =~= seq![first.mime_type] + Seq::empty());
        }
    }
}

/// The payloads decide what a read of an image asks for and what it gives: it asks for the
/// offered formats up to the first that has a payload, and gives the image in that format.
pub proof fn law_image_read_follows_replies(
    mime_types: Seq<Seq<char>>,
    exchanges: Seq<Exchange>,
    replies: spec_fn(Seq<char>) -> Option<Seq<u8>>,
    item: Option<Seq<EntryView>>,
)
    requires
        answered_by(exchanges, replies),
        image_read(mime_types, exchanges, item),
    ensures
        types_asked(exchanges) == image_requests(offered(mime_types, image_formats()), replies),
        item == image_outcome(offered(mime_types, image_formats()), replies),
{
    lemma_image_requests(offered(mime_types, image_formats()), exchanges, replies);
}

/// A raw read asks for every announced type, as often as it was announced and in that order,
/// whatever the replies.
pub proof fn law_raw_read_asks_for_every_type(
    mime_types: Seq<Seq<char>>,
    exchanges: Seq<Exchange>,
    raw: Option<Seq<RawEntryView>>,
)
    requires
        raw_read(mime_types, exchanges, raw),
    ensures
        exchanges.len() == mime_types.len(),
        forall|i: int|
            0 <= i < exchanges.len() ==> (#[trigger] exchanges[i]).mime_type == mime_types[i],
{
    assert(types_asked(exchanges).len() == exchanges.len());
    assert forall|i: int| 0 <= i < exchanges.len() implies (#[trigger] exchanges[i]).mime_type
        == mime_types[i] by {
        assert(types_asked(exchanges)[i] == exchanges[i].mime_type);
    }
}

/// The payloads decide what a raw read gives.
pub proof fn law_raw_read_follows_replies(
    mime_types: Seq<Seq<char>>,
    exchanges: Seq<Exchange>,
    replies: spec_fn(Seq<char>) -> Option<Seq<u8>>,
    raw: Option<Seq<RawEntryView>>,
)
    requires
        answered_by(exchanges, replies),
        raw_read(mime_types, exchanges, raw),
    ensures
        raw == non_empty(raw_entries(mime_types, mime_types.map_values(replies))),
{
    law_raw_read_asks_for_every_type(mime_types, exchanges, raw);
    assert(replies_got(exchanges) =~= mime_types.map_values(replies));
}

/// Text is accepted under two types, and under no other.
pub proof fn law_two_text_types_are_accepted(mime_type: &str, allowed: bool)
    requires
        call_ensures(is_allowed_text_type, (mime_type,), allowed),
    ensures
        allowed <==> mime_type@ == "text/plain;charset=utf-8"@ || mime_type@ == "UTF8_STRING"@,
{
    law_accepted_text_is_utf8(mime_type@);
}

/// Text is accepted only under a type that says that it is UTF-8.
pub proof fn law_accepted_text_is_utf8(mime_type: Seq<char>)
    ensures
        is_allowed_text(mime_type) <==> mime_type == "text/plain;charset=utf-8"@ || mime_type
            == "UTF8_STRING"@,
{
    assert(ALLOWED_TEXT_MIME_TYPES@.len() == 2);
    assert(ALLOWED_TEXT_MIME_TYPES@[0]@ == "text/plain;charset=utf-8"@);
    assert(ALLOWED_TEXT_MIME_TYPES@[1]@ == "UTF8_STRING"@);
}

/// Which of two lists of formats are offered is which of the first are, followed by which of
/// the second are.
pub proof fn law_offered_formats_keep_order(
    mime_types: Seq<Seq<char>>,
    first: Seq<ImageFormat>,
    second: Seq<ImageFormat>,
)
    ensures
        offered(mime_types, first + second) == offered(mime_types, first) + offered(
            mime_types,
            second,
        ),
    decreases second.len(),
{
    if second.len() == 0 {
        assert(first + second =~= first);
        assert(offered(mime_types, first) + offered(mime_types, second) =~= offered(
            mime_types,
            first,
        ));
    } else {
        law_offered_formats_keep_order(mime_types, first, second.drop_last());
        assert((first + second).drop_last() =~= first + second.drop_last());
        assert(offered(mime_types, first + second) =~= offered(mime_types, first) + offered(
            mime_types,
            second,
        ));
    }
}

/// The formats that are asked for are exactly those whose type is on offer.
pub proof fn law_formats_on_offer_are_asked_for(
    mime_types: Seq<Seq<char>>,
    formats: Seq<ImageFormat>,
    format: ImageFormat,
)
    ensures
        offered(mime_types, formats).contains(format) <==> formats.contains(format)
            && mime_types.contains(format.mime()),
        offered(mime_types, seq![format]) == (if mime_types.contains(format.mime()) {
            seq![format]
        } else {
            Seq::empty()
        }),
    decreases formats.len(),
{
    assert(seq![format].drop_last() =~= Seq::<ImageFormat>::empty());
    reveal_with_fuel(offered, 2);
    assert(offered(mime_types, seq![format]) =~= if mime_types.contains(format.mime()) {
        seq![format]
    } else {
        Seq::empty()
    });
    let all = offered(mime_types, formats);
    if formats.len() > 0 {
        let rest = formats.drop_last();
        law_formats_on_offer_are_asked_for(mime_types, rest, format);
        assert(formats =~= rest.push(formats.last()));
        if offered(mime_types, rest).contains(format) {
            let k = choose|k: int|
                0 <= k < offered(mime_types, rest).len() && offered(mime_types, rest)[k] == format;
            assert(all[k] == format);
        }
        if rest.contains(format) {
            let k = choose|k: int| 0 <= k < rest.len() && rest[k] == format;
            assert(formats[k] == format);
        }
        if formats.last() == format {
            assert(formats[formats.len() - 1] == format);
            if mime_types.contains(format.mime()) {
                assert(all[all.len() - 1] == format);
            }
        }
        if all.contains(format) {
            let k = choose|k: int| 0 <= k < all.len() && all[k] == format;
            if k < offered(mime_types, rest).len() {
                assert(offered(mime_types, rest)[k] == format);
            }
        }
        if formats.contains(format) {
            let k = choose|k: int| 0 <= k < formats.len() && formats[k] == format;
            if k < rest.len() {
                assert(rest[k] == format);
            }
        }
    }
}

/// Where a format is among those that are offered.
proof fn lemma_offered_position(mime_types: Seq<Seq<char>>, formats: Seq<ImageFormat>, k: int)
    requires
        0 <= k < formats.len(),
        mime_types.contains(formats[k].mime()),
    ensures
        offered(mime_types, formats.take(k)).len() < offered(mime_types, formats).len(),
        offered(mime_types, formats)[offered(mime_types, formats.take(k)).len() as int]
            == formats[k],
        offered(mime_types, formats.take(k + 1)).len() == offered(mime_types, formats.take(k)).len()
            + 1,
{
    let part = offered(mime_types, formats.take(k + 1));
    lemma_offered_prefix(mime_types, formats, k + 1);
    assert(formats.take(k + 1).drop_last() =~= formats.take(k));
    assert(part[part.len() - 1] == formats[k]);
    assert(offered(mime_types, formats)[part.len() - 1] == part[part.len() - 1]);
}

/// A format is offered once if it is listed once.
proof fn lemma_offered_once(mime_types: Seq<Seq<char>>, formats: Seq<ImageFormat>)
    requires
        formats.no_duplicates(),
    ensures
        offered(mime_types, formats).no_duplicates(),
    decreases formats.len(),
{
    if formats.len() > 0 {
        let rest = formats.drop_last();
        lemma_offered_once(mime_types, rest);
        law_formats_on_offer_are_asked_for(mime_types, rest, formats.last());
        if rest.contains(formats.last()) {
            let k = choose|k: int| 0 <= k < rest.len() && rest[k] == formats.last();
            assert(formats[k] == formats[formats.len() - 1]);
        }
        let before = offered(mime_types, rest);
        assert forall|i: int, j: int| 0 <= i < j < offered(mime_types, formats).len() implies
            offered(mime_types, formats)[i] != offered(mime_types, formats)[j] by {
            assert(before[i] == offered(mime_types, formats)[i]);
            assert(before.contains(before[i]));
        }
    }
}

/// A read of text asks once for the first announced type under which text is accepted. Where
/// the reply is the encoding of a text, it gives that text with its line endings normalized,
/// and in no other case does it give anything.
pub proof fn law_text_read_gives_the_first_text(
    mime_types: Seq<Seq<char>>,
    exchanges: Seq<Exchange>,
    item: Option<Seq<EntryView>>,
    chars: Seq<char>,
)
    requires
        text_read(mime_types, exchanges, item),
    ensures
        exchanges.len() == 0 ==> forall|i: int|
            0 <= i < mime_types.len() ==> #[trigger] mime_types[i] != "text/plain;charset=utf-8"@
                && mime_types[i] != "UTF8_STRING"@,
        exchanges.len() == 0 ==> item is None,
        exchanges.len() > 0 ==> exchanges.len() == 1 && exists|i: int|
            {
                &&& 0 <= i < mime_types.len()
                &&& #[trigger] mime_types[i] == exchanges[0].mime_type
                &&& mime_types[i] == "text/plain;charset=utf-8"@ || mime_types[i]
                    == "UTF8_STRING"@
                &&& forall|j: int|
                    0 <= j < i ==> #[trigger] mime_types[j] != "text/plain;charset=utf-8"@
                        && mime_types[j] != "UTF8_STRING"@
            },
        exchanges.len() > 0 && exchanges[0].reply == Some(encode_utf8(chars)) ==> item == Some(
            seq![EntryView::String(unix_text(chars))],
        ),
        item is Some ==> exchanges.len() == 1 && exists|text: Seq<char>| #[trigger]
            encode_utf8(text) == exchanges[0].reply->0 && exchanges[0].reply is Some,
{
    law_text_is_asked_for_at_most_once(mime_types, exchanges, item);
    law_text_type_is_the_first_allowed(mime_types);
    assert forall|mime_type: Seq<char>| #[trigger] is_allowed_text(mime_type) <==> mime_type
        == "text/plain;charset=utf-8"@ || mime_type == "UTF8_STRING"@ by {
        law_accepted_text_is_utf8(mime_type);
    }
    if exchanges.len() > 0 {
        let k = choose|k: int|
            {
                &&& 0 <= k < mime_types.len()
                &&& #[trigger] mime_types[k] == exchanges[0].mime_type
                &&& is_allowed_text(mime_types[k])
                &&& forall|j: int| 0 <= j < k ==> !is_allowed_text(#[trigger] mime_types[j])
            };
        assert(mime_types[k] == exchanges[0].mime_type);
        assert forall|j: int| 0 <= j < k implies #[trigger] mime_types[j]
            != "text/plain;charset=utf-8"@ && mime_types[j] != "UTF8_STRING"@ by {
            assert(!is_allowed_text(mime_types[j]));
        }
        law_encoded_text_is_read(chars);
        if item is Some {
            let bytes = exchanges[0].reply->0;
            let text = decoded(bytes)->0;
            law_decoded_text_encodes_to_the_payload(bytes, text);
            assert(encode_utf8(text) == bytes);
        }
    } else {
        assert forall|i: int| 0 <= i < mime_types.len() implies #[trigger] mime_types[i]
            != "text/plain;charset=utf-8"@ && mime_types[i] != "UTF8_STRING"@ by {
            assert(!is_allowed_text(mime_types[i]));
        }
    }
}

/// A read of an image gives one image, with the bytes of the last reply, in the format that was
/// asked for last, or nothing where no reply had a payload.
pub proof fn law_image_read_gives_the_payload(
    mime_types: Seq<Seq<char>>,
    exchanges: Seq<Exchange>,
    item: Option<Seq<EntryView>>,
)
    requires
        image_read(mime_types, exchanges, item),
    ensures
        item is Some <==> exists|i: int|
            0 <= i < exchanges.len() && (#[trigger] exchanges[i]).reply is Some,
        item matches Some(entries) ==> {
            &&& exchanges.len() > 0
            &&& entries.len() == 1
            &&& entries[0] matches EntryView::Image { format, bytes, id }
            &&& exchanges.last().mime_type == format.mime()
            &&& exchanges.last().reply == Some(bytes)
            &&& id == content_hash(bytes)
        },
{
    let all = offered(mime_types, image_formats());
    if exchanges.len() > 0 {
        assert(exchanges.last() == exchanges[exchanges.len() - 1]);
        assert(replies_got(exchanges).last() == exchanges.last().reply);
    }
    if exists|i: int| 0 <= i < exchanges.len() && (#[trigger] exchanges[i]).reply is Some {
        let i = choose|i: int|
            0 <= i < exchanges.len() && (#[trigger] exchanges[i]).reply is Some;
        assert(i == exchanges.len() - 1);
    }
}

/// A read of an image asks only for image types that are on offer, for none of them twice, and
/// gives up only after it has asked for all of them.
pub proof fn law_image_read_asks_for_every_format_on_offer(
    mime_types: Seq<Seq<char>>,
    exchanges: Seq<Exchange>,
    item: Option<Seq<EntryView>>,
)
    requires
        image_read(mime_types, exchanges, item),
    ensures
        forall|i: int|
            0 <= i < exchanges.len() ==> mime_types.contains((#[trigger] exchanges[i]).mime_type)
                && exists|format: ImageFormat| #[trigger] format.mime() == exchanges[i].mime_type,
        forall|i: int, j: int|
            0 <= i < j < exchanges.len() ==> (#[trigger] exchanges[i]).mime_type != (
            #[trigger] exchanges[j]).mime_type,
        item is None ==> forall|format: ImageFormat|
            mime_types.contains(#[trigger] format.mime()) ==> types_asked(exchanges).contains(
                format.mime(),
            ),
{
    let all = offered(mime_types, image_formats());
    law_image_formats_are_complete(ImageFormat::Png);
    lemma_offered_once(mime_types, image_formats());
    assert forall|i: int| 0 <= i < exchanges.len() implies mime_types.contains(
        (#[trigger] exchanges[i]).mime_type,
    ) && exists|format: ImageFormat| #[trigger] format.mime() == exchanges[i].mime_type by {
        assert(all.contains(all[i]));
        law_formats_on_offer_are_asked_for(mime_types, image_formats(), all[i]);
        assert(all[i].mime() == exchanges[i].mime_type);
    }
    assert forall|i: int, j: int| 0 <= i < j < exchanges.len() implies (
    #[trigger] exchanges[i]).mime_type != (#[trigger] exchanges[j]).mime_type by {
        law_image_mime_types(all[i]);
        law_image_mime_types(all[j]);
        assert(all[i] != all[j]);
    }
    if item is None {
        law_image_read_gives_the_payload(mime_types, exchanges, item);
        if exchanges.len() > 0 {
            assert(exchanges[exchanges.len() - 1].reply is None);
        }
        assert(exchanges.len() == all.len());
        assert forall|format: ImageFormat| mime_types.contains(
            #[trigger] format.mime(),
        ) implies types_asked(exchanges).contains(format.mime()) by {
            law_image_formats_are_complete(format);
            law_formats_on_offer_are_asked_for(mime_types, image_formats(), format);
            let k = choose|k: int| 0 <= k < all.len() && all[k] == format;
            assert(exchanges[k].mime_type == format.mime());
            assert(types_asked(exchanges)[k] == format.mime());
        }
    }
}

/// A format is asked for only after every format on offer that comes before it was asked for
/// and had no payload.
pub proof fn law_image_read_prefers_earlier_formats(
    mime_types: Seq<Seq<char>>,
    exchanges: Seq<Exchange>,
    item: Option<Seq<EntryView>>,
    earlier: int,
    later: int,
    j: int,
)
    requires
        image_read(mime_types, exchanges, item),
        0 <= earlier < later < image_formats().len(),
        mime_types.contains(image_formats()[earlier].mime()),
        0 <= j < exchanges.len(),
        exchanges[j].mime_type == image_formats()[later].mime(),
    ensures
        exists|i: int|
            {
                &&& 0 <= i < j
                &&& (#[trigger] exchanges[i]).mime_type == image_formats()[earlier].mime()
                &&& exchanges[i].reply is None
            },
{
    let formats = image_formats();
    let all = offered(mime_types, formats);
    law_image_formats_are_complete(ImageFormat::Png);
    lemma_offered_once(mime_types, formats);
    law_image_mime_types(all[j]);
    law_image_mime_types(formats[later]);
    assert(all[j] == formats[later]);
    assert(all.contains(all[j]));
    law_formats_on_offer_are_asked_for(mime_types, formats, all[j]);
    lemma_offered_position(mime_types, formats, earlier);
    lemma_offered_position(mime_types, formats, later);
    let i = offered(mime_types, formats.take(earlier)).len() as int;
    let k = offered(mime_types, formats.take(later)).len() as int;
    assert(all[k] == all[j]);
    assert(k == j);
    lemma_offered_prefix(mime_types, formats.take(later), earlier + 1);
    assert(formats.take(later).take(earlier + 1) =~= formats.take(earlier + 1));
    assert(i < j);
    assert(exchanges[i].mime_type == formats[earlier].mime());
}

/// A raw read gives every payload that came, under its type, and nothing else. It gives nothing
/// only where no payload came.
pub proof fn law_raw_read_gives_every_payload(
    mime_types: Seq<Seq<char>>,
    exchanges: Seq<Exchange>,
    raw: Option<Seq<RawEntryView>>,
    entry: RawEntryView,
)
    requires
        raw_read(mime_types, exchanges, raw),
    ensures
        raw is Some && raw->0.contains(entry) <==> exists|i: int|
            {
                &&& 0 <= i < exchanges.len()
                &&& (#[trigger] exchanges[i]).mime_type == entry.format
                &&& exchanges[i].reply == Some(entry.bytes)
            },
        raw is None <==> forall|i: int|
            0 <= i < exchanges.len() ==> (#[trigger] exchanges[i]).reply is None,
{
    let replies = replies_got(exchanges);
    law_raw_read_asks_for_every_type(mime_types, exchanges, raw);
    if raw is Some && raw->0.contains(entry) {
        law_raw_entries_come_from_the_offer(mime_types, replies, entry);
        let i = choose|i: int|
            0 <= i < mime_types.len() && #[trigger] mime_types[i] == entry.format && replies[i]
                == Some(entry.bytes);
        assert(exchanges[i].mime_type == entry.format);
    }
    if exists|i: int|
        {
            &&& 0 <= i < exchanges.len()
            &&& (#[trigger] exchanges[i]).mime_type == entry.format
            &&& exchanges[i].reply == Some(entry.bytes)
        } {
        let i = choose|i: int|
            {
                &&& 0 <= i < exchanges.len()
                &&& (#[trigger] exchanges[i]).mime_type == entry.format
                &&& exchanges[i].reply == Some(entry.bytes)
            };
        lemma_raw_entries_contain(mime_types, replies, i);
    }
    if raw is Some {
        let first = raw->0[0];
        assert(raw_entries(mime_types, replies).contains(first));
        law_raw_entries_come_from_the_offer(mime_types, replies, first);
        let i = choose|i: int|
            0 <= i < mime_types.len() && #[trigger] mime_types[i] == first.format && replies[i]
                == Some(first.bytes);
        assert(exchanges[i].reply is Some);
    }
    assert forall|i: int| 0 <= i < exchanges.len() && (#[trigger] exchanges[i]).reply is Some implies
        raw is Some by {
        lemma_raw_entries_contain(mime_types, replies, i);
    }
}

/// A payload that came is in the raw item, under its type.
proof fn lemma_raw_entries_contain(
    mime_types: Seq<Seq<char>>,
    replies: Seq<Option<Seq<u8>>>,
    i: int,
)
    requires
        mime_types.len() == replies.len(),
        0 <= i < replies.len(),
        replies[i] is Some,
    ensures
        raw_entries(mime_types, replies).contains(
            RawEntryView { format: mime_types[i], bytes: replies[i]->0 },
        ),
    decreases mime_types.len(),
{
    let entry = RawEntryView { format: mime_types[i], bytes: replies[i]->0 };
    let all = raw_entries(mime_types, replies);
    if i == replies.len() - 1 {
        assert(all[all.len() - 1] == entry);
    } else {
        lemma_raw_entries_contain(mime_types.drop_last(), replies.drop_last(), i);
        let rest = raw_entries(mime_types.drop_last(), replies.drop_last());
        let k = choose|k: int| 0 <= k < rest.len() && rest[k] == entry;
        assert(all[k] == entry);
    }
}

/// Reading the text of an offer whose first accepted type has the encoding of a text as its
/// payload gives that text, with its line endings normalized, after that one request.
pub proof fn law_offered_text_is_read<T, F: FnMut(&str) -> Option<Vec<u8>>>(
    offer: DataOffer<T>,
    reader: &mut Reader<F>,
    item: Option<ClipboardItem>,
    chars: Seq<char>,
)
    requires
        call_ensures(DataOffer::<T>::read_text::<F>, (&offer, reader), item),
    ensures
        final(reader)@.exchanges.len() <= old(reader)@.exchanges.len() + 1,
        final(reader)@.exchanges.take(old(reader)@.exchanges.len() as int)
            == old(reader)@.exchanges,
        item is Some ==> final(reader)@.exchanges.len() == old(reader)@.exchanges.len() + 1,
        (exists|i: int|
            0 <= i < offer@.mime_types.len() && (#[trigger] offer@.mime_types[i]
                == "text/plain;charset=utf-8"@ || offer@.mime_types[i] == "UTF8_STRING"@))
            ==> final(reader)@.exchanges.len() == old(reader)@.exchanges.len() + 1,
        final(reader)@.exchanges.len() > old(reader)@.exchanges.len()
            && final(reader)@.exchanges.last().reply == Some(encode_utf8(chars)) ==> {
            &&& item matches Some(item)
            &&& item@ == seq![EntryView::String(unix_text(chars))]
        },
        final(reader)@.exchanges.len() > old(reader)@.exchanges.len()
            && final(reader)@.exchanges.last().reply is None ==> item is None,
{
    let made = final(reader)@.since(old(reader)@);
    law_text_read_gives_the_first_text(offer@.mime_types, made, opt_view(item), chars);
    law_record_holds_every_request(old(reader)@, final(reader)@);
    assert(final(reader)@.exchanges.take(old(reader)@.exchanges.len() as int)
        =~= old(reader)@.exchanges);
    if made.len() > 0 {
        assert(final(reader)@.exchanges.last() == made[0]);
    }
}

/// Reading the image of an offer gives nothing only where none of the image types on offer has
/// a payload: each of them was asked for. Otherwise it gives the payload that came, as an image
/// in the format that it came in.
pub proof fn law_offered_images_are_read<T, F: FnMut(&str) -> Option<Vec<u8>>>(
    offer: DataOffer<T>,
    reader: &mut Reader<F>,
    item: Option<ClipboardItem>,
    format: ImageFormat,
)
    requires
        call_ensures(DataOffer::<T>::read_image::<F>, (&offer, reader), item),
        offer@.mime_types.contains(format.mime()),
    ensures
        final(reader)@.exchanges.len() > old(reader)@.exchanges.len(),
        final(reader)@.exchanges.last().reply is Some <==> item is Some,
        item is None ==> exists|i: int|
            {
                &&& old(reader)@.exchanges.len() <= i < final(reader)@.exchanges.len()
                &&& (#[trigger] final(reader)@.exchanges[i]).mime_type == format.mime()
                &&& final(reader)@.exchanges[i].reply is None
            },
        item matches Some(item) ==> {
            &&& item@.len() == 1
            &&& item@[0] matches EntryView::Image { format, bytes, id }
            &&& final(reader)@.exchanges.last().mime_type == format.mime()
            &&& final(reader)@.exchanges.last().reply == Some(bytes)
            &&& id == content_hash(bytes)
        },
{
    let made = final(reader)@.since(old(reader)@);
    let start = old(reader)@.exchanges.len() as int;
    law_image_read_gives_the_payload(offer@.mime_types, made, opt_view(item));
    law_image_read_asks_for_every_format_on_offer(offer@.mime_types, made, opt_view(item));
    law_record_holds_every_request(old(reader)@, final(reader)@);
    if item is None {
        let k = choose|k: int|
            0 <= k < types_asked(made).len() && types_asked(made)[k] == format.mime();
        assert(made[k].reply is None);
        assert(final(reader)@.exchanges[start + k] == made[k]);
    }
    assert(made.len() > 0);
    assert(final(reader)@.exchanges.last() == made.last());
    if item is None {
        assert(made[made.len() - 1].reply is None);
    }
}

/// Reading every payload of an offer asks for each announced type, as often as it was announced
/// and in that order, and gives every payload that came, under its type.
pub proof fn law_offered_payloads_are_read<T, F: FnMut(&str) -> Option<Vec<u8>>>(
    offer: DataOffer<T>,
    reader: &mut Reader<F>,
    raw: Option<RawClipboardItem>,
    i: int,
)
    requires
        call_ensures(DataOffer::<T>::read_raw_with::<F>, (&offer, reader), raw),
        0 <= i < offer@.mime_types.len(),
    ensures
        final(reader)@.exchanges.len() == old(reader)@.exchanges.len() + offer@.mime_types.len(),
        ({
            let exchange = final(reader)@.exchanges[old(reader)@.exchanges.len() + i];
            &&& exchange.mime_type == offer@.mime_types[i]
            &&& exchange.reply matches Some(bytes) ==> raw is Some && raw->0@.contains(
                RawEntryView { format: offer@.mime_types[i], bytes },
            )
        }),
{
    let made = final(reader)@.since(old(reader)@);
    law_record_holds_every_request(old(reader)@, final(reader)@);
    law_raw_read_asks_for_every_type(offer@.mime_types, made, opt_view(raw));
    assert(made[i] == final(reader)@.exchanges[old(reader)@.exchanges.len() + i]);
    if let Some(bytes) = made[i].reply {
        law_raw_read_gives_every_payload(
            offer@.mime_types,
            made,
            opt_view(raw),
            RawEntryView { format: offer@.mime_types[i], bytes },
        );
    }
}

} // verus!
