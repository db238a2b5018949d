//! Reading every payload of a browser clipboard, one request at a time.
//!
//! A browser hands out items, each with a list of types, and gives the payload of a type
//! only when it is asked for it. [`RawItemsRead`] says what to ask for next and collects
//! the replies.

use vstd::prelude::*;

use crate::convert::{non_empty, non_empty_raw};
use crate::item::{RawClipboardEntry, RawClipboardItem, RawEntryView};
use crate::text::{opt_view, quoted_text};
use crate::web::{
    get_type_words, js_error, js_failure, open_blob_words, JsAction, JsFailure, WebError,
    WebErrorView,
};

verus! {

broadcast use vstd::std_specs::vec::group_vec_axioms;

/// What to ask the browser for.
#[derive(Debug, PartialEq, Eq)]
pub enum ItemsRequest {
    /// The types of the item with this index.
    OpenItem(usize),
    /// The payload of this type, of the item with this index.
    FetchPayload { item: usize, mime_type: String },
    /// Nothing more.
    Finished,
}

/// What to ask the browser for.
pub enum ItemsRequestView {
    OpenItem(int),
    FetchPayload { item: int, mime_type: Seq<char> },
    Finished,
}

impl View for ItemsRequest {
    type V = ItemsRequestView;

    open spec fn view(&self) -> ItemsRequestView {
        match self {
            ItemsRequest::OpenItem(item) => ItemsRequestView::OpenItem(*item as int),
            ItemsRequest::FetchPayload { item, mime_type } => ItemsRequestView::FetchPayload {
                item: *item as int,
                mime_type: mime_type@,
            },
            ItemsRequest::Finished => ItemsRequestView::Finished,
        }
    }
}

/// What came of fetching a payload.
#[derive(Debug, PartialEq, Eq)]
pub enum PayloadReply {
    /// The payload.
    Bytes(Vec<u8>),
    /// The browser did not hand out the payload.
    GetTypeFailed(JsFailure),
    /// What the browser handed out is no blob.
    NotABlob(JsFailure),
    /// The bytes of the blob could not be had.
    ReadBlobFailed(JsFailure),
}

/// How far a read is.
pub struct ItemsView {
    /// How many items there are.
    pub item_count: int,
    /// How many of them were opened.
    pub opened: int,
    /// The types of the item that was opened last whose payload is still to be fetched.
    pub pending: Seq<Seq<char>>,
    /// The payloads that were fetched.
    pub entries: Seq<RawEntryView>,
}

/// Those of the types that are strings.
pub open spec fn string_types(types: Seq<Option<Seq<char>>>) -> Seq<Seq<char>> {
    types.filter_map(|mime_type: Option<Seq<char>>| mime_type)
}

impl ItemsView {
    /// A read of which nothing was done yet.
    pub open spec fn start(item_count: int) -> ItemsView {
        ItemsView { item_count, opened: 0, pending: Seq::empty(), entries: Seq::empty() }
    }

    /// Types are pending only for an item that was opened.
    pub open spec fn wf(self) -> bool {
        &&& 0 <= self.opened <= self.item_count
        &&& self.pending.len() > 0 ==> self.opened > 0
    }

    /// What to ask for next: the payloads of an item before the next item.
    pub open spec fn request(self) -> ItemsRequestView {
        if self.pending.len() > 0 {
            ItemsRequestView::FetchPayload { item: self.opened - 1, mime_type: self.pending[0] }
        } else if self.opened < self.item_count {
            ItemsRequestView::OpenItem(self.opened)
        } else {
            ItemsRequestView::Finished
        }
    }

    /// The read after an item was opened.
    pub open spec fn after_open(self, types: Seq<Option<Seq<char>>>) -> ItemsView {
        ItemsView { opened: self.opened + 1, pending: string_types(types), ..self }
    }

    /// The read after a payload was fetched.
    pub open spec fn after_fetch(self, bytes: Seq<u8>) -> ItemsView {
        ItemsView {
            pending: self.pending.drop_first(),
            entries: self.entries.push(RawEntryView { format: self.pending[0], bytes }),
            ..self
        }
    }
}

/// The types of an item as they read.
pub open spec fn types_view(types: Seq<Option<String>>) -> Seq<Option<Seq<char>>> {
    types.map_values(|mime_type: Option<String>| opt_view(mime_type))
}

/// A read of every payload on the clipboard.
#[derive(Debug, PartialEq, Eq)]
pub struct RawItemsRead {
    item_count: usize,
    opened: usize,
    types: Vec<String>,
    fetched: usize,
    entries: Vec<RawClipboardEntry>,
}

impl View for RawItemsRead {
    type V = ItemsView;

    closed spec fn view(&self) -> ItemsView {
        ItemsView {
            item_count: self.item_count as int,
            opened: self.opened as int,
            pending: self.types@.map_values(|mime_type: String| mime_type@).skip(
                self.fetched as int,
            ),
            entries: self.entries@.map_values(|entry: RawClipboardEntry| entry@),
        }
    }
}

impl RawItemsRead {
    #[verifier::type_invariant]
    spec fn inv(self) -> bool {
        &&& self.opened <= self.item_count
        &&& self.fetched <= self.types@.len()
        &&& self.fetched < self.types@.len() ==> self.opened > 0
    }

    /// Starts once `navigator.clipboard.read` has given its items.
    pub fn new(items: Result<usize, JsFailure>) -> (read: Result<RawItemsRead, WebError>)
        ensures
            match items {
                Ok(item_count) => read matches Ok(read) && read@ == ItemsView::start(
                    item_count as int,
                ),
                Err(failure) => read matches Err(error) && error@ == js_failure(
                    JsAction::Read,
                    failure,
                ),
            },
    {
        match items {
            Ok(item_count) => {
                let read = RawItemsRead {
                    item_count,
                    opened: 0,
                    types: Vec::new(),
                    fetched: 0,
                    entries: Vec::new(),
                };
                assert(read@.pending =~= Seq::empty());
                assert(read@.entries =~= Seq::empty());
                Ok(read)
            },
            Err(failure) => Err(js_error(JsAction::Read, failure)),
        }
    }

    /// What to ask the browser for next.
    pub fn request(&self) -> (request: ItemsRequest)
        ensures
            self@.wf(),
            request@ == self@.request(),
    {
        proof {
            use_type_invariant(self);
        }
        if self.fetched < self.types.len() {
            ItemsRequest::FetchPayload {
                item: self.opened - 1,
                mime_type: self.types[self.fetched].clone(),
            }
        } else if self.opened < self.item_count {
            ItemsRequest::OpenItem(self.opened)
        } else {
            ItemsRequest::Finished
        }
    }

    /// Takes the types of the item that was asked for, where they are strings, or the
    /// failure to take it for a clipboard item.
    pub fn item_opened(&mut self, reply: Result<Vec<Option<String>>, JsFailure>) -> (result: Result<
        (),
        WebError,
    >)
        requires
            old(self)@.request() is OpenItem,
        ensures
            match reply {
                Ok(types) => {
                    &&& result is Ok
                    &&& final(self)@ == old(self)@.after_open(types_view(types@))
                },
                Err(failure) => {
                    &&& result matches Err(error) && error@ == js_failure(
                        JsAction::OpenItem,
                        failure,
                    )
                    &&& final(self)@ == old(self)@
                },
            },
    {
        proof {
            use_type_invariant(&*self);
        }
        match reply {
            Ok(types) => {
                let ghost all = types@;
                let ghost given = types_view(types@);
                let mut strings: Vec<String> = Vec::new();
                assert(strings@.map_values(|mime_type: String| mime_type@) =~= string_types(
                    given.take(0),
                ));
                for mime_type in iter: types
                    invariant
                        iter.seq() == all,
                        given == types_view(all),
                        strings@.map_values(|mime_type: String| mime_type@) == string_types(
                            given.take(iter.index() as int),
                        ),
                {
                    let ghost i = iter.index() as int;
                    let ghost before = strings@.map_values(|mime_type: String| mime_type@);
                    proof {
                        given.lemma_filter_map_take_succ(
                            |mime_type: Option<Seq<char>>| mime_type,
                            i,
                        );
                        assert(given[i] == opt_view(mime_type));
                    }
                    if let Some(mime_type) = mime_type {
                        strings.push(mime_type);
                        assert(strings@.map_values(|mime_type: String| mime_type@) =~= before.push(
                            mime_type@,
                        ));
                    }
                }
                assert(given.take(given.len() as int) =~= given);
                self.opened = self.opened + 1;
                self.fetched = 0;
                self.types = strings;
                assert(self@.pending =~= string_types(given));
                Ok(())
            },
            Err(failure) => Err(js_error(JsAction::OpenItem, failure)),
        }
    }

    /// Takes the payload that was asked for, or the failure to get it.
    pub fn payload_fetched(&mut self, reply: PayloadReply) -> (result: Result<(), WebError>)
        requires
            old(self)@.request() is FetchPayload,
        ensures
            match reply {
                PayloadReply::Bytes(bytes) => {
                    &&& result is Ok
                    &&& final(self)@ == old(self)@.after_fetch(bytes@)
                },
                PayloadReply::GetTypeFailed(failure) => {
                    &&& result matches Err(error) && error@ == (WebErrorView::Js {
                        action: get_type_words(quoted_text(old(self)@.pending[0])),
                        message: failure.described(),
                    })
                    &&& final(self)@ == old(self)@
                },
                PayloadReply::NotABlob(failure) => {
                    &&& result matches Err(error) && error@ == (WebErrorView::Js {
                        action: open_blob_words(quoted_text(old(self)@.pending[0])),
                        message: failure.described(),
                    })
                    &&& final(self)@ == old(self)@
                },
                PayloadReply::ReadBlobFailed(failure) => {
                    &&& result matches Err(error) && error@ == js_failure(
                        JsAction::ReadBlob,
                        failure,
                    )
                    &&& final(self)@ == old(self)@
                },
            },
    {
        proof {
            use_type_invariant(&*self);
        }
        let mime_type = self.types[self.fetched].clone();
        assert(mime_type@ == self@.pending[0]);
        match reply {
            PayloadReply::Bytes(bytes) => {
                let mut entries: Vec<RawClipboardEntry> = Vec::new();
                std::mem::swap(&mut entries, &mut self.entries);
                entries.push(RawClipboardEntry { format: mime_type, bytes });
                self.entries = entries;
                assert(self.fetched < self.types.len());
                self.fetched = self.fetched + 1;
                assert(self@.pending =~= old(self)@.pending.drop_first());
                assert(self@.entries =~= old(self)@.after_fetch(bytes@).entries);
                Ok(())
            },
            PayloadReply::GetTypeFailed(failure) => Err(
                js_error(JsAction::GetType(mime_type), failure),
            ),
            PayloadReply::NotABlob(failure) => Err(
                js_error(JsAction::OpenBlob(mime_type), failure),
            ),
            PayloadReply::ReadBlobFailed(failure) => Err(js_error(JsAction::ReadBlob, failure)),
        }
    }

    /// The raw item that was read, unless there was nothing on the clipboard.
    pub fn finish(self) -> (raw: Option<RawClipboardItem>)
        requires
            self@.request() is Finished,
        ensures
            opt_view(raw) == non_empty(self@.entries),
    {
        non_empty_raw(self.entries)
    }
}

/// What the browser replies: the types of an item, by the index of the item.
pub type TypeReplies = spec_fn(int) -> Result<Seq<Option<Seq<char>>>, WebErrorView>;

/// What the browser replies: a payload, by the index of the item and the type.
pub type PayloadReplies = spec_fn(int, Seq<char>) -> Result<Seq<u8>, WebErrorView>;

/// What a read gives if its requests get these replies one after the other. The first
/// failure ends it.
pub open spec fn outcome(read: ItemsView, types: TypeReplies, bytes: PayloadReplies) -> Result<
    Option<Seq<RawEntryView>>,
    WebErrorView,
>
    decreases read.item_count - read.opened, read.pending.len(),
{
    match read.request() {
        ItemsRequestView::OpenItem(item) => match types(item) {
            Ok(got) => outcome(read.after_open(got), types, bytes),
            Err(error) => Err(error),
        },
        ItemsRequestView::FetchPayload { item, mime_type } => match bytes(item, mime_type) {
            Ok(got) => outcome(read.after_fetch(got), types, bytes),
            Err(error) => Err(error),
        },
        ItemsRequestView::Finished => Ok(non_empty(read.entries)),
    }
}

/// Payloads followed by more payloads, unless those failed.
pub open spec fn followed_by(
    first: Seq<RawEntryView>,
    rest: Result<Seq<RawEntryView>, WebErrorView>,
) -> Result<Seq<RawEntryView>, WebErrorView> {
    match rest {
        Ok(rest) => Ok(first + rest),
        Err(error) => Err(error),
    }
}

/// The payloads of an item under these types, in order, or the first failure.
pub open spec fn payloads(item: int, mime_types: Seq<Seq<char>>, bytes: PayloadReplies) -> Result<
    Seq<RawEntryView>,
    WebErrorView,
>
    decreases mime_types.len(),
{
    if mime_types.len() == 0 {
        Ok(Seq::empty())
    } else {
        match bytes(item, mime_types[0]) {
            Ok(got) => followed_by(
                seq![RawEntryView { format: mime_types[0], bytes: got }],
                payloads(item, mime_types.drop_first(), bytes),
            ),
            Err(error) => Err(error),
        }
    }
}

/// The payloads of the items from `first` on, item by item, or the first failure.
pub open spec fn all_payloads(
    first: int,
    item_count: int,
    types: TypeReplies,
    bytes: PayloadReplies,
) -> Result<Seq<RawEntryView>, WebErrorView>
    decreases item_count - first,
{
    if first >= item_count {
        Ok(Seq::empty())
    } else {
        match types(first) {
            Ok(got) => match payloads(first, string_types(got), bytes) {
                Ok(entries) => followed_by(
                    entries,
                    all_payloads(first + 1, item_count, types, bytes),
                ),
                Err(error) => Err(error),
            },
            Err(error) => Err(error),
        }
    }
}

/// What is still to come: the payloads that are pending, then the items that were not opened.
spec fn to_come(read: ItemsView, types: TypeReplies, bytes: PayloadReplies) -> Result<
    Seq<RawEntryView>,
    WebErrorView,
> {
    match payloads(read.opened - 1, read.pending, bytes) {
        Ok(entries) => followed_by(
            entries,
            all_payloads(read.opened, read.item_count, types, bytes),
        ),
        Err(error) => Err(error),
    }
}

/// A read gives what it has and then what is still to come.
proof fn lemma_outcome(read: ItemsView, types: TypeReplies, bytes: PayloadReplies)
    requires
        read.wf(),
    ensures
        outcome(read, types, bytes) == (match to_come(read, types, bytes) {
            Ok(rest) => Ok(non_empty(read.entries + rest)),
            Err(error) => Err(error),
        }),
    decreases read.item_count - read.opened, read.pending.len(),
{
    match read.request() {
        ItemsRequestView::OpenItem(item) => {
            if let Ok(got) = types(item) {
                let next = read.after_open(got);
                lemma_outcome(next, types, bytes);
                if let Ok(rest) = all_payloads(read.opened, read.item_count, types, bytes) {
                    assert(Seq::<RawEntryView>::empty() + rest =~= rest);
                }
            }
        },
        ItemsRequestView::FetchPayload { item, mime_type } => {
            if let Ok(got) = bytes(item, mime_type) {
                let next = read.after_fetch(got);
                lemma_outcome(next, types, bytes);
                if let Ok(rest) = to_come(next, types, bytes) {
                    let entry = RawEntryView { format: mime_type, bytes: got };
                    assert(read.entries + (seq![entry] + rest) =~= next.entries + rest);
                    let pending = payloads(read.opened - 1, next.pending, bytes)->Ok_0;
                    let behind = all_payloads(read.opened, read.item_count, types, bytes)->Ok_0;
                    assert((seq![entry] + pending) + behind =~= seq![entry] + (pending + behind));
                }
            }
        },
        ItemsRequestView::Finished => {
            assert(read.entries + (Seq::<RawEntryView>::empty() + Seq::<RawEntryView>::empty())
                =~= read.entries);
        },
    }
}

/// A read gives every payload of every item, each under its type, item by item and type by
/// type, or nothing where there is none. If anything fails, it gives the first failure and no
/// payloads at all.
pub proof fn law_read_collects_every_payload(
    item_count: int,
    types: TypeReplies,
    bytes: PayloadReplies,
)
    requires
        0 <= item_count,
    ensures
        outcome(ItemsView::start(item_count), types, bytes) == (match all_payloads(
            0,
            item_count,
            types,
            bytes,
        ) {
            Ok(entries) => Ok(non_empty(entries)),
            Err(error) => Err(error),
        }),
{
    let start = ItemsView::start(item_count);
    lemma_outcome(start, types, bytes);
    if let Ok(entries) = all_payloads(0, item_count, types, bytes) {
        assert(Seq::<RawEntryView>::empty() + (Seq::<RawEntryView>::empty() + entries) =~= entries);
    }
}

/// Every type that is a string counts, in order and as often as it is listed: the strings of
/// two lists together are those of the first, followed by those of the second, and a single
/// type is kept exactly where it is a string.
pub proof fn law_string_types_keep_order(
    first: Seq<Option<Seq<char>>>,
    second: Seq<Option<Seq<char>>>,
    mime_type: Seq<char>,
)
    ensures
        string_types(first + second) == string_types(first) + string_types(second),
        string_types(seq![Some(mime_type)]) == seq![mime_type],
        string_types(seq![None::<Seq<char>>]).len() == 0,
        string_types(Seq::empty()).len() == 0,
    decreases second.len(),
{
    Seq::lemma_filter_map_singleton(
        Some(mime_type),
        |mime_type: Option<Seq<char>>| mime_type,
    );
    Seq::lemma_filter_map_singleton(
        None::<Seq<char>>,
        |mime_type: Option<Seq<char>>| mime_type,
    );
    if second.len() == 0 {
        assert(first + second =~= first);
    } else {
        law_string_types_keep_order(first, second.drop_last(), mime_type);
        assert((first + second).drop_last() =~= first + second.drop_last());
        assert((first + second).last() == second.last());
    }
}

/// Where all the types are strings, all of them count, each in its place.
pub proof fn law_every_string_type_counts(types: Seq<Option<Seq<char>>>)
    requires
        forall|i: int| 0 <= i < types.len() ==> (#[trigger] types[i]) is Some,
    ensures
        string_types(types).len() == types.len(),
        forall|i: int| 0 <= i < types.len() ==> #[trigger] string_types(types)[i] == types[i]->0,
    decreases types.len(),
{
    if types.len() > 0 {
        let rest = types.drop_last();
        assert forall|i: int| 0 <= i < rest.len() implies (#[trigger] rest[i]) is Some by {
            assert(types[i] is Some);
        }
        law_every_string_type_counts(rest);
        assert(types[types.len() - 1] is Some);
        assert(string_types(types) =~= string_types(rest).push(types.last()->0));
        assert forall|i: int| 0 <= i < rest.len() implies string_types(rest)[i]
            == #[trigger] string_types(types)[i] && rest[i] == types[i] by {}
    }
}

/// A type counts exactly where it is among the types, as a string.
proof fn lemma_string_types_contain(types: Seq<Option<Seq<char>>>, mime_type: Seq<char>)
    ensures
        string_types(types).contains(mime_type) <==> types.contains(Some(mime_type)),
    decreases types.len(),
{
    if types.len() > 0 {
        let rest = types.drop_last();
        lemma_string_types_contain(rest, mime_type);
        law_string_types_keep_order(rest, seq![types.last()], mime_type);
        assert(types =~= rest + seq![types.last()]);
        if let Some(last) = types.last() {
            law_string_types_keep_order(rest, rest, last);
            assert(string_types(types) =~= string_types(rest).push(last));
            if types.contains(Some(mime_type)) {
                let k = choose|k: int| 0 <= k < types.len() && types[k] == Some(mime_type);
                if k < rest.len() {
                    assert(rest[k] == Some(mime_type));
                    let n = choose|n: int|
                        0 <= n < string_types(rest).len() && string_types(rest)[n] == mime_type;
                    assert(string_types(types)[n] == mime_type);
                } else {
                    assert(string_types(types)[string_types(rest).len() as int] == mime_type);
                }
            }
        } else {
            assert(string_types(types) =~= string_types(rest));
        }
        if string_types(types).contains(mime_type) {
            let n = choose|n: int|
                0 <= n < string_types(types).len() && string_types(types)[n] == mime_type;
            if n < string_types(rest).len() {
                assert(string_types(rest)[n] == mime_type);
                let k = choose|k: int| 0 <= k < rest.len() && rest[k] == Some(mime_type);
                assert(types[k] == Some(mime_type));
            } else {
                assert(types[types.len() - 1] == Some(mime_type));
            }
        }
        if types.contains(Some(mime_type)) && types.last() is None {
            let k = choose|k: int| 0 <= k < types.len() && types[k] == Some(mime_type);
            assert(rest[k] == Some(mime_type));
        }
    }
}

/// A read starts with nothing done, for as many items as there are. A refusal says that
/// reading was refused, and why.
pub proof fn law_reads_start_with_every_item(
    items: Result<usize, JsFailure>,
    read: Result<RawItemsRead, WebError>,
    said: String,
)
    requires
        call_ensures(RawItemsRead::new, (items,), read),
        items is Err ==> call_ensures(JsFailure::describe, (items->Err_0,), said),
    ensures
        items matches Ok(item_count) ==> {
            &&& read is Ok
            &&& read->Ok_0@.item_count == item_count
            &&& read->Ok_0@.opened == 0
            &&& read->Ok_0@.pending.len() == 0
            &&& read->Ok_0@.entries.len() == 0
        },
        items is Err ==> {
            &&& read matches Err(WebError::Js { action, message })
            &&& action@ == "navigator.clipboard.read failed"@
            &&& message@ == said@
        },
{
}

/// The payloads of the item that was opened last are asked for before the next item, in the
/// order of its types. A read is finished once nothing is pending and every item was opened.
pub proof fn law_requests_go_item_by_item(read: RawItemsRead, request: ItemsRequest)
    requires
        call_ensures(RawItemsRead::request, (&read,), request),
    ensures
        read@.pending.len() > 0 ==> {
            &&& request matches ItemsRequest::FetchPayload { item, mime_type }
            &&& item == read@.opened - 1
            &&& mime_type@ == read@.pending[0]
        },
        read@.pending.len() == 0 && read@.opened < read@.item_count ==> {
            &&& request matches ItemsRequest::OpenItem(item)
            &&& item == read@.opened
        },
        read@.pending.len() == 0 && read@.opened >= read@.item_count ==> request is Finished,
        read@.pending.len() > 0 <==> read@.request() is FetchPayload,
        read@.pending.len() == 0 && read@.opened < read@.item_count <==> read@.request()
            is OpenItem,
{
}

/// Once an item was opened, every type of it that is a string is pending, in order and as
/// often as it is listed. What was fetched before stays, and a failure changes nothing.
pub proof fn law_opened_items_have_all_their_types_pending(
    read: &mut RawItemsRead,
    reply: Result<Vec<Option<String>>, JsFailure>,
    result: Result<(), WebError>,
    said: String,
)
    requires
        call_ensures(RawItemsRead::item_opened, (read, reply), result),
        reply is Err ==> call_ensures(JsFailure::describe, (reply->Err_0,), said),
    ensures
        final(read)@.item_count == old(read)@.item_count,
        final(read)@.entries == old(read)@.entries,
        result is Ok <==> reply is Ok,
        reply matches Ok(types) ==> {
            &&& final(read)@.opened == old(read)@.opened + 1
            &&& forall|mime_type: Seq<char>|
                #![trigger final(read)@.pending.contains(mime_type)]
                final(read)@.pending.contains(mime_type) <==> exists|i: int|
                    {
                        &&& 0 <= i < types@.len()
                        &&& (#[trigger] types@[i]) is Some
                        &&& types@[i]->0@ == mime_type
                    }
            &&& (forall|i: int| 0 <= i < types@.len() ==> (#[trigger] types@[i]) is Some) ==> {
                &&& final(read)@.pending.len() == types@.len()
                &&& forall|i: int|
                    0 <= i < types@.len() ==> #[trigger] final(read)@.pending[i]
                        == types@[i]->0@
            }
        },
        reply is Err ==> {
            &&& final(read)@.opened == old(read)@.opened
            &&& final(read)@.pending == old(read)@.pending
            &&& result matches Err(WebError::Js { action, message })
            &&& action@ == "clipboard.read returned a non-ClipboardItem"@
            &&& message@ == said@
        },
{
    if let Ok(types) = reply {
        let given = types_view(types@);
        assert forall|mime_type: Seq<char>|
            #![trigger final(read)@.pending.contains(mime_type)]
            final(read)@.pending.contains(mime_type) <==> exists|i: int|
                {
                    &&& 0 <= i < types@.len()
                    &&& (#[trigger] types@[i]) is Some
                    &&& types@[i]->0@ == mime_type
                } by {
            lemma_string_types_contain(given, mime_type);
            if given.contains(Some(mime_type)) {
                let k = choose|k: int| 0 <= k < given.len() && given[k] == Some(mime_type);
                assert(types@[k] is Some && types@[k]->0@ == mime_type);
            }
            if exists|i: int|
                {
                    &&& 0 <= i < types@.len()
                    &&& (#[trigger] types@[i]) is Some
                    &&& types@[i]->0@ == mime_type
                } {
                let i = choose|i: int|
                    {
                        &&& 0 <= i < types@.len()
                        &&& (#[trigger] types@[i]) is Some
                        &&& types@[i]->0@ == mime_type
                    };
                assert(given[i] == Some(mime_type));
            }
        }
        if forall|i: int| 0 <= i < types@.len() ==> (#[trigger] types@[i]) is Some {
            assert forall|i: int| 0 <= i < given.len() implies (#[trigger] given[i]) is Some by {
                assert(types@[i] is Some);
            }
            law_every_string_type_counts(given);
            assert forall|i: int| 0 <= i < types@.len() implies #[trigger] final(read)@.pending[i]
                == types@[i]->0@ by {
                assert(types@[i] is Some);
                assert(given[i] == Some(types@[i]->0@));
            }
        }
    }
}

/// A payload that was fetched is kept as it is, under the type that it was asked for, behind
/// those before it, and that type is no longer pending. A failure changes nothing, and the
/// error says what failed and why.
pub proof fn law_fetched_payloads_are_kept(
    read: &mut RawItemsRead,
    reply: PayloadReply,
    result: Result<(), WebError>,
)
    requires
        call_ensures(RawItemsRead::payload_fetched, (read, reply), result),
        old(read)@.pending.len() > 0,
    ensures
        final(read)@.item_count == old(read)@.item_count,
        final(read)@.opened == old(read)@.opened,
        result is Ok <==> reply is Bytes,
        reply matches PayloadReply::Bytes(bytes) ==> {
            &&& final(read)@.entries.len() == old(read)@.entries.len() + 1
            &&& final(read)@.entries.drop_last() == old(read)@.entries
            &&& final(read)@.entries.last().format == old(read)@.pending[0]
            &&& final(read)@.entries.last().bytes == bytes@
            &&& final(read)@.pending == old(read)@.pending.skip(1)
        },
        !(reply is Bytes) ==> {
            &&& final(read)@.entries == old(read)@.entries
            &&& final(read)@.pending == old(read)@.pending
            &&& result->Err_0 is Js
        },
        reply matches PayloadReply::GetTypeFailed(failure) ==> {
            &&& result->Err_0->action@ == "ClipboardItem.getType("@ + quoted_text(
                old(read)@.pending[0],
            ) + ") failed"@
            &&& result->Err_0->message@ == failure.described()
        },
        reply matches PayloadReply::NotABlob(failure) ==> {
            &&& result->Err_0->action@ == "ClipboardItem.getType("@ + quoted_text(
                old(read)@.pending[0],
            ) + ") did not return a Blob"@
            &&& result->Err_0->message@ == failure.described()
        },
        reply matches PayloadReply::ReadBlobFailed(failure) ==> {
            &&& result->Err_0->action@ == "Blob.arrayBuffer failed"@
            &&& result->Err_0->message@ == failure.described()
        },
{
    if reply is Bytes {
        assert(final(read)@.entries.drop_last() =~= old(read)@.entries);
        assert(final(read)@.pending =~= old(read)@.pending.skip(1));
    }
}

/// What a finished read gives is every payload that it kept, and nothing only where it kept
/// none.
pub proof fn law_finished_reads_give_every_payload(
    read: RawItemsRead,
    raw: Option<RawClipboardItem>,
)
    requires
        call_ensures(RawItemsRead::finish, (read,), raw),
    ensures
        raw is None <==> read@.entries.len() == 0,
        raw matches Some(raw) ==> raw@ == read@.entries,
{
}

/// The payloads of an item can all be had exactly where each of them can, and then each of
/// them is there, under its type and in the place of its type.
proof fn lemma_payloads(item: int, mime_types: Seq<Seq<char>>, bytes: PayloadReplies)
    ensures
        payloads(item, mime_types, bytes) is Ok <==> forall|i: int|
            0 <= i < mime_types.len() ==> bytes(item, #[trigger] mime_types[i]) is Ok,
        payloads(item, mime_types, bytes) matches Ok(entries) ==> {
            &&& entries.len() == mime_types.len()
            &&& forall|i: int|
                0 <= i < mime_types.len() ==> #[trigger] entries[i] == (RawEntryView {
                    format: mime_types[i],
                    bytes: bytes(item, mime_types[i])->Ok_0,
                })
        },
    decreases mime_types.len(),
{
    if mime_types.len() > 0 {
        let rest = mime_types.drop_first();
        lemma_payloads(item, rest, bytes);
        assert forall|i: int| 0 < i < mime_types.len() implies rest[i - 1]
            == #[trigger] mime_types[i] by {}
        if forall|i: int| 0 <= i < mime_types.len() ==> bytes(item, #[trigger] mime_types[i]) is Ok {
            assert(bytes(item, mime_types[0]) is Ok);
            assert forall|i: int| 0 <= i < rest.len() implies bytes(
                item,
                #[trigger] rest[i],
            ) is Ok by {
                assert(rest[i] == mime_types[i + 1]);
            }
        }
        if payloads(item, mime_types, bytes) is Ok {
            assert forall|i: int| 0 <= i < mime_types.len() implies bytes(
                item,
                #[trigger] mime_types[i],
            ) is Ok by {
                if i > 0 {
                    assert(bytes(item, rest[i - 1]) is Ok);
                }
            }
        }
    }
}

/// The payloads of the items from `first` on can all be had exactly where every item can be
/// opened and each of its payloads can be had, and then each of them is there.
proof fn lemma_all_payloads(
    first: int,
    item_count: int,
    types: TypeReplies,
    bytes: PayloadReplies,
    item: int,
    mime_type: Seq<char>,
)
    requires
        0 <= first <= item < item_count,
        all_payloads(first, item_count, types, bytes) is Ok,
    ensures
        types(item) is Ok,
        types(item)->Ok_0.contains(Some(mime_type)) ==> {
            &&& bytes(item, mime_type) is Ok
            &&& all_payloads(first, item_count, types, bytes)->Ok_0.contains(
                RawEntryView { format: mime_type, bytes: bytes(item, mime_type)->Ok_0 },
            )
        },
    decreases item_count - first,
{
    let all = all_payloads(first, item_count, types, bytes)->Ok_0;
    let here = payloads(first, string_types(types(first)->Ok_0), bytes)->Ok_0;
    let behind = all_payloads(first + 1, item_count, types, bytes)->Ok_0;
    let entry = RawEntryView { format: mime_type, bytes: bytes(item, mime_type)->Ok_0 };
    if item == first {
        let strings = string_types(types(first)->Ok_0);
        lemma_payloads(first, strings, bytes);
        lemma_string_types_contain(types(first)->Ok_0, mime_type);
        if strings.contains(mime_type) {
            let k = choose|k: int| 0 <= k < strings.len() && strings[k] == mime_type;
            assert(here[k] == entry);
            assert(all[k] == entry);
        }
    } else {
        lemma_all_payloads(first + 1, item_count, types, bytes, item, mime_type);
        if types(item)->Ok_0.contains(Some(mime_type)) {
            let k = choose|k: int| 0 <= k < behind.len() && behind[k] == entry;
            assert(all[here.len() + k] == entry);
        }
    }
}

/// A read that comes to an end without a failure has opened every item, and gives the payload
/// of every type of every item that is a string.
pub proof fn law_no_payload_is_left_out(
    item_count: int,
    types: TypeReplies,
    bytes: PayloadReplies,
    item: int,
    mime_type: Seq<char>,
)
    requires
        0 <= item < item_count,
        outcome(ItemsView::start(item_count), types, bytes) is Ok,
    ensures
        types(item) is Ok,
        types(item)->Ok_0.contains(Some(mime_type)) ==> {
            &&& bytes(item, mime_type) is Ok
            &&& outcome(ItemsView::start(item_count), types, bytes)->Ok_0 matches Some(raw)
            &&& raw.contains(
                RawEntryView { format: mime_type, bytes: bytes(item, mime_type)->Ok_0 },
            )
        },
{
    law_read_collects_every_payload(item_count, types, bytes);
    lemma_all_payloads(0, item_count, types, bytes, item, mime_type);
}

/// A read in which nothing fails does not fail.
pub proof fn law_reads_fail_only_with_the_browser(
    item_count: int,
    types: TypeReplies,
    bytes: PayloadReplies,
)
    requires
        0 <= item_count,
        forall|item: int| 0 <= item < item_count ==> (#[trigger] types(item)) is Ok,
        forall|item: int, mime_type: Seq<char>|
            0 <= item < item_count ==> (#[trigger] bytes(item, mime_type)) is Ok,
    ensures
        outcome(ItemsView::start(item_count), types, bytes) is Ok,
{
    law_read_collects_every_payload(item_count, types, bytes);
    lemma_nothing_fails(0, item_count, types, bytes);
}

/// Where nothing fails, the payloads of the items from `first` on can be had.
proof fn lemma_nothing_fails(
    first: int,
    item_count: int,
    types: TypeReplies,
    bytes: PayloadReplies,
)
    requires
        0 <= first,
        forall|item: int| 0 <= item < item_count ==> (#[trigger] types(item)) is Ok,
        forall|item: int, mime_type: Seq<char>|
            0 <= item < item_count ==> (#[trigger] bytes(item, mime_type)) is Ok,
    ensures
        all_payloads(first, item_count, types, bytes) is Ok,
    decreases item_count - first,
{
    if first < item_count {
        assert(types(first) is Ok);
        lemma_payloads(first, string_types(types(first)->Ok_0), bytes);
        lemma_nothing_fails(first + 1, item_count, types, bytes);
    }
}

} // verus!
