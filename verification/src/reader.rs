//! Fetching payloads, with a record of what was asked for.

use vstd::prelude::*;

verus! {

/// One request for a payload and what came of it.
pub struct Exchange {
    /// The type that was asked for.
    pub mime_type: Seq<char>,
    /// The payload, if there was one.
    pub reply: Option<Seq<u8>>,
}

/// The bytes of a reply.
pub open spec fn reply_bytes(reply: Option<Vec<u8>>) -> Option<Seq<u8>> {
    match reply {
        Some(bytes) => Some(bytes@),
        None => None,
    }
}

/// `read_bytes` can give this reply when it is asked for the type.
pub open spec fn can_reply<F: FnMut(&str) -> Option<Vec<u8>>>(
    read_bytes: F,
    mime_type: Seq<char>,
    reply: Option<Seq<u8>>,
) -> bool {
    exists|asked: &str, got: Option<Vec<u8>>|
        #![trigger asked@, reply_bytes(got)]
        {
            &&& asked@ == mime_type
            &&& reply_bytes(got) == reply
            &&& call_ensures(read_bytes, (asked,), got)
        }
}

/// The types that were asked for, in order.
pub open spec fn types_asked(exchanges: Seq<Exchange>) -> Seq<Seq<char>> {
    exchanges.map_values(|exchange: Exchange| exchange.mime_type)
}

/// The replies that came, in order.
pub open spec fn replies_got(exchanges: Seq<Exchange>) -> Seq<Option<Seq<u8>>> {
    exchanges.map_values(|exchange: Exchange| exchange.reply)
}

/// What a reader is: the function that fetches, and every request that was made of it.
pub struct ReaderView<F> {
    /// The function that fetches the payload of a type.
    pub read_bytes: F,
    /// The requests and what came of them, the oldest first.
    pub exchanges: Seq<Exchange>,
}

impl<F: FnMut(&str) -> Option<Vec<u8>>> ReaderView<F> {
    /// The requests that were made since the reader was `before`.
    pub open spec fn since(self, before: ReaderView<F>) -> Seq<Exchange> {
        self.exchanges.skip(before.exchanges.len() as int)
    }

    /// The reader is the one that was `before`, after further requests: each of them got a
    /// reply that the function can give for its type.
    pub open spec fn continues(self, before: ReaderView<F>) -> bool {
        &&& self.read_bytes == before.read_bytes
        &&& before.exchanges.is_prefix_of(self.exchanges)
        &&& forall|i: int|
            before.exchanges.len() <= i < self.exchanges.len() ==> can_reply(
                self.read_bytes,
                (#[trigger] self.exchanges[i]).mime_type,
                self.exchanges[i].reply,
            )
    }
}

/// A function that fetches the payload of a type, and a record of what was asked of it.
///
/// The function can only be called through [`Reader::ask`], which records the request.
pub struct Reader<F> {
    read_bytes: F,
    exchanges: Ghost<Seq<Exchange>>,
}

impl<F> View for Reader<F> {
    type V = ReaderView<F>;

    closed spec fn view(&self) -> ReaderView<F> {
        ReaderView { read_bytes: self.read_bytes, exchanges: self.exchanges@ }
    }
}

impl<F: FnMut(&str) -> Option<Vec<u8>>> Reader<F> {
    /// A reader of which nothing was asked yet.
    pub fn new(read_bytes: F) -> (reader: Reader<F>)
        ensures
            reader@ == (ReaderView { read_bytes, exchanges: Seq::empty() }),
    {
        Reader { read_bytes, exchanges: Ghost(Seq::empty()) }
    }

    /// Fetches the payload of a type, and records the request.
    ///
    /// The record stands for the calls of the function: a contract cannot count those. There is
    /// one call here, and one new request in the record.
    pub fn ask(&mut self, mime_type: &str) -> (reply: Option<Vec<u8>>)
        requires
            call_requires(old(self)@.read_bytes, (mime_type,)),
        ensures
            final(self)@ == (ReaderView {
                read_bytes: old(self)@.read_bytes,
                exchanges: old(self)@.exchanges.push(
                    Exchange { mime_type: mime_type@, reply: reply_bytes(reply) },
                ),
            }),
            call_ensures(old(self)@.read_bytes, (mime_type,), reply),
            final(self)@.continues(old(self)@),
    {
        let reply = (self.read_bytes)(mime_type);
        proof {
            self.exchanges@ = self.exchanges@.push(
                Exchange { mime_type: mime_type@, reply: reply_bytes(reply) },
            );
            assert(can_reply(self.read_bytes, mime_type@, reply_bytes(reply)));
        }
        reply
    }
}

/// Requests add up: those since an earlier moment are those up to a later one, followed by
/// those since that.
pub proof fn law_requests_add_up<F: FnMut(&str) -> Option<Vec<u8>>>(
    first: ReaderView<F>,
    second: ReaderView<F>,
    third: ReaderView<F>,
)
    requires
        second.continues(first),
        third.continues(second),
    ensures
        third.continues(first),
        third.since(first) == second.since(first) + third.since(second),
{
    assert(third.since(first) =~= second.since(first) + third.since(second));
    assert forall|i: int| first.exchanges.len() <= i < third.exchanges.len() implies can_reply(
        third.read_bytes,
        (#[trigger] third.exchanges[i]).mime_type,
        third.exchanges[i].reply,
    ) by {
        if i < second.exchanges.len() {
            assert(third.exchanges[i] == second.exchanges[i]);
        }
    }
}

/// What was asked for since an earlier moment is what the record holds behind what it held
/// then, and each request counts, with its type and its reply.
pub proof fn law_record_holds_every_request<F: FnMut(&str) -> Option<Vec<u8>>>(
    before: ReaderView<F>,
    after: ReaderView<F>,
)
    requires
        after.continues(before),
    ensures
        after.exchanges == before.exchanges + after.since(before),
        types_asked(after.since(before)).len() == after.exchanges.len() - before.exchanges.len(),
        replies_got(after.since(before)).len() == after.exchanges.len() - before.exchanges.len(),
        forall|i: int|
            before.exchanges.len() <= i < after.exchanges.len() ==> {
                let k = i - before.exchanges.len();
                &&& types_asked(after.since(before))[k] == (
                #[trigger] after.exchanges[i]).mime_type
                &&& replies_got(after.since(before))[k] == after.exchanges[i].reply
            },
{
    assert(after.exchanges =~= before.exchanges + after.since(before));
}

/// A request is recorded with the type that was asked for and the reply that came, behind the
/// requests before it.
pub proof fn law_requests_are_recorded<F: FnMut(&str) -> Option<Vec<u8>>>(
    reader: &mut Reader<F>,
    mime_type: &str,
    reply: Option<Vec<u8>>,
)
    requires
        call_ensures(Reader::<F>::ask, (reader, mime_type), reply),
    ensures
        final(reader)@.exchanges.len() == old(reader)@.exchanges.len() + 1,
        final(reader)@.exchanges.drop_last() == old(reader)@.exchanges,
        final(reader)@.exchanges.last().mime_type == mime_type@,
        reply is Some <==> final(reader)@.exchanges.last().reply is Some,
        reply matches Some(bytes) ==> final(reader)@.exchanges.last().reply == Some(bytes@),
{
    assert(final(reader)@.exchanges.drop_last() =~= old(reader)@.exchanges);
}

} // verus!
