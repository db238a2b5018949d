//! Handing bytes to a reader that takes them a piece at a time.

use vstd::prelude::*;
use vstd::slice::slice_subrange;

verus! {

/// What came of one attempt to write.
#[derive(Clone, Copy, Debug, PartialEq, Eq, Structural)]
pub enum WriteOutcome {
    /// This many of the bytes were taken.
    Wrote(usize),
    /// The reader takes nothing right now.
    WouldBlock,
    /// The reader is gone.
    Failed,
}

/// What to do after an attempt to write.
#[derive(Clone, Copy, Debug, PartialEq, Eq, Structural)]
pub enum TransferStep {
    /// Write what remains.
    WriteMore,
    /// Wait until the reader takes bytes again.
    Wait,
    /// Stop: close the writing end.
    Close,
}

/// How far a transfer is.
pub struct TransferView {
    /// All the bytes to hand over.
    pub bytes: Seq<u8>,
    /// How many of them were taken.
    pub written: int,
}

impl TransferView {
    /// No more was taken than there is.
    pub open spec fn wf(self) -> bool {
        0 <= self.written <= self.bytes.len()
    }

    /// The bytes that were not taken yet.
    pub open spec fn remaining(self) -> Seq<u8> {
        self.bytes.skip(self.written)
    }

    /// An attempt to write what remains can end like this.
    pub open spec fn allows(self, outcome: WriteOutcome) -> bool {
        match outcome {
            WriteOutcome::Wrote(n) => self.written + n <= self.bytes.len(),
            _ => true,
        }
    }

    /// The transfer after an attempt to write.
    pub open spec fn after(self, outcome: WriteOutcome) -> TransferView {
        match outcome {
            WriteOutcome::Wrote(n) => TransferView { written: self.written + n, ..self },
            _ => self,
        }
    }

    /// What to do after an attempt to write.
    pub open spec fn step(self, outcome: WriteOutcome) -> TransferStep {
        match outcome {
            WriteOutcome::Wrote(n) => if self.written + n == self.bytes.len() {
                TransferStep::Close
            } else {
                TransferStep::WriteMore
            },
            WriteOutcome::WouldBlock => TransferStep::Wait,
            WriteOutcome::Failed => TransferStep::Close,
        }
    }
}

/// Bytes on their way to a reader.
#[derive(Debug, PartialEq, Eq)]
pub struct Transfer {
    bytes: Vec<u8>,
    written: usize,
}

impl View for Transfer {
    type V = TransferView;

    closed spec fn view(&self) -> TransferView {
        TransferView { bytes: self.bytes@, written: self.written as int }
    }
}

impl Transfer {
    #[verifier::type_invariant]
    spec fn inv(self) -> bool {
        self.written <= self.bytes@.len()
    }

    /// A transfer of which nothing was taken yet.
    pub fn new(bytes: Vec<u8>) -> (transfer: Transfer)
        ensures
            transfer@ == (TransferView { bytes: bytes@, written: 0 }),
    {
        Transfer { bytes, written: 0 }
    }

    /// The bytes to write next.
    pub fn remaining(&self) -> (bytes: &[u8])
        ensures
            self@.wf(),
            bytes@ == self@.remaining(),
    {
        proof {
            use_type_invariant(self);
        }
        slice_subrange(self.bytes.as_slice(), self.written, self.bytes.len())
    }

    /// Takes note of an attempt to write what remains, and says what to do next.
    pub fn record(&mut self, outcome: WriteOutcome) -> (step: TransferStep)
        requires
            old(self)@.allows(outcome),
        ensures
            final(self)@ == old(self)@.after(outcome),
            step == old(self)@.step(outcome),
            final(self)@.wf(),
    {
        proof {
            use_type_invariant(&*self);
        }
        let len: usize = self.bytes.len();
        match outcome {
            WriteOutcome::Wrote(n) => {
                self.written = self.written + n;
                if self.written == len {
                    TransferStep::Close
                } else {
                    TransferStep::WriteMore
                }
            },
            WriteOutcome::WouldBlock => TransferStep::Wait,
            WriteOutcome::Failed => TransferStep::Close,
        }
    }
}

/// The attempts can follow one another: each is possible, and none comes after the end.
pub open spec fn is_run(transfer: TransferView, outcomes: Seq<WriteOutcome>) -> bool
    decreases outcomes.len(),
{
    outcomes.len() == 0 || {
        &&& transfer.allows(outcomes[0])
        &&& transfer.step(outcomes[0]) is Close ==> outcomes.len() == 1
        &&& is_run(transfer.after(outcomes[0]), outcomes.drop_first())
    }
}

/// The transfer after all the attempts.
pub open spec fn end_of_run(transfer: TransferView, outcomes: Seq<WriteOutcome>) -> TransferView
    decreases outcomes.len(),
{
    if outcomes.len() == 0 {
        transfer
    } else {
        end_of_run(transfer.after(outcomes[0]), outcomes.drop_first())
    }
}

/// What the reader got over all the attempts.
pub open spec fn delivered(transfer: TransferView, outcomes: Seq<WriteOutcome>) -> Seq<u8>
    decreases outcomes.len(),
{
    if outcomes.len() == 0 {
        Seq::empty()
    } else {
        (match outcomes[0] {
            WriteOutcome::Wrote(n) => transfer.remaining().take(n as int),
            _ => Seq::empty(),
        }) + delivered(transfer.after(outcomes[0]), outcomes.drop_first())
    }
}

/// The attempts end the transfer.
pub open spec fn is_closed(transfer: TransferView, outcomes: Seq<WriteOutcome>) -> bool {
    outcomes.len() > 0 && end_of_run(transfer, outcomes.drop_last()).step(outcomes.last()) is Close
}

/// However the attempts turn out, the reader gets the bytes in order, none twice and none
/// left out in between.
pub proof fn law_delivery_is_in_order(transfer: TransferView, outcomes: Seq<WriteOutcome>)
    requires
        transfer.wf(),
        is_run(transfer, outcomes),
    ensures
        end_of_run(transfer, outcomes).wf(),
        end_of_run(transfer, outcomes).bytes == transfer.bytes,
        transfer.written <= end_of_run(transfer, outcomes).written,
        delivered(transfer, outcomes) == transfer.bytes.subrange(
            transfer.written,
            end_of_run(transfer, outcomes).written,
        ),
    decreases outcomes.len(),
{
    if outcomes.len() == 0 {
        assert(transfer.bytes.subrange(transfer.written, transfer.written) =~= Seq::empty());
    } else {
        let next = transfer.after(outcomes[0]);
        law_delivery_is_in_order(next, outcomes.drop_first());
        assert(delivered(transfer, outcomes) =~= transfer.bytes.subrange(
            transfer.written,
            end_of_run(transfer, outcomes).written,
        ));
    }
}

/// A transfer that ends while the reader is still there has handed over every byte.
pub proof fn law_delivery_is_complete(transfer: TransferView, outcomes: Seq<WriteOutcome>)
    requires
        transfer.wf(),
        is_run(transfer, outcomes),
        is_closed(transfer, outcomes),
        !(outcomes.last() is Failed),
    ensures
        delivered(transfer, outcomes) == transfer.remaining(),
{
    law_delivery_is_in_order(transfer, outcomes);
    lemma_closed_at_the_end(transfer, outcomes);
    assert(transfer.bytes.subrange(transfer.written, transfer.bytes.len() as int)
        =~= transfer.remaining());
}

/// A transfer that ends while the reader is still there has nothing left.
proof fn lemma_closed_at_the_end(transfer: TransferView, outcomes: Seq<WriteOutcome>)
    requires
        transfer.wf(),
        is_run(transfer, outcomes),
        is_closed(transfer, outcomes),
        !(outcomes.last() is Failed),
    ensures
        end_of_run(transfer, outcomes).written == transfer.bytes.len(),
    decreases outcomes.len(),
{
    let next = transfer.after(outcomes[0]);
    let rest = outcomes.drop_first();
    if rest.len() == 0 {
        assert(outcomes.drop_last() =~= Seq::empty());
        reveal_with_fuel(end_of_run, 2);
    } else {
        assert(outcomes.drop_last().drop_first() =~= rest.drop_last());
        assert(outcomes.drop_last()[0] == outcomes[0]);
        lemma_closed_at_the_end(next, rest);
    }
}

/// A new transfer holds the bytes that it was made of, and all of them remain.
pub proof fn law_new_transfer_holds_every_byte(bytes: Vec<u8>, transfer: Transfer, remaining: &[u8])
    requires
        call_ensures(Transfer::new, (bytes,), transfer),
        call_ensures(Transfer::remaining, (&transfer,), remaining),
    ensures
        remaining@ == bytes@,
        transfer@.bytes == bytes@,
        transfer@.written == 0,
{
    assert(bytes@.skip(0) =~= bytes@);
}

/// What remains is what follows the bytes that were taken.
pub proof fn law_remaining_bytes_follow_those_taken(transfer: Transfer, remaining: &[u8])
    requires
        call_ensures(Transfer::remaining, (&transfer,), remaining),
    ensures
        0 <= transfer@.written,
        remaining@.len() == transfer@.bytes.len() - transfer@.written,
        forall|i: int|
            0 <= i < remaining@.len() ==> #[trigger] remaining@[i]
                == transfer@.bytes[transfer@.written + i],
{
}

/// A transfer closes as soon as the last byte was taken, and not before. Until then it writes
/// on, from behind the bytes that were taken.
pub proof fn law_transfer_closes_once_everything_was_taken(
    transfer: &mut Transfer,
    taken: usize,
    step: TransferStep,
)
    requires
        old(transfer)@.written + taken <= old(transfer)@.bytes.len(),
        call_ensures(Transfer::record, (transfer, WriteOutcome::Wrote(taken)), step),
    ensures
        old(transfer)@.written + taken == old(transfer)@.bytes.len() ==> step
            == TransferStep::Close,
        old(transfer)@.written + taken < old(transfer)@.bytes.len() ==> step
            == TransferStep::WriteMore,
        final(transfer)@.bytes == old(transfer)@.bytes,
        final(transfer)@.written == old(transfer)@.written + taken,
{
}

/// A reader that takes nothing right now is waited for, one that is gone ends the transfer,
/// and neither changes what remains.
pub proof fn law_transfer_waits_for_a_slow_reader(
    transfer: &mut Transfer,
    outcome: WriteOutcome,
    step: TransferStep,
)
    requires
        !(outcome is Wrote),
        call_ensures(Transfer::record, (transfer, outcome), step),
    ensures
        outcome is WouldBlock ==> step == TransferStep::Wait,
        outcome is Failed ==> step == TransferStep::Close,
        final(transfer)@.bytes == old(transfer)@.bytes,
        final(transfer)@.written == old(transfer)@.written,
{
}

/// Any number of the bytes that remain can be taken at once, and no more than those.
pub proof fn law_writes_take_what_remains(transfer: TransferView, taken: usize)
    requires
        0 <= transfer.written <= transfer.bytes.len(),
    ensures
        transfer.allows(WriteOutcome::Wrote(taken)) <==> taken <= transfer.remaining().len(),
        transfer.allows(WriteOutcome::WouldBlock),
        transfer.allows(WriteOutcome::Failed),
        transfer.remaining().len() == transfer.bytes.len() - transfer.written,
        taken <= transfer.remaining().len() ==> {
            &&& transfer.after(WriteOutcome::Wrote(taken)).remaining()
                == transfer.remaining().skip(taken as int)
            &&& transfer.step(WriteOutcome::Wrote(taken)) is Close <==> taken
                == transfer.remaining().len()
        },
{
    if taken <= transfer.remaining().len() {
        assert(transfer.after(WriteOutcome::Wrote(taken)).remaining()
            =~= transfer.remaining().skip(taken as int));
    }
}

/// The last attempt is made on the transfer that the attempts before it left.
proof fn lemma_end_of_run_last(transfer: TransferView, outcomes: Seq<WriteOutcome>)
    requires
        outcomes.len() > 0,
    ensures
        end_of_run(transfer, outcomes) == end_of_run(transfer, outcomes.drop_last()).after(
            outcomes.last(),
        ),
    decreases outcomes.len(),
{
    let next = transfer.after(outcomes[0]);
    let rest = outcomes.drop_first();
    if rest.len() == 0 {
        assert(outcomes.drop_last() =~= Seq::empty());
        reveal_with_fuel(end_of_run, 2);
    } else {
        assert(outcomes.drop_last().drop_first() =~= rest.drop_last());
        assert(outcomes.drop_last()[0] == outcomes[0]);
        lemma_end_of_run_last(next, rest);
    }
}

/// Attempts that handed over everything have ended the transfer: it does not go on, and it
/// does not wait.
pub proof fn law_complete_delivery_ends_the_transfer(
    transfer: TransferView,
    outcomes: Seq<WriteOutcome>,
)
    requires
        0 <= transfer.written <= transfer.bytes.len(),
        is_run(transfer, outcomes),
        outcomes.len() > 0,
        outcomes.last() is Wrote,
        delivered(transfer, outcomes) == transfer.bytes.skip(transfer.written),
    ensures
        is_closed(transfer, outcomes),
{
    law_delivery_is_in_order(transfer, outcomes);
    lemma_end_of_run_last(transfer, outcomes);
    lemma_run_keeps_bytes(transfer, outcomes.drop_last());
    let end = end_of_run(transfer, outcomes);
    assert(delivered(transfer, outcomes).len() == end.written - transfer.written);
}

/// No attempt changes what is to be handed over.
proof fn lemma_run_keeps_bytes(transfer: TransferView, outcomes: Seq<WriteOutcome>)
    ensures
        end_of_run(transfer, outcomes).bytes == transfer.bytes,
    decreases outcomes.len(),
{
    if outcomes.len() > 0 {
        lemma_run_keeps_bytes(transfer.after(outcomes[0]), outcomes.drop_first());
    }
}

} // verus!
