//! What a transaction leaves behind: its writes, its events, its cost and its
//! status.

use vstd::prelude::*;
use crate::bytes::copy_bytes;

verus! {

/// One write to a storage location: a new payload, or the removal of the key.
#[derive(Clone, Debug, PartialEq, Eq)]
pub enum WriteOp {
    Deletion,
    Value(Vec<u8>),
}

impl View for WriteOp {
    type V = Option<Seq<u8>>;

    /// `Some(bytes)` for a payload, `None` for a deletion.
    open spec fn view(&self) -> Option<Seq<u8>> {
        match self {
            WriteOp::Deletion => None,
            WriteOp::Value(bytes) => Some(bytes@),
        }
    }
}

impl WriteOp {
    /// A fresh copy of the write.
    pub fn duplicate(&self) -> (copy: WriteOp)
        ensures
            copy@ == self@,
    {
        match self {
            WriteOp::Deletion => WriteOp::Deletion,
            WriteOp::Value(bytes) => WriteOp::Value(copy_bytes(bytes.as_slice())),
        }
    }
}

/// How a transaction ended, as far as the batch is concerned.
#[derive(Clone, Copy, Debug, PartialEq, Eq, Structural)]
pub enum TransactionStatus {
    /// The transaction is kept, with the interpreter's outcome code: `0` for
    /// success, anything else for an abort of the transaction itself.
    Keep(u64),
    /// The transaction was not run and has to be submitted again.
    Retry,
    /// The transaction is kept and halts the batch: nothing after it runs.
    SkipRest,
}

/// The model of an ordered write set: pairs of key and write.
pub type Writes = Seq<(Seq<u8>, Option<Seq<u8>>)>;

/// The model of a write set held in a `Vec`.
pub open spec fn writes_view(write_set: Seq<(Vec<u8>, WriteOp)>) -> Writes {
    write_set.map_values(|w: (Vec<u8>, WriteOp)| (w.0@, w.1@))
}

/// The model of a list of byte strings.
pub open spec fn byte_strings_view(items: Seq<Vec<u8>>) -> Seq<Seq<u8>> {
    items.map_values(|item: Vec<u8>| item@)
}

/// The model of a [`TransactionOutput`].
pub struct OutputView {
    pub write_set: Writes,
    pub events: Seq<Seq<u8>>,
    pub gas_used: u64,
    pub status: TransactionStatus,
}

/// The effects of one transaction.
#[derive(Clone, Debug, PartialEq, Eq)]
pub struct TransactionOutput {
    pub write_set: Vec<(Vec<u8>, WriteOp)>,
    pub events: Vec<Vec<u8>>,
    pub gas_used: u64,
    pub status: TransactionStatus,
}

impl View for TransactionOutput {
    type V = OutputView;

    open spec fn view(&self) -> OutputView {
        OutputView {
            write_set: writes_view(self.write_set@),
            events: byte_strings_view(self.events@),
            gas_used: self.gas_used,
            status: self.status,
        }
    }
}

/// The write sets of a list of outputs.
pub open spec fn write_sets(outputs: Seq<OutputView>) -> Seq<Writes> {
    outputs.map_values(|o: OutputView| o.write_set)
}

/// The output that stands for a transaction that was skipped: no writes, no
/// events, no cost, and a status that asks for a retry.
pub open spec fn skip_output_view() -> OutputView {
    OutputView {
        write_set: Seq::empty(),
        events: Seq::empty(),
        gas_used: 0,
        status: TransactionStatus::Retry,
    }
}

/// A fresh copy of a write set.
pub fn copy_writes(write_set: &Vec<(Vec<u8>, WriteOp)>) -> (copy: Vec<(Vec<u8>, WriteOp)>)
    ensures
        writes_view(copy@) == writes_view(write_set@),
{
    let mut copy: Vec<(Vec<u8>, WriteOp)> = Vec::with_capacity(write_set.len());
    let mut i: usize = 0;
    while i < write_set.len()
        invariant
            i <= write_set.len(),
            copy.len() == i,
            forall|j: int| 0 <= j < i ==> copy@[j].0@ == write_set@[j].0@ && copy@[j].1@ == write_set@[j].1@,
        decreases write_set.len() - i,
    {
        let key = copy_bytes(write_set[i].0.as_slice());
        let op = write_set[i].1.duplicate();
        copy.push((key, op));
        i += 1;
    }
    assert(writes_view(copy@) =~= writes_view(write_set@));
    copy
}

impl TransactionOutput {
    /// An output with these parts.
    pub fn new(
        write_set: Vec<(Vec<u8>, WriteOp)>,
        events: Vec<Vec<u8>>,
        gas_used: u64,
        status: TransactionStatus,
    ) -> (output: TransactionOutput)
        ensures
            output.write_set == write_set,
            output.events == events,
            output.gas_used == gas_used,
            output.status == status,
    {
        TransactionOutput { write_set, events, gas_used, status }
    }

    /// The canonical output of a skipped transaction.
    pub fn skip() -> (output: TransactionOutput)
        ensures
            output@ == skip_output_view(),
    {
        let output = TransactionOutput {
            write_set: Vec::new(),
            events: Vec::new(),
            gas_used: 0,
            status: TransactionStatus::Retry,
        };
        assert(output@.write_set =~= Seq::empty());
        assert(output@.events =~= Seq::empty());
        output
    }

    /// Whether this output halts the batch.
    pub fn halts(&self) -> (halting: bool)
        ensures
            halting <==> self@.status == TransactionStatus::SkipRest,
    {
        match self.status {
            TransactionStatus::SkipRest => true,
            _ => false,
        }
    }
}

/// A transaction output as the block executor hands it around.
#[derive(Clone, Debug, PartialEq, Eq)]
pub struct DiemTransactionOutput(pub TransactionOutput);

impl View for DiemTransactionOutput {
    type V = OutputView;

    open spec fn view(&self) -> OutputView {
        self.0@
    }
}

impl DiemTransactionOutput {
    /// Wraps an output.
    pub fn new(output: TransactionOutput) -> (wrapped: DiemTransactionOutput)
        ensures
            wrapped.0 == output,
    {
        DiemTransactionOutput(output)
    }

    /// The output that is wrapped.
    pub fn into(self) -> (output: TransactionOutput)
        ensures
            output == self.0,
    {
        self.0
    }

    /// The writes of the transaction, in the order it made them.
    pub fn get_writes(&self) -> (writes: Vec<(Vec<u8>, WriteOp)>)
        ensures
            writes_view(writes@) == self@.write_set,
    {
        copy_writes(&self.0.write_set)
    }

    /// Execution output for a transaction that comes after the batch was
    /// halted.
    pub fn skip_output() -> (output: DiemTransactionOutput)
        ensures
            output@ == skip_output_view(),
    {
        DiemTransactionOutput(TransactionOutput::skip())
    }
}

} // verus!
