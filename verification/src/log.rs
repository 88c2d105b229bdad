//! The append-only log of 256-bit numbers.

use crate::error::LedgerError;
use crate::uint::Uint256;
use vstd::prelude::*;

verus! {

/// What reading a log at `index` gives: the entry there, counted from zero,
/// or `IndexOutOfRange` at or past the log's length.
pub open spec fn entry_at(log: Seq<Uint256>, index: int) -> Result<Uint256, LedgerError> {
    if 0 <= index < log.len() {
        Ok(log[index])
    } else {
        Err(LedgerError::IndexOutOfRange)
    }
}

/// An ordered list of numbers to which entries are only ever added at the
/// end.
pub struct NumericLog {
    entries: Vec<Uint256>,
}

impl View for NumericLog {
    type V = Seq<Uint256>;

    closed spec fn view(&self) -> Seq<Uint256> {
        self.entries@
    }
}

impl NumericLog {
    /// An empty log.
    pub fn new() -> (r: NumericLog)
        ensures
            r@ == Seq::<Uint256>::empty(),
    {
        NumericLog { entries: Vec::new() }
    }

    /// Adds `value` at the end: the length grows by one and every earlier
    /// entry stays where it was.
    pub fn append(&mut self, value: Uint256)
        ensures
            final(self)@ == old(self)@.push(value),
    {
        self.entries.push(value);
    }

    /// The entry at `index`, counted from zero; `IndexOutOfRange` at or past
    /// the length.
    pub fn get(&self, index: usize) -> (r: Result<Uint256, LedgerError>)
        ensures
            r == entry_at(self@, index as int),
    {
        if index >= self.entries.len() {
            return Err(LedgerError::IndexOutOfRange);
        }
        Ok(self.entries[index])
    }

    /// The number of entries.
    pub fn length(&self) -> (r: usize)
        ensures
            r == self@.len(),
    {
        self.entries.len()
    }

    /// A copy of all entries in the order in which they were added.
    pub fn to_sequence(&self) -> (r: Vec<Uint256>)
        ensures
            r@ == self@,
    {
        let len = self.entries.len();
        let mut result: Vec<Uint256> = Vec::with_capacity(len);
        let mut i: usize = 0;
        while i < len
            invariant
                len == self.entries@.len(),
                i <= len,
                result@ == self.entries@.take(i as int),
            decreases len - i,
        {
            result.push(self.entries[i]);
            assert(self.entries@.take(i + 1) =~= self.entries@.take(i as int).push(
                self.entries@[i as int],
            ));
            i += 1;
        }
        assert(self.entries@.take(len as int) =~= self.entries@);
        result
    }
}

/// Appending `v` to a log of length `n` makes the length `n + 1` and puts
/// `v` at index `n`; index `n + 1` is out of range, and every earlier index
/// reads as before.
pub proof fn lemma_append_then_read(log: Seq<Uint256>, v: Uint256)
    ensures
        log.push(v).len() == log.len() + 1,
        entry_at(log.push(v), log.len() as int) == Ok::<Uint256, LedgerError>(v),
        entry_at(log.push(v), (log.len() + 1) as int) == Err::<Uint256, LedgerError>(
            LedgerError::IndexOutOfRange,
        ),
        forall|i: int| 0 <= i < log.len() ==> entry_at(log.push(v), i) == entry_at(log, i),
{
}

} // verus!
