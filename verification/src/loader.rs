//! Reading coordinate pairs out of a raw buffer without a parsing pass.
//!
//! A record is sixteen bytes: `x`, then `y`, each a 64-bit two's complement
//! number with its least significant byte first. The buffer is checked once,
//! when the view is made: its length must be that of the expected number of
//! records, and the address it lies at must be aligned for a record. After
//! that a record is decoded where it lies, each time it is asked for.

use vstd::prelude::*;

verus! {

/// Bytes in one record.
pub const RECORD_SIZE: usize = 16;

/// Alignment that the address of a record must have.
pub const RECORD_ALIGNMENT: usize = 8;

/// Why a buffer was refused.
#[derive(Clone, Copy, Debug, PartialEq, Eq)]
pub enum LoadError {
    /// The buffer is not as long as the expected records are together.
    LengthMismatch,
    /// The buffer does not start at an aligned address.
    Misaligned,
}

/// The number that eight bytes spell, least significant byte first.
pub open spec fn le_u64(bytes: Seq<u8>) -> int {
    bytes[0] + 0x100 * bytes[1] + 0x1_0000 * bytes[2] + 0x100_0000 * bytes[3] + 0x1_0000_0000
        * bytes[4] + 0x100_0000_0000 * bytes[5] + 0x1_0000_0000_0000 * bytes[6]
        + 0x100_0000_0000_0000 * bytes[7]
}

/// The eight bytes read as a two's complement number.
pub open spec fn le_i64(bytes: Seq<u8>) -> i64 {
    if le_u64(bytes) >= 0x8000_0000_0000_0000 {
        (le_u64(bytes) - 0x1_0000_0000_0000_0000) as i64
    } else {
        le_u64(bytes) as i64
    }
}

/// Record `index` of a buffer.
pub open spec fn record_at(bytes: Seq<u8>, index: int) -> (i64, i64) {
    (
        le_i64(bytes.subrange(16 * index, 16 * index + 8)),
        le_i64(bytes.subrange(16 * index + 8, 16 * index + 16)),
    )
}

/// All the whole records of a buffer, in order.
pub open spec fn records_of(bytes: Seq<u8>) -> Seq<(i64, i64)> {
    Seq::new((bytes.len() / 16) as nat, |index: int| record_at(bytes, index))
}

/// Whether a buffer of `len` bytes at `address` can be read as `records`
/// records, and if not, why. The length is looked at first.
pub open spec fn layout(len: nat, address: nat, records: nat) -> Result<(), LoadError> {
    if len != records * RECORD_SIZE {
        Err(LoadError::LengthMismatch)
    } else if address % RECORD_ALIGNMENT as nat != 0 {
        Err(LoadError::Misaligned)
    } else {
        Ok(())
    }
}

/// A buffer whose length is no whole number of records, or whose address is
/// not aligned, is refused, whatever number of records is expected.
pub proof fn lemma_ragged_or_misaligned_is_refused(len: nat, address: nat, records: nat)
    requires
        len % RECORD_SIZE as nat != 0 || address % RECORD_ALIGNMENT as nat != 0,
    ensures
        layout(len, address, records) is Err,
{
}

/// Checks that a buffer of `len` bytes at `address` holds exactly `records`
/// records and is aligned for them.
pub fn check_layout(len: usize, address: usize, records: usize) -> (r: Result<(), LoadError>)
    ensures
        r == layout(len as nat, address as nat, records as nat),
        len % RECORD_SIZE != 0 || address % RECORD_ALIGNMENT != 0 ==> r is Err,
{
    if len % RECORD_SIZE != 0 || len / RECORD_SIZE != records {
        Err(LoadError::LengthMismatch)
    } else if address % RECORD_ALIGNMENT != 0 {
        Err(LoadError::Misaligned)
    } else {
        Ok(())
    }
}

/// Decodes the eight bytes that start at `at`.
fn read_i64(bytes: &[u8], at: usize) -> (r: i64)
    requires
        at + 8 <= bytes.len(),
    ensures
        r == le_i64(bytes@.subrange(at as int, at + 8)),
{
    let unsigned: u64 = (bytes[at] as u64) + 0x100 * (bytes[at + 1] as u64) + 0x1_0000 * (bytes[at
        + 2] as u64) + 0x100_0000 * (bytes[at + 3] as u64) + 0x1_0000_0000 * (bytes[at + 4] as u64)
        + 0x100_0000_0000 * (bytes[at + 5] as u64) + 0x1_0000_0000_0000 * (bytes[at + 6] as u64)
        + 0x100_0000_0000_0000 * (bytes[at + 7] as u64);
    if unsigned >= 0x8000_0000_0000_0000 {
        ((unsigned - 0x8000_0000_0000_0000) as i64) + i64::MIN
    } else {
        unsigned as i64
    }
}

/// A read-only view of a checked buffer as an array of coordinate pairs.
pub struct PairView<'a> {
    bytes: &'a [u8],
}

impl<'a> View for PairView<'a> {
    type V = Seq<(i64, i64)>;

    closed spec fn view(&self) -> Seq<(i64, i64)> {
        records_of(self.bytes@)
    }
}

impl<'a> PairView<'a> {
    /// The buffer is a whole number of records.
    pub closed spec fn wf(&self) -> bool {
        self.bytes@.len() % 16 == 0
    }

    /// Views `bytes`, which lie at `address`, as `records` records, or says
    /// why it cannot.
    pub fn new(bytes: &'a [u8], address: usize, records: usize) -> (r: Result<
        PairView<'a>,
        LoadError,
    >)
        ensures
            bytes@.len() % RECORD_SIZE as nat != 0 || address % RECORD_ALIGNMENT != 0 ==> r is Err,
            match r {
                Ok(view) => {
                    &&& layout(bytes@.len(), address as nat, records as nat) is Ok
                    &&& view.wf()
                    &&& view@ == records_of(bytes@)
                    &&& view@.len() == records
                },
                Err(error) => layout(bytes@.len(), address as nat, records as nat) == Err::<
                    (),
                    LoadError,
                >(error),
            },
    {
        match check_layout(bytes.len(), address, records) {
            Err(error) => Err(error),
            Ok(_) => Ok(PairView { bytes }),
        }
    }

    /// Number of records.
    pub fn len(&self) -> (r: usize)
        requires
            self.wf(),
        ensures
            r == self@.len(),
    {
        self.bytes.len() / RECORD_SIZE
    }

    /// Record `index`.
    pub fn get(&self, index: usize) -> (r: (i64, i64))
        requires
            self.wf(),
            index < self@.len(),
        ensures
            r == self@[index as int],
    {
        assert(index * 16 + 16 <= self.bytes.len());
        let at = index * RECORD_SIZE;
        (read_i64(self.bytes, at), read_i64(self.bytes, at + 8))
    }
}

} // verus!
