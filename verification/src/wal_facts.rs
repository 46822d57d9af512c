//! Facts of a write-ahead-log append, read from its encoded bytes.

use crate::error::IoError;
use crate::error::IoErrorKind;
use vstd::prelude::*;

verus! {

/// Bytes before a record's payload: length, sequence and operation.
pub const RECORD_HEADER_LEN: usize = 14;

/// Bytes behind a record's payload.
pub const RECORD_CHECKSUM_LEN: usize = 8;

/// How a log file announces itself before its first record.
#[derive(Clone, Debug, PartialEq, Eq)]
pub struct WalFraming {
    pub magic: Vec<u8>,
    pub family: u16,
    pub header_len: usize,
}

/// Exact length and sequence range of the records in one append.
#[derive(Clone, Copy, Debug, PartialEq, Eq, Structural)]
pub struct AppendFacts {
    pub encoded_len: u64,
    pub first_seq: u64,
    pub last_seq: u64,
}

/// Why an append is no sequence of whole records.
#[derive(Clone, Copy, Debug, PartialEq, Eq, Structural)]
pub enum AppendFault {
    /// A record header would end out of the machine's range.
    HeaderOverflow,
    TornHeader,
    /// A record is longer than the machine's range.
    RecordOverflow,
    /// A record would end out of the machine's range.
    EndOverflow,
    TornBody,
    LengthOverflow,
}

impl AppendFault {
    pub open spec fn spec_message(self) -> Seq<char> {
        match self {
            AppendFault::HeaderOverflow => "WAL record header offset overflow"@,
            AppendFault::TornHeader => "WAL append has a torn record header"@,
            AppendFault::RecordOverflow => "WAL record length overflow"@,
            AppendFault::EndOverflow => "WAL record end overflow"@,
            AppendFault::TornBody => "WAL append has a torn record body"@,
            AppendFault::LengthOverflow => "WAL record append length overflow"@,
        }
    }

    /// The fault as an operating-system failure.
    pub fn into_io(self) -> (error: IoError)
        ensures
            error.kind == IoErrorKind::Other,
            error.message@ == self.spec_message(),
    {
        match self {
            AppendFault::HeaderOverflow => IoError::other("WAL record header offset overflow"),
            AppendFault::TornHeader => IoError::other("WAL append has a torn record header"),
            AppendFault::RecordOverflow => IoError::other("WAL record length overflow"),
            AppendFault::EndOverflow => IoError::other("WAL record end overflow"),
            AppendFault::TornBody => IoError::other("WAL append has a torn record body"),
            AppendFault::LengthOverflow => IoError::other("WAL record append length overflow"),
        }
    }
}

/// The number that little-endian bytes stand for.
pub open spec fn le_value(bytes: Seq<u8>) -> nat
    decreases bytes.len(),
{
    if bytes.len() == 0 {
        0
    } else {
        bytes[0] as nat + 256 * le_value(bytes.skip(1))
    }
}

/// Whether the bytes begin with the log's magic and family.
pub open spec fn has_wal_header(framing: WalFraming, bytes: Seq<u8>) -> bool {
    &&& framing.magic@.len() == 8
    &&& bytes.len() >= 10
    &&& bytes.take(8) == framing.magic@
    &&& le_value(bytes.subrange(8, 10)) == framing.family
}

/// Length of the record whose header starts at `at`.
pub open spec fn record_len(bytes: Seq<u8>, at: int) -> int {
    RECORD_HEADER_LEN + le_value(bytes.subrange(at, at + 4)) + RECORD_CHECKSUM_LEN
}

/// Sequence of the record whose header starts at `at`.
pub open spec fn record_seq(bytes: Seq<u8>, at: int) -> u64 {
    le_value(bytes.subrange(at + 4, at + 12)) as u64
}

/// Where the records begin.
pub open spec fn records_start(framing: WalFraming, bytes: Seq<u8>) -> int {
    if has_wal_header(framing, bytes) {
        framing.header_len as int
    } else {
        0
    }
}

/// Walks whole records from `at` to the end: `first` is the sequence of the
/// first record already passed, where there is one, and `last` that of the
/// latest.
pub open spec fn walk(
    bytes: Seq<u8>,
    at: int,
    encoded: int,
    first: Option<u64>,
    last: u64,
) -> Result<Option<AppendFacts>, AppendFault>
    decreases bytes.len() - at,
{
    if at < 0 || at >= bytes.len() {
        match first {
            Some(seq) => Ok(
                Some(AppendFacts { encoded_len: encoded as u64, first_seq: seq, last_seq: last }),
            ),
            None => Ok(None),
        }
    } else if at + RECORD_HEADER_LEN > usize::MAX {
        Err(AppendFault::HeaderOverflow)
    } else if at + RECORD_HEADER_LEN > bytes.len() {
        Err(AppendFault::TornHeader)
    } else if record_len(bytes, at) > usize::MAX {
        Err(AppendFault::RecordOverflow)
    } else if at + record_len(bytes, at) > usize::MAX {
        Err(AppendFault::EndOverflow)
    } else if at + record_len(bytes, at) > bytes.len() {
        Err(AppendFault::TornBody)
    } else {
        let seq = record_seq(bytes, at);
        walk(
            bytes,
            at + record_len(bytes, at),
            encoded + record_len(bytes, at),
            Some(match first {
                Some(earlier) => earlier,
                None => seq,
            }),
            seq,
        )
    }
}

/// Facts of one append.
pub open spec fn append_facts_spec(framing: WalFraming, bytes: Seq<u8>) -> Result<
    Option<AppendFacts>,
    AppendFault,
> {
    walk(bytes, records_start(framing, bytes), 0, None, 0)
}

fn le_u16(bytes: &[u8], at: usize) -> (value: u16)
    requires
        at + 2 <= bytes.len(),
    ensures
        value as nat == le_value(bytes@.subrange(at as int, at + 2)),
{
    let ghost part = bytes@.subrange(at as int, at + 2);
    assert(part.skip(1).skip(1) == Seq::<u8>::empty());
    assert(le_value(part.skip(1).skip(1)) == 0);
    assert(le_value(part.skip(1)) == part[1] as nat);
    (bytes[at] as u16) + 256 * (bytes[at + 1] as u16)
}

fn le_u32(bytes: &[u8], at: usize) -> (value: u32)
    requires
        at + 4 <= bytes.len(),
    ensures
        value as nat == le_value(bytes@.subrange(at as int, at + 4)),
{
    let low = le_u16(bytes, at);
    let high = le_u16(bytes, at + 2);
    let ghost part = bytes@.subrange(at as int, at + 4);
    proof {
        lemma_le_split(part, 2);
        assert(part.take(2) == bytes@.subrange(at as int, at + 2));
        assert(part.skip(2) == bytes@.subrange(at + 2, at + 4));
        assert(pow256(2) == 65536) by {
            reveal_with_fuel(pow256, 3);
        }
    }
    (low as u32) + 65536 * (high as u32)
}

fn le_u64(bytes: &[u8], at: usize) -> (value: u64)
    requires
        at + 8 <= bytes.len(),
    ensures
        value as nat == le_value(bytes@.subrange(at as int, at + 8)),
{
    let low = le_u32(bytes, at);
    let high = le_u32(bytes, at + 4);
    let ghost part = bytes@.subrange(at as int, at + 8);
    proof {
        lemma_le_split(part, 4);
        assert(part.take(4) == bytes@.subrange(at as int, at + 4));
        assert(part.skip(4) == bytes@.subrange(at + 4, at + 8));
        assert(pow256(4) == 0x1_0000_0000) by {
            reveal_with_fuel(pow256, 5);
        }
    }
    (low as u64) + 0x1_0000_0000 * (high as u64)
}

pub open spec fn pow256(n: nat) -> nat
    decreases n,
{
    if n == 0 {
        1
    } else {
        256 * pow256((n - 1) as nat)
    }
}

proof fn lemma_le_split(bytes: Seq<u8>, n: nat)
    requires
        n <= bytes.len(),
    ensures
        le_value(bytes) == le_value(bytes.take(n as int)) + pow256(n) * le_value(
            bytes.skip(n as int),
        ),
    decreases n,
{
    if n == 0 {
        assert(bytes.skip(0) == bytes);
        assert(bytes.take(0) == Seq::<u8>::empty());
        assert(pow256(0) == 1);
        assert(1 * le_value(bytes) == le_value(bytes));
    } else {
        let rest = bytes.skip(1);
        lemma_le_split(rest, (n - 1) as nat);
        assert(bytes.take(n as int).skip(1) == rest.take(n - 1));
        assert(bytes.skip(n as int) == rest.skip(n - 1));
        let high = le_value(bytes.skip(n as int));
        let power = pow256((n - 1) as nat);
        let low = le_value(rest.take(n - 1));
        assert(pow256(n) == 256 * power);
        assert(256 * (low + power * high) == 256 * low + (256 * power) * high)
            by (nonlinear_arith);
        assert(bytes.take(n as int)[0] == bytes[0]);
    }
}

fn starts_with_magic(framing: &WalFraming, bytes: &[u8]) -> (result: bool)
    ensures
        result == has_wal_header(*framing, bytes@),
{
    if framing.magic.len() != 8 || bytes.len() < 10 {
        return false;
    }
    let mut at: usize = 0;
    while at < 8
        invariant
            at <= 8,
            framing.magic.len() == 8,
            bytes.len() >= 10,
            forall|i: int| 0 <= i < at ==> bytes@[i] == framing.magic@[i],
        decreases 8 - at,
    {
        if bytes[at] != framing.magic[at] {
            assert(bytes@.take(8)[at as int] != framing.magic@[at as int]);
            return false;
        }
        at = at + 1;
    }
    assert(bytes@.take(8) == framing.magic@);
    le_u16(bytes, 8) == framing.family
}

/// Reads the length and sequence range of the whole records in one append,
/// passing over the log header where the bytes begin with it.
pub fn storage_wal_append_facts(framing: &WalFraming, bytes: &[u8]) -> (result: Result<
    Option<AppendFacts>,
    AppendFault,
>)
    ensures
        result == append_facts_spec(*framing, bytes@),
{
    let mut offset: usize = if starts_with_magic(framing, bytes) {
        framing.header_len
    } else {
        0
    };
    let mut encoded_len: u64 = 0;
    let mut first_seq: Option<u64> = None;
    let mut last_seq: u64 = 0;
    let ghost start = offset as int;
    while offset < bytes.len()
        invariant
            0 <= start,
            offset > bytes.len() ==> offset == start && first_seq is None,
            offset <= bytes.len() ==> encoded_len as int == offset - start,
            append_facts_spec(*framing, bytes@) == walk(
                bytes@,
                offset as int,
                encoded_len as int,
                first_seq,
                last_seq,
            ),
        decreases bytes.len() - offset,
    {
        if offset > usize::MAX - RECORD_HEADER_LEN {
            return Err(AppendFault::HeaderOverflow);
        }
        if bytes.len() - offset < RECORD_HEADER_LEN {
            return Err(AppendFault::TornHeader);
        }
        let payload_len: u32 = le_u32(bytes, offset);
        let seq: u64 = le_u64(bytes, offset + 4);
        let length: u64 = 14 + payload_len as u64 + 8;
        assert(length == record_len(bytes@, offset as int));
        assert(seq == record_seq(bytes@, offset as int));
        if length > usize::MAX as u64 {
            return Err(AppendFault::RecordOverflow);
        }
        if offset > usize::MAX - length as usize {
            return Err(AppendFault::EndOverflow);
        }
        if offset + length as usize > bytes.len() {
            return Err(AppendFault::TornBody);
        }
        encoded_len = encoded_len + length;
        offset = offset + length as usize;
        if first_seq.is_none() {
            first_seq = Some(seq);
        }
        last_seq = seq;
    }
    match first_seq {
        Some(first) => Ok(Some(AppendFacts { encoded_len, first_seq: first, last_seq })),
        None => Ok(None),
    }
}

/// Folds the facts of the buffers of one vectored append: lengths add up, the
/// first sequence comes from the first buffer with records, the last from the
/// last.
pub open spec fn fold_facts(
    framing: WalFraming,
    buffers: Seq<Vec<u8>>,
) -> Result<Option<AppendFacts>, AppendFault>
    decreases buffers.len(),
{
    if buffers.len() == 0 {
        Ok(None)
    } else {
        match fold_facts(framing, buffers.drop_last()) {
            Err(fault) => Err(fault),
            Ok(before) => match append_facts_spec(framing, buffers.last()@) {
                Err(fault) => Err(fault),
                Ok(None) => Ok(before),
                Ok(Some(facts)) => match before {
                    None => Ok(Some(facts)),
                    Some(earlier) => if earlier.encoded_len + facts.encoded_len > u64::MAX {
                        Err(AppendFault::LengthOverflow)
                    } else {
                        Ok(
                            Some(
                                AppendFacts {
                                    encoded_len: (earlier.encoded_len + facts.encoded_len) as u64,
                                    first_seq: earlier.first_seq,
                                    last_seq: facts.last_seq,
                                },
                            ),
                        )
                    },
                },
            },
        }
    }
}

proof fn lemma_fold_fault_sticks(framing: WalFraming, buffers: Seq<Vec<u8>>, n: int)
    requires
        0 <= n <= buffers.len(),
        fold_facts(framing, buffers.take(n)) is Err,
    ensures
        fold_facts(framing, buffers) == fold_facts(framing, buffers.take(n)),
    decreases buffers.len() - n,
{
    if n < buffers.len() {
        assert(buffers.take(n + 1).drop_last() == buffers.take(n));
        lemma_fold_fault_sticks(framing, buffers, n + 1);
    } else {
        assert(buffers.take(n) == buffers);
    }
}

/// Reads the facts of one vectored append.
pub fn storage_wal_vectored_facts(framing: &WalFraming, buffers: &Vec<Vec<u8>>) -> (result: Result<
    Option<AppendFacts>,
    AppendFault,
>)
    ensures
        result == fold_facts(*framing, buffers@),
{
    let mut aggregate: Option<AppendFacts> = None;
    let mut at: usize = 0;
    while at < buffers.len()
        invariant
            at <= buffers.len(),
            fold_facts(*framing, buffers@.take(at as int)) == Ok::<
                Option<AppendFacts>,
                AppendFault,
            >(aggregate),
        decreases buffers.len() - at,
    {
        let ghost prefix = buffers@.take(at + 1);
        assert(prefix.drop_last() == buffers@.take(at as int));
        assert(prefix.last() == buffers@[at as int]);
        match storage_wal_append_facts(framing, buffers[at].as_slice()) {
            Err(fault) => {
                proof {
                    lemma_fold_fault_sticks(*framing, buffers@, at + 1);
                }
                return Err(fault);
            },
            Ok(None) => {},
            Ok(Some(facts)) => match aggregate {
                None => {
                    aggregate = Some(facts);
                },
                Some(earlier) => match earlier.encoded_len.checked_add(facts.encoded_len) {
                    None => {
                        proof {
                            lemma_fold_fault_sticks(*framing, buffers@, at + 1);
                        }
                        return Err(AppendFault::LengthOverflow);
                    },
                    Some(total) => {
                        aggregate =
                        Some(
                            AppendFacts {
                                encoded_len: total,
                                first_seq: earlier.first_seq,
                                last_seq: facts.last_seq,
                            },
                        );
                    },
                },
            },
        }
        at = at + 1;
    }
    assert(buffers@.take(at as int) == buffers@);
    Ok(aggregate)
}

/// Facts of an append account for every byte behind the log header: whole
/// records and nothing else.
pub proof fn lemma_facts_account_for_the_append(framing: WalFraming, bytes: Seq<u8>)
    requires
        bytes.len() <= u64::MAX,
    ensures
        append_facts_spec(framing, bytes) matches Ok(Some(facts)) ==> records_start(framing, bytes)
            + facts.encoded_len == bytes.len(),
{
    lemma_walk_accounts(bytes, records_start(framing, bytes), 0, None, 0);
}

proof fn lemma_walk_accounts(
    bytes: Seq<u8>,
    at: int,
    encoded: int,
    first: Option<u64>,
    last: u64,
)
    requires
        bytes.len() <= u64::MAX,
        0 <= at,
        0 <= encoded <= at,
        first is Some ==> at <= bytes.len(),
    ensures
        walk(bytes, at, encoded, first, last) matches Ok(Some(facts)) ==> facts.encoded_len
            == encoded + bytes.len() - at,
    decreases bytes.len() - at,
{
    if at < bytes.len() && at + RECORD_HEADER_LEN <= bytes.len() && at + record_len(bytes, at)
        <= bytes.len() {
        let seq = record_seq(bytes, at);
        lemma_walk_accounts(
            bytes,
            at + record_len(bytes, at),
            encoded + record_len(bytes, at),
            Some(match first {
                Some(earlier) => earlier,
                None => seq,
            }),
            seq,
        );
    }
}

} // verus!
