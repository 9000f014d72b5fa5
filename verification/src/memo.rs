//! The memo file: the companion that holds the texts too long for a slot, in
//! blocks that a Memo field refers to by number.
//!
//! Two layouts exist. The classic one (`.dbt`) has blocks of 512 bytes, keeps
//! the number of the next free block in the first four bytes, least
//! significant first, and ends each text with two bytes `0x1A`. The FoxPro
//! one (`.fpt`) keeps the next free block in the first four bytes and the
//! block size in bytes six and seven, most significant first, and starts each
//! text with a type word and a length word. In both the first 512 bytes are the
//! header.

use vstd::prelude::*;
use vstd::arithmetic::div_mod::lemma_fundamental_div_mod;

use crate::bytes::{
    be_bytes_u16, be_bytes_u32, be_u16, be_u32, copy_range, filled, le_bytes_u32, le_u32,
    lemma_be_u16_round_trip, lemma_be_u32_round_trip, lemma_le_u32_round_trip, push_all,
    push_fill, read_u16_be, read_u32_be, read_u32_le, u16_be, u32_be, u32_le,
};
use crate::{Error, Failure};

verus! {

/// The bytes of a memo file's header.
pub const HEADER_SIZE: usize = 512;

/// The block size of the classic layout.
pub const CLASSIC_BLOCK_SIZE: u32 = 512;

/// The block size that a new FoxPro memo file gets.
pub const FOXPRO_BLOCK_SIZE: u32 = 64;

/// The byte that ends a text in the classic layout.
pub const TERMINATOR: u8 = 0x1a;

/// The type word of a text block in the FoxPro layout.
pub const TEXT_BLOCK: u32 = 1;

/// What is wrong with a text that holds the byte that would end it.
pub const MEMO_TERMINATOR: &'static str =
    "the text holds the byte that ends a text in this memo file";

/// What is wrong with a text that the file cannot take.
pub const MEMO_FULL: &'static str = "the memo file has no room for the text";

/// The two layouts of a memo file.
#[derive(Debug, Clone, Copy, PartialEq, Eq, Structural)]
pub enum MemoKind {
    Classic,
    FoxPro,
}

/// A memo file as plain values: its layout, what its header says, and all
/// its bytes, the header included.
pub struct MemoModel {
    pub kind: MemoKind,
    pub block_size: nat,
    pub next_free: nat,
    pub data: Seq<u8>,
}

/// The next free block that a header names.
pub open spec fn header_next_free(kind: MemoKind, data: Seq<u8>) -> int {
    match kind {
        MemoKind::Classic => le_u32(data),
        MemoKind::FoxPro => be_u32(data),
    }
}

/// The block size that a header names.
pub open spec fn header_block_size(kind: MemoKind, data: Seq<u8>) -> int {
    match kind {
        MemoKind::Classic => CLASSIC_BLOCK_SIZE as int,
        MemoKind::FoxPro => be_u16(data.skip(6)),
    }
}

/// The four bytes that name the next free block in a header.
pub open spec fn next_free_bytes(kind: MemoKind, next_free: u32) -> Seq<u8> {
    match kind {
        MemoKind::Classic => le_bytes_u32(next_free),
        MemoKind::FoxPro => be_bytes_u32(next_free),
    }
}

/// How many bytes stand in `s` before the first `stop`.
pub open spec fn run_before(s: Seq<u8>, stop: u8) -> nat
    decreases s.len(),
{
    if s.len() > 0 && s[0] != stop {
        1 + run_before(s.drop_first(), stop)
    } else {
        0
    }
}

/// How many blocks of `block_size` bytes it takes to hold `len` bytes.
pub open spec fn blocks_for(len: nat, block_size: nat) -> nat {
    ((len + block_size - 1) / (block_size as int)) as nat
}

/// A text as it lies in its blocks, before the room that fills the last one.
pub open spec fn block_bytes(kind: MemoKind, payload: Seq<u8>) -> Seq<u8> {
    match kind {
        MemoKind::Classic => payload + seq![TERMINATOR, TERMINATOR],
        MemoKind::FoxPro => be_bytes_u32(TEXT_BLOCK) + be_bytes_u32(payload.len() as u32)
            + payload,
    }
}

impl MemoModel {
    /// The header is whole, says what the model says, and no byte lies
    /// beyond the next free block.
    pub open spec fn wf(self) -> bool {
        &&& self.data.len() >= HEADER_SIZE
        &&& self.block_size == header_block_size(self.kind, self.data)
        &&& self.next_free == header_next_free(self.kind, self.data)
        &&& self.block_size > 0
        &&& self.data.len() <= self.next_free * self.block_size
    }

    /// The first block behind the header.
    pub open spec fn first_block(self) -> nat {
        blocks_for(HEADER_SIZE as nat, self.block_size)
    }

    /// The text in block `index`, if the file holds one there whole.
    pub open spec fn block_payload(self, index: nat) -> Option<Seq<u8>> {
        let start = (index * self.block_size) as int;
        if index < self.first_block() || start >= self.data.len() {
            None
        } else {
            match self.kind {
                MemoKind::Classic => {
                    let rest = self.data.skip(start);
                    let k = run_before(rest, TERMINATOR);
                    if k < rest.len() {
                        Some(rest.take(k as int))
                    } else {
                        None
                    }
                },
                MemoKind::FoxPro => {
                    if start + 8 > self.data.len() {
                        None
                    } else {
                        let len = be_u32(self.data.skip(start + 4));
                        if start + 8 + len > self.data.len() {
                            None
                        } else {
                            Some(self.data.subrange(start + 8, start + 8 + len))
                        }
                    }
                },
            }
        }
    }

    /// Why a text cannot be added, if it cannot: it holds the byte that
    /// would end it early, or the file would outgrow what block numbers and
    /// this machine can address.
    pub open spec fn append_failure(self, payload: Seq<u8>) -> Option<Failure> {
        let block = block_bytes(self.kind, payload);
        let next = self.next_free + blocks_for(block.len(), self.block_size);
        if self.kind == MemoKind::Classic && payload.contains(TERMINATOR) {
            Some(Failure::Message(MEMO_TERMINATOR@))
        } else if payload.len() > u32::MAX || next > u32::MAX || next * self.block_size
            > usize::MAX {
            Some(Failure::Message(MEMO_FULL@))
        } else {
            None
        }
    }

    /// The file with `payload` added in the next free block: room up to that
    /// block, the text in as many blocks as it takes, and a header that names
    /// the block behind them.
    pub open spec fn appended(self, payload: Seq<u8>) -> MemoModel {
        let block = block_bytes(self.kind, payload);
        let count = blocks_for(block.len(), self.block_size);
        let next = self.next_free + count;
        let body = self.data + filled(
            0,
            (self.next_free * self.block_size - self.data.len()) as nat,
        ) + block + filled(0, (count * self.block_size - block.len()) as nat);
        MemoModel {
            kind: self.kind,
            block_size: self.block_size,
            next_free: next,
            data: next_free_bytes(self.kind, next as u32) + body.skip(4),
        }
    }
}

/// The memo file that bytes are, if they are one: a whole header, a block
/// size above zero, and no byte beyond the next free block.
pub open spec fn open_memo(kind: MemoKind, data: Seq<u8>) -> Result<MemoModel, Failure> {
    let block_size = header_block_size(kind, data);
    let next_free = header_next_free(kind, data);
    if data.len() < HEADER_SIZE || block_size == 0 || data.len() > next_free * block_size {
        Err(Failure::OpeningMemoFile)
    } else {
        Ok(MemoModel { kind, block_size: block_size as nat, next_free: next_free as nat, data })
    }
}

/// A new memo file: a header and nothing behind it.
pub open spec fn new_memo(kind: MemoKind) -> MemoModel {
    match kind {
        MemoKind::Classic => MemoModel {
            kind,
            block_size: CLASSIC_BLOCK_SIZE as nat,
            next_free: 1,
            data: le_bytes_u32(1) + filled(0, 508),
        },
        MemoKind::FoxPro => MemoModel {
            kind,
            block_size: FOXPRO_BLOCK_SIZE as nat,
            next_free: 8,
            data: be_bytes_u32(8) + filled(0, 2) + be_bytes_u16(FOXPRO_BLOCK_SIZE as u16) + filled(
                0,
                504,
            ),
        },
    }
}

/// As many blocks as it takes hold the bytes, with less than a block to
/// spare.
pub proof fn lemma_blocks_for(len: nat, block_size: nat)
    requires
        block_size > 0,
    ensures
        len <= blocks_for(len, block_size) * block_size < len + block_size,
{
    let x = (len + block_size - 1) as int;
    let d = block_size as int;
    lemma_fundamental_div_mod(x, d);
    assert(0 <= x % d < d);
    assert(d * (x / d) == (x / d) * d) by (nonlinear_arith);
    assert(x / d >= 0) by (nonlinear_arith)
        requires
            x >= 0,
            d > 0,
    ;
}

/// Every block from the first one on starts behind the header.
pub proof fn lemma_first_block(index: nat, block_size: nat)
    requires
        block_size > 0,
        index >= blocks_for(HEADER_SIZE as nat, block_size),
    ensures
        index * block_size >= HEADER_SIZE,
{
    lemma_blocks_for(HEADER_SIZE as nat, block_size);
    let first = blocks_for(HEADER_SIZE as nat, block_size);
    assert(first * block_size <= index * block_size) by (nonlinear_arith)
        requires
            first <= index,
    ;
}

/// Bytes without `stop`, then `stop`: the run ends where `stop` stands.
pub proof fn lemma_run_before_stop(payload: Seq<u8>, stop: u8, rest: Seq<u8>)
    requires
        !payload.contains(stop),
    ensures
        run_before(payload + seq![stop] + rest, stop) == payload.len(),
    decreases payload.len(),
{
    let s = payload + seq![stop] + rest;
    if payload.len() == 0 {
        assert(s[0] == stop);
    } else {
        assert(s[0] == payload[0]);
        assert(payload.contains(payload[0]));
        assert(s.drop_first() =~= payload.drop_first() + seq![stop] + rest);
        assert forall|b: u8| payload.drop_first().contains(b) implies payload.contains(b) by {
            let i = choose|i: int| 0 <= i < payload.len() - 1 && payload.drop_first()[i] == b;
            assert(payload[i + 1] == b);
        }
        lemma_run_before_stop(payload.drop_first(), stop, rest);
    }
}

/// A run that ends within `s` ends at the same place whatever follows `s`.
pub proof fn lemma_run_before_extended(s: Seq<u8>, stop: u8, more: Seq<u8>)
    requires
        run_before(s, stop) < s.len(),
    ensures
        run_before(s + more, stop) == run_before(s, stop),
        (s + more).take(run_before(s, stop) as int) == s.take(run_before(s, stop) as int),
    decreases s.len(),
{
    let t = s + more;
    let k = run_before(s, stop) as int;
    assert(t[0] == s[0]);
    if s[0] != stop {
        assert(t.drop_first() =~= s.drop_first() + more);
        lemma_run_before_extended(s.drop_first(), stop, more);
    }
    lemma_run_before_shape(s, stop);
    assert(t.take(k) =~= s.take(k));
}

/// A run holds no `stop`, and ends where one stands or where `s` ends.
pub proof fn lemma_run_before_shape(s: Seq<u8>, stop: u8)
    ensures
        run_before(s, stop) <= s.len(),
        !s.take(run_before(s, stop) as int).contains(stop),
        run_before(s, stop) < s.len() ==> s[run_before(s, stop) as int] == stop,
    decreases s.len(),
{
    let k = run_before(s, stop) as int;
    if s.len() > 0 && s[0] != stop {
        let t = s.drop_first();
        lemma_run_before_shape(t, stop);
        if s.take(k).contains(stop) {
            let i = choose|i: int| 0 <= i < k && s.take(k)[i] == stop;
            assert(i > 0);
            assert(t.take(k - 1)[i - 1] == stop);
        }
        if k < s.len() {
            assert(s[k] == t[k - 1]);
        }
    } else {
        assert(s.take(0).len() == 0);
    }
}

/// Where the bytes of a file with a text added come from: the header names
/// the block behind the text, the rest of the old file is as it was, and the
/// text lies in its blocks from the old next free block on.
pub proof fn lemma_appended_layout(m: MemoModel, payload: Seq<u8>)
    requires
        m.wf(),
        m.append_failure(payload).is_none(),
    ensures
        ({
            let after = m.appended(payload);
            let block = block_bytes(m.kind, payload);
            let count = blocks_for(block.len(), m.block_size);
            let start = (m.next_free * m.block_size) as int;
            let head = next_free_bytes(m.kind, (m.next_free + count) as u32);
            &&& after.kind == m.kind
            &&& after.block_size == m.block_size
            &&& after.next_free == m.next_free + count
            &&& after.next_free <= u32::MAX
            &&& count >= 1
            &&& HEADER_SIZE <= m.data.len() <= start
            &&& after.data.len() == after.next_free * m.block_size
            &&& after.data.len() >= start + block.len()
            &&& head.len() == 4
            &&& after.data[0] == head[0] && after.data[1] == head[1] && after.data[2] == head[2]
                && after.data[3] == head[3]
            &&& (forall|j: int| 4 <= j < m.data.len() ==> after.data[j] == m.data[j])
            &&& (forall|j: int| 0 <= j < block.len() ==> after.data[start + j] == block[j])
        }),
{
    let after = m.appended(payload);
    let block = block_bytes(m.kind, payload);
    let count = blocks_for(block.len(), m.block_size);
    let next = m.next_free + count;
    let start = (m.next_free * m.block_size) as int;
    let gap = filled(0, (start - m.data.len()) as nat);
    let room = filled(0, (count * m.block_size - block.len()) as nat);
    let body = m.data + gap + block + room;
    let head = next_free_bytes(m.kind, next as u32);
    lemma_blocks_for(block.len(), m.block_size);
    lemma_block_len(m.kind, payload);
    assert(next * m.block_size == start + count * m.block_size) by (nonlinear_arith)
        requires
            next == m.next_free + count,
            start == m.next_free * m.block_size,
    ;
    assert(count >= 1) by {
        if count == 0 {
            assert(count * m.block_size == 0);
        }
    }
    assert(body.len() == next * m.block_size);
    assert(after.data == head + body.skip(4));
    assert(after.data.len() == body.len());
    assert forall|j: int| 4 <= j < body.len() implies after.data[j] == body[j] by {
        assert(after.data[j] == body.skip(4)[j - 4]);
    }
    assert forall|j: int| 0 <= j < block.len() implies after.data[start + j] == block[j] by {
        assert(after.data[start + j] == body[start + j]);
    }
}

/// The text of a block in the classic layout is what stands before the
/// terminator.
pub proof fn lemma_classic_block(data: Seq<u8>, start: int, payload: Seq<u8>)
    requires
        0 <= start,
        start + payload.len() + 2 <= data.len(),
        !payload.contains(TERMINATOR),
        forall|j: int|
            0 <= j < payload.len() + 2 ==> data[start + j] == (payload + seq![
                TERMINATOR,
                TERMINATOR,
            ])[j],
    ensures
        run_before(data.skip(start), TERMINATOR) == payload.len(),
        data.skip(start).take(payload.len() as int) == payload,
{
    let rest = data.skip(start);
    let block = payload + seq![TERMINATOR, TERMINATOR];
    let tail = rest.skip(payload.len() as int + 1);
    assert(rest =~= payload + seq![TERMINATOR] + tail) by {
        assert forall|j: int| 0 <= j < rest.len() implies rest[j] == (payload + seq![TERMINATOR]
            + tail)[j] by {
            if j <= payload.len() {
                assert(rest[j] == data[start + j]);
                assert(data[start + j] == block[j]);
            }
        }
    }
    lemma_run_before_stop(payload, TERMINATOR, tail);
    assert(rest.take(payload.len() as int) =~= payload);
}

/// A text that was added is the text of the block whose number came back.
pub proof fn lemma_append_then_read(m: MemoModel, payload: Seq<u8>)
    requires
        m.wf(),
        m.append_failure(payload).is_none(),
    ensures
        m.appended(payload).wf(),
        m.appended(payload).block_payload(m.next_free) == Some(payload),
        m.appended(payload).data.len() == m.appended(payload).next_free * m.block_size,
{
    let after = m.appended(payload);
    let block = block_bytes(m.kind, payload);
    let start = (m.next_free * m.block_size) as int;
    lemma_appended_layout(m, payload);
    lemma_block_len(m.kind, payload);
    lemma_le_u32_round_trip(after.next_free as u32);
    lemma_be_u32_round_trip(after.next_free as u32);
    assert(after.next_free == header_next_free(after.kind, after.data));
    assert(after.block_size == header_block_size(after.kind, after.data)) by {
        assert(after.data.skip(6)[0] == m.data[6] && after.data.skip(6)[1] == m.data[7]);
        assert(m.data.skip(6)[0] == m.data[6] && m.data.skip(6)[1] == m.data[7]);
    }
    assert(m.first_block() <= m.next_free) by {
        lemma_blocks_for(HEADER_SIZE as nat, m.block_size);
        let first = m.first_block();
        if m.next_free < first {
            assert(m.next_free * m.block_size <= (first - 1) * m.block_size) by (nonlinear_arith)
                requires
                    m.next_free <= first - 1,
            ;
            assert((first - 1) * m.block_size == first * m.block_size - m.block_size)
                by (nonlinear_arith);
        }
    }
    match m.kind {
        MemoKind::Classic => {
            lemma_classic_block(after.data, start, payload);
        },
        MemoKind::FoxPro => {
            lemma_be_u32_round_trip(payload.len() as u32);
            let len_bytes = be_bytes_u32(payload.len() as u32);
            let at = after.data.skip(start + 4);
            assert(at[0] == len_bytes[0] && at[1] == len_bytes[1] && at[2] == len_bytes[2]
                && at[3] == len_bytes[3]) by {
                assert(at[0] == after.data[start + 4] && block[4] == len_bytes[0]);
                assert(at[1] == after.data[start + 5] && block[5] == len_bytes[1]);
                assert(at[2] == after.data[start + 6] && block[6] == len_bytes[2]);
                assert(at[3] == after.data[start + 7] && block[7] == len_bytes[3]);
            }
            assert(after.data.subrange(start + 8, start + 8 + payload.len() as int)
                =~= payload) by {
                assert forall|j: int| 0 <= j < payload.len() implies after.data[start + 8 + j]
                    == payload[j] by {
                    assert(block[8 + j] == payload[j]);
                }
            }
        },
    }
}

/// Whether `later` is `earlier` with more behind it: the same layout, and
/// every byte behind the header of `earlier` still in its place.
pub open spec fn extends(earlier: MemoModel, later: MemoModel) -> bool {
    &&& later.kind == earlier.kind
    &&& later.block_size == earlier.block_size
    &&& earlier.data.len() <= later.data.len()
    &&& forall|j: int| HEADER_SIZE <= j < earlier.data.len() ==> later.data[j] == earlier.data[j]
}

/// Whether a memo file has only grown from `earlier` to `later`, where there
/// is one at all: none stays none, and one is extended.
pub open spec fn grown(earlier: Option<MemoModel>, later: Option<MemoModel>) -> bool {
    match (earlier, later) {
        (None, None) => true,
        (Some(a), Some(b)) => extends(a, b),
        _ => false,
    }
}

/// A file with a text added extends the file.
pub proof fn lemma_appended_extends(m: MemoModel, payload: Seq<u8>)
    requires
        m.wf(),
        m.append_failure(payload).is_none(),
    ensures
        extends(m, m.appended(payload)),
{
    lemma_appended_layout(m, payload);
}

/// Every text that can be read from a file can be read from a file that
/// extends it, and is the same there.
pub proof fn lemma_extends_keeps_blocks(m: MemoModel, later: MemoModel, index: nat)
    requires
        m.wf(),
        extends(m, later),
        m.block_payload(index).is_some(),
    ensures
        later.block_payload(index) == m.block_payload(index),
{
    let start = (index * m.block_size) as int;
    lemma_first_block(index, m.block_size);
    let more = later.data.skip(m.data.len() as int);
    assert(later.data.skip(start) =~= m.data.skip(start) + more);
    match m.kind {
        MemoKind::Classic => {
            lemma_run_before_extended(m.data.skip(start), TERMINATOR, more);
        },
        MemoKind::FoxPro => {
            let a = later.data.skip(start + 4);
            let b = m.data.skip(start + 4);
            assert(a[0] == b[0] && a[1] == b[1] && a[2] == b[2] && a[3] == b[3]);
            let len = be_u32(b);
            assert(later.data.subrange(start + 8, start + 8 + len) =~= m.data.subrange(
                start + 8,
                start + 8 + len,
            ));
        },
    }
}

/// Adding a text leaves every text that could be read before as it was.
pub proof fn lemma_append_keeps_blocks(m: MemoModel, payload: Seq<u8>, index: nat)
    requires
        m.wf(),
        m.append_failure(payload).is_none(),
        m.block_payload(index).is_some(),
    ensures
        m.appended(payload).block_payload(index) == m.block_payload(index),
{
    lemma_appended_extends(m, payload);
    lemma_extends_keeps_blocks(m, m.appended(payload), index);
}

/// A new memo file is well formed and holds no text.
pub proof fn lemma_new_memo(kind: MemoKind)
    ensures
        new_memo(kind).wf(),
        new_memo(kind).data.len() == HEADER_SIZE,
        new_memo(kind).next_free == new_memo(kind).first_block(),
        open_memo(kind, new_memo(kind).data) == Ok::<MemoModel, Failure>(new_memo(kind)),
{
    let m = new_memo(kind);
    lemma_le_u32_round_trip(1);
    lemma_be_u32_round_trip(8);
    lemma_be_u16_round_trip(FOXPRO_BLOCK_SIZE as u16);
    match kind {
        MemoKind::Classic => {
            let head = le_bytes_u32(1);
            assert(m.data[0] == head[0] && m.data[1] == head[1] && m.data[2] == head[2]
                && m.data[3] == head[3]);
        },
        MemoKind::FoxPro => {
            let head = be_bytes_u32(8);
            let size = be_bytes_u16(FOXPRO_BLOCK_SIZE as u16);
            assert(m.data[0] == head[0] && m.data[1] == head[1] && m.data[2] == head[2]
                && m.data[3] == head[3]);
            assert(m.data.skip(6)[0] == size[0] && m.data.skip(6)[1] == size[1]);
        },
    }
}

/// A memo file held in memory.
#[derive(Debug, PartialEq, Eq)]
pub struct MemoFile {
    kind: MemoKind,
    block_size: u32,
    next_free: u32,
    data: Vec<u8>,
}

impl View for MemoFile {
    type V = MemoModel;

    closed spec fn view(&self) -> MemoModel {
        MemoModel {
            kind: self.kind,
            block_size: self.block_size as nat,
            next_free: self.next_free as nat,
            data: self.data@,
        }
    }
}

impl Clone for MemoFile {
    fn clone(&self) -> (memo: MemoFile)
        ensures
            memo@ == self@,
    {
        proof {
            use_type_invariant(self);
        }
        let data = copy_range(self.data.as_slice(), 0, self.data.len());
        assert(data@ =~= self.data@);
        MemoFile {
            kind: self.kind,
            block_size: self.block_size,
            next_free: self.next_free,
            data,
        }
    }
}

/// The result of opening a memo file, as contracts speak of it.
pub open spec fn outcome_memo(r: Result<MemoFile, Error>) -> Result<MemoModel, Failure> {
    match r {
        Ok(memo) => Ok(memo@),
        Err(e) => Err(e@),
    }
}

/// The result of reading a block, as contracts speak of it.
pub open spec fn outcome_bytes(r: Result<Vec<u8>, Error>) -> Result<Seq<u8>, Failure> {
    match r {
        Ok(bytes) => Ok(bytes@),
        Err(e) => Err(e@),
    }
}

impl MemoFile {
    #[verifier::type_invariant]
    closed spec fn inv(self) -> bool {
        self@.wf()
    }

    /// What holds of every memo file: its header is whole and says what the
    /// file is.
    pub open spec fn wf(&self) -> bool {
        self@.wf()
    }

    /// Tells what holds of every memo file.
    pub(crate) fn check(&self)
        ensures
            self.wf(),
    {
        proof {
            use_type_invariant(self);
        }
    }

    /// A new memo file of the given layout, with no text in it.
    pub fn new(kind: MemoKind) -> (memo: MemoFile)
        ensures
            memo@ == new_memo(kind),
            memo.wf(),
    {
        proof {
            lemma_new_memo(kind);
        }
        let mut data: Vec<u8> = Vec::new();
        match kind {
            MemoKind::Classic => {
                let head = u32_le(1);
                push_all(&mut data, head.as_slice());
                push_fill(&mut data, 0, 508);
                assert(data@ =~= new_memo(kind).data);
                MemoFile { kind, block_size: CLASSIC_BLOCK_SIZE, next_free: 1, data }
            },
            MemoKind::FoxPro => {
                let head = u32_be(8);
                let size = u16_be(FOXPRO_BLOCK_SIZE as u16);
                push_all(&mut data, head.as_slice());
                push_fill(&mut data, 0, 2);
                push_all(&mut data, size.as_slice());
                push_fill(&mut data, 0, 504);
                assert(data@ =~= new_memo(kind).data);
                MemoFile { kind, block_size: FOXPRO_BLOCK_SIZE, next_free: 8, data }
            },
        }
    }

    /// The memo file that `data` is, read as the given layout.
    pub fn open(kind: MemoKind, data: Vec<u8>) -> (r: Result<MemoFile, Error>)
        ensures
            outcome_memo(r) == open_memo(kind, data@),
            r matches Ok(memo) ==> memo.wf(),
    {
        if data.len() < HEADER_SIZE {
            return Err(Error::bad_memo_file());
        }
        let (block_size, next_free): (u32, u32) = match kind {
            MemoKind::Classic => (CLASSIC_BLOCK_SIZE, read_u32_le(data.as_slice())),
            MemoKind::FoxPro => {
                let size = read_u16_be(vstd::slice::slice_subrange(data.as_slice(), 6, 8));
                assert(data@.subrange(6, 8)[0] == data@.skip(6)[0]);
                assert(data@.subrange(6, 8)[1] == data@.skip(6)[1]);
                (size as u32, read_u32_be(data.as_slice()))
            },
        };
        if block_size == 0 {
            return Err(Error::bad_memo_file());
        }
        let end: u64 = wide_product(next_free, block_size);
        if data.len() as u64 > end {
            return Err(Error::bad_memo_file());
        }
        Ok(MemoFile { kind, block_size, next_free, data })
    }

    /// The layout of the file.
    pub fn kind(&self) -> (kind: MemoKind)
        ensures
            kind == self@.kind,
    {
        self.kind
    }

    /// The bytes of one block.
    pub fn block_size(&self) -> (block_size: u32)
        ensures
            block_size == self@.block_size,
    {
        self.block_size
    }

    /// The number that the next text will get.
    pub fn next_free_block(&self) -> (next_free: u32)
        ensures
            next_free == self@.next_free,
    {
        self.next_free
    }

    /// The bytes of the file, header included.
    pub fn as_bytes(&self) -> (bytes: &[u8])
        ensures
            bytes@ == self@.data,
    {
        self.data.as_slice()
    }

    /// The bytes of the file, header included.
    pub fn into_bytes(self) -> (bytes: Vec<u8>)
        ensures
            bytes@ == self@.data,
    {
        self.data
    }

    /// The text in block `index`. A block that the file does not hold whole
    /// is an input that ended too early.
    pub fn read_block(&self, index: u32) -> (r: Result<Vec<u8>, Error>)
        ensures
            self.wf(),
            outcome_bytes(r) == match self@.block_payload(index as nat) {
                Some(payload) => Ok::<Seq<u8>, Failure>(payload),
                None => Err(Failure::Io),
            },
    {
        proof {
            use_type_invariant(self);
        }
        let bs: u64 = self.block_size as u64;
        let first: u64 = (HEADER_SIZE as u64 + bs - 1) / bs;
        let offset: u64 = wide_product(index, self.block_size);
        let len = self.data.len();
        if (index as u64) < first || offset >= len as u64 {
            return Err(Error::truncated());
        }
        let start = offset as usize;
        let data = self.data.as_slice();
        match self.kind {
            MemoKind::Classic => {
                let mut i: usize = start;
                let ghost rest = data@.skip(start as int);
                while i < len && data[i] != TERMINATOR
                    invariant
                        start <= i <= len,
                        len == data@.len(),
                        rest == data@.skip(start as int),
                        run_before(rest, TERMINATOR) == (i - start) + run_before(
                            data@.skip(i as int),
                            TERMINATOR,
                        ),
                    decreases len - i,
                {
                    assert(data@.skip(i as int).drop_first() =~= data@.skip(i + 1));
                    i = i + 1;
                }
                if i == len {
                    return Err(Error::truncated());
                }
                assert(rest.take(i - start) =~= data@.subrange(start as int, i as int));
                Ok(copy_range(data, start, i))
            },
            MemoKind::FoxPro => {
                if len - start < 8 {
                    return Err(Error::truncated());
                }
                let word = vstd::slice::slice_subrange(data, start + 4, start + 8);
                let size = read_u32_be(word);
                proof {
                    let at = data@.skip(start + 4);
                    assert(word@[0] == at[0] && word@[1] == at[1] && word@[2] == at[2]
                        && word@[3] == at[3]);
                }
                if size as u64 > (len - start - 8) as u64 {
                    return Err(Error::truncated());
                }
                Ok(copy_range(data, start + 8, start + 8 + size as usize))
            },
        }
    }

    /// How the file grows by a text of `payload_len` bytes: the number of the
    /// block behind it, the room to fill up to where the text starts, and
    /// the room to fill behind it. Nothing where the file would outgrow what
    /// block numbers and this machine can address.
    fn growth(&self, payload_len: u32) -> (r: Option<(u32, usize, usize)>)
        requires
            self.wf(),
        ensures
            ({
                let block_len = payload_len as nat + match self@.kind {
                    MemoKind::Classic => 2nat,
                    MemoKind::FoxPro => 8nat,
                };
                let count = blocks_for(block_len, self@.block_size);
                let next = self@.next_free + count;
                match r {
                    None => next > u32::MAX || next * self@.block_size > usize::MAX,
                    Some((n, gap, room)) => {
                        &&& n == next
                        &&& next * self@.block_size <= usize::MAX
                        &&& gap == self@.next_free * self@.block_size - self@.data.len()
                        &&& room == count * self@.block_size - block_len
                    },
                }
            }),
    {
        let bs: u64 = self.block_size as u64;
        let extra: u64 = match self.kind {
            MemoKind::Classic => 2,
            MemoKind::FoxPro => 8,
        };
        let block_len: u64 = payload_len as u64 + extra;
        let count: u64 = (block_len + bs - 1) / bs;
        proof {
            lemma_blocks_for(block_len as nat, bs as nat);
            assert(count <= block_len) by (nonlinear_arith)
                requires
                    count * bs < block_len + bs,
                    bs >= 1,
                    count >= 0,
                    block_len >= 1,
            ;
        }
        let next: u64 = self.next_free as u64 + count;
        if next > u32::MAX as u64 {
            return None;
        }
        let end: u64 = wide_product(next as u32, self.block_size);
        if end > usize::MAX as u64 {
            return None;
        }
        let start: u64 = wide_product(self.next_free, self.block_size);
        let filled_blocks: u64 = wide_product(count as u32, self.block_size);
        assert(end == start + filled_blocks) by (nonlinear_arith)
            requires
                end == next * bs,
                start == self.next_free as u64 * bs,
                filled_blocks == count * bs,
                next == self.next_free as u64 + count,
        ;
        Some(
            (
                next as u32,
                (start - self.data.len() as u64) as usize,
                (filled_blocks - block_len) as usize,
            ),
        )
    }

    /// Adds `payload` as a new text and gives the number of its block. The
    /// file is left as it was where the text cannot be added.
    pub fn append_block(&mut self, payload: &[u8]) -> (r: Result<u32, Error>)
        ensures
            old(self).wf(),
            final(self).wf(),
            match old(self)@.append_failure(payload@) {
                Some(failure) => r matches Err(e) && e@ == failure && final(self)@ == old(self)@,
                None => r matches Ok(index) && index == old(self)@.next_free && final(self)@
                    == old(self)@.appended(payload@),
            },
    {
        proof {
            use_type_invariant(&*self);
        }
        let ghost before = self@;
        if self.kind == MemoKind::Classic && contains_byte(payload, TERMINATOR) {
            return Err(Error::message(MEMO_TERMINATOR));
        }
        if payload.len() > u32::MAX as usize {
            return Err(Error::message(MEMO_FULL));
        }
        proof {
            lemma_block_len(self.kind, payload@);
        }
        let (next, gap, room) = match self.growth(payload.len() as u32) {
            Some(plan) => plan,
            None => {
                return Err(Error::message(MEMO_FULL));
            },
        };
        let mut data: Vec<u8> = Vec::new();
        let head = match self.kind {
            MemoKind::Classic => u32_le(next),
            MemoKind::FoxPro => u32_be(next),
        };
        push_all(&mut data, head.as_slice());
        push_all(&mut data, vstd::slice::slice_subrange(self.data.as_slice(), 4, self.data.len()));
        push_fill(&mut data, 0, gap);
        let ghost front = data@;
        match self.kind {
            MemoKind::Classic => {
                push_all(&mut data, payload);
                data.push(TERMINATOR);
                data.push(TERMINATOR);
            },
            MemoKind::FoxPro => {
                let kind_word = u32_be(TEXT_BLOCK);
                let len_word = u32_be(payload.len() as u32);
                push_all(&mut data, kind_word.as_slice());
                push_all(&mut data, len_word.as_slice());
                push_all(&mut data, payload);
            },
        }
        assert(data@ =~= front + block_bytes(self.kind, payload@));
        push_fill(&mut data, 0, room);
        let index = self.next_free;
        proof {
            lemma_append_then_read(before, payload@);
            lemma_appended_data(before, payload@);
            assert(self.data@.subrange(4, self.data@.len() as int) =~= before.data.skip(4));
        }
        *self = MemoFile { kind: self.kind, block_size: self.block_size, next_free: next, data };
        Ok(index)
    }
}

/// How long a text is in its blocks.
pub proof fn lemma_block_len(kind: MemoKind, payload: Seq<u8>)
    ensures
        block_bytes(kind, payload).len() == payload.len() + match kind {
            MemoKind::Classic => 2nat,
            MemoKind::FoxPro => 8nat,
        },
{
}

/// The bytes of a file with a text added, part by part.
pub proof fn lemma_appended_data(m: MemoModel, payload: Seq<u8>)
    requires
        m.wf(),
    ensures
        ({
            let block = block_bytes(m.kind, payload);
            let count = blocks_for(block.len(), m.block_size);
            m.appended(payload).data == next_free_bytes(m.kind, (m.next_free + count) as u32)
                + m.data.skip(4) + filled(0, (m.next_free * m.block_size - m.data.len()) as nat)
                + block + filled(0, (count * m.block_size - block.len()) as nat)
        }),
{
    let block = block_bytes(m.kind, payload);
    let count = blocks_for(block.len(), m.block_size);
    let gap = filled(0, (m.next_free * m.block_size - m.data.len()) as nat);
    let room = filled(0, (count * m.block_size - block.len()) as nat);
    let head = next_free_bytes(m.kind, (m.next_free + count) as u32);
    assert((m.data + gap + block + room).skip(4) =~= m.data.skip(4) + gap + block + room);
    assert(head + (m.data.skip(4) + gap + block + room) =~= head + m.data.skip(4) + gap + block
        + room);
}

/// The product of two 32-bit numbers, which 64 bits always hold.
pub fn wide_product(a: u32, b: u32) -> (product: u64)
    ensures
        product == a * b,
        product <= 0xffff_ffff * b,
        product <= a * 0xffff_ffff,
{
    assert(a * b <= 0xffff_ffff * 0xffff_ffff && a * b <= 0xffff_ffff * b && a * b <= a
        * 0xffff_ffff) by (nonlinear_arith)
        requires
            0 <= a <= 0xffff_ffff,
            0 <= b <= 0xffff_ffff,
    ;
    (a as u64) * (b as u64)
}

/// Whether `byte` stands somewhere in `bytes`.
pub fn contains_byte(bytes: &[u8], byte: u8) -> (found: bool)
    ensures
        found == bytes@.contains(byte),
{
    let mut i: usize = 0;
    while i < bytes.len()
        invariant
            i <= bytes@.len(),
            forall|j: int| 0 <= j < i ==> bytes@[j] != byte,
        decreases bytes@.len() - i,
    {
        if bytes[i] == byte {
            return true;
        }
        i = i + 1;
    }
    false
}

} // verus!
