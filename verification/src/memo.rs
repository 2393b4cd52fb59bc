//! Memo files: variable-length text stored out of line in blocks, in one of
//! three layouts.

use crate::endian::{
    be_u16, be_u32, le_u16, le_u32, read_u16_be, read_u16_le, read_u32_be, read_u32_le,
};
use crate::error::Error;
use crate::reader::ByteReader;
use vstd::prelude::*;
use vstd::slice::{slice_subrange, slice_to_vec};

verus! {

/// Byte that ends the text of a block in the classic dBase layout.
pub const DBASE_MEMO_TERMINATOR: u8 = 0x1A;

/// Byte that ends the text of a block in the dBase IV layout.
pub const DBASE4_MEMO_TERMINATOR: u8 = 0x1F;

/// Block size that a stored size of zero stands for.
pub const DEFAULT_BLOCK_SIZE: u32 = 512;

/// Layout of a memo file.
#[derive(Debug, Copy, Clone, PartialEq, Eq, Structural)]
pub enum MemoFileType {
    DbaseMemo,
    DbaseMemo4,
    FoxBaseMemo,
}

/// What the first bytes of a memo file say about the rest.
#[derive(Debug, Copy, Clone, PartialEq, Eq, Structural)]
pub struct MemoHeader {
    pub next_available_block_index: u32,
    pub block_size: u32,
}

/// Number of leading bytes of `s` that differ from `stop`: the index of the
/// first `stop`, or the length of `s` where there is none.
pub open spec fn first_stop(s: Seq<u8>, stop: u8) -> int
    decreases s.len(),
{
    if s.len() == 0 || s[0] == stop {
        0
    } else {
        1 + first_stop(s.skip(1), stop)
    }
}

/// `s` cut off before its first `stop` byte; all of `s` where it has none.
pub open spec fn cut_at(s: Seq<u8>, stop: u8) -> Seq<u8> {
    s.take(first_stop(s, stop))
}

/// Length of `s` once its trailing zero bytes are taken away.
pub open spec fn kept_len(s: Seq<u8>) -> int
    decreases s.len(),
{
    if s.len() == 0 {
        0
    } else if s.last() != 0 {
        s.len() as int
    } else {
        kept_len(s.drop_last())
    }
}

/// `s` without its trailing zero bytes.
pub open spec fn strip_trailing_zeros(s: Seq<u8>) -> Seq<u8> {
    s.take(kept_len(s))
}

/// The payload of a length-prefixed block: `rest` starts with a four-byte
/// tag and a four-byte length, and `length` is that length.
pub open spec fn prefixed_payload(rest: Seq<u8>, length: int) -> Result<Seq<u8>, Error> {
    if rest.len() < 8 || rest.len() < 8 + length {
        Err(Error::UnexpectedEof)
    } else {
        Ok(rest.subrange(8, 8 + length))
    }
}

impl MemoHeader {
    /// Number of bytes that the header takes in a file of the given layout.
    pub open spec fn encoded_len(memo_type: MemoFileType) -> nat {
        match memo_type {
            MemoFileType::FoxBaseMemo => 8,
            _ => 6,
        }
    }

    /// The header that `bytes` start with.
    ///
    /// The next free block index comes first, little-endian. The two dBase
    /// layouts follow it with a little-endian 16-bit block size, zero
    /// standing for 512; FoxBase skips two bytes and stores the block size
    /// big-endian.
    pub open spec fn decode(bytes: Seq<u8>, memo_type: MemoFileType) -> Result<MemoHeader, Error> {
        if bytes.len() < Self::encoded_len(memo_type) {
            Err(Error::UnexpectedEof)
        } else {
            Ok(
                MemoHeader {
                    next_available_block_index: le_u32(bytes) as u32,
                    block_size: match memo_type {
                        MemoFileType::FoxBaseMemo => be_u16(bytes.skip(6)) as u32,
                        _ => if le_u16(bytes.skip(4)) == 0 {
                            DEFAULT_BLOCK_SIZE
                        } else {
                            le_u16(bytes.skip(4)) as u32
                        },
                    },
                },
            )
        }
    }

    /// Reads the header at the position of `src` and advances past it.
    pub fn read_from(src: &mut ByteReader, memo_type: MemoFileType) -> (r: Result<Self, Error>)
        ensures
            final(src).bytes() == old(src).bytes(),
            r == Self::decode(old(src).remaining(), memo_type),
            r is Ok ==> final(src).pos() == old(src).pos() + Self::encoded_len(memo_type),
            r is Err ==> final(src).pos() == old(src).bytes().len(),
    {
        let ghost all = src.remaining();
        let word = src.read_exact(4)?;
        let next_available_block_index = read_u32_le(word.as_slice());
        assert(le_u32(word@) == le_u32(all));
        let block_size = match memo_type {
            MemoFileType::DbaseMemo | MemoFileType::DbaseMemo4 => {
                let half = src.read_exact(2)?;
                assert(le_u16(half@) == le_u16(all.skip(4)));
                let stored = read_u16_le(half.as_slice());
                if stored == 0 {
                    DEFAULT_BLOCK_SIZE
                } else {
                    stored as u32
                }
            },
            MemoFileType::FoxBaseMemo => {
                let _reserved = src.read_exact(2)?;
                let half = src.read_exact(2)?;
                assert(be_u16(half@) == be_u16(all.skip(6)));
                read_u16_be(half.as_slice()) as u32
            },
        };
        Ok(MemoHeader { next_available_block_index, block_size })
    }
}

/// The text of block `index` in a memo file that holds `bytes`.
///
/// The block starts `index * block_size` bytes into the file. FoxBase and
/// dBase IV blocks carry a four-byte tag and a four-byte length, big-endian
/// and little-endian in turn, and then that many bytes of payload: FoxBase
/// drops the zero bytes at its end, dBase IV stops before the first `0x1F`.
/// A classic dBase block is `block_size` bytes long and stops before the
/// first `0x1A`; the last block in use may be cut short by the end of the
/// file, and then holds what is there.
pub open spec fn memo_block(
    bytes: Seq<u8>,
    header: MemoHeader,
    memo_type: MemoFileType,
    index: u32,
) -> Result<Seq<u8>, Error> {
    let rest = block_start(bytes, header, index);
    match memo_type {
        MemoFileType::FoxBaseMemo => match prefixed_payload(rest, be_u32(rest.skip(4))) {
            Ok(payload) => Ok(strip_trailing_zeros(payload)),
            Err(e) => Err(e),
        },
        MemoFileType::DbaseMemo4 => match prefixed_payload(rest, le_u32(rest.skip(4))) {
            Ok(payload) => Ok(cut_at(payload, DBASE4_MEMO_TERMINATOR)),
            Err(e) => Err(e),
        },
        MemoFileType::DbaseMemo => if rest.len() >= header.block_size {
            Ok(cut_at(rest.take(header.block_size as int), DBASE_MEMO_TERMINATOR))
        } else if index as int == header.next_available_block_index as int - 1 {
            Ok(cut_at(rest, DBASE_MEMO_TERMINATOR))
        } else {
            Err(Error::UnexpectedEof)
        },
    }
}

/// `first_stop` is the one index with no `stop` before it that either ends
/// `s` or holds `stop`.
pub proof fn lemma_first_stop(s: Seq<u8>, stop: u8, k: int)
    requires
        0 <= k <= s.len(),
        forall|i: int| 0 <= i < k ==> s[i] != stop,
        k < s.len() ==> s[k] == stop,
    ensures
        first_stop(s, stop) == k,
    decreases s.len(),
{
    if k > 0 {
        let t = s.skip(1);
        assert forall|i: int| 0 <= i < k - 1 implies t[i] != stop by {
            assert(t[i] == s[i + 1]);
        }
        lemma_first_stop(t, stop, k - 1);
    }
}

/// `kept_len` is the one length after which `s` holds zero bytes only and
/// whose last byte, if it has one, is not zero.
pub proof fn lemma_kept_len(s: Seq<u8>, k: int)
    requires
        0 <= k <= s.len(),
        forall|i: int| k <= i < s.len() ==> s[i] == 0,
        k > 0 ==> s[k - 1] != 0,
    ensures
        kept_len(s) == k,
    decreases s.len(),
{
    if k < s.len() {
        lemma_kept_len(s.drop_last(), k);
    }
}

/// Text followed by zero bytes only is what is left once the zeros at the
/// end are taken away, if the text itself does not end in one. Where all
/// bytes are zero, nothing is left.
pub proof fn lemma_strip_padding(text: Seq<u8>, padding: Seq<u8>)
    requires
        text.len() > 0 ==> text.last() != 0,
        forall|i: int| 0 <= i < padding.len() ==> padding[i] == 0,
    ensures
        strip_trailing_zeros(text + padding) == text,
{
    let all = text + padding;
    assert forall|i: int| text.len() <= i < all.len() implies all[i] == 0 by {
        assert(all[i] == padding[i - text.len()]);
    }
    lemma_kept_len(all, text.len() as int);
    assert(all.take(text.len() as int) =~= text);
}

/// Bytes with a `stop` at index `at` and none before it are cut to the
/// `at` bytes before it.
pub proof fn lemma_cut_at_first(s: Seq<u8>, stop: u8, at: int)
    requires
        0 <= at < s.len(),
        s[at] == stop,
        forall|i: int| 0 <= i < at ==> s[i] != stop,
    ensures
        cut_at(s, stop) == s.take(at),
{
    lemma_first_stop(s, stop, at);
}

/// Bytes that hold no `stop` are left whole.
pub proof fn lemma_cut_at_absent(s: Seq<u8>, stop: u8)
    requires
        forall|i: int| 0 <= i < s.len() ==> s[i] != stop,
    ensures
        cut_at(s, stop) == s,
{
    lemma_first_stop(s, stop, s.len() as int);
    assert(s.take(s.len() as int) =~= s);
}

/// The part of a memo file that starts at block `index`.
pub open spec fn block_start(bytes: Seq<u8>, header: MemoHeader, index: u32) -> Seq<u8> {
    let offset = index as int * header.block_size as int;
    if offset >= bytes.len() {
        Seq::empty()
    } else {
        bytes.skip(offset)
    }
}

/// A FoxBase block that holds its tag, the length of `payload` and then
/// `payload` gives `payload` without the zero bytes at its end, whatever
/// padding follows; a payload of zero bytes only gives nothing.
pub proof fn lemma_foxbase_block(bytes: Seq<u8>, header: MemoHeader, index: u32, payload: Seq<u8>)
    requires
        block_start(bytes, header, index).len() >= 8 + payload.len(),
        be_u32(block_start(bytes, header, index).skip(4)) == payload.len(),
        block_start(bytes, header, index).subrange(8, 8 + payload.len() as int) == payload,
    ensures
        memo_block(bytes, header, MemoFileType::FoxBaseMemo, index) == Ok::<Seq<u8>, Error>(
            strip_trailing_zeros(payload),
        ),
        (forall|i: int| 0 <= i < payload.len() ==> payload[i] == 0) ==> memo_block(
            bytes,
            header,
            MemoFileType::FoxBaseMemo,
            index,
        ) == Ok::<Seq<u8>, Error>(Seq::empty()),
{
    if forall|i: int| 0 <= i < payload.len() ==> payload[i] == 0 {
        lemma_strip_padding(Seq::empty(), payload);
        assert(Seq::<u8>::empty() + payload =~= payload);
    }
}

/// A dBase IV block whose payload holds `0x1F` at index `at`, and not
/// before, gives the `at` bytes before it.
pub proof fn lemma_dbase4_block(
    bytes: Seq<u8>,
    header: MemoHeader,
    index: u32,
    payload: Seq<u8>,
    at: int,
)
    requires
        block_start(bytes, header, index).len() >= 8 + payload.len(),
        le_u32(block_start(bytes, header, index).skip(4)) == payload.len(),
        block_start(bytes, header, index).subrange(8, 8 + payload.len() as int) == payload,
        0 <= at < payload.len(),
        payload[at] == DBASE4_MEMO_TERMINATOR,
        forall|i: int| 0 <= i < at ==> payload[i] != DBASE4_MEMO_TERMINATOR,
    ensures
        memo_block(bytes, header, MemoFileType::DbaseMemo4, index) == Ok::<Seq<u8>, Error>(
            payload.take(at),
        ),
{
    lemma_cut_at_first(payload, DBASE4_MEMO_TERMINATOR, at);
}

/// A classic dBase block without `0x1A` gives all its bytes, and the last
/// block in use may end early with the file: it then gives what is there.
pub proof fn lemma_dbase_block(bytes: Seq<u8>, header: MemoHeader, index: u32)
    requires
        forall|i: int|
            0 <= i < block_start(bytes, header, index).len() && i < header.block_size
                ==> block_start(bytes, header, index)[i] != DBASE_MEMO_TERMINATOR,
    ensures
        block_start(bytes, header, index).len() >= header.block_size ==> memo_block(
            bytes,
            header,
            MemoFileType::DbaseMemo,
            index,
        ) == Ok::<Seq<u8>, Error>(
            block_start(bytes, header, index).take(header.block_size as int),
        ),
        block_start(bytes, header, index).len() < header.block_size && index as int
            == header.next_available_block_index as int - 1 ==> memo_block(
            bytes,
            header,
            MemoFileType::DbaseMemo,
            index,
        ) == Ok::<Seq<u8>, Error>(block_start(bytes, header, index)),
{
    let rest = block_start(bytes, header, index);
    if rest.len() >= header.block_size {
        lemma_cut_at_absent(rest.take(header.block_size as int), DBASE_MEMO_TERMINATOR);
    } else {
        lemma_cut_at_absent(rest, DBASE_MEMO_TERMINATOR);
    }
}

/// The bytes of `s` before its first `stop`.
pub fn cut_before(s: &[u8], stop: u8) -> (r: Vec<u8>)
    ensures
        r@ == cut_at(s@, stop),
{
    let mut k: usize = 0;
    while k < s.len() && s[k] != stop
        invariant
            k <= s.len(),
            forall|i: int| 0 <= i < k ==> s@[i] != stop,
        decreases s.len() - k,
    {
        k = k + 1;
    }
    proof {
        lemma_first_stop(s@, stop, k as int);
    }
    let r = slice_to_vec(slice_subrange(s, 0, k));
    assert(r@ =~= cut_at(s@, stop));
    r
}

/// The bytes of `s` up to its last byte that is not zero.
pub fn trim_trailing_zeros(s: &[u8]) -> (r: Vec<u8>)
    ensures
        r@ == strip_trailing_zeros(s@),
{
    let mut k: usize = s.len();
    while k > 0 && s[k - 1] == 0
        invariant
            k <= s.len(),
            forall|i: int| k <= i < s.len() ==> s@[i] == 0,
        decreases k,
    {
        k = k - 1;
    }
    proof {
        lemma_kept_len(s@, k as int);
    }
    let r = slice_to_vec(slice_subrange(s, 0, k));
    assert(r@ =~= strip_trailing_zeros(s@));
    r
}

/// Resolves block indices into memo text.
pub struct MemoReader {
    memo_file_type: MemoFileType,
    header: MemoHeader,
    source: ByteReader,
}

impl MemoReader {
    /// Layout of the memo file.
    pub closed spec fn memo_type(&self) -> MemoFileType {
        self.memo_file_type
    }

    /// The header read when the reader was made.
    pub closed spec fn header(&self) -> MemoHeader {
        self.header
    }

    /// All bytes of the memo file.
    pub closed spec fn bytes(&self) -> Seq<u8> {
        self.source.bytes()
    }

    /// Reads the header of the memo file `src` from its position on and
    /// keeps the stream for later lookups.
    pub fn new(memo_type: MemoFileType, src: ByteReader) -> (r: Result<Self, Error>)
        ensures
            match MemoHeader::decode(src.remaining(), memo_type) {
                Ok(header) => r is Ok && r->Ok_0.header() == header && r->Ok_0.memo_type()
                    == memo_type && r->Ok_0.bytes() == src.bytes(),
                Err(e) => r is Err && r->Err_0 == e,
            },
    {
        let mut src = src;
        let header = MemoHeader::read_from(&mut src, memo_type)?;
        Ok(MemoReader { memo_file_type: memo_type, header, source: src })
    }

    /// The text stored in block `index`, as a fresh vector.
    pub fn read_data_at(&mut self, index: u32) -> (r: Result<Vec<u8>, Error>)
        ensures
            final(self).bytes() == old(self).bytes(),
            final(self).header() == old(self).header(),
            final(self).memo_type() == old(self).memo_type(),
            match memo_block(old(self).bytes(), old(self).header(), old(self).memo_type(), index) {
                Ok(text) => r is Ok && r->Ok_0@ == text,
                Err(e) => r == Err::<Vec<u8>, Error>(e),
            },
    {
        assert(index as int * self.header.block_size as int <= 0xffff_ffff * 0xffff_ffff)
            by (nonlinear_arith)
            requires
                0 <= index as int <= 0xffff_ffff,
                0 <= self.header.block_size as int <= 0xffff_ffff,
        ;
        let byte_offset: u64 = index as u64 * self.header.block_size as u64;
        self.source.set_position(byte_offset);
        let ghost rest = self.source.remaining();
        match self.memo_file_type {
            MemoFileType::FoxBaseMemo => {
                let _tag = self.source.read_exact(4)?;
                let word = self.source.read_exact(4)?;
                assert(be_u32(word@) == be_u32(rest.skip(4)));
                let length = read_u32_be(word.as_slice());
                let payload = self.source.read_exact(length as usize)?;
                assert(payload@ =~= rest.subrange(8, 8 + length));
                Ok(trim_trailing_zeros(payload.as_slice()))
            },
            MemoFileType::DbaseMemo4 => {
                let _tag = self.source.read_exact(4)?;
                let word = self.source.read_exact(4)?;
                assert(le_u32(word@) == le_u32(rest.skip(4)));
                let length = read_u32_le(word.as_slice());
                let payload = self.source.read_exact(length as usize)?;
                assert(payload@ =~= rest.subrange(8, 8 + length));
                Ok(cut_before(payload.as_slice(), DBASE4_MEMO_TERMINATOR))
            },
            MemoFileType::DbaseMemo => {
                let block = match self.source.read_exact(self.header.block_size as usize) {
                    Ok(block) => block,
                    Err(e) => {
                        if self.header.next_available_block_index == 0 || index
                            != self.header.next_available_block_index - 1 {
                            return Err(e);
                        }
                        self.source.set_position(byte_offset);
                        let short = self.source.available();
                        match self.source.read_exact(short) {
                            Ok(block) => block,
                            Err(e) => {
                                return Err(e);
                            },
                        }
                    },
                };
                assert(rest.len() < self.header.block_size ==> block@ =~= rest);
                Ok(cut_before(block.as_slice(), DBASE_MEMO_TERMINATOR))
            },
        }
    }
}

} // verus!
