//! Coalescing a stream of UF2 blocks into contiguous address ranges.

use vstd::prelude::*;

use crate::uf2::{
    is_uf2_block, le_u32, spec_block_extensions, spec_block_payload, spec_decodes,
    spec_is_uf2_block, spec_reboot_address, UF2BlockData, UF2DecodeError, UF2_BLOCK_SIZE,
};

verus! {

/// What the iterator needs of a block: flash address, payload and reboot address.
pub type BlockView = (u32, Seq<u8>, Option<u32>);

/// A range as start address, payload and reboot address.
pub type RangeView = (u32, Seq<u8>, Option<u32>);

/// A contiguous address range with its payload.
pub struct UF2AddressRange {
    pub start_address: u32,
    pub payload: Vec<u8>,
    pub reboot_address: Option<u32>,
}

impl View for UF2AddressRange {
    type V = RangeView;

    open spec fn view(&self) -> RangeView {
        (self.start_address, self.payload@, self.reboot_address)
    }
}

pub open spec fn block_count(data: Seq<u8>) -> int {
    data.len() as int / UF2_BLOCK_SIZE as int
}

/// The `i`-th 512-byte chunk of `data`.
pub open spec fn block_bytes(data: Seq<u8>, i: int) -> Seq<u8> {
    data.subrange(i * UF2_BLOCK_SIZE, (i + 1) * UF2_BLOCK_SIZE)
}

/// `data` is a non-empty sequence of whole blocks with their magic words in place, and the
/// first block decodes.
pub open spec fn valid_stream(data: Seq<u8>) -> bool {
    &&& data.len() > 0
    &&& data.len() as int % UF2_BLOCK_SIZE as int == 0
    &&& forall|i: int|
        0 <= i < block_count(data) ==> spec_is_uf2_block(#[trigger] block_bytes(data, i))
    &&& spec_decodes(block_bytes(data, 0))
}

/// Index of the first block at or after `i` that does not decode, or the block count.
pub open spec fn decodable_from(data: Seq<u8>, i: int) -> int
    decreases block_count(data) - i,
{
    if 0 <= i < block_count(data) && spec_decodes(block_bytes(data, i)) {
        decodable_from(data, i + 1)
    } else {
        i
    }
}

/// Number of leading blocks that decode.
pub open spec fn decoded_prefix(data: Seq<u8>) -> int {
    decodable_from(data, 0)
}

/// Every block of `data` decodes.
pub open spec fn stream_complete(data: Seq<u8>) -> bool {
    decoded_prefix(data) == block_count(data)
}

pub open spec fn block_view(c: Seq<u8>) -> BlockView {
    (le_u32(c, 12), spec_block_payload(c), spec_reboot_address(spec_block_extensions(c)))
}

/// The blocks that come before the first one that does not decode.
pub open spec fn stream_blocks(data: Seq<u8>) -> Seq<BlockView> {
    Seq::new(decoded_prefix(data) as nat, |i: int| block_view(block_bytes(data, i)))
}

/// The address `len` bytes after `start`, modulo 2^32.
pub open spec fn end_after(start: u32, len: nat) -> u32 {
    ((start + len) % 0x1_0000_0000) as u32
}

/// The ranges still to come, given the pending range, the address where it ends, and the
/// blocks not read yet. A block that starts at that address extends the pending range; any
/// other closes it and seeds the next one. After the last block the pending range is handed
/// out where `complete` holds (the stream ended, rather than stopped at a block that does not
/// decode) and its payload is not empty.
pub open spec fn ranges_from(
    pending: RangeView,
    end: u32,
    bs: Seq<BlockView>,
    complete: bool,
) -> Seq<RangeView>
    decreases bs.len(),
{
    if bs.len() == 0 {
        if complete && pending.1.len() > 0 {
            seq![pending]
        } else {
            seq![]
        }
    } else {
        let b = bs[0];
        if b.0 == end {
            ranges_from(
                (pending.0, pending.1 + b.1, pending.2),
                end_after(end, b.1.len()),
                bs.drop_first(),
                complete,
            )
        } else {
            seq![pending] + ranges_from(b, end_after(b.0, b.1.len()), bs.drop_first(), complete)
        }
    }
}

/// The ranges that a sequence of blocks coalesces into.
pub open spec fn uf2_ranges(bs: Seq<BlockView>, complete: bool) -> Seq<RangeView> {
    if bs.len() == 0 {
        seq![]
    } else {
        ranges_from(bs[0], end_after(bs[0].0, bs[0].1.len()), bs.drop_first(), complete)
    }
}

/// The payloads of a sequence of blocks or ranges, one after the other.
pub open spec fn concat_payloads(s: Seq<(u32, Seq<u8>, Option<u32>)>) -> Seq<u8>
    decreases s.len(),
{
    if s.len() == 0 {
        seq![]
    } else {
        s[0].1 + concat_payloads(s.drop_first())
    }
}

/// Each block starts where the one before it ends.
pub open spec fn consecutive(bs: Seq<BlockView>) -> bool {
    forall|i: int| 0 < i < bs.len() ==> #[trigger] bs[i].0 == end_after(bs[i - 1].0, bs[i - 1].1.len())
}

proof fn lemma_concat_prepend(r: RangeView, rs: Seq<RangeView>)
    ensures
        concat_payloads(seq![r] + rs) == r.1 + concat_payloads(rs),
{
    assert((seq![r] + rs).drop_first() == rs);
}

proof fn lemma_ranges_from_payloads(pending: RangeView, end: u32, bs: Seq<BlockView>)
    ensures
        concat_payloads(ranges_from(pending, end, bs, true)) == pending.1 + concat_payloads(bs),
    decreases bs.len(),
{
    if bs.len() == 0 {
        if pending.1.len() > 0 {
            lemma_concat_prepend(pending, seq![]);
        }
        assert(pending.1 + Seq::<u8>::empty() == pending.1);
    } else {
        let b = bs[0];
        if b.0 == end {
            lemma_ranges_from_payloads(
                (pending.0, pending.1 + b.1, pending.2),
                end_after(end, b.1.len()),
                bs.drop_first(),
            );
        } else {
            lemma_ranges_from_payloads(b, end_after(b.0, b.1.len()), bs.drop_first());
            lemma_concat_prepend(
                pending,
                ranges_from(b, end_after(b.0, b.1.len()), bs.drop_first(), true),
            );
        }
        assert(pending.1 + b.1 + concat_payloads(bs.drop_first()) == pending.1 + (b.1
            + concat_payloads(bs.drop_first())));
    }
}

/// Coalescing loses no byte and adds none: where every block decodes, the payloads of all
/// ranges, one after the other, are the payloads of all blocks, one after the other.
pub proof fn lemma_ranges_keep_payload(data: Seq<u8>)
    requires
        valid_stream(data),
        stream_complete(data),
    ensures
        concat_payloads(uf2_ranges(stream_blocks(data), true)) == concat_payloads(
            stream_blocks(data),
        ),
{
    let bs = stream_blocks(data);
    lemma_ranges_from_payloads(bs[0], end_after(bs[0].0, bs[0].1.len()), bs.drop_first());
}

proof fn lemma_consecutive_ranges_from(pending: RangeView, end: u32, bs: Seq<BlockView>)
    requires
        consecutive(bs),
        bs.len() > 0 ==> bs[0].0 == end,
    ensures
        ranges_from(pending, end, bs, true) == if pending.1 + concat_payloads(bs) == Seq::<u8>::empty() {
            Seq::<RangeView>::empty()
        } else {
            seq![(pending.0, pending.1 + concat_payloads(bs), pending.2)]
        },
    decreases bs.len(),
{
    if bs.len() == 0 {
        assert(pending.1 + concat_payloads(bs) == pending.1);
        if pending.1.len() == 0 {
            assert(pending.1 == Seq::<u8>::empty());
        }
    } else {
        let b = bs[0];
        let rest = bs.drop_first();
        assert forall|i: int| 0 < i < rest.len() implies #[trigger] rest[i].0 == end_after(
            rest[i - 1].0,
            rest[i - 1].1.len(),
        ) by {
            assert(bs[i + 1].0 == end_after(bs[i].0, bs[i].1.len()));
        }
        if rest.len() > 0 {
            assert(bs[1].0 == end_after(bs[0].0, bs[0].1.len()));
        }
        lemma_consecutive_ranges_from(
            (pending.0, pending.1 + b.1, pending.2),
            end_after(end, b.1.len()),
            rest,
        );
        assert(pending.1 + b.1 + concat_payloads(rest) == pending.1 + (b.1 + concat_payloads(rest)));
    }
}

/// A stream whose blocks all decode and each start where the previous one ends, and which
/// carries any payload at all, comes out as exactly one range: from the first block's address,
/// with every payload, and with the first block's reboot address.
pub proof fn lemma_consecutive_single_range(data: Seq<u8>)
    requires
        valid_stream(data),
        stream_complete(data),
        consecutive(stream_blocks(data)),
        concat_payloads(stream_blocks(data)).len() > 0,
    ensures
        uf2_ranges(stream_blocks(data), true).len() == 1,
        uf2_ranges(stream_blocks(data), true)[0] == (
            stream_blocks(data)[0].0,
            concat_payloads(stream_blocks(data)),
            stream_blocks(data)[0].2,
        ),
{
    let bs = stream_blocks(data);
    let b = bs[0];
    let rest = bs.drop_first();
    assert forall|i: int| 0 < i < rest.len() implies #[trigger] rest[i].0 == end_after(
        rest[i - 1].0,
        rest[i - 1].1.len(),
    ) by {
        assert(bs[i + 1].0 == end_after(bs[i].0, bs[i].1.len()));
    }
    if rest.len() > 0 {
        assert(bs[1].0 == end_after(bs[0].0, bs[0].1.len()));
    }
    lemma_consecutive_ranges_from(b, end_after(b.0, b.1.len()), rest);
    assert(concat_payloads(bs) == b.1 + concat_payloads(rest));
}

/// Streams the blocks of a buffer as contiguous address ranges.
pub struct UF2RangeIterator<'a> {
    data: &'a [u8],
    next_block: usize,
    finished: bool,
    start_address: u32,
    end_address: u32,
    payload: Vec<u8>,
    reboot_address: Option<u32>,
}

impl UF2AddressRange {
    pub fn new_empty() -> (r: Self)
        ensures
            r@ == (0u32, Seq::<u8>::empty(), None::<u32>),
    {
        UF2AddressRange { start_address: 0, payload: Vec::new(), reboot_address: None }
    }

    pub fn start_address(&self) -> (r: u32)
        ensures
            r == self.start_address,
    {
        self.start_address
    }

    pub fn payload(&self) -> (r: &[u8])
        ensures
            r@ == self.payload@,
    {
        self.payload.as_slice()
    }

    /// Writes the reboot address to `addr` where there is one.
    pub fn reboot_address(&self, addr: &mut u32) -> (r: bool)
        ensures
            r == self.reboot_address is Some,
            r ==> *final(addr) == self.reboot_address->0,
            !r ==> *final(addr) == *old(addr),
    {
        match self.reboot_address {
            Some(val) => {
                *addr = val;
                true
            },
            None => false,
        }
    }
}

fn block_slice(data: &[u8], i: usize) -> (r: &[u8])
    requires
        i < block_count(data@),
    ensures
        r@ == block_bytes(data@, i as int),
{
    let n = data.len();
    assert((i + 1) * UF2_BLOCK_SIZE <= data@.len()) by (nonlinear_arith)
        requires
            i < block_count(data@),
            UF2_BLOCK_SIZE == 512,
    ;
    vstd::slice::slice_subrange(data, i * UF2_BLOCK_SIZE, (i + 1) * UF2_BLOCK_SIZE)
}

/// Where the run of decoding blocks that starts at `i` ends.
proof fn lemma_decodable_from(data: Seq<u8>, i: int)
    requires
        0 <= i <= block_count(data),
    ensures
        i <= decodable_from(data, i) <= block_count(data),
        forall|j: int|
            i <= j < decodable_from(data, i) ==> spec_decodes(#[trigger] block_bytes(data, j)),
        decodable_from(data, i) < block_count(data) ==> !spec_decodes(
            block_bytes(data, decodable_from(data, i)),
        ),
    decreases block_count(data) - i,
{
    if i < block_count(data) && spec_decodes(block_bytes(data, i)) {
        lemma_decodable_from(data, i + 1);
    }
}

impl<'a> UF2RangeIterator<'a> {
    pub closed spec fn wf(&self) -> bool {
        &&& valid_stream(self.data@)
        &&& self.next_block <= decoded_prefix(self.data@)
    }

    /// The ranges that this iterator has yet to hand out.
    pub closed spec fn remaining(&self) -> Seq<RangeView> {
        if self.finished {
            seq![]
        } else {
            ranges_from(
                (self.start_address, self.payload@, self.reboot_address),
                self.end_address,
                stream_blocks(self.data@).subrange(
                    self.next_block as int,
                    decoded_prefix(self.data@),
                ),
                stream_complete(self.data@),
            )
        }
    }

    /// Fails unless `data` is a non-empty sequence of whole blocks with their magic words in
    /// place whose first block decodes. Iteration stops at the first block that does not
    /// decode, and the range in progress there is not handed out.
    pub fn new(data: &'a [u8]) -> (r: Result<Self, UF2DecodeError>)
        ensures
            r is Ok <==> valid_stream(data@),
            r is Ok ==> r->Ok_0.wf() && r->Ok_0.remaining() == uf2_ranges(
                stream_blocks(data@),
                stream_complete(data@),
            ),
    {
        if data.len() == 0 || data.len() % UF2_BLOCK_SIZE != 0 {
            return Err(UF2DecodeError::new(String::from_str("truncated block")));
        }
        let count = data.len() / UF2_BLOCK_SIZE;
        let mut i: usize = 0;
        while i < count
            invariant
                count == block_count(data@),
                i <= count,
                forall|j: int| 0 <= j < i ==> spec_is_uf2_block(#[trigger] block_bytes(data@, j)),
            decreases count - i,
        {
            if !is_uf2_block(block_slice(data, i)) {
                return Err(UF2DecodeError::new(String::from_str("magic values check failed")));
            }
            i += 1;
        }
        match UF2BlockData::decode(block_slice(data, 0)) {
            Ok(block) => {
                let it = UF2RangeIterator {
                    data,
                    next_block: 1,
                    finished: false,
                    start_address: block.flash_address,
                    end_address: block.flash_address.wrapping_add(block.payload.len() as u32),
                    reboot_address: block.get_reboot_address(),
                    payload: block.payload,
                };
                proof {
                    lemma_decodable_from(data@, 0);
                    let bs = stream_blocks(data@);
                    assert(bs.drop_first() == bs.subrange(1, decoded_prefix(data@)));
                }
                Ok(it)
            },
            Err(e) => Err(e),
        }
    }

    /// `new`, boxed.
    pub fn from_slice(data: &'a [u8]) -> (r: Result<Box<Self>, UF2DecodeError>)
        ensures
            r is Ok <==> valid_stream(data@),
            r is Ok ==> r->Ok_0.wf() && r->Ok_0.remaining() == uf2_ranges(
                stream_blocks(data@),
                stream_complete(data@),
            ),
    {
        match Self::new(data) {
            Ok(it) => Ok(Box::new(it)),
            Err(e) => Err(e),
        }
    }

    fn make_range(&mut self) -> (r: UF2AddressRange)
        ensures
            r@ == (old(self).start_address, old(self).payload@, old(self).reboot_address),
            *final(self) == (UF2RangeIterator { reboot_address: None, ..*old(self) }),
    {
        UF2AddressRange {
            start_address: self.start_address,
            payload: vstd::slice::slice_to_vec(self.payload.as_slice()),
            reboot_address: self.reboot_address.take(),
        }
    }

    fn reset(&mut self, block: UF2BlockData)
        requires
            block.payload@.len() <= UF2_BLOCK_SIZE,
        ensures
            (final(self).start_address, final(self).payload@, final(self).reboot_address) == (
                block.flash_address,
                block.payload@,
                spec_reboot_address(block.exts()),
            ),
            final(self).end_address == end_after(block.flash_address, block.payload@.len()),
            final(self).data == old(self).data,
            final(self).next_block == old(self).next_block,
            final(self).finished == old(self).finished,
    {
        self.start_address = block.flash_address;
        self.end_address = block.flash_address.wrapping_add(block.payload.len() as u32);
        self.reboot_address = block.get_reboot_address();
        self.payload = block.payload;
    }

    /// Hands out the next range, or `None` once the stream is exhausted.
    pub fn next(&mut self) -> (r: Option<UF2AddressRange>)
        requires
            old(self).wf(),
        ensures
            final(self).wf(),
            old(self).remaining().len() == 0 ==> r is None && final(self).remaining().len() == 0,
            old(self).remaining().len() > 0 ==> r is Some && r->0@ == old(self).remaining()[0]
                && final(self).remaining() == old(self).remaining().drop_first(),
    {
        if self.finished {
            return None;
        }
        let ghost target = self.remaining();
        let count = self.data.len() / UF2_BLOCK_SIZE;
        proof {
            lemma_decodable_from(self.data@, 0);
        }
        while self.next_block < count
            invariant
                self.wf(),
                !self.finished,
                count == block_count(self.data@),
                decoded_prefix(self.data@) <= count,
                forall|j: int|
                    0 <= j < decoded_prefix(self.data@) ==> spec_decodes(
                        #[trigger] block_bytes(self.data@, j),
                    ),
                decoded_prefix(self.data@) < count ==> !spec_decodes(
                    block_bytes(self.data@, decoded_prefix(self.data@)),
                ),
                self.remaining() == target,
                target == old(self).remaining(),
            decreases count - self.next_block,
        {
            let ghost prefix = decoded_prefix(self.data@);
            let ghost bs = stream_blocks(self.data@).subrange(self.next_block as int, prefix);
            let chunk = block_slice(self.data, self.next_block);
            let block = match UF2BlockData::decode(chunk) {
                Ok(b) => b,
                Err(_) => {
                    assert(bs.len() == 0);
                    self.finished = true;
                    return None;
                },
            };
            assert(bs[0] == (block.flash_address, block.payload@, spec_reboot_address(block.exts())));
            assert(bs.drop_first() == stream_blocks(self.data@).subrange(self.next_block + 1, prefix));
            if self.end_address != block.flash_address {
                let ghost pending = (self.start_address, self.payload@, self.reboot_address);
                let item = self.make_range();
                self.reset(block);
                self.next_block += 1;
                assert(target == seq![pending] + self.remaining());
                assert((seq![pending] + self.remaining()).drop_first() == self.remaining());
                return Some(item);
            } else {
                self.end_address = self.end_address.wrapping_add(block.payload.len() as u32);
                let mut more = block.payload;
                self.payload.append(&mut more);
                self.next_block += 1;
            }
        }
        self.finished = true;
        if self.payload.len() > 0 {
            Some(self.make_range())
        } else {
            None
        }
    }
}

} // verus!
