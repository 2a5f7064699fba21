//! The balloon wire format: each descriptor buffer is a flat array of
//! little-endian page frame numbers, four bytes each.

use vstd::prelude::*;

verus! {

/// Number of address bits inside one balloon page.
pub const BALLOON_PAGE_OFFSET: u32 = 12;

/// Size in bytes of one balloon page.
pub const BALLOON_PAGE_SIZE: u32 = 4096;

/// Size in bytes of one page frame number on the wire.
pub const BALLOON_PFN_SIZE_BYTES: u32 = 4;

/// One buffer of a descriptor chain: where it starts in guest memory and
/// how many bytes it holds.
#[derive(Clone, Copy, Debug, PartialEq, Eq, Structural)]
pub struct Buffer {
    pub addr: u64,
    pub len: u32,
}

/// The guest physical address of the page with frame number `pfn`.
pub open spec fn page_address(pfn: u32) -> int {
    pfn * 4096
}

/// The number read from four bytes, least significant byte first.
pub open spec fn le_u32(bytes: Seq<u8>) -> int
    recommends
        bytes.len() == 4,
{
    bytes[0] + bytes[1] * 0x100 + bytes[2] * 0x1_0000 + bytes[3] * 0x100_0000
}

/// How many complete page frame numbers a buffer of `len` bytes holds. Up
/// to three trailing bytes belong to no entry.
pub open spec fn entry_count(len: u32) -> nat {
    (len / 4) as nat
}

/// Where entry `index` of a buffer that starts at `base` lies.
pub open spec fn entry_address(base: u64, index: nat) -> int {
    base + 4 * index
}

/// Whether every entry of the buffer starts at an address that fits in 64
/// bits.
pub open spec fn buffer_in_range(buffer: Buffer) -> bool {
    entry_count(buffer.len) > 0 ==> entry_address(
        buffer.addr,
        (entry_count(buffer.len) - 1) as nat,
    ) <= u64::MAX
}

/// Whether every buffer of the chain is in range.
pub open spec fn chain_in_range(buffers: Seq<Buffer>) -> bool {
    forall|j: int| 0 <= j < buffers.len() ==> buffer_in_range(#[trigger] buffers[j])
}

/// The number of complete entries in all buffers of a chain together.
pub open spec fn total_entries(buffers: Seq<Buffer>) -> nat
    decreases buffers.len(),
{
    if buffers.len() == 0 {
        0
    } else {
        total_entries(buffers.drop_last()) + entry_count(buffers.last().len)
    }
}

/// Where entry `k` of a chain lies, the entries of all its buffers counted
/// through in the order of the chain.
pub open spec fn chain_entry_address(buffers: Seq<Buffer>, k: nat) -> int
    decreases buffers.len(),
{
    if buffers.len() == 0 {
        0
    } else {
        let before = total_entries(buffers.drop_last());
        if k >= before {
            entry_address(buffers.last().addr, (k - before) as nat)
        } else {
            chain_entry_address(buffers.drop_last(), k)
        }
    }
}

/// Computes the guest physical address of the page with frame number `pfn`.
pub fn guest_page_address(pfn: u32) -> (addr: u64)
    ensures
        addr == page_address(pfn),
{
    let wide: u64 = pfn as u64;
    assert(wide << 12 == wide * 4096) by (bit_vector)
        requires
            wide <= 0xffff_ffff,
    ;
    wide << BALLOON_PAGE_OFFSET
}

/// Decodes one wire entry.
pub fn pfn_from_bytes(bytes: &[u8; 4]) -> (pfn: u32)
    ensures
        pfn == le_u32(bytes@),
{
    let b0: u32 = bytes[0] as u32;
    let b1: u32 = bytes[1] as u32;
    let b2: u32 = bytes[2] as u32;
    let b3: u32 = bytes[3] as u32;
    b0 + b1 * 0x100 + b2 * 0x1_0000 + b3 * 0x100_0000
}

/// Counts the complete entries of a buffer of `len` bytes.
pub fn complete_entries(len: u32) -> (count: u32)
    ensures
        count == entry_count(len),
{
    len / BALLOON_PFN_SIZE_BYTES
}

/// Computes where entry `index` of a buffer lies, or `None` where that
/// address does not fit in 64 bits.
pub fn checked_entry_address(base: u64, index: u32) -> (addr: Option<u64>)
    ensures
        entry_address(base, index as nat) <= u64::MAX ==> addr == Some(
            entry_address(base, index as nat) as u64,
        ),
        entry_address(base, index as nat) > u64::MAX ==> addr is None,
{
    let offset: u64 = index as u64 * 4;
    base.checked_add(offset)
}

/// Adding a buffer to a chain adds its entries to the total.
pub proof fn lemma_total_entries_push(buffers: Seq<Buffer>, buffer: Buffer)
    ensures
        total_entries(buffers.push(buffer)) == total_entries(buffers) + entry_count(buffer.len),
{
    assert(buffers.push(buffer).drop_last() =~= buffers);
}

/// The entries of the first buffers of a chain are among the entries of
/// the whole chain.
pub proof fn lemma_total_entries_prefix(buffers: Seq<Buffer>, n: int)
    requires
        0 <= n <= buffers.len(),
    ensures
        total_entries(buffers.take(n)) <= total_entries(buffers),
    decreases buffers.len(),
{
    if n == buffers.len() {
        assert(buffers.take(n) =~= buffers);
    } else {
        lemma_total_entries_prefix(buffers.drop_last(), n);
        assert(buffers.drop_last().take(n) =~= buffers.take(n));
    }
}

/// Entry `i` of buffer `j` is the chain's entry with the number `i` plus
/// the number of entries in the buffers before `j`.
pub proof fn lemma_chain_entry_address(buffers: Seq<Buffer>, j: int, i: nat)
    requires
        0 <= j < buffers.len(),
        i < entry_count(buffers[j].len),
    ensures
        chain_entry_address(buffers, total_entries(buffers.take(j)) + i) == entry_address(
            buffers[j].addr,
            i,
        ),
    decreases buffers.len(),
{
    if j == buffers.len() - 1 {
        assert(buffers.take(j) =~= buffers.drop_last());
    } else {
        let shorter = buffers.drop_last();
        assert(shorter.take(j) =~= buffers.take(j));
        assert(shorter.take(j + 1) =~= buffers.take(j + 1));
        assert(buffers.take(j + 1) =~= buffers.take(j).push(buffers[j]));
        lemma_total_entries_push(buffers.take(j), buffers[j]);
        lemma_total_entries_prefix(shorter, j + 1);
        lemma_chain_entry_address(shorter, j, i);
    }
}

} // verus!
