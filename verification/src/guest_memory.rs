//! Reading guest memory by guest virtual address.
//!
//! Guest memory belongs to a running guest: what a read of it returns, or
//! whether it succeeds, may differ from one read to the next. The functions here
//! take the routine that copies guest physical memory as an argument `copy`, and
//! their contracts hold whatever that routine returns. Their `requires` name the
//! reads that they make, each with what has to have come before it, and they make
//! no others.

use crate::address::{PhysAddr, VirtAddr, PAGE_SIZE, PAGE_SIZE_1G, PAGE_SIZE_2M};
use crate::bytes::{le64, put_bytes, u64_from_le};
use crate::guest_symbols::GuestSymbolContext;
use crate::paging::{paging_mode, PTEntry, PageTableFormat, PagingMode, PTE_ADDRESS};
use vstd::arithmetic::power2::pow2;
use vstd::prelude::*;

verus! {

/// The copy routine may be called for any range, and returns as many bytes as
/// were asked for.
pub open spec fn copies<F: Fn(PhysAddr, usize) -> Option<Vec<u8>>>(copy: F) -> bool {
    forall|gpa: PhysAddr, len: usize| #[trigger] may_copy(copy, gpa, len)
}

/// The copy routine may be called for the `len` bytes at `gpa`, and then returns
/// as many.
pub open spec fn may_copy<F: Fn(PhysAddr, usize) -> Option<Vec<u8>>>(
    copy: F,
    gpa: PhysAddr,
    len: usize,
) -> bool {
    &&& call_requires(copy, (gpa, len))
    &&& forall|r: Option<Vec<u8>>| #[trigger]
        call_ensures(copy, (gpa, len), r) ==> (r matches Some(bytes) ==> bytes@.len() == len)
}

/// Copying `len` bytes at `gpa` may give `reply`.
pub open spec fn reads<F: Fn(PhysAddr, usize) -> Option<Vec<u8>>>(
    copy: F,
    gpa: PhysAddr,
    len: usize,
    reply: Option<Seq<u8>>,
) -> bool {
    exists|r: Option<Vec<u8>>| #[trigger]
        call_ensures(copy, (gpa, len), r) && reply == (match r {
            Some(bytes) => Some(bytes@),
            None => None,
        })
}

/// Reading the page table entry at `gpa` may give `entry`.
pub open spec fn reads_pte<F: Fn(PhysAddr, usize) -> Option<Vec<u8>>>(
    copy: F,
    gpa: PhysAddr,
    entry: Option<PTEntry>,
) -> bool {
    exists|reply: Option<Seq<u8>>| #[trigger]
        reads(copy, gpa, 8, reply) && entry == pte_of_reply(reply)
}

/// The entry that eight bytes of guest memory hold.
pub open spec fn pte_of_reply(reply: Option<Seq<u8>>) -> Option<PTEntry> {
    match reply {
        Some(bytes) => Some(PTEntry(le64(bytes) as u64)),
        None => None,
    }
}

/// The index of the entry for `gva` in a table of `level`.
pub open spec fn table_index(gva: VirtAddr, level: nat) -> int {
    gva.0 as int / pow2(12 + 9 * level) as int % 512
}

/// Where the entry for `gva` stands in the table at `table`.
pub open spec fn entry_gpa(gva: VirtAddr, level: nat, table: PhysAddr) -> PhysAddr {
    PhysAddr((table.0 + table_index(gva, level) * 8) as u64)
}

/// What the walk of the page tables does after reading an entry.
#[derive(Clone, Copy, Debug, PartialEq, Eq, Structural)]
pub enum WalkStep {
    /// The address is not mapped.
    Fault,
    /// The address is mapped here.
    Page(PhysAddr),
    /// The walk goes on in this table, one level down.
    Table(PhysAddr),
}

/// What follows from the entry of `level` for `gva`, if it could be read.
pub open spec fn step_of(
    format: PageTableFormat,
    mode: PagingMode,
    gva: VirtAddr,
    level: nat,
    entry: Option<PTEntry>,
) -> WalkStep {
    match entry {
        None => WalkStep::Fault,
        Some(entry) => if !entry.is_present() || entry.is_malformed(format, mode, level as int) {
            WalkStep::Fault
        } else if level == 0 {
            WalkStep::Page(within(entry.target(format), gva, PAGE_SIZE))
        } else if !entry.is_huge() {
            WalkStep::Table(entry.target(format))
        } else if level == 1 {
            WalkStep::Page(within(entry.target(format), gva, PAGE_SIZE_2M))
        } else if level == 2 {
            WalkStep::Page(within(entry.target(format), gva, PAGE_SIZE_1G))
        } else {
            WalkStep::Fault
        },
    }
}

/// The place of `gva` in the page of `size` bytes at `base`.
pub open spec fn within(base: PhysAddr, gva: VirtAddr, size: u64) -> PhysAddr {
    PhysAddr((base.0 + gva.0 % size) as u64)
}

/// A walk that stands at the table at `table`, of `level`, may end with `r`.
pub open spec fn walks_to<F: Fn(PhysAddr, usize) -> Option<Vec<u8>>>(
    copy: F,
    format: PageTableFormat,
    mode: PagingMode,
    gva: VirtAddr,
    level: nat,
    table: PhysAddr,
    r: Option<PhysAddr>,
) -> bool
    decreases level,
{
    exists|entry: Option<PTEntry>| #[trigger]
        reads_pte(copy, entry_gpa(gva, level, table), entry) && match step_of(
            format,
            mode,
            gva,
            level,
            entry,
        ) {
            WalkStep::Fault => r is None,
            WalkStep::Page(gpa) => r == Some(gpa),
            WalkStep::Table(next) => level > 0 && walks_to(
                copy,
                format,
                mode,
                gva,
                (level - 1) as nat,
                next,
                r,
            ),
        }
}

/// The level at which a walk starts.
pub open spec fn top_level(mode: PagingMode) -> nat {
    if mode == PagingMode::PML5 {
        4
    } else {
        3
    }
}

/// The table at which a walk starts.
pub open spec fn root_table(format: PageTableFormat, cr3: u64) -> PhysAddr {
    PTEntry(cr3 & !0xfff).target(format)
}

/// Translating `gva` may give `r`. Without paging, addresses stand for
/// themselves; with 32-bit paging, no address translates.
pub open spec fn translates<F: Fn(PhysAddr, usize) -> Option<Vec<u8>>>(
    copy: F,
    format: PageTableFormat,
    ctx: GuestSymbolContext,
    gva: VirtAddr,
    r: Option<PhysAddr>,
) -> bool {
    let mode = paging_mode(ctx.efer, ctx.cr0, ctx.cr4);
    match mode {
        PagingMode::NoPaging => r == Some(PhysAddr(gva.0)),
        PagingMode::PML4 | PagingMode::PML5 => walks_to(
            copy,
            format,
            mode,
            gva,
            top_level(mode),
            root_table(format, ctx.cr3),
            r,
        ),
        _ => r is None,
    }
}

/// The index of the entry for `gva` in a page table of `level`.
pub fn page_table_index(gva: VirtAddr, level: usize) -> (r: u64)
    requires
        level <= 5,
    ensures
        r == table_index(gva, level as nat),
        r < 512,
{
    let shift: u64 = 12 + level as u64 * 9;
    let bits: u64 = gva.bits();
    proof {
        vstd::bits::lemma_u64_shr_is_div(bits, shift);
        let quotient: u64 = bits >> shift;
        assert(quotient & 0x1ff == quotient % 512) by (bit_vector);
    }
    (bits >> shift) & 0x1ff
}

/// The physical address of the top page table.
pub fn cr3_page_table_addr(format: &PageTableFormat, cr3: u64) -> (r: PhysAddr)
    ensures
        r == root_table(*format, cr3),
        r.0 <= PTE_ADDRESS,
{
    PTEntry::from_raw(cr3 & !0xfff).address(format)
}

/// Reads the page table entry at `gpa`.
pub fn read_guest_pte<F: Fn(PhysAddr, usize) -> Option<Vec<u8>>>(copy: &F, gpa: PhysAddr) -> (r:
    Option<PTEntry>)
    requires
        may_copy(*copy, gpa, 8),
    ensures
        reads_pte(*copy, gpa, r),
{
    match copy(gpa, 8) {
        Some(bytes) => {
            assert(reads(*copy, gpa, 8, Some(bytes@)));
            Some(PTEntry::from_raw(u64_from_le(bytes.as_slice())))
        },
        None => {
            assert(reads(*copy, gpa, 8, None));
            None
        },
    }
}

/// The distance of `gva` from the start of the page of `page_size` bytes that
/// holds it.
pub fn gva_page_offset(gva: VirtAddr, page_size: u64) -> (r: u64)
    requires
        page_size > 0,
    ensures
        r == gva.0 & (page_size - 1) as u64,
        page_size == PAGE_SIZE || page_size == PAGE_SIZE_2M || page_size == PAGE_SIZE_1G ==> r
            == gva.0 % page_size,
{
    let bits: u64 = gva.bits();
    proof {
        assert(bits & 0xfff == bits % 0x1000) by (bit_vector);
        assert(bits & 0x1f_ffff == bits % 0x20_0000) by (bit_vector);
        assert(bits & 0x3fff_ffff == bits % 0x4000_0000) by (bit_vector);
    }
    bits & (page_size - 1)
}

/// Decides what follows from the entry of `level` for `gva`, if it could be
/// read.
pub fn walk_step(
    format: &PageTableFormat,
    mode: PagingMode,
    gva: VirtAddr,
    level: usize,
    entry: Option<PTEntry>,
) -> (r: WalkStep)
    requires
        level <= 4,
    ensures
        r == step_of(*format, mode, gva, level as nat, entry),
        r matches WalkStep::Table(next) ==> level > 0 && next.0 <= PTE_ADDRESS,
{
    let entry = match entry {
        Some(entry) => entry,
        None => return WalkStep::Fault,
    };
    if !entry.present() || entry.has_reserved_bits(format, mode, level) {
        return WalkStep::Fault;
    }
    let base = entry.address(format);
    if level == 0 {
        return WalkStep::Page(PhysAddr(base.bits() + gva_page_offset(gva, PAGE_SIZE)));
    }
    if entry.huge() {
        let page_size: u64 = match level {
            1 => PAGE_SIZE_2M,
            2 => PAGE_SIZE_1G,
            _ => return WalkStep::Fault,
        };
        return WalkStep::Page(PhysAddr(base.bits() + gva_page_offset(gva, page_size)));
    }
    WalkStep::Table(base)
}

/// The walk may read the entry for `gva` in the table at `table`, and those in
/// the tables to which that leads.
pub open spec fn may_walk<F: Fn(PhysAddr, usize) -> Option<Vec<u8>>>(
    copy: F,
    format: PageTableFormat,
    mode: PagingMode,
    gva: VirtAddr,
    level: nat,
    table: PhysAddr,
) -> bool
    decreases level,
{
    let at = entry_gpa(gva, level, table);
    &&& may_copy(copy, at, 8)
    &&& level > 0 ==> forall|entry: Option<PTEntry>| #[trigger]
        reads_pte(copy, at, entry) ==> match step_of(format, mode, gva, level, entry) {
            WalkStep::Table(next) => may_walk(copy, format, mode, gva, (level - 1) as nat, next),
            _ => true,
        }
}

/// What the translation of `gva` reads may be read. That is the page tables, and
/// without paging, or with the 32-bit tables, nothing.
pub open spec fn may_translate<F: Fn(PhysAddr, usize) -> Option<Vec<u8>>>(
    copy: F,
    format: PageTableFormat,
    ctx: GuestSymbolContext,
    gva: VirtAddr,
) -> bool {
    let mode = paging_mode(ctx.efer, ctx.cr0, ctx.cr4);
    match mode {
        PagingMode::PML4 | PagingMode::PML5 => may_walk(
            copy,
            format,
            mode,
            gva,
            top_level(mode),
            root_table(format, ctx.cr3),
        ),
        _ => true,
    }
}

/// Translates a guest virtual address by walking the guest's page tables.
pub fn translate_gva<F: Fn(PhysAddr, usize) -> Option<Vec<u8>>>(
    copy: &F,
    format: &PageTableFormat,
    ctx: GuestSymbolContext,
    gva: VirtAddr,
) -> (r: Option<PhysAddr>)
    requires
        may_translate(*copy, *format, ctx, gva),
    ensures
        translates(*copy, *format, ctx, gva, r),
{
    let mode = PagingMode::new(ctx.efer, ctx.cr0, ctx.cr4);
    let top: usize = match mode {
        PagingMode::NoPaging => return Some(PhysAddr(gva.bits())),
        PagingMode::PML4 => 3,
        PagingMode::PML5 => 4,
        _ => return None,
    };
    let root = cr3_page_table_addr(format, ctx.cr3);

    let mut level: usize = top;
    let mut table = root;
    loop
        invariant
            may_walk(*copy, *format, mode, gva, level as nat, table),
            level <= top <= 4,
            table.0 <= PTE_ADDRESS,
            forall|end: Option<PhysAddr>| #[trigger]
                walks_to(*copy, *format, mode, gva, level as nat, table, end) ==> walks_to(
                    *copy,
                    *format,
                    mode,
                    gva,
                    top as nat,
                    root,
                    end,
                ),
            top == top_level(mode),
            root == root_table(*format, ctx.cr3),
            mode == paging_mode(ctx.efer, ctx.cr0, ctx.cr4),
            mode == PagingMode::PML4 || mode == PagingMode::PML5,
        decreases level,
    {
        let at = PhysAddr(table.bits() + page_table_index(gva, level) * 8);
        let entry = read_guest_pte(copy, at);
        assert(reads_pte(*copy, entry_gpa(gva, level as nat, table), entry));
        match walk_step(format, mode, gva, level, entry) {
            WalkStep::Fault => {
                assert(walks_to(*copy, *format, mode, gva, level as nat, table, None));
                return None;
            },
            WalkStep::Page(gpa) => {
                assert(walks_to(*copy, *format, mode, gva, level as nat, table, Some(gpa)));
                return Some(gpa);
            },
            WalkStep::Table(next) => {
                let ghost above = (level as nat, table);
                level = level - 1;
                table = next;
                assert forall|end: Option<PhysAddr>| #[trigger]
                    walks_to(*copy, *format, mode, gva, level as nat, table, end) implies walks_to(
                    *copy,
                    *format,
                    mode,
                    gva,
                    top as nat,
                    root,
                    end,
                ) by {
                    assert(walks_to(*copy, *format, mode, gva, above.0, above.1, end));
                }
            },
        }
    }
}

/// How many of `n` bytes at `gva` lie in its base page.
pub open spec fn chunk_len(gva: VirtAddr, n: nat) -> nat {
    let rest = (PAGE_SIZE - gva.0 % PAGE_SIZE) as nat;
    if n < rest {
        n
    } else {
        rest
    }
}

/// Reading those of `n` bytes at `gva` that lie in its base page may give
/// `bytes`: nothing where the page does not translate or cannot be read.
pub open spec fn reads_chunk<F: Fn(PhysAddr, usize) -> Option<Vec<u8>>>(
    copy: F,
    format: PageTableFormat,
    ctx: GuestSymbolContext,
    gva: VirtAddr,
    n: nat,
    bytes: Option<Seq<u8>>,
) -> bool {
    exists|gpa: Option<PhysAddr>| #[trigger]
        translates(copy, format, ctx, gva, gpa) && match gpa {
            Some(gpa) => reads(copy, gpa, chunk_len(gva, n) as usize, bytes),
            None => bytes is None,
        }
}

/// Reading `n` bytes at `gva` may put `filled` into the buffer and then, if `ok`,
/// be complete, and otherwise stop. Memory is read page by page, and each page
/// is translated on its own.
pub open spec fn fills<F: Fn(PhysAddr, usize) -> Option<Vec<u8>>>(
    copy: F,
    format: PageTableFormat,
    ctx: GuestSymbolContext,
    gva: VirtAddr,
    n: nat,
    filled: Seq<u8>,
    ok: bool,
) -> bool
    decreases n,
{
    if n == 0 {
        ok && filled.len() == 0
    } else {
        let chunk = chunk_len(gva, n);
        exists|bytes: Option<Seq<u8>>| #[trigger]
            reads_chunk(copy, format, ctx, gva, n, bytes) && match bytes {
                None => !ok && filled.len() == 0,
                Some(bytes) => {
                    &&& bytes.len() == chunk
                    &&& bytes.is_prefix_of(filled)
                    &&& fills(
                        copy,
                        format,
                        ctx,
                        VirtAddr((gva.0 + chunk) as u64),
                        (n - chunk) as nat,
                        filled.skip(chunk as int),
                        ok,
                    )
                },
            }
    }
}

/// What a read of `n` bytes at `gva` reads may be read: the first page, where it
/// translates, and the others once the first has been read.
pub open spec fn may_fill<F: Fn(PhysAddr, usize) -> Option<Vec<u8>>>(
    copy: F,
    format: PageTableFormat,
    ctx: GuestSymbolContext,
    gva: VirtAddr,
    n: nat,
) -> bool
    decreases n,
{
    n > 0 ==> {
        let chunk = chunk_len(gva, n);
        &&& may_translate(copy, format, ctx, gva)
        &&& forall|gpa: PhysAddr| #[trigger]
            translates(copy, format, ctx, gva, Some(gpa)) ==> may_copy(copy, gpa, chunk as usize)
        &&& forall|bytes: Seq<u8>| #[trigger]
            reads_chunk(copy, format, ctx, gva, n, Some(bytes)) ==> may_fill(
                copy,
                format,
                ctx,
                VirtAddr((gva.0 + chunk) as u64),
                (n - chunk) as nat,
            )
    }
}

/// Reads guest memory at `gva` into `buf`. Where a page does not translate or
/// cannot be read, the pages before it have been read and nothing more.
pub fn read_guest_slice<F: Fn(PhysAddr, usize) -> Option<Vec<u8>>>(
    copy: &F,
    format: &PageTableFormat,
    ctx: GuestSymbolContext,
    gva: VirtAddr,
    buf: &mut [u8],
) -> (r: Option<()>)
    requires
        may_fill(*copy, *format, ctx, gva, old(buf)@.len()),
        gva.0 + old(buf)@.len() <= u64::MAX,
    ensures
        final(buf)@.len() == old(buf)@.len(),
        r is Some ==> fills(*copy, *format, ctx, gva, old(buf)@.len(), final(buf)@, true),
        r is None ==> exists|filled: Seq<u8>| #[trigger]
            fills(*copy, *format, ctx, gva, old(buf)@.len(), filled, false) && final(buf)@ == filled
                + old(buf)@.skip(filled.len() as int),
{
    let len: usize = buf.len();
    let mut offset: usize = 0;
    let mut current = gva;
    while offset < len
        invariant
            may_fill(*copy, *format, ctx, current, (len - offset) as nat),
            buf@.len() == len,
            old(buf)@.len() == len,
            offset <= len,
            gva.0 + len <= u64::MAX,
            current.0 == gva.0 + offset,
            buf@.skip(offset as int) == old(buf)@.skip(offset as int),
            forall|rest: Seq<u8>, ok: bool| #[trigger]
                fills(*copy, *format, ctx, current, (len - offset) as nat, rest, ok) ==> fills(
                    *copy,
                    *format,
                    ctx,
                    gva,
                    len as nat,
                    buf@.take(offset as int) + rest,
                    ok,
                ),
        decreases len - offset,
    {
        let ghost before = (buf@, offset, current);
        let ghost remaining = (len - offset) as nat;
        let gpa = translate_gva(copy, format, ctx, current);
        let gpa = match gpa {
            Some(gpa) => gpa,
            None => {
                proof {
                    let none = Seq::<u8>::empty();
                    assert(reads_chunk(*copy, *format, ctx, current, remaining, None));
                    assert(fills(*copy, *format, ctx, current, remaining, none, false));
                    assert(buf@.take(offset as int) + none =~= buf@.take(offset as int));
                    assert(buf@ =~= buf@.take(offset as int) + old(buf)@.skip(offset as int));
                }
                return None;
            },
        };
        let page_rest: usize = (PAGE_SIZE - current.page_offset()) as usize;
        let chunk: usize = if len - offset < page_rest {
            len - offset
        } else {
            page_rest
        };
        assert(chunk == chunk_len(current, remaining));
        let bytes = match copy(gpa, chunk) {
            Some(bytes) => bytes,
            None => {
                proof {
                    let none = Seq::<u8>::empty();
                    assert(reads(*copy, gpa, chunk, None));
                    assert(reads_chunk(*copy, *format, ctx, current, remaining, None));
                    assert(fills(*copy, *format, ctx, current, remaining, none, false));
                    assert(buf@.take(offset as int) + none =~= buf@.take(offset as int));
                    assert(buf@ =~= buf@.take(offset as int) + old(buf)@.skip(offset as int));
                }
                return None;
            },
        };
        assert(reads(*copy, gpa, chunk, Some(bytes@)));
        assert(reads_chunk(*copy, *format, ctx, current, remaining, Some(bytes@)));
        put_bytes(buf, offset, bytes.as_slice());
        offset = offset + chunk;
        current = VirtAddr(current.bits() + chunk as u64);
        proof {
            assert(buf@.skip(offset as int) =~= before.0.skip(before.1 as int).skip(chunk as int));
            assert(buf@.skip(offset as int) =~= old(buf)@.skip(offset as int));
            assert forall|rest: Seq<u8>, ok: bool| #[trigger]
                fills(*copy, *format, ctx, current, (len - offset) as nat, rest, ok) implies fills(
                *copy,
                *format,
                ctx,
                gva,
                len as nat,
                buf@.take(offset as int) + rest,
                ok,
            ) by {
                let longer = bytes@ + rest;
                assert(longer.skip(chunk as int) =~= rest);
                assert(fills(*copy, *format, ctx, before.2, remaining, longer, ok));
                assert(before.0.take(before.1 as int) + longer =~= buf@.take(offset as int) + rest);
            }
        }
    }
    proof {
        let none = Seq::<u8>::empty();
        assert(fills(*copy, *format, ctx, current, (len - offset) as nat, none, true));
        assert(buf@.take(offset as int) + none =~= buf@);
    }
    Some(())
}

} // verus!
