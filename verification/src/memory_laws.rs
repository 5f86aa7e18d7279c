//! What holds of reads of guest memory as long as that memory stands still.

use crate::address::{PhysAddr, VirtAddr};
use crate::bytes::{le64, lemma_be64_sum, u64_from_le};
use crate::guest_memory::{
    copies, cr3_page_table_addr, entry_gpa, fills, gva_page_offset, may_copy, may_fill,
    may_translate, may_walk, page_table_index, pte_of_reply, read_guest_pte, read_guest_slice,
    reads, reads_chunk, reads_pte, root_table, step_of, table_index, top_level, translate_gva,
    translates, walk_step, walks_to, WalkStep,
};
use crate::guest_symbols::GuestSymbolContext;
use crate::paging::{lemma_target_bound, paging_mode, PTEntry, PageTableFormat, PagingMode};
use vstd::arithmetic::div_mod::{
    lemma_div_denominator, lemma_fundamental_div_mod, lemma_mod_multiples_basic,
};
use vstd::arithmetic::mul::lemma_mul_is_commutative;
use vstd::arithmetic::power2::{
    lemma2_to64, lemma2_to64_rest, lemma_pow2_adds, lemma_pow2_pos, pow2,
};
use vstd::bits::lemma_u64_low_bits_mask_is_mod;
use vstd::prelude::*;

verus! {

/// A register holds a flag where the bit of that weight is set in it.
pub open spec fn bit_set(reg: u64, weight: u64) -> bool {
    reg as int / weight as int % 2 == 1
}

/// The paging mode follows from four bits of the control registers: paging in
/// bit 31 of CR0, wide entries in bit 5 and five levels in bit 12 of CR4, and
/// long mode in bit 8 of EFER.
pub proof fn mode_follows_registers(efer: u64, cr0: u64, cr4: u64, mode: PagingMode)
    requires
        call_ensures(PagingMode::new, (efer, cr0, cr4), mode),
    ensures
        mode == PagingMode::NoPaging <==> !bit_set(cr0, 0x8000_0000),
        mode == PagingMode::NonPAE <==> bit_set(cr0, 0x8000_0000) && !bit_set(cr4, 0x20),
        mode == PagingMode::PAE <==> bit_set(cr0, 0x8000_0000) && bit_set(cr4, 0x20) && !bit_set(
            efer,
            0x100,
        ),
        mode == PagingMode::PML4 <==> bit_set(cr0, 0x8000_0000) && bit_set(cr4, 0x20) && bit_set(
            efer,
            0x100,
        ) && !bit_set(cr4, 0x1000),
        mode == PagingMode::PML5 <==> bit_set(cr0, 0x8000_0000) && bit_set(cr4, 0x20) && bit_set(
            efer,
            0x100,
        ) && bit_set(cr4, 0x1000),
{
    lemma_mode_bits(efer, cr0, cr4);
}

proof fn lemma_mode_bits(efer: u64, cr0: u64, cr4: u64)
    ensures
        cr0 & 0x8000_0000 != 0 <==> bit_set(cr0, 0x8000_0000),
        cr4 & 0x20 != 0 <==> bit_set(cr4, 0x20),
        cr4 & 0x1000 != 0 <==> bit_set(cr4, 0x1000),
        efer & 0x100 != 0 <==> bit_set(efer, 0x100),
{
    assert(cr0 & 0x8000_0000 != 0 <==> cr0 / 0x8000_0000 % 2 == 1) by (bit_vector);
    assert(cr4 & 0x20 != 0 <==> cr4 / 0x20 % 2 == 1) by (bit_vector);
    assert(cr4 & 0x1000 != 0 <==> cr4 / 0x1000 % 2 == 1) by (bit_vector);
    assert(efer & 0x100 != 0 <==> efer / 0x100 % 2 == 1) by (bit_vector);
}

/// What a page table entry, or the register that names the top table, is made of.
pub ghost struct Link {
    /// The address of a page or a table.
    pub to: u64,
    /// All the other bits.
    pub flags: u64,
}

impl Link {
    /// The entry's 64 bits.
    pub open spec fn raw(self) -> u64 {
        self.to | self.flags
    }

    /// The address is that of a base page, below the end of the physical address
    /// space, and free of the bits that tell private from shared memory. The flags
    /// are outside what the address can be.
    pub open spec fn valid(self, confidentiality: u64) -> bool {
        &&& self.to as int % 0x1000 == 0
        &&& self.to < 0x10_0000_0000_0000
        &&& self.to & confidentiality == 0
        &&& self.flags & 0x000f_ffff_ffff_f000 & !confidentiality == 0
    }

    /// The entry maps something: its lowest bit is set.
    pub open spec fn present(self) -> bool {
        self.raw() as int % 2 == 1
    }

    /// Bit 7 is set.
    pub open spec fn large(self) -> bool {
        bit_set(self.raw(), 0x80)
    }
}

proof fn lemma_link(link: Link, format: PageTableFormat)
    requires
        link.valid(format.confidentiality),
    ensures
        PTEntry(link.raw()).target(format) == PhysAddr(link.to),
        PTEntry(link.raw()).is_present() <==> link.present(),
        PTEntry(link.raw()).is_huge() <==> link.large(),
{
    let to = link.to;
    let flags = link.flags;
    let conf = format.confidentiality;
    let raw = link.raw();
    assert((to | flags) & 0x000f_ffff_ffff_f000 & !conf == to) by (bit_vector)
        requires
            to % 0x1000 == 0,
            to < 0x10_0000_0000_0000,
            to & conf == 0,
            flags & 0x000f_ffff_ffff_f000 & !conf == 0,
    ;
    assert(raw & 0x1 != 0 <==> raw % 2 == 1) by (bit_vector);
    assert(raw & 0x80 != 0 <==> raw / 0x80 % 2 == 1) by (bit_vector);
}

/// An entry made for an address gives that address back, whatever else its bits
/// say, and tells whether it maps something and whether that is a large page.
pub proof fn entry_gives_back_its_address(
    link: Link,
    format: &PageTableFormat,
    entry: &PTEntry,
    address: PhysAddr,
    present: bool,
    huge: bool,
)
    requires
        link.valid(format.confidentiality),
        call_ensures(PTEntry::from_raw, (link.raw(),), *entry),
        call_ensures(PTEntry::address, (entry, format), address),
        call_ensures(PTEntry::present, (entry,), present),
        call_ensures(PTEntry::huge, (entry,), huge),
    ensures
        address == PhysAddr(link.to),
        present == link.present(),
        huge == link.large(),
{
    lemma_link(link, *format);
}

/// The register that names the top table gives the address of that table.
pub proof fn root_gives_back_its_address(
    root: Link,
    format: &PageTableFormat,
    address: PhysAddr,
)
    requires
        root.valid(format.confidentiality),
        call_ensures(cr3_page_table_addr, (format, root.raw()), address),
    ensures
        address == PhysAddr(root.to),
{
    lemma_root(root, *format);
}

proof fn lemma_root(root: Link, format: PageTableFormat)
    requires
        root.valid(format.confidentiality),
    ensures
        root_table(format, root.raw()) == PhysAddr(root.to),
{
    let to = root.to;
    let flags = root.flags;
    let conf = format.confidentiality;
    assert((to | flags) & !0xfff & 0x000f_ffff_ffff_f000 & !conf == to) by (bit_vector)
        requires
            to % 0x1000 == 0,
            to < 0x10_0000_0000_0000,
            to & conf == 0,
            flags & 0x000f_ffff_ffff_f000 & !conf == 0,
    ;
}

/// The bits that must be clear in an entry with bit 7 set, or clear, of `level`.
pub open spec fn forbidden(
    format: PageTableFormat,
    five_levels: bool,
    level: int,
    large: bool,
) -> u64 {
    if five_levels {
        if large {
            format.pml5.huge@[level]
        } else {
            format.pml5.table@[level]
        }
    } else {
        if large {
            format.pml4.huge@[level]
        } else {
            format.pml4.table@[level]
        }
    }
}

/// An entry is found fault with where a bit is set that must be clear, and only
/// there: clearing those bits would change it.
pub proof fn reserved_bits_are_those_of_the_level(
    link: Link,
    format: &PageTableFormat,
    mode: PagingMode,
    level: usize,
    r: bool,
)
    requires
        level <= 4,
        call_ensures(
            PTEntry::has_reserved_bits,
            (&PTEntry(link.raw()), format, mode, level),
            r,
        ),
    ensures
        r <==> link.raw() & !forbidden(
            *format,
            mode == PagingMode::PML5,
            level as int,
            link.large(),
        ) != link.raw(),
{
    lemma_forbidden(link, *format, mode, level as int);
}

proof fn lemma_forbidden(link: Link, format: PageTableFormat, mode: PagingMode, level: int)
    ensures
        ({
            let bits = forbidden(format, mode == PagingMode::PML5, level, link.large());
            PTEntry(link.raw()).is_malformed(format, mode, level) <==> link.raw() & !bits
                != link.raw()
        }),
{
    let raw = link.raw();
    let bits = forbidden(format, mode == PagingMode::PML5, level, link.large());
    assert(raw & 0x80 != 0 <==> raw / 0x80 % 2 == 1) by (bit_vector);
    assert(raw & bits != 0 <==> raw & !bits != raw) by (bit_vector);
}

/// How much of the address space one entry of a table of `level` covers.
pub open spec fn span(level: int) -> int {
    if level == 0 {
        0x1000
    } else if level == 1 {
        0x20_0000
    } else if level == 2 {
        0x4000_0000
    } else if level == 3 {
        0x80_0000_0000
    } else {
        0x1_0000_0000_0000
    }
}

proof fn lemma_span(gva: VirtAddr, level: nat)
    requires
        level <= 4,
    ensures
        table_index(gva, level) == gva.0 as int / span(level as int) % 512,
        0 <= table_index(gva, level) < 512,
{
    lemma2_to64();
    lemma2_to64_rest();
    assert(pow2(12) == 0x1000 && pow2(21) == 0x20_0000 && pow2(30) == 0x4000_0000);
    assert(pow2(39) == 0x80_0000_0000 && pow2(48) == 0x1_0000_0000_0000);
    assert(12 + 9 * level == 12 || 12 + 9 * level == 21 || 12 + 9 * level == 30 || 12 + 9 * level
        == 39 || 12 + 9 * level == 48);
}

/// The entries of a table cover the address space in order, each as much as the
/// next table down.
pub proof fn index_counts_spans(gva: VirtAddr, level: usize, r: u64)
    requires
        level <= 4,
        call_ensures(page_table_index, (gva, level), r),
    ensures
        r == gva.0 as int / span(level as int) % 512,
{
    lemma_span(gva, level as nat);
}

/// The offset in a page is what the address has beyond the start of that page.
pub proof fn offset_is_within_the_page(
    gva: VirtAddr,
    page_size: u64,
    k: nat,
    r: u64,
    base_offset: u64,
)
    requires
        k < 64 && page_size == pow2(k),
        call_ensures(gva_page_offset, (gva, page_size), r),
        call_ensures(VirtAddr::page_offset, (&gva,), base_offset),
    ensures
        r < page_size,
        (gva.0 - r) % page_size as int == 0,
        base_offset < 0x1000,
        (gva.0 - base_offset) % 0x1000 == 0,
{
    lemma_pow2_pos(k);
    lemma_u64_low_bits_mask_is_mod(gva.0, k);
    assert(r == gva.0 % page_size);
    lemma_fundamental_div_mod(gva.0 as int, page_size as int);
    let quotient = gva.0 as int / page_size as int;
    assert(gva.0 - r == page_size * quotient);
    lemma_mod_multiples_basic(quotient, page_size as int);
    lemma_mul_is_commutative(quotient, page_size as int);
}

/// Every copy of guest memory gives what `mem` has for its range.
pub open spec fn backed_by<F: Fn(PhysAddr, usize) -> Option<Vec<u8>>>(
    copy: F,
    mem: spec_fn(PhysAddr, usize) -> Option<Seq<u8>>,
) -> bool {
    forall|gpa: PhysAddr, len: usize, reply: Option<Seq<u8>>| #[trigger]
        reads(copy, gpa, len, reply) ==> reply == mem(gpa, len)
}

/// Every range that `mem` has consists of the bytes of `byte`.
pub open spec fn made_of(
    mem: spec_fn(PhysAddr, usize) -> Option<Seq<u8>>,
    byte: spec_fn(PhysAddr) -> u8,
) -> bool {
    forall|gpa: PhysAddr, len: usize, i: int|
        #![trigger mem(gpa, len)->0[i]]
        mem(gpa, len) is Some && 0 <= i < len ==> mem(gpa, len)->0[i] == byte(
            PhysAddr((gpa.0 + i) as u64),
        )
}

/// Where the walk from the table at `table`, of `level`, ends.
pub open spec fn walk(
    mem: spec_fn(PhysAddr, usize) -> Option<Seq<u8>>,
    format: PageTableFormat,
    mode: PagingMode,
    gva: VirtAddr,
    level: nat,
    table: PhysAddr,
) -> Option<PhysAddr>
    decreases level,
{
    let entry = pte_of_reply(mem(entry_gpa(gva, level, table), 8));
    match step_of(format, mode, gva, level, entry) {
        WalkStep::Fault => None,
        WalkStep::Page(gpa) => Some(gpa),
        WalkStep::Table(next) => if level > 0 {
            walk(mem, format, mode, gva, (level - 1) as nat, next)
        } else {
            None
        },
    }
}

/// The physical address of `gva`, if it is mapped.
pub open spec fn translation(
    mem: spec_fn(PhysAddr, usize) -> Option<Seq<u8>>,
    format: PageTableFormat,
    ctx: GuestSymbolContext,
    gva: VirtAddr,
) -> Option<PhysAddr> {
    let mode = paging_mode(ctx.efer, ctx.cr0, ctx.cr4);
    match mode {
        PagingMode::NoPaging => Some(PhysAddr(gva.0)),
        PagingMode::PML4 | PagingMode::PML5 => walk(
            mem,
            format,
            mode,
            gva,
            top_level(mode),
            root_table(format, ctx.cr3),
        ),
        _ => None,
    }
}

proof fn lemma_walk_deterministic<F: Fn(PhysAddr, usize) -> Option<Vec<u8>>>(
    copy: F,
    mem: spec_fn(PhysAddr, usize) -> Option<Seq<u8>>,
    format: PageTableFormat,
    mode: PagingMode,
    gva: VirtAddr,
    level: nat,
    table: PhysAddr,
    r: Option<PhysAddr>,
)
    requires
        backed_by(copy, mem),
        walks_to(copy, format, mode, gva, level, table, r),
    ensures
        r == walk(mem, format, mode, gva, level, table),
    decreases level,
{
    let at = entry_gpa(gva, level, table);
    let entry = choose|entry: Option<PTEntry>| #[trigger]
        reads_pte(copy, at, entry) && match step_of(format, mode, gva, level, entry) {
            WalkStep::Fault => r is None,
            WalkStep::Page(gpa) => r == Some(gpa),
            WalkStep::Table(next) => level > 0 && walks_to(
                copy,
                format,
                mode,
                gva,
                (level - 1) as nat,
                next,
                r,
            ),
        };
    assert(entry == pte_of_reply(mem(at, 8)));
    match step_of(format, mode, gva, level, entry) {
        WalkStep::Table(next) => {
            lemma_walk_deterministic(copy, mem, format, mode, gva, (level - 1) as nat, next, r);
        },
        _ => {},
    }
}

/// While memory stands still, an address has one translation.
pub proof fn translation_is_unique<F: Fn(PhysAddr, usize) -> Option<Vec<u8>>>(
    copy: F,
    mem: spec_fn(PhysAddr, usize) -> Option<Seq<u8>>,
    format: PageTableFormat,
    ctx: GuestSymbolContext,
    gva: VirtAddr,
    r: Option<PhysAddr>,
)
    requires
        backed_by(copy, mem),
        translates(copy, format, ctx, gva, r),
    ensures
        r == translation(mem, format, ctx, gva),
{
    let mode = paging_mode(ctx.efer, ctx.cr0, ctx.cr4);
    if mode == PagingMode::PML4 || mode == PagingMode::PML5 {
        lemma_walk_deterministic(
            copy,
            mem,
            format,
            mode,
            gva,
            top_level(mode),
            root_table(format, ctx.cr3),
            r,
        );
    }
}

/// These are the eight bytes of `v`, lowest first.
pub open spec fn bytes_of(b: Seq<u8>, v: u64) -> bool {
    &&& b.len() == 8
    &&& b[0] == v % 0x100
    &&& b[1] == v / 0x100 % 0x100
    &&& b[2] == v / 0x1_0000 % 0x100
    &&& b[3] == v / 0x100_0000 % 0x100
    &&& b[4] == v / 0x1_0000_0000 % 0x100
    &&& b[5] == v / 0x100_0000_0000 % 0x100
    &&& b[6] == v / 0x1_0000_0000_0000 % 0x100
    &&& b[7] == v / 0x100_0000_0000_0000
}

proof fn lemma_bytes_of(b: Seq<u8>, v: u64)
    requires
        bytes_of(b, v),
    ensures
        le64(b) == v,
{
    lemma_be64_sum(v);
}

/// A number is read back from its bytes.
pub proof fn number_is_read_back(b: &[u8], v: u64, r: u64)
    requires
        bytes_of(b@, v),
        call_ensures(u64_from_le, (b,), r),
    ensures
        r == v,
{
    lemma_bytes_of(b@, v);
}

/// Each copy of guest memory, where one is made, gives what `mem` has for its
/// range.
pub open spec fn stands_still<F: Fn(PhysAddr, usize) -> Option<Vec<u8>>>(
    copy: F,
    mem: spec_fn(PhysAddr, usize) -> Option<Seq<u8>>,
) -> bool {
    forall|gpa: PhysAddr, len: usize, r: Option<Vec<u8>>| #[trigger]
        call_ensures(copy, (gpa, len), r) ==> mem(gpa, len) == match r {
            Some(bytes) => Some(bytes@),
            None => None,
        }
}

/// Copies that give what `mem` has are backed by it.
pub proof fn lemma_stands_still<F: Fn(PhysAddr, usize) -> Option<Vec<u8>>>(
    copy: F,
    mem: spec_fn(PhysAddr, usize) -> Option<Seq<u8>>,
)
    requires
        stands_still(copy, mem),
    ensures
        backed_by(copy, mem),
{
}

/// The eight bytes at `at` are those of `v`.
pub open spec fn holds(
    mem: spec_fn(PhysAddr, usize) -> Option<Seq<u8>>,
    at: int,
    v: u64,
) -> bool {
    mem(PhysAddr(at as u64), 8) matches Some(b) && bytes_of(b, v)
}

/// An entry is read as it stands in memory, and is missing where memory is.
pub proof fn entry_is_read_from_memory<F: Fn(PhysAddr, usize) -> Option<Vec<u8>>>(
    copy: &F,
    mem: spec_fn(PhysAddr, usize) -> Option<Seq<u8>>,
    gpa: PhysAddr,
    v: u64,
    r: Option<PTEntry>,
)
    requires
        stands_still(*copy, mem),
        call_ensures(read_guest_pte::<F>, (copy, gpa), r),
    ensures
        holds(mem, gpa.0 as int, v) ==> r == Some(PTEntry(v)),
        mem(gpa, 8) is None ==> r is None,
{
    if holds(mem, gpa.0 as int, v) {
        lemma_bytes_of(mem(gpa, 8)->0, v);
    }
}

/// No bit is set in the entry that must be clear.
pub open spec fn sound(
    format: PageTableFormat,
    five_levels: bool,
    level: int,
    link: Link,
) -> bool {
    link.raw() & !forbidden(format, five_levels, level, link.large()) == link.raw()
}

/// Where the entry for `gva` stands in the table at `table`, of `level`.
pub open spec fn slot(gva: VirtAddr, level: int, table: int) -> int {
    table + 8 * (gva.0 as int / span(level) % 512)
}

/// The entry leads on to another table.
pub open spec fn leads_on(
    format: PageTableFormat,
    five_levels: bool,
    level: int,
    link: Link,
) -> bool {
    level > 0 && link.present() && !link.large() && sound(format, five_levels, level, link)
}

/// The tables hold these entries for `gva`, from the table at `table`, of `level`,
/// downwards. All but the last lead on.
pub open spec fn linked(
    mem: spec_fn(PhysAddr, usize) -> Option<Seq<u8>>,
    format: PageTableFormat,
    five_levels: bool,
    gva: VirtAddr,
    level: int,
    table: int,
    links: Seq<Link>,
) -> bool
    decreases links.len(),
{
    links.len() > 0 ==> {
        let link = links[0];
        &&& link.valid(format.confidentiality)
        &&& holds(mem, slot(gva, level, table), link.raw())
        &&& links.len() > 1 ==> leads_on(format, five_levels, level, link) && linked(
            mem,
            format,
            five_levels,
            gva,
            level - 1,
            link.to as int,
            links.drop_first(),
        )
    }
}

/// The page that the entry of `level` maps for `gva`: a base page at the lowest
/// level, and two megabytes or a gigabyte above that. No entry maps more.
pub open spec fn mapped_by(
    format: PageTableFormat,
    five_levels: bool,
    gva: VirtAddr,
    level: int,
    link: Link,
) -> Option<PhysAddr> {
    if !link.present() || !sound(format, five_levels, level, link) {
        None
    } else if level == 0 {
        Some(PhysAddr((link.to + gva.0 % 0x1000) as u64))
    } else if level == 1 && link.large() {
        Some(PhysAddr((link.to + gva.0 % 0x20_0000) as u64))
    } else if level == 2 && link.large() {
        Some(PhysAddr((link.to + gva.0 % 0x4000_0000) as u64))
    } else {
        None
    }
}

proof fn lemma_step(
    format: PageTableFormat,
    mode: PagingMode,
    gva: VirtAddr,
    level: nat,
    link: Link,
)
    requires
        level <= 4,
        link.valid(format.confidentiality),
    ensures
        ({
            let five = mode == PagingMode::PML5;
            let step = step_of(format, mode, gva, level, Some(PTEntry(link.raw())));
            &&& leads_on(format, five, level as int, link) ==> step == WalkStep::Table(
                PhysAddr(link.to),
            )
            &&& !leads_on(format, five, level as int, link) ==> step == match mapped_by(
                format,
                five,
                gva,
                level as int,
                link,
            ) {
                Some(gpa) => WalkStep::Page(gpa),
                None => WalkStep::Fault,
            }
        }),
{
    lemma_link(link, format);
    lemma_forbidden(link, format, mode, level as int);
}

/// One entry decides how the walk goes on: down to the table that it points to,
/// or to an end in the page that it maps. Without an entry, or with one that is
/// not present, or faulty, or maps more than a gigabyte, the walk fails.
pub proof fn entry_decides_the_step(
    link: Link,
    format: &PageTableFormat,
    mode: PagingMode,
    gva: VirtAddr,
    level: usize,
    missing: WalkStep,
    r: WalkStep,
)
    requires
        level <= 4,
        link.valid(format.confidentiality),
        call_ensures(walk_step, (format, mode, gva, level, None), missing),
        call_ensures(walk_step, (format, mode, gva, level, Some(PTEntry(link.raw()))), r),
    ensures
        missing == WalkStep::Fault,
        ({
            let five = mode == PagingMode::PML5;
            if leads_on(*format, five, level as int, link) {
                r == WalkStep::Table(PhysAddr(link.to))
            } else {
                match mapped_by(*format, five, gva, level as int, link) {
                    Some(gpa) => r == WalkStep::Page(gpa),
                    None => r == WalkStep::Fault,
                }
            }
        }),
{
    lemma_step(*format, mode, gva, level as nat, link);
}

proof fn lemma_walk_links(
    mem: spec_fn(PhysAddr, usize) -> Option<Seq<u8>>,
    format: PageTableFormat,
    mode: PagingMode,
    gva: VirtAddr,
    level: nat,
    table: u64,
    links: Seq<Link>,
)
    requires
        level <= 4,
        table < 0x10_0000_0000_0000,
        0 < links.len() <= level + 1,
        linked(mem, format, mode == PagingMode::PML5, gva, level as int, table as int, links),
    ensures
        ({
            let five = mode == PagingMode::PML5;
            let end = level + 1 - links.len();
            let last = links.last();
            let r = walk(mem, format, mode, gva, level, PhysAddr(table));
            &&& !leads_on(format, five, end, last) ==> r == mapped_by(format, five, gva, end, last)
            &&& leads_on(format, five, end, last) && mem(
                PhysAddr(slot(gva, end - 1, last.to as int) as u64),
                8,
            ) is None ==> r is None
        }),
    decreases links.len(),
{
    let link = links[0];
    lemma_span(gva, level);
    lemma_bytes_of(mem(entry_gpa(gva, level, PhysAddr(table)), 8)->0, link.raw());
    lemma_step(format, mode, gva, level, link);
    if links.len() > 1 {
        lemma_walk_links(
            mem,
            format,
            mode,
            gva,
            (level - 1) as nat,
            link.to,
            links.drop_first(),
        );
    } else if leads_on(format, mode == PagingMode::PML5, level as int, link) {
        lemma_span(gva, (level - 1) as nat);
    }
}

/// An address translates as the guest's tables say. From the top table on, which
/// CR3 names, each table is entered at the index that the address has for its
/// level, until an entry does not lead on; that entry maps the address or does
/// not. There are five levels with bit 12 of CR4, and otherwise four. Where
/// a table cannot be read, the address does not translate.
pub proof fn address_translates_as_the_tables_say<F: Fn(PhysAddr, usize) -> Option<Vec<u8>>>(
    copy: &F,
    mem: spec_fn(PhysAddr, usize) -> Option<Seq<u8>>,
    format: &PageTableFormat,
    ctx: GuestSymbolContext,
    gva: VirtAddr,
    root: Link,
    links: Seq<Link>,
    r: Option<PhysAddr>,
)
    requires
        call_ensures(translate_gva::<F>, (copy, format, ctx, gva), r),
        stands_still(*copy, mem),
        bit_set(ctx.cr0, 0x8000_0000) && bit_set(ctx.cr4, 0x20) && bit_set(ctx.efer, 0x100),
        root.valid(format.confidentiality),
        ctx.cr3 == root.raw(),
        ({
            let five = bit_set(ctx.cr4, 0x1000);
            let top: int = if five {
                4
            } else {
                3
            };
            links.len() <= top + 1 && linked(
                mem,
                *format,
                five,
                gva,
                top,
                root.to as int,
                links,
            )
        }),
    ensures
        ({
            let five = bit_set(ctx.cr4, 0x1000);
            let end: int = (if five {
                5int
            } else {
                4int
            }) - links.len();
            if links.len() == 0 {
                mem(PhysAddr(slot(gva, end - 1, root.to as int) as u64), 8) is None ==> r is None
            } else {
                let last = links.last();
                &&& !leads_on(*format, five, end, last) ==> r == mapped_by(
                    *format,
                    five,
                    gva,
                    end,
                    last,
                )
                &&& leads_on(*format, five, end, last) && mem(
                    PhysAddr(slot(gva, end - 1, last.to as int) as u64),
                    8,
                ) is None ==> r is None
            }
        }),
{
    lemma_mode_bits(ctx.efer, ctx.cr0, ctx.cr4);
    lemma_root(root, *format);
    lemma_stands_still(*copy, mem);
    translation_is_unique(*copy, mem, *format, ctx, gva, r);
    let mode = paging_mode(ctx.efer, ctx.cr0, ctx.cr4);
    if links.len() > 0 {
        lemma_walk_links(mem, *format, mode, gva, top_level(mode), root.to, links);
    } else {
        lemma_span(gva, top_level(mode));
    }
}

/// While memory stands still, an address is always translated alike.
pub proof fn address_has_one_translation<F: Fn(PhysAddr, usize) -> Option<Vec<u8>>>(
    copy: &F,
    mem: spec_fn(PhysAddr, usize) -> Option<Seq<u8>>,
    format: &PageTableFormat,
    ctx: GuestSymbolContext,
    gva: VirtAddr,
    r: Option<PhysAddr>,
)
    requires
        call_ensures(translate_gva::<F>, (copy, format, ctx, gva), r),
        stands_still(*copy, mem),
    ensures
        r == translation(mem, *format, ctx, gva),
{
    lemma_stands_still(*copy, mem);
    translation_is_unique(*copy, mem, *format, ctx, gva, r);
}

/// Without paging every address stands for itself, and without long mode none
/// translates.
pub proof fn address_translates_without_long_mode<F: Fn(PhysAddr, usize) -> Option<Vec<u8>>>(
    copy: &F,
    format: &PageTableFormat,
    ctx: GuestSymbolContext,
    gva: VirtAddr,
    r: Option<PhysAddr>,
)
    requires
        call_ensures(translate_gva::<F>, (copy, format, ctx, gva), r),
    ensures
        !bit_set(ctx.cr0, 0x8000_0000) ==> r == Some(PhysAddr(gva.0)),
        bit_set(ctx.cr0, 0x8000_0000) && !(bit_set(ctx.cr4, 0x20) && bit_set(ctx.efer, 0x100))
            ==> r is None,
{
    lemma_mode_bits(ctx.efer, ctx.cr0, ctx.cr4);
}

/// `b` is `a`, moved by the distance from `from` to `to`, or neither is there.
pub open spec fn moved(
    a: Option<PhysAddr>,
    from: VirtAddr,
    to: VirtAddr,
    b: Option<PhysAddr>,
) -> bool {
    match (a, b) {
        (None, None) => true,
        (Some(a), Some(b)) => b.0 - a.0 == to.0 - from.0,
        _ => false,
    }
}

proof fn lemma_same_index(from: VirtAddr, to: VirtAddr, level: nat)
    requires
        from.0 / 0x1000 == to.0 / 0x1000,
    ensures
        table_index(from, level) == table_index(to, level),
{
    lemma2_to64();
    lemma_pow2_adds(12, 9 * level);
    lemma_pow2_pos(9 * level);
    lemma_div_denominator(from.0 as int, 0x1000, pow2(9 * level) as int);
    lemma_div_denominator(to.0 as int, 0x1000, pow2(9 * level) as int);
}

proof fn lemma_same_offsets(from: u64, to: u64)
    requires
        from / 0x1000 == to / 0x1000,
    ensures
        to % 0x1000 - from % 0x1000 == to - from,
        to % 0x20_0000 - from % 0x20_0000 == to - from,
        to % 0x4000_0000 - from % 0x4000_0000 == to - from,
{
}

proof fn lemma_same_page_walk(
    mem: spec_fn(PhysAddr, usize) -> Option<Seq<u8>>,
    format: PageTableFormat,
    mode: PagingMode,
    from: VirtAddr,
    to: VirtAddr,
    level: nat,
    table: PhysAddr,
)
    requires
        from.0 / 0x1000 == to.0 / 0x1000,
    ensures
        moved(
            walk(mem, format, mode, from, level, table),
            from,
            to,
            walk(mem, format, mode, to, level, table),
        ),
    decreases level,
{
    lemma_same_index(from, to, level);
    lemma_same_offsets(from.0, to.0);
    let reply = mem(entry_gpa(from, level, table), 8);
    match pte_of_reply(reply) {
        Some(entry) => {
            lemma_target_bound(entry, format);
            match step_of(format, mode, from, level, Some(entry)) {
                WalkStep::Table(next) => {
                    if level > 0 {
                        lemma_same_page_walk(mem, format, mode, from, to, (level - 1) as nat, next);
                    }
                },
                _ => {},
            }
        },
        None => {},
    }
}

/// Addresses in one base page translate alike: both or neither, and as far apart
/// as they are themselves.
pub proof fn translation_keeps_pages(
    mem: spec_fn(PhysAddr, usize) -> Option<Seq<u8>>,
    format: PageTableFormat,
    ctx: GuestSymbolContext,
    from: VirtAddr,
    to: VirtAddr,
)
    requires
        from.0 / 0x1000 == to.0 / 0x1000,
    ensures
        moved(
            translation(mem, format, ctx, from),
            from,
            to,
            translation(mem, format, ctx, to),
        ),
{
    let mode = paging_mode(ctx.efer, ctx.cr0, ctx.cr4);
    if mode == PagingMode::PML4 || mode == PagingMode::PML5 {
        lemma_same_page_walk(
            mem,
            format,
            mode,
            from,
            to,
            top_level(mode),
            root_table(format, ctx.cr3),
        );
    }
}

/// How many of `n` bytes at `gva` come before the next base page.
pub open spec fn page_part(gva: VirtAddr, n: nat) -> nat {
    let rest = (0x1000 - gva.0 % 0x1000) as nat;
    if n < rest {
        n
    } else {
        rest
    }
}

/// Those of `n` bytes at `gva` that lie in its base page, if they can be read.
pub open spec fn chunk(
    mem: spec_fn(PhysAddr, usize) -> Option<Seq<u8>>,
    format: PageTableFormat,
    ctx: GuestSymbolContext,
    gva: VirtAddr,
    n: nat,
) -> Option<Seq<u8>> {
    match translation(mem, format, ctx, gva) {
        Some(gpa) => mem(gpa, page_part(gva, n) as usize),
        None => None,
    }
}

/// How a read of some bytes begins.
proof fn lemma_first_chunk<F: Fn(PhysAddr, usize) -> Option<Vec<u8>>>(
    copy: F,
    mem: spec_fn(PhysAddr, usize) -> Option<Seq<u8>>,
    format: PageTableFormat,
    ctx: GuestSymbolContext,
    gva: VirtAddr,
    n: nat,
    filled: Seq<u8>,
    ok: bool,
)
    requires
        backed_by(copy, mem),
        n > 0,
        fills(copy, format, ctx, gva, n, filled, ok),
    ensures
        match chunk(mem, format, ctx, gva, n) {
            None => !ok && filled.len() == 0,
            Some(bytes) => {
                let len = page_part(gva, n);
                &&& bytes.len() == len
                &&& bytes.is_prefix_of(filled)
                &&& fills(
                    copy,
                    format,
                    ctx,
                    VirtAddr((gva.0 + len) as u64),
                    (n - len) as nat,
                    filled.skip(len as int),
                    ok,
                )
            },
        },
{
    assert forall|bytes: Option<Seq<u8>>| #[trigger]
        reads_chunk(copy, format, ctx, gva, n, bytes) implies bytes == chunk(
        mem,
        format,
        ctx,
        gva,
        n,
    ) by {
        assert forall|gpa: Option<PhysAddr>| #[trigger]
            translates(copy, format, ctx, gva, gpa) implies gpa == translation(
            mem,
            format,
            ctx,
            gva,
        ) by {
            translation_is_unique(copy, mem, format, ctx, gva, gpa);
        }
    }
}

/// A read gives, at each place that it fills, the byte at the translation of the
/// address of that place.
pub proof fn slice_holds_guest_bytes<F: Fn(PhysAddr, usize) -> Option<Vec<u8>>>(
    copy: F,
    mem: spec_fn(PhysAddr, usize) -> Option<Seq<u8>>,
    byte: spec_fn(PhysAddr) -> u8,
    format: PageTableFormat,
    ctx: GuestSymbolContext,
    gva: VirtAddr,
    n: nat,
    filled: Seq<u8>,
    ok: bool,
    i: int,
)
    requires
        backed_by(copy, mem),
        made_of(mem, byte),
        gva.0 + n <= u64::MAX,
        fills(copy, format, ctx, gva, n, filled, ok),
        0 <= i < filled.len(),
    ensures
        translation(mem, format, ctx, VirtAddr((gva.0 + i) as u64)) matches Some(gpa) && filled[i]
            == byte(gpa),
    decreases n,
{
    let chunk = page_part(gva, n);
    lemma_first_chunk(copy, mem, format, ctx, gva, n, filled, ok);
    let gpa = translation(mem, format, ctx, gva)->0;
    let bytes = mem(gpa, chunk as usize)->0;
    let there = VirtAddr((gva.0 + i) as u64);
    if i < chunk {
        assert(gva.0 / 0x1000 == there.0 / 0x1000);
        translation_keeps_pages(mem, format, ctx, gva, there);
        assert(filled[i] == bytes[i]);
        assert(mem(gpa, chunk as usize)->0[i] == byte(PhysAddr((gpa.0 + i) as u64)));
    } else {
        let next = VirtAddr((gva.0 + chunk) as u64);
        slice_holds_guest_bytes(
            copy,
            mem,
            byte,
            format,
            ctx,
            next,
            (n - chunk) as nat,
            filled.skip(chunk as int),
            ok,
            i - chunk,
        );
        assert(VirtAddr((next.0 + (i - chunk)) as u64) == there);
    }
}

/// What a read of `n` bytes at `gva` fills, and whether it is complete.
pub open spec fn slice(
    mem: spec_fn(PhysAddr, usize) -> Option<Seq<u8>>,
    format: PageTableFormat,
    ctx: GuestSymbolContext,
    gva: VirtAddr,
    n: nat,
) -> (Seq<u8>, bool)
    decreases n,
{
    if n == 0 {
        (Seq::empty(), true)
    } else {
        match chunk(mem, format, ctx, gva, n) {
            None => (Seq::empty(), false),
            Some(bytes) => {
                let len = page_part(gva, n);
                let (rest, ok) = slice(
                    mem,
                    format,
                    ctx,
                    VirtAddr((gva.0 + len) as u64),
                    (n - len) as nat,
                );
                (bytes + rest, ok)
            },
        }
    }
}

/// While memory stands still, a read has one outcome.
pub proof fn slice_is_unique<F: Fn(PhysAddr, usize) -> Option<Vec<u8>>>(
    copy: F,
    mem: spec_fn(PhysAddr, usize) -> Option<Seq<u8>>,
    format: PageTableFormat,
    ctx: GuestSymbolContext,
    gva: VirtAddr,
    n: nat,
    filled: Seq<u8>,
    ok: bool,
)
    requires
        backed_by(copy, mem),
        fills(copy, format, ctx, gva, n, filled, ok),
    ensures
        (filled, ok) == slice(mem, format, ctx, gva, n),
    decreases n,
{
    if n == 0 {
        assert(filled =~= Seq::empty());
    } else {
        lemma_first_chunk(copy, mem, format, ctx, gva, n, filled, ok);
        match chunk(mem, format, ctx, gva, n) {
            None => {
                assert(filled =~= Seq::empty());
            },
            Some(bytes) => {
                let len = page_part(gva, n);
                let next = VirtAddr((gva.0 + len) as u64);
                let rest = filled.skip(len as int);
                slice_is_unique(copy, mem, format, ctx, next, (n - len) as nat, rest, ok);
                assert(filled =~= bytes + rest);
            },
        }
    }
}

/// A complete read fills the buffer, and one that stops leaves some of it.
pub proof fn complete_read_fills_buffer<F: Fn(PhysAddr, usize) -> Option<Vec<u8>>>(
    copy: F,
    format: PageTableFormat,
    ctx: GuestSymbolContext,
    gva: VirtAddr,
    n: nat,
    filled: Seq<u8>,
    ok: bool,
)
    requires
        fills(copy, format, ctx, gva, n, filled, ok),
    ensures
        ok ==> filled.len() == n,
        !ok ==> filled.len() < n,
    decreases n,
{
    if n > 0 && filled.len() > 0 {
        let chunk = page_part(gva, n);
        complete_read_fills_buffer(
            copy,
            format,
            ctx,
            VirtAddr((gva.0 + chunk) as u64),
            (n - chunk) as nat,
            filled.skip(chunk as int),
            ok,
        );
    }
}

/// A read of `n` bytes at `gva` comes to a new page at `a`, or begins there.
pub open spec fn chunk_starts(gva: VirtAddr, n: nat, a: VirtAddr) -> bool {
    &&& gva.0 <= a.0 < gva.0 + n
    &&& a == gva || a.0 % 0x1000 == 0
}

proof fn lemma_chunk_starts(gva: VirtAddr, n: nat, a: VirtAddr)
    requires
        gva.0 + n <= u64::MAX,
        n > 0,
    ensures
        ({
            let len = page_part(gva, n);
            chunk_starts(gva, n, a) <==> a == gva || chunk_starts(
                VirtAddr((gva.0 + len) as u64),
                (n - len) as nat,
                a,
            )
        }),
{
}

/// Each page that a read of `n` bytes at `gva` comes to translates and, as far as
/// the read goes, can be read.
pub open spec fn readable(
    mem: spec_fn(PhysAddr, usize) -> Option<Seq<u8>>,
    format: PageTableFormat,
    ctx: GuestSymbolContext,
    gva: VirtAddr,
    n: nat,
) -> bool {
    forall|a: VirtAddr| #[trigger]
        chunk_starts(gva, n, a) ==> chunk(mem, format, ctx, a, (gva.0 + n - a.0) as nat) is Some
}

/// A read is complete if and only if the memory that it comes to is readable.
pub proof fn slice_is_complete_where_readable(
    mem: spec_fn(PhysAddr, usize) -> Option<Seq<u8>>,
    format: PageTableFormat,
    ctx: GuestSymbolContext,
    gva: VirtAddr,
    n: nat,
)
    requires
        gva.0 + n <= u64::MAX,
    ensures
        slice(mem, format, ctx, gva, n).1 <==> readable(mem, format, ctx, gva, n),
    decreases n,
{
    if n > 0 {
        let len = page_part(gva, n);
        let next = VirtAddr((gva.0 + len) as u64);
        let rest = (n - len) as nat;
        slice_is_complete_where_readable(mem, format, ctx, next, rest);
        lemma_chunk_starts(gva, n, gva);
        if readable(mem, format, ctx, gva, n) {
            assert forall|a: VirtAddr| #[trigger] chunk_starts(next, rest, a) implies chunk(
                mem,
                format,
                ctx,
                a,
                (next.0 + rest - a.0) as nat,
            ) is Some by {
                lemma_chunk_starts(gva, n, a);
            }
        }
        if slice(mem, format, ctx, gva, n).1 {
            assert forall|a: VirtAddr| #[trigger] chunk_starts(gva, n, a) implies chunk(
                mem,
                format,
                ctx,
                a,
                (gva.0 + n - a.0) as nat,
            ) is Some by {
                lemma_chunk_starts(gva, n, a);
            }
        }
    }
}

proof fn lemma_read_stops<F: Fn(PhysAddr, usize) -> Option<Vec<u8>>>(
    copy: F,
    mem: spec_fn(PhysAddr, usize) -> Option<Seq<u8>>,
    format: PageTableFormat,
    ctx: GuestSymbolContext,
    gva: VirtAddr,
    n: nat,
    filled: Seq<u8>,
)
    requires
        backed_by(copy, mem),
        gva.0 + n <= u64::MAX,
        fills(copy, format, ctx, gva, n, filled, false),
    ensures
        ({
            let stop = VirtAddr((gva.0 + filled.len()) as u64);
            &&& filled.len() < n
            &&& chunk_starts(gva, n, stop)
            &&& chunk(mem, format, ctx, stop, (n - filled.len()) as nat) is None
        }),
    decreases n,
{
    lemma_first_chunk(copy, mem, format, ctx, gva, n, filled, false);
    lemma_chunk_starts(gva, n, gva);
    if chunk(mem, format, ctx, gva, n) is Some {
        let len = page_part(gva, n);
        let next = VirtAddr((gva.0 + len) as u64);
        lemma_read_stops(
            copy,
            mem,
            format,
            ctx,
            next,
            (n - len) as nat,
            filled.skip(len as int),
        );
        lemma_chunk_starts(gva, n, VirtAddr((gva.0 + filled.len()) as u64));
    }
}

/// A buffer that held `before` holds, after a read at `gva`, guest memory in its
/// first `k` bytes and what it held in the others. Where that is not all, the read
/// had come to a page that does not translate or cannot be read.
pub open spec fn read_up_to(
    mem: spec_fn(PhysAddr, usize) -> Option<Seq<u8>>,
    byte: spec_fn(PhysAddr) -> u8,
    format: PageTableFormat,
    ctx: GuestSymbolContext,
    gva: VirtAddr,
    before: Seq<u8>,
    after: Seq<u8>,
    k: nat,
) -> bool {
    let n = before.len();
    let stop = VirtAddr((gva.0 + k) as u64);
    &&& k <= n
    &&& forall|i: int|
        0 <= i < k ==> (#[trigger] translation(
            mem,
            format,
            ctx,
            VirtAddr((gva.0 + i) as u64),
        ) matches Some(gpa) && after[i] == byte(gpa))
    &&& forall|i: int| k <= i < n ==> after[i] == before[i]
    &&& k < n ==> chunk_starts(gva, n, stop) && chunk(
        mem,
        format,
        ctx,
        stop,
        (n - k) as nat,
    ) is None
}

/// A read is complete if and only if every page that it comes to translates and
/// can be read as far as the read goes. It then gives, for each address, the byte
/// at the translation of that address. Otherwise it stops at the first page that
/// is at fault: it gives the bytes before that page, and leaves the rest of the
/// buffer as it was.
pub proof fn slice_is_read_from_memory<F: Fn(PhysAddr, usize) -> Option<Vec<u8>>>(
    copy: &F,
    mem: spec_fn(PhysAddr, usize) -> Option<Seq<u8>>,
    byte: spec_fn(PhysAddr) -> u8,
    format: &PageTableFormat,
    ctx: GuestSymbolContext,
    gva: VirtAddr,
    buf: &mut [u8],
    r: Option<()>,
)
    requires
        call_ensures(read_guest_slice::<F>, (copy, format, ctx, gva, buf), r),
        stands_still(*copy, mem),
        made_of(mem, byte),
        gva.0 + old(buf)@.len() <= u64::MAX,
    ensures
        final(buf)@.len() == old(buf)@.len(),
        r is Some <==> readable(mem, *format, ctx, gva, old(buf)@.len()),
        exists|k: nat| #[trigger]
            read_up_to(mem, byte, *format, ctx, gva, old(buf)@, final(buf)@, k) && (r is Some
                <==> k == old(buf)@.len()),
{
    let n = old(buf)@.len();
    let after = final(buf)@;
    lemma_stands_still(*copy, mem);
    let filled = if r is Some {
        after
    } else {
        choose|filled: Seq<u8>| #[trigger]
            fills(*copy, *format, ctx, gva, n, filled, false) && after == filled + old(buf)@.skip(
                filled.len() as int,
            )
    };
    complete_read_fills_buffer(*copy, *format, ctx, gva, n, filled, r is Some);
    slice_is_unique(*copy, mem, *format, ctx, gva, n, filled, r is Some);
    slice_is_complete_where_readable(mem, *format, ctx, gva, n);
    assert forall|i: int| 0 <= i < filled.len() implies (#[trigger] translation(
        mem,
        *format,
        ctx,
        VirtAddr((gva.0 + i) as u64),
    ) matches Some(gpa) && after[i] == byte(gpa)) by {
        slice_holds_guest_bytes(
            *copy,
            mem,
            byte,
            *format,
            ctx,
            gva,
            n,
            filled,
            r is Some,
            i,
        );
    }
    if r is None {
        lemma_read_stops(*copy, mem, *format, ctx, gva, n, filled);
        assert forall|i: int| filled.len() <= i < n implies after[i] == old(buf)@[i] by {
            assert(old(buf)@.skip(filled.len() as int)[i - filled.len()] == old(buf)@[i]);
        }
    }
    assert(read_up_to(mem, byte, *format, ctx, gva, old(buf)@, after, filled.len()));
}

/// Where any range may be copied, any address may be translated.
pub proof fn copying_allows_translation<F: Fn(PhysAddr, usize) -> Option<Vec<u8>>>(
    copy: F,
    format: PageTableFormat,
    ctx: GuestSymbolContext,
    gva: VirtAddr,
)
    requires
        copies(copy),
    ensures
        may_translate(copy, format, ctx, gva),
{
    let mode = paging_mode(ctx.efer, ctx.cr0, ctx.cr4);
    lemma_may_walk(copy, format, mode, gva, top_level(mode), root_table(format, ctx.cr3));
}

/// The entries that the tables hold for an address can be read one by one.
pub open spec fn links_can_be_read<F: Fn(PhysAddr, usize) -> Option<Vec<u8>>>(
    copy: F,
    gva: VirtAddr,
    level: int,
    table: int,
    links: Seq<Link>,
) -> bool
    decreases links.len(),
{
    links.len() > 0 ==> {
        let at = PhysAddr(slot(gva, level, table) as u64);
        &&& call_requires(copy, (at, 8usize))
        &&& forall|r: Option<Vec<u8>>| #[trigger]
            call_ensures(copy, (at, 8usize), r) ==> (r matches Some(bytes) ==> bytes@.len() == 8)
        &&& links_can_be_read(copy, gva, level - 1, links[0].to as int, links.drop_first())
    }
}

proof fn lemma_may_walk_links<F: Fn(PhysAddr, usize) -> Option<Vec<u8>>>(
    copy: F,
    mem: spec_fn(PhysAddr, usize) -> Option<Seq<u8>>,
    format: PageTableFormat,
    mode: PagingMode,
    gva: VirtAddr,
    level: nat,
    table: u64,
    links: Seq<Link>,
)
    requires
        stands_still(copy, mem),
        level <= 4,
        table < 0x10_0000_0000_0000,
        0 < links.len() <= level + 1,
        linked(mem, format, mode == PagingMode::PML5, gva, level as int, table as int, links),
        links_can_be_read(copy, gva, level as int, table as int, links),
        !leads_on(format, mode == PagingMode::PML5, level + 1 - links.len(), links.last()),
    ensures
        may_walk(copy, format, mode, gva, level, PhysAddr(table)),
    decreases links.len(),
{
    let link = links[0];
    let at = entry_gpa(gva, level, PhysAddr(table));
    lemma_span(gva, level);
    lemma_bytes_of(mem(at, 8)->0, link.raw());
    lemma_step(format, mode, gva, level, link);
    lemma_stands_still(copy, mem);
    assert(may_copy(copy, at, 8));
    if links.len() > 1 {
        assert(links.drop_first().last() == links.last());
        lemma_may_walk_links(
            copy,
            mem,
            format,
            mode,
            gva,
            (level - 1) as nat,
            link.to,
            links.drop_first(),
        );
    }
    assert forall|entry: Option<PTEntry>| #[trigger] reads_pte(copy, at, entry) implies entry
        == Some(PTEntry(link.raw())) by {}
}

/// To translate an address it is enough that the entries that the tables hold for
/// it can be read, each of eight bytes: nothing else is. Without long mode nothing
/// is read at all.
pub proof fn translation_reads_the_entries_only<F: Fn(PhysAddr, usize) -> Option<Vec<u8>>>(
    copy: &F,
    mem: spec_fn(PhysAddr, usize) -> Option<Seq<u8>>,
    format: &PageTableFormat,
    ctx: GuestSymbolContext,
    gva: VirtAddr,
    root: Link,
    links: Seq<Link>,
)
    requires
        bit_set(ctx.cr0, 0x8000_0000) && bit_set(ctx.cr4, 0x20) && bit_set(ctx.efer, 0x100) ==> {
            let five = bit_set(ctx.cr4, 0x1000);
            let top: int = if five {
                4
            } else {
                3
            };
            &&& stands_still(*copy, mem)
            &&& root.valid(format.confidentiality)
            &&& ctx.cr3 == root.raw()
            &&& 0 < links.len() <= top + 1
            &&& linked(mem, *format, five, gva, top, root.to as int, links)
            &&& links_can_be_read(*copy, gva, top, root.to as int, links)
            &&& !leads_on(*format, five, top + 1 - links.len(), links.last())
        },
    ensures
        call_requires(translate_gva::<F>, (copy, format, ctx, gva)),
{
    lemma_mode_bits(ctx.efer, ctx.cr0, ctx.cr4);
    if bit_set(ctx.cr0, 0x8000_0000) && bit_set(ctx.cr4, 0x20) && bit_set(ctx.efer, 0x100) {
        let mode = paging_mode(ctx.efer, ctx.cr0, ctx.cr4);
        lemma_root(root, *format);
        lemma_may_walk_links(
            *copy,
            mem,
            *format,
            mode,
            gva,
            top_level(mode),
            root.to,
            links,
        );
    }
}

/// Each page of a read may be come to once those before it were read, and only
/// there: its address translated, and what the read needs of it copied where it
/// translates.
pub open spec fn pages_can_be_read<F: Fn(PhysAddr, usize) -> Option<Vec<u8>>>(
    copy: F,
    mem: spec_fn(PhysAddr, usize) -> Option<Seq<u8>>,
    format: PageTableFormat,
    ctx: GuestSymbolContext,
    gva: VirtAddr,
    n: nat,
) -> bool
    decreases n,
{
    n > 0 ==> {
        let part = page_part(gva, n);
        &&& may_translate(copy, format, ctx, gva)
        &&& translation(mem, format, ctx, gva) matches Some(gpa) ==> may_copy(
            copy,
            gpa,
            part as usize,
        )
        &&& chunk(mem, format, ctx, gva, n) is Some ==> pages_can_be_read(
            copy,
            mem,
            format,
            ctx,
            VirtAddr((gva.0 + part) as u64),
            (n - part) as nat,
        )
    }
}

proof fn lemma_may_fill<F: Fn(PhysAddr, usize) -> Option<Vec<u8>>>(
    copy: F,
    mem: spec_fn(PhysAddr, usize) -> Option<Seq<u8>>,
    format: PageTableFormat,
    ctx: GuestSymbolContext,
    gva: VirtAddr,
    n: nat,
)
    requires
        backed_by(copy, mem),
        pages_can_be_read(copy, mem, format, ctx, gva, n),
    ensures
        may_fill(copy, format, ctx, gva, n),
    decreases n,
{
    if n > 0 {
        let part = page_part(gva, n);
        assert forall|gpa: Option<PhysAddr>| #[trigger]
            translates(copy, format, ctx, gva, gpa) implies gpa == translation(
            mem,
            format,
            ctx,
            gva,
        ) by {
            translation_is_unique(copy, mem, format, ctx, gva, gpa);
        }
        if chunk(mem, format, ctx, gva, n) is Some {
            lemma_may_fill(
                copy,
                mem,
                format,
                ctx,
                VirtAddr((gva.0 + part) as u64),
                (n - part) as nat,
            );
        }
    }
}

/// A read comes to no page behind one that does not translate or cannot be read.
pub proof fn read_goes_no_further_than_it_can<F: Fn(PhysAddr, usize) -> Option<Vec<u8>>>(
    copy: &F,
    mem: spec_fn(PhysAddr, usize) -> Option<Seq<u8>>,
    format: &PageTableFormat,
    ctx: GuestSymbolContext,
    gva: VirtAddr,
    buf: &mut [u8],
)
    requires
        stands_still(*copy, mem),
        gva.0 + old(buf)@.len() <= u64::MAX,
        pages_can_be_read(*copy, mem, *format, ctx, gva, old(buf)@.len()),
    ensures
        call_requires(read_guest_slice::<F>, (copy, format, ctx, gva, buf)),
{
    lemma_stands_still(*copy, mem);
    lemma_may_fill(*copy, mem, *format, ctx, gva, old(buf)@.len());
}

/// An empty buffer is filled without a look at guest memory.
pub proof fn empty_read_reads_nothing<F: Fn(PhysAddr, usize) -> Option<Vec<u8>>>(
    copy: &F,
    format: &PageTableFormat,
    ctx: GuestSymbolContext,
    gva: VirtAddr,
    buf: &mut [u8],
)
    requires
        old(buf)@.len() == 0,
    ensures
        call_requires(read_guest_slice::<F>, (copy, format, ctx, gva, buf)),
{
}

/// Where any range may be copied, any slice within the address space may be asked
/// for, and any address be translated.
pub proof fn reads_take_any_address<F: Fn(PhysAddr, usize) -> Option<Vec<u8>>>(
    copy: &F,
    format: &PageTableFormat,
    ctx: GuestSymbolContext,
    gva: VirtAddr,
    buf: &mut [u8],
    gpa: PhysAddr,
)
    requires
        copies(*copy),
        gva.0 + old(buf)@.len() <= u64::MAX,
    ensures
        call_requires(read_guest_slice::<F>, (copy, format, ctx, gva, buf)),
        call_requires(translate_gva::<F>, (copy, format, ctx, gva)),
        call_requires(read_guest_pte::<F>, (copy, gpa)),
{
    copying_allows_reading(*copy, *format, ctx, gva, old(buf)@.len());
    copying_allows_translation(*copy, *format, ctx, gva);
}

proof fn lemma_may_walk<F: Fn(PhysAddr, usize) -> Option<Vec<u8>>>(
    copy: F,
    format: PageTableFormat,
    mode: PagingMode,
    gva: VirtAddr,
    level: nat,
    table: PhysAddr,
)
    requires
        copies(copy),
    ensures
        may_walk(copy, format, mode, gva, level, table),
    decreases level,
{
    let at = entry_gpa(gva, level, table);
    assert(may_copy(copy, at, 8));
    if level > 0 {
        assert forall|entry: Option<PTEntry>| #[trigger] reads_pte(copy, at, entry) implies match
            step_of(format, mode, gva, level, entry) {
            WalkStep::Table(next) => may_walk(copy, format, mode, gva, (level - 1) as nat, next),
            _ => true,
        } by {
            match step_of(format, mode, gva, level, entry) {
                WalkStep::Table(next) => {
                    lemma_may_walk(copy, format, mode, gva, (level - 1) as nat, next);
                },
                _ => {},
            }
        }
    }
}

/// Where any range may be copied, any slice may be read.
pub proof fn copying_allows_reading<F: Fn(PhysAddr, usize) -> Option<Vec<u8>>>(
    copy: F,
    format: PageTableFormat,
    ctx: GuestSymbolContext,
    gva: VirtAddr,
    n: nat,
)
    requires
        copies(copy),
    ensures
        may_fill(copy, format, ctx, gva, n),
    decreases n,
{
    if n > 0 {
        let len = page_part(gva, n);
        copying_allows_translation(copy, format, ctx, gva);
        assert forall|gpa: PhysAddr| #[trigger]
            translates(copy, format, ctx, gva, Some(gpa)) implies may_copy(
            copy,
            gpa,
            len as usize,
        ) by {}
        copying_allows_reading(
            copy,
            format,
            ctx,
            VirtAddr((gva.0 + len) as u64),
            (n - len) as nat,
        );
    }
}

} // verus!
