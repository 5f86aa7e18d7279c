use std::cell::RefCell;
use std::collections::HashMap;
use svsm_vmm::address::{PhysAddr, VirtAddr};
use svsm_vmm::guest_memory::{
    cr3_page_table_addr, gva_page_offset, page_table_index, read_guest_pte, read_guest_slice,
    translate_gva, walk_step, WalkStep,
};
use svsm_vmm::guest_symbols::GuestSymbolContext;
use svsm_vmm::paging::{PTEntry, PageTableFormat, PagingMode, ReservedBits};

const PAE: u64 = 0x20;
const LA57: u64 = 0x1000;

fn format() -> PageTableFormat {
    let table = [0, 0, 0, 0x80, 0x80];
    let huge = [0, 0x1f_e000, 0x3fff_e000, 0x80, 0x80];
    PageTableFormat {
        confidentiality: 1 << 51,
        pml4: ReservedBits { table: [0, 0, 0, 0, 0], huge: [0, 0x1f_e000, 0x3fff_e000, 0, 0] },
        pml5: ReservedBits { table, huge },
    }
}

fn context(cr4: u64) -> GuestSymbolContext {
    GuestSymbolContext { cr0: 0x8000_0001, cr3: 0x1abc, cr4, efer: 0x500 }
}

struct Memory {
    bytes: HashMap<u64, u8>,
}

impl Memory {
    fn new() -> Memory {
        Memory { bytes: HashMap::new() }
    }

    fn put(&mut self, at: u64, bytes: &[u8]) {
        for (i, byte) in bytes.iter().enumerate() {
            self.bytes.insert(at + i as u64, *byte);
        }
    }

    fn put_entry(&mut self, table: u64, index: u64, entry: u64) {
        self.put(table + index * 8, &entry.to_le_bytes());
    }

    fn copy(&self, gpa: PhysAddr, len: usize) -> Option<Vec<u8>> {
        (0..len as u64).map(|i| self.bytes.get(&(gpa.0 + i)).copied()).collect()
    }
}

/// Four levels that map the base page at 0x7f12_3456_7000.
fn four_levels() -> (Memory, VirtAddr) {
    let gva = VirtAddr(0x7f12_3456_7000);
    let mut memory = Memory::new();
    memory.put_entry(0x1000, 0xfe, 0x2000 | 0x7);
    memory.put_entry(0x2000, 0x48, 0x3000 | 0x7);
    memory.put_entry(0x3000, 0x1a2, 0x4000 | 0x7);
    memory.put_entry(0x4000, 0x167, 0x8000_0000_dead_b000 | 0x7 | (1 << 51));
    (memory, gva)
}

#[test]
fn indices_by_level() {
    let gva = VirtAddr(0x7f12_3456_7000);
    assert_eq!(page_table_index(gva, 0), 0x167);
    assert_eq!(page_table_index(gva, 1), 0x1a2);
    assert_eq!(page_table_index(gva, 2), 0x48);
    assert_eq!(page_table_index(gva, 3), 0xfe);
    assert_eq!(page_table_index(gva, 4), 0);
    assert_eq!(page_table_index(VirtAddr(0xffff_ffff_0009_86c0), 4), 0x1ff);
}

#[test]
fn page_offsets_by_size() {
    let gva = VirtAddr(0x7f12_3456_7abc);
    assert_eq!(gva_page_offset(gva, 0x1000), 0xabc);
    assert_eq!(gva_page_offset(gva, 0x20_0000), 0x16_7abc);
    assert_eq!(gva_page_offset(gva, 0x4000_0000), 0x3456_7abc);
    assert_eq!(gva.page_offset(), 0xabc);
}

#[test]
fn root_table_drops_flags_and_confidentiality() {
    assert_eq!(cr3_page_table_addr(&format(), 0x0008_0000_1234_5abc), PhysAddr(0x1234_5000));
}

#[test]
fn entries_are_read_lowest_byte_first() {
    let mut memory = Memory::new();
    memory.put(0x100, &[1, 2, 3, 4, 5, 6, 7, 8]);
    let copy = |gpa: PhysAddr, len: usize| memory.copy(gpa, len);
    assert_eq!(read_guest_pte(&copy, PhysAddr(0x100)), Some(PTEntry(0x0807_0605_0403_0201)));
    assert_eq!(read_guest_pte(&copy, PhysAddr(0x101)), None);
}

#[test]
fn modes_by_register() {
    assert_eq!(PagingMode::new(0x100, 0, PAE), PagingMode::NoPaging);
    assert_eq!(PagingMode::new(0x100, 0x8000_0000, 0), PagingMode::NonPAE);
    assert_eq!(PagingMode::new(0, 0x8000_0000, PAE), PagingMode::PAE);
    assert_eq!(PagingMode::new(0x100, 0x8000_0000, PAE), PagingMode::PML4);
    assert_eq!(PagingMode::new(0x100, 0x8000_0000, PAE | LA57), PagingMode::PML5);
}

#[test]
fn base_page_translates() {
    let (memory, gva) = four_levels();
    let copy = |gpa: PhysAddr, len: usize| memory.copy(gpa, len);
    let at = VirtAddr(gva.0 + 0x123);
    assert_eq!(translate_gva(&copy, &format(), context(PAE), at), Some(PhysAddr(0xdead_b123)));
}

#[test]
fn addresses_of_a_page_keep_their_distance() {
    let (memory, gva) = four_levels();
    let copy = |gpa: PhysAddr, len: usize| memory.copy(gpa, len);
    let first = translate_gva(&copy, &format(), context(PAE), gva).unwrap();
    let last = translate_gva(&copy, &format(), context(PAE), VirtAddr(gva.0 + 0xfff)).unwrap();
    assert_eq!(last.0 - first.0, 0xfff);
    assert_eq!(translate_gva(&copy, &format(), context(PAE), VirtAddr(gva.0 + 0x1000)), None);
}

#[test]
fn five_levels_translate() {
    let (mut memory, gva) = four_levels();
    let mut ctx = context(PAE | LA57);
    ctx.cr3 = 0x9000;
    memory.put_entry(0x9000, 0, 0x1000 | 0x7);
    let copy = |gpa: PhysAddr, len: usize| memory.copy(gpa, len);
    assert_eq!(translate_gva(&copy, &format(), ctx, gva), Some(PhysAddr(0xdead_b000)));
}

#[test]
fn huge_pages_translate() {
    let (mut memory, gva) = four_levels();
    let at = VirtAddr(gva.0 + 0x123);
    memory.put_entry(0x3000, 0x1a2, 0x4020_0000 | 0x81);
    let copy = |gpa: PhysAddr, len: usize| memory.copy(gpa, len);
    assert_eq!(
        translate_gva(&copy, &format(), context(PAE), at),
        Some(PhysAddr(0x4020_0000 + 0x16_7123))
    );
    memory.put_entry(0x2000, 0x48, 0x8000_0000 | 0x81);
    let copy = |gpa: PhysAddr, len: usize| memory.copy(gpa, len);
    assert_eq!(
        translate_gva(&copy, &format(), context(PAE), at),
        Some(PhysAddr(0x8000_0000 + 0x3456_7123))
    );
}

#[test]
fn faults_end_a_walk() {
    let (mut memory, gva) = four_levels();
    memory.put_entry(0x4000, 0x167, 0x5000);
    let copy = |gpa: PhysAddr, len: usize| memory.copy(gpa, len);
    assert_eq!(translate_gva(&copy, &format(), context(PAE), gva), None);

    let (mut memory, gva) = four_levels();
    memory.put_entry(0x3000, 0x1a2, 0x4020_2000 | 0x81);
    let copy = |gpa: PhysAddr, len: usize| memory.copy(gpa, len);
    assert_eq!(translate_gva(&copy, &format(), context(PAE), gva), None);

    let (mut memory, gva) = four_levels();
    memory.put_entry(0x1000, 0xfe, 0x2000 | 0x81);
    let copy = |gpa: PhysAddr, len: usize| memory.copy(gpa, len);
    assert_eq!(translate_gva(&copy, &format(), context(PAE), gva), None);
}

#[test]
fn steps_of_a_walk() {
    let gva = VirtAddr(0x7f12_3456_7123);
    let step = |level: usize, raw: u64| {
        walk_step(&format(), PagingMode::PML4, gva, level, Some(PTEntry(raw)))
    };
    assert_eq!(walk_step(&format(), PagingMode::PML4, gva, 2, None), WalkStep::Fault);
    assert_eq!(step(3, 0x2000), WalkStep::Fault);
    assert_eq!(step(3, 0x2001), WalkStep::Table(PhysAddr(0x2000)));
    assert_eq!(step(3, 0x2081), WalkStep::Fault);
    assert_eq!(step(0, 0x2081), WalkStep::Page(PhysAddr(0x2123)));
    assert_eq!(
        walk_step(&format(), PagingMode::PML5, gva, 3, Some(PTEntry(0x2081))),
        WalkStep::Fault
    );
}

#[test]
fn translation_without_long_mode() {
    let copy = |_: PhysAddr, _: usize| -> Option<Vec<u8>> { panic!("no walk") };
    let gva = VirtAddr(0x1_2345_6789);
    let mut ctx = context(PAE);
    ctx.cr0 = 1;
    assert_eq!(translate_gva(&copy, &format(), ctx, gva), Some(PhysAddr(0x1_2345_6789)));
    let mut ctx = context(PAE);
    ctx.efer = 0;
    assert_eq!(translate_gva(&copy, &format(), ctx, gva), None);
    assert_eq!(translate_gva(&copy, &format(), context(0), gva), None);
}

#[test]
fn slices_cross_pages() {
    let (mut memory, gva) = four_levels();
    memory.put_entry(0x4000, 0x168, 0x7000 | 0x1);
    memory.put(0xdead_bffc, &[1, 2, 3, 4]);
    memory.put(0x7000, &[5, 6, 7]);
    let copy = |gpa: PhysAddr, len: usize| memory.copy(gpa, len);
    let mut buf = [0u8; 7];
    let at = VirtAddr(gva.0 + 0xffc);
    assert_eq!(read_guest_slice(&copy, &format(), context(PAE), at, &mut buf), Some(()));
    assert_eq!(buf, [1, 2, 3, 4, 5, 6, 7]);
}

#[test]
fn slices_stop_at_the_first_bad_page() {
    let (mut memory, gva) = four_levels();
    memory.put(0xdead_bffc, &[1, 2, 3, 4]);
    let copy = |gpa: PhysAddr, len: usize| memory.copy(gpa, len);
    let mut buf = [9u8; 7];
    let at = VirtAddr(gva.0 + 0xffc);
    assert_eq!(read_guest_slice(&copy, &format(), context(PAE), at, &mut buf), None);
    assert_eq!(buf, [1, 2, 3, 4, 9, 9, 9]);
    let mut none: [u8; 0] = [];
    assert_eq!(read_guest_slice(&copy, &format(), context(PAE), at, &mut none), Some(()));
}

fn unread(_: PhysAddr, _: usize) -> Option<Vec<u8>> {
    panic!("guest memory is left alone")
}

#[test]
fn nothing_is_read_without_long_tables() {
    let gva = VirtAddr(0x1234_5678);
    let mut unpaged = context(PAE);
    unpaged.cr0 = 1;
    assert_eq!(translate_gva(&unread, &format(), unpaged, gva), Some(PhysAddr(0x1234_5678)));
    let mut legacy = context(PAE);
    legacy.efer = 0;
    assert_eq!(translate_gva(&unread, &format(), legacy, gva), None);
    let mut none: [u8; 0] = [];
    assert_eq!(read_guest_slice(&unread, &format(), context(PAE), gva, &mut none), Some(()));
    let mut one = [9u8; 1];
    assert_eq!(read_guest_slice(&unread, &format(), legacy, gva, &mut one), None);
    assert_eq!(one, [9]);
}

#[test]
fn nothing_is_read_behind_a_bad_page() {
    let (mut memory, gva) = four_levels();
    memory.put(0xdead_bffe, &[1, 2]);
    memory.put_entry(0x4000, 0x169, 0x7000 | 0x1);
    memory.put(0x7000, &[3, 4]);
    let asked = RefCell::new(Vec::new());
    let copy = |gpa: PhysAddr, len: usize| {
        asked.borrow_mut().push((gpa.0, len));
        memory.copy(gpa, len)
    };
    let mut buf = [9u8; 0x1004];
    let at = VirtAddr(gva.0 + 0xffe);
    assert_eq!(read_guest_slice(&copy, &format(), context(PAE), at, &mut buf), None);
    assert_eq!(buf[..3], [1, 2, 9]);
    let walk = [(0x17f0, 8), (0x2240, 8), (0x3d10, 8)];
    let mut expected = walk.to_vec();
    expected.extend([(0x4b38, 8), (0xdead_bffe, 2)]);
    expected.extend(walk);
    expected.push((0x4b40, 8));
    assert_eq!(*asked.borrow(), expected);
}
