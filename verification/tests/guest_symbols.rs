use std::cell::RefCell;
use svsm_vmm::address::{PhysAddr, VirtAddr};
use svsm_vmm::guest_symbols::{
    banner_snapshot, begin_banner_search, end_banner_search, find_linux_banner,
    is_printable_ascii, linux_banner_len, maybe_resolve_linux_banner, tcp_hashinfo_gva,
    BannerSnapshot, GuestSymbolContext, GuestSymbols,
};
use svsm_vmm::paging::{PageTableFormat, ReservedBits};
use svsm_vmm::vmsa::{GuestVMExit, Vmsa};

const BASE: u64 = 0xffff_ffff_0009_86c0;

fn format() -> PageTableFormat {
    let none = ReservedBits { table: [0; 5], huge: [0; 5] };
    PageTableFormat { confidentiality: 0, pml4: none, pml5: none }
}

fn unpaged() -> GuestSymbolContext {
    GuestSymbolContext { cr0: 0x1, cr3: 0, cr4: 0, efer: 0 }
}

/// Memory that holds `text` at each of `places`, and zeros elsewhere.
fn memory(places: Vec<u64>, text: &'static [u8]) -> impl Fn(PhysAddr, usize) -> Option<Vec<u8>> {
    move |gpa: PhysAddr, len: usize| {
        let mut bytes = vec![0u8; len];
        if places.contains(&gpa.0) {
            for i in 0..len.min(text.len()) {
                bytes[i] = text[i];
            }
        }
        Some(bytes)
    }
}

fn snapshot(text: &[u8]) -> BannerSnapshot {
    let mut bytes = [0u8; 256];
    bytes[..text.len()].copy_from_slice(text);
    BannerSnapshot {
        banner_gva: 1,
        banner_gpa: 2,
        tcp_hashinfo_gva: 3,
        tcp_hashinfo_gpa: 4,
        bytes,
        len: text.len(),
    }
}

#[test]
fn context_comes_from_saved_state() {
    let vmsa = Vmsa {
        cr0: 1,
        cr3: 2,
        cr4: 3,
        efer: 4,
        rax: 5,
        guest_exit_code: GuestVMExit::VMGEXIT,
    };
    assert_eq!(
        GuestSymbolContext::from_vmsa(&vmsa),
        GuestSymbolContext { cr0: 1, cr3: 2, cr4: 3, efer: 4 }
    );
}

#[test]
fn printable_bytes() {
    for byte in 0..=255u8 {
        let expected = (0x20..=0x7e).contains(&byte) || b"\n\r\t".contains(&byte);
        assert_eq!(is_printable_ascii(byte), expected);
    }
}

#[test]
fn banner_lengths() {
    assert_eq!(linux_banner_len(b"Linux version 6.8\n\0trash"), Some(17));
    assert_eq!(linux_banner_len(b"Linux version"), Some(13));
    assert_eq!(linux_banner_len(b"Linux version\r\n\r\n"), Some(13));
    assert_eq!(linux_banner_len(b"Linux version a\nb\n"), Some(17));
    assert_eq!(linux_banner_len(b"Linux version\t\n"), Some(14));
}

#[test]
fn no_banner() {
    assert_eq!(linux_banner_len(b""), None);
    assert_eq!(linux_banner_len(b"Linux versio"), None);
    assert_eq!(linux_banner_len(b"linux version 6.8"), None);
    assert_eq!(linux_banner_len(b"Linux version \x07\0"), None);
    assert_eq!(linux_banner_len(b"Linux version 6.8\x80"), None);
    assert_eq!(linux_banner_len(b"Linux version 6.8\0\x80"), Some(17));
}

#[test]
fn banner_texts() {
    assert_eq!(snapshot(b"").banner_str(), "<unknown>");
    assert_eq!(snapshot(b"Linux version 6.8").banner_str(), "Linux version 6.8");
    assert_eq!(snapshot("gr\u{fc}n".as_bytes()).banner_str(), "gr\u{fc}n");
    assert_eq!(snapshot(b"Linux \xff\xfe").banner_str(), "<non-utf8>");
}

#[test]
fn nothing_is_known_at_first() {
    let symbols = GuestSymbols::new();
    let snapshot = banner_snapshot(&symbols);
    assert_eq!(snapshot.banner_gva, 0);
    assert_eq!(snapshot.banner_gpa, 0);
    assert_eq!(snapshot.tcp_hashinfo_gva, 0);
    assert_eq!(snapshot.tcp_hashinfo_gpa, 0);
    assert_eq!(snapshot.banner_str(), "<unknown>");
    assert_eq!(tcp_hashinfo_gva(&symbols), None);
}

#[test]
fn first_banner_is_found_and_kept() {
    let mut symbols = GuestSymbols::new();
    let copy = memory(vec![BASE + 0x50_0000, BASE + 0x90_0000], b"Linux version 6.8 (x)\n\0");
    let found = maybe_resolve_linux_banner(&mut symbols, &copy, &format(), unpaged()).unwrap();
    assert_eq!(found.banner_gva, 0xffff_ffff_0059_86c0);
    assert_eq!(found.banner_gpa, 0xffff_ffff_0059_86c0);
    assert_eq!(found.tcp_hashinfo_gva, 0xffff_ffff_0174_9ac0);
    assert_eq!(found.tcp_hashinfo_gpa, 0xffff_ffff_0174_9ac0);
    assert_eq!(found.banner_str(), "Linux version 6.8 (x)");
    assert_eq!(tcp_hashinfo_gva(&symbols), Some(VirtAddr(0xffff_ffff_0174_9ac0)));

    let other = memory(vec![BASE], b"Linux version 7.0\0");
    assert!(maybe_resolve_linux_banner(&mut symbols, &other, &format(), unpaged()).is_none());
    let kept = banner_snapshot(&symbols);
    assert_eq!(kept.banner_gva, 0xffff_ffff_0059_86c0);
    assert_eq!(kept.banner_str(), "Linux version 6.8 (x)");
}

#[test]
fn search_may_be_repeated() {
    let mut symbols = GuestSymbols::new();
    let empty = memory(vec![], b"");
    assert!(maybe_resolve_linux_banner(&mut symbols, &empty, &format(), unpaged()).is_none());
    let failing = |_: PhysAddr, _: usize| -> Option<Vec<u8>> { None };
    assert!(maybe_resolve_linux_banner(&mut symbols, &failing, &format(), unpaged()).is_none());
    assert_eq!(banner_snapshot(&symbols).banner_gva, 0);
    let copy = memory(vec![BASE], b"Linux version 6.8\0");
    let found = maybe_resolve_linux_banner(&mut symbols, &copy, &format(), unpaged()).unwrap();
    assert_eq!(found.banner_gva, BASE);
}

#[test]
fn last_place_has_no_tcp_table() {
    let mut symbols = GuestSymbols::new();
    let copy = memory(vec![BASE + 0xfff0_0000], b"Linux version 6.8\0");
    let found = maybe_resolve_linux_banner(&mut symbols, &copy, &format(), unpaged()).unwrap();
    assert_eq!(found.banner_gva, 0xffff_ffff_fff9_86c0);
    assert_eq!(found.tcp_hashinfo_gva, 0);
    assert_eq!(found.tcp_hashinfo_gpa, 0);
    assert_eq!(tcp_hashinfo_gva(&symbols), None);
}

#[test]
fn tcp_table_ends_with_the_address_space() {
    let mut symbols = GuestSymbols::new();
    let copy = memory(vec![BASE + 0xfee * 0x10_0000], b"Linux version 6.8\0");
    let found = maybe_resolve_linux_banner(&mut symbols, &copy, &format(), unpaged()).unwrap();
    assert_eq!(found.tcp_hashinfo_gva, 0);

    let mut symbols = GuestSymbols::new();
    let copy = memory(vec![BASE + 0xfed * 0x10_0000], b"Linux version 6.8\0");
    let found = maybe_resolve_linux_banner(&mut symbols, &copy, &format(), unpaged()).unwrap();
    assert_eq!(found.tcp_hashinfo_gva, 0xffff_ffff_fff4_9ac0);
}

#[test]
fn banner_through_page_tables() {
    // One page directory entry maps the two megabytes at 0xffff_ffff_0000_0000.
    let ctx = GuestSymbolContext { cr0: 0x8000_0001, cr3: 0x1000, cr4: 0x20, efer: 0x500 };
    let copy = |gpa: PhysAddr, len: usize| -> Option<Vec<u8>> {
        let entry = |raw: u64| Some(raw.to_le_bytes().to_vec());
        match gpa.0 {
            0x1ff8 => entry(0x2001),
            0x2fe0 => entry(0x3001),
            0x3000 => entry(0x4000_0081),
            0x4019_86c0 => {
                let mut bytes = vec![0u8; len];
                bytes[..17].copy_from_slice(b"Linux version 6.8");
                Some(bytes)
            }
            0x4009_86c0 => Some(vec![0u8; len]),
            _ => None,
        }
    };
    let mut symbols = GuestSymbols::new();
    let found = maybe_resolve_linux_banner(&mut symbols, &copy, &format(), ctx).unwrap();
    assert_eq!(found.banner_gva, BASE + 0x10_0000);
    assert_eq!(found.banner_gpa, 0x4019_86c0);
    assert_eq!(found.tcp_hashinfo_gva, BASE + 0x10_0000 + 0x011b_1400);
    assert_eq!(found.tcp_hashinfo_gpa, 0);
    assert_eq!(found.banner_str(), "Linux version 6.8");
}

#[test]
fn banner_without_end_fills_the_buffer() {
    let mut symbols = GuestSymbols::new();
    let copy = |_: PhysAddr, len: usize| -> Option<Vec<u8>> {
        let mut bytes = vec![b'x'; len];
        for (i, byte) in b"Linux version".iter().enumerate() {
            if i < len {
                bytes[i] = *byte;
            }
        }
        Some(bytes)
    };
    let found = maybe_resolve_linux_banner(&mut symbols, &copy, &format(), unpaged()).unwrap();
    assert_eq!(found.banner_str().len(), 256);
}

fn unread(_: PhysAddr, _: usize) -> Option<Vec<u8>> {
    panic!("guest memory is left alone")
}

#[test]
fn known_banner_is_not_looked_for() {
    let mut symbols = GuestSymbols::new();
    let copy = memory(vec![BASE], b"Linux version 6.8\0");
    assert!(maybe_resolve_linux_banner(&mut symbols, &copy, &format(), unpaged()).is_some());
    let paged = GuestSymbolContext { cr0: 0x8000_0001, cr3: 0x7000, cr4: 0x20, efer: 0x500 };
    assert!(maybe_resolve_linux_banner(&mut symbols, &unread, &format(), paged).is_none());
    assert!(!begin_banner_search(&mut symbols));
    assert_eq!(banner_snapshot(&symbols).banner_str(), "Linux version 6.8");
}

#[test]
fn searches_take_turns() {
    let mut symbols = GuestSymbols::new();
    assert!(begin_banner_search(&mut symbols));
    assert!(!begin_banner_search(&mut symbols));
    assert!(maybe_resolve_linux_banner(&mut symbols, &unread, &format(), unpaged()).is_none());
    let found = find_linux_banner(&memory(vec![], b""), &format(), unpaged());
    assert!(found.is_none());
    assert!(end_banner_search(&mut symbols, found).is_none());

    assert!(begin_banner_search(&mut symbols));
    let copy = memory(vec![BASE + 0x10_0000], b"Linux version 6.8\0");
    let found = find_linux_banner(&copy, &format(), unpaged());
    let snapshot = end_banner_search(&mut symbols, found).unwrap();
    assert_eq!(snapshot.banner_gva, BASE + 0x10_0000);
    assert_eq!(snapshot.banner_str(), "Linux version 6.8");
    assert!(!begin_banner_search(&mut symbols));
}

#[test]
fn search_reads_no_further_than_the_banner() {
    let asked = RefCell::new(Vec::new());
    let inner = memory(vec![BASE + 0x20_0000], b"Linux version 6.8\0");
    let copy = |gpa: PhysAddr, len: usize| {
        asked.borrow_mut().push((gpa.0, len));
        inner(gpa, len)
    };
    assert!(find_linux_banner(&copy, &format(), unpaged()).is_some());
    assert_eq!(
        *asked.borrow(),
        vec![(BASE, 256), (BASE + 0x10_0000, 256), (BASE + 0x20_0000, 256)]
    );
}

#[test]
fn snapshot_shows_the_whole_buffer() {
    let mut symbols = GuestSymbols::new();
    assert_eq!(banner_snapshot(&symbols).bytes, [0u8; 256]);
    let long = find_linux_banner(
        &memory(vec![BASE], b"Linux version 6.8.12\0"),
        &format(),
        unpaged(),
    );
    let first = end_banner_search(&mut symbols, long).unwrap();
    assert_eq!(&first.bytes[..20], b"Linux version 6.8.12");
    assert_eq!(first.bytes[20..], [0u8; 236]);
    let short = find_linux_banner(
        &memory(vec![BASE], b"Linux version 7\0 trash"),
        &format(),
        unpaged(),
    );
    let second = end_banner_search(&mut symbols, short).unwrap();
    assert_eq!(second.banner_str(), "Linux version 7");
    assert_eq!(&second.bytes[..20], b"Linux version 7.8.12");
    assert_eq!(second.bytes[20..], [0u8; 236]);
}
