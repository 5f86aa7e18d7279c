//! What holds of the search for the banner.

use crate::address::{PhysAddr, VirtAddr, PAGE_SIZE};
use crate::guest_memory::{copies, fills, may_copy, may_fill, may_translate, translates};
use crate::guest_symbols::{
    banner_is_text, banner_len, banner_prefix, banner_snapshot, begin_banner_search, candidate,
    end_banner_search, find_linux_banner, finding, finds, hits, hits_first, is_banner,
    is_printable_ascii, lemma_text_len, lemma_text_len_is, lemma_trimmed_len, line_end,
    linux_banner_len, may_look, may_search, maybe_resolve_linux_banner, misses, misses_before,
    printable, resolves, tcp_hashinfo_gva, tcp_hashinfo_of, text_len, trimmed_len, BannerCache,
    BannerSnapshot, Finding, FoundBanner, GuestSymbolContext, GuestSymbols, Symbols,
    LINUX_BANNER_MAX_LEN, LINUX_BANNER_PATTERN_MAX, TCP_HASHINFO_OFFSET,
};
use crate::memory_laws::{
    backed_by, copying_allows_reading, copying_allows_translation, lemma_stands_still, page_part,
    slice, slice_is_unique, stands_still, translation, translation_is_unique,
};
use crate::paging::PageTableFormat;
use crate::vmsa::Vmsa;
use vstd::prelude::*;
use vstd::utf8::{decode_utf8, valid_utf8};

verus! {

/// A byte of text: a letter, a digit, a sign or a space of ASCII, or a tab, a line
/// feed or a carriage return.
pub open spec fn text_byte(byte: u8) -> bool {
    32 <= byte <= 126 || byte == 9 || byte == 10 || byte == 13
}

/// What may stand in a banner is told byte by byte.
pub proof fn printable_bytes_are_text(byte: u8, r: bool)
    requires
        call_ensures(is_printable_ascii, (byte,), r),
    ensures
        r == text_byte(byte),
{
}

/// The text reads `Linux version`, goes on with text, and does not end in a line
/// end.
pub open spec fn reads_as_banner(text: Seq<u8>) -> bool {
    &&& text.len() >= 13
    &&& text[0] == 76 && text[1] == 105 && text[2] == 110 && text[3] == 117 && text[4] == 120
    &&& text[5] == 32
    &&& text[6] == 118 && text[7] == 101 && text[8] == 114 && text[9] == 115 && text[10] == 105
    &&& text[11] == 111 && text[12] == 110
    &&& forall|i: int| 0 <= i < text.len() ==> text_byte(#[trigger] text[i])
    &&& text[text.len() - 1] != 10 && text[text.len() - 1] != 13
}

/// From place `from` on, `buf` holds nothing but line ends up to place `end`, at
/// which it ends or holds a zero.
pub open spec fn ends_at(buf: Seq<u8>, from: int, end: int) -> bool {
    &&& from <= end <= buf.len()
    &&& forall|i: int| from <= i < end ==> #[trigger] buf[i] == 10 || buf[i] == 13
    &&& end < buf.len() ==> buf[end] == 0
}

/// The first `len` bytes of `buf` are a banner, with line ends behind it and then
/// a zero or the end of `buf`.
pub open spec fn banner_of_len(buf: Seq<u8>, len: int) -> bool {
    &&& 0 <= len <= buf.len()
    &&& reads_as_banner(buf.take(len))
    &&& exists|end: int| ends_at(buf, len, end)
}

proof fn lemma_prefix(buf: Seq<u8>)
    ensures
        banner_prefix().is_prefix_of(buf) <==> {
            &&& buf.len() >= 13
            &&& buf[0] == 76 && buf[1] == 105 && buf[2] == 110 && buf[3] == 117 && buf[4] == 120
            &&& buf[5] == 32
            &&& buf[6] == 118 && buf[7] == 101 && buf[8] == 114 && buf[9] == 115 && buf[10] == 105
            &&& buf[11] == 111 && buf[12] == 110
        },
{
    let prefix = banner_prefix();
    if prefix.is_prefix_of(buf) {
        assert(forall|i: int| 0 <= i < 13 ==> buf[i] == prefix[i]);
    } else if buf.len() >= 13 && buf[0] == 76 && buf[1] == 105 && buf[2] == 110 && buf[3] == 117
        && buf[4] == 120 && buf[5] == 32 && buf[6] == 118 && buf[7] == 101 && buf[8] == 114
        && buf[9] == 115 && buf[10] == 105 && buf[11] == 111 && buf[12] == 110 {
        assert(buf.take(13) =~= prefix);
    }
}

proof fn lemma_banner_len_is(buf: Seq<u8>, len: int)
    requires
        banner_of_len(buf, len),
    ensures
        banner_len(buf) == Some(len as nat),
{
    let text = buf.take(len);
    let end = choose|end: int| ends_at(buf, len, end);
    assert forall|i: int| 0 <= i < end implies text_byte(buf[i]) by {
        if i < len {
            assert(text_byte(text[i]));
        }
    }
    lemma_text_len_is(buf, end as nat);
    lemma_prefix(buf);
    lemma_trimmed_len(buf, end as nat);
    let trimmed = trimmed_len(buf, end as nat);
    if trimmed < len {
        assert(line_end(buf[len - 1]));
        assert(buf[len - 1] == text[len - 1]);
    }
    if trimmed > len {
        assert(buf[trimmed - 1] == 10 || buf[trimmed - 1] == 13);
    }
}

proof fn lemma_banner_of_len(buf: Seq<u8>)
    ensures
        banner_len(buf) matches Some(len) ==> banner_of_len(buf, len as int),
{
    if let Some(len) = banner_len(buf) {
        let end = text_len(buf);
        lemma_text_len(buf);
        lemma_trimmed_len(buf, end);
        lemma_prefix(buf);
        if end < 13 {
            assert(buf[end as int] == 0);
        }
        if len < 13 {
            assert(line_end(buf[12]));
        }
        let text = buf.take(len as int);
        assert forall|i: int| 0 <= i < text.len() implies text_byte(#[trigger] text[i]) by {
            assert(printable(buf[i]));
        }
        assert(ends_at(buf, len as int, end as int));
    }
}

/// A buffer has a banner of a length if and only if it holds such a text: one that
/// reads as a banner, with any number of line ends behind it, and then a zero or
/// the end of the buffer. The length of the text has no other limit.
pub proof fn every_banner_is_recognised(buf: &[u8], r: Option<usize>)
    requires
        call_ensures(linux_banner_len, (buf,), r),
    ensures
        forall|len: int|
            banner_of_len(buf@, len) <==> (r matches Some(found) && found == len),
{
    lemma_banner_of_len(buf@);
    assert forall|len: int| banner_of_len(buf@, len) implies banner_len(buf@) == Some(
        len as nat,
    ) && len >= 0 by {
        lemma_banner_len_is(buf@, len);
    }
}

/// A text that reads as a banner is found in full wherever it stands at the start
/// of a buffer, with line ends and a zero behind it, or with line ends only.
pub proof fn text_is_found_in_full(
    buf: &[u8],
    text: Seq<u8>,
    line_ends: Seq<u8>,
    rest: Seq<u8>,
    r: Option<usize>,
)
    requires
        reads_as_banner(text),
        forall|i: int|
            0 <= i < line_ends.len() ==> #[trigger] line_ends[i] == 10 || line_ends[i] == 13,
        buf@ == text + line_ends || buf@ == text + line_ends + seq![0u8] + rest,
        call_ensures(linux_banner_len, (buf,), r),
    ensures
        r matches Some(len) && len == text.len(),
{
    let len = text.len() as int;
    let end = len + line_ends.len();
    assert(buf@.take(len) =~= text);
    assert forall|i: int| len <= i < end implies #[trigger] buf@[i] == 10 || buf@[i] == 13 by {
        assert(buf@[i] == line_ends[i - len]);
    }
    assert(ends_at(buf@, len, end));
    lemma_banner_len_is(buf@, len);
}

/// The places for the banner come in ascending order, and each leaves room for
/// the longest banner before its page ends.
pub proof fn candidates_ascend(i: u16, j: u16)
    requires
        i < j <= LINUX_BANNER_PATTERN_MAX,
    ensures
        0 < candidate(i) < candidate(j),
        candidate(i) % PAGE_SIZE + LINUX_BANNER_MAX_LEN <= PAGE_SIZE,
        candidate(j) % PAGE_SIZE + LINUX_BANNER_MAX_LEN <= PAGE_SIZE,
{
    assert(candidate(i) == 0xffff_ffff_0009_86c0 + i * 0x10_0000);
    assert(candidate(j) == 0xffff_ffff_0009_86c0 + j * 0x10_0000);
}

/// The table of TCP connections has a known place for all but the last eighteen
/// places of the banner.
pub proof fn tcp_hashinfo_known(i: u16)
    requires
        i <= LINUX_BANNER_PATTERN_MAX,
    ensures
        i < 0xfee ==> tcp_hashinfo_of(candidate(i)) == candidate(i) + TCP_HASHINFO_OFFSET,
        i >= 0xfee ==> tcp_hashinfo_of(candidate(i)) == 0,
{
    assert(candidate(i) == 0xffff_ffff_0009_86c0 + i * 0x10_0000);
}

/// Once the banner has been found, no search changes what is known, whatever
/// memory it is made in.
pub proof fn found_banner_stays<
    F: Fn(PhysAddr, usize) -> Option<Vec<u8>>,
    G: Fn(PhysAddr, usize) -> Option<Vec<u8>>,
>(
    copy: F,
    format: PageTableFormat,
    ctx: GuestSymbolContext,
    before: Symbols,
    found: Symbols,
    later_copy: G,
    later_format: PageTableFormat,
    later_ctx: GuestSymbolContext,
    later: Symbols,
)
    requires
        before.banner_gva == 0,
        resolves(copy, format, ctx, before, found),
        found.banner_gva != 0,
    ensures
        resolves(later_copy, later_format, later_ctx, found, later) <==> later == found,
{
}

/// One search is made at a time: none may begin while one is under way. One that
/// found nothing makes room for the next, and one that found the banner is the
/// last.
pub proof fn searches_take_turns(before: Symbols, found: Finding)
    requires
        before.searchable(),
        found.consistent(),
    ensures
        ({
            let under_way = Symbols { scan_in_progress: true, ..before };
            &&& !under_way.searchable()
            &&& under_way.after_search(None) == before
            &&& !under_way.after_search(Some(found)).searchable()
        }),
{
    let i = choose|i: u16|
        i <= LINUX_BANNER_PATTERN_MAX && found.banner_gva == #[trigger] candidate(i);
    assert(candidate(i) == 0xffff_ffff_0009_86c0 + i * 0x10_0000);
}

/// A search is over when it returns: it leaves no mark that one is under way.
pub proof fn search_is_over<F: Fn(PhysAddr, usize) -> Option<Vec<u8>>>(
    copy: F,
    format: PageTableFormat,
    ctx: GuestSymbolContext,
    before: Symbols,
    after: Symbols,
)
    requires
        resolves(copy, format, ctx, before, after),
    ensures
        after.scan_in_progress == before.scan_in_progress,
{
}

/// The banner at the `i`-th place, if there is one.
pub open spec fn banner_at(
    mem: spec_fn(PhysAddr, usize) -> Option<Seq<u8>>,
    format: PageTableFormat,
    ctx: GuestSymbolContext,
    i: u16,
) -> Option<Seq<u8>> {
    let gva = VirtAddr(candidate(i));
    let (buf, ok) = slice(mem, format, ctx, gva, LINUX_BANNER_MAX_LEN as nat);
    match banner_len(buf) {
        Some(len) => if ok && translation(mem, format, ctx, gva) is Some {
            Some(buf.take(len as int))
        } else {
            None
        },
        None => None,
    }
}

proof fn lemma_miss<F: Fn(PhysAddr, usize) -> Option<Vec<u8>>>(
    copy: F,
    mem: spec_fn(PhysAddr, usize) -> Option<Seq<u8>>,
    format: PageTableFormat,
    ctx: GuestSymbolContext,
    i: u16,
)
    requires
        backed_by(copy, mem),
        misses(copy, format, ctx, i),
    ensures
        banner_at(mem, format, ctx, i) is None,
{
    let gva = VirtAddr(candidate(i));
    let n = LINUX_BANNER_MAX_LEN as nat;
    if translates(copy, format, ctx, gva, None) {
        translation_is_unique(copy, mem, format, ctx, gva, None);
    } else {
        let (filled, ok) = choose|filled: Seq<u8>, ok: bool| #[trigger]
            fills(copy, format, ctx, gva, n, filled, ok) && (ok ==> banner_len(filled) is None);
        slice_is_unique(copy, mem, format, ctx, gva, n, filled, ok);
    }
}

proof fn lemma_hit<F: Fn(PhysAddr, usize) -> Option<Vec<u8>>>(
    copy: F,
    mem: spec_fn(PhysAddr, usize) -> Option<Seq<u8>>,
    format: PageTableFormat,
    ctx: GuestSymbolContext,
    i: u16,
    found: Finding,
)
    requires
        backed_by(copy, mem),
        hits(copy, format, ctx, i, found),
    ensures
        found == banner_found(mem, format, ctx, i),
        banner_at(mem, format, ctx, i) is Some,
{
    let gva = VirtAddr(candidate(i));
    let n = LINUX_BANNER_MAX_LEN as nat;
    translation_is_unique(copy, mem, format, ctx, gva, Some(PhysAddr(found.banner_gpa)));
    let buf = choose|buf: Seq<u8>| #[trigger]
        fills(copy, format, ctx, gva, n, buf, true) && banner_len(buf) is Some && found.banner
            == buf.take(banner_len(buf)->0 as int);
    slice_is_unique(copy, mem, format, ctx, gva, n, buf, true);
    if found.tcp_hashinfo_gva != 0 {
        let tcp = VirtAddr(found.tcp_hashinfo_gva);
        let gpa = choose|gpa: Option<PhysAddr>| #[trigger]
            translates(copy, format, ctx, tcp, gpa) && found.tcp_hashinfo_gpa == match gpa {
                Some(gpa) => gpa.0,
                None => 0,
            };
        translation_is_unique(copy, mem, format, ctx, tcp, gpa);
    }
}

/// The address as a number, or 0 if there is none.
pub open spec fn bits_or_zero(gpa: Option<PhysAddr>) -> u64 {
    match gpa {
        Some(gpa) => gpa.0,
        None => 0,
    }
}

/// What a search finds that finds the banner at the `i`-th place.
pub open spec fn banner_found(
    mem: spec_fn(PhysAddr, usize) -> Option<Seq<u8>>,
    format: PageTableFormat,
    ctx: GuestSymbolContext,
    i: u16,
) -> Finding {
    let tcp = tcp_hashinfo_of(candidate(i));
    Finding {
        banner_gva: candidate(i),
        banner_gpa: bits_or_zero(translation(mem, format, ctx, VirtAddr(candidate(i)))),
        tcp_hashinfo_gva: tcp,
        tcp_hashinfo_gpa: if tcp == 0 {
            0
        } else {
            bits_or_zero(translation(mem, format, ctx, VirtAddr(tcp)))
        },
        banner: banner_at(mem, format, ctx, i)->0,
    }
}

/// While memory stands still, a search finds the banner at the first place that
/// holds one.
pub proof fn search_finds_first_banner<F: Fn(PhysAddr, usize) -> Option<Vec<u8>>>(
    copy: F,
    mem: spec_fn(PhysAddr, usize) -> Option<Seq<u8>>,
    format: PageTableFormat,
    ctx: GuestSymbolContext,
    before: Symbols,
    after: Symbols,
    first: u16,
)
    requires
        backed_by(copy, mem),
        before.searchable(),
        resolves(copy, format, ctx, before, after),
        first <= LINUX_BANNER_PATTERN_MAX,
        banner_at(mem, format, ctx, first) is Some,
        forall|j: u16| j < first ==> #[trigger] banner_at(mem, format, ctx, j) is None,
    ensures
        after == before.after_search(Some(banner_found(mem, format, ctx, first))),
{
    let found = choose|found: Option<Finding>| #[trigger]
        finds(copy, format, ctx, found) && after == before.after_search(found);
    if misses(copy, format, ctx, first) {
        lemma_miss(copy, mem, format, ctx, first);
    }
    let i = choose|i: u16| #[trigger] hits_first(copy, format, ctx, i, found->0);
    lemma_hit(copy, mem, format, ctx, i, found->0);
}

/// While memory stands still, a search finds nothing, and changes nothing, where
/// no place holds a banner.
pub proof fn search_without_banner<F: Fn(PhysAddr, usize) -> Option<Vec<u8>>>(
    copy: F,
    mem: spec_fn(PhysAddr, usize) -> Option<Seq<u8>>,
    format: PageTableFormat,
    ctx: GuestSymbolContext,
    before: Symbols,
    after: Symbols,
)
    requires
        backed_by(copy, mem),
        resolves(copy, format, ctx, before, after),
        forall|i: u16|
            i <= LINUX_BANNER_PATTERN_MAX ==> #[trigger] banner_at(mem, format, ctx, i) is None,
    ensures
        after == before,
{
    if after != before {
        let found = choose|found: Option<Finding>| #[trigger]
            finds(copy, format, ctx, found) && after == before.after_search(found);
        let i = choose|i: u16| #[trigger] hits_first(copy, format, ctx, i, found->0);
        lemma_hit(copy, mem, format, ctx, i, found->0);
    }
}

/// The `i`-th place at which a kernel may have its banner: the first is at
/// 0xffff_ffff_0009_86c0, and from each to the next it is a megabyte.
pub open spec fn place(i: int) -> int {
    0xffff_ffff_0009_86c0 + i * 0x10_0000
}

/// The 256 bytes at `gva`, where they translate and can be read.
pub open spec fn bytes_at(
    mem: spec_fn(PhysAddr, usize) -> Option<Seq<u8>>,
    format: PageTableFormat,
    ctx: GuestSymbolContext,
    gva: int,
) -> Option<Seq<u8>> {
    match translation(mem, format, ctx, VirtAddr(gva as u64)) {
        Some(gpa) => mem(gpa, 256),
        None => None,
    }
}

/// The guest has the banner `text` at its `i`-th place.
pub open spec fn has_banner(
    mem: spec_fn(PhysAddr, usize) -> Option<Seq<u8>>,
    format: PageTableFormat,
    ctx: GuestSymbolContext,
    i: int,
    text: Seq<u8>,
) -> bool {
    bytes_at(mem, format, ctx, place(i)) matches Some(buf) && banner_of_len(buf, text.len() as int)
        && text == buf.take(text.len() as int)
}

/// The guest has no banner at its first `n` places.
pub open spec fn no_banner_before(
    mem: spec_fn(PhysAddr, usize) -> Option<Seq<u8>>,
    format: PageTableFormat,
    ctx: GuestSymbolContext,
    n: int,
) -> bool {
    forall|i: int, text: Seq<u8>| 0 <= i < n ==> !#[trigger] has_banner(mem, format, ctx, i, text)
}

/// The first banner of the guest is at its `i`-th place, and these are its text
/// and address, and those of the table of TCP connections, which stands
/// 0x011b_1400 bytes behind it unless the address space ends before.
pub open spec fn first_banner(
    mem: spec_fn(PhysAddr, usize) -> Option<Seq<u8>>,
    format: PageTableFormat,
    ctx: GuestSymbolContext,
    i: int,
    found: Finding,
) -> bool {
    let table = place(i) + 0x011b_1400;
    &&& 0 <= i <= 0xfff
    &&& no_banner_before(mem, format, ctx, i)
    &&& has_banner(mem, format, ctx, i, found.banner)
    &&& found.banner_gva == place(i)
    &&& translation(mem, format, ctx, VirtAddr(found.banner_gva)) == Some(
        PhysAddr(found.banner_gpa),
    )
    &&& if table <= u64::MAX {
        &&& found.tcp_hashinfo_gva == table
        &&& found.tcp_hashinfo_gpa == match translation(
            mem,
            format,
            ctx,
            VirtAddr(found.tcp_hashinfo_gva),
        ) {
            Some(gpa) => gpa.0,
            None => 0,
        }
    } else {
        found.tcp_hashinfo_gva == 0 && found.tcp_hashinfo_gpa == 0
    }
}

proof fn lemma_place(
    mem: spec_fn(PhysAddr, usize) -> Option<Seq<u8>>,
    format: PageTableFormat,
    ctx: GuestSymbolContext,
    i: u16,
    text: Seq<u8>,
)
    requires
        i <= 0xfff,
    ensures
        candidate(i) == place(i as int),
        has_banner(mem, format, ctx, i as int, text) <==> banner_at(mem, format, ctx, i) == Some(
            text,
        ),
{
    let gva = VirtAddr(candidate(i));
    assert(candidate(i) == 0xffff_ffff_0009_86c0 + i * 0x10_0000);
    assert(page_part(gva, 256) == 256);
    let next = VirtAddr((gva.0 + 256) as u64);
    assert(slice(mem, format, ctx, next, 0) == (Seq::<u8>::empty(), true));
    match bytes_at(mem, format, ctx, place(i as int)) {
        Some(buf) => {
            assert(slice(mem, format, ctx, gva, 256) == (buf + Seq::<u8>::empty(), true));
            assert(buf + Seq::<u8>::empty() =~= buf);
            lemma_banner_of_len(buf);
            if banner_of_len(buf, text.len() as int) {
                lemma_banner_len_is(buf, text.len() as int);
            }
        },
        None => {
            assert(slice(mem, format, ctx, gva, 256) == (Seq::<u8>::empty(), false));
        },
    }
}

proof fn lemma_no_banner<F: Fn(PhysAddr, usize) -> Option<Vec<u8>>>(
    copy: F,
    mem: spec_fn(PhysAddr, usize) -> Option<Seq<u8>>,
    format: PageTableFormat,
    ctx: GuestSymbolContext,
    n: int,
)
    requires
        backed_by(copy, mem),
        n <= 0x1000,
        misses_before(copy, format, ctx, n),
    ensures
        no_banner_before(mem, format, ctx, n),
{
    assert forall|i: int, text: Seq<u8>| 0 <= i < n implies !#[trigger] has_banner(
        mem,
        format,
        ctx,
        i,
        text,
    ) by {
        let j = i as u16;
        assert(misses(copy, format, ctx, j));
        lemma_miss(copy, mem, format, ctx, j);
        lemma_place(mem, format, ctx, j, text);
    }
}

proof fn lemma_finds<F: Fn(PhysAddr, usize) -> Option<Vec<u8>>>(
    copy: F,
    mem: spec_fn(PhysAddr, usize) -> Option<Seq<u8>>,
    format: PageTableFormat,
    ctx: GuestSymbolContext,
    found: Option<Finding>,
)
    requires
        backed_by(copy, mem),
        finds(copy, format, ctx, found),
    ensures
        match found {
            None => no_banner_before(mem, format, ctx, 0x1000),
            Some(found) => exists|i: int| first_banner(mem, format, ctx, i, found),
        },
{
    match found {
        None => {
            lemma_no_banner(copy, mem, format, ctx, 0x1000);
        },
        Some(found) => {
            let i = choose|i: u16| #[trigger] hits_first(copy, format, ctx, i, found);
            lemma_no_banner(copy, mem, format, ctx, i as int);
            lemma_hit(copy, mem, format, ctx, i, found);
            lemma_place(mem, format, ctx, i, found.banner);
            translation_is_unique(
                copy,
                mem,
                format,
                ctx,
                VirtAddr(found.banner_gva),
                Some(PhysAddr(found.banner_gpa)),
            );
            assert(first_banner(mem, format, ctx, i as int, found));
        },
    }
}

/// A search finds the first banner that the guest has, with all that follows from
/// its place, and finds nothing only where the guest has none.
pub proof fn search_finds_what_the_guest_has<F: Fn(PhysAddr, usize) -> Option<Vec<u8>>>(
    copy: &F,
    mem: spec_fn(PhysAddr, usize) -> Option<Seq<u8>>,
    format: &PageTableFormat,
    ctx: GuestSymbolContext,
    r: Option<FoundBanner>,
)
    requires
        call_ensures(find_linux_banner::<F>, (copy, format, ctx), r),
        stands_still(*copy, mem),
    ensures
        match r {
            None => no_banner_before(mem, *format, ctx, 0x1000),
            Some(found) => exists|i: int| first_banner(mem, *format, ctx, i, found@),
        },
{
    lemma_finds(*copy, mem, *format, ctx, finding(r));
}

/// What a snapshot says was found.
pub open spec fn finding_in(snapshot: BannerSnapshot) -> Finding {
    Finding {
        banner_gva: snapshot.banner_gva,
        banner_gpa: snapshot.banner_gpa,
        tcp_hashinfo_gva: snapshot.tcp_hashinfo_gva,
        tcp_hashinfo_gpa: snapshot.tcp_hashinfo_gpa,
        banner: snapshot.bytes@.take(snapshot.len as int),
    }
}

/// What a search that was to be made, or not, leads to from `before`, while memory
/// stands still: `r` shows what was found.
pub open spec fn resolved_to(
    mem: spec_fn(PhysAddr, usize) -> Option<Seq<u8>>,
    format: PageTableFormat,
    ctx: GuestSymbolContext,
    before: Symbols,
    after: Symbols,
    r: Option<BannerSnapshot>,
) -> bool {
    if before.banner_gva != 0 || before.scan_in_progress {
        r is None && after == before
    } else {
        match r {
            None => no_banner_before(mem, format, ctx, 0x1000) && after == before,
            Some(snapshot) => {
                &&& exists|i: int| first_banner(mem, format, ctx, i, finding_in(snapshot))
                &&& snapshot.len <= 256
                &&& !after.scan_in_progress
                &&& after.banner_gva == snapshot.banner_gva
                &&& after.banner_gpa == snapshot.banner_gpa
                &&& after.tcp_hashinfo_gva == snapshot.tcp_hashinfo_gva
                &&& after.tcp_hashinfo_gpa == snapshot.tcp_hashinfo_gpa
                &&& after.banner == finding_in(snapshot).banner
                &&& after.buffer == snapshot.bytes@
            },
        }
    }
}

/// A search leads to what the guest has.
pub proof fn lemma_resolved<F: Fn(PhysAddr, usize) -> Option<Vec<u8>>>(
    copy: F,
    mem: spec_fn(PhysAddr, usize) -> Option<Seq<u8>>,
    format: PageTableFormat,
    ctx: GuestSymbolContext,
    before: Symbols,
    after: Symbols,
    r: Option<BannerSnapshot>,
)
    requires
        stands_still(copy, mem),
        resolves(copy, format, ctx, before, after),
        r is Some <==> after.banner_gva != before.banner_gva,
        r matches Some(snapshot) ==> snapshot.shows(after),
    ensures
        resolved_to(mem, format, ctx, before, after, r),
{
    lemma_stands_still(copy, mem);
    if before.searchable() {
        let found = choose|found: Option<Finding>| #[trigger]
            finds(copy, format, ctx, found) && after == before.after_search(found);
        lemma_finds(copy, mem, format, ctx, found);
        if let Some(snapshot) = r {
            assert(snapshot.len == snapshot.banner().len());
            assert(finding_in(snapshot) == found->0);
        } else if let Some(found) = found {
            let i = choose|i: int| first_banner(mem, format, ctx, i, found);
            assert(found.banner_gva != 0);
        }
    }
}

/// With no banner known and no search under way, the first banner of the guest is
/// found and kept, and snapshots show it from then on. Where the guest has none,
/// or a search is not to be made, nothing changes.
pub proof fn banner_is_resolved<F: Fn(PhysAddr, usize) -> Option<Vec<u8>>>(
    symbols: &mut GuestSymbols,
    copy: &F,
    mem: spec_fn(PhysAddr, usize) -> Option<Seq<u8>>,
    format: &PageTableFormat,
    ctx: GuestSymbolContext,
    r: Option<BannerSnapshot>,
    later: BannerSnapshot,
)
    requires
        old(symbols).wf(),
        call_ensures(maybe_resolve_linux_banner::<F>, (symbols, copy, format, ctx), r),
        call_ensures(banner_snapshot, (&*final(symbols),), later),
        stands_still(*copy, mem),
    ensures
        resolved_to(mem, *format, ctx, old(symbols)@, final(symbols)@, r),
        r matches Some(snapshot) ==> {
            &&& finding_in(later) == finding_in(snapshot)
            &&& later.len == snapshot.len
            &&& later.bytes@ == snapshot.bytes@
        },
{
    lemma_resolved(*copy, mem, *format, ctx, old(symbols)@, final(symbols)@, r);
    assert(later.len == later.banner().len());
    if let Some(snapshot) = r {
        assert(snapshot.len == snapshot.banner().len());
    }
}

/// A snapshot names the table of TCP connections if and only if its place is
/// known, and then names that place.
pub proof fn table_is_where_the_snapshot_says(
    symbols: &GuestSymbols,
    snapshot: BannerSnapshot,
    r: Option<VirtAddr>,
)
    requires
        symbols.wf(),
        call_ensures(banner_snapshot, (symbols,), snapshot),
        call_ensures(tcp_hashinfo_gva, (symbols,), r),
    ensures
        r is None <==> snapshot.tcp_hashinfo_gva == 0,
        r matches Some(gva) ==> gva.0 == snapshot.tcp_hashinfo_gva,
{
}

/// Searches take turns: after one has begun none begins until it has ended, and
/// after one that has found the banner none begins at all. What a search has found
/// is then what snapshots show.
pub proof fn searches_wait_for_each_other(
    first: &mut GuestSymbols,
    begun: bool,
    second: &mut GuestSymbols,
    begun_again: bool,
    third: &mut GuestSymbols,
    found: Option<FoundBanner>,
    shown: Option<BannerSnapshot>,
    fourth: &mut GuestSymbols,
    begun_later: bool,
)
    requires
        old(first).wf(),
        call_ensures(begin_banner_search, (first,), begun),
        *old(second) == *final(first),
        call_ensures(begin_banner_search, (second,), begun_again),
        *old(third) == *final(second),
        found matches Some(found) ==> found.wf(),
        call_ensures(end_banner_search, (third, found), shown),
        *old(fourth) == *final(third),
        call_ensures(begin_banner_search, (fourth,), begun_later),
    ensures
        begun <==> old(first)@.banner_gva == 0 && !old(first)@.scan_in_progress,
        begun ==> final(first)@.scan_in_progress,
        !begun ==> final(first)@ == old(first)@,
        begun ==> !begun_again && final(second)@ == final(first)@,
        !final(third)@.scan_in_progress,
        begun && found is None ==> begun_later && final(third)@ == old(first)@ && shown is None,
        found matches Some(found) ==> {
            &&& shown matches Some(snapshot) && finding_in(snapshot) == found@
            &&& final(third)@.banner_gva == found@.banner_gva
            &&& final(third)@.banner == found@.banner
            &&& final(third)@.tcp_hashinfo_gva == found@.tcp_hashinfo_gva
            &&& forall|i: int|
                found@.banner.len() <= i < 256 ==> #[trigger] final(third)@.buffer[i]
                    == old(third)@.buffer[i]
        },
{
    if let Some(snapshot) = shown {
        assert(snapshot.len == snapshot.banner().len());
    }
    if let Some(found) = found {
        let n = found@.banner.len() as int;
        old(third).knowledge_is_consistent();
        assert forall|i: int| n <= i < 256 implies #[trigger] final(third)@.buffer[i]
            == old(third)@.buffer[i] by {
            assert(old(third)@.buffer.skip(n)[i - n] == old(third)@.buffer[i]);
        }
    }
}

/// The banner is kept as far as there is room, and what was in the buffer behind
/// it stays. A new buffer is all zeros.
pub proof fn cache_keeps_the_front(
    empty: BannerCache,
    cache: &mut BannerCache,
    src: &[u8],
    unit: (),
)
    requires
        call_ensures(BannerCache::new, (), empty),
        old(cache).buffer().len() == 256,
        call_ensures(BannerCache::set, (cache, src), unit),
    ensures
        empty.buffer().len() == 256 && empty@.len() == 0,
        forall|i: int| 0 <= i < 256 ==> #[trigger] empty.buffer()[i] == 0,
        final(cache).buffer().len() == 256,
        final(cache)@.len() == if src@.len() < 256 {
            src@.len()
        } else {
            256
        },
        forall|i: int|
            0 <= i < 256 ==> #[trigger] final(cache).buffer()[i] == if i < src@.len() {
                src@[i]
            } else {
                old(cache).buffer()[i]
            },
        final(cache)@.is_prefix_of(final(cache).buffer()),
{
    let kept = final(cache)@;
    assert forall|i: int| 0 <= i < 256 implies #[trigger] final(cache).buffer()[i] == if i
        < src@.len() {
        src@[i]
    } else {
        old(cache).buffer()[i]
    } by {
        if i >= kept.len() {
            let tail = old(cache).buffer().skip(kept.len() as int);
            assert(tail[i - kept.len()] == old(cache).buffer()[i]);
        }
    }
    assert(final(cache).buffer().take(kept.len() as int) =~= kept);
}

/// A snapshot without a banner shows `<unknown>`, and one of plain ASCII shows
/// each of its bytes as a character.
pub proof fn snapshot_shows_its_text(snapshot: &BannerSnapshot, r: &str)
    requires
        snapshot.len <= 256,
        call_ensures(BannerSnapshot::banner_str, (snapshot,), r),
    ensures
        snapshot.len == 0 ==> r@ == "<unknown>"@,
        snapshot.len > 0 && !valid_utf8(snapshot.bytes@.take(snapshot.len as int)) ==> r@
            == "<non-utf8>"@,
        snapshot.len > 0 && valid_utf8(snapshot.bytes@.take(snapshot.len as int)) ==> r@
            == decode_utf8(snapshot.bytes@.take(snapshot.len as int)),
        snapshot.len > 0 && is_banner(snapshot.bytes@.take(snapshot.len as int)) ==> {
            &&& r@.len() == snapshot.len
            &&& forall|i: int|
                0 <= i < snapshot.len ==> #[trigger] r@[i] == snapshot.bytes@[i] as char
        },
{
    let text = snapshot.bytes@.take(snapshot.len as int);
    if is_banner(text) {
        banner_is_text(text);
    }
}

/// The registers that decide how addresses translate are taken over one by one.
pub proof fn context_holds_the_registers(vmsa: &Vmsa, ctx: GuestSymbolContext)
    requires
        call_ensures(GuestSymbolContext::from_vmsa, (vmsa,), ctx),
    ensures
        ctx.cr0 == vmsa.cr0 && ctx.cr3 == vmsa.cr3 && ctx.cr4 == vmsa.cr4 && ctx.efer == vmsa.efer,
{
}

/// Nothing is known at first, and a snapshot says so.
pub proof fn nothing_is_known_at_first(symbols: GuestSymbols, snapshot: BannerSnapshot)
    requires
        call_ensures(GuestSymbols::new, (), symbols),
        call_ensures(banner_snapshot, (&symbols,), snapshot),
    ensures
        symbols.wf(),
        !symbols@.scan_in_progress && symbols@.banner_gva == 0,
        snapshot.banner_gva == 0 && snapshot.banner_gpa == 0,
        snapshot.tcp_hashinfo_gva == 0 && snapshot.tcp_hashinfo_gpa == 0,
        snapshot.len == 0,
        forall|i: int| 0 <= i < 256 ==> #[trigger] snapshot.bytes@[i] == 0,
{
    assert(snapshot.len == snapshot.banner().len());
    assert forall|i: int| 0 <= i < 256 implies #[trigger] snapshot.bytes@[i] == 0 by {
        assert(snapshot.bytes@[i] == symbols@.buffer[i]);
    }
}

/// With the banner known, or being looked for, guest memory is left alone: any
/// routine will do to copy it. And any bytes may be asked for a banner.
pub proof fn known_banner_is_not_looked_for<F: Fn(PhysAddr, usize) -> Option<Vec<u8>>>(
    symbols: &mut GuestSymbols,
    copy: &F,
    format: &PageTableFormat,
    ctx: GuestSymbolContext,
    buf: &[u8],
    byte: u8,
)
    requires
        old(symbols).wf(),
        old(symbols)@.banner_gva != 0 || old(symbols)@.scan_in_progress,
    ensures
        call_requires(maybe_resolve_linux_banner::<F>, (symbols, copy, format, ctx)),
        call_requires(linux_banner_len, (buf,)),
        call_requires(is_printable_ascii, (byte,)),
{
}

/// Where any range may be copied, the banner may be looked for.
pub proof fn banner_may_be_looked_for<F: Fn(PhysAddr, usize) -> Option<Vec<u8>>>(
    symbols: &mut GuestSymbols,
    copy: &F,
    format: &PageTableFormat,
    ctx: GuestSymbolContext,
)
    requires
        old(symbols).wf(),
        copies(*copy),
    ensures
        call_requires(maybe_resolve_linux_banner::<F>, (symbols, copy, format, ctx)),
        call_requires(find_linux_banner::<F>, (copy, format, ctx)),
{
    copying_allows_search(*copy, *format, ctx);
}

/// Each place may be looked at once those before it have held no banner, and only
/// there: its address translated, its 256 bytes copied where it translates, and
/// with a banner there the address of the table of TCP connections translated.
pub open spec fn places_can_be_read<F: Fn(PhysAddr, usize) -> Option<Vec<u8>>>(
    copy: F,
    mem: spec_fn(PhysAddr, usize) -> Option<Seq<u8>>,
    format: PageTableFormat,
    ctx: GuestSymbolContext,
) -> bool {
    forall|i: int|
        0 <= i <= 0xfff && #[trigger] no_banner_before(mem, format, ctx, i) ==> {
            let gva = VirtAddr(place(i) as u64);
            &&& may_translate(copy, format, ctx, gva)
            &&& translation(mem, format, ctx, gva) matches Some(gpa) ==> may_copy(copy, gpa, 256)
            &&& (exists|text: Seq<u8>| has_banner(mem, format, ctx, i, text)) && place(i)
                + 0x011b_1400 <= u64::MAX ==> may_translate(
                copy,
                format,
                ctx,
                VirtAddr((place(i) + 0x011b_1400) as u64),
            )
        }
}

proof fn lemma_may_look<F: Fn(PhysAddr, usize) -> Option<Vec<u8>>>(
    copy: F,
    mem: spec_fn(PhysAddr, usize) -> Option<Seq<u8>>,
    format: PageTableFormat,
    ctx: GuestSymbolContext,
    i: u16,
)
    requires
        stands_still(copy, mem),
        places_can_be_read(copy, mem, format, ctx),
        i <= 0xfff,
        misses_before(copy, format, ctx, i as int),
    ensures
        may_look(copy, format, ctx, i),
{
    let gva = VirtAddr(candidate(i));
    lemma_stands_still(copy, mem);
    lemma_no_banner(copy, mem, format, ctx, i as int);
    lemma_place(mem, format, ctx, i, Seq::empty());
    assert(no_banner_before(mem, format, ctx, i as int));
    assert forall|gpa: PhysAddr| #[trigger]
        translates(copy, format, ctx, gva, Some(gpa)) implies translation(mem, format, ctx, gva)
        == Some(gpa) by {
        translation_is_unique(copy, mem, format, ctx, gva, Some(gpa));
    }
    lemma_one_page(copy, format, ctx, gva);
    assert forall|buf: Seq<u8>| #[trigger]
        fills(copy, format, ctx, gva, 256, buf, true) && banner_len(buf) is Some && tcp_hashinfo_of(
            gva.0,
        ) != 0 implies may_translate(
        copy,
        format,
        ctx,
        VirtAddr(tcp_hashinfo_of(gva.0)),
    ) by {
        slice_is_unique(copy, mem, format, ctx, gva, 256, buf, true);
        if translation(mem, format, ctx, gva) is Some {
            let text = buf.take(banner_len(buf)->0 as int);
            lemma_place(mem, format, ctx, i, text);
            assert(has_banner(mem, format, ctx, i as int, text));
        }
    }
}

/// A read of 256 bytes that stays in its page needs that page only.
proof fn lemma_one_page<F: Fn(PhysAddr, usize) -> Option<Vec<u8>>>(
    copy: F,
    format: PageTableFormat,
    ctx: GuestSymbolContext,
    gva: VirtAddr,
)
    requires
        gva.0 % 0x1000 + 256 <= 0x1000,
        gva.0 + 256 <= u64::MAX,
        may_translate(copy, format, ctx, gva),
        forall|gpa: PhysAddr| #[trigger]
            translates(copy, format, ctx, gva, Some(gpa)) ==> may_copy(copy, gpa, 256),
    ensures
        may_fill(copy, format, ctx, gva, 256),
{
    assert(page_part(gva, 256) == 256);
    reveal_with_fuel(may_fill, 2);
}

/// A search reads no more than the places up to the first banner, and the tables
/// that lead to them.
pub proof fn search_reads_up_to_the_banner<F: Fn(PhysAddr, usize) -> Option<Vec<u8>>>(
    copy: &F,
    mem: spec_fn(PhysAddr, usize) -> Option<Seq<u8>>,
    format: &PageTableFormat,
    ctx: GuestSymbolContext,
)
    requires
        stands_still(*copy, mem),
        places_can_be_read(*copy, mem, *format, ctx),
    ensures
        call_requires(find_linux_banner::<F>, (copy, format, ctx)),
{
    assert forall|i: u16|
        i <= LINUX_BANNER_PATTERN_MAX && misses_before(
            *copy,
            *format,
            ctx,
            i as int,
        ) implies #[trigger] may_look(*copy, *format, ctx, i) by {
        lemma_may_look(*copy, mem, *format, ctx, i);
    }
}

/// Where any range may be copied, a search may be made.
pub proof fn copying_allows_search<F: Fn(PhysAddr, usize) -> Option<Vec<u8>>>(
    copy: F,
    format: PageTableFormat,
    ctx: GuestSymbolContext,
)
    requires
        copies(copy),
    ensures
        may_search(copy, format, ctx),
{
    assert forall|i: u16| #[trigger] may_look(copy, format, ctx, i) by {
        let gva = VirtAddr(candidate(i));
        copying_allows_translation(copy, format, ctx, gva);
        copying_allows_translation(copy, format, ctx, VirtAddr(tcp_hashinfo_of(gva.0)));
        copying_allows_reading(copy, format, ctx, gva, LINUX_BANNER_MAX_LEN as nat);
    }
}

} // verus!
