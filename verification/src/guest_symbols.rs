//! Finding symbols of a Linux guest in its memory.
//!
//! A Linux kernel is loaded at one of a few thousand places, and its version
//! banner stands at a fixed distance from each of them. The places are tried in
//! turn until one holds a banner; the other symbols stand at fixed distances
//! from it.

use crate::address::{PhysAddr, VirtAddr};
use crate::guest_memory::{
    fills, may_fill, may_translate, read_guest_slice, translate_gva, translates,
};
use crate::paging::PageTableFormat;
use crate::vmsa::Vmsa;
use vstd::prelude::*;
use vstd::utf8::{decode_utf8, valid_utf8};

verus! {

/// The most bytes of a banner that are kept.
pub const LINUX_BANNER_MAX_LEN: usize = 256;

/// The first place at which the banner may stand.
pub const LINUX_BANNER_PATTERN_BASE: u64 = 0xffff_ffff_0009_86c0;

/// The distance between two places.
pub const LINUX_BANNER_PATTERN_STEP: u64 = 0x10_0000;

/// The number of the last place.
pub const LINUX_BANNER_PATTERN_MAX: u16 = 0x0fff;

/// The distance from the banner to the table of TCP connections.
pub const TCP_HASHINFO_OFFSET: u64 = 0x011b_1400;

/// The registers that decide how a guest's virtual addresses translate.
#[derive(Clone, Copy, Debug, PartialEq, Eq, Structural)]
pub struct GuestSymbolContext {
    pub cr0: u64,
    pub cr3: u64,
    pub cr4: u64,
    pub efer: u64,
}

impl GuestSymbolContext {
    /// Takes the registers from a stopped guest.
    pub fn from_vmsa(vmsa: &Vmsa) -> (ctx: GuestSymbolContext)
        ensures
            ctx.cr0 == vmsa.cr0,
            ctx.cr3 == vmsa.cr3,
            ctx.cr4 == vmsa.cr4,
            ctx.efer == vmsa.efer,
    {
        GuestSymbolContext { cr0: vmsa.cr0, cr3: vmsa.cr3, cr4: vmsa.cr4, efer: vmsa.efer }
    }
}

/// The bytes with which every banner starts: `Linux version`.
pub open spec fn banner_prefix() -> Seq<u8> {
    seq![
        0x4cu8,
        0x69u8,
        0x6eu8,
        0x75u8,
        0x78u8,
        0x20u8,
        0x76u8,
        0x65u8,
        0x72u8,
        0x73u8,
        0x69u8,
        0x6fu8,
        0x6eu8,
    ]
}

/// Printable ASCII, or a line feed, a carriage return or a tab.
pub open spec fn printable(byte: u8) -> bool {
    0x20 <= byte <= 0x7e || line_end(byte) || byte == 0x09
}

/// A line feed or a carriage return.
pub open spec fn line_end(byte: u8) -> bool {
    byte == 0x0a || byte == 0x0d
}

/// The number of bytes before the first zero.
pub open spec fn text_len(buf: Seq<u8>) -> nat
    decreases buf.len(),
{
    if buf.len() == 0 || buf[0] == 0 {
        0
    } else {
        1 + text_len(buf.drop_first())
    }
}

/// The number of bytes that are left of the first `len` without the line ends at
/// their end.
pub open spec fn trimmed_len(buf: Seq<u8>, len: nat) -> nat
    decreases len,
{
    if len > 0 && line_end(buf[len - 1]) {
        trimmed_len(buf, (len - 1) as nat)
    } else {
        len
    }
}

/// The length of the banner at the start of `buf`, if there is one: text that
/// starts as a banner does and is printable up to the first zero.
pub open spec fn banner_len(buf: Seq<u8>) -> Option<nat> {
    let end = text_len(buf);
    if banner_prefix().is_prefix_of(buf) && forall|i: int| 0 <= i < end ==> printable(buf[i]) {
        Some(trimmed_len(buf, end))
    } else {
        None
    }
}

/// Whether `byte` may stand in a banner.
pub fn is_printable_ascii(byte: u8) -> (r: bool)
    ensures
        r == printable(byte),
{
    (0x20 <= byte && byte <= 0x7e) || byte == 0x0a || byte == 0x0d || byte == 0x09
}

/// Whether `buf` starts as a banner does.
fn starts_as_banner(buf: &[u8]) -> (r: bool)
    ensures
        r == banner_prefix().is_prefix_of(buf@),
{
    let prefix: [u8; 13] = [
        0x4c,
        0x69,
        0x6e,
        0x75,
        0x78,
        0x20,
        0x76,
        0x65,
        0x72,
        0x73,
        0x69,
        0x6f,
        0x6e,
    ];
    assert(prefix@ =~= banner_prefix());
    if buf.len() < 13 {
        return false;
    }
    let mut i: usize = 0;
    while i < 13
        invariant
            i <= 13,
            buf@.len() >= 13,
            prefix@ == banner_prefix(),
            forall|j: int| 0 <= j < i ==> buf@[j] == banner_prefix()[j],
        decreases 13 - i,
    {
        if buf[i] != prefix[i] {
            assert(buf@.take(13)[i as int] != banner_prefix()[i as int]);
            return false;
        }
        i = i + 1;
    }
    assert(buf@.take(13) =~= banner_prefix());
    true
}

/// The text before the first zero is as long as it looks.
pub proof fn lemma_text_len(buf: Seq<u8>)
    ensures
        text_len(buf) <= buf.len(),
        forall|i: int| 0 <= i < text_len(buf) ==> buf[i] != 0,
        text_len(buf) < buf.len() ==> buf[text_len(buf) as int] == 0,
    decreases buf.len(),
{
    if buf.len() > 0 && buf[0] != 0 {
        let rest = buf.drop_first();
        lemma_text_len(rest);
        assert forall|i: int| 0 <= i < text_len(buf) implies buf[i] != 0 by {
            if i > 0 {
                assert(buf[i] == rest[i - 1]);
            }
        }
        if text_len(buf) < buf.len() {
            assert(buf[text_len(buf) as int] == rest[text_len(rest) as int]);
        }
    }
}

/// The text ends where the first zero stands.
pub proof fn lemma_text_len_is(buf: Seq<u8>, end: nat)
    requires
        end <= buf.len(),
        forall|i: int| 0 <= i < end ==> buf[i] != 0,
        end < buf.len() ==> buf[end as int] == 0,
    ensures
        text_len(buf) == end,
{
    lemma_text_len(buf);
    if text_len(buf) < end {
        assert(buf[text_len(buf) as int] != 0);
    }
    if end < text_len(buf) {
        assert(buf[end as int] != 0);
    }
}

/// Trimming takes away line ends only, and all of them.
pub proof fn lemma_trimmed_len(buf: Seq<u8>, len: nat)
    requires
        len <= buf.len(),
    ensures
        trimmed_len(buf, len) <= len,
        forall|i: int| trimmed_len(buf, len) <= i < len ==> line_end(buf[i]),
        trimmed_len(buf, len) > 0 ==> !line_end(buf[trimmed_len(buf, len) - 1]),
    decreases len,
{
    if len > 0 && line_end(buf[len - 1]) {
        lemma_trimmed_len(buf, (len - 1) as nat);
    }
}

/// Looks for a banner at the start of `buf` and returns its length without the
/// line ends after it.
pub fn linux_banner_len(buf: &[u8]) -> (r: Option<usize>)
    ensures
        match r {
            Some(len) => banner_len(buf@) == Some(len as nat),
            None => banner_len(buf@) is None,
        },
{
    if !starts_as_banner(buf) {
        return None;
    }
    let mut len: usize = 0;
    while len < buf.len() && buf[len] != 0
        invariant
            len <= buf@.len(),
            forall|i: int| 0 <= i < len ==> buf@[i] != 0,
        decreases buf@.len() - len,
    {
        len = len + 1;
    }
    proof {
        lemma_text_len_is(buf@, len as nat);
    }

    let mut i: usize = 0;
    while i < len
        invariant
            i <= len <= buf@.len(),
            len == text_len(buf@),
            forall|j: int| 0 <= j < i ==> printable(buf@[j]),
        decreases len - i,
    {
        if !is_printable_ascii(buf[i]) {
            return None;
        }
        i = i + 1;
    }

    while len > 0 && (buf[len - 1] == 0x0a || buf[len - 1] == 0x0d)
        invariant
            len <= buf@.len(),
            trimmed_len(buf@, len as nat) == trimmed_len(buf@, text_len(buf@)),
        decreases len,
    {
        len = len - 1;
    }
    Some(len)
}

/// What every banner found in guest memory is like.
pub open spec fn is_banner(text: Seq<u8>) -> bool {
    &&& banner_prefix().is_prefix_of(text)
    &&& text.len() <= LINUX_BANNER_MAX_LEN
    &&& forall|i: int| 0 <= i < text.len() ==> printable(text[i])
    &&& !line_end(text.last())
}

/// A banner that is found starts with the prefix, is printable throughout, and
/// does not end in a line end.
pub proof fn banner_is_clean(buf: Seq<u8>)
    requires
        buf.len() <= LINUX_BANNER_MAX_LEN,
    ensures
        banner_len(buf) matches Some(len) ==> len <= buf.len() && is_banner(buf.take(len as int)),
{
    if let Some(len) = banner_len(buf) {
        lemma_text_len(buf);
        lemma_trimmed_len(buf, text_len(buf));
        assert(forall|i: int| 0 <= i < 13 ==> buf[i] == banner_prefix()[i]);
        if text_len(buf) < 13 {
            assert(buf[text_len(buf) as int] == banner_prefix()[text_len(buf) as int]);
        }
        if len < 13 {
            assert(line_end(buf[12]));
        }
        assert(buf.take(len as int).take(13) =~= banner_prefix());
    }
}

/// The text of a banner, one character for each byte.
pub open spec fn ascii_text(text: Seq<u8>) -> Seq<char> {
    Seq::new(text.len(), |i: int| text[i] as char)
}

/// Every banner is text that can be shown as it is.
pub proof fn banner_is_text(text: Seq<u8>)
    requires
        is_banner(text),
    ensures
        valid_utf8(text),
        decode_utf8(text) == ascii_text(text),
{
    let chars = ascii_text(text);
    assert forall|i: int| 0 <= i < chars.len() implies '\0' <= #[trigger] chars[i] <= '\u{7f}' by {
        assert(printable(text[i]));
    }
    vstd::utf8::is_ascii_chars_encode_utf8(chars);
    let encoded = vstd::utf8::encode_utf8(chars);
    assert forall|i: int| 0 <= i < text.len() implies encoded[i] == text[i] by {
        assert(chars[i] as u8 == encoded[i]);
        assert(printable(text[i]));
    }
    assert(encoded =~= text);
    vstd::utf8::encode_utf8_valid_utf8(chars);
    vstd::utf8::encode_utf8_decode_utf8(chars);
}

/// The banner that was found last.
pub struct BannerCache {
    bytes: [u8; LINUX_BANNER_MAX_LEN],
    len: usize,
}

impl BannerCache {
    /// The number of bytes fits the buffer.
    pub closed spec fn wf(&self) -> bool {
        self.len <= LINUX_BANNER_MAX_LEN
    }

    /// The banner.
    pub closed spec fn view(&self) -> Seq<u8> {
        self.bytes@.take(self.len as int)
    }

    /// The whole buffer, of which the banner is the first part.
    pub closed spec fn buffer(&self) -> Seq<u8> {
        self.bytes@
    }

    /// A cache without a banner, and with nothing but zeros in its buffer.
    pub fn new() -> (r: BannerCache)
        ensures
            r.wf(),
            r@ == Seq::<u8>::empty(),
            r.buffer() == Seq::new(LINUX_BANNER_MAX_LEN as nat, |i: int| 0u8),
    {
        let r = BannerCache { bytes: [0; LINUX_BANNER_MAX_LEN], len: 0 };
        assert(r@ =~= Seq::<u8>::empty());
        assert(r.buffer() =~= Seq::new(LINUX_BANNER_MAX_LEN as nat, |i: int| 0u8));
        r
    }

    /// Stores `src`, or as much of it as there is room for. The bytes behind it
    /// stay in the buffer.
    pub fn set(&mut self, src: &[u8])
        ensures
            final(self).wf(),
            final(self).buffer() == final(self)@ + old(self).buffer().skip(
                final(self)@.len() as int,
            ),
            final(self)@ == if src@.len() <= LINUX_BANNER_MAX_LEN {
                src@
            } else {
                src@.take(LINUX_BANNER_MAX_LEN as int)
            },
    {
        let len: usize = if src.len() < LINUX_BANNER_MAX_LEN {
            src.len()
        } else {
            LINUX_BANNER_MAX_LEN
        };
        let mut i: usize = 0;
        while i < len
            invariant
                i <= len <= src@.len(),
                len <= LINUX_BANNER_MAX_LEN,
                forall|j: int| 0 <= j < i ==> self.bytes@[j] == src@[j],
                forall|j: int|
                    i <= j < LINUX_BANNER_MAX_LEN ==> self.bytes@[j] == old(self).bytes@[j],
            decreases len - i,
        {
            self.bytes[i] = src[i];
            i = i + 1;
        }
        self.len = len;
        assert(self@ =~= src@.take(len as int));
        assert(len == src@.len() ==> src@.take(len as int) =~= src@);
        assert(self.buffer() =~= self@ + old(self).buffer().skip(len as int));
    }
}

/// What is known of the guest's symbols.
pub ghost struct Symbols {
    /// A search for the banner is under way.
    pub scan_in_progress: bool,
    /// Where the banner stands; 0 as long as it has not been found.
    pub banner_gva: u64,
    /// Its physical address.
    pub banner_gpa: u64,
    /// Where the table of TCP connections stands; 0 if that is not known.
    pub tcp_hashinfo_gva: u64,
    /// Its physical address; 0 if that is not known.
    pub tcp_hashinfo_gpa: u64,
    /// The banner.
    pub banner: Seq<u8>,
    /// The buffer that the banner stands in, with whatever stands behind it.
    pub buffer: Seq<u8>,
}

/// The `i`-th place at which the banner may stand.
pub open spec fn candidate(i: u16) -> u64 {
    (LINUX_BANNER_PATTERN_BASE + i * LINUX_BANNER_PATTERN_STEP) as u64
}

/// Where the table of TCP connections stands if the banner stands at `banner`: 0
/// if that is past the end of the address space.
pub open spec fn tcp_hashinfo_of(banner: u64) -> u64 {
    if banner + TCP_HASHINFO_OFFSET <= u64::MAX {
        (banner + TCP_HASHINFO_OFFSET) as u64
    } else {
        0
    }
}

impl Symbols {
    /// Nothing is known, or a banner was found at one of the places for it.
    pub open spec fn consistent(self) -> bool {
        &&& self.buffer.len() == LINUX_BANNER_MAX_LEN
        &&& self.banner.is_prefix_of(self.buffer)
        &&& if self.banner_gva == 0 {
            &&& self.banner_gpa == 0
            &&& self.tcp_hashinfo_gva == 0
            &&& self.tcp_hashinfo_gpa == 0
            &&& self.banner.len() == 0
        } else {
            &&& exists|i: u16|
                i <= LINUX_BANNER_PATTERN_MAX && self.banner_gva == #[trigger] candidate(i)
            &&& self.tcp_hashinfo_gva == tcp_hashinfo_of(self.banner_gva)
            &&& self.tcp_hashinfo_gva == 0 ==> self.tcp_hashinfo_gpa == 0
            &&& is_banner(self.banner)
        }
    }

    /// A search may be made: none is under way, and there is something to find.
    pub open spec fn searchable(self) -> bool {
        self.banner_gva == 0 && !self.scan_in_progress
    }

    /// What is known once a search has ended with `found`.
    pub open spec fn after_search(self, found: Option<Finding>) -> Symbols {
        match found {
            None => Symbols { scan_in_progress: false, ..self },
            Some(found) => Symbols {
                scan_in_progress: false,
                banner_gva: found.banner_gva,
                banner_gpa: found.banner_gpa,
                tcp_hashinfo_gva: found.tcp_hashinfo_gva,
                tcp_hashinfo_gpa: found.tcp_hashinfo_gpa,
                banner: found.banner,
                buffer: found.banner + self.buffer.skip(found.banner.len() as int),
            },
        }
    }
}

/// What the library has found out about the guest's symbols.
pub struct GuestSymbols {
    scan_in_progress: bool,
    banner_gva: u64,
    banner_gpa: u64,
    tcp_hashinfo_gva: u64,
    tcp_hashinfo_gpa: u64,
    cache: BannerCache,
}

impl GuestSymbols {
    /// What is known.
    pub closed spec fn view(&self) -> Symbols {
        Symbols {
            scan_in_progress: self.scan_in_progress,
            banner_gva: self.banner_gva,
            banner_gpa: self.banner_gpa,
            tcp_hashinfo_gva: self.tcp_hashinfo_gva,
            tcp_hashinfo_gpa: self.tcp_hashinfo_gpa,
            banner: self.cache@,
            buffer: self.cache.buffer(),
        }
    }

    /// The parts fit together.
    pub closed spec fn wf(&self) -> bool {
        &&& self.cache.wf()
        &&& self@.consistent()
    }

    /// Either nothing is known, or a banner was found and all else follows from
    /// its place.
    pub proof fn knowledge_is_consistent(&self)
        requires
            self.wf(),
        ensures
            self@.consistent(),
    {
    }

    /// Nothing is known yet.
    pub fn new() -> (r: GuestSymbols)
        ensures
            r.wf(),
            r@ == (Symbols {
                scan_in_progress: false,
                banner_gva: 0,
                banner_gpa: 0,
                tcp_hashinfo_gva: 0,
                tcp_hashinfo_gpa: 0,
                banner: Seq::empty(),
                buffer: Seq::new(LINUX_BANNER_MAX_LEN as nat, |i: int| 0u8),
            }),
    {
        GuestSymbols {
            scan_in_progress: false,
            banner_gva: 0,
            banner_gpa: 0,
            tcp_hashinfo_gva: 0,
            tcp_hashinfo_gpa: 0,
            cache: BannerCache::new(),
        }
    }
}

/// What was known of the guest's symbols at one time.
#[derive(Clone, Copy, Debug)]
pub struct BannerSnapshot {
    pub banner_gva: u64,
    pub banner_gpa: u64,
    pub tcp_hashinfo_gva: u64,
    pub tcp_hashinfo_gpa: u64,
    /// The banner, and behind it whatever the buffer held before.
    pub bytes: [u8; LINUX_BANNER_MAX_LEN],
    /// The length of the banner.
    pub len: usize,
}

/// Reads bytes as text, by `core::str::from_utf8`. Trusted of it: it succeeds
/// exactly on well-formed UTF-8, and then gives the characters that the bytes
/// encode.
#[verifier::external_body]
fn text_of(bytes: &[u8]) -> (r: Option<&str>)
    ensures
        r is Some <==> valid_utf8(bytes@),
        r matches Some(text) ==> text@ == decode_utf8(bytes@),
{
    core::str::from_utf8(bytes).ok()
}

impl BannerSnapshot {
    /// The number of bytes fits the buffer.
    pub open spec fn wf(&self) -> bool {
        self.len <= LINUX_BANNER_MAX_LEN
    }

    /// The bytes of the banner.
    pub open spec fn banner(&self) -> Seq<u8> {
        self.bytes@.take(self.len as int)
    }

    /// The snapshot shows what `symbols` says.
    pub open spec fn shows(&self, symbols: Symbols) -> bool {
        &&& self.wf()
        &&& self.banner_gva == symbols.banner_gva
        &&& self.banner_gpa == symbols.banner_gpa
        &&& self.tcp_hashinfo_gva == symbols.tcp_hashinfo_gva
        &&& self.tcp_hashinfo_gpa == symbols.tcp_hashinfo_gpa
        &&& self.banner() == symbols.banner
        &&& self.bytes@ == symbols.buffer
    }

    /// The banner as text.
    pub fn banner_str(&self) -> (r: &str)
        requires
            self.wf(),
        ensures
            r@ == if self.banner().len() == 0 {
                "<unknown>"@
            } else if valid_utf8(self.banner()) {
                decode_utf8(self.banner())
            } else {
                "<non-utf8>"@
            },
    {
        if self.len == 0 {
            "<unknown>"
        } else {
            let bytes = vstd::slice::slice_subrange(self.bytes.as_slice(), 0, self.len);
            assert(bytes@ =~= self.banner());
            match text_of(bytes) {
                Some(text) => text,
                None => "<non-utf8>",
            }
        }
    }
}

/// A snapshot of a banner that was found shows its text, byte for byte.
pub proof fn found_banner_is_shown(snapshot: BannerSnapshot, symbols: GuestSymbols)
    requires
        symbols.wf(),
        snapshot.shows(symbols@),
        symbols@.banner_gva != 0,
    ensures
        snapshot.banner().len() > 0,
        valid_utf8(snapshot.banner()),
        decode_utf8(snapshot.banner()) == ascii_text(snapshot.banner()),
{
    banner_is_text(snapshot.banner());
}

/// Takes a snapshot of what is known.
pub fn banner_snapshot(symbols: &GuestSymbols) -> (r: BannerSnapshot)
    requires
        symbols.wf(),
    ensures
        r.shows(symbols@),
{
    BannerSnapshot {
        banner_gva: symbols.banner_gva,
        banner_gpa: symbols.banner_gpa,
        tcp_hashinfo_gva: symbols.tcp_hashinfo_gva,
        tcp_hashinfo_gpa: symbols.tcp_hashinfo_gpa,
        bytes: symbols.cache.bytes,
        len: symbols.cache.len,
    }
}

/// Where the guest's table of TCP connections stands, if that is known.
pub fn tcp_hashinfo_gva(symbols: &GuestSymbols) -> (r: Option<VirtAddr>)
    ensures
        r == if symbols@.tcp_hashinfo_gva == 0 {
            None
        } else {
            Some(VirtAddr(symbols@.tcp_hashinfo_gva))
        },
{
    let gva: u64 = symbols.tcp_hashinfo_gva;
    if gva == 0 {
        None
    } else {
        Some(VirtAddr(gva))
    }
}

/// What a search has found.
pub ghost struct Finding {
    /// Where the banner stands.
    pub banner_gva: u64,
    /// Its physical address.
    pub banner_gpa: u64,
    /// Where the table of TCP connections stands; 0 if that is not known.
    pub tcp_hashinfo_gva: u64,
    /// Its physical address; 0 if that is not known.
    pub tcp_hashinfo_gpa: u64,
    /// The banner.
    pub banner: Seq<u8>,
}

impl Finding {
    /// The banner stands at one of the places for it, and the table follows from
    /// that.
    pub open spec fn consistent(self) -> bool {
        &&& exists|i: u16|
            i <= LINUX_BANNER_PATTERN_MAX && self.banner_gva == #[trigger] candidate(i)
        &&& self.tcp_hashinfo_gva == tcp_hashinfo_of(self.banner_gva)
        &&& self.tcp_hashinfo_gva == 0 ==> self.tcp_hashinfo_gpa == 0
        &&& self.banner.len() <= LINUX_BANNER_MAX_LEN
        &&& is_banner(self.banner)
    }
}

/// A banner that a search has found, on its way to the `GuestSymbols`.
pub struct FoundBanner {
    banner_gva: u64,
    banner_gpa: u64,
    tcp_hashinfo_gva: u64,
    tcp_hashinfo_gpa: u64,
    bytes: [u8; LINUX_BANNER_MAX_LEN],
    len: usize,
}

impl FoundBanner {
    /// What was found.
    pub closed spec fn view(&self) -> Finding {
        Finding {
            banner_gva: self.banner_gva,
            banner_gpa: self.banner_gpa,
            tcp_hashinfo_gva: self.tcp_hashinfo_gva,
            tcp_hashinfo_gpa: self.tcp_hashinfo_gpa,
            banner: self.bytes@.take(self.len as int),
        }
    }

    /// The parts fit together.
    pub closed spec fn wf(&self) -> bool {
        &&& self.len <= LINUX_BANNER_MAX_LEN
        &&& self@.consistent()
    }
}

/// The finding of a search that may have found nothing.
pub open spec fn finding(found: Option<FoundBanner>) -> Option<Finding> {
    match found {
        Some(found) => Some(found@),
        None => None,
    }
}

/// The address may translate to something.
pub open spec fn may_be_mapped<F: Fn(PhysAddr, usize) -> Option<Vec<u8>>>(
    copy: F,
    format: PageTableFormat,
    ctx: GuestSymbolContext,
    gva: VirtAddr,
) -> bool {
    exists|gpa: PhysAddr| translates(copy, format, ctx, gva, Some(gpa))
}

/// No banner may be found at the `i`-th place: it does not translate, cannot be
/// read, or holds something else.
pub open spec fn misses<F: Fn(PhysAddr, usize) -> Option<Vec<u8>>>(
    copy: F,
    format: PageTableFormat,
    ctx: GuestSymbolContext,
    i: u16,
) -> bool {
    let gva = VirtAddr(candidate(i));
    ||| translates(copy, format, ctx, gva, None)
    ||| {
        &&& may_be_mapped(copy, format, ctx, gva)
        &&& exists|filled: Seq<u8>, ok: bool| #[trigger]
            fills(copy, format, ctx, gva, LINUX_BANNER_MAX_LEN as nat, filled, ok) && (ok
                ==> banner_len(filled) is None)
    }
}

/// The banner `found` may be found at the `i`-th place.
pub open spec fn hits<F: Fn(PhysAddr, usize) -> Option<Vec<u8>>>(
    copy: F,
    format: PageTableFormat,
    ctx: GuestSymbolContext,
    i: u16,
    found: Finding,
) -> bool {
    let gva = VirtAddr(candidate(i));
    &&& found.banner_gva == gva.0
    &&& translates(copy, format, ctx, gva, Some(PhysAddr(found.banner_gpa)))
    &&& exists|buf: Seq<u8>| #[trigger]
        fills(copy, format, ctx, gva, LINUX_BANNER_MAX_LEN as nat, buf, true) && banner_len(
            buf,
        ) is Some && found.banner == buf.take(banner_len(buf)->0 as int)
    &&& found.tcp_hashinfo_gva == tcp_hashinfo_of(gva.0)
    &&& if found.tcp_hashinfo_gva == 0 {
        found.tcp_hashinfo_gpa == 0
    } else {
        exists|gpa: Option<PhysAddr>| #[trigger]
            translates(copy, format, ctx, VirtAddr(found.tcp_hashinfo_gva), gpa)
                && found.tcp_hashinfo_gpa == match gpa {
                Some(gpa) => gpa.0,
                None => 0,
            }
    }
}

/// The places before the `i`-th may all have held no banner.
pub open spec fn misses_before<F: Fn(PhysAddr, usize) -> Option<Vec<u8>>>(
    copy: F,
    format: PageTableFormat,
    ctx: GuestSymbolContext,
    i: int,
) -> bool {
    forall|j: u16| j < i ==> #[trigger] misses(copy, format, ctx, j)
}

/// The banner `found` may be found at the `i`-th place, and none before.
pub open spec fn hits_first<F: Fn(PhysAddr, usize) -> Option<Vec<u8>>>(
    copy: F,
    format: PageTableFormat,
    ctx: GuestSymbolContext,
    i: u16,
    found: Finding,
) -> bool {
    &&& i <= LINUX_BANNER_PATTERN_MAX
    &&& misses_before(copy, format, ctx, i as int)
    &&& hits(copy, format, ctx, i, found)
}

/// A search may end with `found`. It takes the first place at which a banner is
/// found.
pub open spec fn finds<F: Fn(PhysAddr, usize) -> Option<Vec<u8>>>(
    copy: F,
    format: PageTableFormat,
    ctx: GuestSymbolContext,
    found: Option<Finding>,
) -> bool {
    match found {
        None => misses_before(copy, format, ctx, LINUX_BANNER_PATTERN_MAX + 1),
        Some(found) => exists|i: u16| #[trigger] hits_first(copy, format, ctx, i, found),
    }
}

/// What the search reads at the `i`-th place may be read: the place itself, where
/// it translates, and with a banner there the translation of the other symbol.
pub open spec fn may_look<F: Fn(PhysAddr, usize) -> Option<Vec<u8>>>(
    copy: F,
    format: PageTableFormat,
    ctx: GuestSymbolContext,
    i: u16,
) -> bool {
    let gva = VirtAddr(candidate(i));
    let n = LINUX_BANNER_MAX_LEN as nat;
    let tcp = tcp_hashinfo_of(gva.0);
    &&& may_translate(copy, format, ctx, gva)
    &&& may_be_mapped(copy, format, ctx, gva) ==> {
        &&& may_fill(copy, format, ctx, gva, n)
        &&& forall|buf: Seq<u8>| #[trigger]
            fills(copy, format, ctx, gva, n, buf, true) && banner_len(buf) is Some && tcp != 0
                ==> may_translate(copy, format, ctx, VirtAddr(tcp))
    }
}

/// What a search reads may be read: each place, once those before it have held no
/// banner.
pub open spec fn may_search<F: Fn(PhysAddr, usize) -> Option<Vec<u8>>>(
    copy: F,
    format: PageTableFormat,
    ctx: GuestSymbolContext,
) -> bool {
    forall|i: u16|
        i <= LINUX_BANNER_PATTERN_MAX && misses_before(copy, format, ctx, i as int)
            ==> #[trigger] may_look(copy, format, ctx, i)
}

/// A search may lead from `before` to `after`. It is not made once the banner is
/// known, nor while another is under way, and changes nothing where it finds
/// nothing.
pub open spec fn resolves<F: Fn(PhysAddr, usize) -> Option<Vec<u8>>>(
    copy: F,
    format: PageTableFormat,
    ctx: GuestSymbolContext,
    before: Symbols,
    after: Symbols,
) -> bool {
    if before.searchable() {
        exists|found: Option<Finding>| #[trigger]
            finds(copy, format, ctx, found) && after == before.after_search(found)
    } else {
        after == before
    }
}

/// Begins a search for the banner, unless the banner is known or a search is
/// under way. Returns whether the search is to be made.
pub fn begin_banner_search(symbols: &mut GuestSymbols) -> (r: bool)
    requires
        old(symbols).wf(),
    ensures
        final(symbols).wf(),
        r == old(symbols)@.searchable(),
        final(symbols)@ == if r {
            Symbols { scan_in_progress: true, ..old(symbols)@ }
        } else {
            old(symbols)@
        },
{
    if symbols.banner_gva != 0 || symbols.scan_in_progress {
        return false;
    }
    symbols.scan_in_progress = true;
    true
}

/// Looks for the banner in guest memory.
pub fn find_linux_banner<F: Fn(PhysAddr, usize) -> Option<Vec<u8>>>(
    copy: &F,
    format: &PageTableFormat,
    ctx: GuestSymbolContext,
) -> (r: Option<FoundBanner>)
    requires
        may_search(*copy, *format, ctx),
    ensures
        finds(*copy, *format, ctx, finding(r)),
        r matches Some(found) ==> found.wf(),
{
    let mut idx: u16 = 0;
    while idx <= LINUX_BANNER_PATTERN_MAX
        invariant
            may_search(*copy, *format, ctx),
            idx <= LINUX_BANNER_PATTERN_MAX + 1,
            misses_before(*copy, *format, ctx, idx as int),
        decreases LINUX_BANNER_PATTERN_MAX + 1 - idx,
    {
        let gva_val: u64 = LINUX_BANNER_PATTERN_BASE + idx as u64 * LINUX_BANNER_PATTERN_STEP;
        let gva = VirtAddr(gva_val);
        assert(gva_val == candidate(idx));
        assert(may_look(*copy, *format, ctx, idx));
        let this: u16 = idx;
        idx = idx + 1;

        let gpa = match translate_gva(copy, format, ctx, gva) {
            Some(gpa) => gpa,
            None => {
                assert(misses(*copy, *format, ctx, this));
                continue ;
            },
        };
        assert(may_be_mapped(*copy, *format, ctx, gva));

        let mut buf: [u8; LINUX_BANNER_MAX_LEN] = [0; LINUX_BANNER_MAX_LEN];
        if read_guest_slice(copy, format, ctx, gva, &mut buf).is_none() {
            assert(misses(*copy, *format, ctx, this));
            continue ;
        }
        let len: usize = match linux_banner_len(buf.as_slice()) {
            Some(len) => len,
            None => {
                assert(misses(*copy, *format, ctx, this));
                continue ;
            },
        };
        proof {
            banner_is_clean(buf@);
        }

        let mut tcp_hashinfo_gva: u64 = 0;
        let mut tcp_hashinfo_gpa: u64 = 0;
        if let Some(tcp_gva_val) = gva_val.checked_add(TCP_HASHINFO_OFFSET) {
            tcp_hashinfo_gva = tcp_gva_val;
            if let Some(tcp_gpa) = translate_gva(copy, format, ctx, VirtAddr(tcp_gva_val)) {
                tcp_hashinfo_gpa = tcp_gpa.bits();
            }
        }

        let found = FoundBanner {
            banner_gva: gva_val,
            banner_gpa: gpa.bits(),
            tcp_hashinfo_gva,
            tcp_hashinfo_gpa,
            bytes: buf,
            len,
        };
        proof {
            let what = finding(Some(found));
            assert(hits_first(*copy, *format, ctx, this, what->0));
        }
        return Some(found);
    }
    None
}

/// Ends a search for the banner, and keeps what it has found. Returns what is
/// known where that is something.
pub fn end_banner_search(symbols: &mut GuestSymbols, found: Option<FoundBanner>) -> (r: Option<
    BannerSnapshot,
>)
    requires
        old(symbols).wf(),
        found matches Some(found) ==> found.wf(),
    ensures
        final(symbols).wf(),
        final(symbols)@ == old(symbols)@.after_search(finding(found)),
        r is Some <==> found is Some,
        r matches Some(snapshot) ==> snapshot.shows(final(symbols)@),
{
    match found {
        None => {
            symbols.scan_in_progress = false;
            None
        },
        Some(found) => {
            let text = vstd::slice::slice_subrange(found.bytes.as_slice(), 0, found.len);
            assert(text@ =~= found@.banner);
            symbols.cache.set(text);
            symbols.tcp_hashinfo_gva = found.tcp_hashinfo_gva;
            symbols.tcp_hashinfo_gpa = found.tcp_hashinfo_gpa;
            symbols.banner_gpa = found.banner_gpa;
            symbols.banner_gva = found.banner_gva;
            symbols.scan_in_progress = false;
            Some(banner_snapshot(symbols))
        },
    }
}

/// Looks for the banner in guest memory, unless it is known already or is being
/// looked for. Returns what is known where this search has found it.
pub fn maybe_resolve_linux_banner<F: Fn(PhysAddr, usize) -> Option<Vec<u8>>>(
    symbols: &mut GuestSymbols,
    copy: &F,
    format: &PageTableFormat,
    ctx: GuestSymbolContext,
) -> (r: Option<BannerSnapshot>)
    requires
        old(symbols).wf(),
        old(symbols)@.searchable() ==> may_search(*copy, *format, ctx),
    ensures
        final(symbols).wf(),
        resolves(*copy, *format, ctx, old(symbols)@, final(symbols)@),
        r is Some <==> final(symbols)@.banner_gva != old(symbols)@.banner_gva,
        r matches Some(snapshot) ==> snapshot.shows(final(symbols)@),
{
    if !begin_banner_search(symbols) {
        return None;
    }
    let found = find_linux_banner(copy, format, ctx);
    assert(finds(*copy, *format, ctx, finding(found)));
    end_banner_search(symbols, found)
}

} // verus!
