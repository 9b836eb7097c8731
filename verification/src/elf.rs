//! ELF64 executables: reading the file header and the program headers,
//! planning, page by page, how each loadable segment is placed in memory,
//! and creating a user process from an executable.
use vstd::prelude::*;
use crate::kernel::{Kernel, MemState, kernel_levels};
use crate::paging::{fresh_pages_spec, fresh_frame, lemma_low_flags, lemma_fresh_pages_levels};
use crate::process::{
    created_user_process, can_create_user_process, appended, create_user_process,
    create_user_process_possible, Process,
};
use vstd::string::StringSliceAdditionalSpecFns;

verus! {

/// Size of the ELF64 file header.
pub const ELF_HEADER_SIZE: usize = 64;

/// Size of an ELF64 program header.
pub const PROGRAM_HEADER_SIZE: usize = 56;

/// Program header type of a loadable segment.
pub const PT_LOAD: u32 = 1;

/// The four bytes an ELF file starts with.
pub const ELF_MAGIC: [u8; 4] = [0x7F, 0x45, 0x4C, 0x46];

/// Size of a page.
pub const PAGE_SIZE: u64 = 0x1000;

/// Stack size of a process loaded from an ELF file.
pub const ELF_PROCESS_STACK_SIZE: usize = 0x4000;

/// Page flags of a loaded segment page: present, writable, user.
pub const SEGMENT_PAGE_FLAGS: u64 = 0x7;

/// The ELF64 file header.
#[derive(Clone, Copy, Debug, PartialEq, Eq)]
pub struct ElfHeader {
    pub magic: [u8; 4],
    pub class: u8,
    pub endian: u8,
    pub version: u8,
    pub os_abi: u8,
    pub abi_ver: u8,
    pub padding: [u8; 7],
    pub e_type: u16,
    pub machine: u16,
    pub e_version: u32,
    pub e_entry: u64,
    pub e_phoff: u64,
    pub e_shoff: u64,
    pub e_flags: u32,
    pub e_ehsize: u16,
    pub e_phentsize: u16,
    pub e_phnum: u16,
    pub e_shentsize: u16,
    pub e_shnum: u16,
    pub e_shstrndx: u16,
}

/// An ELF64 program header.
#[derive(Clone, Copy, Debug, PartialEq, Eq, Structural)]
pub struct ProgramHeader {
    pub p_type: u32,
    pub p_flags: u32,
    pub p_offset: u64,
    pub p_vaddr: u64,
    pub p_paddr: u64,
    pub p_filesz: u64,
    pub p_memsz: u64,
    pub p_align: u64,
}

/// Little-endian 16-bit value at `o`.
pub open spec fn le16(d: Seq<u8>, o: int) -> nat {
    d[o] as nat + d[o + 1] as nat * 0x100
}

/// Little-endian 32-bit value at `o`.
pub open spec fn le32(d: Seq<u8>, o: int) -> nat {
    le16(d, o) + le16(d, o + 2) * 0x1_0000
}

/// Little-endian 64-bit value at `o`.
pub open spec fn le64(d: Seq<u8>, o: int) -> nat {
    le32(d, o) + le32(d, o + 4) * 0x1_0000_0000
}

fn read_u16(d: &[u8], o: usize) -> (r: u16)
    requires
        o + 2 <= d@.len(),
    ensures
        r == le16(d@, o as int),
{
    d[o] as u16 + d[o + 1] as u16 * 0x100
}

fn read_u32(d: &[u8], o: usize) -> (r: u32)
    requires
        o + 4 <= d@.len(),
    ensures
        r == le32(d@, o as int),
{
    let _len = d.len();
    read_u16(d, o) as u32 + read_u16(d, o + 2) as u32 * 0x1_0000
}

fn read_u64(d: &[u8], o: usize) -> (r: u64)
    requires
        o + 8 <= d@.len(),
    ensures
        r == le64(d@, o as int),
{
    let _len = d.len();
    read_u32(d, o) as u64 + read_u32(d, o + 4) as u64 * 0x1_0000_0000
}

/// The file header read from the first 64 bytes.
pub open spec fn header_fields_ok(h: ElfHeader, d: Seq<u8>) -> bool {
    &&& h.magic@ == d.subrange(0, 4)
    &&& h.class == d[4]
    &&& h.endian == d[5]
    &&& h.version == d[6]
    &&& h.os_abi == d[7]
    &&& h.abi_ver == d[8]
    &&& h.padding@ == d.subrange(9, 16)
    &&& h.e_type == le16(d, 16)
    &&& h.machine == le16(d, 18)
    &&& h.e_version == le32(d, 20)
    &&& h.e_entry == le64(d, 24)
    &&& h.e_phoff == le64(d, 32)
    &&& h.e_shoff == le64(d, 40)
    &&& h.e_flags == le32(d, 48)
    &&& h.e_ehsize == le16(d, 52)
    &&& h.e_phentsize == le16(d, 54)
    &&& h.e_phnum == le16(d, 56)
    &&& h.e_shentsize == le16(d, 58)
    &&& h.e_shnum == le16(d, 60)
    &&& h.e_shstrndx == le16(d, 62)
}

/// The program header read from the 56 bytes at `o`.
pub open spec fn program_header_at(d: Seq<u8>, o: int) -> ProgramHeader {
    ProgramHeader {
        p_type: le32(d, o) as u32,
        p_flags: le32(d, o + 4) as u32,
        p_offset: le64(d, o + 8) as u64,
        p_vaddr: le64(d, o + 16) as u64,
        p_paddr: le64(d, o + 24) as u64,
        p_filesz: le64(d, o + 32) as u64,
        p_memsz: le64(d, o + 40) as u64,
        p_align: le64(d, o + 48) as u64,
    }
}

/// The file starts with the ELF magic number.
pub open spec fn has_elf_magic(d: Seq<u8>) -> bool {
    d.len() >= 4 && d[0] == 0x7Fu8 && d[1] == 0x45u8 && d[2] == 0x4Cu8 && d[3] == 0x46u8
}

/// Reads the file header from the first 64 bytes of `data`.
pub fn parse_elf_header(data: &[u8]) -> (h: ElfHeader)
    requires
        data@.len() >= ELF_HEADER_SIZE,
    ensures
        header_fields_ok(h, data@),
{
    let magic: [u8; 4] = [data[0], data[1], data[2], data[3]];
    let padding: [u8; 7] = [data[9], data[10], data[11], data[12], data[13], data[14], data[15]];
    let h = ElfHeader {
        magic,
        class: data[4],
        endian: data[5],
        version: data[6],
        os_abi: data[7],
        abi_ver: data[8],
        padding,
        e_type: read_u16(data, 16),
        machine: read_u16(data, 18),
        e_version: read_u32(data, 20),
        e_entry: read_u64(data, 24),
        e_phoff: read_u64(data, 32),
        e_shoff: read_u64(data, 40),
        e_flags: read_u32(data, 48),
        e_ehsize: read_u16(data, 52),
        e_phentsize: read_u16(data, 54),
        e_phnum: read_u16(data, 56),
        e_shentsize: read_u16(data, 58),
        e_shnum: read_u16(data, 60),
        e_shstrndx: read_u16(data, 62),
    };
    proof {
        assert(h.magic@ =~= data@.subrange(0, 4));
        assert(h.padding@ =~= data@.subrange(9, 16));
    }
    h
}

/// Reads the file header of an ELF file: an error when the magic number
/// is wrong.
pub fn check_elf(data: &[u8]) -> (r: Result<ElfHeader, &'static str>)
    requires
        data@.len() >= ELF_HEADER_SIZE,
    ensures
        has_elf_magic(data@) ==> r is Ok && header_fields_ok(r->Ok_0, data@),
        !has_elf_magic(data@) ==> r is Err && r->Err_0@ == "Invalid ELF magic"@,
{
    let h = parse_elf_header(data);
    if h.magic[0] != ELF_MAGIC[0] || h.magic[1] != ELF_MAGIC[1] || h.magic[2] != ELF_MAGIC[2]
        || h.magic[3] != ELF_MAGIC[3] {
        return Err("Invalid ELF magic");
    }
    Ok(h)
}

/// Reads the program header at `off`.
pub fn parse_program_header(data: &[u8], off: usize) -> (p: ProgramHeader)
    requires
        off + PROGRAM_HEADER_SIZE <= data@.len(),
    ensures
        p == program_header_at(data@, off as int),
{
    let _len = data.len();
    ProgramHeader {
        p_type: read_u32(data, off),
        p_flags: read_u32(data, off + 4),
        p_offset: read_u64(data, off + 8),
        p_vaddr: read_u64(data, off + 16),
        p_paddr: read_u64(data, off + 24),
        p_filesz: read_u64(data, off + 32),
        p_memsz: read_u64(data, off + 40),
        p_align: read_u64(data, off + 48),
    }
}

/// Reads the `e_phnum` program headers that start at `e_phoff`, 56 bytes
/// apart.
pub fn program_headers(data: &[u8], h: &ElfHeader) -> (ps: Vec<ProgramHeader>)
    requires
        h.e_phoff + h.e_phnum * PROGRAM_HEADER_SIZE <= data@.len(),
    ensures
        ps@.len() == h.e_phnum,
        forall|i: int|
            0 <= i < h.e_phnum ==> #[trigger] ps@[i] == program_header_at(
                data@,
                h.e_phoff + i * PROGRAM_HEADER_SIZE,
            ),
{
    let _len = data.len();
    let n = h.e_phnum as usize;
    let base = h.e_phoff as usize;
    let mut ps: Vec<ProgramHeader> = Vec::new();
    let mut i: usize = 0;
    while i < n
        invariant
            n == h.e_phnum,
            base == h.e_phoff,
            _len == data@.len(),
            h.e_phoff + h.e_phnum * PROGRAM_HEADER_SIZE <= data@.len(),
            0 <= i <= n,
            ps@.len() == i,
            forall|j: int|
                0 <= j < i ==> #[trigger] ps@[j] == program_header_at(data@, base + j * PROGRAM_HEADER_SIZE),
        decreases n - i,
    {
        proof {
            assert(base + i * 56 + 56 <= base + n * 56) by (nonlinear_arith)
                requires i < n;
        }
        let p = parse_program_header(data, base + i * PROGRAM_HEADER_SIZE);
        ps.push(p);
        i = i + 1;
    }
    ps
}

/// How one page of a segment is filled: it is mapped at `virt`, zeroed,
/// then `copy_size` bytes from `src_off` bytes into the segment's file
/// data are copied to `dest_off` bytes into the page.
#[derive(Clone, Copy, Debug, PartialEq, Eq, Structural)]
pub struct PageLoad {
    pub virt: u64,
    pub dest_off: u64,
    pub src_off: u64,
    pub copy_size: u64,
}

/// Offset of the segment's start within its first page.
pub open spec fn intra(p: ProgramHeader) -> nat {
    (p.p_vaddr % 0x1000) as nat
}

/// Number of pages the segment spans in memory.
pub open spec fn segment_page_count(p: ProgramHeader) -> nat {
    ((intra(p) + p.p_memsz + 0xFFF) / 0x1000) as nat
}

/// Page `i` of the segment: the window `[i * 4096, i * 4096 + 4096)` of the
/// segment's pages receives the file bytes that fall into it, the file
/// data occupying `[intra, intra + filesz)`.
pub open spec fn page_load_spec(p: ProgramHeader, i: nat) -> PageLoad {
    let win_start: int = (i * 0x1000) as int;
    let win_end: int = win_start + 0x1000;
    let data_end: int = (intra(p) + p.p_filesz) as int;
    let begin: int = if intra(p) > win_start { intra(p) as int } else { win_start };
    let end: int = if data_end < win_end { data_end } else { win_end };
    PageLoad {
        virt: ((p.p_vaddr - intra(p)) + win_start) as u64,
        dest_off: if begin < end { (begin - win_start) as u64 } else { 0 },
        src_off: if begin < end { (begin - intra(p)) as u64 } else { 0 },
        copy_size: if begin < end { (end - begin) as u64 } else { 0 },
    }
}

/// The pages of a loadable segment, in order (see `page_load_spec`).
pub fn segment_pages(p: &ProgramHeader) -> (r: Vec<PageLoad>)
    requires
        (p.p_vaddr % 0x1000) + p.p_memsz + 0xFFF <= u64::MAX,
        (p.p_vaddr % 0x1000) + p.p_filesz <= u64::MAX,
        p.p_vaddr - (p.p_vaddr % 0x1000) + segment_page_count(*p) * 0x1000 <= u64::MAX,
    ensures
        r@.len() == segment_page_count(*p),
        forall|i: int| 0 <= i < r@.len() ==> #[trigger] r@[i] == page_load_spec(*p, i as nat),
{
    let v = p.p_vaddr;
    let intra_offset = v & 0xFFF;
    let page_vaddr_base = v & !0xFFFu64;
    proof {
        assert(v & 0xFFF == v % 0x1000) by (bit_vector);
        assert(v & !0xFFFu64 == v - v % 0x1000) by (bit_vector);
    }
    let total_size = intra_offset + p.p_memsz;
    let num_pages = (total_size + 0xFFF) / 0x1000;
    let data_end = intra_offset + p.p_filesz;
    let mut r: Vec<PageLoad> = Vec::new();
    let mut i: u64 = 0;
    while i < num_pages
        invariant
            num_pages == segment_page_count(*p),
            intra_offset == intra(*p),
            page_vaddr_base == p.p_vaddr - intra(*p),
            data_end == intra(*p) + p.p_filesz,
            page_vaddr_base + num_pages * 0x1000 <= u64::MAX,
            0 <= i <= num_pages,
            r@.len() == i,
            forall|j: int| 0 <= j < i ==> #[trigger] r@[j] == page_load_spec(*p, j as nat),
        decreases num_pages - i,
    {
        proof {
            assert(i * 0x1000 + 0x1000 <= num_pages * 0x1000) by (nonlinear_arith)
                requires i < num_pages;
        }
        let win_start = i * 0x1000;
        let win_end = win_start + 0x1000;
        let virt = page_vaddr_base + win_start;
        let copy_begin = if intra_offset > win_start { intra_offset } else { win_start };
        let copy_end = if data_end < win_end { data_end } else { win_end };
        let pl = if copy_begin < copy_end {
            PageLoad {
                virt,
                dest_off: copy_begin - win_start,
                src_off: copy_begin - intra_offset,
                copy_size: copy_end - copy_begin,
            }
        } else {
            PageLoad { virt, dest_off: 0, src_off: 0, copy_size: 0 }
        };
        r.push(pl);
        i = i + 1;
    }
    r
}

/// Every byte `k` of a segment's file data is copied by exactly the page
/// that holds segment offset `intra + k`, to the offset within that page
/// where it belongs; a page copies only file bytes, within the page.
pub proof fn law_segment_bytes_land_once(p: ProgramHeader, k: nat)
    requires
        k < p.p_filesz,
        p.p_filesz <= p.p_memsz,
    ensures
        ({
            let i = (intra(p) + k) / 0x1000;
            let pl = page_load_spec(p, i as nat);
            &&& i < segment_page_count(p)
            &&& pl.src_off <= k < pl.src_off + pl.copy_size
            &&& pl.dest_off + (k - pl.src_off) == (intra(p) + k) % 0x1000
        }),
        forall|i: nat|
            i < segment_page_count(p) ==> {
                let pl = #[trigger] page_load_spec(p, i);
                &&& pl.dest_off + pl.copy_size <= 0x1000
                &&& pl.src_off + pl.copy_size <= p.p_filesz
            },
        forall|i: nat, j: nat|
            i < j < segment_page_count(p) ==> {
                let a = #[trigger] page_load_spec(p, i);
                let b = #[trigger] page_load_spec(p, j);
                a.copy_size == 0 || b.copy_size == 0 || a.src_off + a.copy_size <= b.src_off
            },
{
    let off = intra(p) + k;
    let i = off / 0x1000;
    vstd::arithmetic::div_mod::lemma_fundamental_div_mod(off as int, 0x1000);
    assert(off == i * 0x1000 + off % 0x1000);
    assert(off % 0x1000 < 0x1000);
    assert(i < segment_page_count(p)) by (nonlinear_arith)
        requires
            off == intra(p) + k,
            k < p.p_memsz,
            i == off / 0x1000,
            segment_page_count(p) == (intra(p) + p.p_memsz + 0xFFF) / 0x1000;
    assert forall|a: nat, b: nat| a < b < segment_page_count(p) implies {
        let x = #[trigger] page_load_spec(p, a);
        let y = #[trigger] page_load_spec(p, b);
        x.copy_size == 0 || y.copy_size == 0 || x.src_off + x.copy_size <= y.src_off
    } by {
        assert(a * 0x1000 + 0x1000 <= b * 0x1000) by (nonlinear_arith)
            requires a < b;
    }
}

// ----- creating a process from an executable --------------------------------

/// How one page of a loaded segment is filled: `phys` is the physical page
/// mapped at `load.virt`; it is zeroed, then `load.copy_size` bytes of the
/// file from `segment_offset + load.src_off` are copied to `phys +
/// load.dest_off`.
#[derive(Clone, Copy, Debug, PartialEq, Eq, Structural)]
pub struct PageFill {
    pub phys: u64,
    pub segment_offset: u64,
    pub load: PageLoad,
}

/// The 4096 bytes page `f` holds once filled from the file bytes `d`: the
/// copied window holds the file bytes it receives, every other byte is 0.
pub open spec fn page_bytes(d: Seq<u8>, f: PageFill) -> Seq<u8> {
    Seq::new(
        0x1000,
        |j: int|
            if f.load.dest_off <= j < f.load.dest_off + f.load.copy_size {
                d[f.segment_offset + f.load.src_off + (j - f.load.dest_off)]
            } else {
                0u8
            },
    )
}

/// The bytes of page `f` once filled from `data` (see `page_bytes`).
pub fn page_contents(data: &[u8], f: &PageFill) -> (r: Vec<u8>)
    requires
        f.load.dest_off + f.load.copy_size <= 0x1000,
        f.segment_offset + f.load.src_off + f.load.copy_size <= data@.len(),
    ensures
        r@ == page_bytes(data@, *f),
{
    let mut r: Vec<u8> = Vec::new();
    let mut j: u64 = 0;
    while j < 0x1000
        invariant
            0 <= j <= 0x1000,
            f.load.dest_off + f.load.copy_size <= 0x1000,
            f.segment_offset + f.load.src_off + f.load.copy_size <= data.len(),
            r@ == page_bytes(data@, *f).take(j as int),
        decreases 0x1000 - j,
    {
        let b = if f.load.dest_off <= j && j < f.load.dest_off + f.load.copy_size {
            data[(f.segment_offset + f.load.src_off + (j - f.load.dest_off)) as usize]
        } else {
            0u8
        };
        r.push(b);
        j = j + 1;
        proof {
            assert(r@ =~= page_bytes(data@, *f).take(j as int));
        }
    }
    proof {
        assert(page_bytes(data@, *f).take(0x1000) =~= page_bytes(data@, *f));
    }
    r
}

/// Once its pages are filled, a loadable segment holds its file bytes
/// followed by zeros: byte `k` of the segment in memory (`k < p_memsz`),
/// at virtual address `p_vaddr + k`, lies in the page `(intra + k) / 4096`
/// (mapped at that page's `virt`) at offset `(intra + k) % 4096`, and that
/// page holds there file byte `p_offset + k` when `k < p_filesz`, else 0.
pub proof fn law_segment_page_bytes(d: Seq<u8>, p: ProgramHeader, phys: u64, k: nat)
    requires
        k < p.p_memsz,
        p.p_filesz <= p.p_memsz,
        page_base(p) + segment_page_count(p) * 0x1000 <= u64::MAX,
    ensures
        ({
            let i = (intra(p) + k) / 0x1000;
            let f = PageFill { phys, segment_offset: p.p_offset, load: page_load_spec(p, i as nat) };
            &&& i < segment_page_count(p)
            &&& f.load.virt + (intra(p) + k) % 0x1000 == p.p_vaddr + k
            &&& page_bytes(d, f)[((intra(p) + k) % 0x1000) as int] == if k < p.p_filesz {
                d[p.p_offset + k]
            } else {
                0u8
            }
        }),
{
    let off = intra(p) + k;
    let i = off / 0x1000;
    vstd::arithmetic::div_mod::lemma_fundamental_div_mod(off as int, 0x1000);
    assert(off == i * 0x1000 + off % 0x1000);
    assert(off % 0x1000 < 0x1000);
    assert(i < segment_page_count(p)) by (nonlinear_arith)
        requires
            off == intra(p) + k,
            k < p.p_memsz,
            i == off / 0x1000,
            segment_page_count(p) == (intra(p) + p.p_memsz + 0xFFF) / 0x1000;
    assert(i * 0x1000 + 0x1000 <= segment_page_count(p) * 0x1000) by (nonlinear_arith)
        requires i < segment_page_count(p);
}

/// Entry point read from the file header.
pub open spec fn elf_entry(d: Seq<u8>) -> u64 {
    le64(d, 24) as u64
}

/// The program headers the file header points to.
pub open spec fn elf_phdrs(d: Seq<u8>) -> Seq<ProgramHeader> {
    Seq::new(le16(d, 56), |i: int| program_header_at(d, le64(d, 32) + i * PROGRAM_HEADER_SIZE))
}

/// The program headers lie inside the file.
pub open spec fn phdrs_in_file(d: Seq<u8>) -> bool {
    le64(d, 32) + le16(d, 56) * PROGRAM_HEADER_SIZE <= d.len()
}

/// First address of the page the segment starts in.
pub open spec fn page_base(p: ProgramHeader) -> u64 {
    (p.p_vaddr - intra(p)) as u64
}

/// The segment's pages stay in the address range and its file bytes lie
/// inside the file of `file_len` bytes.
pub open spec fn segment_ok(p: ProgramHeader, file_len: nat) -> bool {
    &&& intra(p) + p.p_memsz + 0xFFF <= u64::MAX
    &&& intra(p) + p.p_filesz <= u64::MAX
    &&& page_base(p) + segment_page_count(p) * 0x1000 <= u64::MAX
    &&& p.p_offset + p.p_filesz <= file_len
}

/// The fills of the pages of segment `p` when its pages are mapped from
/// tables `t` and frame use `f`, each to the first free frame.
pub open spec fn segment_fills(t: Map<u64, Seq<u64>>, f: Seq<bool>, pml4: u64, p: ProgramHeader) -> Seq<PageFill> {
    Seq::new(
        segment_page_count(p),
        |i: int|
            PageFill {
                phys: fresh_frame(t, f, pml4, page_base(p), i as nat, SEGMENT_PAGE_FLAGS),
                segment_offset: p.p_offset,
                load: page_load_spec(p, i as nat),
            },
    )
}

/// The tables and frame use after the loadable segments of `phdrs` are
/// mapped in `pml4` in turn, each page to the first free frame; the fills
/// of their pages in order; and whether every step could be taken.
pub open spec fn load_segments_spec(
    t: Map<u64, Seq<u64>>,
    fr: Seq<bool>,
    pml4: u64,
    phdrs: Seq<ProgramHeader>,
    file_len: nat,
) -> (Map<u64, Seq<u64>>, Seq<bool>, Seq<PageFill>, bool)
    decreases phdrs.len(),
{
    if phdrs.len() == 0 {
        (t, fr, Seq::empty(), true)
    } else {
        let (t1, f1, fills, ok1) = load_segments_spec(t, fr, pml4, phdrs.drop_last(), file_len);
        let p = phdrs.last();
        if p.p_type != PT_LOAD {
            (t1, f1, fills, ok1)
        } else {
            let (t2, f2, e, ok2) = fresh_pages_spec(
                t1,
                f1,
                pml4,
                page_base(p),
                segment_page_count(p),
                SEGMENT_PAGE_FLAGS,
            );
            (t2, f2, fills + segment_fills(t1, f1, pml4, p), ok1 && segment_ok(p, file_len) && ok2)
        }
    }
}

/// Program headers that are not loadable contribute nothing: loading the
/// headers gives the same tables, frames, page fills and success as
/// loading only the `PT_LOAD` ones.
pub proof fn law_only_load_headers_count(
    t: Map<u64, Seq<u64>>,
    fr: Seq<bool>,
    pml4: u64,
    phdrs: Seq<ProgramHeader>,
    file_len: nat,
)
    ensures
        load_segments_spec(t, fr, pml4, phdrs, file_len) == load_segments_spec(
            t,
            fr,
            pml4,
            phdrs.filter(|p: ProgramHeader| p.p_type == PT_LOAD),
            file_len,
        ),
    decreases phdrs.len(),
{
    reveal(Seq::filter);
    let pred = |p: ProgramHeader| p.p_type == PT_LOAD;
    if phdrs.len() > 0 {
        law_only_load_headers_count(t, fr, pml4, phdrs.drop_last(), file_len);
        let sub = phdrs.drop_last().filter(pred);
        let last = phdrs.last();
        if last.p_type == PT_LOAD {
            assert(phdrs.filter(pred) == sub.push(last));
            assert(sub.push(last).drop_last() =~= sub);
            assert(sub.push(last).last() == last);
        } else {
            assert(phdrs.filter(pred) == sub);
        }
    }
}

/// The page fills of a program are only those of its `PT_LOAD` headers:
/// appending a header of another kind changes nothing that is loaded.
pub proof fn law_other_header_adds_nothing(
    t: Map<u64, Seq<u64>>,
    fr: Seq<bool>,
    pml4: u64,
    phdrs: Seq<ProgramHeader>,
    p: ProgramHeader,
    file_len: nat,
)
    requires
        p.p_type != PT_LOAD,
    ensures
        load_segments_spec(t, fr, pml4, phdrs.push(p), file_len) == load_segments_spec(t, fr, pml4, phdrs, file_len),
{
    assert(phdrs.push(p).drop_last() =~= phdrs);
    assert(phdrs.push(p).last() == p);
}

proof fn lemma_load_ok_prefix(
    t: Map<u64, Seq<u64>>,
    fr: Seq<bool>,
    pml4: u64,
    phdrs: Seq<ProgramHeader>,
    file_len: nat,
    k: int,
)
    requires
        0 <= k <= phdrs.len(),
        load_segments_spec(t, fr, pml4, phdrs, file_len).3,
    ensures
        load_segments_spec(t, fr, pml4, phdrs.take(k), file_len).3,
    decreases phdrs.len() - k,
{
    if k == phdrs.len() {
        assert(phdrs.take(k) =~= phdrs);
    } else {
        lemma_load_ok_prefix(t, fr, pml4, phdrs, file_len, k + 1);
        let next = phdrs.take(k + 1);
        assert(next.drop_last() =~= phdrs.take(k));
    }
}

/// The process an executable becomes, with the kernel's memory state `m`
/// before: a user process with the file's entry point and a stack of
/// `ELF_PROCESS_STACK_SIZE` bytes, then its loadable segments mapped into
/// its address space.  Also the page fills, and whether every segment
/// step could be taken.
pub open spec fn elf_loaded(
    m: MemState,
    kpml4: u64,
    template: u64,
    hhdm: u64,
    pid: u64,
    d: Seq<u8>,
) -> (MemState, Process, Seq<PageFill>, bool) {
    let (m1, p) = created_user_process(m, kpml4, template, hhdm, pid, elf_entry(d), ELF_PROCESS_STACK_SIZE as nat);
    let (t, f, fills, ok) = load_segments_spec(m1.2, m1.3, p.pml4t, elf_phdrs(d), d.len());
    ((m1.0, m1.1, t, f), p, fills, ok)
}

/// Whether `create_process_from_elf` can run on `d`: the file header is
/// there, and for a file with the ELF magic number, the program headers
/// are in the file, the user process can be created and every loadable
/// segment can be mapped.
pub open spec fn can_load_elf(k: Kernel, d: Seq<u8>) -> bool {
    &&& d.len() >= ELF_HEADER_SIZE
    &&& has_elf_magic(d) ==> {
        &&& phdrs_in_file(d)
        &&& can_create_user_process(
            k.mem(),
            k.kernel_pml4,
            k.kernel_template,
            k.hhdm_offset,
            ELF_PROCESS_STACK_SIZE as nat,
        )
        &&& k.sched.processes@.len() < usize::MAX
        &&& k.sched.next_pid < u64::MAX
        &&& elf_loaded(k.mem(), k.kernel_pml4, k.kernel_template, k.hhdm_offset, k.sched.next_pid, d).3
    }
}

/// Creates a user process from the executable `data` (see `elf_loaded`):
/// an error when the magic number is wrong, else the process's position
/// in the list and how each page of its segments is to be filled.
pub fn create_process_from_elf(k: &mut Kernel, data: &[u8], name: &str) -> (r: Result<
    (usize, Vec<PageFill>),
    &'static str,
>)
    requires
        old(k).wf(),
        can_load_elf(*old(k), data@),
    ensures
        final(k).wf(),
        !has_elf_magic(data@) ==> r is Err && r->Err_0@ == "Invalid ELF magic"@ && *final(k) == *old(k),
        has_elf_magic(data@) ==> r is Ok && final(k).same_spaces(old(k)) && ({
            let (m, p, fills, ok) = elf_loaded(
                old(k).mem(),
                old(k).kernel_pml4,
                old(k).kernel_template,
                old(k).hhdm_offset,
                old(k).sched.next_pid,
                data@,
            );
            &&& final(k).mem() == m
            &&& appended(old(k).sched, final(k).sched, r->Ok_0.0, p, name.spec_bytes())
            &&& r->Ok_0.1@ == fills
        }),
{
    let h = match check_elf(data) {
        Ok(h) => h,
        Err(e) => {
            return Err(e);
        },
    };
    let phdrs = program_headers(data, &h);
    proof {
        assert(phdrs@ =~= elf_phdrs(data@));
    }
    let idx = create_user_process(k, h.e_entry, name, ELF_PROCESS_STACK_SIZE);
    let pml4 = k.sched.processes[idx].pml4t;
    let ghost m1 = k.mem();
    let ghost s1 = k.sched;
    let ghost k1 = *k;
    let ghost len = data@.len();
    let mut fills: Vec<PageFill> = Vec::new();
    let n = phdrs.len();
    let mut i: usize = 0;
    proof {
        assert(phdrs@.take(0) =~= Seq::<ProgramHeader>::empty());
    }
    while i < n
        invariant
            n == phdrs@.len(),
            0 <= i <= n,
            len == data@.len(),
            k.wf(),
            0 <= idx < s1.processes@.len(),
            s1.processes@[idx as int].pml4t == pml4,
            k.same_spaces(&k1),
            k1.same_spaces(old(k)),
            k.sched == s1,
            k.heap.blocks() == m1.0,
            k.heap.brk() == m1.1,
            load_segments_spec(m1.2, m1.3, pml4, phdrs@, len).3,
            ({
                let (t, f, fl, ok) = load_segments_spec(m1.2, m1.3, pml4, phdrs@.take(i as int), len);
                &&& k.tables@ == t
                &&& k.frames.frames() == f
                &&& fills@ == fl
            }),
        decreases n - i,
    {
        let ghost prev = load_segments_spec(m1.2, m1.3, pml4, phdrs@.take(i as int), len);
        proof {
            lemma_load_ok_prefix(m1.2, m1.3, pml4, phdrs@, len, i as int + 1);
            assert(phdrs@.take(i as int + 1).drop_last() =~= phdrs@.take(i as int));
            assert(phdrs@.take(i as int + 1).last() == phdrs@[i as int]);
        }
        let p = phdrs[i];
        if p.p_type == PT_LOAD {
            let loads = segment_pages(&p);
            let v = p.p_vaddr;
            let base = v & !0xFFFu64;
            proof {
                assert(v & !0xFFFu64 == v - v % 0x1000) by (bit_vector);
            }
            proof {
                lemma_low_flags(SEGMENT_PAGE_FLAGS);
            }
            let ghost kb = *k;
            let (_, phys) = k.tables.map_fresh_pages(
                &mut k.frames,
                pml4,
                base,
                loads.len() as u64,
                SEGMENT_PAGE_FLAGS,
            );
            proof {
                let lvl = choose|lvl: Map<u64, nat>| kernel_levels(kb, lvl);
                assert(kb.tables@.contains_key(kb.sched.processes@[idx as int].pml4t));
                let lvl2 = lemma_fresh_pages_levels(
                    kb.tables@,
                    kb.frames.frames(),
                    pml4,
                    base,
                    loads.len() as u64 as nat,
                    SEGMENT_PAGE_FLAGS,
                    lvl,
                );
                assert(kernel_levels(*k, lvl2));
            }
            let ghost segf = segment_fills(prev.0, prev.1, pml4, p);
            let cnt = loads.len();
            let mut j: usize = 0;
            while j < cnt
                invariant
                    cnt == loads@.len(),
                    cnt == phys@.len(),
                    cnt == segment_page_count(p),
                    0 <= j <= cnt,
                    segf == segment_fills(prev.0, prev.1, pml4, p),
                    forall|a: int| 0 <= a < cnt ==> #[trigger] loads@[a] == page_load_spec(p, a as nat),
                    forall|a: int|
                        0 <= a < cnt ==> #[trigger] phys@[a] == fresh_frame(
                            prev.0,
                            prev.1,
                            pml4,
                            page_base(p),
                            a as nat,
                            SEGMENT_PAGE_FLAGS,
                        ),
                    fills@ =~= prev.2 + segf.take(j as int),
                decreases cnt - j,
            {
                fills.push(PageFill { phys: phys[j], segment_offset: p.p_offset, load: loads[j] });
                j = j + 1;
                proof {
                    assert(fills@ =~= prev.2 + segf.take(j as int));
                }
            }
            proof {
                assert(segf.take(cnt as int) =~= segf);
            }
        }
        i = i + 1;
    }
    proof {
        assert(phdrs@.take(n as int) =~= phdrs@);
    }
    Ok((idx, fills))
}

/// Whether `create_process_from_elf` can run on `data` (see
/// `can_load_elf`).
pub fn create_process_from_elf_possible(k: &Kernel, data: &[u8]) -> (r: bool)
    requires
        k.wf(),
    ensures
        r == can_load_elf(*k, data@),
{
    if data.len() < ELF_HEADER_SIZE {
        return false;
    }
    let h = parse_elf_header(data);
    if h.magic[0] != ELF_MAGIC[0] || h.magic[1] != ELF_MAGIC[1] || h.magic[2] != ELF_MAGIC[2]
        || h.magic[3] != ELF_MAGIC[3] {
        return true;
    }
    let phnum = h.e_phnum as u64;
    proof {
        assert(phnum * 56 <= 0xFFFF * 56) by (nonlinear_arith)
            requires phnum <= 0xFFFF;
    }
    let table = phnum * (PROGRAM_HEADER_SIZE as u64);
    if h.e_phoff > u64::MAX - table || h.e_phoff + table > data.len() as u64 {
        return false;
    }
    if !create_user_process_possible(k, ELF_PROCESS_STACK_SIZE) {
        return false;
    }
    if k.sched.processes.len() == usize::MAX || k.sched.next_pid == u64::MAX {
        return false;
    }
    let phdrs = program_headers(data, &h);
    proof {
        assert(phdrs@ =~= elf_phdrs(data@));
    }
    let mut c = k.scratch_copy();
    let idx = create_user_process(&mut c, h.e_entry, "", ELF_PROCESS_STACK_SIZE);
    let pml4 = c.sched.processes[idx].pml4t;
    let ghost s1c = c.sched;
    let ghost m1 = c.mem();
    let ghost len = data@.len();
    proof {
        let (ma, pa) = created_user_process(
            k.mem(),
            k.kernel_pml4,
            k.kernel_template,
            k.hhdm_offset,
            k.sched.next_pid,
            elf_entry(data@),
            ELF_PROCESS_STACK_SIZE as nat,
        );
        let (mb, pb) = created_user_process(
            k.mem(),
            k.kernel_pml4,
            k.kernel_template,
            k.hhdm_offset,
            1,
            h.e_entry,
            ELF_PROCESS_STACK_SIZE as nat,
        );
        assert(ma == mb);
        assert(pa.pml4t == pb.pml4t);
        assert(pml4 == pb.pml4t);
        assert(can_load_elf(*k, data@) == load_segments_spec(m1.2, m1.3, pml4, phdrs@, len).3);
    }
    let flen = data.len() as u64;
    let n = phdrs.len();
    let mut i: usize = 0;
    proof {
        assert(phdrs@.take(0) =~= Seq::<ProgramHeader>::empty());
    }
    while i < n
        invariant
            n == phdrs@.len(),
            0 <= i <= n,
            len == data@.len(),
            flen == len,
            can_load_elf(*k, data@) == load_segments_spec(m1.2, m1.3, pml4, phdrs@, len).3,
            c.wf(),
            c.sched == s1c,
            0 <= idx < s1c.processes@.len(),
            s1c.processes@[idx as int].pml4t == pml4,
            ({
                let (t, f, fl, ok) = load_segments_spec(m1.2, m1.3, pml4, phdrs@.take(i as int), len);
                &&& c.tables@ == t
                &&& c.frames.frames() == f
                &&& ok
            }),
        decreases n - i,
    {
        let ghost prev = load_segments_spec(m1.2, m1.3, pml4, phdrs@.take(i as int), len);
        proof {
            assert(phdrs@.take(i as int + 1).drop_last() =~= phdrs@.take(i as int));
            assert(phdrs@.take(i as int + 1).last() == phdrs@[i as int]);
        }
        let p = phdrs[i];
        if p.p_type == PT_LOAD {
            let v = p.p_vaddr;
            let intra_offset = v & 0xFFF;
            let base = v & !0xFFFu64;
            proof {
                assert(v & 0xFFF == v % 0x1000) by (bit_vector);
                assert(v & !0xFFFu64 == v - v % 0x1000) by (bit_vector);
            }
            let fits = p.p_memsz <= u64::MAX - 0xFFF - intra_offset && p.p_filesz <= u64::MAX
                - intra_offset && p.p_filesz <= flen && p.p_offset <= flen - p.p_filesz;
            if !fits {
                proof {
                    if load_segments_spec(m1.2, m1.3, pml4, phdrs@, len).3 {
                        lemma_load_ok_prefix(m1.2, m1.3, pml4, phdrs@, len, i as int + 1);
                    }
                }
                return false;
            }
            let count = (intra_offset + p.p_memsz + 0xFFF) / 0x1000;
            proof {
                assert(count * 0x1000 <= intra_offset + p.p_memsz + 0xFFF) by (nonlinear_arith)
                    requires count == (intra_offset + p.p_memsz + 0xFFF) / 0x1000;
            }
            if base > u64::MAX - count * 0x1000 || !c.tables.can_map_fresh_pages(
                &c.frames,
                pml4,
                base,
                count,
                SEGMENT_PAGE_FLAGS,
            ) {
                proof {
                    if load_segments_spec(m1.2, m1.3, pml4, phdrs@, len).3 {
                        lemma_load_ok_prefix(m1.2, m1.3, pml4, phdrs@, len, i as int + 1);
                    }
                }
                return false;
            }
            proof {
                lemma_low_flags(SEGMENT_PAGE_FLAGS);
            }
            let ghost cb = c;
            let _mapped = c.tables.map_fresh_pages(&mut c.frames, pml4, base, count, SEGMENT_PAGE_FLAGS);
            proof {
                let lvl = choose|lvl: Map<u64, nat>| kernel_levels(cb, lvl);
                assert(cb.tables@.contains_key(cb.sched.processes@[idx as int].pml4t));
                let lvl2 = lemma_fresh_pages_levels(
                    cb.tables@,
                    cb.frames.frames(),
                    pml4,
                    base,
                    count as nat,
                    SEGMENT_PAGE_FLAGS,
                    lvl,
                );
                assert(kernel_levels(c, lvl2));
            }
        }
        i = i + 1;
    }
    proof {
        assert(phdrs@.take(n as int) =~= phdrs@);
    }
    true
}

} // verus!
