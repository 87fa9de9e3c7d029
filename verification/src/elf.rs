//! The parts of an ELF image that the loader reads: the file header and the
//! program headers. The bytes are decoded by `xmas_elf`; this module holds
//! what the loader keeps of them as plain values.

use vstd::prelude::*;
use xmas_elf::header::HeaderPt2;
use xmas_elf::program::Type;
use zerocopy::IntoBytes;
use vstd::arithmetic::div_mod::{lemma_fundamental_div_mod, lemma_mod_multiples_vanish, lemma_small_mod};

verus! {

/// What the loader keeps of an ELF file header.
#[derive(Debug, Clone, Copy, PartialEq, Eq, Structural)]
pub struct ElfHeader {
    /// Whether the file is of the 64-bit class (else it is of the 32-bit class).
    pub is_64: bool,
    pub entry_point: u64,
    pub ph_offset: u64,
    pub ph_entry_size: u16,
    pub ph_count: u16,
}

/// The type of a program header, as far as the loader tells types apart.
#[derive(Debug, Clone, Copy, PartialEq, Eq, Structural)]
pub enum SegmentKind {
    /// `PT_LOAD`.
    Load,
    /// `PT_INTERP`.
    Interp,
    /// Any other type that the ELF format defines.
    Other,
    /// A type value that the ELF format does not define.
    Invalid,
}

/// What the loader keeps of a program header.
#[derive(Debug, Clone, Copy, PartialEq, Eq, Structural)]
pub struct Segment {
    pub kind: SegmentKind,
    /// The `p_flags` bits.
    pub flags: u32,
    pub offset: u64,
    pub virtual_addr: u64,
    pub file_size: u64,
    pub mem_size: u64,
}

/// Bit of `p_flags` that makes a segment executable.
pub const FLAG_X: u32 = 0x1;
/// Bit of `p_flags` that makes a segment readable.
pub const FLAG_R: u32 = 0x4;

impl Segment {
    pub open spec fn spec_is_read(self) -> bool {
        self.flags & FLAG_R == FLAG_R
    }

    pub open spec fn spec_is_execute(self) -> bool {
        self.flags & FLAG_X == FLAG_X
    }

    /// Whether the segment is to be readable.
    pub fn is_read(&self) -> (r: bool)
        ensures
            r == self.spec_is_read(),
    {
        self.flags & FLAG_R == FLAG_R
    }

    /// Whether the segment is to be executable.
    pub fn is_execute(&self) -> (r: bool)
        ensures
            r == self.spec_is_execute(),
    {
        self.flags & FLAG_X == FLAG_X
    }
}

/// An ELF image as the loader sees it: its header and its program headers in
/// the order of their indices.
#[derive(Debug)]
pub struct ElfImage {
    pub header: ElfHeader,
    pub segments: Vec<Segment>,
}

/// The header that `xmas_elf::header::parse_header` reads from `bytes`, if it
/// reads one.
pub uninterp spec fn elf_header_of(bytes: Seq<u8>) -> Option<ElfHeader>;

/// The program header of index `index` that `xmas_elf::program::parse_program_header`
/// reads from `bytes` (with the header read from the same bytes), if it reads one.
pub uninterp spec fn program_header_of(bytes: Seq<u8>, index: u16) -> Option<Segment>;

/// Size of the first part of the file header, common to both classes.
pub const HEADER_PT1_SIZE: u64 = 16;

/// The bytes on which `parse_header` reads a header: long enough for the first
/// part, the ELF magic number, a known class, and long enough for the second
/// part of that class.
pub open spec fn elf_header_readable(b: Seq<u8>) -> bool {
    &&& b.len() >= HEADER_PT1_SIZE
    &&& b[0] == 0x7f && b[1] == 0x45 && b[2] == 0x4c && b[3] == 0x46
    &&& (b[4] == 1 && b.len() >= 52) || (b[4] == 2 && b.len() >= 64)
}

/// Size of one program-header record of the class.
pub open spec fn ph_record_size(is_64: bool) -> nat {
    if is_64 {
        56
    } else {
        32
    }
}

/// The condition under which `parse_program_header` reads the entry of the
/// given index rather than reporting that there are no program headers.
pub open spec fn ph_present(h: ElfHeader, index: u16) -> bool {
    &&& index < h.ph_count
    &&& h.ph_offset > 0
    &&& h.ph_entry_size > 0
}

/// The entry of the given index lies inside a buffer of `len` bytes and is at
/// least as large as a record of the header's class.
pub open spec fn ph_in_bounds(h: ElfHeader, len: nat, index: u16) -> bool {
    ph_present(h, index) ==> {
        &&& h.ph_offset + (index + 1) * h.ph_entry_size <= len
        &&& h.ph_entry_size >= ph_record_size(h.is_64)
    }
}

/// The alignment that a program-header record of the class needs in memory.
pub open spec fn ph_record_align(is_64: bool) -> nat {
    if is_64 {
        8
    } else {
        4
    }
}

/// The entry of the given index starts at an offset that is a multiple of the
/// alignment its record needs.
pub open spec fn ph_record_aligned(h: ElfHeader, index: u16) -> bool {
    ph_present(h, index) ==> (h.ph_offset + index * h.ph_entry_size) % (ph_record_align(h.is_64) as int)
        == 0
}

/// All program headers of the header can be read from a buffer of `len` bytes
/// that starts at an address aligned for any record: the table lies inside the
/// buffer, its records are at least as large as their class needs, and each
/// starts at an offset aligned for its record.
pub open spec fn program_headers_readable(h: ElfHeader, len: nat) -> bool {
    h.ph_count == 0 || {
        &&& h.ph_offset > 0
        &&& h.ph_entry_size >= ph_record_size(h.is_64)
        &&& h.ph_offset + h.ph_count * h.ph_entry_size <= len
        &&& (h.ph_offset as int) % (ph_record_align(h.is_64) as int) == 0
        &&& (h.ph_count == 1 || (h.ph_entry_size as int) % (ph_record_align(h.is_64) as int) == 0)
    }
}

/// The program headers of a file, in the order of their indices.
pub open spec fn program_headers_of(bytes: Seq<u8>, h: ElfHeader) -> Seq<Segment> {
    Seq::new(h.ph_count as nat, |i: int| program_header_of(bytes, i as u16).unwrap())
}

/// The bytes that the machine holds for a sequence of words, as
/// `zerocopy::IntoBytes` shows them: eight bytes for each word, in the
/// machine's byte order.
pub uninterp spec fn native_bytes(words: Seq<u64>) -> Seq<u8>;

/// Copies `bytes` to the front of a fresh, zeroed buffer of `words` words, by
/// `zerocopy::IntoBytes::as_mut_bytes` on the buffer. A buffer of words starts
/// at an address aligned for any ELF record, which `xmas_elf` asserts of what
/// it reads. `requires` keeps the buffer within the size that `Vec` can
/// allocate without panicking.
#[verifier::external_body]
fn aligned_copy(bytes: &[u8], words: usize) -> (r: Vec<u64>)
    requires
        bytes@.len() <= 8 * words,
        8 * words <= isize::MAX,
    ensures
        r@.len() == words,
        native_bytes(r@).len() == 8 * words,
        native_bytes(r@).take(bytes@.len() as int) == bytes@,
{
    let mut w = vec![0u64; words];
    w.as_mut_bytes()[..bytes.len()].copy_from_slice(bytes);
    w
}

/// Reads the file header from the first `len` bytes of an aligned buffer, by
/// `xmas_elf::header::parse_header` on those bytes as `zerocopy::IntoBytes`
/// shows them. The header is a function of the bytes alone; whether one is
/// read, and the class, are stated as the crate's source decides them. The
/// crate reads the fields in the machine's byte order, which is why they are
/// named and not stated.
#[verifier::external_body]
fn read_elf_header(words: &[u64], len: usize) -> (r: Option<ElfHeader>)
    requires
        len <= native_bytes(words@).len(),
    ensures
        r == elf_header_of(native_bytes(words@).take(len as int)),
        r is Some <==> elf_header_readable(native_bytes(words@).take(len as int)),
        r matches Some(h) ==> h.is_64 == (native_bytes(words@)[4] == 2),
{
    let h = xmas_elf::header::parse_header(&words.as_bytes()[..len]).ok()?;
    let is_64 = match h.pt2 {
        HeaderPt2::Header32(_) => false,
        HeaderPt2::Header64(_) => true,
    };
    let p = h.pt2;
    Some(ElfHeader { is_64, entry_point: p.entry_point(), ph_offset: p.ph_offset(), ph_entry_size: p.ph_entry_size(), ph_count: p.ph_count() })
}

/// Reads the program header of the given index from the first `len` bytes of
/// an aligned buffer, by `xmas_elf::header::parse_header` and
/// `xmas_elf::program::parse_program_header`, and keeps its type (by
/// `get_type`), flags, offset, address and sizes. The result is a function of
/// the bytes and the index; whether one is read is stated as the crate's
/// source decides it. `requires` leaves out the entries on which the crate
/// panics: a record whose slice falls outside the bytes or is shorter than a
/// record, and a record at an offset not aligned for it (the buffer itself
/// starts aligned). The header must be read again here: the crate's parse
/// takes its own header value, which the library does not keep.
#[verifier::external_body]
fn read_program_header(words: &[u64], len: usize, index: u16) -> (r: Option<Segment>)
    requires
        len <= native_bytes(words@).len(),
        elf_header_of(native_bytes(words@).take(len as int)) matches Some(h) ==> {
            &&& ph_in_bounds(h, len as nat, index)
            &&& ph_record_aligned(h, index)
        },
    ensures
        r == program_header_of(native_bytes(words@).take(len as int), index),
        r is Some <==> (elf_header_of(native_bytes(words@).take(len as int)) matches Some(h)
            && ph_present(h, index)),
{
    let bytes = &words.as_bytes()[..len];
    let header = xmas_elf::header::parse_header(bytes).ok()?;
    let ph = xmas_elf::program::parse_program_header(bytes, header, index).ok()?;
    let kind = match ph.get_type() {
        Ok(Type::Load) => SegmentKind::Load,
        Ok(Type::Interp) => SegmentKind::Interp,
        Ok(_) => SegmentKind::Other,
        Err(_) => SegmentKind::Invalid,
    };
    Some(Segment { kind, flags: ph.flags().0, offset: ph.offset(), virtual_addr: ph.virtual_addr(), file_size: ph.file_size(), mem_size: ph.mem_size() })
}

/// Whether all program headers of `h` can be read from an aligned buffer of
/// `len` bytes.
pub fn check_program_headers(h: &ElfHeader, len: usize) -> (r: bool)
    ensures
        r == program_headers_readable(*h, len as nat),
{
    if h.ph_count == 0 {
        return true;
    }
    let min: u16 = if h.is_64 { 56 } else { 32 };
    let align: u64 = if h.is_64 { 8 } else { 4 };
    let count: u64 = h.ph_count as u64;
    let size: u64 = h.ph_entry_size as u64;
    assert(count * size < 0x1_0000_0000) by (nonlinear_arith)
        requires count < 0x10000, size < 0x10000;
    let table: u64 = count * size;
    h.ph_offset > 0 && h.ph_entry_size >= min && h.ph_offset <= len as u64 && table <= len as u64
        - h.ph_offset && h.ph_offset % align == 0 && (h.ph_count == 1 || size % align == 0)
}

proof fn lemma_entry_in_bounds(h: ElfHeader, len: nat, index: u16)
    requires
        program_headers_readable(h, len),
        index < h.ph_count,
    ensures
        ph_in_bounds(h, len, index),
        ph_record_aligned(h, index),
{
    assert((index + 1) * h.ph_entry_size <= h.ph_count * h.ph_entry_size) by (nonlinear_arith)
        requires index + 1 <= h.ph_count;
    let a = ph_record_align(h.is_64) as int;
    let off = h.ph_offset as int;
    let e = h.ph_entry_size as int;
    let i = index as int;
    if index == 0 {
        assert(off + i * e == off) by (nonlinear_arith) requires i == 0;
    } else {
        lemma_fundamental_div_mod(off, a);
        lemma_fundamental_div_mod(e, a);
        let p = off / a;
        let q = e / a;
        assert(off + i * e == a * (p + i * q)) by (nonlinear_arith)
            requires off == a * p, e == a * q;
        lemma_mod_multiples_vanish(p + i * q, 0, a);
        lemma_small_mod(0, a as nat);
    }
}

/// Reads the file header and all program headers of an ELF file, from a copy
/// of the bytes in aligned storage. It gives `None` where no header is read,
/// or where the program-header table does not lie inside the file, has
/// records smaller than their class needs, or has records at offsets not
/// aligned for them; and where the copy would not fit in memory (a buffer
/// within eight bytes of the largest size of a slice).
pub fn parse_elf(bytes: &[u8]) -> (r: Option<ElfImage>)
    ensures
        r is Some <==> (bytes@.len() + 8 <= isize::MAX && (elf_header_of(bytes@) matches Some(h)
            && program_headers_readable(h, bytes@.len()))),
        r matches Some(img) ==> {
            &&& elf_header_of(bytes@) == Some(img.header)
            &&& img.segments@ == program_headers_of(bytes@, img.header)
        },
{
    let len = bytes.len();
    if len > isize::MAX as usize - 8 {
        return None;
    }
    let words = aligned_copy(bytes, len / 8 + 1);
    let ghost b = native_bytes(words@).take(len as int);
    assert(b == bytes@);
    let h = match read_elf_header(words.as_slice(), len) {
        Some(h) => h,
        None => return None,
    };
    if !check_program_headers(&h, len) {
        return None;
    }
    let mut segments: Vec<Segment> = Vec::new();
    let mut i: u16 = 0;
    while i < h.ph_count
        invariant
            b == bytes@,
            b == native_bytes(words@).take(len as int),
            len == bytes@.len(),
            len <= native_bytes(words@).len(),
            elf_header_of(bytes@) == Some(h),
            program_headers_readable(h, bytes@.len()),
            i <= h.ph_count,
            segments@.len() == i,
            forall|j: int| 0 <= j < i ==> segments@[j] == program_header_of(bytes@, j as u16).unwrap(),
        decreases h.ph_count - i,
    {
        proof {
            lemma_entry_in_bounds(h, bytes@.len(), i);
        }
        let s = match read_program_header(words.as_slice(), len, i) {
            Some(s) => s,
            None => return None,
        };
        segments.push(s);
        i = i + 1;
    }
    let img = ElfImage { header: h, segments };
    assert(img.segments@ =~= program_headers_of(bytes@, h));
    Some(img)
}

} // verus!
