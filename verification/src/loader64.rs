//! The decisions of the loader: where an image goes, how each of its loadable
//! segments is mapped, which interpreter it asks for, what entry point it
//! ends with, and what the initial stack of the program holds.

use vstd::prelude::*;
use rand::Rng;

use crate::elf::{ElfHeader, ElfImage, Segment, SegmentKind};
use crate::x64::auxvt::{
    Auxvt, AT_EGID, AT_ENTRY, AT_EUID, AT_EXECFN, AT_GID, AT_PHDR, AT_PHENT, AT_PHNUM, AT_PLATFORM,
    AT_RANDOM, AT_SYSINFO_EHDR, AT_UID,
};
use crate::page::{
    lemma_page_begin_of_offset, lemma_page_decompose, page_begin, page_offset, round_page, spec_page_begin, spec_page_offset,
    spec_round_page, PAGE_SIZE,
};

verus! {

/// Lowest base address (inclusive) that is drawn for a position-independent image.
pub const BASE_ADDRESS_LOW: u64 = 0x31000;

/// Highest base address (exclusive) that is drawn for a position-independent image.
pub const BASE_ADDRESS_HIGH: u64 = 0x564bb8db1000;

/// The addresses that `gen_base_address` may give.
pub open spec fn base_address_in_range(b: u64) -> bool {
    &&& BASE_ADDRESS_LOW <= b < BASE_ADDRESS_HIGH
    &&& b % PAGE_SIZE == 0
}

/// A number drawn by `rand::thread_rng().gen_range(low, high)`, which the
/// crate documents as lying in `[low, high)` and which panics if `low >= high`.
/// Which number comes out is left open.
#[verifier::external_body]
fn random_in_range(low: u64, high: u64) -> (r: u64)
    requires
        low < high,
    ensures
        low <= r < high,
{
    rand::thread_rng().gen_range(low, high)
}

/// The base address made of a drawn number: the number with its low twelve
/// bits cleared, the first address of its page.
pub fn base_from_draw(x: u64) -> (r: u64)
    requires
        BASE_ADDRESS_LOW <= x < BASE_ADDRESS_HIGH,
    ensures
        r == x - x % 0x1000,
        base_address_in_range(r),
{
    let r = (x >> 12u64) << 12u64;
    assert(r == x - x % 0x1000 && r % 0x1000 == 0) by (bit_vector)
        requires r == (x >> 12u64) << 12u64;
    r
}

/// A random page-aligned base address for a position-independent image: a
/// number drawn from `[BASE_ADDRESS_LOW, BASE_ADDRESS_HIGH)`, made a base by
/// `base_from_draw`.
pub fn gen_base_address() -> (r: u64)
    ensures
        base_address_in_range(r),
{
    let low: u64 = (0x31337u64 >> 12u64) << 12u64;
    let high: u64 = (0x564bb8db1000u64 >> 12u64) << 12u64;
    assert(low == BASE_ADDRESS_LOW) by (bit_vector)
        requires low == (0x31337u64 >> 12u64) << 12u64;
    assert(high == BASE_ADDRESS_HIGH) by (bit_vector)
        requires high == (0x564bb8db1000u64 >> 12u64) << 12u64;
    let x = random_in_range(low, high);
    base_from_draw(x)
}

/// A loadable segment that starts at virtual address zero: what marks an
/// image as position independent.
pub open spec fn is_pie_segment(s: Segment) -> bool {
    s.virtual_addr == 0 && s.kind == SegmentKind::Load
}

/// The image is position independent: one of its loadable segments starts at
/// address zero.
pub open spec fn spec_is_rel(segs: Seq<Segment>) -> bool {
    exists|i: int| 0 <= i < segs.len() && #[trigger] is_pie_segment(segs[i])
}

/// The segments on which `is_rel` decides: it reads the type of a segment
/// only when the segment starts at address zero, and fails on an undefined
/// type there unless an earlier segment has already decided.
pub open spec fn is_rel_defined(segs: Seq<Segment>) -> bool {
    forall|i: int|
        0 <= i < segs.len() && segs[i].virtual_addr == 0 && segs[i].kind == SegmentKind::Invalid
            ==> exists|j: int| 0 <= j < i && #[trigger] is_pie_segment(segs[j])
}

/// No segment has a type that the ELF format leaves undefined.
pub open spec fn kinds_defined(segs: Seq<Segment>) -> bool {
    forall|i: int| 0 <= i < segs.len() ==> segs[i].kind != SegmentKind::Invalid
}

/// Whether the image is position independent ("PIE"): whether one of its
/// loadable segments starts at address zero.
pub fn is_rel(segments: &[Segment]) -> (r: bool)
    requires
        is_rel_defined(segments@),
    ensures
        r == spec_is_rel(segments@),
        r == exists|i: int|
            0 <= i < segments@.len() && segments@[i].kind == SegmentKind::Load
                && #[trigger] segments@[i].virtual_addr == 0,
{
    let mut i: usize = 0;
    while i < segments.len()
        invariant
            i <= segments@.len(),
            is_rel_defined(segments@),
            forall|j: int| 0 <= j < i ==> !#[trigger] is_pie_segment(segments@[j]),
        decreases segments@.len() - i,
    {
        if segments[i].virtual_addr == 0 {
            assert(segments@[i as int].kind != SegmentKind::Invalid);
            if segments[i].kind == SegmentKind::Load {
                assert(is_pie_segment(segments@[i as int]));
                proof {
                    lemma_is_rel_meaning(segments@);
                }
                return true;
            }
        }
        i = i + 1;
    }
    proof {
        lemma_is_rel_meaning(segments@);
    }
    false
}

/// Whether no segment has an undefined type.
pub fn check_kinds(segments: &[Segment]) -> (r: bool)
    ensures
        r == kinds_defined(segments@),
{
    let mut i: usize = 0;
    while i < segments.len()
        invariant
            i <= segments@.len(),
            forall|j: int| 0 <= j < i ==> segments@[j].kind != SegmentKind::Invalid,
        decreases segments@.len() - i,
    {
        if segments[i].kind == SegmentKind::Invalid {
            return false;
        }
        i = i + 1;
    }
    true
}

/// An anonymous, zero-filled mapping.
#[derive(Debug, Clone, Copy, PartialEq, Eq, Structural)]
pub struct AnonMapping {
    pub addr: u64,
    pub len: u64,
}

/// The part of a segment that lies beyond its file contents: the bytes that
/// are zeroed up to the end of the last file-backed page, and the anonymous
/// mapping of the pages after it, if any.
#[derive(Debug, Clone, Copy, PartialEq, Eq, Structural)]
pub struct BssMapping {
    pub zero_start: u64,
    pub zero_len: u64,
    pub anon: Option<AnonMapping>,
}

/// How a loadable segment is mapped: a private fixed mapping of the file at
/// `addr` of `len` bytes from file offset `file_offset`, with the given
/// protection (always writable, since the loader writes into it), and the
/// part beyond the file contents.
#[derive(Debug, Clone, Copy, PartialEq, Eq, Structural)]
pub struct SegmentMapping {
    pub addr: u64,
    pub len: u64,
    pub file_offset: u64,
    pub prot_read: bool,
    pub prot_write: bool,
    pub prot_exec: bool,
    pub bss: Option<BssMapping>,
}

/// The address that a segment's virtual addresses are relative to.
pub open spec fn segment_base(isrel: bool, to_mmap: u64) -> int {
    if isrel {
        to_mmap as int
    } else {
        0
    }
}

/// First address of the segment in memory.
pub open spec fn seg_first(s: Segment, isrel: bool, to_mmap: u64) -> int {
    segment_base(isrel, to_mmap) + s.virtual_addr
}

/// Address just after the file contents of the segment in memory.
pub open spec fn seg_file_end(s: Segment, isrel: bool, to_mmap: u64) -> int {
    segment_base(isrel, to_mmap) + s.virtual_addr + s.file_size
}

/// Address just after the segment in memory.
pub open spec fn seg_mem_end(s: Segment, isrel: bool, to_mmap: u64) -> int {
    segment_base(isrel, to_mmap) + s.mem_size + s.virtual_addr
}

/// The segments that `plan_ptload` maps without an arithmetic overflow: the
/// sums of addresses and sizes that it forms stay within a `u64`.
pub open spec fn ptload_defined(s: Segment, isrel: bool, to_mmap: u64) -> bool {
    let file_end = seg_file_end(s, isrel, to_mmap);
    &&& spec_page_offset(s.virtual_addr as int) + s.mem_size <= u64::MAX
    &&& file_end <= u64::MAX
    &&& s.mem_size > s.file_size ==> {
        &&& spec_round_page(file_end) + 1 <= u64::MAX
        &&& segment_base(isrel, to_mmap) + s.mem_size <= u64::MAX
        &&& seg_mem_end(s, isrel, to_mmap) <= u64::MAX
    }
}

/// How `plan_ptload` maps a segment.
pub open spec fn spec_plan_ptload(s: Segment, isrel: bool, to_mmap: u64) -> SegmentMapping {
    let first = seg_first(s, isrel, to_mmap);
    let file_end = seg_file_end(s, isrel, to_mmap);
    let mem_end = seg_mem_end(s, isrel, to_mmap);
    let start = spec_page_begin(first);
    let end_main = spec_round_page(file_end);
    let bss_page_end = end_main + 1;
    let seg_end = spec_round_page(mem_end);
    SegmentMapping {
        addr: start as u64,
        len: spec_round_page(end_main - start) as u64,
        file_offset: spec_page_begin(s.offset as int) as u64,
        prot_read: s.spec_is_read(),
        prot_write: true,
        prot_exec: s.spec_is_execute(),
        bss: if s.mem_size > s.file_size {
            Some(
                BssMapping {
                    zero_start: file_end as u64,
                    zero_len: (bss_page_end - file_end) as u64,
                    anon: if seg_end > bss_page_end {
                        Some(
                            AnonMapping {
                                addr: bss_page_end as u64,
                                len: spec_round_page(seg_end - bss_page_end) as u64,
                            },
                        )
                    } else {
                        None
                    },
                },
            )
        } else {
            None
        },
    }
}

/// How a loadable segment is mapped, relative to `to_mmap` when the image is
/// position independent and to address zero otherwise.
pub fn plan_ptload(segment: &Segment, isrel: bool, to_mmap: u64) -> (r: SegmentMapping)
    requires
        ptload_defined(*segment, isrel, to_mmap),
    ensures
        r == spec_plan_ptload(*segment, isrel, to_mmap),
        r.prot_read == (segment.flags & 4u32 == 4u32),
        r.prot_write,
        r.prot_exec == (segment.flags & 1u32 == 1u32),
{
    let vaddr = segment.virtual_addr;
    // The span of the segment's memory from the start of its first page; the
    // sum that gives it is why `ptload_defined` bounds it.
    let _mem_span = round_page(page_offset(vaddr) + segment.mem_size);
    let file_offset = page_begin(segment.offset);
    let file_sz = segment.file_size;
    let memsz = segment.mem_size;
    let base: u64 = if isrel { to_mmap } else { 0 };
    let seg_start = page_begin(base + vaddr);
    let seg_end_main = round_page(base + vaddr + file_sz);
    let prot_read = segment.is_read();
    let prot_exec = segment.is_execute();
    let addr = page_begin(seg_start);
    let len = round_page(seg_end_main - seg_start);
    let bss = if memsz > file_sz {
        let bss_start = base + vaddr + file_sz;
        let map_bss_start = round_page(bss_start) + 1;
        let seg_end = round_page(base + memsz + vaddr);
        let anon = if seg_end > map_bss_start {
            Some(AnonMapping { addr: map_bss_start, len: round_page(seg_end - map_bss_start) })
        } else {
            None
        };
        Some(BssMapping { zero_start: bss_start, zero_len: map_bss_start - bss_start, anon })
    } else {
        None
    };
    SegmentMapping { addr, len, file_offset, prot_read, prot_write: true, prot_exec, bss }
}

/// The last address of the page of `x`, for any `x` that a `u64` holds.
fn round_page_wide(x: u128) -> (r: u128)
    requires
        x <= u64::MAX,
    ensures
        r == spec_round_page(x as int),
{
    x - x % 0x1000 + 0xfff
}

/// Whether `plan_ptload` maps the segment without an arithmetic overflow.
fn ptload_fits(segment: &Segment, isrel: bool, to_mmap: u64) -> (r: bool)
    ensures
        r == ptload_defined(*segment, isrel, to_mmap),
{
    let base: u128 = if isrel { to_mmap as u128 } else { 0 };
    let v = segment.virtual_addr as u128;
    let f = segment.file_size as u128;
    let m = segment.mem_size as u128;
    let max: u128 = 0xffff_ffff_ffff_ffffu128;
    if v % 0x1000 + m > max || base + v + f > max {
        return false;
    }
    if m > f {
        let end_main = round_page_wide(base + v + f);
        if end_main + 1 > max || base + m > max || base + m + v > max {
            return false;
        }
    }
    true
}

/// The interpreter segments whose path `interp_path` reads: the path is the
/// segment's contents without their last byte (the terminating NUL), so the
/// segment holds at least that byte, and the rest lies inside the file.
pub open spec fn interp_path_defined(s: Segment, len: nat) -> bool {
    &&& s.file_size >= 1
    &&& s.file_size >= 2 ==> s.offset + s.file_size - 1 <= len
}

/// The path of the interpreter that an interpreter segment names.
pub open spec fn spec_interp_path(s: Segment, fbuf: Seq<u8>) -> Seq<u8> {
    Seq::new((s.file_size - 1) as nat, |i: int| fbuf[s.offset + i])
}

/// The path of the interpreter that an interpreter segment names: the bytes of
/// the segment in the file, without the terminating NUL.
pub fn interp_path(segment: &Segment, fbuf: &[u8]) -> (r: Vec<u8>)
    requires
        interp_path_defined(*segment, fbuf@.len()),
    ensures
        r@ == spec_interp_path(*segment, fbuf@),
{
    let mut interp: Vec<u8> = Vec::new();
    let count = segment.file_size - 1;
    let len = fbuf.len();
    let mut i: u64 = 0;
    while i < count
        invariant
            count == segment.file_size - 1,
            len == fbuf@.len(),
            interp_path_defined(*segment, fbuf@.len()),
            i <= count,
            interp@.len() == i,
            forall|j: int| 0 <= j < i ==> interp@[j] == fbuf@[segment.offset + j],
        decreases count - i,
    {
        assert(segment.offset + i < fbuf@.len());
        interp.push(fbuf[(segment.offset + i) as usize]);
        i = i + 1;
    }
    assert(interp@ =~= spec_interp_path(*segment, fbuf@));
    interp
}

/// One thing to do, in order, while an image is mapped.
#[derive(Debug)]
pub enum MapStep {
    /// Map a loadable segment as described.
    Load(SegmentMapping),
    /// Load the interpreter whose path is given (without its NUL).
    Interp(Vec<u8>),
}

/// A step, with the path of an interpreter as a sequence of bytes.
pub enum StepView {
    Load(SegmentMapping),
    Interp(Seq<u8>),
}

impl View for MapStep {
    type V = StepView;

    open spec fn view(&self) -> StepView {
        match self {
            MapStep::Load(m) => StepView::Load(*m),
            MapStep::Interp(p) => StepView::Interp(p@),
        }
    }
}

/// The step that a segment gives, if any: loadable segments are mapped,
/// interpreter segments name an interpreter, the others are passed over.
pub open spec fn step_of(s: Segment, fbuf: Seq<u8>, isrel: bool, base: u64) -> Option<StepView> {
    match s.kind {
        SegmentKind::Load => Some(StepView::Load(spec_plan_ptload(s, isrel, base))),
        SegmentKind::Interp => Some(StepView::Interp(spec_interp_path(s, fbuf))),
        _ => None,
    }
}

/// The steps that the segments give, in their order.
pub open spec fn spec_map_steps(segs: Seq<Segment>, fbuf: Seq<u8>, isrel: bool, base: u64) -> Seq<
    StepView,
>
    decreases segs.len(),
{
    if segs.len() == 0 {
        Seq::empty()
    } else {
        let prev = spec_map_steps(segs.drop_last(), fbuf, isrel, base);
        match step_of(segs.last(), fbuf, isrel, base) {
            Some(st) => prev.push(st),
            None => prev,
        }
    }
}

/// The segment gives its step without an error: its type is defined, and a
/// loadable or interpreter segment is within the limits of its step.
pub open spec fn step_defined(s: Segment, len: nat, isrel: bool, base: u64) -> bool {
    match s.kind {
        SegmentKind::Load => ptload_defined(s, isrel, base),
        SegmentKind::Interp => interp_path_defined(s, len),
        SegmentKind::Other => true,
        SegmentKind::Invalid => false,
    }
}

/// All segments give their steps without an error.
pub open spec fn map_steps_defined(segs: Seq<Segment>, len: nat, isrel: bool, base: u64) -> bool {
    forall|i: int| 0 <= i < segs.len() ==> step_defined(#[trigger] segs[i], len, isrel, base)
}

/// Whether all segments give their steps without an error.
pub fn check_map_steps(segments: &[Segment], len: usize, isrel: bool, base_address: u64) -> (r: bool)
    ensures
        r == map_steps_defined(segments@, len as nat, isrel, base_address),
{
    let mut i: usize = 0;
    while i < segments.len()
        invariant
            i <= segments@.len(),
            forall|j: int|
                0 <= j < i ==> step_defined(#[trigger] segments@[j], len as nat, isrel, base_address),
        decreases segments@.len() - i,
    {
        let s = &segments[i];
        let ok = match s.kind {
            SegmentKind::Load => ptload_fits(s, isrel, base_address),
            SegmentKind::Interp => s.file_size >= 1 && (s.file_size < 2 || (s.offset <= len as u64
                && s.file_size - 1 <= len as u64 - s.offset)),
            SegmentKind::Other => true,
            SegmentKind::Invalid => false,
        };
        if !ok {
            assert(!step_defined(segments@[i as int], len as nat, isrel, base_address));
            return false;
        }
        i = i + 1;
    }
    true
}

/// The steps that map an image whose segments are relative to `base_address`
/// (when `isrel`) or absolute: for each segment in order, the mapping of a
/// loadable segment or the path of an interpreter.
pub fn plan_map_steps(segments: &[Segment], fbuf: &[u8], isrel: bool, base_address: u64) -> (r: Vec<
    MapStep,
>)
    requires
        map_steps_defined(segments@, fbuf@.len(), isrel, base_address),
    ensures
        r@.map_values(|st: MapStep| st@) == spec_map_steps(segments@, fbuf@, isrel, base_address),
{
    let mut steps: Vec<MapStep> = Vec::new();
    let mut i: usize = 0;
    while i < segments.len()
        invariant
            i <= segments@.len(),
            map_steps_defined(segments@, fbuf@.len(), isrel, base_address),
            steps@.map_values(|st: MapStep| st@) == spec_map_steps(
                segments@.take(i as int),
                fbuf@,
                isrel,
                base_address,
            ),
        decreases segments@.len() - i,
    {
        let s = &segments[i];
        assert(step_defined(segments@[i as int], fbuf@.len(), isrel, base_address));
        let ghost prev = steps@;
        assert(segments@.take(i + 1).drop_last() =~= segments@.take(i as int));
        assert(segments@.take(i + 1).last() == segments@[i as int]);
        match s.kind {
            SegmentKind::Load => {
                steps.push(MapStep::Load(plan_ptload(s, isrel, base_address)));
                assert(steps@.map_values(|st: MapStep| st@) =~= prev.map_values(|st: MapStep| st@).push(
                    steps@.last()@,
                ));
            },
            SegmentKind::Interp => {
                steps.push(MapStep::Interp(interp_path(s, fbuf)));
                assert(steps@.map_values(|st: MapStep| st@) =~= prev.map_values(|st: MapStep| st@).push(
                    steps@.last()@,
                ));
            },
            _ => {},
        }
        i = i + 1;
    }
    assert(segments@.take(segments@.len() as int) =~= segments@);
    steps
}

/// How an image is to be mapped: whether it is position independent, the
/// address that its segments are relative to, and the steps, in order.
#[derive(Debug)]
pub struct MapPlan {
    pub is_rel: bool,
    pub base_address: u64,
    pub steps: Vec<MapStep>,
}

/// The base address of an image: a drawn address for a position-independent
/// image, the address of its first segment otherwise.
pub open spec fn base_choice_ok(segs: Seq<Segment>, isrel: bool, base: u64) -> bool {
    if isrel {
        base_address_in_range(base)
    } else {
        segs.len() > 0 && base == segs[0].virtual_addr
    }
}

/// The images that are mapped without an error whatever base address is drawn.
pub open spec fn manual_map_defined(segs: Seq<Segment>, len: nat) -> bool {
    &&& kinds_defined(segs)
    &&& if spec_is_rel(segs) {
        forall|b: u64| base_address_in_range(b) ==> #[trigger] map_steps_defined(segs, len, true, b)
    } else {
        segs.len() > 0 && map_steps_defined(segs, len, false, segs[0].virtual_addr)
    }
}

/// How an image read from `fbuf` is to be mapped at a given base address:
/// the steps that its segments give relative to `base_address` (when
/// `is_rel`) or at their own addresses. It gives `None` where a segment has an
/// undefined type, or where a segment's mapping or interpreter path is out of
/// range at that base.
pub fn plan_manual_map_at(image: &ElfImage, fbuf: &[u8], is_rel: bool, base_address: u64) -> (r:
    Option<MapPlan>)
    ensures
        r is Some <==> (kinds_defined(image.segments@) && map_steps_defined(
            image.segments@,
            fbuf@.len(),
            is_rel,
            base_address,
        )),
        r matches Some(p) ==> {
            &&& p.base_address == base_address
            &&& p.is_rel == is_rel
            &&& p.steps@.map_values(|st: MapStep| st@) == spec_map_steps(
                image.segments@,
                fbuf@,
                is_rel,
                base_address,
            )
        },
{
    let segments = image.segments.as_slice();
    if !check_kinds(segments) || !check_map_steps(segments, fbuf.len(), is_rel, base_address) {
        return None;
    }
    let steps = plan_map_steps(segments, fbuf, is_rel, base_address);
    Some(MapPlan { is_rel, base_address, steps })
}

/// How an image read from `fbuf` is to be mapped. A position-independent
/// image gets a random base address, and the plan is the one that
/// `plan_manual_map_at` makes at that base. It gives `None` where mapping the image
/// would fail: on a segment of undefined type, on an image that is not
/// position independent and has no segment, and on a segment whose mapping or
/// interpreter path is out of range at the chosen base.
pub fn plan_manual_map(image: &ElfImage, fbuf: &[u8]) -> (r: Option<MapPlan>)
    ensures
        r matches Some(p) ==> {
            &&& p.is_rel == spec_is_rel(image.segments@)
            &&& base_choice_ok(image.segments@, p.is_rel, p.base_address)
            &&& map_steps_defined(image.segments@, fbuf@.len(), p.is_rel, p.base_address)
            &&& p.steps@.map_values(|st: MapStep| st@) == spec_map_steps(
                image.segments@,
                fbuf@,
                p.is_rel,
                p.base_address,
            )
        },
        manual_map_defined(image.segments@, fbuf@.len()) ==> r is Some,
        !spec_is_rel(image.segments@) ==> (r is Some <==> manual_map_defined(
            image.segments@,
            fbuf@.len(),
        )),
        (r is None && spec_is_rel(image.segments@)) ==> !kinds_defined(image.segments@) || exists|
            b: u64,
        | base_address_in_range(b) && !#[trigger] map_steps_defined(image.segments@, fbuf@.len(), true, b),
{
    let segments = image.segments.as_slice();
    if !check_kinds(segments) {
        return None;
    }
    let isrel = is_rel(segments);
    let base_address = if isrel {
        gen_base_address()
    } else {
        if segments.len() == 0 {
            return None;
        }
        segments[0].virtual_addr
    };
    plan_manual_map_at(image, fbuf, isrel, base_address)
}

/// The entry point that mapping an image ends with, and the base address
/// when the image is an interpreter: an interpreter reports its own entry
/// point and its base; an image that named an interpreter starts at the
/// interpreter's entry point relocated by the interpreter's base; a
/// position-independent image starts at its entry point relocated by its
/// base; any other image starts at its entry point.
pub open spec fn spec_map_entry(
    h: ElfHeader,
    isrel: bool,
    base: u64,
    is_interp: bool,
    interp: Option<(u64, u64)>,
) -> (u64, Option<u64>) {
    let ep = match interp {
        Some(t) => t.0,
        None => h.entry_point,
    };
    if is_interp {
        (ep, Some(base))
    } else if interp is Some {
        ((interp.unwrap().1 + ep) as u64, None)
    } else if isrel {
        ((base + h.entry_point) as u64, None)
    } else {
        (h.entry_point, None)
    }
}

/// The additions of `finish_manual_map` do not overflow.
pub open spec fn finish_defined(h: ElfHeader, base: u64, is_interp: bool, interp: Option<(u64, u64)>) -> bool {
    &&& h.ph_offset + base <= u64::MAX
    &&& h.entry_point + base <= u64::MAX
    &&& (!is_interp && interp is Some) ==> interp.unwrap().1 + interp.unwrap().0 <= u64::MAX
}

/// The auxiliary vector after an image is mapped: the interpreter's base if
/// one was loaded, and the image's program headers and entry point relocated
/// by its base.
pub open spec fn spec_aux_after_map(old: Auxvt, h: ElfHeader, base: u64, interp: Option<(u64, u64)>) -> Auxvt {
    Auxvt {
        base_interp: match interp {
            Some(t) => t.1,
            None => old.base_interp,
        },
        base_phdr: (h.ph_offset + base) as u64,
        sz_phdr_entry: h.ph_entry_size as u64,
        n: h.ph_count as u64,
        ep: (h.entry_point + base) as u64,
        ..old
    }
}

/// Whether `finish_manual_map` can add without an overflow.
pub fn check_finish(header: &ElfHeader, base_address: u64, is_interp: bool, interp: Option<(u64, u64)>) -> (r: bool)
    ensures
        r == finish_defined(*header, base_address, is_interp, interp),
{
    let room = u64::MAX - base_address;
    if header.ph_offset > room || header.entry_point > room {
        return false;
    }
    match interp {
        Some(t) => is_interp || t.0 <= u64::MAX - t.1,
        None => true,
    }
}

/// Ends the mapping of an image: records in `aux` the interpreter's base (if
/// an interpreter was loaded, as `(entry point, base)`), and the image's
/// program headers and entry point; gives the entry point to start at.
pub fn finish_manual_map(
    header: &ElfHeader,
    is_rel: bool,
    base_address: u64,
    is_interp: bool,
    interp: Option<(u64, u64)>,
    aux: &mut Auxvt,
) -> (r: (u64, Option<u64>))
    requires
        finish_defined(*header, base_address, is_interp, interp),
    ensures
        *final(aux) == spec_aux_after_map(*old(aux), *header, base_address, interp),
        r == spec_map_entry(*header, is_rel, base_address, is_interp, interp),
        final(aux).ep == header.entry_point + base_address,
        final(aux).base_phdr == header.ph_offset + base_address,
        (!is_interp && interp is Some) ==> r.0 == interp.unwrap().1 + interp.unwrap().0 && r.1
            is None,
        (!is_interp && interp is None && is_rel) ==> r.0 == base_address + header.entry_point && r.1
            is None,
        (!is_interp && interp is None && !is_rel) ==> r.0 == header.entry_point && r.1 is None,
        is_interp ==> r.1 == Some(base_address) && r.0 == (if interp is Some {
            interp.unwrap().0
        } else {
            header.entry_point
        }),
{
    let mut ep = header.entry_point;
    if let Some(t) = interp {
        ep = t.0;
        aux.base_interp = t.1;
    }
    aux.base_phdr = header.ph_offset + base_address;
    aux.sz_phdr_entry = header.ph_entry_size as u64;
    aux.n = header.ph_count as u64;
    aux.ep = header.entry_point + base_address;
    if is_interp {
        (ep, Some(base_address))
    } else if let Some(t) = interp {
        (t.1 + ep, None)
    } else if is_rel {
        (base_address + header.entry_point, None)
    } else {
        (header.entry_point, None)
    }
}

/// Size of the anonymous mapping that holds the initial stack.
pub const STACK_MAP_SIZE: u64 = 0x32000;

/// Offset in that mapping of the initial stack pointer, where the stack's
/// words start.
pub const STACK_TOP_OFFSET: u64 = 0x25000;

/// The value that the new program finds for each of its user and group ids.
pub const STACK_ID: u64 = 1000;

/// The auxiliary-vector pairs that every initial stack ends with.
pub open spec fn spec_auxv_tail(aux: Auxvt, random: u64, platform: u64) -> Seq<u64> {
    seq![
        AT_PHDR, aux.base_phdr,
        AT_PHENT, aux.sz_phdr_entry,
        AT_PHNUM, aux.n,
        AT_ENTRY, aux.ep,
        AT_UID, STACK_ID,
        AT_EUID, STACK_ID,
        AT_GID, STACK_ID,
        AT_EGID, STACK_ID,
        AT_EXECFN, aux.target_name,
        AT_RANDOM, random,
        AT_PLATFORM, platform,
    ]
}

/// The argument counts for which the initial stack can be built: the count
/// includes the loader itself, and all arguments but the loader's own are
/// among the pointers given.
pub open spec fn stack_defined(args_len: nat, n: nat) -> bool {
    1 <= n && (n == 1 || n <= args_len)
}

/// The pointers to the new program's arguments: the loader's own arguments
/// from the second on.
pub open spec fn stack_argv(args: Seq<u64>, n: nat) -> Seq<u64> {
    Seq::new((n - 1) as nat, |i: int| args[i + 1])
}

/// The pointers to the environment: those after the arguments.
pub open spec fn stack_env(args: Seq<u64>, n: nat) -> Seq<u64> {
    Seq::new(if args.len() >= n { (args.len() - n) as nat } else { 0 }, |i: int| args[n + i])
}

/// The initial stack of the program: its argument count, the pointers to its
/// arguments, a NULL, the pointers to its environment, a NULL, then the
/// auxiliary-vector pairs (the interpreter's base only when one was loaded).
pub open spec fn spec_stack(aux: Auxvt, args: Seq<u64>, n: nat, random: u64, platform: u64) -> Seq<u64> {
    seq![(n - 1) as u64] + stack_argv(args, n) + seq![0u64] + stack_env(args, n) + seq![0u64] + (
    if aux.base_interp != 0 {
        seq![AT_SYSINFO_EHDR, aux.base_interp]
    } else {
        Seq::empty()
    }) + spec_auxv_tail(aux, random, platform)
}

/// Appends the auxiliary-vector pairs that every initial stack ends with.
fn push_auxv_tail(vec: &mut Vec<u64>, aux: &Auxvt, random: u64, platform: u64)
    ensures
        final(vec)@ == old(vec)@ + spec_auxv_tail(*aux, random, platform),
{
    vec.push(AT_PHDR);
    vec.push(aux.base_phdr);
    vec.push(AT_PHENT);
    vec.push(aux.sz_phdr_entry);
    vec.push(AT_PHNUM);
    vec.push(aux.n);
    vec.push(AT_ENTRY);
    vec.push(aux.ep);
    vec.push(AT_UID);
    vec.push(STACK_ID);
    vec.push(AT_EUID);
    vec.push(STACK_ID);
    vec.push(AT_GID);
    vec.push(STACK_ID);
    vec.push(AT_EGID);
    vec.push(STACK_ID);
    vec.push(AT_EXECFN);
    vec.push(aux.target_name);
    vec.push(AT_RANDOM);
    vec.push(random);
    vec.push(AT_PLATFORM);
    vec.push(platform);
    assert(final(vec)@ =~= old(vec)@ + spec_auxv_tail(*aux, random, platform));
}

/// The words of the initial stack of the program, from the lowest address up:
/// `n` is the loader's own argument count and `args` the pointers to its
/// arguments followed by the pointers to its environment; `random` and
/// `platform` point to the bytes named by `AT_RANDOM` and `AT_PLATFORM`.
#[verifier::spinoff_prover]
pub fn build_stack(aux: &Auxvt, args: &Vec<u64>, n: u64, random: u64, platform: u64) -> (r: Vec<u64>)
    requires
        stack_defined(args@.len(), n as nat),
    ensures
        r@ == spec_stack(*aux, args@, n as nat, random, platform),
{
    let len = args.len();
    let argc: usize = n as usize;
    assert(argc == n);
    let mut vec: Vec<u64> = Vec::new();
    vec.push(n - 1);
    let mut i: usize = 1;
    while i < argc
        invariant
            argc == n,
            stack_defined(args@.len(), n as nat),
            1 <= i <= n,
            vec@ == seq![(n - 1) as u64] + Seq::new((i - 1) as nat, |k: int| args@[k + 1]),
        decreases n - i,
    {
        vec.push(args[i]);
        assert(Seq::new(i as nat, |k: int| args@[k + 1]) =~= Seq::new((i - 1) as nat, |k: int| args@[k + 1]).push(args@[i as int]));
        i = i + 1;
    }
    assert(Seq::new((i - 1) as nat, |k: int| args@[k + 1]) =~= stack_argv(args@, n as nat));
    vec.push(0);
    let ghost head = vec@;
    let mut i: usize = argc;
    while i < len
        invariant
            argc == n,
            len == args@.len(),
            n <= i,
            i <= len || i == n,
            vec@ == head + Seq::new((i - n) as nat, |k: int| args@[n + k]),
        decreases args@.len() - i,
    {
        vec.push(args[i]);
        assert(Seq::new((i + 1 - n) as nat, |k: int| args@[n + k]) =~= Seq::new((i - n) as nat, |k: int| args@[n + k]).push(args@[i as int]));
        i = i + 1;
    }
    assert(Seq::new((i - n) as nat, |k: int| args@[n + k]) =~= stack_env(args@, n as nat));
    vec.push(0);
    if aux.base_interp != 0 {
        vec.push(AT_SYSINFO_EHDR);
        vec.push(aux.base_interp);
    }
    push_auxv_tail(&mut vec, aux, random, platform);
    assert(vec@ =~= spec_stack(*aux, args@, n as nat, random, platform));
    vec
}

/// Every loadable segment is mapped, and every interpreter segment names its
/// interpreter, each by a step of its own; and every step is the step of one
/// of the segments.
#[verifier::spinoff_prover]
pub proof fn lemma_steps_cover_segments(segs: Seq<Segment>, fbuf: Seq<u8>, isrel: bool, base: u64)
    ensures
        forall|i: int|
            0 <= i < segs.len() && (#[trigger] step_of(segs[i], fbuf, isrel, base)) is Some
                ==> spec_map_steps(segs, fbuf, isrel, base).contains(
                step_of(segs[i], fbuf, isrel, base).unwrap(),
            ),
        forall|j: int|
            #![trigger spec_map_steps(segs, fbuf, isrel, base)[j]]
            0 <= j < spec_map_steps(segs, fbuf, isrel, base).len() ==> exists|i: int|
                0 <= i < segs.len() && #[trigger] step_of(segs[i], fbuf, isrel, base) == Some(
                    spec_map_steps(segs, fbuf, isrel, base)[j],
                ),
    decreases segs.len(),
{
    if segs.len() > 0 {
        let prev_segs = segs.drop_last();
        lemma_steps_cover_segments(prev_segs, fbuf, isrel, base);
        let prev = spec_map_steps(prev_segs, fbuf, isrel, base);
        let steps = spec_map_steps(segs, fbuf, isrel, base);
        assert(forall|j: int| 0 <= j < prev.len() ==> steps[j] == prev[j]);
        assert forall|i: int|
            0 <= i < segs.len() && (#[trigger] step_of(segs[i], fbuf, isrel, base)) is Some
                implies steps.contains(step_of(segs[i], fbuf, isrel, base).unwrap()) by {
            if i < segs.len() - 1 {
                assert(prev_segs[i] == segs[i]);
                let k = choose|k: int| 0 <= k < prev.len() && prev[k] == step_of(prev_segs[i], fbuf, isrel, base).unwrap();
                assert(steps[k] == prev[k]);
            } else {
                assert(steps[steps.len() - 1] == step_of(segs[i], fbuf, isrel, base).unwrap());
            }
        }
        assert forall|j: int| #![trigger steps[j]] 0 <= j < steps.len() implies exists|i: int|
            0 <= i < segs.len() && #[trigger] step_of(segs[i], fbuf, isrel, base) == Some(steps[j]) by {
            if j < prev.len() {
                let i = choose|i: int| 0 <= i < prev_segs.len() && #[trigger] step_of(prev_segs[i], fbuf, isrel, base) == Some(prev[j]);
                assert(prev_segs[i] == segs[i]);
                assert(step_of(segs[i], fbuf, isrel, base) == Some(steps[j]));
            } else {
                assert(step_of(segs[segs.len() - 1], fbuf, isrel, base) == Some(steps[j]));
            }
        }
    }
}

/// The mapping of a loadable segment starts on the page boundary at or just
/// below the segment's first byte and reaches the end of the page that holds
/// the end of its file contents; the rest of the segment is zeroed up to the
/// next page boundary and mapped anonymously from there to the end of the
/// page that holds the segment's end; the mapping is always writable.
#[verifier::spinoff_prover]
pub proof fn lemma_ptload_layout(s: Segment, isrel: bool, to_mmap: u64)
    requires
        ptload_defined(s, isrel, to_mmap),
    ensures
        ({
            let p = spec_plan_ptload(s, isrel, to_mmap);
            let first = seg_first(s, isrel, to_mmap);
            let file_end = seg_file_end(s, isrel, to_mmap);
            let mem_end = seg_mem_end(s, isrel, to_mmap);
            &&& p.addr % PAGE_SIZE == 0
            &&& p.addr <= first < p.addr + PAGE_SIZE
            &&& p.addr + p.len == spec_round_page(file_end)
            &&& file_end <= p.addr + p.len
            &&& p.file_offset % PAGE_SIZE == 0
            &&& p.file_offset <= s.offset < p.file_offset + PAGE_SIZE
            &&& p.prot_write
            &&& (p.bss is Some <==> s.mem_size > s.file_size)
            &&& p.bss matches Some(bss) ==> {
                &&& bss.zero_start == file_end
                &&& 1 <= bss.zero_len <= PAGE_SIZE
                &&& (bss.zero_start + bss.zero_len) % (PAGE_SIZE as int) == 0
                &&& bss.anon matches Some(a) ==> {
                    &&& a.addr == bss.zero_start + bss.zero_len
                    &&& a.addr + a.len == spec_round_page(mem_end)
                    &&& mem_end <= a.addr + a.len
                }
                &&& bss.anon is None ==> mem_end <= bss.zero_start + bss.zero_len
            }
        }),
{
    let first = seg_first(s, isrel, to_mmap);
    let file_end = seg_file_end(s, isrel, to_mmap);
    let mem_end = seg_mem_end(s, isrel, to_mmap);
    let ps = PAGE_SIZE as int;
    lemma_page_decompose(first);
    lemma_page_decompose(file_end);
    lemma_page_decompose(s.offset as int);
    let kf = first / ps;
    let ke = file_end / ps;
    let start = spec_page_begin(first);
    let end_main = spec_round_page(file_end);
    assert(end_main - start == ps * (ke - kf) + 0xfff) by (nonlinear_arith)
        requires
            start == ps * kf,
            end_main == ps * ke + 0xfff;
    lemma_page_begin_of_offset(ke - kf, 0xfff);
    lemma_page_begin_of_offset(kf, 0);
    lemma_page_begin_of_offset(ke + 1, 0);
    assert(ps * (ke + 1) == ps * ke + ps) by (nonlinear_arith);
    if s.mem_size > s.file_size {
        lemma_page_decompose(mem_end);
        let km = mem_end / ps;
        let seg_end = spec_round_page(mem_end);
        if seg_end > end_main + 1 {
            assert(seg_end - (end_main + 1) == ps * (km - ke - 1) + 0xfff) by (nonlinear_arith)
                requires
                    ps == 4096,
                    seg_end == ps * km + 0xfff,
                    end_main == ps * ke + 0xfff;
            lemma_page_begin_of_offset(km - ke - 1, 0xfff);
        }
    }
}


/// The initial stack holds the new argument count, the new arguments, a NULL,
/// the environment, a NULL, and the auxiliary vector, which ends with the
/// `AT_PLATFORM` pair and has one pair more when an interpreter was loaded.
#[verifier::spinoff_prover]
pub proof fn lemma_stack_layout(aux: Auxvt, args: Seq<u64>, n: u64, random: u64, platform: u64)
    requires
        stack_defined(args.len(), n as nat),
    ensures
        ({
            let st = spec_stack(aux, args, n as nat, random, platform);
            let m: int = if args.len() >= n { args.len() as int } else { n as int };
            &&& st.len() == m + 24 + (if aux.base_interp != 0 { 2int } else { 0 })
            &&& st[0] == n - 1
            &&& forall|i: int| 1 <= i < n ==> st[i] == args[i]
            &&& st[n as int] == 0
            &&& forall|i: int| n <= i < args.len() ==> st[i + 1] == args[i]
            &&& st[m + 1] == 0
            &&& (aux.base_interp != 0 ==> st[m + 2] == AT_SYSINFO_EHDR && st[m + 3] == aux.base_interp)
            &&& st[st.len() - 2] == AT_PLATFORM
            &&& st[st.len() - 1] == platform
            &&& ({
                let o = m + 2 + (if aux.base_interp != 0 { 2int } else { 0 });
                &&& st[o] == AT_PHDR && st[o + 1] == aux.base_phdr
                &&& st[o + 2] == AT_PHENT && st[o + 3] == aux.sz_phdr_entry
                &&& st[o + 4] == AT_PHNUM && st[o + 5] == aux.n
                &&& st[o + 6] == AT_ENTRY && st[o + 7] == aux.ep
                &&& st[o + 8] == AT_UID && st[o + 9] == 1000
                &&& st[o + 10] == AT_EUID && st[o + 11] == 1000
                &&& st[o + 12] == AT_GID && st[o + 13] == 1000
                &&& st[o + 14] == AT_EGID && st[o + 15] == 1000
                &&& st[o + 16] == AT_EXECFN && st[o + 17] == aux.target_name
                &&& st[o + 18] == AT_RANDOM && st[o + 19] == random
                &&& st[o + 20] == AT_PLATFORM && st[o + 21] == platform
                &&& st.len() == o + 22
            })
        }),
{
    let st = spec_stack(aux, args, n as nat, random, platform);
    let m: int = if args.len() >= n { args.len() as int } else { n as int };
    let a = seq![(n - 1) as u64] + stack_argv(args, n as nat) + seq![0u64];
    let e = a + stack_env(args, n as nat) + seq![0u64];
    let ip: Seq<u64> = if aux.base_interp != 0 {
        seq![AT_SYSINFO_EHDR, aux.base_interp]
    } else {
        Seq::empty()
    };
    let tail = spec_auxv_tail(aux, random, platform);
    assert(st == e + ip + tail);
    assert(a.len() == n + 1);
    assert(e.len() == m + 2);
    assert(tail.len() == 22);
    assert(forall|i: int| 0 <= i < e.len() ==> (e + ip + tail)[i] == e[i]);
    assert(forall|i: int| 0 <= i < a.len() ==> e[i] == a[i]);
    assert(forall|i: int| 1 <= i < n ==> a[i] == args[i]);
    assert(forall|i: int| n <= i < args.len() ==> e[i + 1] == args[i]);
    let o = m + 2 + (if aux.base_interp != 0 { 2int } else { 0 });
    assert(forall|k: int| 0 <= k < 22 ==> st[o + k] == tail[k]);
    assert(tail[7] == aux.ep);
    assert(st[st.len() - 1] == tail[21]);
    assert(st[st.len() - 2] == tail[20]);
    if aux.base_interp != 0 {
        assert(st[m + 2] == ip[0]);
        assert(st[m + 3] == ip[1]);
    }
}

/// The entry point that mapping an image ends with: the sum of the
/// interpreter's base and entry point when an interpreter was loaded for a
/// program; the sum of the base and the entry point for a position-independent
/// program without one; the entry point itself for any other program; and the
/// interpreter's own entry point with its base, for an interpreter. The
/// auxiliary vector gets the entry point and the program headers relocated by
/// the base.
pub proof fn lemma_entry_point(
    h: ElfHeader,
    isrel: bool,
    base: u64,
    is_interp: bool,
    interp: Option<(u64, u64)>,
    old_aux: Auxvt,
)
    requires
        finish_defined(h, base, is_interp, interp),
    ensures
        ({
            let (ep, b) = spec_map_entry(h, isrel, base, is_interp, interp);
            let aux = spec_aux_after_map(old_aux, h, base, interp);
            &&& (!is_interp && interp is Some) ==> ep == interp.unwrap().1 + interp.unwrap().0 && b is None
            &&& (!is_interp && interp is None && isrel) ==> ep == base + h.entry_point && b is None
            &&& (!is_interp && interp is None && !isrel) ==> ep == h.entry_point && b is None
            &&& is_interp ==> b == Some(base)
            &&& (is_interp && interp is None) ==> ep == h.entry_point
            &&& (is_interp && interp is Some) ==> ep == interp.unwrap().0
            &&& aux.ep == h.entry_point + base
            &&& aux.base_phdr == h.ph_offset + base
            &&& aux.sz_phdr_entry == h.ph_entry_size
            &&& aux.n == h.ph_count
            &&& aux.base_interp == (if interp is Some { interp.unwrap().1 } else { old_aux.base_interp })
            &&& aux.target_name == old_aux.target_name
            &&& aux.fd == old_aux.fd
        }),
{
}

/// A loadable segment is mapped readable exactly when its `PF_R` bit (4) is
/// set, executable exactly when its `PF_X` bit (1) is set, and always writable.
pub proof fn lemma_ptload_protection(s: Segment, isrel: bool, to_mmap: u64)
    ensures
        spec_plan_ptload(s, isrel, to_mmap).prot_read == (s.flags & 4u32 == 4u32),
        spec_plan_ptload(s, isrel, to_mmap).prot_exec == (s.flags & 1u32 == 1u32),
        spec_plan_ptload(s, isrel, to_mmap).prot_write,
{
}

/// An image is position independent exactly when one of its segments is a
/// loadable segment at virtual address zero; segments of other types at
/// address zero do not count.
#[verifier::spinoff_prover]
pub proof fn lemma_is_rel_meaning(segs: Seq<Segment>)
    ensures
        spec_is_rel(segs) <==> exists|i: int|
            0 <= i < segs.len() && segs[i].kind == SegmentKind::Load && #[trigger] segs[i].virtual_addr
                == 0,
{
    if spec_is_rel(segs) {
        let i = choose|i: int| 0 <= i < segs.len() && #[trigger] is_pie_segment(segs[i]);
        assert(segs[i].virtual_addr == 0);
    }
    if exists|i: int|
        0 <= i < segs.len() && segs[i].kind == SegmentKind::Load && #[trigger] segs[i].virtual_addr == 0 {
        let i = choose|i: int|
            0 <= i < segs.len() && segs[i].kind == SegmentKind::Load && #[trigger] segs[i].virtual_addr == 0;
        assert(is_pie_segment(segs[i]));
    }
}

/// The segments that give a step: loadable and interpreter segments.
pub open spec fn gives_step() -> spec_fn(Segment) -> bool {
    |s: Segment| s.kind == SegmentKind::Load || s.kind == SegmentKind::Interp
}

/// The steps follow the loadable and interpreter segments one for one, in
/// their order: there are as many steps as such segments, the step for a
/// loadable segment maps it, and the step for an interpreter segment names the
/// interpreter by the segment's path.
#[verifier::spinoff_prover]
pub proof fn lemma_steps_follow_segments(segs: Seq<Segment>, fbuf: Seq<u8>, isrel: bool, base: u64)
    ensures
        ({
            let steps = spec_map_steps(segs, fbuf, isrel, base);
            let given = segs.filter(gives_step());
            &&& steps.len() == given.len()
            &&& forall|k: int|
                0 <= k < given.len() && given[k].kind == SegmentKind::Load ==> #[trigger] steps[k]
                    == StepView::Load(spec_plan_ptload(given[k], isrel, base))
            &&& forall|k: int|
                0 <= k < given.len() && given[k].kind == SegmentKind::Interp ==> #[trigger] steps[k]
                    == StepView::Interp(spec_interp_path(given[k], fbuf))
        }),
    decreases segs.len(),
{
    reveal(Seq::filter);
    if segs.len() > 0 {
        let prev = segs.drop_last();
        lemma_steps_follow_segments(prev, fbuf, isrel, base);
        let steps = spec_map_steps(segs, fbuf, isrel, base);
        let psteps = spec_map_steps(prev, fbuf, isrel, base);
        let given = segs.filter(gives_step());
        let pgiven = prev.filter(gives_step());
        let last = segs.last();
        if last.kind == SegmentKind::Load || last.kind == SegmentKind::Interp {
            assert(given == pgiven.push(last));
            assert(gives_step()(last));
        } else {
            assert(!gives_step()(last));
            assert(given == pgiven);
            assert(steps == psteps);
        }
    }
}

} // verus!
