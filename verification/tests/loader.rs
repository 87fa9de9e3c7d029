use dumbleodor::elf::{parse_elf, check_program_headers, ElfHeader, Segment, SegmentKind};
use dumbleodor::error::{Error, ErrorKind};
use dumbleodor::loader64::{
    base_from_draw, build_stack, check_finish, check_kinds, check_map_steps, finish_manual_map, gen_base_address,
    interp_path, is_rel, plan_manual_map, plan_manual_map_at, plan_map_steps, plan_ptload, AnonMapping, BssMapping,
    MapStep, SegmentMapping, BASE_ADDRESS_HIGH, BASE_ADDRESS_LOW,
};
use dumbleodor::page::{page_begin, page_offset, round_page};
use dumbleodor::x64::auxvt::{Auxvt, AT_PHDR, AT_PLATFORM, AT_SYSINFO_EHDR};
use dumbleodor::x64::Binary64;

fn put16(b: &mut Vec<u8>, at: usize, v: u16) {
    b[at..at + 2].copy_from_slice(&v.to_le_bytes());
}

fn put32(b: &mut Vec<u8>, at: usize, v: u32) {
    b[at..at + 4].copy_from_slice(&v.to_le_bytes());
}

fn put64(b: &mut Vec<u8>, at: usize, v: u64) {
    b[at..at + 8].copy_from_slice(&v.to_le_bytes());
}

/// (type, flags, offset, vaddr, filesz, memsz)
type Ph = (u32, u32, u64, u64, u64, u64);

/// A 64-bit ELF file of 0x300 bytes with the given entry point and program
/// headers at offset 64, and the interpreter path "/ld.so\0" at 0x200.
fn elf64(entry: u64, phs: &[Ph]) -> Vec<u8> {
    let mut b = vec![0u8; 0x300];
    b[0..4].copy_from_slice(&[0x7f, b'E', b'L', b'F']);
    b[4] = 2;
    b[5] = 1;
    b[6] = 1;
    put16(&mut b, 16, 3);
    put16(&mut b, 18, 0x3e);
    put32(&mut b, 20, 1);
    put64(&mut b, 24, entry);
    put64(&mut b, 32, 64);
    put16(&mut b, 52, 64);
    put16(&mut b, 54, 56);
    put16(&mut b, 56, phs.len() as u16);
    for (i, ph) in phs.iter().enumerate() {
        let at = 64 + 56 * i;
        put32(&mut b, at, ph.0);
        put32(&mut b, at + 4, ph.1);
        put64(&mut b, at + 8, ph.2);
        put64(&mut b, at + 16, ph.3);
        put64(&mut b, at + 32, ph.4);
        put64(&mut b, at + 40, ph.5);
        put64(&mut b, at + 48, 0x1000);
    }
    b[0x200..0x207].copy_from_slice(b"/ld.so\0");
    b
}

fn seg(kind: SegmentKind, flags: u32, offset: u64, vaddr: u64, file_size: u64, mem_size: u64) -> Segment {
    Segment { kind, flags, offset, virtual_addr: vaddr, file_size, mem_size }
}

#[test]
fn page_functions_on_an_address() {
    assert_eq!(page_begin(0x1234), 0x1000);
    assert_eq!(page_offset(0x1234), 0x234);
    assert_eq!(round_page(0x1234), 0x1fff);
    assert_eq!(round_page(0x1000), 0x1fff);
    assert_eq!(round_page(0), 0xfff);
    assert_eq!(page_begin(0xfff), 0);
    assert_eq!(round_page(0x8000_0000_0000_0123), 0x8000_0000_0000_0fff);
    assert_eq!(round_page(u64::MAX), u64::MAX);
    assert_eq!(round_page(0x7fff_ffff_ffff_f000), 0x7fff_ffff_ffff_ffff);
    assert_eq!(round_page(0x7fff_ffff_ffff_fabc), 0x7fff_ffff_ffff_ffff);
}

#[test]
fn page_split_law_on_values() {
    for x in [0u64, 1, 0xfff, 0x1000, 0x1234, 0xdead_beef, u64::MAX] {
        assert_eq!(page_begin(x) + page_offset(x), x);
        assert_eq!(page_begin(x) % 0x1000, 0);
        assert_eq!(round_page(x), page_begin(x) + 0xfff);
    }
}

#[test]
fn error_new_keeps_kind_and_message() {
    let e = Error::new(ErrorKind::MmapFailed, String::from("no memory"));
    assert!(matches!(e.kind(), ErrorKind::MmapFailed));
    assert_eq!(e.message(), "no memory");
    let e = Error::new(ErrorKind::IoError(std::io::ErrorKind::NotFound), String::new());
    assert!(matches!(e.kind(), ErrorKind::IoError(std::io::ErrorKind::NotFound)));
}

#[test]
fn error_from_kind_has_empty_message() {
    let e = Error::from(ErrorKind::Utf8Error);
    assert!(matches!(e.kind(), ErrorKind::Utf8Error));
    assert_eq!(e.message(), "");
}

#[test]
fn auxvt_new_and_null() {
    let a = Auxvt::new(1, 2, 3, 4, 5, 6, 7);
    assert_eq!((a.base_interp, a.base_phdr, a.sz_phdr_entry, a.n, a.ep, a.target_name, a.fd), (1, 2, 3, 4, 5, 6, 7));
    let z = Auxvt::new_null();
    assert_eq!((z.base_interp, z.base_phdr, z.sz_phdr_entry, z.n, z.ep, z.target_name, z.fd), (0, 0, 0, 0, 0, 0, 0));
}

#[test]
fn binary64_new() {
    let b = Binary64::new(0x401000, 0x7ffe_0000);
    assert_eq!(b.ep, 0x401000);
    assert_eq!(b.stack, 0x7ffe_0000);
}

#[test]
fn parse_elf_reads_header_and_segments() {
    let bytes = elf64(0x1040, &[(1, 5, 0, 0, 0x100, 0x2000), (3, 4, 0x200, 0x200, 7, 7), (4, 4, 0, 0x300, 0, 0)]);
    let img = parse_elf(&bytes).unwrap();
    assert_eq!(img.header, ElfHeader { is_64: true, entry_point: 0x1040, ph_offset: 64, ph_entry_size: 56, ph_count: 3 });
    assert_eq!(img.segments.len(), 3);
    assert_eq!(img.segments[0], seg(SegmentKind::Load, 5, 0, 0, 0x100, 0x2000));
    assert_eq!(img.segments[1], seg(SegmentKind::Interp, 4, 0x200, 0x200, 7, 7));
    assert_eq!(img.segments[2].kind, SegmentKind::Other);
    assert!(img.segments[0].is_read());
    assert!(img.segments[0].is_execute());
    assert!(!img.segments[1].is_execute());
}

#[test]
fn parse_elf_undefined_type() {
    let bytes = elf64(0, &[(0x1234, 0, 0, 0x1000, 0, 0)]);
    let img = parse_elf(&bytes).unwrap();
    assert_eq!(img.segments[0].kind, SegmentKind::Invalid);
}

#[test]
fn parse_elf_rejects_bad_files() {
    let mut bytes = elf64(0, &[(1, 5, 0, 0, 0x100, 0x100)]);
    bytes[0] = 0;
    assert!(parse_elf(&bytes).is_none());
    let bytes = elf64(0, &[(1, 5, 0, 0, 0x100, 0x100)]);
    assert!(parse_elf(&bytes[..40]).is_none());
    let mut bytes = elf64(0, &[(1, 5, 0, 0, 0x100, 0x100)]);
    bytes[4] = 3;
    assert!(parse_elf(&bytes).is_none());
    // program headers beyond the end of the file
    let mut bytes = elf64(0, &[(1, 5, 0, 0, 0x100, 0x100)]);
    put16(&mut bytes, 56, 20);
    assert!(parse_elf(&bytes).is_none());
    // records shorter than a 64-bit program header
    let mut bytes = elf64(0, &[(1, 5, 0, 0, 0x100, 0x100)]);
    put16(&mut bytes, 54, 16);
    assert!(parse_elf(&bytes).is_none());
}

#[test]
fn parse_elf_without_program_headers() {
    let bytes = elf64(0x4000, &[]);
    let img = parse_elf(&bytes).unwrap();
    assert_eq!(img.header.ph_count, 0);
    assert!(img.segments.is_empty());
}

#[test]
fn check_program_headers_limits() {
    let h = ElfHeader { is_64: true, entry_point: 0, ph_offset: 64, ph_entry_size: 56, ph_count: 2 };
    assert!(check_program_headers(&h, 64 + 112));
    assert!(!check_program_headers(&h, 64 + 111));
    let h32 = ElfHeader { is_64: false, entry_point: 0, ph_offset: 52, ph_entry_size: 32, ph_count: 1 };
    assert!(check_program_headers(&h32, 84));
    let zero = ElfHeader { is_64: true, entry_point: 0, ph_offset: 0, ph_entry_size: 56, ph_count: 1 };
    assert!(!check_program_headers(&zero, 1000));
}

#[test]
fn is_rel_finds_load_at_zero() {
    let pie = vec![seg(SegmentKind::Other, 0, 0, 0, 0, 0), seg(SegmentKind::Load, 5, 0, 0, 0x10, 0x10)];
    assert!(is_rel(&pie));
    let fixed = vec![seg(SegmentKind::Load, 5, 0, 0x400000, 0x10, 0x10)];
    assert!(!is_rel(&fixed));
    assert!(!is_rel(&[]));
    // an undefined type after the deciding segment is not looked at
    let later = vec![seg(SegmentKind::Load, 5, 0, 0, 0x10, 0x10), seg(SegmentKind::Invalid, 0, 0, 0, 0, 0)];
    assert!(is_rel(&later));
}

#[test]
fn check_kinds_rejects_undefined_types() {
    assert!(check_kinds(&[seg(SegmentKind::Load, 0, 0, 0, 0, 0)]));
    assert!(!check_kinds(&[seg(SegmentKind::Load, 0, 0, 0, 0, 0), seg(SegmentKind::Invalid, 0, 0, 8, 0, 0)]));
}

#[test]
fn plan_ptload_with_bss() {
    let s = seg(SegmentKind::Load, 6, 0x234, 0x1234, 0x100, 0x3000);
    let p = plan_ptload(&s, true, 0x40000);
    assert_eq!(
        p,
        SegmentMapping {
            addr: 0x41000,
            len: 0xfff,
            file_offset: 0,
            prot_read: true,
            prot_write: true,
            prot_exec: false,
            bss: Some(BssMapping {
                zero_start: 0x41334,
                zero_len: 0xccc,
                anon: Some(AnonMapping { addr: 0x42000, len: 0x2fff }),
            }),
        }
    );
}

#[test]
fn plan_ptload_absolute_without_bss() {
    let s = seg(SegmentKind::Load, 5, 0x1000, 0x401000, 0x2345, 0x2345);
    let p = plan_ptload(&s, false, 0x400000);
    assert_eq!(p.addr, 0x401000);
    assert_eq!(p.len, 0x2fff);
    assert_eq!(p.file_offset, 0x1000);
    assert!(p.prot_read && p.prot_write && p.prot_exec);
    assert_eq!(p.bss, None);
}

#[test]
fn plan_ptload_bss_within_last_page() {
    let s = seg(SegmentKind::Load, 4, 0, 0x1000, 0x10, 0x20);
    let p = plan_ptload(&s, false, 0);
    assert_eq!(p.bss, Some(BssMapping { zero_start: 0x1010, zero_len: 0xff0, anon: None }));
}

#[test]
fn layout_law_on_values() {
    let s = seg(SegmentKind::Load, 6, 0x234, 0x1234, 0x100, 0x3000);
    let base = 0x40000;
    let p = plan_ptload(&s, true, base);
    let first = base + s.virtual_addr;
    assert!(p.addr % 0x1000 == 0 && p.addr <= first && first < p.addr + 0x1000);
    assert!(base + s.virtual_addr + s.file_size <= p.addr + p.len);
    let bss = p.bss.unwrap();
    assert_eq!((bss.zero_start + bss.zero_len) % 0x1000, 0);
    let anon = bss.anon.unwrap();
    assert_eq!(anon.addr, bss.zero_start + bss.zero_len);
    assert!(base + s.mem_size + s.virtual_addr <= anon.addr + anon.len);
}

#[test]
fn interp_path_drops_the_nul() {
    let mut fbuf = vec![0u8; 16];
    fbuf[4..11].copy_from_slice(b"/ld.so\0");
    let s = seg(SegmentKind::Interp, 4, 4, 4, 7, 7);
    assert_eq!(interp_path(&s, &fbuf), b"/ld.so".to_vec());
    let one = seg(SegmentKind::Interp, 4, 100, 4, 1, 1);
    assert!(interp_path(&one, &fbuf).is_empty());
}

#[test]
fn check_map_steps_limits() {
    let fbuf = vec![0u8; 16];
    let interp_ok = seg(SegmentKind::Interp, 4, 4, 4, 7, 7);
    let interp_out = seg(SegmentKind::Interp, 4, 12, 4, 7, 7);
    let interp_empty = seg(SegmentKind::Interp, 4, 12, 4, 0, 0);
    assert!(check_map_steps(&[interp_ok], fbuf.len(), false, 0));
    assert!(!check_map_steps(&[interp_out], fbuf.len(), false, 0));
    assert!(!check_map_steps(&[interp_empty], fbuf.len(), false, 0));
    let huge = seg(SegmentKind::Load, 4, 0, u64::MAX - 0x10, 0x100, 0x100);
    assert!(!check_map_steps(&[huge], fbuf.len(), false, 0));
    let near_sign = seg(SegmentKind::Load, 4, 0, 0x7fff_ffff_ffff_f800, 0x10, 0x10);
    assert!(check_map_steps(&[near_sign], fbuf.len(), false, 0));
    let bss_at_top = seg(SegmentKind::Load, 4, 0, u64::MAX - 0x20, 0x10, 0x18);
    assert!(!check_map_steps(&[bss_at_top], fbuf.len(), false, 0));
    let invalid = seg(SegmentKind::Invalid, 4, 0, 0, 0, 0);
    assert!(!check_map_steps(&[invalid], fbuf.len(), false, 0));
    let other = seg(SegmentKind::Other, 4, 0, u64::MAX, u64::MAX, u64::MAX);
    assert!(check_map_steps(&[other], fbuf.len(), false, 0));
}

#[test]
fn plan_map_steps_in_segment_order() {
    let bytes = elf64(0x1040, &[(1, 5, 0, 0x400000, 0x100, 0x100), (3, 4, 0x200, 0x200, 7, 7), (4, 4, 0, 0x300, 0, 0), (1, 6, 0x100, 0x401100, 0x10, 0x10)]);
    let img = parse_elf(&bytes).unwrap();
    let steps = plan_map_steps(&img.segments, &bytes, false, 0x400000);
    assert_eq!(steps.len(), 3);
    match &steps[0] {
        MapStep::Load(m) => assert_eq!(m.addr, 0x400000),
        _ => panic!("first step is not a mapping"),
    }
    match &steps[1] {
        MapStep::Interp(p) => assert_eq!(p.as_slice(), b"/ld.so"),
        _ => panic!("second step is not an interpreter"),
    }
    match &steps[2] {
        MapStep::Load(m) => {
            assert_eq!(m.addr, 0x401000);
            assert_eq!(m.file_offset, 0);
        }
        _ => panic!("third step is not a mapping"),
    }
}

#[test]
fn plan_manual_map_of_fixed_image() {
    let bytes = elf64(0x401000, &[(1, 5, 0, 0x400000, 0x100, 0x100)]);
    let img = parse_elf(&bytes).unwrap();
    let plan = plan_manual_map(&img, &bytes).unwrap();
    assert!(!plan.is_rel);
    assert_eq!(plan.base_address, 0x400000);
    assert_eq!(plan.steps.len(), 1);
}

#[test]
fn plan_manual_map_of_pie_draws_base() {
    let bytes = elf64(0x1040, &[(1, 5, 0, 0, 0x100, 0x2000), (3, 4, 0x200, 0x200, 7, 7)]);
    let img = parse_elf(&bytes).unwrap();
    let plan = plan_manual_map(&img, &bytes).unwrap();
    assert!(plan.is_rel);
    assert!(BASE_ADDRESS_LOW <= plan.base_address && plan.base_address < BASE_ADDRESS_HIGH);
    assert_eq!(plan.base_address % 0x1000, 0);
    match &plan.steps[0] {
        MapStep::Load(m) => assert_eq!(m.addr, plan.base_address),
        _ => panic!("first step is not a mapping"),
    }
}

#[test]
fn plan_manual_map_refusals() {
    let bytes = elf64(0, &[(0x1234, 0, 0, 0x1000, 0, 0)]);
    let img = parse_elf(&bytes).unwrap();
    assert!(plan_manual_map(&img, &bytes).is_none());
    let bytes = elf64(0, &[]);
    let img = parse_elf(&bytes).unwrap();
    assert!(plan_manual_map(&img, &bytes).is_none());
    let bytes = elf64(0, &[(3, 4, 0x2f0, 0x200, 0x40, 0x40)]);
    let img = parse_elf(&bytes).unwrap();
    assert!(plan_manual_map(&img, &bytes).is_none());
}

#[test]
fn gen_base_address_is_aligned_and_in_range() {
    for _ in 0..100 {
        let b = gen_base_address();
        assert!(BASE_ADDRESS_LOW <= b && b < BASE_ADDRESS_HIGH);
        assert_eq!(b % 0x1000, 0);
    }
    assert_eq!(BASE_ADDRESS_LOW, (0x31337 >> 12) << 12);
    assert_eq!(BASE_ADDRESS_HIGH, (0x564bb8db1000u64 >> 12) << 12);
}

fn header(entry: u64) -> ElfHeader {
    ElfHeader { is_64: true, entry_point: entry, ph_offset: 64, ph_entry_size: 56, ph_count: 9 }
}

#[test]
fn finish_static_fixed_image() {
    let mut aux = Auxvt::new(0, 0, 0, 0, 0, 77, 3);
    let r = finish_manual_map(&header(0x401000), false, 0x400000, false, None, &mut aux);
    assert_eq!(r, (0x401000, None));
    assert_eq!((aux.base_interp, aux.base_phdr, aux.sz_phdr_entry, aux.n, aux.ep, aux.target_name, aux.fd), (0, 0x400040, 56, 9, 0x801000, 77, 3));
}

#[test]
fn finish_pie_image() {
    let mut aux = Auxvt::new_null();
    let r = finish_manual_map(&header(0x1040), true, 0x5000_0000, false, None, &mut aux);
    assert_eq!(r, (0x5000_1040, None));
    assert_eq!(aux.ep, 0x5000_1040);
    assert_eq!(aux.base_phdr, 0x5000_0040);
}

#[test]
fn finish_with_interpreter() {
    let mut aux = Auxvt::new_null();
    let r = finish_manual_map(&header(0x1040), true, 0x5000_0000, false, Some((0x1100, 0x7000_0000)), &mut aux);
    assert_eq!(r, (0x7000_1100, None));
    assert_eq!(aux.base_interp, 0x7000_0000);
    assert_eq!(aux.ep, 0x5000_1040);
}

#[test]
fn finish_of_interpreter_itself() {
    let mut aux = Auxvt::new_null();
    let r = finish_manual_map(&header(0x1100), true, 0x7000_0000, true, None, &mut aux);
    assert_eq!(r, (0x1100, Some(0x7000_0000)));
    assert_eq!(aux.base_interp, 0);
}

#[test]
fn check_finish_overflow() {
    assert!(check_finish(&header(0x1000), 0x1000, false, None));
    assert!(!check_finish(&header(u64::MAX), 1, false, None));
    assert!(!check_finish(&header(0), 0x1000, false, Some((u64::MAX, 1))));
    assert!(check_finish(&header(0), 0x1000, true, Some((u64::MAX, 1))));
}

#[test]
fn build_stack_without_interpreter() {
    let aux = Auxvt::new(0, 0x400040, 56, 9, 0x401000, 0x9999, 3);
    let args = vec![0xa0, 0xa1, 0xa2, 0xe0, 0xe1];
    let st = build_stack(&aux, &args, 3, 0x5555, 0x6666);
    let expected: Vec<u64> = vec![
        2, 0xa1, 0xa2, 0, 0xe0, 0xe1, 0,
        3, 0x400040, 4, 56, 5, 9, 9, 0x401000,
        11, 1000, 12, 1000, 13, 1000, 14, 1000,
        31, 0x9999, 25, 0x5555, 15, 0x6666,
    ];
    assert_eq!(st, expected);
    assert_eq!(st.len(), args.len() + 24);
}

#[test]
fn build_stack_with_interpreter() {
    let aux = Auxvt::new(0x7000_0000, 0x40, 56, 2, 0x1040, 0x9999, 3);
    let args = vec![0xa0, 0xa1];
    let st = build_stack(&aux, &args, 2, 1, 2);
    assert_eq!(st.len(), args.len() + 26);
    assert_eq!(&st[..5], &[1, 0xa1, 0, 0, AT_SYSINFO_EHDR]);
    assert_eq!(st[5], 0x7000_0000);
    assert_eq!(st[6], AT_PHDR);
    assert_eq!(st[st.len() - 2], AT_PLATFORM);
    assert_eq!(st[st.len() - 1], 2);
}

#[test]
fn build_stack_single_argument() {
    let aux = Auxvt::new_null();
    let st = build_stack(&aux, &vec![0xa0], 1, 0, 0);
    assert_eq!(&st[..3], &[0, 0, 0]);
    assert_eq!(st.len(), 25);
}

#[test]
fn plan_ptload_near_the_sign_bit() {
    let s = seg(SegmentKind::Load, 4, 0, 0x7fff_ffff_ffff_f800, 0x10, 0x10);
    let p = plan_ptload(&s, false, 0);
    assert_eq!(p.addr, 0x7fff_ffff_ffff_f000);
    assert_eq!(p.len, 0xfff);
}

#[test]
fn parse_elf_from_unaligned_slice() {
    let bytes = elf64(0x1040, &[(1, 5, 0, 0, 0x100, 0x2000)]);
    let mut shifted = vec![0u8; 1];
    shifted.extend_from_slice(&bytes);
    let img = parse_elf(&shifted[1..]).unwrap();
    assert_eq!(img.header.entry_point, 0x1040);
    assert_eq!(img.segments[0], seg(SegmentKind::Load, 5, 0, 0, 0x100, 0x2000));
}

#[test]
fn parse_elf_rejects_misaligned_records() {
    let mut bytes = elf64(0, &[(1, 5, 0, 0, 0x100, 0x100)]);
    put64(&mut bytes, 32, 65);
    assert!(parse_elf(&bytes).is_none());
    let mut bytes = elf64(0, &[(1, 5, 0, 0, 0x100, 0x100), (1, 5, 0, 0, 0x100, 0x100)]);
    put16(&mut bytes, 54, 60);
    assert!(parse_elf(&bytes).is_none());
    // a single record needs no aligned record size
    let mut bytes = elf64(0, &[(1, 5, 0, 0, 0x100, 0x100)]);
    put16(&mut bytes, 54, 60);
    assert!(parse_elf(&bytes).is_some());
}

#[test]
fn base_from_draw_clears_low_bits() {
    assert_eq!(base_from_draw(0x31000), 0x31000);
    assert_eq!(base_from_draw(0x12345678), 0x12345000);
    assert_eq!(base_from_draw(0x564bb8db0fff), 0x564bb8db0000);
}


#[test]
fn plan_manual_map_at_depends_on_the_base() {
    let bytes = elf64(0x1040, &[(1, 5, 0, 0, 0x100, 0x100), (1, 6, 0, 0xffff_ffff_fffb_0000, 0x10, 0x10)]);
    let img = parse_elf(&bytes).unwrap();
    let low = plan_manual_map_at(&img, &bytes, true, 0x31000).unwrap();
    assert_eq!(low.base_address, 0x31000);
    assert!(low.is_rel);
    assert_eq!(low.steps.len(), 2);
    match &low.steps[1] {
        MapStep::Load(m) => assert_eq!(m.addr, 0xffff_ffff_fffe_1000),
        _ => panic!("second step is not a mapping"),
    }
    assert!(plan_manual_map_at(&img, &bytes, true, 0x564bb8db0000).is_none());
    let invalid = elf64(0, &[(0x1234, 0, 0, 0x1000, 0, 0)]);
    let img = parse_elf(&invalid).unwrap();
    assert!(plan_manual_map_at(&img, &invalid, false, 0x1000).is_none());
}

#[test]
fn build_stack_without_any_argument_pointer() {
    let aux = Auxvt::new_null();
    let st = build_stack(&aux, &vec![], 1, 0x11, 0x22);
    assert_eq!(&st[..4], &[0, 0, 0, AT_PHDR]);
    assert_eq!(st.len(), 25);
    assert_eq!(st[st.len() - 1], 0x22);
}
