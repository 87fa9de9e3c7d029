//! Page arithmetic on 4 KiB pages.

use vstd::prelude::*;
use vstd::arithmetic::div_mod::{lemma_fundamental_div_mod, lemma_mod_multiples_vanish, lemma_small_mod};

verus! {

/// The size of a page.
pub const PAGE_SIZE: u64 = 0x1000;

/// First address of the page that holds `x`.
pub open spec fn spec_page_begin(x: int) -> int {
    x - x % (PAGE_SIZE as int)
}

/// Offset of `x` inside its page.
pub open spec fn spec_page_offset(x: int) -> int {
    x % (PAGE_SIZE as int)
}

/// Last address of the page that holds `x`.
pub open spec fn spec_round_page(x: int) -> int {
    spec_page_begin(x) + 0xfff
}

/// The first address of the page that holds `x`.
pub fn page_begin(x: u64) -> (r: u64)
    ensures
        r == spec_page_begin(x as int),
        r % PAGE_SIZE == 0,
        r <= x,
        x - r < PAGE_SIZE,
{
    assert(x & !0xfffu64 == x - x % 0x1000) by (bit_vector);
    x & !0xfff
}

/// The offset of `x` inside its page.
pub fn page_offset(x: u64) -> (r: u64)
    ensures
        r == spec_page_offset(x as int),
        r < PAGE_SIZE,
{
    assert(x & 0xfffu64 == x % 0x1000) by (bit_vector);
    x & 0xfff
}

/// The last address of the page that holds `x`, that is the first address of
/// that page plus `0xfff`.
pub fn round_page(x: u64) -> (r: u64)
    ensures
        r == spec_round_page(x as int),
        r % PAGE_SIZE == 0xfff,
        x <= r,
        r - x < PAGE_SIZE,
{
    assert(x | 0xfffu64 == (x - x % 0x1000) + 0xfff) by (bit_vector);
    x | 0xfff
}

/// An address is the first address of its page plus its offset in the page,
/// and the last address of its page is the first plus `0xfff`.
pub proof fn lemma_page_split(x: u64)
    ensures
        spec_page_begin(x as int) + spec_page_offset(x as int) == x,
        spec_round_page(x as int) == spec_page_begin(x as int) + 0xfff,
        spec_page_begin(x as int) % (PAGE_SIZE as int) == 0,
        spec_page_begin(spec_page_begin(x as int)) == spec_page_begin(x as int),
{
}

/// Every address is the first address of a page, a multiple of the page
/// size, plus its offset in that page.
pub proof fn lemma_page_decompose(x: int)
    ensures
        spec_page_begin(x) == PAGE_SIZE * (x / PAGE_SIZE as int),
        0 <= spec_page_offset(x) < PAGE_SIZE,
{
    lemma_fundamental_div_mod(x, PAGE_SIZE as int);
}

/// The page of a multiple of the page size plus an offset inside a page
/// begins at that multiple.
pub proof fn lemma_page_begin_of_offset(k: int, r: int)
    requires
        0 <= r < PAGE_SIZE,
    ensures
        spec_page_begin(PAGE_SIZE * k + r) == PAGE_SIZE * k,
        spec_page_offset(PAGE_SIZE * k + r) == r,
{
    lemma_mod_multiples_vanish(k, r, PAGE_SIZE as int);
    lemma_small_mod(r as nat, PAGE_SIZE as nat);
}

} // verus!
