//! What bitfield accessors do to the bits of a storage unit.
use vstd::arithmetic::power2::pow2;
use vstd::prelude::*;

use crate::ast::ImplItemView;
use crate::bitfield;
use crate::ir::{BindgenContext, Field};

verus! {

/// The low `width` bits.
pub open spec fn low_bits(width: u32) -> u64 {
    ((1usize << width) - 1) as usize as u64
}

/// What an accessor reads from a storage unit: the bits of its mask, from its
/// offset on.
pub open spec fn read_bits(accessor: ImplItemView, unit: u64) -> u64 {
    (unit & accessor->BitfieldGetter_mask as u64) >> accessor->BitfieldGetter_offset as u64
}

/// What a storage unit holds after an accessor writes `val`: the bits of its
/// mask are those of `val`, moved to its offset, and the others as before.
pub open spec fn write_bits(accessor: ImplItemView, unit: u64, val: u64) -> u64 {
    (unit & !(accessor->BitfieldSetter_mask as u64)) | ((val
        << accessor->BitfieldSetter_offset as u64) & accessor->BitfieldSetter_mask as u64)
}

/// The bits of a mask are those from its offset on, as many as its width.
pub proof fn lemma_mask_bits(width: u32, offset: u32, i: u32)
    requires
        width < usize::BITS,
        offset < usize::BITS,
        width + offset <= usize::BITS,
        i < 64,
    ensures
        (bitfield::field_mask(width, offset) as u64 >> i) & 1 == 1 <==> offset <= i < offset + width,
{
    assert((((((1usize << width) - 1) as usize) << offset) as u64 >> i) & 1 == 1 <==> (offset <= i
        && i < offset + width)) by (bit_vector)
        requires
            width < usize::BITS,
            offset < usize::BITS,
            width + offset <= usize::BITS,
            i < 64,
    ;
}

/// What is written through a mask is read through it, as far as it reaches.
proof fn lemma_read_write(width: u32, offset: u32, unit: u64, val: u64)
    requires
        width < usize::BITS,
        offset < usize::BITS,
        width + offset <= usize::BITS,
    ensures
        ({
            let mask = bitfield::field_mask(width, offset) as u64;
            (((unit & !mask) | ((val << offset as u64) & mask)) & mask) >> offset as u64 == val
                & low_bits(width)
        }),
{
    let low = ((1usize << width) - 1) as usize;
    let mask = (low << offset) as u64;
    let moved = low as u64;
    assert(mask == (moved << offset as u64) && (mask >> offset as u64) == moved) by (bit_vector)
        requires
            width < usize::BITS,
            offset < usize::BITS,
            width + offset <= usize::BITS,
            low == ((1usize << width) - 1) as usize,
            mask == (low << offset) as u64,
            moved == low as u64,
    ;
    assert((((unit & !mask) | ((val << offset as u64) & mask)) & mask) >> offset as u64 == val
        & moved) by (bit_vector)
        requires
            offset < 64,
            mask == (moved << offset as u64),
            (mask >> offset as u64) == moved,
    ;
}

/// Masks that lie apart have no bit in common.
proof fn lemma_masks_disjoint(w1: u32, o1: u32, w2: u32, o2: u32)
    requires
        w1 < usize::BITS,
        w2 < usize::BITS,
        o1 + w1 <= o2,
        o2 + w2 <= usize::BITS,
        o2 < usize::BITS,
    ensures
        bitfield::field_mask(w1, o1) as u64 & bitfield::field_mask(w2, o2) as u64 == 0,
        bitfield::field_mask(w2, o2) as u64 & bitfield::field_mask(w1, o1) as u64 == 0,
{
    let m1 = bitfield::field_mask(w1, o1);
    let m2 = bitfield::field_mask(w2, o2);
    let below = ((1usize << o2) - 1) as usize;
    assert(m1 & below == m1) by (bit_vector)
        requires
            m1 == (((1usize << w1) - 1) as usize) << o1,
            below == ((1usize << o2) - 1) as usize,
            w1 < usize::BITS,
            o1 + w1 <= o2,
            o2 < usize::BITS,
    ;
    assert(m2 & below == 0) by (bit_vector)
        requires
            m2 == (((1usize << w2) - 1) as usize) << o2,
            below == ((1usize << o2) - 1) as usize,
            w2 < usize::BITS,
            o2 < usize::BITS,
    ;
    assert((m1 as u64) & (m2 as u64) == 0 && (m2 as u64) & (m1 as u64) == 0) by (bit_vector)
        requires
            m1 & below == m1,
            m2 & below == 0,
    ;
}

/// What is written through one mask leaves alone what another reads.
proof fn lemma_read_other(mine: u64, other: u64, offset: u32, unit: u64, val: u64)
    requires
        mine & other == 0,
    ensures
        ((unit & !other) | ((val << offset as u64) & other)) & mine == unit & mine,
{
    let moved = val << offset as u64;
    assert(((unit & !other) | (moved & other)) & mine == unit & mine) by (bit_vector)
        requires
            mine & other == 0,
    ;
}

/// A bitfield starts where the ones before it end.
proof fn lemma_bits_before(run: Seq<Field>, j: int, k: int)
    requires
        0 <= j < k <= run.len(),
    ensures
        bitfield::bits_before(run, j) + bitfield::width(run[j]) <= bitfield::bits_before(run, k),
    decreases k,
{
    if j + 1 < k {
        lemma_bits_before(run, j, k - 1);
    }
}

/// Reading a bitfield gives back what was written to it: all of it, if the
/// bitfield is wide enough, else the low bits.
pub proof fn law_read_back(
    ctx: BindgenContext,
    run: Seq<Field>,
    index: nat,
    k: int,
    unit: u64,
    val: u64,
)
    requires
        bitfield::run_ok(ctx, run),
        0 <= k < run.len(),
        bitfield::bits_before(run, k + 1) <= usize::BITS,
    ensures
        ({
            let got = read_bits(
                bitfield::getter(ctx, run, index, k),
                write_bits(bitfield::setter(ctx, run, index, k), unit, val),
            );
            &&& got == val & low_bits(run[k].bitfield->0)
            &&& val <= low_bits(run[k].bitfield->0) ==> got == val
        }),
{
    let width = run[k].bitfield->0;
    let offset = bitfield::bits_before(run, k) as u32;
    assert(bitfield::bitfield_ok(ctx, run[k]));
    assert(bitfield::bits_before(run, k) < usize::BITS);
    lemma_read_write(width, offset, unit, val);
    let low = low_bits(width);
    assert(val <= low ==> val & low == val) by (bit_vector)
        requires
            width < usize::BITS,
            low == ((1usize << width) - 1) as usize as u64,
    ;
}

/// Writing a bitfield leaves the others of its storage unit as they are.
pub proof fn law_others_kept(
    ctx: BindgenContext,
    run: Seq<Field>,
    index: nat,
    j: int,
    k: int,
    unit: u64,
    val: u64,
)
    requires
        bitfield::run_ok(ctx, run),
        0 <= j < run.len(),
        0 <= k < run.len(),
        j != k,
        bitfield::bits_before(run, j + 1) <= usize::BITS,
        bitfield::bits_before(run, k + 1) <= usize::BITS,
    ensures
        read_bits(
            bitfield::getter(ctx, run, index, j),
            write_bits(bitfield::setter(ctx, run, index, k), unit, val),
        ) == read_bits(bitfield::getter(ctx, run, index, j), unit),
{
    let wj = run[j].bitfield->0;
    let wk = run[k].bitfield->0;
    let oj = bitfield::bits_before(run, j) as u32;
    let ok = bitfield::bits_before(run, k) as u32;
    assert(bitfield::bitfield_ok(ctx, run[j]));
    assert(bitfield::bitfield_ok(ctx, run[k]));
    assert(bitfield::bits_before(run, j) < usize::BITS);
    assert(bitfield::bits_before(run, k) < usize::BITS);
    if j < k {
        lemma_bits_before(run, j, k);
        lemma_masks_disjoint(wj, oj, wk, ok);
    } else {
        lemma_bits_before(run, k, j);
        lemma_masks_disjoint(wk, ok, wj, oj);
    }
    lemma_read_other(
        bitfield::field_mask(wj, oj) as u64,
        bitfield::field_mask(wk, ok) as u64,
        ok,
        unit,
        val,
    );
}

/// Writing a bitfield changes no bit of its storage unit outside it.
pub proof fn law_write_within(
    ctx: BindgenContext,
    run: Seq<Field>,
    index: nat,
    k: int,
    unit: u64,
    val: u64,
    i: u32,
)
    requires
        bitfield::run_ok(ctx, run),
        0 <= k < run.len(),
        bitfield::bits_before(run, k + 1) <= usize::BITS,
        i < 64,
        i < bitfield::bits_before(run, k) || bitfield::bits_before(run, k + 1) <= i,
    ensures
        (write_bits(bitfield::setter(ctx, run, index, k), unit, val) >> i) & 1 == (unit >> i) & 1,
{
    let width = run[k].bitfield->0;
    let offset = bitfield::bits_before(run, k) as u32;
    assert(bitfield::bitfield_ok(ctx, run[k]));
    assert(bitfield::bits_before(run, k) < usize::BITS);
    lemma_mask_bits(width, offset, i);
    let mask = bitfield::field_mask(width, offset) as u64;
    let moved = val << offset as u64;
    assert((((unit & !mask) | (moved & mask)) >> i) & 1 == (unit >> i) & 1) by (bit_vector)
        requires
            i < 64,
            (mask >> i) & 1 != 1,
    ;
}

/// Doubling reaches the least power of two that is enough.
proof fn lemma_doubled_to(e: nat, bits: nat)
    requires
        e >= 3,
        e == 3 || pow2((e - 1) as nat) < bits,
    ensures
        exists|f: nat|
            f >= 3 && bitfield::doubled_to(pow2(e), bits) == #[trigger] pow2(f) && bits <= pow2(f)
                && (f == 3 || pow2((f - 1) as nat) < bits),
    decreases
            (if pow2(e) < bits {
                bits - pow2(e)
            } else {
                0
            }),
{
    vstd::arithmetic::power2::lemma_pow2_pos(e);
    if bits <= pow2(e) {
    } else {
        vstd::arithmetic::power2::lemma_pow2_unfold(e + 1);
        lemma_doubled_to(e + 1, bits);
    }
}

/// A storage unit is as wide as the least power of two that holds all of its
/// bits, and at least a byte.
pub proof fn law_unit_width(bits: nat)
    ensures
        exists|e: nat|
            e >= 3 && bitfield::unit_bits(bits) == #[trigger] pow2(e) && bits <= pow2(e) && (e == 3
                || pow2((e - 1) as nat) < bits),
{
    vstd::arithmetic::power2::lemma2_to64();
    lemma_doubled_to(3, bits);
}

/// The storage unit of a run holds every bitfield of it.
pub proof fn law_unit_holds(ctx: BindgenContext, run: Seq<Field>, k: int)
    requires
        bitfield::run_ok(ctx, run),
        0 <= k < run.len(),
    ensures
        bitfield::bits_before(run, k + 1) <= 8 * bitfield::unit_layout(run).size,
{
    let n = run.len() as int;
    let bits = bitfield::bits_before(run, n);
    assert(bitfield::bitfield_ok(ctx, run[n - 1]));
    assert(bitfield::bits_before(run, n - 1) < usize::BITS);
    if k + 1 < n {
        lemma_bits_before(run, k + 1, n);
    }
    law_unit_width(bits);
    let e = choose|e: nat|
        e >= 3 && bitfield::unit_bits(bits) == #[trigger] pow2(e) && bits <= pow2(e) && (e == 3
            || pow2((e - 1) as nat) < bits);
    vstd::arithmetic::power2::lemma2_to64();
    vstd::arithmetic::power2::lemma_pow2_adds(3, (e - 3) as nat);
    if e > 3 {
        vstd::arithmetic::power2::lemma_pow2_unfold(e);
    }
    assert(pow2(e) % 8 == 0) by (nonlinear_arith)
        requires
            pow2(e) == 8 * pow2((e - 3) as nat),
    ;
}

} // verus!
