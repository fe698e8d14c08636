//! Bitfields: which share a storage unit, and how each is read and written.
use vstd::prelude::*;

use crate::ast::{Attr, ImplItem, ImplItemView, StructField, StructFieldView};
use crate::helpers;
use crate::helpers::BlobTyBuilder;
use crate::ir::{BindgenContext, Field, Layout};
use crate::names;
use crate::names::{cat, numbered};
use crate::types;

verus! {

/// The width of a bitfield.
pub open spec fn width(field: Field) -> nat {
    field.bitfield->0 as nat
}

/// The width of the first `n` bitfields of a run together.
pub open spec fn bits_before(run: Seq<Field>, n: int) -> nat
    decreases n,
{
    if n <= 0 {
        0
    } else {
        bits_before(run, n - 1) + width(run[n - 1])
    }
}

/// The least of `w`, `2 * w`, `4 * w` and so on that is at least `bits`.
pub open spec fn doubled_to(w: nat, bits: nat) -> nat
    decreases
            (if w < bits {
                bits - w
            } else {
                0
            }),
{
    if w == 0 || bits <= w {
        w
    } else {
        doubled_to(2 * w, bits)
    }
}

/// The width of the storage unit for that many bits: a power of two, and at
/// least a byte.
pub open spec fn unit_bits(bits: nat) -> nat {
    doubled_to(8, bits)
}

/// The layout of the storage unit of a run.
pub open spec fn unit_layout(run: Seq<Field>) -> Layout {
    let bytes = (unit_bits(bits_before(run, run.len() as int)) / 8) as usize;
    Layout { size: bytes, align: bytes }
}

/// The bits that a bitfield takes in its storage unit.
pub open spec fn field_mask(width: u32, offset: u32) -> usize {
    (((1usize << width) - 1) as usize) << offset
}

/// The name of a bitfield: its own, or one that says where it starts.
pub open spec fn field_name(field: Field, offset: nat) -> Seq<char> {
    match field.name {
        Some(name) => name@,
        None => "at_offset_"@ + names::decimal_digits(offset),
    }
}

/// The name of the storage unit with the given number.
pub open spec fn unit_name(index: nat) -> Seq<char> {
    "_bitfield_"@ + names::decimal_digits(index)
}

/// The field that stores a run of bitfields.
pub open spec fn unit_field(run: Seq<Field>, index: nat) -> StructFieldView {
    StructFieldView {
        name: unit_name(index),
        is_pub: true,
        attrs: seq![],
        ty: helpers::blob_ty(unit_layout(run)),
    }
}

/// The layout of the type of a bitfield.
pub open spec fn declared_layout(ctx: BindgenContext, field: Field) -> Layout {
    ctx.ty(field.ty).layout->0
}

/// What reads the bitfield at `k` of a run.
pub open spec fn getter(ctx: BindgenContext, run: Seq<Field>, index: nat, k: int) -> ImplItemView {
    ImplItemView::BitfieldGetter {
        name: ctx.mangle(field_name(run[k], bits_before(run, k))),
        prefix: ctx.trait_prefix@,
        field_ty: types::rust_ty(ctx, run[k].ty).ty,
        unit: unit_name(index),
        unit_ty: helpers::blob_ty(unit_layout(run)),
        int_ty: helpers::blob_ty(declared_layout(ctx, run[k])),
        mask: field_mask(run[k].bitfield->0, bits_before(run, k) as u32),
        offset: bits_before(run, k) as u32,
    }
}

/// What writes the bitfield at `k` of a run.
pub open spec fn setter(ctx: BindgenContext, run: Seq<Field>, index: nat, k: int) -> ImplItemView {
    ImplItemView::BitfieldSetter {
        name: "set_"@ + field_name(run[k], bits_before(run, k)),
        field_ty: types::rust_ty(ctx, run[k].ty).ty,
        unit: unit_name(index),
        unit_ty: helpers::blob_ty(unit_layout(run)),
        int_ty: helpers::blob_ty(declared_layout(ctx, run[k])),
        mask: field_mask(run[k].bitfield->0, bits_before(run, k) as u32),
        offset: bits_before(run, k) as u32,
    }
}

/// What reads and writes the first `n` bitfields of a run.
pub open spec fn unit_methods(ctx: BindgenContext, run: Seq<Field>, index: nat, n: int) -> Seq<
    ImplItemView,
>
    decreases n,
{
    if n <= 0 {
        seq![]
    } else {
        unit_methods(ctx, run, index, n - 1) + seq![
            getter(ctx, run, index, n - 1),
            setter(ctx, run, index, n - 1),
        ]
    }
}

/// Whether complex numbers occur in the type of one of a list of fields.
pub open spec fn fields_complex(ctx: BindgenContext, fields: Seq<Field>) -> bool {
    exists|k: int| 0 <= k < fields.len() && types::rust_ty(ctx, (#[trigger] fields[k]).ty).complex
}

/// Whether a field can be generated as a bitfield: it is one, it fits a
/// machine word, and its type has a Rust type and a known layout.
pub open spec fn bitfield_ok(ctx: BindgenContext, field: Field) -> bool {
    &&& field.bitfield matches Some(w) && w < usize::BITS
    &&& ctx.is_type(field.ty)
    &&& ctx.converts(field.ty)
    &&& ctx.ty(field.ty).layout matches Some(layout) && layout.size * 8 <= usize::MAX
}

/// Whether a run of bitfields can share a storage unit: each starts within
/// the machine word.
pub open spec fn run_ok(ctx: BindgenContext, run: Seq<Field>) -> bool {
    &&& forall|k: int| 0 <= k < run.len() ==> bitfield_ok(ctx, #[trigger] run[k])
    &&& forall|k: int| 0 <= k < run.len() ==> #[trigger] bits_before(run, k) < usize::BITS
}

/// The fields that a list of references refers to.
pub open spec fn fields_of(refs: Seq<&Field>) -> Seq<Field> {
    Seq::new(refs.len(), |k: int| *refs[k])
}

/// A storage unit: its number in the struct, and the bitfields it stores.
pub struct Bitfield<'a> {
    pub index: usize,
    pub fields: Vec<&'a Field>,
}

/// The width of the storage unit for that many bits.
fn unit_width(bits: u32) -> (w: u32)
    requires
        bits <= 0x8000_0000,
    ensures
        w == unit_bits(bits as nat),
        w >= 8,
        w % 8 == 0,
{
    let mut w: u32 = 8;
    assert(8u32 & 7u32 == 0) by (bit_vector);
    while w < bits
        invariant
            8 <= w <= 0x8000_0000,
            bits <= 0x8000_0000,
            w % 8 == 0,
            w < 0x8000_0000 ==> w <= 0x4000_0000,
            power_of_two(w),
            unit_bits(bits as nat) == doubled_to(w as nat, bits as nat),
        decreases 0x8000_0000 - w,
    {
        proof {
            assert(w <= 0x4000_0000);
            lemma_double(w);
        }
        w = 2 * w;
    }
    w
}

spec fn power_of_two(w: u32) -> bool {
    w & ((w - 1) as u32) == 0
}

proof fn lemma_double(w: u32)
    requires
        8 <= w <= 0x4000_0000,
        power_of_two(w),
    ensures
        power_of_two((2 * w) as u32),
        2 * w < 0x8000_0000 ==> 2 * w <= 0x4000_0000,
        (2 * w) % 8 == 0,
{
    assert((2 * w) as u32 & (((2 * w) as u32 - 1) as u32) == 0) by (bit_vector)
        requires
            8 <= w <= 0x4000_0000,
            w & ((w - 1) as u32) == 0,
    ;
    assert(2 * w < 0x8000_0000 ==> 2 * w <= 0x4000_0000) by (bit_vector)
        requires
            8 <= w <= 0x4000_0000,
            w & ((w - 1) as u32) == 0,
    ;
    assert((2 * w) % 8 == 0) by (bit_vector)
        requires
            8 <= w <= 0x4000_0000,
            w & ((w - 1) as u32) == 0,
    ;
}

/// The bits that a bitfield takes in its storage unit.
fn mask_of(width: u32, offset: u32) -> (mask: usize)
    requires
        width < usize::BITS,
        offset < usize::BITS,
    ensures
        mask == field_mask(width, offset),
{
    assert((1usize << width) >= 1) by (bit_vector)
        requires
            width < usize::BITS,
    ;
    ((1usize << width) - 1) << offset
}

impl<'a> Bitfield<'a> {
    pub fn new(index: usize, fields: Vec<&'a Field>) -> (b: Bitfield<'a>)
        ensures
            b.index == index,
            b.fields == fields,
    {
        Bitfield { index, fields }
    }

    /// Adds the field that stores the bitfields, and the functions that read
    /// and write them.
    pub fn codegen_fields(
        self,
        ctx: &BindgenContext,
        fields: &mut Vec<StructField>,
        methods: &mut Vec<ImplItem>,
        complex: &mut bool,
    )
        requires
            ctx.ids_wf(),
            run_ok(*ctx, fields_of(self.fields@)),
        ensures
            final(fields).deep_view() == old(fields).deep_view().push(
                unit_field(fields_of(self.fields@), self.index as nat),
            ),
            final(methods).deep_view() == old(methods).deep_view() + unit_methods(
                *ctx,
                fields_of(self.fields@),
                self.index as nat,
                self.fields@.len() as int,
            ),
            *final(complex) == (*old(complex) || fields_complex(*ctx, fields_of(self.fields@))),
    {
        let ghost run = fields_of(self.fields@);
        let count = self.fields.len();
        let mut total_width: u32 = 0;
        let mut i: usize = 0;
        while i < count
            invariant
                0 <= i <= count,
                count == self.fields@.len(),
                run == fields_of(self.fields@),
                run_ok(*ctx, run),
                total_width == bits_before(run, i as int),
                total_width <= 128,
            decreases count - i,
        {
            assert(bitfield_ok(*ctx, run[i as int]));
            assert(bits_before(run, i as int) < usize::BITS);
            let w = self.fields[i].bitfield.unwrap();
            total_width = total_width + w;
            i += 1;
        }
        let unit_width = unit_width(total_width);
        let bytes = unit_width as usize / 8;
        let unit_ty = BlobTyBuilder::new(Layout::new(bytes, bytes)).build();
        assert(unit_ty@ == helpers::blob_ty(unit_layout(run)));
        let unit = numbered("_bitfield_", self.index);
        let ghost fields_before = fields.deep_view();
        let attrs: Vec<Attr> = Vec::new();
        assert(attrs.deep_view() =~= seq![]);
        fields.push(StructField { name: unit.clone(), is_pub: true, attrs, ty: unit_ty.clone() });
        assert(fields.deep_view() =~= fields_before.push(unit_field(run, self.index as nat)));

        let ghost methods_before = methods.deep_view();
        let mut offset: u32 = 0;
        let mut k: usize = 0;
        assert(methods.deep_view() =~= methods_before + unit_methods(
            *ctx,
            run,
            self.index as nat,
            0,
        ));
        while k < count
            invariant
                0 <= k <= count,
                count == self.fields@.len(),
                run == fields_of(self.fields@),
                run_ok(*ctx, run),
                ctx.ids_wf(),
                offset == bits_before(run, k as int),
                offset <= 128,
                unit@ == unit_name(self.index as nat),
                unit_ty@ == helpers::blob_ty(unit_layout(run)),
                methods.deep_view() == methods_before + unit_methods(
                    *ctx,
                    run,
                    self.index as nat,
                    k as int,
                ),
                *complex == (*old(complex) || exists|j: int|
                    0 <= j < k && types::rust_ty(*ctx, (#[trigger] run[j]).ty).complex),
            decreases count - k,
        {
            assert(bitfield_ok(*ctx, run[k as int]));
            assert(bits_before(run, k as int) < usize::BITS);
            let field = self.fields[k];
            assert(*field == run[k as int]);
            let w = field.bitfield.unwrap();
            let name = match &field.name {
                Some(name) => name.clone(),
                None => numbered("at_offset_", offset as usize),
            };
            let layout = ctx.resolve_type(field.ty).layout.unwrap();
            let field_ty = field.ty.to_rust_ty(ctx, complex);
            let int_ty = BlobTyBuilder::new(layout).build();
            let mask = mask_of(w, offset);
            let ghost so_far = methods.deep_view();
            let read = ImplItem::BitfieldGetter {
                name: ctx.rust_mangle(name.as_str()),
                prefix: ctx.trait_prefix.clone(),
                field_ty: field_ty.clone(),
                unit: unit.clone(),
                unit_ty: unit_ty.clone(),
                int_ty: int_ty.clone(),
                mask,
                offset,
            };
            let write = ImplItem::BitfieldSetter {
                name: cat("set_", name.as_str()),
                field_ty,
                unit: unit.clone(),
                unit_ty: unit_ty.clone(),
                int_ty,
                mask,
                offset,
            };
            assert(read@ == getter(*ctx, run, self.index as nat, k as int));
            assert(write@ == setter(*ctx, run, self.index as nat, k as int));
            methods.push(read);
            methods.push(write);
            assert(methods.deep_view() =~= so_far + seq![read@, write@]);
            assert(methods.deep_view() =~= methods_before + unit_methods(
                *ctx,
                run,
                self.index as nat,
                k + 1,
            ));
            offset = offset + w;
            k += 1;
        }
    }
}

} // verus!
