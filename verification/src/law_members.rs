//! Where the declared fields of a struct or a union go: which bitfields share
//! a storage unit, where in it each is read and written, and what every other
//! field becomes.
use vstd::arithmetic::power2::pow2;
use vstd::prelude::*;

use crate::ast::{AttrView, ImplItemView, StructFieldView, TyView};
use crate::bitfield;
use crate::bits;
use crate::comp;
use crate::comp::Members;
use crate::helpers;
use crate::ir::{BindgenContext, CompKind, Field, FieldAccessorKind, Item, Layout};
use crate::law_types;
use crate::types;
use crate::words;

verus! {

/// Where a declared field goes.
pub struct Place {
    /// How many storage units there are up to here, its own included.
    pub unit: nat,
    /// The position of the first bitfield of its storage unit, if it is a
    /// bitfield.
    pub first: int,
    /// Where in its storage unit it starts, if it is a bitfield.
    pub offset: nat,
    /// The position of its field, or of the one that is its storage unit.
    pub at: nat,
    /// The position of its first accessor, if it has any.
    pub accessor: nat,
    /// How many fields that are no bitfields and have no name there are up to
    /// here, itself included.
    pub unnamed: nat,
}

/// The declared fields of a compound type.
pub open spec fn declared(item: Item) -> Seq<Field> {
    item.kind->Type_0.kind->Comp_0.fields@
}

/// The size in bits of the type that a field is declared with.
pub open spec fn declared_bits(ctx: BindgenContext, field: Field) -> int {
    8 * ctx.ty(field.ty).layout->0.size
}

/// Whether the bitfield at `k` shares the storage unit that the bitfield at
/// `first` starts and that the field before it is in: the two fit the type
/// that the first is declared with.
pub open spec fn shares(ctx: BindgenContext, fields: Seq<Field>, first: int, k: int) -> bool {
    &&& 0 <= first < k < fields.len()
    &&& fields[k - 1].bitfield is Some
    &&& fields[k].bitfield is Some
    &&& fields[first].bitfield->0 + fields[k].bitfield->0 <= declared_bits(ctx, fields[first])
}

/// Which accessors a field is annotated to get, by itself or by the compound
/// type it is in.
pub open spec fn asked_accessors(item: Item, field: Field) -> FieldAccessorKind {
    if field.annotations.accessor_kind is Some {
        field.annotations.accessor_kind->0
    } else if item.annotations.accessor_kind is Some {
        item.annotations.accessor_kind->0
    } else {
        FieldAccessorKind::Neither
    }
}

/// How many accessors a field gets: two for a bitfield, and for any other as
/// its annotations ask for.
pub open spec fn accessor_count(item: Item, field: Field) -> nat {
    if field.bitfield is Some {
        2
    } else {
        match asked_accessors(item, field) {
            FieldAccessorKind::Neither => 0,
            FieldAccessorKind::Immutable => 1,
            FieldAccessorKind::Regular | FieldAccessorKind::Unsafe => 2,
        }
    }
}

/// The storage units before the field at `k`.
pub open spec fn units_before(place: Seq<Place>, k: int) -> nat {
    if k <= 0 {
        0
    } else {
        place[k - 1].unit
    }
}

/// The first position that no field before `k` takes.
pub open spec fn fields_before(place: Seq<Place>, k: int) -> nat {
    if k <= 0 {
        0
    } else {
        place[k - 1].at + 1
    }
}

/// The first position that no accessor of a field before `k` takes.
pub open spec fn accessors_before(item: Item, place: Seq<Place>, k: int) -> nat {
    if k <= 0 {
        0
    } else {
        place[k - 1].accessor + accessor_count(item, declared(item)[k - 1])
    }
}

/// The fields before `k` that are no bitfields and have no name.
pub open spec fn unnamed_before(place: Seq<Place>, k: int) -> nat {
    if k <= 0 {
        0
    } else {
        place[k - 1].unnamed
    }
}

/// Whether the field at `k` is placed after the one before it: a bitfield
/// right behind the ones whose storage unit it shares, or at the start of a
/// new unit, and any other field by itself.
pub open spec fn is_placed(
    ctx: BindgenContext,
    item: Item,
    place: Seq<Place>,
    k: int,
) -> bool {
    let fields = declared(item);
    let p = place[k];
    &&& p.accessor == accessors_before(item, place, k)
    &&& if fields[k].bitfield is Some {
        &&& p.unnamed == unnamed_before(place, k)
        &&& if k > 0 && shares(ctx, fields, place[k - 1].first, k) {
            &&& p.unit == place[k - 1].unit
            &&& p.first == place[k - 1].first
            &&& p.offset == place[k - 1].offset + fields[k - 1].bitfield->0
            &&& p.at == place[k - 1].at
        } else {
            &&& p.unit == units_before(place, k) + 1
            &&& p.first == k
            &&& p.offset == 0
            &&& p.at == fields_before(place, k)
        }
    } else {
        &&& p.unit == units_before(place, k)
        &&& p.at == fields_before(place, k)
        &&& p.unnamed == unnamed_before(place, k) + (if fields[k].name is None {
            1nat
        } else {
            0nat
        })
    }
}

/// Whether every declared field is placed.
pub open spec fn is_placement(ctx: BindgenContext, item: Item, place: Seq<Place>) -> bool {
    &&& place.len() == declared(item).len()
    &&& forall|k: int| 0 <= k < place.len() ==> #[trigger] is_placed(ctx, item, place, k)
}

/// Whether a type is a storage unit for so many bits: an integer of the least
/// power of two of bytes that holds them.
pub open spec fn is_storage(ty: TyView, bits: nat) -> bool {
    exists|e: nat|
        bits <= 8 * #[trigger] pow2(e) && (e == 0 || 4 * pow2(e) < bits) && law_types::fills(
            ty,
            Layout { size: pow2(e) as usize, align: pow2(e) as usize },
        )
}

/// Whether a mask covers just the bits from `offset` on, as many as `width`,
/// as far as a machine word reaches.
pub open spec fn covers(mask: usize, offset: nat, width: nat) -> bool {
    forall|i: u32|
        i < usize::BITS ==> ((#[trigger] (mask >> i)) & 1 == 1 <==> offset <= i < offset + width)
}

/// The name that a bitfield is read by: its own, or one that says where it
/// starts.
pub open spec fn is_bitfield_name(field: Field, offset: nat, name: Seq<char>) -> bool {
    match field.name {
        Some(given) => name == given@,
        None => words::is_numbered(name, "at_offset_"@, offset),
    }
}

/// Whether the bitfield at `k` is read and written where it is placed.
pub open spec fn bitfield_shown(
    ctx: BindgenContext,
    item: Item,
    place: Seq<Place>,
    k: int,
    fields: Seq<StructFieldView>,
    accessors: Seq<ImplItemView>,
    base: int,
) -> bool {
    let field = declared(item)[k];
    let p = place[k];
    let width = field.bitfield->0 as nat;
    let unit = fields[base + p.at];
    let getter = accessors[p.accessor as int];
    let setter = accessors[p.accessor as int + 1];
    &&& words::is_numbered(unit.name, "_bitfield_"@, p.unit)
    &&& unit.is_pub
    &&& unit.attrs.len() == 0
    &&& !shares(ctx, declared(item), p.first, k + 1) ==> is_storage(unit.ty, p.offset + width)
    &&& getter is BitfieldGetter
    &&& getter->BitfieldGetter_unit == unit.name
    &&& getter->BitfieldGetter_unit_ty == unit.ty
    &&& getter->BitfieldGetter_offset == p.offset
    &&& getter->BitfieldGetter_field_ty == types::rust_ty(ctx, field.ty).ty
    &&& getter->BitfieldGetter_prefix == ctx.trait_prefix@
    &&& law_types::fills(getter->BitfieldGetter_int_ty, ctx.ty(field.ty).layout->0)
    &&& setter is BitfieldSetter
    &&& setter->BitfieldSetter_unit == unit.name
    &&& setter->BitfieldSetter_unit_ty == unit.ty
    &&& setter->BitfieldSetter_offset == p.offset
    &&& setter->BitfieldSetter_field_ty == types::rust_ty(ctx, field.ty).ty
    &&& law_types::fills(setter->BitfieldSetter_int_ty, ctx.ty(field.ty).layout->0)
    &&& covers(getter->BitfieldGetter_mask, p.offset, width)
    &&& covers(setter->BitfieldSetter_mask, p.offset, width)
    &&& exists|name: Seq<char>| #[trigger]
        is_bitfield_name(field, p.offset, name) && getter->BitfieldGetter_name == ctx.mangle(name)
            && setter->BitfieldSetter_name == "set_"@ + name
}

/// Whether an accessor returns a reference to the given field.
pub open spec fn is_accessor(
    got: ImplItemView,
    field: StructFieldView,
    name: Seq<char>,
    is_unsafe: bool,
    mutable: bool,
) -> bool {
    &&& got is FieldAccessor
    &&& got->FieldAccessor_name == name
    &&& got->FieldAccessor_field == field.name
    &&& got->FieldAccessor_ty == field.ty
    &&& got->FieldAccessor_is_unsafe == is_unsafe
    &&& got->FieldAccessor_mutable == mutable
}

/// Whether the field at `k`, which is no bitfield, is where it is placed: of
/// its name, or numbered if it has none, of its Rust type, which a union that
/// is emulated wraps, and as visible and accessible as it is annotated.
pub open spec fn member_shown(
    ctx: BindgenContext,
    item: Item,
    place: Seq<Place>,
    k: int,
    fields: Seq<StructFieldView>,
    accessors: Seq<ImplItemView>,
    base: int,
) -> bool {
    let field = declared(item)[k];
    let p = place[k];
    let got = fields[base + p.at];
    let is_unsafe = asked_accessors(item, field) == FieldAccessorKind::Unsafe;
    &&& match field.name {
        Some(given) => words::is_mangled(ctx, given@, got.name),
        None => words::is_numbered(got.name, "__bindgen_anon_"@, p.unnamed),
    }
    &&& got.is_pub <==> !(if field.annotations.private_fields is Some {
        field.annotations.private_fields->0
    } else {
        item.annotations.private_fields == Some(true)
    })
    &&& words::is_only_comment(got.attrs, field.comment)
    &&& if item.kind->Type_0.kind->Comp_0.kind == CompKind::Union && !ctx.options.unstable_rust {
        law_types::is_support_type(
            ctx,
            got.ty,
            "__BindgenUnionField"@,
            types::rust_ty(ctx, field.ty).ty,
        )
    } else {
        got.ty == types::rust_ty(ctx, field.ty).ty
    }
    &&& accessor_count(item, field) > 0 ==> is_accessor(
        accessors[p.accessor as int],
        got,
        "get_"@ + got.name,
        is_unsafe,
        false,
    )
    &&& accessor_count(item, field) > 1 ==> is_accessor(
        accessors[p.accessor as int + 1],
        got,
        "get_"@ + got.name + "_mut"@,
        is_unsafe,
        true,
    )
}

/// Whether the field at `k` is shown where it is placed.
pub open spec fn is_shown(
    ctx: BindgenContext,
    item: Item,
    place: Seq<Place>,
    k: int,
    fields: Seq<StructFieldView>,
    accessors: Seq<ImplItemView>,
    base: int,
) -> bool {
    &&& base + place[k].at < fields.len()
    &&& place[k].accessor + accessor_count(item, declared(item)[k]) <= accessors.len()
    &&& if declared(item)[k].bitfield is Some {
        bitfield_shown(ctx, item, place, k, fields, accessors, base)
    } else {
        member_shown(ctx, item, place, k, fields, accessors, base)
    }
}

/// Whether the first fields are placed and shown, as many as are placed.
spec fn shows_prefix(
    ctx: BindgenContext,
    item: Item,
    place: Seq<Place>,
    got: Members,
    base: int,
) -> bool {
    let n = place.len() as int;
    let fields = declared(item);
    &&& 0 <= base
    &&& n <= fields.len()
    &&& got.fields.len() == base + fields_before(place, n)
    &&& got.methods.len() == accessors_before(item, place, n)
    &&& got.units == units_before(place, n)
    &&& got.anons == unnamed_before(place, n)
    &&& n > 0 ==> !shares(ctx, fields, place[n - 1].first, n)
    &&& forall|k: int| 0 <= k < n ==> #[trigger] is_placed(ctx, item, place, k)
    &&& forall|k: int|
        0 <= k < n ==> #[trigger] is_shown(ctx, item, place, k, got.fields, got.methods, base)
}

/// What is shown stays shown where more is added.
proof fn lemma_still_shown(
    ctx: BindgenContext,
    item: Item,
    place: Seq<Place>,
    more: Seq<Place>,
    a: Members,
    b: Members,
    base: int,
)
    requires
        shows_prefix(ctx, item, place, a, base),
        place.len() <= more.len(),
        forall|k: int| 0 <= k < place.len() ==> #[trigger] more[k] == place[k],
        a.fields.len() <= b.fields.len(),
        a.methods.len() <= b.methods.len(),
        forall|k: int| 0 <= k < a.fields.len() ==> #[trigger] b.fields[k] == a.fields[k],
        forall|k: int| 0 <= k < a.methods.len() ==> #[trigger] b.methods[k] == a.methods[k],
    ensures
        forall|k: int| 0 <= k < place.len() ==> #[trigger] is_placed(ctx, item, more, k),
        forall|k: int|
            0 <= k < place.len() ==> #[trigger] is_shown(
                ctx,
                item,
                more,
                k,
                b.fields,
                b.methods,
                base,
            ),
{
    assert forall|k: int| 0 <= k < place.len() implies #[trigger] is_placed(
        ctx,
        item,
        more,
        k,
    ) by {
        assert(is_placed(ctx, item, place, k));
        assert(more[k] == place[k]);
        if k > 0 {
            assert(more[k - 1] == place[k - 1]);
        }
    }
    assert forall|k: int| 0 <= k < place.len() implies #[trigger] is_shown(
        ctx,
        item,
        more,
        k,
        b.fields,
        b.methods,
        base,
    ) by {
        assert(is_shown(ctx, item, place, k, a.fields, a.methods, base));
        assert(more[k] == place[k]);
        let p = place[k];
        assert(b.fields[base + p.at] == a.fields[base + p.at]);
        if accessor_count(item, declared(item)[k]) > 0 {
            assert(b.methods[p.accessor as int] == a.methods[p.accessor as int]);
        }
        if accessor_count(item, declared(item)[k]) > 1 {
            assert(b.methods[p.accessor as int + 1] == a.methods[p.accessor as int + 1]);
        }
    }
}

/// A field that is no bitfield is placed and shown after those before it.
proof fn lemma_member(
    ctx: BindgenContext,
    item: Item,
    place: Seq<Place>,
    got: Members,
    base: int,
) -> (more: Seq<Place>)
    requires
        shows_prefix(ctx, item, place, got, base),
        place.len() < declared(item).len(),
        declared(item)[place.len() as int].bitfield is None,
    ensures
        more.len() == place.len() + 1,
        shows_prefix(
            ctx,
            item,
            more,
            comp::with_member(ctx, got, item, declared(item)[place.len() as int]),
            base,
        ),
{
    let n = place.len() as int;
    let field = declared(item)[n];
    let after = comp::with_member(ctx, got, item, field);
    let p = Place {
        unit: units_before(place, n),
        first: n,
        offset: 0,
        at: fields_before(place, n),
        accessor: accessors_before(item, place, n),
        unnamed: unnamed_before(place, n) + (if field.name is None {
            1nat
        } else {
            0nat
        }),
    };
    let more = place.push(p);
    lemma_still_shown(ctx, item, place, more, got, after, base);
    assert(more[n] == p);
    if n > 0 {
        assert(more[n - 1] == place[n - 1]);
    }
    assert(is_placed(ctx, item, more, n));
    let shown = after.fields[base + p.at];
    assert(shown == comp::member_field(ctx, item, field, got.anons));
    if let Some(given) = field.name {
        words::law_mangle(ctx, given@);
    } else {
        words::lemma_numbered("__bindgen_anon_"@, got.anons + 1);
    }
    if field.comment is Some {
        assert(shown.attrs[0] == AttrView::Doc(field.comment->0@));
    }
    let added = comp::accessors(
        comp::accessor_kind(item, field),
        comp::member_name(ctx, field, got.anons),
        comp::member_ty(ctx, item, field),
    );
    assert(added.len() == accessor_count(item, field));
    if added.len() > 0 {
        assert(after.methods[p.accessor as int] == added[0]);
    }
    if added.len() > 1 {
        assert(after.methods[p.accessor as int + 1] == added[1]);
    }
    assert(is_shown(ctx, item, more, n, after.fields, after.methods, base));
    more
}

/// What a run of bitfields is: those that share the unit of its first, and
/// no further one.
pub proof fn lemma_run(ctx: BindgenContext, fields: Seq<Field>, s: int, e: int)
    requires
        0 <= s < e <= fields.len(),
        sizes_ok(ctx, fields),
        forall|k: int| s <= k < e ==> (#[trigger] fields[k]).bitfield is Some,
        forall|k: int| s < k < e ==> #[trigger] shares(ctx, fields, s, k),
    ensures
        ({
            let end = comp::run_end(ctx, fields, s, e);
            &&& e <= end <= fields.len()
            &&& forall|k: int| s <= k < end ==> (#[trigger] fields[k]).bitfield is Some
            &&& forall|k: int| s < k < end ==> #[trigger] shares(ctx, fields, s, k)
            &&& !shares(ctx, fields, s, end)
        }),
    decreases fields.len() - e,
{
    assert(fields[s].bitfield is Some);
    assert(fields[e - 1].bitfield is Some);
    if e < fields.len() {
        assert(comp::joins(ctx, fields[s], fields[e]) == shares(ctx, fields, s, e));
        if comp::joins(ctx, fields[s], fields[e]) {
            lemma_run(ctx, fields, s, e + 1);
        }
    }
}

/// Whether the sizes in bits of the types of bitfields can be told in 32
/// bits.
pub open spec fn sizes_ok(ctx: BindgenContext, fields: Seq<Field>) -> bool {
    forall|k: int|
        0 <= k < fields.len() && (#[trigger] fields[k]).bitfield is Some ==> declared_bits(
            ctx,
            fields[k],
        ) <= u32::MAX
}

proof fn lemma_unit_methods(ctx: BindgenContext, run: Seq<Field>, index: nat, n: int)
    requires
        0 <= n <= run.len(),
    ensures
        bitfield::unit_methods(ctx, run, index, n).len() == 2 * n,
    decreases n,
{
    if n > 0 {
        lemma_unit_methods(ctx, run, index, n - 1);
    }
}

proof fn lemma_unit_method(ctx: BindgenContext, run: Seq<Field>, index: nat, n: int, k: int)
    requires
        0 <= k < n <= run.len(),
    ensures
        bitfield::unit_methods(ctx, run, index, n).len() == 2 * n,
        bitfield::unit_methods(ctx, run, index, n)[2 * k] == bitfield::getter(
            ctx,
            run,
            index,
            k,
        ),
        bitfield::unit_methods(ctx, run, index, n)[2 * k + 1] == bitfield::setter(
            ctx,
            run,
            index,
            k,
        ),
    decreases n,
{
    lemma_unit_methods(ctx, run, index, n);
    lemma_unit_methods(ctx, run, index, n - 1);
    let before = bitfield::unit_methods(ctx, run, index, n - 1);
    let all = bitfield::unit_methods(ctx, run, index, n);
    if k < n - 1 {
        lemma_unit_method(ctx, run, index, n - 1, k);
        assert(all[2 * k] == before[2 * k]);
        assert(all[2 * k + 1] == before[2 * k + 1]);
    }
}

proof fn lemma_covers(width: u32, offset: u32)
    requires
        width < usize::BITS,
        offset < usize::BITS,
    ensures
        covers(bitfield::field_mask(width, offset), offset as nat, width as nat),
{
    let mask = bitfield::field_mask(width, offset);
    assert forall|i: u32| i < usize::BITS implies ((#[trigger] (mask >> i)) & 1 == 1 <==> offset
        <= i < offset + width) by {
        assert((((((1usize << width) - 1) as usize) << offset) >> i) & 1 == 1 <==> (offset <= i
            && i < offset + width)) by (bit_vector)
            requires
                width < usize::BITS,
                offset < usize::BITS,
                i < usize::BITS,
        ;
    }
}

proof fn lemma_storage(ctx: BindgenContext, run: Seq<Field>)
    requires
        run.len() > 0,
        bitfield::run_ok(ctx, run),
    ensures
        is_storage(
            helpers::blob_ty(bitfield::unit_layout(run)),
            bitfield::bits_before(run, run.len() as int),
        ),
{
    let n = run.len() as int;
    let bits = bitfield::bits_before(run, n);
    assert(bitfield::bitfield_ok(ctx, run[n - 1]));
    assert(bitfield::bits_before(run, n - 1) < usize::BITS);
    assert(bits < 128);
    bits::law_unit_width(bits);
    let e = choose|e: nat|
        e >= 3 && bitfield::unit_bits(bits) == #[trigger] pow2(e) && bits <= pow2(e) && (e == 3
            || pow2((e - 1) as nat) < bits);
    vstd::arithmetic::power2::lemma2_to64();
    let f = (e - 3) as nat;
    vstd::arithmetic::power2::lemma_pow2_adds(3, f);
    assert(pow2(e) == 8 * pow2(f));
    if e > 3 {
        vstd::arithmetic::power2::lemma_pow2_unfold(e);
    }
    let layout = bitfield::unit_layout(run);
    assert(pow2(e) <= 256);
    assert(layout.size == pow2(f));
    law_types::law_blob_fills(layout);
}

/// The places of a run of bitfields after the fields before it.
spec fn run_places(item: Item, place: Seq<Place>, run: Seq<Field>) -> Seq<Place> {
    let n = place.len() as int;
    Seq::new(
        run.len(),
        |j: int|
            Place {
                unit: units_before(place, n) + 1,
                first: n,
                offset: bitfield::bits_before(run, j),
                at: fields_before(place, n),
                accessor: (accessors_before(item, place, n) + 2 * j) as nat,
                unnamed: unnamed_before(place, n),
            },
    )
}

/// A run of bitfields is placed after the fields before it.
proof fn lemma_run_placed(
    ctx: BindgenContext,
    item: Item,
    place: Seq<Place>,
    run: Seq<Field>,
    k: int,
)
    requires
        ({
            let n = place.len() as int;
            let fields = declared(item);
            &&& n <= k < n + run.len() <= fields.len()
            &&& run == fields.subrange(n, n + run.len())
            &&& forall|j: int| n <= j < n + run.len() ==> (#[trigger] fields[j]).bitfield is Some
            &&& forall|j: int| n < j < n + run.len() ==> #[trigger] shares(ctx, fields, n, j)
            &&& n > 0 ==> !shares(ctx, fields, place[n - 1].first, n)
        }),
    ensures
        is_placed(ctx, item, place + run_places(item, place, run), k),
{
    let n = place.len() as int;
    let fields = declared(item);
    let added = run_places(item, place, run);
    let more = place + added;
    assert(more[k] == added[k - n]);
    assert(run[k - n] == fields[k]);
    assert(fields[k].bitfield is Some);
    if k > n {
        assert(more[k - 1] == added[k - 1 - n]);
        assert(run[k - 1 - n] == fields[k - 1]);
        assert(fields[k - 1].bitfield is Some);
        assert(shares(ctx, fields, n, k));
        assert(bitfield::bits_before(run, k - n) == bitfield::bits_before(run, k - 1 - n)
            + fields[k - 1].bitfield->0);
    } else if n > 0 {
        assert(more[n - 1] == place[n - 1]);
    }
}

/// A bitfield of a run is shown by the unit and the accessors of the run.
proof fn lemma_bitfield_shown(
    ctx: BindgenContext,
    item: Item,
    place: Seq<Place>,
    run: Seq<Field>,
    j: int,
    k: int,
    index: nat,
    fields: Seq<StructFieldView>,
    accessors: Seq<ImplItemView>,
    base: int,
)
    requires
        0 <= j < run.len(),
        bitfield::run_ok(ctx, run),
        run[j] == declared(item)[k],
        place[k].unit == index,
        place[k].offset == bitfield::bits_before(run, j),
        fields[base + place[k].at] == bitfield::unit_field(run, index),
        accessors[place[k].accessor as int] == bitfield::getter(ctx, run, index, j),
        accessors[place[k].accessor as int + 1] == bitfield::setter(ctx, run, index, j),
        j + 1 < run.len() ==> shares(ctx, declared(item), place[k].first, k + 1),
    ensures
        bitfield_shown(ctx, item, place, k, fields, accessors, base),
{
    let p = place[k];
    let field = declared(item)[k];
    assert(bitfield::bitfield_ok(ctx, run[j]));
    assert(bitfield::bits_before(run, j) < usize::BITS);
    words::lemma_numbered("_bitfield_"@, index);
    law_types::law_blob_fills(ctx.ty(field.ty).layout->0);
    lemma_covers(field.bitfield->0, p.offset as u32);
    if j + 1 == run.len() {
        assert(bitfield::bits_before(run, j + 1) == p.offset + field.bitfield->0);
        lemma_storage(ctx, run);
    }
    words::lemma_numbered("at_offset_"@, p.offset);
    assert(is_bitfield_name(field, p.offset, bitfield::field_name(field, p.offset)));
}

/// Each bitfield of a run is shown after the fields before the run.
proof fn lemma_in_unit(
    ctx: BindgenContext,
    item: Item,
    place: Seq<Place>,
    got: Members,
    base: int,
    end: int,
    k: int,
)
    requires
        0 <= base,
        place.len() <= k < end <= declared(item).len(),
        got.fields.len() == base + fields_before(place, place.len() as int),
        got.methods.len() == accessors_before(item, place, place.len() as int),
        got.units == units_before(place, place.len() as int),
        bitfield::run_ok(ctx, declared(item).subrange(place.len() as int, end)),
        declared(item)[k].bitfield is Some,
        k + 1 < end ==> shares(ctx, declared(item), place.len() as int, k + 1),
    ensures
        ({
            let run = declared(item).subrange(place.len() as int, end);
            let after = comp::with_unit(ctx, got, run);
            is_shown(
                ctx,
                item,
                place + run_places(item, place, run),
                k,
                after.fields,
                after.methods,
                base,
            )
        }),
{
    let n = place.len() as int;
    let fields = declared(item);
    let run = fields.subrange(n, end);
    let after = comp::with_unit(ctx, got, run);
    let added = run_places(item, place, run);
    let more = place + added;
    let methods = bitfield::unit_methods(ctx, run, got.units + 1, run.len() as int);
    let j = k - n;
    lemma_unit_method(ctx, run, got.units + 1, run.len() as int, j);
    assert(more[k] == added[j]);
    assert(run[j] == fields[k]);
    assert(after.fields[base + more[k].at] == bitfield::unit_field(run, got.units + 1));
    assert(after.methods[more[k].accessor as int] == methods[2 * j]);
    assert(after.methods[more[k].accessor as int + 1] == methods[2 * j + 1]);
    lemma_bitfield_shown(
        ctx,
        item,
        more,
        run,
        j,
        k,
        got.units + 1,
        after.fields,
        after.methods,
        base,
    );
}

/// A run of bitfields is placed and shown after the fields before it.
#[verifier::rlimit(40)]
#[verifier::spinoff_prover]
proof fn lemma_unit(
    ctx: BindgenContext,
    item: Item,
    place: Seq<Place>,
    got: Members,
    base: int,
    end: int,
) -> (more: Seq<Place>)
    requires
        shows_prefix(ctx, item, place, got, base),
        place.len() < end <= declared(item).len(),
        end == comp::run_end(ctx, declared(item), place.len() as int, place.len() as int + 1),
        declared(item)[place.len() as int].bitfield is Some,
        sizes_ok(ctx, declared(item)),
        bitfield::run_ok(ctx, declared(item).subrange(place.len() as int, end)),
    ensures
        more.len() == end,
        shows_prefix(
            ctx,
            item,
            more,
            comp::with_unit(ctx, got, declared(item).subrange(place.len() as int, end)),
            base,
        ),
{
    let n = place.len() as int;
    let fields = declared(item);
    let run = fields.subrange(n, end);
    let after = comp::with_unit(ctx, got, run);
    let added = run_places(item, place, run);
    let more = place + added;
    lemma_run(ctx, fields, n, n + 1);
    lemma_unit_methods(ctx, run, got.units + 1, run.len() as int);
    lemma_still_shown(ctx, item, place, more, got, after, base);
    assert forall|k: int| 0 <= k < end implies #[trigger] is_placed(ctx, item, more, k) by {
        if k >= n {
            lemma_run_placed(ctx, item, place, run, k);
        }
    }
    assert forall|k: int| 0 <= k < end implies #[trigger] is_shown(
        ctx,
        item,
        more,
        k,
        after.fields,
        after.methods,
        base,
    ) by {
        if k >= n {
            assert(fields[k].bitfield is Some);
            if k + 1 < end {
                assert(shares(ctx, fields, n, k + 1));
            }
            lemma_in_unit(ctx, item, place, got, base, end, k);
        }
    }
    assert(more[end - 1] == added[end - 1 - n]);
    assert(fields[end - 1].bitfield is Some);
    more
}

/// From the fields placed so far on, all are placed and shown.
proof fn lemma_rest(
    ctx: BindgenContext,
    item: Item,
    place: Seq<Place>,
    got: Members,
    base: int,
) -> (all: Seq<Place>)
    requires
        shows_prefix(ctx, item, place, got, base),
        sizes_ok(ctx, declared(item)),
        comp::members_ok(ctx, declared(item), place.len() as int),
    ensures
        is_placement(ctx, item, all),
        shows_prefix(
            ctx,
            item,
            all,
            comp::with_members(ctx, got, item, declared(item), place.len() as int),
            base,
        ),
    decreases declared(item).len() - place.len(),
{
    let n = place.len() as int;
    let fields = declared(item);
    if n == fields.len() {
        place
    } else if fields[n].bitfield is Some {
        comp::lemma_run_end(ctx, fields, n, n + 1);
        let end = comp::run_end(ctx, fields, n, n + 1);
        let more = lemma_unit(ctx, item, place, got, base, end);
        lemma_rest(ctx, item, more, comp::with_unit(ctx, got, fields.subrange(n, end)), base)
    } else {
        let more = lemma_member(ctx, item, place, got, base);
        lemma_rest(ctx, item, more, comp::with_member(ctx, got, item, fields[n]), base)
    }
}

/// Whether the declared fields are all that fields and accessors show, from
/// position `base` of the fields on.
pub open spec fn shows_all(
    ctx: BindgenContext,
    item: Item,
    place: Seq<Place>,
    fields: Seq<StructFieldView>,
    accessors: Seq<ImplItemView>,
    base: int,
) -> bool {
    let n = place.len() as int;
    &&& is_placement(ctx, item, place)
    &&& fields.len() == base + fields_before(place, n)
    &&& accessors.len() == accessors_before(item, place, n)
    &&& forall|k: int|
        0 <= k < n ==> #[trigger] is_shown(ctx, item, place, k, fields, accessors, base)
}

/// Every declared field of a struct or a union has its place, after the first
/// `base` fields, and is shown there, and nothing else is. A bitfield shares
/// the storage unit of the bitfields before it if and only if its width and
/// that of the first of them together are at most the size in bits of the type
/// that the first is declared with. Its accessors read and write just its
/// bits, behind those of the bitfields before it in the unit, which has as
/// many bytes as the least power of two that holds them all.
pub proof fn law_members(ctx: BindgenContext, item: Item) -> (place: Seq<Place>)
    requires
        comp::is_comp(item),
        comp::comp_ok(ctx, item),
        sizes_ok(ctx, declared(item)),
    ensures
        shows_all(
            ctx,
            item,
            place,
            comp::declared_members(ctx, item).fields,
            comp::declared_members(ctx, item).methods,
            comp::vtable_fields(ctx, item).len() as int + comp::base_fields(
                ctx,
                comp::comp(item).base_members@,
                comp::comp(item).base_members@.len() as int,
            ).len() as int,
        ),
{
    let bases = comp::comp(item).base_members@;
    let start = Members {
        fields: comp::vtable_fields(ctx, item) + comp::base_fields(
            ctx,
            bases,
            bases.len() as int,
        ),
        methods: seq![],
        units: 0,
        anons: 0,
    };
    let base = start.fields.len() as int;
    assert(shows_prefix(ctx, item, Seq::<Place>::empty(), start, base));
    lemma_rest(ctx, item, Seq::<Place>::empty(), start, base)
}

/// The places of the first `n` declared fields.
spec fn first_places(ctx: BindgenContext, item: Item, n: int) -> Seq<Place>
    decreases n,
{
    if n <= 0 {
        seq![]
    } else {
        let k = n - 1;
        let before = first_places(ctx, item, k);
        let fields = declared(item);
        let accessor = accessors_before(item, before, k);
        let alone = Place {
            unit: units_before(before, k),
            first: k,
            offset: 0,
            at: fields_before(before, k),
            accessor,
            unnamed: unnamed_before(before, k),
        };
        before.push(
            if fields[k].bitfield is None {
                Place {
                    unnamed: unnamed_before(before, k) + (if fields[k].name is None {
                        1nat
                    } else {
                        0nat
                    }),
                    ..alone
                }
            } else if k > 0 && shares(ctx, fields, before[k - 1].first, k) {
                Place {
                    offset: before[k - 1].offset + fields[k - 1].bitfield->0 as nat,
                    accessor,
                    ..before[k - 1]
                }
            } else {
                Place { unit: units_before(before, k) + 1, ..alone }
            },
        )
    }
}

proof fn lemma_first_places(ctx: BindgenContext, item: Item, n: int)
    requires
        0 <= n <= declared(item).len(),
    ensures
        first_places(ctx, item, n).len() == n,
        forall|k: int|
            0 <= k < n ==> #[trigger] is_placed(ctx, item, first_places(ctx, item, n), k),
    decreases n,
{
    if n > 0 {
        lemma_first_places(ctx, item, n - 1);
        let before = first_places(ctx, item, n - 1);
        let all = first_places(ctx, item, n);
        assert forall|k: int| 0 <= k < n implies #[trigger] is_placed(ctx, item, all, k) by {
            if k > 0 {
                assert(all[k - 1] == before[k - 1]);
            }
            if k < n - 1 {
                assert(all[k] == before[k]);
                assert(is_placed(ctx, item, before, k));
            }
        }
    }
}

/// The fields of every compound type have places.
pub proof fn law_placement(ctx: BindgenContext, item: Item) -> (place: Seq<Place>)
    ensures
        is_placement(ctx, item, place),
{
    lemma_first_places(ctx, item, declared(item).len() as int);
    first_places(ctx, item, declared(item).len() as int)
}

/// Two bitfields that do not fit the type that the first is declared with
/// together are in different storage units, and one that follows another and
/// fits is in the same.
pub proof fn law_neighbours(ctx: BindgenContext, item: Item, place: Seq<Place>, k: int)
    requires
        is_placement(ctx, item, place),
        0 < k < place.len(),
        declared(item)[k - 1].bitfield is Some,
        declared(item)[k].bitfield is Some,
        place[k - 1].first == k - 1,
    ensures
        place[k].unit == place[k - 1].unit <==> declared(item)[k - 1].bitfield->0
            + declared(item)[k].bitfield->0 <= declared_bits(ctx, declared(item)[k - 1]),
        place[k].unit == place[k - 1].unit ==> place[k].offset == declared(item)[k
            - 1].bitfield->0,
        place[k].unit != place[k - 1].unit ==> place[k].offset == 0,
{
    assert(is_placed(ctx, item, place, k));
    assert(is_placed(ctx, item, place, k - 1));
}

} // verus!
