//! The layout that C rules give to what is generated.
use vstd::prelude::*;

use crate::ast::{StructFieldView, TyView};
use crate::comp;
use crate::helpers;
use crate::ir::{BindgenContext, CompKind, Field, Item, Layout};
use crate::support;
use crate::types;

verus! {

/// The size and the alignment of a type.
#[verifier::ext_equal]
pub struct Extent {
    pub size: nat,
    pub align: nat,
}

/// A layout as sizes.
pub open spec fn extent(layout: Layout) -> Extent {
    Extent { size: layout.size as nat, align: layout.align as nat }
}

/// The least multiple of `align` that is at least `n`.
pub open spec fn round_up(n: nat, align: nat) -> nat {
    if align == 0 || n % align == 0 {
        n
    } else {
        (n + (align - n % align)) as nat
    }
}

/// The extent of the unsigned integer types and of arrays of them.
pub open spec fn integer_extent(ty: TyView) -> Option<Extent>
    decreases ty,
{
    match ty {
        TyView::Path { global: false, segments, args } => if args.len() != 0 || segments.len()
            != 1 {
            None
        } else if segments[0] == "u8"@ {
            Some(Extent { size: 1, align: 1 })
        } else if segments[0] == "u16"@ {
            Some(Extent { size: 2, align: 2 })
        } else if segments[0] == "u32"@ {
            Some(Extent { size: 4, align: 4 })
        } else if segments[0] == "u64"@ {
            Some(Extent { size: 8, align: 8 })
        } else {
            None
        },
        TyView::Array { elem, len } => match integer_extent(*elem) {
            Some(e) => Some(Extent { size: e.size * len, align: e.align }),
            None => None,
        },
        _ => None,
    }
}

/// Whether a layout is one that an array of integers can have.
pub open spec fn is_integral(layout: Layout) -> bool {
    &&& layout.align == 1 || layout.align == 2 || layout.align == 4 || layout.align == 8
    &&& layout.size % layout.align == 0
}

/// A blob has the size and the alignment that it stands for.
pub proof fn law_blob_layout(layout: Layout)
    requires
        is_integral(layout),
    ensures
        integer_extent(helpers::blob_ty(layout)) == Some(extent(layout)),
{
    reveal_strlit("u8");
    reveal_strlit("u16");
    reveal_strlit("u32");
    reveal_strlit("u64");
    reveal_with_fuel(integer_extent, 2);
    let unit = helpers::named_ty(helpers::blob_unit(layout.align));
    assert("u8"@.len() != "u16"@.len());
    assert("u16"@[1] != "u32"@[1]);
    assert("u16"@[1] != "u64"@[1]);
    assert("u32"@[1] != "u64"@[1]);
    assert(integer_extent(unit) == Some(
        Extent { size: layout.align as nat, align: layout.align as nat },
    ));
    vstd::arithmetic::div_mod::lemma_fundamental_div_mod(
        layout.size as int,
        layout.align as int,
    );
    assert(layout.align * helpers::blob_len(layout) == layout.size);
    if helpers::blob_len(layout) != 1 {
        assert(helpers::blob_ty(layout) == helpers::array_of(unit, helpers::blob_len(layout)));
    }
}

/// The largest size among the first `n` fields.
pub open spec fn max_size(
    extents: spec_fn(TyView) -> Extent,
    fields: Seq<StructFieldView>,
    n: int,
) -> nat
    decreases n,
{
    if n <= 0 {
        0
    } else if extents(fields[n - 1].ty).size > max_size(extents, fields, n - 1) {
        extents(fields[n - 1].ty).size
    } else {
        max_size(extents, fields, n - 1)
    }
}

/// The largest alignment among the first `n` fields, and at least one.
pub open spec fn max_align(
    extents: spec_fn(TyView) -> Extent,
    fields: Seq<StructFieldView>,
    n: int,
) -> nat
    decreases n,
{
    if n <= 0 {
        1
    } else if extents(fields[n - 1].ty).align > max_align(extents, fields, n - 1) {
        extents(fields[n - 1].ty).align
    } else {
        max_align(extents, fields, n - 1)
    }
}

/// The extent of a union with the given fields, if `extents` gives those of
/// their types.
pub open spec fn union_extent(
    extents: spec_fn(TyView) -> Extent,
    fields: Seq<StructFieldView>,
) -> Extent {
    let n = fields.len() as int;
    let align = max_align(extents, fields, n);
    Extent { size: round_up(max_size(extents, fields, n), align), align }
}

/// Where the first `n` fields of a struct end.
pub open spec fn fields_end(
    extents: spec_fn(TyView) -> Extent,
    fields: Seq<StructFieldView>,
    n: int,
) -> nat
    decreases n,
{
    if n <= 0 {
        0
    } else {
        let last = extents(fields[n - 1].ty);
        round_up(fields_end(extents, fields, n - 1), last.align) + last.size
    }
}

/// The extent of a struct with the given fields, if `extents` gives those of
/// their types.
pub open spec fn struct_extent(
    extents: spec_fn(TyView) -> Extent,
    fields: Seq<StructFieldView>,
) -> Extent {
    let n = fields.len() as int;
    let align = max_align(extents, fields, n);
    Extent { size: round_up(fields_end(extents, fields, n), align), align }
}

/// Whether each field fits an extent.
pub open spec fn all_fit(
    extents: spec_fn(TyView) -> Extent,
    fields: Seq<StructFieldView>,
    whole: Extent,
) -> bool {
    forall|k: int|
        #![trigger fields[k]]
        0 <= k < fields.len() ==> extents(fields[k].ty).size <= whole.size && extents(
            fields[k].ty,
        ).align <= whole.align
}

/// Between a number that is rounded up to `whole` and `whole` itself, every
/// number is.
proof fn lemma_round_up_between(a: nat, b: nat, whole: nat, align: nat)
    requires
        align > 0,
        a <= b <= whole,
        whole % align == 0,
        round_up(a, align) == whole,
    ensures
        round_up(b, align) == whole,
{
    let q = b / align;
    let r = b % align;
    let top = whole / align;
    vstd::arithmetic::div_mod::lemma_fundamental_div_mod(b as int, align as int);
    vstd::arithmetic::div_mod::lemma_fundamental_div_mod(whole as int, align as int);
    assert(whole - align < b);
    if r == 0 {
        assert(q == top) by (nonlinear_arith)
            requires
                align > 0,
                b == align * q,
                whole == align * top,
                whole - align < b <= whole,
        ;
    } else {
        assert(q + 1 == top) by (nonlinear_arith)
            requires
                align > 0,
                0 < r < align,
                b == align * q + r,
                whole == align * top,
                whole - align < b <= whole,
        ;
        assert(align * (q + 1) == align * q + align) by (nonlinear_arith);
    }
}

/// Whether an extent is no more than the fields ask for: one of them takes
/// the size, up to padding, and one the alignment.
pub open spec fn is_reached(
    extents: spec_fn(TyView) -> Extent,
    fields: Seq<StructFieldView>,
    whole: Extent,
) -> bool {
    &&& exists|j: int|
        #![trigger fields[j]]
        0 <= j < fields.len() && round_up(extents(fields[j].ty).size, whole.align) == whole.size
    &&& exists|k: int|
        #![trigger fields[k]]
        0 <= k < fields.len() && extents(fields[k].ty).align == whole.align
}

proof fn lemma_max_reached(
    extents: spec_fn(TyView) -> Extent,
    fields: Seq<StructFieldView>,
    whole: Extent,
    n: int,
    k: int,
)
    requires
        all_fit(extents, fields, whole),
        whole.align >= 1,
        0 <= k < n <= fields.len(),
    ensures
        extents(fields[k].ty).size <= max_size(extents, fields, n) <= whole.size,
        extents(fields[k].ty).align <= max_align(extents, fields, n) <= whole.align,
    decreases n,
{
    let last = fields[n - 1];
    assert(extents(last.ty).size <= whole.size);
    if n > 1 {
        lemma_max_reached(
            extents,
            fields,
            whole,
            n - 1,
            if k < n - 1 {
                k
            } else {
                0
            },
        );
    } else {
        assert(max_size(extents, fields, 0) == 0 && max_align(extents, fields, 0) == 1);
    }
}

/// A union that is generated as such has the layout of the C union, if that
/// is what its fields ask for.
pub proof fn law_union_layout(
    ctx: BindgenContext,
    item: Item,
    extents: spec_fn(TyView) -> Extent,
    layout: Layout,
)
    requires
        comp::is_comp(item),
        comp::comp(item).kind == CompKind::Union,
        ctx.options.unstable_rust,
        layout.align > 0,
        layout.size % layout.align == 0,
        all_fit(extents, comp::comp_fields(ctx, item), extent(layout)),
        is_reached(extents, comp::comp_fields(ctx, item), extent(layout)),
    ensures
        comp::comp_item(ctx, item) is Union,
        union_extent(extents, comp::comp_fields(ctx, item)) == extent(layout),
{
    let fields = comp::comp_fields(ctx, item);
    let whole = extent(layout);
    let n = fields.len() as int;
    let j = choose|j: int|
        #![trigger fields[j]]
        0 <= j < fields.len() && round_up(extents(fields[j].ty).size, whole.align) == whole.size;
    let k = choose|k: int|
        #![trigger fields[k]]
        0 <= k < fields.len() && extents(fields[k].ty).align == whole.align;
    lemma_max_reached(extents, fields, whole, n, j);
    lemma_max_reached(extents, fields, whole, n, k);
    lemma_round_up_between(
        extents(fields[j].ty).size,
        max_size(extents, fields, n),
        whole.size,
        whole.align,
    );
}

/// A union of bitfields that is generated as such has the layout of the C
/// union, if that is known, however small its storage units are.
pub proof fn law_bitfield_union_layout(
    ctx: BindgenContext,
    item: Item,
    extents: spec_fn(TyView) -> Extent,
    layout: Layout,
)
    requires
        comp::is_comp(item),
        comp::is_bitfield_union(comp::comp(item)),
        ctx.options.unstable_rust,
        !item.is_opaque,
        item.kind->Type_0.layout == Some(layout),
        is_integral(layout),
        extents(helpers::blob_ty(layout)) == integer_extent(helpers::blob_ty(layout))->0,
        all_fit(extents, comp::comp_fields(ctx, item), extent(layout)),
    ensures
        comp::comp_item(ctx, item) is Union,
        union_extent(extents, comp::comp_fields(ctx, item)) == extent(layout),
{
    law_blob_layout(layout);
    let fields = comp::comp_fields(ctx, item);
    let k = comp::declared_members(ctx, item).fields.len() as int;
    let field = comp::union_fields(ctx, item)[0];
    assert(fields[k] == field);
    assert(extents(fields[k].ty) == extent(layout));
    law_union_layout(ctx, item, extents, layout);
}

/// Whether every field but the one at `k` takes no space.
spec fn only_at(
    extents: spec_fn(TyView) -> Extent,
    fields: Seq<StructFieldView>,
    k: int,
) -> bool {
    forall|j: int|
        #![trigger fields[j]]
        0 <= j < fields.len() && j != k ==> extents(fields[j].ty) == (Extent { size: 0, align: 1 })
}

proof fn lemma_only(
    extents: spec_fn(TyView) -> Extent,
    fields: Seq<StructFieldView>,
    whole: Extent,
    n: int,
    k: int,
)
    requires
        only_at(extents, fields, k),
        whole.align >= 1,
        0 <= n <= fields.len(),
        0 <= k < fields.len(),
        extents(fields[k].ty) == whole,
    ensures
        fields_end(extents, fields, n) == (if k < n {
            whole.size
        } else {
            0
        }),
        max_align(extents, fields, n) == (if k < n {
            whole.align
        } else {
            1
        }),
    decreases n,
{
    if n > 0 {
        lemma_only(extents, fields, whole, n - 1, k);
        let last = fields[n - 1];
        if n - 1 != k {
            assert(extents(last.ty) == (Extent { size: 0, align: 1 }));
        }
    }
}

/// A type with `arg` for the type parameter `T`.
pub open spec fn applied(ty: TyView, arg: TyView) -> TyView
    decreases ty,
{
    match ty {
        TyView::Path { global, segments, args } => if !global && segments == seq!["T"@]
            && args.len() == 0 {
            arg
        } else {
            TyView::Path {
                global,
                segments,
                args: Seq::new(
                    args.len(),
                    |k: int|
                        if 0 <= k < args.len() {
                            applied(args[k], arg)
                        } else {
                            arbitrary()
                        },
                ),
            }
        },
        _ => ty,
    }
}

/// The type of the field that stands for a member of type `ty` in a union
/// that is emulated.
pub open spec fn emulated_member(ctx: BindgenContext, ty: TyView) -> TyView {
    TyView::Path {
        global: false,
        segments: types::support_path(ctx, "__BindgenUnionField"@),
        args: seq![ty],
    }
}

/// Whether `extents` goes by the definitions of what generated code relies
/// on: markers take no space, and `__BindgenUnionField` is laid out as in C.
pub open spec fn follows_definitions(
    ctx: BindgenContext,
    extents: spec_fn(TyView) -> Extent,
) -> bool {
    &&& forall|ty: TyView|
        extents(#[trigger] helpers::marker_ty(ctx, ty)) == (Extent { size: 0, align: 1 })
    &&& forall|ty: TyView|
        extents(#[trigger] emulated_member(ctx, ty)) == struct_extent(
            extents,
            seq![
                StructFieldView {
                    name: "0"@,
                    is_pub: support::union_field_struct(ctx)->TupleStruct_field_is_pub,
                    attrs: seq![],
                    ty: applied(support::union_field_struct(ctx)->TupleStruct_field, ty),
                },
            ],
        )
}

/// The field for a member of an emulated union takes no space, whatever the
/// type of the member.
pub proof fn law_emulated_member_size(
    ctx: BindgenContext,
    extents: spec_fn(TyView) -> Extent,
    ty: TyView,
)
    requires
        follows_definitions(ctx, extents),
    ensures
        extents(emulated_member(ctx, ty)) == (Extent { size: 0, align: 1 }),
{
    let param = helpers::named_ty("T"@);
    let marker = helpers::marker_ty(ctx, param);
    reveal_with_fuel(applied, 3);
    assert(applied(param, ty) == ty);
    assert(applied(marker, ty) =~= helpers::marker_ty(ctx, ty)) by {
        assert(marker->args[0] == param);
        assert(applied(marker, ty)->args =~= seq![ty]);
    }
    let fields = seq![
        StructFieldView {
            name: "0"@,
            is_pub: support::union_field_struct(ctx)->TupleStruct_field_is_pub,
            attrs: seq![],
            ty: applied(support::union_field_struct(ctx)->TupleStruct_field, ty),
        },
    ];
    assert(fields[0].ty == helpers::marker_ty(ctx, ty));
    assert(extents(fields[0].ty) == (Extent { size: 0, align: 1 }));
    reveal_with_fuel(max_align, 2);
    reveal_with_fuel(fields_end, 2);
}

/// Whether a field is a marker.
spec fn is_marker(ctx: BindgenContext, field: StructFieldView) -> bool {
    exists|ty: TyView| field.ty == #[trigger] helpers::marker_ty(ctx, ty)
}

proof fn lemma_phantoms(ctx: BindgenContext, item: Item, n: int)
    ensures
        forall|k: int|
            0 <= k < comp::phantom_fields(ctx, item, n).len() ==> is_marker(
                ctx,
                #[trigger] comp::phantom_fields(ctx, item, n)[k],
            ),
    decreases n,
{
    if n > 0 {
        lemma_phantoms(ctx, item, n - 1);
        let all = comp::phantom_fields(ctx, item, n);
        let before = comp::phantom_fields(ctx, item, n - 1);
        assert forall|k: int| 0 <= k < all.len() implies is_marker(ctx, #[trigger] all[k]) by {
            if k < before.len() {
                assert(all[k] == before[k]);
            } else {
                assert(all[k] == comp::phantom_field(ctx, item, n - 1));
            }
        }
    }
}

/// Whether a field stands for a member of an emulated union.
spec fn is_emulated_member(ctx: BindgenContext, field: StructFieldView) -> bool {
    exists|ty: TyView| field.ty == #[trigger] emulated_member(ctx, ty)
}

proof fn lemma_members(
    ctx: BindgenContext,
    acc: comp::Members,
    item: Item,
    fields: Seq<Field>,
    i: int,
)
    requires
        comp::emulated(ctx, item),
        0 <= i <= fields.len(),
        forall|k: int| 0 <= k < fields.len() ==> (#[trigger] fields[k]).bitfield is None,
        forall|k: int|
            0 <= k < acc.fields.len() ==> is_emulated_member(ctx, #[trigger] acc.fields[k]),
    ensures
        forall|k: int|
            0 <= k < comp::with_members(ctx, acc, item, fields, i).fields.len()
                ==> is_emulated_member(
                ctx,
                #[trigger] comp::with_members(ctx, acc, item, fields, i).fields[k],
            ),
    decreases fields.len() - i,
{
    if i < fields.len() {
        let next = comp::with_member(ctx, acc, item, fields[i]);
        assert forall|k: int| 0 <= k < next.fields.len() implies is_emulated_member(
            ctx,
            #[trigger] next.fields[k],
        ) by {
            if k < acc.fields.len() {
                assert(next.fields[k] == acc.fields[k]);
            } else {
                let field = comp::member_field(ctx, item, fields[i], acc.anons);
                assert(next.fields[k] == field);
                assert(field.ty == emulated_member(
                    ctx,
                    types::rust_ty(ctx, fields[i].ty).ty,
                ));
            }
        }
        lemma_members(ctx, next, item, fields, i + 1);
        assert(fields[i].bitfield is None);
        assert(comp::with_members(ctx, acc, item, fields, i) == comp::with_members(
            ctx,
            next,
            item,
            fields,
            i + 1,
        ));
    }
}

/// A union that is emulated by a struct has the layout of the C union: its
/// members and markers take no space of their own.
pub proof fn law_emulated_union_layout(
    ctx: BindgenContext,
    item: Item,
    extents: spec_fn(TyView) -> Extent,
    layout: Layout,
)
    requires
        comp::is_comp(item),
        comp::emulated(ctx, item),
        !item.is_opaque,
        item.kind->Type_0.layout == Some(layout),
        is_integral(layout),
        extents(helpers::blob_ty(layout)) == integer_extent(helpers::blob_ty(layout))->0,
        follows_definitions(ctx, extents),
        comp::comp(item).base_members@.len() == 0,
        !comp::comp(item).needs_explicit_vtable,
        !comp::comp(item).is_unsized,
        forall|k: int|
            0 <= k < comp::comp(item).fields@.len() ==> (
            #[trigger] comp::comp(item).fields@[k]).bitfield is None,
    ensures
        comp::comp_item(ctx, item) is Struct,
        struct_extent(extents, comp::comp_fields(ctx, item)) == extent(layout),
{
    law_blob_layout(layout);
    let fields = comp::comp_fields(ctx, item);
    let members = comp::declared_members(ctx, item).fields;
    let n = item.applicable_template_args@.len() as int;
    let phantoms = comp::phantom_fields(ctx, item, n);
    let k = members.len() as int;
    let start = comp::Members {
        fields: comp::vtable_fields(ctx, item) + comp::base_fields(ctx, seq![], 0),
        methods: seq![],
        units: 0,
        anons: 0,
    };
    assert(comp::comp(item).base_members@ =~= seq![]);
    assert(start.fields =~= seq![]);
    lemma_members(ctx, start, item, comp::comp(item).fields@, 0);
    lemma_phantoms(ctx, item, n);
    assert(fields[k] == comp::union_fields(ctx, item)[0]);
    assert forall|j: int| #![trigger fields[j]] 0 <= j < fields.len() && j != k implies extents(
        fields[j].ty,
    ) == (Extent { size: 0, align: 1 }) by {
        if j < k {
            assert(fields[j] == members[j]);
            assert(is_emulated_member(ctx, members[j]));
            let ty = choose|ty: TyView| members[j].ty == #[trigger] emulated_member(ctx, ty);
            law_emulated_member_size(ctx, extents, ty);
        } else {
            assert(fields[j] == phantoms[j - k - 1]);
            assert(is_marker(ctx, phantoms[j - k - 1]));
        }
    }
    lemma_only(extents, fields, extent(layout), fields.len() as int, k);
}

/// An opaque struct has the layout of the C struct, if that is known: its
/// markers take no space.
pub proof fn law_opaque_layout(
    ctx: BindgenContext,
    item: Item,
    extents: spec_fn(TyView) -> Extent,
    layout: Layout,
)
    requires
        comp::is_comp(item),
        item.is_opaque,
        item.kind->Type_0.layout == Some(layout),
        is_integral(layout),
        extents(helpers::blob_ty(layout)) == integer_extent(helpers::blob_ty(layout))->0,
        follows_definitions(ctx, extents),
        !comp::comp(item).is_unsized,
    ensures
        struct_extent(extents, comp::comp_fields(ctx, item)) == extent(layout),
{
    law_blob_layout(layout);
    let fields = comp::comp_fields(ctx, item);
    let n = item.applicable_template_args@.len() as int;
    let phantoms = comp::phantom_fields(ctx, item, n);
    lemma_phantoms(ctx, item, n);
    assert(fields[0] == comp::opaque_fields(item)[0]);
    assert forall|j: int| #![trigger fields[j]] 0 <= j < fields.len() && j != 0 implies extents(
        fields[j].ty,
    ) == (Extent { size: 0, align: 1 }) by {
        assert(fields[j] == phantoms[j - 1]);
        assert(is_marker(ctx, phantoms[j - 1]));
    }
    lemma_only(extents, fields, extent(layout), fields.len() as int, 0);
}

} // verus!
