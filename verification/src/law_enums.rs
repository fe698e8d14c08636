//! How enums are represented, and which variants and constants they have.
use vstd::prelude::*;

use crate::ast::{AttrView, ConstValueView, LiteralView, VariantView};
use crate::enums;
use crate::ir;
use crate::ir::{BindgenContext, Enum, EnumVariant, EnumVariantValue, Item, ItemId};
use crate::law_types;
use crate::result::ResultView;
use crate::types;
use crate::words;

verus! {

/// The enum that an item is.
pub open spec fn the_enum(item: Item) -> Enum {
    item.kind->Type_0.kind->Enum_0
}

/// Whether the values of an enum are flags, to be combined: the options name
/// it, or it has no name and they name one of its variants.
pub open spec fn is_flags(ctx: BindgenContext, item: Item) -> bool {
    let asked = ctx.options.bitfield_enums@;
    let variants = the_enum(item).variants@;
    ||| exists|i: int| 0 <= i < asked.len() && (#[trigger] asked[i])@ == item.canonical_name@
    ||| item.kind->Type_0.name is None && exists|i: int, k: int|
        0 <= i < asked.len() && 0 <= k < variants.len() && (#[trigger] asked[i])@ == (
        #[trigger] variants[k]).name@
}

/// Whether a name is that of the integer type that represents an enum: of the
/// size of the enum and of the signedness of its declared representation,
/// which is signed if it is not known. An enum of an odd size is an `i32`.
pub open spec fn represents(ctx: BindgenContext, item: Item, name: Seq<char>) -> bool {
    let e = the_enum(item);
    let signed = match e.repr {
        Some(repr) => ir::int_is_signed(ctx.ty(ctx.ty(repr).canonical_type).kind->Int_0),
        None => true,
    };
    match item.kind->Type_0.layout {
        Some(layout) if layout.size == 1 || layout.size == 2 || layout.size == 4 || layout.size
            == 8 => words::is_integer_name(name, signed, layout.size as nat),
        _ => words::is_integer_name(name, true, 4),
    }
}

proof fn lemma_represents(ctx: BindgenContext, item: Item)
    ensures
        represents(
            ctx,
            item,
            enums::repr_name(
                enums::repr_signed(ctx, the_enum(item)),
                enums::size_or_zero(item.kind->Type_0),
            ),
        ),
{
    law_types::lemma_integer_names();
}

proof fn lemma_flags(ctx: BindgenContext, item: Item)
    ensures
        is_flags(ctx, item) == enums::is_bitfield_enum(ctx, item),
{
    let asked = ctx.options.bitfield_enums@;
    let variants = the_enum(item).variants@;
    if enums::is_bitfield_enum(ctx, item) && !ir::has_text(asked, item.canonical_name@) {
        let k = choose|k: int|
            0 <= k < variants.len() && ir::has_text(asked, (#[trigger] variants[k]).name@);
        let i = choose|i: int| 0 <= i < asked.len() && (#[trigger] asked[i])@ == variants[k].name@;
        assert(asked[i]@ == variants[k].name@);
    }
    if is_flags(ctx, item) && !ir::has_text(asked, item.canonical_name@) {
        let (i, k) = choose|i: int, k: int|
            0 <= i < asked.len() && 0 <= k < variants.len() && (#[trigger] asked[i])@ == (
            #[trigger] variants[k]).name@;
        assert(ir::has_text(asked, variants[k].name@));
    }
}

/// Whether attributes derive what enums derive, to be copied, compared and
/// printed.
pub open spec fn derives_values(attrs: Seq<AttrView>) -> bool {
    attrs.len() > 0 && (attrs.last() matches AttrView::Derive(list) && list.contains("Debug"@)
        && list.contains("Copy"@) && list.contains("Clone"@) && list.contains("PartialEq"@)
        && list.contains("Eq"@) && list.contains("Hash"@) && list.len() == 6)
}

proof fn lemma_derives_values(ctx: BindgenContext, item: Item)
    ensures
        derives_values(enums::enum_attrs(ctx, item)),
        words::has_comment(enums::enum_attrs(ctx, item), item.comment),
{
    let attrs = enums::enum_attrs(ctx, item);
    let list = attrs.last()->Derive_0;
    assert(list[0] == "Debug"@ && list[1] == "Copy"@ && list[2] == "Clone"@);
    assert(list[3] == "PartialEq"@ && list[4] == "Eq"@ && list[5] == "Hash"@);
    if item.comment is Some {
        assert(attrs[attrs.len() - 2] == AttrView::Doc(item.comment->0@));
    }
}

/// An enum that is no set of flags is a Rust enum of its name, represented by
/// the integer type of its size and signedness. Without variants it takes no
/// representation.
pub proof fn law_enum_repr(ctx: BindgenContext, st: ResultView, id: ItemId)
    requires
        !is_flags(ctx, ctx.item(id)),
    ensures
        ({
            let item = ctx.item(id);
            let got = enums::gen_enum(ctx, st, id).items.last();
            &&& got is Enum
            &&& got->Enum_name == item.canonical_name@
            &&& the_enum(item).variants@.len() > 0 ==> {
                &&& got->Enum_attrs[0] is Repr
                &&& got->Enum_attrs[0]->Repr_0.len() == 1
                &&& represents(ctx, item, got->Enum_attrs[0]->Repr_0[0])
            }
            &&& the_enum(item).variants@.len() == 0 ==> forall|k: int|
                0 <= k < got->Enum_attrs.len() ==> !(#[trigger] got->Enum_attrs[k] is Repr)
            &&& derives_values(got->Enum_attrs)
            &&& words::has_comment(got->Enum_attrs, item.comment)
            &&& got->Enum_attrs.len() == words::comment_count(item.comment) + (
            if the_enum(item).variants@.len() > 0 {
                2nat
            } else {
                1nat
            })
        }),
{
    let item = ctx.item(id);
    lemma_flags(ctx, item);
    lemma_represents(ctx, item);
    lemma_derives_values(ctx, item);
    assert(enums::gen_enum(ctx, st, id).items.last() == enums::enum_items(ctx, item)[0]);
}

/// A set of flags is a struct, laid out as in C, around a public integer of
/// the size and signedness of the enum. Before it stands its `|`.
pub proof fn law_flags_repr(ctx: BindgenContext, st: ResultView, id: ItemId)
    requires
        ctx.item(id).id == id,
        is_flags(ctx, ctx.item(id)),
    ensures
        ({
            let item = ctx.item(id);
            let after = enums::gen_enum(ctx, st, id).items;
            let got = after.last();
            let or = after[after.len() - 2];
            &&& got is TupleStruct
            &&& got->TupleStruct_name == item.canonical_name@
            &&& got->TupleStruct_generics.len() == 0
            &&& got->field_is_pub
            &&& got->field is Path
            &&& words::is_name(got->field, got->field->segments[0])
            &&& represents(ctx, item, got->field->segments[0])
            &&& got->TupleStruct_attrs[0] == AttrView::Repr(seq!["C"@])
            &&& derives_values(got->TupleStruct_attrs)
            &&& words::has_comment(got->TupleStruct_attrs, item.comment)
            &&& got->TupleStruct_attrs.len() == words::comment_count(item.comment) + 2
            &&& after.len() == st.items.len() + the_enum(item).variants@.len() + 2
            &&& or is BitOrImpl
            &&& or->BitOrImpl_prefix == ctx.trait_prefix@
            &&& or->BitOrImpl_ty == types::rust_ty(ctx, id).ty
            &&& or->constructor == item.canonical_name@
        }),
{
    let item = ctx.item(id);
    let n = the_enum(item).variants@.len() as int;
    lemma_flags(ctx, item);
    lemma_represents(ctx, item);
    lemma_derives_values(ctx, item);
    lemma_one_each(ctx, item, n);
    let defined = enums::enum_items(ctx, item);
    let after = enums::gen_enum(ctx, st, id).items;
    assert(defined.len() == 2);
    assert(after.last() == defined[1]);
    assert(after[after.len() - 2] == defined[0]);
}

/// Where there is one constant for each variant, which is so for flags and for
/// enums without a name, they stand in the order of the variants.
proof fn lemma_one_each(ctx: BindgenContext, item: Item, n: int)
    requires
        0 <= n <= the_enum(item).variants@.len(),
        enums::is_bitfield_enum(ctx, item) || item.kind->Type_0.name is None,
    ensures
        enums::constants(ctx, item, n).len() == n,
        forall|k: int|
            0 <= k < n ==> #[trigger] enums::constants(ctx, item, n)[k]
                == enums::variant_constants(ctx, item, k)[0],
    decreases n,
{
    if n > 0 {
        lemma_one_each(ctx, item, n - 1);
        enums::lemma_first_alike(the_enum(item).variants@, n - 1);
        let before = enums::constants(ctx, item, n - 1);
        assert forall|k: int| 0 <= k < n implies #[trigger] enums::constants(ctx, item, n)[k]
            == enums::variant_constants(ctx, item, k)[0] by {
            if k < n - 1 {
                assert(enums::constants(ctx, item, n)[k] == before[k]);
            }
        }
    }
}

/// Whether a literal is the value of a variant.
pub open spec fn is_value(literal: LiteralView, val: EnumVariantValue) -> bool {
    match val {
        EnumVariantValue::Signed(v) => literal == LiteralView::Int(v),
        EnumVariantValue::Unsigned(v) => literal == LiteralView::Uint(v),
    }
}

/// A name in what an enum is nested in, if it is.
pub open spec fn within_parent(ctx: BindgenContext, item: Item, name: Seq<char>) -> Seq<char> {
    if item.is_toplevel {
        name
    } else {
        ctx.item(item.parent_id).canonical_name@ + "_"@ + name
    }
}

/// Each flag is a constant of its value, in the order of the variants, whose
/// name is that of the variant in the enum, or where the enum has no name in
/// what the enum is nested in.
pub proof fn law_flag_constant(ctx: BindgenContext, st: ResultView, id: ItemId, k: int)
    requires
        ctx.item(id).id == id,
        is_flags(ctx, ctx.item(id)),
        0 <= k < the_enum(ctx.item(id)).variants@.len(),
    ensures
        ({
            let item = ctx.item(id);
            let variant = the_enum(item).variants@[k];
            let name = ctx.mangle(variant.name@);
            let got = enums::gen_enum(ctx, st, id).items[st.items.len() + k];
            &&& got is Const
            &&& got->Const_name == (if item.kind->Type_0.name is Some {
                item.canonical_name@ + "_"@ + name
            } else {
                within_parent(ctx, item, name)
            })
            &&& got->Const_ty == types::rust_ty(ctx, id).ty
            &&& got->value is Construct
            &&& got->value->Construct_name == item.canonical_name@
            &&& is_value(got->value->arg, variant.val)
        }),
{
    let item = ctx.item(id);
    let n = the_enum(item).variants@.len() as int;
    lemma_flags(ctx, item);
    lemma_one_each(ctx, item, n);
    assert(enums::gen_enum(ctx, st, id).items[st.items.len() + k] == enums::constants(
        ctx,
        item,
        n,
    )[k]);
}

/// Whether the variant at `j` is the first one with the value of that at `k`.
pub open spec fn is_first(variants: Seq<EnumVariant>, j: int, k: int) -> bool {
    &&& 0 <= j <= k < variants.len()
    &&& variants[j].val == variants[k].val
    &&& forall|i: int| 0 <= i < j ==> (#[trigger] variants[i]).val != variants[k].val
}

proof fn lemma_is_first(variants: Seq<EnumVariant>, j: int, k: int)
    requires
        is_first(variants, j, k),
    ensures
        enums::first_alike(variants, k) == j,
{
    enums::lemma_first_alike(variants, k);
    let f = enums::first_alike(variants, k);
    if f < j {
        assert(variants[f].val == variants[k].val);
    }
}

/// A variant of a Rust enum without a name is reached by a constant that
/// stands for it, or for the first variant of its value, in the order of the
/// variants.
pub proof fn law_unnamed_constant(ctx: BindgenContext, st: ResultView, id: ItemId, j: int, k: int)
    requires
        ctx.item(id).id == id,
        !is_flags(ctx, ctx.item(id)),
        ctx.item(id).kind->Type_0.name is None,
        is_first(the_enum(ctx.item(id)).variants@, j, k),
    ensures
        ({
            let item = ctx.item(id);
            let variants = the_enum(item).variants@;
            let name = ctx.mangle(variants[k].name@);
            let got = enums::gen_enum(ctx, st, id).items[st.items.len() + k];
            &&& got is Const
            &&& got->Const_name == (if j == k {
                within_parent(ctx, item, name)
            } else {
                name
            })
            &&& got->Const_ty == types::rust_ty(ctx, id).ty
            &&& got->value == ConstValueView::Path(
                seq![item.canonical_name@, ctx.mangle(variants[j].name@)],
            )
            &&& enums::gen_enum(ctx, st, id).items.len() == st.items.len() + variants.len() + 1
        }),
{
    let item = ctx.item(id);
    let variants = the_enum(item).variants@;
    let n = variants.len() as int;
    lemma_flags(ctx, item);
    lemma_is_first(variants, j, k);
    lemma_one_each(ctx, item, n);
    assert(enums::gen_enum(ctx, st, id).items[st.items.len() + k] == enums::constants(
        ctx,
        item,
        n,
    )[k]);
}

/// How many of the first `n` variants have a value that an earlier one has.
pub open spec fn repeats_before(variants: Seq<EnumVariant>, n: int) -> nat
    decreases n,
{
    if n <= 0 {
        0
    } else if is_first(variants, n - 1, n - 1) {
        repeats_before(variants, n - 1)
    } else {
        repeats_before(variants, n - 1) + 1
    }
}

/// In a Rust enum with a name, a variant whose value an earlier one has is a
/// constant that stands for the first such, in the order of the variants.
pub proof fn law_repeated_value(ctx: BindgenContext, st: ResultView, id: ItemId, j: int, k: int)
    requires
        ctx.item(id).id == id,
        !is_flags(ctx, ctx.item(id)),
        ctx.item(id).kind->Type_0.name is Some,
        is_first(the_enum(ctx.item(id)).variants@, j, k),
        j < k,
    ensures
        ({
            let item = ctx.item(id);
            let variants = the_enum(item).variants@;
            let at = st.items.len() + repeats_before(variants, k);
            let after = enums::gen_enum(ctx, st, id).items;
            let got = after[at as int];
            &&& at < after.len()
            &&& got is Const
            &&& got->Const_name == item.canonical_name@ + "_"@ + ctx.mangle(variants[k].name@)
            &&& got->Const_ty == types::rust_ty(ctx, id).ty
            &&& got->value == ConstValueView::Path(
                seq![item.canonical_name@, ctx.mangle(variants[j].name@)],
            )
        }),
{
    let item = ctx.item(id);
    let variants = the_enum(item).variants@;
    let n = variants.len() as int;
    lemma_flags(ctx, item);
    lemma_is_first(variants, j, k);
    lemma_constant_of(ctx, item, n, k);
    let i = repeats_before(variants, k) as int;
    let after = enums::gen_enum(ctx, st, id).items;
    assert(after[st.items.len() + i] == enums::constants(ctx, item, n)[i]);
}

proof fn lemma_repeats(ctx: BindgenContext, item: Item, n: int)
    requires
        0 <= n <= the_enum(item).variants@.len(),
        !enums::is_bitfield_enum(ctx, item),
        item.kind->Type_0.name is Some,
    ensures
        enums::constants(ctx, item, n).len() == repeats_before(the_enum(item).variants@, n),
    decreases n,
{
    if n > 0 {
        let variants = the_enum(item).variants@;
        lemma_repeats(ctx, item, n - 1);
        enums::lemma_first_alike(variants, n - 1);
        if is_first(variants, n - 1, n - 1) {
            lemma_is_first(variants, n - 1, n - 1);
        } else {
            assert(enums::first_alike(variants, n - 1) != n - 1);
        }
    }
}

proof fn lemma_constant_of(ctx: BindgenContext, item: Item, n: int, k: int)
    requires
        0 <= k < n <= the_enum(item).variants@.len(),
        !enums::is_bitfield_enum(ctx, item),
        item.kind->Type_0.name is Some,
        enums::variant_constants(ctx, item, k).len() == 1,
    ensures
        ({
            let i = repeats_before(the_enum(item).variants@, k) as int;
            &&& i < enums::constants(ctx, item, n).len()
            &&& enums::constants(ctx, item, n)[i] == enums::variant_constants(ctx, item, k)[0]
        }),
    decreases n,
{
    let i = repeats_before(the_enum(item).variants@, k) as int;
    let before = enums::constants(ctx, item, n - 1);
    if k == n - 1 {
        lemma_repeats(ctx, item, k);
    } else {
        lemma_constant_of(ctx, item, n - 1, k);
        assert(enums::constants(ctx, item, n)[i] == before[i]);
    }
}

/// Whether `from` lists the positions of the variants whose value no earlier
/// one has, in their order.
pub open spec fn lists_first(variants: Seq<EnumVariant>, n: int, from: Seq<int>) -> bool {
    &&& forall|i: int| 0 <= i < from.len() ==> (#[trigger] from[i]) < n && is_first(
        variants,
        from[i],
        from[i],
    )
    &&& forall|i: int, j: int| 0 <= i < j < from.len() ==> #[trigger] from[i] < #[trigger] from[j]
    &&& forall|k: int| 0 <= k < n && #[trigger] is_first(variants, k, k) ==> from.contains(k)
}

/// Whether a Rust variant is what a declared one becomes.
pub open spec fn is_variant(ctx: BindgenContext, got: VariantView, variant: EnumVariant) -> bool {
    got.name == ctx.mangle(ctx.mangle(variant.name@)) && is_value(got.value, variant.val)
}

/// A Rust enum has a variant for each declared one whose value no earlier one
/// has, of its name and value, in their order, and no other. In an enum with a
/// name, each of the others is a constant, and there are no other constants.
pub proof fn law_enum_variants(ctx: BindgenContext, st: ResultView, id: ItemId)
    requires
        !is_flags(ctx, ctx.item(id)),
    ensures
        ({
            let item = ctx.item(id);
            let variants = the_enum(item).variants@;
            let after = enums::gen_enum(ctx, st, id).items;
            let got = after.last()->variants;
            &&& exists|from: Seq<int>| #[trigger]
                lists_first(variants, variants.len() as int, from) && from.len() == got.len()
                    && forall|i: int|
                    0 <= i < got.len() ==> is_variant(ctx, #[trigger] got[i], variants[from[i]])
            &&& item.kind->Type_0.name is Some ==> after.len() + got.len() == st.items.len()
                + variants.len() + 1
        }),
{
    let item = ctx.item(id);
    let variants = the_enum(item).variants@;
    let n = variants.len() as int;
    lemma_flags(ctx, item);
    lemma_variants(ctx, variants, n);
    assert(enums::gen_enum(ctx, st, id).items.last() == enums::enum_items(ctx, item)[0]);
    if item.kind->Type_0.name is Some {
        lemma_constants_count(ctx, item, n);
    }
}

proof fn lemma_variants(ctx: BindgenContext, variants: Seq<EnumVariant>, n: int)
    requires
        0 <= n <= variants.len(),
    ensures
        exists|from: Seq<int>| #[trigger]
            lists_first(variants, n, from) && from.len() == enums::rust_variants(
                ctx,
                variants,
                n,
            ).len() && forall|i: int|
                0 <= i < from.len() ==> is_variant(
                    ctx,
                    #[trigger] enums::rust_variants(ctx, variants, n)[i],
                    variants[from[i]],
                ),
    decreases n,
{
    let got = enums::rust_variants(ctx, variants, n);
    if n == 0 {
        assert(lists_first(variants, 0, Seq::<int>::empty()));
    } else {
        lemma_variants(ctx, variants, n - 1);
        let before = enums::rust_variants(ctx, variants, n - 1);
        let from = choose|from: Seq<int>| #[trigger]
            lists_first(variants, n - 1, from) && from.len() == before.len() && forall|i: int|
                0 <= i < from.len() ==> is_variant(ctx, #[trigger] before[i], variants[from[i]]);
        enums::lemma_first_alike(variants, n - 1);
        if enums::first_alike(variants, n - 1) == n - 1 {
            let more = from.push(n - 1);
            assert(is_first(variants, n - 1, n - 1));
            assert forall|i: int| 0 <= i < more.len() implies (#[trigger] more[i]) < n && is_first(
                variants,
                more[i],
                more[i],
            ) by {
                if i < from.len() {
                    assert(more[i] == from[i]);
                }
            }
            assert forall|k: int| 0 <= k < n && #[trigger] is_first(variants, k, k) implies
                more.contains(k) by {
                if k < n - 1 {
                    let i = choose|i: int| 0 <= i < from.len() && from[i] == k;
                    assert(more[i] == k);
                } else {
                    assert(more[from.len() as int] == k);
                }
            }
            assert(lists_first(variants, n, more));
            assert forall|i: int| 0 <= i < more.len() implies is_variant(
                ctx,
                #[trigger] got[i],
                variants[more[i]],
            ) by {
                if i < from.len() {
                    assert(got[i] == before[i]);
                }
            }
        } else {
            assert(!is_first(variants, n - 1, n - 1)) by {
                if is_first(variants, n - 1, n - 1) {
                    lemma_is_first(variants, n - 1, n - 1);
                }
            }
            assert(lists_first(variants, n, from));
        }
    }
}

proof fn lemma_constants_count(ctx: BindgenContext, item: Item, n: int)
    requires
        0 <= n <= the_enum(item).variants@.len(),
        !enums::is_bitfield_enum(ctx, item),
        item.kind->Type_0.name is Some,
    ensures
        enums::constants(ctx, item, n).len() + enums::rust_variants(
            ctx,
            the_enum(item).variants@,
            n,
        ).len() == n,
    decreases n,
{
    if n > 0 {
        lemma_constants_count(ctx, item, n - 1);
        enums::lemma_first_alike(the_enum(item).variants@, n - 1);
    }
}

/// Generating an enum adds to what there is, and takes note of nothing but
/// complex numbers.
pub proof fn law_enum_noted(ctx: BindgenContext, st: ResultView, id: ItemId)
    ensures
        ({
            let after = enums::gen_enum(ctx, st, id);
            &&& after.items.len() > st.items.len()
            &&& after.items.take(st.items.len() as int) == st.items
            &&& after == (ResultView {
                items: after.items,
                needs_complex: st.needs_complex || types::rust_ty(ctx, id).complex,
                ..st
            })
        }),
{
    let after = enums::gen_enum(ctx, st, id);
    assert(after.items.take(st.items.len() as int) =~= st.items);
}

} // verus!
