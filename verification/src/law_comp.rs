//! What a compound type becomes: its attributes, its fields in their order,
//! and its `impl` blocks.
use vstd::prelude::*;

use crate::ast::{AttrView, ImplItemView, ItemView, StructFieldView, TyView};
use crate::codegen;
use crate::comp;
use crate::helpers;
use crate::ir::{
    BindgenContext, CompInfo, CompKind, Item, ItemId, ItemKind, Layout, Method, TypeKind,
};
use crate::law_members;
use crate::law_members::Place;
use crate::law_types;
use crate::layout;
use crate::layout::Extent;
use crate::method;
use crate::result::ResultView;
use crate::types;
use crate::words;

verus! {

/// The compound type that an item is.
pub open spec fn the_comp(item: Item) -> CompInfo {
    item.kind->Type_0.kind->Comp_0
}

/// Whether an item is a compound type, and which, is what it says.
pub proof fn law_is_comp(item: Item)
    ensures
        comp::is_comp(item) <==> (item.kind matches ItemKind::Type(ty) && ty.kind is Comp),
        comp::is_comp(item) ==> item.kind->Type_0.kind == TypeKind::Comp(comp::comp(item)),
{
}

/// Whether an attribute is a `repr` of the given words.
pub open spec fn is_repr(attr: AttrView, packed: bool) -> bool {
    attr matches AttrView::Repr(list) && list.len() == (if packed {
        2nat
    } else {
        1nat
    }) && list[0] == "C"@ && (packed ==> list[1] == "packed"@)
}

/// Whether attributes derive the given trait.
pub open spec fn derives(attrs: Seq<AttrView>, name: Seq<char>) -> bool {
    exists|k: int|
        0 <= k < attrs.len() && #[trigger] attrs[k] is Derive && attrs[k]->Derive_0.contains(name)
}

/// Whether a compound type may be copied: it can be, and no annotation
/// forbids it.
pub open spec fn may_copy(item: Item) -> bool {
    item.can_derive_copy && !item.annotations.disallow_copy
}

/// A compound type is laid out as in C, packed if it is, and has its comment.
/// It derives `Debug` if it can, `Copy` if it may be copied, and `Clone` only
/// where it is copied and has template arguments: elsewhere it is implemented.
pub proof fn law_comp_attrs(item: Item)
    ensures
        ({
            let attrs = comp::comp_attrs(item);
            &&& exists|k: int|
                0 <= k < attrs.len() && is_repr(#[trigger] attrs[k], the_comp(item).packed)
            &&& forall|k: int|
                0 <= k < attrs.len() && (#[trigger] attrs[k]) is Repr ==> is_repr(
                    attrs[k],
                    the_comp(item).packed,
                )
            &&& words::has_comment(attrs, item.comment)
            &&& attrs.len() == words::comment_count(item.comment) + 1 + (
            if item.kind->Type_0.can_derive_debug || may_copy(item) {
                1nat
            } else {
                0nat
            })
            &&& is_repr(attrs[words::comment_count(item.comment) as int], the_comp(item).packed)
            &&& item.kind->Type_0.can_derive_debug || may_copy(item) ==> attrs.last() is Derive
                && attrs.last()->Derive_0.len() == (if item.kind->Type_0.can_derive_debug {
                1int
            } else {
                0int
            }) + (if !may_copy(item) {
                0int
            } else if item.applicable_template_args@.len() > 0 {
                2int
            } else {
                1int
            })
            &&& forall|name: Seq<char>| #[trigger]
                derives(attrs, name) ==> name == "Debug"@ || name == "Copy"@ || name == "Clone"@
            &&& derives(attrs, "Debug"@) <==> item.kind->Type_0.can_derive_debug
            &&& derives(attrs, "Copy"@) <==> may_copy(item)
            &&& derives(attrs, "Clone"@) <==> may_copy(item)
                && item.applicable_template_args@.len() > 0
        }),
{
    reveal_strlit("Debug");
    reveal_strlit("Copy");
    reveal_strlit("Clone");
    assert("Debug"@[0] != "Clone"@[0]);
    assert("Copy"@.len() == 4);
    let attrs = comp::comp_attrs(item);
    let docs = helpers::doc_attrs(item.comment);
    let n = docs.len() as int;
    let list = comp::derives(item);
    assert(is_repr(attrs[n], the_comp(item).packed));
    if item.comment is Some {
        assert(attrs[0] == AttrView::Doc(item.comment->0@));
    }
    if list.len() > 0 {
        assert(attrs[n + 1] == AttrView::Derive(list));
        if item.kind->Type_0.can_derive_debug {
            assert(list[0] == "Debug"@);
        }
        let d: int = if item.kind->Type_0.can_derive_debug {
            1
        } else {
            0
        };
        if may_copy(item) {
            assert(list[d] == "Copy"@);
            if item.applicable_template_args@.len() > 0 {
                assert(list[d + 1] == "Clone"@);
            }
        }
        assert(attrs[n + 1] is Derive);
    }
    lemma_derived(item, "Debug"@);
    lemma_derived(item, "Copy"@);
    lemma_derived(item, "Clone"@);
    assert forall|name: Seq<char>| #[trigger] derives(attrs, name) implies name == "Debug"@ || name
        == "Copy"@ || name == "Clone"@ by {
        lemma_derived(item, name);
    }
}

proof fn lemma_derived(item: Item, name: Seq<char>)
    ensures
        derives(comp::comp_attrs(item), name) <==> comp::derives(item).contains(name),
{
    let attrs = comp::comp_attrs(item);
    let n = helpers::doc_attrs(item.comment).len() as int;
    let list = comp::derives(item);
    if list.contains(name) {
        assert(attrs[n + 1] == AttrView::Derive(list));
        assert(attrs[n + 1] is Derive);
    }
}

/// A compound type becomes a union if it is one and Rust may have unions, else
/// a struct, of its canonical name, with a generic parameter for each template
/// argument, by its declared name.
pub proof fn law_comp_item(ctx: BindgenContext, item: Item)
    ensures
        ({
            let got = comp::comp_item(ctx, item);
            let args = item.applicable_template_args@;
            let is_union = the_comp(item).kind == CompKind::Union && ctx.options.unstable_rust;
            let generics = if is_union {
                got->Union_generics
            } else {
                got->Struct_generics
            };
            &&& got is Union <==> is_union
            &&& got is Struct <==> !is_union
            &&& is_union ==> got->Union_name == item.canonical_name@ && got->Union_attrs
                == comp::comp_attrs(item) && got->Union_fields == comp::comp_fields(ctx, item)
            &&& !is_union ==> got->Struct_name == item.canonical_name@ && got->Struct_attrs
                == comp::comp_attrs(item) && got->Struct_fields == comp::comp_fields(ctx, item)
            &&& is_named_by(ctx, args, generics)
        }),
{
}

/// Whether names are the declared names of types, one for one.
pub open spec fn is_named_by(
    ctx: BindgenContext,
    ids: Seq<ItemId>,
    names: Seq<Seq<char>>,
) -> bool {
    &&& names.len() == ids.len()
    &&& forall|k: int|
        0 <= k < ids.len() ==> (ctx.ty(ids[k]).name matches Some(name) ==> #[trigger] names[k]
            == name@)
}

/// How many of the first `n` bases take space.
pub open spec fn sized_before(ctx: BindgenContext, bases: Seq<ItemId>, n: int) -> nat {
    bases.take(n).filter(|base: ItemId| !ctx.ty(base).is_unsized).len()
}

/// How many fields stand before the declared ones: the vtable pointer, if the
/// type has one of its own, and one for each base that takes space.
pub open spec fn own_start(ctx: BindgenContext, item: Item) -> int {
    let bases = the_comp(item).base_members@;
    (if the_comp(item).needs_explicit_vtable {
        1int
    } else {
        0int
    }) + sized_before(ctx, bases, bases.len() as int)
}

/// Whether a field is public and without attributes.
pub open spec fn is_plain_field(field: StructFieldView) -> bool {
    field.is_pub && field.attrs.len() == 0
}

proof fn lemma_base_fields(ctx: BindgenContext, bases: Seq<ItemId>, n: int)
    requires
        0 <= n <= bases.len(),
    ensures
        comp::base_fields(ctx, bases, n).len() == sized_before(ctx, bases, n),
        forall|k: int|
            0 <= k < n && !ctx.ty(#[trigger] bases[k]).is_unsized ==> sized_before(ctx, bases, k)
                < sized_before(ctx, bases, n) && comp::base_fields(ctx, bases, n)[sized_before(
                ctx,
                bases,
                k,
            ) as int] == comp::pub_field(
                comp::base_name(k),
                types::rust_ty(ctx, bases[k]).ty,
            ),
    decreases n,
{
    lemma_sized_before(ctx, bases, n);
    if n > 0 {
        lemma_base_fields(ctx, bases, n - 1);
        let before = comp::base_fields(ctx, bases, n - 1);
        let all = comp::base_fields(ctx, bases, n);
        assert forall|k: int| 0 <= k < n && !ctx.ty(#[trigger] bases[k]).is_unsized implies (
        sized_before(ctx, bases, k) < sized_before(ctx, bases, n) && all[sized_before(
            ctx,
            bases,
            k,
        ) as int] == comp::pub_field(
            comp::base_name(k),
            types::rust_ty(ctx, bases[k]).ty,
        )) by {
            if k < n - 1 {
                assert(all[sized_before(ctx, bases, k) as int] == before[sized_before(
                    ctx,
                    bases,
                    k,
                ) as int]);
            }
        }
    }
}

proof fn lemma_sized_before(ctx: BindgenContext, bases: Seq<ItemId>, n: int)
    requires
        0 <= n <= bases.len(),
    ensures
        n == 0 ==> sized_before(ctx, bases, n) == 0,
        n > 0 ==> sized_before(ctx, bases, n) == sized_before(ctx, bases, n - 1) + (if ctx.ty(
            bases[n - 1],
        ).is_unsized {
            0int
        } else {
            1int
        }),
{
    reveal(Seq::filter);
    if n == 0 {
        assert(bases.take(0) =~= seq![]);
    } else {
        assert(bases.take(n).drop_last() =~= bases.take(n - 1));
        assert(bases.take(n).last() == bases[n - 1]);
    }
}

/// A base that takes space becomes a field, before the declared ones and in
/// the order of the bases, that is numbered by its position among all bases,
/// but for the first.
pub proof fn law_base(ctx: BindgenContext, item: Item, k: int)
    requires
        comp::is_comp(item),
        !item.is_opaque,
        0 <= k < the_comp(item).base_members@.len(),
        comp::comp_ok(ctx, item),
        law_members::sizes_ok(ctx, law_members::declared(item)),
        !ctx.ty(the_comp(item).base_members@[k]).is_unsized,
    ensures
        ({
            let base = the_comp(item).base_members@[k];
            let at = (if the_comp(item).needs_explicit_vtable {
                1int
            } else {
                0int
            }) + sized_before(ctx, the_comp(item).base_members@, k);
            let got = comp::comp_fields(ctx, item)[at];
            &&& at < own_start(ctx, item)
            &&& is_plain_field(got)
            &&& k == 0 ==> got.name == "_base"@
            &&& k > 0 ==> words::is_numbered(got.name, "_base_"@, k as nat)
            &&& got.ty == types::rust_ty(ctx, base).ty
        }),
{
    let bases = the_comp(item).base_members@;
    let n = bases.len() as int;
    lemma_base_fields(ctx, bases, n);
    words::lemma_numbered("_base_"@, k as nat);
    lemma_starts(ctx, item);
    let at = comp::vtable_fields(ctx, item).len() + sized_before(ctx, bases, k);
    assert(comp::comp_fields(ctx, item)[at as int] == comp::base_fields(ctx, bases, n)[sized_before(
        ctx,
        bases,
        k,
    ) as int]);
}

/// The fields of a compound type start with its vtable pointer and its bases.
proof fn lemma_starts(ctx: BindgenContext, item: Item)
    requires
        comp::is_comp(item),
        comp::comp_ok(ctx, item),
        law_members::sizes_ok(ctx, law_members::declared(item)),
    ensures
        ({
            let bases = the_comp(item).base_members@;
            let start = comp::vtable_fields(ctx, item) + comp::base_fields(
                ctx,
                bases,
                bases.len() as int,
            );
            let all = comp::declared_members(ctx, item).fields;
            &&& start.len() == own_start(ctx, item)
            &&& start.len() <= all.len()
            &&& forall|k: int| 0 <= k < start.len() ==> #[trigger] all[k] == start[k]
        }),
{
    let bases = the_comp(item).base_members@;
    lemma_base_fields(ctx, bases, bases.len() as int);
    let start = comp::Members {
        fields: comp::vtable_fields(ctx, item) + comp::base_fields(
            ctx,
            bases,
            bases.len() as int,
        ),
        methods: seq![],
        units: 0,
        anons: 0,
    };
    lemma_members_keep(ctx, start, item, law_members::declared(item), 0);
}

proof fn lemma_members_keep(
    ctx: BindgenContext,
    acc: comp::Members,
    item: Item,
    fields: Seq<crate::ir::Field>,
    i: int,
)
    requires
        0 <= i <= fields.len(),
    ensures
        ({
            let all = comp::with_members(ctx, acc, item, fields, i).fields;
            &&& acc.fields.len() <= all.len()
            &&& forall|k: int| 0 <= k < acc.fields.len() ==> #[trigger] all[k] == acc.fields[k]
        }),
    decreases fields.len() - i,
{
    if i < fields.len() {
        if fields[i].bitfield is Some {
            comp::lemma_run_end(ctx, fields, i, i + 1);
            let end = comp::run_end(ctx, fields, i, i + 1);
            let next = comp::with_unit(ctx, acc, fields.subrange(i, end));
            lemma_members_keep(ctx, next, item, fields, end);
            assert forall|k: int| 0 <= k < acc.fields.len() implies #[trigger] comp::with_members(
                ctx,
                acc,
                item,
                fields,
                i,
            ).fields[k] == acc.fields[k] by {
                assert(next.fields[k] == acc.fields[k]);
            }
        } else {
            let next = comp::with_member(ctx, acc, item, fields[i]);
            lemma_members_keep(ctx, next, item, fields, i + 1);
            assert forall|k: int| 0 <= k < acc.fields.len() implies #[trigger] comp::with_members(
                ctx,
                acc,
                item,
                fields,
                i,
            ).fields[k] == acc.fields[k] by {
                assert(next.fields[k] == acc.fields[k]);
            }
        }
    }
}

/// A type with a vtable of its own starts with a constant pointer to it, and
/// the vtable is declared before the type, laid out as in C and empty. No
/// other type has either.
pub proof fn law_vtable(ctx: BindgenContext, st: ResultView, item: Item)
    requires
        comp::is_comp(item),
        comp::comp_ok(ctx, item),
        law_members::sizes_ok(ctx, law_members::declared(item)),
        ctx.holds(&item),
    ensures
        ({
            let after = comp::gen_struct(ctx, st, item).items;
            let name = item.canonical_name@ + "__bindgen_vtable"@;
            if the_comp(item).needs_explicit_vtable {
                let vtable = after[st.items.len() as int];
                let pointer = comp::comp_fields(ctx, item)[0];
                &&& after.len() == st.items.len() + 2
                &&& vtable is Struct
                &&& vtable->Struct_name == name
                &&& vtable->Struct_generics.len() == 0
                &&& vtable->Struct_fields.len() == 0
                &&& vtable->Struct_attrs.len() == 1
                &&& is_repr(vtable->Struct_attrs[0], false)
                &&& !item.is_opaque ==> is_plain_field(pointer) && pointer.name == "vtable_"@
                    && pointer.ty is Ptr && pointer.ty->Ptr_is_const && words::is_name(
                    *pointer.ty->Ptr_inner,
                    name,
                )
            } else {
                after.len() == st.items.len() + 1
            }
        }),
        comp::gen_struct(ctx, st, item).items.last() == comp::comp_item(ctx, item),
{
    lemma_starts(ctx, item);
    if the_comp(item).needs_explicit_vtable {
        let bases = the_comp(item).base_members@;
        let start = comp::vtable_fields(ctx, item) + comp::base_fields(
            ctx,
            bases,
            bases.len() as int,
        );
        assert(start[0] == comp::vtable_fields(ctx, item)[0]);
        if !item.is_opaque {
            assert(comp::comp_fields(ctx, item)[0] == start[0]);
        }
    }
}

/// Whether a template argument is used by a base that takes space or by a
/// field that is no bitfield. What is opaque uses none.
pub open spec fn is_used(ctx: BindgenContext, item: Item, arg: ItemId) -> bool {
    let bases = the_comp(item).base_members@;
    let fields = law_members::declared(item);
    !item.is_opaque && {
        ||| exists|k: int|
            0 <= k < bases.len() && !ctx.ty(#[trigger] bases[k]).is_unsized && ctx.ty(
                bases[k],
            ).signature_named_types@.contains(arg)
        ||| exists|k: int|
            0 <= k < fields.len() && (#[trigger] fields[k]).bitfield is None && ctx.ty(
                fields[k].ty,
            ).signature_named_types@.contains(arg)
    }
}

/// How many of the first `n` template arguments are not used.
pub open spec fn unused_before(ctx: BindgenContext, item: Item, n: int) -> nat {
    item.applicable_template_args@.take(n).filter(|arg: ItemId| !is_used(ctx, item, arg)).len()
}

/// Whether a field marks a type parameter as used, without taking space.
pub open spec fn is_marker_of(
    ctx: BindgenContext,
    got: StructFieldView,
    k: int,
    name: Seq<char>,
) -> bool {
    &&& is_plain_field(got)
    &&& words::is_numbered(got.name, "_phantom_"@, k as nat)
    &&& got.ty matches TyView::Path { global, segments, args } && global && segments.len() == 3
        && segments[0] == ctx.trait_prefix@ && segments[1] == "marker"@ && segments[2]
        == "PhantomData"@ && args.len() == 1 && words::is_name(args[0], ctx.mangle(name))
}

/// Whether fields are, in this order: the byte of a type that nothing in it
/// gives a size, if it is one, and a marker for each template argument that is
/// not used, numbered by its position among all.
pub open spec fn ends_fields(
    ctx: BindgenContext,
    item: Item,
    rest: Seq<StructFieldView>,
) -> bool {
    let args = item.applicable_template_args@;
    let n: int = if the_comp(item).is_unsized {
        1
    } else {
        0
    };
    &&& rest.len() == n + unused_before(ctx, item, args.len() as int)
    &&& the_comp(item).is_unsized ==> is_plain_field(rest[0]) && rest[0].name == "_address"@
        && layout::integer_extent(rest[0].ty) == Some(Extent { size: 1, align: 1 })
    &&& forall|k: int|
        0 <= k < args.len() && !is_used(ctx, item, #[trigger] args[k]) ==> {
            &&& unused_before(ctx, item, k) < unused_before(ctx, item, args.len() as int)
            &&& ctx.ty(args[k]).name matches Some(name) ==> is_marker_of(
                ctx,
                rest[n + unused_before(ctx, item, k)],
                k,
                name@,
            )
        }
}

proof fn lemma_phantoms(ctx: BindgenContext, item: Item, n: int)
    requires
        0 <= n <= item.applicable_template_args@.len(),
    ensures
        comp::phantom_fields(ctx, item, n).len() == unused_before(ctx, item, n),
        forall|k: int|
            0 <= k < n && !is_used(ctx, item, #[trigger] item.applicable_template_args@[k]) ==> {
                &&& unused_before(ctx, item, k) < unused_before(ctx, item, n)
                &&& comp::phantom_fields(ctx, item, n)[unused_before(ctx, item, k) as int]
                    == comp::phantom_field(ctx, item, k)
            },
    decreases n,
{
    let args = item.applicable_template_args@;
    lemma_unused_before(ctx, item, n);
    if n > 0 {
        lemma_phantoms(ctx, item, n - 1);
        let before = comp::phantom_fields(ctx, item, n - 1);
        let all = comp::phantom_fields(ctx, item, n);
        assert(comp::arg_used(ctx, item, args[n - 1]) == is_used(ctx, item, args[n - 1]));
        assert forall|k: int| 0 <= k < n && !is_used(ctx, item, #[trigger] args[k]) implies {
            &&& unused_before(ctx, item, k) < unused_before(ctx, item, n)
            &&& all[unused_before(ctx, item, k) as int] == comp::phantom_field(ctx, item, k)
        } by {
            if k < n - 1 {
                assert(all[unused_before(ctx, item, k) as int] == before[unused_before(
                    ctx,
                    item,
                    k,
                ) as int]);
            }
        }
    }
}

proof fn lemma_unused_before(ctx: BindgenContext, item: Item, n: int)
    requires
        0 <= n <= item.applicable_template_args@.len(),
    ensures
        n == 0 ==> unused_before(ctx, item, n) == 0,
        n > 0 ==> unused_before(ctx, item, n) == unused_before(ctx, item, n - 1) + (if is_used(
            ctx,
            item,
            item.applicable_template_args@[n - 1],
        ) {
            0int
        } else {
            1int
        }),
{
    let args = item.applicable_template_args@;
    reveal(Seq::filter);
    if n == 0 {
        assert(args.take(0) =~= seq![]);
    } else {
        assert(args.take(n).drop_last() =~= args.take(n - 1));
        assert(args.take(n).last() == args[n - 1]);
    }
}

proof fn lemma_ends(ctx: BindgenContext, item: Item)
    ensures
        ends_fields(
            ctx,
            item,
            comp::address_fields(item) + comp::phantom_fields(
                ctx,
                item,
                item.applicable_template_args@.len() as int,
            ),
        ),
{
    let args = item.applicable_template_args@;
    let phantoms = comp::phantom_fields(ctx, item, args.len() as int);
    let rest = comp::address_fields(item) + phantoms;
    let n = comp::address_fields(item).len() as int;
    lemma_phantoms(ctx, item, args.len() as int);
    layout::law_blob_layout(Layout { size: 1, align: 1 });
    assert forall|k: int| 0 <= k < args.len() && !is_used(ctx, item, #[trigger] args[k]) implies {
        &&& unused_before(ctx, item, k) < unused_before(ctx, item, args.len() as int)
        &&& ctx.ty(args[k]).name matches Some(name) ==> is_marker_of(
            ctx,
            rest[n + unused_before(ctx, item, k)],
            k,
            name@,
        )
    } by {
        words::lemma_numbered("_phantom_"@, k as nat);
        assert(rest[n + unused_before(ctx, item, k)] == phantoms[unused_before(ctx, item, k) as int]);
    }
}

/// Whether a union takes a field of its layout: one that is emulated, and one
/// of bitfields only whose layout is known.
pub open spec fn takes_layout_field(ctx: BindgenContext, item: Item) -> bool {
    let fields = law_members::declared(item);
    &&& the_comp(item).kind == CompKind::Union
    &&& item.kind->Type_0.layout is Some
    &&& !ctx.options.unstable_rust || (fields.len() > 0 && forall|k: int|
        0 <= k < fields.len() ==> (#[trigger] fields[k]).bitfield is Some)
}

/// The fields of a compound type that is not opaque: its vtable pointer and
/// its bases, every declared field in its place, for a union that takes one a
/// field of its layout, which is public where the union is emulated, and at
/// the end what gives it a size and what uses its template arguments. Its
/// accessors are those of the declared fields.
pub proof fn law_comp_fields(ctx: BindgenContext, item: Item) -> (place: Seq<Place>)
    requires
        comp::is_comp(item),
        comp::comp_ok(ctx, item),
        law_members::sizes_ok(ctx, law_members::declared(item)),
        !item.is_opaque,
    ensures
        ({
            let all = comp::comp_fields(ctx, item);
            let m = own_start(ctx, item) + law_members::fields_before(
                place,
                place.len() as int,
            );
            let u: int = if takes_layout_field(ctx, item) {
                1
            } else {
                0
            };
            &&& m + u <= all.len()
            &&& law_members::shows_all(
                ctx,
                item,
                place,
                all.take(m),
                comp::comp_accessors(ctx, item),
                own_start(ctx, item),
            )
            &&& takes_layout_field(ctx, item) ==> {
                &&& all[m].attrs.len() == 0
                &&& all[m].is_pub == !ctx.options.unstable_rust
                &&& all[m].name == (if ctx.options.unstable_rust {
                    "_bindgen_union_align"@
                } else {
                    "bindgen_union_field"@
                })
                &&& law_types::fills(all[m].ty, item.kind->Type_0.layout->0)
            }
            &&& ends_fields(ctx, item, all.skip(m + u))
        }),
{
    let place = law_members::law_members(ctx, item);
    lemma_starts(ctx, item);
    lemma_ends(ctx, item);
    let all = comp::comp_fields(ctx, item);
    let members = comp::declared_members(ctx, item).fields;
    let m = own_start(ctx, item) + law_members::fields_before(place, place.len() as int);
    let union = comp::union_fields(ctx, item);
    assert(members.len() == m);
    assert(all.take(m) =~= members);
    let rest = comp::address_fields(item) + comp::phantom_fields(
        ctx,
        item,
        item.applicable_template_args@.len() as int,
    );
    assert(all.skip(m + union.len()) =~= rest);
    if takes_layout_field(ctx, item) {
        law_types::law_blob_fills(item.kind->Type_0.layout->0);
        assert(union.len() == 1);
        assert(all[m] == union[0]);
    } else {
        assert(union.len() == 0);
    }
    place
}

/// An opaque compound type has no fields but a blob of its layout, if that is
/// known, and what gives it a size and uses its template arguments. It has no
/// accessors.
pub proof fn law_opaque_fields(ctx: BindgenContext, item: Item)
    requires
        comp::is_comp(item),
        item.is_opaque,
    ensures
        comp::comp_accessors(ctx, item).len() == 0,
        ({
            let all = comp::comp_fields(ctx, item);
            match item.kind->Type_0.layout {
                Some(layout) => {
                    &&& all.len() > 0
                    &&& is_plain_field(all[0])
                    &&& all[0].name == "_bindgen_opaque_blob"@
                    &&& law_types::fills(all[0].ty, layout)
                    &&& ends_fields(ctx, item, all.skip(1))
                },
                None => ends_fields(ctx, item, all),
            }
        }),
{
    lemma_ends(ctx, item);
    let all = comp::comp_fields(ctx, item);
    let rest = comp::address_fields(item) + comp::phantom_fields(
        ctx,
        item,
        item.applicable_template_args@.len() as int,
    );
    match item.kind->Type_0.layout {
        Some(layout) => {
            law_types::law_blob_fills(layout);
            assert(all[0] == comp::opaque_fields(item)[0]);
            assert(all.skip(1) =~= rest);
        },
        None => {
            assert(all =~= rest);
        },
    }
}

/// Generating the struct or union of a compound type takes note of unions, and
/// of complex numbers in its bases that take space and in its fields, and of
/// nothing else.
pub proof fn law_struct_noted(ctx: BindgenContext, st: ResultView, item: Item)
    ensures
        ({
            let after = comp::gen_struct(ctx, st, item);
            let bases = the_comp(item).base_members@;
            let fields = law_members::declared(item);
            &&& after == (ResultView {
                items: after.items,
                saw_union: after.saw_union,
                needs_complex: after.needs_complex,
                ..st
            })
            &&& after.items.take(st.items.len() as int) == st.items
            &&& after.saw_union <==> st.saw_union || the_comp(item).kind == CompKind::Union
            &&& after.needs_complex <==> {
                ||| st.needs_complex
                ||| exists|k: int|
                    0 <= k < bases.len() && !ctx.ty(#[trigger] bases[k]).is_unsized
                        && types::rust_ty(ctx, bases[k]).complex
                ||| exists|k: int|
                    0 <= k < fields.len() && types::rust_ty(ctx, (#[trigger] fields[k]).ty).complex
            }
        }),
{
    let after = comp::gen_struct(ctx, st, item);
    assert(after.items.take(st.items.len() as int) =~= st.items);
}

/// Whether a method is counted under a name: it is not virtual, and its
/// function has that name.
pub open spec fn is_called(ctx: BindgenContext, m: Method, name: Seq<char>) -> bool {
    !m.is_virtual && ctx.item(m.signature).kind->Function_0.name@ == name
}

/// How many of the first `n` methods are counted under a name.
pub open spec fn called_before(
    ctx: BindgenContext,
    methods: Seq<Method>,
    n: int,
    name: Seq<char>,
) -> nat {
    methods.take(n).filter(|m: Method| is_called(ctx, m, name)).len()
}

proof fn lemma_called_before(
    ctx: BindgenContext,
    methods: Seq<Method>,
    n: int,
    name: Seq<char>,
)
    requires
        0 <= n <= methods.len(),
    ensures
        called_before(ctx, methods, n, name) == method::named_before(ctx, methods, n, name),
    decreases n,
{
    reveal(Seq::filter);
    if n == 0 {
        assert(methods.take(0) =~= seq![]);
    } else {
        lemma_called_before(ctx, methods, n - 1, name);
        assert(methods.take(n).drop_last() =~= methods.take(n - 1));
        assert(methods.take(n).last() == methods[n - 1]);
    }
}

/// A method has the name of its function, followed by the number of methods of
/// that name before it, if there are any. It calls the function by its
/// canonical name, and returns what that returns. Its arguments are those of
/// the function, but for the first of a method that is not static: that is
/// the receiver, mutable unless the method is constant.
pub proof fn law_method(ctx: BindgenContext, methods: Seq<Method>, k: int)
    requires
        0 <= k < methods.len(),
        !methods[k].is_virtual,
        method::method_ok(ctx, methods[k]),
    ensures
        ({
            let m = methods[k];
            let function = ctx.item(m.signature).kind->Function_0;
            let count = called_before(ctx, methods, k, function.name@);
            let decl = types::sig_decl(ctx, function.signature).decl;
            let got = method::method_item(ctx, methods, k);
            &&& got is Method
            &&& count == 0 ==> got->Method_name == function.name@
            &&& count > 0 ==> words::is_numbered(got->Method_name, function.name@, count)
            &&& got->Method_attrs == seq![AttrView::Inline]
            &&& got->callee == ctx.item(m.signature).canonical_name@
            &&& got->Method_decl.output == decl.output
            &&& got->Method_decl.variadic == decl.variadic
            &&& got->Method_decl.inputs.len() == decl.inputs.len()
            &&& got->Method_args.len() == decl.inputs.len()
            &&& forall|i: int|
                0 <= i < decl.inputs.len() && (i > 0 || m.is_static) ==> {
                    &&& #[trigger] got->Method_decl.inputs[i] == decl.inputs[i]
                    &&& got->Method_args[i] is Name
                    &&& got->Method_args[i]->Name_0 == decl.inputs[i].name
                }
            &&& !m.is_static ==> {
                &&& decl.inputs.len() > 0
                &&& got->Method_decl.inputs[0].name == "self"@
                &&& got->Method_decl.inputs[0].ty is SelfRef
                &&& got->Method_decl.inputs[0].ty->SelfRef_mutable == !m.is_const
                &&& got->Method_args[0] is Receiver
                &&& got->Method_args[0]->mutable == !m.is_const
            }
        }),
{
    let name = ctx.item(methods[k].signature).kind->Function_0.name@;
    lemma_called_before(ctx, methods, k, name);
    words::lemma_numbered(name, called_before(ctx, methods, k, name));
    types::lemma_sig_ok(ctx, ctx.item(methods[k].signature).kind->Function_0.signature);
}

/// How many of the first `n` methods are not virtual.
pub open spec fn callable_before(methods: Seq<Method>, n: int) -> nat {
    methods.take(n).filter(|m: Method| !m.is_virtual).len()
}

/// The methods are those that are not virtual, in their order.
pub proof fn law_methods(ctx: BindgenContext, methods: Seq<Method>, n: int)
    requires
        0 <= n <= methods.len(),
    ensures
        method::method_items(ctx, methods, n).len() == callable_before(methods, n),
        forall|k: int|
            0 <= k < n && !(#[trigger] methods[k]).is_virtual ==> callable_before(methods, k)
                < callable_before(methods, n) && method::method_items(
                ctx,
                methods,
                n,
            )[callable_before(methods, k) as int] == method::method_item(ctx, methods, k),
    decreases n,
{
    lemma_callable_before(methods, n);
    if n > 0 {
        law_methods(ctx, methods, n - 1);
        let before = method::method_items(ctx, methods, n - 1);
        let all = method::method_items(ctx, methods, n);
        assert forall|k: int| 0 <= k < n && !(#[trigger] methods[k]).is_virtual implies
            callable_before(methods, k) < callable_before(methods, n) && all[callable_before(
            methods,
            k,
        ) as int] == method::method_item(ctx, methods, k) by {
            if k < n - 1 {
                assert(all[callable_before(methods, k) as int] == before[callable_before(
                    methods,
                    k,
                ) as int]);
            }
        }
    }
}

proof fn lemma_callable_before(methods: Seq<Method>, n: int)
    requires
        0 <= n <= methods.len(),
    ensures
        n == 0 ==> callable_before(methods, n) == 0,
        n > 0 ==> callable_before(methods, n) == callable_before(methods, n - 1) + (
        if methods[n - 1].is_virtual {
            0int
        } else {
            1int
        }),
{
    reveal(Seq::filter);
    if n == 0 {
        assert(methods.take(0) =~= seq![]);
    } else {
        assert(methods.take(n).drop_last() =~= methods.take(n - 1));
        assert(methods.take(n).last() == methods[n - 1]);
    }
}

/// What a compound type has of its own: the accessors of its fields, and its
/// methods, if they are asked for, it has no template arguments, and no
/// attribute of unknown effect.
pub open spec fn own_items(ctx: BindgenContext, item: Item) -> Seq<ImplItemView> {
    let methods = the_comp(item).methods@;
    if item.applicable_template_args@.len() == 0 && !the_comp(item).found_unknown_attr
        && ctx.options.codegen_config.methods {
        comp::comp_accessors(ctx, item) + method::method_items(
            ctx,
            methods,
            methods.len() as int,
        )
    } else {
        comp::comp_accessors(ctx, item)
    }
}

/// A compound type ends with its `impl` blocks: one that copies it to clone
/// it, if it may be copied and has no template arguments, and one of what it
/// has of its own, if there is any.
pub proof fn law_impls(ctx: BindgenContext, wl: Set<usize>, st: ResultView, id: ItemId)
    requires
        ctx.can_generate_inside(wl, id),
        comp::is_comp(ctx.item(id)),
        !the_comp(ctx.item(id)).has_non_type_template_params,
        !the_comp(ctx.item(id)).is_template_specialization,
    ensures
        ({
            let item = ctx.item(id);
            let args = item.applicable_template_args@;
            let after = codegen::gen_comp(ctx, wl, st, id).items;
            let own = own_items(ctx, item);
            let cloned = after[after.len() - 1 - (if own.len() > 0 {
                1int
            } else {
                0int
            })];
            &&& own.len() > 0 ==> {
                &&& after.last() is Impl
                &&& after.last()->of_trait is None
                &&& words::is_name(after.last()->for_ty, item.canonical_name@)
                &&& is_named_by(ctx, args, after.last()->Impl_generics)
                &&& after.last()->impl_items == own
            }
            &&& may_copy(item) && args.len() == 0 ==> {
                &&& cloned is Impl
                &&& cloned->of_trait is Some
                &&& words::is_name(cloned->of_trait->0, "Clone"@)
                &&& words::is_name(cloned->for_ty, item.canonical_name@)
                &&& cloned->Impl_generics.len() == 0
                &&& cloned->impl_items == seq![ImplItemView::CloneByCopy]
            }
        }),
{
    let item = ctx.item(id);
    assert(codegen::impl_items(ctx, id) =~= own_items(ctx, item));
}

/// A compound type with template parameters that are no types gives nothing,
/// and a template specialization only a test of its layout, if that is known:
/// of its Rust type, its size and its alignment, under a name of the next
/// number.
pub proof fn law_specialization(ctx: BindgenContext, wl: Set<usize>, st: ResultView, id: ItemId)
    requires
        ctx.can_generate_inside(wl, id),
        comp::is_comp(ctx.item(id)),
    ensures
        ({
            let info = the_comp(ctx.item(id));
            let after = codegen::gen_comp(ctx, wl, st, id);
            &&& info.has_non_type_template_params ==> after == st
            &&& !info.has_non_type_template_params && info.is_template_specialization
                ==> match ctx.ty(id).layout {
                None => after == st,
                Some(layout) => {
                    let test = after.items.last();
                    &&& after.items == st.items.push(test)
                    &&& after.codegen_id == st.codegen_id + 1
                    &&& after == (ResultView {
                        items: after.items,
                        codegen_id: after.codegen_id,
                        needs_complex: after.needs_complex,
                        ..st
                    })
                    &&& after.needs_complex <==> st.needs_complex || types::rust_ty(
                        ctx,
                        id,
                    ).complex
                    &&& is_layout_test(ctx, test, types::rust_ty(ctx, id).ty, layout)
                    &&& words::is_numbered(
                        test->LayoutTest_name,
                        "__bindgen_test_layout_template_"@,
                        st.codegen_id + 1,
                    )
                },
            }
        }),
{
    words::lemma_numbered("__bindgen_test_layout_template_"@, st.codegen_id + 1);
}

/// Whether an item tests that a type has a layout.
pub open spec fn is_layout_test(
    ctx: BindgenContext,
    test: ItemView,
    ty: TyView,
    layout: Layout,
) -> bool {
    &&& test is LayoutTest
    &&& test->LayoutTest_prefix == ctx.trait_prefix@
    &&& test->LayoutTest_ty == ty
    &&& test->LayoutTest_size == layout.size
    &&& test->LayoutTest_align == layout.align
}

/// Whether an item tests the layout of a compound type, by its name.
pub open spec fn is_test_of(
    ctx: BindgenContext,
    test: ItemView,
    name: Seq<char>,
    layout: Layout,
) -> bool {
    &&& is_layout_test(ctx, test, test->LayoutTest_ty, layout)
    &&& words::is_name(test->LayoutTest_ty, name)
    &&& test->LayoutTest_name == "bindgen_test_layout_"@ + name
}

/// The layout of a compound type is tested by its name, size and alignment, if
/// it is known, there are no template arguments, and no attribute of unknown
/// effect.
pub proof fn law_comp_tested(ctx: BindgenContext, wl: Set<usize>, st: ResultView, id: ItemId)
    -> (test: ItemView)
    requires
        ctx.can_generate_inside(wl, id),
        comp::is_comp(ctx.item(id)),
        !the_comp(ctx.item(id)).has_non_type_template_params,
        !the_comp(ctx.item(id)).is_template_specialization,
        !the_comp(ctx.item(id)).found_unknown_attr,
        ctx.item(id).applicable_template_args@.len() == 0,
        ctx.ty(id).layout is Some,
    ensures
        codegen::gen_comp(ctx, wl, st, id).items.contains(test),
        is_test_of(ctx, test, ctx.item(id).canonical_name@, ctx.ty(id).layout->0),
{
    crate::laws::law_layout_tested(ctx, wl, st, id);
    codegen::layout_test(
        ctx,
        "bindgen_test_layout_"@ + ctx.item(id).canonical_name@,
        helpers::named_ty(ctx.item(id).canonical_name@),
        ctx.ty(id).layout->0,
    )
}

} // verus!
