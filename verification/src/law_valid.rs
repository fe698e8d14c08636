//! Of which declarations bindings can be generated.
use vstd::prelude::*;

use crate::alias;
use crate::bitfield;
use crate::codegen;
use crate::comp;
use crate::ir::{
    BindgenContext, CompKind, Field, Item, ItemId, ItemKind, Method, TypeKind, VarType,
};
use crate::law_comp;
use crate::law_items;
use crate::law_members;
use crate::law_members::Place;
use crate::law_types;
use crate::method;
use crate::ranking;
use crate::types;
use crate::valid_decls;
use crate::weights;

verus! {

/// Whether each type of a list has a Rust type.
pub open spec fn all_convert(ctx: BindgenContext, ids: Seq<ItemId>) -> bool {
    forall|k: int| 0 <= k < ids.len() ==> ctx.converts(#[trigger] ids[k])
}

/// Whether each item of a list is a type.
pub open spec fn all_types(ctx: BindgenContext, ids: Seq<ItemId>) -> bool {
    forall|k: int| 0 <= k < ids.len() ==> ctx.is_type(#[trigger] ids[k])
}

/// Whether a type is there, and what its Rust type is made of has Rust types.
pub open spec fn is_made_of_types(ctx: BindgenContext, id: ItemId) -> bool {
    let item = ctx.item(id);
    ctx.is_type(id) && match ctx.ty(id).kind {
        TypeKind::UnresolvedTypeRef => false,
        TypeKind::Array(inner, _) => ctx.converts(inner),
        TypeKind::ResolvedTypeRef(inner) => ctx.converts(inner),
        TypeKind::Pointer(inner) | TypeKind::Reference(inner) => ctx.converts(inner)
            && ctx.is_type(ctx.ty(inner).canonical_type),
        TypeKind::TemplateRef(inner, args) => ctx.converts(inner) && (types::rust_ty(
            ctx,
            inner,
        ).ty is Path ==> all_convert(ctx, args@)),
        TypeKind::Function(sig) => {
            &&& ctx.converts(sig.return_type)
            &&& forall|k: int|
                0 <= k < sig.argument_types@.len() ==> {
                    &&& ctx.converts((#[trigger] sig.argument_types@[k]).1)
                    &&& sig.argument_types@[k].0 matches Some(name) ==> ctx.mangle(name@).len() > 0
                }
        },
        TypeKind::TemplateAlias(spelling, _) | TypeKind::Alias(spelling, _) => {
            item.is_opaque || law_types::is_standard(spelling@) || (
            item.namespace_aware_canonical_path@.len() > 0 && all_types(
                ctx,
                item.applicable_template_args@,
            ))
        },
        TypeKind::Comp(info) => item.is_opaque || info.has_non_type_template_params || (
        item.namespace_aware_canonical_path@.len() > 0 && all_convert(
            ctx,
            item.applicable_template_args@,
        )),
        _ => true,
    }
}

proof fn lemma_type_ranked(ctx: BindgenContext, id: ItemId)
    ensures
        ctx.type_rank(id) > 0 <==> ctx.converts(id),
{
    if ctx.converts(id) {
        types::lemma_type_ok(ctx, id);
    }
    if ctx.type_rank(id) > 0 {
        let rankings = ctx.type_rankings();
        let i = id.0 as int;
        let n = ctx.type_rank(id);
        assert(ranking::is_least(rankings, i, n));
        assert(ranking::attained(rankings, i, n));
        let rank = choose|rank: spec_fn(int) -> nat| #[trigger] rankings(rank) && rank(i) == n;
        assert(ctx.types_ranked_by(rank) && rank(i) > 0);
    }
}

/// The least ranks, with one more type ranked above its parts.
spec fn ranked_above(ctx: BindgenContext, id: ItemId, parts: Seq<ItemId>) -> spec_fn(int) -> nat {
    |i: int|
        if i == id.0 {
            types::max_rank(ctx, parts) + 1
        } else {
            (ctx.type_ranks())(i)
        }
}

/// The types that the Rust type of a type is made of.
spec fn type_parts(ctx: BindgenContext, id: ItemId) -> Seq<ItemId> {
    let item = ctx.item(id);
    match ctx.ty(id).kind {
        TypeKind::Array(inner, _) => seq![inner],
        TypeKind::ResolvedTypeRef(inner) => seq![inner],
        TypeKind::Pointer(inner) | TypeKind::Reference(inner) => seq![inner],
        TypeKind::TemplateRef(inner, args) => args@.push(inner),
        TypeKind::Function(sig) => types::arg_types(sig).push(sig.return_type),
        TypeKind::TemplateAlias(_, _) | TypeKind::Alias(_, _) => types::named_args(
            ctx,
            item.applicable_template_args@,
        ),
        TypeKind::Comp(_) => item.applicable_template_args@,
        _ => seq![],
    }
}

/// What was ranked stays ranked where a type that was not is ranked too.
proof fn lemma_others_ranked(ctx: BindgenContext, id: ItemId, parts: Seq<ItemId>, i: int)
    requires
        !ctx.converts(id),
        i != id.0,
        (ctx.type_ranks())(i) > 0,
    ensures
        ctx.type_ok(ranked_above(ctx, id, parts), i),
{
    let least = ctx.type_ranks();
    let rank = ranked_above(ctx, id, parts);
    types::lemma_least_leads_down(ctx);
    assert(0 <= i < ctx.items@.len());
    assert(ctx.items@.len() == ctx.items.len());
    let this = ItemId(i as usize);
    lemma_type_ranked(ctx, this);
    types::lemma_type_ok(ctx, this);
    lemma_type_ranked(ctx, id);
    assert forall|part: ItemId| #[trigger] ctx.below(least, i, part) implies ctx.below(
        rank,
        i,
        part,
    ) by {
        assert(part.0 != id.0);
    }
    match ctx.items@[i].kind->Type_0.kind {
        TypeKind::TemplateRef(inner, args) => {
            lemma_same_path(ctx, id, parts, inner);
        },
        _ => {},
    }
}

proof fn lemma_same_path(ctx: BindgenContext, id: ItemId, parts: Seq<ItemId>, inner: ItemId)
    requires
        !ctx.converts(id),
        ctx.converts(inner),
    ensures
        types::yields_path(ctx, ranked_above(ctx, id, parts), inner) == types::yields_path(
            ctx,
            ctx.type_ranks(),
            inner,
        ),
{
    let least = ctx.type_ranks();
    let rank = ranked_above(ctx, id, parts);
    types::lemma_least_leads_down(ctx);
    types::lemma_type_ok(ctx, inner);
    lemma_type_ranked(ctx, id);
    assert forall|j: int, next: ItemId|
        least(j) > 0 && #[trigger] types::leads_to(ctx, j, next) implies rank(next.0 as int) < rank(
        j,
    ) by {
        assert(0 < least(next.0 as int) < least(j));
    }
    types::lemma_yields_path(ctx, least, rank, inner);
}

/// A type has a Rust type if and only if what that is made of has.
pub proof fn law_converts(ctx: BindgenContext, id: ItemId)
    ensures
        ctx.converts(id) <==> is_made_of_types(ctx, id),
{
    if ctx.converts(id) {
        lemma_converts_made(ctx, id);
    } else if is_made_of_types(ctx, id) {
        lemma_made_converts(ctx, id);
    }
}

proof fn lemma_converts_made(ctx: BindgenContext, id: ItemId)
    requires
        ctx.converts(id),
    ensures
        is_made_of_types(ctx, id),
{
    let least = ctx.type_ranks();
    let item = ctx.item(id);
    types::lemma_type_ok(ctx, id);
    match ctx.ty(id).kind {
        TypeKind::TemplateRef(inner, args) => {
            assert(ctx.below(least, id.0 as int, inner));
            types::lemma_path(ctx, inner);
        },
        TypeKind::Function(sig) => {
            types::lemma_sig_ok(ctx, id);
        },
        TypeKind::TemplateAlias(spelling, _) | TypeKind::Alias(spelling, _) => {
            law_types::law_standard_integers(spelling@);
            if ctx.template_args_ok(item) {
                assert forall|k: int| 0 <= k < item.applicable_template_args@.len() implies
                    ctx.is_type(#[trigger] item.applicable_template_args@[k]) by {}
            }
        },
        TypeKind::Comp(_) => {
            if ctx.all_below(least, id.0 as int, item.applicable_template_args@) {
                assert forall|k: int| 0 <= k < item.applicable_template_args@.len() implies
                    ctx.converts(#[trigger] item.applicable_template_args@[k]) by {
                    assert(ctx.below(
                        least,
                        id.0 as int,
                        item.applicable_template_args@[k],
                    ));
                }
            }
        },
        _ => {},
    }
}

proof fn lemma_part_below(ctx: BindgenContext, id: ItemId, parts: Seq<ItemId>, k: int)
    requires
        !ctx.converts(id),
        0 <= k < parts.len(),
        ctx.converts(parts[k]),
    ensures
        ctx.below(ranked_above(ctx, id, parts), id.0 as int, parts[k]),
{
    types::lemma_max_rank(ctx, parts);
    types::lemma_type_ok(ctx, parts[k]);
    assert(ctx.type_rank(parts[k]) < types::max_rank(ctx, parts));
    assert(parts[k].0 != id.0) by {
        if parts[k].0 == id.0 {
            assert(parts[k] == id);
        }
    }
}

proof fn lemma_made_converts(ctx: BindgenContext, id: ItemId)
    requires
        !ctx.converts(id),
        is_made_of_types(ctx, id),
    ensures
        ctx.converts(id),
{
    let parts = type_parts(ctx, id);
    let rank = ranked_above(ctx, id, parts);
    let i = id.0 as int;
    let item = ctx.item(id);
    match ctx.ty(id).kind {
        TypeKind::Array(inner, _) | TypeKind::ResolvedTypeRef(inner) => {
            assert(parts[0] == inner);
            lemma_part_below(ctx, id, parts, 0);
        },
        TypeKind::Pointer(inner) | TypeKind::Reference(inner) => {
            assert(parts[0] == inner);
            lemma_part_below(ctx, id, parts, 0);
        },
        TypeKind::TemplateRef(inner, args) => {
            let n = args@.len() as int;
            assert(parts[n] == inner);
            lemma_part_below(ctx, id, parts, n);
            lemma_same_path(ctx, id, parts, inner);
            types::lemma_path(ctx, inner);
            if types::rust_ty(ctx, inner).ty is Path {
                assert forall|k: int| 0 <= k < args@.len() implies ctx.below(
                    rank,
                    i,
                    #[trigger] args@[k],
                ) by {
                    assert(parts[k] == args@[k]);
                    lemma_part_below(ctx, id, parts, k);
                }
            }
        },
        TypeKind::Function(sig) => {
            let args = types::arg_types(sig);
            let n = args.len() as int;
            assert(parts[n] == sig.return_type);
            lemma_part_below(ctx, id, parts, n);
            assert forall|k: int| 0 <= k < args.len() implies ctx.below(
                rank,
                i,
                #[trigger] args[k],
            ) by {
                assert(parts[k] == args[k]);
                assert(args[k] == sig.argument_types@[k].1);
                lemma_part_below(ctx, id, parts, k);
            }
        },
        TypeKind::TemplateAlias(spelling, _) | TypeKind::Alias(spelling, _) => {
            law_types::law_standard_integers(spelling@);
            let all = item.applicable_template_args@;
            let pred = |arg: ItemId| ctx.ty(arg).kind is Named;
            if all_types(ctx, all) {
                assert forall|k: int| 0 <= k < parts.len() implies ctx.below(
                    rank,
                    i,
                    #[trigger] parts[k],
                ) by {
                    all.lemma_filter_pred(pred, k);
                    assert(parts.contains(parts[k]));
                    all.lemma_filter_contains_rev(pred, parts[k]);
                    let j = choose|j: int| 0 <= j < all.len() && all[j] == parts[k];
                    assert(ctx.is_type(all[j]));
                    types::lemma_simple_converts(ctx, parts[k]);
                    lemma_part_below(ctx, id, parts, k);
                }
                assert(ctx.template_args_ok(item));
            }
        },
        TypeKind::Comp(_) => {
            if all_convert(ctx, parts) {
                assert forall|k: int| 0 <= k < parts.len() implies ctx.below(
                    rank,
                    i,
                    #[trigger] parts[k],
                ) by {
                    lemma_part_below(ctx, id, parts, k);
                }
            }
        },
        _ => {},
    }
    assert(ctx.type_ok(rank, i));
    assert forall|j: int| rank(j) > 0 implies #[trigger] ctx.type_ok(rank, j) by {
        if j != i {
            lemma_others_ranked(ctx, id, parts, j);
        }
    }
    assert(ctx.types_ranked_by(rank) && rank(i) > 0);
}

/// Whether template arguments are types, and the template parameters among
/// them have names, as far as the first that stops a typedef.
pub open spec fn is_read_well(ctx: BindgenContext, item: Item) -> bool {
    let args = item.applicable_template_args@;
    forall|k: int|
        0 <= k < args.len() ==> {
            ||| ctx.is_type(#[trigger] args[k]) && (ctx.ty(args[k]).kind is Named ==> ctx.ty(
                args[k],
            ).name is Some)
            ||| exists|j: int| 0 <= j < k && law_items::stops_typedef(ctx, #[trigger] args[j])
        }
}

proof fn lemma_read_well(ctx: BindgenContext, item: Item)
    ensures
        alias::params_ok(ctx, item) == is_read_well(ctx, item),
{
    let args = item.applicable_template_args@;
    assert forall|j: int| 0 <= j < args.len() implies law_items::stops_typedef(
        ctx,
        #[trigger] args[j],
    ) == alias::is_typename(ctx, args[j]) by {}
    assert forall|k: int| 0 <= k < args.len() implies #[trigger] alias::typename_before(
        ctx,
        args,
        k,
    ) == (exists|j: int| 0 <= j < k && law_items::stops_typedef(ctx, #[trigger] args[j])) by {
        if alias::typename_before(ctx, args, k) {
            let j = choose|j: int| 0 <= j < k && alias::is_typename(ctx, #[trigger] args[j]);
            assert(law_items::stops_typedef(ctx, args[j]));
        }
        if exists|j: int| 0 <= j < k && law_items::stops_typedef(ctx, #[trigger] args[j]) {
            let j = choose|j: int| 0 <= j < k && law_items::stops_typedef(ctx, #[trigger] args[j]);
            assert(alias::is_typename(ctx, args[j]));
        }
    }
    if is_read_well(ctx, item) {
        assert forall|k: int| 0 <= k < args.len() implies alias::param_ok(ctx, #[trigger] args[k])
            || alias::typename_before(ctx, args, k) by {}
    }
    if alias::params_ok(ctx, item) {
        assert forall|k: int| 0 <= k < args.len() implies {
            ||| ctx.is_type(#[trigger] args[k]) && (ctx.ty(args[k]).kind is Named ==> ctx.ty(
                args[k],
            ).name is Some)
            ||| exists|j: int| 0 <= j < k && law_items::stops_typedef(ctx, #[trigger] args[j])
        } by {
            assert(alias::param_ok(ctx, args[k]) || alias::typename_before(ctx, args, k));
        }
    }
}

/// Whether each item of a list can be generated.
pub open spec fn all_generate(ctx: BindgenContext, wl: Set<usize>, ids: Seq<ItemId>) -> bool {
    forall|k: int| 0 <= k < ids.len() ==> ctx.can_generate(wl, #[trigger] ids[k])
}

/// Whether each method of a list is virtual, or can be generated with its
/// function.
pub open spec fn all_methods_generate(
    ctx: BindgenContext,
    wl: Set<usize>,
    methods: Seq<Method>,
) -> bool {
    forall|k: int|
        0 <= k < methods.len() ==> (#[trigger] methods[k]).is_virtual || (method::method_ok(
            ctx,
            methods[k],
        ) && ctx.can_generate(wl, methods[k].signature))
}

/// Whether an item is there, and if it is not left out, is sound by itself and
/// what is generated with it can be.
pub open spec fn is_made_of_generable(
    ctx: BindgenContext,
    wl: Set<usize>,
    id: ItemId,
) -> bool {
    let item = ctx.item(id);
    ctx.has(id) && (item.is_hidden || !law_items::is_on(ctx, item.kind) || match item.kind {
        ItemKind::Module(_) => {
            &&& all_generate(ctx, wl, law_items::wanted(wl, item))
            &&& ctx.options.enable_cxx_namespaces ==> ctx.has(ctx.root_module) && forall|k: int|
                0 <= k < item.ancestors@.len() ==> ctx.has(#[trigger] item.ancestors@[k])
        },
        ItemKind::Function(function) => ctx.converts(function.signature) && ctx.ty(
            function.signature,
        ).kind is Function,
        ItemKind::Var(var) => ctx.converts(var.ty) && (var.val matches Some(
            VarType::String(bytes),
        ) ==> bytes@.len() < usize::MAX),
        ItemKind::Type(ty) => match ty.kind {
            TypeKind::Comp(info) => if info.has_non_type_template_params {
                true
            } else if info.is_template_specialization {
                ty.layout is Some ==> ctx.converts(item.id)
            } else {
                let plain = item.applicable_template_args@.len() == 0 && !info.found_unknown_attr;
                &&& comp::comp_ok(ctx, item)
                &&& all_generate(ctx, wl, info.inner_types@)
                &&& plain ==> all_generate(ctx, wl, info.inner_vars@)
                &&& plain && ctx.options.codegen_config.methods ==> all_methods_generate(
                    ctx,
                    wl,
                    info.methods@,
                )
            },
            TypeKind::TemplateAlias(spelling, inner) | TypeKind::Alias(spelling, inner) => {
                &&& ctx.has(inner)
                &&& {
                    ||| ctx.item(inner).canonical_name@ == item.canonical_name@
                    ||| law_types::is_standard(spelling@)
                    ||| item.is_opaque
                    ||| ctx.converts(inner) && is_read_well(ctx, item)
                }
            },
            TypeKind::Enum(e) => {
                &&& e.repr matches Some(repr) ==> ctx.is_type(repr) && ctx.is_type(
                    ctx.ty(repr).canonical_type,
                ) && ctx.ty(ctx.ty(repr).canonical_type).kind is Int
                &&& !item.is_toplevel ==> ctx.has(item.parent_id)
            },
            TypeKind::UnresolvedTypeRef => false,
            _ => true,
        },
    })
}

/// One more than the highest rank in a list of items.
spec fn max_decl_rank(ctx: BindgenContext, wl: Set<usize>, ids: Seq<ItemId>) -> nat
    decreases ids.len(),
{
    if ids.len() == 0 {
        0
    } else {
        let rest = max_decl_rank(ctx, wl, ids.drop_last());
        let last = ctx.decl_rank(wl, ids.last()) + 1;
        if rest < last {
            last
        } else {
            rest
        }
    }
}

proof fn lemma_max_decl_rank(ctx: BindgenContext, wl: Set<usize>, ids: Seq<ItemId>)
    ensures
        forall|k: int|
            0 <= k < ids.len() ==> ctx.decl_rank(wl, #[trigger] ids[k]) < max_decl_rank(
                ctx,
                wl,
                ids,
            ),
    decreases ids.len(),
{
    if ids.len() > 0 {
        lemma_max_decl_rank(ctx, wl, ids.drop_last());
        assert forall|k: int| 0 <= k < ids.len() implies ctx.decl_rank(wl, #[trigger] ids[k])
            < max_decl_rank(ctx, wl, ids) by {
            if k < ids.len() - 1 {
                assert(ids.drop_last()[k] == ids[k]);
            }
        }
    }
}

/// The functions that methods are.
spec fn functions_of(methods: Seq<Method>) -> Seq<ItemId> {
    Seq::new(methods.len(), |k: int| methods[k].signature)
}

/// What is generated with an item.
spec fn decl_parts(ctx: BindgenContext, wl: Set<usize>, id: ItemId) -> Seq<ItemId> {
    let item = ctx.item(id);
    match item.kind {
        ItemKind::Module(_) => law_items::wanted(wl, item),
        ItemKind::Type(ty) => match ty.kind {
            TypeKind::Comp(info) => info.inner_types@ + info.inner_vars@ + functions_of(
                info.methods@,
            ),
            _ => seq![],
        },
        _ => seq![],
    }
}

/// The least ranks, with one more item ranked above what is generated with
/// it.
spec fn declared_above(ctx: BindgenContext, wl: Set<usize>, id: ItemId) -> spec_fn(int) -> nat {
    |i: int|
        if i == id.0 {
            max_decl_rank(ctx, wl, decl_parts(ctx, wl, id)) + 1
        } else {
            (ctx.decl_ranks(wl))(i)
        }
}

proof fn lemma_decl_below(ctx: BindgenContext, wl: Set<usize>, id: ItemId, k: int)
    requires
        !ctx.can_generate(wl, id),
        0 <= k < decl_parts(ctx, wl, id).len(),
        ctx.can_generate(wl, decl_parts(ctx, wl, id)[k]),
    ensures
        ({
            let rank = declared_above(ctx, wl, id);
            0 < rank(decl_parts(ctx, wl, id)[k].0 as int) < rank(id.0 as int)
        }),
{
    let parts = decl_parts(ctx, wl, id);
    lemma_max_decl_rank(ctx, wl, parts);
    codegen::lemma_ranked(ctx, wl, parts[k]);
    assert(ctx.decl_rank(wl, parts[k]) < max_decl_rank(ctx, wl, parts));
    assert(parts[k].0 != id.0) by {
        if parts[k].0 == id.0 {
            assert(parts[k] == id);
        }
    }
}

proof fn lemma_list_below(
    ctx: BindgenContext,
    wl: Set<usize>,
    id: ItemId,
    ids: Seq<ItemId>,
    at: int,
)
    requires
        !ctx.can_generate(wl, id),
        all_generate(ctx, wl, ids),
        0 <= at,
        at + ids.len() <= decl_parts(ctx, wl, id).len(),
        forall|k: int| 0 <= k < ids.len() ==> decl_parts(ctx, wl, id)[at + k] == #[trigger] ids[k],
    ensures
        ctx.ranked_below(declared_above(ctx, wl, id), id.0 as int, ids),
{
    let rank = declared_above(ctx, wl, id);
    assert forall|k: int| 0 <= k < ids.len() implies 0 < rank((#[trigger] ids[k]).0 as int) < rank(
        id.0 as int,
    ) by {
        assert(ctx.can_generate(wl, ids[k]));
        lemma_decl_below(ctx, wl, id, at + k);
    }
}

/// What was ranked stays ranked where an item that was not is ranked too.
proof fn lemma_other_decls(ctx: BindgenContext, wl: Set<usize>, id: ItemId, i: int)
    requires
        !ctx.can_generate(wl, id),
        i != id.0,
        (ctx.decl_ranks(wl))(i) > 0,
        0 <= i < ctx.items@.len(),
    ensures
        ctx.decl_ok(wl, declared_above(ctx, wl, id), i),
{
    let least = ctx.decl_ranks(wl);
    let rank = declared_above(ctx, wl, id);
    assert(ctx.items@.len() == ctx.items.len());
    let this = ItemId(i as usize);
    codegen::lemma_ranked(ctx, wl, this);
    codegen::lemma_decl(ctx, wl, this);
    codegen::lemma_ranked(ctx, wl, id);
    assert(least(id.0 as int) == 0);
    assert forall|ids: Seq<ItemId>| #[trigger] ctx.ranked_below(least, i, ids) implies
        ctx.ranked_below(rank, i, ids) by {
        assert forall|k: int| 0 <= k < ids.len() implies 0 < rank((#[trigger] ids[k]).0 as int)
            < rank(i) by {
            assert(0 < least(ids[k].0 as int) < least(i));
        }
    }
    if let ItemKind::Type(ty) = ctx.items@[i].kind {
        if let TypeKind::Comp(info) = ty.kind {
            let methods = info.methods@;
            if ctx.methods_ok(least, i, methods) {
                assert forall|k: int|
                    #![trigger methods[k]]
                    0 <= k < methods.len() implies method::method_ok(ctx, methods[k]) && (
                !methods[k].is_virtual ==> 0 < rank(methods[k].signature.0 as int) < rank(i)) by {
                    if !methods[k].is_virtual {
                        assert(0 < least(methods[k].signature.0 as int) < least(i));
                    }
                }
            }
            assert(ctx.comp_inside_ok(least, i) ==> ctx.comp_inside_ok(rank, i));
        }
    }
}

/// An item can be generated if and only if it is left out, or it is sound by
/// itself and what is generated with it can be.
pub proof fn law_can_generate(ctx: BindgenContext, wl: Set<usize>, id: ItemId)
    ensures
        ctx.can_generate(wl, id) <==> is_made_of_generable(ctx, wl, id),
{
    if ctx.can_generate(wl, id) {
        lemma_generable(ctx, wl, id);
    } else if is_made_of_generable(ctx, wl, id) {
        lemma_generates(ctx, wl, id);
    }
}

/// An item that is not left out can be generated by itself if and only if it
/// can be generated.
pub proof fn law_can_generate_inside(ctx: BindgenContext, wl: Set<usize>, id: ItemId)
    requires
        !ctx.item(id).is_hidden,
        law_items::is_on(ctx, ctx.item(id).kind),
    ensures
        ctx.can_generate_inside(wl, id) <==> is_made_of_generable(ctx, wl, id),
{
    if ctx.can_generate_inside(wl, id) {
        lemma_generable_inside(ctx, wl, id);
    }
    if is_made_of_generable(ctx, wl, id) {
        law_can_generate(ctx, wl, id);
        codegen::lemma_decl(ctx, wl, id);
    }
}

proof fn lemma_generable(ctx: BindgenContext, wl: Set<usize>, id: ItemId)
    requires
        ctx.can_generate(wl, id),
    ensures
        is_made_of_generable(ctx, wl, id),
{
    codegen::lemma_decl(ctx, wl, id);
    if !ctx.item(id).is_hidden && law_items::is_on(ctx, ctx.item(id).kind) {
        lemma_generable_inside(ctx, wl, id);
    }
}

proof fn lemma_generable_inside(ctx: BindgenContext, wl: Set<usize>, id: ItemId)
    requires
        ctx.can_generate_inside(wl, id),
    ensures
        is_made_of_generable(ctx, wl, id),
{
    let item = ctx.item(id);
    if !item.is_hidden && law_items::is_on(ctx, item.kind) {
        match item.kind {
            ItemKind::Module(module) => {
                assert(codegen::asked_for(wl, module.children@) == law_items::wanted(wl, item));
                codegen::lemma_nested(ctx, wl, id, law_items::wanted(wl, item));
            },
            ItemKind::Type(ty) => match ty.kind {
                TypeKind::Comp(info) => {
                    if !info.has_non_type_template_params && !info.is_template_specialization {
                        codegen::lemma_comp_inside(ctx, wl, id);
                    }
                },
                TypeKind::TemplateAlias(spelling, _) | TypeKind::Alias(spelling, _) => {
                    law_types::law_standard_integers(spelling@);
                    lemma_read_well(ctx, item);
                },
                _ => {},
            },
            _ => {},
        }
    }
}

proof fn lemma_generates(ctx: BindgenContext, wl: Set<usize>, id: ItemId)
    requires
        !ctx.can_generate(wl, id),
        is_made_of_generable(ctx, wl, id),
    ensures
        ctx.can_generate(wl, id),
{
    let rank = declared_above(ctx, wl, id);
    let i = id.0 as int;
    let item = ctx.item(id);
    if !item.is_hidden && law_items::is_on(ctx, item.kind) {
        match item.kind {
            ItemKind::Module(module) => {
                assert(codegen::asked_for(wl, module.children@) == law_items::wanted(wl, item));
                lemma_list_below(ctx, wl, id, law_items::wanted(wl, item), 0);
            },
            ItemKind::Function(function) => {
                types::lemma_type_ok(ctx, function.signature);
            },
            ItemKind::Type(ty) => match ty.kind {
                TypeKind::Comp(info) => {
                    if !info.has_non_type_template_params && !info.is_template_specialization {
                        lemma_comp_generates(ctx, wl, id);
                    }
                },
                TypeKind::TemplateAlias(spelling, _) | TypeKind::Alias(spelling, _) => {
                    law_types::law_standard_integers(spelling@);
                    lemma_read_well(ctx, item);
                },
                _ => {},
            },
            _ => {},
        }
    }
    assert(ctx.decl_ok(wl, rank, i));
    assert forall|j: int| rank(j) > 0 implies #[trigger] ctx.decl_ok(wl, rank, j) by {
        if j != i {
            lemma_in_range(ctx, wl, j);
            lemma_other_decls(ctx, wl, id, j);
        }
    }
    assert(ctx.decls_ranked_by(wl, rank) && rank(i) > 0);
}

proof fn lemma_in_range(ctx: BindgenContext, wl: Set<usize>, i: int)
    requires
        (ctx.decl_ranks(wl))(i) > 0,
    ensures
        0 <= i < ctx.items@.len(),
{
    let rankings = ctx.decl_rankings(wl);
    let n = (ctx.decl_ranks(wl))(i);
    assert(ranking::is_least(rankings, i, n));
    assert(ranking::attained(rankings, i, n));
    let rank = choose|rank: spec_fn(int) -> nat| #[trigger] rankings(rank) && rank(i) == n;
    assert(ctx.decls_ranked_by(wl, rank));
    assert(ctx.decl_ok(wl, rank, i));
}

proof fn lemma_comp_generates(ctx: BindgenContext, wl: Set<usize>, id: ItemId)
    requires
        !ctx.can_generate(wl, id),
        is_made_of_generable(ctx, wl, id),
        comp::is_comp(ctx.item(id)),
        !ctx.item(id).is_hidden,
        law_items::is_on(ctx, ctx.item(id).kind),
        !law_comp::the_comp(ctx.item(id)).has_non_type_template_params,
        !law_comp::the_comp(ctx.item(id)).is_template_specialization,
    ensures
        ctx.comp_inside_ok(declared_above(ctx, wl, id), id.0 as int),
{
    let rank = declared_above(ctx, wl, id);
    let i = id.0 as int;
    let item = ctx.item(id);
    let info = law_comp::the_comp(item);
    let parts = decl_parts(ctx, wl, id);
    let types_len = info.inner_types@.len() as int;
    let vars_len = info.inner_vars@.len() as int;
    assert forall|k: int| 0 <= k < types_len implies parts[0 + k]
        == #[trigger] info.inner_types@[k] by {}
    lemma_list_below(ctx, wl, id, info.inner_types@, 0);
    if codegen::is_plain(item) {
        assert forall|k: int| 0 <= k < vars_len implies parts[types_len + k]
            == #[trigger] info.inner_vars@[k] by {}
        lemma_list_below(ctx, wl, id, info.inner_vars@, types_len);
        if ctx.options.codegen_config.methods {
            let methods = info.methods@;
            assert forall|k: int|
                #![trigger methods[k]]
                0 <= k < methods.len() implies method::method_ok(ctx, methods[k]) && (
            !methods[k].is_virtual ==> 0 < rank(methods[k].signature.0 as int) < rank(i)) by {
                if !methods[k].is_virtual {
                    assert(parts[types_len + vars_len + k] == methods[k].signature);
                    lemma_decl_below(ctx, wl, id, types_len + vars_len + k);
                }
            }
        }
    }
}

/// Whether a bitfield can be read and written: its width and its place are
/// within a machine word, and the size in bits of the type that it is declared
/// with is known and fits one.
pub open spec fn is_reachable(ctx: BindgenContext, field: Field, offset: nat) -> bool {
    &&& field.bitfield->0 < usize::BITS
    &&& offset < usize::BITS
    &&& ctx.ty(field.ty).layout is Some
    &&& law_members::declared_bits(ctx, field) <= usize::MAX
}

/// What is asked of a compound type by itself: that its bases are types, those
/// that take space and its fields have Rust types, its bitfields can be reached
/// where they are placed, its template arguments are types with names, and its
/// layout is known if it is a union that is emulated.
pub proof fn law_comp_sound(ctx: BindgenContext, item: Item, place: Seq<Place>)
    requires
        comp::is_comp(item),
        law_members::is_placement(ctx, item, place),
        forall|k: int|
            0 <= k < place.len() && (#[trigger] law_members::declared(item)[k]).bitfield is Some
                && ctx.ty(law_members::declared(item)[k].ty).layout is Some
                ==> law_members::declared_bits(ctx, law_members::declared(item)[k]) <= u32::MAX,
    ensures
        ({
            let info = law_comp::the_comp(item);
            let bases = info.base_members@;
            let fields = info.fields@;
            let args = item.applicable_template_args@;
            comp::comp_ok(ctx, item) <==> {
                &&& forall|k: int|
                    0 <= k < bases.len() ==> ctx.is_type(#[trigger] bases[k]) && (ctx.ty(
                        bases[k],
                    ).is_unsized || ctx.converts(bases[k]))
                &&& forall|k: int|
                    0 <= k < fields.len() ==> ctx.converts((#[trigger] fields[k]).ty)
                &&& forall|k: int|
                    0 <= k < fields.len() && (#[trigger] fields[k]).bitfield is Some
                        ==> is_reachable(ctx, fields[k], place[k].offset)
                &&& forall|k: int|
                    0 <= k < args.len() ==> ctx.is_type(#[trigger] args[k]) && ctx.ty(
                        args[k],
                    ).name is Some
                &&& info.kind == CompKind::Union && !ctx.options.unstable_rust
                    ==> item.kind->Type_0.layout is Some
            }
        }),
{
    let fields = law_comp::the_comp(item).fields@;
    assert forall|k: int| 0 <= k < fields.len() && ctx.converts(
        (#[trigger] fields[k]).ty,
    ) implies ctx.is_type(fields[k].ty) by {
        types::lemma_type_ok(ctx, fields[k].ty);
    }
    if all_alone_ok(ctx, fields) {
        lemma_members_sound(ctx, item, place, 0);
        assert forall|k: int|
            0 <= k < fields.len() && (#[trigger] fields[k]).bitfield is Some implies (
        is_reachable(ctx, fields[k], place[k].offset) <==> place[k].offset < usize::BITS) by {
            assert(bitfield::bitfield_ok(ctx, fields[k]));
        }
        if forall|k: int|
            0 <= k < fields.len() && (#[trigger] fields[k]).bitfield is Some ==> is_reachable(
                ctx,
                fields[k],
                place[k].offset,
            ) {
            assert(comp::members_ok(ctx, fields, 0));
        }
        if comp::members_ok(ctx, fields, 0) {
            assert forall|k: int|
                0 <= k < fields.len() && (#[trigger] fields[k]).bitfield is Some implies
                is_reachable(ctx, fields[k], place[k].offset) by {
                assert(place[k].offset < usize::BITS);
            }
        }
    } else if forall|k: int| 0 <= k < fields.len() ==> ctx.converts((#[trigger] fields[k]).ty) {
        assert(!comp::fields_ok(ctx, fields));
        let k = choose|k: int|
            0 <= k < fields.len() && (#[trigger] fields[k]).bitfield is Some
                && !bitfield::bitfield_ok(ctx, fields[k]);
        assert(ctx.converts(fields[k].ty));
        assert(!is_reachable(ctx, fields[k], place[k].offset));
    }
}

/// Whether each bitfield can be generated by itself.
spec fn all_alone_ok(ctx: BindgenContext, fields: Seq<Field>) -> bool {
    forall|k: int|
        0 <= k < fields.len() && (#[trigger] fields[k]).bitfield is Some ==> bitfield::bitfield_ok(
            ctx,
            fields[k],
        )
}

/// A bitfield of a run is placed behind those of the run before it.
proof fn lemma_placed_in_run(
    ctx: BindgenContext,
    item: Item,
    place: Seq<Place>,
    i: int,
    end: int,
    k: int,
)
    requires
        law_members::is_placement(ctx, item, place),
        0 <= i <= k < end <= place.len(),
        i > 0 ==> !law_members::shares(ctx, law_members::declared(item), place[i - 1].first, i),
        forall|j: int|
            i <= j < end ==> (#[trigger] law_members::declared(item)[j]).bitfield is Some,
        forall|j: int|
            i < j < end ==> #[trigger] law_members::shares(
                ctx,
                law_members::declared(item),
                i,
                j,
            ),
    ensures
        place[k].first == i,
        place[k].offset == bitfield::bits_before(
            law_members::declared(item).subrange(i, end),
            k - i,
        ),
    decreases k,
{
    let fields = law_members::declared(item);
    let run = fields.subrange(i, end);
    assert(law_members::is_placed(ctx, item, place, k));
    assert(fields[k].bitfield is Some);
    if k > i {
        lemma_placed_in_run(ctx, item, place, i, end, k - 1);
        assert(law_members::shares(ctx, fields, i, k));
        assert(run[k - 1 - i] == fields[k - 1]);
    }
}

/// From the start of a run or a field on, the fields can be generated if and
/// only if each bitfield starts within a machine word.
proof fn lemma_members_sound(ctx: BindgenContext, item: Item, place: Seq<Place>, i: int)
    requires
        law_members::is_placement(ctx, item, place),
        0 <= i <= place.len(),
        i > 0 ==> !law_members::shares(ctx, law_members::declared(item), place[i - 1].first, i),
        all_alone_ok(ctx, law_members::declared(item)),
        law_members::sizes_ok(ctx, law_members::declared(item)),
    ensures
        comp::members_ok(ctx, law_members::declared(item), i) <==> forall|k: int|
            i <= k < place.len() && (
            #[trigger] law_members::declared(item)[k]).bitfield is Some ==> place[k].offset
                < usize::BITS,
    decreases place.len() - i,
{
    let fields = law_members::declared(item);
    if i < place.len() {
        if fields[i].bitfield is Some {
            comp::lemma_run_end(ctx, fields, i, i + 1);
            let end = comp::run_end(ctx, fields, i, i + 1);
            let run = fields.subrange(i, end);
            law_members::lemma_run(ctx, fields, i, i + 1);
            assert forall|k: int| i <= k < end implies (#[trigger] place[k]).offset
                == bitfield::bits_before(run, k - i) && place[k].first == i by {
                lemma_placed_in_run(ctx, item, place, i, end, k);
            }
            assert(place[end - 1].first == i);
            lemma_members_sound(ctx, item, place, end);
            assert forall|k: int| 0 <= k < run.len() implies bitfield::bitfield_ok(
                ctx,
                #[trigger] run[k],
            ) by {
                assert(fields[i + k].bitfield is Some);
            }
            if bitfield::run_ok(ctx, run) {
                assert forall|k: int| i <= k < end implies (#[trigger] place[k]).offset
                    < usize::BITS by {
                    assert(bitfield::bits_before(run, k - i) < usize::BITS);
                }
            }
            if forall|k: int|
                i <= k < place.len() && (#[trigger] fields[k]).bitfield is Some ==> place[k].offset
                    < usize::BITS {
                assert forall|k: int| 0 <= k < run.len() implies #[trigger] bitfield::bits_before(
                    run,
                    k,
                ) < usize::BITS by {
                    assert(fields[i + k].bitfield is Some);
                    assert(place[i + k].offset == bitfield::bits_before(run, i + k - i));
                }
            }
        } else {
            lemma_members_sound(ctx, item, place, i + 1);
        }
    }
}

/// A method that is not virtual can be generated if and only if it is a
/// function whose signature has a Rust type, with a first argument if it is
/// not static.
pub proof fn law_method_sound(ctx: BindgenContext, m: Method)
    requires
        !m.is_virtual,
    ensures
        method::method_ok(ctx, m) <==> ctx.has(m.signature) && (ctx.item(
            m.signature,
        ).kind matches ItemKind::Function(function) && ctx.converts(function.signature) && ctx.ty(
            function.signature,
        ).kind is Function && (!m.is_static ==> ctx.ty(
            function.signature,
        ).kind->Function_0.argument_types@.len() > 0)),
{
    if let ItemKind::Function(function) = ctx.item(m.signature).kind {
        if ctx.converts(function.signature) {
            types::lemma_type_ok(ctx, function.signature);
        }
    }
}

/// What is generated with an item, unless it is left out: the children of a
/// module that were asked for, and of a compound type the types declared in
/// it, and unless it has template arguments or an attribute of unknown effect
/// the variables, and if they are asked for the functions of its methods that
/// are not virtual.
pub open spec fn generated_with(ctx: BindgenContext, wl: Set<usize>, id: ItemId) -> Seq<ItemId> {
    let item = ctx.item(id);
    if item.is_hidden || !law_items::is_on(ctx, item.kind) {
        seq![]
    } else if item.kind is Module {
        law_items::wanted(wl, item)
    } else if comp::is_comp(item) {
        let info = law_comp::the_comp(item);
        let plain = item.applicable_template_args@.len() == 0 && !info.found_unknown_attr;
        if info.has_non_type_template_params || info.is_template_specialization {
            seq![]
        } else if !plain {
            info.inner_types@
        } else if !ctx.options.codegen_config.methods {
            info.inner_types@ + info.inner_vars@
        } else {
            info.inner_types@ + info.inner_vars@ + info.methods@.filter(
                |m: Method| !m.is_virtual,
            ).map_values(|m: Method| m.signature)
        }
    } else {
        seq![]
    }
}

/// The weights of the first `n` items of a list together.
pub open spec fn total_weight(ctx: BindgenContext, wl: Set<usize>, ids: Seq<ItemId>, n: int) -> nat
    decreases n,
{
    if n <= 0 {
        0
    } else {
        total_weight(ctx, wl, ids, n - 1) + weights::weight(ctx, wl, ids[n - 1])
    }
}

proof fn lemma_signatures(methods: Seq<Method>, n: int)
    requires
        0 <= n <= methods.len(),
    ensures
        valid_decls::signatures(methods, n) == methods.take(n).filter(
            |m: Method| !m.is_virtual,
        ).map_values(|m: Method| m.signature),
    decreases n,
{
    reveal(Seq::filter);
    let pred = |m: Method| !m.is_virtual;
    let some = methods.take(n).filter(pred).map_values(|m: Method| m.signature);
    if n == 0 {
        assert(methods.take(0) =~= seq![]);
        assert(some =~= seq![]);
    } else {
        lemma_signatures(methods, n - 1);
        let fewer = methods.take(n - 1).filter(pred);
        assert(methods.take(n).drop_last() =~= methods.take(n - 1));
        assert(methods.take(n).last() == methods[n - 1]);
        if !methods[n - 1].is_virtual {
            assert(methods.take(n).filter(pred) =~= fewer.push(methods[n - 1]));
            assert(some =~= fewer.map_values(|m: Method| m.signature).push(
                methods[n - 1].signature,
            ));
        }
    }
}

proof fn lemma_total_weight(
    ctx: BindgenContext,
    wl: Set<usize>,
    owner: ItemId,
    ids: Seq<ItemId>,
    n: int,
)
    requires
        ctx.nested_in(wl, owner, ids),
        0 <= n <= ids.len(),
    ensures
        ctx.nested_in(wl, owner, ids.take(n)),
        weights::weights(ctx, wl, owner, ids.take(n)) == total_weight(ctx, wl, ids, n),
    decreases n,
{
    assert forall|k: int| 0 <= k < n implies ctx.can_generate(wl, #[trigger] ids.take(n)[k])
        && ctx.decl_rank(wl, ids.take(n)[k]) < ctx.decl_rank(wl, owner) by {
        assert(ids[k] == ids.take(n)[k]);
    }
    if n > 0 {
        lemma_total_weight(ctx, wl, owner, ids, n - 1);
        assert(ids.take(n).drop_last() =~= ids.take(n - 1));
        assert(ids.take(n).last() == ids[n - 1]);
    }
}

/// An item weighs one more than what is generated with it together.
pub proof fn law_weight(ctx: BindgenContext, wl: Set<usize>, id: ItemId)
    requires
        ctx.can_generate(wl, id),
    ensures
        weights::weight(ctx, wl, id) == 1 + total_weight(
            ctx,
            wl,
            generated_with(ctx, wl, id),
            generated_with(ctx, wl, id).len() as int,
        ),
{
    let parts = generated_with(ctx, wl, id);
    let item = ctx.item(id);
    if comp::is_comp(item) {
        let methods = law_comp::the_comp(item).methods@;
        lemma_signatures(methods, methods.len() as int);
        assert(methods.take(methods.len() as int) =~= methods);
    }
    codegen::lemma_decl(ctx, wl, id);
    assert(parts =~= valid_decls::decl_parts(ctx, wl, id.0 as int));
    valid_decls::lemma_decl_ok(ctx, wl, ctx.decl_ranks(wl), id.0 as int);
    codegen::lemma_nested(ctx, wl, id, parts);
    lemma_total_weight(ctx, wl, id, parts, parts.len() as int);
    assert(parts.take(parts.len() as int) =~= parts);
}

/// Bindings can be generated if and only if every item is held under its own
/// id, there are no more items than can be counted, and the root can be
/// generated.
pub proof fn law_well_formed(ctx: BindgenContext)
    ensures
        ctx.wf() <==> {
            &&& forall|i: int| 0 <= i < ctx.items@.len() ==> (#[trigger] ctx.items@[i]).id.0 == i
            &&& ctx.items@.len() <= u32::MAX
            &&& is_made_of_generable(ctx, ctx.whitelist(), ctx.root_module)
        },
{
    law_can_generate(ctx, ctx.whitelist(), ctx.root_module);
}

} // verus!
