//! From declarations to bindings: the traversal of modules and of what is
//! declared in compound types.
use std::collections::HashSet;

use vstd::hash_map::StringHashMap;
use vstd::prelude::*;

use crate::alias;
use crate::ast;
use crate::ast::{ImplItem, ImplItemView, ItemView, TyView};
use crate::comp;
use crate::enums;
use crate::foreign;
use crate::growth;
use crate::helpers;
use crate::helpers::ty_named;
use crate::ir::{
    BindgenContext, CompInfo, Item, ItemId, ItemKind, Layout, Method, Module, Type, TypeKind,
};
use crate::method;
use crate::names;
use crate::names::{cat, clone_strings, numbered};
use crate::ranking;
use crate::result;
use crate::result::{CodegenResult, ResultView};
use crate::support;
use crate::support::{prepend_complex_type, prepend_union_types, root_import};
use crate::types;

verus! {

impl BindgenContext {
    /// Whether the items of a list are ranked below the item at `i`.
    pub open spec fn ranked_below(
        &self,
        rank: spec_fn(int) -> nat,
        i: int,
        ids: Seq<ItemId>,
    ) -> bool {
        forall|k: int| 0 <= k < ids.len() ==> 0 < rank((#[trigger] ids[k]).0 as int) < rank(i)
    }

    /// Whether the methods of a compound type can be generated, and those
    /// that are not virtual are ranked below it.
    pub open spec fn methods_ok(
        &self,
        rank: spec_fn(int) -> nat,
        i: int,
        methods: Seq<Method>,
    ) -> bool {
        forall|k: int|
            #![trigger methods[k]]
            0 <= k < methods.len() ==> method::method_ok(*self, methods[k]) && (
            !methods[k].is_virtual ==> 0 < rank(methods[k].signature.0 as int) < rank(i))
    }

    /// Whether items of a kind are generated at all.
    pub open spec fn is_switched_on(&self, kind: ItemKind) -> bool {
        let config = self.options.codegen_config;
        match kind {
            ItemKind::Module(_) => true,
            ItemKind::Function(_) => config.functions,
            ItemKind::Var(_) => config.vars,
            ItemKind::Type(_) => config.types,
        }
    }

    /// Whether the compound type at `i` can be generated, and what is declared
    /// in it and generated with it is ranked below it.
    pub open spec fn comp_inside_ok(&self, rank: spec_fn(int) -> nat, i: int) -> bool {
        let item = self.items@[i];
        let info = comp::comp(item);
        if info.has_non_type_template_params {
            true
        } else if info.is_template_specialization {
            item.kind->Type_0.layout is Some ==> self.converts(item.id)
        } else {
            &&& comp::comp_ok(*self, item)
            &&& self.ranked_below(rank, i, info.inner_types@)
            &&& is_plain(item) ==> self.ranked_below(rank, i, info.inner_vars@)
            &&& is_plain(item) && self.options.codegen_config.methods ==> self.methods_ok(
                rank,
                i,
                info.methods@,
            )
        }
    }

    /// Whether the item at `i` can be generated, and what is generated with
    /// it is ranked below it.
    pub open spec fn inside_ok(&self, wl: Set<usize>, rank: spec_fn(int) -> nat, i: int) -> bool {
        let item = self.items@[i];
        match item.kind {
            ItemKind::Module(module) => {
                &&& self.ranked_below(rank, i, asked_for(wl, module.children@))
                &&& self.options.enable_cxx_namespaces ==> self.has(self.root_module) && forall|
                    k: int,
                |
                    0 <= k < item.ancestors@.len() ==> self.has(#[trigger] item.ancestors@[k])
            },
            ItemKind::Function(function) => foreign::function_ok(*self, function),
            ItemKind::Var(var) => foreign::var_ok(*self, var),
            ItemKind::Type(ty) => match ty.kind {
                TypeKind::Comp(_) => self.comp_inside_ok(rank, i),
                TypeKind::TemplateAlias(spelling, inner) | TypeKind::Alias(spelling, inner) => {
                    alias::alias_ok(*self, item, spelling@, inner)
                },
                TypeKind::Enum(_) => enums::enum_ok(*self, item),
                TypeKind::UnresolvedTypeRef => false,
                _ => true,
            },
        }
    }

    /// Whether the item at `i` exists, and if it is generated can be.
    pub open spec fn decl_ok(&self, wl: Set<usize>, rank: spec_fn(int) -> nat, i: int) -> bool {
        0 <= i < self.items@.len() && {
            let item = self.items@[i];
            item.is_hidden || !self.is_switched_on(item.kind) || self.inside_ok(wl, rank, i)
        }
    }

    /// Whether everything that is ranked can be generated, with what is
    /// ranked below it.
    pub open spec fn decls_ranked_by(&self, wl: Set<usize>, rank: spec_fn(int) -> nat) -> bool {
        forall|i: int| rank(i) > 0 ==> #[trigger] self.decl_ok(wl, rank, i)
    }

    /// The rankings of items.
    pub open spec fn decl_rankings(&self, wl: Set<usize>) -> spec_fn(spec_fn(int) -> nat) -> bool {
        |rank: spec_fn(int) -> nat| self.decls_ranked_by(wl, rank)
    }

    /// Whether the item `id` can be generated: it and everything that is
    /// generated with it exists, can be generated, and is not declared in
    /// itself. Nothing is asked of items that are not reached from it, that
    /// are hidden, or whose kind is not generated.
    pub open spec fn can_generate(&self, wl: Set<usize>, id: ItemId) -> bool {
        exists|rank: spec_fn(int) -> nat| #[trigger]
            self.decls_ranked_by(wl, rank) && rank(id.0 as int) > 0
    }

    /// The least rank that each item can have, or zero.
    pub open spec fn decl_ranks(&self, wl: Set<usize>) -> spec_fn(int) -> nat {
        |i: int| ranking::least_rank(self.decl_rankings(wl), i)
    }

    /// The least rank that an item can have, or zero.
    pub open spec fn decl_rank(&self, wl: Set<usize>, id: ItemId) -> nat {
        (self.decl_ranks(wl))(id.0 as int)
    }

    /// Whether the item `id` can be generated, taken by itself: as if it was
    /// neither hidden nor of a kind that is not generated.
    pub open spec fn can_generate_inside(&self, wl: Set<usize>, id: ItemId) -> bool {
        self.has(id) && self.inside_ok(wl, self.decl_ranks(wl), id.0 as int)
    }

    /// Whether the items of a list can be generated, and be declared in the
    /// item `owner`.
    pub open spec fn nested_in(&self, wl: Set<usize>, owner: ItemId, ids: Seq<ItemId>) -> bool {
        forall|k: int|
            0 <= k < ids.len() ==> self.can_generate(wl, #[trigger] ids[k]) && self.decl_rank(
                wl,
                ids[k],
            ) < self.decl_rank(wl, owner)
    }

    /// Whether the methods can be generated, and be those of the compound
    /// type `owner`.
    pub open spec fn methods_in(
        &self,
        wl: Set<usize>,
        owner: ItemId,
        methods: Seq<Method>,
    ) -> bool {
        forall|k: int|
            #![trigger methods[k]]
            0 <= k < methods.len() ==> method::method_ok(*self, methods[k]) && (
            !methods[k].is_virtual ==> self.can_generate(wl, methods[k].signature)
                && self.decl_rank(wl, methods[k].signature) < self.decl_rank(wl, owner))
    }

    /// Every item is held under its own id, and the items can be counted.
    pub open spec fn is_sound(&self) -> bool {
        self.ids_wf() && self.items@.len() <= u32::MAX
    }

    /// Whether bindings can be generated.
    pub open spec fn wf(&self) -> bool {
        self.is_sound() && self.can_generate(self.whitelist(), self.root_module)
    }

    /// The ids of the items that were asked for.
    pub open spec fn whitelist(&self) -> Set<usize> {
        Set::new(
            |i: usize|
                exists|k: int|
                    0 <= k < self.whitelisted_items@.len() && (
                    #[trigger] self.whitelisted_items@[k]).0 == i,
        )
    }
}

/// What is ranked can be generated.
pub proof fn lemma_ranked(ctx: BindgenContext, wl: Set<usize>, id: ItemId)
    ensures
        ctx.decl_rank(wl, id) > 0 <==> ctx.can_generate(wl, id),
{
    let rankings = ctx.decl_rankings(wl);
    let i = id.0 as int;
    let n = ctx.decl_rank(wl, id);
    if n > 0 {
        assert(ranking::is_least(rankings, i, n));
        assert(ranking::attained(rankings, i, n));
        let rank = choose|rank: spec_fn(int) -> nat| #[trigger] rankings(rank) && rank(i) == n;
        assert(ctx.decls_ranked_by(wl, rank) && rank(i) > 0);
    }
    if ctx.can_generate(wl, id) {
        let rank = choose|rank: spec_fn(int) -> nat| #[trigger]
            ctx.decls_ranked_by(wl, rank) && rank(i) > 0;
        ranking::lemma_least_rank(rankings, rank, i);
    }
}

/// The least ranks rank the items.
pub proof fn lemma_decl(ctx: BindgenContext, wl: Set<usize>, id: ItemId)
    requires
        ctx.can_generate(wl, id),
    ensures
        ctx.has(id),
        ctx.decl_rank(wl, id) > 0,
        ctx.decl_ok(wl, ctx.decl_ranks(wl), id.0 as int),
        ctx.item(id).is_hidden || !ctx.is_switched_on(ctx.item(id).kind)
            || ctx.can_generate_inside(wl, id),
{
    let rankings = ctx.decl_rankings(wl);
    let least = ctx.decl_ranks(wl);
    let i = id.0 as int;
    lemma_ranked(ctx, wl, id);
    let n = least(i);
    assert(ranking::is_least(rankings, i, n));
    assert(ranking::attained(rankings, i, n));
    let rank = choose|rank: spec_fn(int) -> nat| #[trigger] rankings(rank) && rank(i) == n;
    assert(ctx.decls_ranked_by(wl, rank));
    assert(ctx.decl_ok(wl, rank, i));
    assert forall|part: ItemId| 0 < #[trigger] rank(part.0 as int) implies 0 < least(
        part.0 as int,
    ) <= rank(part.0 as int) by {
        ranking::lemma_least_rank(rankings, rank, part.0 as int);
    }
    let item = ctx.item(id);
    if ctx.inside_ok(wl, rank, i) {
        if let ItemKind::Type(ty) = item.kind {
            if let TypeKind::Comp(info) = ty.kind {
                let methods = info.methods@;
                if ctx.methods_ok(rank, i, methods) {
                    assert forall|k: int|
                        #![trigger methods[k]]
                        0 <= k < methods.len() implies method::method_ok(ctx, methods[k]) && (
                    !methods[k].is_virtual ==> 0 < least(methods[k].signature.0 as int) < least(
                        i,
                    )) by {
                        assert(rank(methods[k].signature.0 as int) >= 0);
                    }
                }
                assert(ctx.comp_inside_ok(least, i));
            }
        }
        assert(ctx.inside_ok(wl, least, i));
    }
}

/// What is ranked below an item is nested in it.
pub proof fn lemma_nested(ctx: BindgenContext, wl: Set<usize>, owner: ItemId, ids: Seq<ItemId>)
    requires
        ctx.ranked_below(ctx.decl_ranks(wl), owner.0 as int, ids),
    ensures
        ctx.nested_in(wl, owner, ids),
{
    assert forall|k: int| 0 <= k < ids.len() implies ctx.can_generate(wl, #[trigger] ids[k])
        && ctx.decl_rank(wl, ids[k]) < ctx.decl_rank(wl, owner) by {
        lemma_ranked(ctx, wl, ids[k]);
    }
}

/// The same, of methods.
pub proof fn lemma_methods_nested(
    ctx: BindgenContext,
    wl: Set<usize>,
    owner: ItemId,
    methods: Seq<Method>,
)
    requires
        ctx.methods_ok(ctx.decl_ranks(wl), owner.0 as int, methods),
    ensures
        ctx.methods_in(wl, owner, methods),
{
    assert forall|k: int|
        #![trigger methods[k]]
        0 <= k < methods.len() implies method::method_ok(ctx, methods[k]) && (
    !methods[k].is_virtual ==> ctx.can_generate(wl, methods[k].signature) && ctx.decl_rank(
        wl,
        methods[k].signature,
    ) < ctx.decl_rank(wl, owner)) by {
        lemma_ranked(ctx, wl, methods[k].signature);
    }
}

/// What is generated with a compound type is nested in it.
pub proof fn lemma_comp_inside(ctx: BindgenContext, wl: Set<usize>, id: ItemId)
    requires
        ctx.can_generate_inside(wl, id),
        comp::is_comp(ctx.item(id)),
        !comp::comp(ctx.item(id)).has_non_type_template_params,
        !comp::comp(ctx.item(id)).is_template_specialization,
    ensures
        ({
            let item = ctx.item(id);
            let info = comp::comp(item);
            &&& comp::comp_ok(ctx, item)
            &&& ctx.nested_in(wl, id, info.inner_types@)
            &&& is_plain(item) ==> ctx.nested_in(wl, id, info.inner_vars@)
            &&& is_plain(item) && ctx.options.codegen_config.methods ==> ctx.methods_in(
                wl,
                id,
                info.methods@,
            )
        }),
{
    let item = ctx.item(id);
    let info = comp::comp(item);
    lemma_nested(ctx, wl, id, info.inner_types@);
    if is_plain(item) {
        lemma_nested(ctx, wl, id, info.inner_vars@);
        if ctx.options.codegen_config.methods {
            lemma_methods_nested(ctx, wl, id, info.methods@);
        }
    }
}

/// Those of the items that were asked for.
pub open spec fn asked_for(wl: Set<usize>, ids: Seq<ItemId>) -> Seq<ItemId> {
    ids.filter(|id: ItemId| wl.contains(id.0))
}

/// A test of the size and the alignment of a type.
pub open spec fn layout_test(
    ctx: BindgenContext,
    name: Seq<char>,
    ty: TyView,
    layout: Layout,
) -> ItemView {
    ItemView::LayoutTest {
        name,
        prefix: ctx.trait_prefix@,
        ty,
        size: layout.size,
        align: layout.align,
    }
}

/// What generating a template specialization does: a test of its layout, if
/// that is known.
pub open spec fn gen_specialization(ctx: BindgenContext, st: ResultView, id: ItemId) -> ResultView {
    match ctx.ty(id).layout {
        Some(layout) => {
            let number = st.codegen_id + 1;
            let converted = types::rust_ty(ctx, id);
            ResultView { codegen_id: number, ..st }.with_complex(converted.complex).push(
                layout_test(
                    ctx,
                    "__bindgen_test_layout_template_"@ + names::decimal_digits(number),
                    converted.ty,
                    layout,
                ),
            )
        },
        None => st,
    }
}

/// Whether the layout and the methods of a compound type are generated:
/// template parameters or attributes of unknown effect stand against it.
pub open spec fn is_plain(item: Item) -> bool {
    item.applicable_template_args@.len() == 0 && !comp::comp(item).found_unknown_attr
}

/// The test of the layout of a compound type, if that is known.
pub open spec fn with_layout_test(ctx: BindgenContext, st: ResultView, id: ItemId) -> ResultView {
    let name = ctx.item(id).canonical_name@;
    match ctx.ty(id).layout {
        Some(layout) => st.push(
            layout_test(ctx, "bindgen_test_layout_"@ + name, helpers::named_ty(name), layout),
        ),
        None => st,
    }
}

/// The items of the `impl` block of a compound type.
pub open spec fn impl_items(ctx: BindgenContext, id: ItemId) -> Seq<ImplItemView> {
    let item = ctx.item(id);
    let methods = comp::comp(item).methods@;
    comp::comp_accessors(ctx, item) + (if is_plain(item) && ctx.options.codegen_config.methods {
        method::method_items(ctx, methods, methods.len() as int)
    } else {
        seq![]
    })
}

/// The `impl` blocks of a compound type: one of `Clone`, if it is copied and
/// `Clone` is not derived, and one of its own items, if there are any.
pub open spec fn with_impls(ctx: BindgenContext, st: ResultView, id: ItemId) -> ResultView {
    let item = ctx.item(id);
    let name = item.canonical_name@;
    let generics = alias::declared_names(ctx, item.applicable_template_args@);
    let cloned = if comp::copies(item) && item.applicable_template_args@.len() == 0 {
        st.push(
            ItemView::Impl {
                of_trait: Some(helpers::named_ty("Clone"@)),
                generics,
                for_ty: helpers::named_ty(name),
                impl_items: seq![ImplItemView::CloneByCopy],
            },
        )
    } else {
        st
    };
    if impl_items(ctx, id).len() > 0 {
        cloned.push(
            ItemView::Impl {
                of_trait: None,
                generics,
                for_ty: helpers::named_ty(name),
                impl_items: impl_items(ctx, id),
            },
        )
    } else {
        cloned
    }
}

/// What stands before everything else: the types that generated code relies
/// on, as far as it does.
pub open spec fn with_prelude(ctx: BindgenContext, st: ResultView) -> ResultView {
    let unions = if st.saw_union && !ctx.options.unstable_rust {
        support::union_types(ctx)
    } else {
        seq![]
    };
    let complex = if st.needs_complex {
        seq![support::complex_type()]
    } else {
        seq![]
    };
    ResultView { items: complex + (unions + st.items), ..st }
}

/// What generating the item `id` does: nothing if it is hidden or was
/// generated before, else what its kind asks for.
pub open spec fn gen_item(
    ctx: BindgenContext,
    wl: Set<usize>,
    st: ResultView,
    id: ItemId,
) -> ResultView
    decreases ctx.decl_rank(wl, id), 4nat, 0nat,
    when ctx.can_generate(wl, id)
{
    let item = ctx.item(id);
    let config = ctx.options.codegen_config;
    if item.is_hidden || st.items_seen.contains(id.0) {
        st
    } else {
        let seen = st.with_seen(id);
        match item.kind {
            ItemKind::Module(_) => gen_module(ctx, wl, seen, id),
            ItemKind::Function(_) => if config.functions {
                foreign::gen_function(ctx, seen, id)
            } else {
                seen
            },
            ItemKind::Var(_) => if config.vars {
                foreign::gen_var(ctx, seen, id)
            } else {
                seen
            },
            ItemKind::Type(_) => if config.types {
                gen_type(ctx, wl, seen, id)
            } else {
                seen
            },
        }
    }
}

/// What generating the type `id` does.
pub open spec fn gen_type(
    ctx: BindgenContext,
    wl: Set<usize>,
    st: ResultView,
    id: ItemId,
) -> ResultView
    decreases ctx.decl_rank(wl, id), 3nat, 0nat,
    when ctx.can_generate_inside(wl, id) && ctx.is_type(id)
{
    match ctx.ty(id).kind {
        TypeKind::Comp(_) => gen_comp(ctx, wl, st, id),
        TypeKind::TemplateAlias(spelling, inner) | TypeKind::Alias(spelling, inner) => {
            alias::gen_alias(ctx, st, id, spelling@, inner)
        },
        TypeKind::Enum(_) => enums::gen_enum(ctx, st, id),
        _ => st,
    }
}

/// What generating the compound type `id` does: its struct or union, what is
/// declared in it, and its `impl` blocks.
pub open spec fn gen_comp(
    ctx: BindgenContext,
    wl: Set<usize>,
    st: ResultView,
    id: ItemId,
) -> ResultView
    decreases ctx.decl_rank(wl, id), 2nat, 0nat,
    when ctx.can_generate_inside(wl, id) && comp::is_comp(ctx.item(id))
{
    let item = ctx.item(id);
    let info = comp::comp(item);
    if info.has_non_type_template_params {
        st
    } else if info.is_template_specialization {
        gen_specialization(ctx, st, id)
    } else {
        let inner = gen_each(ctx, wl, comp::gen_struct(ctx, st, item), id, info.inner_types@);
        let plain = if is_plain(item) {
            let tested = with_layout_test(
                ctx,
                gen_each(ctx, wl, inner, id, info.inner_vars@),
                id,
            );
            if ctx.options.codegen_config.methods {
                gen_methods(ctx, wl, tested, id, info.methods@)
            } else {
                tested
            }
        } else {
            inner
        };
        with_impls(ctx, plain, id)
    }
}

/// What generating each item of a list does, one after the other. They are
/// declared in `owner`.
pub open spec fn gen_each(
    ctx: BindgenContext,
    wl: Set<usize>,
    st: ResultView,
    owner: ItemId,
    ids: Seq<ItemId>,
) -> ResultView
    decreases ctx.decl_rank(wl, owner), 1nat, ids.len(),
    when ctx.nested_in(wl, owner, ids)
{
    if ids.len() == 0 {
        st
    } else {
        proof {
            assert(ctx.can_generate(wl, ids[ids.len() - 1]));
        }
        gen_item(ctx, wl, gen_each(ctx, wl, st, owner, ids.drop_last()), ids.last())
    }
}

/// What generating the functions that are the methods of the compound type
/// `owner` does.
pub open spec fn gen_methods(
    ctx: BindgenContext,
    wl: Set<usize>,
    st: ResultView,
    owner: ItemId,
    methods: Seq<Method>,
) -> ResultView
    decreases ctx.decl_rank(wl, owner), 1nat, methods.len(),
    when ctx.methods_in(wl, owner, methods)
{
    if methods.len() == 0 {
        st
    } else {
        let before = gen_methods(ctx, wl, st, owner, methods.drop_last());
        let last = methods.last();
        if last.is_virtual {
            before
        } else {
            proof {
                assert(methods[methods.len() - 1] == last);
                assert(ctx.decl_rank(wl, last.signature) < ctx.decl_rank(wl, owner));
            }
            gen_item(ctx, wl, before, last.signature).with_complex(
                types::sig_decl(ctx, method::function_of(ctx, last).signature).complex,
            )
        }
    }
}

/// What generating the inside of the module `id` does: those of its children
/// that were asked for, and in the root the types that they rely on.
pub open spec fn module_body(
    ctx: BindgenContext,
    wl: Set<usize>,
    st: ResultView,
    id: ItemId,
) -> ResultView
    decreases ctx.decl_rank(wl, id), 2nat, 0nat,
    when ctx.can_generate_inside(wl, id) && ctx.item(id).kind is Module
{
    let children = asked_for(wl, ctx.item(id).kind->Module_0.children@);
    let st = gen_each(ctx, wl, st, id, children);
    if id == ctx.root_module {
        with_prelude(ctx, st)
    } else {
        st
    }
}

/// What generating the module `id` does. With namespaces it becomes a module
/// that imports the root, unless none of its children were asked for.
pub open spec fn gen_module(
    ctx: BindgenContext,
    wl: Set<usize>,
    st: ResultView,
    id: ItemId,
) -> ResultView
    decreases ctx.decl_rank(wl, id), 3nat, 0nat,
    when ctx.can_generate_inside(wl, id) && ctx.item(id).kind is Module
{
    let item = ctx.item(id);
    if !ctx.options.enable_cxx_namespaces {
        module_body(ctx, wl, st, id)
    } else {
        let inner = module_body(
            ctx,
            wl,
            ResultView::fresh(st.codegen_id, st.needs_complex).push(
                support::root_import_item(ctx, item),
            ),
            id,
        );
        let st = ResultView {
            codegen_id: inner.codegen_id,
            saw_union: st.saw_union || inner.saw_union,
            needs_complex: inner.needs_complex,
            ..st
        };
        if asked_for(wl, item.kind->Module_0.children@).len() > 0 {
            st.push(ItemView::Mod { name: item.canonical_name@, items: inner.items })
        } else {
            st
        }
    }
}

/// No step of generating a compound type takes the counter further than all
/// of them together.
proof fn lemma_comp_steps(ctx: BindgenContext, wl: Set<usize>, st: ResultView, id: ItemId)
    requires
        ctx.can_generate_inside(wl, id),
        comp::is_comp(ctx.item(id)),
        !comp::comp(ctx.item(id)).has_non_type_template_params,
        !comp::comp(ctx.item(id)).is_template_specialization,
    ensures
        ({
            let item = ctx.item(id);
            let info = comp::comp(item);
            let bound = gen_comp(ctx, wl, st, id).codegen_id;
            let inner = gen_each(ctx, wl, comp::gen_struct(ctx, st, item), id, info.inner_types@);
            let vars = gen_each(ctx, wl, inner, id, info.inner_vars@);
            let called = gen_methods(
                ctx,
                wl,
                with_layout_test(ctx, vars, id),
                id,
                info.methods@,
            );
            &&& inner.codegen_id <= bound
            &&& is_plain(item) ==> vars.codegen_id <= bound
            &&& is_plain(item) && ctx.options.codegen_config.methods ==> called.codegen_id <= bound
        }),
{
    let item = ctx.item(id);
    let info = comp::comp(item);
    lemma_comp_inside(ctx, wl, id);
    let inner = gen_each(ctx, wl, comp::gen_struct(ctx, st, item), id, info.inner_types@);
    if is_plain(item) {
        growth::lemma_each_grows(ctx, wl, inner, id, info.inner_vars@);
        let vars = gen_each(ctx, wl, inner, id, info.inner_vars@);
        if ctx.options.codegen_config.methods {
            let tested = with_layout_test(ctx, vars, id);
            growth::lemma_methods_grows(ctx, wl, tested, id, info.methods@);
        }
    }
}

/// Generates each item of a list, one after the other. They are declared in
/// `owner`.
fn codegen_each(
    ctx: &BindgenContext,
    result: &mut CodegenResult,
    whitelisted_items: &HashSet<usize>,
    ids: &Vec<ItemId>,
    Ghost(owner): Ghost<ItemId>,
)
    requires
        ctx.is_sound(),
        ctx.nested_in(whitelisted_items@, owner, ids@),
        old(result)@.counted(*ctx, 0),
        gen_each(*ctx, whitelisted_items@, old(result)@, owner, ids@).codegen_id <= usize::MAX,
    ensures
        final(result)@ == gen_each(*ctx, whitelisted_items@, old(result)@, owner, ids@),
        final(result)@.counted(*ctx, 0),
    decreases ctx.decl_rank(whitelisted_items@, owner), 1nat, 0nat,
{
    let ghost wl = whitelisted_items@;
    let ghost start = result@;
    let mut i: usize = 0;
    proof {
        assert(ids@.take(0) =~= seq![]);
        growth::lemma_each_prefix(*ctx, wl, start, owner, ids@, 0);
    }
    while i < ids.len()
        invariant
            0 <= i <= ids@.len(),
            wl == whitelisted_items@,
            ctx.is_sound(),
            ctx.nested_in(wl, owner, ids@),
            gen_each(*ctx, wl, start, owner, ids@).codegen_id <= usize::MAX,
            result@ == gen_each(*ctx, wl, start, owner, ids@.take(i as int)),
            result@.counted(*ctx, 0),
        decreases ids@.len() - i,
    {
        proof {
            growth::lemma_each_prefix(*ctx, wl, start, owner, ids@, i as int);
            growth::lemma_each_prefix(*ctx, wl, start, owner, ids@, i + 1);
            assert(ctx.can_generate(wl, ids@[i as int]));
            lemma_decl(*ctx, wl, ids@[i as int]);
        }
        let item = ctx.resolve_item(ids[i]);
        item.codegen(ctx, result, whitelisted_items);
        i += 1;
    }
    assert(ids@.take(ids@.len() as int) =~= ids@);
}

impl Item {
    /// Generates this item, unless it is hidden or was generated before.
    pub fn codegen(
        &self,
        ctx: &BindgenContext,
        result: &mut CodegenResult,
        whitelisted_items: &HashSet<usize>,
    )
        requires
            ctx.is_sound(),
            ctx.holds(self),
            ctx.can_generate(whitelisted_items@, self.id),
            old(result)@.counted(*ctx, 0),
            gen_item(*ctx, whitelisted_items@, old(result)@, self.id).codegen_id <= usize::MAX,
        ensures
            final(result)@ == gen_item(*ctx, whitelisted_items@, old(result)@, self.id),
            final(result)@.counted(*ctx, 0),
        decreases ctx.decl_rank(whitelisted_items@, self.id), 4nat, 0nat,
    {
        if self.is_hidden || result.seen(self.id) {
            return ;
        }
        proof {
            result::lemma_counted_seen(*ctx, result@, self.id);
            lemma_decl(*ctx, whitelisted_items@, self.id);
        }
        result.set_seen(self.id);
        let ghost seen = result@;
        match &self.kind {
            ItemKind::Module(module) => {
                module.codegen(ctx, result, whitelisted_items, self);
            },
            ItemKind::Function(function) => {
                if ctx.options.codegen_config.functions {
                    assert(seen.overloads(self.canonical_name@) < u32::MAX);
                    function.codegen(ctx, result, self);
                    assert forall|name: Seq<char>| #[trigger] result@.overloads(name) + 0
                        <= result@.items_seen.len() by {
                        assert(seen.overloads(name) + 1 <= seen.items_seen.len());
                    }
                }
            },
            ItemKind::Var(var) => {
                if ctx.options.codegen_config.vars {
                    var.codegen(ctx, result, self);
                    proof {
                        result::lemma_counted_kept(*ctx, seen, result@);
                    }
                }
            },
            ItemKind::Type(ty) => {
                if ctx.options.codegen_config.types {
                    ty.codegen(ctx, result, whitelisted_items, self);
                }
            },
        }
    }
}

impl Module {
    /// Generates those children of this module, which is what `item` is, that
    /// were asked for, and in the root the types that they rely on. Returns
    /// whether any child was asked for.
    fn codegen_self(
        &self,
        ctx: &BindgenContext,
        result: &mut CodegenResult,
        whitelisted_items: &HashSet<usize>,
        item: &Item,
    ) -> (found_any: bool)
        requires
            ctx.is_sound(),
            ctx.holds(item),
            ctx.can_generate_inside(whitelisted_items@, item.id),
            item.kind == ItemKind::Module(*self),
            old(result)@.counted(*ctx, 0),
            module_body(*ctx, whitelisted_items@, old(result)@, item.id).codegen_id <= usize::MAX,
        ensures
            final(result)@ == module_body(*ctx, whitelisted_items@, old(result)@, item.id),
            final(result)@.counted(*ctx, 0),
            found_any == (asked_for(whitelisted_items@, self.children@).len() > 0),
        decreases ctx.decl_rank(whitelisted_items@, item.id), 2nat, 0nat,
    {
        let ghost wl = whitelisted_items@;
        let ghost start = result@;
        let ghost children = self.children@;
        let ghost owner = item.id;
        let mut found_any = false;
        let mut i: usize = 0;
        proof {
            assert(ctx.item(owner).kind->Module_0.children@ == children);
            growth::lemma_children_nested(*ctx, wl, owner);
            growth::lemma_asked_for_prefix(*ctx, wl, start, owner, children, 0);
            assert(children.take(0) =~= seq![]);
            reveal(Seq::filter);
        }
        while i < self.children.len()
            invariant
                0 <= i <= children.len(),
                children == self.children@,
                wl == whitelisted_items@,
                ctx.is_sound(),
                owner == item.id,
                ctx.nested_in(wl, owner, asked_for(wl, children)),
                gen_each(*ctx, wl, start, owner, asked_for(wl, children)).codegen_id <= usize::MAX,
                result@ == gen_each(
                    *ctx,
                    wl,
                    start,
                    owner,
                    asked_for(wl, children.take(i as int)),
                ),
                result@.counted(*ctx, 0),
                found_any == (asked_for(wl, children.take(i as int)).len() > 0),
            decreases children.len() - i,
        {
            let child = self.children[i];
            proof {
                growth::lemma_asked_for_prefix(*ctx, wl, start, owner, children, i as int);
                growth::lemma_asked_for_prefix(*ctx, wl, start, owner, children, i + 1);
                let some = asked_for(wl, children.take(i as int));
                assert(some.push(child).drop_last() =~= some);
            }
            if whitelisted_items.contains(&child.0) {
                found_any = true;
                proof {
                    let more = asked_for(wl, children.take(i + 1));
                    assert(more[more.len() - 1] == child);
                    lemma_decl(*ctx, wl, child);
                }
                let child_item = ctx.resolve_item(child);
                child_item.codegen(ctx, result, whitelisted_items);
            }
            i += 1;
        }
        assert(children.take(children.len() as int) =~= children);
        if item.id == ctx.root_module {
            let ghost body = result@;
            if result.saw_union && !ctx.options.unstable_rust {
                prepend_union_types(ctx, &mut result.items);
            }
            if result.needs_complex {
                prepend_complex_type(ctx, &mut result.items);
            }
            assert(result@ =~= with_prelude(*ctx, body));
            proof {
                result::lemma_counted_kept(*ctx, body, result@);
            }
        }
        found_any
    }

    /// Generates this module, which is what `item` is.
    pub fn codegen(
        &self,
        ctx: &BindgenContext,
        result: &mut CodegenResult,
        whitelisted_items: &HashSet<usize>,
        item: &Item,
    )
        requires
            ctx.is_sound(),
            ctx.holds(item),
            ctx.can_generate_inside(whitelisted_items@, item.id),
            item.kind == ItemKind::Module(*self),
            old(result)@.counted(*ctx, 0),
            gen_module(*ctx, whitelisted_items@, old(result)@, item.id).codegen_id <= usize::MAX,
        ensures
            final(result)@ == gen_module(*ctx, whitelisted_items@, old(result)@, item.id),
            final(result)@.counted(*ctx, 0),
        decreases ctx.decl_rank(whitelisted_items@, item.id), 3nat, 0nat,
    {
        if !ctx.options.enable_cxx_namespaces {
            self.codegen_self(ctx, result, whitelisted_items, item);
            return ;
        }
        let ghost start = result@;
        assert(ctx.item(item.id).kind->Module_0.children@ == self.children@);
        let mut new = result.inner();
        new.push(root_import(ctx, item));
        let found_any = self.codegen_self(ctx, &mut new, whitelisted_items, item);
        let items = result.finish_inner(new);
        // An empty module is not worth creating.
        if found_any {
            result.push(ast::module(item.canonical_name.clone(), items));
        }
        proof {
            result::lemma_counted_kept(*ctx, start, result@);
        }
    }
}

impl Type {
    /// Generates this type, which is what `item` is. Types that have no
    /// definition of their own give nothing.
    pub fn codegen(
        &self,
        ctx: &BindgenContext,
        result: &mut CodegenResult,
        whitelisted_items: &HashSet<usize>,
        item: &Item,
    )
        requires
            ctx.is_sound(),
            ctx.holds(item),
            ctx.can_generate_inside(whitelisted_items@, item.id),
            item.kind == ItemKind::Type(*self),
            old(result)@.counted(*ctx, 0),
            gen_type(*ctx, whitelisted_items@, old(result)@, item.id).codegen_id <= usize::MAX,
        ensures
            final(result)@ == gen_type(*ctx, whitelisted_items@, old(result)@, item.id),
            final(result)@.counted(*ctx, 0),
        decreases ctx.decl_rank(whitelisted_items@, item.id), 3nat, 0nat,
    {
        let ghost start = result@;
        match &self.kind {
            TypeKind::Comp(info) => {
                info.codegen(ctx, result, whitelisted_items, item);
                return ;
            },
            TypeKind::TemplateAlias(spelling, inner) => {
                self.codegen_alias(ctx, result, item, spelling, *inner);
            },
            TypeKind::Alias(spelling, inner) => {
                self.codegen_alias(ctx, result, item, spelling, *inner);
            },
            TypeKind::Enum(info) => {
                info.codegen(ctx, result, item);
            },
            _ => {},
        }
        proof {
            result::lemma_counted_kept(*ctx, start, result@);
        }
    }
}

impl CompInfo {
    /// Generates a test of the layout of this template specialization, which
    /// is what `item` is.
    fn codegen_specialization(&self, ctx: &BindgenContext, result: &mut CodegenResult, item: &Item)
        requires
            ctx.ids_wf(),
            ctx.holds(item),
            comp::is_comp(*item),
            item.kind->Type_0.layout is Some ==> ctx.converts(item.id),
            gen_specialization(*ctx, old(result)@, item.id).codegen_id <= usize::MAX,
        ensures
            final(result)@ == gen_specialization(*ctx, old(result)@, item.id),
    {
        if let Some(layout) = item.expect_type().layout {
            let number = result.next_id();
            let name = numbered("__bindgen_test_layout_template_", number);
            let ty = item.to_rust_ty(ctx, &mut result.needs_complex);
            result.push(
                ast::Item::LayoutTest {
                    name,
                    prefix: ctx.trait_prefix.clone(),
                    ty,
                    size: layout.size,
                    align: layout.align,
                },
            );
            assert(result@ =~= gen_specialization(*ctx, old(result)@, item.id));
        }
    }

    /// Generates the functions that are the methods of this compound type,
    /// which is what `item` is, and adds the methods.
    fn codegen_methods(
        &self,
        ctx: &BindgenContext,
        result: &mut CodegenResult,
        whitelisted_items: &HashSet<usize>,
        item: &Item,
        methods: &mut Vec<ImplItem>,
    )
        requires
            ctx.is_sound(),
            ctx.holds(item),
            ctx.methods_in(whitelisted_items@, item.id, self.methods@),
            old(result)@.counted(*ctx, 0),
            gen_methods(
                *ctx,
                whitelisted_items@,
                old(result)@,
                item.id,
                self.methods@,
            ).codegen_id <= usize::MAX,
        ensures
            final(result)@ == gen_methods(
                *ctx,
                whitelisted_items@,
                old(result)@,
                item.id,
                self.methods@,
            ),
            final(result)@.counted(*ctx, 0),
            final(methods).deep_view() == old(methods).deep_view() + method::method_items(
                *ctx,
                self.methods@,
                self.methods@.len() as int,
            ),
        decreases ctx.decl_rank(whitelisted_items@, item.id), 1nat, 0nat,
    {
        let ghost wl = whitelisted_items@;
        let ghost start = result@;
        let ghost added = methods.deep_view();
        let ghost all = self.methods@;
        let ghost owner = item.id;
        let mut method_names: StringHashMap<usize> = StringHashMap::new();
        let mut i: usize = 0;
        proof {
            assert(all.take(0) =~= seq![]);
            growth::lemma_methods_prefix(*ctx, wl, start, owner, all, 0);
            assert(methods.deep_view() =~= added + method::method_items(*ctx, all, 0));
        }
        while i < self.methods.len()
            invariant
                0 <= i <= all.len(),
                all == self.methods@,
                wl == whitelisted_items@,
                owner == item.id,
                ctx.is_sound(),
                ctx.methods_in(wl, owner, all),
                gen_methods(*ctx, wl, start, owner, all).codegen_id <= usize::MAX,
                result@ == gen_methods(*ctx, wl, start, owner, all.take(i as int)),
                result@.counted(*ctx, 0),
                methods.deep_view() == added + method::method_items(*ctx, all, i as int),
                method::counts_names(*ctx, all, i as int, method_names@),
            decreases all.len() - i,
        {
            let method = &self.methods[i];
            proof {
                growth::lemma_methods_prefix(*ctx, wl, start, owner, all, i as int);
                growth::lemma_methods_prefix(*ctx, wl, start, owner, all, i + 1);
                assert(method::method_ok(*ctx, all[i as int]));
            }
            method.codegen_method(
                ctx,
                methods,
                &mut method_names,
                result,
                whitelisted_items,
                Ghost(all),
                Ghost(i as int),
                Ghost(owner),
            );
            assert(methods.deep_view() =~= added + method::method_items(*ctx, all, i + 1));
            i += 1;
        }
        assert(all.take(all.len() as int) =~= all);
    }

    /// Adds the `impl` blocks of this compound type, which is what `item` is.
    fn push_impls(
        &self,
        ctx: &BindgenContext,
        result: &mut CodegenResult,
        item: &Item,
        methods: Vec<ImplItem>,
        generics: Vec<String>,
    )
        requires
            ctx.holds(item),
            comp::is_comp(*item),
            methods.deep_view() == impl_items(*ctx, item.id),
            generics.deep_view() == alias::declared_names(*ctx, item.applicable_template_args@),
        ensures
            final(result)@ == with_impls(*ctx, old(result)@, item.id),
    {
        let needs_clone_impl = item.can_derive_copy && !item.annotations.disallow_copy
            && item.applicable_template_args.len() == 0;
        if needs_clone_impl {
            let mut items: Vec<ImplItem> = Vec::new();
            items.push(ImplItem::CloneByCopy);
            assert(items.deep_view() =~= seq![ImplItemView::CloneByCopy]);
            result.push(
                ast::Item::Impl {
                    of_trait: Some(ty_named("Clone")),
                    generics: clone_strings(&generics),
                    for_ty: ty_named(item.canonical_name.as_str()),
                    impl_items: items,
                },
            );
        }
        assert(methods@.len() == methods.deep_view().len());
        if methods.len() > 0 {
            result.push(
                ast::Item::Impl {
                    of_trait: None,
                    generics,
                    for_ty: ty_named(item.canonical_name.as_str()),
                    impl_items: methods,
                },
            );
        }
    }

    /// Generates this compound type, which is what `item` is, with what is
    /// declared in it. Nothing is generated for templates with parameters
    /// that are no types.
    pub fn codegen(
        &self,
        ctx: &BindgenContext,
        result: &mut CodegenResult,
        whitelisted_items: &HashSet<usize>,
        item: &Item,
    )
        requires
            ctx.is_sound(),
            ctx.holds(item),
            ctx.can_generate_inside(whitelisted_items@, item.id),
            comp::is_comp(*item),
            comp::comp(*item) == *self,
            old(result)@.counted(*ctx, 0),
            gen_comp(*ctx, whitelisted_items@, old(result)@, item.id).codegen_id <= usize::MAX,
        ensures
            final(result)@ == gen_comp(*ctx, whitelisted_items@, old(result)@, item.id),
            final(result)@.counted(*ctx, 0),
        decreases ctx.decl_rank(whitelisted_items@, item.id), 2nat, 0nat,
    {
        let ghost wl = whitelisted_items@;
        let ghost start = result@;
        if self.has_non_type_template_params {
            return ;
        }
        if self.is_template_specialization {
            self.codegen_specialization(ctx, result, item);
            proof {
                result::lemma_counted_kept(*ctx, start, result@);
            }
            return ;
        }
        proof {
            lemma_comp_inside(*ctx, wl, item.id);
            lemma_comp_steps(*ctx, wl, start, item.id);
        }
        let (mut methods, generics) = self.codegen_struct(ctx, result, item);
        proof {
            result::lemma_counted_kept(*ctx, start, result@);
        }
        codegen_each(ctx, result, whitelisted_items, &self.inner_types, Ghost(item.id));

        // Attributes that are not known may change the layout.
        if item.applicable_template_args.len() == 0 && !self.found_unknown_attr {
            codegen_each(ctx, result, whitelisted_items, &self.inner_vars, Ghost(item.id));
            let ghost before = result@;
            if let Some(layout) = item.expect_type().layout {
                result.push(
                    ast::Item::LayoutTest {
                        name: cat("bindgen_test_layout_", item.canonical_name.as_str()),
                        prefix: ctx.trait_prefix.clone(),
                        ty: ty_named(item.canonical_name.as_str()),
                        size: layout.size,
                        align: layout.align,
                    },
                );
            }
            proof {
                result::lemma_counted_kept(*ctx, before, result@);
            }
            if ctx.options.codegen_config.methods {
                self.codegen_methods(ctx, result, whitelisted_items, item, &mut methods);
            }
        }
        let ghost before = result@;
        assert(methods.deep_view() =~= impl_items(*ctx, item.id));
        self.push_impls(ctx, result, item, methods, generics);
        proof {
            result::lemma_counted_kept(*ctx, before, result@);
        }
    }
}

impl Method {
    /// Generates the function that this method is, and adds the method, the
    /// one at `k` among `all` methods of `owner`. A virtual method gives
    /// nothing.
    fn codegen_method(
        &self,
        ctx: &BindgenContext,
        methods: &mut Vec<ImplItem>,
        method_names: &mut StringHashMap<usize>,
        result: &mut CodegenResult,
        whitelisted_items: &HashSet<usize>,
        Ghost(all): Ghost<Seq<Method>>,
        Ghost(k): Ghost<int>,
        Ghost(owner): Ghost<ItemId>,
    )
        requires
            ctx.is_sound(),
            0 <= k < all.len() <= usize::MAX,
            all[k] == *self,
            ctx.methods_in(whitelisted_items@, owner, all),
            method::counts_names(*ctx, all, k, old(method_names)@),
            old(result)@.counted(*ctx, 0),
            !self.is_virtual ==> gen_item(
                *ctx,
                whitelisted_items@,
                old(result)@,
                self.signature,
            ).codegen_id <= usize::MAX,
        ensures
            final(methods).deep_view() == old(methods).deep_view() + (if self.is_virtual {
                seq![]
            } else {
                seq![method::method_item(*ctx, all, k)]
            }),
            method::counts_names(*ctx, all, k + 1, final(method_names)@),
            self.is_virtual ==> final(method_names)@ == old(method_names)@,
            final(result)@ == (if self.is_virtual {
                old(result)@
            } else {
                gen_item(
                    *ctx,
                    whitelisted_items@,
                    old(result)@,
                    self.signature,
                ).with_complex(
                    types::sig_decl(
                        *ctx,
                        method::function_of(*ctx, *self).signature,
                    ).complex,
                )
            }),
            final(result)@.counted(*ctx, 0),
        decreases ctx.decl_rank(whitelisted_items@, owner), 0nat, 0nat,
    {
        if self.is_virtual {
            assert(methods.deep_view() =~= old(methods).deep_view() + seq![]);
            assert(method::counts_names(*ctx, all, k + 1, method_names@)) by {
                assert forall|name: Seq<char>|
                    method::named_before(*ctx, all, k + 1, name) == (if method_names@.dom().contains(
                        name,
                    ) {
                        method_names@[name] as nat
                    } else {
                        0
                    }) by {
                    assert(method::named_before(*ctx, all, k, name)
                        == method::named_before(*ctx, all, k + 1, name));
                }
            }
            return ;
        }
        assert(method::method_ok(*ctx, all[k]));
        let function_item = ctx.resolve_item(self.signature);
        function_item.codegen(ctx, result, whitelisted_items);
        let ghost before = result@;
        let ghost added = methods.deep_view();
        self.push_method(
            ctx,
            methods,
            method_names,
            &mut result.needs_complex,
            Ghost(all),
            Ghost(k),
        );
        assert(methods.deep_view() =~= added + seq![method::method_item(*ctx, all, k)]);
        proof {
            result::lemma_counted_kept(*ctx, before, result@);
        }
    }
}

/// The result of generating bindings for a context: what the root module
/// gives, from nothing.
pub open spec fn generated(ctx: BindgenContext) -> ResultView {
    gen_item(
        ctx,
        ctx.whitelist(),
        ResultView::fresh(0, ctx.generated_bindegen_complex),
        ctx.root_module,
    )
}

impl BindgenContext {
    /// The ids of the items that were asked for.
    pub(crate) fn whitelisted_set(&self) -> (set: HashSet<usize>)
        ensures
            set@ == self.whitelist(),
    {
        let mut set: HashSet<usize> = HashSet::new();
        let ghost ids = self.whitelisted_items@;
        let mut i: usize = 0;
        while i < self.whitelisted_items.len()
            invariant
                0 <= i <= ids.len(),
                ids == self.whitelisted_items@,
                forall|n: usize| #[trigger]
                    set@.contains(n) <==> exists|k: int|
                        0 <= k < i && (#[trigger] ids[k]).0 == n,
            decreases ids.len() - i,
        {
            let ghost before = set@;
            set.insert(self.whitelisted_items[i].0);
            assert forall|n: usize| #[trigger] set@.contains(n) <==> exists|k: int|
                0 <= k < i + 1 && (#[trigger] ids[k]).0 == n by {
                if n == ids[i as int].0 {
                    assert(0 <= i < i + 1 && ids[i as int].0 == n);
                } else if before.contains(n) {
                    let k = choose|k: int| 0 <= k < i && (#[trigger] ids[k]).0 == n;
                    assert(0 <= k < i + 1 && ids[k].0 == n);
                }
            }
            i += 1;
        }
        assert(set@ =~= self.whitelist());
        set
    }
}

/// Generates the bindings for what `context` holds: those of its items that
/// were asked for, and what they rely on.
pub fn codegen(context: &mut BindgenContext) -> (items: Vec<ast::Item>)
    requires
        old(context).wf(),
        generated(*old(context)).codegen_id <= usize::MAX,
    ensures
        items.deep_view() == generated(*old(context)).items,
        *final(context) == (BindgenContext {
            generated_bindegen_complex: generated(*old(context)).needs_complex,
            ..*old(context)
        }),
{
    let whitelisted_items = context.whitelisted_set();
    let mut result = CodegenResult::new(0, context.generated_bindegen_complex);
    proof {
        lemma_decl(*context, context.whitelist(), context.root_module);
    }
    let root = context.resolve_item(context.root_module);
    root.codegen(context, &mut result, &whitelisted_items);
    context.generated_bindegen_complex = result.needs_complex;
    result.items
}

} // verus!
