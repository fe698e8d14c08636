//! Which declarations are generated, in what order, and where they go.
use vstd::prelude::*;

use crate::alias;
use crate::ast::{AttrView, ItemView};
use crate::codegen;
use crate::comp;
use crate::enums;
use crate::foreign;
use crate::growth;
use crate::ir::{BindgenContext, Item, ItemId, ItemKind, Layout, Method, TypeKind};
use crate::law_comp;
use crate::law_types;
use crate::laws;
use crate::names;
use crate::result::ResultView;
use crate::support;
use crate::types;
use crate::words;

verus! {

/// What is asked for is what the context lists.
pub proof fn law_whitelist(ctx: BindgenContext, i: usize)
    ensures
        ctx.whitelist().contains(i) <==> exists|k: int|
            0 <= k < ctx.whitelisted_items@.len() && (#[trigger] ctx.whitelisted_items@[k]).0 == i,
{
}

/// The bindings are what the root gives from nothing, but for what was noted
/// of complex numbers before.
pub proof fn law_bindings(ctx: BindgenContext)
    ensures
        codegen::generated(ctx) == codegen::gen_item(
            ctx,
            ctx.whitelist(),
            (ResultView {
                items: Seq::empty(),
                codegen_id: 0,
                saw_union: false,
                items_seen: Set::empty(),
                functions_seen: Set::empty(),
                vars_seen: Set::empty(),
                overload_counters: Map::empty(),
                needs_complex: ctx.generated_bindegen_complex,
            }),
            ctx.root_module,
        ),
{
}

/// Whether a kind of items is switched on.
pub open spec fn is_on(ctx: BindgenContext, kind: ItemKind) -> bool {
    match kind {
        ItemKind::Module(_) => true,
        ItemKind::Function(_) => ctx.options.codegen_config.functions,
        ItemKind::Var(_) => ctx.options.codegen_config.vars,
        ItemKind::Type(_) => ctx.options.codegen_config.types,
    }
}

/// An item is left out if it is hidden or was generated before. Otherwise it is
/// noted, and generated as what it is, if that kind is switched on.
pub proof fn law_item(ctx: BindgenContext, wl: Set<usize>, st: ResultView, id: ItemId)
    requires
        ctx.can_generate(wl, id),
    ensures
        ({
            let item = ctx.item(id);
            let after = codegen::gen_item(ctx, wl, st, id);
            let noted = ResultView { items_seen: st.items_seen.insert(id.0), ..st };
            if item.is_hidden || st.items_seen.contains(id.0) {
                after == st
            } else if !is_on(ctx, item.kind) {
                after == noted
            } else {
                match item.kind {
                    ItemKind::Module(_) => after == codegen::gen_module(ctx, wl, noted, id),
                    ItemKind::Function(_) => after == foreign::gen_function(ctx, noted, id),
                    ItemKind::Var(_) => after == foreign::gen_var(ctx, noted, id),
                    ItemKind::Type(_) => after == codegen::gen_type(ctx, wl, noted, id),
                }
            }
        }),
{
    codegen::lemma_decl(ctx, wl, id);
}

/// Of types, only those that declare something are generated: compound types,
/// enums and typedefs.
pub proof fn law_type(ctx: BindgenContext, wl: Set<usize>, st: ResultView, id: ItemId)
    requires
        ctx.can_generate_inside(wl, id),
        ctx.is_type(id),
    ensures
        ({
            let after = codegen::gen_type(ctx, wl, st, id);
            match ctx.ty(id).kind {
                TypeKind::Comp(_) => after == codegen::gen_comp(ctx, wl, st, id),
                TypeKind::Enum(_) => after == enums::gen_enum(ctx, st, id),
                TypeKind::Alias(spelling, inner) => after == alias::gen_alias(
                    ctx,
                    st,
                    id,
                    spelling@,
                    inner,
                ),
                TypeKind::TemplateAlias(spelling, inner) => after == alias::gen_alias(
                    ctx,
                    st,
                    id,
                    spelling@,
                    inner,
                ),
                _ => after == st,
            }
        }),
{
}

/// A list of items is generated one after the other: first its first part,
/// then from there the rest.
pub proof fn law_each(
    ctx: BindgenContext,
    wl: Set<usize>,
    st: ResultView,
    owner: ItemId,
    a: Seq<ItemId>,
    b: Seq<ItemId>,
)
    requires
        ctx.nested_in(wl, owner, a + b),
    ensures
        codegen::gen_each(ctx, wl, st, owner, Seq::empty()) == st,
        codegen::gen_each(ctx, wl, st, owner, a + b) == codegen::gen_each(
            ctx,
            wl,
            codegen::gen_each(ctx, wl, st, owner, a),
            owner,
            b,
        ),
        a.len() == 0 && b.len() == 1 ==> codegen::gen_each(ctx, wl, st, owner, b)
            == codegen::gen_item(ctx, wl, st, b[0]),
    decreases b.len(),
{
    assert(ctx.nested_in(wl, owner, Seq::empty()));
    lemma_nested_halves(ctx, wl, owner, a, b);
    if b.len() == 0 {
        assert(a + b =~= a);
    } else {
        assert((a + b).drop_last() =~= a + b.drop_last());
        assert((a + b).last() == b.last());
        assert(ctx.nested_in(wl, owner, (a + b).drop_last())) by {
            assert forall|k: int| 0 <= k < (a + b).drop_last().len() implies ctx.can_generate(
                wl,
                #[trigger] (a + b).drop_last()[k],
            ) && ctx.decl_rank(wl, (a + b).drop_last()[k]) < ctx.decl_rank(wl, owner) by {
                assert((a + b)[k] == (a + b).drop_last()[k]);
            }
        }
        law_each(ctx, wl, st, owner, a, b.drop_last());
        if b.len() == 1 {
            assert(b.drop_last() =~= seq![]);
        }
    }
}

proof fn lemma_nested_halves(
    ctx: BindgenContext,
    wl: Set<usize>,
    owner: ItemId,
    a: Seq<ItemId>,
    b: Seq<ItemId>,
)
    requires
        ctx.nested_in(wl, owner, a + b),
    ensures
        ctx.nested_in(wl, owner, a),
        ctx.nested_in(wl, owner, b),
{
    assert forall|k: int| 0 <= k < a.len() implies ctx.can_generate(wl, #[trigger] a[k])
        && ctx.decl_rank(wl, a[k]) < ctx.decl_rank(wl, owner) by {
        assert((a + b)[k] == a[k]);
    }
    assert forall|k: int| 0 <= k < b.len() implies ctx.can_generate(wl, #[trigger] b[k])
        && ctx.decl_rank(wl, b[k]) < ctx.decl_rank(wl, owner) by {
        assert((a + b)[a.len() + k] == b[k]);
    }
}

/// Every item of a list that is not hidden is generated.
pub proof fn law_each_seen(
    ctx: BindgenContext,
    wl: Set<usize>,
    st: ResultView,
    owner: ItemId,
    ids: Seq<ItemId>,
    k: int,
)
    requires
        ctx.nested_in(wl, owner, ids),
        0 <= k < ids.len(),
        !ctx.item(ids[k]).is_hidden,
    ensures
        codegen::gen_each(ctx, wl, st, owner, ids).items_seen.contains(ids[k].0),
{
    growth::lemma_each_prefix(ctx, wl, st, owner, ids, k);
    growth::lemma_each_prefix(ctx, wl, st, owner, ids, k + 1);
    assert(ctx.can_generate(wl, ids[k]));
    let before = codegen::gen_each(ctx, wl, st, owner, ids.take(k));
    laws::lemma_item_seen(ctx, wl, before, ids[k]);
}

/// The children of a module that were asked for, in their order.
pub open spec fn wanted(wl: Set<usize>, item: Item) -> Seq<ItemId> {
    item.kind->Module_0.children@.filter(|child: ItemId| wl.contains(child.0))
}

/// A module that is not the root gives what its children give that were asked
/// for, in their order: without namespaces among everything else, and with
/// them in a module of its name, after the import of the root. There, nothing
/// that was generated outside counts as generated, and the other way round.
pub proof fn law_module(ctx: BindgenContext, wl: Set<usize>, st: ResultView, id: ItemId)
    requires
        ctx.can_generate_inside(wl, id),
        ctx.item(id).kind is Module,
        id != ctx.root_module,
    ensures
        ({
            let item = ctx.item(id);
            let after = codegen::gen_module(ctx, wl, st, id);
            if !ctx.options.enable_cxx_namespaces {
                after == codegen::gen_each(ctx, wl, st, id, wanted(wl, item))
            } else {
                let inside = codegen::gen_each(
                    ctx,
                    wl,
                    (ResultView {
                        items: seq![support::root_import_item(ctx, item)],
                        codegen_id: st.codegen_id,
                        saw_union: false,
                        items_seen: Set::empty(),
                        functions_seen: Set::empty(),
                        vars_seen: Set::empty(),
                        overload_counters: Map::empty(),
                        needs_complex: st.needs_complex,
                    }),
                    id,
                    wanted(wl, item),
                );
                after == (ResultView {
                    items: if wanted(wl, item).len() == 0 {
                        st.items
                    } else {
                        st.items.push(
                            ItemView::Mod { name: item.canonical_name@, items: inside.items },
                        )
                    },
                    codegen_id: inside.codegen_id,
                    saw_union: st.saw_union || inside.saw_union,
                    needs_complex: inside.needs_complex,
                    ..st
                })
            }
        }),
{
    let item = ctx.item(id);
    assert(codegen::asked_for(wl, item.kind->Module_0.children@) == wanted(wl, item));
    growth::lemma_children_nested(ctx, wl, id);
    let fresh = ResultView::fresh(st.codegen_id, st.needs_complex).push(
        support::root_import_item(ctx, item),
    );
    assert(fresh.items =~= seq![support::root_import_item(ctx, item)]);
}

/// The root gives the same, and before it the types that its bindings rely on:
/// that of complex numbers if they occur, and that of union fields if there is
/// a union and Rust has none. With namespaces these stand in the module.
pub proof fn law_root(ctx: BindgenContext, wl: Set<usize>, st: ResultView)
    requires
        ctx.can_generate_inside(wl, ctx.root_module),
        ctx.item(ctx.root_module).kind is Module,
    ensures
        ({
            let item = ctx.item(ctx.root_module);
            let after = codegen::gen_module(ctx, wl, st, ctx.root_module);
            let start = if ctx.options.enable_cxx_namespaces {
                ResultView {
                    items: seq![support::root_import_item(ctx, item)],
                    codegen_id: st.codegen_id,
                    saw_union: false,
                    items_seen: Set::empty(),
                    functions_seen: Set::empty(),
                    vars_seen: Set::empty(),
                    overload_counters: Map::empty(),
                    needs_complex: st.needs_complex,
                }
            } else {
                st
            };
            let inside = codegen::gen_each(ctx, wl, start, ctx.root_module, wanted(wl, item));
            let items = (if inside.needs_complex {
                seq![support::complex_type()]
            } else {
                seq![]
            }) + (if inside.saw_union && !ctx.options.unstable_rust {
                support::union_types(ctx)
            } else {
                seq![]
            }) + inside.items;
            if ctx.options.enable_cxx_namespaces {
                after == (ResultView {
                    items: if wanted(wl, item).len() == 0 {
                        st.items
                    } else {
                        st.items.push(ItemView::Mod { name: item.canonical_name@, items })
                    },
                    codegen_id: inside.codegen_id,
                    saw_union: st.saw_union || inside.saw_union,
                    needs_complex: inside.needs_complex,
                    ..st
                })
            } else {
                after == (ResultView { items, ..inside })
            }
        }),
{
    let id = ctx.root_module;
    let item = ctx.item(id);
    assert(codegen::asked_for(wl, item.kind->Module_0.children@) == wanted(wl, item));
    growth::lemma_children_nested(ctx, wl, id);
    let fresh = ResultView::fresh(st.codegen_id, st.needs_complex).push(
        support::root_import_item(ctx, item),
    );
    assert(fresh.items =~= seq![support::root_import_item(ctx, item)]);
    let start = if ctx.options.enable_cxx_namespaces {
        fresh
    } else {
        st
    };
    laws::law_support_types(ctx, wl, start);
}

/// Every child of the root that was asked for and is not hidden is generated,
/// where there are no namespaces.
pub proof fn law_asked_for_generated(ctx: BindgenContext, child: ItemId)
    requires
        ctx.wf(),
        !ctx.options.enable_cxx_namespaces,
        ctx.item(ctx.root_module).kind is Module,
        !ctx.item(ctx.root_module).is_hidden,
        ctx.item(ctx.root_module).kind->Module_0.children@.contains(child),
        ctx.whitelisted_items@.contains(child),
        !ctx.item(child).is_hidden,
    ensures
        codegen::generated(ctx).items_seen.contains(child.0),
{
    let wl = ctx.whitelist();
    let root = ctx.root_module;
    let children = ctx.item(root).kind->Module_0.children@;
    let asked = codegen::asked_for(wl, children);
    let pred = |id: ItemId| wl.contains(id.0);
    codegen::lemma_decl(ctx, wl, root);
    growth::lemma_children_nested(ctx, wl, root);
    let j = choose|j: int| 0 <= j < ctx.whitelisted_items@.len() && ctx.whitelisted_items@[j] == child;
    assert(ctx.whitelisted_items@[j].0 == child.0);
    let i = choose|i: int| 0 <= i < children.len() && children[i] == child;
    children.lemma_filter_contains(pred, i);
    let k = choose|k: int| 0 <= k < asked.len() && asked[k] == child;
    let noted = ResultView::fresh(0, ctx.generated_bindegen_complex).with_seen(root);
    law_each_seen(ctx, wl, noted, root, asked, k);
}

/// How many of the first `n` items are modules.
pub open spec fn modules_before(ctx: BindgenContext, ids: Seq<ItemId>, n: int) -> nat {
    ids.take(n).filter(|id: ItemId| ctx.item(id).kind is Module).len()
}

proof fn lemma_modules_before(ctx: BindgenContext, ids: Seq<ItemId>, n: int)
    requires
        0 <= n <= ids.len(),
    ensures
        support::module_count(ctx, ids, n) == modules_before(ctx, ids, n),
    decreases n,
{
    reveal(Seq::filter);
    if n == 0 {
        assert(ids.take(0) =~= seq![]);
    } else {
        lemma_modules_before(ctx, ids, n - 1);
        assert(ids.take(n).drop_last() =~= ids.take(n - 1));
        assert(ids.take(n).last() == ids[n - 1]);
    }
}

/// A module imports the root: it goes up once for each module that it is in,
/// itself included, and once more, and from there to the root by its name.
pub proof fn law_root_import(ctx: BindgenContext, module: Item)
    ensures
        ({
            let got = support::root_import_item(ctx, module);
            let n = modules_before(ctx, module.ancestors@, module.ancestors@.len() as int);
            &&& got is Use
            &&& got->Use_attrs == seq![AttrView::Allow("unused_imports"@)]
            &&& got->path.len() == n + 3
            &&& got->path[0] == "self"@
            &&& forall|k: int| 1 <= k <= n + 1 ==> #[trigger] got->path[k] == "super"@
            &&& words::is_mangled(
                ctx,
                ctx.item(ctx.root_module).canonical_name@,
                got->path[n as int + 2],
            )
        }),
{
    lemma_modules_before(ctx, module.ancestors@, module.ancestors@.len() as int);
    words::law_mangle(ctx, ctx.item(ctx.root_module).canonical_name@);
}

/// Whether a declared name is none that Rust knows.
pub open spec fn says_typename(ctx: BindgenContext, id: ItemId) -> bool {
    ctx.ty(id).name matches Some(name) && names::contains_text(name@, "typename "@)
}

/// Whether a template argument stops a typedef: it is a template parameter
/// whose name is none that Rust knows.
pub open spec fn stops_typedef(ctx: BindgenContext, id: ItemId) -> bool {
    ctx.is_type(id) && ctx.ty(id).kind is Named && says_typename(ctx, id)
}

/// A typedef that does not repeat the name of what it names and that is not
/// known by its spelling becomes an alias of its name: of what it names, with
/// its template parameters, or of a blob if it is opaque. With a parameter
/// whose name is none that Rust knows it gives nothing.
pub proof fn law_alias(
    ctx: BindgenContext,
    st: ResultView,
    id: ItemId,
    spelling: Seq<char>,
    inner: ItemId,
)
    requires
        ctx.is_type(id),
        alias::alias_ok(ctx, ctx.item(id), spelling, inner),
        ctx.item(inner).canonical_name@ != ctx.item(id).canonical_name@,
        !law_types::is_standard(spelling),
    ensures
        ({
            let item = ctx.item(id);
            let params = item.applicable_template_args@.filter(
                |arg: ItemId| ctx.ty(arg).kind is Named,
            );
            let after = alias::gen_alias(ctx, st, id, spelling, inner);
            let got = after.items.last();
            let stops = !item.is_opaque && exists|k: int|
                0 <= k < item.applicable_template_args@.len() && stops_typedef(
                    ctx,
                    #[trigger] item.applicable_template_args@[k],
                );
            &&& after.needs_complex <==> st.needs_complex || (!item.is_opaque && types::rust_ty(
                ctx,
                inner,
            ).complex)
            &&& after == (ResultView {
                items: after.items,
                needs_complex: after.needs_complex,
                ..st
            })
            &&& stops ==> after.items == st.items
            &&& !stops ==> {
                &&& after.items == st.items.push(got)
                &&& got is TyAlias
                &&& words::is_mangled(ctx, item.canonical_name@, got->TyAlias_name)
                &&& words::is_only_comment(got->TyAlias_attrs, item.comment)
                &&& item.is_opaque ==> got->TyAlias_generics.len() == 0 && law_types::fills(
                    got->TyAlias_ty,
                    match ctx.ty(id).layout {
                        Some(layout) => layout,
                        None => Layout { size: 0, align: 0 },
                    },
                )
                &&& !item.is_opaque ==> got->TyAlias_ty == types::rust_ty(ctx, inner).ty
                    && law_comp::is_named_by(ctx, params, got->TyAlias_generics)
            }
        }),
{
    let item = ctx.item(id);
    let args = item.applicable_template_args@;
    let pred = |arg: ItemId| ctx.ty(arg).kind is Named;
    let params = args.filter(pred);
    law_types::law_standard_integers(spelling);
    words::law_mangle(ctx, item.canonical_name@);
    if item.is_opaque {
        law_types::law_blob_fills(types::layout_or_zero(ctx.ty(id).layout));
    } else {
        assert(alias::alias_params(ctx, item) == params);
        assert forall|k: int| 0 <= k < args.len() implies stops_typedef(ctx, #[trigger] args[k])
            == alias::is_typename(ctx, args[k]) by {}
        if exists|k: int| 0 <= k < args.len() && alias::is_typename(ctx, #[trigger] args[k]) {
            let k = choose|k: int| 0 <= k < args.len() && alias::is_typename(ctx, #[trigger] args[k]);
            args.lemma_filter_contains(pred, k);
            let j = choose|j: int| 0 <= j < params.len() && params[j] == args[k];
            assert(names::contains_text(alias::declared_name(ctx, params[j]), "typename "@));
            assert(alias::has_typename(ctx, params));
        } else {
            assert forall|j: int| 0 <= j < params.len() implies !names::contains_text(
                alias::declared_name(ctx, #[trigger] params[j]),
                "typename "@,
            ) by {
                args.lemma_filter_pred(pred, j);
                assert(params.contains(params[j]));
                args.lemma_filter_contains_rev(pred, params[j]);
                let k = choose|k: int| 0 <= k < args.len() && args[k] == params[j];
                assert(alias::param_ok(ctx, args[k]) || alias::typename_before(ctx, args, k));
                assert(!alias::is_typename(ctx, args[k]));
                if alias::typename_before(ctx, args, k) {
                    let i = choose|i: int| 0 <= i < k && alias::is_typename(ctx, #[trigger] args[i]);
                    assert(alias::is_typename(ctx, args[i]));
                }
            }
            assert(!alias::has_typename(ctx, params));
        }
    }
    if item.comment is Some {
        assert(crate::helpers::doc_attrs(item.comment)[0] == AttrView::Doc(item.comment->0@));
    }
}

/// A typedef that repeats the name of what it names, or that is known by its
/// spelling, gives nothing.
pub proof fn law_alias_skipped(
    ctx: BindgenContext,
    st: ResultView,
    id: ItemId,
    spelling: Seq<char>,
    inner: ItemId,
)
    requires
        ctx.item(inner).canonical_name@ == ctx.item(id).canonical_name@
            || law_types::is_standard(spelling),
    ensures
        alias::gen_alias(ctx, st, id, spelling, inner) == st,
{
    law_types::law_standard_integers(spelling);
}

/// What is generated with a compound type, after its struct or union: the
/// types that are declared in it, and unless it has template arguments or an
/// attribute of unknown effect, the variables that are, the test of its
/// layout, and if they are asked for the functions that its methods are.
pub proof fn law_comp_inside(ctx: BindgenContext, wl: Set<usize>, st: ResultView, id: ItemId)
    requires
        ctx.can_generate_inside(wl, id),
        comp::is_comp(ctx.item(id)),
        !law_comp::the_comp(ctx.item(id)).has_non_type_template_params,
        !law_comp::the_comp(ctx.item(id)).is_template_specialization,
    ensures
        ({
            let item = ctx.item(id);
            let info = law_comp::the_comp(item);
            let after = codegen::gen_comp(ctx, wl, st, id);
            let plain = item.applicable_template_args@.len() == 0 && !info.found_unknown_attr;
            let inner = codegen::gen_each(
                ctx,
                wl,
                comp::gen_struct(ctx, st, item),
                id,
                info.inner_types@,
            );
            let vars = if plain {
                codegen::gen_each(ctx, wl, inner, id, info.inner_vars@)
            } else {
                inner
            };
            let test: int = if plain && ctx.ty(id).layout is Some {
                1
            } else {
                0
            };
            let impls = (if law_comp::may_copy(item) && item.applicable_template_args@.len() == 0 {
                1int
            } else {
                0int
            }) + (if law_comp::own_items(ctx, item).len() > 0 {
                1int
            } else {
                0int
            });
            &&& !(plain && ctx.options.codegen_config.methods) ==> {
                &&& after.items.len() == vars.items.len() + test + impls
                &&& after.items.take(vars.items.len() as int) == vars.items
                &&& after == (ResultView { items: after.items, ..vars })
                &&& test == 1 ==> law_comp::is_test_of(
                    ctx,
                    after.items[vars.items.len() as int],
                    item.canonical_name@,
                    ctx.ty(id).layout->0,
                )
            }
            &&& plain && ctx.options.codegen_config.methods ==> exists|tested: ResultView|
                tested == (ResultView { items: tested.items, ..vars }) && tested.items.len()
                    == vars.items.len() + test && tested.items.take(vars.items.len() as int)
                    == vars.items && (test == 1 ==> law_comp::is_test_of(
                    ctx,
                    tested.items.last(),
                    item.canonical_name@,
                    ctx.ty(id).layout->0,
                )) && after == (ResultView {
                    items: after.items,
                    ..#[trigger] codegen::gen_methods(ctx, wl, tested, id, info.methods@)
                }) && after.items.take(after.items.len() - impls) == codegen::gen_methods(
                    ctx,
                    wl,
                    tested,
                    id,
                    info.methods@,
                ).items
        }),
{
    let item = ctx.item(id);
    let info = law_comp::the_comp(item);
    codegen::lemma_comp_inside(ctx, wl, id);
    let after = codegen::gen_comp(ctx, wl, st, id);
    let inner = codegen::gen_each(
        ctx,
        wl,
        comp::gen_struct(ctx, st, item),
        id,
        info.inner_types@,
    );
    assert(codegen::impl_items(ctx, id) =~= law_comp::own_items(ctx, item));
    if codegen::is_plain(item) {
        let vars = codegen::gen_each(ctx, wl, inner, id, info.inner_vars@);
        let tested = codegen::with_layout_test(ctx, vars, id);
        assert(tested.items.take(vars.items.len() as int) =~= vars.items);
        if ctx.options.codegen_config.methods {
            let called = codegen::gen_methods(ctx, wl, tested, id, info.methods@);
            let impls = after.items.len() - called.items.len();
            assert(after.items.take(after.items.len() - impls) =~= called.items);
        } else {
            assert(after.items.take(vars.items.len() as int) =~= vars.items);
        }
    } else {
        assert(after.items.take(inner.items.len() as int) =~= inner.items);
    }
}

/// The functions that methods are are generated one after the other, without
/// those of virtual methods, which give nothing.
pub proof fn law_methods_generated(
    ctx: BindgenContext,
    wl: Set<usize>,
    st: ResultView,
    owner: ItemId,
    methods: Seq<Method>,
)
    requires
        ctx.methods_in(wl, owner, methods),
        methods.len() > 0,
    ensures
        codegen::gen_methods(ctx, wl, st, owner, Seq::empty()) == st,
        ({
            let last = methods.last();
            let before = codegen::gen_methods(ctx, wl, st, owner, methods.drop_last());
            let after = codegen::gen_methods(ctx, wl, st, owner, methods);
            if last.is_virtual {
                after == before
            } else {
                let called = codegen::gen_item(ctx, wl, before, last.signature);
                &&& after == (ResultView { needs_complex: after.needs_complex, ..called })
                &&& after.needs_complex <==> called.needs_complex || types::sig_decl(
                    ctx,
                    ctx.item(last.signature).kind->Function_0.signature,
                ).complex
            }
        }),
{
    assert(ctx.methods_in(wl, owner, Seq::empty()));
    assert(methods[methods.len() - 1] == methods.last());
}

} // verus!
