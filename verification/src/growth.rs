//! Generating only adds: what has been generated stays, and nothing that was
//! noted is forgotten.
use vstd::prelude::*;

use crate::ast::ItemView;
use crate::codegen;
use crate::comp;
use crate::ir::{BindgenContext, ItemId, ItemKind, Method, TypeKind};
use crate::method;
use crate::result::ResultView;

verus! {

/// Whether the items `a` stand in `b` one after the other, from `k` on.
pub open spec fn kept_at(a: Seq<ItemView>, b: Seq<ItemView>, k: int) -> bool {
    0 <= k && k + a.len() <= b.len() && b.subrange(k, k + a.len()) == a
}

/// Whether one result comes out of another by generating more: the items
/// stand where they stood, one after the other, the counter has not gone
/// back, and what was seen is still seen.
pub open spec fn grows(a: ResultView, b: ResultView) -> bool {
    &&& exists|k: int| #[trigger] kept_at(a.items, b.items, k)
    &&& a.codegen_id <= b.codegen_id
    &&& a.saw_union ==> b.saw_union
    &&& a.needs_complex ==> b.needs_complex
    &&& a.items_seen.subset_of(b.items_seen)
    &&& a.functions_seen.subset_of(b.functions_seen)
    &&& a.vars_seen.subset_of(b.vars_seen)
    &&& a.overload_counters.dom().subset_of(b.overload_counters.dom())
}

/// Adding items at the end, or none, keeps the others.
proof fn lemma_appended(a: ResultView, b: ResultView)
    requires
        a.items.len() <= b.items.len(),
        b.items.take(a.items.len() as int) =~= a.items,
        a.codegen_id <= b.codegen_id,
        a.saw_union ==> b.saw_union,
        a.needs_complex ==> b.needs_complex,
        a.items_seen.subset_of(b.items_seen),
        a.functions_seen.subset_of(b.functions_seen),
        a.vars_seen.subset_of(b.vars_seen),
        a.overload_counters.dom().subset_of(b.overload_counters.dom()),
    ensures
        grows(a, b),
{
    assert(b.items.subrange(0, a.items.len() as int) =~= b.items.take(a.items.len() as int));
    assert(kept_at(a.items, b.items, 0));
}

/// Growth goes on.
pub proof fn lemma_grows_transitive(a: ResultView, b: ResultView, c: ResultView)
    requires
        grows(a, b),
        grows(b, c),
    ensures
        grows(a, c),
{
    let i = choose|k: int| #[trigger] kept_at(a.items, b.items, k);
    let j = choose|k: int| #[trigger] kept_at(b.items, c.items, k);
    assert(c.items.subrange(i + j, i + j + a.items.len()) =~= a.items) by {
        assert forall|k: int| 0 <= k < a.items.len() implies c.items[i + j + k] == a.items[k] by {
            assert(b.items.subrange(i, i + a.items.len())[k] == b.items[i + k]);
            assert(c.items.subrange(j, j + b.items.len())[i + k] == c.items[j + (i + k)]);
        }
    }
    assert(kept_at(a.items, c.items, i + j));
}

/// What stands before everything else leaves the items as they are.
proof fn lemma_prelude_grows(ctx: BindgenContext, st: ResultView)
    ensures
        grows(st, codegen::with_prelude(ctx, st)),
{
    let all = codegen::with_prelude(ctx, st).items;
    let k = all.len() - st.items.len();
    assert(all.subrange(k, k + st.items.len()) =~= st.items);
    assert(kept_at(st.items, all, k));
}

/// Generating an item only adds.
pub proof fn lemma_item_grows(ctx: BindgenContext, wl: Set<usize>, st: ResultView, id: ItemId)
    requires
        ctx.can_generate(wl, id),
    ensures
        grows(st, codegen::gen_item(ctx, wl, st, id)),
    decreases ctx.decl_rank(wl, id), 4nat, 0nat,
{
    let after = codegen::gen_item(ctx, wl, st, id);
    let item = ctx.item(id);
    codegen::lemma_decl(ctx, wl, id);
    if item.is_hidden || st.items_seen.contains(id.0) {
        lemma_appended(st, after);
    } else {
        let seen = st.with_seen(id);
        match item.kind {
            ItemKind::Module(_) => {
                lemma_appended(st, seen);
                lemma_module_grows(ctx, wl, seen, id);
                lemma_grows_transitive(st, seen, after);
            },
            ItemKind::Type(_) => {
                lemma_appended(st, seen);
                if ctx.options.codegen_config.types {
                    lemma_type_grows(ctx, wl, seen, id);
                    lemma_grows_transitive(st, seen, after);
                }
            },
            _ => {
                lemma_appended(st, after);
            },
        }
    }
}

/// Generating a type only adds.
pub proof fn lemma_type_grows(ctx: BindgenContext, wl: Set<usize>, st: ResultView, id: ItemId)
    requires
        ctx.can_generate_inside(wl, id),
        ctx.is_type(id),
    ensures
        grows(st, codegen::gen_type(ctx, wl, st, id)),
    decreases ctx.decl_rank(wl, id), 3nat, 0nat,
{
    match ctx.ty(id).kind {
        TypeKind::Comp(_) => {
            lemma_comp_grows(ctx, wl, st, id);
        },
        _ => {
            lemma_appended(st, codegen::gen_type(ctx, wl, st, id));
        },
    }
}

/// Generating a compound type only adds.
pub proof fn lemma_comp_grows(ctx: BindgenContext, wl: Set<usize>, st: ResultView, id: ItemId)
    requires
        ctx.can_generate_inside(wl, id),
        comp::is_comp(ctx.item(id)),
    ensures
        grows(st, codegen::gen_comp(ctx, wl, st, id)),
    decreases ctx.decl_rank(wl, id), 2nat, 1nat,
{
    let item = ctx.item(id);
    let info = comp::comp(item);
    let after = codegen::gen_comp(ctx, wl, st, id);
    if info.has_non_type_template_params || info.is_template_specialization {
        lemma_appended(st, after);
    } else {
        let declared = comp::gen_struct(ctx, st, item);
        lemma_appended(st, declared);
        lemma_comp_keeps_struct(ctx, wl, st, id);
        lemma_grows_transitive(st, declared, after);
    }
}

/// What is generated after the struct of a compound type only adds to it.
pub proof fn lemma_comp_keeps_struct(
    ctx: BindgenContext,
    wl: Set<usize>,
    st: ResultView,
    id: ItemId,
)
    requires
        ctx.can_generate_inside(wl, id),
        comp::is_comp(ctx.item(id)),
        !comp::comp(ctx.item(id)).has_non_type_template_params,
        !comp::comp(ctx.item(id)).is_template_specialization,
    ensures
        grows(comp::gen_struct(ctx, st, ctx.item(id)), codegen::gen_comp(ctx, wl, st, id)),
    decreases ctx.decl_rank(wl, id), 2nat, 0nat,
{
    let item = ctx.item(id);
    let info = comp::comp(item);
    let after = codegen::gen_comp(ctx, wl, st, id);
    codegen::lemma_comp_inside(ctx, wl, id);
    let declared = comp::gen_struct(ctx, st, item);
    let inner = codegen::gen_each(ctx, wl, declared, id, info.inner_types@);
    lemma_each_grows(ctx, wl, declared, id, info.inner_types@);
    if codegen::is_plain(item) {
        let vars = codegen::gen_each(ctx, wl, inner, id, info.inner_vars@);
        lemma_each_grows(ctx, wl, inner, id, info.inner_vars@);
        lemma_grows_transitive(declared, inner, vars);
        let tested = codegen::with_layout_test(ctx, vars, id);
        lemma_appended(vars, tested);
        lemma_grows_transitive(declared, vars, tested);
        if ctx.options.codegen_config.methods {
            let called = codegen::gen_methods(ctx, wl, tested, id, info.methods@);
            lemma_methods_grows(ctx, wl, tested, id, info.methods@);
            lemma_grows_transitive(declared, tested, called);
            lemma_appended(called, after);
            lemma_grows_transitive(declared, called, after);
        } else {
            lemma_appended(tested, after);
            lemma_grows_transitive(declared, tested, after);
        }
    } else {
        lemma_appended(inner, after);
        lemma_grows_transitive(declared, inner, after);
    }
}

/// Generating a list of items only adds.
pub proof fn lemma_each_grows(
    ctx: BindgenContext,
    wl: Set<usize>,
    st: ResultView,
    owner: ItemId,
    ids: Seq<ItemId>,
)
    requires
        ctx.nested_in(wl, owner, ids),
    ensures
        grows(st, codegen::gen_each(ctx, wl, st, owner, ids)),
    decreases ctx.decl_rank(wl, owner), 1nat, ids.len(),
{
    let after = codegen::gen_each(ctx, wl, st, owner, ids);
    if ids.len() == 0 {
        lemma_appended(st, after);
    } else {
        assert(ctx.can_generate(wl, ids[ids.len() - 1]));
        let before = codegen::gen_each(ctx, wl, st, owner, ids.drop_last());
        lemma_each_grows(ctx, wl, st, owner, ids.drop_last());
        lemma_item_grows(ctx, wl, before, ids.last());
        lemma_grows_transitive(st, before, after);
    }
}

/// Generating the functions that are methods only adds.
pub proof fn lemma_methods_grows(
    ctx: BindgenContext,
    wl: Set<usize>,
    st: ResultView,
    owner: ItemId,
    methods: Seq<Method>,
)
    requires
        ctx.methods_in(wl, owner, methods),
    ensures
        grows(st, codegen::gen_methods(ctx, wl, st, owner, methods)),
    decreases ctx.decl_rank(wl, owner), 1nat, methods.len(),
{
    let after = codegen::gen_methods(ctx, wl, st, owner, methods);
    if methods.len() == 0 {
        lemma_appended(st, after);
    } else {
        let last = methods[methods.len() - 1];
        assert(method::method_ok(ctx, last));
        let before = codegen::gen_methods(ctx, wl, st, owner, methods.drop_last());
        lemma_methods_grows(ctx, wl, st, owner, methods.drop_last());
        if !last.is_virtual {
            let called = codegen::gen_item(ctx, wl, before, last.signature);
            lemma_item_grows(ctx, wl, before, last.signature);
            lemma_grows_transitive(st, before, called);
            lemma_appended(called, after);
            lemma_grows_transitive(st, called, after);
        }
    }
}

/// Generating the first items of a list comes before generating the others.
pub proof fn lemma_each_prefix(
    ctx: BindgenContext,
    wl: Set<usize>,
    st: ResultView,
    owner: ItemId,
    ids: Seq<ItemId>,
    n: int,
)
    requires
        ctx.nested_in(wl, owner, ids),
        0 <= n <= ids.len(),
    ensures
        ctx.nested_in(wl, owner, ids.take(n)),
        n < ids.len() ==> codegen::gen_each(ctx, wl, st, owner, ids.take(n + 1))
            == codegen::gen_item(
            ctx,
            wl,
            codegen::gen_each(ctx, wl, st, owner, ids.take(n)),
            ids[n],
        ),
        grows(
            codegen::gen_each(ctx, wl, st, owner, ids.take(n)),
            codegen::gen_each(ctx, wl, st, owner, ids),
        ),
    decreases ids.len() - n,
{
    let before = codegen::gen_each(ctx, wl, st, owner, ids.take(n));
    let all = codegen::gen_each(ctx, wl, st, owner, ids);
    if n == ids.len() {
        assert(ids.take(n) =~= ids);
        lemma_appended(all, all);
    } else {
        lemma_each_prefix(ctx, wl, st, owner, ids, n + 1);
        assert(ids.take(n + 1).drop_last() =~= ids.take(n));
        assert(ctx.can_generate(wl, ids[n]));
        lemma_item_grows(ctx, wl, before, ids[n]);
        lemma_grows_transitive(
            before,
            codegen::gen_each(ctx, wl, st, owner, ids.take(n + 1)),
            all,
        );
    }
}

/// The same of the functions that are methods.
pub proof fn lemma_methods_prefix(
    ctx: BindgenContext,
    wl: Set<usize>,
    st: ResultView,
    owner: ItemId,
    methods: Seq<Method>,
    n: int,
)
    requires
        ctx.methods_in(wl, owner, methods),
        0 <= n <= methods.len(),
    ensures
        ctx.methods_in(wl, owner, methods.take(n)),
        n < methods.len() ==> codegen::gen_methods(ctx, wl, st, owner, methods.take(n + 1)) == ({
            let before = codegen::gen_methods(ctx, wl, st, owner, methods.take(n));
            if methods[n].is_virtual {
                before
            } else {
                codegen::gen_item(ctx, wl, before, methods[n].signature).with_complex(
                    crate::types::sig_decl(
                        ctx,
                        method::function_of(ctx, methods[n]).signature,
                    ).complex,
                )
            }
        }),
        grows(
            codegen::gen_methods(ctx, wl, st, owner, methods.take(n)),
            codegen::gen_methods(ctx, wl, st, owner, methods),
        ),
    decreases methods.len() - n,
{
    let before = codegen::gen_methods(ctx, wl, st, owner, methods.take(n));
    let all = codegen::gen_methods(ctx, wl, st, owner, methods);
    if n == methods.len() {
        assert(methods.take(n) =~= methods);
        lemma_appended(all, all);
    } else {
        let next = methods[n];
        assert(method::method_ok(ctx, next));
        lemma_methods_prefix(ctx, wl, st, owner, methods, n + 1);
        let more = codegen::gen_methods(ctx, wl, st, owner, methods.take(n + 1));
        assert(methods.take(n + 1).drop_last() =~= methods.take(n));
        assert(methods.take(n + 1).last() == next);
        if !next.is_virtual {
            let called = codegen::gen_item(ctx, wl, before, next.signature);
            lemma_item_grows(ctx, wl, before, next.signature);
            lemma_appended(called, more);
            lemma_grows_transitive(before, called, more);
            lemma_grows_transitive(before, more, all);
        }
    }
}

/// The same of those items of a list that are asked for.
pub proof fn lemma_asked_for_prefix(
    ctx: BindgenContext,
    wl: Set<usize>,
    st: ResultView,
    owner: ItemId,
    ids: Seq<ItemId>,
    n: int,
)
    requires
        ctx.nested_in(wl, owner, codegen::asked_for(wl, ids)),
        0 <= n <= ids.len(),
    ensures
        ctx.nested_in(wl, owner, codegen::asked_for(wl, ids.take(n))),
        n < ids.len() ==> codegen::asked_for(wl, ids.take(n + 1)) == (if wl.contains(ids[n].0) {
            codegen::asked_for(wl, ids.take(n)).push(ids[n])
        } else {
            codegen::asked_for(wl, ids.take(n))
        }),
        grows(
            codegen::gen_each(ctx, wl, st, owner, codegen::asked_for(wl, ids.take(n))),
            codegen::gen_each(ctx, wl, st, owner, codegen::asked_for(wl, ids)),
        ),
    decreases ids.len() - n,
{
    let some = codegen::asked_for(wl, ids.take(n));
    let before = codegen::gen_each(ctx, wl, st, owner, some);
    let all = codegen::gen_each(ctx, wl, st, owner, codegen::asked_for(wl, ids));
    if n == ids.len() {
        assert(ids.take(n) =~= ids);
        lemma_appended(all, all);
    } else {
        lemma_asked_for_prefix(ctx, wl, st, owner, ids, n + 1);
        reveal(Seq::filter);
        assert(ids.take(n + 1).drop_last() =~= ids.take(n));
        assert(ids.take(n + 1).last() == ids[n]);
        if wl.contains(ids[n].0) {
            let more = some.push(ids[n]);
            assert(more.drop_last() =~= some);
            assert(more[some.len() as int] == ids[n]);
            assert forall|k: int| 0 <= k < some.len() implies ctx.can_generate(
                wl,
                #[trigger] some[k],
            ) && ctx.decl_rank(wl, some[k]) < ctx.decl_rank(wl, owner) by {
                assert(more[k] == some[k]);
            }
            lemma_item_grows(ctx, wl, before, ids[n]);
            lemma_grows_transitive(
                before,
                codegen::gen_each(ctx, wl, st, owner, more),
                all,
            );
        }
    }
}

/// Those of the children of a module that are asked for are declared in it.
pub proof fn lemma_children_nested(ctx: BindgenContext, wl: Set<usize>, id: ItemId)
    requires
        ctx.can_generate_inside(wl, id),
        ctx.item(id).kind is Module,
    ensures
        ctx.nested_in(wl, id, codegen::asked_for(wl, ctx.item(id).kind->Module_0.children@)),
{
    codegen::lemma_nested(
        ctx,
        wl,
        id,
        codegen::asked_for(wl, ctx.item(id).kind->Module_0.children@),
    );
}

/// Generating the inside of a module only adds.
pub proof fn lemma_body_grows(ctx: BindgenContext, wl: Set<usize>, st: ResultView, id: ItemId)
    requires
        ctx.can_generate_inside(wl, id),
        ctx.item(id).kind is Module,
    ensures
        grows(st, codegen::module_body(ctx, wl, st, id)),
    decreases ctx.decl_rank(wl, id), 2nat, 0nat,
{
    let children = codegen::asked_for(wl, ctx.item(id).kind->Module_0.children@);
    let each = codegen::gen_each(ctx, wl, st, id, children);
    lemma_children_nested(ctx, wl, id);
    lemma_each_grows(ctx, wl, st, id, children);
    if id == ctx.root_module {
        lemma_prelude_grows(ctx, each);
        lemma_grows_transitive(st, each, codegen::with_prelude(ctx, each));
    }
}

/// Generating a module only adds.
pub proof fn lemma_module_grows(ctx: BindgenContext, wl: Set<usize>, st: ResultView, id: ItemId)
    requires
        ctx.can_generate_inside(wl, id),
        ctx.item(id).kind is Module,
    ensures
        grows(st, codegen::gen_module(ctx, wl, st, id)),
    decreases ctx.decl_rank(wl, id), 3nat, 0nat,
{
    if ctx.options.enable_cxx_namespaces {
        let start = ResultView::fresh(st.codegen_id, st.needs_complex).push(
            crate::support::root_import_item(ctx, ctx.item(id)),
        );
        lemma_body_grows(ctx, wl, start, id);
        lemma_appended(st, codegen::gen_module(ctx, wl, st, id));
    } else {
        lemma_body_grows(ctx, wl, st, id);
    }
}

} // verus!
