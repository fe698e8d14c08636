//! How far the counters go: the numbers of overloads, and the number of ids
//! given.
use vstd::prelude::*;

use crate::codegen;
use crate::comp;
use crate::growth;
use crate::ir::{BindgenContext, ItemId, ItemKind, Method, TypeKind};
use crate::method;
use crate::result;
use crate::result::ResultView;

verus! {

/// Whether no number of overloads has gone back.
pub open spec fn counts_grow(a: ResultView, b: ResultView) -> bool {
    forall|name: Seq<char>| #[trigger] a.overloads(name) <= b.overloads(name)
}

/// Whether what is generated between two results is accounted for by the
/// declarations seen between them: without namespaces, no more ids were given
/// than declarations seen, and `slack`.
pub open spec fn accounted(
    ctx: BindgenContext,
    a: ResultView,
    b: ResultView,
    slack: nat,
) -> bool {
    &&& b.counted(ctx, 0)
    &&& counts_grow(a, b)
    &&& !ctx.options.enable_cxx_namespaces ==> b.codegen_id + a.items_seen.len() <= a.codegen_id
        + b.items_seen.len() + slack
}

/// What leaves the declarations and the counts alone needs no accounting.
proof fn lemma_same(ctx: BindgenContext, a: ResultView, b: ResultView, slack: nat)
    requires
        a.counted(ctx, 0),
        b.items_seen == a.items_seen,
        b.overload_counters == a.overload_counters,
        b.codegen_id <= a.codegen_id + slack,
    ensures
        accounted(ctx, a, b, slack),
{
    result::lemma_counted_kept(ctx, a, b);
}

/// Every number of overloads can be compared.
proof fn lemma_later(ctx: BindgenContext, a: ResultView, b: ResultView, c: ResultView)
    requires
        accounted(ctx, a, b, 0),
        accounted(ctx, b, c, 0),
    ensures
        accounted(ctx, a, c, 0),
{
    assert forall|name: Seq<char>| #[trigger] a.overloads(name) <= c.overloads(name) by {
        assert(b.overloads(name) <= c.overloads(name));
    }
}

/// Generating an item counts its overloads upwards, and gives no more ids
/// than it sees declarations, if namespaces are disabled.
pub proof fn lemma_item_accounted(ctx: BindgenContext, wl: Set<usize>, st: ResultView, id: ItemId)
    requires
        ctx.is_sound(),
        ctx.can_generate(wl, id),
        st.counted(ctx, 0),
    ensures
        accounted(ctx, st, codegen::gen_item(ctx, wl, st, id), 0),
    decreases ctx.decl_rank(wl, id), 4nat, 0nat,
{
    let after = codegen::gen_item(ctx, wl, st, id);
    let item = ctx.item(id);
    codegen::lemma_decl(ctx, wl, id);
    if item.is_hidden || st.items_seen.contains(id.0) {
        lemma_same(ctx, st, after, 0);
    } else {
        let seen = st.with_seen(id);
        result::lemma_counted_seen(ctx, st, id);
        result::lemma_seen_len(st.items_seen, ctx.items@.len() as usize);
        match item.kind {
            ItemKind::Module(_) => {
                lemma_module_accounted(ctx, wl, seen, id);
            },
            ItemKind::Type(_) => {
                if ctx.options.codegen_config.types {
                    lemma_type_accounted(ctx, wl, seen, id);
                } else {
                    lemma_same(ctx, seen, after, 1);
                }
            },
            ItemKind::Function(_) => {
                assert forall|other: Seq<char>| #[trigger] after.overloads(other) + 0
                    <= after.items_seen.len() && seen.overloads(other) <= after.overloads(other) by {
                    assert(seen.overloads(other) + 1 <= seen.items_seen.len());
                    assert(seen.overloads(other) < u32::MAX);
                }
                assert forall|other: Seq<char>| #[trigger] seen.overloads(other) <= after.overloads(
                    other,
                ) by {
                    assert(after.overloads(other) + 0 <= after.items_seen.len());
                }
            },
            ItemKind::Var(_) => {
                lemma_same(ctx, seen, after, 1);
            },
        }
        assert forall|other: Seq<char>| #[trigger] st.overloads(other) <= after.overloads(
            other,
        ) by {
            assert(st.overloads(other) == seen.overloads(other));
            assert(seen.overloads(other) <= after.overloads(other));
        }
    }
}

proof fn lemma_type_accounted(ctx: BindgenContext, wl: Set<usize>, st: ResultView, id: ItemId)
    requires
        ctx.is_sound(),
        ctx.can_generate_inside(wl, id),
        ctx.is_type(id),
        st.counted(ctx, 0),
    ensures
        accounted(ctx, st, codegen::gen_type(ctx, wl, st, id), 1),
    decreases ctx.decl_rank(wl, id), 3nat, 0nat,
{
    match ctx.ty(id).kind {
        TypeKind::Comp(_) => {
            lemma_comp_accounted(ctx, wl, st, id);
        },
        _ => {
            lemma_same(ctx, st, codegen::gen_type(ctx, wl, st, id), 1);
        },
    }
}

proof fn lemma_comp_accounted(ctx: BindgenContext, wl: Set<usize>, st: ResultView, id: ItemId)
    requires
        ctx.is_sound(),
        ctx.can_generate_inside(wl, id),
        comp::is_comp(ctx.item(id)),
        st.counted(ctx, 0),
    ensures
        accounted(ctx, st, codegen::gen_comp(ctx, wl, st, id), 1),
    decreases ctx.decl_rank(wl, id), 2nat, 0nat,
{
    let item = ctx.item(id);
    let info = comp::comp(item);
    let after = codegen::gen_comp(ctx, wl, st, id);
    if info.has_non_type_template_params || info.is_template_specialization {
        lemma_same(ctx, st, after, 1);
    } else {
        codegen::lemma_comp_inside(ctx, wl, id);
        let declared = comp::gen_struct(ctx, st, item);
        lemma_same(ctx, st, declared, 0);
        let inner = codegen::gen_each(ctx, wl, declared, id, info.inner_types@);
        lemma_each_accounted(ctx, wl, declared, id, info.inner_types@);
        lemma_later(ctx, st, declared, inner);
        let before = if codegen::is_plain(item) {
            let vars = codegen::gen_each(ctx, wl, inner, id, info.inner_vars@);
            lemma_each_accounted(ctx, wl, inner, id, info.inner_vars@);
            lemma_later(ctx, st, inner, vars);
            let tested = codegen::with_layout_test(ctx, vars, id);
            lemma_same(ctx, vars, tested, 0);
            lemma_later(ctx, st, vars, tested);
            if ctx.options.codegen_config.methods {
                let called = codegen::gen_methods(ctx, wl, tested, id, info.methods@);
                lemma_methods_accounted(ctx, wl, tested, id, info.methods@);
                lemma_later(ctx, st, tested, called);
                called
            } else {
                tested
            }
        } else {
            inner
        };
        lemma_same(ctx, before, after, 0);
        lemma_later(ctx, st, before, after);
    }
}

proof fn lemma_each_accounted(
    ctx: BindgenContext,
    wl: Set<usize>,
    st: ResultView,
    owner: ItemId,
    ids: Seq<ItemId>,
)
    requires
        ctx.is_sound(),
        ctx.nested_in(wl, owner, ids),
        st.counted(ctx, 0),
    ensures
        accounted(ctx, st, codegen::gen_each(ctx, wl, st, owner, ids), 0),
    decreases ctx.decl_rank(wl, owner), 1nat, ids.len(),
{
    let after = codegen::gen_each(ctx, wl, st, owner, ids);
    if ids.len() == 0 {
        lemma_same(ctx, st, after, 0);
    } else {
        assert(ctx.can_generate(wl, ids[ids.len() - 1]));
        let before = codegen::gen_each(ctx, wl, st, owner, ids.drop_last());
        lemma_each_accounted(ctx, wl, st, owner, ids.drop_last());
        lemma_item_accounted(ctx, wl, before, ids.last());
        lemma_later(ctx, st, before, after);
    }
}

proof fn lemma_methods_accounted(
    ctx: BindgenContext,
    wl: Set<usize>,
    st: ResultView,
    owner: ItemId,
    methods: Seq<Method>,
)
    requires
        ctx.is_sound(),
        ctx.methods_in(wl, owner, methods),
        st.counted(ctx, 0),
    ensures
        accounted(ctx, st, codegen::gen_methods(ctx, wl, st, owner, methods), 0),
    decreases ctx.decl_rank(wl, owner), 1nat, methods.len(),
{
    let after = codegen::gen_methods(ctx, wl, st, owner, methods);
    if methods.len() == 0 {
        lemma_same(ctx, st, after, 0);
    } else {
        let last = methods[methods.len() - 1];
        assert(method::method_ok(ctx, last));
        let before = codegen::gen_methods(ctx, wl, st, owner, methods.drop_last());
        lemma_methods_accounted(ctx, wl, st, owner, methods.drop_last());
        if !last.is_virtual {
            let called = codegen::gen_item(ctx, wl, before, last.signature);
            lemma_item_accounted(ctx, wl, before, last.signature);
            lemma_later(ctx, st, before, called);
            lemma_same(ctx, called, after, 0);
            lemma_later(ctx, st, called, after);
        }
    }
}

proof fn lemma_module_accounted(ctx: BindgenContext, wl: Set<usize>, st: ResultView, id: ItemId)
    requires
        ctx.is_sound(),
        ctx.can_generate_inside(wl, id),
        ctx.item(id).kind is Module,
        st.counted(ctx, 0),
    ensures
        accounted(ctx, st, codegen::gen_module(ctx, wl, st, id), 1),
    decreases ctx.decl_rank(wl, id), 3nat, 0nat,
{
    let after = codegen::gen_module(ctx, wl, st, id);
    if ctx.options.enable_cxx_namespaces {
        result::lemma_counted_kept(ctx, st, after);
    } else {
        let children = codegen::asked_for(wl, ctx.item(id).kind->Module_0.children@);
        let each = codegen::gen_each(ctx, wl, st, id, children);
        growth::lemma_children_nested(ctx, wl, id);
        lemma_each_accounted(ctx, wl, st, id, children);
        lemma_same(ctx, each, after, 0);
        lemma_later(ctx, st, each, after);
    }
}

} // verus!
