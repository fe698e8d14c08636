//! How many ids generating bindings can take at most.
use std::collections::HashSet;

use vstd::prelude::*;

use crate::codegen;
use crate::comp;
use crate::growth;
use crate::ir::{BindgenContext, ItemId, ItemKind, Method};
use crate::laws;
use crate::method;
use crate::result::ResultView;
use crate::valid_decls;
use crate::valid_types;

verus! {

/// How many items there are in an item: itself, and those generated with it.
pub open spec fn weight(ctx: BindgenContext, wl: Set<usize>, id: ItemId) -> nat
    decreases ctx.decl_rank(wl, id), 1nat, 0nat,
    when ctx.can_generate(wl, id)
{
    weights(ctx, wl, id, valid_decls::decl_parts(ctx, wl, id.0 as int)) + 1
}

/// How many items there are in those of a list, which are generated with
/// `owner`.
pub open spec fn weights(
    ctx: BindgenContext,
    wl: Set<usize>,
    owner: ItemId,
    ids: Seq<ItemId>,
) -> nat
    decreases ctx.decl_rank(wl, owner), 0nat, ids.len(),
    when ctx.nested_in(wl, owner, ids)
{
    if ids.len() == 0 {
        0
    } else {
        proof {
            assert(ctx.can_generate(wl, ids[ids.len() - 1]));
        }
        weights(ctx, wl, owner, ids.drop_last()) + weight(ctx, wl, ids.last())
    }
}

/// What is generated with an item is nested in it.
proof fn lemma_parts_nested(ctx: BindgenContext, wl: Set<usize>, id: ItemId)
    requires
        ctx.can_generate(wl, id),
    ensures
        ctx.has(id),
        ctx.nested_in(wl, id, valid_decls::decl_parts(ctx, wl, id.0 as int)),
{
    let parts = valid_decls::decl_parts(ctx, wl, id.0 as int);
    codegen::lemma_decl(ctx, wl, id);
    valid_decls::lemma_decl_ok(ctx, wl, ctx.decl_ranks(wl), id.0 as int);
    codegen::lemma_nested(ctx, wl, id, parts);
}

/// The weight of a list is that of its halves.
proof fn lemma_weights_halves(
    ctx: BindgenContext,
    wl: Set<usize>,
    owner: ItemId,
    a: Seq<ItemId>,
    b: Seq<ItemId>,
)
    requires
        ctx.nested_in(wl, owner, a + b),
    ensures
        ctx.nested_in(wl, owner, a),
        ctx.nested_in(wl, owner, b),
        weights(ctx, wl, owner, a + b) == weights(ctx, wl, owner, a) + weights(ctx, wl, owner, b),
    decreases b.len(),
{
    assert forall|k: int| 0 <= k < a.len() implies ctx.can_generate(wl, #[trigger] a[k])
        && ctx.decl_rank(wl, a[k]) < ctx.decl_rank(wl, owner) by {
        assert((a + b)[k] == a[k]);
    }
    assert forall|k: int| 0 <= k < b.len() implies ctx.can_generate(wl, #[trigger] b[k])
        && ctx.decl_rank(wl, b[k]) < ctx.decl_rank(wl, owner) by {
        assert((a + b)[a.len() + k] == b[k]);
    }
    if b.len() == 0 {
        assert(a + b =~= a);
    } else {
        assert((a + b).drop_last() =~= a + b.drop_last());
        assert((a + b).last() == b.last());
        assert(ctx.nested_in(wl, owner, (a + b).drop_last()));
        lemma_weights_halves(ctx, wl, owner, a, b.drop_last());
    }
}

/// Generating an item takes no more ids than it weighs.
pub proof fn lemma_item_ids(ctx: BindgenContext, wl: Set<usize>, st: ResultView, id: ItemId)
    requires
        ctx.can_generate(wl, id),
    ensures
        codegen::gen_item(ctx, wl, st, id).codegen_id <= st.codegen_id + weight(ctx, wl, id),
    decreases ctx.decl_rank(wl, id), 4nat, 0nat,
{
    let seen = st.with_seen(id);
    lemma_parts_nested(ctx, wl, id);
    codegen::lemma_decl(ctx, wl, id);
    if !ctx.item(id).is_hidden && !st.items_seen.contains(id.0) {
        match ctx.item(id).kind {
            ItemKind::Module(module) => {
                let some = codegen::asked_for(wl, module.children@);
                if ctx.options.enable_cxx_namespaces {
                    let start = ResultView::fresh(seen.codegen_id, seen.needs_complex).push(
                        crate::support::root_import_item(ctx, ctx.item(id)),
                    );
                    lemma_each_ids(ctx, wl, start, id, some);
                } else {
                    lemma_each_ids(ctx, wl, seen, id, some);
                }
            },
            ItemKind::Type(ty) => {
                if ctx.options.codegen_config.types && ty.kind is Comp {
                    lemma_comp_ids(ctx, wl, seen, id);
                }
            },
            _ => {},
        }
    }
}

proof fn lemma_comp_ids(ctx: BindgenContext, wl: Set<usize>, st: ResultView, id: ItemId)
    requires
        ctx.can_generate(wl, id),
        comp::is_comp(ctx.item(id)),
        !ctx.item(id).is_hidden,
        ctx.options.codegen_config.types,
    ensures
        codegen::gen_comp(ctx, wl, st, id).codegen_id <= st.codegen_id + weight(ctx, wl, id),
    decreases ctx.decl_rank(wl, id), 2nat, 0nat,
{
    let item = ctx.item(id);
    let info = comp::comp(item);
    codegen::lemma_decl(ctx, wl, id);
    lemma_parts_nested(ctx, wl, id);
    if !valid_decls::has_no_inside(info) {
        let methods = info.methods@;
        let called = valid_decls::signatures(methods, methods.len() as int);
        codegen::lemma_comp_inside(ctx, wl, id);
        let declared = comp::gen_struct(ctx, st, item);
        lemma_each_ids(ctx, wl, declared, id, info.inner_types@);
        if codegen::is_plain(item) {
            let inner = codegen::gen_each(ctx, wl, declared, id, info.inner_types@);
            lemma_each_ids(ctx, wl, inner, id, info.inner_vars@);
            let vars = codegen::gen_each(ctx, wl, inner, id, info.inner_vars@);
            let tested = codegen::with_layout_test(ctx, vars, id);
            if ctx.options.codegen_config.methods {
                lemma_weights_halves(ctx, wl, id, info.inner_types@ + info.inner_vars@, called);
                lemma_methods_ids(ctx, wl, tested, id, methods, methods.len() as int);
                assert(methods.take(methods.len() as int) =~= methods);
            }
            lemma_weights_halves(ctx, wl, id, info.inner_types@, info.inner_vars@);
        }
    }
}

proof fn lemma_each_ids(
    ctx: BindgenContext,
    wl: Set<usize>,
    st: ResultView,
    owner: ItemId,
    ids: Seq<ItemId>,
)
    requires
        ctx.nested_in(wl, owner, ids),
    ensures
        codegen::gen_each(ctx, wl, st, owner, ids).codegen_id <= st.codegen_id + weights(
            ctx,
            wl,
            owner,
            ids,
        ),
    decreases ctx.decl_rank(wl, owner), 1nat, ids.len(),
{
    if ids.len() > 0 {
        assert(ctx.can_generate(wl, ids[ids.len() - 1]));
        lemma_each_ids(ctx, wl, st, owner, ids.drop_last());
        lemma_item_ids(
            ctx,
            wl,
            codegen::gen_each(ctx, wl, st, owner, ids.drop_last()),
            ids.last(),
        );
    }
}

proof fn lemma_methods_ids(
    ctx: BindgenContext,
    wl: Set<usize>,
    st: ResultView,
    owner: ItemId,
    methods: Seq<Method>,
    n: int,
)
    requires
        ctx.methods_in(wl, owner, methods),
        0 <= n <= methods.len(),
        ctx.nested_in(wl, owner, valid_decls::signatures(methods, n)),
    ensures
        codegen::gen_methods(ctx, wl, st, owner, methods.take(n)).codegen_id <= st.codegen_id
            + weights(ctx, wl, owner, valid_decls::signatures(methods, n)),
    decreases ctx.decl_rank(wl, owner), 1nat, n,
{
    let all = valid_decls::signatures(methods, n);
    growth::lemma_methods_prefix(ctx, wl, st, owner, methods, n);
    if n == 0 {
        assert(methods.take(0) =~= seq![]);
    } else {
        let last = methods[n - 1];
        assert(method::method_ok(ctx, last));
        growth::lemma_methods_prefix(ctx, wl, st, owner, methods, n - 1);
        let before = codegen::gen_methods(ctx, wl, st, owner, methods.take(n - 1));
        if last.is_virtual {
            lemma_methods_ids(ctx, wl, st, owner, methods, n - 1);
        } else {
            let fewer = valid_decls::signatures(methods, n - 1);
            assert(all.drop_last() =~= fewer);
            assert(ctx.nested_in(wl, owner, all.drop_last()));
            lemma_methods_ids(ctx, wl, st, owner, methods, n - 1);
            lemma_item_ids(ctx, wl, before, last.signature);
            assert(all.last() == last.signature);
        }
    }
}

impl BindgenContext {
    /// Whether each number that is not zero is the weight of the item at its
    /// position.
    spec fn weighed(&self, wl: Set<usize>, known: Seq<usize>) -> bool {
        &&& known.len() == self.items@.len()
        &&& forall|i: usize|
            i < known.len() && #[trigger] known[i as int] != 0 ==> known[i as int] == weight(
                *self,
                wl,
                ItemId(i),
            )
    }

    /// How many items there are in an item, if that can be counted. `known`
    /// holds what was counted before.
    fn weigh(&self, id: ItemId, set: &HashSet<usize>, known: &mut Vec<usize>) -> (r: Option<usize>)
        requires
            self.can_generate(set@, id),
            self.weighed(set@, old(known)@),
        ensures
            match r {
                Some(w) => w == weight(*self, set@, id),
                None => weight(*self, set@, id) > usize::MAX,
            },
            self.weighed(set@, final(known)@),
        decreases self.decl_rank(set@, id),
    {
        let ghost wl = set@;
        let ghost all = valid_decls::decl_parts(*self, wl, id.0 as int);
        proof {
            lemma_parts_nested(*self, wl, id);
        }
        if known[id.0] != 0 {
            return Some(known[id.0]);
        }
        let parts = self.positions_inside(self.resolve_item(id), set, Ghost(id.0 as int));
        let mut total: usize = 1;
        let mut k: usize = 0;
        assert(all.take(0) =~= seq![]);
        while k < parts.len()
            invariant
                0 <= k <= parts@.len(),
                self.has(id),
                wl == set@,
                self.weighed(wl, known@),
                all == valid_decls::decl_parts(*self, wl, id.0 as int),
                self.nested_in(wl, id, all),
                parts@ == valid_types::positions(all),
                self.nested_in(wl, id, all.take(k as int)),
                total == weights(*self, wl, id, all.take(k as int)) + 1,
                weight(*self, wl, id) == weights(*self, wl, id, all) + 1,
            decreases parts@.len() - k,
        {
            let part = ItemId(parts[k]);
            proof {
                assert(part == all[k as int]);
                let rest = all.skip(k + 1);
                assert(all.take(k + 1).drop_last() =~= all.take(k as int));
                assert(all.take(k + 1) + rest =~= all);
                lemma_weights_halves(*self, wl, id, all.take(k + 1), rest);
            }
            match self.weigh(part, set, known) {
                Some(w) => match total.checked_add(w) {
                    Some(sum) => {
                        total = sum;
                    },
                    None => {
                        return None;
                    },
                },
                None => {
                    return None;
                },
            }
            k += 1;
        }
        assert(all.take(all.len() as int) =~= all);
        known.set(id.0, total);
        Some(total)
    }

    /// Whether the items can be counted each time that they can be generated:
    /// without namespaces that is once, with them once in every module.
    pub fn has_countable_items(&self) -> (b: bool)
        requires
            self.wf(),
        ensures
            b == (!self.options.enable_cxx_namespaces || weight(
                *self,
                self.whitelist(),
                self.root_module,
            ) <= usize::MAX),
            b ==> codegen::generated(*self).codegen_id <= usize::MAX,
    {
        proof {
            if !self.options.enable_cxx_namespaces || weight(
                *self,
                self.whitelist(),
                self.root_module,
            ) <= usize::MAX {
                laws::law_ids_bounded(*self);
            }
        }
        if !self.options.enable_cxx_namespaces {
            return true;
        }
        let set = self.whitelisted_set();
        let n = self.items.len();
        let mut known: Vec<usize> = Vec::new();
        while known.len() < n
            invariant
                known@.len() <= n,
                forall|i: int| 0 <= i < known@.len() ==> known@[i] == 0,
            decreases n - known@.len(),
        {
            known.push(0);
        }
        self.weigh(self.root_module, &set, &mut known).is_some()
    }
}

} // verus!
