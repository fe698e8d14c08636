//! Whether bindings can be generated for a context.
use std::collections::HashSet;

use vstd::prelude::*;

use crate::alias;
use crate::bitfield;
use crate::codegen;
use crate::comp;
use crate::enums;
use crate::foreign;
use crate::ir::{
    BindgenContext, CompInfo, CompKind, Enum, Field, Function, Item, ItemId, ItemKind, Method, Type,
    TypeKind, Var, VarType,
};
use crate::method;
use crate::names::{contains, same};
use crate::ranking;
use crate::ranking::rank_parts;
use crate::types::type_from_named;
use crate::valid_types;
use crate::valid_types::push_ids;

verus! {

/// The functions that are the first `n` methods, without those that are
/// virtual.
pub open spec fn signatures(methods: Seq<Method>, n: int) -> Seq<ItemId>
    decreases n,
{
    if n <= 0 {
        seq![]
    } else if methods[n - 1].is_virtual {
        signatures(methods, n - 1)
    } else {
        signatures(methods, n - 1).push(methods[n - 1].signature)
    }
}

/// Whether nothing is generated for what is declared in a compound type.
pub open spec fn has_no_inside(info: CompInfo) -> bool {
    info.has_non_type_template_params || info.is_template_specialization
}

/// What is generated with the item at `i`, as if it was neither hidden nor of
/// a kind that is not generated.
pub open spec fn inside_parts(ctx: BindgenContext, wl: Set<usize>, i: int) -> Seq<ItemId> {
    let item = ctx.items@[i];
    match item.kind {
        ItemKind::Module(module) => codegen::asked_for(wl, module.children@),
        ItemKind::Type(ty) => match ty.kind {
            TypeKind::Comp(info) => if has_no_inside(info) {
                seq![]
            } else if !codegen::is_plain(item) {
                info.inner_types@
            } else if !ctx.options.codegen_config.methods {
                info.inner_types@ + info.inner_vars@
            } else {
                info.inner_types@ + info.inner_vars@ + signatures(
                    info.methods@,
                    info.methods@.len() as int,
                )
            },
            _ => seq![],
        },
        _ => seq![],
    }
}

/// Whether nothing is generated for an item.
pub open spec fn is_left_out(ctx: BindgenContext, item: Item) -> bool {
    item.is_hidden || !ctx.is_switched_on(item.kind)
}

/// What is generated with the item at `i`.
pub open spec fn decl_parts(ctx: BindgenContext, wl: Set<usize>, i: int) -> Seq<ItemId> {
    if is_left_out(ctx, ctx.items@[i]) {
        seq![]
    } else {
        inside_parts(ctx, wl, i)
    }
}

/// Whether every method can be generated.
pub open spec fn all_methods_ok(ctx: BindgenContext, methods: Seq<Method>) -> bool {
    forall|k: int| 0 <= k < methods.len() ==> method::method_ok(ctx, #[trigger] methods[k])
}

/// What is asked of a compound type apart from what is generated with it.
pub open spec fn comp_local(ctx: BindgenContext, item: Item) -> bool {
    let info = comp::comp(item);
    if info.has_non_type_template_params {
        true
    } else if info.is_template_specialization {
        item.kind->Type_0.layout is Some ==> ctx.converts(item.id)
    } else {
        &&& comp::comp_ok(ctx, item)
        &&& codegen::is_plain(item) && ctx.options.codegen_config.methods ==> all_methods_ok(
            ctx,
            info.methods@,
        )
    }
}

/// What is asked of the item at `i` apart from what is generated with it.
pub open spec fn decl_local(ctx: BindgenContext, i: int) -> bool {
    let item = ctx.items@[i];
    is_left_out(ctx, item) || match item.kind {
        ItemKind::Module(_) => ctx.options.enable_cxx_namespaces ==> ctx.has(ctx.root_module)
            && forall|k: int|
            0 <= k < item.ancestors@.len() ==> ctx.has(#[trigger] item.ancestors@[k]),
        ItemKind::Function(function) => foreign::function_ok(ctx, function),
        ItemKind::Var(var) => foreign::var_ok(ctx, var),
        ItemKind::Type(ty) => match ty.kind {
            TypeKind::Comp(_) => comp_local(ctx, item),
            TypeKind::TemplateAlias(spelling, inner) | TypeKind::Alias(spelling, inner) => {
                alias::alias_ok(ctx, item, spelling@, inner)
            },
            TypeKind::Enum(_) => enums::enum_ok(ctx, item),
            TypeKind::UnresolvedTypeRef => false,
            _ => true,
        },
    }
}

/// The functions that are methods rank below an item if each of them does.
proof fn lemma_ranked_methods(
    ctx: BindgenContext,
    rank: spec_fn(int) -> nat,
    i: int,
    methods: Seq<Method>,
    n: int,
)
    requires
        0 <= n <= methods.len(),
        all_methods_ok(ctx, methods),
    ensures
        ctx.ranked_below(rank, i, signatures(methods, n)) <==> ctx.methods_ok(
            rank,
            i,
            methods.take(n),
        ),
    decreases n,
{
    if n > 0 {
        lemma_ranked_methods(ctx, rank, i, methods, n - 1);
        let last = methods[n - 1];
        let before = signatures(methods, n - 1);
        let some = methods.take(n);
        let fewer = methods.take(n - 1);
        assert(method::method_ok(ctx, last));
        assert(some =~= fewer.push(last));
        assert(some[n - 1] == last);
        assert(ctx.methods_ok(rank, i, some) ==> ctx.methods_ok(rank, i, fewer)) by {
            if ctx.methods_ok(rank, i, some) {
                assert forall|k: int|
                    #![trigger fewer[k]]
                    0 <= k < fewer.len() implies method::method_ok(ctx, fewer[k]) && (
                !fewer[k].is_virtual ==> 0 < rank(fewer[k].signature.0 as int) < rank(i)) by {
                    assert(some[k] == fewer[k]);
                }
            }
        }
        if !last.is_virtual {
            valid_types::lemma_ranked_halves(ctx, rank, i, before, seq![last.signature]);
            assert(before + seq![last.signature] =~= before.push(last.signature));
            assert(seq![last.signature][0] == last.signature);
        }
        if ctx.methods_ok(rank, i, fewer) && (!last.is_virtual ==> 0 < rank(
            last.signature.0 as int,
        ) < rank(i)) {
            assert forall|k: int|
                #![trigger some[k]]
                0 <= k < some.len() implies method::method_ok(ctx, some[k]) && (
            !some[k].is_virtual ==> 0 < rank(some[k].signature.0 as int) < rank(i)) by {
                if k < n - 1 {
                    assert(fewer[k] == some[k]);
                }
            }
        }
    }
}

/// What is asked of an item is what is asked of it alone and of what is
/// generated with it.
pub proof fn lemma_decl_ok(
    ctx: BindgenContext,
    wl: Set<usize>,
    rank: spec_fn(int) -> nat,
    i: int,
)
    requires
        0 <= i < ctx.items@.len(),
    ensures
        ctx.decl_ok(wl, rank, i) <==> decl_local(ctx, i) && ctx.ranked_below(
            rank,
            i,
            decl_parts(ctx, wl, i),
        ),
{
    if let ItemKind::Type(ty) = ctx.items@[i].kind {
        if let TypeKind::Comp(info) = ty.kind {
            let methods = info.methods@;
            let called = signatures(methods, methods.len() as int);
            valid_types::lemma_ranked_halves(
                ctx,
                rank,
                i,
                info.inner_types@ + info.inner_vars@,
                called,
            );
            valid_types::lemma_ranked_halves(ctx, rank, i, info.inner_types@, info.inner_vars@);
            assert(ctx.methods_ok(rank, i, methods) ==> all_methods_ok(ctx, methods));
            if all_methods_ok(ctx, methods) {
                lemma_ranked_methods(ctx, rank, i, methods, methods.len() as int);
                assert(methods.take(methods.len() as int) =~= methods);
            }
        }
    }
}

/// Whether the nodes are those of what is generated with the items.
spec fn decl_nodes(
    ctx: BindgenContext,
    wl: Set<usize>,
    nodes: Seq<Option<Seq<usize>>>,
) -> bool {
    &&& nodes.len() == ctx.items@.len()
    &&& forall|i: int|
        0 <= i < nodes.len() ==> valid_types::is_node(
            #[trigger] nodes[i],
            decl_local(ctx, i),
            decl_parts(ctx, wl, i),
        )
}

/// A ranking of what is generated with the items is one of the items.
proof fn lemma_decls_ranked(
    ctx: BindgenContext,
    wl: Set<usize>,
    nodes: Seq<Option<Seq<usize>>>,
    rank: spec_fn(int) -> nat,
)
    requires
        decl_nodes(ctx, wl, nodes),
    ensures
        ctx.decls_ranked_by(wl, rank) <==> ranking::ranked(nodes, rank),
{
    assert forall|i: int| #[trigger] ctx.decl_ok(wl, rank, i) == ranking::parts_below(
        nodes,
        rank,
        i,
    ) by {
        if 0 <= i < nodes.len() {
            lemma_decl_ok(ctx, wl, rank, i);
            valid_types::lemma_node(
                ctx,
                nodes,
                rank,
                i,
                decl_local(ctx, i),
                decl_parts(ctx, wl, i),
            );
        }
    }
    if ranking::ranked(nodes, rank) {
        assert forall|i: int| rank(i) > 0 implies #[trigger] ctx.decl_ok(wl, rank, i) by {
            assert(ranking::parts_below(nodes, rank, i));
        }
    }
    if ctx.decls_ranked_by(wl, rank) {
        assert forall|i: int| rank(i) > 0 implies #[trigger] ranking::parts_below(
            nodes,
            rank,
            i,
        ) by {
            assert(ctx.decl_ok(wl, rank, i));
        }
    }
}

impl BindgenContext {
    fn check_function(&self, known: &Vec<usize>, function: &Function) -> (b: bool)
        requires
            valid_types::tells_types(*self, known@),
        ensures
            b == foreign::function_ok(*self, *function),
    {
        self.check_converts(known, function.signature) && self.resolve_type(
            function.signature,
        ).is_function()
    }

    fn check_var(&self, known: &Vec<usize>, var: &Var) -> (b: bool)
        requires
            valid_types::tells_types(*self, known@),
        ensures
            b == foreign::var_ok(*self, *var),
    {
        if !self.check_converts(known, var.ty) {
            return false;
        }
        match &var.val {
            Some(VarType::String(bytes)) => bytes.len() < usize::MAX,
            _ => true,
        }
    }

    fn check_method(&self, known: &Vec<usize>, method: &Method) -> (b: bool)
        requires
            valid_types::tells_types(*self, known@),
        ensures
            b == method::method_ok(*self, *method),
    {
        if method.is_virtual {
            return true;
        }
        if !self.check_item(method.signature) {
            return false;
        }
        match &self.resolve_item(method.signature).kind {
            ItemKind::Function(function) => {
                if !self.check_function(known, function) {
                    return false;
                }
                match &self.resolve_type(function.signature).kind {
                    TypeKind::Function(sig) => method.is_static || sig.argument_types.len() > 0,
                    _ => false,
                }
            },
            _ => false,
        }
    }

    /// Whether every method can be generated.
    fn check_methods(&self, known: &Vec<usize>, methods: &Vec<Method>) -> (b: bool)
        requires
            valid_types::tells_types(*self, known@),
        ensures
            b == all_methods_ok(*self, methods@),
    {
        let mut k: usize = 0;
        while k < methods.len()
            invariant
                0 <= k <= methods@.len(),
                valid_types::tells_types(*self, known@),
                forall|j: int| 0 <= j < k ==> method::method_ok(*self, #[trigger] methods@[j]),
            decreases methods@.len() - k,
        {
            if !self.check_method(known, &methods[k]) {
                assert(!method::method_ok(*self, methods@[k as int]));
                return false;
            }
            k += 1;
        }
        true
    }

    /// Adds the positions of the functions that are methods, without those
    /// that are virtual.
    fn push_signatures(&self, parts: &mut Vec<usize>, methods: &Vec<Method>)
        ensures
            final(parts)@ == old(parts)@ + valid_types::positions(
                signatures(methods@, methods@.len() as int),
            ),
    {
        let mut k: usize = 0;
        assert(parts@ =~= old(parts)@ + valid_types::positions(signatures(methods@, 0)));
        while k < methods.len()
            invariant
                0 <= k <= methods@.len(),
                parts@ == old(parts)@ + valid_types::positions(signatures(methods@, k as int)),
            decreases methods@.len() - k,
        {
            if !methods[k].is_virtual {
                parts.push(methods[k].signature.0);
            }
            k += 1;
            assert(parts@ =~= old(parts)@ + valid_types::positions(
                signatures(methods@, k as int),
            ));
        }
    }

    /// Adds the positions of those of the items that were asked for.
    fn push_asked_for(&self, parts: &mut Vec<usize>, ids: &Vec<ItemId>, wl: &HashSet<usize>)
        ensures
            final(parts)@ == old(parts)@ + valid_types::positions(codegen::asked_for(wl@, ids@)),
    {
        let ghost pred = |id: ItemId| wl@.contains(id.0);
        let mut k: usize = 0;
        proof {
            reveal(Seq::filter);
            assert(parts@ =~= old(parts)@ + valid_types::positions(ids@.take(0).filter(pred)));
        }
        while k < ids.len()
            invariant
                0 <= k <= ids@.len(),
                pred == (|id: ItemId| wl@.contains(id.0)),
                parts@ == old(parts)@ + valid_types::positions(ids@.take(k as int).filter(pred)),
            decreases ids@.len() - k,
        {
            proof {
                reveal(Seq::filter);
                assert(ids@.take(k + 1).drop_last() =~= ids@.take(k as int));
                assert(ids@.take(k + 1).last() == ids@[k as int]);
            }
            if wl.contains(&ids[k].0) {
                parts.push(ids[k].0);
            }
            k += 1;
            assert(parts@ =~= old(parts)@ + valid_types::positions(
                ids@.take(k as int).filter(pred),
            ));
        }
        assert(ids@.take(ids@.len() as int) =~= ids@);
    }

    /// Whether the template parameters among the template arguments of an
    /// item have names, as far as these are read.
    fn check_params(&self, item: &Item) -> (b: bool)
        ensures
            b == alias::params_ok(*self, *item),
    {
        let args = &item.applicable_template_args;
        let mut k: usize = 0;
        while k < args.len()
            invariant
                0 <= k <= args@.len(),
                *args == item.applicable_template_args,
                forall|j: int|
                    0 <= j < k ==> alias::param_ok(*self, #[trigger] args@[j])
                        && !alias::is_typename(*self, args@[j]),
            decreases args@.len() - k,
        {
            let ghost all = args@;
            assert(!alias::typename_before(*self, all, k as int));
            if !self.check_type(args[k]) {
                assert(!alias::param_ok(*self, all[k as int]));
                return false;
            }
            let arg = self.resolve_type(args[k]);
            if arg.is_named() {
                match &arg.name {
                    Some(name) => {
                        if contains(name.as_str(), "typename ") {
                            proof {
                                assert(alias::is_typename(*self, all[k as int]));
                                assert forall|j: int| k < j < all.len() implies
                                    alias::typename_before(*self, all, j) by {
                                    assert(alias::is_typename(*self, all[k as int]));
                                }
                                assert forall|j: int| 0 <= j < all.len() implies alias::param_ok(
                                    *self,
                                    #[trigger] all[j],
                                ) || alias::typename_before(*self, all, j) by {
                                    if j > k {
                                        assert(alias::typename_before(*self, all, j));
                                    }
                                }
                            }
                            return true;
                        }
                    },
                    None => {
                        assert(!alias::param_ok(*self, all[k as int]));
                        return false;
                    },
                }
            }
            k += 1;
        }
        true
    }

    fn check_alias(
        &self,
        known: &Vec<usize>,
        item: &Item,
        spelling: &String,
        inner: ItemId,
    ) -> (b: bool)
        requires
            valid_types::tells_types(*self, known@),
        ensures
            b == alias::alias_ok(*self, *item, spelling@, inner),
    {
        self.check_item(inner) && (same(
            self.resolve_item(inner).canonical_name.as_str(),
            item.canonical_name.as_str(),
        ) || type_from_named(self, spelling.as_str(), inner).is_some() || item.is_opaque || (
        self.check_converts(known, inner) && self.check_params(item)))
    }

    fn check_enum(&self, item: &Item, info: &Enum) -> (b: bool)
        requires
            item.kind is Type,
            item.kind->Type_0.kind == TypeKind::Enum(*info),
        ensures
            b == enums::enum_ok(*self, *item),
    {
        if let Some(repr) = info.repr {
            if !self.check_type(repr) {
                return false;
            }
            let canonical = self.resolve_type(repr).canonical_type;
            if !self.check_type(canonical) {
                return false;
            }
            match &self.resolve_type(canonical).kind {
                TypeKind::Int(_) => {},
                _ => {
                    return false;
                },
            }
        }
        item.is_toplevel || self.check_item(item.parent_id)
    }

    fn check_bitfield(&self, known: &Vec<usize>, field: &Field) -> (b: bool)
        requires
            valid_types::tells_types(*self, known@),
            self.is_type(field.ty),
            field.bitfield is Some,
        ensures
            b == bitfield::bitfield_ok(*self, *field),
    {
        if field.bitfield.unwrap() >= usize::BITS || !self.check_converts(known, field.ty) {
            return false;
        }
        match self.resolve_type(field.ty).layout {
            Some(layout) => layout.size <= usize::MAX / 8,
            None => false,
        }
    }

    /// Where the run of bitfields that starts at `s` ends.
    fn end_of_run(&self, fields: &Vec<Field>, s: usize) -> (e: usize)
        requires
            s < fields@.len(),
            fields@[s as int].bitfield is Some,
            forall|k: int|
                0 <= k < fields@.len() && (#[trigger] fields@[k]).bitfield is Some
                    ==> bitfield::bitfield_ok(*self, fields@[k]),
        ensures
            e == comp::run_end(*self, fields@, s as int, s + 1),
            s < e <= fields@.len(),
    {
        let n = fields.len();
        let mut e: usize = s + 1;
        while e < n
            invariant
                n == fields@.len(),
                s < e <= fields@.len(),
                fields@[s as int].bitfield is Some,
                forall|k: int|
                    0 <= k < fields@.len() && (#[trigger] fields@[k]).bitfield is Some
                        ==> bitfield::bitfield_ok(*self, fields@[k]),
                comp::run_end(*self, fields@, s as int, s + 1) == comp::run_end(
                    *self,
                    fields@,
                    s as int,
                    e as int,
                ),
            decreases fields@.len() - e,
        {
            let first = &fields[s];
            assert(bitfield::bitfield_ok(*self, fields@[s as int]));
            match fields[e].bitfield {
                Some(next_width) => {
                    assert(bitfield::bitfield_ok(*self, fields@[e as int]));
                    let first_width = first.bitfield.unwrap();
                    let layout = self.resolve_type(first.ty).layout.unwrap();
                    if first_width + next_width > (layout.size * 8) as u32 {
                        return e;
                    }
                },
                None => {
                    return e;
                },
            }
            e += 1;
        }
        e
    }

    /// Whether the bitfields from `s` to `e` can share a storage unit.
    fn check_run(&self, fields: &Vec<Field>, s: usize, e: usize) -> (b: bool)
        requires
            s < e <= fields@.len(),
            forall|k: int|
                s <= k < e ==> bitfield::bitfield_ok(*self, #[trigger] fields@[k]),
        ensures
            b == bitfield::run_ok(*self, fields@.subrange(s as int, e as int)),
    {
        let ghost run = fields@.subrange(s as int, e as int);
        let mut offset: u32 = 0;
        let mut k: usize = s;
        while k < e
            invariant
                s <= k <= e <= fields@.len(),
                run == fields@.subrange(s as int, e as int),
                forall|j: int|
                    s <= j < e ==> bitfield::bitfield_ok(*self, #[trigger] fields@[j]),
                offset == bitfield::bits_before(run, k - s),
                offset <= 128,
                forall|j: int|
                    0 <= j < k - s ==> #[trigger] bitfield::bits_before(run, j) < usize::BITS,
            decreases e - k,
        {
            assert(bitfield::bitfield_ok(*self, fields@[k as int]));
            assert(run[k - s] == fields@[k as int]);
            if offset >= usize::BITS {
                assert(bitfield::bits_before(run, k - s) >= usize::BITS);
                return false;
            }
            offset = offset + fields[k].bitfield.unwrap();
            k += 1;
        }
        assert forall|j: int| 0 <= j < run.len() implies bitfield::bitfield_ok(
            *self,
            #[trigger] run[j],
        ) by {
            assert(run[j] == fields@[s + j]);
        }
        true
    }

    /// Whether the bitfields among the fields can share storage units.
    fn check_members(&self, fields: &Vec<Field>) -> (b: bool)
        requires
            forall|k: int|
                0 <= k < fields@.len() && (#[trigger] fields@[k]).bitfield is Some
                    ==> bitfield::bitfield_ok(*self, fields@[k]),
        ensures
            b == comp::members_ok(*self, fields@, 0),
    {
        let mut s: usize = 0;
        while s < fields.len()
            invariant
                0 <= s <= fields@.len(),
                forall|k: int|
                    0 <= k < fields@.len() && (#[trigger] fields@[k]).bitfield is Some
                        ==> bitfield::bitfield_ok(*self, fields@[k]),
                comp::members_ok(*self, fields@, 0) == comp::members_ok(*self, fields@, s as int),
            decreases fields@.len() - s,
        {
            if fields[s].bitfield.is_some() {
                let e = self.end_of_run(fields, s);
                proof {
                    comp::lemma_run_bitfields(*self, fields@, s as int, s + 1);
                }
                if !self.check_run(fields, s, e) {
                    return false;
                }
                s = e;
            } else {
                s += 1;
            }
        }
        true
    }

    fn check_fields(&self, known: &Vec<usize>, fields: &Vec<Field>) -> (b: bool)
        requires
            valid_types::tells_types(*self, known@),
        ensures
            b == comp::fields_ok(*self, fields@),
    {
        let mut k: usize = 0;
        while k < fields.len()
            invariant
                0 <= k <= fields@.len(),
                valid_types::tells_types(*self, known@),
                forall|j: int|
                    0 <= j < k ==> self.is_type((#[trigger] fields@[j]).ty) && self.converts(
                        fields@[j].ty,
                    ),
                forall|j: int|
                    0 <= j < k && (#[trigger] fields@[j]).bitfield is Some ==> bitfield::bitfield_ok(
                        *self,
                        fields@[j],
                    ),
            decreases fields@.len() - k,
        {
            if !self.check_converts(known, fields[k].ty) {
                assert(!self.converts(fields@[k as int].ty));
                return false;
            }
            if fields[k].bitfield.is_some() && !self.check_bitfield(known, &fields[k]) {
                assert(fields@[k as int].bitfield is Some);
                return false;
            }
            k += 1;
        }
        self.check_members(fields)
    }

    fn check_bases(&self, known: &Vec<usize>, bases: &Vec<ItemId>) -> (b: bool)
        requires
            valid_types::tells_types(*self, known@),
        ensures
            b == comp::bases_ok(*self, bases@),
    {
        let mut k: usize = 0;
        while k < bases.len()
            invariant
                0 <= k <= bases@.len(),
                valid_types::tells_types(*self, known@),
                forall|j: int|
                    0 <= j < k ==> self.is_type(#[trigger] bases@[j]) && (self.ty(
                        bases@[j],
                    ).is_unsized || self.converts(bases@[j])),
            decreases bases@.len() - k,
        {
            if !self.check_type(bases[k]) || (!self.resolve_type(bases[k]).is_unsized
                && !self.check_converts(known, bases[k])) {
                assert(!(self.is_type(bases@[k as int]) && (self.ty(bases@[k as int]).is_unsized
                    || self.converts(bases@[k as int]))));
                return false;
            }
            k += 1;
        }
        true
    }

    fn check_comp(&self, known: &Vec<usize>, item: &Item, ty: &Type, info: &CompInfo) -> (b: bool)
        requires
            valid_types::tells_types(*self, known@),
            item.kind == ItemKind::Type(*ty),
            ty.kind == TypeKind::Comp(*info),
        ensures
            b == comp::comp_ok(*self, *item),
    {
        if !self.check_bases(known, &info.base_members) || !self.check_fields(known, &info.fields)
            || !self.check_template_args(item) {
            return false;
        }
        let args = &item.applicable_template_args;
        let mut k: usize = 0;
        while k < args.len()
            invariant
                0 <= k <= args@.len(),
                *args == item.applicable_template_args,
                self.template_args_ok(*item),
                forall|j: int|
                    0 <= j < k ==> self.ty(
                        #[trigger] item.applicable_template_args@[j],
                    ).name is Some,
            decreases args@.len() - k,
        {
            assert(self.is_type(item.applicable_template_args@[k as int]));
            if self.resolve_type(args[k]).name.is_none() {
                return false;
            }
            k += 1;
        }
        !(info.kind == CompKind::Union && !self.options.unstable_rust) || ty.layout.is_some()
    }

    /// Whether a list holds items only.
    fn check_item_list(&self, ids: &Vec<ItemId>) -> (b: bool)
        ensures
            b == (forall|k: int| 0 <= k < ids@.len() ==> self.has(#[trigger] ids@[k])),
    {
        let mut k: usize = 0;
        while k < ids.len()
            invariant
                0 <= k <= ids@.len(),
                forall|j: int| 0 <= j < k ==> self.has(#[trigger] ids@[j]),
            decreases ids@.len() - k,
        {
            if !self.check_item(ids[k]) {
                assert(!self.has(ids@[k as int]));
                return false;
            }
            k += 1;
        }
        true
    }

    /// Whether nothing is generated for an item.
    fn leaves_out(&self, item: &Item) -> (b: bool)
        ensures
            b == is_left_out(*self, *item),
    {
        item.is_hidden || !match &item.kind {
            ItemKind::Module(_) => true,
            ItemKind::Function(_) => self.options.codegen_config.functions,
            ItemKind::Var(_) => self.options.codegen_config.vars,
            ItemKind::Type(_) => self.options.codegen_config.types,
        }
    }

    /// The positions of what is generated with an item.
    pub(crate) fn positions_inside(
        &self,
        item: &Item,
        wl: &HashSet<usize>,
        Ghost(i): Ghost<int>,
    ) -> (parts: Vec<usize>)
        requires
            0 <= i < self.items@.len(),
            self.items@[i] == *item,
        ensures
            parts@ == valid_types::positions(decl_parts(*self, wl@, i)),
    {
        let ghost all = decl_parts(*self, wl@, i);
        let mut parts: Vec<usize> = Vec::new();
        if !self.leaves_out(item) {
            match &item.kind {
                ItemKind::Module(module) => {
                    self.push_asked_for(&mut parts, &module.children, wl);
                },
                ItemKind::Type(ty) => {
                    if let TypeKind::Comp(info) = &ty.kind {
                        if !info.has_non_type_template_params && !info.is_template_specialization {
                            push_ids(&mut parts, &info.inner_types);
                            if item.applicable_template_args.len() == 0
                                && !info.found_unknown_attr {
                                push_ids(&mut parts, &info.inner_vars);
                                if self.options.codegen_config.methods {
                                    self.push_signatures(&mut parts, &info.methods);
                                }
                            }
                        }
                    }
                },
                _ => {},
            }
        }
        assert(parts@ =~= valid_types::positions(all));
        parts
    }

    /// Whether nothing stands against a compound type apart from what is
    /// generated with it.
    fn check_comp_alone(
        &self,
        known: &Vec<usize>,
        item: &Item,
        ty: &Type,
        info: &CompInfo,
    ) -> (b: bool)
        requires
            valid_types::tells_types(*self, known@),
            item.kind == ItemKind::Type(*ty),
            ty.kind == TypeKind::Comp(*info),
        ensures
            b == comp_local(*self, *item),
    {
        if info.has_non_type_template_params {
            true
        } else if info.is_template_specialization {
            ty.layout.is_none() || self.check_converts(known, item.id)
        } else {
            self.check_comp(known, item, ty, info) && (item.applicable_template_args.len() > 0
                || info.found_unknown_attr || !self.options.codegen_config.methods
                || self.check_methods(known, &info.methods))
        }
    }

    /// Whether nothing stands against an item apart from what is generated
    /// with it.
    fn check_decl(&self, known: &Vec<usize>, item: &Item, Ghost(i): Ghost<int>) -> (b: bool)
        requires
            valid_types::tells_types(*self, known@),
            0 <= i < self.items@.len(),
            self.items@[i] == *item,
        ensures
            b == decl_local(*self, i),
    {
        self.leaves_out(item) || match &item.kind {
            ItemKind::Module(_) => !self.options.enable_cxx_namespaces || (self.check_item(
                self.root_module,
            ) && self.check_item_list(&item.ancestors)),
            ItemKind::Function(function) => self.check_function(known, function),
            ItemKind::Var(var) => self.check_var(known, var),
            ItemKind::Type(ty) => match &ty.kind {
                TypeKind::Comp(info) => self.check_comp_alone(known, item, ty, info),
                TypeKind::TemplateAlias(spelling, inner) | TypeKind::Alias(spelling, inner) => {
                    self.check_alias(known, item, spelling, *inner)
                },
                TypeKind::Enum(info) => self.check_enum(item, info),
                TypeKind::UnresolvedTypeRef => false,
                _ => true,
            },
        }
    }

    /// Whether the root can be generated, with what is generated with it.
    fn check_root(&self) -> (b: bool)
        ensures
            b == self.can_generate(self.whitelist(), self.root_module),
    {
        let known = self.rank_types();
        let set = self.whitelisted_set();
        let ghost wl = self.whitelist();
        let mut nodes: Vec<Option<Vec<usize>>> = Vec::new();
        let n = self.items.len();
        let mut i: usize = 0;
        while i < n
            invariant
                0 <= i <= n,
                n == self.items@.len(),
                set@ == wl,
                valid_types::tells_types(*self, known@),
                nodes@.len() == i,
                forall|j: int|
                    0 <= j < i ==> valid_types::is_node(
                        #[trigger] ranking::nodes_of(nodes@)[j],
                        decl_local(*self, j),
                        decl_parts(*self, wl, j),
                    ),
            decreases n - i,
        {
            let ghost before = ranking::nodes_of(nodes@);
            let item = &self.items[i];
            if self.check_decl(&known, item, Ghost(i as int)) {
                nodes.push(Some(self.positions_inside(item, &set, Ghost(i as int))));
            } else {
                nodes.push(None);
            }
            i += 1;
            assert forall|j: int| 0 <= j < i implies valid_types::is_node(
                #[trigger] ranking::nodes_of(nodes@)[j],
                decl_local(*self, j),
                decl_parts(*self, wl, j),
            ) by {
                if j < i - 1 {
                    assert(ranking::nodes_of(nodes@)[j] == before[j]);
                }
            }
        }
        let stamps = rank_parts(&nodes);
        let b = self.root_module.0 < n && stamps[self.root_module.0] != 0;
        proof {
            let all = ranking::nodes_of(nodes@);
            let ranks = ranking::ranks_of(stamps@);
            let root = self.root_module;
            assert(decl_nodes(*self, wl, all));
            if b {
                lemma_decls_ranked(*self, wl, all, ranks);
                assert(self.decls_ranked_by(wl, ranks) && ranks(root.0 as int) > 0);
            }
            if self.can_generate(wl, root) {
                let rank = choose|rank: spec_fn(int) -> nat| #[trigger]
                    self.decls_ranked_by(wl, rank) && rank(root.0 as int) > 0;
                lemma_decls_ranked(*self, wl, all, rank);
                assert(ranking::all_stamped(rank, stamps@));
            }
        }
        b
    }

    /// Whether every item is held under its own id.
    fn check_ids(&self) -> (b: bool)
        ensures
            b == self.ids_wf(),
    {
        let mut i: usize = 0;
        while i < self.items.len()
            invariant
                0 <= i <= self.items@.len(),
                forall|j: int| 0 <= j < i ==> (#[trigger] self.items@[j]).id.0 == j,
            decreases self.items@.len() - i,
        {
            if self.items[i].id.0 != i {
                return false;
            }
            i += 1;
        }
        true
    }

    /// Whether bindings can be generated: every item is held under its own
    /// id, the items can be counted, and the root and what is generated with
    /// it can be generated and does not contain itself.
    pub fn is_well_formed(&self) -> (b: bool)
        ensures
            b == self.wf(),
    {
        self.items.len() <= u32::MAX as usize && self.check_ids() && self.check_root()
    }
}

} // verus!
