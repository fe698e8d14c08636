//! Which types of a context have a Rust type.
use vstd::prelude::*;

use crate::helpers::blob_count;
use crate::ir::{
    BindgenContext, FloatKind, FunctionSig, IntKind, Item, ItemId, ItemKind, TypeKind,
};
use crate::ranking;
use crate::ranking::rank_parts;
use crate::types;
use crate::types::type_from_named;

verus! {

/// The positions of a list of items.
pub open spec fn positions(ids: Seq<ItemId>) -> Seq<usize> {
    Seq::new(ids.len(), |k: int| ids[k].0)
}

/// Whether a list of positions, if there is one, is that of `parts`, and there
/// is one if and only if `ok`.
pub open spec fn is_node(node: Option<Seq<usize>>, ok: bool, parts: Seq<ItemId>) -> bool {
    (node is Some <==> ok) && (node matches Some(list) ==> list == positions(parts))
}

/// What a ranking asks of a node.
pub proof fn lemma_node(
    ctx: BindgenContext,
    nodes: Seq<Option<Seq<usize>>>,
    rank: spec_fn(int) -> nat,
    i: int,
    ok: bool,
    parts: Seq<ItemId>,
)
    requires
        0 <= i < nodes.len(),
        is_node(nodes[i], ok, parts),
    ensures
        ranking::parts_below(nodes, rank, i) <==> ok && ctx.ranked_below(rank, i, parts),
{
    if ranking::parts_below(nodes, rank, i) {
        assert forall|k: int| 0 <= k < parts.len() implies 0 < rank((#[trigger] parts[k]).0 as int)
            < rank(i) by {
            assert(nodes[i]->0[k] == parts[k].0);
        }
    }
    if ok && ctx.ranked_below(rank, i, parts) {
        assert forall|k: int|
            #![trigger nodes[i]->0[k]]
            0 <= k < nodes[i]->0.len() implies 0 < rank(nodes[i]->0[k] as int) < rank(i) by {
            assert(nodes[i]->0[k] == parts[k].0);
        }
    }
}

/// Whether it can be told what the type at `i` leads to.
spec fn spine_local(ctx: BindgenContext, i: int) -> bool {
    let item = ctx.items@[i];
    item.kind is Type && match item.kind->Type_0.kind {
        TypeKind::Pointer(inner) | TypeKind::Reference(inner) => {
            ctx.is_type(inner) && ctx.is_type(ctx.ty(inner).canonical_type)
        },
        _ => true,
    }
}

/// The type that the type at `i` leads to, if there is one.
spec fn spine_parts(ctx: BindgenContext, i: int) -> Seq<ItemId> {
    match ctx.items@[i].kind->Type_0.kind {
        TypeKind::ResolvedTypeRef(inner) | TypeKind::TemplateRef(inner, _) => seq![inner],
        TypeKind::Pointer(inner) | TypeKind::Reference(inner) => {
            if ctx.ty(ctx.ty(inner).canonical_type).kind is Function {
                seq![inner]
            } else {
                seq![]
            }
        },
        _ => seq![],
    }
}

/// Whether the nodes are those of what the types lead to.
spec fn spine_nodes(ctx: BindgenContext, nodes: Seq<Option<Seq<usize>>>) -> bool {
    &&& nodes.len() == ctx.items@.len()
    &&& forall|i: int|
        0 <= i < nodes.len() ==> is_node(
            #[trigger] nodes[i],
            spine_local(ctx, i),
            spine_parts(ctx, i),
        )
}

/// Whether everything that is ranked is a type.
spec fn ranks_types(ctx: BindgenContext, rank: spec_fn(int) -> nat) -> bool {
    forall|i: int| #[trigger]
        rank(i) > 0 ==> 0 <= i < ctx.items@.len() && ctx.items@[i].kind is Type
}

/// A ranking of what types lead to ranks types, and leads down.
proof fn lemma_spine_down(
    ctx: BindgenContext,
    nodes: Seq<Option<Seq<usize>>>,
    rank: spec_fn(int) -> nat,
)
    requires
        spine_nodes(ctx, nodes),
        ranking::ranked(nodes, rank),
    ensures
        ranks_types(ctx, rank),
        types::leads_down(ctx, rank),
{
    assert forall|i: int| #[trigger] rank(i) > 0 implies 0 <= i < ctx.items@.len()
        && ctx.items@[i].kind is Type by {
        assert(ranking::parts_below(nodes, rank, i));
    }
    assert forall|i: int, id: ItemId|
        rank(i) > 0 && #[trigger] types::leads_to(ctx, i, id) implies 0 < rank(id.0 as int) < rank(
        i,
    ) by {
        assert(ranking::parts_below(nodes, rank, i));
        lemma_node(ctx, nodes, rank, i, spine_local(ctx, i), spine_parts(ctx, i));
        assert(spine_parts(ctx, i)[0] == id);
    }
}

/// What is asked of the type at `i` apart from the types that its Rust type
/// takes. `spine` ranks what can be told to be a path or none.
spec fn type_local(ctx: BindgenContext, spine: spec_fn(int) -> nat, i: int) -> bool {
    let item = ctx.items@[i];
    spine_local(ctx, i) && match item.kind->Type_0.kind {
        TypeKind::UnresolvedTypeRef => false,
        TypeKind::TemplateRef(inner, _) => spine(inner.0 as int) > 0,
        TypeKind::Function(sig) => forall|k: int|
            0 <= k < sig.argument_types@.len() ==> (
            (#[trigger] sig.argument_types@[k]).0 matches Some(name) ==> ctx.mangle(name@).len()
                > 0),
        TypeKind::TemplateAlias(spelling, _) | TypeKind::Alias(spelling, _) => {
            item.is_opaque || types::known_type(spelling@) is Some || (
            item.namespace_aware_canonical_path@.len() > 0 && ctx.template_args_ok(item))
        },
        TypeKind::Comp(info) => item.is_opaque || info.has_non_type_template_params
            || item.namespace_aware_canonical_path@.len() > 0,
        _ => true,
    }
}

/// The types that the Rust type of the type at `i` takes.
spec fn type_parts(ctx: BindgenContext, spine: spec_fn(int) -> nat, i: int) -> Seq<ItemId> {
    let item = ctx.items@[i];
    match item.kind->Type_0.kind {
        TypeKind::Array(inner, _)
        | TypeKind::Pointer(inner)
        | TypeKind::Reference(inner)
        | TypeKind::ResolvedTypeRef(inner) => seq![inner],
        TypeKind::TemplateRef(inner, args) => if types::yields_path(ctx, spine, inner) {
            seq![inner] + args@
        } else {
            seq![inner]
        },
        TypeKind::Function(sig) => seq![sig.return_type] + types::arg_types(sig),
        TypeKind::TemplateAlias(spelling, _) | TypeKind::Alias(spelling, _) => {
            if item.is_opaque || types::known_type(spelling@) is Some {
                seq![]
            } else {
                types::named_args(ctx, item.applicable_template_args@)
            }
        },
        TypeKind::Comp(info) => if item.is_opaque || info.has_non_type_template_params {
            seq![]
        } else {
            item.applicable_template_args@
        },
        _ => seq![],
    }
}

/// Whether the nodes are those of the types that the Rust types take.
spec fn type_nodes(
    ctx: BindgenContext,
    spine: spec_fn(int) -> nat,
    nodes: Seq<Option<Seq<usize>>>,
) -> bool {
    &&& nodes.len() == ctx.items@.len()
    &&& forall|i: int|
        0 <= i < nodes.len() ==> is_node(
            #[trigger] nodes[i],
            type_local(ctx, spine, i),
            type_parts(ctx, spine, i),
        )
}

/// Among types, to be ranked below is to be below.
proof fn lemma_all_below(
    ctx: BindgenContext,
    rank: spec_fn(int) -> nat,
    i: int,
    ids: Seq<ItemId>,
)
    requires
        ranks_types(ctx, rank),
    ensures
        ctx.all_below(rank, i, ids) <==> ctx.ranked_below(rank, i, ids),
{
    if ctx.all_below(rank, i, ids) {
        assert forall|k: int| 0 <= k < ids.len() implies 0 < rank((#[trigger] ids[k]).0 as int)
            < rank(i) by {
            assert(ctx.below(rank, i, ids[k]));
        }
    }
    if ctx.ranked_below(rank, i, ids) {
        assert forall|k: int| 0 <= k < ids.len() implies ctx.below(rank, i, #[trigger] ids[k]) by {
            assert(0 < rank(ids[k].0 as int) < rank(i));
        }
    }
}

/// A list is ranked below an item if both halves of it are.
pub proof fn lemma_ranked_halves(
    ctx: BindgenContext,
    rank: spec_fn(int) -> nat,
    i: int,
    a: Seq<ItemId>,
    b: Seq<ItemId>,
)
    ensures
        ctx.ranked_below(rank, i, a + b) <==> ctx.ranked_below(rank, i, a) && ctx.ranked_below(
            rank,
            i,
            b,
        ),
{
    let all = a + b;
    if ctx.ranked_below(rank, i, all) {
        assert forall|k: int| 0 <= k < a.len() implies 0 < rank((#[trigger] a[k]).0 as int) < rank(
            i,
        ) by {
            assert(all[k] == a[k]);
        }
        assert forall|k: int| 0 <= k < b.len() implies 0 < rank((#[trigger] b[k]).0 as int) < rank(
            i,
        ) by {
            assert(all[a.len() + k] == b[k]);
        }
    }
    if ctx.ranked_below(rank, i, a) && ctx.ranked_below(rank, i, b) {
        assert forall|k: int| 0 <= k < all.len() implies 0 < rank((#[trigger] all[k]).0 as int)
            < rank(i) by {
            if k < a.len() {
                assert(all[k] == a[k]);
            } else {
                assert(all[k] == b[k - a.len()]);
            }
        }
    }
}

/// What is asked of a type is what is asked of it alone and of the types that
/// its Rust type takes.
proof fn lemma_type_node(
    ctx: BindgenContext,
    spine: spec_fn(int) -> nat,
    rank: spec_fn(int) -> nat,
    i: int,
)
    requires
        ranks_types(ctx, rank),
        types::leads_down(ctx, rank),
        types::leads_down(ctx, spine),
        forall|j: int| #[trigger] rank(j) > 0 ==> spine(j) > 0,
        0 <= i < ctx.items@.len(),
    ensures
        ctx.type_ok(rank, i) <==> type_local(ctx, spine, i) && ctx.ranked_below(
            rank,
            i,
            type_parts(ctx, spine, i),
        ),
{
    let item = ctx.items@[i];
    let parts = type_parts(ctx, spine, i);
    lemma_all_below(ctx, rank, i, parts);
    if item.kind is Type {
        match item.kind->Type_0.kind {
            TypeKind::Array(inner, _)
            | TypeKind::Pointer(inner)
            | TypeKind::Reference(inner)
            | TypeKind::ResolvedTypeRef(inner) => {
                assert(parts[0] == inner);
            },
            TypeKind::TemplateRef(inner, args) => {
                lemma_ranked_halves(ctx, rank, i, seq![inner], args@);
                lemma_all_below(ctx, rank, i, args@);
                assert(seq![inner][0] == inner);
                if rank(inner.0 as int) > 0 {
                    assert forall|j: int, next: ItemId|
                        rank(j) > 0 && #[trigger] types::leads_to(ctx, j, next) implies spine(
                        next.0 as int,
                    ) < spine(j) by {
                        assert(spine(j) > 0);
                    }
                    types::lemma_yields_path(ctx, rank, spine, inner);
                }
            },
            TypeKind::Function(sig) => {
                lemma_ranked_halves(
                    ctx,
                    rank,
                    i,
                    seq![sig.return_type],
                    types::arg_types(sig),
                );
                lemma_all_below(ctx, rank, i, types::arg_types(sig));
                assert(seq![sig.return_type][0] == sig.return_type);
            },
            _ => {},
        }
    }
}

/// A ranking of types is one of what they lead to.
proof fn lemma_types_spine(
    ctx: BindgenContext,
    spine: Seq<Option<Seq<usize>>>,
    rank: spec_fn(int) -> nat,
)
    requires
        spine_nodes(ctx, spine),
        ctx.types_ranked_by(rank),
    ensures
        ranking::ranked(spine, rank),
{
    assert forall|i: int| rank(i) > 0 implies #[trigger] ranking::parts_below(spine, rank, i) by {
        assert(ctx.type_ok(rank, i));
        lemma_node(ctx, spine, rank, i, spine_local(ctx, i), spine_parts(ctx, i));
    }
}

/// So is a ranking of the types that Rust types take.
proof fn lemma_nodes_spine(
    ctx: BindgenContext,
    spine: Seq<Option<Seq<usize>>>,
    ranks: spec_fn(int) -> nat,
    nodes: Seq<Option<Seq<usize>>>,
    rank: spec_fn(int) -> nat,
)
    requires
        spine_nodes(ctx, spine),
        type_nodes(ctx, ranks, nodes),
        ranking::ranked(nodes, rank),
    ensures
        ranking::ranked(spine, rank),
{
    assert forall|i: int| rank(i) > 0 implies #[trigger] ranking::parts_below(spine, rank, i) by {
        assert(ranking::parts_below(nodes, rank, i));
        lemma_node(ctx, nodes, rank, i, type_local(ctx, ranks, i), type_parts(ctx, ranks, i));
        lemma_node(ctx, spine, rank, i, spine_local(ctx, i), spine_parts(ctx, i));
        let parts = type_parts(ctx, ranks, i);
        if spine_parts(ctx, i).len() > 0 {
            assert(parts[0] == spine_parts(ctx, i)[0]);
        }
    }
}

/// A ranking of the types that Rust types take is one of the types.
proof fn lemma_types_ranked(
    ctx: BindgenContext,
    spine: Seq<Option<Seq<usize>>>,
    stamps: Seq<usize>,
    nodes: Seq<Option<Seq<usize>>>,
    rank: spec_fn(int) -> nat,
)
    requires
        spine_nodes(ctx, spine),
        ranking::ranked(spine, ranking::ranks_of(stamps)),
        ranking::ranked(spine, rank) ==> ranking::all_stamped(rank, stamps),
        type_nodes(ctx, ranking::ranks_of(stamps), nodes),
    ensures
        ctx.types_ranked_by(rank) <==> ranking::ranked(nodes, rank),
{
    let ranks = ranking::ranks_of(stamps);
    lemma_spine_down(ctx, spine, ranks);
    if ctx.types_ranked_by(rank) {
        lemma_types_spine(ctx, spine, rank);
    }
    if ranking::ranked(nodes, rank) {
        lemma_nodes_spine(ctx, spine, ranks, nodes, rank);
    }
    if ranking::ranked(spine, rank) {
        lemma_spine_down(ctx, spine, rank);
        assert(forall|j: int| #[trigger] rank(j) > 0 ==> ranks(j) > 0);
        assert forall|i: int| rank(i) > 0 implies #[trigger] ctx.type_ok(rank, i)
            == ranking::parts_below(nodes, rank, i) by {
            assert(0 <= i < ctx.items@.len());
            lemma_type_node(ctx, ranks, rank, i);
            lemma_node(ctx, nodes, rank, i, type_local(ctx, ranks, i), type_parts(ctx, ranks, i));
        }
        if ranking::ranked(nodes, rank) {
            assert forall|i: int| rank(i) > 0 implies #[trigger] ctx.type_ok(rank, i) by {
                assert(ranking::parts_below(nodes, rank, i));
            }
        }
        if ctx.types_ranked_by(rank) {
            assert forall|i: int| rank(i) > 0 implies #[trigger] ranking::parts_below(
                nodes,
                rank,
                i,
            ) by {
                assert(ctx.type_ok(rank, i));
            }
        }
    }
}

/// Whether the stamps that are not zero are those of the types that have a
/// Rust type.
pub open spec fn tells_types(ctx: BindgenContext, stamps: Seq<usize>) -> bool {
    &&& stamps.len() == ctx.items@.len()
    &&& forall|id: ItemId| #[trigger]
        ctx.converts(id) <==> id.0 < stamps.len() && stamps[id.0 as int] != 0
}

/// Stamps that rank whatever can be ranked tell types from others.
proof fn lemma_tells_types(
    ctx: BindgenContext,
    nodes: Seq<Option<Seq<usize>>>,
    stamps: Seq<usize>,
)
    requires
        stamps.len() == ctx.items@.len(),
        ranking::ranked(nodes, ranking::ranks_of(stamps)),
        forall|rank: spec_fn(int) -> nat| #[trigger]
            ranking::ranked(nodes, rank) ==> ranking::all_stamped(rank, stamps),
        forall|rank: spec_fn(int) -> nat| #[trigger]
            ctx.types_ranked_by(rank) <==> ranking::ranked(nodes, rank),
    ensures
        tells_types(ctx, stamps),
{
    let ranks = ranking::ranks_of(stamps);
    assert forall|id: ItemId| #[trigger] ctx.converts(id) <==> id.0 < stamps.len()
        && stamps[id.0 as int] != 0 by {
        if ctx.converts(id) {
            let rank = choose|rank: spec_fn(int) -> nat| #[trigger]
                ctx.types_ranked_by(rank) && rank(id.0 as int) > 0;
            assert(ranking::ranked(nodes, rank));
            assert(ranking::all_stamped(rank, stamps));
        }
        if id.0 < stamps.len() && stamps[id.0 as int] != 0 {
            assert(ctx.types_ranked_by(ranks) && ranks(id.0 as int) > 0);
        }
    }
}

/// Adds the positions of a list of items.
pub(crate) fn push_ids(parts: &mut Vec<usize>, ids: &Vec<ItemId>)
    ensures
        final(parts)@ == old(parts)@ + positions(ids@),
{
    let mut k: usize = 0;
    while k < ids.len()
        invariant
            0 <= k <= ids@.len(),
            parts@ == old(parts)@ + positions(ids@.take(k as int)),
        decreases ids@.len() - k,
    {
        parts.push(ids[k].0);
        k += 1;
        assert(parts@ =~= old(parts)@ + positions(ids@.take(k as int)));
    }
    assert(ids@.take(ids@.len() as int) =~= ids@);
}

/// The position of an item, as a list.
fn position(id: ItemId) -> (parts: Vec<usize>)
    ensures
        parts@ == positions(seq![id]),
{
    let mut parts: Vec<usize> = Vec::new();
    parts.push(id.0);
    assert(parts@ =~= positions(seq![id]));
    parts
}

impl BindgenContext {
    /// Whether `id` is the id of an item.
    pub(crate) fn check_item(&self, id: ItemId) -> (b: bool)
        ensures
            b == self.has(id),
    {
        id.0 < self.items.len()
    }

    /// Whether `id` is the id of a type.
    pub(crate) fn check_type(&self, id: ItemId) -> (b: bool)
        ensures
            b == self.is_type(id),
    {
        id.0 < self.items.len() && match &self.items[id.0].kind {
            ItemKind::Type(_) => true,
            _ => false,
        }
    }

    /// Whether the template arguments of an item are types.
    pub(crate) fn check_template_args(&self, item: &Item) -> (b: bool)
        ensures
            b == self.template_args_ok(*item),
    {
        let args = &item.applicable_template_args;
        let mut k: usize = 0;
        while k < args.len()
            invariant
                0 <= k <= args@.len(),
                *args == item.applicable_template_args,
                forall|j: int|
                    0 <= j < k ==> self.is_type(#[trigger] item.applicable_template_args@[j]),
            decreases args@.len() - k,
        {
            if !self.check_type(args[k]) {
                assert(!self.is_type(item.applicable_template_args@[k as int]));
                return false;
            }
            k += 1;
        }
        true
    }

    /// The position of the type that a type leads to, if that can be told.
    fn spine_node(&self, item: &Item, Ghost(i): Ghost<int>) -> (r: Option<Vec<usize>>)
        requires
            0 <= i < self.items@.len(),
            self.items@[i] == *item,
        ensures
            r is Some <==> spine_local(*self, i),
            r matches Some(parts) ==> parts@ == positions(spine_parts(*self, i)),
    {
        let ty = match &item.kind {
            ItemKind::Type(ty) => ty,
            _ => {
                return None;
            },
        };
        match &ty.kind {
            TypeKind::ResolvedTypeRef(inner) | TypeKind::TemplateRef(inner, _) => Some(
                position(*inner),
            ),
            TypeKind::Pointer(inner) | TypeKind::Reference(inner) => {
                if !self.check_type(*inner) {
                    return None;
                }
                let canonical = self.resolve_type(*inner).canonical_type;
                if !self.check_type(canonical) {
                    return None;
                }
                if self.resolve_type(canonical).is_function() {
                    Some(position(*inner))
                } else {
                    let none: Vec<usize> = Vec::new();
                    assert(none@ =~= positions(spine_parts(*self, i)));
                    Some(none)
                }
            },
            _ => {
                let none: Vec<usize> = Vec::new();
                assert(none@ =~= positions(spine_parts(*self, i)));
                Some(none)
            },
        }
    }

    /// Whether the Rust type of a type is a path.
    fn check_path(&self, id: ItemId, stamps: &Vec<usize>) -> (b: bool)
        requires
            stamps@.len() == self.items@.len(),
            ranks_types(*self, ranking::ranks_of(stamps@)),
            types::leads_down(*self, ranking::ranks_of(stamps@)),
            forall|i: int|
                0 <= i < stamps@.len() && #[trigger] stamps@[i] != 0 ==> spine_local(*self, i),
            id.0 < stamps@.len(),
            stamps@[id.0 as int] != 0,
        ensures
            b == types::yields_path(*self, ranking::ranks_of(stamps@), id),
        decreases stamps@[id.0 as int],
    {
        let ghost ranks = ranking::ranks_of(stamps@);
        assert(ranks(id.0 as int) > 0);
        let item = self.resolve_item(id);
        let ty = self.resolve_type(id);
        match &ty.kind {
            TypeKind::Void
            | TypeKind::Complex(_)
            | TypeKind::Function(_)
            | TypeKind::Enum(_)
            | TypeKind::Named => true,
            TypeKind::Int(kind) => match kind {
                IntKind::I128 | IntKind::U128 => false,
                _ => true,
            },
            TypeKind::Float(kind) => match kind {
                FloatKind::Float128 => false,
                _ => true,
            },
            TypeKind::TemplateAlias(_, _) | TypeKind::Alias(_, _) => !item.is_opaque || match ty.layout {
                Some(layout) => blob_count(layout) == 1,
                None => false,
            },
            TypeKind::Comp(info) => !(item.is_opaque || info.has_non_type_template_params)
                || match ty.layout {
                Some(layout) => blob_count(layout) == 1,
                None => false,
            },
            TypeKind::ResolvedTypeRef(inner) | TypeKind::TemplateRef(inner, _) => {
                assert(types::leads_to(*self, id.0 as int, *inner));
                assert(0 < ranks(inner.0 as int) < ranks(id.0 as int));
                self.check_path(*inner, stamps)
            },
            TypeKind::Pointer(inner) | TypeKind::Reference(inner) => {
                assert(spine_local(*self, id.0 as int));
                let canonical = self.resolve_type(*inner).canonical_type;
                if !self.resolve_type(canonical).is_function() {
                    return false;
                }
                assert(types::leads_to(*self, id.0 as int, *inner));
                assert(0 < ranks(inner.0 as int) < ranks(id.0 as int));
                self.check_path(*inner, stamps)
            },
            _ => false,
        }
    }

    /// Whether the arguments of a signature have a name where one is given.
    /// Adds the positions of their types.
    fn check_signature(&self, sig: &FunctionSig, parts: &mut Vec<usize>) -> (b: bool)
        ensures
            b == (forall|k: int|
                0 <= k < sig.argument_types@.len() ==> (
                (#[trigger] sig.argument_types@[k]).0 matches Some(name) ==> self.mangle(
                    name@,
                ).len() > 0)),
            b ==> final(parts)@ == old(parts)@ + positions(types::arg_types(*sig)),
    {
        let ghost args = sig.argument_types@;
        let ghost all = types::arg_types(*sig);
        let mut k: usize = 0;
        while k < sig.argument_types.len()
            invariant
                0 <= k <= args.len(),
                args == sig.argument_types@,
                all == types::arg_types(*sig),
                forall|j: int|
                    0 <= j < k ==> ((#[trigger] args[j]).0 matches Some(name) ==> self.mangle(
                        name@,
                    ).len() > 0),
                parts@ == old(parts)@ + positions(all.take(k as int)),
            decreases args.len() - k,
        {
            let arg = &sig.argument_types[k];
            assert(all[k as int] == arg.1);
            if let Some(name) = &arg.0 {
                if self.rust_mangle(name.as_str()).as_str().unicode_len() == 0 {
                    assert(args[k as int].0 is Some);
                    return false;
                }
            }
            parts.push(arg.1.0);
            k += 1;
            assert(parts@ =~= old(parts)@ + positions(all.take(k as int)));
        }
        assert(all.take(all.len() as int) =~= all);
        true
    }

    /// The positions of the template parameters among template arguments.
    fn named_positions(&self, item: &Item) -> (parts: Vec<usize>)
        requires
            self.template_args_ok(*item),
        ensures
            parts@ == positions(types::named_args(*self, item.applicable_template_args@)),
    {
        let ghost pred = |arg: ItemId| self.ty(arg).kind is Named;
        let args = &item.applicable_template_args;
        let mut parts: Vec<usize> = Vec::new();
        let mut k: usize = 0;
        proof {
            reveal(Seq::filter);
            assert(parts@ =~= positions(args@.take(0).filter(pred)));
        }
        while k < args.len()
            invariant
                0 <= k <= args@.len(),
                *args == item.applicable_template_args,
                self.template_args_ok(*item),
                pred == (|arg: ItemId| self.ty(arg).kind is Named),
                parts@ == positions(args@.take(k as int).filter(pred)),
            decreases args@.len() - k,
        {
            proof {
                reveal(Seq::filter);
                assert(args@.take(k + 1).drop_last() =~= args@.take(k as int));
                assert(args@.take(k + 1).last() == args@[k as int]);
            }
            assert(self.is_type(item.applicable_template_args@[k as int]));
            if self.resolve_type(args[k]).is_named() {
                parts.push(args[k].0);
            }
            k += 1;
            assert(parts@ =~= positions(args@.take(k as int).filter(pred)));
        }
        assert(args@.take(args@.len() as int) =~= args@);
        assert(types::named_args(*self, args@) == args@.filter(pred));
        parts
    }

    /// The positions of the types that the Rust type of a type takes, if
    /// nothing else stands against it.
    fn type_node(&self, item: &Item, stamps: &Vec<usize>, Ghost(i): Ghost<int>) -> (r: Option<
        Vec<usize>,
    >)
        requires
            0 <= i < self.items@.len(),
            self.items@[i] == *item,
            stamps@.len() == self.items@.len(),
            ranks_types(*self, ranking::ranks_of(stamps@)),
            types::leads_down(*self, ranking::ranks_of(stamps@)),
            forall|j: int|
                0 <= j < stamps@.len() && #[trigger] stamps@[j] != 0 ==> spine_local(*self, j),
        ensures
            r is Some <==> type_local(*self, ranking::ranks_of(stamps@), i),
            r matches Some(parts) ==> parts@ == positions(
                type_parts(*self, ranking::ranks_of(stamps@), i),
            ),
    {
        let ghost ranks = ranking::ranks_of(stamps@);
        let ghost all = type_parts(*self, ranks, i);
        if self.spine_node(item, Ghost(i)).is_none() {
            return None;
        }
        let ty = match &item.kind {
            ItemKind::Type(ty) => ty,
            _ => {
                return None;
            },
        };
        let mut parts: Vec<usize> = Vec::new();
        match &ty.kind {
            TypeKind::UnresolvedTypeRef => {
                return None;
            },
            TypeKind::Array(inner, _)
            | TypeKind::Pointer(inner)
            | TypeKind::Reference(inner)
            | TypeKind::ResolvedTypeRef(inner) => {
                parts.push(inner.0);
            },
            TypeKind::TemplateRef(inner, args) => {
                if inner.0 >= stamps.len() || stamps[inner.0] == 0 {
                    return None;
                }
                parts.push(inner.0);
                if self.check_path(*inner, stamps) {
                    push_ids(&mut parts, args);
                }
            },
            TypeKind::Function(sig) => {
                parts.push(sig.return_type.0);
                if !self.check_signature(sig, &mut parts) {
                    return None;
                }
            },
            TypeKind::TemplateAlias(spelling, inner) | TypeKind::Alias(spelling, inner) => {
                if !item.is_opaque && type_from_named(self, spelling.as_str(), *inner).is_none() {
                    if item.namespace_aware_canonical_path.len() == 0
                        || !self.check_template_args(item) {
                        return None;
                    }
                    parts = self.named_positions(item);
                }
            },
            TypeKind::Comp(info) => {
                if !item.is_opaque && !info.has_non_type_template_params {
                    if item.namespace_aware_canonical_path.len() == 0 {
                        return None;
                    }
                    push_ids(&mut parts, &item.applicable_template_args);
                }
            },
            _ => {},
        }
        assert(parts@ =~= positions(all));
        Some(parts)
    }

    /// Ranks above zero for what can be told to be a path or none.
    fn rank_spine(&self) -> (stamps: Vec<usize>)
        ensures
            stamps@.len() == self.items@.len(),
            exists|nodes: Seq<Option<Seq<usize>>>| #[trigger]
                spine_nodes(*self, nodes) && ranking::ranked(nodes, ranking::ranks_of(stamps@))
                    && forall|rank: spec_fn(int) -> nat| #[trigger]
                    ranking::ranked(nodes, rank) ==> ranking::all_stamped(rank, stamps@),
    {
        let mut nodes: Vec<Option<Vec<usize>>> = Vec::new();
        let n = self.items.len();
        let mut i: usize = 0;
        while i < n
            invariant
                0 <= i <= n,
                n == self.items@.len(),
                nodes@.len() == i,
                forall|j: int|
                    0 <= j < i ==> is_node(
                        #[trigger] ranking::nodes_of(nodes@)[j],
                        spine_local(*self, j),
                        spine_parts(*self, j),
                    ),
            decreases n - i,
        {
            let ghost before = ranking::nodes_of(nodes@);
            nodes.push(self.spine_node(&self.items[i], Ghost(i as int)));
            i += 1;
            assert forall|j: int| 0 <= j < i implies is_node(
                #[trigger] ranking::nodes_of(nodes@)[j],
                spine_local(*self, j),
                spine_parts(*self, j),
            ) by {
                if j < i - 1 {
                    assert(ranking::nodes_of(nodes@)[j] == before[j]);
                }
            }
        }
        let stamps = rank_parts(&nodes);
        assert(spine_nodes(*self, ranking::nodes_of(nodes@)));
        stamps
    }

    /// Ranks above zero for those types that have a Rust type.
    pub(crate) fn rank_types(&self) -> (stamps: Vec<usize>)
        ensures
            tells_types(*self, stamps@),
    {
        let spine = self.rank_spine();
        let ghost ranks = ranking::ranks_of(spine@);
        let ghost leads = choose|nodes: Seq<Option<Seq<usize>>>| #[trigger]
            spine_nodes(*self, nodes) && ranking::ranked(nodes, ranks) && forall|
                rank: spec_fn(int) -> nat,
            | #[trigger]
                ranking::ranked(nodes, rank) ==> ranking::all_stamped(rank, spine@);
        proof {
            lemma_spine_down(*self, leads, ranks);
            assert forall|i: int| 0 <= i < spine@.len() && #[trigger] spine@[i] != 0 implies
                spine_local(*self, i) by {
                assert(ranks(i) > 0);
                assert(ranking::parts_below(leads, ranks, i));
                assert(is_node(leads[i], spine_local(*self, i), spine_parts(*self, i)));
            }
        }
        let mut nodes: Vec<Option<Vec<usize>>> = Vec::new();
        let n = self.items.len();
        let mut i: usize = 0;
        while i < n
            invariant
                0 <= i <= n,
                n == self.items@.len(),
                spine@.len() == n,
                ranks == ranking::ranks_of(spine@),
                ranks_types(*self, ranks),
                types::leads_down(*self, ranks),
                forall|j: int|
                    0 <= j < spine@.len() && #[trigger] spine@[j] != 0 ==> spine_local(*self, j),
                nodes@.len() == i,
                forall|j: int|
                    0 <= j < i ==> is_node(
                        #[trigger] ranking::nodes_of(nodes@)[j],
                        type_local(*self, ranks, j),
                        type_parts(*self, ranks, j),
                    ),
            decreases n - i,
        {
            let ghost before = ranking::nodes_of(nodes@);
            nodes.push(self.type_node(&self.items[i], &spine, Ghost(i as int)));
            i += 1;
            assert forall|j: int| 0 <= j < i implies is_node(
                #[trigger] ranking::nodes_of(nodes@)[j],
                type_local(*self, ranks, j),
                type_parts(*self, ranks, j),
            ) by {
                if j < i - 1 {
                    assert(ranking::nodes_of(nodes@)[j] == before[j]);
                }
            }
        }
        let stamps = rank_parts(&nodes);
        proof {
            let all = ranking::nodes_of(nodes@);
            assert(type_nodes(*self, ranks, all));
            assert forall|rank: spec_fn(int) -> nat| #[trigger] self.types_ranked_by(rank)
                <==> ranking::ranked(all, rank) by {
                lemma_types_ranked(*self, leads, spine@, all, rank);
            }
            lemma_tells_types(*self, all, stamps@);
        }
        stamps
    }

    /// Whether a type has a Rust type, as `stamps` tell.
    pub(crate) fn check_converts(&self, stamps: &Vec<usize>, id: ItemId) -> (b: bool)
        requires
            tells_types(*self, stamps@),
        ensures
            b == self.converts(id),
            b ==> self.is_type(id),
    {
        let b = id.0 < stamps.len() && stamps[id.0] != 0;
        proof {
            if b {
                assert(self.converts(id));
                types::lemma_type_ok(*self, id);
            }
        }
        b
    }

    /// Whether a type has a Rust type.
    pub fn has_rust_type(&self, id: ItemId) -> (b: bool)
        ensures
            b == self.converts(id),
    {
        let stamps = self.rank_types();
        self.check_converts(&stamps, id)
    }
}

} // verus!
