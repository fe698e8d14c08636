//! Typedefs.
use vstd::prelude::*;

use crate::ast;
use crate::ast::ItemView;
use crate::helpers;
use crate::helpers::{doc, BlobTyBuilder};
use crate::ir::{BindgenContext, Item, ItemId, ItemKind, Layout, Type};
use crate::names;
use crate::names::{contains, same};
use crate::result::{CodegenResult, ResultView};
use crate::types;
use crate::types::{type_from_named, Converted};

verus! {

/// The declared name of a type.
pub open spec fn declared_name(ctx: BindgenContext, id: ItemId) -> Seq<char> {
    ctx.ty(id).name->0@
}

/// The declared names of a list of types.
pub open spec fn declared_names(ctx: BindgenContext, ids: Seq<ItemId>) -> Seq<Seq<char>> {
    ids.map_values(|id: ItemId| declared_name(ctx, id))
}

/// What a typedef is: one that is opaque takes the layout of the typedef, any
/// other is what it names.
pub open spec fn aliased(ctx: BindgenContext, id: ItemId, inner: ItemId) -> Converted {
    if ctx.item(id).is_opaque {
        Converted {
            ty: helpers::blob_ty(types::layout_or_zero(ctx.ty(id).layout)),
            complex: false,
        }
    } else {
        types::rust_ty(ctx, inner)
    }
}

/// The template parameters of a typedef.
pub open spec fn alias_params(ctx: BindgenContext, item: Item) -> Seq<ItemId> {
    if item.is_opaque {
        seq![]
    } else {
        types::named_args(ctx, item.applicable_template_args@)
    }
}

/// Whether the name of one of the template parameters is none that Rust knows.
pub open spec fn has_typename(ctx: BindgenContext, params: Seq<ItemId>) -> bool {
    exists|k: int|
        0 <= k < params.len() && names::contains_text(
            declared_name(ctx, #[trigger] params[k]),
            "typename "@,
        )
}

/// What generating the typedef `id` of `inner` does: nothing where it has the
/// name of what it names, where it is known by its spelling, or where a
/// template parameter cannot be named.
pub open spec fn gen_alias(
    ctx: BindgenContext,
    st: ResultView,
    id: ItemId,
    spelling: Seq<char>,
    inner: ItemId,
) -> ResultView {
    let item = ctx.item(id);
    let params = alias_params(ctx, item);
    let converted = aliased(ctx, id, inner);
    if ctx.item(inner).canonical_name@ == item.canonical_name@ {
        st
    } else if types::known_type(spelling) is Some {
        st
    } else if has_typename(ctx, params) {
        st.with_complex(converted.complex)
    } else {
        st.with_complex(converted.complex).push(
            ItemView::TyAlias {
                name: ctx.mangle(item.canonical_name@),
                attrs: helpers::doc_attrs(item.comment),
                generics: declared_names(ctx, params),
                ty: converted.ty,
            },
        )
    }
}

/// Whether a template argument is a type, and has a name if it is a template
/// parameter.
pub open spec fn param_ok(ctx: BindgenContext, id: ItemId) -> bool {
    ctx.is_type(id) && (ctx.ty(id).kind is Named ==> ctx.ty(id).name is Some)
}

/// Whether a template argument is a template parameter whose name is none that
/// Rust knows.
pub open spec fn is_typename(ctx: BindgenContext, id: ItemId) -> bool {
    &&& param_ok(ctx, id)
    &&& ctx.ty(id).kind is Named
    &&& names::contains_text(declared_name(ctx, id), "typename "@)
}

/// Whether there is such a template parameter before the template argument at
/// `k`.
pub open spec fn typename_before(ctx: BindgenContext, args: Seq<ItemId>, k: int) -> bool {
    exists|j: int| 0 <= j < k && is_typename(ctx, #[trigger] args[j])
}

/// Whether template arguments are types, and the template parameters among
/// them have names: as far as the first whose name is none that Rust knows,
/// for nothing is generated from there on.
pub open spec fn params_ok(ctx: BindgenContext, item: Item) -> bool {
    let args = item.applicable_template_args@;
    forall|k: int|
        0 <= k < args.len() ==> param_ok(ctx, #[trigger] args[k]) || typename_before(ctx, args, k)
}

/// Whether a typedef can be generated: what it names exists, and if it is not
/// skipped and not opaque, has a Rust type, and its parameters can be named.
pub open spec fn alias_ok(
    ctx: BindgenContext,
    item: Item,
    spelling: Seq<char>,
    inner: ItemId,
) -> bool {
    &&& ctx.has(inner)
    &&& {
        ||| ctx.item(inner).canonical_name@ == item.canonical_name@
        ||| types::known_type(spelling) is Some
        ||| item.is_opaque
        ||| ctx.converts(inner) && params_ok(ctx, item)
    }
}

impl Type {
    /// The names of the template parameters of a typedef, or nothing if one
    /// of them cannot be named.
    fn alias_generics(ctx: &BindgenContext, item: &Item) -> (r: Option<Vec<String>>)
        requires
            item.is_opaque || params_ok(*ctx, *item),
        ensures
            r is None <==> has_typename(*ctx, alias_params(*ctx, *item)),
            r matches Some(v) ==> v.deep_view() == declared_names(*ctx, alias_params(*ctx, *item)),
    {
        let mut generics: Vec<String> = Vec::new();
        if item.is_opaque {
            assert(generics.deep_view() =~= declared_names(*ctx, alias_params(*ctx, *item)));
            return Some(generics);
        }
        let args = &item.applicable_template_args;
        let ghost named = |arg: ItemId| ctx.ty(arg).kind is Named;
        let ghost params = alias_params(*ctx, *item);
        let mut i: usize = 0;
        assert(generics.deep_view() =~= declared_names(*ctx, args@.take(0).filter(named))) by {
            reveal(Seq::filter);
        }
        while i < args.len()
            invariant
                0 <= i <= args@.len(),
                *args == item.applicable_template_args,
                params == args@.filter(named),
                params == alias_params(*ctx, *item),
                named == (|arg: ItemId| ctx.ty(arg).kind is Named),
                params_ok(*ctx, *item),
                forall|j: int| 0 <= j < i ==> !is_typename(*ctx, #[trigger] args@[j]),
                generics.deep_view() == declared_names(*ctx, args@.take(i as int).filter(named)),
                !has_typename(*ctx, args@.take(i as int).filter(named)),
            decreases args@.len() - i,
        {
            let ghost before = args@.take(i as int).filter(named);
            let ghost generics_before = generics.deep_view();
            assert(param_ok(*ctx, args@[i as int])) by {
                assert(!typename_before(*ctx, args@, i as int));
            }
            proof {
                reveal(Seq::filter);
                assert(args@.take(i + 1).drop_last() =~= args@.take(i as int));
                assert(args@.take(i + 1).last() == args@[i as int]);
            }
            let template_arg = ctx.resolve_type(args[i]);
            if template_arg.is_named() {
                match &template_arg.name {
                    Some(name) => {
                        let ghost after = before.push(args@[i as int]);
                        assert(args@.take(i + 1).filter(named) == after);
                        if contains(name.as_str(), "typename ") {
                            proof {
                                assert(after[before.len() as int] == args@[i as int]);
                                lemma_filter_prefix(args@, named, i + 1);
                                assert(params[before.len() as int] == args@[i as int]);
                                assert(has_typename(*ctx, params));
                            }
                            return None;
                        }
                        generics.push(name.clone());
                        proof {
                            assert(generics.deep_view() =~= generics_before.push(name@));
                            assert(declared_names(*ctx, after) =~= declared_names(*ctx, before).push(
                                name@,
                            ));
                            assert forall|k: int| 0 <= k < after.len() implies !names::contains_text(
                                declared_name(*ctx, #[trigger] after[k]),
                                "typename "@,
                            ) by {
                                if k < before.len() {
                                    assert(after[k] == before[k]);
                                }
                            }
                        }
                    },
                    None => {
                        proof {
                            assert(false);
                        }
                    },
                }
            }
            i += 1;
        }
        assert(args@.take(args@.len() as int) =~= args@);
        Some(generics)
    }

    /// Generates this typedef of `inner`, which is what `item` is.
    pub(crate) fn codegen_alias(
        &self,
        ctx: &BindgenContext,
        result: &mut CodegenResult,
        item: &Item,
        spelling: &String,
        inner: ItemId,
    )
        requires
            ctx.ids_wf(),
            ctx.holds(item),
            item.kind == ItemKind::Type(*self),
            alias_ok(*ctx, *item, spelling@, inner),
        ensures
            final(result)@ == gen_alias(*ctx, old(result)@, item.id, spelling@, inner),
    {
        let inner_item = ctx.resolve_item(inner);
        let name = &item.canonical_name;
        // The common pattern `typedef struct foo { .. } foo;`.
        if same(inner_item.canonical_name.as_str(), name.as_str()) {
            return ;
        }
        if type_from_named(ctx, spelling.as_str(), inner).is_some() {
            return ;
        }
        let inner_rust_type = if item.is_opaque {
            let layout = match self.layout {
                Some(layout) => layout,
                None => Layout::zero(),
            };
            BlobTyBuilder::new(layout).build()
        } else {
            inner_item.to_rust_ty(ctx, &mut result.needs_complex)
        };
        let ghost before = result@;
        assert(before =~= old(result)@.with_complex(aliased(*ctx, item.id, inner).complex));
        match Type::alias_generics(ctx, item) {
            Some(generics) => {
                result.push(
                    ast::Item::TyAlias {
                        name: ctx.rust_mangle(name.as_str()),
                        attrs: doc(&item.comment),
                        generics,
                        ty: inner_rust_type,
                    },
                );
            },
            None => {},
        }
    }
}

/// What a filter keeps of a prefix is a prefix of what it keeps.
proof fn lemma_filter_prefix<T>(s: Seq<T>, pred: spec_fn(T) -> bool, n: int)
    requires
        0 <= n <= s.len(),
    ensures
        s.take(n).filter(pred).len() <= s.filter(pred).len(),
        forall|k: int|
            0 <= k < s.take(n).filter(pred).len() ==> s.take(n).filter(pred)[k] == (
            #[trigger] s.filter(pred)[k]),
    decreases s.len() - n,
{
    if n == s.len() {
        assert(s.take(n) =~= s);
    } else {
        lemma_filter_prefix(s, pred, n + 1);
        reveal(Seq::filter);
        assert(s.take(n + 1).drop_last() =~= s.take(n));
    }
}

} // verus!
