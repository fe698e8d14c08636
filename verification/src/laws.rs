//! What holds of the bindings as a whole.
use vstd::prelude::*;

use crate::alias;
use crate::ast::{CallArgView, ItemView, TyView};
use crate::codegen;
use crate::comp;
use crate::counts;
use crate::enums;
use crate::foreign;
use crate::growth;
use crate::helpers;
use crate::ir::{BindgenContext, EnumVariant, Item, ItemId, ItemKind, Layout, Method, TypeKind};
use crate::method;
use crate::names;
use crate::result;
use crate::result::ResultView;
use crate::support;
use crate::types;
use crate::weights;

verus! {

/// Different numbers have different decimal digits.
pub proof fn lemma_decimal_injective(m: nat, n: nat)
    requires
        names::decimal_digits(m) == names::decimal_digits(n),
    ensures
        m == n,
    decreases m,
{
    let a = names::decimal_digits(m);
    let b = names::decimal_digits(n);
    lemma_decimal_len(m / 10);
    lemma_decimal_len(n / 10);
    if m < 10 {
        if n < 10 {
            assert(a[0] == names::digit_char(m) && b[0] == names::digit_char(n));
        } else {
            assert(a.len() == 1 && b.len() > 1);
        }
    } else if n < 10 {
        assert(b.len() == 1 && a.len() > 1);
    } else {
        assert(a.drop_last() =~= names::decimal_digits(m / 10));
        assert(b.drop_last() =~= names::decimal_digits(n / 10));
        assert(a.last() == names::digit_char(m % 10));
        assert(b.last() == names::digit_char(n % 10));
        lemma_decimal_injective(m / 10, n / 10);
        assert(m % 10 == n % 10);
    }
}

proof fn lemma_decimal_len(n: nat)
    ensures
        names::decimal_digits(n).len() > 0,
    decreases n,
{
    if n >= 10 {
        lemma_decimal_len(n / 10);
    }
}

/// A name followed by different numbers gives different names, none of which
/// is the name alone.
proof fn lemma_suffix(name: Seq<char>, m: nat, n: nat)
    ensures
        name + names::decimal_digits(m) != name,
        m != n ==> name + names::decimal_digits(m) != name + names::decimal_digits(n),
{
    let a = names::decimal_digits(m);
    let b = names::decimal_digits(n);
    lemma_decimal_len(m);
    assert((name + a).len() > name.len());
    if name + a == name + b {
        assert((name + a).skip(name.len() as int) =~= a);
        assert((name + b).skip(name.len() as int) =~= b);
        lemma_decimal_injective(m, n);
    }
}

/// Each overload of a function gets a name of its own: whatever is generated
/// in between, two functions of one canonical name are declared under
/// different names.
pub proof fn law_overloads_distinct(
    ctx: BindgenContext,
    first: ResultView,
    second: ResultView,
    a: ItemId,
    b: ItemId,
)
    requires
        ctx.item(a).kind is Function,
        ctx.item(b).kind is Function,
        ctx.item(a).canonical_name@ == ctx.item(b).canonical_name@,
        first.overloads(ctx.item(a).canonical_name@) < u32::MAX,
        !first.functions_seen.contains(
            foreign::symbol(ctx.item(a).kind->Function_0, ctx.item(a).canonical_name@),
        ),
        !second.functions_seen.contains(
            foreign::symbol(ctx.item(b).kind->Function_0, ctx.item(b).canonical_name@),
        ),
        counts::counts_grow(foreign::gen_function(ctx, first, a), second),
    ensures
        ({
            let one = foreign::gen_function(ctx, first, a).items.last();
            let other = foreign::gen_function(ctx, second, b).items.last();
            &&& one is ForeignMod && one->foreign_items.len() == 1
            &&& other is ForeignMod && other->foreign_items.len() == 1
            &&& one->foreign_items[0].name != other->foreign_items[0].name
        }),
{
    let name = ctx.item(a).canonical_name@;
    let after = foreign::gen_function(ctx, first, a);
    assert(after.overloads(name) == first.overloads(name) + 1);
    assert(after.overloads(name) <= second.overloads(name));
    lemma_suffix(name, second.overloads(name), first.overloads(name));
}

/// Declaring a function once more changes nothing: one symbol is declared
/// once.
pub proof fn law_function_once(ctx: BindgenContext, st: ResultView, a: ItemId, b: ItemId)
    requires
        foreign::symbol(ctx.item(a).kind->Function_0, ctx.item(a).canonical_name@)
            == foreign::symbol(ctx.item(b).kind->Function_0, ctx.item(b).canonical_name@),
    ensures
        foreign::gen_function(ctx, foreign::gen_function(ctx, st, a), b) == foreign::gen_function(
            ctx,
            st,
            a,
        ),
{
}

/// Declaring a variable once more changes nothing: one name is declared once.
pub proof fn law_var_once(ctx: BindgenContext, st: ResultView, a: ItemId, b: ItemId)
    requires
        ctx.item(a).canonical_name@ == ctx.item(b).canonical_name@,
    ensures
        foreign::gen_var(ctx, foreign::gen_var(ctx, st, a), b) == foreign::gen_var(ctx, st, a),
{
}

/// An item is generated once: generating it again changes nothing.
pub proof fn law_item_once(ctx: BindgenContext, wl: Set<usize>, st: ResultView, id: ItemId)
    requires
        ctx.can_generate(wl, id),
    ensures
        codegen::gen_item(ctx, wl, codegen::gen_item(ctx, wl, st, id), id) == codegen::gen_item(
            ctx,
            wl,
            st,
            id,
        ),
{
    codegen::lemma_decl(ctx, wl, id);
    if !ctx.item(id).is_hidden && !st.items_seen.contains(id.0) {
        lemma_item_seen(ctx, wl, st, id);
    }
}

/// What is generated is seen.
pub proof fn lemma_item_seen(ctx: BindgenContext, wl: Set<usize>, st: ResultView, id: ItemId)
    requires
        ctx.can_generate(wl, id),
        !ctx.item(id).is_hidden,
    ensures
        codegen::gen_item(ctx, wl, st, id).items_seen.contains(id.0),
{
    codegen::lemma_decl(ctx, wl, id);
    if !st.items_seen.contains(id.0) {
        let seen = st.with_seen(id);
        assert(seen.items_seen.contains(id.0));
        match ctx.item(id).kind {
            ItemKind::Module(_) => {
                growth::lemma_module_grows(ctx, wl, seen, id);
            },
            ItemKind::Type(_) => {
                if ctx.options.codegen_config.types {
                    growth::lemma_type_grows(ctx, wl, seen, id);
                }
            },
            _ => {},
        }
    }
}

/// A hidden item gives nothing, whatever it is.
pub proof fn law_hidden(ctx: BindgenContext, wl: Set<usize>, st: ResultView, id: ItemId)
    requires
        ctx.has(id),
        ctx.item(id).is_hidden,
    ensures
        ctx.can_generate(wl, id),
        codegen::gen_item(ctx, wl, st, id) == st,
{
    lemma_left_out(ctx, wl, id);
}

/// An item of a kind that is not generated gives nothing, whatever it is.
pub proof fn law_switched_off(ctx: BindgenContext, wl: Set<usize>, st: ResultView, id: ItemId)
    requires
        ctx.has(id),
        !ctx.is_switched_on(ctx.item(id).kind),
    ensures
        ctx.can_generate(wl, id),
        codegen::gen_item(ctx, wl, st, id).items == st.items,
{
    lemma_left_out(ctx, wl, id);
}

/// What gives nothing can be generated.
proof fn lemma_left_out(ctx: BindgenContext, wl: Set<usize>, id: ItemId)
    requires
        ctx.has(id),
        ctx.item(id).is_hidden || !ctx.is_switched_on(ctx.item(id).kind),
    ensures
        ctx.can_generate(wl, id),
{
    let rank = |i: int|
        if i == id.0 {
            1nat
        } else {
            0nat
        };
    assert(ctx.decls_ranked_by(wl, rank) && rank(id.0 as int) > 0);
}

/// With namespaces, a module none of whose children were asked for is not
/// created.
pub proof fn law_empty_module(ctx: BindgenContext, wl: Set<usize>, st: ResultView, id: ItemId)
    requires
        ctx.can_generate_inside(wl, id),
        ctx.item(id).kind is Module,
        ctx.options.enable_cxx_namespaces,
        forall|k: int|
            0 <= k < ctx.item(id).kind->Module_0.children@.len() ==> !wl.contains(
                (#[trigger] ctx.item(id).kind->Module_0.children@[k]).0,
            ),
    ensures
        codegen::gen_module(ctx, wl, st, id) == st,
{
    lemma_none_asked_for(wl, ctx.item(id).kind->Module_0.children@);
    growth::lemma_children_nested(ctx, wl, id);
    assert(codegen::gen_module(ctx, wl, st, id) =~= st);
}

proof fn lemma_none_asked_for(wl: Set<usize>, ids: Seq<ItemId>)
    requires
        forall|k: int| 0 <= k < ids.len() ==> !wl.contains((#[trigger] ids[k]).0),
    ensures
        codegen::asked_for(wl, ids).len() == 0,
    decreases ids.len(),
{
    reveal(Seq::filter);
    if ids.len() > 0 {
        assert(!wl.contains(ids[ids.len() - 1].0));
        lemma_none_asked_for(wl, ids.drop_last());
    }
}

/// Where nothing was asked for, nothing is generated, whatever there is
/// besides the root.
pub proof fn law_nothing_asked_for(ctx: BindgenContext)
    requires
        ctx.is_sound(),
        ctx.has(ctx.root_module),
        ctx.item(ctx.root_module).kind is Module,
        ctx.options.enable_cxx_namespaces ==> forall|k: int|
            0 <= k < ctx.item(ctx.root_module).ancestors@.len() ==> ctx.has(
                #[trigger] ctx.item(ctx.root_module).ancestors@[k],
            ),
        ctx.whitelisted_items@.len() == 0,
        !ctx.generated_bindegen_complex,
    ensures
        ctx.wf(),
        codegen::generated(ctx).items == Seq::<ItemView>::empty(),
        !codegen::generated(ctx).needs_complex,
{
    let root = ctx.root_module;
    let children = ctx.item(root).kind->Module_0.children@;
    let wl = ctx.whitelist();
    lemma_none_asked_for(wl, children);
    assert(ctx.can_generate(wl, root)) by {
        let rank = |i: int|
            if i == root.0 {
                1nat
            } else {
                0nat
            };
        assert(ctx.decls_ranked_by(wl, rank) && rank(root.0 as int) > 0);
    }
    codegen::lemma_decl(ctx, wl, root);
    let st = ResultView::fresh(0, false).with_seen(root);
    if !ctx.item(root).is_hidden {
        growth::lemma_children_nested(ctx, wl, root);
        assert(codegen::generated(ctx) == codegen::gen_module(ctx, wl, st, root));
        assert(codegen::asked_for(wl, children) =~= seq![]);
        if ctx.options.enable_cxx_namespaces {
            law_empty_module(ctx, wl, st, root);
        } else {
            assert(codegen::gen_each(ctx, wl, st, root, seq![]) == st);
            assert(codegen::with_prelude(ctx, st).items =~= seq![]);
        }
    }
}

/// What was generated stays: whatever is generated next, the items stand as
/// they stood, one after the other, and nothing that was noted is forgotten.
pub proof fn law_only_adds(ctx: BindgenContext, wl: Set<usize>, st: ResultView, id: ItemId)
    requires
        ctx.can_generate(wl, id),
    ensures
        growth::grows(st, codegen::gen_item(ctx, wl, st, id)),
{
    growth::lemma_item_grows(ctx, wl, st, id);
}

/// The counter of ids never runs out: without namespaces, no more ids are
/// given than there are declarations, and with them no more than there are
/// items in the root.
pub proof fn law_ids_bounded(ctx: BindgenContext)
    requires
        ctx.wf(),
        !ctx.options.enable_cxx_namespaces || weights::weight(
            ctx,
            ctx.whitelist(),
            ctx.root_module,
        ) <= usize::MAX,
    ensures
        !ctx.options.enable_cxx_namespaces ==> codegen::generated(ctx).codegen_id
            <= ctx.items@.len(),
        codegen::generated(ctx).codegen_id <= weights::weight(
            ctx,
            ctx.whitelist(),
            ctx.root_module,
        ),
        codegen::generated(ctx).codegen_id <= usize::MAX,
{
    let wl = ctx.whitelist();
    let st = ResultView::fresh(0, ctx.generated_bindegen_complex);
    let after = codegen::generated(ctx);
    weights::lemma_item_ids(ctx, wl, st, ctx.root_module);
    assert(st.counted(ctx, 0));
    counts::lemma_item_accounted(ctx, wl, st, ctx.root_module);
    result::lemma_seen_len(after.items_seen, ctx.items@.len() as usize);
}

/// Generating an item counts overloads upwards only.
pub proof fn law_overloads_counted(
    ctx: BindgenContext,
    wl: Set<usize>,
    st: ResultView,
    id: ItemId,
)
    requires
        ctx.is_sound(),
        ctx.can_generate(wl, id),
        st.counted(ctx, 0),
    ensures
        counts::counts_grow(st, codegen::gen_item(ctx, wl, st, id)),
{
    counts::lemma_item_accounted(ctx, wl, st, id);
}

/// The inside of the root starts with the types that the rest relies on: that
/// of complex numbers if and only if they occur, and that of union fields if
/// and only if a union is emulated.
pub proof fn law_support_types(ctx: BindgenContext, wl: Set<usize>, st: ResultView)
    requires
        ctx.can_generate_inside(wl, ctx.root_module),
        ctx.item(ctx.root_module).kind is Module,
    ensures
        ({
            let after = codegen::module_body(ctx, wl, st, ctx.root_module);
            let each = codegen::gen_each(
                ctx,
                wl,
                st,
                ctx.root_module,
                codegen::asked_for(wl, ctx.item(ctx.root_module).kind->Module_0.children@),
            );
            let unions = after.saw_union && !ctx.options.unstable_rust;
            after.items == (if after.needs_complex {
                seq![support::complex_type()]
            } else {
                seq![]
            }) + (if unions {
                support::union_types(ctx)
            } else {
                seq![]
            }) + each.items
        }),
{
    let children = ctx.item(ctx.root_module).kind->Module_0.children@;
    growth::lemma_children_nested(ctx, wl, ctx.root_module);
    let each = codegen::gen_each(
        ctx,
        wl,
        st,
        ctx.root_module,
        codegen::asked_for(wl, children),
    );
    let after = codegen::with_prelude(ctx, each);
    assert(codegen::module_body(ctx, wl, st, ctx.root_module) == after);
    let unions = after.saw_union && !ctx.options.unstable_rust;
    assert(after.items =~= (if after.needs_complex {
        seq![support::complex_type()]
    } else {
        seq![]
    }) + (if unions {
        support::union_types(ctx)
    } else {
        seq![]
    }) + each.items);
}

/// The test of the layout of a compound type is generated with its size and
/// alignment, if these are known and nothing unknown affects them.
pub proof fn law_layout_tested(ctx: BindgenContext, wl: Set<usize>, st: ResultView, id: ItemId)
    requires
        ctx.can_generate_inside(wl, id),
        comp::is_comp(ctx.item(id)),
        !comp::comp(ctx.item(id)).has_non_type_template_params,
        !comp::comp(ctx.item(id)).is_template_specialization,
        codegen::is_plain(ctx.item(id)),
        ctx.ty(id).layout is Some,
    ensures
        codegen::gen_comp(ctx, wl, st, id).items.contains(
            codegen::layout_test(
                ctx,
                "bindgen_test_layout_"@ + ctx.item(id).canonical_name@,
                helpers::named_ty(ctx.item(id).canonical_name@),
                ctx.ty(id).layout->0,
            ),
        ),
{
    let item = ctx.item(id);
    let info = comp::comp(item);
    let name = item.canonical_name@;
    let test = codegen::layout_test(
        ctx,
        "bindgen_test_layout_"@ + name,
        helpers::named_ty(name),
        ctx.ty(id).layout->0,
    );
    codegen::lemma_comp_inside(ctx, wl, id);
    let inner = codegen::gen_each(
        ctx,
        wl,
        comp::gen_struct(ctx, st, item),
        id,
        info.inner_types@,
    );
    let vars = codegen::gen_each(ctx, wl, inner, id, info.inner_vars@);
    let tested = codegen::with_layout_test(ctx, vars, id);
    let i = vars.items.len() as int;
    assert(tested.items[i] == test);
    let after = codegen::gen_comp(ctx, wl, st, id);
    if ctx.options.codegen_config.methods {
        let called = codegen::gen_methods(ctx, wl, tested, id, info.methods@);
        growth::lemma_methods_grows(ctx, wl, tested, id, info.methods@);
        let k = choose|k: int| #[trigger] growth::kept_at(tested.items, called.items, k);
        assert(called.items.subrange(k, k + tested.items.len())[i] == called.items[k + i]);
        assert(after.items[k + i] == test);
    } else {
        assert(after.items[i] == test);
    }
}

/// The struct or union of a compound type is generated.
pub proof fn law_struct_generated(ctx: BindgenContext, wl: Set<usize>, st: ResultView, id: ItemId)
    requires
        ctx.can_generate_inside(wl, id),
        comp::is_comp(ctx.item(id)),
        !comp::comp(ctx.item(id)).has_non_type_template_params,
        !comp::comp(ctx.item(id)).is_template_specialization,
    ensures
        codegen::gen_comp(ctx, wl, st, id).items.contains(comp::comp_item(ctx, ctx.item(id))),
{
    let item = ctx.item(id);
    let declared = comp::gen_struct(ctx, st, item);
    let after = codegen::gen_comp(ctx, wl, st, id);
    growth::lemma_comp_keeps_struct(ctx, wl, st, id);
    let k = choose|k: int| #[trigger] growth::kept_at(declared.items, after.items, k);
    let i = declared.items.len() - 1;
    assert(declared.items[i] == comp::comp_item(ctx, item));
    assert(after.items.subrange(k, k + declared.items.len())[i] == after.items[k + i]);
}

/// A compound type without contents takes one byte.
pub proof fn law_unsized_addressed(ctx: BindgenContext, item: Item)
    requires
        comp::is_comp(item),
        comp::comp(item).is_unsized,
    ensures
        comp::comp_fields(ctx, item).contains(
            comp::pub_field("_address"@, helpers::blob_ty(Layout { size: 1, align: 1 })),
        ),
{
    let before = if item.is_opaque {
        comp::opaque_fields(item)
    } else {
        comp::declared_members(ctx, item).fields + comp::union_fields(ctx, item)
    };
    let field = comp::address_fields(item)[0];
    assert(comp::comp_fields(ctx, item)[before.len() as int] == field);
}

/// A template argument that nothing in a compound type uses is used by a
/// marker.
pub proof fn law_template_args_used(ctx: BindgenContext, item: Item, k: int)
    requires
        comp::is_comp(item),
        0 <= k < item.applicable_template_args@.len(),
        !comp::arg_used(ctx, item, item.applicable_template_args@[k]),
    ensures
        comp::comp_fields(ctx, item).contains(comp::phantom_field(ctx, item, k)),
{
    let n = item.applicable_template_args@.len() as int;
    let phantoms = comp::phantom_fields(ctx, item, n);
    lemma_phantom(ctx, item, n, k);
    let i = choose|i: int| 0 <= i < phantoms.len() && phantoms[i] == comp::phantom_field(ctx, item, k);
    let all = comp::comp_fields(ctx, item);
    assert(all[all.len() - phantoms.len() + i] == phantoms[i]);
}

proof fn lemma_phantom(ctx: BindgenContext, item: Item, n: int, k: int)
    requires
        0 <= k < n <= item.applicable_template_args@.len(),
        !comp::arg_used(ctx, item, item.applicable_template_args@[k]),
    ensures
        comp::phantom_fields(ctx, item, n).contains(comp::phantom_field(ctx, item, k)),
    decreases n,
{
    let all = comp::phantom_fields(ctx, item, n);
    let before = comp::phantom_fields(ctx, item, n - 1);
    if k == n - 1 {
        assert(all[all.len() - 1] == comp::phantom_field(ctx, item, k));
    } else {
        lemma_phantom(ctx, item, n - 1, k);
        let i = choose|i: int|
            0 <= i < before.len() && before[i] == comp::phantom_field(ctx, item, k);
        assert(all[i] == before[i]);
    }
}

/// The methods that come of functions of one name have different names.
pub proof fn law_method_names_distinct(
    ctx: BindgenContext,
    methods: Seq<Method>,
    j: int,
    k: int,
)
    requires
        0 <= j < k < methods.len(),
        !methods[j].is_virtual,
        !methods[k].is_virtual,
        method::function_of(ctx, methods[j]).name@ == method::function_of(ctx, methods[k]).name@,
    ensures
        method::method_name(ctx, methods, j) != method::method_name(ctx, methods, k),
{
    let name = method::function_of(ctx, methods[j]).name@;
    lemma_named_between(ctx, methods, name, j, k);
    lemma_suffix(
        name,
        method::named_before(ctx, methods, k, name),
        method::named_before(ctx, methods, j, name),
    );
}

proof fn lemma_named_between(
    ctx: BindgenContext,
    methods: Seq<Method>,
    name: Seq<char>,
    j: int,
    k: int,
)
    requires
        0 <= j < k <= methods.len(),
        !methods[j].is_virtual,
        method::function_of(ctx, methods[j]).name@ == name,
    ensures
        method::named_before(ctx, methods, j, name) < method::named_before(ctx, methods, k, name),
    decreases k,
{
    if j < k - 1 {
        lemma_named_between(ctx, methods, name, j, k - 1);
    }
}

/// No two variants of a Rust enum have the same value.
pub proof fn law_enum_values_distinct(
    ctx: BindgenContext,
    variants: Seq<EnumVariant>,
    i: int,
    j: int,
)
    requires
        0 <= i < j < enums::rust_variants(ctx, variants, variants.len() as int).len(),
    ensures
        ({
            let all = enums::rust_variants(ctx, variants, variants.len() as int);
            all[i].value != all[j].value
        }),
{
    lemma_rust_variants(ctx, variants, variants.len() as int, i, j);
}

/// Where a variant of a Rust enum comes from.
proof fn lemma_variant_from(ctx: BindgenContext, variants: Seq<EnumVariant>, n: int, i: int) -> (
    k: int)
    requires
        0 <= n <= variants.len(),
        0 <= i < enums::rust_variants(ctx, variants, n).len(),
    ensures
        0 <= k < n,
        enums::rust_variants(ctx, variants, n)[i].value == enums::variant_literal(variants[k].val),
    decreases n,
{
    let before = enums::rust_variants(ctx, variants, n - 1);
    if i < before.len() {
        lemma_variant_from(ctx, variants, n - 1, i)
    } else {
        n - 1
    }
}

proof fn lemma_rust_variants(
    ctx: BindgenContext,
    variants: Seq<EnumVariant>,
    n: int,
    i: int,
    j: int,
)
    requires
        0 <= n <= variants.len(),
        0 <= i < j < enums::rust_variants(ctx, variants, n).len(),
    ensures
        enums::rust_variants(ctx, variants, n)[i].value != enums::rust_variants(
            ctx,
            variants,
            n,
        )[j].value,
    decreases n,
{
    let before = enums::rust_variants(ctx, variants, n - 1);
    if j < before.len() {
        lemma_rust_variants(ctx, variants, n - 1, i, j);
    } else {
        let k = lemma_variant_from(ctx, variants, n - 1, i);
        enums::lemma_first_alike(variants, n - 1);
        assert(variants[k].val != variants[n - 1].val);
    }
}

/// Every value of a C enum is that of a variant of the Rust enum.
pub proof fn law_enum_values_kept(ctx: BindgenContext, variants: Seq<EnumVariant>, k: int)
    requires
        0 <= k < variants.len(),
    ensures
        exists|i: int|
            0 <= i < enums::rust_variants(ctx, variants, variants.len() as int).len() && (
            #[trigger] enums::rust_variants(ctx, variants, variants.len() as int)[i]).value
                == enums::variant_literal(variants[k].val),
{
    enums::lemma_first_alike(variants, k);
    let first = enums::first_alike(variants, k);
    enums::lemma_first_alike(variants, first);
    lemma_first_kept(ctx, variants, variants.len() as int, first);
}

proof fn lemma_first_kept(ctx: BindgenContext, variants: Seq<EnumVariant>, n: int, k: int)
    requires
        0 <= k < n <= variants.len(),
        enums::first_alike(variants, k) == k,
    ensures
        exists|i: int|
            0 <= i < enums::rust_variants(ctx, variants, n).len() && (
            #[trigger] enums::rust_variants(ctx, variants, n)[i]).value == enums::variant_literal(
                variants[k].val,
            ),
    decreases n,
{
    let all = enums::rust_variants(ctx, variants, n);
    let before = enums::rust_variants(ctx, variants, n - 1);
    if k == n - 1 {
        assert(all[all.len() - 1].value == enums::variant_literal(variants[k].val));
    } else {
        lemma_first_kept(ctx, variants, n - 1, k);
        let i = choose|i: int|
            0 <= i < before.len() && (#[trigger] before[i]).value == enums::variant_literal(
                variants[k].val,
            );
        assert(all[i] == before[i]);
    }
}

/// A typedef that repeats the name of what it names gives nothing, nor does
/// one of a type that Rust has under a name of its own.
pub proof fn law_repeated_typedef(
    ctx: BindgenContext,
    st: ResultView,
    id: ItemId,
    spelling: Seq<char>,
    inner: ItemId,
)
    requires
        ctx.item(inner).canonical_name@ == ctx.item(id).canonical_name@
            || types::known_type(spelling) is Some,
    ensures
        alias::gen_alias(ctx, st, id, spelling, inner) == st,
{
}

/// Each id is given once: whatever is generated in between, the tests of two
/// template specializations have different names.
pub proof fn law_ids_distinct(
    ctx: BindgenContext,
    first: ResultView,
    second: ResultView,
    a: ItemId,
    b: ItemId,
)
    requires
        ctx.ty(a).layout is Some,
        ctx.ty(b).layout is Some,
        growth::grows(codegen::gen_specialization(ctx, first, a), second),
    ensures
        ({
            let one = codegen::gen_specialization(ctx, first, a).items.last();
            let other = codegen::gen_specialization(ctx, second, b).items.last();
            &&& one is LayoutTest
            &&& other is LayoutTest
            &&& one->LayoutTest_name != other->LayoutTest_name
        }),
{
    lemma_suffix(
        "__bindgen_test_layout_template_"@,
        first.codegen_id + 1,
        second.codegen_id + 1,
    );
}

/// A method passes on its arguments under the names that it declares them
/// by, and itself as it declares its receiver.
pub proof fn law_method_args(ctx: BindgenContext, m: Method, k: int)
    requires
        method::method_ok(ctx, m),
        !m.is_virtual,
        0 <= k < method::call_args(ctx, m).len(),
    ensures
        method::method_decl(ctx, m).inputs.len() == method::call_args(ctx, m).len(),
        ({
            let declared = method::method_decl(ctx, m).inputs[k];
            match method::call_args(ctx, m)[k] {
                CallArgView::Name(name) => declared.name == name,
                CallArgView::Receiver { mutable } => k == 0 && declared.name == "self"@
                    && declared.ty == TyView::SelfRef { mutable },
            }
        }),
        method::call_args(ctx, m)[k] is Receiver <==> k == 0 && !m.is_static,
{
}

/// An argument that is declared as an array is passed by a pointer to its
/// elements, constant if the array is.
pub proof fn law_array_args(ctx: BindgenContext, id: ItemId, k: int)
    requires
        ctx.converts(id),
        ctx.ty(id).kind is Function,
        0 <= k < ctx.ty(id).kind->Function_0.argument_types@.len(),
        ctx.ty(ctx.ty(id).kind->Function_0.argument_types@[k].1).kind is Array,
    ensures
        ({
            let arg = ctx.ty(id).kind->Function_0.argument_types@[k].1;
            types::sig_decl(ctx, id).decl.inputs[k].ty == TyView::Ptr {
                is_const: ctx.ty(arg).is_const,
                inner: Box::new(types::rust_ty(ctx, ctx.ty(arg).kind->Array_0).ty),
            }
        }),
{
    types::lemma_type_ok(ctx, id);
    types::lemma_sig_ok(ctx, id);
    let arg = ctx.ty(id).kind->Function_0.argument_types@[k].1;
    types::lemma_type_ok(ctx, arg);
}

/// Arguments without a name get different names.
pub proof fn law_unnamed_args_distinct(
    ctx: BindgenContext,
    args: Seq<(Option<String>, ItemId)>,
    j: int,
    k: int,
)
    requires
        0 <= j < k < args.len(),
        args[j].0 is None,
        args[k].0 is None,
    ensures
        types::arg_name(ctx, args, j) != types::arg_name(ctx, args, k),
{
    lemma_unnamed_between(args, j + 1, k + 1);
    lemma_suffix(
        "arg"@,
        types::unnamed_before(args, j + 1),
        types::unnamed_before(args, k + 1),
    );
}

proof fn lemma_unnamed_between(args: Seq<(Option<String>, ItemId)>, j: int, k: int)
    requires
        0 <= j < k <= args.len(),
        args[k - 1].0 is None,
    ensures
        types::unnamed_before(args, j) < types::unnamed_before(args, k),
{
    lemma_unnamed_monotone(args, j, k - 1);
}

proof fn lemma_unnamed_monotone(args: Seq<(Option<String>, ItemId)>, j: int, k: int)
    requires
        0 <= j <= k <= args.len(),
    ensures
        types::unnamed_before(args, j) <= types::unnamed_before(args, k),
    decreases k,
{
    if j < k {
        lemma_unnamed_monotone(args, j, k - 1);
    }
}

/// A pointer to a function is what the function type itself is: functions are
/// pointed to once.
pub proof fn law_function_pointer(ctx: BindgenContext, id: ItemId, inner: ItemId)
    requires
        ctx.converts(id),
        ctx.ty(id).kind == TypeKind::Pointer(inner) || ctx.ty(id).kind == TypeKind::Reference(
            inner,
        ),
        ctx.ty(ctx.ty(inner).canonical_type).kind is Function,
    ensures
        types::rust_ty(ctx, id) == types::rust_ty(ctx, inner),
{
    types::lemma_type_ok(ctx, id);
}

} // verus!
