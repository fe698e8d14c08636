//! What variables and functions are declared as, and what they link to.
use vstd::prelude::*;

use crate::ast::{
    Abi, AttrView, ForeignItemKindView, ForeignItemView, ItemView, LiteralView, TyView,
};
use crate::foreign;
use crate::ir::{BindgenContext, Function, ItemId, Var, VarType};
use crate::result::ResultView;
use crate::types;
use crate::words;

verus! {

/// Whether generating added one item to what there was.
pub open spec fn adds_one(before: ResultView, after: ResultView) -> bool {
    &&& after.items.len() == before.items.len() + 1
    &&& forall|k: int| 0 <= k < before.items.len() ==> #[trigger] after.items[k] == before.items[k]
}

/// The only declaration of a foreign module.
pub open spec fn only_declaration(item: ItemView) -> ForeignItemView {
    item->foreign_items[0]
}

/// Whether an item is a foreign module of one declaration.
pub open spec fn is_one_declaration(item: ItemView, abi: Abi) -> bool {
    item is ForeignMod && item->ForeignMod_abi == abi && item->foreign_items.len() == 1
}

/// The symbol that a declaration has in C: its mangled name, or else its own.
pub open spec fn c_symbol(mangled: Option<String>, name: String) -> Seq<char> {
    match mangled {
        Some(symbol) => symbol@,
        None => name@,
    }
}

/// How many attributes say what a declaration links to: one, unless it has no
/// mangled name and is known under its own.
pub open spec fn link_count(mangled: Option<String>, name: String, canonical: Seq<char>) -> nat {
    if mangled is None && name@ == canonical {
        0
    } else {
        1
    }
}

proof fn lemma_linked(
    declared: ForeignItemView,
    docs: Seq<AttrView>,
    mangled: Option<String>,
    name: String,
    canonical: Seq<char>,
)
    requires
        declared.attrs == docs + foreign::link_attrs(mangled, name@, canonical),
        forall|k: int| 0 <= k < docs.len() ==> !(#[trigger] docs[k] is LinkName),
        mangled is None && name@ == canonical ==> declared.name == canonical,
    ensures
        words::linked_symbol(declared) == c_symbol(mangled, name),
{
    let links = foreign::link_attrs(mangled, name@, canonical);
    let attrs = declared.attrs;
    if links.len() > 0 {
        assert(attrs[docs.len() as int] == links[0]);
        assert(attrs[docs.len() as int] is LinkName);
        let k = choose|k: int| 0 <= k < attrs.len() && #[trigger] attrs[k] is LinkName;
        if k < docs.len() {
            assert(attrs[k] == docs[k]);
        }
    } else {
        assert forall|k: int| 0 <= k < attrs.len() implies !(#[trigger] attrs[k] is LinkName) by {
            assert(attrs[k] == docs[k]);
        }
    }
}

/// A variable without a known value is declared under its canonical name, of
/// its type, mutable unless it is constant, and links to its symbol: the
/// mangled name if it has one, else its own name.
pub proof fn law_static(ctx: BindgenContext, st: ResultView, id: ItemId, var: Var)
    requires
        ctx.item(id).kind->Var_0 == var,
        var.val is None,
        !st.vars_seen.contains(ctx.item(id).canonical_name@),
    ensures
        ({
            let after = foreign::gen_var(ctx, st, id);
            let declared = only_declaration(after.items.last());
            &&& adds_one(st, after)
            &&& is_one_declaration(after.items.last(), Abi::C)
            &&& declared.name == ctx.item(id).canonical_name@
            &&& words::linked_symbol(declared) == c_symbol(var.mangled_name, var.name)
            &&& declared.attrs.len() == link_count(
                var.mangled_name,
                var.name,
                ctx.item(id).canonical_name@,
            )
            &&& declared.kind is Static
            &&& declared.kind->ty == types::rust_ty(ctx, var.ty).ty
            &&& declared.kind->mutable <==> !var.is_const
        }),
{
    let after = foreign::gen_var(ctx, st, id);
    let declared = only_declaration(after.items.last());
    let links = foreign::link_attrs(
        var.mangled_name,
        var.name@,
        ctx.item(id).canonical_name@,
    );
    assert(declared.attrs =~= Seq::<AttrView>::empty() + links);
    lemma_linked(declared, seq![], var.mangled_name, var.name, ctx.item(id).canonical_name@);
}

/// Whether a type is an array of so many bytes.
pub open spec fn is_bytes(ty: TyView, len: nat) -> bool {
    ty is Array && words::is_name(*ty->elem, "u8"@) && ty->len == len
}

/// A variable of a known value is a constant of its canonical name, its type
/// and that value. A string takes a byte more than it has, for its trailing
/// zero: by a reference if it is text, else as an array.
pub proof fn law_constant(ctx: BindgenContext, st: ResultView, id: ItemId, var: Var, val: VarType)
    requires
        ctx.item(id).kind->Var_0 == var,
        var.val == Some(val),
        !st.vars_seen.contains(ctx.item(id).canonical_name@),
    ensures
        ({
            let after = foreign::gen_var(ctx, st, id);
            let got = after.items.last();
            &&& adds_one(st, after)
            &&& got is Const
            &&& got->Const_name == ctx.item(id).canonical_name@
            &&& got->value is Literal
            &&& !(val is String) ==> got->Const_ty == types::rust_ty(ctx, var.ty).ty
            &&& match val {
                VarType::Bool(b) => got->value->Literal_0 == LiteralView::Bool(b),
                VarType::Int(v) => got->value->Literal_0 == LiteralView::Int(v),
                VarType::Float(bits) => got->value->Literal_0 == LiteralView::Float(bits),
                VarType::Char(c) => got->value->Literal_0 == LiteralView::Byte(c),
                VarType::String(bytes) => if vstd::utf8::valid_utf8(bytes@) {
                    &&& got->Const_ty is StaticRef
                    &&& is_bytes(*got->Const_ty->StaticRef_inner, bytes@.len() + 1)
                    &&& got->value->Literal_0 == LiteralView::CStr(
                        vstd::utf8::decode_utf8(bytes@),
                    )
                } else {
                    &&& is_bytes(got->Const_ty, bytes@.len() + 1)
                    &&& got->value->Literal_0 == LiteralView::Bytes(bytes@)
                },
            }
        }),
{
}

/// A variable is declared if and only if none of its name was, and then none
/// of its name is again. Nothing else is taken note of, but for complex
/// numbers.
pub proof fn law_var_noted(ctx: BindgenContext, st: ResultView, id: ItemId)
    ensures
        ({
            let name = ctx.item(id).canonical_name@;
            let after = foreign::gen_var(ctx, st, id);
            &&& st.vars_seen.contains(name) ==> after == st
            &&& !st.vars_seen.contains(name) ==> {
                &&& adds_one(st, after)
                &&& after.vars_seen == st.vars_seen.insert(name)
                &&& after.needs_complex <==> st.needs_complex || types::rust_ty(
                    ctx,
                    ctx.item(id).kind->Var_0.ty,
                ).complex
            }
            &&& after.functions_seen == st.functions_seen
            &&& after.items_seen == st.items_seen
            &&& after.overload_counters == st.overload_counters
            &&& after.codegen_id == st.codegen_id
            &&& after.saw_union == st.saw_union
        }),
{
}

/// Whether a function was declared before, by its mangled name or else its
/// canonical one.
pub open spec fn was_declared(
    st: ResultView,
    function: Function,
    canonical: Seq<char>,
) -> bool {
    match function.mangled_name {
        Some(symbol) => st.functions_seen.contains(symbol@),
        None => st.functions_seen.contains(canonical),
    }
}

/// A function is declared with its own ABI, arguments and result, under its
/// canonical name, followed by the number of functions of that name before
/// it, if there are any.
pub proof fn law_function(ctx: BindgenContext, st: ResultView, id: ItemId, function: Function)
    requires
        ctx.item(id).kind->Function_0 == function,
        !was_declared(st, function, ctx.item(id).canonical_name@),
    ensures
        ({
            let canonical = ctx.item(id).canonical_name@;
            let before = st.overloads(canonical);
            let after = foreign::gen_function(ctx, st, id);
            let declared = only_declaration(after.items.last());
            &&& adds_one(st, after)
            &&& is_one_declaration(
                after.items.last(),
                ctx.ty(function.signature).kind->Function_0.abi,
            )
            &&& before == 0 ==> declared.name == canonical
            &&& before > 0 ==> words::is_numbered(declared.name, canonical, before)
            &&& declared.kind == ForeignItemKindView::Fn(
                types::sig_decl(ctx, function.signature).decl,
            )
            &&& words::has_comment(declared.attrs, ctx.item(id).comment)
            &&& declared.attrs.len() == words::comment_count(ctx.item(id).comment) + link_count(
                function.mangled_name,
                function.name,
                canonical,
            )
            &&& link_count(function.mangled_name, function.name, canonical) > 0
                ==> declared.attrs.last() is LinkName
        }),
{
    let canonical = ctx.item(id).canonical_name@;
    let before = st.overloads(canonical);
    words::lemma_numbered(canonical, before);
    let declared = only_declaration(foreign::gen_function(ctx, st, id).items.last());
    if ctx.item(id).comment is Some {
        assert(declared.attrs[0] is Doc);
    }
}

/// A function links to its symbol: the mangled name if it has one, else its
/// own name. Left out are functions without a mangled name that are known
/// under their own name and overloaded, which C does not have.
pub proof fn law_function_linked(
    ctx: BindgenContext,
    st: ResultView,
    id: ItemId,
    function: Function,
)
    requires
        ctx.item(id).kind->Function_0 == function,
        !was_declared(st, function, ctx.item(id).canonical_name@),
        function.mangled_name is Some || function.name@ != ctx.item(id).canonical_name@
            || st.overloads(ctx.item(id).canonical_name@) == 0,
    ensures
        words::linked_symbol(
            only_declaration(foreign::gen_function(ctx, st, id).items.last()),
        ) == c_symbol(function.mangled_name, function.name),
{
    let declared = only_declaration(foreign::gen_function(ctx, st, id).items.last());
    let docs = crate::helpers::doc_attrs(ctx.item(id).comment);
    lemma_linked(
        declared,
        docs,
        function.mangled_name,
        function.name,
        ctx.item(id).canonical_name@,
    );
}

/// A function is declared if and only if none of its symbol was, and then it
/// is counted as one more of its name. Nothing else is taken note of, but for
/// complex numbers.
pub proof fn law_function_noted(ctx: BindgenContext, st: ResultView, id: ItemId)
    requires
        st.overloads(ctx.item(id).canonical_name@) < u32::MAX,
    ensures
        ({
            let function = ctx.item(id).kind->Function_0;
            let canonical = ctx.item(id).canonical_name@;
            let after = foreign::gen_function(ctx, st, id);
            &&& was_declared(st, function, canonical) ==> after == st
            &&& !was_declared(st, function, canonical) ==> {
                &&& adds_one(st, after)
                &&& was_declared(after, function, canonical)
                &&& after.overloads(canonical) == st.overloads(canonical) + 1
                &&& after.needs_complex <==> st.needs_complex || types::sig_decl(
                    ctx,
                    function.signature,
                ).complex
            }
            &&& forall|other: Seq<char>|
                other != canonical ==> #[trigger] after.overloads(other) == st.overloads(other)
            &&& forall|other: Seq<char>|
                other != canonical && !(function.mangled_name is Some && other
                    == function.mangled_name->0@) ==> #[trigger] after.functions_seen.contains(
                    other,
                ) == st.functions_seen.contains(other)
            &&& after.vars_seen == st.vars_seen
            &&& after.items_seen == st.items_seen
            &&& after.codegen_id == st.codegen_id
            &&& after.saw_union == st.saw_union
        }),
{
}

} // verus!
