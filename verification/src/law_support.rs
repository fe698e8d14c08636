//! What the definitions that generated code relies on offer, and what is
//! noted of generated code.
use vstd::prelude::*;

use crate::ast::{ArgView, AttrView, BodyView, ImplItemView, ItemView, OperandView, TyView};
use crate::ir::{BindgenContext, ItemId};
use crate::result::ResultView;
use crate::support;
use crate::words;

verus! {

/// Whether a type is a single name applied to the parameter `T`.
pub open spec fn is_of_parameter(ty: TyView, name: Seq<char>) -> bool {
    &&& ty is Path
    &&& !ty->global
    &&& ty->segments == seq![name]
    &&& ty->args.len() == 1
    &&& words::is_name(ty->args[0], "T"@)
}

/// Whether a type is a path of three names from the root of all crates.
pub open spec fn is_global(ty: TyView, a: Seq<char>, b: Seq<char>, c: Seq<char>) -> bool {
    ty is Path && ty->global && ty->segments == seq![a, b, c] && ty->args.len() == 0
}

/// Whether an argument is a receiver by reference.
pub open spec fn is_receiver(arg: ArgView, mutable: bool) -> bool {
    arg.name == "self"@ && arg.ty is SelfRef && arg.ty->SelfRef_mutable == mutable
}

/// Whether an item implements a trait for `__BindgenUnionField<T>`, for every
/// `T`.
pub open spec fn implements(
    item: ItemView,
    a: Seq<char>,
    b: Seq<char>,
    c: Seq<char>,
    functions: nat,
) -> bool {
    &&& item is Impl
    &&& item->of_trait matches Some(path) && is_global(path, a, b, c)
    &&& item->Impl_generics == seq!["T"@]
    &&& is_of_parameter(item->for_ty, "__BindgenUnionField"@)
    &&& item->impl_items.len() == functions
}

/// Whether a function has a result, and no variable arguments.
pub open spec fn is_function(
    f: ImplItemView,
    name: Seq<char>,
    is_pub: bool,
    is_unsafe: bool,
    inline: bool,
    arguments: nat,
) -> bool {
    &&& f is Fn
    &&& f->Fn_name == name
    &&& f->Fn_attrs == if inline {
        seq![AttrView::Inline]
    } else {
        seq![]
    }
    &&& f->Fn_is_pub == is_pub
    &&& f->Fn_is_unsafe == is_unsafe
    &&& f->Fn_decl.inputs.len() == arguments
    &&& f->Fn_decl.output is Some
    &&& !f->Fn_decl.variadic
}

/// Whether a body calls a path on nothing, or on one argument.
pub open spec fn calls(
    body: BodyView,
    global: bool,
    path: Seq<Seq<char>>,
    argument: Option<OperandView>,
) -> bool {
    &&& body is Call
    &&& body->global == global
    &&& body->segments == path
    &&& match argument {
        Some(operand) => body->Call_args == seq![operand],
        None => body->Call_args.len() == 0,
    }
}

/// Whether a function turns a reference to the type into one to `T`.
pub open spec fn transmutes(
    f: ImplItemView,
    prefix: Seq<char>,
    name: Seq<char>,
    mutable: bool,
) -> bool {
    &&& is_function(f, name, true, true, true, 1)
    &&& is_receiver(f->Fn_decl.inputs[0], mutable)
    &&& f->Fn_decl.output->0 is Ref
    &&& f->Fn_decl.output->0->Ref_mutable == mutable
    &&& words::is_name(*f->Fn_decl.output->0->Ref_inner, "T"@)
    &&& calls(
        f->body,
        true,
        seq![prefix, "mem"@, "transmute"@],
        Some(OperandView::Path { global: false, segments: seq!["self"@] }),
    )
}

/// Whether a function is `Self::new()`.
pub open spec fn makes_new(f: ImplItemView, name: Seq<char>, arguments: nat) -> bool {
    &&& is_function(f, name, false, false, true, arguments)
    &&& words::is_name(f->Fn_decl.output->0, "Self"@)
    &&& calls(f->body, false, seq!["Self"@, "new"@], None)
}

/// `__BindgenUnionField<T>` is laid out as in C, and only marks its `T` under
/// the prefix of the standard library. It can be made, taken for its `T` by
/// reference, copied, cloned, defaulted and printed.
pub proof fn law_union_types(ctx: BindgenContext)
    ensures
        support::union_types(ctx).len() == 6,
        ({
            let def = support::union_types(ctx)[0];
            &&& def is TupleStruct
            &&& def->TupleStruct_name == "__BindgenUnionField"@
            &&& def->TupleStruct_attrs == seq![AttrView::Repr(seq!["C"@])]
            &&& def->TupleStruct_generics == seq!["T"@]
            &&& !def->field_is_pub
            &&& def->field is Path
            &&& def->field->global
            &&& def->field->segments == seq![ctx.trait_prefix@, "marker"@, "PhantomData"@]
            &&& def->field->args.len() == 1
            &&& words::is_name(def->field->args[0], "T"@)
        }),
        ({
            let methods = support::union_types(ctx)[1];
            let new = methods->impl_items[0];
            &&& methods is Impl
            &&& methods->of_trait is None
            &&& methods->Impl_generics == seq!["T"@]
            &&& is_of_parameter(methods->for_ty, "__BindgenUnionField"@)
            &&& methods->impl_items.len() == 3
            &&& is_function(new, "new"@, true, false, true, 0)
            &&& words::is_name(new->Fn_decl.output->0, "Self"@)
            &&& calls(
                new->body,
                false,
                seq!["__BindgenUnionField"@],
                Some(
                    OperandView::Path {
                        global: true,
                        segments: seq![ctx.trait_prefix@, "marker"@, "PhantomData"@],
                    },
                ),
            )
            &&& transmutes(methods->impl_items[1], ctx.trait_prefix@, "as_ref"@, false)
            &&& transmutes(methods->impl_items[2], ctx.trait_prefix@, "as_mut"@, true)
        }),
        ({
            let def = support::union_types(ctx)[2];
            &&& implements(def, ctx.trait_prefix@, "default"@, "Default"@, 1)
            &&& makes_new(def->impl_items[0], "default"@, 0)
        }),
        ({
            let def = support::union_types(ctx)[3];
            &&& implements(def, ctx.trait_prefix@, "clone"@, "Clone"@, 1)
            &&& makes_new(def->impl_items[0], "clone"@, 1)
            &&& is_receiver(def->impl_items[0]->Fn_decl.inputs[0], false)
        }),
        implements(support::union_types(ctx)[4], ctx.trait_prefix@, "marker"@, "Copy"@, 0),
        ({
            let def = support::union_types(ctx)[5];
            let fmt = def->impl_items[0];
            &&& implements(def, "std"@, "fmt"@, "Debug"@, 1)
            &&& is_function(fmt, "fmt"@, false, false, false, 2)
            &&& is_receiver(fmt->Fn_decl.inputs[0], false)
            &&& fmt->Fn_decl.inputs[1].name == "fmt"@
            &&& fmt->Fn_decl.inputs[1].ty is Ref
            &&& fmt->Fn_decl.inputs[1].ty->Ref_mutable
            &&& is_global(
                *fmt->Fn_decl.inputs[1].ty->Ref_inner,
                "std"@,
                "fmt"@,
                "Formatter"@,
            )
            &&& is_global(fmt->Fn_decl.output->0, "std"@, "fmt"@, "Result"@)
            &&& fmt->body is MethodCall
            &&& fmt->body->receiver == "fmt"@
            &&& fmt->body->method == "write_str"@
            &&& fmt->body->MethodCall_args == seq![OperandView::Text("__BindgenUnionField"@)]
        }),
{
    assert(support::union_field_struct(ctx)->TupleStruct_attrs =~= seq![
        AttrView::Repr(seq!["C"@]),
    ]);
}

/// `__BindgenComplex<T>` is laid out as in C, with the real part before the
/// imaginary part, both open to everyone, and derives what a number has.
pub proof fn law_complex_type()
    ensures
        ({
            let def = support::complex_type();
            &&& def is Struct
            &&& def->Struct_name == "__BindgenComplex"@
            &&& def->Struct_generics == seq!["T"@]
            &&& def->Struct_attrs.len() == 2
            &&& def->Struct_attrs[0] == AttrView::Derive(
                seq!["PartialEq"@, "Copy"@, "Clone"@, "Hash"@, "Debug"@, "Default"@],
            )
            &&& def->Struct_attrs[1] == AttrView::Repr(seq!["C"@])
            &&& def->Struct_fields.len() == 2
            &&& def->Struct_fields[0].name == "re"@
            &&& def->Struct_fields[1].name == "im"@
            &&& forall|k: int|
                0 <= k < 2 ==> {
                    let part = #[trigger] def->Struct_fields[k];
                    part.is_pub && part.attrs.len() == 0 && words::is_name(part.ty, "T"@)
                }
        }),
{
}

/// Whether two results agree in all but their items, the declarations seen,
/// and whether complex numbers occurred.
pub open spec fn agrees(a: ResultView, b: ResultView) -> bool {
    &&& a.codegen_id == b.codegen_id
    &&& a.saw_union == b.saw_union
    &&& a.functions_seen == b.functions_seen
    &&& a.vars_seen == b.vars_seen
    &&& a.overload_counters == b.overload_counters
}

/// To add an item puts it behind all others, to take note of a declaration
/// adds it to those seen, and complex numbers that occurred stay noted: each
/// leaves all else alone.
pub proof fn law_noted(st: ResultView, item: ItemView, id: ItemId, complex: bool)
    ensures
        ({
            let after = st.push(item);
            &&& agrees(after, st)
            &&& after.items_seen == st.items_seen
            &&& after.needs_complex == st.needs_complex
            &&& after.items.len() == st.items.len() + 1
            &&& after.items.last() == item
            &&& after.items.drop_last() == st.items
        }),
        ({
            let after = st.with_seen(id);
            &&& agrees(after, st)
            &&& after.items == st.items
            &&& after.needs_complex == st.needs_complex
            &&& forall|n: usize| #[trigger]
                after.items_seen.contains(n) <==> st.items_seen.contains(n) || n == id.0
        }),
        ({
            let after = st.with_complex(complex);
            &&& agrees(after, st)
            &&& after.items == st.items
            &&& after.items_seen == st.items_seen
            &&& after.needs_complex <==> st.needs_complex || complex
        }),
{
    assert(st.push(item).items.drop_last() =~= st.items);
}

/// The inside of a module starts with nothing generated and nothing seen, and
/// goes on with the ids given and the complex numbers noted outside.
pub proof fn law_fresh(codegen_id: nat, needs_complex: bool)
    ensures
        ({
            let st = ResultView::fresh(codegen_id, needs_complex);
            &&& st.items.len() == 0
            &&& st.codegen_id == codegen_id
            &&& !st.saw_union
            &&& st.needs_complex == needs_complex
            &&& forall|n: usize| !#[trigger] st.items_seen.contains(n)
            &&& forall|name: Seq<char>| !#[trigger] st.functions_seen.contains(name)
            &&& forall|name: Seq<char>| !#[trigger] st.vars_seen.contains(name)
            &&& forall|name: Seq<char>| !#[trigger] st.overload_counters.dom().contains(name)
        }),
{
}

} // verus!
