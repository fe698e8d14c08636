//! Definitions that generated code relies on, and the import of the root
//! module.
use vstd::prelude::*;

use crate::ast;
use crate::ast::{
    Arg, ArgView, Attr, AttrView, Body, BodyView, FnDecl, FnDeclView, ImplItem, ImplItemView,
    ItemView, Operand, OperandView, StructField, StructFieldView, Ty, TyView,
};
use crate::helpers;
use crate::helpers::{list1, list2, list3, marker, ty_applied, ty_named, ty_path};
use crate::ir::{BindgenContext, Item, ItemId};

verus! {

/// A global path without generic arguments.
pub open spec fn global_path(a: Seq<char>, b: Seq<char>, c: Seq<char>) -> TyView {
    TyView::Path { global: true, segments: seq![a, b, c], args: seq![] }
}

/// `__BindgenUnionField<T>`.
pub open spec fn union_field_ty() -> TyView {
    TyView::Path {
        global: false,
        segments: seq!["__BindgenUnionField"@],
        args: seq![helpers::named_ty("T"@)],
    }
}

/// A `&self` or a `&mut self` receiver.
pub open spec fn receiver_arg(mutable: bool) -> ArgView {
    ArgView { name: "self"@, ty: TyView::SelfRef { mutable } }
}

/// A function that returns what its body calls.
pub open spec fn returning(
    name: Seq<char>,
    attrs: Seq<AttrView>,
    is_pub: bool,
    is_unsafe: bool,
    inputs: Seq<ArgView>,
    output: TyView,
    body: BodyView,
) -> ImplItemView {
    ImplItemView::Fn {
        name,
        attrs,
        is_pub,
        is_unsafe,
        decl: FnDeclView { inputs, output: Some(output), variadic: false },
        body,
    }
}

/// The struct `__BindgenUnionField<T>`: laid out as in C, with a marker for
/// `T` as its only field.
pub open spec fn union_field_struct(ctx: BindgenContext) -> ItemView {
    ItemView::TupleStruct {
        name: "__BindgenUnionField"@,
        attrs: seq![AttrView::Repr(seq!["C"@])],
        generics: seq!["T"@],
        field: helpers::marker_ty(ctx, helpers::named_ty("T"@)),
        field_is_pub: false,
    }
}

/// An `impl` block for `__BindgenUnionField<T>`, for any `T`.
pub open spec fn union_field_impl(of_trait: Option<TyView>, impl_items: Seq<ImplItemView>)
    -> ItemView {
    ItemView::Impl { of_trait, generics: seq!["T"@], for_ty: union_field_ty(), impl_items }
}

/// `new`: the struct with its marker.
pub open spec fn new_fn(ctx: BindgenContext) -> ImplItemView {
    returning(
        "new"@,
        seq![AttrView::Inline],
        true,
        false,
        seq![],
        helpers::named_ty("Self"@),
        BodyView::Call {
            global: false,
            segments: seq!["__BindgenUnionField"@],
            args: seq![
                OperandView::Path {
                    global: true,
                    segments: seq![ctx.trait_prefix@, "marker"@, "PhantomData"@],
                },
            ],
        },
    )
}

/// `as_ref` and `as_mut`: the struct taken for a `T`.
pub open spec fn transmuting_fn(ctx: BindgenContext, name: Seq<char>, mutable: bool)
    -> ImplItemView {
    returning(
        name,
        seq![AttrView::Inline],
        true,
        true,
        seq![receiver_arg(mutable)],
        TyView::Ref { mutable, inner: Box::new(helpers::named_ty("T"@)) },
        BodyView::Call {
            global: true,
            segments: seq![ctx.trait_prefix@, "mem"@, "transmute"@],
            args: seq![OperandView::Path { global: false, segments: seq!["self"@] }],
        },
    )
}

/// A function of a trait that returns `Self::new()`.
pub open spec fn by_new_fn(name: Seq<char>, inputs: Seq<ArgView>) -> ImplItemView {
    returning(
        name,
        seq![AttrView::Inline],
        false,
        false,
        inputs,
        helpers::named_ty("Self"@),
        BodyView::Call { global: false, segments: seq!["Self"@, "new"@], args: seq![] },
    )
}

/// `fmt`, which writes the name of the struct.
pub open spec fn fmt_fn() -> ImplItemView {
    returning(
        "fmt"@,
        seq![],
        false,
        false,
        seq![
            receiver_arg(false),
            ArgView {
                name: "fmt"@,
                ty: TyView::Ref {
                    mutable: true,
                    inner: Box::new(global_path("std"@, "fmt"@, "Formatter"@)),
                },
            },
        ],
        global_path("std"@, "fmt"@, "Result"@),
        BodyView::MethodCall {
            receiver: "fmt"@,
            method: "write_str"@,
            args: seq![OperandView::Text("__BindgenUnionField"@)],
        },
    )
}

/// `new`, `as_ref` and `as_mut`.
pub open spec fn methods_impl(ctx: BindgenContext) -> ItemView {
    union_field_impl(
        None,
        seq![
            new_fn(ctx),
            transmuting_fn(ctx, "as_ref"@, false),
            transmuting_fn(ctx, "as_mut"@, true),
        ],
    )
}

/// `Default`, by `new`.
pub open spec fn default_impl(ctx: BindgenContext) -> ItemView {
    union_field_impl(
        Some(global_path(ctx.trait_prefix@, "default"@, "Default"@)),
        seq![by_new_fn("default"@, seq![])],
    )
}

/// `Clone`, by `new`.
pub open spec fn clone_impl(ctx: BindgenContext) -> ItemView {
    union_field_impl(
        Some(global_path(ctx.trait_prefix@, "clone"@, "Clone"@)),
        seq![by_new_fn("clone"@, seq![receiver_arg(false)])],
    )
}

/// `Copy`.
pub open spec fn copy_impl(ctx: BindgenContext) -> ItemView {
    union_field_impl(Some(global_path(ctx.trait_prefix@, "marker"@, "Copy"@)), seq![])
}

/// `Debug`, by `fmt`.
pub open spec fn debug_impl() -> ItemView {
    union_field_impl(Some(global_path("std"@, "fmt"@, "Debug"@)), seq![fmt_fn()])
}

/// The definition of `__BindgenUnionField<T>`, the type that stands for a
/// field of a union where unions are emulated by structs.
pub open spec fn union_types(ctx: BindgenContext) -> Seq<ItemView> {
    seq![
        union_field_struct(ctx),
        methods_impl(ctx),
        default_impl(ctx),
        clone_impl(ctx),
        copy_impl(ctx),
        debug_impl(),
    ]
}

/// The definition of `__BindgenComplex<T>`, the type of complex numbers.
pub open spec fn complex_type() -> ItemView {
    ItemView::Struct {
        name: "__BindgenComplex"@,
        attrs: seq![
            AttrView::Derive(
                seq!["PartialEq"@, "Copy"@, "Clone"@, "Hash"@, "Debug"@, "Default"@],
            ),
            AttrView::Repr(seq!["C"@]),
        ],
        generics: seq!["T"@],
        fields: seq![
            StructFieldView {
                name: "re"@,
                is_pub: true,
                attrs: seq![],
                ty: helpers::named_ty("T"@),
            },
            StructFieldView {
                name: "im"@,
                is_pub: true,
                attrs: seq![],
                ty: helpers::named_ty("T"@),
            },
        ],
    }
}

fn path3(a: &str, b: &str, c: &str) -> (t: Ty)
    ensures
        t@ == global_path(a@, b@, c@),
{
    ty_path(true, list3(a, b, c))
}

fn receiver(mutable: bool) -> (arg: Arg)
    ensures
        arg@ == receiver_arg(mutable),
{
    Arg { name: "self".to_owned(), ty: Ty::SelfRef { mutable } }
}

fn no_args() -> (inputs: Vec<Arg>)
    ensures
        inputs.deep_view() == Seq::<ArgView>::empty(),
{
    let inputs: Vec<Arg> = Vec::new();
    assert(inputs.deep_view() =~= seq![]);
    inputs
}

fn one_arg(arg: Arg) -> (inputs: Vec<Arg>)
    ensures
        inputs.deep_view() == seq![arg@],
{
    let mut inputs: Vec<Arg> = Vec::new();
    inputs.push(arg);
    assert(inputs.deep_view() =~= seq![arg@]);
    inputs
}

fn one_operand(operand: Operand) -> (args: Vec<Operand>)
    ensures
        args.deep_view() == seq![operand@],
{
    let mut args: Vec<Operand> = Vec::new();
    args.push(operand);
    assert(args.deep_view() =~= seq![operand@]);
    args
}

fn one_item(item: ImplItem) -> (items: Vec<ImplItem>)
    ensures
        items.deep_view() == seq![item@],
{
    let mut items: Vec<ImplItem> = Vec::new();
    items.push(item);
    assert(items.deep_view() =~= seq![item@]);
    items
}

/// An inlined function that returns what its body calls.
fn inlined(
    name: &str,
    is_pub: bool,
    is_unsafe: bool,
    inputs: Vec<Arg>,
    output: Ty,
    body: Body,
) -> (item: ImplItem)
    ensures
        item@ == returning(
            name@,
            seq![AttrView::Inline],
            is_pub,
            is_unsafe,
            inputs.deep_view(),
            output@,
            body@,
        ),
{
    let mut attrs: Vec<Attr> = Vec::new();
    attrs.push(Attr::Inline);
    assert(attrs.deep_view() =~= seq![AttrView::Inline]);
    let decl = FnDecl { inputs, output: Some(output), variadic: false };
    proof {
        ast::lemma_fn_decl_view(decl);
    }
    ImplItem::Fn { name: name.to_owned(), attrs, is_pub, is_unsafe, decl, body }
}

fn new_item(ctx: &BindgenContext) -> (item: ImplItem)
    ensures
        item@ == new_fn(*ctx),
{
    let marker = Operand::Path {
        global: true,
        segments: list3(ctx.trait_prefix.as_str(), "marker", "PhantomData"),
    };
    let body = Body::Call {
        global: false,
        segments: list1("__BindgenUnionField"),
        args: one_operand(marker),
    };
    inlined("new", true, false, no_args(), ty_named("Self"), body)
}

fn transmuting_item(ctx: &BindgenContext, name: &str, mutable: bool) -> (item: ImplItem)
    ensures
        item@ == transmuting_fn(*ctx, name@, mutable),
{
    let body = Body::Call {
        global: true,
        segments: list3(ctx.trait_prefix.as_str(), "mem", "transmute"),
        args: one_operand(Operand::Path { global: false, segments: list1("self") }),
    };
    let output = Ty::Ref { mutable, inner: Box::new(ty_named("T")) };
    inlined(name, true, true, one_arg(receiver(mutable)), output, body)
}

fn by_new_item(name: &str, inputs: Vec<Arg>) -> (item: ImplItem)
    ensures
        item@ == by_new_fn(name@, inputs.deep_view()),
{
    let args: Vec<Operand> = Vec::new();
    assert(args.deep_view() =~= seq![]);
    let body = Body::Call { global: false, segments: list2("Self", "new"), args };
    inlined(name, false, false, inputs, ty_named("Self"), body)
}

fn fmt_item() -> (item: ImplItem)
    ensures
        item@ == fmt_fn(),
{
    let formatter = Ty::Ref {
        mutable: true,
        inner: Box::new(path3("std", "fmt", "Formatter")),
    };
    let mut inputs = one_arg(receiver(false));
    let fmt = Arg { name: "fmt".to_owned(), ty: formatter };
    let ghost before = inputs.deep_view();
    inputs.push(fmt);
    assert(inputs.deep_view() =~= before.push(fmt@));
    assert(inputs.deep_view() =~= seq![receiver_arg(false), fmt@]);
    let decl = FnDecl {
        inputs,
        output: Some(path3("std", "fmt", "Result")),
        variadic: false,
    };
    proof {
        ast::lemma_fn_decl_view(decl);
    }
    let body = Body::MethodCall {
        receiver: "fmt".to_owned(),
        method: "write_str".to_owned(),
        args: one_operand(Operand::Text("__BindgenUnionField".to_owned())),
    };
    let attrs: Vec<Attr> = Vec::new();
    assert(attrs.deep_view() =~= seq![]);
    ImplItem::Fn {
        name: "fmt".to_owned(),
        attrs,
        is_pub: false,
        is_unsafe: false,
        decl,
        body,
    }
}

fn impl_block(of_trait: Option<Ty>, impl_items: Vec<ImplItem>) -> (item: ast::Item)
    ensures
        item@ == union_field_impl(of_trait.deep_view(), impl_items.deep_view()),
{
    ast::Item::Impl {
        of_trait,
        generics: list1("T"),
        for_ty: ty_applied(false, list1("__BindgenUnionField"), ty_named("T")),
        impl_items,
    }
}

fn repr_c() -> (attr: Attr)
    ensures
        attr@ == AttrView::Repr(seq!["C"@]),
{
    Attr::Repr(list1("C"))
}

fn struct_item(ctx: &BindgenContext) -> (item: ast::Item)
    ensures
        item@ == union_field_struct(*ctx),
{
    let mut attrs: Vec<Attr> = Vec::new();
    attrs.push(repr_c());
    assert(attrs.deep_view() =~= seq![AttrView::Repr(seq!["C"@])]);
    ast::Item::TupleStruct {
        name: "__BindgenUnionField".to_owned(),
        attrs,
        generics: list1("T"),
        field: marker(ctx, ty_named("T")),
        field_is_pub: false,
    }
}

fn add_fn(items: &mut Vec<ImplItem>, item: ImplItem)
    ensures
        final(items).deep_view() == old(items).deep_view().push(item@),
{
    items.push(item);
    assert(items.deep_view() =~= old(items).deep_view().push(item@));
}

fn add_item(items: &mut Vec<ast::Item>, item: ast::Item)
    ensures
        final(items).deep_view() == old(items).deep_view().push(item@),
{
    items.push(item);
    assert(items.deep_view() =~= old(items).deep_view().push(item@));
}

fn methods_item(ctx: &BindgenContext) -> (item: ast::Item)
    ensures
        item@ == methods_impl(*ctx),
{
    let mut methods = one_item(new_item(ctx));
    add_fn(&mut methods, transmuting_item(ctx, "as_ref", false));
    add_fn(&mut methods, transmuting_item(ctx, "as_mut", true));
    assert(methods.deep_view() =~= seq![
        new_fn(*ctx),
        transmuting_fn(*ctx, "as_ref"@, false),
        transmuting_fn(*ctx, "as_mut"@, true),
    ]);
    impl_block(None, methods)
}

fn default_item(ctx: &BindgenContext) -> (item: ast::Item)
    ensures
        item@ == default_impl(*ctx),
{
    impl_block(
        Some(path3(ctx.trait_prefix.as_str(), "default", "Default")),
        one_item(by_new_item("default", no_args())),
    )
}

fn clone_item(ctx: &BindgenContext) -> (item: ast::Item)
    ensures
        item@ == clone_impl(*ctx),
{
    impl_block(
        Some(path3(ctx.trait_prefix.as_str(), "clone", "Clone")),
        one_item(by_new_item("clone", one_arg(receiver(false)))),
    )
}

fn copy_item(ctx: &BindgenContext) -> (item: ast::Item)
    ensures
        item@ == copy_impl(*ctx),
{
    let nothing: Vec<ImplItem> = Vec::new();
    assert(nothing.deep_view() =~= seq![]);
    impl_block(Some(path3(ctx.trait_prefix.as_str(), "marker", "Copy")), nothing)
}

fn debug_item() -> (item: ast::Item)
    ensures
        item@ == debug_impl(),
{
    impl_block(Some(path3("std", "fmt", "Debug")), one_item(fmt_item()))
}

/// Puts the definition of `__BindgenUnionField<T>` before the items.
pub fn prepend_union_types(ctx: &BindgenContext, result: &mut Vec<ast::Item>)
    ensures
        final(result).deep_view() == union_types(*ctx) + old(result).deep_view(),
{
    let mut items: Vec<ast::Item> = Vec::new();
    assert(items.deep_view() =~= seq![]);
    add_item(&mut items, struct_item(ctx));
    add_item(&mut items, methods_item(ctx));
    add_item(&mut items, default_item(ctx));
    add_item(&mut items, clone_item(ctx));
    add_item(&mut items, copy_item(ctx));
    add_item(&mut items, debug_item());
    assert(items.deep_view() =~= union_types(*ctx));
    let ghost added = items.deep_view();
    items.append(result);
    assert(items.deep_view() =~= added + old(result).deep_view());
    *result = items;
}

/// Puts the definition of `__BindgenComplex<T>` before the items.
pub fn prepend_complex_type(_ctx: &BindgenContext, result: &mut Vec<ast::Item>)
    ensures
        final(result).deep_view() == seq![complex_type()] + old(result).deep_view(),
{
    let mut derives = list3("PartialEq", "Copy", "Clone");
    derives.push("Hash".to_owned());
    derives.push("Debug".to_owned());
    derives.push("Default".to_owned());
    assert(derives.deep_view() =~= seq![
        "PartialEq"@,
        "Copy"@,
        "Clone"@,
        "Hash"@,
        "Debug"@,
        "Default"@,
    ]);
    let mut attrs: Vec<Attr> = Vec::new();
    attrs.push(Attr::Derive(derives));
    attrs.push(repr_c());
    assert(attrs.deep_view() =~= complex_type()->Struct_attrs);
    let mut fields: Vec<StructField> = Vec::new();
    fields.push(part("re"));
    fields.push(part("im"));
    assert(fields.deep_view() =~= complex_type()->Struct_fields);
    let mut items: Vec<ast::Item> = Vec::new();
    items.push(
        ast::Item::Struct {
            name: "__BindgenComplex".to_owned(),
            attrs,
            generics: list1("T"),
            fields,
        },
    );
    assert(items.deep_view() =~= seq![complex_type()]);
    items.append(result);
    assert(items.deep_view() =~= seq![complex_type()] + old(result).deep_view());
    *result = items;
}

/// One part of a complex number.
fn part(name: &str) -> (field: StructField)
    ensures
        field@ == (StructFieldView {
            name: name@,
            is_pub: true,
            attrs: seq![],
            ty: helpers::named_ty("T"@),
        }),
{
    let attrs: Vec<Attr> = Vec::new();
    assert(attrs.deep_view() =~= seq![]);
    StructField { name: name.to_owned(), is_pub: true, attrs, ty: ty_named("T") }
}

/// How many of the first `n` items are modules.
pub open spec fn module_count(ctx: BindgenContext, ids: Seq<ItemId>, n: int) -> nat
    decreases n,
{
    if n <= 0 {
        0
    } else if ctx.item(ids[n - 1]).kind is Module {
        module_count(ctx, ids, n - 1) + 1
    } else {
        module_count(ctx, ids, n - 1)
    }
}

/// The path from a module to the root: one step up for each module that it is
/// nested in, itself included, and one out of the root.
pub open spec fn root_path(ctx: BindgenContext, module: Item) -> Seq<Seq<char>> {
    let depth = module_count(ctx, module.ancestors@, module.ancestors@.len() as int);
    seq!["self"@] + Seq::new(depth + 1, |k: int| "super"@) + seq![
        ctx.mangle(ctx.item(ctx.root_module).canonical_name@),
    ]
}

/// The import of the root in a module.
pub open spec fn root_import_item(ctx: BindgenContext, module: Item) -> ItemView {
    ItemView::Use {
        attrs: seq![AttrView::Allow("unused_imports"@)],
        path: root_path(ctx, module),
    }
}

/// The import of the root in a module.
pub fn root_import(ctx: &BindgenContext, module: &Item) -> (item: ast::Item)
    requires
        ctx.options.enable_cxx_namespaces,
        module.kind is Module,
        ctx.has(ctx.root_module),
        forall|k: int| 0 <= k < module.ancestors@.len() ==> ctx.has(#[trigger] module.ancestors@[k]),
    ensures
        item@ == root_import_item(*ctx, *module),
{
    let mut path = list1("self");
    let ghost ancestors = module.ancestors@;
    let mut i: usize = 0;
    assert(path.deep_view() =~= seq!["self"@] + Seq::new(0, |k: int| "super"@));
    while i < module.ancestors.len()
        invariant
            0 <= i <= ancestors.len(),
            ancestors == module.ancestors@,
            forall|k: int| 0 <= k < ancestors.len() ==> ctx.has(#[trigger] ancestors[k]),
            path.deep_view() == seq!["self"@] + Seq::new(
                module_count(*ctx, ancestors, i as int),
                |k: int| "super"@,
            ),
        decreases ancestors.len() - i,
    {
        let ghost before = path.deep_view();
        assert(ctx.has(ancestors[i as int]));
        if ctx.resolve_item(module.ancestors[i]).is_module() {
            path.push("super".to_owned());
            assert(path.deep_view() =~= before.push("super"@));
        }
        i += 1;
        assert(path.deep_view() =~= seq!["self"@] + Seq::new(
            module_count(*ctx, ancestors, i as int),
            |k: int| "super"@,
        ));
    }
    let root = ctx.rust_mangle(ctx.resolve_item(ctx.root_module).canonical_name.as_str());
    let ghost before = path.deep_view();
    path.push("super".to_owned());
    path.push(root);
    assert(path.deep_view() =~= before.push("super"@).push(root@));
    assert(path.deep_view() =~= root_path(*ctx, *module));
    let mut attrs: Vec<Attr> = Vec::new();
    attrs.push(Attr::Allow("unused_imports".to_owned()));
    assert(attrs.deep_view() =~= seq![AttrView::Allow("unused_imports"@)]);
    ast::Item::Use { attrs, path }
}

} // verus!
