//! What the contracts call the view of generated syntax tells of it:
//! everything, part by part.
use vstd::prelude::*;

use crate::ast::{
    Arg, Attr, AttrView, Body, CallArg, CallArgView, ConstValue, ConstValueView, FnDecl,
    ForeignItem, ForeignItemKind, ForeignItemKindView, ImplItem, Item, Literal, LiteralView,
    Operand, OperandView, StructField, Ty, Variant,
};
use crate::result::{CodegenResult, ResultView};

verus! {

/// The view of a list holds the texts of a list of strings, one for one.
pub open spec fn tells_texts(list: Vec<String>, view: Seq<Seq<char>>) -> bool {
    view.len() == list@.len() && forall|k: int|
        0 <= k < list@.len() ==> #[trigger] view[k] == list@[k]@
}

/// The view of a type tells its kind, its flags and its parts.
pub proof fn law_ty_view(t: Ty)
    ensures
        t.deep_view() == t@,
        match t {
            Ty::Path { global, segments, args } => {
                &&& t@ is Path
                &&& t@->global == global
                &&& tells_texts(segments, t@->segments)
                &&& t@->args.len() == args@.len()
                &&& forall|k: int| 0 <= k < args@.len() ==> #[trigger] t@->args[k] == args@[k]@
            },
            Ty::Ptr { is_const, inner } => t@ is Ptr && t@->Ptr_is_const == is_const
                && *t@->Ptr_inner == (*inner)@,
            Ty::StaticRef { inner } => t@ is StaticRef && *t@->StaticRef_inner == (*inner)@,
            Ty::Ref { mutable, inner } => t@ is Ref && t@->Ref_mutable == mutable
                && *t@->Ref_inner == (*inner)@,
            Ty::Array { elem, len } => t@ is Array && *t@->elem == (*elem)@ && t@->len == len,
            Ty::BareFn { abi, decl } => t@ is BareFn && t@->abi == abi && *t@->decl == (*decl)@,
            Ty::SelfRef { mutable } => t@ is SelfRef && t@->SelfRef_mutable == mutable,
            Ty::Unit => t@ is Unit,
        },
{
}

/// The view of a declaration tells its arguments, its result, and whether it
/// takes more.
pub proof fn law_fn_decl_view(d: FnDecl)
    ensures
        d@.inputs.len() == d.inputs@.len(),
        forall|k: int|
            0 <= k < d.inputs@.len() ==> (#[trigger] d@.inputs[k]).name == d.inputs@[k].name@
                && d@.inputs[k].ty == d.inputs@[k].ty@,
        d@.output is Some <==> d.output is Some,
        d.output matches Some(t) ==> d@.output->0 == t@,
        d@.variadic == d.variadic,
{
}

/// The view of an attribute tells what it says.
pub proof fn law_attr_view(a: Attr)
    ensures
        a.deep_view() == a@,
        match a {
            Attr::Doc(text) => a@ == AttrView::Doc(text@),
            Attr::Repr(list) => a@ is Repr && tells_texts(list, a@->Repr_0),
            Attr::Derive(list) => a@ is Derive && tells_texts(list, a@->Derive_0),
            Attr::LinkName(name) => a@ == AttrView::LinkName(name@),
            Attr::Allow(lint) => a@ == AttrView::Allow(lint@),
            Attr::Inline => a@ is Inline,
        },
{
}

/// Whether the view of a list holds the views of attributes, one for one.
pub open spec fn tells_attrs(list: Vec<Attr>, view: Seq<AttrView>) -> bool {
    view.len() == list@.len() && forall|k: int|
        0 <= k < list@.len() ==> #[trigger] view[k] == list@[k]@
}

/// The view of a field tells its name, visibility, attributes and type.
pub proof fn law_field_view(f: StructField)
    ensures
        f.deep_view() == f@,
        f@.name == f.name@,
        f@.is_pub == f.is_pub,
        tells_attrs(f.attrs, f@.attrs),
        f@.ty == f.ty@,
{
}

/// The view of a literal tells its value.
pub proof fn law_literal_view(l: Literal)
    ensures
        match l {
            Literal::Bool(b) => l@ == LiteralView::Bool(b),
            Literal::Int(v) => l@ == LiteralView::Int(v),
            Literal::Uint(v) => l@ == LiteralView::Uint(v),
            Literal::Float(bits) => l@ == LiteralView::Float(bits),
            Literal::Byte(b) => l@ == LiteralView::Byte(b),
            Literal::CStr(text) => l@ == LiteralView::CStr(text@),
            Literal::Bytes(bytes) => l@ == LiteralView::Bytes(bytes@),
        },
{
}

/// The view of a constant's value tells it.
pub proof fn law_const_value_view(v: ConstValue)
    ensures
        match v {
            ConstValue::Literal(l) => v@ == ConstValueView::Literal(l@),
            ConstValue::Path(list) => v@ is Path && tells_texts(list, v@->Path_0),
            ConstValue::Construct { name, arg } => v@ is Construct && v@->Construct_name == name@
                && v@->arg == arg@,
        },
{
}

/// The view of what a method passes on tells it.
pub proof fn law_call_arg_view(a: CallArg)
    ensures
        a.deep_view() == a@,
        match a {
            CallArg::Name(name) => a@ == CallArgView::Name(name@),
            CallArg::Receiver { mutable } => a@ is Receiver && a@->mutable == mutable,
        },
{
}

/// The view of an argument in a body tells it.
pub proof fn law_operand_view(o: Operand)
    ensures
        o.deep_view() == o@,
        match o {
            Operand::Path { global, segments } => o@ is Path && o@->global == global
                && tells_texts(segments, o@->segments),
            Operand::Text(text) => o@ == OperandView::Text(text@),
        },
{
}

/// The view of a body tells what it calls.
pub proof fn law_body_view(b: Body)
    ensures
        match b {
            Body::Call { global, segments, args } => {
                &&& b@ is Call
                &&& b@->global == global
                &&& tells_texts(segments, b@->segments)
                &&& b@->Call_args.len() == args@.len()
                &&& forall|k: int| 0 <= k < args@.len() ==> #[trigger] b@->Call_args[k] == args@[k]@
            },
            Body::MethodCall { receiver, method, args } => {
                &&& b@ is MethodCall
                &&& b@->receiver == receiver@
                &&& b@->method == method@
                &&& b@->MethodCall_args.len() == args@.len()
                &&& forall|k: int|
                    0 <= k < args@.len() ==> #[trigger] b@->MethodCall_args[k] == args@[k]@
            },
        },
{
}

/// The view of what stands in an `impl` block tells it.
pub proof fn law_impl_item_view(i: ImplItem)
    ensures
        i.deep_view() == i@,
        match i {
            ImplItem::BitfieldGetter {
                name,
                prefix,
                field_ty,
                unit,
                unit_ty,
                int_ty,
                mask,
                offset,
            } => {
                &&& i@ is BitfieldGetter
                &&& i@->BitfieldGetter_name == name@
                &&& i@->BitfieldGetter_prefix == prefix@
                &&& i@->BitfieldGetter_field_ty == field_ty@
                &&& i@->BitfieldGetter_unit == unit@
                &&& i@->BitfieldGetter_unit_ty == unit_ty@
                &&& i@->BitfieldGetter_int_ty == int_ty@
                &&& i@->BitfieldGetter_mask == mask
                &&& i@->BitfieldGetter_offset == offset
            },
            ImplItem::BitfieldSetter { name, field_ty, unit, unit_ty, int_ty, mask, offset } => {
                &&& i@ is BitfieldSetter
                &&& i@->BitfieldSetter_name == name@
                &&& i@->BitfieldSetter_field_ty == field_ty@
                &&& i@->BitfieldSetter_unit == unit@
                &&& i@->BitfieldSetter_unit_ty == unit_ty@
                &&& i@->BitfieldSetter_int_ty == int_ty@
                &&& i@->BitfieldSetter_mask == mask
                &&& i@->BitfieldSetter_offset == offset
            },
            ImplItem::FieldAccessor { name, field, ty, is_unsafe, mutable } => {
                &&& i@ is FieldAccessor
                &&& i@->FieldAccessor_name == name@
                &&& i@->FieldAccessor_field == field@
                &&& i@->FieldAccessor_ty == ty@
                &&& i@->FieldAccessor_is_unsafe == is_unsafe
                &&& i@->FieldAccessor_mutable == mutable
            },
            ImplItem::Method { name, attrs, decl, callee, args } => {
                &&& i@ is Method
                &&& i@->Method_name == name@
                &&& tells_attrs(attrs, i@->Method_attrs)
                &&& i@->Method_decl == decl@
                &&& i@->callee == callee@
                &&& i@->Method_args.len() == args@.len()
                &&& forall|k: int|
                    0 <= k < args@.len() ==> #[trigger] i@->Method_args[k] == args@[k]@
            },
            ImplItem::CloneByCopy => i@ is CloneByCopy,
            ImplItem::Fn { name, attrs, is_pub, is_unsafe, decl, body } => {
                &&& i@ is Fn
                &&& i@->Fn_name == name@
                &&& tells_attrs(attrs, i@->Fn_attrs)
                &&& i@->Fn_is_pub == is_pub
                &&& i@->Fn_is_unsafe == is_unsafe
                &&& i@->Fn_decl == decl@
                &&& i@->body == body@
            },
        },
{
}

/// The views of a variant, of a declaration in a foreign module and of an
/// argument tell their names, values, kinds and attributes.
pub proof fn law_small_views(v: Variant, f: ForeignItem, a: Arg)
    ensures
        v.deep_view() == v@,
        v@.name == v.name@,
        v@.value == v.value@,
        f.deep_view() == f@,
        f@.name == f.name@,
        tells_attrs(f.attrs, f@.attrs),
        match f.kind {
            ForeignItemKind::Fn(decl) => f@.kind == ForeignItemKindView::Fn(decl@),
            ForeignItemKind::Static { ty, mutable } => f@.kind is Static && f@.kind->ty == ty@
                && f@.kind->mutable == mutable,
        },
        a.deep_view() == a@,
        a@.name == a.name@,
        a@.ty == a.ty@,
{
}

/// The view of an item tells its kind, its name and its parts.
pub proof fn law_item_view(item: Item)
    ensures
        item.deep_view() == item@,
        match item {
            Item::Use { attrs, path } => item@ is Use && tells_attrs(attrs, item@->Use_attrs)
                && tells_texts(path, item@->path),
            Item::Mod { name, items } => {
                &&& item@ is Mod
                &&& item@->Mod_name == name@
                &&& item@->items.len() == items@.len()
                &&& forall|k: int|
                    0 <= k < items@.len() ==> #[trigger] item@->items[k] == items@[k]@
            },
            Item::Const { name, ty, value } => item@ is Const && item@->Const_name == name@
                && item@->Const_ty == ty@ && item@->value == value@,
            Item::ForeignMod { abi, foreign_items } => {
                &&& item@ is ForeignMod
                &&& item@->ForeignMod_abi == abi
                &&& item@->foreign_items.len() == foreign_items@.len()
                &&& forall|k: int|
                    0 <= k < foreign_items@.len() ==> #[trigger] item@->foreign_items[k]
                        == foreign_items@[k]@
            },
            Item::TyAlias { name, attrs, generics, ty } => {
                &&& item@ is TyAlias
                &&& item@->TyAlias_name == name@
                &&& tells_attrs(attrs, item@->TyAlias_attrs)
                &&& tells_texts(generics, item@->TyAlias_generics)
                &&& item@->TyAlias_ty == ty@
            },
            Item::Struct { name, attrs, generics, fields } => {
                &&& item@ is Struct
                &&& item@->Struct_name == name@
                &&& tells_attrs(attrs, item@->Struct_attrs)
                &&& tells_texts(generics, item@->Struct_generics)
                &&& item@->Struct_fields.len() == fields@.len()
                &&& forall|k: int|
                    0 <= k < fields@.len() ==> #[trigger] item@->Struct_fields[k] == fields@[k]@
            },
            Item::Union { name, attrs, generics, fields } => {
                &&& item@ is Union
                &&& item@->Union_name == name@
                &&& tells_attrs(attrs, item@->Union_attrs)
                &&& tells_texts(generics, item@->Union_generics)
                &&& item@->Union_fields.len() == fields@.len()
                &&& forall|k: int|
                    0 <= k < fields@.len() ==> #[trigger] item@->Union_fields[k] == fields@[k]@
            },
            Item::TupleStruct { name, attrs, generics, field, field_is_pub } => {
                &&& item@ is TupleStruct
                &&& item@->TupleStruct_name == name@
                &&& tells_attrs(attrs, item@->TupleStruct_attrs)
                &&& tells_texts(generics, item@->TupleStruct_generics)
                &&& item@->field == field@
                &&& item@->field_is_pub == field_is_pub
            },
            Item::Enum { name, attrs, variants } => {
                &&& item@ is Enum
                &&& item@->Enum_name == name@
                &&& tells_attrs(attrs, item@->Enum_attrs)
                &&& item@->variants.len() == variants@.len()
                &&& forall|k: int|
                    0 <= k < variants@.len() ==> #[trigger] item@->variants[k] == variants@[k]@
            },
            Item::Impl { of_trait, generics, for_ty, impl_items } => {
                &&& item@ is Impl
                &&& item@->of_trait is Some <==> of_trait is Some
                &&& of_trait matches Some(path) ==> item@->of_trait->0 == path@
                &&& tells_texts(generics, item@->Impl_generics)
                &&& item@->for_ty == for_ty@
                &&& item@->impl_items.len() == impl_items@.len()
                &&& forall|k: int|
                    0 <= k < impl_items@.len() ==> #[trigger] item@->impl_items[k]
                        == impl_items@[k]@
            },
            Item::BitOrImpl { prefix, ty, constructor } => item@ is BitOrImpl
                && item@->BitOrImpl_prefix == prefix@ && item@->BitOrImpl_ty == ty@
                && item@->constructor == constructor@,
            Item::LayoutTest { name, prefix, ty, size, align } => {
                &&& item@ is LayoutTest
                &&& item@->LayoutTest_name == name@
                &&& item@->LayoutTest_prefix == prefix@
                &&& item@->LayoutTest_ty == ty@
                &&& item@->LayoutTest_size == size
                &&& item@->LayoutTest_align == align
            },
        },
{
}

/// The view of a result tells its items, and all that was noted.
pub proof fn law_result_view(r: CodegenResult)
    ensures
        r@.items.len() == r.items@.len(),
        forall|k: int| 0 <= k < r.items@.len() ==> #[trigger] r@.items[k] == r.items@[k]@,
        r@.codegen_id == r.codegen_id,
        r@.saw_union == r.saw_union,
        r@.items_seen == r.items_seen@,
        r@.functions_seen == r.functions_seen@,
        r@.vars_seen == r.vars_seen@,
        r@.overload_counters == r.overload_counters@,
        r@.needs_complex == r.needs_complex,
{
}

/// A name that was never counted has no overloads, and any other as many as
/// were counted.
pub proof fn law_overloads(st: ResultView, name: Seq<char>)
    ensures
        !st.overload_counters.dom().contains(name) ==> st.overloads(name) == 0,
        st.overload_counters.dom().contains(name) ==> st.overloads(name)
            == st.overload_counters[name],
{
}

} // verus!
