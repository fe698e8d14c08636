//! Variables and functions: constants and foreign declarations.
use vstd::prelude::*;

use crate::ast;
use crate::ast::{
    Abi, Attr, AttrView, ConstValue, ConstValueView, ForeignItem, ForeignItemKind,
    ForeignItemKindView, ForeignItemView, ItemView, Literal, LiteralView, Ty, TyView,
};
use crate::helpers;
use crate::helpers::{doc, ty_named};
use crate::ir::{BindgenContext, Function, Item, ItemId, ItemKind, TypeKind, Var, VarType};
use crate::names;
use crate::names::{decimal, same};
use crate::result::{CodegenResult, ResultView};
use crate::types;
use crate::types::rust_fndecl_from_signature;

verus! {

/// Builds a foreign module: `extern "abi" { .. }`.
pub struct ForeignModBuilder {
    pub abi: Abi,
    pub foreign_items: Vec<ForeignItem>,
}

impl ForeignModBuilder {
    /// An empty foreign module.
    pub fn new(abi: Abi) -> (b: ForeignModBuilder)
        ensures
            b.abi == abi,
            b.foreign_items.deep_view() == Seq::<ForeignItemView>::empty(),
    {
        let foreign_items: Vec<ForeignItem> = Vec::new();
        assert(foreign_items.deep_view() =~= Seq::<ForeignItemView>::empty());
        ForeignModBuilder { abi, foreign_items }
    }

    /// Adds a declaration.
    pub fn with_foreign_item(self, item: ForeignItem) -> (b: ForeignModBuilder)
        ensures
            b.abi == self.abi,
            b.foreign_items.deep_view() == self.foreign_items.deep_view().push(item@),
    {
        let abi = self.abi;
        let mut foreign_items = self.foreign_items;
        foreign_items.push(item);
        assert(foreign_items.deep_view() =~= self.foreign_items.deep_view().push(item@));
        ForeignModBuilder { abi, foreign_items }
    }

    /// Adds declarations.
    pub fn with_foreign_items(self, items: Vec<ForeignItem>) -> (b: ForeignModBuilder)
        ensures
            b.abi == self.abi,
            b.foreign_items.deep_view() == self.foreign_items.deep_view() + items.deep_view(),
    {
        let abi = self.abi;
        let mut items = items;
        let ghost added = items.deep_view();
        let mut foreign_items = self.foreign_items;
        foreign_items.append(&mut items);
        assert(foreign_items.deep_view() =~= self.foreign_items.deep_view() + added);
        ForeignModBuilder { abi, foreign_items }
    }

    /// The foreign module.
    pub fn build(self) -> (item: ast::Item)
        ensures
            item@ == (ItemView::ForeignMod {
                abi: self.abi,
                foreign_items: self.foreign_items.deep_view(),
            }),
    {
        ast::Item::ForeignMod { abi: self.abi, foreign_items: self.foreign_items }
    }
}

/// A foreign module of one declaration.
pub open spec fn foreign_mod(abi: Abi, item: ForeignItemView) -> ItemView {
    ItemView::ForeignMod { abi, foreign_items: seq![item] }
}

/// The symbol to link to, where the name does not give it: the mangled name,
/// or the name as declared.
pub open spec fn link_attrs(
    mangled: Option<String>,
    name: Seq<char>,
    canonical_name: Seq<char>,
) -> Seq<AttrView> {
    match mangled {
        Some(symbol) => seq![AttrView::LinkName(symbol@)],
        None => if name != canonical_name {
            seq![AttrView::LinkName(name)]
        } else {
            seq![]
        },
    }
}

fn push_link_attrs(
    attrs: &mut Vec<Attr>,
    mangled: &Option<String>,
    name: &str,
    canonical_name: &str,
)
    ensures
        final(attrs).deep_view() == old(attrs).deep_view() + link_attrs(
            *mangled,
            name@,
            canonical_name@,
        ),
{
    if let Some(symbol) = mangled {
        attrs.push(Attr::LinkName(symbol.clone()));
    } else if !same(canonical_name, name) {
        attrs.push(Attr::LinkName(name.to_owned()));
    }
    assert(attrs.deep_view() =~= old(attrs).deep_view() + link_attrs(
        *mangled,
        name@,
        canonical_name@,
    ));
}

/// `std::string::String::from_utf8`: the text that the bytes encode, if and
/// only if they are valid UTF-8.
#[verifier::external_body]
fn text_from_utf8(bytes: Vec<u8>) -> (r: Option<String>)
    ensures
        r is Some <==> vstd::utf8::valid_utf8(bytes@),
        r matches Some(text) ==> text@ == vstd::utf8::decode_utf8(bytes@),
{
    String::from_utf8(bytes).ok()
}

/// The type of a string with that many bytes, and its trailing zero.
pub open spec fn c_string_ty(len: nat) -> TyView {
    helpers::array_of(helpers::named_ty("u8"@), len + 1)
}

/// The constant for a variable of a known value. `ty` is its declared type.
pub open spec fn const_item(name: Seq<char>, ty: TyView, val: VarType) -> ItemView {
    match val {
        VarType::Bool(b) => ItemView::Const {
            name,
            ty,
            value: ConstValueView::Literal(LiteralView::Bool(b)),
        },
        VarType::Int(v) => ItemView::Const {
            name,
            ty,
            value: ConstValueView::Literal(LiteralView::Int(v)),
        },
        VarType::Float(bits) => ItemView::Const {
            name,
            ty,
            value: ConstValueView::Literal(LiteralView::Float(bits)),
        },
        VarType::Char(c) => ItemView::Const {
            name,
            ty,
            value: ConstValueView::Literal(LiteralView::Byte(c)),
        },
        VarType::String(bytes) => if vstd::utf8::valid_utf8(bytes@) {
            ItemView::Const {
                name,
                ty: TyView::StaticRef { inner: Box::new(c_string_ty(bytes@.len())) },
                value: ConstValueView::Literal(
                    LiteralView::CStr(vstd::utf8::decode_utf8(bytes@)),
                ),
            }
        } else {
            ItemView::Const {
                name,
                ty: c_string_ty(bytes@.len()),
                value: ConstValueView::Literal(LiteralView::Bytes(bytes@)),
            }
        },
    }
}

/// The foreign declaration of a variable.
pub open spec fn static_item(name: Seq<char>, ty: TyView, var: Var) -> ItemView {
    foreign_mod(
        Abi::C,
        ForeignItemView {
            name,
            attrs: link_attrs(var.mangled_name, var.name@, name),
            kind: ForeignItemKindView::Static { ty, mutable: !var.is_const },
        },
    )
}

/// What generating the variable `id` does: nothing if one of its name was
/// generated before, else a constant if its value is known, else a foreign
/// declaration.
pub open spec fn gen_var(ctx: BindgenContext, st: ResultView, id: ItemId) -> ResultView {
    let var = ctx.item(id).kind->Var_0;
    let name = ctx.item(id).canonical_name@;
    let converted = types::rust_ty(ctx, var.ty);
    if st.vars_seen.contains(name) {
        st
    } else {
        ResultView { vars_seen: st.vars_seen.insert(name), ..st }.with_complex(
            converted.complex,
        ).push(
            match var.val {
                Some(val) => const_item(name, converted.ty, val),
                None => static_item(name, converted.ty, var),
            },
        )
    }
}

/// Whether a variable can be generated: its type has a Rust type, and the
/// length of its value leaves room for the trailing zero.
pub open spec fn var_ok(ctx: BindgenContext, var: Var) -> bool {
    &&& ctx.converts(var.ty)
    &&& var.val matches Some(VarType::String(bytes)) ==> bytes@.len() < usize::MAX
}

impl VarType {
    /// The constant for a variable of this value.
    fn to_const(&self, name: &str, ty: Ty) -> (item: ast::Item)
        requires
            self matches VarType::String(bytes) ==> bytes@.len() < usize::MAX,
        ensures
            item@ == const_item(name@, ty@, *self),
    {
        let name = name.to_owned();
        match self {
            VarType::Bool(b) => ast::Item::Const {
                name,
                ty,
                value: ConstValue::Literal(Literal::Bool(*b)),
            },
            VarType::Int(v) => ast::Item::Const {
                name,
                ty,
                value: ConstValue::Literal(Literal::Int(*v)),
            },
            VarType::Float(bits) => ast::Item::Const {
                name,
                ty,
                value: ConstValue::Literal(Literal::Float(*bits)),
            },
            VarType::Char(c) => ast::Item::Const {
                name,
                ty,
                value: ConstValue::Literal(Literal::Byte(*c)),
            },
            VarType::String(bytes) => {
                let array = ty_named("u8").to_array(bytes.len() + 1);
                let copy = bytes.clone();
                assert(copy@ =~= bytes@);
                match text_from_utf8(copy) {
                    Some(text) => ast::Item::Const {
                        name,
                        ty: Ty::StaticRef { inner: Box::new(array) },
                        value: ConstValue::Literal(Literal::CStr(text)),
                    },
                    None => {
                        let copy = bytes.clone();
                        assert(copy@ =~= bytes@);
                        ast::Item::Const {
                            name,
                            ty: array,
                            value: ConstValue::Literal(Literal::Bytes(copy)),
                        }
                    },
                }
            },
        }
    }
}

impl Var {
    /// Generates this variable, which is what `item` is.
    pub fn codegen(&self, ctx: &BindgenContext, result: &mut CodegenResult, item: &Item)
        requires
            ctx.ids_wf(),
            ctx.holds(item),
            item.kind == ItemKind::Var(*self),
            var_ok(*ctx, *self),
        ensures
            final(result)@ == gen_var(*ctx, old(result)@, item.id),
    {
        let canonical_name = &item.canonical_name;
        if result.seen_var(canonical_name.as_str()) {
            return ;
        }
        result.saw_var(canonical_name.as_str());
        let ty = self.ty.to_rust_ty(ctx, &mut result.needs_complex);
        match &self.val {
            Some(val) => {
                result.push(val.to_const(canonical_name.as_str(), ty));
            },
            None => {
                let mut attrs: Vec<Attr> = Vec::new();
                push_link_attrs(
                    &mut attrs,
                    &self.mangled_name,
                    self.name.as_str(),
                    canonical_name.as_str(),
                );
                assert(attrs.deep_view() =~= link_attrs(
                    self.mangled_name,
                    self.name@,
                    canonical_name@,
                ));
                let declared = ForeignItem {
                    name: canonical_name.clone(),
                    attrs,
                    kind: ForeignItemKind::Static { ty, mutable: !self.is_const },
                };
                let module = ForeignModBuilder::new(Abi::C).with_foreign_item(declared).build();
                assert(module@ == static_item(canonical_name@, ty@, *self)) by {
                    assert(module@->foreign_items =~= seq![declared@]);
                }
                result.push(module);
            },
        }
    }
}

/// The symbol by which a function is known: its mangled name, if it has one.
pub open spec fn symbol(function: Function, canonical_name: Seq<char>) -> Seq<char> {
    match function.mangled_name {
        Some(mangled) => mangled@,
        None => canonical_name,
    }
}

/// The name of a function that `overloads` others of the same name precede.
pub open spec fn overload_name(canonical_name: Seq<char>, overloads: nat) -> Seq<char> {
    if overloads > 0 {
        canonical_name + names::decimal_digits(overloads)
    } else {
        canonical_name
    }
}

/// The foreign declaration of the function `id`.
pub open spec fn function_item(ctx: BindgenContext, id: ItemId, overloads: nat) -> ItemView {
    let item = ctx.item(id);
    let function = item.kind->Function_0;
    let name = item.canonical_name@;
    foreign_mod(
        ctx.ty(function.signature).kind->Function_0.abi,
        ForeignItemView {
            name: overload_name(name, overloads),
            attrs: helpers::doc_attrs(item.comment) + link_attrs(
                function.mangled_name,
                function.name@,
                name,
            ),
            kind: ForeignItemKindView::Fn(types::sig_decl(ctx, function.signature).decl),
        },
    )
}

/// What generating the function `id` does: nothing if one of its symbol was
/// generated before, else a foreign declaration, whose name tells it from the
/// functions of the same name before it.
pub open spec fn gen_function(ctx: BindgenContext, st: ResultView, id: ItemId) -> ResultView {
    let function = ctx.item(id).kind->Function_0;
    let name = ctx.item(id).canonical_name@;
    if st.functions_seen.contains(symbol(function, name)) {
        st
    } else {
        ResultView {
            functions_seen: st.functions_seen.insert(symbol(function, name)),
            overload_counters: st.overload_counters.insert(name, (st.overloads(name) + 1) as u32),
            ..st
        }.with_complex(types::sig_decl(ctx, function.signature).complex).push(
            function_item(ctx, id, st.overloads(name)),
        )
    }
}

/// Whether a function can be generated: its signature is a function type that
/// has a Rust type.
pub open spec fn function_ok(ctx: BindgenContext, function: Function) -> bool {
    &&& ctx.is_type(function.signature)
    &&& ctx.converts(function.signature)
    &&& ctx.ty(function.signature).kind is Function
}

impl Function {
    /// Generates this function, which is what `item` is.
    pub fn codegen(&self, ctx: &BindgenContext, result: &mut CodegenResult, item: &Item)
        requires
            ctx.ids_wf(),
            ctx.holds(item),
            item.kind == ItemKind::Function(*self),
            function_ok(*ctx, *self),
            old(result)@.overloads(item.canonical_name@) < u32::MAX,
        ensures
            final(result)@ == gen_function(*ctx, old(result)@, item.id),
    {
        let canonical_name = &item.canonical_name;
        let seen_symbol_name = match &self.mangled_name {
            Some(mangled) => mangled.as_str(),
            None => canonical_name.as_str(),
        };
        if result.seen_function(seen_symbol_name) {
            return ;
        }
        result.saw_function(seen_symbol_name);
        let signature_item = ctx.resolve_item(self.signature);
        let abi = match &signature_item.expect_type().kind {
            TypeKind::Function(sig) => sig.abi,
            _ => {
                proof {
                    assert(false);
                }
                unreached()
            },
        };
        let decl = rust_fndecl_from_signature(ctx, signature_item, &mut result.needs_complex);
        let mut attrs = doc(&item.comment);
        push_link_attrs(
            &mut attrs,
            &self.mangled_name,
            self.name.as_str(),
            canonical_name.as_str(),
        );
        // Each overload gets a suffix of its own.
        let times_seen = result.overload_number(canonical_name.as_str());
        let mut name = canonical_name.clone();
        if times_seen > 0 {
            name.append(decimal(times_seen as usize).as_str());
        }
        let declared = ForeignItem { name, attrs, kind: ForeignItemKind::Fn(decl) };
        let module = ForeignModBuilder::new(abi).with_foreign_item(declared).build();
        assert(module@ == function_item(*ctx, item.id, times_seen as nat)) by {
            assert(module@->foreign_items =~= seq![declared@]);
        }
        result.push(module);
        assert(result@ =~= gen_function(*ctx, old(result)@, item.id));
    }
}

} // verus!
