//! The Rust syntax that code generation produces.
//!
//! Each type comes with a mathematical counterpart, named with the suffix
//! `View`, in which strings are sequences of characters and vectors are
//! sequences. Contracts speak of those.
use vstd::prelude::*;

use crate::names::clone_strings;

verus! {

/// The calling convention of a function or of a foreign module.
#[derive(Clone, Copy, Debug, PartialEq, Eq, Structural)]
pub enum Abi {
    Cdecl,
    Stdcall,
    Fastcall,
    Vectorcall,
    Aapcs,
    Win64,
    SysV64,
    Rust,
    C,
    System,
    RustIntrinsic,
    RustCall,
    PlatformIntrinsic,
}

/// A Rust type expression.
#[derive(Debug, PartialEq, Eq)]
pub enum Ty {
    /// A path, with a leading `::` if it is global, and with the generic
    /// arguments of its last segment.
    Path { global: bool, segments: Vec<String>, args: Vec<Ty> },
    /// `*const T` or `*mut T`.
    Ptr { is_const: bool, inner: Box<Ty> },
    /// `&'static T`.
    StaticRef { inner: Box<Ty> },
    /// `&T` or `&mut T`.
    Ref { mutable: bool, inner: Box<Ty> },
    /// `[T; len]`.
    Array { elem: Box<Ty>, len: usize },
    /// `unsafe extern "abi" fn(..) -> ..`.
    BareFn { abi: Abi, decl: Box<FnDecl> },
    /// The type of a `&self` or `&mut self` receiver.
    SelfRef { mutable: bool },
    /// `()`.
    Unit,
}

/// A named function argument.
#[derive(Debug, PartialEq, Eq)]
pub struct Arg {
    pub name: String,
    pub ty: Ty,
}

/// The arguments and the result of a function. No `output` stands for `()`.
#[derive(Debug, PartialEq, Eq)]
pub struct FnDecl {
    pub inputs: Vec<Arg>,
    pub output: Option<Ty>,
    pub variadic: bool,
}

/// The mathematical counterpart of [`Ty`].
#[verifier::ext_equal]
pub enum TyView {
    Path { global: bool, segments: Seq<Seq<char>>, args: Seq<TyView> },
    Ptr { is_const: bool, inner: Box<TyView> },
    StaticRef { inner: Box<TyView> },
    Ref { mutable: bool, inner: Box<TyView> },
    Array { elem: Box<TyView>, len: nat },
    BareFn { abi: Abi, decl: Box<FnDeclView> },
    SelfRef { mutable: bool },
    Unit,
}

/// The mathematical counterpart of [`Arg`].
#[verifier::ext_equal]
pub struct ArgView {
    pub name: Seq<char>,
    pub ty: TyView,
}

/// The mathematical counterpart of [`FnDecl`].
#[verifier::ext_equal]
pub struct FnDeclView {
    pub inputs: Seq<ArgView>,
    pub output: Option<TyView>,
    pub variadic: bool,
}

/// What a type expression denotes.
pub open spec fn ty_view(t: Ty) -> TyView
    decreases t,
{
    match t {
        Ty::Path { global, segments, args } => TyView::Path {
            global,
            segments: segments.deep_view(),
            args: Seq::new(
                args@.len(),
                |i: int|
                    if 0 <= i < args@.len() {
                        ty_view(args@[i])
                    } else {
                        arbitrary()
                    },
            ),
        },
        Ty::Ptr { is_const, inner } => TyView::Ptr { is_const, inner: Box::new(ty_view(*inner)) },
        Ty::StaticRef { inner } => TyView::StaticRef { inner: Box::new(ty_view(*inner)) },
        Ty::Ref { mutable, inner } => TyView::Ref { mutable, inner: Box::new(ty_view(*inner)) },
        Ty::Array { elem, len } => TyView::Array { elem: Box::new(ty_view(*elem)), len: len as nat },
        Ty::BareFn { abi, decl } => TyView::BareFn { abi, decl: Box::new(fn_decl_view(*decl)) },
        Ty::SelfRef { mutable } => TyView::SelfRef { mutable },
        Ty::Unit => TyView::Unit,
    }
}

/// What a function declaration denotes.
pub open spec fn fn_decl_view(d: FnDecl) -> FnDeclView
    decreases d,
{
    FnDeclView {
        inputs: Seq::new(
            d.inputs@.len(),
            |i: int|
                if 0 <= i < d.inputs@.len() {
                    ArgView { name: d.inputs@[i].name@, ty: ty_view(d.inputs@[i].ty) }
                } else {
                    arbitrary()
                },
        ),
        output: match d.output {
            Some(t) => Some(ty_view(t)),
            None => None,
        },
        variadic: d.variadic,
    }
}

impl View for Ty {
    type V = TyView;

    open spec fn view(&self) -> TyView {
        ty_view(*self)
    }
}

impl DeepView for Ty {
    type V = TyView;

    open spec fn deep_view(&self) -> TyView {
        ty_view(*self)
    }
}

impl View for Arg {
    type V = ArgView;

    open spec fn view(&self) -> ArgView {
        ArgView { name: self.name@, ty: self.ty@ }
    }
}

impl DeepView for Arg {
    type V = ArgView;

    open spec fn deep_view(&self) -> ArgView {
        self@
    }
}

impl View for FnDecl {
    type V = FnDeclView;

    open spec fn view(&self) -> FnDeclView {
        fn_decl_view(*self)
    }
}

/// A path's view lists the views of its arguments.
pub proof fn lemma_path_view(t: Ty)
    requires
        t is Path,
    ensures
        t@ == (TyView::Path {
            global: t->global,
            segments: t->segments.deep_view(),
            args: t->args.deep_view(),
        }),
{
    assert(t@->args =~= t->args.deep_view());
}

/// The view of a declaration lists the views of its arguments.
pub proof fn lemma_fn_decl_view(d: FnDecl)
    ensures
        d@ == (FnDeclView {
            inputs: d.inputs.deep_view(),
            output: d.output.deep_view(),
            variadic: d.variadic,
        }),
{
    assert(d@.inputs =~= d.inputs.deep_view());
}

/// A path type.
pub fn path(global: bool, segments: Vec<String>, args: Vec<Ty>) -> (t: Ty)
    ensures
        t@ == (TyView::Path {
            global,
            segments: segments.deep_view(),
            args: args.deep_view(),
        }),
{
    let t = Ty::Path { global, segments, args };
    proof {
        lemma_path_view(t);
    }
    t
}

impl Clone for Ty {
    fn clone(&self) -> (r: Ty)
        ensures
            r@ == self@,
        decreases self,
    {
        match self {
            Ty::Path { global, segments, args } => {
                let mut copied: Vec<Ty> = Vec::new();
                let mut i: usize = 0;
                while i < args.len()
                    invariant
                        0 <= i <= args@.len(),
                        copied@.len() == i,
                        forall|k: int| 0 <= k < i ==> (#[trigger] copied@[k])@ == args@[k]@,
                        *self == (Ty::Path { global: *global, segments: *segments, args: *args }),
                    decreases args@.len() - i,
                {
                    assert(decreases_to!(*self => self->args@[i as int]));
                    copied.push(args[i].clone());
                    i += 1;
                }
                let r = path(*global, clone_strings(segments), copied);
                proof {
                    lemma_path_view(*self);
                    assert(copied.deep_view() =~= args.deep_view());
                }
                r
            },
            Ty::Ptr { is_const, inner } => Ty::Ptr {
                is_const: *is_const,
                inner: Box::new((**inner).clone()),
            },
            Ty::StaticRef { inner } => Ty::StaticRef { inner: Box::new((**inner).clone()) },
            Ty::Ref { mutable, inner } => Ty::Ref {
                mutable: *mutable,
                inner: Box::new((**inner).clone()),
            },
            Ty::Array { elem, len } => Ty::Array { elem: Box::new((**elem).clone()), len: *len },
            Ty::BareFn { abi, decl } => Ty::BareFn {
                abi: *abi,
                decl: Box::new((**decl).clone()),
            },
            Ty::SelfRef { mutable } => Ty::SelfRef { mutable: *mutable },
            Ty::Unit => Ty::Unit,
        }
    }
}

impl Clone for FnDecl {
    fn clone(&self) -> (r: FnDecl)
        ensures
            r@ == self@,
        decreases self,
    {
        let mut inputs: Vec<Arg> = Vec::new();
        let mut i: usize = 0;
        while i < self.inputs.len()
            invariant
                0 <= i <= self.inputs@.len(),
                inputs@.len() == i,
                forall|k: int| 0 <= k < i ==> (#[trigger] inputs@[k])@ == self.inputs@[k]@,
            decreases self.inputs@.len() - i,
        {
            let arg = &self.inputs[i];
            assert(decreases_to!(*self => self.inputs@[i as int].ty));
            inputs.push(Arg { name: arg.name.clone(), ty: arg.ty.clone() });
            i += 1;
        }
        let output = match &self.output {
            Some(t) => Some(t.clone()),
            None => None,
        };
        let r = FnDecl { inputs, output, variadic: self.variadic };
        proof {
            lemma_fn_decl_view(*self);
            lemma_fn_decl_view(r);
            assert(inputs.deep_view() =~= self.inputs.deep_view());
        }
        r
    }
}

/// An attribute of an item or of a field.
#[derive(Debug, PartialEq, Eq)]
pub enum Attr {
    /// A doc comment.
    Doc(String),
    /// `#[repr(..)]`.
    Repr(Vec<String>),
    /// `#[derive(..)]`.
    Derive(Vec<String>),
    /// `#[link_name = ".."]`.
    LinkName(String),
    /// `#[allow(..)]`.
    Allow(String),
    /// `#[inline]`.
    Inline,
}

/// The mathematical counterpart of [`Attr`].
#[verifier::ext_equal]
pub enum AttrView {
    Doc(Seq<char>),
    Repr(Seq<Seq<char>>),
    Derive(Seq<Seq<char>>),
    LinkName(Seq<char>),
    Allow(Seq<char>),
    Inline,
}

impl View for Attr {
    type V = AttrView;

    open spec fn view(&self) -> AttrView {
        match self {
            Attr::Doc(s) => AttrView::Doc(s@),
            Attr::Repr(l) => AttrView::Repr(l.deep_view()),
            Attr::Derive(l) => AttrView::Derive(l.deep_view()),
            Attr::LinkName(s) => AttrView::LinkName(s@),
            Attr::Allow(s) => AttrView::Allow(s@),
            Attr::Inline => AttrView::Inline,
        }
    }
}

impl DeepView for Attr {
    type V = AttrView;

    open spec fn deep_view(&self) -> AttrView {
        self@
    }
}

/// A field of a struct or of a union.
#[derive(Debug, PartialEq, Eq)]
pub struct StructField {
    pub name: String,
    pub is_pub: bool,
    pub attrs: Vec<Attr>,
    pub ty: Ty,
}

/// The mathematical counterpart of [`StructField`].
#[verifier::ext_equal]
pub struct StructFieldView {
    pub name: Seq<char>,
    pub is_pub: bool,
    pub attrs: Seq<AttrView>,
    pub ty: TyView,
}

impl View for StructField {
    type V = StructFieldView;

    open spec fn view(&self) -> StructFieldView {
        StructFieldView {
            name: self.name@,
            is_pub: self.is_pub,
            attrs: self.attrs.deep_view(),
            ty: self.ty@,
        }
    }
}

impl DeepView for StructField {
    type V = StructFieldView;

    open spec fn deep_view(&self) -> StructFieldView {
        self@
    }
}

/// The value of a constant, or an argument of a call.
#[derive(Debug, PartialEq, Eq)]
pub enum Literal {
    Bool(bool),
    Int(i64),
    Uint(u64),
    /// A floating point number, by its bit pattern.
    Float(u64),
    /// A byte literal.
    Byte(u8),
    /// A byte string literal: the text and a trailing zero byte.
    CStr(String),
    /// An array of bytes: those given and a trailing zero.
    Bytes(Vec<u8>),
}

/// The mathematical counterpart of [`Literal`].
#[verifier::ext_equal]
pub enum LiteralView {
    Bool(bool),
    Int(i64),
    Uint(u64),
    Float(u64),
    Byte(u8),
    CStr(Seq<char>),
    Bytes(Seq<u8>),
}

impl View for Literal {
    type V = LiteralView;

    open spec fn view(&self) -> LiteralView {
        match self {
            Literal::Bool(b) => LiteralView::Bool(*b),
            Literal::Int(v) => LiteralView::Int(*v),
            Literal::Uint(v) => LiteralView::Uint(*v),
            Literal::Float(v) => LiteralView::Float(*v),
            Literal::Byte(v) => LiteralView::Byte(*v),
            Literal::CStr(s) => LiteralView::CStr(s@),
            Literal::Bytes(b) => LiteralView::Bytes(b@),
        }
    }
}

/// The value that a constant is defined to have.
#[derive(Debug, PartialEq, Eq)]
pub enum ConstValue {
    Literal(Literal),
    /// A path to another value.
    Path(Vec<String>),
    /// A tuple struct applied to a literal.
    Construct { name: String, arg: Literal },
}

/// The mathematical counterpart of [`ConstValue`].
#[verifier::ext_equal]
pub enum ConstValueView {
    Literal(LiteralView),
    Path(Seq<Seq<char>>),
    Construct { name: Seq<char>, arg: LiteralView },
}

impl View for ConstValue {
    type V = ConstValueView;

    open spec fn view(&self) -> ConstValueView {
        match self {
            ConstValue::Literal(l) => ConstValueView::Literal(l@),
            ConstValue::Path(ids) => ConstValueView::Path(ids.deep_view()),
            ConstValue::Construct { name, arg } => ConstValueView::Construct {
                name: name@,
                arg: arg@,
            },
        }
    }
}

/// An argument that a generated method passes to the function it wraps.
#[derive(Debug, PartialEq, Eq)]
pub enum CallArg {
    /// An argument of the method, by name.
    Name(String),
    /// `&*self`, or `&mut *self`.
    Receiver { mutable: bool },
}

/// The mathematical counterpart of [`CallArg`].
#[verifier::ext_equal]
pub enum CallArgView {
    Name(Seq<char>),
    Receiver { mutable: bool },
}

impl View for CallArg {
    type V = CallArgView;

    open spec fn view(&self) -> CallArgView {
        match self {
            CallArg::Name(s) => CallArgView::Name(s@),
            CallArg::Receiver { mutable } => CallArgView::Receiver { mutable: *mutable },
        }
    }
}

impl DeepView for CallArg {
    type V = CallArgView;

    open spec fn deep_view(&self) -> CallArgView {
        self@
    }
}

/// An argument in the body of a function.
#[derive(Debug, PartialEq, Eq)]
pub enum Operand {
    /// A path, with a leading `::` if it is global.
    Path { global: bool, segments: Vec<String> },
    /// A string literal.
    Text(String),
}

/// The mathematical counterpart of [`Operand`].
#[verifier::ext_equal]
pub enum OperandView {
    Path { global: bool, segments: Seq<Seq<char>> },
    Text(Seq<char>),
}

impl View for Operand {
    type V = OperandView;

    open spec fn view(&self) -> OperandView {
        match self {
            Operand::Path { global, segments } => OperandView::Path {
                global: *global,
                segments: segments.deep_view(),
            },
            Operand::Text(s) => OperandView::Text(s@),
        }
    }
}

impl DeepView for Operand {
    type V = OperandView;

    open spec fn deep_view(&self) -> OperandView {
        self@
    }
}

/// The body of a function: the one call whose result it returns.
#[derive(Debug, PartialEq, Eq)]
pub enum Body {
    /// `segments(args)`, with a leading `::` if the path is global.
    Call { global: bool, segments: Vec<String>, args: Vec<Operand> },
    /// `receiver.method(args)`.
    MethodCall { receiver: String, method: String, args: Vec<Operand> },
}

/// The mathematical counterpart of [`Body`].
#[verifier::ext_equal]
pub enum BodyView {
    Call { global: bool, segments: Seq<Seq<char>>, args: Seq<OperandView> },
    MethodCall { receiver: Seq<char>, method: Seq<char>, args: Seq<OperandView> },
}

impl View for Body {
    type V = BodyView;

    open spec fn view(&self) -> BodyView {
        match self {
            Body::Call { global, segments, args } => BodyView::Call {
                global: *global,
                segments: segments.deep_view(),
                args: args.deep_view(),
            },
            Body::MethodCall { receiver, method, args } => BodyView::MethodCall {
                receiver: receiver@,
                method: method@,
                args: args.deep_view(),
            },
        }
    }
}

/// A function in an `impl` block.
#[derive(Debug, PartialEq, Eq)]
pub enum ImplItem {
    /// ```text
    /// #[inline]
    /// pub fn name(&self) -> field_ty {
    ///     unsafe {
    ///         ::prefix::mem::transmute(
    ///             ((self.unit & (mask as unit_ty)) >> offset) as int_ty)
    ///     }
    /// }
    /// ```
    BitfieldGetter {
        name: String,
        prefix: String,
        field_ty: Ty,
        unit: String,
        unit_ty: Ty,
        int_ty: Ty,
        mask: usize,
        offset: u32,
    },
    /// ```text
    /// #[inline]
    /// pub fn name(&mut self, val: field_ty) {
    ///     self.unit &= !(mask as unit_ty);
    ///     self.unit |= (val as int_ty as unit_ty << offset) & (mask as unit_ty);
    /// }
    /// ```
    BitfieldSetter {
        name: String,
        field_ty: Ty,
        unit: String,
        unit_ty: Ty,
        int_ty: Ty,
        mask: usize,
        offset: u32,
    },
    /// An inlined public function, unsafe if so marked, that returns `&field`
    /// or `&mut field`.
    FieldAccessor { name: String, field: String, ty: Ty, is_unsafe: bool, mutable: bool },
    /// A public unsafe function with a body that calls `callee` with `args`.
    Method { name: String, attrs: Vec<Attr>, decl: FnDecl, callee: String, args: Vec<CallArg> },
    /// `fn clone(&self) -> Self { *self }`.
    CloneByCopy,
    /// A function, public and unsafe if so marked.
    Fn {
        name: String,
        attrs: Vec<Attr>,
        is_pub: bool,
        is_unsafe: bool,
        decl: FnDecl,
        body: Body,
    },
}

/// The mathematical counterpart of [`ImplItem`].
#[verifier::ext_equal]
pub enum ImplItemView {
    BitfieldGetter {
        name: Seq<char>,
        prefix: Seq<char>,
        field_ty: TyView,
        unit: Seq<char>,
        unit_ty: TyView,
        int_ty: TyView,
        mask: usize,
        offset: u32,
    },
    BitfieldSetter {
        name: Seq<char>,
        field_ty: TyView,
        unit: Seq<char>,
        unit_ty: TyView,
        int_ty: TyView,
        mask: usize,
        offset: u32,
    },
    FieldAccessor { name: Seq<char>, field: Seq<char>, ty: TyView, is_unsafe: bool, mutable: bool },
    Method {
        name: Seq<char>,
        attrs: Seq<AttrView>,
        decl: FnDeclView,
        callee: Seq<char>,
        args: Seq<CallArgView>,
    },
    CloneByCopy,
    Fn {
        name: Seq<char>,
        attrs: Seq<AttrView>,
        is_pub: bool,
        is_unsafe: bool,
        decl: FnDeclView,
        body: BodyView,
    },
}

impl View for ImplItem {
    type V = ImplItemView;

    open spec fn view(&self) -> ImplItemView {
        match self {
            ImplItem::BitfieldGetter {
                name,
                prefix,
                field_ty,
                unit,
                unit_ty,
                int_ty,
                mask,
                offset,
            } => ImplItemView::BitfieldGetter {
                name: name@,
                prefix: prefix@,
                field_ty: field_ty@,
                unit: unit@,
                unit_ty: unit_ty@,
                int_ty: int_ty@,
                mask: *mask,
                offset: *offset,
            },
            ImplItem::BitfieldSetter {
                name,
                field_ty,
                unit,
                unit_ty,
                int_ty,
                mask,
                offset,
            } => ImplItemView::BitfieldSetter {
                name: name@,
                field_ty: field_ty@,
                unit: unit@,
                unit_ty: unit_ty@,
                int_ty: int_ty@,
                mask: *mask,
                offset: *offset,
            },
            ImplItem::FieldAccessor {
                name,
                field,
                ty,
                is_unsafe,
                mutable,
            } => ImplItemView::FieldAccessor {
                name: name@,
                field: field@,
                ty: ty@,
                is_unsafe: *is_unsafe,
                mutable: *mutable,
            },
            ImplItem::Method { name, attrs, decl, callee, args } => ImplItemView::Method {
                name: name@,
                attrs: attrs.deep_view(),
                decl: decl@,
                callee: callee@,
                args: args.deep_view(),
            },
            ImplItem::CloneByCopy => ImplItemView::CloneByCopy,
            ImplItem::Fn { name, attrs, is_pub, is_unsafe, decl, body } => ImplItemView::Fn {
                name: name@,
                attrs: attrs.deep_view(),
                is_pub: *is_pub,
                is_unsafe: *is_unsafe,
                decl: decl@,
                body: body@,
            },
        }
    }
}

impl DeepView for ImplItem {
    type V = ImplItemView;

    open spec fn deep_view(&self) -> ImplItemView {
        self@
    }
}

/// A variant of a generated enum: its name and its discriminant.
#[derive(Debug, PartialEq, Eq)]
pub struct Variant {
    pub name: String,
    pub value: Literal,
}

/// The mathematical counterpart of [`Variant`].
#[verifier::ext_equal]
pub struct VariantView {
    pub name: Seq<char>,
    pub value: LiteralView,
}

impl View for Variant {
    type V = VariantView;

    open spec fn view(&self) -> VariantView {
        VariantView { name: self.name@, value: self.value@ }
    }
}

impl DeepView for Variant {
    type V = VariantView;

    open spec fn deep_view(&self) -> VariantView {
        self@
    }
}

/// What a foreign item declares.
#[derive(Debug, PartialEq, Eq)]
pub enum ForeignItemKind {
    Fn(FnDecl),
    Static { ty: Ty, mutable: bool },
}

/// The mathematical counterpart of [`ForeignItemKind`].
#[verifier::ext_equal]
pub enum ForeignItemKindView {
    Fn(FnDeclView),
    Static { ty: TyView, mutable: bool },
}

/// A public declaration in a foreign module.
#[derive(Debug, PartialEq, Eq)]
pub struct ForeignItem {
    pub name: String,
    pub attrs: Vec<Attr>,
    pub kind: ForeignItemKind,
}

/// The mathematical counterpart of [`ForeignItem`].
#[verifier::ext_equal]
pub struct ForeignItemView {
    pub name: Seq<char>,
    pub attrs: Seq<AttrView>,
    pub kind: ForeignItemKindView,
}

impl View for ForeignItem {
    type V = ForeignItemView;

    open spec fn view(&self) -> ForeignItemView {
        ForeignItemView {
            name: self.name@,
            attrs: self.attrs.deep_view(),
            kind: match self.kind {
                ForeignItemKind::Fn(decl) => ForeignItemKindView::Fn(decl@),
                ForeignItemKind::Static { ty, mutable } => ForeignItemKindView::Static {
                    ty: ty@,
                    mutable,
                },
            },
        }
    }
}

impl DeepView for ForeignItem {
    type V = ForeignItemView;

    open spec fn deep_view(&self) -> ForeignItemView {
        self@
    }
}

/// A generated item. Every item that can be public is.
#[derive(Debug, PartialEq, Eq)]
pub enum Item {
    /// `use path;`
    Use { attrs: Vec<Attr>, path: Vec<String> },
    Mod { name: String, items: Vec<Item> },
    Const { name: String, ty: Ty, value: ConstValue },
    ForeignMod { abi: Abi, foreign_items: Vec<ForeignItem> },
    TyAlias { name: String, attrs: Vec<Attr>, generics: Vec<String>, ty: Ty },
    Struct { name: String, attrs: Vec<Attr>, generics: Vec<String>, fields: Vec<StructField> },
    Union { name: String, attrs: Vec<Attr>, generics: Vec<String>, fields: Vec<StructField> },
    /// A struct with one unnamed field, which is public if so marked.
    TupleStruct {
        name: String,
        attrs: Vec<Attr>,
        generics: Vec<String>,
        field: Ty,
        field_is_pub: bool,
    },
    Enum { name: String, attrs: Vec<Attr>, variants: Vec<Variant> },
    /// An `impl` block for the type `for_ty`, of a trait, given by its path,
    /// or inherent. Nothing is asked of the generic parameters.
    Impl {
        of_trait: Option<Ty>,
        generics: Vec<String>,
        for_ty: Ty,
        impl_items: Vec<ImplItem>,
    },
    /// `impl ::prefix::ops::BitOr<ty> for ty`, by the `|` of the only field
    /// of the tuple struct `constructor`.
    BitOrImpl { prefix: String, ty: Ty, constructor: String },
    /// A `#[test]` function that asserts the size and the alignment of `ty`.
    LayoutTest { name: String, prefix: String, ty: Ty, size: usize, align: usize },
}

/// The mathematical counterpart of [`Item`].
#[verifier::ext_equal]
pub enum ItemView {
    Use { attrs: Seq<AttrView>, path: Seq<Seq<char>> },
    Mod { name: Seq<char>, items: Seq<ItemView> },
    Const { name: Seq<char>, ty: TyView, value: ConstValueView },
    ForeignMod { abi: Abi, foreign_items: Seq<ForeignItemView> },
    TyAlias {
        name: Seq<char>,
        attrs: Seq<AttrView>,
        generics: Seq<Seq<char>>,
        ty: TyView,
    },
    Struct {
        name: Seq<char>,
        attrs: Seq<AttrView>,
        generics: Seq<Seq<char>>,
        fields: Seq<StructFieldView>,
    },
    Union {
        name: Seq<char>,
        attrs: Seq<AttrView>,
        generics: Seq<Seq<char>>,
        fields: Seq<StructFieldView>,
    },
    TupleStruct {
        name: Seq<char>,
        attrs: Seq<AttrView>,
        generics: Seq<Seq<char>>,
        field: TyView,
        field_is_pub: bool,
    },
    Enum { name: Seq<char>, attrs: Seq<AttrView>, variants: Seq<VariantView> },
    Impl {
        of_trait: Option<TyView>,
        generics: Seq<Seq<char>>,
        for_ty: TyView,
        impl_items: Seq<ImplItemView>,
    },
    BitOrImpl { prefix: Seq<char>, ty: TyView, constructor: Seq<char> },
    LayoutTest { name: Seq<char>, prefix: Seq<char>, ty: TyView, size: usize, align: usize },
}

/// What an item denotes.
pub open spec fn item_view(item: Item) -> ItemView
    decreases item,
{
    match item {
        Item::Use { attrs, path } => ItemView::Use {
            attrs: attrs.deep_view(),
            path: path.deep_view(),
        },
        Item::Mod { name, items } => ItemView::Mod {
            name: name@,
            items: Seq::new(
                items@.len(),
                |i: int|
                    if 0 <= i < items@.len() {
                        item_view(items@[i])
                    } else {
                        arbitrary()
                    },
            ),
        },
        Item::Const { name, ty, value } => ItemView::Const { name: name@, ty: ty@, value: value@ },
        Item::ForeignMod { abi, foreign_items } => ItemView::ForeignMod {
            abi,
            foreign_items: foreign_items.deep_view(),
        },
        Item::TyAlias { name, attrs, generics, ty } => ItemView::TyAlias {
            name: name@,
            attrs: attrs.deep_view(),
            generics: generics.deep_view(),
            ty: ty@,
        },
        Item::Struct { name, attrs, generics, fields } => ItemView::Struct {
            name: name@,
            attrs: attrs.deep_view(),
            generics: generics.deep_view(),
            fields: fields.deep_view(),
        },
        Item::Union { name, attrs, generics, fields } => ItemView::Union {
            name: name@,
            attrs: attrs.deep_view(),
            generics: generics.deep_view(),
            fields: fields.deep_view(),
        },
        Item::TupleStruct {
            name,
            attrs,
            generics,
            field,
            field_is_pub,
        } => ItemView::TupleStruct {
            name: name@,
            attrs: attrs.deep_view(),
            generics: generics.deep_view(),
            field: field@,
            field_is_pub,
        },
        Item::Enum { name, attrs, variants } => ItemView::Enum {
            name: name@,
            attrs: attrs.deep_view(),
            variants: variants.deep_view(),
        },
        Item::Impl { of_trait, generics, for_ty, impl_items } => ItemView::Impl {
            of_trait: of_trait.deep_view(),
            generics: generics.deep_view(),
            for_ty: for_ty@,
            impl_items: impl_items.deep_view(),
        },
        Item::BitOrImpl { prefix, ty, constructor } => ItemView::BitOrImpl {
            prefix: prefix@,
            ty: ty@,
            constructor: constructor@,
        },
        Item::LayoutTest { name, prefix, ty, size, align } => ItemView::LayoutTest {
            name: name@,
            prefix: prefix@,
            ty: ty@,
            size,
            align,
        },
    }
}

impl View for Item {
    type V = ItemView;

    open spec fn view(&self) -> ItemView {
        item_view(*self)
    }
}

impl DeepView for Item {
    type V = ItemView;

    open spec fn deep_view(&self) -> ItemView {
        item_view(*self)
    }
}

/// A public module.
pub fn module(name: String, items: Vec<Item>) -> (m: Item)
    ensures
        m@ == (ItemView::Mod { name: name@, items: items.deep_view() }),
{
    let m = Item::Mod { name, items };
    assert(m@->items =~= items.deep_view());
    m
}

} // verus!
