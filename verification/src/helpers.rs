//! Small pieces of syntax: primitive types, C types and blobs.
use vstd::prelude::*;

use crate::ast;
use crate::ast::{Attr, AttrView, Ty, TyView};
use crate::ir::{BindgenContext, FloatKind, Layout};

verus! {

/// A list of one string.
pub fn list1(a: &str) -> (r: Vec<String>)
    ensures
        r.deep_view() == seq![a@],
        r@.len() == 1,
{
    let mut r: Vec<String> = Vec::new();
    r.push(a.to_owned());
    assert(r.deep_view() =~= seq![a@]);
    r
}

/// A list of two strings.
pub fn list2(a: &str, b: &str) -> (r: Vec<String>)
    ensures
        r.deep_view() == seq![a@, b@],
        r@.len() == 2,
{
    let mut r: Vec<String> = Vec::new();
    r.push(a.to_owned());
    r.push(b.to_owned());
    assert(r.deep_view() =~= seq![a@, b@]);
    r
}

/// A list of three strings.
pub fn list3(a: &str, b: &str, c: &str) -> (r: Vec<String>)
    ensures
        r.deep_view() == seq![a@, b@, c@],
        r@.len() == 3,
{
    let mut r: Vec<String> = Vec::new();
    r.push(a.to_owned());
    r.push(b.to_owned());
    r.push(c.to_owned());
    assert(r.deep_view() =~= seq![a@, b@, c@]);
    r
}

/// The type of a single name.
pub open spec fn named_ty(name: Seq<char>) -> TyView {
    TyView::Path { global: false, segments: seq![name], args: seq![] }
}

/// The type of a single name.
pub fn ty_named(name: &str) -> (t: Ty)
    ensures
        t@ == named_ty(name@),
{
    let args: Vec<Ty> = Vec::new();
    assert(args.deep_view() =~= seq![]);
    ast::path(false, list1(name), args)
}

/// A path with one generic argument.
pub fn ty_applied(global: bool, segments: Vec<String>, arg: Ty) -> (t: Ty)
    ensures
        t@ == (TyView::Path { global, segments: segments.deep_view(), args: seq![arg@] }),
{
    let mut args: Vec<Ty> = Vec::new();
    args.push(arg);
    assert(args.deep_view() =~= seq![arg@]);
    ast::path(global, segments, args)
}

/// A path without generic arguments.
pub fn ty_path(global: bool, segments: Vec<String>) -> (t: Ty)
    ensures
        t@ == (TyView::Path { global, segments: segments.deep_view(), args: seq![] }),
{
    let args: Vec<Ty> = Vec::new();
    assert(args.deep_view() =~= seq![]);
    ast::path(global, segments, args)
}

/// A raw pointer to a type.
pub open spec fn ptr_to(inner: TyView, is_const: bool) -> TyView {
    TyView::Ptr { is_const, inner: Box::new(inner) }
}

/// An array type.
pub open spec fn array_of(elem: TyView, len: nat) -> TyView {
    TyView::Array { elem: Box::new(elem), len }
}

impl Ty {
    /// A raw pointer to this type.
    pub fn to_ptr(self, is_const: bool) -> (t: Ty)
        ensures
            t@ == ptr_to(self@, is_const),
    {
        Ty::Ptr { is_const, inner: Box::new(self) }
    }

    /// An array of this type.
    pub fn to_array(self, len: usize) -> (t: Ty)
        ensures
            t@ == array_of(self@, len as nat),
    {
        Ty::Array { elem: Box::new(self), len }
    }
}

/// The C type of the given name.
pub open spec fn c_type(ctx: BindgenContext, name: Seq<char>) -> TyView {
    match ctx.options.ctypes_prefix {
        Some(prefix) => TyView::Path {
            global: false,
            segments: seq![prefix@, name],
            args: seq![],
        },
        None => TyView::Path {
            global: true,
            segments: seq!["std"@, "os"@, "raw"@, name],
            args: seq![],
        },
    }
}

/// The C type of the given name.
pub fn raw_type(ctx: &BindgenContext, name: &str) -> (t: Ty)
    ensures
        t@ == c_type(*ctx, name@),
{
    match &ctx.options.ctypes_prefix {
        Some(prefix) => ty_path(false, list2(prefix.as_str(), name)),
        None => {
            let mut segments = list3("std", "os", "raw");
            let ghost before = segments.deep_view();
            segments.push(name.to_owned());
            assert(segments.deep_view() =~= before.push(name@));
            assert(segments.deep_view() =~= seq!["std"@, "os"@, "raw"@, name@]);
            ty_path(true, segments)
        },
    }
}

/// The Rust type of a C floating point type.
pub open spec fn float_ty(ctx: BindgenContext, kind: FloatKind) -> TyView {
    match kind {
        FloatKind::Float => if ctx.options.convert_floats {
            named_ty("f32"@)
        } else {
            c_type(ctx, "c_float"@)
        },
        FloatKind::Double | FloatKind::LongDouble => if ctx.options.convert_floats {
            named_ty("f64"@)
        } else {
            c_type(ctx, "c_double"@)
        },
        FloatKind::Float128 => array_of(named_ty("u8"@), 16),
    }
}

/// The Rust type of a C floating point type.
pub fn float_kind_rust_type(ctx: &BindgenContext, kind: FloatKind) -> (t: Ty)
    ensures
        t@ == float_ty(*ctx, kind),
{
    match kind {
        FloatKind::Float => {
            if ctx.options.convert_floats {
                ty_named("f32")
            } else {
                raw_type(ctx, "c_float")
            }
        },
        FloatKind::Double | FloatKind::LongDouble => {
            if ctx.options.convert_floats {
                ty_named("f64")
            } else {
                raw_type(ctx, "c_double")
            }
        },
        FloatKind::Float128 => ty_named("u8").to_array(16),
    }
}

/// The marker type that takes no space and stands for a use of `ty`.
pub open spec fn marker_ty(ctx: BindgenContext, ty: TyView) -> TyView {
    TyView::Path {
        global: true,
        segments: seq![ctx.trait_prefix@, "marker"@, "PhantomData"@],
        args: seq![ty],
    }
}

/// The marker type that takes no space and stands for a use of `ty`.
pub fn marker(ctx: &BindgenContext, ty: Ty) -> (t: Ty)
    ensures
        t@ == marker_ty(*ctx, ty@),
{
    ty_applied(true, list3(ctx.trait_prefix.as_str(), "marker", "PhantomData"), ty)
}

/// The unsigned integer type with the given alignment, or `u8`.
pub open spec fn blob_unit(align: usize) -> Seq<char> {
    if align == 8 {
        "u64"@
    } else if align == 4 {
        "u32"@
    } else if align == 2 {
        "u16"@
    } else {
        "u8"@
    }
}

/// How many such integers a blob holds.
pub open spec fn blob_len(layout: Layout) -> nat {
    if layout.align == 8 || layout.align == 4 || layout.align == 2 {
        (layout.size / layout.align) as nat
    } else {
        layout.size as nat
    }
}

/// How many such integers a blob holds.
pub fn blob_count(layout: Layout) -> (n: usize)
    ensures
        n == blob_len(layout),
{
    if layout.align == 8 {
        layout.size / 8
    } else if layout.align == 4 {
        layout.size / 4
    } else if layout.align == 2 {
        layout.size / 2
    } else {
        layout.size
    }
}

/// A type without structure that takes the given layout.
pub open spec fn blob_ty(layout: Layout) -> TyView {
    if blob_len(layout) == 1 {
        named_ty(blob_unit(layout.align))
    } else {
        array_of(named_ty(blob_unit(layout.align)), blob_len(layout))
    }
}

/// Builds a type without structure that takes a given layout.
pub struct BlobTyBuilder {
    layout: Layout,
}

impl BlobTyBuilder {
    /// The layout to take.
    pub closed spec fn layout(&self) -> Layout {
        self.layout
    }

    pub fn new(layout: Layout) -> (b: BlobTyBuilder)
        ensures
            b.layout() == layout,
    {
        BlobTyBuilder { layout }
    }

    /// The integer type of the alignment, as often as the size asks for.
    pub fn build(self) -> (t: Ty)
        ensures
            t@ == blob_ty(self.layout()),
    {
        let align = self.layout.align;
        let name = if align == 8 {
            "u64"
        } else if align == 4 {
            "u32"
        } else if align == 2 {
            "u16"
        } else {
            "u8"
        };
        let len = blob_count(self.layout);
        if len == 1 {
            ty_named(name)
        } else {
            ty_named(name).to_array(len)
        }
    }
}

/// The doc comment of an item, if it has one.
pub open spec fn doc_attrs(comment: Option<String>) -> Seq<AttrView> {
    match comment {
        Some(text) => seq![AttrView::Doc(text@)],
        None => seq![],
    }
}

/// The doc comment of an item, if it has one.
pub fn doc(comment: &Option<String>) -> (attrs: Vec<Attr>)
    ensures
        attrs.deep_view() == doc_attrs(*comment),
{
    let mut attrs: Vec<Attr> = Vec::new();
    if let Some(text) = comment {
        attrs.push(Attr::Doc(text.clone()));
    }
    assert(attrs.deep_view() =~= doc_attrs(*comment));
    attrs
}

} // verus!
