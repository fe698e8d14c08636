//! What the Rust type of each declared type is, kind by kind.
use vstd::prelude::*;

use crate::ast::TyView;
use crate::helpers;
use crate::ir;
use crate::ir::{BindgenContext, FloatKind, IntKind, ItemId, ItemKind, Layout, TypeKind};
use crate::layout;
use crate::layout::Extent;
use crate::types;
use crate::words;

verus! {

/// Whether a type is the C type of the given name: below the prefix that the
/// options give, or else in `::std::os::raw`.
pub open spec fn is_c_type(ctx: BindgenContext, ty: TyView, name: Seq<char>) -> bool {
    ty matches TyView::Path { global, segments, args } && args.len() == 0
        && match ctx.options.ctypes_prefix {
        Some(prefix) => !global && segments.len() == 2 && segments[0] == prefix@ && segments[1]
            == name,
        None => global && segments.len() == 4 && segments[0] == "std"@ && segments[1] == "os"@
            && segments[2] == "raw"@ && segments[3] == name,
    }
}

/// Whether a type is one of the types that generated code brings along: below
/// the root, where there are namespaces.
pub open spec fn is_support_type(
    ctx: BindgenContext,
    ty: TyView,
    name: Seq<char>,
    arg: TyView,
) -> bool {
    ty matches TyView::Path { global, segments, args } && !global && args.len() == 1 && args[0]
        == arg && (if ctx.options.enable_cxx_namespaces {
        segments.len() == 2 && segments[0] == "root"@ && segments[1] == name
    } else {
        segments.len() == 1 && segments[0] == name
    })
}

/// Whether a type is the item `id`, by the path that generated code names it
/// by.
pub open spec fn names_item(ctx: BindgenContext, ty: TyView, id: ItemId) -> bool {
    let path = ctx.item(id).namespace_aware_canonical_path@;
    ty matches TyView::Path { global, segments, args } && !global && segments.len() == path.len()
        && forall|k: int| 0 <= k < path.len() ==> #[trigger] segments[k] == path[k]@
}

/// An item is found at the position that its id gives, and a type is what the
/// item there is.
pub proof fn law_found(ctx: BindgenContext, id: ItemId)
    ensures
        ctx.has(id) <==> id.0 < ctx.items@.len(),
        ctx.item(id) == ctx.items@[id.0 as int],
        ctx.is_type(id) <==> id.0 < ctx.items@.len() && ctx.items@[id.0 as int].kind is Type,
        ctx.is_type(id) ==> ctx.items@[id.0 as int].kind == ItemKind::Type(ctx.ty(id)),
{
}

/// A pointer or a reference to anything but a function is a raw pointer to the
/// Rust type of what it points to. It is constant if and only if the pointer
/// or what it points to is: what is declared constant is never pointed to by
/// a mutable pointer.
pub proof fn law_pointer(ctx: BindgenContext, id: ItemId, inner: ItemId)
    requires
        ctx.converts(id),
        ctx.ty(id).kind == TypeKind::Pointer(inner) || ctx.ty(id).kind == TypeKind::Reference(
            inner,
        ),
        !(ctx.ty(ctx.ty(inner).canonical_type).kind is Function),
    ensures
        types::rust_ty(ctx, id).ty is Ptr,
        *types::rust_ty(ctx, id).ty->Ptr_inner == types::rust_ty(ctx, inner).ty,
        types::rust_ty(ctx, id).ty->Ptr_is_const <==> ctx.ty(id).is_const || ctx.ty(
            inner,
        ).is_const,
        types::rust_ty(ctx, id).complex == types::rust_ty(ctx, inner).complex,
{
    types::lemma_type_ok(ctx, id);
}

/// A pointer to a constant type points by `*const`, and one that nothing says
/// is constant by `*mut`.
pub proof fn law_pointee_const(ctx: BindgenContext, a: ItemId, b: ItemId, x: ItemId, y: ItemId)
    requires
        ctx.converts(a),
        ctx.converts(b),
        ctx.ty(a).kind == TypeKind::Pointer(x),
        ctx.ty(b).kind == TypeKind::Pointer(y),
        !(ctx.ty(ctx.ty(x).canonical_type).kind is Function),
        !(ctx.ty(ctx.ty(y).canonical_type).kind is Function),
        ctx.ty(x).is_const,
        !ctx.ty(y).is_const,
        !ctx.ty(b).is_const,
    ensures
        types::rust_ty(ctx, a).ty->Ptr_is_const,
        !types::rust_ty(ctx, b).ty->Ptr_is_const,
{
    law_pointer(ctx, a, x);
    law_pointer(ctx, b, y);
}

/// A template that is applied to arguments is the path of the template, with
/// the Rust types of the arguments, one for one, in place of its own. What is
/// no path takes no arguments.
pub proof fn law_template_ref(ctx: BindgenContext, id: ItemId, inner: ItemId, args: Vec<ItemId>)
    requires
        ctx.converts(id),
        ctx.ty(id).kind == TypeKind::TemplateRef(inner, args),
    ensures
        ({
            let own = types::rust_ty(ctx, inner);
            let got = types::rust_ty(ctx, id);
            if own.ty is Path {
                &&& got.ty is Path
                &&& got.ty->global == own.ty->global
                &&& got.ty->segments == own.ty->segments
                &&& got.ty->args.len() == args@.len()
                &&& forall|k: int|
                    0 <= k < args@.len() ==> #[trigger] got.ty->args[k] == types::rust_ty(
                        ctx,
                        args@[k],
                    ).ty
                &&& got.complex <==> own.complex || exists|k: int|
                    0 <= k < args@.len() && types::rust_ty(ctx, #[trigger] args@[k]).complex
            } else {
                got == own
            }
        }),
{
    types::lemma_type_ok(ctx, id);
    types::lemma_path(ctx, inner);
}

/// An array is an array of so many of the Rust type of its elements.
pub proof fn law_array(ctx: BindgenContext, id: ItemId, elem: ItemId, len: usize)
    requires
        ctx.converts(id),
        ctx.ty(id).kind == TypeKind::Array(elem, len),
    ensures
        types::rust_ty(ctx, id).ty is Array,
        *types::rust_ty(ctx, id).ty->elem == types::rust_ty(ctx, elem).ty,
        types::rust_ty(ctx, id).ty->len == len,
        types::rust_ty(ctx, id).complex == types::rust_ty(ctx, elem).complex,
{
    types::lemma_type_ok(ctx, id);
}

/// A reference to a type is what that type is.
pub proof fn law_resolved(ctx: BindgenContext, id: ItemId, inner: ItemId)
    requires
        ctx.converts(id),
        ctx.ty(id).kind == TypeKind::ResolvedTypeRef(inner),
    ensures
        types::rust_ty(ctx, id) == types::rust_ty(ctx, inner),
{
    types::lemma_type_ok(ctx, id);
}

/// A function type is an optional pointer to an unsafe function of the
/// declared ABI, with the arguments and the result of the function type: C
/// functions can be null.
pub proof fn law_function_type(ctx: BindgenContext, id: ItemId)
    requires
        ctx.converts(id),
        ctx.ty(id).kind is Function,
    ensures
        ({
            let got = types::rust_ty(ctx, id);
            &&& got.ty is Path
            &&& got.ty->global
            &&& got.ty->segments.len() == 3
            &&& got.ty->segments[0] == ctx.trait_prefix@
            &&& got.ty->segments[1] == "option"@
            &&& got.ty->segments[2] == "Option"@
            &&& got.ty->args.len() == 1
            &&& got.ty->args[0] is BareFn
            &&& got.ty->args[0]->abi == ctx.ty(id).kind->Function_0.abi
            &&& *got.ty->args[0]->decl == types::sig_decl(ctx, id).decl
            &&& got.complex == types::sig_decl(ctx, id).complex
        }),
{
    types::lemma_type_ok(ctx, id);
}

/// `void` is the C type of that name, and what points nowhere or to a block is
/// a pointer to it: constant if it points nowhere.
pub proof fn law_void_types(ctx: BindgenContext, id: ItemId)
    requires
        ctx.converts(id),
        ctx.ty(id).kind is Void || ctx.ty(id).kind is NullPtr || ctx.ty(id).kind is BlockPointer,
    ensures
        ({
            let got = types::rust_ty(ctx, id);
            &&& !got.complex
            &&& if ctx.ty(id).kind is Void {
                is_c_type(ctx, got.ty, "c_void"@)
            } else {
                got.ty is Ptr && is_c_type(ctx, *got.ty->Ptr_inner, "c_void"@)
                    && got.ty->Ptr_is_const == (ctx.ty(id).kind is NullPtr)
            }
        }),
{
    types::lemma_type_ok(ctx, id);
}

/// Which integer types are signed: those that are not declared unsigned, of
/// the C types all but `bool`.
pub proof fn law_signedness(kind: IntKind)
    ensures
        ir::int_is_signed(kind) == match kind {
            IntKind::Char => true,
            IntKind::Short => true,
            IntKind::Int => true,
            IntKind::Long => true,
            IntKind::LongLong => true,
            IntKind::I8 => true,
            IntKind::I16 => true,
            IntKind::I32 => true,
            IntKind::I64 => true,
            IntKind::I128 => true,
            IntKind::Bool => false,
            IntKind::UChar => false,
            IntKind::UShort => false,
            IntKind::UInt => false,
            IntKind::ULong => false,
            IntKind::ULongLong => false,
            IntKind::U8 => false,
            IntKind::U16 => false,
            IntKind::U32 => false,
            IntKind::U64 => false,
            IntKind::U128 => false,
            IntKind::Custom { name: _, is_signed } => is_signed,
        },
{
}

/// How many bytes an integer type of a fixed width has.
pub open spec fn fixed_bytes(kind: IntKind) -> Option<nat> {
    match kind {
        IntKind::I8 | IntKind::U8 => Some(1),
        IntKind::I16 | IntKind::U16 => Some(2),
        IntKind::I32 | IntKind::U32 => Some(4),
        IntKind::I64 | IntKind::U64 => Some(8),
        _ => None,
    }
}

/// The name of a C integer type without its signedness.
pub open spec fn c_stem(kind: IntKind) -> Option<Seq<char>> {
    match kind {
        IntKind::UChar => Some("char"@),
        IntKind::Short | IntKind::UShort => Some("short"@),
        IntKind::Int | IntKind::UInt => Some("int"@),
        IntKind::Long | IntKind::ULong => Some("long"@),
        IntKind::LongLong | IntKind::ULongLong => Some("longlong"@),
        _ => None,
    }
}

/// An integer type of a fixed width is the Rust integer type of that many
/// bytes and of its signedness.
pub proof fn law_fixed_integer(ctx: BindgenContext, id: ItemId, kind: IntKind)
    requires
        ctx.converts(id),
        ctx.ty(id).kind == TypeKind::Int(kind),
        fixed_bytes(kind) is Some,
    ensures
        ({
            let got = types::rust_ty(ctx, id).ty;
            &&& got is Path
            &&& words::is_name(got, got->segments[0])
            &&& words::is_integer_name(
                got->segments[0],
                ir::int_is_signed(kind),
                fixed_bytes(kind)->0,
            )
        }),
{
    types::lemma_type_ok(ctx, id);
    lemma_integer_names();
}

/// The names of the Rust integer types say what they are.
pub proof fn lemma_integer_names()
    ensures
        words::is_integer_name("i8"@, true, 1),
        words::is_integer_name("u8"@, false, 1),
        words::is_integer_name("i16"@, true, 2),
        words::is_integer_name("u16"@, false, 2),
        words::is_integer_name("i32"@, true, 4),
        words::is_integer_name("u32"@, false, 4),
        words::is_integer_name("i64"@, true, 8),
        words::is_integer_name("u64"@, false, 8),
{
    reveal_strlit("i8");
    reveal_strlit("u8");
    reveal_strlit("i16");
    reveal_strlit("u16");
    reveal_strlit("i32");
    reveal_strlit("u32");
    reveal_strlit("i64");
    reveal_strlit("u64");
    lemma_one_digit("i8"@, '8', true, 1);
    lemma_one_digit("u8"@, '8', false, 1);
    lemma_two_digits("i16"@, '1', '6', true, 2);
    lemma_two_digits("u16"@, '1', '6', false, 2);
    lemma_two_digits("i32"@, '3', '2', true, 4);
    lemma_two_digits("u32"@, '3', '2', false, 4);
    lemma_two_digits("i64"@, '6', '4', true, 8);
    lemma_two_digits("u64"@, '6', '4', false, 8);
}

proof fn lemma_one_digit(name: Seq<char>, a: char, signed: bool, bytes: nat)
    requires
        name.len() == 2,
        name[0] == (if signed {
            'i'
        } else {
            'u'
        }),
        name[1] == a,
        words::digit_of(a) == 8 * bytes,
        words::digit_of(a) < 10,
    ensures
        words::is_integer_name(name, signed, bytes),
{
    reveal_with_fuel(words::number_of, 2);
    let rest = name.skip(1);
    assert(rest =~= seq![a]);
    assert(rest.drop_last() =~= seq![]);
    assert(name.take(1) =~= seq![name[0]]);
}

proof fn lemma_two_digits(name: Seq<char>, a: char, b: char, signed: bool, bytes: nat)
    requires
        name.len() == 3,
        name[0] == (if signed {
            'i'
        } else {
            'u'
        }),
        name[1] == a,
        name[2] == b,
        a != '0',
        words::digit_of(a) < 10,
        words::digit_of(b) < 10,
        10 * words::digit_of(a) + words::digit_of(b) == 8 * bytes,
    ensures
        words::is_integer_name(name, signed, bytes),
{
    reveal_with_fuel(words::number_of, 3);
    let rest = name.skip(1);
    assert(rest =~= seq![a, b]);
    assert(rest.drop_last() =~= seq![a]);
    assert(seq![a].drop_last() =~= seq![]);
    assert(name.take(1) =~= seq![name[0]]);
}

/// A C integer type is the C type of its name, with a `u` if and only if it is
/// not signed.
pub proof fn law_c_integer(ctx: BindgenContext, id: ItemId, kind: IntKind)
    requires
        ctx.converts(id),
        ctx.ty(id).kind == TypeKind::Int(kind),
        c_stem(kind) is Some,
    ensures
        is_c_type(
            ctx,
            types::rust_ty(ctx, id).ty,
            (if ir::int_is_signed(kind) {
                "c_"@
            } else {
                "c_u"@
            }) + c_stem(kind)->0,
        ),
{
    types::lemma_type_ok(ctx, id);
    reveal_strlit("c_");
    reveal_strlit("c_u");
    reveal_strlit("char");
    reveal_strlit("short");
    reveal_strlit("int");
    reveal_strlit("long");
    reveal_strlit("longlong");
    reveal_strlit("c_uchar");
    reveal_strlit("c_short");
    reveal_strlit("c_ushort");
    reveal_strlit("c_int");
    reveal_strlit("c_uint");
    reveal_strlit("c_long");
    reveal_strlit("c_ulong");
    reveal_strlit("c_longlong");
    reveal_strlit("c_ulonglong");
    assert("c_u"@ + "char"@ =~= "c_uchar"@);
    assert("c_"@ + "short"@ =~= "c_short"@);
    assert("c_u"@ + "short"@ =~= "c_ushort"@);
    assert("c_"@ + "int"@ =~= "c_int"@);
    assert("c_u"@ + "int"@ =~= "c_uint"@);
    assert("c_"@ + "long"@ =~= "c_long"@);
    assert("c_u"@ + "long"@ =~= "c_ulong"@);
    assert("c_"@ + "longlong"@ =~= "c_longlong"@);
    assert("c_u"@ + "longlong"@ =~= "c_ulonglong"@);
}

/// The other integer types: `bool` is Rust's, `char` is C's, a type of another
/// name is known by it, and one of 128 bits takes their place.
pub proof fn law_other_integer(ctx: BindgenContext, id: ItemId, kind: IntKind)
    requires
        ctx.converts(id),
        ctx.ty(id).kind == TypeKind::Int(kind),
    ensures
        !types::rust_ty(ctx, id).complex,
        ({
            let got = types::rust_ty(ctx, id).ty;
            match kind {
                IntKind::Bool => words::is_name(got, "bool"@),
                IntKind::Char => is_c_type(ctx, got, "c_char"@),
                IntKind::Custom { name, is_signed: _ } => words::is_name(got, name@),
                IntKind::I128 | IntKind::U128 => layout::integer_extent(got) == Some(
                    Extent { size: 16, align: 8 },
                ),
                _ => true,
            }
        }),
{
    types::lemma_type_ok(ctx, id);
    reveal_strlit("u64");
    reveal_strlit("u8");
    reveal_strlit("u16");
    reveal_strlit("u32");
    reveal_with_fuel(layout::integer_extent, 2);
    assert("u64"@[1] != "u16"@[1]);
    assert("u64"@[1] != "u32"@[1]);
    assert("u64"@.len() != "u8"@.len());
}

/// Whether a type is that of a C floating point type.
pub open spec fn is_float(ctx: BindgenContext, ty: TyView, kind: FloatKind) -> bool {
    match kind {
        FloatKind::Float => if ctx.options.convert_floats {
            words::is_name(ty, "f32"@)
        } else {
            is_c_type(ctx, ty, "c_float"@)
        },
        FloatKind::Double | FloatKind::LongDouble => if ctx.options.convert_floats {
            words::is_name(ty, "f64"@)
        } else {
            is_c_type(ctx, ty, "c_double"@)
        },
        FloatKind::Float128 => layout::integer_extent(ty) == Some(Extent { size: 16, align: 1 }),
    }
}

proof fn lemma_float(ctx: BindgenContext, kind: FloatKind)
    ensures
        is_float(ctx, helpers::float_ty(ctx, kind), kind),
{
    reveal_strlit("u8");
    reveal_with_fuel(layout::integer_extent, 2);
    if kind == FloatKind::Float128 {
        let one = helpers::named_ty("u8"@);
        assert(layout::integer_extent(one) == Some(Extent { size: 1, align: 1 }));
        assert(helpers::float_ty(ctx, kind) == helpers::array_of(one, 16));
    }
}

/// A floating point type is Rust's of its size, or C's of its name if they are
/// not to be converted. One of 128 bits takes its place.
pub proof fn law_float(ctx: BindgenContext, id: ItemId, kind: FloatKind)
    requires
        ctx.converts(id),
        ctx.ty(id).kind == TypeKind::Float(kind),
    ensures
        is_float(ctx, types::rust_ty(ctx, id).ty, kind),
        !types::rust_ty(ctx, id).complex,
{
    types::lemma_type_ok(ctx, id);
    lemma_float(ctx, kind);
}

/// A complex number is the type that generated code brings along for it, of
/// the floating point type that it is made of, and asks for that type.
pub proof fn law_complex(ctx: BindgenContext, id: ItemId, kind: FloatKind)
    requires
        ctx.converts(id),
        ctx.ty(id).kind == TypeKind::Complex(kind),
    ensures
        types::rust_ty(ctx, id).complex,
        ({
            let got = types::rust_ty(ctx, id).ty;
            &&& got is Path
            &&& is_support_type(ctx, got, "__BindgenComplex"@, got->args[0])
            &&& is_float(ctx, got->args[0], kind)
        }),
{
    types::lemma_type_ok(ctx, id);
    lemma_float(ctx, kind);
}

/// A template parameter is named as the item is.
pub proof fn law_parameter(ctx: BindgenContext, id: ItemId)
    requires
        ctx.converts(id),
        ctx.ty(id).kind is Named,
    ensures
        ({
            let got = types::rust_ty(ctx, id).ty;
            &&& got is Path
            &&& words::is_name(got, got->segments[0])
            &&& words::is_mangled(ctx, ctx.item(id).canonical_name@, got->segments[0])
        }),
        !types::rust_ty(ctx, id).complex,
{
    types::lemma_type_ok(ctx, id);
    words::law_mangle(ctx, ctx.item(id).canonical_name@);
}

/// An enum is named by its path.
pub proof fn law_enum_type(ctx: BindgenContext, id: ItemId)
    requires
        ctx.converts(id),
        ctx.ty(id).kind is Enum,
    ensures
        names_item(ctx, types::rust_ty(ctx, id).ty, id),
        types::rust_ty(ctx, id).ty->args.len() == 0,
        !types::rust_ty(ctx, id).complex,
{
    types::lemma_type_ok(ctx, id);
}

/// Whether the Rust type of a compound type is a blob: it is opaque, or has
/// template parameters that are no types.
pub open spec fn is_blob(ctx: BindgenContext, id: ItemId) -> bool {
    ctx.item(id).is_opaque || ctx.ty(id).kind->Comp_0.has_non_type_template_params
}

/// A compound type is named by its path, with the Rust types of its template
/// arguments, one for one.
pub proof fn law_comp_type(ctx: BindgenContext, id: ItemId)
    requires
        ctx.converts(id),
        ctx.ty(id).kind is Comp,
        !is_blob(ctx, id),
    ensures
        ({
            let got = types::rust_ty(ctx, id);
            let args = ctx.item(id).applicable_template_args@;
            &&& names_item(ctx, got.ty, id)
            &&& got.ty->args.len() == args.len()
            &&& forall|k: int|
                0 <= k < args.len() ==> #[trigger] got.ty->args[k] == types::rust_ty(
                    ctx,
                    args[k],
                ).ty
            &&& got.complex <==> exists|k: int|
                0 <= k < args.len() && types::rust_ty(ctx, #[trigger] args[k]).complex
        }),
{
    types::lemma_type_ok(ctx, id);
}

/// Whether a type stands for a layout: made of unsigned integers of its
/// alignment, or of bytes where there are none of it, as many as its size
/// takes.
pub open spec fn fills(ty: TyView, layout: Layout) -> bool {
    let unit: nat = if layout.align == 2 || layout.align == 4 || layout.align == 8 {
        layout.align as nat
    } else {
        1
    };
    layout::integer_extent(ty) matches Some(e) && e.align == unit && e.size <= layout.size
        && layout.size < e.size + unit && e.size % unit == 0 && (ty is Array <==> e.size != unit)
}

/// A blob fills its layout, whatever that is.
pub proof fn law_blob_fills(layout: Layout)
    ensures
        fills(helpers::blob_ty(layout), layout),
{
    reveal_strlit("u8");
    reveal_strlit("u16");
    reveal_strlit("u32");
    reveal_strlit("u64");
    reveal_with_fuel(layout::integer_extent, 2);
    assert("u8"@.len() != "u16"@.len());
    assert("u16"@[1] != "u32"@[1]);
    assert("u16"@[1] != "u64"@[1]);
    assert("u32"@[1] != "u64"@[1]);
    let got = helpers::blob_ty(layout);
    let n = helpers::blob_len(layout);
    let name = helpers::blob_unit(layout.align);
    let unit: nat = if layout.align == 2 || layout.align == 4 || layout.align == 8 {
        layout.align as nat
    } else {
        1
    };
    let one = helpers::named_ty(name);
    assert(layout::integer_extent(one) == Some(Extent { size: unit, align: unit }));
    assert(n == layout.size as nat / unit) by {
        if unit == 1 {
            vstd::arithmetic::div_mod::lemma_div_basics(layout.size as int);
        } else {
            assert(n == (layout.size / layout.align) as nat);
        }
    }
    vstd::arithmetic::div_mod::lemma_fundamental_div_mod(layout.size as int, unit as int);
    vstd::arithmetic::div_mod::lemma_mod_bound(layout.size as int, unit as int);
    vstd::arithmetic::div_mod::lemma_mod_multiples_basic(n as int, unit as int);
    vstd::arithmetic::mul::lemma_mul_is_commutative(n as int, unit as int);
    assert(n != 1 ==> unit * n != unit) by (nonlinear_arith)
        requires
            unit > 0,
    ;
    if n != 1 {
        assert(layout::integer_extent(got) == Some(Extent { size: unit * n, align: unit }));
    }
}

/// An opaque compound type, or one whose template parameters are no types, is
/// a blob of its layout, or nothing if that is not known.
pub proof fn law_comp_blob(ctx: BindgenContext, id: ItemId)
    requires
        ctx.converts(id),
        ctx.ty(id).kind is Comp,
        is_blob(ctx, id),
    ensures
        match ctx.ty(id).layout {
            Some(layout) => fills(types::rust_ty(ctx, id).ty, layout),
            None => types::rust_ty(ctx, id).ty is Unit,
        },
        !types::rust_ty(ctx, id).complex,
{
    types::lemma_type_ok(ctx, id);
    if let Some(layout) = ctx.ty(id).layout {
        law_blob_fills(layout);
    }
}

/// Whether a typedef is known by its spelling: it is one of the integer types
/// of C's standard headers.
pub open spec fn is_standard(spelling: Seq<char>) -> bool {
    ||| spelling == "int8_t"@
    ||| spelling == "uint8_t"@
    ||| spelling == "int16_t"@
    ||| spelling == "uint16_t"@
    ||| spelling == "int32_t"@
    ||| spelling == "uint32_t"@
    ||| spelling == "int64_t"@
    ||| spelling == "uint64_t"@
    ||| is_word_sized(spelling, true)
    ||| is_word_sized(spelling, false)
}

/// Whether a typedef is one of an integer type of the size of a pointer.
pub open spec fn is_word_sized(spelling: Seq<char>, signed: bool) -> bool {
    if signed {
        spelling == "intptr_t"@ || spelling == "ptrdiff_t"@ || spelling == "ssize_t"@
    } else {
        spelling == "uintptr_t"@ || spelling == "size_t"@
    }
}

/// The typedefs that are known by their spelling are those of C's standard
/// headers. Those of a fixed width are the Rust integers of that width and
/// signedness, and those of the size of a pointer `isize` and `usize`.
pub proof fn law_standard_integers(spelling: Seq<char>)
    ensures
        types::known_type(spelling) is Some <==> is_standard(spelling),
        ({
            let got = types::known_type(spelling)->0;
            &&& spelling == "int8_t"@ ==> words::is_integer_name(got, true, 1)
            &&& spelling == "uint8_t"@ ==> words::is_integer_name(got, false, 1)
            &&& spelling == "int16_t"@ ==> words::is_integer_name(got, true, 2)
            &&& spelling == "uint16_t"@ ==> words::is_integer_name(got, false, 2)
            &&& spelling == "int32_t"@ ==> words::is_integer_name(got, true, 4)
            &&& spelling == "uint32_t"@ ==> words::is_integer_name(got, false, 4)
            &&& spelling == "int64_t"@ ==> words::is_integer_name(got, true, 8)
            &&& spelling == "uint64_t"@ ==> words::is_integer_name(got, false, 8)
            &&& is_word_sized(spelling, true) ==> got == "isize"@
            &&& is_word_sized(spelling, false) ==> got == "usize"@
        }),
{
    reveal_strlit("int8_t");
    reveal_strlit("uint8_t");
    reveal_strlit("int16_t");
    reveal_strlit("uint16_t");
    reveal_strlit("int32_t");
    reveal_strlit("uint32_t");
    reveal_strlit("int64_t");
    reveal_strlit("uint64_t");
    reveal_strlit("uintptr_t");
    reveal_strlit("size_t");
    reveal_strlit("intptr_t");
    reveal_strlit("ptrdiff_t");
    reveal_strlit("ssize_t");
    assert("uint8_t"@[3] == 't' && "ssize_t"@[3] == 'z' && "intptr_t"@[4] == 't');
    assert("int8_t"@[0] == 'i' && "size_t"@[0] == 's' && "int8_t"@.len() == 6);
    assert("uint8_t"@[0] == 'u' && "int16_t"@[0] == 'i' && "ssize_t"@[0] == 's');
    assert("int16_t"@[3] == '1' && "int32_t"@[3] == '3' && "int64_t"@[3] == '6');
    assert("uint16_t"@[4] == '1' && "uint32_t"@[4] == '3' && "uint64_t"@[4] == '6');
    assert("intptr_t"@[0] == 'i' && "uint16_t"@[0] == 'u' && "intptr_t"@.len() == 8);
    assert("uintptr_t"@[0] == 'u' && "ptrdiff_t"@[0] == 'p');
    if spelling == "size_t"@ {
        assert(spelling[0] == 's' && spelling.len() == 6);
        assert(types::known_type(spelling) == Some("usize"@));
    }
    if spelling == "uintptr_t"@ {
        assert(spelling.len() == 9);
        assert(types::known_type(spelling) == Some("usize"@));
    }
    lemma_integer_names();
}

/// A typedef that is known by its spelling is the type that is known for it.
pub proof fn law_standard_typedef(
    ctx: BindgenContext,
    id: ItemId,
    spelling: String,
    inner: ItemId,
)
    requires
        ctx.converts(id),
        ctx.ty(id).kind == TypeKind::Alias(spelling, inner) || ctx.ty(id).kind
            == TypeKind::TemplateAlias(spelling, inner),
        !ctx.item(id).is_opaque,
        is_standard(spelling@),
    ensures
        words::is_name(types::rust_ty(ctx, id).ty, types::known_type(spelling@)->0),
        !types::rust_ty(ctx, id).complex,
{
    types::lemma_type_ok(ctx, id);
    law_standard_integers(spelling@);
}

/// An opaque typedef is a blob of its layout, and of none if that is not
/// known.
pub proof fn law_opaque_typedef(
    ctx: BindgenContext,
    id: ItemId,
    spelling: String,
    inner: ItemId,
)
    requires
        ctx.converts(id),
        ctx.ty(id).kind == TypeKind::Alias(spelling, inner) || ctx.ty(id).kind
            == TypeKind::TemplateAlias(spelling, inner),
        ctx.item(id).is_opaque,
    ensures
        fills(
            types::rust_ty(ctx, id).ty,
            match ctx.ty(id).layout {
                Some(layout) => layout,
                None => Layout { size: 0, align: 0 },
            },
        ),
        !types::rust_ty(ctx, id).complex,
{
    types::lemma_type_ok(ctx, id);
    law_blob_fills(types::layout_or_zero(ctx.ty(id).layout));
}

/// Any other typedef is named by its path, with its template parameters in
/// their order.
pub proof fn law_typedef(ctx: BindgenContext, id: ItemId, spelling: String, inner: ItemId)
    requires
        ctx.converts(id),
        ctx.ty(id).kind == TypeKind::Alias(spelling, inner) || ctx.ty(id).kind
            == TypeKind::TemplateAlias(spelling, inner),
        !ctx.item(id).is_opaque,
        !is_standard(spelling@),
    ensures
        ({
            let got = types::rust_ty(ctx, id).ty;
            let params = ctx.item(id).applicable_template_args@.filter(
                |arg: ItemId| ctx.ty(arg).kind is Named,
            );
            &&& names_item(ctx, got, id)
            &&& got->args.len() == params.len()
            &&& forall|k: int|
                0 <= k < params.len() ==> words::is_name(
                    #[trigger] got->args[k],
                    ctx.mangle(ctx.item(params[k]).canonical_name@),
                )
        }),
        !types::rust_ty(ctx, id).complex,
{
    types::lemma_type_ok(ctx, id);
    law_standard_integers(spelling@);
}

/// An argument is passed as its Rust type, but for an array, of which a
/// pointer to the elements is passed, constant if the array is.
pub proof fn law_argument(ctx: BindgenContext, id: ItemId)
    requires
        ctx.converts(id),
    ensures
        match ctx.ty(id).kind {
            TypeKind::Array(elem, _) => {
                let got = types::arg_ty(ctx, id);
                &&& got.ty is Ptr
                &&& *got.ty->Ptr_inner == types::rust_ty(ctx, elem).ty
                &&& got.ty->Ptr_is_const == ctx.ty(id).is_const
                &&& got.complex == types::rust_ty(ctx, elem).complex
            },
            _ => types::arg_ty(ctx, id) == types::rust_ty(ctx, id),
        },
{
    types::lemma_type_ok(ctx, id);
}

/// A signature takes as many arguments as are declared, each of the type that
/// such an argument is passed as, and returns the Rust type of its result,
/// or nothing if that is `void`.
pub proof fn law_signature(ctx: BindgenContext, id: ItemId)
    requires
        ctx.converts(id),
        ctx.ty(id).kind is Function,
    ensures
        ({
            let sig = ctx.ty(id).kind->Function_0;
            let args = sig.argument_types@;
            let got = types::sig_decl(ctx, id);
            &&& got.decl.inputs.len() == args.len()
            &&& forall|k: int|
                0 <= k < args.len() ==> (#[trigger] got.decl.inputs[k]).ty == types::arg_ty(
                    ctx,
                    args[k].1,
                ).ty
            &&& got.decl.output is None <==> ctx.ty(sig.return_type).kind is Void
            &&& got.decl.output matches Some(ty) ==> ty == types::rust_ty(
                ctx,
                sig.return_type,
            ).ty
            &&& got.decl.variadic == sig.is_variadic
            &&& got.complex <==> types::rust_ty(ctx, sig.return_type).complex || exists|k: int|
                0 <= k < args.len() && types::arg_ty(ctx, (#[trigger] args[k]).1).complex
        }),
{
    types::lemma_sig_ok(ctx, id);
}

/// Whether no argument without a name lies between two others.
pub open spec fn all_named_between(
    args: Seq<(Option<String>, ItemId)>,
    j: int,
    k: int,
) -> bool {
    forall|i: int| j < i < k ==> (#[trigger] args[i]).0 is Some
}

/// An argument with a name keeps it. Those without are numbered from one, in
/// their order.
pub proof fn law_argument_names(ctx: BindgenContext, id: ItemId, k: int)
    requires
        ctx.converts(id),
        ctx.ty(id).kind is Function,
        0 <= k < ctx.ty(id).kind->Function_0.argument_types@.len(),
    ensures
        ({
            let args = ctx.ty(id).kind->Function_0.argument_types@;
            let name = types::sig_decl(ctx, id).decl.inputs[k].name;
            match args[k].0 {
                Some(given) => words::is_mangled(ctx, given@, name),
                None => {
                    &&& all_named_between(args, -1, k) ==> words::is_numbered(name, "arg"@, 1)
                    &&& forall|j: int|
                        0 <= j < k && args[j].0 is None && #[trigger] all_named_between(
                            args,
                            j,
                            k,
                        ) ==> exists|n: nat|
                            #[trigger] words::is_numbered(
                                types::sig_decl(ctx, id).decl.inputs[j].name,
                                "arg"@,
                                n,
                            ) && words::is_numbered(name, "arg"@, n + 1)
                },
            }
        }),
{
    types::lemma_sig_ok(ctx, id);
    let args = ctx.ty(id).kind->Function_0.argument_types@;
    match args[k].0 {
        Some(given) => {
            words::law_mangle(ctx, given@);
        },
        None => {
            let n = types::unnamed_before(args, k + 1);
            words::lemma_numbered("arg"@, n);
            if all_named_between(args, -1, k) {
                lemma_unnamed_still(args, -1, k);
            }
            assert forall|j: int|
                0 <= j < k && args[j].0 is None && #[trigger] all_named_between(
                    args,
                    j,
                    k,
                ) implies exists|n: nat|
                    #[trigger] words::is_numbered(
                        types::sig_decl(ctx, id).decl.inputs[j].name,
                        "arg"@,
                        n,
                    ) && words::is_numbered(
                    types::sig_decl(ctx, id).decl.inputs[k].name,
                    "arg"@,
                    n + 1,
                ) by {
                let m = types::unnamed_before(args, j + 1);
                words::lemma_numbered("arg"@, m);
                lemma_unnamed_still(args, j, k);
                assert(n == m + 1);
                assert(words::is_numbered(
                    types::sig_decl(ctx, id).decl.inputs[j].name,
                    "arg"@,
                    m,
                ));
            }
        },
    }
}

proof fn lemma_unnamed_still(args: Seq<(Option<String>, ItemId)>, j: int, k: int)
    requires
        -1 <= j < k < args.len(),
        all_named_between(args, j, k),
    ensures
        types::unnamed_before(args, k) == types::unnamed_before(args, j + 1),
    decreases k - j,
{
    if j + 1 < k {
        assert(args[k - 1].0 is Some);
        lemma_unnamed_still(args, j, k - 1);
    }
}

/// A path with template arguments carries the Rust types of all of them, or of
/// the template parameters among them.
pub proof fn law_path_args(
    ctx: BindgenContext,
    id: ItemId,
    only_named: bool,
    kept: Seq<ItemId>,
)
    requires
        !only_named ==> kept == ctx.item(id).applicable_template_args@,
        only_named ==> kept == ctx.item(id).applicable_template_args@.filter(
            |arg: ItemId| ctx.ty(arg).kind is Named,
        ),
    ensures
        ({
            let got = types::rust_tys(ctx, types::path_args(ctx, ctx.item(id), only_named));
            &&& got.len() == kept.len()
            &&& forall|k: int|
                0 <= k < kept.len() ==> #[trigger] got[k] == types::rust_ty(ctx, kept[k]).ty
            &&& types::any_complex(
                ctx,
                types::path_args(ctx, ctx.item(id), only_named),
            ) <==> exists|k: int|
                0 <= k < kept.len() && types::rust_ty(ctx, #[trigger] kept[k]).complex
        }),
{
}

} // verus!
