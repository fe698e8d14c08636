//! From declared types to Rust types.
use vstd::prelude::*;

use crate::ast;
use crate::ast::{Arg, ArgView, FnDecl, FnDeclView, Ty, TyView};
use crate::helpers;
use crate::helpers::{
    float_kind_rust_type, list1, list2, list3, raw_type, ty_applied, ty_named, ty_path, BlobTyBuilder,
};
use crate::ir::{
    BindgenContext, FloatKind, FunctionSig, IntKind, Item, ItemId, ItemKind, Layout, Type, TypeKind,
};
use crate::names;
use crate::names::{numbered, same};
use crate::ranking;

verus! {

/// A converted type, and whether complex numbers occur in what was converted.
#[verifier::ext_equal]
pub struct Converted {
    pub ty: TyView,
    pub complex: bool,
}

/// A converted signature, and whether complex numbers occur in it.
#[verifier::ext_equal]
pub struct ConvertedDecl {
    pub decl: FnDeclView,
    pub complex: bool,
}

/// Whether the Rust type of a type is a path, as far as the kind of the type
/// says so without converting what it is made of.
pub open spec fn yields_path(ctx: BindgenContext, rank: spec_fn(int) -> nat, id: ItemId) -> bool
    decreases rank(id.0 as int),
{
    let item = ctx.item(id);
    let ty = ctx.ty(id);
    match ty.kind {
        TypeKind::Void
        | TypeKind::Complex(_)
        | TypeKind::Function(_)
        | TypeKind::Enum(_)
        | TypeKind::Named => true,
        TypeKind::Int(kind) => !(kind is I128 || kind is U128),
        TypeKind::Float(kind) => kind != FloatKind::Float128,
        TypeKind::TemplateAlias(_, _) | TypeKind::Alias(_, _) => item.is_opaque
            ==> helpers::blob_len(layout_or_zero(ty.layout)) == 1,
        TypeKind::Comp(info) => item.is_opaque || info.has_non_type_template_params ==> (
        ty.layout matches Some(layout) && helpers::blob_len(layout) == 1),
        TypeKind::ResolvedTypeRef(inner) | TypeKind::TemplateRef(inner, _) => {
            rank(inner.0 as int) < rank(id.0 as int) && yields_path(ctx, rank, inner)
        },
        TypeKind::Pointer(inner) | TypeKind::Reference(inner) => {
            &&& ctx.ty(ctx.ty(inner).canonical_type).kind is Function
            &&& rank(inner.0 as int) < rank(id.0 as int)
            &&& yields_path(ctx, rank, inner)
        },
        _ => false,
    }
}

impl BindgenContext {
    /// Whether `id` is a type that is ranked below the item at `i`.
    pub open spec fn below(&self, rank: spec_fn(int) -> nat, i: int, id: ItemId) -> bool {
        self.is_type(id) && 0 < rank(id.0 as int) < rank(i)
    }

    /// Whether each type of a list is ranked below the item at `i`.
    pub open spec fn all_below(
        &self,
        rank: spec_fn(int) -> nat,
        i: int,
        ids: Seq<ItemId>,
    ) -> bool {
        forall|k: int| 0 <= k < ids.len() ==> self.below(rank, i, #[trigger] ids[k])
    }

    /// Whether what is at `i` is a type that has a Rust type, and the types
    /// whose Rust types that takes are ranked below it.
    pub open spec fn type_ok(&self, rank: spec_fn(int) -> nat, i: int) -> bool {
        &&& 0 <= i < self.items@.len()
        &&& self.items@[i].kind is Type
        &&& self.kind_ok(rank, i, self.items@[i].kind->Type_0.kind)
    }

    /// The same, of what kind the type is.
    pub open spec fn kind_ok(&self, rank: spec_fn(int) -> nat, i: int, kind: TypeKind) -> bool {
        let item = self.items@[i];
        match kind {
            TypeKind::UnresolvedTypeRef => false,
            TypeKind::Array(inner, _) => self.below(rank, i, inner),
            TypeKind::Pointer(inner) | TypeKind::Reference(inner) => {
                &&& self.below(rank, i, inner)
                &&& self.is_type(self.ty(inner).canonical_type)
            },
            TypeKind::ResolvedTypeRef(inner) => self.below(rank, i, inner),
            TypeKind::TemplateRef(inner, args) => {
                &&& self.below(rank, i, inner)
                &&& yields_path(*self, rank, inner) ==> self.all_below(rank, i, args@)
            },
            TypeKind::Function(sig) => self.sig_ok(rank, i, sig),
            TypeKind::TemplateAlias(spelling, _) | TypeKind::Alias(spelling, _) => {
                item.is_opaque || known_type(spelling@) is Some || {
                    &&& item.namespace_aware_canonical_path@.len() > 0
                    &&& self.template_args_ok(item)
                    &&& self.all_below(
                        rank,
                        i,
                        named_args(*self, item.applicable_template_args@),
                    )
                }
            },
            TypeKind::Comp(info) => item.is_opaque || info.has_non_type_template_params || {
                &&& item.namespace_aware_canonical_path@.len() > 0
                &&& self.all_below(rank, i, item.applicable_template_args@)
            },
            _ => true,
        }
    }

    /// Whether the template arguments of an item are types.
    pub open spec fn template_args_ok(&self, item: Item) -> bool {
        forall|k: int|
            0 <= k < item.applicable_template_args@.len() ==> self.is_type(
                #[trigger] item.applicable_template_args@[k],
            )
    }

    /// Whether the types of a signature are ranked below it, and its named
    /// arguments have a name.
    pub open spec fn sig_ok(&self, rank: spec_fn(int) -> nat, i: int, sig: FunctionSig) -> bool {
        &&& self.below(rank, i, sig.return_type)
        &&& self.all_below(rank, i, arg_types(sig))
        &&& forall|k: int|
            0 <= k < sig.argument_types@.len() ==> (
            (#[trigger] sig.argument_types@[k]).0 matches Some(name) ==> self.mangle(name@).len()
                > 0)
    }

    /// Whether everything that is ranked is a type that has a Rust type, by
    /// way of types ranked below it.
    pub open spec fn types_ranked_by(&self, rank: spec_fn(int) -> nat) -> bool {
        forall|i: int| rank(i) > 0 ==> #[trigger] self.type_ok(rank, i)
    }

    /// The rankings of types.
    pub open spec fn type_rankings(&self) -> spec_fn(spec_fn(int) -> nat) -> bool {
        |rank: spec_fn(int) -> nat| self.types_ranked_by(rank)
    }

    /// Whether `id` is a type that has a Rust type: what it is made of, as
    /// far as the Rust type takes it, exists, and is not the type itself.
    pub open spec fn converts(&self, id: ItemId) -> bool {
        exists|rank: spec_fn(int) -> nat| #[trigger]
            self.types_ranked_by(rank) && rank(id.0 as int) > 0
    }

    /// The least rank that each type can have, or zero.
    pub open spec fn type_ranks(&self) -> spec_fn(int) -> nat {
        |i: int| ranking::least_rank(self.type_rankings(), i)
    }

    /// The least rank that a type can have, or zero.
    pub open spec fn type_rank(&self, id: ItemId) -> nat {
        (self.type_ranks())(id.0 as int)
    }

    /// Every item is held under its own id.
    pub open spec fn ids_wf(&self) -> bool {
        forall|i: int| 0 <= i < self.items@.len() ==> (#[trigger] self.items@[i]).id.0 == i
    }
}

/// The types of the arguments of a signature.
pub open spec fn arg_types(sig: FunctionSig) -> Seq<ItemId> {
    Seq::new(sig.argument_types@.len(), |k: int| sig.argument_types@[k].1)
}

/// Whether the Rust type of the type at `i` is a path if and only if that of
/// `id` is.
pub open spec fn leads_to(ctx: BindgenContext, i: int, id: ItemId) -> bool {
    ctx.items@[i].kind is Type && match ctx.items@[i].kind->Type_0.kind {
        TypeKind::ResolvedTypeRef(inner) | TypeKind::TemplateRef(inner, _) => inner == id,
        TypeKind::Pointer(inner) | TypeKind::Reference(inner) => {
            inner == id && ctx.ty(ctx.ty(inner).canonical_type).kind is Function
        },
        _ => false,
    }
}

/// Whether what a ranked type leads to is ranked below it.
pub open spec fn leads_down(ctx: BindgenContext, rank: spec_fn(int) -> nat) -> bool {
    forall|i: int, id: ItemId|
        rank(i) > 0 && #[trigger] leads_to(ctx, i, id) ==> 0 < rank(id.0 as int) < rank(i)
}

/// Whether a Rust type is a path does not depend on the ranking.
pub proof fn lemma_yields_path(
    ctx: BindgenContext,
    a: spec_fn(int) -> nat,
    b: spec_fn(int) -> nat,
    id: ItemId,
)
    requires
        leads_down(ctx, a),
        forall|i: int, next: ItemId|
            a(i) > 0 && #[trigger] leads_to(ctx, i, next) ==> b(next.0 as int) < b(i),
        a(id.0 as int) > 0,
        ctx.is_type(id),
        forall|i: int| #[trigger]
            a(i) > 0 ==> 0 <= i < ctx.items@.len() && ctx.items@[i].kind is Type,
    ensures
        yields_path(ctx, a, id) == yields_path(ctx, b, id),
    decreases a(id.0 as int),
{
    match ctx.ty(id).kind {
        TypeKind::ResolvedTypeRef(inner) | TypeKind::TemplateRef(inner, _) => {
            assert(leads_to(ctx, id.0 as int, inner));
            assert(a(inner.0 as int) > 0);
            lemma_yields_path(ctx, a, b, inner);
        },
        TypeKind::Pointer(inner) | TypeKind::Reference(inner) => {
            if ctx.ty(ctx.ty(inner).canonical_type).kind is Function {
                assert(leads_to(ctx, id.0 as int, inner));
                assert(a(inner.0 as int) > 0);
                lemma_yields_path(ctx, a, b, inner);
            }
        },
        _ => {},
    }
}

/// What a ranking of types says of what a type leads to.
proof fn lemma_leads_down(ctx: BindgenContext, rank: spec_fn(int) -> nat)
    requires
        ctx.types_ranked_by(rank),
    ensures
        leads_down(ctx, rank),
        forall|i: int| #[trigger]
            rank(i) > 0 ==> 0 <= i < ctx.items@.len() && ctx.items@[i].kind is Type,
{
    assert forall|i: int| #[trigger] rank(i) > 0 implies 0 <= i < ctx.items@.len()
        && ctx.items@[i].kind is Type by {
        assert(ctx.type_ok(rank, i));
    }
    assert forall|i: int, id: ItemId|
        rank(i) > 0 && #[trigger] leads_to(ctx, i, id) implies 0 < rank(id.0 as int) < rank(i) by {
        assert(ctx.type_ok(rank, i));
    }
}

/// The least rank of a type is below that of any ranking, and what a ranking
/// ranks below a type the least ranks do too.
proof fn lemma_least_below(ctx: BindgenContext, rank: spec_fn(int) -> nat, i: int)
    requires
        ctx.types_ranked_by(rank),
        rank(i) > 0,
    ensures
        0 < (ctx.type_ranks())(i) <= rank(i),
        rank(i) == (ctx.type_ranks())(i) ==> forall|id: ItemId| #[trigger]
            ctx.below(rank, i, id) ==> ctx.below(ctx.type_ranks(), i, id),
{
    ranking::lemma_least_rank(ctx.type_rankings(), rank, i);
    assert forall|id: ItemId| #[trigger] ctx.below(rank, i, id) implies 0
        < (ctx.type_ranks())(id.0 as int) <= rank(id.0 as int) by {
        ranking::lemma_least_rank(ctx.type_rankings(), rank, id.0 as int);
    }
}

/// Some ranking gives a type its least rank.
proof fn lemma_least_attained(ctx: BindgenContext, i: int) -> (rank: spec_fn(int) -> nat)
    requires
        (ctx.type_ranks())(i) > 0,
    ensures
        ctx.types_ranked_by(rank),
        rank(i) == (ctx.type_ranks())(i),
{
    let n = (ctx.type_ranks())(i);
    assert(ranking::is_least(ctx.type_rankings(), i, n));
    assert(ranking::attained(ctx.type_rankings(), i, n));
    choose|rank: spec_fn(int) -> nat| #[trigger] (ctx.type_rankings())(rank) && rank(i) == n
}

/// What a type leads to has a lower least rank.
pub proof fn lemma_least_leads_down(ctx: BindgenContext)
    ensures
        leads_down(ctx, ctx.type_ranks()),
        forall|i: int| #[trigger]
            (ctx.type_ranks())(i) > 0 ==> 0 <= i < ctx.items@.len() && ctx.items@[i].kind is Type,
{
    let least = ctx.type_ranks();
    assert forall|i: int| #[trigger] least(i) > 0 implies 0 <= i < ctx.items@.len()
        && ctx.items@[i].kind is Type by {
        let rank = lemma_least_attained(ctx, i);
        assert(ctx.type_ok(rank, i));
    }
    assert forall|i: int, id: ItemId|
        least(i) > 0 && #[trigger] leads_to(ctx, i, id) implies 0 < least(id.0 as int) < least(
        i,
    ) by {
        let rank = lemma_least_attained(ctx, i);
        lemma_leads_down(ctx, rank);
        lemma_least_below(ctx, rank, id.0 as int);
    }
}

/// The least ranks rank the types.
pub proof fn lemma_type_ok(ctx: BindgenContext, id: ItemId)
    requires
        ctx.converts(id),
    ensures
        ctx.is_type(id),
        ctx.type_rank(id) > 0,
        ctx.type_ok(ctx.type_ranks(), id.0 as int),
        forall|part: ItemId| #[trigger]
            ctx.below(ctx.type_ranks(), id.0 as int, part) ==> ctx.converts(part),
{
    let i = id.0 as int;
    let least = ctx.type_ranks();
    let some = choose|rank: spec_fn(int) -> nat| #[trigger]
        ctx.types_ranked_by(rank) && rank(i) > 0;
    lemma_least_below(ctx, some, i);
    let rank = lemma_least_attained(ctx, i);
    assert(ctx.type_ok(rank, i));
    lemma_least_below(ctx, rank, i);
    lemma_least_leads_down(ctx);
    lemma_leads_down(ctx, rank);
    if let TypeKind::TemplateRef(inner, args) = ctx.ty(id).kind {
        assert forall|j: int, next: ItemId|
            rank(j) > 0 && #[trigger] leads_to(ctx, j, next) implies least(next.0 as int) < least(
            j,
        ) by {
            lemma_least_below(ctx, rank, j);
        }
        lemma_yields_path(ctx, rank, least, inner);
    }
    assert forall|part: ItemId| #[trigger] ctx.below(least, i, part) implies ctx.converts(
        part,
    ) by {
        let other = lemma_least_attained(ctx, part.0 as int);
        assert(ctx.types_ranked_by(other) && other(part.0 as int) > 0);
    }
}

/// The types of a signature have Rust types, and rank below it.
pub proof fn lemma_sig_ok(ctx: BindgenContext, id: ItemId)
    requires
        ctx.converts(id),
        ctx.ty(id).kind is Function,
    ensures
        ({
            let sig = ctx.ty(id).kind->Function_0;
            &&& ctx.converts(sig.return_type)
            &&& ctx.is_type(sig.return_type)
            &&& ctx.type_rank(sig.return_type) < ctx.type_rank(id)
            &&& forall|k: int|
                0 <= k < sig.argument_types@.len() ==> {
                    &&& ctx.converts((#[trigger] sig.argument_types@[k]).1)
                    &&& ctx.type_rank(sig.argument_types@[k].1) < ctx.type_rank(id)
                }
        }),
{
    lemma_type_ok(ctx, id);
    let sig = ctx.ty(id).kind->Function_0;
    let args = sig.argument_types@;
    assert forall|k: int| 0 <= k < args.len() implies ctx.converts((#[trigger] args[k]).1)
        && ctx.type_rank(args[k].1) < ctx.type_rank(id) by {
        assert(arg_types(sig)[k] == args[k].1);
        assert(ctx.below(ctx.type_ranks(), id.0 as int, arg_types(sig)[k]));
    }
}

/// A type that is made of nothing has a Rust type.
pub proof fn lemma_converts_alone(ctx: BindgenContext, id: ItemId)
    requires
        ctx.type_ok(
            |i: int|
                if i == id.0 {
                    1nat
                } else {
                    0nat
                },
            id.0 as int,
        ),
    ensures
        ctx.converts(id),
{
    let rank = |i: int|
        if i == id.0 {
            1nat
        } else {
            0nat
        };
    assert(ctx.types_ranked_by(rank) && rank(id.0 as int) > 0);
}

/// A template parameter has a Rust type, and so has an enum.
pub proof fn lemma_simple_converts(ctx: BindgenContext, id: ItemId)
    requires
        ctx.is_type(id),
        ctx.ty(id).kind is Named || ctx.ty(id).kind is Enum,
    ensures
        ctx.converts(id),
{
    lemma_converts_alone(ctx, id);
}

/// The Rust type of a typedef that is known by name.
pub open spec fn known_type(name: Seq<char>) -> Option<Seq<char>> {
    if name == "int8_t"@ {
        Some("i8"@)
    } else if name == "uint8_t"@ {
        Some("u8"@)
    } else if name == "int16_t"@ {
        Some("i16"@)
    } else if name == "uint16_t"@ {
        Some("u16"@)
    } else if name == "int32_t"@ {
        Some("i32"@)
    } else if name == "uint32_t"@ {
        Some("u32"@)
    } else if name == "int64_t"@ {
        Some("i64"@)
    } else if name == "uint64_t"@ {
        Some("u64"@)
    } else if name == "uintptr_t"@ || name == "size_t"@ {
        Some("usize"@)
    } else if name == "intptr_t"@ || name == "ptrdiff_t"@ || name == "ssize_t"@ {
        Some("isize"@)
    } else {
        None
    }
}

/// The Rust type of a C integer type.
pub open spec fn int_ty(ctx: BindgenContext, kind: IntKind) -> TyView {
    match kind {
        IntKind::Bool => helpers::named_ty("bool"@),
        IntKind::Char => helpers::c_type(ctx, "c_char"@),
        IntKind::UChar => helpers::c_type(ctx, "c_uchar"@),
        IntKind::Short => helpers::c_type(ctx, "c_short"@),
        IntKind::UShort => helpers::c_type(ctx, "c_ushort"@),
        IntKind::Int => helpers::c_type(ctx, "c_int"@),
        IntKind::UInt => helpers::c_type(ctx, "c_uint"@),
        IntKind::Long => helpers::c_type(ctx, "c_long"@),
        IntKind::ULong => helpers::c_type(ctx, "c_ulong"@),
        IntKind::LongLong => helpers::c_type(ctx, "c_longlong"@),
        IntKind::ULongLong => helpers::c_type(ctx, "c_ulonglong"@),
        IntKind::I8 => helpers::named_ty("i8"@),
        IntKind::U8 => helpers::named_ty("u8"@),
        IntKind::I16 => helpers::named_ty("i16"@),
        IntKind::U16 => helpers::named_ty("u16"@),
        IntKind::I32 => helpers::named_ty("i32"@),
        IntKind::U32 => helpers::named_ty("u32"@),
        IntKind::I64 => helpers::named_ty("i64"@),
        IntKind::U64 => helpers::named_ty("u64"@),
        IntKind::Custom { name, is_signed } => helpers::named_ty(name@),
        IntKind::I128 | IntKind::U128 => helpers::array_of(helpers::named_ty("u64"@), 2),
    }
}

/// Where generated code finds one of its own support types.
pub open spec fn support_path(ctx: BindgenContext, name: Seq<char>) -> Seq<Seq<char>> {
    if ctx.options.enable_cxx_namespaces {
        seq!["root"@, name]
    } else {
        seq![name]
    }
}

/// The Rust type of a template parameter.
pub open spec fn param_ty(ctx: BindgenContext, id: ItemId) -> TyView {
    helpers::named_ty(ctx.mangle(ctx.item(id).canonical_name@))
}

/// Those of the template arguments that are template parameters.
pub open spec fn named_args(ctx: BindgenContext, args: Seq<ItemId>) -> Seq<ItemId> {
    args.filter(|arg: ItemId| ctx.ty(arg).kind is Named)
}

/// The layout of a type, or that of nothing.
pub open spec fn layout_or_zero(layout: Option<Layout>) -> Layout {
    match layout {
        Some(l) => l,
        None => Layout { size: 0, align: 0 },
    }
}

/// How many of the first `n` arguments have no name.
pub open spec fn unnamed_before(args: Seq<(Option<String>, ItemId)>, n: int) -> nat
    decreases n,
{
    if n <= 0 {
        0
    } else if args[n - 1].0 is None {
        unnamed_before(args, n - 1) + 1
    } else {
        unnamed_before(args, n - 1)
    }
}

/// The name of the argument at `k`: its own, or one that counts the arguments
/// without a name.
pub open spec fn arg_name(ctx: BindgenContext, args: Seq<(Option<String>, ItemId)>, k: int) -> Seq<
    char,
> {
    match args[k].0 {
        Some(name) => ctx.mangle(name@),
        None => "arg"@ + names::decimal_digits(unnamed_before(args, k + 1)),
    }
}

/// A path with other generic arguments.
pub open spec fn with_args(ty: TyView, args: Seq<TyView>) -> TyView {
    match ty {
        TyView::Path { global, segments, args: _ } => TyView::Path { global, segments, args },
        _ => ty,
    }
}

/// The Rust type of the type `id`. What a template is applied to goes where
/// the Rust type of the template is a path.
pub open spec fn rust_ty(ctx: BindgenContext, id: ItemId) -> Converted
    decreases ctx.type_rank(id), 1nat,
    when ctx.converts(id)
{
    let item = ctx.item(id);
    let ty = ctx.ty(id);
    proof {
        lemma_type_ok(ctx, id);
    }
    match ty.kind {
        TypeKind::Void => Converted { ty: helpers::c_type(ctx, "c_void"@), complex: false },
        TypeKind::NullPtr => Converted {
            ty: helpers::ptr_to(helpers::c_type(ctx, "c_void"@), true),
            complex: false,
        },
        TypeKind::Int(kind) => Converted { ty: int_ty(ctx, kind), complex: false },
        TypeKind::Float(kind) => Converted { ty: helpers::float_ty(ctx, kind), complex: false },
        TypeKind::Complex(kind) => Converted {
            ty: TyView::Path {
                global: false,
                segments: support_path(ctx, "__BindgenComplex"@),
                args: seq![helpers::float_ty(ctx, kind)],
            },
            complex: true,
        },
        TypeKind::Function(sig) => {
            let converted = sig_decl(ctx, id);
            Converted {
                ty: TyView::Path {
                    global: true,
                    segments: seq![ctx.trait_prefix@, "option"@, "Option"@],
                    args: seq![
                        TyView::BareFn { abi: sig.abi, decl: Box::new(converted.decl) },
                    ],
                },
                complex: converted.complex,
            }
        },
        TypeKind::Array(inner, len) => Converted {
            ty: helpers::array_of(rust_ty(ctx, inner).ty, len as nat),
            complex: rust_ty(ctx, inner).complex,
        },
        TypeKind::Enum(_) => Converted {
            ty: TyView::Path {
                global: false,
                segments: item.namespace_aware_canonical_path.deep_view(),
                args: seq![],
            },
            complex: false,
        },
        TypeKind::TemplateRef(inner, args) => if yields_path(ctx, ctx.type_ranks(), inner) {
            Converted {
                ty: with_args(
                    rust_ty(ctx, inner).ty,
                    Seq::new(
                        args@.len(),
                        |k: int|
                            if 0 <= k < args@.len() {
                                rust_ty(ctx, args@[k]).ty
                            } else {
                                arbitrary()
                            },
                    ),
                ),
                complex: rust_ty(ctx, inner).complex || exists|k: int|
                    0 <= k < args@.len() && rust_ty(ctx, #[trigger] args@[k]).complex,
            }
        } else {
            rust_ty(ctx, inner)
        },
        TypeKind::ResolvedTypeRef(inner) => rust_ty(ctx, inner),
        TypeKind::TemplateAlias(spelling, _) | TypeKind::Alias(spelling, _) => Converted {
            ty: if item.is_opaque {
                helpers::blob_ty(layout_or_zero(ty.layout))
            } else if known_type(spelling@) is Some {
                helpers::named_ty(known_type(spelling@)->0)
            } else {
                TyView::Path {
                    global: false,
                    segments: item.namespace_aware_canonical_path.deep_view(),
                    args: named_args(ctx, item.applicable_template_args@).map_values(
                        |arg: ItemId| param_ty(ctx, arg),
                    ),
                }
            },
            complex: false,
        },
        TypeKind::Comp(info) => if item.is_opaque || info.has_non_type_template_params {
            Converted {
                ty: match ty.layout {
                    Some(layout) => helpers::blob_ty(layout),
                    None => TyView::Unit,
                },
                complex: false,
            }
        } else {
            let args = item.applicable_template_args@;
            Converted {
                ty: TyView::Path {
                    global: false,
                    segments: item.namespace_aware_canonical_path.deep_view(),
                    args: Seq::new(
                        args.len(),
                        |k: int|
                            if 0 <= k < args.len() {
                                rust_ty(ctx, args[k]).ty
                            } else {
                                arbitrary()
                            },
                    ),
                },
                complex: exists|k: int|
                    0 <= k < args.len() && rust_ty(ctx, #[trigger] args[k]).complex,
            }
        },
        TypeKind::BlockPointer => Converted {
            ty: helpers::ptr_to(helpers::c_type(ctx, "c_void"@), false),
            complex: false,
        },
        TypeKind::Pointer(inner) | TypeKind::Reference(inner) => Converted {
            ty: if ctx.ty(ctx.ty(inner).canonical_type).kind is Function {
                rust_ty(ctx, inner).ty
            } else {
                helpers::ptr_to(rust_ty(ctx, inner).ty, ty.is_const || ctx.ty(inner).is_const)
            },
            complex: rust_ty(ctx, inner).complex,
        },
        TypeKind::Named => Converted { ty: param_ty(ctx, id), complex: false },
        TypeKind::UnresolvedTypeRef => arbitrary(),
    }
}

/// The Rust type of an argument of type `id`: an array is passed by a pointer
/// to its elements.
pub open spec fn arg_ty(ctx: BindgenContext, id: ItemId) -> Converted
    decreases ctx.type_rank(id), 2nat,
    when ctx.converts(id)
{
    proof {
        lemma_type_ok(ctx, id);
    }
    match ctx.ty(id).kind {
        TypeKind::Array(elem, _) => Converted {
            ty: helpers::ptr_to(rust_ty(ctx, elem).ty, ctx.ty(id).is_const),
            complex: rust_ty(ctx, elem).complex,
        },
        _ => rust_ty(ctx, id),
    }
}

/// The Rust signature of the function type `id`.
pub open spec fn sig_decl(ctx: BindgenContext, id: ItemId) -> ConvertedDecl
    decreases ctx.type_rank(id), 0nat,
    when ctx.converts(id) && ctx.ty(id).kind is Function
{
    let sig = ctx.ty(id).kind->Function_0;
    let args = sig.argument_types@;
    proof {
        lemma_sig_ok(ctx, id);
    }
    ConvertedDecl {
        decl: FnDeclView {
            inputs: Seq::new(
                args.len(),
                |k: int|
                    if 0 <= k < args.len() {
                        ArgView { name: arg_name(ctx, args, k), ty: arg_ty(ctx, args[k].1).ty }
                    } else {
                        arbitrary()
                    },
            ),
            output: if ctx.ty(sig.return_type).kind is Void {
                None
            } else {
                Some(rust_ty(ctx, sig.return_type).ty)
            },
            variadic: sig.is_variadic,
        },
        complex: rust_ty(ctx, sig.return_type).complex || exists|k: int|
            0 <= k < args.len() && arg_ty(ctx, (#[trigger] args[k]).1).complex,
    }
}

/// The Rust type of a type is a path if and only if its kind says so.
pub proof fn lemma_path(ctx: BindgenContext, id: ItemId)
    requires
        ctx.converts(id),
    ensures
        rust_ty(ctx, id).ty is Path <==> yields_path(ctx, ctx.type_ranks(), id),
    decreases ctx.type_rank(id),
{
    lemma_type_ok(ctx, id);
    match ctx.ty(id).kind {
        TypeKind::ResolvedTypeRef(inner) | TypeKind::TemplateRef(inner, _) => {
            lemma_path(ctx, inner);
        },
        TypeKind::Pointer(inner) | TypeKind::Reference(inner) => {
            lemma_path(ctx, inner);
        },
        _ => {},
    }
}

impl IntKind {
    /// The Rust type of this C integer type.
    fn to_rust_ty(&self, ctx: &BindgenContext) -> (t: Ty)
        ensures
            t@ == int_ty(*ctx, *self),
    {
        match self {
            IntKind::Bool => ty_named("bool"),
            IntKind::Char => raw_type(ctx, "c_char"),
            IntKind::UChar => raw_type(ctx, "c_uchar"),
            IntKind::Short => raw_type(ctx, "c_short"),
            IntKind::UShort => raw_type(ctx, "c_ushort"),
            IntKind::Int => raw_type(ctx, "c_int"),
            IntKind::UInt => raw_type(ctx, "c_uint"),
            IntKind::Long => raw_type(ctx, "c_long"),
            IntKind::ULong => raw_type(ctx, "c_ulong"),
            IntKind::LongLong => raw_type(ctx, "c_longlong"),
            IntKind::ULongLong => raw_type(ctx, "c_ulonglong"),
            IntKind::I8 => ty_named("i8"),
            IntKind::U8 => ty_named("u8"),
            IntKind::I16 => ty_named("i16"),
            IntKind::U16 => ty_named("u16"),
            IntKind::I32 => ty_named("i32"),
            IntKind::U32 => ty_named("u32"),
            IntKind::I64 => ty_named("i64"),
            IntKind::U64 => ty_named("u64"),
            IntKind::Custom { name, is_signed: _ } => ty_named(name.as_str()),
            IntKind::I128 | IntKind::U128 => ty_named("u64").to_array(2),
        }
    }
}

/// Where generated code finds one of its own support types.
pub fn support_segments(ctx: &BindgenContext, name: &str) -> (r: Vec<String>)
    ensures
        r.deep_view() == support_path(*ctx, name@),
{
    if ctx.options.enable_cxx_namespaces {
        list2("root", name)
    } else {
        list1(name)
    }
}

/// The Rust type of a typedef that is known by name, whatever it names.
pub fn type_from_named(_ctx: &BindgenContext, name: &str, _inner: ItemId) -> (r: Option<Ty>)
    ensures
        r is Some <==> known_type(name@) is Some,
        r matches Some(t) ==> t@ == helpers::named_ty(known_type(name@)->0),
{
    if same(name, "int8_t") {
        Some(primitive_ty("i8"))
    } else if same(name, "uint8_t") {
        Some(primitive_ty("u8"))
    } else if same(name, "int16_t") {
        Some(primitive_ty("i16"))
    } else if same(name, "uint16_t") {
        Some(primitive_ty("u16"))
    } else if same(name, "int32_t") {
        Some(primitive_ty("i32"))
    } else if same(name, "uint32_t") {
        Some(primitive_ty("u32"))
    } else if same(name, "int64_t") {
        Some(primitive_ty("i64"))
    } else if same(name, "uint64_t") {
        Some(primitive_ty("u64"))
    } else if same(name, "uintptr_t") || same(name, "size_t") {
        Some(primitive_ty("usize"))
    } else if same(name, "intptr_t") || same(name, "ptrdiff_t") || same(name, "ssize_t") {
        Some(primitive_ty("isize"))
    } else {
        None
    }
}

/// The primitive type of the given name.
fn primitive_ty(name: &str) -> (t: Ty)
    ensures
        t@ == helpers::named_ty(name@),
{
    ty_named(name)
}

/// The template arguments that a templated path carries.
pub open spec fn path_args(ctx: BindgenContext, item: Item, only_named: bool) -> Seq<ItemId> {
    if only_named {
        named_args(ctx, item.applicable_template_args@)
    } else {
        item.applicable_template_args@
    }
}

/// The Rust types of a list of types.
pub open spec fn rust_tys(ctx: BindgenContext, ids: Seq<ItemId>) -> Seq<TyView> {
    ids.map_values(|id: ItemId| rust_ty(ctx, id).ty)
}

/// Whether complex numbers occur in any of a list of types.
pub open spec fn any_complex(ctx: BindgenContext, ids: Seq<ItemId>) -> bool {
    exists|k: int| 0 <= k < ids.len() && rust_ty(ctx, #[trigger] ids[k]).complex
}

/// The Rust types of a list of types that rank below `bound`.
fn list_to_rust_ty(
    ctx: &BindgenContext,
    ids: &Vec<ItemId>,
    complex: &mut bool,
    Ghost(bound): Ghost<nat>,
) -> (r: Vec<Ty>)
    requires
        ctx.ids_wf(),
        forall|k: int|
            0 <= k < ids@.len() ==> ctx.converts(#[trigger] ids@[k]) && ctx.type_rank(ids@[k])
                < bound,
    ensures
        r.deep_view() == rust_tys(*ctx, ids@),
        *final(complex) == (*old(complex) || any_complex(*ctx, ids@)),
    decreases bound, 0nat,
{
    let mut r: Vec<Ty> = Vec::new();
    let mut i: usize = 0;
    while i < ids.len()
        invariant
            0 <= i <= ids@.len(),
            ctx.ids_wf(),
            forall|k: int|
                0 <= k < ids@.len() ==> ctx.converts(#[trigger] ids@[k]) && ctx.type_rank(ids@[k])
                    < bound,
            r@.len() == i,
            forall|k: int| 0 <= k < i ==> (#[trigger] r@[k])@ == rust_ty(*ctx, ids@[k]).ty,
            *complex == (*old(complex) || exists|k: int|
                0 <= k < i && rust_ty(*ctx, #[trigger] ids@[k]).complex),
        decreases ids@.len() - i,
    {
        let ty = ids[i].to_rust_ty(ctx, complex);
        r.push(ty);
        i += 1;
    }
    assert(r.deep_view() =~= rust_tys(*ctx, ids@));
    r
}

/// The path of an item, with its template arguments: all of them, or only the
/// template parameters among them.
pub fn build_templated_path(
    item: &Item,
    ctx: &BindgenContext,
    only_named: bool,
    complex: &mut bool,
) -> (t: Ty)
    requires
        ctx.ids_wf(),
        ctx.template_args_ok(*item),
        forall|k: int|
            0 <= k < item.applicable_template_args@.len() ==> only_named || ctx.converts(
                #[trigger] item.applicable_template_args@[k],
            ),
        item.namespace_aware_canonical_path@.len() > 0,
    ensures
        t@ == (TyView::Path {
            global: false,
            segments: item.namespace_aware_canonical_path.deep_view(),
            args: rust_tys(*ctx, path_args(*ctx, *item, only_named)),
        }),
        *final(complex) == (*old(complex) || any_complex(
            *ctx,
            path_args(*ctx, *item, only_named),
        )),
{
    let ghost args = path_args(*ctx, *item, only_named);
    let ghost bound = max_rank(*ctx, args);
    proof {
        lemma_max_rank(*ctx, args);
        assert forall|k: int| 0 <= k < args.len() implies ctx.converts(#[trigger] args[k]) by {
            let all = item.applicable_template_args@;
            if only_named {
                lemma_filter_source(all, |arg: ItemId| ctx.ty(arg).kind is Named, k);
                lemma_simple_converts(*ctx, args[k]);
            } else {
                assert(args[k] == all[k]);
            }
        }
    }
    templated_path(item, ctx, only_named, complex, Ghost(bound))
}

/// One more than the highest rank in a list of types.
pub open spec fn max_rank(ctx: BindgenContext, ids: Seq<ItemId>) -> nat
    decreases ids.len(),
{
    if ids.len() == 0 {
        0
    } else {
        let rest = max_rank(ctx, ids.drop_last());
        let last = ctx.type_rank(ids.last()) + 1;
        if rest < last {
            last
        } else {
            rest
        }
    }
}

/// Each type of a list ranks below that.
pub proof fn lemma_max_rank(ctx: BindgenContext, ids: Seq<ItemId>)
    ensures
        forall|k: int|
            0 <= k < ids.len() ==> ctx.type_rank(#[trigger] ids[k]) < max_rank(ctx, ids),
    decreases ids.len(),
{
    if ids.len() > 0 {
        lemma_max_rank(ctx, ids.drop_last());
        assert forall|k: int| 0 <= k < ids.len() implies ctx.type_rank(#[trigger] ids[k])
            < max_rank(ctx, ids) by {
            if k < ids.len() - 1 {
                assert(ids.drop_last()[k] == ids[k]);
            }
        }
    }
}

/// The same, of an item whose template arguments rank below `bound`.
fn templated_path(
    item: &Item,
    ctx: &BindgenContext,
    only_named: bool,
    complex: &mut bool,
    Ghost(bound): Ghost<nat>,
) -> (t: Ty)
    requires
        ctx.ids_wf(),
        ctx.template_args_ok(*item),
        forall|k: int|
            0 <= k < path_args(*ctx, *item, only_named).len() ==> ctx.converts(
                #[trigger] path_args(*ctx, *item, only_named)[k],
            ) && ctx.type_rank(path_args(*ctx, *item, only_named)[k]) < bound,
    ensures
        t@ == (TyView::Path {
            global: false,
            segments: item.namespace_aware_canonical_path.deep_view(),
            args: rust_tys(*ctx, path_args(*ctx, *item, only_named)),
        }),
        *final(complex) == (*old(complex) || any_complex(
            *ctx,
            path_args(*ctx, *item, only_named),
        )),
    decreases bound, 1nat,
{
    let all = &item.applicable_template_args;
    let args = if only_named {
        let kept = keep_named(ctx, all);
        list_to_rust_ty(ctx, &kept, complex, Ghost(bound))
    } else {
        assert(path_args(*ctx, *item, only_named) == all@);
        list_to_rust_ty(ctx, all, complex, Ghost(bound))
    };
    let segments = names::clone_strings(&item.namespace_aware_canonical_path);
    ast::path(false, segments, args)
}

/// What a filter keeps is in the list, and passes it.
proof fn lemma_filter_source<T>(s: Seq<T>, pred: spec_fn(T) -> bool, k: int)
    requires
        0 <= k < s.filter(pred).len(),
    ensures
        pred(s.filter(pred)[k]),
        exists|j: int| 0 <= j < s.len() && #[trigger] s[j] == s.filter(pred)[k],
{
    s.lemma_filter_pred(pred, k);
    s.lemma_filter_contains_rev(pred, s.filter(pred)[k]);
}

/// Those of the template arguments that are template parameters.
fn keep_named(ctx: &BindgenContext, args: &Vec<ItemId>) -> (r: Vec<ItemId>)
    requires
        forall|k: int| 0 <= k < args@.len() ==> ctx.is_type(#[trigger] args@[k]),
    ensures
        r@ == named_args(*ctx, args@),
{
    let ghost named = |arg: ItemId| ctx.ty(arg).kind is Named;
    let mut r: Vec<ItemId> = Vec::new();
    let mut i: usize = 0;
    while i < args.len()
        invariant
            0 <= i <= args@.len(),
            forall|k: int| 0 <= k < args@.len() ==> ctx.is_type(#[trigger] args@[k]),
            named == (|arg: ItemId| ctx.ty(arg).kind is Named),
            r@ == args@.take(i as int).filter(named),
        decreases args@.len() - i,
    {
        proof {
            reveal(Seq::filter);
            assert(args@.take(i + 1).drop_last() =~= args@.take(i as int));
        }
        if ctx.resolve_type(args[i]).is_named() {
            r.push(args[i]);
        }
        i += 1;
    }
    assert(args@.take(args@.len() as int) =~= args@);
    r
}

impl Type {
    /// Whether the type is a template parameter.
    pub fn is_named(&self) -> (b: bool)
        ensures
            b == (self.kind is Named),
    {
        match &self.kind {
            TypeKind::Named => true,
            _ => false,
        }
    }

    /// Whether the type is a function type.
    pub fn is_function(&self) -> (b: bool)
        ensures
            b == (self.kind is Function),
    {
        match &self.kind {
            TypeKind::Function(_) => true,
            _ => false,
        }
    }
}

impl ItemId {
    /// The Rust type of the type with this id. `complex` is set if complex
    /// numbers occur in it.
    pub fn to_rust_ty(self, ctx: &BindgenContext, complex: &mut bool) -> (t: Ty)
        requires
            ctx.ids_wf(),
            ctx.converts(self),
        ensures
            t@ == rust_ty(*ctx, self).ty,
            *final(complex) == (*old(complex) || rust_ty(*ctx, self).complex),
        decreases ctx.type_rank(self), 5nat,
    {
        proof {
            lemma_type_ok(*ctx, self);
        }
        ctx.resolve_item(self).to_rust_ty(ctx, complex)
    }

    /// The Rust type of an argument of the type with this id. `complex` is
    /// set if complex numbers occur in it.
    fn to_rust_arg_ty(self, ctx: &BindgenContext, complex: &mut bool) -> (t: Ty)
        requires
            ctx.ids_wf(),
            ctx.converts(self),
        ensures
            t@ == arg_ty(*ctx, self).ty,
            *final(complex) == (*old(complex) || arg_ty(*ctx, self).complex),
        decreases ctx.type_rank(self), 6nat,
    {
        proof {
            lemma_type_ok(*ctx, self);
        }
        let declared = ctx.resolve_type(self);
        match &declared.kind {
            TypeKind::Array(elem, _) => elem.to_rust_ty(ctx, complex).to_ptr(declared.is_const),
            _ => self.to_rust_ty(ctx, complex),
        }
    }
}

impl Item {
    /// The Rust type of the type that this item is. `complex` is set if
    /// complex numbers occur in it.
    pub fn to_rust_ty(&self, ctx: &BindgenContext, complex: &mut bool) -> (t: Ty)
        requires
            ctx.ids_wf(),
            ctx.holds(self),
            ctx.converts(self.id),
        ensures
            t@ == rust_ty(*ctx, self.id).ty,
            *final(complex) == (*old(complex) || rust_ty(*ctx, self.id).complex),
        decreases ctx.type_rank(self.id), 4nat,
    {
        proof {
            lemma_type_ok(*ctx, self.id);
        }
        self.expect_type().to_rust_ty(ctx, self, complex)
    }
}

impl Type {
    /// The Rust type of this type, which is what `item` is. `complex` is set
    /// if complex numbers occur in it.
    pub fn to_rust_ty(&self, ctx: &BindgenContext, item: &Item, complex: &mut bool) -> (t: Ty)
        requires
            ctx.ids_wf(),
            ctx.holds(item),
            ctx.converts(item.id),
            item.kind == ItemKind::Type(*self),
        ensures
            t@ == rust_ty(*ctx, item.id).ty,
            *final(complex) == (*old(complex) || rust_ty(*ctx, item.id).complex),
        decreases ctx.type_rank(item.id), 3nat,
    {
        let ghost rank = ctx.type_rank(item.id);
        proof {
            lemma_type_ok(*ctx, item.id);
        }
        match &self.kind {
            TypeKind::Void => raw_type(ctx, "c_void"),
            TypeKind::NullPtr => raw_type(ctx, "c_void").to_ptr(true),
            TypeKind::Int(kind) => kind.to_rust_ty(ctx),
            TypeKind::Float(kind) => float_kind_rust_type(ctx, *kind),
            TypeKind::Complex(kind) => {
                let float = float_kind_rust_type(ctx, *kind);
                *complex = true;
                ty_applied(false, support_segments(ctx, "__BindgenComplex"), float)
            },
            TypeKind::Function(sig) => {
                let ty = sig.to_rust_ty(ctx, item, complex);
                ty_applied(true, list3(ctx.trait_prefix.as_str(), "option", "Option"), ty)
            },
            TypeKind::Array(inner, len) => inner.to_rust_ty(ctx, complex).to_array(*len),
            TypeKind::Enum(_) => ty_path(
                false,
                names::clone_strings(&item.namespace_aware_canonical_path),
            ),
            TypeKind::TemplateRef(inner, args) => {
                let inner_ty = inner.to_rust_ty(ctx, complex);
                proof {
                    lemma_path(*ctx, *inner);
                }
                match inner_ty {
                    Ty::Path { global, segments, args: old_args } => {
                        proof {
                            ast::lemma_path_view(Ty::Path { global, segments, args: old_args });
                        }
                        let tys = list_to_rust_ty(ctx, args, complex, Ghost(rank));
                        let t = ast::path(global, segments, tys);
                        assert(rust_ty(*ctx, item.id).ty->args =~= rust_tys(*ctx, args@));
                        t
                    },
                    other => other,
                }
            },
            TypeKind::ResolvedTypeRef(inner) => inner.to_rust_ty(ctx, complex),
            TypeKind::TemplateAlias(spelling, inner) | TypeKind::Alias(spelling, inner) => {
                if item.is_opaque {
                    let layout = match self.layout {
                        Some(layout) => layout,
                        None => Layout::zero(),
                    };
                    BlobTyBuilder::new(layout).build()
                } else if let Some(ty) = type_from_named(ctx, spelling.as_str(), *inner) {
                    ty
                } else {
                    proof {
                        lemma_named_args(*ctx, item.applicable_template_args@);
                    }
                    templated_path(item, ctx, true, complex, Ghost(rank))
                }
            },
            TypeKind::Comp(info) => {
                if item.is_opaque || info.has_non_type_template_params {
                    match self.layout {
                        Some(layout) => BlobTyBuilder::new(layout).build(),
                        None => Ty::Unit,
                    }
                } else {
                    let t = templated_path(item, ctx, false, complex, Ghost(rank));
                    assert(rust_ty(*ctx, item.id).ty->args =~= rust_tys(
                        *ctx,
                        item.applicable_template_args@,
                    ));
                    t
                }
            },
            TypeKind::BlockPointer => raw_type(ctx, "c_void").to_ptr(false),
            TypeKind::Pointer(inner) | TypeKind::Reference(inner) => {
                let inner_ty = ctx.resolve_type(*inner);
                let ty = inner.to_rust_ty(ctx, complex);
                if ctx.resolve_type(inner_ty.canonical_type).is_function() {
                    ty
                } else {
                    let is_const = self.is_const || inner_ty.is_const;
                    ty.to_ptr(is_const)
                }
            },
            TypeKind::Named => {
                let name = ctx.rust_mangle(item.canonical_name.as_str());
                ty_named(name.as_str())
            },
            TypeKind::UnresolvedTypeRef => {
                proof {
                    assert(false);
                }
                unreached()
            },
        }
    }
}

/// The Rust types of template parameters are their names, without complex
/// numbers.
proof fn lemma_named_args(ctx: BindgenContext, args: Seq<ItemId>)
    requires
        forall|k: int| 0 <= k < args.len() ==> ctx.is_type(#[trigger] args[k]),
    ensures
        rust_tys(ctx, named_args(ctx, args)) == named_args(ctx, args).map_values(
            |arg: ItemId| param_ty(ctx, arg),
        ),
        !any_complex(ctx, named_args(ctx, args)),
{
    let named = |arg: ItemId| ctx.ty(arg).kind is Named;
    let kept = named_args(ctx, args);
    assert forall|k: int| 0 <= k < kept.len() implies rust_ty(ctx, #[trigger] kept[k])
        == (Converted { ty: param_ty(ctx, kept[k]), complex: false }) by {
        lemma_filter_source(args, named, k);
        lemma_simple_converts(ctx, kept[k]);
    }
    assert(rust_tys(ctx, kept) =~= kept.map_values(|arg: ItemId| param_ty(ctx, arg)));
}

impl FunctionSig {
    /// The type of functions with this signature, which is what `item` is.
    /// `complex` is set if complex numbers occur in it.
    pub fn to_rust_ty(&self, ctx: &BindgenContext, item: &Item, complex: &mut bool) -> (t: Ty)
        requires
            ctx.ids_wf(),
            ctx.holds(item),
            ctx.converts(item.id),
            item.kind is Type,
            item.kind->Type_0.kind == TypeKind::Function(*self),
        ensures
            t is BareFn,
            t@ == (TyView::BareFn {
                abi: self.abi,
                decl: Box::new(sig_decl(*ctx, item.id).decl),
            }),
            *final(complex) == (*old(complex) || sig_decl(*ctx, item.id).complex),
        decreases ctx.type_rank(item.id), 2nat,
    {
        let decl = self.to_decl(ctx, item, complex);
        Ty::BareFn { abi: self.abi, decl: Box::new(decl) }
    }

    /// The arguments and the result of functions with this signature.
    fn to_decl(&self, ctx: &BindgenContext, item: &Item, complex: &mut bool) -> (decl: FnDecl)
        requires
            ctx.ids_wf(),
            ctx.holds(item),
            ctx.converts(item.id),
            item.kind is Type,
            item.kind->Type_0.kind == TypeKind::Function(*self),
        ensures
            decl@ == sig_decl(*ctx, item.id).decl,
            *final(complex) == (*old(complex) || sig_decl(*ctx, item.id).complex),
        decreases ctx.type_rank(item.id), 1nat,
    {
        let ghost rank = ctx.type_rank(item.id);
        proof {
            lemma_sig_ok(*ctx, item.id);
        }
        let output = match &ctx.resolve_type(self.return_type).kind {
            TypeKind::Void => None,
            _ => Some(self.return_type.to_rust_ty(ctx, complex)),
        };
        let ghost after_return = *complex;
        let ghost args = self.argument_types@;
        let mut inputs: Vec<Arg> = Vec::new();
        let mut unnamed_arguments: usize = 0;
        let mut i: usize = 0;
        while i < self.argument_types.len()
            invariant
                0 <= i <= args.len(),
                args == self.argument_types@,
                ctx.ids_wf(),
                ctx.holds(item),
                rank == ctx.type_rank(item.id),
                forall|k: int|
                    0 <= k < args.len() ==> ctx.converts((#[trigger] args[k]).1) && ctx.type_rank(
                        args[k].1,
                    ) < rank,
                inputs@.len() == i,
                unnamed_arguments == unnamed_before(args, i as int),
                unnamed_arguments <= i,
                forall|k: int|
                    0 <= k < i ==> (#[trigger] inputs@[k])@ == (ArgView {
                        name: arg_name(*ctx, args, k),
                        ty: arg_ty(*ctx, args[k].1).ty,
                    }),
                *complex == (after_return || exists|k: int|
                    0 <= k < i && arg_ty(*ctx, (#[trigger] args[k]).1).complex),
            decreases args.len() - i,
        {
            let arg = &self.argument_types[i];
            assert(arg == args[i as int]);
            let ty = arg.1.to_rust_arg_ty(ctx, complex);
            let name = match &arg.0 {
                Some(name) => ctx.rust_mangle(name.as_str()),
                None => {
                    unnamed_arguments += 1;
                    numbered("arg", unnamed_arguments)
                },
            };
            inputs.push(Arg { name, ty });
            i += 1;
        }
        let decl = FnDecl { inputs, output, variadic: self.is_variadic };
        proof {
            ast::lemma_fn_decl_view(decl);
            assert(decl@.inputs =~= sig_decl(*ctx, item.id).decl.inputs);
        }
        decl
    }
}

/// The arguments and the result of the function type that `sig` is.
pub fn rust_fndecl_from_signature(ctx: &BindgenContext, sig: &Item, complex: &mut bool) -> (decl:
    FnDecl)
    requires
        ctx.ids_wf(),
        ctx.holds(sig),
        ctx.converts(sig.id),
        sig.kind is Type,
        sig.kind->Type_0.kind is Function,
    ensures
        decl@ == sig_decl(*ctx, sig.id).decl,
        *final(complex) == (*old(complex) || sig_decl(*ctx, sig.id).complex),
{
    match &sig.expect_type().kind {
        TypeKind::Function(signature) => {
            match signature.to_rust_ty(ctx, sig, complex) {
                Ty::BareFn { abi: _, decl } => *decl,
                _ => {
                    proof {
                        assert(false);
                    }
                    unreached()
                },
            }
        },
        _ => {
            proof {
                assert(false);
            }
            unreached()
        },
    }
}

} // verus!
