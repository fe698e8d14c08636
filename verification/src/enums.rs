//! Enums: as Rust enums, or as structs of an integer whose values can be
//! combined.
use vstd::prelude::*;

use crate::ast;
use crate::ast::{
    Attr, AttrView, ConstValue, ConstValueView, ItemView, Literal, LiteralView, Ty, TyView, Variant,
    VariantView,
};
use crate::helpers;
use crate::helpers::{list1, list2, list3, ty_named};
use crate::ir;
use crate::ir::{
    BindgenContext, Enum, EnumVariant, EnumVariantValue, Item, ItemId, Type, TypeKind,
};
use crate::names::join;
use crate::result::{CodegenResult, ResultView};
use crate::types;

verus! {

/// The integer type that represents an enum: of the sign of its declared
/// representation, and of the size of its layout.
pub open spec fn repr_name(signed: bool, size: usize) -> Seq<char> {
    if size == 1 {
        if signed {
            "i8"@
        } else {
            "u8"@
        }
    } else if size == 2 {
        if signed {
            "i16"@
        } else {
            "u16"@
        }
    } else if size == 4 {
        if signed {
            "i32"@
        } else {
            "u32"@
        }
    } else if size == 8 {
        if signed {
            "i64"@
        } else {
            "u64"@
        }
    } else {
        "i32"@
    }
}

/// Whether the representation of an enum is signed. One that is not known is
/// taken to be.
pub open spec fn repr_signed(ctx: BindgenContext, e: Enum) -> bool {
    match e.repr {
        Some(repr) => ir::int_is_signed(ctx.ty(ctx.ty(repr).canonical_type).kind->Int_0),
        None => true,
    }
}

/// The size of a type, or none if it is not known.
pub open spec fn size_or_zero(ty: Type) -> usize {
    match ty.layout {
        Some(layout) => layout.size,
        None => 0,
    }
}

/// Whether an enum is one whose values can be combined: the options name it,
/// or it has no name and they name one of its variants.
pub open spec fn is_bitfield_enum(ctx: BindgenContext, item: Item) -> bool {
    let ty = item.kind->Type_0;
    let variants = ty.kind->Enum_0.variants@;
    let names = ctx.options.bitfield_enums@;
    ||| ir::has_text(names, item.canonical_name@)
    ||| ty.name is None && exists|k: int|
        0 <= k < variants.len() && ir::has_text(names, (#[trigger] variants[k]).name@)
}

/// The first position, from `i` on, of a variant with the given value.
pub open spec fn first_from(variants: Seq<EnumVariant>, val: EnumVariantValue, i: int) -> int
    decreases variants.len() - i,
{
    if i >= variants.len() || variants[i].val == val {
        i
    } else {
        first_from(variants, val, i + 1)
    }
}

/// The first position of a variant with the value of the variant at `k`.
pub open spec fn first_alike(variants: Seq<EnumVariant>, k: int) -> int {
    first_from(variants, variants[k].val, 0)
}

/// The value of a variant.
pub open spec fn variant_literal(val: EnumVariantValue) -> LiteralView {
    match val {
        EnumVariantValue::Signed(v) => LiteralView::Int(v),
        EnumVariantValue::Unsigned(v) => LiteralView::Uint(v),
    }
}

/// The variants of the Rust enum for the first `n` variants: those whose
/// value no earlier one has.
pub open spec fn rust_variants(ctx: BindgenContext, variants: Seq<EnumVariant>, n: int) -> Seq<
    VariantView,
>
    decreases n,
{
    if n <= 0 {
        seq![]
    } else {
        let before = rust_variants(ctx, variants, n - 1);
        if first_alike(variants, n - 1) == n - 1 {
            before.push(
                VariantView {
                    name: ctx.mangle(ctx.mangle(variants[n - 1].name@)),
                    value: variant_literal(variants[n - 1].val),
                },
            )
        } else {
            before
        }
    }
}

/// The name of what an item is nested in, if it is nested.
pub open spec fn parent_name(ctx: BindgenContext, item: Item) -> Option<Seq<char>> {
    if item.is_toplevel {
        None
    } else {
        Some(ctx.item(item.parent_id).canonical_name@)
    }
}

/// A name within another, if there is one.
pub open spec fn prefixed(prefix: Option<Seq<char>>, name: Seq<char>) -> Seq<char> {
    match prefix {
        Some(p) => p + "_"@ + name,
        None => name,
    }
}

/// A constant for a variant of a Rust enum.
pub open spec fn enum_constant(
    item: Item,
    rust_ty: TyView,
    variant_name: Seq<char>,
    referenced_name: Seq<char>,
) -> ItemView {
    ItemView::Const {
        name: if item.kind->Type_0.name is Some {
            item.canonical_name@ + "_"@ + variant_name
        } else {
            variant_name
        },
        ty: rust_ty,
        value: ConstValueView::Path(seq![item.canonical_name@, referenced_name]),
    }
}

/// The prefix of the constants of an enum whose values can be combined.
pub open spec fn constant_prefix(ctx: BindgenContext, item: Item) -> Option<Seq<char>> {
    if item.kind->Type_0.name is None {
        parent_name(ctx, item)
    } else {
        Some(item.canonical_name@)
    }
}

/// The constant for a variant of an enum whose values can be combined.
pub open spec fn bitfield_constant(
    ctx: BindgenContext,
    enum_name: Seq<char>,
    prefix: Option<Seq<char>>,
    rust_ty: TyView,
    variant: EnumVariant,
) -> ItemView {
    ItemView::Const {
        name: prefixed(prefix, ctx.mangle(variant.name@)),
        ty: rust_ty,
        value: ConstValueView::Construct { name: enum_name, arg: variant_literal(variant.val) },
    }
}

/// The constants that the variant at `k` gives rise to. In a Rust enum, a
/// variant whose value an earlier one has becomes a constant for that one;
/// the others get a constant if the enum has no name.
pub open spec fn variant_constants(ctx: BindgenContext, item: Item, k: int) -> Seq<ItemView> {
    let ty = item.kind->Type_0;
    let variants = ty.kind->Enum_0.variants@;
    let rust_ty = types::rust_ty(ctx, item.id).ty;
    let name = ctx.mangle(variants[k].name@);
    if is_bitfield_enum(ctx, item) {
        seq![
            bitfield_constant(
                ctx,
                item.canonical_name@,
                constant_prefix(ctx, item),
                rust_ty,
                variants[k],
            ),
        ]
    } else if first_alike(variants, k) < k {
        seq![
            enum_constant(
                item,
                rust_ty,
                name,
                ctx.mangle(variants[first_alike(variants, k)].name@),
            ),
        ]
    } else if ty.name is None {
        seq![enum_constant(item, rust_ty, prefixed(parent_name(ctx, item), name), name)]
    } else {
        seq![]
    }
}

/// The constants that the first `n` variants give rise to.
pub open spec fn constants(ctx: BindgenContext, item: Item, n: int) -> Seq<ItemView>
    decreases n,
{
    if n <= 0 {
        seq![]
    } else {
        constants(ctx, item, n - 1) + variant_constants(ctx, item, n - 1)
    }
}

/// The attributes of an enum.
pub open spec fn enum_attrs(ctx: BindgenContext, item: Item) -> Seq<AttrView> {
    let ty = item.kind->Type_0;
    let e = ty.kind->Enum_0;
    let repr = if is_bitfield_enum(ctx, item) {
        seq![AttrView::Repr(seq!["C"@])]
    } else if e.variants@.len() > 0 {
        seq![AttrView::Repr(seq![repr_name(repr_signed(ctx, e), size_or_zero(ty))])]
    } else {
        seq![]
    };
    repr + helpers::doc_attrs(item.comment) + seq![
        AttrView::Derive(seq!["Debug"@, "Copy"@, "Clone"@, "PartialEq"@, "Eq"@, "Hash"@]),
    ]
}

/// The items that define an enum.
pub open spec fn enum_items(ctx: BindgenContext, item: Item) -> Seq<ItemView> {
    let ty = item.kind->Type_0;
    let e = ty.kind->Enum_0;
    let name = item.canonical_name@;
    if is_bitfield_enum(ctx, item) {
        seq![
            ItemView::BitOrImpl {
                prefix: ctx.trait_prefix@,
                ty: types::rust_ty(ctx, item.id).ty,
                constructor: name,
            },
            ItemView::TupleStruct {
                name,
                attrs: enum_attrs(ctx, item),
                generics: seq![],
                field: helpers::named_ty(repr_name(repr_signed(ctx, e), size_or_zero(ty))),
                field_is_pub: true,
            },
        ]
    } else {
        seq![
            ItemView::Enum {
                name,
                attrs: enum_attrs(ctx, item),
                variants: rust_variants(ctx, e.variants@, e.variants@.len() as int),
            },
        ]
    }
}

/// What generating the enum `id` does.
pub open spec fn gen_enum(ctx: BindgenContext, st: ResultView, id: ItemId) -> ResultView {
    let item = ctx.item(id);
    let n = item.kind->Type_0.kind->Enum_0.variants@.len() as int;
    ResultView {
        items: st.items + constants(ctx, item, n) + enum_items(ctx, item),
        needs_complex: st.needs_complex || types::rust_ty(ctx, id).complex,
        ..st
    }
}

/// Whether an enum can be generated: its representation is an integer type,
/// and what it is nested in exists.
pub open spec fn enum_ok(ctx: BindgenContext, item: Item) -> bool {
    let e = item.kind->Type_0.kind->Enum_0;
    &&& e.repr matches Some(repr) ==> ctx.is_type(repr) && ctx.is_type(ctx.ty(repr).canonical_type)
        && ctx.ty(ctx.ty(repr).canonical_type).kind is Int
    &&& !item.is_toplevel ==> ctx.has(item.parent_id)
}

/// The integer type that represents an enum.
fn repr_type_name(signed: bool, size: usize) -> (r: &'static str)
    ensures
        r@ == repr_name(signed, size),
{
    if size == 1 {
        if signed {
            "i8"
        } else {
            "u8"
        }
    } else if size == 2 {
        if signed {
            "i16"
        } else {
            "u16"
        }
    } else if size == 4 {
        if signed {
            "i32"
        } else {
            "u32"
        }
    } else if size == 8 {
        if signed {
            "i64"
        } else {
            "u64"
        }
    } else {
        "i32"
    }
}

impl EnumVariantValue {
    /// The literal for this value.
    fn to_literal(&self) -> (l: Literal)
        ensures
            l@ == variant_literal(*self),
    {
        match self {
            EnumVariantValue::Signed(v) => Literal::Int(*v),
            EnumVariantValue::Unsigned(v) => Literal::Uint(*v),
        }
    }
}

/// Builds an enum, of one kind or the other.
pub enum EnumBuilder {
    Rust { name: String, attrs: Vec<Attr>, variants: Vec<Variant> },
    Bitfield { canonical_name: String, aster: ast::Item },
}

impl EnumBuilder {
    /// An enum without variants, given its attributes, its name, the integer
    /// type that represents it, and whether it is a Rust enum.
    pub fn new(attrs: Vec<Attr>, name: &str, repr_name: &str, is_rust: bool) -> (b: EnumBuilder)
        ensures
            b is Rust <==> is_rust,
            b matches EnumBuilder::Rust { name: n, attrs: a, variants } ==> n@ == name@
                && a.deep_view() == attrs.deep_view() && variants.deep_view() == Seq::<
                VariantView,
            >::empty(),
            b matches EnumBuilder::Bitfield { canonical_name, aster } ==> canonical_name@ == name@
                && aster@ == (ItemView::TupleStruct {
                name: name@,
                attrs: attrs.deep_view(),
                generics: seq![],
                field: helpers::named_ty(repr_name@),
                field_is_pub: true,
            }),
    {
        if is_rust {
            let variants: Vec<Variant> = Vec::new();
            assert(variants.deep_view() =~= Seq::<VariantView>::empty());
            EnumBuilder::Rust { name: name.to_owned(), attrs, variants }
        } else {
            let generics: Vec<String> = Vec::new();
            assert(generics.deep_view() =~= seq![]);
            EnumBuilder::Bitfield {
                canonical_name: name.to_owned(),
                aster: ast::Item::TupleStruct {
                    name: name.to_owned(),
                    attrs,
                    generics,
                    field: ty_named(repr_name),
                    field_is_pub: true,
                },
            }
        }
    }

    /// Adds a variant: to a Rust enum as such, else as a constant.
    pub fn with_variant(
        self,
        ctx: &BindgenContext,
        variant: &EnumVariant,
        mangling_prefix: Option<&String>,
        rust_ty: Ty,
        result: &mut CodegenResult,
    ) -> (b: EnumBuilder)
        ensures
            self matches EnumBuilder::Rust { name, attrs, variants } ==> {
                &&& b matches EnumBuilder::Rust { name: n, attrs: a, variants: v }
                &&& n == name
                &&& a == attrs
                &&& v.deep_view() == variants.deep_view().push(
                    VariantView {
                        name: ctx.mangle(ctx.mangle(variant.name@)),
                        value: variant_literal(variant.val),
                    },
                )
                &&& final(result)@ == old(result)@
            },
            self matches EnumBuilder::Bitfield { canonical_name, aster } ==> {
                &&& b == self
                &&& final(result)@ == old(result)@.push(
                    bitfield_constant(
                        *ctx,
                        canonical_name@,
                        match mangling_prefix {
                            Some(p) => Some(p@),
                            None => None,
                        },
                        rust_ty@,
                        *variant,
                    ),
                )
            },
    {
        let variant_name = ctx.rust_mangle(variant.name.as_str());
        let value = variant.val.to_literal();
        match self {
            EnumBuilder::Rust { name, attrs, variants } => {
                let mut variants = variants;
                let ghost before = variants.deep_view();
                let added = Variant { name: ctx.rust_mangle(variant_name.as_str()), value };
                variants.push(added);
                assert(variants.deep_view() =~= before.push(added@));
                EnumBuilder::Rust { name, attrs, variants }
            },
            EnumBuilder::Bitfield { canonical_name, aster } => {
                let constant_name = match mangling_prefix {
                    Some(prefix) => join(prefix.as_str(), variant_name.as_str()),
                    None => variant_name,
                };
                result.push(
                    ast::Item::Const {
                        name: constant_name,
                        ty: rust_ty,
                        value: ConstValue::Construct { name: canonical_name.clone(), arg: value },
                    },
                );
                EnumBuilder::Bitfield { canonical_name, aster }
            },
        }
    }

    /// The enum. One whose values can be combined gets its `|` first.
    pub fn build(self, ctx: &BindgenContext, rust_ty: Ty, result: &mut CodegenResult) -> (item:
        ast::Item)
        ensures
            self matches EnumBuilder::Rust { name, attrs, variants } ==> {
                &&& item@ == (ItemView::Enum {
                    name: name@,
                    attrs: attrs.deep_view(),
                    variants: variants.deep_view(),
                })
                &&& final(result)@ == old(result)@
            },
            self matches EnumBuilder::Bitfield { canonical_name, aster } ==> {
                &&& item@ == aster@
                &&& final(result)@ == old(result)@.push(
                    ItemView::BitOrImpl {
                        prefix: ctx.trait_prefix@,
                        ty: rust_ty@,
                        constructor: canonical_name@,
                    },
                )
            },
    {
        match self {
            EnumBuilder::Rust { name, attrs, variants } => ast::Item::Enum {
                name,
                attrs,
                variants,
            },
            EnumBuilder::Bitfield { canonical_name, aster } => {
                result.push(
                    ast::Item::BitOrImpl {
                        prefix: ctx.trait_prefix.clone(),
                        ty: rust_ty,
                        constructor: canonical_name,
                    },
                );
                aster
            },
        }
    }
}

/// Adds a constant for a variant of a Rust enum.
fn add_constant(
    item: &Item,
    variant_name: &str,
    referenced_name: &str,
    rust_ty: Ty,
    result: &mut CodegenResult,
)
    requires
        item.kind is Type,
    ensures
        final(result)@ == old(result)@.push(
            enum_constant(*item, rust_ty@, variant_name@, referenced_name@),
        ),
{
    let constant_name = match &item.expect_type().name {
        Some(_) => join(item.canonical_name.as_str(), variant_name),
        None => variant_name.to_owned(),
    };
    result.push(
        ast::Item::Const {
            name: constant_name,
            ty: rust_ty,
            value: ConstValue::Path(list2(item.canonical_name.as_str(), referenced_name)),
        },
    );
}

proof fn lemma_first_from(variants: Seq<EnumVariant>, val: EnumVariantValue, i: int, k: int)
    requires
        0 <= i <= k < variants.len(),
        variants[k].val == val,
    ensures
        i <= first_from(variants, val, i) <= k,
        variants[first_from(variants, val, i)].val == val,
        forall|j: int|
            i <= j < first_from(variants, val, i) ==> (#[trigger] variants[j]).val != val,
    decreases k - i,
{
    if variants[i].val != val {
        lemma_first_from(variants, val, i + 1, k);
    }
}

/// The first of the variants has the value of the one at `k`.
pub proof fn lemma_first_alike(variants: Seq<EnumVariant>, k: int)
    requires
        0 <= k < variants.len(),
    ensures
        0 <= first_alike(variants, k) <= k,
        variants[first_alike(variants, k)].val == variants[k].val,
        forall|j: int|
            0 <= j < first_alike(variants, k) ==> (#[trigger] variants[j]).val != variants[k].val,
{
    lemma_first_from(variants, variants[k].val, 0, k);
}

impl Enum {
    /// The first position of a variant with the value of the one at `k`.
    fn first_with_value_of(&self, k: usize) -> (r: usize)
        requires
            k < self.variants@.len(),
        ensures
            r == first_alike(self.variants@, k as int),
            r <= k,
    {
        proof {
            lemma_first_alike(self.variants@, k as int);
        }
        let val = self.variants[k].val;
        let mut i: usize = 0;
        while i < k && self.variants[i].val != val
            invariant
                k < self.variants@.len(),
                i <= k,
                val == self.variants@[k as int].val,
                first_from(self.variants@, val, 0) == first_from(self.variants@, val, i as int),
            decreases k - i,
        {
            i += 1;
        }
        i
    }

    /// Whether the options name one of the variants.
    fn any_variant_is_bitfield(&self, ctx: &BindgenContext) -> (b: bool)
        ensures
            b == exists|k: int|
                0 <= k < self.variants@.len() && ir::has_text(
                    ctx.options.bitfield_enums@,
                    (#[trigger] self.variants@[k]).name@,
                ),
    {
        let mut i: usize = 0;
        while i < self.variants.len()
            invariant
                0 <= i <= self.variants@.len(),
                forall|k: int|
                    0 <= k < i ==> !ir::has_text(
                        ctx.options.bitfield_enums@,
                        (#[trigger] self.variants@[k]).name@,
                    ),
            decreases self.variants@.len() - i,
        {
            if ctx.options.matches_bitfield_enum(self.variants[i].name.as_str()) {
                return true;
            }
            i += 1;
        }
        false
    }

    /// Whether the values of this enum, which is what `item` is, can be
    /// combined.
    fn is_bitfield(&self, ctx: &BindgenContext, item: &Item) -> (b: bool)
        requires
            item.kind is Type,
            item.kind->Type_0.kind == TypeKind::Enum(*self),
        ensures
            b == is_bitfield_enum(*ctx, *item),
    {
        if ctx.options.matches_bitfield_enum(item.canonical_name.as_str()) {
            return true;
        }
        match &item.expect_type().name {
            Some(_) => false,
            None => self.any_variant_is_bitfield(ctx),
        }
    }

    /// The attributes of this enum, which is what `item` is.
    fn attrs(&self, item: &Item, repr_name: &str, is_rust_enum: bool) -> (attrs: Vec<Attr>)
        ensures
            attrs.deep_view() == (if !is_rust_enum {
                seq![AttrView::Repr(seq!["C"@])]
            } else if self.variants@.len() > 0 {
                seq![AttrView::Repr(seq![repr_name@])]
            } else {
                seq![]
            }) + helpers::doc_attrs(item.comment) + seq![
                AttrView::Derive(seq!["Debug"@, "Copy"@, "Clone"@, "PartialEq"@, "Eq"@, "Hash"@]),
            ],
    {
        let mut attrs: Vec<Attr> = Vec::new();
        if is_rust_enum {
            // An enum without variants takes no representation.
            if self.variants.len() > 0 {
                attrs.push(Attr::Repr(list1(repr_name)));
            }
        } else {
            attrs.push(Attr::Repr(list1("C")));
        }
        let ghost repr = attrs.deep_view();
        assert(repr =~= (if !is_rust_enum {
            seq![AttrView::Repr(seq!["C"@])]
        } else if self.variants@.len() > 0 {
            seq![AttrView::Repr(seq![repr_name@])]
        } else {
            seq![]
        }));
        if let Some(comment) = &item.comment {
            attrs.push(Attr::Doc(comment.clone()));
        }
        assert(attrs.deep_view() =~= repr + helpers::doc_attrs(item.comment));
        let mut derives = list3("Debug", "Copy", "Clone");
        let ghost first = derives.deep_view();
        let mut more = list3("PartialEq", "Eq", "Hash");
        let ghost second = more.deep_view();
        derives.append(&mut more);
        assert(derives.deep_view() =~= first + second);
        assert(derives.deep_view() =~= seq![
            "Debug"@,
            "Copy"@,
            "Clone"@,
            "PartialEq"@,
            "Eq"@,
            "Hash"@,
        ]);
        let ghost before = attrs.deep_view();
        let derive = Attr::Derive(derives);
        attrs.push(derive);
        assert(attrs.deep_view() =~= before.push(derive@));
        attrs
    }

    /// Generates this enum, which is what `item` is.
    pub fn codegen(&self, ctx: &BindgenContext, result: &mut CodegenResult, item: &Item)
        requires
            ctx.ids_wf(),
            ctx.holds(item),
            item.kind is Type,
            item.kind->Type_0.kind == TypeKind::Enum(*self),
            enum_ok(*ctx, *item),
        ensures
            final(result)@ == gen_enum(*ctx, old(result)@, item.id),
    {
        let name = &item.canonical_name;
        let enum_ty = item.expect_type();
        let signed = match &self.repr {
            Some(repr) => {
                let canonical = ctx.resolve_type(*repr).canonical_type;
                match &ctx.resolve_type(canonical).kind {
                    TypeKind::Int(kind) => kind.is_signed(),
                    _ => {
                        proof {
                            assert(false);
                        }
                        unreached()
                    },
                }
            },
            None => true,
        };
        let size = match enum_ty.layout {
            Some(layout) => layout.size,
            None => 0,
        };
        let repr = repr_type_name(signed, size);
        let is_rust_enum = !self.is_bitfield(ctx, item);
        let attrs = self.attrs(item, repr, is_rust_enum);
        assert(attrs.deep_view() == enum_attrs(*ctx, *item));
        let mut builder = EnumBuilder::new(attrs, name.as_str(), repr, is_rust_enum);
        proof {
            types::lemma_simple_converts(*ctx, item.id);
        }
        let enum_rust_ty = item.to_rust_ty(ctx, &mut result.needs_complex);
        let ghost start = result@;

        // Used for the constants of an enum without a name.
        let parent_canonical_name: Option<&String> = if item.is_toplevel {
            None
        } else {
            Some(&ctx.resolve_item(item.parent_id).canonical_name)
        };
        let unnamed = enum_ty.name.is_none();
        let constant_mangling_prefix: Option<&String> = if unnamed {
            parent_canonical_name
        } else {
            Some(name)
        };

        let ghost variants = self.variants@;
        let mut i: usize = 0;
        assert(result@ =~= (ResultView {
            items: start.items + constants(*ctx, *item, 0),
            ..start
        }));
        while i < self.variants.len()
            invariant
                0 <= i <= variants.len(),
                variants == self.variants@,
                ctx.holds(item),
                item.kind is Type,
                *enum_ty == item.kind->Type_0,
                enum_ty.kind == TypeKind::Enum(*self),
                *name == item.canonical_name,
                unnamed == (enum_ty.name is None),
                is_rust_enum == !is_bitfield_enum(*ctx, *item),
                enum_rust_ty@ == types::rust_ty(*ctx, item.id).ty,
                match parent_canonical_name {
                    Some(p) => parent_name(*ctx, *item) == Some(p@),
                    None => parent_name(*ctx, *item) is None,
                },
                match constant_mangling_prefix {
                    Some(p) => constant_prefix(*ctx, *item) == Some(p@),
                    None => constant_prefix(*ctx, *item) is None,
                },
                builder is Rust <==> is_rust_enum,
                builder matches EnumBuilder::Rust { name: n, attrs: a, variants: v } ==> n@
                    == name@ && a.deep_view() == enum_attrs(*ctx, *item) && v.deep_view()
                    == rust_variants(*ctx, variants, i as int),
                builder matches EnumBuilder::Bitfield { canonical_name, aster } ==> canonical_name@
                    == name@ && aster@ == (ItemView::TupleStruct {
                    name: name@,
                    attrs: enum_attrs(*ctx, *item),
                    generics: seq![],
                    field: helpers::named_ty(
                        repr_name(repr_signed(*ctx, *self), size_or_zero(*enum_ty)),
                    ),
                    field_is_pub: true,
                }),
                result@ == (ResultView {
                    items: start.items + constants(*ctx, *item, i as int),
                    ..start
                }),
            decreases variants.len() - i,
        {
            let variant = &self.variants[i];
            let ghost so_far = result@.items;
            let first = self.first_with_value_of(i);
            if first < i && is_rust_enum {
                let existing_variant_name = ctx.rust_mangle(self.variants[first].name.as_str());
                let variant_name = ctx.rust_mangle(variant.name.as_str());
                add_constant(
                    item,
                    variant_name.as_str(),
                    existing_variant_name.as_str(),
                    enum_rust_ty.clone(),
                    result,
                );
            } else {
                builder = builder.with_variant(
                    ctx,
                    variant,
                    constant_mangling_prefix,
                    enum_rust_ty.clone(),
                    result,
                );
                if first == i && is_rust_enum && unnamed {
                    // A variant of an enum without a name is reached by a
                    // constant.
                    let variant_name = ctx.rust_mangle(variant.name.as_str());
                    let mangled_name = match parent_canonical_name {
                        Some(parent) => join(parent.as_str(), variant_name.as_str()),
                        None => variant_name.clone(),
                    };
                    add_constant(
                        item,
                        mangled_name.as_str(),
                        variant_name.as_str(),
                        enum_rust_ty.clone(),
                        result,
                    );
                }
            }
            assert(result@.items =~= so_far + variant_constants(*ctx, *item, i as int));
            i += 1;
            assert(result@.items =~= start.items + constants(*ctx, *item, i as int));
        }
        let ghost before = result@;
        let enum_ = builder.build(ctx, enum_rust_ty, result);
        result.push(enum_);
        assert(result@.items =~= before.items + enum_items(*ctx, *item));
        assert(result@ =~= gen_enum(*ctx, old(result)@, item.id));
    }
}

} // verus!
