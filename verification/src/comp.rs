//! Structs and unions: their attributes, fields and accessors.
use vstd::prelude::*;

use crate::alias;
use crate::ast;
use crate::ast::{
    Attr, AttrView, ImplItem, ImplItemView, ItemView, StructField, StructFieldView, Ty, TyView,
};
use crate::bitfield;
use crate::bitfield::Bitfield;
use crate::helpers;
use crate::helpers::{doc, list1, list2, marker, ty_applied, ty_named, BlobTyBuilder};
use crate::ir::{
    BindgenContext, CompInfo, CompKind, Field, FieldAccessorKind, Item, ItemId, Layout,
    Type, TypeKind,
};
use crate::names;
use crate::names::{cat, numbered};
use crate::result::{CodegenResult, ResultView};
use crate::types;
use crate::types::support_segments;

verus! {

/// The compound type that an item is.
pub open spec fn comp(item: Item) -> CompInfo {
    item.kind->Type_0.kind->Comp_0
}

/// Whether an item is a compound type.
pub open spec fn is_comp(item: Item) -> bool {
    item.kind is Type && item.kind->Type_0.kind is Comp
}

/// Whether a compound type is copied by `Copy`.
pub open spec fn copies(item: Item) -> bool {
    item.can_derive_copy && !item.annotations.disallow_copy
}

/// The traits that a compound type derives. `Clone` is derived only where
/// there are template arguments.
pub open spec fn derives(item: Item) -> Seq<Seq<char>> {
    (if item.kind->Type_0.can_derive_debug {
        seq!["Debug"@]
    } else {
        seq![]
    }) + (if copies(item) {
        if item.applicable_template_args@.len() > 0 {
            seq!["Copy"@, "Clone"@]
        } else {
            seq!["Copy"@]
        }
    } else {
        seq![]
    })
}

/// The attributes of a compound type.
pub open spec fn comp_attrs(item: Item) -> Seq<AttrView> {
    helpers::doc_attrs(item.comment).push(
        AttrView::Repr(
            if comp(item).packed {
                seq!["C"@, "packed"@]
            } else {
                seq!["C"@]
            },
        ),
    ) + (if derives(item).len() > 0 {
        seq![AttrView::Derive(derives(item))]
    } else {
        seq![]
    })
}

/// A public field without attributes.
pub open spec fn pub_field(name: Seq<char>, ty: TyView) -> StructFieldView {
    StructFieldView { name, is_pub: true, attrs: seq![], ty }
}

/// The name of the vtable of a compound type.
pub open spec fn vtable_name(ctx: BindgenContext, id: ItemId) -> Seq<char> {
    ctx.item(id).canonical_name@ + "__bindgen_vtable"@
}

/// The vtable of a compound type: a struct without fields.
pub open spec fn vtable_item(ctx: BindgenContext, id: ItemId) -> ItemView {
    ItemView::Struct {
        name: vtable_name(ctx, id),
        attrs: seq![AttrView::Repr(seq!["C"@])],
        generics: seq![],
        fields: seq![],
    }
}

/// The vtable pointer of a compound type, if it has one of its own.
pub open spec fn vtable_fields(ctx: BindgenContext, item: Item) -> Seq<StructFieldView> {
    if comp(item).needs_explicit_vtable {
        seq![
            pub_field(
                "vtable_"@,
                helpers::ptr_to(helpers::named_ty(vtable_name(ctx, item.id)), true),
            ),
        ]
    } else {
        seq![]
    }
}

/// The name of the field for the base at `k`.
pub open spec fn base_name(k: int) -> Seq<char> {
    if k == 0 {
        "_base"@
    } else {
        "_base_"@ + names::decimal_digits(k as nat)
    }
}

/// The fields for the first `n` bases: those that take space.
pub open spec fn base_fields(ctx: BindgenContext, bases: Seq<ItemId>, n: int) -> Seq<
    StructFieldView,
>
    decreases n,
{
    if n <= 0 {
        seq![]
    } else if ctx.ty(bases[n - 1]).is_unsized {
        base_fields(ctx, bases, n - 1)
    } else {
        base_fields(ctx, bases, n - 1).push(
            pub_field(base_name(n - 1), types::rust_ty(ctx, bases[n - 1]).ty),
        )
    }
}

/// Whether complex numbers occur in one of the first `n` bases that take
/// space.
pub open spec fn bases_complex(ctx: BindgenContext, bases: Seq<ItemId>, n: int) -> bool {
    exists|k: int|
        0 <= k < n && !ctx.ty(#[trigger] bases[k]).is_unsized && types::rust_ty(
            ctx,
            bases[k],
        ).complex
}

/// Whether a union is emulated by a struct.
pub open spec fn emulated(ctx: BindgenContext, item: Item) -> bool {
    comp(item).kind == CompKind::Union && !ctx.options.unstable_rust
}

/// The type of a field that is no bitfield.
pub open spec fn member_ty(ctx: BindgenContext, item: Item, field: Field) -> TyView {
    if emulated(ctx, item) {
        TyView::Path {
            global: false,
            segments: types::support_path(ctx, "__BindgenUnionField"@),
            args: seq![types::rust_ty(ctx, field.ty).ty],
        }
    } else {
        types::rust_ty(ctx, field.ty).ty
    }
}

/// The name of a field that is no bitfield and that `anons` others without a
/// name precede.
pub open spec fn member_name(ctx: BindgenContext, field: Field, anons: nat) -> Seq<char> {
    match field.name {
        Some(name) => ctx.mangle(name@),
        None => "__bindgen_anon_"@ + names::decimal_digits(anons + 1),
    }
}

/// Whether a field is private: as its own annotations say, or those of the
/// compound type.
pub open spec fn is_private(item: Item, field: Field) -> bool {
    match field.annotations.private_fields {
        Some(private) => private,
        None => item.annotations.private_fields == Some(true),
    }
}

/// Which accessors a field gets: as its own annotations say, or those of the
/// compound type.
pub open spec fn accessor_kind(item: Item, field: Field) -> FieldAccessorKind {
    match field.annotations.accessor_kind {
        Some(kind) => kind,
        None => match item.annotations.accessor_kind {
            Some(kind) => kind,
            None => FieldAccessorKind::Neither,
        },
    }
}

/// A field that is no bitfield.
pub open spec fn member_field(ctx: BindgenContext, item: Item, field: Field, anons: nat)
    -> StructFieldView {
    StructFieldView {
        name: member_name(ctx, field, anons),
        is_pub: !is_private(item, field),
        attrs: helpers::doc_attrs(field.comment),
        ty: member_ty(ctx, item, field),
    }
}

/// The accessors of a field.
pub open spec fn accessors(kind: FieldAccessorKind, field: Seq<char>, ty: TyView) -> Seq<
    ImplItemView,
> {
    let is_unsafe = kind == FieldAccessorKind::Unsafe;
    let getter = ImplItemView::FieldAccessor {
        name: "get_"@ + field,
        field,
        ty,
        is_unsafe,
        mutable: false,
    };
    let mutable_getter = ImplItemView::FieldAccessor {
        name: "get_"@ + field + "_mut"@,
        field,
        ty,
        is_unsafe,
        mutable: true,
    };
    match kind {
        FieldAccessorKind::Neither => seq![],
        FieldAccessorKind::Regular | FieldAccessorKind::Unsafe => seq![getter, mutable_getter],
        FieldAccessorKind::Immutable => seq![getter],
    }
}

/// Whether a field joins the storage unit that `first` starts: it is a
/// bitfield, and its width with that of `first` fits the type of `first`.
pub open spec fn joins(ctx: BindgenContext, first: Field, next: Field) -> bool {
    next.bitfield is Some && bitfield::width(first) + bitfield::width(next) <= (
    bitfield::declared_layout(ctx, first).size * 8) as u32
}

/// Where the run of bitfields that starts at `s` and reaches at least up to
/// `e` ends.
pub open spec fn run_end(ctx: BindgenContext, fields: Seq<Field>, s: int, e: int) -> int
    decreases fields.len() - e,
{
    if e < fields.len() && joins(ctx, fields[s], fields[e]) {
        run_end(ctx, fields, s, e + 1)
    } else {
        e
    }
}

/// A run ends where it reaches, or later.
pub proof fn lemma_run_end(ctx: BindgenContext, fields: Seq<Field>, s: int, e: int)
    requires
        e <= fields.len(),
    ensures
        e <= run_end(ctx, fields, s, e) <= fields.len(),
    decreases fields.len() - e,
{
    if e < fields.len() && joins(ctx, fields[s], fields[e]) {
        lemma_run_end(ctx, fields, s, e + 1);
    }
}

/// A run of bitfields is made of bitfields.
pub proof fn lemma_run_bitfields(ctx: BindgenContext, fields: Seq<Field>, s: int, e: int)
    requires
        0 <= s < e <= fields.len(),
        forall|k: int| s <= k < e ==> (#[trigger] fields[k]).bitfield is Some,
    ensures
        forall|k: int|
            s <= k < run_end(ctx, fields, s, e) ==> (#[trigger] fields[k]).bitfield is Some,
    decreases fields.len() - e,
{
    if e < fields.len() && joins(ctx, fields[s], fields[e]) {
        lemma_run_bitfields(ctx, fields, s, e + 1);
    }
}

/// The fields and accessors of a compound type, with the numbers of storage
/// units and of fields without a name among them.
#[verifier::ext_equal]
pub struct Members {
    pub fields: Seq<StructFieldView>,
    pub methods: Seq<ImplItemView>,
    pub units: nat,
    pub anons: nat,
}

/// One more storage unit.
pub open spec fn with_unit(ctx: BindgenContext, acc: Members, run: Seq<Field>) -> Members {
    Members {
        fields: acc.fields.push(bitfield::unit_field(run, acc.units + 1)),
        methods: acc.methods + bitfield::unit_methods(
            ctx,
            run,
            acc.units + 1,
            run.len() as int,
        ),
        units: acc.units + 1,
        ..acc
    }
}

/// One more field that is no bitfield.
pub open spec fn with_member(ctx: BindgenContext, acc: Members, item: Item, field: Field)
    -> Members {
    Members {
        fields: acc.fields.push(member_field(ctx, item, field, acc.anons)),
        methods: acc.methods + accessors(
            accessor_kind(item, field),
            member_name(ctx, field, acc.anons),
            member_ty(ctx, item, field),
        ),
        anons: if field.name is None {
            acc.anons + 1
        } else {
            acc.anons
        },
        ..acc
    }
}

/// The declared fields, from position `i` on, after those in `acc`: each run
/// of bitfields as a storage unit, every other field as itself.
pub open spec fn with_members(
    ctx: BindgenContext,
    acc: Members,
    item: Item,
    fields: Seq<Field>,
    i: int,
) -> Members
    decreases fields.len() - i,
{
    if i < 0 || i >= fields.len() {
        acc
    } else if fields[i].bitfield is Some {
        proof {
            lemma_run_end(ctx, fields, i, i + 1);
        }
        let end = run_end(ctx, fields, i, i + 1);
        with_members(ctx, with_unit(ctx, acc, fields.subrange(i, end)), item, fields, end)
    } else {
        with_members(ctx, with_member(ctx, acc, item, fields[i]), item, fields, i + 1)
    }
}

/// Whether the declared fields, from position `i` on, can be generated.
pub open spec fn members_ok(ctx: BindgenContext, fields: Seq<Field>, i: int) -> bool
    decreases fields.len() - i,
{
    if i < 0 || i >= fields.len() {
        true
    } else if fields[i].bitfield is Some {
        proof {
            lemma_run_end(ctx, fields, i, i + 1);
        }
        let end = run_end(ctx, fields, i, i + 1);
        bitfield::run_ok(ctx, fields.subrange(i, end)) && members_ok(ctx, fields, end)
    } else {
        members_ok(ctx, fields, i + 1)
    }
}

/// Whether each declared field has a Rust type, and each bitfield a width and a
/// layout that arithmetic on them does not overflow.
pub open spec fn fields_ok(ctx: BindgenContext, fields: Seq<Field>) -> bool {
    &&& forall|k: int|
        0 <= k < fields.len() ==> ctx.is_type((#[trigger] fields[k]).ty) && ctx.converts(
            fields[k].ty,
        )
    &&& forall|k: int|
        0 <= k < fields.len() && (#[trigger] fields[k]).bitfield is Some ==> bitfield::bitfield_ok(
            ctx,
            fields[k],
        )
    &&& members_ok(ctx, fields, 0)
}

/// Whether all that a union declares are bitfields.
pub open spec fn is_bitfield_union(info: CompInfo) -> bool {
    &&& info.kind == CompKind::Union
    &&& info.fields@.len() > 0
    &&& forall|k: int|
        0 <= k < info.fields@.len() ==> (#[trigger] info.fields@[k]).bitfield is Some
}

/// The field that gives a union the size and the alignment of the C union:
/// where unions are emulated, and where there are only storage units, which
/// can be smaller than the types that the bitfields are declared with.
pub open spec fn union_fields(ctx: BindgenContext, item: Item) -> Seq<StructFieldView> {
    if emulated(ctx, item) {
        seq![pub_field("bindgen_union_field"@, helpers::blob_ty(item.kind->Type_0.layout->0))]
    } else if !is_bitfield_union(comp(item)) {
        seq![]
    } else {
        match item.kind->Type_0.layout {
            Some(layout) => seq![
                StructFieldView {
                    is_pub: false,
                    ..pub_field("_bindgen_union_align"@, helpers::blob_ty(layout))
                },
            ],
            None => seq![],
        }
    }
}

/// The declared fields of a compound type, after its vtable and its bases.
pub open spec fn declared_members(ctx: BindgenContext, item: Item) -> Members {
    let bases = comp(item).base_members@;
    with_members(
        ctx,
        Members {
            fields: vtable_fields(ctx, item) + base_fields(ctx, bases, bases.len() as int),
            methods: seq![],
            units: 0,
            anons: 0,
        },
        item,
        comp(item).fields@,
        0,
    )
}

/// The blob that stands for an opaque compound type, if its layout is known.
pub open spec fn opaque_fields(item: Item) -> Seq<StructFieldView> {
    match item.kind->Type_0.layout {
        Some(layout) => seq![pub_field("_bindgen_opaque_blob"@, helpers::blob_ty(layout))],
        None => seq![],
    }
}

/// The byte that gives a compound type without contents an address.
pub open spec fn address_fields(item: Item) -> Seq<StructFieldView> {
    if comp(item).is_unsized {
        seq![pub_field("_address"@, helpers::blob_ty(Layout { size: 1, align: 1 }))]
    } else {
        seq![]
    }
}

/// Whether a template parameter occurs in the signature of a type.
pub open spec fn signature_contains(ctx: BindgenContext, id: ItemId, param: ItemId) -> bool {
    ctx.ty(id).signature_named_types@.contains(param)
}

/// Whether a template argument is used by what is generated for a compound
/// type: by a base that takes space, or by a field that is no bitfield.
pub open spec fn arg_used(ctx: BindgenContext, item: Item, arg: ItemId) -> bool {
    let bases = comp(item).base_members@;
    let fields = comp(item).fields@;
    !item.is_opaque && {
        ||| exists|k: int|
            0 <= k < bases.len() && !ctx.ty(#[trigger] bases[k]).is_unsized && signature_contains(
                ctx,
                bases[k],
                arg,
            )
        ||| exists|k: int|
            0 <= k < fields.len() && (#[trigger] fields[k]).bitfield is None && signature_contains(
                ctx,
                fields[k].ty,
                arg,
            )
    }
}

/// The marker field for the template argument at `k`.
pub open spec fn phantom_field(ctx: BindgenContext, item: Item, k: int) -> StructFieldView {
    pub_field(
        "_phantom_"@ + names::decimal_digits(k as nat),
        helpers::marker_ty(
            ctx,
            helpers::named_ty(
                ctx.mangle(alias::declared_name(ctx, item.applicable_template_args@[k])),
            ),
        ),
    )
}

/// The marker fields for those of the first `n` template arguments that are
/// not used.
pub open spec fn phantom_fields(ctx: BindgenContext, item: Item, n: int) -> Seq<StructFieldView>
    decreases n,
{
    if n <= 0 {
        seq![]
    } else if arg_used(ctx, item, item.applicable_template_args@[n - 1]) {
        phantom_fields(ctx, item, n - 1)
    } else {
        phantom_fields(ctx, item, n - 1).push(phantom_field(ctx, item, n - 1))
    }
}

/// The fields of a compound type.
pub open spec fn comp_fields(ctx: BindgenContext, item: Item) -> Seq<StructFieldView> {
    (if item.is_opaque {
        opaque_fields(item)
    } else {
        declared_members(ctx, item).fields + union_fields(ctx, item)
    }) + address_fields(item) + phantom_fields(
        ctx,
        item,
        item.applicable_template_args@.len() as int,
    )
}

/// The accessors of a compound type.
pub open spec fn comp_accessors(ctx: BindgenContext, item: Item) -> Seq<ImplItemView> {
    if item.is_opaque {
        seq![]
    } else {
        declared_members(ctx, item).methods
    }
}

/// Whether complex numbers occur in the bases or the fields of a compound
/// type.
pub open spec fn comp_complex(ctx: BindgenContext, item: Item) -> bool {
    let bases = comp(item).base_members@;
    bases_complex(ctx, bases, bases.len() as int) || bitfield::fields_complex(
        ctx,
        comp(item).fields@,
    )
}

/// The struct or the union for a compound type.
pub open spec fn comp_item(ctx: BindgenContext, item: Item) -> ItemView {
    let name = item.canonical_name@;
    let attrs = comp_attrs(item);
    let generics = alias::declared_names(ctx, item.applicable_template_args@);
    let fields = comp_fields(ctx, item);
    if comp(item).kind == CompKind::Union && ctx.options.unstable_rust {
        ItemView::Union { name, attrs, generics, fields }
    } else {
        ItemView::Struct { name, attrs, generics, fields }
    }
}

/// Whether bases can be generated: they are types, and those that take space
/// have Rust types.
pub open spec fn bases_ok(ctx: BindgenContext, bases: Seq<ItemId>) -> bool {
    forall|k: int|
        0 <= k < bases.len() ==> ctx.is_type(#[trigger] bases[k]) && (ctx.ty(bases[k]).is_unsized
            || ctx.converts(bases[k]))
}

/// Whether the fields of a compound type can be generated: the types that it
/// is made of have Rust types, its template arguments have names, and the layout of a
/// union that is emulated is known.
pub open spec fn comp_ok(ctx: BindgenContext, item: Item) -> bool {
    let bases = comp(item).base_members@;
    &&& bases_ok(ctx, bases)
    &&& fields_ok(ctx, comp(item).fields@)
    &&& ctx.template_args_ok(item)
    &&& forall|k: int|
        0 <= k < item.applicable_template_args@.len() ==> ctx.ty(
            #[trigger] item.applicable_template_args@[k],
        ).name is Some
    &&& emulated(ctx, item) ==> item.kind->Type_0.layout is Some
}

/// A public field without attributes.
fn public_field(name: String, ty: Ty) -> (f: StructField)
    ensures
        f@ == pub_field(name@, ty@),
{
    let attrs: Vec<Attr> = Vec::new();
    assert(attrs.deep_view() =~= seq![]);
    StructField { name, is_pub: true, attrs, ty }
}

/// Adds a field.
fn push_field(fields: &mut Vec<StructField>, field: StructField)
    ensures
        final(fields).deep_view() == old(fields).deep_view().push(field@),
{
    fields.push(field);
    assert(fields.deep_view() =~= old(fields).deep_view().push(field@));
}

/// The vtable of a compound type.
pub struct Vtable {
    pub item_id: ItemId,
}

impl Vtable {
    pub fn new(item_id: ItemId) -> (v: Vtable)
        ensures
            v.item_id == item_id,
    {
        Vtable { item_id }
    }

    /// Generates the vtable: for now, a struct without fields.
    pub fn codegen(&self, ctx: &BindgenContext, result: &mut CodegenResult)
        requires
            ctx.has(self.item_id),
        ensures
            final(result)@ == old(result)@.push(vtable_item(*ctx, self.item_id)),
    {
        let mut attrs: Vec<Attr> = Vec::new();
        let repr = Attr::Repr(list1("C"));
        attrs.push(repr);
        assert(attrs.deep_view() =~= seq![repr@]);
        let generics: Vec<String> = Vec::new();
        assert(generics.deep_view() =~= seq![]);
        let fields: Vec<StructField> = Vec::new();
        assert(fields.deep_view() =~= seq![]);
        result.push(
            ast::Item::Struct { name: self.canonical_name(ctx), attrs, generics, fields },
        );
    }

    /// The name of the vtable.
    pub fn canonical_name(&self, ctx: &BindgenContext) -> (name: String)
        requires
            ctx.has(self.item_id),
        ensures
            name@ == vtable_name(*ctx, self.item_id),
    {
        cat(ctx.resolve_item(self.item_id).canonical_name.as_str(), "__bindgen_vtable")
    }

    /// The type of the vtable.
    pub fn to_rust_ty(&self, ctx: &BindgenContext) -> (t: Ty)
        requires
            ctx.has(self.item_id),
        ensures
            t@ == helpers::named_ty(vtable_name(*ctx, self.item_id)),
    {
        let name = self.canonical_name(ctx);
        ty_named(name.as_str())
    }
}

/// The attributes of the compound type that `item` is.
pub fn attributes(item: &Item) -> (attrs: Vec<Attr>)
    requires
        is_comp(*item),
    ensures
        attrs.deep_view() == comp_attrs(*item),
{
    let ty = item.expect_type();
    let packed = match &ty.kind {
        TypeKind::Comp(info) => info.packed,
        _ => false,
    };
    let mut attrs = doc(&item.comment);
    let ghost docs = attrs.deep_view();
    let repr = Attr::Repr(
        if packed {
            list2("C", "packed")
        } else {
            list1("C")
        },
    );
    attrs.push(repr);
    assert(attrs.deep_view() =~= docs.push(repr@));

    let mut traits: Vec<String> = Vec::new();
    if ty.can_derive_debug {
        traits.push("Debug".to_owned());
    }
    assert(traits.deep_view() =~= (if ty.can_derive_debug {
        seq!["Debug"@]
    } else {
        seq![]
    }));
    if item.can_derive_copy && !item.annotations.disallow_copy {
        traits.push("Copy".to_owned());
        if item.applicable_template_args.len() > 0 {
            traits.push("Clone".to_owned());
        }
    }
    assert(traits.deep_view() =~= derives(*item));
    assert(traits@.len() == traits.deep_view().len());
    if traits.len() > 0 {
        let ghost before = attrs.deep_view();
        let derive = Attr::Derive(traits);
        attrs.push(derive);
        assert(attrs.deep_view() =~= before.push(derive@));
    }
    assert(attrs.deep_view() =~= comp_attrs(*item));
    attrs
}

impl CompInfo {
    /// Adds the vtable pointer, if this compound type has one of its own, and
    /// generates the vtable.
    fn vtable_field(
        &self,
        ctx: &BindgenContext,
        result: &mut CodegenResult,
        item: &Item,
        fields: &mut Vec<StructField>,
    )
        requires
            ctx.holds(item),
            is_comp(*item),
            comp(*item) == *self,
        ensures
            final(fields).deep_view() == old(fields).deep_view() + vtable_fields(*ctx, *item),
            final(result)@ == (if self.needs_explicit_vtable {
                old(result)@.push(vtable_item(*ctx, item.id))
            } else {
                old(result)@
            }),
    {
        if self.needs_explicit_vtable {
            let vtable = Vtable::new(item.id);
            vtable.codegen(ctx, result);
            let vtable_type = vtable.to_rust_ty(ctx).to_ptr(true);
            push_field(fields, public_field("vtable_".to_owned(), vtable_type));
        }
        assert(fields.deep_view() =~= old(fields).deep_view() + vtable_fields(*ctx, *item));
    }

    /// Adds a field for each base that takes space.
    fn push_base_fields(
        &self,
        ctx: &BindgenContext,
        fields: &mut Vec<StructField>,
        complex: &mut bool,
    )
        requires
            ctx.ids_wf(),
            bases_ok(*ctx, self.base_members@),
        ensures
            final(fields).deep_view() == old(fields).deep_view() + base_fields(
                *ctx,
                self.base_members@,
                self.base_members@.len() as int,
            ),
            *final(complex) == (*old(complex) || bases_complex(
                *ctx,
                self.base_members@,
                self.base_members@.len() as int,
            )),
    {
        let ghost bases = self.base_members@;
        let ghost start = fields.deep_view();
        let mut i: usize = 0;
        assert(fields.deep_view() =~= start + base_fields(*ctx, bases, 0));
        while i < self.base_members.len()
            invariant
                0 <= i <= bases.len(),
                bases == self.base_members@,
                ctx.ids_wf(),
                bases_ok(*ctx, bases),
                fields.deep_view() == start + base_fields(*ctx, bases, i as int),
                *complex == (*old(complex) || bases_complex(*ctx, bases, i as int)),
            decreases bases.len() - i,
        {
            let base = self.base_members[i];
            assert(base == bases[i as int]);
            // Types that take no space would add to the size by the field
            // that gives them an address.
            if !ctx.resolve_type(base).is_unsized {
                let inner = base.to_rust_ty(ctx, complex);
                let field_name = if i == 0 {
                    "_base".to_owned()
                } else {
                    numbered("_base_", i)
                };
                push_field(fields, public_field(field_name, inner));
            }
            assert(fields.deep_view() =~= start + base_fields(*ctx, bases, i + 1));
            i += 1;
        }
    }

    /// Adds a field that is no bitfield, and its accessors. Returns how many
    /// fields without a name there are then.
    fn push_member(
        &self,
        ctx: &BindgenContext,
        item: &Item,
        field: &Field,
        anons: usize,
        fields: &mut Vec<StructField>,
        methods: &mut Vec<ImplItem>,
        complex: &mut bool,
        Ghost(units): Ghost<nat>,
    ) -> (r: usize)
        requires
            ctx.ids_wf(),
            is_comp(*item),
            comp(*item) == *self,
            ctx.converts(field.ty),
            anons < usize::MAX,
        ensures
            ({
                let acc = Members {
                    fields: old(fields).deep_view(),
                    methods: old(methods).deep_view(),
                    units,
                    anons: anons as nat,
                };
                with_member(*ctx, acc, *item, *field) == (Members {
                    fields: final(fields).deep_view(),
                    methods: final(methods).deep_view(),
                    units,
                    anons: r as nat,
                })
            }),
            *final(complex) == (*old(complex) || types::rust_ty(*ctx, field.ty).complex),
            r <= anons + 1,
    {
        let mut anons = anons;
        let inner = field.ty.to_rust_ty(ctx, complex);
        let is_union = self.kind == CompKind::Union;
        let ty = if is_union && !ctx.options.unstable_rust {
            ty_applied(false, support_segments(ctx, "__BindgenUnionField"), inner)
        } else {
            inner
        };
        assert(ty@ == member_ty(*ctx, *item, *field));
        let ghost anons_before = anons as nat;
        let field_name = match &field.name {
            Some(name) => ctx.rust_mangle(name.as_str()),
            None => {
                anons += 1;
                numbered("__bindgen_anon_", anons)
            },
        };
        assert(field_name@ == member_name(*ctx, *field, anons_before));
        let private = match field.annotations.private_fields {
            Some(private) => private,
            None => match item.annotations.private_fields {
                Some(private) => private,
                None => false,
            },
        };
        let kind = match field.annotations.accessor_kind {
            Some(kind) => kind,
            None => match item.annotations.accessor_kind {
                Some(kind) => kind,
                None => FieldAccessorKind::Neither,
            },
        };
        push_field(
            fields,
            StructField {
                name: field_name.clone(),
                is_pub: !private,
                attrs: doc(&field.comment),
                ty: ty.clone(),
            },
        );
        let ghost before = methods.deep_view();
        match kind {
            FieldAccessorKind::Neither => {},
            FieldAccessorKind::Regular | FieldAccessorKind::Unsafe => {
                let is_unsafe = kind == FieldAccessorKind::Unsafe;
                methods.push(
                    ImplItem::FieldAccessor {
                        name: cat("get_", field_name.as_str()),
                        field: field_name.clone(),
                        ty: ty.clone(),
                        is_unsafe,
                        mutable: false,
                    },
                );
                let mut name = cat("get_", field_name.as_str());
                name.append("_mut");
                methods.push(
                    ImplItem::FieldAccessor {
                        name,
                        field: field_name,
                        ty,
                        is_unsafe,
                        mutable: true,
                    },
                );
            },
            FieldAccessorKind::Immutable => {
                methods.push(
                    ImplItem::FieldAccessor {
                        name: cat("get_", field_name.as_str()),
                        field: field_name,
                        ty,
                        is_unsafe: false,
                        mutable: false,
                    },
                );
            },
        }
        assert(methods.deep_view() =~= before + accessors(
            accessor_kind(*item, *field),
            member_name(*ctx, *field, anons_before),
            member_ty(*ctx, *item, *field),
        ));
        anons
    }

    /// Adds the declared fields and their accessors.
    fn push_members(
        &self,
        ctx: &BindgenContext,
        item: &Item,
        fields: &mut Vec<StructField>,
        methods: &mut Vec<ImplItem>,
        complex: &mut bool,
    )
        requires
            ctx.ids_wf(),
            is_comp(*item),
            comp(*item) == *self,
            fields_ok(*ctx, self.fields@),
        ensures
            ({
                let members = with_members(
                    *ctx,
                    Members {
                        fields: old(fields).deep_view(),
                        methods: old(methods).deep_view(),
                        units: 0,
                        anons: 0,
                    },
                    *item,
                    self.fields@,
                    0,
                );
                &&& final(fields).deep_view() == members.fields
                &&& final(methods).deep_view() == members.methods
            }),
            *final(complex) == (*old(complex) || bitfield::fields_complex(*ctx, self.fields@)),
    {
        let ghost all = self.fields@;
        let ghost total = with_members(
            *ctx,
            Members {
                fields: fields.deep_view(),
                methods: methods.deep_view(),
                units: 0,
                anons: 0,
            },
            *item,
            all,
            0,
        );
        let mut run: Vec<&Field> = Vec::new();
        let mut units: usize = 0;
        let mut anons: usize = 0;
        // Where the run starts, if there is one, or where the rest starts.
        let ghost mut s: int = 0;
        let mut i: usize = 0;
        while i < self.fields.len()
            invariant
                0 <= s <= i <= all.len(),
                all == self.fields@,
                ctx.ids_wf(),
                is_comp(*item),
                comp(*item) == *self,
                fields_ok(*ctx, all),
                members_ok(*ctx, all, s),
                units <= s,
                anons <= s,
                run@.len() == i - s,
                fields_of_run(run@, all, s),
                run@.len() > 0 ==> all[s].bitfield is Some && run_end(*ctx, all, s, s + 1)
                    == run_end(*ctx, all, s, i as int),
                total == with_members(
                    *ctx,
                    Members {
                        fields: fields.deep_view(),
                        methods: methods.deep_view(),
                        units: units as nat,
                        anons: anons as nat,
                    },
                    *item,
                    all,
                    s,
                ),
                *complex == (*old(complex) || exists|k: int|
                    0 <= k < s && types::rust_ty(*ctx, (#[trigger] all[k]).ty).complex),
            decreases all.len() - i,
        {
            let field = &self.fields[i];
            assert(*field == all[i as int]);
            if run.len() > 0 {
                let first = run[0];
                assert(*first == all[s]);
                if let Some(next_width) = field.bitfield {
                    assert(bitfield::bitfield_ok(*ctx, all[s]));
                    assert(bitfield::bitfield_ok(*ctx, all[i as int]));
                    let first_width = first.bitfield.unwrap();
                    let layout = ctx.resolve_type(first.ty).layout.unwrap();
                    if first_width + next_width <= (layout.size * 8) as u32 {
                        assert(joins(*ctx, all[s], all[i as int]));
                        run.push(field);
                        i += 1;
                        continue ;
                    }
                }
                // The run ends here.
                assert(!joins(*ctx, all[s], all[i as int]));
                let mut flushed: Vec<&Field> = Vec::new();
                std::mem::swap(&mut run, &mut flushed);
                assert(bitfield::fields_of(flushed@) =~= all.subrange(s, i as int));
                units += 1;
                Bitfield::new(units, flushed).codegen_fields(ctx, fields, methods, complex);
                proof {
                    lemma_flushed_complex(*ctx, all, s, i as int);
                    assert(run_end(*ctx, all, s, s + 1) == i);
                    assert(members_ok(*ctx, all, i as int));
                    assert(total == with_members(
                        *ctx,
                        Members {
                            fields: fields.deep_view(),
                            methods: methods.deep_view(),
                            units: units as nat,
                            anons: anons as nat,
                        },
                        *item,
                        all,
                        i as int,
                    ));
                    s = i as int;
                }
            }
            if field.bitfield.is_some() {
                run.push(field);
                i += 1;
                continue ;
            }
            anons = self.push_member(
                ctx,
                item,
                field,
                anons,
                fields,
                methods,
                complex,
                Ghost(units as nat),
            );
            i += 1;
            proof {
                s = i as int;
            }
        }
        if run.len() > 0 {
            assert(bitfield::fields_of(run@) =~= all.subrange(s, all.len() as int));
            units += 1;
            Bitfield::new(units, run).codegen_fields(ctx, fields, methods, complex);
            proof {
                lemma_flushed_complex(*ctx, all, s, all.len() as int);
                assert(run_end(*ctx, all, s, s + 1) == all.len());
                assert(total == with_members(
                    *ctx,
                    Members {
                        fields: fields.deep_view(),
                        methods: methods.deep_view(),
                        units: units as nat,
                        anons: anons as nat,
                    },
                    *item,
                    all,
                    all.len() as int,
                ));
            }
        }
    }
}

/// Whether a run is made of the fields from `s` on.
spec fn fields_of_run(run: Seq<&Field>, all: Seq<Field>, s: int) -> bool {
    &&& s + run.len() <= all.len()
    &&& forall|k: int| 0 <= k < run.len() ==> *(#[trigger] run[k]) == all[s + k]
}

/// Complex numbers occur before `e` if they occur before `s`, or from `s` to
/// `e`.
proof fn lemma_flushed_complex(ctx: BindgenContext, all: Seq<Field>, s: int, e: int)
    requires
        0 <= s <= e <= all.len(),
    ensures
        (exists|k: int| 0 <= k < e && types::rust_ty(ctx, (#[trigger] all[k]).ty).complex) == ((
        exists|k: int| 0 <= k < s && types::rust_ty(ctx, (#[trigger] all[k]).ty).complex)
            || bitfield::fields_complex(ctx, all.subrange(s, e))),
{
    let part = all.subrange(s, e);
    if exists|k: int| 0 <= k < e && types::rust_ty(ctx, (#[trigger] all[k]).ty).complex {
        let k = choose|k: int| 0 <= k < e && types::rust_ty(ctx, (#[trigger] all[k]).ty).complex;
        if k >= s {
            assert(part[k - s] == all[k]);
        }
    }
    if bitfield::fields_complex(ctx, part) {
        let k = choose|k: int|
            0 <= k < part.len() && types::rust_ty(ctx, (#[trigger] part[k]).ty).complex;
        assert(all[s + k] == part[k]);
    }
}

/// What generating the struct or the union for a compound type does, apart
/// from what is declared in it.
pub open spec fn gen_struct(ctx: BindgenContext, st: ResultView, item: Item) -> ResultView {
    let with_vtable = if comp(item).needs_explicit_vtable {
        st.push(vtable_item(ctx, item.id))
    } else {
        st
    };
    ResultView {
        saw_union: st.saw_union || comp(item).kind == CompKind::Union,
        ..with_vtable
    }.with_complex(comp_complex(ctx, item)).push(comp_item(ctx, item))
}

/// Whether a template parameter occurs in the signature of a type.
fn contains_param(ty: &Type, param: ItemId) -> (b: bool)
    ensures
        b == ty.signature_named_types@.contains(param),
{
    let mut i: usize = 0;
    while i < ty.signature_named_types.len()
        invariant
            0 <= i <= ty.signature_named_types@.len(),
            forall|k: int| 0 <= k < i ==> (#[trigger] ty.signature_named_types@[k]) != param,
        decreases ty.signature_named_types@.len() - i,
    {
        if ty.signature_named_types[i] == param {
            assert(ty.signature_named_types@[i as int] == param);
            return true;
        }
        i += 1;
    }
    false
}

impl CompInfo {
    /// Whether a template argument is used by what is generated.
    fn uses_arg(&self, ctx: &BindgenContext, item: &Item, arg: ItemId) -> (b: bool)
        requires
            is_comp(*item),
            comp(*item) == *self,
            comp_ok(*ctx, *item),
        ensures
            b == arg_used(*ctx, *item, arg),
    {
        if item.is_opaque {
            return false;
        }
        let mut i: usize = 0;
        while i < self.base_members.len()
            invariant
                0 <= i <= self.base_members@.len(),
                comp(*item) == *self,
                comp_ok(*ctx, *item),
                forall|k: int|
                    0 <= k < i ==> ctx.ty(#[trigger] self.base_members@[k]).is_unsized
                        || !signature_contains(*ctx, self.base_members@[k], arg),
                !item.is_opaque,
            decreases self.base_members@.len() - i,
        {
            let base_ty = ctx.resolve_type(self.base_members[i]);
            if !base_ty.is_unsized && contains_param(base_ty, arg) {
                assert(signature_contains(*ctx, self.base_members@[i as int], arg));
                return true;
            }
            i += 1;
        }
        let mut j: usize = 0;
        while j < self.fields.len()
            invariant
                0 <= j <= self.fields@.len(),
                comp(*item) == *self,
                comp_ok(*ctx, *item),
                forall|k: int|
                    0 <= k < j ==> (#[trigger] self.fields@[k]).bitfield is Some
                        || !signature_contains(*ctx, self.fields@[k].ty, arg),
                !item.is_opaque,
            decreases self.fields@.len() - j,
        {
            let field = &self.fields[j];
            assert(ctx.is_type(self.fields@[j as int].ty));
            if field.bitfield.is_none() && contains_param(ctx.resolve_type(field.ty), arg) {
                assert(signature_contains(*ctx, self.fields@[j as int].ty, arg));
                return true;
            }
            j += 1;
        }
        false
    }

    /// Adds a marker field for each template argument that is not used.
    fn push_phantom_fields(&self, ctx: &BindgenContext, item: &Item, fields: &mut Vec<StructField>)
        requires
            is_comp(*item),
            comp(*item) == *self,
            comp_ok(*ctx, *item),
        ensures
            final(fields).deep_view() == old(fields).deep_view() + phantom_fields(
                *ctx,
                *item,
                item.applicable_template_args@.len() as int,
            ),
    {
        let ghost start = fields.deep_view();
        let args = &item.applicable_template_args;
        let mut i: usize = 0;
        assert(fields.deep_view() =~= start + phantom_fields(*ctx, *item, 0));
        while i < args.len()
            invariant
                0 <= i <= args@.len(),
                *args == item.applicable_template_args,
                is_comp(*item),
                comp(*item) == *self,
                comp_ok(*ctx, *item),
                fields.deep_view() == start + phantom_fields(*ctx, *item, i as int),
            decreases args@.len() - i,
        {
            assert(ctx.is_type(item.applicable_template_args@[i as int]));
            if !self.uses_arg(ctx, item, args[i]) {
                let name = match &ctx.resolve_type(args[i]).name {
                    Some(name) => ctx.rust_mangle(name.as_str()),
                    None => {
                        proof {
                            assert(false);
                        }
                        unreached()
                    },
                };
                let phantom = marker(ctx, ty_named(name.as_str()));
                push_field(fields, public_field(numbered("_phantom_", i), phantom));
            }
            i += 1;
            assert(fields.deep_view() =~= start + phantom_fields(*ctx, *item, i as int));
        }
    }

    /// The names of the template arguments.
    fn generics(ctx: &BindgenContext, item: &Item) -> (r: Vec<String>)
        requires
            comp_ok(*ctx, *item),
        ensures
            r.deep_view() == alias::declared_names(*ctx, item.applicable_template_args@),
    {
        let args = &item.applicable_template_args;
        let mut r: Vec<String> = Vec::new();
        let mut i: usize = 0;
        while i < args.len()
            invariant
                0 <= i <= args@.len(),
                *args == item.applicable_template_args,
                comp_ok(*ctx, *item),
                r@.len() == i,
                forall|k: int|
                    0 <= k < i ==> (#[trigger] r@[k])@ == alias::declared_name(*ctx, args@[k]),
            decreases args@.len() - i,
        {
            assert(ctx.is_type(item.applicable_template_args@[i as int]));
            match &ctx.resolve_type(args[i]).name {
                Some(name) => {
                    r.push(name.clone());
                },
                None => {
                    proof {
                        assert(false);
                    }
                },
            }
            i += 1;
        }
        assert(r.deep_view() =~= alias::declared_names(*ctx, args@));
        r
    }

    /// Whether all that this declares are bitfields, and it is a union.
    fn holds_bitfields_only(&self) -> (b: bool)
        ensures
            b == is_bitfield_union(*self),
    {
        if self.kind != CompKind::Union || self.fields.len() == 0 {
            return false;
        }
        let mut k: usize = 0;
        while k < self.fields.len()
            invariant
                0 <= k <= self.fields@.len(),
                forall|j: int| 0 <= j < k ==> (#[trigger] self.fields@[j]).bitfield is Some,
            decreases self.fields@.len() - k,
        {
            if self.fields[k].bitfield.is_none() {
                assert(self.fields@[k as int].bitfield is None);
                return false;
            }
            k += 1;
        }
        true
    }

    /// Adds the field that gives a union the layout of the C union, where it
    /// takes one.
    fn push_union_field(&self, ctx: &BindgenContext, item: &Item, fields: &mut Vec<StructField>)
        requires
            is_comp(*item),
            comp(*item) == *self,
            comp_ok(*ctx, *item),
        ensures
            final(fields).deep_view() == old(fields).deep_view() + union_fields(*ctx, *item),
    {
        if self.kind == CompKind::Union && (!ctx.options.unstable_rust
            || self.holds_bitfields_only()) {
            if let Some(layout) = item.expect_type().layout {
                let ty = BlobTyBuilder::new(layout).build();
                if ctx.options.unstable_rust {
                    let mut field = public_field("_bindgen_union_align".to_owned(), ty);
                    field.is_pub = false;
                    push_field(fields, field);
                } else {
                    push_field(fields, public_field("bindgen_union_field".to_owned(), ty));
                }
            }
        }
        assert(fields.deep_view() =~= old(fields).deep_view() + union_fields(*ctx, *item));
    }

    /// Generates the struct or the union for this compound type, which is
    /// what `item` is, apart from what is declared in it. Returns its
    /// accessors and the names of its template arguments.
    pub(crate) fn codegen_struct(
        &self,
        ctx: &BindgenContext,
        result: &mut CodegenResult,
        item: &Item,
    ) -> (r: (Vec<ImplItem>, Vec<String>))
        requires
            ctx.ids_wf(),
            ctx.holds(item),
            is_comp(*item),
            comp(*item) == *self,
            comp_ok(*ctx, *item),
        ensures
            final(result)@ == gen_struct(*ctx, old(result)@, *item),
            r.0.deep_view() == comp_accessors(*ctx, *item),
            r.1.deep_view() == alias::declared_names(*ctx, item.applicable_template_args@),
    {
        let attrs = attributes(item);
        let mut fields: Vec<StructField> = Vec::new();
        let mut methods: Vec<ImplItem> = Vec::new();
        assert(fields.deep_view() =~= seq![]);
        assert(methods.deep_view() =~= seq![]);
        self.vtable_field(ctx, result, item, &mut fields);
        self.push_base_fields(ctx, &mut fields, &mut result.needs_complex);
        if self.kind == CompKind::Union {
            result.saw_union();
        }
        assert(fields.deep_view() =~= vtable_fields(*ctx, *item) + base_fields(
            *ctx,
            self.base_members@,
            self.base_members@.len() as int,
        ));
        self.push_members(ctx, item, &mut fields, &mut methods, &mut result.needs_complex);
        self.push_union_field(ctx, item, &mut fields);
        if item.is_opaque {
            fields = Vec::new();
            methods = Vec::new();
            assert(methods.deep_view() =~= seq![]);
            if let Some(layout) = item.expect_type().layout {
                let ty = BlobTyBuilder::new(layout).build();
                fields.push(public_field("_bindgen_opaque_blob".to_owned(), ty));
            }
            assert(fields.deep_view() =~= opaque_fields(*item));
        }
        let ghost before = fields.deep_view();
        // C requires every struct to have an address, so its compilers make
        // it one byte large.
        if self.is_unsized {
            let ty = BlobTyBuilder::new(Layout::new(1, 1)).build();
            push_field(&mut fields, public_field("_address".to_owned(), ty));
        }
        assert(fields.deep_view() =~= before + address_fields(*item));
        self.push_phantom_fields(ctx, item, &mut fields);
        assert(fields.deep_view() =~= comp_fields(*ctx, *item));

        let generics = CompInfo::generics(ctx, item);
        let name = item.canonical_name.clone();
        let params = names::clone_strings(&generics);
        if self.kind == CompKind::Union && ctx.options.unstable_rust {
            result.push(ast::Item::Union { name, attrs, generics: params, fields });
        } else {
            result.push(ast::Item::Struct { name, attrs, generics: params, fields });
        }
        assert(result@ =~= gen_struct(*ctx, old(result)@, *item));
        (methods, generics)
    }
}

} // verus!
