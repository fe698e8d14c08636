//! What is generated for declarations of every kind.
use bindgen_codegen::ast;
use bindgen_codegen::ast::{
    Abi, Arg, Attr, CallArg, ConstValue, FnDecl, ForeignItem, ForeignItemKind, ImplItem, Literal,
    StructField, Ty, Variant,
};
use bindgen_codegen::codegen::codegen;
use bindgen_codegen::ir::{
    Annotations, BindgenContext, BindgenOptions, CodegenConfig, CompInfo, CompKind, Enum,
    EnumVariant, EnumVariantValue, Field, FieldAccessorKind, FloatKind, Function, FunctionSig,
    IntKind, Item, ItemId, ItemKind, Layout, Method, Module, Type, TypeKind, Var, VarType,
};
use bindgen_codegen::support::prepend_union_types;

fn text(s: &str) -> String {
    s.to_string()
}

fn texts(list: &[&str]) -> Vec<String> {
    list.iter().map(|s| s.to_string()).collect()
}

fn ids(list: &[usize]) -> Vec<ItemId> {
    list.iter().map(|i| ItemId(*i)).collect()
}

fn annotations() -> Annotations {
    Annotations { private_fields: None, accessor_kind: None, disallow_copy: false }
}

fn item(id: usize, name: &str, kind: ItemKind) -> Item {
    Item {
        id: ItemId(id),
        parent_id: ItemId(0),
        ancestors: vec![ItemId(id)],
        canonical_name: text(name),
        namespace_aware_canonical_path: texts(&[name]),
        is_hidden: false,
        is_opaque: false,
        is_toplevel: true,
        can_derive_copy: false,
        comment: None,
        annotations: annotations(),
        applicable_template_args: vec![],
        kind,
    }
}

fn module(id: usize, name: &str, children: &[usize]) -> Item {
    item(id, name, ItemKind::Module(Module { children: ids(children) }))
}

fn ty(id: usize, name: &str, layout: Option<Layout>, kind: TypeKind) -> Item {
    item(
        id,
        name,
        ItemKind::Type(Type {
            name: Some(text(name)),
            layout,
            kind,
            is_const: false,
            can_derive_debug: false,
            is_unsized: false,
            canonical_type: ItemId(id),
            signature_named_types: vec![],
        }),
    )
}

fn type_of(item: &mut Item) -> &mut Type {
    match &mut item.kind {
        ItemKind::Type(ty) => ty,
        _ => panic!("no type"),
    }
}

fn comp_of(item: &mut Item) -> &mut CompInfo {
    match &mut type_of(item).kind {
        TypeKind::Comp(info) => info,
        _ => panic!("no compound type"),
    }
}

fn comp(kind: CompKind, fields: Vec<Field>) -> CompInfo {
    CompInfo {
        kind,
        fields,
        methods: vec![],
        base_members: vec![],
        inner_types: vec![],
        inner_vars: vec![],
        has_non_type_template_params: false,
        is_template_specialization: false,
        packed: false,
        needs_explicit_vtable: false,
        found_unknown_attr: false,
        is_unsized: false,
    }
}

fn c_struct(id: usize, name: &str, layout: Option<Layout>, fields: Vec<Field>) -> Item {
    ty(id, name, layout, TypeKind::Comp(comp(CompKind::Struct, fields)))
}

fn field(name: Option<&str>, ty: usize) -> Field {
    Field {
        name: name.map(text),
        ty: ItemId(ty),
        comment: None,
        annotations: annotations(),
        bitfield: None,
    }
}

fn bits(name: Option<&str>, ty: usize, width: u32) -> Field {
    Field { bitfield: Some(width), ..field(name, ty) }
}

fn signature(return_type: usize, args: Vec<(Option<&str>, usize)>) -> FunctionSig {
    FunctionSig {
        return_type: ItemId(return_type),
        argument_types: args.into_iter().map(|(n, t)| (n.map(text), ItemId(t))).collect(),
        is_variadic: false,
        abi: Abi::C,
    }
}

fn function(id: usize, canonical: &str, name: &str, mangled: Option<&str>, sig: usize) -> Item {
    item(
        id,
        canonical,
        ItemKind::Function(Function {
            name: text(name),
            mangled_name: mangled.map(text),
            signature: ItemId(sig),
        }),
    )
}

fn var(id: usize, name: &str, ty: usize, val: Option<VarType>) -> Item {
    item(
        id,
        name,
        ItemKind::Var(Var {
            name: text(name),
            mangled_name: None,
            ty: ItemId(ty),
            is_const: true,
            val,
        }),
    )
}

fn options() -> BindgenOptions {
    BindgenOptions {
        enable_cxx_namespaces: false,
        unstable_rust: false,
        codegen_config: CodegenConfig { functions: true, types: true, vars: true, methods: true },
        bitfield_enums: vec![],
        ctypes_prefix: None,
        convert_floats: true,
    }
}

/// A context in which everything is asked for.
fn context(items: Vec<Item>) -> BindgenContext {
    let whitelisted_items = (0..items.len()).map(ItemId).collect();
    BindgenContext {
        options: options(),
        items,
        root_module: ItemId(0),
        whitelisted_items,
        trait_prefix: text("std"),
        mangled_names: vec![(text("type"), text("type_"))],
        generated_bindegen_complex: false,
    }
}

fn generate(context: &mut BindgenContext) -> Vec<ast::Item> {
    assert!(context.is_well_formed());
    assert!(context.has_countable_items());
    codegen(context)
}

fn named(name: &str) -> Ty {
    Ty::Path { global: false, segments: texts(&[name]), args: vec![] }
}

fn raw(name: &str) -> Ty {
    Ty::Path { global: true, segments: texts(&["std", "os", "raw", name]), args: vec![] }
}

fn array(elem: Ty, len: usize) -> Ty {
    Ty::Array { elem: Box::new(elem), len }
}

fn pub_field(name: &str, ty: Ty) -> StructField {
    StructField { name: text(name), is_pub: true, attrs: vec![], ty }
}

fn repr_c() -> Attr {
    Attr::Repr(texts(&["C"]))
}

fn constant(name: &str, ty: Ty, value: Literal) -> ast::Item {
    ast::Item::Const { name: text(name), ty, value: ConstValue::Literal(value) }
}

fn layout_test(name: &str, ty: Ty, size: usize, align: usize) -> ast::Item {
    ast::Item::LayoutTest { name: text(name), prefix: text("std"), ty, size, align }
}

const INT: usize = 1;

fn int_item() -> Item {
    ty(INT, "int", Some(Layout::new(4, 4)), TypeKind::Int(IntKind::Int))
}

const VOID: usize = 2;

fn void_item() -> Item {
    ty(VOID, "void", None, TypeKind::Void)
}

#[test]
fn nothing_asked_for_gives_nothing() {
    let mut ctx = context(vec![
        module(0, "root", &[1]),
        c_struct(1, "s", Some(Layout::new(4, 4)), vec![]),
    ]);
    ctx.whitelisted_items = vec![];
    assert_eq!(generate(&mut ctx), vec![]);
    ctx.options.enable_cxx_namespaces = true;
    assert_eq!(generate(&mut ctx), vec![]);
    assert!(!ctx.generated_bindegen_complex);
}

#[test]
fn hidden_items_give_nothing() {
    let mut ctx = context(vec![module(0, "root", &[2]), int_item(), c_struct(2, "s", None, vec![])]);
    ctx.items[2].is_hidden = true;
    assert_eq!(generate(&mut ctx), vec![]);
}

/// A root that declares a hidden item, and nothing that was asked for.
fn hidden_item(hidden: Item) -> BindgenContext {
    let mut ctx = context(vec![
        module(0, "root", &[]),
        ty(1, "long", Some(Layout::new(8, 8)), TypeKind::Int(IntKind::LongLong)),
        hidden,
    ]);
    ctx.whitelisted_items = vec![];
    ctx
}

#[test]
fn nothing_is_asked_of_what_is_not_generated() {
    let union = || ty(2, "u", None, TypeKind::Comp(comp(CompKind::Union, vec![])));
    let wide = || c_struct(2, "w", None, vec![bits(Some("b"), 1, 64)]);
    let unresolved = || ty(2, "t", None, TypeKind::UnresolvedTypeRef);
    let lost = || ty(2, "l", None, TypeKind::Pointer(ItemId(9)));
    for item in [union(), wide(), unresolved(), lost()] {
        // Neither hidden, nor declared, nor asked for.
        let mut ctx = hidden_item(item);
        assert_eq!(generate(&mut ctx), vec![]);
        // Hidden.
        ctx.items[2].is_hidden = true;
        assert_eq!(generate(&mut ctx), vec![]);
        // Hidden, declared and asked for.
        ctx.items[0] = module(0, "root", &[2]);
        ctx.whitelisted_items = ids(&[0, 1, 2]);
        assert_eq!(generate(&mut ctx), vec![]);
        // Not hidden, but of a kind that is switched off.
        ctx.items[2].is_hidden = false;
        ctx.options.codegen_config.types = false;
        assert_eq!(generate(&mut ctx), vec![]);
    }
    for item in [union(), wide(), unresolved()] {
        // Declared, but not asked for.
        let mut ctx = hidden_item(item);
        ctx.items[0] = module(0, "root", &[2, 7]);
        assert_eq!(generate(&mut ctx), vec![]);
        // Asked for too.
        ctx.whitelisted_items = ids(&[2]);
        assert!(!ctx.is_well_formed());
    }
}

#[test]
fn an_item_is_generated_once() {
    let mut ctx = context(vec![module(0, "root", &[1, 1]), c_struct(1, "s", None, vec![])]);
    let items = generate(&mut ctx);
    assert_eq!(
        items,
        vec![ast::Item::Struct {
            name: text("s"),
            attrs: vec![repr_c()],
            generics: vec![],
            fields: vec![],
        }]
    );
}

#[test]
fn kinds_that_are_switched_off_give_nothing() {
    let items = || {
        vec![
            module(0, "root", &[3, 4, 5]),
            int_item(),
            void_item(),
            function(3, "f", "f", None, 6),
            var(4, "v", INT, Some(VarType::Int(1))),
            c_struct(5, "s", None, vec![]),
            ty(6, "sig", None, TypeKind::Function(signature(VOID, vec![]))),
        ]
    };
    assert_eq!(generate(&mut context(items())).len(), 3);
    let mut ctx = context(items());
    ctx.options.codegen_config.functions = false;
    assert_eq!(generate(&mut ctx).len(), 2);
    ctx.options.codegen_config.vars = false;
    assert_eq!(generate(&mut ctx).len(), 1);
    ctx.options.codegen_config.types = false;
    assert_eq!(generate(&mut ctx).len(), 0);
}

fn fn_item(name: &str, attrs: Vec<Attr>, decl: FnDecl) -> ast::Item {
    ast::Item::ForeignMod {
        abi: Abi::C,
        foreign_items: vec![ForeignItem {
            name: text(name),
            attrs,
            kind: ForeignItemKind::Fn(decl),
        }],
    }
}

fn no_args() -> FnDecl {
    FnDecl { inputs: vec![], output: None, variadic: false }
}

#[test]
fn overloads_get_numbers_and_symbols_are_declared_once() {
    let mut ctx = context(vec![
        module(0, "root", &[3, 4, 5, 6, 8]),
        int_item(),
        void_item(),
        function(3, "f", "f", Some("_Z1fi"), 7),
        function(4, "f", "f", Some("_Z1fc"), 7),
        function(5, "f", "f", Some("_Z1fi"), 7),
        function(6, "ns_g", "g", None, 7),
        ty(7, "sig", None, TypeKind::Function(signature(VOID, vec![]))),
        function(8, "f", "f", Some("_Z1fs"), 7),
    ]);
    assert_eq!(
        generate(&mut ctx),
        vec![
            fn_item("f", vec![Attr::LinkName(text("_Z1fi"))], no_args()),
            fn_item("f1", vec![Attr::LinkName(text("_Z1fc"))], no_args()),
            fn_item("ns_g", vec![Attr::LinkName(text("g"))], no_args()),
            fn_item("f2", vec![Attr::LinkName(text("_Z1fs"))], no_args()),
        ]
    );
}

#[test]
fn signatures_name_their_arguments_and_turn_arrays_into_pointers() {
    let mut ctx = context(vec![
        module(0, "root", &[3]),
        int_item(),
        void_item(),
        function(3, "f", "f", None, 4),
        ty(
            4,
            "sig",
            None,
            TypeKind::Function(FunctionSig {
                is_variadic: true,
                abi: Abi::Stdcall,
                ..signature(
                    INT,
                    vec![(None, INT), (Some("type"), 5), (None, 6), (Some("cb"), 7)],
                )
            }),
        ),
        ty(5, "arr", None, TypeKind::Array(ItemId(INT), 3)),
        ty(6, "ptr", None, TypeKind::Pointer(ItemId(INT))),
        ty(7, "cb", None, TypeKind::Pointer(ItemId(8))),
        ty(8, "inner", None, TypeKind::Function(signature(VOID, vec![]))),
    ]);
    type_of(&mut ctx.items[5]).is_const = true;
    ctx.items[3].comment = Some(text("/** says */"));
    let arg = |name: &str, ty: Ty| Arg { name: text(name), ty };
    let ptr = |is_const: bool| Ty::Ptr { is_const, inner: Box::new(raw("c_int")) };
    let callback = Ty::Path {
        global: true,
        segments: texts(&["std", "option", "Option"]),
        args: vec![Ty::BareFn { abi: Abi::C, decl: Box::new(no_args()) }],
    };
    assert_eq!(
        generate(&mut ctx),
        vec![ast::Item::ForeignMod {
            abi: Abi::Stdcall,
            foreign_items: vec![ForeignItem {
                name: text("f"),
                attrs: vec![Attr::Doc(text("/** says */"))],
                kind: ForeignItemKind::Fn(FnDecl {
                    inputs: vec![
                        arg("arg1", raw("c_int")),
                        arg("type_", ptr(true)),
                        arg("arg2", ptr(false)),
                        arg("cb", callback),
                    ],
                    output: Some(raw("c_int")),
                    variadic: true,
                }),
            }],
        }]
    );
}

#[test]
fn variables_with_a_value_are_constants() {
    let mut ctx = context(vec![
        module(0, "root", &[2, 3, 4, 5, 6, 7, 8]),
        int_item(),
        var(2, "b", INT, Some(VarType::Bool(true))),
        var(3, "i", INT, Some(VarType::Int(-7))),
        var(4, "f", INT, Some(VarType::Float(0x3ff8000000000000))),
        var(5, "c", INT, Some(VarType::Char(65))),
        var(6, "s", INT, Some(VarType::String(vec![0x68, 0xc3, 0xa9]))),
        var(7, "x", INT, Some(VarType::String(vec![0xff, 0x41]))),
        var(8, "b", INT, Some(VarType::Int(9))),
    ]);
    assert_eq!(
        generate(&mut ctx),
        vec![
            constant("b", raw("c_int"), Literal::Bool(true)),
            constant("i", raw("c_int"), Literal::Int(-7)),
            constant("f", raw("c_int"), Literal::Float(0x3ff8000000000000)),
            constant("c", raw("c_int"), Literal::Byte(65)),
            constant(
                "s",
                Ty::StaticRef { inner: Box::new(array(named("u8"), 4)) },
                Literal::CStr(text("h\u{e9}")),
            ),
            constant("x", array(named("u8"), 3), Literal::Bytes(vec![0xff, 0x41])),
        ]
    );
}

#[test]
fn variables_without_a_value_are_foreign() {
    let mut ctx = context(vec![
        module(0, "root", &[2, 3]),
        int_item(),
        var(2, "v", INT, None),
        var(3, "ns_w", INT, None),
    ]);
    if let ItemKind::Var(v) = &mut ctx.items[3].kind {
        v.name = text("w");
        v.is_const = false;
    }
    let foreign = |name: &str, attrs: Vec<Attr>, mutable: bool| ast::Item::ForeignMod {
        abi: Abi::C,
        foreign_items: vec![ForeignItem {
            name: text(name),
            attrs,
            kind: ForeignItemKind::Static { ty: raw("c_int"), mutable },
        }],
    };
    assert_eq!(
        generate(&mut ctx),
        vec![
            foreign("v", vec![], false),
            foreign("ns_w", vec![Attr::LinkName(text("w"))], true),
        ]
    );
}

#[test]
fn structs_have_fields_a_layout_test_and_a_clone() {
    let mut ctx = context(vec![
        module(0, "root", &[2]),
        int_item(),
        c_struct(
            2,
            "s",
            Some(Layout::new(12, 4)),
            vec![field(Some("type"), INT), field(None, INT), field(None, INT)],
        ),
    ]);
    ctx.items[2].can_derive_copy = true;
    ctx.items[2].comment = Some(text("// a struct"));
    type_of(&mut ctx.items[2]).can_derive_debug = true;
    comp_of(&mut ctx.items[2]).packed = true;
    comp_of(&mut ctx.items[2]).fields[0].comment = Some(text("// a field"));
    assert_eq!(
        generate(&mut ctx),
        vec![
            ast::Item::Struct {
                name: text("s"),
                attrs: vec![
                    Attr::Doc(text("// a struct")),
                    Attr::Repr(texts(&["C", "packed"])),
                    Attr::Derive(texts(&["Debug", "Copy"])),
                ],
                generics: vec![],
                fields: vec![
                    StructField {
                        attrs: vec![Attr::Doc(text("// a field"))],
                        ..pub_field("type_", raw("c_int"))
                    },
                    pub_field("__bindgen_anon_1", raw("c_int")),
                    pub_field("__bindgen_anon_2", raw("c_int")),
                ],
            },
            layout_test("bindgen_test_layout_s", named("s"), 12, 4),
            ast::Item::Impl {
                of_trait: Some(named("Clone")),
                generics: vec![],
                for_ty: named("s"),
                impl_items: vec![ImplItem::CloneByCopy],
            },
        ]
    );
}

#[test]
fn annotations_ask_for_private_fields_and_accessors() {
    let mut ctx = context(vec![
        module(0, "root", &[2]),
        int_item(),
        c_struct(
            2,
            "s",
            None,
            vec![
                field(Some("a"), INT),
                field(Some("b"), INT),
                field(Some("c"), INT),
                field(Some("d"), INT),
            ],
        ),
    ]);
    ctx.items[2].annotations.private_fields = Some(true);
    ctx.items[2].annotations.accessor_kind = Some(FieldAccessorKind::Regular);
    let fields = &mut comp_of(&mut ctx.items[2]).fields;
    fields[1].annotations.private_fields = Some(false);
    fields[1].annotations.accessor_kind = Some(FieldAccessorKind::Unsafe);
    fields[2].annotations.accessor_kind = Some(FieldAccessorKind::Immutable);
    fields[3].annotations.accessor_kind = Some(FieldAccessorKind::Neither);
    let items = generate(&mut ctx);
    let privacy = match &items[0] {
        ast::Item::Struct { fields, .. } => fields.iter().map(|f| f.is_pub).collect::<Vec<_>>(),
        other => panic!("no struct: {:?}", other),
    };
    assert_eq!(privacy, vec![false, true, false, false]);
    let accessor = |name: &str, field: &str, is_unsafe: bool, mutable: bool| {
        ImplItem::FieldAccessor {
            name: text(name),
            field: text(field),
            ty: raw("c_int"),
            is_unsafe,
            mutable,
        }
    };
    assert_eq!(
        items[1],
        ast::Item::Impl {
            of_trait: None,
            generics: vec![],
            for_ty: named("s"),
            impl_items: vec![
                accessor("get_a", "a", false, false),
                accessor("get_a_mut", "a", false, true),
                accessor("get_b", "b", true, false),
                accessor("get_b_mut", "b", true, true),
                accessor("get_c", "c", false, false),
            ],
        }
    );
}

/// The masks and offsets of the getters, and the fields of the struct.
fn units(fields: Vec<Field>) -> (Vec<(String, usize, u32)>, Vec<(String, Ty)>) {
    let mut ctx = context(vec![
        module(0, "root", &[2]),
        int_item(),
        c_struct(2, "s", None, fields),
        ty(3, "long", Some(Layout::new(8, 8)), TypeKind::Int(IntKind::ULong)),
    ]);
    let items = generate(&mut ctx);
    let fields = match &items[0] {
        ast::Item::Struct { fields, .. } => {
            fields.iter().map(|f| (f.name.clone(), copy_ty(&f.ty))).collect()
        },
        other => panic!("no struct: {:?}", other),
    };
    let mut getters = vec![];
    if let Some(ast::Item::Impl { impl_items, .. }) = items.get(1) {
        for i in impl_items {
            if let ImplItem::BitfieldGetter { name, mask, offset, .. } = i {
                getters.push((name.clone(), *mask, *offset));
            }
        }
    }
    (getters, fields)
}

fn copy_ty(ty: &Ty) -> Ty {
    ty.clone()
}

#[test]
fn bitfields_share_units_of_the_type_of_the_first() {
    let (getters, fields) = units(vec![
        bits(Some("a"), INT, 3),
        bits(Some("b"), INT, 29),
        bits(None, INT, 8),
        field(Some("x"), INT),
        bits(Some("c"), INT, 30),
        bits(Some("d"), INT, 3),
    ]);
    assert_eq!(
        getters,
        vec![
            (text("a"), 0x7, 0),
            (text("b"), 0xfffffff8, 3),
            (text("at_offset_32"), 0xff00000000, 32),
            (text("c"), 0x3fffffff, 0),
            (text("d"), 0x7, 0),
        ]
    );
    assert_eq!(
        fields,
        vec![
            (text("_bitfield_1"), named("u64")),
            (text("x"), raw("c_int")),
            (text("_bitfield_2"), named("u32")),
            (text("_bitfield_3"), named("u8")),
        ]
    );
}

#[test]
fn units_are_powers_of_two() {
    for (width, unit) in [(1, "u8"), (8, "u8"), (9, "u16"), (16, "u16"), (17, "u32")] {
        let (_, fields) = units(vec![bits(Some("a"), INT, width)]);
        assert_eq!(fields, vec![(text("_bitfield_1"), named(unit))]);
    }
    for (width, unit) in [(32, "u32"), (33, "u64"), (63, "u64")] {
        let (_, fields) = units(vec![bits(Some("a"), 3, width)]);
        assert_eq!(fields, vec![(text("_bitfield_1"), named(unit))]);
    }
}

#[test]
fn a_bitfield_reads_back_what_was_written_and_leaves_the_others() {
    let (getters, _) = units(vec![
        bits(Some("a"), INT, 5),
        bits(Some("b"), INT, 11),
        bits(Some("c"), INT, 16),
    ]);
    let read = |k: usize, unit: u64| (unit & getters[k].1 as u64) >> getters[k].2;
    let write = |k: usize, unit: u64, val: u64| {
        let mask = getters[k].1 as u64;
        (unit & !mask) | ((val << getters[k].2) & mask)
    };
    let widths = [5, 11, 16];
    for unit in [0u64, 0xffffffff, 0x5a5aa5a5] {
        for val in [0u64, 1, 0x15, 0x555, 0xffff, 0x12345] {
            for k in 0..3 {
                let written = write(k, unit, val);
                assert_eq!(read(k, written), val & ((1 << widths[k]) - 1));
                for j in 0..3 {
                    if j != k {
                        assert_eq!(read(j, written), read(j, unit));
                    }
                }
            }
        }
    }
}

#[test]
fn bases_and_vtables_come_first() {
    let mut ctx = context(vec![
        module(0, "root", &[2]),
        int_item(),
        c_struct(2, "s", None, vec![field(Some("x"), INT)]),
        c_struct(3, "base", None, vec![]),
        c_struct(4, "empty", None, vec![]),
        c_struct(5, "other", None, vec![]),
    ]);
    type_of(&mut ctx.items[4]).is_unsized = true;
    comp_of(&mut ctx.items[2]).base_members = ids(&[3, 4, 5]);
    comp_of(&mut ctx.items[2]).needs_explicit_vtable = true;
    let vtable = ast::Item::Struct {
        name: text("s__bindgen_vtable"),
        attrs: vec![repr_c()],
        generics: vec![],
        fields: vec![],
    };
    let pointer = Ty::Ptr { is_const: true, inner: Box::new(named("s__bindgen_vtable")) };
    assert_eq!(
        generate(&mut ctx),
        vec![
            vtable,
            ast::Item::Struct {
                name: text("s"),
                attrs: vec![repr_c()],
                generics: vec![],
                fields: vec![
                    pub_field("vtable_", pointer),
                    pub_field("_base", named("base")),
                    pub_field("_base_2", named("other")),
                    pub_field("x", raw("c_int")),
                ],
            },
        ]
    );
}

#[test]
fn structs_without_contents_get_an_address() {
    let mut ctx = context(vec![module(0, "root", &[1]), c_struct(1, "s", None, vec![])]);
    comp_of(&mut ctx.items[1]).is_unsized = true;
    match &generate(&mut ctx)[0] {
        ast::Item::Struct { fields, .. } => {
            assert_eq!(*fields, vec![pub_field("_address", named("u8"))]);
        },
        other => panic!("no struct: {:?}", other),
    }
}

#[test]
fn opaque_structs_are_blobs() {
    for (layout, blob) in [
        (Layout::new(8, 8), named("u64")),
        (Layout::new(24, 8), array(named("u64"), 3)),
        (Layout::new(12, 4), array(named("u32"), 3)),
        (Layout::new(2, 2), named("u16")),
        (Layout::new(3, 1), array(named("u8"), 3)),
        (Layout::new(16, 16), array(named("u8"), 16)),
    ] {
        let mut ctx = context(vec![
            module(0, "root", &[2]),
            int_item(),
            c_struct(2, "s", Some(layout), vec![field(Some("x"), INT)]),
        ]);
        ctx.items[2].is_opaque = true;
        match &generate(&mut ctx)[0] {
            ast::Item::Struct { fields, .. } => {
                assert_eq!(*fields, vec![pub_field("_bindgen_opaque_blob", blob)]);
            },
            other => panic!("no struct: {:?}", other),
        }
    }
}

#[test]
fn unions_are_emulated_where_rust_has_none() {
    let mut ctx = context(vec![
        module(0, "root", &[2]),
        int_item(),
        ty(
            2,
            "u",
            Some(Layout::new(8, 4)),
            TypeKind::Comp(comp(CompKind::Union, vec![field(Some("a"), INT)])),
        ),
    ]);
    let items = generate(&mut ctx);
    let mut support = vec![];
    prepend_union_types(&ctx, &mut support);
    assert_eq!(support.len(), 6);
    assert_eq!(items[..6], support[..]);
    let member = Ty::Path {
        global: false,
        segments: texts(&["__BindgenUnionField"]),
        args: vec![raw("c_int")],
    };
    assert_eq!(
        items[6..],
        [
            ast::Item::Struct {
                name: text("u"),
                attrs: vec![repr_c()],
                generics: vec![],
                fields: vec![
                    pub_field("a", member),
                    pub_field("bindgen_union_field", array(named("u32"), 2)),
                ],
            },
            layout_test("bindgen_test_layout_u", named("u"), 8, 4),
        ]
    );
}

#[test]
fn unions_are_unions_where_rust_has_them() {
    let char_item = || ty(2, "char", Some(Layout::new(1, 1)), TypeKind::Int(IntKind::Char));
    let union = |fields: Vec<Field>| {
        let mut ctx = context(vec![
            module(0, "root", &[3]),
            int_item(),
            char_item(),
            ty(3, "u", Some(Layout::new(4, 4)), TypeKind::Comp(comp(CompKind::Union, fields))),
        ]);
        ctx.options.unstable_rust = true;
        match generate(&mut ctx).remove(0) {
            ast::Item::Union { fields, .. } => fields,
            other => panic!("no union: {:?}", other),
        }
    };
    let private = |name: &str, ty: Ty| StructField { is_pub: false, ..pub_field(name, ty) };
    // The members alone, if there are any that are no bitfields.
    assert_eq!(
        union(vec![field(Some("a"), INT), field(Some("b"), 2)]),
        vec![pub_field("a", raw("c_int")), pub_field("b", raw("c_char"))]
    );
    assert_eq!(
        union(vec![field(Some("a"), INT), bits(Some("b"), INT, 3)]),
        vec![pub_field("a", raw("c_int")), pub_field("_bitfield_1", named("u8"))]
    );
    assert_eq!(union(vec![]), vec![]);
    assert_eq!(
        union(vec![bits(Some("b"), INT, 3)]),
        vec![
            pub_field("_bitfield_1", named("u8")),
            private("_bindgen_union_align", named("u32")),
        ]
    );
}

#[test]
fn complex_numbers_bring_their_type_along() {
    let mut ctx = context(vec![
        module(0, "root", &[2]),
        ty(1, "complex", None, TypeKind::Complex(FloatKind::Double)),
        var(2, "v", 1, None),
    ]);
    let items = generate(&mut ctx);
    assert_eq!(items.len(), 2);
    let part = |name: &str| pub_field(name, named("T"));
    assert_eq!(
        items[0],
        ast::Item::Struct {
            name: text("__BindgenComplex"),
            attrs: vec![
                Attr::Derive(texts(&["PartialEq", "Copy", "Clone", "Hash", "Debug", "Default"])),
                repr_c(),
            ],
            generics: texts(&["T"]),
            fields: vec![part("re"), part("im")],
        }
    );
    assert!(ctx.generated_bindegen_complex);
    match &items[1] {
        ast::Item::ForeignMod { foreign_items, .. } => {
            assert_eq!(
                foreign_items[0].kind,
                ForeignItemKind::Static {
                    ty: Ty::Path {
                        global: false,
                        segments: texts(&["__BindgenComplex"]),
                        args: vec![named("f64")],
                    },
                    mutable: false,
                }
            );
        },
        other => panic!("no foreign module: {:?}", other),
    }
    // The flag stays set, so that the type is generated again.
    assert_eq!(generate(&mut ctx), items);
}

#[test]
fn template_arguments_that_nothing_uses_get_markers() {
    let mut ctx = context(vec![
        module(0, "root", &[4]),
        ty(1, "T", None, TypeKind::Named),
        ty(2, "U", None, TypeKind::Named),
        ty(3, "ptr", None, TypeKind::Pointer(ItemId(2))),
        c_struct(4, "s", Some(Layout::new(8, 8)), vec![field(Some("x"), 3)]),
    ]);
    ctx.items[4].applicable_template_args = ids(&[1, 2]);
    ctx.items[4].can_derive_copy = true;
    type_of(&mut ctx.items[3]).signature_named_types = ids(&[2]);
    let marker = Ty::Path {
        global: true,
        segments: texts(&["std", "marker", "PhantomData"]),
        args: vec![named("T")],
    };
    let pointer = Ty::Ptr { is_const: false, inner: Box::new(named("U")) };
    assert_eq!(
        generate(&mut ctx),
        vec![ast::Item::Struct {
            name: text("s"),
            attrs: vec![repr_c(), Attr::Derive(texts(&["Copy", "Clone"]))],
            generics: texts(&["T", "U"]),
            fields: vec![pub_field("x", pointer), pub_field("_phantom_0", marker)],
        }]
    );
}

#[test]
fn template_specializations_get_numbered_layout_tests() {
    let mut ctx = context(vec![
        module(0, "root", &[1, 2, 3, 4]),
        c_struct(1, "a", Some(Layout::new(4, 4)), vec![]),
        c_struct(2, "b", None, vec![]),
        c_struct(3, "c", Some(Layout::new(16, 8)), vec![]),
        c_struct(4, "d", Some(Layout::new(1, 1)), vec![]),
    ]);
    for i in 1..4 {
        comp_of(&mut ctx.items[i]).is_template_specialization = true;
    }
    comp_of(&mut ctx.items[4]).has_non_type_template_params = true;
    assert_eq!(
        generate(&mut ctx),
        vec![
            layout_test("__bindgen_test_layout_template_1", named("a"), 4, 4),
            layout_test("__bindgen_test_layout_template_2", named("c"), 16, 8),
        ]
    );
}

#[test]
fn what_is_declared_in_a_struct_follows_it() {
    let items = || {
        let mut outer = c_struct(2, "s", Some(Layout::new(4, 4)), vec![]);
        comp_of(&mut outer).inner_types = ids(&[3]);
        comp_of(&mut outer).inner_vars = ids(&[4]);
        vec![
            module(0, "root", &[2]),
            int_item(),
            outer,
            c_struct(3, "s_inner", None, vec![]),
            var(4, "s_v", INT, Some(VarType::Int(3))),
        ]
    };
    let names = |items: &Vec<ast::Item>| {
        items
            .iter()
            .map(|i| match i {
                ast::Item::Struct { name, .. } => name.clone(),
                ast::Item::Const { name, .. } => name.clone(),
                ast::Item::LayoutTest { name, .. } => name.clone(),
                other => panic!("not expected: {:?}", other),
            })
            .collect::<Vec<_>>()
    };
    let mut ctx = context(items());
    assert_eq!(
        names(&generate(&mut ctx)),
        texts(&["s", "s_inner", "s_v", "bindgen_test_layout_s"])
    );
    let mut ctx = context(items());
    comp_of(&mut ctx.items[2]).found_unknown_attr = true;
    assert_eq!(names(&generate(&mut ctx)), texts(&["s", "s_inner"]));
}

#[test]
fn methods_call_the_foreign_function() {
    let method = |signature: usize, is_virtual: bool, is_static: bool, is_const: bool| Method {
        is_virtual,
        is_static,
        is_const,
        signature: ItemId(signature),
    };
    let mut class = c_struct(3, "s", None, vec![]);
    comp_of(&mut class).methods = vec![
        method(4, false, false, true),
        method(5, false, false, false),
        method(6, true, false, false),
        method(7, false, true, false),
    ];
    let mut ctx = context(vec![
        module(0, "root", &[3]),
        int_item(),
        void_item(),
        class,
        function(4, "s_get", "get", Some("_get1"), 8),
        function(5, "s_get", "get", Some("_get2"), 9),
        function(6, "s_virt", "virt", Some("_virt"), 8),
        function(7, "s_make", "make", Some("_make"), 10),
        ty(8, "sig1", None, TypeKind::Function(signature(INT, vec![(Some("this"), 11)]))),
        ty(
            9,
            "sig2",
            None,
            TypeKind::Function(signature(VOID, vec![(Some("this"), 11), (None, INT)])),
        ),
        ty(10, "sig3", None, TypeKind::Function(signature(VOID, vec![(Some("n"), INT)]))),
        ty(11, "ptr", None, TypeKind::Pointer(ItemId(3))),
    ]);
    let items = generate(&mut ctx);
    let declared: Vec<String> = items[1..4]
        .iter()
        .map(|i| match i {
            ast::Item::ForeignMod { foreign_items, .. } => foreign_items[0].name.clone(),
            other => panic!("no foreign module: {:?}", other),
        })
        .collect();
    assert_eq!(declared, texts(&["s_get", "s_get1", "s_make"]));
    let arg = |name: &str, ty: Ty| Arg { name: text(name), ty };
    let method = |name: &str, decl: FnDecl, callee: &str, args: Vec<CallArg>| ImplItem::Method {
        name: text(name),
        attrs: vec![Attr::Inline],
        decl,
        callee: text(callee),
        args,
    };
    assert_eq!(
        items[4],
        ast::Item::Impl {
            of_trait: None,
            generics: vec![],
            for_ty: named("s"),
            impl_items: vec![
                method(
                    "get",
                    FnDecl {
                        inputs: vec![arg("self", Ty::SelfRef { mutable: false })],
                        output: Some(raw("c_int")),
                        variadic: false,
                    },
                    "s_get",
                    vec![CallArg::Receiver { mutable: false }],
                ),
                method(
                    "get1",
                    FnDecl {
                        inputs: vec![
                            arg("self", Ty::SelfRef { mutable: true }),
                            arg("arg1", raw("c_int")),
                        ],
                        output: None,
                        variadic: false,
                    },
                    "s_get",
                    vec![CallArg::Receiver { mutable: true }, CallArg::Name(text("arg1"))],
                ),
                method(
                    "make",
                    FnDecl {
                        inputs: vec![arg("n", raw("c_int"))],
                        output: None,
                        variadic: false,
                    },
                    "s_make",
                    vec![CallArg::Name(text("n"))],
                ),
            ],
        }
    );
    assert_eq!(items.len(), 5);
    ctx.options.codegen_config.methods = false;
    assert_eq!(generate(&mut ctx).len(), 1);
}

fn variant(name: &str, val: EnumVariantValue) -> EnumVariant {
    EnumVariant { name: text(name), val }
}

fn c_enum(id: usize, name: Option<&str>, variants: Vec<EnumVariant>) -> Item {
    let mut e = ty(
        id,
        name.unwrap_or("_bindgen_ty_1"),
        Some(Layout::new(4, 4)),
        TypeKind::Enum(Enum { repr: Some(ItemId(1)), variants }),
    );
    type_of(&mut e).name = name.map(text);
    e
}

fn enum_attrs(repr: &str) -> Vec<Attr> {
    vec![
        Attr::Repr(texts(&[repr])),
        Attr::Derive(texts(&["Debug", "Copy", "Clone", "PartialEq", "Eq", "Hash"])),
    ]
}

#[test]
fn repeated_values_of_an_enum_become_constants() {
    let mut ctx = context(vec![
        module(0, "root", &[2]),
        int_item(),
        c_enum(
            2,
            Some("e"),
            vec![
                variant("a", EnumVariantValue::Signed(-1)),
                variant("b", EnumVariantValue::Signed(2)),
                variant("c", EnumVariantValue::Signed(-1)),
            ],
        ),
    ]);
    assert_eq!(
        generate(&mut ctx),
        vec![
            ast::Item::Const {
                name: text("e_c"),
                ty: named("e"),
                value: ConstValue::Path(texts(&["e", "a"])),
            },
            ast::Item::Enum {
                name: text("e"),
                attrs: enum_attrs("i32"),
                variants: vec![
                    Variant { name: text("a"), value: Literal::Int(-1) },
                    Variant { name: text("b"), value: Literal::Int(2) },
                ],
            },
        ]
    );
}

#[test]
fn the_values_of_an_enum_without_a_name_are_constants_too() {
    let mut ctx = context(vec![
        module(0, "root", &[2]),
        ty(1, "unsigned", Some(Layout::new(4, 4)), TypeKind::Int(IntKind::UInt)),
        c_enum(2, None, vec![variant("a", EnumVariantValue::Unsigned(7))]),
    ]);
    assert_eq!(
        generate(&mut ctx),
        vec![
            ast::Item::Const {
                name: text("a"),
                ty: named("_bindgen_ty_1"),
                value: ConstValue::Path(texts(&["_bindgen_ty_1", "a"])),
            },
            ast::Item::Enum {
                name: text("_bindgen_ty_1"),
                attrs: enum_attrs("u32"),
                variants: vec![Variant { name: text("a"), value: Literal::Uint(7) }],
            },
        ]
    );
}

#[test]
fn enums_that_are_sets_of_bits_are_structs() {
    let mut ctx = context(vec![
        module(0, "root", &[2]),
        int_item(),
        c_enum(
            2,
            Some("e"),
            vec![
                variant("a", EnumVariantValue::Signed(1)),
                variant("b", EnumVariantValue::Signed(2)),
            ],
        ),
    ]);
    ctx.options.bitfield_enums = texts(&["e"]);
    let value = |name: &str, v: i64| ast::Item::Const {
        name: text(name),
        ty: named("e"),
        value: ConstValue::Construct { name: text("e"), arg: Literal::Int(v) },
    };
    assert_eq!(
        generate(&mut ctx),
        vec![
            value("e_a", 1),
            value("e_b", 2),
            ast::Item::BitOrImpl {
                prefix: text("std"),
                ty: named("e"),
                constructor: text("e"),
            },
            ast::Item::TupleStruct {
                name: text("e"),
                attrs: enum_attrs("C"),
                generics: vec![],
                field: named("i32"),
                field_is_pub: true,
            },
        ]
    );
}

#[test]
fn typedefs_are_aliases_unless_they_repeat_a_name() {
    let alias = |id: usize, name: &str, spelling: &str, inner: usize| {
        ty(id, name, None, TypeKind::Alias(text(spelling), ItemId(inner)))
    };
    let mut ctx = context(vec![
        module(0, "root", &[2, 3, 4, 5]),
        int_item(),
        alias(2, "number", "number", INT),
        alias(3, "int", "int", INT),
        alias(4, "uint32_t", "uint32_t", INT),
        alias(5, "opaque", "opaque", INT),
    ]);
    ctx.items[5].is_opaque = true;
    type_of(&mut ctx.items[5]).layout = Some(Layout::new(4, 4));
    let declared = |name: &str, ty: Ty| ast::Item::TyAlias {
        name: text(name),
        attrs: vec![],
        generics: vec![],
        ty,
    };
    assert_eq!(
        generate(&mut ctx),
        vec![declared("number", raw("c_int")), declared("opaque", named("u32"))]
    );
}

#[test]
fn typedefs_with_template_parameters_are_generic() {
    let mut ctx = context(vec![
        module(0, "root", &[3]),
        ty(1, "T", None, TypeKind::Named),
        c_struct(2, "s", None, vec![]),
        ty(3, "alias", None, TypeKind::TemplateAlias(text("alias"), ItemId(2))),
    ]);
    ctx.items[2].applicable_template_args = ids(&[1]);
    ctx.items[3].applicable_template_args = ids(&[1]);
    let applied = Ty::Path { global: false, segments: texts(&["s"]), args: vec![named("T")] };
    assert_eq!(
        generate(&mut ctx),
        vec![ast::Item::TyAlias {
            name: text("alias"),
            attrs: vec![],
            generics: texts(&["T"]),
            ty: applied,
        }]
    );
    type_of(&mut ctx.items[1]).name = Some(text("typename T"));
    assert_eq!(generate(&mut ctx), vec![]);
}

#[test]
fn namespaces_are_modules_that_import_the_root() {
    let mut ctx = context(vec![
        module(0, "root", &[1, 2]),
        module(1, "a", &[3]),
        module(2, "empty", &[]),
        module(3, "b", &[4]),
        c_struct(4, "s", None, vec![]),
    ]);
    ctx.options.enable_cxx_namespaces = true;
    ctx.items[0].ancestors = vec![];
    ctx.items[3].ancestors = ids(&[3, 1]);
    let import = |path: &[&str]| ast::Item::Use {
        attrs: vec![Attr::Allow(text("unused_imports"))],
        path: texts(path),
    };
    let s = ast::Item::Struct {
        name: text("s"),
        attrs: vec![repr_c()],
        generics: vec![],
        fields: vec![],
    };
    let b = ast::Item::Mod {
        name: text("b"),
        items: vec![import(&["self", "super", "super", "super", "root"]), s],
    };
    let a = ast::Item::Mod {
        name: text("a"),
        items: vec![import(&["self", "super", "super", "root"]), b],
    };
    assert_eq!(
        generate(&mut ctx),
        vec![ast::Item::Mod {
            name: text("root"),
            items: vec![import(&["self", "super", "root"]), a],
        }]
    );
}

#[test]
fn ids_go_on_through_namespaces() {
    let mut ctx = context(vec![
        module(0, "root", &[1, 2]),
        module(1, "a", &[3]),
        c_struct(2, "t", Some(Layout::new(2, 2)), vec![]),
        c_struct(3, "s", Some(Layout::new(1, 1)), vec![]),
    ]);
    for i in 2..4 {
        comp_of(&mut ctx.items[i]).is_template_specialization = true;
    }
    ctx.options.enable_cxx_namespaces = true;
    let items = generate(&mut ctx);
    let root = match &items[0] {
        ast::Item::Mod { items, .. } => items,
        other => panic!("no module: {:?}", other),
    };
    match &root[1] {
        ast::Item::Mod { items, .. } => {
            assert_eq!(
                items[1],
                layout_test("__bindgen_test_layout_template_1", named("s"), 1, 1)
            );
        },
        other => panic!("no module: {:?}", other),
    }
    assert_eq!(root[2], layout_test("__bindgen_test_layout_template_2", named("t"), 2, 2));
}

#[test]
fn generating_more_leaves_what_was_generated() {
    let items = |children: &[usize]| {
        vec![
            module(0, "root", children),
            int_item(),
            c_struct(2, "a", Some(Layout::new(4, 4)), vec![field(Some("x"), INT)]),
            c_struct(3, "b", None, vec![bits(Some("y"), INT, 3)]),
            ty(
                4,
                "u",
                Some(Layout::new(4, 4)),
                TypeKind::Comp(comp(CompKind::Union, vec![field(Some("z"), INT)])),
            ),
        ]
    };
    let fewer = generate(&mut context(items(&[2, 3])));
    let more = generate(&mut context(items(&[2, 3, 4])));
    assert_eq!(fewer.len(), 4);
    assert_eq!(more.len(), 6 + 4 + 2);
    assert_eq!(more[6..10], fewer[..]);
}
