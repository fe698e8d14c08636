//! The parts that bindings are made of, one by one.
use bindgen_codegen::ast;
use bindgen_codegen::ast::{
    Abi, Arg, Attr, Body, FnDecl, ForeignItem, ForeignItemKind, ImplItem, Operand, StructField, Ty,
};
use bindgen_codegen::codegen::codegen;
use bindgen_codegen::foreign::ForeignModBuilder;
use bindgen_codegen::helpers::{float_kind_rust_type, BlobTyBuilder};
use bindgen_codegen::ir::{
    Annotations, BindgenContext, BindgenOptions, CodegenConfig, CompInfo, CompKind, FloatKind,
    FunctionSig, IntKind, Item, ItemId, ItemKind, Layout, Module, Type, TypeKind,
};
use bindgen_codegen::names::{contains, decimal, numbered};
use bindgen_codegen::ranking::rank_parts;
use bindgen_codegen::result::CodegenResult;
use bindgen_codegen::support::{prepend_complex_type, prepend_union_types, root_import};
use bindgen_codegen::types::{build_templated_path, rust_fndecl_from_signature, type_from_named};

fn texts(list: &[&str]) -> Vec<String> {
    list.iter().map(|s| s.to_string()).collect()
}

fn item(id: usize, name: &str, kind: ItemKind) -> Item {
    Item {
        id: ItemId(id),
        parent_id: ItemId(0),
        ancestors: vec![],
        canonical_name: name.to_string(),
        namespace_aware_canonical_path: texts(&[name]),
        is_hidden: false,
        is_opaque: false,
        is_toplevel: true,
        can_derive_copy: false,
        comment: None,
        annotations: Annotations {
            private_fields: None,
            accessor_kind: None,
            disallow_copy: false,
        },
        applicable_template_args: vec![],
        kind,
    }
}

fn ty(id: usize, name: &str, kind: TypeKind) -> Item {
    item(
        id,
        name,
        ItemKind::Type(Type {
            name: Some(name.to_string()),
            layout: None,
            kind,
            is_const: false,
            can_derive_debug: false,
            is_unsized: false,
            canonical_type: ItemId(id),
            signature_named_types: vec![],
        }),
    )
}

fn comp(id: usize, name: &str) -> Item {
    ty(
        id,
        name,
        TypeKind::Comp(CompInfo {
            kind: CompKind::Struct,
            fields: vec![],
            methods: vec![],
            base_members: vec![],
            inner_types: vec![],
            inner_vars: vec![],
            has_non_type_template_params: false,
            is_template_specialization: false,
            packed: false,
            needs_explicit_vtable: false,
            found_unknown_attr: false,
            is_unsized: false,
        }),
    )
}

fn comp_of(item: &mut Item) -> &mut CompInfo {
    match &mut item.kind {
        ItemKind::Type(ty) => match &mut ty.kind {
            TypeKind::Comp(info) => info,
            _ => panic!("no compound type"),
        },
        _ => panic!("no type"),
    }
}

fn module(id: usize, name: &str, children: &[usize]) -> Item {
    let children = children.iter().map(|i| ItemId(*i)).collect();
    item(id, name, ItemKind::Module(Module { children }))
}

fn context(items: Vec<Item>) -> BindgenContext {
    BindgenContext {
        options: BindgenOptions {
            enable_cxx_namespaces: false,
            unstable_rust: false,
            codegen_config: CodegenConfig {
                functions: true,
                types: true,
                vars: true,
                methods: true,
            },
            bitfield_enums: vec![],
            ctypes_prefix: None,
            convert_floats: true,
        },
        items,
        root_module: ItemId(0),
        whitelisted_items: vec![],
        trait_prefix: "core".to_string(),
        mangled_names: vec![("fn".to_string(), "fn_".to_string())],
        generated_bindegen_complex: false,
    }
}

fn named(name: &str) -> Ty {
    Ty::Path { global: false, segments: texts(&[name]), args: vec![] }
}

fn raw(name: &str) -> Ty {
    Ty::Path { global: true, segments: texts(&["std", "os", "raw", name]), args: vec![] }
}

fn array(elem: Ty, len: usize) -> Ty {
    Ty::Array { elem: Box::new(elem), len }
}

fn rust_ty(ctx: &BindgenContext, id: usize) -> Ty {
    assert!(ctx.has_rust_type(ItemId(id)));
    let mut complex = false;
    let ty = ItemId(id).to_rust_ty(ctx, &mut complex);
    assert!(!complex);
    ty
}

#[test]
fn some_typedefs_are_known_by_name() {
    let ctx = context(vec![module(0, "root", &[])]);
    for (name, rust) in [
        ("int8_t", "i8"),
        ("uint8_t", "u8"),
        ("int16_t", "i16"),
        ("uint16_t", "u16"),
        ("int32_t", "i32"),
        ("uint32_t", "u32"),
        ("int64_t", "i64"),
        ("uint64_t", "u64"),
        ("uintptr_t", "usize"),
        ("size_t", "usize"),
        ("intptr_t", "isize"),
        ("ptrdiff_t", "isize"),
        ("ssize_t", "isize"),
    ] {
        assert_eq!(type_from_named(&ctx, name, ItemId(0)), Some(named(rust)));
    }
    for name in ["int", "uint32", "Size_t", ""] {
        assert_eq!(type_from_named(&ctx, name, ItemId(0)), None);
    }
}

#[test]
fn integers_have_c_types() {
    let custom = IntKind::Custom { name: "mine".to_string(), is_signed: true };
    for (kind, expected) in [
        (IntKind::Bool, named("bool")),
        (IntKind::Char, raw("c_char")),
        (IntKind::UChar, raw("c_uchar")),
        (IntKind::Short, raw("c_short")),
        (IntKind::UShort, raw("c_ushort")),
        (IntKind::Int, raw("c_int")),
        (IntKind::UInt, raw("c_uint")),
        (IntKind::Long, raw("c_long")),
        (IntKind::ULong, raw("c_ulong")),
        (IntKind::LongLong, raw("c_longlong")),
        (IntKind::ULongLong, raw("c_ulonglong")),
        (IntKind::I8, named("i8")),
        (IntKind::U8, named("u8")),
        (IntKind::I16, named("i16")),
        (IntKind::U16, named("u16")),
        (IntKind::I32, named("i32")),
        (IntKind::U32, named("u32")),
        (IntKind::I64, named("i64")),
        (IntKind::U64, named("u64")),
        (IntKind::I128, array(named("u64"), 2)),
        (IntKind::U128, array(named("u64"), 2)),
        (custom, named("mine")),
    ] {
        let ctx = context(vec![module(0, "root", &[]), ty(1, "t", TypeKind::Int(kind))]);
        assert_eq!(rust_ty(&ctx, 1), expected);
    }
}

#[test]
fn floats_are_converted_if_asked_for() {
    let mut ctx = context(vec![module(0, "root", &[])]);
    assert_eq!(float_kind_rust_type(&ctx, FloatKind::Float), named("f32"));
    assert_eq!(float_kind_rust_type(&ctx, FloatKind::Double), named("f64"));
    assert_eq!(float_kind_rust_type(&ctx, FloatKind::LongDouble), named("f64"));
    assert_eq!(float_kind_rust_type(&ctx, FloatKind::Float128), array(named("u8"), 16));
    ctx.options.convert_floats = false;
    ctx.options.ctypes_prefix = Some("libc".to_string());
    let prefixed =
        Ty::Path { global: false, segments: texts(&["libc", "c_float"]), args: vec![] };
    assert_eq!(float_kind_rust_type(&ctx, FloatKind::Float), prefixed);
}

#[test]
fn pointers_and_references_point() {
    let ctx = context(vec![
        module(0, "root", &[]),
        ty(1, "void", TypeKind::Void),
        ty(2, "p", TypeKind::Pointer(ItemId(1))),
        ty(3, "r", TypeKind::Reference(ItemId(2))),
        ty(4, "null", TypeKind::NullPtr),
        ty(5, "a", TypeKind::Array(ItemId(1), 7)),
        ty(6, "t", TypeKind::ResolvedTypeRef(ItemId(5))),
        ty(7, "fn", TypeKind::Named),
        ty(8, "b", TypeKind::BlockPointer),
    ]);
    let pointer = |is_const: bool, inner: Ty| Ty::Ptr { is_const, inner: Box::new(inner) };
    assert_eq!(rust_ty(&ctx, 1), raw("c_void"));
    assert_eq!(rust_ty(&ctx, 2), pointer(false, raw("c_void")));
    assert_eq!(rust_ty(&ctx, 3), pointer(false, pointer(false, raw("c_void"))));
    assert_eq!(rust_ty(&ctx, 4), pointer(true, raw("c_void")));
    assert_eq!(rust_ty(&ctx, 6), array(raw("c_void"), 7));
    assert_eq!(rust_ty(&ctx, 7), named("fn_"));
}

#[test]
fn paths_take_their_template_arguments_along() {
    let mut ctx = context(vec![
        module(0, "root", &[]),
        ty(1, "T", TypeKind::Named),
        ty(2, "int", TypeKind::Int(IntKind::Int)),
        comp(3, "s"),
    ]);
    ctx.items[3].applicable_template_args = vec![ItemId(1), ItemId(2)];
    ctx.items[3].namespace_aware_canonical_path = texts(&["root", "ns", "s"]);
    assert!(ctx.has_rust_type(ItemId(3)));
    let mut complex = false;
    let path = |args: Vec<Ty>| Ty::Path {
        global: false,
        segments: texts(&["root", "ns", "s"]),
        args,
    };
    assert_eq!(
        build_templated_path(&ctx.items[3], &ctx, false, &mut complex),
        path(vec![named("T"), raw("c_int")])
    );
    assert_eq!(
        build_templated_path(&ctx.items[3], &ctx, true, &mut complex),
        path(vec![named("T")])
    );
    assert!(!complex);
}

#[test]
fn signatures_become_declarations() {
    let sig = FunctionSig {
        return_type: ItemId(1),
        argument_types: vec![(Some("fn".to_string()), ItemId(2)), (None, ItemId(3))],
        is_variadic: false,
        abi: Abi::C,
    };
    let ctx = context(vec![
        module(0, "root", &[]),
        ty(1, "void", TypeKind::Void),
        ty(2, "int", TypeKind::Int(IntKind::Int)),
        ty(3, "c", TypeKind::Complex(FloatKind::Float)),
        ty(4, "sig", TypeKind::Function(sig)),
    ]);
    assert!(ctx.has_rust_type(ItemId(4)));
    let mut complex = false;
    let decl = rust_fndecl_from_signature(&ctx, &ctx.items[4], &mut complex);
    let complex_ty = Ty::Path {
        global: false,
        segments: texts(&["__BindgenComplex"]),
        args: vec![named("f32")],
    };
    assert_eq!(
        decl,
        FnDecl {
            inputs: vec![
                Arg { name: "fn_".to_string(), ty: raw("c_int") },
                Arg { name: "arg1".to_string(), ty: complex_ty },
            ],
            output: None,
            variadic: false,
        }
    );
    assert!(complex);
}

fn rest() -> ast::Item {
    ast::Item::Mod { name: "rest".to_string(), items: vec![] }
}

#[test]
fn the_type_of_complex_numbers_is_put_first() {
    let ctx = context(vec![module(0, "root", &[])]);
    let mut items = vec![rest()];
    prepend_complex_type(&ctx, &mut items);
    let part = |name: &str| StructField {
        name: name.to_string(),
        is_pub: true,
        attrs: vec![],
        ty: named("T"),
    };
    let declared = ast::Item::Struct {
        name: "__BindgenComplex".to_string(),
        attrs: vec![
            Attr::Derive(texts(&["PartialEq", "Copy", "Clone", "Hash", "Debug", "Default"])),
            Attr::Repr(texts(&["C"])),
        ],
        generics: texts(&["T"]),
        fields: vec![part("re"), part("im")],
    };
    assert_eq!(items, vec![declared, rest()]);
}

#[test]
fn the_type_of_union_fields_is_put_first() {
    let ctx = context(vec![module(0, "root", &[])]);
    let mut items = vec![rest()];
    prepend_union_types(&ctx, &mut items);
    let global = |segments: &[&str], args: Vec<Ty>| Ty::Path {
        global: true,
        segments: texts(segments),
        args,
    };
    let implementation = |of_trait: Option<Ty>, impl_items: Vec<ImplItem>| ast::Item::Impl {
        of_trait,
        generics: texts(&["T"]),
        for_ty: Ty::Path {
            global: false,
            segments: texts(&["__BindgenUnionField"]),
            args: vec![named("T")],
        },
        impl_items,
    };
    let receiver =
        |mutable: bool| Arg { name: "self".to_string(), ty: Ty::SelfRef { mutable } };
    let inlined = |name: &str,
                   is_pub: bool,
                   is_unsafe: bool,
                   inputs: Vec<Arg>,
                   output: Ty,
                   body: Body| {
        ImplItem::Fn {
            name: name.to_string(),
            attrs: vec![Attr::Inline],
            is_pub,
            is_unsafe,
            decl: FnDecl { inputs, output: Some(output), variadic: false },
            body,
        }
    };
    let call = |global: bool, segments: &[&str], args: Vec<Operand>| Body::Call {
        global,
        segments: texts(segments),
        args,
    };
    let operand =
        |global: bool, segments: &[&str]| Operand::Path { global, segments: texts(segments) };
    let transmuting = |name: &str, mutable: bool| {
        inlined(
            name,
            true,
            true,
            vec![receiver(mutable)],
            Ty::Ref { mutable, inner: Box::new(named("T")) },
            call(true, &["core", "mem", "transmute"], vec![operand(false, &["self"])]),
        )
    };
    let by_new = |name: &str, inputs: Vec<Arg>| {
        inlined(name, false, false, inputs, named("Self"), call(false, &["Self", "new"], vec![]))
    };
    assert_eq!(
        items,
        vec![
            ast::Item::TupleStruct {
                name: "__BindgenUnionField".to_string(),
                attrs: vec![Attr::Repr(texts(&["C"]))],
                generics: texts(&["T"]),
                field: global(&["core", "marker", "PhantomData"], vec![named("T")]),
                field_is_pub: false,
            },
            implementation(
                None,
                vec![
                    inlined(
                        "new",
                        true,
                        false,
                        vec![],
                        named("Self"),
                        call(
                            false,
                            &["__BindgenUnionField"],
                            vec![operand(true, &["core", "marker", "PhantomData"])],
                        ),
                    ),
                    transmuting("as_ref", false),
                    transmuting("as_mut", true),
                ],
            ),
            implementation(
                Some(global(&["core", "default", "Default"], vec![])),
                vec![by_new("default", vec![])],
            ),
            implementation(
                Some(global(&["core", "clone", "Clone"], vec![])),
                vec![by_new("clone", vec![receiver(false)])],
            ),
            implementation(Some(global(&["core", "marker", "Copy"], vec![])), vec![]),
            implementation(
                Some(global(&["std", "fmt", "Debug"], vec![])),
                vec![ImplItem::Fn {
                    name: "fmt".to_string(),
                    attrs: vec![],
                    is_pub: false,
                    is_unsafe: false,
                    decl: FnDecl {
                        inputs: vec![
                            receiver(false),
                            Arg {
                                name: "fmt".to_string(),
                                ty: Ty::Ref {
                                    mutable: true,
                                    inner: Box::new(global(&["std", "fmt", "Formatter"], vec![])),
                                },
                            },
                        ],
                        output: Some(global(&["std", "fmt", "Result"], vec![])),
                        variadic: false,
                    },
                    body: Body::MethodCall {
                        receiver: "fmt".to_string(),
                        method: "write_str".to_string(),
                        args: vec![Operand::Text("__BindgenUnionField".to_string())],
                    },
                }],
            ),
            rest(),
        ]
    );
}

#[test]
fn the_root_is_imported_under_its_identifier() {
    let mut ctx = context(vec![module(0, "fn", &[1]), module(1, "a", &[])]);
    ctx.options.enable_cxx_namespaces = true;
    ctx.items[1].ancestors = vec![ItemId(1)];
    assert!(ctx.is_well_formed());
    match root_import(&ctx, &ctx.items[1]) {
        ast::Item::Use { path, .. } => assert_eq!(path, texts(&["self", "super", "super", "fn_"])),
        other => panic!("no import: {:?}", other),
    }
}

#[test]
fn blobs_have_the_layout_they_stand_for() {
    for (size, align, expected) in [
        (8, 8, named("u64")),
        (4, 4, named("u32")),
        (2, 2, named("u16")),
        (1, 1, named("u8")),
        (40, 8, array(named("u64"), 5)),
        (6, 2, array(named("u16"), 3)),
        (0, 4, array(named("u32"), 0)),
        (5, 1, array(named("u8"), 5)),
    ] {
        assert_eq!(BlobTyBuilder::new(Layout::new(size, align)).build(), expected);
    }
}

#[test]
fn foreign_modules_collect_items() {
    let declared = |name: &str| ForeignItem {
        name: name.to_string(),
        attrs: vec![],
        kind: ForeignItemKind::Static { ty: named("u8"), mutable: true },
    };
    let built = ForeignModBuilder::new(Abi::System)
        .with_foreign_item(declared("a"))
        .with_foreign_items(vec![declared("b"), declared("c")])
        .build();
    assert_eq!(
        built,
        ast::Item::ForeignMod {
            abi: Abi::System,
            foreign_items: vec![declared("a"), declared("b"), declared("c")],
        }
    );
}

#[test]
fn results_remember_what_they_saw() {
    let mut result = CodegenResult::new(7, false);
    assert_eq!(result.next_id(), 8);
    assert_eq!(result.next_id(), 9);
    assert!(!result.seen(ItemId(3)));
    result.set_seen(ItemId(3));
    assert!(result.seen(ItemId(3)));
    assert!(!result.seen_function("f"));
    result.saw_function("f");
    assert!(result.seen_function("f"));
    assert!(!result.seen_var("f"));
    result.saw_var("f");
    assert!(result.seen_var("f"));
    assert_eq!(result.overload_number("f"), 0);
    assert_eq!(result.overload_number("g"), 0);
    assert_eq!(result.overload_number("f"), 1);
    assert_eq!(result.overload_number("f"), 2);
    let mut inner = result.inner();
    assert!(!inner.seen(ItemId(3)));
    assert_eq!(inner.next_id(), 10);
    inner.saw_union();
    inner.push(rest());
    assert_eq!(result.finish_inner(inner), vec![rest()]);
    assert!(result.saw_union);
    assert_eq!(result.next_id(), 11);
    assert!(result.items.is_empty());
}

#[test]
fn numbers_are_written_in_decimal() {
    for (n, expected) in [(0, "0"), (9, "9"), (10, "10"), (255, "255"), (1000, "1000")] {
        assert_eq!(decimal(n), expected);
    }
    assert_eq!(decimal(usize::MAX), format!("{}", usize::MAX));
    assert_eq!(numbered("_base_", 12), "_base_12");
}

#[test]
fn parts_of_texts_are_found() {
    assert!(contains("typename T", "typename "));
    assert!(contains("a typename ", "typename "));
    assert!(contains("abc", ""));
    assert!(!contains("typename", "typename "));
    assert!(!contains("", "a"));
}

#[test]
fn what_can_be_ranked_is_ranked() {
    let nodes = vec![
        Some(vec![2, 1]),
        Some(vec![2]),
        Some(vec![]),
        Some(vec![0, 2]),
        // A circle, what is made of it, and what is made of nothing there is.
        Some(vec![5]),
        Some(vec![4, 2]),
        Some(vec![2, 5]),
        Some(vec![9]),
        None,
    ];
    let ranks = rank_parts(&nodes);
    let ranked: Vec<bool> = ranks.iter().map(|rank| *rank > 0).collect();
    assert_eq!(ranked, vec![true, true, true, true, false, false, false, false, false]);
    for i in 0..4 {
        for part in nodes[i].as_ref().unwrap() {
            assert!(0 < ranks[*part] && ranks[*part] < ranks[i]);
        }
    }
    assert_eq!(rank_parts(&vec![Some(vec![0])]), vec![0]);
    assert_eq!(rank_parts(&vec![]), vec![]);
}

#[test]
fn types_of_what_is_missing_have_no_rust_type() {
    let mut unnamed = comp(9, "s");
    unnamed.namespace_aware_canonical_path = vec![];
    let mut blob = comp(10, "o");
    blob.namespace_aware_canonical_path = vec![];
    blob.is_opaque = true;
    let ctx = context(vec![
        module(0, "root", &[]),
        ty(1, "int", TypeKind::Int(IntKind::Int)),
        ty(2, "of_module", TypeKind::Pointer(ItemId(0))),
        ty(3, "of_itself", TypeKind::Pointer(ItemId(3))),
        ty(4, "unresolved", TypeKind::UnresolvedTypeRef),
        ty(5, "of_unresolved", TypeKind::Array(ItemId(4), 2)),
        ty(6, "of_int", TypeKind::ResolvedTypeRef(ItemId(1))),
        // What a path is applied to is converted, what an array is is not.
        ty(7, "applied", TypeKind::TemplateRef(ItemId(6), vec![ItemId(4)])),
        ty(8, "not_applied", TypeKind::TemplateRef(ItemId(10), vec![ItemId(4)])),
        unnamed,
        blob,
        ty(11, "alias", TypeKind::Alias("alias".to_string(), ItemId(4))),
    ]);
    let converted: Vec<usize> = (0..13).filter(|i| ctx.has_rust_type(ItemId(*i))).collect();
    assert_eq!(converted, vec![1, 6, 8, 10, 11]);
    assert_eq!(rust_ty(&ctx, 8), Ty::Unit);
    assert_eq!(rust_ty(&ctx, 11), named("alias"));
}

#[test]
fn contexts_that_refer_to_nothing_are_not_well_formed() {
    let good = || {
        vec![
            module(0, "root", &[1, 2, 3]),
            comp(1, "s"),
            ty(2, "p", TypeKind::Pointer(ItemId(1))),
            ty(3, "a", TypeKind::Alias("a".to_string(), ItemId(2))),
        ]
    };
    let asked = |items: Vec<Item>| {
        let mut ctx = context(items);
        ctx.whitelisted_items = (0..5).map(ItemId).collect();
        ctx
    };
    assert!(asked(good()).is_well_formed());

    let mut ctx = asked(good());
    ctx.root_module = ItemId(4);
    assert!(!ctx.is_well_formed());

    let mut ctx = asked(good());
    ctx.items[1].id = ItemId(2);
    assert!(!ctx.is_well_formed());

    for kind in [
        TypeKind::Pointer(ItemId(0)),
        TypeKind::Pointer(ItemId(2)),
        TypeKind::UnresolvedTypeRef,
    ] {
        let mut items = good();
        items[2] = ty(2, "p", kind);
        assert!(!asked(items).is_well_formed());
    }

    let mut items = good();
    items[0] = module(0, "root", &[1, 4]);
    assert!(!asked(items).is_well_formed());

    let mut items = good();
    comp_of(&mut items[1]).inner_types = vec![ItemId(1)];
    assert!(!asked(items).is_well_formed());

    let mut items = good();
    comp_of(&mut items[1]).kind = CompKind::Union;
    assert!(!asked(items).is_well_formed());
}

#[test]
fn template_parameters_are_read_up_to_a_typename() {
    let with_args = |args: Vec<ItemId>| {
        let mut ctx = context(Vec::new());
        ctx.whitelisted_items = vec![ItemId(4)];
        ctx.items = vec![
            module(0, "root", &[4]),
            ty(1, "typename T", TypeKind::Named),
            ty(2, "U", TypeKind::Named),
            ty(3, "int", TypeKind::Int(IntKind::Int)),
            ty(4, "a", TypeKind::Alias("a".to_string(), ItemId(3))),
        ];
        if let ItemKind::Type(ty) = &mut ctx.items[2].kind {
            ty.name = None;
        }
        ctx.items[4].applicable_template_args = args;
        ctx
    };
    let mut ctx = with_args(vec![ItemId(3), ItemId(1), ItemId(2), ItemId(9)]);
    assert!(ctx.is_well_formed());
    assert!(ctx.has_countable_items());
    assert_eq!(codegen(&mut ctx), vec![]);
    assert!(!with_args(vec![ItemId(2), ItemId(1)]).is_well_formed());
    assert!(!with_args(vec![ItemId(9), ItemId(1)]).is_well_formed());
}

#[test]
fn items_are_counted_once_for_each_module_they_are_in() {
    let mut ctx = context(vec![
        module(0, "root", &[1, 2]),
        module(1, "a", &[3]),
        module(2, "b", &[3]),
        comp(3, "s"),
    ]);
    ctx.whitelisted_items = (0..4).map(ItemId).collect();
    assert!(ctx.is_well_formed());
    assert!(ctx.has_countable_items());
    ctx.options.enable_cxx_namespaces = true;
    assert!(ctx.has_countable_items());
    // Each module holds the next one twice.
    let mut items: Vec<Item> = (0..70).map(|i| module(i, "m", &[i + 1, i + 1])).collect();
    items.push(comp(70, "s"));
    let mut ctx = context(items);
    ctx.whitelisted_items = (0..71).map(ItemId).collect();
    assert!(ctx.is_well_formed());
    assert!(ctx.has_countable_items());
    ctx.options.enable_cxx_namespaces = true;
    assert!(!ctx.has_countable_items());
    // Where nothing is asked for there is the root alone.
    ctx.whitelisted_items = vec![];
    assert!(ctx.has_countable_items());
}
