//! The layout of C unions of bitfields, as generated for Rust unions.
use bindgen_codegen::ast;
use bindgen_codegen::ast::{ImplItem, StructField, Ty};
use bindgen_codegen::codegen::codegen;
use bindgen_codegen::ir::{
    Annotations, BindgenContext, BindgenOptions, CodegenConfig, CompInfo, CompKind, Field, IntKind,
    Item, ItemId, ItemKind, Layout, Module, Type, TypeKind,
};

fn annotations() -> Annotations {
    Annotations { private_fields: None, accessor_kind: None, disallow_copy: false }
}

fn item(id: usize, name: &str, kind: ItemKind) -> Item {
    Item {
        id: ItemId(id),
        parent_id: ItemId(0),
        ancestors: vec![ItemId(id)],
        canonical_name: name.to_string(),
        namespace_aware_canonical_path: vec![name.to_string()],
        is_hidden: false,
        is_opaque: false,
        is_toplevel: true,
        can_derive_copy: true,
        comment: None,
        annotations: annotations(),
        applicable_template_args: vec![],
        kind,
    }
}

fn ty(id: usize, name: &str, layout: Layout, kind: TypeKind) -> Item {
    item(
        id,
        name,
        ItemKind::Type(Type {
            name: Some(name.to_string()),
            layout: Some(layout),
            kind,
            is_const: false,
            can_derive_debug: false,
            is_unsized: false,
            canonical_type: ItemId(id),
            signature_named_types: vec![],
        }),
    )
}

fn bitfield(name: &str, ty: usize, width: u32) -> Field {
    Field {
        name: Some(name.to_string()),
        ty: ItemId(ty),
        comment: None,
        annotations: annotations(),
        bitfield: Some(width),
    }
}

fn c_union(id: usize, name: &str, layout: Layout, fields: Vec<Field>) -> Item {
    ty(
        id,
        name,
        layout,
        TypeKind::Comp(CompInfo {
            kind: CompKind::Union,
            fields,
            methods: vec![],
            base_members: vec![],
            inner_types: vec![],
            inner_vars: vec![],
            has_non_type_template_params: false,
            is_template_specialization: false,
            packed: false,
            needs_explicit_vtable: false,
            found_unknown_attr: false,
            is_unsized: false,
        }),
    )
}

/// `union U4 { unsigned derp : 1; };` and
/// `union B { unsigned foo : 31; unsigned char bar : 1; };`
fn bindings() -> Vec<ast::Item> {
    let mut context = BindgenContext {
        options: BindgenOptions {
            enable_cxx_namespaces: false,
            unstable_rust: true,
            codegen_config: CodegenConfig {
                functions: true,
                types: true,
                vars: true,
                methods: true,
            },
            bitfield_enums: vec![],
            ctypes_prefix: None,
            convert_floats: true,
        },
        items: vec![
            item(
                0,
                "root",
                ItemKind::Module(Module { children: vec![ItemId(1), ItemId(2)] }),
            ),
            c_union(1, "U4", Layout::new(4, 4), vec![bitfield("derp", 3, 1)]),
            c_union(
                2,
                "B",
                Layout::new(4, 4),
                vec![bitfield("foo", 3, 31), bitfield("bar", 4, 1)],
            ),
            ty(3, "unsigned int", Layout::new(4, 4), TypeKind::Int(IntKind::UInt)),
            ty(4, "unsigned char", Layout::new(1, 1), TypeKind::Int(IntKind::UChar)),
        ],
        root_module: ItemId(0),
        whitelisted_items: vec![ItemId(1), ItemId(2)],
        trait_prefix: "std".to_string(),
        mangled_names: vec![],
        generated_bindegen_complex: false,
    };
    assert!(context.is_well_formed());
    assert!(context.has_countable_items());
    codegen(&mut context)
}

/// The size and the alignment of an integer or of an array of integers.
fn extent(ty: &Ty) -> (usize, usize) {
    match ty {
        Ty::Path { segments, .. } => match segments[0].as_str() {
            "u8" => (1, 1),
            "u16" => (2, 2),
            "u32" => (4, 4),
            "u64" => (8, 8),
            name => panic!("no integer: {}", name),
        },
        Ty::Array { elem, len } => {
            let (size, align) = extent(elem);
            (size * len, align)
        },
        other => panic!("no integer: {:?}", other),
    }
}

fn fields_of<'a>(items: &'a Vec<ast::Item>, wanted: &str) -> &'a Vec<StructField> {
    for item in items {
        if let ast::Item::Union { name, fields, .. } = item {
            if name == wanted {
                return fields;
            }
        }
    }
    panic!("no union {}", wanted)
}

/// The size and the alignment of a union, as the C rules have it.
fn union_extent(fields: &Vec<StructField>) -> (usize, usize) {
    let size = fields.iter().map(|f| extent(&f.ty).0).max().unwrap();
    let align = fields.iter().map(|f| extent(&f.ty).1).max().unwrap();
    ((size + align - 1) / align * align, align)
}

fn tested_layout(items: &Vec<ast::Item>, wanted: &str) -> (usize, usize) {
    for item in items {
        if let ast::Item::LayoutTest { name, size, align, .. } = item {
            if name == wanted {
                return (*size, *align);
            }
        }
    }
    panic!("no test {}", wanted)
}

fn methods_of<'a>(items: &'a Vec<ast::Item>, wanted: &str) -> &'a Vec<ImplItem> {
    for item in items {
        if let ast::Item::Impl { of_trait: None, for_ty: Ty::Path { segments, .. }, impl_items, .. } =
            item
        {
            if segments.len() == 1 && segments[0] == wanted {
                return impl_items;
            }
        }
    }
    panic!("no impl of {}", wanted)
}

#[test]
#[allow(non_snake_case)]
fn bindgen_test_layout_U4() {
    let items = bindings();
    let (size, align) = union_extent(fields_of(&items, "U4"));
    assert_eq!(size, 4usize, "{}{}", "Size of: ", "U4");
    assert_eq!(align, 4usize, "{}{}", "Alignment of ", "U4");
    assert_eq!(tested_layout(&items, "bindgen_test_layout_U4"), (4usize, 4usize));
}

#[test]
#[allow(non_snake_case)]
fn bindgen_test_layout_B() {
    let items = bindings();
    let (size, align) = union_extent(fields_of(&items, "B"));
    assert_eq!(size, 4usize, "{}{}", "Size of: ", "B");
    assert_eq!(align, 4usize, "{}{}", "Alignment of ", "B");
    assert_eq!(tested_layout(&items, "bindgen_test_layout_B"), (4usize, 4usize));
}

#[test]
fn unions_keep_their_bitfields_in_one_unit() {
    let items = bindings();
    let fields = fields_of(&items, "U4");
    assert_eq!(fields.len(), 2);
    assert_eq!(fields[0].name, "_bitfield_1");
    assert_eq!(extent(&fields[0].ty), (1, 1));
    assert!(fields[0].is_pub);
    assert_eq!(fields[1].name, "_bindgen_union_align");
    assert_eq!(extent(&fields[1].ty), (4, 4));
    assert!(!fields[1].is_pub);
    let fields = fields_of(&items, "B");
    assert_eq!(fields.len(), 2);
    assert_eq!(extent(&fields[0].ty), (4, 4));
    assert_eq!(extent(&fields[1].ty), (4, 4));
}

#[test]
fn bitfields_have_masks_and_offsets() {
    let items = bindings();
    let mut seen = vec![];
    for name in ["U4", "B"] {
        for method in methods_of(&items, name) {
            match method {
                ImplItem::BitfieldGetter { name, mask, offset, .. } => {
                    seen.push((name.clone(), *mask, *offset));
                },
                ImplItem::BitfieldSetter { name, mask, offset, .. } => {
                    seen.push((name.clone(), *mask, *offset));
                },
                other => panic!("no bitfield accessor: {:?}", other),
            }
        }
    }
    assert_eq!(
        seen,
        vec![
            ("derp".to_string(), 0x1, 0),
            ("set_derp".to_string(), 0x1, 0),
            ("foo".to_string(), 0x7fffffff, 0),
            ("set_foo".to_string(), 0x7fffffff, 0),
            ("bar".to_string(), 0x80000000, 31),
            ("set_bar".to_string(), 0x80000000, 31),
        ]
    );
}
