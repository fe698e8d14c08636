//! The declarations that bindings are generated for.
//!
//! A [`BindgenContext`] holds every item, by its id. Items refer to one
//! another by id: a module to its children, a compound type to its fields'
//! types, and so on.
use vstd::prelude::*;

use crate::ast::Abi;
use crate::names::same;

verus! {

/// The identity of an item: its position in the context.
#[derive(Clone, Copy, Debug, PartialEq, Eq, Structural)]
pub struct ItemId(pub usize);

/// The size and the alignment of a type, in bytes.
#[derive(Clone, Copy, Debug, PartialEq, Eq, Structural)]
pub struct Layout {
    pub size: usize,
    pub align: usize,
}

impl Layout {
    /// A layout of the given size and alignment.
    pub fn new(size: usize, align: usize) -> (l: Layout)
        ensures
            l == (Layout { size, align }),
    {
        Layout { size, align }
    }

    /// The layout of something that takes no space.
    pub fn zero() -> (l: Layout)
        ensures
            l == (Layout { size: 0, align: 0 }),
    {
        Layout { size: 0, align: 0 }
    }
}

/// The C integer types.
#[derive(Debug, PartialEq, Eq)]
pub enum IntKind {
    Bool,
    Char,
    UChar,
    Short,
    UShort,
    Int,
    UInt,
    Long,
    ULong,
    LongLong,
    ULongLong,
    I8,
    U8,
    I16,
    U16,
    I32,
    U32,
    I64,
    U64,
    I128,
    U128,
    /// A type of another name.
    Custom { name: String, is_signed: bool },
}

/// Whether an integer type is signed.
pub open spec fn int_is_signed(kind: IntKind) -> bool {
    match kind {
        IntKind::Char | IntKind::Short | IntKind::Int | IntKind::Long | IntKind::LongLong => true,
        IntKind::I8 | IntKind::I16 | IntKind::I32 | IntKind::I64 | IntKind::I128 => true,
        IntKind::Custom { name, is_signed } => is_signed,
        _ => false,
    }
}

impl IntKind {
    /// Whether this integer type is signed.
    pub fn is_signed(&self) -> (b: bool)
        ensures
            b == int_is_signed(*self),
    {
        match self {
            IntKind::Char
            | IntKind::Short
            | IntKind::Int
            | IntKind::Long
            | IntKind::LongLong => true,
            IntKind::I8 | IntKind::I16 | IntKind::I32 | IntKind::I64 | IntKind::I128 => true,
            IntKind::Custom { name: _, is_signed } => *is_signed,
            _ => false,
        }
    }
}

/// The C floating point types.
#[derive(Clone, Copy, Debug, PartialEq, Eq, Structural)]
pub enum FloatKind {
    Float,
    Double,
    LongDouble,
    Float128,
}

/// Which accessors a field gets.
#[derive(Clone, Copy, Debug, PartialEq, Eq, Structural)]
pub enum FieldAccessorKind {
    /// No accessors.
    Neither,
    /// A getter and a mutable getter.
    Regular,
    /// The same, both unsafe.
    Unsafe,
    /// A getter only.
    Immutable,
}

/// What the comments on an item or on a field ask for.
#[derive(Clone, Copy, Debug, PartialEq, Eq, Structural)]
pub struct Annotations {
    /// Whether fields are private, where the annotations say so.
    pub private_fields: Option<bool>,
    /// Which accessors fields get, where the annotations say so.
    pub accessor_kind: Option<FieldAccessorKind>,
    /// Whether `Copy` must not be derived.
    pub disallow_copy: bool,
}

/// A field of a compound type.
#[derive(Debug, PartialEq, Eq)]
pub struct Field {
    pub name: Option<String>,
    pub ty: ItemId,
    pub comment: Option<String>,
    pub annotations: Annotations,
    /// The width in bits, if the field is a bitfield.
    pub bitfield: Option<u32>,
}

/// A method of a compound type.
#[derive(Debug, PartialEq, Eq)]
pub struct Method {
    pub is_virtual: bool,
    pub is_static: bool,
    pub is_const: bool,
    /// The function item that is the method.
    pub signature: ItemId,
}

/// Whether a compound type is a struct or a union.
#[derive(Clone, Copy, Debug, PartialEq, Eq, Structural)]
pub enum CompKind {
    Struct,
    Union,
}

/// A struct, a class or a union.
#[derive(Debug, PartialEq, Eq)]
pub struct CompInfo {
    pub kind: CompKind,
    pub fields: Vec<Field>,
    pub methods: Vec<Method>,
    pub base_members: Vec<ItemId>,
    pub inner_types: Vec<ItemId>,
    pub inner_vars: Vec<ItemId>,
    pub has_non_type_template_params: bool,
    pub is_template_specialization: bool,
    pub packed: bool,
    /// Whether it needs a field of its own that points to a vtable.
    pub needs_explicit_vtable: bool,
    pub found_unknown_attr: bool,
    /// Whether nothing in it takes space.
    pub is_unsized: bool,
}

/// The value of an enum variant.
#[derive(Clone, Copy, Debug, PartialEq, Eq, Structural)]
pub enum EnumVariantValue {
    Signed(i64),
    Unsigned(u64),
}

/// A variant of a C enum.
#[derive(Debug, PartialEq, Eq)]
pub struct EnumVariant {
    pub name: String,
    pub val: EnumVariantValue,
}

/// A C enum.
#[derive(Debug, PartialEq, Eq)]
pub struct Enum {
    /// The integer type that represents it, if known.
    pub repr: Option<ItemId>,
    pub variants: Vec<EnumVariant>,
}

/// The type of a function.
#[derive(Debug, PartialEq, Eq)]
pub struct FunctionSig {
    pub return_type: ItemId,
    /// The arguments: their names, where they have one, and their types.
    pub argument_types: Vec<(Option<String>, ItemId)>,
    pub is_variadic: bool,
    pub abi: Abi,
}

/// A function.
#[derive(Debug, PartialEq, Eq)]
pub struct Function {
    pub name: String,
    pub mangled_name: Option<String>,
    /// The function type that is its signature.
    pub signature: ItemId,
}

/// The value of a variable that is known at compile time.
#[derive(Debug, PartialEq, Eq)]
pub enum VarType {
    Bool(bool),
    Int(i64),
    /// A floating point number, by its bit pattern.
    Float(u64),
    Char(u8),
    /// A string, without its trailing zero byte.
    String(Vec<u8>),
}

/// A variable.
#[derive(Debug, PartialEq, Eq)]
pub struct Var {
    pub name: String,
    pub mangled_name: Option<String>,
    pub ty: ItemId,
    pub is_const: bool,
    pub val: Option<VarType>,
}

/// A namespace, or the root.
#[derive(Debug, PartialEq, Eq)]
pub struct Module {
    pub children: Vec<ItemId>,
}

/// What a type is.
#[derive(Debug, PartialEq, Eq)]
pub enum TypeKind {
    Void,
    NullPtr,
    Int(IntKind),
    Float(FloatKind),
    Complex(FloatKind),
    Array(ItemId, usize),
    Pointer(ItemId),
    BlockPointer,
    Reference(ItemId),
    /// A template applied to arguments.
    TemplateRef(ItemId, Vec<ItemId>),
    Function(FunctionSig),
    ResolvedTypeRef(ItemId),
    /// A template parameter.
    Named,
    Comp(CompInfo),
    /// A typedef with template parameters: its spelling and what it names.
    TemplateAlias(String, ItemId),
    /// A typedef: its spelling and what it names.
    Alias(String, ItemId),
    Enum(Enum),
    /// A reference that was never resolved.
    UnresolvedTypeRef,
}

/// A type.
#[derive(Debug, PartialEq, Eq)]
pub struct Type {
    pub name: Option<String>,
    pub layout: Option<Layout>,
    pub kind: TypeKind,
    pub is_const: bool,
    pub can_derive_debug: bool,
    /// Whether it takes no space.
    pub is_unsized: bool,
    /// The type behind the typedefs and references that this one is.
    pub canonical_type: ItemId,
    /// The template parameters that occur in its signature.
    pub signature_named_types: Vec<ItemId>,
}

/// What an item is.
#[derive(Debug, PartialEq, Eq)]
pub enum ItemKind {
    Module(Module),
    Function(Function),
    Var(Var),
    Type(Type),
}

/// A declaration.
#[derive(Debug, PartialEq, Eq)]
pub struct Item {
    pub id: ItemId,
    pub parent_id: ItemId,
    /// The item itself and what it is nested in, without the root.
    pub ancestors: Vec<ItemId>,
    pub canonical_name: String,
    /// The path by which generated code names the item: within its module
    /// tree where namespaces are enabled, else its canonical name.
    pub namespace_aware_canonical_path: Vec<String>,
    pub is_hidden: bool,
    pub is_opaque: bool,
    pub is_toplevel: bool,
    pub can_derive_copy: bool,
    pub comment: Option<String>,
    pub annotations: Annotations,
    pub applicable_template_args: Vec<ItemId>,
    pub kind: ItemKind,
}

/// Which kinds of items get code.
#[derive(Clone, Copy, Debug, PartialEq, Eq, Structural)]
pub struct CodegenConfig {
    pub functions: bool,
    pub types: bool,
    pub vars: bool,
    pub methods: bool,
}

/// What the caller asked for.
#[derive(Debug, PartialEq, Eq)]
pub struct BindgenOptions {
    pub enable_cxx_namespaces: bool,
    /// Whether generated code may use `union`.
    pub unstable_rust: bool,
    pub codegen_config: CodegenConfig,
    /// The enums and variants that ask for a bitfield-like enum, by name.
    pub bitfield_enums: Vec<String>,
    /// Where the C types are found, if not in `std::os::raw`.
    pub ctypes_prefix: Option<String>,
    /// Whether `f32` and `f64` stand for the C floating point types.
    pub convert_floats: bool,
}

/// Everything that code generation reads.
#[derive(Debug, PartialEq, Eq)]
pub struct BindgenContext {
    pub options: BindgenOptions,
    /// Every item, at the position that its id gives.
    pub items: Vec<Item>,
    pub root_module: ItemId,
    pub whitelisted_items: Vec<ItemId>,
    /// The crate that generated code takes its traits from: `std` or `core`.
    pub trait_prefix: String,
    /// The names that cannot be Rust identifiers, each with its replacement.
    pub mangled_names: Vec<(String, String)>,
    /// Whether a complex number type has been generated.
    pub generated_bindegen_complex: bool,
}

/// The replacement of `name` in a table, from position `i` on, or `name`.
pub open spec fn replacement(table: Seq<(String, String)>, name: Seq<char>, i: int) -> Seq<char>
    decreases table.len() - i,
{
    if i < 0 || i >= table.len() {
        name
    } else if table[i].0@ == name {
        table[i].1@
    } else {
        replacement(table, name, i + 1)
    }
}

/// Whether a list holds a string of the given text.
pub open spec fn has_text(list: Seq<String>, text: Seq<char>) -> bool {
    exists|i: int| 0 <= i < list.len() && (#[trigger] list[i])@ == text
}

impl BindgenOptions {
    /// Whether `bitfield_enums` names `name`.
    pub fn matches_bitfield_enum(&self, name: &str) -> (b: bool)
        ensures
            b == has_text(self.bitfield_enums@, name@),
    {
        let mut i: usize = 0;
        while i < self.bitfield_enums.len()
            invariant
                0 <= i <= self.bitfield_enums@.len(),
                forall|k: int| 0 <= k < i ==> (#[trigger] self.bitfield_enums@[k])@ != name@,
            decreases self.bitfield_enums@.len() - i,
        {
            if same(self.bitfield_enums[i].as_str(), name) {
                return true;
            }
            i += 1;
        }
        false
    }
}

impl BindgenContext {
    /// The identifier that stands for `name` in generated code.
    pub open spec fn mangle(&self, name: Seq<char>) -> Seq<char> {
        replacement(self.mangled_names@, name, 0)
    }

    /// The identifier that stands for `name` in generated code.
    pub fn rust_mangle(&self, name: &str) -> (r: String)
        ensures
            r@ == self.mangle(name@),
    {
        let mut i: usize = 0;
        while i < self.mangled_names.len()
            invariant
                0 <= i <= self.mangled_names@.len(),
                self.mangle(name@) == replacement(self.mangled_names@, name@, i as int),
            decreases self.mangled_names@.len() - i,
        {
            if same(self.mangled_names[i].0.as_str(), name) {
                return self.mangled_names[i].1.clone();
            }
            i += 1;
        }
        name.to_owned()
    }

    /// Whether `id` is the id of an item.
    pub open spec fn has(&self, id: ItemId) -> bool {
        id.0 < self.items@.len()
    }

    /// The item of an id.
    pub open spec fn item(&self, id: ItemId) -> Item {
        self.items@[id.0 as int]
    }

    /// Whether `id` is the id of a type.
    pub open spec fn is_type(&self, id: ItemId) -> bool {
        self.has(id) && self.item(id).kind is Type
    }

    /// The type of an id.
    pub open spec fn ty(&self, id: ItemId) -> Type {
        self.item(id).kind->Type_0
    }

    /// Whether `item` is the item that the context holds under its id.
    pub open spec fn holds(&self, item: &Item) -> bool {
        self.has(item.id) && self.item(item.id) == *item
    }

    /// The item of an id.
    pub fn resolve_item(&self, id: ItemId) -> (item: &Item)
        requires
            self.has(id),
        ensures
            *item == self.item(id),
    {
        &self.items[id.0]
    }

    /// The type of an id.
    pub fn resolve_type(&self, id: ItemId) -> (ty: &Type)
        requires
            self.is_type(id),
        ensures
            *ty == self.ty(id),
    {
        self.items[id.0].expect_type()
    }
}

impl Item {
    /// The type that the item is.
    pub fn expect_type(&self) -> (ty: &Type)
        requires
            self.kind is Type,
        ensures
            self.kind == ItemKind::Type(*ty),
    {
        match &self.kind {
            ItemKind::Type(ty) => ty,
            _ => {
                proof {
                    assert(false);
                }
                unreached()
            },
        }
    }

    /// The function that the item is.
    pub fn expect_function(&self) -> (f: &Function)
        requires
            self.kind is Function,
        ensures
            self.kind == ItemKind::Function(*f),
    {
        match &self.kind {
            ItemKind::Function(f) => f,
            _ => {
                proof {
                    assert(false);
                }
                unreached()
            },
        }
    }

    /// Whether the item is a module.
    pub fn is_module(&self) -> (b: bool)
        ensures
            b == (self.kind is Module),
    {
        match &self.kind {
            ItemKind::Module(_) => true,
            _ => false,
        }
    }
}

} // verus!
