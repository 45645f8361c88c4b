//! The language-neutral interchange format: the normalized `Item` record and
//! the package metadata around it.

use vstd::prelude::*;

verus! {

/// Package-level metadata.
#[derive(Debug, Clone)]
pub struct PackageMeta {
    pub name: String,
    pub version: String,
    pub ecosystem: Ecosystem,
    pub repository: Option<String>,
    pub description: Option<String>,
    /// Top-level modules/namespaces in this package.
    pub modules: Vec<String>,
    /// Direct dependencies as (name, version requirement) pairs.
    pub dependencies: Vec<(String, String)>,
}

/// Supported language ecosystems.
#[derive(Debug, Clone, Copy, PartialEq, Eq, Structural)]
pub enum Ecosystem {
    Rust,
    TypeScript,
    Python,
    Go,
}

/// The API surface of a package: a flat list of items.
#[derive(Debug, Clone)]
pub struct PackageItems {
    pub items: Vec<Item>,
}

/// A single API item (struct, function, trait, and so on).
#[derive(Debug, Clone)]
pub struct Item {
    /// Fully qualified path, `crate::module::Item` for Rust.
    pub path: String,
    /// What kind of item this is.
    pub kind: ItemKind,
    /// The signature in native syntax.
    pub signature: Option<String>,
    /// Documentation string.
    pub doc: Option<String>,
    /// Visibility level.
    pub visibility: Visibility,
    /// Fields, for record-like kinds.
    pub fields: Vec<Field>,
    /// Methods defined on this type.
    pub methods: Vec<Method>,
    /// Traits implemented (Rust) or interfaces extended (TypeScript).
    pub traits: Vec<String>,
    /// Enum variants, only for sum-type kinds.
    pub variants: Vec<Variant>,
    /// Related items with their relationship type.
    pub related: Vec<Relation>,
    /// Version when this item was introduced.
    pub since: Option<String>,
    /// Version when this item was or will be removed.
    pub until: Option<String>,
    /// Previous path if this item was moved or renamed.
    pub moved_from: Option<String>,
    /// Deprecation message if deprecated.
    pub deprecated: Option<String>,
}

impl Item {
    /// Well-formedness of a normalized item: a non-empty path, variants only
    /// on sum types, fields only on record-like kinds.
    pub open spec fn wf(self) -> bool {
        &&& self.path@.len() > 0
        &&& self.variants.len() > 0 ==> self.kind == ItemKind::Enum
        &&& self.fields.len() > 0 ==> self.kind == ItemKind::Struct || self.kind
            == ItemKind::Trait
    }

    /// A fresh item of the given kind with nothing attached yet.
    pub fn bare(path: String, kind: ItemKind, signature: Option<String>, doc: Option<String>, visibility: Visibility) -> (r: Item)
        ensures
            r.path == path,
            r.kind == kind,
            r.signature == signature,
            r.doc == doc,
            r.visibility == visibility,
            r.fields@ =~= Seq::<Field>::empty(),
            r.methods@ =~= Seq::<Method>::empty(),
            r.traits@ =~= Seq::<String>::empty(),
            r.variants@ =~= Seq::<Variant>::empty(),
            r.related@ =~= Seq::<Relation>::empty(),
            r.since is None && r.until is None && r.moved_from is None && r.deprecated is None,
            path@.len() > 0 ==> r.wf(),
    {
        Item {
            path,
            kind,
            signature,
            doc,
            visibility,
            fields: Vec::new(),
            methods: Vec::new(),
            traits: Vec::new(),
            variants: Vec::new(),
            related: Vec::new(),
            since: None,
            until: None,
            moved_from: None,
            deprecated: None,
        }
    }
}

/// Universal item kinds across languages.
#[derive(Debug, Clone, Copy, PartialEq, Eq, Structural)]
pub enum ItemKind {
    /// Rust struct, Go struct, Python class, TypeScript class.
    Struct,
    /// A sum type.
    Enum,
    /// Rust trait, Go interface, TypeScript interface, Python Protocol.
    Trait,
    /// Standalone function.
    Function,
    /// Type alias.
    TypeAlias,
    /// Constant value.
    Constant,
    /// Module or namespace.
    Module,
    /// Macro.
    Macro,
}

impl ItemKind {
    /// The lowercase text under which the kind is stored and filtered.
    pub open spec fn label(self) -> Seq<char> {
        match self {
            ItemKind::Struct => "struct"@,
            ItemKind::Enum => "enum"@,
            ItemKind::Trait => "trait"@,
            ItemKind::Function => "function"@,
            ItemKind::TypeAlias => "typealias"@,
            ItemKind::Constant => "constant"@,
            ItemKind::Module => "module"@,
            ItemKind::Macro => "macro"@,
        }
    }

    /// The stored text of the kind.
    pub fn as_text(&self) -> (r: &'static str)
        ensures
            r@ == self.label(),
    {
        match self {
            ItemKind::Struct => "struct",
            ItemKind::Enum => "enum",
            ItemKind::Trait => "trait",
            ItemKind::Function => "function",
            ItemKind::TypeAlias => "typealias",
            ItemKind::Constant => "constant",
            ItemKind::Module => "module",
            ItemKind::Macro => "macro",
        }
    }
}

/// Visibility levels.
#[derive(Debug, Clone, Copy, PartialEq, Eq, Structural)]
pub enum Visibility {
    Public,
    /// Rust `pub(crate)`, Python leading-underscore convention.
    Crate,
    /// Rust `pub(super)` or private.
    Private,
}

impl Visibility {
    /// Whether the level means exported API surface.
    pub fn is_public(&self) -> (r: bool)
        ensures
            r == (*self == Visibility::Public),
    {
        match self {
            Visibility::Public => true,
            _ => false,
        }
    }

    /// The lowercase text under which the level is stored.
    pub open spec fn label(self) -> Seq<char> {
        match self {
            Visibility::Public => "public"@,
            Visibility::Crate => "crate"@,
            Visibility::Private => "private"@,
        }
    }

    /// The stored text of the level.
    pub fn as_text(&self) -> (r: &'static str)
        ensures
            r@ == self.label(),
    {
        match self {
            Visibility::Public => "public",
            Visibility::Crate => "crate",
            Visibility::Private => "private",
        }
    }
}

impl Default for Visibility {
    /// Items default to being public: exported languages only surface
    /// exported declarations.
    fn default() -> (r: Self)
        ensures
            r == Visibility::Public,
    {
        Visibility::Public
    }
}

/// A struct field or similar.
#[derive(Debug, Clone)]
pub struct Field {
    pub name: String,
    pub ty: Option<String>,
    pub doc: Option<String>,
    pub visibility: Visibility,
}

/// A method on a type.
#[derive(Debug, Clone)]
pub struct Method {
    pub name: String,
    pub signature: Option<String>,
    pub doc: Option<String>,
    pub visibility: Visibility,
}

/// An enum variant.
#[derive(Debug, Clone)]
pub struct Variant {
    pub name: String,
    pub doc: Option<String>,
    /// Fields if this is a struct variant.
    pub fields: Vec<Field>,
}

/// A relationship to another item.
#[derive(Debug, Clone)]
pub struct Relation {
    /// Path to the related item.
    pub path: String,
    /// Type of relationship.
    pub kind: RelationKind,
}

/// Types of relationships between items.
#[derive(Debug, Clone, Copy, PartialEq, Eq, Structural)]
pub enum RelationKind {
    /// A component the target requires.
    RequiredComponent,
    /// This item replaces the target.
    Replaces,
    /// This item is replaced by the target.
    ReplacedBy,
    /// This item implements the target trait.
    Implements,
    /// This item extends or inherits from the target.
    Extends,
}

} // verus!
