//! The parts of a parsed Stratum module that documentation is drawn from.
//!
//! A node carries its documentation comment in its `Trivia`, as the text of
//! the comment with the comment markers removed.

use vstd::prelude::*;

verus! {

/// Comments attached to a node.
#[derive(Debug, Clone)]
pub struct Trivia {
    /// The text of the documentation comment, if the node has one
    pub doc: Option<String>,
}

impl Trivia {
    /// Trivia without a documentation comment.
    pub fn empty() -> (r: Trivia)
        ensures
            r.doc is None,
    {
        Trivia { doc: None }
    }

    /// Trivia with the given documentation text.
    pub fn with_doc(text: String) -> (r: Trivia)
        ensures
            r.doc == Some(text),
    {
        Trivia { doc: Some(text) }
    }

    /// The documentation text, if any.
    pub fn doc_text(&self) -> (r: Option<String>)
        ensures
            r == self.doc,
    {
        match &self.doc {
            Some(s) => Some(s.clone()),
            None => None,
        }
    }
}

/// An identifier.
#[derive(Debug, Clone)]
pub struct Ident {
    pub name: String,
}

/// A type parameter.
#[derive(Debug, Clone)]
pub struct TypeParam {
    pub name: Ident,
}

/// A written type.
#[derive(Debug)]
pub struct TypeAnnotation {
    pub kind: TypeKind,
}

/// The shapes of written types.
#[derive(Debug)]
pub enum TypeKind {
    /// A named type with type arguments, such as `List<Int>`
    Named { name: Ident, args: Vec<TypeAnnotation> },
    /// `T?`
    Nullable(Box<TypeAnnotation>),
    /// `(A, B) -> R`
    Function { params: Vec<TypeAnnotation>, ret: Box<TypeAnnotation> },
    /// `(A, B)`
    Tuple(Vec<TypeAnnotation>),
    /// `[T]`
    List(Box<TypeAnnotation>),
    /// `()`
    Unit,
    /// `!`
    Never,
    /// `_`
    Inferred,
}

/// A function parameter.
#[derive(Debug)]
pub struct Param {
    pub name: Ident,
    pub ty: Option<TypeAnnotation>,
}

/// A function definition.
#[derive(Debug)]
pub struct Function {
    pub name: Ident,
    pub is_async: bool,
    pub type_params: Vec<TypeParam>,
    pub params: Vec<Param>,
    pub return_type: Option<TypeAnnotation>,
    pub trivia: Trivia,
}

/// A field of a struct or of a struct-like enum variant.
#[derive(Debug)]
pub struct StructField {
    pub name: Ident,
    pub ty: TypeAnnotation,
}

/// A struct definition.
#[derive(Debug)]
pub struct StructDef {
    pub name: Ident,
    pub type_params: Vec<TypeParam>,
    pub fields: Vec<StructField>,
    pub trivia: Trivia,
}

/// The data of an enum variant.
#[derive(Debug)]
pub enum EnumVariantData {
    Tuple(Vec<TypeAnnotation>),
    Struct(Vec<StructField>),
}

/// An enum variant.
#[derive(Debug)]
pub struct EnumVariant {
    pub name: Ident,
    pub data: Option<EnumVariantData>,
}

/// An enum definition.
#[derive(Debug)]
pub struct EnumDef {
    pub name: Ident,
    pub type_params: Vec<TypeParam>,
    pub variants: Vec<EnumVariant>,
    pub trivia: Trivia,
}

/// A method declared by an interface.
#[derive(Debug)]
pub struct InterfaceMethod {
    pub name: Ident,
    pub is_async: bool,
    pub type_params: Vec<TypeParam>,
    pub params: Vec<Param>,
    pub return_type: Option<TypeAnnotation>,
}

/// An interface definition.
#[derive(Debug)]
pub struct InterfaceDef {
    pub name: Ident,
    pub type_params: Vec<TypeParam>,
    pub methods: Vec<InterfaceMethod>,
    pub trivia: Trivia,
}

/// An implementation block.
#[derive(Debug)]
pub struct ImplDef {
    pub type_params: Vec<TypeParam>,
    pub interface: Option<TypeAnnotation>,
    pub target: TypeAnnotation,
    pub methods: Vec<Function>,
    pub trivia: Trivia,
}

/// The kinds of items.
#[derive(Debug)]
pub enum ItemKind {
    Function(Function),
    Struct(StructDef),
    Enum(EnumDef),
    Interface(InterfaceDef),
    Impl(ImplDef),
    /// An import, by its path
    Import(String),
}

/// An item.
#[derive(Debug)]
pub struct Item {
    pub kind: ItemKind,
}

/// The shapes of binding patterns.
#[derive(Debug, Clone)]
pub enum PatternKind {
    /// A plain name
    Ident(Ident),
    /// Any destructuring pattern
    Destructure,
}

/// A binding pattern.
#[derive(Debug, Clone)]
pub struct Pattern {
    pub kind: PatternKind,
}

/// A top-level `let`.
#[derive(Debug)]
pub struct TopLevelLet {
    pub pattern: Pattern,
    pub ty: Option<TypeAnnotation>,
    pub trivia: Trivia,
}

/// An entry of a module.
#[derive(Debug)]
pub enum TopLevelItem {
    Item(Item),
    Let(TopLevelLet),
    /// A top-level statement
    Statement,
}

/// A parsed module.
#[derive(Debug)]
pub struct Module {
    pub top_level: Vec<TopLevelItem>,
    pub trivia: Trivia,
}

} // verus!
