//! The parts of a parsed source file that the analysis reads.
//!
//! A node keeps the structure that decides which calls it holds, and the
//! token text of those parts that a report prints.

use vstd::prelude::*;

verus! {

/// How far a declaration can be seen.
#[derive(Debug, Clone, Copy, PartialEq, Eq, Structural)]
pub enum Visibility {
    /// Marked `pub`.
    Public,
    /// Marked `pub(..)`.
    Restricted,
    /// Not marked.
    Inherited,
}

impl Visibility {
    /// Only `pub` itself counts as public.
    pub open spec fn spec_is_public(self) -> bool {
        self == Visibility::Public
    }

    /// Only `pub` itself counts as public.
    #[verifier::when_used_as_spec(spec_is_public)]
    pub fn is_public(self) -> (r: bool)
        ensures
            r == self.spec_is_public(),
    {
        match self {
            Visibility::Public => true,
            _ => false,
        }
    }
}

/// The shape of a type, as far as type names are looked for in it.
#[derive(Debug, PartialEq, Eq)]
pub enum TypeKind {
    /// A path; `path_text` is the token text of the path alone, and
    /// `last_segment` the name of its last segment.
    Path { path_text: String, last_segment: Option<String> },
    /// A reference to `elem`.
    Reference { elem: Box<Type> },
    /// An array of `elem`.
    Array { elem: Box<Type> },
    /// A slice of `elem`.
    Slice { elem: Box<Type> },
    /// Any other type.
    Other,
}

/// A type as written in a signature or a field.
#[derive(Debug, PartialEq, Eq)]
pub struct Type {
    /// The token text of the whole type.
    pub text: String,
    pub kind: TypeKind,
}

/// One parameter of a function.
#[derive(Debug, PartialEq, Eq)]
pub enum FnArg {
    /// `self` in any form.
    Receiver,
    /// A parameter with a type.
    Typed(Type),
}

/// What a function returns.
#[derive(Debug, PartialEq, Eq)]
pub enum ReturnType {
    /// No return type is written.
    Default,
    /// The written return type.
    Type(Type),
}

/// The header of a function.
#[derive(Debug, PartialEq, Eq)]
pub struct Signature {
    pub constness: bool,
    pub asyncness: bool,
    pub unsafety: bool,
    pub ident: String,
    pub inputs: Vec<FnArg>,
    pub output: ReturnType,
}

/// One arm of a `match`.
#[derive(Debug, PartialEq, Eq)]
pub struct Arm {
    /// The token text of the arm's pattern.
    pub pat_text: String,
    pub body: Expr,
}

/// A statement of a block.
#[derive(Debug, PartialEq, Eq)]
pub enum Stmt {
    /// An expression, with or without a semicolon; `text` is its token text.
    Expr { text: String, expr: Expr },
    /// A `let`, an item or a macro in statement position.
    Other,
}

/// A block in braces.
#[derive(Debug, PartialEq, Eq)]
pub struct Block {
    /// The token text of the block, braces included.
    pub text: String,
    pub stmts: Vec<Stmt>,
}

/// An expression, as far as calls are looked for in it.
#[derive(Debug, PartialEq, Eq)]
pub enum Expr {
    /// A call `func(..)`; the arguments are not read.
    Call { func: Box<Expr> },
    /// A method call `receiver.method(..)`; receiver and arguments are not read.
    MethodCall { method: String },
    /// A path; `last_segment` is the name of its last segment.
    Path { last_segment: Option<String> },
    /// A unary operator applied to `expr`.
    Unary { expr: Box<Expr> },
    /// A binary operator between `left` and `right`.
    Binary { left: Box<Expr>, right: Box<Expr> },
    /// An expression in an invisible group.
    Group { expr: Box<Expr> },
    /// A block used as an expression.
    Block { block: Block },
    /// An `if`; `cond_text` is the token text of `cond`.
    If { cond_text: String, cond: Box<Expr>, then_branch: Block, else_branch: Option<Box<Expr>> },
    /// A `match` on `expr`.
    Match { expr: Box<Expr>, arms: Vec<Arm> },
    /// A `loop`.
    Loop { body: Block },
    /// A `while`; `cond_text` is the token text of `cond`.
    While { cond_text: String, cond: Box<Expr>, body: Block },
    /// A `for`; `expr_text` is the token text of the expression iterated over.
    ForLoop { expr_text: String, expr: Box<Expr>, body: Block },
    /// An `async` block.
    Async { block: Block },
    /// The operator `?` applied to `expr`.
    Try { expr: Box<Expr> },
    /// A macro invocation; `last_segment` is the last segment of the macro's path.
    Macro { last_segment: Option<String> },
    /// Any other expression.
    Other,
}

/// A free function.
#[derive(Debug, Clone, PartialEq, Eq)]
pub struct ItemFn {
    pub vis: Visibility,
    pub sig: Signature,
    pub block: Block,
}

/// A method inside an `impl`.
#[derive(Debug, Clone, PartialEq, Eq)]
pub struct ImplItemFn {
    pub vis: Visibility,
    pub sig: Signature,
    pub block: Block,
}

/// A member of an `impl`.
#[derive(Debug, Clone, PartialEq, Eq)]
pub enum ImplItem {
    Fn(ImplItemFn),
    /// A constant, a type or a macro.
    Other,
}

/// An `impl` block.
#[derive(Debug, Clone, PartialEq, Eq)]
pub struct ItemImpl {
    pub self_ty: Type,
    pub items: Vec<ImplItem>,
}

/// A field of a record or of a variant.
#[derive(Debug, PartialEq, Eq)]
pub struct Field {
    pub vis: Visibility,
    pub ident: Option<String>,
    pub ty: Type,
}

/// The fields of a record or of a variant.
#[derive(Debug, PartialEq, Eq)]
pub enum Fields {
    Named(Vec<Field>),
    Unnamed(Vec<Field>),
    Unit,
}

/// A record type.
#[derive(Debug, PartialEq, Eq)]
pub struct ItemStruct {
    pub vis: Visibility,
    pub ident: String,
    pub fields: Fields,
}

/// One variant of a sum type.
#[derive(Debug, PartialEq, Eq)]
pub struct Variant {
    pub ident: String,
    pub fields: Fields,
}

/// A sum type.
#[derive(Debug, PartialEq, Eq)]
pub struct ItemEnum {
    pub vis: Visibility,
    pub ident: String,
    pub variants: Vec<Variant>,
}

/// A member of an interface.
#[derive(Debug, PartialEq, Eq)]
pub enum TraitItem {
    Fn { sig: Signature },
    Type { ident: String },
    Const { ident: String, ty: Type },
    /// A macro or anything else.
    Other,
}

/// An interface.
#[derive(Debug, PartialEq, Eq)]
pub struct ItemTrait {
    pub vis: Visibility,
    pub ident: String,
    pub items: Vec<TraitItem>,
}

/// A type alias.
#[derive(Debug, PartialEq, Eq)]
pub struct ItemType {
    pub vis: Visibility,
    pub ident: String,
    pub ty: Type,
}

/// A declaration at the top level of a file.
#[derive(Debug, Clone, PartialEq, Eq)]
pub enum Item {
    Fn(ItemFn),
    Impl(ItemImpl),
    Struct(ItemStruct),
    Enum(ItemEnum),
    Trait(ItemTrait),
    Type(ItemType),
    /// A declaration that the index does not keep.
    Other,
}

/// One file met on the walk. `items` is `None` where the file could not be
/// read or parsed.
#[derive(Debug, Clone, PartialEq, Eq)]
pub struct ParsedFile {
    pub path: String,
    pub items: Option<Vec<Item>>,
}

} // verus!
