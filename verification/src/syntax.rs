//! The syntax tree that the front end reads.
//!
//! A parser hands over its result in these types: every node with the span of
//! text that it covers, every child under the role it plays, and every token
//! as its raw text. A child that the parser could not find is `None`.

use crate::base::TextRange;
use vstd::prelude::*;

verus! {

/// The kinds of syntax node that a pointer can refer to.
#[derive(Clone, Copy, Debug, PartialEq, Eq, Hash, Structural)]
pub enum SyntaxKind {
    Apply,
    Assert,
    AttrPathValue,
    AttrSet,
    BinaryOp,
    Dynamic,
    HasAttr,
    IfThenElse,
    IndentString,
    Lambda,
    LetIn,
    List,
    Literal,
    Name,
    Paren,
    PathInterpolation,
    Ref,
    Select,
    String,
    UnaryOp,
    With,
}

/// A stable handle on one node of the syntax tree: its kind and its span.
/// Two pointers are the same exactly when both parts agree.
#[derive(Clone, Copy, Debug, PartialEq, Eq, Hash, Structural)]
pub struct AstPtr {
    pub kind: SyntaxKind,
    pub range: TextRange,
}

impl AstPtr {
    /// The pointer to the node of kind `kind` that covers `range`.
    pub fn new(kind: SyntaxKind, range: TextRange) -> (p: AstPtr)
        ensures
            p == (AstPtr { kind, range }),
    {
        AstPtr { kind, range }
    }

    /// The span of the node pointed to.
    pub fn text_range(&self) -> (r: TextRange)
        ensures
            r == self.range,
    {
        self.range
    }
}

/// Binary operators, as the parser classifies them.
#[derive(Clone, Copy, Debug, PartialEq, Eq, Hash, Structural)]
pub enum BinaryOpKind {
    Imply,
    Or,
    And,
    Equal,
    NotEqual,
    Less,
    Greater,
    LessEqual,
    GreaterEqual,
    Update,
    Concat,
    Add,
    Sub,
    Mul,
    Div,
}

/// Unary operators, as the parser classifies them.
#[derive(Clone, Copy, Debug, PartialEq, Eq, Hash, Structural)]
pub enum UnaryOpKind {
    Not,
    Negate,
}

/// A child in expression position; `None` where the source has none.
pub type ExprChild = Option<Box<SyntaxExpr>>;

/// The single token of a literal, by its lexical class.
#[derive(Clone, Debug)]
pub enum LiteralToken {
    /// An integer, as written.
    Int(String),
    /// A floating-point number: the bit pattern (IEEE 754, 64 bits) of the
    /// value that the token denotes.
    Float(u64),
    /// A URI, as written.
    Uri(String),
    /// A path, as written, with its leading `/`, `~` or neither.
    Path(String),
    /// A search path, as written, with its `<` and `>`.
    SearchPath(String),
}

/// A literal; `token` is `None` where the lexical class is unknown.
#[derive(Clone, Debug)]
pub struct LiteralNode {
    pub range: TextRange,
    pub token: Option<LiteralToken>,
}

/// A bare name, in a binder or in an attribute path.
#[derive(Clone, Debug)]
pub struct NameNode {
    pub range: TextRange,
    pub text: Option<String>,
}

/// An interpolation `${ .. }`.
#[derive(Debug)]
pub struct DynamicNode {
    pub range: TextRange,
    pub expr: ExprChild,
}

/// One piece of a string.
#[derive(Debug)]
pub enum StringPart {
    /// Literal text.
    Fragment(String),
    /// An escape sequence, as written, with its backslash.
    Escape(String),
    /// An interpolated expression.
    Dynamic(DynamicNode),
}

/// A quoted or indented string.
#[derive(Debug)]
pub struct StringNode {
    pub range: TextRange,
    pub parts: Vec<StringPart>,
}

/// One piece of an interpolated path.
#[derive(Debug)]
pub enum PathPart {
    /// Literal text.
    Fragment(String),
    /// An interpolated expression.
    Dynamic(DynamicNode),
}

/// One segment of an attribute path.
#[derive(Debug)]
pub enum Attr {
    Name(NameNode),
    String(StringNode),
    Dynamic(DynamicNode),
}

/// One field of a destructuring pattern, `name ? default`.
#[derive(Debug)]
pub struct PatFieldNode {
    pub name: Option<NameNode>,
    pub default_expr: ExprChild,
}

/// A destructuring pattern `{ a, b ? 0, ... }`.
#[derive(Debug)]
pub struct PatNode {
    pub fields: Vec<PatFieldNode>,
    pub ellipsis: bool,
}

/// The parameter of a lambda: a name, a pattern, or both.
#[derive(Debug)]
pub struct ParamNode {
    pub name: Option<NameNode>,
    pub pat: Option<PatNode>,
}

/// The parenthesised source of `inherit (source) names;`.
#[derive(Debug)]
pub struct InheritFromNode {
    pub expr: ExprChild,
}

/// A declaration `inherit names;` or `inherit (source) names;`.
#[derive(Debug)]
pub struct InheritNode {
    pub from_expr: Option<InheritFromNode>,
    pub attrs: Vec<Attr>,
}

/// A declaration `path = value;`. An absent path has no segments.
#[derive(Debug)]
pub struct AttrpathValueNode {
    pub range: TextRange,
    pub attrpath: Vec<Attr>,
    pub value: ExprChild,
}

/// One declaration in the body of a set or of a `let`.
#[derive(Debug)]
pub enum Binding {
    Inherit(InheritNode),
    AttrpathValue(AttrpathValueNode),
}

/// A set literal `{ .. }`, `rec { .. }` or `let { .. }`.
#[derive(Debug)]
pub struct AttrSetNode {
    pub range: TextRange,
    pub rec_token: bool,
    pub let_token: bool,
    pub bindings: Vec<Binding>,
}

/// A node in expression position.
#[derive(Debug)]
#[allow(inconsistent_fields)]
pub enum SyntaxExpr {
    Apply { range: TextRange, function: ExprChild, argument: ExprChild },
    Assert { range: TextRange, condition: ExprChild, body: ExprChild },
    AttrSet(AttrSetNode),
    BinaryOp { range: TextRange, lhs: ExprChild, op: Option<BinaryOpKind>, rhs: ExprChild },
    HasAttr { range: TextRange, set: ExprChild, attrpath: Vec<Attr> },
    IfThenElse {
        range: TextRange,
        condition: ExprChild,
        then_body: ExprChild,
        else_body: ExprChild,
    },
    IndentString(StringNode),
    Lambda { range: TextRange, param: Option<ParamNode>, body: ExprChild },
    LetIn { range: TextRange, bindings: Vec<Binding>, body: ExprChild },
    List { range: TextRange, elements: Vec<SyntaxExpr> },
    Literal(LiteralNode),
    Paren { range: TextRange, expr: ExprChild },
    PathInterpolation { range: TextRange, parts: Vec<PathPart> },
    Ref { range: TextRange, name: Option<String> },
    Select { range: TextRange, set: ExprChild, attrpath: Vec<Attr>, default_expr: ExprChild },
    String(StringNode),
    UnaryOp { range: TextRange, op: Option<UnaryOpKind>, arg: ExprChild },
    With { range: TextRange, environment: ExprChild, body: ExprChild },
}

/// The root of a parsed file.
#[derive(Debug)]
pub struct SourceFile {
    pub expr: ExprChild,
}

impl NameNode {
    /// The pointer to this node.
    pub open spec fn ptr(self) -> AstPtr {
        AstPtr { kind: SyntaxKind::Name, range: self.range }
    }

    /// The name as text; empty where the token is missing.
    pub open spec fn name(self) -> Seq<char> {
        match self.text {
            Some(t) => t@,
            None => Seq::empty(),
        }
    }

    pub fn ast_ptr(&self) -> (p: AstPtr)
        ensures
            p == self.ptr(),
    {
        AstPtr { kind: SyntaxKind::Name, range: self.range }
    }
}

impl DynamicNode {
    /// The pointer to this node.
    pub open spec fn ptr(self) -> AstPtr {
        AstPtr { kind: SyntaxKind::Dynamic, range: self.range }
    }

    pub fn ast_ptr(&self) -> (p: AstPtr)
        ensures
            p == self.ptr(),
    {
        AstPtr { kind: SyntaxKind::Dynamic, range: self.range }
    }
}

impl StringNode {
    /// The pointer to this node when it stands as a segment of an attribute
    /// path, or as a quoted string in expression position.
    pub open spec fn ptr(self) -> AstPtr {
        AstPtr { kind: SyntaxKind::String, range: self.range }
    }

    pub fn ast_ptr(&self) -> (p: AstPtr)
        ensures
            p == self.ptr(),
    {
        AstPtr { kind: SyntaxKind::String, range: self.range }
    }
}

impl Attr {
    /// The pointer to this segment.
    pub open spec fn ptr(self) -> AstPtr {
        match self {
            Attr::Name(n) => n.ptr(),
            Attr::String(s) => s.ptr(),
            Attr::Dynamic(d) => d.ptr(),
        }
    }

    pub fn ast_ptr(&self) -> (p: AstPtr)
        ensures
            p == self.ptr(),
    {
        match self {
            Attr::Name(n) => n.ast_ptr(),
            Attr::String(s) => s.ast_ptr(),
            Attr::Dynamic(d) => d.ast_ptr(),
        }
    }
}

impl AttrpathValueNode {
    /// The pointer to this declaration.
    pub open spec fn ptr(self) -> AstPtr {
        AstPtr { kind: SyntaxKind::AttrPathValue, range: self.range }
    }

    pub fn ast_ptr(&self) -> (p: AstPtr)
        ensures
            p == self.ptr(),
    {
        AstPtr { kind: SyntaxKind::AttrPathValue, range: self.range }
    }
}

impl AttrSetNode {
    /// The pointer to this node.
    pub open spec fn ptr(self) -> AstPtr {
        AstPtr { kind: SyntaxKind::AttrSet, range: self.range }
    }

    pub fn ast_ptr(&self) -> (p: AstPtr)
        ensures
            p == self.ptr(),
    {
        AstPtr { kind: SyntaxKind::AttrSet, range: self.range }
    }
}

impl SyntaxExpr {
    /// The kind of this node.
    pub open spec fn kind(self) -> SyntaxKind {
        match self {
            SyntaxExpr::Apply { .. } => SyntaxKind::Apply,
            SyntaxExpr::Assert { .. } => SyntaxKind::Assert,
            SyntaxExpr::AttrSet(_) => SyntaxKind::AttrSet,
            SyntaxExpr::BinaryOp { .. } => SyntaxKind::BinaryOp,
            SyntaxExpr::HasAttr { .. } => SyntaxKind::HasAttr,
            SyntaxExpr::IfThenElse { .. } => SyntaxKind::IfThenElse,
            SyntaxExpr::IndentString(_) => SyntaxKind::IndentString,
            SyntaxExpr::Lambda { .. } => SyntaxKind::Lambda,
            SyntaxExpr::LetIn { .. } => SyntaxKind::LetIn,
            SyntaxExpr::List { .. } => SyntaxKind::List,
            SyntaxExpr::Literal(_) => SyntaxKind::Literal,
            SyntaxExpr::Paren { .. } => SyntaxKind::Paren,
            SyntaxExpr::PathInterpolation { .. } => SyntaxKind::PathInterpolation,
            SyntaxExpr::Ref { .. } => SyntaxKind::Ref,
            SyntaxExpr::Select { .. } => SyntaxKind::Select,
            SyntaxExpr::String(_) => SyntaxKind::String,
            SyntaxExpr::UnaryOp { .. } => SyntaxKind::UnaryOp,
            SyntaxExpr::With { .. } => SyntaxKind::With,
        }
    }

    /// The span of this node.
    pub open spec fn range(self) -> TextRange {
        match self {
            SyntaxExpr::Apply { range, .. } => range,
            SyntaxExpr::Assert { range, .. } => range,
            SyntaxExpr::AttrSet(n) => n.range,
            SyntaxExpr::BinaryOp { range, .. } => range,
            SyntaxExpr::HasAttr { range, .. } => range,
            SyntaxExpr::IfThenElse { range, .. } => range,
            SyntaxExpr::IndentString(n) => n.range,
            SyntaxExpr::Lambda { range, .. } => range,
            SyntaxExpr::LetIn { range, .. } => range,
            SyntaxExpr::List { range, .. } => range,
            SyntaxExpr::Literal(n) => n.range,
            SyntaxExpr::Paren { range, .. } => range,
            SyntaxExpr::PathInterpolation { range, .. } => range,
            SyntaxExpr::Ref { range, .. } => range,
            SyntaxExpr::Select { range, .. } => range,
            SyntaxExpr::String(n) => n.range,
            SyntaxExpr::UnaryOp { range, .. } => range,
            SyntaxExpr::With { range, .. } => range,
        }
    }

    /// The pointer to this node.
    pub open spec fn ptr(self) -> AstPtr {
        AstPtr { kind: self.kind(), range: self.range() }
    }

    pub fn ast_ptr(&self) -> (p: AstPtr)
        ensures
            p == self.ptr(),
    {
        match self {
            SyntaxExpr::Apply { range, .. } => AstPtr { kind: SyntaxKind::Apply, range: *range },
            SyntaxExpr::Assert { range, .. } => AstPtr { kind: SyntaxKind::Assert, range: *range },
            SyntaxExpr::AttrSet(n) => AstPtr { kind: SyntaxKind::AttrSet, range: n.range },
            SyntaxExpr::BinaryOp { range, .. } => AstPtr {
                kind: SyntaxKind::BinaryOp,
                range: *range,
            },
            SyntaxExpr::HasAttr { range, .. } => AstPtr {
                kind: SyntaxKind::HasAttr,
                range: *range,
            },
            SyntaxExpr::IfThenElse { range, .. } => AstPtr {
                kind: SyntaxKind::IfThenElse,
                range: *range,
            },
            SyntaxExpr::IndentString(n) => AstPtr {
                kind: SyntaxKind::IndentString,
                range: n.range,
            },
            SyntaxExpr::Lambda { range, .. } => AstPtr { kind: SyntaxKind::Lambda, range: *range },
            SyntaxExpr::LetIn { range, .. } => AstPtr { kind: SyntaxKind::LetIn, range: *range },
            SyntaxExpr::List { range, .. } => AstPtr { kind: SyntaxKind::List, range: *range },
            SyntaxExpr::Literal(n) => AstPtr { kind: SyntaxKind::Literal, range: n.range },
            SyntaxExpr::Paren { range, .. } => AstPtr { kind: SyntaxKind::Paren, range: *range },
            SyntaxExpr::PathInterpolation { range, .. } => AstPtr {
                kind: SyntaxKind::PathInterpolation,
                range: *range,
            },
            SyntaxExpr::Ref { range, .. } => AstPtr { kind: SyntaxKind::Ref, range: *range },
            SyntaxExpr::Select { range, .. } => AstPtr { kind: SyntaxKind::Select, range: *range },
            SyntaxExpr::String(n) => AstPtr { kind: SyntaxKind::String, range: n.range },
            SyntaxExpr::UnaryOp { range, .. } => AstPtr {
                kind: SyntaxKind::UnaryOp,
                range: *range,
            },
            SyntaxExpr::With { range, .. } => AstPtr { kind: SyntaxKind::With, range: *range },
        }
    }
}

} // verus!
