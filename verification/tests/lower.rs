use nil::base::{FileId, InFile, TextRange};
use nil::ir::{Expr, ExprId, Literal, NameDefId};
use nil::lower::lower;
use nil::module::{Module, ModuleSourceMap};
use nil::syntax::{
    AstPtr, Attr, AttrSetNode, AttrpathValueNode, BinaryOpKind, Binding, DynamicNode, ExprChild,
    InheritFromNode, InheritNode, LiteralNode, LiteralToken, NameNode, ParamNode, PatFieldNode,
    PatNode, SourceFile, StringNode, StringPart, SyntaxExpr, SyntaxKind, UnaryOpKind,
};

/// The span of the occurrence number `nth` (from 0) of `needle` in `src`.
fn at(src: &str, needle: &str, nth: usize) -> TextRange {
    let mut from = 0;
    let mut start = 0;
    for _ in 0..=nth {
        start = from + src[from..].find(needle).expect("the text occurs in the source");
        from = start + 1;
    }
    TextRange::new(start as u32, (start + needle.len()) as u32)
}

fn some(e: SyntaxExpr) -> ExprChild {
    Some(Box::new(e))
}

fn lit(src: &str, text: &str, nth: usize, token: LiteralToken) -> SyntaxExpr {
    SyntaxExpr::Literal(LiteralNode { range: at(src, text, nth), token: Some(token) })
}

fn integer(src: &str, text: &str, nth: usize) -> SyntaxExpr {
    lit(src, text, nth, LiteralToken::Int(text.to_string()))
}

fn reference(src: &str, name: &str, nth: usize) -> SyntaxExpr {
    SyntaxExpr::Ref { range: at(src, name, nth), name: Some(name.to_string()) }
}

fn name(src: &str, text: &str, nth: usize) -> NameNode {
    NameNode { range: at(src, text, nth), text: Some(text.to_string()) }
}

fn name_attr(src: &str, text: &str, nth: usize) -> Attr {
    Attr::Name(name(src, text, nth))
}

fn frag(text: &str) -> StringPart {
    StringPart::Fragment(text.to_string())
}

fn esc(text: &str) -> StringPart {
    StringPart::Escape(text.to_string())
}

fn dynamic(src: &str, whole: &str, nth: usize, expr: SyntaxExpr) -> DynamicNode {
    DynamicNode { range: at(src, whole, nth), expr: some(expr) }
}

fn string_node(src: &str, whole: &str, nth: usize, parts: Vec<StringPart>) -> StringNode {
    StringNode { range: at(src, whole, nth), parts }
}

fn paren(src: &str, whole: &str, nth: usize, expr: SyntaxExpr) -> SyntaxExpr {
    SyntaxExpr::Paren { range: at(src, whole, nth), expr: some(expr) }
}

fn path_value(src: &str, whole: &str, nth: usize, attrpath: Vec<Attr>, value: SyntaxExpr) -> Binding {
    Binding::AttrpathValue(AttrpathValueNode {
        range: at(src, whole, nth),
        attrpath,
        value: some(value),
    })
}

fn inherit(from_expr: Option<SyntaxExpr>, attrs: Vec<Attr>) -> Binding {
    Binding::Inherit(InheritNode {
        from_expr: from_expr.map(|e| InheritFromNode { expr: some(e) }),
        attrs,
    })
}

fn set_node(src: &str, whole: &str, nth: usize, bindings: Vec<Binding>) -> AttrSetNode {
    AttrSetNode { range: at(src, whole, nth), rec_token: false, let_token: false, bindings }
}

fn attr_set(src: &str, whole: &str, nth: usize, bindings: Vec<Binding>) -> SyntaxExpr {
    SyntaxExpr::AttrSet(set_node(src, whole, nth, bindings))
}

fn rec_set(src: &str, whole: &str, nth: usize, bindings: Vec<Binding>) -> SyntaxExpr {
    SyntaxExpr::AttrSet(AttrSetNode { rec_token: true, ..set_node(src, whole, nth, bindings) })
}

fn let_set(src: &str, whole: &str, nth: usize, bindings: Vec<Binding>) -> SyntaxExpr {
    SyntaxExpr::AttrSet(AttrSetNode { let_token: true, ..set_node(src, whole, nth, bindings) })
}

fn lower_root(root: SyntaxExpr) -> (Module, ModuleSourceMap) {
    lower(InFile::new(FileId(0), SourceFile { expr: some(root) }))
}

/// The two tables of `module`, one item per line.
fn dump(module: &Module) -> String {
    let mut got = String::new();
    for i in 0..module.expr_count() {
        let e = module.expr(ExprId(i as u32)).unwrap();
        got.push_str(&format!("{}: {:?}\n", i, e));
    }
    if module.name_def_count() > 0 {
        got.push('\n');
    }
    for i in 0..module.name_def_count() {
        let d = module.name_def(NameDefId(i as u32)).unwrap();
        got.push_str(&format!("{}: {:?}\n", i, d));
    }
    got
}

fn check_lower(root: SyntaxExpr, expect: &[&str]) {
    let (module, _source_map) = lower_root(root);
    assert!(module.diagnostics().is_empty());
    let mut want = String::new();
    for line in expect {
        want.push_str(line);
        want.push('\n');
    }
    assert_eq!(dump(&module), want);
}

fn check_error(root: SyntaxExpr, expect: &[&str]) {
    let (module, _source_map) = lower_root(root);
    let mut got = String::new();
    for diag in module.diagnostics() {
        got.push_str(&format!(
            "Diagnostic {{ range: {}..{}, kind: {:?} }}\n",
            diag.range.start, diag.range.end, diag.kind
        ));
    }
    let mut want = String::new();
    for line in expect {
        want.push_str(line);
        want.push('\n');
    }
    assert_eq!(got, want);
}

#[test]
fn literal() {
    check_lower(integer("42", "42", 0), &["0: Literal(Int(42))"]);

    let src = "1.2e3";
    let bits = src.parse::<f64>().unwrap().to_bits();
    let (module, _source_map) = lower_root(lit(src, src, 0, LiteralToken::Float(bits)));
    assert!(module.diagnostics().is_empty());
    assert_eq!(module.expr_count(), 1);
    assert_eq!(
        module.expr(ExprId(0)),
        Some(&Expr::Literal(Literal::Float(1200.0f64.to_bits())))
    );

    let src = "a:b";
    check_lower(
        lit(src, src, 0, LiteralToken::Uri(src.to_string())),
        &["0: Literal(String(\"a:b\"))"],
    );
}

fn path_literal(src: &str) -> SyntaxExpr {
    lit(src, src, 0, LiteralToken::Path(src.to_string()))
}

#[test]
fn path() {
    check_lower(
        path_literal("./."),
        &["0: Literal(Path(Path { anchor: Relative(FileId(0)), supers: 0, raw_segments: \"\" }))"],
    );
    check_lower(
        path_literal("../."),
        &["0: Literal(Path(Path { anchor: Relative(FileId(0)), supers: 1, raw_segments: \"\" }))"],
    );
    check_lower(
        path_literal("../a/../../.b/./c"),
        &["0: Literal(Path(Path { anchor: Relative(FileId(0)), supers: 2, raw_segments: \".b/c\" }))"],
    );
    check_lower(
        path_literal("/../a/../../.b/./c"),
        &["0: Literal(Path(Path { anchor: Absolute, supers: 0, raw_segments: \".b/c\" }))"],
    );
    check_lower(
        path_literal("~/../a/../../.b/./c"),
        &["0: Literal(Path(Path { anchor: Home, supers: 2, raw_segments: \".b/c\" }))"],
    );
    let src = "<p/../a/../../.b/./c>";
    check_lower(
        lit(src, src, 0, LiteralToken::SearchPath(src.to_string())),
        &["0: Literal(Path(Path { anchor: Search(\"p\"), supers: 2, raw_segments: \".b/c\" }))"],
    );
}

fn lambda_node(src: &str, param: ParamNode, body: SyntaxExpr) -> SyntaxExpr {
    SyntaxExpr::Lambda { range: at(src, src, 0), param: Some(param), body: some(body) }
}

fn field(name: NameNode, default_expr: Option<SyntaxExpr>) -> PatFieldNode {
    PatFieldNode { name: Some(name), default_expr: default_expr.map(|e| Box::new(e)) }
}

#[test]
fn lambda() {
    let src = "a: 0";
    check_lower(
        lambda_node(src, ParamNode { name: Some(name(src, "a", 0)), pat: None }, integer(src, "0", 0)),
        &[
            "0: Literal(Int(0))",
            "1: Lambda(Some(NameDefId(0)), None, ExprId(0))",
            "",
            "0: NameDef { name: \"a\" }",
        ],
    );
    let src = "{ }: 0";
    check_lower(
        lambda_node(
            src,
            ParamNode { name: None, pat: Some(PatNode { fields: vec![], ellipsis: false }) },
            integer(src, "0", 0),
        ),
        &[
            "0: Literal(Int(0))",
            "1: Lambda(None, Some(Pat { fields: [], ellipsis: false }), ExprId(0))",
        ],
    );
    let src = "a@{ ... }: 0";
    check_lower(
        lambda_node(
            src,
            ParamNode {
                name: Some(name(src, "a", 0)),
                pat: Some(PatNode { fields: vec![], ellipsis: true }),
            },
            integer(src, "0", 0),
        ),
        &[
            "0: Literal(Int(0))",
            "1: Lambda(Some(NameDefId(0)), Some(Pat { fields: [], ellipsis: true }), ExprId(0))",
            "",
            "0: NameDef { name: \"a\" }",
        ],
    );
    let src = "{ } @ a: 0";
    check_lower(
        lambda_node(
            src,
            ParamNode {
                name: Some(name(src, "a", 0)),
                pat: Some(PatNode { fields: vec![], ellipsis: false }),
            },
            integer(src, "0", 0),
        ),
        &[
            "0: Literal(Int(0))",
            "1: Lambda(Some(NameDefId(0)), Some(Pat { fields: [], ellipsis: false }), ExprId(0))",
            "",
            "0: NameDef { name: \"a\" }",
        ],
    );
    let src = "{ a, b ? 0, ... }: 0";
    check_lower(
        lambda_node(
            src,
            ParamNode {
                name: None,
                pat: Some(PatNode {
                    fields: vec![
                        field(name(src, "a", 0), None),
                        field(name(src, "b", 0), Some(integer(src, "0", 0))),
                    ],
                    ellipsis: true,
                }),
            },
            integer(src, "0", 1),
        ),
        &[
            "0: Literal(Int(0))",
            "1: Literal(Int(0))",
            "2: Lambda(None, Some(Pat { fields: [(Some(NameDefId(0)), None), (Some(NameDefId(1)), Some(ExprId(0)))], ellipsis: true }), ExprId(1))",
            "",
            "0: NameDef { name: \"a\" }",
            "1: NameDef { name: \"b\" }",
        ],
    );
    let src = "{ a ? 0, b }@c: 0";
    check_lower(
        lambda_node(
            src,
            ParamNode {
                name: Some(name(src, "c", 0)),
                pat: Some(PatNode {
                    fields: vec![
                        field(name(src, "a", 0), Some(integer(src, "0", 0))),
                        field(name(src, "b", 0), None),
                    ],
                    ellipsis: false,
                }),
            },
            integer(src, "0", 1),
        ),
        &[
            "0: Literal(Int(0))",
            "1: Literal(Int(0))",
            "2: Lambda(Some(NameDefId(0)), Some(Pat { fields: [(Some(NameDefId(1)), Some(ExprId(0))), (Some(NameDefId(2)), None)], ellipsis: false }), ExprId(1))",
            "",
            "0: NameDef { name: \"c\" }",
            "1: NameDef { name: \"a\" }",
            "2: NameDef { name: \"b\" }",
        ],
    );
}

#[test]
fn string() {
    let src = "\" fo\\no \"";
    check_lower(
        SyntaxExpr::String(string_node(src, src, 0, vec![frag(" fo"), esc("\\n"), frag("o ")])),
        &["0: StringInterpolation([])"],
    );
    let src = "'' fo'''o ''";
    check_lower(
        SyntaxExpr::IndentString(string_node(src, src, 0, vec![frag(" fo"), esc("'''"), frag("o ")])),
        &["0: StringInterpolation([])"],
    );

    let src = "\" fo${1}o\\n$${${42}\\💗\"";
    check_lower(
        SyntaxExpr::String(string_node(
            src,
            src,
            0,
            vec![
                frag(" fo"),
                StringPart::Dynamic(dynamic(src, "${1}", 0, integer(src, "1", 0))),
                frag("o"),
                esc("\\n"),
                frag("$${"),
                StringPart::Dynamic(dynamic(src, "${42}", 0, integer(src, "42", 0))),
                esc("\\💗"),
            ],
        )),
        &[
            "0: Literal(Int(1))",
            "1: Literal(Int(42))",
            "2: StringInterpolation([ExprId(0), ExprId(1)])",
        ],
    );
    let src = "'' ''$${1} $${}${42} ''";
    check_lower(
        SyntaxExpr::IndentString(string_node(
            src,
            src,
            0,
            vec![
                frag(" "),
                esc("''$"),
                StringPart::Dynamic(dynamic(src, "${1}", 0, integer(src, "1", 0))),
                frag(" $${}"),
                StringPart::Dynamic(dynamic(src, "${42}", 0, integer(src, "42", 0))),
                frag(" "),
            ],
        )),
        &[
            "0: Literal(Int(1))",
            "1: Literal(Int(42))",
            "2: StringInterpolation([ExprId(0), ExprId(1)])",
        ],
    );
}

#[test]
fn trivial_expr() {
    let src = "(1 + 2) 3 * -4";
    let sum = SyntaxExpr::BinaryOp {
        range: at(src, "1 + 2", 0),
        lhs: some(integer(src, "1", 0)),
        op: Some(BinaryOpKind::Add),
        rhs: some(integer(src, "2", 0)),
    };
    let apply = SyntaxExpr::Apply {
        range: at(src, "(1 + 2) 3", 0),
        function: some(paren(src, "(1 + 2)", 0, sum)),
        argument: some(integer(src, "3", 0)),
    };
    let negate = SyntaxExpr::UnaryOp {
        range: at(src, "-4", 0),
        op: Some(UnaryOpKind::Negate),
        arg: some(integer(src, "4", 0)),
    };
    check_lower(
        SyntaxExpr::BinaryOp {
            range: at(src, src, 0),
            lhs: some(apply),
            op: Some(BinaryOpKind::Mul),
            rhs: some(negate),
        },
        &[
            "0: Literal(Int(1))",
            "1: Literal(Int(2))",
            "2: Binary(Some(Add), ExprId(0), ExprId(1))",
            "3: Literal(Int(3))",
            "4: Apply(ExprId(2), ExprId(3))",
            "5: Literal(Int(4))",
            "6: Unary(Some(Negate), ExprId(5))",
            "7: Binary(Some(Mul), ExprId(4), ExprId(6))",
        ],
    );
    let src = "assert 1; 2";
    check_lower(
        SyntaxExpr::Assert {
            range: at(src, src, 0),
            condition: some(integer(src, "1", 0)),
            body: some(integer(src, "2", 0)),
        },
        &[
            "0: Literal(Int(1))",
            "1: Literal(Int(2))",
            "2: Assert(ExprId(0), ExprId(1))",
        ],
    );
    let src = "if 1 then 2 else 3";
    check_lower(
        SyntaxExpr::IfThenElse {
            range: at(src, src, 0),
            condition: some(integer(src, "1", 0)),
            then_body: some(integer(src, "2", 0)),
            else_body: some(integer(src, "3", 0)),
        },
        &[
            "0: Literal(Int(1))",
            "1: Literal(Int(2))",
            "2: Literal(Int(3))",
            "3: IfThenElse(ExprId(0), ExprId(1), ExprId(2))",
        ],
    );
    let src = "with 1; 2";
    check_lower(
        SyntaxExpr::With {
            range: at(src, src, 0),
            environment: some(integer(src, "1", 0)),
            body: some(integer(src, "2", 0)),
        },
        &[
            "0: Literal(Int(1))",
            "1: Literal(Int(2))",
            "2: With(ExprId(0), ExprId(1))",
        ],
    );
    let src = "[ 1 2 ]";
    check_lower(
        SyntaxExpr::List {
            range: at(src, src, 0),
            elements: vec![integer(src, "1", 0), integer(src, "2", 0)],
        },
        &[
            "0: Literal(Int(1))",
            "1: Literal(Int(2))",
            "2: List([ExprId(0), ExprId(1)])",
        ],
    );
}

fn attrpath_b_c_d(src: &str) -> Vec<Attr> {
    vec![
        name_attr(src, "b", 0),
        Attr::String(string_node(src, "\"c\"", 0, vec![frag("c")])),
        Attr::Dynamic(dynamic(src, "${d}", 0, reference(src, "d", 0))),
    ]
}

#[test]
fn attrpath() {
    let src = "a.b.\"c\".${d} or e";
    check_lower(
        SyntaxExpr::Select {
            range: at(src, src, 0),
            set: some(reference(src, "a", 0)),
            attrpath: attrpath_b_c_d(src),
            default_expr: some(reference(src, "e", 0)),
        },
        &[
            "0: Reference(\"a\")",
            "1: Literal(String(\"b\"))",
            "2: StringInterpolation([])",
            "3: Reference(\"d\")",
            "4: Reference(\"e\")",
            "5: Select(ExprId(0), [ExprId(1), ExprId(2), ExprId(3)], Some(ExprId(4)))",
        ],
    );
    let src = "a?b.\"c\".${d}";
    check_lower(
        SyntaxExpr::HasAttr {
            range: at(src, src, 0),
            set: some(reference(src, "a", 0)),
            attrpath: attrpath_b_c_d(src),
        },
        &[
            "0: Reference(\"a\")",
            "1: Literal(String(\"b\"))",
            "2: StringInterpolation([])",
            "3: Reference(\"d\")",
            "4: HasAttr(ExprId(0), [ExprId(1), ExprId(2), ExprId(3)])",
        ],
    );
}

#[test]
fn attrset_key_kind() {
    let src = "{ a = 1; ${b} = 2; \"c\" = 3; ${((\"\\n\"))} = 4; }";
    let newline = SyntaxExpr::String(string_node(src, "\"\\n\"", 0, vec![esc("\\n")]));
    let nested = paren(src, "((\"\\n\"))", 0, paren(src, "(\"\\n\")", 0, newline));
    check_lower(
        attr_set(
            src,
            src,
            0,
            vec![
                path_value(src, "a = 1;", 0, vec![name_attr(src, "a", 0)], integer(src, "1", 0)),
                path_value(
                    src,
                    "${b} = 2;",
                    0,
                    vec![Attr::Dynamic(dynamic(src, "${b}", 0, reference(src, "b", 0)))],
                    integer(src, "2", 0),
                ),
                path_value(
                    src,
                    "\"c\" = 3;",
                    0,
                    vec![Attr::String(string_node(src, "\"c\"", 0, vec![frag("c")]))],
                    integer(src, "3", 0),
                ),
                path_value(
                    src,
                    "${((\"\\n\"))} = 4;",
                    0,
                    vec![Attr::Dynamic(dynamic(src, "${((\"\\n\"))}", 0, nested))],
                    integer(src, "4", 0),
                ),
            ],
        ),
        &[
            "0: Literal(Int(1))",
            "1: Reference(\"b\")",
            "2: Literal(Int(2))",
            "3: Literal(Int(3))",
            "4: Literal(Int(4))",
            "5: Attrset(Bindings { entries: [(Name(\"a\"), Expr(ExprId(0))), (Dynamic(ExprId(1)), Expr(ExprId(2))), (Name(\"c\"), Expr(ExprId(3))), (Name(\"\\n\"), Expr(ExprId(4)))], inherit_froms: [] })",
        ],
    );
}

#[test]
fn attrset_inherit() {
    let src = "{ inherit; inherit a \"b\" ${(\"c\")}; inherit (d); inherit (e) f g; }";
    let c = SyntaxExpr::String(string_node(src, "\"c\"", 0, vec![frag("c")]));
    check_lower(
        attr_set(
            src,
            src,
            0,
            vec![
                inherit(None, vec![]),
                inherit(
                    None,
                    vec![
                        name_attr(src, "a", 0),
                        Attr::String(string_node(src, "\"b\"", 0, vec![frag("b")])),
                        Attr::Dynamic(dynamic(src, "${(\"c\")}", 0, paren(src, "(\"c\")", 0, c))),
                    ],
                ),
                inherit(Some(reference(src, "d", 0)), vec![]),
                inherit(
                    Some(reference(src, "e", 4)),
                    vec![name_attr(src, "f", 0), name_attr(src, "g", 0)],
                ),
            ],
        ),
        &[
            "0: Reference(\"a\")",
            "1: Reference(\"b\")",
            "2: Reference(\"c\")",
            "3: Reference(\"d\")",
            "4: Reference(\"e\")",
            "5: Attrset(Bindings { entries: [(Name(\"a\"), Inherit(ExprId(0))), (Name(\"b\"), Inherit(ExprId(1))), (Name(\"c\"), Inherit(ExprId(2))), (Name(\"f\"), InheritFrom(1)), (Name(\"g\"), InheritFrom(1))], inherit_froms: [ExprId(3), ExprId(4)] })",
        ],
    );
}

const MERGED_B_C: [&str; 4] = [
    "0: Literal(Int(1))",
    "1: Literal(Int(2))",
    "2: Attrset(Bindings { entries: [(Name(\"b\"), Expr(ExprId(0))), (Name(\"c\"), Expr(ExprId(1)))], inherit_froms: [] })",
    "3: Attrset(Bindings { entries: [(Name(\"a\"), Expr(ExprId(2)))], inherit_froms: [] })",
];

/// `a.b = 1;`, where `a` is the occurrence number `nth` of that letter.
fn a_dot_b(src: &str, nth: usize) -> Binding {
    path_value(
        src,
        "a.b = 1;",
        0,
        vec![name_attr(src, "a", nth), name_attr(src, "b", 0)],
        integer(src, "1", 0),
    )
}

/// `a.c = 2;`, where `a` is the occurrence number `nth` of that letter.
fn a_dot_c(src: &str, nth: usize) -> Binding {
    path_value(
        src,
        "a.c = 2;",
        0,
        vec![name_attr(src, "a", nth), name_attr(src, "c", 0)],
        integer(src, "2", 0),
    )
}

/// `a = { b = 1; };`, where `a` is the occurrence number `nth` of that
/// letter; the inner set is recursive if `rec` says so.
fn a_is_b(src: &str, nth: usize, rec: bool) -> Binding {
    let inner = vec![path_value(src, "b = 1;", 0, vec![name_attr(src, "b", 0)], integer(src, "1", 0))];
    let (whole, set) = if rec {
        ("a = rec { b = 1; };", rec_set(src, "rec { b = 1; }", 0, inner))
    } else {
        ("a = { b = 1; };", attr_set(src, "{ b = 1; }", 0, inner))
    };
    path_value(src, whole, 0, vec![name_attr(src, "a", nth)], set)
}

/// `a = { c = 2; };`, where `a` is the occurrence number `nth` of that
/// letter; the inner set is recursive if `rec` says so.
fn a_is_c(src: &str, nth: usize, rec: bool) -> Binding {
    let inner = vec![path_value(src, "c = 2;", 0, vec![name_attr(src, "c", 0)], integer(src, "2", 0))];
    let (whole, set) = if rec {
        ("a = rec { c = 2; };", rec_set(src, "rec { c = 2; }", 0, inner))
    } else {
        ("a = { c = 2; };", attr_set(src, "{ c = 2; }", 0, inner))
    };
    path_value(src, whole, 0, vec![name_attr(src, "a", nth)], set)
}

#[test]
fn attrset_merge_non_rec() {
    // Path and path.
    let src = "{ a.b = 1; a.c = 2; }";
    check_lower(attr_set(src, src, 0, vec![a_dot_b(src, 0), a_dot_c(src, 1)]), &MERGED_B_C);
    // Path and attrset.
    let src = "{ a.b = 1; a = { c = 2; }; }";
    check_lower(attr_set(src, src, 0, vec![a_dot_b(src, 0), a_is_c(src, 1, false)]), &MERGED_B_C);
    // Attrset and path.
    let src = "{ a = { b = 1; }; a.c = 2; }";
    check_lower(attr_set(src, src, 0, vec![a_is_b(src, 0, false), a_dot_c(src, 1)]), &MERGED_B_C);
    // Attrset and attrset.
    let src = "{ a = { b = 1; }; a = { c = 2; }; }";
    check_lower(
        attr_set(src, src, 0, vec![a_is_b(src, 0, false), a_is_c(src, 1, false)]),
        &MERGED_B_C,
    );
}

#[test]
fn attrset_merge_rec() {
    // Rec and non-rec.
    let src = "{ a = rec { b = 1; }; a.c = 2; }";
    check_lower(
        attr_set(src, src, 0, vec![a_is_b(src, 0, true), a_dot_c(src, 1)]),
        &[
            "0: Literal(Int(1))",
            "1: Literal(Int(2))",
            "2: Attrset(Bindings { entries: [(NameDef(NameDefId(0)), Expr(ExprId(0))), (NameDef(NameDefId(1)), Expr(ExprId(1)))], inherit_froms: [] })",
            "3: Attrset(Bindings { entries: [(Name(\"a\"), Expr(ExprId(2)))], inherit_froms: [] })",
            "",
            "0: NameDef { name: \"b\" }",
            "1: NameDef { name: \"c\" }",
        ],
    );
    // Non-rec and rec.
    let src = "{ a = { b = 1; }; a = rec { c = 2; }; }";
    check_lower(
        attr_set(src, src, 0, vec![a_is_b(src, 0, false), a_is_c(src, 1, true)]),
        &MERGED_B_C,
    );
}

#[test]
fn attrset_rec_deep() {
    let src = "rec { a.b = 1; }";
    check_lower(
        rec_set(src, src, 0, vec![a_dot_b(src, 0)]),
        &[
            "0: Literal(Int(1))",
            "1: Attrset(Bindings { entries: [(Name(\"b\"), Expr(ExprId(0)))], inherit_froms: [] })",
            "2: Attrset(Bindings { entries: [(NameDef(NameDefId(0)), Expr(ExprId(1)))], inherit_froms: [] })",
            "",
            "0: NameDef { name: \"a\" }",
        ],
    );
}

#[test]
fn attrset_let() {
    let src = "{ a.b = let { c.d = 1; }; }";
    let inner = let_set(
        src,
        "let { c.d = 1; }",
        0,
        vec![path_value(
            src,
            "c.d = 1;",
            0,
            vec![name_attr(src, "c", 0), name_attr(src, "d", 0)],
            integer(src, "1", 0),
        )],
    );
    check_lower(
        attr_set(
            src,
            src,
            0,
            vec![path_value(
                src,
                "a.b = let { c.d = 1; };",
                0,
                vec![name_attr(src, "a", 0), name_attr(src, "b", 0)],
                inner,
            )],
        ),
        &[
            "0: Literal(Int(1))",
            "1: Attrset(Bindings { entries: [(Name(\"d\"), Expr(ExprId(0)))], inherit_froms: [] })",
            "2: LetAttrset(Bindings { entries: [(NameDef(NameDefId(0)), Expr(ExprId(1)))], inherit_froms: [] })",
            "3: Attrset(Bindings { entries: [(Name(\"b\"), Expr(ExprId(2)))], inherit_froms: [] })",
            "4: Attrset(Bindings { entries: [(Name(\"a\"), Expr(ExprId(3)))], inherit_froms: [] })",
            "",
            "0: NameDef { name: \"c\" }",
        ],
    );
}

#[test]
fn attrset_dynamic_no_merge() {
    let src = "{ ${a}.b = 1; ${a}.b = 2; }";
    let binding = |nth: usize, value: &str| {
        path_value(
            src,
            &format!("${{a}}.b = {};", value),
            0,
            vec![
                Attr::Dynamic(dynamic(src, "${a}", nth, reference(src, "a", nth))),
                name_attr(src, "b", nth),
            ],
            integer(src, value, 0),
        )
    };
    check_lower(
        attr_set(src, src, 0, vec![binding(0, "1"), binding(1, "2")]),
        &[
            "0: Reference(\"a\")",
            "1: Literal(Int(1))",
            "2: Reference(\"a\")",
            "3: Literal(Int(2))",
            "4: Attrset(Bindings { entries: [(Name(\"b\"), Expr(ExprId(1)))], inherit_froms: [] })",
            "5: Attrset(Bindings { entries: [(Name(\"b\"), Expr(ExprId(3)))], inherit_froms: [] })",
            "6: Attrset(Bindings { entries: [(Dynamic(ExprId(0)), Expr(ExprId(4))), (Dynamic(ExprId(2)), Expr(ExprId(5)))], inherit_froms: [] })",
        ],
    );
}

#[test]
fn invalid_dynamic_error() {
    let src = "let ${a} = 1; in 1";
    check_error(
        SyntaxExpr::LetIn {
            range: at(src, src, 0),
            bindings: vec![path_value(
                src,
                "${a} = 1;",
                0,
                vec![Attr::Dynamic(dynamic(src, "${a}", 0, reference(src, "a", 0)))],
                integer(src, "1", 0),
            )],
            body: some(integer(src, "1", 1)),
        },
        &["Diagnostic { range: 4..8, kind: InvalidDynamic }"],
    );
    let src = "{ inherit ${a}; }";
    check_error(
        attr_set(
            src,
            src,
            0,
            vec![inherit(
                None,
                vec![Attr::Dynamic(dynamic(src, "${a}", 0, reference(src, "a", 0)))],
            )],
        ),
        &["Diagnostic { range: 10..14, kind: InvalidDynamic }"],
    );
    let src = "{ inherit (a) ${a}; }";
    check_error(
        attr_set(
            src,
            src,
            0,
            vec![inherit(
                Some(reference(src, "a", 0)),
                vec![Attr::Dynamic(dynamic(src, "${a}", 0, reference(src, "a", 1)))],
            )],
        ),
        &["Diagnostic { range: 14..18, kind: InvalidDynamic }"],
    );
}

/// `a = value;`, where `a` is the occurrence number `nth` of that letter.
fn a_is(src: &str, nth: usize, value: &str, value_nth: usize) -> Binding {
    path_value(
        src,
        &format!("a = {};", value),
        0,
        vec![name_attr(src, "a", nth)],
        integer(src, value, value_nth),
    )
}

#[test]
fn attrset_merge_error() {
    // Value and value.
    let src = "{ a = 1; a = 2; }";
    check_error(
        attr_set(src, src, 0, vec![a_is(src, 0, "1", 0), a_is(src, 1, "2", 0)]),
        &[
            "Diagnostic { range: 2..3, kind: DuplicatedKey }",
            "Diagnostic { range: 9..10, kind: DuplicatedKey }",
        ],
    );
    // Set and value.
    let src = "{ a.b = 1; a = 2; }";
    check_error(
        attr_set(src, src, 0, vec![a_dot_b(src, 0), a_is(src, 1, "2", 0)]),
        &[
            "Diagnostic { range: 2..3, kind: DuplicatedKey }",
            "Diagnostic { range: 11..12, kind: DuplicatedKey }",
        ],
    );
    // Value and set.
    let src = "{ a = 1; a.b = 2; }";
    check_error(
        attr_set(
            src,
            src,
            0,
            vec![
                a_is(src, 0, "1", 0),
                path_value(
                    src,
                    "a.b = 2;",
                    0,
                    vec![name_attr(src, "a", 1), name_attr(src, "b", 0)],
                    integer(src, "2", 0),
                ),
            ],
        ),
        &[
            "Diagnostic { range: 2..3, kind: DuplicatedKey }",
            "Diagnostic { range: 9..10, kind: DuplicatedKey }",
        ],
    );
    // Inherit and value.
    let src = "{ inherit a; a = 1; }";
    check_error(
        attr_set(
            src,
            src,
            0,
            vec![inherit(None, vec![name_attr(src, "a", 0)]), a_is(src, 1, "1", 0)],
        ),
        &[
            "Diagnostic { range: 10..11, kind: DuplicatedKey }",
            "Diagnostic { range: 13..14, kind: DuplicatedKey }",
        ],
    );
    // Inherit-from and value.
    let src = "{ inherit (1) a; a = 1; }";
    check_error(
        attr_set(
            src,
            src,
            0,
            vec![
                inherit(Some(integer(src, "1", 0)), vec![name_attr(src, "a", 0)]),
                a_is(src, 1, "1", 1),
            ],
        ),
        &[
            "Diagnostic { range: 14..15, kind: DuplicatedKey }",
            "Diagnostic { range: 17..18, kind: DuplicatedKey }",
        ],
    );
}

#[test]
fn attrset_no_duplicated_duplicated_error() {
    let src = "{ a = 1; a = 2; a = 3; }";
    check_error(
        attr_set(
            src,
            src,
            0,
            vec![a_is(src, 0, "1", 0), a_is(src, 1, "2", 0), a_is(src, 2, "3", 0)],
        ),
        &[
            "Diagnostic { range: 2..3, kind: DuplicatedKey }",
            "Diagnostic { range: 9..10, kind: DuplicatedKey }",
            "Diagnostic { range: 16..17, kind: DuplicatedKey }",
        ],
    );
}

#[test]
fn attrset_malformed_no_panic() {
    // A set where a pattern was meant: its declarations lack a value or a
    // path, or both.
    let src = "{ } @ y: y { cc, extraPackages ? optional (cc.isGNU) }: 1";
    let is_gnu = SyntaxExpr::Select {
        range: at(src, "cc.isGNU", 0),
        set: some(reference(src, "cc", 1)),
        attrpath: vec![name_attr(src, "isGNU", 0)],
        default_expr: None,
    };
    let optional = SyntaxExpr::Apply {
        range: at(src, "optional (cc.isGNU)", 0),
        function: some(reference(src, "optional", 0)),
        argument: some(paren(src, "(cc.isGNU)", 0, is_gnu)),
    };
    let broken = attr_set(
        src,
        "{ cc, extraPackages ? optional (cc.isGNU) }",
        0,
        vec![
            Binding::AttrpathValue(AttrpathValueNode {
                range: at(src, "cc", 0),
                attrpath: vec![name_attr(src, "cc", 0)],
                value: None,
            }),
            Binding::AttrpathValue(AttrpathValueNode {
                range: at(src, ",", 0),
                attrpath: vec![],
                value: None,
            }),
            Binding::AttrpathValue(AttrpathValueNode {
                range: at(src, "extraPackages", 0),
                attrpath: vec![name_attr(src, "extraPackages", 0)],
                value: None,
            }),
            Binding::AttrpathValue(AttrpathValueNode {
                range: at(src, "? optional (cc.isGNU)", 0),
                attrpath: vec![],
                value: some(optional),
            }),
        ],
    );
    let body = SyntaxExpr::Apply {
        range: at(src, "y { cc, extraPackages ? optional (cc.isGNU) }", 0),
        function: some(reference(src, "y", 1)),
        argument: some(broken),
    };
    let root = SyntaxExpr::Lambda {
        range: at(src, src, 0),
        param: Some(ParamNode {
            name: Some(name(src, "y", 0)),
            pat: Some(PatNode { fields: vec![], ellipsis: false }),
        }),
        body: some(body),
    };
    let (_module, _source_map) = lower_root(root);
}

#[test]
fn source_map() {
    let src = "foo 123";
    let root = SyntaxExpr::Apply {
        range: at(src, src, 0),
        function: some(reference(src, "foo", 0)),
        argument: some(integer(src, "123", 0)),
    };
    let (module, source_map) = lower_root(root);

    assert_eq!(source_map.expr_node_count(), 3);
    let ptrs: Vec<AstPtr> = (0..module.expr_count())
        .map(|i| source_map.expr_node(ExprId(i as u32)).unwrap())
        .collect();
    assert_eq!(
        ptrs,
        vec![
            AstPtr::new(SyntaxKind::Ref, TextRange::new(0, 3)),
            AstPtr::new(SyntaxKind::Literal, TextRange::new(4, 7)),
            AstPtr::new(SyntaxKind::Apply, TextRange::new(0, 7)),
        ]
    );
    for (i, ptr) in ptrs.iter().enumerate() {
        assert_eq!(source_map.expr_map(*ptr), Some(ExprId(i as u32)));
    }
}
