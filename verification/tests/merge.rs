use nil::base::{FileId, InFile, TextRange};
use nil::diagnostic::{Diagnostic, DiagnosticKind, Severity};
use nil::ir::{BindingKey, BindingValue, Bindings, Expr, ExprId, Literal, NameDef, NameDefId};
use nil::lower::{lower, lower_if_fits, MergingSet};
use nil::module::{Module, ModuleSourceMap};
use nil::state::LowerCtx;
use nil::syntax::{
    AstPtr, Attr, AttrSetNode, AttrpathValueNode, Binding, DynamicNode, ExprChild, InheritNode,
    LiteralNode, LiteralToken, NameNode, ParamNode, SourceFile, StringNode, StringPart,
    SyntaxExpr, SyntaxKind,
};
use nil::weight::fits;

fn span(start: u32, text: &str) -> TextRange {
    TextRange::new(start, start + text.len() as u32)
}

fn some(e: SyntaxExpr) -> ExprChild {
    Some(Box::new(e))
}

fn number(start: u32, text: &str) -> SyntaxExpr {
    SyntaxExpr::Literal(LiteralNode {
        range: span(start, text),
        token: Some(LiteralToken::Int(text.to_string())),
    })
}

fn name_attr(start: u32, text: &str) -> Attr {
    Attr::Name(NameNode { range: span(start, text), text: Some(text.to_string()) })
}

fn declaration(start: u32, end: u32, attrpath: Vec<Attr>, value: SyntaxExpr) -> Binding {
    Binding::AttrpathValue(AttrpathValueNode {
        range: TextRange::new(start, end),
        attrpath,
        value: some(value),
    })
}

fn set_of(src: &str, rec_token: bool, bindings: Vec<Binding>) -> SyntaxExpr {
    SyntaxExpr::AttrSet(AttrSetNode {
        range: span(0, src),
        rec_token,
        let_token: false,
        bindings,
    })
}

fn lower_root(root: SyntaxExpr) -> (Module, ModuleSourceMap) {
    lower(InFile::new(FileId(0), SourceFile { expr: some(root) }))
}

fn exprs(module: &Module) -> Vec<Expr> {
    (0..module.expr_count()).map(|i| module.expr(ExprId(i as u32)).unwrap().clone()).collect()
}

fn name_defs(module: &Module) -> Vec<NameDef> {
    (0..module.name_def_count())
        .map(|i| module.name_def(NameDefId(i as u32)).unwrap().clone())
        .collect()
}

/// The handles of expressions that `bindings` refers to; checks on the way
/// that keys differ and that inherited names have their source.
fn handles_of(bindings: &Bindings, names: usize) -> Vec<ExprId> {
    let mut ids = bindings.inherit_froms.clone();
    for (i, (key, value)) in bindings.entries.iter().enumerate() {
        for (other, _) in &bindings.entries[..i] {
            assert_ne!(key, other);
        }
        match key {
            BindingKey::Dynamic(id) => ids.push(*id),
            BindingKey::NameDef(id) => assert!((id.0 as usize) < names),
            BindingKey::Name(_) => {}
        }
        match value {
            BindingValue::Expr(id) | BindingValue::Inherit(id) => ids.push(*id),
            BindingValue::InheritFrom(i) => assert!(*i < bindings.inherit_froms.len()),
        }
    }
    ids
}

/// Checks that every expression of `module` refers only to expressions
/// before it and to name definitions of the module.
fn assert_closed(module: &Module) {
    let names = module.name_def_count();
    assert!((module.entry_expr().0 as usize) < module.expr_count());
    for (i, expr) in exprs(module).iter().enumerate() {
        let ids: Vec<ExprId> = match expr {
            Expr::Missing | Expr::Reference(_) | Expr::Literal(_) => vec![],
            Expr::Lambda(name, pat, body) => {
                let mut ids = vec![*body];
                for id in name.iter() {
                    assert!((id.0 as usize) < names);
                }
                for pat in pat.iter() {
                    for (name, default) in &pat.fields {
                        for id in name.iter() {
                            assert!((id.0 as usize) < names);
                        }
                        ids.extend(default.iter());
                    }
                }
                ids
            }
            Expr::With(a, b) | Expr::Assert(a, b) | Expr::Apply(a, b) | Expr::Binary(_, a, b) => {
                vec![*a, *b]
            }
            Expr::IfThenElse(a, b, c) => vec![*a, *b, *c],
            Expr::Unary(_, a) => vec![*a],
            Expr::HasAttr(a, path) => path.iter().copied().chain([*a]).collect(),
            Expr::Select(a, path, default) => {
                path.iter().copied().chain([*a]).chain(default.iter().copied()).collect()
            }
            Expr::StringInterpolation(parts) | Expr::PathInterpolation(parts) => parts.clone(),
            Expr::List(elements) => elements.clone(),
            Expr::LetIn(bindings, body) => {
                handles_of(bindings, names).into_iter().chain([*body]).collect()
            }
            Expr::Attrset(bindings) | Expr::LetAttrset(bindings) => handles_of(bindings, names),
        };
        for id in ids {
            assert!((id.0 as usize) < i, "expression {} refers to {:?}", i, id);
        }
    }
}

fn bindings(entries: Vec<(BindingKey, BindingValue)>) -> Bindings {
    Bindings { entries, inherit_froms: vec![] }
}

fn text_key(name: &str) -> BindingKey {
    BindingKey::Name(name.to_string())
}

fn duplicated(start: u32, end: u32) -> Diagnostic {
    Diagnostic::new(TextRange::new(start, end), DiagnosticKind::DuplicatedKey)
}

#[test]
fn recursive_set_merges_by_name() {
    let src = "rec { a.b = 1; a.c = 2; }";
    let root = set_of(
        src,
        true,
        vec![
            declaration(6, 14, vec![name_attr(6, "a"), name_attr(8, "b")], number(12, "1")),
            declaration(15, 23, vec![name_attr(15, "a"), name_attr(17, "c")], number(21, "2")),
        ],
    );
    let (module, source_map) = lower_root(root);
    assert!(module.diagnostics().is_empty());
    assert_closed(&module);
    assert_eq!(
        exprs(&module),
        vec![
            Expr::Literal(Literal::Int(1)),
            Expr::Literal(Literal::Int(2)),
            Expr::Attrset(bindings(vec![
                (text_key("b"), BindingValue::Expr(ExprId(0))),
                (text_key("c"), BindingValue::Expr(ExprId(1))),
            ])),
            Expr::Attrset(bindings(vec![(
                BindingKey::NameDef(NameDefId(0)),
                BindingValue::Expr(ExprId(2))
            )])),
        ]
    );
    // Every occurrence of the name has a definition of its own.
    assert_eq!(
        name_defs(&module),
        vec![NameDef { name: "a".to_string() }, NameDef { name: "a".to_string() }]
    );
    assert_eq!(
        source_map.name_def_node(NameDefId(1)),
        Some(AstPtr::new(SyntaxKind::Name, TextRange::new(15, 16)))
    );
    assert_eq!(
        source_map.name_def_map(AstPtr::new(SyntaxKind::Name, TextRange::new(6, 7))),
        Some(NameDefId(0))
    );
    assert_eq!(source_map.name_def_node(NameDefId(2)), None);
}

#[test]
fn recursive_set_reports_duplicates() {
    let src = "rec { a = 1; a = 2; a = 3; }";
    let root = set_of(
        src,
        true,
        vec![
            declaration(6, 12, vec![name_attr(6, "a")], number(10, "1")),
            declaration(13, 19, vec![name_attr(13, "a")], number(17, "2")),
            declaration(20, 26, vec![name_attr(20, "a")], number(24, "3")),
        ],
    );
    let (module, _source_map) = lower_root(root);
    assert_eq!(
        module.diagnostics(),
        vec![duplicated(6, 7), duplicated(13, 14), duplicated(20, 21)]
    );
    // Only the first value is lowered.
    assert_eq!(module.expr_count(), 2);
    assert_eq!(module.name_def_count(), 3);
}

#[test]
fn order_of_independent_declarations() {
    let one = |a: u32, b: u32, c: u32, one: u32, two: u32| {
        vec![
            declaration(a, a + 8, vec![name_attr(a, "a"), name_attr(b, "b")], number(one, "1")),
            declaration(c, c + 6, vec![name_attr(c, "c")], number(two, "2")),
        ]
    };
    // { a.b = 1; c = 2; }
    let (first, _) = lower_root(set_of("{ a.b = 1; c = 2; }", false, one(2, 4, 11, 8, 15)));
    // { c = 2; a.b = 1; }
    let mut swapped = one(9, 11, 2, 15, 6);
    swapped.reverse();
    let (second, _) = lower_root(set_of("{ c = 2; a.b = 1; }", false, swapped));
    assert!(first.diagnostics().is_empty());
    assert!(second.diagnostics().is_empty());
    assert_eq!(
        exprs(&first),
        vec![
            Expr::Literal(Literal::Int(1)),
            Expr::Literal(Literal::Int(2)),
            Expr::Attrset(bindings(vec![(text_key("b"), BindingValue::Expr(ExprId(0)))])),
            Expr::Attrset(bindings(vec![
                (text_key("a"), BindingValue::Expr(ExprId(2))),
                (text_key("c"), BindingValue::Expr(ExprId(1))),
            ])),
        ]
    );
    assert_eq!(
        exprs(&second),
        vec![
            Expr::Literal(Literal::Int(2)),
            Expr::Literal(Literal::Int(1)),
            Expr::Attrset(bindings(vec![(text_key("b"), BindingValue::Expr(ExprId(1)))])),
            Expr::Attrset(bindings(vec![
                (text_key("c"), BindingValue::Expr(ExprId(0))),
                (text_key("a"), BindingValue::Expr(ExprId(2))),
            ])),
        ]
    );
}

#[test]
fn inherit_in_recursive_set() {
    let src = "rec { inherit a; }";
    let root = set_of(
        src,
        true,
        vec![Binding::Inherit(InheritNode { from_expr: None, attrs: vec![name_attr(14, "a")] })],
    );
    let (module, source_map) = lower_root(root);
    assert!(module.diagnostics().is_empty());
    assert_eq!(
        exprs(&module),
        vec![
            Expr::Reference("a".to_string()),
            Expr::Attrset(bindings(vec![(
                BindingKey::NameDef(NameDefId(0)),
                BindingValue::Inherit(ExprId(0))
            )])),
        ]
    );
    let ptr = AstPtr::new(SyntaxKind::Name, TextRange::new(14, 15));
    assert_eq!(source_map.expr_map(ptr), Some(ExprId(0)));
    assert_eq!(source_map.name_def_map(ptr), Some(NameDefId(0)));
    assert_eq!(source_map.expr_node(ExprId(0)), Some(ptr));
    assert_eq!(source_map.expr_node(ExprId(7)), None);
}

#[test]
fn inherit_twice_is_duplicated() {
    let src = "{ inherit a; inherit a; }";
    let root = set_of(
        src,
        false,
        vec![
            Binding::Inherit(InheritNode { from_expr: None, attrs: vec![name_attr(10, "a")] }),
            Binding::Inherit(InheritNode { from_expr: None, attrs: vec![name_attr(21, "a")] }),
        ],
    );
    let (module, _source_map) = lower_root(root);
    assert_eq!(module.diagnostics(), vec![duplicated(10, 11), duplicated(21, 22)]);
    assert_eq!(module.expr_count(), 2);
}

#[test]
fn declaration_without_path_is_kept() {
    // `{ = 1; }`: the value has no key to go under.
    let src = "{ = 1; }";
    let root = set_of(
        src,
        false,
        vec![Binding::AttrpathValue(AttrpathValueNode {
            range: TextRange::new(2, 6),
            attrpath: vec![],
            value: some(number(4, "1")),
        })],
    );
    let (module, source_map) = lower_root(root);
    assert!(module.diagnostics().is_empty());
    assert_eq!(
        exprs(&module),
        vec![
            Expr::Literal(Literal::Int(1)),
            Expr::Missing,
            Expr::Attrset(bindings(vec![(
                BindingKey::Dynamic(ExprId(1)),
                BindingValue::Expr(ExprId(0))
            )])),
        ]
    );
    assert_eq!(
        source_map.expr_node(ExprId(1)),
        Some(AstPtr::new(SyntaxKind::AttrPathValue, TextRange::new(2, 6)))
    );
}

#[test]
fn value_gives_way_to_set() {
    // `{ a = 1; a.b = 2; }`: the first value is kept aside in the set that
    // takes its place.
    let src = "{ a = 1; a.b = 2; }";
    let root = set_of(
        src,
        false,
        vec![
            declaration(2, 8, vec![name_attr(2, "a")], number(6, "1")),
            declaration(9, 17, vec![name_attr(9, "a"), name_attr(11, "b")], number(15, "2")),
        ],
    );
    let (module, _source_map) = lower_root(root);
    assert_closed(&module);
    assert_eq!(module.diagnostics(), vec![duplicated(2, 3), duplicated(9, 10)]);
    assert_eq!(
        exprs(&module),
        vec![
            Expr::Literal(Literal::Int(1)),
            Expr::Missing,
            Expr::Literal(Literal::Int(2)),
            Expr::Attrset(bindings(vec![
                (BindingKey::Dynamic(ExprId(1)), BindingValue::Expr(ExprId(0))),
                (text_key("b"), BindingValue::Expr(ExprId(2))),
            ])),
            Expr::Attrset(bindings(vec![(text_key("a"), BindingValue::Expr(ExprId(3)))])),
        ]
    );
}

#[test]
fn absent_children_get_placeholders() {
    let root = SyntaxExpr::Apply { range: TextRange::new(0, 1), function: None, argument: None };
    let (module, source_map) = lower_root(root);
    assert_eq!(
        exprs(&module),
        vec![Expr::Missing, Expr::Missing, Expr::Apply(ExprId(0), ExprId(1))]
    );
    assert_eq!(module.entry_expr(), ExprId(2));
    assert_eq!(source_map.expr_node_count(), 1);
    assert_eq!(source_map.expr_node(ExprId(0)), None);

    let (module, _source_map) = lower(InFile::new(FileId(3), SourceFile { expr: None }));
    assert_eq!(exprs(&module), vec![Expr::Missing]);
    assert_eq!(module.entry_expr(), ExprId(0));
    assert_eq!(module.expr(ExprId(1)), None);
    assert_eq!(module.name_def(NameDefId(0)), None);
}

#[test]
fn malformed_integer_is_missing() {
    let (module, _source_map) = lower_root(number(0, "99999999999999999999"));
    assert!(module.diagnostics().is_empty());
    assert_eq!(exprs(&module), vec![Expr::Missing]);

    let (module, _source_map) = lower_root(number(0, "9223372036854775807"));
    assert_eq!(exprs(&module), vec![Expr::Literal(Literal::Int(i64::MAX))]);

    let (module, _source_map) = lower_root(number(0, "12x"));
    assert_eq!(exprs(&module), vec![Expr::Missing]);

    let literal = SyntaxExpr::Literal(LiteralNode { range: TextRange::new(0, 0), token: None });
    let (module, _source_map) = lower_root(literal);
    assert_eq!(exprs(&module), vec![Expr::Missing]);
}

#[test]
fn string_key_is_unescaped() {
    // { "a\tb\"" = 1; ${"x${y}"} = 2; }
    let key = StringNode {
        range: TextRange::new(2, 10),
        parts: vec![
            StringPart::Fragment("a".to_string()),
            StringPart::Escape("\\t".to_string()),
            StringPart::Fragment("b".to_string()),
            StringPart::Escape("\\\"".to_string()),
            StringPart::Escape("\\r".to_string()),
        ],
    };
    let interpolated = StringNode {
        range: TextRange::new(18, 25),
        parts: vec![
            StringPart::Fragment("x".to_string()),
            StringPart::Dynamic(DynamicNode {
                range: TextRange::new(20, 24),
                expr: some(SyntaxExpr::Ref {
                    range: TextRange::new(22, 23),
                    name: Some("y".to_string()),
                }),
            }),
        ],
    };
    let root = set_of(
        "{ \"a\\tb\\\"\" = 1; ${\"x${y}\"} = 2; }",
        false,
        vec![
            declaration(2, 15, vec![Attr::String(key)], number(13, "1")),
            declaration(
                16,
                31,
                vec![Attr::Dynamic(DynamicNode {
                    range: TextRange::new(16, 26),
                    expr: some(SyntaxExpr::String(interpolated)),
                })],
                number(29, "2"),
            ),
        ],
    );
    let (module, _source_map) = lower_root(root);
    assert!(module.diagnostics().is_empty());
    assert_closed(&module);
    assert_eq!(
        exprs(&module),
        vec![
            Expr::Literal(Literal::Int(1)),
            Expr::Reference("y".to_string()),
            Expr::StringInterpolation(vec![ExprId(1)]),
            Expr::Literal(Literal::Int(2)),
            Expr::Attrset(bindings(vec![
                (text_key("a\tb\"\r"), BindingValue::Expr(ExprId(0))),
                (BindingKey::Dynamic(ExprId(2)), BindingValue::Expr(ExprId(3))),
            ])),
        ]
    );
}

#[test]
fn lambda_name_is_recorded() {
    let root = SyntaxExpr::Lambda {
        range: TextRange::new(0, 4),
        param: Some(ParamNode {
            name: Some(NameNode { range: TextRange::new(0, 1), text: Some("a".to_string()) }),
            pat: None,
        }),
        body: some(number(3, "0")),
    };
    let (module, source_map) = lower_root(root);
    let ptr = AstPtr::new(SyntaxKind::Name, TextRange::new(0, 1));
    assert_eq!(ptr.text_range(), TextRange::new(0, 1));
    assert_eq!(source_map.name_def_map(ptr), Some(NameDefId(0)));
    assert_eq!(source_map.name_def_node(NameDefId(0)), Some(ptr));
    assert_eq!(source_map.name_def_map(AstPtr::new(SyntaxKind::Ref, TextRange::new(0, 1))), None);
    assert_eq!(source_map.expr_map(ptr), None);
    assert_eq!(module.name_def(NameDefId(0)), Some(&NameDef { name: "a".to_string() }));
}

#[test]
fn diagnostics_are_errors() {
    let invalid = Diagnostic::new(TextRange::new(4, 8), DiagnosticKind::InvalidDynamic);
    let duplicate = duplicated(2, 3);
    assert_eq!(invalid.severity(), Severity::Error);
    assert_eq!(duplicate.severity(), Severity::Error);
    assert_eq!(invalid.message(), "Invalid usage of dynamic attributes");
    assert_eq!(duplicate.message(), "Duplicated name definition");
    assert_ne!(Severity::Error, Severity::IncompleteSyntax);
}

#[test]
fn small_trees_fit() {
    let root = some(number(0, "1"));
    assert!(fits(&root));
    assert!(fits(&None));
    let lowered = lower_if_fits(InFile::new(FileId(1), SourceFile { expr: root }));
    let (module, _source_map) = lowered.unwrap();
    assert_eq!(exprs(&module), vec![Expr::Literal(Literal::Int(1))]);
}

#[test]
fn merging_step_by_step() {
    // a = 1; a = 2; merged by hand into a set that is then finished.
    let mut ctx = LowerCtx::new(FileId(0));
    let mut set = MergingSet::new(false);
    assert!(!set.is_rec());
    let first = declaration(0, 6, vec![name_attr(0, "a")], number(4, "1"));
    let second = declaration(7, 13, vec![name_attr(7, "a")], number(11, "2"));
    set.merge_binding(&mut ctx, &first, true);
    set.merge_binding(&mut ctx, &second, true);
    let finished = set.finish(&mut ctx);
    assert_eq!(finished, bindings(vec![(text_key("a"), BindingValue::Expr(ExprId(0)))]));
    let (module, _source_map) = ctx.finish(ExprId(0));
    assert_eq!(module.diagnostics(), vec![duplicated(0, 1), duplicated(7, 8)]);
    assert_eq!(module.expr_count(), 1);
}

#[test]
fn alloc_expr_hands_out_handles_in_order() {
    let mut ctx = LowerCtx::new(FileId(2));
    assert_eq!(ctx.file_id(), FileId(2));
    let first = AstPtr::new(SyntaxKind::Ref, TextRange::new(0, 1));
    let second = AstPtr::new(SyntaxKind::Literal, TextRange::new(2, 3));
    assert_eq!(ctx.alloc_expr(Expr::Reference("a".to_string()), first), ExprId(0));
    assert_eq!(ctx.alloc_missing(), ExprId(1));
    assert_eq!(ctx.alloc_expr(Expr::Literal(Literal::Int(7)), second), ExprId(2));
    assert_eq!(ctx.alloc_name_def("n".to_string(), first), NameDefId(0));
    assert_eq!(ctx.name_of(NameDefId(0)), "n");
    // The same node again: the later handle is the one that the node leads to.
    assert_eq!(ctx.alloc_expr(Expr::Missing, first), ExprId(3));
    ctx.diagnostic(TextRange::new(0, 1), DiagnosticKind::InvalidDynamic);
    let (module, source_map) = ctx.finish(ExprId(2));
    assert_eq!(module.entry_expr(), ExprId(2));
    assert_eq!(
        exprs(&module),
        vec![
            Expr::Reference("a".to_string()),
            Expr::Missing,
            Expr::Literal(Literal::Int(7)),
            Expr::Missing,
        ]
    );
    assert_eq!(source_map.expr_map(first), Some(ExprId(3)));
    assert_eq!(source_map.expr_map(second), Some(ExprId(2)));
    assert_eq!(source_map.expr_node(ExprId(0)), Some(first));
    assert_eq!(source_map.expr_node(ExprId(1)), None);
    assert_eq!(source_map.expr_node(ExprId(3)), Some(first));
    assert_eq!(source_map.name_def_map(first), Some(NameDefId(0)));
    assert_eq!(source_map.expr_node_count(), 3);
    assert_eq!(
        module.diagnostics(),
        vec![Diagnostic::new(TextRange::new(0, 1), DiagnosticKind::InvalidDynamic)]
    );
}

#[test]
fn keys_in_recursive_and_plain_sets() {
    let mut ctx = LowerCtx::new(FileId(0));
    let plain = ctx.lower_key(false, &name_attr(0, "a"));
    assert_eq!(plain, text_key("a"));
    assert_eq!(ctx.key_name(&plain), Some("a".to_string()));
    let recursive = ctx.lower_key(true, &name_attr(0, "a"));
    assert_eq!(recursive, BindingKey::NameDef(NameDefId(0)));
    assert_eq!(ctx.key_name(&recursive), Some("a".to_string()));
    let dynamic = Attr::Dynamic(DynamicNode {
        range: TextRange::new(2, 6),
        expr: some(SyntaxExpr::Ref { range: TextRange::new(4, 5), name: Some("b".to_string()) }),
    });
    let key = ctx.lower_key(true, &dynamic);
    assert_eq!(key, BindingKey::Dynamic(ExprId(0)));
    assert_eq!(ctx.key_name(&key), None);
}

#[test]
fn lowered_modules_are_closed() {
    // let inherit (x) a; ${b} = [ 1 ]; in f: a { inherit f; c.d = f; c = { e = 2; }; }
    let reference = |start: u32, name: &str| SyntaxExpr::Ref {
        range: span(start, name),
        name: Some(name.to_string()),
    };
    let inner = set_of(
        "{ inherit f; c.d = f; c = { e = 2; }; }",
        false,
        vec![
            Binding::Inherit(InheritNode { from_expr: None, attrs: vec![name_attr(10, "f")] }),
            declaration(
                13,
                21,
                vec![name_attr(13, "c"), name_attr(15, "d")],
                reference(19, "f"),
            ),
            declaration(
                22,
                37,
                vec![name_attr(22, "c")],
                SyntaxExpr::AttrSet(AttrSetNode {
                    range: TextRange::new(26, 36),
                    rec_token: false,
                    let_token: false,
                    bindings: vec![declaration(28, 34, vec![name_attr(28, "e")], number(32, "2"))],
                }),
            ),
        ],
    );
    let body = SyntaxExpr::Lambda {
        range: TextRange::new(50, 100),
        param: Some(ParamNode {
            name: Some(NameNode { range: TextRange::new(50, 51), text: Some("f".to_string()) }),
            pat: None,
        }),
        body: some(SyntaxExpr::Apply {
            range: TextRange::new(53, 100),
            function: some(reference(53, "a")),
            argument: some(inner),
        }),
    };
    let root = SyntaxExpr::LetIn {
        range: TextRange::new(0, 100),
        bindings: vec![
            Binding::Inherit(InheritNode {
                from_expr: Some(nil::syntax::InheritFromNode { expr: some(reference(13, "x")) }),
                attrs: vec![name_attr(16, "a")],
            }),
            declaration(
                19,
                33,
                vec![Attr::Dynamic(DynamicNode {
                    range: TextRange::new(19, 23),
                    expr: some(reference(21, "b")),
                })],
                SyntaxExpr::List { range: TextRange::new(26, 31), elements: vec![number(28, "1")] },
            ),
        ],
        body: some(body),
    };
    let (module, source_map) = lower_root(root);
    assert_closed(&module);
    assert_eq!(
        module.diagnostics(),
        vec![Diagnostic::new(TextRange::new(19, 23), DiagnosticKind::InvalidDynamic)]
    );
    // Every node that the map knows leads to its handle and back.
    for i in 0..module.expr_count() {
        let id = ExprId(i as u32);
        if let Some(ptr) = source_map.expr_node(id) {
            let back = source_map.expr_map(ptr).unwrap();
            assert_eq!(source_map.expr_node(back), Some(ptr));
        }
    }
}
