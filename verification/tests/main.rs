use sdl_parser::ast::{ASTKind, Template, TemplateKind, AST};
use sdl_parser::cst::{CstNode, RuleTag};
use sdl_parser::errors::ParseError;
use sdl_parser::parser::ParserConfig;
use sdl_parser::climb::{op_precedence, op_right_assoc};
use sdl_parser::range::{box_range, TextRange};

fn rng(start: usize, end: usize) -> TextRange {
    TextRange { start, end }
}

fn zero() -> TextRange {
    TextRange { start: 0, end: 0 }
}

fn node(rule: RuleTag, range: TextRange, text: &str, children: Vec<CstNode>) -> CstNode {
    CstNode { rule, range, text: text.to_string(), children }
}

/// A `term -> chain_call -> data -> Symbol` chain naming one identifier,
/// with degenerate spans throughout.
fn sym_term(name: &str) -> CstNode {
    node(
        RuleTag::Term,
        zero(),
        name,
        vec![node(
            RuleTag::ChainCall,
            zero(),
            name,
            vec![node(
                RuleTag::Data,
                zero(),
                name,
                vec![node(
                    RuleTag::Symbol,
                    zero(),
                    name,
                    vec![node(RuleTag::SymbolSegment, zero(), name, vec![])],
                )],
            )],
        )],
    )
}

/// The expected AST for a bare identifier built with degenerate spans.
fn sym_ast(name: &str) -> AST {
    AST::Symbol {
        children: vec![AST::Text { value: name.to_string(), r: None }],
        r: None,
    }
}

fn op_node(text: &str) -> CstNode {
    node(RuleTag::Operator, zero(), text, vec![])
}

fn config() -> ParserConfig {
    ParserConfig::default()
}

#[test]
fn ready() {
    println!("it works!")
}

// ------------------------------------------------------------------
// Preprocessor
// ------------------------------------------------------------------

#[test]
fn tab_expansion() {
    let cfg = ParserConfig { tab_size: 2, file_url: None, max_depth: 255 };
    assert_eq!(cfg.normalize("a\tb"), "a  b");
}

#[test]
fn tab_expansion_default_width() {
    let cfg = config();
    assert_eq!(cfg.normalize("x\ty"), "x    y");
}

#[test]
fn crlf_normalized() {
    let cfg = config();
    assert_eq!(cfg.normalize("a\r\nb\r\nc"), "a\nb\nc");
}

#[test]
fn continuation_spliced() {
    let cfg = config();
    assert_eq!(cfg.normalize("a\\\nb"), "ab");
}

#[test]
fn normalize_already_normal_unchanged() {
    let cfg = config();
    assert_eq!(cfg.normalize("let x = 1\nlet y = 2\n"), "let x = 1\nlet y = 2\n");
}

#[test]
fn normalize_order_is_fixed() {
    // the continuation splice runs after the line-ending pass, so a
    // backslash before CRLF is spliced too
    let cfg = config();
    assert_eq!(cfg.normalize("a\\\r\nb"), "ab");
}

// ------------------------------------------------------------------
// Precedence resolution
// ------------------------------------------------------------------

#[test]
fn precedence_mul_outranks_add() {
    let terms = vec![sym_ast("a"), sym_ast("b"), sym_ast("c")];
    let ops = vec!["+".to_string(), "*".to_string()];
    let got = sdl_parser::climb::climb(&terms, &ops, zero());
    let expected = AST::InfixExpression {
        op: "+".to_string(),
        lhs: Box::new(sym_ast("a")),
        rhs: Box::new(AST::InfixExpression {
            op: "*".to_string(),
            lhs: Box::new(sym_ast("b")),
            rhs: Box::new(sym_ast("c")),
            r: None,
        }),
        r: None,
    };
    assert_eq!(got, expected);
}

#[test]
fn precedence_left_assoc_sub() {
    let terms = vec![sym_ast("a"), sym_ast("b"), sym_ast("c")];
    let ops = vec!["-".to_string(), "-".to_string()];
    let got = sdl_parser::climb::climb(&terms, &ops, zero());
    let expected = AST::InfixExpression {
        op: "-".to_string(),
        lhs: Box::new(AST::InfixExpression {
            op: "-".to_string(),
            lhs: Box::new(sym_ast("a")),
            rhs: Box::new(sym_ast("b")),
            r: None,
        }),
        rhs: Box::new(sym_ast("c")),
        r: None,
    };
    assert_eq!(got, expected);
}

#[test]
fn precedence_right_assoc_assignment() {
    let terms = vec![sym_ast("a"), sym_ast("b"), sym_ast("c")];
    let ops = vec!["=".to_string(), "=".to_string()];
    let got = sdl_parser::climb::climb(&terms, &ops, zero());
    let expected = AST::InfixExpression {
        op: "=".to_string(),
        lhs: Box::new(sym_ast("a")),
        rhs: Box::new(AST::InfixExpression {
            op: "=".to_string(),
            lhs: Box::new(sym_ast("b")),
            rhs: Box::new(sym_ast("c")),
            r: None,
        }),
        r: None,
    };
    assert_eq!(got, expected);
}

#[test]
fn precedence_through_expr_rule() {
    let cfg = config();
    let expr = node(
        RuleTag::Expr,
        zero(),
        "a + b * c",
        vec![sym_term("a"), op_node("+"), sym_term("b"), op_node("*"), sym_term("c")],
    );
    let got = cfg.parse_expr(&expr, 255).unwrap();
    match got {
        AST::InfixExpression { op, lhs, rhs, .. } => {
            assert_eq!(op, "+");
            assert_eq!(*lhs, sym_ast("a"));
            match *rhs {
                AST::InfixExpression { op, .. } => assert_eq!(op, "*"),
                _ => panic!("expected nested infix"),
            }
        },
        _ => panic!("expected infix root"),
    }
}

// ------------------------------------------------------------------
// For-in loops
// ------------------------------------------------------------------

fn for_in_cst() -> CstNode {
    node(
        RuleTag::ForStatement,
        zero(),
        "for x in items { x }",
        vec![
            node(
                RuleTag::Pattern,
                zero(),
                "x",
                vec![node(
                    RuleTag::Symbol,
                    zero(),
                    "x",
                    vec![node(RuleTag::SymbolSegment, zero(), "x", vec![])],
                )],
            ),
            node(RuleTag::Expr, zero(), "items", vec![sym_term("items")]),
            node(
                RuleTag::Block,
                zero(),
                "{ x }",
                vec![node(
                    RuleTag::Statement,
                    zero(),
                    "x",
                    vec![node(
                        RuleTag::Expression,
                        zero(),
                        "x",
                        vec![node(RuleTag::Expr, zero(), "x", vec![sym_term("x")])],
                    )],
                )],
            ),
        ],
    )
}

#[test]
fn for_in_loop_shape() {
    let cfg = config();
    let got = cfg.parse_for_in(&for_in_cst(), 255).unwrap();
    let expected = AST::ForInLoop {
        pattern: Box::new(sym_ast("x")),
        terms: Box::new(sym_ast("items")),
        block: Box::new(AST::Block {
            children: vec![AST::Statement {
                children: vec![AST::Expression {
                    children: vec![sym_ast("x")],
                    eos: false,
                    r: None,
                }],
                r: None,
            }],
            r: None,
        }),
        r: None,
    };
    assert_eq!(got, expected);
}

#[test]
fn expression_terminator_flag() {
    let cfg = config();
    let with_eos = node(
        RuleTag::Expression,
        zero(),
        "x;",
        vec![
            node(RuleTag::Expr, zero(), "x", vec![sym_term("x")]),
            node(RuleTag::Eos, zero(), ";", vec![]),
        ],
    );
    match cfg.parse_expression(&with_eos, 255).unwrap() {
        AST::Expression { eos, .. } => assert!(eos),
        _ => panic!("expected expression"),
    }
}

// ------------------------------------------------------------------
// Templates
// ------------------------------------------------------------------

fn html_pair(key: &str, value: &str) -> CstNode {
    node(
        RuleTag::HtmlPair,
        zero(),
        key,
        vec![
            node(RuleTag::BadSymbol, zero(), key, vec![]),
            node(RuleTag::SetSign, zero(), "=", vec![]),
            node(
                RuleTag::Term,
                zero(),
                value,
                vec![node(
                    RuleTag::ChainCall,
                    zero(),
                    value,
                    vec![node(
                        RuleTag::Data,
                        zero(),
                        value,
                        vec![node(RuleTag::StringLit, zero(), value, vec![])],
                    )],
                )],
            ),
        ],
    )
}

fn text_leaf(value: &str) -> AST {
    AST::Text { value: value.to_string(), r: None }
}

#[test]
fn self_closing_template() {
    let cfg = config();
    let tmpl = node(
        RuleTag::Template,
        zero(),
        "<img src=\"a.png\" alt=\"x\"/>",
        vec![node(
            RuleTag::SelfClose,
            zero(),
            "<img src=\"a.png\" alt=\"x\"/>",
            vec![
                node(
                    RuleTag::Symbol,
                    zero(),
                    "img",
                    vec![node(RuleTag::SymbolSegment, zero(), "img", vec![])],
                ),
                html_pair("src", "a.png"),
                html_pair("alt", "x"),
            ],
        )],
    );
    let got = cfg.parse_template(&tmpl, 255).unwrap();
    let expected = AST::Template {
        template: Box::new(Template {
            variant: TemplateKind::SelfClose,
            tag: sym_ast("img"),
            attributes: vec![],
            arguments: vec![
                (text_leaf("src"), text_leaf("a.png")),
                (text_leaf("alt"), text_leaf("x")),
            ],
            children: vec![],
        }),
        r: None,
    };
    assert_eq!(got, expected);
}

#[test]
fn malformed_tag_is_tolerated() {
    let cfg = config();
    // an unterminated tag-like fragment: a tag name, one bare attribute,
    // and garbage the parser cannot place
    let bad = node(
        RuleTag::Template,
        zero(),
        "<img rel",
        vec![node(
            RuleTag::HtmlBad,
            zero(),
            "<img rel",
            vec![
                node(RuleTag::HtmlBadSymbol, zero(), "img", vec![node(
                    RuleTag::SymbolSegment,
                    zero(),
                    "img",
                    vec![],
                )]),
                node(
                    RuleTag::BadSymbol,
                    zero(),
                    "rel",
                    vec![node(RuleTag::SymbolSegment, zero(), "rel", vec![])],
                ),
                node(RuleTag::TextChar, zero(), "<", vec![]),
            ],
        )],
    );
    let got = cfg.parse_template(&bad, 255).unwrap();
    match got {
        AST::Template { template, .. } => {
            assert_eq!(template.variant, TemplateKind::HtmlBad);
            assert_eq!(template.tag, sym_ast("img"));
            assert_eq!(template.attributes, vec![sym_ast("rel")]);
        },
        _ => panic!("expected template"),
    }
}

fn stmt_of_expr(inner: CstNode, text: &str) -> CstNode {
    node(
        RuleTag::Statement,
        zero(),
        text,
        vec![node(
            RuleTag::Expression,
            zero(),
            text,
            vec![node(RuleTag::Expr, zero(), text, vec![inner])],
        )],
    )
}

fn term_of_template(tmpl: CstNode, text: &str) -> CstNode {
    node(
        RuleTag::Term,
        zero(),
        text,
        vec![node(
            RuleTag::ChainCall,
            zero(),
            text,
            vec![node(RuleTag::Data, zero(), text, vec![tmpl])],
        )],
    )
}

#[test]
fn malformed_tag_keeps_siblings() {
    let cfg = config();
    let bad_tmpl = node(
        RuleTag::Template,
        zero(),
        "<oops",
        vec![node(RuleTag::HtmlBad, zero(), "<oops", vec![])],
    );
    let program = node(
        RuleTag::Program,
        zero(),
        "",
        vec![
            stmt_of_expr(sym_term("before"), "before"),
            stmt_of_expr(term_of_template(bad_tmpl, "<oops"), "<oops"),
            stmt_of_expr(sym_term("after"), "after"),
        ],
    );
    let got = cfg.parse(Ok(program)).unwrap();
    let children = got.children();
    assert_eq!(children.len(), 3);
    assert_eq!(children[0].kind(), ASTKind::Statement);
    assert_eq!(children[2].kind(), ASTKind::Statement);
    // the siblings come out exactly as they would without the fragment
    let without = node(
        RuleTag::Program,
        zero(),
        "",
        vec![
            stmt_of_expr(sym_term("before"), "before"),
            stmt_of_expr(sym_term("after"), "after"),
        ],
    );
    let alone = cfg.parse(Ok(without)).unwrap().children();
    assert_eq!(children[0], alone[0]);
    assert_eq!(children[2], alone[1]);
}

// ------------------------------------------------------------------
// Failure behaviour
// ------------------------------------------------------------------

#[test]
fn syntax_error_is_fail_closed() {
    let cfg = config();
    let e = ParseError::Syntax { message: "expected statement".to_string(), start: 3, end: 7 };
    assert_eq!(cfg.parse(Err(e.clone())), Err(e));
}

#[test]
fn untranslated_rule_is_reported() {
    let cfg = config();
    let stmt = node(
        RuleTag::Statement,
        rng(2, 9),
        "mystery",
        vec![node(RuleTag::Other, rng(2, 9), "mystery", vec![])],
    );
    let got = cfg.parse_statement(&stmt, 255);
    assert_eq!(
        got,
        Err(ParseError::UntranslatedRule { rule: "unknown".to_string(), start: 2, end: 9 })
    );
}

#[test]
fn nesting_bound_is_enforced() {
    let cfg = ParserConfig { tab_size: 4, file_url: None, max_depth: 3 };
    let program = node(
        RuleTag::Program,
        rng(0, 1),
        "x",
        vec![stmt_of_expr(sym_term("x"), "x")],
    );
    match cfg.parse(Ok(program)) {
        Err(ParseError::NestingTooDeep { .. }) => {},
        other => panic!("expected nesting error, got {:?}", other),
    }
}

#[test]
fn empty_symbol_is_rejected() {
    let cfg = config();
    let sym = node(RuleTag::Symbol, rng(1, 4), "", vec![]);
    match cfg.parse_symbol(&sym, 255) {
        Err(ParseError::UntranslatedRule { .. }) => {},
        other => panic!("expected error, got {:?}", other),
    }
}

// ------------------------------------------------------------------
// Determinism and span containment, on concrete input
// ------------------------------------------------------------------

#[test]
fn parse_is_deterministic() {
    let cfg = config();
    let a = cfg.parse_for_in(&for_in_cst(), 255).unwrap();
    let b = cfg.parse_for_in(&for_in_cst(), 255).unwrap();
    assert_eq!(a, b);
}

#[test]
fn spans_are_contained() {
    let cfg = config();
    let stmt = node(
        RuleTag::Statement,
        rng(0, 10),
        "x",
        vec![node(
            RuleTag::Expression,
            rng(2, 8),
            "x",
            vec![node(
                RuleTag::Expr,
                rng(3, 7),
                "x",
                vec![node(
                    RuleTag::Term,
                    rng(3, 7),
                    "x",
                    vec![node(
                        RuleTag::ChainCall,
                        rng(3, 7),
                        "x",
                        vec![node(
                            RuleTag::Data,
                            rng(3, 7),
                            "x",
                            vec![node(
                                RuleTag::Symbol,
                                rng(3, 7),
                                "x",
                                vec![node(RuleTag::SymbolSegment, rng(4, 6), "x", vec![])],
                            )],
                        )],
                    )],
                )],
            )],
        )],
    );
    assert!(sdl_parser::cst::well_nested(&stmt));
    let got = cfg.parse_statement(&stmt, 255).unwrap();
    let outer = got.range();
    assert_eq!(outer, rng(0, 10));
    for child in got.children() {
        let r = child.range();
        assert!(outer.start <= r.start && r.end <= outer.end);
    }
}

// ------------------------------------------------------------------
// Data leaves and accessors
// ------------------------------------------------------------------

#[test]
fn special_values() {
    let cfg = config();
    assert_eq!(
        cfg.parse_special(&node(RuleTag::SpecialValue, zero(), "true", vec![])),
        AST::Boolean { value: true, r: None }
    );
    assert_eq!(
        cfg.parse_special(&node(RuleTag::SpecialValue, zero(), "false", vec![])),
        AST::Boolean { value: false, r: None }
    );
    assert_eq!(
        cfg.parse_special(&node(RuleTag::SpecialValue, zero(), "none", vec![])),
        AST::Null { r: None }
    );
}

#[test]
fn number_kept_as_text() {
    let cfg = config();
    let got = cfg.parse_number(&node(RuleTag::NumberLit, rng(0, 4), "1.25", vec![]));
    assert_eq!(got.kind(), ASTKind::Integer("1.25".to_string()));
}

#[test]
fn list_drops_separators() {
    let cfg = config();
    let list = node(
        RuleTag::List,
        zero(),
        "[a, b]",
        vec![
            node(RuleTag::Expr, zero(), "a", vec![sym_term("a")]),
            node(RuleTag::Comma, zero(), ",", vec![]),
            node(RuleTag::Whitespace, zero(), " ", vec![]),
            node(RuleTag::Expr, zero(), "b", vec![sym_term("b")]),
        ],
    );
    let got = cfg.parse_list(&list, 255).unwrap();
    assert_eq!(
        got,
        AST::List { children: vec![sym_ast("a"), sym_ast("b")], r: None }
    );
}

#[test]
fn if_else_chain_lists() {
    let cfg = config();
    let block = |name: &str| {
        node(
            RuleTag::Block,
            zero(),
            name,
            vec![node(
                RuleTag::Statement,
                zero(),
                name,
                vec![node(
                    RuleTag::Expression,
                    zero(),
                    name,
                    vec![node(RuleTag::Expr, zero(), name, vec![sym_term(name)])],
                )],
            )],
        )
    };
    let ifstmt = node(
        RuleTag::IfStatement,
        zero(),
        "if c { a } else { b }",
        vec![
            node(RuleTag::Expr, zero(), "c", vec![sym_term("c")]),
            block("a"),
            block("b"),
        ],
    );
    match cfg.parse_if_else(&ifstmt, 255).unwrap() {
        AST::IfElseChain { conditions, actions, .. } => {
            assert_eq!(conditions.len(), 1);
            assert_eq!(actions.len(), 2);
            assert!(matches!(actions[0], AST::Block { .. }));
            assert!(matches!(actions[1], AST::Block { .. }));
        },
        _ => panic!("expected if-else chain"),
    }
}

#[test]
fn kind_children_range_accessors() {
    let a = AST::statement(
        vec![AST::null(rng(1, 2))],
        rng(0, 5),
    );
    assert_eq!(a.kind(), ASTKind::Statement);
    assert_eq!(a.children(), vec![AST::Null { r: Some(rng(1, 2)) }]);
    assert_eq!(a.range(), rng(0, 5));
    assert_eq!(AST::default().kind(), ASTKind::Nothing);
    assert_eq!(AST::default().range(), rng(0, 0));
}

#[test]
fn degenerate_range_is_absent() {
    assert_eq!(box_range(rng(3, 3)), None);
    assert_eq!(box_range(rng(3, 5)), Some(rng(3, 5)));
    let a = AST::null(rng(7, 7));
    assert_eq!(a, AST::Null { r: None });
    // an absent span does not stand for position zero of the source
    assert_eq!(a.range(), rng(0, 0));
}

#[test]
fn template_builder_steps() {
    let mut t = Template::open_close();
    t.set_tag(sym_ast("div"));
    t.set_attributes(vec![sym_ast("hidden")]);
    t.set_arguments(vec![(text_leaf("id"), text_leaf("main"))]);
    t.set_children(vec![AST::Null { r: None }]);
    assert_eq!(t.variant, TemplateKind::OpenClose);
    assert_eq!(t.tag, sym_ast("div"));
    assert_eq!(t.attributes.len(), 1);
    assert_eq!(t.arguments.len(), 1);
    assert_eq!(t.children.len(), 1);
}

#[test]
fn operator_table_entries() {
    assert_eq!(op_precedence(&"=".to_string()), 1);
    assert_eq!(op_precedence(&"&&".to_string()), 3);
    assert_eq!(op_precedence(&"==".to_string()), 4);
    assert_eq!(op_precedence(&"+".to_string()), 5);
    assert_eq!(op_precedence(&"*".to_string()), 6);
    assert_eq!(op_precedence(&"^".to_string()), 7);
    assert_eq!(op_precedence(&"???".to_string()), 0);
    assert!(op_right_assoc(&"=".to_string()));
    assert!(op_right_assoc(&"^".to_string()));
    assert!(!op_right_assoc(&"-".to_string()));
}

#[test]
fn program_passes_over_non_statements() {
    let cfg = config();
    let program = node(
        RuleTag::Program,
        zero(),
        "x",
        vec![
            stmt_of_expr(sym_term("x"), "x"),
            node(RuleTag::Eos, zero(), "", vec![]),
        ],
    );
    let got = cfg.parse(Ok(program)).unwrap();
    assert_eq!(got.kind(), ASTKind::Program);
    assert_eq!(got.children().len(), 1);
}

#[test]
fn malformed_tag_swallows_failing_parts() {
    let cfg = config();
    // inside the malformed arm, even a part whose own translation fails
    // (a symbol with no segments) is passed over rather than propagated
    let bad = node(
        RuleTag::Template,
        zero(),
        "<",
        vec![node(
            RuleTag::HtmlBad,
            zero(),
            "<",
            vec![
                node(RuleTag::BadSymbol, zero(), "", vec![]),
                node(RuleTag::HtmlBadSymbol, zero(), "", vec![]),
            ],
        )],
    );
    let got = cfg.parse_template(&bad, 255).unwrap();
    match got {
        AST::Template { template, .. } => {
            assert_eq!(template.variant, TemplateKind::HtmlBad);
            assert_eq!(template.tag, AST::Nothing);
            assert!(template.attributes.is_empty());
        },
        _ => panic!("expected template"),
    }
}

#[test]
fn well_nested_check() {
    let good = node(
        RuleTag::Statement,
        rng(0, 10),
        "x",
        vec![node(RuleTag::Expression, rng(2, 8), "x", vec![])],
    );
    assert!(sdl_parser::cst::well_nested(&good));
    let bad = node(
        RuleTag::Statement,
        rng(0, 10),
        "x",
        vec![node(RuleTag::Expression, rng(2, 18), "x", vec![])],
    );
    assert!(!sdl_parser::cst::well_nested(&bad));
}
