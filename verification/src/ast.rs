use crate::range::{box_range, spec_box_range, TextRange};
use vstd::prelude::*;

verus! {

/// How a template construct was written down in the source.
#[derive(Clone, Copy, Debug, PartialEq, Eq, Structural)]
pub enum TemplateKind {
    /// A void tag that terminates itself, e.g. `<img .../>`.
    SelfClose,
    /// A tag with a body and a matching closing tag.
    OpenClose,
    /// A tag-like fragment that could not be fully classified; kept as a
    /// distinguishable node instead of failing the surrounding parse.
    HtmlBad,
}

/// An HTML-like template construct: a tag name, bare attribute tokens,
/// `key=value` argument pairs, and (for an open/close tag) a parsed body.
#[derive(Debug, PartialEq, Eq)]
pub struct Template {
    pub variant: TemplateKind,
    pub tag: AST,
    pub attributes: Vec<AST>,
    pub arguments: Vec<(AST, AST)>,
    pub children: Vec<AST>,
}

/// One node of the abstract syntax tree.
///
/// Variants fall into three shapes: kinds that carry an ordered, unbounded
/// sequence of children (`Program`, `Block`, `Statement`, `Expression`,
/// `List`, `Dict`, `Symbol`); kinds that carry a fixed set of named
/// sub-nodes (`Pair`, `IfElseChain`, `ForInLoop`, `Template`, and the three
/// operator expressions); and scalar kinds that carry only an inline value
/// (`Null`, `Boolean`, `Text`, `Integer`).
///
/// Every variant but `Nothing` and `Program` records an optional source
/// span; the span is absent when it would be degenerate.
#[derive(Debug, PartialEq, Eq)]
pub enum AST {
    /// The default placeholder node.
    Nothing,
    /// A whole document: the top-level statements in source order.
    Program { children: Vec<AST> },
    Block { children: Vec<AST>, r: Option<TextRange> },
    Statement { children: Vec<AST>, r: Option<TextRange> },
    /// One expression, with a flag recording whether an explicit statement
    /// terminator followed it.
    Expression { children: Vec<AST>, eos: bool, r: Option<TextRange> },
    List { children: Vec<AST>, r: Option<TextRange> },
    Dict { children: Vec<AST>, r: Option<TextRange> },
    /// A `key = value` pair.
    Pair { key: Box<AST>, value: Box<AST>, r: Option<TextRange> },
    /// Parallel condition and action lists; a trailing extra action is the
    /// default branch.
    IfElseChain { conditions: Vec<AST>, actions: Vec<AST>, r: Option<TextRange> },
    ForInLoop { pattern: Box<AST>, terms: Box<AST>, block: Box<AST>, r: Option<TextRange> },
    Template { template: Box<Template>, r: Option<TextRange> },
    InfixExpression { op: String, lhs: Box<AST>, rhs: Box<AST>, r: Option<TextRange> },
    PrefixExpression { op: String, rhs: Box<AST>, r: Option<TextRange> },
    SuffixExpression { op: String, lhs: Box<AST>, r: Option<TextRange> },
    /// A dotted name: an ordered, non-empty sequence of `Text` segments.
    Symbol { children: Vec<AST>, r: Option<TextRange> },
    Null { r: Option<TextRange> },
    Boolean { value: bool, r: Option<TextRange> },
    /// A string literal, or one raw identifier segment of a symbol.
    Text { value: String, r: Option<TextRange> },
    /// A number literal, kept as unparsed text; numeric semantics are a
    /// downstream concern.
    Integer { value: String, r: Option<TextRange> },
}

/// The variant catalogue of [`AST`], with the scalar payloads inlined.
#[derive(Debug, Clone, PartialEq, Eq)]
pub enum ASTKind {
    Nothing,
    Program,
    Block,
    Statement,
    Expression(bool),
    List,
    Dict,
    Pair,
    IfElseChain,
    ForInLoop,
    Template,
    InfixExpression,
    PrefixExpression,
    SuffixExpression,
    Symbol,
    Null,
    Boolean(bool),
    Text(String),
    Integer(String),
}

/// Mathematical model of a [`Template`].
pub struct TemplateView {
    pub variant: TemplateKind,
    pub tag: AstView,
    pub attributes: Seq<AstView>,
    pub arguments: Seq<(AstView, AstView)>,
    pub children: Seq<AstView>,
}

/// Mathematical model of an [`AST`] node: vectors become sequences and
/// strings become character sequences.
pub enum AstView {
    Nothing,
    Program { children: Seq<AstView> },
    Block { children: Seq<AstView>, r: Option<TextRange> },
    Statement { children: Seq<AstView>, r: Option<TextRange> },
    Expression { children: Seq<AstView>, eos: bool, r: Option<TextRange> },
    List { children: Seq<AstView>, r: Option<TextRange> },
    Dict { children: Seq<AstView>, r: Option<TextRange> },
    Pair { key: Box<AstView>, value: Box<AstView>, r: Option<TextRange> },
    IfElseChain { conditions: Seq<AstView>, actions: Seq<AstView>, r: Option<TextRange> },
    ForInLoop { pattern: Box<AstView>, terms: Box<AstView>, block: Box<AstView>, r: Option<TextRange> },
    Template { template: Box<TemplateView>, r: Option<TextRange> },
    InfixExpression { op: Seq<char>, lhs: Box<AstView>, rhs: Box<AstView>, r: Option<TextRange> },
    PrefixExpression { op: Seq<char>, rhs: Box<AstView>, r: Option<TextRange> },
    SuffixExpression { op: Seq<char>, lhs: Box<AstView>, r: Option<TextRange> },
    Symbol { children: Seq<AstView>, r: Option<TextRange> },
    Null { r: Option<TextRange> },
    Boolean { value: bool, r: Option<TextRange> },
    Text { value: Seq<char>, r: Option<TextRange> },
    Integer { value: Seq<char>, r: Option<TextRange> },
}

/// The variant catalogue at the model level.
pub enum KindView {
    Nothing,
    Program,
    Block,
    Statement,
    Expression(bool),
    List,
    Dict,
    Pair,
    IfElseChain,
    ForInLoop,
    Template,
    InfixExpression,
    PrefixExpression,
    SuffixExpression,
    Symbol,
    Null,
    Boolean(bool),
    Text(Seq<char>),
    Integer(Seq<char>),
}

/// Model of a vector of nodes.
pub open spec fn asts_view(v: Seq<AST>) -> Seq<AstView>
    decreases v,
{
    if v.len() == 0 {
        Seq::empty()
    } else {
        asts_view(v.drop_last()).push(ast_view(v.last()))
    }
}

/// Model of a vector of key/value pairs.
pub open spec fn ast_pairs_view(v: Seq<(AST, AST)>) -> Seq<(AstView, AstView)>
    decreases v,
{
    if v.len() == 0 {
        Seq::empty()
    } else {
        ast_pairs_view(v.drop_last()).push(
            (ast_view(v.last().0), ast_view(v.last().1)),
        )
    }
}

/// Model of a template.
pub open spec fn template_view(t: Template) -> TemplateView
    decreases t,
{
    TemplateView {
        variant: t.variant,
        tag: ast_view(t.tag),
        attributes: asts_view(t.attributes@),
        arguments: ast_pairs_view(t.arguments@),
        children: asts_view(t.children@),
    }
}

/// Model of one node.
pub open spec fn ast_view(a: AST) -> AstView
    decreases a,
{
    match a {
        AST::Nothing => AstView::Nothing,
        AST::Program { children } => AstView::Program { children: asts_view(children@) },
        AST::Block { children, r } => AstView::Block { children: asts_view(children@), r },
        AST::Statement { children, r } => AstView::Statement { children: asts_view(children@), r },
        AST::Expression { children, eos, r } => AstView::Expression {
            children: asts_view(children@),
            eos,
            r,
        },
        AST::List { children, r } => AstView::List { children: asts_view(children@), r },
        AST::Dict { children, r } => AstView::Dict { children: asts_view(children@), r },
        AST::Pair { key, value, r } => AstView::Pair {
            key: Box::new(ast_view(*key)),
            value: Box::new(ast_view(*value)),
            r,
        },
        AST::IfElseChain { conditions, actions, r } => AstView::IfElseChain {
            conditions: asts_view(conditions@),
            actions: asts_view(actions@),
            r,
        },
        AST::ForInLoop { pattern, terms, block, r } => AstView::ForInLoop {
            pattern: Box::new(ast_view(*pattern)),
            terms: Box::new(ast_view(*terms)),
            block: Box::new(ast_view(*block)),
            r,
        },
        AST::Template { template, r } => AstView::Template {
            template: Box::new(template_view(*template)),
            r,
        },
        AST::InfixExpression { op, lhs, rhs, r } => AstView::InfixExpression {
            op: op@,
            lhs: Box::new(ast_view(*lhs)),
            rhs: Box::new(ast_view(*rhs)),
            r,
        },
        AST::PrefixExpression { op, rhs, r } => AstView::PrefixExpression {
            op: op@,
            rhs: Box::new(ast_view(*rhs)),
            r,
        },
        AST::SuffixExpression { op, lhs, r } => AstView::SuffixExpression {
            op: op@,
            lhs: Box::new(ast_view(*lhs)),
            r,
        },
        AST::Symbol { children, r } => AstView::Symbol { children: asts_view(children@), r },
        AST::Null { r } => AstView::Null { r },
        AST::Boolean { value, r } => AstView::Boolean { value, r },
        AST::Text { value, r } => AstView::Text { value: value@, r },
        AST::Integer { value, r } => AstView::Integer { value: value@, r },
    }
}

/// The children a node's model presents: the homogeneous list for the
/// unbounded kinds, nothing for named-field and scalar kinds.
pub open spec fn view_children(v: AstView) -> Seq<AstView> {
    match v {
        AstView::Program { children } => children,
        AstView::Block { children, .. } => children,
        AstView::Statement { children, .. } => children,
        AstView::Expression { children, .. } => children,
        AstView::List { children, .. } => children,
        AstView::Dict { children, .. } => children,
        AstView::Symbol { children, .. } => children,
        _ => Seq::empty(),
    }
}

/// The span a node's model records.
pub open spec fn view_range(v: AstView) -> Option<TextRange> {
    match v {
        AstView::Nothing => None,
        AstView::Program { .. } => None,
        AstView::Block { r, .. } => r,
        AstView::Statement { r, .. } => r,
        AstView::Expression { r, .. } => r,
        AstView::List { r, .. } => r,
        AstView::Dict { r, .. } => r,
        AstView::Pair { r, .. } => r,
        AstView::IfElseChain { r, .. } => r,
        AstView::ForInLoop { r, .. } => r,
        AstView::Template { r, .. } => r,
        AstView::InfixExpression { r, .. } => r,
        AstView::PrefixExpression { r, .. } => r,
        AstView::SuffixExpression { r, .. } => r,
        AstView::Symbol { r, .. } => r,
        AstView::Null { r } => r,
        AstView::Boolean { r, .. } => r,
        AstView::Text { r, .. } => r,
        AstView::Integer { r, .. } => r,
    }
}

/// The tag a node's model carries.
pub open spec fn view_kind(v: AstView) -> KindView {
    match v {
        AstView::Nothing => KindView::Nothing,
        AstView::Program { .. } => KindView::Program,
        AstView::Block { .. } => KindView::Block,
        AstView::Statement { .. } => KindView::Statement,
        AstView::Expression { eos, .. } => KindView::Expression(eos),
        AstView::List { .. } => KindView::List,
        AstView::Dict { .. } => KindView::Dict,
        AstView::Pair { .. } => KindView::Pair,
        AstView::IfElseChain { .. } => KindView::IfElseChain,
        AstView::ForInLoop { .. } => KindView::ForInLoop,
        AstView::Template { .. } => KindView::Template,
        AstView::InfixExpression { .. } => KindView::InfixExpression,
        AstView::PrefixExpression { .. } => KindView::PrefixExpression,
        AstView::SuffixExpression { .. } => KindView::SuffixExpression,
        AstView::Symbol { .. } => KindView::Symbol,
        AstView::Null { .. } => KindView::Null,
        AstView::Boolean { value, .. } => KindView::Boolean(value),
        AstView::Text { value, .. } => KindView::Text(value),
        AstView::Integer { value, .. } => KindView::Integer(value),
    }
}

/// The model of an [`ASTKind`] value.
pub open spec fn kind_view(k: ASTKind) -> KindView {
    match k {
        ASTKind::Nothing => KindView::Nothing,
        ASTKind::Program => KindView::Program,
        ASTKind::Block => KindView::Block,
        ASTKind::Statement => KindView::Statement,
        ASTKind::Expression(eos) => KindView::Expression(eos),
        ASTKind::List => KindView::List,
        ASTKind::Dict => KindView::Dict,
        ASTKind::Pair => KindView::Pair,
        ASTKind::IfElseChain => KindView::IfElseChain,
        ASTKind::ForInLoop => KindView::ForInLoop,
        ASTKind::Template => KindView::Template,
        ASTKind::InfixExpression => KindView::InfixExpression,
        ASTKind::PrefixExpression => KindView::PrefixExpression,
        ASTKind::SuffixExpression => KindView::SuffixExpression,
        ASTKind::Symbol => KindView::Symbol,
        ASTKind::Null => KindView::Null,
        ASTKind::Boolean(v) => KindView::Boolean(v),
        ASTKind::Text(v) => KindView::Text(v@),
        ASTKind::Integer(v) => KindView::Integer(v@),
    }
}

} // verus!

verus! {

/// Appending one node extends the model by that node's model.
pub proof fn lemma_asts_view_push(s: Seq<AST>, x: AST)
    ensures
        asts_view(s.push(x)) == asts_view(s).push(ast_view(x)),
{
    assert(s.push(x).drop_last() =~= s);
    assert(s.push(x).last() == x);
}

/// Appending one pair extends the model by that pair's model.
pub proof fn lemma_ast_pairs_view_push(s: Seq<(AST, AST)>, x: (AST, AST))
    ensures
        ast_pairs_view(s.push(x)) == ast_pairs_view(s).push((ast_view(x.0), ast_view(x.1))),
{
    assert(s.push(x).drop_last() =~= s);
    assert(s.push(x).last() == x);
}

/// Element-wise copy of a vector of nodes, preserving the model.
pub(crate) fn clone_asts(v: &Vec<AST>) -> (out: Vec<AST>)
    ensures
        asts_view(out@) == asts_view(v@),
    decreases v@,
{
    let mut out: Vec<AST> = Vec::new();
    let n = v.len();
    let mut i: usize = 0;
    while i < n
        invariant
            n == v@.len(),
            i <= n,
            asts_view(out@) == asts_view(v@.take(i as int)),
        decreases n - i,
    {
        let c = v[i].clone();
        proof {
            lemma_asts_view_push(out@, c);
            assert(v@.take(i + 1 as int) =~= v@.take(i as int).push(v@[i as int]));
            lemma_asts_view_push(v@.take(i as int), v@[i as int]);
        }
        out.push(c);
        i = i + 1;
    }
    proof {
        assert(v@.take(n as int) =~= v@);
    }
    out
}

/// Element-wise copy of a vector of key/value pairs, preserving the model.
pub(crate) fn clone_ast_pairs(v: &Vec<(AST, AST)>) -> (out: Vec<(AST, AST)>)
    ensures
        ast_pairs_view(out@) == ast_pairs_view(v@),
    decreases v@,
{
    let mut out: Vec<(AST, AST)> = Vec::new();
    let n = v.len();
    let mut i: usize = 0;
    while i < n
        invariant
            n == v@.len(),
            i <= n,
            ast_pairs_view(out@) == ast_pairs_view(v@.take(i as int)),
        decreases n - i,
    {
        let k = v[i].0.clone();
        let w = v[i].1.clone();
        proof {
            lemma_ast_pairs_view_push(out@, (k, w));
            assert(v@.take(i + 1 as int) =~= v@.take(i as int).push(v@[i as int]));
            lemma_ast_pairs_view_push(v@.take(i as int), v@[i as int]);
        }
        out.push((k, w));
        i = i + 1;
    }
    proof {
        assert(v@.take(n as int) =~= v@);
    }
    out
}

impl Clone for AST {
    /// A copy with an identical model.
    fn clone(&self) -> (res: Self)
        ensures
            ast_view(res) == ast_view(*self),
        decreases self,
    {
        match self {
            AST::Nothing => AST::Nothing,
            AST::Program { children } => AST::Program { children: clone_asts(children) },
            AST::Block { children, r } => AST::Block { children: clone_asts(children), r: *r },
            AST::Statement { children, r } => AST::Statement {
                children: clone_asts(children),
                r: *r,
            },
            AST::Expression { children, eos, r } => AST::Expression {
                children: clone_asts(children),
                eos: *eos,
                r: *r,
            },
            AST::List { children, r } => AST::List { children: clone_asts(children), r: *r },
            AST::Dict { children, r } => AST::Dict { children: clone_asts(children), r: *r },
            AST::Pair { key, value, r } => AST::Pair {
                key: Box::new((&**key).clone()),
                value: Box::new((&**value).clone()),
                r: *r,
            },
            AST::IfElseChain { conditions, actions, r } => AST::IfElseChain {
                conditions: clone_asts(conditions),
                actions: clone_asts(actions),
                r: *r,
            },
            AST::ForInLoop { pattern, terms, block, r } => AST::ForInLoop {
                pattern: Box::new((&**pattern).clone()),
                terms: Box::new((&**terms).clone()),
                block: Box::new((&**block).clone()),
                r: *r,
            },
            AST::Template { template, r } => AST::Template {
                template: Box::new((&**template).clone()),
                r: *r,
            },
            AST::InfixExpression { op, lhs, rhs, r } => AST::InfixExpression {
                op: op.clone(),
                lhs: Box::new((&**lhs).clone()),
                rhs: Box::new((&**rhs).clone()),
                r: *r,
            },
            AST::PrefixExpression { op, rhs, r } => AST::PrefixExpression {
                op: op.clone(),
                rhs: Box::new((&**rhs).clone()),
                r: *r,
            },
            AST::SuffixExpression { op, lhs, r } => AST::SuffixExpression {
                op: op.clone(),
                lhs: Box::new((&**lhs).clone()),
                r: *r,
            },
            AST::Symbol { children, r } => AST::Symbol { children: clone_asts(children), r: *r },
            AST::Null { r } => AST::Null { r: *r },
            AST::Boolean { value, r } => AST::Boolean { value: *value, r: *r },
            AST::Text { value, r } => AST::Text { value: value.clone(), r: *r },
            AST::Integer { value, r } => AST::Integer { value: value.clone(), r: *r },
        }
    }
}

impl Clone for Template {
    /// A copy with an identical model.
    fn clone(&self) -> (res: Self)
        ensures
            template_view(res) == template_view(*self),
        decreases self,
    {
        Template {
            variant: self.variant,
            tag: self.tag.clone(),
            attributes: clone_asts(&self.attributes),
            arguments: clone_ast_pairs(&self.arguments),
            children: clone_asts(&self.children),
        }
    }
}

} // verus!

verus! {

impl Default for AST {
    /// The placeholder node.
    fn default() -> (r: Self)
        ensures
            ast_view(r) == AstView::Nothing,
    {
        AST::Nothing
    }
}

impl AST {
    /// The tag of this node, with scalar payloads inlined.
    pub fn kind(&self) -> (k: ASTKind)
        ensures
            kind_view(k) == view_kind(ast_view(*self)),
    {
        match self {
            AST::Nothing => ASTKind::Nothing,
            AST::Program { .. } => ASTKind::Program,
            AST::Block { .. } => ASTKind::Block,
            AST::Statement { .. } => ASTKind::Statement,
            AST::Expression { eos, .. } => ASTKind::Expression(*eos),
            AST::List { .. } => ASTKind::List,
            AST::Dict { .. } => ASTKind::Dict,
            AST::Pair { .. } => ASTKind::Pair,
            AST::IfElseChain { .. } => ASTKind::IfElseChain,
            AST::ForInLoop { .. } => ASTKind::ForInLoop,
            AST::Template { .. } => ASTKind::Template,
            AST::InfixExpression { .. } => ASTKind::InfixExpression,
            AST::PrefixExpression { .. } => ASTKind::PrefixExpression,
            AST::SuffixExpression { .. } => ASTKind::SuffixExpression,
            AST::Symbol { .. } => ASTKind::Symbol,
            AST::Null { .. } => ASTKind::Null,
            AST::Boolean { value, .. } => ASTKind::Boolean(*value),
            AST::Text { value, .. } => ASTKind::Text(value.clone()),
            AST::Integer { value, .. } => ASTKind::Integer(value.clone()),
        }
    }

    /// The ordered child list of a homogeneous-children node; empty for
    /// named-field and scalar nodes.
    pub fn children(&self) -> (out: Vec<AST>)
        ensures
            asts_view(out@) == view_children(ast_view(*self)),
    {
        match self {
            AST::Program { children } => clone_asts(children),
            AST::Block { children, .. } => clone_asts(children),
            AST::Statement { children, .. } => clone_asts(children),
            AST::Expression { children, .. } => clone_asts(children),
            AST::List { children, .. } => clone_asts(children),
            AST::Dict { children, .. } => clone_asts(children),
            AST::Symbol { children, .. } => clone_asts(children),
            _ => Vec::new(),
        }
    }

    /// The recorded span, or the empty span at offset zero when absent.
    pub fn range(&self) -> (out: TextRange)
        ensures
            out == (match view_range(ast_view(*self)) {
                Some(r) => r,
                None => TextRange { start: 0, end: 0 },
            }),
    {
        let o: Option<TextRange> = match self {
            AST::Nothing => None,
            AST::Program { .. } => None,
            AST::Block { r, .. } => *r,
            AST::Statement { r, .. } => *r,
            AST::Expression { r, .. } => *r,
            AST::List { r, .. } => *r,
            AST::Dict { r, .. } => *r,
            AST::Pair { r, .. } => *r,
            AST::IfElseChain { r, .. } => *r,
            AST::ForInLoop { r, .. } => *r,
            AST::Template { r, .. } => *r,
            AST::InfixExpression { r, .. } => *r,
            AST::PrefixExpression { r, .. } => *r,
            AST::SuffixExpression { r, .. } => *r,
            AST::Symbol { r, .. } => *r,
            AST::Null { r } => *r,
            AST::Boolean { r, .. } => *r,
            AST::Text { r, .. } => *r,
            AST::Integer { r, .. } => *r,
        };
        match o {
            Some(r) => r,
            None => TextRange { start: 0, end: 0 },
        }
    }
}

impl AST {
    /// A whole document from its top-level statements.
    pub fn program(children: Vec<AST>) -> (a: Self)
        ensures
            ast_view(a) == (AstView::Program { children: asts_view(children@) }),
    {
        AST::Program { children }
    }

    pub fn block(children: Vec<AST>, r: TextRange) -> (a: Self)
        ensures
            ast_view(a) == (AstView::Block {
                children: asts_view(children@),
                r: spec_box_range(r),
            }),
    {
        AST::Block { children, r: box_range(r) }
    }

    pub fn statement(children: Vec<AST>, r: TextRange) -> (a: Self)
        ensures
            ast_view(a) == (AstView::Statement {
                children: asts_view(children@),
                r: spec_box_range(r),
            }),
    {
        AST::Statement { children, r: box_range(r) }
    }

    pub fn for_in_loop(pattern: AST, terms: AST, block: AST, r: TextRange) -> (a: Self)
        ensures
            ast_view(a) == (AstView::ForInLoop {
                pattern: Box::new(ast_view(pattern)),
                terms: Box::new(ast_view(terms)),
                block: Box::new(ast_view(block)),
                r: spec_box_range(r),
            }),
    {
        AST::ForInLoop {
            pattern: Box::new(pattern),
            terms: Box::new(terms),
            block: Box::new(block),
            r: box_range(r),
        }
    }

    /// Parallel condition and action lists evaluated left to right; a
    /// trailing extra action is the default branch.
    pub fn if_else_chain(conditions: Vec<AST>, actions: Vec<AST>, r: TextRange) -> (a: Self)
        ensures
            ast_view(a) == (AstView::IfElseChain {
                conditions: asts_view(conditions@),
                actions: asts_view(actions@),
                r: spec_box_range(r),
            }),
    {
        AST::IfElseChain { conditions, actions, r: box_range(r) }
    }

    pub fn expression(children: Vec<AST>, eos: bool, r: TextRange) -> (a: Self)
        ensures
            ast_view(a) == (AstView::Expression {
                children: asts_view(children@),
                eos,
                r: spec_box_range(r),
            }),
    {
        AST::Expression { children, eos, r: box_range(r) }
    }

    pub fn infix(op: &str, lhs: AST, rhs: AST, r: TextRange) -> (a: Self)
        ensures
            ast_view(a) == (AstView::InfixExpression {
                op: op@,
                lhs: Box::new(ast_view(lhs)),
                rhs: Box::new(ast_view(rhs)),
                r: spec_box_range(r),
            }),
    {
        AST::InfixExpression {
            op: op.to_owned(),
            lhs: Box::new(lhs),
            rhs: Box::new(rhs),
            r: box_range(r),
        }
    }

    pub fn prefix(op: &str, rhs: AST, r: TextRange) -> (a: Self)
        ensures
            ast_view(a) == (AstView::PrefixExpression {
                op: op@,
                rhs: Box::new(ast_view(rhs)),
                r: spec_box_range(r),
            }),
    {
        AST::PrefixExpression { op: op.to_owned(), rhs: Box::new(rhs), r: box_range(r) }
    }

    pub fn suffix(op: &str, lhs: AST, r: TextRange) -> (a: Self)
        ensures
            ast_view(a) == (AstView::SuffixExpression {
                op: op@,
                lhs: Box::new(ast_view(lhs)),
                r: spec_box_range(r),
            }),
    {
        AST::SuffixExpression { op: op.to_owned(), lhs: Box::new(lhs), r: box_range(r) }
    }

    pub fn template(value: Template, r: TextRange) -> (a: Self)
        ensures
            ast_view(a) == (AstView::Template {
                template: Box::new(template_view(value)),
                r: spec_box_range(r),
            }),
    {
        AST::Template { template: Box::new(value), r: box_range(r) }
    }

    pub fn list(value: Vec<AST>, r: TextRange) -> (a: Self)
        ensures
            ast_view(a) == (AstView::List { children: asts_view(value@), r: spec_box_range(r) }),
    {
        AST::List { children: value, r: box_range(r) }
    }

    /// A dotted name from its raw identifier segments.
    pub fn symbol(children: Vec<AST>, r: TextRange) -> (a: Self)
        ensures
            ast_view(a) == (AstView::Symbol {
                children: asts_view(children@),
                r: spec_box_range(r),
            }),
    {
        AST::Symbol { children, r: box_range(r) }
    }

    pub fn null(r: TextRange) -> (a: Self)
        ensures
            ast_view(a) == (AstView::Null { r: spec_box_range(r) }),
    {
        AST::Null { r: box_range(r) }
    }

    pub fn boolean(value: bool, r: TextRange) -> (a: Self)
        ensures
            ast_view(a) == (AstView::Boolean { value, r: spec_box_range(r) }),
    {
        AST::Boolean { value, r: box_range(r) }
    }

    pub fn string(value: String, r: TextRange) -> (a: Self)
        ensures
            ast_view(a) == (AstView::Text { value: value@, r: spec_box_range(r) }),
    {
        AST::Text { value, r: box_range(r) }
    }

    /// A number literal, kept as unparsed text.
    pub fn integer(value: String, r: TextRange) -> (a: Self)
        ensures
            ast_view(a) == (AstView::Integer { value: value@, r: spec_box_range(r) }),
    {
        AST::Integer { value, r: box_range(r) }
    }
}

impl Template {
    /// An empty self-closing template.
    pub fn self_close() -> (t: Self)
        ensures
            template_view(t) == empty_template(TemplateKind::SelfClose),
    {
        Template {
            variant: TemplateKind::SelfClose,
            tag: AST::Nothing,
            attributes: Vec::new(),
            arguments: Vec::new(),
            children: Vec::new(),
        }
    }

    /// An empty open/close template.
    pub fn open_close() -> (t: Self)
        ensures
            template_view(t) == empty_template(TemplateKind::OpenClose),
    {
        Template {
            variant: TemplateKind::OpenClose,
            tag: AST::Nothing,
            attributes: Vec::new(),
            arguments: Vec::new(),
            children: Vec::new(),
        }
    }

    /// An empty malformed-tag template.
    pub fn html_bad() -> (t: Self)
        ensures
            template_view(t) == empty_template(TemplateKind::HtmlBad),
    {
        Template {
            variant: TemplateKind::HtmlBad,
            tag: AST::Nothing,
            attributes: Vec::new(),
            arguments: Vec::new(),
            children: Vec::new(),
        }
    }

    pub fn set_tag(&mut self, tag: AST)
        ensures
            template_view(*final(self)) == (TemplateView {
                tag: ast_view(tag),
                ..template_view(*old(self))
            }),
    {
        self.tag = tag;
    }

    pub fn set_attributes(&mut self, attributes: Vec<AST>)
        ensures
            template_view(*final(self)) == (TemplateView {
                attributes: asts_view(attributes@),
                ..template_view(*old(self))
            }),
    {
        self.attributes = attributes;
    }

    pub fn set_arguments(&mut self, arguments: Vec<(AST, AST)>)
        ensures
            template_view(*final(self)) == (TemplateView {
                arguments: ast_pairs_view(arguments@),
                ..template_view(*old(self))
            }),
    {
        self.arguments = arguments;
    }

    pub fn set_children(&mut self, children: Vec<AST>)
        ensures
            template_view(*final(self)) == (TemplateView {
                children: asts_view(children@),
                ..template_view(*old(self))
            }),
    {
        self.children = children;
    }
}

/// A template with the given variant and no substance yet.
pub open spec fn empty_template(variant: TemplateKind) -> TemplateView {
    TemplateView {
        variant,
        tag: AstView::Nothing,
        attributes: Seq::empty(),
        arguments: Seq::empty(),
        children: Seq::empty(),
    }
}

} // verus!

verus! {

/// The model of a vector of nodes has the same length and the model of
/// each element at its place.
pub proof fn lemma_asts_view_index(v: Seq<AST>)
    ensures
        asts_view(v).len() == v.len(),
        forall|i: int| 0 <= i < v.len() ==> #[trigger] asts_view(v)[i] == ast_view(v[i]),
    decreases v,
{
    if v.len() > 0 {
        lemma_asts_view_index(v.drop_last());
        assert(forall|i: int|
            0 <= i < v.len() - 1 ==> #[trigger] asts_view(v)[i] == asts_view(v.drop_last())[i]
                && v.drop_last()[i] == v[i]);
    }
}

} // verus!

verus! {

/// Dropping the final node drops the final element of the model.
pub proof fn lemma_asts_view_drop_last(v: Seq<AST>)
    requires
        v.len() > 0,
    ensures
        asts_view(v).drop_last() == asts_view(v.drop_last()),
        asts_view(v).last() == ast_view(v.last()),
{
    assert(asts_view(v).drop_last() =~= asts_view(v.drop_last()));
}

} // verus!
