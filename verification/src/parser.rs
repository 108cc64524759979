use crate::ast::{
    ast_view, asts_view, lemma_asts_view_index, lemma_asts_view_push, AstView, AST,
};
use crate::climb::{climb, spec_climb};
use crate::cst::{cst_view, lemma_csts_view_index, CstNode, CstView, RuleTag};
use crate::errors::{
    ast_result_view, err_view, spec_too_deep, spec_untranslated, too_deep, untranslated,
    ErrorView, ParseError,
};
use crate::preprocess::{normalize_spec, normalize_text};
use crate::range::{box_range, spec_box_range, TextRange};
use crate::util::{
    lemma_strings_view_index, lemma_strings_view_push, str_is, strings_view,
};
use vstd::prelude::*;

verus! {

// ---------------------------------------------------------------------
// The specification of the tree builder: one translation per concrete
// rule, written as spec functions over concrete-tree models.  Every
// function takes a nesting budget; a node met with an exhausted budget
// yields a structured error instead of recursing further.
// ---------------------------------------------------------------------

/// Translate the top-level statements of a `program` node; anything that
/// is not a statement (such as an end-of-input marker) is passed over.
pub open spec fn prog_scan(cs: Seq<CstView>, j: int, d: nat, acc: Seq<AstView>) -> Result<
    Seq<AstView>,
    ErrorView,
>
    decreases d, 1int, cs.len() - j,
{
    if !(0 <= j < cs.len()) {
        Ok(acc)
    } else if cs[j].rule == RuleTag::Statement {
        match spec_parse_statement(cs[j], d) {
            Err(e) => Err(e),
            Ok(v) => prog_scan(cs, j + 1, d, acc.push(v)),
        }
    } else {
        prog_scan(cs, j + 1, d, acc)
    }
}

/// `program` becomes a `Program` node over its statements.
pub open spec fn spec_parse_program(c: CstView, depth: nat) -> Result<AstView, ErrorView>
    decreases depth, 0int, 0int,
{
    if depth == 0 {
        Err(spec_too_deep(c))
    } else {
        match prog_scan(c.children, 0, (depth - 1) as nat, Seq::empty()) {
            Err(e) => Err(e),
            Ok(children) => Ok(AstView::Program { children }),
        }
    }
}

/// Translate the parts of a `statement` node: expressions, if-statements
/// and for-statements, with whitespace passed over; any other rule is an
/// untranslated-rule error.
pub open spec fn stmt_scan(cs: Seq<CstView>, j: int, d: nat, acc: Seq<AstView>) -> Result<
    Seq<AstView>,
    ErrorView,
>
    decreases d, 1int, cs.len() - j,
{
    if !(0 <= j < cs.len()) {
        Ok(acc)
    } else if cs[j].rule == RuleTag::Whitespace {
        stmt_scan(cs, j + 1, d, acc)
    } else if cs[j].rule == RuleTag::Expression {
        match spec_parse_expression(cs[j], d) {
            Err(e) => Err(e),
            Ok(v) => stmt_scan(cs, j + 1, d, acc.push(v)),
        }
    } else if cs[j].rule == RuleTag::IfStatement {
        match spec_parse_if_else(cs[j], d) {
            Err(e) => Err(e),
            Ok(v) => stmt_scan(cs, j + 1, d, acc.push(v)),
        }
    } else if cs[j].rule == RuleTag::ForStatement {
        match spec_parse_for_in(cs[j], d) {
            Err(e) => Err(e),
            Ok(v) => stmt_scan(cs, j + 1, d, acc.push(v)),
        }
    } else {
        Err(spec_untranslated(cs[j]))
    }
}

/// `statement` becomes a `Statement` node over its parts.
pub open spec fn spec_parse_statement(c: CstView, depth: nat) -> Result<AstView, ErrorView>
    decreases depth, 0int, 0int,
{
    if depth == 0 {
        Err(spec_too_deep(c))
    } else {
        match stmt_scan(c.children, 0, (depth - 1) as nat, Seq::empty()) {
            Err(e) => Err(e),
            Ok(children) => Ok(AstView::Statement { children, r: spec_box_range(c.range) }),
        }
    }
}

/// `block` becomes a `Block` node wrapping the statement it holds.
pub open spec fn spec_parse_block(c: CstView, depth: nat) -> Result<AstView, ErrorView>
    decreases depth, 0int, 0int,
{
    if depth == 0 {
        Err(spec_too_deep(c))
    } else if c.children.len() == 0 {
        Err(spec_untranslated(c))
    } else if c.children[0].rule == RuleTag::Statement {
        match spec_parse_statement(c.children[0], (depth - 1) as nat) {
            Err(e) => Err(e),
            Ok(v) => Ok(AstView::Block { children: seq![v], r: spec_box_range(c.range) }),
        }
    } else {
        Err(spec_untranslated(c.children[0]))
    }
}

/// Collect the parallel condition and action lists of an `if_statement`.
pub open spec fn if_scan(
    cs: Seq<CstView>,
    j: int,
    d: nat,
    conds: Seq<AstView>,
    acts: Seq<AstView>,
) -> Result<(Seq<AstView>, Seq<AstView>), ErrorView>
    decreases d, 1int, cs.len() - j,
{
    if !(0 <= j < cs.len()) {
        Ok((conds, acts))
    } else if cs[j].rule == RuleTag::Expr {
        match spec_parse_expr(cs[j], d) {
            Err(e) => Err(e),
            Ok(v) => if_scan(cs, j + 1, d, conds.push(v), acts),
        }
    } else if cs[j].rule == RuleTag::Block {
        match spec_parse_block(cs[j], d) {
            Err(e) => Err(e),
            Ok(v) => if_scan(cs, j + 1, d, conds, acts.push(v)),
        }
    } else {
        Err(spec_untranslated(cs[j]))
    }
}

/// `if_statement` becomes an `IfElseChain`: conditions tried left to
/// right, a trailing extra action being the default branch.
pub open spec fn spec_parse_if_else(c: CstView, depth: nat) -> Result<AstView, ErrorView>
    decreases depth, 0int, 0int,
{
    if depth == 0 {
        Err(spec_too_deep(c))
    } else {
        match if_scan(c.children, 0, (depth - 1) as nat, Seq::empty(), Seq::empty()) {
            Err(e) => Err(e),
            Ok((conditions, actions)) => Ok(
                AstView::IfElseChain { conditions, actions, r: spec_box_range(c.range) },
            ),
        }
    }
}

/// Collect the binder pattern, the iterated terms and the body of a
/// `for_statement`; a missing part stays the placeholder node.
pub open spec fn for_scan(
    cs: Seq<CstView>,
    j: int,
    d: nat,
    pattern: AstView,
    terms: AstView,
    block: AstView,
) -> Result<(AstView, AstView, AstView), ErrorView>
    decreases d, 1int, cs.len() - j,
{
    if !(0 <= j < cs.len()) {
        Ok((pattern, terms, block))
    } else if cs[j].rule == RuleTag::Whitespace {
        for_scan(cs, j + 1, d, pattern, terms, block)
    } else if cs[j].rule == RuleTag::Pattern {
        match spec_parse_pattern(cs[j], d) {
            Err(e) => Err(e),
            Ok(v) => for_scan(cs, j + 1, d, v, terms, block),
        }
    } else if cs[j].rule == RuleTag::Expr {
        match spec_parse_expr(cs[j], d) {
            Err(e) => Err(e),
            Ok(v) => for_scan(cs, j + 1, d, pattern, v, block),
        }
    } else if cs[j].rule == RuleTag::Block {
        match spec_parse_block(cs[j], d) {
            Err(e) => Err(e),
            Ok(v) => for_scan(cs, j + 1, d, pattern, terms, v),
        }
    } else {
        Err(spec_untranslated(cs[j]))
    }
}

/// `for_statement` becomes a `ForInLoop` node.
pub open spec fn spec_parse_for_in(c: CstView, depth: nat) -> Result<AstView, ErrorView>
    decreases depth, 0int, 0int,
{
    if depth == 0 {
        Err(spec_too_deep(c))
    } else {
        match for_scan(
            c.children,
            0,
            (depth - 1) as nat,
            AstView::Nothing,
            AstView::Nothing,
            AstView::Nothing,
        ) {
            Err(e) => Err(e),
            Ok((pattern, terms, block)) => Ok(
                AstView::ForInLoop {
                    pattern: Box::new(pattern),
                    terms: Box::new(terms),
                    block: Box::new(block),
                    r: spec_box_range(c.range),
                },
            ),
        }
    }
}

/// `expression` wraps one `expr` result together with a flag recording
/// whether an explicit terminator followed it.
pub open spec fn spec_parse_expression(c: CstView, depth: nat) -> Result<AstView, ErrorView>
    decreases depth, 0int, 0int,
{
    if depth == 0 {
        Err(spec_too_deep(c))
    } else if c.children.len() == 0 {
        Err(spec_untranslated(c))
    } else {
        match spec_parse_expr(c.children[0], (depth - 1) as nat) {
            Err(e) => Err(e),
            Ok(v) => Ok(
                AstView::Expression {
                    children: seq![v],
                    eos: c.children.len() > 1,
                    r: spec_box_range(c.range),
                },
            ),
        }
    }
}

/// Collect the operands and the interleaved operator tokens of an `expr`
/// node: operands at even positions, operator tokens between them.
pub open spec fn expr_scan(
    cs: Seq<CstView>,
    j: int,
    d: nat,
    terms: Seq<AstView>,
    ops: Seq<Seq<char>>,
) -> Result<(Seq<AstView>, Seq<Seq<char>>), ErrorView>
    decreases d, 1int, cs.len() - j,
{
    if !(0 <= j < cs.len()) {
        Ok((terms, ops))
    } else if j % 2 == 0 {
        if cs[j].rule == RuleTag::Term {
            match spec_parse_term(cs[j], d) {
                Err(e) => Err(e),
                Ok(v) => expr_scan(cs, j + 1, d, terms.push(v), ops),
            }
        } else {
            Err(spec_untranslated(cs[j]))
        }
    } else {
        expr_scan(cs, j + 1, d, terms, ops.push(cs[j].text))
    }
}

/// `expr` is resolved by the precedence resolver over its flat
/// operand/operator sequence; an `expr` whose shape is not operands
/// interleaved with operators is an untranslated-rule error.
pub open spec fn spec_parse_expr(c: CstView, depth: nat) -> Result<AstView, ErrorView>
    decreases depth, 0int, 0int,
{
    if depth == 0 {
        Err(spec_too_deep(c))
    } else {
        match expr_scan(c.children, 0, (depth - 1) as nat, Seq::empty(), Seq::empty()) {
            Err(e) => Err(e),
            Ok((terms, ops)) => if terms.len() == ops.len() + 1 {
                Ok(spec_climb(terms, ops, spec_box_range(c.range)))
            } else {
                Err(spec_untranslated(c))
            },
        }
    }
}

/// Wrap a base operand in suffix operators, applied left to right,
/// outward from the operand.
pub open spec fn apply_suffixes(sfx: Seq<Seq<char>>, base: AstView, r: Option<
    TextRange,
>) -> AstView
    decreases sfx.len(),
{
    if sfx.len() == 0 {
        base
    } else {
        AstView::SuffixExpression {
            op: sfx.last(),
            lhs: Box::new(apply_suffixes(sfx.drop_last(), base, r)),
            r,
        }
    }
}

/// Wrap a base operand in prefix operators, applied innermost-first: the
/// prefix written closest to the operand binds first.
pub open spec fn apply_prefixes(pfx: Seq<Seq<char>>, base: AstView, r: Option<
    TextRange,
>) -> AstView
    decreases pfx.len(),
{
    if pfx.len() == 0 {
        base
    } else {
        AstView::PrefixExpression {
            op: pfx.first(),
            rhs: Box::new(apply_prefixes(pfx.drop_first(), base, r)),
            r,
        }
    }
}

/// Collect the chain call of a `term` together with any prefix and
/// suffix operator tokens around it.
pub open spec fn term_scan(
    cs: Seq<CstView>,
    j: int,
    d: nat,
    base: AstView,
    pfx: Seq<Seq<char>>,
    sfx: Seq<Seq<char>>,
) -> Result<(AstView, Seq<Seq<char>>, Seq<Seq<char>>), ErrorView>
    decreases d, 1int, cs.len() - j,
{
    if !(0 <= j < cs.len()) {
        Ok((base, pfx, sfx))
    } else if cs[j].rule == RuleTag::Whitespace {
        term_scan(cs, j + 1, d, base, pfx, sfx)
    } else if cs[j].rule == RuleTag::ChainCall {
        match spec_parse_chain_call(cs[j], d) {
            Err(e) => Err(e),
            Ok(v) => term_scan(cs, j + 1, d, v, pfx, sfx),
        }
    } else if cs[j].rule == RuleTag::Prefix {
        term_scan(cs, j + 1, d, base, pfx.push(cs[j].text), sfx)
    } else if cs[j].rule == RuleTag::Suffix {
        term_scan(cs, j + 1, d, base, pfx, sfx.push(cs[j].text))
    } else {
        Err(spec_untranslated(cs[j]))
    }
}

/// `term` reduces to its chain call, wrapped by any prefix and suffix
/// operators; without one it stays the placeholder node.
pub open spec fn spec_parse_term(c: CstView, depth: nat) -> Result<AstView, ErrorView>
    decreases depth, 0int, 0int,
{
    if depth == 0 {
        Err(spec_too_deep(c))
    } else {
        match term_scan(
            c.children,
            0,
            (depth - 1) as nat,
            AstView::Nothing,
            Seq::empty(),
            Seq::empty(),
        ) {
            Err(e) => Err(e),
            Ok((base, pfx, sfx)) => Ok(
                apply_prefixes(
                    pfx,
                    apply_suffixes(sfx, base, spec_box_range(c.range)),
                    spec_box_range(c.range),
                ),
            ),
        }
    }
}

/// `pattern` is restricted to a single symbol binder.
pub open spec fn spec_parse_pattern(c: CstView, depth: nat) -> Result<AstView, ErrorView>
    decreases depth, 0int, 0int,
{
    if depth == 0 {
        Err(spec_too_deep(c))
    } else if c.children.len() == 0 {
        Err(spec_untranslated(c))
    } else if c.children[0].rule == RuleTag::Symbol {
        spec_parse_symbol(c.children[0], (depth - 1) as nat)
    } else {
        Err(spec_untranslated(c.children[0]))
    }
}

/// `chain_call` reduces to its base data node; postfix operations are an
/// extension point the grammar does not yet emit, so any extra part is an
/// untranslated-rule error.
pub open spec fn spec_parse_chain_call(c: CstView, depth: nat) -> Result<AstView, ErrorView>
    decreases depth, 0int, 0int,
{
    if depth == 0 {
        Err(spec_too_deep(c))
    } else if c.children.len() == 0 {
        Err(spec_untranslated(c))
    } else if c.children.len() > 1 {
        Err(spec_untranslated(c.children[1]))
    } else {
        spec_parse_data(c.children[0], (depth - 1) as nat)
    }
}

/// `data` dispatches on its single sub-rule.
pub open spec fn spec_parse_data(c: CstView, depth: nat) -> Result<AstView, ErrorView>
    decreases depth, 0int, 0int,
{
    if depth == 0 {
        Err(spec_too_deep(c))
    } else if c.children.len() == 0 {
        Err(spec_untranslated(c))
    } else {
        let ch = c.children[0];
        let d = (depth - 1) as nat;
        if ch.rule == RuleTag::Template {
            spec_parse_template(ch, d)
        } else if ch.rule == RuleTag::List {
            spec_parse_list(ch, d)
        } else if ch.rule == RuleTag::StringLit {
            Ok(spec_parse_string(ch))
        } else if ch.rule == RuleTag::NumberLit {
            Ok(spec_parse_number(ch))
        } else if ch.rule == RuleTag::Symbol {
            spec_parse_symbol(ch, d)
        } else if ch.rule == RuleTag::SpecialValue {
            Ok(spec_parse_special(ch))
        } else {
            Err(spec_untranslated(ch))
        }
    }
}

/// Classify the inner tokens of a template alternative: the tag name,
/// bare attribute tokens, key/value argument pairs, and (for an
/// open/close tag) nested text-mode sections.  A malformed tag tolerates
/// parts it cannot place or translate instead of failing.
pub open spec fn tmpl_scan(
    cs: Seq<CstView>,
    j: int,
    d: nat,
    variant: crate::ast::TemplateKind,
    tag: AstView,
    attrs: Seq<AstView>,
    args: Seq<(AstView, AstView)>,
    kids: Seq<AstView>,
) -> Result<(AstView, Seq<AstView>, Seq<(AstView, AstView)>, Seq<AstView>), ErrorView>
    decreases d, 1int, cs.len() - j,
{
    if !(0 <= j < cs.len()) {
        Ok((tag, attrs, args, kids))
    } else if variant == crate::ast::TemplateKind::HtmlBad {
        // the malformed-tag arm captures whatever partial structure can
        // be placed and passes over everything else; no failure of a
        // part escapes the fragment
        if cs[j].rule == RuleTag::Symbol || cs[j].rule == RuleTag::HtmlBadSymbol {
            match spec_parse_symbol(cs[j], d) {
                Err(_) => tmpl_scan(cs, j + 1, d, variant, tag, attrs, args, kids),
                Ok(v) => tmpl_scan(cs, j + 1, d, variant, v, attrs, args, kids),
            }
        } else if cs[j].rule == RuleTag::BadSymbol {
            match spec_parse_symbol(cs[j], d) {
                Err(_) => tmpl_scan(cs, j + 1, d, variant, tag, attrs, args, kids),
                Ok(v) => tmpl_scan(cs, j + 1, d, variant, tag, attrs.push(v), args, kids),
            }
        } else if cs[j].rule == RuleTag::HtmlPair {
            match spec_parse_pair(cs[j], d) {
                Err(_) => tmpl_scan(cs, j + 1, d, variant, tag, attrs, args, kids),
                Ok(kv) => tmpl_scan(cs, j + 1, d, variant, tag, attrs, args.push(kv), kids),
            }
        } else {
            tmpl_scan(cs, j + 1, d, variant, tag, attrs, args, kids)
        }
    } else if cs[j].rule == RuleTag::Symbol || cs[j].rule == RuleTag::HtmlBadSymbol {
        match spec_parse_symbol(cs[j], d) {
            Err(e) => Err(e),
            Ok(v) => tmpl_scan(cs, j + 1, d, variant, v, attrs, args, kids),
        }
    } else if cs[j].rule == RuleTag::BadSymbol {
        match spec_parse_symbol(cs[j], d) {
            Err(e) => Err(e),
            Ok(v) => tmpl_scan(cs, j + 1, d, variant, tag, attrs.push(v), args, kids),
        }
    } else if cs[j].rule == RuleTag::HtmlPair {
        match spec_parse_pair(cs[j], d) {
            Err(e) => Err(e),
            Ok(kv) => tmpl_scan(cs, j + 1, d, variant, tag, attrs, args.push(kv), kids),
        }
    } else if cs[j].rule == RuleTag::TextMode && variant == crate::ast::TemplateKind::OpenClose {
        match spec_parse_text_mode(cs[j], d) {
            Err(e) => Err(e),
            Ok(v) => tmpl_scan(cs, j + 1, d, variant, tag, attrs, args, kids.push(v)),
        }
    } else {
        Err(spec_untranslated(cs[j]))
    }
}

/// `template` becomes a `Template` node: the alternative picks the
/// variant, and its inner tokens fill the tag, attributes, arguments and
/// (for an open/close tag) the parsed body.
pub open spec fn spec_parse_template(c: CstView, depth: nat) -> Result<AstView, ErrorView>
    decreases depth, 0int, 0int,
{
    if depth == 0 {
        Err(spec_too_deep(c))
    } else if c.children.len() == 0 {
        Err(spec_untranslated(c))
    } else {
        let inner = c.children[0];
        let variant = if inner.rule == RuleTag::SelfClose {
            Some(crate::ast::TemplateKind::SelfClose)
        } else if inner.rule == RuleTag::OpenClose {
            Some(crate::ast::TemplateKind::OpenClose)
        } else if inner.rule == RuleTag::HtmlBad {
            Some(crate::ast::TemplateKind::HtmlBad)
        } else {
            None
        };
        match variant {
            None => Err(spec_untranslated(inner)),
            Some(variant) => match tmpl_scan(
                inner.children,
                0,
                (depth - 1) as nat,
                variant,
                AstView::Nothing,
                Seq::empty(),
                Seq::empty(),
                Seq::empty(),
            ) {
                Err(e) => Err(e),
                Ok((tag, attrs, args, kids)) => Ok(
                    AstView::Template {
                        template: Box::new(
                            crate::ast::TemplateView {
                                variant,
                                tag,
                                attributes: attrs,
                                arguments: args,
                                children: kids,
                            },
                        ),
                        r: spec_box_range(c.range),
                    },
                ),
            },
        }
    }
}

/// Translate the statements nested in a text-mode section.  Literal text
/// runs between the statements are not retained in the tree.
pub open spec fn text_scan(cs: Seq<CstView>, j: int, d: nat, acc: Seq<AstView>) -> Result<
    Seq<AstView>,
    ErrorView,
>
    decreases d, 1int, cs.len() - j,
{
    if !(0 <= j < cs.len()) {
        Ok(acc)
    } else if cs[j].rule == RuleTag::Whitespace || cs[j].rule == RuleTag::TextChar {
        text_scan(cs, j + 1, d, acc)
    } else if cs[j].rule == RuleTag::Statement {
        match spec_parse_statement(cs[j], d) {
            Err(e) => Err(e),
            Ok(v) => text_scan(cs, j + 1, d, acc.push(v)),
        }
    } else {
        Err(spec_untranslated(cs[j]))
    }
}

/// `text_mode` becomes a `Block` over its nested statements.
pub open spec fn spec_parse_text_mode(c: CstView, depth: nat) -> Result<AstView, ErrorView>
    decreases depth, 0int, 0int,
{
    if depth == 0 {
        Err(spec_too_deep(c))
    } else {
        match text_scan(c.children, 0, (depth - 1) as nat, Seq::empty()) {
            Err(e) => Err(e),
            Ok(children) => Ok(AstView::Block { children, r: spec_box_range(c.range) }),
        }
    }
}

/// Collect the element expressions of a `list`; commas and whitespace are
/// structural separators and are dropped.
pub open spec fn list_scan(cs: Seq<CstView>, j: int, d: nat, acc: Seq<AstView>) -> Result<
    Seq<AstView>,
    ErrorView,
>
    decreases d, 1int, cs.len() - j,
{
    if !(0 <= j < cs.len()) {
        Ok(acc)
    } else if cs[j].rule == RuleTag::Whitespace || cs[j].rule == RuleTag::Comma {
        list_scan(cs, j + 1, d, acc)
    } else if cs[j].rule == RuleTag::Expr {
        match spec_parse_expr(cs[j], d) {
            Err(e) => Err(e),
            Ok(v) => list_scan(cs, j + 1, d, acc.push(v)),
        }
    } else {
        Err(spec_untranslated(cs[j]))
    }
}

/// `list` becomes a `List` node over its elements.
pub open spec fn spec_parse_list(c: CstView, depth: nat) -> Result<AstView, ErrorView>
    decreases depth, 0int, 0int,
{
    if depth == 0 {
        Err(spec_too_deep(c))
    } else {
        match list_scan(c.children, 0, (depth - 1) as nat, Seq::empty()) {
            Err(e) => Err(e),
            Ok(children) => Ok(AstView::List { children, r: spec_box_range(c.range) }),
        }
    }
}

/// Collect the string-typed key and the term value of an `html_pair`;
/// the `=` sign between them is dropped.  A missing part stays the
/// placeholder node.
pub open spec fn pair_scan(
    cs: Seq<CstView>,
    j: int,
    d: nat,
    key: AstView,
    value: AstView,
) -> Result<(AstView, AstView), ErrorView>
    decreases d, 1int, cs.len() - j,
{
    if !(0 <= j < cs.len()) {
        Ok((key, value))
    } else if cs[j].rule == RuleTag::SetSign {
        pair_scan(cs, j + 1, d, key, value)
    } else if cs[j].rule == RuleTag::BadSymbol {
        pair_scan(cs, j + 1, d, spec_parse_string(cs[j]), value)
    } else if cs[j].rule == RuleTag::Term {
        match spec_parse_term(cs[j], d) {
            Err(e) => Err(e),
            Ok(v) => pair_scan(cs, j + 1, d, key, v),
        }
    } else {
        Err(spec_untranslated(cs[j]))
    }
}

/// `html_pair` becomes a `(key, value)` tuple for template arguments.
pub open spec fn spec_parse_pair(c: CstView, depth: nat) -> Result<
    (AstView, AstView),
    ErrorView,
>
    decreases depth, 0int, 0int,
{
    if depth == 0 {
        Err(spec_too_deep(c))
    } else {
        pair_scan(c.children, 0, (depth - 1) as nat, AstView::Nothing, AstView::Nothing)
    }
}

/// Collect the raw identifier segments of a `Symbol` node.
pub open spec fn sym_scan(cs: Seq<CstView>, j: int, acc: Seq<AstView>) -> Result<
    Seq<AstView>,
    ErrorView,
>
    decreases cs.len() - j,
{
    if !(0 <= j < cs.len()) {
        Ok(acc)
    } else if cs[j].rule == RuleTag::SymbolSegment {
        sym_scan(cs, j + 1, acc.push(spec_parse_string(cs[j])))
    } else {
        Err(spec_untranslated(cs[j]))
    }
}

/// `Symbol` becomes a `Symbol` node over its segments; a symbol must
/// carry at least one segment.
pub open spec fn spec_parse_symbol(c: CstView, depth: nat) -> Result<AstView, ErrorView>
    decreases depth, 0int, 0int,
{
    if depth == 0 {
        Err(spec_too_deep(c))
    } else {
        match sym_scan(c.children, 0, Seq::empty()) {
            Err(e) => Err(e),
            Ok(children) => if children.len() == 0 {
                Err(spec_untranslated(c))
            } else {
                Ok(AstView::Symbol { children, r: spec_box_range(c.range) })
            },
        }
    }
}

/// A string-like leaf: the matched text, kept as it stands.
pub open spec fn spec_parse_string(c: CstView) -> AstView {
    AstView::Text { value: c.text, r: spec_box_range(c.range) }
}

/// A number leaf: the matched text, kept unparsed.
pub open spec fn spec_parse_number(c: CstView) -> AstView {
    AstView::Integer { value: c.text, r: spec_box_range(c.range) }
}

/// A special value: `true` and `false` become booleans; the grammar lets
/// nothing else reach this rule, so any other text stands for null.
pub open spec fn spec_parse_special(c: CstView) -> AstView {
    if c.text == "true"@ {
        AstView::Boolean { value: true, r: spec_box_range(c.range) }
    } else if c.text == "false"@ {
        AstView::Boolean { value: false, r: spec_box_range(c.range) }
    } else {
        AstView::Null { r: spec_box_range(c.range) }
    }
}

} // verus!

verus! {

/// The configuration and entry point of a parse: the tab width the
/// preprocessor expands to, an optional source locator kept for
/// diagnostics, and the bound on concrete-tree nesting.
///
/// A single instance serves one parse at a time; independent instances
/// are themselves independent.
#[derive(Debug, PartialEq, Eq)]
pub struct ParserConfig {
    pub tab_size: usize,
    pub file_url: Option<String>,
    pub max_depth: usize,
}

impl Default for ParserConfig {
    /// Tab width four, no locator, and a generous nesting bound.
    fn default() -> (c: Self)
        ensures
            c.tab_size == 4,
            c.file_url is None,
            c.max_depth == 255,
    {
        ParserConfig { tab_size: 4, file_url: None, max_depth: 255 }
    }
}

/// Model of the grammar engine's outcome as the caller hands it over.
pub open spec fn outcome_view(o: Result<CstNode, ParseError>) -> Result<CstView, ErrorView> {
    match o {
        Ok(c) => Ok(cst_view(c)),
        Err(e) => Err(err_view(e)),
    }
}

/// The whole translation: an engine failure is propagated unchanged and
/// no partial tree is exposed; an engine tree is translated under the
/// nesting bound.
pub open spec fn spec_parse(outcome: Result<CstView, ErrorView>, max_depth: nat) -> Result<
    AstView,
    ErrorView,
> {
    match outcome {
        Err(e) => Err(e),
        Ok(c) => spec_parse_program(c, max_depth),
    }
}

impl ParserConfig {
    /// Normalize source text before any grammar matching: `\r\n` to `\n`,
    /// escaped line continuations spliced, tabs expanded to the
    /// configured width.
    pub fn normalize(&self, input: &str) -> (out: String)
        ensures
            out@ == normalize_spec(input@, self.tab_size as nat),
    {
        normalize_text(input, self.tab_size)
    }

    /// Translate the grammar engine's outcome for the normalized text:
    /// either its concrete parse tree, or the syntax error it reported,
    /// which is passed through unchanged.  Parsing is all-or-nothing.
    pub fn parse(&self, outcome: Result<CstNode, ParseError>) -> (res: Result<AST, ParseError>)
        ensures
            ast_result_view(res) == spec_parse(outcome_view(outcome), self.max_depth as nat),
    {
        match outcome {
            Err(e) => Err(e),
            Ok(c) => self.parse_program(&c, self.max_depth),
        }
    }

    /// Translate a `program` node.
    pub fn parse_program(&self, c: &CstNode, depth: usize) -> (res: Result<AST, ParseError>)
        ensures
            ast_result_view(res) == spec_parse_program(cst_view(*c), depth as nat),
        decreases depth,
    {
        if depth == 0 {
            return Err(too_deep(c));
        }
        let d = depth - 1;
        let ghost gc = cst_view(*c);
        let mut codes: Vec<AST> = Vec::new();
        let n = c.children.len();
        let mut i: usize = 0;
        while i < n
            invariant
                n == c.children@.len(),
                i <= n,
                gc == cst_view(*c),
                depth >= 1,
                d == depth - 1,
                prog_scan(gc.children, 0, d as nat, Seq::empty()) == prog_scan(
                    gc.children,
                    i as int,
                    d as nat,
                    asts_view(codes@),
                ),
            decreases n - i,
        {
            proof {
                lemma_csts_view_index(c.children@);
            }
            let ch = &c.children[i];
            if ch.rule == RuleTag::Statement {
                match self.parse_statement(ch, d) {
                    Err(e) => {
                        return Err(e);
                    },
                    Ok(v) => {
                        proof {
                            lemma_asts_view_push(codes@, v);
                        }
                        codes.push(v);
                    },
                }
            }
            i = i + 1;
        }
        proof {
            lemma_csts_view_index(c.children@);
        }
        Ok(AST::program(codes))
    }

    /// Translate a `statement` node.
    pub fn parse_statement(&self, c: &CstNode, depth: usize) -> (res: Result<AST, ParseError>)
        ensures
            ast_result_view(res) == spec_parse_statement(cst_view(*c), depth as nat),
        decreases depth,
    {
        if depth == 0 {
            return Err(too_deep(c));
        }
        let d = depth - 1;
        let ghost gc = cst_view(*c);
        let mut codes: Vec<AST> = Vec::new();
        let n = c.children.len();
        let mut i: usize = 0;
        while i < n
            invariant
                n == c.children@.len(),
                i <= n,
                gc == cst_view(*c),
                depth >= 1,
                d == depth - 1,
                stmt_scan(gc.children, 0, d as nat, Seq::empty()) == stmt_scan(
                    gc.children,
                    i as int,
                    d as nat,
                    asts_view(codes@),
                ),
            decreases n - i,
        {
            proof {
                lemma_csts_view_index(c.children@);
            }
            let ch = &c.children[i];
            if ch.rule == RuleTag::Whitespace {
                // silent separator
            } else {
                let code = if ch.rule == RuleTag::Expression {
                    self.parse_expression(ch, d)
                } else if ch.rule == RuleTag::IfStatement {
                    self.parse_if_else(ch, d)
                } else if ch.rule == RuleTag::ForStatement {
                    self.parse_for_in(ch, d)
                } else {
                    Err(untranslated(ch))
                };
                match code {
                    Err(e) => {
                        return Err(e);
                    },
                    Ok(v) => {
                        proof {
                            lemma_asts_view_push(codes@, v);
                        }
                        codes.push(v);
                    },
                }
            }
            i = i + 1;
        }
        proof {
            lemma_csts_view_index(c.children@);
        }
        Ok(AST::statement(codes, c.range))
    }

    /// Translate a `block` node: a `Block` wrapping the statement it
    /// holds.
    pub fn parse_block(&self, c: &CstNode, depth: usize) -> (res: Result<AST, ParseError>)
        ensures
            ast_result_view(res) == spec_parse_block(cst_view(*c), depth as nat),
        decreases depth,
    {
        if depth == 0 {
            return Err(too_deep(c));
        }
        proof {
            lemma_csts_view_index(c.children@);
        }
        if c.children.len() == 0 {
            return Err(untranslated(c));
        }
        let ch = &c.children[0];
        if ch.rule == RuleTag::Statement {
            match self.parse_statement(ch, depth - 1) {
                Err(e) => Err(e),
                Ok(v) => {
                    let ghost gv = ast_view(v);
                    let mut children: Vec<AST> = Vec::new();
                    proof {
                        lemma_asts_view_push(Seq::empty(), v);
                        assert(asts_view(Seq::<AST>::empty()) =~= Seq::<AstView>::empty());
                        assert(Seq::<AstView>::empty().push(gv) =~= seq![gv]);
                    }
                    children.push(v);
                    Ok(AST::block(children, c.range))
                },
            }
        } else {
            Err(untranslated(ch))
        }
    }

    /// Translate a `Symbol` node: its raw identifier segments.
    pub fn parse_symbol(&self, c: &CstNode, depth: usize) -> (res: Result<AST, ParseError>)
        ensures
            ast_result_view(res) == spec_parse_symbol(cst_view(*c), depth as nat),
        decreases depth,
    {
        if depth == 0 {
            return Err(too_deep(c));
        }
        let ghost gc = cst_view(*c);
        let mut value: Vec<AST> = Vec::new();
        let n = c.children.len();
        let mut i: usize = 0;
        while i < n
            invariant
                n == c.children@.len(),
                i <= n,
                gc == cst_view(*c),
                depth >= 1,
                sym_scan(gc.children, 0, Seq::empty()) == sym_scan(
                    gc.children,
                    i as int,
                    asts_view(value@),
                ),
            decreases n - i,
        {
            proof {
                lemma_csts_view_index(c.children@);
            }
            let ch = &c.children[i];
            if ch.rule == RuleTag::SymbolSegment {
                let s = self.parse_string(ch);
                proof {
                    lemma_asts_view_push(value@, s);
                }
                value.push(s);
            } else {
                return Err(untranslated(ch));
            }
            i = i + 1;
        }
        proof {
            lemma_csts_view_index(c.children@);
            lemma_asts_view_index(value@);
        }
        if value.len() == 0 {
            return Err(untranslated(c));
        }
        Ok(AST::symbol(value, c.range))
    }

    /// Translate a string-like leaf: the matched text as it stands.
    pub fn parse_string(&self, c: &CstNode) -> (a: AST)
        ensures
            ast_view(a) == spec_parse_string(cst_view(*c)),
    {
        AST::string(c.text.clone(), c.range)
    }

    /// Translate a number leaf: the matched text, kept unparsed.
    pub fn parse_number(&self, c: &CstNode) -> (a: AST)
        ensures
            ast_view(a) == spec_parse_number(cst_view(*c)),
    {
        AST::integer(c.text.clone(), c.range)
    }

    /// Translate a special value: `true`, `false`, or null.
    pub fn parse_special(&self, c: &CstNode) -> (a: AST)
        ensures
            ast_view(a) == spec_parse_special(cst_view(*c)),
    {
        if str_is(&c.text, "true") {
            AST::boolean(true, c.range)
        } else if str_is(&c.text, "false") {
            AST::boolean(false, c.range)
        } else {
            AST::null(c.range)
        }
    }
}

} // verus!

verus! {

/// Model of a translated key/value pair result.
pub open spec fn pair_result_view(r: Result<(AST, AST), ParseError>) -> Result<
    (AstView, AstView),
    ErrorView,
> {
    match r {
        Ok((k, v)) => Ok((ast_view(k), ast_view(v))),
        Err(e) => Err(err_view(e)),
    }
}

/// Wrap a base operand in the collected suffix operators, left to right.
fn apply_suffix_ops(sfx: &Vec<String>, base: AST, r: TextRange) -> (out: AST)
    ensures
        ast_view(out) == apply_suffixes(strings_view(sfx@), ast_view(base), spec_box_range(r)),
{
    let ghost gbase = ast_view(base);
    let ghost gsfx = strings_view(sfx@);
    let ghost grange = spec_box_range(r);
    proof {
        lemma_strings_view_index(sfx@);
    }
    let n = sfx.len();
    let mut out = base;
    let mut k: usize = 0;
    proof {
        assert(gsfx.take(0) =~= Seq::<Seq<char>>::empty());
    }
    while k < n
        invariant
            n == sfx@.len(),
            k <= n,
            gsfx == strings_view(sfx@),
            grange == spec_box_range(r),
            ast_view(out) == apply_suffixes(gsfx.take(k as int), gbase, grange),
        decreases n - k,
    {
        proof {
            lemma_strings_view_index(sfx@);
            assert(gsfx.take(k as int + 1).drop_last() =~= gsfx.take(k as int));
            assert(gsfx.take(k as int + 1).last() == gsfx[k as int]);
        }
        let op = sfx[k].clone();
        out = AST::SuffixExpression { op, lhs: Box::new(out), r: box_range(r) };
        k = k + 1;
    }
    proof {
        assert(gsfx.take(n as int) =~= gsfx);
    }
    out
}

/// Wrap a base operand in the collected prefix operators, the one written
/// closest to the operand binding first.
fn apply_prefix_ops(pfx: &Vec<String>, base: AST, r: TextRange) -> (out: AST)
    ensures
        ast_view(out) == apply_prefixes(strings_view(pfx@), ast_view(base), spec_box_range(r)),
{
    let ghost gbase = ast_view(base);
    let ghost gpfx = strings_view(pfx@);
    let ghost grange = spec_box_range(r);
    proof {
        lemma_strings_view_index(pfx@);
    }
    let n = pfx.len();
    let mut out = base;
    let mut k: usize = n;
    proof {
        assert(gpfx.skip(n as int) =~= Seq::<Seq<char>>::empty());
    }
    while k > 0
        invariant
            n == pfx@.len(),
            k <= n,
            gpfx == strings_view(pfx@),
            grange == spec_box_range(r),
            ast_view(out) == apply_prefixes(gpfx.skip(k as int), gbase, grange),
        decreases k,
    {
        proof {
            lemma_strings_view_index(pfx@);
            assert(gpfx.skip(k as int - 1).first() == gpfx[k as int - 1]);
            assert(gpfx.skip(k as int - 1).drop_first() =~= gpfx.skip(k as int));
        }
        let op = pfx[k - 1].clone();
        out = AST::PrefixExpression { op, rhs: Box::new(out), r: box_range(r) };
        k = k - 1;
    }
    proof {
        assert(gpfx.skip(0) =~= gpfx);
    }
    out
}

impl ParserConfig {
    /// Translate an `if_statement` node.
    pub fn parse_if_else(&self, c: &CstNode, depth: usize) -> (res: Result<AST, ParseError>)
        ensures
            ast_result_view(res) == spec_parse_if_else(cst_view(*c), depth as nat),
        decreases depth,
    {
        if depth == 0 {
            return Err(too_deep(c));
        }
        let d = depth - 1;
        let ghost gc = cst_view(*c);
        let mut conditions: Vec<AST> = Vec::new();
        let mut actions: Vec<AST> = Vec::new();
        let n = c.children.len();
        let mut i: usize = 0;
        while i < n
            invariant
                n == c.children@.len(),
                i <= n,
                gc == cst_view(*c),
                depth >= 1,
                d == depth - 1,
                if_scan(gc.children, 0, d as nat, Seq::empty(), Seq::empty()) == if_scan(
                    gc.children,
                    i as int,
                    d as nat,
                    asts_view(conditions@),
                    asts_view(actions@),
                ),
            decreases n - i,
        {
            proof {
                lemma_csts_view_index(c.children@);
            }
            let ch = &c.children[i];
            if ch.rule == RuleTag::Expr {
                match self.parse_expr(ch, d) {
                    Err(e) => {
                        return Err(e);
                    },
                    Ok(v) => {
                        proof {
                            lemma_asts_view_push(conditions@, v);
                        }
                        conditions.push(v);
                    },
                }
            } else if ch.rule == RuleTag::Block {
                match self.parse_block(ch, d) {
                    Err(e) => {
                        return Err(e);
                    },
                    Ok(v) => {
                        proof {
                            lemma_asts_view_push(actions@, v);
                        }
                        actions.push(v);
                    },
                }
            } else {
                return Err(untranslated(ch));
            }
            i = i + 1;
        }
        proof {
            lemma_csts_view_index(c.children@);
        }
        Ok(AST::if_else_chain(conditions, actions, c.range))
    }

    /// Translate a `for_statement` node.
    pub fn parse_for_in(&self, c: &CstNode, depth: usize) -> (res: Result<AST, ParseError>)
        ensures
            ast_result_view(res) == spec_parse_for_in(cst_view(*c), depth as nat),
        decreases depth,
    {
        if depth == 0 {
            return Err(too_deep(c));
        }
        let d = depth - 1;
        let ghost gc = cst_view(*c);
        let mut pattern = AST::Nothing;
        let mut terms = AST::Nothing;
        let mut block = AST::Nothing;
        let n = c.children.len();
        let mut i: usize = 0;
        while i < n
            invariant
                n == c.children@.len(),
                i <= n,
                gc == cst_view(*c),
                depth >= 1,
                d == depth - 1,
                for_scan(
                    gc.children,
                    0,
                    d as nat,
                    AstView::Nothing,
                    AstView::Nothing,
                    AstView::Nothing,
                ) == for_scan(
                    gc.children,
                    i as int,
                    d as nat,
                    ast_view(pattern),
                    ast_view(terms),
                    ast_view(block),
                ),
            decreases n - i,
        {
            proof {
                lemma_csts_view_index(c.children@);
            }
            let ch = &c.children[i];
            if ch.rule == RuleTag::Whitespace {
                // silent separator
            } else if ch.rule == RuleTag::Pattern {
                match self.parse_pattern(ch, d) {
                    Err(e) => {
                        return Err(e);
                    },
                    Ok(v) => {
                        pattern = v;
                    },
                }
            } else if ch.rule == RuleTag::Expr {
                match self.parse_expr(ch, d) {
                    Err(e) => {
                        return Err(e);
                    },
                    Ok(v) => {
                        terms = v;
                    },
                }
            } else if ch.rule == RuleTag::Block {
                match self.parse_block(ch, d) {
                    Err(e) => {
                        return Err(e);
                    },
                    Ok(v) => {
                        block = v;
                    },
                }
            } else {
                return Err(untranslated(ch));
            }
            i = i + 1;
        }
        proof {
            lemma_csts_view_index(c.children@);
        }
        Ok(AST::for_in_loop(pattern, terms, block, c.range))
    }

    /// Translate an `expression` node.
    pub fn parse_expression(&self, c: &CstNode, depth: usize) -> (res: Result<AST, ParseError>)
        ensures
            ast_result_view(res) == spec_parse_expression(cst_view(*c), depth as nat),
        decreases depth,
    {
        if depth == 0 {
            return Err(too_deep(c));
        }
        proof {
            lemma_csts_view_index(c.children@);
        }
        if c.children.len() == 0 {
            return Err(untranslated(c));
        }
        match self.parse_expr(&c.children[0], depth - 1) {
            Err(e) => Err(e),
            Ok(v) => {
                let ghost gv = ast_view(v);
                let mut children: Vec<AST> = Vec::new();
                proof {
                    lemma_asts_view_push(Seq::empty(), v);
                    assert(asts_view(Seq::<AST>::empty()) =~= Seq::<AstView>::empty());
                    assert(Seq::<AstView>::empty().push(gv) =~= seq![gv]);
                }
                children.push(v);
                let eos = c.children.len() > 1;
                Ok(AST::expression(children, eos, c.range))
            },
        }
    }

    /// Translate an `expr` node through the precedence resolver.
    pub fn parse_expr(&self, c: &CstNode, depth: usize) -> (res: Result<AST, ParseError>)
        ensures
            ast_result_view(res) == spec_parse_expr(cst_view(*c), depth as nat),
        decreases depth,
    {
        if depth == 0 {
            return Err(too_deep(c));
        }
        let d = depth - 1;
        let ghost gc = cst_view(*c);
        let mut terms: Vec<AST> = Vec::new();
        let mut ops: Vec<String> = Vec::new();
        let n = c.children.len();
        let mut i: usize = 0;
        while i < n
            invariant
                n == c.children@.len(),
                i <= n,
                gc == cst_view(*c),
                depth >= 1,
                d == depth - 1,
                expr_scan(gc.children, 0, d as nat, Seq::empty(), Seq::empty()) == expr_scan(
                    gc.children,
                    i as int,
                    d as nat,
                    asts_view(terms@),
                    strings_view(ops@),
                ),
            decreases n - i,
        {
            proof {
                lemma_csts_view_index(c.children@);
            }
            let ch = &c.children[i];
            if i % 2 == 0 {
                if ch.rule == RuleTag::Term {
                    match self.parse_term(ch, d) {
                        Err(e) => {
                            return Err(e);
                        },
                        Ok(v) => {
                            proof {
                                lemma_asts_view_push(terms@, v);
                            }
                            terms.push(v);
                        },
                    }
                } else {
                    return Err(untranslated(ch));
                }
            } else {
                let t = ch.text.clone();
                proof {
                    lemma_strings_view_push(ops@, t);
                }
                ops.push(t);
            }
            i = i + 1;
        }
        proof {
            lemma_csts_view_index(c.children@);
            lemma_asts_view_index(terms@);
            lemma_strings_view_index(ops@);
        }
        if terms.len() > 0 && terms.len() - 1 == ops.len() {
            Ok(climb(&terms, &ops, c.range))
        } else {
            Err(untranslated(c))
        }
    }

    /// Translate a `term` node.
    pub fn parse_term(&self, c: &CstNode, depth: usize) -> (res: Result<AST, ParseError>)
        ensures
            ast_result_view(res) == spec_parse_term(cst_view(*c), depth as nat),
        decreases depth,
    {
        if depth == 0 {
            return Err(too_deep(c));
        }
        let d = depth - 1;
        let ghost gc = cst_view(*c);
        let mut base = AST::Nothing;
        let mut pfx: Vec<String> = Vec::new();
        let mut sfx: Vec<String> = Vec::new();
        let n = c.children.len();
        let mut i: usize = 0;
        while i < n
            invariant
                n == c.children@.len(),
                i <= n,
                gc == cst_view(*c),
                depth >= 1,
                d == depth - 1,
                term_scan(
                    gc.children,
                    0,
                    d as nat,
                    AstView::Nothing,
                    Seq::empty(),
                    Seq::empty(),
                ) == term_scan(
                    gc.children,
                    i as int,
                    d as nat,
                    ast_view(base),
                    strings_view(pfx@),
                    strings_view(sfx@),
                ),
            decreases n - i,
        {
            proof {
                lemma_csts_view_index(c.children@);
            }
            let ch = &c.children[i];
            if ch.rule == RuleTag::Whitespace {
                // silent separator
            } else if ch.rule == RuleTag::ChainCall {
                match self.parse_chain_call(ch, d) {
                    Err(e) => {
                        return Err(e);
                    },
                    Ok(v) => {
                        base = v;
                    },
                }
            } else if ch.rule == RuleTag::Prefix {
                let t = ch.text.clone();
                proof {
                    lemma_strings_view_push(pfx@, t);
                }
                pfx.push(t);
            } else if ch.rule == RuleTag::Suffix {
                let t = ch.text.clone();
                proof {
                    lemma_strings_view_push(sfx@, t);
                }
                sfx.push(t);
            } else {
                return Err(untranslated(ch));
            }
            i = i + 1;
        }
        proof {
            lemma_csts_view_index(c.children@);
        }
        let wrapped = apply_suffix_ops(&sfx, base, c.range);
        Ok(apply_prefix_ops(&pfx, wrapped, c.range))
    }

    /// Translate a `pattern` node: a single symbol binder.
    pub fn parse_pattern(&self, c: &CstNode, depth: usize) -> (res: Result<AST, ParseError>)
        ensures
            ast_result_view(res) == spec_parse_pattern(cst_view(*c), depth as nat),
        decreases depth,
    {
        if depth == 0 {
            return Err(too_deep(c));
        }
        proof {
            lemma_csts_view_index(c.children@);
        }
        if c.children.len() == 0 {
            return Err(untranslated(c));
        }
        let ch = &c.children[0];
        if ch.rule == RuleTag::Symbol {
            self.parse_symbol(ch, depth - 1)
        } else {
            Err(untranslated(ch))
        }
    }

    /// Translate a `chain_call` node: its base data node.
    pub fn parse_chain_call(&self, c: &CstNode, depth: usize) -> (res: Result<AST, ParseError>)
        ensures
            ast_result_view(res) == spec_parse_chain_call(cst_view(*c), depth as nat),
        decreases depth,
    {
        if depth == 0 {
            return Err(too_deep(c));
        }
        proof {
            lemma_csts_view_index(c.children@);
        }
        if c.children.len() == 0 {
            return Err(untranslated(c));
        }
        if c.children.len() > 1 {
            return Err(untranslated(&c.children[1]));
        }
        self.parse_data(&c.children[0], depth - 1)
    }

    /// Translate a `data` node by its single sub-rule.
    pub fn parse_data(&self, c: &CstNode, depth: usize) -> (res: Result<AST, ParseError>)
        ensures
            ast_result_view(res) == spec_parse_data(cst_view(*c), depth as nat),
        decreases depth,
    {
        if depth == 0 {
            return Err(too_deep(c));
        }
        proof {
            lemma_csts_view_index(c.children@);
        }
        if c.children.len() == 0 {
            return Err(untranslated(c));
        }
        let ch = &c.children[0];
        let d = depth - 1;
        if ch.rule == RuleTag::Template {
            self.parse_template(ch, d)
        } else if ch.rule == RuleTag::List {
            self.parse_list(ch, d)
        } else if ch.rule == RuleTag::StringLit {
            Ok(self.parse_string(ch))
        } else if ch.rule == RuleTag::NumberLit {
            Ok(self.parse_number(ch))
        } else if ch.rule == RuleTag::Symbol {
            self.parse_symbol(ch, d)
        } else if ch.rule == RuleTag::SpecialValue {
            Ok(self.parse_special(ch))
        } else {
            Err(untranslated(ch))
        }
    }
}

} // verus!

verus! {

impl ParserConfig {
    /// Translate a `template` node into a `Template` AST node.
    #[verifier::rlimit(50)]
    pub fn parse_template(&self, c: &CstNode, depth: usize) -> (res: Result<AST, ParseError>)
        ensures
            ast_result_view(res) == spec_parse_template(cst_view(*c), depth as nat),
        decreases depth,
    {
        if depth == 0 {
            return Err(too_deep(c));
        }
        let d = depth - 1;
        let ghost gc = cst_view(*c);
        proof {
            lemma_csts_view_index(c.children@);
        }
        if c.children.len() == 0 {
            return Err(untranslated(c));
        }
        let inner = &c.children[0];
        let ghost ginner = gc.children[0];
        let variant = if inner.rule == RuleTag::SelfClose {
            crate::ast::TemplateKind::SelfClose
        } else if inner.rule == RuleTag::OpenClose {
            crate::ast::TemplateKind::OpenClose
        } else if inner.rule == RuleTag::HtmlBad {
            crate::ast::TemplateKind::HtmlBad
        } else {
            return Err(untranslated(inner));
        };
        let mut tag = AST::Nothing;
        let mut attrs: Vec<AST> = Vec::new();
        let mut args: Vec<(AST, AST)> = Vec::new();
        let mut kids: Vec<AST> = Vec::new();
        let n = inner.children.len();
        let mut i: usize = 0;
        while i < n
            invariant
                n == inner.children@.len(),
                i <= n,
                gc == cst_view(*c),
                gc.children.len() > 0,
                ginner == cst_view(*inner),
                ginner == gc.children[0],
                depth >= 1,
                d == depth - 1,
                ginner.rule == RuleTag::SelfClose || ginner.rule == RuleTag::OpenClose
                    || ginner.rule == RuleTag::HtmlBad,
                variant == (if ginner.rule == RuleTag::SelfClose {
                    crate::ast::TemplateKind::SelfClose
                } else if ginner.rule == RuleTag::OpenClose {
                    crate::ast::TemplateKind::OpenClose
                } else {
                    crate::ast::TemplateKind::HtmlBad
                }),
                tmpl_scan(
                    ginner.children,
                    0,
                    d as nat,
                    variant,
                    AstView::Nothing,
                    Seq::empty(),
                    Seq::empty(),
                    Seq::empty(),
                ) == tmpl_scan(
                    ginner.children,
                    i as int,
                    d as nat,
                    variant,
                    ast_view(tag),
                    asts_view(attrs@),
                    crate::ast::ast_pairs_view(args@),
                    asts_view(kids@),
                ),
            decreases n - i,
        {
            proof {
                lemma_csts_view_index(inner.children@);
            }
            let ch = &inner.children[i];
            if matches!(variant, crate::ast::TemplateKind::HtmlBad) {
                // the malformed-tag arm captures whatever partial
                // structure can be placed and passes over the rest
                if ch.rule == RuleTag::Symbol || ch.rule == RuleTag::HtmlBadSymbol {
                    match self.parse_symbol(ch, d) {
                        Err(_) => {},
                        Ok(v) => {
                            tag = v;
                        },
                    }
                } else if ch.rule == RuleTag::BadSymbol {
                    match self.parse_symbol(ch, d) {
                        Err(_) => {},
                        Ok(v) => {
                            proof {
                                lemma_asts_view_push(attrs@, v);
                            }
                            attrs.push(v);
                        },
                    }
                } else if ch.rule == RuleTag::HtmlPair {
                    match self.parse_pair(ch, d) {
                        Err(_) => {},
                        Ok(kv) => {
                            proof {
                                crate::ast::lemma_ast_pairs_view_push(args@, kv);
                            }
                            args.push(kv);
                        },
                    }
                }
            } else if ch.rule == RuleTag::Symbol || ch.rule == RuleTag::HtmlBadSymbol {
                match self.parse_symbol(ch, d) {
                    Err(e) => {
                        return Err(e);
                    },
                    Ok(v) => {
                        tag = v;
                    },
                }
            } else if ch.rule == RuleTag::BadSymbol {
                match self.parse_symbol(ch, d) {
                    Err(e) => {
                        return Err(e);
                    },
                    Ok(v) => {
                        proof {
                            lemma_asts_view_push(attrs@, v);
                        }
                        attrs.push(v);
                    },
                }
            } else if ch.rule == RuleTag::HtmlPair {
                match self.parse_pair(ch, d) {
                    Err(e) => {
                        return Err(e);
                    },
                    Ok(kv) => {
                        proof {
                            crate::ast::lemma_ast_pairs_view_push(args@, kv);
                        }
                        args.push(kv);
                    },
                }
            } else if ch.rule == RuleTag::TextMode && matches!(
                variant,
                crate::ast::TemplateKind::OpenClose,
            ) {
                match self.parse_text_mode(ch, d) {
                    Err(e) => {
                        return Err(e);
                    },
                    Ok(v) => {
                        proof {
                            lemma_asts_view_push(kids@, v);
                        }
                        kids.push(v);
                    },
                }
            } else {
                return Err(untranslated(ch));
            }
            i = i + 1;
        }
        proof {
            lemma_csts_view_index(inner.children@);
        }
        let template = crate::ast::Template {
            variant,
            tag,
            attributes: attrs,
            arguments: args,
            children: kids,
        };
        Ok(AST::template(template, c.range))
    }

    /// Translate a `text_mode` node: the statements nested in it.
    pub fn parse_text_mode(&self, c: &CstNode, depth: usize) -> (res: Result<AST, ParseError>)
        ensures
            ast_result_view(res) == spec_parse_text_mode(cst_view(*c), depth as nat),
        decreases depth,
    {
        if depth == 0 {
            return Err(too_deep(c));
        }
        let d = depth - 1;
        let ghost gc = cst_view(*c);
        let mut terms: Vec<AST> = Vec::new();
        let n = c.children.len();
        let mut i: usize = 0;
        while i < n
            invariant
                n == c.children@.len(),
                i <= n,
                gc == cst_view(*c),
                depth >= 1,
                d == depth - 1,
                text_scan(gc.children, 0, d as nat, Seq::empty()) == text_scan(
                    gc.children,
                    i as int,
                    d as nat,
                    asts_view(terms@),
                ),
            decreases n - i,
        {
            proof {
                lemma_csts_view_index(c.children@);
            }
            let ch = &c.children[i];
            if ch.rule == RuleTag::Whitespace || ch.rule == RuleTag::TextChar {
                // literal text runs between statements are not retained
            } else if ch.rule == RuleTag::Statement {
                match self.parse_statement(ch, d) {
                    Err(e) => {
                        return Err(e);
                    },
                    Ok(v) => {
                        proof {
                            lemma_asts_view_push(terms@, v);
                        }
                        terms.push(v);
                    },
                }
            } else {
                return Err(untranslated(ch));
            }
            i = i + 1;
        }
        proof {
            lemma_csts_view_index(c.children@);
        }
        Ok(AST::block(terms, c.range))
    }

    /// Translate a `list` node: its element expressions.
    pub fn parse_list(&self, c: &CstNode, depth: usize) -> (res: Result<AST, ParseError>)
        ensures
            ast_result_view(res) == spec_parse_list(cst_view(*c), depth as nat),
        decreases depth,
    {
        if depth == 0 {
            return Err(too_deep(c));
        }
        let d = depth - 1;
        let ghost gc = cst_view(*c);
        let mut terms: Vec<AST> = Vec::new();
        let n = c.children.len();
        let mut i: usize = 0;
        while i < n
            invariant
                n == c.children@.len(),
                i <= n,
                gc == cst_view(*c),
                depth >= 1,
                d == depth - 1,
                list_scan(gc.children, 0, d as nat, Seq::empty()) == list_scan(
                    gc.children,
                    i as int,
                    d as nat,
                    asts_view(terms@),
                ),
            decreases n - i,
        {
            proof {
                lemma_csts_view_index(c.children@);
            }
            let ch = &c.children[i];
            if ch.rule == RuleTag::Whitespace || ch.rule == RuleTag::Comma {
                // structural separators are dropped
            } else if ch.rule == RuleTag::Expr {
                match self.parse_expr(ch, d) {
                    Err(e) => {
                        return Err(e);
                    },
                    Ok(v) => {
                        proof {
                            lemma_asts_view_push(terms@, v);
                        }
                        terms.push(v);
                    },
                }
            } else {
                return Err(untranslated(ch));
            }
            i = i + 1;
        }
        proof {
            lemma_csts_view_index(c.children@);
        }
        Ok(AST::list(terms, c.range))
    }

    /// Translate an `html_pair` node into a key/value pair.
    pub fn parse_pair(&self, c: &CstNode, depth: usize) -> (res: Result<(AST, AST), ParseError>)
        ensures
            pair_result_view(res) == spec_parse_pair(cst_view(*c), depth as nat),
        decreases depth,
    {
        if depth == 0 {
            return Err(too_deep(c));
        }
        let d = depth - 1;
        let ghost gc = cst_view(*c);
        let mut key = AST::Nothing;
        let mut value = AST::Nothing;
        let n = c.children.len();
        let mut i: usize = 0;
        while i < n
            invariant
                n == c.children@.len(),
                i <= n,
                gc == cst_view(*c),
                depth >= 1,
                d == depth - 1,
                pair_scan(gc.children, 0, d as nat, AstView::Nothing, AstView::Nothing)
                    == pair_scan(
                    gc.children,
                    i as int,
                    d as nat,
                    ast_view(key),
                    ast_view(value),
                ),
            decreases n - i,
        {
            proof {
                lemma_csts_view_index(c.children@);
            }
            let ch = &c.children[i];
            if ch.rule == RuleTag::SetSign {
                // the `=` sign is dropped
            } else if ch.rule == RuleTag::BadSymbol {
                key = self.parse_string(ch);
            } else if ch.rule == RuleTag::Term {
                match self.parse_term(ch, d) {
                    Err(e) => {
                        return Err(e);
                    },
                    Ok(v) => {
                        value = v;
                    },
                }
            } else {
                return Err(untranslated(ch));
            }
            i = i + 1;
        }
        proof {
            lemma_csts_view_index(c.children@);
        }
        Ok((key, value))
    }
}

} // verus!
