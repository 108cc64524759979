use crate::ast::{view_range, AstView, TemplateKind};
use crate::climb::{spec_climb, spec_climb_finish, spec_climb_loop, spec_reduce};
use crate::cst::{cst_wf, CstView};
use crate::errors::ErrorView;
use crate::parser::{
    apply_prefixes, apply_suffixes, expr_scan, for_scan, if_scan, list_scan, pair_scan,
    prog_scan, spec_parse, spec_parse_block, spec_parse_chain_call, spec_parse_data,
    spec_parse_expr, spec_parse_expression, spec_parse_for_in, spec_parse_if_else,
    spec_parse_list, spec_parse_number, spec_parse_pair, spec_parse_pattern,
    spec_parse_program, spec_parse_special, spec_parse_statement, spec_parse_string,
    spec_parse_symbol, spec_parse_template, spec_parse_term, spec_parse_text_mode,
    stmt_scan, sym_scan, term_scan, text_scan, tmpl_scan,
};
use crate::range::{opt_range_within, TextRange};
use vstd::prelude::*;

verus! {

// ---------------------------------------------------------------------
// Span containment: every node the builder produces contains, within its
// own range, the ranges of all its children, down the whole tree — given
// a well-nested concrete tree.
// ---------------------------------------------------------------------

/// Recursive span containment of one node: each direct sub-node lies
/// within this node's range (when both are present), and is itself
/// contained.
pub open spec fn contained(v: AstView) -> bool
    decreases v, 0int,
{
    match v {
        AstView::Nothing => true,
        AstView::Program { children } => seq_contained(children, None),
        AstView::Block { children, r } => seq_contained(children, r),
        AstView::Statement { children, r } => seq_contained(children, r),
        AstView::Expression { children, r, .. } => seq_contained(children, r),
        AstView::List { children, r } => seq_contained(children, r),
        AstView::Dict { children, r } => seq_contained(children, r),
        AstView::Pair { key, value, r } => sub_contained(*key, r) && sub_contained(*value, r),
        AstView::IfElseChain { conditions, actions, r } => seq_contained(conditions, r)
            && seq_contained(actions, r),
        AstView::ForInLoop { pattern, terms, block, r } => sub_contained(*pattern, r)
            && sub_contained(*terms, r) && sub_contained(*block, r),
        AstView::Template { template, r } => sub_contained(template.tag, r) && seq_contained(
            template.attributes,
            r,
        ) && pairs_contained(template.arguments, r) && seq_contained(template.children, r),
        AstView::InfixExpression { lhs, rhs, r, .. } => sub_contained(*lhs, r) && sub_contained(
            *rhs,
            r,
        ),
        AstView::PrefixExpression { rhs, r, .. } => sub_contained(*rhs, r),
        AstView::SuffixExpression { lhs, r, .. } => sub_contained(*lhs, r),
        AstView::Symbol { children, r } => seq_contained(children, r),
        AstView::Null { .. } => true,
        AstView::Boolean { .. } => true,
        AstView::Text { .. } => true,
        AstView::Integer { .. } => true,
    }
}

/// A sub-node is contained and lies within the parent's range.
pub open spec fn sub_contained(v: AstView, outer: Option<TextRange>) -> bool
    decreases v, 1int,
{
    contained(v) && opt_range_within(view_range(v), outer)
}

/// All nodes of a child list are contained and lie within the parent's
/// range.
pub open spec fn seq_contained(vs: Seq<AstView>, outer: Option<TextRange>) -> bool
    decreases vs, 2int,
{
    forall|i: int| 0 <= i < vs.len() ==> sub_contained(#[trigger] vs[i], outer)
}

/// All pairs of an argument list are contained and lie within the
/// parent's range.
pub open spec fn pairs_contained(ps: Seq<(AstView, AstView)>, outer: Option<TextRange>) -> bool
    decreases ps, 2int,
{
    forall|i: int|
        0 <= i < ps.len() ==> sub_contained((#[trigger] ps[i]).0, outer) && sub_contained(
            ps[i].1,
            outer,
        )
}

/// A node is contained and its range, if present, lies within `outer`.
pub open spec fn within(v: AstView, outer: TextRange) -> bool {
    contained(v) && opt_range_within(view_range(v), Some(outer))
}

/// An `Ok` translation result is contained and lies within `outer`.
pub open spec fn ok_within(res: Result<AstView, ErrorView>, outer: TextRange) -> bool {
    res matches Ok(a) ==> within(a, outer)
}

// ---------------------------------------------------------------------
// Containment through the precedence resolver.
// ---------------------------------------------------------------------

proof fn lemma_finish_within(
    st: Seq<AstView>,
    pend: Seq<Seq<char>>,
    rr: Option<TextRange>,
    outer: TextRange,
)
    requires
        st.len() == pend.len() + 1,
        forall|i: int| 0 <= i < st.len() ==> within(#[trigger] st[i], outer),
        rr is Some ==> rr == Some(outer),
    ensures
        within(spec_climb_finish(st, pend, rr), outer),
    decreases pend.len(),
{
    if pend.len() == 0 {
    } else {
        let st2 = spec_reduce(st, pend.last(), rr);
        assert(forall|i: int| 0 <= i < st2.len() - 1 ==> st2[i] == st[i]);
        assert(st2.last() == (AstView::InfixExpression {
            op: pend.last(),
            lhs: Box::new(st[st.len() - 2]),
            rhs: Box::new(st[st.len() - 1]),
            r: rr,
        }));
        assert(within(st2.last(), outer));
        lemma_finish_within(st2, pend.drop_last(), rr, outer);
    }
}

proof fn lemma_climb_loop_within(
    st: Seq<AstView>,
    pend: Seq<Seq<char>>,
    terms: Seq<AstView>,
    ops: Seq<Seq<char>>,
    k: int,
    rr: Option<TextRange>,
    outer: TextRange,
)
    requires
        st.len() == pend.len() + 1,
        terms.len() == ops.len() + 1,
        0 <= k,
        forall|i: int| 0 <= i < st.len() ==> within(#[trigger] st[i], outer),
        forall|i: int| 0 <= i < terms.len() ==> within(#[trigger] terms[i], outer),
        rr is Some ==> rr == Some(outer),
    ensures
        within(spec_climb_loop(st, pend, terms, ops, k, rr), outer),
    decreases ops.len() - k, pend.len(),
{
    if !(0 <= k < ops.len()) {
        lemma_finish_within(st, pend, rr, outer);
    } else if pend.len() > 0 && crate::climb::spec_should_reduce(pend.last(), ops[k]) {
        let st2 = spec_reduce(st, pend.last(), rr);
        assert(forall|i: int| 0 <= i < st2.len() - 1 ==> st2[i] == st[i]);
        assert(within(st2.last(), outer));
        lemma_climb_loop_within(st2, pend.drop_last(), terms, ops, k, rr, outer);
    } else {
        let st2 = st.push(terms[k + 1]);
        assert(forall|i: int| 0 <= i < st2.len() - 1 ==> st2[i] == st[i]);
        lemma_climb_loop_within(st2, pend.push(ops[k]), terms, ops, k + 1, rr, outer);
    }
}

/// The precedence resolver keeps containment: built infix nodes carry the
/// whole expression's span, and their operands lie within it.
pub proof fn lemma_climb_within(
    terms: Seq<AstView>,
    ops: Seq<Seq<char>>,
    rr: Option<TextRange>,
    outer: TextRange,
)
    requires
        terms.len() == ops.len() + 1,
        forall|i: int| 0 <= i < terms.len() ==> within(#[trigger] terms[i], outer),
        rr is Some ==> rr == Some(outer),
    ensures
        within(spec_climb(terms, ops, rr), outer),
{
    let st = seq![terms[0]];
    assert(forall|i: int| 0 <= i < st.len() ==> within(#[trigger] st[i], outer));
    lemma_climb_loop_within(st, Seq::empty(), terms, ops, 0, rr, outer);
}

proof fn lemma_apply_suffixes_within(
    sfx: Seq<Seq<char>>,
    base: AstView,
    rr: Option<TextRange>,
    outer: TextRange,
)
    requires
        within(base, outer),
        rr is Some ==> rr == Some(outer),
    ensures
        within(apply_suffixes(sfx, base, rr), outer),
    decreases sfx.len(),
{
    if sfx.len() > 0 {
        lemma_apply_suffixes_within(sfx.drop_last(), base, rr, outer);
    }
}

proof fn lemma_apply_prefixes_within(
    pfx: Seq<Seq<char>>,
    base: AstView,
    rr: Option<TextRange>,
    outer: TextRange,
)
    requires
        within(base, outer),
        rr is Some ==> rr == Some(outer),
    ensures
        within(apply_prefixes(pfx, base, rr), outer),
    decreases pfx.len(),
{
    if pfx.len() > 0 {
        lemma_apply_prefixes_within(pfx.drop_first(), base, rr, outer);
    }
}

} // verus!

verus! {

// ---------------------------------------------------------------------
// Containment through the tree builder, by mutual induction along the
// translation.
// ---------------------------------------------------------------------

use crate::cst::RuleTag;
use crate::range::spec_box_range;

/// Every listed concrete node is well-nested and lies within `outer`.
pub open spec fn kids_ok(cs: Seq<CstView>, outer: TextRange) -> bool {
    forall|i: int|
        0 <= i < cs.len() ==> cst_wf(#[trigger] cs[i]) && cs[i].range.is_within(outer)
}

proof fn lemma_within_widen(v: AstView, r1: TextRange, r2: TextRange)
    requires
        within(v, r1),
        r1.is_within(r2),
    ensures
        within(v, r2),
{
}

proof fn lemma_seq_within_to_contained(vs: Seq<AstView>, outer: TextRange, r: Option<TextRange>)
    requires
        forall|i: int| 0 <= i < vs.len() ==> within(#[trigger] vs[i], outer),
        r is Some ==> r == Some(outer),
    ensures
        seq_contained(vs, r),
{
    assert forall|i: int| 0 <= i < vs.len() implies sub_contained(#[trigger] vs[i], r) by {
        assert(within(vs[i], outer));
    }
}

proof fn lemma_pairs_within_to_contained(
    ps: Seq<(AstView, AstView)>,
    outer: TextRange,
    r: Option<TextRange>,
)
    requires
        forall|i: int|
            0 <= i < ps.len() ==> within((#[trigger] ps[i]).0, outer) && within(ps[i].1, outer),
        r is Some ==> r == Some(outer),
    ensures
        pairs_contained(ps, r),
{
    assert forall|i: int|
        0 <= i < ps.len() implies sub_contained((#[trigger] ps[i]).0, r) && sub_contained(
        ps[i].1,
        r,
    ) by {
        assert(within(ps[i].0, outer) && within(ps[i].1, outer));
    }
}

proof fn lemma_prog_scan_within(
    cs: Seq<CstView>,
    j: int,
    d: nat,
    acc: Seq<AstView>,
    outer: TextRange,
)
    requires
        kids_ok(cs, outer),
        forall|i: int| 0 <= i < acc.len() ==> within(#[trigger] acc[i], outer),
    ensures
        prog_scan(cs, j, d, acc) matches Ok(vs) ==> forall|i: int|
            0 <= i < vs.len() ==> within(#[trigger] vs[i], outer),
    decreases d, 1int, cs.len() - j,
{
    if !(0 <= j < cs.len()) {
    } else if cs[j].rule == RuleTag::Statement {
        lemma_parse_statement_within(cs[j], d);
        match spec_parse_statement(cs[j], d) {
            Err(_) => {},
            Ok(v) => {
                lemma_within_widen(v, cs[j].range, outer);
                lemma_prog_scan_within(cs, j + 1, d, acc.push(v), outer);
            },
        }
    } else {
        lemma_prog_scan_within(cs, j + 1, d, acc, outer);
    }
}

/// A well-nested concrete tree parses to a span-contained program.
pub proof fn lemma_parse_program_contained(c: CstView, depth: nat)
    requires
        cst_wf(c),
    ensures
        spec_parse_program(c, depth) matches Ok(a) ==> contained(a),
    decreases depth, 0int, 0int,
{
    if depth > 0 {
        lemma_prog_scan_within(c.children, 0, (depth - 1) as nat, Seq::empty(), c.range);
        match prog_scan(c.children, 0, (depth - 1) as nat, Seq::empty()) {
            Err(_) => {},
            Ok(children) => {
                lemma_seq_within_to_contained(children, c.range, None);
            },
        }
    }
}

proof fn lemma_stmt_scan_within(
    cs: Seq<CstView>,
    j: int,
    d: nat,
    acc: Seq<AstView>,
    outer: TextRange,
)
    requires
        kids_ok(cs, outer),
        forall|i: int| 0 <= i < acc.len() ==> within(#[trigger] acc[i], outer),
    ensures
        stmt_scan(cs, j, d, acc) matches Ok(vs) ==> forall|i: int|
            0 <= i < vs.len() ==> within(#[trigger] vs[i], outer),
    decreases d, 1int, cs.len() - j,
{
    if !(0 <= j < cs.len()) {
    } else if cs[j].rule == RuleTag::Whitespace {
        lemma_stmt_scan_within(cs, j + 1, d, acc, outer);
    } else if cs[j].rule == RuleTag::Expression {
        lemma_parse_expression_within(cs[j], d);
        match spec_parse_expression(cs[j], d) {
            Err(_) => {},
            Ok(v) => {
                lemma_within_widen(v, cs[j].range, outer);
                lemma_stmt_scan_within(cs, j + 1, d, acc.push(v), outer);
            },
        }
    } else if cs[j].rule == RuleTag::IfStatement {
        lemma_parse_if_else_within(cs[j], d);
        match spec_parse_if_else(cs[j], d) {
            Err(_) => {},
            Ok(v) => {
                lemma_within_widen(v, cs[j].range, outer);
                lemma_stmt_scan_within(cs, j + 1, d, acc.push(v), outer);
            },
        }
    } else if cs[j].rule == RuleTag::ForStatement {
        lemma_parse_for_in_within(cs[j], d);
        match spec_parse_for_in(cs[j], d) {
            Err(_) => {},
            Ok(v) => {
                lemma_within_widen(v, cs[j].range, outer);
                lemma_stmt_scan_within(cs, j + 1, d, acc.push(v), outer);
            },
        }
    }
}

proof fn lemma_parse_statement_within(c: CstView, depth: nat)
    requires
        cst_wf(c),
    ensures
        ok_within(spec_parse_statement(c, depth), c.range),
    decreases depth, 0int, 0int,
{
    if depth > 0 {
        lemma_stmt_scan_within(c.children, 0, (depth - 1) as nat, Seq::empty(), c.range);
        match stmt_scan(c.children, 0, (depth - 1) as nat, Seq::empty()) {
            Err(_) => {},
            Ok(children) => {
                lemma_seq_within_to_contained(children, c.range, spec_box_range(c.range));
            },
        }
    }
}

proof fn lemma_parse_block_within(c: CstView, depth: nat)
    requires
        cst_wf(c),
    ensures
        ok_within(spec_parse_block(c, depth), c.range),
    decreases depth, 0int, 0int,
{
    if depth > 0 && c.children.len() > 0 && c.children[0].rule == RuleTag::Statement {
        lemma_parse_statement_within(c.children[0], (depth - 1) as nat);
        match spec_parse_statement(c.children[0], (depth - 1) as nat) {
            Err(_) => {},
            Ok(v) => {
                lemma_within_widen(v, c.children[0].range, c.range);
                lemma_seq_within_to_contained(seq![v], c.range, spec_box_range(c.range));
            },
        }
    }
}

proof fn lemma_if_scan_within(
    cs: Seq<CstView>,
    j: int,
    d: nat,
    conds: Seq<AstView>,
    acts: Seq<AstView>,
    outer: TextRange,
)
    requires
        kids_ok(cs, outer),
        forall|i: int| 0 <= i < conds.len() ==> within(#[trigger] conds[i], outer),
        forall|i: int| 0 <= i < acts.len() ==> within(#[trigger] acts[i], outer),
    ensures
        if_scan(cs, j, d, conds, acts) matches Ok((cv, av)) ==> (forall|i: int|
            0 <= i < cv.len() ==> within(#[trigger] cv[i], outer)) && (forall|i: int|
            0 <= i < av.len() ==> within(#[trigger] av[i], outer)),
    decreases d, 1int, cs.len() - j,
{
    if !(0 <= j < cs.len()) {
    } else if cs[j].rule == RuleTag::Expr {
        lemma_parse_expr_within(cs[j], d);
        match spec_parse_expr(cs[j], d) {
            Err(_) => {},
            Ok(v) => {
                lemma_within_widen(v, cs[j].range, outer);
                lemma_if_scan_within(cs, j + 1, d, conds.push(v), acts, outer);
            },
        }
    } else if cs[j].rule == RuleTag::Block {
        lemma_parse_block_within(cs[j], d);
        match spec_parse_block(cs[j], d) {
            Err(_) => {},
            Ok(v) => {
                lemma_within_widen(v, cs[j].range, outer);
                lemma_if_scan_within(cs, j + 1, d, conds, acts.push(v), outer);
            },
        }
    }
}

proof fn lemma_parse_if_else_within(c: CstView, depth: nat)
    requires
        cst_wf(c),
    ensures
        ok_within(spec_parse_if_else(c, depth), c.range),
    decreases depth, 0int, 0int,
{
    if depth > 0 {
        lemma_if_scan_within(
            c.children,
            0,
            (depth - 1) as nat,
            Seq::empty(),
            Seq::empty(),
            c.range,
        );
        match if_scan(c.children, 0, (depth - 1) as nat, Seq::empty(), Seq::empty()) {
            Err(_) => {},
            Ok((conds, acts)) => {
                lemma_seq_within_to_contained(conds, c.range, spec_box_range(c.range));
                lemma_seq_within_to_contained(acts, c.range, spec_box_range(c.range));
            },
        }
    }
}

proof fn lemma_for_scan_within(
    cs: Seq<CstView>,
    j: int,
    d: nat,
    pattern: AstView,
    terms: AstView,
    block: AstView,
    outer: TextRange,
)
    requires
        kids_ok(cs, outer),
        within(pattern, outer),
        within(terms, outer),
        within(block, outer),
    ensures
        for_scan(cs, j, d, pattern, terms, block) matches Ok((p, t, b)) ==> within(p, outer)
            && within(t, outer) && within(b, outer),
    decreases d, 1int, cs.len() - j,
{
    if !(0 <= j < cs.len()) {
    } else if cs[j].rule == RuleTag::Whitespace {
        lemma_for_scan_within(cs, j + 1, d, pattern, terms, block, outer);
    } else if cs[j].rule == RuleTag::Pattern {
        lemma_parse_pattern_within(cs[j], d);
        match spec_parse_pattern(cs[j], d) {
            Err(_) => {},
            Ok(v) => {
                lemma_within_widen(v, cs[j].range, outer);
                lemma_for_scan_within(cs, j + 1, d, v, terms, block, outer);
            },
        }
    } else if cs[j].rule == RuleTag::Expr {
        lemma_parse_expr_within(cs[j], d);
        match spec_parse_expr(cs[j], d) {
            Err(_) => {},
            Ok(v) => {
                lemma_within_widen(v, cs[j].range, outer);
                lemma_for_scan_within(cs, j + 1, d, pattern, v, block, outer);
            },
        }
    } else if cs[j].rule == RuleTag::Block {
        lemma_parse_block_within(cs[j], d);
        match spec_parse_block(cs[j], d) {
            Err(_) => {},
            Ok(v) => {
                lemma_within_widen(v, cs[j].range, outer);
                lemma_for_scan_within(cs, j + 1, d, pattern, terms, v, outer);
            },
        }
    }
}

proof fn lemma_parse_for_in_within(c: CstView, depth: nat)
    requires
        cst_wf(c),
    ensures
        ok_within(spec_parse_for_in(c, depth), c.range),
    decreases depth, 0int, 0int,
{
    if depth > 0 {
        lemma_for_scan_within(
            c.children,
            0,
            (depth - 1) as nat,
            AstView::Nothing,
            AstView::Nothing,
            AstView::Nothing,
            c.range,
        );
    }
}

#[verifier::rlimit(50)]
proof fn lemma_parse_expression_within(c: CstView, depth: nat)
    requires
        cst_wf(c),
    ensures
        ok_within(spec_parse_expression(c, depth), c.range),
    decreases depth, 0int, 0int,
{
    if depth > 0 && c.children.len() > 0 {
        lemma_parse_expr_within(c.children[0], (depth - 1) as nat);
        match spec_parse_expr(c.children[0], (depth - 1) as nat) {
            Err(_) => {},
            Ok(v) => {
                lemma_within_widen(v, c.children[0].range, c.range);
                lemma_seq_within_to_contained(seq![v], c.range, spec_box_range(c.range));
            },
        }
    }
}

proof fn lemma_expr_scan_within(
    cs: Seq<CstView>,
    j: int,
    d: nat,
    terms: Seq<AstView>,
    ops: Seq<Seq<char>>,
    outer: TextRange,
)
    requires
        kids_ok(cs, outer),
        forall|i: int| 0 <= i < terms.len() ==> within(#[trigger] terms[i], outer),
    ensures
        expr_scan(cs, j, d, terms, ops) matches Ok((tv, ov)) ==> forall|i: int|
            0 <= i < tv.len() ==> within(#[trigger] tv[i], outer),
    decreases d, 1int, cs.len() - j,
{
    if !(0 <= j < cs.len()) {
    } else if j % 2 == 0 {
        if cs[j].rule == RuleTag::Term {
            lemma_parse_term_within(cs[j], d);
            match spec_parse_term(cs[j], d) {
                Err(_) => {},
                Ok(v) => {
                    lemma_within_widen(v, cs[j].range, outer);
                    lemma_expr_scan_within(cs, j + 1, d, terms.push(v), ops, outer);
                },
            }
        }
    } else {
        lemma_expr_scan_within(cs, j + 1, d, terms, ops.push(cs[j].text), outer);
    }
}

proof fn lemma_parse_expr_within(c: CstView, depth: nat)
    requires
        cst_wf(c),
    ensures
        ok_within(spec_parse_expr(c, depth), c.range),
    decreases depth, 0int, 0int,
{
    if depth > 0 {
        let d = (depth - 1) as nat;
        lemma_expr_scan_within(c.children, 0, d, Seq::empty(), Seq::empty(), c.range);
        match expr_scan(c.children, 0, d, Seq::empty(), Seq::empty()) {
            Err(_) => {},
            Ok((terms, ops)) => {
                if terms.len() == ops.len() + 1 {
                    lemma_climb_within(terms, ops, spec_box_range(c.range), c.range);
                }
            },
        }
    }
}

proof fn lemma_term_scan_within(
    cs: Seq<CstView>,
    j: int,
    d: nat,
    base: AstView,
    pfx: Seq<Seq<char>>,
    sfx: Seq<Seq<char>>,
    outer: TextRange,
)
    requires
        kids_ok(cs, outer),
        within(base, outer),
    ensures
        term_scan(cs, j, d, base, pfx, sfx) matches Ok((b, p, s)) ==> within(b, outer),
    decreases d, 1int, cs.len() - j,
{
    if !(0 <= j < cs.len()) {
    } else if cs[j].rule == RuleTag::Whitespace {
        lemma_term_scan_within(cs, j + 1, d, base, pfx, sfx, outer);
    } else if cs[j].rule == RuleTag::ChainCall {
        lemma_parse_chain_call_within(cs[j], d);
        match spec_parse_chain_call(cs[j], d) {
            Err(_) => {},
            Ok(v) => {
                lemma_within_widen(v, cs[j].range, outer);
                lemma_term_scan_within(cs, j + 1, d, v, pfx, sfx, outer);
            },
        }
    } else if cs[j].rule == RuleTag::Prefix {
        lemma_term_scan_within(cs, j + 1, d, base, pfx.push(cs[j].text), sfx, outer);
    } else if cs[j].rule == RuleTag::Suffix {
        lemma_term_scan_within(cs, j + 1, d, base, pfx, sfx.push(cs[j].text), outer);
    }
}

proof fn lemma_parse_term_within(c: CstView, depth: nat)
    requires
        cst_wf(c),
    ensures
        ok_within(spec_parse_term(c, depth), c.range),
    decreases depth, 0int, 0int,
{
    if depth > 0 {
        let d = (depth - 1) as nat;
        lemma_term_scan_within(
            c.children,
            0,
            d,
            AstView::Nothing,
            Seq::empty(),
            Seq::empty(),
            c.range,
        );
        match term_scan(c.children, 0, d, AstView::Nothing, Seq::empty(), Seq::empty()) {
            Err(_) => {},
            Ok((base, pfx, sfx)) => {
                lemma_apply_suffixes_within(sfx, base, spec_box_range(c.range), c.range);
                lemma_apply_prefixes_within(
                    pfx,
                    apply_suffixes(sfx, base, spec_box_range(c.range)),
                    spec_box_range(c.range),
                    c.range,
                );
            },
        }
    }
}

proof fn lemma_parse_pattern_within(c: CstView, depth: nat)
    requires
        cst_wf(c),
    ensures
        ok_within(spec_parse_pattern(c, depth), c.range),
    decreases depth, 0int, 0int,
{
    if depth > 0 && c.children.len() > 0 && c.children[0].rule == RuleTag::Symbol {
        lemma_parse_symbol_within(c.children[0], (depth - 1) as nat);
        match spec_parse_symbol(c.children[0], (depth - 1) as nat) {
            Err(_) => {},
            Ok(v) => {
                lemma_within_widen(v, c.children[0].range, c.range);
            },
        }
    }
}

proof fn lemma_parse_chain_call_within(c: CstView, depth: nat)
    requires
        cst_wf(c),
    ensures
        ok_within(spec_parse_chain_call(c, depth), c.range),
    decreases depth, 0int, 0int,
{
    if depth > 0 && c.children.len() == 1 {
        lemma_parse_data_within(c.children[0], (depth - 1) as nat);
        match spec_parse_data(c.children[0], (depth - 1) as nat) {
            Err(_) => {},
            Ok(v) => {
                lemma_within_widen(v, c.children[0].range, c.range);
            },
        }
    }
}

proof fn lemma_parse_data_within(c: CstView, depth: nat)
    requires
        cst_wf(c),
    ensures
        ok_within(spec_parse_data(c, depth), c.range),
    decreases depth, 0int, 0int,
{
    if depth > 0 && c.children.len() > 0 {
        let ch = c.children[0];
        let d = (depth - 1) as nat;
        if ch.rule == RuleTag::Template {
            lemma_parse_template_within(ch, d);
        } else if ch.rule == RuleTag::List {
            lemma_parse_list_within(ch, d);
        } else if ch.rule == RuleTag::Symbol {
            lemma_parse_symbol_within(ch, d);
        }
        match spec_parse_data(c, depth) {
            Err(_) => {},
            Ok(v) => {
                lemma_within_widen(v, ch.range, c.range);
            },
        }
    }
}

} // verus!

verus! {

proof fn lemma_tmpl_scan_within(
    cs: Seq<CstView>,
    j: int,
    d: nat,
    variant: TemplateKind,
    tag: AstView,
    attrs: Seq<AstView>,
    args: Seq<(AstView, AstView)>,
    kids: Seq<AstView>,
    outer: TextRange,
)
    requires
        kids_ok(cs, outer),
        within(tag, outer),
        forall|i: int| 0 <= i < attrs.len() ==> within(#[trigger] attrs[i], outer),
        forall|i: int|
            0 <= i < args.len() ==> within((#[trigger] args[i]).0, outer) && within(
                args[i].1,
                outer,
            ),
        forall|i: int| 0 <= i < kids.len() ==> within(#[trigger] kids[i], outer),
    ensures
        tmpl_scan(cs, j, d, variant, tag, attrs, args, kids) matches Ok((t, at, ar, k)) ==> ({
            &&& within(t, outer)
            &&& forall|i: int| 0 <= i < at.len() ==> within(#[trigger] at[i], outer)
            &&& forall|i: int|
                0 <= i < ar.len() ==> within((#[trigger] ar[i]).0, outer) && within(
                    ar[i].1,
                    outer,
                )
            &&& forall|i: int| 0 <= i < k.len() ==> within(#[trigger] k[i], outer)
        }),
    decreases d, 1int, cs.len() - j,
{
    if !(0 <= j < cs.len()) {
    } else if variant == TemplateKind::HtmlBad {
        if cs[j].rule == RuleTag::Symbol || cs[j].rule == RuleTag::HtmlBadSymbol {
            lemma_parse_symbol_within(cs[j], d);
            match spec_parse_symbol(cs[j], d) {
                Err(_) => {
                    lemma_tmpl_scan_within(cs, j + 1, d, variant, tag, attrs, args, kids, outer);
                },
                Ok(v) => {
                    lemma_within_widen(v, cs[j].range, outer);
                    lemma_tmpl_scan_within(cs, j + 1, d, variant, v, attrs, args, kids, outer);
                },
            }
        } else if cs[j].rule == RuleTag::BadSymbol {
            lemma_parse_symbol_within(cs[j], d);
            match spec_parse_symbol(cs[j], d) {
                Err(_) => {
                    lemma_tmpl_scan_within(cs, j + 1, d, variant, tag, attrs, args, kids, outer);
                },
                Ok(v) => {
                    lemma_within_widen(v, cs[j].range, outer);
                    lemma_tmpl_scan_within(
                        cs,
                        j + 1,
                        d,
                        variant,
                        tag,
                        attrs.push(v),
                        args,
                        kids,
                        outer,
                    );
                },
            }
        } else if cs[j].rule == RuleTag::HtmlPair {
            lemma_parse_pair_within(cs[j], d);
            match spec_parse_pair(cs[j], d) {
                Err(_) => {
                    lemma_tmpl_scan_within(cs, j + 1, d, variant, tag, attrs, args, kids, outer);
                },
                Ok((kv0, kv1)) => {
                    lemma_within_widen(kv0, cs[j].range, outer);
                    lemma_within_widen(kv1, cs[j].range, outer);
                    lemma_tmpl_scan_within(
                        cs,
                        j + 1,
                        d,
                        variant,
                        tag,
                        attrs,
                        args.push((kv0, kv1)),
                        kids,
                        outer,
                    );
                },
            }
        } else {
            lemma_tmpl_scan_within(cs, j + 1, d, variant, tag, attrs, args, kids, outer);
        }
    } else if cs[j].rule == RuleTag::Symbol || cs[j].rule == RuleTag::HtmlBadSymbol {
        lemma_parse_symbol_within(cs[j], d);
        match spec_parse_symbol(cs[j], d) {
            Err(_) => {},
            Ok(v) => {
                lemma_within_widen(v, cs[j].range, outer);
                lemma_tmpl_scan_within(cs, j + 1, d, variant, v, attrs, args, kids, outer);
            },
        }
    } else if cs[j].rule == RuleTag::BadSymbol {
        lemma_parse_symbol_within(cs[j], d);
        match spec_parse_symbol(cs[j], d) {
            Err(_) => {},
            Ok(v) => {
                lemma_within_widen(v, cs[j].range, outer);
                lemma_tmpl_scan_within(cs, j + 1, d, variant, tag, attrs.push(v), args, kids, outer);
            },
        }
    } else if cs[j].rule == RuleTag::HtmlPair {
        lemma_parse_pair_within(cs[j], d);
        match spec_parse_pair(cs[j], d) {
            Err(_) => {},
            Ok((kv0, kv1)) => {
                lemma_within_widen(kv0, cs[j].range, outer);
                lemma_within_widen(kv1, cs[j].range, outer);
                lemma_tmpl_scan_within(
                    cs,
                    j + 1,
                    d,
                    variant,
                    tag,
                    attrs,
                    args.push((kv0, kv1)),
                    kids,
                    outer,
                );
            },
        }
    } else if cs[j].rule == RuleTag::TextMode && variant == TemplateKind::OpenClose {
        lemma_parse_text_mode_within(cs[j], d);
        match spec_parse_text_mode(cs[j], d) {
            Err(_) => {},
            Ok(v) => {
                lemma_within_widen(v, cs[j].range, outer);
                lemma_tmpl_scan_within(cs, j + 1, d, variant, tag, attrs, args, kids.push(v), outer);
            },
        }
    }
}

proof fn lemma_parse_template_within(c: CstView, depth: nat)
    requires
        cst_wf(c),
    ensures
        ok_within(spec_parse_template(c, depth), c.range),
    decreases depth, 0int, 0int,
{
    if depth > 0 && c.children.len() > 0 {
        let inner = c.children[0];
        let d = (depth - 1) as nat;
        assert(cst_wf(inner) && inner.range.is_within(c.range));
        assert(kids_ok(inner.children, c.range)) by {
            assert(forall|i: int|
                0 <= i < inner.children.len() ==> cst_wf(#[trigger] inner.children[i])
                    && inner.children[i].range.is_within(inner.range));
        }
        if inner.rule == RuleTag::SelfClose || inner.rule == RuleTag::OpenClose || inner.rule
            == RuleTag::HtmlBad {
            let variant = if inner.rule == RuleTag::SelfClose {
                TemplateKind::SelfClose
            } else if inner.rule == RuleTag::OpenClose {
                TemplateKind::OpenClose
            } else {
                TemplateKind::HtmlBad
            };
            lemma_tmpl_scan_within(
                inner.children,
                0,
                d,
                variant,
                AstView::Nothing,
                Seq::empty(),
                Seq::empty(),
                Seq::empty(),
                c.range,
            );
            match tmpl_scan(
                inner.children,
                0,
                d,
                variant,
                AstView::Nothing,
                Seq::empty(),
                Seq::empty(),
                Seq::empty(),
            ) {
                Err(_) => {},
                Ok((tag, attrs, args, kids)) => {
                    lemma_seq_within_to_contained(attrs, c.range, spec_box_range(c.range));
                    lemma_pairs_within_to_contained(args, c.range, spec_box_range(c.range));
                    lemma_seq_within_to_contained(kids, c.range, spec_box_range(c.range));
                },
            }
        }
    }
}

proof fn lemma_text_scan_within(
    cs: Seq<CstView>,
    j: int,
    d: nat,
    acc: Seq<AstView>,
    outer: TextRange,
)
    requires
        kids_ok(cs, outer),
        forall|i: int| 0 <= i < acc.len() ==> within(#[trigger] acc[i], outer),
    ensures
        text_scan(cs, j, d, acc) matches Ok(vs) ==> forall|i: int|
            0 <= i < vs.len() ==> within(#[trigger] vs[i], outer),
    decreases d, 1int, cs.len() - j,
{
    if !(0 <= j < cs.len()) {
    } else if cs[j].rule == RuleTag::Whitespace || cs[j].rule == RuleTag::TextChar {
        lemma_text_scan_within(cs, j + 1, d, acc, outer);
    } else if cs[j].rule == RuleTag::Statement {
        lemma_parse_statement_within(cs[j], d);
        match spec_parse_statement(cs[j], d) {
            Err(_) => {},
            Ok(v) => {
                lemma_within_widen(v, cs[j].range, outer);
                lemma_text_scan_within(cs, j + 1, d, acc.push(v), outer);
            },
        }
    }
}

proof fn lemma_parse_text_mode_within(c: CstView, depth: nat)
    requires
        cst_wf(c),
    ensures
        ok_within(spec_parse_text_mode(c, depth), c.range),
    decreases depth, 0int, 0int,
{
    if depth > 0 {
        lemma_text_scan_within(c.children, 0, (depth - 1) as nat, Seq::empty(), c.range);
        match text_scan(c.children, 0, (depth - 1) as nat, Seq::empty()) {
            Err(_) => {},
            Ok(children) => {
                lemma_seq_within_to_contained(children, c.range, spec_box_range(c.range));
            },
        }
    }
}

proof fn lemma_list_scan_within(
    cs: Seq<CstView>,
    j: int,
    d: nat,
    acc: Seq<AstView>,
    outer: TextRange,
)
    requires
        kids_ok(cs, outer),
        forall|i: int| 0 <= i < acc.len() ==> within(#[trigger] acc[i], outer),
    ensures
        list_scan(cs, j, d, acc) matches Ok(vs) ==> forall|i: int|
            0 <= i < vs.len() ==> within(#[trigger] vs[i], outer),
    decreases d, 1int, cs.len() - j,
{
    if !(0 <= j < cs.len()) {
    } else if cs[j].rule == RuleTag::Whitespace || cs[j].rule == RuleTag::Comma {
        lemma_list_scan_within(cs, j + 1, d, acc, outer);
    } else if cs[j].rule == RuleTag::Expr {
        lemma_parse_expr_within(cs[j], d);
        match spec_parse_expr(cs[j], d) {
            Err(_) => {},
            Ok(v) => {
                lemma_within_widen(v, cs[j].range, outer);
                lemma_list_scan_within(cs, j + 1, d, acc.push(v), outer);
            },
        }
    }
}

proof fn lemma_parse_list_within(c: CstView, depth: nat)
    requires
        cst_wf(c),
    ensures
        ok_within(spec_parse_list(c, depth), c.range),
    decreases depth, 0int, 0int,
{
    if depth > 0 {
        lemma_list_scan_within(c.children, 0, (depth - 1) as nat, Seq::empty(), c.range);
        match list_scan(c.children, 0, (depth - 1) as nat, Seq::empty()) {
            Err(_) => {},
            Ok(children) => {
                lemma_seq_within_to_contained(children, c.range, spec_box_range(c.range));
            },
        }
    }
}

proof fn lemma_pair_scan_within(
    cs: Seq<CstView>,
    j: int,
    d: nat,
    key: AstView,
    value: AstView,
    outer: TextRange,
)
    requires
        kids_ok(cs, outer),
        within(key, outer),
        within(value, outer),
    ensures
        pair_scan(cs, j, d, key, value) matches Ok((k, v)) ==> within(k, outer) && within(
            v,
            outer,
        ),
    decreases d, 1int, cs.len() - j,
{
    if !(0 <= j < cs.len()) {
    } else if cs[j].rule == RuleTag::SetSign {
        lemma_pair_scan_within(cs, j + 1, d, key, value, outer);
    } else if cs[j].rule == RuleTag::BadSymbol {
        lemma_pair_scan_within(cs, j + 1, d, spec_parse_string(cs[j]), value, outer);
    } else if cs[j].rule == RuleTag::Term {
        lemma_parse_term_within(cs[j], d);
        match spec_parse_term(cs[j], d) {
            Err(_) => {},
            Ok(v) => {
                lemma_within_widen(v, cs[j].range, outer);
                lemma_pair_scan_within(cs, j + 1, d, key, v, outer);
            },
        }
    }
}

proof fn lemma_parse_pair_within(c: CstView, depth: nat)
    requires
        cst_wf(c),
    ensures
        spec_parse_pair(c, depth) matches Ok((k, v)) ==> within(k, c.range) && within(
            v,
            c.range,
        ),
    decreases depth, 0int, 0int,
{
    if depth > 0 {
        lemma_pair_scan_within(
            c.children,
            0,
            (depth - 1) as nat,
            AstView::Nothing,
            AstView::Nothing,
            c.range,
        );
    }
}

proof fn lemma_sym_scan_within(
    cs: Seq<CstView>,
    j: int,
    acc: Seq<AstView>,
    outer: TextRange,
)
    requires
        kids_ok(cs, outer),
        forall|i: int| 0 <= i < acc.len() ==> within(#[trigger] acc[i], outer),
    ensures
        sym_scan(cs, j, acc) matches Ok(vs) ==> forall|i: int|
            0 <= i < vs.len() ==> within(#[trigger] vs[i], outer),
    decreases cs.len() - j,
{
    if !(0 <= j < cs.len()) {
    } else if cs[j].rule == RuleTag::SymbolSegment {
        lemma_sym_scan_within(cs, j + 1, acc.push(spec_parse_string(cs[j])), outer);
    }
}

proof fn lemma_parse_symbol_within(c: CstView, depth: nat)
    requires
        cst_wf(c),
    ensures
        ok_within(spec_parse_symbol(c, depth), c.range),
    decreases depth, 0int, 0int,
{
    if depth > 0 {
        lemma_sym_scan_within(c.children, 0, Seq::empty(), c.range);
        match sym_scan(c.children, 0, Seq::empty()) {
            Err(_) => {},
            Ok(children) => {
                lemma_seq_within_to_contained(children, c.range, spec_box_range(c.range));
            },
        }
    }
}

// ---------------------------------------------------------------------
// The laws of the whole translation.
// ---------------------------------------------------------------------

/// Span containment: parsing a well-nested concrete tree yields a tree in
/// which every node's range, where present, contains the ranges of all
/// its children, recursively.
pub proof fn lemma_parse_spans_contained(
    outcome: Result<CstView, ErrorView>,
    max_depth: nat,
)
    requires
        outcome matches Ok(c) ==> cst_wf(c),
    ensures
        spec_parse(outcome, max_depth) matches Ok(a) ==> contained(a),
{
    match outcome {
        Err(_) => {},
        Ok(c) => {
            lemma_parse_program_contained(c, max_depth);
        },
    }
}

/// Determinism: the whole translation is a function of the concrete tree
/// and the configured bound alone, so parsing identical input twice
/// yields identical trees — same kinds, same children, and even the same
/// ranges, recursively.
pub proof fn lemma_parse_deterministic(
    o1: Result<CstView, ErrorView>,
    o2: Result<CstView, ErrorView>,
    d1: nat,
    d2: nat,
)
    requires
        o1 == o2,
        d1 == d2,
    ensures
        spec_parse(o1, d1) == spec_parse(o2, d2),
{
}

/// Fail-closed: whenever the grammar engine reports a syntax error, the
/// parse returns exactly that error and exposes no partial tree.
pub proof fn lemma_parse_fail_closed(e: ErrorView, max_depth: nat)
    ensures
        spec_parse(Err(e), max_depth) == Err::<AstView, ErrorView>(e),
{
}

} // verus!

verus! {

proof fn lemma_tmpl_scan_keeps_kids(
    cs: Seq<CstView>,
    j: int,
    d: nat,
    variant: TemplateKind,
    tag: AstView,
    attrs: Seq<AstView>,
    args: Seq<(AstView, AstView)>,
    kids: Seq<AstView>,
)
    requires
        variant != TemplateKind::OpenClose,
    ensures
        tmpl_scan(cs, j, d, variant, tag, attrs, args, kids) matches Ok((t, at, ar, k)) ==> k
            == kids,
    decreases d, 1int, cs.len() - j,
{
    if !(0 <= j < cs.len()) {
    } else if variant == TemplateKind::HtmlBad {
        if cs[j].rule == RuleTag::Symbol || cs[j].rule == RuleTag::HtmlBadSymbol {
            match spec_parse_symbol(cs[j], d) {
                Err(_) => {
                    lemma_tmpl_scan_keeps_kids(cs, j + 1, d, variant, tag, attrs, args, kids);
                },
                Ok(v) => {
                    lemma_tmpl_scan_keeps_kids(cs, j + 1, d, variant, v, attrs, args, kids);
                },
            }
        } else if cs[j].rule == RuleTag::BadSymbol {
            match spec_parse_symbol(cs[j], d) {
                Err(_) => {
                    lemma_tmpl_scan_keeps_kids(cs, j + 1, d, variant, tag, attrs, args, kids);
                },
                Ok(v) => {
                    lemma_tmpl_scan_keeps_kids(
                        cs,
                        j + 1,
                        d,
                        variant,
                        tag,
                        attrs.push(v),
                        args,
                        kids,
                    );
                },
            }
        } else if cs[j].rule == RuleTag::HtmlPair {
            match spec_parse_pair(cs[j], d) {
                Err(_) => {
                    lemma_tmpl_scan_keeps_kids(cs, j + 1, d, variant, tag, attrs, args, kids);
                },
                Ok(kv) => {
                    lemma_tmpl_scan_keeps_kids(
                        cs,
                        j + 1,
                        d,
                        variant,
                        tag,
                        attrs,
                        args.push(kv),
                        kids,
                    );
                },
            }
        } else {
            lemma_tmpl_scan_keeps_kids(cs, j + 1, d, variant, tag, attrs, args, kids);
        }
    } else if cs[j].rule == RuleTag::Symbol || cs[j].rule == RuleTag::HtmlBadSymbol {
        match spec_parse_symbol(cs[j], d) {
            Err(_) => {},
            Ok(v) => {
                lemma_tmpl_scan_keeps_kids(cs, j + 1, d, variant, v, attrs, args, kids);
            },
        }
    } else if cs[j].rule == RuleTag::BadSymbol {
        match spec_parse_symbol(cs[j], d) {
            Err(_) => {},
            Ok(v) => {
                lemma_tmpl_scan_keeps_kids(cs, j + 1, d, variant, tag, attrs.push(v), args, kids);
            },
        }
    } else if cs[j].rule == RuleTag::HtmlPair {
        match spec_parse_pair(cs[j], d) {
            Err(_) => {},
            Ok(kv) => {
                lemma_tmpl_scan_keeps_kids(cs, j + 1, d, variant, tag, attrs, args.push(kv), kids);
            },
        }
    }
}

/// A template that opens no body carries no children: in particular a
/// self-closing tag never has any, and a malformed tag keeps at most its
/// tag, attributes and arguments.
pub proof fn lemma_bodiless_template_has_no_children(c: CstView, depth: nat)
    ensures
        spec_parse_template(c, depth) matches Ok(a) ==> (a matches AstView::Template {
            template,
            ..
        } ==> (template.variant != TemplateKind::OpenClose ==> template.children.len() == 0)),
{
    if depth > 0 && c.children.len() > 0 {
        let inner = c.children[0];
        if inner.rule == RuleTag::SelfClose || inner.rule == RuleTag::HtmlBad {
            let variant = if inner.rule == RuleTag::SelfClose {
                TemplateKind::SelfClose
            } else {
                TemplateKind::HtmlBad
            };
            lemma_tmpl_scan_keeps_kids(
                inner.children,
                0,
                (depth - 1) as nat,
                variant,
                AstView::Nothing,
                Seq::empty(),
                Seq::empty(),
                Seq::empty(),
            );
        }
    }
}

} // verus!

verus! {

// ---------------------------------------------------------------------
// Malformed-tag tolerance.
// ---------------------------------------------------------------------

proof fn lemma_tmpl_scan_html_bad_ok(
    cs: Seq<CstView>,
    j: int,
    d: nat,
    tag: AstView,
    attrs: Seq<AstView>,
    args: Seq<(AstView, AstView)>,
    kids: Seq<AstView>,
)
    ensures
        tmpl_scan(cs, j, d, TemplateKind::HtmlBad, tag, attrs, args, kids) is Ok,
    decreases d, 1int, cs.len() - j,
{
    let variant = TemplateKind::HtmlBad;
    if !(0 <= j < cs.len()) {
    } else if cs[j].rule == RuleTag::Symbol || cs[j].rule == RuleTag::HtmlBadSymbol {
        match spec_parse_symbol(cs[j], d) {
            Err(_) => {
                lemma_tmpl_scan_html_bad_ok(cs, j + 1, d, tag, attrs, args, kids);
            },
            Ok(v) => {
                lemma_tmpl_scan_html_bad_ok(cs, j + 1, d, v, attrs, args, kids);
            },
        }
    } else if cs[j].rule == RuleTag::BadSymbol {
        match spec_parse_symbol(cs[j], d) {
            Err(_) => {
                lemma_tmpl_scan_html_bad_ok(cs, j + 1, d, tag, attrs, args, kids);
            },
            Ok(v) => {
                lemma_tmpl_scan_html_bad_ok(cs, j + 1, d, tag, attrs.push(v), args, kids);
            },
        }
    } else if cs[j].rule == RuleTag::HtmlPair {
        match spec_parse_pair(cs[j], d) {
            Err(_) => {
                lemma_tmpl_scan_html_bad_ok(cs, j + 1, d, tag, attrs, args, kids);
            },
            Ok(kv) => {
                lemma_tmpl_scan_html_bad_ok(cs, j + 1, d, tag, attrs, args.push(kv), kids);
            },
        }
    } else {
        lemma_tmpl_scan_html_bad_ok(cs, j + 1, d, tag, attrs, args, kids);
    }
}

/// Malformed-tag tolerance: a tag-like fragment the grammar classifies
/// as near-HTML always translates, whatever partial structure it holds —
/// the result is a `Template` node with the `HtmlBad` variant, and no
/// error escapes the fragment.
pub proof fn lemma_malformed_tag_tolerated(c: CstView, depth: nat)
    requires
        depth > 0,
        c.children.len() > 0,
        c.children[0].rule == RuleTag::HtmlBad,
    ensures
        spec_parse_template(c, depth) is Ok,
        spec_parse_template(c, depth) matches Ok(a) ==> (a matches AstView::Template {
            template,
            ..
        } && template.variant == TemplateKind::HtmlBad),
{
    lemma_tmpl_scan_html_bad_ok(
        c.children[0].children,
        0,
        (depth - 1) as nat,
        AstView::Nothing,
        Seq::empty(),
        Seq::empty(),
        Seq::empty(),
    );
}

// ---------------------------------------------------------------------
// Sibling independence at the top level.
// ---------------------------------------------------------------------

proof fn lemma_prog_scan_shift(
    cs1: Seq<CstView>,
    cs2: Seq<CstView>,
    j: int,
    d: nat,
    acc: Seq<AstView>,
)
    requires
        0 <= j <= cs2.len(),
    ensures
        prog_scan(cs1 + cs2, cs1.len() + j, d, acc) == prog_scan(cs2, j, d, acc),
    decreases cs2.len() - j,
{
    if j < cs2.len() {
        assert((cs1 + cs2)[cs1.len() as int + j] == cs2[j]);
        if cs2[j].rule == RuleTag::Statement {
            match spec_parse_statement(cs2[j], d) {
                Err(_) => {},
                Ok(v) => {
                    lemma_prog_scan_shift(cs1, cs2, j + 1, d, acc.push(v));
                },
            }
        } else {
            lemma_prog_scan_shift(cs1, cs2, j + 1, d, acc);
        }
    }
}

proof fn lemma_prog_scan_append(
    cs1: Seq<CstView>,
    cs2: Seq<CstView>,
    j: int,
    d: nat,
    acc: Seq<AstView>,
)
    requires
        0 <= j <= cs1.len(),
    ensures
        prog_scan(cs1 + cs2, j, d, acc) == (match prog_scan(cs1, j, d, acc) {
            Err(e) => Err(e),
            Ok(mid) => prog_scan(cs2, 0, d, mid),
        }),
    decreases cs1.len() - j,
{
    if j < cs1.len() {
        assert((cs1 + cs2)[j] == cs1[j]);
        if cs1[j].rule == RuleTag::Statement {
            match spec_parse_statement(cs1[j], d) {
                Err(_) => {},
                Ok(v) => {
                    lemma_prog_scan_append(cs1, cs2, j + 1, d, acc.push(v));
                },
            }
        } else {
            lemma_prog_scan_append(cs1, cs2, j + 1, d, acc);
        }
    } else {
        lemma_prog_scan_shift(cs1, cs2, 0, d, acc);
    }
}

proof fn lemma_prog_scan_acc(cs: Seq<CstView>, j: int, d: nat, acc: Seq<AstView>)
    requires
        0 <= j <= cs.len(),
    ensures
        prog_scan(cs, j, d, acc) == (match prog_scan(cs, j, d, Seq::empty()) {
            Err(e) => Err(e),
            Ok(vs) => Ok(acc + vs),
        }),
    decreases cs.len() - j,
{
    if j < cs.len() {
        if cs[j].rule == RuleTag::Statement {
            match spec_parse_statement(cs[j], d) {
                Err(_) => {},
                Ok(v) => {
                    lemma_prog_scan_acc(cs, j + 1, d, acc.push(v));
                    lemma_prog_scan_acc(cs, j + 1, d, Seq::<AstView>::empty().push(v));
                    match prog_scan(cs, j + 1, d, Seq::empty()) {
                        Err(_) => {},
                        Ok(vs) => {
                            assert(Seq::<AstView>::empty().push(v) =~= seq![v]);
                            assert(acc + (seq![v] + vs) =~= acc.push(v) + vs);
                        },
                    }
                },
            }
        } else {
            lemma_prog_scan_acc(cs, j + 1, d, acc);
        }
    } else {
        assert(acc + Seq::<AstView>::empty() =~= acc);
    }
}

/// Sibling independence: split a program's top-level children anywhere
/// into a part before, a part between, and a part after; when each part
/// translates on its own, the whole program's children are exactly the
/// concatenation of the parts' own translations.  In particular the
/// statements around a tolerated malformed fragment come out exactly as
/// they would without it, and the document is not rejected.
pub proof fn lemma_siblings_translate_independently(
    c: CstView,
    before: Seq<CstView>,
    mid: Seq<CstView>,
    after: Seq<CstView>,
    depth: nat,
)
    requires
        depth > 0,
        c.children == before + mid + after,
    ensures
        ({
            let d = (depth - 1) as nat;
            match (
                prog_scan(before, 0, d, Seq::empty()),
                prog_scan(mid, 0, d, Seq::empty()),
                prog_scan(after, 0, d, Seq::empty()),
            ) {
                (Ok(a), Ok(m), Ok(b)) => spec_parse_program(c, depth) == Ok::<
                    AstView,
                    ErrorView,
                >(AstView::Program { children: a + m + b }),
                _ => true,
            }
        }),
{
    let d = (depth - 1) as nat;
    assert(before + (mid + after) =~= before + mid + after);
    lemma_prog_scan_append(before, mid + after, 0, d, Seq::empty());
    match prog_scan(before, 0, d, Seq::<AstView>::empty()) {
        Err(_) => {},
        Ok(a) => {
            lemma_prog_scan_append(mid, after, 0, d, a);
            lemma_prog_scan_acc(mid, 0, d, a);
            match prog_scan(mid, 0, d, Seq::<AstView>::empty()) {
                Err(_) => {},
                Ok(m) => {
                    lemma_prog_scan_acc(after, 0, d, a + m);
                    match prog_scan(after, 0, d, Seq::<AstView>::empty()) {
                        Err(_) => {},
                        Ok(b) => {
                            assert((a + m) + b =~= a + m + b);
                        },
                    }
                },
            }
        },
    }
}

} // verus!
