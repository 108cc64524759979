use crate::ast::{ast_view, asts_view, lemma_asts_view_drop_last, lemma_asts_view_index, AstView, AST};
use crate::range::{box_range, spec_box_range, TextRange};
use crate::util::{lemma_strings_view_drop_last, lemma_strings_view_index, lemma_strings_view_push, str_is, strings_view};
use vstd::prelude::*;

verus! {

// The operator table: each operator symbol is mapped to a precedence level
// and an associativity.  It is ordinary, inspectable data, independent of
// the grammar engine; re-ranking an operator touches nothing else.

/// The precedence level of an infix operator symbol; higher binds tighter.
/// A symbol outside the table gets the loosest level.
pub open spec fn spec_precedence(op: Seq<char>) -> u32 {
    if op == "="@ {
        1
    } else if op == "||"@ {
        2
    } else if op == "&&"@ {
        3
    } else if op == "=="@ || op == "!="@ || op == "<"@ || op == ">"@ || op == "<="@ || op
        == ">="@ {
        4
    } else if op == "+"@ || op == "-"@ {
        5
    } else if op == "*"@ || op == "/"@ || op == "%"@ {
        6
    } else if op == "^"@ {
        7
    } else {
        0
    }
}

/// Whether an operator symbol is right-associative; every operator is
/// left-associative unless the table says otherwise.
pub open spec fn spec_right_assoc(op: Seq<char>) -> bool {
    op == "="@ || op == "^"@
}

/// The table entry of an operator symbol.
pub fn op_precedence(op: &String) -> (p: u32)
    ensures
        p == spec_precedence(op@),
{
    if str_is(op, "=") {
        1
    } else if str_is(op, "||") {
        2
    } else if str_is(op, "&&") {
        3
    } else if str_is(op, "==") || str_is(op, "!=") || str_is(op, "<") || str_is(op, ">")
        || str_is(op, "<=") || str_is(op, ">=") {
        4
    } else if str_is(op, "+") || str_is(op, "-") {
        5
    } else if str_is(op, "*") || str_is(op, "/") || str_is(op, "%") {
        6
    } else if str_is(op, "^") {
        7
    } else {
        0
    }
}

/// Whether an operator symbol is declared right-associative.
pub fn op_right_assoc(op: &String) -> (b: bool)
    ensures
        b == spec_right_assoc(op@),
{
    str_is(op, "=") || str_is(op, "^")
}

/// Whether the two most recent operands are combined under `top` before
/// `next` is considered: `next` must outrank `top` strictly to defer the
/// reduction, except that a right-associative operator also defers at
/// equal precedence.
pub open spec fn spec_should_reduce(top: Seq<char>, next: Seq<char>) -> bool {
    spec_precedence(next) < spec_precedence(top) || (spec_precedence(next) == spec_precedence(top)
        && !spec_right_assoc(next))
}

/// The reduction test on operator tokens.
pub fn should_reduce(top: &String, next: &String) -> (b: bool)
    ensures
        b == spec_should_reduce(top@, next@),
{
    let pt = op_precedence(top);
    let pn = op_precedence(next);
    pn < pt || (pn == pt && !op_right_assoc(next))
}

/// Combine the two most recent operands under `op`.
pub open spec fn spec_reduce(st: Seq<AstView>, op: Seq<char>, r: Option<TextRange>) -> Seq<
    AstView,
> {
    st.drop_last().drop_last().push(
        AstView::InfixExpression {
            op,
            lhs: Box::new(st[st.len() - 2]),
            rhs: Box::new(st[st.len() - 1]),
            r,
        },
    )
}

/// Reduce every pending operator once the input is exhausted.
pub open spec fn spec_climb_finish(st: Seq<AstView>, pend: Seq<Seq<char>>, r: Option<
    TextRange,
>) -> AstView
    decreases pend.len(),
{
    if pend.len() == 0 {
        if st.len() > 0 {
            st.last()
        } else {
            AstView::Nothing
        }
    } else {
        spec_climb_finish(spec_reduce(st, pend.last(), r), pend.drop_last(), r)
    }
}

/// One step of the resolver: with operand stack `st` and pending-operator
/// stack `pend`, either reduce, or shift the next operator and operand.
pub open spec fn spec_climb_loop(
    st: Seq<AstView>,
    pend: Seq<Seq<char>>,
    terms: Seq<AstView>,
    ops: Seq<Seq<char>>,
    k: int,
    r: Option<TextRange>,
) -> AstView
    decreases ops.len() - k, pend.len(),
{
    if !(0 <= k < ops.len()) {
        spec_climb_finish(st, pend, r)
    } else if pend.len() > 0 && spec_should_reduce(pend.last(), ops[k]) {
        spec_climb_loop(spec_reduce(st, pend.last(), r), pend.drop_last(), terms, ops, k, r)
    } else {
        spec_climb_loop(st.push(terms[k + 1]), pend.push(ops[k]), terms, ops, k + 1, r)
    }
}

/// The resolved tree for a flat operand/operator sequence: operands
/// `terms` interleaved with the infix operators `ops`, all built nodes
/// carrying the span `r` of the whole expression.
pub open spec fn spec_climb(terms: Seq<AstView>, ops: Seq<Seq<char>>, r: Option<
    TextRange,
>) -> AstView {
    if terms.len() == 0 {
        AstView::Nothing
    } else {
        spec_climb_loop(seq![terms[0]], Seq::empty(), terms, ops, 0, r)
    }
}

/// Whether the top of the pending stack reduces before `next` shifts.
fn top_should_reduce(pend: &Vec<String>, next: &String) -> (b: bool)
    ensures
        b == (pend@.len() > 0 && spec_should_reduce(pend@.last()@, next@)),
{
    if pend.len() == 0 {
        false
    } else {
        should_reduce(&pend[pend.len() - 1], next)
    }
}

/// Pop one pending operator and combine the two most recent operands
/// under it.
fn reduce_once(st: &mut Vec<AST>, pend: &mut Vec<String>, r: TextRange)
    requires
        old(st)@.len() >= 2,
        old(pend)@.len() >= 1,
    ensures
        final(st)@.len() == old(st)@.len() - 1,
        final(pend)@ == old(pend)@.drop_last(),
        strings_view(final(pend)@) == strings_view(old(pend)@).drop_last(),
        asts_view(final(st)@) == spec_reduce(
            asts_view(old(st)@),
            strings_view(old(pend)@).last(),
            spec_box_range(r),
        ),
{
    let ghost old_st = st@;
    let ghost old_pend = pend@;
    let rhs = st.pop().unwrap();
    let lhs = st.pop().unwrap();
    let op = pend.pop().unwrap();
    proof {
        lemma_asts_view_index(old_st);
        lemma_strings_view_drop_last(old_pend);
        lemma_asts_view_drop_last(old_st);
        lemma_asts_view_drop_last(old_st.drop_last());
        assert(lhs == old_st.drop_last().last());
        assert(ast_view(rhs) == asts_view(old_st).last());
        assert(ast_view(lhs) == asts_view(old_st)[old_st.len() - 2]);
    }
    let node = AST::InfixExpression { op, lhs: Box::new(lhs), rhs: Box::new(rhs), r: box_range(r) };
    proof {
        crate::ast::lemma_asts_view_push(st@, node);
        assert(asts_view(st@.push(node)) =~= spec_reduce(
            asts_view(old_st),
            strings_view(old_pend).last(),
            spec_box_range(r),
        ));
    }
    st.push(node);
}

/// Turn a flat sequence of operands interleaved with infix operators into
/// one correctly nested `InfixExpression` tree, per the operator table.
pub fn climb(terms: &Vec<AST>, ops: &Vec<String>, r: TextRange) -> (res: AST)
    requires
        terms@.len() == ops@.len() + 1,
    ensures
        ast_view(res) == spec_climb(asts_view(terms@), strings_view(ops@), spec_box_range(r)),
{
    let ghost gterms = asts_view(terms@);
    let ghost gops = strings_view(ops@);
    let ghost grange = spec_box_range(r);
    let n_ops = ops.len();
    let mut st: Vec<AST> = Vec::new();
    let mut pend: Vec<String> = Vec::new();
    let t0 = terms[0].clone();
    proof {
        lemma_asts_view_index(terms@);
        lemma_strings_view_index(ops@);
        crate::ast::lemma_asts_view_push(Seq::empty(), t0);
        assert(asts_view(Seq::<AST>::empty()) =~= Seq::<AstView>::empty());
        assert(Seq::<AstView>::empty().push(ast_view(t0)) =~= seq![gterms[0]]);
    }
    st.push(t0);
    let mut k: usize = 0;
    while k < n_ops
        invariant
            terms@.len() == ops@.len() + 1,
            n_ops == ops@.len(),
            k <= n_ops,
            gterms == asts_view(terms@),
            gops == strings_view(ops@),
            grange == spec_box_range(r),
            st@.len() == pend@.len() + 1,
            spec_climb_loop(asts_view(st@), strings_view(pend@), gterms, gops, k as int, grange)
                == spec_climb(gterms, gops, grange),
        decreases n_ops - k,
    {
        while top_should_reduce(&pend, &ops[k])
            invariant
                terms@.len() == ops@.len() + 1,
                n_ops == ops@.len(),
                k < n_ops,
                gterms == asts_view(terms@),
                gops == strings_view(ops@),
                grange == spec_box_range(r),
                st@.len() == pend@.len() + 1,
                spec_climb_loop(
                    asts_view(st@),
                    strings_view(pend@),
                    gterms,
                    gops,
                    k as int,
                    grange,
                ) == spec_climb(gterms, gops, grange),
            decreases pend@.len(),
        {
            let ghost old_st = st@;
            let ghost old_pend = pend@;
            proof {
                lemma_strings_view_index(ops@);
                lemma_strings_view_drop_last(old_pend);
            }
            reduce_once(&mut st, &mut pend, r);
            proof {
                assert(spec_climb_loop(
                    asts_view(old_st),
                    strings_view(old_pend),
                    gterms,
                    gops,
                    k as int,
                    grange,
                ) == spec_climb_loop(
                    asts_view(st@),
                    strings_view(pend@),
                    gterms,
                    gops,
                    k as int,
                    grange,
                ));
            }
        }
        let ghost old_st = st@;
        let ghost old_pend = pend@;
        let t = terms[k + 1].clone();
        let o = ops[k].clone();
        proof {
            lemma_asts_view_index(terms@);
            lemma_strings_view_index(ops@);
            crate::ast::lemma_asts_view_push(old_st, t);
            lemma_strings_view_push(old_pend, o);
            assert(asts_view(old_st.push(t)) =~= asts_view(old_st).push(gterms[k as int + 1]));
            assert(strings_view(old_pend.push(o)) =~= strings_view(old_pend).push(gops[k as int]));
        }
        st.push(t);
        pend.push(o);
        k = k + 1;
    }
    while pend.len() > 0
        invariant
            st@.len() == pend@.len() + 1,
            grange == spec_box_range(r),
            spec_climb_finish(asts_view(st@), strings_view(pend@), grange) == spec_climb(
                gterms,
                gops,
                grange,
            ),
        decreases pend@.len(),
    {
        let ghost old_st = st@;
        let ghost old_pend = pend@;
        proof {
            lemma_strings_view_drop_last(old_pend);
        }
        reduce_once(&mut st, &mut pend, r);
    }
    let ghost final_st = st@;
    let res = st.pop().unwrap();
    proof {
        lemma_asts_view_index(final_st);
        lemma_asts_view_drop_last(final_st);
        assert(strings_view(pend@) =~= Seq::<Seq<char>>::empty());
        assert(asts_view(final_st).len() == 1);
    }
    res
}

} // verus!
