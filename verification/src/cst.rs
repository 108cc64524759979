use crate::range::TextRange;
use vstd::prelude::*;

verus! {

/// The rule tags of the concrete grammar, as the external grammar engine
/// reports them.  The tree builder owns exactly one translation per tag;
/// `Other` stands for any production the builder does not translate and
/// always yields a structured error.
#[derive(Clone, Copy, Debug, PartialEq, Eq, Structural)]
pub enum RuleTag {
    Program,
    Statement,
    Whitespace,
    Expression,
    IfStatement,
    ForStatement,
    Block,
    Expr,
    Term,
    Pattern,
    ChainCall,
    Data,
    Template,
    SelfClose,
    OpenClose,
    HtmlBad,
    HtmlBadSymbol,
    TextMode,
    BadSymbol,
    HtmlPair,
    SetSign,
    TextChar,
    List,
    Comma,
    StringLit,
    NumberLit,
    Symbol,
    SymbolSegment,
    SpecialValue,
    Operator,
    Prefix,
    Suffix,
    Eos,
    Other,
}

/// One node of the concrete parse tree handed over by the grammar engine:
/// a rule tag, the matched span, the matched text, and the sub-matches in
/// source order.
#[derive(Debug, PartialEq, Eq)]
pub struct CstNode {
    pub rule: RuleTag,
    pub range: TextRange,
    pub text: String,
    pub children: Vec<CstNode>,
}

/// Mathematical model of a concrete-tree node.
pub struct CstView {
    pub rule: RuleTag,
    pub range: TextRange,
    pub text: Seq<char>,
    pub children: Seq<CstView>,
}

/// Model of a vector of concrete nodes.
pub open spec fn csts_view(v: Seq<CstNode>) -> Seq<CstView>
    decreases v,
{
    if v.len() == 0 {
        Seq::empty()
    } else {
        csts_view(v.drop_last()).push(cst_view(v.last()))
    }
}

/// Model of one concrete node.
pub open spec fn cst_view(c: CstNode) -> CstView
    decreases c,
{
    CstView { rule: c.rule, range: c.range, text: c.text@, children: csts_view(c.children@) }
}

/// The model of a vector of nodes has the same length and the model of
/// each element at its place.
pub proof fn lemma_csts_view_index(v: Seq<CstNode>)
    ensures
        csts_view(v).len() == v.len(),
        forall|i: int| 0 <= i < v.len() ==> #[trigger] csts_view(v)[i] == cst_view(v[i]),
    decreases v,
{
    if v.len() > 0 {
        lemma_csts_view_index(v.drop_last());
        assert(forall|i: int|
            0 <= i < v.len() - 1 ==> #[trigger] csts_view(v)[i] == csts_view(v.drop_last())[i]
                && v.drop_last()[i] == v[i]);
    }
}

/// A well-nested concrete tree: every sub-match lies inside the span of
/// the match that produced it, recursively.
pub open spec fn cst_wf(c: CstView) -> bool
    decreases c,
{
    forall|i: int|
        0 <= i < c.children.len() ==> (#[trigger] c.children[i]).range.is_within(c.range)
            && cst_wf(c.children[i])
}

/// The name of a rule tag, as it appears in diagnostics.
pub open spec fn spec_tag_name(t: RuleTag) -> Seq<char> {
    match t {
        RuleTag::Program => "program"@,
        RuleTag::Statement => "statement"@,
        RuleTag::Whitespace => "WHITESPACE"@,
        RuleTag::Expression => "expression"@,
        RuleTag::IfStatement => "if_statement"@,
        RuleTag::ForStatement => "for_statement"@,
        RuleTag::Block => "block"@,
        RuleTag::Expr => "expr"@,
        RuleTag::Term => "term"@,
        RuleTag::Pattern => "pattern"@,
        RuleTag::ChainCall => "chain_call"@,
        RuleTag::Data => "data"@,
        RuleTag::Template => "template"@,
        RuleTag::SelfClose => "SelfClose"@,
        RuleTag::OpenClose => "OpenClose"@,
        RuleTag::HtmlBad => "HTMLBad"@,
        RuleTag::HtmlBadSymbol => "HTMLBadSymbol"@,
        RuleTag::TextMode => "text_mode"@,
        RuleTag::BadSymbol => "BadSymbol"@,
        RuleTag::HtmlPair => "html_pair"@,
        RuleTag::SetSign => "Set"@,
        RuleTag::TextChar => "text_char"@,
        RuleTag::List => "list"@,
        RuleTag::Comma => "Comma"@,
        RuleTag::StringLit => "String"@,
        RuleTag::NumberLit => "Number"@,
        RuleTag::Symbol => "Symbol"@,
        RuleTag::SymbolSegment => "SYMBOL"@,
        RuleTag::SpecialValue => "SpecialValue"@,
        RuleTag::Operator => "operator"@,
        RuleTag::Prefix => "Prefix"@,
        RuleTag::Suffix => "Suffix"@,
        RuleTag::Eos => "eos"@,
        RuleTag::Other => "unknown"@,
    }
}

/// The name of a rule tag, for error reports.
pub fn tag_name(t: RuleTag) -> (out: String)
    ensures
        out@ == spec_tag_name(t),
{
    match t {
        RuleTag::Program => "program".to_owned(),
        RuleTag::Statement => "statement".to_owned(),
        RuleTag::Whitespace => "WHITESPACE".to_owned(),
        RuleTag::Expression => "expression".to_owned(),
        RuleTag::IfStatement => "if_statement".to_owned(),
        RuleTag::ForStatement => "for_statement".to_owned(),
        RuleTag::Block => "block".to_owned(),
        RuleTag::Expr => "expr".to_owned(),
        RuleTag::Term => "term".to_owned(),
        RuleTag::Pattern => "pattern".to_owned(),
        RuleTag::ChainCall => "chain_call".to_owned(),
        RuleTag::Data => "data".to_owned(),
        RuleTag::Template => "template".to_owned(),
        RuleTag::SelfClose => "SelfClose".to_owned(),
        RuleTag::OpenClose => "OpenClose".to_owned(),
        RuleTag::HtmlBad => "HTMLBad".to_owned(),
        RuleTag::HtmlBadSymbol => "HTMLBadSymbol".to_owned(),
        RuleTag::TextMode => "text_mode".to_owned(),
        RuleTag::BadSymbol => "BadSymbol".to_owned(),
        RuleTag::HtmlPair => "html_pair".to_owned(),
        RuleTag::SetSign => "Set".to_owned(),
        RuleTag::TextChar => "text_char".to_owned(),
        RuleTag::List => "list".to_owned(),
        RuleTag::Comma => "Comma".to_owned(),
        RuleTag::StringLit => "String".to_owned(),
        RuleTag::NumberLit => "Number".to_owned(),
        RuleTag::Symbol => "Symbol".to_owned(),
        RuleTag::SymbolSegment => "SYMBOL".to_owned(),
        RuleTag::SpecialValue => "SpecialValue".to_owned(),
        RuleTag::Operator => "operator".to_owned(),
        RuleTag::Prefix => "Prefix".to_owned(),
        RuleTag::Suffix => "Suffix".to_owned(),
        RuleTag::Eos => "eos".to_owned(),
        RuleTag::Other => "unknown".to_owned(),
    }
}

} // verus!

verus! {

/// Decide whether a concrete tree is well-nested.  The translation's
/// span-containment law holds for exactly the trees this accepts; a
/// grammar engine whose sub-matches lie inside their parent match always
/// produces such trees, and a caller that does not trust its engine can
/// establish the fact here.
pub fn well_nested(c: &CstNode) -> (b: bool)
    ensures
        b == cst_wf(cst_view(*c)),
    decreases *c,
{
    let ghost gc = cst_view(*c);
    let n = c.children.len();
    let mut i: usize = 0;
    while i < n
        invariant
            n == c.children@.len(),
            i <= n,
            gc == cst_view(*c),
            forall|k: int|
                0 <= k < i ==> (#[trigger] gc.children[k]).range.is_within(gc.range) && cst_wf(
                    gc.children[k],
                ),
        decreases n - i,
    {
        proof {
            lemma_csts_view_index(c.children@);
        }
        let ch = &c.children[i];
        let inside = c.range.start <= ch.range.start && ch.range.end <= c.range.end;
        if !inside || !well_nested(ch) {
            proof {
                assert(!((gc.children[i as int]).range.is_within(gc.range) && cst_wf(
                    gc.children[i as int],
                )));
                assert(!cst_wf(gc));
            }
            return false;
        }
        i = i + 1;
    }
    proof {
        lemma_csts_view_index(c.children@);
        assert(cst_wf(gc));
    }
    true
}

} // verus!
