use crate::ast::{ast_view, AstView, AST};
use crate::cst::{cst_view, spec_tag_name, tag_name, CstNode, CstView};
use vstd::prelude::*;

verus! {

/// The structured failures a parse can report.  On any failure no partial
/// tree is exposed: parsing is all-or-nothing.
#[derive(Debug, Clone, PartialEq, Eq)]
pub enum ParseError {
    /// The grammar engine rejected the normalized input; the message
    /// carries the engine's expected-production context.
    Syntax { message: String, start: usize, end: usize },
    /// The grammar produced a concrete node that the tree builder has no
    /// translation for: an internal consistency fault between grammar and
    /// translator, reported instead of aborting.
    UntranslatedRule { rule: String, start: usize, end: usize },
    /// The concrete tree nests more deeply than the configured bound.
    NestingTooDeep { start: usize, end: usize },
    /// Source text could not be obtained; propagated unchanged from the
    /// caller's input abstraction.
    Acquisition { message: String },
}

/// Mathematical model of a [`ParseError`].
pub enum ErrorView {
    Syntax { message: Seq<char>, start: usize, end: usize },
    UntranslatedRule { rule: Seq<char>, start: usize, end: usize },
    NestingTooDeep { start: usize, end: usize },
    Acquisition { message: Seq<char> },
}

/// Model of an error value.
pub open spec fn err_view(e: ParseError) -> ErrorView {
    match e {
        ParseError::Syntax { message, start, end } => ErrorView::Syntax {
            message: message@,
            start,
            end,
        },
        ParseError::UntranslatedRule { rule, start, end } => ErrorView::UntranslatedRule {
            rule: rule@,
            start,
            end,
        },
        ParseError::NestingTooDeep { start, end } => ErrorView::NestingTooDeep { start, end },
        ParseError::Acquisition { message } => ErrorView::Acquisition { message: message@ },
    }
}

/// Model of a whole parse result.
pub open spec fn ast_result_view(r: Result<AST, ParseError>) -> Result<AstView, ErrorView> {
    match r {
        Ok(a) => Ok(ast_view(a)),
        Err(e) => Err(err_view(e)),
    }
}

/// The model of the untranslated-rule error for a concrete node.
pub open spec fn spec_untranslated(c: CstView) -> ErrorView {
    ErrorView::UntranslatedRule {
        rule: spec_tag_name(c.rule),
        start: c.range.start,
        end: c.range.end,
    }
}

/// The untranslated-rule error for a concrete node, carrying the rule name
/// and span.
pub fn untranslated(c: &CstNode) -> (e: ParseError)
    ensures
        err_view(e) == spec_untranslated(cst_view(*c)),
{
    ParseError::UntranslatedRule {
        rule: tag_name(c.rule),
        start: c.range.start,
        end: c.range.end,
    }
}

/// The model of the nesting-bound error for a concrete node.
pub open spec fn spec_too_deep(c: CstView) -> ErrorView {
    ErrorView::NestingTooDeep { start: c.range.start, end: c.range.end }
}

/// The nesting-bound error for a concrete node.
pub fn too_deep(c: &CstNode) -> (e: ParseError)
    ensures
        err_view(e) == spec_too_deep(cst_view(*c)),
{
    ParseError::NestingTooDeep { start: c.range.start, end: c.range.end }
}

} // verus!
