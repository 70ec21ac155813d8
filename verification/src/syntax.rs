//! What the mutation engine reads of a TypeScript source: oxc parses it, and
//! its tokens and mutation sites are handed over as plain values.
//!
//! Everything oxc computes is behind the trusted items of this module. Their
//! result is named by `typescript_scan`: it is a function of the source text
//! and the path alone, and nothing more is claimed of it.

use vstd::prelude::*;

use oxc_allocator::Allocator;
use oxc_ast::ast::{BinaryExpression, Expression, LogicalExpression, ReturnStatement};
use oxc_ast_visit::{walk, Visit};
use oxc_parser::{config::TokensParserConfig, Parser};
use oxc_span::{GetSpan, SourceType};

verus! {

#[verifier::external_type_specification]
#[verifier::external_body]
pub struct ExBinaryExpression<'a>(BinaryExpression<'a>);

#[verifier::external_type_specification]
#[verifier::external_body]
pub struct ExLogicalExpression<'a>(LogicalExpression<'a>);

#[verifier::external_type_specification]
#[verifier::external_body]
pub struct ExReturnStatement<'a>(ReturnStatement<'a>);

/// A lexed token: the text that its kind stands for (such as `>` or `true`)
/// and its byte span in the source.
#[derive(Clone, Copy, Debug, PartialEq, Eq)]
pub struct ScannedToken {
    pub text: &'static str,
    pub start: u32,
    pub end: u32,
}

/// A token with its kind's text as a character sequence.
pub struct TokenView {
    pub text: Seq<char>,
    pub start: u32,
    pub end: u32,
}

impl View for ScannedToken {
    type V = TokenView;

    open spec fn view(&self) -> TokenView {
        TokenView { text: self.text@, start: self.start, end: self.end }
    }
}

impl DeepView for ScannedToken {
    type V = TokenView;

    open spec fn deep_view(&self) -> TokenView {
        self@
    }
}

/// A node of the syntax tree that a mutation operator may change.
#[derive(Clone, Copy, Debug, PartialEq, Eq)]
pub enum SyntaxSite {
    /// A binary expression: its operator's text, the end of its left operand
    /// and the start of its right operand.
    Binary { operator: &'static str, left_end: u32, right_start: u32 },
    /// A logical expression (`&&`, `||`, `??`), laid out as a binary one.
    Logical { operator: &'static str, left_end: u32, right_start: u32 },
    /// A `return` whose argument is a boolean literal: the literal's value and
    /// span.
    BooleanReturn { value: bool, start: u32, end: u32 },
}

/// A syntax site with its operator texts as character sequences.
pub enum SiteView {
    Binary { operator: Seq<char>, left_end: u32, right_start: u32 },
    Logical { operator: Seq<char>, left_end: u32, right_start: u32 },
    BooleanReturn { value: bool, start: u32, end: u32 },
}

impl View for SyntaxSite {
    type V = SiteView;

    open spec fn view(&self) -> SiteView {
        match *self {
            SyntaxSite::Binary { operator, left_end, right_start } => SiteView::Binary {
                operator: operator@,
                left_end,
                right_start,
            },
            SyntaxSite::Logical { operator, left_end, right_start } => SiteView::Logical {
                operator: operator@,
                left_end,
                right_start,
            },
            SyntaxSite::BooleanReturn { value, start, end } => SiteView::BooleanReturn {
                value,
                start,
                end,
            },
        }
    }
}

impl DeepView for SyntaxSite {
    type V = SiteView;

    open spec fn deep_view(&self) -> SiteView {
        self@
    }
}

/// What the parser made of a source: its diagnostics, its tokens in source
/// order and its mutation sites in the order of a depth-first walk.
pub struct SourceScan {
    pub diagnostics: Vec<String>,
    pub tokens: Vec<ScannedToken>,
    pub sites: Vec<SyntaxSite>,
}

/// A source scan as sequences of views.
pub struct ScanView {
    pub diagnostics: Seq<Seq<char>>,
    pub tokens: Seq<TokenView>,
    pub sites: Seq<SiteView>,
}

impl View for SourceScan {
    type V = ScanView;

    open spec fn view(&self) -> ScanView {
        ScanView {
            diagnostics: self.diagnostics.deep_view(),
            tokens: self.tokens.deep_view(),
            sites: self.sites.deep_view(),
        }
    }
}

/// What oxc's parser (with token collection) and a depth-first walk of the
/// tree it builds give for a source text at a path.
pub uninterp spec fn typescript_scan(source: Seq<char>, path: Seq<char>) -> ScanView;

/// Collects the mutation sites of a syntax tree during oxc's walk.
struct SiteCollector {
    sites: Vec<SyntaxSite>,
}

impl<'a> Visit<'a> for SiteCollector {
    /// Records a binary expression's operator text (`BinaryOperator::as_str`)
    /// between its operands' spans, then walks its operands.
    #[verifier::external_body]
    fn visit_binary_expression(&mut self, it: &BinaryExpression<'a>) {
        let (left_end, right_start) = (it.left.span().end, it.right.span().start);
        self.sites.push(SyntaxSite::Binary { operator: it.operator.as_str(), left_end, right_start });
        walk::walk_binary_expression(self, it);
    }

    /// Records a logical expression's operator text (`LogicalOperator::as_str`)
    /// between its operands' spans, then walks its operands.
    #[verifier::external_body]
    fn visit_logical_expression(&mut self, it: &LogicalExpression<'a>) {
        let (left_end, right_start) = (it.left.span().end, it.right.span().start);
        self.sites.push(SyntaxSite::Logical { operator: it.operator.as_str(), left_end, right_start });
        walk::walk_logical_expression(self, it);
    }

    /// Records a `return` whose argument is a boolean literal, with the
    /// literal's value and span, then walks the argument.
    #[verifier::external_body]
    fn visit_return_statement(&mut self, it: &ReturnStatement<'a>) {
        if let Some(Expression::BooleanLiteral(literal)) = &it.argument {
            let (value, start, end) = (literal.value, literal.span.start, literal.span.end);
            self.sites.push(SyntaxSite::BooleanReturn { value, start, end });
        }
        walk::walk_return_statement(self, it);
    }
}

/// Parses `source` with oxc's `Parser` (tokens collected), its source type
/// taken from `path` by `SourceType::from_path` and TypeScript when the path
/// has no known extension, and walks the tree with `Visit::visit_program`.
/// Gives the diagnostics (`to_string` of each), the tokens (`Kind::to_str` of
/// each kind, `start`, `end`) and the sites the walk recorded. The result is
/// named `typescript_scan` of the source and the path; nothing else is
/// claimed of it.
#[verifier::external_body]
pub fn scan_typescript(source: &str, path: &str) -> (scan: SourceScan)
    ensures
        scan@ == typescript_scan(source@, path@),
{
    let allocator = Allocator::default();
    let source_type = SourceType::from_path(path).unwrap_or(SourceType::ts());
    let parser = Parser::new(&allocator, source, source_type).with_config(TokensParserConfig);
    let parsed = parser.parse();
    let mut collector = SiteCollector { sites: Vec::new() };
    collector.visit_program(&parsed.program);
    let token = |t: &oxc_parser::Token| ScannedToken { text: t.kind().to_str(), start: t.start(), end: t.end() };
    SourceScan {
        diagnostics: parsed.diagnostics.iter().map(|d| d.to_string()).collect(),
        tokens: parsed.tokens.iter().map(token).collect(),
        sites: collector.sites,
    }
}

} // verus!
