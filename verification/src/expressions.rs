//! The expression tree produced by parsing.
//!
//! `Expr` is the tree the parser builds; `ExprModel` is its mathematical
//! shadow, with `Seq` in place of `Vec`, which the parser's specification
//! speaks of.

use vstd::prelude::*;
use crate::source_pos::SourcePos;

verus! {

broadcast use vstd::std_specs::vec::group_vec_axioms, vstd::seq::group_seq_axioms;

/// The delimiters of a string literal.
#[derive(Debug, Clone, Copy, PartialEq, Eq, Structural)]
pub enum StringDelimiters {
    SingleQuotes,
    DoubleQuotes,
    BackTicks,
    SingleQuotesMultiline,
    DoubleQuotesMultiline,
    BackTicksMultiline,
}

/// An expression of the Lligne language. Every variant carries the source
/// position spanning exactly the tokens consumed to build it.
///
/// A `Float64Literal` carries its position alone: the numeric value is
/// recovered from the source text by the host.
#[derive(Debug)]
pub enum Expr {
    Addition { source_position: SourcePos, lhs: Box<Expr>, rhs: Box<Expr> },
    ArrayLiteral { source_position: SourcePos, elements: Vec<Expr> },
    BooleanLiteral { source_position: SourcePos, value: bool },
    BuiltInType { source_position: SourcePos },
    Division { source_position: SourcePos, lhs: Box<Expr>, rhs: Box<Expr> },
    Document { source_position: SourcePos, lhs: Box<Expr>, rhs: Box<Expr> },
    Equals { source_position: SourcePos, lhs: Box<Expr>, rhs: Box<Expr> },
    FieldReference { source_position: SourcePos, parent: Box<Expr>, child: Box<Expr> },
    Float64Literal { source_position: SourcePos },
    FunctionArguments { source_position: SourcePos, items: Vec<Expr> },
    FunctionArrow { source_position: SourcePos, argument: Box<Expr>, result: Box<Expr> },
    FunctionCall { source_position: SourcePos, function_reference: Box<Expr>, argument: Box<Expr> },
    GreaterThan { source_position: SourcePos, lhs: Box<Expr>, rhs: Box<Expr> },
    GreaterThanOrEquals { source_position: SourcePos, lhs: Box<Expr>, rhs: Box<Expr> },
    Identifier { source_position: SourcePos },
    In { source_position: SourcePos, lhs: Box<Expr>, rhs: Box<Expr> },
    Int64Literal { source_position: SourcePos, value: i64 },
    Intersect { source_position: SourcePos, lhs: Box<Expr>, rhs: Box<Expr> },
    IntersectAssignValue { source_position: SourcePos, lhs: Box<Expr>, rhs: Box<Expr> },
    IntersectDefaultValue { source_position: SourcePos, lhs: Box<Expr>, rhs: Box<Expr> },
    IntersectLowPrecedence { source_position: SourcePos, lhs: Box<Expr>, rhs: Box<Expr> },
    Is { source_position: SourcePos, lhs: Box<Expr>, rhs: Box<Expr> },
    LeadingDocumentation { source_position: SourcePos },
    LessThan { source_position: SourcePos, lhs: Box<Expr>, rhs: Box<Expr> },
    LessThanOrEquals { source_position: SourcePos, lhs: Box<Expr>, rhs: Box<Expr> },
    LogicalAnd { source_position: SourcePos, lhs: Box<Expr>, rhs: Box<Expr> },
    LogicalNotOperation { source_position: SourcePos, operand: Box<Expr> },
    LogicalOr { source_position: SourcePos, lhs: Box<Expr>, rhs: Box<Expr> },
    Match { source_position: SourcePos, lhs: Box<Expr>, rhs: Box<Expr> },
    Multiplication { source_position: SourcePos, lhs: Box<Expr>, rhs: Box<Expr> },
    NegationOperation { source_position: SourcePos, operand: Box<Expr> },
    NotEquals { source_position: SourcePos, lhs: Box<Expr>, rhs: Box<Expr> },
    NotMatch { source_position: SourcePos, lhs: Box<Expr>, rhs: Box<Expr> },
    Optional { source_position: SourcePos, operand: Box<Expr> },
    Parenthesized { source_position: SourcePos, inner_expr: Box<Expr> },
    Qualify { source_position: SourcePos, lhs: Box<Expr>, rhs: Box<Expr> },
    Range { source_position: SourcePos, first: Box<Expr>, last: Box<Expr> },
    Record { source_position: SourcePos, items: Vec<Expr> },
    StringLiteral { source_position: SourcePos, delimiters: StringDelimiters },
    Subtraction { source_position: SourcePos, lhs: Box<Expr>, rhs: Box<Expr> },
    TrailingDocumentation { source_position: SourcePos },
    Union { source_position: SourcePos, lhs: Box<Expr>, rhs: Box<Expr> },
    Unit { source_position: SourcePos },
    When { source_position: SourcePos, lhs: Box<Expr>, rhs: Box<Expr> },
    Where { source_position: SourcePos, lhs: Box<Expr>, rhs: Box<Expr> },
}

/// The mathematical shadow of an expression: the same variants with
/// sequences in place of vectors.
pub enum ExprModel {
    Addition { source_position: SourcePos, lhs: Box<ExprModel>, rhs: Box<ExprModel> },
    ArrayLiteral { source_position: SourcePos, elements: Seq<ExprModel> },
    BooleanLiteral { source_position: SourcePos, value: bool },
    BuiltInType { source_position: SourcePos },
    Division { source_position: SourcePos, lhs: Box<ExprModel>, rhs: Box<ExprModel> },
    Document { source_position: SourcePos, lhs: Box<ExprModel>, rhs: Box<ExprModel> },
    Equals { source_position: SourcePos, lhs: Box<ExprModel>, rhs: Box<ExprModel> },
    FieldReference { source_position: SourcePos, parent: Box<ExprModel>, child: Box<ExprModel> },
    Float64Literal { source_position: SourcePos },
    FunctionArguments { source_position: SourcePos, items: Seq<ExprModel> },
    FunctionArrow { source_position: SourcePos, argument: Box<ExprModel>, result: Box<ExprModel> },
    FunctionCall { source_position: SourcePos, function_reference: Box<ExprModel>, argument: Box<ExprModel> },
    GreaterThan { source_position: SourcePos, lhs: Box<ExprModel>, rhs: Box<ExprModel> },
    GreaterThanOrEquals { source_position: SourcePos, lhs: Box<ExprModel>, rhs: Box<ExprModel> },
    Identifier { source_position: SourcePos },
    In { source_position: SourcePos, lhs: Box<ExprModel>, rhs: Box<ExprModel> },
    Int64Literal { source_position: SourcePos, value: i64 },
    Intersect { source_position: SourcePos, lhs: Box<ExprModel>, rhs: Box<ExprModel> },
    IntersectAssignValue { source_position: SourcePos, lhs: Box<ExprModel>, rhs: Box<ExprModel> },
    IntersectDefaultValue { source_position: SourcePos, lhs: Box<ExprModel>, rhs: Box<ExprModel> },
    IntersectLowPrecedence { source_position: SourcePos, lhs: Box<ExprModel>, rhs: Box<ExprModel> },
    Is { source_position: SourcePos, lhs: Box<ExprModel>, rhs: Box<ExprModel> },
    LeadingDocumentation { source_position: SourcePos },
    LessThan { source_position: SourcePos, lhs: Box<ExprModel>, rhs: Box<ExprModel> },
    LessThanOrEquals { source_position: SourcePos, lhs: Box<ExprModel>, rhs: Box<ExprModel> },
    LogicalAnd { source_position: SourcePos, lhs: Box<ExprModel>, rhs: Box<ExprModel> },
    LogicalNotOperation { source_position: SourcePos, operand: Box<ExprModel> },
    LogicalOr { source_position: SourcePos, lhs: Box<ExprModel>, rhs: Box<ExprModel> },
    Match { source_position: SourcePos, lhs: Box<ExprModel>, rhs: Box<ExprModel> },
    Multiplication { source_position: SourcePos, lhs: Box<ExprModel>, rhs: Box<ExprModel> },
    NegationOperation { source_position: SourcePos, operand: Box<ExprModel> },
    NotEquals { source_position: SourcePos, lhs: Box<ExprModel>, rhs: Box<ExprModel> },
    NotMatch { source_position: SourcePos, lhs: Box<ExprModel>, rhs: Box<ExprModel> },
    Optional { source_position: SourcePos, operand: Box<ExprModel> },
    Parenthesized { source_position: SourcePos, inner_expr: Box<ExprModel> },
    Qualify { source_position: SourcePos, lhs: Box<ExprModel>, rhs: Box<ExprModel> },
    Range { source_position: SourcePos, first: Box<ExprModel>, last: Box<ExprModel> },
    Record { source_position: SourcePos, items: Seq<ExprModel> },
    StringLiteral { source_position: SourcePos, delimiters: StringDelimiters },
    Subtraction { source_position: SourcePos, lhs: Box<ExprModel>, rhs: Box<ExprModel> },
    TrailingDocumentation { source_position: SourcePos },
    Union { source_position: SourcePos, lhs: Box<ExprModel>, rhs: Box<ExprModel> },
    Unit { source_position: SourcePos },
    When { source_position: SourcePos, lhs: Box<ExprModel>, rhs: Box<ExprModel> },
    Where { source_position: SourcePos, lhs: Box<ExprModel>, rhs: Box<ExprModel> },
}

/// The models of a sequence of expressions, in order.
pub open spec fn models_of(v: Seq<Expr>) -> Seq<ExprModel>
    decreases v,
{
    if v.len() == 0 {
        seq![]
    } else {
        seq![v[0].model()] + models_of(v.drop_first())
    }
}

impl Expr {
    pub open spec fn model(&self) -> ExprModel
        decreases self,
    {
        match self {
            Expr::Addition { source_position, lhs, rhs } => ExprModel::Addition {
                source_position: *source_position,
                lhs: Box::new(lhs.model()),
                rhs: Box::new(rhs.model()),
            },
            Expr::ArrayLiteral { source_position, elements } => ExprModel::ArrayLiteral {
                source_position: *source_position,
                elements: models_of(elements@),
            },
            Expr::BooleanLiteral { source_position, value } => ExprModel::BooleanLiteral { source_position: *source_position, value: *value, },
            Expr::BuiltInType { source_position } => ExprModel::BuiltInType { source_position: *source_position, },
            Expr::Division { source_position, lhs, rhs } => ExprModel::Division {
                source_position: *source_position,
                lhs: Box::new(lhs.model()),
                rhs: Box::new(rhs.model()),
            },
            Expr::Document { source_position, lhs, rhs } => ExprModel::Document {
                source_position: *source_position,
                lhs: Box::new(lhs.model()),
                rhs: Box::new(rhs.model()),
            },
            Expr::Equals { source_position, lhs, rhs } => ExprModel::Equals {
                source_position: *source_position,
                lhs: Box::new(lhs.model()),
                rhs: Box::new(rhs.model()),
            },
            Expr::FieldReference { source_position, parent, child } => ExprModel::FieldReference {
                source_position: *source_position,
                parent: Box::new(parent.model()),
                child: Box::new(child.model()),
            },
            Expr::Float64Literal { source_position } => ExprModel::Float64Literal { source_position: *source_position, },
            Expr::FunctionArguments { source_position, items } => ExprModel::FunctionArguments {
                source_position: *source_position,
                items: models_of(items@),
            },
            Expr::FunctionArrow { source_position, argument, result } => ExprModel::FunctionArrow {
                source_position: *source_position,
                argument: Box::new(argument.model()),
                result: Box::new(result.model()),
            },
            Expr::FunctionCall { source_position, function_reference, argument } => ExprModel::FunctionCall {
                source_position: *source_position,
                function_reference: Box::new(function_reference.model()),
                argument: Box::new(argument.model()),
            },
            Expr::GreaterThan { source_position, lhs, rhs } => ExprModel::GreaterThan {
                source_position: *source_position,
                lhs: Box::new(lhs.model()),
                rhs: Box::new(rhs.model()),
            },
            Expr::GreaterThanOrEquals { source_position, lhs, rhs } => ExprModel::GreaterThanOrEquals {
                source_position: *source_position,
                lhs: Box::new(lhs.model()),
                rhs: Box::new(rhs.model()),
            },
            Expr::Identifier { source_position } => ExprModel::Identifier { source_position: *source_position, },
            Expr::In { source_position, lhs, rhs } => ExprModel::In {
                source_position: *source_position,
                lhs: Box::new(lhs.model()),
                rhs: Box::new(rhs.model()),
            },
            Expr::Int64Literal { source_position, value } => ExprModel::Int64Literal { source_position: *source_position, value: *value, },
            Expr::Intersect { source_position, lhs, rhs } => ExprModel::Intersect {
                source_position: *source_position,
                lhs: Box::new(lhs.model()),
                rhs: Box::new(rhs.model()),
            },
            Expr::IntersectAssignValue { source_position, lhs, rhs } => ExprModel::IntersectAssignValue {
                source_position: *source_position,
                lhs: Box::new(lhs.model()),
                rhs: Box::new(rhs.model()),
            },
            Expr::IntersectDefaultValue { source_position, lhs, rhs } => ExprModel::IntersectDefaultValue {
                source_position: *source_position,
                lhs: Box::new(lhs.model()),
                rhs: Box::new(rhs.model()),
            },
            Expr::IntersectLowPrecedence { source_position, lhs, rhs } => ExprModel::IntersectLowPrecedence {
                source_position: *source_position,
                lhs: Box::new(lhs.model()),
                rhs: Box::new(rhs.model()),
            },
            Expr::Is { source_position, lhs, rhs } => ExprModel::Is {
                source_position: *source_position,
                lhs: Box::new(lhs.model()),
                rhs: Box::new(rhs.model()),
            },
            Expr::LeadingDocumentation { source_position } => ExprModel::LeadingDocumentation { source_position: *source_position, },
            Expr::LessThan { source_position, lhs, rhs } => ExprModel::LessThan {
                source_position: *source_position,
                lhs: Box::new(lhs.model()),
                rhs: Box::new(rhs.model()),
            },
            Expr::LessThanOrEquals { source_position, lhs, rhs } => ExprModel::LessThanOrEquals {
                source_position: *source_position,
                lhs: Box::new(lhs.model()),
                rhs: Box::new(rhs.model()),
            },
            Expr::LogicalAnd { source_position, lhs, rhs } => ExprModel::LogicalAnd {
                source_position: *source_position,
                lhs: Box::new(lhs.model()),
                rhs: Box::new(rhs.model()),
            },
            Expr::LogicalNotOperation { source_position, operand } => ExprModel::LogicalNotOperation {
                source_position: *source_position,
                operand: Box::new(operand.model()),
            },
            Expr::LogicalOr { source_position, lhs, rhs } => ExprModel::LogicalOr {
                source_position: *source_position,
                lhs: Box::new(lhs.model()),
                rhs: Box::new(rhs.model()),
            },
            Expr::Match { source_position, lhs, rhs } => ExprModel::Match {
                source_position: *source_position,
                lhs: Box::new(lhs.model()),
                rhs: Box::new(rhs.model()),
            },
            Expr::Multiplication { source_position, lhs, rhs } => ExprModel::Multiplication {
                source_position: *source_position,
                lhs: Box::new(lhs.model()),
                rhs: Box::new(rhs.model()),
            },
            Expr::NegationOperation { source_position, operand } => ExprModel::NegationOperation {
                source_position: *source_position,
                operand: Box::new(operand.model()),
            },
            Expr::NotEquals { source_position, lhs, rhs } => ExprModel::NotEquals {
                source_position: *source_position,
                lhs: Box::new(lhs.model()),
                rhs: Box::new(rhs.model()),
            },
            Expr::NotMatch { source_position, lhs, rhs } => ExprModel::NotMatch {
                source_position: *source_position,
                lhs: Box::new(lhs.model()),
                rhs: Box::new(rhs.model()),
            },
            Expr::Optional { source_position, operand } => ExprModel::Optional {
                source_position: *source_position,
                operand: Box::new(operand.model()),
            },
            Expr::Parenthesized { source_position, inner_expr } => ExprModel::Parenthesized {
                source_position: *source_position,
                inner_expr: Box::new(inner_expr.model()),
            },
            Expr::Qualify { source_position, lhs, rhs } => ExprModel::Qualify {
                source_position: *source_position,
                lhs: Box::new(lhs.model()),
                rhs: Box::new(rhs.model()),
            },
            Expr::Range { source_position, first, last } => ExprModel::Range {
                source_position: *source_position,
                first: Box::new(first.model()),
                last: Box::new(last.model()),
            },
            Expr::Record { source_position, items } => ExprModel::Record {
                source_position: *source_position,
                items: models_of(items@),
            },
            Expr::StringLiteral { source_position, delimiters } => ExprModel::StringLiteral { source_position: *source_position, delimiters: *delimiters, },
            Expr::Subtraction { source_position, lhs, rhs } => ExprModel::Subtraction {
                source_position: *source_position,
                lhs: Box::new(lhs.model()),
                rhs: Box::new(rhs.model()),
            },
            Expr::TrailingDocumentation { source_position } => ExprModel::TrailingDocumentation { source_position: *source_position, },
            Expr::Union { source_position, lhs, rhs } => ExprModel::Union {
                source_position: *source_position,
                lhs: Box::new(lhs.model()),
                rhs: Box::new(rhs.model()),
            },
            Expr::Unit { source_position } => ExprModel::Unit { source_position: *source_position, },
            Expr::When { source_position, lhs, rhs } => ExprModel::When {
                source_position: *source_position,
                lhs: Box::new(lhs.model()),
                rhs: Box::new(rhs.model()),
            },
            Expr::Where { source_position, lhs, rhs } => ExprModel::Where {
                source_position: *source_position,
                lhs: Box::new(lhs.model()),
                rhs: Box::new(rhs.model()),
            },
        }
    }

    /// The source position of this expression.
    pub fn get_source_position(&self) -> (r: SourcePos)
        ensures
            r == model_pos(self.model()),
    {
        match self {
            Expr::Addition { source_position, .. } => *source_position,
            Expr::ArrayLiteral { source_position, .. } => *source_position,
            Expr::BooleanLiteral { source_position, .. } => *source_position,
            Expr::BuiltInType { source_position, .. } => *source_position,
            Expr::Division { source_position, .. } => *source_position,
            Expr::Document { source_position, .. } => *source_position,
            Expr::Equals { source_position, .. } => *source_position,
            Expr::FieldReference { source_position, .. } => *source_position,
            Expr::Float64Literal { source_position, .. } => *source_position,
            Expr::FunctionArguments { source_position, .. } => *source_position,
            Expr::FunctionArrow { source_position, .. } => *source_position,
            Expr::FunctionCall { source_position, .. } => *source_position,
            Expr::GreaterThan { source_position, .. } => *source_position,
            Expr::GreaterThanOrEquals { source_position, .. } => *source_position,
            Expr::Identifier { source_position, .. } => *source_position,
            Expr::In { source_position, .. } => *source_position,
            Expr::Int64Literal { source_position, .. } => *source_position,
            Expr::Intersect { source_position, .. } => *source_position,
            Expr::IntersectAssignValue { source_position, .. } => *source_position,
            Expr::IntersectDefaultValue { source_position, .. } => *source_position,
            Expr::IntersectLowPrecedence { source_position, .. } => *source_position,
            Expr::Is { source_position, .. } => *source_position,
            Expr::LeadingDocumentation { source_position, .. } => *source_position,
            Expr::LessThan { source_position, .. } => *source_position,
            Expr::LessThanOrEquals { source_position, .. } => *source_position,
            Expr::LogicalAnd { source_position, .. } => *source_position,
            Expr::LogicalNotOperation { source_position, .. } => *source_position,
            Expr::LogicalOr { source_position, .. } => *source_position,
            Expr::Match { source_position, .. } => *source_position,
            Expr::Multiplication { source_position, .. } => *source_position,
            Expr::NegationOperation { source_position, .. } => *source_position,
            Expr::NotEquals { source_position, .. } => *source_position,
            Expr::NotMatch { source_position, .. } => *source_position,
            Expr::Optional { source_position, .. } => *source_position,
            Expr::Parenthesized { source_position, .. } => *source_position,
            Expr::Qualify { source_position, .. } => *source_position,
            Expr::Range { source_position, .. } => *source_position,
            Expr::Record { source_position, .. } => *source_position,
            Expr::StringLiteral { source_position, .. } => *source_position,
            Expr::Subtraction { source_position, .. } => *source_position,
            Expr::TrailingDocumentation { source_position, .. } => *source_position,
            Expr::Union { source_position, .. } => *source_position,
            Expr::Unit { source_position, .. } => *source_position,
            Expr::When { source_position, .. } => *source_position,
            Expr::Where { source_position, .. } => *source_position,
        }
    }
}

impl View for Expr {
    type V = ExprModel;

    open spec fn view(&self) -> ExprModel {
        self.model()
    }
}

/// The source position a modelled expression carries.
pub open spec fn model_pos(m: ExprModel) -> SourcePos {
    match m {
            ExprModel::Addition { source_position, .. } => source_position,
            ExprModel::ArrayLiteral { source_position, .. } => source_position,
            ExprModel::BooleanLiteral { source_position, .. } => source_position,
            ExprModel::BuiltInType { source_position, .. } => source_position,
            ExprModel::Division { source_position, .. } => source_position,
            ExprModel::Document { source_position, .. } => source_position,
            ExprModel::Equals { source_position, .. } => source_position,
            ExprModel::FieldReference { source_position, .. } => source_position,
            ExprModel::Float64Literal { source_position, .. } => source_position,
            ExprModel::FunctionArguments { source_position, .. } => source_position,
            ExprModel::FunctionArrow { source_position, .. } => source_position,
            ExprModel::FunctionCall { source_position, .. } => source_position,
            ExprModel::GreaterThan { source_position, .. } => source_position,
            ExprModel::GreaterThanOrEquals { source_position, .. } => source_position,
            ExprModel::Identifier { source_position, .. } => source_position,
            ExprModel::In { source_position, .. } => source_position,
            ExprModel::Int64Literal { source_position, .. } => source_position,
            ExprModel::Intersect { source_position, .. } => source_position,
            ExprModel::IntersectAssignValue { source_position, .. } => source_position,
            ExprModel::IntersectDefaultValue { source_position, .. } => source_position,
            ExprModel::IntersectLowPrecedence { source_position, .. } => source_position,
            ExprModel::Is { source_position, .. } => source_position,
            ExprModel::LeadingDocumentation { source_position, .. } => source_position,
            ExprModel::LessThan { source_position, .. } => source_position,
            ExprModel::LessThanOrEquals { source_position, .. } => source_position,
            ExprModel::LogicalAnd { source_position, .. } => source_position,
            ExprModel::LogicalNotOperation { source_position, .. } => source_position,
            ExprModel::LogicalOr { source_position, .. } => source_position,
            ExprModel::Match { source_position, .. } => source_position,
            ExprModel::Multiplication { source_position, .. } => source_position,
            ExprModel::NegationOperation { source_position, .. } => source_position,
            ExprModel::NotEquals { source_position, .. } => source_position,
            ExprModel::NotMatch { source_position, .. } => source_position,
            ExprModel::Optional { source_position, .. } => source_position,
            ExprModel::Parenthesized { source_position, .. } => source_position,
            ExprModel::Qualify { source_position, .. } => source_position,
            ExprModel::Range { source_position, .. } => source_position,
            ExprModel::Record { source_position, .. } => source_position,
            ExprModel::StringLiteral { source_position, .. } => source_position,
            ExprModel::Subtraction { source_position, .. } => source_position,
            ExprModel::TrailingDocumentation { source_position, .. } => source_position,
            ExprModel::Union { source_position, .. } => source_position,
            ExprModel::Unit { source_position, .. } => source_position,
            ExprModel::When { source_position, .. } => source_position,
            ExprModel::Where { source_position, .. } => source_position,
    }
}

/// Well-placed source positions, throughout a tree: every expression —
/// the unit expression included — covers a nonempty byte range, and every
/// binary expression starts where its left operand starts and ends where
/// its right operand ends.
pub open spec fn model_positions_wf(m: ExprModel) -> bool
    decreases m,
{
    match m {
        ExprModel::Addition { source_position, lhs, rhs } => {
            &&& source_position.start_offset == model_pos(*lhs).start_offset
            &&& source_position.end_offset == model_pos(*rhs).end_offset
            &&& model_positions_wf(*lhs)
            &&& model_positions_wf(*rhs)
            &&& source_position.start_offset < source_position.end_offset
        },
        ExprModel::Division { source_position, lhs, rhs } => {
            &&& source_position.start_offset == model_pos(*lhs).start_offset
            &&& source_position.end_offset == model_pos(*rhs).end_offset
            &&& model_positions_wf(*lhs)
            &&& model_positions_wf(*rhs)
            &&& source_position.start_offset < source_position.end_offset
        },
        ExprModel::Document { source_position, lhs, rhs } => {
            &&& source_position.start_offset == model_pos(*lhs).start_offset
            &&& source_position.end_offset == model_pos(*rhs).end_offset
            &&& model_positions_wf(*lhs)
            &&& model_positions_wf(*rhs)
            &&& source_position.start_offset < source_position.end_offset
        },
        ExprModel::Equals { source_position, lhs, rhs } => {
            &&& source_position.start_offset == model_pos(*lhs).start_offset
            &&& source_position.end_offset == model_pos(*rhs).end_offset
            &&& model_positions_wf(*lhs)
            &&& model_positions_wf(*rhs)
            &&& source_position.start_offset < source_position.end_offset
        },
        ExprModel::FieldReference { source_position, parent, child } => {
            &&& source_position.start_offset == model_pos(*parent).start_offset
            &&& source_position.end_offset == model_pos(*child).end_offset
            &&& model_positions_wf(*parent)
            &&& model_positions_wf(*child)
            &&& source_position.start_offset < source_position.end_offset
        },
        ExprModel::FunctionArrow { source_position, argument, result } => {
            &&& source_position.start_offset == model_pos(*argument).start_offset
            &&& source_position.end_offset == model_pos(*result).end_offset
            &&& model_positions_wf(*argument)
            &&& model_positions_wf(*result)
            &&& source_position.start_offset < source_position.end_offset
        },
        ExprModel::GreaterThan { source_position, lhs, rhs } => {
            &&& source_position.start_offset == model_pos(*lhs).start_offset
            &&& source_position.end_offset == model_pos(*rhs).end_offset
            &&& model_positions_wf(*lhs)
            &&& model_positions_wf(*rhs)
            &&& source_position.start_offset < source_position.end_offset
        },
        ExprModel::GreaterThanOrEquals { source_position, lhs, rhs } => {
            &&& source_position.start_offset == model_pos(*lhs).start_offset
            &&& source_position.end_offset == model_pos(*rhs).end_offset
            &&& model_positions_wf(*lhs)
            &&& model_positions_wf(*rhs)
            &&& source_position.start_offset < source_position.end_offset
        },
        ExprModel::In { source_position, lhs, rhs } => {
            &&& source_position.start_offset == model_pos(*lhs).start_offset
            &&& source_position.end_offset == model_pos(*rhs).end_offset
            &&& model_positions_wf(*lhs)
            &&& model_positions_wf(*rhs)
            &&& source_position.start_offset < source_position.end_offset
        },
        ExprModel::Intersect { source_position, lhs, rhs } => {
            &&& source_position.start_offset == model_pos(*lhs).start_offset
            &&& source_position.end_offset == model_pos(*rhs).end_offset
            &&& model_positions_wf(*lhs)
            &&& model_positions_wf(*rhs)
            &&& source_position.start_offset < source_position.end_offset
        },
        ExprModel::IntersectAssignValue { source_position, lhs, rhs } => {
            &&& source_position.start_offset == model_pos(*lhs).start_offset
            &&& source_position.end_offset == model_pos(*rhs).end_offset
            &&& model_positions_wf(*lhs)
            &&& model_positions_wf(*rhs)
            &&& source_position.start_offset < source_position.end_offset
        },
        ExprModel::IntersectDefaultValue { source_position, lhs, rhs } => {
            &&& source_position.start_offset == model_pos(*lhs).start_offset
            &&& source_position.end_offset == model_pos(*rhs).end_offset
            &&& model_positions_wf(*lhs)
            &&& model_positions_wf(*rhs)
            &&& source_position.start_offset < source_position.end_offset
        },
        ExprModel::IntersectLowPrecedence { source_position, lhs, rhs } => {
            &&& source_position.start_offset == model_pos(*lhs).start_offset
            &&& source_position.end_offset == model_pos(*rhs).end_offset
            &&& model_positions_wf(*lhs)
            &&& model_positions_wf(*rhs)
            &&& source_position.start_offset < source_position.end_offset
        },
        ExprModel::Is { source_position, lhs, rhs } => {
            &&& source_position.start_offset == model_pos(*lhs).start_offset
            &&& source_position.end_offset == model_pos(*rhs).end_offset
            &&& model_positions_wf(*lhs)
            &&& model_positions_wf(*rhs)
            &&& source_position.start_offset < source_position.end_offset
        },
        ExprModel::LessThan { source_position, lhs, rhs } => {
            &&& source_position.start_offset == model_pos(*lhs).start_offset
            &&& source_position.end_offset == model_pos(*rhs).end_offset
            &&& model_positions_wf(*lhs)
            &&& model_positions_wf(*rhs)
            &&& source_position.start_offset < source_position.end_offset
        },
        ExprModel::LessThanOrEquals { source_position, lhs, rhs } => {
            &&& source_position.start_offset == model_pos(*lhs).start_offset
            &&& source_position.end_offset == model_pos(*rhs).end_offset
            &&& model_positions_wf(*lhs)
            &&& model_positions_wf(*rhs)
            &&& source_position.start_offset < source_position.end_offset
        },
        ExprModel::LogicalAnd { source_position, lhs, rhs } => {
            &&& source_position.start_offset == model_pos(*lhs).start_offset
            &&& source_position.end_offset == model_pos(*rhs).end_offset
            &&& model_positions_wf(*lhs)
            &&& model_positions_wf(*rhs)
            &&& source_position.start_offset < source_position.end_offset
        },
        ExprModel::LogicalOr { source_position, lhs, rhs } => {
            &&& source_position.start_offset == model_pos(*lhs).start_offset
            &&& source_position.end_offset == model_pos(*rhs).end_offset
            &&& model_positions_wf(*lhs)
            &&& model_positions_wf(*rhs)
            &&& source_position.start_offset < source_position.end_offset
        },
        ExprModel::Match { source_position, lhs, rhs } => {
            &&& source_position.start_offset == model_pos(*lhs).start_offset
            &&& source_position.end_offset == model_pos(*rhs).end_offset
            &&& model_positions_wf(*lhs)
            &&& model_positions_wf(*rhs)
            &&& source_position.start_offset < source_position.end_offset
        },
        ExprModel::Multiplication { source_position, lhs, rhs } => {
            &&& source_position.start_offset == model_pos(*lhs).start_offset
            &&& source_position.end_offset == model_pos(*rhs).end_offset
            &&& model_positions_wf(*lhs)
            &&& model_positions_wf(*rhs)
            &&& source_position.start_offset < source_position.end_offset
        },
        ExprModel::NotEquals { source_position, lhs, rhs } => {
            &&& source_position.start_offset == model_pos(*lhs).start_offset
            &&& source_position.end_offset == model_pos(*rhs).end_offset
            &&& model_positions_wf(*lhs)
            &&& model_positions_wf(*rhs)
            &&& source_position.start_offset < source_position.end_offset
        },
        ExprModel::NotMatch { source_position, lhs, rhs } => {
            &&& source_position.start_offset == model_pos(*lhs).start_offset
            &&& source_position.end_offset == model_pos(*rhs).end_offset
            &&& model_positions_wf(*lhs)
            &&& model_positions_wf(*rhs)
            &&& source_position.start_offset < source_position.end_offset
        },
        ExprModel::Qualify { source_position, lhs, rhs } => {
            &&& source_position.start_offset == model_pos(*lhs).start_offset
            &&& source_position.end_offset == model_pos(*rhs).end_offset
            &&& model_positions_wf(*lhs)
            &&& model_positions_wf(*rhs)
            &&& source_position.start_offset < source_position.end_offset
        },
        ExprModel::Range { source_position, first, last } => {
            &&& source_position.start_offset == model_pos(*first).start_offset
            &&& source_position.end_offset == model_pos(*last).end_offset
            &&& model_positions_wf(*first)
            &&& model_positions_wf(*last)
            &&& source_position.start_offset < source_position.end_offset
        },
        ExprModel::Subtraction { source_position, lhs, rhs } => {
            &&& source_position.start_offset == model_pos(*lhs).start_offset
            &&& source_position.end_offset == model_pos(*rhs).end_offset
            &&& model_positions_wf(*lhs)
            &&& model_positions_wf(*rhs)
            &&& source_position.start_offset < source_position.end_offset
        },
        ExprModel::Union { source_position, lhs, rhs } => {
            &&& source_position.start_offset == model_pos(*lhs).start_offset
            &&& source_position.end_offset == model_pos(*rhs).end_offset
            &&& model_positions_wf(*lhs)
            &&& model_positions_wf(*rhs)
            &&& source_position.start_offset < source_position.end_offset
        },
        ExprModel::When { source_position, lhs, rhs } => {
            &&& source_position.start_offset == model_pos(*lhs).start_offset
            &&& source_position.end_offset == model_pos(*rhs).end_offset
            &&& model_positions_wf(*lhs)
            &&& model_positions_wf(*rhs)
            &&& source_position.start_offset < source_position.end_offset
        },
        ExprModel::Where { source_position, lhs, rhs } => {
            &&& source_position.start_offset == model_pos(*lhs).start_offset
            &&& source_position.end_offset == model_pos(*rhs).end_offset
            &&& model_positions_wf(*lhs)
            &&& model_positions_wf(*rhs)
            &&& source_position.start_offset < source_position.end_offset
        },
        ExprModel::FunctionCall { source_position, function_reference, argument } => {
            &&& source_position.start_offset == model_pos(*function_reference).start_offset
            &&& source_position.end_offset == model_pos(*argument).end_offset
            &&& model_positions_wf(*function_reference)
            &&& model_positions_wf(*argument)
            &&& source_position.start_offset < source_position.end_offset
        },
        ExprModel::LogicalNotOperation { source_position, operand } => {
            &&& model_positions_wf(*operand)
            &&& source_position.start_offset < source_position.end_offset
        },
        ExprModel::NegationOperation { source_position, operand } => {
            &&& model_positions_wf(*operand)
            &&& source_position.start_offset < source_position.end_offset
        },
        ExprModel::Optional { source_position, operand } => {
            &&& model_positions_wf(*operand)
            &&& source_position.start_offset < source_position.end_offset
        },
        ExprModel::Parenthesized { source_position, inner_expr } => {
            &&& model_positions_wf(*inner_expr)
            &&& source_position.start_offset < source_position.end_offset
        },
        ExprModel::ArrayLiteral { source_position, elements } => {
            &&& forall|k: int| 0 <= k < elements.len() ==> model_positions_wf(#[trigger] elements[k])
            &&& source_position.start_offset < source_position.end_offset
        },
        ExprModel::FunctionArguments { source_position, items } => {
            &&& forall|k: int| 0 <= k < items.len() ==> model_positions_wf(#[trigger] items[k])
            &&& source_position.start_offset < source_position.end_offset
        },
        ExprModel::Record { source_position, items } => {
            &&& forall|k: int| 0 <= k < items.len() ==> model_positions_wf(#[trigger] items[k])
            &&& source_position.start_offset < source_position.end_offset
        },
        ExprModel::BooleanLiteral { source_position, .. } => source_position.start_offset
            < source_position.end_offset,
        ExprModel::BuiltInType { source_position, .. } => source_position.start_offset
            < source_position.end_offset,
        ExprModel::Float64Literal { source_position, .. } => source_position.start_offset
            < source_position.end_offset,
        ExprModel::Identifier { source_position, .. } => source_position.start_offset
            < source_position.end_offset,
        ExprModel::Int64Literal { source_position, .. } => source_position.start_offset
            < source_position.end_offset,
        ExprModel::LeadingDocumentation { source_position, .. } => source_position.start_offset
            < source_position.end_offset,
        ExprModel::StringLiteral { source_position, .. } => source_position.start_offset
            < source_position.end_offset,
        ExprModel::TrailingDocumentation { source_position, .. } => source_position.start_offset
            < source_position.end_offset,
        ExprModel::Unit { source_position, .. } => source_position.start_offset
            < source_position.end_offset,
    }
}


} // verus!
