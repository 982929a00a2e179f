//! The kinds of nodes of a newt syntax tree.
use vstd::prelude::*;

verus! {

/// The kind of a syntax node. `Error` carries the message reported for the node;
/// `TombStone` marks a node slot that has not been given a kind (yet).
#[derive(PartialEq, Eq, Copy, Clone, Debug)]
pub enum SyntaxKind {
    TombStone,
    Error(&'static str),
    StmtListStmt,
    ExprStmt,
    ReturnStmt,
    IfStmt,
    WhileStmt,
    FunctionDeclarationStmt,
    VariableDeclarationStmt,
    VariableAssignmentStmt,
    AssignmentStmt,
    UnaryExpr,
    BinaryExpr,
    LiteralExpr,
    PrimitiveLiteralExpr,
    GroupingExpr,
    VariableExpr,
    FunctionCallExpr,
    ObjectLiteralExpr,
    ObjectPropertyExpr,
    ObjectPropertyRVal,
    VariableRval,
}

} // verus!
