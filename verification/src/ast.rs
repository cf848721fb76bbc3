use vstd::prelude::*;
use crate::lexer::Float;
use crate::lexer::Operator;

verus! {

/// Expressions, as the parser hands them to the compiler.
#[derive(Debug, PartialEq)]
pub enum Expr {
    IntegerValue(i128),
    FloatValue(Float),
    BooleanValue(bool),
    StringValue(String),
    NoneValue,
    Variable(String),
    MemberAccess(Box<Expr>, String),
    IndexAccess(Box<Expr>, Box<Expr>),
    Array(Vec<Expr>),
    FunctionCall(Box<Expr>, Vec<Expr>),
    BinaryOperation(Box<Expr>, Operator, Box<Expr>),
    UnaryExpression(Operator, Box<Expr>),
    Parenthesized(Box<Expr>),
}

/// A parameter of a function declaration.
#[derive(Debug, PartialEq)]
pub enum FunctionParameter {
    Simple(String),
    DefaultValue(String, Expr),
}

/// A condition together with the statements it guards.
#[derive(Debug, PartialEq)]
pub struct ASTIfStatement {
    pub expression: Expr,
    pub statements: Vec<AST>,
}

/// Statements.
#[derive(Debug, PartialEq)]
pub enum AST {
    Assign { path: Vec<String>, expression: Expr },
    StandaloneExpr(Expr),
    Return(Option<Expr>),
    IfStatement { true_branch: ASTIfStatement, elifs: Vec<ASTIfStatement>, final_else: Option<Vec<AST>> },
    WhileStatement { expression: Expr, body: Vec<AST> },
    ForStatement { item_name: String, list_expression: Expr, body: Vec<AST> },
    DeclareFunction { function_name: String, parameters: Vec<FunctionParameter>, body: Vec<AST> },
    ClassDeclaration { class_name: String, body: Vec<AST> },
    Raise(Expr),
    Break,
}

} // verus!
