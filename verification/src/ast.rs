//! The abstract syntax of modules.

use vstd::prelude::*;

verus! {

/// A loaded module: a behavior together with its items.
pub struct Module {
    pub behavior: Behavior,
    pub items: Vec<Item>,
}

/// A structure declaration.
pub struct Struct {
    pub name: String,
    pub fields: Vec<Field>,
}

/// An enumeration declaration: named variants, each shaped like a structure.
pub struct Enum {
    pub name: String,
    pub variants: Vec<Struct>,
}

/// A named, typed field.
pub struct Field {
    pub name: String,
    pub ty: Type,
}

/// A type expression.
pub struct Type;

/// A function: a bundle of subfunctions sharing a name.
pub struct Function {
    pub subfunctions: Vec<SubFunction>,
}

/// One clause of a function.
pub struct SubFunction {
    // implicit arity in arguments length
    pub name: String,
    pub ret: Type,
    pub arguments: Vec<Field>,
    pub statements: Vec<Statement>,
}

/// A statement of a subfunction body.
pub enum Statement {
    Assign(String, Expression),
    Expression(Expression),
}

/// An expression.
pub enum Expression {
    Call,
    Case,
}

/// A top-level item of a module.
pub enum Item {
    Import { path: String },
    Export { name: String, arity: usize },
    Struct(Struct),
    Function(Function),
}

/// The behavior a module implements.
pub enum Behavior {
    Http,
    Grpc,
    StateMachine,
}

} // verus!
